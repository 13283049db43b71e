//! The query ring: a fixed pool of timer-query slots cycled round-robin, so
//! the device can run several frames ahead of submission without readback
//! ever blocking on a just-issued query.
//!
//! The ring tracks, per slot, whether a begun measurement is still awaiting
//! consumption; a slot may not be begun again before its prior result has
//! been consumed.

use vstd::prelude::*;
use vstd::arithmetic::div_mod::{
    lemma_fundamental_div_mod, lemma_mod_equivalence, lemma_mod_multiples_vanish, lemma_small_mod,
};

use crate::errors::BenchError;

verus! {

/// A fixed-size pool of timer-query slots, cycled modulo its size. The
/// device-side handles themselves live with the caller, indexed by slot.
pub struct QueryRing {
    size: usize,
    cursor: usize,
    issued: u64,
    pending: Vec<bool>,
}

impl QueryRing {
    /// Number of slots.
    pub closed spec fn size(self) -> int {
        self.size as int
    }

    /// The slot the next issuance will use.
    pub closed spec fn cursor(self) -> int {
        self.cursor as int
    }

    /// How many measurements have been begun over the ring's lifetime.
    pub closed spec fn issued(self) -> int {
        self.issued as int
    }

    /// Per slot, whether a begun measurement still awaits consumption.
    pub closed spec fn slots(self) -> Seq<bool> {
        self.pending@
    }

    /// The ring's invariant: the cursor cycles with the issuance count.
    pub closed spec fn wf(self) -> bool {
        &&& 0 < self.size
        &&& (self.cursor as int) < self.size as int
        &&& self.pending@.len() == self.size as int
        &&& self.cursor as int == self.issued as int % self.size as int
    }

    /// What well-formedness gives every caller: the cursor is the issuance
    /// count reduced modulo the ring size.
    pub proof fn lemma_wf_facts(self)
        requires
            self.wf(),
        ensures
            0 < self.size(),
            self.cursor() == self.issued() % self.size(),
            0 <= self.cursor() < self.size(),
            self.slots().len() == self.size(),
    {
    }

    /// Allocates a ring of `n` slots, none pending. A ring of zero slots is
    /// a setup failure: benchmarking cannot proceed without timer slots.
    pub fn allocate(n: usize) -> (r: Result<QueryRing, BenchError>)
        ensures
            r is Ok <==> n > 0,
            n == 0 ==> r == Err::<QueryRing, BenchError>(BenchError::SetupFailure),
            r is Ok ==> {
                let ring = r->Ok_0;
                &&& ring.wf()
                &&& ring.size() == n
                &&& ring.cursor() == 0
                &&& ring.issued() == 0
                &&& forall|i: int| 0 <= i < n ==> !ring.slots()[i]
            },
    {
        if n == 0 {
            return Err(BenchError::SetupFailure);
        }
        let mut pending: Vec<bool> = Vec::new();
        let mut i: usize = 0;
        while i < n
            invariant
                i <= n,
                pending@.len() == i,
                forall|j: int| 0 <= j < i ==> !pending@[j],
            decreases n - i,
        {
            pending.push(false);
            i = i + 1;
        }
        proof {
            lemma_small_mod(0, n as nat);
        }
        Ok(QueryRing { size: n, cursor: 0, issued: 0, pending })
    }

    /// Begins the next measurement: hands out the cursor's slot, marks it
    /// pending, and advances the cursor cyclically. The slot's prior result
    /// must already have been consumed — never overwrite before read.
    pub fn next(&mut self) -> (slot: usize)
        requires
            old(self).wf(),
            old(self).issued() < u64::MAX,
            !old(self).slots()[old(self).cursor()],
        ensures
            final(self).wf(),
            slot == old(self).cursor(),
            0 <= slot < old(self).size(),
            final(self).size() == old(self).size(),
            final(self).issued() == old(self).issued() + 1,
            final(self).cursor() == (old(self).cursor() + 1) % old(self).size(),
            final(self).slots() == old(self).slots().update(slot as int, true),
    {
        let slot = self.cursor;
        self.pending.set(slot, true);
        proof {
            let i = self.issued as int;
            let s = self.size as int;
            lemma_fundamental_div_mod(i, s);
            lemma_mod_multiples_vanish(i / s, self.cursor as int + 1, s);
            if self.cursor + 1 < self.size {
                lemma_small_mod((self.cursor + 1) as nat, self.size as nat);
            } else {
                lemma_mod_multiples_vanish(1, 0, s);
                lemma_small_mod(0, self.size as nat);
            }
        }
        self.issued = self.issued + 1;
        self.cursor = if slot + 1 == self.size {
            0
        } else {
            slot + 1
        };
        slot
    }

    /// Consumes the result a slot was awaiting, freeing it for reuse.
    pub fn consume(&mut self, slot: usize)
        requires
            old(self).wf(),
            0 <= slot < old(self).size(),
            old(self).slots()[slot as int],
        ensures
            final(self).wf(),
            final(self).size() == old(self).size(),
            final(self).cursor() == old(self).cursor(),
            final(self).issued() == old(self).issued(),
            final(self).slots() == old(self).slots().update(slot as int, false),
    {
        self.pending.set(slot, false);
    }

    /// Whether a slot still awaits consumption.
    pub fn is_pending(&self, slot: usize) -> (r: bool)
        requires
            self.wf(),
            0 <= slot < self.size(),
        ensures
            r == self.slots()[slot as int],
    {
        self.pending[slot]
    }

    /// The slot the next issuance will use.
    pub fn current_slot(&self) -> (r: usize)
        ensures
            r == self.cursor(),
    {
        self.cursor
    }

    /// Number of slots.
    pub fn len(&self) -> (r: usize)
        ensures
            r == self.size(),
    {
        self.size
    }

    /// How many measurements have been begun over the ring's lifetime.
    pub fn issued_count(&self) -> (r: u64)
        ensures
            r == self.issued(),
    {
        self.issued
    }
}

/// Within one cycle of the ring, later issuances occupy other slots: if
/// `c < k < c + size`, issuance `k` lands in a different slot than `c`.
pub proof fn lemma_slot_distinct(c: int, k: int, size: int)
    requires
        0 < size,
        0 <= c,
        c < k < c + size,
    ensures
        k % size != c % size,
{
    lemma_mod_equivalence(k, c, size);
    lemma_small_mod((k - c) as nat, size as nat);
}

/// Slot reuse wraps: `size` issuances later, the cursor is back where it
/// was; in particular a fresh ring's cursor returns to slot 0.
pub proof fn lemma_cursor_wraps(issued: int, size: int)
    requires
        0 < size,
    ensures
        (issued + size) % size == issued % size,
{
    lemma_mod_multiples_vanish(1, issued, size);
    assert(size * 1 + issued == issued + size);
}

/// No overwrite before read: while fewer than `size` results are
/// outstanding, every outstanding issuance `k` occupies a slot other than
/// the one the next issuance will reuse.
pub proof fn lemma_no_overwrite_before_read(issued: int, collected: int, size: int)
    requires
        0 < size,
        0 <= collected <= issued,
        issued - collected < size,
    ensures
        forall|k: int| collected <= k < issued ==> #[trigger] (k % size) != issued % size,
{
    assert forall|k: int| collected <= k < issued implies #[trigger] (k % size) != issued % size by {
        if k % size == issued % size {
            lemma_mod_equivalence(issued, k, size);
            lemma_small_mod((issued - k) as nat, size as nat);
            assert(false);
        }
    }
}

} // verus!
