//! The timed-measurement pipeline of one run: pacing draw submission against
//! asynchronous query readback, and accumulating the samples as they retire.
//!
//! Submission and result-availability are decoupled: a query begun on one
//! frame may not be ready until several frames later, so a just-issued query
//! is never read back. Results are consumed in issuance order, and a ring
//! slot is reused only after its previous result has been consumed — the
//! collector's invariant makes overwrite-before-read impossible.
//!
//! The caller owns the device handles, indexed by slot, and drives the loop:
//! it asks which slot to issue into or read from, performs the device work,
//! and hands back each retired sample's value.

use vstd::prelude::*;

use crate::aggregate::{
    derive_result, included_window, lemma_sum_bounds, lemma_sum_window_bounds,
    lemma_sum_window_clamped, sum_ns, sum_window, window_count, RunResult,
};
use crate::config::RunConfig;
use crate::errors::{BenchError, ConfigFault};
use crate::ring::{lemma_no_overwrite_before_read, lemma_slot_distinct, QueryRing};

verus! {

/// Collects one run's samples through a query ring.
pub struct Collector {
    cfg: RunConfig,
    ring: QueryRing,
    collected: u64,
    sum_included: u128,
    sum_all: u128,
    history: Ghost<Seq<u64>>,
}

impl Collector {
    /// The run's parameters.
    pub closed spec fn cfg(self) -> RunConfig {
        self.cfg
    }

    /// How many timed draws have been issued.
    pub closed spec fn issued(self) -> int {
        self.ring.issued()
    }

    /// How many query results have been consumed.
    pub closed spec fn collected(self) -> int {
        self.collected as int
    }

    /// Number of ring slots.
    pub closed spec fn ring_size(self) -> int {
        self.ring.size()
    }

    /// The consumed samples, in issuance order.
    pub closed spec fn history(self) -> Seq<u64> {
        self.history@
    }

    /// The start of the measured window.
    pub open spec fn window_lo(self) -> int {
        self.cfg().warmup as int
    }

    /// The end of the measured window.
    pub open spec fn window_hi(self) -> int {
        self.cfg().total_samples as int - self.cfg().warmup as int
    }

    /// The collector's invariant. Results retire in issuance order; at most
    /// one ring's worth of queries is outstanding; a slot is pending exactly
    /// when an outstanding issuance occupies it; and the running sums agree
    /// with the consumed history.
    pub closed spec fn wf(self) -> bool {
        &&& self.cfg.valid()
        &&& self.ring.wf()
        &&& self.collected as int <= self.ring.issued()
        &&& self.ring.issued() <= self.cfg.total_samples as int
        &&& self.ring.issued() - self.collected as int <= self.ring.size()
        &&& self.history@.len() == self.collected as int
        &&& self.sum_all as int == sum_ns(self.history@)
        &&& self.sum_included as int == sum_window(
            self.history@,
            self.window_lo(),
            self.window_hi(),
        )
        &&& forall|s: int|
            0 <= s < self.ring.size() ==> ((#[trigger] self.ring.slots()[s]) <==> exists|k: int|
                self.collected as int <= k < self.ring.issued() && #[trigger] (k
                    % self.ring.size()) == s)
    }

    /// What well-formedness gives every caller.
    pub proof fn lemma_wf_facts(self)
        requires
            self.wf(),
        ensures
            self.cfg().valid(),
            0 <= self.collected() <= self.issued(),
            self.issued() <= self.cfg().total_samples,
            self.issued() - self.collected() <= self.ring_size(),
            0 < self.ring_size(),
            self.history().len() == self.collected(),
    {
        self.ring.lemma_wf_facts();
    }

    /// Starts a run: validates the parameters and allocates the slot ring.
    /// A ring of zero slots is a setup failure; a config the aggregator
    /// could not use is rejected here, before any measurement.
    pub fn begin(cfg: RunConfig, ring_size: usize) -> (r: Result<Collector, BenchError>)
        ensures
            r is Ok <==> (cfg.valid() && ring_size > 0),
            !(2 * cfg.warmup < cfg.total_samples) ==> r == Err::<Collector, BenchError>(
                BenchError::Config(ConfigFault::WarmupTooLarge),
            ),
            (2 * cfg.warmup < cfg.total_samples && cfg.draws_per_sample == 0) ==> r == Err::<
                Collector,
                BenchError,
            >(BenchError::Config(ConfigFault::ZeroDraws)),
            (cfg.valid() && ring_size == 0) ==> r == Err::<Collector, BenchError>(
                BenchError::SetupFailure,
            ),
            r is Ok ==> {
                let c = r->Ok_0;
                &&& c.wf()
                &&& c.cfg() == cfg
                &&& c.ring_size() == ring_size
                &&& c.issued() == 0
                &&& c.collected() == 0
                &&& c.history() == Seq::<u64>::empty()
            },
    {
        if cfg.warmup >= cfg.total_samples || cfg.total_samples - cfg.warmup <= cfg.warmup {
            return Err(BenchError::Config(ConfigFault::WarmupTooLarge));
        }
        if cfg.draws_per_sample == 0 {
            return Err(BenchError::Config(ConfigFault::ZeroDraws));
        }
        let ring = match QueryRing::allocate(ring_size) {
            Ok(ring) => ring,
            Err(e) => {
                return Err(e);
            },
        };
        let col = Collector {
            cfg,
            ring,
            collected: 0,
            sum_included: 0,
            sum_all: 0,
            history: Ghost(Seq::empty()),
        };
        proof {
            assert(col.history@ =~= Seq::<u64>::empty());
            assert forall|s: int| 0 <= s < col.ring.size() implies !(col.ring.slots()[s]) by {}
        }
        Ok(col)
    }

    /// Whether the run still owes a timed draw.
    pub fn want_issue(&self) -> (r: bool)
        requires
            self.wf(),
        ensures
            r == (self.issued() < self.cfg().total_samples),
    {
        self.ring.issued_count() < self.cfg.total_samples as u64
    }

    /// Whether the next slot's previous result must be consumed before
    /// another draw can be issued — true once the ring is fully outstanding.
    pub fn must_collect_before_issue(&self) -> (r: bool)
        requires
            self.wf(),
        ensures
            r == (self.issued() - self.collected() == self.ring_size()),
    {
        proof {
            self.ring.lemma_wf_facts();
        }
        self.ring.issued_count() - self.collected == self.ring.len() as u64
    }

    /// How many issued queries have not been consumed yet.
    pub fn outstanding(&self) -> (r: u64)
        requires
            self.wf(),
        ensures
            r == self.issued() - self.collected(),
    {
        self.ring.issued_count() - self.collected
    }

    /// The slot whose result retires next (results retire in issuance
    /// order).
    pub fn collect_slot(&self) -> (slot: usize)
        requires
            self.wf(),
            self.collected() < self.issued(),
        ensures
            slot == self.collected() % self.ring_size(),
            0 <= slot < self.ring_size(),
    {
        proof {
            self.ring.lemma_wf_facts();
            vstd::arithmetic::div_mod::lemma_mod_bound(self.collected as int, self.ring.size());
        }
        (self.collected % self.ring.len() as u64) as usize
    }

    /// Issues the next timed draw: hands out the slot whose timer query to
    /// bracket the draw with. The slot's prior result has always been
    /// consumed: a full ring forces a readback first (see
    /// [`Self::must_collect_before_issue`]), so the measurement never
    /// overwrites an unread result and never blocks on a just-issued query.
    pub fn begin_sample(&mut self) -> (slot: usize)
        requires
            old(self).wf(),
            old(self).issued() < old(self).cfg().total_samples,
            old(self).issued() - old(self).collected() < old(self).ring_size(),
        ensures
            final(self).wf(),
            slot == old(self).issued() % old(self).ring_size(),
            0 <= slot < old(self).ring_size(),
            final(self).cfg() == old(self).cfg(),
            final(self).ring_size() == old(self).ring_size(),
            final(self).issued() == old(self).issued() + 1,
            final(self).collected() == old(self).collected(),
            final(self).history() == old(self).history(),
    {
        proof {
            self.ring.lemma_wf_facts();
            let size = self.ring.size();
            let issued = self.ring.issued();
            let collected = self.collected as int;
            lemma_no_overwrite_before_read(issued, collected, size);
            if self.ring.slots()[issued % size] {
                let k = choose|k: int|
                    collected <= k < issued && #[trigger] (k % size) == issued % size;
                assert(false);
            }
        }
        let ghost pre = *self;
        let slot = self.ring.next();
        proof {
            let size = pre.ring.size();
            let issued = pre.ring.issued();
            let collected = pre.collected as int;
            assert forall|s: int| 0 <= s < size implies ((#[trigger] self.ring.slots()[s])
                <==> exists|k: int|
                collected <= k < issued + 1 && #[trigger] (k % size) == s) by {
                if s == issued % size {
                    assert(self.ring.slots()[s]);
                    assert(collected <= issued < issued + 1 && (issued % size) == s);
                } else {
                    assert(self.ring.slots()[s] == pre.ring.slots()[s]);
                    if self.ring.slots()[s] {
                        let k = choose|k: int|
                            collected <= k < issued && #[trigger] (k % size) == s;
                        assert(collected <= k < issued + 1 && (k % size) == s);
                    }
                    if exists|k: int| collected <= k < issued + 1 && #[trigger] (k % size) == s {
                        let k = choose|k: int|
                            collected <= k < issued + 1 && #[trigger] (k % size) == s;
                        assert(k != issued);
                        assert(pre.ring.slots()[s]);
                    }
                }
            }
        }
        slot
    }

    /// Consumes the result of the oldest outstanding query: frees its slot
    /// and accumulates the sample, counting it only if its position lies in
    /// the measured window.
    pub fn record_sample(&mut self, value_ns: u64)
        requires
            old(self).wf(),
            old(self).collected() < old(self).issued(),
        ensures
            final(self).wf(),
            final(self).cfg() == old(self).cfg(),
            final(self).ring_size() == old(self).ring_size(),
            final(self).issued() == old(self).issued(),
            final(self).collected() == old(self).collected() + 1,
            final(self).history() == old(self).history().push(value_ns),
    {
        proof {
            self.ring.lemma_wf_facts();
            vstd::arithmetic::div_mod::lemma_mod_bound(self.collected as int, self.ring.size());
        }
        let slot = (self.collected % self.ring.len() as u64) as usize;
        proof {
            let size = self.ring.size();
            let collected = self.collected as int;
            let issued = self.ring.issued();
            assert(collected <= collected < issued && (collected % size) == slot as int);
            assert(self.ring.slots()[slot as int]);
        }
        let ghost pre = *self;
        self.ring.consume(slot);
        proof {
            // The running sums stay below any overflow.
            lemma_sum_bounds(self.history@);
            lemma_sum_window_bounds(self.history@, self.window_lo(), self.window_hi());
            assert(self.collected as int <= u64::MAX - 1);
            assert(window_count(self.history@.len() as int, self.window_lo(), self.window_hi())
                <= self.history@.len());
            assert(sum_ns(self.history@) <= (u64::MAX - 1) * (u64::MAX as int)) by (
            nonlinear_arith)
                requires
                    sum_ns(self.history@) <= self.history@.len() * (u64::MAX as int),
                    self.history@.len() <= u64::MAX - 1,
            ;
            assert(sum_window(self.history@, self.window_lo(), self.window_hi()) <= sum_ns(
                self.history@,
            )) by {
                lemma_sum_window_le_total(self.history@, self.window_lo(), self.window_hi());
            }
        }
        self.sum_all = self.sum_all + value_ns as u128;
        let in_window = self.collected >= self.cfg.warmup as u64 && self.collected < (
        self.cfg.total_samples - self.cfg.warmup) as u64;
        if in_window {
            self.sum_included = self.sum_included + value_ns as u128;
        }
        self.collected = self.collected + 1;
        proof {
            assert(self.history@.push(value_ns).drop_last() =~= self.history@);
        }
        self.history = Ghost(self.history@.push(value_ns));
        proof {
            let size = pre.ring.size();
            let collected = pre.collected as int;
            let issued = pre.ring.issued();
            assert forall|s: int| 0 <= s < size implies ((#[trigger] self.ring.slots()[s])
                <==> exists|k: int|
                collected + 1 <= k < issued && #[trigger] (k % size) == s) by {
                if s == collected % size {
                    assert(!self.ring.slots()[s]);
                    if exists|k: int| collected + 1 <= k < issued && #[trigger] (k % size) == s {
                        let k = choose|k: int|
                            collected + 1 <= k < issued && #[trigger] (k % size) == s;
                        lemma_slot_distinct(collected, k, size);
                        assert(false);
                    }
                } else {
                    assert(self.ring.slots()[s] == pre.ring.slots()[s]);
                    if pre.ring.slots()[s] {
                        let k = choose|k: int|
                            collected <= k < issued && #[trigger] (k % size) == s;
                        assert(k != collected);
                        assert(collected + 1 <= k < issued && (k % size) == s);
                    }
                    if exists|k: int| collected + 1 <= k < issued && #[trigger] (k % size) == s {
                        let k = choose|k: int|
                            collected + 1 <= k < issued && #[trigger] (k % size) == s;
                        assert(collected <= k < issued && (k % size) == s);
                        assert(pre.ring.slots()[s]);
                    }
                }
            }
        }
    }

    /// Completes a full run: every sample issued and consumed. Reports the
    /// aggregate of the measured window.
    pub fn finish(self, pixel_count: u64) -> (r: Result<RunResult, BenchError>)
        requires
            self.wf(),
            self.collected() == self.cfg().total_samples,
        ensures
            r is Ok <==> pixel_count > 0,
            pixel_count == 0 ==> r == Err::<RunResult, BenchError>(
                BenchError::Config(ConfigFault::ZeroPixels),
            ),
            r is Ok ==> {
                let res = r->Ok_0;
                &&& res.total_time_ns == sum_ns(
                    included_window(self.history(), self.cfg().warmup as int),
                )
                &&& res.included_samples == self.cfg().included_samples()
                &&& res.draws_per_sample == self.cfg().draws_per_sample
                &&& res.full_screen_time_ns == crate::aggregate::full_screen_time_of(
                    sum_ns(included_window(self.history(), self.cfg().warmup as int)),
                    self.cfg().included_samples(),
                    self.cfg().draws_per_sample as int,
                )
                &&& res.megapixel_time_ns == crate::aggregate::megapixel_time_of(
                    res.full_screen_time_ns as int,
                    pixel_count as int,
                )
            },
    {
        if pixel_count == 0 {
            return Err(BenchError::Config(ConfigFault::ZeroPixels));
        }
        let lo = self.cfg.warmup;
        let hi = self.cfg.total_samples - self.cfg.warmup;
        let included = hi - lo;
        proof {
            lemma_sum_window_clamped(self.history@, lo as int, hi as int);
            assert(self.history@.subrange(lo as int, hi as int) == included_window(
                self.history@,
                lo as int,
            ));
            lemma_sum_bounds(self.history@.subrange(lo as int, hi as int));
        }
        Ok(derive_result(self.sum_included, included, self.cfg.draws_per_sample, pixel_count))
    }

    /// Completes a cancelled run: averages whatever was collected rather
    /// than discarding it. If any sample of the measured window retired,
    /// only those are averaged; if cancellation struck during warm-up, all
    /// collected samples are (the result is then noisier, never a division
    /// by zero). A run cancelled before any sample retired has no average.
    pub fn finish_partial(self, pixel_count: u64) -> (r: Result<RunResult, BenchError>)
        requires
            self.wf(),
        ensures
            r is Ok <==> (pixel_count > 0 && self.collected() > 0),
            pixel_count == 0 ==> r == Err::<RunResult, BenchError>(
                BenchError::Config(ConfigFault::ZeroPixels),
            ),
            (pixel_count > 0 && self.collected() == 0) ==> r == Err::<RunResult, BenchError>(
                BenchError::Config(ConfigFault::NoSamples),
            ),
            r is Ok ==> {
                let res = r->Ok_0;
                let cnt = window_count(self.collected(), self.window_lo(), self.window_hi());
                &&& res.draws_per_sample == self.cfg().draws_per_sample
                &&& (cnt > 0 ==> {
                    &&& res.total_time_ns == sum_window(
                        self.history(),
                        self.window_lo(),
                        self.window_hi(),
                    )
                    &&& res.included_samples == cnt
                    &&& res.full_screen_time_ns == crate::aggregate::full_screen_time_of(
                        sum_window(self.history(), self.window_lo(), self.window_hi()),
                        cnt,
                        self.cfg().draws_per_sample as int,
                    )
                })
                &&& (cnt == 0 ==> {
                    &&& res.total_time_ns == sum_ns(self.history())
                    &&& res.included_samples == self.collected()
                    &&& res.full_screen_time_ns == crate::aggregate::full_screen_time_of(
                        sum_ns(self.history()),
                        self.collected(),
                        self.cfg().draws_per_sample as int,
                    )
                })
                &&& res.megapixel_time_ns == crate::aggregate::megapixel_time_of(
                    res.full_screen_time_ns as int,
                    pixel_count as int,
                )
            },
    {
        if pixel_count == 0 {
            return Err(BenchError::Config(ConfigFault::ZeroPixels));
        }
        if self.collected == 0 {
            return Err(BenchError::Config(ConfigFault::NoSamples));
        }
        proof {
            self.ring.lemma_wf_facts();
        }
        let lo = self.cfg.warmup as u64;
        let hi = (self.cfg.total_samples - self.cfg.warmup) as u64;
        let cnt: u64 = if self.collected <= lo {
            0
        } else if self.collected <= hi {
            self.collected - lo
        } else {
            hi - lo
        };
        if cnt > 0 {
            proof {
                lemma_sum_window_bounds(self.history@, self.window_lo(), self.window_hi());
            }
            Ok(
                derive_result(
                    self.sum_included,
                    cnt as usize,
                    self.cfg.draws_per_sample,
                    pixel_count,
                ),
            )
        } else {
            proof {
                lemma_sum_bounds(self.history@);
            }
            Ok(
                derive_result(
                    self.sum_all,
                    self.collected as usize,
                    self.cfg.draws_per_sample,
                    pixel_count,
                ),
            )
        }
    }
}

/// A windowed sum never exceeds the sum of the whole history.
pub proof fn lemma_sum_window_le_total(s: Seq<u64>, lo: int, hi: int)
    ensures
        sum_window(s, lo, hi) <= sum_ns(s),
    decreases s.len(),
{
    if s.len() == 0 {
    } else {
        lemma_sum_window_le_total(s.drop_last(), lo, hi);
    }
}

} // verus!
