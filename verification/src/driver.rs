//! Test driver: the order and parameterization of the sub-experiments, and
//! the per-run progression through warm-up, measurement and cool-down.
//!
//! The methodology is fixed: first measure the base fill cost with color and
//! depth written, then measure under depth-test rejection, which cheapens
//! shading but not rasterization, with more instances per sample to keep the
//! measured time comparable.

use vstd::prelude::*;
use vstd::string::StringExecFns;

use crate::config::{ClearMask, RunConfig};
use crate::errors::BenchError;

verus! {

/// Where one sample sits in a run: leading transient, measured middle, or
/// trailing transient.
#[derive(Clone, Copy, Debug, PartialEq, Eq, Structural)]
pub enum Phase {
    Warming,
    Measuring,
    Cooling,
}

/// Whether the sample at position `i` of a run of `total` samples is summed.
pub open spec fn is_included(i: int, total: int, warmup: int) -> bool {
    warmup <= i < total - warmup
}

/// The phase of the sample at position `i`.
pub open spec fn phase_of_index(i: int, total: int, warmup: int) -> Phase {
    if i < warmup {
        Phase::Warming
    } else if i < total - warmup {
        Phase::Measuring
    } else {
        Phase::Cooling
    }
}

/// Classifies sample position `i`: only [`Phase::Measuring`] samples enter
/// the sum.
pub fn phase_of(i: usize, total_samples: usize, warmup: usize) -> (p: Phase)
    ensures
        p == phase_of_index(i as int, total_samples as int, warmup as int),
        (p is Measuring) <==> is_included(i as int, total_samples as int, warmup as int),
{
    if i < warmup {
        Phase::Warming
    } else if warmup <= total_samples && i < total_samples - warmup {
        Phase::Measuring
    } else {
        Phase::Cooling
    }
}

/// The per-run state machine:
/// `Idle -> Warming -> Measuring -> Cooling -> Reported`, with no retry or
/// recovery state. The index carried by a state is the position of the
/// sample about to be issued.
#[derive(Clone, Copy, Debug, PartialEq, Eq, Structural)]
pub enum RunState {
    Idle,
    Warming(usize),
    Measuring(usize),
    Cooling(usize),
    Reported,
}

impl RunState {
    /// The states a run of `total` samples with `warmup` discards can be in.
    pub open spec fn consistent(self, total: int, warmup: int) -> bool {
        match self {
            RunState::Idle => true,
            RunState::Warming(i) => i < warmup && i < total,
            RunState::Measuring(i) => warmup <= i && i < total - warmup,
            RunState::Cooling(i) => total - warmup <= i && i < total,
            RunState::Reported => true,
        }
    }

    /// The state in which sample `i` is issued.
    pub open spec fn state_of_index(i: int, total: int, warmup: int) -> RunState {
        match phase_of_index(i, total, warmup) {
            Phase::Warming => RunState::Warming(i as usize),
            Phase::Measuring => RunState::Measuring(i as usize),
            Phase::Cooling => RunState::Cooling(i as usize),
        }
    }

    /// Advances the run by one sample. From `Idle` the run starts at sample
    /// 0; after the last sample it moves to `Reported` and stays there.
    pub fn step(self, cfg: &RunConfig) -> (next: RunState)
        requires
            cfg.valid(),
            self.consistent(cfg.total_samples as int, cfg.warmup as int),
        ensures
            next.consistent(cfg.total_samples as int, cfg.warmup as int),
            self is Idle ==> next == RunState::state_of_index(
                0,
                cfg.total_samples as int,
                cfg.warmup as int,
            ),
            (match self {
                RunState::Warming(i) => next == RunState::state_of_index(
                    i + 1,
                    cfg.total_samples as int,
                    cfg.warmup as int,
                ),
                RunState::Measuring(i) => next == if i + 1 < cfg.total_samples {
                    RunState::state_of_index(i + 1, cfg.total_samples as int, cfg.warmup as int)
                } else {
                    RunState::Reported
                },
                RunState::Cooling(i) => next == if i + 1 < cfg.total_samples {
                    RunState::state_of_index(i + 1, cfg.total_samples as int, cfg.warmup as int)
                } else {
                    RunState::Reported
                },
                _ => true,
            }),
            self is Reported ==> next is Reported,
    {
        let total = cfg.total_samples;
        let warmup = cfg.warmup;
        match self {
            RunState::Idle => {
                if warmup > 0 {
                    RunState::Warming(0)
                } else {
                    RunState::Measuring(0)
                }
            },
            RunState::Warming(i) => {
                if i + 1 < warmup {
                    RunState::Warming(i + 1)
                } else {
                    RunState::Measuring(i + 1)
                }
            },
            RunState::Measuring(i) => {
                if i + 1 < total - warmup {
                    RunState::Measuring(i + 1)
                } else if i + 1 < total {
                    RunState::Cooling(i + 1)
                } else {
                    RunState::Reported
                }
            },
            RunState::Cooling(i) => {
                if i + 1 < total {
                    RunState::Cooling(i + 1)
                } else {
                    RunState::Reported
                }
            },
            RunState::Reported => RunState::Reported,
        }
    }
}

/// The standard two-experiment suite, in methodology order: the base fill
/// cost first (clear and write both color and depth, one instance per
/// sample), then the depth-rejected cost (clear only color, so every
/// fragment of the `num_rejects` instances past the first fails the depth
/// test).
pub fn standard_suite(num_queries: usize, warmup_frames: usize, num_rejects: usize) -> (r: Result<
    Vec<RunConfig>,
    BenchError,
>)
    ensures
        r is Ok <==> (2 * warmup_frames < num_queries && num_rejects > 0),
        r is Ok ==> {
            let s = r->Ok_0;
            &&& s@.len() == 2
            &&& s@[0].name@ == "color and depth"@
            &&& s@[0].clear == (ClearMask { color: true, depth: true })
            &&& s@[0].draws_per_sample == 1
            &&& s@[0].total_samples == num_queries
            &&& s@[0].warmup == warmup_frames
            &&& s@[0].valid()
            &&& s@[1].name@ == "depth rejected"@
            &&& s@[1].clear == (ClearMask { color: true, depth: false })
            &&& s@[1].draws_per_sample == num_rejects
            &&& s@[1].total_samples == num_queries
            &&& s@[1].warmup == warmup_frames
            &&& s@[1].valid()
        },
{
    let first = RunConfig::new(
        String::from_str("color and depth"),
        ClearMask { color: true, depth: true },
        1,
        num_queries,
        warmup_frames,
    );
    let second = RunConfig::new(
        String::from_str("depth rejected"),
        ClearMask { color: true, depth: false },
        num_rejects,
        num_queries,
        warmup_frames,
    );
    match (first, second) {
        (Ok(a), Ok(b)) => {
            let mut v: Vec<RunConfig> = Vec::new();
            v.push(a);
            v.push(b);
            Ok(v)
        },
        (Err(e), _) => Err(e),
        (_, Err(e)) => Err(e),
    }
}

} // verus!
