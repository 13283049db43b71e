//! Run parameters. A [`RunConfig`] is immutable for the duration of one
//! sub-experiment; invalid parameter sets are rejected when it is built,
//! before any device work is issued.

use vstd::prelude::*;

use crate::errors::{BenchError, ConfigFault};

verus! {

/// Which buffers are cleared before each timed draw.
#[derive(Clone, Copy, Debug, PartialEq, Eq, Structural)]
pub struct ClearMask {
    pub color: bool,
    pub depth: bool,
}

/// Immutable parameters of one timed sub-experiment, read-only during
/// execution.
#[derive(Clone, Debug)]
pub struct RunConfig {
    /// Name of the sub-experiment, for the report.
    pub name: String,
    /// Buffers cleared before each timed draw.
    pub clear: ClearMask,
    /// Instances drawn per sample, used to push more pixel work per query.
    pub draws_per_sample: usize,
    /// How many samples (timer queries) the run takes in all.
    pub total_samples: usize,
    /// Samples discarded at each end of the run as warm-up and cool-down.
    pub warmup: usize,
}

impl RunConfig {
    /// A config is usable when discarding `warmup` samples at each end
    /// leaves at least one to sum, and each sample times at least one draw.
    pub open spec fn valid(self) -> bool {
        &&& 2 * self.warmup < self.total_samples
        &&& self.draws_per_sample > 0
    }

    /// How many samples survive the discarding.
    pub open spec fn included_samples(self) -> int {
        self.total_samples - 2 * self.warmup
    }

    /// Builds a config, failing fast on one the aggregator could not use:
    /// a warm-up count that leaves nothing to sum, or zero draws per sample.
    pub fn new(
        name: String,
        clear: ClearMask,
        draws_per_sample: usize,
        total_samples: usize,
        warmup: usize,
    ) -> (r: Result<RunConfig, BenchError>)
        ensures
            r is Ok <==> (2 * warmup < total_samples && draws_per_sample > 0),
            !(2 * warmup < total_samples) ==> r == Err::<RunConfig, BenchError>(
                BenchError::Config(ConfigFault::WarmupTooLarge),
            ),
            (2 * warmup < total_samples && draws_per_sample == 0) ==> r == Err::<
                RunConfig,
                BenchError,
            >(BenchError::Config(ConfigFault::ZeroDraws)),
            r is Ok ==> {
                let c = r->Ok_0;
                &&& c.name == name
                &&& c.clear == clear
                &&& c.draws_per_sample == draws_per_sample
                &&& c.total_samples == total_samples
                &&& c.warmup == warmup
                &&& c.valid()
            },
    {
        if warmup >= total_samples || total_samples - warmup <= warmup {
            return Err(BenchError::Config(ConfigFault::WarmupTooLarge));
        }
        if draws_per_sample == 0 {
            return Err(BenchError::Config(ConfigFault::ZeroDraws));
        }
        Ok(RunConfig { name, clear, draws_per_sample, total_samples, warmup })
    }
}

} // verus!
