//! Error taxonomy of the benchmark. Every failure is fatal: a timing
//! benchmark cannot distinguish a retry from a corrupt measurement, so there
//! is no recoverable class.

use vstd::prelude::*;

verus! {

/// A reason a run's parameters are unusable, detected before any measurement.
#[derive(Clone, Copy, Debug, PartialEq, Eq, Structural)]
pub enum ConfigFault {
    /// `2 * warmup >= total_samples`: discarding warm-up and cool-down
    /// samples would leave nothing to sum.
    WarmupTooLarge,
    /// `draws_per_sample == 0`: a sample would time no work at all.
    ZeroDraws,
    /// `pixel_count == 0`: per-pixel normalisation would divide by zero.
    ZeroPixels,
    /// No sample was collected before the run ended.
    NoSamples,
}

/// What went wrong, and at which stage. Each aborts the run immediately.
#[derive(Clone, Copy, Debug, PartialEq, Eq, Structural)]
pub enum BenchError {
    /// Timer-query or pipeline resources unavailable: abort before any
    /// measurement is attempted.
    SetupFailure,
    /// An unexpected device error after a draw or query call: subsequent
    /// numbers cannot be trusted.
    DeviceError,
    /// The run's parameters are invalid: reported before running.
    Config(ConfigFault),
}

impl BenchError {
    /// A short diagnostic identifying which stage failed.
    pub fn describe(&self) -> (s: &'static str)
        ensures
            (*self is SetupFailure) ==> s@ == "setup failure: timer queries or pipeline unavailable"@,
            (*self is DeviceError) ==> s@ == "device error: a draw or query call failed"@,
            (*self is Config) ==> (match *self {
                BenchError::Config(f) => match f {
                    ConfigFault::WarmupTooLarge => s@ == "configuration error: warm-up count too large for sample count"@,
                    ConfigFault::ZeroDraws => s@ == "configuration error: zero draws per sample"@,
                    ConfigFault::ZeroPixels => s@ == "configuration error: zero pixel count"@,
                    ConfigFault::NoSamples => s@ == "configuration error: no samples collected"@,
                },
                _ => true,
            }),
    {
        match *self {
            BenchError::SetupFailure => "setup failure: timer queries or pipeline unavailable",
            BenchError::DeviceError => "device error: a draw or query call failed",
            BenchError::Config(ConfigFault::WarmupTooLarge) => {
                "configuration error: warm-up count too large for sample count"
            },
            BenchError::Config(ConfigFault::ZeroDraws) => {
                "configuration error: zero draws per sample"
            },
            BenchError::Config(ConfigFault::ZeroPixels) => {
                "configuration error: zero pixel count"
            },
            BenchError::Config(ConfigFault::NoSamples) => {
                "configuration error: no samples collected"
            },
        }
    }
}

} // verus!
