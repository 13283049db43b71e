//! Checks of the test driver's methodology and of raw ring-slot cycling.

use fillrate::config::ClearMask;
use fillrate::driver::{phase_of, standard_suite, Phase, RunState};
use fillrate::errors::{BenchError, ConfigFault};
use fillrate::ring::QueryRing;

#[test]
fn standard_suite_encodes_methodology() {
    let suite = standard_suite(200, 40, 20).unwrap();
    assert_eq!(suite.len(), 2);
    assert_eq!(suite[0].name, "color and depth");
    assert_eq!(suite[0].clear, ClearMask { color: true, depth: true });
    assert_eq!(suite[0].draws_per_sample, 1);
    assert_eq!(suite[0].total_samples, 200);
    assert_eq!(suite[0].warmup, 40);
    assert_eq!(suite[1].name, "depth rejected");
    assert_eq!(suite[1].clear, ClearMask { color: true, depth: false });
    assert_eq!(suite[1].draws_per_sample, 20);
    assert_eq!(suite[1].total_samples, 200);
    assert_eq!(suite[1].warmup, 40);
}

#[test]
fn standard_suite_rejects_bad_parameters() {
    assert_eq!(
        standard_suite(10, 5, 20).unwrap_err(),
        BenchError::Config(ConfigFault::WarmupTooLarge)
    );
    assert_eq!(
        standard_suite(200, 40, 0).unwrap_err(),
        BenchError::Config(ConfigFault::ZeroDraws)
    );
}

#[test]
fn phases_partition_a_run() {
    assert_eq!(phase_of(0, 10, 2), Phase::Warming);
    assert_eq!(phase_of(1, 10, 2), Phase::Warming);
    assert_eq!(phase_of(2, 10, 2), Phase::Measuring);
    assert_eq!(phase_of(7, 10, 2), Phase::Measuring);
    assert_eq!(phase_of(8, 10, 2), Phase::Cooling);
    assert_eq!(phase_of(9, 10, 2), Phase::Cooling);
}

#[test]
fn run_state_walks_idle_to_reported() {
    let cfg = fillrate::config::RunConfig::new(
        "walk".to_string(),
        ClearMask { color: true, depth: true },
        1,
        4,
        1,
    )
    .unwrap();
    let mut state = RunState::Idle;
    state = state.step(&cfg);
    assert_eq!(state, RunState::Warming(0));
    state = state.step(&cfg);
    assert_eq!(state, RunState::Measuring(1));
    state = state.step(&cfg);
    assert_eq!(state, RunState::Measuring(2));
    state = state.step(&cfg);
    assert_eq!(state, RunState::Cooling(3));
    state = state.step(&cfg);
    assert_eq!(state, RunState::Reported);
    state = state.step(&cfg);
    assert_eq!(state, RunState::Reported);
}

#[test]
fn ring_slots_wrap_after_one_cycle() {
    let mut ring = QueryRing::allocate(3).unwrap();
    assert_eq!(ring.len(), 3);
    for expected in [0usize, 1, 2, 0, 1] {
        assert_eq!(ring.current_slot(), expected);
        let slot = ring.next();
        assert_eq!(slot, expected);
        assert!(ring.is_pending(slot));
        ring.consume(slot);
        assert!(!ring.is_pending(slot));
    }
    assert_eq!(ring.issued_count(), 5);
}

#[test]
fn ring_tracks_pending_slots() {
    let mut ring = QueryRing::allocate(4).unwrap();
    let a = ring.next();
    let b = ring.next();
    assert!(ring.is_pending(a));
    assert!(ring.is_pending(b));
    assert!(!ring.is_pending(2));
    ring.consume(a);
    assert!(!ring.is_pending(a));
    assert!(ring.is_pending(b));
}

#[test]
fn ring_of_zero_slots_is_setup_failure() {
    assert!(matches!(QueryRing::allocate(0), Err(BenchError::SetupFailure)));
}

#[test]
fn errors_describe_their_stage() {
    assert_eq!(
        BenchError::SetupFailure.describe(),
        "setup failure: timer queries or pipeline unavailable"
    );
    assert_eq!(
        BenchError::DeviceError.describe(),
        "device error: a draw or query call failed"
    );
    assert_eq!(
        BenchError::Config(ConfigFault::WarmupTooLarge).describe(),
        "configuration error: warm-up count too large for sample count"
    );
    assert_eq!(
        BenchError::Config(ConfigFault::ZeroDraws).describe(),
        "configuration error: zero draws per sample"
    );
    assert_eq!(
        BenchError::Config(ConfigFault::ZeroPixels).describe(),
        "configuration error: zero pixel count"
    );
    assert_eq!(
        BenchError::Config(ConfigFault::NoSamples).describe(),
        "configuration error: no samples collected"
    );
}
