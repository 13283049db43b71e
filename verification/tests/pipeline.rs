//! End-to-end checks of the measurement pipeline against a stubbed query
//! source: fixed sample values stand in for device-reported elapsed times.

use fillrate::aggregate::aggregate;
use fillrate::collector::Collector;
use fillrate::config::{ClearMask, RunConfig};
use fillrate::errors::{BenchError, ConfigFault};

fn mask() -> ClearMask {
    ClearMask { color: true, depth: true }
}

fn config(draws: usize, total: usize, warmup: usize) -> RunConfig {
    RunConfig::new("stub".to_string(), mask(), draws, total, warmup).unwrap()
}

/// Drives a collector exactly as the render loop would: issue a draw per
/// sample, reading back the oldest outstanding query whenever the ring is
/// full, then drain. Returns the finished collector and the slots issued.
fn run_collector(cfg: RunConfig, ring_size: usize, samples: &[u64]) -> (Collector, Vec<usize>) {
    let mut col = Collector::begin(cfg, ring_size).unwrap();
    let mut slots = Vec::new();
    let mut next_value = 0usize;
    while col.want_issue() {
        if col.must_collect_before_issue() {
            let _slot = col.collect_slot();
            col.record_sample(samples[next_value]);
            next_value += 1;
        }
        slots.push(col.begin_sample());
    }
    while col.outstanding() > 0 {
        let _slot = col.collect_slot();
        col.record_sample(samples[next_value]);
        next_value += 1;
    }
    (col, slots)
}

#[test]
fn constant_source_exact_scenario() {
    // 200 samples of a constant 1,000,000ns, warmup 40, one draw per sample.
    let samples = vec![1_000_000u64; 200];
    let res = aggregate(&samples, 40, 1, 1_000_000).unwrap();
    assert_eq!(res.included_samples, 120);
    assert_eq!(res.total_time_ns, 120_000_000);
    assert_eq!(res.full_screen_time_ns, 1_000_000);
    assert_eq!(res.megapixel_time_ns, 1_000_000);
}

#[test]
fn warmup_discards_both_ends() {
    // Transients at both ends must not bias the sum.
    let mut samples = vec![999_999u64; 2];
    samples.extend(vec![2_000u64; 6]);
    samples.extend(vec![888_888u64; 2]);
    let res = aggregate(&samples, 2, 1, 1_000_000).unwrap();
    assert_eq!(res.included_samples, 6);
    assert_eq!(res.total_time_ns, 12_000);
    assert_eq!(res.full_screen_time_ns, 2_000);
}

#[test]
fn sum_is_order_insensitive() {
    let a = vec![10u64, 20, 30, 40, 50];
    let b = vec![50u64, 10, 40, 20, 30];
    let ra = aggregate(&a, 0, 1, 1_000_000).unwrap();
    let rb = aggregate(&b, 0, 1, 1_000_000).unwrap();
    assert_eq!(ra.total_time_ns, rb.total_time_ns);
    assert_eq!(ra.full_screen_time_ns, rb.full_screen_time_ns);
}

#[test]
fn doubling_draws_halves_full_screen_time() {
    // Same measured totals, twice the draws per sample.
    let samples = vec![1_000u64; 120];
    let once = aggregate(&samples, 0, 1, 1_000_000).unwrap();
    let twice = aggregate(&samples, 0, 2, 1_000_000).unwrap();
    assert_eq!(once.full_screen_time_ns, 1_000);
    assert_eq!(twice.full_screen_time_ns, 500);
}

#[test]
fn megapixel_time_scales_inversely_with_pixels() {
    // full_screen_time = 2,000,000ns over 1,000,000 pixels: 2,000,000ns
    // per megapixel, i.e. 2000 microseconds.
    let samples = vec![2_000_000u64; 10];
    let base = aggregate(&samples, 0, 1, 1_000_000).unwrap();
    assert_eq!(base.full_screen_time_ns, 2_000_000);
    assert_eq!(base.megapixel_time_ns, 2_000_000);
    assert_eq!(base.megapixel_time_us(), 2_000);
    let doubled = aggregate(&samples, 0, 1, 2_000_000).unwrap();
    assert_eq!(doubled.megapixel_time_ns, 1_000_000);
}

#[test]
fn warmup_too_large_fails_fast() {
    let samples = vec![1u64; 10];
    assert_eq!(
        aggregate(&samples, 5, 1, 100),
        Err(BenchError::Config(ConfigFault::WarmupTooLarge))
    );
    assert_eq!(
        aggregate(&samples, 6, 1, 100),
        Err(BenchError::Config(ConfigFault::WarmupTooLarge))
    );
    assert!(aggregate(&samples, 4, 1, 100).is_ok());
    let cfg = RunConfig::new("bad".to_string(), mask(), 1, 10, 5);
    assert_eq!(cfg.unwrap_err(), BenchError::Config(ConfigFault::WarmupTooLarge));
}

#[test]
fn zero_draws_fails_fast() {
    let samples = vec![1u64; 10];
    assert_eq!(aggregate(&samples, 1, 0, 100), Err(BenchError::Config(ConfigFault::ZeroDraws)));
    let cfg = RunConfig::new("bad".to_string(), mask(), 0, 10, 1);
    assert_eq!(cfg.unwrap_err(), BenchError::Config(ConfigFault::ZeroDraws));
}

#[test]
fn zero_pixels_fails_fast() {
    let samples = vec![1u64; 10];
    assert_eq!(aggregate(&samples, 1, 1, 0), Err(BenchError::Config(ConfigFault::ZeroPixels)));
    let (col, _) = run_collector(config(1, 10, 1), 4, &vec![7u64; 10]);
    assert_eq!(col.finish(0), Err(BenchError::Config(ConfigFault::ZeroPixels)));
}

#[test]
fn collector_matches_batch_aggregation() {
    let samples: Vec<u64> = (0..50u64).map(|i| i * 37 + 11).collect();
    let (col, _) = run_collector(config(2, 50, 5), 7, &samples);
    let streamed = col.finish(1920 * 1080).unwrap();
    let batch = aggregate(&samples, 5, 2, 1920 * 1080).unwrap();
    assert_eq!(streamed, batch);
}

#[test]
fn collector_slots_cycle_round_robin() {
    let (col, slots) = run_collector(config(1, 10, 1), 4, &vec![3u64; 10]);
    assert_eq!(slots, vec![0, 1, 2, 3, 0, 1, 2, 3, 0, 1]);
    let res = col.finish(100).unwrap();
    assert_eq!(res.included_samples, 8);
}

#[test]
fn cancelled_run_still_averages() {
    // Cancelled after 100 of 200 samples: the 60 collected in-window samples
    // are still averaged.
    let mut col = Collector::begin(config(1, 200, 40), 20).unwrap();
    for _ in 0..100 {
        if col.must_collect_before_issue() {
            let _slot = col.collect_slot();
            col.record_sample(1_000_000);
        }
        let _slot = col.begin_sample();
    }
    while col.outstanding() > 0 {
        let _slot = col.collect_slot();
        col.record_sample(1_000_000);
    }
    let res = col.finish_partial(1_000_000).unwrap();
    assert_eq!(res.included_samples, 60);
    assert_eq!(res.total_time_ns, 60_000_000);
    assert_eq!(res.full_screen_time_ns, 1_000_000);
}

#[test]
fn cancelled_during_warmup_averages_everything() {
    let mut col = Collector::begin(config(1, 200, 40), 20).unwrap();
    for _ in 0..10 {
        let _slot = col.begin_sample();
    }
    while col.outstanding() > 0 {
        let _slot = col.collect_slot();
        col.record_sample(500);
    }
    let res = col.finish_partial(100).unwrap();
    assert_eq!(res.included_samples, 10);
    assert_eq!(res.total_time_ns, 5_000);
    assert_eq!(res.full_screen_time_ns, 500);
    assert_eq!(res.megapixel_time_ns, 5_000_000);
}

#[test]
fn cancelled_before_any_sample_reports_no_samples() {
    let col = Collector::begin(config(1, 200, 40), 20).unwrap();
    assert_eq!(col.finish_partial(100), Err(BenchError::Config(ConfigFault::NoSamples)));
}

#[test]
fn collector_rejects_bad_setup() {
    assert!(matches!(
        Collector::begin(config(1, 10, 1), 0),
        Err(BenchError::SetupFailure)
    ));
    let bad = RunConfig {
        name: "bad".to_string(),
        clear: mask(),
        draws_per_sample: 1,
        total_samples: 10,
        warmup: 5,
    };
    assert!(matches!(
        Collector::begin(bad, 4),
        Err(BenchError::Config(ConfigFault::WarmupTooLarge))
    ));
}
