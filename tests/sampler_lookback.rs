use kairos::lookback::LookbackState;
use kairos::sampler_lookback::reconcile_sampler_lookback;
use kairos::format::Evk4FileSample;
use kairos::sampler_lookback::SamplerLookback;

fn sample(t: u64) -> Evk4FileSample {
    Evk4FileSample { system_time: t, system_timestamp: t, illuminance_bits: 0, temperature_bits: 0 }
}

fn times(lookback: &SamplerLookback) -> Vec<u64> {
    (0..lookback.len()).map(|k| lookback.sample(k).system_time).collect()
}

#[test]
fn capacity_is_duration_over_period_rounded_up() {
    // 250 ms at 100 ms: 3 slots, two samples
    let mut lookback = SamplerLookback::new(250_000, sample(0));
    for t in 1..=5 {
        lookback.push(sample(t));
    }
    assert_eq!(times(&lookback), vec![4, 5]);
}

#[test]
fn resize_keeps_newest_samples() {
    let mut lookback = SamplerLookback::new(1_000_000, sample(0));
    for t in 1..=8 {
        lookback.push(sample(t));
    }
    assert_eq!(times(&lookback), vec![1, 2, 3, 4, 5, 6, 7, 8]);
    lookback.update_maximum_duration_us(300_000);
    assert_eq!(times(&lookback), vec![7, 8]);
    lookback.update_maximum_duration_us(2_000_000);
    assert_eq!(times(&lookback), vec![7, 8]);
    lookback.push(sample(9));
    assert_eq!(times(&lookback), vec![7, 8, 9]);
}

#[test]
fn reconcile_follows_the_event_ring() {
    let mut ring: Option<SamplerLookback> = None;
    let state = Some(LookbackState { maximum_duration_us: 1_000_000, duration_us: 0, size_bytes: 0 });
    reconcile_sampler_lookback(&mut ring, &state, sample(0));
    for t in 1..=5 {
        ring.as_mut().unwrap().push(sample(t));
    }
    let shorter = Some(LookbackState { maximum_duration_us: 200_000, duration_us: 0, size_bytes: 0 });
    reconcile_sampler_lookback(&mut ring, &shorter, sample(0));
    assert_eq!(times(ring.as_ref().unwrap()), vec![5]);
    reconcile_sampler_lookback(&mut ring, &None, sample(0));
    assert!(ring.is_none());
}
