use kairos::control::Lookback as Setting;
use kairos::lookback::reconcile_lookback;
use kairos::decoder::DecoderState;
use kairos::lookback::Lookback;

fn state(t: u64) -> DecoderState {
    DecoderState { t, overflows: 0, previous_msb_t: None, previous_lsb_t: 0, x: 0, y: 0, polarity: false }
}

fn push(lookback: &mut Lookback, start_t: u64, end_t: u64, length: usize, new_configuration: bool) {
    let raw = vec![(end_t % 251) as u8; length];
    lookback.push(0, end_t, end_t, false, state(start_t), end_t, &raw, new_configuration);
}

fn end_times(lookback: &Lookback) -> Vec<u64> {
    (0..lookback.len()).map(|k| lookback.item(k).end_t).collect()
}

#[test]
fn new_ring_is_empty() {
    let lookback = Lookback::new(1_000, 100, 10, state(0), 0);
    assert!(lookback.is_empty());
    assert_eq!(lookback.len(), 0);
    assert_eq!(lookback.duration_us(), 0);
    assert_eq!(lookback.size_bytes(), 0);
}

#[test]
fn push_keeps_order_and_sizes() {
    let mut lookback = Lookback::new(1_000_000, 100, 10, state(0), 0);
    push(&mut lookback, 0, 10, 3, false);
    push(&mut lookback, 10, 20, 4, false);
    push(&mut lookback, 20, 30, 5, false);
    assert_eq!(end_times(&lookback), vec![10, 20, 30]);
    assert_eq!(lookback.size_bytes(), 12);
    assert_eq!(lookback.duration_us(), 30);
    assert_eq!(lookback.item(1).raw, vec![20u8; 4]);
}

#[test]
fn full_ring_drops_oldest_and_keeps_one_slot_free() {
    // capacity 4: at most three items
    let mut lookback = Lookback::new(1_000_000, 40, 10, state(0), 0);
    for k in 1..=6u64 {
        push(&mut lookback, (k - 1) * 10, k * 10, 2, false);
    }
    assert_eq!(end_times(&lookback), vec![40, 50, 60]);
    assert_eq!(lookback.size_bytes(), 6);
    assert_eq!(lookback.duration_us(), 60 - 30);
}

#[test]
fn duration_bound_evicts_oldest() {
    let mut lookback = Lookback::new(25, 1000, 10, state(0), 0);
    for k in 1..=6u64 {
        push(&mut lookback, (k - 1) * 10, k * 10, 1, false);
    }
    // newest ends at 60: items ending at 40 and 50 are within 25 us of it
    assert_eq!(end_times(&lookback), vec![40, 50, 60]);
    let state = lookback.state();
    assert_eq!(state.duration_us, 60 - 30);
    assert_eq!(state.size_bytes, 3);
    assert_eq!(state.maximum_duration_us, 25);
}

#[test]
fn single_push_beyond_duration_leaves_only_it() {
    let mut lookback = Lookback::new(100, 1000, 10, state(0), 0);
    push(&mut lookback, 0, 10, 1, false);
    push(&mut lookback, 10, 20, 1, false);
    push(&mut lookback, 1_000, 1_000, 2, false);
    assert_eq!(end_times(&lookback), vec![1_000]);
    assert_eq!(lookback.duration_us(), 0);
    assert_eq!(lookback.size_bytes(), 2);
}

#[test]
fn update_maximum_duration_trims() {
    let mut lookback = Lookback::new(1_000, 1000, 10, state(0), 0);
    for k in 1..=5u64 {
        push(&mut lookback, (k - 1) * 10, k * 10, 1, false);
    }
    lookback.update_maximum_duration_us(15);
    assert_eq!(end_times(&lookback), vec![40, 50]);
    assert_eq!(lookback.duration_us(), 50 - 30);
    assert_eq!(lookback.maximum_duration_us(), 15);
}

#[test]
fn shrinking_size_keeps_newest_items_in_order() {
    let mut lookback = Lookback::new(1_000_000, 100, 10, state(0), 0);
    for k in 1..=7u64 {
        push(&mut lookback, (k - 1) * 10, k * 10, 10, false);
    }
    assert_eq!(lookback.size_bytes(), 70);
    // new capacity 3: two items stay
    lookback.update_maximum_size_bytes(30);
    assert_eq!(end_times(&lookback), vec![60, 70]);
    assert_eq!(lookback.size_bytes(), 20);
    assert_eq!(lookback.duration_us(), 70 - 50);
    assert_eq!(lookback.maximum_size_bytes(), 30);
    push(&mut lookback, 70, 80, 10, false);
    assert_eq!(end_times(&lookback), vec![70, 80]);
}

#[test]
fn growing_size_keeps_everything() {
    let mut lookback = Lookback::new(1_000_000, 40, 10, state(0), 0);
    for k in 1..=5u64 {
        push(&mut lookback, (k - 1) * 10, k * 10, 10, false);
    }
    assert_eq!(end_times(&lookback), vec![30, 40, 50]);
    lookback.update_maximum_size_bytes(100);
    assert_eq!(end_times(&lookback), vec![30, 40, 50]);
    for k in 6..=9u64 {
        push(&mut lookback, (k - 1) * 10, k * 10, 10, false);
    }
    assert_eq!(end_times(&lookback), vec![30, 40, 50, 60, 70, 80, 90]);
    assert_eq!(lookback.size_bytes(), 70);
}

#[test]
fn configuration_changes_are_detected_between_items() {
    let mut lookback = Lookback::new(1_000_000, 100, 10, state(0), 0);
    push(&mut lookback, 0, 10, 1, false);
    push(&mut lookback, 10, 20, 1, true);
    push(&mut lookback, 20, 30, 1, false);
    assert!(!lookback.configuration_changed_at(0));
    assert!(lookback.configuration_changed_at(1));
    assert!(!lookback.configuration_changed_at(2));
    assert_eq!(lookback.item(0).configuration, 0);
    assert_eq!(lookback.item(2).configuration, 1);
}

#[test]
fn bounds_hold_over_long_runs() {
    let mut lookback = Lookback::new(200, 95, 10, state(0), 0);
    for k in 1..=100u64 {
        push(&mut lookback, (k - 1) * 17, k * 17, (k % 10) as usize + 1, false);
        let size: usize = (0..lookback.len()).map(|i| lookback.item(i).raw.len()).sum();
        assert_eq!(size, lookback.size_bytes());
        assert!(lookback.size_bytes() <= 95);
        let first = lookback.item(0);
        assert!(lookback.duration_us() <= 200 + (first.end_t - first.state.t));
        let ends = end_times(&lookback);
        assert!(ends.windows(2).all(|w| w[0] <= w[1]));
    }
}

#[test]
fn reconcile_creates_updates_and_drops() {
    let mut ring: Option<Lookback> = None;
    let on = Setting { enabled: true, maximum_duration_us: 1_000, maximum_size_bytes: 100 };
    reconcile_lookback(&mut ring, &on, 10, state(0), 0);
    assert!(ring.as_ref().unwrap().is_empty());
    for k in 1..=8u64 {
        push(ring.as_mut().unwrap(), (k - 1) * 10, k * 10, 10, false);
    }
    let shorter = Setting { enabled: true, maximum_duration_us: 35, maximum_size_bytes: 30 };
    reconcile_lookback(&mut ring, &shorter, 10, state(0), 0);
    let ring_ref = ring.as_ref().unwrap();
    assert_eq!(end_times(ring_ref), vec![70, 80]);
    assert_eq!(ring_ref.maximum_duration_us(), 35);
    assert_eq!(ring_ref.maximum_size_bytes(), 30);
    let off = Setting { enabled: false, ..shorter };
    reconcile_lookback(&mut ring, &off, 10, state(0), 0);
    assert!(ring.is_none());
}
