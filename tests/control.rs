use kairos::control::{
    AutostopAnchor, Autostop, Autotrigger, Lookback, RecordAction, RecordCommand,
    RecordConfiguration, TriggerResponse, DEFAULT_THRESHOLD_BITS,
};

#[test]
fn defaults() {
    let lookback = Lookback::default();
    assert!(!lookback.enabled);
    assert_eq!(lookback.maximum_duration_us, 10_000_000);
    assert_eq!(lookback.maximum_size_bytes, 1_024_000_000);
    assert_eq!(Autostop::default(), Autostop { enabled: false, duration_us: 10_000_000 });
    let autotrigger = Autotrigger::default();
    assert_eq!(autotrigger.short_sliding_window, 1);
    assert_eq!(autotrigger.long_sliding_window, 120);
    assert_eq!(f32::from_bits(DEFAULT_THRESHOLD_BITS), 10.0);
}

#[test]
fn action_is_consumed_on_read() {
    let mut configuration = RecordConfiguration::new();
    configuration.action = RecordAction::Start(String::from("x"));
    assert_eq!(configuration.take_action(), RecordAction::Start(String::from("x")));
    assert_eq!(configuration.take_action(), RecordAction::Continue);
    configuration.action = RecordAction::Stop;
    assert_eq!(configuration.take_action(), RecordAction::Stop);
}

#[test]
fn trigger_while_recording_slides_the_anchor() {
    let autotrigger = Autotrigger { enabled: true, ..Autotrigger::default() };
    let autostop = Autostop { enabled: true, duration_us: 1_000 };
    let mut anchor = AutostopAnchor::new();
    anchor.recording_opened(100);
    assert!(anchor.autostop_due(&autostop, 1_100));
    assert_eq!(anchor.autotrigger(&autotrigger, true, true, 900), TriggerResponse::SlideAnchor);
    assert_eq!(anchor.reference_t, 900);
    assert!(!anchor.autostop_due(&autostop, 1_100));
    assert!(!anchor.autostop_due(&autostop, 1_899));
    assert!(anchor.autostop_due(&autostop, 1_900));
}

#[test]
fn trigger_without_recording_opens_one() {
    let autotrigger = Autotrigger { enabled: true, ..Autotrigger::default() };
    let mut anchor = AutostopAnchor::new();
    assert_eq!(anchor.autotrigger(&autotrigger, true, false, 900), TriggerResponse::Open);
    assert_eq!(anchor.reference_t, 0);
    assert_eq!(anchor.autotrigger(&autotrigger, false, true, 900), TriggerResponse::Nothing);
    let disabled = Autotrigger::default();
    assert_eq!(anchor.autotrigger(&disabled, true, true, 900), TriggerResponse::Nothing);
    assert_eq!(anchor.reference_t, 0);
}

#[test]
fn autostop_disabled_never_due() {
    let anchor = AutostopAnchor::new();
    assert!(!anchor.autostop_due(&Autostop { enabled: false, duration_us: 0 }, u64::MAX));
    assert!(!anchor.autostop_due(&Autostop { enabled: true, duration_us: u64::MAX }, u64::MAX - 1));
}

#[test]
fn commands_update_the_configuration_and_last_one_wins() {
    let mut configuration = RecordConfiguration::new();
    let lookback = Lookback { enabled: true, maximum_duration_us: 1_000_000, maximum_size_bytes: 65_536 };
    configuration.apply(RecordCommand::UpdateLookback(lookback));
    assert_eq!(configuration.lookback, lookback);
    configuration.apply(RecordCommand::UpdateAutostop(Autostop { enabled: true, duration_us: 5 }));
    assert_eq!(configuration.autostop, Autostop { enabled: true, duration_us: 5 });
    configuration.apply(RecordCommand::StartRecording(String::from("x")));
    configuration.apply(RecordCommand::StopRecording);
    assert_eq!(configuration.take_action(), RecordAction::Stop);
    assert_eq!(configuration.lookback, lookback);
}
