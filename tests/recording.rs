use kairos::recording::{
    sampler_recording_action, update_file_state, FileState, RecordingFile, RecordingLedger,
    SamplerRecordingAction,
};

#[test]
fn size_counts_every_file_and_offset_only_raw() {
    let mut ledger = RecordingLedger::new(16, 14, 100, 1_000);
    assert_eq!(ledger.size_bytes(), 130);
    assert_eq!(ledger.raw_file_offset(), 16);
    assert!(!ledger.record_write(RecordingFile::Raw, 4096, false));
    assert!(!ledger.record_write(RecordingFile::Index, 54, false));
    assert!(!ledger.record_write(RecordingFile::Metadata, 30, false));
    assert_eq!(ledger.raw_file_offset(), 16 + 4096);
    assert_eq!(ledger.size_bytes(), 130 + 4096 + 54 + 30);
}

#[test]
fn first_error_per_file_is_reported_once() {
    let mut ledger = RecordingLedger::new(16, 14, 0, 0);
    assert!(ledger.record_write(RecordingFile::Index, 10, true));
    assert!(!ledger.writable(RecordingFile::Index));
    assert!(ledger.writable(RecordingFile::Raw));
    assert!(!ledger.record_write(RecordingFile::Index, 0, true));
    assert!(ledger.record_write(RecordingFile::Raw, 3, true));
    assert_eq!(ledger.size_bytes(), 16 + 14 + 10 + 3);
}

#[test]
fn duration_is_zero_before_start() {
    let ledger = RecordingLedger::new(0, 0, 0, 5_000);
    assert_eq!(ledger.duration_us(4_000), 0);
    assert_eq!(ledger.duration_us(7_500), 2_500);
}

#[test]
fn file_state_mirrors_the_ledger() {
    let ledger = RecordingLedger::new(16, 14, 20, 100);
    let mut file_state = None;
    update_file_state(&ledger, &String::from("/d"), &String::from("n"), 600, &mut file_state);
    assert_eq!(
        file_state,
        Some(FileState { directory: String::from("/d"), name: String::from("n"), duration_us: 500, size_bytes: 50 })
    );
}

#[test]
fn sampler_follows_the_producer() {
    let state = Some(FileState { directory: String::from("/d"), name: String::from("n"), duration_us: 5, size_bytes: 6 });
    assert_eq!(sampler_recording_action(&None, &None), SamplerRecordingAction::Stop);
    assert_eq!(
        sampler_recording_action(&state, &None),
        SamplerRecordingAction::Start { directory: String::from("/d"), name: String::from("n"), duration_us: 5, size_bytes: 6 }
    );
    assert_eq!(
        sampler_recording_action(&state, &Some((String::from("/d"), String::from("n")))),
        SamplerRecordingAction::Continue { duration_us: 5, size_bytes: 6 }
    );
    assert_eq!(
        sampler_recording_action(&state, &Some((String::from("/d"), String::from("m")))),
        SamplerRecordingAction::Start { directory: String::from("/d"), name: String::from("n"), duration_us: 5, size_bytes: 6 }
    );
}
