use kairos::recordings::keep_conversion_states;
use kairos::recordings::{classify_file_name, FileEntry};
use kairos::recordings::{
    cancel_conversion, finish_conversion, queue_for_conversion, recording_state,
    start_next_conversion, FileStatus, Recording, RecordingState,
};

fn recording(name: &str, state: RecordingState) -> Recording {
    Recording { name: String::from(name), state }
}

#[test]
fn all_files_complete() {
    let statuses = [FileStatus::Complete(10), FileStatus::Complete(20), FileStatus::Complete(5), FileStatus::Complete(1)];
    assert_eq!(recording_state(&statuses, None), RecordingState::Complete { size_bytes: 36, zip: false });
    assert_eq!(
        recording_state(&statuses, Some(FileStatus::Complete(0))),
        RecordingState::Complete { size_bytes: 36, zip: true }
    );
    assert_eq!(
        recording_state(&statuses, Some(FileStatus::Write)),
        RecordingState::Complete { size_bytes: 36, zip: false }
    );
}

#[test]
fn a_file_under_construction_means_ongoing() {
    let statuses = [FileStatus::Write, FileStatus::Complete(20), FileStatus::Write, FileStatus::Complete(1)];
    assert_eq!(recording_state(&statuses, Some(FileStatus::Complete(0))), RecordingState::Ongoing);
}

#[test]
fn a_missing_file_means_incomplete() {
    let statuses = [FileStatus::Complete(10), FileStatus::NotFound, FileStatus::Complete(5), FileStatus::Write];
    assert_eq!(recording_state(&statuses, None), RecordingState::Incomplete { size_bytes: 15 });
}

#[test]
fn conversion_lifecycle() {
    let mut recordings = vec![
        recording("a", RecordingState::Complete { size_bytes: 1, zip: false }),
        recording("x", RecordingState::Complete { size_bytes: 2, zip: false }),
        recording("z", RecordingState::Complete { size_bytes: 3, zip: true }),
        recording("o", RecordingState::Ongoing),
    ];
    queue_for_conversion(&mut recordings, &vec![String::from("x"), String::from("z"), String::from("o")]);
    assert_eq!(recordings[0].state, RecordingState::Complete { size_bytes: 1, zip: false });
    assert_eq!(recordings[1].state, RecordingState::Queued { size_bytes: 2, zip: false });
    assert_eq!(recordings[2].state, RecordingState::Complete { size_bytes: 3, zip: true });
    assert_eq!(recordings[3].state, RecordingState::Ongoing);
    assert_eq!(start_next_conversion(&mut recordings), Some(1));
    assert_eq!(recordings[1].state, RecordingState::Converting { size_bytes: 2, zip: false });
    assert_eq!(start_next_conversion(&mut recordings), None);
    finish_conversion(&mut recordings);
    assert_eq!(recordings[1].state, RecordingState::Complete { size_bytes: 2, zip: false });
    assert_eq!(recordings[1].name, "x");
}

#[test]
fn queued_with_archive_is_completed_when_picking() {
    let mut recordings = vec![
        recording("a", RecordingState::Queued { size_bytes: 1, zip: true }),
        recording("b", RecordingState::Queued { size_bytes: 2, zip: false }),
        recording("c", RecordingState::Queued { size_bytes: 3, zip: false }),
    ];
    assert_eq!(start_next_conversion(&mut recordings), Some(1));
    assert_eq!(recordings[0].state, RecordingState::Complete { size_bytes: 1, zip: true });
    assert_eq!(recordings[2].state, RecordingState::Queued { size_bytes: 3, zip: false });
}

#[test]
fn cancel_reverts_queued_only() {
    let mut recordings = vec![
        recording("a", RecordingState::Queued { size_bytes: 1, zip: false }),
        recording("b", RecordingState::Converting { size_bytes: 2, zip: false }),
    ];
    assert!(cancel_conversion(&mut recordings));
    assert_eq!(recordings[0].state, RecordingState::Complete { size_bytes: 1, zip: false });
    assert_eq!(recordings[1].state, RecordingState::Converting { size_bytes: 2, zip: false });
    assert!(!cancel_conversion(&mut recordings));
}

#[test]
fn converting_an_archived_recording_is_a_no_op() {
    let mut recordings = vec![recording("x", RecordingState::Complete { size_bytes: 2, zip: true })];
    queue_for_conversion(&mut recordings, &vec![String::from("x")]);
    assert_eq!(recordings[0].state, RecordingState::Complete { size_bytes: 2, zip: true });
}

#[test]
fn file_names_are_classified() {
    let extensions = vec![b".index.kai".to_vec(), b".raw.kai".to_vec(), b".samples.kai".to_vec(), b".toml".to_vec()];
    assert_eq!(
        classify_file_name(b"x.raw.kai", &extensions, b".write"),
        Some(FileEntry { stem_length: 1, extension_index: 1, write: false })
    );
    assert_eq!(
        classify_file_name(b"2024_run.toml.write", &extensions, b".write"),
        Some(FileEntry { stem_length: 8, extension_index: 3, write: true })
    );
    assert_eq!(classify_file_name(b".hidden.toml", &extensions, b".write"), None);
    assert_eq!(classify_file_name(b"notes.txt", &extensions, b".write"), None);
    assert_eq!(
        classify_file_name(b".toml", &[b".toml".to_vec()].to_vec(), b".write"),
        None
    );
}

#[test]
fn rescans_keep_queued_and_converting_states() {
    let previous = vec![
        recording("a", RecordingState::Queued { size_bytes: 1, zip: false }),
        recording("b", RecordingState::Converting { size_bytes: 2, zip: false }),
        recording("c", RecordingState::Complete { size_bytes: 3, zip: false }),
    ];
    let mut scanned = vec![
        recording("a", RecordingState::Complete { size_bytes: 10, zip: false }),
        recording("b", RecordingState::Complete { size_bytes: 20, zip: true }),
        recording("c", RecordingState::Complete { size_bytes: 30, zip: false }),
        recording("d", RecordingState::Ongoing),
    ];
    keep_conversion_states(&mut scanned, &previous);
    assert_eq!(scanned[0].state, RecordingState::Queued { size_bytes: 10, zip: false });
    assert_eq!(scanned[1].state, RecordingState::Converting { size_bytes: 20, zip: true });
    assert_eq!(scanned[2].state, RecordingState::Complete { size_bytes: 30, zip: false });
    assert_eq!(scanned[3].state, RecordingState::Ongoing);
}
