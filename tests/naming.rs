use kairos::naming::{recording_stem, recording_stem_at};

#[test]
fn stem_without_name_is_the_timestamp() {
    assert_eq!(recording_stem("2024-01-02T03-04-05.000006Z", ""), b"2024-01-02T03-04-05.000006Z".to_vec());
    assert_eq!(recording_stem("t", "run"), b"t_run".to_vec());
}

#[test]
fn stem_from_an_instant() {
    assert_eq!(
        recording_stem_at(1_662_921_288_000_001, "x"),
        Some(b"2022-09-11T18-34-48.000001Z_x".to_vec())
    );
    assert_eq!(recording_stem_at(0, ""), Some(b"1970-01-01T00-00-00.000000Z".to_vec()));
}
