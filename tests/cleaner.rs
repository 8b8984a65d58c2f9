use batch_downloader::cleaner::{clean_files, is_expired, BucketObject, SweepError, RETENTION_MILLIS};

const NOW: i64 = 1_704_110_400_000; // 2024-01-01T12:00:00Z

fn object(key: &str, modified: &str) -> BucketObject {
    BucketObject { key: key.to_string(), last_modified: modified.to_string() }
}

#[test]
fn sweep_deletes_only_objects_past_retention() {
    let objects = vec![object("old", "2024-01-01T08:00:00Z"), object("recent", "2024-01-01T11:00:00Z")];
    assert_eq!(clean_files(&objects, NOW), Ok(vec!["old".to_string()]));
}

#[test]
fn sweep_boundary_and_offsets() {
    let objects = vec![
        object("edge", "2024-01-01T09:00:00Z"),
        object("just_older", "2024-01-01T08:59:59.999Z"),
        object("just_inside", "2024-01-01T09:00:01Z"),
        object("offset_old", "2024-01-01T10:00:00+02:00"),
    ];
    assert_eq!(clean_files(&objects, NOW), Ok(vec!["just_older".to_string(), "offset_old".to_string()]));
    assert_eq!(clean_files(&Vec::new(), NOW), Ok(vec![]));
}

#[test]
fn sweep_stops_on_unreadable_timestamp() {
    let objects = vec![object("a", "2024-01-01T08:00:00Z"), object("b", "yesterday")];
    assert_eq!(clean_files(&objects, NOW), Err(SweepError::BadTimestamp(1)));
}

#[test]
fn expiry_is_strict_and_safe_near_limits() {
    assert_eq!(RETENTION_MILLIS, 3 * 60 * 60 * 1000);
    assert!(!is_expired(NOW - RETENTION_MILLIS, NOW));
    assert!(is_expired(NOW - RETENTION_MILLIS - 1, NOW));
    assert!(!is_expired(NOW - RETENTION_MILLIS + 1, NOW));
    assert!(!is_expired(i64::MIN, i64::MIN));
}
