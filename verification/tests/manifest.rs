use librarian::manifest::{parse_status, status_str, ManifestStatus, MemManifestError};

#[test]
fn every_status_round_trips_through_its_name() {
    let all = [
        ManifestStatus::Pending,
        ManifestStatus::Success,
        ManifestStatus::Cached,
        ManifestStatus::Failed,
        ManifestStatus::RecoveredViaFallback,
        ManifestStatus::Skipped,
        ManifestStatus::Flagged,
        ManifestStatus::Removed,
    ];
    for s in all {
        assert_eq!(parse_status(status_str(s)), Some(s));
    }
    assert_eq!(status_str(ManifestStatus::RecoveredViaFallback), "RecoveredViaFallback");
    assert_eq!(parse_status("success"), None);
    assert_eq!(parse_status(""), None);
}

#[test]
fn mem_manifest_error_message() {
    assert_eq!(MemManifestError.message(), "mem-manifest poisoned");
}

#[test]
fn round_trip_preserves_each_status_variant() {
    let all = [
        ManifestStatus::Pending,
        ManifestStatus::Success,
        ManifestStatus::Cached,
        ManifestStatus::Failed,
        ManifestStatus::RecoveredViaFallback,
        ManifestStatus::Skipped,
        ManifestStatus::Removed,
    ];
    let stored: Vec<&str> = all.iter().map(|s| status_str(*s)).collect();
    for s in all {
        let listed = stored.iter().filter(|n| parse_status(n) == Some(s)).count();
        assert_eq!(listed, 1, "status {s:?}");
    }
}
