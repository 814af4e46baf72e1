use librarian::snapshot::{collection_snapshots, prune_victims, snapshot_id, SnapshotError};

#[test]
fn list_filters_by_collection_prefix_names() {
    let names = vec![
        "col-a__snap1.snapshot".to_string(),
        "col-b__snap3.snapshot".to_string(),
        "col-a__snap2.snapshot".to_string(),
        "col-a_snap4.snapshot".to_string(),
    ];
    assert_eq!(
        collection_snapshots("col-a", &names),
        vec!["col-a__snap1.snapshot".to_string(), "col-a__snap2.snapshot".to_string()]
    );
    assert!(collection_snapshots("x", &[]).is_empty());
}

#[test]
fn snapshot_ids_and_messages() {
    assert_eq!(snapshot_id("c", "s1.snapshot"), "c__s1.snapshot");
    assert_eq!(SnapshotError::NotFound("c__x".into()).message(), "snapshot not found on NAS: c__x");
    assert_eq!(SnapshotError::Http("create: boom".into()).message(), "http: create: boom");
    assert_eq!(SnapshotError::Io("denied".into()).message(), "io: denied");
    assert_eq!(SnapshotError::Qdrant("restore http 500".into()).message(), "qdrant: restore http 500");
}

#[test]
fn prune_keeps_newest_n() {
    // Five snapshots, oldest first: keeping 3 deletes the two oldest, newest first.
    assert_eq!(prune_victims(&[1, 2, 3, 4, 5], 3), vec![1, 0]);
    // Listing order does not matter, only modification times.
    assert_eq!(prune_victims(&[30, 10, 50, 20, 40], 2), vec![0, 3, 1]);
    // Equal times keep listing order (stable sort).
    assert_eq!(prune_victims(&[5, 5, 1], 1), vec![1, 2]);
    assert!(prune_victims(&[1, 2], 5).is_empty());
    assert_eq!(prune_victims(&[7, 8], 0), vec![1, 0]);
    assert!(prune_victims(&[], 0).is_empty());
}

#[test]
fn a_taken_snapshot_is_listed_for_its_collection() {
    let id = snapshot_id("software", "software-123.snapshot");
    let names = vec!["other__x.snapshot".to_string(), id.clone()];
    assert_eq!(collection_snapshots("software", &names), vec![id]);
}
