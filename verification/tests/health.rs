use librarian::health::{first_relevant_rank, fragment_count_at5, is_fragment};

#[test]
fn rank_finds_first_relevant_source_case_insensitive() {
    let sources = vec![
        "zebra#0".to_string(),
        "testing_Effective-Software-Testing#3".to_string(),
    ];
    assert_eq!(
        first_relevant_rank(&sources, &["effective-software-testing".into()]),
        Some(2)
    );
    assert_eq!(first_relevant_rank(&sources, &["nonexistent".into()]), None);
}

#[test]
fn rank_edges() {
    let sources = vec!["A".to_string(), "b".to_string()];
    assert_eq!(first_relevant_rank(&sources, &[]), None);
    // The empty substring is contained in every source.
    assert_eq!(first_relevant_rank(&sources, &["".into()]), Some(1));
    assert_eq!(first_relevant_rank(&sources, &["B".into()]), Some(2));
}

#[test]
fn fragments_are_short_or_headings() {
    let body = "x".repeat(200);
    assert!(is_fragment("short"));
    assert!(is_fragment(&format!("  \n# {body}")));
    assert!(!is_fragment(&body));
    assert!(is_fragment(&"é".repeat(79)));
    assert!(!is_fragment(&"é".repeat(80)));
}

#[test]
fn fragment_count_over_top5() {
    let body = "x".repeat(200);
    let texts = vec!["# Heading".to_string(), body.clone(), body.clone()];
    assert_eq!(fragment_count_at5(&texts), (1, 3));
    assert_eq!(fragment_count_at5(&[]), (0, 0));
    let many = vec![
        "a".to_string(),
        body.clone(),
        "b".to_string(),
        body.clone(),
        body.clone(),
        "c".to_string(),
    ];
    assert_eq!(fragment_count_at5(&many), (2, 5));
}
