use librarian::audit::{audit_report, finding, section_name, Finding};

#[test]
fn section_name_is_the_file_stem_or_the_whole_id() {
    assert_eq!(section_name("/c/Index-of-Terms.pdf"), "Index-of-Terms");
    assert_eq!(section_name("software/markdown/foo/chapter-1.md"), "chapter-1");
    assert_eq!(section_name("/"), "/");
}

#[test]
fn low_value_section_wins_over_its_text() {
    assert!(matches!(finding(Some("index".into()), Some(true)), Finding::LowValue(r) if r == "index"));
    assert!(matches!(finding(Some("index".into()), None), Finding::LowValue(_)));
    assert!(matches!(finding(None, Some(true)), Finding::Flagged));
    assert!(matches!(finding(None, Some(false)), Finding::Clean));
    assert!(matches!(finding(None, None), Finding::Unreadable));
}

#[test]
fn report_buckets_each_document_once_keeping_lists_in_order() {
    let docs = vec![
        ("/c/Index-of-Terms.pdf".to_string(), finding(Some("index".into()), Some(false))),
        ("/c/Chapter-01.pdf".to_string(), finding(None, Some(true))),
        ("/c/Chapter-02.pdf".to_string(), finding(None, Some(false))),
        ("/c/Glossary.pdf".to_string(), finding(None, Some(false))),
        ("/c/Chapter-03.pdf".to_string(), finding(None, None)),
        ("/c/Bibliography.pdf".to_string(), finding(Some("bibliography".into()), None)),
        ("/c/Chapter-04.pdf".to_string(), finding(None, Some(true))),
    ];
    let r = audit_report(&docs);
    assert_eq!(r.total, 7);
    assert_eq!(
        r.low_value,
        vec![
            ("/c/Index-of-Terms.pdf".to_string(), "index".to_string()),
            ("/c/Bibliography.pdf".to_string(), "bibliography".to_string()),
        ]
    );
    assert_eq!(r.flagged, vec!["/c/Chapter-01.pdf".to_string(), "/c/Chapter-04.pdf".to_string()]);
    assert_eq!((r.clean, r.unreadable), (2, 1));
    assert_eq!(r.low_value.len() + r.flagged.len() + r.clean + r.unreadable, r.total);
    let e = audit_report(&[]);
    assert_eq!((e.total, e.low_value.len(), e.flagged.len(), e.clean, e.unreadable), (0, 0, 0, 0, 0));
}

#[test]
fn audit_buckets_docs_by_quality() {
    let docs = vec![
        ("/c/Index-of-Terms.pdf".to_string(), finding(Some("index".into()), Some(false))),
        ("/c/Chapter-01.pdf".to_string(), finding(None, Some(true))),
        ("/c/Chapter-02.pdf".to_string(), finding(None, Some(false))),
        ("/c/Glossary.pdf".to_string(), finding(None, Some(false))),
        ("/c/Chapter-03.pdf".to_string(), finding(None, None)),
    ];
    assert_eq!(section_name(&docs[0].0), "Index-of-Terms");
    let r = audit_report(&docs);
    assert_eq!(r.total, 5);
    assert_eq!(r.low_value.len(), 1);
    assert_eq!(r.flagged.len(), 1);
    assert_eq!(r.clean, 2);
    assert_eq!(r.unreadable, 1);
}
