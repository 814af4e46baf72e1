use librarian::config::IngestConfig;
use librarian::docs::Outcome;
use librarian::ingest::{extractor_kind, failure_summary, select_chunker, ExtractorKind, SelectedChunker};
use librarian::manifest::SourceId;

#[test]
fn extractors_by_name() {
    assert_eq!(extractor_kind("text"), Ok(ExtractorKind::Text));
    assert_eq!(extractor_kind("pdf"), Ok(ExtractorKind::Pdf));
    assert_eq!(extractor_kind("ebook"), Ok(ExtractorKind::Ebook));
    assert_eq!(extractor_kind("html"), Ok(ExtractorKind::Html));
    assert_eq!(extractor_kind("code"), Ok(ExtractorKind::Code));
    assert_eq!(extractor_kind("docx"), Err("unsupported extractor: docx".to_string()));
}

#[test]
fn chunker_selection() {
    let mut c = IngestConfig::default();
    assert_eq!(
        select_chunker(&c),
        Ok(SelectedChunker::Recursive { chunk_size: 2000, chunk_overlap: 200 })
    );
    c.chunker = "blankline".into();
    assert_eq!(select_chunker(&c), Ok(SelectedChunker::BlankLine));
    c.chunker = "semantic".into();
    assert_eq!(
        select_chunker(&c),
        Err("unknown chunker 'semantic' (expected 'recursive' or 'blankline')".to_string())
    );
}

#[test]
fn failures_are_counted() {
    let ok = |s: &str| Outcome::Success { source_id: SourceId(s.into()), chunks_indexed: 1 };
    let bad = |s: &str| Outcome::Failed {
        source_id: SourceId(s.into()),
        stage: "extract".into(),
        error: "x".into(),
    };
    assert_eq!(failure_summary(&[ok("a"), ok("b")]), None);
    assert_eq!(failure_summary(&[bad("a"), ok("b"), bad("c")]), Some("2 document(s) failed".to_string()));
}

#[test]
fn ingest_start_orders_its_checks() {
    let mut cfg = IngestConfig::default();
    cfg.chunker = "bogus".into();
    cfg.extractor = "nope".into();
    match librarian::ingest::ingest_start(&cfg, "/in", 0) {
        Ok(librarian::ingest::IngestStart::NoInput(m)) => assert_eq!(m, "no input files found at /in"),
        other => panic!("{other:?}"),
    }
    assert_eq!(
        librarian::ingest::ingest_start(&cfg, "/in", 2).unwrap_err(),
        "unknown chunker 'bogus' (expected 'recursive' or 'blankline')"
    );
    cfg.chunker = "blankline".into();
    assert_eq!(librarian::ingest::ingest_start(&cfg, "/in", 2).unwrap_err(), "unsupported extractor: nope");
    cfg.extractor = "code".into();
    match librarian::ingest::ingest_start(&cfg, "/in", 2) {
        Ok(librarian::ingest::IngestStart::Run { extractor, chunker }) => {
            assert_eq!(extractor, librarian::ingest::ExtractorKind::Code);
            assert_eq!(chunker, librarian::ingest::SelectedChunker::BlankLine);
        }
        other => panic!("{other:?}"),
    }
}
