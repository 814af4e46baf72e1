use librarian::docs::{
    canonical_source_id, doc_for_preview, has_ebook_ext, has_html_ext, make_doc, outcome_line,
    parse_content_type, source_hash, ContentType, Outcome,
};
use librarian::manifest::SourceId;

#[test]
fn source_id_is_relative_to_corpus_root() {
    let id = canonical_source_id(
        "/data/corpus/software/markdown/foo-book/chapter-1.md",
        "/data/corpus",
    )
    .unwrap();
    assert_eq!(id.0, "software/markdown/foo-book/chapter-1.md");
}

#[test]
fn rejects_path_outside_corpus_root() {
    assert!(canonical_source_id("/tmp/x.md", "/data/corpus").is_err());
}

#[test]
fn strip_prefix_is_component_wise() {
    assert_eq!(canonical_source_id("/data/corpus2/x.md", "/data/corpus").map(|s| s.0).is_err(), true);
    assert_eq!(canonical_source_id("/data//corpus/./a//b.md/", "/data/corpus/").unwrap().0, "a//b.md");
    assert_eq!(canonical_source_id("/data/corpus", "/data/corpus").unwrap().0, "");
    assert_eq!(canonical_source_id("rel/a.md", "rel").unwrap().0, "a.md");
    assert!(canonical_source_id("rel/a.md", "/rel").is_err());
    assert!(canonical_source_id("/rel/a.md", "rel").is_err());
    assert_eq!(canonical_source_id("./a/b", "./a").unwrap().0, "b");
    assert_eq!(canonical_source_id("a/b/", "").unwrap().0, "a/b");
    let e = canonical_source_id("/tmp/x.md", "/data/corpus").unwrap_err();
    assert_eq!(
        e,
        "refusing to ingest /tmp/x.md: not under corpus_root /data/corpus — place it under the corpus first (see LAYOUT.md)"
    );
}

#[test]
fn content_types_parse() {
    assert_eq!(parse_content_type("book"), Ok(ContentType::Book));
    assert_eq!(parse_content_type("paper"), Ok(ContentType::Paper));
    assert_eq!(parse_content_type("code"), Ok(ContentType::Code));
    assert_eq!(parse_content_type("Book"), Err("unknown content_type: Book".to_string()));
}

#[test]
fn extension_filters() {
    assert!(has_ebook_ext("/a/b.EPUB"));
    assert!(has_ebook_ext("x.azw3"));
    assert!(!has_ebook_ext("x.pdf"));
    assert!(!has_ebook_ext(".epub"));
    assert!(has_html_ext("index.HTM"));
    assert!(!has_html_ext("index"));
}

#[test]
fn source_hash_is_hex_sha256() {
    assert_eq!(
        source_hash(b"abc").0,
        "ba7816bf8f01cfea414140de5dae2223b00361a396177a9cb410ff61f20015ad"
    );
    assert_eq!(
        source_hash(b"").0,
        "e3b0c44298fc1c149afbf4c8996fb92427ae41e4649b934ca495991b7852b855"
    );
}

#[test]
fn documents_carry_id_hash_and_path() {
    let d = make_doc("/c/s/a.md", Ok(b"abc".to_vec()), ContentType::Book, "/c").unwrap();
    assert_eq!(d.source_id.0, "s/a.md");
    assert_eq!(d.path, "/c/s/a.md");
    assert_eq!(d.content_type, ContentType::Book);
    assert!(d.work_id.is_none());
    assert_eq!(d.source_hash, source_hash(b"abc"));
    let e = make_doc("/c/s/a.md", Err("denied".into()), ContentType::Book, "/c").unwrap_err();
    assert_eq!(e, "read /c/s/a.md: denied");
    let e = make_doc("/x/a.md", Err("denied".into()), ContentType::Book, "/c").unwrap_err();
    assert!(e.starts_with("refusing to ingest /x/a.md"));
    let p = doc_for_preview("/dl/a.md", Ok(vec![]), ContentType::Paper, SourceId("col/markdown/a".into()))
        .unwrap();
    assert_eq!(p.source_id.0, "col/markdown/a");
}

#[test]
fn outcome_lines() {
    let ok = Outcome::Success { source_id: SourceId("a.txt".into()), chunks_indexed: 3 };
    assert_eq!(outcome_line(&ok), "ok\tsource=a.txt\tchunks=3");
    assert!(!ok.is_failed());
    let f = Outcome::Failed {
        source_id: SourceId("b".into()),
        stage: "embed".into(),
        error: "x".into(),
    };
    assert_eq!(outcome_line(&f), "fail\tsource=b\tstage=embed\terror=x");
    assert!(f.is_failed());
    let s = Outcome::Skipped { source_id: SourceId("c".into()), reason: "index".into() };
    assert_eq!(outcome_line(&s), "skip\tsource=c\treason=index");
}
