use librarian::plan::{
    classify_ext, config_file_for, expected_source_ids, ingest_config_path, markdown_slug, slugify,
    AddPlan, Kind,
};

const CORPUS: &str = "/corpus";
const CFG: &str = "/cfg";

#[test]
fn pdf_basic() {
    let plan = AddPlan::derive("/downloads/Programming Rust.pdf", "software", None, None, CORPUS, CFG)
        .unwrap();
    assert_eq!(plan.kind, Kind::Pdf);
    assert_eq!(plan.slug, "programming-rust");
    assert_eq!(plan.raw_path, "/corpus/software/pdf/programming-rust.pdf");
    assert_eq!(plan.ingest_path, "/corpus/software/markdown/programming-rust");
    assert_eq!(plan.source_id_prefix, "software/markdown/programming-rust");
    assert_eq!(plan.config_path, "/cfg/software/pdf.toml");
}

#[test]
fn epub_in_place() {
    let plan = AddPlan::derive("/downloads/Async Rust.epub", "software", None, None, CORPUS, CFG)
        .unwrap();
    assert_eq!(plan.kind, Kind::Ebook);
    assert_eq!(plan.slug, "async-rust");
    assert_eq!(plan.raw_path, "/corpus/software/ebook/async-rust.epub");
    assert_eq!(plan.ingest_path, plan.raw_path);
    assert_eq!(plan.source_id_prefix, "software/ebook/async-rust.epub");
    assert_eq!(plan.config_path, "/cfg/software/ebook.toml");
}

#[test]
fn markdown_with_shelf_and_custom_slug() {
    let plan = AddPlan::derive(
        "/downloads/foo.md",
        "software",
        Some("architecture"),
        Some("my-book"),
        CORPUS,
        CFG,
    )
    .unwrap();
    assert_eq!(plan.slug, "architecture-my-book");
    assert_eq!(plan.ingest_path, "/corpus/software/markdown/architecture-my-book");
    assert_eq!(plan.raw_path, plan.ingest_path);
    assert_eq!(plan.source_id_prefix, "software/markdown/architecture-my-book");
    assert_eq!(plan.config_path, "/cfg/software/text.toml");
}

#[test]
fn unsupported_extension_errors() {
    let result = AddPlan::derive("/downloads/photo.png", "software", None, None, CORPUS, CFG);
    assert!(result.is_err());
    assert!(result.unwrap_err().contains("unsupported file type"));
}

#[test]
fn html_in_place() {
    let plan = AddPlan::derive(
        "/downloads/the-rust-reference.html",
        "software",
        None,
        None,
        CORPUS,
        CFG,
    )
    .unwrap();
    assert_eq!(plan.kind, Kind::Html);
    assert_eq!(plan.raw_path, "/corpus/software/html/the-rust-reference.html");
    assert_eq!(plan.ingest_path, plan.raw_path);
    assert_eq!(plan.source_id_prefix, "software/html/the-rust-reference.html");
    assert_eq!(plan.config_path, "/cfg/software/html.toml");
}

#[test]
fn code_in_place() {
    let plan = AddPlan::derive("/downloads/main.rs", "software", None, None, CORPUS, CFG).unwrap();
    assert_eq!(plan.kind, Kind::Code);
    assert_eq!(plan.raw_path, "/corpus/software/code/main.rs");
    assert_eq!(plan.ingest_path, plan.raw_path);
    assert_eq!(plan.source_id_prefix, "software/code/main.rs");
    assert_eq!(plan.config_path, "/cfg/software/code.toml");
}

fn plan_with(kind: Kind) -> AddPlan {
    AddPlan {
        kind,
        slug: "programming-rust".into(),
        raw_path: "/corpus/software/pdf/programming-rust.pdf".into(),
        ingest_path: "/corpus/software/markdown/programming-rust".into(),
        source_id_prefix: "software/markdown/programming-rust".into(),
        config_path: "/cfg/software/pdf.toml".into(),
    }
}

#[test]
fn expected_ids_for_in_place_kind_are_the_bare_prefix() {
    let mut plan = plan_with(Kind::Ebook);
    plan.source_id_prefix = "software/ebook/async-rust.epub".into();
    assert_eq!(expected_source_ids(&plan), vec!["software/ebook/async-rust.epub".to_string()]);
}

#[test]
fn expected_ids_for_dir_kind_extend_prefix_with_md() {
    let plan = plan_with(Kind::Pdf);
    assert_eq!(
        expected_source_ids(&plan),
        vec!["software/markdown/programming-rust/programming-rust.md".to_string()]
    );
}

#[test]
fn markdown_slug_extracts_dir_after_markdown() {
    assert_eq!(
        markdown_slug("software/markdown/programming-rust/programming-rust.md"),
        Some("programming-rust".to_string())
    );
}

#[test]
fn markdown_slug_none_for_non_markdown_ids() {
    assert_eq!(markdown_slug("software/ebook/async-rust.epub"), None);
    assert_eq!(markdown_slug("software/code/main.rs"), None);
}

#[test]
fn markdown_slug_edge_shapes() {
    assert_eq!(markdown_slug("software"), None);
    assert_eq!(markdown_slug("software/markdown"), None);
    assert_eq!(markdown_slug("software/markdown/"), Some(String::new()));
    assert_eq!(markdown_slug("software/markdown/slug"), Some("slug".to_string()));
}

#[test]
fn pdf_ingests_through_sibling_text_toml() {
    let plan = plan_with(Kind::Pdf);
    assert_eq!(ingest_config_path(&plan), "/cfg/software/text.toml");
    let mut other = plan_with(Kind::Html);
    other.config_path = "/cfg/software/html.toml".into();
    assert_eq!(ingest_config_path(&other), "/cfg/software/html.toml");
    let mut bare = plan_with(Kind::Pdf);
    bare.config_path = "pdf.toml".into();
    assert_eq!(ingest_config_path(&bare), "text.toml");
}

#[test]
fn slugify_collapses_and_trims() {
    assert_eq!(slugify("Programming Rust"), "programming-rust");
    assert_eq!(slugify("  --Hello,   World!! 2nd ed.  "), "hello-world-2nd-ed");
    assert_eq!(slugify("héllo"), "h-llo");
    assert_eq!(slugify("***"), "");
    assert_eq!(slugify(&slugify("A  b__C")), slugify("A  b__C"));
}

#[test]
fn empty_slug_and_empty_shelf_are_errors() {
    let e = AddPlan::derive("/downloads/***.md", "software", None, None, CORPUS, CFG).unwrap_err();
    assert!(e.starts_with("could not derive a slug from \"/downloads/***.md\""), "{e}");
    let e = AddPlan::derive("/downloads/x.md", "software", Some("!!"), None, CORPUS, CFG)
        .unwrap_err();
    assert_eq!(e, "shelf \"!!\" produced an empty slug");
}

#[test]
fn extension_is_lowercased_and_checked_after_slug() {
    let plan = AddPlan::derive("/d/Book.EPUB", "lib", None, None, CORPUS, CFG).unwrap();
    assert_eq!(plan.raw_path, "/corpus/lib/ebook/book.epub");
    let e = AddPlan::derive("/d/noext", "lib", None, None, CORPUS, CFG).unwrap_err();
    assert_eq!(e, "unsupported file type: .");
    assert_eq!(classify_ext("azw3"), Ok(Kind::Ebook));
    assert_eq!(classify_ext("PDF"), Err("unsupported file type: .PDF".to_string()));
    let (k, c) = AddPlan::config_path_for("/d/x.py", "code-lib", "/cfg").unwrap();
    assert_eq!(k, Kind::Code);
    assert_eq!(c, "/cfg/code-lib/code.toml");
    assert_eq!(config_file_for(&Kind::Markdown), "text.toml");
}

#[test]
fn config_root_env_then_home_then_fallback() {
    assert_eq!(librarian::plan::config_root(Some("/tmp/cfg"), Some("/home/u")), "/tmp/cfg");
    assert_eq!(librarian::plan::config_root(None, Some("/home/u")), "/home/u/.librarian");
    assert_eq!(librarian::plan::config_root(None, None), "/var/lib/librarian/.librarian");
}
