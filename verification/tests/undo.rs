use librarian::commit::placement;
use librarian::plan::{expected_source_ids, AddPlan};
use librarian::undo::{missing_config_error, undo_config_path, undo_targets, undone_line};

#[test]
fn undo_config_is_the_collection_text_toml() {
    assert_eq!(undo_config_path("/cfg", "software"), "/cfg/software/text.toml");
    assert_eq!(
        missing_config_error("software", "/cfg/software/text.toml"),
        "no text.toml for collection software at /cfg/software/text.toml (every collection needs one to undo)"
    );
}

#[test]
fn undo_of_markdown_id_targets_placed_file_and_archived_pdf() {
    let t = undo_targets(
        "software/markdown/programming-rust/programming-rust.md",
        "software",
        "/corpus",
    );
    assert_eq!(t.placed, "/corpus/software/markdown/programming-rust/programming-rust.md");
    assert_eq!(t.archived_pdf.as_deref(), Some("/corpus/software/pdf/programming-rust.pdf"));
}

#[test]
fn undo_of_in_place_id_has_no_archived_pdf() {
    let t = undo_targets("software/ebook/async-rust.epub", "software", "/corpus");
    assert_eq!(t.placed, "/corpus/software/ebook/async-rust.epub");
    assert_eq!(t.archived_pdf, None);
    assert_eq!(undone_line("software/ebook/async-rust.epub"), "undone software/ebook/async-rust.epub");
}

#[test]
fn undo_reverses_each_kind_of_commit() {
    for src in ["/dl/Programming Rust.pdf", "/dl/notes.md", "/dl/x.epub", "/dl/y.html", "/dl/z.py"] {
        let plan = AddPlan::derive(src, "software", Some("shelf"), None, "/corpus", "/cfg").unwrap();
        let id = &expected_source_ids(&plan)[0];
        let t = undo_targets(id, "software", "/corpus");
        let pl = placement(&plan);
        let written = pl.markdown_at.clone().unwrap_or(pl.place_at.clone());
        assert_eq!(t.placed, written, "{src}");
        if src.ends_with(".pdf") {
            assert_eq!(t.archived_pdf.as_deref(), Some(plan.raw_path.as_str()));
        }
    }
}
