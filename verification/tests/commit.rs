use librarian::commit::{
    add_start, after_preview, preview_verdict_line, AddStart, AfterPreview, committed_line, guard, guard_paths, placement, precheck, present_count, rolled_back_error,
    rollback, GuardOutcome,
};
use librarian::plan::AddPlan;

fn plan(src: &str) -> AddPlan {
    AddPlan::derive(src, "software", None, None, "/corpus", "/cfg").unwrap()
}

#[test]
fn pdf_is_archived_and_its_markdown_written_then_ingested_via_text_toml() {
    let p = placement(&plan("/dl/Programming Rust.pdf"));
    assert_eq!(p.place_at, "/corpus/software/pdf/programming-rust.pdf");
    assert_eq!(
        p.markdown_at.as_deref(),
        Some("/corpus/software/markdown/programming-rust/programming-rust.md")
    );
    assert_eq!(p.ingest_config, "/cfg/software/text.toml");
    assert_eq!(p.ingest_input, "/corpus/software/markdown/programming-rust");
}

#[test]
fn markdown_is_placed_as_slug_md_in_its_dir() {
    let p = placement(&plan("/dl/notes.md"));
    assert_eq!(p.place_at, "/corpus/software/markdown/notes/notes.md");
    assert_eq!(p.markdown_at, None);
    assert_eq!(p.ingest_config, "/cfg/software/text.toml");
    assert_eq!(p.ingest_input, "/corpus/software/markdown/notes");
}

#[test]
fn in_place_kinds_are_placed_at_their_ingest_path() {
    let p = placement(&plan("/dl/Async Rust.epub"));
    assert_eq!(p.place_at, "/corpus/software/ebook/async-rust.epub");
    assert_eq!(p.markdown_at, None);
    assert_eq!(p.ingest_config, "/cfg/software/ebook.toml");
    assert_eq!(p.ingest_input, p.place_at);
}

#[test]
fn rollback_of_pdf_removes_points_files_and_dir() {
    let r = rollback(&plan("/dl/Programming Rust.pdf"));
    assert_eq!(r.config, "/cfg/software/text.toml");
    assert_eq!(
        r.remove_ids,
        vec!["software/markdown/programming-rust/programming-rust.md".to_string()]
    );
    assert_eq!(
        r.delete_files,
        vec![
            "/corpus/software/pdf/programming-rust.pdf".to_string(),
            "/corpus/software/markdown/programming-rust/programming-rust.md".to_string(),
        ]
    );
    assert_eq!(r.remove_dir.as_deref(), Some("/corpus/software/markdown/programming-rust"));
}

#[test]
fn rollback_of_in_place_kind_deletes_only_the_file() {
    let r = rollback(&plan("/dl/page.html"));
    assert_eq!(r.remove_ids, vec!["software/html/page.html".to_string()]);
    assert_eq!(r.delete_files, vec!["/corpus/software/html/page.html".to_string()]);
    assert_eq!(r.remove_dir, None);
}

#[test]
fn precheck_skips_present_resource_unless_forced() {
    let p = plan("/dl/Async Rust.epub");
    assert_eq!(
        precheck(&p, "software", false, Some(42)).as_deref(),
        Some("skip: software/ebook/async-rust.epub already present in software (42 points); re-run with --force to re-add")
    );
    assert_eq!(precheck(&p, "software", true, Some(42)), None);
    assert_eq!(precheck(&p, "software", false, None), None);
}

#[test]
fn present_count_takes_first_positive_and_fails_open() {
    assert_eq!(present_count(&[Some(0), Some(7), Some(9)]), Some(7));
    assert_eq!(present_count(&[Some(0), Some(0)]), None);
    assert_eq!(present_count(&[Some(0), None, Some(5)]), None);
    assert_eq!(present_count(&[]), None);
}

#[test]
fn guard_paths_sit_under_config_root() {
    let (g, h) = guard_paths("/cfg", "software");
    assert_eq!(g, "/cfg/golden_software.json");
    assert_eq!(h, "/cfg/health_software.jsonl");
}

#[test]
fn guard_fails_open_and_rolls_back_only_unforced_regressions() {
    assert_eq!(guard(false, false, false, false), GuardOutcome::NoGolden);
    assert_eq!(guard(true, false, true, false), GuardOutcome::MeasureFailed);
    assert_eq!(guard(true, true, true, false), GuardOutcome::RolledBack);
    assert_eq!(guard(true, true, true, true), GuardOutcome::KeptForced);
    assert_eq!(guard(true, true, false, false), GuardOutcome::Passed);
    assert_eq!(guard(true, true, false, true), GuardOutcome::Passed);
}

#[test]
fn rollback_error_and_committed_lines() {
    let p = plan("/dl/Async Rust.epub");
    assert_eq!(
        rolled_back_error(&p, "mrr regressed"),
        "retrieval regressed after adding software/ebook/async-rust.epub: mrr regressed; rolled back (points + files removed). Re-run with --force to keep it anyway."
    );
    assert_eq!(committed_line(&p), "committed software/ebook/async-rust.epub");
}

#[test]
fn rollback_deletes_what_placement_wrote() {
    for src in ["/dl/a.pdf", "/dl/b.md", "/dl/c.epub", "/dl/d.htm", "/dl/e.rs"] {
        let p = plan(src);
        let pl = placement(&p);
        let rb = rollback(&p);
        let mut written = vec![pl.place_at.clone()];
        written.extend(pl.markdown_at.clone());
        assert_eq!(rb.delete_files, written, "{src}");
        assert_eq!(rb.config, pl.ingest_config, "{src}");
    }
}

#[test]
fn add_starts_with_undo_then_requires_a_path() {
    assert!(matches!(add_start(Some("s/ebook/x.epub"), Some("/dl/a.pdf")), Ok(AddStart::Undo(u)) if u == "s/ebook/x.epub"));
    assert!(matches!(add_start(None, Some("/dl/a.pdf")), Ok(AddStart::Source(p)) if p == "/dl/a.pdf"));
    assert_eq!(add_start(None, None).unwrap_err(), "a file path is required (omit only with --undo)");
}

#[test]
fn after_preview_refuses_garbled_unless_forced() {
    assert_eq!(after_preview(false, false, true), AfterPreview::Refuse);
    assert_eq!(after_preview(false, true, true), AfterPreview::Commit);
    assert_eq!(after_preview(true, false, true), AfterPreview::Commit);
    assert_eq!(after_preview(true, false, false), AfterPreview::Stop);
    assert_eq!(preview_verdict_line(true, true), "gate 1 (garble) PASSED -- committing");
    assert_eq!(
        preview_verdict_line(true, false),
        "PREVIEW: gate 1 (garble) PASSED -- nothing was written (preview only)"
    );
    assert_eq!(preview_verdict_line(false, true), "PREVIEW: gate 1 (garble) FAILED -- looks garbled");
}
