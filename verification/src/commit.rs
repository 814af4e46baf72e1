//! `librarian add --commit`: what a commit writes, what its rollback removes,
//! and the decisions around it (the idempotency pre-check and the
//! retrieval-health guard that runs after the ingest).

use vstd::prelude::*;
use crate::config::{decimal, decimal_chars};
use crate::path::{join, join_spec};
use crate::plan::{
    expected_ids_spec, expected_source_ids, in_place, ingest_config_path, ingest_config_spec,
    AddPlan, Kind, PlanView,
};
use crate::text::{append_range, owned, push_str};

verus! {

/// The durable markdown file of a directory kind: `<ingest_path>/<slug>.md`.
pub open spec fn markdown_file_spec(p: PlanView) -> Seq<char> {
    join_spec(p.ingest_path, p.slug + ".md"@)
}

/// What a commit does on disk before the health guard: copy (or move) the source
/// to `place_at`, write the extracted markdown to `markdown_at` when there is
/// one, then ingest `ingest_input` through `ingest_config`.
#[derive(Debug)]
pub struct Placement {
    pub place_at: String,
    pub markdown_at: Option<String>,
    pub ingest_config: String,
    pub ingest_input: String,
}

pub struct PlacementView {
    pub place_at: Seq<char>,
    pub markdown_at: Option<Seq<char>>,
    pub ingest_config: Seq<char>,
    pub ingest_input: Seq<char>,
}

impl View for Placement {
    type V = PlacementView;

    open spec fn view(&self) -> PlacementView {
        PlacementView {
            place_at: self.place_at@,
            markdown_at: match self.markdown_at {
                Some(m) => Some(m@),
                None => None,
            },
            ingest_config: self.ingest_config@,
            ingest_input: self.ingest_input@,
        }
    }
}

/// A PDF is archived at its raw path and its extraction written as the durable
/// markdown; a markdown source is placed as that markdown file; every other kind
/// is placed at its ingest path. The ingest always reads the ingest path.
pub open spec fn placement_spec(p: PlanView) -> PlacementView {
    PlacementView {
        place_at: match p.kind {
            Kind::Pdf => p.raw_path,
            Kind::Markdown => markdown_file_spec(p),
            _ => p.ingest_path,
        },
        markdown_at: if p.kind == Kind::Pdf {
            Some(markdown_file_spec(p))
        } else {
            None
        },
        ingest_config: ingest_config_spec(p),
        ingest_input: p.ingest_path,
    }
}

fn markdown_file(plan: &AddPlan) -> (r: String)
    ensures
        r@ == markdown_file_spec(plan@),
{
    let mut name = plan.slug.clone();
    push_str(&mut name, ".md");
    join(plan.ingest_path.as_str(), name.as_str())
}

/// Where the commit of `plan` places the resource and what it ingests.
pub fn placement(plan: &AddPlan) -> (r: Placement)
    ensures
        r@ == placement_spec(plan@),
{
    let place_at = match plan.kind {
        Kind::Pdf => plan.raw_path.clone(),
        Kind::Markdown => markdown_file(plan),
        _ => plan.ingest_path.clone(),
    };
    let markdown_at = match plan.kind {
        Kind::Pdf => Some(markdown_file(plan)),
        _ => None,
    };
    Placement {
        place_at,
        markdown_at,
        ingest_config: ingest_config_path(plan),
        ingest_input: plan.ingest_path.clone(),
    }
}

/// What a rollback undoes: remove the points of `remove_ids` through `config`,
/// delete `delete_files` (best-effort, in order), then try to remove the
/// `remove_dir` the add created (directory kinds only; never its parents).
#[derive(Debug)]
pub struct Rollback {
    pub config: String,
    pub remove_ids: Vec<String>,
    pub delete_files: Vec<String>,
    pub remove_dir: Option<String>,
}

/// The files a rollback deletes, in order.
pub open spec fn rollback_files_spec(p: PlanView) -> Seq<Seq<char>> {
    match p.kind {
        Kind::Pdf => seq![p.raw_path, markdown_file_spec(p)],
        Kind::Markdown => seq![markdown_file_spec(p)],
        _ => seq![p.ingest_path],
    }
}

/// The directory a rollback tries to remove.
pub open spec fn rollback_dir_spec(p: PlanView) -> Option<Seq<char>> {
    if in_place(p.kind) {
        None
    } else {
        Some(p.ingest_path)
    }
}

/// The rollback of a commit of `plan`: the same config and source ids the
/// ingest used, and the files and directory the placement created.
pub fn rollback(plan: &AddPlan) -> (r: Rollback)
    ensures
        r.config@ == ingest_config_spec(plan@),
        r.remove_ids@.len() == expected_ids_spec(plan@).len(),
        forall|i: int| 0 <= i < r.remove_ids@.len() ==> #[trigger] r.remove_ids@[i]@ == expected_ids_spec(plan@)[i],
        r.delete_files@.len() == rollback_files_spec(plan@).len(),
        forall|i: int| 0 <= i < r.delete_files@.len() ==> #[trigger] r.delete_files@[i]@ == rollback_files_spec(plan@)[i],
        match r.remove_dir {
            Some(d) => rollback_dir_spec(plan@) == Some(d@),
            None => rollback_dir_spec(plan@) is None,
        },
{
    let mut files: Vec<String> = Vec::new();
    let remove_dir = match plan.kind {
        Kind::Pdf => {
            files.push(plan.raw_path.clone());
            files.push(markdown_file(plan));
            Some(plan.ingest_path.clone())
        },
        Kind::Markdown => {
            files.push(markdown_file(plan));
            Some(plan.ingest_path.clone())
        },
        _ => {
            files.push(plan.ingest_path.clone());
            None
        },
    };
    Rollback {
        config: ingest_config_path(plan),
        remove_ids: expected_source_ids(plan),
        delete_files: files,
        remove_dir,
    }
}

/// A rollback removes exactly what the commit placed: it deletes the file the
/// source was placed at and the markdown written beside it (and nothing else),
/// removes points through the config the ingest ran with, and removes the
/// directory that was ingested only when the add created it.
pub proof fn lemma_rollback_undoes_placement(p: PlanView)
    ensures
        ({
            let pl = placement_spec(p);
            let files = rollback_files_spec(p);
            &&& files.contains(pl.place_at)
            &&& (pl.markdown_at matches Some(m) ==> files.contains(m))
            &&& forall|i: int| 0 <= i < files.len() ==> (#[trigger] files[i] == pl.place_at
                || pl.markdown_at == Some(files[i]))
            &&& ingest_config_spec(p) == pl.ingest_config
            &&& (rollback_dir_spec(p) matches Some(d) ==> d == pl.ingest_input)
        }),
{
    let pl = placement_spec(p);
    let files = rollback_files_spec(p);
    assert(files[0] == pl.place_at);
    if p.kind == Kind::Pdf {
        assert(files[1] == markdown_file_spec(p));
    }
}

// ---------------------------------------------------------------------------
// The idempotency pre-check

/// The line printed when the resource is already in the collection.
pub open spec fn skip_line_spec(prefix: Seq<char>, collection: Seq<char>, points: u64) -> Seq<char> {
    "skip: "@ + prefix + " already present in "@ + collection + " ("@ + decimal(points as nat)
        + " points); re-run with --force to re-add"@
}

/// The pre-check. `present` is the point count found under one of the add's
/// source ids, or `None` when none was found or the count could not be taken
/// (the check fails open). `Some(line)` means: print it and write nothing.
/// With `force` the add always proceeds.
pub fn precheck(plan: &AddPlan, collection: &str, force: bool, present: Option<u64>) -> (r: Option<String>)
    ensures
        match (force, present) {
            (false, Some(n)) => r is Some && r->0@ == skip_line_spec(
                plan.source_id_prefix@,
                collection@,
                n,
            ),
            _ => r is None,
        },
{
    if force {
        return None;
    }
    match present {
        None => None,
        Some(n) => {
            let mut m = owned("skip: ");
            push_str(&mut m, plan.source_id_prefix.as_str());
            push_str(&mut m, " already present in ");
            push_str(&mut m, collection);
            push_str(&mut m, " (");
            let d = decimal_chars(n);
            append_range(&mut m, &d, 0, d.len());
            assert(d@.subrange(0, d.len() as int) =~= d@);
            push_str(&mut m, " points); re-run with --force to re-add");
            Some(m)
        },
    }
}

/// The count the pre-check reports: the first positive count among the add's
/// source ids, in order. `counts[i]` is the count under id `i`, or `None` when
/// it could not be taken; an unavailable count ends the search with nothing
/// found (the check fails open).
pub open spec fn first_present(counts: Seq<Option<u64>>) -> Option<u64>
    decreases counts.len(),
{
    if counts.len() == 0 {
        None
    } else {
        match counts[0] {
            None => None,
            Some(n) => if n > 0 {
                Some(n)
            } else {
                first_present(counts.drop_first())
            },
        }
    }
}

pub fn present_count(counts: &[Option<u64>]) -> (r: Option<u64>)
    ensures
        r == first_present(counts@),
{
    let mut i: usize = 0;
    assert(counts@.subrange(0, counts@.len() as int) =~= counts@);
    while i < counts.len()
        invariant
            i <= counts@.len(),
            first_present(counts@) == first_present(counts@.subrange(i as int, counts@.len() as int)),
        decreases counts.len() - i,
    {
        let ghost rest = counts@.subrange(i as int, counts@.len() as int);
        assert(rest[0] == counts@[i as int]);
        match counts[i] {
            None => return None,
            Some(n) => {
                if n > 0 {
                    return Some(n);
                }
            },
        }
        assert(rest.drop_first() =~= counts@.subrange(i + 1, counts@.len() as int));
        i = i + 1;
    }
    assert(counts@.subrange(i as int, counts@.len() as int) =~= Seq::<Option<u64>>::empty());
    None
}

// ---------------------------------------------------------------------------
// The retrieval-health guard after the ingest

/// `golden_<collection>.json` and `health_<collection>.jsonl` under the config root.
pub open spec fn golden_path_spec(config_root: Seq<char>, collection: Seq<char>) -> Seq<char> {
    join_spec(config_root, "golden_"@ + collection + ".json"@)
}

pub open spec fn history_path_spec(config_root: Seq<char>, collection: Seq<char>) -> Seq<char> {
    join_spec(config_root, "health_"@ + collection + ".jsonl"@)
}

/// The golden probe set and the health history of a collection.
pub fn guard_paths(config_root: &str, collection: &str) -> (r: (String, String))
    ensures
        r.0@ == golden_path_spec(config_root@, collection@),
        r.1@ == history_path_spec(config_root@, collection@),
{
    let mut g = owned("golden_");
    push_str(&mut g, collection);
    push_str(&mut g, ".json");
    let mut h = owned("health_");
    push_str(&mut h, collection);
    push_str(&mut h, ".jsonl");
    (join(config_root, g.as_str()), join(config_root, h.as_str()))
}

/// How the guard ends.
#[derive(Debug, PartialEq, Eq, Structural, Clone, Copy)]
pub enum GuardOutcome {
    /// No golden probe set: warn, keep the commit.
    NoGolden,
    /// The health measurement failed: warn, keep the commit.
    MeasureFailed,
    /// A regression without `--force`: roll back and fail.
    RolledBack,
    /// A regression kept by `--force`: warn, record the run, keep the commit.
    KeptForced,
    /// No regression: record the run, keep the commit.
    Passed,
}

/// The guard fails open: without a golden set or a measurement the commit
/// stands. A regression rolls the add back unless `force`.
pub open spec fn guard_spec(golden_exists: bool, measured: bool, regressed: bool, force: bool) -> GuardOutcome {
    if !golden_exists {
        GuardOutcome::NoGolden
    } else if !measured {
        GuardOutcome::MeasureFailed
    } else if regressed && !force {
        GuardOutcome::RolledBack
    } else if regressed {
        GuardOutcome::KeptForced
    } else {
        GuardOutcome::Passed
    }
}

pub fn guard(golden_exists: bool, measured: bool, regressed: bool, force: bool) -> (r: GuardOutcome)
    ensures
        r == guard_spec(golden_exists, measured, regressed, force),
{
    if !golden_exists {
        GuardOutcome::NoGolden
    } else if !measured {
        GuardOutcome::MeasureFailed
    } else if regressed && !force {
        GuardOutcome::RolledBack
    } else if regressed {
        GuardOutcome::KeptForced
    } else {
        GuardOutcome::Passed
    }
}

/// Whether the run is appended to the health history.
pub open spec fn records_run(o: GuardOutcome) -> bool {
    o == GuardOutcome::KeptForced || o == GuardOutcome::Passed
}

/// The guard keeps the commit in every outcome but a rollback, and only
/// `--force` keeps a regression.
pub proof fn lemma_guard_rolls_back_only_unforced_regressions(
    golden_exists: bool,
    measured: bool,
    regressed: bool,
    force: bool,
)
    ensures
        (guard_spec(golden_exists, measured, regressed, force) == GuardOutcome::RolledBack) <==> (
        golden_exists && measured && regressed && !force),
        force ==> guard_spec(golden_exists, measured, regressed, force) != GuardOutcome::RolledBack,
        records_run(guard_spec(golden_exists, measured, regressed, force)) <==> (golden_exists
            && measured && (force || !regressed)),
{
}

/// The error after a rollback.
pub open spec fn rolled_back_msg(prefix: Seq<char>, reason: Seq<char>) -> Seq<char> {
    "retrieval regressed after adding "@ + prefix + ": "@ + reason
        + "; rolled back (points + files removed). Re-run with --force to keep it anyway."@
}

pub fn rolled_back_error(plan: &AddPlan, reason: &str) -> (r: String)
    ensures
        r@ == rolled_back_msg(plan.source_id_prefix@, reason@),
{
    let mut m = owned("retrieval regressed after adding ");
    push_str(&mut m, plan.source_id_prefix.as_str());
    push_str(&mut m, ": ");
    push_str(&mut m, reason);
    push_str(&mut m, "; rolled back (points + files removed). Re-run with --force to keep it anyway.");
    m
}

/// The line every kept commit ends with.
pub fn committed_line(plan: &AddPlan) -> (r: String)
    ensures
        r@ == "committed "@ + plan.source_id_prefix@,
{
    let mut m = owned("committed ");
    push_str(&mut m, plan.source_id_prefix.as_str());
    m
}

// ---------------------------------------------------------------------------
// The steps of `librarian add`

/// What `add` does first: an undo needs no source path; anything else does.
#[derive(Debug)]
pub enum AddStart {
    Undo(String),
    Source(String),
}

pub fn add_start(undo: Option<&str>, path: Option<&str>) -> (r: Result<AddStart, String>)
    ensures
        match undo {
            Some(u) => r matches Ok(AddStart::Undo(x)) && x@ == u@,
            None => match path {
                Some(p) => r matches Ok(AddStart::Source(x)) && x@ == p@,
                None => r matches Err(m) && m@ == "a file path is required (omit only with --undo)"@,
            },
        },
{
    match undo {
        Some(u) => Ok(AddStart::Undo(owned(u))),
        None => match path {
            Some(p) => Ok(AddStart::Source(owned(p))),
            None => Err(owned("a file path is required (omit only with --undo)")),
        },
    }
}

/// What `add` does after the preview.
#[derive(Debug, PartialEq, Eq, Structural, Clone, Copy)]
pub enum AfterPreview {
    /// The extraction looks garbled and `--force` is off: fail, nothing written.
    Refuse,
    /// Place and ingest the resource.
    Commit,
    /// Preview only: nothing is written.
    Stop,
}

pub fn after_preview(garble_ok: bool, force: bool, commit: bool) -> (r: AfterPreview)
    ensures
        r == if !garble_ok && !force {
            AfterPreview::Refuse
        } else if commit {
            AfterPreview::Commit
        } else {
            AfterPreview::Stop
        },
{
    if !garble_ok && !force {
        AfterPreview::Refuse
    } else if commit {
        AfterPreview::Commit
    } else {
        AfterPreview::Stop
    }
}

/// The preview's last line: whether the garble test passed, and whether the
/// add goes on to write.
pub fn preview_verdict_line(garble_ok: bool, committing: bool) -> (r: &'static str)
    ensures
        r@ == if garble_ok && committing {
            "gate 1 (garble) PASSED -- committing"@
        } else if garble_ok {
            "PREVIEW: gate 1 (garble) PASSED -- nothing was written (preview only)"@
        } else {
            "PREVIEW: gate 1 (garble) FAILED -- looks garbled"@
        },
{
    if garble_ok && committing {
        "gate 1 (garble) PASSED -- committing"
    } else if garble_ok {
        "PREVIEW: gate 1 (garble) PASSED -- nothing was written (preview only)"
    } else {
        "PREVIEW: gate 1 (garble) FAILED -- looks garbled"
    }
}

} // verus!
