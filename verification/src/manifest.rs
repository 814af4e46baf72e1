//! The manifest's record of every document x stage x outcome: its status
//! values, their stored names, and the row shape.

use vstd::prelude::*;
use crate::text::{chars_of, eq_lit, owned};

verus! {

/// A document's canonical id: its path relative to the corpus root.
#[derive(Debug, Clone, PartialEq, Eq)]
pub struct SourceId(pub String);

/// Content address of a cached stage output.
#[derive(Debug, Clone, PartialEq, Eq)]
pub struct CacheKey(pub String);

/// The outcome recorded for one `(source_id, stage)`.
#[derive(Debug, Clone, Copy, PartialEq, Eq, Structural)]
pub enum ManifestStatus {
    Pending,
    Success,
    Cached,
    Failed,
    RecoveredViaFallback,
    Skipped,
    Flagged,
    Removed,
}

/// One manifest row.
#[derive(Debug, Clone)]
pub struct Row {
    pub source_id: SourceId,
    pub stage: String,
    pub status: ManifestStatus,
    pub attempts: u32,
    pub error: Option<String>,
    pub output_ref: Option<CacheKey>,
}

/// The in-memory manifest's only error: its lock was poisoned.
#[derive(Debug)]
pub struct MemManifestError;

impl MemManifestError {
    /// The human message.
    pub fn message(&self) -> (r: String)
        ensures
            r@ == "mem-manifest poisoned"@,
    {
        owned("mem-manifest poisoned")
    }
}

/// The stored name of a status.
pub open spec fn status_name(s: ManifestStatus) -> Seq<char> {
    match s {
        ManifestStatus::Pending => "Pending"@,
        ManifestStatus::Success => "Success"@,
        ManifestStatus::Cached => "Cached"@,
        ManifestStatus::Failed => "Failed"@,
        ManifestStatus::RecoveredViaFallback => "RecoveredViaFallback"@,
        ManifestStatus::Skipped => "Skipped"@,
        ManifestStatus::Flagged => "Flagged"@,
        ManifestStatus::Removed => "Removed"@,
    }
}

/// The status a stored name denotes, if any.
pub open spec fn status_named(s: Seq<char>) -> Option<ManifestStatus> {
    if s == "Pending"@ {
        Some(ManifestStatus::Pending)
    } else if s == "Success"@ {
        Some(ManifestStatus::Success)
    } else if s == "Cached"@ {
        Some(ManifestStatus::Cached)
    } else if s == "Failed"@ {
        Some(ManifestStatus::Failed)
    } else if s == "RecoveredViaFallback"@ {
        Some(ManifestStatus::RecoveredViaFallback)
    } else if s == "Skipped"@ {
        Some(ManifestStatus::Skipped)
    } else if s == "Flagged"@ {
        Some(ManifestStatus::Flagged)
    } else if s == "Removed"@ {
        Some(ManifestStatus::Removed)
    } else {
        None
    }
}

/// The name a status is stored under.
pub fn status_str(s: ManifestStatus) -> (r: &'static str)
    ensures
        r@ == status_name(s),
{
    match s {
        ManifestStatus::Pending => "Pending",
        ManifestStatus::Success => "Success",
        ManifestStatus::Cached => "Cached",
        ManifestStatus::Failed => "Failed",
        ManifestStatus::RecoveredViaFallback => "RecoveredViaFallback",
        ManifestStatus::Skipped => "Skipped",
        ManifestStatus::Flagged => "Flagged",
        ManifestStatus::Removed => "Removed",
    }
}

/// The status a stored name denotes; `None` for any other text.
pub fn parse_status(s: &str) -> (r: Option<ManifestStatus>)
    ensures
        r == status_named(s@),
{
    let v = chars_of(s);
    if eq_lit(&v, "Pending") {
        Some(ManifestStatus::Pending)
    } else if eq_lit(&v, "Success") {
        Some(ManifestStatus::Success)
    } else if eq_lit(&v, "Cached") {
        Some(ManifestStatus::Cached)
    } else if eq_lit(&v, "Failed") {
        Some(ManifestStatus::Failed)
    } else if eq_lit(&v, "RecoveredViaFallback") {
        Some(ManifestStatus::RecoveredViaFallback)
    } else if eq_lit(&v, "Skipped") {
        Some(ManifestStatus::Skipped)
    } else if eq_lit(&v, "Flagged") {
        Some(ManifestStatus::Flagged)
    } else if eq_lit(&v, "Removed") {
        Some(ManifestStatus::Removed)
    } else {
        None
    }
}

/// A stored status reads back as itself: parsing the name a status is stored
/// under gives that status, for every status.
pub proof fn lemma_status_round_trip(s: ManifestStatus)
    ensures
        status_named(status_name(s)) == Some(s),
{
    reveal_strlit("Pending");
    reveal_strlit("Success");
    reveal_strlit("Cached");
    reveal_strlit("Failed");
    reveal_strlit("RecoveredViaFallback");
    reveal_strlit("Skipped");
    reveal_strlit("Flagged");
    reveal_strlit("Removed");
    assert("Success"@[1] != "Pending"@[1]);
    assert("Success"@[1] != "Skipped"@[1]);
    assert("Cached"@.len() != "Pending"@.len());
    assert("Failed"@[0] != "Pending"@[0]);
    assert("Flagged"@[1] != "Failed"@[1]);
    assert("Removed"@[2] != "RecoveredViaFallback"@[2]);
    assert("Removed"@.len() != "RecoveredViaFallback"@.len());
    assert("Skipped"@[1] != "Success"@[1]);
}

/// Distinct statuses are stored under distinct names.
pub proof fn lemma_status_names_distinct(a: ManifestStatus, b: ManifestStatus)
    ensures
        status_name(a) == status_name(b) ==> a == b,
{
    lemma_status_round_trip(a);
    lemma_status_round_trip(b);
}

} // verus!
