//! The read-only quality audit of an ingested collection: the name a source's
//! section role is decided from, the finding for each document, and the tally.

use vstd::prelude::*;
use crate::path::{file_stem_chars, file_stem_spec};
use crate::text::{chars_of, owned, string_of};

verus! {

/// The name a source's section role is decided from: its file stem, or the
/// whole source id when it has none.
pub open spec fn section_name_spec(source_id: Seq<char>) -> Seq<char> {
    match file_stem_spec(source_id) {
        Some(s) => s,
        None => source_id,
    }
}

pub fn section_name(source_id: &str) -> (r: String)
    ensures
        r@ == section_name_spec(source_id@),
{
    match file_stem_chars(&chars_of(source_id)) {
        Some(s) => string_of(&s),
        None => owned(source_id),
    }
}

/// What the audit concludes about one document.
#[derive(Debug)]
pub enum Finding {
    /// A low-value section (a remove candidate), with the classifier's reason.
    LowValue(String),
    /// The extraction is garble-flagged (review it).
    Flagged,
    Clean,
    /// No cached extraction could be read.
    Unreadable,
}

/// The finding for a document. `skip_reason` is the section classifier's
/// reason when it says skip; `garbled` is the garble flag of the cached
/// extraction, `None` when there is none to read. A low-value section is
/// reported as such whatever its text.
pub fn finding(skip_reason: Option<String>, garbled: Option<bool>) -> (r: Finding)
    ensures
        match skip_reason {
            Some(m) => r matches Finding::LowValue(x) && x@ == m@,
            None => match garbled {
                None => r is Unreadable,
                Some(true) => r is Flagged,
                Some(false) => r is Clean,
            },
        },
{
    match skip_reason {
        Some(m) => Finding::LowValue(m),
        None => match garbled {
            None => Finding::Unreadable,
            Some(true) => Finding::Flagged,
            Some(false) => Finding::Clean,
        },
    }
}

/// The bucket of a finding: 0 low-value, 1 flagged, 2 clean, 3 unreadable.
pub open spec fn bucket(f: Finding) -> int {
    match f {
        Finding::LowValue(_) => 0,
        Finding::Flagged => 1,
        Finding::Clean => 2,
        Finding::Unreadable => 3,
    }
}

/// How many of the documents' findings fall in bucket `b`.
pub open spec fn count_in(d: Seq<(String, Finding)>, b: int) -> nat
    decreases d.len(),
{
    if d.len() == 0 {
        0
    } else {
        count_in(d.drop_last(), b) + if bucket(d.last().1) == b {
            1nat
        } else {
            0nat
        }
    }
}

/// The low-value sections, in input order: each source id with its reason.
pub open spec fn low_value_of(d: Seq<(String, Finding)>) -> Seq<(Seq<char>, Seq<char>)>
    decreases d.len(),
{
    if d.len() == 0 {
        Seq::empty()
    } else {
        let rest = low_value_of(d.drop_last());
        match d.last().1 {
            Finding::LowValue(r) => rest.push((d.last().0@, r@)),
            _ => rest,
        }
    }
}

/// The garble-flagged source ids, in input order.
pub open spec fn flagged_of(d: Seq<(String, Finding)>) -> Seq<Seq<char>>
    decreases d.len(),
{
    if d.len() == 0 {
        Seq::empty()
    } else {
        let rest = flagged_of(d.drop_last());
        match d.last().1 {
            Finding::Flagged => rest.push(d.last().0@),
            _ => rest,
        }
    }
}

/// The audit report: the low-value sections (remove candidates) with their
/// reasons and the garble-flagged ids (review them), both in input order, and
/// the counts.
#[derive(Debug)]
pub struct AuditReport {
    pub total: usize,
    pub low_value: Vec<(String, String)>,
    pub flagged: Vec<String>,
    pub clean: usize,
    pub unreadable: usize,
}

proof fn lemma_count_in_bound(d: Seq<(String, Finding)>, b: int)
    ensures
        count_in(d, b) <= d.len(),
    decreases d.len(),
{
    if d.len() > 0 {
        lemma_count_in_bound(d.drop_last(), b);
    }
}

/// Bucket each document `(source_id, finding)` into the report.
pub fn audit_report(docs: &[(String, Finding)]) -> (r: AuditReport)
    ensures
        r.total == docs@.len(),
        r.low_value@.map_values(|p: (String, String)| (p.0@, p.1@)) == low_value_of(docs@),
        r.flagged@.map_values(|s: String| s@) == flagged_of(docs@),
        r.clean == count_in(docs@, 2),
        r.unreadable == count_in(docs@, 3),
{
    let mut low: Vec<(String, String)> = Vec::new();
    let mut flagged: Vec<String> = Vec::new();
    let mut clean: usize = 0;
    let mut unreadable: usize = 0;
    let mut i: usize = 0;
    while i < docs.len()
        invariant
            i <= docs@.len(),
            low@.map_values(|p: (String, String)| (p.0@, p.1@)) == low_value_of(docs@.take(i as int)),
            flagged@.map_values(|s: String| s@) == flagged_of(docs@.take(i as int)),
            clean == count_in(docs@.take(i as int), 2),
            unreadable == count_in(docs@.take(i as int), 3),
        decreases docs.len() - i,
    {
        let ghost pre = docs@.take(i as int);
        let ghost low0 = low@;
        let ghost fl0 = flagged@;
        assert(docs@.take(i + 1).drop_last() =~= pre);
        assert(docs@.take(i + 1).last() == docs@[i as int]);
        proof {
            lemma_count_in_bound(pre, 2);
            lemma_count_in_bound(pre, 3);
        }
        let (sid, f) = &docs[i];
        match f {
            Finding::LowValue(reason) => {
                let entry = (sid.clone(), reason.clone());
                low.push(entry);
                assert(low@ == low0.push(entry));
                assert(low@.map_values(|p: (String, String)| (p.0@, p.1@)) =~= low0.map_values(
                    |p: (String, String)| (p.0@, p.1@),
                ).push((sid@, reason@)));
            },
            Finding::Flagged => {
                flagged.push(sid.clone());
                assert(flagged@.map_values(|s: String| s@) =~= fl0.map_values(|s: String| s@).push(
                    sid@,
                ));
            },
            Finding::Clean => clean = clean + 1,
            Finding::Unreadable => unreadable = unreadable + 1,
        }
        i = i + 1;
    }
    assert(docs@.take(docs.len() as int) =~= docs@);
    AuditReport { total: docs.len(), low_value: low, flagged, clean, unreadable }
}

/// Every document lands in exactly one part of the report: the low-value and
/// flagged lists and the clean and unreadable counts add up to the total.
pub proof fn lemma_report_partitions(d: Seq<(String, Finding)>)
    ensures
        low_value_of(d).len() + flagged_of(d).len() + count_in(d, 2) + count_in(d, 3) == d.len(),
    decreases d.len(),
{
    if d.len() > 0 {
        lemma_report_partitions(d.drop_last());
    }
}

} // verus!
