//! The decisions `librarian ingest` makes from its config before any adapter
//! runs: which extractor and which chunker, and how a batch is summarised.

use vstd::prelude::*;
use crate::config::{decimal, decimal_chars, IngestConfig};
use crate::docs::Outcome;
use crate::text::{append_range, chars_of, eq_lit, owned, push_str};

verus! {

/// The extractor an `[ingest] extractor` value selects.
#[derive(Debug, Clone, Copy, PartialEq, Eq, Structural)]
pub enum ExtractorKind {
    Text,
    Pdf,
    Ebook,
    Html,
    Code,
}

/// The chunker for text content: the legacy blank-line chunker, or the
/// recursive chunker with its size and overlap budget.
#[derive(Debug, Clone, Copy, PartialEq, Eq, Structural)]
pub enum SelectedChunker {
    BlankLine,
    Recursive { chunk_size: usize, chunk_overlap: usize },
}

pub open spec fn extractor_named(s: Seq<char>) -> Option<ExtractorKind> {
    if s == "text"@ {
        Some(ExtractorKind::Text)
    } else if s == "pdf"@ {
        Some(ExtractorKind::Pdf)
    } else if s == "ebook"@ {
        Some(ExtractorKind::Ebook)
    } else if s == "html"@ {
        Some(ExtractorKind::Html)
    } else if s == "code"@ {
        Some(ExtractorKind::Code)
    } else {
        None
    }
}

/// The extractor an ingest runs with; any other name is unsupported.
pub fn extractor_kind(extractor: &str) -> (r: Result<ExtractorKind, String>)
    ensures
        match r {
            Ok(k) => extractor_named(extractor@) == Some(k),
            Err(m) => extractor_named(extractor@) is None && m@ == "unsupported extractor: "@
                + extractor@,
        },
{
    let v = chars_of(extractor);
    if eq_lit(&v, "text") {
        Ok(ExtractorKind::Text)
    } else if eq_lit(&v, "pdf") {
        Ok(ExtractorKind::Pdf)
    } else if eq_lit(&v, "ebook") {
        Ok(ExtractorKind::Ebook)
    } else if eq_lit(&v, "html") {
        Ok(ExtractorKind::Html)
    } else if eq_lit(&v, "code") {
        Ok(ExtractorKind::Code)
    } else {
        let mut m = owned("unsupported extractor: ");
        push_str(&mut m, extractor);
        Err(m)
    }
}

/// Code content always uses the code chunker; every other extractor uses the
/// selected text chunker.
pub open spec fn uses_code_chunker(k: ExtractorKind) -> bool {
    k == ExtractorKind::Code
}

pub fn uses_code_chunker_exec(k: ExtractorKind) -> (r: bool)
    ensures
        r == uses_code_chunker(k),
{
    match k {
        ExtractorKind::Code => true,
        _ => false,
    }
}

pub open spec fn unknown_chunker_msg(name: Seq<char>) -> Seq<char> {
    "unknown chunker '"@ + name + "' (expected 'recursive' or 'blankline')"@
}

/// Runtime chunker selection from `[ingest] chunker`: "blankline", or
/// "recursive" with `chunk_size` / `chunk_overlap`; anything else is an error.
pub fn select_chunker(cfg: &IngestConfig) -> (r: Result<SelectedChunker, String>)
    ensures
        match r {
            Ok(SelectedChunker::BlankLine) => cfg.chunker@ == "blankline"@,
            Ok(SelectedChunker::Recursive { chunk_size, chunk_overlap }) => cfg.chunker@ != "blankline"@
                && cfg.chunker@ == "recursive"@ && chunk_size == cfg.chunk_size && chunk_overlap
                == cfg.chunk_overlap,
            Err(m) => cfg.chunker@ != "blankline"@ && cfg.chunker@ != "recursive"@ && m@
                == unknown_chunker_msg(cfg.chunker@),
        },
{
    let v = chars_of(cfg.chunker.as_str());
    if eq_lit(&v, "blankline") {
        Ok(SelectedChunker::BlankLine)
    } else if eq_lit(&v, "recursive") {
        Ok(SelectedChunker::Recursive { chunk_size: cfg.chunk_size, chunk_overlap: cfg.chunk_overlap })
    } else {
        let mut m = owned("unknown chunker '");
        push_str(&mut m, cfg.chunker.as_str());
        push_str(&mut m, "' (expected 'recursive' or 'blankline')");
        Err(m)
    }
}

/// How many outcomes failed.
pub open spec fn failures(o: Seq<Outcome>) -> nat
    decreases o.len(),
{
    if o.len() == 0 {
        0
    } else {
        failures(o.drop_last()) + if o.last() is Failed {
            1nat
        } else {
            0nat
        }
    }
}

proof fn lemma_failures_bound(o: Seq<Outcome>)
    ensures
        failures(o) <= o.len(),
    decreases o.len(),
{
    if o.len() > 0 {
        lemma_failures_bound(o.drop_last());
    }
}

/// The error an ingest batch ends with: `Some("<n> document(s) failed")` when
/// any document failed, else `None`.
pub fn failure_summary(outcomes: &[Outcome]) -> (r: Option<String>)
    ensures
        match r {
            None => failures(outcomes@) == 0,
            Some(m) => failures(outcomes@) > 0 && m@ == decimal(failures(outcomes@))
                + " document(s) failed"@,
        },
{
    let mut n: usize = 0;
    let mut i: usize = 0;
    while i < outcomes.len()
        invariant
            i <= outcomes@.len(),
            n == failures(outcomes@.take(i as int)),
        decreases outcomes.len() - i,
    {
        assert(outcomes@.take(i + 1).drop_last() =~= outcomes@.take(i as int));
        proof {
            lemma_failures_bound(outcomes@.take(i as int));
        }
        if outcomes[i].is_failed() {
            n = n + 1;
        }
        i = i + 1;
    }
    assert(outcomes@.take(outcomes.len() as int) =~= outcomes@);
    if n == 0 {
        None
    } else {
        let d = decimal_chars(n as u64);
        let mut m = String::new();
        append_range(&mut m, &d, 0, d.len());
        assert(d@.subrange(0, d.len() as int) =~= d@);
        push_str(&mut m, " document(s) failed");
        Some(m)
    }
}

/// The chunker `[ingest] chunker` names, if any.
pub open spec fn chunker_for(cfg: IngestConfig) -> Option<SelectedChunker> {
    if cfg.chunker@ == "blankline"@ {
        Some(SelectedChunker::BlankLine)
    } else if cfg.chunker@ == "recursive"@ {
        Some(SelectedChunker::Recursive { chunk_size: cfg.chunk_size, chunk_overlap: cfg.chunk_overlap })
    } else {
        None
    }
}

/// How an ingest proceeds once its input was walked (the content type is
/// checked before the walk).
#[derive(Debug)]
pub enum IngestStart {
    /// Nothing to ingest: print this line and succeed.
    NoInput(String),
    /// Run the pipeline with this extractor and text chunker.
    Run { extractor: ExtractorKind, chunker: SelectedChunker },
}

/// The order of `librarian ingest`'s checks after the walk: an empty input
/// succeeds with a note before anything else is looked at; then the chunker
/// is selected (even for code, which then uses its own chunker); then the
/// extractor.
pub fn ingest_start(cfg: &IngestConfig, input: &str, docs_found: usize) -> (r: Result<IngestStart, String>)
    ensures
        match r {
            Ok(IngestStart::NoInput(m)) => docs_found == 0 && m@ == "no input files found at "@ + input@,
            Ok(IngestStart::Run { extractor, chunker }) => docs_found > 0 && chunker_for(*cfg) == Some(
                chunker,
            ) && extractor_named(cfg.extractor@) == Some(extractor),
            Err(m) => docs_found > 0 && match chunker_for(*cfg) {
                None => m@ == unknown_chunker_msg(cfg.chunker@),
                Some(_) => extractor_named(cfg.extractor@) is None && m@ == "unsupported extractor: "@
                    + cfg.extractor@,
            },
        },
{
    if docs_found == 0 {
        let mut m = owned("no input files found at ");
        push_str(&mut m, input);
        return Ok(IngestStart::NoInput(m));
    }
    let chunker = match select_chunker(cfg) {
        Ok(c) => c,
        Err(m) => return Err(m),
    };
    match extractor_kind(cfg.extractor.as_str()) {
        Ok(extractor) => Ok(IngestStart::Run { extractor, chunker }),
        Err(m) => Err(m),
    }
}

/// Only failed outcomes count: none at first, one more for a failed outcome,
/// none more for a skipped or successful one. So an ingest fails exactly when
/// some document failed, with the number of failed documents.
pub proof fn lemma_failures_count_failed_only(o: Seq<Outcome>, x: Outcome)
    ensures
        failures(Seq::<Outcome>::empty()) == 0,
        failures(o.push(x)) == failures(o) + if x is Failed {
            1nat
        } else {
            0nat
        },
        (forall|i: int| 0 <= i < o.len() ==> !(#[trigger] o[i] is Failed)) ==> failures(o) == 0,
        (exists|i: int| 0 <= i < o.len() && #[trigger] o[i] is Failed) ==> failures(o) > 0,
        failures(o) <= o.len(),
    decreases o.len(),
{
    assert(o.push(x).drop_last() =~= o);
    lemma_failures_bound(o);
    if o.len() > 0 {
        let p = o.drop_last();
        lemma_failures_count_failed_only(p, o.last());
        assert forall|i: int| 0 <= i < p.len() implies p[i] == o[i] by {}
        if exists|i: int| 0 <= i < o.len() && #[trigger] o[i] is Failed {
            let i = choose|i: int| 0 <= i < o.len() && #[trigger] o[i] is Failed;
            if i < p.len() {
                assert(p[i] is Failed);
            }
        }
    }
}

} // verus!
