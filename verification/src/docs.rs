//! Source discovery: content types, which files an extractor takes, the
//! canonical `source_id` of a file (its path relative to the corpus root), and
//! the `Document` record with its content hash.

use vstd::prelude::*;
use sha2::Digest;
use crate::config::{decimal, decimal_chars};
use crate::manifest::SourceId;
use crate::path::{extension_chars, extension_spec, lemma_tail_len, prefix_len, tail_len};
use crate::text::{
    append_range, ascii_lower, chars_of, eq_lit, lower_chars, owned, push_str, slice_chars,
    string_of,
};

verus! {

/// The kind of source material.
#[derive(Debug, Clone, Copy, PartialEq, Eq, Structural)]
pub enum ContentType {
    Book,
    Paper,
    Code,
}

/// Hex SHA-256 of a document's bytes.
#[derive(Debug, Clone, PartialEq, Eq)]
pub struct SourceHash(pub String);

/// One input document.
#[derive(Debug)]
pub struct Document {
    pub source_id: SourceId,
    pub source_hash: SourceHash,
    pub content_type: ContentType,
    pub path: String,
    pub work_id: Option<String>,
}

/// The content type an `[ingest] content_type` string names.
pub open spec fn content_type_named(s: Seq<char>) -> Option<ContentType> {
    if s == "book"@ {
        Some(ContentType::Book)
    } else if s == "paper"@ {
        Some(ContentType::Paper)
    } else if s == "code"@ {
        Some(ContentType::Code)
    } else {
        None
    }
}

/// Map the `[ingest] content_type` string to its content type.
pub fn parse_content_type(content_type: &str) -> (r: Result<ContentType, String>)
    ensures
        match r {
            Ok(c) => content_type_named(content_type@) == Some(c),
            Err(m) => content_type_named(content_type@) is None && m@ == "unknown content_type: "@
                + content_type@,
        },
{
    let v = chars_of(content_type);
    if eq_lit(&v, "book") {
        Ok(ContentType::Book)
    } else if eq_lit(&v, "paper") {
        Ok(ContentType::Paper)
    } else if eq_lit(&v, "code") {
        Ok(ContentType::Code)
    } else {
        let mut m = owned("unknown content_type: ");
        push_str(&mut m, content_type);
        Err(m)
    }
}

// ---------------------------------------------------------------------------
// Extension filters

/// The lower-cased extension of a path, if it has one.
pub open spec fn lower_ext(p: Seq<char>) -> Option<Seq<char>> {
    match extension_spec(p) {
        Some(e) => Some(ascii_lower(e)),
        None => None,
    }
}

pub open spec fn is_ebook_ext(e: Seq<char>) -> bool {
    e == "epub"@ || e == "mobi"@ || e == "azw3"@ || e == "azw"@
}

pub open spec fn is_html_ext(e: Seq<char>) -> bool {
    e == "html"@ || e == "htm"@
}

fn lower_ext_chars(p: &str) -> (r: Option<Vec<char>>)
    ensures
        match r {
            Some(e) => lower_ext(p@) == Some(e@),
            None => lower_ext(p@) is None,
        },
{
    match extension_chars(&chars_of(p)) {
        Some(e) => Some(lower_chars(&e)),
        None => None,
    }
}

/// Whether the path has an ebook extension (epub, mobi, azw3, azw; any case).
pub fn has_ebook_ext(path: &str) -> (r: bool)
    ensures
        r == match lower_ext(path@) {
            Some(e) => is_ebook_ext(e),
            None => false,
        },
{
    match lower_ext_chars(path) {
        Some(e) => eq_lit(&e, "epub") || eq_lit(&e, "mobi") || eq_lit(&e, "azw3") || eq_lit(&e, "azw"),
        None => false,
    }
}

/// Whether the path has an html extension (html, htm; any case).
pub fn has_html_ext(path: &str) -> (r: bool)
    ensures
        r == match lower_ext(path@) {
            Some(e) => is_html_ext(e),
            None => false,
        },
{
    match lower_ext_chars(path) {
        Some(e) => eq_lit(&e, "html") || eq_lit(&e, "htm"),
        None => false,
    }
}

// ---------------------------------------------------------------------------
// Component-wise prefix stripping

/// From `i`, skip separators and `.` segments (they are not components).
pub open spec fn skip_junk(p: Seq<char>, i: nat) -> nat
    decreases p.len() - i,
{
    if i >= p.len() {
        i
    } else if p[i as int] == '/' {
        skip_junk(p, i + 1)
    } else if p[i as int] == '.' && (i + 1 == p.len() || p[(i + 1) as int] == '/') {
        skip_junk(p, i + 1)
    } else {
        i
    }
}

/// End of the segment starting at `i`: the next `/` or the end of `p`.
pub open spec fn seg_end(p: Seq<char>, i: nat) -> nat
    decreases p.len() - i,
{
    if i >= p.len() {
        i
    } else if p[i as int] == '/' {
        i
    } else {
        seg_end(p, i + 1)
    }
}

pub proof fn lemma_skip_junk(p: Seq<char>, i: nat)
    ensures
        i <= skip_junk(p, i),
        i <= p.len() ==> skip_junk(p, i) <= p.len(),
        skip_junk(p, i) < p.len() ==> p[skip_junk(p, i) as int] != '/',
    decreases p.len() - i,
{
    if i < p.len() && (p[i as int] == '/' || (p[i as int] == '.' && (i + 1 == p.len() || p[(i + 1) as int] == '/'))) {
        lemma_skip_junk(p, i + 1);
    }
}

pub proof fn lemma_seg_end(p: Seq<char>, i: nat)
    ensures
        i <= seg_end(p, i),
        i <= p.len() ==> seg_end(p, i) <= p.len(),
        i < p.len() && p[i as int] != '/' ==> seg_end(p, i) > i,
        seg_end(p, i) < p.len() ==> p[seg_end(p, i) as int] == '/',
    decreases p.len() - i,
{
    if i < p.len() && p[i as int] != '/' {
        lemma_seg_end(p, i + 1);
    }
}

/// The text of `p` left after its components up to `i`: leading separators and
/// `.` segments dropped, and trailing ones too.
pub open spec fn rest_after(p: Seq<char>, i: nat) -> Seq<char> {
    let s = skip_junk(p, i);
    p.subrange(s as int, tail_len(p, s) as int)
}

/// Match the body components of `b` from `j` against those of `p` from `i`;
/// when every component of `b` matches, what is left of `p`.
pub open spec fn strip_walk(p: Seq<char>, i: nat, b: Seq<char>, j: nat) -> Option<Seq<char>>
    decreases b.len() - j,
{
    let j2 = skip_junk(b, j);
    if j2 >= b.len() {
        Some(rest_after(p, i))
    } else {
        let i2 = skip_junk(p, i);
        if i2 >= p.len() {
            None
        } else {
            let be = seg_end(b, j2);
            let pe = seg_end(p, i2);
            if p.subrange(i2 as int, pe as int) != b.subrange(j2 as int, be as int) {
                None
            } else {
                proof {
                    lemma_skip_junk(b, j);
                    lemma_seg_end(b, j2);
                }
                strip_walk(p, pe, b, be)
            }
        }
    }
}

/// `Path::strip_prefix` on Unix: `base`'s components (root, a leading `.`,
/// then the segments, with separators and `.` segments normalised away) must be
/// the first components of `p`; the result is what is left of `p`'s text.
pub open spec fn strip_prefix_spec(p: Seq<char>, base: Seq<char>) -> Option<Seq<char>> {
    let pp = prefix_len(p);
    let bp = prefix_len(base);
    if bp > 0 {
        if pp == 0 || p[0] != base[0] {
            None
        } else {
            strip_walk(p, pp, base, bp)
        }
    } else if base.len() == 0 {
        Some(p.subrange(0, tail_len(p, pp) as int))
    } else if pp > 0 {
        None
    } else {
        strip_walk(p, 0, base, 0)
    }
}

fn skip_junk_exec(p: &Vec<char>, i: usize) -> (r: usize)
    requires
        i <= p.len(),
    ensures
        r == skip_junk(p@, i as nat),
        r <= p.len(),
{
    let mut k = i;
    while k < p.len() && (p[k] == '/' || (p[k] == '.' && (k + 1 == p.len() || p[k + 1] == '/')))
        invariant
            i <= k <= p.len(),
            skip_junk(p@, i as nat) == skip_junk(p@, k as nat),
        decreases p.len() - k,
    {
        k = k + 1;
    }
    k
}

fn seg_end_exec(p: &Vec<char>, i: usize) -> (r: usize)
    requires
        i <= p.len(),
    ensures
        r == seg_end(p@, i as nat),
        r <= p.len(),
{
    let mut k = i;
    while k < p.len() && p[k] != '/'
        invariant
            i <= k <= p.len(),
            seg_end(p@, i as nat) == seg_end(p@, k as nat),
        decreases p.len() - k,
    {
        k = k + 1;
    }
    k
}

fn tail_exec(p: &Vec<char>, floor: usize) -> (r: usize)
    requires
        floor <= p.len(),
    ensures
        r == tail_len(p@, floor as nat),
        floor <= r <= p.len(),
{
    proof {
        lemma_tail_len(p@, floor as nat);
    }
    let mut n = p.len();
    assert(p@.subrange(0, n as int) =~= p@);
    loop
        invariant
            floor <= n <= p.len(),
            tail_len(p@, floor as nat) == tail_len(p@.subrange(0, n as int), floor as nat),
        decreases n,
    {
        if n <= floor {
            return n;
        }
        assert(p@.subrange(0, n as int).drop_last() =~= p@.subrange(0, n - 1));
        if p[n - 1] == '/' {
            n = n - 1;
        } else if p[n - 1] == '.' && (n - 1 == floor || p[n - 2] == '/') {
            n = n - 1;
        } else {
            return n;
        }
    }
}

fn range_eq(p: &Vec<char>, i: usize, pe: usize, b: &Vec<char>, j: usize, be: usize) -> (r: bool)
    requires
        i <= pe <= p.len(),
        j <= be <= b.len(),
    ensures
        r == (p@.subrange(i as int, pe as int) == b@.subrange(j as int, be as int)),
{
    if pe - i != be - j {
        assert(p@.subrange(i as int, pe as int).len() != b@.subrange(j as int, be as int).len());
        return false;
    }
    let mut k: usize = 0;
    while k < pe - i
        invariant
            pe - i == be - j,
            i <= pe <= p.len(),
            j <= be <= b.len(),
            k <= pe - i,
            p@.subrange(i as int, i + k) == b@.subrange(j as int, j + k),
        decreases pe - i - k,
    {
        if p[i + k] != b[j + k] {
            assert(p@.subrange(i as int, pe as int)[k as int] != b@.subrange(j as int, be as int)[k as int]);
            return false;
        }
        assert(p@.subrange(i as int, i + k + 1) =~= p@.subrange(i as int, i + k).push(p@[i + k]));
        assert(b@.subrange(j as int, j + k + 1) =~= b@.subrange(j as int, j + k).push(b@[j + k]));
        k = k + 1;
    }
    assert(p@.subrange(i as int, pe as int) =~= b@.subrange(j as int, be as int));
    true
}

/// What is left of `p` once the components of `base` are stripped from its front.
pub fn strip_prefix_chars(p: &Vec<char>, base: &Vec<char>) -> (r: Option<Vec<char>>)
    ensures
        match r {
            Some(v) => strip_prefix_spec(p@, base@) == Some(v@),
            None => strip_prefix_spec(p@, base@) is None,
        },
{
    let pp: usize = if p.len() > 0 && p[0] == '/' {
        1
    } else if (p.len() == 1 && p[0] == '.') || (p.len() >= 2 && p[0] == '.' && p[1] == '/') {
        1
    } else {
        0
    };
    let bp: usize = if base.len() > 0 && base[0] == '/' {
        1
    } else if (base.len() == 1 && base[0] == '.') || (base.len() >= 2 && base[0] == '.' && base[1] == '/') {
        1
    } else {
        0
    };
    assert(pp == prefix_len(p@) && bp == prefix_len(base@));
    if bp == 0 && base.len() == 0 {
        let e = tail_exec(p, pp);
        return Some(slice_chars(p, 0, e));
    }
    if bp > 0 && (pp == 0 || p[0] != base[0]) {
        return None;
    }
    if bp == 0 && pp > 0 {
        return None;
    }
    let mut i = pp;
    let mut j = bp;
    loop
        invariant
            i <= p.len(),
            j <= base.len(),
            strip_prefix_spec(p@, base@) == strip_walk(p@, i as nat, base@, j as nat),
        decreases base.len() - j,
    {
        let j2 = skip_junk_exec(base, j);
        if j2 >= base.len() {
            let s = skip_junk_exec(p, i);
            let e = tail_exec(p, s);
            return Some(slice_chars(p, s, e));
        }
        let i2 = skip_junk_exec(p, i);
        if i2 >= p.len() {
            return None;
        }
        let be = seg_end_exec(base, j2);
        let pe = seg_end_exec(p, i2);
        proof {
            lemma_seg_end(p@, i2 as nat);
            lemma_seg_end(base@, j2 as nat);
        }
        if !range_eq(p, i2, pe, base, j2, be) {
            return None;
        }
        proof {
            lemma_skip_junk(base@, j as nat);
            lemma_seg_end(base@, j2 as nat);
        }
        i = pe;
        j = be;
    }
}

/// The canonical `source_id` of a file, when it lies under the corpus root.
pub open spec fn source_id_of(path: Seq<char>, corpus_root: Seq<char>) -> Option<Seq<char>> {
    strip_prefix_spec(path, corpus_root)
}

pub open spec fn outside_root_msg(path: Seq<char>, corpus_root: Seq<char>) -> Seq<char> {
    "refusing to ingest "@ + path + ": not under corpus_root "@ + corpus_root
        + " — place it under the corpus first (see LAYOUT.md)"@
}

/// `source_id` is the path relative to `corpus_root`, so identity is portable
/// across machines. Files outside the corpus are rejected.
pub fn canonical_source_id(path: &str, corpus_root: &str) -> (r: Result<SourceId, String>)
    ensures
        match r {
            Ok(id) => source_id_of(path@, corpus_root@) == Some(id.0@),
            Err(m) => source_id_of(path@, corpus_root@) is None && m@ == outside_root_msg(
                path@,
                corpus_root@,
            ),
        },
{
    match strip_prefix_chars(&chars_of(path), &chars_of(corpus_root)) {
        Some(rel) => Ok(SourceId(string_of(&rel))),
        None => {
            let mut m = owned("refusing to ingest ");
            push_str(&mut m, path);
            push_str(&mut m, ": not under corpus_root ");
            push_str(&mut m, corpus_root);
            push_str(&mut m, " — place it under the corpus first (see LAYOUT.md)");
            Err(m)
        },
    }
}

// ---------------------------------------------------------------------------
// Content hash

/// The SHA-256 digest of `data`.
pub uninterp spec fn sha256(data: Seq<u8>) -> Seq<u8>;

/// `sha2::Sha256::digest`: the result is named by `sha256`; it is 32 bytes long.
#[verifier::external_body]
fn sha256_digest(data: &[u8]) -> (r: Vec<u8>)
    ensures
        r@ == sha256(data@),
        r@.len() == 32,
{
    sha2::Sha256::digest(data).to_vec()
}

/// The lower-case hex digit of `n < 16`.
pub open spec fn hex_digit(n: nat) -> char {
    if n < 10 {
        ((n + 48) as u8) as char
    } else {
        ((n + 87) as u8) as char
    }
}

/// Lower-case hex of bytes: two digits per byte, high nibble first.
pub open spec fn hex_lower(data: Seq<u8>) -> Seq<char>
    decreases data.len(),
{
    if data.len() == 0 {
        Seq::empty()
    } else {
        hex_lower(data.drop_last()) + seq![
            hex_digit((data.last() / 16) as nat),
            hex_digit((data.last() % 16) as nat),
        ]
    }
}

/// `hex::encode`: lower-case hex, two digits per byte, high nibble first.
#[verifier::external_body]
fn hex_encode(data: &[u8]) -> (r: String)
    ensures
        r@ == hex_lower(data@),
{
    hex::encode(data)
}

/// The source hash of a document's bytes: hex SHA-256.
pub fn source_hash(bytes: &[u8]) -> (r: SourceHash)
    ensures
        r.0@ == hex_lower(sha256(bytes@)),
{
    let d = sha256_digest(bytes);
    SourceHash(hex_encode(d.as_slice()))
}

pub open spec fn read_error_msg(path: Seq<char>, e: Seq<char>) -> Seq<char> {
    "read "@ + path + ": "@ + e
}

/// The `Document` for a file under the corpus. `contents` is the result of
/// reading the file (its error message on failure). The `source_id` is checked
/// first, then the read.
pub fn make_doc(path: &str, contents: Result<Vec<u8>, String>, ct: ContentType, corpus_root: &str) -> (r: Result<Document, String>)
    ensures
        match source_id_of(path@, corpus_root@) {
            None => r is Err && r->Err_0@ == outside_root_msg(path@, corpus_root@),
            Some(id) => match contents {
                Err(e) => r is Err && r->Err_0@ == read_error_msg(path@, e@),
                Ok(bytes) => r is Ok && r->Ok_0.source_id.0@ == id && r->Ok_0.source_hash.0@
                    == hex_lower(sha256(bytes@)) && r->Ok_0.content_type == ct && r->Ok_0.path@
                    == path@ && r->Ok_0.work_id is None,
            },
        },
{
    let source_id = match canonical_source_id(path, corpus_root) {
        Ok(id) => id,
        Err(m) => return Err(m),
    };
    match contents {
        Err(e) => {
            let mut m = owned("read ");
            push_str(&mut m, path);
            push_str(&mut m, ": ");
            push_str(&mut m, e.as_str());
            Err(m)
        },
        Ok(bytes) => Ok(
            Document {
                source_id,
                source_hash: source_hash(bytes.as_slice()),
                content_type: ct,
                path: owned(path),
                work_id: None,
            },
        ),
    }
}

/// The `Document` for an `add` preview: the file is still at its original
/// location, so the caller supplies the planned `source_id`.
pub fn doc_for_preview(path: &str, contents: Result<Vec<u8>, String>, ct: ContentType, source_id: SourceId) -> (r: Result<Document, String>)
    ensures
        match contents {
            Err(e) => r is Err && r->Err_0@ == read_error_msg(path@, e@),
            Ok(bytes) => r is Ok && r->Ok_0.source_id.0@ == source_id.0@ && r->Ok_0.source_hash.0@
                == hex_lower(sha256(bytes@)) && r->Ok_0.content_type == ct && r->Ok_0.path@ == path@
                && r->Ok_0.work_id is None,
        },
{
    match contents {
        Err(e) => {
            let mut m = owned("read ");
            push_str(&mut m, path);
            push_str(&mut m, ": ");
            push_str(&mut m, e.as_str());
            Err(m)
        },
        Ok(bytes) => Ok(
            Document {
                source_id,
                source_hash: source_hash(bytes.as_slice()),
                content_type: ct,
                path: owned(path),
                work_id: None,
            },
        ),
    }
}

// ---------------------------------------------------------------------------
// Outcomes

/// The outcome of ingesting one document.
#[derive(Debug)]
pub enum Outcome {
    Success { source_id: SourceId, chunks_indexed: usize },
    Skipped { source_id: SourceId, reason: String },
    Failed { source_id: SourceId, stage: String, error: String },
}

impl Outcome {
    pub fn is_failed(&self) -> (r: bool)
        ensures
            r == (self is Failed),
    {
        match self {
            Outcome::Failed { .. } => true,
            _ => false,
        }
    }
}

/// The structured progress line of an outcome (tail-f friendly).
pub open spec fn outcome_line_spec(o: Outcome) -> Seq<char> {
    match o {
        Outcome::Success { source_id, chunks_indexed } => "ok\tsource="@ + source_id.0@
            + "\tchunks="@ + decimal(chunks_indexed as nat),
        Outcome::Skipped { source_id, reason } => "skip\tsource="@ + source_id.0@ + "\treason="@
            + reason@,
        Outcome::Failed { source_id, stage, error } => "fail\tsource="@ + source_id.0@
            + "\tstage="@ + stage@ + "\terror="@ + error@,
    }
}

pub fn outcome_line(o: &Outcome) -> (r: String)
    ensures
        r@ == outcome_line_spec(*o),
{
    match o {
        Outcome::Success { source_id, chunks_indexed } => {
            let mut m = owned("ok\tsource=");
            push_str(&mut m, source_id.0.as_str());
            push_str(&mut m, "\tchunks=");
            let d = decimal_chars(*chunks_indexed as u64);
            append_range(&mut m, &d, 0, d.len());
            assert(d@.subrange(0, d.len() as int) =~= d@);
            m
        },
        Outcome::Skipped { source_id, reason } => {
            let mut m = owned("skip\tsource=");
            push_str(&mut m, source_id.0.as_str());
            push_str(&mut m, "\treason=");
            push_str(&mut m, reason.as_str());
            m
        },
        Outcome::Failed { source_id, stage, error } => {
            let mut m = owned("fail\tsource=");
            push_str(&mut m, source_id.0.as_str());
            push_str(&mut m, "\tstage=");
            push_str(&mut m, stage.as_str());
            push_str(&mut m, "\terror=");
            push_str(&mut m, error.as_str());
            m
        },
    }
}

} // verus!
