//! The per-collection TOML config schema (the plain-value part of it) and the
//! derivation of Qdrant's REST URL from its gRPC URL.

use vstd::prelude::*;
use crate::text::{
    append_range, chars_of, find_char, find_chars, find_from, first_index, is_ascii_digit, is_digit,
    last_index, lemma_find_from, lemma_last_index, lemma_trim_end_len, lit_chars, match_at, owned, push_char,
    rfind_char, slice_chars, string_of, trim_end, trim_end_at,
};

verus! {

/// `[qdrant]`: the gRPC URL the indexer uses, and an optional explicit REST URL.
#[derive(Debug)]
pub struct QdrantConfig {
    pub url: String,
    pub rest_url: Option<String>,
}

/// `[paths]`.
#[derive(Debug)]
pub struct Paths {
    pub cache: String,
    pub manifest: String,
    pub snapshots: Option<String>,
}

/// `[snapshot]`.
#[derive(Debug)]
pub struct SnapshotConfig {
    pub retention: usize,
}

/// `[embedder]`, tagged by `kind`.
#[derive(Debug)]
pub enum EmbedderConfig {
    Stub,
    Openai { model: String, dimensions: usize, batch_size: Option<usize> },
    Voyage { model: String, dimensions: usize, batch_size: Option<usize> },
}

/// `[ingest]`.
#[derive(Debug)]
pub struct IngestConfig {
    /// "book" | "paper" | "code"
    pub content_type: String,
    /// "text" | "pdf" | "ebook" | "html" | "code"
    pub extractor: String,
    /// Chunker for text content: "recursive" (default) or "blankline".
    pub chunker: String,
    /// Recursive chunker target size in characters.
    pub chunk_size: usize,
    /// Recursive chunker overlap in characters.
    pub chunk_overlap: usize,
    /// `[ingest.marker]` knobs for the pdf extractor.
    pub marker: MarkerTomlConfig,
    /// Root that `source_id` is made relative to.
    pub corpus_root: String,
}

/// `[ingest.marker]`: marker subprocess knobs.
#[derive(Debug, Clone)]
pub struct MarkerTomlConfig {
    pub device: Option<String>,
    pub recognition_batch_size: Option<u32>,
    pub detection_batch_size: Option<u32>,
    pub layout_batch_size: Option<u32>,
    pub table_rec_batch_size: Option<u32>,
    pub output_dir: Option<String>,
}

/// `[quality.sections]`.
#[derive(Debug)]
pub struct SectionsConfig {
    pub exclude: Vec<String>,
    pub keep: Vec<String>,
}

impl Default for SnapshotConfig {
    /// A missing `[snapshot]` table: retention 0 (the per-field default of 5
    /// applies only when the table is present without `retention`).
    fn default() -> (r: Self)
        ensures
            r.retention == 0,
    {
        SnapshotConfig { retention: 0 }
    }
}

impl Default for MarkerTomlConfig {
    fn default() -> (r: Self)
        ensures
            r.device is None,
            r.recognition_batch_size is None,
            r.detection_batch_size is None,
            r.layout_batch_size is None,
            r.table_rec_batch_size is None,
            r.output_dir is None,
    {
        MarkerTomlConfig {
            device: None,
            recognition_batch_size: None,
            detection_batch_size: None,
            layout_batch_size: None,
            table_rec_batch_size: None,
            output_dir: None,
        }
    }
}

impl Default for SectionsConfig {
    fn default() -> (r: Self)
        ensures
            r.exclude@.len() == 0,
            r.keep@.len() == 0,
    {
        SectionsConfig { exclude: Vec::new(), keep: Vec::new() }
    }
}

/// `retention` when `[snapshot]` is present without it.
pub fn default_retention() -> (r: usize)
    ensures
        r == 5,
{
    5
}

pub fn default_corpus_root() -> (r: String)
    ensures
        r@ == "/data/corpus"@,
{
    owned("/data/corpus")
}

pub fn default_content_type() -> (r: String)
    ensures
        r@ == "book"@,
{
    owned("book")
}

pub fn default_extractor() -> (r: String)
    ensures
        r@ == "text"@,
{
    owned("text")
}

pub fn default_chunker() -> (r: String)
    ensures
        r@ == "recursive"@,
{
    owned("recursive")
}

pub fn default_chunk_size() -> (r: usize)
    ensures
        r == 2000,
{
    2000
}

pub fn default_chunk_overlap() -> (r: usize)
    ensures
        r == 200,
{
    200
}

impl Default for IngestConfig {
    fn default() -> (r: Self)
        ensures
            r.content_type@ == "book"@,
            r.extractor@ == "text"@,
            r.chunker@ == "recursive"@,
            r.chunk_size == 2000,
            r.chunk_overlap == 200,
            r.marker.device is None,
            r.marker.recognition_batch_size is None,
            r.marker.detection_batch_size is None,
            r.marker.layout_batch_size is None,
            r.marker.table_rec_batch_size is None,
            r.marker.output_dir is None,
            r.corpus_root@ == "/data/corpus"@,
    {
        IngestConfig {
            content_type: default_content_type(),
            extractor: default_extractor(),
            chunker: default_chunker(),
            chunk_size: default_chunk_size(),
            chunk_overlap: default_chunk_overlap(),
            marker: MarkerTomlConfig::default(),
            corpus_root: default_corpus_root(),
        }
    }
}

// ---------------------------------------------------------------------------
// Decimal numbers

/// The character of a decimal digit `d < 10`.
pub open spec fn digit_char(d: nat) -> char {
    ((d + 48) as u8) as char
}

/// The value of a decimal digit character.
pub open spec fn digit_value(c: char) -> nat {
    ((c as int) - 48) as nat
}

/// The value of a string of decimal digits (`str::parse` without overflow).
pub open spec fn digits_value(s: Seq<char>) -> nat
    decreases s.len(),
{
    if s.len() == 0 {
        0
    } else {
        digits_value(s.drop_last()) * 10 + digit_value(s.last())
    }
}

/// Every character of `s` is an ASCII digit.
pub open spec fn all_digits(s: Seq<char>) -> bool {
    forall|i: int| 0 <= i < s.len() ==> is_ascii_digit(#[trigger] s[i])
}

/// The decimal rendering of `n` (`Display` for unsigned integers).
pub open spec fn decimal(n: nat) -> Seq<char>
    decreases n,
{
    if n < 10 {
        seq![digit_char(n)]
    } else {
        decimal(n / 10).push(digit_char(n % 10))
    }
}

pub proof fn lemma_digits_value_grows(s: Seq<char>, i: int)
    requires
        0 <= i <= s.len(),
        all_digits(s),
    ensures
        digits_value(s.take(i)) <= digits_value(s),
    decreases s.len() - i,
{
    if i < s.len() {
        lemma_digits_value_grows(s, i + 1);
        assert(s.take(i + 1).drop_last() =~= s.take(i));
    } else {
        assert(s.take(i) =~= s);
    }
}

/// `n` in decimal.
pub fn decimal_chars(n: u64) -> (r: Vec<char>)
    ensures
        r@ == decimal(n as nat),
    decreases n,
{
    if n < 10 {
        let c = ((n as u8) + 48) as char;
        let mut r: Vec<char> = Vec::new();
        r.push(c);
        assert(r@ =~= seq![digit_char(n as nat)]);
        r
    } else {
        let mut r = decimal_chars(n / 10);
        let c = (((n % 10) as u8) + 48) as char;
        r.push(c);
        r
    }
}

/// Parse `v[from..to]` as a `u16` the way `str::parse::<u16>` does for a
/// non-empty run of ASCII digits: `None` when the value exceeds `u16::MAX`.
fn parse_u16_digits(v: &Vec<char>, from: usize, to: usize) -> (r: Option<u16>)
    requires
        from <= to <= v.len(),
        all_digits(v@.subrange(from as int, to as int)),
    ensures
        match r {
            Some(x) => x as nat == digits_value(v@.subrange(from as int, to as int)),
            None => digits_value(v@.subrange(from as int, to as int)) > 65535,
        },
{
    let ghost s = v@.subrange(from as int, to as int);
    let mut acc: u32 = 0;
    let mut i = from;
    while i < to
        invariant
            from <= i <= to <= v.len(),
            s == v@.subrange(from as int, to as int),
            all_digits(s),
            acc as nat == digits_value(s.take((i - from) as int)),
            acc <= 65535,
        decreases to - i,
    {
        let c = v[i];
        assert(s[(i - from) as int] == c);
        assert(s.take((i - from + 1) as int).drop_last() =~= s.take((i - from) as int));
        let d = (c as u32) - 48;
        let next = acc * 10 + d;
        if next > 65535 {
            proof {
                lemma_digits_value_grows(s, (i - from + 1) as int);
            }
            return None;
        }
        acc = next;
        i = i + 1;
    }
    assert(s.take((to - from) as int) =~= s);
    Some(acc as u16)
}

/// Scan of `s` for brackets: whether a `[` is still open at its end, and how
/// many `:` occur outside brackets.
pub open spec fn colon_scan(s: Seq<char>) -> (bool, nat)
    decreases s.len(),
{
    if s.len() == 0 {
        (false, 0)
    } else {
        let (open, n) = colon_scan(s.drop_last());
        let c = s.last();
        if c == '[' {
            (true, n)
        } else if c == ']' {
            (false, n)
        } else if c == ':' && !open {
            (open, n + 1)
        } else {
            (open, n)
        }
    }
}

/// Where the authority of `t` starts: just past the first `://`, else at 0.
pub open spec fn authority_start(t: Seq<char>) -> nat {
    match find_from(t, "://"@, 0) {
        Some(k) => k + 3,
        None => 0,
    }
}

/// The authority of `t` (host and port): from `authority_start` up to the next `/`.
pub open spec fn authority(t: Seq<char>) -> Seq<char> {
    let rest = t.subrange(authority_start(t) as int, t.len() as int);
    match first_index(rest, '/') {
        Some(j) => rest.subrange(0, j as int),
        None => rest,
    }
}

/// The host and port of an authority: what follows its last `@` (the user
/// information before it is not part of the host).
pub open spec fn host_port(a: Seq<char>) -> Seq<char> {
    match last_index(a, '@') {
        Some(k) => a.subrange(k + 1int, a.len() as int),
        None => a,
    }
}

/// A bracketless IPv6 host: the host and port hold more than one `:` outside brackets.
pub open spec fn bare_ipv6(t: Seq<char>) -> bool {
    colon_scan(host_port(authority(t))).1 > 1
}

/// The REST base derived from a gRPC URL: trailing `/` trimmed. A bracketless
/// IPv6 host passes through unchanged (the caller overrides it with `rest_url`).
/// Otherwise, when the text after the last `:` is a non-empty run of digits
/// that parses as a `u16`, the port is lowered by one (saturating at 0); else
/// the trimmed URL.
pub open spec fn rest_from_grpc(grpc: Seq<char>) -> Seq<char> {
    let t = trim_end(grpc, '/');
    if bare_ipv6(t) {
        t
    } else {
        port_lowered(t)
    }
}

/// `t` with the port after its last `:` lowered by one, when that text is a
/// non-empty run of digits that parses as a `u16`; else `t`.
pub open spec fn port_lowered(t: Seq<char>) -> Seq<char> {
    {
        match last_index(t, ':') {
            None => t,
            Some(c) => {
                let port = t.subrange((c + 1) as int, t.len() as int);
                if port.len() > 0 && all_digits(port) && digits_value(port) <= 65535 {
                    t.subrange(0, c as int) + seq![':'] + decimal(
                        if digits_value(port) == 0 {
                            0
                        } else {
                            (digits_value(port) - 1) as nat
                        },
                    )
                } else {
                    t
                }
            },
        }
    }
}

proof fn lemma_colon_scan_bound(s: Seq<char>)
    ensures
        colon_scan(s).1 <= s.len(),
    decreases s.len(),
{
    if s.len() > 0 {
        lemma_colon_scan_bound(s.drop_last());
    }
}

/// Whether the URL `t` names a bracketless IPv6 host.
fn is_bare_ipv6(t: &Vec<char>) -> (r: bool)
    ensures
        r == bare_ipv6(t@),
{
    let sep = lit_chars("://");
    proof {
        reveal_strlit("://");
        lemma_find_from(t@, sep@, 0);
    }
    assert(sep@.len() == 3);
    let start = match find_chars(t, &sep, 0) {
        Some(k) => {
            assert(match_at(t@, sep@, k as int));
            assert(k + sep@.len() <= t@.len());
            assert(k + 3 <= t.len());
            k + 3
        },
        None => 0,
    };
    assert(start <= t.len());
    assert(start == authority_start(t@));
    let ghost rest = t@.subrange(start as int, t@.len() as int);
    proof {
        crate::text::lemma_first_index(rest, '/');
    }
    let end = match find_char(t, start, '/') {
        Some(j) => j,
        None => t.len(),
    };
    let ghost auth = t@.subrange(start as int, end as int);
    assert(auth =~= authority(t@)) by {
        match first_index(rest, '/') {
            Some(j) => {
                assert(rest.subrange(0, j as int) =~= auth);
            },
            None => {
                assert(rest =~= auth);
            },
        }
    }
    let av = slice_chars(t, start, end);
    let hs = match rfind_char(&av, av.len(), '@') {
        Some(k) => {
            proof {
                lemma_last_index(av@.subrange(0, av.len() as int), '@');
            }
            k + 1
        },
        None => 0,
    };
    assert(av@.subrange(0, av.len() as int) =~= av@);
    let ghost host = av@.subrange(hs as int, av.len() as int);
    assert(host =~= host_port(auth));
    let mut open = false;
    let mut count: usize = 0;
    let mut i = hs;
    while i < av.len()
        invariant
            hs <= i <= av.len(),
            host == av@.subrange(hs as int, av.len() as int),
            (open, count as nat) == colon_scan(av@.subrange(hs as int, i as int)),
        decreases av.len() - i,
    {
        let ghost pre = av@.subrange(hs as int, i as int);
        assert(av@.subrange(hs as int, i + 1).drop_last() =~= pre);
        proof {
            lemma_colon_scan_bound(pre);
        }
        let c = av[i];
        if c == '[' {
            open = true;
        } else if c == ']' {
            open = false;
        } else if c == ':' && !open {
            count = count + 1;
        }
        i = i + 1;
    }
    assert(av@.subrange(hs as int, av.len() as int) =~= host);
    count > 1
}

fn all_digits_range(v: &Vec<char>, from: usize, to: usize) -> (r: bool)
    requires
        from <= to <= v.len(),
    ensures
        r == all_digits(v@.subrange(from as int, to as int)),
{
    let mut i = from;
    while i < to
        invariant
            from <= i <= to <= v.len(),
            forall|j: int| from <= j < i ==> is_ascii_digit(#[trigger] v@[j]),
        decreases to - i,
    {
        if !is_digit(v[i]) {
            assert(!is_ascii_digit(v@.subrange(from as int, to as int)[(i - from) as int]));
            return false;
        }
        i = i + 1;
    }
    assert forall|j: int| 0 <= j < to - from implies is_ascii_digit(
        #[trigger] v@.subrange(from as int, to as int)[j],
    ) by {
        assert(v@.subrange(from as int, to as int)[j] == v@[from + j]);
    }
    true
}

fn lower_port(v: &Vec<char>, n: usize) -> (r: String)
    requires
        n <= v.len(),
    ensures
        r@ == port_lowered(v@.subrange(0, n as int)),
{
    let ghost t = v@.subrange(0, n as int);
    match rfind_char(v, n, ':') {
        None => {
            let mut out = String::new();
            append_range(&mut out, v, 0, n);
            out
        },
        Some(colon) => {
            proof {
                lemma_last_index(t, ':');
            }
            assert(t.subrange(colon + 1, t.len() as int) =~= v@.subrange(colon + 1, n as int));
            assert(t.subrange(0, colon as int) =~= v@.subrange(0, colon as int));
            if colon + 1 < n && all_digits_range(v, colon + 1, n) {
                match parse_u16_digits(v, colon + 1, n) {
                    Some(port) => {
                        let lowered: u16 = if port == 0 { 0 } else { port - 1 };
                        let mut out = String::new();
                        append_range(&mut out, v, 0, colon);
                        push_char(&mut out, ':');
                        let digits = decimal_chars(lowered as u64);
                        append_range(&mut out, &digits, 0, digits.len());
                        assert(digits@.subrange(0, digits.len() as int) =~= digits@);
                        return out;
                    },
                    None => {},
                }
            }
            let mut out = String::new();
            append_range(&mut out, v, 0, n);
            out
        },
    }
}

/// REST API base for snapshot/restore: qdrant serves REST on the gRPC port
/// minus 1 (default 6333 vs 6334). A bracketless IPv6 host (or a URL without a
/// numeric port) passes through unchanged, trailing `/` trimmed.
pub fn derive_rest_from_grpc(grpc: &str) -> (r: String)
    ensures
        r@ == rest_from_grpc(grpc@),
{
    let v = chars_of(grpc);
    let n = trim_end_at(&v, v.len(), '/');
    assert(v@.subrange(0, v.len() as int) =~= v@);
    proof {
        lemma_trim_end_len(v@, '/');
    }
    let tv = slice_chars(&v, 0, n);
    if is_bare_ipv6(&tv) {
        string_of(&tv)
    } else {
        lower_port(&v, n)
    }
}

impl QdrantConfig {
    /// The explicit `rest_url` when set, else the one derived from `url`.
    pub fn rest_url(&self) -> (r: String)
        ensures
            r@ == match self.rest_url {
                Some(e) => e@,
                None => rest_from_grpc(self.url@),
            },
    {
        match &self.rest_url {
            Some(explicit) => explicit.clone(),
            None => derive_rest_from_grpc(self.url.as_str()),
        }
    }
}

} // verus!
