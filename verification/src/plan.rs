//! `librarian add` path planning: from the source file name, the collection and
//! the optional shelf / slug overrides, derive where the resource lands in the
//! corpus, the `source_id` prefix it is ingested under, and the per-collection
//! config it is previewed through.

use vstd::prelude::*;
use crate::path::{
    extension_chars, extension_spec, file_stem_chars, file_stem_spec, join_chars, join_spec,
    segment, with_file_name, with_file_name_spec,
};
use crate::text::{
    append_range, ascii_lower, chars_of, eq_lit, first_index, find_char, is_alnum, lemma_first_index,
    lit_chars, lower_chars, owned, push_char, push_str, slice_chars, string_of, trim_both,
    trim_chars,
};

verus! {

/// The kind of resource being added, decided by its file extension.
#[derive(Debug, PartialEq, Eq, Structural, Clone, Copy)]
pub enum Kind {
    Pdf,
    Ebook,
    Html,
    Code,
    Markdown,
}

/// Where an added resource goes. Paths are strings.
#[derive(Debug)]
pub struct AddPlan {
    pub kind: Kind,
    pub slug: String,
    pub raw_path: String,
    pub ingest_path: String,
    pub source_id_prefix: String,
    pub config_path: String,
}

/// The arguments of `librarian add`.
pub struct AddArgs {
    pub path: Option<String>,
    pub to: String,
    pub commit: bool,
    pub shelf: Option<String>,
    pub slug: Option<String>,
    pub move_: bool,
    pub force: bool,
    pub judge: bool,
    pub undo: Option<String>,
}

/// The mathematical content of an `AddPlan`.
#[verifier::ext_equal]
pub struct PlanView {
    pub kind: Kind,
    pub slug: Seq<char>,
    pub raw_path: Seq<char>,
    pub ingest_path: Seq<char>,
    pub source_id_prefix: Seq<char>,
    pub config_path: Seq<char>,
}

impl View for AddPlan {
    type V = PlanView;

    open spec fn view(&self) -> PlanView {
        PlanView {
            kind: self.kind,
            slug: self.slug@,
            raw_path: self.raw_path@,
            ingest_path: self.ingest_path@,
            source_id_prefix: self.source_id_prefix@,
            config_path: self.config_path@,
        }
    }
}

// ---------------------------------------------------------------------------
// Extensions and config file names

/// The kind a lower-cased extension names, if any.
pub open spec fn kind_of_ext(e: Seq<char>) -> Option<Kind> {
    if e == "pdf"@ {
        Some(Kind::Pdf)
    } else if e == "epub"@ || e == "mobi"@ || e == "azw3"@ || e == "azw"@ {
        Some(Kind::Ebook)
    } else if e == "html"@ || e == "htm"@ {
        Some(Kind::Html)
    } else if e == "md"@ {
        Some(Kind::Markdown)
    } else if e == "rs"@ || e == "py"@ || e == "c"@ || e == "cpp"@ || e == "h"@ || e == "hpp"@
        || e == "go"@ || e == "js"@ || e == "ts"@ || e == "java"@ {
        Some(Kind::Code)
    } else {
        None
    }
}

/// The error for an extension that names no kind.
pub open spec fn unsupported_msg(e: Seq<char>) -> Seq<char> {
    "unsupported file type: ."@ + e
}

/// Per-collection config file name for a kind.
pub open spec fn config_file_spec(k: Kind) -> Seq<char> {
    match k {
        Kind::Pdf => "pdf.toml"@,
        Kind::Ebook => "ebook.toml"@,
        Kind::Html => "html.toml"@,
        Kind::Code => "code.toml"@,
        Kind::Markdown => "text.toml"@,
    }
}

/// Per-collection config filename for a resource kind. PDF previews through
/// `pdf.toml`; its durable markdown is later ingested through `text.toml`.
pub fn config_file_for(kind: &Kind) -> (r: &'static str)
    ensures
        r@ == config_file_spec(*kind),
{
    match kind {
        Kind::Pdf => "pdf.toml",
        Kind::Ebook => "ebook.toml",
        Kind::Html => "html.toml",
        Kind::Code => "code.toml",
        Kind::Markdown => "text.toml",
    }
}

fn classify_chars(ext: &Vec<char>) -> (r: Option<Kind>)
    ensures
        r == kind_of_ext(ext@),
{
    if eq_lit(ext, "pdf") {
        Some(Kind::Pdf)
    } else if eq_lit(ext, "epub") || eq_lit(ext, "mobi") || eq_lit(ext, "azw3") || eq_lit(ext, "azw") {
        Some(Kind::Ebook)
    } else if eq_lit(ext, "html") || eq_lit(ext, "htm") {
        Some(Kind::Html)
    } else if eq_lit(ext, "md") {
        Some(Kind::Markdown)
    } else if eq_lit(ext, "rs") || eq_lit(ext, "py") || eq_lit(ext, "c") || eq_lit(ext, "cpp")
        || eq_lit(ext, "h") || eq_lit(ext, "hpp") || eq_lit(ext, "go") || eq_lit(ext, "js")
        || eq_lit(ext, "ts") || eq_lit(ext, "java") {
        Some(Kind::Code)
    } else {
        None
    }
}

fn unsupported(ext: &Vec<char>) -> (r: String)
    ensures
        r@ == unsupported_msg(ext@),
{
    let mut m = owned("unsupported file type: .");
    append_range(&mut m, ext, 0, ext.len());
    assert(ext@.subrange(0, ext.len() as int) =~= ext@);
    m
}

/// Map a (lower-cased) extension to its kind; anything else is unsupported.
pub fn classify_ext(ext: &str) -> (r: Result<Kind, String>)
    ensures
        match r {
            Ok(k) => kind_of_ext(ext@) == Some(k),
            Err(m) => kind_of_ext(ext@) is None && m@ == unsupported_msg(ext@),
        },
{
    let v = chars_of(ext);
    match classify_chars(&v) {
        Some(k) => Ok(k),
        None => Err(unsupported(&v)),
    }
}

// ---------------------------------------------------------------------------
// Slugs

/// One step of slug building over lower-cased text: letters and digits are kept,
/// every run of anything else becomes a single `-`. The flag says whether the
/// last character pushed was a separator.
pub open spec fn slug_step(acc: (Seq<char>, bool), c: char) -> (Seq<char>, bool) {
    if crate::text::is_ascii_alnum(c) {
        (acc.0.push(c), false)
    } else if !acc.1 {
        (acc.0.push('-'), true)
    } else {
        acc
    }
}

/// The slug of `s` (already lower-cased) before the outer `-` are trimmed.
pub open spec fn raw_slug(s: Seq<char>) -> (Seq<char>, bool)
    decreases s.len(),
{
    if s.len() == 0 {
        (Seq::empty(), false)
    } else {
        slug_step(raw_slug(s.drop_last()), s.last())
    }
}

/// `slugify`: lower-case, keep ASCII letters and digits, collapse every other run
/// into one `-`, and trim `-` from both ends.
pub open spec fn slugify_spec(s: Seq<char>) -> Seq<char> {
    trim_both(raw_slug(ascii_lower(s)).0, '-')
}

fn slugify_chars(s: &Vec<char>) -> (r: Vec<char>)
    ensures
        r@ == slugify_spec(s@),
{
    let lower = lower_chars(s);
    let mut slug: Vec<char> = Vec::new();
    let mut last_was_sep = false;
    let mut i: usize = 0;
    while i < lower.len()
        invariant
            i <= lower.len(),
            (slug@, last_was_sep) == raw_slug(lower@.take(i as int)),
        decreases lower.len() - i,
    {
        let ch = lower[i];
        assert(lower@.take(i + 1).drop_last() =~= lower@.take(i as int));
        if is_alnum(ch) {
            slug.push(ch);
            last_was_sep = false;
        } else if !last_was_sep {
            slug.push('-');
            last_was_sep = true;
        }
        i = i + 1;
    }
    assert(lower@.take(lower.len() as int) =~= lower@);
    trim_chars(&slug, '-')
}

/// Lower-case `s`, keep ASCII letters and digits, turn every other run into a
/// single `-`, and trim `-` from both ends.
pub fn slugify(s: &str) -> (r: String)
    ensures
        r@ == slugify_spec(s@),
{
    let v = chars_of(s);
    string_of(&slugify_chars(&v))
}

/// A character a slug may hold: a lower-case ASCII letter, a digit, or `-`.
pub open spec fn slug_char(c: char) -> bool {
    crate::text::is_ascii_digit(c) || crate::text::is_ascii_lower(c) || c == '-'
}

/// A well-formed slug: slug characters only, no `-` at either end, and no two
/// `-` in a row.
pub open spec fn is_slug(t: Seq<char>) -> bool {
    &&& forall|i: int| 0 <= i < t.len() ==> slug_char(#[trigger] t[i])
    &&& t.len() > 0 ==> t[0] != '-' && t.last() != '-'
    &&& forall|i: int| 0 <= i < t.len() - 1 ==> !(#[trigger] t[i] == '-' && t[i + 1] == '-')
}

proof fn lemma_lower_has_no_upper(s: Seq<char>)
    ensures
        forall|i: int| 0 <= i < ascii_lower(s).len() ==> !crate::text::is_ascii_upper(#[trigger] ascii_lower(s)[i]),
        ascii_lower(s).len() == s.len(),
{
    assert forall|i: int| 0 <= i < ascii_lower(s).len() implies !crate::text::is_ascii_upper(#[trigger] ascii_lower(s)[i]) by {
        let c = s[i];
        if crate::text::is_ascii_upper(c) {
            assert((c as int) + 32 >= 97);
        }
    }
}

/// The raw slug of lower-cased text holds only slug characters, never two `-`
/// in a row, and its flag says whether it ends in `-`.
proof fn lemma_raw_slug_shape(s: Seq<char>)
    requires
        forall|i: int| 0 <= i < s.len() ==> !crate::text::is_ascii_upper(#[trigger] s[i]),
    ensures
        forall|i: int| 0 <= i < raw_slug(s).0.len() ==> slug_char(#[trigger] raw_slug(s).0[i]),
        forall|i: int| 0 <= i < raw_slug(s).0.len() - 1 ==> !(#[trigger] raw_slug(s).0[i] == '-'
            && raw_slug(s).0[i + 1] == '-'),
        raw_slug(s).1 <==> (raw_slug(s).0.len() > 0 && raw_slug(s).0.last() == '-'),
    decreases s.len(),
{
    if s.len() > 0 {
        let p = s.drop_last();
        assert forall|i: int| 0 <= i < p.len() implies !crate::text::is_ascii_upper(#[trigger] p[i]) by {
            assert(p[i] == s[i]);
        }
        lemma_raw_slug_shape(p);
        let prev = raw_slug(p).0;
        let cur = raw_slug(s).0;
        if crate::text::is_ascii_alnum(s.last()) {
            assert(cur == prev.push(s.last()));
            assert forall|i: int| 0 <= i < cur.len() implies slug_char(#[trigger] cur[i]) by {
                if i < prev.len() {
                    assert(cur[i] == prev[i]);
                }
            }
            assert forall|i: int| 0 <= i < cur.len() - 1 implies !(#[trigger] cur[i] == '-' && cur[i + 1] == '-') by {
                assert(cur[i] == prev[i]);
                if i + 1 < prev.len() {
                    assert(cur[i + 1] == prev[i + 1]);
                }
            }
        } else if !raw_slug(p).1 {
            assert(cur == prev.push('-'));
            assert forall|i: int| 0 <= i < cur.len() implies slug_char(#[trigger] cur[i]) by {
                if i < prev.len() {
                    assert(cur[i] == prev[i]);
                }
            }
            assert forall|i: int| 0 <= i < cur.len() - 1 implies !(#[trigger] cur[i] == '-' && cur[i + 1] == '-') by {
                assert(cur[i] == prev[i]);
                if i + 1 < prev.len() {
                    assert(cur[i + 1] == prev[i + 1]);
                }
            }
        }
    }
}

/// Every slug is well-formed: lower-case ASCII letters, digits and single `-`
/// separators, with no `-` at either end.
pub proof fn lemma_slugify_is_slug(s: Seq<char>)
    ensures
        is_slug(slugify_spec(s)),
{
    lemma_lower_has_no_upper(s);
    let l = ascii_lower(s);
    lemma_raw_slug_shape(l);
    let r = raw_slug(l).0;
    crate::text::lemma_trim_end_len(r, '-');
    let e = crate::text::trim_end(r, '-');
    crate::text::lemma_lead_len(e, '-');
    let t = slugify_spec(s);
    let a = crate::text::lead_len(e, '-');
    assert(t == r.subrange(a as int, e.len() as int));
    assert forall|i: int| 0 <= i < t.len() implies slug_char(#[trigger] t[i]) by {
        assert(t[i] == r[a + i]);
    }
    assert forall|i: int| 0 <= i < t.len() - 1 implies !(#[trigger] t[i] == '-' && t[i + 1] == '-') by {
        assert(t[i] == r[a + i]);
        assert(t[i + 1] == r[a + i + 1]);
    }
    if t.len() > 0 {
        assert(t[0] == e[a as int]);
        assert(t.last() == e[e.len() - 1]);
        assert(e.last() == r[crate::text::trim_end_len(r, '-') - 1]);
    }
}

/// A well-formed slug is its own raw slug.
proof fn lemma_raw_slug_of_slug(t: Seq<char>, k: nat)
    requires
        is_slug(t),
        k <= t.len(),
    ensures
        raw_slug(t.take(k as int)).0 == t.take(k as int),
        raw_slug(t.take(k as int)).1 <==> (k > 0 && t[k - 1] == '-'),
    decreases k,
{
    if k > 0 {
        lemma_raw_slug_of_slug(t, (k - 1) as nat);
        assert(t.take(k as int).drop_last() =~= t.take(k - 1));
        let c = t[k - 1];
        assert(t.take(k as int).last() == c);
        assert(slug_char(c));
        if c == '-' {
            assert(k - 1 > 0);
            assert(t[k - 2] != '-');
            assert(t.take(k - 1).push('-') =~= t.take(k as int));
        } else {
            assert(t.take(k - 1).push(c) =~= t.take(k as int));
        }
    }
}

/// Slugifying a slug changes nothing.
pub proof fn lemma_slugify_idempotent(s: Seq<char>)
    ensures
        slugify_spec(slugify_spec(s)) == slugify_spec(s),
{
    lemma_slugify_is_slug(s);
    let t = slugify_spec(s);
    assert(ascii_lower(t) =~= t) by {
        assert forall|i: int| 0 <= i < t.len() implies #[trigger] ascii_lower(t)[i] == t[i] by {
            assert(slug_char(t[i]));
        }
    }
    lemma_raw_slug_of_slug(t, t.len());
    assert(t.take(t.len() as int) =~= t);
    crate::text::lemma_trim_end_len(t, '-');
    if t.len() > 0 {
        assert(crate::text::trim_end_len(t, '-') == t.len());
        assert(crate::text::trim_end(t, '-') =~= t);
        assert(crate::text::lead_len(t, '-') == 0);
    } else {
        assert(crate::text::trim_end(t, '-') =~= t);
    }
    assert(crate::text::trim_start_char(t, '-') =~= t);
}

// ---------------------------------------------------------------------------
// Debug renderings used in error messages

/// How `{:?}` renders a `Path` (quoted, with escapes).
pub uninterp spec fn debug_path(p: Seq<char>) -> Seq<char>;

/// How `{:?}` renders a `str` (quoted, with escapes).
pub uninterp spec fn debug_str(s: Seq<char>) -> Seq<char>;

/// `<Path as Debug>::fmt` through `format!("{:?}")`: the result is named, not stated.
#[verifier::external_body]
fn path_debug(p: &str) -> (r: String)
    ensures
        r@ == debug_path(p@),
{
    format!("{:?}", std::path::Path::new(p))
}

/// `<str as Debug>::fmt` through `format!("{:?}")`: the result is named, not stated.
#[verifier::external_body]
fn str_debug(s: &str) -> (r: String)
    ensures
        r@ == debug_str(s@),
{
    format!("{:?}", s)
}

// ---------------------------------------------------------------------------
// The plan

/// The lower-cased extension of `src`, or empty when it has none.
pub open spec fn ext_lower(src: Seq<char>) -> Seq<char> {
    match extension_spec(src) {
        Some(e) => ascii_lower(e),
        None => Seq::empty(),
    }
}

/// The file stem of `src`, or empty when it has none.
pub open spec fn stem_or_empty(src: Seq<char>) -> Seq<char> {
    match file_stem_spec(src) {
        Some(s) => s,
        None => Seq::empty(),
    }
}

pub open spec fn slug_error(src: Seq<char>) -> Seq<char> {
    "could not derive a slug from "@ + debug_path(src)
        + " (only ASCII letters and digits are kept; try --slug)"@
}

pub open spec fn shelf_error(shelf: Seq<char>) -> Seq<char> {
    "shelf "@ + debug_str(shelf) + " produced an empty slug"@
}

/// `<collection root>/<dir>` under the corpus.
pub open spec fn under(root: Seq<char>, collection: Seq<char>, dir: Seq<char>) -> Seq<char> {
    join_spec(join_spec(root, collection), dir)
}

/// The per-collection config path for a kind.
pub open spec fn config_path_spec(config_root: Seq<char>, collection: Seq<char>, k: Kind) -> Seq<char> {
    join_spec(join_spec(config_root, collection), config_file_spec(k))
}

/// The full slug: the shelf's slug and the base slug joined by `-`, or the base.
pub open spec fn full_slug_spec(shelf: Option<Seq<char>>, base: Seq<char>) -> Seq<char> {
    match shelf {
        Some(s) => slugify_spec(s) + "-"@ + base,
        None => base,
    }
}

/// The plan `derive` yields once the slug and kind are known.
pub open spec fn plan_for(
    kind: Kind,
    full: Seq<char>,
    ext: Seq<char>,
    collection: Seq<char>,
    corpus_root: Seq<char>,
    config_root: Seq<char>,
) -> PlanView {
    let config_path = config_path_spec(config_root, collection, kind);
    match kind {
        Kind::Pdf => PlanView {
            kind,
            slug: full,
            raw_path: join_spec(under(corpus_root, collection, "pdf"@), full + ".pdf"@),
            ingest_path: join_spec(under(corpus_root, collection, "markdown"@), full),
            source_id_prefix: collection + "/markdown/"@ + full,
            config_path,
        },
        Kind::Ebook => PlanView {
            kind,
            slug: full,
            raw_path: join_spec(under(corpus_root, collection, "ebook"@), full + "."@ + ext),
            ingest_path: join_spec(under(corpus_root, collection, "ebook"@), full + "."@ + ext),
            source_id_prefix: collection + "/ebook/"@ + full + "."@ + ext,
            config_path,
        },
        Kind::Html => PlanView {
            kind,
            slug: full,
            raw_path: join_spec(under(corpus_root, collection, "html"@), full + "."@ + ext),
            ingest_path: join_spec(under(corpus_root, collection, "html"@), full + "."@ + ext),
            source_id_prefix: collection + "/html/"@ + full + "."@ + ext,
            config_path,
        },
        Kind::Code => PlanView {
            kind,
            slug: full,
            raw_path: join_spec(under(corpus_root, collection, "code"@), full + "."@ + ext),
            ingest_path: join_spec(under(corpus_root, collection, "code"@), full + "."@ + ext),
            source_id_prefix: collection + "/code/"@ + full + "."@ + ext,
            config_path,
        },
        Kind::Markdown => PlanView {
            kind,
            slug: full,
            raw_path: join_spec(under(corpus_root, collection, "markdown"@), full),
            ingest_path: join_spec(under(corpus_root, collection, "markdown"@), full),
            source_id_prefix: collection + "/markdown/"@ + full,
            config_path,
        },
    }
}

/// Everything `derive` decides: the error it reports, or the plan.
pub open spec fn derive_spec(
    src: Seq<char>,
    collection: Seq<char>,
    shelf: Option<Seq<char>>,
    slug: Option<Seq<char>>,
    corpus_root: Seq<char>,
    config_root: Seq<char>,
) -> Result<PlanView, Seq<char>> {
    let ext = ext_lower(src);
    let base = slugify_spec(
        match slug {
            Some(s) => s,
            None => stem_or_empty(src),
        },
    );
    if base.len() == 0 {
        Err(slug_error(src))
    } else if shelf.is_some() && slugify_spec(shelf.unwrap()).len() == 0 {
        Err(shelf_error(shelf.unwrap()))
    } else {
        match kind_of_ext(ext) {
            None => Err(unsupported_msg(ext)),
            Some(kind) => Ok(
                plan_for(kind, full_slug_spec(shelf, base), ext, collection, corpus_root, config_root),
            ),
        }
    }
}

fn ext_lower_chars(src: &Vec<char>) -> (r: Vec<char>)
    ensures
        r@ == ext_lower(src@),
{
    match extension_chars(src) {
        Some(e) => lower_chars(&e),
        None => Vec::new(),
    }
}

/// `a` followed by the characters of `b`.
fn cat(a: &Vec<char>, b: &Vec<char>) -> (r: Vec<char>)
    ensures
        r@ == a@ + b@,
{
    let mut r = slice_chars(a, 0, a.len());
    let mut i: usize = 0;
    let ghost base = r@;
    while i < b.len()
        invariant
            i <= b.len(),
            r@ == base + b@.take(i as int),
        decreases b.len() - i,
    {
        r.push(b[i]);
        assert(b@.take(i + 1) == b@.take(i as int).push(b@[i as int]));
        i = i + 1;
    }
    assert(b@.take(b.len() as int) =~= b@);
    assert(a@.subrange(0, a.len() as int) =~= a@);
    r
}

fn cat_lit(a: &Vec<char>, lit: &str) -> (r: Vec<char>)
    ensures
        r@ == a@ + lit@,
{
    cat(a, &lit_chars(lit))
}

fn under_chars(root: &Vec<char>, collection: &Vec<char>, dir: &str) -> (r: Vec<char>)
    ensures
        r@ == under(root@, collection@, dir@),
{
    join_chars(&join_chars(root, collection), &lit_chars(dir))
}

/// The kind and config path from the source name, collection and config root.
fn kind_and_config(src: &Vec<char>, collection: &Vec<char>, config_root: &Vec<char>) -> (r: Result<(Kind, Vec<char>), Vec<char>>)
    ensures
        match r {
            Ok((k, c)) => kind_of_ext(ext_lower(src@)) == Some(k) && c@ == config_path_spec(config_root@, collection@, k),
            Err(m) => kind_of_ext(ext_lower(src@)) is None && m@ == unsupported_msg(ext_lower(src@)),
        },
{
    let ext = ext_lower_chars(src);
    match classify_chars(&ext) {
        None => Err(cat(&lit_chars("unsupported file type: ."), &ext)),
        Some(kind) => {
            let file = config_file_for(&kind);
            let c = join_chars(&join_chars(config_root, collection), &lit_chars(file));
            Ok((kind, c))
        },
    }
}

/// Assemble the plan once the slug and kind are known.
fn build_plan(
    kind: Kind,
    full_slug: &Vec<char>,
    ext: &Vec<char>,
    coll: &Vec<char>,
    root: &Vec<char>,
    config_root: &Vec<char>,
) -> (p: AddPlan)
    ensures
        p@ == plan_for(kind, full_slug@, ext@, coll@, root@, config_root@),
{
    let file = config_file_for(&kind);
    let config_path = string_of(&join_chars(&join_chars(config_root, coll), &lit_chars(file)));
    let slug = string_of(full_slug);
    match kind {
        Kind::Pdf => {
            let raw = join_chars(&under_chars(root, coll, "pdf"), &cat_lit(full_slug, ".pdf"));
            let ingest = join_chars(&under_chars(root, coll, "markdown"), full_slug);
            let prefix = cat(&cat_lit(coll, "/markdown/"), full_slug);
            AddPlan {
                kind,
                slug,
                raw_path: string_of(&raw),
                ingest_path: string_of(&ingest),
                source_id_prefix: string_of(&prefix),
                config_path,
            }
        },
        Kind::Ebook => {
            let file = cat(&cat_lit(full_slug, "."), ext);
            let raw = join_chars(&under_chars(root, coll, "ebook"), &file);
            let prefix = cat(&cat_lit(coll, "/ebook/"), &file);
            AddPlan {
                kind,
                slug,
                raw_path: string_of(&raw),
                ingest_path: string_of(&raw),
                source_id_prefix: string_of(&prefix),
                config_path,
            }
        },
        Kind::Html => {
            let file = cat(&cat_lit(full_slug, "."), ext);
            let raw = join_chars(&under_chars(root, coll, "html"), &file);
            let prefix = cat(&cat_lit(coll, "/html/"), &file);
            AddPlan {
                kind,
                slug,
                raw_path: string_of(&raw),
                ingest_path: string_of(&raw),
                source_id_prefix: string_of(&prefix),
                config_path,
            }
        },
        Kind::Code => {
            let file = cat(&cat_lit(full_slug, "."), ext);
            let raw = join_chars(&under_chars(root, coll, "code"), &file);
            let prefix = cat(&cat_lit(coll, "/code/"), &file);
            AddPlan {
                kind,
                slug,
                raw_path: string_of(&raw),
                ingest_path: string_of(&raw),
                source_id_prefix: string_of(&prefix),
                config_path,
            }
        },
        Kind::Markdown => {
            let raw = join_chars(&under_chars(root, coll, "markdown"), full_slug);
            let prefix = cat(&cat_lit(coll, "/markdown/"), full_slug);
            AddPlan {
                kind,
                slug,
                raw_path: string_of(&raw),
                ingest_path: string_of(&raw),
                source_id_prefix: string_of(&prefix),
                config_path,
            }
        },
    }
}

impl AddPlan {
    /// Resolve just the kind and per-collection config path from the source name
    /// and `config_root`. Neither depends on `corpus_root`, so the caller can load
    /// the config (and thus learn `corpus_root`) before the full `derive`.
    pub fn config_path_for(src: &str, collection: &str, config_root: &str) -> (r: Result<(Kind, String), String>)
        ensures
            match r {
                Ok((k, c)) => kind_of_ext(ext_lower(src@)) == Some(k) && c@ == config_path_spec(
                    config_root@,
                    collection@,
                    k,
                ),
                Err(m) => kind_of_ext(ext_lower(src@)) is None && m@ == unsupported_msg(ext_lower(src@)),
            },
    {
        let s = chars_of(src);
        let c = chars_of(collection);
        let root = chars_of(config_root);
        match kind_and_config(&s, &c, &root) {
            Ok((k, p)) => Ok((k, string_of(&p))),
            Err(m) => Err(string_of(&m)),
        }
    }

    /// Derive the full plan: slug, corpus paths, `source_id` prefix and config path.
    pub fn derive(
        src: &str,
        collection: &str,
        shelf: Option<&str>,
        slug: Option<&str>,
        corpus_root: &str,
        config_root: &str,
    ) -> (r: Result<AddPlan, String>)
        ensures
            match r {
                Ok(plan) => derive_spec(
                    src@,
                    collection@,
                    match shelf { Some(s) => Some(s@), None => None },
                    match slug { Some(s) => Some(s@), None => None },
                    corpus_root@,
                    config_root@,
                ) == Ok::<PlanView, Seq<char>>(plan@),
                Err(m) => derive_spec(
                    src@,
                    collection@,
                    match shelf { Some(s) => Some(s@), None => None },
                    match slug { Some(s) => Some(s@), None => None },
                    corpus_root@,
                    config_root@,
                ) == Err::<PlanView, Seq<char>>(m@),
            },
    {
        let sv = chars_of(src);
        let ext = ext_lower_chars(&sv);
        let stem = match file_stem_chars(&sv) {
            Some(s) => s,
            None => Vec::new(),
        };
        let base_slug = match slug {
            Some(s) => slugify_chars(&chars_of(s)),
            None => slugify_chars(&stem),
        };
        if base_slug.len() == 0 {
            let mut m = owned("could not derive a slug from ");
            push_str(&mut m, path_debug(src).as_str());
            push_str(&mut m, " (only ASCII letters and digits are kept; try --slug)");
            return Err(m);
        }
        let full_slug = match shelf {
            Some(s) => {
                let shelf_slug = slugify_chars(&chars_of(s));
                if shelf_slug.len() == 0 {
                    let mut m = owned("shelf ");
                    push_str(&mut m, str_debug(s).as_str());
                    push_str(&mut m, " produced an empty slug");
                    return Err(m);
                }
                cat(&cat_lit(&shelf_slug, "-"), &base_slug)
            },
            None => base_slug,
        };
        let kind = match classify_chars(&ext) {
            Some(k) => k,
            None => return Err(string_of(&cat(&lit_chars("unsupported file type: ."), &ext))),
        };
        let ghost full = full_slug_spec(
            match shelf { Some(s) => Some(s@), None => None },
            slugify_spec(match slug { Some(s) => s@, None => stem_or_empty(src@) }),
        );
        assert(full_slug@ == full);
        Ok(build_plan(kind, &full_slug, &ext, &chars_of(collection), &chars_of(corpus_root), &chars_of(config_root)))
    }
}

/// The config root of `add`: `$LIBRARIAN_CONFIG_ROOT` when set, else
/// `<home>/.librarian`, with `home` falling back to `/var/lib/librarian`.
pub open spec fn config_root_spec(env_root: Option<Seq<char>>, home: Option<Seq<char>>) -> Seq<char> {
    match env_root {
        Some(r) => r,
        None => join_spec(
            match home {
                Some(h) => h,
                None => "/var/lib/librarian"@,
            },
            ".librarian"@,
        ),
    }
}

/// The config root for the given `$LIBRARIAN_CONFIG_ROOT` and `$HOME`.
pub fn config_root(env_root: Option<&str>, home: Option<&str>) -> (r: String)
    ensures
        r@ == config_root_spec(
            match env_root { Some(x) => Some(x@), None => None },
            match home { Some(h) => Some(h@), None => None },
        ),
{
    match env_root {
        Some(r) => owned(r),
        None => crate::path::join(
            match home {
                Some(h) => h,
                None => "/var/lib/librarian",
            },
            ".librarian",
        ),
    }
}

// ---------------------------------------------------------------------------
// After the plan: ids, ingest config, undo

/// Whether a kind is placed in place (the file itself is the ingest path).
pub open spec fn in_place(k: Kind) -> bool {
    k == Kind::Ebook || k == Kind::Html || k == Kind::Code
}

/// The source ids an add creates: the bare prefix for in-place kinds, and the
/// placed `<prefix>/<slug>.md` for the directory kinds (Pdf, Markdown).
pub open spec fn expected_ids_spec(p: PlanView) -> Seq<Seq<char>> {
    if in_place(p.kind) {
        seq![p.source_id_prefix]
    } else {
        seq![p.source_id_prefix + "/"@ + p.slug + ".md"@]
    }
}

/// Source ids this add creates. In-place kinds ingest under the bare prefix;
/// the dir kinds ingest the single placed markdown file `<prefix>/<slug>.md`.
pub fn expected_source_ids(plan: &AddPlan) -> (r: Vec<String>)
    ensures
        r@.len() == expected_ids_spec(plan@).len(),
        forall|i: int| 0 <= i < r@.len() ==> #[trigger] r@[i]@ == expected_ids_spec(plan@)[i],
{
    match plan.kind {
        Kind::Ebook | Kind::Html | Kind::Code => {
            let mut v: Vec<String> = Vec::new();
            v.push(plan.source_id_prefix.clone());
            v
        },
        Kind::Pdf | Kind::Markdown => {
            let mut s = plan.source_id_prefix.clone();
            push_str(&mut s, "/");
            push_str(&mut s, plan.slug.as_str());
            push_str(&mut s, ".md");
            let mut v: Vec<String> = Vec::new();
            v.push(s);
            v
        },
    }
}

/// The config an add ingests through: PDF previews via `pdf.toml` but ingests
/// its markdown through the sibling `text.toml`; every other kind uses its own.
pub open spec fn ingest_config_spec(p: PlanView) -> Seq<char> {
    if p.kind == Kind::Pdf {
        with_file_name_spec(p.config_path, "text.toml"@)
    } else {
        p.config_path
    }
}

pub fn ingest_config_path(plan: &AddPlan) -> (r: String)
    ensures
        r@ == ingest_config_spec(plan@),
{
    match plan.kind {
        Kind::Pdf => with_file_name(plan.config_path.as_str(), "text.toml"),
        _ => plan.config_path.clone(),
    }
}

/// If `source_id` is `<col>/markdown/<slug>/...`, the `<slug>` segment.
pub open spec fn markdown_slug_spec(id: Seq<char>) -> Option<Seq<char>> {
    match first_index(id, '/') {
        None => None,
        Some(i) => {
            let rest = id.subrange((i + 1) as int, id.len() as int);
            match first_index(rest, '/') {
                None => None,
                Some(j) => if rest.subrange(0, j as int) != "markdown"@ {
                    None
                } else {
                    let tail = rest.subrange((j + 1) as int, rest.len() as int);
                    match first_index(tail, '/') {
                        None => Some(tail),
                        Some(k) => Some(tail.subrange(0, k as int)),
                    }
                },
            }
        },
    }
}

/// If `source_id` is `<col>/markdown/<slug>/...`, return `<slug>` (the path
/// segment right after `markdown/`). Otherwise `None`.
#[verifier::rlimit(50)]
pub fn markdown_slug(source_id: &str) -> (r: Option<String>)
    ensures
        match r {
            Some(s) => markdown_slug_spec(source_id@) == Some(s@),
            None => markdown_slug_spec(source_id@) is None,
        },
{
    let v = chars_of(source_id);
    let n = v.len();
    let i = match find_char(&v, 0, '/') {
        None => {
            assert(v@.subrange(0, n as int) =~= v@);
            return None;
        },
        Some(i) => i,
    };
    assert(v@.subrange(0, n as int) =~= v@);
    proof {
        lemma_first_index(v@, '/');
    }
    let ghost rest = v@.subrange(i + 1, n as int);
    let j = match find_char(&v, i + 1, '/') {
        None => return None,
        Some(j) => j,
    };
    proof {
        lemma_first_index(rest, '/');
    }
    let second = slice_chars(&v, i + 1, j);
    assert(second@ =~= rest.subrange(0, (j - (i + 1)) as int));
    if !eq_lit(&second, "markdown") {
        return None;
    }
    let ghost tail = rest.subrange((j - i) as int, rest.len() as int);
    assert(tail =~= v@.subrange(j + 1, n as int));
    match find_char(&v, j + 1, '/') {
        None => Some(string_of(&slice_chars(&v, j + 1, n))),
        Some(k) => {
            proof {
                lemma_first_index(tail, '/');
            }
            let third = slice_chars(&v, j + 1, k);
            assert(third@ =~= tail.subrange(0, (k - (j + 1)) as int));
            Some(string_of(&third))
        },
    }
}

// ---------------------------------------------------------------------------
// Laws of the plan

/// Every kind but PDF is ingested where it is placed: its ingest path is its raw path.
pub proof fn lemma_only_pdf_moves_for_ingest(
    src: Seq<char>,
    collection: Seq<char>,
    shelf: Option<Seq<char>>,
    slug: Option<Seq<char>>,
    corpus_root: Seq<char>,
    config_root: Seq<char>,
)
    requires
        derive_spec(src, collection, shelf, slug, corpus_root, config_root) is Ok,
    ensures
        ({
            let p = derive_spec(src, collection, shelf, slug, corpus_root, config_root)->Ok_0;
            p.kind != Kind::Pdf ==> p.ingest_path == p.raw_path
        }),
{
}

/// Resolving the config early (`config_path_for`) agrees with the full plan:
/// whenever `derive` succeeds, the early resolution gives its kind and config path.
pub proof fn lemma_config_path_for_agrees_with_derive(
    src: Seq<char>,
    collection: Seq<char>,
    shelf: Option<Seq<char>>,
    slug: Option<Seq<char>>,
    corpus_root: Seq<char>,
    config_root: Seq<char>,
)
    requires
        derive_spec(src, collection, shelf, slug, corpus_root, config_root) is Ok,
    ensures
        ({
            let p = derive_spec(src, collection, shelf, slug, corpus_root, config_root)->Ok_0;
            kind_of_ext(ext_lower(src)) == Some(p.kind) && p.config_path == config_path_spec(
                config_root,
                collection,
                p.kind,
            )
        }),
{
}

/// A slug holds no `/`.
pub proof fn lemma_slug_has_no_slash(t: Seq<char>)
    requires
        forall|i: int| 0 <= i < t.len() ==> slug_char(#[trigger] t[i]),
    ensures
        forall|i: int| 0 <= i < t.len() ==> #[trigger] t[i] != '/',
{
    assert forall|i: int| 0 <= i < t.len() implies #[trigger] t[i] != '/' by {
        assert(slug_char(t[i]));
    }
}

/// In `a/b` with no `/` in `a`, the first `/` is the one right after `a`.
pub proof fn lemma_first_slash_at(a: Seq<char>, b: Seq<char>)
    requires
        forall|i: int| 0 <= i < a.len() ==> #[trigger] a[i] != '/',
    ensures
        first_index(a + seq!['/'] + b, '/') == Some(a.len()),
    decreases a.len(),
{
    let s = a + seq!['/'] + b;
    if a.len() == 0 {
        assert(s[0] == '/');
    } else {
        assert(s[0] == a[0]);
        let a2 = a.drop_first();
        assert forall|i: int| 0 <= i < a2.len() implies #[trigger] a2[i] != '/' by {
            assert(a2[i] == a[i + 1]);
        }
        lemma_first_slash_at(a2, b);
        assert(s.drop_first() =~= a2 + seq!['/'] + b);
    }
}

/// Undo finds what commit placed: the markdown source id of a slug placed in a
/// collection (with no `/` in either) yields that slug back.
pub proof fn lemma_markdown_slug_of_placed_id(collection: Seq<char>, slug: Seq<char>)
    requires
        forall|i: int| 0 <= i < collection.len() ==> #[trigger] collection[i] != '/',
        forall|i: int| 0 <= i < slug.len() ==> #[trigger] slug[i] != '/',
    ensures
        markdown_slug_spec(collection + "/markdown/"@ + slug + "/"@ + slug + ".md"@) == Some(slug),
{
    reveal_strlit("/markdown/");
    reveal_strlit("markdown");
    reveal_strlit("/");
    reveal_strlit(".md");
    let md = "markdown"@;
    let tail = slug + "/"@ + slug + ".md"@;
    let rest = md + seq!['/'] + tail;
    let id = collection + "/markdown/"@ + slug + "/"@ + slug + ".md"@;
    assert(id =~= collection + seq!['/'] + rest);
    lemma_first_slash_at(collection, rest);
    assert(id.subrange((collection.len() + 1) as int, id.len() as int) =~= rest);
    assert forall|i: int| 0 <= i < md.len() implies #[trigger] md[i] != '/' by {}
    lemma_first_slash_at(md, tail);
    assert(rest.subrange(0, md.len() as int) =~= md);
    assert(rest.subrange((md.len() + 1) as int, rest.len() as int) =~= tail);
    assert(tail =~= slug + seq!['/'] + (slug + ".md"@));
    lemma_first_slash_at(slug, slug + ".md"@);
    assert(tail.subrange(0, slug.len() as int) =~= slug);
}

/// The slug of a derived plan is one path segment.
pub proof fn lemma_plan_slug_is_segment(
    src: Seq<char>,
    collection: Seq<char>,
    shelf: Option<Seq<char>>,
    slug: Option<Seq<char>>,
    corpus_root: Seq<char>,
    config_root: Seq<char>,
)
    requires
        derive_spec(src, collection, shelf, slug, corpus_root, config_root) is Ok,
    ensures
        segment(derive_spec(src, collection, shelf, slug, corpus_root, config_root)->Ok_0.slug),
{
    let p = derive_spec(src, collection, shelf, slug, corpus_root, config_root)->Ok_0;
    let base_src = match slug {
        Some(s) => s,
        None => stem_or_empty(src),
    };
    let base = slugify_spec(base_src);
    lemma_slugify_is_slug(base_src);
    lemma_slug_has_no_slash(base);
    let full = full_slug_spec(shelf, base);
    if let Some(sh) = shelf {
        lemma_slugify_is_slug(sh);
        lemma_slug_has_no_slash(slugify_spec(sh));
        reveal_strlit("-");
        assert forall|i: int| 0 <= i < full.len() implies #[trigger] full[i] != '/' by {
            let a = slugify_spec(sh);
            if i < a.len() {
                assert(full[i] == a[i]);
            } else if i > a.len() {
                assert(full[i] == base[i - a.len() - 1]);
            }
        }
    }
    assert(p.slug == full);
}

/// A derived plan's markdown id leads `undo` back to the plan's slug (so it can
/// find the archived PDF), whenever the collection name holds no `/`.
pub proof fn lemma_undo_recovers_slug(
    src: Seq<char>,
    collection: Seq<char>,
    shelf: Option<Seq<char>>,
    slug: Option<Seq<char>>,
    corpus_root: Seq<char>,
    config_root: Seq<char>,
)
    requires
        derive_spec(src, collection, shelf, slug, corpus_root, config_root) is Ok,
        forall|i: int| 0 <= i < collection.len() ==> #[trigger] collection[i] != '/',
    ensures
        ({
            let p = derive_spec(src, collection, shelf, slug, corpus_root, config_root)->Ok_0;
            !in_place(p.kind) ==> markdown_slug_spec(expected_ids_spec(p)[0]) == Some(p.slug)
        }),
{
    let p = derive_spec(src, collection, shelf, slug, corpus_root, config_root)->Ok_0;
    lemma_plan_slug_is_segment(src, collection, shelf, slug, corpus_root, config_root);
    if !in_place(p.kind) {
        lemma_markdown_slug_of_placed_id(collection, p.slug);
        assert(expected_ids_spec(p)[0] == collection + "/markdown/"@ + p.slug + "/"@ + p.slug + ".md"@);
    }
}

/// The extension table: `pdf` is a PDF; `epub`, `mobi`, `azw3` and `azw` are
/// ebooks; `html` and `htm` are HTML; `md` is markdown; `rs`, `py`, `c`,
/// `cpp`, `h`, `hpp`, `go`, `js`, `ts` and `java` are code; every other
/// extension is unsupported.
pub proof fn lemma_extension_table(e: Seq<char>)
    ensures
        e == "pdf"@ ==> kind_of_ext(e) == Some(Kind::Pdf),
        (e == "epub"@ || e == "mobi"@ || e == "azw3"@ || e == "azw"@) ==> kind_of_ext(e) == Some(
            Kind::Ebook,
        ),
        (e == "html"@ || e == "htm"@) ==> kind_of_ext(e) == Some(Kind::Html),
        e == "md"@ ==> kind_of_ext(e) == Some(Kind::Markdown),
        (e == "rs"@ || e == "py"@ || e == "c"@ || e == "cpp"@ || e == "h"@ || e == "hpp"@ || e
            == "go"@ || e == "js"@ || e == "ts"@ || e == "java"@) ==> kind_of_ext(e) == Some(
            Kind::Code,
        ),
        !(e == "pdf"@ || e == "epub"@ || e == "mobi"@ || e == "azw3"@ || e == "azw"@ || e
            == "html"@ || e == "htm"@ || e == "md"@ || e == "rs"@ || e == "py"@ || e == "c"@ || e
            == "cpp"@ || e == "h"@ || e == "hpp"@ || e == "go"@ || e == "js"@ || e == "ts"@ || e
            == "java"@) ==> kind_of_ext(e) is None,
{
    reveal_strlit("pdf");
    reveal_strlit("epub");
    reveal_strlit("mobi");
    reveal_strlit("azw3");
    reveal_strlit("azw");
    reveal_strlit("html");
    reveal_strlit("htm");
    reveal_strlit("md");
    reveal_strlit("rs");
    reveal_strlit("py");
    reveal_strlit("c");
    reveal_strlit("cpp");
    reveal_strlit("h");
    reveal_strlit("hpp");
    reveal_strlit("go");
    reveal_strlit("js");
    reveal_strlit("ts");
    reveal_strlit("java");
    assert("epub"@.len() != "pdf"@.len());
    assert("mobi"@.len() != "pdf"@.len());
    assert("azw3"@.len() != "pdf"@.len());
    assert("azw"@[0] != "pdf"@[0]);
    assert("html"@.len() != "pdf"@.len());
    assert("html"@[0] != "epub"@[0]);
    assert("html"@[0] != "mobi"@[0]);
    assert("html"@[0] != "azw3"@[0]);
    assert("html"@.len() != "azw"@.len());
    assert("htm"@[0] != "pdf"@[0]);
    assert("htm"@.len() != "epub"@.len());
    assert("htm"@.len() != "mobi"@.len());
    assert("htm"@.len() != "azw3"@.len());
    assert("htm"@[0] != "azw"@[0]);
    assert("md"@.len() != "pdf"@.len());
    assert("md"@.len() != "epub"@.len());
    assert("md"@.len() != "mobi"@.len());
    assert("md"@.len() != "azw3"@.len());
    assert("md"@.len() != "azw"@.len());
    assert("md"@.len() != "html"@.len());
    assert("md"@.len() != "htm"@.len());
    assert("rs"@.len() != "pdf"@.len());
    assert("rs"@.len() != "epub"@.len());
    assert("rs"@.len() != "mobi"@.len());
    assert("rs"@.len() != "azw3"@.len());
    assert("rs"@.len() != "azw"@.len());
    assert("rs"@.len() != "html"@.len());
    assert("rs"@.len() != "htm"@.len());
    assert("rs"@[0] != "md"@[0]);
    assert("py"@.len() != "pdf"@.len());
    assert("py"@.len() != "epub"@.len());
    assert("py"@.len() != "mobi"@.len());
    assert("py"@.len() != "azw3"@.len());
    assert("py"@.len() != "azw"@.len());
    assert("py"@.len() != "html"@.len());
    assert("py"@.len() != "htm"@.len());
    assert("py"@[0] != "md"@[0]);
    assert("c"@.len() != "pdf"@.len());
    assert("c"@.len() != "epub"@.len());
    assert("c"@.len() != "mobi"@.len());
    assert("c"@.len() != "azw3"@.len());
    assert("c"@.len() != "azw"@.len());
    assert("c"@.len() != "html"@.len());
    assert("c"@.len() != "htm"@.len());
    assert("c"@.len() != "md"@.len());
    assert("cpp"@[0] != "pdf"@[0]);
    assert("cpp"@.len() != "epub"@.len());
    assert("cpp"@.len() != "mobi"@.len());
    assert("cpp"@.len() != "azw3"@.len());
    assert("cpp"@[0] != "azw"@[0]);
    assert("cpp"@.len() != "html"@.len());
    assert("cpp"@[0] != "htm"@[0]);
    assert("cpp"@.len() != "md"@.len());
    assert("h"@.len() != "pdf"@.len());
    assert("h"@.len() != "epub"@.len());
    assert("h"@.len() != "mobi"@.len());
    assert("h"@.len() != "azw3"@.len());
    assert("h"@.len() != "azw"@.len());
    assert("h"@.len() != "html"@.len());
    assert("h"@.len() != "htm"@.len());
    assert("h"@.len() != "md"@.len());
    assert("hpp"@[0] != "pdf"@[0]);
    assert("hpp"@.len() != "epub"@.len());
    assert("hpp"@.len() != "mobi"@.len());
    assert("hpp"@.len() != "azw3"@.len());
    assert("hpp"@[0] != "azw"@[0]);
    assert("hpp"@.len() != "html"@.len());
    assert("hpp"@[1] != "htm"@[1]);
    assert("hpp"@.len() != "md"@.len());
    assert("go"@.len() != "pdf"@.len());
    assert("go"@.len() != "epub"@.len());
    assert("go"@.len() != "mobi"@.len());
    assert("go"@.len() != "azw3"@.len());
    assert("go"@.len() != "azw"@.len());
    assert("go"@.len() != "html"@.len());
    assert("go"@.len() != "htm"@.len());
    assert("go"@[0] != "md"@[0]);
    assert("js"@.len() != "pdf"@.len());
    assert("js"@.len() != "epub"@.len());
    assert("js"@.len() != "mobi"@.len());
    assert("js"@.len() != "azw3"@.len());
    assert("js"@.len() != "azw"@.len());
    assert("js"@.len() != "html"@.len());
    assert("js"@.len() != "htm"@.len());
    assert("js"@[0] != "md"@[0]);
    assert("ts"@.len() != "pdf"@.len());
    assert("ts"@.len() != "epub"@.len());
    assert("ts"@.len() != "mobi"@.len());
    assert("ts"@.len() != "azw3"@.len());
    assert("ts"@.len() != "azw"@.len());
    assert("ts"@.len() != "html"@.len());
    assert("ts"@.len() != "htm"@.len());
    assert("ts"@[0] != "md"@[0]);
    assert("java"@.len() != "pdf"@.len());
    assert("java"@[0] != "epub"@[0]);
    assert("java"@[0] != "mobi"@[0]);
    assert("java"@[0] != "azw3"@[0]);
    assert("java"@.len() != "azw"@.len());
    assert("java"@[0] != "html"@[0]);
    assert("java"@.len() != "htm"@.len());
    assert("java"@.len() != "md"@.len());
}

/// Whenever the slug (and the shelf's slug, if any) is non-empty, `derive`
/// succeeds for every extension of the table, with the kind the table gives,
/// and refuses every other extension as unsupported.
pub proof fn lemma_derive_kind_by_extension(
    src: Seq<char>,
    collection: Seq<char>,
    shelf: Option<Seq<char>>,
    slug: Option<Seq<char>>,
    corpus_root: Seq<char>,
    config_root: Seq<char>,
)
    requires
        slugify_spec(
            match slug {
                Some(s) => s,
                None => stem_or_empty(src),
            },
        ).len() > 0,
        match shelf {
            Some(s) => slugify_spec(s).len() > 0,
            None => true,
        },
    ensures
        ({
            let e = ext_lower(src);
            let d = derive_spec(src, collection, shelf, slug, corpus_root, config_root);
            &&& e == "pdf"@ ==> d is Ok && d->Ok_0.kind == Kind::Pdf
            &&& (e == "epub"@ || e == "mobi"@ || e == "azw3"@ || e == "azw"@) ==> d is Ok
                && d->Ok_0.kind == Kind::Ebook
            &&& (e == "html"@ || e == "htm"@) ==> d is Ok && d->Ok_0.kind == Kind::Html
            &&& e == "md"@ ==> d is Ok && d->Ok_0.kind == Kind::Markdown
            &&& (e == "rs"@ || e == "py"@ || e == "c"@ || e == "cpp"@ || e == "h"@ || e == "hpp"@
                || e == "go"@ || e == "js"@ || e == "ts"@ || e == "java"@) ==> d is Ok
                && d->Ok_0.kind == Kind::Code
            &&& !(e == "pdf"@ || e == "epub"@ || e == "mobi"@ || e == "azw3"@ || e == "azw"@ || e
                == "html"@ || e == "htm"@ || e == "md"@ || e == "rs"@ || e == "py"@ || e == "c"@
                || e == "cpp"@ || e == "h"@ || e == "hpp"@ || e == "go"@ || e == "js"@ || e
                == "ts"@ || e == "java"@) ==> d == Err::<PlanView, Seq<char>>(
                "unsupported file type: ."@ + e,
            )
        }),
{
    lemma_extension_table(ext_lower(src));
}

} // verus!
