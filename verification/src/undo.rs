//! `librarian add --undo <source_id>`: which config locates the collection, and
//! which corpus files the undo deletes.

use vstd::prelude::*;
use crate::commit::{markdown_file_spec, placement_spec};
use crate::path::{join, join_spec, segment};
use crate::plan::{
    derive_spec, expected_ids_spec, in_place, lemma_first_slash_at,
    lemma_markdown_slug_of_placed_id, lemma_plan_slug_is_segment, markdown_slug,
    markdown_slug_spec, under, Kind,
};
use crate::text::{owned, push_str};

verus! {

/// The collection's `text.toml`: `<config_root>/<collection>/text.toml`.
pub open spec fn undo_config_spec(config_root: Seq<char>, collection: Seq<char>) -> Seq<char> {
    join_spec(join_spec(config_root, collection), "text.toml"@)
}

pub fn undo_config_path(config_root: &str, collection: &str) -> (r: String)
    ensures
        r@ == undo_config_spec(config_root@, collection@),
{
    join(join(config_root, collection).as_str(), "text.toml")
}

/// The error when the collection has no `text.toml` at `path`.
pub fn missing_config_error(collection: &str, path: &str) -> (r: String)
    ensures
        r@ == "no text.toml for collection "@ + collection@ + " at "@ + path@
            + " (every collection needs one to undo)"@,
{
    let mut m = owned("no text.toml for collection ");
    push_str(&mut m, collection);
    push_str(&mut m, " at ");
    push_str(&mut m, path);
    push_str(&mut m, " (every collection needs one to undo)");
    m
}

/// The archived PDF of a markdown source id `<col>/markdown/<slug>/...`:
/// `<corpus_root>/<collection>/pdf/<slug>.pdf`.
pub open spec fn archived_pdf_spec(source_id: Seq<char>, collection: Seq<char>, corpus_root: Seq<char>) -> Option<Seq<char>> {
    match markdown_slug_spec(source_id) {
        Some(s) => Some(join_spec(under(corpus_root, collection, "pdf"@), s + ".pdf"@)),
        None => None,
    }
}

/// The corpus files an undo deletes: the placed file, and the archived PDF
/// behind a markdown source id (deleted only when it exists).
#[derive(Debug)]
pub struct UndoTargets {
    pub placed: String,
    pub archived_pdf: Option<String>,
}

pub fn undo_targets(source_id: &str, collection: &str, corpus_root: &str) -> (r: UndoTargets)
    ensures
        r.placed@ == join_spec(corpus_root@, source_id@),
        match r.archived_pdf {
            Some(a) => archived_pdf_spec(source_id@, collection@, corpus_root@) == Some(a@),
            None => archived_pdf_spec(source_id@, collection@, corpus_root@) is None,
        },
{
    let placed = join(corpus_root, source_id);
    let archived_pdf = match markdown_slug(source_id) {
        Some(s) => {
            let dir = join(join(corpus_root, collection).as_str(), "pdf");
            let mut name = s;
            push_str(&mut name, ".pdf");
            Some(join(dir.as_str(), name.as_str()))
        },
        None => None,
    };
    UndoTargets { placed, archived_pdf }
}

/// The line after an undo.
pub fn undone_line(source_id: &str) -> (r: String)
    ensures
        r@ == "undone "@ + source_id@,
{
    let mut m = owned("undone ");
    push_str(&mut m, source_id);
    m
}

// ---------------------------------------------------------------------------
// Undo reverses a commit

/// Joining a relative `x/y` is joining `x`, then `y`.
proof fn lemma_join_seq(a: Seq<char>, x: Seq<char>, y: Seq<char>)
    requires
        segment(x),
        y.len() == 0 || y[0] != '/',
    ensures
        join_spec(a, x + "/"@ + y) == join_spec(join_spec(a, x), y),
{
    reveal_strlit("/");
    let xy = x + "/"@ + y;
    assert(xy[0] == x[0]);
    let ax = join_spec(a, x);
    assert(ax.last() == x.last());
    if a.len() > 0 && a.last() != '/' {
        assert(join_spec(a, xy) =~= a + seq!['/'] + x + seq!['/'] + y);
        assert(join_spec(ax, y) =~= a + seq!['/'] + x + seq!['/'] + y);
    } else {
        assert(join_spec(a, xy) =~= a + x + seq!['/'] + y);
        assert(join_spec(ax, y) =~= a + x + seq!['/'] + y);
    }
}

/// The markdown id `<col>/markdown/<slug>/<slug>.md`, joined to the corpus
/// root, is the markdown file under `<corpus>/<col>/markdown/<slug>`.
proof fn lemma_markdown_id_path(corpus_root: Seq<char>, collection: Seq<char>, full: Seq<char>)
    requires
        segment(collection),
        segment(full),
    ensures
        join_spec(corpus_root, collection + "/markdown/"@ + full + "/"@ + full + ".md"@) == join_spec(
            join_spec(under(corpus_root, collection, "markdown"@), full),
            full + ".md"@,
        ),
{
    reveal_strlit("/markdown/");
    reveal_strlit("markdown");
    reveal_strlit("/");
    reveal_strlit(".md");
    let md = "markdown"@;
    assert(segment(md));
    let file = full + ".md"@;
    assert(file[0] == full[0]);
    let tail = full + "/"@ + file;
    let rest = md + "/"@ + tail;
    assert(collection + "/markdown/"@ + full + "/"@ + file =~= collection + "/"@ + rest);
    assert(rest[0] == 'm');
    assert(tail[0] == full[0]);
    lemma_join_seq(corpus_root, collection, rest);
    lemma_join_seq(join_spec(corpus_root, collection), md, tail);
    lemma_join_seq(join_spec(join_spec(corpus_root, collection), md), full, file);
}

/// An id `<col>/<dir>/<file>` with `dir` other than `markdown`, joined to the
/// corpus root, is `<corpus>/<col>/<dir>/<file>`, and has no markdown slug.
proof fn lemma_in_place_id_path(corpus_root: Seq<char>, collection: Seq<char>, dir: Seq<char>, file: Seq<char>)
    requires
        segment(collection),
        segment(dir),
        dir != "markdown"@,
        file.len() > 0 && file[0] != '/',
    ensures
        join_spec(corpus_root, collection + "/"@ + dir + "/"@ + file) == join_spec(
            under(corpus_root, collection, dir),
            file,
        ),
        markdown_slug_spec(collection + "/"@ + dir + "/"@ + file) is None,
{
    reveal_strlit("/");
    let rest = dir + "/"@ + file;
    let id = collection + "/"@ + dir + "/"@ + file;
    assert(id =~= collection + "/"@ + rest);
    assert(rest[0] == dir[0]);
    lemma_join_seq(corpus_root, collection, rest);
    lemma_join_seq(join_spec(corpus_root, collection), dir, file);
    lemma_first_slash_at(collection, rest);
    assert(id =~= collection + seq!['/'] + rest);
    assert(id.subrange((collection.len() + 1) as int, id.len() as int) =~= rest);
    lemma_first_slash_at(dir, file);
    assert(rest =~= dir + seq!['/'] + file);
    assert(rest.subrange(0, dir.len() as int) =~= dir);
}

/// Undo reverses a commit: undoing the source id an add created deletes the
/// very file the commit placed (the placed file itself for in-place kinds, the
/// durable markdown for PDF and markdown adds), looks for an archived PDF only
/// behind a markdown id, and for a PDF add finds it at the plan's raw path;
/// whenever the collection name is one path segment.
pub proof fn lemma_undo_removes_committed_files(
    src: Seq<char>,
    collection: Seq<char>,
    shelf: Option<Seq<char>>,
    slug: Option<Seq<char>>,
    corpus_root: Seq<char>,
    config_root: Seq<char>,
)
    requires
        derive_spec(src, collection, shelf, slug, corpus_root, config_root) is Ok,
        segment(collection),
    ensures
        ({
            let p = derive_spec(src, collection, shelf, slug, corpus_root, config_root)->Ok_0;
            let id = expected_ids_spec(p)[0];
            &&& join_spec(corpus_root, id) == if in_place(p.kind) {
                placement_spec(p).place_at
            } else {
                markdown_file_spec(p)
            }
            &&& in_place(p.kind) ==> archived_pdf_spec(id, collection, corpus_root) is None
            &&& p.kind == Kind::Pdf ==> archived_pdf_spec(id, collection, corpus_root) == Some(
                p.raw_path,
            )
        }),
{
    let p = derive_spec(src, collection, shelf, slug, corpus_root, config_root)->Ok_0;
    lemma_plan_slug_is_segment(src, collection, shelf, slug, corpus_root, config_root);
    let full = p.slug;
    let id = expected_ids_spec(p)[0];
    let ext = crate::plan::ext_lower(src);
    reveal_strlit(".");
    match p.kind {
        Kind::Pdf | Kind::Markdown => {
            lemma_markdown_id_path(corpus_root, collection, full);
            lemma_markdown_slug_of_placed_id(collection, full);
        },
        Kind::Ebook => {
            reveal_strlit("/ebook/");
            reveal_strlit("ebook");
            reveal_strlit("markdown");
            reveal_strlit("/");
            assert(id =~= collection + "/"@ + "ebook"@ + "/"@ + (full + "."@ + ext));
            lemma_in_place_id_path(corpus_root, collection, "ebook"@, full + "."@ + ext);
        },
        Kind::Html => {
            reveal_strlit("/html/");
            reveal_strlit("html");
            reveal_strlit("markdown");
            reveal_strlit("/");
            assert(id =~= collection + "/"@ + "html"@ + "/"@ + (full + "."@ + ext));
            lemma_in_place_id_path(corpus_root, collection, "html"@, full + "."@ + ext);
        },
        Kind::Code => {
            reveal_strlit("/code/");
            reveal_strlit("code");
            reveal_strlit("markdown");
            reveal_strlit("/");
            assert(id =~= collection + "/"@ + "code"@ + "/"@ + (full + "."@ + ext));
            lemma_in_place_id_path(corpus_root, collection, "code"@, full + "."@ + ext);
        },
    }
}

} // verus!
