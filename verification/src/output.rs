//! Rendering decisions: the audience (human / JSON / color) and the small style
//! helpers, including the highlighting of query words in hit text.

use vstd::prelude::*;
use crate::text::{
    append_range, ascii_lower, chars_of, find_chars, find_from, is_whitespace, is_ws,
    lemma_find_from, lower_chars, lowercase, owned, push_str, string_of, to_lowercase,
};

verus! {

/// One extracted chunk.
#[derive(Debug, Clone)]
pub struct Chunk {
    pub chunk_index: u64,
    pub text: String,
}

/// How to render output, resolved once from the global flags and environment.
#[derive(Debug, Clone, Copy)]
pub struct Render {
    pub json: bool,
    pub color: bool,
    pub quiet: bool,
    pub verbose: bool,
    /// Whether stdout is a terminal (tips and progress that would pollute a pipe are shown only then).
    pub tty: bool,
}

impl Render {
    /// Color is on only when not `--json`, not `--no-color`, `NO_COLOR` is unset
    /// (`no_color_env` false) and stdout is a terminal (`tty`).
    pub fn resolve(json: bool, no_color: bool, quiet: bool, verbose: bool, no_color_env: bool, tty: bool) -> (r: Render)
        ensures
            r.json == json,
            r.color == (!json && !no_color && !no_color_env && tty),
            r.quiet == quiet,
            r.verbose == verbose,
            r.tty == tty,
    {
        let color = !json && !no_color && !no_color_env && tty;
        Render { json, color, quiet, verbose, tty }
    }
}

pub open spec fn bold_on() -> Seq<char> {
    "\x1b[1m"@
}

pub open spec fn dim_on() -> Seq<char> {
    "\x1b[2m"@
}

pub open spec fn reset() -> Seq<char> {
    "\x1b[0m"@
}

/// Dim `s` when color is on.
pub fn dim(r: Render, s: &str) -> (out: String)
    ensures
        out@ == if r.color {
            dim_on() + s@ + reset()
        } else {
            s@
        },
{
    if r.color {
        let mut o = owned("\x1b[2m");
        push_str(&mut o, s);
        push_str(&mut o, "\x1b[0m");
        o
    } else {
        owned(s)
    }
}

/// Bold `s` when color is on.
pub fn bold(r: Render, s: &str) -> (out: String)
    ensures
        out@ == if r.color {
            bold_on() + s@ + reset()
        } else {
            s@
        },
{
    if r.color {
        let mut o = owned("\x1b[1m");
        push_str(&mut o, s);
        push_str(&mut o, "\x1b[0m");
        o
    } else {
        owned(s)
    }
}

/// `text` from `idx` on, with every match of `needle` in `lower` (scanning left
/// to right, matches not overlapping) wrapped in bold.
pub open spec fn bold_from(text: Seq<char>, lower: Seq<char>, needle: Seq<char>, idx: nat) -> Seq<char>
    decreases text.len() - idx,
{
    if needle.len() == 0 || idx > text.len() || lower.len() != text.len() {
        text.subrange(idx as int, text.len() as int)
    } else {
        match find_from(lower, needle, idx) {
            None => text.subrange(idx as int, text.len() as int),
            Some(start) => {
                proof {
                    lemma_find_from(lower, needle, idx);
                }
                text.subrange(idx as int, start as int) + bold_on() + text.subrange(
                    start as int,
                    (start + needle.len()) as int,
                ) + reset() + bold_from(text, lower, needle, (start + needle.len()) as nat)
            },
        }
    }
}

/// Bold every case-insensitive occurrence of `term` in `text`; non-ASCII text
/// is left as is.
pub open spec fn bold_term(text: Seq<char>, term: Seq<char>) -> Seq<char> {
    if !vstd::utf8::is_ascii_chars(text) {
        text
    } else {
        bold_from(text, ascii_lower(text), lowercase(term), 0)
    }
}

fn highlight_term(text: &str, term: &str) -> (r: String)
    requires
        term@.len() > 0,
    ensures
        r@ == bold_term(text@, term@),
{
    if !text.is_ascii() {
        return owned(text);
    }
    let t = chars_of(text);
    let lower = lower_chars(&t);
    let needle = chars_of(to_lowercase(term).as_str());
    let mut out = String::new();
    let mut idx: usize = 0;
    assert(bold_from(t@, lower@, needle@, 0) == bold_from(t@, lower@, needle@, 0));
    loop
        invariant
            idx <= t.len(),
            lower.len() == t.len(),
            needle@.len() > 0,
            lower@ == ascii_lower(t@),
            t@ == text@,
            needle@ == lowercase(term@),
            vstd::utf8::is_ascii_chars(text@),
            out@ + bold_from(t@, lower@, needle@, idx as nat) == bold_from(t@, lower@, needle@, 0),
        decreases t.len() - idx,
    {
        proof {
            lemma_find_from(lower@, needle@, idx as nat);
        }
        match find_chars(&lower, &needle, idx) {
            None => {
                append_range(&mut out, &t, idx, t.len());
                return out;
            },
            Some(start) => {
                let end = start + needle.len();
                append_range(&mut out, &t, idx, start);
                push_str(&mut out, "\x1b[1m");
                append_range(&mut out, &t, start, end);
                push_str(&mut out, "\x1b[0m");
                idx = end;
            },
        }
    }
}

/// Flush a finished query word into the highlighted text: words of at least
/// three characters are highlighted, shorter ones ignored.
pub open spec fn flush_word(out: Seq<char>, word: Seq<char>) -> Seq<char> {
    if word.len() >= 3 {
        bold_term(out, word)
    } else {
        out
    }
}

/// Highlight the whitespace-separated words of `rest` in `out`, with `word` the
/// word read so far.
pub open spec fn highlight_words(out: Seq<char>, word: Seq<char>, rest: Seq<char>) -> Seq<char>
    decreases rest.len(),
{
    if rest.len() == 0 {
        flush_word(out, word)
    } else if is_ws(rest[0]) {
        highlight_words(flush_word(out, word), Seq::empty(), rest.drop_first())
    } else {
        highlight_words(out, word.push(rest[0]), rest.drop_first())
    }
}

/// Bold the query's words (of at least three characters) where they appear in
/// `text`, case-insensitively. No-op when color is off.
pub fn highlight(r: Render, text: &str, query: &str) -> (out: String)
    ensures
        out@ == if r.color {
            highlight_words(text@, Seq::empty(), query@)
        } else {
            text@
        },
{
    if !r.color {
        return owned(text);
    }
    let q = chars_of(query);
    let mut out = owned(text);
    let mut word: Vec<char> = Vec::new();
    let mut i: usize = 0;
    assert(q@.subrange(0, q.len() as int) =~= q@);
    while i < q.len()
        invariant
            i <= q.len(),
            highlight_words(out@, word@, q@.subrange(i as int, q.len() as int)) == highlight_words(
                text@,
                Seq::empty(),
                query@,
            ),
            q@ == query@,
        decreases q.len() - i,
    {
        let ghost rest = q@.subrange(i as int, q.len() as int);
        assert(rest[0] == q@[i as int]);
        assert(rest.drop_first() =~= q@.subrange(i + 1, q.len() as int));
        if is_whitespace(q[i]) {
            if word.len() >= 3 {
                out = highlight_term(out.as_str(), string_of(&word).as_str());
            }
            word = Vec::new();
            assert(word@ =~= Seq::<char>::empty());
        } else {
            word.push(q[i]);
        }
        i = i + 1;
    }
    if word.len() >= 3 {
        out = highlight_term(out.as_str(), string_of(&word).as_str());
    }
    out
}

/// Highlighting ignores the case of the query term: terms with the same
/// lower-case form highlight the same text the same way.
pub proof fn lemma_highlight_ignores_term_case(text: Seq<char>, t1: Seq<char>, t2: Seq<char>)
    requires
        lowercase(t1) == lowercase(t2),
    ensures
        bold_term(text, t1) == bold_term(text, t2),
{
}

} // verus!
