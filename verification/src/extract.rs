//! The chunk window that `librarian extract` reads: a `<source_id>#<index>`
//! token from a query hit, centred with `--context`, or an explicit
//! `--start` / `--end`.

use vstd::prelude::*;
use crate::config::{all_digits, digits_value, lemma_digits_value_grows};
use crate::text::{chars_of, is_ascii_digit, is_digit, last_index, lemma_last_index, owned, rfind_char, slice_chars, string_of};

verus! {

/// A token split at its last `#`: the source id, and the chunk index when what
/// follows the `#` is a non-empty run of ASCII digits whose value fits a `u32`.
/// Any other token is a bare source id.
pub open spec fn token_split(t: Seq<char>) -> (Seq<char>, Option<u32>) {
    match last_index(t, '#') {
        Some(k) => {
            let tail = t.subrange(k + 1int, t.len() as int);
            if tail.len() > 0 && all_digits(tail) && digits_value(tail) <= u32::MAX {
                (t.subrange(0, k as int), Some(digits_value(tail) as u32))
            } else {
                (t, None)
            }
        },
        None => (t, None),
    }
}

/// `a + b`, saturating at `u32::MAX`.
pub open spec fn sat_add(a: u32, b: u32) -> u32 {
    if a + b > u32::MAX {
        u32::MAX
    } else {
        (a + b) as u32
    }
}

/// `a - b`, saturating at 0.
pub open spec fn sat_sub(a: u32, b: u32) -> u32 {
    if a < b {
        0
    } else {
        (a - b) as u32
    }
}

/// First chunk of the window: `--start` when given, else `context` chunks
/// before the token's index, else the first chunk.
pub open spec fn window_start(index: Option<u32>, context: u32, start: Option<u32>) -> u32 {
    match start {
        Some(s) => s,
        None => match index {
            Some(i) => sat_sub(i, context),
            None => 0,
        },
    }
}

/// End of the window (exclusive): `--end` when given; else, centred on the
/// token's index, `context` chunks after it; else 20 chunks after the start.
pub open spec fn window_end(index: Option<u32>, context: u32, start: Option<u32>, end: Option<u32>) -> u32 {
    match end {
        Some(e) => e,
        None => match (start, index) {
            (None, Some(i)) => sat_add(sat_add(i, context), 1),
            _ => sat_add(window_start(index, context, start), 20),
        },
    }
}

/// The window to read.
#[derive(Debug)]
pub struct ExtractWindow {
    pub source_id: String,
    pub start: u32,
    pub end: u32,
}

/// `v[from..]` as a `u32` when it is a non-empty run of ASCII digits whose
/// value fits; `None` otherwise.
fn parse_index(v: &Vec<char>, from: usize) -> (r: Option<u32>)
    requires
        from <= v.len(),
    ensures
        ({
            let tail = v@.subrange(from as int, v@.len() as int);
            match r {
                Some(x) => tail.len() > 0 && all_digits(tail) && x as nat == digits_value(tail),
                None => !(tail.len() > 0 && all_digits(tail) && digits_value(tail) <= u32::MAX),
            }
        }),
{
    let ghost tail = v@.subrange(from as int, v@.len() as int);
    if from == v.len() {
        return None;
    }
    let mut i = from;
    while i < v.len()
        invariant
            from <= i <= v.len(),
            tail == v@.subrange(from as int, v@.len() as int),
            forall|j: int| 0 <= j < i - from ==> is_ascii_digit(#[trigger] tail[j]),
        decreases v.len() - i,
    {
        if !is_digit(v[i]) {
            assert(tail[i - from] == v@[i as int]);
            return None;
        }
        assert(tail[i - from] == v@[i as int]);
        i = i + 1;
    }
    assert(all_digits(tail));
    let mut acc: u64 = 0;
    let mut i = from;
    while i < v.len()
        invariant
            from <= i <= v.len(),
            tail == v@.subrange(from as int, v@.len() as int),
            all_digits(tail),
            acc as nat == digits_value(tail.take(i - from)),
            acc <= u32::MAX,
        decreases v.len() - i,
    {
        let c = v[i];
        assert(tail[i - from] == c);
        assert(tail.take(i - from + 1).drop_last() =~= tail.take(i - from));
        let d = (c as u32 - 48) as u64;
        acc = acc * 10 + d;
        if acc > 4294967295 {
            proof {
                lemma_digits_value_grows(tail, i - from + 1);
            }
            return None;
        }
        i = i + 1;
    }
    assert(tail.take(i - from) =~= tail);
    Some(acc as u32)
}

/// Split a query-hit token into its source id and chunk index (see `token_split`).
pub fn parse_token(token: &str) -> (r: (String, Option<u32>))
    ensures
        (r.0@, r.1) == token_split(token@),
{
    let v = chars_of(token);
    match rfind_char(&v, v.len(), '#') {
        Some(k) => {
            assert(v@.subrange(0, v.len() as int) =~= v@);
            proof {
                lemma_last_index(v@, '#');
            }
            match parse_index(&v, k + 1) {
                Some(i) => {
                    let head = slice_chars(&v, 0, k);
                    (string_of(&head), Some(i))
                },
                None => (owned(token), None),
            }
        },
        None => {
            assert(v@.subrange(0, v.len() as int) =~= v@);
            (owned(token), None)
        },
    }
}

/// The window `librarian extract` reads for `token` with `--context`,
/// `--start` and `--end`.
pub fn extract_window(token: &str, context: u32, start: Option<u32>, end: Option<u32>) -> (r: ExtractWindow)
    ensures
        r.source_id@ == token_split(token@).0,
        r.start == window_start(token_split(token@).1, context, start),
        r.end == window_end(token_split(token@).1, context, start, end),
{
    let (source_id, index) = parse_token(token);
    let s = match start {
        Some(s) => s,
        None => match index {
            Some(i) => i.saturating_sub(context),
            None => 0,
        },
    };
    let e = match end {
        Some(e) => e,
        None => match (start, index) {
            (None, Some(i)) => i.saturating_add(context).saturating_add(1),
            _ => s.saturating_add(20),
        },
    };
    ExtractWindow { source_id, start: s, end: e }
}

/// The token's index centres the window: without `--start` / `--end` the
/// window holds the indexed chunk (when it is below `u32::MAX`), and when the
/// context fits on both sides it is exactly `context` chunks either side.
pub proof fn lemma_window_centres_index(i: u32, context: u32)
    ensures
        i < u32::MAX ==> window_start(Some(i), context, None) <= i < window_end(
            Some(i),
            context,
            None,
            None,
        ),
        context <= i && i + context < u32::MAX ==> {
            &&& window_start(Some(i), context, None) == i - context
            &&& window_end(Some(i), context, None, None) == i + context + 1
        },
{
}

} // verus!
