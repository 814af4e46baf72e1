//! Retrieval-health metrics that need no floating point: the fragment test and
//! the rank of the first relevant hit.

use vstd::prelude::*;
use crate::text::{
    chars_of, contains, contains_chars, lemma_leading_ws_bound, leading_ws, lowercase, skip_ws,
    to_lowercase, trim_start,
};

verus! {

/// One golden probe: a question and the source-id substrings that count as relevant.
#[derive(Debug)]
pub struct GoldenItem {
    pub q: String,
    pub relevant: Vec<String>,
}

/// A fragment: under 80 characters, or a bare markdown heading.
pub open spec fn fragment(s: Seq<char>) -> bool {
    s.len() < 80 || (trim_start(s).len() > 0 && trim_start(s)[0] == '#')
}

/// Fragment heuristic: under 80 characters or a bare markdown heading.
pub fn is_fragment(text: &str) -> (r: bool)
    ensures
        r == fragment(text@),
{
    let v = chars_of(text);
    if v.len() < 80 {
        return true;
    }
    let i = skip_ws(&v);
    proof {
        lemma_leading_ws_bound(v@);
    }
    i < v.len() && v[i] == '#'
}

/// The first `k` items of `s` that are fragments, counted.
pub open spec fn fragments_in(s: Seq<Seq<char>>) -> nat
    decreases s.len(),
{
    if s.len() == 0 {
        0
    } else {
        fragments_in(s.drop_last()) + if fragment(s.last()) {
            1nat
        } else {
            0nat
        }
    }
}

/// How many of the first five hit texts are fragments, and how many there are.
pub fn fragment_count_at5(texts: &[String]) -> (r: (usize, usize))
    ensures
        r.1 == if texts@.len() < 5 {
            texts@.len()
        } else {
            5
        },
        r.0 == fragments_in(texts@.take(r.1 as int).map_values(|t: String| t@)),
{
    let n = if texts.len() < 5 {
        texts.len()
    } else {
        5
    };
    let mut count: usize = 0;
    let mut i: usize = 0;
    while i < n
        invariant
            i <= n <= texts@.len(),
            count <= i,
            count == fragments_in(texts@.take(i as int).map_values(|t: String| t@)),
        decreases n - i,
    {
        let f = is_fragment(texts[i].as_str());
        assert(texts@.take(i + 1).map_values(|t: String| t@).drop_last() =~= texts@.take(
            i as int,
        ).map_values(|t: String| t@));
        if f {
            count = count + 1;
        }
        i = i + 1;
    }
    (count, n)
}

/// Some relevant substring occurs in `s`, both compared lower-cased.
pub open spec fn relevant_hit(s: Seq<char>, relevant: Seq<Seq<char>>) -> bool {
    exists|j: int| 0 <= j < relevant.len() && contains(lowercase(s), lowercase(#[trigger] relevant[j]))
}

fn hit_is_relevant(s: &String, relevant: &[String]) -> (r: bool)
    ensures
        r == relevant_hit(s@, relevant@.map_values(|x: String| x@)),
{
    let sl = chars_of(to_lowercase(s.as_str()).as_str());
    let ghost rel = relevant@.map_values(|x: String| x@);
    let mut j: usize = 0;
    while j < relevant.len()
        invariant
            j <= relevant@.len(),
            rel == relevant@.map_values(|x: String| x@),
            sl@ == lowercase(s@),
            forall|k: int| 0 <= k < j ==> !contains(lowercase(s@), lowercase(#[trigger] rel[k])),
        decreases relevant.len() - j,
    {
        let rl = chars_of(to_lowercase(relevant[j].as_str()).as_str());
        assert(rel[j as int] == relevant@[j as int]@);
        if contains_chars(&sl, &rl) {
            return true;
        }
        j = j + 1;
    }
    false
}

/// 1-based rank of the first hit whose `source_id` contains any of the
/// `relevant` substrings (case-insensitive). `None` if no relevant source appears.
pub fn first_relevant_rank(source_ids: &[String], relevant: &[String]) -> (r: Option<usize>)
    ensures
        match r {
            Some(k) => 1 <= k <= source_ids@.len() && relevant_hit(
                source_ids@[k - 1]@,
                relevant@.map_values(|x: String| x@),
            ) && forall|i: int|
                0 <= i < k - 1 ==> !relevant_hit(
                    #[trigger] source_ids@[i]@,
                    relevant@.map_values(|x: String| x@),
                ),
            None => forall|i: int|
                0 <= i < source_ids@.len() ==> !relevant_hit(
                    #[trigger] source_ids@[i]@,
                    relevant@.map_values(|x: String| x@),
                ),
        },
{
    let mut i: usize = 0;
    while i < source_ids.len()
        invariant
            i <= source_ids@.len(),
            forall|k: int|
                0 <= k < i ==> !relevant_hit(
                    #[trigger] source_ids@[k]@,
                    relevant@.map_values(|x: String| x@),
                ),
        decreases source_ids.len() - i,
    {
        if hit_is_relevant(&source_ids[i], relevant) {
            return Some(i + 1);
        }
        i = i + 1;
    }
    None
}

/// A hit is relevant when any one of the relevant substrings (at any position
/// of the list) occurs in it, both lower-cased; so adding substrings to the
/// list, before or after, never makes a relevant hit irrelevant.
pub proof fn lemma_any_relevant_substring(s: Seq<char>, relevant: Seq<Seq<char>>, j: int, extra: Seq<Seq<char>>)
    ensures
        0 <= j < relevant.len() && contains(lowercase(s), lowercase(relevant[j])) ==> relevant_hit(
            s,
            relevant,
        ),
        relevant_hit(s, relevant) ==> relevant_hit(s, extra + relevant) && relevant_hit(s, relevant + extra),
        relevant_hit(s, seq![relevant[j]]) && 0 <= j < relevant.len() ==> relevant_hit(s, relevant),
        relevant.len() == 0 ==> !relevant_hit(s, relevant),
{
    if relevant_hit(s, relevant) {
        let k = choose|k: int| 0 <= k < relevant.len() && contains(lowercase(s), lowercase(#[trigger] relevant[k]));
        assert((extra + relevant)[extra.len() + k] == relevant[k]);
        assert((relevant + extra)[k] == relevant[k]);
    }
    if 0 <= j < relevant.len() && relevant_hit(s, seq![relevant[j]]) {
        let k = choose|k: int| 0 <= k < 1 && contains(lowercase(s), lowercase(#[trigger] seq![relevant[j]][k]));
        assert(seq![relevant[j]][k] == relevant[j]);
    }
}

} // verus!
