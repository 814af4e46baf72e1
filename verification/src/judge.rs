//! The context-relevance judge's prompt and the parsing of its reply.

use vstd::prelude::*;
use crate::text::{chars_of, owned, push_str};

verus! {

/// The rubric that precedes the question in every judge prompt.
pub open spec fn rubric() -> Seq<char> {
    "You are a CONTEXT RELEVANCE grader. Given a QUESTION and a single retrieved CONTEXT \
chunk, judge ONLY whether this chunk contains information that helps answer the QUESTION. Do \
not reward length, fluency, or style, and use only what is in the chunk.\n\n\
Score:\n\
0 = irrelevant, or a heading/fragment with no real content\n\
1 = related/partial - touches the topic but does not actually answer it\n\
2 = directly answers the question with substantive content\n\n\
Reply with ONLY the single digit 0, 1, or 2.\n\n\
QUESTION:\n"@
}

/// Per-chunk context-relevance rubric (pointwise 0-2) followed by the question
/// and the chunk.
pub fn judge_prompt(query: &str, chunk: &str) -> (r: String)
    ensures
        r@ == rubric() + query@ + "\n\nCONTEXT CHUNK:\n"@ + chunk@,
{
    let mut p = owned(
        "You are a CONTEXT RELEVANCE grader. Given a QUESTION and a single retrieved CONTEXT \
chunk, judge ONLY whether this chunk contains information that helps answer the QUESTION. Do \
not reward length, fluency, or style, and use only what is in the chunk.\n\n\
Score:\n\
0 = irrelevant, or a heading/fragment with no real content\n\
1 = related/partial - touches the topic but does not actually answer it\n\
2 = directly answers the question with substantive content\n\n\
Reply with ONLY the single digit 0, 1, or 2.\n\n\
QUESTION:\n",
    );
    push_str(&mut p, query);
    push_str(&mut p, "\n\nCONTEXT CHUNK:\n");
    push_str(&mut p, chunk);
    p
}

/// The score of a reply: the first `0`, `1` or `2` in it, or 0 when there is none.
pub open spec fn score_of(s: Seq<char>) -> u8
    decreases s.len(),
{
    if s.len() == 0 {
        0
    } else if s[0] == '0' {
        0
    } else if s[0] == '1' {
        1
    } else if s[0] == '2' {
        2
    } else {
        score_of(s.drop_first())
    }
}

/// Extract the 0/1/2 score from a judge reply (first such digit; defaults to 0).
pub fn parse_score(reply: &str) -> (r: u8)
    ensures
        r == score_of(reply@),
        r <= 2,
{
    let v = chars_of(reply);
    let mut i: usize = 0;
    assert(v@.subrange(0, v.len() as int) =~= v@);
    while i < v.len()
        invariant
            i <= v.len(),
            v@ == reply@,
            score_of(v@) == score_of(v@.subrange(i as int, v.len() as int)),
        decreases v.len() - i,
    {
        let c = v[i];
        let ghost rest = v@.subrange(i as int, v.len() as int);
        assert(rest.len() > 0 && rest[0] == c);
        if c == '0' {
            assert(score_of(rest) == 0u8);
            return 0;
        } else if c == '1' {
            return 1;
        } else if c == '2' {
            assert(score_of(rest) == 2u8);
            return 2;
        }
        assert(v@.subrange(i as int, v.len() as int).drop_first() =~= v@.subrange(i + 1, v.len() as int));
        i = i + 1;
    }
    0
}

/// The integer totals of a set of judge scores: how many, their sum, and how
/// many are directly relevant (score 2).
pub struct ScoreTally {
    pub n: usize,
    pub sum: u128,
    pub relevant_count: usize,
}

pub open spec fn score_sum(s: Seq<u8>) -> nat
    decreases s.len(),
{
    if s.len() == 0 {
        0
    } else {
        score_sum(s.drop_last()) + s.last() as nat
    }
}

pub open spec fn twos(s: Seq<u8>) -> nat
    decreases s.len(),
{
    if s.len() == 0 {
        0
    } else {
        twos(s.drop_last()) + if s.last() == 2 {
            1nat
        } else {
            0nat
        }
    }
}

pub proof fn lemma_score_sum_bound(s: Seq<u8>)
    ensures
        score_sum(s) <= 255 * s.len(),
        twos(s) <= s.len(),
    decreases s.len(),
{
    if s.len() > 0 {
        lemma_score_sum_bound(s.drop_last());
    }
}

/// Count, sum and count the 2s of the scores (the mean is their quotient).
pub fn tally(scores: &[u8]) -> (r: ScoreTally)
    ensures
        r.n == scores@.len(),
        r.sum == score_sum(scores@),
        r.relevant_count == twos(scores@),
{
    let mut sum: u128 = 0;
    let mut rel: usize = 0;
    let mut i: usize = 0;
    while i < scores.len()
        invariant
            i <= scores@.len(),
            sum == score_sum(scores@.take(i as int)),
            rel == twos(scores@.take(i as int)),
        decreases scores.len() - i,
    {
        assert(scores@.take(i + 1).drop_last() =~= scores@.take(i as int));
        proof {
            lemma_score_sum_bound(scores@.take(i as int));
        }
        sum = sum + scores[i] as u128;
        if scores[i] == 2 {
            rel = rel + 1;
        }
        i = i + 1;
    }
    assert(scores@.take(scores.len() as int) =~= scores@);
    ScoreTally { n: scores.len(), sum, relevant_count: rel }
}

/// A score digit: `0`, `1` or `2`.
pub open spec fn score_digit(c: char) -> bool {
    c == '0' || c == '1' || c == '2'
}

/// The score is the first `0`, `1` or `2` of the reply, whatever follows it;
/// a reply without one scores 0.
pub proof fn lemma_score_is_first_digit(p: Seq<char>, d: char, q: Seq<char>)
    ensures
        (forall|i: int| 0 <= i < p.len() ==> !score_digit(#[trigger] p[i])) && score_digit(d)
            ==> score_of(p + seq![d] + q) as int == (d as int) - ('0' as int),
        (forall|i: int| 0 <= i < p.len() ==> !score_digit(#[trigger] p[i])) ==> score_of(p) == 0,
    decreases p.len(),
{
    if p.len() > 0 {
        let t = p.drop_first();
        lemma_score_is_first_digit(t, d, q);
        assert((p + seq![d] + q).drop_first() =~= t + seq![d] + q);
        assert((p + seq![d] + q)[0] == p[0]);
        assert forall|i: int| 0 <= i < t.len() implies t[i] == p[i + 1] by {}
    } else {
        assert((p + seq![d] + q)[0] == d);
    }
}

} // verus!
