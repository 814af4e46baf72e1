use librarian::judge::{judge_prompt, parse_score, tally};

#[test]
fn prompt_contains_query_chunk_and_scale() {
    let p = judge_prompt("what is a saga?", "A saga is a sequence of local transactions.");
    assert!(p.contains("what is a saga?"));
    assert!(p.contains("A saga is a sequence"));
    assert!(p.contains("0, 1, or 2"));
}

#[test]
fn parse_score_extracts_first_relevant_digit() {
    assert_eq!(parse_score("2"), 2);
    assert_eq!(parse_score("Score: 1"), 1);
    assert_eq!(parse_score("0\n"), 0);
    assert_eq!(parse_score("no digit here"), 0); // default
    assert_eq!(parse_score("the answer is 2"), 2);
}

#[test]
fn parse_score_skips_other_digits() {
    assert_eq!(parse_score("9 then 1"), 1);
    assert_eq!(parse_score(""), 0);
}

#[test]
fn prompt_layout() {
    let p = judge_prompt("Q", "C");
    assert!(p.starts_with("You are a CONTEXT RELEVANCE grader. Given a QUESTION and a single retrieved CONTEXT chunk, judge ONLY"));
    assert!(p.ends_with("Reply with ONLY the single digit 0, 1, or 2.\n\nQUESTION:\nQ\n\nCONTEXT CHUNK:\nC"));
}

#[test]
fn tally_counts_sum_and_twos() {
    let t = tally(&[2, 1, 0, 2]);
    assert_eq!(t.n, 4);
    assert_eq!(t.sum, 5);
    assert_eq!(t.relevant_count, 2);
    let e = tally(&[]);
    assert_eq!((e.n, e.sum, e.relevant_count), (0, 0, 0));
}
