use librarian::extract::{extract_window, parse_token};

#[test]
fn token_with_index_centres_window_on_context() {
    let w = extract_window("book.epub#3950", 5, None, None);
    assert_eq!(w.source_id, "book.epub");
    assert_eq!(w.start, 3945);
    assert_eq!(w.end, 3956);
}

#[test]
fn token_with_index_and_no_context_is_that_chunk() {
    let w = extract_window("book.epub#3950", 0, None, None);
    assert_eq!((w.source_id.as_str(), w.start, w.end), ("book.epub", 3950, 3951));
}

#[test]
fn context_before_first_chunk_saturates_at_zero() {
    let w = extract_window("a.md#2", 5, None, None);
    assert_eq!((w.start, w.end), (0, 8));
}

#[test]
fn explicit_start_overrides_context_and_end_defaults_to_twenty_more() {
    let w = extract_window("book.epub#3950", 5, Some(10), None);
    assert_eq!((w.start, w.end), (10, 30));
    let w = extract_window("book.epub#3950", 5, Some(10), Some(12));
    assert_eq!((w.start, w.end), (10, 12));
}

#[test]
fn token_without_index_is_a_bare_source_id() {
    let w = extract_window("books/foo.md", 3, None, None);
    assert_eq!((w.source_id.as_str(), w.start, w.end), ("books/foo.md", 0, 20));
}

#[test]
fn only_the_last_hash_splits_and_the_tail_must_be_digits() {
    assert_eq!(parse_token("c#sharp.md#7"), ("c#sharp.md".to_string(), Some(7)));
    assert_eq!(parse_token("notes#intro"), ("notes#intro".to_string(), None));
    assert_eq!(parse_token("trailing#"), ("trailing#".to_string(), None));
    assert_eq!(parse_token("huge#99999999999"), ("huge#99999999999".to_string(), None));
    assert_eq!(parse_token("max#4294967295"), ("max".to_string(), Some(4294967295)));
}

#[test]
fn saturating_end_at_u32_max() {
    let w = extract_window("x#4294967295", 3, None, None);
    assert_eq!((w.start, w.end), (4294967292, 4294967295));
}

#[test]
fn window_holds_the_indexed_chunk_with_context_either_side() {
    for (i, c) in [(0u32, 0u32), (7, 3), (3, 7), (100, 0), (4294967290, 10)] {
        let w = extract_window(&format!("s#{i}"), c, None, None);
        assert!(w.start <= i && i < w.end, "{i} {c}");
        if c <= i && (i as u64) + (c as u64) < u32::MAX as u64 {
            assert_eq!((w.start, w.end), (i - c, i + c + 1));
        }
    }
}
