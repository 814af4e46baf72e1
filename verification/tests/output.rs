use librarian::output::{bold, dim, highlight, Render};

fn r(color: bool) -> Render {
    Render { json: false, color, quiet: false, verbose: false, tty: color }
}

#[test]
fn highlight_wraps_matches_only_when_color_on() {
    let plain = highlight(r(false), "the saga pattern", "saga");
    assert_eq!(plain, "the saga pattern");

    let colored = highlight(r(true), "the Saga pattern", "saga");
    assert!(colored.contains("\x1b[1mSaga\x1b[0m"), "got {colored:?}");
}

#[test]
fn highlight_ignores_short_words_and_non_ascii() {
    assert_eq!(highlight(r(true), "a b cd", "a b"), "a b cd");
    assert_eq!(highlight(r(true), "café résumé", "cafe"), "café résumé");
}

#[test]
fn highlight_every_word_and_every_match() {
    assert_eq!(
        highlight(r(true), "saga SAGA pat", "  saga\tpat "),
        "\x1b[1msaga\x1b[0m \x1b[1mSAGA\x1b[0m \x1b[1mpat\x1b[0m"
    );
}

#[test]
fn dim_and_bold_follow_color() {
    assert_eq!(dim(r(false), "x"), "x");
    assert_eq!(dim(r(true), "x"), "\x1b[2mx\x1b[0m");
    assert_eq!(bold(r(true), "x"), "\x1b[1mx\x1b[0m");
    assert_eq!(bold(r(false), "x"), "x");
}

#[test]
fn color_needs_a_terminal_and_no_opt_out() {
    assert!(Render::resolve(false, false, false, false, false, true).color);
    assert!(!Render::resolve(true, false, false, false, false, true).color);
    assert!(!Render::resolve(false, true, false, false, false, true).color);
    assert!(!Render::resolve(false, false, false, false, true, true).color);
    assert!(!Render::resolve(false, false, false, false, false, false).color);
}
