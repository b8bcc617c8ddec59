use handy::input_context::{limit_context, line_start, paragraph_start};

#[test]
fn all_zero_returns_unchanged_preserving_crlf() {
    assert_eq!(limit_context("a\r\nb", 0, 0, 0), "a\r\nb");
    assert_eq!(limit_context("anything\r\rhere", 0, 0, 0), "anything\r\rhere");
}

#[test]
fn last_n_chars() {
    assert_eq!(limit_context("hello world", 0, 0, 5), "world");
    // X larger than text => unchanged content.
    assert_eq!(limit_context("hi", 0, 0, 50), "hi");
}

#[test]
fn last_n_chars_counts_unicode_scalars() {
    // Four-char string of multi-byte chars; keep last 2 chars.
    assert_eq!(limit_context("áéíó", 0, 0, 2), "íó");
}

#[test]
fn last_n_lines() {
    assert_eq!(limit_context("l1\nl2\nl3\nl4", 0, 2, 0), "l3\nl4");
    // N >= line count => whole (normalized) text.
    assert_eq!(limit_context("l1\nl2", 0, 5, 0), "l1\nl2");
}

#[test]
fn last_n_paragraphs() {
    assert_eq!(limit_context("p1\n\np2\n\np3", 1, 0, 0), "p3");
    assert_eq!(limit_context("p1\n\np2\n\np3", 2, 0, 0), "p2\n\np3");
}

#[test]
fn crlf_lines() {
    assert_eq!(limit_context("l1\r\nl2\r\nl3", 0, 2, 0), "l2\nl3");
}

#[test]
fn crlf_paragraphs() {
    assert_eq!(limit_context("p1\r\n\r\np2\r\n\r\np3", 1, 0, 0), "p3");
}

#[test]
fn multiple_limits_most_restrictive_wins() {
    // chars (4) beats lines (2): "cccc" is shorter than "bbbb\ncccc".
    assert_eq!(limit_context("aaaa\nbbbb\ncccc", 0, 2, 4), "cccc");
}

#[test]
fn runs_of_three_plus_newlines_are_one_boundary() {
    // Three newlines between p1 and p2 is a single paragraph boundary.
    assert_eq!(limit_context("p1\n\n\np2", 1, 0, 0), "p2");
    assert_eq!(limit_context("p1\n\n\np2", 2, 0, 0), "p1\n\n\np2");
}

#[test]
fn lone_carriage_returns_become_newlines() {
    assert_eq!(limit_context("a\rb\rc", 0, 2, 0), "b\nc");
    assert_eq!(limit_context("a\r\r\nb", 0, 0, 100), "a\n\nb");
}

#[test]
fn normalization_applies_when_nothing_is_cut() {
    assert_eq!(limit_context("x\r\ny", 0, 0, 10), "x\ny");
    assert_eq!(limit_context("x\r\ny", 3, 0, 0), "x\ny");
}

#[test]
fn char_limit_counts_after_normalization() {
    // "a\r\nb" normalizes to "a\nb": the last two chars are "\nb".
    assert_eq!(limit_context("a\r\nb", 0, 0, 2), "\nb");
}

#[test]
fn trailing_newline_counts_as_line_separator() {
    assert_eq!(limit_context("l1\nl2\n", 0, 1, 0), "");
    assert_eq!(limit_context("l1\nl2\n", 0, 2, 0), "l2\n");
}

#[test]
fn paragraph_limit_on_text_ending_in_blank_lines() {
    assert_eq!(limit_context("p1\n\np2\n\n", 1, 0, 0), "");
    assert_eq!(limit_context("p1\n\np2\n\n", 2, 0, 0), "p2\n\n");
}

#[test]
fn single_newlines_are_not_paragraph_breaks() {
    assert_eq!(limit_context("a\nb\nc", 1, 0, 0), "a\nb\nc");
}

#[test]
fn empty_text() {
    assert_eq!(limit_context("", 1, 1, 1), "");
    assert_eq!(limit_context("", 0, 0, 0), "");
}

#[test]
fn paragraph_beats_lines_when_shorter() {
    assert_eq!(limit_context("a\nb\n\nc\nd", 1, 3, 0), "c\nd");
    assert_eq!(limit_context("a\nb\n\nc\nd", 1, 1, 0), "d");
}

#[test]
fn limiting_twice_changes_nothing() {
    let cases = [
        ("p1\r\n\r\np2\n\n\np3\nq", 2, 1, 0),
        ("aaaa\nbbbb\ncccc", 0, 2, 4),
        ("x\n\n\n\ny\n\nz", 1, 0, 0),
        ("one\rtwo\r\nthree", 0, 2, 0),
    ];
    for (text, p, l, c) in cases {
        let once = limit_context(text, p, l, c);
        assert_eq!(limit_context(&once, p, l, c), once);
    }
}

#[test]
fn more_lines_or_paragraphs_never_start_later() {
    use_starts();
}

fn use_starts() {
    let chars: Vec<char> = "a\nb\n\nc\n\n\nd\ne\n\nf".chars().collect();
    for n1 in 1..8usize {
        for n2 in n1..8usize {
            assert!(line_start(&chars, n2) <= line_start(&chars, n1));
            assert!(paragraph_start(&chars, n2) <= paragraph_start(&chars, n1));
        }
        assert!(line_start(&chars, n1) <= chars.len());
        assert!(paragraph_start(&chars, n1) <= chars.len());
    }
    assert_eq!(line_start(&chars, 1), chars.len() - 1);
    assert_eq!(paragraph_start(&chars, 1), chars.len() - 1);
    assert_eq!(paragraph_start(&chars, 2), 9);
    assert_eq!(paragraph_start(&chars, 3), 5);
    assert_eq!(paragraph_start(&chars, 4), 0);
}
