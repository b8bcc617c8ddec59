use handy::text_finalize::{is_trailing_separator, strip_trailing_separators};
use handy::whitespace::is_whitespace;

#[test]
fn strips_trailing_period() {
    assert_eq!(strip_trailing_separators("Hello world."), "Hello world");
}

#[test]
fn strips_trailing_ellipsis_dots() {
    assert_eq!(strip_trailing_separators("Hello world..."), "Hello world");
}

#[test]
fn strips_separator_with_trailing_whitespace() {
    assert_eq!(strip_trailing_separators("Hello, world; "), "Hello, world");
}

#[test]
fn keeps_question_mark() {
    assert_eq!(strip_trailing_separators("Hello world?"), "Hello world?");
}

#[test]
fn keeps_exclamation_mark() {
    assert_eq!(strip_trailing_separators("Hello world!"), "Hello world!");
}

#[test]
fn strips_period_after_question_mark() {
    assert_eq!(strip_trailing_separators("Hello world?."), "Hello world?");
}

#[test]
fn keeps_text_ending_in_exclamation_after_dots() {
    assert_eq!(strip_trailing_separators("wait...!"), "wait...!");
}

#[test]
fn strips_trailing_colon() {
    assert_eq!(strip_trailing_separators("done:"), "done");
}

#[test]
fn strips_cjk_full_stop() {
    assert_eq!(strip_trailing_separators("你好。"), "你好");
}

#[test]
fn leaves_plain_text_untouched() {
    assert_eq!(strip_trailing_separators("plain text"), "plain text");
}

#[test]
fn handles_empty_string() {
    assert_eq!(strip_trailing_separators(""), "");
}

#[test]
fn consumes_whitespace_and_separator() {
    assert_eq!(strip_trailing_separators("hello . "), "hello");
}

#[test]
fn keeps_fullwidth_question_mark() {
    assert_eq!(strip_trailing_separators("really？"), "really？");
}

#[test]
fn separators_are_exactly_the_listed_ones() {
    for c in ['.', ',', ';', ':', '…', '。', '，', '；', '：', '、'] {
        assert!(is_trailing_separator(c), "{c:?}");
    }
    for c in ['?', '!', '？', '！', 'a', ' ', '\n', '-', '"'] {
        assert!(!is_trailing_separator(c), "{c:?}");
    }
}

#[test]
fn strips_only_separators_and_whitespace_leaving_empty() {
    assert_eq!(strip_trailing_separators(" ., ;\t\n"), "");
    assert_eq!(strip_trailing_separators("、、、"), "");
}

#[test]
fn strips_unicode_whitespace_around_separators() {
    // U+00A0 and U+3000 are Unicode white space.
    assert_eq!(strip_trailing_separators("end\u{00A0}.\u{3000}"), "end");
}

#[test]
fn leading_separators_are_kept() {
    assert_eq!(strip_trailing_separators("...start"), "...start");
    assert_eq!(strip_trailing_separators(" a. b."), " a. b");
}

#[test]
fn stripping_is_idempotent_on_examples() {
    for s in ["Hello world...", "a ; b ;", "你好。 ", "x?.", "", "  "] {
        let once = strip_trailing_separators(s);
        assert_eq!(strip_trailing_separators(&once), once);
    }
}

#[test]
fn is_whitespace_agrees_with_std_on_every_char() {
    for c in (0u32..=0x10FFFF).filter_map(char::from_u32) {
        assert_eq!(is_whitespace(c), c.is_whitespace(), "{:#x}", c as u32);
    }
}
