use handy::accessibility::{
    caret_from_range, focused_field_has_text, focused_field_text, text_at_caret,
    FocusedFieldReading,
};
use handy::utf16::truncate_utf16;

fn mac(full: &str, caret: Option<usize>) -> FocusedFieldReading {
    FocusedFieldReading::ValueAndCaret { full: full.to_string(), caret }
}

fn win(before: Option<&str>, doc: Option<&str>, value: Option<&str>) -> FocusedFieldReading {
    FocusedFieldReading::Patterns {
        before_caret: before.map(|s| s.to_string()),
        document: doc.map(|s| s.to_string()),
        value: value.map(|s| s.to_string()),
    }
}

#[test]
fn truncate_keeps_first_units() {
    assert_eq!(truncate_utf16("hello", 3), "hel");
    assert_eq!(truncate_utf16("hello", 0), "");
    assert_eq!(truncate_utf16("hello", 5), "hello");
    assert_eq!(truncate_utf16("hello", 99), "hello");
    assert_eq!(truncate_utf16("", 4), "");
}

#[test]
fn truncate_counts_utf16_units_not_chars() {
    // U+1F600 takes two UTF-16 units; 'é' and '你' take one each.
    assert_eq!(truncate_utf16("a😀b", 3), "a😀");
    assert_eq!(truncate_utf16("é你b", 2), "é你");
}

#[test]
fn truncate_inside_surrogate_pair_gives_replacement() {
    assert_eq!(truncate_utf16("a😀b", 2), "a\u{FFFD}");
    assert_eq!(truncate_utf16("😀", 1), "\u{FFFD}");
}

#[test]
fn truncate_matches_std_decoding() {
    let s = "x😀y🎉z—é";
    let units: Vec<u16> = s.encode_utf16().collect();
    for n in 0..units.len() + 3 {
        let end = n.min(units.len());
        let expected = String::from_utf16_lossy(&units[..end]);
        assert_eq!(truncate_utf16(s, n), expected, "n = {n}");
        assert_eq!(truncate_utf16(s, n).encode_utf16().count(), end);
    }
}

#[test]
fn caret_from_range_requires_success_and_nonnegative_start() {
    assert_eq!(caret_from_range(true, 7), Some(7));
    assert_eq!(caret_from_range(true, 0), Some(0));
    assert_eq!(caret_from_range(true, -1), None);
    assert_eq!(caret_from_range(false, 7), None);
}

#[test]
fn text_at_caret_cuts_or_keeps_whole() {
    assert_eq!(text_at_caret("hello world".to_string(), Some(5)), "hello");
    assert_eq!(text_at_caret("hello world".to_string(), None), "hello world");
}

#[test]
fn mac_reading_is_cut_at_caret() {
    assert_eq!(focused_field_text(mac("Dear Bob, thanks", Some(9))), Some("Dear Bob,".to_string()));
    assert_eq!(focused_field_text(mac("Dear Bob", None)), Some("Dear Bob".to_string()));
    assert_eq!(focused_field_text(mac("", Some(3))), Some(String::new()));
}

#[test]
fn unavailable_reading_gives_nothing() {
    assert_eq!(focused_field_text(FocusedFieldReading::Unavailable), None);
    assert!(!focused_field_has_text(FocusedFieldReading::Unavailable));
}

#[test]
fn windows_prefers_text_before_caret_then_document_then_value() {
    assert_eq!(focused_field_text(win(Some("before"), Some("doc"), Some("val"))), Some("before".to_string()));
    assert_eq!(focused_field_text(win(None, Some("doc"), Some("val"))), Some("doc".to_string()));
    assert_eq!(focused_field_text(win(None, None, Some("val"))), Some("val".to_string()));
    assert_eq!(focused_field_text(win(None, None, Some(""))), None);
    assert_eq!(focused_field_text(win(None, None, None)), None);
    // An empty text-pattern result still wins over the value.
    assert_eq!(focused_field_text(win(Some(""), None, Some("val"))), Some(String::new()));
}

#[test]
fn has_text_ignores_whitespace_only() {
    assert!(focused_field_has_text(mac("hi", None)));
    assert!(!focused_field_has_text(mac(" \n\t ", None)));
    assert!(!focused_field_has_text(mac("", None)));
    assert!(!focused_field_has_text(mac("   x", Some(2))));
    assert!(focused_field_has_text(mac("   x", Some(4))));
    assert!(!focused_field_has_text(win(None, None, Some("\u{3000}"))));
    assert!(focused_field_has_text(win(Some(" a "), None, None)));
}
