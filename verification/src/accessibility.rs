//! Reading the currently focused text field.
//!
//! Used to detect "continuation" (text before the caret exists) and to inject
//! the text up to the caret into post-processing prompts. The platform layer
//! (macOS Accessibility, Windows UI Automation) reports what it read as a
//! `FocusedFieldReading`; what is made of it is decided here.

use vstd::prelude::*;
use crate::utf16::{
    encode_utf16, lemma_encode_len, lemma_utf16_prefix_shape, lemma_utf16_truncated_len,
    lemma_utf16_truncated_prefix, lemma_utf16_truncated_whole, truncate_utf16, utf16_truncated,
};
use crate::whitespace::{has_visible_char, has_visible_text};

verus! {

/// What the platform accessibility layer read from the focused UI element.
pub enum FocusedFieldReading {
    /// No focused element, no text value, accessibility not trusted, or a
    /// platform without an accessibility reader.
    Unavailable,
    /// macOS Accessibility: the element's string value and the caret's
    /// position as a UTF-16 offset, when the selected text range gave one.
    ValueAndCaret { full: String, caret: Option<usize> },
    /// Windows UI Automation: from the text pattern, the text before the caret
    /// (when the selection resolved) and the whole document (when readable);
    /// from the value pattern, its value. Each is `None` when unavailable.
    Patterns { before_caret: Option<String>, document: Option<String>, value: Option<String> },
}

/// The text of the focused field up to the caret, when the platform read one.
pub open spec fn field_text(reading: FocusedFieldReading) -> Option<Seq<char>> {
    match reading {
        FocusedFieldReading::Unavailable => None,
        FocusedFieldReading::ValueAndCaret { full, caret } => Some(text_at_caret_spec(full@, caret)),
        FocusedFieldReading::Patterns { before_caret, document, value } => match before_caret {
            Some(t) => Some(t@),
            None => match document {
                Some(d) => Some(d@),
                None => match value {
                    Some(v) => if v@.len() > 0 {
                        Some(v@)
                    } else {
                        None
                    },
                    None => None,
                },
            },
        },
    }
}

/// The text before the caret, or the whole value when the caret is unknown.
pub open spec fn text_at_caret_spec(full: Seq<char>, caret: Option<usize>) -> Seq<char> {
    match caret {
        Some(loc) => utf16_truncated(full, loc as nat),
        None => full,
    }
}

/// The caret position from the selected text range: its start, when the range
/// was read as a `CFRange` (`ok`) and that start is not negative.
pub fn caret_from_range(ok: bool, location: i64) -> (r: Option<usize>)
    ensures
        r == if ok && location >= 0 {
            Some(location as usize)
        } else {
            None
        },
{
    if ok && location >= 0 {
        Some(location as usize)
    } else {
        None
    }
}

/// The text before the caret (the first `caret` UTF-16 code units of
/// `full`), or all of `full` when the caret position is unknown.
pub fn text_at_caret(full: String, caret: Option<usize>) -> (r: String)
    ensures
        r@ == text_at_caret_spec(full@, caret),
{
    match caret {
        Some(loc) => truncate_utf16(full.as_str(), loc),
        None => full,
    }
}

/// Text content of the focused field up to the caret, or `None`.
///
/// On macOS the field's value is cut at the caret (the whole value when the
/// caret cannot be determined). On Windows the text pattern is preferred:
/// the text before the caret, else the whole document; failing that, the
/// value pattern's value when it is not empty.
pub fn focused_field_text(reading: FocusedFieldReading) -> (r: Option<String>)
    ensures
        match r {
            Some(t) => field_text(reading) == Some(t@),
            None => field_text(reading) is None,
        },
{
    match reading {
        FocusedFieldReading::Unavailable => None,
        FocusedFieldReading::ValueAndCaret { full, caret } => Some(text_at_caret(full, caret)),
        FocusedFieldReading::Patterns { before_caret, document, value } => {
            if let Some(t) = before_caret {
                return Some(t);
            }
            if let Some(d) = document {
                return Some(d);
            }
            match value {
                Some(v) => if v.as_str().is_empty() {
                    None
                } else {
                    Some(v)
                },
                None => None,
            }
        },
    }
}

/// Whether the focused field already contains non-trivial text (not empty and
/// not only white space). Used to detect a transcription "continuation".
pub fn focused_field_has_text(reading: FocusedFieldReading) -> (r: bool)
    ensures
        r == match field_text(reading) {
            Some(t) => has_visible_char(t),
            None => false,
        },
{
    match focused_field_text(reading) {
        Some(t) => has_visible_text(t.as_str()),
        None => false,
    }
}

/// A known caret always cuts the value at the caret: what is kept is
/// `min(caret, length)` UTF-16 code units long (nothing for a caret at the
/// start, the whole value for a caret at or past its end), and it is a prefix
/// of the value, or a prefix followed by U+FFFD where the caret splits a
/// surrogate pair.
pub proof fn lemma_caret_cuts_value(full: Seq<char>, loc: usize)
    ensures
        ({
            let t = text_at_caret_spec(full, Some(loc));
            let units = encode_utf16(full).len();
            &&& encode_utf16(t).len() == if loc < units {
                loc as nat
            } else {
                units
            }
            &&& t.len() <= full.len()
            &&& t == full.take(t.len() as int) || (t.len() > 0 && t.drop_last() == full.take(
                t.len() - 1,
            ) && t.last() == '\u{FFFD}')
            &&& loc == 0 ==> t.len() == 0
            &&& loc >= units ==> t == full
        }),
{
    let t = text_at_caret_spec(full, Some(loc));
    lemma_utf16_truncated_len(full, loc as nat);
    lemma_utf16_truncated_prefix(full, loc as nat);
    lemma_utf16_prefix_shape(full, loc as nat);
    lemma_encode_len(t);
    if loc >= encode_utf16(full).len() {
        lemma_utf16_truncated_whole(full, loc as nat);
    }
}

/// With the caret at the start of the field, the text before it is empty, so
/// there is no continuation.
pub proof fn lemma_caret_at_start_reads_nothing(full: String)
    ensures
        field_text(FocusedFieldReading::ValueAndCaret { full, caret: Some(0) }) == Some(
            Seq::<char>::empty(),
        ),
{
    lemma_caret_cuts_value(full@, 0);
    assert(text_at_caret_spec(full@, Some(0usize)) =~= Seq::<char>::empty());
}

} // verus!
