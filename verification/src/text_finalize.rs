//! Final text transforms applied to the transcript after all processing.

use vstd::prelude::*;
use crate::text::{chars_of, string_of};
use crate::whitespace::{is_whitespace, white_space};

verus! {

/// Trailing word-separator punctuation (not `?`/`!`, which carry meaning):
/// the ASCII `. , ; :`, the ellipsis `…`, and the CJK `。 ， ； ： 、`.
pub open spec fn separator(c: char) -> bool {
    c == '.' || c == ',' || c == ';' || c == ':' || c == '\u{2026}' || c == '\u{3002}'
        || c == '\u{FF0C}' || c == '\u{FF1B}' || c == '\u{FF1A}' || c == '\u{3001}'
}

/// What `strip_trailing_separators` removes from the end: white space and separators.
pub open spec fn strippable(c: char) -> bool {
    white_space(c) || separator(c)
}

/// Number of strippable characters at the end of `s`.
pub open spec fn trailing_strippable(s: Seq<char>) -> nat
    decreases s.len(),
{
    if s.len() > 0 && strippable(s.last()) {
        1 + trailing_strippable(s.drop_last())
    } else {
        0
    }
}

/// `s` without its trailing run of strippable characters.
pub open spec fn stripped(s: Seq<char>) -> Seq<char> {
    s.take(s.len() - trailing_strippable(s))
}

/// Whether `c` is trailing word-separator punctuation.
pub fn is_trailing_separator(c: char) -> (r: bool)
    ensures
        r == separator(c),
{
    c == '.' || c == ',' || c == ';' || c == ':' || c == '\u{2026}' || c == '\u{3002}'
        || c == '\u{FF0C}' || c == '\u{FF1B}' || c == '\u{FF1A}' || c == '\u{3001}'
}

proof fn lemma_trailing_strippable_step(s: Seq<char>, end: int)
    requires
        0 < end <= s.len(),
    ensures
        strippable(s[end - 1]) ==> trailing_strippable(s.take(end)) == 1 + trailing_strippable(
            s.take(end - 1),
        ),
        !strippable(s[end - 1]) ==> trailing_strippable(s.take(end)) == 0,
{
    assert(s.take(end).drop_last() =~= s.take(end - 1));
    assert(s.take(end).last() == s[end - 1]);
}

/// Strip trailing word-separator punctuation (and any white space around it)
/// from the end of `text`. Sentence-ending `?`/`!` are kept; only the end of
/// the string is affected.
pub fn strip_trailing_separators(text: &str) -> (r: String)
    ensures
        r@ == stripped(text@),
{
    let chars = chars_of(text);
    let mut end = chars.len();
    proof {
        assert(text@.take(end as int) =~= text@);
    }
    while end > 0 && (is_whitespace(chars[end - 1]) || is_trailing_separator(chars[end - 1]))
        invariant
            chars@ == text@,
            end <= chars@.len(),
            trailing_strippable(text@) == trailing_strippable(text@.take(end as int)) + (
            chars@.len() - end),
        decreases end,
    {
        proof {
            lemma_trailing_strippable_step(text@, end as int);
        }
        end = end - 1;
    }
    proof {
        if end > 0 {
            lemma_trailing_strippable_step(text@, end as int);
        }
    }
    string_of(&chars, 0, end)
}

/// What is removed is a trailing run of white space and separators, and what
/// is kept is a prefix of the text that does not itself end in one.
pub proof fn lemma_stripped_shape(s: Seq<char>)
    ensures
        trailing_strippable(s) <= s.len(),
        stripped(s) == s.take(stripped(s).len() as int),
        forall|i: int| stripped(s).len() <= i < s.len() ==> #[trigger] strippable(s[i]),
        stripped(s).len() > 0 ==> !strippable(stripped(s).last()),
    decreases s.len(),
{
    if s.len() > 0 && strippable(s.last()) {
        let t = s.drop_last();
        lemma_stripped_shape(t);
        assert(stripped(s) =~= stripped(t));
        assert forall|i: int| stripped(s).len() <= i < s.len() implies #[trigger] strippable(
            s[i],
        ) by {
            if i < s.len() - 1 {
                assert(s[i] == t[i]);
            }
        }
    } else {
        assert(stripped(s) =~= s);
    }
}

/// Stripping twice strips no more than stripping once.
pub proof fn lemma_stripped_idempotent(s: Seq<char>)
    ensures
        stripped(stripped(s)) == stripped(s),
{
    lemma_stripped_shape(s);
    let t = stripped(s);
    if t.len() > 0 {
        assert(trailing_strippable(t) == 0);
    }
    assert(stripped(t) =~= t);
}

/// A text whose last character is neither white space nor a separator (for
/// instance one that ends in `?` or `!`) is left as it is, and so is the empty text.
pub proof fn lemma_stripped_keeps_unstrippable_end(s: Seq<char>)
    requires
        s.len() == 0 || !strippable(s.last()),
    ensures
        stripped(s) == s,
{
    assert(s.take(s.len() as int) =~= s);
}

/// What the strip removes and what it keeps, character by character: the
/// result is a prefix of the text; everything after it is white space
/// (U+0009..=U+000D, U+0020, U+0085, U+00A0, U+1680, U+2000..=U+200A, U+2028,
/// U+2029, U+202F, U+205F, U+3000) or one of `. , ; : … 。 ， ； ： 、`; and the
/// result does not end in any of those characters.
pub proof fn lemma_strip_removes_exactly_separators_and_white_space(s: Seq<char>)
    ensures
        stripped(s) == s.take(stripped(s).len() as int),
        forall|i: int|
            stripped(s).len() <= i < s.len() ==> {
                let c = #[trigger] s[i];
                ||| c == '.' || c == ',' || c == ';' || c == ':' || c == '\u{2026}' || c
                    == '\u{3002}' || c == '\u{FF0C}' || c == '\u{FF1B}' || c == '\u{FF1A}' || c
                    == '\u{3001}'
                ||| ('\u{9}' <= c && c <= '\u{D}') || c == ' ' || c == '\u{85}' || c == '\u{A0}'
                    || c == '\u{1680}' || ('\u{2000}' <= c && c <= '\u{200A}') || c
                    == '\u{2028}' || c == '\u{2029}' || c == '\u{202F}' || c == '\u{205F}' || c
                    == '\u{3000}'
            },
        stripped(s).len() > 0 ==> {
            let c = stripped(s).last();
            &&& c != '.' && c != ',' && c != ';' && c != ':' && c != '\u{2026}' && c != '\u{3002}'
                && c != '\u{FF0C}' && c != '\u{FF1B}' && c != '\u{FF1A}' && c != '\u{3001}'
            &&& !('\u{9}' <= c && c <= '\u{D}') && c != ' ' && c != '\u{85}' && c != '\u{A0}'
                && c != '\u{1680}' && !('\u{2000}' <= c && c <= '\u{200A}') && c != '\u{2028}'
                && c != '\u{2029}' && c != '\u{202F}' && c != '\u{205F}' && c != '\u{3000}'
        },
{
    lemma_stripped_shape(s);
    assert forall|i: int| stripped(s).len() <= i < s.len() implies strippable(s[i]) by {
        assert(strippable(s[i]));
    }
}

/// Sentence-ending `?` and `!` (also full-width) are never stripped: a text
/// ending in one comes back unchanged.
pub proof fn lemma_strip_keeps_question_and_exclamation(s: Seq<char>)
    requires
        s.len() > 0,
        s.last() == '?' || s.last() == '!' || s.last() == '\u{FF1F}' || s.last() == '\u{FF01}',
    ensures
        stripped(s) == s,
{
    lemma_stripped_keeps_unstrippable_end(s);
}

} // verus!
