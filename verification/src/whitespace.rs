//! The Unicode notion of white space, and trimming by it.

use vstd::prelude::*;
use crate::text::{chars_of, string_of};

verus! {

/// Whether `c` has the Unicode `White_Space` property (PropList.txt), the
/// notion of white space of `char::is_whitespace` and `str::trim`:
/// U+0009..=U+000D, U+0020, U+0085, U+00A0, U+1680, U+2000..=U+200A, U+2028,
/// U+2029, U+202F, U+205F and U+3000.
pub open spec fn white_space(c: char) -> bool {
    ('\u{9}' <= c && c <= '\u{D}') || c == ' ' || c == '\u{85}' || c == '\u{A0}' || c
        == '\u{1680}' || ('\u{2000}' <= c && c <= '\u{200A}') || c == '\u{2028}' || c
        == '\u{2029}' || c == '\u{202F}' || c == '\u{205F}' || c == '\u{3000}'
}

/// Whether `c` is white space.
pub fn is_whitespace(c: char) -> (r: bool)
    ensures
        r == white_space(c),
{
    ('\u{9}' <= c && c <= '\u{D}') || c == ' ' || c == '\u{85}' || c == '\u{A0}' || c
        == '\u{1680}' || ('\u{2000}' <= c && c <= '\u{200A}') || c == '\u{2028}' || c
        == '\u{2029}' || c == '\u{202F}' || c == '\u{205F}' || c == '\u{3000}'
}

/// Number of white-space characters at the start of `s`.
pub open spec fn leading_white_space(s: Seq<char>) -> nat
    decreases s.len(),
{
    if s.len() > 0 && white_space(s[0]) {
        1 + leading_white_space(s.drop_first())
    } else {
        0
    }
}

/// Number of white-space characters at the end of `s`.
pub open spec fn trailing_white_space(s: Seq<char>) -> nat
    decreases s.len(),
{
    if s.len() > 0 && white_space(s.last()) {
        1 + trailing_white_space(s.drop_last())
    } else {
        0
    }
}

/// `s` with leading and then trailing white space removed (what `str::trim` gives).
pub open spec fn trimmed(s: Seq<char>) -> Seq<char> {
    let t = s.skip(leading_white_space(s) as int);
    t.take(t.len() - trailing_white_space(t))
}

/// Whether `s` holds a character that is not white space.
pub open spec fn has_visible_char(s: Seq<char>) -> bool {
    exists|i: int| 0 <= i < s.len() && !white_space(#[trigger] s[i])
}

proof fn lemma_leading_step(s: Seq<char>, i: int)
    requires
        0 <= i < s.len(),
    ensures
        white_space(s[i]) ==> leading_white_space(s.skip(i)) == 1 + leading_white_space(
            s.skip(i + 1),
        ),
        !white_space(s[i]) ==> leading_white_space(s.skip(i)) == 0,
{
    assert(s.skip(i).drop_first() =~= s.skip(i + 1));
    assert(s.skip(i)[0] == s[i]);
}

proof fn lemma_trailing_step(s: Seq<char>, end: int)
    requires
        0 < end <= s.len(),
    ensures
        white_space(s[end - 1]) ==> trailing_white_space(s.take(end)) == 1
            + trailing_white_space(s.take(end - 1)),
        !white_space(s[end - 1]) ==> trailing_white_space(s.take(end)) == 0,
{
    assert(s.take(end).drop_last() =~= s.take(end - 1));
    assert(s.take(end).last() == s[end - 1]);
}

pub proof fn lemma_leading_bound(s: Seq<char>)
    ensures
        leading_white_space(s) <= s.len(),
    decreases s.len(),
{
    if s.len() > 0 && white_space(s[0]) {
        lemma_leading_bound(s.drop_first());
    }
}

pub proof fn lemma_trailing_bound(s: Seq<char>)
    ensures
        trailing_white_space(s) <= s.len(),
    decreases s.len(),
{
    if s.len() > 0 && white_space(s.last()) {
        lemma_trailing_bound(s.drop_last());
    }
}

/// `s` without its leading and trailing white space.
pub fn trim(s: &str) -> (r: String)
    ensures
        r@ == trimmed(s@),
{
    let chars = chars_of(s);
    let len = chars.len();
    let mut start: usize = 0;
    proof {
        assert(s@.skip(0) =~= s@);
    }
    while start < len && is_whitespace(chars[start])
        invariant
            chars@ == s@,
            len == s@.len(),
            start <= len,
            leading_white_space(s@) == start + leading_white_space(s@.skip(start as int)),
        decreases len - start,
    {
        proof {
            lemma_leading_step(s@, start as int);
        }
        start = start + 1;
    }
    proof {
        if start < len {
            lemma_leading_step(s@, start as int);
        } else {
            assert(s@.skip(start as int) =~= Seq::<char>::empty());
        }
    }
    let ghost t = s@.skip(start as int);
    let mut end = len;
    proof {
        assert(t.take(end - start) =~= t);
    }
    while end > start && is_whitespace(chars[end - 1])
        invariant
            chars@ == s@,
            len == s@.len(),
            start <= end <= len,
            t == s@.skip(start as int),
            trailing_white_space(t) == trailing_white_space(t.take(end - start)) + (len - end),
        decreases end,
    {
        proof {
            lemma_trailing_step(t, end - start);
            assert(t[end - start - 1] == s@[end - 1]);
        }
        end = end - 1;
    }
    proof {
        if end > start {
            lemma_trailing_step(t, end - start);
            assert(t[end - start - 1] == s@[end - 1]);
        } else {
            assert(t.take(0) =~= Seq::<char>::empty());
        }
        assert(t.take(end - start) =~= s@.subrange(start as int, end as int));
    }
    string_of(&chars, start, end)
}

/// Whether `s` holds anything but white space (whether its trim is non-empty).
pub fn has_visible_text(s: &str) -> (r: bool)
    ensures
        r == has_visible_char(s@),
{
    let chars = chars_of(s);
    let mut i: usize = 0;
    while i < chars.len()
        invariant
            chars@ == s@,
            i <= chars@.len(),
            forall|j: int| 0 <= j < i ==> white_space(#[trigger] s@[j]),
        decreases chars@.len() - i,
    {
        if !is_whitespace(chars[i]) {
            return true;
        }
        i = i + 1;
    }
    false
}

/// The trim of a text is non-empty exactly when the text has a character that
/// is not white space; what it keeps starts and ends with such a character.
pub proof fn lemma_trimmed_nonempty(s: Seq<char>)
    ensures
        trimmed(s).len() > 0 <==> has_visible_char(s),
        trimmed(s).len() > 0 ==> !white_space(trimmed(s)[0]) && !white_space(trimmed(s).last()),
        trimmed(s).len() > 0 ==> trimmed(trimmed(s)) == trimmed(s),
{
    lemma_leading_shape(s);
    let l = leading_white_space(s);
    let t = s.skip(l as int);
    lemma_trailing_shape(t);
    let r = trimmed(s);
    if has_visible_char(s) {
        let i = choose|i: int| 0 <= i < s.len() && !white_space(#[trigger] s[i]);
        assert(i >= l);
        assert(t[i - l] == s[i]);
        assert(i - l < t.len() - trailing_white_space(t));
        assert(r[0] == t[0]);
        assert(r.last() == t[t.len() - trailing_white_space(t) - 1]);
        assert(leading_white_space(r) == 0);
        assert(r.skip(0) =~= r);
        assert(trailing_white_space(r) == 0);
        assert(r.take(r.len() as int) =~= r);
    }
    if r.len() > 0 {
        assert(r[0] == t[0]);
        assert(t[0] == s[l as int]);
    }
}

proof fn lemma_leading_shape(s: Seq<char>)
    ensures
        leading_white_space(s) <= s.len(),
        forall|i: int| 0 <= i < leading_white_space(s) ==> white_space(#[trigger] s[i]),
        leading_white_space(s) < s.len() ==> !white_space(s[leading_white_space(s) as int]),
    decreases s.len(),
{
    if s.len() > 0 && white_space(s[0]) {
        let t = s.drop_first();
        lemma_leading_shape(t);
        assert forall|i: int| 0 <= i < leading_white_space(s) implies white_space(
            #[trigger] s[i],
        ) by {
            if i > 0 {
                assert(s[i] == t[i - 1]);
            }
        }
        if leading_white_space(s) < s.len() {
            assert(s[leading_white_space(s) as int] == t[leading_white_space(t) as int]);
        }
    }
}

proof fn lemma_trailing_shape(s: Seq<char>)
    ensures
        trailing_white_space(s) <= s.len(),
        forall|i: int|
            s.len() - trailing_white_space(s) <= i < s.len() ==> white_space(#[trigger] s[i]),
        trailing_white_space(s) < s.len() ==> !white_space(
            s[s.len() - trailing_white_space(s) - 1],
        ),
    decreases s.len(),
{
    if s.len() > 0 && white_space(s.last()) {
        let t = s.drop_last();
        lemma_trailing_shape(t);
        assert forall|i: int|
            s.len() - trailing_white_space(s) <= i < s.len() implies white_space(
            #[trigger] s[i],
        ) by {
            if i < s.len() - 1 {
                assert(s[i] == t[i]);
            }
        }
        if trailing_white_space(s) < s.len() {
            assert(s[s.len() - trailing_white_space(s) - 1] == t[t.len() - trailing_white_space(t)
                - 1]);
        }
    }
}

} // verus!
