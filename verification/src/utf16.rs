//! UTF-16 code units, as the platform accessibility APIs count text positions.

use vstd::prelude::*;
use crate::text::chars_of;

verus! {

/// The UTF-16 encoding of one character: one unit in the Basic Multilingual
/// Plane, otherwise a high and a low surrogate.
pub open spec fn encode_utf16_char(c: char) -> Seq<u16> {
    let v = c as u32;
    if v < 0x10000 {
        seq![v as u16]
    } else {
        let w = (v - 0x10000) as u32;
        seq![(0xD800 + w / 1024) as u16, (0xDC00 + w % 1024) as u16]
    }
}

/// The UTF-16 encoding of a text (what `str::encode_utf16` yields).
pub open spec fn encode_utf16(s: Seq<char>) -> Seq<u16>
    decreases s.len(),
{
    if s.len() == 0 {
        Seq::empty()
    } else {
        encode_utf16_char(s[0]) + encode_utf16(s.drop_first())
    }
}

pub open spec fn is_high_surrogate(u: u16) -> bool {
    0xD800 <= u <= 0xDBFF
}

pub open spec fn is_low_surrogate(u: u16) -> bool {
    0xDC00 <= u <= 0xDFFF
}

/// Lossy UTF-16 decoding (what `String::from_utf16_lossy` does): a surrogate
/// pair gives one character, a unit outside the surrogates gives itself, and
/// every unpaired surrogate gives U+FFFD.
pub open spec fn decode_utf16_lossy(u: Seq<u16>) -> Seq<char>
    decreases u.len(),
{
    if u.len() == 0 {
        Seq::empty()
    } else if is_high_surrogate(u[0]) && u.len() >= 2 && is_low_surrogate(u[1]) {
        seq![(0x10000 + (u[0] - 0xD800) * 1024 + (u[1] - 0xDC00)) as char] + decode_utf16_lossy(
            u.skip(2),
        )
    } else if is_high_surrogate(u[0]) || is_low_surrogate(u[0]) {
        seq!['\u{FFFD}'] + decode_utf16_lossy(u.drop_first())
    } else {
        seq![u[0] as char] + decode_utf16_lossy(u.drop_first())
    }
}

/// The first `n` UTF-16 code units of `s` (all of them when it has fewer),
/// decoded lossily: a surrogate pair cut in half becomes U+FFFD.
pub open spec fn utf16_truncated(s: Seq<char>, n: nat) -> Seq<char> {
    let u = encode_utf16(s);
    decode_utf16_lossy(
        u.take(
            if n < u.len() {
                n as int
            } else {
                u.len() as int
            },
        ),
    )
}

/// Number of UTF-16 code units of one character.
pub open spec fn utf16_width(c: char) -> nat {
    if (c as u32) < 0x10000 {
        1
    } else {
        2
    }
}

/// Character by character form of the truncation: whole characters while
/// they fit in `n` units, then U+FFFD for a character of which only half fits.
pub open spec fn utf16_prefix(s: Seq<char>, n: nat) -> Seq<char>
    decreases s.len(),
{
    if s.len() == 0 || n == 0 {
        Seq::empty()
    } else if utf16_width(s[0]) <= n {
        seq![s[0]] + utf16_prefix(s.drop_first(), (n - utf16_width(s[0])) as nat)
    } else {
        seq!['\u{FFFD}']
    }
}

proof fn lemma_encode_char(c: char)
    ensures
        encode_utf16_char(c).len() == utf16_width(c),
        utf16_width(c) == 1 ==> !is_high_surrogate(encode_utf16_char(c)[0])
            && !is_low_surrogate(encode_utf16_char(c)[0]) && encode_utf16_char(c)[0] as char == c,
        utf16_width(c) == 2 ==> is_high_surrogate(encode_utf16_char(c)[0]) && is_low_surrogate(
            encode_utf16_char(c)[1],
        ) && (0x10000 + (encode_utf16_char(c)[0] - 0xD800) * 1024 + (encode_utf16_char(c)[1]
            - 0xDC00)) as char == c,
{
    let v = c as u32;
    if v >= 0x10000 {
        let w = (v - 0x10000) as u32;
        assert(w <= 0xFFFFF);
        assert(w / 1024 <= 1023 && w % 1024 <= 1023 && (w / 1024) * 1024 + w % 1024 == w)
            by (nonlinear_arith)
            requires
                w <= 0xFFFFF,
        ;
    }
}

pub proof fn lemma_encode_len(s: Seq<char>)
    ensures
        encode_utf16(s).len() >= s.len(),
    decreases s.len(),
{
    if s.len() > 0 {
        lemma_encode_char(s[0]);
        lemma_encode_len(s.drop_first());
    }
}

/// Decoding a truncated encoding gives whole characters and, where a
/// surrogate pair was cut in half, U+FFFD.
pub proof fn lemma_truncated_is_prefix(s: Seq<char>, n: nat)
    requires
        n <= encode_utf16(s).len(),
    ensures
        decode_utf16_lossy(encode_utf16(s).take(n as int)) == utf16_prefix(s, n),
    decreases s.len(),
{
    let u = encode_utf16(s);
    if s.len() == 0 || n == 0 {
        assert(u.take(n as int) =~= Seq::<u16>::empty());
    } else {
        let c = s[0];
        let e = encode_utf16_char(c);
        let rest = encode_utf16(s.drop_first());
        lemma_encode_char(c);
        let t = u.take(n as int);
        if utf16_width(c) <= n {
            let w = utf16_width(c);
            lemma_truncated_is_prefix(s.drop_first(), (n - w) as nat);
            assert(u == e + rest);
            if w == 1 {
                assert(t[0] == e[0]);
                assert(t.drop_first() =~= rest.take(n - 1));
                assert(decode_utf16_lossy(t) == seq![c] + decode_utf16_lossy(t.drop_first()));
            } else {
                assert(t[0] == e[0]);
                assert(t[1] == e[1]);
                assert(t.skip(2) =~= rest.take(n - 2));
                assert(decode_utf16_lossy(t) == seq![c] + decode_utf16_lossy(t.skip(2)));
            }
            assert(utf16_prefix(s, n) == seq![c] + utf16_prefix(s.drop_first(), (n - w) as nat));
        } else {
            assert(u == e + rest);
            assert(t =~= seq![e[0]]);
            assert(t.drop_first() =~= Seq::<u16>::empty());
            assert(decode_utf16_lossy(t) == seq!['\u{FFFD}'] + decode_utf16_lossy(t.drop_first()));
        }
    }
}

/// A budget that covers the whole encoding keeps the whole text.
proof fn lemma_utf16_prefix_whole(s: Seq<char>, n: nat)
    requires
        n >= encode_utf16(s).len(),
    ensures
        utf16_prefix(s, n) == s,
    decreases s.len(),
{
    if s.len() > 0 {
        lemma_encode_char(s[0]);
        lemma_encode_len(s.drop_first());
        lemma_utf16_prefix_whole(s.drop_first(), (n - utf16_width(s[0])) as nat);
        assert(s =~= seq![s[0]] + s.drop_first());
    }
}

/// The truncation as decoding the first `n` code units, character by character.
pub proof fn lemma_utf16_truncated_prefix(s: Seq<char>, n: nat)
    ensures
        utf16_truncated(s, n) == utf16_prefix(s, n),
{
    let total = encode_utf16(s).len();
    if n < total {
        lemma_truncated_is_prefix(s, n);
    } else {
        lemma_truncated_is_prefix(s, total);
        lemma_utf16_prefix_whole(s, total);
        lemma_utf16_prefix_whole(s, n);
    }
}

/// Keep the first `utf16_len` UTF-16 code units of `s`.
pub fn truncate_utf16(s: &str, utf16_len: usize) -> (r: String)
    ensures
        r@ == utf16_truncated(s@, utf16_len as nat),
{
    let chars = chars_of(s);
    let mut out = String::new();
    let mut used: usize = 0;
    let mut i: usize = 0;
    proof {
        assert(chars@.skip(0) =~= chars@);
        lemma_utf16_truncated_prefix(s@, utf16_len as nat);
    }
    while i < chars.len() && used < utf16_len
        invariant_except_break
            chars@ == s@,
            i <= chars@.len(),
            used <= utf16_len,
            utf16_prefix(s@, utf16_len as nat) == out@ + utf16_prefix(
                chars@.skip(i as int),
                (utf16_len - used) as nat,
            ),
        ensures
            utf16_prefix(s@, utf16_len as nat) == out@,
        decreases chars@.len() - i,
    {
        let c = chars[i];
        let w: usize = if c as u32 >= 0x10000 {
            2
        } else {
            1
        };
        let ghost rest = chars@.skip(i as int);
        proof {
            assert(rest[0] == c);
            assert(rest.drop_first() =~= chars@.skip(i + 1));
        }
        if w <= utf16_len - used {
            out.push(c);
            used = used + w;
            i = i + 1;
        } else {
            out.push('\u{FFFD}');
            break;
        }
    }
    proof {
        if i == chars.len() {
            assert(chars@.skip(i as int) =~= Seq::<char>::empty());
        }
        assert(out@ + Seq::<char>::empty() =~= out@);
    }
    out
}

proof fn lemma_encode_cons(c: char, x: Seq<char>)
    ensures
        encode_utf16(seq![c] + x) == encode_utf16_char(c) + encode_utf16(x),
{
    assert((seq![c] + x)[0] == c);
    assert((seq![c] + x).drop_first() =~= x);
}

/// The truncated text is exactly `n` UTF-16 code units long, or as long as the
/// whole text when that is shorter: a half surrogate pair is replaced by a
/// single unit.
pub proof fn lemma_utf16_truncated_len(s: Seq<char>, n: nat)
    ensures
        encode_utf16(utf16_truncated(s, n)).len() == if n < encode_utf16(s).len() {
            n
        } else {
            encode_utf16(s).len()
        },
{
    lemma_utf16_truncated_prefix(s, n);
    lemma_utf16_prefix_len(s, n);
}

proof fn lemma_utf16_prefix_len(s: Seq<char>, n: nat)
    ensures
        encode_utf16(utf16_prefix(s, n)).len() == if n < encode_utf16(s).len() {
            n
        } else {
            encode_utf16(s).len()
        },
    decreases s.len(),
{
    if s.len() == 0 {
    } else if n == 0 {
        lemma_encode_char(s[0]);
    } else {
        let c = s[0];
        lemma_encode_char(c);
        if utf16_width(c) <= n {
            lemma_utf16_prefix_len(s.drop_first(), (n - utf16_width(c)) as nat);
            lemma_encode_cons(c, utf16_prefix(s.drop_first(), (n - utf16_width(c)) as nat));
        } else {
            lemma_encode_cons('\u{FFFD}', Seq::empty());
            lemma_encode_char('\u{FFFD}');
        }
    }
}

/// Truncating at or past the end of the text keeps the whole text.
pub proof fn lemma_utf16_truncated_whole(s: Seq<char>, n: nat)
    requires
        n >= encode_utf16(s).len(),
    ensures
        utf16_truncated(s, n) == s,
{
    lemma_utf16_truncated_prefix(s, n);
    lemma_utf16_prefix_whole(s, n);
}

/// The character-by-character truncation keeps a prefix of the text, or a
/// prefix followed by U+FFFD.
pub proof fn lemma_utf16_prefix_shape(s: Seq<char>, n: nat)
    ensures
        utf16_prefix(s, n).len() <= s.len(),
        ({
            let t = utf16_prefix(s, n);
            ||| t == s.take(t.len() as int)
            ||| t.len() > 0 && t.drop_last() == s.take(t.len() - 1) && t.last() == '\u{FFFD}'
        }),
    decreases s.len(),
{
    let t = utf16_prefix(s, n);
    if s.len() == 0 || n == 0 {
        assert(t =~= s.take(0));
    } else if utf16_width(s[0]) <= n {
        let rest = s.drop_first();
        let m = (n - utf16_width(s[0])) as nat;
        lemma_utf16_prefix_shape(rest, m);
        let u = utf16_prefix(rest, m);
        if u == rest.take(u.len() as int) {
            assert(t =~= s.take(t.len() as int));
        } else {
            assert(t.drop_last() =~= seq![s[0]] + u.drop_last());
            assert(t.drop_last() =~= s.take(t.len() - 1));
            assert(t.last() == u.last());
        }
    } else {
        assert(t.drop_last() =~= s.take(0));
    }
}

} // verus!
