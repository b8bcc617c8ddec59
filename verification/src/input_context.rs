//! Trims focused-field text injected through the `${input}` post-processing
//! placeholder down to its tail, so that a long document does not blow up
//! the prompt.

use vstd::prelude::*;
use crate::text::{chars_of, string_of};

verus! {

/// The text with every `\r\n` and then every remaining lone `\r` turned into `\n`.
pub open spec fn normalize_newlines(s: Seq<char>) -> Seq<char>
    decreases s.len(),
{
    if s.len() == 0 {
        Seq::empty()
    } else if s[0] == '\r' && s.len() >= 2 && s[1] == '\n' {
        seq!['\n'] + normalize_newlines(s.skip(2))
    } else if s[0] == '\r' {
        seq!['\n'] + normalize_newlines(s.drop_first())
    } else {
        seq![s[0]] + normalize_newlines(s.drop_first())
    }
}

/// Number of `\n` at the end of `s`.
pub open spec fn trailing_newlines(s: Seq<char>) -> nat
    decreases s.len(),
{
    if s.len() > 0 && s.last() == '\n' {
        1 + trailing_newlines(s.drop_last())
    } else {
        0
    }
}

/// Start of the last `n` lines of `s` (lines are separated by a single `\n`):
/// just after the `n`-th `\n` counted from the end, or 0 when there are fewer.
/// Meant for `n >= 1`.
pub open spec fn line_start_of(s: Seq<char>, n: nat) -> nat
    decreases s.len(),
{
    if s.len() == 0 {
        0
    } else if s.last() == '\n' {
        if n <= 1 {
            s.len()
        } else {
            line_start_of(s.drop_last(), (n - 1) as nat)
        }
    } else {
        line_start_of(s.drop_last(), n)
    }
}

/// Start of the last `n` paragraphs of `s`: paragraphs are separated by a run
/// of two or more `\n`, and the start is just after the `n`-th such run counted
/// from the end, or 0 when there are fewer. Meant for `n >= 1`.
pub open spec fn paragraph_start_of(s: Seq<char>, n: nat) -> nat
    decreases s.len(),
{
    if s.len() == 0 {
        0
    } else if s.last() != '\n' {
        paragraph_start_of(s.drop_last(), n)
    } else {
        let run = trailing_newlines(s);
        proof {
            lemma_trailing_newlines_bound(s);
        }
        if run >= 2 && n <= 1 {
            s.len()
        } else {
            paragraph_start_of(
                s.take(s.len() - run),
                if run >= 2 {
                    (n - 1) as nat
                } else {
                    n
                },
            )
        }
    }
}

/// Where the tail kept under the character limit `max_chars` (0: none) starts.
pub open spec fn char_limit_start(s: Seq<char>, max_chars: nat) -> nat {
    if max_chars > 0 && s.len() > max_chars {
        (s.len() - max_chars) as nat
    } else {
        0
    }
}

/// Where the tail kept under the line limit `max_lines` (0: none) starts.
pub open spec fn line_limit_start(s: Seq<char>, max_lines: nat) -> nat {
    if max_lines > 0 {
        line_start_of(s, max_lines)
    } else {
        0
    }
}

/// Where the tail kept under the paragraph limit `max_paragraphs` (0: none) starts.
pub open spec fn paragraph_limit_start(s: Seq<char>, max_paragraphs: nat) -> nat {
    if max_paragraphs > 0 {
        paragraph_start_of(s, max_paragraphs)
    } else {
        0
    }
}

/// The latest of the three starts: the limit that gives the shortest tail wins.
pub open spec fn context_start(
    s: Seq<char>,
    max_paragraphs: nat,
    max_lines: nat,
    max_chars: nat,
) -> nat {
    let a = char_limit_start(s, max_chars);
    let b = line_limit_start(s, max_lines);
    let c = paragraph_limit_start(s, max_paragraphs);
    let ab = if a >= b {
        a
    } else {
        b
    };
    if ab >= c {
        ab
    } else {
        c
    }
}

/// What `limit_context` returns: the text itself when every limit is 0, else
/// the tail of its newline-normalized form that the limits allow.
pub open spec fn limited_context(
    text: Seq<char>,
    max_paragraphs: nat,
    max_lines: nat,
    max_chars: nat,
) -> Seq<char> {
    if max_paragraphs == 0 && max_lines == 0 && max_chars == 0 {
        text
    } else {
        let s = normalize_newlines(text);
        s.skip(context_start(s, max_paragraphs, max_lines, max_chars) as int)
    }
}

pub proof fn lemma_trailing_newlines_bound(s: Seq<char>)
    ensures
        trailing_newlines(s) <= s.len(),
    decreases s.len(),
{
    if s.len() > 0 && s.last() == '\n' {
        lemma_trailing_newlines_bound(s.drop_last());
    }
}

proof fn lemma_trailing_newlines_step(s: Seq<char>, end: int)
    requires
        0 < end <= s.len(),
    ensures
        s[end - 1] == '\n' ==> trailing_newlines(s.take(end)) == 1 + trailing_newlines(
            s.take(end - 1),
        ),
        s[end - 1] != '\n' ==> trailing_newlines(s.take(end)) == 0,
{
    assert(s.take(end).drop_last() =~= s.take(end - 1));
    assert(s.take(end).last() == s[end - 1]);
}

pub proof fn lemma_line_start_bound(s: Seq<char>, n: nat)
    ensures
        line_start_of(s, n) <= s.len(),
    decreases s.len(),
{
    if s.len() > 0 {
        if s.last() == '\n' {
            if n > 1 {
                lemma_line_start_bound(s.drop_last(), (n - 1) as nat);
            }
        } else {
            lemma_line_start_bound(s.drop_last(), n);
        }
    }
}

pub proof fn lemma_paragraph_start_bound(s: Seq<char>, n: nat)
    ensures
        paragraph_start_of(s, n) <= s.len(),
    decreases s.len(),
{
    if s.len() > 0 {
        if s.last() != '\n' {
            lemma_paragraph_start_bound(s.drop_last(), n);
        } else {
            let run = trailing_newlines(s);
            lemma_trailing_newlines_bound(s);
            if !(run >= 2 && n <= 1) {
                let m = if run >= 2 {
                    (n - 1) as nat
                } else {
                    n
                };
                lemma_paragraph_start_bound(s.take(s.len() - run), m);
            }
        }
    }
}

pub proof fn lemma_context_start_bound(
    s: Seq<char>,
    max_paragraphs: nat,
    max_lines: nat,
    max_chars: nat,
)
    ensures
        context_start(s, max_paragraphs, max_lines, max_chars) <= s.len(),
{
    lemma_line_start_bound(s, max_lines);
    lemma_paragraph_start_bound(s, max_paragraphs);
}

/// `chars` with CRLF and lone CR turned into LF.
fn normalize(chars: &Vec<char>) -> (r: Vec<char>)
    ensures
        r@ == normalize_newlines(chars@),
{
    let mut out: Vec<char> = Vec::new();
    let mut i: usize = 0;
    let len = chars.len();
    proof {
        assert(chars@.skip(0) =~= chars@);
    }
    while i < len
        invariant
            len == chars@.len(),
            i <= len,
            normalize_newlines(chars@) == out@ + normalize_newlines(chars@.skip(i as int)),
        decreases len - i,
    {
        let ghost rest = chars@.skip(i as int);
        let c = chars[i];
        if c == '\r' && i + 1 < len && chars[i + 1] == '\n' {
            proof {
                assert(rest.skip(2) =~= chars@.skip(i + 2));
            }
            out.push('\n');
            i = i + 2;
        } else {
            proof {
                assert(rest.drop_first() =~= chars@.skip(i + 1));
            }
            if c == '\r' {
                out.push('\n');
            } else {
                out.push(c);
            }
            i = i + 1;
        }
        proof {
            assert(normalize_newlines(chars@) == out@ + normalize_newlines(chars@.skip(i as int)));
        }
    }
    proof {
        assert(chars@.skip(len as int) =~= Seq::<char>::empty());
        assert(out@ + Seq::<char>::empty() =~= out@);
    }
    out
}

/// Char index of the start of the last `n` lines (separator: a single `\n`).
pub fn line_start(chars: &Vec<char>, n: usize) -> (r: usize)
    requires
        n > 0,
    ensures
        r == line_start_of(chars@, n as nat),
{
    let mut count: usize = 0;
    let mut idx = chars.len();
    proof {
        assert(chars@.take(idx as int) =~= chars@);
    }
    while idx > 0
        invariant
            count < n,
            idx <= chars@.len(),
            line_start_of(chars@, n as nat) == line_start_of(
                chars@.take(idx as int),
                (n - count) as nat,
            ),
        decreases idx,
    {
        let ghost prefix = chars@.take(idx as int);
        proof {
            assert(prefix.drop_last() =~= chars@.take(idx - 1));
            assert(prefix.last() == chars@[idx - 1]);
        }
        idx = idx - 1;
        if chars[idx] == '\n' {
            count = count + 1;
            if count == n {
                return idx + 1;
            }
        }
    }
    0
}

/// Char index of the start of the last `n` paragraphs (separator: a run of
/// two or more consecutive `\n`).
pub fn paragraph_start(chars: &Vec<char>, n: usize) -> (r: usize)
    requires
        n > 0,
    ensures
        r == paragraph_start_of(chars@, n as nat),
{
    let mut boundaries: usize = 0;
    let mut idx = chars.len();
    proof {
        assert(chars@.take(idx as int) =~= chars@);
    }
    while idx > 0
        invariant
            boundaries < n,
            idx <= chars@.len(),
            paragraph_start_of(chars@, n as nat) == paragraph_start_of(
                chars@.take(idx as int),
                (n - boundaries) as nat,
            ),
        decreases idx,
    {
        let ghost prefix = chars@.take(idx as int);
        proof {
            assert(prefix.last() == chars@[idx - 1]);
        }
        idx = idx - 1;
        if chars[idx] == '\n' {
            // Expand to the full run of consecutive newlines.
            let run_end = idx;
            let mut run_start = idx;
            proof {
                lemma_trailing_newlines_step(chars@, idx + 1);
            }
            while run_start > 0 && chars[run_start - 1] == '\n'
                invariant
                    run_start <= run_end < chars@.len(),
                    trailing_newlines(prefix) == (run_end + 1 - run_start) + trailing_newlines(
                        chars@.take(run_start as int),
                    ),
                    prefix == chars@.take(run_end + 1),
                decreases run_start,
            {
                proof {
                    lemma_trailing_newlines_step(chars@, run_start as int);
                }
                run_start = run_start - 1;
            }
            proof {
                if run_start > 0 {
                    lemma_trailing_newlines_step(chars@, run_start as int);
                }
                assert(trailing_newlines(prefix) == run_end + 1 - run_start);
                assert(prefix.take(prefix.len() - trailing_newlines(prefix)) =~= chars@.take(
                    run_start as int,
                ));
            }
            if run_end - run_start + 1 >= 2 {
                boundaries = boundaries + 1;
                if boundaries == n {
                    return run_end + 1;
                }
            }
            idx = run_start;
        } else {
            proof {
                assert(prefix.drop_last() =~= chars@.take(idx as int));
            }
        }
    }
    0
}

/// Keep only the tail of `text` according to the enabled limits (0 = unlimited).
/// Limits are measured from the end of the text; whichever limit is hit first
/// (i.e. produces the shortest tail) wins. CRLF/CR are normalized to LF before
/// counting and in the returned text. When all limits are 0, the original text
/// is returned unchanged (no normalization).
pub fn limit_context(text: &str, max_paragraphs: usize, max_lines: usize, max_chars: usize) -> (r:
    String)
    ensures
        r@ == limited_context(text@, max_paragraphs as nat, max_lines as nat, max_chars as nat),
{
    if max_paragraphs == 0 && max_lines == 0 && max_chars == 0 {
        return text.to_owned();
    }
    let chars = chars_of(text);
    let normalized = normalize(&chars);
    let ghost s = normalized@;
    // Each enabled limit yields a start index; the largest start (shortest tail) wins.
    let mut start: usize = 0;
    if max_chars > 0 {
        let from_chars = if normalized.len() > max_chars {
            normalized.len() - max_chars
        } else {
            0
        };
        if from_chars > start {
            start = from_chars;
        }
    }
    if max_lines > 0 {
        let from_lines = line_start(&normalized, max_lines);
        if from_lines > start {
            start = from_lines;
        }
    }
    if max_paragraphs > 0 {
        let from_paragraphs = paragraph_start(&normalized, max_paragraphs);
        if from_paragraphs > start {
            start = from_paragraphs;
        }
    }
    proof {
        lemma_context_start_bound(s, max_paragraphs as nat, max_lines as nat, max_chars as nat);
        assert(start == context_start(s, max_paragraphs as nat, max_lines as nat, max_chars as nat));
        assert(s.subrange(start as int, s.len() as int) =~= s.skip(start as int));
    }
    string_of(&normalized, start, normalized.len())
}

/// Number of `\n` in `s`.
pub open spec fn newline_count(s: Seq<char>) -> nat
    decreases s.len(),
{
    if s.len() == 0 {
        0
    } else {
        (if s.last() == '\n' {
            1nat
        } else {
            0nat
        }) + newline_count(s.drop_last())
    }
}

/// The line limit keeps the last `n` lines: the kept tail holds `n - 1`
/// newlines, or all of them when the text has fewer than `n`; it is the whole
/// text exactly when the text has fewer than `n` newlines, and otherwise it
/// starts right after a newline.
pub proof fn lemma_line_start_keeps_last_lines(s: Seq<char>, n: nat)
    requires
        n >= 1,
    ensures
        line_start_of(s, n) <= s.len(),
        newline_count(s.skip(line_start_of(s, n) as int)) == if newline_count(s) < n {
            newline_count(s)
        } else {
            (n - 1) as nat
        },
        line_start_of(s, n) == 0 <==> newline_count(s) < n,
        line_start_of(s, n) > 0 ==> s[line_start_of(s, n) - 1] == '\n',
    decreases s.len(),
{
    lemma_line_start_bound(s, n);
    if s.len() == 0 {
        assert(s.skip(0) =~= s);
    } else {
        let t = s.drop_last();
        let k = line_start_of(s, n);
        if s.last() == '\n' && n <= 1 {
            assert(s.skip(k as int) =~= Seq::<char>::empty());
        } else {
            let m = if s.last() == '\n' {
                (n - 1) as nat
            } else {
                n
            };
            lemma_line_start_keeps_last_lines(t, m);
            assert(s.skip(k as int).drop_last() =~= t.skip(k as int));
            assert(s.skip(k as int).last() == s.last());
            if k > 0 {
                assert(s[k - 1] == t[k - 1]);
            } else {
                assert(s.skip(0) =~= s);
            }
        }
    }
}

/// Number of paragraph breaks in `s`: maximal runs of two or more `\n`.
pub open spec fn paragraph_breaks(s: Seq<char>) -> nat
    decreases s.len(),
{
    if s.len() == 0 {
        0
    } else if s.last() != '\n' {
        paragraph_breaks(s.drop_last())
    } else {
        let run = trailing_newlines(s);
        proof {
            lemma_trailing_newlines_bound(s);
        }
        (if run >= 2 {
            1nat
        } else {
            0nat
        }) + paragraph_breaks(s.take(s.len() - run))
    }
}

proof fn lemma_trailing_newlines_shape(s: Seq<char>)
    ensures
        trailing_newlines(s) <= s.len(),
        forall|i: int| s.len() - trailing_newlines(s) <= i < s.len() ==> s[i] == '\n',
        trailing_newlines(s) < s.len() ==> s[s.len() - trailing_newlines(s) - 1] != '\n',
    decreases s.len(),
{
    if s.len() > 0 && s.last() == '\n' {
        let t = s.drop_last();
        lemma_trailing_newlines_shape(t);
        assert forall|i: int| s.len() - trailing_newlines(s) <= i < s.len() implies s[i]
            == '\n' by {
            if i < s.len() - 1 {
                assert(s[i] == t[i]);
            }
        }
        if trailing_newlines(s) < s.len() {
            assert(s[s.len() - trailing_newlines(s) - 1] == t[t.len() - trailing_newlines(t) - 1]);
        }
    }
}

/// Appending newlines to a text that does not end in one makes them its whole
/// trailing run.
proof fn lemma_trailing_newlines_append(x: Seq<char>, y: Seq<char>)
    requires
        x.len() == 0 || x.last() != '\n',
        forall|i: int| 0 <= i < y.len() ==> y[i] == '\n',
    ensures
        trailing_newlines(x + y) == y.len(),
    decreases y.len(),
{
    if y.len() == 0 {
        assert(x + y =~= x);
        if x.len() > 0 {
            assert((x + y).last() == x.last());
        }
    } else {
        lemma_trailing_newlines_append(x, y.drop_last());
        assert((x + y).drop_last() =~= x + y.drop_last());
        assert((x + y).last() == y.last());
    }
}

/// The paragraph limit keeps the last `n` paragraphs: the kept tail holds
/// `n - 1` paragraph breaks, or all of them when the text has fewer than `n`;
/// it is the whole text exactly when the text has fewer than `n` breaks, and
/// otherwise it starts right after a whole run of two or more newlines.
pub proof fn lemma_paragraph_start_keeps_last_paragraphs(s: Seq<char>, n: nat)
    requires
        n >= 1,
    ensures
        paragraph_start_of(s, n) <= s.len(),
        paragraph_breaks(s.skip(paragraph_start_of(s, n) as int)) == if paragraph_breaks(s)
            < n {
            paragraph_breaks(s)
        } else {
            (n - 1) as nat
        },
        paragraph_start_of(s, n) == 0 <==> paragraph_breaks(s) < n,
        paragraph_start_of(s, n) > 0 ==> {
            let p = paragraph_start_of(s, n);
            &&& p >= 2
            &&& s[p - 1] == '\n'
            &&& s[p - 2] == '\n'
            &&& (p == s.len() || s[p as int] != '\n')
        },
    decreases s.len(),
{
    lemma_paragraph_start_bound(s, n);
    let p = paragraph_start_of(s, n);
    if s.len() == 0 {
        assert(s.skip(0) =~= s);
    } else if s.last() != '\n' {
        let t = s.drop_last();
        lemma_paragraph_start_keeps_last_paragraphs(t, n);
        assert(s.skip(p as int).drop_last() =~= t.skip(p as int));
        assert(s.skip(p as int).last() == s.last());
        if p > 0 {
            assert(s[p - 1] == t[p - 1]);
            assert(s[p - 2] == t[p - 2]);
            if p < t.len() {
                assert(s[p as int] == t[p as int]);
            }
        } else {
            assert(s.skip(0) =~= s);
        }
    } else {
        let run = trailing_newlines(s);
        lemma_trailing_newlines_shape(s);
        let u = s.take(s.len() - run);
        if run >= 2 && n <= 1 {
            assert(s.skip(p as int) =~= Seq::<char>::empty());
        } else {
            let m = if run >= 2 {
                (n - 1) as nat
            } else {
                n
            };
            lemma_paragraph_start_keeps_last_paragraphs(u, m);
            let ghost nl = s.skip(u.len() as int);
            assert(s.skip(p as int) =~= u.skip(p as int) + nl);
            if u.len() > 0 {
                assert(u.last() == s[s.len() - run - 1]);
            }
            if u.skip(p as int).len() > 0 {
                assert(u.skip(p as int).last() == u.last());
            }
            lemma_trailing_newlines_append(u.skip(p as int), nl);
            assert((u.skip(p as int) + nl).take((u.skip(p as int) + nl).len() - run) =~= u.skip(
                p as int,
            ));
            if p > 0 {
                assert(s[p - 1] == u[p - 1]);
                assert(s[p - 2] == u[p - 2]);
                if p == u.len() {
                    assert(u[p - 1] == u.last());
                }
                assert(s[p as int] == u[p as int]);
            } else {
                assert(s.skip(0) =~= s);
                assert(u.skip(0) =~= u);
            }
        }
    }
}

/// Newline normalization leaves no `\r`, and changes nothing in a text that has none.
pub proof fn lemma_normalize_newlines(s: Seq<char>)
    ensures
        forall|i: int|
            0 <= i < normalize_newlines(s).len() ==> #[trigger] normalize_newlines(s)[i] != '\r',
        (forall|i: int| 0 <= i < s.len() ==> s[i] != '\r') ==> normalize_newlines(s) == s,
    decreases s.len(),
{
    if s.len() > 0 {
        let n = normalize_newlines(s);
        if s[0] == '\r' && s.len() >= 2 && s[1] == '\n' {
            let t = s.skip(2);
            lemma_normalize_newlines(t);
            assert forall|i: int| 0 <= i < n.len() implies #[trigger] n[i] != '\r' by {
                if i > 0 {
                    assert(n[i] == normalize_newlines(t)[i - 1]);
                }
            }
        } else {
            let t = s.drop_first();
            lemma_normalize_newlines(t);
            assert forall|i: int| 0 <= i < n.len() implies #[trigger] n[i] != '\r' by {
                if i > 0 {
                    assert(n[i] == normalize_newlines(t)[i - 1]);
                }
            }
            if forall|i: int| 0 <= i < s.len() ==> s[i] != '\r' {
                assert forall|i: int| 0 <= i < t.len() implies t[i] != '\r' by {
                    assert(t[i] == s[i + 1]);
                }
                assert(normalize_newlines(s) =~= s);
            }
        }
    }
}

proof fn lemma_newline_count_split(s: Seq<char>, k: int)
    requires
        0 <= k <= s.len(),
    ensures
        newline_count(s) == newline_count(s.take(k)) + newline_count(s.skip(k)),
    decreases s.len(),
{
    if k == s.len() {
        assert(s.take(k) =~= s);
        assert(s.skip(k) =~= Seq::<char>::empty());
    } else {
        let t = s.drop_last();
        lemma_newline_count_split(t, k);
        assert(t.take(k) =~= s.take(k));
        assert(s.skip(k).drop_last() =~= t.skip(k));
        assert(s.skip(k).last() == s.last());
    }
}

/// A shorter tail holds no more newlines than a longer one.
pub proof fn lemma_newline_count_suffix(s: Seq<char>, k1: int, k2: int)
    requires
        0 <= k1 <= k2 <= s.len(),
    ensures
        newline_count(s.skip(k2)) <= newline_count(s.skip(k1)),
{
    lemma_newline_count_split(s.skip(k1), k2 - k1);
    assert(s.skip(k1).skip(k2 - k1) =~= s.skip(k2));
}

proof fn lemma_paragraph_breaks_skip(s: Seq<char>, k: int)
    requires
        0 <= k <= s.len(),
    ensures
        paragraph_breaks(s.skip(k)) <= paragraph_breaks(s),
    decreases s.len(),
{
    let x = s.skip(k);
    if k == s.len() {
        assert(x =~= Seq::<char>::empty());
    } else if s.last() != '\n' {
        let t = s.drop_last();
        lemma_paragraph_breaks_skip(t, k);
        assert(x.drop_last() =~= t.skip(k));
        assert(x.last() == s.last());
    } else {
        let run = trailing_newlines(s);
        lemma_trailing_newlines_shape(s);
        let u = s.take(s.len() - run);
        if k <= s.len() - run {
            lemma_paragraph_breaks_skip(u, k);
            let nl = s.skip(u.len() as int);
            assert(x =~= u.skip(k) + nl);
            if u.len() > 0 {
                assert(u.last() == s[s.len() - run - 1]);
            }
            if u.skip(k).len() > 0 {
                assert(u.skip(k).last() == u.last());
            }
            lemma_trailing_newlines_append(u.skip(k), nl);
            assert(x.take(x.len() - run) =~= u.skip(k));
            assert(x.last() == '\n');
        } else {
            let e = Seq::<char>::empty();
            assert forall|i: int| 0 <= i < x.len() implies x[i] == '\n' by {
                assert(x[i] == s[i + k]);
            }
            lemma_trailing_newlines_append(e, x);
            assert(e + x =~= x);
            assert(x.take(0) =~= e);
            assert(x.last() == s.last());
            assert(trailing_newlines(x) == x.len());
            assert(paragraph_breaks(x.take(0)) == 0);
            assert(paragraph_breaks(x) <= 1);
        }
    }
}

/// A shorter tail holds no more paragraph breaks than a longer one.
pub proof fn lemma_paragraph_breaks_suffix(s: Seq<char>, k1: int, k2: int)
    requires
        0 <= k1 <= k2 <= s.len(),
    ensures
        paragraph_breaks(s.skip(k2)) <= paragraph_breaks(s.skip(k1)),
{
    lemma_paragraph_breaks_skip(s.skip(k1), k2 - k1);
    assert(s.skip(k1).skip(k2 - k1) =~= s.skip(k2));
}

/// With every limit 0 the text comes back as it is, carriage returns included.
pub proof fn lemma_no_limits_unchanged(text: Seq<char>)
    ensures
        limited_context(text, 0, 0, 0) == text,
{
}

/// With some limit set, the result is a tail of the newline-normalized text,
/// holds no `\r`, and obeys every limit that is set: at most `max_chars`
/// characters, fewer than `max_lines` newlines (at most that many lines), and
/// fewer than `max_paragraphs` paragraph breaks.
pub proof fn lemma_limited_context_obeys_limits(
    text: Seq<char>,
    max_paragraphs: nat,
    max_lines: nat,
    max_chars: nat,
)
    requires
        max_paragraphs > 0 || max_lines > 0 || max_chars > 0,
    ensures
        ({
            let s = normalize_newlines(text);
            let r = limited_context(text, max_paragraphs, max_lines, max_chars);
            &&& r.len() <= s.len()
            &&& r == s.skip(s.len() - r.len())
            &&& forall|i: int| 0 <= i < r.len() ==> r[i] != '\r'
            &&& max_chars > 0 ==> r.len() <= max_chars
            &&& max_lines > 0 ==> newline_count(r) < max_lines
            &&& max_paragraphs > 0 ==> paragraph_breaks(r) < max_paragraphs
        }),
{
    let s = normalize_newlines(text);
    let k = context_start(s, max_paragraphs, max_lines, max_chars);
    lemma_context_start_bound(s, max_paragraphs, max_lines, max_chars);
    let r = s.skip(k as int);
    lemma_normalize_newlines(text);
    assert forall|i: int| 0 <= i < r.len() implies r[i] != '\r' by {
        assert(r[i] == s[i + k]);
    }
    if max_lines > 0 {
        lemma_line_start_keeps_last_lines(s, max_lines);
        lemma_newline_count_suffix(s, line_start_of(s, max_lines) as int, k as int);
    }
    if max_paragraphs > 0 {
        lemma_paragraph_start_keeps_last_paragraphs(s, max_paragraphs);
        lemma_paragraph_breaks_suffix(s, paragraph_start_of(s, max_paragraphs) as int, k as int);
    }
}

/// Whichever limit gives the shortest tail wins: the result is the
/// single-limit result of one of the limits that are set, and it is a tail of
/// the single-limit result of each of them.
pub proof fn lemma_most_restrictive_limit_wins(
    text: Seq<char>,
    max_paragraphs: nat,
    max_lines: nat,
    max_chars: nat,
)
    requires
        max_paragraphs > 0 || max_lines > 0 || max_chars > 0,
    ensures
        ({
            let r = limited_context(text, max_paragraphs, max_lines, max_chars);
            let by_paragraphs = limited_context(text, max_paragraphs, 0, 0);
            let by_lines = limited_context(text, 0, max_lines, 0);
            let by_chars = limited_context(text, 0, 0, max_chars);
            &&& max_paragraphs > 0 ==> r.len() <= by_paragraphs.len() && r == by_paragraphs.skip(
                by_paragraphs.len() - r.len(),
            )
            &&& max_lines > 0 ==> r.len() <= by_lines.len() && r == by_lines.skip(
                by_lines.len() - r.len(),
            )
            &&& max_chars > 0 ==> r.len() <= by_chars.len() && r == by_chars.skip(
                by_chars.len() - r.len(),
            )
            &&& (max_paragraphs > 0 && r == by_paragraphs) || (max_lines > 0 && r == by_lines) || (
            max_chars > 0 && r == by_chars)
        }),
{
    let s = normalize_newlines(text);
    lemma_context_start_bound(s, max_paragraphs, max_lines, max_chars);
    lemma_context_start_bound(s, max_paragraphs, 0, 0);
    lemma_context_start_bound(s, 0, max_lines, 0);
    lemma_context_start_bound(s, 0, 0, max_chars);
    let k = context_start(s, max_paragraphs, max_lines, max_chars);
    let r = s.skip(k as int);
    if max_paragraphs > 0 {
        let kp = context_start(s, max_paragraphs, 0, 0);
        assert(s.skip(kp as int).skip(k - kp) =~= r);
    }
    if max_lines > 0 {
        let kl = context_start(s, 0, max_lines, 0);
        assert(s.skip(kl as int).skip(k - kl) =~= r);
    }
    if max_chars > 0 {
        let kc = context_start(s, 0, 0, max_chars);
        assert(s.skip(kc as int).skip(k - kc) =~= r);
    }
}

/// Limiting an already limited context with the same limits changes nothing.
pub proof fn lemma_limited_context_idempotent(
    text: Seq<char>,
    max_paragraphs: nat,
    max_lines: nat,
    max_chars: nat,
)
    ensures
        limited_context(
            limited_context(text, max_paragraphs, max_lines, max_chars),
            max_paragraphs,
            max_lines,
            max_chars,
        ) == limited_context(text, max_paragraphs, max_lines, max_chars),
{
    if max_paragraphs > 0 || max_lines > 0 || max_chars > 0 {
        let r = limited_context(text, max_paragraphs, max_lines, max_chars);
        lemma_limited_context_obeys_limits(text, max_paragraphs, max_lines, max_chars);
        lemma_normalize_newlines(r);
        if max_lines > 0 {
            lemma_line_start_keeps_last_lines(r, max_lines);
        }
        if max_paragraphs > 0 {
            lemma_paragraph_start_keeps_last_paragraphs(r, max_paragraphs);
        }
        assert(context_start(r, max_paragraphs, max_lines, max_chars) == 0);
        assert(r.skip(0) =~= r);
    }
}

/// The character limit alone keeps the last `max_chars` characters of the
/// normalized text, or all of it when it is shorter.
pub proof fn lemma_char_limit_keeps_last_chars(text: Seq<char>, max_chars: nat)
    requires
        max_chars > 0,
    ensures
        ({
            let s = normalize_newlines(text);
            let r = limited_context(text, 0, 0, max_chars);
            &&& r.len() == if s.len() < max_chars {
                s.len()
            } else {
                max_chars
            }
            &&& r == s.skip(s.len() - r.len())
        }),
{
}

/// Asking for more lines never moves the start of the kept tail later.
pub proof fn lemma_line_start_monotonic(s: Seq<char>, n1: nat, n2: nat)
    requires
        1 <= n1 <= n2,
    ensures
        line_start_of(s, n2) <= line_start_of(s, n1) <= s.len(),
    decreases s.len(),
{
    lemma_line_start_bound(s, n1);
    lemma_line_start_bound(s, n2);
    if s.len() > 0 {
        if s.last() == '\n' {
            if n1 > 1 {
                lemma_line_start_monotonic(s.drop_last(), (n1 - 1) as nat, (n2 - 1) as nat);
            }
        } else {
            lemma_line_start_monotonic(s.drop_last(), n1, n2);
        }
    }
}

/// Asking for more paragraphs never moves the start of the kept tail later.
pub proof fn lemma_paragraph_start_monotonic(s: Seq<char>, n1: nat, n2: nat)
    requires
        1 <= n1 <= n2,
    ensures
        paragraph_start_of(s, n2) <= paragraph_start_of(s, n1) <= s.len(),
    decreases s.len(),
{
    lemma_paragraph_start_bound(s, n1);
    lemma_paragraph_start_bound(s, n2);
    if s.len() > 0 {
        if s.last() != '\n' {
            lemma_paragraph_start_monotonic(s.drop_last(), n1, n2);
        } else {
            let run = trailing_newlines(s);
            lemma_trailing_newlines_bound(s);
            let u = s.take(s.len() - run);
            if run >= 2 {
                if n1 > 1 {
                    lemma_paragraph_start_monotonic(u, (n1 - 1) as nat, (n2 - 1) as nat);
                }
            } else {
                lemma_paragraph_start_monotonic(u, n1, n2);
            }
        }
    }
}

/// In a text without any `\r\n`, normalization turns each `\r` into `\n`
/// and keeps every other character, in place.
pub proof fn lemma_normalize_lone_carriage_returns(s: Seq<char>)
    requires
        forall|i: int| 0 <= i < s.len() - 1 && #[trigger] s[i] == '\r' ==> s[i + 1] != '\n',
    ensures
        normalize_newlines(s).len() == s.len(),
        forall|i: int|
            0 <= i < s.len() ==> #[trigger] normalize_newlines(s)[i] == if s[i] == '\r' {
                '\n'
            } else {
                s[i]
            },
    decreases s.len(),
{
    if s.len() > 0 {
        let t = s.drop_first();
        assert forall|i: int| 0 <= i < t.len() - 1 && #[trigger] t[i] == '\r' implies t[i + 1]
            != '\n' by {
            assert(s[i + 1] == t[i]);
        }
        lemma_normalize_lone_carriage_returns(t);
        if s[0] == '\r' && s.len() >= 2 {
            assert(s[1] != '\n');
        }
        let n = normalize_newlines(s);
        assert forall|i: int| 0 <= i < s.len() implies #[trigger] n[i] == if s[i] == '\r' {
            '\n'
        } else {
            s[i]
        } by {
            if i > 0 {
                assert(n[i] == normalize_newlines(t)[i - 1]);
                assert(t[i - 1] == s[i]);
            }
        }
    }
}

} // verus!
