//! The name of the foreground (active) application.
//!
//! Used to substitute the `${app}` placeholder in post-processing prompts with
//! the active application's name. The platform layer reports what it read as
//! a `ForegroundAppReading`; `None` comes back when no name can be determined,
//! and callers then treat the value as an empty string.

use vstd::prelude::*;
use crate::text::chars_of;
use crate::whitespace::{has_visible_char, lemma_trimmed_nonempty, trim, trimmed, white_space};

verus! {

/// What the platform layer read about the foreground application.
pub enum ForegroundAppReading {
    /// Nothing could be read (no platform support, or the platform API failed).
    Unknown,
    /// macOS: the title of the system-wide focused application element.
    Title(String),
    /// Windows: the full image path of the foreground window's process.
    ImagePath(String),
}

/// The string's view, inside an `Option`.
pub open spec fn option_view(o: Option<String>) -> Option<Seq<char>> {
    match o {
        Some(s) => Some(s@),
        None => None,
    }
}

/// An application name as reported: trimmed, and `None` when nothing is left.
pub open spec fn app_name_from(raw: Seq<char>) -> Option<Seq<char>> {
    if trimmed(raw).len() == 0 {
        None
    } else {
        Some(trimmed(raw))
    }
}

/// `a` occurs as a contiguous part of `b`.
pub open spec fn is_infix(a: Seq<char>, b: Seq<char>) -> bool {
    exists|i: int| 0 <= i && i + a.len() <= b.len() && #[trigger] b.subrange(i, i + a.len()) == a
}

/// Index of the last `c` in `s`, or -1 when there is none.
pub open spec fn last_index_of(s: Seq<char>, c: char) -> int
    decreases s.len(),
{
    if s.len() == 0 {
        -1
    } else if s.last() == c {
        s.len() - 1
    } else {
        last_index_of(s.drop_last(), c)
    }
}

/// The stem of a file name, as `Path::file_stem` documents it: the part
/// before the final `.`, or the whole name when it has no `.` or its only `.`
/// is the first character.
pub open spec fn name_stem(name: Seq<char>) -> Seq<char> {
    let i = last_index_of(name, '.');
    if i <= 0 {
        name
    } else {
        name.take(i)
    }
}

/// A path that is a bare file name on every platform: not empty, not `.` or
/// `..`, and without `/`, `\` or `:`.
pub open spec fn plain_file_name(path: Seq<char>) -> bool {
    &&& path.len() > 0
    &&& path != seq!['.']
    &&& path != seq!['.', '.']
    &&& !path.contains('/')
    &&& !path.contains('\\')
    &&& !path.contains(':')
}

/// The part of `s` after its last `c` (all of `s` when it has none).
pub open spec fn after_last(s: Seq<char>, c: char) -> Seq<char> {
    s.skip(last_index_of(s, c) + 1)
}

/// The part of `s` after its last `/` or `\`.
pub open spec fn final_segment(s: Seq<char>) -> Seq<char> {
    let i = last_index_of(s, '/');
    let j = last_index_of(s, '\\');
    s.skip(
        if i >= j {
            i + 1
        } else {
            j + 1
        },
    )
}

/// A final path segment that names a file on every platform: not empty, not
/// `.` or `..`, and without `:` (which could make it part of a drive prefix).
pub open spec fn plain_segment(f: Seq<char>) -> bool {
    &&& f.len() > 0
    &&& f != seq!['.']
    &&& f != seq!['.', '.']
    &&& !f.contains(':')
}

pub open spec fn is_separator(c: char) -> bool {
    c == '/' || c == '\\'
}

/// The path starts with two separators (a UNC, device or verbatim prefix on
/// Windows may start so).
pub open spec fn starts_with_two_separators(s: Seq<char>) -> bool {
    s.len() >= 2 && is_separator(s[0]) && is_separator(s[1])
}

/// A Windows verbatim path (`\\?\...`), in which only `\` separates.
pub open spec fn is_verbatim(s: Seq<char>) -> bool {
    s.len() >= 4 && s[0] == '\\' && s[1] == '\\' && s[2] == '?' && s[3] == '\\'
}

/// The path surely has a file name, whatever the platform: its final segment
/// names a file and no prefix can swallow it.
pub open spec fn surely_named(path: Seq<char>) -> bool {
    plain_segment(final_segment(path)) && !starts_with_two_separators(path)
}

/// What a file stem of `path` may be on any platform: a non-empty part of the
/// path, without `/` unless the path is verbatim; and when the final segment
/// names a file, the stem of that segment (Windows), of the part after the
/// last `\` (only for Windows verbatim paths) or of the part after the last
/// `/` (Unix).
pub open spec fn possible_file_stem(path: Seq<char>, stem: Seq<char>) -> bool {
    &&& stem.len() > 0
    &&& is_infix(stem, path)
    &&& !is_verbatim(path) ==> !stem.contains('/')
    &&& plain_segment(final_segment(path)) ==> {
        ||| stem == name_stem(final_segment(path))
        ||| is_verbatim(path) && stem == name_stem(after_last(path, '\\'))
        ||| stem == name_stem(after_last(path, '/'))
    }
}

/// What `exe_stem` may give for `path`: a possible file stem, or the path
/// itself when the path may have no file name.
pub open spec fn possible_exe_stem(path: Seq<char>, stem: Seq<char>) -> bool {
    possible_file_stem(path, stem) || (stem == path && !surely_named(path))
}

proof fn lemma_last_index_absent(s: Seq<char>, c: char)
    requires
        !s.contains(c),
    ensures
        last_index_of(s, c) == -1,
    decreases s.len(),
{
    if s.len() > 0 {
        assert(s[s.len() - 1] == s.last());
        assert(!s.drop_last().contains(c)) by {
            if s.drop_last().contains(c) {
                let k = choose|k: int| 0 <= k < s.drop_last().len() && s.drop_last()[k] == c;
                assert(s[k] == c);
            }
        }
        lemma_last_index_absent(s.drop_last(), c);
    }
}

/// For a bare file name, the only possible result of `exe_stem` is its stem.
pub proof fn lemma_bare_file_name_stem(path: Seq<char>, stem: Seq<char>)
    requires
        plain_file_name(path),
        possible_exe_stem(path, stem),
    ensures
        stem == name_stem(path),
{
    lemma_last_index_absent(path, '/');
    lemma_last_index_absent(path, '\\');
    assert(path.skip(0) =~= path);
    assert(!starts_with_two_separators(path)) by {
        if starts_with_two_separators(path) {
            assert(path.contains(path[0]));
        }
    }
}

proof fn lemma_last_index_props(s: Seq<char>, c: char)
    ensures
        -1 <= last_index_of(s, c) < s.len(),
        last_index_of(s, c) >= 0 ==> s[last_index_of(s, c)] == c,
        forall|i: int| last_index_of(s, c) < i < s.len() ==> s[i] != c,
    decreases s.len(),
{
    if s.len() > 0 {
        let t = s.drop_last();
        lemma_last_index_props(t, c);
        if s.last() != c {
            assert forall|i: int| last_index_of(s, c) < i < s.len() implies s[i] != c by {
                if i < s.len() - 1 {
                    assert(s[i] == t[i]);
                }
            }
            if last_index_of(s, c) >= 0 {
                assert(s[last_index_of(s, c)] == t[last_index_of(t, c)]);
            }
        }
    }
}

proof fn lemma_last_index_is(s: Seq<char>, c: char, j: int)
    requires
        -1 <= j < s.len(),
        j >= 0 ==> s[j] == c,
        forall|i: int| j < i < s.len() ==> s[i] != c,
    ensures
        last_index_of(s, c) == j,
{
    lemma_last_index_props(s, c);
}

/// The final segment is the part after the last `/` or `\`: it holds
/// neither, and the character before it (if any) is one of them.
pub proof fn lemma_final_segment_shape(s: Seq<char>) -> (k: int)
    ensures
        0 <= k <= s.len(),
        final_segment(s) == s.skip(k),
        k > 0 ==> s[k - 1] == '/' || s[k - 1] == '\\',
        forall|i: int| k <= i < s.len() ==> s[i] != '/' && s[i] != '\\',
{
    lemma_last_index_props(s, '/');
    lemma_last_index_props(s, '\\');
    let i = last_index_of(s, '/');
    let j = last_index_of(s, '\\');
    if i >= j {
        i + 1
    } else {
        j + 1
    }
}

/// The stem of a name is the part before its last `.`, or the whole name when
/// no `.` follows its first character.
pub proof fn lemma_name_stem_shape(name: Seq<char>) -> (len: int)
    ensures
        name_stem(name) == name.take(len),
        ({
            ||| len == name.len() && forall|i: int| 1 <= i < name.len() ==> name[i] != '.'
            ||| 0 < len < name.len() && name[len] == '.' && forall|i: int|
                len < i < name.len() ==> name[i] != '.'
        }),
{
    lemma_last_index_props(name, '.');
    let i = last_index_of(name, '.');
    if i <= 0 {
        assert(name.take(name.len() as int) =~= name);
        name.len() as int
    } else {
        i
    }
}

/// `s` with every `\` turned into `/`.
pub open spec fn slashes(s: Seq<char>) -> Seq<char> {
    Seq::new(s.len(), |i: int| if s[i] == '\\' { '/' } else { s[i] })
}

/// `path` with every `\` turned into `/`.
fn slash_separated(path: &str) -> (r: String)
    ensures
        r@ == slashes(path@),
{
    let chars = chars_of(path);
    let mut r = String::new();
    let mut i: usize = 0;
    while i < chars.len()
        invariant
            chars@ == path@,
            i <= chars@.len(),
            r@ == slashes(path@).take(i as int),
        decreases chars@.len() - i,
    {
        let c = chars[i];
        if c == '\\' {
            r.push('/');
        } else {
            r.push(c);
        }
        proof {
            assert(slashes(path@).take(i + 1) =~= slashes(path@).take(i as int).push(
                slashes(path@)[i as int],
            ));
        }
        i = i + 1;
    }
    proof {
        assert(slashes(path@).take(chars@.len() as int) =~= slashes(path@));
    }
    r
}

/// Where the final segment of `chars` starts.
fn final_segment_start(chars: &Vec<char>) -> (k: usize)
    ensures
        k <= chars@.len(),
        final_segment(chars@) == chars@.skip(k as int),
        k > 0 ==> chars@[k - 1] == '/' || chars@[k - 1] == '\\',
        forall|i: int| k <= i < chars@.len() ==> chars@[i] != '/' && chars@[i] != '\\',
{
    let mut k = chars.len();
    while k > 0 && chars[k - 1] != '/' && chars[k - 1] != '\\'
        invariant
            k <= chars@.len(),
            forall|i: int| k <= i < chars@.len() ==> chars@[i] != '/' && chars@[i] != '\\',
        decreases k,
    {
        k = k - 1;
    }
    proof {
        let s = chars@;
        lemma_last_index_props(s, '/');
        lemma_last_index_props(s, '\\');
        let i = last_index_of(s, '/');
        let j = last_index_of(s, '\\');
        if k > 0 {
            if s[k - 1] == '/' {
                lemma_last_index_is(s, '/', k - 1);
            } else {
                lemma_last_index_is(s, '\\', k - 1);
            }
        } else {
            lemma_last_index_is(s, '/', -1);
            lemma_last_index_is(s, '\\', -1);
        }
    }
    k
}

/// Whether the path surely has a file name (see `surely_named`).
fn is_surely_named(chars: &Vec<char>) -> (r: bool)
    ensures
        r == surely_named(chars@),
{
    let n = chars.len();
    let k = final_segment_start(chars);
    let ghost f = chars@.skip(k as int);
    let len = n - k;
    if len == 0 {
        return false;
    }
    if len == 1 && chars[k] == '.' {
        assert(f =~= seq!['.']);
        return false;
    }
    if len == 2 && chars[k] == '.' && chars[k + 1] == '.' {
        assert(f =~= seq!['.', '.']);
        return false;
    }
    proof {
        assert(f.len() == len);
        if f == seq!['.'] {
            assert(seq!['.'][0] == '.');
            assert(f[0] == chars@[k as int]);
            assert(false);
        }
        if f == seq!['.', '.'] {
            assert(seq!['.', '.'][0] == '.' && seq!['.', '.'][1] == '.');
            assert(f[0] == chars@[k as int]);
            assert(f[1] == chars@[k + 1]);
            assert(false);
        }
    }
    let mut i = k;
    while i < n
        invariant
            k <= i <= n,
            n == chars@.len(),
            f == chars@.skip(k as int),
            final_segment(chars@) == f,
            f.len() > 0,
            f != seq!['.'],
            f != seq!['.', '.'],
            forall|m: int| k <= m < i ==> chars@[m] != ':',
        decreases n - i,
    {
        if chars[i] == ':' {
            assert(f[i - k] == ':');
            assert(f.contains(':'));
            return false;
        }
        i = i + 1;
    }
    proof {
        assert(!f.contains(':')) by {
            if f.contains(':') {
                let x = choose|x: int| 0 <= x < f.len() && f[x] == ':';
                assert(chars@[k + x] == ':');
            }
        }
    }
    !(n >= 2 && (chars[0] == '/' || chars[0] == '\\') && (chars[1] == '/' || chars[1] == '\\'))
}

/// For a path that surely has a file name, its slash-separated form has the
/// same final segment, and surely has one too, whatever the platform.
proof fn lemma_slashes_keep_final_segment(p: Seq<char>, k: int)
    requires
        0 <= k <= p.len(),
        final_segment(p) == p.skip(k),
        k > 0 ==> p[k - 1] == '/' || p[k - 1] == '\\',
        forall|i: int| k <= i < p.len() ==> p[i] != '/' && p[i] != '\\',
    ensures
        final_segment(slashes(p)) == final_segment(p),
        after_last(slashes(p), '/') == final_segment(p),
        starts_with_two_separators(slashes(p)) == starts_with_two_separators(p),
        !is_verbatim(slashes(p)),
{
    let c = slashes(p);
    lemma_last_index_is(c, '\\', -1);
    lemma_last_index_is(c, '/', k - 1);
    assert(c.skip(k) =~= p.skip(k));
}

/// The stem when there is one, else the path itself.
pub open spec fn stem_or_path_spec(stem: Option<String>, path: Seq<char>) -> Seq<char> {
    match stem {
        Some(s) => s@,
        None => path,
    }
}

/// Calls `std::path::Path::file_stem` on `path` (and `OsStr::to_str`, which
/// cannot fail on a part of a `&str`). Claims only what holds on every
/// platform: the stem is the documented stem of the last normal component,
/// which borrows from the path and is never empty. That component holds no
/// `/` except in a Windows verbatim path (`\\?\...`), where only `\`
/// separates. When the part after the last `/` or `\` names a file, that
/// component is this part (Windows), the part after the last `\` (Windows,
/// verbatim paths only) or the part after the last `/` (Unix), and it is there unless a Windows
/// prefix (which starts with two separators) swallows it. Which of these it
/// is depends on the platform and is not stated.
#[verifier::external_body]
fn path_file_stem(path: &str) -> (r: Option<String>)
    ensures
        r matches Some(stem) ==> possible_file_stem(path@, stem@),
        r is None ==> !surely_named(path@),
{
    match std::path::Path::new(path).file_stem() {
        Some(stem) => match stem.to_str() {
            Some(stem) => Some(stem.to_owned()),
            None => None,
        },
        None => None,
    }
}

/// The file stem when the path has one, else the path itself.
pub fn stem_or_path(stem: Option<String>, path: &str) -> (r: String)
    ensures
        r@ == stem_or_path_spec(stem, path@),
{
    match stem {
        Some(s) => s,
        None => path.to_owned(),
    }
}

/// Reduce an executable path to a friendly stem, e.g. `C:\...\Code.exe` ->
/// `Code`. Falls back to the raw input when the path has no file name.
///
/// Image paths are Windows paths, in which both `/` and `\` separate: when
/// the final segment surely names a file, the path is stemmed in its
/// slash-separated form, which every platform reads alike, so the stem is
/// that of the final segment wherever the library runs.
pub fn exe_stem(path: &str) -> (r: String)
    ensures
        possible_exe_stem(path@, r@),
        plain_file_name(path@) ==> r@ == name_stem(path@),
        surely_named(path@) ==> r@ == name_stem(final_segment(path@)),
{
    let chars = chars_of(path);
    if is_surely_named(&chars) {
        let k = final_segment_start(&chars);
        let converted = slash_separated(path);
        proof {
            lemma_slashes_keep_final_segment(path@, k as int);
        }
        match path_file_stem(converted.as_str()) {
            Some(stem) => {
                proof {
                    let f = path@.skip(k as int);
                    assert(stem@ == name_stem(f));
                    let len = lemma_name_stem_shape(f);
                    assert(path@.subrange(k as int, k + stem@.len()) =~= stem@);
                    assert(is_infix(stem@, path@));
                    assert(!stem@.contains('/')) by {
                        if stem@.contains('/') {
                            let x = choose|x: int| 0 <= x < stem@.len() && stem@[x] == '/';
                            assert(path@[k + x] == '/');
                        }
                    }
                    if plain_file_name(path@) {
                        lemma_bare_file_name_stem(path@, stem@);
                    }
                }
                return stem;
            },
            None => {
                proof {
                    assert(false);
                }
                return path.to_owned();
            },
        }
    }
    let stem = path_file_stem(path);
    let ghost found = stem;
    let r = stem_or_path(stem, path);
    assert(r@ == stem_or_path_spec(found, path@));
    proof {
        if plain_file_name(path@) {
            lemma_bare_file_name_stem(path@, r@);
        }
    }
    r
}

/// The trimmed application name, or `None` when it is empty after trimming.
pub fn app_name_from_raw(raw: &str) -> (r: Option<String>)
    ensures
        option_view(r) == app_name_from(raw@),
{
    let t = trim(raw);
    if t.as_str().is_empty() {
        None
    } else {
        Some(t)
    }
}

/// Name of the foreground (active) application, or `None` if it cannot be
/// determined: the focused application's title on macOS, the stem of the
/// foreground process's executable on Windows; trimmed, and `None` when
/// nothing is left.
pub fn foreground_app_name(reading: ForegroundAppReading) -> (r: Option<String>)
    ensures
        match reading {
            ForegroundAppReading::Unknown => r is None,
            ForegroundAppReading::Title(title) => option_view(r) == app_name_from(title@),
            ForegroundAppReading::ImagePath(path) => {
                &&& exists|stem: Seq<char>|
                    #[trigger] possible_exe_stem(path@, stem) && option_view(r) == app_name_from(
                        stem,
                    )
                &&& plain_file_name(path@) ==> option_view(r) == app_name_from(name_stem(path@))
                &&& surely_named(path@) ==> option_view(r) == app_name_from(
                    name_stem(final_segment(path@)),
                )
            },
        },
{
    match reading {
        ForegroundAppReading::Unknown => None,
        ForegroundAppReading::Title(title) => app_name_from_raw(title.as_str()),
        ForegroundAppReading::ImagePath(path) => {
            let stem = exe_stem(path.as_str());
            let r = app_name_from_raw(stem.as_str());
            assert(possible_exe_stem(path@, stem@) && option_view(r) == app_name_from(stem@));
            proof {
                if plain_file_name(path@) {
                    lemma_bare_file_name_stem(path@, stem@);
                }
            }
            r
        },
    }
}

/// A reported name is never empty and neither starts nor ends with white
/// space; a name is reported exactly when the raw text has a character that
/// is not white space; and reporting a reported name gives it back.
pub proof fn lemma_app_name_trimmed(raw: Seq<char>)
    ensures
        app_name_from(raw) is Some <==> has_visible_char(raw),
        app_name_from(raw) matches Some(n) ==> {
            &&& n.len() > 0
            &&& !white_space(n[0])
            &&& !white_space(n.last())
            &&& app_name_from(n) == Some(n)
        },
{
    lemma_trimmed_nonempty(raw);
}

} // verus!
