//! Path texts: separators, segments, joining and the syntactic tests the
//! resolver bases its strategy choice on.

use vstd::prelude::*;
use crate::platform::Platform;
use crate::text::{chars_of, is_ascii_letter, ascii_upper, push_char, string_of, to_ascii_upper};

verus! {

/// Either of the two separator characters.
pub open spec fn is_separator(c: char) -> bool {
    c == '/' || c == '\\'
}

/// `path` with every separator replaced by the platform's own.
pub open spec fn normalized(path: Seq<char>, platform: Platform) -> Seq<char> {
    Seq::new(
        path.len(),
        |i: int|
            if is_separator(path[i]) {
                platform.spec_separator()
            } else {
                path[i]
            },
    )
}

/// The number of characters before the first separator of `s`.
pub open spec fn run_length(s: Seq<char>) -> nat
    decreases s.len(),
{
    if s.len() == 0 || is_separator(s[0]) {
        0
    } else {
        1 + run_length(s.drop_first())
    }
}

/// The non-empty maximal runs of non-separator characters of `s`, in order.
pub open spec fn segments(s: Seq<char>) -> Seq<Seq<char>>
    decreases s.len(),
{
    if s.len() == 0 {
        Seq::empty()
    } else {
        let n = run_length(s) as int;
        if n == 0 {
            segments(s.drop_first())
        } else if n >= s.len() {
            seq![s]
        } else {
            seq![s.take(n)] + segments(s.skip(n + 1))
        }
    }
}

/// The final segment of a path, if it has any segment.
pub open spec fn basename(path: Seq<char>) -> Option<Seq<char>> {
    let parts = segments(path);
    if parts.len() == 0 {
        None
    } else {
        Some(parts.last())
    }
}

/// Whether `path` is syntactically absolute: under the Unix conventions it
/// starts with `/`; under the Windows conventions it starts with a
/// separator, or with a drive letter, a colon and a separator. A drive
/// letter and a colon alone (`d:`, `d:src`) name no absolute path.
pub open spec fn absolute(path: Seq<char>, platform: Platform) -> bool {
    match platform {
        Platform::Unix => path.len() >= 1 && path[0] == '/',
        Platform::Windows => {
            ||| path.len() >= 1 && is_separator(path[0])
            ||| path.len() >= 3 && is_ascii_letter(path[0]) && path[1] == ':' && is_separator(
                path[2],
            )
        },
    }
}

/// Whether `path` starts with an explicit current- or parent-directory marker
/// (`.` or `..` followed by a separator).
pub open spec fn explicitly_relative(path: Seq<char>) -> bool {
    ||| path.len() >= 2 && path[0] == '.' && is_separator(path[1])
    ||| path.len() >= 3 && path[0] == '.' && path[1] == '.' && is_separator(path[2])
}

/// The drive letter (in upper case) and the remainder of a `<letter>:<rest>`
/// keyword, where the host exposes drive letters (`drives`).
pub open spec fn drive_of(path: Seq<char>, drives: bool) -> Option<(char, Seq<char>)> {
    if drives && path.len() >= 2 && is_ascii_letter(path[0]) && path[1] == ':' {
        Some((ascii_upper(path[0]), path.skip(2)))
    } else {
        None
    }
}

/// `s` without its leading run of the character `c`.
pub open spec fn trim_leading(s: Seq<char>, c: char) -> Seq<char>
    decreases s.len(),
{
    if s.len() > 0 && s[0] == c {
        trim_leading(s.drop_first(), c)
    } else {
        s
    }
}

/// `segment` appended to `base`, with the platform separator put between the
/// two unless `base` is empty or already ends in a separator.
pub open spec fn joined(base: Seq<char>, segment: Seq<char>, platform: Platform) -> Seq<char> {
    if base.len() == 0 || platform.spec_closes_segment(base.last()) {
        base + segment
    } else {
        base.push(platform.spec_separator()) + segment
    }
}

/// `base` with each of `parts` joined on in turn.
pub open spec fn joined_all(base: Seq<char>, parts: Seq<Seq<char>>, platform: Platform) -> Seq<
    char,
>
    decreases parts.len(),
{
    if parts.len() == 0 {
        base
    } else {
        joined(joined_all(base, parts.drop_last(), platform), parts.last(), platform)
    }
}

/// The directory a `~…` keyword stands for, given the home directory.
pub open spec fn expanded_home(path: Seq<char>, home: Seq<char>, platform: Platform) -> Seq<char> {
    if path.len() > 1 {
        joined(
            home,
            trim_leading(normalized(path.skip(1), platform), platform.spec_separator()),
            platform,
        )
    } else {
        home
    }
}

/// What a keyword expands to against a home directory that may be unknown:
/// a keyword behind the home marker `~` expands against a known home
/// directory; any other keyword, and any keyword without a known home
/// directory, expands to nothing.
pub open spec fn home_expansion(
    path: Seq<char>,
    home: Option<Seq<char>>,
    platform: Platform,
) -> Option<Seq<char>> {
    if path.len() > 0 && path[0] == '~' {
        match home {
            Some(dir) => Some(expanded_home(path, dir, platform)),
            None => None,
        }
    } else {
        None
    }
}

/// The length of the verbatim prefix `\\?\`.
pub open spec fn verbatim_prefix_len(path: Seq<char>, platform: Platform) -> int {
    if platform == Platform::Windows && path.len() >= 4 && path[0] == '\\' && path[1] == '\\'
        && path[2] == '?' && path[3] == '\\' {
        4
    } else {
        0
    }
}

/// The root directory of drive `letter`.
pub open spec fn drive_root(letter: char, platform: Platform) -> Seq<char> {
    seq![letter, ':', platform.spec_separator()]
}

/// `path` as it is shown and recorded: on Windows without a leading `\\?\`.
pub open spec fn displayed(path: Seq<char>, platform: Platform) -> Seq<char> {
    path.skip(verbatim_prefix_len(path, platform))
}

/// Tests for either separator character.
pub fn is_separator_char(c: char) -> (b: bool)
    ensures
        b == is_separator(c),
{
    c == '/' || c == '\\'
}

/// Whether `c` is an ASCII letter.
pub fn is_letter(c: char) -> (b: bool)
    ensures
        b == is_ascii_letter(c),
{
    ('a' <= c && c <= 'z') || ('A' <= c && c <= 'Z')
}

/// Replaces every separator of `path` by the platform's own.
pub fn normalize_path_separator(path: &str, platform: Platform) -> (r: String)
    ensures
        r@ == normalized(path@, platform),
{
    let chars = chars_of(path);
    let mut out = String::new();
    let mut i: usize = 0;
    while i < chars.len()
        invariant
            i <= chars.len(),
            chars@ == path@,
            out@ == normalized(path@, platform).take(i as int),
        decreases chars.len() - i,
    {
        let c = chars[i];
        if is_separator_char(c) {
            push_char(&mut out, platform.separator());
        } else {
            push_char(&mut out, c);
        }
        i += 1;
        assert(out@ =~= normalized(path@, platform).take(i as int));
    }
    assert(out@ =~= normalized(path@, platform));
    out
}

/// A run of `k` non-separator characters that is closed by a separator or by
/// the end of the text has run length `k`.
pub proof fn lemma_run_length(s: Seq<char>, k: int)
    requires
        0 <= k <= s.len(),
        forall|j: int| 0 <= j < k ==> !is_separator(s[j]),
        k == s.len() || is_separator(s[k]),
    ensures
        run_length(s) == k,
    decreases k,
{
    if k > 0 {
        lemma_run_length(s.drop_first(), k - 1);
    }
}

/// How `segments` decomposes at the first separator.
pub proof fn lemma_segments_step(s: Seq<char>, k: int)
    requires
        0 <= k <= s.len(),
        forall|j: int| 0 <= j < k ==> !is_separator(s[j]),
        k == s.len() || is_separator(s[k]),
    ensures
        segments(s) == (if k > 0 {
            seq![s.take(k)]
        } else {
            Seq::<Seq<char>>::empty()
        }) + (if k < s.len() {
            segments(s.skip(k + 1))
        } else {
            Seq::<Seq<char>>::empty()
        }),
{
    lemma_run_length(s, k);
    if s.len() == 0 {
        assert(segments(s) =~= Seq::<Seq<char>>::empty() + Seq::<Seq<char>>::empty());
    } else if k == 0 {
        assert(s.drop_first() =~= s.skip(1));
        assert(segments(s) =~= Seq::<Seq<char>>::empty() + segments(s.skip(1)));
    } else if k == s.len() {
        assert(s.take(k) =~= s);
        assert(segments(s) =~= seq![s.take(k)] + Seq::<Seq<char>>::empty());
    } else {
    }
}

/// Splits `path` on either separator and drops the empty pieces.
pub fn split_path(path: &str) -> (parts: Vec<String>)
    ensures
        parts.deep_view() == segments(path@),
{
    let chars = chars_of(path);
    split_chars(&chars)
}

/// [`split_path`] on a text that is already held as characters.
pub fn split_chars(chars: &Vec<char>) -> (parts: Vec<String>)
    ensures
        parts.deep_view() == segments(chars@),
{
    let n = chars.len();
    let mut parts: Vec<String> = Vec::new();
    let mut start: usize = 0;
    let mut i: usize = 0;
    assert(chars@.skip(0) =~= chars@);
    assert(parts.deep_view() =~= Seq::<Seq<char>>::empty());
    while i < n
        invariant
            n == chars.len(),
            start <= i <= n,
            forall|j: int| start <= j < i ==> !is_separator(chars@[j]),
            parts.deep_view() + segments(chars@.skip(start as int)) == segments(chars@),
        decreases n - i,
    {
        if is_separator_char(chars[i]) {
            let ghost tail = chars@.skip(start as int);
            let ghost before = parts.deep_view();
            proof {
                lemma_segments_step(tail, i - start);
                assert(tail.skip(i - start + 1) =~= chars@.skip(i + 1));
                assert(tail.take(i - start) =~= chars@.subrange(start as int, i as int));
            }
            if i > start {
                let piece = string_of(chars, start, i);
                parts.push(piece);
                assert(parts.deep_view() =~= before.push(chars@.subrange(start as int, i as int)));
            }
            start = i + 1;
            assert(parts.deep_view() + segments(chars@.skip(start as int)) =~= segments(chars@));
        }
        i += 1;
    }
    let ghost tail = chars@.skip(start as int);
    let ghost before = parts.deep_view();
    proof {
        lemma_segments_step(tail, n - start);
        assert(tail.take(n - start) =~= chars@.subrange(start as int, n as int));
    }
    if n > start {
        let piece = string_of(chars, start, n);
        parts.push(piece);
        assert(parts.deep_view() =~= before.push(chars@.subrange(start as int, n as int)));
    }
    assert(parts.deep_view() =~= segments(chars@));
    parts
}

/// Whether `path` is syntactically absolute on `platform`.
pub fn is_absolute_path(path: &str, platform: Platform) -> (b: bool)
    ensures
        b == absolute(path@, platform),
{
    let chars = chars_of(path);
    match platform {
        Platform::Unix => chars.len() >= 1 && chars[0] == '/',
        Platform::Windows => {
            (chars.len() >= 1 && is_separator_char(chars[0])) || (chars.len() >= 3 && is_letter(
                chars[0],
            ) && chars[1] == ':' && is_separator_char(chars[2]))
        },
    }
}

/// Whether `path` starts with `./` or `../` (with either separator).
pub fn is_relative_path(path: &str) -> (b: bool)
    ensures
        b == explicitly_relative(path@),
{
    let chars = chars_of(path);
    (chars.len() >= 2 && chars[0] == '.' && is_separator_char(chars[1])) || (chars.len() >= 3
        && chars[0] == '.' && chars[1] == '.' && is_separator_char(chars[2]))
}

/// Splits a `<letter>:<rest>` keyword into the upper-cased drive letter and
/// the rest. A host without drive letters (`drives` unset) never yields one.
pub fn extract_drive(path: &str, drives: bool) -> (r: Option<(char, String)>)
    ensures
        r is Some == drive_of(path@, drives) is Some,
        r matches Some((letter, rest)) ==> drive_of(path@, drives) == Some((letter, rest@)),
{
    if !drives {
        return None;
    }
    let chars = chars_of(path);
    if chars.len() >= 2 && is_letter(chars[0]) && chars[1] == ':' {
        let rest = string_of(&chars, 2, chars.len());
        assert(chars@.subrange(2, chars@.len() as int) =~= path@.skip(2));
        Some((to_ascii_upper(chars[0]), rest))
    } else {
        None
    }
}

/// Joins `segment` onto `base`.
pub fn join_path(base: &str, segment: &str, platform: Platform) -> (r: String)
    ensures
        r@ == joined(base@, segment@, platform),
{
    let chars = chars_of(base);
    let mut out = String::from_str(base);
    if chars.len() > 0 && !platform.closes_segment(chars[chars.len() - 1]) {
        push_char(&mut out, platform.separator());
    }
    out.append(segment);
    out
}

/// Joins every one of `parts` onto `base`, in order.
pub fn join_all(base: &str, parts: &Vec<String>, platform: Platform) -> (r: String)
    ensures
        r@ == joined_all(base@, parts.deep_view(), platform),
{
    let mut out = String::from_str(base);
    let mut i: usize = 0;
    assert(parts.deep_view().take(0) =~= Seq::<Seq<char>>::empty());
    while i < parts.len()
        invariant
            i <= parts.len(),
            out@ == joined_all(base@, parts.deep_view().take(i as int), platform),
        decreases parts.len() - i,
    {
        let next = join_path(out.as_str(), parts[i].as_str(), platform);
        proof {
            let upto = parts.deep_view().take(i + 1);
            assert(upto.drop_last() =~= parts.deep_view().take(i as int));
            assert(upto.last() == parts[i as int]@);
        }
        out = next;
        i += 1;
    }
    assert(parts.deep_view().take(parts.len() as int) =~= parts.deep_view());
    out
}

/// The remainder of `chars[from..]` after its leading run of `c`, as an
/// offset into `chars`.
fn skip_leading(chars: &Vec<char>, from: usize, c: char) -> (at: usize)
    requires
        from <= chars.len(),
    ensures
        from <= at <= chars.len(),
        chars@.skip(at as int) == trim_leading(chars@.skip(from as int), c),
{
    let mut at: usize = from;
    while at < chars.len() && chars[at] == c
        invariant
            from <= at <= chars.len(),
            trim_leading(chars@.skip(at as int), c) == trim_leading(chars@.skip(from as int), c),
        decreases chars.len() - at,
    {
        assert(chars@.skip(at as int).drop_first() =~= chars@.skip(at + 1));
        at += 1;
    }
    at
}

/// `s` without its leading run of the character `c`.
pub fn trim_start(s: &str, c: char) -> (r: String)
    ensures
        r@ == trim_leading(s@, c),
{
    let chars = chars_of(s);
    let at = skip_leading(&chars, 0, c);
    assert(chars@.skip(0) =~= chars@);
    let r = string_of(&chars, at, chars.len());
    assert(chars@.subrange(at as int, chars@.len() as int) =~= chars@.skip(at as int));
    r
}

/// Expands a keyword that starts with the home marker `~` against `home`.
pub fn expand_home_in(path: &str, home: &str, platform: Platform) -> (r: String)
    ensures
        r@ == expanded_home(path@, home@, platform),
{
    let chars = chars_of(path);
    if chars.len() > 1 {
        let tail = string_of(&chars, 1, chars.len());
        assert(chars@.subrange(1, chars@.len() as int) =~= path@.skip(1));
        let rest = normalize_path_separator(tail.as_str(), platform);
        let rest_chars = chars_of(rest.as_str());
        let at = skip_leading(&rest_chars, 0, platform.separator());
        assert(rest_chars@.skip(0) =~= rest_chars@);
        let trimmed = string_of(&rest_chars, at, rest_chars.len());
        assert(rest_chars@.subrange(at as int, rest_chars@.len() as int) =~= rest_chars@.skip(
            at as int,
        ));
        join_path(home, trimmed.as_str(), platform)
    } else {
        String::from_str(home)
    }
}

/// A drive keyword is absolute only where a separator follows the colon,
/// and then only under the Windows conventions. Every other drive keyword
/// (`d:`, `d:src`) is neither absolute nor explicitly relative, under
/// either convention.
pub proof fn lemma_drive_keyword_is_not_absolute(path: Seq<char>, drives: bool, platform: Platform)
    requires
        drive_of(path, drives) is Some,
    ensures
        !explicitly_relative(path),
        !absolute(path, Platform::Unix),
        absolute(path, Platform::Windows) == (path.len() >= 3 && is_separator(path[2])),
        drive_of(path, drives).unwrap().1.len() == 0 || !is_separator(
            drive_of(path, drives).unwrap().1[0],
        ) ==> !absolute(path, platform),
{
}

/// The text of the root directory of drive `letter`.
pub fn drive_root_path(letter: char, platform: Platform) -> (r: String)
    ensures
        r@ == drive_root(letter, platform),
{
    let mut r = String::new();
    push_char(&mut r, letter);
    push_char(&mut r, ':');
    push_char(&mut r, platform.separator());
    assert(r@ =~= drive_root(letter, platform));
    r
}

/// Expands a keyword against a home directory that may be unknown.
pub fn expand_home_from(path: &str, home: Option<&str>, platform: Platform) -> (r: Option<String>)
    ensures
        r.deep_view() == home_expansion(path@, home.deep_view(), platform),
{
    let chars = chars_of(path);
    if chars.len() > 0 && chars[0] == '~' {
        match home {
            Some(dir) => Some(expand_home_in(path, dir, platform)),
            None => None,
        }
    } else {
        None
    }
}

/// The path as it is shown and recorded: a leading `\\?\` is dropped on
/// Windows, everything else is kept.
pub fn display_path(path: &str, platform: Platform) -> (r: String)
    ensures
        r@ == displayed(path@, platform),
{
    let chars = chars_of(path);
    let verbatim = match platform {
        Platform::Windows => chars.len() >= 4 && chars[0] == '\\' && chars[1] == '\\' && chars[2]
            == '?' && chars[3] == '\\',
        Platform::Unix => false,
    };
    if verbatim {
        let r = string_of(&chars, 4, chars.len());
        assert(chars@.subrange(4, chars@.len() as int) =~= path@.skip(4));
        r
    } else {
        assert(path@.skip(0) =~= path@);
        String::from_str(path)
    }
}

} // verus!
