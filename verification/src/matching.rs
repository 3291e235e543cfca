//! Matching history records against the tokens of a keyword.

use vstd::prelude::*;
use crate::history::{Visit, VisitRecord};
use crate::path::{basename, segments, split_path};
use crate::text::{
    ascii_upper, chars_of, contains, has_substring, lowercase, str_eq, to_ascii_upper,
    to_lowercase,
};

verus! {

/// How a record has to match to be picked.
#[derive(Clone, Copy, Debug, PartialEq, Eq, Structural)]
pub enum Pass {
    /// The record's final segment equals the primary token.
    Exact,
    /// The record's final segment contains the primary token.
    Partial,
    /// The record lies on the given drive; every token constrains it.
    Drive(char),
}

/// Each of `parts` in lower case.
pub open spec fn lowered(parts: Seq<Seq<char>>) -> Seq<Seq<char>> {
    Seq::new(parts.len(), |i: int| lowercase(parts[i]))
}

/// The tokens of a keyword: its segments, each in lower case. The last one
/// is the primary token, the others constrain the path.
pub open spec fn tokens_of(keyword: Seq<char>) -> Seq<Seq<char>> {
    lowered(segments(keyword))
}

/// Whether `token` is a substring of one of `parts`.
pub open spec fn held_by(parts: Seq<Seq<char>>, token: Seq<char>) -> bool {
    exists|i: int| 0 <= i < parts.len() && has_substring(#[trigger] parts[i], token)
}

/// Whether every one of `tokens` is a substring of some segment of the
/// lower-cased `path`.
pub open spec fn constrained(path: Seq<char>, tokens: Seq<Seq<char>>) -> bool {
    forall|t: int|
        0 <= t < tokens.len() ==> held_by(segments(lowercase(path)), #[trigger] tokens[t])
}

/// Whether the final segment of `path`, in lower case, equals `primary`.
pub open spec fn exact_match(path: Seq<char>, primary: Seq<char>) -> bool {
    match basename(path) {
        Some(name) => lowercase(name) == primary,
        None => false,
    }
}

/// Whether the final segment of `path`, in lower case, contains `primary`.
pub open spec fn partial_match(path: Seq<char>, primary: Seq<char>) -> bool {
    match basename(path) {
        Some(name) => has_substring(lowercase(name), primary),
        None => false,
    }
}

/// Whether `path` starts with the drive letter `drive` (given in upper
/// case, compared without regard to case) and a colon.
pub open spec fn on_drive(path: Seq<char>, drive: char) -> bool {
    path.len() >= 2 && ascii_upper(path[0]) == drive && path[1] == ':'
}

/// Whether a record with the path `path` is picked in `pass`.
pub open spec fn admitted(pass: Pass, tokens: Seq<Seq<char>>, path: Seq<char>) -> bool {
    match pass {
        Pass::Exact => tokens.len() > 0 && exact_match(path, tokens.last()) && constrained(
            path,
            tokens.drop_last(),
        ),
        Pass::Partial => tokens.len() > 0 && partial_match(path, tokens.last()) && constrained(
            path,
            tokens.drop_last(),
        ),
        Pass::Drive(drive) => on_drive(path, drive) && constrained(path, tokens),
    }
}

/// The paths of the records picked in `pass`, most recent record first.
pub open spec fn picks(records: Seq<Visit>, pass: Pass, tokens: Seq<Seq<char>>) -> Seq<Seq<char>>
    decreases records.len(),
{
    if records.len() == 0 {
        Seq::empty()
    } else {
        let older = picks(records.drop_last(), pass, tokens);
        if admitted(pass, tokens, records.last().path) {
            seq![records.last().path] + older
        } else {
            older
        }
    }
}

/// Whether `needle` occurs in `hay`.
pub fn str_contains(hay: &str, needle: &str) -> (r: bool)
    ensures
        r == has_substring(hay@, needle@),
{
    let h = chars_of(hay);
    let n = chars_of(needle);
    contains(&h, &n)
}

/// The segments of `keyword`, each in lower case.
pub fn tokenize(keyword: &str) -> (tokens: Vec<String>)
    ensures
        tokens.deep_view() == tokens_of(keyword@),
{
    let parts = split_path(keyword);
    let mut tokens: Vec<String> = Vec::new();
    let mut i: usize = 0;
    while i < parts.len()
        invariant
            i <= parts.len(),
            parts.deep_view() == segments(keyword@),
            tokens.len() == i,
            forall|k: int| 0 <= k < i ==> (#[trigger] tokens[k])@ == lowercase(parts[k]@),
        decreases parts.len() - i,
    {
        tokens.push(to_lowercase(parts[i].as_str()));
        i += 1;
    }
    assert(tokens.deep_view() =~= tokens_of(keyword@)) by {
        assert forall|k: int| 0 <= k < parts.len() implies tokens.deep_view()[k] == tokens_of(
            keyword@,
        )[k] by {
            assert(parts.deep_view()[k] == parts[k]@);
        }
    }
    tokens
}

/// Whether `token` is a substring of one of `parts`.
pub fn any_part_holds(parts: &Vec<String>, token: &str) -> (r: bool)
    ensures
        r == held_by(parts.deep_view(), token@),
{
    let mut i: usize = 0;
    while i < parts.len()
        invariant
            i <= parts.len(),
            forall|k: int| 0 <= k < i ==> !has_substring(#[trigger] parts.deep_view()[k], token@),
        decreases parts.len() - i,
    {
        if str_contains(parts[i].as_str(), token) {
            assert(has_substring(parts.deep_view()[i as int], token@));
            return true;
        }
        i += 1;
    }
    false
}

/// Whether each of the first `count` tokens is a substring of some segment
/// of the lower-cased `path`.
pub fn meets_constraints(path: &str, tokens: &Vec<String>, count: usize) -> (r: bool)
    requires
        count <= tokens.len(),
    ensures
        r == constrained(path@, tokens.deep_view().take(count as int)),
{
    let low = to_lowercase(path);
    let parts = split_path(low.as_str());
    let ghost wanted = tokens.deep_view().take(count as int);
    let mut t: usize = 0;
    while t < count
        invariant
            t <= count <= tokens.len(),
            wanted == tokens.deep_view().take(count as int),
            parts.deep_view() == segments(lowercase(path@)),
            forall|k: int| 0 <= k < t ==> held_by(segments(lowercase(path@)), #[trigger] wanted[k]),
        decreases count - t,
    {
        if !any_part_holds(&parts, tokens[t].as_str()) {
            assert(wanted[t as int] == tokens[t as int]@);
            return false;
        }
        assert(wanted[t as int] == tokens[t as int]@);
        t += 1;
    }
    true
}

/// Whether `path` lies on `drive`.
pub fn is_on_drive(path: &str, drive: char) -> (r: bool)
    ensures
        r == on_drive(path@, drive),
{
    let chars = chars_of(path);
    chars.len() >= 2 && to_ascii_upper(chars[0]) == drive && chars[1] == ':'
}

/// Whether a record with the path `path` is picked in `pass`.
pub fn admits(pass: Pass, tokens: &Vec<String>, path: &str) -> (r: bool)
    ensures
        r == admitted(pass, tokens.deep_view(), path@),
{
    match pass {
        Pass::Drive(drive) => {
            assert(tokens.deep_view().take(tokens.len() as int) =~= tokens.deep_view());
            is_on_drive(path, drive) && meets_constraints(path, tokens, tokens.len())
        },
        _ => {
            if tokens.len() == 0 {
                return false;
            }
            let parts = split_path(path);
            if parts.len() == 0 {
                return false;
            }
            let name = to_lowercase(parts[parts.len() - 1].as_str());
            let primary = &tokens[tokens.len() - 1];
            assert(basename(path@) == Some(parts[parts.len() - 1]@)) by {
                assert(parts.deep_view().last() == parts[parts.len() - 1]@);
            }
            assert(tokens.deep_view().last() == primary@);
            assert(tokens.deep_view().take(tokens.len() - 1) =~= tokens.deep_view().drop_last());
            let hit = match pass {
                Pass::Exact => str_eq(name.as_str(), primary.as_str()),
                _ => str_contains(name.as_str(), primary.as_str()),
            };
            hit && meets_constraints(path, tokens, tokens.len() - 1)
        },
    }
}

/// The paths of the records picked in `pass`, most recent record first.
pub fn pick(records: &Vec<VisitRecord>, pass: Pass, tokens: &Vec<String>) -> (out: Vec<String>)
    ensures
        out.deep_view() == picks(records.deep_view(), pass, tokens.deep_view()),
{
    let ghost all = records.deep_view();
    let ghost toks = tokens.deep_view();
    let mut out: Vec<String> = Vec::new();
    let mut i: usize = records.len();
    assert(all.take(i as int) =~= all);
    assert(out.deep_view() =~= Seq::<Seq<char>>::empty());
    while i > 0
        invariant
            i <= records.len(),
            all == records.deep_view(),
            toks == tokens.deep_view(),
            out.deep_view() + picks(all.take(i as int), pass, toks) == picks(all, pass, toks),
        decreases i,
    {
        i -= 1;
        let ghost before = out.deep_view();
        proof {
            assert(all.take(i + 1).drop_last() =~= all.take(i as int));
            assert(all.take(i + 1).last() == records[i as int]@);
        }
        if admits(pass, tokens, records[i].path.as_str()) {
            out.push(records[i].path.clone());
            assert(out.deep_view() =~= before + seq![records[i as int]@.path]);
            assert(out.deep_view() + picks(all.take(i as int), pass, toks) =~= before + picks(
                all.take(i + 1),
                pass,
                toks,
            ));
        }
    }
    assert(out.deep_view() + Seq::<Seq<char>>::empty() =~= out.deep_view());
    out
}

} // verus!
