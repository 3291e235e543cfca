//! What a resolution comes to under a given filesystem.
//!
//! The filesystem is modelled by two functions: which paths are
//! directories, and what the canonical form of a path is. The outcome of a
//! resolution is the first candidate that the filesystem accepts. The
//! theorems of this module state the precedence rules of the strategy chain
//! over that model, and that the moves of a [`Resolution`] arrive at it.
//!
//! [`Resolution`]: crate::resolver::Resolution

use vstd::prelude::*;
use crate::history::Visit;
use crate::matching::{admitted, picks, tokens_of, Pass};
use crate::path::{displayed, joined_all, segments};
use crate::platform::Platform;
use crate::resolver::{
    history_candidates, local_candidate, local_candidates, plain_keyword, planned, Cause, Move,
    Pursuit, Surroundings, Verdict,
};

verus! {

/// A filesystem as the resolver sees it.
pub struct Filesystem {
    /// Whether a path denotes an existing directory.
    pub is_dir: spec_fn(Seq<char>) -> bool,
    /// The canonical form of a path, where it has one.
    pub canonical: spec_fn(Seq<char>) -> Option<Seq<char>>,
}

impl Filesystem {
    /// The directory that probing the candidate `path` yields, if any: the
    /// path itself where it is a directory, or, where the canonical path is
    /// asked for, the canonical path as it is displayed.
    pub open spec fn probe(self, path: Seq<char>, canonical: bool, platform: Platform) -> Option<
        Seq<char>,
    > {
        if canonical {
            match (self.canonical)(path) {
                Some(target) => if (self.is_dir)(target) {
                    Some(displayed(target, platform))
                } else {
                    None
                },
                None => None,
            }
        } else if (self.is_dir)(path) {
            Some(path)
        } else {
            None
        }
    }

    /// What the caller hands to `accept` for a candidate that the probe
    /// accepted.
    pub open spec fn answer(self, path: Seq<char>, canonical: bool) -> Option<Seq<char>> {
        if canonical {
            (self.canonical)(path)
        } else {
            None
        }
    }

    /// The first of `candidates` that the probe accepts, as resolved.
    pub open spec fn first_hit(
        self,
        candidates: Seq<Seq<char>>,
        canonical: bool,
        platform: Platform,
    ) -> Option<Seq<char>>
        decreases candidates.len(),
    {
        if candidates.len() == 0 {
            None
        } else {
            match self.probe(candidates[0], canonical, platform) {
                Some(found) => Some(found),
                None => self.first_hit(candidates.drop_first(), canonical, platform),
            }
        }
    }

    /// What the resolution `p` comes to: the first pending candidate that
    /// the probe accepts, or the failure of the resolution.
    pub open spec fn outcome(self, p: Pursuit) -> Verdict {
        if p.pending() {
            match self.first_hit(p.candidates.skip(p.cursor as int), p.canonical, p.platform) {
                Some(found) => Verdict::Resolved(found),
                None => Verdict::NotFound(p.failure),
            }
        } else {
            Verdict::NotFound(p.failure)
        }
    }
}

/// Where the moves of a resolution lead when every probe is answered by the
/// filesystem `fs`: a pending candidate that the probe accepts is accepted,
/// one that it does not accept is rejected, until the resolution is done.
pub open spec fn pursued(fs: Filesystem, p: Pursuit) -> Verdict
    decreases p.candidates.len() - p.cursor,
{
    match p.step() {
        Move::Done(verdict) => verdict,
        Move::Probe { path, canonical } => match fs.probe(path, canonical, p.platform) {
            Some(_) => p.accept(fs.answer(path, canonical)),
            None => pursued(fs, p.reject()),
        },
    }
}

/// Rejecting a candidate that the filesystem does not accept leaves the
/// outcome as it is.
pub proof fn lemma_reject_keeps_outcome(fs: Filesystem, p: Pursuit)
    requires
        p.pending(),
        fs.probe(p.candidates[p.cursor as int], p.canonical, p.platform) is None,
    ensures
        fs.outcome(p.reject()) == fs.outcome(p),
{
    let rest = p.candidates.skip(p.cursor as int);
    assert(rest[0] == p.candidates[p.cursor as int]);
    assert(rest.drop_first() =~= p.candidates.skip(p.cursor as int + 1));
    if !p.reject().pending() {
        assert(rest.drop_first().len() == 0);
    }
}

/// Accepting a candidate that the filesystem accepts ends at the outcome.
pub proof fn lemma_accept_is_outcome(fs: Filesystem, p: Pursuit)
    requires
        p.pending(),
        fs.probe(p.candidates[p.cursor as int], p.canonical, p.platform) is Some,
    ensures
        fs.outcome(p) == p.accept(fs.answer(p.candidates[p.cursor as int], p.canonical)),
        fs.outcome(p) == Verdict::Resolved(
            fs.probe(p.candidates[p.cursor as int], p.canonical, p.platform).unwrap(),
        ),
{
    let rest = p.candidates.skip(p.cursor as int);
    assert(rest[0] == p.candidates[p.cursor as int]);
}

/// With no candidate pending the outcome is the failure of the resolution.
pub proof fn lemma_exhausted_is_failure(fs: Filesystem, p: Pursuit)
    requires
        !p.pending(),
    ensures
        fs.outcome(p) == Verdict::NotFound(p.failure),
        p.step() == Move::Done(Verdict::NotFound(p.failure)),
{
}

/// Probing candidate by candidate arrives at the outcome: the moves of a
/// resolution, answered by the filesystem, end with the first pending
/// candidate that is a directory, or with the failure of the resolution.
pub proof fn lemma_pursuit_arrives(fs: Filesystem, p: Pursuit)
    ensures
        pursued(fs, p) == fs.outcome(p),
    decreases p.candidates.len() - p.cursor,
{
    if p.pending() {
        if fs.probe(p.candidates[p.cursor as int], p.canonical, p.platform) is Some {
            lemma_accept_is_outcome(fs, p);
        } else {
            lemma_reject_keeps_outcome(fs, p);
            lemma_pursuit_arrives(fs, p.reject());
        }
    }
}

/// The first hit of two runs of candidates is the first hit of the first
/// run, or else that of the second.
pub proof fn lemma_first_hit_concat(
    fs: Filesystem,
    a: Seq<Seq<char>>,
    b: Seq<Seq<char>>,
    canonical: bool,
    platform: Platform,
)
    ensures
        fs.first_hit(a + b, canonical, platform) == (match fs.first_hit(a, canonical, platform) {
            Some(found) => Some(found),
            None => fs.first_hit(b, canonical, platform),
        }),
    decreases a.len(),
{
    if a.len() == 0 {
        assert(a + b =~= b);
    } else {
        assert((a + b)[0] == a[0]);
        assert((a + b).drop_first() =~= a.drop_first() + b);
        lemma_first_hit_concat(fs, a.drop_first(), b, canonical, platform);
    }
}

/// Of the records picked in a pass, the first hit is the most recent record
/// that is picked and is a directory.
pub proof fn lemma_picks_hit(
    fs: Filesystem,
    records: Seq<Visit>,
    pass: Pass,
    tokens: Seq<Seq<char>>,
    platform: Platform,
    k: int,
)
    requires
        0 <= k < records.len(),
        admitted(pass, tokens, records[k].path),
        (fs.is_dir)(records[k].path),
        forall|j: int|
            k < j < records.len() ==> !(admitted(pass, tokens, #[trigger] records[j].path)
                && (fs.is_dir)(records[j].path)),
    ensures
        fs.first_hit(picks(records, pass, tokens), false, platform) == Some(records[k].path),
    decreases records.len(),
{
    let last = records.last();
    let older = records.drop_last();
    let rest = picks(older, pass, tokens);
    assert(records[records.len() - 1] == last);
    if k == records.len() - 1 {
        let all = seq![last.path] + rest;
        assert(picks(records, pass, tokens) == all);
        assert(all[0] == last.path);
        assert(fs.probe(all[0], false, platform) == Some(last.path));
    } else {
        assert(older[k] == records[k]);
        assert forall|j: int| k < j < older.len() implies !(admitted(
            pass,
            tokens,
            #[trigger] older[j].path,
        ) && (fs.is_dir)(older[j].path)) by {
            assert(older[j] == records[j]);
        }
        lemma_picks_hit(fs, older, pass, tokens, platform, k);
        if admitted(pass, tokens, last.path) {
            lemma_single_miss(fs, last.path, platform);
            lemma_first_hit_concat(fs, seq![last.path], rest, false, platform);
        }
    }
}

/// A lone candidate that is no directory is no hit.
proof fn lemma_single_miss(fs: Filesystem, path: Seq<char>, platform: Platform)
    requires
        !(fs.is_dir)(path),
    ensures
        fs.first_hit(seq![path], false, platform) is None,
{
    let one = seq![path];
    assert(one[0] == path);
    assert(one.drop_first() =~= Seq::<Seq<char>>::empty());
    assert(fs.first_hit(Seq::<Seq<char>>::empty(), false, platform) is None);
}

/// Where no picked record is a directory, a pass has no hit.
pub proof fn lemma_picks_miss(
    fs: Filesystem,
    records: Seq<Visit>,
    pass: Pass,
    tokens: Seq<Seq<char>>,
    platform: Platform,
)
    requires
        forall|j: int|
            0 <= j < records.len() ==> !(admitted(pass, tokens, #[trigger] records[j].path)
                && (fs.is_dir)(records[j].path)),
    ensures
        fs.first_hit(picks(records, pass, tokens), false, platform) is None,
    decreases records.len(),
{
    if records.len() > 0 {
        let last = records.last();
        let older = records.drop_last();
        let rest = picks(older, pass, tokens);
        assert forall|j: int| 0 <= j < older.len() implies !(admitted(
            pass,
            tokens,
            #[trigger] older[j].path,
        ) && (fs.is_dir)(older[j].path)) by {
            assert(older[j] == records[j]);
        }
        lemma_picks_miss(fs, older, pass, tokens, platform);
        assert(records[records.len() - 1] == last);
        if admitted(pass, tokens, last.path) {
            lemma_single_miss(fs, last.path, platform);
            lemma_first_hit_concat(fs, seq![last.path], rest, false, platform);
        }
    }
}

/// The history search prefers exact matches: its first hit is the most
/// recent record that matches the keyword exactly and is a directory,
/// whatever records match by substring only and however recent they are.
pub proof fn lemma_search_prefers_exact(
    fs: Filesystem,
    keyword: Seq<char>,
    history: Seq<Visit>,
    platform: Platform,
    k: int,
)
    requires
        0 <= k < history.len(),
        admitted(Pass::Exact, tokens_of(keyword), history[k].path),
        (fs.is_dir)(history[k].path),
        forall|j: int|
            k < j < history.len() ==> !(admitted(
                Pass::Exact,
                tokens_of(keyword),
                #[trigger] history[j].path,
            ) && (fs.is_dir)(history[j].path)),
    ensures
        fs.first_hit(history_candidates(keyword, history), false, platform) == Some(
            history[k].path,
        ),
{
    let tokens = tokens_of(keyword);
    let exact = picks(history, Pass::Exact, tokens);
    let partial = picks(history, Pass::Partial, tokens);
    lemma_picks_hit(fs, history, Pass::Exact, tokens, platform, k);
    lemma_first_hit_concat(fs, exact, partial, false, platform);
}

/// What the literal subpath comes to depends on the keyword, the
/// surroundings and the filesystem alone: it is the subpath where that is a
/// directory, and nothing otherwise.
pub proof fn lemma_local_subpath_result(fs: Filesystem, keyword: Seq<char>, env: Surroundings)
    ensures
        fs.first_hit(local_candidates(keyword, env), false, env.platform) == (match local_candidate(
            keyword,
            env,
        ) {
            Some(path) => if (fs.is_dir)(path) {
                Some(path)
            } else {
                None
            },
            None => None,
        }),
{
    match local_candidate(keyword, env) {
        Some(path) => {
            let one = seq![path];
            assert(one[0] == path);
            assert(one.drop_first() =~= Seq::<Seq<char>>::empty());
            assert(fs.first_hit(Seq::<Seq<char>>::empty(), false, env.platform) is None);
        },
        None => {},
    }
}

/// A plain keyword whose literal subpath is a directory resolves to it
/// under any two histories and alias tables alike.
pub proof fn lemma_local_subpath_ignores_state(
    fs: Filesystem,
    keyword: Seq<char>,
    env: Surroundings,
    history: Seq<Visit>,
    aliases: Map<Seq<char>, Seq<char>>,
    other_history: Seq<Visit>,
    other_aliases: Map<Seq<char>, Seq<char>>,
)
    requires
        plain_keyword(keyword, env),
        local_candidate(keyword, env) is Some,
        (fs.is_dir)(local_candidate(keyword, env).unwrap()),
    ensures
        fs.outcome(planned(keyword, env, history, aliases)) == fs.outcome(
            planned(keyword, env, other_history, other_aliases),
        ),
        fs.outcome(planned(keyword, env, history, aliases)) == Verdict::Resolved(
            local_candidate(keyword, env).unwrap(),
        ),
{
    lemma_local_subpath_wins(fs, keyword, env, history, aliases);
    lemma_local_subpath_wins(fs, keyword, env, other_history, other_aliases);
}

/// The literal subpath comes first: a plain keyword whose segments, joined
/// onto the current directory, name a directory resolves to that
/// directory, whatever the history holds.
pub proof fn lemma_local_subpath_wins(
    fs: Filesystem,
    keyword: Seq<char>,
    env: Surroundings,
    history: Seq<Visit>,
    aliases: Map<Seq<char>, Seq<char>>,
)
    requires
        plain_keyword(keyword, env),
        env.current_dir is Some,
        segments(keyword).len() > 0,
        (fs.is_dir)(joined_all(env.current_dir.unwrap(), segments(keyword), env.platform)),
    ensures
        fs.outcome(planned(keyword, env, history, aliases)) == Verdict::Resolved(
            joined_all(env.current_dir.unwrap(), segments(keyword), env.platform),
        ),
{
    let p = planned(keyword, env, history, aliases);
    let local = local_candidates(keyword, env);
    let found = history_candidates(keyword, history);
    assert(p.candidates == local + found);
    assert(p.candidates.skip(0) =~= p.candidates);
    assert((local + found)[0] == local[0]);
}

/// Exact matches come before substring matches: where the literal subpath
/// is no directory, a plain keyword resolves to the most recent record
/// that matches exactly and is a directory, whatever records match by
/// substring only and however recent they are.
pub proof fn lemma_exact_match_wins(
    fs: Filesystem,
    keyword: Seq<char>,
    env: Surroundings,
    history: Seq<Visit>,
    aliases: Map<Seq<char>, Seq<char>>,
    k: int,
)
    requires
        plain_keyword(keyword, env),
        fs.first_hit(local_candidates(keyword, env), false, env.platform) is None,
        0 <= k < history.len(),
        admitted(Pass::Exact, tokens_of(keyword), history[k].path),
        (fs.is_dir)(history[k].path),
        forall|j: int|
            k < j < history.len() ==> !(admitted(
                Pass::Exact,
                tokens_of(keyword),
                #[trigger] history[j].path,
            ) && (fs.is_dir)(history[j].path)),
    ensures
        fs.outcome(planned(keyword, env, history, aliases)) == Verdict::Resolved(history[k].path),
{
    let p = planned(keyword, env, history, aliases);
    let tokens = tokens_of(keyword);
    let local = local_candidates(keyword, env);
    let exact = picks(history, Pass::Exact, tokens);
    let partial = picks(history, Pass::Partial, tokens);
    assert(p.candidates == local + (exact + partial));
    assert(p.candidates.skip(0) =~= p.candidates);
    lemma_picks_hit(fs, history, Pass::Exact, tokens, env.platform, k);
    lemma_first_hit_concat(fs, exact, partial, false, env.platform);
    lemma_first_hit_concat(fs, local, exact + partial, false, env.platform);
    assert(p.candidates.len() > 0) by {
        if p.candidates.len() == 0 {
            assert(fs.first_hit(p.candidates, false, env.platform) is None);
        }
    }
}

/// Without an exact match that is a directory, a plain keyword resolves to
/// the most recent record that matches by substring and is a directory.
pub proof fn lemma_partial_match_is_next(
    fs: Filesystem,
    keyword: Seq<char>,
    env: Surroundings,
    history: Seq<Visit>,
    aliases: Map<Seq<char>, Seq<char>>,
    k: int,
)
    requires
        plain_keyword(keyword, env),
        fs.first_hit(local_candidates(keyword, env), false, env.platform) is None,
        forall|j: int|
            0 <= j < history.len() ==> !(admitted(
                Pass::Exact,
                tokens_of(keyword),
                #[trigger] history[j].path,
            ) && (fs.is_dir)(history[j].path)),
        0 <= k < history.len(),
        admitted(Pass::Partial, tokens_of(keyword), history[k].path),
        (fs.is_dir)(history[k].path),
        forall|j: int|
            k < j < history.len() ==> !(admitted(
                Pass::Partial,
                tokens_of(keyword),
                #[trigger] history[j].path,
            ) && (fs.is_dir)(history[j].path)),
    ensures
        fs.outcome(planned(keyword, env, history, aliases)) == Verdict::Resolved(history[k].path),
{
    let p = planned(keyword, env, history, aliases);
    let tokens = tokens_of(keyword);
    let local = local_candidates(keyword, env);
    let exact = picks(history, Pass::Exact, tokens);
    let partial = picks(history, Pass::Partial, tokens);
    assert(p.candidates == local + (exact + partial));
    assert(p.candidates.skip(0) =~= p.candidates);
    lemma_picks_miss(fs, history, Pass::Exact, tokens, env.platform);
    lemma_picks_hit(fs, history, Pass::Partial, tokens, env.platform, k);
    lemma_first_hit_concat(fs, exact, partial, false, env.platform);
    lemma_first_hit_concat(fs, local, exact + partial, false, env.platform);
    assert(p.candidates.len() > 0) by {
        if p.candidates.len() == 0 {
            assert(fs.first_hit(p.candidates, false, env.platform) is None);
        }
    }
}

/// Where neither the literal subpath nor any matching record is a
/// directory, a plain keyword is reported as not found, under its own text.
pub proof fn lemma_exhaustion_reports_keyword(
    fs: Filesystem,
    keyword: Seq<char>,
    env: Surroundings,
    history: Seq<Visit>,
    aliases: Map<Seq<char>, Seq<char>>,
)
    requires
        plain_keyword(keyword, env),
        fs.first_hit(local_candidates(keyword, env), false, env.platform) is None,
        forall|j: int| 0 <= j < history.len() ==> !(#[trigger] fs.is_dir)(history[j].path),
    ensures
        fs.outcome(planned(keyword, env, history, aliases)) == Verdict::NotFound(
            (Cause::DirectoryNotFound { target: keyword }),
        ),
{
    let p = planned(keyword, env, history, aliases);
    let tokens = tokens_of(keyword);
    let local = local_candidates(keyword, env);
    let exact = picks(history, Pass::Exact, tokens);
    let partial = picks(history, Pass::Partial, tokens);
    assert(p.candidates.skip(0) =~= p.candidates);
    lemma_picks_miss(fs, history, Pass::Exact, tokens, env.platform);
    lemma_picks_miss(fs, history, Pass::Partial, tokens, env.platform);
    lemma_first_hit_concat(fs, exact, partial, false, env.platform);
    lemma_first_hit_concat(fs, local, exact + partial, false, env.platform);
    if tokens.len() == 0 {
        lemma_first_hit_concat(fs, local, Seq::<Seq<char>>::empty(), false, env.platform);
    }
}

} // verus!
