//! The resolution chain: from a keyword to the directories worth probing,
//! and from the answers of the filesystem to an outcome.
//!
//! The library never touches the filesystem. [`plan`] turns a keyword into
//! a [`Resolution`]: the candidate directories in the order they are to be
//! probed, and the reason to report when none of them exists. The caller
//! probes the candidate that [`Resolution::step`] names and answers with
//! [`Resolution::reject`] or [`Resolution::accept`].

use vstd::prelude::*;
use crate::alias::AliasTable;
use crate::history::{HistoryLedger, Visit};
use crate::matching::{pick, picks, tokenize, tokens_of, Pass};
use crate::path::{
    absolute, display_path, displayed, drive_of, drive_root, drive_root_path, expand_home_in,
    expanded_home, explicitly_relative, extract_drive, is_absolute_path, is_relative_path,
    join_all, join_path, joined, joined_all, normalize_path_separator, normalized, segments,
    split_path, trim_leading, trim_start,
};
use crate::platform::Platform;
use crate::text::{chars_of, lowercase, string_of, to_lowercase};

verus! {

/// What the resolver knows of its surroundings.
#[derive(Debug)]
pub struct Environment {
    /// The path conventions in force.
    pub platform: Platform,
    /// Whether the host exposes drive letters.
    pub drives: bool,
    /// The user's home directory, if it is known.
    pub home: Option<String>,
    /// The current directory, if it is known.
    pub current_dir: Option<String>,
}

/// What an [`Environment`] stands for.
pub struct Surroundings {
    pub platform: Platform,
    pub drives: bool,
    pub home: Option<Seq<char>>,
    pub current_dir: Option<Seq<char>>,
}

impl View for Environment {
    type V = Surroundings;

    open spec fn view(&self) -> Surroundings {
        Surroundings {
            platform: self.platform,
            drives: self.drives,
            home: self.home.deep_view(),
            current_dir: self.current_dir.deep_view(),
        }
    }
}

/// Why a keyword did not resolve.
#[derive(Debug, PartialEq, Eq)]
pub enum Reason {
    /// No alias of that name.
    AliasNotFound { name: String },
    /// The alias exists, the directory it names does not.
    DirectoryMissing { path: String },
    /// No directory for the path or keyword.
    DirectoryNotFound { target: String },
    /// No record on the drive matches the search term.
    NotOnDrive { drive: char, term: String },
    /// The home directory is not known.
    HomeUnknown,
    /// The root of the drive is no directory.
    DriveUnavailable { drive: char },
    /// The history has no entry of that rank; `size` is its length.
    NoSuchEntry { index: usize, size: usize },
}

/// What a [`Reason`] stands for.
pub enum Cause {
    AliasNotFound { name: Seq<char> },
    DirectoryMissing { path: Seq<char> },
    DirectoryNotFound { target: Seq<char> },
    NotOnDrive { drive: char, term: Seq<char> },
    HomeUnknown,
    DriveUnavailable { drive: char },
    NoSuchEntry { index: usize, size: usize },
}

impl View for Reason {
    type V = Cause;

    open spec fn view(&self) -> Cause {
        match self {
            Reason::AliasNotFound { name } => Cause::AliasNotFound { name: name@ },
            Reason::DirectoryMissing { path } => Cause::DirectoryMissing { path: path@ },
            Reason::DirectoryNotFound { target } => Cause::DirectoryNotFound { target: target@ },
            Reason::NotOnDrive { drive, term } => Cause::NotOnDrive { drive: *drive, term: term@ },
            Reason::HomeUnknown => Cause::HomeUnknown,
            Reason::DriveUnavailable { drive } => Cause::DriveUnavailable { drive: *drive },
            Reason::NoSuchEntry { index, size } => Cause::NoSuchEntry {
                index: *index,
                size: *size,
            },
        }
    }
}

impl Reason {
    /// A copy of the reason.
    pub fn duplicate(&self) -> (r: Reason)
        ensures
            r@ == self@,
    {
        match self {
            Reason::AliasNotFound { name } => Reason::AliasNotFound { name: name.clone() },
            Reason::DirectoryMissing { path } => Reason::DirectoryMissing { path: path.clone() },
            Reason::DirectoryNotFound { target } => Reason::DirectoryNotFound {
                target: target.clone(),
            },
            Reason::NotOnDrive { drive, term } => Reason::NotOnDrive {
                drive: *drive,
                term: term.clone(),
            },
            Reason::HomeUnknown => Reason::HomeUnknown,
            Reason::DriveUnavailable { drive } => Reason::DriveUnavailable { drive: *drive },
            Reason::NoSuchEntry { index, size } => Reason::NoSuchEntry {
                index: *index,
                size: *size,
            },
        }
    }
}

/// The result of a resolution.
#[derive(Debug, PartialEq, Eq)]
pub enum Outcome {
    /// The directory the keyword stands for.
    Resolved(String),
    /// The keyword stands for no directory.
    NotFound(Reason),
}

/// What an [`Outcome`] stands for.
pub enum Verdict {
    Resolved(Seq<char>),
    NotFound(Cause),
}

impl View for Outcome {
    type V = Verdict;

    open spec fn view(&self) -> Verdict {
        match self {
            Outcome::Resolved(path) => Verdict::Resolved(path@),
            Outcome::NotFound(reason) => Verdict::NotFound(reason@),
        }
    }
}

/// What a [`Resolution`] stands for: the candidates in probing order, how
/// many of them were rejected already, whether a candidate is to be
/// canonicalised before it is probed, and the reason to report when all
/// candidates are rejected.
pub struct Pursuit {
    pub candidates: Seq<Seq<char>>,
    pub cursor: nat,
    pub canonical: bool,
    pub failure: Cause,
    pub platform: Platform,
}

/// The directory an absolute keyword names. Under the Windows conventions
/// a bare separator stands for the root of the current drive, `C:\` when
/// the current directory is unknown.
pub open spec fn absolute_target(keyword: Seq<char>, env: Surroundings) -> Seq<char> {
    let plain = normalized(keyword, env.platform);
    if env.platform == Platform::Windows && plain.len() == 1 {
        match env.current_dir {
            Some(dir) => if dir.len() >= 3 {
                dir.take(3)
            } else {
                drive_root('C', Platform::Windows)
            },
            None => drive_root('C', Platform::Windows),
        }
    } else {
        plain
    }
}

/// The search term of a drive keyword: what follows the colon, without
/// leading separators.
pub open spec fn drive_term(rest: Seq<char>) -> Seq<char> {
    trim_leading(trim_leading(rest, '\\'), '/')
}

/// The literal subpath: the keyword's segments joined onto the current
/// directory. There is none for a keyword without segments, nor without a
/// current directory.
pub open spec fn local_candidate(keyword: Seq<char>, env: Surroundings) -> Option<Seq<char>> {
    match env.current_dir {
        Some(dir) => if segments(keyword).len() > 0 {
            Some(joined_all(dir, segments(keyword), env.platform))
        } else {
            None
        },
        None => None,
    }
}

/// The literal subpath as a run of candidates: one or none.
pub open spec fn local_candidates(keyword: Seq<char>, env: Surroundings) -> Seq<Seq<char>> {
    match local_candidate(keyword, env) {
        Some(path) => seq![path],
        None => Seq::empty(),
    }
}

/// The candidates of the history search: every exact match, most recent
/// first, then every substring match, most recent first.
pub open spec fn history_candidates(keyword: Seq<char>, history: Seq<Visit>) -> Seq<Seq<char>> {
    let tokens = tokens_of(keyword);
    if tokens.len() == 0 {
        Seq::empty()
    } else {
        picks(history, Pass::Exact, tokens) + picks(history, Pass::Partial, tokens)
    }
}

/// Whether `keyword` is left to the search strategies: it carries no
/// marker, is neither absolute nor explicitly relative, and names no drive.
pub open spec fn plain_keyword(keyword: Seq<char>, env: Surroundings) -> bool {
    &&& !(keyword.len() > 0 && (keyword[0] == '!' || keyword[0] == '~'))
    &&& !absolute(keyword, env.platform)
    &&& !explicitly_relative(keyword)
    &&& drive_of(keyword, env.drives) is None
}

/// The resolution the strategy chain lays down for `keyword`.
pub open spec fn planned(
    keyword: Seq<char>,
    env: Surroundings,
    history: Seq<Visit>,
    aliases: Map<Seq<char>, Seq<char>>,
) -> Pursuit {
    let none = Seq::<Seq<char>>::empty();
    let blank = Pursuit {
        candidates: none,
        cursor: 0,
        canonical: false,
        failure: Cause::HomeUnknown,
        platform: env.platform,
    };
    if keyword.len() > 0 && keyword[0] == '!' {
        let name = keyword.skip(1);
        if aliases.contains_key(name) {
            Pursuit {
                candidates: seq![aliases[name]],
                failure: Cause::DirectoryMissing { path: aliases[name] },
                ..blank
            }
        } else {
            Pursuit { failure: Cause::AliasNotFound { name }, ..blank }
        }
    } else if keyword.len() > 0 && keyword[0] == '~' {
        match env.home {
            Some(home) => {
                let target = expanded_home(keyword, home, env.platform);
                Pursuit {
                    candidates: seq![target],
                    failure: Cause::DirectoryNotFound { target },
                    ..blank
                }
            },
            None => blank,
        }
    } else if absolute(keyword, env.platform) {
        let target = absolute_target(keyword, env);
        Pursuit { candidates: seq![target], failure: Cause::DirectoryNotFound { target }, ..blank }
    } else if explicitly_relative(keyword) {
        let failure = Cause::DirectoryNotFound { target: keyword };
        match env.current_dir {
            Some(dir) => Pursuit {
                candidates: seq![joined(dir, normalized(keyword, env.platform), env.platform)],
                canonical: true,
                failure,
                ..blank
            },
            None => Pursuit { failure, ..blank },
        }
    } else {
        match drive_of(keyword, env.drives) {
            Some((drive, rest)) => if rest.len() == 0 {
                Pursuit {
                    candidates: seq![drive_root(drive, env.platform)],
                    failure: Cause::DriveUnavailable { drive },
                    ..blank
                }
            } else {
                let term = drive_term(rest);
                Pursuit {
                    candidates: picks(history, Pass::Drive(drive), segments(lowercase(term))),
                    failure: Cause::NotOnDrive { drive, term },
                    ..blank
                }
            },
            None => Pursuit {
                candidates: local_candidates(keyword, env) + history_candidates(keyword, history),
                failure: Cause::DirectoryNotFound { target: keyword },
                ..blank
            },
        }
    }
}

/// The resolution of a jump by rank: the record of rank `n`, counted from
/// 1 at the most recent end of the history, is the one candidate.
pub open spec fn planned_index(n: usize, history: Seq<Visit>, platform: Platform) -> Pursuit {
    if 1 <= n <= history.len() {
        let target = history[history.len() - n].path;
        Pursuit {
            candidates: seq![target],
            cursor: 0,
            canonical: false,
            failure: Cause::DirectoryNotFound { target },
            platform,
        }
    } else {
        Pursuit {
            candidates: Seq::empty(),
            cursor: 0,
            canonical: false,
            failure: Cause::NoSuchEntry { index: n, size: history.len() as usize },
            platform,
        }
    }
}

/// A resolution under way.
#[derive(Debug)]
pub struct Resolution {
    candidates: Vec<String>,
    cursor: usize,
    canonical: bool,
    failure: Reason,
    platform: Platform,
}

impl View for Resolution {
    type V = Pursuit;

    closed spec fn view(&self) -> Pursuit {
        Pursuit {
            candidates: self.candidates.deep_view(),
            cursor: self.cursor as nat,
            canonical: self.canonical,
            failure: self.failure@,
            platform: self.platform,
        }
    }
}

/// What the caller is to do next.
#[derive(Debug, PartialEq, Eq)]
pub enum Step {
    /// Probe `path`: is it a directory? With `canonical` set the path is to
    /// be canonicalised first, and the canonical path is the one to probe
    /// and to hand to [`Resolution::accept`].
    Probe { path: String, canonical: bool },
    /// The resolution has ended without a directory.
    Done(Outcome),
}

/// What a [`Step`] stands for.
pub enum Move {
    Probe { path: Seq<char>, canonical: bool },
    Done(Verdict),
}

impl View for Step {
    type V = Move;

    open spec fn view(&self) -> Move {
        match self {
            Step::Probe { path, canonical } => Move::Probe { path: path@, canonical: *canonical },
            Step::Done(outcome) => Move::Done(outcome@),
        }
    }
}

impl Pursuit {
    /// Whether a candidate is left to probe.
    pub open spec fn pending(self) -> bool {
        self.cursor < self.candidates.len()
    }

    /// The next move.
    pub open spec fn step(self) -> Move {
        if self.pending() {
            Move::Probe { path: self.candidates[self.cursor as int], canonical: self.canonical }
        } else {
            Move::Done(Verdict::NotFound(self.failure))
        }
    }

    /// The state after the pending candidate was found to be no directory.
    pub open spec fn reject(self) -> Pursuit {
        if self.pending() {
            Pursuit { cursor: self.cursor + 1, ..self }
        } else {
            self
        }
    }

    /// The outcome after the pending candidate was found to be a
    /// directory; `canonical` is its canonical path where one was asked for.
    pub open spec fn accept(self, canonical: Option<Seq<char>>) -> Verdict {
        if self.pending() {
            Verdict::Resolved(
                match canonical {
                    Some(path) => if self.canonical {
                        displayed(path, self.platform)
                    } else {
                        self.candidates[self.cursor as int]
                    },
                    None => self.candidates[self.cursor as int],
                },
            )
        } else {
            Verdict::NotFound(self.failure)
        }
    }
}

impl Resolution {
    /// Names the next move: the candidate to probe, or the end.
    pub fn step(&self) -> (s: Step)
        ensures
            s@ == self@.step(),
    {
        if self.cursor < self.candidates.len() {
            Step::Probe { path: self.candidates[self.cursor].clone(), canonical: self.canonical }
        } else {
            Step::Done(Outcome::NotFound(self.failure.duplicate()))
        }
    }

    /// The pending candidate is no directory: go on to the next one.
    pub fn reject(&mut self)
        ensures
            final(self)@ == old(self)@.reject(),
    {
        if self.cursor < self.candidates.len() {
            self.cursor = self.cursor + 1;
        }
    }

    /// The pending candidate is a directory: the resolution ends with it.
    /// Where the step asked for the canonical path, `canonical` holds it.
    pub fn accept(&self, canonical: Option<&str>) -> (o: Outcome)
        ensures
            o@ == self@.accept(canonical.deep_view()),
    {
        if self.cursor < self.candidates.len() {
            match canonical {
                Some(path) => {
                    if self.canonical {
                        Outcome::Resolved(display_path(path, self.platform))
                    } else {
                        Outcome::Resolved(self.candidates[self.cursor].clone())
                    }
                },
                None => Outcome::Resolved(self.candidates[self.cursor].clone()),
            }
        } else {
            Outcome::NotFound(self.failure.duplicate())
        }
    }

    /// The candidates in probing order.
    pub fn candidates(&self) -> (c: &Vec<String>)
        ensures
            c.deep_view() == self@.candidates,
    {
        &self.candidates
    }
}

/// One candidate.
fn single(path: String) -> (v: Vec<String>)
    ensures
        v.deep_view() == seq![path@],
{
    let mut v: Vec<String> = Vec::new();
    v.push(path);
    assert(v.deep_view() =~= seq![v[0]@]);
    v
}

/// The directory an absolute keyword names.
fn absolute_path(keyword: &str, env: &Environment) -> (r: String)
    ensures
        r@ == absolute_target(keyword@, env@),
{
    let plain = normalize_path_separator(keyword, env.platform);
    let chars = chars_of(plain.as_str());
    let bare = match env.platform {
        Platform::Windows => chars.len() == 1,
        Platform::Unix => false,
    };
    if bare {
        match &env.current_dir {
            Some(dir) => {
                let d = chars_of(dir.as_str());
                if d.len() >= 3 {
                    let r = string_of(&d, 0, 3);
                    assert(d@.subrange(0, 3) =~= dir@.take(3));
                    r
                } else {
                    drive_root_path('C', Platform::Windows)
                }
            },
            None => drive_root_path('C', Platform::Windows),
        }
    } else {
        plain
    }
}

/// The literal subpath of `keyword` under the current directory: the
/// directory to probe before the history is searched. It depends on the
/// keyword and the surroundings alone.
pub fn try_local_path(keyword: &str, env: &Environment) -> (r: Option<String>)
    ensures
        r.deep_view() == local_candidate(keyword@, env@),
{
    let parts = split_path(keyword);
    match &env.current_dir {
        Some(dir) => {
            if parts.len() > 0 {
                Some(join_all(dir.as_str(), &parts, env.platform))
            } else {
                None
            }
        },
        None => None,
    }
}

/// The records that match `keyword`, in the order they are to be probed:
/// every exact match, most recent first, then every substring match, most
/// recent first.
pub fn search_history(history: &HistoryLedger, keyword: &str) -> (out: Vec<String>)
    ensures
        out.deep_view() == history_candidates(keyword@, history@),
{
    let tokens = tokenize(keyword);
    if tokens.len() > 0 {
        let mut out = pick(history.records(), Pass::Exact, &tokens);
        let mut partial = pick(history.records(), Pass::Partial, &tokens);
        let ghost first = out.deep_view();
        let ghost second = partial.deep_view();
        out.append(&mut partial);
        assert(out.deep_view() =~= first + second);
        out
    } else {
        let out: Vec<String> = Vec::new();
        assert(out.deep_view() =~= Seq::<Seq<char>>::empty());
        out
    }
}

/// The candidates of the search strategies: the literal subpath, then the
/// matches of the history.
fn search_candidates(keyword: &str, env: &Environment, history: &HistoryLedger) -> (out: Vec<
    String,
>)
    ensures
        out.deep_view() == local_candidates(keyword@, env@) + history_candidates(
            keyword@,
            history@,
        ),
{
    let mut out: Vec<String> = Vec::new();
    assert(out.deep_view() =~= Seq::<Seq<char>>::empty());
    match try_local_path(keyword, env) {
        Some(path) => {
            out.push(path);
            assert(out.deep_view() =~= local_candidates(keyword@, env@));
        },
        None => {},
    }
    let ghost local = out.deep_view();
    let mut found = search_history(history, keyword);
    let ghost matches = found.deep_view();
    out.append(&mut found);
    assert(out.deep_view() =~= local + matches);
    out
}

/// Lays down the jump to the record of rank `n`.
pub fn plan_index(n: usize, history: &HistoryLedger, platform: Platform) -> (r: Resolution)
    ensures
        r@ == planned_index(n, history@, platform),
{
    match history.nth_most_recent(n) {
        Ok(record) => Resolution {
            candidates: single(record.path.clone()),
            cursor: 0,
            canonical: false,
            failure: Reason::DirectoryNotFound { target: record.path },
            platform,
        },
        Err(_) => {
            let none: Vec<String> = Vec::new();
            assert(none.deep_view() =~= Seq::<Seq<char>>::empty());
            Resolution {
                candidates: none,
                cursor: 0,
                canonical: false,
                failure: Reason::NoSuchEntry { index: n, size: history.len() },
                platform,
            }
        },
    }
}

/// Lays down how `keyword` is to be resolved: which strategy of the chain
/// applies, which directories it proposes and in which order, and what is
/// reported if none of them exists.
pub fn plan(keyword: &str, env: &Environment, history: &HistoryLedger, aliases: &AliasTable) -> (r:
    Resolution)
    requires
        aliases.wf(),
    ensures
        r@ == planned(keyword@, env@, history@, aliases@),
{
    let platform = env.platform;
    let chars = chars_of(keyword);
    let none: Vec<String> = Vec::new();
    assert(none.deep_view() =~= Seq::<Seq<char>>::empty());
    if chars.len() > 0 && chars[0] == '!' {
        let name = string_of(&chars, 1, chars.len());
        assert(chars@.subrange(1, chars@.len() as int) =~= keyword@.skip(1));
        match aliases.resolve(name.as_str()) {
            Some(path) => Resolution {
                candidates: single(path.clone()),
                cursor: 0,
                canonical: false,
                failure: Reason::DirectoryMissing { path },
                platform,
            },
            None => Resolution {
                candidates: none,
                cursor: 0,
                canonical: false,
                failure: Reason::AliasNotFound { name },
                platform,
            },
        }
    } else if chars.len() > 0 && chars[0] == '~' {
        match &env.home {
            Some(home) => {
                let target = expand_home_in(keyword, home.as_str(), platform);
                Resolution {
                    candidates: single(target.clone()),
                    cursor: 0,
                    canonical: false,
                    failure: Reason::DirectoryNotFound { target },
                    platform,
                }
            },
            None => Resolution {
                candidates: none,
                cursor: 0,
                canonical: false,
                failure: Reason::HomeUnknown,
                platform,
            },
        }
    } else if is_absolute_path(keyword, platform) {
        let target = absolute_path(keyword, env);
        Resolution {
            candidates: single(target.clone()),
            cursor: 0,
            canonical: false,
            failure: Reason::DirectoryNotFound { target },
            platform,
        }
    } else if is_relative_path(keyword) {
        let failure = Reason::DirectoryNotFound { target: String::from_str(keyword) };
        match &env.current_dir {
            Some(dir) => {
                let plain = normalize_path_separator(keyword, platform);
                Resolution {
                    candidates: single(join_path(dir.as_str(), plain.as_str(), platform)),
                    cursor: 0,
                    canonical: true,
                    failure,
                    platform,
                }
            },
            None => Resolution { candidates: none, cursor: 0, canonical: false, failure, platform },
        }
    } else {
        match extract_drive(keyword, env.drives) {
            Some((drive, rest)) => {
                if rest.as_str().unicode_len() == 0 {
                    Resolution {
                        candidates: single(drive_root_path(drive, platform)),
                        cursor: 0,
                        canonical: false,
                        failure: Reason::DriveUnavailable { drive },
                        platform,
                    }
                } else {
                    let inner = trim_start(rest.as_str(), '\\');
                    let term = trim_start(inner.as_str(), '/');
                    let low = to_lowercase(term.as_str());
                    let tokens = split_path(low.as_str());
                    Resolution {
                        candidates: pick(history.records(), Pass::Drive(drive), &tokens),
                        cursor: 0,
                        canonical: false,
                        failure: Reason::NotOnDrive { drive, term },
                        platform,
                    }
                }
            },
            None => Resolution {
                candidates: search_candidates(keyword, env, history),
                cursor: 0,
                canonical: false,
                failure: Reason::DirectoryNotFound { target: String::from_str(keyword) },
                platform,
            },
        }
    }
}

/// Where the host exposes drive letters, a keyword made of a drive letter,
/// a colon and a rest that does not start with a separator goes to the
/// drive strategy, under either convention: the bare `d:` stands for the
/// root of the drive, anything else is searched for in the history of that
/// drive.
pub proof fn lemma_drive_keyword_reaches_drive_strategy(
    keyword: Seq<char>,
    env: Surroundings,
    history: Seq<Visit>,
    aliases: Map<Seq<char>, Seq<char>>,
)
    requires
        env.drives,
        drive_of(keyword, true) is Some,
        keyword.len() == 2 || !crate::path::is_separator(keyword[2]),
    ensures
        keyword.len() == 2 ==> planned(keyword, env, history, aliases).candidates == seq![
            drive_root(drive_of(keyword, true).unwrap().0, env.platform),
        ] && planned(keyword, env, history, aliases).failure == (Cause::DriveUnavailable {
            drive: drive_of(keyword, true).unwrap().0,
        }),
        keyword.len() > 2 ==> planned(keyword, env, history, aliases).candidates == picks(
            history,
            Pass::Drive(drive_of(keyword, true).unwrap().0),
            segments(lowercase(drive_term(keyword.skip(2)))),
        ) && planned(keyword, env, history, aliases).failure == (Cause::NotOnDrive {
            drive: drive_of(keyword, true).unwrap().0,
            term: drive_term(keyword.skip(2)),
        }),
{
    let rest = keyword.skip(2);
    if keyword.len() > 2 {
        assert(rest[0] == keyword[2]);
    }
}

/// Where the host exposes no drive letters, a drive keyword is a plain
/// keyword: it goes to the literal subpath and the history search.
pub proof fn lemma_drive_keyword_without_drives_is_plain(keyword: Seq<char>, env: Surroundings)
    requires
        !env.drives,
        drive_of(keyword, true) is Some,
        keyword.len() == 2 || !crate::path::is_separator(keyword[2]),
    ensures
        plain_keyword(keyword, env),
{
}

} // verus!
