//! The history ledger: one record per visited directory, in insertion order,
//! bounded by [`MAX_HISTORY`] with score-based eviction.

use vstd::prelude::*;
use crate::clock::{current_time, Timestamp};
use crate::text::{fold_case, folded, folds_to, same_text};

verus! {

/// The most records a ledger holds.
pub const MAX_HISTORY: usize = 1000;

/// Why a ledger query has no answer.
#[derive(Clone, Copy, Debug, PartialEq, Eq, Structural)]
pub enum HistoryError {
    /// There is no record of the asked rank; `size` is the number of records.
    NoSuchEntry { index: usize, size: usize },
    /// The ledger is empty.
    EmptyHistory,
}

/// One visited directory.
#[derive(Debug)]
pub struct VisitRecord {
    pub path: String,
    pub last_visited: Timestamp,
    pub visit_count: u32,
}

/// What a [`VisitRecord`] stands for: its path as a text, and its counters.
pub struct Visit {
    pub path: Seq<char>,
    pub last_visited: Timestamp,
    pub visit_count: u32,
}

impl View for VisitRecord {
    type V = Visit;

    open spec fn view(&self) -> Visit {
        Visit { path: self.path@, last_visited: self.last_visited, visit_count: self.visit_count }
    }
}

impl DeepView for VisitRecord {
    type V = Visit;

    open spec fn deep_view(&self) -> Visit {
        self.view()
    }
}

impl Clone for VisitRecord {
    fn clone(&self) -> (r: Self)
        ensures
            r@ == self@,
    {
        VisitRecord {
            path: self.path.clone(),
            last_visited: self.last_visited,
            visit_count: self.visit_count,
        }
    }
}

/// The eviction score: visit count plus the day number of the last visit.
pub open spec fn score(v: Visit) -> int {
    v.visit_count + v.last_visited.spec_day_number()
}

/// The position of the first record whose path is `path` up to ASCII case,
/// or `s.len()` if there is none.
pub open spec fn index_of(s: Seq<Visit>, path: Seq<char>) -> int
    decreases s.len(),
{
    if s.len() == 0 {
        0
    } else if same_text(s[0].path, path) {
        0
    } else {
        1 + index_of(s.drop_first(), path)
    }
}

/// Whether some record of `s` has the path `path`, up to ASCII case.
pub open spec fn known(s: Seq<Visit>, path: Seq<char>) -> bool {
    index_of(s, path) < s.len()
}

/// No two records have the same path, up to ASCII case.
pub open spec fn distinct(s: Seq<Visit>) -> bool {
    forall|i: int, j: int| 0 <= i < j < s.len() ==> !same_text(#[trigger] s[i].path, #[trigger] s[j].path)
}

/// Distinct paths, and every record visited at least once.
pub open spec fn sound(s: Seq<Visit>) -> bool {
    &&& distinct(s)
    &&& forall|i: int| 0 <= i < s.len() ==> (#[trigger] s[i]).visit_count >= 1
}

/// The invariant of a ledger: sound records, at most [`MAX_HISTORY`] of them.
pub open spec fn valid(s: Seq<Visit>) -> bool {
    &&& sound(s)
    &&& s.len() <= MAX_HISTORY
}

/// `v` after one more visit at `now`.
pub open spec fn bumped(v: Visit, now: Timestamp) -> Visit {
    Visit { path: v.path, last_visited: now, visit_count: (v.visit_count + 1) as u32 }
}

/// The records after a visit of `path` at `now`, before the capacity check:
/// the record of that path is refreshed in place, or a fresh record is put
/// at the end.
pub open spec fn visited(s: Seq<Visit>, path: Seq<char>, now: Timestamp) -> Seq<Visit> {
    let i = index_of(s, path);
    if i < s.len() {
        s.update(i, bumped(s[i], now))
    } else {
        s.push(Visit { path, last_visited: now, visit_count: 1 })
    }
}

/// Where `v` goes in the ranking `t`: before the first record with a lower
/// score, that is, behind every record that scores at least as high.
pub open spec fn slot(t: Seq<Visit>, v: Visit) -> int
    decreases t.len(),
{
    if t.len() == 0 {
        0
    } else if score(t[0]) < score(v) {
        0
    } else {
        1 + slot(t.drop_first(), v)
    }
}

/// The records of `s` ordered by falling score; records of equal score keep
/// the order they have in `s`.
pub open spec fn ranked(s: Seq<Visit>) -> Seq<Visit>
    decreases s.len(),
{
    if s.len() == 0 {
        Seq::empty()
    } else {
        let t = ranked(s.drop_last());
        t.insert(slot(t, s.last()), s.last())
    }
}

/// The records after the capacity check: unchanged while they fit, else the
/// [`MAX_HISTORY`] best of the ranking.
pub open spec fn capped(s: Seq<Visit>) -> Seq<Visit> {
    if s.len() > MAX_HISTORY {
        ranked(s).take(MAX_HISTORY as int)
    } else {
        s
    }
}

/// The records without the one whose path is `path` up to ASCII case.
pub open spec fn without(s: Seq<Visit>, path: Seq<char>) -> Seq<Visit> {
    let i = index_of(s, path);
    if i < s.len() {
        s.remove(i)
    } else {
        s
    }
}

/// Whether a visit of `path` can be counted: the record it would refresh has
/// not reached the largest visit count.
pub open spec fn can_visit(s: Seq<Visit>, path: Seq<char>) -> bool {
    known(s, path) ==> s[index_of(s, path)].visit_count < u32::MAX
}

/// The `limit` most recent records, most recent first, each with its rank
/// counted from 1.
pub open spec fn listing(s: Seq<Visit>, limit: int) -> Seq<(usize, Visit)> {
    Seq::new(
        (if limit < s.len() {
            limit
        } else {
            s.len() as int
        }) as nat,
        |k: int| ((k + 1) as usize, s[s.len() - 1 - k]),
    )
}

/// Characterises [`index_of`]: the first matching position, or the length.
pub proof fn lemma_index_of(s: Seq<Visit>, path: Seq<char>, k: int)
    requires
        0 <= k <= s.len(),
        forall|j: int| 0 <= j < k ==> !same_text(s[j].path, path),
        k == s.len() || same_text(s[k].path, path),
    ensures
        index_of(s, path) == k,
    decreases k,
{
    if k > 0 {
        lemma_index_of(s.drop_first(), path, k - 1);
    }
}

/// What [`index_of`] yields lies in range, matches, and nothing before it
/// matches.
pub proof fn lemma_index_of_is_first(s: Seq<Visit>, path: Seq<char>)
    ensures
        0 <= index_of(s, path) <= s.len(),
        index_of(s, path) < s.len() ==> same_text(s[index_of(s, path)].path, path),
        forall|j: int| 0 <= j < index_of(s, path) ==> !same_text(s[j].path, path),
    decreases s.len(),
{
    if s.len() > 0 && !same_text(s[0].path, path) {
        let rest = s.drop_first();
        lemma_index_of_is_first(rest, path);
        assert forall|j: int| 0 <= j < index_of(s, path) implies !same_text(s[j].path, path) by {
            if j > 0 {
                assert(s[j] == rest[j - 1]);
            }
        }
    }
}

/// Characterises [`slot`].
pub proof fn lemma_slot(t: Seq<Visit>, v: Visit, k: int)
    requires
        0 <= k <= t.len(),
        forall|j: int| 0 <= j < k ==> score(t[j]) >= score(v),
        k == t.len() || score(t[k]) < score(v),
    ensures
        slot(t, v) == k,
    decreases k,
{
    if k > 0 {
        lemma_slot(t.drop_first(), v, k - 1);
    }
}

/// What [`slot`] yields lies in range, everything before it scores at least
/// as high as `v`, and the record at it scores lower.
pub proof fn lemma_slot_is_first(t: Seq<Visit>, v: Visit)
    ensures
        0 <= slot(t, v) <= t.len(),
        slot(t, v) < t.len() ==> score(t[slot(t, v)]) < score(v),
        forall|j: int| 0 <= j < slot(t, v) ==> score(t[j]) >= score(v),
    decreases t.len(),
{
    if t.len() > 0 && !(score(t[0]) < score(v)) {
        let rest = t.drop_first();
        lemma_slot_is_first(rest, v);
        assert forall|j: int| 0 <= j < slot(t, v) implies score(t[j]) >= score(v) by {
            if j > 0 {
                assert(t[j] == rest[j - 1]);
            }
        }
    }
}

/// Ranking keeps the number of records.
pub proof fn lemma_ranked_len(s: Seq<Visit>)
    ensures
        ranked(s).len() == s.len(),
    decreases s.len(),
{
    if s.len() > 0 {
        let t = ranked(s.drop_last());
        lemma_ranked_len(s.drop_last());
        lemma_slot_is_first(t, s.last());
    }
}

/// Every record of the ranking is a record of `s`.
pub proof fn lemma_ranked_members(s: Seq<Visit>)
    ensures
        forall|k: int| 0 <= k < ranked(s).len() ==> s.contains(#[trigger] ranked(s)[k]),
    decreases s.len(),
{
    if s.len() > 0 {
        let head = s.drop_last();
        let t = ranked(head);
        let p = slot(t, s.last());
        lemma_ranked_len(head);
        lemma_ranked_members(head);
        lemma_slot_is_first(t, s.last());
        let r = ranked(s);
        assert forall|k: int| 0 <= k < r.len() implies s.contains(#[trigger] r[k]) by {
            if k == p {
                assert(r[k] == s[s.len() - 1]);
            } else {
                let k0 = if k < p {
                    k
                } else {
                    k - 1
                };
                assert(r[k] == t[k0]);
                assert(head.contains(t[k0]));
                let j = choose|j: int| 0 <= j < head.len() && head[j] == t[k0];
                assert(s[j] == t[k0]);
            }
        }
    }
}

/// Ranking keeps the records sound.
pub proof fn lemma_ranked_sound(s: Seq<Visit>)
    requires
        sound(s),
    ensures
        sound(ranked(s)),
    decreases s.len(),
{
    if s.len() > 0 {
        let head = s.drop_last();
        let x = s.last();
        let t = ranked(head);
        let p = slot(t, x);
        assert forall|i: int, j: int| 0 <= i < j < head.len() implies !same_text(
            #[trigger] head[i].path,
            #[trigger] head[j].path,
        ) by {
            assert(head[i] == s[i] && head[j] == s[j]);
        }
        assert forall|i: int| 0 <= i < head.len() implies (#[trigger] head[i]).visit_count
            >= 1 by {
            assert(head[i] == s[i]);
        }
        lemma_ranked_sound(head);
        lemma_ranked_len(head);
        lemma_ranked_members(head);
        lemma_slot_is_first(t, x);
        let r = ranked(s);
        assert forall|k: int| 0 <= k < t.len() implies !same_text(
            (#[trigger] t[k]).path,
            x.path,
        ) by {
            assert(head.contains(t[k]));
            let j = choose|j: int| 0 <= j < head.len() && head[j] == t[k];
            assert(s[j] == t[k]);
            assert(!same_text(s[j].path, s[s.len() - 1].path));
        }
        assert forall|i: int, j: int| 0 <= i < j < r.len() implies !same_text(
            #[trigger] r[i].path,
            #[trigger] r[j].path,
        ) by {
            let i0 = if i < p {
                i
            } else {
                i - 1
            };
            let j0 = if j < p {
                j
            } else {
                j - 1
            };
            if i == p {
                assert(r[i] == x);
                assert(r[j] == t[j0]);
            } else if j == p {
                assert(r[j] == x);
                assert(r[i] == t[i0]);
            } else {
                assert(r[i] == t[i0]);
                assert(r[j] == t[j0]);
            }
        }
        assert forall|i: int| 0 <= i < r.len() implies (#[trigger] r[i]).visit_count >= 1 by {
            let i0 = if i < p {
                i
            } else {
                i - 1
            };
            if i == p {
                assert(r[i] == s[s.len() - 1]);
            } else {
                assert(r[i] == t[i0]);
            }
        }
    }
}

/// The ranking is ordered by falling score.
pub proof fn lemma_ranked_sorted(s: Seq<Visit>)
    ensures
        forall|i: int, j: int|
            0 <= i <= j < ranked(s).len() ==> score(#[trigger] ranked(s)[i]) >= score(
                #[trigger] ranked(s)[j],
            ),
    decreases s.len(),
{
    if s.len() > 0 {
        let head = s.drop_last();
        let x = s.last();
        let t = ranked(head);
        let p = slot(t, x);
        lemma_ranked_sorted(head);
        lemma_ranked_len(head);
        lemma_slot_is_first(t, x);
        let r = ranked(s);
        assert forall|i: int, j: int| 0 <= i <= j < r.len() implies score(#[trigger] r[i])
            >= score(#[trigger] r[j]) by {
            let i0 = if i < p {
                i
            } else {
                i - 1
            };
            let j0 = if j < p {
                j
            } else {
                j - 1
            };
            if i == p && j == p {
            } else if i == p {
                assert(r[j] == t[j0]);
                assert(score(t[p]) >= score(t[j0]));
            } else if j == p {
                assert(r[i] == t[i0]);
            } else {
                assert(r[i] == t[i0]);
                assert(r[j] == t[j0]);
            }
        }
    }
}

/// The ranking is stable: of two records of equal score the one that
/// stands first in the ranking stands first in `s` too.
pub proof fn lemma_ranked_stable(s: Seq<Visit>)
    ensures
        forall|a: int, b: int|
            0 <= a < b < ranked(s).len() && score(#[trigger] ranked(s)[a]) == score(
                #[trigger] ranked(s)[b],
            ) ==> exists|i: int, j: int|
                0 <= i < j < s.len() && #[trigger] s[i] == ranked(s)[a] && #[trigger] s[j]
                    == ranked(s)[b],
    decreases s.len(),
{
    if s.len() > 0 {
        let head = s.drop_last();
        let x = s.last();
        let t = ranked(head);
        let p = slot(t, x);
        lemma_ranked_stable(head);
        lemma_ranked_sorted(head);
        lemma_ranked_len(head);
        lemma_ranked_members(head);
        lemma_slot_is_first(t, x);
        let r = ranked(s);
        assert forall|a: int, b: int|
            0 <= a < b < r.len() && score(#[trigger] r[a]) == score(
                #[trigger] r[b],
            ) implies exists|i: int, j: int|
            0 <= i < j < s.len() && #[trigger] s[i] == r[a] && #[trigger] s[j] == r[b] by {
            let a0 = if a < p {
                a
            } else {
                a - 1
            };
            let b0 = if b < p {
                b
            } else {
                b - 1
            };
            if a == p {
                assert(r[b] == t[b0]);
                assert(score(t[p]) >= score(t[b0]));
                assert(false);
            } else if b == p {
                assert(r[a] == t[a0]);
                assert(head.contains(t[a0]));
                let i = choose|i: int| 0 <= i < head.len() && head[i] == t[a0];
                assert(s[i] == r[a] && s[s.len() - 1] == r[b]);
            } else {
                assert(r[a] == t[a0] && r[b] == t[b0]);
                let (i, j) = choose|i: int, j: int|
                    0 <= i < j < head.len() && #[trigger] head[i] == t[a0] && #[trigger] head[j]
                        == t[b0];
                assert(s[i] == r[a] && s[j] == r[b]);
            }
        }
    }
}

/// Capping sound records yields a valid ledger content.
pub proof fn lemma_capped_valid(s: Seq<Visit>)
    requires
        sound(s),
    ensures
        valid(capped(s)),
        capped(s).len() == (if s.len() > MAX_HISTORY {
            MAX_HISTORY as int
        } else {
            s.len() as int
        }),
{
    if s.len() > MAX_HISTORY {
        lemma_ranked_sound(s);
        lemma_ranked_len(s);
        let r = ranked(s);
        let c = capped(s);
        assert forall|i: int, j: int| 0 <= i < j < c.len() implies !same_text(
            #[trigger] c[i].path,
            #[trigger] c[j].path,
        ) by {
            assert(c[i] == r[i] && c[j] == r[j]);
        }
        assert forall|i: int| 0 <= i < c.len() implies (#[trigger] c[i]).visit_count >= 1 by {
            assert(c[i] == r[i]);
        }
    }
}

/// A bounded history of visited directories.
#[derive(Debug)]
pub struct HistoryLedger {
    records: Vec<VisitRecord>,
}

impl View for HistoryLedger {
    type V = Seq<Visit>;

    closed spec fn view(&self) -> Seq<Visit> {
        self.records.deep_view()
    }
}

/// Orders `records` by falling score, keeping the order of equal scores.
pub fn rank_records(records: &Vec<VisitRecord>) -> (out: Vec<VisitRecord>)
    ensures
        out.deep_view() == ranked(records.deep_view()),
{
    let ghost s = records.deep_view();
    let mut out: Vec<VisitRecord> = Vec::new();
    let mut i: usize = 0;
    assert(s.take(0) =~= Seq::<Visit>::empty());
    assert(out.deep_view() =~= Seq::<Visit>::empty());
    while i < records.len()
        invariant
            i <= records.len(),
            s == records.deep_view(),
            out.deep_view() == ranked(s.take(i as int)),
            out.len() == i,
        decreases records.len() - i,
    {
        let rec = records[i].clone();
        let key = rec.score();
        let ghost t = out.deep_view();
        let mut p: usize = 0;
        while p < out.len() && out[p].score() >= key
            invariant
                p <= out.len(),
                t == out.deep_view(),
                key == score(rec@),
                forall|j: int| 0 <= j < p ==> score(t[j]) >= score(rec@),
            decreases out.len() - p,
        {
            p += 1;
        }
        proof {
            lemma_slot(t, rec@, p as int);
            assert(s.take(i + 1).drop_last() =~= s.take(i as int));
            assert(s.take(i + 1).last() == rec@);
        }
        out.insert(p, rec);
        assert(out.deep_view() =~= t.insert(p as int, rec@));
        i += 1;
    }
    assert(s.take(records.len() as int) =~= s);
    out
}

impl VisitRecord {
    /// The eviction score of the record.
    pub fn score(&self) -> (r: i64)
        ensures
            r == score(self@),
    {
        let day = self.last_visited.day_number();
        day + (self.visit_count as i64)
    }
}

impl Default for HistoryLedger {
    fn default() -> (r: Self)
        ensures
            r@ == Seq::<Visit>::empty(),
            r.wf(),
    {
        HistoryLedger::new()
    }
}

impl HistoryLedger {
    /// The ledger invariant.
    pub open spec fn wf(&self) -> bool {
        valid(self@)
    }

    /// An empty ledger.
    pub fn new() -> (r: Self)
        ensures
            r@ == Seq::<Visit>::empty(),
            r.wf(),
    {
        let r = HistoryLedger { records: Vec::new() };
        assert(r@ =~= Seq::<Visit>::empty());
        r
    }

    /// The number of records.
    pub fn len(&self) -> (n: usize)
        ensures
            n == self@.len(),
    {
        self.records.len()
    }

    /// The records, oldest first.
    pub fn records(&self) -> (r: &Vec<VisitRecord>)
        ensures
            r.deep_view() == self@,
    {
        &self.records
    }

    /// The position of the record of `path`, compared up to ASCII case.
    pub fn find(&self, path: &str) -> (r: Option<usize>)
        ensures
            r is Some == known(self@, path@),
            r matches Some(i) ==> i == index_of(self@, path@),
    {
        let key = folded(path);
        let mut i: usize = 0;
        while i < self.records.len()
            invariant
                i <= self.records.len(),
                key@ == fold_case(path@),
                forall|j: int| 0 <= j < i ==> !same_text(self@[j].path, path@),
            decreases self.records.len() - i,
        {
            if folds_to(self.records[i].path.as_str(), &key) {
                proof {
                    lemma_index_of(self@, path@, i as int);
                }
                return Some(i);
            }
            i += 1;
        }
        proof {
            lemma_index_of(self@, path@, i as int);
        }
        None
    }

    /// Whether a visit of `path` can be counted: the record it would
    /// refresh, if there is one, has not reached the largest visit count.
    pub fn can_record(&self, path: &str) -> (b: bool)
        ensures
            b == can_visit(self@, path@),
    {
        match self.find(path) {
            Some(i) => self.records[i].visit_count < u32::MAX,
            None => true,
        }
    }

    /// Applies the capacity bound: a ledger over [`MAX_HISTORY`] records is
    /// ranked by score and cut down to the best [`MAX_HISTORY`].
    pub fn enforce_capacity(&mut self)
        requires
            sound(old(self)@),
        ensures
            final(self)@ == capped(old(self)@),
            final(self).wf(),
    {
        proof {
            lemma_capped_valid(self@);
        }
        if self.records.len() > MAX_HISTORY {
            let mut best = rank_records(&self.records);
            proof {
                lemma_ranked_len(self@);
            }
            best.truncate(MAX_HISTORY);
            assert(best.deep_view() =~= ranked(self@).take(MAX_HISTORY as int));
            self.records = best;
        }
    }

    /// Builds a ledger from stored records. Records that break the
    /// invariant (a path twice, a visit count of zero) are refused; more
    /// than [`MAX_HISTORY`] of them are cut down as by a capacity check.
    pub fn from_records(records: Vec<VisitRecord>) -> (r: Option<Self>)
        ensures
            r is Some == sound(records.deep_view()),
            r matches Some(ledger) ==> ledger@ == capped(records.deep_view()) && ledger.wf(),
    {
        let ghost s = records.deep_view();
        let mut keys: Vec<Vec<char>> = Vec::new();
        let mut i: usize = 0;
        while i < records.len()
            invariant
                i <= records.len(),
                s == records.deep_view(),
                keys.len() == i,
                forall|k: int| 0 <= k < i ==> (#[trigger] keys[k])@ == fold_case(s[k].path),
                forall|a: int, b: int|
                    0 <= a < b < i ==> !same_text(#[trigger] s[a].path, #[trigger] s[b].path),
                forall|k: int| 0 <= k < i ==> (#[trigger] s[k]).visit_count >= 1,
            decreases records.len() - i,
        {
            if records[i].visit_count == 0 {
                assert(s[i as int].visit_count == 0);
                return None;
            }
            let key = folded(records[i].path.as_str());
            let mut j: usize = 0;
            while j < i
                invariant
                    j <= i < records.len(),
                    s == records.deep_view(),
                    keys.len() == i,
                    key@ == fold_case(s[i as int].path),
                    forall|k: int| 0 <= k < i ==> (#[trigger] keys[k])@ == fold_case(s[k].path),
                    forall|k: int| 0 <= k < j ==> !same_text((#[trigger] s[k]).path, s[i as int].path),
                decreases i - j,
            {
                if crate::text::chars_eq(&keys[j], &key) {
                    assert(same_text(s[j as int].path, s[i as int].path));
                    return None;
                }
                j += 1;
            }
            keys.push(key);
            i += 1;
        }
        let mut ledger = HistoryLedger { records };
        ledger.enforce_capacity();
        Some(ledger)
    }

    /// Whether the ledger holds no record.
    pub fn is_empty(&self) -> (b: bool)
        ensures
            b == (self@.len() == 0),
    {
        self.records.len() == 0
    }

    /// Records a visit of `path` at the time `now`: the record of that path
    /// (up to ASCII case) is refreshed where it stands, or a new record with
    /// one visit is put at the end; then the capacity bound is applied.
    pub fn record_visit_at(&mut self, path: &str, now: Timestamp)
        requires
            old(self).wf(),
            can_visit(old(self)@, path@),
        ensures
            final(self)@ == capped(visited(old(self)@, path@, now)),
            final(self).wf(),
    {
        let ghost before = self@;
        proof {
            lemma_index_of_is_first(before, path@);
        }
        match self.find(path) {
            Some(i) => {
                let fresh = VisitRecord {
                    path: self.records[i].path.clone(),
                    last_visited: now,
                    visit_count: self.records[i].visit_count + 1,
                };
                self.records.set(i, fresh);
                assert(self@ =~= visited(before, path@, now));
                assert forall|a: int, b: int| 0 <= a < b < self@.len() implies !same_text(
                    #[trigger] self@[a].path,
                    #[trigger] self@[b].path,
                ) by {
                    assert(self@[a].path == before[a].path);
                    assert(self@[b].path == before[b].path);
                }
                assert forall|a: int| 0 <= a < self@.len() implies (#[trigger] self@[a]).visit_count
                    >= 1 by {
                    if a != i {
                        assert(self@[a] == before[a]);
                    }
                }
            },
            None => {
                let fresh = VisitRecord {
                    path: String::from_str(path),
                    last_visited: now,
                    visit_count: 1,
                };
                self.records.push(fresh);
                assert(self@ =~= visited(before, path@, now));
                assert forall|a: int, b: int| 0 <= a < b < self@.len() implies !same_text(
                    #[trigger] self@[a].path,
                    #[trigger] self@[b].path,
                ) by {
                    assert(self@[a] == before[a]);
                    if b < before.len() {
                        assert(self@[b] == before[b]);
                    }
                }
                assert forall|a: int| 0 <= a < self@.len() implies (#[trigger] self@[a]).visit_count
                    >= 1 by {
                    if a < before.len() {
                        assert(self@[a] == before[a]);
                    }
                }
            },
        }
        self.enforce_capacity();
    }

    /// Records a visit of `path` at the current time.
    pub fn record_visit(&mut self, path: &str)
        requires
            old(self).wf(),
            can_visit(old(self)@, path@),
        ensures
            exists|now: Timestamp| final(self)@ == capped(visited(old(self)@, path@, now)),
            final(self).wf(),
    {
        let now = current_time();
        self.record_visit_at(path, now);
    }

    /// Removes the record of `path` (compared up to ASCII case) and says
    /// whether there was one.
    pub fn remove(&mut self, path: &str) -> (removed: bool)
        requires
            old(self).wf(),
        ensures
            removed == known(old(self)@, path@),
            final(self)@ == without(old(self)@, path@),
            final(self).wf(),
    {
        let ghost before = self@;
        match self.find(path) {
            Some(i) => {
                let _ = self.records.remove(i);
                assert(self@ =~= before.remove(i as int));
                assert forall|a: int, b: int| 0 <= a < b < self@.len() implies !same_text(
                    #[trigger] self@[a].path,
                    #[trigger] self@[b].path,
                ) by {
                    let a0 = if a < i {
                        a
                    } else {
                        a + 1
                    };
                    let b0 = if b < i {
                        b
                    } else {
                        b + 1
                    };
                    assert(self@[a] == before[a0]);
                    assert(self@[b] == before[b0]);
                }
                assert forall|a: int| 0 <= a < self@.len() implies (#[trigger] self@[a]).visit_count
                    >= 1 by {
                    let a0 = if a < i {
                        a
                    } else {
                        a + 1
                    };
                    assert(self@[a] == before[a0]);
                }
                true
            },
            None => false,
        }
    }

    /// Empties the ledger.
    pub fn clear(&mut self)
        ensures
            final(self)@ == Seq::<Visit>::empty(),
            final(self).wf(),
    {
        self.records.clear();
        assert(self@ =~= Seq::<Visit>::empty());
    }

    /// The record of rank `n`, counted from 1 at the most recently inserted
    /// end. A rank outside `1..=len` is answered with the ledger's size.
    pub fn nth_most_recent(&self, n: usize) -> (r: Result<VisitRecord, HistoryError>)
        ensures
            r is Ok == (1 <= n <= self@.len()),
            r matches Ok(rec) ==> rec@ == self@[self@.len() - n],
            r matches Err(e) ==> e == (HistoryError::NoSuchEntry { index: n, size: self@.len() as usize }),
    {
        let size = self.records.len();
        if 1 <= n && n <= size {
            Ok(self.records[size - n].clone())
        } else {
            Err(HistoryError::NoSuchEntry { index: n, size })
        }
    }

    /// The most recently inserted record.
    pub fn last(&self) -> (r: Result<VisitRecord, HistoryError>)
        ensures
            r is Ok == (self@.len() > 0),
            r matches Ok(rec) ==> rec@ == self@.last(),
            r matches Err(e) ==> e == HistoryError::EmptyHistory,
    {
        let size = self.records.len();
        if size > 0 {
            Ok(self.records[size - 1].clone())
        } else {
            Err(HistoryError::EmptyHistory)
        }
    }

    /// The `limit` most recent records, most recent first, each with its
    /// rank counted from 1.
    pub fn list(&self, limit: usize) -> (out: Vec<(usize, VisitRecord)>)
        ensures
            out.deep_view() == listing(self@, limit as int),
    {
        let size = self.records.len();
        let count = if limit < size {
            limit
        } else {
            size
        };
        let mut out: Vec<(usize, VisitRecord)> = Vec::new();
        let mut k: usize = 0;
        while k < count
            invariant
                k <= count <= size,
                size == self.records.len(),
                count == if limit < size {
                    limit
                } else {
                    size
                },
                out.len() == k,
                forall|j: int| 0 <= j < k ==> (#[trigger] out[j]).deep_view() == listing(self@, limit as int)[j],
            decreases count - k,
        {
            let rec = self.records[size - 1 - k].clone();
            out.push((k + 1, rec));
            k += 1;
        }
        assert(out.deep_view() =~= listing(self@, limit as int));
        out
    }
}

/// After a visit the visited path has a record, unless the ledger was full
/// of other paths (then the capacity check decides who stays).
pub proof fn lemma_visit_is_known(s: Seq<Visit>, path: Seq<char>, now: Timestamp)
    requires
        valid(s),
        known(s, path) || s.len() < MAX_HISTORY,
    ensures
        capped(visited(s, path, now)) == visited(s, path, now),
        known(visited(s, path, now), path),
        visited(s, path, now).len() == (if known(s, path) {
            s.len()
        } else {
            s.len() + 1
        }),
{
    lemma_index_of_is_first(s, path);
    let i = index_of(s, path);
    let v = visited(s, path, now);
    assert forall|j: int| 0 <= j < i implies !same_text(v[j].path, path) by {
        assert(v[j] == s[j]);
    }
    lemma_index_of(v, path, i);
}

/// Visiting a path that the ledger knows under another spelling of ASCII
/// case refreshes that one record where it stands: the time is replaced and
/// the count goes up by one (as long as it can still grow); the path text,
/// the number of records, their order, every other record and the
/// distinctness of the paths stay.
pub proof fn lemma_revisit_refreshes_record(
    s: Seq<Visit>,
    path: Seq<char>,
    again: Seq<char>,
    now: Timestamp,
)
    requires
        valid(s),
        known(s, path),
        same_text(path, again),
    ensures
        0 <= index_of(s, path) < s.len(),
        index_of(s, again) == index_of(s, path),
        capped(visited(s, again, now)).len() == s.len(),
        forall|j: int|
            0 <= j < s.len() && j != index_of(s, path) ==> #[trigger] capped(
                visited(s, again, now),
            )[j] == s[j],
        capped(visited(s, again, now))[index_of(s, path)].path == s[index_of(s, path)].path,
        capped(visited(s, again, now))[index_of(s, path)].last_visited == now,
        can_visit(s, again) ==> capped(visited(s, again, now))[index_of(s, path)].visit_count
            == s[index_of(s, path)].visit_count + 1,
        distinct(capped(visited(s, again, now))),
{
    lemma_index_of_is_first(s, path);
    let i = index_of(s, path);
    lemma_index_of(s, again, i);
    lemma_visit_is_known(s, again, now);
    let v = visited(s, again, now);
    assert forall|a: int, b: int| 0 <= a < b < v.len() implies !same_text(
        #[trigger] v[a].path,
        #[trigger] v[b].path,
    ) by {
        assert(v[a].path == s[a].path);
        assert(v[b].path == s[b].path);
    }
}

/// The capacity bound holds after every visit: whatever path is visited,
/// and at whatever time, a ledger within [`MAX_HISTORY`] stays within it.
pub proof fn lemma_visit_keeps_bound(s: Seq<Visit>, path: Seq<char>, now: Timestamp)
    requires
        s.len() <= MAX_HISTORY,
    ensures
        capped(visited(s, path, now)).len() <= MAX_HISTORY,
{
    lemma_index_of_is_first(s, path);
    lemma_ranked_len(visited(s, path, now));
}

/// What eviction keeps: of a sound ledger over capacity exactly
/// [`MAX_HISTORY`] records stay, each of them one of the old records, in
/// the order of the ranking, and none of them scores lower than any record
/// of the ranking that was dropped. The ranking itself holds every old
/// record exactly once.
pub proof fn lemma_eviction_keeps_best(s: Seq<Visit>)
    requires
        sound(s),
        s.len() > MAX_HISTORY,
    ensures
        capped(s).len() == MAX_HISTORY,
        ranked(s).len() == s.len(),
        valid(capped(s)),
        forall|k: int| 0 <= k < MAX_HISTORY ==> #[trigger] capped(s)[k] == ranked(s)[k],
        forall|k: int| 0 <= k < ranked(s).len() ==> s.contains(#[trigger] ranked(s)[k]),
        forall|k: int, d: int|
            0 <= k < MAX_HISTORY <= d < s.len() ==> score(#[trigger] ranked(s)[k]) >= score(
                #[trigger] ranked(s)[d],
            ),
        ranked(s).to_multiset() == s.to_multiset(),
{
    lemma_capped_valid(s);
    lemma_ranked_len(s);
    lemma_ranked_members(s);
    lemma_ranked_sorted(s);
    lemma_ranked_permutes(s);
}

/// The ranking holds the same records as `s`, each as often.
pub proof fn lemma_ranked_permutes(s: Seq<Visit>)
    ensures
        ranked(s).to_multiset() == s.to_multiset(),
    decreases s.len(),
{
    broadcast use vstd::seq_lib::group_to_multiset_ensures;

    if s.len() == 0 {
    } else {
        let head = s.drop_last();
        let x = s.last();
        let t = ranked(head);
        let p = slot(t, x);
        lemma_ranked_permutes(head);
        lemma_ranked_len(head);
        lemma_slot_is_first(t, x);
        let front = t.subrange(0, p);
        let back = t.subrange(p, t.len() as int);
        assert(t =~= front + back);
        assert(s =~= head.push(x));
        vstd::seq_lib::lemma_multiset_commutative(front, back);
        vstd::seq_lib::lemma_multiset_commutative(front.push(x), back);
        assert(ranked(s) == front.push(x) + back);
        assert(ranked(s).to_multiset() =~= t.to_multiset().insert(x));
        assert(s.to_multiset() =~= head.to_multiset().insert(x));
    }
}

} // verus!
