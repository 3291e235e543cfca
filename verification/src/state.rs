//! The state one invocation works on, and what a successful jump does to it.

use vstd::prelude::*;
use crate::clock::{current_time, Timestamp};
use crate::history::{can_visit, capped, visited, HistoryLedger, Visit};
use crate::navigation::{Navigation, NavigationStack};

verus! {

/// The history ledger and the navigation stacks.
#[derive(Debug)]
pub struct AppState {
    pub history: HistoryLedger,
    pub navigation: NavigationStack,
}

/// The navigation after leaving `current`, where it is known.
pub open spec fn left_from(nav: Navigation, current: Option<Seq<char>>) -> Navigation {
    match current {
        Some(dir) => nav.push_back(dir),
        None => nav,
    }
}

impl Default for AppState {
    fn default() -> (r: Self)
        ensures
            r.history@ == Seq::<Visit>::empty(),
            r.navigation@.back == Seq::<Seq<char>>::empty(),
            r.navigation@.front == Seq::<Seq<char>>::empty(),
            r.wf(),
    {
        AppState::new()
    }
}

impl AppState {
    /// Both parts keep their invariants.
    pub open spec fn wf(&self) -> bool {
        self.history.wf() && self.navigation.wf()
    }

    /// The state of a first run: no history, nothing to undo or redo.
    pub fn new() -> (r: Self)
        ensures
            r.history@ == Seq::<Visit>::empty(),
            r.navigation@.back == Seq::<Seq<char>>::empty(),
            r.navigation@.front == Seq::<Seq<char>>::empty(),
            r.wf(),
    {
        AppState { history: HistoryLedger::new(), navigation: NavigationStack::new() }
    }

    /// What every successful jump does, at the time `now`: the directory
    /// that is left goes onto the back stack (which drops the redo branch),
    /// and the directory that is entered is recorded in the ledger.
    pub fn commit_at(&mut self, current: Option<&str>, resolved: &str, now: Timestamp)
        requires
            old(self).wf(),
            can_visit(old(self).history@, resolved@),
        ensures
            final(self).navigation@ == left_from(old(self).navigation@, current.deep_view()),
            final(self).history@ == capped(visited(old(self).history@, resolved@, now)),
            final(self).wf(),
    {
        match current {
            Some(dir) => {
                self.navigation.push_back(dir);
            },
            None => {},
        }
        self.history.record_visit_at(resolved, now);
    }

    /// What every successful jump does, at the current time.
    pub fn commit(&mut self, current: Option<&str>, resolved: &str)
        requires
            old(self).wf(),
            can_visit(old(self).history@, resolved@),
        ensures
            final(self).navigation@ == left_from(old(self).navigation@, current.deep_view()),
            exists|now: Timestamp|
                final(self).history@ == capped(visited(old(self).history@, resolved@, now)),
            final(self).wf(),
    {
        let now = current_time();
        self.commit_at(current, resolved, now);
    }

    /// Forgets everything: the ledger and both stacks are emptied.
    pub fn clear(&mut self)
        ensures
            final(self).history@ == Seq::<Visit>::empty(),
            final(self).navigation@.back == Seq::<Seq<char>>::empty(),
            final(self).navigation@.front == Seq::<Seq<char>>::empty(),
            final(self).wf(),
    {
        self.history.clear();
        self.navigation.clear();
    }
}

} // verus!
