//! The undo/redo navigation stack: two bounded stacks of earlier locations.

use std::collections::VecDeque;
use vstd::prelude::*;
use vstd::std_specs::vecdeque::VecDequeAdditionalSpecFns;

verus! {

/// The most entries either stack holds.
pub const MAX_UNDO: usize = 50;

/// Why a navigation has no target.
#[derive(Clone, Copy, Debug, PartialEq, Eq, Structural)]
pub enum NavigationError {
    /// The stack that was to be popped is empty.
    EmptyStack,
}

/// What a [`NavigationStack`] stands for: both stacks, oldest entry first.
pub struct Navigation {
    pub back: Seq<Seq<char>>,
    pub front: Seq<Seq<char>>,
}

/// `stack` with `path` on top; a stack over [`MAX_UNDO`] entries loses its
/// oldest one.
pub open spec fn pushed(stack: Seq<Seq<char>>, path: Seq<char>) -> Seq<Seq<char>> {
    let grown = stack.push(path);
    if grown.len() > MAX_UNDO {
        grown.drop_first()
    } else {
        grown
    }
}

/// `stack` with `current` on top, if a current location is known.
pub open spec fn pushed_if(stack: Seq<Seq<char>>, current: Option<Seq<char>>) -> Seq<Seq<char>> {
    match current {
        Some(c) => pushed(stack, c),
        None => stack,
    }
}

impl Navigation {
    /// Both stacks are within [`MAX_UNDO`].
    pub open spec fn bounded(self) -> bool {
        self.back.len() <= MAX_UNDO && self.front.len() <= MAX_UNDO
    }

    /// An ordinary navigation away from `path`: `path` goes onto the back
    /// stack and the redo branch is dropped.
    pub open spec fn push_back(self, path: Seq<char>) -> Navigation {
        Navigation { back: pushed(self.back, path), front: Seq::empty() }
    }

    /// Going back from `current`: the state afterwards and where to go.
    pub open spec fn undo(self, current: Option<Seq<char>>) -> (Navigation, Option<Seq<char>>) {
        if self.back.len() == 0 {
            (self, None)
        } else {
            (
                Navigation { back: self.back.drop_last(), front: pushed_if(self.front, current) },
                Some(self.back.last()),
            )
        }
    }

    /// Going forward from `current`: the state afterwards and where to go.
    pub open spec fn redo(self, current: Option<Seq<char>>) -> (Navigation, Option<Seq<char>>) {
        if self.front.len() == 0 {
            (self, None)
        } else {
            (
                Navigation { back: pushed_if(self.back, current), front: self.front.drop_last() },
                Some(self.front.last()),
            )
        }
    }
}

/// The back and forward stacks of earlier locations.
#[derive(Debug)]
pub struct NavigationStack {
    back: VecDeque<String>,
    front: VecDeque<String>,
}

impl View for NavigationStack {
    type V = Navigation;

    closed spec fn view(&self) -> Navigation {
        Navigation { back: self.back.deep_view(), front: self.front.deep_view() }
    }
}

/// Puts `path` on top of `stack`, dropping the oldest entry of a stack that
/// grows over [`MAX_UNDO`].
fn push_bounded(stack: &mut VecDeque<String>, path: &str)
    ensures
        final(stack).deep_view() == pushed(old(stack).deep_view(), path@),
{
    let ghost before = stack.deep_view();
    stack.push_back(String::from_str(path));
    assert(stack.deep_view() =~= before.push(path@));
    if stack.len() > MAX_UNDO {
        let _ = stack.pop_front();
        assert(stack.deep_view() =~= before.push(path@).drop_first());
    }
}

/// Copies the entries of `stack`, oldest first.
fn entries_of(stack: &VecDeque<String>) -> (out: Vec<String>)
    ensures
        out.deep_view() == stack.deep_view(),
{
    let mut out: Vec<String> = Vec::new();
    let mut i: usize = 0;
    while i < stack.len()
        invariant
            i <= stack.len(),
            out.len() == i,
            forall|k: int| 0 <= k < i ==> (#[trigger] out[k])@ == stack[k]@,
        decreases stack.len() - i,
    {
        out.push(stack[i].clone());
        i += 1;
    }
    assert(out.deep_view() =~= stack.deep_view());
    out
}

/// Builds a stack from `entries`, oldest first.
fn stack_of(entries: &Vec<String>) -> (out: VecDeque<String>)
    ensures
        out.deep_view() == entries.deep_view(),
{
    let mut out: VecDeque<String> = VecDeque::new();
    let mut i: usize = 0;
    while i < entries.len()
        invariant
            i <= entries.len(),
            out.len() == i,
            forall|k: int| 0 <= k < i ==> (#[trigger] out[k])@ == entries[k]@,
        decreases entries.len() - i,
    {
        out.push_back(entries[i].clone());
        i += 1;
    }
    assert(out.deep_view() =~= entries.deep_view());
    out
}

impl Default for NavigationStack {
    fn default() -> (r: Self)
        ensures
            r@.back == Seq::<Seq<char>>::empty(),
            r@.front == Seq::<Seq<char>>::empty(),
            r.wf(),
    {
        NavigationStack::new()
    }
}

impl NavigationStack {
    /// The stack invariant.
    pub open spec fn wf(&self) -> bool {
        self@.bounded()
    }

    /// Two empty stacks.
    pub fn new() -> (r: Self)
        ensures
            r@.back == Seq::<Seq<char>>::empty(),
            r@.front == Seq::<Seq<char>>::empty(),
            r.wf(),
    {
        let r = NavigationStack { back: VecDeque::new(), front: VecDeque::new() };
        assert(r@.back =~= Seq::<Seq<char>>::empty());
        assert(r@.front =~= Seq::<Seq<char>>::empty());
        r
    }

    /// Builds the stacks from stored entries, oldest first. Stacks over
    /// [`MAX_UNDO`] entries are refused.
    pub fn from_parts(back: &Vec<String>, front: &Vec<String>) -> (r: Option<Self>)
        ensures
            r is Some == (back.len() <= MAX_UNDO && front.len() <= MAX_UNDO),
            r matches Some(nav) ==> nav@.back == back.deep_view() && nav@.front
                == front.deep_view() && nav.wf(),
    {
        if back.len() <= MAX_UNDO && front.len() <= MAX_UNDO {
            Some(NavigationStack { back: stack_of(back), front: stack_of(front) })
        } else {
            None
        }
    }

    /// The back stack, oldest entry first.
    pub fn back_entries(&self) -> (out: Vec<String>)
        ensures
            out.deep_view() == self@.back,
    {
        entries_of(&self.back)
    }

    /// The forward stack, oldest entry first.
    pub fn front_entries(&self) -> (out: Vec<String>)
        ensures
            out.deep_view() == self@.front,
    {
        entries_of(&self.front)
    }

    /// Records an ordinary navigation away from `path`.
    pub fn push_back(&mut self, path: &str)
        requires
            old(self).wf(),
        ensures
            final(self)@ == old(self)@.push_back(path@),
            final(self).wf(),
    {
        push_bounded(&mut self.back, path);
        self.front.clear();
        assert(self@.front =~= Seq::<Seq<char>>::empty());
    }

    /// Goes back: takes the most recent entry off the back stack and, if
    /// there was one, puts `current` onto the forward stack. Without undo
    /// history the stacks stay as they are.
    pub fn undo(&mut self, current: Option<&str>) -> (r: Result<String, NavigationError>)
        requires
            old(self).wf(),
        ensures
            final(self)@ == old(self)@.undo(current.deep_view()).0,
            r is Ok == old(self)@.undo(current.deep_view()).1 is Some,
            r matches Ok(target) ==> Some(target@) == old(self)@.undo(current.deep_view()).1,
            r matches Err(e) ==> e == NavigationError::EmptyStack,
            final(self).wf(),
    {
        let ghost before = self@;
        match self.back.pop_back() {
            Some(prev) => {
                assert(self@.back =~= before.back.drop_last());
                assert(prev@ == before.back.last());
                match current {
                    Some(c) => {
                        push_bounded(&mut self.front, c);
                    },
                    None => {},
                }
                Ok(prev)
            },
            None => {
                assert(self@.back =~= before.back);
                Err(NavigationError::EmptyStack)
            },
        }
    }

    /// Goes forward: takes the most recent entry off the forward stack and,
    /// if there was one, puts `current` onto the back stack. Without redo
    /// history the stacks stay as they are.
    pub fn redo(&mut self, current: Option<&str>) -> (r: Result<String, NavigationError>)
        requires
            old(self).wf(),
        ensures
            final(self)@ == old(self)@.redo(current.deep_view()).0,
            r is Ok == old(self)@.redo(current.deep_view()).1 is Some,
            r matches Ok(target) ==> Some(target@) == old(self)@.redo(current.deep_view()).1,
            r matches Err(e) ==> e == NavigationError::EmptyStack,
            final(self).wf(),
    {
        let ghost before = self@;
        match self.front.pop_back() {
            Some(next) => {
                assert(self@.front =~= before.front.drop_last());
                assert(next@ == before.front.last());
                match current {
                    Some(c) => {
                        push_bounded(&mut self.back, c);
                    },
                    None => {},
                }
                Ok(next)
            },
            None => {
                assert(self@.front =~= before.front);
                Err(NavigationError::EmptyStack)
            },
        }
    }

    /// Empties both stacks.
    pub fn clear(&mut self)
        ensures
            final(self)@.back == Seq::<Seq<char>>::empty(),
            final(self)@.front == Seq::<Seq<char>>::empty(),
            final(self).wf(),
    {
        self.back.clear();
        self.front.clear();
        assert(self@.back =~= Seq::<Seq<char>>::empty());
        assert(self@.front =~= Seq::<Seq<char>>::empty());
    }
}

/// Undo yields what was pushed last: after `push_back(a)` and `push_back(b)`
/// an undo from `current` leads to `b` and puts `current` on the emptied
/// forward stack; a second undo leads to `a`.
pub proof fn lemma_undo_returns_pushes(
    nav: Navigation,
    a: Seq<char>,
    b: Seq<char>,
    current: Seq<char>,
    then: Option<Seq<char>>,
)
    requires
        nav.bounded(),
    ensures
        nav.push_back(a).push_back(b).undo(Some(current)).1 == Some(b),
        nav.push_back(a).push_back(b).undo(Some(current)).0.front == seq![current],
        nav.push_back(a).push_back(b).undo(Some(current)).0.undo(then).1 == Some(a),
        nav.push_back(a).push_back(b).undo(Some(current)).0.bounded(),
{
    let two = nav.push_back(a).push_back(b);
    let after = two.undo(Some(current)).0;
    assert(after.front =~= seq![current]);
}

/// Redo takes back an undo: going forward from where the undo led to
/// returns to where it started, and the back stack is as it was before.
pub proof fn lemma_redo_restores_undo(nav: Navigation, current: Seq<char>)
    requires
        nav.bounded(),
        nav.back.len() > 0,
    ensures
        nav.undo(Some(current)).1 == Some(nav.back.last()),
        nav.undo(Some(current)).0.redo(nav.undo(Some(current)).1).1 == Some(current),
        nav.undo(Some(current)).0.redo(nav.undo(Some(current)).1).0.back == nav.back,
        nav.front.len() < MAX_UNDO ==> nav.undo(Some(current)).0.redo(
            nav.undo(Some(current)).1,
        ).0 == nav,
{
    let (after, target) = nav.undo(Some(current));
    let (again, _) = after.redo(target);
    assert(again.back =~= nav.back);
    if nav.front.len() < MAX_UNDO {
        assert(again.front =~= nav.front);
    }
}

/// An ordinary navigation drops the redo branch: after any `push_back`
/// there is nothing to redo, whatever was undone before.
pub proof fn lemma_push_clears_redo(nav: Navigation, path: Seq<char>, current: Option<Seq<char>>)
    ensures
        nav.push_back(path).front.len() == 0,
        nav.push_back(path).redo(current).1 is None,
        nav.push_back(path).redo(current).0 == nav.push_back(path),
        nav.undo(current).0.push_back(path).redo(current).1 is None,
{
}

} // verus!
