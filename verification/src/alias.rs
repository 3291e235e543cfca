//! The alias registry: user-chosen names for directories, looked up exactly.

use vstd::prelude::*;
use crate::text::str_eq;

verus! {

/// The position of the first entry of `names` that equals `name`, or
/// `names.len()` if there is none.
pub open spec fn position(names: Seq<Seq<char>>, name: Seq<char>) -> int
    decreases names.len(),
{
    if names.len() == 0 {
        0
    } else if names[0] == name {
        0
    } else {
        1 + position(names.drop_first(), name)
    }
}

/// No name occurs twice.
pub open spec fn unique(names: Seq<Seq<char>>) -> bool {
    forall|i: int, j: int| 0 <= i < j < names.len() ==> #[trigger] names[i] != #[trigger] names[j]
}

/// The mapping that parallel sequences of names and paths stand for.
pub open spec fn mapping(names: Seq<Seq<char>>, paths: Seq<Seq<char>>) -> Map<Seq<char>, Seq<char>> {
    Map::new(
        |k: Seq<char>| position(names, k) < names.len(),
        |k: Seq<char>| paths[position(names, k)],
    )
}

/// Characterises [`position`].
pub proof fn lemma_position(names: Seq<Seq<char>>, name: Seq<char>, k: int)
    requires
        0 <= k <= names.len(),
        forall|j: int| 0 <= j < k ==> names[j] != name,
        k == names.len() || names[k] == name,
    ensures
        position(names, name) == k,
    decreases k,
{
    if k > 0 {
        lemma_position(names.drop_first(), name, k - 1);
    }
}

/// What [`position`] yields lies in range, matches, and nothing before it
/// matches.
pub proof fn lemma_position_is_first(names: Seq<Seq<char>>, name: Seq<char>)
    ensures
        0 <= position(names, name) <= names.len(),
        position(names, name) < names.len() ==> names[position(names, name)] == name,
        forall|j: int| 0 <= j < position(names, name) ==> names[j] != name,
    decreases names.len(),
{
    if names.len() > 0 && names[0] != name {
        let rest = names.drop_first();
        lemma_position_is_first(rest, name);
        assert forall|j: int| 0 <= j < position(names, name) implies names[j] != name by {
            if j > 0 {
                assert(names[j] == rest[j - 1]);
            }
        }
    }
}

/// Overwriting the path of entry `i` overwrites the mapping at its name.
proof fn lemma_mapping_update(names: Seq<Seq<char>>, paths: Seq<Seq<char>>, i: int, path: Seq<char>)
    requires
        names.len() == paths.len(),
        0 <= i < names.len(),
        position(names, names[i]) == i,
    ensures
        mapping(names, paths.update(i, path)) == mapping(names, paths).insert(names[i], path),
{
    let after = mapping(names, paths.update(i, path));
    let expect = mapping(names, paths).insert(names[i], path);
    assert forall|k: Seq<char>| after.contains_key(k) == expect.contains_key(k) by {
        lemma_position_is_first(names, k);
    }
    assert forall|k: Seq<char>| after.contains_key(k) implies after[k] == expect[k] by {
        lemma_position_is_first(names, k);
    }
    assert(after =~= expect);
}

/// Where a key stands after a name was appended.
proof fn lemma_position_push(names: Seq<Seq<char>>, name: Seq<char>, k: Seq<char>)
    ensures
        position(names.push(name), k) == (if position(names, k) < names.len() {
            position(names, k)
        } else if k == name {
            names.len() as int
        } else {
            names.len() as int + 1
        }),
{
    let more = names.push(name);
    lemma_position_is_first(names, k);
    let p = position(names, k);
    assert forall|j: int| 0 <= j < p implies more[j] != k by {
        assert(more[j] == names[j]);
    }
    if p < names.len() {
        assert(more[p] == names[p]);
        lemma_position(more, k, p);
    } else if k == name {
        lemma_position(more, k, p);
    } else {
        lemma_position(more, k, p + 1);
    }
}

/// Appending a new name extends the mapping by it.
proof fn lemma_mapping_push(
    names: Seq<Seq<char>>,
    paths: Seq<Seq<char>>,
    name: Seq<char>,
    path: Seq<char>,
)
    requires
        names.len() == paths.len(),
        position(names, name) == names.len(),
    ensures
        mapping(names.push(name), paths.push(path)) == mapping(names, paths).insert(name, path),
{
    let after = mapping(names.push(name), paths.push(path));
    let expect = mapping(names, paths).insert(name, path);
    assert forall|k: Seq<char>| after.contains_key(k) == expect.contains_key(k) by {
        lemma_position_push(names, name, k);
    }
    assert forall|k: Seq<char>| after.contains_key(k) implies after[k] == expect[k] by {
        lemma_position_push(names, name, k);
        lemma_position_is_first(names, k);
        let p = position(names, k);
        if p < names.len() {
            assert(paths.push(path)[p] == paths[p]);
        } else {
            assert(k == name);
            assert(paths.push(path)[names.len() as int] == path);
        }
    }
    assert(after =~= expect);
}

/// Where a key stands after entry `i` was taken out.
proof fn lemma_position_remove(names: Seq<Seq<char>>, i: int, k: Seq<char>)
    requires
        0 <= i < names.len(),
        unique(names),
    ensures
        position(names.remove(i), k) == (if k == names[i] {
            names.len() as int - 1
        } else if position(names, k) < i {
            position(names, k)
        } else {
            position(names, k) - 1
        }),
        k == names[i] ==> position(names, k) == i,
{
    let fewer = names.remove(i);
    lemma_position_is_first(names, k);
    let p = position(names, k);
    if k == names[i] {
        assert(p == i) by {
            if p < i {
                assert(names[p] != names[i]);
            }
        }
        assert forall|j: int| 0 <= j < fewer.len() implies fewer[j] != k by {
            let j0 = if j < i {
                j
            } else {
                j + 1
            };
            assert(fewer[j] == names[j0]);
            if j0 < i {
                assert(names[j0] != names[i]);
            } else {
                assert(names[i] != names[j0]);
            }
        }
        lemma_position(fewer, k, fewer.len() as int);
    } else {
        let q = if p < i {
            p
        } else {
            p - 1
        };
        assert forall|j: int| 0 <= j < q implies fewer[j] != k by {
            let j0 = if j < i {
                j
            } else {
                j + 1
            };
            assert(fewer[j] == names[j0]);
        }
        if p < names.len() {
            assert(fewer[q] == names[p]);
        }
        lemma_position(fewer, k, q);
    }
}

/// Taking entry `i` out takes its name out of the mapping.
proof fn lemma_mapping_remove(names: Seq<Seq<char>>, paths: Seq<Seq<char>>, i: int)
    requires
        names.len() == paths.len(),
        0 <= i < names.len(),
        unique(names),
    ensures
        mapping(names.remove(i), paths.remove(i)) == mapping(names, paths).remove(names[i]),
        unique(names.remove(i)),
{
    let fewer = names.remove(i);
    let after = mapping(fewer, paths.remove(i));
    let expect = mapping(names, paths).remove(names[i]);
    assert forall|a: int, b: int| 0 <= a < b < fewer.len() implies #[trigger] fewer[a]
        != #[trigger] fewer[b] by {
        let a0 = if a < i {
            a
        } else {
            a + 1
        };
        let b0 = if b < i {
            b
        } else {
            b + 1
        };
        assert(fewer[a] == names[a0] && fewer[b] == names[b0]);
    }
    assert forall|k: Seq<char>| after.contains_key(k) == expect.contains_key(k) by {
        lemma_position_remove(names, i, k);
        lemma_position_is_first(names, k);
    }
    assert forall|k: Seq<char>| after.contains_key(k) implies after[k] == expect[k] by {
        lemma_position_remove(names, i, k);
        lemma_position_is_first(names, k);
    }
    assert(after =~= expect);
}

/// The mapping that a list of `(name, path)` pairs builds up when each pair
/// is set in turn, later pairs overwriting earlier ones.
pub open spec fn collected(pairs: Seq<(Seq<char>, Seq<char>)>) -> Map<Seq<char>, Seq<char>>
    decreases pairs.len(),
{
    if pairs.len() == 0 {
        Map::empty()
    } else {
        collected(pairs.drop_last()).insert(pairs.last().0, pairs.last().1)
    }
}

/// A table of aliases: each name stands for one path.
#[derive(Debug)]
pub struct AliasTable {
    names: Vec<String>,
    paths: Vec<String>,
}

impl View for AliasTable {
    type V = Map<Seq<char>, Seq<char>>;

    closed spec fn view(&self) -> Map<Seq<char>, Seq<char>> {
        mapping(self.names.deep_view(), self.paths.deep_view())
    }
}

impl Default for AliasTable {
    fn default() -> (r: Self)
        ensures
            r@ == Map::<Seq<char>, Seq<char>>::empty(),
            r.wf(),
    {
        AliasTable::new()
    }
}

impl AliasTable {
    /// The table invariant: as many paths as names, and no name twice.
    pub closed spec fn wf(&self) -> bool {
        &&& self.names.len() == self.paths.len()
        &&& unique(self.names.deep_view())
    }

    /// The names in the order the table holds them.
    pub closed spec fn names(&self) -> Seq<Seq<char>> {
        self.names.deep_view()
    }

    /// The names are the keys of the mapping, each of them once.
    pub proof fn lemma_names(&self)
        requires
            self.wf(),
        ensures
            unique(self.names()),
            forall|i: int| 0 <= i < self.names().len() ==> self@.contains_key(#[trigger] self.names()[i]),
            forall|k: Seq<char>| self@.contains_key(k) ==> self.names().contains(k),
            self@.dom().finite(),
            self@.len() == self.names().len(),
    {
        let names = self.names.deep_view();
        assert(self@.dom() =~= names.to_set()) by {
            assert forall|k: Seq<char>| self@.dom().contains(k) == names.to_set().contains(k) by {
                lemma_position_is_first(names, k);
                if names.contains(k) {
                    let i = choose|i: int| 0 <= i < names.len() && names[i] == k;
                    assert(position(names, k) <= i);
                }
            }
        }
        assert(names.no_duplicates());
        names.unique_seq_to_set();
        assert forall|i: int| 0 <= i < names.len() implies self@.contains_key(
            #[trigger] names[i],
        ) by {
            lemma_position_is_first(names, names[i]);
        }
        assert forall|k: Seq<char>| self@.contains_key(k) implies names.contains(k) by {
            lemma_position_is_first(names, k);
            assert(names[position(names, k)] == k);
        }
    }

    /// An empty table.
    pub fn new() -> (r: Self)
        ensures
            r@ == Map::<Seq<char>, Seq<char>>::empty(),
            r.wf(),
    {
        let r = AliasTable { names: Vec::new(), paths: Vec::new() };
        assert(r@ =~= Map::<Seq<char>, Seq<char>>::empty());
        r
    }

    /// The table that setting each of `pairs` in turn builds up.
    pub fn from_pairs(pairs: &Vec<(String, String)>) -> (r: Self)
        ensures
            r@ == collected(pairs.deep_view()),
            r.wf(),
    {
        let mut table = AliasTable::new();
        let mut i: usize = 0;
        assert(pairs.deep_view().take(0) =~= Seq::<(Seq<char>, Seq<char>)>::empty());
        while i < pairs.len()
            invariant
                i <= pairs.len(),
                table.wf(),
                table@ == collected(pairs.deep_view().take(i as int)),
            decreases pairs.len() - i,
        {
            let _ = table.set(pairs[i].0.as_str(), pairs[i].1.as_str());
            proof {
                let upto = pairs.deep_view().take(i + 1);
                assert(upto.drop_last() =~= pairs.deep_view().take(i as int));
                assert(upto.last() == (pairs[i as int].0@, pairs[i as int].1@));
            }
            i += 1;
        }
        assert(pairs.deep_view().take(pairs.len() as int) =~= pairs.deep_view());
        table
    }

    /// The number of aliases.
    pub fn len(&self) -> (n: usize)
        requires
            self.wf(),
        ensures
            n == self@.len(),
            n == self.names().len(),
    {
        proof {
            self.lemma_names();
        }
        self.names.len()
    }

    /// Whether the table holds no alias.
    pub fn is_empty(&self) -> (b: bool)
        requires
            self.wf(),
        ensures
            b == (self.names().len() == 0),
            b == (self@ == Map::<Seq<char>, Seq<char>>::empty()),
    {
        proof {
            self.lemma_names();
            if self.names.len() == 0 {
                assert(self@ =~= Map::<Seq<char>, Seq<char>>::empty());
            } else {
                assert(self@.contains_key(self.names()[0]));
            }
        }
        self.names.len() == 0
    }

    /// The position of `name` among the names.
    fn find(&self, name: &str) -> (r: Option<usize>)
        ensures
            r is Some == (position(self.names.deep_view(), name@) < self.names.len()),
            r matches Some(i) ==> i == position(self.names.deep_view(), name@),
            r is None ==> position(self.names.deep_view(), name@) == self.names.len(),
    {
        let mut i: usize = 0;
        while i < self.names.len()
            invariant
                i <= self.names.len(),
                forall|j: int| 0 <= j < i ==> self.names.deep_view()[j] != name@,
            decreases self.names.len() - i,
        {
            if str_eq(self.names[i].as_str(), name) {
                proof {
                    lemma_position(self.names.deep_view(), name@, i as int);
                }
                return Some(i);
            }
            i += 1;
        }
        proof {
            lemma_position(self.names.deep_view(), name@, i as int);
        }
        None
    }

    /// Lets `name` stand for `path`, whether or not it stood for a path
    /// before, and says whether it did.
    pub fn set(&mut self, name: &str, path: &str) -> (updated: bool)
        requires
            old(self).wf(),
        ensures
            updated == old(self)@.contains_key(name@),
            final(self)@ == old(self)@.insert(name@, path@),
            final(self).wf(),
    {
        let ghost names = self.names.deep_view();
        let ghost paths = self.paths.deep_view();
        match self.find(name) {
            Some(i) => {
                proof {
                    lemma_position_is_first(names, name@);
                    lemma_mapping_update(names, paths, i as int, path@);
                }
                self.paths.set(i, String::from_str(path));
                assert(self.paths.deep_view() =~= paths.update(i as int, path@));
                assert(self.names.deep_view() == names);
                true
            },
            None => {
                proof {
                    lemma_position_is_first(names, name@);
                    lemma_mapping_push(names, paths, name@, path@);
                }
                self.names.push(String::from_str(name));
                self.paths.push(String::from_str(path));
                assert(self.names.deep_view() =~= names.push(name@));
                assert(self.paths.deep_view() =~= paths.push(path@));
                assert forall|a: int, b: int| 0 <= a < b < names.len() + 1 implies #[trigger] names.push(
                    name@,
                )[a] != #[trigger] names.push(name@)[b] by {
                    assert(names.push(name@)[a] == names[a]);
                    if b < names.len() {
                        assert(names.push(name@)[b] == names[b]);
                    }
                }
                false
            },
        }
    }

    /// Takes `name` out of the table and says whether it was there.
    pub fn remove(&mut self, name: &str) -> (found: bool)
        requires
            old(self).wf(),
        ensures
            found == old(self)@.contains_key(name@),
            final(self)@ == old(self)@.remove(name@),
            final(self).wf(),
    {
        let ghost names = self.names.deep_view();
        let ghost paths = self.paths.deep_view();
        match self.find(name) {
            Some(i) => {
                proof {
                    lemma_position_is_first(names, name@);
                    lemma_mapping_remove(names, paths, i as int);
                }
                let _ = self.names.remove(i);
                let _ = self.paths.remove(i);
                assert(self.names.deep_view() =~= names.remove(i as int));
                assert(self.paths.deep_view() =~= paths.remove(i as int));
                true
            },
            None => {
                assert(self@ =~= old(self)@.remove(name@));
                false
            },
        }
    }

    /// The path `name` stands for, if it stands for one.
    pub fn resolve(&self, name: &str) -> (r: Option<String>)
        requires
            self.wf(),
        ensures
            r is Some == self@.contains_key(name@),
            r matches Some(path) ==> path@ == self@[name@],
    {
        match self.find(name) {
            Some(i) => Some(self.paths[i].clone()),
            None => None,
        }
    }

    /// All aliases as `(name, path)` pairs, each name once.
    pub fn list(&self) -> (out: Vec<(String, String)>)
        requires
            self.wf(),
        ensures
            out.len() == self.names().len(),
            forall|i: int| 0 <= i < out.len() ==> (#[trigger] out[i]).0@ == self.names()[i],
            forall|i: int|
                0 <= i < out.len() ==> self@.contains_key((#[trigger] out[i]).0@) && self@[out[i].0@]
                    == out[i].1@,
    {
        let mut out: Vec<(String, String)> = Vec::new();
        let mut i: usize = 0;
        while i < self.names.len()
            invariant
                self.wf(),
                i <= self.names.len(),
                out.len() == i,
                forall|k: int| 0 <= k < i ==> (#[trigger] out[k]).0@ == self.names()[k],
                forall|k: int|
                    0 <= k < i ==> self@.contains_key((#[trigger] out[k]).0@) && self@[out[k].0@]
                        == out[k].1@,
            decreases self.names.len() - i,
        {
            proof {
                let names = self.names.deep_view();
                assert forall|j: int| 0 <= j < i implies names[j] != names[i as int] by {}
                lemma_position(names, names[i as int], i as int);
            }
            out.push((self.names[i].clone(), self.paths[i].clone()));
            i += 1;
        }
        out
    }
}

/// An alias that was set resolves to the path it was set to, whatever the
/// table held before.
pub proof fn lemma_set_then_resolve(
    table: Map<Seq<char>, Seq<char>>,
    name: Seq<char>,
    path: Seq<char>,
)
    ensures
        table.insert(name, path).contains_key(name),
        table.insert(name, path)[name] == path,
{
}

/// An alias that was removed does not resolve, and no other alias is
/// affected by the removal.
pub proof fn lemma_remove_then_resolve(table: Map<Seq<char>, Seq<char>>, name: Seq<char>)
    ensures
        !table.remove(name).contains_key(name),
        forall|other: Seq<char>|
            other != name ==> table.remove(name).contains_key(other) == table.contains_key(other),
        forall|other: Seq<char>|
            other != name && table.contains_key(other) ==> table.remove(name)[other] == table[other],
{
}

} // verus!
