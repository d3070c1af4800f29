//! Maps from names to values, kept in the order of their names.

use crate::text::chars_of;
use vstd::prelude::*;

verus! {

/// `a` comes before `b`: at the first place where they differ, `a` has ended or has the smaller
/// code point.
pub open spec fn precedes(a: Seq<char>, b: Seq<char>) -> bool {
    exists|i: int| #[trigger] differs_at(a, b, i)
}

/// `i` is the first place where `a` and `b` differ, and `a` is the smaller one there.
pub open spec fn differs_at(a: Seq<char>, b: Seq<char>, i: int) -> bool {
    &&& 0 <= i <= a.len()
    &&& i < b.len()
    &&& a.take(i) == b.take(i)
    &&& i == a.len() || a[i] < b[i]
}

/// Names in strictly increasing order.
pub open spec fn ascending(names: Seq<Seq<char>>) -> bool {
    forall|i: int, j: int| 0 <= i < j < names.len() ==> precedes(#[trigger] names[i], #[trigger] names[j])
}

/// Nothing comes before itself.
pub proof fn lemma_precedes_irreflexive(a: Seq<char>)
    ensures
        !precedes(a, a),
{
}

/// The order of names is transitive.
pub proof fn lemma_precedes_transitive(a: Seq<char>, b: Seq<char>, c: Seq<char>)
    requires
        precedes(a, b),
        precedes(b, c),
    ensures
        precedes(a, c),
{
    let i = choose|i: int| differs_at(a, b, i);
    let j = choose|j: int| differs_at(b, c, j);
    let k = if i < j { i } else { j };
    assert(a.take(k) =~= a.take(i).take(k));
    assert(b.take(k) =~= b.take(i).take(k));
    assert(b.take(k) =~= b.take(j).take(k));
    assert(c.take(k) =~= c.take(j).take(k));
    if i < j {
        assert(b.take(j)[i] == c.take(j)[i]);
    }
    if j < i {
        assert(a.take(i)[j] == b.take(i)[j]);
    }
    assert(differs_at(a, c, k));
}

/// The names of an ascending sequence are distinct.
pub proof fn lemma_ascending_distinct(names: Seq<Seq<char>>)
    requires
        ascending(names),
    ensures
        names.no_duplicates(),
{
    assert forall|i: int, j: int| 0 <= i < names.len() && 0 <= j < names.len() && i != j implies names[i]
        != names[j] by {
        lemma_precedes_irreflexive(names[i]);
        if i < j {
            assert(precedes(names[i], names[j]));
        } else {
            assert(precedes(names[j], names[i]));
        }
    }
}

/// Names in order are the same names in the same order: the order leaves no choice.
pub proof fn lemma_ascending_unique(a: Seq<Seq<char>>, b: Seq<Seq<char>>)
    requires
        ascending(a),
        ascending(b),
        forall|name: Seq<char>| #[trigger] a.contains(name) <==> b.contains(name),
    ensures
        a == b,
    decreases a.len(),
{
    if a.len() == 0 {
        if b.len() > 0 {
            assert(b.contains(b[0]));
            assert(a.contains(b[0]));
        }
        assert(a =~= b);
    } else {
        let x = a.last();
        assert(a.contains(x));
        let p = b.index_of(x);
        let y = b.last();
        assert(b.contains(y));
        assert(a.contains(y));
        let q = a.index_of(y);
        if x != y {
            assert(precedes(b[p], b[b.len() - 1]));
            assert(precedes(a[q], a[a.len() - 1]));
            lemma_precedes_transitive(x, y, x);
            lemma_precedes_irreflexive(x);
        }
        let c = a.drop_last();
        let d = b.drop_last();
        lemma_ascending_distinct(a);
        lemma_ascending_distinct(b);
        assert forall|name: Seq<char>| #[trigger] c.contains(name) <==> d.contains(name) by {
            if c.contains(name) {
                let i = c.index_of(name);
                assert(a[i] == name && name != x);
                assert(a.contains(name));
                let j = b.index_of(name);
                assert(d[j] == name);
            }
            if d.contains(name) {
                let i = d.index_of(name);
                assert(b[i] == name && name != y);
                assert(b.contains(name));
                assert(a.contains(name));
                let j = a.index_of(name);
                assert(c[j] == name);
            }
        }
        lemma_ascending_unique(c, d);
        assert(a =~= c.push(x));
        assert(b =~= d.push(y));
    }
}

/// The names that `pick` picks, in their order.
pub open spec fn picked(names: Seq<Seq<char>>, pick: spec_fn(Seq<char>) -> bool) -> Seq<Seq<char>>
    decreases names.len(),
{
    if names.len() == 0 {
        Seq::empty()
    } else if pick(names.last()) {
        picked(names.drop_last(), pick).push(names.last())
    } else {
        picked(names.drop_last(), pick)
    }
}

/// What is picked is what is among the names and meets the choice.
pub proof fn lemma_picked_contains(
    names: Seq<Seq<char>>,
    pick: spec_fn(Seq<char>) -> bool,
    name: Seq<char>,
)
    ensures
        picked(names, pick).contains(name) <==> names.contains(name) && pick(name),
    decreases names.len(),
{
    if names.len() > 0 {
        let part = names.drop_last();
        lemma_picked_contains(part, pick, name);
        let chosen = picked(names, pick);
        let before = picked(part, pick);
        assert(names.contains(name) <==> part.contains(name) || names.last() == name) by {
            if part.contains(name) {
                assert(names[part.index_of(name)] == name);
            }
            if names.last() == name {
                assert(names[names.len() - 1] == name);
            }
            if names.contains(name) {
                let k = names.index_of(name);
                if k < part.len() {
                    assert(part[k] == name);
                }
            }
        }
        if pick(names.last()) {
            assert(chosen == before.push(names.last()));
            if before.contains(name) {
                assert(chosen[before.index_of(name)] == name);
            }
            if names.last() == name {
                assert(chosen[chosen.len() - 1] == name);
            }
            if chosen.contains(name) {
                let k = chosen.index_of(name);
                if k < before.len() {
                    assert(before[k] == name);
                }
            }
        }
    }
}

/// Picking from one more name.
pub proof fn lemma_picked_next(
    names: Seq<Seq<char>>,
    i: int,
    pick: spec_fn(Seq<char>) -> bool,
)
    requires
        0 <= i < names.len(),
    ensures
        picked(names.take(i + 1), pick) == if pick(names[i]) {
            picked(names.take(i), pick).push(names[i])
        } else {
            picked(names.take(i), pick)
        },
{
    assert(names.take(i + 1).drop_last() =~= names.take(i));
}

/// How one name stands to another.
#[derive(Clone, Copy, Debug, PartialEq, Eq)]
pub enum Place {
    Before,
    Same,
    After,
}

/// Compares two names by their code points.
pub fn place_of(a: &str, b: &str) -> (place: Place)
    ensures
        match place {
            Place::Before => precedes(a@, b@) && a@ != b@,
            Place::Same => a@ == b@,
            Place::After => precedes(b@, a@) && a@ != b@,
        },
{
    let xs = chars_of(a);
    let ys = chars_of(b);
    let mut i: usize = 0;
    while i < xs.len() && i < ys.len()
        invariant
            i <= xs@.len(),
            i <= ys@.len(),
            xs@ == a@,
            ys@ == b@,
            a@.take(i as int) == b@.take(i as int),
        decreases xs@.len() - i,
    {
        if xs[i] < ys[i] {
            assert(differs_at(a@, b@, i as int));
            return Place::Before;
        }
        if ys[i] < xs[i] {
            assert(differs_at(b@, a@, i as int));
            return Place::After;
        }
        assert(a@.take(i + 1) =~= a@.take(i as int).push(a@[i as int]));
        assert(b@.take(i + 1) =~= b@.take(i as int).push(b@[i as int]));
        i = i + 1;
    }
    if i < ys.len() {
        assert(differs_at(a@, b@, i as int));
        Place::Before
    } else if i < xs.len() {
        assert(differs_at(b@, a@, i as int));
        Place::After
    } else {
        assert(a@ =~= a@.take(i as int));
        assert(b@ =~= b@.take(i as int));
        Place::Same
    }
}

/// The names of a sequence of entries.
pub open spec fn entry_names<V>(entries: Seq<(String, V)>) -> Seq<Seq<char>> {
    Seq::new(entries.len(), |i: int| entries[i].0@)
}

/// A map from names to values whose entries stand in the order of their names.
#[derive(Debug, PartialEq, Eq)]
pub struct NameMap<V> {
    entries: Vec<(String, V)>,
}

impl<V> NameMap<V> {
    /// The names, in order.
    pub closed spec fn keys(&self) -> Seq<Seq<char>> {
        entry_names(self.entries@)
    }

    /// The values, in the order of their names.
    pub closed spec fn values(&self) -> Seq<V> {
        Seq::new(self.entries@.len(), |i: int| self.entries@[i].1)
    }

    /// The mapping from names to values.
    pub open spec fn view(&self) -> Map<Seq<char>, V> {
        Map::new(
            |k: Seq<char>| self.keys().contains(k),
            |k: Seq<char>| self.values()[self.keys().index_of(k)],
        )
    }

    /// The names ascend, each with its value.
    pub open spec fn wf(&self) -> bool {
        &&& ascending(self.keys())
        &&& self.keys().len() == self.values().len()
    }

    #[verifier::type_invariant]
    spec fn ordered(&self) -> bool {
        ascending(entry_names(self.entries@))
    }

    /// The value that stands beside the name at place `i`.
    pub proof fn lemma_entry(&self, i: int)
        requires
            self.wf(),
            0 <= i < self.keys().len(),
        ensures
            self@.contains_key(self.keys()[i]),
            self@[self.keys()[i]] == self.values()[i],
    {
        lemma_ascending_distinct(self.keys());
        assert(self.keys().contains(self.keys()[i]));
    }

    /// The names of the map are the names at its places.
    pub proof fn lemma_names(&self)
        requires
            self.wf(),
        ensures
            self@.dom() == self.keys().to_set(),
            self@.dom().finite(),
            self@.dom().len() == self.keys().len(),
            self.keys().no_duplicates(),
    {
        lemma_ascending_distinct(self.keys());
        assert(self@.dom() =~= self.keys().to_set());
        self.keys().unique_seq_to_set();
        vstd::seq_lib::seq_to_set_is_finite(self.keys());
    }

    /// The map with no entries.
    pub fn new() -> (map: Self)
        ensures
            map.keys() == Seq::<Seq<char>>::empty(),
            map@ == Map::<Seq<char>, V>::empty(),
            map.wf(),
    {
        let map = NameMap { entries: Vec::new() };
        assert(map.keys() =~= Seq::<Seq<char>>::empty());
        assert(map@ =~= Map::<Seq<char>, V>::empty());
        map
    }

    /// How many entries there are.
    pub fn len(&self) -> (n: usize)
        ensures
            n == self.keys().len(),
            self.wf(),
    {
        proof {
            use_type_invariant(self);
        }
        self.entries.len()
    }

    /// Whether there is no entry.
    pub fn is_empty(&self) -> (empty: bool)
        ensures
            empty == (self@ == Map::<Seq<char>, V>::empty()),
            empty == (self.keys().len() == 0),
            self.wf(),
    {
        proof {
            use_type_invariant(self);
            if self.keys().len() == 0 {
                assert(self@ =~= Map::<Seq<char>, V>::empty());
            } else {
                self.lemma_entry(0);
            }
        }
        self.entries.len() == 0
    }

    /// The name at place `i`.
    pub fn key_at(&self, i: usize) -> (key: &String)
        requires
            i < self.keys().len(),
        ensures
            key@ == self.keys()[i as int],
            self.wf(),
            self@.contains_key(key@),
            self@[key@] == self.values()[i as int],
    {
        proof {
            use_type_invariant(self);
            self.lemma_entry(i as int);
        }
        &self.entries[i].0
    }

    /// The value at place `i`.
    pub fn value_at(&self, i: usize) -> (value: &V)
        requires
            i < self.keys().len(),
        ensures
            *value == self.values()[i as int],
            self.wf(),
    {
        proof {
            use_type_invariant(self);
        }
        &self.entries[i].1
    }

    /// The place of the first name that does not come before `key`, and whether it is `key`.
    fn search(&self, key: &str) -> (found: (usize, bool))
        ensures
            found.0 <= self.keys().len(),
            forall|k: int| 0 <= k < found.0 ==> precedes(#[trigger] self.keys()[k], key@),
            found.1 ==> found.0 < self.keys().len() && self.keys()[found.0 as int] == key@,
            !found.1 ==> forall|k: int|
                found.0 <= k < self.keys().len() ==> precedes(key@, #[trigger] self.keys()[k]),
            found.1 == self@.contains_key(key@),
            self.wf(),
    {
        proof {
            use_type_invariant(self);
        }
        let mut i: usize = 0;
        while i < self.entries.len()
            invariant
                i <= self.entries@.len(),
                self.wf(),
                forall|k: int| 0 <= k < i ==> precedes(#[trigger] self.keys()[k], key@),
            decreases self.entries@.len() - i,
        {
            assert(self.keys()[i as int] == self.entries@[i as int].0@);
            match place_of(self.entries[i].0.as_str(), key) {
                Place::Before => {},
                Place::Same => {
                    return (i, true);
                },
                Place::After => {
                    proof {
                        assert forall|k: int| i <= k < self.keys().len() implies precedes(
                            key@,
                            #[trigger] self.keys()[k],
                        ) by {
                            if k > i {
                                lemma_precedes_transitive(key@, self.keys()[i as int], self.keys()[k]);
                            }
                        }
                        self.lemma_absent(key@, i as int);
                    }
                    return (i, false);
                },
            }
            i = i + 1;
        }
        proof {
            self.lemma_absent(key@, i as int);
        }
        (i, false)
    }

    proof fn lemma_absent(&self, key: Seq<char>, at: int)
        requires
            0 <= at <= self.keys().len(),
            forall|k: int| 0 <= k < at ==> precedes(#[trigger] self.keys()[k], key),
            forall|k: int| at <= k < self.keys().len() ==> precedes(key, #[trigger] self.keys()[k]),
        ensures
            !self@.contains_key(key),
    {
        assert forall|k: int| 0 <= k < self.keys().len() implies self.keys()[k] != key by {
            lemma_precedes_irreflexive(key);
        }
    }

    /// Whether there is an entry for `key`.
    pub fn contains_key(&self, key: &str) -> (found: bool)
        ensures
            found == self@.contains_key(key@),
            self.wf(),
    {
        self.search(key).1
    }

    /// The value of `key`.
    pub fn get(&self, key: &str) -> (value: Option<&V>)
        ensures
            match value {
                Some(v) => self@.contains_key(key@) && *v == self@[key@],
                None => !self@.contains_key(key@),
            },
            self.wf(),
    {
        let (i, found) = self.search(key);
        if found {
            proof {
                self.lemma_entry(i as int);
            }
            Some(&self.entries[i].1)
        } else {
            None
        }
    }

    /// Gives `key` the value `value`, and returns the value that it had.
    pub fn insert(&mut self, key: String, value: V) -> (previous: Option<V>)
        ensures
            final(self)@ == old(self)@.insert(key@, value),
            match previous {
                Some(v) => old(self)@.contains_key(key@) && v == old(self)@[key@],
                None => !old(self)@.contains_key(key@),
            },
            final(self).wf(),
            old(self).wf(),
    {
        let (i, found) = self.search(key.as_str());
        let ghost before = *self;
        let ghost name = key@;
        let mut entries: Vec<(String, V)> = Vec::new();
        std::mem::swap(&mut self.entries, &mut entries);
        let previous = if found {
            let (_, previous) = entries.remove(i);
            proof {
                before.lemma_entry(i as int);
            }
            Some(previous)
        } else {
            None
        };
        entries.insert(i, (key, value));
        proof {
            let names = entry_names(entries@);
            let at = |k: int| if k < i || found { k } else { k - 1 };
            assert forall|a: int, b: int| 0 <= a < b < names.len() implies precedes(
                #[trigger] names[a],
                #[trigger] names[b],
            ) by {
                if a != i {
                    assert(names[a] == before.keys()[at(a)]);
                }
                if b != i {
                    assert(names[b] == before.keys()[at(b)]);
                }
            }
        }
        std::mem::swap(&mut self.entries, &mut entries);
        proof {
            lemma_ascending_distinct(self.keys());
            lemma_ascending_distinct(before.keys());
            let result = before@.insert(name, value);
            assert(self.keys()[i as int] == name);
            assert(self.values()[i as int] == value);
            assert forall|k: Seq<char>| self@.contains_key(k) == result.contains_key(k) by {
                if before.keys().contains(k) {
                    let p = before.keys().index_of(k);
                    let q = if p < i || found { p } else { p + 1 };
                    assert(self.keys()[q] == k);
                }
                if self.keys().contains(k) && k != name {
                    let q = self.keys().index_of(k);
                    let p = if q < i || found { q } else { q - 1 };
                    assert(before.keys()[p] == k);
                }
            }
            assert forall|k: Seq<char>| self@.contains_key(k) implies self@[k] == result[k] by {
                let q = self.keys().index_of(k);
                if k != name {
                    let p = if q < i || found { q } else { q - 1 };
                    assert(before.keys()[p] == k);
                    before.lemma_entry(p);
                }
            }
            assert(self@ =~= result);
        }
        previous
    }

    /// Takes the entry of `key` out, and returns the value that it had.
    pub fn remove(&mut self, key: &str) -> (previous: Option<V>)
        ensures
            final(self)@ == old(self)@.remove(key@),
            match previous {
                Some(v) => old(self)@.contains_key(key@) && v == old(self)@[key@],
                None => !old(self)@.contains_key(key@),
            },
            final(self).wf(),
            old(self).wf(),
    {
        let (i, found) = self.search(key);
        let ghost before = *self;
        if !found {
            assert(self@ =~= before@.remove(key@));
            return None;
        }
        let mut entries: Vec<(String, V)> = Vec::new();
        std::mem::swap(&mut self.entries, &mut entries);
        let (_, previous) = entries.remove(i);
        proof {
            before.lemma_entry(i as int);
            let names = entry_names(entries@);
            let at = |k: int| if k < i { k } else { k + 1 };
            assert forall|a: int, b: int| 0 <= a < b < names.len() implies precedes(
                #[trigger] names[a],
                #[trigger] names[b],
            ) by {
                assert(names[a] == before.keys()[at(a)]);
                assert(names[b] == before.keys()[at(b)]);
            }
        }
        std::mem::swap(&mut self.entries, &mut entries);
        proof {
            lemma_ascending_distinct(self.keys());
            lemma_ascending_distinct(before.keys());
            let result = before@.remove(key@);
            assert forall|k: Seq<char>| self@.contains_key(k) == result.contains_key(k) by {
                if before.keys().contains(k) && k != key@ {
                    let p = before.keys().index_of(k);
                    let q = if p < i { p } else { p - 1 };
                    assert(self.keys()[q] == k);
                }
                if self.keys().contains(k) {
                    let q = self.keys().index_of(k);
                    let p = if q < i { q } else { q + 1 };
                    assert(before.keys()[p] == k);
                }
            }
            assert forall|k: Seq<char>| self@.contains_key(k) implies self@[k] == result[k] by {
                let q = self.keys().index_of(k);
                let p = if q < i { q } else { q + 1 };
                assert(before.keys()[p] == k);
                before.lemma_entry(p);
            }
            assert(self@ =~= result);
        }
        Some(previous)
    }
}

impl<V: Clone> Clone for NameMap<V> {
    fn clone(&self) -> (copy: Self)
        ensures
            copy.keys() == self.keys(),
            copy.values().len() == self.values().len(),
            forall|i: int|
                0 <= i < self.values().len() ==> cloned(
                    #[trigger] self.values()[i],
                    copy.values()[i],
                ),
    {
        proof {
            use_type_invariant(self);
        }
        let mut entries: Vec<(String, V)> = Vec::new();
        let mut i: usize = 0;
        while i < self.entries.len()
            invariant
                i <= self.entries@.len(),
                entries@.len() == i,
                forall|k: int|
                    0 <= k < i ==> (#[trigger] entries@[k]).0@ == self.entries@[k].0@ && cloned(
                        self.entries@[k].1,
                        entries@[k].1,
                    ),
            decreases self.entries@.len() - i,
        {
            entries.push((self.entries[i].0.clone(), self.entries[i].1.clone()));
            i = i + 1;
        }
        assert(entry_names(entries@) =~= entry_names(self.entries@));
        NameMap { entries }
    }
}

/// A set of names, in order.
#[derive(Debug, Clone, PartialEq, Eq)]
pub struct NameSet {
    names: NameMap<()>,
}

impl NameSet {
    /// The names of the set.
    pub closed spec fn view(&self) -> Set<Seq<char>> {
        self.names@.dom()
    }

    /// The names of the set, in order.
    pub closed spec fn keys(&self) -> Seq<Seq<char>> {
        self.names.keys()
    }

    /// The names ascend, and are those of the set.
    pub open spec fn wf(&self) -> bool {
        &&& ascending(self.keys())
        &&& forall|name: Seq<char>| #[trigger] self@.contains(name) <==> self.keys().contains(name)
    }

    /// The set with no names.
    pub fn new() -> (set: Self)
        ensures
            set@ == Set::<Seq<char>>::empty(),
    {
        let set = NameSet { names: NameMap::new() };
        assert(set@ =~= Set::<Seq<char>>::empty());
        set
    }

    /// How many names there are.
    pub fn len(&self) -> (n: usize)
        ensures
            n == self.keys().len(),
            self.wf(),
    {
        self.names.len()
    }

    /// The name at place `i`.
    pub fn name_at(&self, i: usize) -> (name: &String)
        requires
            i < self.keys().len(),
        ensures
            name@ == self.keys()[i as int],
            self@.contains(name@),
    {
        self.names.key_at(i)
    }

    /// Whether the set holds `name`.
    pub fn contains(&self, name: &str) -> (found: bool)
        ensures
            found == self@.contains(name@),
    {
        self.names.contains_key(name)
    }

    /// Puts `name` into the set, and returns whether it was not there.
    pub fn insert(&mut self, name: String) -> (added: bool)
        ensures
            final(self)@ == old(self)@.insert(name@),
            added == !old(self)@.contains(name@),
    {
        let ghost before = *self;
        let added = self.names.insert(name, ()).is_none();
        assert(self@ =~= before@.insert(name@));
        added
    }

    /// Takes `name` out of the set, and returns whether it was there.
    pub fn remove(&mut self, name: &str) -> (removed: bool)
        ensures
            final(self)@ == old(self)@.remove(name@),
            removed == old(self)@.contains(name@),
    {
        let ghost before = *self;
        let removed = self.names.remove(name).is_some();
        assert(self@ =~= before@.remove(name@));
        removed
    }
}

/// Names are in the order of their characters: a name comes before every longer one that begins with
/// it, and at the first place where two names differ the smaller character decides.
pub proof fn law_names_are_ordered_by_their_characters(
    head: Seq<char>,
    a: char,
    b: char,
    rest: Seq<char>,
    other: Seq<char>,
)
    ensures
        precedes(head, head.push(a) + rest),
        !precedes(head.push(a) + rest, head),
        a < b ==> precedes(head.push(a) + rest, head.push(b) + other) && !precedes(
            head.push(b) + other,
            head.push(a) + rest,
        ),
{
    let n = head.len() as int;
    let left = head.push(a) + rest;
    let right = head.push(b) + other;
    assert(head.take(n) =~= left.take(n));
    assert(differs_at(head, left, n));
    if precedes(left, head) {
        lemma_precedes_transitive(head, left, head);
        lemma_precedes_irreflexive(head);
    }
    if a < b {
        assert(left.take(n) =~= right.take(n));
        assert(left[n] == a && right[n] == b);
        assert(differs_at(left, right, n));
        if precedes(right, left) {
            lemma_precedes_transitive(left, right, left);
            lemma_precedes_irreflexive(left);
        }
    }
}

} // verus!
