//! Maps keyed by name, such as an output's.

use crate::text::same_text;
use vstd::prelude::*;

verus! {

/// A value and its name.
pub struct Named<V> {
    pub name: String,
    pub value: V,
}

/// A map from names to values.
pub struct NamedMap<V> {
    pub entries: Vec<Named<V>>,
}

pub open spec fn names_distinct<V>(entries: Seq<Named<V>>) -> bool {
    forall|i: int, j: int|
        0 <= i < j < entries.len() ==> (#[trigger] entries[i]).name@ != (
        #[trigger] entries[j]).name@
}

pub open spec fn is_at<V>(entries: Seq<Named<V>>, name: Seq<char>, i: int) -> bool {
    0 <= i < entries.len() && entries[i].name@ == name
}

/// The map that a list of entries stands for.
pub open spec fn as_map<V>(entries: Seq<Named<V>>) -> Map<Seq<char>, V> {
    Map::new(
        |name: Seq<char>| exists|i: int| #[trigger] is_at(entries, name, i),
        |name: Seq<char>| entries[choose|i: int| #[trigger] is_at(entries, name, i)].value,
    )
}

pub(crate) proof fn lemma_entry<V>(entries: Seq<Named<V>>, i: int)
    requires
        names_distinct(entries),
        0 <= i < entries.len(),
    ensures
        as_map(entries).dom().contains(entries[i].name@),
        as_map(entries)[entries[i].name@] == entries[i].value,
{
    let name = entries[i].name@;
    assert(is_at(entries, name, i));
    let k = choose|k: int| #[trigger] is_at(entries, name, k);
    if k < i {
        assert(entries[k].name@ != entries[i].name@);
    } else if i < k {
        assert(entries[i].name@ != entries[k].name@);
    }
}

proof fn lemma_absent<V>(entries: Seq<Named<V>>, name: Seq<char>)
    requires
        forall|i: int| 0 <= i < entries.len() ==> (#[trigger] entries[i]).name@ != name,
    ensures
        !as_map(entries).dom().contains(name),
{
}

pub(crate) proof fn lemma_find<V>(entries: Seq<Named<V>>, name: Seq<char>) -> (i: int)
    requires
        as_map(entries).dom().contains(name),
    ensures
        is_at(entries, name, i),
{
    choose|i: int| #[trigger] is_at(entries, name, i)
}

/// Changing one value changes the map at its name alone.
pub(crate) proof fn lemma_update<V>(before: Seq<Named<V>>, after: Seq<Named<V>>, i: int)
    requires
        names_distinct(before),
        0 <= i < before.len(),
        after.len() == before.len(),
        after[i].name@ == before[i].name@,
        forall|k: int| 0 <= k < before.len() && k != i ==> #[trigger] after[k] == before[k],
    ensures
        names_distinct(after),
        as_map(after) == as_map(before).insert(before[i].name@, after[i].value),
{
    let name = before[i].name@;
    let new = as_map(before).insert(name, after[i].value);
    assert forall|a: int, b: int| 0 <= a < b < after.len() implies (#[trigger] after[a]).name@ != (
    #[trigger] after[b]).name@ by {
        assert(before[a].name@ != before[b].name@);
    }
    assert forall|n: Seq<char>| #[trigger]
        as_map(after).dom().contains(n) <==> new.dom().contains(n) by {
        if as_map(after).dom().contains(n) {
            let k = lemma_find(after, n);
            assert(is_at(before, n, k));
        }
        if as_map(before).dom().contains(n) {
            let k = lemma_find(before, n);
            assert(is_at(after, n, k));
        }
        if n == name {
            assert(is_at(after, n, i));
        }
    }
    assert forall|n: Seq<char>| #[trigger] as_map(after).dom().contains(n) implies as_map(after)[n]
        == new[n] by {
        let k = lemma_find(after, n);
        lemma_entry(after, k);
        lemma_entry(before, k);
    }
    assert(as_map(after) =~= new);
}

/// A new name adds to the map.
pub(crate) proof fn lemma_push<V>(before: Seq<Named<V>>, entry: Named<V>)
    requires
        names_distinct(before),
        !as_map(before).dom().contains(entry.name@),
    ensures
        names_distinct(before.push(entry)),
        as_map(before.push(entry)) == as_map(before).insert(entry.name@, entry.value),
{
    let after = before.push(entry);
    let new = as_map(before).insert(entry.name@, entry.value);
    assert forall|a: int, b: int| 0 <= a < b < after.len() implies (#[trigger] after[a]).name@ != (
    #[trigger] after[b]).name@ by {
        if b < before.len() {
            assert(before[a].name@ != before[b].name@);
        } else {
            assert(is_at(before, before[a].name@, a));
        }
    }
    assert forall|n: Seq<char>| #[trigger]
        as_map(after).dom().contains(n) <==> new.dom().contains(n) by {
        if as_map(after).dom().contains(n) {
            let k = lemma_find(after, n);
            if k < before.len() {
                assert(is_at(before, n, k));
            }
        }
        if as_map(before).dom().contains(n) {
            let k = lemma_find(before, n);
            assert(is_at(after, n, k));
        }
        if n == entry.name@ {
            assert(is_at(after, n, before.len() as int));
        }
    }
    assert forall|n: Seq<char>| #[trigger] as_map(after).dom().contains(n) implies as_map(after)[n]
        == new[n] by {
        let k = lemma_find(after, n);
        lemma_entry(after, k);
        if k < before.len() {
            lemma_entry(before, k);
            assert(is_at(before, n, k));
        }
    }
    assert(as_map(after) =~= new);
}

impl<V> View for NamedMap<V> {
    type V = Map<Seq<char>, V>;

    open spec fn view(&self) -> Map<Seq<char>, V> {
        as_map(self.entries@)
    }
}

impl<V> NamedMap<V> {
    pub open spec fn wf(self) -> bool {
        names_distinct(self.entries@)
    }

    pub fn new() -> (m: NamedMap<V>)
        ensures
            m.wf(),
            m@ == Map::<Seq<char>, V>::empty(),
            m.entries@.len() == 0,
    {
        let m = NamedMap { entries: Vec::new() };
        assert(m@ =~= Map::<Seq<char>, V>::empty());
        m
    }

    /// How many names there are.
    pub fn len(&self) -> (n: usize)
        ensures
            n == self.entries@.len(),
    {
        self.entries.len()
    }

    /// Where a name is held.
    pub fn position(&self, name: &str) -> (at: Option<usize>)
        requires
            self.wf(),
        ensures
            match at {
                Some(i) => {
                    &&& i < self.entries@.len()
                    &&& self.entries@[i as int].name@ == name@
                    &&& self@.dom().contains(name@)
                    &&& self@[name@] == self.entries@[i as int].value
                },
                None => !self@.dom().contains(name@),
            },
    {
        let mut i: usize = 0;
        while i < self.entries.len()
            invariant
                i <= self.entries.len(),
                self.wf(),
                forall|k: int| 0 <= k < i ==> (#[trigger] self.entries@[k]).name@ != name@,
            decreases self.entries.len() - i,
        {
            if same_text(self.entries[i].name.as_str(), name) {
                proof {
                    lemma_entry(self.entries@, i as int);
                }
                return Some(i);
            }
            i = i + 1;
        }
        proof {
            lemma_absent(self.entries@, name@);
        }
        None
    }

    pub fn contains(&self, name: &str) -> (held: bool)
        requires
            self.wf(),
        ensures
            held == self@.dom().contains(name@),
    {
        self.position(name).is_some()
    }

    /// The value of a name.
    pub fn get(&self, name: &str) -> (value: Option<&V>)
        requires
            self.wf(),
        ensures
            match value {
                Some(v) => self@.dom().contains(name@) && self@[name@] == *v,
                None => !self@.dom().contains(name@),
            },
    {
        match self.position(name) {
            Some(i) => Some(&self.entries[i].value),
            None => None,
        }
    }

    /// Adds a name that is not held.
    pub fn push_new(&mut self, name: String, value: V)
        requires
            old(self).wf(),
            !old(self)@.dom().contains(name@),
        ensures
            final(self).wf(),
            final(self).entries@ == old(self).entries@.push(Named { name, value }),
            final(self)@ == old(self)@.insert(name@, value),
    {
        proof {
            lemma_push(self.entries@, Named { name, value });
        }
        self.entries.push(Named { name, value });
    }

    /// Replaces or adds the value of a name.
    pub fn insert(&mut self, name: String, value: V)
        requires
            old(self).wf(),
        ensures
            final(self).wf(),
            final(self)@ == old(self)@.insert(name@, value),
    {
        match self.position(name.as_str()) {
            Some(i) => {
                let ghost before = self.entries@;
                self.entries.set(i, Named { name, value });
                proof {
                    lemma_update(before, self.entries@, i as int);
                }
            },
            None => {
                self.push_new(name, value);
            },
        }
    }

    /// Removes the entry at a place.
    pub fn remove_at(&mut self, i: usize)
        requires
            old(self).wf(),
            i < old(self).entries@.len(),
        ensures
            final(self).wf(),
            final(self).entries@ == old(self).entries@.remove(i as int),
            final(self)@ == old(self)@.remove(old(self).entries@[i as int].name@),
    {
        let ghost before = self.entries@;
        let ghost old_map = self@;
        let ghost name = before[i as int].name@;
        self.entries.remove(i);
        proof {
            let after = self.entries@;
            assert forall|a: int, b: int| 0 <= a < b < after.len() implies (
            #[trigger] after[a]).name@ != (#[trigger] after[b]).name@ by {
                let a2 = if a < i {
                    a
                } else {
                    a + 1
                };
                let b2 = if b < i {
                    b
                } else {
                    b + 1
                };
                assert(before[a2].name@ != before[b2].name@);
            }
            assert forall|n: Seq<char>| #[trigger]
                as_map(after).dom().contains(n) <==> old_map.remove(name).dom().contains(n) by {
                if as_map(after).dom().contains(n) {
                    let k = lemma_find(after, n);
                    let k2 = if k < i {
                        k
                    } else {
                        k + 1
                    };
                    assert(is_at(before, n, k2));
                    if n == name {
                        if k2 < i {
                            assert(before[k2].name@ != before[i as int].name@);
                        } else {
                            assert(before[i as int].name@ != before[k2].name@);
                        }
                    }
                }
                if old_map.dom().contains(n) && n != name {
                    let k = lemma_find(before, n);
                    let k2 = if k < i {
                        k
                    } else {
                        k - 1
                    };
                    assert(is_at(after, n, k2));
                }
            }
            assert forall|n: Seq<char>| #[trigger]
                as_map(after).dom().contains(n) implies as_map(after)[n] == old_map.remove(
                name,
            )[n] by {
                let k = lemma_find(after, n);
                lemma_entry(after, k);
                let k2 = if k < i {
                    k
                } else {
                    k + 1
                };
                lemma_entry(before, k2);
            }
            assert(self@ =~= old_map.remove(name));
        }
    }

    /// Forgets a name.
    pub fn remove(&mut self, name: &str)
        requires
            old(self).wf(),
        ensures
            final(self).wf(),
            final(self)@ == old(self)@.remove(name@),
    {
        match self.position(name) {
            Some(i) => {
                self.remove_at(i);
            },
            None => {
                assert(self@ =~= self@.remove(name@));
            },
        }
    }
}

/// The map holds a name exactly if an entry has it, and gives that entry's value.
pub proof fn law_map_holds_each_entry<V>(entries: Seq<Named<V>>, i: int, name: Seq<char>)
    requires
        names_distinct(entries),
    ensures
        0 <= i < entries.len() ==> as_map(entries).dom().contains(entries[i].name@) && as_map(
            entries,
        )[entries[i].name@] == entries[i].value,
        as_map(entries).dom().contains(name) <==> exists|k: int|
            0 <= k < entries.len() && (#[trigger] entries[k]).name@ == name,
{
    if 0 <= i < entries.len() {
        lemma_entry(entries, i);
    }
    if as_map(entries).dom().contains(name) {
        let k = lemma_find(entries, name);
        assert(entries[k].name@ == name);
    } else if exists|k: int| 0 <= k < entries.len() && (#[trigger] entries[k]).name@ == name {
        let k = choose|k: int| 0 <= k < entries.len() && (#[trigger] entries[k]).name@ == name;
        lemma_entry(entries, k);
    }
}

} // verus!
