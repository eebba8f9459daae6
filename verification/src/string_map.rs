//! A map with text keys.

use crate::text::same_text;
use vstd::prelude::*;

verus! {

/// A map from text to values. The entries stand in the order in which their keys came in.
#[derive(Debug)]
pub struct StringMap<V> {
    entries: Vec<(String, V)>,
}

/// The map that a list of entries is.
pub open spec fn map_of<V>(entries: Seq<(String, V)>) -> Map<Seq<char>, V>
    decreases entries.len(),
{
    if entries.len() == 0 {
        Map::empty()
    } else {
        map_of(entries.drop_last()).insert(entries.last().0@, entries.last().1)
    }
}

/// Whether no key stands twice.
pub open spec fn distinct<V>(entries: Seq<(String, V)>) -> bool {
    forall|i: int, j: int|
        0 <= i < j < entries.len() ==> (#[trigger] entries[i]).0@ != (#[trigger] entries[j]).0@
}

/// What a list of entries says of the map that it is.
pub proof fn lemma_map_of<V>(entries: Seq<(String, V)>)
    requires
        distinct(entries),
    ensures
        map_of(entries).dom().finite(),
        map_of(entries).dom().len() == entries.len(),
        forall|i: int|
            0 <= i < entries.len() ==> map_of(entries).dom().contains((#[trigger] entries[i]).0@)
                && map_of(entries)[entries[i].0@] == entries[i].1,
        forall|k: Seq<char>| #[trigger]
            map_of(entries).dom().contains(k) ==> exists|i: int|
                0 <= i < entries.len() && (#[trigger] entries[i]).0@ == k,
    decreases entries.len(),
{
    if entries.len() > 0 {
        let t = entries.drop_last();
        assert(distinct(t)) by {
            assert forall|i: int, j: int| 0 <= i < j < t.len() implies (#[trigger] t[i]).0@ != (
            #[trigger] t[j]).0@ by {
                assert(entries[i].0@ != entries[j].0@);
            }
        }
        lemma_map_of(t);
        let last = entries.len() - 1;
        assert forall|k: Seq<char>| #[trigger] map_of(t).dom().contains(k) implies k
            != entries[last].0@ by {
            let i = choose|i: int| 0 <= i < t.len() && (#[trigger] t[i]).0@ == k;
            assert(entries[i].0@ != entries[last].0@);
        }
        assert forall|i: int| 0 <= i < entries.len() implies map_of(entries).dom().contains(
            (#[trigger] entries[i]).0@,
        ) && map_of(entries)[entries[i].0@] == entries[i].1 by {
            if i < last {
                assert(t[i] == entries[i]);
                assert(entries[i].0@ != entries[last].0@);
            }
        }
        assert forall|k: Seq<char>| #[trigger] map_of(entries).dom().contains(k) implies exists|
            i: int,
        |
            0 <= i < entries.len() && (#[trigger] entries[i]).0@ == k by {
            if k == entries[last].0@ {
            } else {
                let i = choose|i: int| 0 <= i < t.len() && (#[trigger] t[i]).0@ == k;
                assert(entries[i].0@ == k);
            }
        }
    }
}

impl<V> StringMap<V> {
    #[verifier::type_invariant]
    closed spec fn valid(self) -> bool {
        distinct(self.entries@)
    }

    pub closed spec fn spec_entries(self) -> Seq<(String, V)> {
        self.entries@
    }

    pub open spec fn view(&self) -> Map<Seq<char>, V> {
        map_of(self.spec_entries())
    }

    pub fn new() -> (r: StringMap<V>)
        ensures
            r.view() == Map::<Seq<char>, V>::empty(),
    {
        StringMap { entries: Vec::new() }
    }

    /// No key stands twice.
    pub(crate) fn show_distinct(&self)
        ensures
            distinct(self.spec_entries()),
    {
        proof {
            use_type_invariant(self);
        }
    }

    /// The number of entries.
    pub fn len(&self) -> (r: usize)
        ensures
            self.view().dom().finite(),
            r == self.view().dom().len(),
            r == self.spec_entries().len(),
    {
        proof {
            use_type_invariant(self);
            lemma_map_of(self.entries@);
        }
        self.entries.len()
    }

    fn position(&self, key: &str) -> (r: Option<usize>)
        ensures
            r is None ==> !self.view().dom().contains(key@),
            r matches Some(i) ==> i < self.spec_entries().len() && self.spec_entries()[i as int].0@
                == key@ && self.view().dom().contains(key@) && self.view()[key@]
                == self.spec_entries()[i as int].1,
    {
        proof {
            use_type_invariant(self);
            lemma_map_of(self.entries@);
        }
        let mut i: usize = 0;
        while i < self.entries.len()
            invariant
                i <= self.entries@.len(),
                forall|j: int| 0 <= j < i ==> (#[trigger] self.entries@[j]).0@ != key@,
            decreases self.entries@.len() - i,
        {
            if same_text(self.entries[i].0.as_str(), key) {
                proof {
                    use_type_invariant(self);
                    lemma_map_of(self.entries@);
                }
                return Some(i);
            }
            i += 1;
        }
        None
    }

    pub fn get(&self, key: &str) -> (r: Option<&V>)
        ensures
            match r {
                Some(v) => self.view().dom().contains(key@) && *v == self.view()[key@],
                None => !self.view().dom().contains(key@),
            },
    {
        match self.position(key) {
            Some(i) => Some(&self.entries[i].1),
            None => None,
        }
    }

    /// The key and the value of an entry.
    pub fn entry(&self, i: usize) -> (r: (&str, &V))
        requires
            i < self.spec_entries().len(),
        ensures
            r.0@ == self.spec_entries()[i as int].0@,
            *r.1 == self.spec_entries()[i as int].1,
            self.view().dom().contains(r.0@),
            self.view()[r.0@] == *r.1,
    {
        proof {
            use_type_invariant(self);
            lemma_map_of(self.entries@);
        }
        (self.entries[i].0.as_str(), &self.entries[i].1)
    }

    /// Puts a value under a key, in place of the value that stood there.
    pub fn insert(&mut self, key: &str, value: V)
        ensures
            final(self).view() == old(self).view().insert(key@, value),
    {
        proof {
            use_type_invariant(&*self);
            lemma_map_of(self.entries@);
        }
        let ghost before = self.entries@;
        let found = self.position(key);
        let mut entries: Vec<(String, V)> = Vec::new();
        std::mem::swap(&mut entries, &mut self.entries);
        match found {
            Some(i) => {
                let name = entries[i].0.clone();
                entries.set(i, (name, value));
                proof {
                    let after = entries@;
                    assert(distinct(after)) by {
                        assert forall|a: int, b: int| 0 <= a < b < after.len() implies (
                        #[trigger] after[a]).0@ != (#[trigger] after[b]).0@ by {
                            assert(before[a].0@ != before[b].0@);
                        }
                    }
                    assert forall|k: Seq<char>| #[trigger]
                        map_of(before).insert(key@, value).dom().contains(k) implies exists|a: int|
                        0 <= a < after.len() && (#[trigger] after[a]).0@ == k by {
                        if k == key@ {
                            assert(after[i as int].0@ == k);
                        } else {
                            let a = choose|a: int|
                                0 <= a < before.len() && (#[trigger] before[a]).0@ == k;
                            assert(after[a].0@ == k);
                        }
                    }
                    assert forall|a: int| 0 <= a < after.len() implies map_of(before).insert(
                        key@,
                        value,
                    ).dom().contains((#[trigger] after[a]).0@) && map_of(before).insert(
                        key@,
                        value,
                    )[after[a].0@] == after[a].1 by {
                        assert(map_of(before).dom().contains(before[a].0@));
                        if a < i {
                            assert(before[a].0@ != before[i as int].0@);
                        } else if i < a {
                            assert(before[i as int].0@ != before[a].0@);
                        }
                    }
                    lemma_same_map(after, map_of(before).insert(key@, value));
                }
            },
            None => {
                entries.push((key.to_owned(), value));
                proof {
                    let after = entries@;
                    assert(after.drop_last() =~= before);
                    assert(distinct(after)) by {
                        assert forall|a: int, b: int| 0 <= a < b < after.len() implies (
                        #[trigger] after[a]).0@ != (#[trigger] after[b]).0@ by {
                            if b < before.len() {
                                assert(before[a].0@ != before[b].0@);
                            } else {
                                assert(map_of(before).dom().contains(before[a].0@));
                            }
                        }
                    }
                }
            },
        }
        self.entries = entries;
    }
}

/// A list of entries is a map if they agree on every key.
proof fn lemma_same_map<V>(entries: Seq<(String, V)>, map: Map<Seq<char>, V>)
    requires
        distinct(entries),
        forall|k: Seq<char>| #[trigger]
            map.dom().contains(k) ==> exists|i: int|
                0 <= i < entries.len() && (#[trigger] entries[i]).0@ == k,
        forall|i: int|
            0 <= i < entries.len() ==> map.dom().contains((#[trigger] entries[i]).0@)
                && map[entries[i].0@] == entries[i].1,
    ensures
        map_of(entries) == map,
{
    lemma_map_of(entries);
    let own = map_of(entries);
    assert forall|k: Seq<char>| own.dom().contains(k) <==> map.dom().contains(k) by {
        if own.dom().contains(k) {
            let i = choose|i: int| 0 <= i < entries.len() && (#[trigger] entries[i]).0@ == k;
            assert(map.dom().contains(entries[i].0@));
        }
        if map.dom().contains(k) {
            let i = choose|i: int| 0 <= i < entries.len() && (#[trigger] entries[i]).0@ == k;
            assert(own.dom().contains(entries[i].0@));
        }
    }
    assert forall|k: Seq<char>| #[trigger] own.dom().contains(k) implies own[k] == map[k] by {
        let i = choose|i: int| 0 <= i < entries.len() && (#[trigger] entries[i]).0@ == k;
        assert(own[entries[i].0@] == entries[i].1);
    }
    assert(own =~= map);
}

} // verus!
