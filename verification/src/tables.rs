//! Keyed state tables for the detector: association lists with unique keys,
//! viewed as maps from character sequences to cell values.

use vstd::prelude::*;
use crate::text::str_eq_str;

verus! {

/// Whether all keys in `entries` are distinct.
pub open spec fn str_keys_unique<T>(entries: Seq<(String, T)>) -> bool {
    forall|i: int, j: int|
        0 <= i < j < entries.len() ==> (#[trigger] entries[i].0)@ != (#[trigger] entries[j].0)@
}

/// The map that an association list denotes; on duplicate keys the later
/// entry wins, but the tables below keep keys unique.
pub open spec fn str_map_of<T>(entries: Seq<(String, T)>) -> Map<Seq<char>, T>
    decreases entries.len(),
{
    if entries.len() == 0 {
        Map::empty()
    } else {
        str_map_of(entries.drop_last()).insert(entries.last().0@, entries.last().1)
    }
}

/// A key is in the denoted map exactly when some entry carries it.
pub proof fn lemma_str_map_contains<T>(entries: Seq<(String, T)>, k: Seq<char>)
    ensures
        str_map_of(entries).contains_key(k) <==> exists|i: int|
            0 <= i < entries.len() && (#[trigger] entries[i].0)@ == k,
    decreases entries.len(),
{
    if entries.len() > 0 {
        lemma_str_map_contains(entries.drop_last(), k);
        if str_map_of(entries).contains_key(k) {
            if entries.last().0@ != k {
                let i = choose|i: int|
                    0 <= i < entries.drop_last().len() && (#[trigger] entries.drop_last()[i].0)@
                        == k;
                assert(entries[i].0@ == k);
            }
        } else {
            assert forall|i: int|
                0 <= i < entries.len() implies (#[trigger] entries[i].0)@ != k by {
                if i < entries.len() - 1 {
                    assert(entries.drop_last()[i].0@ != k);
                }
            }
        }
    }
}

/// With unique keys, the denoted map sends each entry's key to its value.
pub proof fn lemma_str_map_index<T>(entries: Seq<(String, T)>, i: int)
    requires
        str_keys_unique(entries),
        0 <= i < entries.len(),
    ensures
        str_map_of(entries).contains_key(entries[i].0@),
        str_map_of(entries)[entries[i].0@] == entries[i].1,
    decreases entries.len(),
{
    if i == entries.len() - 1 {
    } else {
        assert(str_keys_unique(entries.drop_last())) by {
            assert forall|a: int, b: int|
                0 <= a < b < entries.drop_last().len() implies (
            #[trigger] entries.drop_last()[a].0)@ != (#[trigger] entries.drop_last()[b].0)@ by {
                assert(entries[a].0@ != entries[b].0@);
            }
        }
        lemma_str_map_index(entries.drop_last(), i);
        assert(entries.drop_last()[i] == entries[i]);
        assert(entries[i].0@ != entries.last().0@);
    }
}

/// Updating the entry that holds key `k` denotes `insert` on the map.
pub proof fn lemma_str_map_update<T>(entries: Seq<(String, T)>, i: int, k: String, v: T)
    requires
        str_keys_unique(entries),
        0 <= i < entries.len(),
        entries[i].0@ == k@,
    ensures
        str_map_of(entries.update(i, (k, v))) == str_map_of(entries).insert(k@, v),
    decreases entries.len(),
{
    let updated = entries.update(i, (k, v));
    if i == entries.len() - 1 {
        assert(updated.drop_last() =~= entries.drop_last());
        assert(str_map_of(updated) =~= str_map_of(entries).insert(k@, v));
    } else {
        assert(str_keys_unique(entries.drop_last())) by {
            assert forall|a: int, b: int|
                0 <= a < b < entries.drop_last().len() implies (
            #[trigger] entries.drop_last()[a].0)@ != (#[trigger] entries.drop_last()[b].0)@ by {
                assert(entries[a].0@ != entries[b].0@);
            }
        }
        assert(updated.drop_last() =~= entries.drop_last().update(i, (k, v)));
        lemma_str_map_update(entries.drop_last(), i, k, v);
        assert(entries.last().0@ != k@);
        assert(str_map_of(updated) =~= str_map_of(entries).insert(k@, v));
    }
}

/// Removing the entry that holds key `k` denotes `remove` on the map.
pub proof fn lemma_str_map_remove<T>(entries: Seq<(String, T)>, i: int)
    requires
        str_keys_unique(entries),
        0 <= i < entries.len(),
    ensures
        str_map_of(entries.remove(i)) == str_map_of(entries).remove(entries[i].0@),
    decreases entries.len(),
{
    let k = entries[i].0@;
    assert(str_keys_unique(entries.drop_last())) by {
        assert forall|a: int, b: int|
            0 <= a < b < entries.drop_last().len() implies (
        #[trigger] entries.drop_last()[a].0)@ != (#[trigger] entries.drop_last()[b].0)@ by {
            assert(entries[a].0@ != entries[b].0@);
        }
    }
    if i == entries.len() - 1 {
        assert(entries.remove(i) =~= entries.drop_last());
        lemma_str_map_contains(entries.drop_last(), k);
        assert forall|j: int|
            0 <= j < entries.drop_last().len() implies (#[trigger] entries.drop_last()[j].0)@
            != k by {
            assert(entries[j].0@ != entries[i].0@);
        }
        assert(str_map_of(entries.remove(i)) =~= str_map_of(entries).remove(k));
    } else {
        assert(entries.remove(i).drop_last() =~= entries.drop_last().remove(i));
        assert(entries.remove(i).last() == entries.last());
        lemma_str_map_remove(entries.drop_last(), i);
        assert(entries.last().0@ != k);
        assert(str_map_of(entries.remove(i)) =~= str_map_of(entries).remove(k));
    }
}

/// With unique keys the denoted map has exactly one key per entry.
pub proof fn lemma_str_map_len<T>(entries: Seq<(String, T)>)
    requires
        str_keys_unique(entries),
    ensures
        str_map_of(entries).dom().finite(),
        str_map_of(entries).dom().len() == entries.len(),
    decreases entries.len(),
{
    if entries.len() == 0 {
        assert(str_map_of(entries).dom() =~= Set::<Seq<char>>::empty());
    } else {
        let prefix = entries.drop_last();
        let k = entries.last().0@;
        assert(str_keys_unique(prefix)) by {
            assert forall|a: int, b: int|
                0 <= a < b < prefix.len() implies (#[trigger] prefix[a].0)@ != (
            #[trigger] prefix[b].0)@ by {
                assert(entries[a].0@ != entries[b].0@);
            }
        }
        lemma_str_map_len(prefix);
        lemma_str_map_contains(prefix, k);
        assert(!str_map_of(prefix).contains_key(k)) by {
            if str_map_of(prefix).contains_key(k) {
                let i = choose|i: int| 0 <= i < prefix.len() && (#[trigger] prefix[i].0)@ == k;
                assert(entries[i].0@ == entries.last().0@);
            }
        }
        assert(str_map_of(entries).dom() =~= str_map_of(prefix).dom().insert(k));
    }
}

/// An association table keyed by strings.
pub struct StrTable<T> {
    pub entries: Vec<(String, T)>,
}

impl<T> View for StrTable<T> {
    type V = Map<Seq<char>, T>;

    open spec fn view(&self) -> Map<Seq<char>, T> {
        str_map_of(self.entries@)
    }
}

impl<T> StrTable<T> {
    /// Keys are pairwise distinct.
    pub open spec fn wf(&self) -> bool {
        str_keys_unique(self.entries@)
    }

    /// All values in the table satisfy `p`.
    pub open spec fn all_values(&self, p: spec_fn(T) -> bool) -> bool {
        forall|i: int| 0 <= i < self.entries@.len() ==> p(#[trigger] self.entries@[i].1)
    }

    pub fn new() -> (r: Self)
        ensures
            r.wf(),
            r@ == Map::<Seq<char>, T>::empty(),
            r.all_values(|v: T| false),
    {
        StrTable { entries: Vec::new() }
    }

    fn find_index(&self, k: &str) -> (r: Option<usize>)
        ensures
            match r {
                Some(i) => i < self.entries@.len() && self.entries@[i as int].0@ == k@,
                None => forall|i: int|
                    0 <= i < self.entries@.len() ==> (#[trigger] self.entries@[i].0)@ != k@,
            },
    {
        let mut i: usize = 0;
        while i < self.entries.len()
            invariant
                i <= self.entries@.len(),
                forall|j: int| 0 <= j < i ==> (#[trigger] self.entries@[j].0)@ != k@,
            decreases self.entries@.len() - i,
        {
            if str_eq_str(self.entries[i].0.as_str(), k) {
                return Some(i);
            }
            i = i + 1;
        }
        None
    }

    /// Looks the key up.
    pub fn get(&self, k: &str) -> (r: Option<&T>)
        requires
            self.wf(),
        ensures
            match r {
                Some(v) => self@.contains_key(k@) && *v == self@[k@],
                None => !self@.contains_key(k@),
            },
            forall|p: spec_fn(T) -> bool|
                self.all_values(p) && r is Some ==> #[trigger] p(*r->0),
    {
        let idx = self.find_index(k);
        proof {
            lemma_str_map_contains(self.entries@, k@);
        }
        match idx {
            Some(i) => {
                proof {
                    lemma_str_map_index(self.entries@, i as int);
                }
                Some(&self.entries[i].1)
            },
            None => None,
        }
    }

    /// Inserts or replaces the value at `k`.
    pub fn insert(&mut self, k: String, v: T)
        requires
            old(self).wf(),
        ensures
            final(self).wf(),
            final(self)@ == old(self)@.insert(k@, v),
            forall|p: spec_fn(T) -> bool|
                old(self).all_values(p) && #[trigger] p(v) ==> final(self).all_values(p),
    {
        let ghost old_entries = self.entries@;
        let idx = self.find_index(k.as_str());
        match idx {
            Some(i) => {
                self.entries[i] = (k, v);
                proof {
                    lemma_str_map_update(old_entries, i as int, k, v);
                    assert forall|a: int, b: int|
                        0 <= a < b < self.entries@.len() implies (#[trigger] self.entries@[a].0)@
                        != (#[trigger] self.entries@[b].0)@ by {
                        assert(old_entries[a].0@ != old_entries[b].0@);
                        if a != i && b != i {
                            assert(self.entries@[a] == old_entries[a]);
                            assert(self.entries@[b] == old_entries[b]);
                        }
                    }
                }
            },
            None => {
                self.entries.push((k, v));
                proof {
                    assert(self.entries@.drop_last() =~= old_entries);
                    assert forall|a: int, b: int|
                        0 <= a < b < self.entries@.len() implies (#[trigger] self.entries@[a].0)@
                        != (#[trigger] self.entries@[b].0)@ by {
                        if b < self.entries@.len() - 1 {
                            assert(old_entries[a].0@ != old_entries[b].0@);
                        } else {
                            assert(self.entries@[a] == old_entries[a]);
                        }
                    }
                }
            },
        }
    }

    /// The number of keys in the table.
    pub fn len(&self) -> (r: usize)
        requires
            self.wf(),
        ensures
            r == self@.dom().len(),
    {
        proof {
            lemma_str_map_len(self.entries@);
        }
        self.entries.len()
    }

    /// Removes the entry at `k` and hands its value out.
    pub fn take(&mut self, k: &str) -> (r: Option<T>)
        requires
            old(self).wf(),
        ensures
            final(self).wf(),
            final(self)@ == old(self)@.remove(k@),
            match r {
                Some(v) => old(self)@.contains_key(k@) && v == old(self)@[k@],
                None => !old(self)@.contains_key(k@),
            },
            forall|p: spec_fn(T) -> bool|
                old(self).all_values(p) ==> final(self).all_values(p),
            forall|p: spec_fn(T) -> bool|
                old(self).all_values(p) && r is Some ==> #[trigger] p(r->0),
    {
        let ghost old_entries = self.entries@;
        let idx = self.find_index(k);
        proof {
            lemma_str_map_contains(old_entries, k@);
        }
        match idx {
            Some(i) => {
                proof {
                    lemma_str_map_index(old_entries, i as int);
                    lemma_str_map_remove(old_entries, i as int);
                }
                let entry = self.entries.remove(i);
                proof {
                    assert forall|a: int, b: int|
                        0 <= a < b < self.entries@.len() implies (#[trigger] self.entries@[a].0)@
                        != (#[trigger] self.entries@[b].0)@ by {
                        let a0: int = if a < i as int {
                            a
                        } else {
                            a + 1
                        };
                        let b0: int = if b < i as int {
                            b
                        } else {
                            b + 1
                        };
                        assert(self.entries@[a] == old_entries[a0]);
                        assert(self.entries@[b] == old_entries[b0]);
                        assert(old_entries[a0].0@ != old_entries[b0].0@);
                    }
                }
                Some(entry.1)
            },
            None => {
                proof {
                    assert(old(self)@ =~= old(self)@.remove(k@));
                }
                None
            },
        }
    }
}

} // verus!
