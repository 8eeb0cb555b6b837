//! Values kept under texts, one per text.

use crate::text;
use vstd::prelude::*;
use vstd::string::*;

verus! {

/// Values kept under texts, one per text.
#[derive(Debug)]
pub struct Slots<T> {
    entries: Vec<(String, T)>,
}

/// The values by their texts; the last entry of a text counts.
spec fn entries_map<T>(entries: Seq<(String, T)>) -> Map<Seq<char>, T>
    decreases entries.len(),
{
    if entries.len() == 0 {
        Map::empty()
    } else {
        entries_map(entries.drop_last()).insert(entries.last().0@, entries.last().1)
    }
}

spec fn distinct<T>(entries: Seq<(String, T)>) -> bool {
    forall|i: int, j: int|
        0 <= i < j < entries.len() ==> (#[trigger] entries[i]).0@ != (#[trigger] entries[j]).0@
}

proof fn lemma_map_of_distinct<T>(entries: Seq<(String, T)>)
    requires
        distinct(entries),
    ensures
        forall|k: Seq<char>| #[trigger]
            entries_map(entries).contains_key(k) <==> exists|i: int|
                0 <= i < entries.len() && (#[trigger] entries[i]).0@ == k,
        forall|i: int|
            0 <= i < entries.len() ==> entries_map(entries)[(#[trigger] entries[i]).0@]
                == entries[i].1,
    decreases entries.len(),
{
    if entries.len() > 0 {
        let init = entries.drop_last();
        lemma_map_of_distinct(init);
        let last = entries.last();
        assert forall|k: Seq<char>| #[trigger]
            entries_map(entries).contains_key(k) <==> exists|i: int|
                0 <= i < entries.len() && (#[trigger] entries[i]).0@ == k by {
            if entries_map(init).contains_key(k) {
                let i = choose|i: int| 0 <= i < init.len() && (#[trigger] init[i]).0@ == k;
                assert(entries[i].0@ == k);
            }
            if k == last.0@ {
                assert(entries[entries.len() - 1].0@ == k);
            }
            if exists|i: int| 0 <= i < entries.len() && (#[trigger] entries[i]).0@ == k {
                let i = choose|i: int| 0 <= i < entries.len() && (#[trigger] entries[i]).0@ == k;
                if i < init.len() {
                    assert(init[i].0@ == k);
                }
            }
        }
        assert forall|i: int| 0 <= i < entries.len() implies entries_map(entries)[(
        #[trigger] entries[i]).0@] == entries[i].1 by {
            if i < init.len() {
                assert(init[i] == entries[i]);
                assert(entries[i].0@ != entries[entries.len() - 1].0@);
            }
        }
    }
}

impl<T> View for Slots<T> {
    type V = Map<Seq<char>, T>;

    closed spec fn view(&self) -> Map<Seq<char>, T> {
        entries_map(self.entries@)
    }
}

impl<T> Slots<T> {
    #[verifier::type_invariant]
    spec fn well_formed(self) -> bool {
        distinct(self.entries@)
    }

    /// Nothing is kept.
    pub fn new() -> (r: Self)
        ensures
            r@ == Map::<Seq<char>, T>::empty(),
    {
        Slots { entries: Vec::new() }
    }

    fn position(entries: &Vec<(String, T)>, key: &str) -> (r: Option<usize>)
        ensures
            match r {
                Some(i) => i < entries@.len() && entries@[i as int].0@ == key@,
                None => forall|i: int| 0 <= i < entries@.len() ==> (#[trigger] entries@[i]).0@ != key@,
            },
    {
        let mut i: usize = 0;
        while i < entries.len()
            invariant
                i <= entries@.len(),
                forall|k: int| 0 <= k < i ==> (#[trigger] entries@[k]).0@ != key@,
            decreases entries@.len() - i,
        {
            if text::same_text(entries[i].0.as_str(), key) {
                return Some(i);
            }
            i += 1;
        }
        None
    }

    fn take_out(entries: &mut Vec<(String, T)>, key: &str) -> (r: Option<T>)
        requires
            distinct(old(entries)@),
        ensures
            distinct(final(entries)@),
            forall|i: int|
                0 <= i < final(entries)@.len() ==> (#[trigger] final(entries)@[i]).0@ != key@,
            entries_map(final(entries)@) == entries_map(old(entries)@).remove(key@),
            r == (if entries_map(old(entries)@).contains_key(key@) {
                Some(entries_map(old(entries)@)[key@])
            } else {
                None
            }),
    {
        proof {
            lemma_map_of_distinct(entries@);
        }
        match Self::position(entries, key) {
            Some(i) => {
                let ghost before = entries@;
                let (_, value) = entries.remove(i);
                let ghost after = entries@;
                proof {
                    assert(after =~= before.remove(i as int));
                    assert forall|a: int, b: int| 0 <= a < b < after.len() implies (
                    #[trigger] after[a]).0@ != (#[trigger] after[b]).0@ by {
                        let x = if a < i {
                            a
                        } else {
                            a + 1
                        };
                        let y = if b < i {
                            b
                        } else {
                            b + 1
                        };
                        assert(after[a] == before[x]);
                        assert(after[b] == before[y]);
                    }
                    assert forall|a: int| 0 <= a < after.len() implies (#[trigger] after[a]).0@
                        != key@ by {
                        let x = if a < i {
                            a
                        } else {
                            a + 1
                        };
                        assert(after[a] == before[x]);
                        if x < i {
                            assert(before[x].0@ != before[i as int].0@);
                        } else {
                            assert(before[i as int].0@ != before[x].0@);
                        }
                    }
                    lemma_map_of_distinct(after);
                    let m = entries_map(before).remove(key@);
                    assert forall|k: Seq<char>| entries_map(after).contains_key(k)
                        == m.contains_key(k) by {
                        if m.contains_key(k) {
                            let x = choose|x: int|
                                0 <= x < before.len() && (#[trigger] before[x]).0@ == k;
                            let a = if x < i {
                                x
                            } else {
                                x - 1
                            };
                            assert(x != i);
                            assert(after[a] == before[x]);
                        }
                        if entries_map(after).contains_key(k) {
                            let a = choose|a: int|
                                0 <= a < after.len() && (#[trigger] after[a]).0@ == k;
                            let x = if a < i {
                                a
                            } else {
                                a + 1
                            };
                            assert(after[a] == before[x]);
                        }
                    }
                    assert forall|k: Seq<char>| m.contains_key(k) implies entries_map(after)[k]
                        == m[k] by {
                        let a = choose|a: int|
                            0 <= a < after.len() && (#[trigger] after[a]).0@ == k;
                        assert(entries_map(after).contains_key(k));
                        let x = if a < i {
                            a
                        } else {
                            a + 1
                        };
                        assert(after[a] == before[x]);
                    }
                    assert(entries_map(after) =~= m);
                }
                Some(value)
            },
            None => {
                assert(entries_map(entries@).remove(key@) =~= entries_map(entries@));
                None
            },
        }
    }

    /// Keeps `value` under `key`; what was kept there before goes.
    pub fn insert(&mut self, key: String, value: T)
        ensures
            final(self)@ == old(self)@.insert(key@, value),
    {
        proof {
            use_type_invariant(&*self);
        }
        let mut entries: Vec<(String, T)> = Vec::new();
        std::mem::swap(&mut entries, &mut self.entries);
        let _ = Self::take_out(&mut entries, key.as_str());
        let ghost kept = entries@;
        entries.push((key, value));
        assert(entries@.drop_last() =~= kept);
        assert(entries_map(entries@) =~= old(self)@.insert(key@, value));
        self.entries = entries;
    }

    /// Takes out what is kept under `key`.
    pub fn remove(&mut self, key: &str) -> (r: Option<T>)
        ensures
            final(self)@ == old(self)@.remove(key@),
            r == (if old(self)@.contains_key(key@) {
                Some(old(self)@[key@])
            } else {
                None
            }),
    {
        proof {
            use_type_invariant(&*self);
        }
        let mut entries: Vec<(String, T)> = Vec::new();
        std::mem::swap(&mut entries, &mut self.entries);
        let taken = Self::take_out(&mut entries, key);
        self.entries = entries;
        taken
    }

    /// What is kept under `key`.
    pub fn get(&self, key: &str) -> (r: Option<&T>)
        ensures
            match r {
                Some(value) => self@.contains_key(key@) && self@[key@] == *value,
                None => !self@.contains_key(key@),
            },
    {
        proof {
            use_type_invariant(self);
            lemma_map_of_distinct(self.entries@);
        }
        match Self::position(&self.entries, key) {
            Some(i) => Some(&self.entries[i].1),
            None => None,
        }
    }

    /// Whether something is kept under `key`.
    pub fn contains_key(&self, key: &str) -> (r: bool)
        ensures
            r == self@.contains_key(key@),
    {
        proof {
            use_type_invariant(self);
            lemma_map_of_distinct(self.entries@);
        }
        Self::position(&self.entries, key).is_some()
    }

    /// Whether nothing is kept.
    pub fn is_empty(&self) -> (r: bool)
        ensures
            r == (self@ == Map::<Seq<char>, T>::empty()),
    {
        proof {
            use_type_invariant(self);
            lemma_map_of_distinct(self.entries@);
            if self.entries@.len() > 0 {
                assert(self@.contains_key(self.entries@[0].0@));
            }
        }
        self.entries.is_empty()
    }
}

} // verus!
