//! A table keyed by byte strings that holds at most one entry per key.

use crate::bytes::{compare_bytes, Order};
use vstd::prelude::*;

verus! {

/// One entry of a table.
pub struct Entry<T> {
    pub key: Vec<u8>,
    pub value: T,
}

/// A table from byte strings to values, with at most one entry per key.
pub struct Table<T> {
    entries: Vec<Entry<T>>,
}

/// The map that a sequence of entries stands for: each key with its value.
pub open spec fn model<T: View>(entries: Seq<Entry<T>>) -> Map<Seq<u8>, T::V>
    decreases entries.len(),
{
    if entries.len() == 0 {
        Map::empty()
    } else {
        model(entries.drop_last()).insert(entries.last().key@, entries.last().value@)
    }
}

/// No key occurs twice.
pub open spec fn distinct<T>(entries: Seq<Entry<T>>) -> bool {
    forall|i: int, j: int|
        0 <= i < j < entries.len() ==> (#[trigger] entries[i]).key@ != (#[trigger] entries[j]).key@
}

/// A key is in the map of a sequence of entries exactly when an entry has it,
/// and then the map gives the value of that entry.
proof fn lemma_model<T: View>(entries: Seq<Entry<T>>)
    requires
        distinct(entries),
    ensures
        forall|i: int|
            0 <= i < entries.len() ==> model(entries).contains_key((#[trigger] entries[i]).key@)
                && model(entries)[entries[i].key@] == entries[i].value@,
        forall|k: Seq<u8>| #[trigger]
            model(entries).contains_key(k) ==> exists|i: int|
                0 <= i < entries.len() && (#[trigger] entries[i]).key@ == k,
    decreases entries.len(),
{
    if entries.len() > 0 {
        let before = entries.drop_last();
        assert(distinct(before)) by {
            assert forall|i: int, j: int| 0 <= i < j < before.len() implies (
            #[trigger] before[i]).key@ != (#[trigger] before[j]).key@ by {
                assert(before[i] == entries[i] && before[j] == entries[j]);
            }
        }
        lemma_model(before);
        let last = entries.last();
        assert forall|i: int| 0 <= i < entries.len() implies model(entries).contains_key(
            (#[trigger] entries[i]).key@,
        ) && model(entries)[entries[i].key@] == entries[i].value@ by {
            if i < entries.len() - 1 {
                assert(before[i] == entries[i]);
                assert(entries[i].key@ != entries[entries.len() - 1].key@);
            }
        }
        assert forall|k: Seq<u8>| #[trigger] model(entries).contains_key(k) implies exists|i: int|
            0 <= i < entries.len() && (#[trigger] entries[i]).key@ == k by {
            if k == last.key@ {
                assert(entries[entries.len() - 1].key@ == k);
            } else {
                assert(model(before).contains_key(k));
                let i = choose|i: int| 0 <= i < before.len() && (#[trigger] before[i]).key@ == k;
                assert(entries[i] == before[i]);
            }
        }
    }
}

/// Without one of its entries, a sequence of entries stands for the map
/// without that entry's key.
proof fn lemma_model_remove<T: View>(entries: Seq<Entry<T>>, at: int)
    requires
        distinct(entries),
        0 <= at < entries.len(),
    ensures
        distinct(entries.remove(at)),
        model(entries.remove(at)) == model(entries).remove(entries[at].key@),
    decreases entries.len(),
{
    let rest = entries.remove(at);
    assert forall|i: int, j: int| 0 <= i < j < rest.len() implies (#[trigger] rest[i]).key@ != (
    #[trigger] rest[j]).key@ by {
        let oi = if i < at { i } else { i + 1 };
        let oj = if j < at { j } else { j + 1 };
        assert(rest[i] == entries[oi] && rest[j] == entries[oj]);
    }
    let before = entries.drop_last();
    if at == entries.len() - 1 {
        assert(rest =~= before);
        assert(distinct(before));
        lemma_model(before);
        assert(!model(before).contains_key(entries[at].key@)) by {
            if model(before).contains_key(entries[at].key@) {
                let i = choose|i: int|
                    0 <= i < before.len() && (#[trigger] before[i]).key@ == entries[at].key@;
                assert(before[i] == entries[i]);
            }
        }
        assert(model(entries).remove(entries[at].key@) =~= model(before));
    } else {
        assert(distinct(before)) by {
            assert forall|i: int, j: int| 0 <= i < j < before.len() implies (
            #[trigger] before[i]).key@ != (#[trigger] before[j]).key@ by {
                assert(before[i] == entries[i] && before[j] == entries[j]);
            }
        }
        lemma_model_remove(before, at);
        assert(rest.drop_last() =~= before.remove(at));
        assert(rest.last() == entries.last());
        assert(before[at] == entries[at]);
        assert(entries[at].key@ != entries[entries.len() - 1].key@);
        assert(model(rest) =~= model(entries).remove(entries[at].key@));
    }
}

impl<T: View> View for Table<T> {
    type V = Map<Seq<u8>, T::V>;

    closed spec fn view(&self) -> Map<Seq<u8>, T::V> {
        model(self.entries@)
    }
}

impl<T: View> Table<T> {
    /// The table holds at most one entry per key.
    pub closed spec fn wf(&self) -> bool {
        distinct(self.entries@)
    }

    /// The empty table.
    pub fn new() -> (table: Self)
        ensures
            table.wf(),
            table@ == Map::<Seq<u8>, T::V>::empty(),
    {
        Table { entries: Vec::new() }
    }

    /// The position of the entry with the given key.
    fn position(&self, key: &[u8]) -> (at: Option<usize>)
        requires
            self.wf(),
        ensures
            match at {
                Some(i) => i < self.entries@.len() && self.entries@[i as int].key@ == key@
                    && self@.contains_key(key@) && self@[key@] == self.entries@[i as int].value@,
                None => !self@.contains_key(key@),
            },
    {
        proof {
            lemma_model(self.entries@);
        }
        let mut i: usize = 0;
        while i < self.entries.len()
            invariant
                self.wf(),
                i <= self.entries@.len(),
                forall|k: int| 0 <= k < i ==> (#[trigger] self.entries@[k]).key@ != key@,
            decreases self.entries@.len() - i,
        {
            match compare_bytes(self.entries[i].key.as_slice(), key) {
                Order::Same => {
                    proof {
                        lemma_model(self.entries@);
                    }
                    return Some(i);
                },
                _ => {},
            }
            i += 1;
        }
        None
    }

    /// Whether the table has an entry under the key.
    pub fn contains_key(&self, key: &[u8]) -> (b: bool)
        requires
            self.wf(),
        ensures
            b == self@.contains_key(key@),
    {
        self.position(key).is_some()
    }

    /// The value under the key, if there is one.
    pub fn get(&self, key: &[u8]) -> (value: Option<&T>)
        requires
            self.wf(),
        ensures
            match value {
                Some(v) => self@.contains_key(key@) && self@[key@] == v@,
                None => !self@.contains_key(key@),
            },
    {
        match self.position(key) {
            Some(i) => Some(&self.entries[i].value),
            None => None,
        }
    }

    /// Takes the entry under the key out of the table.
    pub fn take(&mut self, key: &[u8]) -> (value: Option<T>)
        requires
            old(self).wf(),
        ensures
            final(self).wf(),
            final(self)@ == old(self)@.remove(key@),
            match value {
                Some(v) => old(self)@.contains_key(key@) && old(self)@[key@] == v@,
                None => !old(self)@.contains_key(key@),
            },
    {
        match self.position(key) {
            Some(i) => {
                proof {
                    lemma_model_remove(self.entries@, i as int);
                }
                let entry = self.entries.remove(i);
                Some(entry.value)
            },
            None => {
                assert(self@.remove(key@) =~= self@);
                None
            },
        }
    }

    /// Puts a value under the key, in place of what was there.
    pub fn put(&mut self, key: &[u8], value: T)
        requires
            old(self).wf(),
        ensures
            final(self).wf(),
            final(self)@ == old(self)@.insert(key@, value@),
    {
        let _ = self.take(key);
        let ghost taken = self.entries@;
        proof {
            lemma_model(taken);
        }
        let entry = Entry { key: vstd::slice::slice_to_vec(key), value };
        self.entries.push(entry);
        proof {
            assert(self.entries@.drop_last() =~= taken);
            assert forall|i: int, j: int| 0 <= i < j < self.entries@.len() implies (
            #[trigger] self.entries@[i]).key@ != (#[trigger] self.entries@[j]).key@ by {
                assert(self.entries@[i] == taken[i]);
                if j < taken.len() {
                    assert(self.entries@[j] == taken[j]);
                } else {
                    assert(model(taken).contains_key(taken[i].key@));
                }
            }
            assert(old(self)@.remove(key@).insert(key@, value@) =~= old(self)@.insert(
                key@,
                value@,
            ));
        }
    }
}

/// The value of a map under a key, if it has one.
pub open spec fn lookup<V>(map: Map<Seq<u8>, V>, key: Seq<u8>) -> Option<V> {
    if map.contains_key(key) {
        Some(map[key])
    } else {
        None
    }
}

} // verus!
