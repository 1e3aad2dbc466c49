//! A list of values that are found by a text.

use crate::engine::registry;
use crate::text::same_text;
use vstd::prelude::*;

verus! {

/// Values by their keys; no key stands twice.
pub struct KeyedList<V> {
    pub entries: Vec<(String, V)>,
}

/// The keys of a list, in order.
pub open spec fn keys_of<V>(entries: Seq<(String, V)>) -> Seq<Seq<char>> {
    entries.map_values(|entry: (String, V)| entry.0@)
}

/// What a list holds under each key.
pub open spec fn contents<V>(entries: Seq<(String, V)>) -> Map<Seq<char>, V> {
    Map::new(
        |key: Seq<char>| registry::text_position(keys_of(entries), key) is Some,
        |key: Seq<char>| entries[registry::text_position(keys_of(entries), key)->0].1,
    )
}

/// No two places hold the same key.
pub open spec fn distinct(keys: Seq<Seq<char>>) -> bool {
    forall|i: int, j: int| 0 <= i < j < keys.len() ==> #[trigger] keys[i] != #[trigger] keys[j]
}

proof fn lemma_position_of_distinct(keys: Seq<Seq<char>>, position: int)
    requires
        distinct(keys),
        0 <= position < keys.len(),
    ensures
        registry::text_position(keys, keys[position]) == Some(position),
{
    assert forall|k: int| 0 <= k < position implies #[trigger] keys[k] != keys[position] by {}
    registry::lemma_text_position(keys, keys[position], position);
}

proof fn lemma_position_present(keys: Seq<Seq<char>>, key: Seq<char>, position: int)
    requires
        0 <= position < keys.len(),
        keys[position] == key,
    ensures
        registry::text_position(keys, key) is Some,
    decreases keys.len(),
{
    if keys[0] != key {
        lemma_position_present(keys.skip(1), key, position - 1);
    }
}

/// What stands in a list stands under its key.
pub proof fn lemma_key_present<V>(entries: Seq<(String, V)>, position: int)
    requires
        0 <= position < entries.len(),
    ensures
        contents(entries).dom().contains(entries[position].0@),
{
    let keys = keys_of(entries);
    assert(keys[position] == entries[position].0@);
    lemma_position_present(keys, keys[position], position);
}

impl<V> View for KeyedList<V> {
    type V = Map<Seq<char>, V>;

    open spec fn view(&self) -> Map<Seq<char>, V> {
        contents(self.entries@)
    }
}

impl<V> KeyedList<V> {
    /// No key stands twice.
    pub open spec fn wf(self) -> bool {
        distinct(keys_of(self.entries@))
    }

    /// An empty list.
    pub fn new() -> (list: KeyedList<V>)
        ensures
            list.wf(),
            list@ == Map::<Seq<char>, V>::empty(),
    {
        let list = KeyedList { entries: Vec::new() };
        assert(list@ =~= Map::<Seq<char>, V>::empty());
        list
    }

    fn position(&self, key: &str) -> (position: Option<usize>)
        ensures
            match position {
                Some(position) => registry::text_position(keys_of(self.entries@), key@) == Some(
                    position as int,
                ) && position < self.entries@.len(),
                None => registry::text_position(keys_of(self.entries@), key@) is None,
            },
    {
        let ghost keys = keys_of(self.entries@);
        let mut i: usize = 0;
        while i < self.entries.len()
            invariant
                i <= self.entries.len(),
                keys == keys_of(self.entries@),
                forall|k: int| 0 <= k < i ==> #[trigger] keys[k] != key@,
            decreases self.entries.len() - i,
        {
            assert(keys[i as int] == self.entries@[i as int].0@);
            if same_text(self.entries[i].0.as_str(), key) {
                proof {
                    registry::lemma_text_position(keys, key@, i as int);
                }
                return Some(i);
            }
            i = i + 1;
        }
        proof {
            registry::lemma_text_position(keys, key@, i as int);
        }
        None
    }

    /// The value under a key.
    pub fn get(&self, key: &str) -> (value: Option<&V>)
        ensures
            match value {
                Some(value) => self@.dom().contains(key@) && self@[key@] == *value,
                None => !self@.dom().contains(key@),
            },
    {
        match self.position(key) {
            Some(position) => Some(&self.entries[position].1),
            None => None,
        }
    }

    /// Puts a value under a key, in place of one that is there.
    pub fn insert(&mut self, key: String, value: V)
        requires
            old(self).wf(),
        ensures
            final(self).wf(),
            final(self)@ == old(self)@.insert(key@, value),
            if old(self)@.dom().contains(key@) {
                final(self).entries@ == old(self).entries@.update(
                    registry::text_position(keys_of(old(self).entries@), key@)->0,
                    (key, value),
                )
            } else {
                final(self).entries@ == old(self).entries@.push((key, value))
            },
    {
        let ghost before = self.entries@;
        let ghost keys = keys_of(before);
        let ghost name = key@;
        match self.position(key.as_str()) {
            Some(position) => {
                proof {
                    registry::lemma_text_position_bounds(keys, name);
                }
                self.entries.set(position, (key, value));
                assert(keys_of(self.entries@) =~= keys);
                assert(self@ =~= contents(before).insert(name, value)) by {
                    assert forall|other: Seq<char>| #[trigger]
                        self@.dom().contains(other) && other != name implies self@[other]
                        == contents(before)[other] by {
                        registry::lemma_text_position_bounds(keys, other);
                    }
                }
            },
            None => {
                self.entries.push((key, value));
                proof {
                    let after = keys_of(self.entries@);
                    assert(after =~= keys.push(name));
                    assert forall|k: int| 0 <= k < keys.len() implies #[trigger] after[k] != name by {
                        if keys[k] == name {
                            lemma_position_present(keys, name, k);
                        }
                    }
                    registry::lemma_text_position(after, name, keys.len() as int);
                    assert forall|other: Seq<char>| other != name implies #[trigger] registry::text_position(
                        after,
                        other,
                    ) == registry::text_position(keys, other) by {
                        registry::lemma_text_position_bounds(after, other);
                        registry::lemma_text_position_bounds(keys, other);
                        if registry::text_position(keys, other) is Some {
                            let p = registry::text_position(keys, other)->0;
                            assert(after[p] == other);
                            lemma_position_of_distinct(keys, p);
                            assert forall|k: int| 0 <= k < p implies #[trigger] after[k] != other by {
                                assert(keys[k] != keys[p]);
                            }
                            registry::lemma_text_position(after, other, p);
                        } else if registry::text_position(after, other) is Some {
                            let p = registry::text_position(after, other)->0;
                            assert(p < keys.len());
                            lemma_position_present(keys, other, p);
                        }
                    }
                    assert forall|i: int, j: int| 0 <= i < j < after.len() implies #[trigger] after[i]
                        != #[trigger] after[j] by {
                        if j < keys.len() {
                            assert(keys[i] != keys[j]);
                        }
                    }
                    assert forall|other: Seq<char>| #[trigger]
                        self@.dom().contains(other) && other != name implies self@[other]
                        == contents(before)[other] by {
                        registry::lemma_text_position_bounds(keys, other);
                    }
                    assert(self@ =~= contents(before).insert(name, value));
                }
            },
        }
    }

    /// How many keys there are.
    pub fn len(&self) -> (length: usize)
        ensures
            length == self.entries@.len(),
    {
        self.entries.len()
    }

    /// Takes away what stands under a key.
    pub fn remove(&mut self, key: &str)
        requires
            old(self).wf(),
        ensures
            final(self).wf(),
            final(self)@ == old(self)@.remove(key@),
    {
        let ghost before = self.entries@;
        let ghost keys = keys_of(before);
        match self.position(key) {
            Some(position) => {
                let _ = self.entries.remove(position);
                proof {
                    registry::lemma_text_position_bounds(keys, key@);
                    let after = keys_of(self.entries@);
                    let gone = position as int;
                    assert(after =~= keys.remove(gone));
                    assert forall|i: int, j: int| 0 <= i < j < after.len() implies #[trigger] after[i]
                        != #[trigger] after[j] by {
                        let p = if i < gone { i } else { i + 1 };
                        let q = if j < gone { j } else { j + 1 };
                        assert(keys[p] != keys[q]);
                    }
                    assert forall|other: Seq<char>| #[trigger]
                        self@.dom().contains(other) implies contents(before).remove(
                        key@,
                    ).dom().contains(other) && self@[other] == contents(before)[other] by {
                        registry::lemma_text_position_bounds(after, other);
                        let p = registry::text_position(after, other)->0;
                        let q = if p < gone { p } else { p + 1 };
                        assert(keys[q] == other);
                        assert(keys[gone] == key@);
                        lemma_position_of_distinct(keys, q);
                        if q < gone {
                            assert(keys[q] != keys[gone]);
                        } else {
                            assert(keys[gone] != keys[q]);
                        }
                    }
                    assert forall|other: Seq<char>| #[trigger]
                        contents(before).remove(key@).dom().contains(other) implies self@.dom().contains(
                        other,
                    ) by {
                        registry::lemma_text_position_bounds(keys, other);
                        let q = registry::text_position(keys, other)->0;
                        let p = if q < gone { q } else { q - 1 };
                        assert(after[p] == other);
                        lemma_position_present(after, other, p);
                    }
                    assert(self@ =~= contents(before).remove(key@));
                }
            },
            None => {
                assert(self@ =~= contents(before).remove(key@));
            },
        }
    }
}

} // verus!
