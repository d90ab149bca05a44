//! Sorted runs of text keys: the backbone of the crate's sets and maps.
//!
//! A set of tags, the labels of a paper and a table of counts all keep their
//! keys in one vector, in strictly ascending order, so that no key occurs
//! twice and every listing comes out in the same order.

use crate::text::{lemma_lex_irreflexive, lemma_lex_transitive, lex_lt, rank, Rank};
use vstd::prelude::*;

verus! {

/// Whether each key comes strictly before all later ones.
pub open spec fn strictly_sorted(keys: Seq<Seq<char>>) -> bool {
    forall|i: int, j: int| 0 <= i < j < keys.len() ==> lex_lt(#[trigger] keys[i], #[trigger] keys[j])
}

/// A strictly sorted run holds no key twice.
pub proof fn lemma_sorted_no_duplicates(keys: Seq<Seq<char>>)
    requires
        strictly_sorted(keys),
    ensures
        keys.no_duplicates(),
{
    assert forall|i: int, j: int| 0 <= i < keys.len() && 0 <= j < keys.len() && i != j implies keys[i]
        != keys[j] by {
        if i < j {
            lemma_lex_irreflexive(keys[i]);
        } else {
            lemma_lex_irreflexive(keys[j]);
        }
    }
}

/// Where `key` stands in a sorted run: the keys before `slot` come before
/// `key`, and the key at `slot`, if there is one, is `key` itself or comes
/// after it.
pub open spec fn is_slot(keys: Seq<Seq<char>>, key: Seq<char>, slot: int, found: bool) -> bool {
    &&& 0 <= slot <= keys.len()
    &&& forall|i: int| 0 <= i < slot ==> lex_lt(#[trigger] keys[i], key)
    &&& found ==> slot < keys.len() && keys[slot] == key
    &&& !found ==> slot == keys.len() || lex_lt(key, keys[slot])
}

/// In a sorted run, `key` is present exactly if its slot holds it.
pub proof fn lemma_slot_decides_membership(
    keys: Seq<Seq<char>>,
    key: Seq<char>,
    slot: int,
    found: bool,
)
    requires
        strictly_sorted(keys),
        is_slot(keys, key, slot, found),
    ensures
        found == keys.contains(key),
        found ==> keys.index_of(key) == slot,
{
    lemma_sorted_no_duplicates(keys);
    if found {
        assert(keys[slot] == key);
        let k = keys.index_of(key);
        assert(keys[k] == key && 0 <= k < keys.len());
    } else if keys.contains(key) {
        let k = choose|k: int| 0 <= k < keys.len() && keys[k] == key;
        lemma_lex_irreflexive(key);
        if k >= slot {
            if k > slot {
                lemma_lex_transitive(key, keys[slot], keys[k]);
            }
        }
    }
}

/// Inserting `key` at its slot keeps the run sorted.
pub proof fn lemma_insert_keeps_sorted(keys: Seq<Seq<char>>, key: Seq<char>, slot: int)
    requires
        strictly_sorted(keys),
        is_slot(keys, key, slot, false),
    ensures
        strictly_sorted(keys.insert(slot, key)),
{
    let out = keys.insert(slot, key);
    assert forall|i: int, j: int| 0 <= i < j < out.len() implies lex_lt(
        #[trigger] out[i],
        #[trigger] out[j],
    ) by {
        if j < slot {
            assert(out[i] == keys[i] && out[j] == keys[j]);
        } else if j == slot {
            assert(out[i] == keys[i]);
        } else if i == slot {
            assert(out[j] == keys[j - 1]);
            if j - 1 > slot {
                lemma_lex_transitive(key, keys[slot], keys[j - 1]);
            }
        } else if i < slot {
            assert(out[i] == keys[i] && out[j] == keys[j - 1]);
        } else {
            assert(out[i] == keys[i - 1] && out[j] == keys[j - 1]);
        }
    }
}

/// Inserting a key adds it to the keys that are present, and nothing else.
pub proof fn lemma_insert_adds_key(keys: Seq<Seq<char>>, key: Seq<char>, slot: int)
    requires
        0 <= slot <= keys.len(),
    ensures
        keys.insert(slot, key).to_set() == keys.to_set().insert(key),
{
    let out = keys.insert(slot, key);
    assert forall|k: Seq<char>| out.to_set().contains(k) <==> keys.to_set().insert(key).contains(
        k,
    ) by {
        if out.contains(k) {
            let i = choose|i: int| 0 <= i < out.len() && out[i] == k;
            if i < slot {
                assert(keys[i] == k);
            } else if i > slot {
                assert(keys[i - 1] == k);
            }
        }
        if keys.contains(k) {
            let i = choose|i: int| 0 <= i < keys.len() && keys[i] == k;
            if i < slot {
                assert(out[i] == k);
            } else {
                assert(out[i + 1] == k);
            }
        }
        if k == key {
            assert(out[slot] == k);
        }
    }
    assert(out.to_set() =~= keys.to_set().insert(key));
}

/// Finds the slot of `key` in the sorted run `keys`.
pub fn find_slot(keys: &Vec<String>, key: &str) -> (r: (usize, bool))
    ensures
        is_slot(keys.deep_view(), key@, r.0 as int, r.1),
{
    let mut i: usize = 0;
    while i < keys.len()
        invariant
            i <= keys.len(),
            forall|k: int| 0 <= k < i ==> lex_lt(#[trigger] keys.deep_view()[k], key@),
        decreases keys.len() - i,
    {
        assert(keys.deep_view()[i as int] == keys@[i as int]@);
        match rank(keys[i].as_str(), key) {
            Rank::Before => {},
            Rank::Same => {
                return (i, true);
            },
            Rank::After => {
                return (i, false);
            },
        }
        i += 1;
    }
    (i, false)
}

/// The keys of a run of entries, in order.
pub open spec fn entry_keys<V>(entries: Seq<(Seq<char>, V)>) -> Seq<Seq<char>> {
    entries.map_values(|e: (Seq<char>, V)| e.0)
}

/// The map that a run of entries with distinct keys stands for.
pub open spec fn entries_map<V>(entries: Seq<(Seq<char>, V)>) -> Map<Seq<char>, V> {
    Map::new(
        |k: Seq<char>| entry_keys(entries).contains(k),
        |k: Seq<char>| entries[entry_keys(entries).index_of(k)].1,
    )
}

/// In a run with distinct keys, the entry at `i` is what the map holds for its key.
pub proof fn lemma_entry_is_mapped<V>(entries: Seq<(Seq<char>, V)>, i: int)
    requires
        entry_keys(entries).no_duplicates(),
        0 <= i < entries.len(),
    ensures
        entries_map(entries).dom().contains(entries[i].0),
        entries_map(entries)[entries[i].0] == entries[i].1,
{
    let keys = entry_keys(entries);
    assert(keys[i] == entries[i].0);
    let j = keys.index_of(entries[i].0);
    assert(keys[j] == entries[i].0);
}

/// Putting a new entry at its slot adds it to the map.
pub proof fn lemma_insert_entry<V>(entries: Seq<(Seq<char>, V)>, slot: int, key: Seq<char>, v: V)
    requires
        strictly_sorted(entry_keys(entries)),
        is_slot(entry_keys(entries), key, slot, false),
    ensures
        strictly_sorted(entry_keys(entries.insert(slot, (key, v)))),
        entries_map(entries.insert(slot, (key, v))) == entries_map(entries).insert(key, v),
{
    let keys = entry_keys(entries);
    let out = entries.insert(slot, (key, v));
    assert(entry_keys(out) =~= keys.insert(slot, key));
    lemma_insert_keeps_sorted(keys, key, slot);
    lemma_sorted_no_duplicates(keys);
    lemma_sorted_no_duplicates(entry_keys(out));
    lemma_insert_adds_key(keys, key, slot);
    lemma_slot_decides_membership(keys, key, slot, false);
    let a = entries_map(out);
    let b = entries_map(entries).insert(key, v);
    assert forall|k: Seq<char>| a.dom().contains(k) <==> b.dom().contains(k) by {
        assert(entry_keys(out).to_set().contains(k) <==> keys.to_set().insert(key).contains(k));
    }
    assert forall|k: Seq<char>| a.dom().contains(k) implies a[k] == b[k] by {
        if k == key {
            lemma_entry_is_mapped(out, slot);
        } else {
            let i = keys.index_of(k);
            assert(keys[i] == k);
            lemma_entry_is_mapped(entries, i);
            if i < slot {
                assert(out[i] == entries[i]);
                lemma_entry_is_mapped(out, i);
            } else {
                assert(out[i + 1] == entries[i]);
                lemma_entry_is_mapped(out, i + 1);
            }
        }
    }
    assert(a =~= b);
}

/// Replacing the value of the entry at a key's slot replaces it in the map.
pub proof fn lemma_update_entry<V>(entries: Seq<(Seq<char>, V)>, slot: int, key: Seq<char>, v: V)
    requires
        strictly_sorted(entry_keys(entries)),
        is_slot(entry_keys(entries), key, slot, true),
    ensures
        entry_keys(entries.update(slot, (key, v))) == entry_keys(entries),
        entries_map(entries.update(slot, (key, v))) == entries_map(entries).insert(key, v),
{
    let keys = entry_keys(entries);
    let out = entries.update(slot, (key, v));
    assert(keys[slot] == entries[slot].0);
    assert(entry_keys(out) =~= keys);
    lemma_sorted_no_duplicates(keys);
    let a = entries_map(out);
    let b = entries_map(entries).insert(key, v);
    assert forall|k: Seq<char>| a.dom().contains(k) <==> b.dom().contains(k) by {
        if k == key {
            assert(keys[slot] == key);
        }
    }
    assert forall|k: Seq<char>| a.dom().contains(k) implies a[k] == b[k] by {
        let i = keys.index_of(k);
        assert(keys[i] == k);
        lemma_entry_is_mapped(out, i);
        lemma_entry_is_mapped(entries, i);
        if k == key {
            assert(i == slot);
        }
    }
    assert(a =~= b);
}

/// Taking the entry at a slot away takes its key out of the map.
pub proof fn lemma_remove_entry<V>(entries: Seq<(Seq<char>, V)>, slot: int)
    requires
        strictly_sorted(entry_keys(entries)),
        0 <= slot < entries.len(),
    ensures
        strictly_sorted(entry_keys(entries.remove(slot))),
        entries_map(entries.remove(slot)) == entries_map(entries).remove(entries[slot].0),
{
    let keys = entry_keys(entries);
    let out = entries.remove(slot);
    let key = entries[slot].0;
    assert(keys[slot] == key);
    assert(entry_keys(out) =~= keys.remove(slot));
    assert forall|i: int, j: int| 0 <= i < j < out.len() implies lex_lt(
        #[trigger] entry_keys(out)[i],
        #[trigger] entry_keys(out)[j],
    ) by {
        let a = if i < slot {
            i
        } else {
            i + 1
        };
        let b = if j < slot {
            j
        } else {
            j + 1
        };
        assert(entry_keys(out)[i] == keys[a] && entry_keys(out)[j] == keys[b]);
    }
    lemma_sorted_no_duplicates(keys);
    lemma_sorted_no_duplicates(entry_keys(out));
    let a = entries_map(out);
    let b = entries_map(entries).remove(key);
    assert forall|k: Seq<char>| a.dom().contains(k) <==> b.dom().contains(k) by {
        if entry_keys(out).contains(k) {
            let i = entry_keys(out).index_of(k);
            assert(entry_keys(out)[i] == k);
            let o = if i < slot {
                i
            } else {
                i + 1
            };
            assert(keys[o] == k);
        }
        if keys.contains(k) && k != key {
            let i = keys.index_of(k);
            assert(keys[i] == k);
            let n = if i < slot {
                i
            } else {
                i - 1
            };
            assert(entry_keys(out)[n] == k);
        }
    }
    assert forall|k: Seq<char>| a.dom().contains(k) implies a[k] == b[k] by {
        let i = keys.index_of(k);
        assert(keys[i] == k);
        lemma_entry_is_mapped(entries, i);
        let n = if i < slot {
            i
        } else {
            i - 1
        };
        assert(out[n] == entries[i]);
        lemma_entry_is_mapped(out, n);
    }
    assert(a =~= b);
}

/// Taking a key away from a sorted run takes it out of the keys that are
/// present, and nothing else.
pub proof fn lemma_remove_key(keys: Seq<Seq<char>>, slot: int)
    requires
        strictly_sorted(keys),
        0 <= slot < keys.len(),
    ensures
        strictly_sorted(keys.remove(slot)),
        keys.remove(slot).to_set() == keys.to_set().remove(keys[slot]),
{
    let out = keys.remove(slot);
    assert forall|i: int, j: int| 0 <= i < j < out.len() implies lex_lt(
        #[trigger] out[i],
        #[trigger] out[j],
    ) by {
        let a = if i < slot {
            i
        } else {
            i + 1
        };
        let b = if j < slot {
            j
        } else {
            j + 1
        };
        assert(out[i] == keys[a] && out[j] == keys[b]);
    }
    lemma_sorted_no_duplicates(keys);
    assert forall|k: Seq<char>| out.to_set().contains(k) <==> keys.to_set().remove(
        keys[slot],
    ).contains(k) by {
        if out.contains(k) {
            let i = choose|i: int| 0 <= i < out.len() && out[i] == k;
            let o = if i < slot {
                i
            } else {
                i + 1
            };
            assert(keys[o] == k);
        }
        if keys.contains(k) && k != keys[slot] {
            let i = choose|i: int| 0 <= i < keys.len() && keys[i] == k;
            let n = if i < slot {
                i
            } else {
                i - 1
            };
            assert(out[n] == k);
        }
    }
    assert(out.to_set() =~= keys.to_set().remove(keys[slot]));
}

/// A map from text keys to small values, kept in ascending order of the keys.
#[derive(Debug)]
pub struct SortedMap<V: Copy> {
    keys: Vec<String>,
    values: Vec<V>,
}

impl<V: Copy> View for SortedMap<V> {
    type V = Seq<(Seq<char>, V)>;

    closed spec fn view(&self) -> Seq<(Seq<char>, V)> {
        Seq::new(self.keys@.len(), |i: int| (self.keys@[i]@, self.values@[i]))
    }
}

impl<V: Copy> SortedMap<V> {
    #[verifier::type_invariant]
    spec fn sorted(&self) -> bool {
        self.keys@.len() == self.values@.len() && strictly_sorted(self.keys.deep_view())
    }

    /// The map that the entries stand for.
    pub open spec fn map(&self) -> Map<Seq<char>, V> {
        entries_map(self@)
    }

    /// The empty map.
    pub fn new() -> (r: SortedMap<V>)
        ensures
            r@ == Seq::<(Seq<char>, V)>::empty(),
    {
        let r = SortedMap { keys: Vec::new(), values: Vec::new() };
        assert(r.keys.deep_view() == Seq::<Seq<char>>::empty());
        assert(r@ == Seq::<(Seq<char>, V)>::empty());
        r
    }

    /// The number of entries.
    pub fn len(&self) -> (n: usize)
        ensures
            n == self@.len(),
    {
        self.keys.len()
    }

    /// The keys come in ascending order, none twice.
    pub fn is_sorted(&self) -> (r: bool)
        ensures
            r,
            strictly_sorted(entry_keys(self@)),
    {
        proof {
            use_type_invariant(self);
            assert(entry_keys(self@) == self.keys.deep_view());
        }
        true
    }

    /// The key of the `i`-th entry.
    pub fn key_at(&self, i: usize) -> (r: &str)
        requires
            i < self@.len(),
        ensures
            r@ == self@[i as int].0,
    {
        self.keys[i].as_str()
    }

    /// The value of the `i`-th entry.
    pub fn value_at(&self, i: usize) -> (r: V)
        requires
            i < self@.len(),
        ensures
            r == self@[i as int].1,
    {
        proof {
            use_type_invariant(self);
        }
        self.values[i]
    }

    /// The value under `key`, if there is one.
    pub fn get(&self, key: &str) -> (r: Option<V>)
        ensures
            r is Some <==> self.map().dom().contains(key@),
            r matches Some(v) ==> self.map()[key@] == v,
    {
        let (slot, found) = find_slot(&self.keys, key);
        proof {
            use_type_invariant(self);
            assert(entry_keys(self@) == self.keys.deep_view());
            lemma_slot_decides_membership(self.keys.deep_view(), key@, slot as int, found);
            lemma_sorted_no_duplicates(self.keys.deep_view());
            if found {
                lemma_entry_is_mapped(self@, slot as int);
            }
        }
        if found {
            Some(self.values[slot])
        } else {
            None
        }
    }

    /// Puts `value` under `key`, in place of any value that stood there.
    pub fn set(&mut self, key: &str, value: V)
        ensures
            final(self).map() == old(self).map().insert(key@, value),
            strictly_sorted(entry_keys(final(self)@)),
            final(self)@.len() == old(self)@.len() + if old(self).map().dom().contains(key@) {
                0int
            } else {
                1int
            },
    {
        let (slot, found) = find_slot(&self.keys, key);
        let ghost before = self@;
        proof {
            use_type_invariant(&*self);
            assert(entry_keys(before) == self.keys.deep_view());
            lemma_slot_decides_membership(self.keys.deep_view(), key@, slot as int, found);
        }
        let mut taken = SortedMap::new();
        std::mem::swap(self, &mut taken);
        let SortedMap { mut keys, mut values } = taken;
        if found {
            values.set(slot, value);
        } else {
            keys.insert(slot, key.to_owned());
            values.insert(slot, value);
        }
        let ghost after_keys = keys.deep_view();
        let ghost after = Seq::new(keys@.len(), |i: int| (keys@[i]@, values@[i]));
        proof {
            if found {
                lemma_update_entry(before, slot as int, key@, value);
                assert(after =~= before.update(slot as int, (key@, value)));
                assert(after_keys =~= entry_keys(before));
            } else {
                lemma_insert_entry(before, slot as int, key@, value);
                assert(after =~= before.insert(slot as int, (key@, value)));
                assert(after_keys =~= entry_keys(after));
            }
            assert(entry_keys(after) =~= after_keys);
        }
        *self = SortedMap { keys, values };
        assert(self@ == after);
    }
}

} // verus!
