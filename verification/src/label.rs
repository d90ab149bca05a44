//! Labels: keys with a value, written `key=value`.

use crate::keys::{
    entries_map, entry_keys, find_slot, lemma_entry_is_mapped, lemma_insert_entry,
    lemma_remove_entry, lemma_slot_decides_membership, lemma_update_entry, strictly_sorted,
};
use crate::primitive::{Primitive, Scalar, shown, value_of, yaml_scalar};
use crate::text::{has_char, 
    append, chars_of, contains_whitespace, has_whitespace, string_of_range, trim, trimmed,
};
use vstd::prelude::*;

verus! {

/// A label: a key without whitespace and without `=`, and the value filed under it.
#[derive(Debug, PartialEq, Eq)]
pub struct Label {
    key: String,
    value: Primitive,
}

impl View for Label {
    type V = (Seq<char>, Scalar);

    closed spec fn view(&self) -> (Seq<char>, Scalar) {
        (self.key@, self.value@)
    }
}

/// Whether `key` can be the key of a label as it stands: it holds neither
/// whitespace nor `=`, which parts key and value where a label is written.
pub open spec fn is_label_key(key: Seq<char>) -> bool {
    !has_whitespace(key) && !key.contains('=')
}

/// Whether every key of `keys` can be the key of a label.
pub open spec fn all_label_keys(keys: Seq<Seq<char>>) -> bool {
    forall|i: int| 0 <= i < keys.len() ==> is_label_key(#[trigger] keys[i])
}

/// Why a text is no label.
#[derive(Clone, Copy, Debug, PartialEq, Eq, Structural)]
pub enum LabelError {
    /// The text holds no `=`.
    MissingValue,
    /// The text holds more than one `=`.
    TooManySeparators,
    /// The key holds whitespace.
    WhitespaceInKey,
}

/// The positions of `=` in `s` are none, one or several.
pub open spec fn separator_at(s: Seq<char>, i: int) -> bool {
    0 <= i < s.len() && s[i] == '='
}

/// What `s` reads as, as far as the text decides it: the key and the raw
/// value of a label, or the reason why it is none.
pub open spec fn split_label(s: Seq<char>) -> Result<(Seq<char>, Seq<char>), LabelError> {
    if !exists|i: int| separator_at(s, i) {
        Err(LabelError::MissingValue)
    } else if exists|i: int, j: int| separator_at(s, i) && separator_at(s, j) && i != j {
        Err(LabelError::TooManySeparators)
    } else {
        let i = choose|i: int| separator_at(s, i);
        if has_whitespace(trimmed(s.take(i))) {
            Err(LabelError::WhitespaceInKey)
        } else {
            Ok((trimmed(s.take(i)), s.skip(i + 1)))
        }
    }
}

/// The key of a label that was read from a text holds neither whitespace
/// nor `=`.
pub proof fn lemma_split_key_is_label_key(s: Seq<char>)
    requires
        split_label(s) is Ok,
    ensures
        is_label_key(split_label(s)->Ok_0.0),
{
    let i = choose|i: int| separator_at(s, i);
    let key = trimmed(s.take(i));
    if key.contains('=') {
        crate::text::lemma_trimmed_keeps_no_other(s.take(i), '=');
        let j = choose|j: int| 0 <= j < s.take(i).len() && s.take(i)[j] == '=';
        assert(separator_at(s, j));
    }
}

impl LabelError {
    /// The reason in words.
    pub fn message(&self) -> (r: &'static str)
        ensures
            r@ == match self {
                LabelError::MissingValue => "Missing value, should be of the form `key=value`"@,
                LabelError::TooManySeparators => "Too many `=`, should be of the form `key=value`"@,
                LabelError::WhitespaceInKey => "Label key contains whitespace"@,
            },
    {
        match self {
            LabelError::MissingValue => "Missing value, should be of the form `key=value`",
            LabelError::TooManySeparators => "Too many `=`, should be of the form `key=value`",
            LabelError::WhitespaceInKey => "Label key contains whitespace",
        }
    }
}

impl Label {
    #[verifier::type_invariant]
    spec fn valid(&self) -> bool {
        is_label_key(self.key@)
    }

    /// Whether `key`, once trimmed, can be a label's key: it holds neither
    /// whitespace nor `=`.
    pub open spec fn accepts(key: Seq<char>) -> bool {
        is_label_key(trimmed(key))
    }

    /// The label that files `value` under `key` without the whitespace around it.
    pub fn new(key: &str, value: Primitive) -> (r: Label)
        requires
            Label::accepts(key@),
        ensures
            r@ == (trimmed(key@), value@),
    {
        Label { key: trim(key), value }
    }

    /// The label for `key` and `value`, or `None` where whitespace or `=`
    /// is left inside the trimmed key.
    pub fn checked(key: &str, value: Primitive) -> (r: Option<Label>)
        ensures
            r is Some <==> Label::accepts(key@),
            r matches Some(l) ==> l@ == (trimmed(key@), value@),
    {
        let k = trim(key);
        if contains_whitespace(k.as_str()) || has_char(k.as_str(), '=') {
            None
        } else {
            Some(Label::new(key, value))
        }
    }

    /// The label's key, which holds neither whitespace nor `=`.
    pub fn key(&self) -> (r: &str)
        ensures
            r@ == self@.0,
            is_label_key(self@.0),
    {
        proof {
            use_type_invariant(self);
        }
        self.key.as_str()
    }

    /// The label's value.
    pub fn value(&self) -> (r: &Primitive)
        ensures
            r@ == self@.1,
    {
        &self.value
    }

    /// A copy of the label.
    pub fn duplicate(&self) -> (r: Label)
        ensures
            r@ == self@,
    {
        proof {
            use_type_invariant(self);
        }
        Label { key: self.key.clone(), value: self.value.duplicate() }
    }

    /// Splits `s` at its one `=` into a key and a raw value.
    pub fn split(s: &str) -> (r: Result<(String, String), LabelError>)
        ensures
            r is Ok <==> split_label(s@) is Ok,
            r matches Ok(kv) ==> split_label(s@) == Ok::<_, LabelError>((kv.0@, kv.1@)),
            r matches Err(e) ==> split_label(s@) == Err::<(Seq<char>, Seq<char>), _>(e),
    {
        let v = chars_of(s);
        let mut at: Option<usize> = None;
        let mut i: usize = 0;
        while i < v.len()
            invariant
                i <= v.len(),
                v@ == s@,
                at matches Some(p) ==> p < i && separator_at(s@, p as int),
                forall|k: int| 0 <= k < i && separator_at(s@, k) ==> at == Some(k as usize),
            decreases v.len() - i,
        {
            if v[i] == '=' {
                if at.is_some() {
                    assert(separator_at(s@, i as int) && separator_at(s@, at.unwrap() as int));
                    return Err(LabelError::TooManySeparators);
                }
                at = Some(i);
            }
            i += 1;
        }
        match at {
            None => Err(LabelError::MissingValue),
            Some(p) => {
                assert(separator_at(s@, p as int));
                let ghost c = choose|i: int| separator_at(s@, i);
                assert(c == p);
                let raw_key = string_of_range(&v, 0, p);
                let key = trim(raw_key.as_str());
                assert(v@.subrange(0, p as int) == s@.take(p as int));
                if contains_whitespace(key.as_str()) {
                    Err(LabelError::WhitespaceInKey)
                } else {
                    let value = string_of_range(&v, p + 1, v.len());
                    assert(v@.subrange(p + 1, v.len() as int) == s@.skip(p + 1));
                    Ok((key, value))
                }
            },
        }
    }

    /// What the text `s` stands for: the label `key=value`, its value read as
    /// a YAML scalar where it is one and taken as text otherwise.
    pub open spec fn parsed(s: Seq<char>) -> Result<(Seq<char>, Scalar), LabelError> {
        match split_label(s) {
            Ok(kv) => Ok((kv.0, value_of(yaml_scalar(kv.1), kv.1))),
            Err(e) => Err(e),
        }
    }

    /// Reads a label written as `key=value`.
    pub fn from_str(s: &str) -> (r: Result<Label, LabelError>)
        ensures
            r is Ok <==> Label::parsed(s@) is Ok,
            r matches Ok(l) ==> Label::parsed(s@) == Ok::<_, LabelError>(l@),
            r matches Err(e) ==> Label::parsed(s@) == Err::<(Seq<char>, Scalar), _>(e),
    {
        match Label::split(s) {
            Ok((key, raw)) => {
                let value = Primitive::read(raw.as_str());
                proof {
                    lemma_split_key_is_label_key(s@);
                }
                Ok(Label { key, value })
            },
            Err(e) => Err(e),
        }
    }

    /// How a label is written: its key, `=`, its value as shown.
    pub open spec fn written(l: (Seq<char>, Scalar)) -> Seq<char> {
        l.0 + seq!['='] + shown(l.1)
    }

    /// The label as `key=value`.
    pub fn to_text(&self) -> (r: String)
        ensures
            r@ == Label::written(self@),
    {
        proof {
            reveal_strlit("=");
            assert("="@ == seq!['=']);
        }
        let head = append(self.key.as_str(), "=");
        let value = self.value.to_text();
        append(head.as_str(), value.as_str())
    }
}

impl Clone for Label {
    fn clone(&self) -> (r: Label)
        ensures
            r@ == self@,
    {
        self.duplicate()
    }
}

/// The keys of a run of labels, in order.
pub open spec fn label_keys(entries: Seq<(Seq<char>, Scalar)>) -> Seq<Seq<char>> {
    entries.map_values(|e: (Seq<char>, Scalar)| e.0)
}

/// The labels of a paper: at most one value under each key, kept in
/// ascending order of the keys.
#[derive(Debug, PartialEq, Eq)]
pub struct LabelMap {
    keys: Vec<String>,
    values: Vec<Primitive>,
}

impl View for LabelMap {
    type V = Seq<(Seq<char>, Scalar)>;

    closed spec fn view(&self) -> Seq<(Seq<char>, Scalar)> {
        Seq::new(self.keys@.len(), |i: int| (self.keys@[i]@, self.values@[i]@))
    }
}

impl LabelMap {
    #[verifier::type_invariant]
    spec fn sorted(&self) -> bool {
        &&& self.keys@.len() == self.values@.len()
        &&& strictly_sorted(self.keys.deep_view())
        &&& all_label_keys(self.keys.deep_view())
    }

    /// The map without labels.
    pub fn new() -> (r: LabelMap)
        ensures
            r@ == Seq::<(Seq<char>, Scalar)>::empty(),
    {
        let r = LabelMap { keys: Vec::new(), values: Vec::new() };
        assert(r.keys.deep_view() == Seq::<Seq<char>>::empty());
        assert(r@ == Seq::<(Seq<char>, Scalar)>::empty());
        r
    }

    /// The number of labels.
    pub fn len(&self) -> (n: usize)
        ensures
            n == self@.len(),
    {
        self.keys.len()
    }

    /// The keys come in ascending order, none twice, and each can be the
    /// key of a label.
    pub fn is_sorted(&self) -> (r: bool)
        ensures
            r,
            strictly_sorted(label_keys(self@)),
            all_label_keys(label_keys(self@)),
    {
        proof {
            use_type_invariant(self);
            assert(label_keys(self@) == self.keys.deep_view());
        }
        true
    }

    /// The `i`-th label in ascending order of the keys.
    pub fn get(&self, i: usize) -> (r: Label)
        requires
            i < self@.len(),
        ensures
            r@ == self@[i as int],
    {
        proof {
            use_type_invariant(self);
            assert(self.keys.deep_view()[i as int] == self.keys@[i as int]@);
        }
        Label { key: self.keys[i].clone(), value: self.values[i].duplicate() }
    }

    /// The value filed under `key`, if there is one.
    pub fn value_of(&self, key: &str) -> (r: Option<Primitive>)
        ensures
            r is Some <==> label_keys(self@).contains(key@),
            r matches Some(v) ==> self@.contains((key@, v@)),
    {
        let (slot, found) = find_slot(&self.keys, key);
        proof {
            use_type_invariant(self);
            assert(label_keys(self@) == self.keys.deep_view());
            lemma_slot_decides_membership(self.keys.deep_view(), key@, slot as int, found);
        }
        if found {
            let v = self.values[slot].duplicate();
            assert(self@[slot as int] == (key@, v@));
            Some(v)
        } else {
            None
        }
    }

    /// Whether `label` is in the map, with this key and this value.
    pub fn contains(&self, label: &Label) -> (r: bool)
        ensures
            r == self@.contains(label@),
    {
        let (slot, found) = find_slot(&self.keys, label.key());
        proof {
            use_type_invariant(self);
            lemma_slot_decides_membership(self.keys.deep_view(), label@.0, slot as int, found);
        }
        if found {
            let r = self.values[slot].same(label.value());
            proof {
                if r {
                    assert(self@[slot as int] == label@);
                } else if self@.contains(label@) {
                    let k = choose|k: int| 0 <= k < self@.len() && self@[k] == label@;
                    assert(self.keys.deep_view()[k] == label@.0);
                    assert(self.keys.deep_view().index_of(label@.0) == slot);
                    crate::keys::lemma_sorted_no_duplicates(self.keys.deep_view());
                }
            }
            r
        } else {
            proof {
                if self@.contains(label@) {
                    let k = choose|k: int| 0 <= k < self@.len() && self@[k] == label@;
                    assert(self.keys.deep_view()[k] == label@.0);
                }
            }
            false
        }
    }

    /// The map from keys to values that the labels stand for.
    pub open spec fn map(&self) -> Map<Seq<char>, Scalar> {
        entries_map(self@)
    }

    /// Files `label`: its value takes the place of any value that stood under
    /// the same key.
    pub fn insert(&mut self, label: Label)
        ensures
            final(self).map() == old(self).map().insert(label@.0, label@.1),
            strictly_sorted(label_keys(final(self)@)),
    {
        let (slot, found) = find_slot(&self.keys, label.key());
        let ghost before = self@;
        proof {
            use_type_invariant(&*self);
            assert(entry_keys(before) =~= self.keys.deep_view());
            assert(label_keys(before) =~= self.keys.deep_view());
        }
        let mut taken = LabelMap::new();
        std::mem::swap(self, &mut taken);
        let LabelMap { mut keys, mut values } = taken;
        if found {
            values.set(slot, label.value);
        } else {
            keys.insert(slot, label.key);
            values.insert(slot, label.value);
        }
        let ghost after = Seq::new(keys@.len(), |i: int| (keys@[i]@, values@[i]@));
        proof {
            if found {
                lemma_update_entry(before, slot as int, label@.0, label@.1);
                assert(after =~= before.update(slot as int, label@));
                assert(keys.deep_view() =~= entry_keys(before));
            } else {
                lemma_insert_entry(before, slot as int, label@.0, label@.1);
                assert(after =~= before.insert(slot as int, label@));
                assert(keys.deep_view() =~= entry_keys(before).insert(slot as int, label@.0));
                assert forall|i: int| 0 <= i < keys.deep_view().len() implies is_label_key(
                    #[trigger] keys.deep_view()[i],
                ) by {
                    if i < slot {
                        assert(keys.deep_view()[i] == entry_keys(before)[i]);
                    } else if i > slot {
                        assert(keys.deep_view()[i] == entry_keys(before)[i - 1]);
                    }
                }
            }
            assert(entry_keys(after) =~= keys.deep_view());
            assert(label_keys(after) =~= keys.deep_view());
        }
        *self = LabelMap { keys, values };
        assert(self@ == after);
    }

    /// Files `label` unless a value already stands under its key; says whether it did.
    pub fn add(&mut self, label: Label) -> (added: bool)
        ensures
            added == !old(self).map().dom().contains(label@.0),
            added ==> final(self).map() == old(self).map().insert(label@.0, label@.1),
            !added ==> final(self).map() == old(self).map(),
            strictly_sorted(label_keys(final(self)@)),
    {
        let (slot, found) = find_slot(&self.keys, label.key());
        proof {
            use_type_invariant(&*self);
            assert(entry_keys(self@) =~= self.keys.deep_view());
            assert(label_keys(self@) =~= self.keys.deep_view());
            lemma_slot_decides_membership(self.keys.deep_view(), label@.0, slot as int, found);
        }
        if found {
            false
        } else {
            self.insert(label);
            true
        }
    }

    /// Takes away the label under `key`, if there is one; says whether there was.
    pub fn remove(&mut self, key: &str) -> (removed: bool)
        ensures
            removed == old(self).map().dom().contains(key@),
            final(self).map() == old(self).map().remove(key@),
            strictly_sorted(label_keys(final(self)@)),
    {
        let (slot, found) = find_slot(&self.keys, key);
        let ghost before = self@;
        proof {
            use_type_invariant(&*self);
            assert(entry_keys(before) =~= self.keys.deep_view());
            assert(label_keys(before) =~= self.keys.deep_view());
            lemma_slot_decides_membership(self.keys.deep_view(), key@, slot as int, found);
        }
        if !found {
            assert(self.map().remove(key@) =~= self.map());
            return false;
        }
        let mut taken = LabelMap::new();
        std::mem::swap(self, &mut taken);
        let LabelMap { mut keys, mut values } = taken;
        keys.remove(slot);
        values.remove(slot);
        let ghost after = Seq::new(keys@.len(), |i: int| (keys@[i]@, values@[i]@));
        proof {
            lemma_remove_entry(before, slot as int);
            assert(after =~= before.remove(slot as int));
            assert(entry_keys(after) =~= keys.deep_view());
            assert(label_keys(after) =~= keys.deep_view());
            assert(keys.deep_view() =~= entry_keys(before).remove(slot as int));
            assert forall|i: int| 0 <= i < keys.deep_view().len() implies is_label_key(
                #[trigger] keys.deep_view()[i],
            ) by {
                if i < slot {
                    assert(keys.deep_view()[i] == entry_keys(before)[i]);
                } else {
                    assert(keys.deep_view()[i] == entry_keys(before)[i + 1]);
                }
            }
        }
        *self = LabelMap { keys, values };
        assert(self@ == after);
        true
    }

    /// A label is in the map exactly if the map holds its value under its key.
    pub proof fn lemma_contains_is_mapped(entries: Seq<(Seq<char>, Scalar)>, label: (Seq<char>, Scalar))
        requires
            strictly_sorted(label_keys(entries)),
        ensures
            entries.contains(label) <==> (entries_map(entries).dom().contains(label.0)
                && entries_map(entries)[label.0] == label.1),
    {
        assert(entry_keys(entries) =~= label_keys(entries));
        crate::keys::lemma_sorted_no_duplicates(entry_keys(entries));
        if entries.contains(label) {
            let i = choose|i: int| 0 <= i < entries.len() && entries[i] == label;
            lemma_entry_is_mapped(entries, i);
        }
        if entries_map(entries).dom().contains(label.0) && entries_map(entries)[label.0]
            == label.1 {
            let i = entry_keys(entries).index_of(label.0);
            assert(entry_keys(entries)[i] == label.0);
            lemma_entry_is_mapped(entries, i);
            assert(entries[i] == label);
        }
    }

    /// A copy of the map.
    pub fn duplicate(&self) -> (r: LabelMap)
        ensures
            r@ == self@,
    {
        proof {
            use_type_invariant(self);
        }
        let mut keys: Vec<String> = Vec::new();
        let mut values: Vec<Primitive> = Vec::new();
        let mut i: usize = 0;
        while i < self.keys.len()
            invariant
                i <= self.keys@.len(),
                self.keys@.len() == self.values@.len(),
                keys@.len() == i,
                values@.len() == i,
                forall|k: int| 0 <= k < i ==> (#[trigger] keys@[k])@ == self.keys@[k]@,
                forall|k: int| 0 <= k < i ==> (#[trigger] values@[k])@ == self.values@[k]@,
            decreases self.keys@.len() - i,
        {
            keys.push(self.keys[i].clone());
            values.push(self.values[i].duplicate());
            i += 1;
        }
        assert(keys.deep_view() =~= self.keys.deep_view());
        let r = LabelMap { keys, values };
        assert(r@ =~= self@);
        r
    }
}

impl Clone for LabelMap {
    fn clone(&self) -> (r: LabelMap)
        ensures
            r@ == self@,
    {
        self.duplicate()
    }
}

} // verus!
