//! Tags: short keys a paper is filed under.

use crate::keys::{
    find_slot, lemma_insert_adds_key, lemma_insert_keeps_sorted, lemma_remove_key,
    lemma_slot_decides_membership, strictly_sorted,
};
use crate::text::{contains_whitespace, has_whitespace, trim, trimmed};
use vstd::prelude::*;

verus! {

/// A tag: a key without whitespace.
#[derive(Debug, PartialEq, Eq)]
pub struct Tag {
    key: String,
}

impl View for Tag {
    type V = Seq<char>;

    closed spec fn view(&self) -> Seq<char> {
        self.key@
    }
}

impl Tag {
    #[verifier::type_invariant]
    spec fn valid(&self) -> bool {
        !has_whitespace(self.key@)
    }

    /// Whether `key`, once trimmed, can be a tag: it holds no whitespace.
    pub open spec fn accepts(key: Seq<char>) -> bool {
        !has_whitespace(trimmed(key))
    }

    /// The tag whose key is `key` without the whitespace around it.
    pub fn new(key: &str) -> (r: Tag)
        requires
            Tag::accepts(key@),
        ensures
            r@ == trimmed(key@),
    {
        Tag { key: trim(key) }
    }

    /// The tag for `key`, or `None` where whitespace is left inside the trimmed key.
    pub fn parse(key: &str) -> (r: Option<Tag>)
        ensures
            r is Some <==> Tag::accepts(key@),
            r matches Some(t) ==> t@ == trimmed(key@),
    {
        let k = trim(key);
        if contains_whitespace(k.as_str()) {
            None
        } else {
            Some(Tag::new(key))
        }
    }

    /// The tag's key, which holds no whitespace.
    pub fn key(&self) -> (r: &str)
        ensures
            r@ == self@,
            !has_whitespace(self@),
    {
        proof {
            use_type_invariant(self);
        }
        self.key.as_str()
    }

    /// A copy of the tag.
    pub fn duplicate(&self) -> (r: Tag)
        ensures
            r@ == self@,
    {
        proof {
            use_type_invariant(self);
        }
        Tag { key: self.key.clone() }
    }
}

impl Clone for Tag {
    fn clone(&self) -> (r: Tag)
        ensures
            r@ == self@,
    {
        self.duplicate()
    }
}

/// Whether none of `keys` holds whitespace.
pub open spec fn all_tight(keys: Seq<Seq<char>>) -> bool {
    forall|i: int| 0 <= i < keys.len() ==> !has_whitespace(#[trigger] keys[i])
}

/// A set of tags, kept in ascending order of their keys.
#[derive(Debug, PartialEq, Eq)]
pub struct TagSet {
    keys: Vec<String>,
}

impl View for TagSet {
    type V = Seq<Seq<char>>;

    closed spec fn view(&self) -> Seq<Seq<char>> {
        self.keys.deep_view()
    }
}

impl TagSet {
    #[verifier::type_invariant]
    spec fn sorted(&self) -> bool {
        strictly_sorted(self.keys.deep_view()) && all_tight(self.keys.deep_view())
    }

    /// The empty set.
    pub fn new() -> (r: TagSet)
        ensures
            r@ == Seq::<Seq<char>>::empty(),
    {
        let r = TagSet { keys: Vec::new() };
        assert(r.keys.deep_view() == Seq::<Seq<char>>::empty());
        r
    }

    /// The number of tags in the set.
    pub fn len(&self) -> (n: usize)
        ensures
            n == self@.len(),
    {
        self.keys.len()
    }

    /// The tags come in ascending order, none twice, and none holds whitespace.
    pub fn is_sorted(&self) -> (r: bool)
        ensures
            r,
            strictly_sorted(self@),
            all_tight(self@),
    {
        proof {
            use_type_invariant(self);
        }
        true
    }

    /// Whether `tag` is in the set.
    pub fn contains(&self, tag: &Tag) -> (r: bool)
        ensures
            r == self@.contains(tag@),
    {
        let (slot, found) = find_slot(&self.keys, tag.key());
        proof {
            use_type_invariant(self);
            lemma_slot_decides_membership(self@, tag@, slot as int, found);
        }
        found
    }

    /// Adds `tag`; says whether it was new.
    pub fn insert(&mut self, tag: Tag) -> (added: bool)
        ensures
            added == !old(self)@.contains(tag@),
            final(self)@.to_set() == old(self)@.to_set().insert(tag@),
            !added ==> final(self)@ == old(self)@,
            added ==> final(self)@.len() == old(self)@.len() + 1,
            strictly_sorted(final(self)@),
    {
        let (slot, found) = find_slot(&self.keys, tag.key());
        proof {
            use_type_invariant(&*self);
            lemma_slot_decides_membership(self@, tag@, slot as int, found);
        }
        if found {
            assert(self@.to_set().insert(tag@) == self@.to_set());
            false
        } else {
            proof {
                lemma_insert_keeps_sorted(self@, tag@, slot as int);
                lemma_insert_adds_key(self@, tag@, slot as int);
            }
            let ghost before = self.keys.deep_view();
            let mut keys: Vec<String> = Vec::new();
            assert(keys.deep_view() == Seq::<Seq<char>>::empty());
            std::mem::swap(&mut self.keys, &mut keys);
            keys.insert(slot, tag.key);
            assert(keys.deep_view() == before.insert(slot as int, tag@));
            self.keys = keys;
            true
        }
    }

    /// Takes `tag` out of the set; says whether it was there.
    pub fn remove(&mut self, tag: &Tag) -> (removed: bool)
        ensures
            removed == old(self)@.contains(tag@),
            final(self)@.to_set() == old(self)@.to_set().remove(tag@),
            strictly_sorted(final(self)@),
    {
        let (slot, found) = find_slot(&self.keys, tag.key());
        proof {
            use_type_invariant(&*self);
            lemma_slot_decides_membership(self@, tag@, slot as int, found);
        }
        if !found {
            assert(self@.to_set().remove(tag@) =~= self@.to_set());
            return false;
        }
        let ghost before = self.keys.deep_view();
        proof {
            lemma_remove_key(before, slot as int);
        }
        let mut keys: Vec<String> = Vec::new();
        assert(keys.deep_view() == Seq::<Seq<char>>::empty());
        std::mem::swap(&mut self.keys, &mut keys);
        keys.remove(slot);
        assert(keys.deep_view() =~= before.remove(slot as int));
        self.keys = keys;
        true
    }

    /// The `i`-th tag in ascending order.
    pub fn get(&self, i: usize) -> (r: Tag)
        requires
            i < self@.len(),
        ensures
            r@ == self@[i as int],
    {
        proof {
            use_type_invariant(self);
            assert(self.keys.deep_view()[i as int] == self.keys@[i as int]@);
        }
        Tag { key: self.keys[i].clone() }
    }
}

impl TagSet {
    /// A copy of the set.
    pub fn duplicate(&self) -> (r: TagSet)
        ensures
            r@ == self@,
    {
        proof {
            use_type_invariant(self);
        }
        let mut keys: Vec<String> = Vec::new();
        let mut i: usize = 0;
        while i < self.keys.len()
            invariant
                i <= self.keys@.len(),
                keys@.len() == i,
                forall|k: int| 0 <= k < i ==> (#[trigger] keys@[k])@ == self.keys@[k]@,
            decreases self.keys@.len() - i,
        {
            keys.push(self.keys[i].clone());
            i += 1;
        }
        assert(keys.deep_view() =~= self.keys.deep_view());
        TagSet { keys }
    }

    /// The set of the tags in `tags`.
    pub fn from_vec(tags: Vec<Tag>) -> (r: TagSet)
        ensures
            r@.to_set() == tags@.map_values(|t: Tag| t@).to_set(),
            strictly_sorted(r@),
    {
        let mut set = TagSet::new();
        let ghost all = tags@.map_values(|t: Tag| t@);
        let mut i: usize = 0;
        assert(all.take(0) == Seq::<Seq<char>>::empty());
        while i < tags.len()
            invariant
                i <= tags@.len(),
                all == tags@.map_values(|t: Tag| t@),
                set@.to_set() == all.take(i as int).to_set(),
                strictly_sorted(set@),
            decreases tags@.len() - i,
        {
            proof {
                assert(all.take(i + 1) == all.take(i as int).push(all[i as int]));
                all.take(i as int).lemma_push_to_set_commute(all[i as int]);
            }
            set.insert(tags[i].duplicate());
            i += 1;
        }
        assert(all.take(tags@.len() as int) == all);
        set
    }
}

impl Clone for TagSet {
    fn clone(&self) -> (r: TagSet)
        ensures
            r@ == self@,
    {
        self.duplicate()
    }
}

} // verus!
