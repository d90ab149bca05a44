//! Changing what a paper is filed under: its tags, labels and authors.

use crate::author::{Author, has_author, names_of};
use crate::keys::{entries_map, strictly_sorted};
use crate::label::{Label, label_keys};
use crate::paper::{PaperMeta, PaperView};
use crate::primitive::Scalar;
use crate::tag::Tag;
use vstd::prelude::*;

verus! {

/// The keys of a list of tags, in order.
pub open spec fn tag_keys(tags: Seq<Tag>) -> Seq<Seq<char>> {
    tags.map_values(|t: Tag| t@)
}

/// What a list of labels holds, in order.
pub open spec fn label_views(labels: Seq<Label>) -> Seq<(Seq<char>, Scalar)> {
    labels.map_values(|l: Label| l@)
}

/// The labels after `labels` have been added in order: each goes under its
/// key unless a value already stands there.
pub open spec fn with_labels(
    have: Map<Seq<char>, Scalar>,
    labels: Seq<(Seq<char>, Scalar)>,
) -> Map<Seq<char>, Scalar>
    decreases labels.len(),
{
    if labels.len() == 0 {
        have
    } else {
        let before = with_labels(have, labels.drop_last());
        if before.dom().contains(labels.last().0) {
            before
        } else {
            before.insert(labels.last().0, labels.last().1)
        }
    }
}

/// The authors after `names` have been added in order: each goes to the end
/// unless it is there already.
pub open spec fn with_authors(have: Seq<Seq<char>>, names: Seq<Seq<char>>) -> Seq<Seq<char>>
    decreases names.len(),
{
    if names.len() == 0 {
        have
    } else {
        let before = with_authors(have, names.drop_last());
        if before.contains(names.last()) {
            before
        } else {
            before.push(names.last())
        }
    }
}

/// The authors without those named in `names`, in their order.
pub open spec fn without_authors(have: Seq<Seq<char>>, names: Seq<Seq<char>>) -> Seq<Seq<char>> {
    have.filter(|n: Seq<char>| !names.contains(n))
}

impl PaperMeta {
    /// Files the paper under each of `tags` as well.
    pub fn add_tags(&mut self, tags: &Vec<Tag>)
        ensures
            final(self)@.tags.to_set() == old(self)@.tags.to_set().union(tag_keys(tags@).to_set()),
            strictly_sorted(final(self)@.tags),
            final(self)@ == (PaperView { tags: final(self)@.tags, ..old(self)@ }),
    {
        let ghost start = self@;
        let ghost all = tag_keys(tags@);
        let mut i: usize = 0;
        let _ = self.tags.is_sorted();
        assert(all.take(0).to_set() =~= Set::<Seq<char>>::empty());
        assert(start.tags.to_set().union(Set::empty()) =~= start.tags.to_set());
        while i < tags.len()
            invariant
                i <= tags@.len(),
                all == tag_keys(tags@),
                self@.tags.to_set() == start.tags.to_set().union(all.take(i as int).to_set()),
                strictly_sorted(self@.tags),
                self@ == (PaperView { tags: self@.tags, ..start }),
            decreases tags@.len() - i,
        {
            proof {
                assert(all.take(i + 1) == all.take(i as int).push(all[i as int]));
                all.take(i as int).lemma_push_to_set_commute(all[i as int]);
                assert(start.tags.to_set().union(all.take(i as int).to_set()).insert(all[i as int])
                    =~= start.tags.to_set().union(all.take(i as int).to_set().insert(
                    all[i as int],
                )));
            }
            self.tags.insert(tags[i].duplicate());
            i += 1;
        }
        assert(all.take(tags@.len() as int) == all);
    }

    /// Files the paper under none of `tags` any longer.
    pub fn remove_tags(&mut self, tags: &Vec<Tag>)
        ensures
            final(self)@.tags.to_set() == old(self)@.tags.to_set().difference(
                tag_keys(tags@).to_set(),
            ),
            strictly_sorted(final(self)@.tags),
            final(self)@ == (PaperView { tags: final(self)@.tags, ..old(self)@ }),
    {
        let ghost start = self@;
        let ghost all = tag_keys(tags@);
        let mut i: usize = 0;
        let _ = self.tags.is_sorted();
        assert(all.take(0).to_set() =~= Set::<Seq<char>>::empty());
        assert(start.tags.to_set().difference(Set::empty()) =~= start.tags.to_set());
        while i < tags.len()
            invariant
                i <= tags@.len(),
                all == tag_keys(tags@),
                self@.tags.to_set() == start.tags.to_set().difference(all.take(i as int).to_set()),
                strictly_sorted(self@.tags),
                self@ == (PaperView { tags: self@.tags, ..start }),
            decreases tags@.len() - i,
        {
            proof {
                assert(all.take(i + 1) == all.take(i as int).push(all[i as int]));
                all.take(i as int).lemma_push_to_set_commute(all[i as int]);
                assert(start.tags.to_set().difference(all.take(i as int).to_set()).remove(
                    all[i as int],
                ) =~= start.tags.to_set().difference(
                    all.take(i as int).to_set().insert(all[i as int]),
                ));
            }
            self.tags.remove(&tags[i]);
            i += 1;
        }
        assert(all.take(tags@.len() as int) == all);
    }

    /// Gives the paper each of `labels` whose key it does not have yet.
    pub fn add_labels(&mut self, labels: &Vec<Label>)
        ensures
            entries_map(final(self)@.labels) == with_labels(
                entries_map(old(self)@.labels),
                label_views(labels@),
            ),
            strictly_sorted(label_keys(final(self)@.labels)),
            final(self)@ == (PaperView { labels: final(self)@.labels, ..old(self)@ }),
    {
        let ghost start = self@;
        let ghost all = label_views(labels@);
        let mut i: usize = 0;
        let _ = self.labels.is_sorted();
        assert(all.take(0) == Seq::<(Seq<char>, Scalar)>::empty());
        while i < labels.len()
            invariant
                i <= labels@.len(),
                all == label_views(labels@),
                entries_map(self@.labels) == with_labels(
                    entries_map(start.labels),
                    all.take(i as int),
                ),
                strictly_sorted(label_keys(self@.labels)),
                self@ == (PaperView { labels: self@.labels, ..start }),
            decreases labels@.len() - i,
        {
            proof {
                assert(all.take(i + 1).drop_last() == all.take(i as int));
                assert(all.take(i + 1).last() == labels@[i as int]@);
            }
            self.labels.add(labels[i].duplicate());
            i += 1;
        }
        assert(all.take(labels@.len() as int) == all);
    }

    /// Takes the labels under each of `keys` away from the paper.
    pub fn remove_labels(&mut self, keys: &Vec<Tag>)
        ensures
            entries_map(final(self)@.labels) == entries_map(old(self)@.labels).remove_keys(
                tag_keys(keys@).to_set(),
            ),
            strictly_sorted(label_keys(final(self)@.labels)),
            final(self)@ == (PaperView { labels: final(self)@.labels, ..old(self)@ }),
    {
        let ghost start = self@;
        let ghost all = tag_keys(keys@);
        let mut i: usize = 0;
        let _ = self.labels.is_sorted();
        assert(all.take(0).to_set() =~= Set::<Seq<char>>::empty());
        assert(entries_map(start.labels).remove_keys(Set::empty()) =~= entries_map(start.labels));
        while i < keys.len()
            invariant
                i <= keys@.len(),
                all == tag_keys(keys@),
                entries_map(self@.labels) == entries_map(start.labels).remove_keys(
                    all.take(i as int).to_set(),
                ),
                strictly_sorted(label_keys(self@.labels)),
                self@ == (PaperView { labels: self@.labels, ..start }),
            decreases keys@.len() - i,
        {
            proof {
                assert(all.take(i + 1) == all.take(i as int).push(all[i as int]));
                all.take(i as int).lemma_push_to_set_commute(all[i as int]);
                assert(entries_map(start.labels).remove_keys(all.take(i as int).to_set()).remove(
                    all[i as int],
                ) =~= entries_map(start.labels).remove_keys(
                    all.take(i as int).to_set().insert(all[i as int]),
                ));
            }
            self.labels.remove(keys[i].key());
            i += 1;
        }
        assert(all.take(keys@.len() as int) == all);
    }

    /// Adds each of `authors` that the paper does not have yet, at the end.
    pub fn add_authors(&mut self, authors: &Vec<Author>)
        ensures
            final(self)@.authors == with_authors(old(self)@.authors, names_of(authors@)),
            final(self)@ == (PaperView { authors: final(self)@.authors, ..old(self)@ }),
    {
        let ghost start = self@;
        let ghost all = names_of(authors@);
        let mut i: usize = 0;
        assert(all.take(0) == Seq::<Seq<char>>::empty());
        while i < authors.len()
            invariant
                i <= authors@.len(),
                all == names_of(authors@),
                self@.authors == with_authors(start.authors, all.take(i as int)),
                self@ == (PaperView { authors: self@.authors, ..start }),
            decreases authors@.len() - i,
        {
            proof {
                assert(all.take(i + 1).drop_last() == all.take(i as int));
                assert(all.take(i + 1).last() == authors@[i as int]@);
            }
            if !has_author(&self.authors, authors[i].name()) {
                let ghost before = names_of(self.authors@);
                let a = authors[i].duplicate();
                self.authors.push(a);
                assert(names_of(self.authors@) =~= before.push(a@));
            }
            i += 1;
        }
        assert(all.take(authors@.len() as int) == all);
    }

    /// Takes every author named in `authors` away from the paper.
    pub fn remove_authors(&mut self, authors: &Vec<Author>)
        ensures
            final(self)@.authors == without_authors(old(self)@.authors, names_of(authors@)),
            final(self)@ == (PaperView { authors: final(self)@.authors, ..old(self)@ }),
    {
        let ghost start = self@;
        let ghost gone = names_of(authors@);
        let ghost keep = |n: Seq<char>| !gone.contains(n);
        let mut kept: Vec<Author> = Vec::new();
        let mut i: usize = 0;
        proof {
            reveal(Seq::filter);
            assert(start.authors.take(0) == Seq::<Seq<char>>::empty());
            assert(names_of(kept@) =~= Seq::<Seq<char>>::empty());
        }
        while i < self.authors.len()
            invariant
                i <= self.authors@.len(),
                self@ == start,
                gone == names_of(authors@),
                keep == |n: Seq<char>| !gone.contains(n),
                names_of(kept@) == start.authors.take(i as int).filter(keep),
            decreases self.authors@.len() - i,
        {
            proof {
                let have = start.authors;
                assert(have.take(i + 1) == have.take(i as int).push(have[i as int]));
                have.take(i as int).lemma_filter_push(have[i as int], keep);
                assert(have[i as int] == self.authors@[i as int]@);
            }
            if !has_author(authors, self.authors[i].name()) {
                let ghost before = names_of(kept@);
                let a = self.authors[i].duplicate();
                kept.push(a);
                assert(names_of(kept@) =~= before.push(a@));
            }
            i += 1;
        }
        assert(start.authors.take(self.authors@.len() as int) == start.authors);
        self.authors = kept;
    }
}

} // verus!
