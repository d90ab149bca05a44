//! Stable sorting: the order in which a listing shows its rows.

use crate::filter::loaded_views;
use crate::paper::{LoadedPaper, LoadedView};
use crate::text::{lemma_lex_total, lemma_lex_transitive, lex_lt, rank, Rank};
use vstd::prelude::*;

verus! {

/// A key by which rows are sorted. Keys of which neither sorts before the
/// other are level.
pub trait SortKey: Sized {
    /// Whether `self` sorts strictly before `other`.
    spec fn sorts_before(&self, other: &Self) -> bool;

    /// Whether `self` sorts strictly before `other`.
    fn before(&self, other: &Self) -> (r: bool)
        ensures
            r == self.sorts_before(other),
    ;

    /// The order never runs both ways, and what sorts before a key sorts
    /// before everything that the key does not sort after.
    proof fn order_laws(a: &Self, b: &Self, c: &Self)
        ensures
            a.sorts_before(b) ==> !b.sorts_before(a),
            a.sorts_before(b) && !c.sorts_before(b) ==> a.sorts_before(c),
    ;
}

impl SortKey for i64 {
    open spec fn sorts_before(&self, other: &i64) -> bool {
        *self < *other
    }

    fn before(&self, other: &i64) -> (r: bool) {
        *self < *other
    }

    proof fn order_laws(a: &i64, b: &i64, c: &i64) {
    }
}

impl SortKey for usize {
    open spec fn sorts_before(&self, other: &usize) -> bool {
        *self < *other
    }

    fn before(&self, other: &usize) -> (r: bool) {
        *self < *other
    }

    proof fn order_laws(a: &usize, b: &usize, c: &usize) {
    }
}

impl SortKey for String {
    open spec fn sorts_before(&self, other: &String) -> bool {
        lex_lt(self@, other@)
    }

    fn before(&self, other: &String) -> (r: bool) {
        match rank(self.as_str(), other.as_str()) {
            Rank::Before => true,
            _ => false,
        }
    }

    proof fn order_laws(a: &String, b: &String, c: &String) {
        lemma_lex_total(a@, b@);
        lemma_lex_total(c@, b@);
        if lex_lt(a@, b@) && !lex_lt(c@, b@) {
            if c@ != b@ {
                lemma_lex_transitive(a@, b@, c@);
            }
        }
    }
}

/// Whether the row at `a` comes before the row at `b` in a stable sort by
/// `keys`: its key sorts first, or the keys are level and it came first.
pub open spec fn comes_before<K: SortKey>(keys: Seq<K>, a: int, b: int) -> bool {
    keys[a].sorts_before(&keys[b]) || (!keys[b].sorts_before(&keys[a]) && a < b)
}

/// Whether `order` lists the positions of `keys` as a stable sort puts them:
/// every entry is a position, and each comes before all later ones.
pub open spec fn is_stable_order<K: SortKey>(keys: Seq<K>, order: Seq<usize>) -> bool {
    &&& order.len() == keys.len()
    &&& forall|i: int| 0 <= i < order.len() ==> (#[trigger] order[i]) < keys.len()
    &&& forall|i: int, j: int|
        0 <= i < j < order.len() ==> comes_before(keys, #[trigger] order[i] as int, #[trigger] order[j] as int)
}

/// The positions of `keys` in the order of a stable sort: by key, and among
/// level keys by position.
pub fn stable_order<K: SortKey>(keys: &Vec<K>) -> (order: Vec<usize>)
    ensures
        is_stable_order(keys@, order@),
{
    let mut order: Vec<usize> = Vec::new();
    let mut n: usize = 0;
    while n < keys.len()
        invariant
            n <= keys.len(),
            order@.len() == n,
            forall|i: int| 0 <= i < n ==> (#[trigger] order@[i]) < n,
            forall|i: int, j: int|
                0 <= i < j < n ==> comes_before(
                    keys@,
                    #[trigger] order@[i] as int,
                    #[trigger] order@[j] as int,
                ),
        decreases keys.len() - n,
    {
        let mut p: usize = 0;
        while p < order.len() && !keys[n].before(&keys[order[p]])
            invariant
                p <= order@.len(),
                order@.len() == n,
                n < keys.len(),
                forall|i: int| 0 <= i < n ==> (#[trigger] order@[i]) < n,
                forall|i: int| 0 <= i < p ==> !keys@[n as int].sorts_before(&keys@[order@[i] as int]),
            decreases order@.len() - p,
        {
            p += 1;
        }
        let ghost before = order@;
        order.insert(p, n);
        proof {
            let after = order@;
            assert forall|i: int, j: int| 0 <= i < j < n + 1 implies comes_before(
                keys@,
                #[trigger] after[i] as int,
                #[trigger] after[j] as int,
            ) by {
                if j < p {
                    assert(after[i] == before[i] && after[j] == before[j]);
                } else if j == p {
                    assert(after[i] == before[i]);
                    assert(before[i] < n);
                } else if i == p {
                    assert(after[j] == before[j - 1]);
                    if j - 1 > p {
                        assert(comes_before(keys@, before[p as int] as int, before[j - 1] as int));
                        K::order_laws(
                            &keys@[before[p as int] as int],
                            &keys@[before[j - 1] as int],
                            &keys@[before[p as int] as int],
                        );
                    }
                    K::order_laws(
                        &keys@[n as int],
                        &keys@[before[p as int] as int],
                        &keys@[before[j - 1] as int],
                    );
                    K::order_laws(
                        &keys@[n as int],
                        &keys@[before[j - 1] as int],
                        &keys@[n as int],
                    );
                } else if i < p {
                    assert(after[i] == before[i] && after[j] == before[j - 1]);
                } else {
                    assert(after[i] == before[i - 1] && after[j] == before[j - 1]);
                }
            }
            assert forall|i: int| 0 <= i < n + 1 implies (#[trigger] after[i]) < n + 1 by {
                if i < p {
                    assert(after[i] == before[i]);
                } else if i > p {
                    assert(after[i] == before[i - 1]);
                }
            }
        }
        n += 1;
    }
    order
}

/// Field to sort entries by.
#[derive(Clone, Copy, Debug, PartialEq, Eq, Structural)]
pub enum SortBy {
    /// Sort by title.
    Title,
    /// Sort by creation.
    CreatedAt,
    /// Sort by modification.
    ModifiedAt,
}

impl Default for SortBy {
    fn default() -> (r: SortBy)
        ensures
            r == SortBy::Title,
    {
        SortBy::Title
    }
}

/// Whether the paper `a` sorts strictly before `b` by the field `by`:
/// titles in the order of `str`, times from the earliest on.
pub open spec fn paper_sorts_before(by: SortBy, a: LoadedView, b: LoadedView) -> bool {
    match by {
        SortBy::Title => lex_lt(a.meta.title, b.meta.title),
        SortBy::CreatedAt => a.meta.created_at < b.meta.created_at,
        SortBy::ModifiedAt => a.meta.modified_at < b.meta.modified_at,
    }
}

/// Whether `sorted` holds the papers of `papers` as a stable sort by `by`
/// puts them: `order` names for each place the paper that stands there, a
/// paper comes before another if it sorts before it, and papers that are
/// level keep the order they had.
pub open spec fn is_sorted_listing(
    by: SortBy,
    papers: Seq<LoadedView>,
    order: Seq<usize>,
    sorted: Seq<LoadedView>,
) -> bool {
    &&& sorted.len() == papers.len()
    &&& order.len() == papers.len()
    &&& forall|i: int| 0 <= i < order.len() ==> (#[trigger] order[i]) < papers.len()
    &&& forall|i: int| 0 <= i < sorted.len() ==> #[trigger] sorted[i] == papers[order[i] as int]
    &&& forall|i: int, j: int|
        0 <= i < j < order.len() ==> {
            ||| paper_sorts_before(by, papers[#[trigger] order[i] as int], papers[#[trigger] order[j] as int])
            ||| (!paper_sorts_before(by, papers[order[j] as int], papers[order[i] as int])
                && order[i] < order[j])
        }
}

/// The papers in the order of a stable sort by `by`, with the position that
/// each had before.
pub fn sort_papers(papers: &Vec<LoadedPaper>, by: SortBy) -> (r: (Vec<LoadedPaper>, Vec<usize>))
    ensures
        is_sorted_listing(by, loaded_views(papers@), r.1@, loaded_views(r.0@)),
{
    let order = match by {
        SortBy::Title => {
            let mut keys: Vec<String> = Vec::new();
            let mut i: usize = 0;
            while i < papers.len()
                invariant
                    i <= papers.len(),
                    keys@.len() == i,
                    forall|k: int| 0 <= k < i ==> (#[trigger] keys@[k])@ == papers@[k]@.meta.title,
                decreases papers.len() - i,
            {
                keys.push(papers[i].meta.title.clone());
                i += 1;
            }
            let order = stable_order(&keys);
            proof {
                assert forall|i: int, j: int| 0 <= i < j < order@.len() implies {
                    ||| paper_sorts_before(
                        by,
                        loaded_views(papers@)[#[trigger] order@[i] as int],
                        loaded_views(papers@)[#[trigger] order@[j] as int],
                    )
                    ||| (!paper_sorts_before(
                        by,
                        loaded_views(papers@)[order@[j] as int],
                        loaded_views(papers@)[order@[i] as int],
                    ) && order@[i] < order@[j])
                } by {
                    assert(comes_before(keys@, order@[i] as int, order@[j] as int));
                }
            }
            order
        },
        SortBy::CreatedAt => {
            let mut keys: Vec<i64> = Vec::new();
            let mut i: usize = 0;
            while i < papers.len()
                invariant
                    i <= papers.len(),
                    keys@.len() == i,
                    forall|k: int| 0 <= k < i ==> #[trigger] keys@[k] == papers@[k]@.meta.created_at,
                decreases papers.len() - i,
            {
                keys.push(papers[i].meta.created_at);
                i += 1;
            }
            let order = stable_order(&keys);
            proof {
                assert forall|i: int, j: int| 0 <= i < j < order@.len() implies {
                    ||| paper_sorts_before(
                        by,
                        loaded_views(papers@)[#[trigger] order@[i] as int],
                        loaded_views(papers@)[#[trigger] order@[j] as int],
                    )
                    ||| (!paper_sorts_before(
                        by,
                        loaded_views(papers@)[order@[j] as int],
                        loaded_views(papers@)[order@[i] as int],
                    ) && order@[i] < order@[j])
                } by {
                    assert(comes_before(keys@, order@[i] as int, order@[j] as int));
                }
            }
            order
        },
        SortBy::ModifiedAt => {
            let mut keys: Vec<i64> = Vec::new();
            let mut i: usize = 0;
            while i < papers.len()
                invariant
                    i <= papers.len(),
                    keys@.len() == i,
                    forall|k: int| 0 <= k < i ==> #[trigger] keys@[k] == papers@[k]@.meta.modified_at,
                decreases papers.len() - i,
            {
                keys.push(papers[i].meta.modified_at);
                i += 1;
            }
            let order = stable_order(&keys);
            proof {
                assert forall|i: int, j: int| 0 <= i < j < order@.len() implies {
                    ||| paper_sorts_before(
                        by,
                        loaded_views(papers@)[#[trigger] order@[i] as int],
                        loaded_views(papers@)[#[trigger] order@[j] as int],
                    )
                    ||| (!paper_sorts_before(
                        by,
                        loaded_views(papers@)[order@[j] as int],
                        loaded_views(papers@)[order@[i] as int],
                    ) && order@[i] < order@[j])
                } by {
                    assert(comes_before(keys@, order@[i] as int, order@[j] as int));
                }
            }
            order
        },
    };
    let mut sorted: Vec<LoadedPaper> = Vec::new();
    let mut i: usize = 0;
    while i < order.len()
        invariant
            i <= order@.len(),
            order@.len() == papers@.len(),
            forall|k: int| 0 <= k < order@.len() ==> (#[trigger] order@[k]) < papers@.len(),
            sorted@.len() == i,
            forall|k: int| 0 <= k < i ==> (#[trigger] sorted@[k])@ == papers@[order@[k] as int]@,
        decreases order@.len() - i,
    {
        sorted.push(papers[order[i]].duplicate());
        i += 1;
    }
    (sorted, order)
}

} // verus!
