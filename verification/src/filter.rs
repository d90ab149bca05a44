//! Which papers a listing shows.
//!
//! A filter names what a paper must have: a piece of its file name, a piece of
//! its title, authors, tags and labels. A paper is selected only if it meets
//! every demand at once.

use crate::author::{Author, has_author, names_of};
use crate::label::Label;
use crate::paper::{LoadedPaper, LoadedView, PaperMeta, PaperView};
use crate::primitive::Scalar;
use crate::tag::Tag;
use crate::text::{contains, lowercase, occurs_in, opt_text, to_lowercase};
use vstd::prelude::*;

verus! {

/// What a listing asks of a paper.
#[derive(Debug, Clone, PartialEq, Eq)]
pub struct Filter {
    /// A text that the document's file name must hold, whatever the case of its letters.
    pub file: Option<String>,
    /// A text that the title must hold, whatever the case of its letters.
    pub title: Option<String>,
    /// Authors that must all be among the paper's.
    pub authors: Vec<Author>,
    /// Tags that must all be among the paper's.
    pub tags: Vec<Tag>,
    /// Labels that must all be among the paper's, each with its value.
    pub labels: Vec<Label>,
}

/// What a [`Filter`] holds.
pub struct FilterView {
    pub file: Option<Seq<char>>,
    pub title: Option<Seq<char>>,
    pub authors: Seq<Seq<char>>,
    pub tags: Seq<Seq<char>>,
    pub labels: Seq<(Seq<char>, Scalar)>,
}

impl View for Filter {
    type V = FilterView;

    open spec fn view(&self) -> FilterView {
        FilterView {
            file: opt_text(self.file),
            title: opt_text(self.title),
            authors: names_of(self.authors@),
            tags: self.tags@.map_values(|t: Tag| t@),
            labels: self.labels@.map_values(|l: Label| l@),
        }
    }
}

/// Whether `text` holds `piece`, the case of letters set aside.
pub open spec fn holds_text(text: Seq<char>, piece: Seq<char>) -> bool {
    occurs_in(lowercase(text), lowercase(piece))
}

/// Whether every item of `wanted` is among `have`.
pub open spec fn has_all<T>(have: Seq<T>, wanted: Seq<T>) -> bool {
    forall|i: int| 0 <= i < wanted.len() ==> have.contains(#[trigger] wanted[i])
}

/// Whether the paper `p` meets every demand of the filter `f`.
pub open spec fn selects(f: FilterView, p: PaperView) -> bool {
    &&& f.file matches Some(piece) ==> (p.filename matches Some(name) && holds_text(name, piece))
    &&& f.title matches Some(piece) ==> holds_text(p.title, piece)
    &&& has_all(p.authors, f.authors)
    &&& has_all(p.tags, f.tags)
    &&& has_all(p.labels, f.labels)
}

/// The filter that asks nothing.
pub open spec fn no_demands() -> FilterView {
    FilterView {
        file: None,
        title: None,
        authors: Seq::empty(),
        tags: Seq::empty(),
        labels: Seq::empty(),
    }
}

/// A filter that asks nothing selects every paper.
pub proof fn lemma_empty_filter_selects_all(p: PaperView)
    ensures
        selects(no_demands(), p),
{
}

/// A filter that asks only for tags selects exactly the papers whose tags
/// are a superset of them.
pub proof fn lemma_tag_filter_is_superset(tags: Seq<Seq<char>>, p: PaperView)
    ensures
        selects(FilterView { tags, ..no_demands() }, p) <==> tags.to_set().subset_of(
            p.tags.to_set(),
        ),
{
    let f = FilterView { tags, ..no_demands() };
    if selects(f, p) {
        assert forall|t: Seq<char>| tags.to_set().contains(t) implies p.tags.to_set().contains(
            t,
        ) by {
            let i = choose|i: int| 0 <= i < tags.len() && tags[i] == t;
            assert(p.tags.contains(tags[i]));
        }
    }
    if tags.to_set().subset_of(p.tags.to_set()) {
        assert forall|i: int| 0 <= i < tags.len() implies p.tags.contains(#[trigger] tags[i]) by {
            assert(tags.to_set().contains(tags[i]));
        }
    }
}

/// A filter selects conjunctively: asking for more never selects more.
pub proof fn lemma_more_demands_select_less(f: FilterView, extra: Seq<Seq<char>>, p: PaperView)
    requires
        selects(FilterView { tags: f.tags + extra, ..f }, p),
    ensures
        selects(f, p),
        selects(FilterView { tags: extra, ..f }, p),
{
    let all = f.tags + extra;
    assert forall|i: int| 0 <= i < f.tags.len() implies p.tags.contains(#[trigger] f.tags[i]) by {
        assert(all[i] == f.tags[i]);
    }
    assert forall|i: int| 0 <= i < extra.len() implies p.tags.contains(#[trigger] extra[i]) by {
        assert(all[f.tags.len() + i] == extra[i]);
    }
}

impl Filter {
    /// The filter that asks nothing.
    pub fn new() -> (r: Filter)
        ensures
            r@ == no_demands(),
    {
        let r = Filter {
            file: None,
            title: None,
            authors: Vec::new(),
            tags: Vec::new(),
            labels: Vec::new(),
        };
        assert(r@.authors =~= Seq::empty());
        assert(r@.tags =~= Seq::empty());
        assert(r@.labels =~= Seq::empty());
        r
    }

    /// Whether `text` holds `piece`, the case of letters set aside.
    pub fn text_matches(text: &str, piece: &str) -> (r: bool)
        ensures
            r == holds_text(text@, piece@),
    {
        let t = to_lowercase(text);
        let p = to_lowercase(piece);
        contains(t.as_str(), p.as_str())
    }

    /// Whether `paper` has every author the filter asks for.
    fn authors_match(&self, paper: &PaperMeta) -> (r: bool)
        ensures
            r == has_all(paper@.authors, self@.authors),
    {
        let mut i: usize = 0;
        while i < self.authors.len()
            invariant
                i <= self.authors@.len(),
                forall|k: int| 0 <= k < i ==> paper@.authors.contains(#[trigger] self@.authors[k]),
            decreases self.authors@.len() - i,
        {
            if !has_author(&paper.authors, self.authors[i].name()) {
                assert(self@.authors[i as int] == self.authors@[i as int]@);
                return false;
            }
            assert(self@.authors[i as int] == self.authors@[i as int]@);
            i += 1;
        }
        true
    }

    /// Whether `paper` has every tag the filter asks for.
    fn tags_match(&self, paper: &PaperMeta) -> (r: bool)
        ensures
            r == has_all(paper@.tags, self@.tags),
    {
        let mut i: usize = 0;
        while i < self.tags.len()
            invariant
                i <= self.tags@.len(),
                forall|k: int| 0 <= k < i ==> paper@.tags.contains(#[trigger] self@.tags[k]),
            decreases self.tags@.len() - i,
        {
            assert(self@.tags[i as int] == self.tags@[i as int]@);
            if !paper.tags.contains(&self.tags[i]) {
                return false;
            }
            i += 1;
        }
        true
    }

    /// Whether `paper` has every label the filter asks for.
    fn labels_match(&self, paper: &PaperMeta) -> (r: bool)
        ensures
            r == has_all(paper@.labels, self@.labels),
    {
        let mut i: usize = 0;
        while i < self.labels.len()
            invariant
                i <= self.labels@.len(),
                forall|k: int| 0 <= k < i ==> paper@.labels.contains(#[trigger] self@.labels[k]),
            decreases self.labels@.len() - i,
        {
            assert(self@.labels[i as int] == self.labels@[i as int]@);
            if !paper.labels.contains(&self.labels[i]) {
                return false;
            }
            i += 1;
        }
        true
    }

    /// Whether `paper` meets every demand of the filter.
    pub fn matches(&self, paper: &PaperMeta) -> (r: bool)
        ensures
            r == selects(self@, paper@),
    {
        if let Some(piece) = &self.file {
            match &paper.filename {
                Some(name) => {
                    if !Filter::text_matches(name.as_str(), piece.as_str()) {
                        return false;
                    }
                },
                None => {
                    return false;
                },
            }
        }
        if let Some(piece) = &self.title {
            if !Filter::text_matches(paper.title.as_str(), piece.as_str()) {
                return false;
            }
        }
        self.authors_match(paper) && self.tags_match(paper) && self.labels_match(paper)
    }

    /// The papers among `papers` that the filter selects, in their order.
    pub fn apply(&self, papers: Vec<LoadedPaper>) -> (r: Vec<LoadedPaper>)
        ensures
            loaded_views(r@) == selected(self@, loaded_views(papers@)),
    {
        let mut out: Vec<LoadedPaper> = Vec::new();
        let mut papers = papers;
        let ghost all = loaded_views(papers@);
        let ghost keep = |p: LoadedView| selects(self@, p.meta);
        let mut rest: Vec<LoadedPaper> = Vec::new();
        // Take the papers from the back, then put the kept ones back in order.
        while papers.len() > 0
            invariant
                loaded_views(papers@) + loaded_views(rest@).reverse() == all,
            decreases papers.len(),
        {
            let ghost before = loaded_views(papers@);
            let ghost rest_before = loaded_views(rest@);
            let p = papers.pop().unwrap();
            rest.push(p);
            proof {
                assert(loaded_views(papers@) == before.drop_last());
                assert(loaded_views(rest@) == rest_before.push(before.last()));
                assert(loaded_views(rest@).reverse() == seq![before.last()]
                    + rest_before.reverse());
                assert(before == before.drop_last() + seq![before.last()]);
            }
        }
        proof {
            assert(loaded_views(papers@) == Seq::<LoadedView>::empty());
            assert(loaded_views(rest@).reverse() == all);
            assert(loaded_views(out@) == Seq::<LoadedView>::empty());
            reveal(Seq::filter);
        }
        while rest.len() > 0
            invariant
                keep == |p: LoadedView| selects(self@, p.meta),
                all.len() >= rest@.len(),
                loaded_views(rest@).reverse() == all.skip(all.len() - rest@.len()),
                loaded_views(out@) == all.take(all.len() - rest@.len()).filter(keep),
            decreases rest.len(),
        {
            let ghost done = all.len() - rest@.len();
            let ghost rv = loaded_views(rest@);
            let p = rest.pop().unwrap();
            proof {
                assert(loaded_views(rest@) == rv.drop_last());
                assert(rv.reverse()[0] == rv.last());
                assert(p@ == rv.last());
                assert(p@ == all[done]);
                assert(rv.drop_last().reverse() == rv.reverse().drop_first());
                assert(all.skip(done).drop_first() == all.skip(done + 1));
                assert(all.take(done + 1) == all.take(done).push(all[done]));
                all.take(done).lemma_filter_push(all[done], keep);
            }
            if self.matches(&p.meta) {
                let ghost ov = loaded_views(out@);
                out.push(p);
                assert(loaded_views(out@) == ov.push(p@));
            }
        }
        assert(all.take(all.len() as int) == all);
        out
    }
}

/// What a run of loaded papers holds.
pub open spec fn loaded_views(papers: Seq<LoadedPaper>) -> Seq<LoadedView> {
    papers.map_values(|p: LoadedPaper| p@)
}

/// The papers of `papers` that `f` selects, in their order.
pub open spec fn selected(f: FilterView, papers: Seq<LoadedView>) -> Seq<LoadedView> {
    papers.filter(|p: LoadedView| selects(f, p.meta))
}

/// Every paper a filter selects meets its demands, and was among the papers offered.
pub proof fn lemma_selected_are_selected(f: FilterView, papers: Seq<LoadedView>, i: int)
    requires
        0 <= i < selected(f, papers).len(),
    ensures
        selects(f, selected(f, papers)[i].meta),
        papers.contains(selected(f, papers)[i]),
{
    let keep = |p: LoadedView| selects(f, p.meta);
    papers.lemma_filter_pred(keep, i);
    assert(papers.filter(keep).contains(selected(f, papers)[i]));
    papers.lemma_filter_contains_rev(keep, selected(f, papers)[i]);
}

/// Every paper offered that meets the demands of a filter is among those it selects.
pub proof fn lemma_selected_is_complete(f: FilterView, papers: Seq<LoadedView>, i: int)
    requires
        0 <= i < papers.len(),
        selects(f, papers[i].meta),
    ensures
        selected(f, papers).contains(papers[i]),
{
    let keep = |p: LoadedView| selects(f, p.meta);
    papers.lemma_filter_contains(keep, i);
}

/// A filter that asks nothing returns every paper offered.
pub proof fn lemma_empty_filter_keeps_all(papers: Seq<LoadedView>)
    ensures
        selected(no_demands(), papers) == papers,
    decreases papers.len(),
{
    reveal(Seq::filter);
    if papers.len() > 0 {
        lemma_empty_filter_keeps_all(papers.drop_last());
        assert(papers.drop_last().push(papers.last()) == papers);
    }
}

} // verus!
