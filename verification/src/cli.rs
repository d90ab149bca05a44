//! What the commands decide, apart from what they read and print.

use crate::filter::loaded_views;
use crate::label::{Label, LabelMap};
use crate::paper::{LoadedPaper, LoadedView, PaperMeta, PaperView};
use crate::primitive::Scalar;
use crate::review::reviewable;
use crate::table::{counted, TableCount};
use crate::text::{append, join, joined_by, debug_quoted, quoted, texts_of};
use vstd::prelude::*;

verus! {

/// Output style for lists.
#[derive(Clone, Copy, Debug, PartialEq, Eq, Structural)]
pub enum OutputStyle {
    /// Pretty table format.
    Table,
    /// Json format.
    Json,
    /// Yaml format.
    Yaml,
}

impl Default for OutputStyle {
    fn default() -> (r: OutputStyle)
        ensures
            r == OutputStyle::Table,
    {
        OutputStyle::Table
    }
}

/// The map that filing `labels` in order gives: under each key the value of
/// the last label with that key.
pub open spec fn filed(labels: Seq<(Seq<char>, Scalar)>) -> Map<Seq<char>, Scalar>
    decreases labels.len(),
{
    if labels.len() == 0 {
        Map::empty()
    } else {
        filed(labels.drop_last()).insert(labels.last().0, labels.last().1)
    }
}

/// The labels of a new paper: each of `labels` filed under its key, a later
/// one in place of an earlier one with the same key.
pub fn labels_map(labels: &Vec<Label>) -> (r: LabelMap)
    ensures
        r.map() == filed(labels@.map_values(|l: Label| l@)),
{
    let mut map = LabelMap::new();
    let ghost all = labels@.map_values(|l: Label| l@);
    let mut n: usize = 0;
    assert(all.take(0) == Seq::<(Seq<char>, Scalar)>::empty());
    assert(map.map() =~= Map::<Seq<char>, Scalar>::empty());
    while n < labels.len()
        invariant
            n <= labels@.len(),
            all == labels@.map_values(|l: Label| l@),
            map.map() == filed(all.take(n as int)),
        decreases labels@.len() - n,
    {
        proof {
            assert(all.take(n + 1).drop_last() == all.take(n as int));
            assert(all.take(n + 1).last() == labels@[n as int]@);
        }
        map.insert(labels[n].duplicate());
        n += 1;
    }
    assert(all.take(labels@.len() as int) == all);
    map
}

/// The papers among `papers` that are due for review at `now`, in their order.
pub open spec fn due(papers: Seq<LoadedView>, now: i64) -> Seq<LoadedView> {
    papers.filter(|p: LoadedView| reviewable(p.meta, now))
}

/// The papers among `papers` that are due for review at `now`, in their order.
pub fn reviewable_papers(papers: &Vec<LoadedPaper>, now: i64) -> (r: Vec<LoadedPaper>)
    ensures
        loaded_views(r@) == due(loaded_views(papers@), now),
{
    let mut out: Vec<LoadedPaper> = Vec::new();
    let ghost all = loaded_views(papers@);
    let ghost keep = |p: LoadedView| reviewable(p.meta, now);
    let mut i: usize = 0;
    proof {
        reveal(Seq::filter);
        assert(all.take(0) == Seq::<LoadedView>::empty());
        assert(loaded_views(out@) =~= Seq::<LoadedView>::empty());
    }
    while i < papers.len()
        invariant
            i <= papers@.len(),
            all == loaded_views(papers@),
            keep == |p: LoadedView| reviewable(p.meta, now),
            loaded_views(out@) == all.take(i as int).filter(keep),
        decreases papers@.len() - i,
    {
        proof {
            assert(all.take(i + 1) == all.take(i as int).push(all[i as int]));
            all.take(i as int).lemma_filter_push(all[i as int], keep);
        }
        if papers[i].meta.is_reviewable(now) {
            let ghost before = loaded_views(out@);
            let p = papers[i].duplicate();
            out.push(p);
            assert(loaded_views(out@) =~= before.push(p@));
        }
        i += 1;
    }
    assert(all.take(papers@.len() as int) == all);
    out
}

/// The counts after every text of `values` has been counted once, in order.
pub open spec fn counted_all(counts: Map<Seq<char>, usize>, values: Seq<Seq<char>>) -> Map<
    Seq<char>,
    usize,
>
    decreases values.len(),
{
    if values.len() == 0 {
        counts
    } else {
        counted(counted_all(counts, values.drop_last()), values.last())
    }
}

/// Counts every text of `values` once more in `table`.
pub fn count_all(table: TableCount, values: &Vec<String>) -> (r: TableCount)
    ensures
        r.counts() == counted_all(table.counts(), texts_of(values@)),
        r.sorts_by_count() == table.sorts_by_count(),
{
    let mut table = table;
    let ghost start = table.counts();
    let ghost flag = table.sorts_by_count();
    let ghost all = texts_of(values@);
    let mut i: usize = 0;
    assert(all.take(0) == Seq::<Seq<char>>::empty());
    while i < values.len()
        invariant
            i <= values@.len(),
            all == texts_of(values@),
            table.counts() == counted_all(start, all.take(i as int)),
            table.sorts_by_count() == flag,
        decreases values@.len() - i,
    {
        proof {
            assert(all.take(i + 1).drop_last() == all.take(i as int));
            assert(all.take(i + 1).last() == values@[i as int]@);
        }
        table = table.add(values[i].clone());
        i += 1;
    }
    assert(all.take(values@.len() as int) == all);
    table
}

/// What is counted of a paper when tags are counted: the keys of its tags.
pub fn tag_texts(paper: &PaperMeta) -> (r: Vec<String>)
    ensures
        texts_of(r@) == paper@.tags,
{
    let mut out: Vec<String> = Vec::new();
    let mut i: usize = 0;
    while i < paper.tags.len()
        invariant
            i <= paper.tags@.len(),
            out@.len() == i,
            forall|k: int| 0 <= k < i ==> (#[trigger] out@[k])@ == paper.tags@[k],
        decreases paper.tags@.len() - i,
    {
        out.push(paper.tags.get(i).key().to_owned());
        i += 1;
    }
    assert(texts_of(out@) =~= paper@.tags);
    out
}

/// What is counted of a paper when labels are counted: each label as `key=value`.
pub fn label_texts(paper: &PaperMeta) -> (r: Vec<String>)
    ensures
        texts_of(r@) == crate::table::labels_written(paper@.labels),
{
    let mut out: Vec<String> = Vec::new();
    let mut i: usize = 0;
    while i < paper.labels.len()
        invariant
            i <= paper.labels@.len(),
            out@.len() == i,
            forall|k: int|
                0 <= k < i ==> (#[trigger] out@[k])@ == Label::written(paper.labels@[k]),
        decreases paper.labels@.len() - i,
    {
        out.push(paper.labels.get(i).to_text());
        i += 1;
    }
    assert(texts_of(out@) =~= crate::table::labels_written(paper@.labels));
    out
}

/// What is counted of a paper when authors are counted: their names.
pub fn author_texts(paper: &PaperMeta) -> (r: Vec<String>)
    ensures
        texts_of(r@) == paper@.authors,
{
    let mut out: Vec<String> = Vec::new();
    let mut i: usize = 0;
    while i < paper.authors.len()
        invariant
            i <= paper.authors@.len(),
            out@.len() == i,
            forall|k: int| 0 <= k < i ==> (#[trigger] out@[k])@ == paper.authors@[k]@,
        decreases paper.authors@.len() - i,
    {
        out.push(paper.authors[i].to_text());
        i += 1;
    }
    assert(texts_of(out@) =~= paper@.authors);
    out
}

/// The line that stands for a paper in a fuzzy search, given its title,
/// authors, tags and labels as they are shown.
pub open spec fn fuzzy_line_of(
    title: Seq<char>,
    authors: Seq<char>,
    tags: Seq<char>,
    labels: Seq<char>,
) -> Seq<char> {
    "title:"@ + title + " authors:"@ + authors + " tags:"@ + tags + " labels:"@ + labels
}

/// The line that stands for a paper in a fuzzy search: its title, authors,
/// tags and labels, each quoted, the items of a list with `,` between them.
pub open spec fn fuzzy_line(p: PaperView) -> Seq<char> {
    fuzzy_line_of(
        quoted(p.title),
        quoted(joined_by(p.authors, seq![','])),
        quoted(joined_by(p.tags, seq![','])),
        quoted(joined_by(crate::table::labels_written(p.labels), seq![','])),
    )
}

/// Puts the line for a fuzzy search together from its four parts.
pub fn fuzzy_line_from(title: &str, authors: &str, tags: &str, labels: &str) -> (r: String)
    ensures
        r@ == fuzzy_line_of(title@, authors@, tags@, labels@),
{
    let a = append("title:", title);
    let b = append(a.as_str(), " authors:");
    let c = append(b.as_str(), authors);
    let d = append(c.as_str(), " tags:");
    let e = append(d.as_str(), tags);
    let f = append(e.as_str(), " labels:");
    append(f.as_str(), labels)
}

/// The line that stands for `paper` in a fuzzy search.
pub fn fuzzy_text(paper: &PaperMeta) -> (r: String)
    ensures
        r@ == fuzzy_line(paper@),
{
    proof {
        reveal_strlit(",");
        assert(","@ == seq![',']);
    }
    let authors = join(&author_texts(paper), ",");
    let tags = join(&tag_texts(paper), ",");
    let labels = join(&label_texts(paper), ",");
    fuzzy_line_from(
        debug_quoted(paper.title.as_str()).as_str(),
        debug_quoted(authors.as_str()).as_str(),
        debug_quoted(tags.as_str()).as_str(),
        debug_quoted(labels.as_str()).as_str(),
    )
}

} // verus!
