//! Papers and counts as rows of text, ready for a table.

use crate::author::{Author, names_of};
use crate::keys::{entries_map, entry_keys, SortedMap, strictly_sorted};
use crate::label::{Label, LabelMap};
use crate::paper::{PaperMeta, PaperView};
use crate::primitive::Scalar;
use crate::sort::{is_stable_order, stable_order};
use crate::tag::TagSet;
use crate::text::{append, decimal, decimal_of, join, joined_by, opt_text, texts_of};
use vstd::prelude::*;

verus! {

/// How a span of `secs` seconds is shown: in whole seconds below a minute,
/// whole minutes below an hour, whole hours below a day, and whole days from
/// then on.
pub open spec fn duration_shown(secs: u64) -> Seq<char> {
    if secs < 60 {
        decimal_of(secs as nat).push('s')
    } else if secs < 3_600 {
        decimal_of((secs / 60) as nat).push('m')
    } else if secs < 86_400 {
        decimal_of((secs / 3_600) as nat).push('h')
    } else {
        decimal_of((secs / 86_400) as nat).push('d')
    }
}

/// Shows a span of `secs` seconds in its largest whole unit.
pub fn display_duration(secs: u64) -> (r: String)
    ensures
        r@ == duration_shown(secs),
{
    proof {
        reveal_strlit("s");
        reveal_strlit("m");
        reveal_strlit("h");
        reveal_strlit("d");
        assert("s"@ == seq!['s']);
        assert("m"@ == seq!['m']);
        assert("h"@ == seq!['h']);
        assert("d"@ == seq!['d']);
    }
    if secs < 60 {
        append(decimal(secs).as_str(), "s")
    } else if secs < 60 * 60 {
        append(decimal(secs / 60).as_str(), "m")
    } else if secs < 60 * 60 * 24 {
        append(decimal(secs / (60 * 60)).as_str(), "h")
    } else {
        append(decimal(secs / (60 * 60 * 24)).as_str(), "d")
    }
}

/// The text, or nothing where there is none.
pub fn display_optional_string(s: &Option<String>) -> (r: String)
    ensures
        r@ == match opt_text(*s) {
            Some(t) => t,
            None => Seq::empty(),
        },
{
    match s {
        Some(s) => s.clone(),
        None => String::new(),
    }
}

/// The names of the authors with `, ` between them.
pub fn display_author_vector(v: &Vec<Author>) -> (r: String)
    ensures
        r@ == joined_by(names_of(v@), seq![',', ' ']),
{
    let mut texts: Vec<String> = Vec::new();
    let mut i: usize = 0;
    while i < v.len()
        invariant
            i <= v.len(),
            texts@.len() == i,
            forall|k: int| 0 <= k < i ==> (#[trigger] texts@[k])@ == v@[k]@,
        decreases v.len() - i,
    {
        texts.push(v[i].to_text());
        i += 1;
    }
    proof {
        reveal_strlit(", ");
        assert(", "@ == seq![',', ' ']);
        assert(texts_of(texts@) =~= names_of(v@));
    }
    join(&texts, ", ")
}

/// The keys of the tags with `, ` between them.
pub fn display_tag_vector(tags: &TagSet) -> (r: String)
    ensures
        r@ == joined_by(tags@, seq![',', ' ']),
{
    let mut texts: Vec<String> = Vec::new();
    let mut i: usize = 0;
    while i < tags.len()
        invariant
            i <= tags@.len(),
            texts@.len() == i,
            forall|k: int| 0 <= k < i ==> (#[trigger] texts@[k])@ == tags@[k],
        decreases tags@.len() - i,
    {
        texts.push(tags.get(i).key().to_owned());
        i += 1;
    }
    proof {
        reveal_strlit(", ");
        assert(", "@ == seq![',', ' ']);
        assert(texts_of(texts@) =~= tags@);
    }
    join(&texts, ", ")
}

/// The labels as they are written, in order.
pub open spec fn labels_written(labels: Seq<(Seq<char>, Scalar)>) -> Seq<Seq<char>> {
    labels.map_values(|l: (Seq<char>, Scalar)| Label::written(l))
}

/// The labels, each as `key=value`, with `, ` between them.
pub fn display_label_vector(labels: &LabelMap) -> (r: String)
    ensures
        r@ == joined_by(labels_written(labels@), seq![',', ' ']),
{
    let mut texts: Vec<String> = Vec::new();
    let mut i: usize = 0;
    while i < labels.len()
        invariant
            i <= labels@.len(),
            texts@.len() == i,
            forall|k: int| 0 <= k < i ==> (#[trigger] texts@[k])@ == Label::written(labels@[k]),
        decreases labels@.len() - i,
    {
        texts.push(labels.get(i).to_text());
        i += 1;
    }
    proof {
        reveal_strlit(", ");
        assert(", "@ == seq![',', ' ']);
        assert(texts_of(texts@) =~= labels_written(labels@));
    }
    join(&texts, ", ")
}

/// The seconds between two times, whichever is the later.
pub open spec fn age_of(now: i64, created_at: i64) -> u64 {
    if now >= created_at {
        (now - created_at) as u64
    } else {
        (created_at - now) as u64
    }
}

/// Paper format for display in a table.
#[derive(Debug, Clone, PartialEq, Eq)]
pub struct TablePaper {
    /// Url the paper was fetched from.
    pub url: Option<String>,
    /// Local filename of the document.
    pub filename: Option<String>,
    /// Title of the document.
    pub title: String,
    /// Tags for this document.
    pub tags: TagSet,
    /// Labels for this document.
    pub labels: LabelMap,
    /// Authors for this document.
    pub authors: Vec<Author>,
    /// Age since creation, in seconds.
    pub age: u64,
}

/// What a [`TablePaper`] holds.
pub struct TablePaperView {
    pub url: Option<Seq<char>>,
    pub filename: Option<Seq<char>>,
    pub title: Seq<char>,
    pub tags: Seq<Seq<char>>,
    pub labels: Seq<(Seq<char>, Scalar)>,
    pub authors: Seq<Seq<char>>,
    pub age: u64,
}

impl View for TablePaper {
    type V = TablePaperView;

    open spec fn view(&self) -> TablePaperView {
        TablePaperView {
            url: opt_text(self.url),
            filename: opt_text(self.filename),
            title: self.title@,
            tags: self.tags@,
            labels: self.labels@,
            authors: names_of(self.authors@),
            age: self.age,
        }
    }
}

/// What the table shows of a paper at `now`.
pub open spec fn table_paper_of(p: PaperView, now: i64) -> TablePaperView {
    TablePaperView {
        url: p.url,
        filename: p.filename,
        title: p.title,
        tags: p.tags,
        labels: p.labels,
        authors: p.authors,
        age: age_of(now, p.created_at),
    }
}

/// The cells of the row for a paper: title, authors, tags, labels, age.
pub open spec fn row_of(p: TablePaperView) -> Seq<Seq<char>> {
    seq![
        p.title,
        joined_by(p.authors, seq![',', ' ']),
        joined_by(p.tags, seq![',', ' ']),
        joined_by(labels_written(p.labels), seq![',', ' ']),
        duration_shown(p.age),
    ]
}

impl TablePaper {
    /// Convert a paper to its table view counterpart, as of `now`.
    pub fn from_paper(p: PaperMeta, now: i64) -> (r: TablePaper)
        ensures
            r@ == table_paper_of(p@, now),
    {
        let age: u64 = if now >= p.created_at {
            (now as i128 - p.created_at as i128) as u64
        } else {
            (p.created_at as i128 - now as i128) as u64
        };
        TablePaper {
            url: p.url,
            filename: p.filename,
            title: p.title,
            tags: p.tags,
            labels: p.labels,
            authors: p.authors,
            age,
        }
    }

    /// The cells of the paper's row: title, authors, tags, labels, age.
    pub fn to_row(&self) -> (r: Vec<String>)
        ensures
            texts_of(r@) == row_of(self@),
    {
        let mut row: Vec<String> = Vec::new();
        row.push(self.title.clone());
        row.push(display_author_vector(&self.authors));
        row.push(display_tag_vector(&self.tags));
        row.push(display_label_vector(&self.labels));
        row.push(display_duration(self.age));
        assert(texts_of(row@) =~= row_of(self@));
        row
    }
}

/// A way to print tables to the terminal.
#[derive(Debug)]
pub struct Table {
    /// The papers, one to a row.
    pub papers: Vec<TablePaper>,
}

impl Table {
    /// The table of `papers`, in their order, as of `now`.
    pub fn from(papers: Vec<PaperMeta>, now: i64) -> (r: Table)
        ensures
            r.papers@.len() == papers@.len(),
            forall|i: int|
                0 <= i < papers@.len() ==> (#[trigger] r.papers@[i])@ == table_paper_of(
                    papers@[i]@,
                    now,
                ),
    {
        let mut rows: Vec<TablePaper> = Vec::new();
        let mut i: usize = 0;
        while i < papers.len()
            invariant
                i <= papers@.len(),
                rows@.len() == i,
                forall|k: int|
                    0 <= k < i ==> (#[trigger] rows@[k])@ == table_paper_of(papers@[k]@, now),
            decreases papers@.len() - i,
        {
            rows.push(TablePaper::from_paper(papers[i].duplicate(), now));
            i += 1;
        }
        Table { papers: rows }
    }

    /// The titles of the columns.
    pub fn header() -> (r: Vec<String>)
        ensures
            texts_of(r@) == seq!["title"@, "authors"@, "tags"@, "labels"@, "age"@],
    {
        let mut row: Vec<String> = Vec::new();
        row.push("title".to_owned());
        row.push("authors".to_owned());
        row.push("tags".to_owned());
        row.push("labels".to_owned());
        row.push("age".to_owned());
        assert(texts_of(row@) =~= seq!["title"@, "authors"@, "tags"@, "labels"@, "age"@]);
        row
    }

    /// The rows of the table, one for each paper.
    pub fn rows(&self) -> (r: Vec<Vec<String>>)
        ensures
            r@.len() == self.papers@.len(),
            forall|i: int|
                0 <= i < r@.len() ==> texts_of((#[trigger] r@[i])@) == row_of(self.papers@[i]@),
    {
        let mut rows: Vec<Vec<String>> = Vec::new();
        let mut i: usize = 0;
        while i < self.papers.len()
            invariant
                i <= self.papers@.len(),
                rows@.len() == i,
                forall|k: int|
                    0 <= k < i ==> texts_of((#[trigger] rows@[k])@) == row_of(self.papers@[k]@),
            decreases self.papers@.len() - i,
        {
            rows.push(self.papers[i].to_row());
            i += 1;
        }
        rows
    }
}

/// Store counts for groups.
#[derive(Debug)]
pub struct TableCount {
    counts: SortedMap<usize>,
    sort_by_count: bool,
}

/// The count of `key` after one more occurrence.
pub open spec fn counted(counts: Map<Seq<char>, usize>, key: Seq<char>) -> Map<Seq<char>, usize> {
    if counts.dom().contains(key) {
        if counts[key] < usize::MAX {
            counts.insert(key, (counts[key] + 1) as usize)
        } else {
            counts
        }
    } else {
        counts.insert(key, 1usize)
    }
}

impl TableCount {
    /// How often each key was added.
    pub closed spec fn counts(&self) -> Map<Seq<char>, usize> {
        self.counts.map()
    }

    /// The keys with their counts, in ascending order of the keys.
    pub closed spec fn entries(&self) -> Seq<(Seq<char>, usize)> {
        self.counts@
    }

    /// Whether the rows are to be sorted by count.
    pub closed spec fn sorts_by_count(&self) -> bool {
        self.sort_by_count
    }

    /// A table without counts, its rows in the order of the keys.
    pub fn new() -> (r: TableCount)
        ensures
            r.counts() == Map::<Seq<char>, usize>::empty(),
            r.entries() == Seq::<(Seq<char>, usize)>::empty(),
            !r.sorts_by_count(),
    {
        let r = TableCount { counts: SortedMap::new(), sort_by_count: false };
        assert(r.counts() =~= Map::<Seq<char>, usize>::empty());
        r
    }

    /// Add a new entry: `value` is counted once more.
    pub fn add(self, value: String) -> (r: TableCount)
        ensures
            r.counts() == counted(self.counts(), value@),
            r.sorts_by_count() == self.sorts_by_count(),
    {
        let mut table = self;
        match table.counts.get(value.as_str()) {
            Some(n) => {
                if n < usize::MAX {
                    table.counts.set(value.as_str(), n + 1);
                }
            },
            None => {
                table.counts.set(value.as_str(), 1);
            },
        }
        table
    }

    /// Sort entries by count when producing table
    pub fn sort_by_count(&mut self)
        ensures
            final(self).sorts_by_count(),
            final(self).counts() == old(self).counts(),
            final(self).entries() == old(self).entries(),
    {
        self.sort_by_count = true;
    }

    /// The keys with their counts, in ascending order of the keys.
    pub fn items(&self) -> (r: Vec<(String, usize)>)
        ensures
            r@.len() == self.entries().len(),
            forall|i: int|
                0 <= i < r@.len() ==> (#[trigger] r@[i]).0@ == self.entries()[i].0 && r@[i].1
                    == self.entries()[i].1,
            strictly_sorted(entry_keys(self.entries())),
            entries_map(self.entries()) == self.counts(),
    {
        let _ = self.counts.is_sorted();
        let n = self.counts.len();
        let mut out: Vec<(String, usize)> = Vec::new();
        let mut i: usize = 0;
        while i < n
            invariant
                i <= n,
                n == self.entries().len(),
                out@.len() == i,
                forall|k: int|
                    0 <= k < i ==> (#[trigger] out@[k]).0@ == self.entries()[k].0 && out@[k].1
                        == self.entries()[k].1,
            decreases n - i,
        {
            out.push((self.counts.key_at(i).to_owned(), self.counts.value_at(i)));
            i += 1;
        }
        out
    }

    /// The titles of the columns.
    pub fn header() -> (r: Vec<String>)
        ensures
            texts_of(r@) == seq!["key"@, "count"@],
    {
        let mut row: Vec<String> = Vec::new();
        row.push("key".to_owned());
        row.push("count".to_owned());
        assert(texts_of(row@) =~= seq!["key"@, "count"@]);
        row
    }

    /// The rows of the table: each key with its count in decimal.
    ///
    /// The rows come in ascending order of the keys; where the table sorts
    /// by count, from the smallest count to the largest, keys with one count
    /// staying in the order of the keys. `order` names for each row the
    /// place of its key among the keys.
    pub fn rows(&self) -> (r: (Vec<(String, String)>, Vec<usize>))
        ensures
            strictly_sorted(entry_keys(self.entries())),
            entries_map(self.entries()) == self.counts(),
            r.0@.len() == self.entries().len(),
            r.1@.len() == self.entries().len(),
            forall|i: int| 0 <= i < r.1@.len() ==> (#[trigger] r.1@[i]) < self.entries().len(),
            forall|i: int|
                0 <= i < r.0@.len() ==> (#[trigger] r.0@[i]).0@ == self.entries()[r.1@[i] as int].0
                    && r.0@[i].1@ == decimal_of(self.entries()[r.1@[i] as int].1 as nat),
            !self.sorts_by_count() ==> forall|i: int|
                0 <= i < r.1@.len() ==> (#[trigger] r.1@[i]) == i,
            self.sorts_by_count() ==> is_stable_order(
                self.entries().map_values(|e: (Seq<char>, usize)| e.1),
                r.1@,
            ),
    {
        let _ = self.counts.is_sorted();
        let n = self.counts.len();
        let mut keys: Vec<usize> = Vec::new();
        let mut i: usize = 0;
        while i < n
            invariant
                i <= n,
                n == self.entries().len(),
                keys@.len() == i,
                forall|k: int| 0 <= k < i ==> #[trigger] keys@[k] == self.entries()[k].1,
            decreases n - i,
        {
            keys.push(self.counts.value_at(i));
            i += 1;
        }
        assert(keys@ =~= self.entries().map_values(|e: (Seq<char>, usize)| e.1));
        let order: Vec<usize> = if self.sort_by_count {
            stable_order(&keys)
        } else {
            let mut plain: Vec<usize> = Vec::new();
            let mut i: usize = 0;
            while i < n
                invariant
                    i <= n,
                    plain@.len() == i,
                    forall|k: int| 0 <= k < i ==> (#[trigger] plain@[k]) == k,
                decreases n - i,
            {
                plain.push(i);
                i += 1;
            }
            plain
        };
        let mut rows: Vec<(String, String)> = Vec::new();
        let mut i: usize = 0;
        while i < n
            invariant
                i <= n,
                n == self.entries().len(),
                order@.len() == n,
                forall|k: int| 0 <= k < n ==> (#[trigger] order@[k]) < n,
                rows@.len() == i,
                forall|k: int|
                    0 <= k < i ==> (#[trigger] rows@[k]).0@ == self.entries()[order@[k] as int].0
                        && rows@[k].1@ == decimal_of(self.entries()[order@[k] as int].1 as nat),
            decreases n - i,
        {
            let at = order[i];
            let key = self.counts.key_at(at).to_owned();
            let count = decimal(self.counts.value_at(at) as u64);
            rows.push((key, count));
            i += 1;
        }
        (rows, order)
    }
}

impl Default for TableCount {
    fn default() -> (r: TableCount)
        ensures
            r.counts() == Map::<Seq<char>, usize>::empty(),
            !r.sorts_by_count(),
    {
        TableCount::new()
    }
}

} // verus!
