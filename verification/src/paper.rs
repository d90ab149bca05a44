//! A paper: its metadata, and the note file it was read from.

use crate::author::{Author, duplicate_authors, names_of};
use crate::label::LabelMap;
use crate::primitive::Scalar;
use crate::tag::TagSet;
use crate::text::{duplicate_opt, opt_text};
use vstd::prelude::*;

verus! {

/// The metadata of a paper.
///
/// Times are seconds since 1970-01-01T00:00:00 UTC.
#[derive(Debug, Clone, PartialEq, Eq)]
pub struct PaperMeta {
    /// The title; the note file is named after it.
    pub title: String,
    /// Where the document came from.
    pub url: Option<String>,
    /// The document file, relative to the repository's root.
    pub filename: Option<String>,
    /// The tags the paper is filed under.
    pub tags: TagSet,
    /// The labels of the paper.
    pub labels: LabelMap,
    /// The authors, in the order in which they were entered.
    pub authors: Vec<Author>,
    /// When the paper was added.
    pub created_at: i64,
    /// When the note file was last written.
    pub modified_at: i64,
    /// When the review before the last was due.
    pub last_review: Option<i64>,
    /// When the next review is due.
    pub next_review: Option<i64>,
}

/// What a [`PaperMeta`] holds.
pub struct PaperView {
    pub title: Seq<char>,
    pub url: Option<Seq<char>>,
    pub filename: Option<Seq<char>>,
    pub tags: Seq<Seq<char>>,
    pub labels: Seq<(Seq<char>, Scalar)>,
    pub authors: Seq<Seq<char>>,
    pub created_at: i64,
    pub modified_at: i64,
    pub last_review: Option<i64>,
    pub next_review: Option<i64>,
}

impl View for PaperMeta {
    type V = PaperView;

    open spec fn view(&self) -> PaperView {
        PaperView {
            title: self.title@,
            url: opt_text(self.url),
            filename: opt_text(self.filename),
            tags: self.tags@,
            labels: self.labels@,
            authors: names_of(self.authors@),
            created_at: self.created_at,
            modified_at: self.modified_at,
            last_review: self.last_review,
            next_review: self.next_review,
        }
    }
}

impl Default for PaperMeta {
    /// A paper without a title, of time zero, with nothing else set.
    fn default() -> (r: PaperMeta)
        ensures
            r@ == (PaperView {
                title: Seq::empty(),
                url: None,
                filename: None,
                tags: Seq::empty(),
                labels: Seq::empty(),
                authors: Seq::empty(),
                created_at: 0,
                modified_at: 0,
                last_review: None,
                next_review: None,
            }),
    {
        let r = PaperMeta {
            title: String::new(),
            url: None,
            filename: None,
            tags: TagSet::new(),
            labels: LabelMap::new(),
            authors: Vec::new(),
            created_at: 0,
            modified_at: 0,
            last_review: None,
            next_review: None,
        };
        assert(names_of(r.authors@) == Seq::<Seq<char>>::empty());
        r
    }
}

impl PaperMeta {
    /// A copy of the metadata.
    pub fn duplicate(&self) -> (r: PaperMeta)
        ensures
            r@ == self@,
    {
        PaperMeta {
            title: self.title.clone(),
            url: duplicate_opt(&self.url),
            filename: duplicate_opt(&self.filename),
            tags: self.tags.duplicate(),
            labels: self.labels.duplicate(),
            authors: duplicate_authors(&self.authors),
            created_at: self.created_at,
            modified_at: self.modified_at,
            last_review: self.last_review,
            next_review: self.next_review,
        }
    }
}

/// A paper as it was read: the note file's path relative to the root, the
/// metadata in its front matter, and the notes below it.
///
/// The path is where the note was found, which is not always where the title
/// says it should be.
#[derive(Debug, Clone, PartialEq, Eq)]
pub struct LoadedPaper {
    /// The note file, relative to the repository's root.
    pub path: String,
    /// The metadata.
    pub meta: PaperMeta,
    /// The notes.
    pub notes: String,
}

/// What a [`LoadedPaper`] holds.
pub struct LoadedView {
    pub path: Seq<char>,
    pub meta: PaperView,
    pub notes: Seq<char>,
}

impl View for LoadedPaper {
    type V = LoadedView;

    open spec fn view(&self) -> LoadedView {
        LoadedView { path: self.path@, meta: self.meta@, notes: self.notes@ }
    }
}

impl LoadedPaper {
    /// A copy of the paper.
    pub fn duplicate(&self) -> (r: LoadedPaper)
        ensures
            r@ == self@,
    {
        LoadedPaper {
            path: self.path.clone(),
            meta: self.meta.duplicate(),
            notes: self.notes.clone(),
        }
    }
}

} // verus!
