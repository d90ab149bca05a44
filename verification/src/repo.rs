//! The repository: a root directory whose note files are the papers.
//!
//! The repository reads and writes nothing itself. Its operations take what
//! the caller found on disk and return what is to be written there.

use crate::author::{Author, names_of};
use crate::filter::{Filter, loaded_views, selected};
use crate::label::{Label, LabelMap};
use crate::note::{front_matter_split, parts_of, render_note, rendered, split_note, NoteParts};
use crate::paper::{LoadedPaper, LoadedView, PaperMeta, PaperView};
use crate::paths::{is_valid_title, strip_prohibited, 
    extension, extension_of, file_name, file_name_of, join, joined, note_path, note_path_of,
    relative_to, strip_root,
};
use crate::tag::{Tag, TagSet};
use crate::text::{opt_str, opt_text};
use vstd::prelude::*;

verus! {

/// Why an operation of the repository failed.
#[derive(Clone, Copy, Debug, PartialEq, Eq, Structural)]
pub enum RepoError {
    /// The file system refused an operation.
    Io,
    /// A document lies outside the repository's root.
    OutsideRoot,
    /// A note file already stands where the new paper's would go.
    AlreadyExists,
    /// Nothing is left of a title once the prohibited characters are gone,
    /// so that no note file can be named after it.
    InvalidTitle,
    /// A note file has no front matter.
    NoFrontMatter,
    /// The front matter of a note file does not describe a paper.
    MalformedFrontMatter,
    /// No note file stands at the path asked for.
    NotFound,
}

impl RepoError {
    /// The failure in words.
    pub fn message(&self) -> (r: &'static str)
        ensures
            r@ == match self {
                RepoError::Io => "I/O error"@,
                RepoError::OutsideRoot => "File does not live in the root"@,
                RepoError::AlreadyExists => "Paper entry already exists"@,
                RepoError::InvalidTitle => "Title holds nothing to name a file after"@,
                RepoError::NoFrontMatter => "No content for file! Is there any frontmatter?"@,
                RepoError::MalformedFrontMatter => "Front matter does not describe a paper"@,
                RepoError::NotFound => "No paper at that path"@,
            },
    {
        match self {
            RepoError::Io => "I/O error",
            RepoError::OutsideRoot => "File does not live in the root",
            RepoError::AlreadyExists => "Paper entry already exists",
            RepoError::InvalidTitle => "Title holds nothing to name a file after",
            RepoError::NoFrontMatter => "No content for file! Is there any frontmatter?",
            RepoError::MalformedFrontMatter => "Front matter does not describe a paper",
            RepoError::NotFound => "No paper at that path",
        }
    }
}

/// A note that is ready to be written: where it goes, the metadata to put in
/// its front matter, and the notes below.
#[derive(Debug, Clone, PartialEq, Eq)]
pub struct NoteDraft {
    /// The file to write, an absolute path.
    pub target: String,
    /// The metadata, its time of modification set.
    pub meta: PaperMeta,
    /// The notes.
    pub notes: String,
}

/// What a [`NoteDraft`] holds.
pub struct DraftView {
    pub target: Seq<char>,
    pub meta: PaperView,
    pub notes: Seq<char>,
}

impl View for NoteDraft {
    type V = DraftView;

    open spec fn view(&self) -> DraftView {
        DraftView { target: self.target@, meta: self.meta@, notes: self.notes@ }
    }
}

impl NoteDraft {
    /// The text of the file, given the draft's metadata serialised as YAML.
    pub fn render(&self, front_matter: &str) -> (r: String)
        ensures
            r@ == rendered(front_matter@, self@.notes),
    {
        render_note(front_matter, self.notes.as_str())
    }
}

/// A note file that was read, before its front matter is understood.
#[derive(Debug, Clone, PartialEq, Eq)]
pub struct NoteSource {
    /// The note file, relative to the repository's root.
    pub path: String,
    /// The front matter, as YAML text.
    pub front_matter: String,
    /// The notes.
    pub notes: String,
}

/// What a [`NoteSource`] holds.
pub struct SourceView {
    pub path: Seq<char>,
    pub front_matter: Seq<char>,
    pub notes: Seq<char>,
}

impl View for NoteSource {
    type V = SourceView;

    open spec fn view(&self) -> SourceView {
        SourceView { path: self.path@, front_matter: self.front_matter@, notes: self.notes@ }
    }
}

impl NoteSource {
    /// The paper, once its front matter has been read as `meta`.
    pub fn load(self, meta: PaperMeta) -> (r: LoadedPaper)
        ensures
            r@ == (LoadedView { path: self@.path, meta: meta@, notes: self@.notes }),
    {
        LoadedPaper { path: self.path, meta, notes: self.notes }
    }
}

/// The metadata of a paper as it is when it is added at `now`.
pub open spec fn new_paper(
    filename: Option<Seq<char>>,
    url: Option<Seq<char>>,
    title: Seq<char>,
    authors: Seq<Seq<char>>,
    tags: Seq<Seq<char>>,
    labels: Seq<(Seq<char>, crate::primitive::Scalar)>,
    now: i64,
) -> PaperView {
    PaperView {
        title,
        url,
        filename,
        tags,
        labels,
        authors,
        created_at: now,
        modified_at: now,
        last_review: None,
        next_review: None,
    }
}

/// What adding a paper comes to. `file` is the document's canonical path, if
/// there is a document; `taken` says whether a note file already stands at
/// the path that the title derives. A document outside the root is refused
/// first, then a title of which nothing is left once the prohibited
/// characters are gone, then a title whose note exists.
pub open spec fn added(
    root: Seq<char>,
    file: Option<Seq<char>>,
    url: Option<Seq<char>>,
    title: Seq<char>,
    authors: Seq<Seq<char>>,
    tags: Seq<Seq<char>>,
    labels: Seq<(Seq<char>, crate::primitive::Scalar)>,
    now: i64,
    taken: bool,
) -> Result<PaperView, RepoError> {
    if file matches Some(f) && relative_to(root, f) is None {
        Err(RepoError::OutsideRoot)
    } else if !is_valid_title(title) {
        Err(RepoError::InvalidTitle)
    } else if taken {
        Err(RepoError::AlreadyExists)
    } else {
        let filename = match file {
            Some(f) => relative_to(root, f),
            None => None,
        };
        Ok(new_paper(filename, url, title, authors, tags, labels, now))
    }
}

/// What pointing the paper `current` at the document `file` comes to: a
/// refusal where the document lies outside the root, and else the note to
/// write, with the document's file name in place of the old one.
pub open spec fn updated(root: Seq<char>, current: LoadedView, file: Option<Seq<char>>, now: i64) -> Result<
    DraftView,
    RepoError,
> {
    if file matches Some(f) && relative_to(root, f) is None {
        Err(RepoError::OutsideRoot)
    } else {
        let filename = match file {
            Some(f) => Some(file_name_of(f)),
            None => None,
        };
        Ok(
            DraftView {
                target: joined(root, current.path),
                meta: stamped(PaperView { filename, ..current.meta }, now),
                notes: current.notes,
            },
        )
    }
}

/// What importing the paper `p` comes to: a refusal where nothing is left of
/// its title once the prohibited characters are gone, and else the note to
/// write, at the path that the title derives and with empty notes.
pub open spec fn imported(root: Seq<char>, p: PaperView, now: i64) -> Result<DraftView, RepoError> {
    if !is_valid_title(p.title) {
        Err(RepoError::InvalidTitle)
    } else {
        Ok(
            DraftView {
                target: joined(root, note_path_of(p.title)),
                meta: stamped(p, now),
                notes: Seq::empty(),
            },
        )
    }
}

/// The metadata as it is written at `now`: all as before, but for the time of modification.
pub open spec fn stamped(p: PaperView, now: i64) -> PaperView {
    PaperView { modified_at: now, ..p }
}

/// The repository: the root directory, as an absolute path in canonical form.
#[derive(Debug)]
pub struct Repo {
    root: String,
}

impl View for Repo {
    type V = Seq<char>;

    closed spec fn view(&self) -> Seq<char> {
        self.root@
    }
}

impl Repo {
    /// The repository at `root`, which the caller has made absolute and canonical.
    pub fn load(root: String) -> (r: Repo)
        ensures
            r@ == root@,
    {
        Repo { root }
    }

    /// The root directory.
    pub fn root(&self) -> (r: &str)
        ensures
            r@ == self@,
    {
        self.root.as_str()
    }

    /// The path, relative to the root, at which the note of `paper` is
    /// expected: its title without the prohibited characters, then `.md`.
    pub fn get_path(&self, paper: &PaperMeta) -> (r: String)
        ensures
            r@ == note_path_of(paper@.title),
    {
        note_path(paper.title.as_str())
    }

    /// The absolute path of `path`: itself if it is absolute, below the root otherwise.
    pub fn locate(&self, path: &str) -> (r: String)
        ensures
            r@ == joined(self@, path@),
    {
        join(self.root.as_str(), path)
    }

    /// The path of the document `file` relative to the root, or
    /// `OutsideRoot` where it does not lie below the root. `file` is
    /// canonical.
    pub fn document_path(&self, file: &str) -> (r: Result<String, RepoError>)
        ensures
            match r {
                Ok(p) => relative_to(self@, file@) == Some(p@),
                Err(e) => e == RepoError::OutsideRoot && relative_to(self@, file@) is None,
            },
    {
        match strip_root(self.root.as_str(), file) {
            Some(p) => Ok(p),
            None => Err(RepoError::OutsideRoot),
        }
    }

    /// Adds a paper at `now`.
    ///
    /// `file` is the canonical path of the document, if there is one; `taken`
    /// says whether a note file already stands at the path that `title`
    /// derives. A document outside the root is refused, then a title of
    /// which nothing is left once the prohibited characters are gone, then
    /// a title whose note exists; otherwise the new paper is returned,
    /// created and modified at `now` and never reviewed.
    pub fn add(
        &self,
        file: Option<&str>,
        url: Option<String>,
        title: String,
        authors: Vec<Author>,
        tags: TagSet,
        labels: LabelMap,
        now: i64,
        taken: bool,
    ) -> (r: Result<PaperMeta, RepoError>)
        ensures
            match r {
                Ok(p) => added(
                    self@,
                    opt_str(file),
                    opt_text(url),
                    title@,
                    names_of(authors@),
                    tags@,
                    labels@,
                    now,
                    taken,
                ) == Ok::<_, RepoError>(p@),
                Err(e) => added(
                    self@,
                    opt_str(file),
                    opt_text(url),
                    title@,
                    names_of(authors@),
                    tags@,
                    labels@,
                    now,
                    taken,
                ) == Err::<PaperView, _>(e),
            },
    {
        let filename = match file {
            Some(f) => match self.document_path(f) {
                Ok(p) => Some(p),
                Err(e) => {
                    return Err(e);
                },
            },
            None => None,
        };
        if strip_prohibited(title.as_str()).as_str().unicode_len() == 0 {
            return Err(RepoError::InvalidTitle);
        }
        if taken {
            return Err(RepoError::AlreadyExists);
        }
        Ok(
            PaperMeta {
                title,
                url,
                filename,
                tags,
                labels,
                authors,
                created_at: now,
                modified_at: now,
                last_review: None,
                next_review: None,
            },
        )
    }

    /// Prepares the note of `paper` for writing at `path`, at `now`: the
    /// metadata is kept but for the time of modification, which becomes `now`.
    pub fn write_paper(&self, path: &str, paper: PaperMeta, notes: &str, now: i64) -> (r: NoteDraft)
        ensures
            r@ == (DraftView {
                target: joined(self@, path@),
                meta: stamped(paper@, now),
                notes: notes@,
            }),
    {
        let mut paper = paper;
        paper.modified_at = now;
        NoteDraft { target: self.locate(path), meta: paper, notes: notes.to_owned() }
    }

    /// Prepares a paper that comes with its metadata for writing, at the
    /// path its title derives and with empty notes. A note that stands there
    /// is overwritten. A paper of whose title nothing is left once the
    /// prohibited characters are gone is refused with `InvalidTitle`.
    pub fn import(&self, paper: PaperMeta, now: i64) -> (r: Result<NoteDraft, RepoError>)
        ensures
            match r {
                Ok(d) => imported(self@, paper@, now) == Ok::<_, RepoError>(d@),
                Err(e) => imported(self@, paper@, now) == Err::<DraftView, _>(e),
            },
    {
        if strip_prohibited(paper.title.as_str()).as_str().unicode_len() == 0 {
            return Err(RepoError::InvalidTitle);
        }
        let path = self.get_path(&paper);
        proof {
            reveal_strlit("");
            assert(""@ == Seq::<char>::empty());
        }
        Ok(self.write_paper(path.as_str(), paper, "", now))
    }

    /// Points a paper at another document, or at none.
    ///
    /// `current` is the paper as it was just read from its note file, so
    /// that notes edited in the meantime are kept; `file` is the canonical
    /// path of the new document. A document outside the root is refused.
    /// Otherwise the note is prepared for writing with the document's file
    /// name, without the directories above it, in place of the old one.
    pub fn update(&self, current: LoadedPaper, file: Option<&str>, now: i64) -> (r: Result<
        NoteDraft,
        RepoError,
    >)
        ensures
            match r {
                Ok(d) => updated(self@, current@, opt_str(file), now) == Ok::<_, RepoError>(d@),
                Err(e) => updated(self@, current@, opt_str(file), now) == Err::<DraftView, _>(e),
            },
    {
        let filename = match file {
            Some(f) => {
                if self.document_path(f).is_err() {
                    return Err(RepoError::OutsideRoot);
                }
                Some(file_name(f))
            },
            None => None,
        };
        let LoadedPaper { path, meta, notes } = current;
        let mut meta = meta;
        meta.filename = filename;
        Ok(self.write_paper(path.as_str(), meta, notes.as_str(), now))
    }

    /// Whether `path` names a note file: its extension is `md`.
    pub fn is_note(path: &str) -> (r: bool)
        ensures
            r == (extension_of(path@) == Some("md"@)),
    {
        match extension(path) {
            Some(e) => *e.as_str() == *"md",
            None => false,
        }
    }

    /// The note that was read from `path`, given the parts that were found
    /// in its text, if it has front matter.
    ///
    /// `path` is absolute or relative to the root. A note without front
    /// matter is refused with `NoFrontMatter`, a path outside the root with
    /// `OutsideRoot`.
    pub fn source(&self, path: &str, parts: Option<NoteParts>) -> (r: Result<NoteSource, RepoError>)
        ensures
            match r {
                Ok(s) => {
                    &&& relative_to(self@, joined(self@, path@)) == Some(s@.path)
                    &&& parts matches Some(p) && p@ == (s@.front_matter, s@.notes)
                },
                Err(e) => if parts is None {
                    e == RepoError::NoFrontMatter
                } else {
                    e == RepoError::OutsideRoot && relative_to(self@, joined(self@, path@))
                        is None
                },
            },
    {
        let parts = match parts {
            Some(parts) => parts,
            None => {
                return Err(RepoError::NoFrontMatter);
            },
        };
        let absolute = self.locate(path);
        match strip_root(self.root.as_str(), absolute.as_str()) {
            Some(path) => Ok(
                NoteSource { path, front_matter: parts.front_matter, notes: parts.notes },
            ),
            None => Err(RepoError::OutsideRoot),
        }
    }

    /// Takes a note file apart.
    ///
    /// `path` is the path the note was read from, absolute or relative to
    /// the root, and `text` its content. A note without front matter is
    /// refused with `NoFrontMatter`, a path outside the root with
    /// `OutsideRoot`.
    pub fn get_paper(&self, path: &str, text: &str) -> (r: Result<NoteSource, RepoError>)
        ensures
            match r {
                Ok(s) => {
                    &&& relative_to(self@, joined(self@, path@)) == Some(s@.path)
                    &&& parts_of(front_matter_split(text@)) == Some((s@.front_matter, s@.notes))
                },
                Err(e) => if parts_of(front_matter_split(text@)) is None {
                    e == RepoError::NoFrontMatter
                } else {
                    e == RepoError::OutsideRoot && relative_to(self@, joined(self@, path@))
                        is None
                },
            },
    {
        self.source(path, split_note(text))
    }

    /// The papers among what was read of the note files of the root: those
    /// that could be read, in their order. A note that could not be read
    /// does not stop the others from being listed.
    pub fn all_papers(&self, read: Vec<Result<LoadedPaper, RepoError>>) -> (r: Vec<LoadedPaper>)
        ensures
            loaded_views(r@) == readable(read@),
    {
        let mut out: Vec<LoadedPaper> = Vec::new();
        let mut rest: Vec<Result<LoadedPaper, RepoError>> = Vec::new();
        let mut read = read;
        let ghost all = read@;
        while read.len() > 0
            invariant
                read@ + rest@.reverse() == all,
            decreases read.len(),
        {
            let ghost before = read@;
            let ghost rest_before = rest@;
            let p = read.pop().unwrap();
            rest.push(p);
            proof {
                assert(rest@.reverse() == seq![before.last()] + rest_before.reverse());
                assert(before == before.drop_last() + seq![before.last()]);
            }
        }
        proof {
            assert(read@ == Seq::<Result<LoadedPaper, RepoError>>::empty());
            assert(rest@.reverse() == all);
            assert(all.take(0) == Seq::<Result<LoadedPaper, RepoError>>::empty());
            assert(loaded_views(out@) == Seq::<LoadedView>::empty());
        }
        while rest.len() > 0
            invariant
                all.len() >= rest@.len(),
                rest@.reverse() == all.skip(all.len() - rest@.len()),
                loaded_views(out@) == readable(all.take(all.len() - rest@.len())),
            decreases rest.len(),
        {
            let ghost done = all.len() - rest@.len();
            let ghost rv = rest@;
            let p = rest.pop().unwrap();
            proof {
                assert(rv.reverse()[0] == rv.last());
                assert(p == all[done]);
                assert(rv.drop_last().reverse() == rv.reverse().drop_first());
                assert(all.skip(done).drop_first() == all.skip(done + 1));
                assert(all.take(done + 1).drop_last() == all.take(done));
                assert(all.take(done + 1).last() == all[done]);
            }
            if let Ok(paper) = p {
                let ghost ov = loaded_views(out@);
                out.push(paper);
                assert(loaded_views(out@) == ov.push(paper@));
            }
        }
        assert(all.take(all.len() as int) == all);
        out
    }

    /// Sorts what was read of the note files of the root into the papers
    /// and the notes that could not be read, each with its path and what
    /// was wrong with it. Both keep the order in which they were read.
    pub fn scan(&self, read: Vec<(String, Result<LoadedPaper, RepoError>)>) -> (r: Scan)
        ensures
            loaded_views(r.papers@) == readable(outcomes(read@)),
            skipped_views(r.skipped@) == unreadable(read@),
    {
        let mut papers: Vec<LoadedPaper> = Vec::new();
        let mut skipped: Vec<(String, RepoError)> = Vec::new();
        let mut rest: Vec<(String, Result<LoadedPaper, RepoError>)> = Vec::new();
        let mut read = read;
        let ghost all = read@;
        while read.len() > 0
            invariant
                read@ + rest@.reverse() == all,
            decreases read.len(),
        {
            let ghost before = read@;
            let ghost rest_before = rest@;
            let p = read.pop().unwrap();
            rest.push(p);
            proof {
                assert(rest@.reverse() == seq![before.last()] + rest_before.reverse());
                assert(before == before.drop_last() + seq![before.last()]);
            }
        }
        proof {
            assert(read@ == Seq::<(String, Result<LoadedPaper, RepoError>)>::empty());
            assert(rest@.reverse() == all);
            assert(all.take(0) == Seq::<(String, Result<LoadedPaper, RepoError>)>::empty());
            assert(outcomes(all.take(0)) =~= Seq::<Result<LoadedPaper, RepoError>>::empty());
            assert(loaded_views(papers@) == Seq::<LoadedView>::empty());
            assert(skipped_views(skipped@) =~= Seq::<(Seq<char>, RepoError)>::empty());
        }
        while rest.len() > 0
            invariant
                all.len() >= rest@.len(),
                rest@.reverse() == all.skip(all.len() - rest@.len()),
                loaded_views(papers@) == readable(outcomes(all.take(all.len() - rest@.len()))),
                skipped_views(skipped@) == unreadable(all.take(all.len() - rest@.len())),
            decreases rest.len(),
        {
            let ghost done = all.len() - rest@.len();
            let ghost rv = rest@;
            let p = rest.pop().unwrap();
            proof {
                assert(rv.reverse()[0] == rv.last());
                assert(p == all[done]);
                assert(rv.drop_last().reverse() == rv.reverse().drop_first());
                assert(all.skip(done).drop_first() == all.skip(done + 1));
                assert(all.take(done + 1).drop_last() == all.take(done));
                assert(all.take(done + 1).last() == all[done]);
                assert(outcomes(all.take(done + 1)).drop_last() =~= outcomes(all.take(done)));
                assert(outcomes(all.take(done + 1)).last() == all[done].1);
            }
            let (path, outcome) = p;
            match outcome {
                Ok(paper) => {
                    let ghost pv = loaded_views(papers@);
                    papers.push(paper);
                    assert(loaded_views(papers@) == pv.push(paper@));
                },
                Err(e) => {
                    let ghost sv = skipped_views(skipped@);
                    skipped.push((path, e));
                    assert(skipped_views(skipped@) =~= sv.push((path@, e)));
                },
            }
        }
        assert(all.take(all.len() as int) == all);
        Scan { papers, skipped }
    }

    /// The papers among `papers` that meet every demand: a piece of the
    /// document's file name, a piece of the title, and all of the authors,
    /// tags and labels given.
    pub fn list(
        &self,
        papers: Vec<LoadedPaper>,
        match_file: Option<String>,
        match_title: Option<String>,
        match_authors: Vec<Author>,
        match_tags: Vec<Tag>,
        match_labels: Vec<Label>,
    ) -> (r: Vec<LoadedPaper>)
        ensures
            loaded_views(r@) == selected(
                (Filter {
                    file: match_file,
                    title: match_title,
                    authors: match_authors,
                    tags: match_tags,
                    labels: match_labels,
                })@,
                loaded_views(papers@),
            ),
    {
        let filter = Filter {
            file: match_file,
            title: match_title,
            authors: match_authors,
            tags: match_tags,
            labels: match_labels,
        };
        filter.apply(papers)
    }
}

/// What a scan of the root found.
#[derive(Debug, Clone, PartialEq, Eq)]
pub struct Scan {
    /// The papers that could be read.
    pub papers: Vec<LoadedPaper>,
    /// The notes that could not be read, each with what was wrong with it.
    pub skipped: Vec<(String, RepoError)>,
}

/// The outcomes of reading note files, without their paths.
pub open spec fn outcomes(read: Seq<(String, Result<LoadedPaper, RepoError>)>) -> Seq<
    Result<LoadedPaper, RepoError>,
> {
    read.map_values(|e: (String, Result<LoadedPaper, RepoError>)| e.1)
}

/// What a run of skipped notes holds.
pub open spec fn skipped_views(skipped: Seq<(String, RepoError)>) -> Seq<(Seq<char>, RepoError)> {
    skipped.map_values(|e: (String, RepoError)| (e.0@, e.1))
}

/// The notes that could not be read among what was read, in their order.
pub open spec fn unreadable(read: Seq<(String, Result<LoadedPaper, RepoError>)>) -> Seq<
    (Seq<char>, RepoError),
>
    decreases read.len(),
{
    if read.len() == 0 {
        Seq::empty()
    } else {
        match read.last().1 {
            Ok(_) => unreadable(read.drop_last()),
            Err(e) => unreadable(read.drop_last()).push((read.last().0@, e)),
        }
    }
}

/// The papers among the outcomes of reading note files, in their order.
pub open spec fn readable(read: Seq<Result<LoadedPaper, RepoError>>) -> Seq<LoadedView>
    decreases read.len(),
{
    if read.len() == 0 {
        Seq::empty()
    } else {
        match read.last() {
            Ok(p) => readable(read.drop_last()).push(p@),
            Err(_) => readable(read.drop_last()),
        }
    }
}

/// The path of a note is derived from the title alone: papers with one
/// title have one path, whatever else they hold.
pub proof fn lemma_path_depends_on_title_alone(a: PaperView, b: PaperView)
    requires
        a.title == b.title,
    ensures
        note_path_of(a.title) == note_path_of(b.title),
{
}

/// Writing a paper keeps all of its metadata but the time of modification,
/// which becomes the time of writing; it does not go back unless the clock did.
pub proof fn lemma_write_keeps_the_paper(p: PaperView, now: i64)
    ensures
        stamped(p, now) == (PaperView { modified_at: now, ..p }),
        stamped(p, now).title == p.title,
        stamped(p, now).url == p.url,
        stamped(p, now).filename == p.filename,
        stamped(p, now).tags == p.tags,
        stamped(p, now).labels == p.labels,
        stamped(p, now).authors == p.authors,
        stamped(p, now).created_at == p.created_at,
        stamped(p, now).last_review == p.last_review,
        stamped(p, now).next_review == p.next_review,
        now >= p.modified_at ==> stamped(p, now).modified_at >= p.modified_at,
        now >= p.created_at ==> stamped(p, now).modified_at >= stamped(p, now).created_at,
{
}

/// A paper that was just added is modified when it was created.
pub proof fn lemma_new_paper_is_unmodified(
    filename: Option<Seq<char>>,
    url: Option<Seq<char>>,
    title: Seq<char>,
    authors: Seq<Seq<char>>,
    tags: Seq<Seq<char>>,
    labels: Seq<(Seq<char>, crate::primitive::Scalar)>,
    now: i64,
)
    ensures
        new_paper(filename, url, title, authors, tags, labels, now).modified_at == new_paper(
            filename,
            url,
            title,
            authors,
            tags,
            labels,
            now,
        ).created_at,
{
}

/// The notes of a repository, as far as adding papers goes: the metadata
/// that stands in the note file at each path.
pub type Notes = Map<Seq<char>, PaperView>;

/// What adding a paper to the notes `notes` comes to: the answer of the
/// repository, and the notes as they are afterwards. The note of a paper
/// that was added stands at the path that its title derives; a paper that
/// was refused leaves the notes as they were.
pub open spec fn add_to(
    notes: Notes,
    root: Seq<char>,
    file: Option<Seq<char>>,
    url: Option<Seq<char>>,
    title: Seq<char>,
    authors: Seq<Seq<char>>,
    tags: Seq<Seq<char>>,
    labels: Seq<(Seq<char>, crate::primitive::Scalar)>,
    now: i64,
) -> (Result<PaperView, RepoError>, Notes) {
    let taken = notes.dom().contains(note_path_of(title));
    match added(root, file, url, title, authors, tags, labels, now, taken) {
        Ok(paper) => (Ok(paper), notes.insert(note_path_of(title), paper)),
        Err(e) => (Err(e), notes),
    }
}

/// Adding a paper twice, under titles that derive one path, fails the second
/// time with `AlreadyExists`, whatever else the second paper holds; the
/// note of the first stays as it was written.
pub proof fn lemma_second_add_collides(
    notes: Notes,
    root: Seq<char>,
    first_file: Option<Seq<char>>,
    first_url: Option<Seq<char>>,
    first_title: Seq<char>,
    first_authors: Seq<Seq<char>>,
    first_tags: Seq<Seq<char>>,
    first_labels: Seq<(Seq<char>, crate::primitive::Scalar)>,
    first_now: i64,
    file: Option<Seq<char>>,
    url: Option<Seq<char>>,
    title: Seq<char>,
    authors: Seq<Seq<char>>,
    tags: Seq<Seq<char>>,
    labels: Seq<(Seq<char>, crate::primitive::Scalar)>,
    now: i64,
)
    requires
        crate::paths::stripped(first_title) == crate::paths::stripped(title),
        add_to(
            notes,
            root,
            first_file,
            first_url,
            first_title,
            first_authors,
            first_tags,
            first_labels,
            first_now,
        ).0 is Ok,
        file matches Some(f) ==> relative_to(root, f) is Some,
    ensures
        ({
            let first = add_to(
                notes,
                root,
                first_file,
                first_url,
                first_title,
                first_authors,
                first_tags,
                first_labels,
                first_now,
            );
            let second = add_to(first.1, root, file, url, title, authors, tags, labels, now);
            &&& second.0 == Err::<PaperView, _>(RepoError::AlreadyExists)
            &&& second.1 == first.1
            &&& first.1[note_path_of(first_title)] == first.0->Ok_0
        }),
{
}

/// A paper can be added exactly if its document, if it has one, lies below
/// the root, something is left of its title once the prohibited characters
/// are gone, and no note stands at the path that its title derives.
pub proof fn lemma_add_succeeds(
    notes: Notes,
    root: Seq<char>,
    file: Option<Seq<char>>,
    url: Option<Seq<char>>,
    title: Seq<char>,
    authors: Seq<Seq<char>>,
    tags: Seq<Seq<char>>,
    labels: Seq<(Seq<char>, crate::primitive::Scalar)>,
    now: i64,
)
    ensures
        add_to(notes, root, file, url, title, authors, tags, labels, now).0 is Ok <==> ((file
            matches Some(f) ==> relative_to(root, f) is Some) && is_valid_title(title)
            && !notes.dom().contains(note_path_of(title))),
{
}

/// A title of which nothing is left once the prohibited characters are
/// gone names no paper: adding it fails, whatever stands in the root, and
/// leaves the notes as they were; importing it fails as well.
pub proof fn lemma_empty_title_is_refused(
    notes: Notes,
    root: Seq<char>,
    file: Option<Seq<char>>,
    url: Option<Seq<char>>,
    title: Seq<char>,
    authors: Seq<Seq<char>>,
    tags: Seq<Seq<char>>,
    labels: Seq<(Seq<char>, crate::primitive::Scalar)>,
    now: i64,
    taken: bool,
    p: PaperView,
)
    requires
        !is_valid_title(title),
        p.title == title,
    ensures
        added(root, file, url, title, authors, tags, labels, now, taken) is Err,
        (file matches Some(f) ==> relative_to(root, f) is Some) ==> added(
            root,
            file,
            url,
            title,
            authors,
            tags,
            labels,
            now,
            taken,
        ) == Err::<PaperView, _>(RepoError::InvalidTitle),
        add_to(notes, root, file, url, title, authors, tags, labels, now).1 == notes,
        imported(root, p, now) == Err::<DraftView, _>(RepoError::InvalidTitle),
{
}

} // verus!
