//! The doctor: a pass over the root that finds where files and metadata have
//! drifted apart, and says what would set it right.
//!
//! The caller walks the regular files of the root in ascending order of
//! their paths and reports each to the doctor: a note with the paper read
//! from it, or any other file. The doctor answers each note with what it
//! found and, where repair was asked for, with the moves that mend it. At
//! the end it names the files that no paper accounts for. It deletes nothing
//! and moves nothing itself.

use crate::keys::{
    entries_map, entry_keys, lemma_entry_is_mapped, lemma_sorted_no_duplicates, strictly_sorted,
    SortedMap,
};
use crate::paper::{PaperMeta, PaperView};
use crate::repo::RepoError;
use crate::paths::{
    extension, extension_of, is_plain_name, lemma_extend_plain_name, lemma_extension_is_plain,
    lemma_extension_of_extended, lemma_stripped_is_plain, note_path, note_path_of, stripped,
    with_extension, with_extension_of,
};
use vstd::prelude::*;

verus! {

/// Something the doctor found.
#[derive(Debug, Clone, PartialEq, Eq)]
pub enum Finding {
    /// A note does not stand where its title says.
    NoteMisplaced { current: String, expected: String },
    /// The document that a paper names is no file.
    DocumentMissing { note: String, filename: String },
    /// A document is not named after its paper.
    DocumentMisplaced { filename: String, expected: String },
    /// A file that is no note and that no paper names.
    Unmatched { path: String },
    /// A note that could not be read as a paper.
    Unreadable { path: String, error: RepoError },
}

/// What a [`Finding`] holds.
pub enum FindingView {
    NoteMisplaced { current: Seq<char>, expected: Seq<char> },
    DocumentMissing { note: Seq<char>, filename: Seq<char> },
    DocumentMisplaced { filename: Seq<char>, expected: Seq<char> },
    Unmatched { path: Seq<char> },
    Unreadable { path: Seq<char>, error: RepoError },
}

impl View for Finding {
    type V = FindingView;

    open spec fn view(&self) -> FindingView {
        match self {
            Finding::NoteMisplaced { current, expected } => FindingView::NoteMisplaced {
                current: current@,
                expected: expected@,
            },
            Finding::DocumentMissing { note, filename } => FindingView::DocumentMissing {
                note: note@,
                filename: filename@,
            },
            Finding::DocumentMisplaced { filename, expected } => FindingView::DocumentMisplaced {
                filename: filename@,
                expected: expected@,
            },
            Finding::Unmatched { path } => FindingView::Unmatched { path: path@ },
            Finding::Unreadable { path, error } => FindingView::Unreadable {
                path: path@,
                error: *error,
            },
        }
    }
}

/// A move that mends a finding. Paths are relative to the root.
#[derive(Debug, Clone, PartialEq, Eq)]
pub enum Repair {
    /// Move the note file.
    MoveNote { from: String, to: String },
    /// Move the document, and point the paper at where it then stands.
    MoveDocument { from: String, to: String },
}

/// What a [`Repair`] holds.
pub enum RepairView {
    MoveNote { from: Seq<char>, to: Seq<char> },
    MoveDocument { from: Seq<char>, to: Seq<char> },
}

impl View for Repair {
    type V = RepairView;

    open spec fn view(&self) -> RepairView {
        match self {
            Repair::MoveNote { from, to } => RepairView::MoveNote { from: from@, to: to@ },
            Repair::MoveDocument { from, to } => RepairView::MoveDocument { from: from@, to: to@ },
        }
    }
}

/// What a run of findings holds.
pub open spec fn finding_views(fs: Seq<Finding>) -> Seq<FindingView> {
    fs.map_values(|f: Finding| f@)
}

/// What a run of repairs holds.
pub open spec fn repair_views(rs: Seq<Repair>) -> Seq<RepairView> {
    rs.map_values(|r: Repair| r@)
}

/// Where the document of a paper should stand: beside the note, under the
/// note's name with the document's own extension.
pub open spec fn document_home(p: PaperView, filename: Seq<char>) -> Seq<char> {
    with_extension_of(
        note_path_of(p.title),
        match extension_of(filename) {
            Some(e) => e,
            None => Seq::empty(),
        },
    )
}

/// What is wrong with where the note stands, if anything.
pub open spec fn note_finding(path: Seq<char>, p: PaperView) -> Option<FindingView> {
    if path != note_path_of(p.title) {
        Some(FindingView::NoteMisplaced { current: path, expected: note_path_of(p.title) })
    } else {
        None
    }
}

/// What is wrong with the document of the paper, if anything.
/// `document_is_file` says whether the file it names exists.
pub open spec fn document_finding(path: Seq<char>, p: PaperView, document_is_file: bool) -> Option<
    FindingView,
> {
    match p.filename {
        None => None,
        Some(filename) => if !document_is_file {
            Some(FindingView::DocumentMissing { note: path, filename })
        } else if filename != document_home(p, filename) {
            Some(
                FindingView::DocumentMisplaced { filename, expected: document_home(p, filename) },
            )
        } else {
            None
        },
    }
}

/// The items of `first` and of `second` that are there, in this order.
pub open spec fn both<T>(first: Option<T>, second: Option<T>) -> Seq<T> {
    match (first, second) {
        (Some(a), Some(b)) => seq![a, b],
        (Some(a), None) => seq![a],
        (None, Some(b)) => seq![b],
        (None, None) => Seq::empty(),
    }
}

/// All that is wrong with a note and its document.
pub open spec fn note_findings(path: Seq<char>, p: PaperView, document_is_file: bool) -> Seq<
    FindingView,
> {
    both(note_finding(path, p), document_finding(path, p, document_is_file))
}

/// The move that mends a finding, if a move can.
pub open spec fn repair_of(finding: Option<FindingView>) -> Option<RepairView> {
    match finding {
        Some(FindingView::NoteMisplaced { current, expected }) => Some(
            RepairView::MoveNote { from: current, to: expected },
        ),
        Some(FindingView::DocumentMisplaced { filename, expected }) => Some(
            RepairView::MoveDocument { from: filename, to: expected },
        ),
        _ => None,
    }
}

/// The moves that mend a note and its document; none unless repair was asked for.
pub open spec fn note_repairs(
    path: Seq<char>,
    p: PaperView,
    document_is_file: bool,
    fix: bool,
) -> Seq<RepairView> {
    if fix {
        both(
            repair_of(note_finding(path, p)),
            repair_of(document_finding(path, p, document_is_file)),
        )
    } else {
        Seq::empty()
    }
}

/// The files seen so far, once the document of a paper is accounted for.
pub open spec fn accounted(
    seen: Map<Seq<char>, bool>,
    p: PaperView,
    document_is_file: bool,
) -> Map<Seq<char>, bool> {
    match p.filename {
        Some(filename) => if document_is_file {
            seen.insert(filename, true)
        } else {
            seen
        },
        None => seen,
    }
}

/// The files seen so far, once another file has been seen at `path`.
pub open spec fn noticed(seen: Map<Seq<char>, bool>, path: Seq<char>) -> Map<Seq<char>, bool> {
    if seen.dom().contains(path) {
        seen
    } else {
        seen.insert(path, false)
    }
}

/// The files among `entries` that no paper accounts for, in their order.
pub open spec fn unmatched(entries: Seq<(Seq<char>, bool)>) -> Seq<FindingView>
    decreases entries.len(),
{
    if entries.len() == 0 {
        Seq::empty()
    } else if entries.last().1 {
        unmatched(entries.drop_last())
    } else {
        unmatched(entries.drop_last()).push(FindingView::Unmatched { path: entries.last().0 })
    }
}

/// What the doctor answers to a note.
#[derive(Debug, Clone, PartialEq, Eq)]
pub struct Diagnosis {
    /// What was found, the note first.
    pub findings: Vec<Finding>,
    /// The moves that mend it, the note first; empty unless repair was asked for.
    pub repairs: Vec<Repair>,
}

/// One pass of the doctor.
#[derive(Debug)]
pub struct Doctor {
    fix: bool,
    seen: SortedMap<bool>,
}

impl Doctor {
    /// Whether the doctor is to say how to mend what it finds.
    pub closed spec fn fixes(&self) -> bool {
        self.fix
    }

    /// The files seen so far that are no notes, each with whether a paper
    /// accounts for it.
    pub closed spec fn seen(&self) -> Map<Seq<char>, bool> {
        self.seen.map()
    }

    /// The files seen so far that are no notes, in ascending order of their paths.
    pub closed spec fn entries(&self) -> Seq<(Seq<char>, bool)> {
        self.seen@
    }

    /// A doctor that has seen nothing yet.
    pub fn new(fix: bool) -> (r: Doctor)
        ensures
            r.fixes() == fix,
            r.seen() == Map::<Seq<char>, bool>::empty(),
            r.entries() == Seq::<(Seq<char>, bool)>::empty(),
    {
        let r = Doctor { fix, seen: SortedMap::new() };
        assert(r.seen() =~= Map::<Seq<char>, bool>::empty());
        r
    }

    /// Reports the note at `path`, which could not be read because of
    /// `error`. The pass goes on with the other files.
    pub fn unreadable(path: &str, error: RepoError) -> (r: Finding)
        ensures
            r@ == (FindingView::Unreadable { path: path@, error }),
    {
        Finding::Unreadable { path: path.to_owned(), error }
    }

    /// What is wrong with where the note at `path` stands, if anything.
    pub fn check_note(path: &str, paper: &PaperMeta) -> (r: Option<Finding>)
        ensures
            match r {
                Some(f) => note_finding(path@, paper@) == Some(f@),
                None => note_finding(path@, paper@) is None,
            },
    {
        let expected = note_path(paper.title.as_str());
        if *path != *expected.as_str() {
            Some(Finding::NoteMisplaced { current: path.to_owned(), expected })
        } else {
            None
        }
    }

    /// What is wrong with the document of the paper in the note at `path`,
    /// if anything. `document_is_file` says whether the file it names exists.
    pub fn check_document(path: &str, paper: &PaperMeta, document_is_file: bool) -> (r: Option<
        Finding,
    >)
        ensures
            match r {
                Some(f) => document_finding(path@, paper@, document_is_file) == Some(f@),
                None => document_finding(path@, paper@, document_is_file) is None,
            },
    {
        match &paper.filename {
            None => None,
            Some(filename) => {
                if !document_is_file {
                    Some(
                        Finding::DocumentMissing {
                            note: path.to_owned(),
                            filename: filename.clone(),
                        },
                    )
                } else {
                    let note = note_path(paper.title.as_str());
                    let ext = match extension(filename.as_str()) {
                        Some(e) => e,
                        None => String::new(),
                    };
                    let home = with_extension(note.as_str(), ext.as_str());
                    if *filename.as_str() != *home.as_str() {
                        Some(
                            Finding::DocumentMisplaced {
                                filename: filename.clone(),
                                expected: home,
                            },
                        )
                    } else {
                        None
                    }
                }
            },
        }
    }

    /// The move that mends `finding`, if a move can.
    pub fn repair(finding: &Finding) -> (r: Option<Repair>)
        ensures
            match r {
                Some(m) => repair_of(Some(finding@)) == Some(m@),
                None => repair_of(Some(finding@)) is None,
            },
    {
        match finding {
            Finding::NoteMisplaced { current, expected } => Some(
                Repair::MoveNote { from: current.clone(), to: expected.clone() },
            ),
            Finding::DocumentMisplaced { filename, expected } => Some(
                Repair::MoveDocument { from: filename.clone(), to: expected.clone() },
            ),
            _ => None,
        }
    }

    /// Examines the note at `path`, which holds `paper`.
    ///
    /// `document_is_file` says whether the document that the paper names
    /// exists. The doctor reports a note that does not stand where its title
    /// says, and a document that is missing or not named after the paper;
    /// a document that exists is accounted for from now on.
    pub fn note(&mut self, path: &str, paper: &PaperMeta, document_is_file: bool) -> (r: Diagnosis)
        ensures
            finding_views(r.findings@) == note_findings(path@, paper@, document_is_file),
            repair_views(r.repairs@) == note_repairs(
                path@,
                paper@,
                document_is_file,
                old(self).fixes(),
            ),
            final(self).seen() == accounted(old(self).seen(), paper@, document_is_file),
            final(self).fixes() == old(self).fixes(),
    {
        let mut findings: Vec<Finding> = Vec::new();
        let mut repairs: Vec<Repair> = Vec::new();
        let a = Doctor::check_note(path, paper);
        let b = Doctor::check_document(path, paper, document_is_file);
        if let Some(f) = a {
            if self.fix {
                if let Some(m) = Doctor::repair(&f) {
                    repairs.push(m);
                }
            }
            findings.push(f);
        }
        if let Some(f) = b {
            if self.fix {
                if let Some(m) = Doctor::repair(&f) {
                    repairs.push(m);
                }
            }
            findings.push(f);
        }
        assert(finding_views(findings@) =~= note_findings(path@, paper@, document_is_file));
        assert(repair_views(repairs@) =~= note_repairs(
            path@,
            paper@,
            document_is_file,
            self.fix,
        ));
        if document_is_file {
            if let Some(filename) = &paper.filename {
                self.seen.set(filename.as_str(), true);
            }
        }
        Diagnosis { findings, repairs }
    }

    /// Takes note of a file at `path` that is no note. It counts as
    /// unmatched until a paper accounts for it.
    pub fn other(&mut self, path: &str)
        ensures
            final(self).seen() == noticed(old(self).seen(), path@),
            final(self).fixes() == old(self).fixes(),
    {
        if self.seen.get(path).is_none() {
            self.seen.set(path, false);
        }
    }

    /// The files that no paper accounts for, in ascending order of their paths.
    pub fn finish(&self) -> (r: Vec<Finding>)
        ensures
            finding_views(r@) == unmatched(self.entries()),
            strictly_sorted(entry_keys(self.entries())),
            entries_map(self.entries()) == self.seen(),
    {
        let mut out: Vec<Finding> = Vec::new();
        let n = self.seen.len();
        let mut i: usize = 0;
        let _ = self.seen.is_sorted();
        assert(self.entries().take(0) == Seq::<(Seq<char>, bool)>::empty());
        assert(finding_views(out@) =~= Seq::<FindingView>::empty());
        while i < n
            invariant
                i <= n,
                n == self.entries().len(),
                finding_views(out@) == unmatched(self.entries().take(i as int)),
            decreases n - i,
        {
            proof {
                let e = self.entries();
                assert(e.take(i + 1).drop_last() == e.take(i as int));
                assert(e.take(i + 1).last() == e[i as int]);
            }
            if !self.seen.value_at(i) {
                let ghost before = finding_views(out@);
                let f = Finding::Unmatched { path: self.seen.key_at(i).to_owned() };
                out.push(f);
                assert(finding_views(out@) =~= before.push(f@));
            }
            i += 1;
        }
        assert(self.entries().take(n as int) == self.entries());
        out
    }
}

/// The files that are reported as unmatched are those that were seen and
/// that no paper accounts for.
pub proof fn lemma_unmatched_are_unaccounted(entries: Seq<(Seq<char>, bool)>, path: Seq<char>)
    requires
        strictly_sorted(entry_keys(entries)),
    ensures
        unmatched(entries).contains(FindingView::Unmatched { path }) <==> (entries_map(
            entries,
        ).dom().contains(path) && !entries_map(entries)[path]),
    decreases entries.len(),
{
    let wanted = FindingView::Unmatched { path };
    lemma_sorted_no_duplicates(entry_keys(entries));
    if entries.len() > 0 {
        let before = entries.drop_last();
        let last = entries.last();
        assert(entry_keys(before) =~= entry_keys(entries).drop_last());
        lemma_unmatched_are_unaccounted(before, path);
        lemma_sorted_no_duplicates(entry_keys(before));
        lemma_entry_is_mapped(entries, entries.len() - 1);
        if entry_keys(before).contains(path) {
            // What the shorter run maps, the whole run maps alike.
            let i = entry_keys(before).index_of(path);
            lemma_entry_is_mapped(before, i);
            lemma_entry_is_mapped(entries, i);
        } else if entry_keys(entries).contains(path) {
            // Only the last entry can hold a key that the shorter run lacks.
            let i = entry_keys(entries).index_of(path);
            assert(i < before.len() ==> entry_keys(before)[i] == path);
        }
        if !last.1 {
            let found = unmatched(before);
            let all = found.push(FindingView::Unmatched { path: last.0 });
            if found.contains(wanted) {
                let i = choose|i: int| 0 <= i < found.len() && found[i] == wanted;
                assert(all[i] == wanted);
            }
            if last.0 == path {
                assert(all[found.len() as int] == wanted);
            }
        }
    }
}

/// A note that stands where its title says is not reported.
pub proof fn lemma_note_in_place_is_fine(p: PaperView)
    ensures
        note_finding(note_path_of(p.title), p) is None,
{
}

/// The move that mends a misplaced note takes it to the path that its title
/// derives, where the next pass finds nothing wrong with its place.
pub proof fn lemma_note_repair_settles(path: Seq<char>, p: PaperView)
    requires
        note_finding(path, p) is Some,
    ensures
        repair_of(note_finding(path, p)) == Some(
            RepairView::MoveNote { from: path, to: note_path_of(p.title) },
        ),
        note_finding(note_path_of(p.title), p) is None,
{
}

/// Without a request for repair the doctor proposes no move.
pub proof fn lemma_no_fix_no_repairs(path: Seq<char>, p: PaperView, document_is_file: bool)
    ensures
        note_repairs(path, p, document_is_file, false) == Seq::<RepairView>::empty(),
{
}

/// Once a misplaced document has been moved to its home and the paper
/// points at it, the next pass finds nothing wrong with it.
pub proof fn lemma_document_repair_settles(path: Seq<char>, p: PaperView, filename: Seq<char>)
    requires
        p.filename == Some(filename),
        stripped(p.title).len() > 0,
    ensures
        ({
            let home = document_home(p, filename);
            let mended = PaperView { filename: Some(home), ..p };
            document_finding(path, mended, true) is None
        }),
{
    let name = stripped(p.title);
    let note = note_path_of(p.title);
    let md = seq!['m', 'd'];
    assert(note == name + seq!['.'] + md);
    lemma_stripped_is_plain(p.title);
    assert(is_plain_name(md));
    lemma_extension_of_extended(name, md);
    let ext = match extension_of(filename) {
        Some(e) => e,
        None => Seq::empty(),
    };
    let home = document_home(p, filename);
    assert(note.take(name.len() as int) == name);
    if ext.len() == 0 {
        assert(home == name);
        lemma_extend_plain_name(name, Seq::empty());
        let mended = PaperView { filename: Some(home), ..p };
        assert(document_home(mended, home) == name);
    } else {
        lemma_extension_is_plain(filename);
        assert(home == name + seq!['.'] + ext);
        lemma_extension_of_extended(name, ext);
        let mended = PaperView { filename: Some(home), ..p };
        assert(document_home(mended, home) == home);
    }
}

} // verus!
