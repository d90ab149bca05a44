//! Renaming files after their papers.
//!
//! A strategy gives each paper a base name. The document of the paper is then
//! to stand under that name in the directory where it is, with the extension
//! that its content calls for, and the note under that name with `.md`. This
//! module names the targets and decides each move; it moves nothing itself.
//!
//! For each paper the caller asks for the name ([`new_name`]), then for the
//! target of the document ([`plan_document`]) and of the note
//! ([`note_target`]), looks whether anything stands at a target, and lets
//! [`decide`] say whether to move. After a document has moved, the paper is
//! pointed at it.

use crate::paper::{PaperMeta, PaperView};
use crate::paths::{
    extension, extension_of, file_name_of, is_plain_name, join, joined, lemma_extend_in_directory,
    lemma_extend_plain_name,
    lemma_extension_is_plain, lemma_extension_of_extended, lemma_stripped_is_plain, parent,
    parent_of, strip_prohibited, stripped, with_extension, with_extension_of,
};
use crate::text::{opt_str, opt_text};
use vstd::prelude::*;

verus! {

/// Strategy to rename files.
#[derive(Clone, Copy, Debug, PartialEq, Eq, Structural)]
pub enum Strategy {
    /// Rename to match the title of the paper.
    Title,
}

/// Why a strategy gives a paper no name.
#[derive(Clone, Copy, Debug, PartialEq, Eq, Structural)]
pub enum RenameError {
    /// Nothing is left of the title once the prohibited characters are gone.
    MissingTitle,
}

/// The name a strategy gives a paper, if it gives one.
pub open spec fn renamed(strategy: Strategy, p: PaperView) -> Option<Seq<char>> {
    match strategy {
        Strategy::Title => if stripped(p.title).len() > 0 {
            Some(stripped(p.title))
        } else {
            None
        },
    }
}

/// The name that the first strategy with a name gives the paper.
pub open spec fn first_name(strategies: Seq<Strategy>, p: PaperView) -> Option<Seq<char>>
    decreases strategies.len(),
{
    if strategies.len() == 0 {
        None
    } else if renamed(strategies[0], p) is Some {
        renamed(strategies[0], p)
    } else {
        first_name(strategies.drop_first(), p)
    }
}

impl Strategy {
    /// Rename a file using the current strategy: the base name for the
    /// files of `paper`, free of prohibited characters.
    pub fn rename(&self, paper: &PaperMeta) -> (r: Result<String, RenameError>)
        ensures
            match r {
                Ok(name) => renamed(*self, paper@) == Some(name@),
                Err(e) => renamed(*self, paper@) is None && e == RenameError::MissingTitle,
            },
    {
        match self {
            Strategy::Title => {
                let name = strip_prohibited(paper.title.as_str());
                if name.as_str().unicode_len() == 0 {
                    Err(RenameError::MissingTitle)
                } else {
                    Ok(name)
                }
            },
        }
    }
}

/// The name that the first of `strategies` with a name gives `paper`.
pub fn new_name(strategies: &Vec<Strategy>, paper: &PaperMeta) -> (r: Option<String>)
    ensures
        opt_text(r) == first_name(strategies@, paper@),
{
    let mut i: usize = 0;
    assert(strategies@.skip(0) == strategies@);
    while i < strategies.len()
        invariant
            i <= strategies.len(),
            first_name(strategies@, paper@) == first_name(strategies@.skip(i as int), paper@),
        decreases strategies.len() - i,
    {
        assert(strategies@.skip(i as int)[0] == strategies@[i as int]);
        assert(strategies@.skip(i as int).drop_first() == strategies@.skip(i + 1));
        if let Ok(name) = strategies[i].rename(paper) {
            return Some(name);
        }
        i += 1;
    }
    None
}

/// The file type that `infer` reads from the first bytes of a file, as the
/// extension it names for it.
pub uninterp spec fn sniffed_extension(head: Seq<u8>) -> Option<Seq<char>>;

/// `infer::get`, with `Type::extension` of the type it finds, taken on
/// trust: the result is the extension that [`sniffed_extension`] names for
/// the bytes of `head`.
#[verifier::external_body]
fn sniff(head: &[u8]) -> (r: Option<String>)
    ensures
        opt_text(r) == sniffed_extension(head@),
{
    infer::get(head).map(|kind| kind.extension().to_owned())
}

/// How many bytes of a document are looked at to tell its type.
pub const SNIFF_LIMIT: usize = 8192;

/// The bytes of a document that are looked at to tell its type: its first
/// 8192, or all of them where it has no more.
pub open spec fn sniffed_bytes(content: Seq<u8>) -> Seq<u8> {
    if content.len() > SNIFF_LIMIT {
        content.take(SNIFF_LIMIT as int)
    } else {
        content
    }
}

/// The extension that the content of a document calls for, if its type can
/// be told from its first bytes.
pub open spec fn content_extension(head: Option<Seq<u8>>) -> Option<Seq<char>> {
    match head {
        Some(bytes) => sniffed_extension(sniffed_bytes(bytes)),
        None => None,
    }
}

/// The extension a document is to have: the one its content calls for, or
/// else the one it has, or none.
pub open spec fn fitting_extension(filename: Seq<char>, sniffed: Option<Seq<char>>) -> Seq<char> {
    match sniffed {
        Some(e) => e,
        None => match extension_of(filename) {
            Some(e) => e,
            None => Seq::empty(),
        },
    }
}

/// Where the document `filename` is to stand under the name `name`: in the
/// directory where it is, with the fitting extension.
pub open spec fn document_target_of(
    filename: Seq<char>,
    name: Seq<char>,
    sniffed: Option<Seq<char>>,
) -> Seq<char> {
    let base = match parent_of(filename) {
        Some(dir) => joined(dir, name),
        None => name,
    };
    with_extension_of(base, fitting_extension(filename, sniffed))
}

/// Where the note of a paper is to stand under the name `name`.
pub open spec fn note_target_of(name: Seq<char>) -> Seq<char> {
    with_extension_of(name, seq!['m', 'd'])
}

/// What is to be done about a file that should stand somewhere.
#[derive(Clone, Copy, Debug, PartialEq, Eq, Structural)]
pub enum Move {
    /// The file stands where it should: nothing to do.
    InPlace,
    /// Another file stands at the target: the file is left where it is.
    Blocked,
    /// The file is to be moved to the target.
    Go,
}

/// What is to be done about a file at `from` that should stand at `to`,
/// where `occupied` says whether something exists at `to`.
pub open spec fn decided(from: Seq<char>, to: Seq<char>, occupied: bool) -> Move {
    if from == to {
        Move::InPlace
    } else if occupied {
        Move::Blocked
    } else {
        Move::Go
    }
}

/// Decides what to do about a file at `from` that should stand at `to`.
pub fn decide(from: &str, to: &str, occupied: bool) -> (r: Move)
    ensures
        r == decided(from@, to@, occupied),
{
    if *from == *to {
        Move::InPlace
    } else if occupied {
        Move::Blocked
    } else {
        Move::Go
    }
}

/// Where the document `filename` is to stand under `name`, given the
/// extension that was read from its content, if any.
pub fn target_with(filename: &str, name: &str, sniffed: Option<&str>) -> (r: String)
    ensures
        r@ == document_target_of(filename@, name@, opt_str(sniffed)),
{
    let ext = match sniffed {
        Some(e) => e.to_owned(),
        None => match extension(filename) {
            Some(e) => e,
            None => String::new(),
        },
    };
    let base = match parent(filename) {
        Some(dir) => join(dir.as_str(), name),
        None => name.to_owned(),
    };
    with_extension(base.as_str(), ext.as_str())
}

/// Where the document `filename` is to stand under `name`. `head` holds the
/// first bytes of the document, or is `None` where it could not be read; no
/// more than the first 8192 bytes are looked at.
pub fn document_target(filename: &str, name: &str, head: Option<&[u8]>) -> (r: String)
    ensures
        r@ == document_target_of(
            filename@,
            name@,
            content_extension(
                match head {
                    Some(bytes) => Some(bytes@),
                    None => None,
                },
            ),
        ),
{
    let sniffed = match head {
        Some(bytes) => if bytes.len() > SNIFF_LIMIT {
            sniff(vstd::slice::slice_subrange(bytes, 0, SNIFF_LIMIT))
        } else {
            sniff(bytes)
        },
        None => None,
    };
    match sniffed {
        Some(e) => target_with(filename, name, Some(e.as_str())),
        None => target_with(filename, name, None),
    }
}

/// Where the document of the paper `p` is to stand under `name`, or `None`
/// where the paper names no document or the document it names is no file.
pub open spec fn document_plan_of(
    p: PaperView,
    name: Seq<char>,
    is_file: bool,
    sniffed: Option<Seq<char>>,
) -> Option<Seq<char>> {
    match p.filename {
        Some(filename) => if is_file {
            Some(document_target_of(filename, name, sniffed))
        } else {
            None
        },
        None => None,
    }
}

/// Where the document of `paper` is to stand under `name`, if it has a
/// document to move. `is_file` says whether the document that the paper
/// names exists; `head` holds its first bytes, or is `None` where it could
/// not be read; no more than the first 8192 bytes are looked at.
pub fn plan_document(paper: &PaperMeta, name: &str, is_file: bool, head: Option<&[u8]>) -> (r:
    Option<String>)
    ensures
        opt_text(r) == document_plan_of(
            paper@,
            name@,
            is_file,
            content_extension(
                match head {
                    Some(bytes) => Some(bytes@),
                    None => None,
                },
            ),
        ),
{
    match &paper.filename {
        Some(filename) => if is_file {
            Some(document_target(filename.as_str(), name, head))
        } else {
            None
        },
        None => None,
    }
}

/// Where the note of a paper is to stand under `name`.
pub fn note_target(name: &str) -> (r: String)
    ensures
        r@ == note_target_of(name@),
{
    proof {
        reveal_strlit("md");
        assert("md"@ == seq!['m', 'd']);
    }
    with_extension(name, "md")
}

/// The root as far as renaming goes: the paths at which something stands.
pub type Files = Set<Seq<char>>;

/// The files after the file at `from` has been moved to `to`.
pub open spec fn moved(files: Files, from: Seq<char>, to: Seq<char>) -> Files {
    files.remove(from).insert(to)
}

/// What a pass does about a file at `from` that should stand at `to`.
pub open spec fn decision(files: Files, from: Seq<char>, to: Seq<char>) -> Move {
    decided(from, to, files.contains(to))
}

/// One pass over the document of the paper `p`, whose content calls for the
/// extension `sniffed`: the files and the paper as they are afterwards, and
/// what was decided, if the paper has a document that exists. After a move
/// the paper is pointed at the file name of the target.
pub open spec fn document_pass(
    files: Files,
    p: PaperView,
    name: Seq<char>,
    sniffed: Option<Seq<char>>,
) -> (Files, PaperView, Option<Move>) {
    match p.filename {
        Some(filename) => match document_plan_of(p, name, files.contains(filename), sniffed) {
            Some(target) => match decision(files, filename, target) {
                Move::Go => (
                    moved(files, filename, target),
                    PaperView { filename: Some(file_name_of(target)), ..p },
                    Some(Move::Go),
                ),
                other => (files, p, Some(other)),
            },
            None => (files, p, None),
        },
        None => (files, p, None),
    }
}

/// One pass over the note at `path`: the files and the path of the note as
/// they are afterwards, and what was decided.
pub open spec fn note_pass(files: Files, path: Seq<char>, name: Seq<char>) -> (
    Files,
    Seq<char>,
    Move,
) {
    match decision(files, path, note_target_of(name)) {
        Move::Go => (moved(files, path, note_target_of(name)), note_target_of(name), Move::Go),
        other => (files, path, other),
    }
}

/// A file that stands at its target is left in place, whatever else exists.
pub proof fn lemma_in_place_stays(path: Seq<char>, occupied: bool)
    ensures
        decided(path, path, occupied) == Move::InPlace,
{
}

/// The note of a paper is to stand where the repository expects it: under
/// the stripped title with `.md`.
pub proof fn lemma_note_target_is_note_path(p: PaperView)
    requires
        renamed(Strategy::Title, p) is Some,
    ensures
        note_target_of(renamed(Strategy::Title, p)->0) == crate::paths::note_path_of(p.title),
{
    let name = stripped(p.title);
    lemma_stripped_is_plain(p.title);
    lemma_extend_plain_name(name, seq!['m', 'd']);
}

/// Whether the document `filename` stands in the root itself, not in a
/// directory below it.
pub open spec fn stands_in_root(filename: Seq<char>) -> bool {
    match parent_of(filename) {
        None => true,
        Some(dir) => dir.len() == 0,
    }
}

/// Once a document in the root has been moved to its target and the paper
/// points at it, a second pass finds it in place: with the same name and the
/// same content, the target is the place where it stands.
pub proof fn lemma_document_rename_settles(
    filename: Seq<char>,
    name: Seq<char>,
    sniffed: Option<Seq<char>>,
    occupied: bool,
)
    requires
        stands_in_root(filename),
        is_plain_name(name),
        name.len() > 0,
        sniffed matches Some(e) ==> is_plain_name(e),
    ensures
        ({
            let target = document_target_of(filename, name, sniffed);
            &&& file_name_of(target) == target
            &&& document_target_of(target, name, sniffed) == target
            &&& decided(target, document_target_of(target, name, sniffed), occupied)
                == Move::InPlace
        }),
{
    let ext = fitting_extension(filename, sniffed);
    let target = document_target_of(filename, name, sniffed);
    if sniffed is None && extension_of(filename) is Some {
        lemma_extension_is_plain(filename);
    }
    lemma_extend_plain_name(name, ext);
    if let Some(dir) = parent_of(filename) {
        assert(name[0] != '/');
        assert(joined(dir, name) =~= name);
    }
    if ext.len() == 0 {
        assert(target == name);
        if sniffed is None {
            assert(fitting_extension(target, sniffed) == Seq::<char>::empty());
        }
    } else {
        lemma_extension_of_extended(name, ext);
        assert(fitting_extension(target, sniffed) == ext);
    }
}

/// The target of a document in a directory below the root stands in that
/// directory, and its file name, at which the paper points after the move,
/// is the name with the fitting extension: another path than the target.
pub proof fn lemma_nested_target(filename: Seq<char>, name: Seq<char>, sniffed: Option<Seq<char>>)
    requires
        !stands_in_root(filename),
        is_plain_name(name),
        name.len() > 0,
        sniffed matches Some(e) ==> is_plain_name(e),
    ensures
        ({
            let target = document_target_of(filename, name, sniffed);
            &&& file_name_of(target) == with_extension_of(
                name,
                fitting_extension(filename, sniffed),
            )
            &&& file_name_of(target) != target
        }),
{
    let ext = fitting_extension(filename, sniffed);
    let dir = parent_of(filename)->0;
    if sniffed is None && extension_of(filename) is Some {
        lemma_extension_is_plain(filename);
    }
    assert(name[0] != '/');
    let prefix = if dir.last() == '/' {
        dir
    } else {
        dir + seq!['/']
    };
    assert(joined(dir, name) =~= prefix + name);
    lemma_extend_in_directory(prefix, name, ext);
}

/// A second pass over the document of a paper moves nothing, if the first
/// pass was not held up by a file in the way: what the first pass moved
/// stands at its target, and what it left in place is left in place again.
///
/// A document in the root is found in place by the second pass. A document
/// in a directory below the root is moved within that directory, and the
/// paper then points at its bare file name; where nothing stands at that
/// name in the root, the second pass finds no document to move.
pub proof fn lemma_second_document_pass_moves_nothing(
    files: Files,
    p: PaperView,
    name: Seq<char>,
    sniffed: Option<Seq<char>>,
)
    requires
        is_plain_name(name),
        name.len() > 0,
        sniffed matches Some(e) ==> is_plain_name(e),
        document_pass(files, p, name, sniffed).2 != Some(Move::Blocked),
        p.filename matches Some(f) ==> (stands_in_root(f) || !files.contains(
            file_name_of(document_target_of(f, name, sniffed)),
        )),
    ensures
        ({
            let first = document_pass(files, p, name, sniffed);
            let second = document_pass(first.0, first.1, name, sniffed);
            &&& second.2 != Some(Move::Go)
            &&& second.0 == first.0
            &&& second.1 == first.1
        }),
{
    if let Some(filename) = p.filename {
        if stands_in_root(filename) {
            lemma_document_rename_settles(filename, name, sniffed, true);
            lemma_document_rename_settles(filename, name, sniffed, false);
        } else {
            lemma_nested_target(filename, name, sniffed);
            let first = document_pass(files, p, name, sniffed);
            if first.2 == Some(Move::Go) {
                let target = document_target_of(filename, name, sniffed);
                let bare = file_name_of(target);
                assert(first.0 == moved(files, filename, target));
                assert(first.1.filename == Some(bare));
                assert(!first.0.contains(bare));
            }
        }
    }
}

/// After a pass has moved a document that stood in a directory below the
/// root, the paper points at the bare file name of the target; a second
/// pass plans nothing for it unless a file stands at that name in the root.
pub proof fn lemma_nested_document_is_left_alone(
    files: Files,
    p: PaperView,
    name: Seq<char>,
    sniffed: Option<Seq<char>>,
)
    requires
        p.filename matches Some(f) && !stands_in_root(f),
        is_plain_name(name),
        name.len() > 0,
        sniffed matches Some(e) ==> is_plain_name(e),
        document_pass(files, p, name, sniffed).2 == Some(Move::Go),
    ensures
        ({
            let first = document_pass(files, p, name, sniffed);
            let bare = file_name_of(document_target_of(p.filename->0, name, sniffed));
            &&& first.1.filename == Some(bare)
            &&& first.0.contains(bare) <==> (files.contains(bare) && bare != p.filename->0)
            &&& !first.0.contains(bare) ==> document_pass(first.0, first.1, name, sniffed).2
                is None
        }),
{
    lemma_nested_target(p.filename->0, name, sniffed);
}

/// A second pass over the note of a paper moves nothing, if the first pass
/// was not held up by a file in the way.
pub proof fn lemma_second_note_pass_moves_nothing(files: Files, path: Seq<char>, name: Seq<char>)
    requires
        note_pass(files, path, name).2 != Move::Blocked,
    ensures
        ({
            let first = note_pass(files, path, name);
            let second = note_pass(first.0, first.1, name);
            &&& second.2 == Move::InPlace
            &&& second.0 == first.0
            &&& second.1 == first.1
        }),
{
}

} // verus!
