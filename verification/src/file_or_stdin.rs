//! Where a command reads from: a file, or standard input.

use crate::text::{append, debug_quoted, quoted};
use vstd::prelude::*;

verus! {

/// A filename or stdin.
#[derive(Debug, Clone, PartialEq, Eq)]
pub enum FileOrStdin {
    /// A filename.
    File(String),
    /// stdin.
    Stdin,
}

/// What a [`FileOrStdin`] holds.
pub enum SourceView {
    File(Seq<char>),
    Stdin,
}

impl View for FileOrStdin {
    type V = SourceView;

    open spec fn view(&self) -> SourceView {
        match self {
            FileOrStdin::File(path) => SourceView::File(path@),
            FileOrStdin::Stdin => SourceView::Stdin,
        }
    }
}

/// What an argument names: standard input for `-`, else the file at that
/// path if there is one, else nothing.
pub open spec fn named_source(s: Seq<char>, is_file: bool) -> Option<SourceView> {
    if s == "-"@ {
        Some(SourceView::Stdin)
    } else if is_file {
        Some(SourceView::File(s))
    } else {
        None
    }
}

/// What reading an argument comes to: what it names, or a complaint that
/// shows the path.
pub open spec fn source_of(s: Seq<char>, is_file: bool) -> Result<SourceView, Seq<char>> {
    match named_source(s, is_file) {
        Some(source) => Ok(source),
        None => Err("Path was not a file: "@ + quoted(s)),
    }
}

impl FileOrStdin {
    /// What the argument `s` names. `is_file` says whether a file exists at the path `s`.
    pub fn classify(s: &str, is_file: bool) -> (r: Option<FileOrStdin>)
        ensures
            r is Some <==> named_source(s@, is_file) is Some,
            r matches Some(f) ==> named_source(s@, is_file) == Some(f@),
    {
        if *s == *"-" {
            Some(FileOrStdin::Stdin)
        } else if is_file {
            Some(FileOrStdin::File(s.to_owned()))
        } else {
            None
        }
    }

    /// Reads an argument. `is_file` says whether a file exists at the path `s`.
    pub fn from_str(s: &str, is_file: bool) -> (r: Result<FileOrStdin, String>)
        ensures
            match r {
                Ok(f) => source_of(s@, is_file) == Ok::<_, Seq<char>>(f@),
                Err(m) => source_of(s@, is_file) == Err::<SourceView, _>(m@),
            },
    {
        match FileOrStdin::classify(s, is_file) {
            Some(f) => Ok(f),
            None => Err(append("Path was not a file: ", debug_quoted(s).as_str())),
        }
    }
}

} // verus!
