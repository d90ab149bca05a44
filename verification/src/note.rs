//! The note file: front matter between two lines of `---`, then the notes.
//!
//! ```text
//! ---
//! title: On Computable Numbers
//! tags: []
//! ---
//! Read chapter 3 again.
//! ```
//!
//! The front matter itself is YAML; this module only frames it and takes the
//! frame apart again.

use crate::text::{append, opt_text};
use vstd::prelude::*;

verus! {

/// The line that opens and closes the front matter.
pub open spec fn fence() -> Seq<char> {
    seq!['-', '-', '-', '\n']
}

/// The text of a note file: the fence, the front matter as it was
/// serialised, the fence again, and the notes.
pub open spec fn rendered(front_matter: Seq<char>, notes: Seq<char>) -> Seq<char> {
    fence() + front_matter + fence() + notes
}

/// Frames `front_matter` and `notes` as the text of a note file.
///
/// The front matter is expected to end with a line break, as YAML
/// serialisers write it; nothing is added between it and the closing fence.
pub fn render_note(front_matter: &str, notes: &str) -> (r: String)
    ensures
        r@ == rendered(front_matter@, notes@),
{
    proof {
        reveal_strlit("---\n");
        assert("---\n"@ == fence());
    }
    let head = append("---\n", front_matter);
    let framed = append(head.as_str(), "---\n");
    append(framed.as_str(), notes)
}

/// What `gray_matter` finds in the text of a note file: the front matter
/// between the delimiters, trimmed, if there is a block that is not empty,
/// and the content that follows it.
pub uninterp spec fn front_matter_split(text: Seq<char>) -> (Option<Seq<char>>, Seq<char>);

/// `gray_matter::Matter::<YAML>::parse` with the default delimiter `---`,
/// taken on trust: the result is what [`front_matter_split`] names for
/// `text`, namely `matter` where `data` is present, and `content`.
#[verifier::external_body]
fn split_front_matter(text: &str) -> (r: (Option<String>, String))
    ensures
        opt_text(r.0) == front_matter_split(text@).0,
        r.1@ == front_matter_split(text@).1,
{
    let parsed = gray_matter::Matter::<gray_matter::engine::YAML>::new().parse(text);
    (parsed.data.map(|_| parsed.matter), parsed.content)
}

/// The two parts of a note file.
#[derive(Debug, Clone, PartialEq, Eq)]
pub struct NoteParts {
    /// The front matter, still as YAML text.
    pub front_matter: String,
    /// The notes below the front matter.
    pub notes: String,
}

impl View for NoteParts {
    type V = (Seq<char>, Seq<char>);

    open spec fn view(&self) -> (Seq<char>, Seq<char>) {
        (self.front_matter@, self.notes@)
    }
}

/// The parts of a note, given what was found in its text: both parts where
/// there is front matter, nothing where there is none.
pub open spec fn parts_of(found: (Option<Seq<char>>, Seq<char>)) -> Option<(Seq<char>, Seq<char>)> {
    match found.0 {
        Some(front_matter) => Some((front_matter, found.1)),
        None => None,
    }
}

/// Puts together what was found in a note's text.
pub fn note_parts(front_matter: Option<String>, content: String) -> (r: Option<NoteParts>)
    ensures
        r is Some <==> front_matter is Some,
        r matches Some(p) ==> p@ == (front_matter->0@, content@),
{
    match front_matter {
        Some(front_matter) => Some(NoteParts { front_matter, notes: content }),
        None => None,
    }
}

/// Takes the text of a note file apart; `None` where it has no front matter.
pub fn split_note(text: &str) -> (r: Option<NoteParts>)
    ensures
        r is Some <==> parts_of(front_matter_split(text@)) is Some,
        r matches Some(p) ==> parts_of(front_matter_split(text@)) == Some(p@),
{
    let (front_matter, content) = split_front_matter(text);
    note_parts(front_matter, content)
}

} // verus!
