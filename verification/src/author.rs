//! Authors of papers.

use crate::text::{trim, trimmed};
use vstd::prelude::*;

verus! {

/// An author's name.
#[derive(Debug, Clone, PartialEq, Eq)]
pub struct Author {
    author: String,
}

impl View for Author {
    type V = Seq<char>;

    closed spec fn view(&self) -> Seq<char> {
        self.author@
    }
}

impl Author {
    /// The author named `s`, without the whitespace around the name.
    pub fn new(s: &str) -> (r: Author)
        ensures
            r@ == trimmed(s@),
    {
        Author { author: trim(s) }
    }

    /// The author's name.
    pub fn name(&self) -> (r: &str)
        ensures
            r@ == self@,
    {
        self.author.as_str()
    }

    /// The author's name as an owned text.
    pub fn to_text(&self) -> (r: String)
        ensures
            r@ == self@,
    {
        self.author.clone()
    }

    /// A copy of the author.
    pub fn duplicate(&self) -> (r: Author)
        ensures
            r@ == self@,
    {
        Author { author: self.author.clone() }
    }

    /// Whether the two authors have the same name.
    pub fn same(&self, other: &Author) -> (r: bool)
        ensures
            r == (self@ == other@),
    {
        self.author == other.author
    }
}

/// The names of `authors`, in order.
pub open spec fn names_of(authors: Seq<Author>) -> Seq<Seq<char>> {
    authors.map_values(|a: Author| a@)
}

/// Copies a list of authors.
pub fn duplicate_authors(authors: &Vec<Author>) -> (r: Vec<Author>)
    ensures
        names_of(r@) == names_of(authors@),
{
    let mut out: Vec<Author> = Vec::new();
    let mut i: usize = 0;
    while i < authors.len()
        invariant
            i <= authors.len(),
            out@.len() == i,
            forall|k: int| 0 <= k < i ==> (#[trigger] out@[k])@ == authors@[k]@,
        decreases authors.len() - i,
    {
        out.push(authors[i].duplicate());
        i += 1;
    }
    assert(names_of(out@) =~= names_of(authors@));
    out
}

/// Whether an author named `name` is among `authors`.
pub fn has_author(authors: &Vec<Author>, name: &str) -> (r: bool)
    ensures
        r == names_of(authors@).contains(name@),
{
    let mut i: usize = 0;
    while i < authors.len()
        invariant
            i <= authors.len(),
            forall|k: int| 0 <= k < i ==> names_of(authors@)[k] != name@,
        decreases authors.len() - i,
    {
        if *authors[i].name() == *name {
            assert(names_of(authors@)[i as int] == name@);
            return true;
        }
        i += 1;
    }
    false
}

} // verus!
