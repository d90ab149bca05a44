//! Settings that are read from the configuration file.

use vstd::prelude::*;

verus! {

/// Either a path to a file, or raw content.
#[derive(Debug, Clone, PartialEq, Eq)]
pub enum PathOrString {
    /// Path to a file.
    File(String),
    /// Inline content.
    Content(String),
}

/// What a [`PathOrString`] holds.
pub enum TemplateView {
    File(Seq<char>),
    Content(Seq<char>),
}

impl View for PathOrString {
    type V = TemplateView;

    open spec fn view(&self) -> TemplateView {
        match self {
            PathOrString::File(path) => TemplateView::File(path@),
            PathOrString::Content(text) => TemplateView::Content(text@),
        }
    }
}

impl Default for PathOrString {
    /// Inline content, and none of it.
    fn default() -> (r: PathOrString)
        ensures
            r@ == TemplateView::Content(Seq::empty()),
    {
        PathOrString::Content(String::new())
    }
}

} // verus!
