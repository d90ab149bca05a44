//! Where a fetched document is saved.

use crate::paths::{extension, extension_of, with_extension, with_extension_of};
use crate::text::opt_str;
use vstd::prelude::*;

verus! {

/// The path at which a fetched document is saved: `path`, with the
/// extension `pdf` where the server said that it sent a PDF and the path
/// has another extension or none.
pub open spec fn saved_as(path: Seq<char>, content_type: Option<Seq<char>>) -> Seq<char> {
    if content_type == Some("application/pdf"@) && extension_of(path) != Some("pdf"@) {
        with_extension_of(path, "pdf"@)
    } else {
        path
    }
}

/// The path at which to save a document that was fetched for `path`, given
/// the content type that came with it.
pub fn fetched_filename(path: &str, content_type: Option<&str>) -> (r: String)
    ensures
        r@ == saved_as(path@, opt_str(content_type)),
{
    let is_pdf = match content_type {
        Some(t) => *t == *"application/pdf",
        None => false,
    };
    let has_pdf_extension = match extension(path) {
        Some(e) => *e.as_str() == *"pdf",
        None => false,
    };
    if is_pdf && !has_pdf_extension {
        with_extension(path, "pdf")
    } else {
        path.to_owned()
    }
}

} // verus!
