//! An argument that is a URL or a local path.

use crate::text::{append, opt_text};
use vstd::prelude::*;

verus! {

/// Url or path.
#[derive(Debug, Clone, PartialEq, Eq)]
pub enum UrlOrPath {
    /// The url, with http or https scheme, as it is written out.
    Url(String),
    /// Local file path.
    Path(String),
}

/// What a [`UrlOrPath`] holds.
pub enum TargetView {
    Url(Seq<char>),
    Path(Seq<char>),
}

impl View for UrlOrPath {
    type V = TargetView;

    open spec fn view(&self) -> TargetView {
        match self {
            UrlOrPath::Url(url) => TargetView::Url(url@),
            UrlOrPath::Path(path) => TargetView::Path(path@),
        }
    }
}

/// What `Url::parse` makes of a text: the scheme of the URL and the URL as
/// it is written out, or `None` where the text is no URL.
pub uninterp spec fn parsed_url(text: Seq<char>) -> Option<(Seq<char>, Seq<char>)>;

/// `reqwest::Url::parse`, with `Url::scheme` and the URL's `Display`, taken
/// on trust: the result is what [`parsed_url`] names for `text`.
#[verifier::external_body]
fn parse_url(text: &str) -> (r: Option<(String, String)>)
    ensures
        r is Some <==> parsed_url(text@) is Some,
        r matches Some(u) ==> parsed_url(text@) == Some((u.0@, u.1@)),
{
    reqwest::Url::parse(text).ok().map(|url| (url.scheme().to_owned(), url.to_string()))
}

/// `Url::to_file_path` of the URL that `reqwest::Url::parse` reads from
/// `text`. What comes back depends on the platform, so nothing is claimed
/// of it.
#[verifier::external_body]
fn url_file_path(text: &str) -> (r: Option<String>) {
    let path = reqwest::Url::parse(text).ok().and_then(|url| url.to_file_path().ok());
    path.map(|p| p.to_string_lossy().into_owned())
}

/// What an argument stands for, given what was made of it as a URL: a URL
/// where the scheme is `http` or `https`; the local path of a `file` URL;
/// the argument itself as a path where it is no URL at all; and a complaint
/// for any other scheme, or a `file` URL without a local path.
pub open spec fn target_of(
    raw: Seq<char>,
    parsed: Option<(Seq<char>, Seq<char>)>,
    file_path: Option<Seq<char>>,
) -> Result<TargetView, Seq<char>> {
    match parsed {
        None => Ok(TargetView::Path(raw)),
        Some((scheme, url)) => if scheme == "http"@ || scheme == "https"@ {
            Ok(TargetView::Url(url))
        } else if scheme == "file"@ {
            match file_path {
                Some(path) => Ok(TargetView::Path(path)),
                None => Err("failed to parse string as valid url or path"@),
            }
        } else {
            Err("failed to parse string as valid url or path "@ + url)
        },
    }
}

impl UrlOrPath {
    /// Decides what the argument `raw` stands for, given its scheme and
    /// written form if it is a URL, and the local path that a `file` URL
    /// names.
    pub fn classify(raw: &str, parsed: Option<(String, String)>, file_path: Option<String>) -> (r:
        Result<UrlOrPath, String>)
        ensures
            agrees(
                r,
                target_of(
                    raw@,
                    match parsed {
                        Some(u) => Some((u.0@, u.1@)),
                        None => None,
                    },
                    opt_text(file_path),
                ),
            ),
    {
        match parsed {
            None => Ok(UrlOrPath::Path(raw.to_owned())),
            Some((scheme, url)) => {
                if *scheme.as_str() == *"http" || *scheme.as_str() == *"https" {
                    Ok(UrlOrPath::Url(url))
                } else if *scheme.as_str() == *"file" {
                    match file_path {
                        Some(path) => Ok(UrlOrPath::Path(path)),
                        None => Err("failed to parse string as valid url or path".to_owned()),
                    }
                } else {
                    Err(append("failed to parse string as valid url or path ", url.as_str()))
                }
            },
        }
    }

    /// Reads an argument as a URL or a path. Which local path a `file` URL
    /// names, if any, is for the platform to say.
    pub fn from_str(s: &str) -> (r: Result<UrlOrPath, String>)
        ensures
            exists|file_path: Option<Seq<char>>|
                agrees(r, #[trigger] target_of(s@, parsed_url(s@), file_path)),
    {
        let parsed = parse_url(s);
        let file_path = url_file_path(s);
        let ghost fp = opt_text(file_path);
        let r = UrlOrPath::classify(s, parsed, file_path);
        assert(agrees(r, target_of(s@, parsed_url(s@), fp)));
        r
    }
}

/// Whether `r` holds what `expected` describes.
pub open spec fn agrees(r: Result<UrlOrPath, String>, expected: Result<TargetView, Seq<char>>) -> bool {
    match r {
        Ok(t) => expected == Ok::<_, Seq<char>>(t@),
        Err(m) => expected == Err::<TargetView, _>(m@),
    }
}

} // verus!
