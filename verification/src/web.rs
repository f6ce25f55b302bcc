//! Trusted bridges to the url crate: whether a text parses as a URL, and the
//! last segment of its path.

use vstd::prelude::*;

verus! {

/// Whether the url crate accepts `s` as an absolute URL: a function of the
/// text alone.
pub uninterp spec fn is_parsable_url(s: Seq<char>) -> bool;

/// The last path segment of `s`, when `s` parses as a URL whose path has
/// segments: a function of the text alone.
pub uninterp spec fn last_path_segment(s: Seq<char>) -> Option<Seq<char>>;

/// Relies on url::Url::parse: it accepts or refuses a URL text
/// deterministically.
#[verifier::external_body]
pub(crate) fn url_is_valid(s: &str) -> (r: bool)
    ensures
        r == is_parsable_url(s@),
{
    url::Url::parse(s).is_ok()
}

/// Relies on url::Url::parse and url::Url::path_segments: a URL's path
/// segments are a function of its text; the last one is handed out, and
/// there is none exactly when the text does not parse or the URL cannot be
/// a base.
#[verifier::external_body]
pub(crate) fn url_file_name(s: &str) -> (r: Option<String>)
    ensures
        r is Some <==> (is_parsable_url(s@) && last_path_segment(s@) is Some),
        r matches Some(seg) ==> last_path_segment(s@) == Some(seg@),
{
    let u = url::Url::parse(s).ok()?;
    let seg = u.path_segments()?.last()?;
    Some(seg.to_string())
}

} // verus!
