//! Trusted wrappers around the `url` and `percent-encoding` crates.
//!
//! The library represents URLs by their serialized string form.  What a URL
//! operation returns for a given string is a pure function of that string, so
//! each wrapper names its result with an uninterpreted spec function and the
//! verified resolution logic is stated over those names.

use vstd::prelude::*;

verus! {

use url::Url;

/// Serialization of `Url::parse(s)`, `None` when parsing fails.
pub uninterp spec fn spec_parse_url(s: Seq<char>) -> Option<Seq<char>>;

/// Relies on `url::Url::parse`: parsing an absolute URL string either fails
/// or yields a URL whose serialization depends on the input alone.
#[verifier::external_body]
pub fn parse_url(s: &str) -> (r: Option<String>)
    ensures
        match r {
            Some(u) => spec_parse_url(s@) == Some(u@),
            None => spec_parse_url(s@) is None,
        },
{
    match Url::parse(s) {
        Ok(u) => Some(u.to_string()),
        Err(_) => None,
    }
}

/// Serialization of `Url::parse(base)?.join(rel)`, `None` when either the
/// base does not parse or the join fails.
pub uninterp spec fn spec_join_url(base: Seq<char>, rel: Seq<char>) -> Option<Seq<char>>;

/// Relies on `url::Url::parse` and `url::Url::join`: resolving `rel` against
/// the base URL serialized as `base` depends on the two strings alone.
#[verifier::external_body]
pub fn join_url(base: &str, rel: &str) -> (r: Option<String>)
    ensures
        match r {
            Some(u) => spec_join_url(base@, rel@) == Some(u@),
            None => spec_join_url(base@, rel@) is None,
        },
{
    match Url::parse(base) {
        Ok(b) => match b.join(rel) {
            Ok(u) => Some(u.to_string()),
            Err(_) => None,
        },
        Err(_) => None,
    }
}

/// Serialization of the base URL after `path_segments_mut` popped an empty
/// final segment and appended the `/`-separated segments of `prefix`;
/// `None` when the base does not parse or cannot be a base.
pub uninterp spec fn spec_extend_url_segments(base: Seq<char>, prefix: Seq<char>) -> Option<
    Seq<char>,
>;

/// Relies on `url::Url::path_segments_mut` (with `pop_if_empty` and
/// `extend`): appending path segments to a URL depends on the serialized
/// base and the appended string alone.  Returns `None` exactly when the
/// base does not parse or is a cannot-be-a-base URL.
#[verifier::external_body]
pub fn extend_url_segments(base: &str, prefix: &str) -> (r: Option<String>)
    ensures
        match r {
            Some(u) => spec_extend_url_segments(base@, prefix@) == Some(u@),
            None => spec_extend_url_segments(base@, prefix@) is None,
        },
{
    let mut u = match Url::parse(base) {
        Ok(u) => u,
        Err(_) => return None,
    };
    match u.path_segments_mut() {
        Ok(mut segments) => {
            segments.pop_if_empty();
            segments.extend(prefix.split('/'));
        }
        Err(()) => return None,
    }
    Some(u.to_string())
}

/// The path component of `Url::parse(s)`, `None` when parsing fails.
pub uninterp spec fn spec_url_path(s: Seq<char>) -> Option<Seq<char>>;

/// Relies on `url::Url::path`: the path component of a URL depends on its
/// serialization alone.
#[verifier::external_body]
pub fn url_path(s: &str) -> (r: Option<String>)
    ensures
        match r {
            Some(p) => spec_url_path(s@) == Some(p@),
            None => spec_url_path(s@) is None,
        },
{
    match Url::parse(s) {
        Ok(u) => Some(u.path().to_owned()),
        Err(_) => None,
    }
}

/// Serialization of `Url::parse(s)` after its path was replaced by its old
/// path with `suffix` appended; `None` when `s` does not parse.
pub uninterp spec fn spec_append_url_pathsuffix(s: Seq<char>, suffix: Seq<char>) -> Option<
    Seq<char>,
>;

/// Relies on `url::Url::path` and `url::Url::set_path`: extending the path
/// component of a URL depends on the serialized URL and the suffix alone.
#[verifier::external_body]
pub fn append_url_pathsuffix(s: &str, suffix: &str) -> (r: Option<String>)
    ensures
        match r {
            Some(u) => spec_append_url_pathsuffix(s@, suffix@) == Some(u@),
            None => spec_append_url_pathsuffix(s@, suffix@) is None,
        },
{
    match Url::parse(s) {
        Ok(mut u) => {
            let new_path = u.path().to_owned() + suffix;
            u.set_path(&new_path);
            Some(u.to_string())
        }
        Err(_) => None,
    }
}

/// Lossy UTF-8 decoding of the percent-decoded bytes of `s`.
pub uninterp spec fn spec_percent_decode(s: Seq<char>) -> Seq<char>;

/// Relies on `percent_encoding::percent_decode_str`: percent-decoding
/// depends on the input string alone.
#[verifier::external_body]
pub fn percent_decode(s: &str) -> (r: String)
    ensures
        r@ == spec_percent_decode(s@),
{
    percent_encoding::percent_decode_str(s).decode_utf8_lossy().into_owned()
}

} // verus!
