//! Stateless predicates classifying raw specifier strings as remote
//! (http/https), relative-path, or absolute-path specifiers.

use vstd::prelude::*;

verus! {

use crate::strutil::{starts_with, str_starts_with};

/// The specifier addresses a remote module over http or https.
pub open spec fn spec_is_http_specifier(s: Seq<char>) -> bool {
    starts_with(s, "https://"@) || starts_with(s, "http://"@)
}

/// The specifier is a relative path (`./` or `../`).
pub open spec fn spec_is_relpath_specifier(s: Seq<char>) -> bool {
    starts_with(s, "./"@) || starts_with(s, "../"@)
}

/// The specifier is an absolute path (`/...` or a file-scheme URL).
pub open spec fn spec_is_abspath_specifier(s: Seq<char>) -> bool {
    starts_with(s, "/"@) || starts_with(s, "file://"@)
}

pub fn is_http_specifier(url: &str) -> (r: bool)
    ensures
        r == spec_is_http_specifier(url@),
{
    str_starts_with(url, "https://") || str_starts_with(url, "http://")
}

pub fn is_relpath_specifier(specifier: &str) -> (r: bool)
    ensures
        r == spec_is_relpath_specifier(specifier@),
{
    str_starts_with(specifier, "./") || str_starts_with(specifier, "../")
}

pub fn is_abspath_specifier(specifier: &str) -> (r: bool)
    ensures
        r == spec_is_abspath_specifier(specifier@),
{
    str_starts_with(specifier, "/") || str_starts_with(specifier, "file://")
}

} // verus!
