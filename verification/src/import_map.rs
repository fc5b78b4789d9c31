//! The import-map model.
//!
//! An import map is an ordered table remapping bare or prefixed specifiers
//! to concrete addresses, with optional per-scope overrides.  Keys and
//! addresses are normalized to absolute-URL strings while parsing, and each
//! map is sorted in descending lexicographic order so that the first match
//! is always the longest (most specific) one.

use vstd::prelude::*;

verus! {

use crate::specifier::{
    is_abspath_specifier,
    is_http_specifier,
    is_relpath_specifier,
    spec_is_abspath_specifier,
    spec_is_http_specifier,
    spec_is_relpath_specifier,
};
use crate::strutil::{
    ends_with,
    lemma_lex_lt_asymmetric,
    lemma_lex_lt_total,
    lemma_lex_lt_trans,
    lemma_prefixes_nested,
    lemma_proper_prefix_lex_lt,
    lex_lt,
    starts_with,
    str_concat,
    str_concat3,
    str_concat5,
    str_ends_with,
    str_eq,
    str_lex_lt,
    str_starts_with,
    str_substring,
};
use crate::json::{json_to_string, spec_json, JsonValue};
use crate::urlops::{
    append_url_pathsuffix,
    join_url,
    parse_url,
    percent_decode,
    spec_append_url_pathsuffix,
    spec_join_url,
    spec_parse_url,
    spec_percent_decode,
    spec_url_path,
    url_path,
    extend_url_segments,
    spec_extend_url_segments,
};
use vstd::string::*;

/// One resolved specifier-map entry: a normalized key, mapped either to a
/// normalized address or to `None` (an explicitly blocked entry).
pub type SmEntry = (Seq<char>, Option<Seq<char>>);

/// A scope entry: a normalized scope-prefix URL and its specifier map.
pub type ScEntry = (Seq<char>, Seq<SmEntry>);

// ---------------------------------------------------------------------------
// Diagnostics and errors
// ---------------------------------------------------------------------------

/// Non-fatal problems found while parsing an import map.  They are collected
/// and reported alongside the parsed map; they never abort parsing.
#[derive(Debug, Clone, PartialEq, Eq)]
pub enum ImportMapDiagnostic {
    EmptySpecifier,
    InvalidScope(String, String),
    InvalidTargetAddress(String, String),
    InvalidAddress(String, String),
    InvalidAddressNotString(String, String),
    InvalidTopLevelKey(String),
}

/// Specification-level mirror of `ImportMapDiagnostic`.
pub enum DiagView {
    EmptySpecifier,
    InvalidScope(Seq<char>, Seq<char>),
    InvalidTargetAddress(Seq<char>, Seq<char>),
    InvalidAddress(Seq<char>, Seq<char>),
    InvalidAddressNotString(Seq<char>, Seq<char>),
    InvalidTopLevelKey(Seq<char>),
}

impl View for ImportMapDiagnostic {
    type V = DiagView;

    open spec fn view(&self) -> DiagView {
        match self {
            ImportMapDiagnostic::EmptySpecifier => DiagView::EmptySpecifier,
            ImportMapDiagnostic::InvalidScope(a, b) => DiagView::InvalidScope(a@, b@),
            ImportMapDiagnostic::InvalidTargetAddress(a, b) => DiagView::InvalidTargetAddress(
                a@,
                b@,
            ),
            ImportMapDiagnostic::InvalidAddress(a, b) => DiagView::InvalidAddress(a@, b@),
            ImportMapDiagnostic::InvalidAddressNotString(a, b) => DiagView::InvalidAddressNotString(
                a@,
                b@,
            ),
            ImportMapDiagnostic::InvalidTopLevelKey(a) => DiagView::InvalidTopLevelKey(a@),
        }
    }
}

impl DeepView for ImportMapDiagnostic {
    type V = DiagView;

    open spec fn deep_view(&self) -> DiagView {
        self.view()
    }
}

/// Errors from import-map construction or resolution.
#[derive(Debug, Clone, PartialEq, Eq)]
pub enum ImportMapError {
    /// A bare specifier had no mapping: holds the specifier and the referrer.
    UnmappedBareSpecifier(String, Option<String>),
    Other(String),
}

/// Specification-level mirror of `ImportMapError`.
pub enum ErrView {
    UnmappedBareSpecifier(Seq<char>, Option<Seq<char>>),
    Other(Seq<char>),
}

impl View for ImportMapError {
    type V = ErrView;

    open spec fn view(&self) -> ErrView {
        match self {
            ImportMapError::UnmappedBareSpecifier(s, r) => ErrView::UnmappedBareSpecifier(
                s@,
                match r {
                    Some(x) => Some(x@),
                    None => None,
                },
            ),
            ImportMapError::Other(m) => ErrView::Other(m@),
        }
    }
}

/// The human-readable description of an error, as the boundary reports it.
pub open spec fn spec_err_message(e: ErrView) -> Seq<char> {
    match e {
        ErrView::UnmappedBareSpecifier(s, r) => match r {
            Some(referrer) => "Relative import path \""@ + s
                + "\" not prefixed with / or ./ or ../ and not in import map from \""@ + referrer
                + "\""@,
            None => "Relative import path \""@ + s
                + "\" not prefixed with / or ./ or ../ and not in import map"@,
        },
        ErrView::Other(m) => m,
    }
}

impl ImportMapError {
    pub fn message(&self) -> (r: String)
        ensures
            r@ == spec_err_message(self@),
    {
        match self {
            ImportMapError::UnmappedBareSpecifier(s, referrer) => match referrer {
                Some(rf) => str_concat5(
                    "Relative import path \"",
                    s.as_str(),
                    "\" not prefixed with / or ./ or ../ and not in import map from \"",
                    rf.as_str(),
                    "\"",
                ),
                None => str_concat3(
                    "Relative import path \"",
                    s.as_str(),
                    "\" not prefixed with / or ./ or ../ and not in import map",
                ),
            },
            ImportMapError::Other(m) => m.clone(),
        }
    }
}

// ---------------------------------------------------------------------------
// Error messages
// ---------------------------------------------------------------------------

pub open spec fn spec_msg_blocked(key: Seq<char>) -> Seq<char> {
    "Blocked by null entry for \""@ + key + "\""@
}

fn msg_blocked(key: &str) -> (r: String)
    ensures
        r@ == spec_msg_blocked(key@),
{
    str_concat3("Blocked by null entry for \"", key, "\"")
}

pub open spec fn spec_msg_resolve_failed(s: Seq<char>, addr: Seq<char>) -> Seq<char> {
    "Failed to resolve \""@ + s + "\" against the prefix address \""@ + addr + "\""@
}

fn msg_resolve_failed(s: &str, addr: &str) -> (r: String)
    ensures
        r@ == spec_msg_resolve_failed(s@, addr@),
{
    str_concat5("Failed to resolve \"", s, "\" against the prefix address \"", addr, "\"")
}

pub open spec fn spec_msg_backtrack(s: Seq<char>, key: Seq<char>) -> Seq<char> {
    "The specifier \""@ + s + "\" backtracks above its prefix \""@ + key + "\""@
}

fn msg_backtrack(s: &str, key: &str) -> (r: String)
    ensures
        r@ == spec_msg_backtrack(s@, key@),
{
    str_concat5("The specifier \"", s, "\" backtracks above its prefix \"", key, "\"")
}

// ---------------------------------------------------------------------------
// The specifier-map match rule
// ---------------------------------------------------------------------------

/// Outcome of matching one specifier map (or the scopes table): a resolved
/// address, a loud failure with its message, or no match (fall through).
pub enum SmOutcome {
    Found(Seq<char>),
    Failed(Seq<char>),
    NotFound,
}

/// Address of the first entry whose key equals `s` (keys are unique, so the
/// first is the only one).
pub open spec fn sm_exact(m: Seq<SmEntry>, s: Seq<char>) -> Option<Option<Seq<char>>>
    decreases m.len(),
{
    if m.len() == 0 {
        None
    } else if m[0].0 == s {
        Some(m[0].1)
    } else {
        sm_exact(m.drop_first(), s)
    }
}

/// A prefix-match candidate: a key ending in `/` that is a prefix of `s`.
pub open spec fn entry_prefix_matches(e: SmEntry, s: Seq<char>) -> bool {
    ends_with(e.0, "/"@) && starts_with(s, e.0)
}

/// First prefix-match candidate in map order.  The map is sorted in
/// descending lexicographic order, so this is the longest matching key.
pub open spec fn sm_prefix(m: Seq<SmEntry>, s: Seq<char>) -> Option<SmEntry>
    decreases m.len(),
{
    if m.len() == 0 {
        None
    } else if entry_prefix_matches(m[0], s) {
        Some(m[0])
    } else {
        sm_prefix(m.drop_first(), s)
    }
}

/// An expand-match candidate: a key without a trailing slash whose address
/// is an http(s) URL, taken when the specifier continues with `/` after the
/// key.  This services sub-path access under a bare package name.
pub open spec fn entry_expand_matches(e: SmEntry, s: Seq<char>) -> bool {
    !ends_with(e.0, "/"@) && e.1 is Some && starts_with(s, e.0 + "/"@)
        && spec_is_http_specifier(e.1->0)
}

pub open spec fn sm_expand(m: Seq<SmEntry>, s: Seq<char>) -> Option<SmEntry>
    decreases m.len(),
{
    if m.len() == 0 {
        None
    } else if entry_expand_matches(m[0], s) {
        Some(m[0])
    } else {
        sm_expand(m.drop_first(), s)
    }
}

/// Index of the first `?` or `#` in `s`.
pub open spec fn find_query_or_fragment(s: Seq<char>) -> Option<int>
    decreases s.len(),
{
    if s.len() == 0 {
        None
    } else if s[0] == '?' || s[0] == '#' {
        Some(0)
    } else {
        match find_query_or_fragment(s.drop_first()) {
            Some(i) => Some(i + 1),
            None => None,
        }
    }
}

pub proof fn lemma_find_query_or_fragment_at(s: Seq<char>, i: int)
    requires
        0 <= i < s.len(),
        s[i] == '?' || s[i] == '#',
        forall|j: int| 0 <= j < i ==> s[j] != '?' && s[j] != '#',
    ensures
        find_query_or_fragment(s) == Some(i),
{
    lemma_find_query_or_fragment(s);
    match find_query_or_fragment(s) {
        Some(k) => {
            if k < i {
                assert(s[k] != '?' && s[k] != '#');
            } else if k > i {
                assert(s[i] != '?' && s[i] != '#');
            }
        }
        None => {
            assert(s[i] != '?' && s[i] != '#');
        }
    }
}

pub proof fn lemma_find_query_or_fragment(s: Seq<char>)
    ensures
        match find_query_or_fragment(s) {
            Some(i) => 0 <= i < s.len() && (s[i] == '?' || s[i] == '#') && forall|j: int|
                0 <= j < i ==> s[j] != '?' && s[j] != '#',
            None => forall|j: int| 0 <= j < s.len() ==> s[j] != '?' && s[j] != '#',
        },
    decreases s.len(),
{
    if s.len() > 0 && !(s[0] == '?' || s[0] == '#') {
        let tail = s.drop_first();
        lemma_find_query_or_fragment(tail);
        assert forall|j: int| 1 <= j < s.len() implies s[j] == tail[j - 1] by {
            assert(tail[j - 1] == s[j]);
        }
    }
}

/// The specifier's remainder after a matched prefix, percent-decoded once
/// and appended to the mapped address by path segments; query and fragment
/// are split off first and re-joined afterwards.
pub open spec fn spec_append_to_base(base: Seq<char>, specifier: Seq<char>) -> Option<Seq<char>> {
    let d = spec_percent_decode(specifier);
    if starts_with(d, "../"@) || starts_with(d, "./"@) || starts_with(d, "/"@) {
        spec_join_url(base, d)
    } else {
        match find_query_or_fragment(d) {
            None => match spec_extend_url_segments(base, d) {
                Some(u) => Some(u),
                None => spec_join_url(base, d),
            },
            Some(i) => match spec_extend_url_segments(base, d.subrange(0, i)) {
                Some(u) => spec_join_url(u, d.subrange(i, d.len() as int)),
                None => spec_join_url(base, d),
            },
        }
    }
}

/// The specifier has a URL-like shape (remote, relative or absolute path):
/// such specifiers never take the expand match.
pub open spec fn spec_url_like_shape(s: Seq<char>) -> bool {
    spec_is_http_specifier(s) || spec_is_relpath_specifier(s) || spec_is_abspath_specifier(s)
}

/// The specifier-map match rule: exact match first (a blocked entry fails
/// loudly), then the longest prefix match, then the expand match for bare
/// specifiers; otherwise no match.
pub open spec fn sm_resolve(m: Seq<SmEntry>, s: Seq<char>) -> SmOutcome {
    match sm_exact(m, s) {
        Some(addr) => match addr {
            Some(a) => SmOutcome::Found(a),
            None => SmOutcome::Failed(spec_msg_blocked(s)),
        },
        None => match sm_prefix(m, s) {
            Some(e) => match e.1 {
                None => SmOutcome::Failed(spec_msg_blocked(e.0)),
                Some(a) => {
                    let after = s.subrange(e.0.len() as int, s.len() as int);
                    match spec_append_to_base(a, after) {
                        None => SmOutcome::Failed(spec_msg_resolve_failed(s, a)),
                        Some(u) => if starts_with(u, a) {
                            SmOutcome::Found(u)
                        } else {
                            SmOutcome::Failed(spec_msg_backtrack(s, e.0))
                        },
                    }
                }
            },
            None => if !spec_url_like_shape(s) {
                match sm_expand(m, s) {
                    Some(e) => {
                        let after = s.subrange(e.0.len() as int, s.len() as int);
                        match spec_append_url_pathsuffix(e.1->0, after) {
                            Some(u) => SmOutcome::Found(u),
                            None => SmOutcome::NotFound,
                        }
                    }
                    None => SmOutcome::NotFound,
                }
            } else {
                SmOutcome::NotFound
            },
        },
    }
}

// ---------------------------------------------------------------------------
// Executable matching
// ---------------------------------------------------------------------------

/// How one stored entry appears in the map's specification view.
proof fn lemma_sm_entry_view(m: &Vec<(String, Option<String>)>, i: int)
    requires
        0 <= i < m@.len(),
    ensures
        m.deep_view().len() == m@.len(),
        m.deep_view()[i].0 == m@[i].0@,
        m@[i].1 is Some <==> m.deep_view()[i].1 is Some,
        m@[i].1 is Some ==> m.deep_view()[i].1->0 == m@[i].1->0@,
{
    assert(m.deep_view()[i] == m@[i].deep_view());
}

fn find_qf_idx(d: &str) -> (r: Option<usize>)
    ensures
        match r {
            Some(k) => find_query_or_fragment(d@) == Some(k as int),
            None => find_query_or_fragment(d@) is None,
        },
{
    let n = d.unicode_len();
    let mut i: usize = 0;
    while i < n
        invariant
            0 <= i <= n,
            n == d@.len(),
            forall|j: int| 0 <= j < i ==> d@[j] != '?' && d@[j] != '#',
        decreases n - i,
    {
        let c = d.get_char(i);
        if c == '?' || c == '#' {
            proof {
                lemma_find_query_or_fragment_at(d@, i as int);
            }
            return Some(i);
        }
        i = i + 1;
    }
    proof {
        lemma_find_query_or_fragment(d@);
    }
    None
}

/// Percent-decode the remainder once and join it to the mapped address.
fn append_specifier_to_base(base: &str, specifier: &str) -> (r: Option<String>)
    ensures
        match r {
            Some(u) => spec_append_to_base(base@, specifier@) == Some(u@),
            None => spec_append_to_base(base@, specifier@) is None,
        },
{
    let decoded = percent_decode(specifier);
    let d = decoded.as_str();
    if str_starts_with(d, "../") || str_starts_with(d, "./") || str_starts_with(d, "/") {
        return join_url(base, d);
    }
    let n = d.unicode_len();
    let qf = find_qf_idx(d);
    match qf {
        None => {
            match extend_url_segments(base, d) {
                Some(u) => Some(u),
                None => join_url(base, d),
            }
        }
        Some(i) => {
            proof {
                lemma_find_query_or_fragment(d@);
            }
            let prefix = str_substring(d, 0, i);
            let suffix = str_substring(d, i, n);
            match extend_url_segments(base, prefix.as_str()) {
                Some(u) => join_url(u.as_str(), suffix.as_str()),
                None => join_url(base, d),
            }
        }
    }
}

/// Match `specifier` against one specifier map, per the match rule.
#[verifier::loop_isolation(false)]
pub(crate) fn resolve_imports_match(m: &Vec<(String, Option<String>)>, specifier: &str) -> (r:
    Result<Option<String>, ImportMapError>)
    ensures
        match r {
            Ok(Some(u)) => sm_resolve(m.deep_view(), specifier@) == SmOutcome::Found(u@),
            Ok(None) => sm_resolve(m.deep_view(), specifier@) == SmOutcome::NotFound,
            Err(e) => match e@ {
                ErrView::Other(msg) => sm_resolve(m.deep_view(), specifier@)
                    == SmOutcome::Failed(msg),
                _ => false,
            },
        },
{
    let ghost mv = m.deep_view();
    let n = m.len();
    proof {
        assert(mv.len() == m@.len());
        assert(mv.subrange(0, n as int) =~= mv);
    }

    // exact match
    let mut i: usize = 0;
    while i < n
        invariant
            0 <= i <= n,
            sm_exact(mv, specifier@) == sm_exact(mv.subrange(i as int, n as int), specifier@),
        decreases n - i,
    {
        let ghost sub = mv.subrange(i as int, n as int);
        proof {
            assert(sub[0] == mv[i as int]);
            lemma_sm_entry_view(m, i as int);
        }
        if str_eq(m[i].0.as_str(), specifier) {
            match &m[i].1 {
                Some(addr) => {
                    return Ok(Some(addr.clone()));
                }
                None => {
                    return Err(ImportMapError::Other(msg_blocked(specifier)));
                }
            }
        }
        proof {
            assert(sub.drop_first() =~= mv.subrange(i + 1, n as int));
        }
        i = i + 1;
    }
    proof {
        assert(mv.subrange(n as int, n as int) =~= Seq::<SmEntry>::empty());
        assert(sm_exact(mv, specifier@) is None);
    }

    // prefix match: first (longest) key ending in '/' that prefixes the specifier
    let mut i: usize = 0;
    while i < n
        invariant
            0 <= i <= n,
            sm_prefix(mv, specifier@) == sm_prefix(mv.subrange(i as int, n as int), specifier@),
        decreases n - i,
    {
        let ghost sub = mv.subrange(i as int, n as int);
        proof {
            assert(sub[0] == mv[i as int]);
            lemma_sm_entry_view(m, i as int);
        }
        let key = m[i].0.as_str();
        if str_ends_with(key, "/") && str_starts_with(specifier, key) {
            match &m[i].1 {
                None => {
                    return Err(ImportMapError::Other(msg_blocked(key)));
                }
                Some(addr) => {
                    let klen = key.unicode_len();
                    let slen = specifier.unicode_len();
                    let after = str_substring(specifier, klen, slen);
                    match append_specifier_to_base(addr.as_str(), after.as_str()) {
                        None => {
                            return Err(ImportMapError::Other(msg_resolve_failed(
                                specifier,
                                addr.as_str(),
                            )));
                        }
                        Some(u) => {
                            if str_starts_with(u.as_str(), addr.as_str()) {
                                return Ok(Some(u));
                            } else {
                                return Err(ImportMapError::Other(msg_backtrack(specifier, key)));
                            }
                        }
                    }
                }
            }
        }
        proof {
            assert(sub.drop_first() =~= mv.subrange(i + 1, n as int));
        }
        i = i + 1;
    }
    proof {
        assert(mv.subrange(n as int, n as int) =~= Seq::<SmEntry>::empty());
        assert(sm_prefix(mv, specifier@) is None);
    }

    // expand match, for bare specifiers only
    if !is_http_specifier(specifier) && !is_relpath_specifier(specifier) && !is_abspath_specifier(
        specifier,
    ) {
        let mut i: usize = 0;
        while i < n
            invariant
                0 <= i <= n,
                sm_expand(mv, specifier@) == sm_expand(
                    mv.subrange(i as int, n as int),
                    specifier@,
                ),
            decreases n - i,
        {
            let ghost sub = mv.subrange(i as int, n as int);
            proof {
                assert(sub[0] == mv[i as int]);
                lemma_sm_entry_view(m, i as int);
            }
            let key = m[i].0.as_str();
            let mut hit = false;
            if !str_ends_with(key, "/") {
                match &m[i].1 {
                    Some(addr) => {
                        let key_slash = str_concat(key, "/");
                        if str_starts_with(specifier, key_slash.as_str()) && is_http_specifier(
                            addr.as_str(),
                        ) {
                            hit = true;
                        }
                    }
                    None => {}
                }
            }
            if hit {
                assert(entry_expand_matches(mv[i as int], specifier@));
                let addr = match &m[i].1 {
                    Some(a) => a.as_str(),
                    None => "",
                };
                let klen = key.unicode_len();
                let slen = specifier.unicode_len();
                proof {
                    reveal_strlit("/");
                    assert(starts_with(specifier@, key@ + "/"@));
                    assert((key@ + "/"@).len() == key@.len() + 1);
                }
                let after = str_substring(specifier, klen, slen);
                match append_url_pathsuffix(addr, after.as_str()) {
                    Some(u) => {
                        return Ok(Some(u));
                    }
                    None => {
                        return Ok(None);
                    }
                }
            }
            proof {
                assert(!entry_expand_matches(mv[i as int], specifier@));
                assert(sub.drop_first() =~= mv.subrange(i + 1, n as int));
            }
            i = i + 1;
        }
        proof {
            assert(mv.subrange(n as int, n as int) =~= Seq::<SmEntry>::empty());
            assert(sm_expand(mv, specifier@) is None);
        }
    }
    Ok(None)
}

// ---------------------------------------------------------------------------
// Scope resolution
// ---------------------------------------------------------------------------

/// Specifier map of the first scope whose key equals the referrer exactly.
pub open spec fn sc_exact(sc: Seq<ScEntry>, referrer: Seq<char>) -> Option<Seq<SmEntry>>
    decreases sc.len(),
{
    if sc.len() == 0 {
        None
    } else if sc[0].0 == referrer {
        Some(sc[0].1)
    } else {
        sc_exact(sc.drop_first(), referrer)
    }
}

/// A prefix scope: its key ends in `/` and the referrer lies under it.
pub open spec fn scope_prefix_matches(e: ScEntry, referrer: Seq<char>) -> bool {
    ends_with(e.0, "/"@) && starts_with(referrer, e.0)
}

/// Walk the scopes in sorted order; the first prefix scope whose map yields
/// a match (or a loud failure) decides.  A scope with no match falls through.
pub open spec fn sc_loop(sc: Seq<ScEntry>, s: Seq<char>, referrer: Seq<char>) -> SmOutcome
    decreases sc.len(),
{
    if sc.len() == 0 {
        SmOutcome::NotFound
    } else if scope_prefix_matches(sc[0], referrer) {
        match sm_resolve(sc[0].1, s) {
            SmOutcome::NotFound => sc_loop(sc.drop_first(), s, referrer),
            out => out,
        }
    } else {
        sc_loop(sc.drop_first(), s, referrer)
    }
}

/// Scope resolution: the exact scope for the referrer is tried first, then
/// every prefix scope in sorted order.
pub open spec fn sc_resolve(sc: Seq<ScEntry>, s: Seq<char>, referrer: Seq<char>) -> SmOutcome {
    match sc_exact(sc, referrer) {
        Some(inner) => match sm_resolve(inner, s) {
            SmOutcome::NotFound => sc_loop(sc, s, referrer),
            out => out,
        },
        None => sc_loop(sc, s, referrer),
    }
}

/// How one stored scope appears in the table's specification view.
proof fn lemma_sc_entry_view(sc: &Vec<(String, Vec<(String, Option<String>)>)>, i: int)
    requires
        0 <= i < sc@.len(),
    ensures
        sc.deep_view().len() == sc@.len(),
        sc.deep_view()[i].0 == sc@[i].0@,
        sc.deep_view()[i].1 == sc@[i].1.deep_view(),
{
    assert(sc.deep_view()[i] == sc@[i].deep_view());
}

#[verifier::loop_isolation(false)]
fn find_exact_scope_idx(
    scopes: &Vec<(String, Vec<(String, Option<String>)>)>,
    referrer: &str,
) -> (r: Option<usize>)
    ensures
        match r {
            Some(i) => 0 <= i < scopes@.len() && sc_exact(scopes.deep_view(), referrer@) == Some(
                scopes.deep_view()[i as int].1,
            ),
            None => sc_exact(scopes.deep_view(), referrer@) is None,
        },
{
    let ghost scv = scopes.deep_view();
    let n = scopes.len();
    proof {
        assert(scv.len() == scopes@.len());
        assert(scv.subrange(0, n as int) =~= scv);
    }
    let mut i: usize = 0;
    while i < n
        invariant
            0 <= i <= n,
            sc_exact(scv, referrer@) == sc_exact(scv.subrange(i as int, n as int), referrer@),
        decreases n - i,
    {
        let ghost sub = scv.subrange(i as int, n as int);
        proof {
            assert(sub[0] == scv[i as int]);
            lemma_sc_entry_view(scopes, i as int);
        }
        if str_eq(scopes[i].0.as_str(), referrer) {
            return Some(i);
        }
        proof {
            assert(sub.drop_first() =~= scv.subrange(i + 1, n as int));
        }
        i = i + 1;
    }
    proof {
        assert(scv.subrange(n as int, n as int) =~= Seq::<ScEntry>::empty());
    }
    None
}

/// Match `specifier` against the scopes table for this referrer.
#[verifier::loop_isolation(false)]
pub(crate) fn resolve_scopes_match(
    scopes: &Vec<(String, Vec<(String, Option<String>)>)>,
    specifier: &str,
    referrer: &str,
) -> (r: Result<Option<String>, ImportMapError>)
    ensures
        match r {
            Ok(Some(u)) => sc_resolve(scopes.deep_view(), specifier@, referrer@)
                == SmOutcome::Found(u@),
            Ok(None) => sc_resolve(scopes.deep_view(), specifier@, referrer@)
                == SmOutcome::NotFound,
            Err(e) => match e@ {
                ErrView::Other(msg) => sc_resolve(scopes.deep_view(), specifier@, referrer@)
                    == SmOutcome::Failed(msg),
                _ => false,
            },
        },
{
    let ghost scv = scopes.deep_view();
    let n = scopes.len();
    proof {
        assert(scv.len() == scopes@.len());
        assert(scv.subrange(0, n as int) =~= scv);
    }

    // exact-match scope
    match find_exact_scope_idx(scopes, referrer) {
        Some(i) => {
            proof {
                lemma_sc_entry_view(scopes, i as int);
            }
            match resolve_imports_match(&scopes[i].1, specifier) {
                Ok(Some(u)) => {
                    return Ok(Some(u));
                }
                Err(e) => {
                    return Err(e);
                }
                Ok(None) => {}
            }
        }
        None => {}
    }

    // prefix-match scopes, in sorted order
    let mut i: usize = 0;
    while i < n
        invariant
            0 <= i <= n,
            sc_loop(scv, specifier@, referrer@) == sc_loop(
                scv.subrange(i as int, n as int),
                specifier@,
                referrer@,
            ),
        decreases n - i,
    {
        let ghost sub = scv.subrange(i as int, n as int);
        proof {
            assert(sub[0] == scv[i as int]);
            lemma_sc_entry_view(scopes, i as int);
        }
        let key = scopes[i].0.as_str();
        if str_ends_with(key, "/") && str_starts_with(referrer, key) {
            match resolve_imports_match(&scopes[i].1, specifier) {
                Ok(Some(u)) => {
                    return Ok(Some(u));
                }
                Err(e) => {
                    return Err(e);
                }
                Ok(None) => {}
            }
        }
        proof {
            assert(sub.drop_first() =~= scv.subrange(i + 1, n as int));
        }
        i = i + 1;
    }
    proof {
        assert(scv.subrange(n as int, n as int) =~= Seq::<ScEntry>::empty());
    }
    Ok(None)
}

// ---------------------------------------------------------------------------
// The import map
// ---------------------------------------------------------------------------

/// A specifier treated as URL-like: absolute and relative paths resolve
/// against the base, anything else must parse as an absolute URL on its own.
pub open spec fn spec_try_url_like(s: Seq<char>, base: Seq<char>) -> Option<Seq<char>> {
    if starts_with(s, "/"@) || starts_with(s, "./"@) || starts_with(s, "../"@) {
        match spec_join_url(base, s) {
            Some(u) => Some(u),
            None => spec_parse_url(s),
        }
    } else {
        spec_parse_url(s)
    }
}

pub(crate) fn try_url_like_specifier(specifier: &str, base: &str) -> (r: Option<String>)
    ensures
        match r {
            Some(u) => spec_try_url_like(specifier@, base@) == Some(u@),
            None => spec_try_url_like(specifier@, base@) is None,
        },
{
    if str_starts_with(specifier, "/") || str_starts_with(specifier, "./") || str_starts_with(
        specifier,
        "../",
    ) {
        match join_url(base, specifier) {
            Some(u) => {
                return Some(u);
            }
            None => {}
        }
    }
    parse_url(specifier)
}

/// The full resolution contract `resolve(specifier, referrer)`.
///
/// The referrer is normalized by URL parsing when possible.  A URL-like
/// specifier is normalized to its absolute form; scopes are consulted first,
/// then the top-level map; an unmatched URL-like specifier passes through
/// unchanged, and an unmatched bare specifier fails.
/// The referrer as the resolution sees it: its parsed, normalized form when
/// it parses as a URL, the raw text otherwise.
pub open spec fn spec_im_referrer(referrer_raw: Seq<char>) -> Seq<char> {
    match spec_parse_url(referrer_raw) {
        Some(u) => u,
        None => referrer_raw,
    }
}

/// The specifier as matched against the maps: its absolute URL form when it
/// is URL-like, the raw text otherwise.
pub open spec fn spec_im_normalized(specifier: Seq<char>, referrer_raw: Seq<char>) -> Seq<char> {
    match spec_try_url_like(specifier, spec_im_referrer(referrer_raw)) {
        Some(u) => u,
        None => specifier,
    }
}

pub open spec fn spec_im_resolve(
    imports: Seq<SmEntry>,
    scopes: Seq<ScEntry>,
    specifier: Seq<char>,
    referrer_raw: Seq<char>,
) -> Result<Seq<char>, ErrView> {
    let referrer = spec_im_referrer(referrer_raw);
    let as_url = spec_try_url_like(specifier, referrer);
    let normalized = match as_url {
        Some(u) => u,
        None => specifier,
    };
    match sc_resolve(scopes, normalized, referrer) {
        SmOutcome::Found(u) => Ok(u),
        SmOutcome::Failed(m) => Err(ErrView::Other(m)),
        SmOutcome::NotFound => match sm_resolve(imports, normalized) {
            SmOutcome::Found(u) => Ok(u),
            SmOutcome::Failed(m) => Err(ErrView::Other(m)),
            SmOutcome::NotFound => match as_url {
                Some(u) => Ok(u),
                None => Err(
                    ErrView::UnmappedBareSpecifier(specifier, Some(referrer)),
                ),
            },
        },
    }
}

// ---------------------------------------------------------------------------
// Parsing: specification
// ---------------------------------------------------------------------------

/// Index of the first entry with key `k` in an ordered key-value table.
pub open spec fn key_idx<V>(m: Seq<(Seq<char>, V)>, k: Seq<char>) -> Option<int>
    decreases m.len(),
{
    if m.len() == 0 {
        None
    } else if m[0].0 == k {
        Some(0)
    } else {
        match key_idx(m.drop_first(), k) {
            Some(i) => Some(i + 1),
            None => None,
        }
    }
}

/// Insert with overwrite: an existing key keeps its position and takes the
/// new value, a new key is appended.
pub open spec fn spec_upsert<V>(m: Seq<(Seq<char>, V)>, k: Seq<char>, v: V) -> Seq<
    (Seq<char>, V),
> {
    match key_idx(m, k) {
        Some(i) => m.update(i, (k, v)),
        None => m.push((k, v)),
    }
}

pub proof fn lemma_key_idx<V>(m: Seq<(Seq<char>, V)>, k: Seq<char>)
    ensures
        match key_idx(m, k) {
            Some(i) => 0 <= i < m.len() && m[i].0 == k && forall|j: int|
                0 <= j < i ==> m[j].0 != k,
            None => forall|j: int| 0 <= j < m.len() ==> m[j].0 != k,
        },
    decreases m.len(),
{
    if m.len() > 0 && m[0].0 != k {
        let tail = m.drop_first();
        lemma_key_idx(tail, k);
        assert forall|j: int| 1 <= j < m.len() implies m[j] == tail[j - 1] by {
            assert(tail[j - 1] == m[j]);
        }
    }
}

pub proof fn lemma_key_idx_at<V>(m: Seq<(Seq<char>, V)>, k: Seq<char>, i: int)
    requires
        0 <= i < m.len(),
        m[i].0 == k,
        forall|j: int| 0 <= j < i ==> m[j].0 != k,
    ensures
        key_idx(m, k) == Some(i),
{
    lemma_key_idx(m, k);
    match key_idx(m, k) {
        Some(x) => {
            if x < i {
                assert(m[x].0 != k);
            } else if x > i {
                assert(m[i].0 != k);
            }
        }
        None => {
            assert(m[i].0 != k);
        }
    }
}

/// The first value stored under key `k` in a JSON object's member list.
pub open spec fn obj_get(members: Seq<(String, JsonValue)>, k: Seq<char>) -> Option<JsonValue>
    decreases members.len(),
{
    if members.len() == 0 {
        None
    } else if members[0].0@ == k {
        Some(members[0].1)
    } else {
        obj_get(members.drop_first(), k)
    }
}

pub open spec fn spec_msg_top_object() -> Seq<char> {
    "Import map JSON must be an object"@
}

pub open spec fn spec_msg_imports_object() -> Seq<char> {
    "Import map's 'imports' must be an object"@
}

pub open spec fn spec_msg_scopes_object() -> Seq<char> {
    "Import map's 'scopes' must be an object"@
}

pub open spec fn spec_msg_scope_value_object(prefix: Seq<char>) -> Seq<char> {
    "The value for the \""@ + prefix + "\" scope prefix must be an object"@
}

pub open spec fn spec_msg_invalid_base() -> Seq<char> {
    "Import map base must be a valid URL"@
}

/// Candidate mappings of one JSON object: string values become candidates,
/// anything else is recorded as a diagnostic and the entry is dropped.
pub open spec fn spec_parse_sm_json(obj: Seq<(String, JsonValue)>) -> (Seq<(Seq<char>, Seq<char>)>, Seq<DiagView>)
    decreases obj.len(),
{
    if obj.len() == 0 {
        (Seq::empty(), Seq::empty())
    } else {
        let (m, d) = spec_parse_sm_json(obj.drop_last());
        let kv = obj.last();
        match kv.1 {
            JsonValue::Str(s) => (spec_upsert(m, kv.0@, s@), d),
            v => (
                m,
                d.push(DiagView::InvalidAddressNotString(spec_json(v), kv.0@)),
            ),
        }
    }
}

/// A key is normalized to its resolved URL form when it is URL-like, kept
/// verbatim (a bare specifier) otherwise; an empty key is rejected.
pub open spec fn spec_normalize_key(k: Seq<char>, base: Seq<char>) -> Result<Seq<char>, DiagView> {
    if k.len() == 0 {
        Err(DiagView::EmptySpecifier)
    } else {
        match spec_try_url_like(k, base) {
            Some(u) => Ok(u),
            None => Ok(k),
        }
    }
}

/// Resolve each candidate mapping against the base URL.  An unresolvable
/// address, or a trailing-slash mismatch between a normalized key ending in
/// `/` and its address, maps the entry to null (blocked) with a diagnostic.
pub open spec fn spec_resolve_sm(
    entries: Seq<(Seq<char>, Seq<char>)>,
    base: Seq<char>,
) -> (Seq<SmEntry>, Seq<DiagView>)
    decreases entries.len(),
{
    if entries.len() == 0 {
        (Seq::empty(), Seq::empty())
    } else {
        let (m, d) = spec_resolve_sm(entries.drop_last(), base);
        let kv = entries.last();
        match spec_normalize_key(kv.0, base) {
            Err(diag) => (m, d.push(diag)),
            Ok(nkey) => match spec_try_url_like(kv.1, base) {
                None => (
                    spec_upsert(m, nkey, None),
                    d.push(DiagView::InvalidAddress(kv.1, kv.0)),
                ),
                Some(addr) => if ends_with(nkey, "/"@) && !ends_with(addr, "/"@) {
                    (
                        spec_upsert(m, nkey, None),
                        d.push(DiagView::InvalidTargetAddress(addr, kv.0)),
                    )
                } else {
                    (spec_upsert(m, nkey, Some(addr)), d)
                },
            },
        }
    }
}

/// Insertion in descending lexicographic key order.
pub open spec fn spec_insert_desc<V>(m: Seq<(Seq<char>, V)>, e: (Seq<char>, V)) -> Seq<
    (Seq<char>, V),
>
    decreases m.len(),
{
    if m.len() == 0 {
        seq![e]
    } else if lex_lt(m[0].0, e.0) {
        seq![e] + m
    } else {
        seq![m[0]] + spec_insert_desc(m.drop_first(), e)
    }
}

/// Insertion sort in descending lexicographic key order.
pub open spec fn spec_sort_desc<V>(m: Seq<(Seq<char>, V)>) -> Seq<(Seq<char>, V)>
    decreases m.len(),
{
    if m.len() == 0 {
        Seq::empty()
    } else {
        spec_insert_desc(spec_sort_desc(m.drop_last()), m.last())
    }
}

/// The scopes table before address resolution: each scope's JSON object is
/// parsed with the specifier-map rules; a non-object value is fatal.
pub open spec fn spec_parse_scopes_json(obj: Seq<(String, JsonValue)>) -> Result<
    (Seq<(Seq<char>, Seq<(Seq<char>, Seq<char>)>)>, Seq<DiagView>),
    Seq<char>,
>
    decreases obj.len(),
{
    if obj.len() == 0 {
        Ok((Seq::empty(), Seq::empty()))
    } else {
        match spec_parse_scopes_json(obj.drop_last()) {
            Err(m) => Err(m),
            Ok((sc, d)) => {
                let kv = obj.last();
                match kv.1 {
                    JsonValue::Object(members) => {
                        let (sm, d2) = spec_parse_sm_json(members@);
                        Ok((spec_upsert(sc, kv.0@, sm), d + d2))
                    }
                    _ => Err(spec_msg_scope_value_object(kv.0@)),
                }
            }
        }
    }
}

/// Diagnostics for unrecognized top-level keys, in member order.
pub open spec fn spec_top_key_diags(members: Seq<(String, JsonValue)>) -> Seq<DiagView>
    decreases members.len(),
{
    if members.len() == 0 {
        Seq::empty()
    } else {
        let d = spec_top_key_diags(members.drop_last());
        let k = members.last().0@;
        if k == "imports"@ || k == "scopes"@ {
            d
        } else {
            d.push(DiagView::InvalidTopLevelKey(k))
        }
    }
}

/// Shape checking of the whole import-map JSON value: the value itself and
/// its `imports` and `scopes` fields must be objects; other top-level keys
/// only earn diagnostics.
pub open spec fn spec_parse_value(v: JsonValue) -> Result<
    (
        Seq<(Seq<char>, Seq<char>)>,
        Seq<(Seq<char>, Seq<(Seq<char>, Seq<char>)>)>,
        Seq<DiagView>,
    ),
    Seq<char>,
> {
    match v {
        JsonValue::Object(members) => {
            let imports_r = match obj_get(members@, "imports"@) {
                None => Ok((Seq::<(Seq<char>, Seq<char>)>::empty(), Seq::<DiagView>::empty())),
                Some(JsonValue::Object(im)) => Ok(spec_parse_sm_json(im@)),
                Some(_) => Err(spec_msg_imports_object()),
            };
            match imports_r {
                Err(m) => Err(m),
                Ok((um, d1)) => {
                    let scopes_r = match obj_get(members@, "scopes"@) {
                        None => Ok(
                            (
                                Seq::<(Seq<char>, Seq<(Seq<char>, Seq<char>)>)>::empty(),
                                Seq::<DiagView>::empty(),
                            ),
                        ),
                        Some(JsonValue::Object(sc)) => spec_parse_scopes_json(sc@),
                        Some(_) => Err(spec_msg_scopes_object()),
                    };
                    match scopes_r {
                        Err(m) => Err(m),
                        Ok((usc, d2)) => Ok(
                            (um, usc, d1 + d2 + spec_top_key_diags(members@)),
                        ),
                    }
                }
            }
        }
        _ => Err(spec_msg_top_object()),
    }
}

/// Resolve each scope prefix against the base URL and its inner map with
/// the specifier-map rules; an unresolvable prefix drops the scope with a
/// diagnostic.
pub open spec fn spec_resolve_scopes(
    sc: Seq<(Seq<char>, Seq<(Seq<char>, Seq<char>)>)>,
    base: Seq<char>,
) -> (Seq<ScEntry>, Seq<DiagView>)
    decreases sc.len(),
{
    if sc.len() == 0 {
        (Seq::empty(), Seq::empty())
    } else {
        let (out, d) = spec_resolve_scopes(sc.drop_last(), base);
        let kv = sc.last();
        match spec_join_url(base, kv.0) {
            None => (out, d.push(DiagView::InvalidScope(kv.0, base))),
            Some(prefix_url) => {
                let (sm, d2) = spec_resolve_sm(kv.1, base);
                (spec_upsert(out, prefix_url, spec_sort_desc(sm)), d + d2)
            }
        }
    }
}

/// The whole construction contract: base URL normalization, shape checks,
/// key and address normalization, and the descending sort of every map.
/// Yields the model of the resulting map and the diagnostics, or the fatal
/// error message.
pub open spec fn spec_parse_import_map(base_raw: Seq<char>, v: JsonValue) -> Result<
    (Seq<char>, Seq<char>, Seq<SmEntry>, Seq<ScEntry>, Seq<DiagView>),
    Seq<char>,
> {
    match spec_parse_url(base_raw) {
        None => Err(spec_msg_invalid_base()),
        Some(base) => match spec_parse_value(v) {
            Err(m) => Err(m),
            Ok((um, usc, d1)) => {
                let (im, d2) = spec_resolve_sm(um, base);
                let (sc, d3) = spec_resolve_scopes(usc, base);
                let base_path = match spec_url_path(base) {
                    Some(p) => p,
                    None => Seq::empty(),
                };
                Ok((base, base_path, spec_sort_desc(im), spec_sort_desc(sc), d1 + d2 + d3))
            }
        },
    }
}

// ---------------------------------------------------------------------------
// Parsing: executable
// ---------------------------------------------------------------------------

/// How one stored key-value pair appears in the table's specification view.
proof fn lemma_kv_view<T: DeepView>(m: &Vec<(String, T)>, i: int)
    requires
        0 <= i < m@.len(),
    ensures
        m.deep_view().len() == m@.len(),
        m.deep_view()[i] == (m@[i].0@, m@[i].1.deep_view()),
{
    assert(m.deep_view()[i] == m@[i].deep_view());
}

/// Insert with overwrite, keeping an existing key's position.
#[verifier::loop_isolation(false)]
fn upsert<T: DeepView>(m: &mut Vec<(String, T)>, k: String, v: T)
    ensures
        final(m).deep_view() == spec_upsert(old(m).deep_view(), k@, v.deep_view()),
{
    let ghost mv = m.deep_view();
    let n = m.len();
    proof {
        assert(mv.len() == m@.len());
    }
    let mut j: usize = 0;
    while j < n
        invariant
            0 <= j <= n,
            m@ == old(m)@,
            forall|x: int| 0 <= x < j ==> mv[x].0 != k@,
        decreases n - j,
    {
        proof {
            lemma_kv_view(m, j as int);
        }
        if str_eq(m[j].0.as_str(), k.as_str()) {
            proof {
                lemma_key_idx_at(mv, k@, j as int);
            }
            let ghost vold = m@;
            m.remove(j);
            m.insert(j, (k, v));
            proof {
                assert(m@ =~= vold.update(j as int, ((k, v))));
                assert forall|x: int| 0 <= x < m.deep_view().len() implies m.deep_view()[x]
                    == spec_upsert(old(m).deep_view(), k@, v.deep_view())[x] by {
                    assert(m.deep_view()[x] == m@[x].deep_view());
                    if x != j {
                        assert(old(m).deep_view()[x] == old(m)@[x].deep_view());
                    }
                }
                assert(m.deep_view() =~= spec_upsert(old(m).deep_view(), k@, v.deep_view()));
            }
            return ;
        }
        j = j + 1;
    }
    proof {
        lemma_key_idx(mv, k@);
    }
    let ghost vold = m@;
    m.push((k, v));
    proof {
        assert forall|x: int| 0 <= x < m.deep_view().len() implies m.deep_view()[x] == old(
            m,
        ).deep_view().push(((k@, v.deep_view())))[x] by {
            assert(m.deep_view()[x] == m@[x].deep_view());
            if x < vold.len() {
                assert(old(m).deep_view()[x] == old(m)@[x].deep_view());
            }
        }
        assert(m.deep_view() =~= old(m).deep_view().push(((k@, v.deep_view()))));
    }
}

/// The first value stored under `k` in a JSON object's member list.
#[verifier::loop_isolation(false)]
fn json_obj_get<'a>(members: &'a Vec<(String, JsonValue)>, k: &str) -> (r: Option<
    &'a JsonValue,
>)
    ensures
        match r {
            Some(v) => obj_get(members@, k@) == Some(*v),
            None => obj_get(members@, k@) is None,
        },
{
    let ghost msv = members@;
    let n = members.len();
    proof {
        assert(msv.subrange(0, n as int) =~= msv);
    }
    let mut i: usize = 0;
    while i < n
        invariant
            0 <= i <= n,
            obj_get(msv, k@) == obj_get(msv.subrange(i as int, n as int), k@),
        decreases n - i,
    {
        let ghost sub = msv.subrange(i as int, n as int);
        proof {
            assert(sub[0] == msv[i as int]);
        }
        if str_eq(members[i].0.as_str(), k) {
            return Some(&members[i].1);
        }
        proof {
            assert(sub.drop_first() =~= msv.subrange(i + 1, n as int));
        }
        i = i + 1;
    }
    proof {
        assert(msv.subrange(n as int, n as int) =~= Seq::<(String, JsonValue)>::empty());
    }
    None
}

/// Convert one JSON object into candidate mappings, per the construction
/// contract: string values become candidates, others earn a diagnostic.
#[verifier::loop_isolation(false)]
pub(crate) fn parse_specifier_map_json(obj: &Vec<(String, JsonValue)>) -> (r: (
    Vec<(String, String)>,
    Vec<ImportMapDiagnostic>,
))
    ensures
        r.0.deep_view() == spec_parse_sm_json(obj@).0,
        r.1.deep_view() == spec_parse_sm_json(obj@).1,
{
    let ghost ov = obj@;
    let n = obj.len();
    let mut m: Vec<(String, String)> = Vec::new();
    let mut d: Vec<ImportMapDiagnostic> = Vec::new();
    proof {
        assert(m.deep_view() =~= Seq::<(Seq<char>, Seq<char>)>::empty());
        assert(d.deep_view() =~= Seq::<DiagView>::empty());
        assert(ov.subrange(0, 0) =~= Seq::<(String, JsonValue)>::empty());
    }
    let mut i: usize = 0;
    while i < n
        invariant
            0 <= i <= n,
            m.deep_view() == spec_parse_sm_json(ov.subrange(0, i as int)).0,
            d.deep_view() == spec_parse_sm_json(ov.subrange(0, i as int)).1,
        decreases n - i,
    {
        let ghost done = ov.subrange(0, i as int);
        proof {
            assert(ov.subrange(0, i + 1).drop_last() =~= done);
            assert(ov.subrange(0, i + 1).last() == ov[i as int]);
        }
        let ghost dv = d.deep_view();
        match &obj[i].1 {
            JsonValue::Str(s) => {
                upsert(&mut m, obj[i].0.clone(), s.clone());
            }
            other => {
                let text = json_to_string(other);
                d.push(ImportMapDiagnostic::InvalidAddressNotString(text, obj[i].0.clone()));
                proof {
                    assert(d.deep_view() =~= dv.push(
                        DiagView::InvalidAddressNotString(spec_json(ov[i as int].1), ov[i as int].0@),
                    ));
                }
            }
        }
        i = i + 1;
    }
    proof {
        assert(ov.subrange(0, n as int) =~= ov);
    }
    (m, d)
}

proof fn lemma_scopes_json_err(obj: Seq<(String, JsonValue)>, l: int)
    requires
        0 <= l <= obj.len(),
        spec_parse_scopes_json(obj.subrange(0, l)) is Err,
    ensures
        spec_parse_scopes_json(obj) == spec_parse_scopes_json(obj.subrange(0, l)),
    decreases obj.len() - l,
{
    if l < obj.len() {
        assert(obj.subrange(0, l + 1).drop_last() =~= obj.subrange(0, l));
        lemma_scopes_json_err(obj, l + 1);
    } else {
        assert(obj.subrange(0, obj.len() as int) =~= obj);
    }
}

/// Convert the scopes JSON object; every scope value must itself be an
/// object, and each is parsed with the specifier-map rules.
#[verifier::loop_isolation(false)]
pub(crate) fn parse_scopes_map_json(obj: &Vec<(String, JsonValue)>) -> (r: Result<
    (Vec<(String, Vec<(String, String)>)>, Vec<ImportMapDiagnostic>),
    ImportMapError,
>)
    ensures
        match r {
            Ok(t) => spec_parse_scopes_json(obj@) == Ok::<_, Seq<char>>(
                (t.0.deep_view(), t.1.deep_view()),
            ),
            Err(e) => match e@ {
                ErrView::Other(m) => spec_parse_scopes_json(obj@) == Err::<
                    (Seq<(Seq<char>, Seq<(Seq<char>, Seq<char>)>)>, Seq<DiagView>),
                    _,
                >(m),
                _ => false,
            },
        },
{
    let ghost ov = obj@;
    let n = obj.len();
    let mut sc: Vec<(String, Vec<(String, String)>)> = Vec::new();
    let mut d: Vec<ImportMapDiagnostic> = Vec::new();
    proof {
        assert(sc.deep_view() =~= Seq::<(Seq<char>, Seq<(Seq<char>, Seq<char>)>)>::empty());
        assert(d.deep_view() =~= Seq::<DiagView>::empty());
        assert(ov.subrange(0, 0) =~= Seq::<(String, JsonValue)>::empty());
    }
    let mut i: usize = 0;
    while i < n
        invariant
            0 <= i <= n,
            spec_parse_scopes_json(ov.subrange(0, i as int)) == Ok::<_, Seq<char>>(
                (sc.deep_view(), d.deep_view()),
            ),
        decreases n - i,
    {
        let ghost done = ov.subrange(0, i as int);
        proof {
            assert(ov.subrange(0, i + 1).drop_last() =~= done);
            assert(ov.subrange(0, i + 1).last() == ov[i as int]);
        }
        let ghost dv = d.deep_view();
        match &obj[i].1 {
            JsonValue::Object(members) => {
                let (sm, mut d2) = parse_specifier_map_json(members);
                let ghost d2v = d2.deep_view();
                d.append(&mut d2);
                proof {
                    assert forall|x: int| 0 <= x < d.deep_view().len() implies d.deep_view()[x]
                        == (dv + d2v)[x] by {
                        assert(d.deep_view()[x] == d@[x].deep_view());
                    }
                    assert(d.deep_view() =~= dv + d2v);
                }
                upsert(&mut sc, obj[i].0.clone(), sm);
            }
            _ => {
                let msg = str_concat3(
                    "The value for the \"",
                    obj[i].0.as_str(),
                    "\" scope prefix must be an object",
                );
                proof {
                    lemma_scopes_json_err(ov, i + 1);
                }
                return Err(ImportMapError::Other(msg));
            }
        }
        i = i + 1;
    }
    proof {
        assert(ov.subrange(0, n as int) =~= ov);
    }
    Ok((sc, d))
}

/// Normalize one raw specifier key: empty keys are rejected, URL-like keys
/// take their resolved absolute form, bare keys are kept verbatim.
pub(crate) fn normalize_specifier_key(key: &str, base: &str) -> (r: Result<
    String,
    ImportMapDiagnostic,
>)
    ensures
        match r {
            Ok(k) => spec_normalize_key(key@, base@) == Ok::<Seq<char>, DiagView>(k@),
            Err(d) => spec_normalize_key(key@, base@) == Err::<Seq<char>, DiagView>(d@),
        },
{
    if key.unicode_len() == 0 {
        return Err(ImportMapDiagnostic::EmptySpecifier);
    }
    match try_url_like_specifier(key, base) {
        Some(u) => Ok(u),
        None => Ok(key.to_owned()),
    }
}

/// Resolve candidate mappings against the base URL and sort the result in
/// descending lexicographic key order.
#[verifier::loop_isolation(false)]
pub(crate) fn parse_specifier_map(imports: &Vec<(String, String)>, base: &str) -> (r: (
    Vec<(String, Option<String>)>,
    Vec<ImportMapDiagnostic>,
))
    ensures
        r.0.deep_view() == spec_sort_desc(spec_resolve_sm(imports.deep_view(), base@).0),
        r.1.deep_view() == spec_resolve_sm(imports.deep_view(), base@).1,
{
    let ghost iv = imports.deep_view();
    let n = imports.len();
    let mut m: Vec<(String, Option<String>)> = Vec::new();
    let mut d: Vec<ImportMapDiagnostic> = Vec::new();
    proof {
        assert(iv.len() == imports@.len());
        assert(m.deep_view() =~= Seq::<SmEntry>::empty());
        assert(d.deep_view() =~= Seq::<DiagView>::empty());
        assert(iv.subrange(0, 0) =~= Seq::<(Seq<char>, Seq<char>)>::empty());
    }
    let mut i: usize = 0;
    while i < n
        invariant
            0 <= i <= n,
            m.deep_view() == spec_resolve_sm(iv.subrange(0, i as int), base@).0,
            d.deep_view() == spec_resolve_sm(iv.subrange(0, i as int), base@).1,
        decreases n - i,
    {
        let ghost done = iv.subrange(0, i as int);
        proof {
            lemma_kv_view(imports, i as int);
            assert(iv.subrange(0, i + 1).drop_last() =~= done);
            assert(iv.subrange(0, i + 1).last() == iv[i as int]);
        }
        let ghost dv = d.deep_view();
        let key = &imports[i].0;
        let value = &imports[i].1;
        match normalize_specifier_key(key.as_str(), base) {
            Err(diag) => {
                d.push(diag);
                proof {
                    assert(d.deep_view() =~= dv.push(diag@));
                }
            }
            Ok(nkey) => {
                match try_url_like_specifier(value.as_str(), base) {
                    None => {
                        d.push(ImportMapDiagnostic::InvalidAddress(value.clone(), key.clone()));
                        proof {
                            assert(d.deep_view() =~= dv.push(
                                DiagView::InvalidAddress(iv[i as int].1, iv[i as int].0),
                            ));
                        }
                        upsert(&mut m, nkey, None);
                    }
                    Some(addr) => {
                        if str_ends_with(nkey.as_str(), "/") && !str_ends_with(
                            addr.as_str(),
                            "/",
                        ) {
                            let ghost av = addr@;
                            d.push(ImportMapDiagnostic::InvalidTargetAddress(addr, key.clone()));
                            proof {
                                assert(d.deep_view() =~= dv.push(
                                    DiagView::InvalidTargetAddress(av, iv[i as int].0),
                                ));
                            }
                            upsert(&mut m, nkey, None);
                        } else {
                            upsert(&mut m, nkey, Some(addr));
                        }
                    }
                }
            }
        }
        i = i + 1;
    }
    proof {
        assert(iv.subrange(0, n as int) =~= iv);
    }
    let sorted = sort_by_key_desc(m);
    (sorted, d)
}

/// Characterize descending insertion by the insertion point.
proof fn lemma_insert_desc_at<V>(m: Seq<(Seq<char>, V)>, e: (Seq<char>, V), j: int)
    requires
        0 <= j <= m.len(),
        forall|x: int| 0 <= x < j ==> !lex_lt(m[x].0, e.0),
        j < m.len() ==> lex_lt(m[j].0, e.0),
    ensures
        spec_insert_desc(m, e) == m.subrange(0, j) + seq![e] + m.subrange(j, m.len() as int),
    decreases m.len(),
{
    if m.len() == 0 {
        assert(spec_insert_desc(m, e) =~= m.subrange(0, j) + seq![e] + m.subrange(
            j,
            m.len() as int,
        ));
    } else if j == 0 {
        assert(spec_insert_desc(m, e) =~= m.subrange(0, 0) + seq![e] + m.subrange(
            0,
            m.len() as int,
        ));
    } else {
        let tail = m.drop_first();
        assert forall|x: int| 0 <= x < j - 1 implies !lex_lt(tail[x].0, e.0) by {
            assert(tail[x] == m[x + 1]);
        }
        assert(j - 1 < tail.len() ==> lex_lt(tail[j - 1].0, e.0));
        lemma_insert_desc_at(tail, e, j - 1);
        assert(spec_insert_desc(m, e) =~= m.subrange(0, j) + seq![e] + m.subrange(
            j,
            m.len() as int,
        ));
    }
}

/// Find the insertion point: the first entry whose key sorts strictly below
/// the new key.
#[verifier::loop_isolation(false)]
fn find_insert_pos<T: DeepView>(out: &Vec<(String, T)>, key: &str) -> (j: usize)
    ensures
        0 <= j <= out@.len(),
        forall|x: int| 0 <= x < j ==> !lex_lt(out.deep_view()[x].0, key@),
        j < out@.len() ==> lex_lt(out.deep_view()[j as int].0, key@),
{
    let n = out.len();
    let mut j: usize = 0;
    while j < n
        invariant
            0 <= j <= n,
            forall|x: int| 0 <= x < j ==> !lex_lt(out.deep_view()[x].0, key@),
        decreases n - j,
    {
        proof {
            lemma_kv_view(out, j as int);
        }
        if str_lex_lt(out[j].0.as_str(), key) {
            return j;
        }
        j = j + 1;
    }
    j
}

/// Insert one entry at its descending-sorted position.
fn insert_sorted_desc<T: DeepView>(out: &mut Vec<(String, T)>, e: (String, T))
    ensures
        final(out).deep_view() == spec_insert_desc(
            old(out).deep_view(),
            (e.0@, e.1.deep_view()),
        ),
{
    let ghost ov = out.deep_view();
    let ghost ev = (e.0@, e.1.deep_view());
    proof {
        assert(ov.len() == out@.len());
    }
    let j = find_insert_pos(out, e.0.as_str());
    let n = out.len();
    out.insert(j, e);
    proof {
        lemma_insert_desc_at(ov, ev, j as int);
        assert forall|x: int| 0 <= x < out.deep_view().len() implies out.deep_view()[x] == (
        ov.subrange(0, j as int) + seq![ev] + ov.subrange(j as int, n as int))[x] by {
            assert(out.deep_view()[x] == out@[x].deep_view());
            if x < j {
                assert(old(out).deep_view()[x] == old(out)@[x].deep_view());
            } else if x > j {
                assert(old(out).deep_view()[x - 1] == old(out)@[x - 1].deep_view());
            }
        }
        assert(out.deep_view() =~= ov.subrange(0, j as int) + seq![ev] + ov.subrange(
            j as int,
            n as int,
        ));
    }
}

/// Insertion sort in descending lexicographic key order.
fn sort_by_key_desc<T: DeepView>(m: Vec<(String, T)>) -> (r: Vec<(String, T)>)
    ensures
        r.deep_view() == spec_sort_desc(m.deep_view()),
{
    let ghost morig = m@;
    let ghost mv = m.deep_view();
    let mut rest = m;
    let mut out: Vec<(String, T)> = Vec::new();
    let ghost n = mv.len();
    let ghost mut i: int = 0;
    proof {
        assert(mv.len() == morig.len());
        assert(rest@ =~= morig.subrange(0, n as int));
        assert(out.deep_view() =~= Seq::<(Seq<char>, T::V)>::empty());
        assert(mv.subrange(0, 0) =~= Seq::<(Seq<char>, T::V)>::empty());
    }
    while rest.len() > 0
        invariant
            0 <= i <= n,
            n == mv.len() == morig.len(),
            rest@ == morig.subrange(i as int, n as int),
            out.deep_view() == spec_sort_desc(mv.subrange(0, i as int)),
            forall|x: int| 0 <= x < mv.len() ==> mv[x] == #[trigger] morig[x].deep_view(),
        decreases rest@.len(),
    {
        let ghost rv = rest@;
        let e = rest.remove(0);
        proof {
            assert(e == morig[i as int]);
            assert(rest@ =~= morig.subrange(i + 1, n as int));
            assert(mv.subrange(0, i + 1).drop_last() =~= mv.subrange(0, i as int));
            assert(mv.subrange(0, i + 1).last() == mv[i as int]);
        }
        insert_sorted_desc(&mut out, e);
        proof {
            assert(mv[i as int] == morig[i as int].deep_view());
            assert(morig[i as int].deep_view() == (
                morig[i as int].0@,
                morig[i as int].1.deep_view(),
            ));
            assert((e.0@, e.1.deep_view()) == mv[i as int]);
            i = i + 1;
        }
    }
    proof {
        assert(i == n);
        assert(mv.subrange(0, n as int) =~= mv);
    }
    out
}

/// Resolve each scope prefix and its inner map, and sort the scopes table
/// in descending lexicographic order of scope keys.
#[verifier::loop_isolation(false)]
pub(crate) fn parse_scope_map(
    scope_map: &Vec<(String, Vec<(String, String)>)>,
    base: &str,
) -> (r: (Vec<(String, Vec<(String, Option<String>)>)>, Vec<ImportMapDiagnostic>))
    ensures
        r.0.deep_view() == spec_sort_desc(spec_resolve_scopes(scope_map.deep_view(), base@).0),
        r.1.deep_view() == spec_resolve_scopes(scope_map.deep_view(), base@).1,
{
    let ghost sv = scope_map.deep_view();
    let n = scope_map.len();
    let mut sc: Vec<(String, Vec<(String, Option<String>)>)> = Vec::new();
    let mut d: Vec<ImportMapDiagnostic> = Vec::new();
    proof {
        assert(sv.len() == scope_map@.len());
        assert(sc.deep_view() =~= Seq::<ScEntry>::empty());
        assert(d.deep_view() =~= Seq::<DiagView>::empty());
        assert(sv.subrange(0, 0) =~= Seq::<(Seq<char>, Seq<(Seq<char>, Seq<char>)>)>::empty());
    }
    let mut i: usize = 0;
    while i < n
        invariant
            0 <= i <= n,
            sc.deep_view() == spec_resolve_scopes(sv.subrange(0, i as int), base@).0,
            d.deep_view() == spec_resolve_scopes(sv.subrange(0, i as int), base@).1,
        decreases n - i,
    {
        let ghost done = sv.subrange(0, i as int);
        proof {
            lemma_kv_view(scope_map, i as int);
            assert(sv.subrange(0, i + 1).drop_last() =~= done);
            assert(sv.subrange(0, i + 1).last() == sv[i as int]);
        }
        let ghost dv = d.deep_view();
        let raw_prefix = &scope_map[i].0;
        match join_url(base, raw_prefix.as_str()) {
            None => {
                d.push(ImportMapDiagnostic::InvalidScope(raw_prefix.clone(), base.to_owned()));
                proof {
                    assert(d.deep_view() =~= dv.push(
                        DiagView::InvalidScope(sv[i as int].0, base@),
                    ));
                }
            }
            Some(prefix_url) => {
                let (norm, mut d2) = parse_specifier_map(&scope_map[i].1, base);
                let ghost d2v = d2.deep_view();
                d.append(&mut d2);
                proof {
                    assert forall|x: int| 0 <= x < d.deep_view().len() implies d.deep_view()[x]
                        == (dv + d2v)[x] by {
                        assert(d.deep_view()[x] == d@[x].deep_view());
                    }
                    assert(d.deep_view() =~= dv + d2v);
                }
                upsert(&mut sc, prefix_url, norm);
            }
        }
        i = i + 1;
    }
    proof {
        assert(sv.subrange(0, n as int) =~= sv);
    }
    let sorted = sort_by_key_desc(sc);
    (sorted, d)
}

/// Shape-check the import-map JSON value and split it into candidate
/// mappings, candidate scopes, and diagnostics.
#[verifier::loop_isolation(false)]
pub(crate) fn parse_value(v: &JsonValue) -> (r: Result<
    (Vec<(String, String)>, Vec<(String, Vec<(String, String)>)>, Vec<ImportMapDiagnostic>),
    ImportMapError,
>)
    ensures
        match r {
            Ok(t) => spec_parse_value(*v) == Ok::<_, Seq<char>>(
                (t.0.deep_view(), t.1.deep_view(), t.2.deep_view()),
            ),
            Err(e) => match e@ {
                ErrView::Other(m) => spec_parse_value(*v) is Err && spec_parse_value(
                    *v,
                )->Err_0 == m,
                _ => false,
            },
        },
{
    let members = match v {
        JsonValue::Object(ms) => ms,
        _ => {
            return Err(ImportMapError::Other("Import map JSON must be an object".to_owned()));
        }
    };

    let (um, d1) = match json_obj_get(members, "imports") {
        None => {
            let e0: Vec<(String, String)> = Vec::new();
            let e1: Vec<ImportMapDiagnostic> = Vec::new();
            proof {
                assert(e0.deep_view() =~= Seq::<(Seq<char>, Seq<char>)>::empty());
                assert(e1.deep_view() =~= Seq::<DiagView>::empty());
            }
            (e0, e1)
        }
        Some(val) => match val {
            JsonValue::Object(im) => parse_specifier_map_json(im),
            _ => {
                return Err(
                    ImportMapError::Other("Import map's 'imports' must be an object".to_owned()),
                );
            }
        },
    };

    let (usc, d2) = match json_obj_get(members, "scopes") {
        None => {
            let e0: Vec<(String, Vec<(String, String)>)> = Vec::new();
            let e1: Vec<ImportMapDiagnostic> = Vec::new();
            proof {
                assert(e0.deep_view() =~= Seq::<
                    (Seq<char>, Seq<(Seq<char>, Seq<char>)>),
                >::empty());
                assert(e1.deep_view() =~= Seq::<DiagView>::empty());
            }
            (e0, e1)
        }
        Some(val) => match val {
            JsonValue::Object(sc) => match parse_scopes_map_json(sc) {
                Ok(t) => t,
                Err(e) => {
                    return Err(e);
                }
            },
            _ => {
                return Err(
                    ImportMapError::Other("Import map's 'scopes' must be an object".to_owned()),
                );
            }
        },
    };

    let mut d_top: Vec<ImportMapDiagnostic> = Vec::new();
    let n = members.len();
    proof {
        assert(d_top.deep_view() =~= Seq::<DiagView>::empty());
        assert(members@.subrange(0, 0) =~= Seq::<(String, JsonValue)>::empty());
    }
    let mut i: usize = 0;
    while i < n
        invariant
            0 <= i <= n,
            d_top.deep_view() == spec_top_key_diags(members@.subrange(0, i as int)),
        decreases n - i,
    {
        proof {
            assert(members@.subrange(0, i + 1).drop_last() =~= members@.subrange(0, i as int));
            assert(members@.subrange(0, i + 1).last() == members@[i as int]);
        }
        let ghost dv = d_top.deep_view();
        let k = &members[i].0;
        if !(str_eq(k.as_str(), "imports") || str_eq(k.as_str(), "scopes")) {
            d_top.push(ImportMapDiagnostic::InvalidTopLevelKey(k.clone()));
            proof {
                assert(d_top.deep_view() =~= dv.push(
                    DiagView::InvalidTopLevelKey(members@[i as int].0@),
                ));
            }
        }
        i = i + 1;
    }
    proof {
        assert(members@.subrange(0, n as int) =~= members@);
    }

    let ghost d1v = d1.deep_view();
    let ghost d2v = d2.deep_view();
    let ghost dtv = d_top.deep_view();
    let mut diags = d1;
    let mut d2m = d2;
    let mut dtm = d_top;
    diags.append(&mut d2m);
    diags.append(&mut dtm);
    proof {
        assert forall|x: int| 0 <= x < diags.deep_view().len() implies diags.deep_view()[x] == (
        d1v + d2v + dtv)[x] by {
            assert(diags.deep_view()[x] == diags@[x].deep_view());
        }
        assert(diags.deep_view() =~= d1v + d2v + dtv);
    }
    Ok((um, usc, diags))
}

/// Parse an import map from its base URL and a JSON value, yielding the map
/// and the non-fatal diagnostics, or the fatal shape error.
pub fn parse_from_value(base_url: &str, json_value: &JsonValue) -> (r: Result<
    (ImportMap, Vec<ImportMapDiagnostic>),
    ImportMapError,
>)
    ensures
        match r {
            Ok(t) => spec_parse_import_map(base_url@, *json_value) matches Ok(model)
                && t.0.spec_base_url() == model.0 && t.0.spec_base_path() == model.1
                && t.0.spec_imports() == model.2 && t.0.spec_scopes() == model.3
                && t.1.deep_view() == model.4,
            Err(e) => match e@ {
                ErrView::Other(m) => spec_parse_import_map(base_url@, *json_value) is Err
                    && spec_parse_import_map(base_url@, *json_value)->Err_0 == m,
                _ => false,
            },
        },
{
    let base_n = match parse_url(base_url) {
        Some(u) => u,
        None => {
            return Err(ImportMapError::Other("Import map base must be a valid URL".to_owned()));
        }
    };
    let (um, usc, d1) = match parse_value(json_value) {
        Ok(t) => t,
        Err(e) => {
            return Err(e);
        }
    };
    let (im, mut d2) = parse_specifier_map(&um, base_n.as_str());
    let (sc, mut d3) = parse_scope_map(&usc, base_n.as_str());
    let base_path = match url_path(base_n.as_str()) {
        Some(p) => p,
        None => String::new(),
    };
    let ghost d1v = d1.deep_view();
    let ghost d2v = d2.deep_view();
    let ghost d3v = d3.deep_view();
    let mut diags = d1;
    diags.append(&mut d2);
    diags.append(&mut d3);
    proof {
        assert forall|x: int| 0 <= x < diags.deep_view().len() implies diags.deep_view()[x] == (
        d1v + d2v + d3v)[x] by {
            assert(diags.deep_view()[x] == diags@[x].deep_view());
        }
        assert(diags.deep_view() =~= d1v + d2v + d3v);
    }
    let map = ImportMap { base_url: base_n, base_path, imports: im, scopes: sc };
    Ok((map, diags))
}

/// A parsed import map: the URL it was loaded against, its top-level
/// specifier map and its scopes table, both sorted for matching.
#[derive(Debug, Clone)]
pub struct ImportMap {
    base_url: String,
    base_path: String,
    imports: Vec<(String, Option<String>)>,
    scopes: Vec<(String, Vec<(String, Option<String>)>)>,
}

impl ImportMap {
    /// The URL the map file itself was loaded relative to.
    pub closed spec fn spec_base_url(&self) -> Seq<char> {
        self.base_url@
    }

    /// The path component of the base URL (empty when it has none).
    pub closed spec fn spec_base_path(&self) -> Seq<char> {
        self.base_path@
    }

    pub closed spec fn spec_imports(&self) -> Seq<SmEntry> {
        self.imports.deep_view()
    }

    pub closed spec fn spec_scopes(&self) -> Seq<ScEntry> {
        self.scopes.deep_view()
    }

    pub fn base_url(&self) -> (r: &String)
        ensures
            r@ == self.spec_base_url(),
    {
        &self.base_url
    }

    pub fn base_path(&self) -> (r: &String)
        ensures
            r@ == self.spec_base_path(),
    {
        &self.base_path
    }

    /// Resolve one specifier against this map for the given referrer.  The
    /// referrer is normalized by URL parsing when possible; one that does
    /// not parse is matched against the scope keys as given.
    pub fn resolve(&self, specifier: &str, referrer: &str) -> (r: Result<String, ImportMapError>)
        ensures
            match r {
                Ok(u) => spec_im_resolve(
                    self.spec_imports(),
                    self.spec_scopes(),
                    specifier@,
                    referrer@,
                ) == Ok::<Seq<char>, ErrView>(u@),
                Err(e) => spec_im_resolve(
                    self.spec_imports(),
                    self.spec_scopes(),
                    specifier@,
                    referrer@,
                ) == Err::<Seq<char>, ErrView>(e@),
            },
    {
        let referrer_n: String = match parse_url(referrer) {
            Some(u) => u,
            None => referrer.to_owned(),
        };
        let as_url: Option<String> = try_url_like_specifier(specifier, referrer_n.as_str());
        let normalized: String = match &as_url {
            Some(u) => u.clone(),
            None => specifier.to_owned(),
        };

        match resolve_scopes_match(&self.scopes, normalized.as_str(), referrer_n.as_str()) {
            Ok(Some(u)) => {
                return Ok(u);
            }
            Err(e) => {
                return Err(e);
            }
            Ok(None) => {}
        }

        match resolve_imports_match(&self.imports, normalized.as_str()) {
            Ok(Some(u)) => {
                return Ok(u);
            }
            Err(e) => {
                return Err(e);
            }
            Ok(None) => {}
        }

        match as_url {
            Some(u) => Ok(u),
            None => Err(
                ImportMapError::UnmappedBareSpecifier(
                    specifier.to_owned(),
                    Some(referrer_n),
                ),
            ),
        }
    }
}

// ---------------------------------------------------------------------------
// Order of the parsed maps, and the matching laws
// ---------------------------------------------------------------------------

/// Keys in strictly descending lexicographic order.  Whenever one key is a
/// proper prefix of another, the longer key sorts first, so the first
/// prefix match is the most specific one.
pub open spec fn sm_sorted<V>(m: Seq<(Seq<char>, V)>) -> bool {
    forall|i: int, j: int| #![trigger m[i], m[j]] 0 <= i < j < m.len() ==> lex_lt(m[j].0, m[i].0)
}

pub open spec fn distinct_keys<V>(m: Seq<(Seq<char>, V)>) -> bool {
    forall|i: int, j: int| #![trigger m[i], m[j]] 0 <= i < j < m.len() ==> m[i].0 != m[j].0
}

pub open spec fn has_key<V>(m: Seq<(Seq<char>, V)>, k: Seq<char>) -> bool {
    exists|i: int| 0 <= i < m.len() && #[trigger] m[i].0 == k
}

pub open spec fn has_entry<V>(m: Seq<(Seq<char>, V)>, e: (Seq<char>, V)) -> bool {
    exists|i: int| 0 <= i < m.len() && #[trigger] m[i] == e
}

pub proof fn lemma_lex_lt_irrefl(a: Seq<char>)
    ensures
        !lex_lt(a, a),
{
    if lex_lt(a, a) {
        lemma_lex_lt_asymmetric(a, a);
    }
}

pub proof fn lemma_sorted_distinct<V>(m: Seq<(Seq<char>, V)>)
    requires
        sm_sorted(m),
    ensures
        distinct_keys(m),
{
    assert forall|i: int, j: int| #![trigger m[i], m[j]] 0 <= i < j < m.len() implies m[i].0
        != m[j].0 by {
        if m[i].0 == m[j].0 {
            assert(lex_lt(m[j].0, m[i].0));
            lemma_lex_lt_irrefl(m[i].0);
        }
    }
}

proof fn lemma_distinct_drop_first<V>(m: Seq<(Seq<char>, V)>)
    requires
        distinct_keys(m),
        m.len() > 0,
    ensures
        distinct_keys(m.drop_first()),
{
    let t = m.drop_first();
    assert forall|i: int, j: int| #![trigger t[i], t[j]] 0 <= i < j < t.len() implies t[i].0
        != t[j].0 by {
        assert(t[i] == m[i + 1]);
        assert(t[j] == m[j + 1]);
    }
}

/// An exactly matching key decides the match, wherever it stands in the map.
pub proof fn lemma_sm_exact_hit(m: Seq<SmEntry>, s: Seq<char>, i: int)
    requires
        distinct_keys(m),
        0 <= i < m.len(),
        m[i].0 == s,
    ensures
        sm_exact(m, s) == Some(m[i].1),
    decreases m.len(),
{
    if i > 0 {
        assert(m[0].0 != s);
        let tail = m.drop_first();
        lemma_distinct_drop_first(m);
        assert(tail[i - 1] == m[i]);
        lemma_sm_exact_hit(tail, s, i - 1);
    }
}

/// Index of the prefix entry that the match rule selects: the first
/// matching entry in map order.
pub proof fn lemma_sm_prefix_idx(m: Seq<SmEntry>, s: Seq<char>) -> (i: int)
    requires
        sm_prefix(m, s) is Some,
    ensures
        0 <= i < m.len(),
        m[i] == sm_prefix(m, s)->0,
        entry_prefix_matches(m[i], s),
        forall|j: int| 0 <= j < i ==> !entry_prefix_matches(#[trigger] m[j], s),
    decreases m.len(),
{
    if entry_prefix_matches(m[0], s) {
        0
    } else {
        let tail = m.drop_first();
        let i2 = lemma_sm_prefix_idx(tail, s);
        assert(tail[i2] == m[i2 + 1]);
        assert forall|j: int| 0 <= j < i2 + 1 implies !entry_prefix_matches(
            #[trigger] m[j],
            s,
        ) by {
            if j > 0 {
                assert(m[j] == tail[j - 1]);
            }
        }
        i2 + 1
    }
}

pub proof fn lemma_sm_prefix_none(m: Seq<SmEntry>, s: Seq<char>)
    requires
        sm_prefix(m, s) is None,
    ensures
        forall|j: int| 0 <= j < m.len() ==> !entry_prefix_matches(#[trigger] m[j], s),
    decreases m.len(),
{
    if m.len() > 0 {
        let tail = m.drop_first();
        lemma_sm_prefix_none(tail, s);
        assert forall|j: int| 0 <= j < m.len() implies !entry_prefix_matches(
            #[trigger] m[j],
            s,
        ) by {
            if j > 0 {
                assert(m[j] == tail[j - 1]);
            }
        }
    }
}

/// Longest-prefix wins: in a sorted specifier map, the prefix entry that
/// the match rule selects has the longest key among all entries that
/// prefix-match the specifier.
pub proof fn lemma_longest_prefix_wins(m: Seq<SmEntry>, s: Seq<char>, j: int)
    requires
        sm_sorted(m),
        0 <= j < m.len(),
        entry_prefix_matches(m[j], s),
    ensures
        sm_prefix(m, s) is Some,
        m[j].0.len() <= (sm_prefix(m, s)->0).0.len(),
{
    if sm_prefix(m, s) is None {
        lemma_sm_prefix_none(m, s);
        assert(!entry_prefix_matches(m[j], s));
    }
    let i = lemma_sm_prefix_idx(m, s);
    let e = sm_prefix(m, s)->0;
    if m[j].0.len() > e.0.len() {
        lemma_prefixes_nested(s, e.0, m[j].0);
        lemma_proper_prefix_lex_lt(e.0, m[j].0);
        if i < j {
            assert(lex_lt(m[j].0, m[i].0));
            lemma_lex_lt_asymmetric(e.0, m[j].0);
        } else if j < i {
            assert(!entry_prefix_matches(m[j], s));
        }
    }
}

/// Null blocks, never falls through: a key mapped to null that matches the
/// specifier exactly makes the whole match fail loudly, whatever broader
/// prefix entries the map also holds.
pub proof fn lemma_null_blocks(m: Seq<SmEntry>, s: Seq<char>, i: int)
    requires
        distinct_keys(m),
        0 <= i < m.len(),
        m[i].0 == s,
        m[i].1 is None,
    ensures
        sm_resolve(m, s) == SmOutcome::Failed(spec_msg_blocked(s)),
{
    lemma_sm_exact_hit(m, s, i);
}

/// Scope precedence over top level: when the scopes table yields a match,
/// the resolution returns it, whatever the top-level map holds.
pub proof fn lemma_scope_precedence(
    imports: Seq<SmEntry>,
    scopes: Seq<ScEntry>,
    specifier: Seq<char>,
    referrer_raw: Seq<char>,
    u: Seq<char>,
)
    requires
        sc_resolve(
            scopes,
            spec_im_normalized(specifier, referrer_raw),
            spec_im_referrer(referrer_raw),
        ) == SmOutcome::Found(u),
    ensures
        spec_im_resolve(imports, scopes, specifier, referrer_raw) == Ok::<Seq<char>, ErrView>(u),
{
}

// --- the parsed maps are sorted -------------------------------------------

pub proof fn lemma_upsert_distinct<V>(m: Seq<(Seq<char>, V)>, k: Seq<char>, v: V)
    requires
        distinct_keys(m),
    ensures
        distinct_keys(spec_upsert(m, k, v)),
        forall|k2: Seq<char>| #![trigger has_key(spec_upsert(m, k, v), k2)]
            has_key(spec_upsert(m, k, v), k2) <==> (has_key(m, k2) || k2 == k),
{
    lemma_key_idx(m, k);
    let r = spec_upsert(m, k, v);
    match key_idx(m, k) {
        Some(i) => {
            assert forall|x: int| 0 <= x < r.len() implies #[trigger] r[x].0 == m[x].0 by {}
            assert forall|i2: int, j2: int| #![trigger r[i2], r[j2]] 0 <= i2 < j2 < r.len()
                implies r[i2].0 != r[j2].0 by {
                assert(r[i2].0 == m[i2].0);
                assert(r[j2].0 == m[j2].0);
            }
            assert forall|k2: Seq<char>| #![trigger has_key(r, k2)] has_key(r, k2) <==> (has_key(
                m,
                k2,
            ) || k2 == k) by {
                if has_key(r, k2) {
                    let x = choose|x: int| 0 <= x < r.len() && #[trigger] r[x].0 == k2;
                    assert(m[x].0 == k2);
                }
                if has_key(m, k2) {
                    let x = choose|x: int| 0 <= x < m.len() && #[trigger] m[x].0 == k2;
                    assert(r[x].0 == k2);
                }
                if k2 == k {
                    assert(r[i].0 == k2);
                }
            }
        }
        None => {
            assert forall|i2: int, j2: int| #![trigger r[i2], r[j2]] 0 <= i2 < j2 < r.len()
                implies r[i2].0 != r[j2].0 by {
                if j2 < m.len() {
                    assert(r[i2] == m[i2]);
                    assert(r[j2] == m[j2]);
                } else {
                    assert(r[i2] == m[i2]);
                    assert(r[j2].0 == k);
                    assert(m[i2].0 != k);
                }
            }
            assert forall|k2: Seq<char>| #![trigger has_key(r, k2)] has_key(r, k2) <==> (has_key(
                m,
                k2,
            ) || k2 == k) by {
                if has_key(r, k2) {
                    let x = choose|x: int| 0 <= x < r.len() && #[trigger] r[x].0 == k2;
                    if x < m.len() {
                        assert(m[x].0 == k2);
                    }
                }
                if has_key(m, k2) {
                    let x = choose|x: int| 0 <= x < m.len() && #[trigger] m[x].0 == k2;
                    assert(r[x].0 == k2);
                }
                if k2 == k {
                    assert(r[m.len() as int].0 == k2);
                }
            }
        }
    }
}

pub proof fn lemma_upsert_entries<V>(m: Seq<(Seq<char>, V)>, k: Seq<char>, v: V)
    ensures
        forall|x: int| 0 <= x < spec_upsert(m, k, v).len() ==> #[trigger] spec_upsert(
            m,
            k,
            v,
        )[x] == (k, v) || has_entry(m, spec_upsert(m, k, v)[x]),
{
    lemma_key_idx(m, k);
    let r = spec_upsert(m, k, v);
    assert forall|x: int| 0 <= x < r.len() implies #[trigger] r[x] == (k, v) || has_entry(
        m,
        r[x],
    ) by {
        match key_idx(m, k) {
            Some(i) => {
                if x != i {
                    assert(m[x] == r[x]);
                }
            }
            None => {
                if x < m.len() {
                    assert(m[x] == r[x]);
                }
            }
        }
    }
}

/// Descending insertion keeps the order strict when the new key is fresh,
/// and adds exactly the new entry.
pub proof fn lemma_insert_desc_sorted<V>(m: Seq<(Seq<char>, V)>, e: (Seq<char>, V))
    requires
        sm_sorted(m),
        !has_key(m, e.0),
    ensures
        sm_sorted(spec_insert_desc(m, e)),
        forall|k2: Seq<char>| #![trigger has_key(spec_insert_desc(m, e), k2)]
            has_key(spec_insert_desc(m, e), k2) <==> (has_key(m, k2) || k2 == e.0),
        forall|x: int| 0 <= x < spec_insert_desc(m, e).len() ==> #[trigger] spec_insert_desc(
            m,
            e,
        )[x] == e || has_entry(m, spec_insert_desc(m, e)[x]),
    decreases m.len(),
{
    let r = spec_insert_desc(m, e);
    if m.len() == 0 {
        assert(r =~= seq![e]);
        assert forall|k2: Seq<char>| #![trigger has_key(r, k2)] has_key(r, k2) <==> (has_key(
            m,
            k2,
        ) || k2 == e.0) by {
            if k2 == e.0 {
                assert(r[0].0 == k2);
            }
            if has_key(r, k2) {
                let x = choose|x: int| 0 <= x < r.len() && #[trigger] r[x].0 == k2;
                assert(r[0].0 == e.0);
            }
        }
        assert forall|x: int| 0 <= x < r.len() implies #[trigger] r[x] == e || has_entry(
            m,
            r[x],
        ) by {}
    } else if lex_lt(m[0].0, e.0) {
        assert(r =~= seq![e] + m);
        assert forall|i2: int, j2: int| #![trigger r[i2], r[j2]] 0 <= i2 < j2 < r.len()
            implies lex_lt(r[j2].0, r[i2].0) by {
            if i2 == 0 {
                assert(r[j2] == m[j2 - 1]);
                if j2 == 1 {
                } else {
                    assert(lex_lt(m[j2 - 1].0, m[0].0));
                    lemma_lex_lt_trans(m[j2 - 1].0, m[0].0, e.0);
                }
            } else {
                assert(r[i2] == m[i2 - 1]);
                assert(r[j2] == m[j2 - 1]);
            }
        }
        assert forall|k2: Seq<char>| #![trigger has_key(r, k2)] has_key(r, k2) <==> (has_key(
            m,
            k2,
        ) || k2 == e.0) by {
            if has_key(r, k2) {
                let x = choose|x: int| 0 <= x < r.len() && #[trigger] r[x].0 == k2;
                if x > 0 {
                    assert(m[x - 1].0 == k2);
                }
            }
            if has_key(m, k2) {
                let x = choose|x: int| 0 <= x < m.len() && #[trigger] m[x].0 == k2;
                assert(r[x + 1].0 == k2);
            }
            if k2 == e.0 {
                assert(r[0].0 == k2);
            }
        }
        assert forall|x: int| 0 <= x < r.len() implies #[trigger] r[x] == e || has_entry(
            m,
            r[x],
        ) by {
            if x > 0 {
                assert(m[x - 1] == r[x]);
            }
        }
    } else {
        let tail = m.drop_first();
        let rt = spec_insert_desc(tail, e);
        assert(r =~= seq![m[0]] + rt);
        assert forall|i2: int, j2: int| #![trigger tail[i2], tail[j2]] 0 <= i2 < j2 < tail.len()
            implies lex_lt(tail[j2].0, tail[i2].0) by {
            assert(tail[i2] == m[i2 + 1]);
            assert(tail[j2] == m[j2 + 1]);
        }
        assert(!has_key(tail, e.0)) by {
            if has_key(tail, e.0) {
                let x = choose|x: int| 0 <= x < tail.len() && #[trigger] tail[x].0 == e.0;
                assert(m[x + 1].0 == e.0);
            }
        }
        lemma_insert_desc_sorted(tail, e);
        // the head key is strictly above the new key and every tail key
        assert(e.0 != m[0].0) by {
            if e.0 == m[0].0 {
                assert(m[0].0 == e.0);
            }
        }
        lemma_lex_lt_total(m[0].0, e.0);
        assert(lex_lt(e.0, m[0].0));
        assert forall|i2: int, j2: int| #![trigger r[i2], r[j2]] 0 <= i2 < j2 < r.len()
            implies lex_lt(r[j2].0, r[i2].0) by {
            if i2 == 0 {
                assert(r[j2] == rt[j2 - 1]);
                if rt[j2 - 1] == e {
                } else {
                    assert(has_entry(tail, rt[j2 - 1]));
                    let y = choose|y: int| 0 <= y < tail.len() && #[trigger] tail[y] == rt[j2
                        - 1];
                    assert(tail[y] == m[y + 1]);
                    assert(lex_lt(m[y + 1].0, m[0].0));
                }
            } else {
                assert(r[i2] == rt[i2 - 1]);
                assert(r[j2] == rt[j2 - 1]);
            }
        }
        assert forall|k2: Seq<char>| #![trigger has_key(r, k2)] has_key(r, k2) <==> (has_key(
            m,
            k2,
        ) || k2 == e.0) by {
            if has_key(r, k2) {
                let x = choose|x: int| 0 <= x < r.len() && #[trigger] r[x].0 == k2;
                if x == 0 {
                    assert(m[0].0 == k2);
                } else {
                    assert(has_key(rt, k2)) by {
                        assert(rt[x - 1].0 == k2);
                    }
                    if has_key(tail, k2) {
                        let y = choose|y: int| 0 <= y < tail.len() && #[trigger] tail[y].0 == k2;
                        assert(m[y + 1].0 == k2);
                    }
                }
            }
            if has_key(m, k2) {
                let x = choose|x: int| 0 <= x < m.len() && #[trigger] m[x].0 == k2;
                if x == 0 {
                    assert(r[0].0 == k2);
                } else {
                    assert(has_key(tail, k2)) by {
                        assert(tail[x - 1].0 == k2);
                    }
                    assert(has_key(rt, k2));
                    let y = choose|y: int| 0 <= y < rt.len() && #[trigger] rt[y].0 == k2;
                    assert(r[y + 1].0 == k2);
                }
            }
            if k2 == e.0 {
                assert(has_key(rt, k2));
                let y = choose|y: int| 0 <= y < rt.len() && #[trigger] rt[y].0 == k2;
                assert(r[y + 1].0 == k2);
            }
        }
        assert forall|x: int| 0 <= x < r.len() implies #[trigger] r[x] == e || has_entry(
            m,
            r[x],
        ) by {
            if x == 0 {
                assert(m[0] == r[0]);
            } else {
                assert(r[x] == rt[x - 1]);
                if rt[x - 1] == e {
                } else {
                    assert(has_entry(tail, rt[x - 1]));
                    let y = choose|y: int| 0 <= y < tail.len() && #[trigger] tail[y] == rt[x - 1];
                    assert(m[y + 1] == r[x]);
                }
            }
        }
    }
}

/// The descending insertion sort of a distinct-keyed table is strictly
/// sorted, keeps exactly the same keys, and only rearranges the entries.
pub proof fn lemma_sort_desc_sorted<V>(m: Seq<(Seq<char>, V)>)
    requires
        distinct_keys(m),
    ensures
        sm_sorted(spec_sort_desc(m)),
        forall|k2: Seq<char>| #![trigger has_key(spec_sort_desc(m), k2)]
            has_key(spec_sort_desc(m), k2) <==> has_key(m, k2),
        forall|x: int| 0 <= x < spec_sort_desc(m).len() ==> has_entry(
            m,
            #[trigger] spec_sort_desc(m)[x],
        ),
    decreases m.len(),
{
    let r = spec_sort_desc(m);
    if m.len() > 0 {
        let pre = m.drop_last();
        let last = m.last();
        assert forall|i2: int, j2: int| #![trigger pre[i2], pre[j2]] 0 <= i2 < j2 < pre.len()
            implies pre[i2].0 != pre[j2].0 by {
            assert(pre[i2] == m[i2]);
            assert(pre[j2] == m[j2]);
        }
        lemma_sort_desc_sorted(pre);
        let sp = spec_sort_desc(pre);
        assert(!has_key(sp, last.0)) by {
            if has_key(sp, last.0) {
                assert(has_key(pre, last.0));
                let y = choose|y: int| 0 <= y < pre.len() && #[trigger] pre[y].0 == last.0;
                assert(m[y].0 == m[m.len() - 1].0);
            }
        }
        lemma_insert_desc_sorted(sp, last);
        assert forall|k2: Seq<char>| #![trigger has_key(r, k2)] has_key(r, k2) <==> has_key(
            m,
            k2,
        ) by {
            assert(has_key(r, k2) <==> (has_key(sp, k2) || k2 == last.0));
            assert(has_key(sp, k2) <==> has_key(pre, k2));
            if has_key(pre, k2) {
                let y = choose|y: int| 0 <= y < pre.len() && #[trigger] pre[y].0 == k2;
                assert(m[y].0 == k2);
            }
            if k2 == last.0 {
                assert(m[m.len() - 1].0 == k2);
            }
            if has_key(m, k2) {
                let y = choose|y: int| 0 <= y < m.len() && #[trigger] m[y].0 == k2;
                if y < m.len() - 1 {
                    assert(pre[y].0 == k2);
                }
            }
        }
        assert forall|x: int| 0 <= x < r.len() implies has_entry(m, #[trigger] r[x]) by {
            if r[x] == last {
                assert(m[m.len() - 1] == r[x]);
            } else {
                assert(has_entry(sp, r[x]));
                let y = choose|y: int| 0 <= y < sp.len() && #[trigger] sp[y] == r[x];
                assert(has_entry(pre, sp[y]));
                let z = choose|z: int| 0 <= z < pre.len() && #[trigger] pre[z] == sp[y];
                assert(m[z] == r[x]);
            }
        }
    }
}

/// Candidate resolution builds its map by upsert alone, so its keys are
/// distinct.
pub proof fn lemma_resolve_sm_distinct(entries: Seq<(Seq<char>, Seq<char>)>, base: Seq<char>)
    ensures
        distinct_keys(spec_resolve_sm(entries, base).0),
    decreases entries.len(),
{
    if entries.len() > 0 {
        lemma_resolve_sm_distinct(entries.drop_last(), base);
        let (m, d) = spec_resolve_sm(entries.drop_last(), base);
        let kv = entries.last();
        match spec_normalize_key(kv.0, base) {
            Err(_) => {}
            Ok(nkey) => {
                match spec_try_url_like(kv.1, base) {
                    None => {
                        lemma_upsert_distinct(m, nkey, None);
                    }
                    Some(addr) => {
                        if ends_with(nkey, "/"@) && !ends_with(addr, "/"@) {
                            lemma_upsert_distinct(m, nkey, None);
                        } else {
                            lemma_upsert_distinct(m, nkey, Some(addr));
                        }
                    }
                }
            }
        }
    }
}

/// The scopes table is built by upsert of sorted inner maps: its keys are
/// distinct and each value is sorted.
pub proof fn lemma_resolve_scopes_wf(
    sc: Seq<(Seq<char>, Seq<(Seq<char>, Seq<char>)>)>,
    base: Seq<char>,
)
    ensures
        distinct_keys(spec_resolve_scopes(sc, base).0),
        forall|x: int| 0 <= x < spec_resolve_scopes(sc, base).0.len() ==> sm_sorted(
            #[trigger] spec_resolve_scopes(sc, base).0[x].1,
        ),
    decreases sc.len(),
{
    if sc.len() > 0 {
        lemma_resolve_scopes_wf(sc.drop_last(), base);
        let (out, d) = spec_resolve_scopes(sc.drop_last(), base);
        let kv = sc.last();
        match spec_join_url(base, kv.0) {
            None => {}
            Some(prefix_url) => {
                let inner0 = spec_resolve_sm(kv.1, base).0;
                lemma_resolve_sm_distinct(kv.1, base);
                lemma_sort_desc_sorted(inner0);
                let inner = spec_sort_desc(inner0);
                lemma_upsert_distinct(out, prefix_url, inner);
                lemma_upsert_entries(out, prefix_url, inner);
                let r = spec_upsert(out, prefix_url, inner);
                assert forall|x: int| 0 <= x < r.len() implies sm_sorted(
                    #[trigger] r[x].1,
                ) by {
                    if r[x] == (prefix_url, inner) {
                    } else {
                        assert(has_entry(out, r[x]));
                        let y = choose|y: int| 0 <= y < out.len() && #[trigger] out[y] == r[x];
                    }
                }
            }
        }
    }
}

/// Every map that parsing produces is sorted in descending lexicographic
/// order: the top-level map, the scope table, and each scope's own map.
pub proof fn lemma_parse_maps_sorted(base_raw: Seq<char>, v: JsonValue)
    requires
        spec_parse_import_map(base_raw, v) is Ok,
    ensures
        sm_sorted((spec_parse_import_map(base_raw, v)->Ok_0).2),
        sm_sorted((spec_parse_import_map(base_raw, v)->Ok_0).3),
        forall|x: int| 0 <= x < (spec_parse_import_map(base_raw, v)->Ok_0).3.len() ==> sm_sorted(
            #[trigger] (spec_parse_import_map(base_raw, v)->Ok_0).3[x].1,
        ),
{
    let base = spec_parse_url(base_raw)->0;
    let (um, usc, d1) = spec_parse_value(v)->Ok_0;
    let im0 = spec_resolve_sm(um, base).0;
    lemma_resolve_sm_distinct(um, base);
    lemma_sort_desc_sorted(im0);
    let sc0 = spec_resolve_scopes(usc, base).0;
    lemma_resolve_scopes_wf(usc, base);
    lemma_sort_desc_sorted(sc0);
    let sc = spec_sort_desc(sc0);
    assert forall|x: int| 0 <= x < sc.len() implies sm_sorted(#[trigger] sc[x].1) by {
        assert(has_entry(sc0, sc[x]));
        let y = choose|y: int| 0 <= y < sc0.len() && #[trigger] sc0[y] == sc[x];
    }
}

} // verus!
