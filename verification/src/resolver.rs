//! The per-module resolver.
//!
//! One `Resolver` is created for each module compilation.  It resolves every
//! raw specifier found in the module — through the import map when one is
//! active — minimizes file paths relative to the module's own directory,
//! decorates the result with cache- and type-relevant query tokens, and
//! records an ordered dependency list.

use vstd::prelude::*;

verus! {

use crate::import_map::{spec_im_resolve, ImportMap};
use crate::specifier::{
    is_abspath_specifier,
    is_http_specifier,
    is_relpath_specifier,
    spec_is_abspath_specifier,
    spec_is_http_specifier,
    spec_is_relpath_specifier,
};
use crate::strutil::{
    find_char,
    join_char,
    lemma_find_char,
    lemma_rfind_char,
    rfind_char,
    split_char,
    starts_with,
    str_concat,
    str_eq,
    str_find_char,
    str_join_char,
    str_rfind_char,
    str_split_char,
    str_starts_with,
    str_substring,
    push_char,
    lemma_join_split_char,
};
use vstd::string::*;
use base64::Engine;
use path_slash::PathBufExt;

// ---------------------------------------------------------------------------
// Trusted wrappers
// ---------------------------------------------------------------------------

/// The unpadded URL-safe base64 text of the UTF-8 bytes of `s`.
pub uninterp spec fn spec_base64_url(s: Seq<char>) -> Seq<char>;

/// Relies on base64's `URL_SAFE_NO_PAD` engine (`Engine::encode`): the
/// encoding depends on the input bytes alone.
#[verifier::external_body]
fn base64_url(s: &str) -> (r: String)
    ensures
        r@ == spec_base64_url(s@),
{
    base64::engine::general_purpose::URL_SAFE_NO_PAD.encode(s.as_bytes())
}

/// The relative path from the directory `base` to `path`, with forward
/// slashes, `None` when no relative path exists.
pub uninterp spec fn spec_diff_path(path: Seq<char>, base: Seq<char>) -> Option<Seq<char>>;

/// Relies on `pathdiff::diff_paths` and path_slash's `PathBufExt::to_slash`:
/// both depend on the two path strings alone.
#[verifier::external_body]
fn diff_path(path: &str, base: &str) -> (r: Option<String>)
    ensures
        match r {
            Some(p) => spec_diff_path(path@, base@) == Some(p@),
            None => spec_diff_path(path@, base@) is None,
        },
{
    match pathdiff::diff_paths(std::path::Path::new(path), std::path::Path::new(base)) {
        Some(p) => match p.to_slash() {
            Some(s) => Some(s.into_owned()),
            None => None,
        },
        None => None,
    }
}

// ---------------------------------------------------------------------------
// Dependency descriptors
// ---------------------------------------------------------------------------

/// A source location: byte offsets of a string literal in the module text.
#[derive(Debug, Clone, Copy, PartialEq, Eq, Structural)]
pub struct Span {
    pub lo: u32,
    pub hi: u32,
}

/// One recorded edge of the per-module dependency graph.  Immutable once
/// pushed; never mutated or removed.
#[derive(Debug, Clone)]
pub struct DependencyDescriptor {
    /// The raw specifier as written in source.
    pub specifier: String,
    /// The final rewritten URL.
    pub resolved_url: String,
    /// The span of the source string literal, when the caller asked for it.
    pub source_location: Option<Span>,
    /// Whether the dependency came from a dynamic `import()` or a worker.
    pub dynamic: bool,
}

/// Specification-level mirror of `DependencyDescriptor`.
pub struct DepView {
    pub specifier: Seq<char>,
    pub resolved_url: Seq<char>,
    pub source_location: Option<Span>,
    pub dynamic: bool,
}

impl View for DependencyDescriptor {
    type V = DepView;

    open spec fn view(&self) -> DepView {
        DepView {
            specifier: self.specifier@,
            resolved_url: self.resolved_url@,
            source_location: self.source_location,
            dynamic: self.dynamic,
        }
    }
}

impl DeepView for DependencyDescriptor {
    type V = DepView;

    open spec fn deep_view(&self) -> DepView {
        self.view()
    }
}

// ---------------------------------------------------------------------------
// The resolution pipeline, in specification
// ---------------------------------------------------------------------------

/// The referrer URL string: the module's own address for remote modules, a
/// synthetic file-scheme URL for local paths.
pub open spec fn spec_referrer(filename: Seq<char>) -> Seq<char> {
    if spec_is_http_specifier(filename) {
        filename
    } else {
        "file://"@ + filename
    }
}

/// Import-map resolution with verbatim fallback: an unresolvable or
/// unmapped specifier degrades to itself rather than failing the compile.
pub open spec fn spec_mapped(
    im: Option<ImportMap>,
    specifier: Seq<char>,
    referrer: Seq<char>,
) -> Seq<char> {
    match im {
        Some(m) => match spec_im_resolve(m.spec_imports(), m.spec_scopes(), specifier, referrer) {
            Ok(u) => u,
            Err(_) => specifier,
        },
        None => specifier,
    }
}

/// The module's own directory: everything before the last `/`.
pub open spec fn spec_dirname(f: Seq<char>) -> Seq<char> {
    match rfind_char(f, '/') {
        Some(i) => if i == 0 {
            "/"@
        } else {
            f.take(i)
        },
        None => Seq::empty(),
    }
}

/// Path minimization: a file-scheme result is converted to a path relative
/// to the referrer's directory; the shorter of the relative and absolute
/// forms wins, ties favoring the relative form.  Returns the display path
/// and the absolute path (the version-table key).
pub open spec fn spec_minimized(filename: Seq<char>, resolved: Seq<char>) -> (Seq<char>, Seq<
    char,
>) {
    if starts_with(resolved, "file://"@) {
        let pathname = resolved.skip(7);
        if !spec_is_http_specifier(filename) {
            match spec_diff_path(pathname, spec_dirname(filename)) {
                Some(rel0) => {
                    let rel = if !spec_is_relpath_specifier(rel0) {
                        "./"@ + rel0
                    } else {
                        rel0
                    };
                    if rel.len() <= pathname.len() {
                        (rel, pathname)
                    } else {
                        (pathname, pathname)
                    }
                }
                None => (pathname, pathname),
            }
        } else {
            (pathname, pathname)
        }
    } else {
        (resolved, resolved)
    }
}

/// Split a path from its query string at the first `?`.
pub open spec fn spec_split_query(p: Seq<char>) -> (Seq<char>, Option<Seq<char>>) {
    match find_char(p, '?') {
        Some(i) => (p.take(i), Some(p.skip(i + 1))),
        None => (p, None),
    }
}

/// The raw query tokens, preserved verbatim and re-appended first.
pub open spec fn spec_raw_tokens(q: Option<Seq<char>>) -> Seq<Seq<char>> {
    match q {
        Some(qs) => split_char(qs, '&'),
        None => Seq::empty(),
    }
}

pub open spec fn has_token(tokens: Seq<Seq<char>>, t: Seq<char>) -> bool {
    exists|i: int| 0 <= i < tokens.len() && #[trigger] tokens[i] == t
}

/// The file name of a path: everything after the last `/`.
pub open spec fn spec_file_name(p: Seq<char>) -> Seq<char> {
    match rfind_char(p, '/') {
        Some(i) => p.skip(i + 1),
        None => p,
    }
}

/// The extension of a path: the part of its file name after the last `.`,
/// none when the file name has no `.` past its first character.
pub open spec fn spec_ext(p: Seq<char>) -> Option<Seq<char>> {
    let f = spec_file_name(p);
    match rfind_char(f, '.') {
        Some(i) => if i > 0 {
            Some(f.skip(i + 1))
        } else {
            None
        },
        None => None,
    }
}

/// The extension-driven query-tagging policy.
pub enum TagPolicy {
    /// `.css`: compile as a CSS module (append `module`).
    Module,
    /// Source-like extensions: partition caches by import map (append `im=`).
    ImportMapTag,
    /// `.json` and plain `.md`: leave untouched.
    NoTag,
    /// Any other extension: an opaque asset (append `url`).
    UrlTag,
}

pub open spec fn spec_tag_policy(ext: Option<Seq<char>>, fmt_hint: bool) -> TagPolicy {
    match ext {
        None => TagPolicy::NoTag,
        Some(e) => if e == "css"@ {
            TagPolicy::Module
        } else if e == "js"@ || e == "mjs"@ || e == "ts"@ || e == "mts"@ || e == "jsx"@ || e
            == "tsx"@ || e == "vue"@ || e == "svelte"@ {
            TagPolicy::ImportMapTag
        } else if e == "md"@ {
            if fmt_hint {
                TagPolicy::ImportMapTag
            } else {
                TagPolicy::NoTag
            }
        } else if e == "json"@ {
            TagPolicy::NoTag
        } else {
            TagPolicy::UrlTag
        },
    }
}

/// The cache-partition token `im=<base64url(base path)>`, present when an
/// import map with a non-anonymous base path is active.
pub open spec fn spec_im_token(im: Option<ImportMap>) -> Option<Seq<char>> {
    match im {
        Some(m) => if m.spec_base_path() != "/anonymous_import_map.json"@ {
            Some("im="@ + spec_base64_url(m.spec_base_path()))
        } else {
            None
        },
        None => None,
    }
}

/// First value stored under `k` in the version table.
pub open spec fn vt_get(vt: Seq<(Seq<char>, Seq<char>)>, k: Seq<char>) -> Option<Seq<char>>
    decreases vt.len(),
{
    if vt.len() == 0 {
        None
    } else if vt[0].0 == k {
        Some(vt[0].1)
    } else {
        vt_get(vt.drop_first(), k)
    }
}

/// Version negotiation: the resolved absolute path's own entry first, the
/// `*` wildcard otherwise.
pub open spec fn spec_version_lookup(vt: Seq<(Seq<char>, Seq<char>)>, key: Seq<char>) -> Option<
    Seq<char>,
> {
    match vt_get(vt, key) {
        Some(v) => Some(v),
        None => vt_get(vt, "*"@),
    }
}

/// The tokens appended by the extension policy (at most one).
pub open spec fn spec_ext_tokens(
    im: Option<ImportMap>,
    path1: Seq<char>,
    path: Seq<char>,
    hint: Option<Seq<char>>,
    fmt_hint: bool,
    flag_raw_url: bool,
) -> Seq<Seq<char>> {
    let is_filepath = spec_is_relpath_specifier(path1) || spec_is_abspath_specifier(path1);
    if is_filepath && !flag_raw_url {
        match spec_tag_policy(spec_ext(path), fmt_hint) {
            TagPolicy::Module => if hint != Some("css"@) {
                seq!["module"@]
            } else {
                Seq::empty()
            },
            TagPolicy::ImportMapTag => match spec_im_token(im) {
                Some(t) => seq![t],
                None => Seq::empty(),
            },
            TagPolicy::NoTag => Seq::empty(),
            TagPolicy::UrlTag => seq!["url"@],
        }
    } else {
        Seq::empty()
    }
}

/// The `rpc` token, appended for an `rpc` content-type hint unless already
/// present in the raw query.
pub open spec fn spec_rpc_tokens(
    hint: Option<Seq<char>>,
    flag_rpc: bool,
    flag_raw_url: bool,
) -> Seq<Seq<char>> {
    if !flag_raw_url && hint == Some("rpc"@) && !flag_rpc {
        seq!["rpc"@]
    } else {
        Seq::empty()
    }
}

/// The `v=<version>` token; remote specifiers and opaque (raw/url) assets
/// receive no version tag.
pub open spec fn spec_version_tokens(
    vt: Seq<(Seq<char>, Seq<char>)>,
    path1: Seq<char>,
    abs1: Seq<char>,
    flag_raw_url: bool,
) -> Seq<Seq<char>> {
    if !flag_raw_url && !spec_is_http_specifier(path1) {
        match spec_version_lookup(vt, spec_split_query(abs1).0) {
            Some(ver) => seq!["v="@ + ver],
            None => Seq::empty(),
        }
    } else {
        Seq::empty()
    }
}

/// Reassembly: the path, then `?`, then the preserved raw tokens in their
/// original order, then the newly appended tokens; no `?` at all when there
/// is nothing to append.
pub open spec fn spec_assemble(
    path: Seq<char>,
    rawq: Option<Seq<char>>,
    extra: Seq<Seq<char>>,
) -> Seq<char> {
    let raw_tokens = spec_raw_tokens(rawq);
    if rawq is Some || extra.len() > 0 {
        let q1 = match rawq {
            Some(_) => join_char(raw_tokens, '&'),
            None => Seq::empty(),
        };
        let sep: Seq<char> = if rawq is Some && extra.len() > 0 {
            "&"@
        } else {
            Seq::empty()
        };
        path + "?"@ + q1 + sep + join_char(extra, '&')
    } else {
        path
    }
}

/// The whole resolution pipeline: import-map resolution with verbatim
/// fallback, path minimization, query preservation, extension-driven
/// tagging, and version negotiation.
pub open spec fn spec_resolve(
    filename: Seq<char>,
    im: Option<ImportMap>,
    vt: Seq<(Seq<char>, Seq<char>)>,
    specifier: Seq<char>,
    hint: Option<Seq<char>>,
) -> Seq<char> {
    let referrer = spec_referrer(filename);
    let resolved0 = spec_mapped(im, specifier, referrer);
    let (path1, abs1) = spec_minimized(filename, resolved0);
    let (path, rawq) = spec_split_query(path1);
    let raw_tokens = spec_raw_tokens(rawq);
    let flag_raw_url = has_token(raw_tokens, "raw"@) || has_token(raw_tokens, "url"@);
    let fmt_hint = has_token(raw_tokens, "jsx"@) || has_token(raw_tokens, "vue"@) || has_token(
        raw_tokens,
        "svelte"@,
    );
    let flag_rpc = has_token(raw_tokens, "rpc"@);
    let extra = spec_ext_tokens(im, path1, path, hint, fmt_hint, flag_raw_url)
        + spec_rpc_tokens(hint, flag_rpc, flag_raw_url) + spec_version_tokens(
        vt,
        path1,
        abs1,
        flag_raw_url,
    );
    spec_assemble(path, rawq, extra)
}

/// The token sequence an optional token contributes.
pub open spec fn opt_tok(o: Option<String>) -> Seq<Seq<char>> {
    match o {
        Some(t) => seq![t@],
        None => Seq::empty(),
    }
}

// ---------------------------------------------------------------------------
// Executable helpers
// ---------------------------------------------------------------------------

fn dirname(f: &str) -> (r: String)
    ensures
        r@ == spec_dirname(f@),
{
    match str_rfind_char(f, '/') {
        Some(i) => {
            if i == 0 {
                "/".to_owned()
            } else {
                proof {
                    lemma_rfind_char(f@, '/');
                }
                str_substring(f, 0, i)
            }
        }
        None => String::new(),
    }
}

fn file_name_of(p: &str) -> (r: String)
    ensures
        r@ == spec_file_name(p@),
{
    let n = p.unicode_len();
    match str_rfind_char(p, '/') {
        Some(i) => {
            proof {
                lemma_rfind_char(p@, '/');
            }
            str_substring(p, i + 1, n)
        }
        None => p.to_owned(),
    }
}

fn ext_of(p: &str) -> (r: Option<String>)
    ensures
        match r {
            Some(e) => spec_ext(p@) == Some(e@),
            None => spec_ext(p@) is None,
        },
{
    let f = file_name_of(p);
    let n = f.as_str().unicode_len();
    match str_rfind_char(f.as_str(), '.') {
        Some(i) => {
            if i > 0 {
                proof {
                    lemma_rfind_char(f@, '.');
                }
                Some(str_substring(f.as_str(), i + 1, n))
            } else {
                None
            }
        }
        None => None,
    }
}

fn tag_policy(ext: &Option<String>, fmt_hint: bool) -> (r: TagPolicy)
    ensures
        r == spec_tag_policy(ext.deep_view(), fmt_hint),
{
    match ext {
        None => TagPolicy::NoTag,
        Some(e) => {
            let s = e.as_str();
            if str_eq(s, "css") {
                TagPolicy::Module
            } else if str_eq(s, "js") || str_eq(s, "mjs") || str_eq(s, "ts") || str_eq(s, "mts")
                || str_eq(s, "jsx") || str_eq(s, "tsx") || str_eq(s, "vue") || str_eq(
                s,
                "svelte",
            ) {
                TagPolicy::ImportMapTag
            } else if str_eq(s, "md") {
                if fmt_hint {
                    TagPolicy::ImportMapTag
                } else {
                    TagPolicy::NoTag
                }
            } else if str_eq(s, "json") {
                TagPolicy::NoTag
            } else {
                TagPolicy::UrlTag
            }
        }
    }
}

#[verifier::loop_isolation(false)]
fn vt_get_exec(vt: &Vec<(String, String)>, key: &str) -> (r: Option<String>)
    ensures
        match r {
            Some(v) => vt_get(vt.deep_view(), key@) == Some(v@),
            None => vt_get(vt.deep_view(), key@) is None,
        },
{
    let ghost vv = vt.deep_view();
    let n = vt.len();
    proof {
        assert(vv.len() == vt@.len());
        assert(vv.subrange(0, n as int) =~= vv);
    }
    let mut i: usize = 0;
    while i < n
        invariant
            0 <= i <= n,
            vt_get(vv, key@) == vt_get(vv.subrange(i as int, n as int), key@),
        decreases n - i,
    {
        let ghost sub = vv.subrange(i as int, n as int);
        proof {
            assert(sub[0] == vv[i as int]);
            assert(vv[i as int] == vt@[i as int].deep_view());
        }
        if str_eq(vt[i].0.as_str(), key) {
            return Some(vt[i].1.clone());
        }
        proof {
            assert(sub.drop_first() =~= vv.subrange(i + 1, n as int));
        }
        i = i + 1;
    }
    proof {
        assert(vv.subrange(n as int, n as int) =~= Seq::<(Seq<char>, Seq<char>)>::empty());
    }
    None
}

fn version_lookup(vt: &Vec<(String, String)>, key: &str) -> (r: Option<String>)
    ensures
        match r {
            Some(v) => spec_version_lookup(vt.deep_view(), key@) == Some(v@),
            None => spec_version_lookup(vt.deep_view(), key@) is None,
        },
{
    match vt_get_exec(vt, key) {
        Some(v) => Some(v),
        None => vt_get_exec(vt, "*"),
    }
}


/// Import-map resolution with verbatim fallback.
fn resolve_through_map(im: &Option<ImportMap>, specifier: &str, referrer: &str) -> (r: String)
    ensures
        r@ == spec_mapped(*im, specifier@, referrer@),
{
    match im {
        Some(m) => match m.resolve(specifier, referrer) {
            Ok(u) => u,
            Err(_) => specifier.to_owned(),
        },
        None => specifier.to_owned(),
    }
}

/// Convert a file-scheme result into the shorter of its relative and
/// absolute path forms; return the display form and the absolute form.
fn minimize_path(filename: &str, resolved0: &str) -> (r: (String, String))
    ensures
        (r.0@, r.1@) == spec_minimized(filename@, resolved0@),
{
    if str_starts_with(resolved0, "file://") {
        proof {
            reveal_strlit("file://");
        }
        let pathname = str_substring(resolved0, 7, resolved0.unicode_len());
        if !is_http_specifier(filename) {
            let dir = dirname(filename);
            match diff_path(pathname.as_str(), dir.as_str()) {
                Some(rel0) => {
                    let rel: String = if !is_relpath_specifier(rel0.as_str()) {
                        str_concat("./", rel0.as_str())
                    } else {
                        rel0
                    };
                    if rel.as_str().unicode_len() <= pathname.as_str().unicode_len() {
                        (rel, pathname)
                    } else {
                        (pathname.clone(), pathname)
                    }
                }
                None => (pathname.clone(), pathname),
            }
        } else {
            (pathname.clone(), pathname)
        }
    } else {
        (resolved0.to_owned(), resolved0.to_owned())
    }
}

/// Split a path from its query string at the first `?`.
fn split_query(p: &str) -> (r: (String, Option<String>))
    ensures
        r.0@ == spec_split_query(p@).0,
        match r.1 {
            Some(q) => spec_split_query(p@).1 == Some(q@),
            None => spec_split_query(p@).1 is None,
        },
{
    let n = p.unicode_len();
    match str_find_char(p, '?') {
        Some(i) => {
            proof {
                lemma_find_char(p@, '?');
            }
            (str_substring(p, 0, i), Some(str_substring(p, i + 1, n)))
        }
        None => (p.to_owned(), None),
    }
}

/// Scan the preserved raw tokens for the flags the tagging rules read:
/// raw/url (bypass), jsx/vue/svelte (markdown format hint), rpc.
#[verifier::loop_isolation(false)]
fn scan_flags(raw_tokens: &Vec<String>) -> (r: (bool, bool, bool))
    ensures
        ({
            let tv = raw_tokens.deep_view();
            r.0 == (has_token(tv, "raw"@) || has_token(tv, "url"@)) && r.1 == (has_token(
                tv,
                "jsx"@,
            ) || has_token(tv, "vue"@) || has_token(tv, "svelte"@)) && r.2 == has_token(
                tv,
                "rpc"@,
            )
        }),
{
    let ghost rtv = raw_tokens.deep_view();
    let mut flag_raw_url = false;
    let mut flag_fmt = false;
    let mut flag_rpc = false;
    let tn = raw_tokens.len();
    let mut ti: usize = 0;
    proof {
        assert(rtv.len() == raw_tokens@.len());
        assert(rtv.take(0) =~= Seq::<Seq<char>>::empty());
    }
    while ti < tn
        invariant
            0 <= ti <= tn,
            flag_raw_url == (has_token(rtv.take(ti as int), "raw"@) || has_token(
                rtv.take(ti as int),
                "url"@,
            )),
            flag_fmt == (has_token(rtv.take(ti as int), "jsx"@) || has_token(
                rtv.take(ti as int),
                "vue"@,
            ) || has_token(rtv.take(ti as int), "svelte"@)),
            flag_rpc == has_token(rtv.take(ti as int), "rpc"@),
        decreases tn - ti,
    {
        let ghost done = rtv.take(ti as int);
        let ghost cur = rtv[ti as int];
        proof {
            assert(rtv[ti as int] == raw_tokens@[ti as int].deep_view());
            assert(rtv.take(ti + 1) =~= done.push(cur));
            lemma_has_token_push(done, cur, "raw"@);
            lemma_has_token_push(done, cur, "url"@);
            lemma_has_token_push(done, cur, "jsx"@);
            lemma_has_token_push(done, cur, "vue"@);
            lemma_has_token_push(done, cur, "svelte"@);
            lemma_has_token_push(done, cur, "rpc"@);
        }
        let t = raw_tokens[ti].as_str();
        if str_eq(t, "raw") || str_eq(t, "url") {
            flag_raw_url = true;
        }
        if str_eq(t, "jsx") || str_eq(t, "vue") || str_eq(t, "svelte") {
            flag_fmt = true;
        }
        if str_eq(t, "rpc") {
            flag_rpc = true;
        }
        ti = ti + 1;
    }
    proof {
        assert(rtv.take(tn as int) =~= rtv);
    }
    (flag_raw_url, flag_fmt, flag_rpc)
}

/// The extension-policy token, if any.
fn ext_token(
    im: &Option<ImportMap>,
    path1: &str,
    path: &str,
    hint: &Option<String>,
    fmt_hint: bool,
    flag_raw_url: bool,
) -> (r: Option<String>)
    ensures
        spec_ext_tokens(*im, path1@, path@, hint.deep_view(), fmt_hint, flag_raw_url) == opt_tok(
            r,
        ),
{
    let is_fp = is_relpath_specifier(path1) || is_abspath_specifier(path1);
    let mut opt_ext: Option<String> = None;
    if is_fp && !flag_raw_url {
        let ext = ext_of(path);
        match tag_policy(&ext, fmt_hint) {
            TagPolicy::Module => {
                let hint_is_css = match hint {
                    Some(t) => str_eq(t.as_str(), "css"),
                    None => false,
                };
                if !hint_is_css {
                    opt_ext = Some("module".to_owned());
                }
            }
            TagPolicy::ImportMapTag => {
                match im {
                    Some(m) => {
                        let bp = m.base_path();
                        if !str_eq(bp.as_str(), "/anonymous_import_map.json") {
                            opt_ext = Some(str_concat("im=", base64_url(bp.as_str()).as_str()));
                        }
                    }
                    None => {}
                }
            }
            TagPolicy::NoTag => {}
            TagPolicy::UrlTag => {
                opt_ext = Some("url".to_owned());
            }
        }
    }
    proof {
        assert(hint.deep_view() == match hint {
            Some(t) => Some(t@),
            None => None::<Seq<char>>,
        });
        assert(spec_ext_tokens(*im, path1@, path@, hint.deep_view(), fmt_hint, flag_raw_url)
            =~= opt_tok(opt_ext));
    }
    opt_ext
}

/// The version token, if any.
fn version_token(vt: &Vec<(String, String)>, path1: &str, abs1: &str, flag_raw_url: bool) -> (r:
    Option<String>)
    ensures
        spec_version_tokens(vt.deep_view(), path1@, abs1@, flag_raw_url) == opt_tok(r),
{
    let mut opt_v: Option<String> = None;
    if !flag_raw_url && !is_http_specifier(path1) {
        let vkey: String = match str_find_char(abs1, '?') {
            Some(i) => {
                proof {
                    lemma_find_char(abs1@, '?');
                }
                str_substring(abs1, 0, i)
            }
            None => abs1.to_owned(),
        };
        proof {
            assert(vkey@ == spec_split_query(abs1@).0);
        }
        match version_lookup(vt, vkey.as_str()) {
            Some(ver) => {
                opt_v = Some(str_concat("v=", ver.as_str()));
            }
            None => {}
        }
    }
    proof {
        assert(spec_version_tokens(vt.deep_view(), path1@, abs1@, flag_raw_url) =~= opt_tok(
            opt_v,
        ));
    }
    opt_v
}

/// Reassemble the final URL from the path, the preserved raw tokens and
/// the newly appended tokens.
fn assemble(
    path: String,
    rawq: Option<String>,
    raw_tokens: &Vec<String>,
    e1: Option<String>,
    e2: Option<String>,
    e3: Option<String>,
) -> (r: String)
    requires
        raw_tokens.deep_view() == spec_raw_tokens(
            match rawq {
                Some(q) => Some(q@),
                None => None::<Seq<char>>,
            },
        ),
    ensures
        r@ == spec_assemble(
            path@,
            match rawq {
                Some(q) => Some(q@),
                None => None::<Seq<char>>,
            },
            opt_tok(e1) + opt_tok(e2) + opt_tok(e3),
        ),
{
    let ghost pathv = path@;
    let ghost rtv = raw_tokens.deep_view();
    let ghost extra = opt_tok(e1) + opt_tok(e2) + opt_tok(e3);
    let any_extra = e1.is_some() || e2.is_some() || e3.is_some();
    let raw_present = rawq.is_some();
    let mut out = path;
    if raw_present || any_extra {
        proof {
            reveal_strlit("?");
            reveal_strlit("&");
        }
        push_char(&mut out, '?');
        if raw_present {
            let q1 = str_join_char(raw_tokens, '&');
            out.append(q1.as_str());
        }
        if raw_present && any_extra {
            push_char(&mut out, '&');
        }
        let mut extras: Vec<String> = Vec::new();
        proof {
            assert(extras.deep_view() =~= Seq::<Seq<char>>::empty());
        }
        match e1 {
            Some(t) => {
                let ghost before = extras.deep_view();
                let ghost tv = t@;
                extras.push(t);
                proof {
                    assert(extras.deep_view() =~= before.push(tv));
                }
            }
            None => {}
        }
        match e2 {
            Some(t) => {
                let ghost before = extras.deep_view();
                let ghost tv = t@;
                extras.push(t);
                proof {
                    assert(extras.deep_view() =~= before.push(tv));
                }
            }
            None => {}
        }
        match e3 {
            Some(t) => {
                let ghost before = extras.deep_view();
                let ghost tv = t@;
                extras.push(t);
                proof {
                    assert(extras.deep_view() =~= before.push(tv));
                }
            }
            None => {}
        }
        proof {
            assert(extras.deep_view() =~= extra);
        }
        let q2 = str_join_char(&extras, '&');
        out.append(q2.as_str());
        proof {
            let q1v: Seq<char> = if raw_present {
                join_char(rtv, '&')
            } else {
                Seq::empty()
            };
            let sepv: Seq<char> = if raw_present && extra.len() > 0 {
                "&"@
            } else {
                Seq::empty()
            };
            assert(extra.len() > 0 <==> any_extra);
            assert(out@ =~= pathv + "?"@ + q1v + sepv + join_char(extra, '&'));
        }
    }
    out
}

// ---------------------------------------------------------------------------
// The resolver
// ---------------------------------------------------------------------------

/// Per-module resolution state: the module's own specifier, the shared
/// import map, the version table, and the append-only dependency list in
/// source order.
#[derive(Debug, Clone)]
pub struct Resolver {
    /// the module's own specifier (its address or logical path)
    pub filename: String,
    /// the ordered dependencies of the module
    pub deps: Vec<DependencyDescriptor>,
    /// the import map
    pub import_map: Option<ImportMap>,
    /// per-path version overrides, with an optional `"*"` wildcard entry
    pub version_table: Vec<(String, String)>,
}

impl Resolver {
    /// Create a new Resolver with no dependencies and an empty version table.
    pub fn new(specifier: &str, import_map: Option<ImportMap>) -> (r: Resolver)
        ensures
            r.filename@ == specifier@,
            r.deps@ == Seq::<DependencyDescriptor>::empty(),
            r.import_map == import_map,
            r.version_table@ == Seq::<(String, String)>::empty(),
    {
        Resolver {
            filename: specifier.to_owned(),
            deps: Vec::new(),
            import_map,
            version_table: Vec::new(),
        }
    }

    /// Resolve one raw specifier to its final URL string, and record the
    /// dependency.  The result is a pure function of the module's own
    /// specifier, the import map, the version table, the raw specifier and
    /// the content-type hint — the dependency list already recorded has no
    /// influence on it.
    #[verifier::loop_isolation(false)]
    #[verifier::rlimit(100)]
    pub fn resolve(
        &mut self,
        specifier: &str,
        dynamic: bool,
        location: Option<Span>,
        content_type_hint: Option<String>,
    ) -> (r: String)
        ensures
            r@ == spec_resolve(
                old(self).filename@,
                old(self).import_map,
                old(self).version_table.deep_view(),
                specifier@,
                content_type_hint.deep_view(),
            ),
            final(self).filename == old(self).filename,
            final(self).import_map == old(self).import_map,
            final(self).version_table == old(self).version_table,
            final(self).deps.deep_view() == old(self).deps.deep_view().push(
                DepView {
                    specifier: specifier@,
                    resolved_url: r@,
                    source_location: location,
                    dynamic: dynamic,
                },
            ),
    {
        let ghost fname = self.filename@;
        let ghost img = self.import_map;
        let ghost vtv = self.version_table.deep_view();
        let ghost hintv = content_type_hint.deep_view();
        proof {
            assert(hintv == match content_type_hint {
                Some(ref t) => Some(t@),
                None => None::<Seq<char>>,
            });
        }

        // 1. the referrer URL
        let referrer: String = if is_http_specifier(self.filename.as_str()) {
            self.filename.clone()
        } else {
            str_concat("file://", self.filename.as_str())
        };
        proof {
            assert(referrer@ == spec_referrer(fname));
        }

        // 2. import-map resolution, falling back to the raw specifier
        let resolved0 = resolve_through_map(&self.import_map, specifier, referrer.as_str());

        // 3. minimize file-scheme results against the module's directory
        let pair = minimize_path(self.filename.as_str(), resolved0.as_str());
        let path1 = pair.0;
        let abs1 = pair.1;

        // 4. split off the raw query, preserving its tokens
        let qs = split_query(path1.as_str());
        let path = qs.0;
        let rawq = qs.1;
        let raw_tokens: Vec<String> = match &rawq {
            Some(q) => str_split_char(q.as_str(), '&'),
            None => Vec::new(),
        };
        proof {
            if rawq is None {
                assert(raw_tokens.deep_view() =~= Seq::<Seq<char>>::empty());
            }
        }

        // 5. the flags carried by the preserved tokens
        let flags = scan_flags(&raw_tokens);
        let flag_raw_url = flags.0;
        let fmt_hint = flags.1;
        let flag_rpc = flags.2;

        // 6. extension-driven tagging
        let e1 = ext_token(
            &self.import_map,
            path1.as_str(),
            path.as_str(),
            &content_type_hint,
            fmt_hint,
            flag_raw_url,
        );

        // the rpc hint, unless already satisfied by a raw token
        let hint_is_rpc = match &content_type_hint {
            Some(t) => str_eq(t.as_str(), "rpc"),
            None => false,
        };
        let e2: Option<String> = if !flag_raw_url && hint_is_rpc && !flag_rpc {
            Some("rpc".to_owned())
        } else {
            None
        };
        proof {
            assert(spec_rpc_tokens(hintv, flag_rpc, flag_raw_url) =~= opt_tok(e2));
        }

        // 7. version negotiation, skipped for remote specifiers
        let e3 = version_token(&self.version_table, path1.as_str(), abs1.as_str(), flag_raw_url);

        // 8. reassemble
        let out = assemble(path, rawq, &raw_tokens, e1, e2, e3);
        proof {
            assert(out@ == spec_resolve(fname, img, vtv, specifier@, hintv));
        }

        // 9. record the dependency, in call order
        let dd = DependencyDescriptor {
            specifier: specifier.to_owned(),
            resolved_url: out.clone(),
            source_location: location,
            dynamic,
        };
        let ghost ddv = dd@;
        let ghost deps_before = self.deps.deep_view();
        self.deps.push(dd);
        proof {
            assert forall|x: int| 0 <= x < self.deps.deep_view().len() implies self
                .deps.deep_view()[x] == deps_before.push(ddv)[x] by {
                assert(self.deps.deep_view()[x] == self.deps@[x].deep_view());
                if x < deps_before.len() {
                    assert(old(self).deps.deep_view()[x] == old(self).deps@[x].deep_view());
                }
            }
            assert(self.deps.deep_view() =~= deps_before.push(ddv));
        }
        out
    }
}

/// The parts of a resolver that determine its resolution results: the
/// module's own specifier, the import map, and the version table.  The
/// dependency list is deliberately absent: recorded dependencies never
/// influence later resolutions.
pub struct WalkCfg {
    pub filename: Seq<char>,
    pub import_map: Option<ImportMap>,
    pub version_table: Seq<(Seq<char>, Seq<char>)>,
}

pub open spec fn cfg_of(r: Resolver) -> WalkCfg {
    WalkCfg {
        filename: r.filename@,
        import_map: r.import_map,
        version_table: r.version_table.deep_view(),
    }
}

pub open spec fn cfg_resolve(c: WalkCfg, specifier: Seq<char>, hint: Option<Seq<char>>) -> Seq<
    char,
> {
    spec_resolve(c.filename, c.import_map, c.version_table, specifier, hint)
}

// ---------------------------------------------------------------------------
// Laws of the resolver
// ---------------------------------------------------------------------------

/// Resolution is a pure function of the module's own specifier, the import
/// map and the version table: resolving the same specifier twice from the
/// same referrer yields an identical string both times, whatever
/// dependencies were recorded in between.
pub proof fn lemma_resolve_deterministic(
    r1: Resolver,
    r2: Resolver,
    specifier: Seq<char>,
    hint: Option<Seq<char>>,
)
    requires
        r1.filename@ == r2.filename@,
        r1.import_map == r2.import_map,
        r1.version_table.deep_view() == r2.version_table.deep_view(),
    ensures
        spec_resolve(r1.filename@, r1.import_map, r1.version_table.deep_view(), specifier, hint)
            == spec_resolve(
            r2.filename@,
            r2.import_map,
            r2.version_table.deep_view(),
            specifier,
            hint,
        ),
{
}

/// Version tagging is deterministic, and an exact path entry always beats
/// the `*` wildcard.
pub proof fn lemma_version_exact_over_wildcard(vt: Seq<(Seq<char>, Seq<char>)>, key: Seq<char>)
    requires
        vt_get(vt, key) is Some,
    ensures
        spec_version_lookup(vt, key) == vt_get(vt, key),
{
}

/// CSS tagging: a resolved file path with extension `css`, no raw/url
/// bypass in its query, and no `css` content-type hint always gains the
/// `module` token.
pub proof fn lemma_css_gets_module(
    im: Option<ImportMap>,
    path1: Seq<char>,
    path: Seq<char>,
    hint: Option<Seq<char>>,
    fmt_hint: bool,
)
    requires
        spec_is_relpath_specifier(path1) || spec_is_abspath_specifier(path1),
        spec_ext(path) == Some("css"@),
        hint != Some("css"@),
    ensures
        spec_ext_tokens(im, path1, path, hint, fmt_hint, false) == seq!["module"@],
{
}

/// A remote specifier has none of the path shapes the pipeline treats
/// specially.
proof fn lemma_http_shape(s: Seq<char>)
    requires
        spec_is_http_specifier(s),
    ensures
        !starts_with(s, "file://"@),
        !spec_is_relpath_specifier(s),
        !spec_is_abspath_specifier(s),
{
    reveal_strlit("https://");
    reveal_strlit("http://");
    reveal_strlit("file://");
    reveal_strlit("./");
    reveal_strlit("../");
    reveal_strlit("/");
    if starts_with(s, "https://"@) {
        assert(s.subrange(0, "https://"@.len() as int)[0] == s[0]);
    } else {
        assert(s.subrange(0, "http://"@.len() as int)[0] == s[0]);
    }
    assert(s[0] == 'h');
    if starts_with(s, "file://"@) {
        assert(s.subrange(0, "file://"@.len() as int)[0] == s[0]);
    }
    if starts_with(s, "./"@) {
        assert(s.subrange(0, "./"@.len() as int)[0] == s[0]);
    }
    if starts_with(s, "../"@) {
        assert(s.subrange(0, "../"@.len() as int)[0] == s[0]);
    }
    if starts_with(s, "/"@) {
        assert(s.subrange(0, "/"@.len() as int)[0] == s[0]);
    }
}

/// Remote passthrough: with no import map, a fully-qualified http(s)
/// specifier comes back unchanged — its query tokens are preserved
/// verbatim — and it receives no version tag and no extension tag.  (An
/// `rpc` content-type hint is the one decoration that would still apply,
/// so it is excluded here.)
pub proof fn lemma_remote_passthrough(
    filename: Seq<char>,
    vt: Seq<(Seq<char>, Seq<char>)>,
    specifier: Seq<char>,
    hint: Option<Seq<char>>,
)
    requires
        spec_is_http_specifier(specifier),
        hint != Some("rpc"@),
    ensures
        spec_resolve(filename, None, vt, specifier, hint) == specifier,
{
    lemma_http_shape(specifier);
    let referrer = spec_referrer(filename);
    assert(spec_mapped(None, specifier, referrer) == specifier);
    assert(spec_minimized(filename, specifier) == (specifier, specifier));
    let (path, rawq) = spec_split_query(specifier);
    lemma_find_char(specifier, '?');
    match find_char(specifier, '?') {
        None => {
            assert(rawq is None);
            assert(spec_ext_tokens(None, specifier, path, hint, false, false)
                =~= Seq::<Seq<char>>::empty());
            assert(spec_rpc_tokens(
                hint,
                has_token(spec_raw_tokens(rawq), "rpc"@),
                has_token(spec_raw_tokens(rawq), "raw"@) || has_token(
                    spec_raw_tokens(rawq),
                    "url"@,
                ),
            ) =~= Seq::<Seq<char>>::empty());
            assert(spec_version_tokens(
                vt,
                specifier,
                specifier,
                has_token(spec_raw_tokens(rawq), "raw"@) || has_token(
                    spec_raw_tokens(rawq),
                    "url"@,
                ),
            ) =~= Seq::<Seq<char>>::empty());
        }
        Some(i) => {
            assert(rawq == Some(specifier.skip(i + 1)));
            let q = specifier.skip(i + 1);
            let raw_tokens = split_char(q, '&');
            let flag_raw_url = has_token(raw_tokens, "raw"@) || has_token(raw_tokens, "url"@);
            let fmt_hint = has_token(raw_tokens, "jsx"@) || has_token(raw_tokens, "vue"@)
                || has_token(raw_tokens, "svelte"@);
            assert(spec_ext_tokens(None, specifier, path, hint, fmt_hint, flag_raw_url)
                =~= Seq::<Seq<char>>::empty());
            assert(spec_rpc_tokens(hint, has_token(raw_tokens, "rpc"@), flag_raw_url)
                =~= Seq::<Seq<char>>::empty());
            assert(spec_version_tokens(vt, specifier, specifier, flag_raw_url)
                =~= Seq::<Seq<char>>::empty());
            // reassembly restores the split: path + "?" + joined tokens
            lemma_join_split_char(q, '&');
            reveal_strlit("?");
            assert(specifier[i] == '?');
            assert(join_char(Seq::<Seq<char>>::empty(), '&') =~= Seq::<char>::empty());
            assert(spec_assemble(path, rawq, Seq::empty()) =~= path + "?"@ + q);
            assert(path + "?"@ + q =~= specifier);
        }
    }
}

pub proof fn lemma_has_token_push(ts: Seq<Seq<char>>, x: Seq<char>, t: Seq<char>)
    ensures
        has_token(ts.push(x), t) <==> (has_token(ts, t) || x == t),
{
    let r = ts.push(x);
    if has_token(r, t) {
        let i = choose|i: int| 0 <= i < r.len() && #[trigger] r[i] == t;
        if i < ts.len() {
            assert(ts[i] == t);
        }
    }
    if has_token(ts, t) {
        let i = choose|i: int| 0 <= i < ts.len() && #[trigger] ts[i] == t;
        assert(r[i] == t);
    }
    if x == t {
        assert(r[ts.len() as int] == t);
    }
}

} // verus!
