//! Emit-side decisions that feed the boundary: syntax selection from a
//! module's file name, the JSX runtime lookup through the import map, and
//! the plain data the code generator is configured with.

use vstd::prelude::*;

verus! {

use crate::import_map::ImportMap;
use crate::specifier::{is_http_specifier, spec_is_http_specifier};
use crate::strutil::{
    find_char,
    lemma_find_char,
    lemma_rfind_char,
    push_char,
    rfind_char,
    str_concat,
    str_eq,
    str_rfind_char,
    str_substring,
};
use vstd::string::*;

/// A failure while emitting code, carried as plain text.
#[derive(Debug)]
pub struct EmitError {
    pub message: String,
}

/// Marker configuration for source-map generation; the boundary implements
/// the generator's callbacks for it (real file names become sources, and
/// only real files inline their content).
pub struct SourceMapGenOptions {}

/// Which grammar a module is parsed with.
#[derive(Debug, Clone, Copy, PartialEq, Eq, Structural)]
pub enum SyntaxKind {
    Es { jsx: bool },
    Ts { tsx: bool },
}

/// ASCII lowercasing of one character; extensions are ASCII.
pub open spec fn spec_lower_char(c: char) -> char {
    if c == 'A' {
        'a'
    } else if c == 'B' {
        'b'
    } else if c == 'C' {
        'c'
    } else if c == 'D' {
        'd'
    } else if c == 'E' {
        'e'
    } else if c == 'F' {
        'f'
    } else if c == 'G' {
        'g'
    } else if c == 'H' {
        'h'
    } else if c == 'I' {
        'i'
    } else if c == 'J' {
        'j'
    } else if c == 'K' {
        'k'
    } else if c == 'L' {
        'l'
    } else if c == 'M' {
        'm'
    } else if c == 'N' {
        'n'
    } else if c == 'O' {
        'o'
    } else if c == 'P' {
        'p'
    } else if c == 'Q' {
        'q'
    } else if c == 'R' {
        'r'
    } else if c == 'S' {
        's'
    } else if c == 'T' {
        't'
    } else if c == 'U' {
        'u'
    } else if c == 'V' {
        'v'
    } else if c == 'W' {
        'w'
    } else if c == 'X' {
        'x'
    } else if c == 'Y' {
        'y'
    } else if c == 'Z' {
        'z'
    } else {
        c
    }
}

fn lower_char(c: char) -> (r: char)
    ensures
        r == spec_lower_char(c),
{
    if c == 'A' {
        'a'
    } else if c == 'B' {
        'b'
    } else if c == 'C' {
        'c'
    } else if c == 'D' {
        'd'
    } else if c == 'E' {
        'e'
    } else if c == 'F' {
        'f'
    } else if c == 'G' {
        'g'
    } else if c == 'H' {
        'h'
    } else if c == 'I' {
        'i'
    } else if c == 'J' {
        'j'
    } else if c == 'K' {
        'k'
    } else if c == 'L' {
        'l'
    } else if c == 'M' {
        'm'
    } else if c == 'N' {
        'n'
    } else if c == 'O' {
        'o'
    } else if c == 'P' {
        'p'
    } else if c == 'Q' {
        'q'
    } else if c == 'R' {
        'r'
    } else if c == 'S' {
        's'
    } else if c == 'T' {
        't'
    } else if c == 'U' {
        'u'
    } else if c == 'V' {
        'v'
    } else if c == 'W' {
        'w'
    } else if c == 'X' {
        'x'
    } else if c == 'Y' {
        'y'
    } else if c == 'Z' {
        'z'
    } else {
        c
    }
}

pub open spec fn spec_lower(s: Seq<char>) -> Seq<char> {
    s.map_values(|c: char| spec_lower_char(c))
}

fn lower_ascii(s: &str) -> (r: String)
    ensures
        r@ == spec_lower(s@),
{
    let n = s.unicode_len();
    let mut out = String::new();
    let mut i: usize = 0;
    while i < n
        invariant
            0 <= i <= n,
            n == s@.len(),
            out@ == spec_lower(s@.subrange(0, i as int)),
        decreases n - i,
    {
        let c = lower_char(s.get_char(i));
        push_char(&mut out, c);
        proof {
            assert(spec_lower(s@.subrange(0, i + 1)) =~= spec_lower(
                s@.subrange(0, i as int),
            ).push(spec_lower_char(s@[i as int])));
        }
        i = i + 1;
    }
    proof {
        assert(s@.subrange(0, n as int) =~= s@);
    }
    out
}

/// Index of the first `?` or `#` in the file name, where its query begins.
pub open spec fn spec_qf_cut(s: Seq<char>) -> int {
    let q = find_char(s, '?');
    let h = find_char(s, '#');
    match (q, h) {
        (Some(i), Some(j)) => if i <= j {
            i
        } else {
            j
        },
        (Some(i), None) => i,
        (None, Some(j)) => j,
        (None, None) => s.len() as int,
    }
}

/// The language implied by a file name: the lowercased extension of the
/// part before any query or fragment, `js` when there is no extension.
pub open spec fn spec_lang_of_filename(filename: Seq<char>) -> Seq<char> {
    let base = filename.take(spec_qf_cut(filename));
    let ext = match rfind_char(base, '.') {
        Some(i) => base.skip(i + 1),
        None => base,
    };
    spec_lower(ext)
}

/// The grammar for a language name: TypeScript and JSX variants by their
/// usual extensions, plain script for everything else.
pub open spec fn spec_syntax_of_lang(lang: Seq<char>) -> SyntaxKind {
    if lang == "js"@ || lang == "mjs"@ {
        SyntaxKind::Es { jsx: false }
    } else if lang == "jsx"@ {
        SyntaxKind::Es { jsx: true }
    } else if lang == "ts"@ || lang == "mts"@ {
        SyntaxKind::Ts { tsx: false }
    } else if lang == "tsx"@ {
        SyntaxKind::Ts { tsx: true }
    } else {
        SyntaxKind::Es { jsx: false }
    }
}

pub open spec fn spec_get_syntax(filename: Seq<char>, lang: Option<Seq<char>>) -> SyntaxKind {
    match lang {
        Some(l) => spec_syntax_of_lang(l),
        None => spec_syntax_of_lang(spec_lang_of_filename(filename)),
    }
}

fn qf_cut(s: &str) -> (r: usize)
    ensures
        r as int == spec_qf_cut(s@),
        r <= s@.len(),
{
    let n = s.unicode_len();
    let mut i: usize = 0;
    while i < n
        invariant
            0 <= i <= n,
            n == s@.len(),
            forall|j: int| 0 <= j < i ==> s@[j] != '?' && s@[j] != '#',
        decreases n - i,
    {
        let c = s.get_char(i);
        if c == '?' || c == '#' {
            proof {
                lemma_find_char(s@, '?');
                lemma_find_char(s@, '#');
                if c == '?' {
                    assert(find_char(s@, '?') == Some(i as int)) by {
                        match find_char(s@, '?') {
                            Some(k) => {
                                if k < i {
                                    assert(s@[k] != '?');
                                } else if k > i {
                                    assert(s@[i as int] == '?');
                                }
                            }
                            None => {
                                assert(s@[i as int] == '?');
                            }
                        }
                    }
                } else {
                    assert(find_char(s@, '#') == Some(i as int)) by {
                        match find_char(s@, '#') {
                            Some(k) => {
                                if k < i {
                                    assert(s@[k] != '#');
                                } else if k > i {
                                    assert(s@[i as int] == '#');
                                }
                            }
                            None => {
                                assert(s@[i as int] == '#');
                            }
                        }
                    }
                }
            }
            return i;
        }
        i = i + 1;
    }
    proof {
        lemma_find_char(s@, '?');
        lemma_find_char(s@, '#');
    }
    n
}

/// Choose the grammar for a module from its file name and an optional
/// explicit language override.
pub fn get_syntax(filename: &str, lang: Option<String>) -> (r: SyntaxKind)
    ensures
        r == spec_get_syntax(filename@, match lang {
            Some(l) => Some(l@),
            None => None::<Seq<char>>,
        }),
{
    let l: String = match lang {
        Some(l) => l,
        None => {
            let cut = qf_cut(filename);
            let base = str_substring(filename, 0, cut);
            let bn = base.as_str().unicode_len();
            let ext: String = match str_rfind_char(base.as_str(), '.') {
                Some(i) => {
                    proof {
                        lemma_rfind_char(base@, '.');
                    }
                    str_substring(base.as_str(), i + 1, bn)
                }
                None => base,
            };
            lower_ascii(ext.as_str())
        }
    };
    let s = l.as_str();
    if str_eq(s, "js") || str_eq(s, "mjs") {
        SyntaxKind::Es { jsx: false }
    } else if str_eq(s, "jsx") {
        SyntaxKind::Es { jsx: true }
    } else if str_eq(s, "ts") || str_eq(s, "mts") {
        SyntaxKind::Ts { tsx: false }
    } else if str_eq(s, "tsx") {
        SyntaxKind::Ts { tsx: true }
    } else {
        SyntaxKind::Es { jsx: false }
    }
}

/// Leading `.` characters dropped, as for a logical path like `./app.tsx`.
pub open spec fn spec_trim_leading_dots(s: Seq<char>) -> Seq<char>
    decreases s.len(),
{
    if s.len() > 0 && s[0] == '.' {
        spec_trim_leading_dots(s.drop_first())
    } else {
        s
    }
}

fn trim_leading_dots(s: &str) -> (r: String)
    ensures
        r@ == spec_trim_leading_dots(s@),
{
    let n = s.unicode_len();
    let mut i: usize = 0;
    proof {
        assert(s@.subrange(0, n as int) =~= s@);
    }
    while i < n
        invariant
            0 <= i <= n,
            n == s@.len(),
            spec_trim_leading_dots(s@) == spec_trim_leading_dots(s@.subrange(i as int, n as int)),
            forall|j: int| 0 <= j < i ==> s@[j] == '.',
        decreases n - i,
    {
        let ghost sub = s@.subrange(i as int, n as int);
        if s.get_char(i) != '.' {
            proof {
                assert(sub[0] == s@[i as int]);
            }
            return str_substring(s, i, n);
        }
        proof {
            assert(sub[0] == s@[i as int]);
            assert(sub.drop_first() =~= s@.subrange(i + 1, n as int));
        }
        i = i + 1;
    }
    proof {
        assert(s@.subrange(n as int, n as int) =~= Seq::<char>::empty());
        assert(spec_trim_leading_dots(s@) =~= Seq::<char>::empty());
    }
    String::new()
}

/// The referrer used when probing the import map for a JSX runtime.
pub open spec fn spec_jsx_referrer(filename: Seq<char>) -> Seq<char> {
    if spec_is_http_specifier(filename) {
        filename
    } else {
        "file://"@ + spec_trim_leading_dots(filename)
    }
}

/// The JSX import source an import map provides: the first of
/// `@jsxRuntime`, `preact` and `react` that resolves.
pub open spec fn spec_jsx_import_source(im: ImportMap, filename: Seq<char>) -> Option<Seq<char>> {
    let referrer = spec_jsx_referrer(filename);
    match crate::import_map::spec_im_resolve(
        im.spec_imports(),
        im.spec_scopes(),
        "@jsxRuntime"@,
        referrer,
    ) {
        Ok(u) => Some(u),
        Err(_) => match crate::import_map::spec_im_resolve(
            im.spec_imports(),
            im.spec_scopes(),
            "preact"@,
            referrer,
        ) {
            Ok(u) => Some(u),
            Err(_) => match crate::import_map::spec_im_resolve(
                im.spec_imports(),
                im.spec_scopes(),
                "react"@,
                referrer,
            ) {
                Ok(u) => Some(u),
                Err(_) => None,
            },
        },
    }
}

/// Probe the import map for the JSX runtime's import source.
pub fn resolve_jsx_import_source(im: &ImportMap, filename: &str) -> (r: Option<String>)
    ensures
        match r {
            Some(u) => spec_jsx_import_source(*im, filename@) == Some(u@),
            None => spec_jsx_import_source(*im, filename@) is None,
        },
{
    let referrer: String = if is_http_specifier(filename) {
        filename.to_owned()
    } else {
        let trimmed = trim_leading_dots(filename);
        str_concat("file://", trimmed.as_str())
    };
    match im.resolve("@jsxRuntime", referrer.as_str()) {
        Ok(u) => Some(u),
        Err(_) => match im.resolve("preact", referrer.as_str()) {
            Ok(u) => Some(u),
            Err(_) => match im.resolve("react", referrer.as_str()) {
                Ok(u) => Some(u),
                Err(_) => None,
            },
        },
    }
}

} // verus!
