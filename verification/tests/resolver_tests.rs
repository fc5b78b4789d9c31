//! The per-module resolver: minimization, query tagging, version
//! negotiation, and the dependency list.

use esm_resolver::import_map::parse_from_value;
use esm_resolver::json::JsonValue;
use esm_resolver::resolver::{Resolver, Span};

fn s(t: &str) -> String {
    t.to_string()
}

fn map_with_imports(base: &str, entries: Vec<(&str, &str)>) -> esm_resolver::import_map::ImportMap {
    let json = JsonValue::Object(vec![(
        s("imports"),
        JsonValue::Object(
            entries
                .into_iter()
                .map(|(k, v)| (k.to_string(), JsonValue::Str(v.to_string())))
                .collect(),
        ),
    )]);
    parse_from_value(base, &json).unwrap().0
}

#[test]
fn end_to_end_tilde_alias() {
    // referrer /foo/bar/index.js, import map {"imports": {"~/": "./"}},
    // specifier "~/foo.ts": the absolute form is shorter than ../../foo.ts,
    // and the result carries the im= cache-partition tag.
    let im = map_with_imports("file:///index.html", vec![("~/", "./")]);
    let mut r = Resolver::new("/foo/bar/index.js", Some(im));
    let url = r.resolve("~/foo.ts", false, None, None);
    assert_eq!(url, "/foo.ts?im=L2luZGV4Lmh0bWw");
}

#[test]
fn relative_form_wins_when_shorter() {
    let im = map_with_imports("file:///index.html", vec![]);
    let mut r = Resolver::new("/foo/bar/index.js", Some(im));
    let url = r.resolve("./foo.vue", false, None, None);
    assert_eq!(url, "./foo.vue?im=L2luZGV4Lmh0bWw");
}

#[test]
fn anonymous_import_map_adds_no_tag() {
    let im = map_with_imports("file:///anonymous_import_map.json", vec![]);
    let mut r = Resolver::new("/foo/bar/index.js", Some(im));
    let url = r.resolve("./foo.ts", false, None, None);
    assert_eq!(url, "./foo.ts");
}

#[test]
fn no_import_map_adds_no_tag() {
    let mut r = Resolver::new("/foo/bar/index.js", None);
    let url = r.resolve("./foo.ts", false, None, None);
    assert_eq!(url, "./foo.ts");
}

#[test]
fn version_tagging_determinism() {
    // {"*": "1.0.0", "/foo.ts": "2.0.0"}: the exact entry beats the
    // wildcard, the wildcard covers the rest.
    let mut r = Resolver::new("/index.js", None);
    r.version_table = vec![(s("*"), s("1.0.0")), (s("/foo.ts"), s("2.0.0"))];
    assert_eq!(r.resolve("/foo.ts", false, None, None), "/foo.ts?v=2.0.0");
    assert_eq!(r.resolve("/bar.ts", false, None, None), "/bar.ts?v=1.0.0");
}

#[test]
fn remote_passthrough_gets_no_version_tag() {
    let mut r = Resolver::new("/index.js", None);
    r.version_table = vec![(s("*"), s("1.0.0"))];
    assert_eq!(
        r.resolve("https://esm.sh/react@18", false, None, None),
        "https://esm.sh/react@18"
    );
    assert_eq!(
        r.resolve("https://esm.sh/react@18?dev", false, None, None),
        "https://esm.sh/react@18?dev"
    );
}

#[test]
fn css_always_gains_module_token() {
    let mut r = Resolver::new("/foo/bar/index.js", None);
    assert_eq!(
        r.resolve("../../style/app.css", false, None, None),
        "../../style/app.css?module"
    );
    assert_eq!(
        r.resolve("/style/app.css", false, None, None),
        "/style/app.css?module"
    );
}

#[test]
fn css_hint_suppresses_module_token() {
    let mut r = Resolver::new("/foo/bar/index.js", None);
    assert_eq!(
        r.resolve("/style/app.css", false, None, Some(s("css"))),
        "/style/app.css"
    );
}

#[test]
fn raw_and_url_tokens_bypass_tagging() {
    let mut r = Resolver::new("/foo/bar/index.js", None);
    assert_eq!(r.resolve("./img.png?url", false, None, None), "./img.png?url");
    assert_eq!(r.resolve("./img.png?raw", false, None, None), "./img.png?raw");
    assert_eq!(
        r.resolve("/style/app.css?raw", false, None, None),
        "/style/app.css?raw"
    );
}

#[test]
fn other_extensions_become_opaque_urls() {
    let mut r = Resolver::new("/foo/bar/index.js", None);
    assert_eq!(r.resolve("./img.png", false, None, None), "./img.png?url");
    assert_eq!(r.resolve("./font.woff2", false, None, None), "./font.woff2?url");
}

#[test]
fn json_and_plain_markdown_stay_untagged() {
    let im = map_with_imports("file:///index.html", vec![]);
    let mut r = Resolver::new("/foo/bar/index.js", Some(im));
    assert_eq!(r.resolve("/data.json", false, None, None), "/data.json");
    assert_eq!(r.resolve("./foo.md", false, None, None), "./foo.md");
}

#[test]
fn markdown_with_format_token_gains_im_tag() {
    let im = map_with_imports("file:///index.html", vec![]);
    let mut r = Resolver::new("/foo/bar/index.js", Some(im));
    assert_eq!(
        r.resolve("./foo.md?jsx", false, None, None),
        "./foo.md?jsx&im=L2luZGV4Lmh0bWw"
    );
    assert_eq!(
        r.resolve("./foo.md?vue", false, None, None),
        "./foo.md?vue&im=L2luZGV4Lmh0bWw"
    );
}

#[test]
fn rpc_hint_appends_token() {
    let im = map_with_imports("file:///index.html", vec![]);
    let mut r = Resolver::new("/foo/bar/index.js", Some(im));
    assert_eq!(
        r.resolve("/rpc.ts", false, None, Some(s("rpc"))),
        "/rpc.ts?im=L2luZGV4Lmh0bWw&rpc"
    );
    // already present in the raw query: not appended again
    let mut r2 = Resolver::new("/foo/bar/index.js", None);
    assert_eq!(
        r2.resolve("/rpc.ts?rpc", false, None, Some(s("rpc"))),
        "/rpc.ts?rpc"
    );
}

#[test]
fn minimization_is_idempotent() {
    // Resolving the same relative specifier twice from the same referrer
    // yields an identical string both times.
    let mut r = Resolver::new("/foo/bar/index.js", None);
    let a = r.resolve("./x/y.ts?dev", false, None, None);
    let b = r.resolve("./x/y.ts?dev", false, None, None);
    assert_eq!(a, b);
    assert_eq!(a, "./x/y.ts?dev");
}

#[test]
fn dependency_list_records_calls_in_order() {
    let mut r = Resolver::new("/index.js", None);
    r.resolve("./a.ts", false, None, None);
    r.resolve("./b.ts", false, Some(Span { lo: 10, hi: 18 }), None);
    r.resolve("./c.ts", true, None, None);
    assert_eq!(r.deps.len(), 3);
    assert_eq!(r.deps[0].specifier, "./a.ts");
    assert_eq!(r.deps[0].resolved_url, "./a.ts");
    assert!(!r.deps[0].dynamic);
    assert_eq!(r.deps[1].source_location, Some(Span { lo: 10, hi: 18 }));
    assert!(r.deps[2].dynamic);
}

#[test]
fn remote_referrer_keeps_absolute_paths() {
    // a remote module resolving a file-scheme result keeps the plain path
    let im = map_with_imports("file:///index.html", vec![("~/", "./")]);
    let mut r = Resolver::new("https://example.com/app/index.js", Some(im));
    let url = r.resolve("~/foo.ts", false, None, None);
    assert_eq!(url, "/foo.ts?im=L2luZGV4Lmh0bWw");
}

#[test]
fn unmapped_bare_specifier_degrades_to_itself() {
    let im = map_with_imports("file:///index.html", vec![]);
    let mut r = Resolver::new("/index.js", Some(im));
    // no entry: the raw specifier passes through, tagged by its extension
    assert_eq!(r.resolve("lodash", false, None, None), "lodash");
}
