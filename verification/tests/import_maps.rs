//! Import-map parsing and resolution.

use esm_resolver::import_map::{parse_from_value, ImportMapDiagnostic, ImportMapError};
use esm_resolver::json::JsonValue;

fn s(t: &str) -> String {
    t.to_string()
}

fn obj(members: Vec<(&str, JsonValue)>) -> JsonValue {
    JsonValue::Object(members.into_iter().map(|(k, v)| (k.to_string(), v)).collect())
}

fn imports_map(entries: Vec<(&str, &str)>) -> JsonValue {
    obj(vec![(
        "imports",
        JsonValue::Object(
            entries
                .into_iter()
                .map(|(k, v)| (k.to_string(), JsonValue::Str(v.to_string())))
                .collect(),
        ),
    )])
}

#[test]
fn bare_exact_match() {
    let json = imports_map(vec![("react", "https://esm.sh/react")]);
    let (im, diags) = parse_from_value("file:///index.html", &json).unwrap();
    assert!(diags.is_empty());
    let r = im.resolve("react", "file:///app.tsx").unwrap();
    assert_eq!(r, "https://esm.sh/react");
}

#[test]
fn expand_match_appends_subpath() {
    let json = imports_map(vec![("react", "https://esm.sh/react")]);
    let (im, _) = parse_from_value("file:///index.html", &json).unwrap();
    let r = im.resolve("react/jsx-runtime", "file:///app.tsx").unwrap();
    assert_eq!(r, "https://esm.sh/react/jsx-runtime");
}

#[test]
fn longest_prefix_wins() {
    // Longest-prefix wins: "a/b/" must beat "a/" for "a/b/c".
    let json = imports_map(vec![
        ("a/", "https://x.example/under-a/"),
        ("a/b/", "https://x.example/under-b/"),
    ]);
    let (im, diags) = parse_from_value("file:///index.html", &json).unwrap();
    assert!(diags.is_empty());
    let r = im.resolve("a/b/c", "file:///app.tsx").unwrap();
    assert_eq!(r, "https://x.example/under-b/c");
}

#[test]
fn null_blocks_never_falls_through() {
    // A blocked (null) entry fails loudly even though "a/" also matches;
    // without the blocked entry the same specifier resolves.
    let json = imports_map(vec![
        ("a/", "https://x.example/under-a/"),
        ("a/b/", ""),
    ]);
    let (im, diags) = parse_from_value("file:///index.html", &json).unwrap();
    assert_eq!(diags.len(), 1);
    assert!(matches!(diags[0], ImportMapDiagnostic::InvalidAddress(_, _)));
    let err = im.resolve("a/b/c", "file:///app.tsx").unwrap_err();
    match err {
        ImportMapError::Other(m) => assert_eq!(m, "Blocked by null entry for \"a/b/\""),
        _ => panic!("expected a blocked error"),
    }

    let json2 = imports_map(vec![("a/", "https://x.example/under-a/")]);
    let (im2, _) = parse_from_value("file:///index.html", &json2).unwrap();
    let r = im2.resolve("a/b/c", "file:///app.tsx").unwrap();
    assert_eq!(r, "https://x.example/under-a/b/c");
}

#[test]
fn exact_null_blocks() {
    // A key whose address cannot be resolved is mapped to null; an exact
    // match on it fails loudly.
    let json = imports_map(vec![("blocked", "")]);
    let (im, _) = parse_from_value("file:///index.html", &json).unwrap();
    let err = im.resolve("blocked", "file:///app.tsx").unwrap_err();
    match err {
        ImportMapError::Other(m) => assert_eq!(m, "Blocked by null entry for \"blocked\""),
        _ => panic!("expected a blocked error"),
    }
}

#[test]
fn trailing_slash_mismatch_blocks() {
    let json = imports_map(vec![("a/", "https://x.example/no-slash")]);
    let (im, diags) = parse_from_value("file:///index.html", &json).unwrap();
    assert_eq!(diags.len(), 1);
    assert!(matches!(
        diags[0],
        ImportMapDiagnostic::InvalidTargetAddress(_, _)
    ));
    assert!(im.resolve("a/x", "file:///app.tsx").is_err());
}

#[test]
fn scope_precedence_over_top_level() {
    let json = obj(vec![
        (
            "imports",
            JsonValue::Object(vec![(
                s("react"),
                JsonValue::Str(s("https://top.example/react")),
            )]),
        ),
        (
            "scopes",
            JsonValue::Object(vec![(
                s("/foo/"),
                JsonValue::Object(vec![(
                    s("react"),
                    JsonValue::Str(s("https://scoped.example/react")),
                )]),
            )]),
        ),
    ]);
    let (im, diags) = parse_from_value("file:///index.html", &json).unwrap();
    assert!(diags.is_empty());
    // inside the scope, the scope's address wins
    let r = im.resolve("react", "file:///foo/app.tsx").unwrap();
    assert_eq!(r, "https://scoped.example/react");
    // outside the scope, the top-level address applies
    let r2 = im.resolve("react", "file:///bar/app.tsx").unwrap();
    assert_eq!(r2, "https://top.example/react");
}

#[test]
fn scope_without_match_falls_through() {
    // the more specific scope has no entry for the specifier; the broader
    // one decides — a scope never short-circuits resolution
    let json = obj(vec![(
        "scopes",
        JsonValue::Object(vec![
            (
                s("/foo/bar/"),
                JsonValue::Object(vec![(
                    s("other"),
                    JsonValue::Str(s("https://inner.example/other")),
                )]),
            ),
            (
                s("/foo/"),
                JsonValue::Object(vec![(
                    s("react"),
                    JsonValue::Str(s("https://outer.example/react")),
                )]),
            ),
        ]),
    )]);
    let (im, _) = parse_from_value("file:///index.html", &json).unwrap();
    let r = im.resolve("react", "file:///foo/bar/app.tsx").unwrap();
    assert_eq!(r, "https://outer.example/react");
}

#[test]
fn exact_scope_is_tried_before_prefix_scopes() {
    let json = obj(vec![(
        "scopes",
        JsonValue::Object(vec![
            (
                s("/foo/app.tsx"),
                JsonValue::Object(vec![(
                    s("react"),
                    JsonValue::Str(s("https://exact.example/react")),
                )]),
            ),
            (
                s("/foo/"),
                JsonValue::Object(vec![(
                    s("react"),
                    JsonValue::Str(s("https://prefix.example/react")),
                )]),
            ),
        ]),
    )]);
    let (im, _) = parse_from_value("file:///index.html", &json).unwrap();
    let r = im.resolve("react", "file:///foo/app.tsx").unwrap();
    assert_eq!(r, "https://exact.example/react");
    let r2 = im.resolve("react", "file:///foo/other.tsx").unwrap();
    assert_eq!(r2, "https://prefix.example/react");
}

#[test]
fn backtracking_above_the_prefix_fails() {
    let json = imports_map(vec![("a/", "https://x.example/sub/")]);
    let (im, _) = parse_from_value("file:///index.html", &json).unwrap();
    let err = im.resolve("a/../../escape", "file:///app.tsx").unwrap_err();
    match err {
        ImportMapError::Other(m) => assert!(m.contains("backtracks above its prefix")),
        _ => panic!("expected a backtracking error"),
    }
}

#[test]
fn url_like_specifier_passes_through() {
    let json = imports_map(vec![]);
    let (im, _) = parse_from_value("file:///index.html", &json).unwrap();
    let r = im.resolve("/foo.ts", "file:///foo/bar/index.js").unwrap();
    assert_eq!(r, "file:///foo.ts");
    let r2 = im
        .resolve("./sibling.ts", "file:///foo/bar/index.js")
        .unwrap();
    assert_eq!(r2, "file:///foo/bar/sibling.ts");
    let r3 = im
        .resolve("https://esm.sh/react@18", "file:///foo/bar/index.js")
        .unwrap();
    assert_eq!(r3, "https://esm.sh/react@18");
}

#[test]
fn unmapped_bare_specifier_fails() {
    let json = imports_map(vec![]);
    let (im, _) = parse_from_value("file:///index.html", &json).unwrap();
    let err = im.resolve("lodash", "file:///app.tsx").unwrap_err();
    match &err {
        ImportMapError::UnmappedBareSpecifier(spec, Some(referrer)) => {
            assert_eq!(spec, "lodash");
            assert_eq!(referrer, "file:///app.tsx");
        }
        _ => panic!("expected an unmapped bare specifier"),
    }
    assert_eq!(
        err.message(),
        "Relative import path \"lodash\" not prefixed with / or ./ or ../ and not in import map from \"file:///app.tsx\""
    );
}

#[test]
fn top_level_shape_errors_are_fatal() {
    let err = parse_from_value("file:///index.html", &JsonValue::Bool(true)).unwrap_err();
    match err {
        ImportMapError::Other(m) => assert_eq!(m, "Import map JSON must be an object"),
        _ => panic!("expected a shape error"),
    }

    let bad_imports = obj(vec![("imports", JsonValue::Bool(true))]);
    let err2 = parse_from_value("file:///index.html", &bad_imports).unwrap_err();
    match err2 {
        ImportMapError::Other(m) => assert_eq!(m, "Import map's 'imports' must be an object"),
        _ => panic!("expected a shape error"),
    }

    let bad_scopes = obj(vec![("scopes", JsonValue::Null)]);
    let err3 = parse_from_value("file:///index.html", &bad_scopes).unwrap_err();
    match err3 {
        ImportMapError::Other(m) => assert_eq!(m, "Import map's 'scopes' must be an object"),
        _ => panic!("expected a shape error"),
    }

    let bad_scope_value = obj(vec![(
        "scopes",
        JsonValue::Object(vec![(s("/foo/"), JsonValue::Str(s("nope")))]),
    )]);
    let err4 = parse_from_value("file:///index.html", &bad_scope_value).unwrap_err();
    match err4 {
        ImportMapError::Other(m) => {
            assert_eq!(m, "The value for the \"/foo/\" scope prefix must be an object")
        }
        _ => panic!("expected a shape error"),
    }
}

#[test]
fn non_object_base_is_fatal() {
    let json = imports_map(vec![]);
    let err = parse_from_value("not a url", &json).unwrap_err();
    match err {
        ImportMapError::Other(m) => assert_eq!(m, "Import map base must be a valid URL"),
        _ => panic!("expected a base error"),
    }
}

#[test]
fn diagnostics_are_collected_not_fatal() {
    let json = obj(vec![
        (
            "imports",
            JsonValue::Object(vec![
                (s(""), JsonValue::Str(s("https://x.example/"))),
                (s("n"), JsonValue::Number(s("42"))),
                (s("ok"), JsonValue::Str(s("https://x.example/ok"))),
            ]),
        ),
        ("vendor", JsonValue::Null),
    ]);
    let (im, diags) = parse_from_value("file:///index.html", &json).unwrap();
    // shape-stage diagnostics first (non-string value, unknown top-level
    // key), then the per-entry resolution diagnostics (the empty key)
    assert_eq!(diags.len(), 3);
    assert!(matches!(
        diags[0],
        ImportMapDiagnostic::InvalidAddressNotString(_, _)
    ));
    match &diags[1] {
        ImportMapDiagnostic::InvalidTopLevelKey(k) => assert_eq!(k, "vendor"),
        other => panic!("unexpected diagnostic {:?}", other),
    }
    assert!(matches!(diags[2], ImportMapDiagnostic::EmptySpecifier));
    assert_eq!(
        im.resolve("ok", "file:///app.tsx").unwrap(),
        "https://x.example/ok"
    );
}

#[test]
fn base_url_and_base_path() {
    let json = imports_map(vec![]);
    let (im, _) = parse_from_value("file:///some/dir/import_map.json", &json).unwrap();
    assert_eq!(im.base_url(), "file:///some/dir/import_map.json");
    assert_eq!(im.base_path(), "/some/dir/import_map.json");
}

#[test]
fn percent_encoded_remainder_is_decoded_once() {
    let json = imports_map(vec![("pkg/", "https://cdn.example/pkg/")]);
    let (im, _) = parse_from_value("file:///index.html", &json).unwrap();
    let r = im.resolve("pkg/a%20b.js", "file:///app.tsx").unwrap();
    assert_eq!(r, "https://cdn.example/pkg/a%20b.js");
}
