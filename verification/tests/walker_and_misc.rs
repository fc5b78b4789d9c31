//! The graph walker, the specifier classifiers, syntax selection, CSS
//! option lowering, and the JSON model.

use esm_resolver::css_options::{
    analyze_dependencies_config, parser_flags, resolve_css_modules, AnalyzeDependenciesConfig,
    AnalyzeDependenciesOption, CssModulesConfig, CssModulesOption, Drafts, NonStandard,
};
use esm_resolver::emit::{get_syntax, resolve_jsx_import_source, SyntaxKind};
use esm_resolver::import_analyzer::{AstNode, ImportAnalyzer, ModuleItem, StrLit};
use esm_resolver::import_map::parse_from_value;
use esm_resolver::json::{json_to_string, JsonValue};
use esm_resolver::resolver::{Resolver, Span};
use esm_resolver::specifier::{is_abspath_specifier, is_http_specifier, is_relpath_specifier};

fn s(t: &str) -> String {
    t.to_string()
}

fn lit(value: &str, lo: u32, hi: u32) -> StrLit {
    StrLit {
        value: s(value),
        span: Span { lo, hi },
    }
}

#[test]
fn classifiers() {
    assert!(is_http_specifier("https://esm.sh/react"));
    assert!(is_http_specifier("http://localhost/x"));
    assert!(!is_http_specifier("httpx://nope"));
    assert!(is_relpath_specifier("./a"));
    assert!(is_relpath_specifier("../a"));
    assert!(!is_relpath_specifier("/a"));
    assert!(is_abspath_specifier("/a"));
    assert!(is_abspath_specifier("file:///a"));
    assert!(!is_abspath_specifier("react"));
}

#[test]
fn dependency_order_matches_source_order() {
    // import A; import B; import(dyn C): the recorded list is [A, B, C],
    // whatever the recursion depth of the dynamic import.
    let items = vec![
        ModuleItem::Import {
            src: lit("./a.ts", 0, 6),
            type_only: false,
            with_type: None,
        },
        ModuleItem::Import {
            src: lit("./b.ts", 7, 13),
            type_only: false,
            with_type: None,
        },
        ModuleItem::Stmt {
            expr: AstNode::Other {
                children: vec![AstNode::Other {
                    children: vec![AstNode::DynImport {
                        src: Some(lit("./c.ts", 14, 20)),
                        with_type: None,
                        children: vec![],
                    }],
                }],
            },
        },
    ];
    let mut walker = ImportAnalyzer {
        resolver: Resolver::new("/index.js", None),
        mark_src_location: false,
    };
    let _ = walker.fold_module_items(items);
    let deps = &walker.resolver.deps;
    assert_eq!(deps.len(), 3);
    assert_eq!(deps[0].specifier, "./a.ts");
    assert_eq!(deps[1].specifier, "./b.ts");
    assert_eq!(deps[2].specifier, "./c.ts");
    assert!(!deps[0].dynamic);
    assert!(deps[2].dynamic);
}

#[test]
fn walker_rewrites_literals_in_place() {
    let im = {
        let json = JsonValue::Object(vec![(
            s("imports"),
            JsonValue::Object(vec![(s("react"), JsonValue::Str(s("https://esm.sh/react")))]),
        )]);
        parse_from_value("file:///index.html", &json).unwrap().0
    };
    let items = vec![ModuleItem::Import {
        src: lit("react", 0, 5),
        type_only: false,
        with_type: None,
    }];
    let mut walker = ImportAnalyzer {
        resolver: Resolver::new("/app.tsx", Some(im)),
        mark_src_location: false,
    };
    let out = walker.fold_module_items(items);
    match &out[0] {
        ModuleItem::Import { src, .. } => assert_eq!(src.value, "https://esm.sh/react"),
        _ => panic!("expected an import"),
    }
}

#[test]
fn type_only_imports_are_skipped() {
    let items = vec![
        ModuleItem::Import {
            src: lit("./types.ts", 0, 10),
            type_only: true,
            with_type: None,
        },
        ModuleItem::ExportNamed {
            src: Some(lit("./t2.ts", 11, 18)),
            type_only: true,
        },
        ModuleItem::ExportAll {
            src: lit("./all.ts", 19, 27),
        },
    ];
    let mut walker = ImportAnalyzer {
        resolver: Resolver::new("/index.js", None),
        mark_src_location: false,
    };
    let out = walker.fold_module_items(items);
    assert_eq!(walker.resolver.deps.len(), 1);
    assert_eq!(walker.resolver.deps[0].specifier, "./all.ts");
    // type-only items come back unchanged
    match &out[0] {
        ModuleItem::Import { src, .. } => assert_eq!(src.value, "./types.ts"),
        _ => panic!("expected an import"),
    }
}

#[test]
fn rpc_attribute_is_stripped_after_tagging() {
    let items = vec![ModuleItem::Import {
        src: lit("/rpc.ts", 0, 7),
        type_only: false,
        with_type: Some(s("rpc")),
    }];
    let mut walker = ImportAnalyzer {
        resolver: Resolver::new("/index.js", None),
        mark_src_location: false,
    };
    let out = walker.fold_module_items(items);
    match &out[0] {
        ModuleItem::Import { src, with_type, .. } => {
            assert_eq!(src.value, "/rpc.ts?rpc");
            assert!(with_type.is_none());
        }
        _ => panic!("expected an import"),
    }
}

#[test]
fn json_attribute_is_kept() {
    let items = vec![ModuleItem::Import {
        src: lit("/data.json", 0, 10),
        type_only: false,
        with_type: Some(s("json")),
    }];
    let mut walker = ImportAnalyzer {
        resolver: Resolver::new("/index.js", None),
        mark_src_location: false,
    };
    let out = walker.fold_module_items(items);
    match &out[0] {
        ModuleItem::Import { src, with_type, .. } => {
            assert_eq!(src.value, "/data.json");
            assert_eq!(with_type.as_deref(), Some("json"));
        }
        _ => panic!("expected an import"),
    }
}

#[test]
fn worker_sources_resolve_dynamically() {
    let items = vec![ModuleItem::Stmt {
        expr: AstNode::NewWorker {
            src: Some(lit("./worker.ts", 0, 11)),
            children: vec![],
        },
    }];
    let mut walker = ImportAnalyzer {
        resolver: Resolver::new("/index.js", None),
        mark_src_location: true,
    };
    let _ = walker.fold_module_items(items);
    assert_eq!(walker.resolver.deps.len(), 1);
    assert!(walker.resolver.deps[0].dynamic);
    assert_eq!(
        walker.resolver.deps[0].source_location,
        Some(Span { lo: 0, hi: 11 })
    );
}

#[test]
fn dynamic_import_with_css_hint() {
    let items = vec![ModuleItem::Stmt {
        expr: AstNode::DynImport {
            src: Some(lit("/style/app.css", 0, 14)),
            with_type: Some(s("css")),
            children: vec![],
        },
    }];
    let mut walker = ImportAnalyzer {
        resolver: Resolver::new("/index.js", None),
        mark_src_location: false,
    };
    let out = walker.fold_module_items(items);
    match &out[0] {
        ModuleItem::Stmt {
            expr: AstNode::DynImport { src, .. },
        } => assert_eq!(src.as_ref().unwrap().value, "/style/app.css"),
        _ => panic!("expected a dynamic import"),
    }
}

#[test]
fn non_literal_specifiers_are_left_untouched() {
    let items = vec![ModuleItem::Stmt {
        expr: AstNode::DynImport {
            src: None,
            with_type: None,
            children: vec![AstNode::Other { children: vec![] }],
        },
    }];
    let mut walker = ImportAnalyzer {
        resolver: Resolver::new("/index.js", None),
        mark_src_location: false,
    };
    let _ = walker.fold_module_items(items);
    assert!(walker.resolver.deps.is_empty());
}

#[test]
fn syntax_selection() {
    assert_eq!(get_syntax("/app.tsx", None), SyntaxKind::Ts { tsx: true });
    assert_eq!(get_syntax("/app.ts", None), SyntaxKind::Ts { tsx: false });
    assert_eq!(get_syntax("/app.mts", None), SyntaxKind::Ts { tsx: false });
    assert_eq!(get_syntax("/app.jsx", None), SyntaxKind::Es { jsx: true });
    assert_eq!(get_syntax("/app.js", None), SyntaxKind::Es { jsx: false });
    assert_eq!(get_syntax("/app.mjs", None), SyntaxKind::Es { jsx: false });
    // the extension is lowercased, the query ignored, unknown means script
    assert_eq!(get_syntax("/app.TSX?dev", None), SyntaxKind::Ts { tsx: true });
    assert_eq!(get_syntax("/styles.css", None), SyntaxKind::Es { jsx: false });
    assert_eq!(get_syntax("/no_extension", None), SyntaxKind::Es { jsx: false });
    // an explicit language wins over the file name
    assert_eq!(
        get_syntax("/app.js", Some(s("tsx"))),
        SyntaxKind::Ts { tsx: true }
    );
}

#[test]
fn jsx_import_source_lookup() {
    let json = JsonValue::Object(vec![(
        s("imports"),
        JsonValue::Object(vec![(s("react"), JsonValue::Str(s("https://esm.sh/react@18")))]),
    )]);
    let (im, _) = parse_from_value("file:///index.html", &json).unwrap();
    assert_eq!(
        resolve_jsx_import_source(&im, "/app.tsx").as_deref(),
        Some("https://esm.sh/react@18")
    );

    let empty = JsonValue::Object(vec![]);
    let (im2, _) = parse_from_value("file:///index.html", &empty).unwrap();
    assert!(resolve_jsx_import_source(&im2, "/app.tsx").is_none());
}

#[test]
fn json_serialization() {
    let v = JsonValue::Object(vec![
        (s("a"), JsonValue::Str(s("x\"y"))),
        (
            s("b"),
            JsonValue::Array(vec![
                JsonValue::Null,
                JsonValue::Bool(true),
                JsonValue::Number(s("1.5")),
            ]),
        ),
    ]);
    assert_eq!(json_to_string(&v), "{\"a\":\"x\\\"y\",\"b\":[null,true,1.5]}");
    assert_eq!(json_to_string(&JsonValue::Bool(false)), "false");
    assert_eq!(json_to_string(&JsonValue::Str(s("a\nb"))), "\"a\\nb\"");
    assert_eq!(
        json_to_string(&JsonValue::Str(s("ctl\u{1}"))),
        "\"ctl\\u0001\""
    );
}

#[test]
fn css_modules_lowering() {
    // plain true: the defaults
    let on = resolve_css_modules(Some(CssModulesOption::Bool(true)), "/a.css").unwrap();
    assert!(on.pattern.is_none());
    assert!(!on.dashed_idents);
    assert!(on.animation && on.grid && on.custom_idents);
    // plain false: off
    assert!(resolve_css_modules(Some(CssModulesOption::Bool(false)), "/a.module.css").is_none());
    // no option: decided by the file name
    assert!(resolve_css_modules(None, "/a.module.css").is_some());
    assert!(resolve_css_modules(None, "/a.css").is_none());
    // explicit configuration, defaults applied per field
    let cfg = resolve_css_modules(
        Some(CssModulesOption::Config(CssModulesConfig {
            pattern: Some(s("[hash]-[local]")),
            dashed_idents: None,
            animation: Some(false),
            grid: None,
            custom_idents: None,
        })),
        "/a.css",
    )
    .unwrap();
    assert_eq!(cfg.pattern.as_deref(), Some("[hash]-[local]"));
    assert!(!cfg.dashed_idents);
    assert!(!cfg.animation);
    assert!(cfg.grid && cfg.custom_idents);
}

#[test]
fn dependency_analysis_lowering() {
    assert_eq!(
        analyze_dependencies_config(&Some(AnalyzeDependenciesOption::Bool(true))),
        Some(true)
    );
    assert_eq!(
        analyze_dependencies_config(&Some(AnalyzeDependenciesOption::Bool(false))),
        None
    );
    assert_eq!(
        analyze_dependencies_config(&Some(AnalyzeDependenciesOption::Config(
            AnalyzeDependenciesConfig {
                preserve_imports: true
            }
        ))),
        Some(false)
    );
    assert_eq!(analyze_dependencies_config(&None), None);
}

#[test]
fn parser_flag_lowering() {
    assert_eq!(parser_flags(&None, &None), (false, false));
    assert_eq!(
        parser_flags(&Some(Drafts { custom_media: true }), &None),
        (true, false)
    );
    assert_eq!(
        parser_flags(
            &None,
            &Some(NonStandard {
                deep_selector_combinator: true
            })
        ),
        (false, true)
    );
}
