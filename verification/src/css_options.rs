//! Options steering the CSS compilation at the boundary, and the verified
//! rules that lower them to the concrete settings the compiler receives.
//! The compiler itself is an external collaborator; only the decisions made
//! from these plain values live here.

use vstd::prelude::*;

verus! {

use crate::strutil::{ends_with, str_ends_with};

/// Whether the compiler should report the stylesheet's dependencies, and
/// whether their `@import` rules stay in the output.
#[derive(Debug)]
pub enum AnalyzeDependenciesOption {
    Bool(bool),
    Config(AnalyzeDependenciesConfig),
}

#[derive(Debug)]
pub struct AnalyzeDependenciesConfig {
    pub preserve_imports: bool,
}

/// Draft CSS features to enable.
#[derive(Debug, Clone, Copy, PartialEq, Eq, Structural)]
pub struct Drafts {
    pub custom_media: bool,
}

/// Non-standard syntax to accept.
#[derive(Debug, Clone, Copy, PartialEq, Eq, Structural)]
pub struct NonStandard {
    pub deep_selector_combinator: bool,
}

/// Whether and how the stylesheet compiles as a CSS module.
#[derive(Debug)]
pub enum CssModulesOption {
    Bool(bool),
    Config(CssModulesConfig),
}

#[derive(Debug)]
pub struct CssModulesConfig {
    pub pattern: Option<String>,
    pub dashed_idents: Option<bool>,
    pub animation: Option<bool>,
    pub grid: Option<bool>,
    pub custom_idents: Option<bool>,
}

/// Renaming targets for pseudo-classes.
#[derive(Debug)]
pub struct OwnedPseudoClasses {
    pub hover: Option<String>,
    pub active: Option<String>,
    pub focus: Option<String>,
    pub focus_visible: Option<String>,
    pub focus_within: Option<String>,
}

/// The concrete CSS-modules settings handed to the compiler, defaults
/// applied: named animations and grid lines scoped, custom identifiers
/// scoped, dashed identifiers global.
#[derive(Debug)]
pub struct CssModulesSettings {
    pub pattern: Option<String>,
    pub dashed_idents: bool,
    pub animation: bool,
    pub grid: bool,
    pub custom_idents: bool,
}

pub open spec fn spec_css_modules_enabled(
    option: Option<CssModulesOption>,
    filename: Seq<char>,
) -> bool {
    match option {
        Some(CssModulesOption::Bool(b)) => b,
        Some(CssModulesOption::Config(_)) => true,
        None => ends_with(filename, ".module.css"@),
    }
}

/// Whether the compiler reports dependencies, and if so whether it removes
/// their `@import` rules.
pub open spec fn spec_analyze_dependencies(
    option: Option<AnalyzeDependenciesOption>,
) -> Option<bool> {
    match option {
        Some(AnalyzeDependenciesOption::Bool(b)) => if b {
            Some(true)
        } else {
            None
        },
        Some(AnalyzeDependenciesOption::Config(c)) => Some(!c.preserve_imports),
        None => None,
    }
}

/// Lower the dependency-analysis option: `true` and explicit configurations
/// enable analysis; imports are removed unless the configuration preserves
/// them.
pub fn analyze_dependencies_config(option: &Option<AnalyzeDependenciesOption>) -> (r: Option<
    bool,
>)
    ensures
        r == spec_analyze_dependencies(*option),
{
    match option {
        Some(AnalyzeDependenciesOption::Bool(b)) => {
            if *b {
                Some(true)
            } else {
                None
            }
        }
        Some(AnalyzeDependenciesOption::Config(c)) => Some(!c.preserve_imports),
        None => None,
    }
}

/// The parser feature flags: draft custom media queries and the deep
/// selector combinator, each off unless asked for.
pub open spec fn spec_parser_flags(
    drafts: Option<Drafts>,
    non_standard: Option<NonStandard>,
) -> (bool, bool) {
    (
        match drafts {
            Some(d) => d.custom_media,
            None => false,
        },
        match non_standard {
            Some(v) => v.deep_selector_combinator,
            None => false,
        },
    )
}

pub fn parser_flags(drafts: &Option<Drafts>, non_standard: &Option<NonStandard>) -> (r: (
    bool,
    bool,
))
    ensures
        r == spec_parser_flags(*drafts, *non_standard),
{
    let custom_media = match drafts {
        Some(d) => d.custom_media,
        None => false,
    };
    let deep = match non_standard {
        Some(v) => v.deep_selector_combinator,
        None => false,
    };
    (custom_media, deep)
}

/// Lower the CSS-modules option for one file: an explicit configuration
/// wins, plain `true`/`false` enables or disables the defaults, and with no
/// option at all a `.module.css` file compiles as a CSS module.
pub fn resolve_css_modules(option: Option<CssModulesOption>, filename: &str) -> (r: Option<
    CssModulesSettings,
>)
    ensures
        r is Some <==> spec_css_modules_enabled(option, filename@),
        match option {
            Some(CssModulesOption::Config(c)) => r matches Some(s) && s.pattern == c.pattern
                && s.dashed_idents == (match c.dashed_idents {
                Some(b) => b,
                None => false,
            }) && s.animation == (match c.animation {
                Some(b) => b,
                None => true,
            }) && s.grid == (match c.grid {
                Some(b) => b,
                None => true,
            }) && s.custom_idents == (match c.custom_idents {
                Some(b) => b,
                None => true,
            }),
            _ => r matches Some(s) ==> s.pattern is None && !s.dashed_idents && s.animation
                && s.grid && s.custom_idents,
        },
{
    match option {
        Some(CssModulesOption::Bool(true)) => Some(
            CssModulesSettings {
                pattern: None,
                dashed_idents: false,
                animation: true,
                grid: true,
                custom_idents: true,
            },
        ),
        Some(CssModulesOption::Bool(false)) => None,
        Some(CssModulesOption::Config(c)) => Some(
            CssModulesSettings {
                pattern: c.pattern,
                dashed_idents: match c.dashed_idents {
                    Some(b) => b,
                    None => false,
                },
                animation: match c.animation {
                    Some(b) => b,
                    None => true,
                },
                grid: match c.grid {
                    Some(b) => b,
                    None => true,
                },
                custom_idents: match c.custom_idents {
                    Some(b) => b,
                    None => true,
                },
            },
        ),
        None => {
            if str_ends_with(filename, ".module.css") {
                Some(
                    CssModulesSettings {
                        pattern: None,
                        dashed_idents: false,
                        animation: true,
                        grid: true,
                        custom_idents: true,
                    },
                )
            } else {
                None
            }
        }
    }
}

} // verus!
