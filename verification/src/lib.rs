//! Module-specifier resolution engine for an on-the-fly ES-module
//! transpilation service.
//!
//! Given a module's own address and the raw specifier strings found inside it
//! (static imports/exports, dynamic `import()`, worker constructors), the
//! library computes the final URLs those specifiers must be rewritten to,
//! decorated with cache- and type-relevant query metadata, and records an
//! ordered dependency graph for the module.

pub mod css_options;
pub mod emit;
pub mod import_analyzer;
pub mod import_map;
pub mod json;
pub mod resolver;
pub mod specifier;
pub mod strutil;
pub mod urlops;

use vstd::prelude::*;

verus! {

} // verus!
