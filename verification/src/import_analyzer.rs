//! The graph walker.
//!
//! The syntax tree is modeled as a tagged sum over the node shapes the
//! resolution engine reads: static import and export declarations at the
//! top level, and dynamic `import()` and `new Worker()` expressions nested
//! arbitrarily deep.  The walker visits the tree in strict source order,
//! extracts each statically-known specifier string, resolves it, and
//! rewrites the literal in place; everything else is traversed untouched.
//! The dependency list therefore grows in source order — an invariant the
//! walker's contract states exactly.

use vstd::prelude::*;

verus! {

use crate::resolver::{
    cfg_of,
    cfg_resolve,
    DepView,
    Resolver,
    Span,
    WalkCfg,
};
use crate::strutil::str_eq;
use vstd::string::*;

/// A string literal with its source span.
#[derive(Debug, Clone)]
pub struct StrLit {
    pub value: String,
    pub span: Span,
}

/// An expression node.  Only the shapes the walker reads are distinguished;
/// everything else is `Other`, a node with children in source order.
#[derive(Debug)]
pub enum AstNode {
    /// A dynamic `import(...)` call; `src` holds the first argument when it
    /// is a literal string, `with_type` the `{ with: { type: ... } }` hint
    /// of its second argument.
    DynImport { src: Option<StrLit>, with_type: Option<String>, children: Vec<AstNode> },
    /// A `new Worker(...)` expression; `src` holds the first argument when
    /// it is a literal string.
    NewWorker { src: Option<StrLit>, children: Vec<AstNode> },
    /// Any other expression or statement, with its children in source order.
    Other { children: Vec<AstNode> },
}

/// One top-level module item.
#[derive(Debug)]
pub enum ModuleItem {
    /// `import ... from "src"`, possibly `import type`, possibly carrying a
    /// `with { type: ... }` attribute.
    Import { src: StrLit, type_only: bool, with_type: Option<String> },
    /// `export ... from "src"` when `src` is present; `export { ... }`
    /// without a source otherwise.
    ExportNamed { src: Option<StrLit>, type_only: bool },
    /// `export * from "src"`.
    ExportAll { src: StrLit },
    /// Any other top-level item, as an expression tree.
    Stmt { expr: AstNode },
}

// ---------------------------------------------------------------------------
// What the walker extracts, in source order
// ---------------------------------------------------------------------------

/// The location recorded for a literal: its span when the caller asked for
/// source locations, nothing otherwise.
pub open spec fn spec_loc(mark: bool, span: Span) -> Option<Span> {
    if mark {
        Some(span)
    } else {
        None
    }
}

pub open spec fn hint_view(with_type: Option<String>) -> Option<Seq<char>> {
    match with_type {
        Some(t) => Some(t@),
        None => None,
    }
}

/// The dependency descriptor one resolved literal contributes.
pub open spec fn dep_of(
    c: WalkCfg,
    mark: bool,
    lit: StrLit,
    hint: Option<Seq<char>>,
    dynamic: bool,
) -> DepView {
    DepView {
        specifier: lit.value@,
        resolved_url: cfg_resolve(c, lit.value@, hint),
        source_location: spec_loc(mark, lit.span),
        dynamic: dynamic,
    }
}

/// Dependencies contributed by one expression tree, in source order: a
/// resolvable node contributes its own dependency first, then its
/// children's, left to right.
pub open spec fn expr_deps(c: WalkCfg, mark: bool, e: AstNode) -> Seq<DepView>
    decreases e,
{
    match e {
        AstNode::DynImport { src, with_type, children } => {
            let own = match src {
                Some(lit) => seq![dep_of(c, mark, lit, hint_view(with_type), true)],
                None => Seq::empty(),
            };
            own + exprs_deps(c, mark, children@)
        }
        AstNode::NewWorker { src, children } => {
            let own = match src {
                Some(lit) => seq![dep_of(c, mark, lit, None, true)],
                None => Seq::empty(),
            };
            own + exprs_deps(c, mark, children@)
        }
        AstNode::Other { children } => exprs_deps(c, mark, children@),
    }
}

pub open spec fn exprs_deps(c: WalkCfg, mark: bool, es: Seq<AstNode>) -> Seq<DepView>
    decreases es,
{
    if es.len() == 0 {
        Seq::empty()
    } else {
        exprs_deps(c, mark, es.drop_last()) + expr_deps(c, mark, es.last())
    }
}

/// Dependencies contributed by one module item: type-only declarations are
/// skipped, everything else contributes its source literal.
pub open spec fn item_deps(c: WalkCfg, mark: bool, it: ModuleItem) -> Seq<DepView> {
    match it {
        ModuleItem::Import { src, type_only, with_type } => if type_only {
            Seq::empty()
        } else {
            seq![dep_of(c, mark, src, hint_view(with_type), false)]
        },
        ModuleItem::ExportNamed { src, type_only } => match src {
            Some(lit) => if type_only {
                Seq::empty()
            } else {
                seq![dep_of(c, mark, lit, None, false)]
            },
            None => Seq::empty(),
        },
        ModuleItem::ExportAll { src } => seq![dep_of(c, mark, src, None, false)],
        ModuleItem::Stmt { expr } => expr_deps(c, mark, expr),
    }
}

/// Dependencies of a whole module, in source (top-to-bottom) order.
pub open spec fn items_deps(c: WalkCfg, mark: bool, items: Seq<ModuleItem>) -> Seq<DepView>
    decreases items.len(),
{
    if items.len() == 0 {
        Seq::empty()
    } else {
        items_deps(c, mark, items.drop_last()) + item_deps(c, mark, items.last())
    }
}

/// Dependency order matches source order: the dependencies of a module are
/// the per-item dependencies concatenated in item order, whatever the
/// recursion depth inside each item.  In particular, splitting a module
/// anywhere splits its dependency list at the matching point.
pub proof fn lemma_items_deps_concat(
    c: WalkCfg,
    mark: bool,
    a: Seq<ModuleItem>,
    b: Seq<ModuleItem>,
)
    ensures
        items_deps(c, mark, a + b) == items_deps(c, mark, a) + items_deps(c, mark, b),
    decreases b.len(),
{
    if b.len() == 0 {
        assert(a + b =~= a);
        assert(items_deps(c, mark, a) + items_deps(c, mark, b) =~= items_deps(c, mark, a));
    } else {
        lemma_items_deps_concat(c, mark, a, b.drop_last());
        assert((a + b).drop_last() =~= a + b.drop_last());
        assert((a + b).last() == b.last());
        assert(items_deps(c, mark, a) + (items_deps(c, mark, b.drop_last()) + item_deps(
            c,
            mark,
            b.last(),
        )) =~= (items_deps(c, mark, a) + items_deps(c, mark, b.drop_last())) + item_deps(
            c,
            mark,
            b.last(),
        ));
    }
}

// ---------------------------------------------------------------------------
// How the walker rewrites the tree
// ---------------------------------------------------------------------------

/// The rewritten literal: the resolved URL under a synthesized span.
pub open spec fn lit_rewritten(
    c: WalkCfg,
    lit: StrLit,
    hint: Option<Seq<char>>,
    b: StrLit,
) -> bool {
    b.value@ == cfg_resolve(c, lit.value@, hint) && b.span == (Span { lo: 0, hi: 0 })
}

/// `b` is `a` with every statically-known specifier literal replaced by its
/// resolved URL, and everything else unchanged.
pub open spec fn is_rewrite_expr(c: WalkCfg, mark: bool, a: AstNode, b: AstNode) -> bool
    decreases a,
{
    match a {
        AstNode::DynImport { src, with_type, children } => match b {
            AstNode::DynImport { src: bsrc, with_type: bwith, children: bchildren } => {
                &&& bwith == with_type
                &&& match src {
                    Some(lit) => bsrc matches Some(bl) && lit_rewritten(
                        c,
                        lit,
                        hint_view(with_type),
                        bl,
                    ),
                    None => bsrc is None,
                }
                &&& is_rewrite_exprs(c, mark, children@, bchildren@)
            }
            _ => false,
        },
        AstNode::NewWorker { src, children } => match b {
            AstNode::NewWorker { src: bsrc, children: bchildren } => {
                &&& match src {
                    Some(lit) => bsrc matches Some(bl) && lit_rewritten(c, lit, None, bl),
                    None => bsrc is None,
                }
                &&& is_rewrite_exprs(c, mark, children@, bchildren@)
            }
            _ => false,
        },
        AstNode::Other { children } => match b {
            AstNode::Other { children: bchildren } => is_rewrite_exprs(
                c,
                mark,
                children@,
                bchildren@,
            ),
            _ => false,
        },
    }
}

pub open spec fn is_rewrite_exprs(
    c: WalkCfg,
    mark: bool,
    a: Seq<AstNode>,
    b: Seq<AstNode>,
) -> bool
    decreases a,
{
    if a.len() != b.len() {
        false
    } else if a.len() == 0 {
        true
    } else {
        is_rewrite_exprs(c, mark, a.drop_last(), b.drop_last()) && is_rewrite_expr(
            c,
            mark,
            a.last(),
            b.last(),
        )
    }
}

/// The `with` attribute is stripped when its hint was `rpc` — the hint is
/// then already satisfied by a query token.
pub open spec fn with_stripped(with_type: Option<String>) -> Option<String> {
    match with_type {
        Some(t) => if t@ == "rpc"@ {
            None
        } else {
            Some(t)
        },
        None => None,
    }
}

pub open spec fn is_rewrite_item(c: WalkCfg, mark: bool, a: ModuleItem, b: ModuleItem) -> bool {
    match a {
        ModuleItem::Import { src, type_only, with_type } => if type_only {
            b == a
        } else {
            match b {
                ModuleItem::Import { src: bsrc, type_only: btype, with_type: bwith } => {
                    &&& lit_rewritten(c, src, hint_view(with_type), bsrc)
                    &&& btype == type_only
                    &&& bwith == with_stripped(with_type)
                }
                _ => false,
            }
        },
        ModuleItem::ExportNamed { src, type_only } => match src {
            Some(lit) => if type_only {
                b == a
            } else {
                match b {
                    ModuleItem::ExportNamed { src: bsrc, type_only: btype } => {
                        &&& bsrc matches Some(bl) && lit_rewritten(c, lit, None, bl)
                        &&& btype == type_only
                    }
                    _ => false,
                }
            },
            None => b == a,
        },
        ModuleItem::ExportAll { src } => match b {
            ModuleItem::ExportAll { src: bsrc } => lit_rewritten(c, src, None, bsrc),
            _ => false,
        },
        ModuleItem::Stmt { expr } => match b {
            ModuleItem::Stmt { expr: bexpr } => is_rewrite_expr(c, mark, expr, bexpr),
            _ => false,
        },
    }
}

// ---------------------------------------------------------------------------
// The walker
// ---------------------------------------------------------------------------

fn clone_opt_string(o: &Option<String>) -> (r: Option<String>)
    ensures
        r == *o,
{
    match o {
        Some(t) => Some(t.clone()),
        None => None,
    }
}

/// Walks a module's tree in source order, resolving and rewriting every
/// statically-known specifier through its resolver.
pub struct ImportAnalyzer {
    pub resolver: Resolver,
    /// Record the source span of each resolved literal in the dependency
    /// list.
    pub mark_src_location: bool,
}

impl ImportAnalyzer {
    pub fn as_location(&self, span: &Span) -> (r: Option<Span>)
        ensures
            r == spec_loc(self.mark_src_location, *span),
    {
        if self.mark_src_location {
            Some(*span)
        } else {
            None
        }
    }

    /// Resolve one literal and build its replacement.
    fn rewrite_lit(&mut self, lit: &StrLit, with_type: &Option<String>, dynamic: bool) -> (r:
        StrLit)
        ensures
            cfg_of(final(self).resolver) == cfg_of(old(self).resolver),
            final(self).mark_src_location == old(self).mark_src_location,
            final(self).resolver.deps.deep_view() == old(self).resolver.deps.deep_view().push(
                dep_of(
                    cfg_of(old(self).resolver),
                    old(self).mark_src_location,
                    *lit,
                    hint_view(*with_type),
                    dynamic,
                ),
            ),
            lit_rewritten(cfg_of(old(self).resolver), *lit, hint_view(*with_type), r),
    {
        let loc = self.as_location(&lit.span);
        let hint = clone_opt_string(with_type);
        proof {
            assert(hint.deep_view() == hint_view(*with_type));
        }
        let resolved = self.resolver.resolve(lit.value.as_str(), dynamic, loc, hint);
        StrLit { value: resolved, span: Span { lo: 0, hi: 0 } }
    }

    /// Fold one expression tree: resolve dynamic `import()` and
    /// `new Worker()` literals, then the children, in source order.
    #[verifier::loop_isolation(false)]
    pub fn fold_expr(&mut self, e: &AstNode) -> (r: AstNode)
        ensures
            cfg_of(final(self).resolver) == cfg_of(old(self).resolver),
            final(self).mark_src_location == old(self).mark_src_location,
            final(self).resolver.deps.deep_view() == old(self).resolver.deps.deep_view()
                + expr_deps(cfg_of(old(self).resolver), old(self).mark_src_location, *e),
            is_rewrite_expr(cfg_of(old(self).resolver), old(self).mark_src_location, *e, r),
        decreases *e, 1nat,
    {
        let ghost c = cfg_of(self.resolver);
        let ghost mark = self.mark_src_location;
        match e {
            AstNode::DynImport { src, with_type, children } => {
                let new_src: Option<StrLit> = match src {
                    Some(lit) => Some(self.rewrite_lit(lit, with_type, true)),
                    None => None,
                };
                proof {
                    assert(decreases_to!(*e => (*e)->DynImport_children));
                    assert((*e)->DynImport_children == *children);
                }
                let new_children = self.fold_children(children, Ghost(*e));
                proof {
                    assert(self.resolver.deps.deep_view() =~= old(
                        self,
                    ).resolver.deps.deep_view() + expr_deps(c, mark, *e));
                }
                AstNode::DynImport {
                    src: new_src,
                    with_type: clone_opt_string(with_type),
                    children: new_children,
                }
            }
            AstNode::NewWorker { src, children } => {
                let none_hint: Option<String> = None;
                let new_src: Option<StrLit> = match src {
                    Some(lit) => Some(self.rewrite_lit(lit, &none_hint, true)),
                    None => None,
                };
                proof {
                    assert(decreases_to!(*e => (*e)->NewWorker_children));
                    assert((*e)->NewWorker_children == *children);
                }
                let new_children = self.fold_children(children, Ghost(*e));
                proof {
                    assert(self.resolver.deps.deep_view() =~= old(
                        self,
                    ).resolver.deps.deep_view() + expr_deps(c, mark, *e));
                }
                AstNode::NewWorker { src: new_src, children: new_children }
            }
            AstNode::Other { children } => {
                proof {
                    assert(decreases_to!(*e => (*e)->Other_children));
                    assert((*e)->Other_children == *children);
                }
                let new_children = self.fold_children(children, Ghost(*e));
                proof {
                    assert(self.resolver.deps.deep_view() =~= old(
                        self,
                    ).resolver.deps.deep_view() + expr_deps(c, mark, *e));
                }
                AstNode::Other { children: new_children }
            }
        }
    }

    /// Fold a node's children left to right.
    #[verifier::loop_isolation(false)]
    fn fold_children(&mut self, children: &Vec<AstNode>, parent: Ghost<AstNode>) -> (r: Vec<
        AstNode,
    >)
        requires
            decreases_to!(parent@ => children@),
        ensures
            cfg_of(final(self).resolver) == cfg_of(old(self).resolver),
            final(self).mark_src_location == old(self).mark_src_location,
            final(self).resolver.deps.deep_view() == old(self).resolver.deps.deep_view()
                + exprs_deps(
                cfg_of(old(self).resolver),
                old(self).mark_src_location,
                children@,
            ),
            is_rewrite_exprs(
                cfg_of(old(self).resolver),
                old(self).mark_src_location,
                children@,
                r@,
            ),
        decreases parent@, 0nat,
    {
        let ghost c = cfg_of(self.resolver);
        let ghost mark = self.mark_src_location;
        let ghost base = self.resolver.deps.deep_view();
        let n = children.len();
        let mut out: Vec<AstNode> = Vec::new();
        proof {
            assert(children@.subrange(0, 0) =~= Seq::<AstNode>::empty());
            assert(is_rewrite_exprs(c, mark, children@.subrange(0, 0), out@));
        }
        let mut i: usize = 0;
        while i < n
            invariant
                0 <= i <= n,
                n == children@.len(),
                cfg_of(self.resolver) == c,
                self.mark_src_location == mark,
                self.resolver.deps.deep_view() == base + exprs_deps(
                    c,
                    mark,
                    children@.subrange(0, i as int),
                ),
                out@.len() == i,
                is_rewrite_exprs(c, mark, children@.subrange(0, i as int), out@),
            decreases n - i,
        {
            let ghost done = children@.subrange(0, i as int);
            let ghost out_before = out@;
            proof {
                assert(decreases_to!(children@ => children@[i as int]));
            }
            let nc = self.fold_expr(&children[i]);
            out.push(nc);
            proof {
                assert(children@.subrange(0, i + 1).drop_last() =~= done);
                assert(children@.subrange(0, i + 1).last() == children@[i as int]);
                assert(out@.drop_last() =~= out_before);
                assert(self.resolver.deps.deep_view() =~= base + exprs_deps(
                    c,
                    mark,
                    children@.subrange(0, i + 1),
                ));
            }
            i = i + 1;
        }
        proof {
            assert(children@.subrange(0, n as int) =~= children@);
        }
        out
    }

    /// Fold the module's top-level items in source order: resolve static
    /// import and export sources (skipping type-only declarations), then
    /// recurse into statements.  Dependencies are recorded in source order.
    #[verifier::loop_isolation(false)]
    pub fn fold_module_items(&mut self, items: Vec<ModuleItem>) -> (r: Vec<ModuleItem>)
        ensures
            cfg_of(final(self).resolver) == cfg_of(old(self).resolver),
            final(self).mark_src_location == old(self).mark_src_location,
            final(self).resolver.deps.deep_view() == old(self).resolver.deps.deep_view()
                + items_deps(cfg_of(old(self).resolver), old(self).mark_src_location, items@),
            r@.len() == items@.len(),
            forall|j: int| 0 <= j < items@.len() ==> is_rewrite_item(
                cfg_of(old(self).resolver),
                old(self).mark_src_location,
                items@[j],
                #[trigger] r@[j],
            ),
    {
        let ghost c = cfg_of(self.resolver);
        let ghost mark = self.mark_src_location;
        let ghost base = self.resolver.deps.deep_view();
        let ghost iv = items@;
        let mut rest = items;
        let mut out: Vec<ModuleItem> = Vec::new();
        let ghost n = iv.len();
        let ghost mut i: int = 0;
        proof {
            assert(rest@ =~= iv.subrange(0, n as int));
            assert(iv.subrange(0, 0) =~= Seq::<ModuleItem>::empty());
        }
        while rest.len() > 0
            invariant
                0 <= i <= n,
                n == iv.len(),
                rest@ == iv.subrange(i as int, n as int),
                cfg_of(self.resolver) == c,
                self.mark_src_location == mark,
                self.resolver.deps.deep_view() == base + items_deps(
                    c,
                    mark,
                    iv.subrange(0, i as int),
                ),
                out@.len() == i,
                forall|j: int| 0 <= j < i ==> is_rewrite_item(c, mark, iv[j], #[trigger] out@[j]),
            decreases rest@.len(),
        {
            let it = rest.remove(0);
            proof {
                assert(it == iv[i as int]);
                assert(rest@ =~= iv.subrange(i + 1, n as int));
                assert(iv.subrange(0, i + 1).drop_last() =~= iv.subrange(0, i as int));
                assert(iv.subrange(0, i + 1).last() == iv[i as int]);
            }
            let new_item: ModuleItem = match it {
                ModuleItem::Import { src, type_only, with_type } => {
                    if type_only {
                        ModuleItem::Import { src, type_only, with_type }
                    } else {
                        let new_src = self.rewrite_lit(&src, &with_type, false);
                        let keep_with = match &with_type {
                            Some(t) => !str_eq(t.as_str(), "rpc"),
                            None => false,
                        };
                        let new_with: Option<String> = if keep_with {
                            clone_opt_string(&with_type)
                        } else {
                            None
                        };
                        proof {
                            assert(new_with == with_stripped(with_type));
                        }
                        ModuleItem::Import { src: new_src, type_only, with_type: new_with }
                    }
                }
                ModuleItem::ExportNamed { src, type_only } => {
                    match src {
                        Some(lit) => {
                            if type_only {
                                ModuleItem::ExportNamed { src: Some(lit), type_only }
                            } else {
                                let none_hint: Option<String> = None;
                                let new_src = self.rewrite_lit(&lit, &none_hint, false);
                                ModuleItem::ExportNamed { src: Some(new_src), type_only }
                            }
                        }
                        None => ModuleItem::ExportNamed { src: None, type_only },
                    }
                }
                ModuleItem::ExportAll { src } => {
                    let none_hint: Option<String> = None;
                    let new_src = self.rewrite_lit(&src, &none_hint, false);
                    ModuleItem::ExportAll { src: new_src }
                }
                ModuleItem::Stmt { expr } => {
                    let new_expr = self.fold_expr(&expr);
                    ModuleItem::Stmt { expr: new_expr }
                }
            };
            out.push(new_item);
            proof {
                assert(self.resolver.deps.deep_view() =~= base + items_deps(
                    c,
                    mark,
                    iv.subrange(0, i + 1),
                ));
                i = i + 1;
            }
        }
        proof {
            assert(i == n);
            assert(iv.subrange(0, n as int) =~= iv);
        }
        out
    }
}

} // verus!
