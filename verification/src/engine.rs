//! The host-facing registry: gathers extensions, configuration predicates,
//! extra attributes and rewriting passes, then runs one whole expansion.

use vstd::prelude::*;
use crate::ast::{AttrStyle, Attribute, Crate, MetaItem};
use crate::error::{DiagKind, Error, ExpandError};
use crate::expand::{expand_crate, ExpansionConfig, ExtCtxt};
use crate::registry::{Expander, NamedSyntaxExtension, SyntaxExtension};
use crate::resolver::Resolver;
use crate::squash_derive::squash_derive;

verus! {

broadcast use vstd::std_specs::vec::group_vec_axioms;

/// A whole-tree rewriting pass run before or after expansion.
#[derive(Clone, Copy, Debug, PartialEq, Eq, Structural)]
pub enum Pass {
    /// squash `derive_X` pseudo-attributes into `derive(X, ...)` lists
    SquashDerive,
}

/// Run one pass over the tree.
pub fn run_pass(pass: Pass, krate: Crate) -> (r: Crate)
    ensures
        r.items@.len() == krate.items@.len(),
        r.attrs == krate.attrs,
        r.span == krate.span,
        crate::ast::placeholders_free(krate.items@) ==> crate::ast::placeholders_free(r.items@),
{
    match pass {
        Pass::SquashDerive => squash_derive(krate),
    }
}

/// Everything one expansion run is set up with: the extensions, the enabled
/// configuration predicates, extra attributes for the tree, and the passes
/// around expansion.
#[derive(Debug)]
pub struct Registry {
    pub syntax_exts: Vec<NamedSyntaxExtension>,
    pub pre_expansion_passes: Vec<Pass>,
    pub post_expansion_passes: Vec<Pass>,
    pub cfg: Vec<MetaItem>,
    pub attrs: Vec<Attribute>,
    pub next_attr_id: u64,
}

impl Registry {
    /// An empty registry.
    pub fn new() -> (r: Registry)
        ensures
            r.syntax_exts@.len() == 0,
            r.pre_expansion_passes@.len() == 0,
            r.post_expansion_passes@.len() == 0,
            r.cfg@.len() == 0,
            r.attrs@.len() == 0,
            r.next_attr_id == 0,
    {
        Registry {
            syntax_exts: Vec::new(),
            pre_expansion_passes: Vec::new(),
            post_expansion_passes: Vec::new(),
            cfg: Vec::new(),
            attrs: Vec::new(),
            next_attr_id: 0,
        }
    }

    /// Enables one configuration predicate for the run.
    pub fn add_cfg(&mut self, cfg: MetaItem)
        ensures
            final(self).cfg@ == old(self).cfg@.push(cfg),
            final(self).syntax_exts == old(self).syntax_exts,
            final(self).attrs == old(self).attrs,
            final(self).pre_expansion_passes == old(self).pre_expansion_passes,
            final(self).post_expansion_passes == old(self).post_expansion_passes,
    {
        self.cfg.push(cfg);
    }

    /// Adds one unconditional outer attribute to the tree before the first
    /// collection pass.
    pub fn add_attr(&mut self, attr: MetaItem)
        requires
            old(self).next_attr_id < u64::MAX,
        ensures
            final(self).attrs@.len() == old(self).attrs@.len() + 1,
            forall|i: int|
                0 <= i < old(self).attrs@.len() ==> final(self).attrs@[i] == old(self).attrs@[i],
            final(self).attrs@.last().meta == attr,
            final(self).attrs@.last().style == AttrStyle::Outer,
            final(self).attrs@.last().is_sugared_doc == false,
            final(self).attrs@.last().span.lo == 0 && final(self).attrs@.last().span.hi == 0,
            final(self).syntax_exts == old(self).syntax_exts,
            final(self).cfg == old(self).cfg,
            final(self).pre_expansion_passes == old(self).pre_expansion_passes,
            final(self).post_expansion_passes == old(self).post_expansion_passes,
    {
        let id = self.next_attr_id;
        self.next_attr_id = self.next_attr_id + 1;
        self.attrs.push(
            Attribute {
                id,
                style: AttrStyle::Outer,
                meta: attr,
                is_sugared_doc: false,
                span: crate::ast::dummy_span(),
            },
        );
    }

    /// Registers a function-like extension under `name`.
    pub fn add_macro(&mut self, name: &str, extension: Expander)
        ensures
            final(self).syntax_exts@.len() == old(self).syntax_exts@.len() + 1,
            forall|i: int|
                0 <= i < old(self).syntax_exts@.len() ==> final(self).syntax_exts@[i] == old(
                    self,
                ).syntax_exts@[i],
            final(self).syntax_exts@.last().0@ == name@,
            final(self).syntax_exts@.last().1 == SyntaxExtension::NormalTT(extension),
            final(self).cfg == old(self).cfg,
            final(self).attrs == old(self).attrs,
            final(self).pre_expansion_passes == old(self).pre_expansion_passes,
            final(self).post_expansion_passes == old(self).post_expansion_passes,
            final(self).next_attr_id == old(self).next_attr_id,
    {
        let owned: String = name.to_owned();
        self.syntax_exts.push((owned, SyntaxExtension::NormalTT(extension)));
    }

    /// Registers an ident-tagged extension under `name`.
    pub fn add_ident_macro(&mut self, name: &str, extension: Expander)
        ensures
            final(self).syntax_exts@.len() == old(self).syntax_exts@.len() + 1,
            forall|i: int|
                0 <= i < old(self).syntax_exts@.len() ==> final(self).syntax_exts@[i] == old(
                    self,
                ).syntax_exts@[i],
            final(self).syntax_exts@.last().0@ == name@,
            final(self).syntax_exts@.last().1 == SyntaxExtension::IdentTT(extension),
            final(self).cfg == old(self).cfg,
            final(self).attrs == old(self).attrs,
            final(self).pre_expansion_passes == old(self).pre_expansion_passes,
            final(self).post_expansion_passes == old(self).post_expansion_passes,
            final(self).next_attr_id == old(self).next_attr_id,
    {
        let owned: String = name.to_owned();
        self.syntax_exts.push((owned, SyntaxExtension::IdentTT(extension)));
    }

    /// Registers a decorator extension under `name`.
    pub fn add_decorator(&mut self, name: &str, extension: Expander)
        ensures
            final(self).syntax_exts@.len() == old(self).syntax_exts@.len() + 1,
            forall|i: int|
                0 <= i < old(self).syntax_exts@.len() ==> final(self).syntax_exts@[i] == old(
                    self,
                ).syntax_exts@[i],
            final(self).syntax_exts@.last().0@ == name@,
            final(self).syntax_exts@.last().1 == SyntaxExtension::MultiDecorator(extension),
            final(self).cfg == old(self).cfg,
            final(self).attrs == old(self).attrs,
            final(self).pre_expansion_passes == old(self).pre_expansion_passes,
            final(self).post_expansion_passes == old(self).post_expansion_passes,
            final(self).next_attr_id == old(self).next_attr_id,
    {
        let owned: String = name.to_owned();
        self.syntax_exts.push((owned, SyntaxExtension::MultiDecorator(extension)));
    }

    /// Registers a modifier extension under `name`.
    pub fn add_modifier(&mut self, name: &str, extension: Expander)
        ensures
            final(self).syntax_exts@.len() == old(self).syntax_exts@.len() + 1,
            forall|i: int|
                0 <= i < old(self).syntax_exts@.len() ==> final(self).syntax_exts@[i] == old(
                    self,
                ).syntax_exts@[i],
            final(self).syntax_exts@.last().0@ == name@,
            final(self).syntax_exts@.last().1 == SyntaxExtension::MultiModifier(extension),
            final(self).cfg == old(self).cfg,
            final(self).attrs == old(self).attrs,
            final(self).pre_expansion_passes == old(self).pre_expansion_passes,
            final(self).post_expansion_passes == old(self).post_expansion_passes,
            final(self).next_attr_id == old(self).next_attr_id,
    {
        let owned: String = name.to_owned();
        self.syntax_exts.push((owned, SyntaxExtension::MultiModifier(extension)));
    }

    /// Adds a pass run before expansion.
    pub fn add_pre_expansion_pass(&mut self, pass: Pass)
        ensures
            final(self).pre_expansion_passes@ == old(self).pre_expansion_passes@.push(pass),
            final(self).post_expansion_passes == old(self).post_expansion_passes,
            final(self).syntax_exts == old(self).syntax_exts,
            final(self).cfg == old(self).cfg,
            final(self).attrs == old(self).attrs,
            final(self).next_attr_id == old(self).next_attr_id,
    {
        self.pre_expansion_passes.push(pass)
    }

    /// Adds a pass run after expansion.
    pub fn add_post_expansion_pass(&mut self, pass: Pass)
        ensures
            final(self).post_expansion_passes@ == old(self).post_expansion_passes@.push(pass),
            final(self).pre_expansion_passes == old(self).pre_expansion_passes,
            final(self).syntax_exts == old(self).syntax_exts,
            final(self).cfg == old(self).cfg,
            final(self).attrs == old(self).attrs,
            final(self).next_attr_id == old(self).next_attr_id,
    {
        self.post_expansion_passes.push(pass)
    }

    /// Runs one whole expansion over a parsed tree: the registered attributes
    /// join the tree's own, the pre-expansion passes run, every invocation is
    /// expanded, `derive_X` markers are squashed back into `derive` lists,
    /// and the post-expansion passes run. Fails with the run-global fault
    /// that aborted expansion, or with a parse-grade error when node-local
    /// faults were reported; a success holds no placeholder anywhere. A bare
    /// tree — no invocation sites and no attributes — is owed success, and
    /// comes back unchanged when no passes are registered.
    pub fn expand(self, crate_name: &str, krate: Crate) -> (r: Result<Crate, Error>)
        ensures
            r matches Result::Ok(out) ==> {
                &&& crate::ast::placeholders_free(out.items@)
                &&& out.span == krate.span
                &&& out.attrs@.len() == krate.attrs@.len() + self.attrs@.len()
                &&& (forall|i: int| 0 <= i < krate.attrs@.len() ==> out.attrs@[i] == krate.attrs@[i])
            },
            !(r matches Result::Err(Error::Io(_))),
            (crate::ast::bare_nodes(krate.items@) && self.pre_expansion_passes@.len() == 0
                && self.post_expansion_passes@.len() == 0) ==> (r matches Result::Ok(out)
                && crate::ast::nodes_eqv(out.items@, krate.items@)),
    {
        let ghost items0 = krate.items@;
        let ghost clean = crate::ast::bare_nodes(items0) && self.pre_expansion_passes@.len() == 0
            && self.post_expansion_passes@.len() == 0;
        let Registry {
            syntax_exts,
            pre_expansion_passes,
            post_expansion_passes,
            cfg,
            attrs,
            next_attr_id: _,
        } = self;
        let mut tree = krate;
        let mut attrs = attrs;
        tree.attrs.append(&mut attrs);
        let ghost full_attrs = tree.attrs@;
        let ghost span0 = tree.span;

        let mut pre = pre_expansion_passes;
        while pre.len() > 0
            invariant
                tree.attrs@ == full_attrs,
                tree.span == span0,
                clean ==> pre@.len() == 0 && tree.items@ == items0,
                clean == (crate::ast::bare_nodes(krate.items@)
                    && self.pre_expansion_passes@.len() == 0
                    && self.post_expansion_passes@.len() == 0),
            decreases pre@.len(),
        {
            let pass = pre.remove(0);
            tree = run_pass(pass, tree);
        }

        let mut resolver = Resolver::new();
        crate::deriving::register_all(&mut resolver);
        let ecfg = ExpansionConfig::default(crate_name.to_owned());
        let mut cx = ExtCtxt::new(resolver, cfg, ecfg);

        let tree = match expand_crate(&mut cx, syntax_exts, tree) {
            Result::Ok(k) => k,
            Result::Err(e) => {
                proof {
                    if clean {
                        // a bare tree owes a successful run
                        crate::expand::lemma_bare_fully_expanded_nodes(
                            items0,
                            crate::expand::table_of(cx),
                        );
                    }
                }
                return Result::Err(Error::Expand(e));
            },
        };
        proof {
            if clean {
                crate::expand::lemma_bare_fully_expanded_nodes(
                    items0,
                    crate::expand::table_of(cx),
                );
            }
        }
        let ghost expanded_items = tree.items@;

        let tree = squash_derive(tree);
        proof {
            if clean {
                // nothing of the bare tree was altered, so the squash keeps
                // it too
                crate::ast::lemma_eqv_preserves_bare_nodes(expanded_items, items0);
                crate::squash_derive::lemma_squash_of_bare(expanded_items, tree.items@);
                crate::ast::lemma_nodes_eqv_trans(tree.items@, expanded_items, items0);
            }
        }

        let mut tree = tree;
        let mut post = post_expansion_passes;
        while post.len() > 0
            invariant
                crate::ast::placeholders_free(tree.items@),
                tree.attrs@ == full_attrs,
                tree.span == span0,
                clean ==> post@.len() == 0 && crate::ast::nodes_eqv(tree.items@, items0),
                clean == (crate::ast::bare_nodes(krate.items@)
                    && self.pre_expansion_passes@.len() == 0
                    && self.post_expansion_passes@.len() == 0),
            decreases post@.len(),
        {
            let pass = post.remove(0);
            tree = run_pass(pass, tree);
        }

        // node-local faults were recovered during the run; report them now,
        // warnings aside
        let n: usize = cx.diagnostics.len();
        let mut i: usize = 0;
        while i < n
            invariant
                n == cx.diagnostics@.len(),
                i <= n,
                clean ==> n == 0,
                clean == (crate::ast::bare_nodes(krate.items@)
                    && self.pre_expansion_passes@.len() == 0
                    && self.post_expansion_passes@.len() == 0),
            decreases n - i,
        {
            let is_error = match cx.diagnostics[i].kind {
                DiagKind::EmptyDeriveList => false,
                _ => true,
            };
            if is_error {
                return Result::Err(Error::Parse);
            }
            i += 1;
        }
        Result::Ok(tree)
    }
}

} // verus!
