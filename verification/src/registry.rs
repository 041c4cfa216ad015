//! The extension registry: named, registered transformations.
//!
//! An extension's behaviour is a declarative `Expander` template rather than
//! arbitrary code, so the engine's handling of every template is itself
//! verified. The registry only gathers named extensions; lookup during a run
//! is the resolver's job.

use vstd::prelude::*;
use crate::ast::{MetaItem, Node};

verus! {

/// What a registered extension produces when it is invoked.
#[derive(Debug, PartialEq, Eq)]
pub enum Expander {
    /// emit exactly these nodes, ignoring the invocation's arguments
    Emit(Vec<Node>),
    /// return the annotated node with this attribute appended (modifiers)
    AppendAttr(MetaItem),
    /// the built-in derive unrolling: rewrite `derive(A, B)` on the annotated
    /// node into one `derive_X` attribute per listed trait
    Derive,
}

/// View-level equivalence of expanders.
pub open spec fn expander_eqv(a: Expander, b: Expander) -> bool {
    match (a, b) {
        (Expander::Emit(x), Expander::Emit(y)) => crate::ast::nodes_eqv(x@, y@),
        (Expander::AppendAttr(x), Expander::AppendAttr(y)) => crate::ast::meta_eqv(x, y),
        (Expander::Derive, Expander::Derive) => true,
        _ => false,
    }
}

/// A copy of an expander, equivalent to the original.
pub fn clone_expander(a: &Expander) -> (r: Expander)
    ensures
        expander_eqv(r, *a),
{
    match a {
        Expander::Emit(ns) => Expander::Emit(crate::ast::clone_nodes(ns)),
        Expander::AppendAttr(m) => Expander::AppendAttr(crate::ast::clone_meta(m)),
        Expander::Derive => Expander::Derive,
    }
}

/// A named extension's capability: how its invocation sites look and what
/// shape of result it must produce.
#[derive(Debug, PartialEq, Eq)]
pub enum SyntaxExtension {
    /// function-like: `name!(args)`; no identifier argument allowed
    NormalTT(Expander),
    /// ident-tagged: `name! ident (args)`; the identifier is required
    IdentTT(Expander),
    /// attribute-triggered, producing zero or more sibling nodes
    MultiDecorator(Expander),
    /// attribute-triggered, producing exactly one replacement node
    MultiModifier(Expander),
}

/// An extension together with the name that invokes it.
pub type NamedSyntaxExtension = (String, SyntaxExtension);

/// A collection of extensions to expand with.
#[derive(Debug)]
pub struct Registry {
    pub syntax_exts: Vec<NamedSyntaxExtension>,
}

impl Registry {
    /// An empty registry.
    pub fn new() -> (r: Registry)
        ensures
            r.syntax_exts@.len() == 0,
    {
        Registry { syntax_exts: Vec::new() }
    }

    /// A registry holding the standard extensions; there are none, so it is
    /// empty.
    pub fn with_standard_macros() -> (r: Registry)
        ensures
            r.syntax_exts@.len() == 0,
    {
        let registry = Registry::new();
        registry
    }

    /// Register a function-like extension under `name`.
    pub fn register_macro(&mut self, name: &str, extension: Expander)
        ensures
            final(self).syntax_exts@.len() == old(self).syntax_exts@.len() + 1,
            forall|i: int|
                0 <= i < old(self).syntax_exts@.len() ==> final(self).syntax_exts@[i] == old(
                    self,
                ).syntax_exts@[i],
            final(self).syntax_exts@.last().0@ == name@,
            final(self).syntax_exts@.last().1 == SyntaxExtension::NormalTT(extension),
    {
        let owned: String = name.to_owned();
        self.syntax_exts.push((owned, SyntaxExtension::NormalTT(extension)));
    }

    /// Register an ident-tagged extension under `name`.
    pub fn register_ident(&mut self, name: &str, extension: Expander)
        ensures
            final(self).syntax_exts@.len() == old(self).syntax_exts@.len() + 1,
            forall|i: int|
                0 <= i < old(self).syntax_exts@.len() ==> final(self).syntax_exts@[i] == old(
                    self,
                ).syntax_exts@[i],
            final(self).syntax_exts@.last().0@ == name@,
            final(self).syntax_exts@.last().1 == SyntaxExtension::IdentTT(extension),
    {
        let owned: String = name.to_owned();
        self.syntax_exts.push((owned, SyntaxExtension::IdentTT(extension)));
    }

    /// Register a decorator extension under `name`.
    pub fn register_decorator(&mut self, name: &str, extension: Expander)
        ensures
            final(self).syntax_exts@.len() == old(self).syntax_exts@.len() + 1,
            forall|i: int|
                0 <= i < old(self).syntax_exts@.len() ==> final(self).syntax_exts@[i] == old(
                    self,
                ).syntax_exts@[i],
            final(self).syntax_exts@.last().0@ == name@,
            final(self).syntax_exts@.last().1 == SyntaxExtension::MultiDecorator(extension),
    {
        let owned: String = name.to_owned();
        self.syntax_exts.push((owned, SyntaxExtension::MultiDecorator(extension)));
    }

    /// Register a modifier extension under `name`.
    pub fn register_modifier(&mut self, name: &str, extension: Expander)
        ensures
            final(self).syntax_exts@.len() == old(self).syntax_exts@.len() + 1,
            forall|i: int|
                0 <= i < old(self).syntax_exts@.len() ==> final(self).syntax_exts@[i] == old(
                    self,
                ).syntax_exts@[i],
            final(self).syntax_exts@.last().0@ == name@,
            final(self).syntax_exts@.last().1 == SyntaxExtension::MultiModifier(extension),
    {
        let owned: String = name.to_owned();
        self.syntax_exts.push((owned, SyntaxExtension::MultiModifier(extension)));
    }
}

} // verus!
