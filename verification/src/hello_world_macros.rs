//! Two small sample extensions: a function-like one that expands to a fixed
//! string literal, and a modifier that turns its attribute into
//! `#[derive(Debug)]`.

use vstd::prelude::*;
use crate::ast::{MetaItem, Node};
use crate::engine::Registry;
use crate::registry::{Expander, SyntaxExtension};

verus! {

/// Registers the two sample extensions: `syntex_macro` and
/// `syntex_modifier`.
pub fn register(registry: &mut Registry)
    ensures
        final(registry).syntax_exts@.len() == old(registry).syntax_exts@.len() + 2,
        forall|i: int|
            0 <= i < old(registry).syntax_exts@.len() ==> final(registry).syntax_exts@[i] == old(
                registry,
            ).syntax_exts@[i],
        final(registry).syntax_exts@[old(registry).syntax_exts@.len() as int].0@
            == "syntex_macro"@,
        (final(registry).syntax_exts@[old(registry).syntax_exts@.len() as int].1 matches
            SyntaxExtension::NormalTT(Expander::Emit(ns)) && ns@.len() == 1 && (ns@[0] matches
            Node::Lit(s) && s@ == "hello world"@)),
        final(registry).syntax_exts@.last().0@ == "syntex_modifier"@,
        (final(registry).syntax_exts@.last().1 matches SyntaxExtension::MultiModifier(
            Expander::AppendAttr(m),
        ) && (m matches MetaItem::List(nm, items) && nm@ == "derive"@ && items@.len() == 1 && (
        items@[0] matches MetaItem::Word(w) && w@ == "Debug"@))),
        final(registry).cfg == old(registry).cfg,
        final(registry).attrs == old(registry).attrs,
        final(registry).pre_expansion_passes == old(registry).pre_expansion_passes,
        final(registry).post_expansion_passes == old(registry).post_expansion_passes,
{
    registry.add_macro("syntex_macro", expand_macro());
    registry.add_modifier("syntex_modifier", expand_modifier());
}

/// `syntex_macro!()` expands to the string literal `"hello world"`.
pub fn expand_macro() -> (r: Expander)
    ensures
        r matches Expander::Emit(ns) && ns@.len() == 1 && (ns@[0] matches Node::Lit(s) && s@
            == "hello world"@),
{
    let lit: String = "hello world".to_owned();
    Expander::Emit(vec![Node::Lit(lit)])
}

/// `#[syntex_modifier]` on an item appends `#[derive(Debug)]` to it.
pub fn expand_modifier() -> (r: Expander)
    ensures
        r matches Expander::AppendAttr(m) && (m matches MetaItem::List(nm, items) && nm@
            == "derive"@ && items@.len() == 1 && (items@[0] matches MetaItem::Word(w) && w@
            == "Debug"@)),
{
    let debug: String = "Debug".to_owned();
    let name: String = "derive".to_owned();
    Expander::AppendAttr(MetaItem::List(name, vec![MetaItem::Word(debug)]))
}

} // verus!
