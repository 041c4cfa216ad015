//! The built-in `derive` extension: unrolls a `derive(A, B, ...)` attribute
//! into one `derive_X` pseudo-attribute per listed trait, so that each derived
//! behaviour can be handled independently by a registered modifier without
//! teaching the engine any trait semantics.

use vstd::prelude::*;
use crate::ast::{attr_eqv, Elem, MetaItem, Node, Span};
use crate::error::{DiagKind, ExpandError};
use crate::expand::{cx_frame, ExtCtxt};
use crate::registry::{Expander, SyntaxExtension};
use crate::resolver::Resolver;
use crate::strutil::{str_concat, str_eq_str};

verus! {

broadcast use vstd::std_specs::vec::group_vec_axioms;

/// Whether `name` is one of the traits the language derives itself.
pub open spec fn spec_is_builtin_trait(s: Seq<char>) -> bool {
    ||| s == "Clone"@
    ||| s == "Hash"@
    ||| s == "RustcEncodable"@
    ||| s == "RustcDecodable"@
    ||| s == "PartialEq"@
    ||| s == "Eq"@
    ||| s == "PartialOrd"@
    ||| s == "Ord"@
    ||| s == "Debug"@
    ||| s == "Default"@
    ||| s == "FromPrimitive"@
    ||| s == "Send"@
    ||| s == "Sync"@
    ||| s == "Copy"@
    ||| s == "Encodable"@
    ||| s == "Decodable"@
}

/// Whether `name` is one of the traits the language derives itself; entries
/// naming anything else need the custom-derive capability to be enabled.
pub fn is_builtin_trait(name: &str) -> (r: bool)
    ensures
        r == spec_is_builtin_trait(name@),
{
    if str_eq_str(name, "Clone") {
        return true;
    }
    if str_eq_str(name, "Hash") {
        return true;
    }
    if str_eq_str(name, "RustcEncodable") {
        return true;
    }
    if str_eq_str(name, "RustcDecodable") {
        return true;
    }
    if str_eq_str(name, "PartialEq") {
        return true;
    }
    if str_eq_str(name, "Eq") {
        return true;
    }
    if str_eq_str(name, "PartialOrd") {
        return true;
    }
    if str_eq_str(name, "Ord") {
        return true;
    }
    if str_eq_str(name, "Debug") {
        return true;
    }
    if str_eq_str(name, "Default") {
        return true;
    }
    if str_eq_str(name, "FromPrimitive") {
        return true;
    }
    if str_eq_str(name, "Send") {
        return true;
    }
    if str_eq_str(name, "Sync") {
        return true;
    }
    if str_eq_str(name, "Copy") {
        return true;
    }
    if str_eq_str(name, "Encodable") {
        return true;
    }
    if str_eq_str(name, "Decodable") {
        return true;
    }
    false
}

/// The name of the pseudo-attribute that stands for deriving trait `t`.
pub open spec fn derive_attr_name(t: Seq<char>) -> Seq<char> {
    "derive_"@ + t
}

/// The entry is a bare word naming a trait the run may derive: a built-in
/// trait, or anything once custom derives are enabled.
pub open spec fn derive_entry_allowed(m: MetaItem, allow_custom: bool) -> bool {
    match m {
        MetaItem::Word(t) => allow_custom || spec_is_builtin_trait(t@),
        _ => false,
    }
}

/// The word at a derive entry.
pub open spec fn entry_word(m: MetaItem) -> Seq<char> {
    match m {
        MetaItem::Word(t) => t@,
        MetaItem::NameValue(t, _) => t@,
        MetaItem::List(t, _) => t@,
    }
}

/// The attribute is the pseudo-attribute `derive_T` for trait name `t`.
pub open spec fn is_derive_marker(a: crate::ast::Attribute, t: Seq<char>) -> bool {
    match a.meta {
        MetaItem::Word(n) => n@ == derive_attr_name(t),
        _ => false,
    }
}

/// Rewrites `derive(A, B, ...)` on an item into one `derive_X` attribute per
/// listed trait, pushed onto the item's attribute list in reverse list order,
/// so `derive(A, B)` pushes `derive_B` and then `derive_A`. Entries that are
/// not bare words are reported and skipped; entries naming no built-in trait
/// are reported and skipped unless custom derives are enabled. An empty list
/// is reported as a warning. A node that is not an item is reported and
/// returned untouched.
pub fn expand_derive(cx: &mut ExtCtxt, span: Span, mitem: &MetaItem, item: Node) -> (r: Result<
    Node,
    ExpandError,
>)
    ensures
        cx_frame(*old(cx), *final(cx)),
        final(cx).next_mark == old(cx).next_mark,
        match r {
            Result::Ok(out) => (item matches Node::Elem(e) ==> {
                &&& out matches Node::Elem(oe)
                &&& oe.kind == e.kind
                &&& oe.ident == e.ident
                &&& oe.children == e.children
                &&& oe.span == e.span
                &&& oe.attrs@.len() >= e.attrs@.len()
                &&& (forall|k: int| 0 <= k < e.attrs@.len() ==> oe.attrs@[k] == e.attrs@[k])
            }) && (!(item is Elem) ==> out == item),
            Result::Err(e) => e == ExpandError::IdentityExhausted
                && final(cx).resolver.next_node_id == u64::MAX,
        },
        final(cx).resolver.next_node_id as int <= old(cx).resolver.next_node_id as int + (
        match mitem {
            MetaItem::List(_, ts) => ts@.len() as int,
            _ => 0int,
        }),
        (old(cx).resolver.next_node_id as int + (match mitem {
            MetaItem::List(_, ts) => ts@.len() as int,
            _ => 0int,
        }) <= u64::MAX as int) ==> r is Ok,
        match (item, mitem) {
            (Node::Elem(e), MetaItem::List(nm, ts)) => (r is Ok && forall|k: int|
                0 <= k < ts@.len() ==> derive_entry_allowed(
                    ts@[k],
                    old(cx).ecfg.allow_custom_derive,
                )) ==> {
                &&& r->Ok_0->Elem_0.attrs@.len() == e.attrs@.len() + ts@.len()
                &&& (forall|k: int|
                    0 <= k < ts@.len() ==> is_derive_marker(
                        #[trigger] r->Ok_0->Elem_0.attrs@[e.attrs@.len() + k],
                        entry_word(ts@[ts@.len() - 1 - k]),
                    ))
            },
            _ => true,
        },
{
    let mut e = match item {
        Node::Elem(e) => e,
        other => {
            cx.diag(span, DiagKind::MalformedInvocation);
            return Result::Ok(other);
        },
    };
    let ghost e0 = e;
    let ghost attrs0 = e.attrs@;
    match mitem {
        MetaItem::NameValue(_, _) => {
            cx.diag(span, DiagKind::MalformedDeriveEntry);
            return Result::Ok(Node::Elem(e));
        },
        MetaItem::Word(_) => {
            cx.diag(span, DiagKind::EmptyDeriveList);
            return Result::Ok(Node::Elem(e));
        },
        MetaItem::List(_, traits) => {
            if traits.len() == 0 {
                cx.diag(span, DiagKind::EmptyDeriveList);
            }
            let n: usize = traits.len();
            let mut i: usize = n;
            while i > 0
                invariant
                    n == traits@.len(),
                    i <= n,
                    e.attrs@.len() >= attrs0.len(),
                    e.kind == e0.kind && e.ident == e0.ident && e.children == e0.children
                        && e.span == e0.span,
                    cx_frame(*old(cx), *cx),
                    cx.next_mark == old(cx).next_mark,
                    cx.resolver.next_node_id as int <= old(cx).resolver.next_node_id as int + (n
                        - i),
                    mitem matches MetaItem::List(_, l) && l@ == traits@,
                    forall|k: int| 0 <= k < attrs0.len() ==> e.attrs@[k] == attrs0[k],
                    (forall|k: int|
                        0 <= k < n ==> derive_entry_allowed(
                            traits@[k],
                            old(cx).ecfg.allow_custom_derive,
                        )) ==> {
                        &&& e.attrs@.len() == attrs0.len() + (n - i)
                        &&& (forall|k: int|
                            0 <= k < n - i ==> is_derive_marker(
                                #[trigger] e.attrs@[attrs0.len() + k],
                                entry_word(traits@[n - 1 - k]),
                            ))
                    },
                decreases i,
            {
                i = i - 1;
                let tname: &String = match &traits[i] {
                    MetaItem::Word(t) => t,
                    _ => {
                        cx.diag(span, DiagKind::MalformedDeriveEntry);
                        continue;
                    },
                };
                if !(is_builtin_trait(tname.as_str()) || cx.ecfg.allow_custom_derive) {
                    cx.diag(span, DiagKind::CustomDeriveDisabled);
                    continue;
                }
                let marker_name = str_concat("derive_", tname.as_str());
                let attr = match cx.attribute(span, MetaItem::Word(marker_name)) {
                    Result::Ok(a) => a,
                    Result::Err(er) => {
                        return Result::Err(er);
                    },
                };
                e.attrs.push(attr);
            }
            Result::Ok(Node::Elem(e))
        },
    }
}

/// Registers the built-in `derive` extension as a modifier, under the name
/// `derive`.
pub fn register_all(resolver: &mut Resolver)
    ensures
        final(resolver).extensions@.len() == old(resolver).extensions@.len() + 1,
        forall|i: int|
            0 <= i < old(resolver).extensions@.len() ==> final(resolver).extensions@[i] == old(
                resolver,
            ).extensions@[i],
        final(resolver).extensions@.last().0@ == "derive"@,
        final(resolver).extensions@.last().1 == SyntaxExtension::MultiModifier(Expander::Derive),
        final(resolver).derive_modes == old(resolver).derive_modes,
        final(resolver).next_node_id == old(resolver).next_node_id,
{
    let name: String = "derive".to_owned();
    resolver.extensions.push((name, SyntaxExtension::MultiModifier(Expander::Derive)));
}

} // verus!
