//! The attribute normalizer: the decorator/modifier/derive pipeline.
//!
//! Applied to a node once an attribute-triggered invocation of it is
//! dispatched, attribute by attribute in original order: a conditional
//! `cfg_attr(COND, SPEC)` wrapper is split into an unconditional `SPEC` for
//! lookup plus, if `SPEC` stays unhandled, a residual wrapper re-attached to
//! the node; a `derive` list is unrolled entry by entry in reverse list
//! order; every other attribute is routed to the decorator or modifier it
//! resolves to, or preserved verbatim when it resolves to neither.

use vstd::prelude::*;
use crate::ast::{
    attr_eqv, meta_eqv, metas_eqv, node_eqv, nodes_eqv, Attribute, Elem, MetaItem, Node, Span,
    clone_meta, clone_metas, clone_node, clone_nodes,
};
use crate::error::{DiagKind, Diagnostic, ExpandError};
use crate::expand::{cx_frame, supply_exhausted, table_of, ExtCtxt};
use crate::registry::{clone_expander, Expander, SyntaxExtension};
use crate::resolver::{find_ext, resolves_to_attr_ext};

verus! {

broadcast use vstd::std_specs::vec::group_vec_axioms;

/// How many attributes the node carries.
pub open spec fn attrs_len_of(n: Node) -> nat {
    match n {
        Node::Elem(e) => e.attrs@.len(),
        Node::MacCall(mc) => mc.attrs@.len(),
        _ => 0,
    }
}

/// The name `nm` is registered as a modifier that emits a fixed list of
/// other than exactly one node, which no caller's tree shape could take.
pub open spec fn arity_violation(
    t: Seq<crate::registry::NamedSyntaxExtension>,
    nm: Seq<char>,
) -> bool {
    match find_ext(t, nm) {
        Option::Some(SyntaxExtension::MultiModifier(Expander::Emit(ns))) => ns@.len() != 1,
        _ => false,
    }
}

/// How many nodes the modifier registered under `nm` emits.
pub open spec fn emit_arity(
    t: Seq<crate::registry::NamedSyntaxExtension>,
    nm: Seq<char>,
) -> nat {
    match find_ext(t, nm) {
        Option::Some(SyntaxExtension::MultiModifier(Expander::Emit(ns))) => ns@.len(),
        _ => 0,
    }
}

/// The attribute is a conditional wrapper: `cfg_attr(COND, SPEC)`.
pub open spec fn is_cfg_attr_wrapper(a: Attribute) -> bool {
    a.meta matches MetaItem::List(n, v) && n@ == "cfg_attr"@ && v@.len() == 2
}

/// The sibling nodes the decorator registered under `nm` emits.
pub open spec fn deco_template(
    t: Seq<crate::registry::NamedSyntaxExtension>,
    nm: Seq<char>,
) -> Seq<Node> {
    match find_ext(t, nm) {
        Option::Some(SyntaxExtension::MultiDecorator(Expander::Emit(ns))) => ns@,
        _ => Seq::empty(),
    }
}

/// The condition of a conditional wrapper.
pub open spec fn cfg_cond(a: Attribute) -> MetaItem {
    a.meta->List_1@[0]
}

/// The wrapped inner attribute specification of a conditional wrapper.
pub open spec fn cfg_inner(a: Attribute) -> MetaItem {
    a.meta->List_1@[1]
}

/// The node carries exactly one attribute: a conditional wrapper whose inner
/// specification nothing handles. Splitting it leaves a residual wrapper.
pub open spec fn lone_unhandled_cfg_attr(
    t: Seq<crate::registry::NamedSyntaxExtension>,
    item: Node,
) -> bool {
    &&& item matches Node::Elem(e)
    &&& e.attrs@.len() == 1
    &&& is_cfg_attr_wrapper(e.attrs@[0])
    &&& cfg_inner(e.attrs@[0]).spec_name() != "derive"@
    &&& !resolves_to_attr_ext(t, cfg_inner(e.attrs@[0]).spec_name())
}

/// The node carries exactly one attribute: a conditional wrapper whose inner
/// specification resolves to a decorator emitting bare items. Splitting it
/// wraps each emitted sibling in the wrapper's condition.
pub open spec fn lone_decorated_cfg_attr(
    t: Seq<crate::registry::NamedSyntaxExtension>,
    item: Node,
) -> bool {
    &&& item matches Node::Elem(e)
    &&& e.attrs@.len() == 1
    &&& is_cfg_attr_wrapper(e.attrs@[0])
    &&& cfg_inner(e.attrs@[0]).spec_name() != "derive"@
    &&& (match find_ext(t, cfg_inner(e.attrs@[0]).spec_name()) {
        Option::Some(
            SyntaxExtension::MultiDecorator(Expander::Emit(ns)),
        ) => crate::ast::bare_nodes(ns@) && (forall|j: int| 0 <= j < ns@.len() ==> ns@[j] is Elem),
        _ => false,
    })
}

/// `n` is the template item `tpl` wrapped in exactly one `cfg(c)` attribute,
/// the condition untouched.
pub open spec fn cfg_wrapped_sibling(n: Node, tpl: Node, c: MetaItem) -> bool {
    &&& n matches Node::Elem(e)
    &&& tpl matches Node::Elem(te)
    &&& e.kind == te.kind
    &&& crate::ast::opt_ident_eqv(e.ident, te.ident)
    &&& nodes_eqv(e.children@, te.children@)
    &&& e.span == te.span
    &&& e.attrs@.len() == 1
    &&& (e.attrs@[0].meta matches MetaItem::List(nm, parts) && nm@ == "cfg"@ && parts@.len() == 1
        && meta_eqv(parts@[0], c))
}

/// No attribute on the list is a conditional wrapper, a derive list, or
/// resolvable: the pipeline can handle none of them, so all are preserved.
pub open spec fn attrs_plain_inert(
    t: Seq<crate::registry::NamedSyntaxExtension>,
    attrs: Seq<Attribute>,
) -> bool {
    forall|k: int|
        0 <= k < attrs.len() ==> (!is_cfg_attr_wrapper(#[trigger] attrs[k])
            && attrs[k].meta.spec_name() != "derive"@ && !resolves_to_attr_ext(
            t,
            attrs[k].meta.spec_name(),
        ))
}

/// The node's first attribute is neither a conditional wrapper nor a derive
/// list, and names a modifier whose emitted arity no tree shape could take:
/// processing the node must abort.
pub open spec fn first_attr_arity_violation(
    t: Seq<crate::registry::NamedSyntaxExtension>,
    item: Node,
) -> bool {
    item matches Node::Elem(e) && e.attrs@.len() > 0 && !is_cfg_attr_wrapper(e.attrs@[0])
        && e.attrs@[0].meta.spec_name() != "derive"@ && arity_violation(
        t,
        e.attrs@[0].meta.spec_name(),
    )
}

/// A meta item list in reverse order, element for element.
pub fn reverse_metas(v: Vec<MetaItem>) -> (r: Vec<MetaItem>)
    ensures
        r@.len() == v@.len(),
        forall|k: int| 0 <= k < v@.len() ==> r@[k] == v@[v@.len() - 1 - k],
{
    let mut v = v;
    let ghost v0 = v@;
    let mut out: Vec<MetaItem> = Vec::new();
    let n: usize = v.len();
    let mut i: usize = 0;
    while i < n
        invariant
            v0.len() == n,
            i <= n,
            v@ == v0.subrange(0, (n - i) as int),
            out@.len() == i,
            forall|k: int| 0 <= k < i ==> out@[k] == v0[n - 1 - k],
        decreases n - i,
    {
        let last = match v.pop() {
            Option::Some(x) => x,
            Option::None => {
                proof {
                    assert(false);
                }
                return out;
            },
        };
        proof {
            assert(v0.subrange(0, (n - i) as int).last() == v0[n - 1 - i]);
            assert(v0.subrange(0, (n - i) as int).drop_last() =~= v0.subrange(
                0,
                (n - (i + 1)) as int,
            ));
        }
        out.push(last);
        i += 1;
    }
    out
}

/// Push one attribute onto the node, if it is an element; any other node
/// cannot carry the attribute and is reported.
fn push_attr_on(cx: &mut ExtCtxt, item: Node, attr: Attribute, span: Span) -> (r: Node)
    ensures
        cx_frame(*old(cx), *final(cx)),
        final(cx).next_mark == old(cx).next_mark,
        item is Elem ==> {
            &&& r is Elem
            &&& r->Elem_0.attrs@ == item->Elem_0.attrs@.push(attr)
            &&& r->Elem_0.kind == item->Elem_0.kind
            &&& r->Elem_0.ident == item->Elem_0.ident
            &&& r->Elem_0.children == item->Elem_0.children
            &&& r->Elem_0.span == item->Elem_0.span
        },
        !(item is Elem) ==> r == item,
{
    match item {
        Node::Elem(mut e) => {
            e.attrs.push(attr);
            Node::Elem(e)
        },
        other => {
            cx.diag(span, DiagKind::MalformedInvocation);
            other
        },
    }
}

/// Apply a modifier's expander to the node it annotates. The result is the
/// modifier's raw output; the caller holds it to exactly one node.
fn apply_modifier(cx: &mut ExtCtxt, exp: &Expander, attr: &Attribute, item: Node) -> (r: Result<
    Vec<Node>,
    ExpandError,
>)
    ensures
        cx_frame(*old(cx), *final(cx)),
        final(cx).next_mark == old(cx).next_mark,
        exp is Emit ==> r is Ok,
        match r {
            Result::Ok(out) => {
                &&& (exp matches Expander::Emit(ns) ==> out@.len() == ns@.len())
                &&& (exp is AppendAttr ==> out@.len() == 1)
                &&& (exp is Derive ==> out@.len() == 1)
            },
            Result::Err(e) => e == ExpandError::IdentityExhausted && supply_exhausted(*final(cx)),
        },
{
    match exp {
        Expander::Emit(ns) => Result::Ok(clone_nodes(ns)),
        Expander::AppendAttr(meta) => {
            let a = match cx.attribute(attr.span, clone_meta(meta)) {
                Result::Ok(a) => a,
                Result::Err(e) => {
                    return Result::Err(e);
                },
            };
            Result::Ok(vec![push_attr_on(cx, item, a, attr.span)])
        },
        Expander::Derive => {
            let out = match crate::deriving::expand_derive(cx, attr.span, &attr.meta, item) {
                Result::Ok(n) => n,
                Result::Err(e) => {
                    return Result::Err(e);
                },
            };
            Result::Ok(vec![out])
        },
    }
}

/// Apply a decorator's expander beside the node it annotates. The result is
/// the list of sibling nodes the decorator emits; the annotated node itself
/// stays where it is.
fn apply_decorator(cx: &mut ExtCtxt, exp: &Expander, attr: &Attribute, item: &Node) -> (r: Result<
    Vec<Node>,
    ExpandError,
>)
    ensures
        cx_frame(*old(cx), *final(cx)),
        final(cx).next_mark == old(cx).next_mark,
        r is Err ==> r->Err_0 == ExpandError::IdentityExhausted && supply_exhausted(*final(cx)),
        exp matches Expander::Emit(ns) ==> (r matches Result::Ok(out) && nodes_eqv(out@, ns@)
            && *final(cx) == *old(cx)),
{
    match exp {
        Expander::Emit(ns) => Result::Ok(clone_nodes(ns)),
        Expander::AppendAttr(meta) => {
            let a = match cx.attribute(attr.span, clone_meta(meta)) {
                Result::Ok(a) => a,
                Result::Err(e) => {
                    return Result::Err(e);
                },
            };
            let copy = clone_node(item);
            Result::Ok(vec![push_attr_on(cx, copy, a, attr.span)])
        },
        Expander::Derive => {
            let copy = clone_node(item);
            let out = match crate::deriving::expand_derive(cx, attr.span, &attr.meta, copy) {
                Result::Ok(n) => n,
                Result::Err(e) => {
                    return Result::Err(e);
                },
            };
            Result::Ok(vec![out])
        },
    }
}

/// Expands one node together with all its attributes. The node, with every
/// handled attribute consumed and every unhandled one preserved, comes
/// first; the siblings its decorators emitted follow it.
pub fn expand_annotatable(cx: &mut ExtCtxt, item: Node, fuel: usize) -> (r: Result<
    Vec<Node>,
    ExpandError,
>)
    ensures
        cx_frame(*old(cx), *final(cx)),
        r is Ok ==> r->Ok_0@.len() >= 1,
        r matches Result::Err(ExpandError::IdentityExhausted) ==> supply_exhausted(*final(cx)),
        fuel == 0 ==> r matches Result::Err(ExpandError::RecursionLimitExceeded { .. }),
        (fuel > 0 && (!(item is Elem) || attrs_len_of(item) == 0)) ==> (r matches Result::Ok(out)
            && out@.len() == 1 && out@[0] == item && final(cx).diagnostics == old(
            cx,
        ).diagnostics),
        (fuel > 0 && first_attr_arity_violation(table_of(*old(cx)), item)) ==> (match r {
            Result::Err(ExpandError::ModifierArityViolation { span: sp, found }) => sp
                == item->Elem_0.attrs@[0].span && found as nat == emit_arity(
                table_of(*old(cx)),
                item->Elem_0.attrs@[0].meta.spec_name(),
            ),
            _ => false,
        }),
        item matches Node::Elem(e) ==> (fuel > 0 && attrs_plain_inert(
            table_of(*old(cx)),
            e.attrs@,
        ) ==> (match r {
            Result::Ok(out) => out@.len() == 1 && (out@[0] matches Node::Elem(oe) && oe.kind
                == e.kind && oe.ident == e.ident && oe.children == e.children && oe.span == e.span
                && crate::ast::attrs_eqv(oe.attrs@, e.attrs@)),
            Result::Err(_) => false,
        })),
        (fuel >= 4 && lone_decorated_cfg_attr(table_of(*old(cx)), item)) ==> (match r {
            Result::Ok(out) => {
                &&& out@.len() == 1 + deco_template(
                    table_of(*old(cx)),
                    cfg_inner(item->Elem_0.attrs@[0]).spec_name(),
                ).len()
                &&& (out@[0] matches Node::Elem(oe) && oe.attrs@.len() == 0 && oe.kind
                    == item->Elem_0.kind && oe.ident == item->Elem_0.ident && oe.children
                    == item->Elem_0.children && oe.span == item->Elem_0.span)
                &&& (forall|j: int|
                    1 <= j < out@.len() ==> cfg_wrapped_sibling(
                        #[trigger] out@[j],
                        deco_template(
                            table_of(*old(cx)),
                            cfg_inner(item->Elem_0.attrs@[0]).spec_name(),
                        )[j - 1],
                        cfg_cond(item->Elem_0.attrs@[0]),
                    ))
            },
            Result::Err(e2) => e2 == ExpandError::IdentityExhausted,
        }),
    decreases fuel, 3int, 0int,
{
    if fuel == 0 {
        return Result::Err(
            ExpandError::RecursionLimitExceeded {
                span: crate::ast::Span { lo: 0, hi: 0 },
                depth: cx.ecfg.recursion_limit,
            },
        );
    }
    let mut out_items: Vec<Node> = Vec::new();
    let mut new_attrs: Vec<Attribute> = Vec::new();
    let item = match expand_1(cx, item, &mut out_items, &mut new_attrs, (fuel - 1) as usize) {
        Result::Ok(it) => it,
        Result::Err(e) => {
            return Result::Err(e);
        },
    };
    // re-attach the attributes that stayed unhandled, in their original order
    let item = fold_attrs(item, new_attrs);
    let mut out: Vec<Node> = Vec::new();
    out.push(item);
    out.append(&mut out_items);
    Result::Ok(out)
}

/// Re-attach preserved attributes to the node, after its own, in order.
fn fold_attrs(item: Node, attrs: Vec<Attribute>) -> (r: Node)
    ensures
        attrs@.len() == 0 ==> r == item,
        item matches Node::Elem(e) ==> (r matches Node::Elem(oe) && oe.kind == e.kind && oe.ident
            == e.ident && oe.children == e.children && oe.span == e.span && oe.attrs@ == e.attrs@
            + attrs@),
        !(item is Elem) ==> r == item,
{
    let mut attrs = attrs;
    if attrs.len() == 0 {
        proof {
            if item is Elem {
                assert(item->Elem_0.attrs@ + attrs@ =~= item->Elem_0.attrs@);
            }
        }
        return item;
    }
    match item {
        Node::Elem(mut e) => {
            e.attrs.append(&mut attrs);
            Node::Elem(e)
        },
        other => other,
    }
}

/// Pops the node's attributes one at a time, in original order, splitting
/// conditional wrappers and routing each attribute through the derive and
/// decorator/modifier pipeline. Unhandled attributes gather in `new_attrs`;
/// decorator siblings gather in `out_items`.
pub fn expand_1(
    cx: &mut ExtCtxt,
    item: Node,
    out_items: &mut Vec<Node>,
    new_attrs: &mut Vec<Attribute>,
    fuel: usize,
) -> (r: Result<Node, ExpandError>)
    ensures
        cx_frame(*old(cx), *final(cx)),
        r matches Result::Err(ExpandError::IdentityExhausted) ==> supply_exhausted(*final(cx)),
        r matches Result::Ok(out) ==> (out is Elem ==> out->Elem_0.attrs@.len() == 0),
        (!(item is Elem) || attrs_len_of(item) == 0) ==> (r matches Result::Ok(out) && out == item
            && final(out_items)@ == old(out_items)@ && final(new_attrs)@ == old(new_attrs)@
            && *final(cx) == *old(cx)),
        first_attr_arity_violation(table_of(*old(cx)), item) ==> (match r {
            Result::Err(ExpandError::ModifierArityViolation { span: sp, found }) => sp
                == item->Elem_0.attrs@[0].span && found as nat == emit_arity(
                table_of(*old(cx)),
                item->Elem_0.attrs@[0].meta.spec_name(),
            ),
            _ => false,
        }),
        item matches Node::Elem(e) ==> (attrs_plain_inert(table_of(*old(cx)), e.attrs@) ==> (
        match r {
            Result::Ok(out) => {
                &&& (out matches Node::Elem(oe) && oe.attrs@.len() == 0 && oe.kind == e.kind
                    && oe.ident == e.ident && oe.children == e.children && oe.span == e.span)
                &&& final(out_items)@ == old(out_items)@
                &&& final(new_attrs)@.len() == old(new_attrs)@.len() + e.attrs@.len()
                &&& (forall|j: int|
                    0 <= j < old(new_attrs)@.len() ==> final(new_attrs)@[j] == old(new_attrs)@[j])
                &&& (forall|j: int|
                    old(new_attrs)@.len() <= j < final(new_attrs)@.len() ==> attr_eqv(
                        #[trigger] final(new_attrs)@[j],
                        e.attrs@[j - old(new_attrs)@.len()],
                    ))
            },
            Result::Err(_) => false,
        })),
        (fuel >= 3 && lone_decorated_cfg_attr(table_of(*old(cx)), item)) ==> (match r {
            Result::Ok(out) => {
                &&& (out matches Node::Elem(oe) && oe.attrs@.len() == 0 && oe.kind
                    == item->Elem_0.kind && oe.ident == item->Elem_0.ident && oe.children
                    == item->Elem_0.children && oe.span == item->Elem_0.span)
                &&& final(new_attrs)@ == old(new_attrs)@
                &&& final(out_items)@.len() == old(out_items)@.len() + deco_template(
                    table_of(*old(cx)),
                    cfg_inner(item->Elem_0.attrs@[0]).spec_name(),
                ).len()
                &&& (forall|j: int|
                    0 <= j < old(out_items)@.len() ==> final(out_items)@[j] == old(out_items)@[j])
                &&& (forall|j: int|
                    old(out_items)@.len() <= j < final(out_items)@.len() ==> cfg_wrapped_sibling(
                        #[trigger] final(out_items)@[j],
                        deco_template(
                            table_of(*old(cx)),
                            cfg_inner(item->Elem_0.attrs@[0]).spec_name(),
                        )[j - old(out_items)@.len()],
                        cfg_cond(item->Elem_0.attrs@[0]),
                    ))
            },
            Result::Err(e2) => e2 == ExpandError::IdentityExhausted,
        }),
        (fuel > 0 && lone_unhandled_cfg_attr(table_of(*old(cx)), item)) ==> (match r {
            Result::Ok(out) => {
                &&& (out matches Node::Elem(oe) && oe.attrs@.len() == 0 && oe.kind
                    == item->Elem_0.kind && oe.ident == item->Elem_0.ident && oe.children
                    == item->Elem_0.children && oe.span == item->Elem_0.span)
                &&& final(out_items)@ == old(out_items)@
                &&& final(new_attrs)@.len() == old(new_attrs)@.len() + 1
                &&& (forall|k: int|
                    0 <= k < old(new_attrs)@.len() ==> final(new_attrs)@[k] == old(new_attrs)@[k])
                &&& (final(new_attrs)@.last().meta matches MetaItem::List(nm2, parts) && nm2@
                    == "cfg_attr"@ && parts@.len() == 2 && meta_eqv(
                    parts@[0],
                    cfg_cond(item->Elem_0.attrs@[0]),
                ) && meta_eqv(parts@[1], cfg_inner(item->Elem_0.attrs@[0])))
            },
            Result::Err(e2) => e2 == ExpandError::IdentityExhausted,
        }),
    decreases fuel, 2int, attrs_len_of(item),
{
    let ghost lone = fuel > 0 && lone_unhandled_cfg_attr(table_of(*cx), item);
    let ghost lone2 = fuel >= 3 && lone_decorated_cfg_attr(table_of(*cx), item);
    let mut e = match item {
        Node::Elem(e) => e,
        other => {
            return Result::Ok(other);
        },
    };
    if e.attrs.len() == 0 {
        return Result::Ok(Node::Elem(e));
    }
    // pop the first attribute
    let attr = e.attrs.remove(0);
    let current = Node::Elem(e);
    let cfg_attr_parts: Option<(MetaItem, MetaItem)> = match &attr.meta {
        MetaItem::List(word, vec) => {
            if crate::strutil::str_eq_str(word.as_str(), "cfg_attr") && vec.len() == 2 {
                Option::Some((clone_meta(&vec[0]), clone_meta(&vec[1])))
            } else {
                Option::None
            }
        },
        _ => Option::None,
    };
    proof {
        if lone || lone2 {
            assert(attr == item->Elem_0.attrs@[0]);
        }
    }
    match cfg_attr_parts {
        Option::Some((cond, spec_meta)) => {
            let ghost sm = spec_meta;
            if fuel == 0 {
                return Result::Err(
                    ExpandError::RecursionLimitExceeded {
                        span: attr.span,
                        depth: cx.ecfg.recursion_limit,
                    },
                );
            }
            // the unconditional inner attribute, for the purposes of lookup
            let spec_attr = match cx.attribute(attr.span, spec_meta) {
                Result::Ok(a) => a,
                Result::Err(er) => {
                    return Result::Err(er);
                },
            };
            proof {
                if lone || lone2 {
                    assert(spec_attr.meta == sm);
                    assert(spec_attr.meta.spec_name() == cfg_inner(attr).spec_name());
                }
            }
            let mut items2: Vec<Node> = Vec::new();
            let mut attrs2: Vec<Attribute> = Vec::new();
            let current = match expand_2(
                cx,
                current,
                &spec_attr,
                &mut items2,
                &mut attrs2,
                (fuel - 1) as usize,
            ) {
                Result::Ok((_, it)) => it,
                Result::Err(er) => {
                    return Result::Err(er);
                },
            };
            proof {
                if lone2 {
                    // the inner specification's name selects the same
                    // decorator template as the wrapper's inner meta item
                    let tpl = deco_template(
                        table_of(*old(cx)),
                        cfg_inner(item->Elem_0.attrs@[0]).spec_name(),
                    );
                    assert(deco_template(table_of(*old(cx)), spec_attr.meta.spec_name()) == tpl);
                    assert forall|j: int|
                        0 <= j < items2@.len() implies node_eqv(#[trigger] items2@[j], tpl[j]) by {
                        assert(node_eqv(
                            items2@[j],
                            deco_template(table_of(*old(cx)), spec_attr.meta.spec_name())[j - 0],
                        ));
                    }
                }
            }
            // every new sibling keeps the condition: #[cfg(COND)]
            let n2: usize = items2.len();
            let mut k: usize = 0;
            while k < n2
                invariant
                    n2 == items2@.len(),
                    k <= n2,
                    cx_frame(*old(cx), *cx),
                    item is Elem && attrs_len_of(item) > 0,
                    !first_attr_arity_violation(table_of(*old(cx)), item),
                    !(item matches Node::Elem(e0) && attrs_plain_inert(
                        table_of(*old(cx)),
                        e0.attrs@,
                    )),
                    lone == (fuel > 0 && lone_unhandled_cfg_attr(table_of(*old(cx)), item)),
                    lone ==> n2 == 0 && out_items@ == old(out_items)@,
                    lone2 == (fuel >= 3 && lone_decorated_cfg_attr(table_of(*old(cx)), item)),
                    lone2 ==> {
                        &&& n2 == deco_template(
                            table_of(*old(cx)),
                            cfg_inner(item->Elem_0.attrs@[0]).spec_name(),
                        ).len()
                        &&& (forall|j: int|
                            0 <= j < n2 ==> node_eqv(
                                #[trigger] items2@[j],
                                deco_template(
                                    table_of(*old(cx)),
                                    cfg_inner(item->Elem_0.attrs@[0]).spec_name(),
                                )[j],
                            ))
                        &&& meta_eqv(cond, cfg_cond(item->Elem_0.attrs@[0]))
                        &&& out_items@.len() == old(out_items)@.len() + k
                        &&& (forall|j: int|
                            0 <= j < old(out_items)@.len() ==> out_items@[j] == old(out_items)@[j])
                        &&& (forall|j: int|
                            old(out_items)@.len() <= j < out_items@.len() ==> cfg_wrapped_sibling(
                                #[trigger] out_items@[j],
                                deco_template(
                                    table_of(*old(cx)),
                                    cfg_inner(item->Elem_0.attrs@[0]).spec_name(),
                                )[j - old(out_items)@.len()],
                                cfg_cond(item->Elem_0.attrs@[0]),
                            ))
                    },
                decreases n2 - k,
            {
                let sib = clone_node(&items2[k]);
                proof {
                    if lone2 {
                        crate::ast::lemma_node_eqv_trans(
                            sib,
                            items2@[k as int],
                            deco_template(
                                table_of(*old(cx)),
                                cfg_inner(item->Elem_0.attrs@[0]).spec_name(),
                            )[k as int],
                        );
                    }
                }
                let cond_meta = MetaItem::List("cfg".to_owned(), vec![clone_meta(&cond)]);
                let ghost cm = cond_meta;
                let cond_attr = match cx.attribute(attr.span, cond_meta) {
                    Result::Ok(a) => a,
                    Result::Err(er) => {
                        return Result::Err(er);
                    },
                };
                let ghost out_before = out_items@;
                out_items.push(push_attr_on(cx, sib, cond_attr, attr.span));
                proof {
                    if lone2 {
                        crate::ast::lemma_meta_eqv_trans(
                            cm->List_1@[0],
                            cond,
                            cfg_cond(item->Elem_0.attrs@[0]),
                        );
                        assert forall|j: int|
                            old(out_items)@.len() <= j < out_items@.len() implies cfg_wrapped_sibling(
                            #[trigger] out_items@[j],
                            deco_template(
                                table_of(*old(cx)),
                                cfg_inner(item->Elem_0.attrs@[0]).spec_name(),
                            )[j - old(out_items)@.len()],
                            cfg_cond(item->Elem_0.attrs@[0]),
                        ) by {
                            if j < out_before.len() {
                                assert(out_items@[j] == out_before[j]);
                            }
                        }
                    }
                }
                k += 1;
            }
            proof {
                if lone {
                    assert(attrs2@.len() == 1);
                    crate::ast::lemma_meta_eqv_trans(
                        attrs2@[0].meta,
                        sm,
                        cfg_inner(item->Elem_0.attrs@[0]),
                    );
                }
            }
            // an unhandled inner attribute stays conditional:
            // #[cfg_attr(COND, NEW_SPEC)]
            let m2: usize = attrs2.len();
            let mut k2: usize = 0;
            while k2 < m2
                invariant
                    m2 == attrs2@.len(),
                    k2 <= m2,
                    cx_frame(*old(cx), *cx),
                    item is Elem && attrs_len_of(item) > 0,
                    !first_attr_arity_violation(table_of(*old(cx)), item),
                    !(item matches Node::Elem(e0) && attrs_plain_inert(
                        table_of(*old(cx)),
                        e0.attrs@,
                    )),
                    lone == (fuel > 0 && lone_unhandled_cfg_attr(table_of(*old(cx)), item)),
                    lone2 == (fuel >= 3 && lone_decorated_cfg_attr(table_of(*old(cx)), item)),
                    lone2 ==> m2 == 0 && new_attrs@ == old(new_attrs)@,
                    lone ==> m2 == 1 && meta_eqv(
                        attrs2@[0].meta,
                        cfg_inner(item->Elem_0.attrs@[0]),
                    ) && meta_eqv(cond, cfg_cond(item->Elem_0.attrs@[0])),
                    lone && k2 == 0 ==> new_attrs@ == old(new_attrs)@,
                    lone && k2 == 1 ==> {
                        &&& new_attrs@.len() == old(new_attrs)@.len() + 1
                        &&& (forall|j: int|
                            0 <= j < old(new_attrs)@.len() ==> new_attrs@[j] == old(new_attrs)@[j])
                        &&& (new_attrs@.last().meta matches MetaItem::List(nm2, parts) && nm2@
                            == "cfg_attr"@ && parts@.len() == 2 && meta_eqv(
                            parts@[0],
                            cfg_cond(item->Elem_0.attrs@[0]),
                        ) && meta_eqv(parts@[1], cfg_inner(item->Elem_0.attrs@[0])))
                    },
                decreases m2 - k2,
            {
                let residual_meta = MetaItem::List(
                    "cfg_attr".to_owned(),
                    vec![clone_meta(&cond), clone_meta(&attrs2[k2].meta)],
                );
                let ghost rm = residual_meta;
                let residual = match cx.attribute(attr.span, residual_meta) {
                    Result::Ok(a) => a,
                    Result::Err(er) => {
                        return Result::Err(er);
                    },
                };
                new_attrs.push(residual);
                proof {
                    if lone {
                        let parts = rm->List_1@;
                        crate::ast::lemma_meta_eqv_trans(
                            parts[0],
                            cond,
                            cfg_cond(item->Elem_0.attrs@[0]),
                        );
                        crate::ast::lemma_meta_eqv_trans(
                            parts[1],
                            attrs2@[0].meta,
                            cfg_inner(item->Elem_0.attrs@[0]),
                        );
                    }
                }
                k2 += 1;
            }
            expand_1(cx, current, out_items, new_attrs, (fuel - 1) as usize)
        },
        Option::None => {
            let (handled, item2) = match expand_2(cx, current, &attr, out_items, new_attrs, fuel) {
                Result::Ok(p) => p,
                Result::Err(er) => {
                    return Result::Err(er);
                },
            };
            if handled {
                if fuel == 0 {
                    return Result::Err(
                        ExpandError::RecursionLimitExceeded {
                            span: attr.span,
                            depth: cx.ecfg.recursion_limit,
                        },
                    );
                }
                expand_1(cx, item2, out_items, new_attrs, (fuel - 1) as usize)
            } else {
                expand_1(cx, item2, out_items, new_attrs, fuel)
            }
        },
    }
}

/// The attribute is a `derive` list whose entries are all bare words and
/// none of whose `derive_X` pseudo-attributes resolves to a decorator or a
/// modifier: nothing of it can be handled.
pub open spec fn unhandled_derive_list(
    t: Seq<crate::registry::NamedSyntaxExtension>,
    attr: Attribute,
) -> bool {
    match attr.meta {
        MetaItem::List(nm, ts) => {
            &&& nm@ == "derive"@
            &&& ts@.len() > 0
            &&& (forall|k: int|
                0 <= k < ts@.len() ==> (#[trigger] ts@[k] is Word ==> !resolves_to_attr_ext(
                    t,
                    crate::deriving::derive_attr_name(crate::deriving::entry_word(ts@[k])),
                )))
        },
        _ => false,
    }
}

/// The bare-word entries of a derive list, in order; anything else in the
/// list is a malformed entry.
pub open spec fn word_entries(ts: Seq<MetaItem>) -> Seq<MetaItem>
    decreases ts.len(),
{
    if ts.len() == 0 {
        Seq::empty()
    } else if ts[0] is Word {
        seq![ts[0]] + word_entries(ts.skip(1))
    } else {
        word_entries(ts.skip(1))
    }
}

/// The meta item list of the attribute, when it is a list.
pub open spec fn attr_list_items(attr: Attribute) -> Seq<MetaItem> {
    match attr.meta {
        MetaItem::List(_, ts) => ts@,
        _ => Seq::empty(),
    }
}

/// Routes one attribute: a `derive` list is unrolled entry by entry, in
/// reverse list order; any other attribute is dispatched to the decorator or
/// modifier it resolves to. Trait entries and attributes that nothing
/// handles are preserved: the unhandled entries of a `derive` list are
/// re-attached as one residual `derive` list in their original left-to-right
/// order.
pub fn expand_2(
    cx: &mut ExtCtxt,
    item: Node,
    attr: &Attribute,
    out_items: &mut Vec<Node>,
    new_attrs: &mut Vec<Attribute>,
    fuel: usize,
) -> (r: Result<(bool, Node), ExpandError>)
    ensures
        cx_frame(*old(cx), *final(cx)),
        match r {
            Result::Ok((handled, out)) => {
                &&& (!handled ==> out == item && final(out_items)@ == old(out_items)@)
                &&& (unhandled_derive_list(table_of(*old(cx)), *attr) ==> {
                    &&& !handled
                    &&& (word_entries(attr_list_items(*attr)).len() == 0 ==> final(new_attrs)@
                        == old(new_attrs)@)
                    &&& (word_entries(attr_list_items(*attr)).len() > 0
                        ==> final(new_attrs)@.len() == old(new_attrs)@.len() + 1 && (forall|k: int|
                        0 <= k < old(new_attrs)@.len() ==> final(new_attrs)@[k] == old(
                            new_attrs,
                        )@[k]) && (match final(new_attrs)@.last().meta {
                        MetaItem::List(nm, ts) => nm@ == "derive"@ && metas_eqv(
                            ts@,
                            word_entries(attr_list_items(*attr)),
                        ),
                        _ => false,
                    }))
                    &&& final(cx).diagnostics@.len() == old(cx).diagnostics@.len() + (
                    attr_list_items(*attr).len() - word_entries(attr_list_items(*attr)).len())
                    &&& (forall|d: int|
                        old(cx).diagnostics@.len() <= d < final(cx).diagnostics@.len()
                            ==> #[trigger] final(cx).diagnostics@[d] == Diagnostic {
                            span: attr.span,
                            kind: DiagKind::MalformedDeriveEntry,
                        })
                })
            },
            Result::Err(_) => true,
        },
        attr.meta.spec_name() != "derive"@ && arity_violation(
            table_of(*old(cx)),
            attr.meta.spec_name(),
        ) ==> (match r {
            Result::Err(ExpandError::ModifierArityViolation { span: sp, found }) => sp == attr.span
                && found as nat == emit_arity(table_of(*old(cx)), attr.meta.spec_name()),
            _ => false,
        }),
        r matches Result::Err(ExpandError::IdentityExhausted) ==> supply_exhausted(*final(cx)),
        (attr.meta.spec_name() != "derive"@ && !resolves_to_attr_ext(
            table_of(*old(cx)),
            attr.meta.spec_name(),
        )) ==> r is Ok,
        attr.meta.spec_name() != "derive"@ ==> (match r {
            Result::Ok(p) => p.0 == resolves_to_attr_ext(table_of(*old(cx)), attr.meta.spec_name())
                && (p.0 ==> final(new_attrs)@ == old(new_attrs)@)
                && (!p.0 ==> final(new_attrs)@.len() == old(new_attrs)@.len() + 1 && (forall|k: int|
                0 <= k < old(new_attrs)@.len() ==> final(new_attrs)@[k] == old(new_attrs)@[k])
                && attr_eqv(final(new_attrs)@.last(), *attr)),
            Result::Err(_) => true,
        }),
        (fuel >= 2 && attr.meta.spec_name() != "derive"@ && (match find_ext(
            table_of(*old(cx)),
            attr.meta.spec_name(),
        ) {
            Option::Some(
                SyntaxExtension::MultiDecorator(Expander::Emit(ns)),
            ) => crate::ast::bare_nodes(ns@),
            _ => false,
        })) ==> (match r {
            Result::Ok(p) => {
                &&& p.0 == true
                &&& p.1 == item
                &&& final(new_attrs)@ == old(new_attrs)@
                &&& final(out_items)@.len() == old(out_items)@.len() + deco_template(
                    table_of(*old(cx)),
                    attr.meta.spec_name(),
                ).len()
                &&& (forall|j: int|
                    0 <= j < old(out_items)@.len() ==> final(out_items)@[j] == old(out_items)@[j])
                &&& (forall|j: int|
                    old(out_items)@.len() <= j < final(out_items)@.len() ==> node_eqv(
                        #[trigger] final(out_items)@[j],
                        deco_template(table_of(*old(cx)), attr.meta.spec_name())[j - old(
                            out_items,
                        )@.len()],
                    ))
            },
            Result::Err(_) => false,
        }),
        attr.meta.spec_name() == "derive"@ && attr_list_items(*attr).len() == 0 ==> (match r {
            Result::Ok(p) => p.0 == false && p.1 == item && final(new_attrs)@ == old(new_attrs)@
                && final(out_items)@ == old(out_items)@ && final(cx).diagnostics@ == old(
                cx,
            ).diagnostics@.push(Diagnostic { span: attr.span, kind: DiagKind::EmptyDeriveList }),
            Result::Err(_) => false,
        }),
        attr.meta.spec_name() == "derive"@ ==> (match r {
            Result::Ok(p) => p.0 == (exists|k: int|
                0 <= k < attr_list_items(*attr).len() && #[trigger] attr_list_items(*attr)[k]
                    is Word && resolves_to_attr_ext(
                    table_of(*old(cx)),
                    crate::deriving::derive_attr_name(
                        crate::deriving::entry_word(attr_list_items(*attr)[k]),
                    ),
                )),
            Result::Err(_) => true,
        }),
    decreases fuel, 1int, 0int,
{
    let name = attr.name();
    if crate::strutil::str_eq_str(name.as_str(), "derive") {
        let ts: &Vec<MetaItem> = match &attr.meta {
            MetaItem::List(_, items) => items,
            _ => {
                cx.diag(attr.span, DiagKind::EmptyDeriveList);
                return Result::Ok((false, item));
            },
        };
        if ts.len() == 0 {
            cx.diag(attr.span, DiagKind::EmptyDeriveList);
            return Result::Ok((false, item));
        }
        let ghost item0 = item;
        let ghost t0 = table_of(*old(cx));
        let ghost c = unhandled_derive_list(t0, *attr);
        let mut item = item;
        let mut any_handled = false;
        let mut not_handled_rev: Vec<MetaItem> = Vec::new();
        let n: usize = ts.len();
        let mut i: usize = n;
        while i > 0
            invariant
                n == ts@.len(),
                i <= n,
                cx_frame(*old(cx), *cx),
                table_of(*cx) == t0,
                t0 == table_of(*old(cx)),
                c == unhandled_derive_list(t0, *attr),
                attr.meta matches MetaItem::List(_, l) && l@ == ts@,
                attr.meta.spec_name() == "derive"@,
                new_attrs@ == old(new_attrs)@,
                !any_handled ==> item == item0 && out_items@ == old(out_items)@,
                any_handled == (exists|k: int|
                    i <= k < n && #[trigger] ts@[k] is Word && resolves_to_attr_ext(
                        t0,
                        crate::deriving::derive_attr_name(crate::deriving::entry_word(ts@[k])),
                    )),
                c ==> {
                    &&& !any_handled
                    &&& not_handled_rev@.len() == word_entries(ts@.subrange(i as int, n as int)).len()
                    &&& (forall|k: int|
                        0 <= k < not_handled_rev@.len() ==> meta_eqv(
                            #[trigger] not_handled_rev@[k],
                            word_entries(ts@.subrange(i as int, n as int))[not_handled_rev@.len()
                                - 1 - k],
                        ))
                    &&& cx.diagnostics@.len() == old(cx).diagnostics@.len() + (n - i)
                        - word_entries(ts@.subrange(i as int, n as int)).len()
                    &&& (forall|d: int|
                        old(cx).diagnostics@.len() <= d < cx.diagnostics@.len()
                            ==> #[trigger] cx.diagnostics@[d] == Diagnostic {
                            span: attr.span,
                            kind: DiagKind::MalformedDeriveEntry,
                        })
                },
            decreases i,
        {
            i = i - 1;
            proof {
                assert(ts@.subrange(i as int, n as int).skip(1) =~= ts@.subrange(
                    i + 1 as int,
                    n as int,
                ));
                assert(ts@.subrange(i as int, n as int)[0] == ts@[i as int]);
            }
            let tname: &String = match &ts[i] {
                MetaItem::Word(t) => t,
                _ => {
                    cx.diag(attr.span, DiagKind::MalformedDeriveEntry);
                    continue;
                },
            };
            let dname = crate::strutil::str_concat("derive_", tname.as_str());
            let dattr = match cx.attribute(attr.span, MetaItem::Word(dname)) {
                Result::Ok(a) => a,
                Result::Err(er) => {
                    return Result::Err(er);
                },
            };
            let (h, it2) = match expand_3(cx, item, &dattr, out_items, fuel) {
                Result::Ok(p) => p,
                Result::Err(er) => {
                    return Result::Err(er);
                },
            };
            item = it2;
            if h {
                any_handled = true;
            } else {
                not_handled_rev.push(clone_meta(&ts[i]));
            }
        }
        proof {
            assert(ts@.subrange(0, n as int) =~= ts@);
        }
        if not_handled_rev.len() > 0 {
            let ghost nr = not_handled_rev@;
            let nh = reverse_metas(not_handled_rev);
            proof {
                if c {
                    let we = word_entries(ts@);
                    assert forall|k: int| 0 <= k < we.len() implies meta_eqv(nh@[k], we[k]) by {
                        assert(nh@[k] == nr[nr.len() - 1 - k]);
                        assert(meta_eqv(nr[nr.len() - 1 - k], we[k]));
                    }
                    assert(metas_eqv(nh@, we));
                }
            }
            let residual = match cx.attribute(
                attr.span,
                MetaItem::List("derive".to_owned(), nh),
            ) {
                Result::Ok(a) => a,
                Result::Err(er) => {
                    return Result::Err(er);
                },
            };
            new_attrs.push(residual);
        }
        Result::Ok((any_handled, item))
    } else {
        let (h, it) = match expand_3(cx, item, attr, out_items, fuel) {
            Result::Ok(p) => p,
            Result::Err(er) => {
                return Result::Err(er);
            },
        };
        if !h {
            new_attrs.push(crate::ast::clone_attr(attr));
        }
        Result::Ok((h, it))
    }
}

/// Dispatches one attribute to the decorator or modifier its name resolves
/// to. A decorator's siblings are recursively expanded and gathered in
/// `out_items`; a modifier must produce exactly one replacement node, or the
/// whole run is aborted with a `ModifierArityViolation`. Returns whether the
/// attribute was handled, with the node to continue processing.
pub fn expand_3(
    cx: &mut ExtCtxt,
    item: Node,
    attr: &Attribute,
    out_items: &mut Vec<Node>,
    fuel: usize,
) -> (r: Result<(bool, Node), ExpandError>)
    ensures
        cx_frame(*old(cx), *final(cx)),
        match r {
            Result::Ok((handled, out)) => {
                &&& handled == resolves_to_attr_ext(table_of(*old(cx)), attr.meta.spec_name())
                &&& (!handled ==> out == item && final(out_items)@ == old(out_items)@ && *final(cx)
                    == *old(cx))
            },
            Result::Err(_) => true,
        },
        arity_violation(table_of(*old(cx)), attr.meta.spec_name()) ==> (match r {
            Result::Err(ExpandError::ModifierArityViolation { span: sp, found }) => sp == attr.span
                && found as nat == emit_arity(table_of(*old(cx)), attr.meta.spec_name()),
            _ => false,
        }),
        r matches Result::Err(ExpandError::IdentityExhausted) ==> supply_exhausted(*final(cx)),
        (match find_ext(table_of(*old(cx)), attr.meta.spec_name()) {
            Option::Some(SyntaxExtension::MultiDecorator(_)) => true,
            _ => false,
        }) ==> (match r {
            Result::Ok(p) => p.1 == item,
            Result::Err(_) => true,
        }),
        !resolves_to_attr_ext(table_of(*old(cx)), attr.meta.spec_name()) ==> r is Ok,
        (fuel >= 2 && (match find_ext(table_of(*old(cx)), attr.meta.spec_name()) {
            Option::Some(
                SyntaxExtension::MultiDecorator(Expander::Emit(ns)),
            ) => crate::ast::bare_nodes(ns@),
            _ => false,
        })) ==> (match r {
            Result::Ok(p) => {
                &&& p.1 == item
                &&& final(out_items)@.len() == old(out_items)@.len() + deco_template(
                    table_of(*old(cx)),
                    attr.meta.spec_name(),
                ).len()
                &&& (forall|j: int|
                    0 <= j < old(out_items)@.len() ==> final(out_items)@[j] == old(out_items)@[j])
                &&& (forall|j: int|
                    old(out_items)@.len() <= j < final(out_items)@.len() ==> node_eqv(
                        #[trigger] final(out_items)@[j],
                        deco_template(table_of(*old(cx)), attr.meta.spec_name())[j - old(
                            out_items,
                        )@.len()],
                    ))
            },
            Result::Err(_) => false,
        }),
    decreases fuel, 0int, 0int,
{
    let ghost one_bare = fuel >= 2 && (match find_ext(
        table_of(*cx),
        attr.meta.spec_name(),
    ) {
        Option::Some(SyntaxExtension::MultiDecorator(Expander::Emit(ns))) => crate::ast::bare_nodes(
            ns@,
        ),
        _ => false,
    });
    let name = attr.name();
    let looked: Option<(bool, Expander)> = match cx.resolver.find_extension(0, name) {
        Option::Some(SyntaxExtension::MultiDecorator(e)) => Option::Some((false, clone_expander(e))),
        Option::Some(SyntaxExtension::MultiModifier(e)) => Option::Some((true, clone_expander(e))),
        _ => Option::None,
    };
    match looked {
        Option::None => Result::Ok((false, item)),
        Option::Some((false, exp)) => {
            // a decorator: its siblings are themselves expanded, then kept
            // beside the node
            let mut siblings = match apply_decorator(cx, &exp, attr, &item) {
                Result::Ok(s) => s,
                Result::Err(er) => {
                    return Result::Err(er);
                },
            };
            proof {
                if one_bare {
                    crate::ast::lemma_nodes_eqv_trans(
                        siblings@,
                        exp->Emit_0@,
                        deco_template(table_of(*old(cx)), attr.meta.spec_name()),
                    );
                    crate::ast::lemma_eqv_preserves_bare_nodes(
                        siblings@,
                        deco_template(table_of(*old(cx)), attr.meta.spec_name()),
                    );
                }
            }
            let ns: usize = siblings.len();
            let mut k: usize = 0;
            while k < ns
                invariant
                    ns == siblings@.len(),
                    k <= ns,
                    cx_frame(*old(cx), *cx),
                    !arity_violation(table_of(*old(cx)), attr.meta.spec_name()),
                    resolves_to_attr_ext(table_of(*old(cx)), attr.meta.spec_name()),
                    one_bare == (fuel >= 2 && (match find_ext(
                        table_of(*old(cx)),
                        attr.meta.spec_name(),
                    ) {
                        Option::Some(
                            SyntaxExtension::MultiDecorator(Expander::Emit(ns0)),
                        ) => crate::ast::bare_nodes(ns0@),
                        _ => false,
                    })),
                    one_bare ==> fuel >= 2 && ns == deco_template(
                        table_of(*old(cx)),
                        attr.meta.spec_name(),
                    ).len() && crate::ast::bare_nodes(siblings@) && nodes_eqv(
                        siblings@,
                        deco_template(table_of(*old(cx)), attr.meta.spec_name()),
                    ),
                    one_bare ==> {
                        &&& out_items@.len() == old(out_items)@.len() + k
                        &&& (forall|j: int|
                            0 <= j < old(out_items)@.len() ==> out_items@[j] == old(out_items)@[j])
                        &&& (forall|j: int|
                            old(out_items)@.len() <= j < out_items@.len() ==> node_eqv(
                                #[trigger] out_items@[j],
                                deco_template(table_of(*old(cx)), attr.meta.spec_name())[j - old(
                                    out_items,
                                )@.len()],
                            ))
                    },
                decreases ns - k,
            {
                if fuel == 0 {
                    return Result::Err(
                        ExpandError::RecursionLimitExceeded {
                            span: attr.span,
                            depth: cx.ecfg.recursion_limit,
                        },
                    );
                }
                let sib = clone_node(&siblings[k]);
                proof {
                    if one_bare {
                        crate::ast::lemma_eqv_preserves_bare(sib, siblings@[k as int]);
                        crate::ast::lemma_node_eqv_trans(
                            sib,
                            siblings@[k as int],
                            deco_template(table_of(*old(cx)), attr.meta.spec_name())[k as int],
                        );
                        assert(!(sib is Elem) || attrs_len_of(sib) == 0);
                    }
                }
                let ghost out_before = out_items@;
                let mut expanded = match expand_annotatable(cx, sib, (fuel - 1) as usize) {
                    Result::Ok(x) => x,
                    Result::Err(er) => {
                        return Result::Err(er);
                    },
                };
                let ghost exp0 = expanded@;
                out_items.append(&mut expanded);
                proof {
                    if one_bare {
                        assert(exp0 =~= seq![sib]);
                        assert forall|j: int|
                            old(out_items)@.len() <= j < out_items@.len() implies node_eqv(
                            #[trigger] out_items@[j],
                            deco_template(table_of(*old(cx)), attr.meta.spec_name())[j - old(
                                out_items,
                            )@.len()],
                        ) by {
                            if j < out_before.len() {
                                assert(out_items@[j] == out_before[j]);
                            } else {
                                assert(out_items@[j] == sib);
                            }
                        }
                    }
                }
                k += 1;
            }
            Result::Ok((true, item))
        },
        Option::Some((true, exp)) => {
            // a modifier: its raw output must be exactly one node
            let mut modified = match apply_modifier(cx, &exp, attr, item) {
                Result::Ok(m) => m,
                Result::Err(er) => {
                    return Result::Err(er);
                },
            };
            if modified.len() != 1 {
                return Result::Err(
                    ExpandError::ModifierArityViolation { span: attr.span, found: modified.len() },
                );
            }
            let m = modified.remove(0);
            if fuel == 0 {
                return Result::Err(
                    ExpandError::RecursionLimitExceeded {
                        span: attr.span,
                        depth: cx.ecfg.recursion_limit,
                    },
                );
            }
            let mut expanded = match expand_annotatable(cx, m, (fuel - 1) as usize) {
                Result::Ok(x) => x,
                Result::Err(er) => {
                    return Result::Err(er);
                },
            };
            let it = expanded.remove(0);
            out_items.append(&mut expanded);
            Result::Ok((true, it))
        },
    }
}

} // verus!
