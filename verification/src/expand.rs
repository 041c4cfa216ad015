//! The expansion scheduler and invocation collector.
//!
//! Expansion runs in one logical pass per nesting depth: `Collecting(depth)`
//! walks the tree, replaces every invocation site with a placeholder and
//! records an `Invocation`; `Dispatching(depth)` resolves and expands each
//! recorded invocation, stamps every identifier of the result with a fresh
//! scope mark, and collects the result again at `depth + 1`. The loop ends
//! when a depth produces no new invocations, or fails when the depth passes
//! the configured recursion limit. A final pass substitutes every placeholder
//! with its fully expanded result, deepest first.

use vstd::prelude::*;
use crate::ast::{
    dummy_span,
    attr_eqv, attrs_eqv, node_eqv, nodes_eqv, Attribute, Elem, ExpansionKind, Ident, Mac, MacNode,
    MetaItem, Node, Placeholder, Span, clone_attr,
};
use crate::error::{DiagKind, Diagnostic, ExpandError};
use crate::registry::NamedSyntaxExtension;
use crate::resolver::{mac_path_malformed, Resolver};

verus! {

broadcast use vstd::std_specs::vec::group_vec_axioms;

/// How one run of the engine is configured.
#[derive(Debug)]
pub struct ExpansionConfig {
    /// the name of the translation unit being expanded
    pub crate_name: String,
    /// the greatest nesting depth a run may reach before it is aborted
    pub recursion_limit: usize,
    /// whether an unresolved function-like invocation passes through to the
    /// output unexpanded; when off it is reported and a neutral result is
    /// substituted
    pub permissive: bool,
    /// whether derive entries naming no built-in trait are permitted
    pub allow_custom_derive: bool,
    /// expand one depth only, for diagnostics
    pub single_step: bool,
}

impl ExpansionConfig {
    /// The stock configuration: recursion limit 64, unresolved invocations
    /// passed through unexpanded, custom derive entries off, full expansion.
    pub fn default(crate_name: String) -> (r: ExpansionConfig)
        ensures
            r.crate_name == crate_name,
            r.recursion_limit == 64,
            r.permissive == true,
            r.allow_custom_derive == false,
            r.single_step == false,
    {
        ExpansionConfig {
            crate_name,
            recursion_limit: 64,
            permissive: true,
            allow_custom_derive: false,
            single_step: false,
        }
    }
}

/// What triggered an invocation: a call-form site, or an attribute on a node.
#[derive(Debug)]
pub enum InvocationKind {
    Bang { mac: Mac, ident: Option<Ident>, attrs: Vec<Attribute>, span: Span },
    Attr { attr: Attribute, item: Node },
}

/// One recorded request to expand one extension application at one tree
/// position. Its identity doubles as the fresh scope mark of its expansion,
/// and is never shared with another invocation of the same run.
#[derive(Debug)]
pub struct Invocation {
    pub id: u64,
    pub kind: InvocationKind,
    pub expansion_kind: ExpansionKind,
    pub depth: usize,
    pub span: Span,
}

impl Invocation {
    /// The location the invocation came from.
    pub fn span(&self) -> (r: Span)
        ensures
            r == self.span,
    {
        self.span
    }

    /// The fresh scope mark minted for this invocation.
    pub fn mark(&self) -> (r: u64)
        ensures
            r == self.id,
    {
        self.id
    }
}

/// A result shape together with the nodes that fill it.
#[derive(Debug)]
pub struct Expansion {
    pub kind: ExpansionKind,
    pub nodes: Vec<Node>,
}

/// The state of one expansion run: the resolver, the enabled configuration
/// predicates, the run's configuration, the diagnostics recorded so far and
/// the supply of fresh marks.
#[derive(Debug)]
pub struct ExtCtxt {
    pub resolver: Resolver,
    pub cfg: Vec<MetaItem>,
    pub ecfg: ExpansionConfig,
    pub diagnostics: Vec<Diagnostic>,
    pub next_mark: u64,
}

impl ExtCtxt {
    /// A fresh context over `resolver` with configuration `ecfg`.
    pub fn new(resolver: Resolver, cfg: Vec<MetaItem>, ecfg: ExpansionConfig) -> (r: ExtCtxt)
        ensures
            r.resolver == resolver,
            r.cfg == cfg,
            r.ecfg == ecfg,
            r.diagnostics@.len() == 0,
            r.next_mark == 1,
    {
        ExtCtxt { resolver, cfg, ecfg, diagnostics: Vec::new(), next_mark: 1 }
    }

    /// Mints a fresh scope mark, greater than every mark minted before.
    pub fn fresh_mark(&mut self) -> (r: Result<u64, ExpandError>)
        ensures
            final(self).resolver == old(self).resolver,
            final(self).cfg == old(self).cfg,
            final(self).ecfg == old(self).ecfg,
            final(self).diagnostics == old(self).diagnostics,
            match r {
                Result::Ok(m) => m == old(self).next_mark && final(self).next_mark == old(
                    self,
                ).next_mark + 1,
                Result::Err(e) => e == ExpandError::IdentityExhausted && *final(self) == *old(
                    self,
                ) && old(self).next_mark == u64::MAX,
            },
            old(self).next_mark < u64::MAX ==> r is Ok,
    {
        if self.next_mark == u64::MAX {
            return Result::Err(ExpandError::IdentityExhausted);
        }
        let m = self.next_mark;
        self.next_mark = self.next_mark + 1;
        Result::Ok(m)
    }

    /// Builds an outer attribute around `meta` with a freshly minted
    /// identity.
    pub fn attribute(&mut self, span: Span, meta: MetaItem) -> (r: Result<Attribute, ExpandError>)
        ensures
            cx_frame(*old(self), *final(self)),
            final(self).diagnostics == old(self).diagnostics,
            final(self).next_mark == old(self).next_mark,
            final(self).resolver.next_node_id as int <= old(self).resolver.next_node_id as int
                + 1,
            match r {
                Result::Ok(a) => a.span == span && a.meta == meta && a.style == crate::ast::AttrStyle::Outer
                    && !a.is_sugared_doc,
                Result::Err(e) => e == ExpandError::IdentityExhausted && old(
                    self,
                ).resolver.next_node_id == u64::MAX && *final(self) == *old(self),
            },
            old(self).resolver.next_node_id < u64::MAX ==> r is Ok,
    {
        if self.resolver.next_node_id == u64::MAX {
            return Result::Err(ExpandError::IdentityExhausted);
        }
        let id = self.resolver.next_node_id();
        Result::Ok(
            Attribute {
                id,
                style: crate::ast::AttrStyle::Outer,
                meta,
                is_sugared_doc: false,
                span,
            },
        )
    }

    /// Records one node-local diagnostic.
    pub fn diag(&mut self, span: Span, kind: DiagKind)
        ensures
            final(self).resolver == old(self).resolver,
            final(self).cfg == old(self).cfg,
            final(self).ecfg == old(self).ecfg,
            final(self).next_mark == old(self).next_mark,
            final(self).diagnostics@ == old(self).diagnostics@.push(Diagnostic { span, kind }),
    {
        self.diagnostics.push(Diagnostic { span, kind });
    }
}

/// The lookup table the run resolves names in.
pub open spec fn table_of(cx: ExtCtxt) -> Seq<NamedSyntaxExtension> {
    cx.resolver.extensions@
}

/// Everything of the context except the mark supply and the diagnostics is
/// read-only for the duration of a run.
pub open spec fn cx_frame(a: ExtCtxt, b: ExtCtxt) -> bool {
    &&& b.resolver.extensions == a.resolver.extensions
    &&& b.resolver.derive_modes == a.resolver.derive_modes
    &&& b.cfg == a.cfg
    &&& b.ecfg == a.ecfg
    &&& b.next_mark >= a.next_mark
    &&& b.resolver.next_node_id >= a.resolver.next_node_id
    &&& b.diagnostics@.len() >= a.diagnostics@.len()
}

/// The run's identity supply is used up: no fresh mark or attribute identity
/// can be minted any more. The recoverable faults never arise otherwise.
pub open spec fn supply_exhausted(cx: ExtCtxt) -> bool {
    cx.next_mark == u64::MAX || cx.resolver.next_node_id == u64::MAX
}

/// Identities in a recorded invocation list are strictly increasing, so no
/// two invocations of one run ever share an identity.
pub open spec fn invs_increasing(s: Seq<Invocation>) -> bool {
    forall|i: int, j: int| 0 <= i < j < s.len() ==> s[i].id < s[j].id
}

/// Every recorded identity was minted below `hi`.
pub open spec fn invs_bounded(s: Seq<Invocation>, hi: u64) -> bool {
    forall|i: int| 0 <= i < s.len() ==> s[i].id < hi
}

/// Uniqueness: in a recorded invocation list with strictly increasing
/// identities, as the collector keeps it, no two invocations share an
/// identity.
pub proof fn lemma_invocation_ids_distinct(s: Seq<Invocation>)
    requires
        invs_increasing(s),
    ensures
        forall|i: int, j: int| 0 <= i < s.len() && 0 <= j < s.len() && i != j ==> s[i].id != s[j].id,
{
}

/// An attribute that carries a configuration condition: `cfg(c)`.
pub open spec fn is_cfg_attr(a: Attribute) -> bool {
    match a.meta {
        MetaItem::List(n, items) => n@ == "cfg"@ && items@.len() == 1,
        _ => false,
    }
}

/// The condition `c` is one of the enabled configuration predicates.
pub open spec fn cfg_contains(cfg: Seq<MetaItem>, c: MetaItem) -> bool {
    exists|i: int| 0 <= i < cfg.len() && crate::ast::meta_eqv(cfg[i], c)
}

/// Every `cfg(c)` attribute in the list names an enabled predicate.
pub open spec fn attrs_in_cfg(attrs: Seq<Attribute>, cfg: Seq<MetaItem>) -> bool {
    forall|i: int|
        0 <= i < attrs.len() ==> (is_cfg_attr(attrs[i]) ==> cfg_attr_enabled(attrs[i], cfg))
}

/// The condition of one `cfg(c)` attribute names an enabled predicate.
pub open spec fn cfg_attr_enabled(a: Attribute, cfg: Seq<MetaItem>) -> bool {
    match a.meta {
        MetaItem::List(_, items) => items@.len() == 1 && cfg_contains(cfg, items@[0]),
        _ => true,
    }
}

/// Whether `c` names an enabled configuration predicate.
pub fn cfg_matches(cfg: &Vec<MetaItem>, c: &MetaItem) -> (r: bool)
    ensures
        r == cfg_contains(cfg@, *c),
{
    let n: usize = cfg.len();
    let mut i: usize = 0;
    while i < n
        invariant
            n == cfg@.len(),
            i <= n,
            forall|j: int| 0 <= j < i ==> !crate::ast::meta_eqv(cfg@[j], *c),
        decreases n - i,
    {
        if crate::ast::meta_eq(&cfg[i], c) {
            return true;
        }
        i += 1;
    }
    false
}

/// Whether a node with these attributes is retained under the enabled
/// configuration predicates.
pub fn in_cfg(attrs: &Vec<Attribute>, cfg: &Vec<MetaItem>) -> (r: bool)
    ensures
        r == attrs_in_cfg(attrs@, cfg@),
{
    let n: usize = attrs.len();
    let mut i: usize = 0;
    while i < n
        invariant
            n == attrs@.len(),
            i <= n,
            forall|j: int|
                0 <= j < i ==> (is_cfg_attr(attrs@[j]) ==> cfg_attr_enabled(attrs@[j], cfg@)),
        decreases n - i,
    {
        let enabled = match &attrs[i].meta {
            MetaItem::List(name, items) => {
                if crate::strutil::str_eq_str(name.as_str(), "cfg") && items.len() == 1 {
                    cfg_matches(cfg, &items[0])
                } else {
                    true
                }
            },
            _ => true,
        };
        if !enabled {
            return false;
        }
        i += 1;
    }
    true
}

/// No attribute in the list triggers the collector: none is a configuration
/// condition and none resolves to a decorator or a modifier.
pub open spec fn attrs_inert(attrs: Seq<Attribute>, t: Seq<NamedSyntaxExtension>) -> bool {
    forall|i: int|
        0 <= i < attrs.len() ==> (!is_cfg_attr(attrs[i]) && !crate::resolver::resolves_to_attr_ext(
            t,
            attrs[i].meta.spec_name(),
        ))
}

/// The node holds no invocation site of any sort under table `t`: no
/// call-form site, no placeholder, and no attribute that resolves to a
/// decorator or a modifier; nor any configuration condition the collector
/// would act on.
pub open spec fn fully_expanded_node(n: Node, t: Seq<NamedSyntaxExtension>) -> bool
    decreases n,
{
    match n {
        Node::Ident(_) => true,
        Node::Lit(_) => true,
        Node::Elem(e) => attrs_inert(e.attrs@, t) && fully_expanded_nodes(e.children@, t),
        Node::MacCall(_) => false,
        Node::Placeholder(_) => false,
    }
}

/// Every node of the sequence is fully expanded under table `t`.
pub open spec fn fully_expanded_nodes(s: Seq<Node>, t: Seq<NamedSyntaxExtension>) -> bool
    decreases s,
{
    forall|i: int| 0 <= i < s.len() ==> fully_expanded_node(s[i], t)
}

/// A bare node is fully expanded under every table.
pub proof fn lemma_bare_fully_expanded(n: Node, t: Seq<NamedSyntaxExtension>)
    requires
        crate::ast::bare_node(n),
    ensures
        fully_expanded_node(n, t),
    decreases n,
{
    match n {
        Node::Elem(e) => {
            assert forall|i: int| 0 <= i < e.children@.len() implies fully_expanded_node(
                e.children@[i],
                t,
            ) by {
                lemma_bare_fully_expanded(e.children@[i], t);
            }
        },
        _ => {},
    }
}

/// Bare node sequences are fully expanded under every table.
pub proof fn lemma_bare_fully_expanded_nodes(s: Seq<Node>, t: Seq<NamedSyntaxExtension>)
    requires
        crate::ast::bare_nodes(s),
    ensures
        fully_expanded_nodes(s, t),
{
    assert forall|i: int| 0 <= i < s.len() implies fully_expanded_node(s[i], t) by {
        lemma_bare_fully_expanded(s[i], t);
    }
}

/// A structural bound on how many fresh identities collecting the node can
/// mint, whatever the table and configuration: one per call-form site, one
/// per element (a possible attribute invocation) plus its children's bound.
pub open spec fn node_weight(n: Node) -> nat
    decreases n,
{
    match n {
        Node::Ident(_) => 0,
        Node::Lit(_) => 0,
        Node::Elem(e) => 1 + nodes_weight(e.children@),
        Node::MacCall(_) => 1,
        Node::Placeholder(_) => 0,
    }
}

/// The summed bound over a node sequence.
pub open spec fn nodes_weight(s: Seq<Node>) -> nat
    decreases s,
{
    if s.len() == 0 {
        0
    } else {
        node_weight(s[0]) + nodes_weight(s.skip(1))
    }
}

/// The node is a well-shaped call-form site naming `nm`: one bare segment,
/// no identifier argument.
pub open spec fn is_wf_bang(n: Node, nm: Seq<char>) -> bool {
    match n {
        Node::MacCall(mc) => !mac_path_malformed(mc.mac) && mc.mac.segments@[0].name@ == nm
            && mc.ident is None,
        _ => false,
    }
}

/// Some node of the sequence is a well-shaped call-form site naming `nm`.
pub open spec fn has_wf_bang(s: Seq<Node>, nm: Seq<char>) -> bool {
    exists|i: int| 0 <= i < s.len() && is_wf_bang(s[i], nm)
}

/// The invocation records a well-shaped call-form site naming `nm`.
pub open spec fn inv_is_wf_bang(inv: Invocation, nm: Seq<char>) -> bool {
    match inv.kind {
        InvocationKind::Bang { mac, ident, .. } => !mac_path_malformed(mac)
            && mac.segments@[0].name@ == nm && ident is None,
        _ => false,
    }
}

/// Some invocation of the list records a well-shaped call-form site naming
/// `nm` at depth `depth`.
pub open spec fn has_wf_bang_inv(s: Seq<Invocation>, nm: Seq<char>, depth: usize) -> bool {
    exists|i: int| 0 <= i < s.len() && inv_is_wf_bang(s[i], nm) && s[i].depth == depth
}

/// The attributes that are no configuration conditions, in their original
/// order.
pub open spec fn non_cfg_attrs(s: Seq<Attribute>) -> Seq<Attribute>
    decreases s.len(),
{
    if s.len() == 0 {
        Seq::empty()
    } else if is_cfg_attr(s.last()) {
        non_cfg_attrs(s.drop_last())
    } else {
        non_cfg_attrs(s.drop_last()).push(s.last())
    }
}

/// The attribute list with every `cfg(c)` attribute removed: exactly the
/// other attributes stay, in their original order.
pub fn strip_cfg_attrs(attrs: &Vec<Attribute>) -> (r: Vec<Attribute>)
    ensures
        attrs_eqv(r@, non_cfg_attrs(attrs@)),
        forall|i: int| 0 <= i < r@.len() ==> !is_cfg_attr(r@[i]),
        (forall|i: int| 0 <= i < attrs@.len() ==> !is_cfg_attr(attrs@[i])) ==> attrs_eqv(
            r@,
            attrs@,
        ),
{
    let n: usize = attrs.len();
    let mut out: Vec<Attribute> = Vec::new();
    let mut i: usize = 0;
    while i < n
        invariant
            n == attrs@.len(),
            i <= n,
            attrs_eqv(out@, non_cfg_attrs(attrs@.subrange(0, i as int))),
            forall|k: int| 0 <= k < out@.len() ==> !is_cfg_attr(out@[k]),
            (forall|j: int| 0 <= j < i ==> !is_cfg_attr(attrs@[j])) ==> (out@.len() == i && forall|
                j: int,
            | 0 <= j < i ==> attr_eqv(out@[j], attrs@[j])),
        decreases n - i,
    {
        proof {
            assert(attrs@.subrange(0, i + 1 as int).drop_last() =~= attrs@.subrange(0, i as int));
            assert(attrs@.subrange(0, i + 1 as int).last() == attrs@[i as int]);
        }
        let cfg_like = match &attrs[i].meta {
            MetaItem::List(name, items) => {
                crate::strutil::str_eq_str(name.as_str(), "cfg") && items.len() == 1
            },
            _ => false,
        };
        if !cfg_like {
            out.push(clone_attr(&attrs[i]));
        }
        i += 1;
    }
    proof {
        assert(attrs@.subrange(0, n as int) =~= attrs@);
    }
    out
}

/// The contract every collector call keeps: the context is only advanced, the
/// recorded list only grows, with strictly increasing fresh identities all at
/// the given depth.
pub open spec fn collect_post(
    cx0: ExtCtxt,
    cx1: ExtCtxt,
    invs0: Seq<Invocation>,
    invs1: Seq<Invocation>,
    depth: usize,
) -> bool {
    &&& cx_frame(cx0, cx1)
    &&& cx1.diagnostics == cx0.diagnostics
    &&& invs0.is_prefix_of(invs1)
    &&& (invs_increasing(invs0) && invs_bounded(invs0, cx0.next_mark) ==> invs_increasing(invs1)
        && invs_bounded(invs1, cx1.next_mark))
    &&& forall|i: int| invs0.len() <= i < invs1.len() ==> #[trigger] invs1[i].depth == depth
}

/// Walks one node top-down. A call-form site is replaced by a placeholder
/// and recorded; a node carrying an attribute that resolves to a decorator or
/// a modifier is wrapped, with that attribute extracted, into an
/// attribute-triggered invocation and replaced by a placeholder, its
/// children's collection deferred until that expansion completes; any other
/// node is rebuilt around its collected children. A node whose configuration
/// condition is off is dropped.
pub fn collect_node(cx: &mut ExtCtxt, invs: &mut Vec<Invocation>, depth: usize, n: Node) -> (r:
    Result<Vec<Node>, ExpandError>)
    requires
        invs_increasing(old(invs)@),
        invs_bounded(old(invs)@, old(cx).next_mark),
    ensures
        cx_frame(*old(cx), *final(cx)),
        match r {
            Result::Ok(out) => {
                &&& collect_post(*old(cx), *final(cx), old(invs)@, final(invs)@, depth)
                &&& (fully_expanded_node(n, table_of(*old(cx))) ==> out@.len() == 1 && node_eqv(
                    out@[0],
                    n,
                ) && final(invs)@ == old(invs)@ && final(cx).next_mark == old(cx).next_mark)
                &&& (forall|nm: Seq<char>|
                    is_wf_bang(n, nm) ==> has_wf_bang_inv(final(invs)@, nm, depth))
            },
            Result::Err(e) => e == ExpandError::IdentityExhausted && supply_exhausted(*final(cx)),
        },
        fully_expanded_node(n, table_of(*old(cx))) ==> r is Ok,
        final(cx).next_mark as int <= old(cx).next_mark as int + node_weight(n),
        old(cx).next_mark as int + node_weight(n) <= u64::MAX as int ==> r is Ok,
        n matches Node::MacCall(mc) ==> (mc.mac.segments@.len() > 0 ==> (match r {
            Result::Ok(out) => {
                &&& out@ =~= seq![
                    Node::Placeholder(Placeholder { kind: mc.kind, id: old(cx).next_mark }),
                ]
                &&& final(invs)@ =~= old(invs)@.push(
                    Invocation {
                        id: old(cx).next_mark,
                        kind: InvocationKind::Bang {
                            mac: mc.mac,
                            ident: mc.ident,
                            attrs: mc.attrs,
                            span: mc.span,
                        },
                        expansion_kind: mc.kind,
                        depth,
                        span: mc.span,
                    },
                )
                &&& final(cx).next_mark == old(cx).next_mark + 1
            },
            Result::Err(_) => true,
        })),
    decreases n,
{
    let ghost n0 = n;
    match n {
        Node::Ident(i) => {
            proof {
                crate::ast::lemma_node_eqv_refl(n0);
            }
            Result::Ok(vec![Node::Ident(i)])
        },
        Node::Lit(s) => {
            proof {
                crate::ast::lemma_node_eqv_refl(n0);
            }
            Result::Ok(vec![Node::Lit(s)])
        },
        Node::Placeholder(p) => Result::Ok(vec![Node::Placeholder(p)]),
        Node::MacCall(mc) => {
            if mc.mac.segments.len() == 0 {
                // a degenerate path cannot name anything: pass the site
                // through to the output unchanged
                return Result::Ok(vec![Node::MacCall(mc)]);
            }
            let id = match cx.fresh_mark() {
                Result::Ok(m) => m,
                Result::Err(e) => {
                    return Result::Err(e);
                },
            };
            let span = mc.span;
            let kind = mc.kind;
            let inv = Invocation {
                id,
                kind: InvocationKind::Bang {
                    mac: mc.mac,
                    ident: mc.ident,
                    attrs: mc.attrs,
                    span,
                },
                expansion_kind: kind,
                depth,
                span,
            };
            invs.push(inv);
            proof {
                assert(invs@.drop_last() =~= old(invs)@);
                assert(old(invs)@.is_prefix_of(invs@));
                assert forall|nm: Seq<char>| is_wf_bang(n0, nm) implies has_wf_bang_inv(
                    invs@,
                    nm,
                    depth,
                ) by {
                    let last: int = invs@.len() - 1;
                    assert(inv_is_wf_bang(invs@[last], nm) && invs@[last].depth == depth);
                }
            }
            Result::Ok(vec![Node::Placeholder(Placeholder { kind, id })])
        },
        Node::Elem(e) => {
            if !in_cfg(&e.attrs, &cx.cfg) {
                return Result::Ok(Vec::new());
            }
            let mut attrs = strip_cfg_attrs(&e.attrs);
            let ghost stripped = attrs@;
            let extracted = cx.resolver.find_attr_invoc(&mut attrs);
            match extracted {
                Option::Some(attr) => {
                    proof {
                        if fully_expanded_node(n0, table_of(*old(cx))) {
                            // inert attributes resolve to nothing, so no
                            // attribute could have been extracted
                            let i = choose|i: int|
                                0 <= i < stripped.len() && attr == stripped[i]
                                    && crate::resolver::resolves_to_attr_ext(
                                    cx.resolver.extensions@,
                                    attr.meta.spec_name(),
                                );
                            assert(attr_eqv(stripped[i], e.attrs@[i]));
                            assert(stripped[i].meta.spec_name() == e.attrs@[i].meta.spec_name());
                            assert(false);
                        }
                    }
                    let id = match cx.fresh_mark() {
                        Result::Ok(m) => m,
                        Result::Err(e) => {
                            return Result::Err(e);
                        },
                    };
                    let span = attr.span;
                    let kind = e.kind;
                    let item = Node::Elem(
                        Elem {
                            kind: e.kind,
                            ident: e.ident,
                            attrs,
                            children: e.children,
                            span: e.span,
                        },
                    );
                    invs.push(
                        Invocation {
                            id,
                            kind: InvocationKind::Attr { attr, item },
                            expansion_kind: kind,
                            depth,
                            span,
                        },
                    );
                    proof {
                        assert(invs@.drop_last() =~= old(invs)@);
                        assert(old(invs)@.is_prefix_of(invs@));
                    }
                    Result::Ok(vec![Node::Placeholder(Placeholder { kind, id })])
                },
                Option::None => {
                    proof {
                        assert(decreases_to!(n0 => e));
                        assert(decreases_to!(e => e.children));
                    }
                    let children = match collect_nodes(cx, invs, depth, e.children) {
                        Result::Ok(c) => c,
                        Result::Err(er) => {
                            return Result::Err(er);
                        },
                    };
                    let ghost eid = e.ident;
                    let out = Node::Elem(
                        Elem { kind: e.kind, ident: e.ident, attrs, children, span: e.span },
                    );
                    proof {
                        if fully_expanded_node(n0, table_of(*old(cx))) {
                            crate::ast::lemma_node_eqv_refl(n0);
                            match eid {
                                Option::Some(idn) => {
                                    assert(crate::ast::ident_eqv(idn, idn));
                                },
                                Option::None => {},
                            }
                        }
                    }
                    Result::Ok(vec![out])
                },
            }
        },
    }
}

/// Collects each node of the sequence in order, splicing the results.
pub fn collect_nodes(cx: &mut ExtCtxt, invs: &mut Vec<Invocation>, depth: usize, v: Vec<Node>)
    -> (r: Result<Vec<Node>, ExpandError>)
    requires
        invs_increasing(old(invs)@),
        invs_bounded(old(invs)@, old(cx).next_mark),
    ensures
        cx_frame(*old(cx), *final(cx)),
        match r {
            Result::Ok(out) => {
                &&& collect_post(*old(cx), *final(cx), old(invs)@, final(invs)@, depth)
                &&& (fully_expanded_nodes(v@, table_of(*old(cx))) ==> nodes_eqv(out@, v@)
                    && final(invs)@ == old(invs)@ && final(cx).next_mark == old(cx).next_mark)
                &&& (forall|nm: Seq<char>|
                    has_wf_bang(v@, nm) ==> has_wf_bang_inv(final(invs)@, nm, depth))
            },
            Result::Err(e) => e == ExpandError::IdentityExhausted && supply_exhausted(*final(cx)),
        },
        fully_expanded_nodes(v@, table_of(*old(cx))) ==> r is Ok,
        final(cx).next_mark as int <= old(cx).next_mark as int + nodes_weight(v@),
        old(cx).next_mark as int + nodes_weight(v@) <= u64::MAX as int ==> r is Ok,
        v@.len() == 1 ==> (v@[0] matches Node::MacCall(mc) ==> (mc.mac.segments@.len() > 0 ==> (
        match r {
            Result::Ok(out) => {
                &&& out@ =~= seq![
                    Node::Placeholder(Placeholder { kind: mc.kind, id: old(cx).next_mark }),
                ]
                &&& final(invs)@ =~= old(invs)@.push(
                    Invocation {
                        id: old(cx).next_mark,
                        kind: InvocationKind::Bang {
                            mac: mc.mac,
                            ident: mc.ident,
                            attrs: mc.attrs,
                            span: mc.span,
                        },
                        expansion_kind: mc.kind,
                        depth,
                        span: mc.span,
                    },
                )
                &&& final(cx).next_mark == old(cx).next_mark + 1
            },
            Result::Err(_) => true,
        }))),
    decreases v@,
{
    let mut v = v;
    let ghost v0 = v@;
    if v.len() == 0 {
        proof {
            assert(old(invs)@.is_prefix_of(old(invs)@));
        }
        return Result::Ok(Vec::new());
    }
    let first = v.remove(0);
    proof {
        assert(first == v0[0]);
        assert(v@ =~= v0.subrange(1, v0.len() as int));
        assert(decreases_to!(v0 => v0[0]));
        assert(decreases_to!(v0 => v0.subrange(1, v0.len() as int)));
    }
    let mut out = match collect_node(cx, invs, depth, first) {
        Result::Ok(o) => o,
        Result::Err(e) => {
            return Result::Err(e);
        },
    };
    let ghost cx_mid = *cx;
    let ghost invs_mid = invs@;
    let ghost out_first = out@;
    let mut rest = match collect_nodes(cx, invs, depth, v) {
        Result::Ok(o) => o,
        Result::Err(e) => {
            return Result::Err(e);
        },
    };
    let ghost rest0 = rest@;
    out.append(&mut rest);
    proof {
        // the two extensions of the recorded list compose
        assert(old(invs)@.is_prefix_of(invs@)) by {
            assert(invs_mid.subrange(0, old(invs)@.len() as int) =~= invs@.subrange(
                0,
                old(invs)@.len() as int,
            ));
        }
        assert forall|i: int|
            old(invs)@.len() <= i < invs@.len() implies #[trigger] invs@[i].depth == depth by {
            if i < invs_mid.len() {
                assert(invs_mid.is_prefix_of(invs@));
                assert(invs@.subrange(0, invs_mid.len() as int)[i] == invs@[i]);
                assert(invs@[i] == invs_mid[i]);
            }
        }
        if fully_expanded_nodes(v0, table_of(*old(cx))) {
            assert(fully_expanded_node(v0[0], table_of(*old(cx))));
            assert(fully_expanded_nodes(v0.subrange(1, v0.len() as int), table_of(cx_mid)))
                by {
                assert forall|i: int|
                    0 <= i < v0.len() - 1 implies fully_expanded_node(
                    v0.subrange(1, v0.len() as int)[i],
                    table_of(cx_mid),
                ) by {
                    assert(v0.subrange(1, v0.len() as int)[i] == v0[i + 1]);
                }
            }
            assert(nodes_eqv(out@, v0)) by {
                assert forall|i: int| 0 <= i < v0.len() implies node_eqv(out@[i], v0[i]) by {
                    if i == 0 {
                        assert(out@[0] == out_first[0]);
                    } else {
                        assert(out@[i] == rest0[i - 1]);
                        assert(v0.subrange(1, v0.len() as int)[i - 1] == v0[i]);
                    }
                }
            }
        }
        assert forall|nm: Seq<char>| has_wf_bang(v0, nm) implies has_wf_bang_inv(
            invs@,
            nm,
            depth,
        ) by {
            let i = choose|i: int| 0 <= i < v0.len() && is_wf_bang(v0[i], nm);
            if i == 0 {
                // recorded by the first step and kept by the rest
                assert(has_wf_bang_inv(invs_mid, nm, depth));
                let k = choose|k: int|
                    0 <= k < invs_mid.len() && inv_is_wf_bang(invs_mid[k], nm)
                        && invs_mid[k].depth == depth;
                assert(invs@[k] == invs_mid[k]) by {
                    assert(invs_mid.is_prefix_of(invs@));
                    assert(invs@.subrange(0, invs_mid.len() as int)[k] == invs@[k]);
                }
            } else {
                assert(v0.subrange(1, v0.len() as int)[i - 1] == v0[i]);
                assert(has_wf_bang(v0.subrange(1, v0.len() as int), nm));
            }
        }
    }
    Result::Ok(out)
}

/// Collects a result whose own attributes the attribute pipeline has already
/// consumed or preserved: the nodes themselves are not classified again, but
/// their children and any call-form sites inside them still are. Without
/// this, a preserved attribute whose name resolves would trigger itself
/// for ever.
pub fn collect_result_nodes(
    cx: &mut ExtCtxt,
    invs: &mut Vec<Invocation>,
    depth: usize,
    v: Vec<Node>,
) -> (r: Result<Vec<Node>, ExpandError>)
    requires
        invs_increasing(old(invs)@),
        invs_bounded(old(invs)@, old(cx).next_mark),
    ensures
        cx_frame(*old(cx), *final(cx)),
        match r {
            Result::Ok(out) => collect_post(*old(cx), *final(cx), old(invs)@, final(invs)@, depth),
            Result::Err(e) => e == ExpandError::IdentityExhausted && supply_exhausted(*final(cx)),
        },
        final(cx).next_mark as int <= old(cx).next_mark as int + nodes_weight(v@),
        old(cx).next_mark as int + nodes_weight(v@) <= u64::MAX as int ==> r is Ok,
    decreases v@,
{
    let mut v = v;
    let ghost v0 = v@;
    if v.len() == 0 {
        proof {
            assert(old(invs)@.is_prefix_of(old(invs)@));
        }
        return Result::Ok(Vec::new());
    }
    let first = v.remove(0);
    proof {
        assert(first == v0[0]);
        assert(v@ =~= v0.subrange(1, v0.len() as int));
        assert(decreases_to!(v0 => v0[0]));
        assert(decreases_to!(v0 => v0.subrange(1, v0.len() as int)));
    }
    proof {
        assert(v0.skip(1) =~= v0.subrange(1, v0.len() as int));
        assert(nodes_weight(v0) == node_weight(v0[0]) + nodes_weight(v0.skip(1)));
    }
    let mut out: Vec<Node> = match first {
        Node::Elem(e) => {
            proof {
                assert(node_weight(v0[0]) == 1 + nodes_weight(e.children@));
            }
            if !in_cfg(&e.attrs, &cx.cfg) {
                Vec::new()
            } else {
                let attrs = strip_cfg_attrs(&e.attrs);
                proof {
                    assert(decreases_to!(v0[0] => e));
                    assert(decreases_to!(e => e.children));
                }
                let children = match collect_nodes(cx, invs, depth, e.children) {
                    Result::Ok(c) => c,
                    Result::Err(er) => {
                        return Result::Err(er);
                    },
                };
                vec![
                    Node::Elem(
                        Elem { kind: e.kind, ident: e.ident, attrs, children, span: e.span },
                    ),
                ]
            }
        },
        other => {
            match collect_node(cx, invs, depth, other) {
                Result::Ok(o) => o,
                Result::Err(er) => {
                    return Result::Err(er);
                },
            }
        },
    };
    let ghost cx_mid = *cx;
    let ghost invs_mid = invs@;
    let mut rest = match collect_result_nodes(cx, invs, depth, v) {
        Result::Ok(o) => o,
        Result::Err(e) => {
            return Result::Err(e);
        },
    };
    out.append(&mut rest);
    proof {
        assert(old(invs)@.is_prefix_of(invs@)) by {
            assert(invs_mid.subrange(0, old(invs)@.len() as int) =~= invs@.subrange(
                0,
                old(invs)@.len() as int,
            ));
        }
        assert forall|i: int|
            old(invs)@.len() <= i < invs@.len() implies #[trigger] invs@[i].depth == depth by {
            if i < invs_mid.len() {
                assert(invs_mid.is_prefix_of(invs@));
                assert(invs@.subrange(0, invs_mid.len() as int)[i] == invs@[i]);
                assert(invs@[i] == invs_mid[i]);
            }
        }
    }
    Result::Ok(out)
}

/// A neutral result of the given shape, substituted where an invocation
/// could not produce one, so that the surrounding tree stays well-formed and
/// expansion can go on collecting diagnostics.
pub fn dummy_result(kind: ExpansionKind, span: Span) -> (r: Vec<Node>)
    ensures
        crate::ast::placeholders_free(r@),
        kind.spec_is_single() ==> r@.len() == 1,
        !kind.spec_is_single() ==> r@.len() == 0,
{
    if kind.is_single() {
        let out = vec![
            Node::Elem(
                Elem {
                    kind,
                    ident: Option::None,
                    attrs: Vec::new(),
                    children: Vec::new(),
                    span,
                },
            ),
        ];
        proof {
            assert(crate::ast::placeholder_free(out@[0]));
        }
        out
    } else {
        Vec::new()
    }
}

/// The name `nm` is registered as a function-like extension whose one result
/// node is again a well-shaped invocation of `nm`: expanding it can never
/// reach a fixed point.
pub open spec fn self_reemitting(t: Seq<NamedSyntaxExtension>, nm: Seq<char>) -> bool {
    match crate::resolver::find_ext(t, nm) {
        Option::Some(
            crate::registry::SyntaxExtension::NormalTT(crate::registry::Expander::Emit(ns)),
        ) => ns@.len() == 1 && is_wf_bang(ns@[0], nm),
        _ => false,
    }
}

/// Equivalent nodes are well-shaped invocation sites of the same name
/// together.
pub proof fn lemma_eqv_preserves_wf_bang(a: Node, b: Node, nm: Seq<char>)
    requires
        node_eqv(a, b),
    ensures
        is_wf_bang(a, nm) <==> is_wf_bang(b, nm),
{
    match (a, b) {
        (Node::MacCall(x), Node::MacCall(y)) => {
            if x.mac.segments@.len() == 1 {
                assert(crate::ast::ident_eqv(x.mac.segments@[0], y.mac.segments@[0]));
            }
        },
        _ => {},
    }
}

/// Marking preserves well-shaped invocation sites and their names.
pub proof fn lemma_marked_preserves_wf_bang(a: Node, b: Node, m: u64, nm: Seq<char>)
    requires
        crate::hygiene::node_marked(a, b, m),
    ensures
        is_wf_bang(a, nm) <==> is_wf_bang(b, nm),
{
    match (a, b) {
        (Node::MacCall(x), Node::MacCall(y)) => {
            if x.mac.segments@.len() == 1 {
                assert(crate::hygiene::ident_marked(x.mac.segments@[0], y.mac.segments@[0], m));
            }
        },
        _ => {},
    }
}

/// A fully expanded node holds no placeholder.
pub proof fn lemma_fully_expanded_placeholder_free(n: Node, t: Seq<NamedSyntaxExtension>)
    requires
        fully_expanded_node(n, t),
    ensures
        crate::ast::placeholder_free(n),
    decreases n,
{
    match n {
        Node::Elem(e) => {
            assert forall|i: int|
                0 <= i < e.children@.len() implies crate::ast::placeholder_free(
                e.children@[i],
            ) by {
                lemma_fully_expanded_placeholder_free(e.children@[i], t);
            }
        },
        _ => {},
    }
}

/// Fully expanded node sequences hold no placeholder.
pub proof fn lemma_fully_expanded_placeholders_free(s: Seq<Node>, t: Seq<NamedSyntaxExtension>)
    requires
        fully_expanded_nodes(s, t),
    ensures
        crate::ast::placeholders_free(s),
{
    assert forall|i: int| 0 <= i < s.len() implies crate::ast::placeholder_free(s[i]) by {
        lemma_fully_expanded_placeholder_free(s[i], t);
    }
}

/// A resolved extension, summarized for dispatch.
enum ResolvedExt {
    NormalE(crate::registry::Expander),
    IdentE(crate::registry::Expander),
    AttrE,
}

/// Resolves and expands one invocation, producing its raw result nodes.
///
/// A function-like invocation whose path is ill-shaped, whose identifier
/// argument is missing or superfluous, or that names an attribute-only
/// extension is reported and yields a neutral result. An unresolved one
/// passes through unexpanded under the permissive policy and is otherwise
/// reported. An attribute-triggered invocation runs the attribute pipeline
/// with the extracted attribute back in front.
pub fn expand_invoc(cx: &mut ExtCtxt, inv: Invocation) -> (r: Result<
    (Vec<Node>, bool, bool),
    ExpandError,
>)
    ensures
        cx_frame(*old(cx), *final(cx)),
        forall|nm: Seq<char>|
            inv_is_wf_bang(inv, nm) && self_reemitting(table_of(*old(cx)), nm) ==> r is Ok
                && r->Ok_0.0@.len() == 1 && has_wf_bang(r->Ok_0.0@, nm) && r->Ok_0.1 == false
                && r->Ok_0.2 == false,
        r matches Result::Err(ExpandError::IdentityExhausted) ==> supply_exhausted(*final(cx)),
        match inv.kind {
            InvocationKind::Bang { mac, ident, attrs, span } => {
                &&& (mac_path_malformed(mac) ==> (match r {
                    Result::Ok(p) => p.1 == false && crate::ast::placeholders_free(p.0@)
                        && p.0@.len() == (if inv.expansion_kind.spec_is_single() {
                        1int
                    } else {
                        0int
                    }) && final(cx).diagnostics@ == old(cx).diagnostics@.push(
                        Diagnostic { span, kind: DiagKind::MalformedInvocation },
                    ),
                    Result::Err(_) => false,
                }))
                &&& ((!mac_path_malformed(mac) && crate::resolver::find_ext(
                    table_of(*old(cx)),
                    mac.segments@[0].name@,
                ) is None && old(cx).ecfg.permissive) ==> (match r {
                    Result::Ok(p) => p.1 == true && p.2 == false && p.0@.len() == 1 && p.0@[0]
                        == Node::MacCall(
                        MacNode { kind: inv.expansion_kind, mac, ident, attrs, span },
                    ),
                    Result::Err(_) => false,
                }))
                &&& ((!mac_path_malformed(mac) && crate::resolver::find_ext(
                    table_of(*old(cx)),
                    mac.segments@[0].name@,
                ) is None && !old(cx).ecfg.permissive) ==> (match r {
                    Result::Ok(p) => p.1 == false && crate::ast::placeholders_free(p.0@)
                        && p.0@.len() == (if inv.expansion_kind.spec_is_single() {
                        1int
                    } else {
                        0int
                    }) && final(cx).diagnostics@ == old(cx).diagnostics@.push(
                        Diagnostic { span, kind: DiagKind::UnresolvedExtension },
                    ),
                    Result::Err(_) => false,
                }))
                &&& ((!mac_path_malformed(mac) && ident is Some && (match crate::resolver::find_ext(
                    table_of(*old(cx)),
                    mac.segments@[0].name@,
                ) {
                    Option::Some(
                        crate::registry::SyntaxExtension::IdentTT(
                            crate::registry::Expander::Emit(ns),
                        ),
                    ) => true,
                    _ => false,
                })) ==> (match r {
                    Result::Ok(p) => p.1 == false && p.2 == false && nodes_eqv(
                        p.0@,
                        ident_template_of(table_of(*old(cx)), mac.segments@[0].name@),
                    ),
                    Result::Err(_) => false,
                }))
                &&& ((!mac_path_malformed(mac) && ident is None && (match crate::resolver::find_ext(
                    table_of(*old(cx)),
                    mac.segments@[0].name@,
                ) {
                    Option::Some(
                        crate::registry::SyntaxExtension::NormalTT(
                            crate::registry::Expander::Emit(ns),
                        ),
                    ) => true,
                    _ => false,
                })) ==> (match r {
                    Result::Ok(p) => p.1 == false && p.2 == false && nodes_eqv(
                        p.0@,
                        template_of(table_of(*old(cx)), mac.segments@[0].name@),
                    ) && final(cx).diagnostics == old(cx).diagnostics,
                    Result::Err(_) => false,
                }))
            },
            InvocationKind::Attr { attr, item } => {
                &&& (r matches Result::Ok(p) ==> p.1 == false && p.2 == true)
                &&& ((item is Elem && !crate::decorator::is_cfg_attr_wrapper(attr)
                    && attr.meta.spec_name() != "derive"@ && crate::decorator::arity_violation(
                    table_of(*old(cx)),
                    attr.meta.spec_name(),
                ) && old(cx).ecfg.recursion_limit > 0) ==> (match r {
                    Result::Err(ExpandError::ModifierArityViolation { span: sp, found }) => sp
                        == attr.span && found as nat == crate::decorator::emit_arity(
                        table_of(*old(cx)),
                        attr.meta.spec_name(),
                    ),
                    _ => false,
                }))
            },
        },
{
    let ghost t0 = table_of(*cx);
    let looked: Option<ResolvedExt> = match cx.resolver.resolve_invoc(0, &inv) {
        Option::Some(crate::registry::SyntaxExtension::NormalTT(e)) => Option::Some(
            ResolvedExt::NormalE(crate::registry::clone_expander(e)),
        ),
        Option::Some(crate::registry::SyntaxExtension::IdentTT(e)) => Option::Some(
            ResolvedExt::IdentE(crate::registry::clone_expander(e)),
        ),
        Option::Some(_) => Option::Some(ResolvedExt::AttrE),
        Option::None => Option::None,
    };
    let Invocation { id: _, kind, expansion_kind, depth: _, span: _ } = inv;
    match kind {
        InvocationKind::Bang { mac, ident, attrs, span } => {
            if mac.segments.len() != 1 || mac.global || mac.has_parameters {
                cx.diag(span, DiagKind::MalformedInvocation);
                return Result::Ok((dummy_result(expansion_kind, span), false, false));
            }
            match looked {
                Option::None => {
                    if cx.ecfg.permissive {
                        // pass the invocation through to the output in its
                        // original form, for downstream consumers unaware of
                        // the extension; it is neither marked nor collected
                        // again
                        Result::Ok(
                            (
                                vec![
                                    Node::MacCall(
                                        MacNode {
                                            kind: expansion_kind,
                                            mac,
                                            ident,
                                            attrs,
                                            span,
                                        },
                                    ),
                                ],
                                true,
                                false,
                            ),
                        )
                    } else {
                        cx.diag(span, DiagKind::UnresolvedExtension);
                        Result::Ok((dummy_result(expansion_kind, span), false, false))
                    }
                },
                Option::Some(ResolvedExt::NormalE(exp)) => {
                    if ident.is_some() {
                        cx.diag(span, DiagKind::MalformedInvocation);
                        return Result::Ok((dummy_result(expansion_kind, span), false, false));
                    }
                    match exp {
                        crate::registry::Expander::Emit(ns) => {
                            let out = crate::ast::clone_nodes(&ns);
                            proof {
                                crate::ast::lemma_nodes_eqv_trans(
                                    out@,
                                    ns@,
                                    template_of(t0, mac.segments@[0].name@),
                                );
                                assert forall|nm: Seq<char>|
                                    inv_is_wf_bang(inv, nm) && self_reemitting(t0, nm) implies out@.len()
                                    == 1 && has_wf_bang(out@, nm) by {
                                    crate::ast::lemma_nodes_eqv_trans(out@, ns@, template_of(t0, nm));
                                    lemma_eqv_preserves_wf_bang(
                                        out@[0],
                                        template_of(t0, nm)[0],
                                        nm,
                                    );
                                }
                            }
                            Result::Ok((out, false, false))
                        },
                        _ => {
                            cx.diag(span, DiagKind::ResultKindMismatch);
                            Result::Ok((dummy_result(expansion_kind, span), false, false))
                        },
                    }
                },
                Option::Some(ResolvedExt::IdentE(exp)) => {
                    if ident.is_none() {
                        cx.diag(span, DiagKind::MalformedInvocation);
                        return Result::Ok((dummy_result(expansion_kind, span), false, false));
                    }
                    match exp {
                        crate::registry::Expander::Emit(ns) => {
                            let out = crate::ast::clone_nodes(&ns);
                            proof {
                                crate::ast::lemma_nodes_eqv_trans(
                                    out@,
                                    ns@,
                                    ident_template_of(t0, mac.segments@[0].name@),
                                );
                            }
                            Result::Ok((out, false, false))
                        },
                        _ => {
                            cx.diag(span, DiagKind::ResultKindMismatch);
                            Result::Ok((dummy_result(expansion_kind, span), false, false))
                        },
                    }
                },
                Option::Some(ResolvedExt::AttrE) => {
                    cx.diag(span, DiagKind::MalformedInvocation);
                    Result::Ok((dummy_result(expansion_kind, span), false, false))
                },
            }
        },
        InvocationKind::Attr { attr, item } => {
            let fuel = cx.ecfg.recursion_limit;
            let ghost attr0 = attr;
            let item2 = match item {
                Node::Elem(mut e) => {
                    e.attrs.insert(0, attr);
                    proof {
                        assert(e.attrs@[0] == attr0);
                    }
                    Node::Elem(e)
                },
                other => other,
            };
            match crate::decorator::expand_annotatable(cx, item2, fuel) {
                // the pipeline has already consumed or preserved every
                // attribute of these nodes: they are not classified again
                Result::Ok(out) => Result::Ok((out, false, true)),
                Result::Err(e) => Result::Err(e),
            }
        },
    }
}

/// The template the self-re-emitting extension under `nm` emits.
pub open spec fn template_of(t: Seq<NamedSyntaxExtension>, nm: Seq<char>) -> Seq<Node> {
    match crate::resolver::find_ext(t, nm) {
        Option::Some(
            crate::registry::SyntaxExtension::NormalTT(crate::registry::Expander::Emit(ns)),
        ) => ns@,
        _ => Seq::empty(),
    }
}

/// The template the ident-tagged extension under `nm` emits.
pub open spec fn ident_template_of(t: Seq<NamedSyntaxExtension>, nm: Seq<char>) -> Seq<Node> {
    match crate::resolver::find_ext(t, nm) {
        Option::Some(
            crate::registry::SyntaxExtension::IdentTT(crate::registry::Expander::Emit(ns)),
        ) => ns@,
        _ => Seq::empty(),
    }
}

/// The expansion is exactly one well-shaped call of `nm`, and `nm` is
/// registered as a function-like extension emitting a fixed bare template
/// that fits the call's position: one pass must resolve everything.
pub open spec fn lone_emit_call(
    t: Seq<NamedSyntaxExtension>,
    nodes: Seq<Node>,
    nm: Seq<char>,
) -> bool {
    &&& nodes.len() == 1
    &&& is_wf_bang(nodes[0], nm)
    &&& (match crate::resolver::find_ext(t, nm) {
        Option::Some(
            crate::registry::SyntaxExtension::NormalTT(crate::registry::Expander::Emit(ns)),
        ) => crate::ast::bare_nodes(ns@) && (nodes[0]->MacCall_0.kind.spec_is_single()
            ==> ns@.len() == 1),
        _ => false,
    })
}

/// Every stored result is already free of placeholders.
pub open spec fn map_free(m: Seq<(u64, ExpansionKind, Vec<Node>)>) -> bool {
    forall|i: int| 0 <= i < m.len() ==> crate::ast::placeholders_free(m[i].2@)
}

/// Some stored result carries identity `id`.
pub open spec fn map_has_id(m: Seq<(u64, ExpansionKind, Vec<Node>)>, id: u64) -> bool {
    exists|i: int| 0 <= i < m.len() && m[i].0 == id
}

/// The earliest stored result carrying identity `id`, if one is there.
pub open spec fn map_find(m: Seq<(u64, ExpansionKind, Vec<Node>)>, id: u64) -> Option<
    (u64, ExpansionKind, Vec<Node>),
>
    decreases m.len(),
{
    if m.len() == 0 {
        Option::None
    } else if m[0].0 == id {
        Option::Some(m[0])
    } else {
        map_find(m.skip(1), id)
    }
}

/// The stored result with identity `id`, if one is there.
fn lookup_result<'a>(map: &'a Vec<(u64, ExpansionKind, Vec<Node>)>, id: u64) -> (r: Option<
    &'a (u64, ExpansionKind, Vec<Node>),
>)
    ensures
        match r {
            Option::Some(e) => map_find(map@, id) == Option::Some(*e) && e.0 == id && (exists|
                i: int,
            | 0 <= i < map@.len() && map@[i] == *e),
            Option::None => !map_has_id(map@, id) && map_find(map@, id) is None,
        },
{
    let n: usize = map.len();
    let mut i: usize = 0;
    proof {
        assert(map@.subrange(0, n as int) =~= map@);
    }
    while i < n
        invariant
            n == map@.len(),
            i <= n,
            forall|j: int| 0 <= j < i ==> map@[j].0 != id,
            map_find(map@, id) == map_find(map@.subrange(i as int, n as int), id),
        decreases n - i,
    {
        proof {
            assert(map@.subrange(i as int, n as int)[0] == map@[i as int]);
            assert(map@.subrange(i as int, n as int).skip(1) =~= map@.subrange(
                i + 1 as int,
                n as int,
            ));
        }
        if map[i].0 == id {
            return Option::Some(&map[i]);
        }
        i += 1;
    }
    Option::None
}

/// Replaces every placeholder in the node by its recorded result: one node,
/// several, or none, as the placeholder's position admits. Fails when a
/// placeholder has no recorded result.
pub fn subst_node(
    cx: &mut ExtCtxt,
    map: &Vec<(u64, ExpansionKind, Vec<Node>)>,
    n: Node,
) -> (r: Result<Vec<Node>, ExpandError>)
    requires
        map_free(map@),
    ensures
        cx_frame(*old(cx), *final(cx)),
        match r {
            Result::Ok(out) => {
                &&& crate::ast::placeholders_free(out@)
                &&& (crate::ast::placeholder_free(n) ==> out@.len() == 1 && node_eqv(out@[0], n)
                    && final(cx).diagnostics == old(cx).diagnostics)
            },
            Result::Err(e) => e matches ExpandError::MissingPlaceholder { id } && !map_has_id(
                map@,
                id,
            ),
        },
        crate::ast::placeholder_free(n) ==> r is Ok,
        n matches Node::Placeholder(p) ==> (match map_find(map@, p.id) {
            Option::Some(entry) => !(p.kind.spec_is_single() && entry.2@.len() != 1) ==> (match r {
                Result::Ok(out) => nodes_eqv(out@, entry.2@) && final(cx).diagnostics == old(
                    cx,
                ).diagnostics,
                Result::Err(_) => false,
            }),
            Option::None => (match r {
                Result::Err(ExpandError::MissingPlaceholder { id }) => id == p.id,
                _ => false,
            }),
        }),
        n matches Node::Elem(e) ==> (match r {
            Result::Ok(out) => out@.len() == 1 && (out@[0] matches Node::Elem(oe) && oe.kind
                == e.kind && oe.span == e.span && oe.ident == e.ident && oe.attrs == e.attrs),
            Result::Err(_) => true,
        }),
        n matches Node::MacCall(mc) ==> (match r {
            Result::Ok(out) => out@.len() == 1 && (out@[0] matches Node::MacCall(oc) && oc.kind
                == mc.kind && oc.span == mc.span && oc.ident == mc.ident && oc.attrs == mc.attrs
                && oc.mac.global == mc.mac.global && oc.mac.segments == mc.mac.segments
                && oc.mac.has_parameters == mc.mac.has_parameters && oc.mac.span == mc.mac.span),
            Result::Err(_) => true,
        }),
    decreases n,
{
    let ghost n0 = n;
    match n {
        Node::Ident(i) => {
            proof {
                crate::ast::lemma_node_eqv_refl(n0);
            }
            Result::Ok(vec![Node::Ident(i)])
        },
        Node::Lit(s) => {
            proof {
                crate::ast::lemma_node_eqv_refl(n0);
            }
            Result::Ok(vec![Node::Lit(s)])
        },
        Node::Placeholder(p) => {
            let found = lookup_result(map, p.id);
            match found {
                Option::None => Result::Err(ExpandError::MissingPlaceholder { id: p.id }),
                Option::Some(entry) => {
                    if p.kind.is_single() && entry.2.len() != 1 {
                        let out = dummy_result(p.kind, dummy_span());
                        cx.diag(dummy_span(), DiagKind::ResultKindMismatch);
                        Result::Ok(out)
                    } else {
                        let out = crate::ast::clone_nodes(&entry.2);
                        proof {
                            crate::ast::lemma_nodes_eqv_sym(out@, entry.2@);
                            crate::ast::lemma_eqv_preserves_placeholders_free(entry.2@, out@);
                        }
                        Result::Ok(out)
                    }
                },
            }
        },
        Node::Elem(e) => {
            proof {
                assert(decreases_to!(n0 => e));
                assert(decreases_to!(e => e.children));
            }
            let children = match subst_nodes(cx, map, e.children) {
                Result::Ok(c) => c,
                Result::Err(er) => {
                    return Result::Err(er);
                },
            };
            let ghost eid = e.ident;
            let out = Node::Elem(
                Elem { kind: e.kind, ident: e.ident, attrs: e.attrs, children, span: e.span },
            );
            proof {
                if crate::ast::placeholder_free(n0) {
                    crate::ast::lemma_attrs_eqv_refl(out->Elem_0.attrs@);
                    match eid {
                        Option::Some(idn) => {
                            assert(crate::ast::ident_eqv(idn, idn));
                        },
                        Option::None => {},
                    }
                }
            }
            Result::Ok(vec![out])
        },
        Node::MacCall(mc) => {
            proof {
                assert(decreases_to!(n0 => mc));
                assert(decreases_to!(mc => mc.mac));
                assert(decreases_to!(mc.mac => mc.mac.args));
            }
            let mac = mc.mac;
            let args = match subst_nodes(cx, map, mac.args) {
                Result::Ok(a) => a,
                Result::Err(er) => {
                    return Result::Err(er);
                },
            };
            let ghost mid = mc.ident;
            let out = Node::MacCall(
                MacNode {
                    kind: mc.kind,
                    mac: Mac {
                        global: mac.global,
                        segments: mac.segments,
                        has_parameters: mac.has_parameters,
                        args,
                        span: mac.span,
                    },
                    ident: mc.ident,
                    attrs: mc.attrs,
                    span: mc.span,
                },
            );
            proof {
                if crate::ast::placeholder_free(n0) {
                    crate::ast::lemma_attrs_eqv_refl(out->MacCall_0.attrs@);
                    assert forall|i: int|
                        0 <= i < out->MacCall_0.mac.segments@.len() implies crate::ast::ident_eqv(
                        out->MacCall_0.mac.segments@[i],
                        out->MacCall_0.mac.segments@[i],
                    ) by {}
                    match mid {
                        Option::Some(idn) => {
                            assert(crate::ast::ident_eqv(idn, idn));
                        },
                        Option::None => {},
                    }
                }
            }
            Result::Ok(vec![out])
        },
    }
}

/// Replaces every placeholder in each node of the sequence by its recorded
/// result, splicing the results.
pub fn subst_nodes(
    cx: &mut ExtCtxt,
    map: &Vec<(u64, ExpansionKind, Vec<Node>)>,
    v: Vec<Node>,
) -> (r: Result<Vec<Node>, ExpandError>)
    requires
        map_free(map@),
    ensures
        cx_frame(*old(cx), *final(cx)),
        match r {
            Result::Ok(out) => {
                &&& crate::ast::placeholders_free(out@)
                &&& (crate::ast::placeholders_free(v@) ==> nodes_eqv(out@, v@)
                    && final(cx).diagnostics == old(cx).diagnostics)
            },
            Result::Err(e) => e matches ExpandError::MissingPlaceholder { id } && !map_has_id(
                map@,
                id,
            ),
        },
        crate::ast::placeholders_free(v@) ==> r is Ok,
        v@.len() == 1 ==> (v@[0] matches Node::Placeholder(p) ==> (match map_find(map@, p.id) {
            Option::Some(entry) => !(p.kind.spec_is_single() && entry.2@.len() != 1) ==> (match r {
                Result::Ok(out) => nodes_eqv(out@, entry.2@) && final(cx).diagnostics == old(
                    cx,
                ).diagnostics,
                Result::Err(_) => false,
            }),
            Option::None => (match r {
                Result::Err(ExpandError::MissingPlaceholder { id }) => id == p.id,
                _ => false,
            }),
        })),
    decreases v@,
{
    let mut v = v;
    let ghost v0 = v@;
    if v.len() == 0 {
        return Result::Ok(Vec::new());
    }
    let first = v.remove(0);
    proof {
        assert(first == v0[0]);
        assert(v@ =~= v0.subrange(1, v0.len() as int));
        assert(decreases_to!(v0 => v0[0]));
        assert(decreases_to!(v0 => v0.subrange(1, v0.len() as int)));
    }
    let mut out = match subst_node(cx, map, first) {
        Result::Ok(o) => o,
        Result::Err(e) => {
            return Result::Err(e);
        },
    };
    let ghost out_first = out@;
    let mut rest = match subst_nodes(cx, map, v) {
        Result::Ok(o) => o,
        Result::Err(e) => {
            return Result::Err(e);
        },
    };
    let ghost rest0 = rest@;
    out.append(&mut rest);
    proof {
        if crate::ast::placeholders_free(v0) {
            assert(crate::ast::placeholder_free(v0[0]));
            assert(crate::ast::placeholders_free(v0.subrange(1, v0.len() as int))) by {
                assert forall|i: int|
                    0 <= i < v0.len() - 1 implies crate::ast::placeholder_free(
                    v0.subrange(1, v0.len() as int)[i],
                ) by {
                    assert(v0.subrange(1, v0.len() as int)[i] == v0[i + 1]);
                }
            }
            assert(nodes_eqv(out@, v0)) by {
                assert forall|i: int| 0 <= i < v0.len() implies node_eqv(out@[i], v0[i]) by {
                    if i == 0 {
                        assert(out@[0] == out_first[0]);
                    } else {
                        assert(out@[i] == rest0[i - 1]);
                        assert(v0.subrange(1, v0.len() as int)[i - 1] == v0[i]);
                    }
                }
            }
        }
        assert forall|i: int|
            0 <= i < out@.len() implies crate::ast::placeholder_free(out@[i]) by {
            if i >= out_first.len() {
                assert(out@[i] == rest0[i - out_first.len()]);
            }
        }
    }
    Result::Ok(out)
}

/// Fully expands all the invocations in `expansion`: one pass per nesting
/// depth, dispatching each depth's invocations in discovery order, until a
/// depth produces none, then substitutes every placeholder deepest first.
///
/// On success no placeholder remains anywhere in the result. A tree that is
/// already fully expanded comes back unchanged, with no diagnostics. An
/// extension that re-emits an invocation of itself can never empty a depth,
/// so such a run never returns a tree: it aborts, at the configured bound.
pub fn expand(cx: &mut ExtCtxt, expansion: Expansion) -> (r: Result<Expansion, ExpandError>)
    ensures
        cx_frame(*old(cx), *final(cx)),
        match r {
            Result::Ok(out) => {
                &&& out.kind == expansion.kind
                &&& crate::ast::placeholders_free(out.nodes@)
                &&& (fully_expanded_nodes(expansion.nodes@, table_of(*old(cx))) ==> nodes_eqv(
                    out.nodes@,
                    expansion.nodes@,
                ) && final(cx).diagnostics == old(cx).diagnostics)
            },
            Result::Err(_) => true,
        },
        fully_expanded_nodes(expansion.nodes@, table_of(*old(cx))) ==> r is Ok,
        r matches Result::Err(ExpandError::IdentityExhausted) ==> supply_exhausted(*final(cx)),
        forall|nm: Seq<char>|
            (!old(cx).ecfg.single_step && self_reemitting(table_of(*old(cx)), nm) && has_wf_bang(
                expansion.nodes@,
                nm,
            )) ==> !(r is Ok),
        forall|nm: Seq<char>|
            (lone_emit_call(table_of(*old(cx)), expansion.nodes@, nm) && old(cx).next_mark
                < u64::MAX) ==> (r matches Result::Ok(out) && crate::hygiene::nodes_marked(
                template_of(table_of(*old(cx)), nm),
                out.nodes@,
                old(cx).next_mark,
            ) && final(cx).diagnostics == old(cx).diagnostics),
{
    let Expansion { kind: root_kind, nodes: root_nodes } = expansion;
    let ghost input = root_nodes@;
    let ghost t0 = table_of(*cx);
    let ghost fe = fully_expanded_nodes(input, t0);
    let ghost mark0 = cx.next_mark;
    let mut batch: Vec<Invocation> = Vec::new();
    let root = match collect_nodes(cx, &mut batch, 0, root_nodes) {
        Result::Ok(x) => x,
        Result::Err(e) => {
            proof {
                assert forall|nm: Seq<char>|
                    lone_emit_call(t0, input, nm) && mark0 < u64::MAX implies false by {
                    assert(nodes_weight(input) == node_weight(input[0]) + nodes_weight(
                        input.skip(1),
                    ));
                    assert(input.skip(1) =~= Seq::<Node>::empty());
                }
            }
            return Result::Err(e);
        },
    };
    proof {
        assert forall|nm: Seq<char>|
            lone_emit_call(t0, input, nm) && mark0 < u64::MAX implies batch@ =~= seq![
            Invocation {
                id: mark0,
                kind: InvocationKind::Bang {
                    mac: input[0]->MacCall_0.mac,
                    ident: input[0]->MacCall_0.ident,
                    attrs: input[0]->MacCall_0.attrs,
                    span: input[0]->MacCall_0.span,
                },
                expansion_kind: input[0]->MacCall_0.kind,
                depth: 0,
                span: input[0]->MacCall_0.span,
            },
        ] && root@ =~= seq![
            Node::Placeholder(Placeholder { kind: input[0]->MacCall_0.kind, id: mark0 }),
        ] && cx.next_mark == mark0 + 1 by {}
    }
    let mut entries: Vec<(u64, ExpansionKind, Vec<Node>)> = Vec::new();
    let mut depth: usize = 0;
    while batch.len() > 0
        invariant
            cx_frame(*old(cx), *cx),
            t0 == table_of(*old(cx)),
            input == expansion.nodes@,
            fe == fully_expanded_nodes(input, t0),
            invs_increasing(batch@),
            invs_bounded(batch@, cx.next_mark),
            depth as int <= cx.ecfg.recursion_limit as int + 1,
            fe ==> batch@.len() == 0 && entries@.len() == 0 && cx.diagnostics == old(
                cx,
            ).diagnostics,
            mark0 == old(cx).next_mark,
            mark0 <= cx.next_mark,
            forall|nm: Seq<char>|
                (lone_emit_call(t0, input, nm) && mark0 < u64::MAX) ==> {
                    ||| (depth == 0 && batch@ =~= seq![
                        Invocation {
                            id: mark0,
                            kind: InvocationKind::Bang {
                                mac: input[0]->MacCall_0.mac,
                                ident: input[0]->MacCall_0.ident,
                                attrs: input[0]->MacCall_0.attrs,
                                span: input[0]->MacCall_0.span,
                            },
                            expansion_kind: input[0]->MacCall_0.kind,
                            depth: 0,
                            span: input[0]->MacCall_0.span,
                        },
                    ] && entries@.len() == 0 && cx.diagnostics == old(cx).diagnostics)
                    ||| (batch@.len() == 0 && entries@.len() == 1 && entries@[0].0 == mark0
                        && entries@[0].1 == input[0]->MacCall_0.kind
                        && crate::hygiene::nodes_marked(
                        template_of(t0, nm),
                        entries@[0].2@,
                        mark0,
                    ) && crate::ast::bare_nodes(entries@[0].2@) && cx.diagnostics == old(
                        cx,
                    ).diagnostics)
                },
            forall|nm: Seq<char>|
                (!old(cx).ecfg.single_step && self_reemitting(t0, nm) && has_wf_bang(input, nm))
                    ==> has_wf_bang_inv(batch@, nm, depth),
        decreases cx.ecfg.recursion_limit + 1 - depth,
    {
        if depth > cx.ecfg.recursion_limit || depth == usize::MAX {
            let sp = batch[0].span();
            proof {
                assert forall|nm: Seq<char>|
                    (lone_emit_call(t0, input, nm) && mark0 < u64::MAX) implies false by {}
            }
            return Result::Err(ExpandError::RecursionLimitExceeded { span: sp, depth });
        }
        let next_depth = depth + 1;
        let mut next: Vec<Invocation> = Vec::new();
        while batch.len() > 0
            invariant
                cx_frame(*old(cx), *cx),
                t0 == table_of(*old(cx)),
                input == expansion.nodes@,
                !fe,
                fe == fully_expanded_nodes(input, t0),
                depth <= cx.ecfg.recursion_limit,
                depth < usize::MAX,
                next_depth == depth + 1,
                invs_increasing(batch@),
                invs_bounded(batch@, cx.next_mark),
                invs_increasing(next@),
                invs_bounded(next@, cx.next_mark),
                mark0 == old(cx).next_mark,
                mark0 <= cx.next_mark,
                forall|nm: Seq<char>|
                    (lone_emit_call(t0, input, nm) && mark0 < u64::MAX) ==> {
                        ||| (depth == 0 && batch@ =~= seq![
                            Invocation {
                                id: mark0,
                                kind: InvocationKind::Bang {
                                    mac: input[0]->MacCall_0.mac,
                                    ident: input[0]->MacCall_0.ident,
                                    attrs: input[0]->MacCall_0.attrs,
                                    span: input[0]->MacCall_0.span,
                                },
                                expansion_kind: input[0]->MacCall_0.kind,
                                depth: 0,
                                span: input[0]->MacCall_0.span,
                            },
                        ] && entries@.len() == 0 && next@.len() == 0 && cx.diagnostics == old(
                            cx,
                        ).diagnostics)
                        ||| (batch@.len() == 0 && next@.len() == 0 && entries@.len() == 1
                            && entries@[0].0 == mark0 && entries@[0].1 == input[0]->MacCall_0.kind
                            && crate::hygiene::nodes_marked(
                            template_of(t0, nm),
                            entries@[0].2@,
                            mark0,
                        ) && crate::ast::bare_nodes(entries@[0].2@) && cx.diagnostics == old(
                            cx,
                        ).diagnostics)
                    },
                forall|nm: Seq<char>|
                    (!old(cx).ecfg.single_step && self_reemitting(t0, nm) && has_wf_bang(
                        input,
                        nm,
                    )) ==> has_wf_bang_inv(batch@, nm, depth) || has_wf_bang_inv(
                        next@,
                        nm,
                        next_depth,
                    ),
            decreases batch@.len(),
        {
            let ghost b0 = batch@;
            let ghost next0 = next@;
            let inv = batch.remove(0);
            let inv_kind = inv.expansion_kind;
            let inv_id = inv.mark();
            let inv_span = inv.span();
            let ghost inv_g = inv;
            let ghost cx_before = *cx;
            let (raw, passthrough, attrs_done) = match expand_invoc(cx, inv) {
                Result::Ok(x) => x,
                Result::Err(e) => {
                    proof {
                        assert forall|nm: Seq<char>|
                            (lone_emit_call(t0, input, nm) && mark0 < u64::MAX) implies false by {
                            assert(inv_g == b0[0]);
                        }
                    }
                    return Result::Err(e);
                },
            };
            let ghost raw1 = raw@;
            if passthrough {
                // an unexpanded invocation kept in its original form: it is
                // not a fresh expansion, so it gets no mark and no further
                // collection
                entries.push((inv_id, inv_kind, raw));
                proof {
                    assert forall|nm: Seq<char>|
                        (!old(cx).ecfg.single_step && self_reemitting(t0, nm) && has_wf_bang(
                            input,
                            nm,
                        )) implies has_wf_bang_inv(batch@, nm, depth) || has_wf_bang_inv(
                        next@,
                        nm,
                        next_depth,
                    ) by {
                        if has_wf_bang_inv(b0, nm, depth) {
                            let j = choose|j: int|
                                0 <= j < b0.len() && inv_is_wf_bang(b0[j], nm) && b0[j].depth
                                    == depth;
                            if j == 0 {
                                // a resolved self-re-emitting invocation is
                                // never passed through
                                assert(inv_g == b0[0]);
                                assert(table_of(cx_before) == t0);
                                assert(false);
                            } else {
                                assert(batch@ =~= b0.subrange(1, b0.len() as int));
                                assert(batch@[j - 1] == b0[j]);
                            }
                        } else {
                            let k = choose|k: int|
                                0 <= k < next0.len() && inv_is_wf_bang(next0[k], nm)
                                    && next0[k].depth == next_depth;
                            assert(next@[k] == next0[k]);
                        }
                    }
                }
                continue;
            }
            // coerce the raw output to the invocation's required shape
            let coerced = if inv_kind.is_single() && raw.len() != 1 {
                cx.diag(inv_span, DiagKind::ResultKindMismatch);
                dummy_result(inv_kind, inv_span)
            } else {
                raw
            };
            let marked = crate::hygiene::apply_mark_nodes(&coerced, inv_id);
            proof {
                assert forall|nm: Seq<char>|
                    (lone_emit_call(t0, input, nm) && mark0 < u64::MAX) implies
                    crate::ast::bare_nodes(marked@) && fully_expanded_nodes(
                    marked@,
                    table_of(*cx),
                ) by {
                    assert(inv_g == b0[0]);
                    assert(coerced@ == raw1);
                    crate::ast::lemma_eqv_preserves_bare_nodes(raw1, template_of(t0, nm));
                    crate::hygiene::lemma_marked_preserves_bare_nodes(coerced@, marked@, inv_id);
                    lemma_bare_fully_expanded_nodes(marked@, table_of(*cx));
                }
            }
            let collected = if cx.ecfg.single_step {
                marked
            } else if attrs_done {
                match collect_result_nodes(cx, &mut next, next_depth, marked) {
                    Result::Ok(x) => x,
                    Result::Err(e) => {
                        return Result::Err(e);
                    },
                }
            } else {
                match collect_nodes(cx, &mut next, next_depth, marked) {
                    Result::Ok(x) => x,
                    Result::Err(e) => {
                        proof {
                            // a fully expanded, freshly marked template never
                            // fails collection
                            assert forall|nm: Seq<char>|
                                (lone_emit_call(t0, input, nm) && mark0 < u64::MAX) implies false by {}
                        }
                        return Result::Err(e);
                    },
                }
            };
            entries.push((inv_id, inv_kind, collected));
            proof {
                assert forall|nm: Seq<char>|
                    (lone_emit_call(t0, input, nm) && mark0 < u64::MAX) implies (batch@.len() == 0
                        && next@.len() == 0 && entries@.len() == 1 && entries@[0].0 == mark0
                        && entries@[0].1 == input[0]->MacCall_0.kind
                        && crate::hygiene::nodes_marked(
                        template_of(t0, nm),
                        entries@[0].2@,
                        mark0,
                    ) && crate::ast::bare_nodes(entries@[0].2@) && cx.diagnostics == old(
                        cx,
                    ).diagnostics) by {
                    assert(inv_g == b0[0]);
                    assert(coerced@ == raw1);
                    if old(cx).ecfg.single_step {
                        crate::ast::lemma_nodes_eqv_refl(marked@);
                    }
                    assert(crate::ast::nodes_eqv(collected@, marked@));
                    crate::hygiene::lemma_marked_eqv_both(
                        coerced@,
                        template_of(t0, nm),
                        marked@,
                        collected@,
                        inv_id,
                    );
                    crate::ast::lemma_eqv_preserves_bare_nodes(raw1, template_of(t0, nm));
                    crate::hygiene::lemma_marked_preserves_bare_nodes(coerced@, marked@, inv_id);
                    crate::ast::lemma_eqv_preserves_bare_nodes(collected@, marked@);
                }
                assert forall|nm: Seq<char>|
                    (!old(cx).ecfg.single_step && self_reemitting(t0, nm) && has_wf_bang(
                        input,
                        nm,
                    )) implies has_wf_bang_inv(batch@, nm, depth) || has_wf_bang_inv(
                    next@,
                    nm,
                    next_depth,
                ) by {
                    if has_wf_bang_inv(b0, nm, depth) {
                        let j = choose|j: int|
                            0 <= j < b0.len() && inv_is_wf_bang(b0[j], nm) && b0[j].depth
                                == depth;
                        if j == 0 {
                            // this very invocation re-emits itself: the fresh
                            // batch keeps a well-shaped site of the same name
                            assert(inv_g == b0[0]);
                            assert(inv_is_wf_bang(inv_g, nm));
                            assert(table_of(cx_before) == t0);
                            assert(raw1.len() == 1 && has_wf_bang(raw1, nm));
                            assert(coerced@ == raw1);
                            let k = choose|k: int|
                                0 <= k < coerced@.len() && is_wf_bang(coerced@[k], nm);
                            lemma_marked_preserves_wf_bang(coerced@[k], marked@[k], inv_id, nm);
                            assert(is_wf_bang(marked@[k], nm));
                            assert(has_wf_bang(marked@, nm));
                            assert(has_wf_bang_inv(next@, nm, next_depth));
                        } else {
                            assert(batch@ =~= b0.subrange(1, b0.len() as int));
                            assert(batch@[j - 1] == b0[j]);
                            assert(has_wf_bang_inv(batch@, nm, depth));
                        }
                    } else {
                        // the witness was already recorded for the next
                        // depth, and the recorded list only grows
                        let k = choose|k: int|
                            0 <= k < next0.len() && inv_is_wf_bang(next0[k], nm)
                                && next0[k].depth == next_depth;
                        assert(next0.is_prefix_of(next@));
                        assert(next@.subrange(0, next0.len() as int)[k] == next@[k]);
                        assert(next@[k] == next0[k]);
                        assert(has_wf_bang_inv(next@, nm, next_depth));
                    }
                }
            }
        }
        batch = next;
        depth = next_depth;
    }
    // substitute results back, deepest first, so that outer placeholders are
    // resolved only once all nested placeholders inside them are concrete
    let mut done: Vec<(u64, ExpansionKind, Vec<Node>)> = Vec::new();
    while entries.len() > 0
        invariant
            cx_frame(*old(cx), *cx),
            map_free(done@),
            t0 == table_of(*old(cx)),
            input == expansion.nodes@,
            fe == fully_expanded_nodes(input, t0),
            fe ==> entries@.len() == 0 && done@.len() == 0 && cx.diagnostics == old(
                cx,
            ).diagnostics,
            mark0 == old(cx).next_mark,
            forall|nm: Seq<char>|
                (lone_emit_call(t0, input, nm) && mark0 < u64::MAX) ==> {
                    ||| (entries@.len() == 1 && entries@[0].0 == mark0
                        && entries@[0].1 == input[0]->MacCall_0.kind
                        && crate::hygiene::nodes_marked(
                        template_of(t0, nm),
                        entries@[0].2@,
                        mark0,
                    ) && crate::ast::bare_nodes(entries@[0].2@) && done@.len() == 0
                        && cx.diagnostics == old(cx).diagnostics)
                    ||| (entries@.len() == 0 && done@.len() == 1 && done@[0].0 == mark0
                        && done@[0].1 == input[0]->MacCall_0.kind
                        && crate::hygiene::nodes_marked(
                        template_of(t0, nm),
                        done@[0].2@,
                        mark0,
                    ) && cx.diagnostics == old(cx).diagnostics)
                },
        decreases entries@.len(),
    {
        let entry = match entries.pop() {
            Option::Some(x) => x,
            Option::None => {
                proof {
                    assert(false);
                }
                (0, ExpansionKind::Items, Vec::new())
            },
        };
        let (id, k, nodes) = entry;
        proof {
            assert forall|nm: Seq<char>|
                (lone_emit_call(t0, input, nm) && mark0 < u64::MAX) implies
                crate::ast::placeholders_free(nodes@) by {
                lemma_bare_fully_expanded_nodes(nodes@, t0);
                lemma_fully_expanded_placeholders_free(nodes@, t0);
            }
        }
        let s = match subst_nodes(cx, &done, nodes) {
            Result::Ok(x) => x,
            Result::Err(e) => {
                return Result::Err(e);
            },
        };
        done.push((id, k, s));
        proof {
            assert forall|nm: Seq<char>|
                (lone_emit_call(t0, input, nm) && mark0 < u64::MAX) implies (done@.len() == 1
                    && done@[0].0 == mark0 && done@[0].1 == input[0]->MacCall_0.kind
                    && crate::hygiene::nodes_marked(template_of(t0, nm), done@[0].2@, mark0)
                    && cx.diagnostics == old(cx).diagnostics) by {
                crate::ast::lemma_nodes_eqv_refl(template_of(t0, nm));
                crate::hygiene::lemma_marked_eqv_both(
                    template_of(t0, nm),
                    template_of(t0, nm),
                    nodes@,
                    s@,
                    mark0,
                );
            }
        }
    }
    proof {
        if fe {
            lemma_fully_expanded_placeholders_free(input, t0);
            crate::ast::lemma_nodes_eqv_sym(root@, input);
            crate::ast::lemma_eqv_preserves_placeholders_free(input, root@);
        }
    }
    let ghost root0 = root@;
    proof {
        assert forall|nm: Seq<char>|
            (lone_emit_call(t0, input, nm) && mark0 < u64::MAX) implies (root@ =~= seq![
            Node::Placeholder(Placeholder { kind: input[0]->MacCall_0.kind, id: mark0 }),
        ] && map_find(done@, mark0) == Option::Some(done@[0]) && done@[0].2@.len()
            == template_of(t0, nm).len()) by {}
    }
    let out = match subst_nodes(cx, &done, root) {
        Result::Ok(x) => x,
        Result::Err(e) => {
            return Result::Err(e);
        },
    };
    proof {
        if fe {
            crate::ast::lemma_nodes_eqv_trans(out@, root0, input);
        }
        assert forall|nm: Seq<char>|
            (lone_emit_call(t0, input, nm) && mark0 < u64::MAX) implies
            crate::hygiene::nodes_marked(template_of(t0, nm), out@, mark0) && cx.diagnostics
                == old(cx).diagnostics by {
            assert(map_find(done@, mark0) == Option::Some(done@[0]));
            crate::ast::lemma_nodes_eqv_refl(template_of(t0, nm));
            crate::hygiene::lemma_marked_eqv_both(
                template_of(t0, nm),
                template_of(t0, nm),
                done@[0].2@,
                out@,
                mark0,
            );
        }
    }
    Result::Ok(Expansion { kind: root_kind, nodes: out })
}

/// Registers the user's extensions and fully expands a whole translation
/// unit: its items are expanded in item position; its own attributes stay.
pub fn expand_crate(
    cx: &mut ExtCtxt,
    user_exts: Vec<crate::registry::NamedSyntaxExtension>,
    krate: crate::ast::Crate,
) -> (r: Result<crate::ast::Crate, ExpandError>)
    ensures
        match r {
            Result::Ok(out) => {
                &&& crate::ast::placeholders_free(out.items@)
                &&& out.span == krate.span
                &&& out.attrs == krate.attrs
            },
            Result::Err(_) => true,
        },
        fully_expanded_nodes(krate.items@, table_of(*final(cx))) ==> r is Ok && nodes_eqv(
            r->Ok_0.items@,
            krate.items@,
        ) && final(cx).diagnostics == old(cx).diagnostics,
        r matches Result::Err(ExpandError::IdentityExhausted) ==> supply_exhausted(*final(cx)),
        forall|nm: Seq<char>|
            (lone_emit_call(table_of(*final(cx)), krate.items@, nm) && old(cx).next_mark
                < u64::MAX) ==> (r matches Result::Ok(out) && crate::hygiene::nodes_marked(
                template_of(table_of(*final(cx)), nm),
                out.items@,
                old(cx).next_mark,
            ) && final(cx).diagnostics == old(cx).diagnostics),
{
    let mut user_exts = user_exts;
    let n: usize = user_exts.len();
    let mut i: usize = 0;
    while i < n
        invariant
            i <= n,
            user_exts@.len() == n - i,
            cx.diagnostics == old(cx).diagnostics,
            cx.next_mark == old(cx).next_mark,
        decreases n - i,
    {
        let (name, ext) = user_exts.remove(0);
        let ident = crate::ast::Ident { name, marks: Vec::new() };
        cx.resolver.add_ext(ident, ext);
        i += 1;
    }
    let crate::ast::Crate { attrs, items, span } = krate;
    let expansion = Expansion { kind: ExpansionKind::Items, nodes: items };
    let expanded = match expand(cx, expansion) {
        Result::Ok(x) => x,
        Result::Err(e) => {
            return Result::Err(e);
        },
    };
    Result::Ok(crate::ast::Crate { attrs, items: expanded.nodes, span })
}

} // verus!
