//! The hygiene marker.
//!
//! Every expansion event mints one fresh, opaque scope mark, and every
//! identifier in that expansion's result gets the mark appended to its chain.
//! Identifiers from different expansions therefore carry different chains
//! even when their text is identical, so one expansion's names can neither
//! capture nor be captured by another's.

use vstd::prelude::*;
use crate::ast::{
    attrs_eqv, Elem, Ident, Mac, MacNode, Node, clone_attrs, clone_marks,
};

verus! {

/// `b` is `a` with `m` appended to its mark chain.
pub open spec fn ident_marked(a: Ident, b: Ident, m: u64) -> bool {
    b.name@ == a.name@ && b.marks@ == a.marks@.push(m)
}

/// `b` is `a` with `m` appended to the chain of the identifier, if one is
/// there.
pub open spec fn opt_ident_marked(a: Option<Ident>, b: Option<Ident>, m: u64) -> bool {
    match (a, b) {
        (Option::None, Option::None) => true,
        (Option::Some(x), Option::Some(y)) => ident_marked(x, y, m),
        _ => false,
    }
}

/// `b` is `a` with `m` appended to every identifier's chain.
pub open spec fn idents_marked(a: Seq<Ident>, b: Seq<Ident>, m: u64) -> bool {
    a.len() == b.len() && (forall|i: int| 0 <= i < a.len() ==> ident_marked(a[i], b[i], m))
}

/// `b` is `a` with `m` appended to every identifier's chain; nothing else
/// differs.
pub open spec fn mac_marked(a: Mac, b: Mac, m: u64) -> bool
    decreases a,
{
    a.global == b.global && a.has_parameters == b.has_parameters && a.span == b.span
        && idents_marked(a.segments@, b.segments@, m) && nodes_marked(a.args@, b.args@, m)
}

/// `b` is `a` with `m` appended to every identifier's chain; non-identifier
/// content is unaltered.
pub open spec fn node_marked(a: Node, b: Node, m: u64) -> bool
    decreases a,
{
    match (a, b) {
        (Node::Ident(x), Node::Ident(y)) => ident_marked(x, y, m),
        (Node::Lit(x), Node::Lit(y)) => x@ == y@,
        (Node::Elem(x), Node::Elem(y)) => {
            x.kind == y.kind && x.span == y.span && opt_ident_marked(x.ident, y.ident, m)
                && attrs_eqv(x.attrs@, y.attrs@) && nodes_marked(x.children@, y.children@, m)
        },
        (Node::MacCall(x), Node::MacCall(y)) => {
            x.kind == y.kind && x.span == y.span && opt_ident_marked(x.ident, y.ident, m)
                && attrs_eqv(x.attrs@, y.attrs@) && mac_marked(x.mac, y.mac, m)
        },
        (Node::Placeholder(x), Node::Placeholder(y)) => x == y,
        _ => false,
    }
}

/// Element-wise `node_marked` over node sequences.
pub open spec fn nodes_marked(a: Seq<Node>, b: Seq<Node>, m: u64) -> bool
    decreases a,
{
    a.len() == b.len() && (forall|i: int| 0 <= i < a.len() ==> node_marked(a[i], b[i], m))
}

/// Some identifier in the node carries exactly the mark chain `c`.
pub open spec fn chain_in_node(n: Node, c: Seq<u64>) -> bool
    decreases n,
{
    match n {
        Node::Ident(i) => i.marks@ == c,
        Node::Lit(_) => false,
        Node::Elem(e) => chain_in_opt_ident(e.ident, c) || chain_in_nodes(e.children@, c),
        Node::MacCall(mc) => chain_in_opt_ident(mc.ident, c) || chain_in_idents(
            mc.mac.segments@,
            c,
        ) || chain_in_nodes(mc.mac.args@, c),
        Node::Placeholder(_) => false,
    }
}

/// The optional identifier is there and carries exactly the chain `c`.
pub open spec fn chain_in_opt_ident(a: Option<Ident>, c: Seq<u64>) -> bool {
    match a {
        Option::Some(i) => i.marks@ == c,
        Option::None => false,
    }
}

/// Some identifier in the sequence carries exactly the chain `c`.
pub open spec fn chain_in_idents(a: Seq<Ident>, c: Seq<u64>) -> bool {
    exists|i: int| 0 <= i < a.len() && a[i].marks@ == c
}

/// Some identifier in some node of the sequence carries exactly the chain
/// `c`.
pub open spec fn chain_in_nodes(a: Seq<Node>, c: Seq<u64>) -> bool
    decreases a,
{
    exists|i: int| 0 <= i < a.len() && chain_in_node(a[i], c)
}

/// Append `m` to an identifier's mark chain.
pub fn apply_mark_ident(a: &Ident, m: u64) -> (r: Ident)
    ensures
        ident_marked(*a, r, m),
{
    let mut marks = clone_marks(&a.marks);
    marks.push(m);
    Ident { name: a.name.clone(), marks }
}

/// Append `m` to the chain of the identifier, if one is there.
pub fn apply_mark_opt_ident(a: &Option<Ident>, m: u64) -> (r: Option<Ident>)
    ensures
        opt_ident_marked(*a, r, m),
{
    match a {
        Option::None => Option::None,
        Option::Some(i) => Option::Some(apply_mark_ident(i, m)),
    }
}

/// Append `m` to every identifier's chain in the sequence.
pub fn apply_mark_idents(a: &Vec<Ident>, m: u64) -> (r: Vec<Ident>)
    ensures
        idents_marked(a@, r@, m),
{
    let mut out: Vec<Ident> = Vec::new();
    let n: usize = a.len();
    let mut i: usize = 0;
    while i < n
        invariant
            n == a@.len(),
            i <= n,
            out@.len() == i,
            forall|j: int| 0 <= j < i ==> ident_marked(a@[j], out@[j], m),
        decreases n - i,
    {
        out.push(apply_mark_ident(&a[i], m));
        i += 1;
    }
    out
}

/// Append `m` to every identifier's chain in the call-form body.
pub fn apply_mark_mac(a: &Mac, m: u64) -> (r: Mac)
    ensures
        mac_marked(*a, r, m),
    decreases *a,
{
    proof {
        assert(decreases_to!(*a => a.args));
    }
    Mac {
        global: a.global,
        segments: apply_mark_idents(&a.segments, m),
        has_parameters: a.has_parameters,
        args: apply_mark_nodes(&a.args, m),
        span: a.span,
    }
}

/// Append `m` to every identifier's chain in the subtree. This is the whole
/// of the hygiene marker: non-identifier nodes are not altered.
pub fn apply_mark_node(a: &Node, m: u64) -> (r: Node)
    ensures
        node_marked(*a, r, m),
    decreases *a,
{
    match a {
        Node::Ident(i) => Node::Ident(apply_mark_ident(i, m)),
        Node::Lit(s) => Node::Lit(s.clone()),
        Node::Elem(e) => {
            let attrs = clone_attrs(&e.attrs);
            proof {
                crate::ast::lemma_attrs_eqv_sym(attrs@, e.attrs@);
            }
            Node::Elem(
                Elem {
                    kind: e.kind,
                    ident: apply_mark_opt_ident(&e.ident, m),
                    attrs,
                    children: apply_mark_nodes(&e.children, m),
                    span: e.span,
                },
            )
        },
        Node::MacCall(mc) => {
            let attrs = clone_attrs(&mc.attrs);
            proof {
                crate::ast::lemma_attrs_eqv_sym(attrs@, mc.attrs@);
            }
            Node::MacCall(
                MacNode {
                    kind: mc.kind,
                    mac: apply_mark_mac(&mc.mac, m),
                    ident: apply_mark_opt_ident(&mc.ident, m),
                    attrs,
                    span: mc.span,
                },
            )
        },
        Node::Placeholder(p) => Node::Placeholder(*p),
    }
}

/// Append `m` to every identifier's chain in each node of the sequence.
pub fn apply_mark_nodes(a: &Vec<Node>, m: u64) -> (r: Vec<Node>)
    ensures
        nodes_marked(a@, r@, m),
    decreases a@,
{
    let mut out: Vec<Node> = Vec::new();
    let n: usize = a.len();
    let mut i: usize = 0;
    while i < n
        invariant
            n == a@.len(),
            i <= n,
            out@.len() == i,
            forall|j: int| 0 <= j < i ==> node_marked(a@[j], out@[j], m),
        decreases n - i,
    {
        out.push(apply_mark_node(&a[i], m));
        i += 1;
    }
    out
}

/// Marking is a relation on views: an equivalent source is marked to the
/// same results.
pub proof fn lemma_marked_left_eqv(a: Node, a2: Node, b: Node, m: u64)
    requires
        crate::ast::node_eqv(a, a2),
        node_marked(a, b, m),
    ensures
        node_marked(a2, b, m),
    decreases a,
{
    match (a, a2, b) {
        (Node::Elem(x), Node::Elem(x2), Node::Elem(y)) => {
            crate::ast::lemma_attrs_eqv_sym(x.attrs@, x2.attrs@);
            crate::ast::lemma_attrs_eqv_trans(x2.attrs@, x.attrs@, y.attrs@);
            lemma_marked_left_eqv_nodes(x.children@, x2.children@, y.children@, m);
        },
        (Node::MacCall(x), Node::MacCall(x2), Node::MacCall(y)) => {
            crate::ast::lemma_attrs_eqv_sym(x.attrs@, x2.attrs@);
            crate::ast::lemma_attrs_eqv_trans(x2.attrs@, x.attrs@, y.attrs@);
            lemma_marked_left_eqv_nodes(x.mac.args@, x2.mac.args@, y.mac.args@, m);
        },
        _ => {},
    }
}

proof fn lemma_marked_left_eqv_nodes(a: Seq<Node>, a2: Seq<Node>, b: Seq<Node>, m: u64)
    requires
        crate::ast::nodes_eqv(a, a2),
        nodes_marked(a, b, m),
    ensures
        nodes_marked(a2, b, m),
    decreases a,
{
    assert forall|i: int| 0 <= i < a2.len() implies node_marked(a2[i], b[i], m) by {
        lemma_marked_left_eqv(a[i], a2[i], b[i], m);
    }
}

/// Marking is a relation on views: the marked result may be replaced by an
/// equivalent one.
pub proof fn lemma_marked_right_eqv(a: Node, b: Node, b2: Node, m: u64)
    requires
        node_marked(a, b, m),
        crate::ast::node_eqv(b, b2),
    ensures
        node_marked(a, b2, m),
    decreases a,
{
    match (a, b, b2) {
        (Node::Elem(x), Node::Elem(y), Node::Elem(y2)) => {
            crate::ast::lemma_attrs_eqv_trans(x.attrs@, y.attrs@, y2.attrs@);
            lemma_marked_right_eqv_nodes(x.children@, y.children@, y2.children@, m);
        },
        (Node::MacCall(x), Node::MacCall(y), Node::MacCall(y2)) => {
            crate::ast::lemma_attrs_eqv_trans(x.attrs@, y.attrs@, y2.attrs@);
            lemma_marked_right_eqv_nodes(x.mac.args@, y.mac.args@, y2.mac.args@, m);
        },
        _ => {},
    }
}

proof fn lemma_marked_right_eqv_nodes(a: Seq<Node>, b: Seq<Node>, b2: Seq<Node>, m: u64)
    requires
        nodes_marked(a, b, m),
        crate::ast::nodes_eqv(b, b2),
    ensures
        nodes_marked(a, b2, m),
    decreases a,
{
    assert forall|i: int| 0 <= i < a.len() implies node_marked(a[i], b2[i], m) by {
        lemma_marked_right_eqv(a[i], b[i], b2[i], m);
    }
}

/// Marking is a relation on views, over sequences.
pub proof fn lemma_marked_eqv_both(a: Seq<Node>, a2: Seq<Node>, b: Seq<Node>, b2: Seq<Node>, m: u64)
    requires
        crate::ast::nodes_eqv(a, a2),
        nodes_marked(a, b, m),
        crate::ast::nodes_eqv(b2, b),
    ensures
        nodes_marked(a2, b2, m),
{
    lemma_marked_left_eqv_nodes(a, a2, b, m);
    crate::ast::lemma_nodes_eqv_sym(b2, b);
    lemma_marked_right_eqv_nodes(a2, b, b2, m);
}

/// Marking keeps a bare tree bare: marks touch identifiers only.
pub proof fn lemma_marked_preserves_bare(a: Node, b: Node, m: u64)
    requires
        node_marked(a, b, m),
        crate::ast::bare_node(a),
    ensures
        crate::ast::bare_node(b),
    decreases a,
{
    match (a, b) {
        (Node::Elem(x), Node::Elem(y)) => {
            assert forall|i: int| 0 <= i < y.children@.len() implies crate::ast::bare_node(
                y.children@[i],
            ) by {
                lemma_marked_preserves_bare(x.children@[i], y.children@[i], m);
            }
        },
        _ => {},
    }
}

/// Marking keeps bare trees bare, over sequences.
pub proof fn lemma_marked_preserves_bare_nodes(a: Seq<Node>, b: Seq<Node>, m: u64)
    requires
        nodes_marked(a, b, m),
        crate::ast::bare_nodes(a),
    ensures
        crate::ast::bare_nodes(b),
{
    assert forall|i: int| 0 <= i < b.len() implies crate::ast::bare_node(b[i]) by {
        lemma_marked_preserves_bare(a[i], b[i], m);
    }
}

/// In a freshly marked subtree, every identifier's chain ends with the fresh
/// mark.
pub proof fn lemma_marked_chains_end_with(a: Node, b: Node, m: u64, c: Seq<u64>)
    requires
        node_marked(a, b, m),
        chain_in_node(b, c),
    ensures
        c.len() > 0,
        c.last() == m,
    decreases a,
{
    match (a, b) {
        (Node::Elem(x), Node::Elem(y)) => {
            if chain_in_opt_ident(y.ident, c) {
            } else {
                lemma_marked_chains_end_with_nodes(x.children@, y.children@, m, c);
            }
        },
        (Node::MacCall(x), Node::MacCall(y)) => {
            if chain_in_opt_ident(y.ident, c) {
            } else if chain_in_idents(y.mac.segments@, c) {
            } else {
                lemma_marked_chains_end_with_nodes(x.mac.args@, y.mac.args@, m, c);
            }
        },
        _ => {},
    }
}

proof fn lemma_marked_chains_end_with_nodes(a: Seq<Node>, b: Seq<Node>, m: u64, c: Seq<u64>)
    requires
        nodes_marked(a, b, m),
        chain_in_nodes(b, c),
    ensures
        c.len() > 0,
        c.last() == m,
    decreases a,
{
    let i = choose|i: int| 0 <= i < b.len() && chain_in_node(b[i], c);
    lemma_marked_chains_end_with(a[i], b[i], m, c);
}

/// Hygiene isolation: two expansion results marked with different fresh
/// marks share no identifier chain, so an identifier introduced by one can
/// never be the same binding as one introduced by the other, whatever their
/// text.
pub proof fn lemma_hygiene_isolation(
    a1: Node,
    b1: Node,
    m1: u64,
    a2: Node,
    b2: Node,
    m2: u64,
    c: Seq<u64>,
)
    requires
        node_marked(a1, b1, m1),
        node_marked(a2, b2, m2),
        m1 != m2,
        chain_in_node(b1, c),
    ensures
        !chain_in_node(b2, c),
{
    lemma_marked_chains_end_with(a1, b1, m1, c);
    if chain_in_node(b2, c) {
        lemma_marked_chains_end_with(a2, b2, m2, c);
    }
}

} // verus!
