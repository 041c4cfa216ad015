//! The tree model: nodes, identifiers, attributes and invocation sites.
//!
//! Every position that can host an extension invocation is represented by a
//! `Node`. A node owns its children exclusively; the tree is never shared.
//! Equivalence of trees is stated by the `*_eqv` spec functions, which compare
//! names and mark chains by their mathematical views.

use vstd::prelude::*;

verus! {

broadcast use vstd::std_specs::vec::group_vec_axioms;

/// A source location, kept only for diagnostics.
#[derive(Clone, Copy, Debug, PartialEq, Eq, Structural)]
pub struct Span {
    pub lo: u64,
    pub hi: u64,
}

/// A span that points nowhere, for synthesized nodes.
pub fn dummy_span() -> (s: Span)
    ensures
        s.lo == 0 && s.hi == 0,
{
    Span { lo: 0, hi: 0 }
}

/// Whether an attribute annotates the following node or its enclosing node.
#[derive(Clone, Copy, Debug, PartialEq, Eq, Structural)]
pub enum AttrStyle {
    Outer,
    Inner,
}

/// An identifier: a textual name plus its chain of hygiene marks.
///
/// Two identifiers are the same binding only when both the name and the whole
/// mark chain agree; names introduced by different expansions carry different
/// chains even when their text is identical.
#[derive(Debug, PartialEq, Eq)]
pub struct Ident {
    pub name: String,
    pub marks: Vec<u64>,
}

/// View-level equivalence of identifiers.
pub open spec fn ident_eqv(a: Ident, b: Ident) -> bool {
    a.name@ == b.name@ && a.marks@ == b.marks@
}

/// View-level equivalence of optional identifiers.
pub open spec fn opt_ident_eqv(a: Option<Ident>, b: Option<Ident>) -> bool {
    match (a, b) {
        (Option::None, Option::None) => true,
        (Option::Some(x), Option::Some(y)) => ident_eqv(x, y),
        _ => false,
    }
}

/// A structured attribute argument: a bare word, a `name = "value"` pair,
/// or a named list of further meta items.
#[derive(Debug, PartialEq, Eq)]
pub enum MetaItem {
    Word(String),
    NameValue(String, String),
    List(String, Vec<MetaItem>),
}

impl MetaItem {
    /// The name at the head of the meta item.
    pub open spec fn spec_name(&self) -> Seq<char> {
        match self {
            MetaItem::Word(n) => n@,
            MetaItem::NameValue(n, _) => n@,
            MetaItem::List(n, _) => n@,
        }
    }
}

/// View-level equivalence of meta items.
pub open spec fn meta_eqv(a: MetaItem, b: MetaItem) -> bool
    decreases a,
{
    match (a, b) {
        (MetaItem::Word(x), MetaItem::Word(y)) => x@ == y@,
        (MetaItem::NameValue(x, v), MetaItem::NameValue(y, w)) => x@ == y@ && v@ == w@,
        (MetaItem::List(x, xs), MetaItem::List(y, ys)) => x@ == y@ && metas_eqv(xs@, ys@),
        _ => false,
    }
}

/// Element-wise equivalence of meta item sequences.
pub open spec fn metas_eqv(a: Seq<MetaItem>, b: Seq<MetaItem>) -> bool
    decreases a,
{
    a.len() == b.len() && (forall|i: int| 0 <= i < a.len() ==> meta_eqv(a[i], b[i]))
}

/// An attribute: a meta item plus bookkeeping carried over from the source.
#[derive(Debug, PartialEq, Eq)]
pub struct Attribute {
    pub id: u64,
    pub style: AttrStyle,
    pub meta: MetaItem,
    pub is_sugared_doc: bool,
    pub span: Span,
}

/// View-level equivalence of attributes.
pub open spec fn attr_eqv(a: Attribute, b: Attribute) -> bool {
    a.id == b.id && a.style == b.style && a.is_sugared_doc == b.is_sugared_doc && a.span == b.span
        && meta_eqv(a.meta, b.meta)
}

/// Element-wise equivalence of attribute sequences.
pub open spec fn attrs_eqv(a: Seq<Attribute>, b: Seq<Attribute>) -> bool {
    a.len() == b.len() && (forall|i: int| 0 <= i < a.len() ==> attr_eqv(a[i], b[i]))
}

/// The shape of result an invocation at a given tree position must produce.
/// `Expr`, `Pat` and `Ty` positions demand exactly one node; the sequence
/// kinds accept any number of nodes, including zero.
#[derive(Clone, Copy, Debug, PartialEq, Eq, Structural)]
pub enum ExpansionKind {
    Expr,
    Pat,
    Ty,
    Stmts,
    Items,
    TraitItems,
    ImplItems,
}

impl ExpansionKind {
    /// Whether this position demands exactly one result node.
    pub open spec fn spec_is_single(self) -> bool {
        self == ExpansionKind::Expr || self == ExpansionKind::Pat || self == ExpansionKind::Ty
    }

    /// Executable test for `spec_is_single`.
    #[verifier::when_used_as_spec(spec_is_single)]
    pub fn is_single(self) -> (r: bool)
        ensures
            r == self.spec_is_single(),
    {
        match self {
            ExpansionKind::Expr => true,
            ExpansionKind::Pat => true,
            ExpansionKind::Ty => true,
            _ => false,
        }
    }
}

/// A call-form invocation body: `path ! ( args )`. Only single-segment,
/// non-global paths without parameters name a registered extension; other
/// shapes are malformed invocations.
#[derive(Debug, PartialEq, Eq)]
pub struct Mac {
    pub global: bool,
    pub segments: Vec<Ident>,
    pub has_parameters: bool,
    pub args: Vec<Node>,
    pub span: Span,
}

/// View-level equivalence of identifier sequences.
pub open spec fn idents_eqv(a: Seq<Ident>, b: Seq<Ident>) -> bool {
    a.len() == b.len() && (forall|i: int| 0 <= i < a.len() ==> ident_eqv(a[i], b[i]))
}

/// View-level equivalence of call-form invocation bodies.
pub open spec fn mac_eqv(a: Mac, b: Mac) -> bool
    decreases a,
{
    a.global == b.global && a.has_parameters == b.has_parameters && a.span == b.span
        && idents_eqv(a.segments@, b.segments@) && nodes_eqv(a.args@, b.args@)
}

/// A structural element: an item, expression, pattern or similar node, with
/// its attributes and children. `kind` records the position the element
/// occupies, which fixes the shape an attribute-triggered expansion of it
/// must produce.
#[derive(Debug, PartialEq, Eq)]
pub struct Elem {
    pub kind: ExpansionKind,
    pub ident: Option<Ident>,
    pub attrs: Vec<Attribute>,
    pub children: Vec<Node>,
    pub span: Span,
}

/// An unexpanded call-form invocation site, together with the position it
/// occupies, an optional identifier argument and the attributes on the site.
#[derive(Debug, PartialEq, Eq)]
pub struct MacNode {
    pub kind: ExpansionKind,
    pub mac: Mac,
    pub ident: Option<Ident>,
    pub attrs: Vec<Attribute>,
    pub span: Span,
}

/// A temporary node standing in for the pending result of the invocation
/// with identity `id`.
#[derive(Clone, Copy, Debug, PartialEq, Eq, Structural)]
pub struct Placeholder {
    pub kind: ExpansionKind,
    pub id: u64,
}

/// A tree node at any position that can host an invocation.
#[derive(Debug, PartialEq, Eq)]
pub enum Node {
    /// an identifier occurrence
    Ident(Ident),
    /// a string literal
    Lit(String),
    /// a structural element with attributes and children
    Elem(Elem),
    /// an unexpanded call-form invocation site
    MacCall(MacNode),
    /// stands for the pending result of an invocation
    Placeholder(Placeholder),
}

/// View-level equivalence of nodes.
pub open spec fn node_eqv(a: Node, b: Node) -> bool
    decreases a,
{
    match (a, b) {
        (Node::Ident(x), Node::Ident(y)) => ident_eqv(x, y),
        (Node::Lit(x), Node::Lit(y)) => x@ == y@,
        (Node::Elem(x), Node::Elem(y)) => {
            x.kind == y.kind && x.span == y.span && opt_ident_eqv(x.ident, y.ident)
                && attrs_eqv(x.attrs@, y.attrs@) && nodes_eqv(x.children@, y.children@)
        },
        (Node::MacCall(x), Node::MacCall(y)) => {
            x.kind == y.kind && x.span == y.span && opt_ident_eqv(x.ident, y.ident)
                && attrs_eqv(x.attrs@, y.attrs@) && mac_eqv(x.mac, y.mac)
        },
        (Node::Placeholder(x), Node::Placeholder(y)) => x == y,
        _ => false,
    }
}

/// Element-wise equivalence of node sequences.
pub open spec fn nodes_eqv(a: Seq<Node>, b: Seq<Node>) -> bool
    decreases a,
{
    a.len() == b.len() && (forall|i: int| 0 <= i < a.len() ==> node_eqv(a[i], b[i]))
}

/// A whole translation unit: its attributes and its top-level items.
#[derive(Debug, PartialEq, Eq)]
pub struct Crate {
    pub attrs: Vec<Attribute>,
    pub items: Vec<Node>,
    pub span: Span,
}

/// View-level equivalence of translation units.
pub open spec fn crate_eqv(a: Crate, b: Crate) -> bool {
    a.span == b.span && attrs_eqv(a.attrs@, b.attrs@) && nodes_eqv(a.items@, b.items@)
}


/// Element-wise structural check of two meta items, by view.
pub fn meta_eq(a: &MetaItem, b: &MetaItem) -> (r: bool)
    ensures
        r == meta_eqv(*a, *b),
    decreases *a,
{
    match (a, b) {
        (MetaItem::Word(x), MetaItem::Word(y)) => *x == *y,
        (MetaItem::NameValue(x, v), MetaItem::NameValue(y, w)) => *x == *y && *v == *w,
        (MetaItem::List(x, xs), MetaItem::List(y, ys)) => *x == *y && meta_list_eq(xs, ys),
        _ => false,
    }
}

/// Element-wise structural check of two meta item lists, by view.
pub fn meta_list_eq(xs: &Vec<MetaItem>, ys: &Vec<MetaItem>) -> (r: bool)
    ensures
        r == metas_eqv(xs@, ys@),
    decreases xs@,
{
    if xs.len() != ys.len() {
        return false;
    }
    let n: usize = xs.len();
    let mut i: usize = 0;
    while i < n
        invariant
            n == xs@.len(),
            n == ys@.len(),
            i <= n,
            forall|j: int| 0 <= j < i ==> meta_eqv(xs@[j], ys@[j]),
        decreases n - i,
    {
        if !meta_eq(&xs[i], &ys[i]) {
            return false;
        }
        i += 1;
    }
    true
}

impl Attribute {
    /// The attribute's name: the name at the head of its meta item.
    pub fn name(&self) -> (r: &String)
        ensures
            r@ == self.meta.spec_name(),
    {
        match &self.meta {
            MetaItem::Word(n) => n,
            MetaItem::NameValue(n, _) => n,
            MetaItem::List(n, _) => n,
        }
    }
}

/// A copy of an identifier, equivalent to the original.
pub fn clone_ident(a: &Ident) -> (r: Ident)
    ensures
        ident_eqv(r, *a),
{
    Ident { name: a.name.clone(), marks: clone_marks(&a.marks) }
}

/// A copy of a mark chain, equal to the original by view.
pub fn clone_marks(a: &Vec<u64>) -> (r: Vec<u64>)
    ensures
        r@ == a@,
{
    let mut out: Vec<u64> = Vec::new();
    let n: usize = a.len();
    let mut i: usize = 0;
    while i < n
        invariant
            n == a@.len(),
            i <= n,
            out@ == a@.subrange(0, i as int),
        decreases n - i,
    {
        out.push(a[i]);
        i += 1;
    }
    proof {
        assert(out@ =~= a@);
    }
    out
}

/// A copy of an optional identifier, equivalent to the original.
pub fn clone_opt_ident(a: &Option<Ident>) -> (r: Option<Ident>)
    ensures
        opt_ident_eqv(r, *a),
{
    match a {
        Option::None => Option::None,
        Option::Some(x) => Option::Some(clone_ident(x)),
    }
}

/// A copy of a meta item, equivalent to the original.
pub fn clone_meta(a: &MetaItem) -> (r: MetaItem)
    ensures
        meta_eqv(r, *a),
    decreases *a,
{
    match a {
        MetaItem::Word(n) => MetaItem::Word(n.clone()),
        MetaItem::NameValue(n, v) => MetaItem::NameValue(n.clone(), v.clone()),
        MetaItem::List(n, items) => MetaItem::List(n.clone(), clone_metas(items)),
    }
}

/// A copy of a meta item list, element-wise equivalent to the original.
pub fn clone_metas(a: &Vec<MetaItem>) -> (r: Vec<MetaItem>)
    ensures
        metas_eqv(r@, a@),
    decreases a@,
{
    let mut out: Vec<MetaItem> = Vec::new();
    let n: usize = a.len();
    let mut i: usize = 0;
    while i < n
        invariant
            n == a@.len(),
            i <= n,
            out@.len() == i,
            forall|j: int| 0 <= j < i ==> meta_eqv(out@[j], a@[j]),
        decreases n - i,
    {
        out.push(clone_meta(&a[i]));
        i += 1;
    }
    out
}

/// A copy of an attribute, equivalent to the original.
pub fn clone_attr(a: &Attribute) -> (r: Attribute)
    ensures
        attr_eqv(r, *a),
{
    Attribute {
        id: a.id,
        style: a.style,
        meta: clone_meta(&a.meta),
        is_sugared_doc: a.is_sugared_doc,
        span: a.span,
    }
}

/// A copy of an attribute list, element-wise equivalent to the original.
pub fn clone_attrs(a: &Vec<Attribute>) -> (r: Vec<Attribute>)
    ensures
        attrs_eqv(r@, a@),
{
    let mut out: Vec<Attribute> = Vec::new();
    let n: usize = a.len();
    let mut i: usize = 0;
    while i < n
        invariant
            n == a@.len(),
            i <= n,
            out@.len() == i,
            forall|j: int| 0 <= j < i ==> attr_eqv(out@[j], a@[j]),
        decreases n - i,
    {
        out.push(clone_attr(&a[i]));
        i += 1;
    }
    out
}

/// A copy of an identifier list, element-wise equivalent to the original.
pub fn clone_idents(a: &Vec<Ident>) -> (r: Vec<Ident>)
    ensures
        idents_eqv(r@, a@),
{
    let mut out: Vec<Ident> = Vec::new();
    let n: usize = a.len();
    let mut i: usize = 0;
    while i < n
        invariant
            n == a@.len(),
            i <= n,
            out@.len() == i,
            forall|j: int| 0 <= j < i ==> ident_eqv(out@[j], a@[j]),
        decreases n - i,
    {
        out.push(clone_ident(&a[i]));
        i += 1;
    }
    out
}

/// A copy of a call-form invocation body, equivalent to the original.
pub fn clone_mac(a: &Mac) -> (r: Mac)
    ensures
        mac_eqv(r, *a),
    decreases *a,
{
    proof {
        assert(decreases_to!(*a => a.args));
    }
    Mac {
        global: a.global,
        segments: clone_idents(&a.segments),
        has_parameters: a.has_parameters,
        args: clone_nodes(&a.args),
        span: a.span,
    }
}

/// A copy of a node, equivalent to the original.
pub fn clone_node(a: &Node) -> (r: Node)
    ensures
        node_eqv(r, *a),
    decreases *a,
{
    match a {
        Node::Ident(x) => Node::Ident(clone_ident(x)),
        Node::Lit(s) => Node::Lit(s.clone()),
        Node::Elem(e) => Node::Elem(
            Elem {
                kind: e.kind,
                ident: clone_opt_ident(&e.ident),
                attrs: clone_attrs(&e.attrs),
                children: clone_nodes(&e.children),
                span: e.span,
            },
        ),
        Node::MacCall(m) => Node::MacCall(
            MacNode {
                kind: m.kind,
                mac: clone_mac(&m.mac),
                ident: clone_opt_ident(&m.ident),
                attrs: clone_attrs(&m.attrs),
                span: m.span,
            },
        ),
        Node::Placeholder(p) => Node::Placeholder(*p),
    }
}

/// A copy of a node list, element-wise equivalent to the original.
pub fn clone_nodes(a: &Vec<Node>) -> (r: Vec<Node>)
    ensures
        nodes_eqv(r@, a@),
    decreases a@,
{
    let mut out: Vec<Node> = Vec::new();
    let n: usize = a.len();
    let mut i: usize = 0;
    while i < n
        invariant
            n == a@.len(),
            i <= n,
            out@.len() == i,
            forall|j: int| 0 <= j < i ==> node_eqv(out@[j], a@[j]),
        decreases n - i,
    {
        out.push(clone_node(&a[i]));
        i += 1;
    }
    out
}

/// No placeholder stands anywhere in the node.
pub open spec fn placeholder_free(n: Node) -> bool
    decreases n,
{
    match n {
        Node::Ident(_) => true,
        Node::Lit(_) => true,
        Node::Elem(e) => placeholders_free(e.children@),
        Node::MacCall(mc) => placeholders_free(mc.mac.args@),
        Node::Placeholder(_) => false,
    }
}

/// No placeholder stands anywhere in any node of the sequence.
pub open spec fn placeholders_free(s: Seq<Node>) -> bool
    decreases s,
{
    forall|i: int| 0 <= i < s.len() ==> placeholder_free(s[i])
}

/// A bare tree: no invocation site of any sort, and not one attribute
/// anywhere. Expanding such a tree, under any extension table, has nothing
/// to do.
pub open spec fn bare_node(n: Node) -> bool
    decreases n,
{
    match n {
        Node::Ident(_) => true,
        Node::Lit(_) => true,
        Node::Elem(e) => e.attrs@.len() == 0 && bare_nodes(e.children@),
        Node::MacCall(_) => false,
        Node::Placeholder(_) => false,
    }
}

/// Every node of the sequence is bare.
pub open spec fn bare_nodes(s: Seq<Node>) -> bool
    decreases s,
{
    forall|i: int| 0 <= i < s.len() ==> bare_node(s[i])
}

/// Equivalence preserves bareness.
pub proof fn lemma_eqv_preserves_bare(a: Node, b: Node)
    requires
        node_eqv(a, b),
        bare_node(b),
    ensures
        bare_node(a),
    decreases a,
{
    match (a, b) {
        (Node::Elem(x), Node::Elem(y)) => {
            assert forall|i: int| 0 <= i < x.children@.len() implies bare_node(
                x.children@[i],
            ) by {
                lemma_eqv_preserves_bare(x.children@[i], y.children@[i]);
            }
        },
        _ => {},
    }
}

/// Equivalence preserves bareness, over sequences.
pub proof fn lemma_eqv_preserves_bare_nodes(a: Seq<Node>, b: Seq<Node>)
    requires
        nodes_eqv(a, b),
        bare_nodes(b),
    ensures
        bare_nodes(a),
{
    assert forall|i: int| 0 <= i < a.len() implies bare_node(a[i]) by {
        lemma_eqv_preserves_bare(a[i], b[i]);
    }
}

/// Equivalence preserves freedom from placeholders.
pub proof fn lemma_eqv_preserves_placeholder_free(a: Node, b: Node)
    requires
        node_eqv(a, b),
        placeholder_free(a),
    ensures
        placeholder_free(b),
    decreases a,
{
    match (a, b) {
        (Node::Elem(x), Node::Elem(y)) => {
            lemma_eqv_preserves_placeholders_free_inner(x.children@, y.children@);
        },
        (Node::MacCall(x), Node::MacCall(y)) => {
            lemma_eqv_preserves_placeholders_free_inner(x.mac.args@, y.mac.args@);
        },
        _ => {},
    }
}

proof fn lemma_eqv_preserves_placeholders_free_inner(a: Seq<Node>, b: Seq<Node>)
    requires
        nodes_eqv(a, b),
        placeholders_free(a),
    ensures
        placeholders_free(b),
    decreases a,
{
    assert forall|i: int| 0 <= i < b.len() implies placeholder_free(b[i]) by {
        lemma_eqv_preserves_placeholder_free(a[i], b[i]);
    }
}

/// Equivalence preserves freedom from placeholders, over sequences.
pub proof fn lemma_eqv_preserves_placeholders_free(a: Seq<Node>, b: Seq<Node>)
    requires
        nodes_eqv(a, b),
        placeholders_free(a),
    ensures
        placeholders_free(b),
{
    lemma_eqv_preserves_placeholders_free_inner(a, b);
}

/// Equivalence of meta items is transitive.
pub proof fn lemma_meta_eqv_trans(a: MetaItem, b: MetaItem, c: MetaItem)
    requires
        meta_eqv(a, b),
        meta_eqv(b, c),
    ensures
        meta_eqv(a, c),
    decreases a,
{
    match (a, b, c) {
        (MetaItem::List(x, xs), MetaItem::List(y, ys), MetaItem::List(z, zs)) => {
            assert forall|i: int| 0 <= i < xs@.len() implies meta_eqv(xs@[i], zs@[i]) by {
                lemma_meta_eqv_trans(xs@[i], ys@[i], zs@[i]);
            }
        },
        _ => {},
    }
}

/// Equivalence of attributes is transitive.
pub proof fn lemma_attr_eqv_trans(a: Attribute, b: Attribute, c: Attribute)
    requires
        attr_eqv(a, b),
        attr_eqv(b, c),
    ensures
        attr_eqv(a, c),
{
    lemma_meta_eqv_trans(a.meta, b.meta, c.meta);
}

/// Equivalence of attribute sequences is transitive.
pub proof fn lemma_attrs_eqv_trans(a: Seq<Attribute>, b: Seq<Attribute>, c: Seq<Attribute>)
    requires
        attrs_eqv(a, b),
        attrs_eqv(b, c),
    ensures
        attrs_eqv(a, c),
{
    assert forall|i: int| 0 <= i < a.len() implies attr_eqv(a[i], c[i]) by {
        lemma_attr_eqv_trans(a[i], b[i], c[i]);
    }
}

/// Equivalence of nodes is transitive.
pub proof fn lemma_node_eqv_trans(a: Node, b: Node, c: Node)
    requires
        node_eqv(a, b),
        node_eqv(b, c),
    ensures
        node_eqv(a, c),
    decreases a,
{
    match (a, b, c) {
        (Node::Elem(x), Node::Elem(y), Node::Elem(z)) => {
            lemma_attrs_eqv_trans(x.attrs@, y.attrs@, z.attrs@);
            lemma_nodes_eqv_trans_inner(x.children@, y.children@, z.children@);
        },
        (Node::MacCall(x), Node::MacCall(y), Node::MacCall(z)) => {
            lemma_attrs_eqv_trans(x.attrs@, y.attrs@, z.attrs@);
            lemma_nodes_eqv_trans_inner(x.mac.args@, y.mac.args@, z.mac.args@);
        },
        _ => {},
    }
}

proof fn lemma_nodes_eqv_trans_inner(a: Seq<Node>, b: Seq<Node>, c: Seq<Node>)
    requires
        nodes_eqv(a, b),
        nodes_eqv(b, c),
    ensures
        nodes_eqv(a, c),
    decreases a,
{
    assert forall|i: int| 0 <= i < a.len() implies node_eqv(a[i], c[i]) by {
        lemma_node_eqv_trans(a[i], b[i], c[i]);
    }
}

/// Equivalence of node sequences is transitive.
pub proof fn lemma_nodes_eqv_trans(a: Seq<Node>, b: Seq<Node>, c: Seq<Node>)
    requires
        nodes_eqv(a, b),
        nodes_eqv(b, c),
    ensures
        nodes_eqv(a, c),
{
    lemma_nodes_eqv_trans_inner(a, b, c);
}

/// Equivalence of meta items is symmetric.
pub proof fn lemma_meta_eqv_sym(a: MetaItem, b: MetaItem)
    requires
        meta_eqv(a, b),
    ensures
        meta_eqv(b, a),
    decreases a,
{
    match (a, b) {
        (MetaItem::List(x, xs), MetaItem::List(y, ys)) => {
            assert forall|i: int| 0 <= i < ys@.len() implies meta_eqv(ys@[i], xs@[i]) by {
                lemma_meta_eqv_sym(xs@[i], ys@[i]);
            }
        },
        _ => {},
    }
}

/// Equivalence of attributes is symmetric.
pub proof fn lemma_attr_eqv_sym(a: Attribute, b: Attribute)
    requires
        attr_eqv(a, b),
    ensures
        attr_eqv(b, a),
{
    lemma_meta_eqv_sym(a.meta, b.meta);
}

/// Equivalence of attribute sequences is symmetric.
pub proof fn lemma_attrs_eqv_sym(a: Seq<Attribute>, b: Seq<Attribute>)
    requires
        attrs_eqv(a, b),
    ensures
        attrs_eqv(b, a),
{
    assert forall|i: int| 0 <= i < b.len() implies attr_eqv(b[i], a[i]) by {
        lemma_attr_eqv_sym(a[i], b[i]);
    }
}

/// Equivalence of nodes is symmetric.
pub proof fn lemma_node_eqv_sym(a: Node, b: Node)
    requires
        node_eqv(a, b),
    ensures
        node_eqv(b, a),
    decreases a,
{
    match (a, b) {
        (Node::Elem(x), Node::Elem(y)) => {
            lemma_attrs_eqv_sym(x.attrs@, y.attrs@);
            lemma_nodes_eqv_sym_inner(x.children@, y.children@);
        },
        (Node::MacCall(x), Node::MacCall(y)) => {
            lemma_attrs_eqv_sym(x.attrs@, y.attrs@);
            lemma_nodes_eqv_sym_inner(x.mac.args@, y.mac.args@);
        },
        _ => {},
    }
}

proof fn lemma_nodes_eqv_sym_inner(a: Seq<Node>, b: Seq<Node>)
    requires
        nodes_eqv(a, b),
    ensures
        nodes_eqv(b, a),
    decreases a,
{
    assert forall|i: int| 0 <= i < b.len() implies node_eqv(b[i], a[i]) by {
        lemma_node_eqv_sym(a[i], b[i]);
    }
}

/// Equivalence of node sequences is symmetric.
pub proof fn lemma_nodes_eqv_sym(a: Seq<Node>, b: Seq<Node>)
    requires
        nodes_eqv(a, b),
    ensures
        nodes_eqv(b, a),
{
    lemma_nodes_eqv_sym_inner(a, b);
}

/// Equivalence of meta items is reflexive.
pub proof fn lemma_meta_eqv_refl(a: MetaItem)
    ensures
        meta_eqv(a, a),
    decreases a,
{
    match a {
        MetaItem::List(x, xs) => {
            assert forall|i: int| 0 <= i < xs@.len() implies meta_eqv(xs@[i], xs@[i]) by {
                lemma_meta_eqv_refl(xs@[i]);
            }
        },
        _ => {},
    }
}

/// Equivalence of attributes is reflexive.
pub proof fn lemma_attr_eqv_refl(a: Attribute)
    ensures
        attr_eqv(a, a),
{
    lemma_meta_eqv_refl(a.meta);
}

/// Equivalence of attribute sequences is reflexive.
pub proof fn lemma_attrs_eqv_refl(a: Seq<Attribute>)
    ensures
        attrs_eqv(a, a),
{
    assert forall|i: int| 0 <= i < a.len() implies attr_eqv(a[i], a[i]) by {
        lemma_attr_eqv_refl(a[i]);
    }
}

/// Equivalence of nodes is reflexive.
pub proof fn lemma_node_eqv_refl(a: Node)
    ensures
        node_eqv(a, a),
    decreases a,
{
    match a {
        Node::Elem(e) => {
            lemma_attrs_eqv_refl(e.attrs@);
            lemma_nodes_eqv_refl_inner(e.children@);
        },
        Node::MacCall(m) => {
            lemma_attrs_eqv_refl(m.attrs@);
            lemma_nodes_eqv_refl_inner(m.mac.args@);
        },
        _ => {},
    }
}

proof fn lemma_nodes_eqv_refl_inner(a: Seq<Node>)
    ensures
        nodes_eqv(a, a),
    decreases a,
{
    assert forall|i: int| 0 <= i < a.len() implies node_eqv(a[i], a[i]) by {
        lemma_node_eqv_refl(a[i]);
    }
}

/// Equivalence of node sequences is reflexive.
pub proof fn lemma_nodes_eqv_refl(a: Seq<Node>)
    ensures
        nodes_eqv(a, a),
{
    lemma_nodes_eqv_refl_inner(a);
}

} // verus!
