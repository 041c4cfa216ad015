//! Squashes the per-trait pseudo-attributes back into one list:
//!
//! an item carrying `derive_Foo` and `derive_Bar` comes out carrying
//! `derive(Foo, Bar)`, with every other attribute preserved in place and the
//! list appended at the end, in the order the pseudo-attributes stood.

use vstd::prelude::*;
use crate::ast::{AttrStyle, Attribute, Crate, Elem, MetaItem, Node, Span};
use crate::strutil::{str_starts_with, str_suffix_from};

verus! {

broadcast use vstd::std_specs::vec::group_vec_axioms;

/// The meta item is a bare word starting with `derive_`.
pub open spec fn is_derive_word(m: MetaItem) -> bool {
    match m {
        MetaItem::Word(n) => n@.len() >= "derive_"@.len() && n@.subrange(
            0,
            "derive_"@.len() as int,
        ) == "derive_"@,
        _ => false,
    }
}

/// The trait name behind the `derive_` prefix of the word.
pub open spec fn derive_suffix(m: MetaItem) -> Seq<char> {
    match m {
        MetaItem::Word(n) => n@.subrange("derive_"@.len() as int, n@.len() as int),
        _ => Seq::empty(),
    }
}

/// The attributes that stay in place: everything but the `derive_` words.
pub open spec fn kept_attrs(s: Seq<Attribute>) -> Seq<Attribute>
    decreases s.len(),
{
    if s.len() == 0 {
        Seq::empty()
    } else if is_derive_word(s.last().meta) {
        kept_attrs(s.drop_last())
    } else {
        kept_attrs(s.drop_last()).push(s.last())
    }
}

/// The trait names of the `derive_` words, in their original order.
pub open spec fn derive_suffixes(s: Seq<Attribute>) -> Seq<Seq<char>>
    decreases s.len(),
{
    if s.len() == 0 {
        Seq::empty()
    } else if is_derive_word(s.last().meta) {
        derive_suffixes(s.drop_last()).push(derive_suffix(s.last().meta))
    } else {
        derive_suffixes(s.drop_last())
    }
}

/// Each meta item is the bare word of the corresponding name.
pub open spec fn word_items_match(ms: Seq<MetaItem>, ws: Seq<Seq<char>>) -> bool {
    ms.len() == ws.len() && (forall|k: int|
        0 <= k < ms.len() ==> (#[trigger] ms[k] matches MetaItem::Word(n) && n@ == ws[k]))
}

/// The position of the first `derive_` word among the attributes, or minus
/// one when there is none; the squashed list attribute takes its bookkeeping
/// fields from that word.
pub open spec fn first_derive_idx(s: Seq<Attribute>) -> int
    decreases s.len(),
{
    if s.len() == 0 {
        -1
    } else if first_derive_idx(s.drop_last()) >= 0 {
        first_derive_idx(s.drop_last())
    } else if is_derive_word(s.last().meta) {
        s.len() - 1
    } else {
        -1
    }
}

/// The first-word position is exactly the least position holding a
/// `derive_` word.
pub proof fn lemma_first_derive_idx_char(s: Seq<Attribute>)
    ensures
        first_derive_idx(s) == -1 <==> (forall|k: int|
            0 <= k < s.len() ==> !is_derive_word(#[trigger] s[k].meta)),
        first_derive_idx(s) >= 0 ==> 0 <= first_derive_idx(s) < s.len() && is_derive_word(
            s[first_derive_idx(s)].meta,
        ) && (forall|k: int|
            0 <= k < first_derive_idx(s) ==> !is_derive_word(#[trigger] s[k].meta)),
    decreases s.len(),
{
    if s.len() > 0 {
        lemma_first_derive_idx_char(s.drop_last());
        assert forall|k: int| 0 <= k < s.len() - 1 implies s.drop_last()[k] == s[k] by {}
    }
}

/// `b` is `a` with its `derive_` words squashed: the other attributes stay,
/// in order; when any `derive_` word was there, one `derive(...)` list
/// attribute follows them, holding the trait names in the order the words
/// stood and carrying the bookkeeping fields of the first word; everything
/// else of the item, and every item below it, is treated the same way.
pub open spec fn squashed_elem(a: Elem, b: Elem) -> bool
    decreases a,
{
    &&& b.kind == a.kind
    &&& b.ident == a.ident
    &&& b.span == a.span
    &&& (derive_suffixes(a.attrs@).len() == 0 ==> b.attrs@ == kept_attrs(a.attrs@))
    &&& (derive_suffixes(a.attrs@).len() > 0 ==> {
        &&& b.attrs@.len() == kept_attrs(a.attrs@).len() + 1
        &&& b.attrs@.subrange(0, kept_attrs(a.attrs@).len() as int) == kept_attrs(a.attrs@)
        &&& (b.attrs@.last().meta matches MetaItem::List(nm, items) && nm@ == "derive"@
            && word_items_match(items@, derive_suffixes(a.attrs@)))
        &&& 0 <= first_derive_idx(a.attrs@) < a.attrs@.len()
        &&& b.attrs@.last().id == a.attrs@[first_derive_idx(a.attrs@)].id
        &&& b.attrs@.last().style == a.attrs@[first_derive_idx(a.attrs@)].style
        &&& b.attrs@.last().is_sugared_doc == a.attrs@[first_derive_idx(a.attrs@)].is_sugared_doc
        &&& b.attrs@.last().span == a.attrs@[first_derive_idx(a.attrs@)].span
    })
    &&& squashed_nodes(a.children@, b.children@)
}

/// `b` is `a` squashed: an item per `squashed_elem`, anything else untouched.
pub open spec fn squashed_node(a: Node, b: Node) -> bool
    decreases a,
{
    match a {
        Node::Elem(ea) => b matches Node::Elem(eb) && squashed_elem(ea, eb),
        _ => b == a,
    }
}

/// Element-wise `squashed_node` over node sequences.
pub open spec fn squashed_nodes(a: Seq<Node>, b: Seq<Node>) -> bool
    decreases a,
{
    a.len() == b.len() && (forall|i: int| 0 <= i < a.len() ==> squashed_node(a[i], b[i]))
}

/// The attributes that stay in place are never `derive_` words.
pub proof fn lemma_kept_attrs_clean(s: Seq<Attribute>)
    ensures
        forall|k: int|
            0 <= k < kept_attrs(s).len() ==> !is_derive_word(#[trigger] kept_attrs(s)[k].meta),
    decreases s.len(),
{
    if s.len() > 0 {
        lemma_kept_attrs_clean(s.drop_last());
    }
}

/// On a list without `derive_` words the squash has nothing to do: everything
/// stays, and no trait name is gathered.
pub proof fn lemma_clean_attrs_fixed(s: Seq<Attribute>)
    requires
        forall|k: int| 0 <= k < s.len() ==> !is_derive_word(#[trigger] s[k].meta),
    ensures
        kept_attrs(s) == s,
        derive_suffixes(s).len() == 0,
    decreases s.len(),
{
    if s.len() > 0 {
        lemma_clean_attrs_fixed(s.drop_last());
        assert(kept_attrs(s) =~= s);
    }
}

/// Idempotence: squashing is a fixed point after one application. A squashed
/// tree holds no `derive_` word any more, so squashing it again gives it
/// back, item for item.
pub proof fn lemma_squash_derive_idempotent(a: Seq<Node>, b: Seq<Node>, c: Seq<Node>)
    requires
        squashed_nodes(a, b),
        squashed_nodes(b, c),
    ensures
        crate::ast::nodes_eqv(c, b),
    decreases a,
{
    assert forall|i: int| 0 <= i < c.len() implies crate::ast::node_eqv(c[i], b[i]) by {
        lemma_squashed_node_idem(a[i], b[i], c[i]);
    }
}

proof fn lemma_squashed_node_idem(a: Node, b: Node, c: Node)
    requires
        squashed_node(a, b),
        squashed_node(b, c),
    ensures
        crate::ast::node_eqv(c, b),
    decreases a,
{
    match a {
        Node::Elem(ea) => {
            let eb = b->Elem_0;
            let ec = c->Elem_0;
            // nothing squashable remains on the squashed item
            lemma_kept_attrs_clean(ea.attrs@);
            assert forall|k: int|
                0 <= k < eb.attrs@.len() implies !is_derive_word(
                #[trigger] eb.attrs@[k].meta,
            ) by {
                if derive_suffixes(ea.attrs@).len() > 0 && k < eb.attrs@.len() - 1 {
                    assert(eb.attrs@[k] == eb.attrs@.subrange(
                        0,
                        kept_attrs(ea.attrs@).len() as int,
                    )[k]);
                }
            }
            lemma_clean_attrs_fixed(eb.attrs@);
            assert(ec.attrs@ == eb.attrs@);
            crate::ast::lemma_attrs_eqv_refl(eb.attrs@);
            match eb.ident {
                Option::Some(x) => {
                    assert(crate::ast::ident_eqv(x, x));
                },
                Option::None => {},
            }
            assert forall|i: int|
                0 <= i < ec.children@.len() implies crate::ast::node_eqv(
                ec.children@[i],
                eb.children@[i],
            ) by {
                lemma_squashed_node_idem(ea.children@[i], eb.children@[i], ec.children@[i]);
            }
        },
        _ => {
            crate::ast::lemma_node_eqv_refl(b);
        },
    }
}

/// On a bare tree the squash is the identity, item for item.
pub proof fn lemma_squash_of_bare(a: Seq<Node>, b: Seq<Node>)
    requires
        squashed_nodes(a, b),
        crate::ast::bare_nodes(a),
    ensures
        crate::ast::nodes_eqv(b, a),
    decreases a,
{
    assert forall|i: int| 0 <= i < b.len() implies crate::ast::node_eqv(b[i], a[i]) by {
        lemma_squashed_bare_node(a[i], b[i]);
    }
}

proof fn lemma_squashed_bare_node(a: Node, b: Node)
    requires
        squashed_node(a, b),
        crate::ast::bare_node(a),
    ensures
        crate::ast::node_eqv(b, a),
    decreases a,
{
    match a {
        Node::Elem(ea) => {
            let eb = b->Elem_0;
            assert(derive_suffixes(ea.attrs@).len() == 0);
            assert(eb.attrs@ == kept_attrs(ea.attrs@));
            assert(eb.attrs@ =~= ea.attrs@);
            match eb.ident {
                Option::Some(x) => {
                    assert(crate::ast::ident_eqv(x, x));
                },
                Option::None => {},
            }
            assert forall|i: int|
                0 <= i < eb.children@.len() implies crate::ast::node_eqv(
                eb.children@[i],
                ea.children@[i],
            ) by {
                lemma_squashed_bare_node(ea.children@[i], eb.children@[i]);
            }
        },
        _ => {
            crate::ast::lemma_node_eqv_refl(b);
        },
    }
}

/// The gathered pieces of the squashed `derive` attribute: the bookkeeping of
/// the first `derive_` word met, and one bare word per trait name.
pub struct DeriveAttr {
    pub id: u64,
    pub style: AttrStyle,
    pub is_sugared_doc: bool,
    pub meta_items: Vec<MetaItem>,
    pub span: Span,
}

/// Gathers `derive_` words one attribute at a time.
pub struct SquashDeriveAttrFolder {
    pub derive_attr: Option<DeriveAttr>,
}

/// The words gathered so far, if any.
pub open spec fn folder_words(f: SquashDeriveAttrFolder) -> Seq<MetaItem> {
    match f.derive_attr {
        Option::Some(da) => da.meta_items@,
        Option::None => Seq::empty(),
    }
}

/// `b` keeps the bookkeeping fields of `a`.
pub open spec fn keeps_fields(a: DeriveAttr, b: DeriveAttr) -> bool {
    b.id == a.id && b.style == a.style && b.span == a.span && b.is_sugared_doc == a.is_sugared_doc
}

/// The bookkeeping fields of `a` come from the attribute `attr`.
pub open spec fn fields_from(a: DeriveAttr, attr: Attribute) -> bool {
    a.id == attr.id && a.style == attr.style && a.span == attr.span && a.is_sugared_doc
        == attr.is_sugared_doc
}

impl SquashDeriveAttrFolder {
    /// Consumes one attribute: a `derive_X` word is gathered and dropped,
    /// anything else is handed back untouched.
    pub fn fold_attribute(&mut self, attr: Attribute) -> (r: Option<Attribute>)
        ensures
            is_derive_word(attr.meta) ==> {
                &&& r is None
                &&& final(self).derive_attr is Some
                &&& folder_words(*final(self)) == folder_words(*old(self)).push(
                    folder_words(*final(self)).last(),
                )
                &&& (folder_words(*final(self)).last() matches MetaItem::Word(n) && n@
                    == derive_suffix(attr.meta))
                &&& (match old(self).derive_attr {
                    Option::Some(da0) => keeps_fields(da0, final(self).derive_attr->0),
                    Option::None => fields_from(final(self).derive_attr->0, attr),
                })
            },
            !is_derive_word(attr.meta) ==> r == Option::Some(attr) && *final(self) == *old(self),
    {
        let hit: Option<String> = match &attr.meta {
            MetaItem::Word(name) => {
                if str_starts_with(name.as_str(), "derive_") {
                    proof {
                        reveal_strlit("derive_");
                    }
                    Option::Some(str_suffix_from(name.as_str(), 7))
                } else {
                    Option::None
                }
            },
            _ => Option::None,
        };
        match hit {
            Option::None => Option::Some(attr),
            Option::Some(derive_name) => {
                proof {
                    reveal_strlit("derive_");
                }
                let meta_word = MetaItem::Word(derive_name);
                let folded = match self.derive_attr.take() {
                    Option::Some(mut da) => {
                        da.meta_items.push(meta_word);
                        da
                    },
                    Option::None => DeriveAttr {
                        id: attr.id,
                        style: attr.style,
                        is_sugared_doc: attr.is_sugared_doc,
                        meta_items: vec![meta_word],
                        span: attr.span,
                    },
                };
                self.derive_attr = Option::Some(folded);
                Option::None
            },
        }
    }

    /// The squashed `derive(...)` attribute, when any `derive_` word was
    /// gathered.
    pub fn into_attr(self) -> (r: Option<Attribute>)
        ensures
            self.derive_attr is None ==> r is None,
            self.derive_attr matches Option::Some(da) ==> (r matches Option::Some(a) && a.id
                == da.id && a.style == da.style && a.is_sugared_doc == da.is_sugared_doc && a.span
                == da.span && (a.meta matches MetaItem::List(nm, items) && nm@ == "derive"@
                && items@ == da.meta_items@)),
    {
        match self.derive_attr {
            Option::Some(da) => {
                let name: String = "derive".to_owned();
                let meta_item = MetaItem::List(name, da.meta_items);
                Option::Some(
                    Attribute {
                        id: da.id,
                        style: da.style,
                        meta: meta_item,
                        is_sugared_doc: da.is_sugared_doc,
                        span: da.span,
                    },
                )
            },
            Option::None => Option::None,
        }
    }
}

/// Folds every item of a tree, squashing its `derive_` words.
pub struct SquashDeriveFolder;

impl SquashDeriveFolder {
    /// Squashes the `derive_` words of one item and of every item below it.
    /// The other attributes stay in place and in order; the squashed list, if
    /// any `derive_` word was there, is appended at the end, its entries in
    /// the order the words stood.
    pub fn fold_item_simple(&mut self, item: Elem) -> (r: Elem)
        ensures
            squashed_elem(item, r),
            r.children@.len() == item.children@.len(),
            crate::ast::placeholders_free(item.children@) ==> crate::ast::placeholders_free(
                r.children@,
            ),
        decreases item,
    {
        let Elem { kind, ident, attrs, children, span } = item;
        let ghost attrs0 = attrs@;
        let mut attrs = attrs;
        let mut attr_folder = SquashDeriveAttrFolder { derive_attr: Option::None };
        let mut new_attrs: Vec<Attribute> = Vec::new();
        let ghost mut fd: int = -1;
        let n: usize = attrs.len();
        let mut i: usize = 0;
        while i < n
            invariant
                n == attrs0.len(),
                i <= n,
                attrs@ =~= attrs0.subrange(i as int, n as int),
                new_attrs@ == kept_attrs(attrs0.subrange(0, i as int)),
                word_items_match(
                    folder_words(attr_folder),
                    derive_suffixes(attrs0.subrange(0, i as int)),
                ),
                attr_folder.derive_attr is None <==> derive_suffixes(
                    attrs0.subrange(0, i as int),
                ).len() == 0,
                attr_folder.derive_attr matches Option::Some(da) ==> {
                    &&& 0 <= fd < i
                    &&& is_derive_word(attrs0[fd].meta)
                    &&& (forall|k: int| 0 <= k < fd ==> !is_derive_word(#[trigger] attrs0[k].meta))
                    &&& fields_from(da, attrs0[fd])
                },
                attr_folder.derive_attr is None ==> (forall|k: int|
                    0 <= k < i ==> !is_derive_word(#[trigger] attrs0[k].meta)),
            decreases n - i,
        {
            let attr = attrs.remove(0);
            proof {
                assert(attr == attrs0[i as int]);
                assert(attrs0.subrange(0, i + 1 as int).drop_last() =~= attrs0.subrange(
                    0,
                    i as int,
                ));
                assert(attrs0.subrange(0, i + 1 as int).last() == attrs0[i as int]);
            }
            let ghost was_none = attr_folder.derive_attr is None;
            match attr_folder.fold_attribute(attr) {
                Option::Some(a) => {
                    new_attrs.push(a);
                },
                Option::None => {},
            }
            proof {
                if was_none && is_derive_word(attrs0[i as int].meta) {
                    fd = i as int;
                }
            }
            i += 1;
        }
        proof {
            assert(attrs0.subrange(0, n as int) =~= attrs0);
        }
        match attr_folder.into_attr() {
            Option::Some(derive_attr) => {
                new_attrs.push(derive_attr);
                proof {
                    assert(new_attrs@.drop_last() =~= kept_attrs(attrs0));
                    assert(new_attrs@.subrange(0, kept_attrs(attrs0).len() as int) =~= kept_attrs(
                        attrs0,
                    ));
                    lemma_first_derive_idx_char(attrs0);
                    assert(fd == first_derive_idx(attrs0));
                }
            },
            Option::None => {},
        }
        let new_children = fold_nodes_simple(children);
        Elem { kind, ident, attrs: new_attrs, children: new_children, span }
    }
}

/// Squashes the `derive_` words of every item in the sequence.
pub fn fold_nodes_simple(v: Vec<Node>) -> (r: Vec<Node>)
    ensures
        r@.len() == v@.len(),
        squashed_nodes(v@, r@),
        crate::ast::placeholders_free(v@) ==> crate::ast::placeholders_free(r@),
    decreases v@,
{
    let mut v = v;
    let ghost v0 = v@;
    if v.len() == 0 {
        return Vec::new();
    }
    let first = v.remove(0);
    proof {
        assert(first == v0[0]);
        assert(v@ =~= v0.subrange(1, v0.len() as int));
        assert(decreases_to!(v0 => v0[0]));
        assert(decreases_to!(v0 => v0.subrange(1, v0.len() as int)));
    }
    let folded = match first {
        Node::Elem(e) => {
            proof {
                assert(decreases_to!(v0[0] => e));
            }
            let mut f = SquashDeriveFolder;
            Node::Elem(f.fold_item_simple(e))
        },
        other => other,
    };
    let mut out: Vec<Node> = Vec::new();
    out.push(folded);
    let ghost out_first = out@;
    let mut rest = fold_nodes_simple(v);
    let ghost rest0 = rest@;
    out.append(&mut rest);
    proof {
        assert forall|i: int| 0 <= i < v0.len() implies squashed_node(v0[i], out@[i]) by {
            if i == 0 {
                assert(out@[0] == out_first[0]);
            } else {
                assert(out@[i] == rest0[i - 1]);
                assert(v0.subrange(1, v0.len() as int)[i - 1] == v0[i]);
            }
        }
        if crate::ast::placeholders_free(v0) {
            assert(crate::ast::placeholder_free(v0[0]));
            assert(crate::ast::placeholders_free(v0.subrange(1, v0.len() as int))) by {
                assert forall|i: int|
                    0 <= i < v0.len() - 1 implies crate::ast::placeholder_free(
                    v0.subrange(1, v0.len() as int)[i],
                ) by {
                    assert(v0.subrange(1, v0.len() as int)[i] == v0[i + 1]);
                }
            }
            assert forall|i: int|
                0 <= i < out@.len() implies crate::ast::placeholder_free(out@[i]) by {
                if i >= 1 {
                    assert(out@[i] == rest0[i - 1]);
                }
            }
        }
    }
    out
}

/// Squashes all the `derive_X` pseudo-attributes of a whole tree into
/// `derive(X, ...)` lists, one item at a time.
pub fn squash_derive(krate: Crate) -> (r: Crate)
    ensures
        r.attrs == krate.attrs,
        r.span == krate.span,
        r.items@.len() == krate.items@.len(),
        squashed_nodes(krate.items@, r.items@),
        crate::ast::placeholders_free(krate.items@) ==> crate::ast::placeholders_free(r.items@),
{
    let Crate { attrs, items, span } = krate;
    Crate { attrs, items: fold_nodes_simple(items), span }
}

} // verus!
