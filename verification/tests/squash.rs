use syntex::ast::{AttrStyle, Attribute, Elem, ExpansionKind, Ident, MetaItem, Span};
use syntex::squash_derive::SquashDeriveFolder;

fn dummy_sp() -> Span {
    Span { lo: 0, hi: 0 }
}

fn mk_meta_word(name: &str) -> MetaItem {
    MetaItem::Word(name.to_string())
}

fn mk_meta_list(name: &str, meta_items: Vec<MetaItem>) -> MetaItem {
    MetaItem::List(name.to_string(), meta_items)
}

fn mk_attr(meta_item: MetaItem) -> Attribute {
    Attribute {
        id: 0,
        style: AttrStyle::Outer,
        meta: meta_item,
        is_sugared_doc: false,
        span: dummy_sp(),
    }
}

fn mk_item(attrs: Vec<Attribute>) -> Elem {
    Elem {
        kind: ExpansionKind::Items,
        ident: Some(Ident { name: "Foo".to_string(), marks: Vec::new() }),
        attrs,
        children: Vec::new(),
        span: dummy_sp(),
    }
}

#[test]
fn test_squash() {
    let item = mk_item(vec![mk_attr(mk_meta_word("derive_A")), mk_attr(mk_meta_word("derive_B"))]);

    assert_eq!(
        SquashDeriveFolder.fold_item_simple(item),
        mk_item(vec![mk_attr(mk_meta_list(
            "derive",
            vec![mk_meta_word("A"), mk_meta_word("B")],
        ))]),
    );
}

#[test]
fn squash_keeps_other_attributes_in_place() {
    let item = mk_item(vec![
        mk_attr(mk_meta_word("inline")),
        mk_attr(mk_meta_word("derive_Clone")),
        mk_attr(mk_meta_word("doc_hidden")),
    ]);
    let folded = SquashDeriveFolder.fold_item_simple(item);
    assert_eq!(folded.attrs.len(), 3);
    assert_eq!(folded.attrs[0].meta, mk_meta_word("inline"));
    assert_eq!(folded.attrs[1].meta, mk_meta_word("doc_hidden"));
    assert_eq!(
        folded.attrs[2].meta,
        mk_meta_list("derive", vec![mk_meta_word("Clone")]),
    );
}

#[test]
fn squash_without_derive_words_changes_nothing() {
    let item = mk_item(vec![mk_attr(mk_meta_word("inline"))]);
    let folded = SquashDeriveFolder.fold_item_simple(item);
    assert_eq!(folded, mk_item(vec![mk_attr(mk_meta_word("inline"))]));
}

#[test]
fn squash_whole_tree_reaches_nested_items() {
    let inner = mk_item(vec![mk_attr(mk_meta_word("derive_Eq"))]);
    let outer = Elem {
        kind: ExpansionKind::Items,
        ident: Some(Ident { name: "outer".to_string(), marks: Vec::new() }),
        attrs: Vec::new(),
        children: vec![syntex::ast::Node::Elem(inner)],
        span: dummy_sp(),
    };
    let krate = syntex::ast::Crate {
        attrs: Vec::new(),
        items: vec![syntex::ast::Node::Elem(outer)],
        span: dummy_sp(),
    };
    let squashed = syntex::squash_derive::squash_derive(krate);
    match &squashed.items[0] {
        syntex::ast::Node::Elem(o) => match &o.children[0] {
            syntex::ast::Node::Elem(i) => {
                assert_eq!(i.attrs.len(), 1);
                assert_eq!(
                    i.attrs[0].meta,
                    mk_meta_list("derive", vec![mk_meta_word("Eq")]),
                );
            },
            other => panic!("expected an item, got {:?}", other),
        },
        other => panic!("expected an item, got {:?}", other),
    }
}

#[test]
fn squash_twice_equals_squash_once() {
    let build = || syntex::ast::Crate {
        attrs: Vec::new(),
        items: vec![syntex::ast::Node::Elem(mk_item(vec![
            mk_attr(mk_meta_word("inline")),
            mk_attr(mk_meta_word("derive_A")),
            mk_attr(mk_meta_word("derive_B")),
        ]))],
        span: dummy_sp(),
    };
    let once = syntex::squash_derive::squash_derive(build());
    let twice = syntex::squash_derive::squash_derive(syntex::squash_derive::squash_derive(build()));
    assert_eq!(once, twice);
}
