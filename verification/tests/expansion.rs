use syntex::ast::{
    AttrStyle, Attribute, Crate, Elem, ExpansionKind, Ident, Mac, MacNode, MetaItem, Node, Span,
};
use syntex::engine::{Pass, Registry};
use syntex::error::{DiagKind, Error, ExpandError};
use syntex::expand::{expand_crate, ExpansionConfig, ExtCtxt};
use syntex::registry::Expander;
use syntex::resolver::Resolver;

fn sp(lo: u64) -> Span {
    Span { lo, hi: lo + 1 }
}

fn ident(name: &str) -> Ident {
    Ident { name: name.to_string(), marks: Vec::new() }
}

fn bang(name: &str, kind: ExpansionKind, at: u64) -> Node {
    Node::MacCall(MacNode {
        kind,
        mac: Mac {
            global: false,
            segments: vec![ident(name)],
            has_parameters: false,
            args: Vec::new(),
            span: sp(at),
        },
        ident: None,
        attrs: Vec::new(),
        span: sp(at),
    })
}

fn attr(meta: MetaItem) -> Attribute {
    Attribute { id: 0, style: AttrStyle::Outer, meta, is_sugared_doc: false, span: sp(9) }
}

fn item(name: &str, attrs: Vec<Attribute>) -> Node {
    Node::Elem(Elem {
        kind: ExpansionKind::Items,
        ident: Some(ident(name)),
        attrs,
        children: Vec::new(),
        span: sp(1),
    })
}

fn krate(items: Vec<Node>) -> Crate {
    Crate { attrs: Vec::new(), items, span: sp(0) }
}

// Expanding a tree that holds no invocation returns it unchanged.
#[test]
fn fixed_point_on_fully_expanded_tree() {
    let registry = Registry::new();
    let input = krate(vec![item("plain", vec![attr(MetaItem::Word("inline".to_string()))])]);
    let expected = krate(vec![item("plain", vec![attr(MetaItem::Word("inline".to_string()))])]);
    let out = registry.expand("test", input).unwrap();
    assert_eq!(out, expected);
}

// A function-like extension that expands to a fixed string literal yields
// exactly that literal at the call's position.
#[test]
fn greet_expands_to_string_literal() {
    let mut registry = Registry::new();
    registry.add_macro("greet", Expander::Emit(vec![Node::Lit("hello world".to_string())]));
    let out = registry.expand("test", krate(vec![bang("greet", ExpansionKind::Expr, 4)])).unwrap();
    assert_eq!(out.items, vec![Node::Lit("hello world".to_string())]);
}

// Two invocations of the same extension at different call sites introduce
// identifiers with different mark chains, whatever their text.
#[test]
fn hygiene_marks_differ_between_call_sites() {
    let mut registry = Registry::new();
    registry.add_macro("mk", Expander::Emit(vec![Node::Ident(ident("tmp"))]));
    let out = registry
        .expand("test", krate(vec![bang("mk", ExpansionKind::Items, 4), bang("mk", ExpansionKind::Items, 5)]))
        .unwrap();
    assert_eq!(out.items.len(), 2);
    let marks_of = |n: &Node| -> Vec<u64> {
        match n {
            Node::Ident(i) => {
                assert_eq!(i.name, "tmp");
                i.marks.clone()
            },
            other => panic!("expected an identifier, got {:?}", other),
        }
    };
    let m0 = marks_of(&out.items[0]);
    let m1 = marks_of(&out.items[1]);
    assert_eq!(m0.len(), 1);
    assert_eq!(m1.len(), 1);
    assert_ne!(m0, m1);
}

// A modifier that produces other than exactly one node aborts the run.
#[test]
fn modifier_arity_violation_is_fatal() {
    let mut registry = Registry::new();
    registry.add_modifier("zap", Expander::Emit(Vec::new()));
    let input = krate(vec![item("victim", vec![attr(MetaItem::Word("zap".to_string()))])]);
    match registry.expand("test", input) {
        Err(Error::Expand(ExpandError::ModifierArityViolation { found, .. })) => {
            assert_eq!(found, 0);
        },
        other => panic!("expected a modifier arity violation, got {:?}", other),
    }
    let mut registry2 = Registry::new();
    registry2.add_modifier(
        "dup",
        Expander::Emit(vec![item("a", Vec::new()), item("b", Vec::new())]),
    );
    let input2 = krate(vec![item("victim", vec![attr(MetaItem::Word("dup".to_string()))])]);
    match registry2.expand("test", input2) {
        Err(Error::Expand(ExpandError::ModifierArityViolation { found, .. })) => {
            assert_eq!(found, 2);
        },
        other => panic!("expected a modifier arity violation, got {:?}", other),
    }
}

// An extension that re-emits an invocation of itself aborts with the
// recursion limit at the configured bound, not an unbounded loop.
#[test]
fn self_reemitting_extension_hits_recursion_limit() {
    let mut registry = Registry::new();
    registry.add_macro("looper", Expander::Emit(vec![bang("looper", ExpansionKind::Items, 7)]));
    match registry.expand("test", krate(vec![bang("looper", ExpansionKind::Items, 4)])) {
        Err(Error::Expand(ExpandError::RecursionLimitExceeded { depth, .. })) => {
            assert_eq!(depth, 65);
        },
        other => panic!("expected the recursion limit, got {:?}", other),
    }
}

// `derive(Debug)` with `Debug` handled by a registered modifier loses the
// `derive` attribute and gains the modifier's marker exactly once.
#[test]
fn derive_routed_to_modifier_leaves_marker_once() {
    let mut registry = Registry::new();
    registry.add_modifier(
        "derive_Debug",
        Expander::AppendAttr(MetaItem::Word("debug_marker".to_string())),
    );
    let input = krate(vec![item(
        "S",
        vec![attr(MetaItem::List(
            "derive".to_string(),
            vec![MetaItem::Word("Debug".to_string())],
        ))],
    )]);
    let out = registry.expand("test", input).unwrap();
    assert_eq!(out.items.len(), 1);
    match &out.items[0] {
        Node::Elem(e) => {
            assert_eq!(e.attrs.len(), 1);
            assert_eq!(e.attrs[0].meta, MetaItem::Word("debug_marker".to_string()));
        },
        other => panic!("expected an item, got {:?}", other),
    }
}

// `derive(A, B)` with both entries unrecognized keeps one residual
// `derive(A, B)` in the original left-to-right order.
#[test]
fn unhandled_derive_residual_keeps_order() {
    let registry = Registry::new();
    let input = krate(vec![item(
        "S",
        vec![attr(MetaItem::List(
            "derive".to_string(),
            vec![MetaItem::Word("A".to_string()), MetaItem::Word("B".to_string())],
        ))],
    )]);
    let out = registry.expand("test", input).unwrap();
    match &out.items[0] {
        Node::Elem(e) => {
            assert_eq!(e.attrs.len(), 1);
            assert_eq!(
                e.attrs[0].meta,
                MetaItem::List(
                    "derive".to_string(),
                    vec![MetaItem::Word("A".to_string()), MetaItem::Word("B".to_string())],
                ),
            );
        },
        other => panic!("expected an item, got {:?}", other),
    }
}

// The derive unroller pushes one `derive_X` pseudo-attribute per trait, in
// reverse list order: `derive(A, B)` pushes `derive_B` and then `derive_A`.
#[test]
fn derive_unrolls_in_reverse_order() {
    let resolver = Resolver::new();
    let ecfg = ExpansionConfig {
        crate_name: "test".to_string(),
        recursion_limit: 64,
        permissive: true,
        allow_custom_derive: true,
        single_step: false,
    };
    let mut cx = ExtCtxt::new(resolver, Vec::new(), ecfg);
    let mitem = MetaItem::List(
        "derive".to_string(),
        vec![MetaItem::Word("A".to_string()), MetaItem::Word("B".to_string())],
    );
    let out = syntex::deriving::expand_derive(&mut cx, sp(3), &mitem, item("S", Vec::new()))
        .unwrap();
    match out {
        Node::Elem(e) => {
            assert_eq!(e.attrs.len(), 2);
            assert_eq!(e.attrs[0].meta, MetaItem::Word("derive_B".to_string()));
            assert_eq!(e.attrs[1].meta, MetaItem::Word("derive_A".to_string()));
        },
        other => panic!("expected an item, got {:?}", other),
    }
}

// A derive entry naming no built-in trait is reported when custom derives
// are off, and taken when they are on.
#[test]
fn custom_derive_entries_need_the_capability() {
    assert!(syntex::deriving::is_builtin_trait("Clone"));
    assert!(syntex::deriving::is_builtin_trait("PartialOrd"));
    assert!(!syntex::deriving::is_builtin_trait("Serialize"));

    let mut cx = ExtCtxt::new(
        Resolver::new(),
        Vec::new(),
        ExpansionConfig::default("test".to_string()),
    );
    let mitem = MetaItem::List("derive".to_string(), vec![MetaItem::Word("Serialize".to_string())]);
    let out = syntex::deriving::expand_derive(&mut cx, sp(3), &mitem, item("S", Vec::new()))
        .unwrap();
    match out {
        Node::Elem(e) => assert_eq!(e.attrs.len(), 0),
        other => panic!("expected an item, got {:?}", other),
    }
    assert_eq!(cx.diagnostics.len(), 1);
    assert!(matches!(cx.diagnostics[0].kind, DiagKind::CustomDeriveDisabled));
}

// Under the permissive policy an unresolved invocation passes through to the
// output in its original form, unmarked.
#[test]
fn unresolved_invocation_passes_through() {
    let registry = Registry::new();
    let out = registry.expand("test", krate(vec![bang("mystery", ExpansionKind::Items, 4)]))
        .unwrap();
    assert_eq!(out.items, vec![bang("mystery", ExpansionKind::Items, 4)]);
}

// Under the strict policy an unresolved invocation is reported and a neutral
// result stands in its place.
#[test]
fn unresolved_invocation_reported_when_strict() {
    let ecfg = ExpansionConfig {
        crate_name: "test".to_string(),
        recursion_limit: 64,
        permissive: false,
        allow_custom_derive: false,
        single_step: false,
    };
    let mut cx = ExtCtxt::new(Resolver::new(), Vec::new(), ecfg);
    let out = expand_crate(&mut cx, Vec::new(), krate(vec![bang("mystery", ExpansionKind::Expr, 4)]))
        .unwrap();
    assert_eq!(out.items.len(), 1);
    assert!(matches!(out.items[0], Node::Elem(_)));
    assert_eq!(cx.diagnostics.len(), 1);
    assert!(matches!(cx.diagnostics[0].kind, DiagKind::UnresolvedExtension));
}

// A qualified invocation path is a malformed invocation.
#[test]
fn qualified_path_is_malformed() {
    let mut cx = ExtCtxt::new(
        Resolver::new(),
        Vec::new(),
        ExpansionConfig::default("test".to_string()),
    );
    let call = Node::MacCall(MacNode {
        kind: ExpansionKind::Items,
        mac: Mac {
            global: false,
            segments: vec![ident("a"), ident("b")],
            has_parameters: false,
            args: Vec::new(),
            span: sp(4),
        },
        ident: None,
        attrs: Vec::new(),
        span: sp(4),
    });
    expand_crate(&mut cx, Vec::new(), krate(vec![call])).unwrap();
    assert_eq!(cx.diagnostics.len(), 1);
    assert!(matches!(cx.diagnostics[0].kind, DiagKind::MalformedInvocation));
}

// A node whose configuration condition is off is dropped; one whose
// condition is on is kept, with the condition consumed.
#[test]
fn configuration_stripping_follows_the_enabled_predicates() {
    let mut registry = Registry::new();
    registry.add_cfg(MetaItem::Word("unix".to_string()));
    let cfg_attr_of =
        |pred: &str| attr(MetaItem::List("cfg".to_string(), vec![MetaItem::Word(pred.to_string())]));
    let input = krate(vec![
        item("kept", vec![cfg_attr_of("unix")]),
        item("dropped", vec![cfg_attr_of("windows")]),
    ]);
    let out = registry.expand("test", input).unwrap();
    assert_eq!(out.items.len(), 1);
    match &out.items[0] {
        Node::Elem(e) => {
            assert_eq!(e.ident.as_ref().unwrap().name, "kept");
            assert_eq!(e.attrs.len(), 0);
        },
        other => panic!("expected an item, got {:?}", other),
    }
}

// A conditional attribute whose inner attribute stays unhandled is
// re-attached as a residual conditional wrapper.
#[test]
fn unhandled_cfg_attr_keeps_residual_wrapper() {
    let mut registry = Registry::new();
    // some registered modifier, so the item becomes an attribute invocation
    registry.add_modifier(
        "touch",
        Expander::AppendAttr(MetaItem::List(
            "cfg_attr".to_string(),
            vec![MetaItem::Word("unix".to_string()), MetaItem::Word("quiet".to_string())],
        )),
    );
    let input = krate(vec![item("S", vec![attr(MetaItem::Word("touch".to_string()))])]);
    let out = registry.expand("test", input).unwrap();
    match &out.items[0] {
        Node::Elem(e) => {
            assert_eq!(e.attrs.len(), 1);
            assert_eq!(
                e.attrs[0].meta,
                MetaItem::List(
                    "cfg_attr".to_string(),
                    vec![MetaItem::Word("unix".to_string()), MetaItem::Word("quiet".to_string())],
                ),
            );
        },
        other => panic!("expected an item, got {:?}", other),
    }
}

// A decorator's siblings stand after the node that carried the attribute.
#[test]
fn decorator_siblings_follow_their_node() {
    let mut registry = Registry::new();
    registry.add_decorator("companion", Expander::Emit(vec![item("shadow", Vec::new())]));
    let input = krate(vec![item("S", vec![attr(MetaItem::Word("companion".to_string()))])]);
    let out = registry.expand("test", input).unwrap();
    assert_eq!(out.items.len(), 2);
    match (&out.items[0], &out.items[1]) {
        (Node::Elem(first), Node::Elem(second)) => {
            assert_eq!(first.ident.as_ref().unwrap().name, "S");
            assert_eq!(second.ident.as_ref().unwrap().name, "shadow");
        },
        other => panic!("expected two items, got {:?}", other),
    }
}

// The sample extensions: the function-like one yields the fixed literal.
#[test]
fn sample_extensions_register_and_run() {
    let mut registry = Registry::new();
    syntex::hello_world_macros::register(&mut registry);
    assert_eq!(registry.syntax_exts.len(), 2);
    let out = registry
        .expand("test", krate(vec![bang("syntex_macro", ExpansionKind::Expr, 4)]))
        .unwrap();
    assert_eq!(out.items, vec![Node::Lit("hello world".to_string())]);
}

// Registration order decides lookup: the latest registration of a name wins.
#[test]
fn resolver_lookup_takes_latest_registration() {
    let mut resolver = Resolver::new();
    resolver.add_ext(
        ident("x"),
        syntex::registry::SyntaxExtension::NormalTT(Expander::Emit(Vec::new())),
    );
    resolver.add_ext(
        ident("x"),
        syntex::registry::SyntaxExtension::MultiModifier(Expander::Derive),
    );
    match resolver.find_extension(0, &"x".to_string()) {
        Some(syntex::registry::SyntaxExtension::MultiModifier(Expander::Derive)) => {},
        other => panic!("expected the later registration, got {:?}", other),
    }
    assert!(resolver.find_extension(0, &"y".to_string()).is_none());
}

// The attribute extractor takes the first attribute that resolves to a
// decorator or a modifier, and leaves the rest in place.
#[test]
fn find_attr_invoc_extracts_first_resolvable() {
    let mut resolver = Resolver::new();
    resolver.add_ext(
        ident("deco"),
        syntex::registry::SyntaxExtension::MultiDecorator(Expander::Emit(Vec::new())),
    );
    let mut attrs = vec![
        attr(MetaItem::Word("inline".to_string())),
        attr(MetaItem::Word("deco".to_string())),
        attr(MetaItem::Word("doc".to_string())),
    ];
    let got = resolver.find_attr_invoc(&mut attrs).unwrap();
    assert_eq!(got.meta, MetaItem::Word("deco".to_string()));
    assert_eq!(attrs.len(), 2);
    assert_eq!(attrs[0].meta, MetaItem::Word("inline".to_string()));
    assert_eq!(attrs[1].meta, MetaItem::Word("doc".to_string()));
}

// The root registry gathers extensions under their kinds.
#[test]
fn root_registry_gathers_extensions() {
    let mut registry = syntex::registry::Registry::new();
    registry.register_macro("m", Expander::Emit(Vec::new()));
    registry.register_ident("i", Expander::Emit(Vec::new()));
    registry.register_decorator("d", Expander::Emit(Vec::new()));
    registry.register_modifier("o", Expander::Derive);
    assert_eq!(registry.syntax_exts.len(), 4);
    assert_eq!(registry.syntax_exts[0].0, "m");
    assert!(matches!(
        registry.syntax_exts[3].1,
        syntex::registry::SyntaxExtension::MultiModifier(Expander::Derive)
    ));
    let empty = syntex::registry::Registry::with_standard_macros();
    assert_eq!(empty.syntax_exts.len(), 0);
}

// Extra attributes and passes registered on the engine run with it.
#[test]
fn engine_attrs_and_passes_run() {
    let mut registry = Registry::new();
    registry.add_attr(MetaItem::Word("top".to_string()));
    registry.add_post_expansion_pass(Pass::SquashDerive);
    registry.add_pre_expansion_pass(Pass::SquashDerive);
    let input = krate(vec![item("S", vec![attr(MetaItem::Word("derive_Q".to_string()))])]);
    let out = registry.expand("test", input).unwrap();
    assert_eq!(out.attrs.len(), 1);
    assert_eq!(out.attrs[0].meta, MetaItem::Word("top".to_string()));
    match &out.items[0] {
        Node::Elem(e) => {
            assert_eq!(e.attrs.len(), 1);
            assert_eq!(
                e.attrs[0].meta,
                MetaItem::List("derive".to_string(), vec![MetaItem::Word("Q".to_string())]),
            );
        },
        other => panic!("expected an item, got {:?}", other),
    }
}

// An ident-tagged extension demands its identifier argument.
#[test]
fn ident_extension_requires_the_identifier() {
    let mut registry = Registry::new();
    registry.add_ident_macro("make", Expander::Emit(vec![item("made", Vec::new())]));
    // without the identifier the invocation is malformed and reported
    match registry.expand("test", krate(vec![bang("make", ExpansionKind::Items, 4)])) {
        Err(Error::Parse) => {},
        other => panic!("expected a reported run, got {:?}", other),
    }
}

// The engine's error names its own description.
#[test]
fn error_description_names_the_fault() {
    assert_eq!(Error::Parse.description(), "failed to parse input");
    assert_eq!(Error::Io("gone".to_string()).description(), "input/output error");
    assert_eq!(
        Error::Expand(ExpandError::IdentityExhausted).description(),
        "expansion failed"
    );
}

// Nested invocations are discovered in the results of outer expansions and
// substituted deepest first; no placeholder remains anywhere.
#[test]
fn nested_invocations_expand_depth_by_depth() {
    let mut registry = Registry::new();
    registry.add_macro(
        "outer",
        Expander::Emit(vec![Node::Elem(Elem {
            kind: ExpansionKind::Items,
            ident: Some(ident("wrap")),
            attrs: Vec::new(),
            children: vec![bang("inner", ExpansionKind::Expr, 6)],
            span: sp(5),
        })]),
    );
    registry.add_macro("inner", Expander::Emit(vec![Node::Lit("x".to_string())]));
    let out = registry.expand("test", krate(vec![bang("outer", ExpansionKind::Items, 4)])).unwrap();
    assert_eq!(out.items.len(), 1);
    match &out.items[0] {
        Node::Elem(e) => {
            assert_eq!(e.ident.as_ref().unwrap().name, "wrap");
            assert_eq!(e.children, vec![Node::Lit("x".to_string())]);
        },
        other => panic!("expected an item, got {:?}", other),
    }
}

// An extension in expression position must produce exactly one node; more is
// a reported shape mismatch, recovered with a neutral node.
#[test]
fn result_shape_mismatch_is_reported() {
    let mut registry = Registry::new();
    registry.add_macro(
        "pair",
        Expander::Emit(vec![Node::Lit("a".to_string()), Node::Lit("b".to_string())]),
    );
    match registry.expand("test", krate(vec![bang("pair", ExpansionKind::Expr, 4)])) {
        Err(Error::Parse) => {},
        other => panic!("expected a reported run, got {:?}", other),
    }
}

// An empty derive list is a warning only; the attribute is consumed and the
// run goes on.
#[test]
fn empty_derive_list_is_only_a_warning() {
    let registry = Registry::new();
    let input = krate(vec![item(
        "S",
        vec![attr(MetaItem::List("derive".to_string(), Vec::new()))],
    )]);
    let out = registry.expand("test", input).unwrap();
    match &out.items[0] {
        Node::Elem(e) => assert_eq!(e.attrs.len(), 0),
        other => panic!("expected an item, got {:?}", other),
    }
}

// A derive entry that is not a bare word is reported and skipped; the rest
// of the list is still processed.
#[test]
fn malformed_derive_entry_is_reported_and_skipped() {
    let registry = Registry::new();
    let input = krate(vec![item(
        "S",
        vec![attr(MetaItem::List(
            "derive".to_string(),
            vec![MetaItem::List("bad".to_string(), Vec::new())],
        ))],
    )]);
    match registry.expand("test", input) {
        Err(Error::Parse) => {},
        other => panic!("expected a reported run, got {:?}", other),
    }
}

// A placeholder with no recorded result is a fatal fault of its own kind.
#[test]
fn stray_placeholder_in_a_template_is_fatal() {
    let mut registry = Registry::new();
    registry.add_macro(
        "bogus",
        Expander::Emit(vec![Node::Placeholder(syntex::ast::Placeholder {
            kind: ExpansionKind::Items,
            id: 999,
        })]),
    );
    match registry.expand("test", krate(vec![bang("bogus", ExpansionKind::Items, 4)])) {
        Err(Error::Expand(ExpandError::MissingPlaceholder { id })) => assert_eq!(id, 999),
        other => panic!("expected a missing placeholder, got {:?}", other),
    }
}

// A conditional wrapper around a decorator: the emitted sibling follows the
// originating node and carries the wrapper's condition. With the predicate
// enabled the sibling stays (its consumed condition stripped); with it off,
// the condition the sibling gained configures it away.
#[test]
fn cfg_attr_wrapped_decorator_sibling_keeps_condition() {
    let build_input = || {
        krate(vec![Node::Elem(Elem {
            kind: ExpansionKind::Items,
            ident: Some(ident("S")),
            attrs: vec![
                attr(MetaItem::Word("touch".to_string())),
                attr(MetaItem::List(
                    "cfg_attr".to_string(),
                    vec![
                        MetaItem::Word("unix".to_string()),
                        MetaItem::Word("companion".to_string()),
                    ],
                )),
            ],
            children: Vec::new(),
            span: sp(1),
        })])
    };
    let build_registry = || {
        let mut registry = Registry::new();
        registry
            .add_modifier("touch", Expander::AppendAttr(MetaItem::Word("touched".to_string())));
        registry.add_decorator("companion", Expander::Emit(vec![item("shadow", Vec::new())]));
        registry
    };

    // with the predicate enabled, the sibling stands after the item
    let mut enabled = build_registry();
    enabled.add_cfg(MetaItem::Word("unix".to_string()));
    let out = enabled.expand("test", build_input()).unwrap();
    assert_eq!(out.items.len(), 2);
    match &out.items[0] {
        Node::Elem(e) => {
            assert_eq!(e.ident.as_ref().unwrap().name, "S");
            assert_eq!(e.attrs.len(), 1);
            assert_eq!(e.attrs[0].meta, MetaItem::Word("touched".to_string()));
        },
        other => panic!("expected the originating item, got {:?}", other),
    }
    match &out.items[1] {
        Node::Elem(e) => assert_eq!(e.ident.as_ref().unwrap().name, "shadow"),
        other => panic!("expected the sibling, got {:?}", other),
    }

    // with the predicate off, the condition the sibling gained strips it
    let out = build_registry().expand("test", build_input()).unwrap();
    assert_eq!(out.items.len(), 1);
    match &out.items[0] {
        Node::Elem(e) => assert_eq!(e.ident.as_ref().unwrap().name, "S"),
        other => panic!("expected the originating item, got {:?}", other),
    }
}

// A derive list holding a malformed entry: the entry is reported and
// skipped, and the word entries are still gathered into the residual list.
#[test]
fn malformed_derive_entry_skipped_words_still_processed() {
    let mut cx = ExtCtxt::new(
        Resolver::new(),
        Vec::new(),
        ExpansionConfig::default("test".to_string()),
    );
    let derive_attr = attr(MetaItem::List(
        "derive".to_string(),
        vec![
            MetaItem::List("bad".to_string(), Vec::new()),
            MetaItem::Word("A".to_string()),
        ],
    ));
    let mut out_items: Vec<Node> = Vec::new();
    let mut new_attrs: Vec<syntex::ast::Attribute> = Vec::new();
    let (handled, _) = syntex::decorator::expand_2(
        &mut cx,
        item("S", Vec::new()),
        &derive_attr,
        &mut out_items,
        &mut new_attrs,
        8,
    )
    .unwrap();
    assert!(!handled);
    assert!(out_items.is_empty());
    assert_eq!(new_attrs.len(), 1);
    assert_eq!(
        new_attrs[0].meta,
        MetaItem::List("derive".to_string(), vec![MetaItem::Word("A".to_string())]),
    );
    assert_eq!(cx.diagnostics.len(), 1);
    assert!(matches!(cx.diagnostics[0].kind, DiagKind::MalformedDeriveEntry));
}
