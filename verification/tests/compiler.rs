use kryon::codegen::{generate_code, is_initial_property, lookup_constructor, resolve_component_type,
    to_snake_case, DeferredSlot, GenError};
use kryon::parser::{parse_component_block, Child, ParseErrorKind, Token};
use kryon::reactive::{analyze_reactive_expr, generate_reactive_binding, is_reactive_expr,
    transform_expr_for_reactive};
use kryon::ComponentType;

fn ident(s: &str) -> Token {
    Token::Ident(s.to_string())
}

fn strlit(s: &str) -> Token {
    Token::StrLit(s.to_string())
}

#[test]
fn test_to_snake_case() {
    assert_eq!(to_snake_case("Column"), "column");
    assert_eq!(to_snake_case("TabGroup"), "tab_group");
    assert_eq!(to_snake_case("Text"), "text");
}

#[test]
fn test_is_initial_content_property() {
    assert!(is_initial_property(&"content".to_string()));
    assert!(is_initial_property(&"text".to_string()));
    assert!(is_initial_property(&"title".to_string()));
    assert!(!is_initial_property(&"width".to_string()));
}

#[test]
fn test_detect_signal_get() {
    let expr = vec![ident("count"), Token::Punct('.'), ident("get"), Token::Punct('('),
        Token::Punct(')')];
    let info = analyze_reactive_expr(&expr);

    assert_eq!(info.signal_vars.len(), 1);
    assert_eq!(info.signal_vars[0], "count");
    assert!(info.has_get_calls);
}

#[test]
fn test_non_reactive_expr() {
    let expr = vec![strlit("Hello, World!")];
    let info = analyze_reactive_expr(&expr);

    assert!(info.signal_vars.is_empty());
    assert!(!info.has_get_calls);
}

#[test]
fn test_is_reactive() {
    let reactive = vec![ident("count"), Token::Punct('.'), ident("get"), Token::Punct('('),
        Token::Punct(')')];
    let non_reactive = vec![Token::IntLit(42)];

    assert!(is_reactive_expr(&reactive));
    assert!(!is_reactive_expr(&non_reactive));
}

#[test]
fn test_get_inside_macro_invocation_is_invisible() {
    // format!("Count: {}", count.get()): the read sits inside an
    // unexpanded macro invocation and the syntactic analysis cannot
    // see it.
    let expr = vec![ident("format"), Token::Punct('!'), Token::Punct('('),
        strlit("Count: {}"), Token::Punct(','), ident("count"), Token::Punct('.'),
        ident("get"), Token::Punct('('), Token::Punct(')'), Token::Punct(')')];
    let info = analyze_reactive_expr(&expr);
    assert!(info.signal_vars.is_empty());
    assert!(!info.has_get_calls);
    assert!(!is_reactive_expr(&expr));
}

#[test]
fn test_get_after_macro_invocation_is_seen() {
    // A read outside the macro group is still seen.
    let expr = vec![ident("pad"), Token::Punct('!'), Token::Punct('('), Token::Punct(')'),
        Token::Punct('+'), ident("count"), Token::Punct('.'), ident("get"),
        Token::Punct('('), Token::Punct(')')];
    let info = analyze_reactive_expr(&expr);
    assert_eq!(info.signal_vars, vec!["count".to_string()]);
    assert!(info.has_get_calls);
}

#[test]
fn test_field_access_receiver_is_not_recorded() {
    // foo.bar.get() reads reactive state, but the receiver is not a
    // bare variable, so no name is recorded.
    let expr = vec![ident("foo"), Token::Punct('.'), ident("bar"), Token::Punct('.'),
        ident("get"), Token::Punct('('), Token::Punct(')')];
    let info = analyze_reactive_expr(&expr);
    assert!(info.signal_vars.is_empty());
    assert!(info.has_get_calls);
}

#[test]
fn test_transform_rewrites_get_calls() {
    let expr = vec![ident("count"), Token::Punct('.'), ident("get"), Token::Punct('('),
        Token::Punct(')'), Token::Punct('+'), Token::IntLit(1)];
    let out = transform_expr_for_reactive(&expr, &"count".to_string());
    assert_eq!(out.len(), 3);
    match &out[0] {
        Token::Ident(s) => assert_eq!(s, "count_value"),
        _ => panic!("expected identifier"),
    }
}

#[test]
fn test_binding_wraps_first_dependency() {
    let expr = vec![ident("count"), Token::Punct('.'), ident("get"), Token::Punct('('),
        Token::Punct(')')];
    let info = analyze_reactive_expr(&expr);
    let binding = generate_reactive_binding(&expr, &info).unwrap();
    match &binding[0] {
        Token::Punct(c) => assert_eq!(*c, '|'),
        _ => panic!("expected closure bar"),
    }
    match &binding[1] {
        Token::Ident(s) => assert_eq!(s, "count_value"),
        _ => panic!("expected parameter name"),
    }
}

#[test]
fn test_parse_simple_block() {
    let toks = vec![ident("Column"), Token::Punct('{'), ident("width"), Token::Punct(':'),
        strlit("100%"), Token::Punct(','), Token::Punct('}')];
    let block = parse_component_block(&toks).unwrap();
    assert_eq!(block.component_type, "Column");
    assert_eq!(block.properties.len(), 1);
    assert_eq!(block.properties[0].name, "width");
    assert!(block.children.is_empty());
}

#[test]
fn test_parse_nested_block_and_expr_child() {
    let toks = vec![
        ident("Column"), Token::Punct('{'),
        ident("Text"), Token::Punct('{'), ident("content"), Token::Punct(':'), strlit("Hi"),
        Token::Punct('}'), Token::Punct(','),
        ident("make_footer"), Token::Punct('('), Token::Punct(')'),
        Token::Punct('}'),
    ];
    let block = parse_component_block(&toks).unwrap();
    assert_eq!(block.children.len(), 2);
    match &block.children[0] {
        Child::Component(b) => assert_eq!(b.component_type, "Text"),
        _ => panic!("expected nested block"),
    }
    match &block.children[1] {
        Child::Expr(ts) => assert_eq!(ts.len(), 3),
        _ => panic!("expected expression child"),
    }
}

#[test]
fn test_parse_rejects_trailing_tokens() {
    let toks = vec![ident("Row"), Token::Punct('{'), Token::Punct('}'), ident("extra")];
    let err = parse_component_block(&toks).unwrap_err();
    assert_eq!(err.kind, ParseErrorKind::TrailingTokens);
    assert_eq!(err.pos, 3);
}

#[test]
fn test_parse_rejects_missing_brace() {
    let toks = vec![ident("Row"), ident("oops")];
    let err = parse_component_block(&toks).unwrap_err();
    assert_eq!(err.kind, ParseErrorKind::ExpectedBrace);
}

#[test]
fn test_generate_simple_scenario() {
    // Column { width: "100%", gap: 20 } with one child Text { content: "Hi" }.
    let toks = vec![
        ident("Column"), Token::Punct('{'),
        ident("width"), Token::Punct(':'), strlit("100%"), Token::Punct(','),
        ident("gap"), Token::Punct(':'), Token::IntLit(20), Token::Punct(','),
        ident("Text"), Token::Punct('{'),
        ident("content"), Token::Punct(':'), strlit("Hi"),
        Token::Punct('}'), Token::Punct(','),
        Token::Punct('}'),
    ];
    let block = parse_component_block(&toks).unwrap();
    let out = generate_code(block).unwrap();
    let doc = &out.document;
    assert!(out.deferred.is_empty());
    assert_eq!(doc.root.component_type, ComponentType::Column);
    assert_eq!(doc.root.width.as_deref(), Some("100%"));
    assert_eq!(doc.root.gap, Some(20));
    assert_eq!(doc.root.children.len(), 1);
    let child = &doc.root.children[0];
    assert_eq!(child.component_type, ComponentType::Text);
    assert_eq!(child.content.as_deref(), Some("Hi"));
    assert_eq!(doc.root.id, 1);
    assert_eq!(child.id, 2);
}

#[test]
fn test_tab_group_resolves_through_normalization() {
    // "TabGroup" has no explicit table entry: it resolves through
    // casing normalization to the same constructor as the canonical
    // name "tab_group".
    let by_fallback = resolve_component_type(&"TabGroup".to_string());
    let by_table = lookup_constructor(&"tab_group".to_string());
    assert_eq!(by_fallback, Some(ComponentType::TabGroup));
    assert_eq!(by_fallback, by_table);
}

#[test]
fn test_app_aliases_container() {
    assert_eq!(resolve_component_type(&"App".to_string()), Some(ComponentType::Container));
}

#[test]
fn test_generate_rejects_unresolved_name() {
    let toks = vec![ident("Widget"), Token::Punct('{'), Token::Punct('}')];
    let block = parse_component_block(&toks).unwrap();
    match generate_code(block) {
        Err(GenError::UnresolvedComponent(name)) => assert_eq!(name, "Widget"),
        _ => panic!("expected an unresolved component error"),
    }
}

#[test]
fn test_generate_rejects_unknown_property() {
    let toks = vec![ident("Row"), Token::Punct('{'), ident("sparkle"), Token::Punct(':'),
        Token::IntLit(1), Token::Punct('}')];
    let block = parse_component_block(&toks).unwrap();
    match generate_code(block) {
        Err(GenError::UnknownProperty(name)) => assert_eq!(name, "sparkle"),
        _ => panic!("expected an unknown property error"),
    }
}

#[test]
fn test_expression_child_is_deferred_verbatim() {
    let toks = vec![ident("Row"), Token::Punct('{'), ident("footer"), Token::Punct('('),
        Token::Punct(')'), Token::Punct('}')];
    let block = parse_component_block(&toks).unwrap();
    let out = generate_code(block).unwrap();
    assert!(out.document.root.children.is_empty());
    assert_eq!(out.deferred.len(), 1);
    match &out.deferred[0] {
        DeferredSlot::Child { parent_id, index, expr } => {
            assert_eq!(*parent_id, 1);
            assert_eq!(*index, 0);
            assert_eq!(expr.len(), 3);
        },
        _ => panic!("expected a deferred child slot"),
    }
}

#[test]
fn test_opaque_property_value_is_deferred_verbatim() {
    // width: make_width() is forwarded unchanged for the host to
    // evaluate; nothing is set on the component now.
    let toks = vec![ident("Column"), Token::Punct('{'), ident("width"), Token::Punct(':'),
        ident("make_width"), Token::Punct('('), Token::Punct(')'), Token::Punct('}')];
    let block = parse_component_block(&toks).unwrap();
    let out = generate_code(block).unwrap();
    assert_eq!(out.document.root.width, None);
    assert_eq!(out.deferred.len(), 1);
    match &out.deferred[0] {
        DeferredSlot::Property { component_id, name, value } => {
            assert_eq!(*component_id, 1);
            assert_eq!(name, "width");
            assert_eq!(value.len(), 3);
        },
        _ => panic!("expected a deferred property slot"),
    }
}

#[test]
fn test_reactive_text_content_is_deferred() {
    // Text { content: count.get() }: the constructor's initial
    // argument is opaque, so the content field becomes a deferred slot.
    let toks = vec![ident("Text"), Token::Punct('{'), ident("content"), Token::Punct(':'),
        ident("count"), Token::Punct('.'), ident("get"), Token::Punct('('), Token::Punct(')'),
        Token::Punct('}')];
    let block = parse_component_block(&toks).unwrap();
    let out = generate_code(block).unwrap();
    assert_eq!(out.document.root.content, None);
    assert_eq!(out.deferred.len(), 1);
    match &out.deferred[0] {
        DeferredSlot::Property { component_id, name, value } => {
            assert_eq!(*component_id, 1);
            assert_eq!(name, "content");
            assert_eq!(value.len(), 5);
        },
        _ => panic!("expected a deferred property slot"),
    }
}

#[test]
fn test_generate_requires_text_content() {
    let toks = vec![ident("Text"), Token::Punct('{'), Token::Punct('}')];
    let block = parse_component_block(&toks).unwrap();
    match generate_code(block) {
        Err(GenError::MissingInitialContent) => {},
        _ => panic!("expected a missing initial content error"),
    }
}

#[test]
fn test_generate_button_text_is_initial_argument() {
    let toks = vec![ident("Button"), Token::Punct('{'), ident("text"), Token::Punct(':'),
        strlit("Click me"), Token::Punct('}')];
    let block = parse_component_block(&toks).unwrap();
    let out = generate_code(block).unwrap();
    assert!(out.deferred.is_empty());
    assert_eq!(out.document.root.component_type, ComponentType::Button);
    assert_eq!(out.document.root.text.as_deref(), Some("Click me"));
    assert_eq!(out.document.root.content, None);
}
