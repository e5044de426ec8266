use trywin::source_model::{
    get_functions, get_ws_arg, get_ws_type, item_from_stmt, method_chain, ws_function, Arg, Item,
    MExpr, MFn, MGeneric, MInput, MStmt, MWherePred, Method, MethodType, Position, Span,
};

fn pos(line: usize, column: usize) -> Position {
    Position { line, column }
}

fn span(a: usize, b: usize) -> Span {
    Span { start: pos(a, 0), end: pos(b, 0) }
}

fn call(receiver: MExpr, name: &str, line: usize) -> MExpr {
    MExpr::MethodCall {
        receiver: Box::new(receiver),
        dot: pos(line, 10),
        name: name.to_string(),
        blocked: false,
        paren_end: pos(line, 20),
        args: vec![],
    }
}

fn ident(name: &str) -> MExpr {
    MExpr::Ident { name: name.to_string() }
}

#[test]
fn method_types_follow_name_prefixes() {
    assert_eq!(MethodType::from_ident("new_child"), MethodType::Create);
    assert_eq!(MethodType::from_ident("new_"), MethodType::Create);
    assert_eq!(MethodType::from_ident("on_close"), MethodType::Event);
    assert_eq!(MethodType::from_ident("on_"), MethodType::Event);
    assert_eq!(MethodType::from_ident("newt"), MethodType::Attr);
    assert_eq!(MethodType::from_ident("once"), MethodType::Attr);
    assert_eq!(MethodType::from_ident("text"), MethodType::Attr);
    assert_eq!(MethodType::from_ident(""), MethodType::Attr);
    assert_eq!(MethodType::from_ident("new"), MethodType::Attr);
    assert_eq!(MethodType::from_ident("on"), MethodType::Attr);
}

#[test]
fn chains_walk_down_to_the_base_identifier() {
    let e = call(call(ident("window"), "new_child", 1), "text", 2);
    let (base, ms) = method_chain(e).unwrap();
    assert_eq!(base, "window");
    assert_eq!(ms.len(), 2);
    assert_eq!(ms[0].name, "new_child");
    assert_eq!(ms[1].name, "text");
    // a method span runs from its dot to its closing parenthesis
    assert_eq!(ms[0].span, Span { start: pos(1, 10), end: pos(1, 20) });
}

#[test]
fn blocked_or_opaque_chains_yield_nothing() {
    let mut blocked = call(ident("w"), "text", 1);
    if let MExpr::MethodCall { ref mut blocked, .. } = blocked {
        *blocked = true;
    }
    assert!(method_chain(blocked).is_none());
    assert!(method_chain(MExpr::Opaque).is_none());
    assert!(method_chain(call(MExpr::Opaque, "text", 1)).is_none());
}

#[test]
fn statements_classify_into_items() {
    // let x = parent.new_child().text();  ->  a definition
    let def = MStmt::Local {
        span: span(1, 1),
        ident: Some("x".to_string()),
        init: Some(call(call(ident("parent"), "new_child", 1), "text", 1)),
    };
    match item_from_stmt(def).unwrap() {
        Item::Definition(d) => {
            assert_eq!(d.name, "x");
            assert_eq!(d.parent, "parent");
            assert_eq!(d.create.name, "new_child");
            assert_eq!(d.methods.len(), 1);
            assert_eq!(d.methods[0].name, "text");
        }
        other => panic!("expected a definition, got {:?}", other),
    }

    // let x = x.text();  ->  a redefinition
    let redef = MStmt::Local {
        span: span(2, 2),
        ident: Some("x".to_string()),
        init: Some(call(ident("x"), "text", 2)),
    };
    match item_from_stmt(redef).unwrap() {
        Item::Redefinition(d) => {
            assert_eq!(d.name, "x");
            assert_eq!(d.methods.len(), 1);
        }
        other => panic!("expected a redefinition, got {:?}", other),
    }

    // x.on_close();  ->  a use
    let used = MStmt::Expr { span: span(3, 3), expr: call(ident("x"), "on_close", 3) };
    match item_from_stmt(used).unwrap() {
        Item::Use(d) => {
            assert_eq!(d.name, "x");
            assert_eq!(d.methods[0].name, "on_close");
        }
        other => panic!("expected a use, got {:?}", other),
    }

    // let x = x.new_child(); matches neither rule
    let neither = MStmt::Local {
        span: span(4, 4),
        ident: Some("x".to_string()),
        init: Some(call(ident("x"), "new_child", 4)),
    };
    assert!(item_from_stmt(neither).is_none());
    // let x = parent.text(); starts on another identifier without creating
    let neither2 = MStmt::Local {
        span: span(5, 5),
        ident: Some("x".to_string()),
        init: Some(call(ident("parent"), "text", 5)),
    };
    assert!(item_from_stmt(neither2).is_none());
    // a bare identifier is no chain
    let bare = MStmt::Expr { span: span(6, 6), expr: ident("x") };
    assert!(item_from_stmt(bare).is_none());
    assert!(item_from_stmt(MStmt::Opaque).is_none());
}

fn demo_fn() -> MFn {
    MFn {
        name: "make".to_string(),
        sig_start: pos(1, 0),
        block_end: pos(9, 1),
        generics: vec![MGeneric { ident: "WS".to_string(), has_ws_bound: true }],
        where_preds: vec![],
        inputs: vec![MInput {
            pat_ident: Some("ws".to_string()),
            ty_ident: Some("WS".to_string()),
        }],
        stmts: vec![
            MStmt::Local {
                span: span(2, 2),
                ident: Some("window".to_string()),
                init: Some(call(call(ident("ws"), "new_main", 2), "text", 2)),
            },
            MStmt::Expr { span: span(3, 3), expr: call(ident("window"), "on_close", 3) },
        ],
    }
}

#[test]
fn ws_type_prefers_generics_then_where_clause() {
    let f = demo_fn();
    assert_eq!(get_ws_type(&f).unwrap(), "WS");
    let mut g = demo_fn();
    g.generics[0].has_ws_bound = false;
    g.where_preds =
        vec![MWherePred { ident: Some("WS2".to_string()), has_ws_bound: true }];
    assert_eq!(get_ws_type(&g).unwrap(), "WS2");
    g.where_preds[0].has_ws_bound = false;
    assert!(get_ws_type(&g).is_none());
}

#[test]
fn ws_arg_finds_the_first_input_of_that_type() {
    let f = demo_fn();
    assert_eq!(get_ws_arg(&f, &"WS".to_string()).unwrap(), "ws");
    assert!(get_ws_arg(&f, &"Other".to_string()).is_none());
}

#[test]
fn ws_function_extracts_items_in_source_order() {
    let g = ws_function(demo_fn()).unwrap();
    assert_eq!(g.name, "make");
    assert_eq!(g.span, Span { start: pos(1, 0), end: pos(9, 1) });
    assert_eq!(g.items.len(), 2);
    assert!(matches!(g.items[0], Item::Definition(_)));
    assert!(matches!(g.items[1], Item::Use(_)));
}

#[test]
fn get_functions_keeps_only_window_system_functions() {
    let plain = MFn {
        name: "other".to_string(),
        sig_start: pos(1, 0),
        block_end: pos(2, 0),
        generics: vec![],
        where_preds: vec![],
        inputs: vec![],
        stmts: vec![],
    };
    let out = get_functions(vec![plain, demo_fn()]);
    assert_eq!(out.len(), 1);
    assert_eq!(out[0].name, "make");
}

#[test]
fn args_carry_span_and_text() {
    let a = Arg { span: span(7, 7), value: "Color(1, 2, 3, 4)".to_string() };
    let m = Method { span: span(7, 7), name: "background".to_string(), args: vec![a] };
    assert_eq!(m.args[0].value, "Color(1, 2, 3, 4)");
}
