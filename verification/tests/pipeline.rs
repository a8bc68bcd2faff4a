use widget_codegen::tokens::Token;
use widget_codegen::ast::WidgetNode;
use widget_codegen::errors::CompileError;
use widget_codegen::parser::parse;
use widget_codegen::analyzer::extract_idents;
use widget_codegen::depmap::{DepMap, DepRecord, get_properties_model_map};
use widget_codegen::synth::Stmt;
use widget_codegen::gen::Instr;
use widget_codegen::orchestrator::{Accessor, Item};
use widget_codegen::widget;

fn id(s: &str) -> Token {
    Token::Ident(s.to_string())
}

fn lit(s: &str) -> Token {
    Token::Lit(s.to_string())
}

/// `Window { Box { Label { text: model.value, }, }, }`
fn window_box_label() -> Vec<Token> {
    vec![
        id("Window"),
        Token::LBrace,
        id("Box"),
        Token::LBrace,
        id("Label"),
        Token::LBrace,
        id("text"),
        Token::Colon,
        id("model"),
        Token::Dot,
        id("value"),
        Token::Comma,
        Token::RBrace,
        Token::Comma,
        Token::RBrace,
        Token::Comma,
        Token::RBrace,
    ]
}

fn model_item() -> Item {
    Item::Model { ret: vec!["Model".to_string()], body: vec![id("initial")] }
}

#[test]
fn scenario_assignment_triggers_dependent_update() {
    // DSL = Window { Box { Label { text: model.value } } }; the transition
    // routine assigns 5 to model.value: the synthesized routine must set the
    // label's text from model.value immediately after the assignment.
    let items = vec![
        Item::View { tokens: window_box_label() },
        model_item(),
        Item::Update {
            stmts: vec![Stmt::Assign { field: "value".to_string(), value: vec![lit("5")] }],
        },
    ];
    let out = widget(items).unwrap();
    assert_eq!(
        out.update,
        vec![
            Stmt::Assign { field: "value".to_string(), value: vec![lit("5")] },
            Stmt::Update {
                widget: "widget2".to_string(),
                property: "text".to_string(),
                expr: vec![id("model"), Token::Dot, id("value")],
            },
        ]
    );
}

#[test]
fn construction_is_preorder_with_properties_and_attachments() {
    let items = vec![
        Item::View { tokens: window_box_label() },
        model_item(),
        Item::Update { stmts: vec![] },
    ];
    let out = widget(items).unwrap();
    assert_eq!(
        out.construction,
        vec![
            Instr::Create { name: "widget0".to_string(), typ: vec!["Window".to_string()] },
            Instr::Create { name: "widget1".to_string(), typ: vec!["Box".to_string()] },
            Instr::Attach { child: "widget1".to_string(), parent: "widget0".to_string() },
            Instr::Create { name: "widget2".to_string(), typ: vec!["Label".to_string()] },
            Instr::SetProp {
                widget: "widget2".to_string(),
                property: "text".to_string(),
                expr: vec![id("model"), Token::Dot, id("value")],
            },
            Instr::Attach { child: "widget2".to_string(), parent: "widget1".to_string() },
        ]
    );
    assert_eq!(out.root, "widget0".to_string());
    assert_eq!(out.container_type, vec!["Window".to_string()]);
    assert_eq!(out.model_type, vec!["Model".to_string()]);
    assert_eq!(out.container_accessor, Accessor::RootRef { root: "widget0".to_string() });
    assert_eq!(out.passthrough, vec![model_item()]);
}

#[test]
fn scenario_disjoint_fields_update_independently() {
    // One widget, two properties bound to disjoint fields a and b: an
    // assignment to a inserts only the a-dependent update.
    let tokens = vec![
        id("Window"),
        Token::Pound,
        Token::LBracket,
        id("name"),
        Token::Eq,
        lit("win"),
        Token::RBracket,
        Token::LBrace,
        id("ta"),
        Token::Colon,
        id("a"),
        Token::Comma,
        id("tb"),
        Token::Colon,
        id("b"),
        Token::Comma,
        Token::RBrace,
    ];
    let items = vec![
        Item::View { tokens },
        model_item(),
        Item::Update {
            stmts: vec![Stmt::Assign { field: "a".to_string(), value: vec![lit("1")] }],
        },
    ];
    let out = widget(items).unwrap();
    assert_eq!(
        out.update,
        vec![
            Stmt::Assign { field: "a".to_string(), value: vec![lit("1")] },
            Stmt::Update {
                widget: "win".to_string(),
                property: "ta".to_string(),
                expr: vec![id("a")],
            },
        ]
    );
    assert_eq!(out.root, "win".to_string());
}

#[test]
fn assignment_to_untracked_field_passes_through_unmodified() {
    let items = vec![
        Item::View { tokens: window_box_label() },
        model_item(),
        Item::Update {
            stmts: vec![
                Stmt::Assign { field: "untracked".to_string(), value: vec![lit("1")] },
                Stmt::Other { tokens: vec![id("done")] },
            ],
        },
    ];
    let out = widget(items).unwrap();
    assert_eq!(
        out.update,
        vec![
            Stmt::Assign { field: "untracked".to_string(), value: vec![lit("1")] },
            Stmt::Other { tokens: vec![id("done")] },
        ]
    );
}

#[test]
fn scenario_missing_closing_brace_is_parse_error() {
    let mut tokens = window_box_label();
    tokens.pop();
    let items = vec![
        Item::View { tokens: tokens.clone() },
        model_item(),
        Item::Update { stmts: vec![] },
    ];
    assert_eq!(widget(items), Err(CompileError::ParseError));
    assert_eq!(parse(&tokens), Err(CompileError::ParseError));
}

#[test]
fn scenario_duplicate_view_is_codegen_precondition() {
    let items = vec![
        Item::View { tokens: window_box_label() },
        Item::View { tokens: window_box_label() },
        model_item(),
        Item::Update { stmts: vec![] },
    ];
    assert_eq!(widget(items), Err(CompileError::CodegenPrecondition));
}

#[test]
fn missing_view_is_codegen_precondition() {
    let items = vec![model_item(), Item::Update { stmts: vec![] }];
    assert_eq!(widget(items), Err(CompileError::CodegenPrecondition));
}

#[test]
fn missing_update_is_codegen_precondition() {
    let items = vec![Item::View { tokens: window_box_label() }, model_item()];
    assert_eq!(widget(items), Err(CompileError::CodegenPrecondition));
}

#[test]
fn duplicate_update_is_codegen_precondition() {
    let items = vec![
        Item::View { tokens: window_box_label() },
        model_item(),
        Item::Update { stmts: vec![] },
        Item::Update { stmts: vec![] },
    ];
    assert_eq!(widget(items), Err(CompileError::CodegenPrecondition));
}

#[test]
fn unresolvable_model_type_is_codegen_precondition() {
    // No explicit Model type and no model constructor to take it from.
    let items = vec![Item::View { tokens: window_box_label() }, Item::Update { stmts: vec![] }];
    assert_eq!(widget(items), Err(CompileError::CodegenPrecondition));
}

#[test]
fn unrecognized_member_is_unsupported_construct() {
    let items = vec![
        Item::View { tokens: window_box_label() },
        model_item(),
        Item::Update { stmts: vec![] },
        Item::Auxiliary { name: "frobnicate".to_string(), body: vec![] },
    ];
    assert_eq!(widget(items), Err(CompileError::UnsupportedConstruct));
}

#[test]
fn recognized_auxiliaries_pass_through() {
    let items = vec![
        Item::View { tokens: window_box_label() },
        model_item(),
        Item::Update { stmts: vec![] },
        Item::Auxiliary { name: "subscriptions".to_string(), body: vec![id("sub")] },
        Item::Auxiliary { name: "update_command".to_string(), body: vec![id("cmd")] },
    ];
    let out = widget(items).unwrap();
    assert_eq!(
        out.passthrough,
        vec![
            model_item(),
            Item::Auxiliary { name: "subscriptions".to_string(), body: vec![id("sub")] },
            Item::Auxiliary { name: "update_command".to_string(), body: vec![id("cmd")] },
        ]
    );
}

#[test]
fn explicit_types_and_container_override_defaults() {
    let items = vec![
        Item::View { tokens: window_box_label() },
        model_item(),
        Item::Update { stmts: vec![] },
        Item::ModelType { typ: vec!["MyModel".to_string()] },
        Item::ContainerType { typ: vec!["gtk".to_string(), "Window".to_string()] },
        Item::Container { body: vec![id("custom")] },
    ];
    let out = widget(items).unwrap();
    assert_eq!(out.model_type, vec!["MyModel".to_string()]);
    assert_eq!(out.container_type, vec!["gtk".to_string(), "Window".to_string()]);
    assert_eq!(out.container_accessor, Accessor::UserDefined { body: vec![id("custom")] });
}

#[test]
fn parse_recovers_declared_structure() {
    // Structural fidelity on a concrete tree: node count, types, names,
    // and property counts all come back from the declared structure.
    let tree = parse(&window_box_label()).unwrap();
    assert_eq!(tree.typ, vec!["Window".to_string()]);
    assert_eq!(tree.name, None);
    assert_eq!(tree.properties.len(), 0);
    assert_eq!(tree.children.len(), 1);
    let boxn = &tree.children[0];
    assert_eq!(boxn.typ, vec!["Box".to_string()]);
    assert_eq!(boxn.children.len(), 1);
    let label = &boxn.children[0];
    assert_eq!(label.typ, vec!["Label".to_string()]);
    assert_eq!(label.children.len(), 0);
    assert_eq!(label.properties.len(), 1);
    assert_eq!(label.properties[0].name, "text".to_string());
    assert_eq!(label.properties[0].expr, vec![id("model"), Token::Dot, id("value")]);
}

#[test]
fn parse_event_binding_and_qualified_path() {
    // gtk::Window #[name="w"] { clicked(x) => (Quit, Inhibit), }
    let tokens = vec![
        id("gtk"),
        Token::PathSep,
        id("Window"),
        Token::Pound,
        Token::LBracket,
        id("name"),
        Token::Eq,
        lit("w"),
        Token::RBracket,
        Token::LBrace,
        id("clicked"),
        Token::LParen,
        id("x"),
        Token::RParen,
        Token::FatArrow,
        Token::LParen,
        id("Quit"),
        Token::Comma,
        id("Inhibit"),
        Token::RParen,
        Token::Comma,
        Token::RBrace,
    ];
    let tree = parse(&tokens).unwrap();
    assert_eq!(tree.typ, vec!["gtk".to_string(), "Window".to_string()]);
    assert_eq!(tree.name, Some("w".to_string()));
    assert_eq!(tree.events.len(), 1);
    assert_eq!(tree.events[0].event_name, "clicked".to_string());
    assert_eq!(tree.events[0].handler_args, vec!["x".to_string()]);
    assert_eq!(tree.events[0].produced_message_expr, vec![id("Quit")]);
    assert_eq!(tree.events[0].result_flags, vec![id("Inhibit")]);
    // The binding is emitted after the whole construction.
    let items = vec![
        Item::View { tokens },
        model_item(),
        Item::Update { stmts: vec![] },
    ];
    let out = widget(items).unwrap();
    assert_eq!(
        out.construction,
        vec![
            Instr::Create {
                name: "w".to_string(),
                typ: vec!["gtk".to_string(), "Window".to_string()],
            },
            Instr::BindEvent {
                widget: "w".to_string(),
                event: "clicked".to_string(),
                args: vec!["x".to_string()],
                msg: vec![id("Quit")],
                result: vec![id("Inhibit")],
            },
        ]
    );
}

#[test]
fn entry_matching_no_form_is_parse_error() {
    // `Window { : , }` — an entry that is no property, node or event.
    let tokens = vec![id("Window"), Token::LBrace, Token::Colon, Token::Comma, Token::RBrace];
    assert_eq!(parse(&tokens), Err(CompileError::ParseError));
}

#[test]
fn missing_type_path_is_parse_error() {
    let tokens = vec![Token::LBrace, Token::RBrace];
    assert_eq!(parse(&tokens), Err(CompileError::ParseError));
}

#[test]
fn analyzer_collects_each_identifier_once_in_order() {
    let expr = vec![id("model"), Token::Dot, id("value"), Token::Op('+'), id("model"),
        Token::Dot, id("count")];
    let ids = extract_idents(&expr).unwrap();
    assert_eq!(ids, vec!["model".to_string(), "value".to_string(), "count".to_string()]);
}

#[test]
fn analyzer_rejects_invalid_expression() {
    assert_eq!(extract_idents(&vec![]), Err(CompileError::ExpressionAnalysisError));
    assert_eq!(
        extract_idents(&vec![id("f"), Token::LParen, id("x")]),
        Err(CompileError::ExpressionAnalysisError)
    );
}

#[test]
fn map_builder_rejects_invalid_property_expression() {
    let node = WidgetNode {
        name: Some("w".to_string()),
        typ: vec!["Window".to_string()],
        properties: vec![widget_codegen::ast::Property {
            name: "text".to_string(),
            expr: vec![Token::LParen],
        }],
        children: vec![],
        events: vec![],
    };
    let mut map = DepMap::new();
    assert_eq!(
        get_properties_model_map(&node, &mut map),
        Err(CompileError::ExpressionAnalysisError)
    );
}

#[test]
fn duplicate_records_collapse_in_the_map() {
    let rec = || DepRecord {
        widget_path: "w".to_string(),
        property_name: "text".to_string(),
        expression_text: vec![id("a")],
    };
    let mut map = DepMap::new();
    map.insert(&"a".to_string(), rec());
    map.insert(&"a".to_string(), rec());
    let got = map.get(&"a".to_string()).unwrap();
    assert_eq!(got, vec![rec()]);
    assert_eq!(map.get(&"b".to_string()), None);
}

#[test]
fn generated_names_count_upward_per_invocation() {
    // Two anonymous siblings after an anonymous root: widget0, widget1, widget2.
    let tokens = vec![
        id("Window"),
        Token::LBrace,
        id("Box"),
        Token::LBrace,
        Token::RBrace,
        Token::Comma,
        id("Label"),
        Token::LBrace,
        Token::RBrace,
        Token::Comma,
        Token::RBrace,
    ];
    let items = vec![
        Item::View { tokens },
        model_item(),
        Item::Update { stmts: vec![] },
    ];
    let out = widget(items).unwrap();
    assert_eq!(
        out.construction,
        vec![
            Instr::Create { name: "widget0".to_string(), typ: vec!["Window".to_string()] },
            Instr::Create { name: "widget1".to_string(), typ: vec!["Box".to_string()] },
            Instr::Attach { child: "widget1".to_string(), parent: "widget0".to_string() },
            Instr::Create { name: "widget2".to_string(), typ: vec!["Label".to_string()] },
            Instr::Attach { child: "widget2".to_string(), parent: "widget0".to_string() },
        ]
    );
}

#[test]
fn printing_then_parsing_returns_the_same_tree() {
    let tokens = vec![
        id("gtk"),
        Token::PathSep,
        id("Window"),
        Token::Pound,
        Token::LBracket,
        id("name"),
        Token::Eq,
        lit("w"),
        Token::RBracket,
        Token::LBrace,
        id("title"),
        Token::Colon,
        id("model"),
        Token::Dot,
        id("text"),
        Token::Comma,
        id("Box"),
        Token::LBrace,
        Token::RBrace,
        Token::Comma,
        id("clicked"),
        Token::LParen,
        id("x"),
        Token::Comma,
        id("y"),
        Token::RParen,
        Token::FatArrow,
        Token::LParen,
        id("Quit"),
        Token::Comma,
        id("Inhibit"),
        Token::RParen,
        Token::Comma,
        Token::RBrace,
    ];
    let tree = parse(&tokens).unwrap();
    let printed = widget_codegen::printer::print(&tree);
    assert_eq!(printed, tokens);
    let again = parse(&printed).unwrap();
    assert_eq!(again, tree);
}
