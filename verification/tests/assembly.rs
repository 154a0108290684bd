use ui0::assembly::{collect_props, make_component_call, make_path_literal, Prop};
use ui0::ast::{Attribute, AttributeValue, Expr, Property};
use ui0::frame::{Binding, Template};
use ui0::markup::{join, Fragment};

fn ident(name: &str) -> Expr {
    Expr::Identifier(name.to_string())
}

#[test]
fn literal_string_gives_a_static_prop() {
    let a = Attribute { name: "title".to_string(), value: AttributeValue::Literal("Hi".to_string()) };
    assert_eq!(
        a.into_prop(),
        Some(Prop::Static { name: "title".to_string(), value: "Hi".to_string() })
    );
}

#[test]
fn any_other_value_gives_a_dynamic_prop() {
    let by_name =
        Attribute { name: "title".to_string(), value: AttributeValue::Expression(ident("t")) };
    assert_eq!(
        by_name.into_prop(),
        Some(Prop::Dynamic { name: "title".to_string(), expression: ident("t") })
    );
    let literal_in_braces = Attribute {
        name: "title".to_string(),
        value: AttributeValue::Expression(Expr::StringLiteral("Hi".to_string())),
    };
    assert_eq!(
        literal_in_braces.into_prop(),
        Some(Prop::Dynamic {
            name: "title".to_string(),
            expression: Expr::StringLiteral("Hi".to_string())
        })
    );
}

#[test]
fn attribute_without_value_is_set_to_true() {
    let a = Attribute { name: "disabled".to_string(), value: AttributeValue::Absent };
    assert_eq!(
        a.into_prop(),
        Some(Prop::Dynamic {
            name: "disabled".to_string(),
            expression: Expr::BooleanLiteral(true)
        })
    );
}

#[test]
fn spread_gives_no_prop() {
    let a = Attribute { name: String::new(), value: AttributeValue::Spread(ident("rest")) };
    assert_eq!(a.into_prop(), None);
    let attributes = vec![
        Attribute { name: "a".to_string(), value: AttributeValue::Literal("1".to_string()) },
        Attribute { name: String::new(), value: AttributeValue::Spread(ident("rest")) },
        Attribute { name: "b".to_string(), value: AttributeValue::Absent },
    ];
    assert_eq!(
        collect_props(attributes),
        vec![
            Prop::Static { name: "a".to_string(), value: "1".to_string() },
            Prop::Dynamic { name: "b".to_string(), expression: Expr::BooleanLiteral(true) },
        ]
    );
}

#[test]
fn props_keep_their_order() {
    let attributes = vec![
        Attribute { name: "b".to_string(), value: AttributeValue::Expression(ident("x")) },
        Attribute { name: "a".to_string(), value: AttributeValue::Literal("1".to_string()) },
    ];
    assert_eq!(
        collect_props(attributes),
        vec![
            Prop::Dynamic { name: "b".to_string(), expression: ident("x") },
            Prop::Static { name: "a".to_string(), value: "1".to_string() },
        ]
    );
    assert_eq!(collect_props(vec![]), vec![]);
}

#[test]
fn prop_names() {
    assert_eq!(Prop::Static { name: "a".to_string(), value: "1".to_string() }.name(), "a");
    assert_eq!(Prop::Dynamic { name: "b".to_string(), expression: ident("x") }.name(), "b");
}

#[test]
fn entry_is_quoted_unless_bare() {
    let p = Prop::Static { name: "k".to_string(), value: "v".to_string() };
    assert_eq!(
        p.into_entry_with(true),
        Property { key: "k".to_string(), quoted: false, value: Expr::StringLiteral("v".to_string()) }
    );
    let q = Prop::Dynamic { name: "k".to_string(), expression: ident("v") };
    assert_eq!(
        q.into_entry_with(false),
        Property { key: "k".to_string(), quoted: true, value: ident("v") }
    );
}

#[test]
fn keys_that_are_identifier_names_stand_bare() {
    for name in ["title", "_x", "$y", "a1", "onClick", "caf\u{e9}"] {
        let p = Prop::Static { name: name.to_string(), value: "v".to_string() };
        assert!(!p.into_entry().quoted, "{}", name);
    }
}

#[test]
fn keys_that_are_no_identifier_names_are_quoted() {
    for name in ["data-id", "aria-label", "1a", "a b", "", "a.b", "x:y"] {
        let p = Prop::Dynamic { name: name.to_string(), expression: ident("v") };
        assert!(p.into_entry().quoted, "{}", name);
    }
}

#[test]
fn component_call_passes_one_object() {
    let props = vec![
        Prop::Static { name: "title".to_string(), value: "Hi".to_string() },
        Prop::Dynamic { name: "on-click".to_string(), expression: ident("f") },
    ];
    assert_eq!(
        make_component_call("Foo", props),
        Expr::Call {
            callee: "Foo".to_string(),
            arguments: vec![Expr::Object(vec![
                Property {
                    key: "title".to_string(),
                    quoted: false,
                    value: Expr::StringLiteral("Hi".to_string())
                },
                Property { key: "on-click".to_string(), quoted: true, value: ident("f") },
            ])],
        }
    );
    assert_eq!(
        make_component_call("Foo", vec![]),
        Expr::Call { callee: "Foo".to_string(), arguments: vec![Expr::Object(vec![])] }
    );
}

#[test]
fn assembling_the_same_props_twice_gives_the_same_call() {
    let props = || {
        vec![
            Prop::Static { name: "a-b".to_string(), value: "1".to_string() },
            Prop::Dynamic { name: "c".to_string(), expression: ident("x") },
        ]
    };
    assert_eq!(make_component_call("Foo", props()), make_component_call("Foo", props()));
}

#[test]
fn path_literal_is_an_array_of_numbers() {
    assert_eq!(
        make_path_literal(&vec![1, 0, 12]),
        Expr::Array(vec![
            Expr::NumericLiteral(1),
            Expr::NumericLiteral(0),
            Expr::NumericLiteral(12)
        ])
    );
    assert_eq!(make_path_literal(&vec![]), Expr::Array(vec![]));
}

#[test]
fn insert_call_takes_path_and_value() {
    let b = Binding { path: vec![2, 1], value: ident("x") };
    assert_eq!(
        b.into_insert_call(),
        Expr::Call {
            callee: "$insert".to_string(),
            arguments: vec![
                Expr::Array(vec![Expr::NumericLiteral(2), Expr::NumericLiteral(1)]),
                ident("x")
            ],
        }
    );
}

#[test]
fn render_call_takes_markup_and_inserts() {
    let t = Template {
        markup: vec![
            Fragment::Open("p".to_string()),
            Fragment::Anchor,
            Fragment::Text(" & ".to_string()),
            Fragment::Anchor,
            Fragment::Close("p".to_string()),
        ],
        bindings: vec![
            Binding { path: vec![0], value: ident("a") },
            Binding { path: vec![2], value: ident("b") },
        ],
    };
    let Expr::Call { callee, arguments } = t.into_render_call() else { panic!("not a call") };
    assert_eq!(callee, "$render");
    assert_eq!(arguments.len(), 3);
    assert_eq!(arguments[0], Expr::StringLiteral("<p><!> & <!></p>".to_string()));
    assert_eq!(
        arguments[2],
        Expr::Call {
            callee: "$insert".to_string(),
            arguments: vec![Expr::Array(vec![Expr::NumericLiteral(2)]), ident("b")],
        }
    );
}

#[test]
fn fragments_as_markup() {
    assert_eq!(Fragment::Open("div".to_string()).render(), "<div>");
    assert_eq!(Fragment::Close("div".to_string()).render(), "</div>");
    assert_eq!(Fragment::Text("a < b".to_string()).render(), "a < b");
    assert_eq!(Fragment::Anchor.render(), "<!>");
    assert_eq!(join(&vec![]), "");
}
