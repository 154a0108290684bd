use ui0::ast::{Attribute, AttributeValue, Element, ElementName, Expr, JsxChild, NodeKind, Property};
use ui0::frame::{Binding, Frame};
use ui0::lowering::{get_element_name_and_type, is_supported, LowerError, Lowering, Visited};
use ui0::markup::{join, Fragment};

fn host(name: &str, children: Vec<JsxChild>) -> Element {
    Element { name: ElementName::Identifier(name.to_string()), attributes: vec![], children }
}

fn component(name: &str, attributes: Vec<Attribute>, children: Vec<JsxChild>) -> Element {
    Element { name: ElementName::IdentifierReference(name.to_string()), attributes, children }
}

fn text(t: &str) -> JsxChild {
    JsxChild::Text(t.to_string())
}

fn ident(name: &str) -> Expr {
    Expr::Identifier(name.to_string())
}

fn hole(name: &str) -> JsxChild {
    JsxChild::Expression(ident(name))
}

fn string(value: &str) -> Expr {
    Expr::StringLiteral(value.to_string())
}

fn call(callee: &str, arguments: Vec<Expr>) -> Expr {
    Expr::Call { callee: callee.to_string(), arguments }
}

fn path(steps: &[usize]) -> Expr {
    Expr::Array(steps.iter().map(|s| Expr::NumericLiteral(*s)).collect())
}

fn insert(steps: &[usize], value: Expr) -> Expr {
    call("$insert", vec![path(steps), value])
}

fn render(markup: &str, inserts: Vec<Expr>) -> Expr {
    let mut arguments = vec![string(markup)];
    arguments.extend(inserts);
    call("$render", arguments)
}

fn lower(e: Expr) -> Result<Expr, LowerError> {
    let mut walk = Lowering::new();
    let out = walk.lower(e);
    assert_eq!(walk.open_frames(), 0);
    out
}

fn paths_of(call: &Expr) -> Vec<Vec<usize>> {
    let Expr::Call { arguments, .. } = call else { panic!("not a call") };
    let mut out = Vec::new();
    for argument in &arguments[1..] {
        let Expr::Call { callee, arguments } = argument else { panic!("not a call") };
        assert_eq!(callee, "$insert");
        let Expr::Array(steps) = &arguments[0] else { panic!("not a path") };
        let mut path = Vec::new();
        for step in steps {
            let Expr::NumericLiteral(n) = step else { panic!("not a number") };
            path.push(*n);
        }
        out.push(path);
    }
    out
}

fn markup_of(call: &Expr) -> String {
    let Expr::Call { arguments, .. } = call else { panic!("not a call") };
    let Expr::StringLiteral(markup) = &arguments[0] else { panic!("not a string") };
    markup.clone()
}

#[test]
fn simple_host_element() {
    let out = lower(Expr::Element(host("div", vec![text("Hello")])));
    assert_eq!(out, Ok(render("<div>Hello</div>", vec![])));
}

#[test]
fn single_dynamic_child() {
    let out = lower(Expr::Element(host("span", vec![hole("x")])));
    assert_eq!(out, Ok(render("<span><!></span>", vec![insert(&[0], ident("x"))])));
}

#[test]
fn nested_component() {
    let out = lower(Expr::Element(host(
        "div",
        vec![JsxChild::Element(component("Foo", vec![], vec![]))],
    )));
    let foo = call("Foo", vec![Expr::Object(vec![])]);
    assert_eq!(out, Ok(render("<div><!></div>", vec![insert(&[0], foo)])));
}

#[test]
fn two_adjacent_dynamic_siblings() {
    let out = lower(Expr::Element(host("p", vec![hole("a"), hole("b")])));
    assert_eq!(
        out,
        Ok(render("<p><!><!></p>", vec![insert(&[0], ident("a")), insert(&[1], ident("b"))]))
    );
}

#[test]
fn component_followed_by_expression() {
    let out = lower(Expr::Element(host(
        "p",
        vec![JsxChild::Element(component("Foo", vec![], vec![])), hole("b")],
    )));
    let foo = call("Foo", vec![Expr::Object(vec![])]);
    assert_eq!(
        out,
        Ok(render("<p><!><!></p>", vec![insert(&[0], foo), insert(&[1], ident("b"))]))
    );
}

#[test]
fn empty_host_element() {
    let out = lower(Expr::Element(host("br", vec![])));
    assert_eq!(out, Ok(render("<br></br>", vec![])));
}

#[test]
fn host_attributes_are_not_markup() {
    let mut el = host("div", vec![text("x")]);
    el.attributes.push(Attribute {
        name: "class".to_string(),
        value: AttributeValue::Literal("box".to_string()),
    });
    assert_eq!(lower(Expr::Element(el)), Ok(render("<div>x</div>", vec![])));
}

#[test]
fn nested_host_elements_count_one_level_deeper() {
    // <span><i>{first}</i><b>Hello, {middle}!</b>Hi, {last}!<Component><sup>Sup, {name}!</sup></Component></span>
    let tree = host(
        "span",
        vec![
            text("\n"),
            JsxChild::Element(host("i", vec![hole("first")])),
            text("\n"),
            JsxChild::Element(host("b", vec![text("Hello, "), hole("middle"), text("!")])),
            text("\nHi, "),
            hole("last"),
            text("!\n"),
            JsxChild::Element(component(
                "Component",
                vec![],
                vec![
                    text("\n"),
                    JsxChild::Element(host("sup", vec![text("Sup, "), hole("name"), text("!")])),
                    text("\n"),
                ],
            )),
            text("\n"),
        ],
    );
    let out = lower(Expr::Element(tree)).unwrap();
    assert_eq!(
        out,
        render(
            "<span><i><!></i><b>Hello, <!>!</b>Hi, <!>!<!></span>",
            vec![
                insert(&[0, 0], ident("first")),
                insert(&[1, 1], ident("middle")),
                insert(&[3], ident("last")),
                insert(&[5], call("Component", vec![Expr::Object(vec![])])),
            ],
        )
    );
}

#[test]
fn empty_text_takes_no_position() {
    let out = lower(Expr::Element(host("p", vec![text("\n \n"), hole("a"), text(""), hole("b")])));
    assert_eq!(
        out,
        Ok(render("<p><!><!></p>", vec![insert(&[0], ident("a")), insert(&[1], ident("b"))]))
    );
}

#[test]
fn braces_without_expression_take_no_position() {
    let out =
        lower(Expr::Element(host("p", vec![hole("a"), JsxChild::Empty, JsxChild::Empty, hole("b")])));
    assert_eq!(
        out,
        Ok(render("<p><!><!></p>", vec![insert(&[0], ident("a")), insert(&[1], ident("b"))]))
    );
    assert_eq!(lower(Expr::Element(host("p", vec![JsxChild::Empty]))), Ok(render("<p></p>", vec![])));
}

#[test]
fn spread_child_takes_no_position() {
    let out = lower(Expr::Element(host(
        "p",
        vec![hole("a"), JsxChild::Spread(ident("xs")), hole("b")],
    )));
    assert_eq!(
        out,
        Ok(render("<p><!><!></p>", vec![insert(&[0], ident("a")), insert(&[1], ident("b"))]))
    );
}

#[test]
fn leaving_braces_without_expression_changes_nothing() {
    let mut walk = Lowering::new();
    // Nothing is asked of the frames, not even that one is open.
    assert!(walk.is_ready_to_leave_child(&Visited::Empty));
    assert!(walk.is_ready_to_leave_child(&Visited::Spread));
    assert_eq!(walk.exit_jsx_child(Visited::Empty), Ok(()));
    assert_eq!(walk.open_frames(), 0);
    walk.enter_element_dom("p");
    assert_eq!(walk.exit_jsx_child(Visited::Expression(ident("a"))), Ok(()));
    assert_eq!(walk.exit_jsx_child(Visited::Empty), Ok(()));
    assert_eq!(walk.exit_jsx_child(Visited::Spread), Ok(()));
    assert_eq!(walk.top_frame().unwrap().position(), Some(1));
    assert_eq!(walk.exit_element_dom("p"), render("<p><!></p>", vec![insert(&[0], ident("a"))]));
}

#[test]
fn text_without_content_needs_no_position() {
    let mut walk = Lowering::new();
    assert!(!walk.is_ready_to_leave_child(&Visited::Text("\n".to_string())));
    walk.enter_element_dom("p");
    assert!(walk.is_ready_to_leave_child(&Visited::Text("\n".to_string())));
    assert_eq!(walk.exit_jsx_child(Visited::Text("\n \n".to_string())), Ok(()));
    assert_eq!(walk.top_frame().unwrap().position(), Some(0));
}

#[test]
fn component_props_absent_and_spread() {
    let foo = component(
        "Foo",
        vec![
            Attribute { name: String::new(), value: AttributeValue::Spread(ident("rest")) },
            Attribute { name: "disabled".to_string(), value: AttributeValue::Absent },
        ],
        vec![],
    );
    let props = Expr::Object(vec![Property {
        key: "disabled".to_string(),
        quoted: false,
        value: Expr::BooleanLiteral(true),
    }]);
    assert_eq!(lower(Expr::Element(foo)), Ok(call("Foo", vec![props])));
}

#[test]
fn jsx_inside_a_spread_is_checked() {
    let bad = Expr::Element(Element { name: ElementName::This, attributes: vec![], children: vec![] });
    let in_child = host("p", vec![JsxChild::Spread(bad)]);
    assert_eq!(lower(Expr::Element(in_child)), Err(LowerError::UnsupportedElement));
    let bad = Expr::Element(Element { name: ElementName::This, attributes: vec![], children: vec![] });
    let mut in_attribute = host("p", vec![]);
    in_attribute.attributes.push(Attribute { name: String::new(), value: AttributeValue::Spread(bad) });
    assert_eq!(lower(Expr::Element(in_attribute)), Err(LowerError::UnsupportedElement));
}

#[test]
fn indentation_between_tags_takes_no_position() {
    let tree = host(
        "div",
        vec![
            text("\n    "),
            JsxChild::Element(host("b", vec![text("\n      x\n    ")])),
            text("\n    "),
            hole("y"),
            text("\n  "),
        ],
    );
    let out = lower(Expr::Element(tree)).unwrap();
    assert_eq!(markup_of(&out), "<div><b>     x</b><!></div>");
    assert_eq!(paths_of(&out), vec![vec![1]]);
}

#[test]
fn text_takes_a_position() {
    let out = lower(Expr::Element(host("p", vec![text("a"), hole("x"), text("b"), hole("y")])));
    assert_eq!(
        out,
        Ok(render("<p>a<!>b<!></p>", vec![insert(&[1], ident("x")), insert(&[3], ident("y"))]))
    );
}

#[test]
fn deep_paths() {
    let tree = host(
        "a",
        vec![
            JsxChild::Element(host("b", vec![])),
            JsxChild::Element(host(
                "c",
                vec![
                    text("t"),
                    JsxChild::Element(host("d", vec![hole("x"), hole("y")])),
                    hole("z"),
                ],
            )),
            hole("w"),
        ],
    );
    let out = lower(Expr::Element(tree)).unwrap();
    assert_eq!(markup_of(&out), "<a><b></b><c>t<d><!><!></d><!></c><!></a>");
    assert_eq!(paths_of(&out), vec![vec![1, 1, 0], vec![1, 1, 1], vec![1, 2], vec![2]]);
}

#[test]
fn paths_are_distinct_and_ascending() {
    let tree = host(
        "a",
        vec![
            hole("p"),
            JsxChild::Element(host("b", vec![hole("q"), JsxChild::Element(host("c", vec![hole("r")]))])),
            JsxChild::Element(component("K", vec![], vec![])),
            hole("s"),
        ],
    );
    let out = lower(Expr::Element(tree)).unwrap();
    let paths = paths_of(&out);
    assert_eq!(paths, vec![vec![0], vec![1, 0], vec![1, 1, 0], vec![2], vec![3]]);
    for i in 0..paths.len() {
        for j in (i + 1)..paths.len() {
            assert_ne!(paths[i], paths[j]);
            assert!(paths[i] < paths[j]);
        }
    }
    let mut sorted = paths.clone();
    sorted.sort();
    assert_eq!(sorted, paths);
}

#[test]
fn one_placeholder_for_each_binding() {
    let tree = host(
        "ul",
        vec![
            JsxChild::Element(host("li", vec![hole("a")])),
            JsxChild::Element(host("li", vec![hole("b"), text(" and "), hole("c")])),
        ],
    );
    let out = lower(Expr::Element(tree)).unwrap();
    let markup = markup_of(&out);
    assert_eq!(markup, "<ul><li><!></li><li><!> and <!></li></ul>");
    assert_eq!(markup.matches("<!>").count(), paths_of(&out).len());
    assert!(markup.starts_with("<ul>"));
    assert!(markup.ends_with("</ul>"));
}

#[test]
fn component_in_expression_position() {
    let out = lower(Expr::Element(component("Foo", vec![], vec![text("ignored")])));
    assert_eq!(out, Ok(call("Foo", vec![Expr::Object(vec![])])));
}

#[test]
fn member_and_namespaced_names_are_components() {
    let member = Element {
        name: ElementName::MemberExpression("Menu.Item".to_string()),
        attributes: vec![],
        children: vec![],
    };
    let namespaced = Element {
        name: ElementName::NamespacedName("svg:circle".to_string()),
        attributes: vec![],
        children: vec![],
    };
    assert_eq!(lower(Expr::Element(member)), Ok(call("Menu.Item", vec![Expr::Object(vec![])])));
    assert_eq!(
        lower(Expr::Element(namespaced)),
        Ok(call("svg:circle", vec![Expr::Object(vec![])]))
    );
}

#[test]
fn names_are_classified_by_their_form() {
    assert_eq!(
        get_element_name_and_type(&ElementName::Identifier("div".to_string())),
        Some(("div".to_string(), NodeKind::HostElement))
    );
    assert_eq!(
        get_element_name_and_type(&ElementName::IdentifierReference("Foo".to_string())),
        Some(("Foo".to_string(), NodeKind::Component))
    );
    assert_eq!(
        get_element_name_and_type(&ElementName::MemberExpression("a.b".to_string())),
        Some(("a.b".to_string(), NodeKind::Component))
    );
    assert_eq!(
        get_element_name_and_type(&ElementName::NamespacedName("a:b".to_string())),
        Some(("a:b".to_string(), NodeKind::Component))
    );
    assert_eq!(get_element_name_and_type(&ElementName::This), None);
    assert_eq!(get_element_name_and_type(&ElementName::Fragment), None);
}

#[test]
fn component_props_are_static_or_dynamic() {
    let foo = component(
        "Foo",
        vec![
            Attribute { name: "title".to_string(), value: AttributeValue::Literal("Hi".to_string()) },
            Attribute { name: "count".to_string(), value: AttributeValue::Expression(ident("n")) },
            Attribute {
                name: "data-id".to_string(),
                value: AttributeValue::Literal("7".to_string()),
            },
        ],
        vec![],
    );
    let out = lower(Expr::Element(foo));
    let props = Expr::Object(vec![
        Property { key: "title".to_string(), quoted: false, value: string("Hi") },
        Property { key: "count".to_string(), quoted: false, value: ident("n") },
        Property { key: "data-id".to_string(), quoted: true, value: string("7") },
    ]);
    assert_eq!(out, Ok(call("Foo", vec![props])));
}

#[test]
fn jsx_inside_an_embedded_expression_is_lowered_first() {
    let inner = Expr::Opaque {
        label: "?:".to_string(),
        operands: vec![
            ident("c"),
            Expr::Element(host("a", vec![hole("x")])),
            Expr::Element(host("b", vec![])),
        ],
    };
    let out = lower(Expr::Element(host("div", vec![JsxChild::Expression(inner)])));
    let lowered_inner = Expr::Opaque {
        label: "?:".to_string(),
        operands: vec![
            ident("c"),
            render("<a><!></a>", vec![insert(&[0], ident("x"))]),
            render("<b></b>", vec![]),
        ],
    };
    assert_eq!(out, Ok(render("<div><!></div>", vec![insert(&[0], lowered_inner)])));
}

#[test]
fn jsx_inside_a_prop_is_lowered() {
    let foo = component(
        "Foo",
        vec![Attribute {
            name: "icon".to_string(),
            value: AttributeValue::Expression(Expr::Element(host("b", vec![text("!")]))),
        }],
        vec![],
    );
    let out = lower(Expr::Element(host("div", vec![JsxChild::Element(foo)])));
    let props = Expr::Object(vec![Property {
        key: "icon".to_string(),
        quoted: false,
        value: render("<b>!</b>", vec![]),
    }]);
    assert_eq!(
        out,
        Ok(render("<div><!></div>", vec![insert(&[0], call("Foo", vec![props]))]))
    );
}

#[test]
fn jsx_anywhere_in_an_expression_is_lowered() {
    let e = Expr::Array(vec![
        Expr::Element(host("a", vec![])),
        call("f", vec![Expr::Element(host("b", vec![]))]),
        Expr::Object(vec![Property {
            key: "k".to_string(),
            quoted: false,
            value: Expr::Element(host("c", vec![])),
        }]),
        Expr::NumericLiteral(3),
        string("s"),
    ]);
    let expected = Expr::Array(vec![
        render("<a></a>", vec![]),
        call("f", vec![render("<b></b>", vec![])]),
        Expr::Object(vec![Property {
            key: "k".to_string(),
            quoted: false,
            value: render("<c></c>", vec![]),
        }]),
        Expr::NumericLiteral(3),
        string("s"),
    ]);
    assert_eq!(lower(e), Ok(expected));
}

#[test]
fn expression_without_jsx_is_unchanged() {
    assert_eq!(lower(ident("x")), Ok(ident("x")));
    assert_eq!(lower(string("<div>")), Ok(string("<div>")));
}

#[test]
fn element_named_this_is_refused() {
    let bad = Element { name: ElementName::This, attributes: vec![], children: vec![] };
    assert_eq!(lower(Expr::Element(bad)), Err(LowerError::UnsupportedElement));
}

#[test]
fn fragment_is_refused() {
    let fragment =
        Element { name: ElementName::Fragment, attributes: vec![], children: vec![text("a")] };
    assert_eq!(lower(Expr::Element(fragment)), Err(LowerError::UnsupportedElement));
    let inside = host(
        "div",
        vec![JsxChild::Element(Element {
            name: ElementName::Fragment,
            attributes: vec![],
            children: vec![hole("x")],
        })],
    );
    assert_eq!(lower(Expr::Element(inside)), Err(LowerError::UnsupportedElement));
}

#[test]
fn unsupported_element_anywhere_refuses_the_whole_tree() {
    let bad = Element { name: ElementName::This, attributes: vec![], children: vec![hole("x")] };
    let tree = host("div", vec![text("a"), JsxChild::Element(host("p", vec![JsxChild::Element(bad)]))]);
    let e = Expr::Element(tree);
    assert!(!is_supported(&e));
    assert_eq!(lower(e), Err(LowerError::UnsupportedElement));

    let in_prop = component(
        "Foo",
        vec![Attribute {
            name: "x".to_string(),
            value: AttributeValue::Expression(Expr::Element(Element {
                name: ElementName::This,
                attributes: vec![],
                children: vec![],
            })),
        }],
        vec![],
    );
    assert_eq!(lower(Expr::Element(in_prop)), Err(LowerError::UnsupportedElement));
}

#[test]
fn lowering_leaves_open_frames_alone() {
    let mut walk = Lowering::new();
    walk.enter_element_dom("outer");
    let out = walk.lower(Expr::Element(host("inner", vec![hole("x")])));
    assert_eq!(out, Ok(render("<inner><!></inner>", vec![insert(&[0], ident("x"))])));
    assert_eq!(walk.open_frames(), 1);
    assert_eq!(walk.exit_element_dom("outer"), render("<outer></outer>", vec![]));
    assert_eq!(walk.open_frames(), 0);
}

#[test]
fn steps_of_a_walk_one_by_one() {
    // <div>a<p>{x}</p><Foo title="t"/>{y}</div>
    let mut walk = Lowering::new();
    let div = ElementName::Identifier("div".to_string());
    let p = ElementName::Identifier("p".to_string());
    let foo = ElementName::IdentifierReference("Foo".to_string());
    assert_eq!(walk.enter_expression(&div), Ok(()));
    assert_eq!(walk.open_frames(), 1);

    assert!(walk.is_ready_to_leave_child(&Visited::Text("a".to_string())));
    assert_eq!(walk.exit_jsx_child(Visited::Text("a".to_string())), Ok(()));
    assert_eq!(walk.top_frame().unwrap().position(), Some(1));

    assert_eq!(walk.enter_jsx_child(&p), Ok(()));
    assert_eq!(walk.top_frame().unwrap().depth(), 1);
    assert_eq!(walk.top_frame().unwrap().position(), Some(0));
    assert_eq!(walk.exit_jsx_child(Visited::Expression(ident("x"))), Ok(()));
    let leaving_p = Visited::Element { name: p, attributes: vec![] };
    assert!(walk.is_ready_to_leave_child(&leaving_p));
    assert_eq!(walk.exit_jsx_child(leaving_p), Ok(()));
    assert_eq!(walk.top_frame().unwrap().depth(), 0);
    assert_eq!(walk.top_frame().unwrap().position(), Some(2));

    assert_eq!(walk.enter_jsx_child(&foo), Ok(()));
    assert_eq!(walk.open_frames(), 2);
    let leaving_foo = Visited::Element {
        name: foo,
        attributes: vec![Attribute {
            name: "title".to_string(),
            value: AttributeValue::Literal("t".to_string()),
        }],
    };
    assert!(walk.is_ready_to_leave_child(&leaving_foo));
    assert_eq!(walk.exit_jsx_child(leaving_foo), Ok(()));
    assert_eq!(walk.open_frames(), 1);

    assert_eq!(walk.exit_jsx_child(Visited::Expression(ident("y"))), Ok(()));
    assert!(walk.is_ready_to_leave_element(&div));
    let out = walk.exit_expression(&div, vec![]);
    let props = Expr::Object(vec![Property {
        key: "title".to_string(),
        quoted: false,
        value: string("t"),
    }]);
    assert_eq!(
        out,
        Ok(render(
            "<div>a<p><!></p><!><!></div>",
            vec![
                insert(&[1, 0], ident("x")),
                insert(&[2], call("Foo", vec![props])),
                insert(&[3], ident("y")),
            ],
        ))
    );
    assert_eq!(walk.open_frames(), 0);
}

#[test]
fn a_walk_knows_when_a_step_is_out_of_turn() {
    let mut walk = Lowering::new();
    let div = ElementName::Identifier("div".to_string());
    let p = ElementName::Identifier("p".to_string());
    let foo = ElementName::IdentifierReference("Foo".to_string());
    // Nothing is open.
    assert!(!walk.is_ready_to_leave_child(&Visited::Text("a".to_string())));
    assert!(!walk.is_ready_to_leave_element(&div));
    assert!(!walk.is_ready_to_leave_element(&foo));
    walk.enter_element_dom("div");
    // No element is open inside the root.
    assert!(!walk.is_ready_to_leave_child(&Visited::Element { name: p.clone(), attributes: vec![] }));
    // The frame on top is not that of a component.
    assert!(!walk.is_ready_to_leave_child(&Visited::Element {
        name: foo.clone(),
        attributes: vec![]
    }));
    assert!(!walk.is_ready_to_leave_element(&foo));
    walk.enter_child_dom("p");
    // The innermost open element is `p`.
    assert!(!walk.is_ready_to_leave_child(&Visited::Element { name: div.clone(), attributes: vec![] }));
    assert!(walk.is_ready_to_leave_child(&Visited::Element { name: p, attributes: vec![] }));
    // An element is still open inside the root.
    assert!(!walk.is_ready_to_leave_element(&div));
    // A name that cannot be lowered is refused, whatever the frames are.
    assert!(walk.is_ready_to_leave_child(&Visited::Element {
        name: ElementName::This,
        attributes: vec![]
    }));
    assert_eq!(walk.enter_jsx_child(&ElementName::This), Err(LowerError::UnsupportedElement));
    assert_eq!(
        walk.exit_jsx_child(Visited::Element { name: ElementName::This, attributes: vec![] }),
        Err(LowerError::UnsupportedElement)
    );
    assert_eq!(walk.enter_expression(&ElementName::This), Err(LowerError::UnsupportedElement));
    assert_eq!(
        walk.exit_expression(&ElementName::This, vec![]),
        Err(LowerError::UnsupportedElement)
    );
    assert_eq!(walk.open_frames(), 1);
    assert_eq!(walk.top_frame().unwrap().depth(), 1);
}

#[test]
fn frames_by_hand() {
    let mut frame = Frame::host("div");
    assert!(frame.is_host());
    assert!(frame.has_root("div"));
    assert!(!frame.has_root("span"));
    assert_eq!(frame.depth(), 0);
    assert_eq!(frame.position(), Some(0));
    frame.push_text("a".to_string());
    frame.open_child("p");
    assert!(frame.innermost_is("p"));
    assert!(!frame.innermost_is("div"));
    assert_eq!(frame.position(), Some(0));
    frame.push_binding(ident("x"));
    frame.close_child("p");
    assert_eq!(frame.position(), Some(2));
    let template = frame.into_template("div");
    assert_eq!(
        template.markup,
        vec![
            Fragment::Open("div".to_string()),
            Fragment::Text("a".to_string()),
            Fragment::Open("p".to_string()),
            Fragment::Anchor,
            Fragment::Close("p".to_string()),
            Fragment::Close("div".to_string()),
        ]
    );
    assert_eq!(template.bindings, vec![Binding { path: vec![1, 0], value: ident("x") }]);
    assert_eq!(join(&template.markup), "<div>a<p><!></p></div>");
    assert!(!Frame::component().is_host());
}
