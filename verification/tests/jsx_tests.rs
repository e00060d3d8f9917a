use marisjs::ast::{JsxAttr, JsxAttrValue, JsxNode, ParserError};
use marisjs::jsx::{
    convert_jsx_attr_value, convert_jsx_element, convert_jsx_fragment, extract_arrow_body_jsx,
    extract_conditional, extract_jsx_from_expr, format_member_expr_name,
    jsx_element_name_to_string,
};
use marisjs::script::{
    ArrowBody, JsExpr, JsLit, JsPat, JsStmt, JsxAttrItem, JsxAttrName, JsxAttrVal, JsxChild,
    JsxElem, JsxMember, JsxName, JsxObject, MemberKey, VarKind,
};

fn s(x: &str) -> String {
    x.to_string()
}

fn id(x: &str) -> JsExpr {
    JsExpr::Ident(s(x))
}

fn attr(name: &str, value: Option<JsxAttrVal>) -> JsxAttrItem {
    JsxAttrItem::Attr { name: JsxAttrName::Ident(s(name)), value, contains_env_call: false }
}

fn elem(name: &str, attrs: Vec<JsxAttrItem>, children: Vec<JsxChild>) -> JsxElem {
    JsxElem { name: JsxName::Ident(s(name)), attrs, children }
}

fn text_node(x: &str) -> JsxNode {
    JsxNode::Text(s(x))
}

#[test]
fn element_with_attributes_and_children() {
    let el = elem(
        "button",
        vec![
            attr("class", Some(JsxAttrVal::Lit(JsLit::Str(s("btn"))))),
            attr("disabled", None),
            attr("onClick", Some(JsxAttrVal::Expr(id("inc")))),
            attr("tabIndex", Some(JsxAttrVal::Lit(JsLit::Num(s("0"))))),
        ],
        vec![
            JsxChild::Text(s("\n   Count:\t ")),
            JsxChild::Expr(JsExpr::Member(Box::new(id("count")), MemberKey::Ident(s("value")))),
            JsxChild::Empty,
        ],
    );
    let mut errors: Vec<ParserError> = Vec::new();
    let node = convert_jsx_element(&el, &mut errors);
    assert!(errors.is_empty());
    let expected = JsxNode::Element {
        tag: s("button"),
        attrs: vec![
            JsxAttr { name: s("class"), value: JsxAttrValue::String(s("btn")), contains_env_call: false },
            JsxAttr { name: s("disabled"), value: JsxAttrValue::String(s("")), contains_env_call: false },
            JsxAttr { name: s("onClick"), value: JsxAttrValue::Expr(s("inc")), contains_env_call: false },
            JsxAttr { name: s("tabIndex"), value: JsxAttrValue::String(s("0")), contains_env_call: false },
        ],
        children: vec![text_node(" Count: "), JsxNode::Expr(s("count.value")), text_node("")],
        is_hydrate_root: false,
        is_component: false,
    };
    assert_eq!(node, expected);
}

#[test]
fn hydrate_marker_and_component_detection() {
    let el = JsxElem {
        name: JsxName::Ident(s("Counter")),
        attrs: vec![
            JsxAttrItem::Attr {
                name: JsxAttrName::Namespaced(s("client"), s("hydrate")),
                value: None,
                contains_env_call: false,
            },
            JsxAttrItem::Attr {
                name: JsxAttrName::Ident(s("start")),
                value: Some(JsxAttrVal::Expr(id("n"))),
                contains_env_call: true,
            },
        ],
        children: vec![],
    };
    let mut errors = Vec::new();
    match convert_jsx_element(&el, &mut errors) {
        JsxNode::Element { tag, attrs, is_hydrate_root, is_component, .. } => {
            assert_eq!(tag, "Counter");
            assert_eq!(attrs.len(), 1);
            assert_eq!(attrs[0].name, "start");
            assert!(attrs[0].contains_env_call);
            assert!(is_hydrate_root);
            assert!(is_component);
        }
        other => panic!("unexpected {:?}", other),
    }
}

#[test]
fn element_names() {
    let m = JsxMember {
        obj: JsxObject::Member(Box::new(JsxMember { obj: JsxObject::Ident(s("UI")), prop: s("Forms") })),
        prop: s("Input"),
    };
    assert_eq!(format_member_expr_name(&m), "UI.Forms.Input");
    assert_eq!(jsx_element_name_to_string(&JsxName::Namespaced(s("svg"), s("path"))), "svg:path");
    let mut errors = Vec::new();
    let node = convert_jsx_element(&JsxElem { name: JsxName::Member(m), attrs: vec![], children: vec![] }, &mut errors);
    match node {
        JsxNode::Element { tag, is_component, .. } => {
            assert_eq!(tag, "UI.Forms.Input");
            assert!(is_component);
        }
        other => panic!("unexpected {:?}", other),
    }
}

#[test]
fn unsupported_jsx_constructs_are_reported() {
    let el = elem(
        "div",
        vec![JsxAttrItem::Spread, attr("x", Some(JsxAttrVal::Element))],
        vec![JsxChild::Spread],
    );
    let mut errors = Vec::new();
    let node = convert_jsx_element(&el, &mut errors);
    assert_eq!(errors.len(), 3);
    assert!(errors.iter().all(|e| e.code == "UNSUPPORTED_JSX_CONSTRUCT"));
    assert_eq!(errors[0].message, "JSX spread attributes ({...props}) are not yet supported.");
    assert_eq!(errors[1].message, "JSX elements as attribute values are not yet supported.");
    assert_eq!(errors[2].message, "JSX spread children ({...X}) are not yet supported.");
    match node {
        JsxNode::Element { attrs, children, .. } => {
            assert_eq!(attrs[0].value, JsxAttrValue::String(s("<jsx element>")));
            assert_eq!(children, vec![text_node("")]);
        }
        other => panic!("unexpected {:?}", other),
    }
    let mut errors = Vec::new();
    assert_eq!(convert_jsx_attr_value(&JsxAttrVal::Fragment, &mut errors), JsxAttrValue::String(s("<jsx fragment>")));
    assert_eq!(errors[0].message, "JSX fragments as attribute values are not yet supported.");
}

#[test]
fn conditional_children() {
    let cond = JsExpr::Cond(
        Box::new(id("open")),
        Box::new(JsExpr::JsxElement(Box::new(elem("p", vec![], vec![JsxChild::Text(s("hi"))])))),
        Box::new(JsExpr::Lit(JsLit::Null)),
    );
    let mut errors = Vec::new();
    let node = extract_conditional(&cond, &mut errors).unwrap();
    let expected = JsxNode::Conditional {
        test: s("open"),
        cons: Box::new(JsxNode::Element {
            tag: s("p"),
            attrs: vec![],
            children: vec![text_node("hi")],
            is_hydrate_root: false,
            is_component: false,
        }),
        alt: Box::new(text_node("")),
    };
    assert_eq!(node, expected);
    // A branch that is not JSX makes the child a plain expression.
    let plain = JsExpr::Cond(Box::new(id("a")), Box::new(id("b")), Box::new(id("c")));
    assert_eq!(extract_conditional(&plain, &mut errors), None);
    let parent = elem("div", vec![], vec![JsxChild::Expr(plain)]);
    match convert_jsx_element(&parent, &mut errors) {
        JsxNode::Element { children, .. } => assert_eq!(children, vec![JsxNode::Expr(s("a ? b : c"))]),
        other => panic!("unexpected {:?}", other),
    }
    assert!(errors.is_empty());
}

#[test]
fn for_loops() {
    let item_arrow = JsExpr::Arrow(
        vec![JsPat::Ident(s("todo"))],
        ArrowBody::Block(vec![
            JsStmt::FnDecl { body: None, source: Some(s("function label(t) { return t; }")) },
            JsStmt::Var { kind: VarKind::Let, decls: vec![], source: Some(s("let skip = 1;")) },
            JsStmt::Var { kind: VarKind::Const, decls: vec![], source: Some(s("const done = todo.done;")) },
            JsStmt::Return(Some(JsExpr::Paren(Box::new(JsExpr::JsxElement(Box::new(elem("li", vec![], vec![]))))))),
        ]),
    );
    let el = elem(
        "For",
        vec![
            attr("each", Some(JsxAttrVal::Expr(JsExpr::Member(Box::new(id("todos")), MemberKey::Ident(s("value")))))),
            attr("key", Some(JsxAttrVal::Lit(JsLit::Str(s("id"))))),
        ],
        vec![JsxChild::Text(s(" ")), JsxChild::Expr(item_arrow)],
    );
    let mut errors = Vec::new();
    let node = convert_jsx_element(&el, &mut errors);
    let expected = JsxNode::ForEach {
        each: s("todos.value"),
        key_fn: s("id"),
        item_param: s("todo"),
        body: Box::new(JsxNode::Element {
            tag: s("li"),
            attrs: vec![],
            children: vec![],
            is_hydrate_root: false,
            is_component: false,
        }),
        for_body_decls: vec![s("function label(t) { return t; }"), s("const done = todo.done;")],
    };
    assert_eq!(node, expected);
    // No item arrow: the defaults.
    let empty = elem("For", vec![], vec![]);
    assert_eq!(
        convert_jsx_element(&empty, &mut errors),
        JsxNode::ForEach {
            each: s(""),
            key_fn: s(""),
            item_param: s("item"),
            body: Box::new(text_node("")),
            for_body_decls: vec![],
        }
    );
    assert!(errors.is_empty());
}

#[test]
fn item_arrow_forms() {
    let mut errors = Vec::new();
    let destructured = JsExpr::Arrow(
        vec![JsPat::Object(vec![])],
        ArrowBody::Expr(Box::new(JsExpr::JsxFragment(vec![]))),
    );
    let (param, node, decls) = extract_arrow_body_jsx(&destructured, &mut errors).unwrap();
    assert_eq!(param, "item");
    assert_eq!(node, convert_jsx_fragment(&vec![], &mut errors));
    assert!(decls.is_empty());
    let returns_nothing = JsExpr::Arrow(vec![], ArrowBody::Block(vec![JsStmt::Return(None)]));
    assert!(extract_arrow_body_jsx(&returns_nothing, &mut errors).is_none());
    let not_arrow = id("render");
    assert!(extract_arrow_body_jsx(&not_arrow, &mut errors).is_none());
    assert!(extract_jsx_from_expr(&JsExpr::Paren(Box::new(JsExpr::JsxFragment(vec![JsxChild::Text(s("x"))]))), &mut errors).is_some());
    assert!(extract_jsx_from_expr(&JsExpr::Lit(JsLit::Null), &mut errors).is_none());
}
