use marisjs::ast::{BodyStmtKind, ComponentFile, JsxNode, SignalKind, TypeAnnotation};
use marisjs::component::{
    classify_body_stmt, extract_body_stmts, extract_fn_props, import_info, note_call, BodyItem, ComponentFn,
    ParamInfo,
};
use marisjs::script::{
    ArrowBody, ExprKind, JsExpr, JsLit, JsPat, JsStmt, JsxElem, JsxName, VarKind,
};

fn s(x: &str) -> String {
    x.to_string()
}

fn id(x: &str) -> JsExpr {
    JsExpr::Ident(s(x))
}

fn call(name: &str, args: Vec<JsExpr>) -> JsExpr {
    JsExpr::Call(Some(Box::new(id(name))), args.into_iter().map(|a| (false, a)).collect())
}

fn konst(name: &str, init: JsExpr, source: &str) -> JsStmt {
    JsStmt::Var { kind: VarKind::Const, decls: vec![(Some(s(name)), Some(init))], source: Some(s(source)) }
}

fn item(stmt: JsStmt, line: usize) -> BodyItem {
    BodyItem { stmt, line, column: 2 }
}

fn div() -> JsExpr {
    JsExpr::JsxElement(Box::new(JsxElem { name: JsxName::Ident(s("div")), attrs: vec![], children: vec![] }))
}

fn counter_fn() -> ComponentFn {
    ComponentFn {
        params: vec![ParamInfo {
            pat: JsPat::Ident(s("props")),
            type_annotation: TypeAnnotation::Named(s("Props")),
            line: 1,
            column: 24,
        }],
        body: Some(vec![
            item(konst("count", call("signal", vec![JsExpr::Lit(JsLit::Num(s("0")))]), "const count = signal(0);"), 2),
            item(konst("double", call("computed", vec![]), "const double = computed();"), 3),
            item(
                JsStmt::FnDecl {
                    body: Some(vec![JsStmt::Return(Some(div()))]),
                    source: Some(s("function Row() { return <div/>; }")),
                },
                4,
            ),
            item(konst("inc", JsExpr::Arrow(vec![], ArrowBody::Expr(Box::new(id("x")))), "const inc = () => x;"), 5),
            item(konst("label", JsExpr::Lit(JsLit::Str(s("hi"))), "const label = 'hi';"), 6),
            item(konst("handler", JsExpr::Unsupported(ExprKind::Fn), "const handler = function () {};"), 7),
            item(JsStmt::Var { kind: VarKind::Let, decls: vec![], source: None }, 8),
            item(JsStmt::Return(Some(JsExpr::Paren(Box::new(div())))), 9),
        ]),
    }
}

#[test]
fn reads_a_component_function() {
    let mut file = ComponentFile::new(s("Counter.tsx"));
    extract_fn_props(&mut file, &counter_fn());
    let props = file.props.clone().unwrap();
    assert_eq!(props.name, "props");
    assert_eq!(props.type_annotation, TypeAnnotation::Named(s("Props")));
    assert!(!props.is_destructured);
    assert_eq!((props.line, props.column), (1, 24));
    assert!(file.has_component_body);
    let kinds: Vec<BodyStmtKind> = file.body_stmts.iter().map(|b| b.kind).collect();
    assert_eq!(
        kinds,
        vec![
            BodyStmtKind::Signal,
            BodyStmtKind::Signal,
            BodyStmtKind::EventHandler,
            BodyStmtKind::EventHandler,
            BodyStmtKind::DerivedConst,
            BodyStmtKind::EventHandler,
            BodyStmtKind::Let,
            BodyStmtKind::Return,
        ]
    );
    assert_eq!(file.body_stmts[3].line, 5);
    assert_eq!(file.signals.len(), 2);
    assert_eq!(file.signals[0].name, "count");
    assert_eq!(file.signals[0].kind, SignalKind::Signal);
    assert_eq!(file.signals[0].initial_value, "0");
    assert_eq!(file.signals[1].kind, SignalKind::Computed);
    assert_eq!(file.signals[1].initial_value, "() => undefined");
    assert_eq!(file.handler_decls, vec![s("function Row() { return <div/>; }")]);
    assert_eq!(file.handler_has_jsx, vec![true]);
    assert_eq!(file.derived_consts, vec![s("const label = 'hi';")]);
    assert_eq!(
        file.render_tree,
        Some(JsxNode::Element {
            tag: s("div"),
            attrs: vec![],
            children: vec![],
            is_hydrate_root: false,
            is_component: false,
        })
    );
    assert!(file.unsupported_errors.is_empty());
}

#[test]
fn props_are_read_once() {
    let mut file = ComponentFile::new(s("A.tsx"));
    extract_fn_props(&mut file, &counter_fn());
    let before = file.body_stmts.len();
    extract_fn_props(&mut file, &counter_fn());
    assert_eq!(file.body_stmts.len(), before);
}

#[test]
fn destructured_and_missing_props() {
    let mut file = ComponentFile::new(s("B.tsx"));
    let f = ComponentFn {
        params: vec![ParamInfo { pat: JsPat::Object(vec![]), type_annotation: TypeAnnotation::Any, line: 3, column: 9 }],
        body: None,
    };
    extract_fn_props(&mut file, &f);
    let p = file.props.clone().unwrap();
    assert_eq!(p.name, "props");
    assert!(p.is_destructured);
    assert_eq!(p.type_annotation, TypeAnnotation::Any);
    assert!(file.has_component_body);
    assert!(file.body_stmts.is_empty());

    let mut file = ComponentFile::new(s("C.tsx"));
    let f = ComponentFn {
        params: vec![ParamInfo { pat: JsPat::Array(vec![]), type_annotation: TypeAnnotation::Untyped, line: 1, column: 1 }],
        body: Some(vec![item(JsStmt::Return(Some(id("x"))), 2)]),
    };
    extract_fn_props(&mut file, &f);
    assert!(file.props.is_none());
    assert_eq!(file.render_tree, None);
    assert_eq!(file.body_stmts[0].kind, BodyStmtKind::Return);
}

#[test]
fn last_return_sets_the_render_tree() {
    let mut file = ComponentFile::new(s("D.tsx"));
    extract_body_stmts(&mut file, &Some(vec![item(JsStmt::Return(Some(div())), 1), item(JsStmt::Return(Some(id("y"))), 2)]));
    assert_eq!(file.render_tree, None);
    assert_eq!(classify_body_stmt(&JsStmt::Other(marisjs::script::StmtKind::While)), BodyStmtKind::Other);
}

#[test]
fn import_records() {
    let css = import_info(s("./Card.CSS"), vec![], 1, 0).unwrap();
    assert!(css.is_css);
    let named = import_info(s("./Button"), vec![s("Button")], 2, 0).unwrap();
    assert!(!named.is_css);
    assert_eq!(named.imported_names, vec![s("Button")]);
    assert!(import_info(s("./polyfill"), vec![], 3, 0).is_none());
}

#[test]
fn calls_mark_data_env_and_session_use() {
    let mut file = ComponentFile::new(s("E.tsx"));
    note_call(&mut file, "env", Some(s("API_KEY")), 4, 10);
    note_call(&mut file, "env", None, 6, 2);
    note_call(&mut file, "data", None, 8, 1);
    note_call(&mut file, "setSession", None, 9, 3);
    note_call(&mut file, "fetch", Some(s("x")), 12, 0);
    assert!(file.has_env_call);
    assert_eq!((file.env_call_line, file.env_call_column), (6, 2));
    assert_eq!(file.env_call_keys, vec![s("API_KEY")]);
    assert!(file.has_data_call);
    assert_eq!(file.data_call_line, 8);
    assert!(file.has_session_call);
    assert_eq!(file.session_call_column, 3);
}
