use marisjs::ast::{ParserError, SignalKind};
use marisjs::inspect::{
    block_contains_jsx, chain_reads_signal, expr_contains_jsx, extract_signal_decl,
    is_dot_map_call, is_signal_or_computed, is_value_prop, stmt_contains_jsx,
};
use marisjs::printer::{format_block_like, format_jsx_expr, format_pat, format_stmt};
use marisjs::script::{
    ArrowBody, BinOp, ExprKind, JsExpr, JsLit, JsPat, JsStmt, JsxElem, JsxName, MemberKey,
    ObjPatProp, ObjProp, PropKey, StmtKind, TplQuasi, VarKind,
};

fn jsx_el() -> JsExpr {
    JsExpr::JsxElement(Box::new(JsxElem { name: JsxName::Ident("div".to_string()), attrs: vec![], children: vec![] }))
}

fn jsx_frag() -> JsExpr {
    JsExpr::JsxFragment(vec![])
}

fn id(s: &str) -> JsExpr {
    JsExpr::Ident(s.to_string())
}

fn b(e: JsExpr) -> Box<JsExpr> {
    Box::new(e)
}

fn member(obj: JsExpr, name: &str) -> JsExpr {
    JsExpr::Member(b(obj), MemberKey::Ident(name.to_string()))
}

fn str_lit(s: &str) -> JsExpr {
    JsExpr::Lit(JsLit::Str(s.to_string()))
}

fn num(s: &str) -> JsExpr {
    JsExpr::Lit(JsLit::Num(s.to_string()))
}

fn call(callee: JsExpr, args: Vec<JsExpr>) -> JsExpr {
    JsExpr::Call(Some(b(callee)), args.into_iter().map(|a| (false, a)).collect())
}

fn fmt(e: &JsExpr) -> (String, Vec<ParserError>) {
    let mut errors = Vec::new();
    let s = format_jsx_expr(e, &mut errors);
    (s, errors)
}

fn names(v: &[&str]) -> Vec<String> {
    v.iter().map(|s| s.to_string()).collect()
}

#[test]
fn prints_member_call_and_binary() {
    let e = JsExpr::Bin(
        BinOp::Add,
        b(call(member(id("Math"), "max"), vec![member(id("a"), "value"), num("1")])),
        b(JsExpr::Lit(JsLit::Bool(true))),
    );
    let (s, errors) = fmt(&e);
    assert_eq!(s, "Math.max(a.value, 1) + true");
    assert!(errors.is_empty());
}

#[test]
fn prints_in_and_instanceof_with_spaces() {
    let e = JsExpr::Bin(BinOp::In, b(str_lit("k")), b(id("o")));
    assert_eq!(fmt(&e).0, "'k'  in  o");
    let e = JsExpr::Bin(BinOp::NullishCoalescing, b(id("a")), b(JsExpr::Lit(JsLit::Null)));
    assert_eq!(fmt(&e).0, "a ?? null");
}

#[test]
fn prints_string_literal_escaped() {
    let e = str_lit("it's a\\b\nc");
    assert_eq!(fmt(&e).0, "'it\\'s a\\\\b\\nc'");
}

#[test]
fn prints_conditional_unary_paren_regex() {
    let e = JsExpr::Cond(
        b(JsExpr::Unary("!".to_string(), b(id("open")))),
        b(JsExpr::Paren(b(str_lit("a")))),
        b(JsExpr::Lit(JsLit::Regex("x+".to_string(), "g".to_string()))),
    );
    assert_eq!(fmt(&e).0, "!open ? ('a') : /x+/g");
}

#[test]
fn prints_arrays_objects_and_spreads() {
    let arr = JsExpr::Array(vec![Some((false, num("1"))), None, Some((true, id("rest")))]);
    assert_eq!(fmt(&arr).0, "[1, , ...rest]");
    let obj = JsExpr::Object(vec![
        ObjProp::KeyValue(PropKey::Ident("a".to_string()), num("1")),
        ObjProp::KeyValue(PropKey::Str("b c".to_string()), num("2")),
        ObjProp::KeyValue(PropKey::Computed(b(id("k"))), num("3")),
        ObjProp::Shorthand("d".to_string()),
        ObjProp::Spread(id("more")),
    ]);
    assert_eq!(fmt(&obj).0, "{ a: 1, 'b c': 2, [k]: 3, d, ...more }");
    assert_eq!(fmt(&JsExpr::Object(vec![])).0, "{  }");
}

#[test]
fn prints_template_literal() {
    let e = JsExpr::Tpl(vec![
        (TplQuasi { cooked: Some("Hi ".to_string()), raw: "Hi ".to_string() }, Some(id("name"))),
        (TplQuasi { cooked: Some("! `${x}` \\".to_string()), raw: String::new() }, None),
    ]);
    assert_eq!(fmt(&e).0, "`Hi ${name}! \\`\\${x}\\` \\\\`");
    let raw_only = JsExpr::Tpl(vec![(TplQuasi { cooked: None, raw: "$a{".to_string() }, None)]);
    assert_eq!(fmt(&raw_only).0, "`$a{`");
}

#[test]
fn prints_optional_chains() {
    let e = JsExpr::OptCall(
        b(JsExpr::OptMember(b(id("user")), MemberKey::Ident("greet".to_string()))),
        vec![(false, num("1"))],
    );
    assert_eq!(fmt(&e).0, "user?.greet?.(1)");
    let c = JsExpr::OptMember(b(id("list")), MemberKey::Computed(b(num("0"))));
    assert_eq!(fmt(&c).0, "list?.[0]");
}

#[test]
fn prints_arrow_functions() {
    let e = JsExpr::Arrow(
        vec![
            JsPat::Ident("e".to_string()),
            JsPat::Assign(Box::new(JsPat::Ident("n".to_string())), b(num("0"))),
        ],
        ArrowBody::Expr(b(call(id("handle"), vec![id("e"), id("n")]))),
    );
    assert_eq!(fmt(&e).0, "(e, n = 0) => handle(e, n)");
    let block = JsExpr::Arrow(
        vec![],
        ArrowBody::Block(vec![
            JsStmt::Var { kind: VarKind::Const, decls: vec![(Some("x".to_string()), Some(num("1")))], source: None },
            JsStmt::If(
                member(id("count"), "value"),
                Box::new(JsStmt::Block(vec![JsStmt::Return(Some(id("x")))])),
                Some(Box::new(JsStmt::Return(None))),
            ),
        ]),
    );
    assert_eq!(
        fmt(&block).0,
        "() => {\n  const x = 1;\n  if (count.value) {\n  return x;\n} else   return;\n}"
    );
}

#[test]
fn prints_patterns() {
    let p = JsPat::Object(vec![
        ObjPatProp::KeyValue(PropKey::Ident("a".to_string()), JsPat::Ident("b".to_string())),
        ObjPatProp::Assign("c".to_string(), Some(num("2"))),
        ObjPatProp::Assign("d".to_string(), None),
        ObjPatProp::Rest(JsPat::Ident("rest".to_string())),
    ]);
    let mut errors = Vec::new();
    assert_eq!(format_pat(&p, &mut errors), "{ a: b, c = 2, d, ...rest }");
    let arr = JsPat::Array(vec![Some(JsPat::Ident("x".to_string())), None, Some(JsPat::Rest(Box::new(JsPat::Ident("ys".to_string()))))]);
    assert_eq!(format_pat(&arr, &mut errors), "[x, , ...ys]");
    assert!(errors.is_empty());
}

#[test]
fn unsupported_expression_is_reported_in_order() {
    let e = call(
        id("f"),
        vec![
            JsExpr::Unsupported(ExprKind::New),
            JsExpr::Member(b(id("o")), MemberKey::Private),
            jsx_el(),
        ],
    );
    let (s, errors) = fmt(&e);
    assert_eq!(s, "f(/* expr */, o[?], /* jsx element */)");
    assert_eq!(errors.len(), 3);
    assert_eq!(errors[0].code, "UNSUPPORTED_EXPRESSION");
    assert_eq!(errors[0].message, "The 'new' operator is not yet supported in expression position.");
    assert_eq!(errors[0].fix_hint, "Use a factory function instead.");
    assert_eq!(errors[1].message, "Private member access (#X) is not yet supported.");
    assert_eq!(
        errors[2].message,
        "JSX elements are not supported in expression position (e.g., as prop initializers)."
    );
}

#[test]
fn unsupported_callee_literal_key_and_method() {
    let e = JsExpr::Call(None, vec![(false, JsExpr::Lit(JsLit::Other))]);
    let (s, errors) = fmt(&e);
    assert_eq!(s, "/* callee */(undefined)");
    assert_eq!(errors[0].message, "super() or import() calls are not yet supported.");
    assert_eq!(errors[1].message, "BigInt literals are not yet supported.");
    let o = JsExpr::Object(vec![ObjProp::Method, ObjProp::KeyValue(PropKey::Other, num("1"))]);
    let (s, errors) = fmt(&o);
    assert_eq!(s, "{ /* prop */, /* key */: 1 }");
    assert_eq!(errors[0].code, "UNSUPPORTED_SYNTAX");
    assert_eq!(errors[1].message, "BigInt property keys are not yet supported.");
}

#[test]
fn unsupported_statement_is_named() {
    let mut errors = Vec::new();
    let s = format_stmt(&JsStmt::Other(StmtKind::While), &mut errors);
    assert_eq!(s, "  /* stmt */");
    assert_eq!(errors[0].code, "UNSUPPORTED_STATEMENT");
    assert_eq!(errors[0].message, "While statements are not yet supported in arrow function bodies.");
    let s = format_stmt(&JsStmt::FnDecl { body: None, source: None }, &mut errors);
    assert_eq!(s, "  /* stmt */");
    assert_eq!(
        errors[1].message,
        "Declaration (non-var) statements are not yet supported in arrow function bodies."
    );
    let _ = format_stmt(&JsStmt::Block(vec![]), &mut errors);
    assert_eq!(errors[2].message, "Unrecognized statements are not yet supported in arrow function bodies.");
}

#[test]
fn var_pattern_and_block_like() {
    let mut errors = Vec::new();
    let s = format_stmt(&JsStmt::Var { kind: VarKind::Let, decls: vec![(None, Some(num("1"))), (Some("y".to_string()), None)], source: None }, &mut errors);
    assert_eq!(s, "  let _ = 1, y;");
    assert_eq!(
        errors[0].message,
        "Destructured or complex variable declarations are not yet supported in arrow function bodies."
    );
    let block = JsStmt::Block(vec![JsStmt::Expr(call(id("go"), vec![]))]);
    assert_eq!(format_block_like(&block, &mut errors), "{\n  go();\n}");
    assert_eq!(format_block_like(&JsStmt::Return(None), &mut errors), "  return;");
}

#[test]
fn signal_declarations() {
    let mut errors = Vec::new();
    let d = extract_signal_decl(&call(id("signal"), vec![num("0")]), &mut errors);
    assert_eq!(d, Some((SignalKind::Signal, "0".to_string())));
    let d = extract_signal_decl(&call(id("signal"), vec![]), &mut errors);
    assert_eq!(d, Some((SignalKind::Signal, "undefined".to_string())));
    let d = extract_signal_decl(&call(id("computed"), vec![]), &mut errors);
    assert_eq!(d, Some((SignalKind::Computed, "() => undefined".to_string())));
    let body = JsExpr::Arrow(vec![], ArrowBody::Expr(b(JsExpr::Bin(BinOp::Mul, b(member(id("count"), "value")), b(num("2"))))));
    let d = extract_signal_decl(&call(id("computed"), vec![body]), &mut errors);
    assert_eq!(d, Some((SignalKind::Computed, "() => count.value * 2".to_string())));
    assert_eq!(extract_signal_decl(&call(id("ref"), vec![num("1")]), &mut errors), None);
    assert_eq!(extract_signal_decl(&id("signal"), &mut errors), None);
    assert!(errors.is_empty());
    assert!(is_signal_or_computed(&call(id("computed"), vec![])));
    assert!(!is_signal_or_computed(&call(member(id("x"), "signal"), vec![])));
}

#[test]
fn map_calls() {
    assert!(is_dot_map_call(&call(member(id("items"), "map"), vec![id("f")])));
    assert!(!is_dot_map_call(&call(member(id("items"), "filter"), vec![])));
    assert!(!is_dot_map_call(&call(id("map"), vec![])));
}

#[test]
fn jsx_detection() {
    assert!(expr_contains_jsx(&JsExpr::Paren(b(jsx_frag()))));
    assert!(expr_contains_jsx(&JsExpr::Cond(b(id("a")), b(JsExpr::Lit(JsLit::Null)), b(jsx_el()))));
    let arrow = JsExpr::Arrow(vec![], ArrowBody::Block(vec![JsStmt::Return(Some(jsx_el()))]));
    assert!(expr_contains_jsx(&call(member(id("xs"), "map"), vec![arrow])));
    assert!(!expr_contains_jsx(&call(id("f"), vec![id("x")])));
    assert!(!expr_contains_jsx(&JsExpr::Array(vec![Some((false, jsx_el()))])));
    let f = JsStmt::FnDecl { body: Some(vec![JsStmt::Expr(id("x")), JsStmt::Return(Some(jsx_el()))]), source: None };
    assert!(stmt_contains_jsx(&f));
    assert!(!stmt_contains_jsx(&JsStmt::Expr(jsx_el())));
    assert!(block_contains_jsx(&vec![JsStmt::Return(None), f]));
    assert!(!block_contains_jsx(&vec![]));
}

#[test]
fn signal_reads_through_member_chains() {
    let sigs = names(&["count"]);
    assert!(chain_reads_signal(&id("count"), &sigs, "props"));
    assert!(!chain_reads_signal(&id("other"), &sigs, "props"));
    let deep = member(member(member(id("props"), "deeply"), "nested"), "x");
    assert!(chain_reads_signal(&deep, &sigs, "props"));
    assert!(chain_reads_signal(&member(id("store"), "count"), &sigs, "props"));
    assert!(!chain_reads_signal(&member(member(id("store"), "count"), "inner"), &sigs, "props"));
    let computed = JsExpr::Member(b(id("props")), MemberKey::Computed(b(id("idx"))));
    assert!(chain_reads_signal(&computed, &sigs, "props"));
    let keyed = JsExpr::Member(b(id("store")), MemberKey::Computed(b(str_lit("count"))));
    assert!(chain_reads_signal(&keyed, &sigs, "props"));
    assert!(!chain_reads_signal(&JsExpr::Member(b(id("props")), MemberKey::Private), &sigs, "props"));
    assert!(!chain_reads_signal(&call(id("count"), vec![]), &sigs, "props"));
    assert!(is_value_prop(&MemberKey::Ident("value".to_string())));
    assert!(is_value_prop(&MemberKey::Computed(b(str_lit("value")))));
    assert!(!is_value_prop(&MemberKey::Computed(b(id("value")))));
    assert!(!is_value_prop(&MemberKey::Private));
}
