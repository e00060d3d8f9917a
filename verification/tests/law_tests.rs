use marisjs::assemble::{build_module_output, classify_source, prerender_from_stdout};
use marisjs::ast::{
    ComponentFile, ExportInfo, ExportKind, ImportInfo, JsxAttr, JsxAttrValue, JsxNode, RunsOn,
    SignalDecl, SignalKind, SourceComment, note_runs_on_comments,
};
use marisjs::client::{AtomicCounter, gen_component_call};
use marisjs::codegen::{SignalRead, html_escape, is_event_attr};
use marisjs::init::merge_env;
use marisjs::manifest::{manifest_api_routes, manifest_middleware, manifest_routes};
use marisjs::css::{ComponentMeta, PageCssClosure, collect_page_css_closure};
use marisjs::dev::{MiddlewareOutcome, api_relay, middleware_from_report};
use marisjs::generate::generate;
use marisjs::paths::normalize_path;
use marisjs::pipeline::copies_asset;
use marisjs::printer::format_jsx_expr;
use marisjs::routes::api_file_to_route;
use marisjs::script::JsExpr;
use marisjs::site::unescape_html;
use marisjs::tool::Diagnostic;

fn s(x: &str) -> String {
    x.to_string()
}

fn unary(op: &str, arg: JsExpr) -> JsExpr {
    JsExpr::Unary(s(op), Box::new(arg))
}

#[test]
fn keyword_unary_operators_keep_a_space() {
    let mut errors = Vec::new();
    assert_eq!(format_jsx_expr(&unary("typeof", JsExpr::Ident(s("x"))), &mut errors), "typeof x");
    assert_eq!(format_jsx_expr(&unary("void", JsExpr::Ident(s("x"))), &mut errors), "void x");
    assert_eq!(format_jsx_expr(&unary("delete", JsExpr::Ident(s("x"))), &mut errors), "delete x");
    assert_eq!(format_jsx_expr(&unary("!", JsExpr::Ident(s("x"))), &mut errors), "!x");
    assert_eq!(format_jsx_expr(&unary("-", JsExpr::Ident(s("x"))), &mut errors), "-x");
    assert!(errors.is_empty());
}

#[test]
fn api_index_file_nests_like_pages() {
    assert_eq!(api_file_to_route("api/billing/Index.ts"), "/api/billing");
    assert_eq!(api_file_to_route("api/Index.ts"), "/api");
    assert_eq!(api_file_to_route("api/billing/charge.ts"), "/api/billing/charge");
}

fn component(name: &str, tree: JsxNode) -> ComponentFile {
    let mut c = ComponentFile::new(format!("{}.tsx", name));
    c.exports.push(ExportInfo { name: s(name), kind: ExportKind::NamedFunction, line: 1, column: 0 });
    c.render_tree = Some(tree);
    c
}

fn div(children: Vec<JsxNode>) -> JsxNode {
    JsxNode::Element { tag: s("div"), attrs: vec![], children, is_hydrate_root: false, is_component: false }
}

#[test]
fn derived_computed_module_imports_what_it_calls() {
    let mut c = component("DerivedTest", div(vec![JsxNode::Expr(s("doubled.value"))]));
    c.signals.push(SignalDecl { name: s("count"), kind: SignalKind::Signal, initial_value: s("5") });
    c.derived_consts.push(s("const doubled = count.value * 2;"));
    let reads = vec![SignalRead {
        expr: s("doubled.value"),
        signal_names: vec![s("count"), s("doubled")],
        props_param: s("props"),
        reads: true,
    }];
    let js = generate(&c, &Vec::new(), &reads).unwrap();
    assert!(js.starts_with("import { signal, computed, bind } from '@marisjs/runtime';\n"));
    assert!(js.contains("const doubled = computed(() => (count.value * 2));"));
    assert!(js.contains("bind(() =>"));
}

#[test]
fn refused_component_call_writes_and_counts_nothing() {
    let attrs = vec![JsxAttr { name: s("label"), value: JsxAttrValue::Expr(s("label.value")), contains_env_call: false }];
    let mut out = s("before\n");
    let mut counter = AtomicCounter { n: 3 };
    let r = gen_component_call("Child", &attrs, &mut out, &mut counter, 1, &vec![s("label")]);
    assert!(r.unwrap_err().starts_with("PROP_UNWRAPPED_SIGNAL"));
    assert_eq!(out, "before\n");
    assert_eq!(counter.n, 3);
}

#[test]
fn html_escape_then_unescape_gives_back_the_text() {
    for text in ["<p class='a'>\"hi\" > 1</p>", "plain", "", "<<>>''\"\""] {
        assert_eq!(unescape_html(&html_escape(text)), text);
    }
}

#[test]
fn normalizing_twice_is_normalizing_once() {
    let once = normalize_path("pages/Docs/Api/../../components/Widget.mjs");
    assert_eq!(once, "pages/components/Widget.mjs");
    assert_eq!(normalize_path(&once), once);
    assert_eq!(normalize_path("./a//b/."), "a/b");
    assert_eq!(normalize_path("../.."), "");
    assert_eq!(normalize_path(&normalize_path("../..")), "");
}

#[test]
fn css_walk_only_adds_and_skips_what_it_saw() {
    let meta = vec![
        (
            s("pages/index.tsx"),
            ComponentMeta {
                render_tree: Some(JsxNode::Element {
                    tag: s("Card"),
                    attrs: vec![],
                    children: vec![],
                    is_hydrate_root: false,
                    is_component: true,
                }),
                imports: vec![ImportInfo {
                    source: s("../components/Card"),
                    imported_names: vec![s("Card")],
                    line: 1,
                    column: 0,
                    is_css: false,
                }],
                css_imports: vec![s("./page.css")],
            },
        ),
        (
            s("components/Card.tsx"),
            ComponentMeta { render_tree: None, imports: vec![], css_imports: vec![s("./card.css"), s("../pages/page.css")] },
        ),
    ];
    let mut closure = PageCssClosure::new();
    let mut seen = Vec::new();
    collect_page_css_closure("pages/index.tsx", &meta, &mut closure, &mut seen);
    assert_eq!(closure.css_files, vec![s("pages/page.css"), s("components/card.css")]);
    assert_eq!(closure.components, vec![s("pages/index.tsx"), s("components/Card.tsx")]);
    assert_eq!(seen, closure.components);
    let before = (closure.css_files.clone(), closure.components.clone(), seen.clone());
    collect_page_css_closure("pages/index.tsx", &meta, &mut closure, &mut seen);
    assert_eq!((closure.css_files.clone(), closure.components.clone(), seen.clone()), before);
}

#[test]
fn env_and_middleware_are_never_copied() {
    assert!(copies_asset("assets/logo.png"));
    assert!(!copies_asset(".env"));
    assert!(!copies_asset("sub/.env"));
    assert!(!copies_asset("middleware.ts"));
    assert!(copies_asset("notes/middleware.ts.bak"));
}

#[test]
fn middleware_envelope_is_read() {
    let text = r#"{"kind":"respond","status":401,"headers":[["X-A","1"],["bad"],["n",2]],"body":"bm8="}"#;
    match middleware_from_report(text) {
        MiddlewareOutcome::Respond { status, headers, body_bytes } => {
            assert_eq!(status, 401);
            assert_eq!(headers, vec![(s("X-A"), s("1"))]);
            assert_eq!(body_bytes, b"no".to_vec());
        }
        _ => panic!("expected a response"),
    }
    assert!(matches!(middleware_from_report("not json"), MiddlewareOutcome::Error));
    match middleware_from_report(r#"{"kind":"redirect"}"#) {
        MiddlewareOutcome::Redirect { url, status } => {
            assert_eq!(url, "/");
            assert_eq!(status, 302);
        }
        _ => panic!("expected a redirect"),
    }
    assert!(matches!(middleware_from_report(r#"{"kind":"next"}"#), MiddlewareOutcome::Pass));
}

#[test]
fn api_report_is_relayed() {
    let (head, body) = api_relay(b"garbage");
    assert_eq!(head, "HTTP/1.1 500 Internal Server Error\r\nAccess-Control-Allow-Origin: *\r\nContent-Length: 0\r\n\r\n");
    assert!(body.is_empty());
    let (head, body) = api_relay(br#"{"status":201,"headers":[["Set-Cookie","a=1"],["X","a\nb"]],"body":"b2s="}"#);
    assert_eq!(
        head,
        "HTTP/1.1 201 Created\r\nAccess-Control-Allow-Origin: *\r\nSet-Cookie: a=1\r\nX: a\nb\r\nContent-Length: 2\r\n\r\n"
    );
    assert_eq!(body, b"ok".to_vec());
}

#[test]
fn prerender_output_is_read() {
    assert_eq!(
        prerender_from_stdout("  {\"html\":\"<p>x</p>\",\"head\":\"<title>t</title>\"}\n"),
        (s("<p>x</p>"), Some(s("<title>t</title>")))
    );
    assert_eq!(prerender_from_stdout("\"<b>\"\n"), (s("<b>"), None));
    assert_eq!(prerender_from_stdout("plain\n"), (s("plain"), None));
    assert_eq!(prerender_from_stdout("  \n"), (s(""), None));
}

#[test]
fn first_directive_before_code_wins() {
    let mut file = ComponentFile::new(s("a.tsx"));
    let comments = vec![
        SourceComment { pos: 0, text: s(" @runsOn server"), line: 1, column: 0 },
        SourceComment { pos: 20, text: s(" @runsOn client"), line: 2, column: 0 },
        SourceComment { pos: 60, text: s(" @runsOn api"), line: 5, column: 0 },
    ];
    note_runs_on_comments(&mut file, &comments, Some(40));
    assert_eq!(file.runs_on, Some(RunsOn::Server));
    assert_eq!(file.runs_on_count, 2);
    assert_eq!((file.runs_on_line, file.runs_on_column), (1, 0));
}

#[test]
fn sources_are_classified() {
    assert_eq!(classify_source("api/items.ts", &None), (RunsOn::Api, true));
    assert_eq!(classify_source("pages/a.tsx", &Some(RunsOn::Server)), (RunsOn::Server, true));
    assert_eq!(classify_source("pages/a.tsx", &None), (RunsOn::Client, false));
}

#[test]
fn module_build_step() {
    let c = component("Hello", div(vec![JsxNode::Text(s("hi"))]));
    let expected = generate(&c, &Vec::new(), &Vec::new()).unwrap();
    let (diags, out) = build_module_output("dist", "components/Hello.tsx", c, vec![], &Vec::new(), &Vec::new(), &Vec::new(), &Vec::new());
    assert!(diags.is_empty());
    let built = out.unwrap();
    assert_eq!(built.out_path, "dist/components/Hello.mjs");
    assert_eq!(built.text, expected);
    assert!(built.api_route.is_none() && built.page_route.is_none());
    assert!(built.meta.is_some());

    let c = component("Bad", div(vec![]));
    let error = Diagnostic {
        line: Some(1),
        column: Some(0),
        code: s("X"),
        message: s("m"),
        fix_hint: s("h"),
        is_warning: false,
    };
    let (diags, out) = build_module_output("dist", "pages/bad.tsx", c, vec![error], &Vec::new(), &Vec::new(), &Vec::new(), &Vec::new());
    assert_eq!(diags.len(), 1);
    assert_eq!(out.err().unwrap(), "validation failed in pages/bad.tsx: 1 error(s)");

    let mut c = component("Client", div(vec![]));
    c.imports.push(ImportInfo {
        source: s("../components/Secret.tsx"),
        imported_names: vec![s("Secret")],
        line: 3,
        column: 0,
        is_css: false,
    });
    let table = vec![(s("components/Secret.tsx"), RunsOn::Server)];
    let (diags, out) = build_module_output("dist", "pages/Index.tsx", c, vec![], &Vec::new(), &table, &Vec::new(), &Vec::new());
    assert!(diags.is_empty());
    assert!(out.err().unwrap().contains("CLIENT_IMPORTS_SERVER"));
}

#[test]
fn merged_snapshot_keeps_one_value_per_key() {
    let mut env = vec![(s("A"), s("process"))];
    merge_env(&mut env, vec![(s("B"), s("1")), (s("A"), s("file")), (s("B"), s("2"))]);
    assert_eq!(env, vec![(s("A"), s("process")), (s("B"), s("1"))]);
}

#[test]
fn on_click_is_an_event() {
    assert_eq!(is_event_attr("onClick"), Some(s("click")));
    assert_eq!(is_event_attr("onclick"), None);
}

#[test]
fn routes_manifest_is_read() {
    let text = r#"{"version":1,"routes":[{"path":"/","file":"index.html"},{"path":"/a"},{"path":"/docs","file":"docs/index.html"}],
        "apiRoutes":[{"path":"/api/items","file":"_server/api/items.mjs","methods":["GET",3,"POST"]},{"file":"x"}],
        "middleware":{"file":"_server/middleware.mjs"}}"#;
    let routes = manifest_routes(text);
    assert_eq!(routes.len(), 2);
    assert!(routes.contains(&(s("/"), s("index.html"))));
    assert!(routes.contains(&(s("/docs"), s("docs/index.html"))));
    let apis = manifest_api_routes(text);
    assert_eq!(apis.len(), 1);
    assert_eq!(apis[0].path, "/api/items");
    assert_eq!(apis[0].methods, vec![s("GET"), s("POST")]);
    assert_eq!(manifest_middleware(text), Some(s("_server/middleware.mjs")));
    assert_eq!(manifest_routes(""), vec![(s("/"), s("index.html"))]);
    assert!(manifest_api_routes("").is_empty());
    assert_eq!(manifest_middleware("{}"), None);
    let flat = manifest_routes(r#"{"/b":"b.html","/a":"a.html","/n":1}"#);
    assert_eq!(flat.len(), 2);
    assert!(flat.contains(&(s("/a"), s("a.html"))));
}
