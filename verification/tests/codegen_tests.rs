use marisjs::api::{emit_env_helper, generate_api, wrap_handler_with_session_context};
use marisjs::ast::{
    ComponentFile, ExportInfo, ExportKind, ImportInfo, JsxAttr, JsxAttrValue, JsxNode, RunsOn,
    SignalDecl, SignalKind,
};
use marisjs::codegen::{
    extract_const_init, html_attr_escape, html_escape, is_reactive_derived_const, SignalRead,
};
use marisjs::generate::{generate, generate_with_server_files, tree_fits_counter};
use marisjs::server::rewrite_server_import;
use marisjs::tree::collect_hydrate_roots;

fn export(name: &str) -> ExportInfo {
    ExportInfo { name: name.to_string(), kind: ExportKind::NamedFunction, line: 1, column: 0 }
}

fn el(tag: &str, attrs: Vec<JsxAttr>, children: Vec<JsxNode>) -> JsxNode {
    JsxNode::Element {
        tag: tag.to_string(),
        attrs,
        children,
        is_hydrate_root: false,
        is_component: false,
    }
}

fn attr(name: &str, value: JsxAttrValue) -> JsxAttr {
    JsxAttr { name: name.to_string(), value, contains_env_call: false }
}

fn component(name: &str, tree: JsxNode) -> ComponentFile {
    let mut c = ComponentFile::new(format!("{}.tsx", name));
    c.exports.push(export(name));
    c.render_tree = Some(tree);
    c
}

fn import(source: &str, names: &[&str]) -> ImportInfo {
    ImportInfo {
        source: source.to_string(),
        imported_names: names.iter().map(|n| n.to_string()).collect(),
        line: 1,
        column: 0,
        is_css: false,
    }
}

#[test]
fn static_client_component() {
    let tree = el(
        "div",
        vec![attr("class", JsxAttrValue::String("x".to_string()))],
        vec![JsxNode::Text("hi".to_string())],
    );
    let c = component("Hello", tree);
    let js = generate(&c, &Vec::new(), &Vec::new()).unwrap();
    assert_eq!(
        js,
        "export function Hello(props) {\n  const el0 = document.createElement('div');\n  el0.setAttribute('class', 'x');\n  el0.textContent = 'hi';\n  return el0;\n}\n"
    );
}

#[test]
fn signal_read_binds_text_content() {
    let tree = el("div", vec![], vec![JsxNode::Expr("count.value".to_string())]);
    let mut c = component("Counter", tree);
    c.signals.push(SignalDecl {
        name: "count".to_string(),
        kind: SignalKind::Signal,
        initial_value: "0".to_string(),
    });
    let reads = vec![SignalRead {
        expr: "count.value".to_string(),
        signal_names: vec!["count".to_string()],
        props_param: "props".to_string(),
        reads: true,
    }];
    let js = generate(&c, &Vec::new(), &reads).unwrap();
    assert_eq!(
        js,
        "import { signal, bind } from '@marisjs/runtime';\n\nexport function Counter(props) {\n  const count = signal(0);\n\n  const el0 = document.createElement('div');\n  bind(() => { el0.textContent = count.value; });\n  el0._signals = { count };\n  return el0;\n}\n"
    );
}

#[test]
fn conditional_builds_both_branches_and_swaps() {
    let tree = JsxNode::Conditional {
        test: "show.value".to_string(),
        cons: Box::new(JsxNode::Text("a".to_string())),
        alt: Box::new(JsxNode::Text("b".to_string())),
    };
    let c = component("Toggle", tree);
    let js = generate(&c, &Vec::new(), &Vec::new()).unwrap();
    assert_eq!(
        js,
        "import { bind } from '@marisjs/runtime';\n\nexport function Toggle(props) {\n    const txt3 = document.createTextNode('a');\n    const txt4 = document.createTextNode('b');\n  const _an0 = document.createComment('');\n  const _fr1 = document.createDocumentFragment();\n  let _cu2 = show.value ? txt3 : txt4;\n  _fr1.appendChild(_cu2);\n  _fr1.appendChild(_an0);\n  bind(() => { const _nx = show.value ? txt3 : txt4; if (_nx !== _cu2) { _cu2.remove(); _an0.parentNode.insertBefore(_nx, _an0); _cu2 = _nx; } });\n  return _fr1;\n}\n"
    );
}

#[test]
fn unwrapped_signal_prop_is_refused() {
    let child = JsxNode::Element {
        tag: "Child".to_string(),
        attrs: vec![attr("label", JsxAttrValue::Expr("label.value".to_string()))],
        children: vec![],
        is_hydrate_root: false,
        is_component: true,
    };
    let mut c = component("Parent", el("div", vec![], vec![child]));
    c.signals.push(SignalDecl {
        name: "label".to_string(),
        kind: SignalKind::Signal,
        initial_value: "'x'".to_string(),
    });
    let err = generate(&c, &Vec::new(), &Vec::new()).unwrap_err();
    assert_eq!(
        err,
        "PROP_UNWRAPPED_SIGNAL: attribute 'label=label.value' on <Child> unwraps signal 'label' at the call site. Pass the signal by reference: <Child label={label}> and read .value inside the child component's bind()."
    );
}

#[test]
fn missing_export_and_tree_are_errors() {
    let c = ComponentFile::new("x.tsx".to_string());
    assert_eq!(generate(&c, &Vec::new(), &Vec::new()).unwrap_err(), "No exported component found");
    let mut d = ComponentFile::new("x.tsx".to_string());
    d.exports.push(export("X"));
    assert_eq!(
        generate(&d, &Vec::new(), &Vec::new()).unwrap_err(),
        "No render tree found in component"
    );
}

#[test]
fn server_component_returns_html_expression() {
    let tree = el("h1", vec![], vec![JsxNode::Text("Hi <b>".to_string())]);
    let mut c = component("Page", tree);
    c.runs_on = Some(RunsOn::Server);
    let js = generate(&c, &Vec::new(), &Vec::new()).unwrap();
    assert_eq!(
        js,
        "export function Page(props) {\n  return (('&lt;h1&gt;') + 'Hi &lt;b&gt;' + '&lt;/h1&gt;');\n}\n"
    );
}

#[test]
fn server_page_with_island_lists_client_bundle() {
    let island = JsxNode::Element {
        tag: "Counter".to_string(),
        attrs: vec![attr("start", JsxAttrValue::Expr("1".to_string()))],
        children: vec![],
        is_hydrate_root: true,
        is_component: true,
    };
    let mut c = component("Index", el("", vec![], vec![island]));
    c.runs_on = Some(RunsOn::Server);
    c.imports.push(import("../components/Counter.tsx", &["Counter"]));
    let js = generate_with_server_files(&c, &Vec::new(), "pages/index.tsx", &Vec::new(), &Vec::new())
        .unwrap();
    assert_eq!(
        js,
        "import { Counter } from '../../components/Counter.mjs';\n\nexport function Index(props) {\n  const _html = ('<div data-hydrate=\"Counter\" data-props=\\'' + JSON.stringify({ start: 1 }) + '\\'></div>');\n  return { html: _html, clientBundles: ['./Counter.js'] };\n}\n"
    );
}

#[test]
fn api_module_emits_handlers_verbatim() {
    let mut c = ComponentFile::new("checkout.ts".to_string());
    c.imports.push(import("./util.ts", &["a", "b"]));
    c.exported_fn_sources.push((
        "GET".to_string(),
        "export function GET(req) { return new Response('ok'); }".to_string(),
    ));
    let js = generate_api(&c, &Vec::new()).unwrap();
    assert_eq!(
        js,
        "import { a, b } from './util.mjs';\n\nexport function GET(req) { return new Response('ok'); }\n"
    );
}

#[test]
fn empty_api_module_is_refused() {
    let c = ComponentFile::new("empty.ts".to_string());
    assert_eq!(generate_api(&c, &Vec::new()).unwrap_err(), "no handlers emitted");
}

#[test]
fn session_wrapper_keeps_the_body() {
    assert_eq!(
        wrap_handler_with_session_context("GET", "export function GET(req) {\n  return 1;\n}"),
        "function __raw_GET(req) {\n  return 1;\n}\n\nexport function GET(...args) {\n  return __sessionAls.run(args[0], () => __raw_GET(...args));\n}\n"
    );
    assert_eq!(
        wrap_handler_with_session_context("POST", "export async function POST(r) { }"),
        "async function __raw_POST(r) { }\n\nexport function POST(...args) {\n  return __sessionAls.run(args[0], () => __raw_POST(...args));\n}\n"
    );
    assert_eq!(wrap_handler_with_session_context("GET", "const x = 1;"), "const x = 1;");
}

#[test]
fn env_helper_bakes_only_referenced_present_keys() {
    let env = vec![
        ("A".to_string(), "1".to_string()),
        ("B".to_string(), "x\"y".to_string()),
        ("SECRET".to_string(), "s".to_string()),
    ];
    let keys = vec!["B".to_string(), "C".to_string(), "A".to_string()];
    assert_eq!(
        emit_env_helper(&env, &keys),
        "const env = (key) => ({ \"B\": \"x\\\"y\", \"A\": \"1\" })[key];\n"
    );
}

#[test]
fn server_import_walks_out_of_server_dir() {
    assert_eq!(rewrite_server_import("pages/index.tsx", "./Widget.mjs", &Vec::new()), "../../pages/Widget.mjs");
    assert_eq!(
        rewrite_server_import("pages/index.tsx", "./Widget.mjs", &vec!["pages/Widget.tsx".to_string()]),
        "./Widget.mjs"
    );
    assert_eq!(rewrite_server_import("pages/index.tsx", "@marisjs/runtime", &Vec::new()), "@marisjs/runtime");
    assert_eq!(rewrite_server_import("", "./x.mjs", &Vec::new()), "./x.mjs");
}

#[test]
fn escapes_and_derived_consts() {
    assert_eq!(html_escape("<a href='x'>&\""), "&lt;a href=&#39;x&#39;&gt;&amp;&quot;");
    assert_eq!(html_attr_escape("a\"b"), "a&quot;b");
    assert_eq!(
        is_reactive_derived_const("const total = count.value * 2;", &vec!["count".to_string()]),
        Some("total".to_string())
    );
    assert_eq!(is_reactive_derived_const("const a b = count.value", &vec!["count".to_string()]), None);
    assert_eq!(extract_const_init("const total = count.value * 2;"), "count.value * 2");
}

#[test]
fn hydrate_roots_are_deduplicated() {
    let island = || JsxNode::Element {
        tag: "Counter".to_string(),
        attrs: vec![],
        children: vec![],
        is_hydrate_root: true,
        is_component: true,
    };
    let tree = el("div", vec![], vec![island(), island()]);
    assert_eq!(collect_hydrate_roots(&tree), vec!["Counter".to_string()]);
    assert!(tree_fits_counter(&tree));
}
