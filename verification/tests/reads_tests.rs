use marisjs::ast::{ComponentFile, ExportInfo, ExportKind, JsxNode, SignalDecl, SignalKind};
use marisjs::reads::{contains_env_call, expr_reads_signal_value, signal_read_table};

fn names(v: &[&str]) -> Vec<String> {
    v.iter().map(|s| s.to_string()).collect()
}

#[test]
fn signal_value_reads_are_found() {
    let count = names(&["count"]);
    assert!(expr_reads_signal_value("count.value", &count, "props"));
    assert!(expr_reads_signal_value("count.value * 2 + 1", &count, "props"));
    assert!(expr_reads_signal_value("format(count.value)", &count, "props"));
    assert!(expr_reads_signal_value("new Foo(count.value)", &count, "props"));
    assert!(expr_reads_signal_value("count['value']", &count, "props"));
    assert!(expr_reads_signal_value("store.list.count.value", &count, "props"));
    assert!(expr_reads_signal_value("props.nested.deep.value", &names(&[]), "props"));
    assert!(expr_reads_signal_value("p.x.value", &names(&[]), "p"));
    assert!(!expr_reads_signal_value("other.value", &count, "props"));
    assert!(!expr_reads_signal_value("count", &count, "props"));
    assert!(!expr_reads_signal_value("count.length", &count, "props"));
}

#[test]
fn unparsable_expression_falls_back_to_text() {
    let count = names(&["count"]);
    assert!(expr_reads_signal_value("count.value +", &count, "props"));
    assert!(!expr_reads_signal_value("count +", &count, "props"));
}

#[test]
fn read_table_asks_declared_then_extended_names() {
    let mut c = ComponentFile::new("D.tsx".to_string());
    c.exports.push(ExportInfo { name: "D".to_string(), kind: ExportKind::NamedFunction, line: 1, column: 0 });
    c.render_tree = Some(JsxNode::Element {
        tag: "div".to_string(),
        attrs: vec![],
        children: vec![JsxNode::Expr("doubled.value".to_string())],
        is_hydrate_root: false,
        is_component: false,
    });
    c.signals.push(SignalDecl { name: "count".to_string(), kind: SignalKind::Signal, initial_value: "1".to_string() });
    c.derived_consts.push("const doubled = count.value * 2;".to_string());
    let table = signal_read_table(&c);
    assert_eq!(table.len(), 2);
    assert_eq!(table[0].expr, "doubled.value");
    assert_eq!(table[0].signal_names, names(&["count"]));
    assert!(!table[0].reads);
    assert_eq!(table[1].signal_names, names(&["count", "doubled"]));
    assert!(table[1].reads);
    assert_eq!(table[1].props_param, "props");
}

#[test]
fn env_calls_are_found_anywhere_in_an_attribute() {
    assert!(contains_env_call("env('API_KEY')"));
    assert!(contains_env_call("{ url: env(\"BASE\") + '/x' }"));
    assert!(contains_env_call("() => format(env('A'))"));
    assert!(!contains_env_call("process.env.A"));
    assert!(!contains_env_call("cfg.env('A')"));
    assert!(!contains_env_call("env("));
}
