//! Queries over render trees: hydration islands, child components, style
//! expressions, reactivity and size.

use vstd::prelude::*;
use crate::ast::{ImportInfo, JsxAttr, JsxAttrValue, JsxNode};
use crate::codegen::{SignalRead, import_source_of, is_reactive_expr, reads_signal, resolve_import_source};
use crate::text::{str_eq, views};

verus! {

/// Hydration-root tags in pre-order, each recorded once (first occurrence),
/// appended to `acc`.
pub open spec fn hydrate_acc(node: JsxNode, acc: Seq<Seq<char>>) -> Seq<Seq<char>>
    decreases node,
{
    match node {
        JsxNode::Element { tag, is_hydrate_root, children, .. } => {
            let acc1 = if is_hydrate_root && !acc.contains(tag@) { acc.push(tag@) } else { acc };
            hydrate_acc_list(children@, acc1)
        },
        JsxNode::Conditional { cons, alt, .. } => hydrate_acc(*alt, hydrate_acc(*cons, acc)),
        JsxNode::ForEach { body, .. } => hydrate_acc(*body, acc),
        _ => acc,
    }
}

pub open spec fn hydrate_acc_list(nodes: Seq<JsxNode>, acc: Seq<Seq<char>>) -> Seq<Seq<char>>
    decreases nodes,
{
    if nodes.len() == 0 {
        acc
    } else {
        hydrate_acc(nodes.last(), hydrate_acc_list(nodes.drop_last(), acc))
    }
}

fn vec_has(names: &Vec<String>, tag: &str) -> (r: bool)
    ensures
        r == views(names@).contains(tag@),
{
    for i in 0..names.len()
        invariant
            forall|k: int| 0 <= k < i ==> names@[k]@ != tag@,
    {
        if str_eq(names[i].as_str(), tag) {
            assert(views(names@)[i as int] == tag@);
            return true;
        }
    }
    assert(!views(names@).contains(tag@)) by {
        if views(names@).contains(tag@) {
            let k = choose|k: int| 0 <= k < views(names@).len() && views(names@)[k] == tag@;
            assert(names@[k]@ == tag@);
        }
    }
    false
}

#[verifier::loop_isolation(false)]
pub fn collect_hydrate(node: &JsxNode, names: &mut Vec<String>)
    ensures
        views(final(names)@) == hydrate_acc(*node, views(old(names)@)),
    decreases node,
{
    match node {
        JsxNode::Element { tag, is_hydrate_root, children, .. } => {
            if *is_hydrate_root && !vec_has(names, tag.as_str()) {
                let ghost before = names@;
                names.push(tag.clone());
                assert(views(names@) =~= views(before).push(tag@));
            }
            let ghost acc1 = views(names@);
            for i in 0..children.len()
                invariant
                    views(names@) == hydrate_acc_list(children@.take(i as int), acc1),
            {
                assert(children@.take(i + 1).drop_last() =~= children@.take(i as int));
                proof {
                    assert(decreases_to!(*node => children@[i as int]));
                }
                collect_hydrate(&children[i], names);
            }
            assert(children@.take(children@.len() as int) =~= children@);
        },
        JsxNode::Conditional { cons, alt, .. } => {
            collect_hydrate(cons, names);
            collect_hydrate(alt, names);
        },
        JsxNode::ForEach { body, .. } => {
            collect_hydrate(body, names);
        },
        _ => {},
    }
}

/// The distinct hydration-island component names of a render tree, in
/// first-occurrence pre-order.
pub fn collect_hydrate_roots(node: &JsxNode) -> (r: Vec<String>)
    ensures
        views(r@) == hydrate_acc(*node, seq![]),
{
    let mut names: Vec<String> = Vec::new();
    assert(views(names@) =~= Seq::<Seq<char>>::empty());
    collect_hydrate(node, &mut names);
    names
}

/// Component tags (capitalized elements) in pre-order, duplicates kept,
/// appended to `acc`.
pub open spec fn tags_acc(node: JsxNode, acc: Seq<Seq<char>>) -> Seq<Seq<char>>
    decreases node,
{
    match node {
        JsxNode::Element { tag, is_component, children, .. } => {
            let acc1 = if is_component { acc.push(tag@) } else { acc };
            tags_acc_list(children@, acc1)
        },
        JsxNode::Conditional { cons, alt, .. } => tags_acc(*alt, tags_acc(*cons, acc)),
        JsxNode::ForEach { body, .. } => tags_acc(*body, acc),
        _ => acc,
    }
}

pub open spec fn tags_acc_list(nodes: Seq<JsxNode>, acc: Seq<Seq<char>>) -> Seq<Seq<char>>
    decreases nodes,
{
    if nodes.len() == 0 {
        acc
    } else {
        tags_acc(nodes.last(), tags_acc_list(nodes.drop_last(), acc))
    }
}

#[verifier::loop_isolation(false)]
pub fn collect_tags(node: &JsxNode, names: &mut Vec<String>)
    ensures
        views(final(names)@) == tags_acc(*node, views(old(names)@)),
    decreases node,
{
    match node {
        JsxNode::Element { tag, is_component, children, .. } => {
            if *is_component {
                let ghost before = names@;
                names.push(tag.clone());
                assert(views(names@) =~= views(before).push(tag@));
            }
            let ghost acc1 = views(names@);
            for i in 0..children.len()
                invariant
                    views(names@) == tags_acc_list(children@.take(i as int), acc1),
            {
                assert(children@.take(i + 1).drop_last() =~= children@.take(i as int));
                proof {
                    assert(decreases_to!(*node => children@[i as int]));
                }
                collect_tags(&children[i], names);
            }
            assert(children@.take(children@.len() as int) =~= children@);
        },
        JsxNode::Conditional { cons, alt, .. } => {
            collect_tags(cons, names);
            collect_tags(alt, names);
        },
        JsxNode::ForEach { body, .. } => {
            collect_tags(body, names);
        },
        _ => {},
    }
}

/// Every component tag used in a render tree (pre-order, duplicates kept).
pub fn collect_component_tags(node: &JsxNode) -> (r: Vec<String>)
    ensures
        views(r@) == tags_acc(*node, seq![]),
{
    let mut names: Vec<String> = Vec::new();
    assert(views(names@) =~= Seq::<Seq<char>>::empty());
    collect_tags(node, &mut names);
    names
}

/// Every child component tag rendered by a tree (pre-order, duplicates
/// kept).
pub fn collect_child_component_tags(node: &JsxNode) -> (r: Vec<String>)
    ensures
        views(r@) == tags_acc(*node, seq![]),
{
    collect_component_tags(node)
}

/// The imports a generated module needs for the components it renders:
/// each distinct tag once, in first-use order, paired with its compiled
/// module; tags no import brings in are skipped.
pub open spec fn component_imports(names: Seq<Seq<char>>, imports: Seq<ImportInfo>) -> Seq<
    (Seq<char>, Seq<char>),
>
    decreases names.len(),
{
    if names.len() == 0 {
        seq![]
    } else {
        let prev = component_imports(names.drop_last(), imports);
        let n = names.last();
        if names.drop_last().contains(n) {
            prev
        } else {
            match import_source_of(n, imports) {
                Some(src) => prev.push((n, src)),
                None => prev,
            }
        }
    }
}

pub open spec fn pair_views(v: Seq<(String, String)>) -> Seq<(Seq<char>, Seq<char>)> {
    v.map_values(|p: (String, String)| (p.0@, p.1@))
}

pub fn collect_component_imports(node: &JsxNode, file_imports: &Vec<ImportInfo>) -> (r: Vec<
    (String, String),
>)
    ensures
        pair_views(r@) == component_imports(tags_acc(*node, seq![]), file_imports@),
{
    let names = collect_component_tags(node);
    let mut result: Vec<(String, String)> = Vec::new();
    let mut seen: Vec<String> = Vec::new();
    for i in 0..names.len()
        invariant
            views(seen@) == views(names@).take(i as int),
            pair_views(result@) == component_imports(views(names@).take(i as int), file_imports@),
    {
        let ghost prefix = views(names@).take(i as int);
        assert(views(names@).take(i + 1).drop_last() =~= prefix);
        assert(views(names@).take(i + 1).last() == names@[i as int]@);
        let name = &names[i];
        let dup = vec_has(&seen, name.as_str());
        let ghost before_seen = seen@;
        seen.push(name.clone());
        assert(views(seen@) =~= views(names@).take(i + 1));
        if !dup {
            if let Some(source) = resolve_import_source(name.as_str(), file_imports) {
                let ghost before = result@;
                result.push((name.clone(), source));
                assert(pair_views(result@) =~= pair_views(before).push((name@, source@)));
            }
        }
    }
    assert(views(names@).take(names@.len() as int) =~= views(names@));
    result
}

/// Some child is a conditional or a list (directly or below elements).
pub open spec fn has_dynamic(node: JsxNode) -> bool
    decreases node,
{
    match node {
        JsxNode::Conditional { .. } | JsxNode::ForEach { .. } => true,
        JsxNode::Element { children, .. } => has_dynamic_list(children@),
        _ => false,
    }
}

pub open spec fn has_dynamic_list(nodes: Seq<JsxNode>) -> bool
    decreases nodes,
{
    nodes.len() > 0 && (has_dynamic_list(nodes.drop_last()) || has_dynamic(nodes.last()))
}

#[verifier::loop_isolation(false)]
pub fn has_for_each_or_conditional(node: &JsxNode) -> (r: bool)
    ensures
        r == has_dynamic(*node),
    decreases node,
{
    match node {
        JsxNode::Conditional { .. } | JsxNode::ForEach { .. } => true,
        JsxNode::Element { children, .. } => {
            for i in 0..children.len()
                invariant
                    !has_dynamic_list(children@.take(i as int)),
            {
                assert(children@.take(i + 1).drop_last() =~= children@.take(i as int));
                proof {
                    assert(decreases_to!(*node => children@[i as int]));
                }
                if has_for_each_or_conditional(&children[i]) {
                    assert(has_dynamic_list(children@.take(i + 1)));
                    proof { lemma_dynamic_prefix(children@, i as int + 1); }
                    return true;
                }
            }
            assert(children@.take(children@.len() as int) =~= children@);
            false
        },
        _ => false,
    }
}

proof fn lemma_dynamic_prefix(nodes: Seq<JsxNode>, n: int)
    requires
        0 <= n <= nodes.len(),
        has_dynamic_list(nodes.take(n)),
    ensures
        has_dynamic_list(nodes),
    decreases nodes.len() - n,
{
    if n < nodes.len() {
        assert(nodes.take(n + 1).drop_last() =~= nodes.take(n));
        lemma_dynamic_prefix(nodes, n + 1);
    } else {
        assert(nodes.take(n) =~= nodes);
    }
}

/// A DOM element (not a component or island) carries `style={expr}`.
pub open spec fn has_style_expr_attr(attrs: Seq<JsxAttr>) -> bool {
    exists|i: int|
        0 <= i < attrs.len() && attrs[i].name@ == "style"@ && attrs[i].value is Expr
}

pub open spec fn style_expr(node: JsxNode) -> bool
    decreases node,
{
    match node {
        JsxNode::Element { attrs, children, is_component, is_hydrate_root, .. } => {
            (!is_component && !is_hydrate_root && has_style_expr_attr(attrs@)) || style_expr_list(
                children@,
            )
        },
        JsxNode::Conditional { cons, alt, .. } => style_expr(*cons) || style_expr(*alt),
        JsxNode::ForEach { body, .. } => style_expr(*body),
        _ => false,
    }
}

pub open spec fn style_expr_list(nodes: Seq<JsxNode>) -> bool
    decreases nodes,
{
    nodes.len() > 0 && (style_expr_list(nodes.drop_last()) || style_expr(nodes.last()))
}

proof fn lemma_style_prefix(nodes: Seq<JsxNode>, n: int)
    requires
        0 <= n <= nodes.len(),
        style_expr_list(nodes.take(n)),
    ensures
        style_expr_list(nodes),
    decreases nodes.len() - n,
{
    if n < nodes.len() {
        assert(nodes.take(n + 1).drop_last() =~= nodes.take(n));
        lemma_style_prefix(nodes, n + 1);
    } else {
        assert(nodes.take(n) =~= nodes);
    }
}

fn attrs_have_style_expr(attrs: &Vec<JsxAttr>) -> (r: bool)
    ensures
        r == has_style_expr_attr(attrs@),
{
    for i in 0..attrs.len()
        invariant
            forall|k: int|
                0 <= k < i ==> !(attrs@[k].name@ == "style"@ && attrs@[k].value is Expr),
    {
        let is_expr = match &attrs[i].value {
            JsxAttrValue::Expr(_) => true,
            JsxAttrValue::String(_) => false,
        };
        if is_expr && str_eq(attrs[i].name.as_str(), "style") {
            return true;
        }
    }
    false
}

/// The tree needs the runtime `styleString` serializer.
#[verifier::loop_isolation(false)]
pub fn tree_has_style_expr(node: &JsxNode) -> (r: bool)
    ensures
        r == style_expr(*node),
    decreases node,
{
    match node {
        JsxNode::Element { attrs, children, is_component, is_hydrate_root, .. } => {
            if !*is_component && !*is_hydrate_root && attrs_have_style_expr(attrs) {
                return true;
            }
            for i in 0..children.len()
                invariant
                    !style_expr_list(children@.take(i as int)),
            {
                assert(children@.take(i + 1).drop_last() =~= children@.take(i as int));
                proof {
                    assert(decreases_to!(*node => children@[i as int]));
                }
                if tree_has_style_expr(&children[i]) {
                    proof { lemma_style_prefix(children@, i as int + 1); }
                    return true;
                }
            }
            assert(children@.take(children@.len() as int) =~= children@);
            false
        },
        JsxNode::Conditional { cons, alt, .. } => tree_has_style_expr(cons) || tree_has_style_expr(
            alt,
        ),
        JsxNode::ForEach { body, .. } => tree_has_style_expr(body),
        _ => false,
    }
}

/// Some expression of the tree (text expression, conditional test, list
/// source, expression attribute) reads a signal, per the answers table.
pub open spec fn reads_tree(
    node: JsxNode,
    names: Seq<Seq<char>>,
    props: Seq<char>,
    table: Seq<SignalRead>,
) -> bool
    decreases node,
{
    match node {
        JsxNode::Expr(text) => reads_signal(table, text@, names, props),
        JsxNode::Conditional { test, .. } => reads_signal(table, test@, names, props),
        JsxNode::ForEach { each, .. } => reads_signal(table, each@, names, props),
        JsxNode::Element { children, attrs, .. } => reads_list(children@, names, props, table)
            || reads_attrs(attrs@, names, props, table),
        _ => false,
    }
}

pub open spec fn reads_list(
    nodes: Seq<JsxNode>,
    names: Seq<Seq<char>>,
    props: Seq<char>,
    table: Seq<SignalRead>,
) -> bool
    decreases nodes,
{
    nodes.len() > 0 && (reads_list(nodes.drop_last(), names, props, table) || reads_tree(
        nodes.last(),
        names,
        props,
        table,
    ))
}

/// An expression-valued attribute that reads a signal.
pub open spec fn attr_reads(
    a: JsxAttr,
    names: Seq<Seq<char>>,
    props: Seq<char>,
    table: Seq<SignalRead>,
) -> bool {
    match a.value {
        JsxAttrValue::Expr(e) => reads_signal(table, e@, names, props),
        JsxAttrValue::String(_) => false,
    }
}

pub open spec fn reads_attrs(
    attrs: Seq<JsxAttr>,
    names: Seq<Seq<char>>,
    props: Seq<char>,
    table: Seq<SignalRead>,
) -> bool {
    exists|i: int| 0 <= i < attrs.len() && #[trigger] attr_reads(attrs[i], names, props, table)
}

proof fn lemma_reads_prefix(
    nodes: Seq<JsxNode>,
    n: int,
    names: Seq<Seq<char>>,
    props: Seq<char>,
    table: Seq<SignalRead>,
)
    requires
        0 <= n <= nodes.len(),
        reads_list(nodes.take(n), names, props, table),
    ensures
        reads_list(nodes, names, props, table),
    decreases nodes.len() - n,
{
    if n < nodes.len() {
        assert(nodes.take(n + 1).drop_last() =~= nodes.take(n));
        lemma_reads_prefix(nodes, n + 1, names, props, table);
    } else {
        assert(nodes.take(n) =~= nodes);
    }
}

#[verifier::loop_isolation(false)]
pub fn tree_reads_signal(
    node: &JsxNode,
    signal_names: &Vec<String>,
    props_param: &str,
    table: &Vec<SignalRead>,
) -> (r: bool)
    ensures
        r == reads_tree(*node, views(signal_names@), props_param@, table@),
    decreases node,
{
    match node {
        JsxNode::Expr(text) => is_reactive_expr(text.as_str(), signal_names, props_param, table),
        JsxNode::Conditional { test, .. } => is_reactive_expr(
            test.as_str(),
            signal_names,
            props_param,
            table,
        ),
        JsxNode::ForEach { each, .. } => is_reactive_expr(
            each.as_str(),
            signal_names,
            props_param,
            table,
        ),
        JsxNode::Element { children, attrs, .. } => {
            for i in 0..children.len()
                invariant
                    !reads_list(children@.take(i as int), views(signal_names@), props_param@, table@),
            {
                assert(children@.take(i + 1).drop_last() =~= children@.take(i as int));
                proof {
                    assert(decreases_to!(*node => children@[i as int]));
                }
                if tree_reads_signal(&children[i], signal_names, props_param, table) {
                    proof {
                        lemma_reads_prefix(
                            children@,
                            i as int + 1,
                            views(signal_names@),
                            props_param@,
                            table@,
                        );
                    }
                    return true;
                }
            }
            assert(children@.take(children@.len() as int) =~= children@);
            for i in 0..attrs.len()
                invariant
                    forall|k: int|
                        0 <= k < i ==> !#[trigger] attr_reads(
                            attrs@[k],
                            views(signal_names@),
                            props_param@,
                            table@,
                        ),
            {
                if let JsxAttrValue::Expr(e) = &attrs[i].value {
                    if is_reactive_expr(e.as_str(), signal_names, props_param, table) {
                        assert(attr_reads(attrs@[i as int], views(signal_names@), props_param@, table@));
                        return true;
                    }
                }
            }
            false
        },
        _ => false,
    }
}

/// Island names are collected once each: the imports and mount loops a
/// page gets never repeat a component.
pub proof fn law_hydrate_roots_distinct(node: JsxNode)
    ensures
        hydrate_acc(node, seq![]).no_duplicates(),
{
    lemma_hydrate_distinct(node, seq![]);
}

proof fn lemma_hydrate_distinct(node: JsxNode, acc: Seq<Seq<char>>)
    requires
        acc.no_duplicates(),
    ensures
        hydrate_acc(node, acc).no_duplicates(),
    decreases node, 1nat,
{
    match node {
        JsxNode::Element { tag, is_hydrate_root, children, .. } => {
            let acc1 = if is_hydrate_root && !acc.contains(tag@) {
                acc.push(tag@)
            } else {
                acc
            };
            assert(acc1.no_duplicates()) by {
                if is_hydrate_root && !acc.contains(tag@) {
                    assert forall|i: int, j: int|
                        0 <= i < acc1.len() && 0 <= j < acc1.len() && i != j implies acc1[i]
                        != acc1[j] by {
                        if i == acc.len() {
                            assert(acc1[j] == acc[j]);
                        } else if j == acc.len() {
                            assert(acc1[i] == acc[i]);
                        }
                    }
                }
            }
            assert(children@.take(children@.len() as int) =~= children@);
            lemma_hydrate_list_distinct(node, children@, acc1);
        },
        JsxNode::Conditional { cons, alt, .. } => {
            lemma_hydrate_distinct(*cons, acc);
            lemma_hydrate_distinct(*alt, hydrate_acc(*cons, acc));
        },
        JsxNode::ForEach { body, .. } => {
            lemma_hydrate_distinct(*body, acc);
        },
        _ => {},
    }
}

proof fn lemma_hydrate_list_distinct(parent: JsxNode, nodes: Seq<JsxNode>, acc: Seq<Seq<char>>)
    requires
        acc.no_duplicates(),
        parent matches JsxNode::Element { children, .. } && nodes.len() <= children@.len()
            && nodes == children@.take(nodes.len() as int),
    ensures
        hydrate_acc_list(nodes, acc).no_duplicates(),
    decreases parent, 0nat, nodes.len(),
{
    if nodes.len() > 0 {
        let children = parent->children;
        assert(nodes.drop_last() == children@.take(nodes.len() - 1));
        lemma_hydrate_list_distinct(parent, nodes.drop_last(), acc);
        assert(nodes.last() == children@[nodes.len() - 1]);
        assert(decreases_to!(parent => children@[nodes.len() - 1]));
        lemma_hydrate_distinct(nodes.last(), hydrate_acc_list(nodes.drop_last(), acc));
    }
}

/// Each component is imported once: the import lines of a module name
/// distinct components.
pub proof fn law_component_imports_distinct(names: Seq<Seq<char>>, imports: Seq<ImportInfo>)
    ensures
        component_imports(names, imports).map_values(|p: (Seq<char>, Seq<char>)| p.0).no_duplicates(),
        forall|i: int|
            0 <= i < component_imports(names, imports).len() ==> names.contains(
                #[trigger] component_imports(names, imports)[i].0,
            ),
    decreases names.len(),
{
    if names.len() > 0 {
        let prev = component_imports(names.drop_last(), imports);
        law_component_imports_distinct(names.drop_last(), imports);
        let n = names.last();
        assert forall|i: int| 0 <= i < prev.len() implies names.contains(#[trigger] prev[i].0) by {
            let k = choose|k: int| 0 <= k < names.drop_last().len() && names.drop_last()[k] == prev[i].0;
            assert(names[k] == prev[i].0);
        }
        if !names.drop_last().contains(n) {
            if let Some(src) = import_source_of(n, imports) {
                let cur = prev.push((n, src));
                let pm = prev.map_values(|p: (Seq<char>, Seq<char>)| p.0);
                let cm = cur.map_values(|p: (Seq<char>, Seq<char>)| p.0);
                assert(cm =~= pm.push(n));
                assert forall|i: int| 0 <= i < pm.len() implies pm[i] != n by {
                    assert(names.drop_last().contains(prev[i].0));
                }
                assert forall|i: int, j: int|
                    0 <= i < cm.len() && 0 <= j < cm.len() && i != j implies cm[i] != cm[j] by {
                    if i < pm.len() && j < pm.len() {
                        assert(cm[i] == pm[i] && cm[j] == pm[j]);
                    } else if i == pm.len() {
                        assert(cm[j] == pm[j]);
                    } else {
                        assert(cm[i] == pm[i]);
                    }
                }
                assert forall|i: int| 0 <= i < cur.len() implies names.contains(#[trigger] cur[i].0) by {
                    if i < prev.len() {
                        assert(cur[i] == prev[i]);
                    } else {
                        assert(names[names.len() - 1] == n);
                    }
                }
            }
        }
    }
}

} // verus!
