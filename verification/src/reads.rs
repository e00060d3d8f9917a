//! Which expressions of a component read a signal's value: the expression
//! text is parsed by swc, and every member access `obj.value` (or
//! `obj["value"]`) anywhere in it is asked whether its object chain reads
//! a signal.

use swc_common::BytePos;
use swc_ecma_parser::{Parser, StringInput, Syntax, TsSyntax};
use vstd::prelude::*;
use crate::ast::{ComponentFile, JsxAttr, JsxAttrValue, JsxNode};
use crate::client::{derived_state, props_param_of, props_param_string, push_derived_consts, signal_names_of, signal_names_vec};
use crate::codegen::SignalRead;
use crate::inspect::name_listed;
use crate::json::{
    JsonView, json_as_array, json_as_object, json_content, json_get, lemma_obj_index, member,
    obj_index, text_member, text_member_of,
};
use crate::text::{chars_of, contains, vec_contains, views};

verus! {

/// What swc's expression parser (TypeScript with JSX) reads from the start
/// of a text (what follows the expression is not looked at), as its syntax
/// tree writes itself with serde (every node an object with its `type`);
/// none when no expression can be read there.
pub uninterp spec fn swc_expr_tree(text: Seq<char>) -> Option<JsonView>;

/// Parses an expression with swc's `Parser::parse_expr` and writes the tree
/// with `serde_json::to_value`; the tree is named, not spelled out.
#[verifier::external_body]
fn parse_expr_tree(text: &str) -> (r: Option<serde_json::Value>)
    ensures
        match r {
            Some(v) => swc_expr_tree(text@) == Some(json_content(v)),
            None => swc_expr_tree(text@) is None,
        },
{
    let syntax = Syntax::Typescript(TsSyntax { tsx: true, ..Default::default() });
    let input = StringInput::new(text, BytePos(0), BytePos(text.len() as u32));
    match Parser::new(syntax, input, None).parse_expr() {
        Ok(e) => serde_json::to_value(&*e).ok(),
        Err(_) => None,
    }
}

/// The node type of a tree node.
pub open spec fn node_type(v: JsonView) -> Option<Seq<char>> {
    text_member(v, "type"@)
}

/// A member property naming `value`: `.value` or `["value"]`.
pub open spec fn value_prop(p: JsonView) -> bool {
    ||| node_type(p) == Some("Identifier"@) && text_member(p, "value"@) == Some("value"@)
    ||| node_type(p) == Some("Computed"@) && match member(p, "expression"@) {
        Some(x) => node_type(x) == Some("StringLiteral"@) && text_member(x, "value"@) == Some("value"@),
        None => false,
    }
}

/// The member under `key` of an object node, by its entries.
pub open spec fn child(es: Seq<(Seq<char>, JsonView)>, key: Seq<char>) -> Option<JsonView> {
    match obj_index(es, key) {
        Some(i) => if 0 <= i < es.len() { Some(es[i].1) } else { None },
        None => None,
    }
}

/// Whether the object chain `e` left of a `.value` reads a signal: down the
/// member accesses to the root identifier, which is the props parameter or
/// a known signal, or whose first member name from the right (kept in
/// `rightmost`) is a known signal; a private name or anything else ends
/// the chain unread.
pub open spec fn chain_tree(
    e: JsonView,
    names: Seq<Seq<char>>,
    props_param: Seq<char>,
    rightmost: Option<Seq<char>>,
) -> bool
    decreases e,
{
    match e {
        JsonView::Obj(es) => if node_type(e) == Some("Identifier"@) {
            match text_member(e, "value"@) {
                Some(id) => id == props_param || names.contains(id) || match rightmost {
                    Some(r) => names.contains(r),
                    None => false,
                },
                None => false,
            }
        } else if node_type(e) == Some("MemberExpression"@) {
            match (child(es, "object"@), member(e, "property"@)) {
                (Some(obj), Some(p)) => {
                    proof {
                        lemma_obj_index(es, "object"@);
                    }
                    if node_type(p) == Some("Identifier"@) && text_member(p, "value"@) is Some {
                        chain_tree(obj, names, props_param,
                            if rightmost is None { text_member(p, "value"@) } else { rightmost })
                    } else if node_type(p) == Some("Computed"@) {
                        let key = match member(p, "expression"@) {
                            Some(x) => if node_type(x) == Some("StringLiteral"@) {
                                text_member(x, "value"@)
                            } else {
                                None
                            },
                            None => None,
                        };
                        chain_tree(obj, names, props_param,
                            if rightmost is None { key } else { rightmost })
                    } else {
                        false
                    }
                },
                _ => false,
            }
        } else {
            false
        },
        _ => false,
    }
}

/// A member access node whose property names `value` and whose object
/// chain reads a signal.
pub open spec fn reads_here(es: Seq<(Seq<char>, JsonView)>, names: Seq<Seq<char>>, props_param: Seq<char>) -> bool {
    let v = JsonView::Obj(es);
    &&& node_type(v) == Some("MemberExpression"@)
    &&& member(v, "property"@) matches Some(p) && value_prop(p)
    &&& member(v, "object"@) matches Some(obj) && chain_tree(obj, names, props_param, None)
}

/// Whether some member access anywhere in the tree `v` reads a signal.
pub open spec fn tree_reads(v: JsonView, names: Seq<Seq<char>>, props_param: Seq<char>) -> bool
    decreases v, 0nat,
{
    match v {
        JsonView::Obj(es) => reads_here(es, names, props_param) || entries_read(es, names, props_param),
        JsonView::Arr(items) => items_read(items, names, props_param),
        _ => false,
    }
}

pub open spec fn entries_read(es: Seq<(Seq<char>, JsonView)>, names: Seq<Seq<char>>, props_param: Seq<char>) -> bool
    decreases es, 1nat,
{
    if es.len() == 0 {
        false
    } else {
        entries_read(es.drop_last(), names, props_param) || tree_reads(es.last().1, names, props_param)
    }
}

pub open spec fn items_read(items: Seq<JsonView>, names: Seq<Seq<char>>, props_param: Seq<char>) -> bool
    decreases items, 1nat,
{
    if items.len() == 0 {
        false
    } else {
        items_read(items.drop_last(), names, props_param) || tree_reads(items.last(), names, props_param)
    }
}


fn node_type_is(v: &serde_json::Value, t: &str) -> (r: bool)
    ensures
        r == (node_type(json_content(*v)) == Some(t@)),
{
    match text_member_of(v, "type") {
        Some(s) => crate::text::str_eq(s.as_str(), t),
        None => false,
    }
}

fn text_is(v: &serde_json::Value, key: &str, t: &str) -> (r: bool)
    ensures
        r == (text_member(json_content(*v), key@) == Some(t@)),
{
    match text_member_of(v, key) {
        Some(s) => crate::text::str_eq(s.as_str(), t),
        None => false,
    }
}

fn is_value_prop(p: &serde_json::Value) -> (r: bool)
    ensures
        r == value_prop(json_content(*p)),
{
    if node_type_is(p, "Identifier") && text_is(p, "value", "value") {
        return true;
    }
    if !node_type_is(p, "Computed") {
        return false;
    }
    match json_get(p, "expression") {
        Some(x) => node_type_is(&x, "StringLiteral") && text_is(&x, "value", "value"),
        None => false,
    }
}

proof fn lemma_child_member(v: JsonView, key: Seq<char>)
    requires
        v is Obj,
    ensures
        child(v->Obj_0, key) == member(v, key),
        member(v, key) matches Some(x) ==> decreases_to!(v => x),
{
    let es = v->Obj_0;
    lemma_obj_index(es, key);
    if obj_index(es, key) is Some {
        let i = obj_index(es, key)->0;
        assert(decreases_to!(v => es));
        assert(decreases_to!(es => es[i]));
        assert(decreases_to!(es[i] => es[i].1));
    }
}

fn chain_walk_tree(e: &serde_json::Value, names: &Vec<String>, props_param: &str, rightmost: Option<String>) -> (r: bool)
    ensures
        r == chain_tree(json_content(*e), views(names@), props_param@, match rightmost {
            Some(s) => Some(s@),
            None => None,
        }),
    decreases json_content(*e),
{
    let ghost jv = json_content(*e);
    if node_type_is(e, "Identifier") {
        assert(jv is Obj) by {
            if !(jv is Obj) {
                assert(member(jv, "type"@) is None);
            }
        }
        return match text_member_of(e, "value") {
            Some(id) => {
                if crate::text::str_eq(id.as_str(), props_param) || name_listed(names, id.as_str()) {
                    true
                } else {
                    match rightmost {
                        Some(r) => name_listed(names, r.as_str()),
                        None => false,
                    }
                }
            },
            None => false,
        };
    }
    if !node_type_is(e, "MemberExpression") {
        return false;
    }
    assert(jv is Obj) by {
        if !(jv is Obj) {
            assert(member(jv, "type"@) is None);
        }
    }
    proof {
        lemma_child_member(jv, "object"@);
    }
    let obj = match json_get(e, "object") {
        Some(o) => o,
        None => {
            return false;
        },
    };
    let p = match json_get(e, "property") {
        Some(p) => p,
        None => {
            return false;
        },
    };
    if node_type_is(&p, "Identifier") {
        match text_member_of(&p, "value") {
            Some(name) => {
                let next = match rightmost {
                    Some(r) => Some(r),
                    None => Some(name),
                };
                return chain_walk_tree(&obj, names, props_param, next);
            },
            None => {},
        }
    }
    if node_type_is(&p, "Computed") {
        let key = match json_get(&p, "expression") {
            Some(x) => if node_type_is(&x, "StringLiteral") {
                text_member_of(&x, "value")
            } else {
                None
            },
            None => None,
        };
        let next = match rightmost {
            Some(r) => Some(r),
            None => key,
        };
        return chain_walk_tree(&obj, names, props_param, next);
    }
    false
}

fn reads_at(v: &serde_json::Value, names: &Vec<String>, props_param: &str) -> (r: bool)
    requires
        json_content(*v) is Obj,
    ensures
        r == reads_here(json_content(*v)->Obj_0, views(names@), props_param@),
{
    assert(JsonView::Obj(json_content(*v)->Obj_0) == json_content(*v));
    if !node_type_is(v, "MemberExpression") {
        return false;
    }
    let p = match json_get(v, "property") {
        Some(p) => p,
        None => {
            return false;
        },
    };
    if !is_value_prop(&p) {
        return false;
    }
    match json_get(v, "object") {
        Some(obj) => chain_walk_tree(&obj, names, props_param, None),
        None => false,
    }
}

fn walk_tree(v: &serde_json::Value, names: &Vec<String>, props_param: &str) -> (r: bool)
    ensures
        r == tree_reads(json_content(*v), views(names@), props_param@),
    decreases json_content(*v),
{
    let ghost jv = json_content(*v);
    match json_as_object(v) {
        Some(es) => {
            let ghost m = jv->Obj_0;
            if reads_at(v, names, props_param) {
                return true;
            }
            let mut i: usize = 0;
            while i < es.len()
                invariant
                    jv == json_content(*v),
                    jv == JsonView::Obj(m),
                    es@.len() == m.len(),
                    forall|a: int| 0 <= a < m.len() ==> json_content((#[trigger] es@[a]).1) == m[a].1,
                    i <= m.len(),
                    !entries_read(m.take(i as int), views(names@), props_param@),
                decreases m.len() - i,
            {
                assert(m.take(i + 1).drop_last() =~= m.take(i as int));
                assert(m.take(i + 1).last() == m[i as int]);
                assert(json_content(es@[i as int].1) == m[i as int].1);
                proof {
                    assert(jv->Obj_0 == m);
                    assert(decreases_to!(jv => jv->Obj_0));
                    assert(decreases_to!(m => m[i as int]));
                    assert(decreases_to!(m[i as int] => m[i as int].1));
                }
                if walk_tree(&es[i].1, names, props_param) {
                    assert(entries_read(m.take(i + 1), views(names@), props_param@));
                    assert(m.take(m.len() as int) =~= m);
                    proof {
                        lemma_entries_prefix(m, i + 1, views(names@), props_param@);
                    }
                    return true;
                }
                i += 1;
            }
            assert(m.take(m.len() as int) =~= m);
            false
        },
        None => match json_as_array(v) {
            Some(items) => {
                let ghost s = jv->Arr_0;
                let mut i: usize = 0;
                while i < items.len()
                    invariant
                        jv == json_content(*v),
                        jv == JsonView::Arr(s),
                        items@.len() == s.len(),
                        forall|a: int| 0 <= a < s.len() ==> json_content(#[trigger] items@[a]) == s[a],
                        i <= s.len(),
                        !items_read(s.take(i as int), views(names@), props_param@),
                    decreases s.len() - i,
                {
                    assert(s.take(i + 1).drop_last() =~= s.take(i as int));
                    assert(s.take(i + 1).last() == s[i as int]);
                    assert(json_content(items@[i as int]) == s[i as int]);
                    proof {
                        assert(jv->Arr_0 == s);
                        assert(decreases_to!(jv => jv->Arr_0));
                        assert(decreases_to!(s => s[i as int]));
                    }
                    if walk_tree(&items[i], names, props_param) {
                        assert(items_read(s.take(i + 1), views(names@), props_param@));
                        proof {
                            lemma_items_prefix(s, i + 1, views(names@), props_param@);
                        }
                        return true;
                    }
                    i += 1;
                }
                assert(s.take(s.len() as int) =~= s);
                false
            },
            None => false,
        },
    }
}

proof fn lemma_entries_prefix(m: Seq<(Seq<char>, JsonView)>, k: int, names: Seq<Seq<char>>, props_param: Seq<char>)
    requires
        0 <= k <= m.len(),
        entries_read(m.take(k), names, props_param),
    ensures
        entries_read(m, names, props_param),
    decreases m.len() - k,
{
    if k < m.len() {
        assert(m.take(k + 1).drop_last() =~= m.take(k));
        lemma_entries_prefix(m, k + 1, names, props_param);
    } else {
        assert(m.take(k) =~= m);
    }
}

proof fn lemma_items_prefix(s: Seq<JsonView>, k: int, names: Seq<Seq<char>>, props_param: Seq<char>)
    requires
        0 <= k <= s.len(),
        items_read(s.take(k), names, props_param),
    ensures
        items_read(s, names, props_param),
    decreases s.len() - k,
{
    if k < s.len() {
        assert(s.take(k + 1).drop_last() =~= s.take(k));
        lemma_items_prefix(s, k + 1, names, props_param);
    } else {
        assert(s.take(k) =~= s);
    }
}

/// Whether an expression of the render tree reads a signal's value (the
/// bindings it sits in are then reactive): when swc parses it, some member
/// access `obj.value` or `obj["value"]` in it has an object chain that
/// reads a signal (see [`chain_tree`]); when it does not parse, whether the
/// text holds `.value` at all.
pub open spec fn expr_reads(expr: Seq<char>, names: Seq<Seq<char>>, props_param: Seq<char>) -> bool {
    match swc_expr_tree(expr) {
        Some(v) => tree_reads(v, names, props_param),
        None => contains(expr, ".value"@),
    }
}

pub fn expr_reads_signal_value(expr: &str, signal_names: &Vec<String>, props_param: &str) -> (r: bool)
    ensures
        r == expr_reads(expr@, views(signal_names@), props_param@),
{
    match parse_expr_tree(expr) {
        Some(v) => walk_tree(&v, signal_names, props_param),
        None => vec_contains(&chars_of(expr), &chars_of(".value")),
    }
}


/// The expression texts of attribute values, in order, after `acc`.
pub open spec fn attr_exprs(attrs: Seq<JsxAttr>, acc: Seq<Seq<char>>) -> Seq<Seq<char>>
    decreases attrs.len(),
{
    if attrs.len() == 0 {
        acc
    } else {
        match attrs.last().value {
            JsxAttrValue::Expr(e) => attr_exprs(attrs.drop_last(), acc).push(e@),
            _ => attr_exprs(attrs.drop_last(), acc),
        }
    }
}

/// Every expression of a render tree, in pre-order: attribute values,
/// expression children, conditional tests, list sources and keys.
pub open spec fn exprs_acc(node: JsxNode, acc: Seq<Seq<char>>) -> Seq<Seq<char>>
    decreases node,
{
    match node {
        JsxNode::Element { attrs, children, .. } => exprs_acc_list(children@, attr_exprs(attrs@, acc)),
        JsxNode::Text(_) => acc,
        JsxNode::Expr(e) => acc.push(e@),
        JsxNode::Conditional { test, cons, alt } => exprs_acc(*alt, exprs_acc(*cons, acc.push(test@))),
        JsxNode::ForEach { each, key_fn, body, .. } => exprs_acc(*body, acc.push(each@).push(key_fn@)),
    }
}

pub open spec fn exprs_acc_list(nodes: Seq<JsxNode>, acc: Seq<Seq<char>>) -> Seq<Seq<char>>
    decreases nodes,
{
    if nodes.len() == 0 {
        acc
    } else {
        exprs_acc(nodes.last(), exprs_acc_list(nodes.drop_last(), acc))
    }
}

#[verifier::loop_isolation(false)]
fn collect_exprs(node: &JsxNode, out: &mut Vec<String>)
    ensures
        views(final(out)@) == exprs_acc(*node, views(old(out)@)),
    decreases node,
{
    match node {
        JsxNode::Element { attrs, children, .. } => {
            let ghost acc0 = views(out@);
            for i in 0..attrs.len()
                invariant
                    views(out@) == attr_exprs(attrs@.take(i as int), acc0),
            {
                assert(attrs@.take(i + 1).drop_last() =~= attrs@.take(i as int));
                assert(attrs@.take(i + 1).last() == attrs@[i as int]);
                match &attrs[i].value {
                    JsxAttrValue::Expr(e) => {
                        let ghost before = out@;
                        out.push(e.clone());
                        assert(views(out@) =~= views(before).push(e@));
                    },
                    _ => {},
                }
            }
            assert(attrs@.take(attrs@.len() as int) =~= attrs@);
            let ghost acc1 = views(out@);
            for i in 0..children.len()
                invariant
                    views(out@) == exprs_acc_list(children@.take(i as int), acc1),
            {
                assert(children@.take(i + 1).drop_last() =~= children@.take(i as int));
                proof {
                    assert(decreases_to!(*node => children@[i as int]));
                }
                collect_exprs(&children[i], out);
            }
            assert(children@.take(children@.len() as int) =~= children@);
        },
        JsxNode::Text(_) => {},
        JsxNode::Expr(e) => {
            let ghost before = out@;
            out.push(e.clone());
            assert(views(out@) =~= views(before).push(e@));
        },
        JsxNode::Conditional { test, cons, alt } => {
            let ghost before = out@;
            out.push(test.clone());
            assert(views(out@) =~= views(before).push(test@));
            collect_exprs(cons, out);
            collect_exprs(alt, out);
        },
        JsxNode::ForEach { each, key_fn, body, .. } => {
            let ghost before = out@;
            out.push(each.clone());
            out.push(key_fn.clone());
            assert(views(out@) =~= views(before).push(each@).push(key_fn@));
            collect_exprs(body, out);
        },
    }
}

/// One answer of the table: the expression, the signal names and props
/// parameter it was asked with, and whether it reads a signal.
pub open spec fn read_row(e: Seq<char>, names: Seq<Seq<char>>, props_param: Seq<char>) -> (
    Seq<char>,
    Seq<Seq<char>>,
    Seq<char>,
    bool,
) {
    (e, names, props_param, expr_reads(e, names, props_param))
}

pub open spec fn read_rows(exprs: Seq<Seq<char>>, names: Seq<Seq<char>>, props_param: Seq<char>) -> Seq<
    (Seq<char>, Seq<Seq<char>>, Seq<char>, bool),
> {
    exprs.map_values(|e: Seq<char>| read_row(e, names, props_param))
}

pub open spec fn row_views(v: Seq<SignalRead>) -> Seq<(Seq<char>, Seq<Seq<char>>, Seq<char>, bool)> {
    v.map_values(|r: SignalRead| (r.expr@, views(r.signal_names@), r.props_param@, r.reads))
}

/// The answers the client generator looks up: every expression of the
/// render tree asked with the declared signals, then again with the
/// reactive derived constants added to them (see `derived_state`).
pub open spec fn read_table(c: ComponentFile) -> Seq<(Seq<char>, Seq<Seq<char>>, Seq<char>, bool)> {
    match c.render_tree {
        Some(tree) => {
            let exprs = exprs_acc(tree, seq![]);
            let props = props_param_of(c.props);
            read_rows(exprs, signal_names_of(c.signals@), props) + read_rows(
                exprs,
                derived_state(views(c.derived_consts@), signal_names_of(c.signals@)).1,
                props,
            )
        },
        None => seq![],
    }
}

fn copy_names(v: &Vec<String>) -> (r: Vec<String>)
    ensures
        views(r@) == views(v@),
{
    let mut out: Vec<String> = Vec::new();
    for i in 0..v.len()
        invariant
            views(out@) == views(v@.take(i as int)),
    {
        let ghost before = out@;
        out.push(v[i].clone());
        assert(views(out@) =~= views(before).push(v@[i as int]@));
        assert(views(v@.take(i + 1)) =~= views(v@.take(i as int)).push(v@[i as int]@));
    }
    assert(v@.take(v@.len() as int) =~= v@);
    out
}

fn push_rows(table: &mut Vec<SignalRead>, exprs: &Vec<String>, names: &Vec<String>, props_param: &str)
    ensures
        row_views(final(table)@) == row_views(old(table)@) + read_rows(views(exprs@), views(names@), props_param@),
{
    let ghost start = row_views(table@);
    for i in 0..exprs.len()
        invariant
            row_views(table@) == start + read_rows(views(exprs@.take(i as int)), views(names@), props_param@),
    {
        let reads = expr_reads_signal_value(exprs[i].as_str(), names, props_param);
        let ghost before = table@;
        table.push(SignalRead {
            expr: exprs[i].clone(),
            signal_names: copy_names(names),
            props_param: crate::text::owned(props_param),
            reads,
        });
        assert(row_views(table@) =~= row_views(before).push(read_row(exprs@[i as int]@, views(names@), props_param@)));
        assert(read_rows(views(exprs@.take(i + 1)), views(names@), props_param@) =~= read_rows(
            views(exprs@.take(i as int)),
            views(names@),
            props_param@,
        ).push(read_row(exprs@[i as int]@, views(names@), props_param@)));
    }
    assert(exprs@.take(exprs@.len() as int) =~= exprs@);
}

/// Builds the table of [`read_table`].
pub fn signal_read_table(c: &ComponentFile) -> (r: Vec<SignalRead>)
    ensures
        row_views(r@) == read_table(*c),
{
    let mut table: Vec<SignalRead> = Vec::new();
    assert(row_views(table@) =~= Seq::<(Seq<char>, Seq<Seq<char>>, Seq<char>, bool)>::empty());
    let tree = match &c.render_tree {
        Some(t) => t,
        None => {
            return table;
        },
    };
    let mut exprs: Vec<String> = Vec::new();
    assert(views(exprs@) =~= Seq::<Seq<char>>::empty());
    collect_exprs(tree, &mut exprs);
    let props = props_param_string(&c.props);
    let declared = signal_names_vec(&c.signals);
    let mut extended = signal_names_vec(&c.signals);
    let mut scratch = String::new();
    push_derived_consts(&mut scratch, &c.derived_consts, &mut extended);
    push_rows(&mut table, &exprs, &declared, props.as_str());
    push_rows(&mut table, &exprs, &extended, props.as_str());
    assert(row_views(table@) =~= read_table(*c));
    table
}


/// A call node whose callee is the identifier `env`.
pub open spec fn env_call_here(es: Seq<(Seq<char>, JsonView)>) -> bool {
    let v = JsonView::Obj(es);
    &&& node_type(v) == Some("CallExpression"@)
    &&& member(v, "callee"@) matches Some(c) && node_type(c) == Some("Identifier"@) && text_member(
        c,
        "value"@,
    ) == Some("env"@)
}

/// Whether some call anywhere in the tree `v` is a call of `env`.
pub open spec fn tree_calls_env(v: JsonView) -> bool
    decreases v, 0nat,
{
    match v {
        JsonView::Obj(es) => env_call_here(es) || entries_call_env(es),
        JsonView::Arr(items) => items_call_env(items),
        _ => false,
    }
}

pub open spec fn entries_call_env(es: Seq<(Seq<char>, JsonView)>) -> bool
    decreases es, 1nat,
{
    if es.len() == 0 {
        false
    } else {
        entries_call_env(es.drop_last()) || tree_calls_env(es.last().1)
    }
}

pub open spec fn items_call_env(items: Seq<JsonView>) -> bool
    decreases items, 1nat,
{
    if items.len() == 0 {
        false
    } else {
        items_call_env(items.drop_last()) || tree_calls_env(items.last())
    }
}

fn env_call_at(v: &serde_json::Value) -> (r: bool)
    requires
        json_content(*v) is Obj,
    ensures
        r == env_call_here(json_content(*v)->Obj_0),
{
    assert(JsonView::Obj(json_content(*v)->Obj_0) == json_content(*v));
    if !node_type_is(v, "CallExpression") {
        return false;
    }
    match json_get(v, "callee") {
        Some(c) => node_type_is(&c, "Identifier") && text_is(&c, "value", "env"),
        None => false,
    }
}

proof fn lemma_env_entries_prefix(m: Seq<(Seq<char>, JsonView)>, k: int)
    requires
        0 <= k <= m.len(),
        entries_call_env(m.take(k)),
    ensures
        entries_call_env(m),
    decreases m.len() - k,
{
    if k < m.len() {
        assert(m.take(k + 1).drop_last() =~= m.take(k));
        lemma_env_entries_prefix(m, k + 1);
    } else {
        assert(m.take(k) =~= m);
    }
}

proof fn lemma_env_items_prefix(s: Seq<JsonView>, k: int)
    requires
        0 <= k <= s.len(),
        items_call_env(s.take(k)),
    ensures
        items_call_env(s),
    decreases s.len() - k,
{
    if k < s.len() {
        assert(s.take(k + 1).drop_last() =~= s.take(k));
        lemma_env_items_prefix(s, k + 1);
    } else {
        assert(s.take(k) =~= s);
    }
}

fn walk_env(v: &serde_json::Value) -> (r: bool)
    ensures
        r == tree_calls_env(json_content(*v)),
    decreases json_content(*v),
{
    let ghost jv = json_content(*v);
    match json_as_object(v) {
        Some(es) => {
            let ghost m = jv->Obj_0;
            if env_call_at(v) {
                return true;
            }
            let mut i: usize = 0;
            while i < es.len()
                invariant
                    jv == json_content(*v),
                    jv == JsonView::Obj(m),
                    es@.len() == m.len(),
                    forall|a: int| 0 <= a < m.len() ==> json_content((#[trigger] es@[a]).1) == m[a].1,
                    i <= m.len(),
                    !entries_call_env(m.take(i as int)),
                decreases m.len() - i,
            {
                assert(m.take(i + 1).drop_last() =~= m.take(i as int));
                assert(m.take(i + 1).last() == m[i as int]);
                assert(json_content(es@[i as int].1) == m[i as int].1);
                proof {
                    assert(jv->Obj_0 == m);
                    assert(decreases_to!(jv => jv->Obj_0));
                    assert(decreases_to!(m => m[i as int]));
                    assert(decreases_to!(m[i as int] => m[i as int].1));
                }
                if walk_env(&es[i].1) {
                    assert(entries_call_env(m.take(i + 1)));
                    proof {
                        lemma_env_entries_prefix(m, i + 1);
                    }
                    return true;
                }
                i += 1;
            }
            assert(m.take(m.len() as int) =~= m);
            false
        },
        None => match json_as_array(v) {
            Some(items) => {
                let ghost s = jv->Arr_0;
                let mut i: usize = 0;
                while i < items.len()
                    invariant
                        jv == json_content(*v),
                        jv == JsonView::Arr(s),
                        items@.len() == s.len(),
                        forall|a: int| 0 <= a < s.len() ==> json_content(#[trigger] items@[a]) == s[a],
                        i <= s.len(),
                        !items_call_env(s.take(i as int)),
                    decreases s.len() - i,
                {
                    assert(s.take(i + 1).drop_last() =~= s.take(i as int));
                    assert(s.take(i + 1).last() == s[i as int]);
                    assert(json_content(items@[i as int]) == s[i as int]);
                    proof {
                        assert(jv->Arr_0 == s);
                        assert(decreases_to!(jv => jv->Arr_0));
                        assert(decreases_to!(s => s[i as int]));
                    }
                    if walk_env(&items[i]) {
                        assert(items_call_env(s.take(i + 1)));
                        proof {
                            lemma_env_items_prefix(s, i + 1);
                        }
                        return true;
                    }
                    i += 1;
                }
                assert(s.take(s.len() as int) =~= s);
                false
            },
            None => false,
        },
    }
}

/// Whether an attribute expression calls `env(...)` anywhere in it (its
/// value is then baked at build time); an expression that swc does not
/// parse calls nothing.
pub open spec fn expr_calls_env(expr: Seq<char>) -> bool {
    match swc_expr_tree(expr) {
        Some(v) => tree_calls_env(v),
        None => false,
    }
}

pub fn contains_env_call(expr: &str) -> (r: bool)
    ensures
        r == expr_calls_env(expr@),
{
    match parse_expr_tree(expr) {
        Some(v) => walk_env(&v),
        None => false,
    }
}

} // verus!
