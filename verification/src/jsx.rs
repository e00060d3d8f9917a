//! Turns the JSX of a component (its element tree, `<For>` loops,
//! conditionals and inline expressions) into the render tree the code
//! generators consume, raising a diagnostic for each JSX form the compiler
//! does not support.

use vstd::prelude::*;
use crate::ast::{JsxAttr, JsxAttrValue, JsxNode, ParserError, collapse_spaces, jsx_text_to_string};
use crate::printer::{format_jsx_expr, p_expr, p_lit, print_lit};
use crate::script::{
    ArrowBody, Issue, JsExpr, JsLit, JsPat, JsStmt, JsxAttrItem, JsxAttrName, JsxAttrVal, JsxChild,
    JsxElem, JsxMember, JsxName, JsxObject, Unsupported, VarKind, issue_of, issues_of, push_issue,
    unsupported_error, unsupported_issue,
};
use crate::text::{chars_of, char_is_uppercase, owned, push_str, str_eq, unicode_is_uppercase};

verus! {

/// An attribute value by its views.
pub enum AttrValueV {
    Str(Seq<char>),
    Expr(Seq<char>),
}

/// An attribute by its views.
pub struct AttrV {
    pub name: Seq<char>,
    pub value: AttrValueV,
    pub contains_env_call: bool,
}

/// A render-tree node by its views.
pub enum NodeV {
    Element {
        tag: Seq<char>,
        attrs: Seq<AttrV>,
        children: Seq<NodeV>,
        is_hydrate_root: bool,
        is_component: bool,
    },
    Text(Seq<char>),
    Expr(Seq<char>),
    Conditional { test: Seq<char>, cons: Box<NodeV>, alt: Box<NodeV> },
    ForEach {
        each: Seq<char>,
        key_fn: Seq<char>,
        item_param: Seq<char>,
        body: Box<NodeV>,
        for_body_decls: Seq<Seq<char>>,
    },
}

pub open spec fn attr_value_view(v: JsxAttrValue) -> AttrValueV {
    match v {
        JsxAttrValue::String(s) => AttrValueV::Str(s@),
        JsxAttrValue::Expr(s) => AttrValueV::Expr(s@),
    }
}

pub open spec fn attr_view(a: JsxAttr) -> AttrV {
    AttrV { name: a.name@, value: attr_value_view(a.value), contains_env_call: a.contains_env_call }
}

pub open spec fn attrs_view(s: Seq<JsxAttr>) -> Seq<AttrV> {
    s.map_values(|a: JsxAttr| attr_view(a))
}

pub open spec fn strings_view(s: Seq<String>) -> Seq<Seq<char>> {
    s.map_values(|x: String| x@)
}

pub open spec fn node_view(n: JsxNode) -> NodeV
    decreases n,
{
    match n {
        JsxNode::Element { tag, attrs, children, is_hydrate_root, is_component } => NodeV::Element {
            tag: tag@,
            attrs: attrs_view(attrs@),
            children: nodes_view(children@),
            is_hydrate_root,
            is_component,
        },
        JsxNode::Text(s) => NodeV::Text(s@),
        JsxNode::Expr(s) => NodeV::Expr(s@),
        JsxNode::Conditional { test, cons, alt } => NodeV::Conditional {
            test: test@,
            cons: Box::new(node_view(*cons)),
            alt: Box::new(node_view(*alt)),
        },
        JsxNode::ForEach { each, key_fn, item_param, body, for_body_decls } => NodeV::ForEach {
            each: each@,
            key_fn: key_fn@,
            item_param: item_param@,
            body: Box::new(node_view(*body)),
            for_body_decls: strings_view(for_body_decls@),
        },
    }
}

pub open spec fn nodes_view(s: Seq<JsxNode>) -> Seq<NodeV>
    decreases s,
{
    if s.len() == 0 { Seq::empty() } else { nodes_view(s.drop_last()).push(node_view(s.last())) }
}

/// A dotted element name, written out.
pub open spec fn member_text(m: JsxMember) -> Seq<char>
    decreases m,
{
    match m.obj {
        JsxObject::Ident(s) => s@ + "."@ + m.prop@,
        JsxObject::Member(inner) => member_text(*inner) + "."@ + m.prop@,
    }
}

pub open spec fn name_text(n: JsxName) -> Seq<char> {
    match n {
        JsxName::Ident(s) => s@,
        JsxName::Member(m) => member_text(m),
        JsxName::Namespaced(ns, name) => ns@ + ":"@ + name@,
    }
}

pub open spec fn attr_name_text(n: JsxAttrName) -> Seq<char> {
    match n {
        JsxAttrName::Ident(s) => s@,
        JsxAttrName::Namespaced(ns, name) => ns@ + ":"@ + name@,
    }
}

/// The `client:hydrate` marker attribute.
pub open spec fn is_hydrate(a: JsxAttrItem) -> bool {
    match a {
        JsxAttrItem::Attr { name: JsxAttrName::Namespaced(ns, name), .. } =>
            ns@ == "client"@ && name@ == "hydrate"@,
        _ => false,
    }
}

/// A component tag starts with an uppercase letter and is not `For`.
pub open spec fn is_component_tag(tag: Seq<char>) -> bool {
    tag.len() > 0 && unicode_is_uppercase(tag[0]) && tag != "For"@
}

/// An attribute value as the render tree holds it: a string literal as its
/// value, any other literal as printed, an expression as printed, `{}` as
/// the empty string; JSX values are reported.
pub open spec fn c_attr_value(v: JsxAttrVal) -> (AttrValueV, Seq<Issue>) {
    match v {
        JsxAttrVal::Lit(JsLit::Str(s)) => (AttrValueV::Str(s@), Seq::empty()),
        JsxAttrVal::Lit(l) => (AttrValueV::Str(p_lit(l).0), p_lit(l).1),
        JsxAttrVal::Expr(e) => (AttrValueV::Expr(p_expr(e).0), p_expr(e).1),
        JsxAttrVal::Empty => (AttrValueV::Str(Seq::empty()), Seq::empty()),
        JsxAttrVal::Element => (AttrValueV::Str("<jsx element>"@),
            seq![unsupported_issue(Unsupported::AttrElement)]),
        JsxAttrVal::Fragment => (AttrValueV::Str("<jsx fragment>"@),
            seq![unsupported_issue(Unsupported::AttrFragment)]),
    }
}

/// A value-less attribute reads as the empty string.
pub open spec fn c_opt_value(v: Option<JsxAttrVal>) -> (AttrValueV, Seq<Issue>) {
    match v {
        Some(v) => c_attr_value(v),
        None => (AttrValueV::Str(Seq::empty()), Seq::empty()),
    }
}

/// The attributes of an element: the converted attributes, whether a
/// `client:hydrate` marker was among them, and the diagnostics (a spread
/// attribute is dropped and reported).
pub open spec fn c_attrs(items: Seq<JsxAttrItem>) -> (Seq<AttrV>, bool, Seq<Issue>)
    decreases items.len(),
{
    if items.len() == 0 {
        (Seq::empty(), false, Seq::empty())
    } else {
        let prev = c_attrs(items.drop_last());
        let it = items.last();
        if is_hydrate(it) {
            (prev.0, true, prev.2)
        } else {
            match it {
                JsxAttrItem::Attr { name, value, contains_env_call } => {
                    let v = c_opt_value(value);
                    (prev.0.push(AttrV { name: attr_name_text(name), value: v.0, contains_env_call }),
                        prev.1, prev.2 + v.1)
                },
                JsxAttrItem::Spread => (prev.0, prev.1, prev.2.push(unsupported_issue(Unsupported::SpreadAttr))),
            }
        }
    }
}

/// The text an `each`/`key` attribute of `<For>` contributes.
pub open spec fn value_text(v: AttrValueV) -> Seq<char> {
    match v {
        AttrValueV::Str(s) => s,
        AttrValueV::Expr(s) => s,
    }
}

/// The `each` and `key` of a `<For>` (the last of each wins; empty when
/// absent), with the diagnostics of all its attribute values; spread
/// attributes are skipped.
pub open spec fn c_for_attrs(items: Seq<JsxAttrItem>) -> (Seq<char>, Seq<char>, Seq<Issue>)
    decreases items.len(),
{
    if items.len() == 0 {
        (Seq::empty(), Seq::empty(), Seq::empty())
    } else {
        let prev = c_for_attrs(items.drop_last());
        match items.last() {
            JsxAttrItem::Attr { name, value, .. } => {
                let v = c_opt_value(value);
                let n = attr_name_text(name);
                if n == "each"@ {
                    (value_text(v.0), prev.1, prev.2 + v.1)
                } else if n == "key"@ {
                    (prev.0, value_text(v.0), prev.2 + v.1)
                } else {
                    (prev.0, prev.1, prev.2 + v.1)
                }
            },
            JsxAttrItem::Spread => prev,
        }
    }
}

pub open spec fn fragment_node(children: Seq<NodeV>) -> NodeV {
    NodeV::Element { tag: Seq::empty(), attrs: Seq::empty(), children, is_hydrate_root: false, is_component: false }
}

/// An element as a render-tree node; `<For>` becomes a loop node.
pub open spec fn c_elem(el: JsxElem) -> (NodeV, Seq<Issue>)
    decreases el,
{
    let tag = name_text(el.name);
    if tag == "For"@ {
        for_node(c_for_attrs(el.attrs@), c_for_body(el.children@))
    } else {
        let a = c_attrs(el.attrs@);
        let ch = c_children(el.children@);
        (NodeV::Element {
            tag,
            attrs: a.0,
            children: ch.0,
            is_hydrate_root: a.1,
            is_component: is_component_tag(tag),
        }, a.2 + ch.1)
    }
}

/// A `<For each={..} key={..}>{(item) => ..}</For>` loop from its
/// attributes' reading and its body search: without a body, the item is
/// `item` and the body empty text.
pub open spec fn for_node(
    a: (Seq<char>, Seq<char>, Seq<Issue>),
    b: (Option<(Seq<char>, NodeV, Seq<Seq<char>>)>, Seq<Issue>),
) -> (NodeV, Seq<Issue>) {
    let (param, body, decls) = match b.0 {
        Some(found) => found,
        None => ("item"@, NodeV::Text(Seq::empty()), Seq::empty()),
    };
    (NodeV::ForEach { each: a.0, key_fn: a.1, item_param: param, body: Box::new(body), for_body_decls: decls },
        a.2 + b.1)
}

/// The first loop body among `children`, scanning from the front, with the
/// diagnostics raised up to and including the child that yields it.
pub open spec fn c_for_body(children: Seq<JsxChild>) -> (Option<(Seq<char>, NodeV, Seq<Seq<char>>)>, Seq<Issue>)
    decreases children,
{
    if children.len() == 0 {
        (None, Seq::empty())
    } else {
        let prev = c_for_body(children.drop_last());
        if prev.0.is_some() {
            prev
        } else {
            match children.last() {
                JsxChild::Expr(e) => {
                    let r = c_arrow(e);
                    (r.0, prev.1 + r.1)
                },
                _ => prev,
            }
        }
    }
}

/// The parameter name, JSX body and block-local declarations of an item
/// arrow (through parentheses); the parameter is `item` unless the first
/// parameter is a plain identifier.
pub open spec fn c_arrow(e: JsExpr) -> (Option<(Seq<char>, NodeV, Seq<Seq<char>>)>, Seq<Issue>)
    decreases e,
{
    match e {
        JsExpr::Paren(x) => c_arrow(*x),
        JsExpr::Arrow(params, body) => {
            let param = if params@.len() > 0 && params@[0] is Ident {
                match params@[0] {
                    JsPat::Ident(s) => s@,
                    _ => "item"@,
                }
            } else {
                "item"@
            };
            match body {
                ArrowBody::Block(stmts) => {
                    let s = c_block_scan(stmts@);
                    match s.0 {
                        Some(Some(n)) => (Some((param, n, s.1)), s.2),
                        _ => (None, s.2),
                    }
                },
                ArrowBody::Expr(x) => {
                    let r = c_expr_node(*x);
                    match r.0 {
                        Some(n) => (Some((param, n, Seq::empty())), r.1),
                        None => (None, r.1),
                    }
                },
            }
        },
        _ => (None, Seq::empty()),
    }
}

/// Scans a block arrow body up to its first `return`: `Some(node)` once a
/// return was met (`Some(None)` when it returns nothing or no JSX), the
/// source of each function and `const` declaration before it, and the
/// diagnostics.
pub open spec fn c_block_scan(ss: Seq<JsStmt>) -> (Option<Option<NodeV>>, Seq<Seq<char>>, Seq<Issue>)
    decreases ss,
{
    if ss.len() == 0 {
        (None, Seq::empty(), Seq::empty())
    } else {
        let prev = c_block_scan(ss.drop_last());
        if prev.0.is_some() {
            prev
        } else {
            match ss.last() {
                JsStmt::Return(Some(x)) => {
                    let r = c_expr_node(x);
                    (Some(r.0), prev.1, prev.2 + r.1)
                },
                JsStmt::Return(None) => (Some(None), prev.1, prev.2),
                JsStmt::FnDecl { source: Some(src), .. } => (None, prev.1.push(src@), prev.2),
                JsStmt::Var { kind: VarKind::Const, source: Some(src), .. } => (None, prev.1.push(src@), prev.2),
                _ => prev,
            }
        }
    }
}

/// A branch or item result as a node: JSX (through parentheses), and
/// `null`/`undefined` as empty text; anything else is none.
pub open spec fn c_expr_node(e: JsExpr) -> (Option<NodeV>, Seq<Issue>)
    decreases e,
{
    match e {
        JsExpr::Paren(x) => c_expr_node(*x),
        JsExpr::JsxElement(el) => {
            let r = c_elem(*el);
            (Some(r.0), r.1)
        },
        JsExpr::JsxFragment(children) => {
            let r = c_children(children@);
            (Some(fragment_node(r.0)), r.1)
        },
        JsExpr::Lit(JsLit::Null) => (Some(NodeV::Text(Seq::empty())), Seq::empty()),
        JsExpr::Ident(s) => if s@ == "undefined"@ {
            (Some(NodeV::Text(Seq::empty())), Seq::empty())
        } else {
            (None, Seq::empty())
        },
        _ => (None, Seq::empty()),
    }
}

/// A `cond ? a : b` whose branches are both nodes, as a conditional node.
/// The branches are converted first (the second only when the first is a
/// node), then the test printed.
pub open spec fn c_cond(e: JsExpr) -> (Option<NodeV>, Seq<Issue>)
    decreases e,
{
    match e {
        JsExpr::Cond(t, c, a) => {
            let cr = c_expr_node(*c);
            match cr.0 {
                None => (None, cr.1),
                Some(cn) => {
                    let ar = c_expr_node(*a);
                    match ar.0 {
                        None => (None, cr.1 + ar.1),
                        Some(an) => {
                            let tp = p_expr(*t);
                            (Some(NodeV::Conditional { test: tp.0, cons: Box::new(cn), alt: Box::new(an) }),
                                cr.1 + ar.1 + tp.1)
                        },
                    }
                },
            }
        },
        _ => (None, Seq::empty()),
    }
}

/// A child of an element or fragment as a node.
pub open spec fn c_child(ch: JsxChild) -> (NodeV, Seq<Issue>)
    decreases ch,
{
    match ch {
        JsxChild::Element(el) => c_elem(el),
        JsxChild::Fragment(children) => {
            let r = c_children(children@);
            (fragment_node(r.0), r.1)
        },
        JsxChild::Text(raw) => (NodeV::Text(collapse_spaces(raw@, false)), Seq::empty()),
        JsxChild::Expr(e) => {
            let c = c_cond(e);
            match c.0 {
                Some(n) => (n, c.1),
                None => (NodeV::Expr(p_expr(e).0), c.1 + p_expr(e).1),
            }
        },
        JsxChild::Empty => (NodeV::Text(Seq::empty()), Seq::empty()),
        JsxChild::Spread => (NodeV::Text(Seq::empty()), seq![unsupported_issue(Unsupported::SpreadChild)]),
    }
}

pub open spec fn c_children(cs: Seq<JsxChild>) -> (Seq<NodeV>, Seq<Issue>)
    decreases cs,
{
    if cs.len() == 0 {
        (Seq::empty(), Seq::empty())
    } else {
        let prev = c_children(cs.drop_last());
        let r = c_child(cs.last());
        (prev.0.push(r.0), prev.1 + r.1)
    }
}

pub open spec fn opt_node_view(o: Option<JsxNode>) -> Option<NodeV> {
    match o {
        Some(n) => Some(node_view(n)),
        None => None,
    }
}

pub open spec fn found_view(f: Option<(String, JsxNode, Vec<String>)>) -> Option<(Seq<char>, NodeV, Seq<Seq<char>>)> {
    match f {
        Some((p, n, d)) => Some((p@, node_view(n), strings_view(d@))),
        None => None,
    }
}

/// `errors` grew by the diagnostics `added`.
pub open spec fn grew(now: Seq<ParserError>, before: Seq<ParserError>, added: Seq<Issue>) -> bool {
    issues_of(now) == issues_of(before) + added
}

proof fn lemma_grew_none(e: Seq<ParserError>)
    ensures
        grew(e, e, Seq::empty()),
{
    assert(issues_of(e) + Seq::<Issue>::empty() =~= issues_of(e));
}

/// A dotted element name, written out.
pub fn format_member_expr_name(m: &JsxMember) -> (r: String)
    ensures
        r@ == member_text(*m),
    decreases m,
{
    let mut out = match &m.obj {
        JsxObject::Ident(s) => owned(s.as_str()),
        JsxObject::Member(inner) => format_member_expr_name(inner),
    };
    push_str(&mut out, ".");
    push_str(&mut out, m.prop.as_str());
    out
}

pub fn jsx_element_name_to_string(n: &JsxName) -> (r: String)
    ensures
        r@ == name_text(*n),
{
    match n {
        JsxName::Ident(s) => owned(s.as_str()),
        JsxName::Member(m) => format_member_expr_name(m),
        JsxName::Namespaced(ns, name) => {
            let mut out = owned(ns.as_str());
            push_str(&mut out, ":");
            push_str(&mut out, name.as_str());
            out
        },
    }
}

pub fn jsx_attr_name_to_string(n: &JsxAttrName) -> (r: String)
    ensures
        r@ == attr_name_text(*n),
{
    match n {
        JsxAttrName::Ident(s) => owned(s.as_str()),
        JsxAttrName::Namespaced(ns, name) => {
            let mut out = owned(ns.as_str());
            push_str(&mut out, ":");
            push_str(&mut out, name.as_str());
            out
        },
    }
}

pub fn is_client_hydrate_attr(a: &JsxAttrItem) -> (r: bool)
    ensures
        r == is_hydrate(*a),
{
    match a {
        JsxAttrItem::Attr { name: JsxAttrName::Namespaced(ns, name), .. } =>
            str_eq(ns.as_str(), "client") && str_eq(name.as_str(), "hydrate"),
        _ => false,
    }
}

/// An attribute value as the render tree holds it.
pub fn convert_jsx_attr_value(v: &JsxAttrVal, errors: &mut Vec<ParserError>) -> (r: JsxAttrValue)
    ensures
        attr_value_view(r) == c_attr_value(*v).0,
        grew(final(errors)@, old(errors)@, c_attr_value(*v).1),
{
    match v {
        JsxAttrVal::Lit(JsLit::Str(s)) => {
            proof { lemma_grew_none(errors@); }
            JsxAttrValue::String(owned(s.as_str()))
        },
        JsxAttrVal::Lit(l) => {
            let mut out = String::new();
            print_lit(l, &mut out, errors);
            assert(out@ =~= p_lit(*l).0);
            JsxAttrValue::String(out)
        },
        JsxAttrVal::Expr(e) => JsxAttrValue::Expr(format_jsx_expr(e, errors)),
        JsxAttrVal::Empty => {
            proof { lemma_grew_none(errors@); }
            JsxAttrValue::String(String::new())
        },
        JsxAttrVal::Element => {
            push_issue(errors, unsupported_error(Unsupported::AttrElement));
            assert(issues_of(old(errors)@).push(unsupported_issue(Unsupported::AttrElement))
                =~= issues_of(old(errors)@) + seq![unsupported_issue(Unsupported::AttrElement)]);
            JsxAttrValue::String(owned("<jsx element>"))
        },
        JsxAttrVal::Fragment => {
            push_issue(errors, unsupported_error(Unsupported::AttrFragment));
            assert(issues_of(old(errors)@).push(unsupported_issue(Unsupported::AttrFragment))
                =~= issues_of(old(errors)@) + seq![unsupported_issue(Unsupported::AttrFragment)]);
            JsxAttrValue::String(owned("<jsx fragment>"))
        },
    }
}

fn convert_opt_value(v: &Option<JsxAttrVal>, errors: &mut Vec<ParserError>) -> (r: JsxAttrValue)
    ensures
        attr_value_view(r) == c_opt_value(*v).0,
        grew(final(errors)@, old(errors)@, c_opt_value(*v).1),
{
    match v {
        Some(x) => convert_jsx_attr_value(x, errors),
        None => {
            proof { lemma_grew_none(errors@); }
            JsxAttrValue::String(String::new())
        },
    }
}

/// An attribute as the render tree holds it; a spread attribute is
/// reported and dropped.
pub fn convert_jsx_attr_or_spread(a: &JsxAttrItem, errors: &mut Vec<ParserError>) -> (r: Option<JsxAttr>)
    ensures
        match *a {
            JsxAttrItem::Attr { name, value, contains_env_call } =>
                r.is_some() && attr_view(r.unwrap()) == (AttrV {
                    name: attr_name_text(name),
                    value: c_opt_value(value).0,
                    contains_env_call,
                }) && grew(final(errors)@, old(errors)@, c_opt_value(value).1),
            JsxAttrItem::Spread => r.is_none()
                && grew(final(errors)@, old(errors)@, seq![unsupported_issue(Unsupported::SpreadAttr)]),
        },
{
    match a {
        JsxAttrItem::Attr { name, value, contains_env_call } => {
            let n = jsx_attr_name_to_string(name);
            let v = convert_opt_value(value, errors);
            Some(JsxAttr { name: n, value: v, contains_env_call: *contains_env_call })
        },
        JsxAttrItem::Spread => {
            push_issue(errors, unsupported_error(Unsupported::SpreadAttr));
            assert(issues_of(old(errors)@).push(unsupported_issue(Unsupported::SpreadAttr))
                =~= issues_of(old(errors)@) + seq![unsupported_issue(Unsupported::SpreadAttr)]);
            None
        },
    }
}

fn convert_attrs(items: &Vec<JsxAttrItem>, errors: &mut Vec<ParserError>) -> (r: (Vec<JsxAttr>, bool))
    ensures
        attrs_view(r.0@) == c_attrs(items@).0,
        r.1 == c_attrs(items@).1,
        grew(final(errors)@, old(errors)@, c_attrs(items@).2),
{
    let mut attrs: Vec<JsxAttr> = Vec::new();
    let mut hydrate = false;
    let ghost e0 = errors@;
    let mut i: usize = 0;
    assert(items@.take(0) =~= Seq::<JsxAttrItem>::empty());
    assert(attrs_view(attrs@) =~= Seq::<AttrV>::empty());
    proof { lemma_grew_none(errors@); }
    while i < items.len()
        invariant
            i <= items@.len(),
            attrs_view(attrs@) == c_attrs(items@.take(i as int)).0,
            hydrate == c_attrs(items@.take(i as int)).1,
            grew(errors@, e0, c_attrs(items@.take(i as int)).2),
        decreases items.len() - i,
    {
        assert(items@.take(i + 1).drop_last() =~= items@.take(i as int));
        assert(items@.take(i + 1).last() == items@[i as int]);
        let ghost before = attrs@;
        if is_client_hydrate_attr(&items[i]) {
            hydrate = true;
        } else {
            match convert_jsx_attr_or_spread(&items[i], errors) {
                Some(a) => {
                    attrs.push(a);
                    assert(attrs_view(attrs@) =~= attrs_view(before).push(attr_view(a)));
                },
                None => {},
            }
            assert(issues_of(errors@) =~= issues_of(e0) + c_attrs(items@.take(i + 1)).2);
        }
        i += 1;
    }
    assert(items@.take(items@.len() as int) =~= items@);
    (attrs, hydrate)
}

fn for_attrs(items: &Vec<JsxAttrItem>, errors: &mut Vec<ParserError>) -> (r: (String, String))
    ensures
        r.0@ == c_for_attrs(items@).0,
        r.1@ == c_for_attrs(items@).1,
        grew(final(errors)@, old(errors)@, c_for_attrs(items@).2),
{
    let mut each = String::new();
    let mut key_fn = String::new();
    let ghost e0 = errors@;
    let mut i: usize = 0;
    assert(items@.take(0) =~= Seq::<JsxAttrItem>::empty());
    proof { lemma_grew_none(errors@); }
    while i < items.len()
        invariant
            i <= items@.len(),
            each@ == c_for_attrs(items@.take(i as int)).0,
            key_fn@ == c_for_attrs(items@.take(i as int)).1,
            grew(errors@, e0, c_for_attrs(items@.take(i as int)).2),
        decreases items.len() - i,
    {
        assert(items@.take(i + 1).drop_last() =~= items@.take(i as int));
        assert(items@.take(i + 1).last() == items@[i as int]);
        match &items[i] {
            JsxAttrItem::Attr { name, value, .. } => {
                let n = jsx_attr_name_to_string(name);
                let v = convert_opt_value(value, errors);
                let text = match v {
                    JsxAttrValue::Expr(e) => e,
                    JsxAttrValue::String(s) => s,
                };
                if str_eq(n.as_str(), "each") {
                    each = text;
                } else if str_eq(n.as_str(), "key") {
                    key_fn = text;
                }
                assert(issues_of(errors@) =~= issues_of(e0) + c_for_attrs(items@.take(i + 1)).2);
            },
            JsxAttrItem::Spread => {},
        }
        i += 1;
    }
    assert(items@.take(items@.len() as int) =~= items@);
    (each, key_fn)
}

/// Assembles a loop node from its `each`, `key` and body search.
fn for_node_of(each: String, key_fn: String, found: Option<(String, JsxNode, Vec<String>)>) -> (r: JsxNode)
    ensures
        node_view(r) == for_node(
            (each@, key_fn@, Seq::empty()),
            (found_view(found), Seq::empty()),
        ).0,
{
    match found {
        Some((param, body, decls)) => JsxNode::ForEach {
            each,
            key_fn,
            item_param: param,
            body: Box::new(body),
            for_body_decls: decls,
        },
        None => {
            let item = owned("item");
            let text = String::new();
            let decls: Vec<String> = Vec::new();
            assert(strings_view(decls@) =~= Seq::<Seq<char>>::empty());
            assert(node_view(JsxNode::Text(text)) == NodeV::Text(Seq::empty()));
            JsxNode::ForEach {
                each,
                key_fn,
                item_param: item,
                body: Box::new(JsxNode::Text(text)),
                for_body_decls: decls,
            }
        },
    }
}

/// An element as a render-tree node; `<For>` becomes a loop node.
pub fn convert_jsx_element(el: &JsxElem, errors: &mut Vec<ParserError>) -> (r: JsxNode)
    ensures
        node_view(r) == c_elem(*el).0,
        grew(final(errors)@, old(errors)@, c_elem(*el).1),
    decreases el,
{
    let tag = jsx_element_name_to_string(&el.name);
    if str_eq(tag.as_str(), "For") {
        let ghost e0 = errors@;
        let (each, key_fn) = for_attrs(&el.attrs, errors);
        let found = for_body(&el.children, errors);
        let r = for_node_of(each, key_fn, found);
        assert(issues_of(errors@) =~= issues_of(e0) + c_elem(*el).1);
        return r;
    }
    let ghost e0 = errors@;
    let (attrs, is_hydrate_root) = convert_attrs(&el.attrs, errors);
    let children = convert_children(&el.children, errors);
    let cs = chars_of(tag.as_str());
    let is_component = cs.len() > 0 && char_is_uppercase(cs[0]);
    proof {
        reveal_strlit("For");
    }
    assert(issues_of(errors@) =~= issues_of(e0) + c_elem(*el).1);
    JsxNode::Element { tag, attrs, children, is_hydrate_root, is_component }
}

/// The loop body of a `<For>`: the first child that is an item arrow
/// yielding JSX.
#[verifier::loop_isolation(false)]
fn for_body(children: &Vec<JsxChild>, errors: &mut Vec<ParserError>) -> (r: Option<(String, JsxNode, Vec<String>)>)
    ensures
        found_view(r) == c_for_body(children@).0,
        grew(final(errors)@, old(errors)@, c_for_body(children@).1),
    decreases children,
{
    let ghost e0 = errors@;
    let mut i: usize = 0;
    assert(children@.take(0) =~= Seq::<JsxChild>::empty());
    proof { lemma_grew_none(errors@); }
    while i < children.len()
        invariant
            i <= children@.len(),
            c_for_body(children@.take(i as int)).0.is_none(),
            grew(errors@, e0, c_for_body(children@.take(i as int)).1),
        decreases children.len() - i,
    {
        assert(children@.take(i + 1).drop_last() =~= children@.take(i as int));
        assert(children@.take(i + 1).last() == children@[i as int]);
        match &children[i] {
            JsxChild::Expr(e) => {
                proof {
                    assert(decreases_to!(children => children@[i as int]));
                }
                let found = extract_arrow_body_jsx(e, errors);
                assert(issues_of(errors@) =~= issues_of(e0) + c_for_body(children@.take(i + 1)).1);
                if found.is_some() {
                    proof { lemma_for_body_prefix(children@, i + 1); }
                    return found;
                }
            },
            _ => {},
        }
        i += 1;
    }
    assert(children@.take(children@.len() as int) =~= children@);
    None
}

/// Once found, the loop body of a prefix is that of the whole.
proof fn lemma_for_body_prefix(cs: Seq<JsxChild>, n: int)
    requires
        0 <= n <= cs.len(),
        c_for_body(cs.take(n)).0.is_some(),
    ensures
        c_for_body(cs) == c_for_body(cs.take(n)),
    decreases cs.len() - n,
{
    if n < cs.len() {
        assert(cs.take(n + 1).drop_last() =~= cs.take(n));
        lemma_for_body_prefix(cs, n + 1);
    } else {
        assert(cs.take(n) =~= cs);
    }
}

/// The parameter name, JSX body and block-local declarations of a `<For>`
/// item arrow.
pub fn extract_arrow_body_jsx(e: &JsExpr, errors: &mut Vec<ParserError>) -> (r: Option<(String, JsxNode, Vec<String>)>)
    ensures
        found_view(r) == c_arrow(*e).0,
        grew(final(errors)@, old(errors)@, c_arrow(*e).1),
    decreases e,
{
    match e {
        JsExpr::Paren(x) => extract_arrow_body_jsx(x, errors),
        JsExpr::Arrow(params, body) => {
            let param = if params.len() > 0 {
                match &params[0] {
                    JsPat::Ident(s) => owned(s.as_str()),
                    _ => owned("item"),
                }
            } else {
                owned("item")
            };
            match body {
                ArrowBody::Block(stmts) => {
                    let (ret, decls) = block_scan(stmts, errors);
                    match ret {
                        Some(Some(n)) => Some((param, n, decls)),
                        _ => None,
                    }
                },
                ArrowBody::Expr(x) => {
                    match expr_to_jsx_node(x, errors) {
                        Some(n) => {
                            let decls: Vec<String> = Vec::new();
                            assert(strings_view(decls@) =~= Seq::<Seq<char>>::empty());
                            Some((param, n, decls))
                        },
                        None => None,
                    }
                },
            }
        },
        _ => {
            proof { lemma_grew_none(errors@); }
            None
        },
    }
}

pub open spec fn scan_view(r: (Option<Option<JsxNode>>, Vec<String>)) -> (Option<Option<NodeV>>, Seq<Seq<char>>) {
    (match r.0 {
        Some(o) => Some(opt_node_view(o)),
        None => None,
    }, strings_view(r.1@))
}

/// Scans a block arrow body up to its first `return`.
#[verifier::loop_isolation(false)]
fn block_scan(ss: &Vec<JsStmt>, errors: &mut Vec<ParserError>) -> (r: (Option<Option<JsxNode>>, Vec<String>))
    ensures
        scan_view(r) == (c_block_scan(ss@).0, c_block_scan(ss@).1),
        grew(final(errors)@, old(errors)@, c_block_scan(ss@).2),
    decreases ss,
{
    let ghost e0 = errors@;
    let mut decls: Vec<String> = Vec::new();
    let mut i: usize = 0;
    assert(ss@.take(0) =~= Seq::<JsStmt>::empty());
    assert(strings_view(decls@) =~= Seq::<Seq<char>>::empty());
    proof { lemma_grew_none(errors@); }
    while i < ss.len()
        invariant
            i <= ss@.len(),
            c_block_scan(ss@.take(i as int)).0.is_none(),
            strings_view(decls@) == c_block_scan(ss@.take(i as int)).1,
            grew(errors@, e0, c_block_scan(ss@.take(i as int)).2),
        decreases ss.len() - i,
    {
        assert(ss@.take(i + 1).drop_last() =~= ss@.take(i as int));
        assert(ss@.take(i + 1).last() == ss@[i as int]);
        proof {
            assert(decreases_to!(ss => ss@[i as int]));
        }
        match &ss[i] {
            JsStmt::Return(Some(x)) => {
                let n = expr_to_jsx_node(x, errors);
                assert(issues_of(errors@) =~= issues_of(e0) + c_block_scan(ss@.take(i + 1)).2);
                proof { lemma_scan_prefix(ss@, i + 1); }
                return (Some(n), decls);
            },
            JsStmt::Return(None) => {
                proof { lemma_scan_prefix(ss@, i + 1); }
                return (Some(None), decls);
            },
            JsStmt::FnDecl { source: Some(src), .. } => {
                let ghost before = decls@;
                decls.push(owned(src.as_str()));
                assert(strings_view(decls@) =~= strings_view(before).push(src@));
            },
            JsStmt::Var { kind: VarKind::Const, source: Some(src), .. } => {
                let ghost before = decls@;
                decls.push(owned(src.as_str()));
                assert(strings_view(decls@) =~= strings_view(before).push(src@));
            },
            _ => {},
        }
        i += 1;
    }
    assert(ss@.take(ss@.len() as int) =~= ss@);
    (None, decls)
}

/// Once a return is met, the scan of a prefix is that of the whole block.
proof fn lemma_scan_prefix(ss: Seq<JsStmt>, n: int)
    requires
        0 <= n <= ss.len(),
        c_block_scan(ss.take(n)).0.is_some(),
    ensures
        c_block_scan(ss) == c_block_scan(ss.take(n)),
    decreases ss.len() - n,
{
    if n < ss.len() {
        assert(ss.take(n + 1).drop_last() =~= ss.take(n));
        lemma_scan_prefix(ss, n + 1);
    } else {
        assert(ss.take(n) =~= ss);
    }
}

/// A conditional branch or item result as a node, if it is one.
pub fn expr_to_jsx_node(e: &JsExpr, errors: &mut Vec<ParserError>) -> (r: Option<JsxNode>)
    ensures
        opt_node_view(r) == c_expr_node(*e).0,
        grew(final(errors)@, old(errors)@, c_expr_node(*e).1),
    decreases e,
{
    match e {
        JsExpr::Paren(x) => expr_to_jsx_node(x, errors),
        JsExpr::JsxElement(el) => Some(convert_jsx_element(el, errors)),
        JsExpr::JsxFragment(children) => {
            let kids = convert_children(children, errors);
            assert(attrs_view(Seq::<JsxAttr>::empty()) =~= Seq::<AttrV>::empty());
            Some(JsxNode::Element {
                tag: String::new(),
                attrs: Vec::new(),
                children: kids,
                is_hydrate_root: false,
                is_component: false,
            })
        },
        JsExpr::Lit(JsLit::Null) => {
            proof { lemma_grew_none(errors@); }
            Some(JsxNode::Text(String::new()))
        },
        JsExpr::Ident(s) => {
            proof { lemma_grew_none(errors@); }
            if str_eq(s.as_str(), "undefined") {
                Some(JsxNode::Text(String::new()))
            } else {
                None
            }
        },
        _ => {
            proof { lemma_grew_none(errors@); }
            None
        },
    }
}

/// A `cond ? a : b` whose branches are both nodes, as a conditional node.
pub fn extract_conditional(e: &JsExpr, errors: &mut Vec<ParserError>) -> (r: Option<JsxNode>)
    ensures
        opt_node_view(r) == c_cond(*e).0,
        grew(final(errors)@, old(errors)@, c_cond(*e).1),
    decreases e,
{
    match e {
        JsExpr::Cond(t, c, a) => {
            let ghost e0 = errors@;
            let cons = match expr_to_jsx_node(c, errors) {
                Some(n) => n,
                None => return None,
            };
            let ghost e1 = errors@;
            let alt = match expr_to_jsx_node(a, errors) {
                Some(n) => n,
                None => {
                    assert(issues_of(errors@) =~= issues_of(e0) + c_cond(*e).1);
                    return None;
                },
            };
            let test = format_jsx_expr(t, errors);
            assert(issues_of(errors@) =~= issues_of(e0) + c_cond(*e).1);
            Some(JsxNode::Conditional { test, cons: Box::new(cons), alt: Box::new(alt) })
        },
        _ => {
            proof { lemma_grew_none(errors@); }
            None
        },
    }
}

/// A child of an element or fragment as a node.
pub fn convert_jsx_child(ch: &JsxChild, errors: &mut Vec<ParserError>) -> (r: JsxNode)
    ensures
        node_view(r) == c_child(*ch).0,
        grew(final(errors)@, old(errors)@, c_child(*ch).1),
    decreases ch,
{
    match ch {
        JsxChild::Element(el) => convert_jsx_element(el, errors),
        JsxChild::Fragment(children) => {
            let kids = convert_children(children, errors);
            assert(attrs_view(Seq::<JsxAttr>::empty()) =~= Seq::<AttrV>::empty());
            JsxNode::Element {
                tag: String::new(),
                attrs: Vec::new(),
                children: kids,
                is_hydrate_root: false,
                is_component: false,
            }
        },
        JsxChild::Text(raw) => {
            proof { lemma_grew_none(errors@); }
            JsxNode::Text(jsx_text_to_string(raw.as_str()))
        },
        JsxChild::Expr(e) => {
            let ghost e0 = errors@;
            match extract_conditional(e, errors) {
                Some(n) => n,
                None => {
                    let text = format_jsx_expr(e, errors);
                    assert(issues_of(errors@) =~= issues_of(e0) + c_child(*ch).1);
                    JsxNode::Expr(text)
                },
            }
        },
        JsxChild::Empty => {
            proof { lemma_grew_none(errors@); }
            JsxNode::Text(String::new())
        },
        JsxChild::Spread => {
            push_issue(errors, unsupported_error(Unsupported::SpreadChild));
            assert(issues_of(old(errors)@).push(unsupported_issue(Unsupported::SpreadChild))
                =~= issues_of(old(errors)@) + seq![unsupported_issue(Unsupported::SpreadChild)]);
            JsxNode::Text(String::new())
        },
    }
}

fn convert_children(cs: &Vec<JsxChild>, errors: &mut Vec<ParserError>) -> (r: Vec<JsxNode>)
    ensures
        nodes_view(r@) == c_children(cs@).0,
        grew(final(errors)@, old(errors)@, c_children(cs@).1),
    decreases cs,
{
    let ghost e0 = errors@;
    let mut out: Vec<JsxNode> = Vec::new();
    let mut i: usize = 0;
    assert(cs@.take(0) =~= Seq::<JsxChild>::empty());
    assert(nodes_view(out@) =~= Seq::<NodeV>::empty());
    proof { lemma_grew_none(errors@); }
    while i < cs.len()
        invariant
            i <= cs@.len(),
            nodes_view(out@) == c_children(cs@.take(i as int)).0,
            grew(errors@, e0, c_children(cs@.take(i as int)).1),
        decreases cs.len() - i,
    {
        assert(cs@.take(i + 1).drop_last() =~= cs@.take(i as int));
        assert(cs@.take(i + 1).last() == cs@[i as int]);
        proof {
            assert(decreases_to!(cs => cs@[i as int]));
        }
        let ghost before = out@;
        let n = convert_jsx_child(&cs[i], errors);
        out.push(n);
        assert(out@.drop_last() =~= before);
        assert(issues_of(errors@) =~= issues_of(e0) + c_children(cs@.take(i + 1)).1);
        i += 1;
    }
    assert(cs@.take(cs@.len() as int) =~= cs@);
    out
}

/// A fragment `<>..</>` as a tag-less element.
pub fn convert_jsx_fragment(children: &Vec<JsxChild>, errors: &mut Vec<ParserError>) -> (r: JsxNode)
    ensures
        node_view(r) == fragment_node(c_children(children@).0),
        grew(final(errors)@, old(errors)@, c_children(children@).1),
{
    let kids = convert_children(children, errors);
    assert(attrs_view(Seq::<JsxAttr>::empty()) =~= Seq::<AttrV>::empty());
    JsxNode::Element {
        tag: String::new(),
        attrs: Vec::new(),
        children: kids,
        is_hydrate_root: false,
        is_component: false,
    }
}

/// A `<For>` element as a loop node (see [`for_node`]).
pub fn extract_for_element(el: &JsxElem, errors: &mut Vec<ParserError>) -> (r: JsxNode)
    ensures
        node_view(r) == for_node(c_for_attrs(el.attrs@), c_for_body(el.children@)).0,
        grew(final(errors)@, old(errors)@, for_node(c_for_attrs(el.attrs@), c_for_body(el.children@)).1),
{
    let ghost e0 = errors@;
    let (each, key_fn) = for_attrs(&el.attrs, errors);
    let found = for_body(&el.children, errors);
    let r = for_node_of(each, key_fn, found);
    assert(issues_of(errors@) =~= issues_of(e0)
        + for_node(c_for_attrs(el.attrs@), c_for_body(el.children@)).1);
    r
}

/// The render tree of an expression that is JSX (through parentheses).
pub open spec fn c_jsx_of(e: JsExpr) -> (Option<NodeV>, Seq<Issue>)
    decreases e,
{
    match e {
        JsExpr::Paren(x) => c_jsx_of(*x),
        JsExpr::JsxElement(el) => {
            let r = c_elem(*el);
            (Some(r.0), r.1)
        },
        JsExpr::JsxFragment(children) => {
            let r = c_children(children@);
            (Some(fragment_node(r.0)), r.1)
        },
        _ => (None, Seq::empty()),
    }
}

/// The render tree of a component's returned expression, if it is JSX.
pub fn extract_jsx_from_expr(e: &JsExpr, errors: &mut Vec<ParserError>) -> (r: Option<JsxNode>)
    ensures
        opt_node_view(r) == c_jsx_of(*e).0,
        grew(final(errors)@, old(errors)@, c_jsx_of(*e).1),
    decreases e,
{
    match e {
        JsExpr::Paren(x) => extract_jsx_from_expr(x, errors),
        JsExpr::JsxElement(el) => Some(convert_jsx_element(el, errors)),
        JsExpr::JsxFragment(children) => Some(convert_jsx_fragment(children, errors)),
        _ => {
            proof { lemma_grew_none(errors@); }
            None
        },
    }
}

} // verus!
