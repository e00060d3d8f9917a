//! The client renderer: a render tree becomes DOM-building JavaScript,
//! with `bind()` effects wherever an expression reads a signal.

use vstd::prelude::*;
use crate::ast::{ComponentFile, JsxAttr, JsxAttrValue, JsxNode, PropsInfo, SignalDecl, SignalKind};
use crate::codegen::{
    SignalRead, event_name, is_boolean_attr, is_boolean_attr_name, is_event_attr,
    const_init, extract_const_init, is_reactive_derived_const, reactive_derived_const,
    is_reactive_expr, is_signal_name, is_unwrapped_signal, line, needs_property_assignment,
    props_object, push_object_literal, prop_pairs, reads_signal, unwrapped_signal_spec,
};
use crate::tree::{
    collect_component_imports, component_imports, has_dynamic, has_for_each_or_conditional,
    pair_views, reads_tree, style_expr, tags_acc, tree_has_style_expr, tree_reads_signal,
};
use crate::text::{
    Escape, chars_of, dec, escape, escaped, join, lines, owned, push_dec, push_escaped, push_join, repeat,
    push_str, split_lines, str_eq, string_of, trim, trim_end_matches, vec_trim, vec_trim_end_matches,
    views,
};

verus! {

broadcast use vstd::string::group_string_axioms;

/// Source of the numbers in generated variable names.
pub struct AtomicCounter {
    pub n: u32,
}

impl AtomicCounter {
    pub fn new() -> (r: AtomicCounter)
        ensures
            r.n == 0,
    {
        AtomicCounter { n: 0 }
    }

    /// The current number; the counter moves on by one.
    pub fn next(&mut self) -> (r: u32)
        requires
            old(self).n < u32::MAX,
        ensures
            r == old(self).n,
            final(self).n == old(self).n + 1,
    {
        let v = self.n;
        self.n = self.n + 1;
        v
    }
}

/// What the client renderer knows about reactivity: the signal names in
/// scope, the props parameter, and the analyser's answers.
pub struct ClientCtx<'a> {
    pub signal_names: Vec<String>,
    pub props_param: String,
    pub reads: &'a Vec<SignalRead>,
}

/// The reactivity context as values: signal names, props parameter,
/// answers table.
pub type Reactivity = (Seq<Seq<char>>, Seq<char>, Seq<SignalRead>);

impl<'a> View for ClientCtx<'a> {
    type V = Reactivity;

    open spec fn view(&self) -> Reactivity {
        (views(self.signal_names@), self.props_param@, self.reads@)
    }
}

pub open spec fn reactive(ctx: Reactivity, e: Seq<char>) -> bool {
    reads_signal(ctx.2, e, ctx.0, ctx.1)
}

fn ctx_reactive(ctx: &ClientCtx, e: &str) -> (r: bool)
    ensures
        r == reactive(ctx@, e@),
{
    is_reactive_expr(e, &ctx.signal_names, ctx.props_param.as_str(), ctx.reads)
}

/// A generated variable name: prefix and number.
pub open spec fn var_name(prefix: Seq<char>, n: nat) -> Seq<char> {
    prefix + dec(n)
}

fn make_var(prefix: &str, counter: &mut AtomicCounter) -> (r: String)
    requires
        old(counter).n < u32::MAX,
    ensures
        r@ == var_name(prefix@, old(counter).n as nat),
        final(counter).n == old(counter).n + 1,
{
    let n = counter.next();
    let mut v = owned(prefix);
    push_dec(&mut v, n as u64);
    v
}

/// Text node: its line and its variable.
pub open spec fn text_node_line(v: Seq<char>, t: Seq<char>) -> Seq<char> {
    "const "@ + v + " = document.createTextNode('"@ + escaped(Escape::JsQuoteNewline, t) + "');"@
}

pub fn gen_text(text: &str, output: &mut String, counter: &mut AtomicCounter, indent: usize) -> (r:
    String)
    requires
        old(counter).n < u32::MAX,
    ensures
        r@ == var_name("txt"@, old(counter).n as nat),
        final(counter).n == old(counter).n + 1,
        final(output)@ == old(output)@ + line(indent as nat, text_node_line(r@, text@)),
{
    let var = make_var("txt", counter);
    let mut s = owned("const ");
    push_str(&mut s, var.as_str());
    push_str(&mut s, " = document.createTextNode('");
    push_escaped(&mut s, text, Escape::JsQuoteNewline);
    push_str(&mut s, "');");
    assert(s@ =~= text_node_line(var@, text@));
    crate::codegen::writeln(output, indent, s.as_str());
    var
}

/// Expression text node: creation line plus, when reactive, its effect.
pub open spec fn expr_node_text(v: Seq<char>, e: Seq<char>, indent: nat, is_reactive: bool) -> Seq<
    char,
> {
    line(indent, "const "@ + v + " = document.createTextNode("@ + e + ");"@) + (if is_reactive {
        line(indent, "bind(() => { "@ + v + ".nodeValue = "@ + e + "; });"@)
    } else {
        Seq::<char>::empty()
    })
}

pub fn gen_expr(
    expr: &str,
    output: &mut String,
    counter: &mut AtomicCounter,
    indent: usize,
    ctx: &ClientCtx,
) -> (r: String)
    requires
        old(counter).n < u32::MAX,
    ensures
        r@ == var_name("txt"@, old(counter).n as nat),
        final(counter).n == old(counter).n + 1,
        final(output)@ == old(output)@ + expr_node_text(
            r@,
            expr@,
            indent as nat,
            reactive(ctx@, expr@),
        ),
{
    let var = make_var("txt", counter);
    let mut s = owned("const ");
    push_str(&mut s, var.as_str());
    push_str(&mut s, " = document.createTextNode(");
    push_str(&mut s, expr);
    push_str(&mut s, ");");
    crate::codegen::writeln(output, indent, s.as_str());
    if ctx_reactive(ctx, expr) {
        let mut b = owned("bind(() => { ");
        push_str(&mut b, var.as_str());
        push_str(&mut b, ".nodeValue = ");
        push_str(&mut b, expr);
        push_str(&mut b, "; });");
        crate::codegen::writeln(output, indent, b.as_str());
    }
    assert(output@ =~= old(output)@ + expr_node_text(
        var@,
        expr@,
        indent as nat,
        reactive(ctx@, expr@),
    ));
    var
}

pub fn gen_expr_text_node(
    expr: &str,
    output: &mut String,
    counter: &mut AtomicCounter,
    indent: usize,
    ctx: &ClientCtx,
) -> (r: String)
    requires
        old(counter).n < u32::MAX,
    ensures
        r@ == var_name("txt"@, old(counter).n as nat),
        final(counter).n == old(counter).n + 1,
        final(output)@ == old(output)@ + expr_node_text(
            r@,
            expr@,
            indent as nat,
            reactive(ctx@, expr@),
        ),
{
    gen_expr(expr, output, counter, indent, ctx)
}

/// The first expression attribute that unwraps a signal at a component
/// call site (`label={label.value}`): its name and expression.
pub open spec fn first_unwrapped(attrs: Seq<JsxAttr>, names: Seq<Seq<char>>) -> Option<(Seq<char>, Seq<char>)>
    decreases attrs.len(),
{
    if attrs.len() == 0 {
        None
    } else {
        match attrs[0].value {
            JsxAttrValue::Expr(e) => if unwrapped_signal_spec(e@, names) {
                Some((attrs[0].name@, e@))
            } else {
                first_unwrapped(attrs.drop_first(), names)
            },
            JsxAttrValue::String(_) => first_unwrapped(attrs.drop_first(), names),
        }
    }
}

/// The PROP_UNWRAPPED_SIGNAL message for attribute `name={expr}` on `<tag>`.
pub open spec fn unwrapped_message(tag: Seq<char>, name: Seq<char>, expr: Seq<char>) -> Seq<char> {
    let sig = trim_end_matches(expr, ".value"@);
    "PROP_UNWRAPPED_SIGNAL: attribute '"@ + name + "="@ + expr + "' on <"@ + tag
        + "> unwraps signal '"@ + sig + "' at the call site. Pass the signal by reference: <"@
        + tag + " "@ + name + "={"@ + sig
        + "}> and read .value inside the child component's bind()."@
}

fn unwrapped_error(tag: &str, name: &str, expr: &str) -> (r: String)
    ensures
        r@ == unwrapped_message(tag@, name@, expr@),
{
    let sig = string_of(&vec_trim_end_matches(&chars_of(expr), &chars_of(".value")));
    let mut m = owned("PROP_UNWRAPPED_SIGNAL: attribute '");
    push_str(&mut m, name);
    push_str(&mut m, "=");
    push_str(&mut m, expr);
    push_str(&mut m, "' on <");
    push_str(&mut m, tag);
    push_str(&mut m, "> unwraps signal '");
    push_str(&mut m, sig.as_str());
    push_str(&mut m, "' at the call site. Pass the signal by reference: <");
    push_str(&mut m, tag);
    push_str(&mut m, " ");
    push_str(&mut m, name);
    push_str(&mut m, "={");
    push_str(&mut m, sig.as_str());
    push_str(&mut m, "}> and read .value inside the child component's bind().");
    assert(m@ =~= unwrapped_message(tag@, name@, expr@));
    m
}

/// The call line of a child component: `const elN = Tag({ ... });`.
pub open spec fn component_line(v: Seq<char>, tag: Seq<char>, attrs: Seq<JsxAttr>) -> Seq<char> {
    "const "@ + v + " = "@ + tag + "("@ + props_object(attrs) + ");"@
}

/// A child component call: one-shot, signals passed by reference, a
/// `.value` unwrap at the call site refused.
pub fn gen_component_call(
    tag: &str,
    attrs: &Vec<JsxAttr>,
    output: &mut String,
    counter: &mut AtomicCounter,
    indent: usize,
    signal_names: &Vec<String>,
) -> (r: Result<String, String>)
    requires
        old(counter).n < u32::MAX,
    ensures
        match first_unwrapped(attrs@, views(signal_names@)) {
            Some((name, expr)) => r matches Err(m) && m@ == unwrapped_message(tag@, name, expr)
                && final(output)@ == old(output)@ && final(counter).n == old(counter).n,
            None => r matches Ok(v) && v@ == var_name("el"@, old(counter).n as nat)
                && final(counter).n == old(counter).n + 1 && final(output)@ == old(output)@ + line(
                indent as nat,
                component_line(v@, tag@, attrs@),
            ),
        },
{
    let mut pairs: Vec<String> = Vec::new();
    let mut i: usize = 0;
    assert(attrs@.skip(0) =~= attrs@);
    while i < attrs.len()
        invariant
            i <= attrs@.len(),
            first_unwrapped(attrs@, views(signal_names@)) == first_unwrapped(
                attrs@.skip(i as int),
                views(signal_names@),
            ),
            views(pairs@) == prop_pairs(attrs@.take(i as int)),
            output@ == old(output)@,
            counter.n == old(counter).n,
        decreases attrs.len() - i,
    {
        let a = &attrs[i];
        assert(attrs@.skip(i as int)[0] == attrs@[i as int]);
        assert(attrs@.skip(i as int).drop_first() =~= attrs@.skip(i + 1));
        let mut p = a.name.clone();
        match &a.value {
            JsxAttrValue::Expr(expr) => {
                if is_unwrapped_signal(expr.as_str(), signal_names) {
                    return Err(unwrapped_error(tag, a.name.as_str(), expr.as_str()));
                }
                push_str(&mut p, ": ");
                push_str(&mut p, expr.as_str());
            },
            JsxAttrValue::String(s) => {
                push_str(&mut p, ": '");
                push_escaped(&mut p, s.as_str(), Escape::JsQuote);
                push_str(&mut p, "'");
            },
        }
        let ghost before = pairs@;
        pairs.push(p);
        assert(attrs@.take(i + 1) =~= attrs@.take(i as int).push(attrs@[i as int]));
        assert(prop_pairs(attrs@.take(i + 1)) =~= prop_pairs(attrs@.take(i as int)).push(
            crate::codegen::prop_pair(attrs@[i as int]),
        ));
        assert(views(pairs@) =~= views(before).push(pairs@[i as int]@));
        i += 1;
    }
    assert(attrs@.take(attrs@.len() as int) =~= attrs@);
    assert(attrs@.skip(attrs@.len() as int).len() == 0);
    let var = make_var("el", counter);
    let mut s = owned("const ");
    push_str(&mut s, var.as_str());
    push_str(&mut s, " = ");
    push_str(&mut s, tag);
    push_str(&mut s, "(");
    push_object_literal(&mut s, &pairs);
    push_str(&mut s, ");");
    assert(s@ =~= component_line(var@, tag@, attrs@));
    crate::codegen::writeln(output, indent, s.as_str());
    Ok(var)
}

/// Counter numbers a tree may consume: one per text, expression, element
/// or component, three per conditional, four per list.
pub open spec fn cost(node: JsxNode) -> nat
    decreases node,
{
    match node {
        JsxNode::Element { children, .. } => 1 + cost_list(children@),
        JsxNode::Conditional { cons, alt, .. } => 3 + cost(*cons) + cost(*alt),
        JsxNode::ForEach { body, .. } => 4 + cost(*body),
        _ => 1,
    }
}

pub open spec fn cost_list(nodes: Seq<JsxNode>) -> nat
    decreases nodes,
{
    if nodes.len() == 0 {
        0
    } else {
        cost_list(nodes.drop_last()) + cost(nodes.last())
    }
}

/// The line of one attribute of a DOM element `v`.
pub open spec fn attr_text(v: Seq<char>, a: JsxAttr, ind: nat, ctx: Reactivity) -> Seq<char> {
    match event_name(a.name@) {
        Some(ev) => match a.value {
            JsxAttrValue::Expr(h) => line(
                ind,
                v + ".addEventListener('"@ + ev + "', "@ + h@ + ");"@,
            ),
            JsxAttrValue::String(_) => Seq::<char>::empty(),
        },
        None => match a.value {
            JsxAttrValue::String(val) => line(
                ind,
                v + ".setAttribute('"@ + a.name@ + "', '"@ + escaped(Escape::JsQuote, val@) + "');"@,
            ),
            JsxAttrValue::Expr(e) => {
                let name = a.name@;
                if is_boolean_attr_name(name) {
                    let set = v + ".setAttribute('"@ + name + "', '')"@;
                    let rem = v + ".removeAttribute('"@ + name + "')"@;
                    if reactive(ctx, e@) {
                        line(
                            ind,
                            "bind(() => { if ("@ + e@ + ") { "@ + set + "; } else { "@ + rem
                                + "; } });"@,
                        )
                    } else {
                        line(ind, "if ("@ + e@ + ") { "@ + set + "; } else { "@ + rem + "; }"@)
                    }
                } else {
                    let dom = if name == "style"@ {
                        v + ".setAttribute('"@ + name + "', styleString("@ + e@ + "))"@
                    } else if name == "value"@ {
                        v + "."@ + name + " = "@ + e@
                    } else {
                        v + ".setAttribute('"@ + name + "', "@ + e@ + ")"@
                    };
                    if reactive(ctx, e@) {
                        line(ind, "bind(() => { "@ + dom + "; });"@)
                    } else {
                        line(ind, dom + ";"@)
                    }
                }
            },
        },
    }
}

/// A boolean attribute bound to an expression `e` (`disabled={e}`, ...) is
/// set when `e` is truthy and removed when it is falsy: the attribute's
/// line holds `if (e) { v.setAttribute(name, ''); } else {
/// v.removeAttribute(name); }`, inside a `bind` when `e` reads a signal.
pub proof fn law_boolean_attr_set_when_truthy(v: Seq<char>, a: JsxAttr, ind: nat, ctx: Reactivity)
    requires
        is_boolean_attr_name(a.name@),
        a.value is Expr,
    ensures
        ({
            let e = a.value->Expr_0@;
            let toggle = "if ("@ + e + ") { "@ + (v + ".setAttribute('"@ + a.name@ + "', '')"@) + "; } else { "@
                + (v + ".removeAttribute('"@ + a.name@ + "')"@) + "; }"@;
            attr_text(v, a, ind, ctx) == if reactive(ctx, e) {
                repeat("  "@, ind) + "bind(() => { "@ + toggle + " });"@ + "\n"@
            } else {
                repeat("  "@, ind) + toggle + "\n"@
            }
        }),
{
    crate::codegen::lemma_boolean_not_event(a.name@);
    reveal_strlit("bind(() => { if (");
    reveal_strlit("bind(() => { ");
    reveal_strlit("if (");
    reveal_strlit("; } });");
    reveal_strlit("; }");
    reveal_strlit(" });");
    let e = a.value->Expr_0@;
    let set = v + ".setAttribute('"@ + a.name@ + "', '')"@;
    let rem = v + ".removeAttribute('"@ + a.name@ + "')"@;
    let toggle = "if ("@ + e + ") { "@ + set + "; } else { "@ + rem + "; }"@;
    if reactive(ctx, e) {
        assert("bind(() => { if ("@ + e + ") { "@ + set + "; } else { "@ + rem + "; } });"@ =~= "bind(() => { "@
            + toggle + " });"@);
    }
}

/// Any other attribute bound to an expression `e` takes its value: `value`
/// is assigned as the element's property, `style` goes through
/// `styleString`, every other name is set with `setAttribute`; the
/// statement sits inside a `bind` exactly when `e` reads a signal.
pub proof fn law_expr_attr_applies_value(v: Seq<char>, a: JsxAttr, ind: nat, ctx: Reactivity)
    requires
        event_name(a.name@) is None,
        !is_boolean_attr_name(a.name@),
        a.value is Expr,
    ensures
        ({
            let e = a.value->Expr_0@;
            let name = a.name@;
            let op = if name == "value"@ {
                v + ".value = "@ + e
            } else if name == "style"@ {
                v + ".setAttribute('style', styleString("@ + e + "))"@
            } else {
                v + ".setAttribute('"@ + name + "', "@ + e + ")"@
            };
            attr_text(v, a, ind, ctx) == if reactive(ctx, e) {
                repeat("  "@, ind) + "bind(() => { "@ + op + "; });"@ + "\n"@
            } else {
                repeat("  "@, ind) + op + ";"@ + "\n"@
            }
        }),
{
    reveal_strlit(".value = ");
    reveal_strlit(".");
    reveal_strlit(" = ");
    reveal_strlit("value");
    reveal_strlit("style");
    reveal_strlit(".setAttribute('style', styleString(");
    reveal_strlit(".setAttribute('");
    reveal_strlit("', styleString(");
    let e = a.value->Expr_0@;
    let name = a.name@;
    if name == "value"@ {
        assert(v + "."@ + name + " = "@ + e =~= v + ".value = "@ + e);
    } else if name == "style"@ {
        assert(v + ".setAttribute('"@ + name + "', styleString("@ + e + "))"@ =~= v
            + ".setAttribute('style', styleString("@ + e + "))"@);
    }
}

/// A literal attribute (`class="x"`) is set once, its text written as a
/// single-quoted JavaScript string with `\` and `'` escaped.
pub proof fn law_string_attr_set_escaped(v: Seq<char>, a: JsxAttr, ind: nat, ctx: Reactivity)
    requires
        event_name(a.name@) is None,
        a.value is String,
    ensures
        attr_text(v, a, ind, ctx) == repeat("  "@, ind) + v + ".setAttribute('"@ + a.name@ + "', '"@
            + escaped(Escape::JsQuote, a.value->String_0@) + "');"@ + "\n"@,
{
}

pub open spec fn attrs_text(v: Seq<char>, attrs: Seq<JsxAttr>, ind: nat, ctx: Reactivity) -> Seq<
    char,
>
    decreases attrs.len(),
{
    if attrs.len() == 0 {
        seq![]
    } else {
        attrs_text(v, attrs.drop_last(), ind, ctx) + attr_text(v, attrs.last(), ind, ctx)
    }
}

/// Element, conditional or list: a child that needs its own node.
pub open spec fn is_structural(c: JsxNode) -> bool {
    c is Element || c is Conditional || c is ForEach
}

/// The only child of an element, when it is text or an expression: set as
/// `textContent`.
pub open spec fn single_child_text(v: Seq<char>, c: JsxNode, ind: nat, ctx: Reactivity) -> Seq<char> {
    match c {
        JsxNode::Text(t) => line(
            ind,
            v + ".textContent = '"@ + escaped(Escape::JsQuoteNewline, t@) + "';"@,
        ),
        JsxNode::Expr(e) => if reactive(ctx, e@) {
            line(ind, "bind(() => { "@ + v + ".textContent = "@ + e@ + "; });"@)
        } else {
            line(ind, v + ".textContent = "@ + e@ + ";"@)
        },
        _ => Seq::<char>::empty(),
    }
}

/// The lines of a conditional after both branches were built.
#[verifier::opaque]
pub open spec fn cond_lines(
    test: Seq<char>,
    a: Seq<char>,
    f: Seq<char>,
    c: Seq<char>,
    tv: Seq<char>,
    fv: Seq<char>,
    ind: nat,
) -> Seq<char> {
    line(ind, "const "@ + a + " = document.createComment('');"@) + line(
        ind,
        "const "@ + f + " = document.createDocumentFragment();"@,
    ) + line(ind, "let "@ + c + " = "@ + test + " ? "@ + tv + " : "@ + fv + ";"@) + line(
        ind,
        f + ".appendChild("@ + c + ");"@,
    ) + line(ind, f + ".appendChild("@ + a + ");"@) + line(
        ind,
        "bind(() => { const _nx = "@ + test + " ? "@ + tv + " : "@ + fv + "; if (_nx !== "@ + c
            + ") { "@ + c + ".remove(); "@ + a + ".parentNode.insertBefore(_nx, "@ + a + "); "@ + c
            + " = _nx; } });"@,
    )
}

/// The lines of a list before its render function's body.
#[verifier::opaque]
pub open spec fn for_head(
    a: Seq<char>,
    f: Seq<char>,
    m: Seq<char>,
    r: Seq<char>,
    item: Seq<char>,
    ind: nat,
) -> Seq<char> {
    line(ind, "const "@ + a + " = document.createComment('');"@) + line(
        ind,
        "const "@ + f + " = document.createDocumentFragment();"@,
    ) + line(ind, f + ".appendChild("@ + a + ");"@) + line(ind, "const "@ + m + " = {};"@) + line(
        ind,
        "function "@ + r + "("@ + item + ") {"@,
    )
}

/// Every line of every declaration, indented.
pub open spec fn decl_lines(decls: Seq<Seq<char>>, ind: nat) -> Seq<char>
    decreases decls.len(),
{
    if decls.len() == 0 {
        seq![]
    } else {
        decl_lines(decls.drop_last(), ind) + lines_text(lines(decls.last()), ind)
    }
}

pub open spec fn lines_text(ls: Seq<Seq<char>>, ind: nat) -> Seq<char>
    decreases ls.len(),
{
    if ls.len() == 0 {
        seq![]
    } else {
        lines_text(ls.drop_last(), ind) + line(ind, ls.last())
    }
}

/// The keyed reconciliation effect of a list: read the keys, drop stale
/// nodes, insert/reorder the rest.
pub open spec fn for_tail(
    each: Seq<char>,
    key: Seq<char>,
    m: Seq<char>,
    r: Seq<char>,
    a: Seq<char>,
    f: Seq<char>,
    ind: nat,
) -> Seq<char> {
    for_tail_keys(each, key, ind) + for_tail_drop(m, ind) + for_tail_place(m, r, a, f, ind)
}

#[verifier::opaque]
pub open spec fn for_tail_keys(each: Seq<char>, key: Seq<char>, ind: nat) -> Seq<char> {
    let bi = ind + 1;
    line(ind, "bind(() => {"@) + line(bi, "const _list = "@ + each + ";"@) + line(
        bi,
        "const _seen = {};"@,
    ) + line(bi, "const _order = [];"@) + line(bi, "for (let _i = 0; _i < _list.length; _i++) {"@)
        + line(bi + 1, "const _key = ("@ + key + ") (_list[_i]);"@) + line(
        bi + 1,
        "_seen[_key] = _list[_i];"@,
    ) + line(bi + 1, "_order.push(_key);"@) + line(bi, "}"@)
}

#[verifier::opaque]
pub open spec fn for_tail_drop(m: Seq<char>, ind: nat) -> Seq<char> {
    let bi = ind + 1;
    line(bi, "for (const _k in "@ + m + ") {"@) + line(bi + 1, "if (!(_k in _seen)) {"@) + line(
        bi + 2,
        m + "[_k].remove();"@,
    ) + line(bi + 2, "delete "@ + m + "[_k];"@) + line(bi + 1, "}"@) + line(bi, "}"@)
}

pub open spec fn for_tail_place(
    m: Seq<char>,
    r: Seq<char>,
    a: Seq<char>,
    f: Seq<char>,
    ind: nat,
) -> Seq<char> {
    for_tail_seed(a, f, ind) + for_tail_fetch(m, r, ind) + for_tail_move(ind)
}

#[verifier::opaque]
pub open spec fn for_tail_seed(a: Seq<char>, f: Seq<char>, ind: nat) -> Seq<char> {
    let bi = ind + 1;
    line(bi, "const _parent = "@ + a + ".parentNode || "@ + f + ";"@) + line(
        bi,
        "let _ref = "@ + a + ";"@,
    ) + line(bi, "for (let _i = _order.length - 1; _i >= 0; _i--) {"@)
}

#[verifier::opaque]
pub open spec fn for_tail_fetch(m: Seq<char>, r: Seq<char>, ind: nat) -> Seq<char> {
    let bi = ind + 1;
    line(bi + 1, "const _key = _order[_i];"@) + line(bi + 1, "if (!"@ + m + "[_key]) {"@) + line(
        bi + 2,
        m + "[_key] = "@ + r + "(_seen[_key]);"@,
    ) + line(bi + 1, "}"@) + line(bi + 1, "const _n = "@ + m + "[_key];"@)
}

#[verifier::opaque]
pub open spec fn for_tail_move(ind: nat) -> Seq<char> {
    let bi = ind + 1;
    line(bi + 1, "if (_n.nextSibling !== _ref) {"@) + line(bi + 2, "_parent.insertBefore(_n, _ref);"@)
        + line(bi + 1, "}"@) + line(bi + 1, "_ref = _n;"@) + line(bi, "}"@) + line(ind, "});"@)
}

/// Client code of a node built with counter `n` at indentation `ind`: the
/// appended text, the counter afterwards, the node's variable; or the first
/// call-site error.
pub open spec fn client_node(node: JsxNode, n: nat, ind: nat, ctx: Reactivity) -> Result<
    (Seq<char>, nat, Seq<char>),
    Seq<char>,
>
    decreases node,
{
    match node {
        JsxNode::Text(t) => {
            let v = var_name("txt"@, n);
            Ok((line(ind, text_node_line(v, t@)), n + 1, v))
        },
        JsxNode::Expr(e) => {
            let v = var_name("txt"@, n);
            Ok((expr_node_text(v, e@, ind, reactive(ctx, e@)), n + 1, v))
        },
        JsxNode::Element { tag, attrs, children, is_component, .. } => {
            if is_component {
                match first_unwrapped(attrs@, ctx.0) {
                    Some((nm, ex)) => Err(unwrapped_message(tag@, nm, ex)),
                    None => {
                        let v = var_name("el"@, n);
                        Ok((line(ind, component_line(v, tag@, attrs@)), n + 1, v))
                    },
                }
            } else {
                let v = var_name("el"@, n);
                if tag@.len() == 0 {
                    if children@.len() == 1 {
                        client_node(children@[0], n + 1, ind, ctx)
                    } else {
                        match client_children(children@, v, n + 1, ind, ctx) {
                            Ok((t, n2)) => Ok((
                                line(ind, "const "@ + v + " = document.createDocumentFragment();"@)
                                    + t,
                                n2,
                                v,
                            )),
                            Err(e) => Err(e),
                        }
                    }
                } else {
                    let head = line(
                        ind,
                        "const "@ + v + " = document.createElement('"@ + tag@ + "');"@,
                    ) + attrs_text(v, attrs@, ind, ctx);
                    if children@.len() == 1 && !is_structural(children@[0]) {
                        Ok((head + single_child_text(v, children@[0], ind, ctx), n + 1, v))
                    } else {
                        match client_children(children@, v, n + 1, ind, ctx) {
                            Ok((t, n2)) => Ok((head + t, n2, v)),
                            Err(e) => Err(e),
                        }
                    }
                }
            }
        },
        JsxNode::Conditional { test, cons, alt } => {
            let a = var_name("_an"@, n);
            let f = var_name("_fr"@, n + 1);
            let c = var_name("_cu"@, n + 2);
            match client_node(*cons, n + 3, ind + 1, ctx) {
                Err(e) => Err(e),
                Ok((t1, n1, tv)) => match client_node(*alt, n1, ind + 1, ctx) {
                    Err(e) => Err(e),
                    Ok((t2, n2, fv)) => Ok((t1 + t2 + cond_lines(test@, a, f, c, tv, fv, ind), n2, f)),
                },
            }
        },
        JsxNode::ForEach { each, key_fn, item_param, body, for_body_decls } => {
            let a = var_name("_fa"@, n);
            let f = var_name("_ff"@, n + 1);
            let m = var_name("_fm"@, n + 2);
            let r = var_name("_r"@, n + 3);
            match client_node(*body, n + 4, ind + 1, ctx) {
                Err(e) => Err(e),
                Ok((tb, nb, bv)) => Ok((
                    for_head(a, f, m, r, item_param@, ind) + decl_lines(views(for_body_decls@), ind + 1)
                        + tb + line(ind + 1, "return "@ + bv + ";"@) + line(ind, "}"@) + for_tail(
                        each@,
                        key_fn@,
                        m,
                        r,
                        a,
                        f,
                        ind,
                    ),
                    nb,
                    f,
                )),
            }
        },
    }
}

/// Children built in order, each appended to `v`.
pub open spec fn client_children(
    children: Seq<JsxNode>,
    v: Seq<char>,
    n: nat,
    ind: nat,
    ctx: Reactivity,
) -> Result<(Seq<char>, nat), Seq<char>>
    decreases children,
{
    if children.len() == 0 {
        Ok((seq![], n))
    } else {
        match client_children(children.drop_last(), v, n, ind, ctx) {
            Err(e) => Err(e),
            Ok((t, n1)) => match client_node(children.last(), n1, ind, ctx) {
                Err(e) => Err(e),
                Ok((tc, n2, cv)) => Ok((t + tc + line(ind, v + ".appendChild("@ + cv + ");"@), n2)),
            },
        }
    }
}

/// The cost of the first `k` nodes never exceeds the cost of them all.
pub proof fn lemma_cost_prefix(nodes: Seq<JsxNode>, k: int)
    requires
        0 <= k <= nodes.len(),
    ensures
        cost_list(nodes.take(k)) <= cost_list(nodes),
    decreases nodes.len() - k,
{
    if k < nodes.len() {
        assert(nodes.take(k + 1).drop_last() =~= nodes.take(k));
        lemma_cost_prefix(nodes, k + 1);
    } else {
        assert(nodes.take(k) =~= nodes);
    }
}

fn push_line2(output: &mut String, indent: usize, a: &str, b: &str)
    ensures
        final(output)@ == old(output)@ + line(indent as nat, a@ + b@),
{
    let mut s = owned(a);
    push_str(&mut s, b);
    crate::codegen::writeln(output, indent, s.as_str());
}

fn gen_attr(output: &mut String, v: &str, a: &JsxAttr, indent: usize, ctx: &ClientCtx)
    ensures
        final(output)@ == old(output)@ + attr_text(v@, *a, indent as nat, ctx@),
{
    let name = a.name.as_str();
    if let Some(ev) = is_event_attr(name) {
        if let JsxAttrValue::Expr(h) = &a.value {
            let mut s = owned(v);
            push_str(&mut s, ".addEventListener('");
            push_str(&mut s, ev.as_str());
            push_str(&mut s, "', ");
            push_str(&mut s, h.as_str());
            push_str(&mut s, ");");
            crate::codegen::writeln(output, indent, s.as_str());
            assert(s@ =~= v@ + ".addEventListener('"@ + ev@ + "', "@ + h@ + ");"@);
        } else {
            assert(attr_text(v@, *a, indent as nat, ctx@) =~= Seq::<char>::empty());
            assert(output@ =~= old(output)@ + Seq::<char>::empty());
        }
        return;
    }
    match &a.value {
        JsxAttrValue::String(val) => {
            let mut s = owned(v);
            push_str(&mut s, ".setAttribute('");
            push_str(&mut s, name);
            push_str(&mut s, "', '");
            push_escaped(&mut s, val.as_str(), Escape::JsQuote);
            push_str(&mut s, "');");
            assert(s@ =~= v@ + ".setAttribute('"@ + name@ + "', '"@ + escaped(Escape::JsQuote, val@)
                + "');"@);
            crate::codegen::writeln(output, indent, s.as_str());
        },
        JsxAttrValue::Expr(e) => {
            if is_boolean_attr(name) {
                let mut set = owned(v);
                push_str(&mut set, ".setAttribute('");
                push_str(&mut set, name);
                push_str(&mut set, "', '')");
                let mut rem = owned(v);
                push_str(&mut rem, ".removeAttribute('");
                push_str(&mut rem, name);
                push_str(&mut rem, "')");
                let mut s = String::new();
                let r = ctx_reactive(ctx, e.as_str());
                if r {
                    push_str(&mut s, "bind(() => { if (");
                } else {
                    push_str(&mut s, "if (");
                }
                push_str(&mut s, e.as_str());
                push_str(&mut s, ") { ");
                push_str(&mut s, set.as_str());
                push_str(&mut s, "; } else { ");
                push_str(&mut s, rem.as_str());
                if r {
                    push_str(&mut s, "; } });");
                    assert(s@ =~= "bind(() => { if ("@ + e@ + ") { "@ + set@ + "; } else { "@ + rem@
                        + "; } });"@);
                } else {
                    push_str(&mut s, "; }");
                    assert(s@ =~= "if ("@ + e@ + ") { "@ + set@ + "; } else { "@ + rem@ + "; }"@);
                }
                crate::codegen::writeln(output, indent, s.as_str());
            } else {
                let mut dom = owned(v);
                if str_eq(name, "style") {
                    push_str(&mut dom, ".setAttribute('");
                    push_str(&mut dom, name);
                    push_str(&mut dom, "', styleString(");
                    push_str(&mut dom, e.as_str());
                    push_str(&mut dom, "))");
                } else if needs_property_assignment(name) {
                    push_str(&mut dom, ".");
                    push_str(&mut dom, name);
                    push_str(&mut dom, " = ");
                    push_str(&mut dom, e.as_str());
                } else {
                    push_str(&mut dom, ".setAttribute('");
                    push_str(&mut dom, name);
                    push_str(&mut dom, "', ");
                    push_str(&mut dom, e.as_str());
                    push_str(&mut dom, ")");
                }
                if ctx_reactive(ctx, e.as_str()) {
                    let mut s = owned("bind(() => { ");
                    push_str(&mut s, dom.as_str());
                    push_str(&mut s, "; });");
                    crate::codegen::writeln(output, indent, s.as_str());
                } else {
                    push_line2(output, indent, dom.as_str(), ";");
                }
            }
        },
    }
}

fn gen_attrs(output: &mut String, v: &str, attrs: &Vec<JsxAttr>, indent: usize, ctx: &ClientCtx)
    ensures
        final(output)@ == old(output)@ + attrs_text(v@, attrs@, indent as nat, ctx@),
{
    let ghost start = output@;
    for i in 0..attrs.len()
        invariant
            output@ == start + attrs_text(v@, attrs@.take(i as int), indent as nat, ctx@),
    {
        assert(attrs@.take(i + 1).drop_last() =~= attrs@.take(i as int));
        assert(attrs@.take(i + 1).last() == attrs@[i as int]);
        gen_attr(output, v, &attrs[i], indent, ctx);
        assert(output@ =~= start + attrs_text(v@, attrs@.take(i + 1), indent as nat, ctx@));
    }
    assert(attrs@.take(attrs@.len() as int) =~= attrs@);
}

fn gen_single_child(output: &mut String, v: &str, c: &JsxNode, indent: usize, ctx: &ClientCtx)
    ensures
        final(output)@ == old(output)@ + single_child_text(v@, *c, indent as nat, ctx@),
{
    match c {
        JsxNode::Text(t) => {
            let mut s = owned(v);
            push_str(&mut s, ".textContent = '");
            push_escaped(&mut s, t.as_str(), Escape::JsQuoteNewline);
            push_str(&mut s, "';");
            assert(s@ =~= v@ + ".textContent = '"@ + escaped(Escape::JsQuoteNewline, t@) + "';"@);
            crate::codegen::writeln(output, indent, s.as_str());
        },
        JsxNode::Expr(e) => {
            let mut dom = owned(v);
            push_str(&mut dom, ".textContent = ");
            push_str(&mut dom, e.as_str());
            if ctx_reactive(ctx, e.as_str()) {
                let mut s = owned("bind(() => { ");
                push_str(&mut s, dom.as_str());
                push_str(&mut s, "; });");
                assert(s@ =~= "bind(() => { "@ + v@ + ".textContent = "@ + e@ + "; });"@);
                crate::codegen::writeln(output, indent, s.as_str());
            } else {
                push_line2(output, indent, dom.as_str(), ";");
                assert(dom@ + ";"@ =~= v@ + ".textContent = "@ + e@ + ";"@);
            }
        },
        _ => {
            assert(output@ =~= old(output)@ + Seq::<char>::empty());
        },
    }
}

pub fn gen_decl_lines(output: &mut String, decls: &Vec<String>, indent: usize)
    ensures
        final(output)@ == old(output)@ + decl_lines(views(decls@), indent as nat),
{
    let ghost start = output@;
    for i in 0..decls.len()
        invariant
            output@ == start + decl_lines(views(decls@).take(i as int), indent as nat),
    {
        assert(views(decls@).take(i + 1).drop_last() =~= views(decls@).take(i as int));
        assert(views(decls@).take(i + 1).last() == decls@[i as int]@);
        let ls = split_lines(decls[i].as_str());
        let ghost mid = output@;
        for j in 0..ls.len()
            invariant
                output@ == mid + lines_text(views(ls@).take(j as int), indent as nat),
        {
            assert(views(ls@).take(j + 1).drop_last() =~= views(ls@).take(j as int));
            assert(views(ls@).take(j + 1).last() == ls@[j as int]@);
            crate::codegen::writeln(output, indent, ls[j].as_str());
            assert(output@ =~= mid + lines_text(views(ls@).take(j + 1), indent as nat));
        }
        assert(views(ls@).take(ls@.len() as int) =~= views(ls@));
        assert(output@ =~= start + decl_lines(views(decls@).take(i + 1), indent as nat));
    }
    assert(views(decls@).take(decls@.len() as int) =~= views(decls@));
}

fn str3(a: &str, b: &str, c: &str) -> (r: String)
    ensures
        r@ == a@ + b@ + c@,
{
    let mut s = owned(a);
    push_str(&mut s, b);
    push_str(&mut s, c);
    s
}

fn gen_cond_lines(
    output: &mut String,
    test: &str,
    a: &str,
    f: &str,
    c: &str,
    tv: &str,
    fv: &str,
    indent: usize,
)
    ensures
        final(output)@ == old(output)@ + cond_lines(test@, a@, f@, c@, tv@, fv@, indent as nat),
{
    reveal(cond_lines);
    let ghost start = output@;
    crate::codegen::writeln(output, indent, str3("const ", a, " = document.createComment('');").as_str());
    crate::codegen::writeln(output, indent, str3("const ", f, " = document.createDocumentFragment();").as_str());
    let mut s = str3("let ", c, " = ");
    push_str(&mut s, test);
    push_str(&mut s, " ? ");
    push_str(&mut s, tv);
    push_str(&mut s, " : ");
    push_str(&mut s, fv);
    push_str(&mut s, ";");
    crate::codegen::writeln(output, indent, s.as_str());
    let mut s2 = str3(f, ".appendChild(", c);
    push_str(&mut s2, ");");
    crate::codegen::writeln(output, indent, s2.as_str());
    let mut s3 = str3(f, ".appendChild(", a);
    push_str(&mut s3, ");");
    crate::codegen::writeln(output, indent, s3.as_str());
    let mut b = str3("bind(() => { const _nx = ", test, " ? ");
    push_str(&mut b, tv);
    push_str(&mut b, " : ");
    push_str(&mut b, fv);
    push_str(&mut b, "; if (_nx !== ");
    push_str(&mut b, c);
    push_str(&mut b, ") { ");
    push_str(&mut b, c);
    push_str(&mut b, ".remove(); ");
    push_str(&mut b, a);
    push_str(&mut b, ".parentNode.insertBefore(_nx, ");
    push_str(&mut b, a);
    push_str(&mut b, "); ");
    push_str(&mut b, c);
    push_str(&mut b, " = _nx; } });");
    crate::codegen::writeln(output, indent, b.as_str());
    assert(s@ =~= "let "@ + c@ + " = "@ + test@ + " ? "@ + tv@ + " : "@ + fv@ + ";"@);
    assert(s2@ =~= f@ + ".appendChild("@ + c@ + ");"@);
    assert(s3@ =~= f@ + ".appendChild("@ + a@ + ");"@);
    assert(b@ =~= "bind(() => { const _nx = "@ + test@ + " ? "@ + tv@ + " : "@ + fv@ + "; if (_nx !== "@
        + c@ + ") { "@ + c@ + ".remove(); "@ + a@ + ".parentNode.insertBefore(_nx, "@ + a@ + "); "@
        + c@ + " = _nx; } });"@);
    assert(output@ =~= start + cond_lines(test@, a@, f@, c@, tv@, fv@, indent as nat));
}

fn gen_for_head(
    output: &mut String,
    a: &str,
    f: &str,
    m: &str,
    r: &str,
    item: &str,
    indent: usize,
)
    ensures
        final(output)@ == old(output)@ + for_head(a@, f@, m@, r@, item@, indent as nat),
{
    reveal(for_head);
    let ghost start = output@;
    crate::codegen::writeln(output, indent, str3("const ", a, " = document.createComment('');").as_str());
    crate::codegen::writeln(output, indent, str3("const ", f, " = document.createDocumentFragment();").as_str());
    let mut s = str3(f, ".appendChild(", a);
    push_str(&mut s, ");");
    crate::codegen::writeln(output, indent, s.as_str());
    crate::codegen::writeln(output, indent, str3("const ", m, " = {};").as_str());
    let mut s2 = str3("function ", r, "(");
    push_str(&mut s2, item);
    push_str(&mut s2, ") {");
    crate::codegen::writeln(output, indent, s2.as_str());
    assert(s@ =~= f@ + ".appendChild("@ + a@ + ");"@);
    assert(s2@ =~= "function "@ + r@ + "("@ + item@ + ") {"@);
    assert(output@ =~= start + for_head(a@, f@, m@, r@, item@, indent as nat));
}

fn gen_for_tail_keys(output: &mut String, each: &str, key: &str, indent: usize)
    requires
        indent + 3 <= usize::MAX,
    ensures
        final(output)@ == old(output)@ + for_tail_keys(each@, key@, indent as nat),
{
    reveal(for_tail_keys);
    let ghost start = output@;
    let bi = indent + 1;
    crate::codegen::writeln(output, indent, "bind(() => {");
    crate::codegen::writeln(output, bi, str3("const _list = ", each, ";").as_str());
    crate::codegen::writeln(output, bi, "const _seen = {};");
    crate::codegen::writeln(output, bi, "const _order = [];");
    crate::codegen::writeln(output, bi, "for (let _i = 0; _i < _list.length; _i++) {");
    crate::codegen::writeln(output, bi + 1, str3("const _key = (", key, ") (_list[_i]);").as_str());
    crate::codegen::writeln(output, bi + 1, "_seen[_key] = _list[_i];");
    crate::codegen::writeln(output, bi + 1, "_order.push(_key);");
    crate::codegen::writeln(output, bi, "}");
    assert(output@ =~= start + for_tail_keys(each@, key@, indent as nat));
}

fn gen_for_tail_drop(output: &mut String, m: &str, indent: usize)
    requires
        indent + 3 <= usize::MAX,
    ensures
        final(output)@ == old(output)@ + for_tail_drop(m@, indent as nat),
{
    reveal(for_tail_drop);
    let ghost start = output@;
    let bi = indent + 1;
    crate::codegen::writeln(output, bi, str3("for (const _k in ", m, ") {").as_str());
    crate::codegen::writeln(output, bi + 1, "if (!(_k in _seen)) {");
    let mut x = owned(m);
    push_str(&mut x, "[_k].remove();");
    crate::codegen::writeln(output, bi + 2, x.as_str());
    crate::codegen::writeln(output, bi + 2, str3("delete ", m, "[_k];").as_str());
    crate::codegen::writeln(output, bi + 1, "}");
    crate::codegen::writeln(output, bi, "}");
    assert(output@ =~= start + for_tail_drop(m@, indent as nat));
}

fn gen_for_tail_seed(output: &mut String, a: &str, f: &str, indent: usize)
    requires
        indent + 3 <= usize::MAX,
    ensures
        final(output)@ == old(output)@ + for_tail_seed(a@, f@, indent as nat),
{
    reveal(for_tail_seed);
    let ghost start = output@;
    let bi = indent + 1;
    let mut p = str3("const _parent = ", a, ".parentNode || ");
    push_str(&mut p, f);
    push_str(&mut p, ";");
    crate::codegen::writeln(output, bi, p.as_str());
    crate::codegen::writeln(output, bi, str3("let _ref = ", a, ";").as_str());
    crate::codegen::writeln(output, bi, "for (let _i = _order.length - 1; _i >= 0; _i--) {");
    assert(p@ =~= "const _parent = "@ + a@ + ".parentNode || "@ + f@ + ";"@);
    assert(output@ =~= start + for_tail_seed(a@, f@, indent as nat));
}

fn gen_for_tail_fetch(output: &mut String, m: &str, r: &str, indent: usize)
    requires
        indent + 3 <= usize::MAX,
    ensures
        final(output)@ == old(output)@ + for_tail_fetch(m@, r@, indent as nat),
{
    reveal(for_tail_fetch);
    let ghost start = output@;
    let bi = indent + 1;
    crate::codegen::writeln(output, bi + 1, "const _key = _order[_i];");
    crate::codegen::writeln(output, bi + 1, str3("if (!", m, "[_key]) {").as_str());
    let mut q = owned(m);
    push_str(&mut q, "[_key] = ");
    push_str(&mut q, r);
    push_str(&mut q, "(_seen[_key]);");
    crate::codegen::writeln(output, bi + 2, q.as_str());
    crate::codegen::writeln(output, bi + 1, "}");
    crate::codegen::writeln(output, bi + 1, str3("const _n = ", m, "[_key];").as_str());
    assert(q@ =~= m@ + "[_key] = "@ + r@ + "(_seen[_key]);"@);
    assert(output@ =~= start + for_tail_fetch(m@, r@, indent as nat));
}

fn gen_for_tail_move(output: &mut String, indent: usize)
    requires
        indent + 3 <= usize::MAX,
    ensures
        final(output)@ == old(output)@ + for_tail_move(indent as nat),
{
    reveal(for_tail_move);
    let ghost start = output@;
    let bi = indent + 1;
    crate::codegen::writeln(output, bi + 1, "if (_n.nextSibling !== _ref) {");
    crate::codegen::writeln(output, bi + 2, "_parent.insertBefore(_n, _ref);");
    crate::codegen::writeln(output, bi + 1, "}");
    crate::codegen::writeln(output, bi + 1, "_ref = _n;");
    crate::codegen::writeln(output, bi, "}");
    crate::codegen::writeln(output, indent, "});");
    assert(output@ =~= start + for_tail_move(indent as nat));
}

fn gen_for_tail(
    output: &mut String,
    each: &str,
    key: &str,
    m: &str,
    r: &str,
    a: &str,
    f: &str,
    indent: usize,
)
    requires
        indent + 3 <= usize::MAX,
    ensures
        final(output)@ == old(output)@ + for_tail(each@, key@, m@, r@, a@, f@, indent as nat),
{
    let ghost start = output@;
    gen_for_tail_keys(output, each, key, indent);
    gen_for_tail_drop(output, m, indent);
    gen_for_tail_seed(output, a, f, indent);
    gen_for_tail_fetch(output, m, r, indent);
    gen_for_tail_move(output, indent);
    assert(output@ =~= start + for_tail(each@, key@, m@, r@, a@, f@, indent as nat));
}

/// `r`, the output and the counter agree with the expected client code.
pub open spec fn built(
    expect: Result<(Seq<char>, nat, Seq<char>), Seq<char>>,
    r: Result<String, String>,
    before: Seq<char>,
    after: Seq<char>,
    n: nat,
) -> bool {
    match expect {
        Ok((t, n2, v)) => r matches Ok(rv) && rv@ == v && after == before + t && n == n2,
        Err(e) => r matches Err(m) && m@ == e,
    }
}

/// An error in the first `k` children is the error of all of them.
pub proof fn lemma_children_err(
    children: Seq<JsxNode>,
    v: Seq<char>,
    n: nat,
    ind: nat,
    ctx: Reactivity,
    k: int,
    j: int,
)
    requires
        0 <= k <= j <= children.len(),
        client_children(children.take(k), v, n, ind, ctx) is Err,
    ensures
        client_children(children.take(j), v, n, ind, ctx) == client_children(
            children.take(k),
            v,
            n,
            ind,
            ctx,
        ),
    decreases j - k,
{
    if k < j {
        lemma_children_err(children, v, n, ind, ctx, k, j - 1);
        assert(children.take(j).drop_last() =~= children.take(j - 1));
    }
}

/// Element, conditional or list among the children.
fn has_element(children: &Vec<JsxNode>) -> (r: bool)
    ensures
        r == exists|i: int| 0 <= i < children@.len() && is_structural(#[trigger] children@[i]),
{
    for i in 0..children.len()
        invariant
            forall|k: int| 0 <= k < i ==> !is_structural(#[trigger] children@[k]),
    {
        match &children[i] {
            JsxNode::Element { .. } | JsxNode::Conditional { .. } | JsxNode::ForEach { .. } => {
                return true;
            },
            _ => {},
        }
    }
    false
}

/// Builds the children of element `v` in order, appending each.
#[verifier::loop_isolation(false)]
fn gen_children(
    node: &JsxNode,
    children: &Vec<JsxNode>,
    v: &str,
    output: &mut String,
    counter: &mut AtomicCounter,
    indent: usize,
    ctx: &ClientCtx,
) -> (r: Result<(), String>)
    requires
        *node matches JsxNode::Element { children: c, .. } && c == *children,
        old(counter).n + cost_list(children@) <= u32::MAX,
        indent + cost_list(children@) + 3 <= usize::MAX,
    ensures
        match client_children(children@, v@, old(counter).n as nat, indent as nat, ctx@) {
            Ok((t, n2)) => r is Ok && final(output)@ == old(output)@ + t && final(counter).n == n2,
            Err(e) => r matches Err(m) && m@ == e,
        },
        r is Ok ==> final(counter).n <= old(counter).n + cost_list(children@),
    decreases node, 0nat,
{
    let ghost start = output@;
    let ghost n0 = counter.n as nat;
    assert(children@.take(0).len() == 0);
    for i in 0..children.len()
        invariant
            client_children(children@.take(i as int), v@, n0, indent as nat, ctx@) matches Ok((t, ni))
                && output@ == start + t && counter.n == ni,
            counter.n <= n0 + cost_list(children@.take(i as int)),
    {
        let ghost before = output@;
        proof {
            assert(decreases_to!(*node => children@[i as int]));
            assert(children@.take(i + 1).drop_last() =~= children@.take(i as int));
            assert(children@.take(i + 1).last() == children@[i as int]);
            lemma_cost_prefix(children@, i + 1);
        }
        let cv = match gen_node(&children[i], output, counter, indent, ctx) {
            Ok(cv) => cv,
            Err(e) => {
                proof {
                    lemma_children_err(children@, v@, n0, indent as nat, ctx@, i + 1, children@.len() as int);
                    assert(children@.take(children@.len() as int) =~= children@);
                }
                return Err(e);
            },
        };
        let mut s = owned(v);
        push_str(&mut s, ".appendChild(");
        push_str(&mut s, cv.as_str());
        push_str(&mut s, ");");
        crate::codegen::writeln(output, indent, s.as_str());
        assert(s@ =~= v@ + ".appendChild("@ + cv@ + ");"@);
        assert(output@ =~= start + client_children(children@.take(i + 1), v@, n0, indent as nat, ctx@)->Ok_0.0);
    }
    assert(children@.take(children@.len() as int) =~= children@);
    Ok(())
}

/// Client code of any node; returns the variable holding the built node.
pub fn gen_node(
    node: &JsxNode,
    output: &mut String,
    counter: &mut AtomicCounter,
    indent: usize,
    ctx: &ClientCtx,
) -> (r: Result<String, String>)
    requires
        old(counter).n + cost(*node) <= u32::MAX,
        indent + cost(*node) + 3 <= usize::MAX,
    ensures
        built(
            client_node(*node, old(counter).n as nat, indent as nat, ctx@),
            r,
            old(output)@,
            final(output)@,
            final(counter).n as nat,
        ),
        r is Ok ==> final(counter).n <= old(counter).n + cost(*node),
    decreases node, 2nat,
{
    match node {
        JsxNode::Text(t) => Ok(gen_text(t.as_str(), output, counter, indent)),
        JsxNode::Expr(e) => Ok(gen_expr(e.as_str(), output, counter, indent, ctx)),
        JsxNode::Element { tag, attrs, children, is_component, .. } => gen_element(
            node,
            tag.as_str(),
            attrs,
            children,
            *is_component,
            output,
            counter,
            indent,
            ctx,
        ),
        JsxNode::Conditional { test, cons, alt } => gen_conditional(
            node,
            test.as_str(),
            cons,
            alt,
            output,
            counter,
            indent,
            ctx,
        ),
        JsxNode::ForEach { each, key_fn, item_param, body, for_body_decls } => gen_for_each(
            node,
            each.as_str(),
            key_fn.as_str(),
            item_param.as_str(),
            body,
            for_body_decls,
            output,
            counter,
            indent,
            ctx,
        ),
    }
}

/// Client code of an element: a component call, a fragment, or a DOM
/// element with its attributes and children.
pub fn gen_element(
    node: &JsxNode,
    tag: &str,
    attrs: &Vec<JsxAttr>,
    children: &Vec<JsxNode>,
    is_component: bool,
    output: &mut String,
    counter: &mut AtomicCounter,
    indent: usize,
    ctx: &ClientCtx,
) -> (r: Result<String, String>)
    requires
        *node matches JsxNode::Element { tag: t, attrs: a, children: c, is_component: ic, .. }
            && t@ == tag@ && a == *attrs && c == *children && ic == is_component,
        old(counter).n + cost(*node) <= u32::MAX,
        indent + cost(*node) + 3 <= usize::MAX,
    ensures
        built(
            client_node(*node, old(counter).n as nat, indent as nat, ctx@),
            r,
            old(output)@,
            final(output)@,
            final(counter).n as nat,
        ),
        r is Ok ==> final(counter).n <= old(counter).n + cost(*node),
    decreases node, 1nat,
{
    proof {
        assert(cost(*node) == 1 + cost_list(children@));
    }
    if is_component {
        return gen_component_call(tag, attrs, output, counter, indent, &ctx.signal_names);
    }
    let var = make_var("el", counter);
    let ghost n1 = counter.n as nat;
    let ghost cc = client_children(children@, var@, n1, indent as nat, ctx@);
    if tag.is_empty() {
        if children.len() == 1 {
            proof {
                assert(decreases_to!(*node => children@[0]));
                assert(cost_list(children@.drop_last()) == 0);
                assert(children@.last() == children@[0]);
            }
            return gen_node(&children[0], output, counter, indent, ctx);
        }
        let mut s = owned("const ");
        push_str(&mut s, var.as_str());
        push_str(&mut s, " = document.createDocumentFragment();");
        crate::codegen::writeln(output, indent, s.as_str());
        let ghost l = line(indent as nat, s@);
        match gen_children(node, children, var.as_str(), output, counter, indent, ctx) {
            Ok(()) => {},
            Err(e) => {
                return Err(e);
            },
        }
        assert(s@ =~= "const "@ + var@ + " = document.createDocumentFragment();"@);
        assert(output@ =~= old(output)@ + (l + cc->Ok_0.0));
        return Ok(var);
    }
    let mut s = owned("const ");
    push_str(&mut s, var.as_str());
    push_str(&mut s, " = document.createElement('");
    push_str(&mut s, tag);
    push_str(&mut s, "');");
    assert(s@ =~= "const "@ + var@ + " = document.createElement('"@ + tag@ + "');"@);
    crate::codegen::writeln(output, indent, s.as_str());
    gen_attrs(output, var.as_str(), attrs, indent, ctx);
    let ghost head = line(indent as nat, s@) + attrs_text(var@, attrs@, indent as nat, ctx@);
    assert(output@ =~= old(output)@ + head);
    if children.len() == 1 && !has_element(children) {
        gen_single_child(output, var.as_str(), &children[0], indent, ctx);
        assert(output@ =~= old(output)@ + (head + single_child_text(var@, children@[0], indent as nat, ctx@)));
    } else if children.len() > 0 {
        match gen_children(node, children, var.as_str(), output, counter, indent, ctx) {
            Ok(()) => {},
            Err(e) => {
                return Err(e);
            },
        }
        assert(output@ =~= old(output)@ + (head + cc->Ok_0.0));
    } else {
        assert(cc == Ok::<(Seq<char>, nat), Seq<char>>((Seq::<char>::empty(), n1)));
        assert(output@ =~= old(output)@ + (head + Seq::<char>::empty()));
    }
    Ok(var)
}

/// Client code of a conditional: both branches built, the current one
/// swapped in by an effect.
pub fn gen_conditional(
    node: &JsxNode,
    test: &str,
    cons: &JsxNode,
    alt: &JsxNode,
    output: &mut String,
    counter: &mut AtomicCounter,
    indent: usize,
    ctx: &ClientCtx,
) -> (r: Result<String, String>)
    requires
        *node matches JsxNode::Conditional { test: t, cons: c, alt: a } && t@ == test@ && *c
            == *cons && *a == *alt,
        old(counter).n + cost(*node) <= u32::MAX,
        indent + cost(*node) + 3 <= usize::MAX,
    ensures
        built(
            client_node(*node, old(counter).n as nat, indent as nat, ctx@),
            r,
            old(output)@,
            final(output)@,
            final(counter).n as nat,
        ),
        r is Ok ==> final(counter).n <= old(counter).n + cost(*node),
    decreases node, 1nat,
{
    proof {
        assert(cost(*node) == 3 + cost(*cons) + cost(*alt));
        assert(decreases_to!(*node => *cons));
        assert(decreases_to!(*node => *alt));
    }
    let anchor_var = make_var("_an", counter);
    let frag_var = make_var("_fr", counter);
    let curr_var = make_var("_cu", counter);
    let ghost s0 = output@;
    let ghost e1 = client_node(*cons, counter.n as nat, (indent + 1) as nat, ctx@);
    let true_var = match gen_node(cons, output, counter, indent + 1, ctx) {
        Ok(v) => v,
        Err(e) => {
            return Err(e);
        },
    };
    let ghost e2 = client_node(*alt, counter.n as nat, (indent + 1) as nat, ctx@);
    let false_var = match gen_node(alt, output, counter, indent + 1, ctx) {
        Ok(v) => v,
        Err(e) => {
            return Err(e);
        },
    };
    gen_cond_lines(
        output,
        test,
        anchor_var.as_str(),
        frag_var.as_str(),
        curr_var.as_str(),
        true_var.as_str(),
        false_var.as_str(),
        indent,
    );
    assert(output@ =~= s0 + (e1->Ok_0.0 + e2->Ok_0.0 + cond_lines(
        test@,
        anchor_var@,
        frag_var@,
        curr_var@,
        true_var@,
        false_var@,
        indent as nat,
    )));
    Ok(frag_var)
}

/// Client code of a keyed list: a render function per item and an effect
/// that reconciles the rendered nodes with the list.
pub fn gen_for_each(
    node: &JsxNode,
    each: &str,
    key_fn: &str,
    item_param: &str,
    body: &JsxNode,
    for_body_decls: &Vec<String>,
    output: &mut String,
    counter: &mut AtomicCounter,
    indent: usize,
    ctx: &ClientCtx,
) -> (r: Result<String, String>)
    requires
        *node matches JsxNode::ForEach {
            each: e,
            key_fn: k,
            item_param: ip,
            body: b,
            for_body_decls: d,
        } && e@ == each@ && k@ == key_fn@ && ip@ == item_param@ && *b == *body && d
            == *for_body_decls,
        old(counter).n + cost(*node) <= u32::MAX,
        indent + cost(*node) + 3 <= usize::MAX,
    ensures
        built(
            client_node(*node, old(counter).n as nat, indent as nat, ctx@),
            r,
            old(output)@,
            final(output)@,
            final(counter).n as nat,
        ),
        r is Ok ==> final(counter).n <= old(counter).n + cost(*node),
    decreases node, 1nat,
{
    proof {
        assert(cost(*node) == 4 + cost(*body));
        assert(decreases_to!(*node => *body));
    }
    let anchor_var = make_var("_fa", counter);
    let frag_var = make_var("_ff", counter);
    let map_var = make_var("_fm", counter);
    let render_fn = make_var("_r", counter);
    let ghost s0 = output@;
    gen_for_head(
        output,
        anchor_var.as_str(),
        frag_var.as_str(),
        map_var.as_str(),
        render_fn.as_str(),
        item_param,
        indent,
    );
    gen_decl_lines(output, for_body_decls, indent + 1);
    let ghost eb = client_node(*body, counter.n as nat, (indent + 1) as nat, ctx@);
    let body_var = match gen_node(body, output, counter, indent + 1, ctx) {
        Ok(v) => v,
        Err(e) => {
            return Err(e);
        },
    };
    let mut ret = owned("return ");
    push_str(&mut ret, body_var.as_str());
    push_str(&mut ret, ";");
    crate::codegen::writeln(output, indent + 1, ret.as_str());
    crate::codegen::writeln(output, indent, "}");
    gen_for_tail(
        output,
        each,
        key_fn,
        map_var.as_str(),
        render_fn.as_str(),
        anchor_var.as_str(),
        frag_var.as_str(),
        indent,
    );
    assert(ret@ =~= "return "@ + body_var@ + ";"@);
    assert(output@ =~= s0 + (for_head(
        anchor_var@,
        frag_var@,
        map_var@,
        render_fn@,
        item_param@,
        indent as nat,
    ) + decl_lines(views(for_body_decls@), (indent + 1) as nat) + eb->Ok_0.0 + line(
        (indent + 1) as nat,
        "return "@ + body_var@ + ";"@,
    ) + line(indent as nat, "}"@) + for_tail(
        each@,
        key_fn@,
        map_var@,
        render_fn@,
        anchor_var@,
        frag_var@,
        indent as nat,
    )));
    Ok(frag_var)
}

/// The names of the declared signals, in order.
pub open spec fn signal_names_of(sigs: Seq<SignalDecl>) -> Seq<Seq<char>> {
    sigs.map_values(|d: SignalDecl| d.name@)
}

/// The component's props parameter name; `props` when it has none.
pub open spec fn props_param_of(p: Option<PropsInfo>) -> Seq<char> {
    match p {
        Some(info) => info.name@,
        None => "props"@,
    }
}

pub open spec fn has_signal_kind(sigs: Seq<SignalDecl>, k: SignalKind) -> bool {
    exists|i: int| 0 <= i < sigs.len() && sigs[i].kind == k
}

pub open spec fn signal_fn(k: SignalKind) -> Seq<char> {
    match k {
        SignalKind::Signal => "signal"@,
        SignalKind::Computed => "computed"@,
    }
}

/// `const NAME = signal(INIT);` (or `computed`) inside the component body.
pub open spec fn signal_lines(sigs: Seq<SignalDecl>) -> Seq<char>
    decreases sigs.len(),
{
    if sigs.len() == 0 {
        seq![]
    } else {
        let d = sigs.last();
        signal_lines(sigs.drop_last()) + line(
            1,
            "const "@ + d.name@ + " = "@ + signal_fn(d.kind) + "("@ + d.initial_value@ + ");"@,
        )
    }
}

/// A newline when `b` holds.
pub open spec fn blank_if(b: bool) -> Seq<char> {
    if b {
        "\n"@
    } else {
        Seq::<char>::empty()
    }
}

/// `import { NAME } from 'SOURCE';` per pair.
pub open spec fn import_lines(pairs: Seq<(Seq<char>, Seq<char>)>) -> Seq<char>
    decreases pairs.len(),
{
    if pairs.len() == 0 {
        seq![]
    } else {
        import_lines(pairs.drop_last()) + "import { "@ + pairs.last().0 + " } from '"@
            + pairs.last().1 + "';\n"@
    }
}

/// The runtime helpers a client module imports, in this order.
pub open spec fn runtime_imports(
    has_signal: bool,
    has_computed: bool,
    needs_bind: bool,
    needs_style: bool,
) -> Seq<Seq<char>> {
    (if has_signal { seq!["signal"@] } else { seq![] }) + (if has_computed {
        seq!["computed"@]
    } else {
        seq![]
    }) + (if needs_bind { seq!["bind"@] } else { seq![] }) + (if needs_style {
        seq!["styleString"@]
    } else {
        seq![]
    })
}

pub open spec fn runtime_import(names: Seq<Seq<char>>) -> Seq<char> {
    if names.len() == 0 {
        Seq::<char>::empty()
    } else {
        "import { "@ + join(names, ", "@) + " } from '@marisjs/runtime';\n\n"@
    }
}

/// Derived consts in order: one whose initializer reads a known signal
/// becomes a `computed` and joins the signal names (so later consts may
/// depend on it); any other is copied line by line. The text and the names
/// afterwards.
pub open spec fn derived_state(dcs: Seq<Seq<char>>, names: Seq<Seq<char>>) -> (
    Seq<char>,
    Seq<Seq<char>>,
)
    decreases dcs.len(),
{
    if dcs.len() == 0 {
        (seq![], names)
    } else {
        let prev = derived_state(dcs.drop_last(), names);
        let dc = dcs.last();
        match reactive_derived_const(trim(dc), prev.1) {
            Some(v) => (
                prev.0 + line(
                    1,
                    "const "@ + v + " = computed(() => ("@ + const_init(trim(dc)) + "));"@,
                ),
                prev.1.push(v),
            ),
            None => (prev.0 + lines_text(lines(dc), 1), prev.1),
        }
    }
}

/// The runtime helpers a client module calls, each imported: `signal` when
/// such a signal is declared, `computed` when one is declared or a derived
/// const becomes one, `bind` when some expression of the tree reads a
/// signal (declared or derived: `names` holds both) or the tree holds a
/// conditional or a list, `styleString` for a style expression.
pub open spec fn client_runtime(
    c: ComponentFile,
    tree: JsxNode,
    table: Seq<SignalRead>,
    names: Seq<Seq<char>>,
) -> Seq<Seq<char>> {
    runtime_imports(
        has_signal_kind(c.signals@, SignalKind::Signal),
        has_signal_kind(c.signals@, SignalKind::Computed) || names.len() > c.signals@.len(),
        reads_tree(tree, names, props_param_of(c.props), table) || has_dynamic(tree),
        style_expr(tree),
    )
}

/// What comes before the component function: component imports, runtime
/// imports, module-scope consts.
pub open spec fn client_prelude(
    c: ComponentFile,
    tree: JsxNode,
    table: Seq<SignalRead>,
    names: Seq<Seq<char>>,
) -> Seq<char> {
    let pairs = component_imports(tags_acc(tree, seq![]), c.imports@);
    import_lines(pairs) + blank_if(pairs.len() > 0) + runtime_import(client_runtime(c, tree, table, names)) + decl_lines(
        views(c.module_consts@),
        0,
    ) + blank_if(c.module_consts@.len() > 0)
}

/// The function header and the signal declarations.
pub open spec fn client_open(c: ComponentFile) -> Seq<char> {
    "export function "@ + c.exports@[0].name@ + "(props) {\n"@ + signal_lines(c.signals@)
        + blank_if(c.signals@.len() > 0)
}

/// The signals registry line, the return, the closing brace.
pub open spec fn client_close(c: ComponentFile, root: Seq<char>) -> Seq<char> {
    (if c.signals@.len() > 0 {
        line(1, root + "._signals = { "@ + join(signal_names_of(c.signals@), ", "@) + " };"@)
    } else {
        Seq::<char>::empty()
    }) + line(1, "return "@ + root + ";"@) + "}\n"@
}

/// The client module of a component, or why there is none.
pub open spec fn client_module(c: ComponentFile, table: Seq<SignalRead>) -> Result<
    Seq<char>,
    Seq<char>,
> {
    if c.exports@.len() == 0 {
        Err("No exported component found"@)
    } else {
        match c.render_tree {
            None => Err("No render tree found in component"@),
            Some(tree) => {
                let ds = derived_state(views(c.derived_consts@), signal_names_of(c.signals@));
                match client_node(tree, 0, 1, (ds.1, props_param_of(c.props), table)) {
                    Err(e) => Err(e),
                    Ok((body, _, root)) => Ok(
                        client_prelude(c, tree, table, ds.1) + client_open(c) + ds.0 + blank_if(
                            c.derived_consts@.len() > 0,
                        ) + decl_lines(views(c.handler_decls@), 1) + blank_if(
                            c.handler_decls@.len() > 0,
                        ) + body + client_close(c, root),
                    ),
                }
            },
        }
    }
}

pub(crate) fn signal_names_vec(sigs: &Vec<SignalDecl>) -> (r: Vec<String>)
    ensures
        views(r@) == signal_names_of(sigs@),
{
    let mut r: Vec<String> = Vec::new();
    for i in 0..sigs.len()
        invariant
            views(r@) == signal_names_of(sigs@.take(i as int)),
    {
        let ghost before = r@;
        r.push(sigs[i].name.clone());
        assert(views(r@) =~= views(before).push(sigs@[i as int].name@));
        assert(signal_names_of(sigs@.take(i + 1)) =~= signal_names_of(sigs@.take(i as int)).push(
            sigs@[i as int].name@,
        ));
    }
    assert(sigs@.take(sigs@.len() as int) =~= sigs@);
    r
}

pub(crate) fn props_param_string(p: &Option<PropsInfo>) -> (r: String)
    ensures
        r@ == props_param_of(*p),
{
    match p {
        Some(info) => info.name.clone(),
        None => owned("props"),
    }
}

fn same_kind(a: &SignalKind, b: &SignalKind) -> (r: bool)
    ensures
        r == (*a == *b),
{
    match (a, b) {
        (SignalKind::Signal, SignalKind::Signal) => true,
        (SignalKind::Computed, SignalKind::Computed) => true,
        _ => false,
    }
}

fn has_kind(sigs: &Vec<SignalDecl>, k: &SignalKind) -> (r: bool)
    ensures
        r == has_signal_kind(sigs@, *k),
{
    for i in 0..sigs.len()
        invariant
            forall|j: int| 0 <= j < i ==> sigs@[j].kind != *k,
    {
        if same_kind(&sigs[i].kind, k) {
            return true;
        }
    }
    false
}

fn push_import_lines(output: &mut String, pairs: &Vec<(String, String)>)
    ensures
        final(output)@ == old(output)@ + import_lines(pair_views(pairs@)),
{
    let ghost start = output@;
    for i in 0..pairs.len()
        invariant
            output@ == start + import_lines(pair_views(pairs@.take(i as int))),
    {
        assert(pair_views(pairs@.take(i + 1)).drop_last() =~= pair_views(pairs@.take(i as int)));
        assert(pair_views(pairs@.take(i + 1)).last() == (pairs@[i as int].0@, pairs@[i as int].1@));
        push_str(output, "import { ");
        push_str(output, pairs[i].0.as_str());
        push_str(output, " } from '");
        push_str(output, pairs[i].1.as_str());
        push_str(output, "';\n");
        assert(output@ =~= start + import_lines(pair_views(pairs@.take(i + 1))));
    }
    assert(pairs@.take(pairs@.len() as int) =~= pairs@);
}

pub fn push_signal_lines(output: &mut String, sigs: &Vec<SignalDecl>)
    ensures
        final(output)@ == old(output)@ + signal_lines(sigs@),
{
    let ghost start = output@;
    for i in 0..sigs.len()
        invariant
            output@ == start + signal_lines(sigs@.take(i as int)),
    {
        assert(sigs@.take(i + 1).drop_last() =~= sigs@.take(i as int));
        assert(sigs@.take(i + 1).last() == sigs@[i as int]);
        let d = &sigs[i];
        let mut s = owned("const ");
        push_str(&mut s, d.name.as_str());
        push_str(&mut s, " = ");
        match d.kind {
            SignalKind::Signal => push_str(&mut s, "signal"),
            SignalKind::Computed => push_str(&mut s, "computed"),
        }
        push_str(&mut s, "(");
        push_str(&mut s, d.initial_value.as_str());
        push_str(&mut s, ");");
        assert(s@ =~= "const "@ + d.name@ + " = "@ + signal_fn(d.kind) + "("@ + d.initial_value@
            + ");"@);
        crate::codegen::writeln(output, 1, s.as_str());
        assert(output@ =~= start + signal_lines(sigs@.take(i + 1)));
    }
    assert(sigs@.take(sigs@.len() as int) =~= sigs@);
}

pub(crate) fn push_derived_consts(output: &mut String, dcs: &Vec<String>, names: &mut Vec<String>)
    ensures
        final(output)@ == old(output)@ + derived_state(views(dcs@), views(old(names)@)).0,
        views(final(names)@) == derived_state(views(dcs@), views(old(names)@)).1,
{
    let ghost start = output@;
    let ghost names0 = views(names@);
    for i in 0..dcs.len()
        invariant
            output@ == start + derived_state(views(dcs@).take(i as int), names0).0,
            views(names@) == derived_state(views(dcs@).take(i as int), names0).1,
    {
        assert(views(dcs@).take(i + 1).drop_last() =~= views(dcs@).take(i as int));
        assert(views(dcs@).take(i + 1).last() == dcs@[i as int]@);
        let trimmed = string_of(&vec_trim(&chars_of(dcs[i].as_str())));
        match is_reactive_derived_const(trimmed.as_str(), names) {
            Some(var_name) => {
                let init_expr = extract_const_init(trimmed.as_str());
                let mut s = owned("const ");
                push_str(&mut s, var_name.as_str());
                push_str(&mut s, " = computed(() => (");
                push_str(&mut s, init_expr.as_str());
                push_str(&mut s, "));");
                crate::codegen::writeln(output, 1, s.as_str());
                let ghost before = names@;
                names.push(var_name);
                assert(views(names@) =~= views(before).push(names@.last()@));
                assert(s@ =~= "const "@ + names@.last()@ + " = computed(() => ("@ + init_expr@
                    + "));"@);
            },
            None => {
                let ls = split_lines(dcs[i].as_str());
                let ghost mid = output@;
                for j in 0..ls.len()
                    invariant
                        output@ == mid + lines_text(views(ls@).take(j as int), 1),
                {
                    assert(views(ls@).take(j + 1).drop_last() =~= views(ls@).take(j as int));
                    assert(views(ls@).take(j + 1).last() == ls@[j as int]@);
                    crate::codegen::writeln(output, 1, ls[j].as_str());
                    assert(output@ =~= mid + lines_text(views(ls@).take(j + 1), 1));
                }
                assert(views(ls@).take(ls@.len() as int) =~= views(ls@));
            },
        }
        assert(output@ =~= start + derived_state(views(dcs@).take(i + 1), names0).0);
    }
    assert(views(dcs@).take(dcs@.len() as int) =~= views(dcs@));
}

fn push_client_prelude(
    output: &mut String,
    c: &ComponentFile,
    tree: &JsxNode,
    names: &Vec<String>,
    props: &str,
    table: &Vec<SignalRead>,
)
    requires
        props@ == props_param_of(c.props),
    ensures
        final(output)@ == old(output)@ + client_prelude(*c, *tree, table@, views(names@)),
{
    let ghost start = output@;
    let comp_imports = collect_component_imports(tree, &c.imports);
    push_import_lines(output, &comp_imports);
    if comp_imports.len() > 0 {
        push_str(output, "\n");
    }
    push_runtime_import(output, c, tree, names, props, table);
    gen_decl_lines(output, &c.module_consts, 0);
    if c.module_consts.len() > 0 {
        push_str(output, "\n");
    }
    assert(output@ =~= start + client_prelude(*c, *tree, table@, views(names@)));
}

fn push_runtime_import(
    output: &mut String,
    c: &ComponentFile,
    tree: &JsxNode,
    names: &Vec<String>,
    props: &str,
    table: &Vec<SignalRead>,
)
    requires
        props@ == props_param_of(c.props),
    ensures
        final(output)@ == old(output)@ + runtime_import(
            client_runtime(*c, *tree, table@, views(names@)),
        ),
{
    let has_signal = has_kind(&c.signals, &SignalKind::Signal);
    let has_computed = has_kind(&c.signals, &SignalKind::Computed) || names.len() > c.signals.len();
    let needs_bind = tree_reads_signal(tree, names, props, table) || has_for_each_or_conditional(
        tree,
    );
    let needs_style = tree_has_style_expr(tree);
    let mut imports: Vec<String> = Vec::new();
    if has_signal {
        imports.push(owned("signal"));
    }
    if has_computed {
        imports.push(owned("computed"));
    }
    if needs_bind {
        imports.push(owned("bind"));
    }
    if needs_style {
        imports.push(owned("styleString"));
    }
    assert(views(imports@) =~= client_runtime(*c, *tree, table@, views(names@)));
    if imports.len() > 0 {
        push_str(output, "import { ");
        push_join(output, &imports, ", ");
        push_str(output, " } from '@marisjs/runtime';\n\n");
    }
    assert(output@ =~= old(output)@ + runtime_import(
        client_runtime(*c, *tree, table@, views(names@)),
    ));
}

fn push_client_open(output: &mut String, c: &ComponentFile)
    requires
        c.exports@.len() > 0,
    ensures
        final(output)@ == old(output)@ + client_open(*c),
{
    push_str(output, "export function ");
    push_str(output, c.exports[0].name.as_str());
    push_str(output, "(props) {\n");
    push_signal_lines(output, &c.signals);
    if c.signals.len() > 0 {
        push_str(output, "\n");
    }
    assert(output@ =~= old(output)@ + client_open(*c));
}

fn push_client_close(output: &mut String, c: &ComponentFile, names0: &Vec<String>, root: &str)
    requires
        views(names0@) == signal_names_of(c.signals@),
    ensures
        final(output)@ == old(output)@ + client_close(*c, root@),
{
    if c.signals.len() > 0 {
        let mut s = owned(root);
        push_str(&mut s, "._signals = { ");
        push_join(&mut s, names0, ", ");
        push_str(&mut s, " };");
        crate::codegen::writeln(output, 1, s.as_str());
        assert(s@ =~= root@ + "._signals = { "@ + join(signal_names_of(c.signals@), ", "@) + " };"@);
    }
    let mut r = owned("return ");
    push_str(&mut r, root);
    push_str(&mut r, ";");
    crate::codegen::writeln(output, 1, r.as_str());
    push_str(output, "}\n");
    assert(r@ =~= "return "@ + root@ + ";"@);
    assert(output@ =~= old(output)@ + client_close(*c, root@));
}

/// Client module of a component: imports, module consts, then the
/// component function that builds its DOM and wires the effects. `reads`
/// answers, for each expression of the tree, whether it reads a signal.
pub fn generate_client(component: &ComponentFile, reads: &Vec<SignalRead>) -> (r: Result<
    String,
    String,
>)
    requires
        component.render_tree matches Some(t) ==> cost(t) + 4 <= u32::MAX,
    ensures
        match client_module(*component, reads@) {
            Ok(text) => r matches Ok(s) && s@ == text,
            Err(e) => r matches Err(m) && m@ == e,
        },
{
    if component.exports.len() == 0 {
        return Err(owned("No exported component found"));
    }
    let render_tree = match &component.render_tree {
        Some(t) => t,
        None => {
            return Err(owned("No render tree found in component"));
        },
    };
    let names0 = signal_names_vec(&component.signals);
    let props_param = props_param_string(&component.props);
    let mut signal_names = signal_names_vec(&component.signals);
    let mut derived = String::new();
    push_derived_consts(&mut derived, &component.derived_consts, &mut signal_names);
    proof {
        assert(derived@ =~= Seq::<char>::empty() + derived@);
    }
    let mut output = String::new();
    push_client_prelude(
        &mut output,
        component,
        render_tree,
        &signal_names,
        props_param.as_str(),
        reads,
    );
    push_client_open(&mut output, component);
    push_str(&mut output, derived.as_str());
    if component.derived_consts.len() > 0 {
        push_str(&mut output, "\n");
    }
    gen_decl_lines(&mut output, &component.handler_decls, 1);
    if component.handler_decls.len() > 0 {
        push_str(&mut output, "\n");
    }
    let ghost before_body = output@;
    let ctx = ClientCtx { signal_names, props_param, reads };
    let mut counter = AtomicCounter::new();
    let root_var = match gen_node(render_tree, &mut output, &mut counter, 1, &ctx) {
        Ok(v) => v,
        Err(e) => {
            return Err(e);
        },
    };
    let ghost after_body = output@;
    push_client_close(&mut output, component, &names0, root_var.as_str());
    assert(output@ =~= before_body + after_body.skip(before_body.len() as int) + client_close(
        *component,
        root_var@,
    ));
    Ok(output)
}

} // verus!
