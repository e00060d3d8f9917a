//! Shared pieces of the code generators: escaping, attribute
//! classification, props objects, reactivity lookups and the opening-tag
//! builder of the server renderer.

use vstd::prelude::*;
use crate::ast::{ImportInfo, JsxAttr, JsxAttrValue};
use crate::text::{
    Escape, chars_of, char_is_uppercase, contains, escape, escaped, find_char, index_of,
    lemma_index_of, owned, push_escaped, push_join, push_repeat, push_str, repeat, slice_chars,
    starts_with, str_eq, string_of, to_lowercase, trim, trim_end_matches, unicode_is_uppercase,
    unicode_to_lowercase, vec_contains, vec_starts_with, vec_trim, vec_trim_end_matches, views,
    join, push_char,
};

verus! {

broadcast use vstd::string::group_string_axioms;

/// HTML-escapes `& < > ' "`.
pub fn html_escape(s: &str) -> (r: String)
    ensures
        r@ == escaped(Escape::Html, s@),
{
    escape(s, Escape::Html)
}

/// HTML-escapes an attribute value: `& " ' < >` (the same five entities).
pub fn html_attr_escape(s: &str) -> (r: String)
    ensures
        r@ == escaped(Escape::Html, s@),
{
    escape(s, Escape::Html)
}

/// The DOM event an attribute name binds: `onClick` binds `click` (the
/// rest after `on`, lowercased, when it starts with an uppercase letter).
pub open spec fn event_name(name: Seq<char>) -> Option<Seq<char>> {
    if name.len() > 2 && name[0] == 'o' && name[1] == 'n' && unicode_is_uppercase(name[2]) {
        Some(unicode_to_lowercase(name.skip(2)))
    } else {
        None
    }
}

pub fn is_event_attr(name: &str) -> (r: Option<String>)
    ensures
        r is Some <==> event_name(name@) is Some,
        r matches Some(e) ==> event_name(name@) == Some(e@),
{
    let cs = chars_of(name);
    if cs.len() > 2 && cs[0] == 'o' && cs[1] == 'n' && char_is_uppercase(cs[2]) {
        let rest = string_of(&slice_chars(&cs, 2, cs.len()));
        assert(cs@.subrange(2, cs@.len() as int) =~= name@.skip(2));
        Some(to_lowercase(rest.as_str()))
    } else {
        None
    }
}

/// HTML boolean attributes (presence semantics).
pub open spec fn is_boolean_attr_name(n: Seq<char>) -> bool {
    ||| n == "disabled"@ ||| n == "checked"@ ||| n == "selected"@ ||| n == "readonly"@
    ||| n == "required"@ ||| n == "hidden"@ ||| n == "multiple"@ ||| n == "autofocus"@
    ||| n == "autoplay"@ ||| n == "controls"@ ||| n == "loop"@ ||| n == "muted"@
    ||| n == "novalidate"@ ||| n == "formnovalidate"@ ||| n == "async"@ ||| n == "defer"@
    ||| n == "ismap"@ ||| n == "nomodule"@ ||| n == "open"@ ||| n == "reversed"@
    ||| n == "default"@ ||| n == "itemscope"@ ||| n == "typemustmatch"@
}

pub fn is_boolean_attr(name: &str) -> (r: bool)
    ensures
        r == is_boolean_attr_name(name@),
{
    str_eq(name, "disabled") || str_eq(name, "checked") || str_eq(name, "selected") || str_eq(
        name,
        "readonly",
    ) || str_eq(name, "required") || str_eq(name, "hidden") || str_eq(name, "multiple")
        || str_eq(name, "autofocus") || str_eq(name, "autoplay") || str_eq(name, "controls")
        || str_eq(name, "loop") || str_eq(name, "muted") || str_eq(name, "novalidate") || str_eq(
        name,
        "formnovalidate",
    ) || str_eq(name, "async") || str_eq(name, "defer") || str_eq(name, "ismap") || str_eq(
        name,
        "nomodule",
    ) || str_eq(name, "open") || str_eq(name, "reversed") || str_eq(name, "default") || str_eq(
        name,
        "itemscope",
    ) || str_eq(name, "typemustmatch")
}

/// Attributes written as DOM properties instead of `setAttribute`.
pub fn needs_property_assignment(name: &str) -> (r: bool)
    ensures
        r == (name@ == "value"@),
{
    str_eq(name, "value")
}

/// `expr` is exactly one of the signal names.
pub open spec fn signal_name_spec(expr: Seq<char>, names: Seq<Seq<char>>) -> bool {
    exists|i: int| 0 <= i < names.len() && names[i] == expr
}

pub fn is_signal_name(expr: &str, signal_names: &Vec<String>) -> (r: bool)
    ensures
        r == signal_name_spec(expr@, views(signal_names@)),
{
    for i in 0..signal_names.len()
        invariant
            forall|k: int| 0 <= k < i ==> signal_names@[k]@ != expr@,
    {
        if str_eq(signal_names[i].as_str(), expr) {
            assert(views(signal_names@)[i as int] == expr@);
            return true;
        }
    }
    false
}

/// `expr` reads `.value` of a signal directly: `<name>.value`.
pub open spec fn unwrapped_signal_spec(expr: Seq<char>, names: Seq<Seq<char>>) -> bool {
    exists|i: int| 0 <= i < names.len() && expr == names[i] + ".value"@
}

pub fn is_unwrapped_signal(expr: &str, signal_names: &Vec<String>) -> (r: bool)
    ensures
        r == unwrapped_signal_spec(expr@, views(signal_names@)),
{
    for i in 0..signal_names.len()
        invariant
            forall|k: int| 0 <= k < i ==> expr@ != signal_names@[k]@ + ".value"@,
    {
        let mut candidate = signal_names[i].clone();
        push_str(&mut candidate, ".value");
        if str_eq(expr, candidate.as_str()) {
            assert(views(signal_names@)[i as int] == signal_names@[i as int]@);
            return true;
        }
    }
    false
}

/// The declared name of a derived `const` whose initializer reads the
/// `.value` of one of the signals: `const total = count.value * 2;` reacts
/// to `count`.
pub open spec fn reactive_derived_const(dc: Seq<char>, names: Seq<Seq<char>>) -> Option<
    Seq<char>,
> {
    if !starts_with(dc, "const "@) {
        None
    } else {
        let rest = dc.skip("const "@.len() as int);
        match index_of(rest, '=') {
            None => None,
            Some(eq) => {
                let var = trim(rest.take(eq));
                let init = rest.skip(eq + 1);
                if var.len() == 0 || index_of(var, ' ') is Some {
                    None
                } else if exists|i: int|
                    0 <= i < names.len() && contains(init, names[i] + ".value"@) {
                    Some(var)
                } else {
                    None
                }
            },
        }
    }
}

#[verifier::loop_isolation(false)]
pub fn is_reactive_derived_const(dc: &str, signal_names: &Vec<String>) -> (r: Option<String>)
    ensures
        r is Some <==> reactive_derived_const(dc@, views(signal_names@)) is Some,
        r matches Some(v) ==> reactive_derived_const(dc@, views(signal_names@)) == Some(v@),
{
    let cs = chars_of(dc);
    let prefix = chars_of("const ");
    if !vec_starts_with(&cs, &prefix) {
        return None;
    }
    let rest = slice_chars(&cs, prefix.len(), cs.len());
    assert(rest@ =~= dc@.skip("const "@.len() as int));
    let eq = match find_char(&rest, '=') {
        Some(e) => e,
        None => return None,
    };
    proof { lemma_index_of(rest@, '='); }
    let var = vec_trim(&slice_chars(&rest, 0, eq));
    assert(rest@.subrange(0, eq as int) =~= rest@.take(eq as int));
    if var.len() == 0 {
        return None;
    }
    if find_char(&var, ' ').is_some() {
        return None;
    }
    let init = slice_chars(&rest, eq + 1, rest.len());
    assert(init@ =~= rest@.skip(eq + 1));
    for i in 0..signal_names.len()
        invariant
            init@ == rest@.skip(eq + 1),
            forall|k: int|
                0 <= k < i ==> !contains(init@, views(signal_names@)[k] + ".value"@),
    {
        let mut pat = signal_names[i].clone();
        push_str(&mut pat, ".value");
        assert(views(signal_names@)[i as int] == signal_names@[i as int]@);
        assert(pat@ == views(signal_names@)[i as int] + ".value"@);
        if vec_contains(&init, &chars_of(pat.as_str())) {
            assert(contains(init@, views(signal_names@)[i as int] + ".value"@));
            let r = string_of(&var);
            assert(starts_with(dc@, "const "@));
            assert(index_of(dc@.skip("const "@.len() as int), '=') == Some(eq as int));
            assert(var@ == trim(dc@.skip("const "@.len() as int).take(eq as int)));
            assert(index_of(var@, ' ') is None);
            assert(var@.len() != 0);
            assert(init@ == dc@.skip("const "@.len() as int).skip(eq + 1));
            assert(reactive_derived_const(dc@, views(signal_names@)) == Some(r@));
            return Some(r);
        }
    }
    assert(!exists|i: int|
        0 <= i < views(signal_names@).len() && contains(init@, views(signal_names@)[i] + ".value"@));
    None
}

/// The initializer text of `const NAME = INIT;`: after the first `=`,
/// trimmed, trailing `;` removed; the text itself when it is no such
/// declaration.
pub open spec fn const_init(dc: Seq<char>) -> Seq<char> {
    if starts_with(dc, "const "@) {
        let rest = dc.skip("const "@.len() as int);
        match index_of(rest, '=') {
            Some(eq) => trim_end_matches(trim(rest.skip(eq + 1)), ";"@),
            None => dc,
        }
    } else {
        dc
    }
}

pub fn extract_const_init(dc: &str) -> (r: String)
    ensures
        r@ == const_init(dc@),
{
    let cs = chars_of(dc);
    let prefix = chars_of("const ");
    if vec_starts_with(&cs, &prefix) {
        let rest = slice_chars(&cs, prefix.len(), cs.len());
        assert(rest@ =~= dc@.skip("const "@.len() as int));
        if let Some(eq) = find_char(&rest, '=') {
            proof { lemma_index_of(rest@, '='); }
            let init = slice_chars(&rest, eq + 1, rest.len());
            assert(init@ =~= rest@.skip(eq + 1));
            let r = vec_trim_end_matches(&vec_trim(&init), &chars_of(";"));
            return string_of(&r);
        }
    }
    owned(dc)
}

/// One generated line: the indentation (two spaces per level), the text, a
/// newline.
pub open spec fn line(indent: nat, s: Seq<char>) -> Seq<char> {
    repeat("  "@, indent) + s + "\n"@
}

pub fn writeln(output: &mut String, indent: usize, s: &str)
    ensures
        final(output)@ == old(output)@ + line(indent as nat, s@),
{
    push_repeat(output, "  ", indent);
    push_str(output, s);
    push_str(output, "\n");
    assert(output@ =~= old(output)@ + line(indent as nat, s@));
}

/// `name` is one of the names an import brings in.
pub open spec fn imports_name(imp: ImportInfo, name: Seq<char>) -> bool {
    exists|k: int| 0 <= k < imp.imported_names@.len() && imp.imported_names@[k]@ == name
}

/// A relative specifier with its `.tsx`/`.ts` ending replaced by `.mjs`.
pub open spec fn mjs_specifier(source: Seq<char>) -> Seq<char> {
    trim_end_matches(trim_end_matches(source, ".tsx"@), ".ts"@) + ".mjs"@
}

pub fn to_mjs_specifier(source: &str) -> (r: String)
    ensures
        r@ == mjs_specifier(source@),
{
    let a = vec_trim_end_matches(&chars_of(source), &chars_of(".tsx"));
    let b = vec_trim_end_matches(&a, &chars_of(".ts"));
    let mut r = string_of(&b);
    push_str(&mut r, ".mjs");
    r
}

pub fn import_has_name(imp: &ImportInfo, name: &str) -> (r: bool)
    ensures
        r == imports_name(*imp, name@),
{
    for k in 0..imp.imported_names.len()
        invariant
            forall|j: int| 0 <= j < k ==> imp.imported_names@[j]@ != name@,
    {
        if str_eq(imp.imported_names[k].as_str(), name) {
            return true;
        }
    }
    false
}

/// The compiled module an imported component name comes from: the first
/// import that brings the name in.
pub open spec fn import_source_of(name: Seq<char>, imports: Seq<ImportInfo>) -> Option<Seq<char>>
    decreases imports.len(),
{
    if imports.len() == 0 {
        None
    } else if imports_name(imports[0], name) {
        Some(mjs_specifier(imports[0].source@))
    } else {
        import_source_of(name, imports.drop_first())
    }
}

pub fn resolve_import_source(name: &str, file_imports: &Vec<ImportInfo>) -> (r: Option<String>)
    ensures
        r is Some <==> import_source_of(name@, file_imports@) is Some,
        r matches Some(s) ==> import_source_of(name@, file_imports@) == Some(s@),
{
    let mut i: usize = 0;
    assert(file_imports@.skip(0) =~= file_imports@);
    while i < file_imports.len()
        invariant
            i <= file_imports@.len(),
            import_source_of(name@, file_imports@) == import_source_of(
                name@,
                file_imports@.skip(i as int),
            ),
        decreases file_imports.len() - i,
    {
        assert(file_imports@.skip(i as int)[0] == file_imports@[i as int]);
        if import_has_name(&file_imports[i], name) {
            return Some(to_mjs_specifier(file_imports[i].source.as_str()));
        }
        assert(file_imports@.skip(i as int).drop_first() =~= file_imports@.skip(i + 1));
        i += 1;
    }
    None
}

/// One `name: value` entry of a props object literal: expressions verbatim,
/// string values single-quoted.
pub open spec fn prop_pair(a: JsxAttr) -> Seq<char> {
    match a.value {
        JsxAttrValue::Expr(e) => a.name@ + ": "@ + e@,
        JsxAttrValue::String(s) => a.name@ + ": '"@ + escaped(Escape::JsQuote, s@) + "'"@,
    }
}

pub open spec fn prop_pairs(attrs: Seq<JsxAttr>) -> Seq<Seq<char>> {
    attrs.map_values(|a: JsxAttr| prop_pair(a))
}

/// `{}` or `{ a: x, b: 'y' }`.
pub open spec fn object_literal(pairs: Seq<Seq<char>>) -> Seq<char> {
    if pairs.len() == 0 { "{}"@ } else { "{ "@ + join(pairs, ", "@) + " }"@ }
}

pub open spec fn props_object(attrs: Seq<JsxAttr>) -> Seq<char> {
    object_literal(prop_pairs(attrs))
}

fn prop_pair_string(a: &JsxAttr) -> (r: String)
    ensures
        r@ == prop_pair(*a),
{
    let mut s = a.name.clone();
    match &a.value {
        JsxAttrValue::Expr(e) => {
            push_str(&mut s, ": ");
            push_str(&mut s, e.as_str());
        },
        JsxAttrValue::String(v) => {
            push_str(&mut s, ": '");
            push_escaped(&mut s, v.as_str(), Escape::JsQuote);
            push_str(&mut s, "'");
        },
    }
    assert(s@ =~= prop_pair(*a));
    s
}

/// Appends the object literal of `pairs`.
pub fn push_object_literal(out: &mut String, pairs: &Vec<String>)
    ensures
        final(out)@ == old(out)@ + object_literal(views(pairs@)),
{
    if pairs.len() == 0 {
        push_str(out, "{}");
    } else {
        push_str(out, "{ ");
        push_join(out, pairs, ", ");
        push_str(out, " }");
        assert(out@ =~= old(out)@ + object_literal(views(pairs@)));
    }
}

/// The props object passed to a component or serialized into a hydration
/// placeholder.
pub fn build_props_object(attrs: &Vec<JsxAttr>) -> (r: Result<String, String>)
    ensures
        r matches Ok(s) && s@ == props_object(attrs@),
{
    let mut pairs: Vec<String> = Vec::new();
    for i in 0..attrs.len()
        invariant
            views(pairs@) == prop_pairs(attrs@.take(i as int)),
    {
        let ghost before = pairs@;
        pairs.push(prop_pair_string(&attrs[i]));
        assert(attrs@.take(i + 1) =~= attrs@.take(i as int).push(attrs@[i as int]));
        assert(prop_pairs(attrs@.take(i + 1)) =~= prop_pairs(attrs@.take(i as int)).push(
            prop_pair(attrs@[i as int]),
        ));
        assert(views(pairs@) =~= views(before).push(pairs@[i as int]@));
    }
    assert(attrs@.take(attrs@.len() as int) =~= attrs@);
    let mut out = String::new();
    push_object_literal(&mut out, &pairs);
    Ok(out)
}

/// The render-time token of one expression-valued attribute in a server
/// opening tag: presence for boolean attributes, `styleString` for `style`,
/// the evaluated value otherwise.
pub open spec fn expr_attr_token(name: Seq<char>, e: Seq<char>) -> Seq<char> {
    if is_boolean_attr_name(name) {
        "("@ + e + " ? \" "@ + name + "=\\\"\\\"\" : \"\")"@
    } else if name == "style"@ {
        "\" "@ + name + "=\\\"\" + styleString("@ + e + ") + \"\\\"\""@
    } else {
        "\" "@ + name + "=\\\"\" + ("@ + e + ") + \"\\\"\""@
    }
}

/// No boolean attribute name is an event name (none starts with `on`).
pub proof fn lemma_boolean_not_event(n: Seq<char>)
    requires
        is_boolean_attr_name(n),
    ensures
        event_name(n) is None,
{
    reveal_strlit("disabled");
    reveal_strlit("checked");
    reveal_strlit("selected");
    reveal_strlit("readonly");
    reveal_strlit("required");
    reveal_strlit("hidden");
    reveal_strlit("multiple");
    reveal_strlit("autofocus");
    reveal_strlit("autoplay");
    reveal_strlit("controls");
    reveal_strlit("loop");
    reveal_strlit("muted");
    reveal_strlit("novalidate");
    reveal_strlit("formnovalidate");
    reveal_strlit("async");
    reveal_strlit("defer");
    reveal_strlit("ismap");
    reveal_strlit("nomodule");
    reveal_strlit("open");
    reveal_strlit("reversed");
    reveal_strlit("default");
    reveal_strlit("itemscope");
    reveal_strlit("typemustmatch");
}

/// A boolean attribute with an expression renders as a JavaScript
/// conditional on that expression: when it is truthy the markup gets
/// ` name=""`, when it is falsy nothing.
pub proof fn law_boolean_attr_token(name: Seq<char>, e: Seq<char>)
    requires
        is_boolean_attr_name(name),
    ensures
        expr_attr_token(name, e) == "("@ + e + " ? "@ + ("\" "@ + name + "=\\\"\\\"\""@) + " : "@ + "\"\""@
            + ")"@,
{
    reveal_strlit("(");
    reveal_strlit(" ? \" ");
    reveal_strlit(" ? ");
    reveal_strlit("\" ");
    reveal_strlit("=\\\"\\\"\" : \"\")");
    reveal_strlit("=\\\"\\\"\"");
    reveal_strlit(" : ");
    reveal_strlit("\"\"");
    reveal_strlit(")");
    assert(expr_attr_token(name, e) =~= "("@ + e + " ? "@ + ("\" "@ + name + "=\\\"\\\"\""@) + " : "@
        + "\"\""@ + ")"@);
}

/// Any other attribute with an expression renders its value into the
/// markup: ` name="` + the expression (through `styleString` for `style`)
/// + `"`, as JavaScript string concatenation.
pub proof fn law_value_attr_token(name: Seq<char>, e: Seq<char>)
    requires
        !is_boolean_attr_name(name),
    ensures
        expr_attr_token(name, e) == "\" "@ + name + "=\\\"\" + "@ + (if name == "style"@ {
            "styleString("@ + e + ")"@
        } else {
            "("@ + e + ")"@
        }) + " + \"\\\"\""@,
{
    reveal_strlit("=\\\"\" + styleString(");
    reveal_strlit("=\\\"\" + (");
    reveal_strlit("=\\\"\" + ");
    reveal_strlit("styleString(");
    reveal_strlit("(");
    reveal_strlit(")");
    reveal_strlit(") + \"\\\"\"");
    reveal_strlit(" + \"\\\"\"");
    assert(expr_attr_token(name, e) =~= "\" "@ + name + "=\\\"\" + "@ + (if name == "style"@ {
        "styleString("@ + e + ")"@
    } else {
        "("@ + e + ")"@
    }) + " + \"\\\"\""@);
}

/// A static chunk of markup as a single-quoted JavaScript string.
pub open spec fn quoted_markup(s: Seq<char>) -> Seq<char> {
    "'"@ + escaped(Escape::Html, s) + "'"@
}

/// Tokens emitted so far and the pending static text, after the first
/// attributes of an opening tag.
pub open spec fn open_tag_state(tag: Seq<char>, attrs: Seq<JsxAttr>) -> (Seq<Seq<char>>, Seq<char>)
    decreases attrs.len(),
{
    if attrs.len() == 0 {
        (seq![], "<"@ + tag)
    } else {
        let (toks, acc) = open_tag_state(tag, attrs.drop_last());
        let a = attrs.last();
        if event_name(a.name@) is Some {
            (toks, acc)
        } else {
            match a.value {
                JsxAttrValue::String(v) => (
                    toks,
                    acc + " "@ + a.name@ + "=\""@ + escaped(Escape::Html, v@) + "\""@,
                ),
                JsxAttrValue::Expr(e) => {
                    let flushed = if acc.len() > 0 { toks.push(quoted_markup(acc)) } else { toks };
                    (flushed.push(expr_attr_token(a.name@, e@)), seq![])
                },
            }
        }
    }
}

/// The JavaScript expression producing an element's opening tag at server
/// render time: static attributes embedded, expression attributes evaluated,
/// event handlers dropped.
pub open spec fn open_tag_js(tag: Seq<char>, attrs: Seq<JsxAttr>) -> Seq<char> {
    let (toks, acc) = open_tag_state(tag, attrs);
    "("@ + join(toks.push(quoted_markup(acc.push('>'))), " + "@) + ")"@
}

fn push_expr_attr_token(toks: &mut Vec<String>, name: &str, e: &str)
    ensures
        views(final(toks)@) == views(old(toks)@).push(expr_attr_token(name@, e@)),
{
    let mut t = String::new();
    if is_boolean_attr(name) {
        push_str(&mut t, "(");
        push_str(&mut t, e);
        push_str(&mut t, " ? \" ");
        push_str(&mut t, name);
        push_str(&mut t, "=\\\"\\\"\" : \"\")");
    } else if str_eq(name, "style") {
        push_str(&mut t, "\" ");
        push_str(&mut t, name);
        push_str(&mut t, "=\\\"\" + styleString(");
        push_str(&mut t, e);
        push_str(&mut t, ") + \"\\\"\"");
    } else {
        push_str(&mut t, "\" ");
        push_str(&mut t, name);
        push_str(&mut t, "=\\\"\" + (");
        push_str(&mut t, e);
        push_str(&mut t, ") + \"\\\"\"");
    }
    assert(t@ =~= expr_attr_token(name@, e@));
    let ghost before = toks@;
    toks.push(t);
    assert(views(toks@) =~= views(before).push(expr_attr_token(name@, e@)));
}

fn quote_markup(s: &str) -> (r: String)
    ensures
        r@ == quoted_markup(s@),
{
    let mut t = String::new();
    push_str(&mut t, "'");
    push_escaped(&mut t, s, Escape::Html);
    push_str(&mut t, "'");
    assert(t@ =~= quoted_markup(s@));
    t
}

pub fn gen_open_tag_js(tag: &str, attrs: &Vec<JsxAttr>) -> (r: String)
    ensures
        r@ == open_tag_js(tag@, attrs@),
{
    let mut toks: Vec<String> = Vec::new();
    let mut acc = String::new();
    push_str(&mut acc, "<");
    push_str(&mut acc, tag);
    assert(attrs@.take(0) =~= Seq::<JsxAttr>::empty());
    for i in 0..attrs.len()
        invariant
            (views(toks@), acc@) == open_tag_state(tag@, attrs@.take(i as int)),
    {
        assert(attrs@.take(i + 1).drop_last() =~= attrs@.take(i as int));
        assert(attrs@.take(i + 1).last() == attrs@[i as int]);
        let a = &attrs[i];
        if is_event_attr(a.name.as_str()).is_some() {
        } else {
            match &a.value {
                JsxAttrValue::String(v) => {
                    push_str(&mut acc, " ");
                    push_str(&mut acc, a.name.as_str());
                    push_str(&mut acc, "=\"");
                    push_escaped(&mut acc, v.as_str(), Escape::Html);
                    push_str(&mut acc, "\"");
                },
                JsxAttrValue::Expr(e) => {
                    if !acc.as_str().is_empty() {
                        let q = quote_markup(acc.as_str());
                        let ghost before = toks@;
                        toks.push(q);
                        assert(views(toks@) =~= views(before).push(q@));
                    }
                    push_expr_attr_token(&mut toks, a.name.as_str(), e.as_str());
                    acc = String::new();
                },
            }
        }
        assert((views(toks@), acc@) == open_tag_state(tag@, attrs@.take(i + 1)));
    }
    assert(attrs@.take(attrs@.len() as int) =~= attrs@);
    push_char(&mut acc, '>');
    let q = quote_markup(acc.as_str());
    let ghost before = toks@;
    toks.push(q);
    assert(views(toks@) =~= views(before).push(q@));
    let mut out = String::new();
    push_str(&mut out, "(");
    push_join(&mut out, &toks, " + ");
    push_str(&mut out, ")");
    assert(out@ =~= open_tag_js(tag@, attrs@));
    out
}

/// One precomputed answer of the expression analyser: whether `expr`
/// reads the `.value` of one of `signal_names` (or of a signal drilled
/// through `props_param`). The analysis itself parses the expression and
/// runs in the front end; the generators only look answers up.
#[derive(Debug, Clone, PartialEq)]
pub struct SignalRead {
    pub expr: String,
    pub signal_names: Vec<String>,
    pub props_param: String,
    pub reads: bool,
}

/// The table answers "reads a signal" for this question.
pub open spec fn reads_signal(
    table: Seq<SignalRead>,
    expr: Seq<char>,
    names: Seq<Seq<char>>,
    props_param: Seq<char>,
) -> bool {
    exists|i: int|
        0 <= i < table.len() && table[i].expr@ == expr && views(table[i].signal_names@) == names
            && table[i].props_param@ == props_param && table[i].reads
}

fn names_eq(a: &Vec<String>, b: &Vec<String>) -> (r: bool)
    ensures
        r == (views(a@) == views(b@)),
{
    if a.len() != b.len() {
        assert(views(a@).len() != views(b@).len());
        return false;
    }
    for i in 0..a.len()
        invariant
            a@.len() == b@.len(),
            forall|k: int| 0 <= k < i ==> a@[k]@ == b@[k]@,
    {
        if a[i] != b[i] {
            assert(views(a@)[i as int] != views(b@)[i as int]);
            return false;
        }
    }
    assert(views(a@) =~= views(b@));
    true
}

/// Reactivity of an expression: a read of a known signal's `.value`.
pub fn is_reactive_expr(
    expr: &str,
    signal_names: &Vec<String>,
    props_param: &str,
    table: &Vec<SignalRead>,
) -> (r: bool)
    ensures
        r == reads_signal(table@, expr@, views(signal_names@), props_param@),
{
    for i in 0..table.len()
        invariant
            forall|k: int|
                0 <= k < i ==> !(table@[k].expr@ == expr@ && views(table@[k].signal_names@)
                    == views(signal_names@) && table@[k].props_param@ == props_param@
                    && table@[k].reads),
    {
        let t = &table[i];
        if t.reads && str_eq(t.expr.as_str(), expr) && names_eq(&t.signal_names, signal_names)
            && str_eq(t.props_param.as_str(), props_param) {
            return true;
        }
    }
    false
}

} // verus!
