//! The server renderer: a render tree becomes one JavaScript expression
//! that concatenates the page's HTML at render time.

use vstd::prelude::*;
use crate::api::{EnvMap, module_runtime, push_module_runtime};
use crate::ast::{ComponentFile, JsxAttr, JsxNode, SignalDecl};
use crate::client::{blank_if, decl_lines, gen_decl_lines, push_signal_lines, signal_lines};
use crate::codegen::{build_props_object, gen_open_tag_js, open_tag_js, props_object};
use crate::paths::{
    components, join_segs, parent_str, path_components, path_eq, path_parent, path_with_extension,
    resolve, resolve_into, split, split_on, with_extension,
};
use crate::text::{
    Escape, chars_of, escaped, join, owned, push_escaped, push_join, push_repeat, push_str, repeat,
    starts_with, str_starts_with, string_of, trim_end_matches, trim_start, vec_trim_end_matches,
    vec_trim_start, views,
};
use crate::tree::{
    collect_component_imports, collect_hydrate_roots, component_imports, hydrate_acc, pair_views,
    style_expr, tags_acc, tree_has_style_expr,
};

verus! {

broadcast use vstd::string::group_string_axioms;

/// The HTML-string expression of a render tree. `in_async` makes child
/// component calls awaited.
pub open spec fn html_expr(node: JsxNode, in_async: bool) -> Seq<char>
    decreases node,
{
    match node {
        JsxNode::Text(t) => "'"@ + escaped(Escape::Html, t@) + "'"@,
        JsxNode::Expr(e) => "("@ + e@ + ")"@,
        JsxNode::Element { tag, attrs, children, is_hydrate_root, is_component } => {
            if is_hydrate_root {
                "'<div data-hydrate=\""@ + tag@ + "\" data-props=\\'' + JSON.stringify("@
                    + props_object(attrs@) + ") + '\\'></div>'"@
            } else if is_component {
                "("@ + (if in_async { "await "@ } else { Seq::<char>::empty() }) + tag@ + "("@ + props_object(attrs@)
                    + "))"@
            } else if tag@.len() == 0 {
                "("@ + html_joined(children@, in_async) + ")"@
            } else {
                "("@ + open_tag_js(tag@, attrs@) + html_appended(children@, in_async) + " + '"@
                    + escaped(Escape::Html, "</"@ + tag@ + ">"@) + "')"@
            }
        },
        JsxNode::Conditional { test, cons, alt } => "("@ + test@ + " ? "@ + html_expr(*cons, in_async)
            + " : "@ + html_expr(*alt, in_async) + ")"@,
        JsxNode::ForEach { each, item_param, body, .. } => "("@ + each@ + ".map(("@ + item_param@
            + ") => "@ + html_expr(*body, in_async) + ").join(''))"@,
    }
}

/// Children of a fragment, joined with ` + `.
pub open spec fn html_joined(nodes: Seq<JsxNode>, in_async: bool) -> Seq<char>
    decreases nodes,
{
    if nodes.len() == 0 {
        seq![]
    } else if nodes.len() == 1 {
        html_expr(nodes[0], in_async)
    } else {
        html_joined(nodes.drop_last(), in_async) + " + "@ + html_expr(nodes.last(), in_async)
    }
}

/// Children of an element, each preceded by ` + `.
pub open spec fn html_appended(nodes: Seq<JsxNode>, in_async: bool) -> Seq<char>
    decreases nodes,
{
    if nodes.len() == 0 {
        seq![]
    } else {
        html_appended(nodes.drop_last(), in_async) + " + "@ + html_expr(nodes.last(), in_async)
    }
}

fn push_island_placeholder(output: &mut String, tag: &str, attrs: &Vec<JsxAttr>)
    ensures
        final(output)@ == old(output)@ + "'<div data-hydrate=\""@ + tag@
            + "\" data-props=\\'' + JSON.stringify("@ + props_object(attrs@) + ") + '\\'></div>'"@,
{
    let props = match build_props_object(attrs) {
        Ok(p) => p,
        Err(e) => String::new(),
    };
    push_str(output, "'<div data-hydrate=\"");
    push_str(output, tag);
    push_str(output, "\" data-props=\\'' + JSON.stringify(");
    push_str(output, props.as_str());
    push_str(output, ") + '\\'></div>'");
    assert(output@ =~= old(output)@ + "'<div data-hydrate=\""@ + tag@
        + "\" data-props=\\'' + JSON.stringify("@ + props_object(attrs@) + ") + '\\'></div>'"@);
}

fn push_component_call(output: &mut String, tag: &str, attrs: &Vec<JsxAttr>, in_async: bool)
    ensures
        final(output)@ == old(output)@ + "("@ + (if in_async { "await "@ } else { Seq::<char>::empty() }) + tag@
            + "("@ + props_object(attrs@) + "))"@,
{
    let props = match build_props_object(attrs) {
        Ok(p) => p,
        Err(e) => String::new(),
    };
    push_str(output, "(");
    if in_async {
        push_str(output, "await ");
    }
    push_str(output, tag);
    push_str(output, "(");
    push_str(output, props.as_str());
    push_str(output, "))");
    assert(output@ =~= old(output)@ + "("@ + (if in_async { "await "@ } else { Seq::<char>::empty() }) + tag@
        + "("@ + props_object(attrs@) + "))"@);
}

fn push_close_tag(output: &mut String, tag: &str)
    ensures
        final(output)@ == old(output)@ + " + '"@ + escaped(Escape::Html, "</"@ + tag@ + ">"@)
            + "')"@,
{
    let mut close = String::new();
    push_str(&mut close, "</");
    push_str(&mut close, tag);
    push_str(&mut close, ">");
    push_str(output, " + '");
    push_escaped(output, close.as_str(), Escape::Html);
    push_str(output, "')");
    assert(output@ =~= old(output)@ + " + '"@ + escaped(Escape::Html, "</"@ + tag@ + ">"@)
        + "')"@);
}

/// Appends the children of a fragment, joined with ` + `.
#[verifier::loop_isolation(false)]
fn gen_html_joined(node: &JsxNode, children: &Vec<JsxNode>, output: &mut String, in_async: bool)
    requires
        *node matches JsxNode::Element { children: c, .. } && c == *children,
    ensures
        final(output)@ == old(output)@ + html_joined(children@, in_async),
    decreases node, 0nat,
{
    let ghost mid = output@;
    for i in 0..children.len()
        invariant
            output@ == mid + html_joined(children@.take(i as int), in_async),
    {
        assert(children@.take(i + 1).drop_last() =~= children@.take(i as int));
        proof {
            assert(decreases_to!(*node => children@[i as int]));
        }
        if i > 0 {
            push_str(output, " + ");
        }
        gen_html_node(&children[i], output, in_async);
        if i == 0 {
            assert(children@.take(1)[0] == children@[0]);
        }
        assert(output@ =~= mid + html_joined(children@.take(i + 1), in_async));
    }
    assert(children@.take(children@.len() as int) =~= children@);
}

/// Appends the children of an element, each preceded by ` + `.
#[verifier::loop_isolation(false)]
fn gen_html_appended(node: &JsxNode, children: &Vec<JsxNode>, output: &mut String, in_async: bool)
    requires
        *node matches JsxNode::Element { children: c, .. } && c == *children,
    ensures
        final(output)@ == old(output)@ + html_appended(children@, in_async),
    decreases node, 0nat,
{
    let ghost mid = output@;
    for i in 0..children.len()
        invariant
            output@ == mid + html_appended(children@.take(i as int), in_async),
    {
        assert(children@.take(i + 1).drop_last() =~= children@.take(i as int));
        proof {
            assert(decreases_to!(*node => children@[i as int]));
        }
        push_str(output, " + ");
        gen_html_node(&children[i], output, in_async);
        assert(output@ =~= mid + html_appended(children@.take(i + 1), in_async));
    }
    assert(children@.take(children@.len() as int) =~= children@);
}

/// Appends the HTML-string expression of `node`; always succeeds.
#[verifier::rlimit(40)]
pub fn gen_html_node(node: &JsxNode, output: &mut String, parent_is_async: bool) -> (r: Result<
    (),
    String,
>)
    ensures
        r is Ok,
        final(output)@ == old(output)@ + html_expr(*node, parent_is_async),
    decreases node, 1nat,
{
    match node {
        JsxNode::Text(text) => {
            push_str(output, "'");
            push_escaped(output, text.as_str(), Escape::Html);
            push_str(output, "'");
        },
        JsxNode::Expr(expr) => {
            push_str(output, "(");
            push_str(output, expr.as_str());
            push_str(output, ")");
        },
        JsxNode::Element { tag, attrs, children, is_hydrate_root, is_component } => {
            if *is_hydrate_root {
                push_island_placeholder(output, tag.as_str(), attrs);
            } else if *is_component {
                push_component_call(output, tag.as_str(), attrs, parent_is_async);
            } else if tag.as_str().is_empty() {
                push_str(output, "(");
                gen_html_joined(node, children, output, parent_is_async);
                push_str(output, ")");
            } else {
                let open_js = gen_open_tag_js(tag.as_str(), attrs);
                push_str(output, "(");
                push_str(output, open_js.as_str());
                gen_html_appended(node, children, output, parent_is_async);
                push_close_tag(output, tag.as_str());
            }
        },
        JsxNode::Conditional { test, cons, alt } => {
            push_str(output, "(");
            push_str(output, test.as_str());
            push_str(output, " ? ");
            let _ = gen_html_node(cons, output, parent_is_async);
            push_str(output, " : ");
            let _ = gen_html_node(alt, output, parent_is_async);
            push_str(output, ")");
        },
        JsxNode::ForEach { each, item_param, body, .. } => {
            push_str(output, "(");
            push_str(output, each.as_str());
            push_str(output, ".map((");
            push_str(output, item_param.as_str());
            push_str(output, ") => ");
            let _ = gen_html_node(body, output, parent_is_async);
            push_str(output, ").join(''))");
        },
    }
    assert(output@ =~= old(output)@ + html_expr(*node, parent_is_async));
    Ok(())
}

/// A segment that names something: not empty, `.` or `..`.
pub open spec fn is_normal(seg: Seq<char>) -> bool {
    seg.len() > 0 && seg != "."@ && seg != ".."@
}

/// The named segments of a path, in order.
pub open spec fn normal_parts(segs: Seq<Seq<char>>) -> Seq<Seq<char>>
    decreases segs.len(),
{
    if segs.len() == 0 {
        seq![]
    } else {
        normal_parts(segs.drop_last()) + (if is_normal(segs.last()) {
            seq![segs.last()]
        } else {
            Seq::<Seq<char>>::empty()
        })
    }
}

/// The segments `source` names, read from the directory of `rel`.
pub open spec fn imported_parts(rel: Seq<char>, source: Seq<char>) -> Seq<Seq<char>> {
    let dir = match parent_str(rel) {
        Some(d) => normal_parts(split(d, '/')),
        None => Seq::<Seq<char>>::empty(),
    };
    resolve(dir, split(source, '/'))
}

/// How many directories a server module at `rel` sits below the output
/// root (its directory's components, plus one for `_server/`).
pub open spec fn server_depth(rel: Seq<char>) -> nat {
    let c = components(rel);
    if c.len() > 0 && c.last() != "/"@ {
        c.len()
    } else {
        1
    }
}

/// The specifier a server module at `rel` (emitted under `_server/`) uses
/// for the relative import `source`: unchanged for a bare specifier, for an
/// empty `rel`, or when the target is itself a server module (both moved
/// together); otherwise walked up out of `_server/` to the public module.
pub open spec fn server_import(rel: Seq<char>, source: Seq<char>, server_files: Seq<Seq<char>>) -> Seq<
    char,
> {
    if !(starts_with(source, "./"@) || starts_with(source, "../"@)) || rel.len() == 0 {
        source
    } else {
        let parts = imported_parts(rel, source);
        let target = with_extension(join(parts, "/"@), "tsx"@);
        if exists|i: int|
            0 <= i < server_files.len() && components(server_files[i]) == components(target) {
            source
        } else {
            repeat("../"@, server_depth(rel)) + trim_end_matches(join(parts, "/"@), ".mjs"@) + ".mjs"@
        }
    }
}

fn normal_parts_vec(segs: &Vec<String>) -> (r: Vec<String>)
    ensures
        views(r@) == normal_parts(views(segs@)),
{
    let mut out: Vec<String> = Vec::new();
    for i in 0..segs.len()
        invariant
            views(out@) == normal_parts(views(segs@).take(i as int)),
    {
        assert(views(segs@).take(i + 1).drop_last() =~= views(segs@).take(i as int));
        assert(views(segs@).take(i + 1).last() == segs@[i as int]@);
        let cs = chars_of(segs[i].as_str());
        let dot = chars_of(".");
        let dd = chars_of("..");
        if cs.len() > 0 && !crate::text::chars_eq(&cs, &dot) && !crate::text::chars_eq(&cs, &dd) {
            let ghost before = out@;
            out.push(segs[i].clone());
            assert(views(out@) =~= views(before).push(segs@[i as int]@));
        }
    }
    assert(views(segs@).take(segs@.len() as int) =~= views(segs@));
    out
}

fn server_depth_of(rel: &str) -> (r: usize)
    ensures
        r == server_depth(rel@),
{
    let c = path_components(rel);
    proof {
        if c@.len() > 0 {
            assert(views(c@).last() == c@[c@.len() - 1]@);
        }
    }
    if c.len() > 0 && !crate::text::str_eq(c[c.len() - 1].as_str(), "/") {
        c.len()
    } else {
        1
    }
}

/// The import specifier used by a server module; see [`server_import`].
#[verifier::loop_isolation(false)]
pub fn rewrite_server_import(rel: &str, source: &str, server_files: &Vec<String>) -> (r: String)
    ensures
        r@ == server_import(rel@, source@, views(server_files@)),
{
    if !str_starts_with(source, "./") && !str_starts_with(source, "../") {
        return owned(source);
    }
    if chars_of(rel).len() == 0 {
        return owned(source);
    }
    let mut parts: Vec<String> = match path_parent(rel) {
        Some(d) => normal_parts_vec(&split_on(d.as_str(), '/')),
        None => Vec::new(),
    };
    assert(views(parts@) =~= match parent_str(rel@) {
        Some(d) => normal_parts(split(d, '/')),
        None => Seq::<Seq<char>>::empty(),
    });
    resolve_into(&mut parts, &split_on(source, '/'));
    let mut joined = String::new();
    push_join(&mut joined, &parts, "/");
    let target = path_with_extension(joined.as_str(), "tsx");
    let ghost sf = views(server_files@);
    for i in 0..server_files.len()
        invariant
            sf == views(server_files@),
            forall|k: int| 0 <= k < i ==> components(sf[k]) != components(target@),
    {
        if path_eq(server_files[i].as_str(), target.as_str()) {
            assert(components(sf[i as int]) == components(target@));
            return owned(source);
        }
    }
    let depth = server_depth_of(rel);
    let mut out = String::new();
    push_repeat(&mut out, "../", depth);
    let t = vec_trim_end_matches(&chars_of(joined.as_str()), &chars_of(".mjs"));
    push_str(&mut out, string_of(&t).as_str());
    push_str(&mut out, ".mjs");
    out
}

/// The first word after `const` in a derived-const line is `head`: the page
/// declares raw HTML for its `<head>`.
pub open spec fn declares_head(dc: Seq<char>) -> bool {
    let t = trim_start(dc);
    starts_with(t, "const"@) && first_word(trim_start(t.skip(5))) == "head"@
}

/// `s` up to its first space or `=`.
pub open spec fn first_word(s: Seq<char>) -> Seq<char>
    decreases s.len(),
{
    if s.len() == 0 || s[0] == ' ' || s[0] == '=' {
        Seq::<char>::empty()
    } else {
        seq![s[0]] + first_word(s.drop_first())
    }
}

pub open spec fn has_head_decl(dcs: Seq<Seq<char>>) -> bool {
    exists|i: int| 0 <= i < dcs.len() && declares_head(dcs[i])
}

proof fn lemma_first_word(s: Seq<char>, i: int)
    requires
        0 <= i <= s.len(),
        forall|k: int| 0 <= k < i ==> s[k] != ' ' && s[k] != '=',
        i == s.len() || s[i] == ' ' || s[i] == '=',
    ensures
        first_word(s) == s.take(i),
    decreases i,
{
    if i > 0 {
        assert forall|k: int| 0 <= k < i - 1 implies s.drop_first()[k] != ' ' && s.drop_first()[k]
            != '=' by {
            assert(s.drop_first()[k] == s[k + 1]);
        }
        lemma_first_word(s.drop_first(), i - 1);
        assert(s.take(i) =~= seq![s[0]] + s.drop_first().take(i - 1));
    }
}

fn first_word_of(v: &Vec<char>) -> (r: Vec<char>)
    ensures
        r@ == first_word(v@),
{
    let mut n = v.len();
    for i in 0..v.len()
        invariant
            n == v@.len(),
            forall|k: int| 0 <= k < i ==> v@[k] != ' ' && v@[k] != '=',
    {
        if v[i] == ' ' || v[i] == '=' {
            proof {
                lemma_first_word(v@, i as int);
            }
            return slice_prefix(v, i);
        }
    }
    proof {
        lemma_first_word(v@, v@.len() as int);
    }
    slice_prefix(v, n)
}

fn slice_prefix(v: &Vec<char>, n: usize) -> (r: Vec<char>)
    requires
        n <= v@.len(),
    ensures
        r@ == v@.take(n as int),
{
    let r = crate::text::slice_chars(v, 0, n);
    assert(r@ =~= v@.take(n as int));
    r
}

fn line_declares_head(dc: &str) -> (r: bool)
    ensures
        r == declares_head(dc@),
{
    let t = vec_trim_start(&chars_of(dc));
    if !crate::text::vec_starts_with(&t, &chars_of("const")) {
        return false;
    }
    proof {
        reveal_strlit("const");
    }
    let after = crate::text::slice_chars(&t, 5, t.len());
    assert(after@ =~= t@.skip(5));
    let rest = vec_trim_start(&after);
    let w = first_word_of(&rest);
    crate::text::chars_eq(&w, &chars_of("head"))
}

fn any_head_decl(dcs: &Vec<String>) -> (r: bool)
    ensures
        r == has_head_decl(views(dcs@)),
{
    for i in 0..dcs.len()
        invariant
            forall|k: int| 0 <= k < i ==> !declares_head(#[trigger] views(dcs@)[k]),
    {
        if line_declares_head(dcs[i].as_str()) {
            assert(declares_head(views(dcs@)[i as int]));
            return true;
        }
    }
    false
}

/// `import { NAME } from 'SPECIFIER';` per component import of a server
/// module.
pub open spec fn server_import_lines(
    pairs: Seq<(Seq<char>, Seq<char>)>,
    rel: Seq<char>,
    server_files: Seq<Seq<char>>,
) -> Seq<char>
    decreases pairs.len(),
{
    if pairs.len() == 0 {
        seq![]
    } else {
        server_import_lines(pairs.drop_last(), rel, server_files) + "import { "@ + pairs.last().0
            + " } from '"@ + server_import(rel, pairs.last().1, server_files) + "';\n"@
    }
}

/// The import lines of a server module's child components, and a blank
/// line after them.
pub open spec fn server_imports(
    c: ComponentFile,
    tree: JsxNode,
    rel: Seq<char>,
    server_files: Seq<Seq<char>>,
) -> Seq<char> {
    let pairs = component_imports(tags_acc(tree, seq![]), c.imports@);
    server_import_lines(pairs, rel, server_files) + blank_if(pairs.len() > 0)
}

/// The runtime pieces a server module needs: `data`, the env helper and
/// session runtime, `styleString`.
pub open spec fn server_runtime(c: ComponentFile, tree: JsxNode, env: Seq<(String, String)>) -> Seq<
    char,
> {
    (if c.has_data_call {
        "import { data } from '@marisjs/runtime';\n\n"@
    } else {
        Seq::<char>::empty()
    }) + module_runtime(c, env) + (if style_expr(tree) {
        "import { styleString } from '@marisjs/runtime';\n\n"@
    } else {
        Seq::<char>::empty()
    })
}

/// Everything before the component function of a server module.
pub open spec fn server_prelude(
    c: ComponentFile,
    tree: JsxNode,
    env: Seq<(String, String)>,
    rel: Seq<char>,
    server_files: Seq<Seq<char>>,
) -> Seq<char> {
    server_imports(c, tree, rel, server_files) + server_runtime(c, tree, env) + decl_lines(
        views(c.module_consts@),
        0,
    ) + blank_if(c.module_consts@.len() > 0)
}

/// `'./NAME.js'` per island, joined with `, `.
pub open spec fn bundle_list(names: Seq<Seq<char>>) -> Seq<char> {
    join(names.map_values(|n: Seq<char>| "'./"@ + n + ".js'"@), ", "@)
}

/// How a server component returns: the bare HTML expression, or (with
/// islands or a declared head) an object with the HTML, the head and the
/// client bundles to load.
pub open spec fn server_return(c: ComponentFile, tree: JsxNode) -> Seq<char> {
    let hydrates = hydrate_acc(tree, seq![]);
    let has_head = has_head_decl(views(c.derived_consts@));
    let html = html_expr(tree, c.has_data_call);
    if hydrates.len() == 0 && !has_head {
        "  return "@ + html + ";\n"@
    } else {
        "  const _html = "@ + html + ";\n"@ + "  return { html: _html"@ + (if has_head {
            ", head: head"@
        } else {
            Seq::<char>::empty()
        }) + ", clientBundles: ["@ + bundle_list(hydrates) + "] };\n"@
    }
}

/// The server module of a component, or why there is none.
pub open spec fn server_module(
    c: ComponentFile,
    env: Seq<(String, String)>,
    rel: Seq<char>,
    server_files: Seq<Seq<char>>,
) -> Result<Seq<char>, Seq<char>> {
    if c.exports@.len() == 0 {
        Err("No exported component found"@)
    } else {
        match c.render_tree {
            None => Err("No render tree found in component"@),
            Some(tree) => Ok(
                server_prelude(c, tree, env, rel, server_files) + "export "@ + (if c.has_data_call {
                    "async "@
                } else {
                    Seq::<char>::empty()
                }) + "function "@ + c.exports@[0].name@ + "(props) {\n"@ + signal_lines(c.signals@)
                    + decl_lines(views(c.derived_consts@), 1) + (if c.has_data_call {
                    "  // data() resolution (v1: direct await)\n"@
                } else {
                    Seq::<char>::empty()
                }) + server_return(c, tree) + "}\n"@,
            ),
        }
    }
}

fn push_server_import_lines(
    output: &mut String,
    pairs: &Vec<(String, String)>,
    rel: &str,
    server_files: &Vec<String>,
)
    ensures
        final(output)@ == old(output)@ + server_import_lines(
            pair_views(pairs@),
            rel@,
            views(server_files@),
        ),
{
    let ghost start = output@;
    for i in 0..pairs.len()
        invariant
            output@ == start + server_import_lines(
                pair_views(pairs@.take(i as int)),
                rel@,
                views(server_files@),
            ),
    {
        assert(pair_views(pairs@.take(i + 1)).drop_last() =~= pair_views(pairs@.take(i as int)));
        assert(pair_views(pairs@.take(i + 1)).last() == (pairs@[i as int].0@, pairs@[i as int].1@));
        push_str(output, "import { ");
        push_str(output, pairs[i].0.as_str());
        push_str(output, " } from '");
        let spec_str = rewrite_server_import(rel, pairs[i].1.as_str(), server_files);
        push_str(output, spec_str.as_str());
        push_str(output, "';\n");
        assert(output@ =~= start + server_import_lines(
            pair_views(pairs@.take(i + 1)),
            rel@,
            views(server_files@),
        ));
    }
    assert(pairs@.take(pairs@.len() as int) =~= pairs@);
}

fn push_server_imports(
    output: &mut String,
    c: &ComponentFile,
    tree: &JsxNode,
    rel: &str,
    server_files: &Vec<String>,
)
    ensures
        final(output)@ == old(output)@ + server_imports(*c, *tree, rel@, views(server_files@)),
{
    let comp_imports = collect_component_imports(tree, &c.imports);
    push_server_import_lines(output, &comp_imports, rel, server_files);
    if comp_imports.len() > 0 {
        push_str(output, "\n");
    }
    assert(output@ =~= old(output)@ + server_imports(*c, *tree, rel@, views(server_files@)));
}

fn push_server_runtime(output: &mut String, c: &ComponentFile, tree: &JsxNode, env: &EnvMap)
    ensures
        final(output)@ == old(output)@ + server_runtime(*c, *tree, env@),
{
    if c.has_data_call {
        push_str(output, "import { data } from '@marisjs/runtime';\n\n");
    }
    push_module_runtime(output, c, env);
    if tree_has_style_expr(tree) {
        push_str(output, "import { styleString } from '@marisjs/runtime';\n\n");
    }
    assert(output@ =~= old(output)@ + server_runtime(*c, *tree, env@));
}

fn push_server_prelude(
    output: &mut String,
    c: &ComponentFile,
    tree: &JsxNode,
    env: &EnvMap,
    rel: &str,
    server_files: &Vec<String>,
)
    ensures
        final(output)@ == old(output)@ + server_prelude(*c, *tree, env@, rel@, views(server_files@)),
{
    let ghost start = output@;
    push_server_imports(output, c, tree, rel, server_files);
    push_server_runtime(output, c, tree, env);
    gen_decl_lines(output, &c.module_consts, 0);
    if c.module_consts.len() > 0 {
        push_str(output, "\n");
    }
    assert(output@ =~= start + server_prelude(*c, *tree, env@, rel@, views(server_files@)));
}

fn push_bundle_list(output: &mut String, names: &Vec<String>)
    ensures
        final(output)@ == old(output)@ + bundle_list(views(names@)),
{
    let mut items: Vec<String> = Vec::new();
    for i in 0..names.len()
        invariant
            views(items@) == views(names@).take(i as int).map_values(
                |n: Seq<char>| "'./"@ + n + ".js'"@,
            ),
    {
        let mut s = owned("'./");
        push_str(&mut s, names[i].as_str());
        push_str(&mut s, ".js'");
        let ghost before = items@;
        items.push(s);
        assert(views(items@) =~= views(before).push(s@));
        assert(views(items@) =~= views(names@).take(i + 1).map_values(
            |n: Seq<char>| "'./"@ + n + ".js'"@,
        ));
    }
    assert(views(names@).take(names@.len() as int) =~= views(names@));
    push_join(output, &items, ", ");
}

fn push_server_return(output: &mut String, c: &ComponentFile, tree: &JsxNode)
    ensures
        final(output)@ == old(output)@ + server_return(*c, *tree),
{
    let ghost start = output@;
    let hydrates = collect_hydrate_roots(tree);
    let has_head = any_head_decl(&c.derived_consts);
    if hydrates.len() == 0 && !has_head {
        push_str(output, "  return ");
        let _ = gen_html_node(tree, output, c.has_data_call);
        push_str(output, ";\n");
    } else {
        push_str(output, "  const _html = ");
        let _ = gen_html_node(tree, output, c.has_data_call);
        push_str(output, ";\n");
        push_str(output, "  return { html: _html");
        if has_head {
            push_str(output, ", head: head");
        }
        push_str(output, ", clientBundles: [");
        push_bundle_list(output, &hydrates);
        push_str(output, "] };\n");
    }
    assert(output@ =~= start + server_return(*c, *tree));
}

/// Server module of a component: imports (island imports rewritten out of
/// `_server/`), the data/env/session/style runtime it needs, module consts,
/// then an (async, with `data()`) component function that returns the
/// page's HTML expression, or an object with it, the head and the client
/// bundles of its islands.
pub fn generate_server(
    component: &ComponentFile,
    env: &EnvMap,
    rel: &str,
    server_files: &Vec<String>,
) -> (r: Result<String, String>)
    ensures
        match server_module(*component, env@, rel@, views(server_files@)) {
            Ok(text) => r matches Ok(s) && s@ == text,
            Err(e) => r matches Err(m) && m@ == e,
        },
{
    if component.exports.len() == 0 {
        return Err(owned("No exported component found"));
    }
    let render_tree = match &component.render_tree {
        Some(t) => t,
        None => {
            return Err(owned("No render tree found in component"));
        },
    };
    let mut output = String::new();
    push_server_prelude(&mut output, component, render_tree, env, rel, server_files);
    let ghost p1 = output@;
    push_str(&mut output, "export ");
    if component.has_data_call {
        push_str(&mut output, "async ");
    }
    push_str(&mut output, "function ");
    push_str(&mut output, component.exports[0].name.as_str());
    push_str(&mut output, "(props) {\n");
    push_signal_lines(&mut output, &component.signals);
    gen_decl_lines(&mut output, &component.derived_consts, 1);
    if component.has_data_call {
        push_str(&mut output, "  // data() resolution (v1: direct await)\n");
    }
    push_server_return(&mut output, component, render_tree);
    push_str(&mut output, "}\n");
    assert(output@ =~= p1 + output@.skip(p1.len() as int));
    Ok(output)
}

} // verus!
