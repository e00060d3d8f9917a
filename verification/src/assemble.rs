//! One step of the build walk: a parsed source file becomes its compiled
//! module, with its output path, its route entry and what the page CSS
//! walk needs of it, or the error that stops the build.

use vstd::prelude::*;
use crate::api::{EnvMap, api_module, generate_api};
use crate::ast::{ComponentFile, ImportInfo, RunsOn};
use crate::codegen::SignalRead;
use crate::css::ComponentMeta;
use crate::generate::{component_module, fits_counter, generate_with_server_files, is_server, runs_on_server};
use crate::pipeline::{
    ApiRoute, api_route_entry, check_session_secret, client_import_violation, env_prerender_diagnostic,
    env_prerender_view, env_prerender_warning, first_violation, is_api_rel, is_page_rel, method_names,
    module_out_path, module_out_path_of, server_module_rel, server_module_rel_of, session_secret_error,
    table_views, under,
};
use crate::routes::{
    api_route, client_import_path, html_file_of, page_file_to_route, page_route, resolve_client_import,
    route_to_html_file,
};
use crate::json::{JsonView, json_as_str, json_text_value, parse_json_text, text_member, text_member_of};
use crate::reads::{read_table, row_views, signal_read_table};
use crate::site::{PageRoute, prerender_result, prerendered};
use crate::text::{chars_of, dec, owned, push_dec, push_str, string_of, trim, vec_trim, views};
use crate::tool::Diagnostic;
use crate::tree::{collect_hydrate_roots, hydrate_acc};

verus! {

broadcast use vstd::string::group_string_axioms;

/// How many of `ds` are errors (not warnings).
pub open spec fn error_count(ds: Seq<Diagnostic>) -> nat
    decreases ds.len(),
{
    if ds.len() == 0 {
        0
    } else {
        error_count(ds.drop_last()) + if ds.last().is_warning {
            0nat
        } else {
            1nat
        }
    }
}

/// The diagnostics a module is judged by: those of its checks, and for a
/// component the warning that it reads the environment while prerendered.
pub open spec fn adds_prerender_warning(rel: Seq<char>, c: ComponentFile) -> bool {
    !under(rel, "api"@) && env_prerender_warning(rel, c)
}

/// The errors among the diagnostics a module is judged by.
pub open spec fn all_errors(rel: Seq<char>, c: ComponentFile, given: Seq<Diagnostic>) -> nat {
    error_count(given) + if adds_prerender_warning(rel, c) && !env_prerender_view(c).5 {
        1nat
    } else {
        0nat
    }
}

/// The CSS imports of a module, in order.
pub open spec fn css_sources(imports: Seq<ImportInfo>) -> Seq<Seq<char>>
    decreases imports.len(),
{
    if imports.len() == 0 {
        seq![]
    } else {
        let prev = css_sources(imports.drop_last());
        if imports.last().is_css {
            prev.push(imports.last().source@)
        } else {
            prev
        }
    }
}

/// The island of each hydrate root of a server page with the client module
/// it mounts, in order, or the first root that cannot be resolved.
pub open spec fn page_roots_of(rel: Seq<char>, names: Seq<Seq<char>>, imports: Seq<ImportInfo>) -> Result<
    Seq<(Seq<char>, Seq<char>)>,
    Seq<char>,
>
    decreases names.len(),
{
    if names.len() == 0 {
        Ok(seq![])
    } else {
        match page_roots_of(rel, names.drop_last(), imports) {
            Err(e) => Err(e),
            Ok(prev) => match client_import_path(rel, names.last(), imports) {
                Err(e) => Err(e),
                Ok(p) => Ok(prev.push((names.last(), p))),
            },
        }
    }
}

/// The hydrate roots of a server page (none for any other module).
pub open spec fn module_roots(rel: Seq<char>, c: ComponentFile) -> Result<Seq<(Seq<char>, Seq<char>)>, Seq<char>> {
    if under(rel, "pages"@) && is_server(c) {
        match c.render_tree {
            Some(tree) => page_roots_of(rel, hydrate_acc(tree, seq![]), c.imports@),
            None => Ok(seq![]),
        }
    } else {
        Ok(seq![])
    }
}

pub open spec fn codegen_error(rel: Seq<char>, e: Seq<char>) -> Seq<char> {
    "codegen error in "@ + rel + ": "@ + e
}

/// What building source file `rel` into `out_base` gives, checked in this
/// order: a client module importing a server one, the errors among its
/// diagnostics, a missing session secret, then code generation (and, for a
/// server page, resolving its islands). On success: the output path, the
/// module text, and a server page's islands.
pub open spec fn build_outcome(
    out_base: Seq<char>,
    rel: Seq<char>,
    c: ComponentFile,
    given: Seq<Diagnostic>,
    env: Seq<(String, String)>,
    table: Seq<(Seq<char>, RunsOn)>,
    server_files: Seq<Seq<char>>,
    reads: Seq<SignalRead>,
) -> Result<(Seq<char>, Seq<char>, Seq<(Seq<char>, Seq<char>)>), Seq<char>> {
    let is_api = under(rel, "api"@);
    let out = module_out_path(out_base, rel, is_api || is_server(c));
    if !is_api && !is_server(c) && first_violation(rel, c.imports@, table) is Some {
        Err(first_violation(rel, c.imports@, table)->0)
    } else if all_errors(rel, c, given) > 0 {
        Err("validation failed in "@ + rel + ": "@ + dec(all_errors(rel, c, given)) + " error(s)"@)
    } else if session_secret_error(c.has_session_call, env, rel) is Some {
        Err(session_secret_error(c.has_session_call, env, rel)->0)
    } else if is_api {
        if trim(api_module(c, env)).len() == 0 {
            Err(codegen_error(rel, "no handlers emitted"@))
        } else {
            Ok((out, api_module(c, env), seq![]))
        }
    } else {
        match component_module(c, env, rel, server_files, reads) {
            Err(e) => Err(codegen_error(rel, e)),
            Ok(text) => match module_roots(rel, c) {
                Err(e) => Err(e),
                Ok(roots) => Ok((out, text, roots)),
            },
        }
    }
}

/// The target a source file is checked against by its importers: `Api` for
/// API files, its `@runsOn` target otherwise (`Client` when it has none);
/// and whether its module is emitted under `_server/`.
pub open spec fn source_class(rel: Seq<char>, runs_on: Option<RunsOn>) -> (RunsOn, bool) {
    if under(rel, "api"@) {
        (RunsOn::Api, true)
    } else {
        match runs_on {
            Some(k) => (k, k == RunsOn::Server),
            None => (RunsOn::Client, false),
        }
    }
}

pub fn classify_source(rel: &str, runs_on: &Option<RunsOn>) -> (r: (RunsOn, bool))
    ensures
        r == source_class(rel@, *runs_on),
{
    if is_api_rel(rel) {
        return (RunsOn::Api, true);
    }
    match runs_on {
        Some(RunsOn::Client) => (RunsOn::Client, false),
        Some(RunsOn::Server) => (RunsOn::Server, true),
        Some(RunsOn::Api) => (RunsOn::Api, false),
        None => (RunsOn::Client, false),
    }
}

/// A built module: where it goes, its text, and what the build records of
/// it (the route of an API module; the CSS walk's view of a component, and
/// the page entry of a server page).
pub struct BuiltModule {
    pub out_path: String,
    pub text: String,
    pub api_route: Option<ApiRoute>,
    pub page_route: Option<PageRoute>,
    pub meta: Option<ComponentMeta>,
}

pub open spec fn root_views(v: Seq<(String, String, bool)>) -> Seq<(Seq<char>, Seq<char>)> {
    v.map_values(|p: (String, String, bool)| (p.0@, p.1@))
}

fn count_errors(ds: &Vec<Diagnostic>) -> (r: u64)
    requires
        ds@.len() <= u64::MAX,
    ensures
        r == error_count(ds@),
{
    let mut n: u64 = 0;
    for i in 0..ds.len()
        invariant
            ds@.len() <= u64::MAX,
            n == error_count(ds@.take(i as int)),
            n <= i,
    {
        assert(ds@.take(i + 1).drop_last() =~= ds@.take(i as int));
        assert(ds@.take(i + 1).last() == ds@[i as int]);
        if !ds[i].is_warning {
            n = n + 1;
        }
    }
    assert(ds@.take(ds@.len() as int) =~= ds@);
    n
}

fn css_sources_of(imports: &Vec<ImportInfo>) -> (r: Vec<String>)
    ensures
        views(r@) == css_sources(imports@),
{
    let mut out: Vec<String> = Vec::new();
    for i in 0..imports.len()
        invariant
            views(out@) == css_sources(imports@.take(i as int)),
    {
        assert(imports@.take(i + 1).drop_last() =~= imports@.take(i as int));
        assert(imports@.take(i + 1).last() == imports@[i as int]);
        if imports[i].is_css {
            let ghost before = out@;
            out.push(imports[i].source.clone());
            assert(views(out@) =~= views(before).push(imports@[i as int].source@));
        }
    }
    assert(imports@.take(imports@.len() as int) =~= imports@);
    out
}

fn page_roots(rel: &str, names: &Vec<String>, imports: &Vec<ImportInfo>) -> (r: Result<
    Vec<(String, String, bool)>,
    String,
>)
    ensures
        match page_roots_of(rel@, views(names@), imports@) {
            Ok(rs) => r matches Ok(v) && root_views(v@) == rs && forall|k: int|
                0 <= k < v@.len() ==> !(#[trigger] v@[k]).2,
            Err(e) => r matches Err(m) && m@ == e,
        },
{
    let mut out: Vec<(String, String, bool)> = Vec::new();
    for i in 0..names.len()
        invariant
            page_roots_of(rel@, views(names@).take(i as int), imports@) matches Ok(rs) && root_views(
                out@,
            ) == rs,
            forall|k: int| 0 <= k < out@.len() ==> !(#[trigger] out@[k]).2,
            page_roots_of(rel@, views(names@), imports@) == page_roots_of(
                rel@,
                views(names@),
                imports@,
            ),
    {
        assert(views(names@).take(i + 1).drop_last() =~= views(names@).take(i as int));
        assert(views(names@).take(i + 1).last() == names@[i as int]@);
        match resolve_client_import(rel, names[i].as_str(), imports) {
            Err(e) => {
                proof {
                    lemma_roots_err(rel@, views(names@), imports@, i + 1);
                }
                return Err(e);
            },
            Ok(p) => {
                let ghost before = out@;
                out.push((names[i].clone(), p, false));
                assert(root_views(out@) =~= root_views(before).push((names@[i as int]@, out@.last().1@)));
            },
        }
    }
    assert(views(names@).take(names@.len() as int) =~= views(names@));
    Ok(out)
}

/// An unresolvable root among the first `k` is the error of all of them.
proof fn lemma_roots_err(rel: Seq<char>, names: Seq<Seq<char>>, imports: Seq<ImportInfo>, k: int)
    requires
        0 <= k <= names.len(),
        page_roots_of(rel, names.take(k), imports) is Err,
    ensures
        page_roots_of(rel, names, imports) == page_roots_of(rel, names.take(k), imports),
    decreases names.len() - k,
{
    if k < names.len() {
        assert(names.take(k + 1).drop_last() =~= names.take(k));
        lemma_roots_err(rel, names, imports, k + 1);
    } else {
        assert(names.take(k) =~= names);
    }
}

fn page_entry(rel: &str, c: &ComponentFile) -> (r: Result<PageRoute, String>)
    requires
        under(rel@, "pages"@) && is_server(*c),
    ensures
        match module_roots(rel@, *c) {
            Ok(rs) => r matches Ok(p) && p.route@ == page_route(rel@) && p.html_file@ == html_file_of(
                page_route(rel@),
            ) && p.mjs_rel@ == server_module_rel(rel@) && root_views(p.page_roots@) == rs && (forall|
                k: int,
            | 0 <= k < p.page_roots@.len() ==> !(#[trigger] p.page_roots@[k]).2) && p.css_files@.len()
                == 0 && p.has_data == c.has_data_call && !p.noindex,
            Err(e) => r matches Err(m) && m@ == e,
        },
{
    let route = page_file_to_route(rel);
    let html_file = route_to_html_file(route.as_str());
    let mjs_rel = server_module_rel_of(rel);
    let page_roots = match &c.render_tree {
        Some(tree) => {
            let names = collect_hydrate_roots(tree);
            match page_roots(rel, &names, &c.imports) {
                Ok(v) => v,
                Err(e) => {
                    return Err(e);
                },
            }
        },
        None => {
            let v: Vec<(String, String, bool)> = Vec::new();
            assert(root_views(v@) =~= Seq::<(Seq<char>, Seq<char>)>::empty());
            v
        },
    };
    Ok(
        PageRoute {
            route,
            html_file,
            mjs_rel,
            page_roots,
            css_files: Vec::new(),
            has_data: c.has_data_call,
            noindex: false,
        },
    )
}

fn validation_failed(rel: &str, n: u64) -> (r: String)
    ensures
        r@ == "validation failed in "@ + rel@ + ": "@ + dec(n as nat) + " error(s)"@,
{
    let mut s = owned("validation failed in ");
    push_str(&mut s, rel);
    push_str(&mut s, ": ");
    push_dec(&mut s, n);
    push_str(&mut s, " error(s)");
    s
}

fn codegen_error_of(rel: &str, e: &str) -> (r: String)
    ensures
        r@ == codegen_error(rel@, e@),
{
    let mut s = owned("codegen error in ");
    push_str(&mut s, rel);
    push_str(&mut s, ": ");
    push_str(&mut s, e);
    s
}

/// The diagnostics a build step reports: none when the import check refused
/// the file, else the given ones and the prerender warning of a component.
pub open spec fn reported_diagnostics(
    rel: Seq<char>,
    component: ComponentFile,
    diagnostics: Seq<Diagnostic>,
    runs_on_by_rel: Seq<(String, RunsOn)>,
    ds: Seq<Diagnostic>,
) -> bool {
    let is_api = under(rel, "api"@);
    let refused = !is_api && !is_server(component) && first_violation(
        rel,
        component.imports@,
        table_views(runs_on_by_rel),
    ) is Some;
    let warns = adds_prerender_warning(rel, component);
    &&& refused ==> ds.len() == 0
    &&& !refused ==> ds.len() == diagnostics.len() + (if warns { 1int } else { 0int })
        && ds.take(diagnostics.len() as int) == diagnostics
        && (warns ==> ({
            let d = ds.last();
            (d.line, d.column, d.code@, d.message@, d.fix_hint@, d.is_warning)
                == env_prerender_view(component)
        }))
}

/// The module a build step gives (see [`build_outcome`]), with what the
/// build records of it.
pub open spec fn built_module(
    out_base: Seq<char>,
    rel: Seq<char>,
    component: ComponentFile,
    diagnostics: Seq<Diagnostic>,
    env: Seq<(String, String)>,
    runs_on_by_rel: Seq<(String, RunsOn)>,
    server_files: Seq<Seq<char>>,
    reads: Seq<SignalRead>,
    result: Result<BuiltModule, String>,
) -> bool {
    match build_outcome(out_base, rel, component, diagnostics, env, table_views(runs_on_by_rel), server_files, reads) {
        Err(e) => result matches Err(m) && m@ == e,
        Ok((out, text, roots)) => result matches Ok(b) && b.out_path@ == out && b.text@ == text
            && (b.api_route is Some) == under(rel, "api"@)
            && (b.api_route matches Some(a) ==> a.path@ == api_route(rel) && a.file@ == server_module_rel(rel)
                && views(a.methods@) == method_names(component.exports@))
            && (b.meta is Some) == !under(rel, "api"@)
            && (b.meta matches Some(m) ==> m.render_tree == component.render_tree && m.imports
                == component.imports && views(m.css_imports@) == css_sources(component.imports@))
            && (b.page_route is Some) == (!under(rel, "api"@) && under(rel, "pages"@) && is_server(component))
            && (b.page_route matches Some(p) ==> p.route@ == page_route(rel) && p.html_file@ == html_file_of(
                page_route(rel),
            ) && p.mjs_rel@ == server_module_rel(rel) && root_views(p.page_roots@) == roots && (forall|k: int|
                0 <= k < p.page_roots@.len() ==> !(#[trigger] p.page_roots@[k]).2) && p.css_files@.len() == 0
                && p.has_data == component.has_data_call && !p.noindex),
    }
}

/// Builds source file `rel` (parsed as `component`, with the diagnostics of
/// its checks) into `out_base`; see [`build_outcome`]. Also gives the
/// diagnostics to report: none when the import check refused the file,
/// else the given ones and the prerender warning of a component.
pub fn build_module_output(
    out_base: &str,
    rel: &str,
    component: ComponentFile,
    diagnostics: Vec<Diagnostic>,
    env: &EnvMap,
    runs_on_by_rel: &Vec<(String, RunsOn)>,
    server_files: &Vec<String>,
    reads: &Vec<SignalRead>,
) -> (r: (Vec<Diagnostic>, Result<BuiltModule, String>))
    requires
        diagnostics@.len() < u64::MAX,
        !under(rel@, "api"@) && !is_server(component) ==> (component.render_tree matches Some(t)
            ==> fits_counter(t)),
    ensures
        reported_diagnostics(rel@, component, diagnostics@, runs_on_by_rel@, r.0@),
        built_module(
            out_base@,
            rel@,
            component,
            diagnostics@,
            env@,
            runs_on_by_rel@,
            views(server_files@),
            reads@,
            r.1,
        ),
{
    let is_api = is_api_rel(rel);
    let server = runs_on_server(&component);
    if !is_api && !server {
        match client_import_violation(rel, &component.imports, runs_on_by_rel) {
            Some(m) => {
                return (Vec::new(), Err(m));
            },
            None => {},
        }
    }
    let out_path = module_out_path_of(out_base, rel, is_api || server);
    let mut diags = diagnostics;
    if !is_api {
        match env_prerender_diagnostic(rel, &component) {
            Some(d) => {
                diags.push(d);
            },
            None => {},
        }
    }
    proof {
        assert(diags@.take(diagnostics@.len() as int) =~= diagnostics@);
        if adds_prerender_warning(rel@, component) {
            assert(diags@.drop_last() =~= diagnostics@);
        } else {
            assert(diags@ =~= diagnostics@);
        }
    }
    let n = count_errors(&diags);
    assert(n == all_errors(rel@, component, diagnostics@));
    if n > 0 {
        return (diags, Err(validation_failed(rel, n)));
    }
    match check_session_secret(component.has_session_call, env, rel) {
        Some(m) => {
            return (diags, Err(m));
        },
        None => {},
    }
    if is_api {
        return match generate_api(&component, env) {
            Err(e) => {
                proof {
                    reveal_strlit("no handlers emitted");
                }
                (diags, Err(codegen_error_of(rel, e.as_str())))
            },
            Ok(js) => {
                let route = api_route_entry(rel, &component.exports);
                (
                    diags,
                    Ok(BuiltModule { out_path, text: js, api_route: Some(route), page_route: None, meta: None }),
                )
            },
        };
    }
    let js = match generate_with_server_files(&component, env, rel, server_files, reads) {
        Ok(t) => t,
        Err(e) => {
            return (diags, Err(codegen_error_of(rel, e.as_str())));
        },
    };
    let page = if is_page_rel(rel) && server {
        match page_entry(rel, &component) {
            Ok(p) => Some(p),
            Err(e) => {
                return (diags, Err(e));
            },
        }
    } else {
        None
    };
    let css_imports = css_sources_of(&component.imports);
    let meta = ComponentMeta {
        render_tree: component.render_tree,
        imports: component.imports,
        css_imports,
    };
    (diags, Ok(BuiltModule { out_path, text: js, api_route: None, page_route: page, meta: Some(meta) }))
}

/// What a prerender run that printed `stdout` gives (see [`prerendered`]):
/// the trimmed text, read as JSON for its `html` and `head` members or as a
/// JSON string.
pub open spec fn prerender_of(stdout: Seq<char>) -> (Seq<char>, Option<Seq<char>>) {
    let t = trim(stdout);
    match json_text_value(t) {
        None => prerendered(t, None, None, None),
        Some(v) => prerendered(
            t,
            text_member(v, "html"@),
            text_member(v, "head"@),
            match v {
                JsonView::Str(s) => Some(s),
                _ => None,
            },
        ),
    }
}

pub fn prerender_from_stdout(stdout: &str) -> (r: (String, Option<String>))
    ensures
        r.0@ == prerender_of(stdout@).0,
        match prerender_of(stdout@).1 {
            Some(h) => r.1 matches Some(x) && x@ == h,
            None => r.1 is None,
        },
{
    let t = string_of(&vec_trim(&chars_of(stdout)));
    match parse_json_text(t.as_str()) {
        None => prerender_result(t.as_str(), None, None, None),
        Some(v) => prerender_result(
            t.as_str(),
            text_member_of(&v, "html"),
            text_member_of(&v, "head"),
            json_as_str(&v),
        ),
    }
}



/// Builds a parsed component end to end: its signal-read table is built
/// from it (see `read_table`), then the build step runs with it. The module
/// depends on the table only through its rows' contents.
pub fn build_component_output(
    out_base: &str,
    rel: &str,
    component: ComponentFile,
    diagnostics: Vec<Diagnostic>,
    env: &EnvMap,
    runs_on_by_rel: &Vec<(String, RunsOn)>,
    server_files: &Vec<String>,
) -> (r: (Vec<Diagnostic>, Result<BuiltModule, String>))
    requires
        diagnostics@.len() < u64::MAX,
        !under(rel@, "api"@) && !is_server(component) ==> (component.render_tree matches Some(t)
            ==> fits_counter(t)),
    ensures
        reported_diagnostics(rel@, component, diagnostics@, runs_on_by_rel@, r.0@),
        exists|t: Seq<SignalRead>|
            row_views(t) == read_table(component) && #[trigger] built_module(
                out_base@,
                rel@,
                component,
                diagnostics@,
                env@,
                runs_on_by_rel@,
                views(server_files@),
                t,
                r.1,
            ),
{
    let reads = signal_read_table(&component);
    let ghost c = component;
    let r = build_module_output(out_base, rel, component, diagnostics, env, runs_on_by_rel, server_files, &reads);
    assert(built_module(out_base@, rel@, c, diagnostics@, env@, runs_on_by_rel@, views(server_files@), reads@, r.1));
    r
}

} // verus!
