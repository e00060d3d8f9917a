//! Decisions the build makes per source file: where its module goes, how it
//! is routed, and which files it refuses to build.

use vstd::prelude::*;
use crate::api::{EnvMap, env_get, env_lookup};
use crate::ast::{ComponentFile, ExportInfo, ExportKind, ImportInfo, RunsOn};
use crate::tool::Diagnostic;
use crate::paths::{
    components, join_segs, normalized, normalized_of, parent_str, path_components, path_eq,
    path_parent, path_with_extension, split, split_on, with_extension,
};
use crate::routes::{api_file_to_route, api_route, source_stem, source_stem_of};
use crate::text::{
    chars_of, dec, owned, push_dec, push_str, starts_with, str_starts_with, string_of, trim,
    vec_trim, views,
};

verus! {

broadcast use vstd::string::group_string_axioms;

/// `Path::file_name`: the last component, unless the path ends in `..` or
/// is the root alone.
pub open spec fn file_name_of(p: Seq<char>) -> Option<Seq<char>> {
    let cs = components(p);
    if cs.len() == 0 || cs.last() == ".."@ || cs.last() == "/"@ {
        None
    } else {
        Some(cs.last())
    }
}

/// A non-source file of the project is copied to the output as an asset,
/// except `.env` (its secrets must never be downloadable) and
/// `middleware.ts` (compiled on its own), wherever they stand.
pub fn copies_asset(rel: &str) -> (r: bool)
    ensures
        r == !(file_name_of(rel@) == Some(".env"@) || file_name_of(rel@) == Some(
            "middleware.ts"@,
        )),
{
    let cs = path_components(rel);
    if cs.len() == 0 {
        return true;
    }
    let last = cs[cs.len() - 1].as_str();
    assert(views(cs@).last() == last@);
    if crate::text::str_eq(last, "..") || crate::text::str_eq(last, "/") {
        return true;
    }
    !(crate::text::str_eq(last, ".env") || crate::text::str_eq(last, "middleware.ts"))
}

/// The first component of a source path is `dir`.
pub open spec fn under(rel: Seq<char>, dir: Seq<char>) -> bool {
    components(rel).len() > 0 && components(rel)[0] == dir
}

fn is_under(rel: &str, dir: &str) -> (r: bool)
    ensures
        r == under(rel@, dir@),
{
    let c = path_components(rel);
    if c.len() == 0 {
        return false;
    }
    assert(views(c@)[0] == c@[0]@);
    crate::text::str_eq(c[0].as_str(), dir)
}

/// An API route source: under `api/`.
pub fn is_api_rel(rel: &str) -> (r: bool)
    ensures
        r == under(rel@, "api"@),
{
    is_under(rel, "api")
}

/// A page source: under `pages/`.
pub fn is_page_rel(rel: &str) -> (r: bool)
    ensures
        r == under(rel@, "pages"@),
{
    is_under(rel, "pages")
}

/// `dir.join(rel)`, as text.
pub open spec fn join_path(dir: Seq<char>, rel: Seq<char>) -> Seq<char> {
    if starts_with(rel, "/"@) {
        rel
    } else {
        crate::http::join_str(dir, rel)
    }
}

pub fn join_path_of(dir: &str, rel: &str) -> (r: String)
    ensures
        r@ == join_path(dir@, rel@),
{
    if str_starts_with(rel, "/") {
        return owned(rel);
    }
    let mut out = owned(dir);
    let bare = chars_of(dir).len() == 0 || crate::text::str_ends_with(dir, "/");
    if !bare {
        push_str(&mut out, "/");
    }
    push_str(&mut out, rel);
    out
}

/// Where the compiled module of `rel` is written: under `_server/` for a
/// server-side module, with the `.mjs` extension.
pub open spec fn module_out_path(out_base: Seq<char>, rel: Seq<char>, server_side: bool) -> Seq<
    char,
> {
    let base = if server_side {
        join_path(out_base, "_server"@)
    } else {
        out_base
    };
    with_extension(join_path(base, rel), "mjs"@)
}

pub fn module_out_path_of(out_base: &str, rel: &str, server_side: bool) -> (r: String)
    ensures
        r@ == module_out_path(out_base@, rel@, server_side),
{
    let base = if server_side {
        join_path_of(out_base, "_server")
    } else {
        owned(out_base)
    };
    let joined = join_path_of(base.as_str(), rel);
    path_with_extension(joined.as_str(), "mjs")
}

/// The manifest path of a server module: `_server/` plus the normalized
/// source path with the `.mjs` extension.
pub open spec fn server_module_rel(rel: Seq<char>) -> Seq<char> {
    "_server/"@ + normalized(split(with_extension(rel, "mjs"@), '/'))
}

pub fn server_module_rel_of(rel: &str) -> (r: String)
    ensures
        r@ == server_module_rel(rel@),
{
    let with_mjs = path_with_extension(rel, "mjs");
    let mut out = owned("_server/");
    push_str(&mut out, normalized_of(&split_on(with_mjs.as_str(), '/')).as_str());
    out
}

/// One built API route: its URL, its compiled module, the HTTP methods it
/// exports.
pub struct ApiRoute {
    pub path: String,
    pub file: String,
    pub methods: Vec<String>,
}

/// The names of the exported named functions, in order.
pub open spec fn method_names(exports: Seq<ExportInfo>) -> Seq<Seq<char>>
    decreases exports.len(),
{
    if exports.len() == 0 {
        seq![]
    } else {
        method_names(exports.drop_last()) + if exports.last().kind == ExportKind::NamedFunction {
            seq![exports.last().name@]
        } else {
            Seq::<Seq<char>>::empty()
        }
    }
}

/// The route record of an API source: URL from its path, module under
/// `_server/`, methods from its named function exports.
pub fn api_route_entry(rel: &str, exports: &Vec<ExportInfo>) -> (r: ApiRoute)
    ensures
        r.path@ == api_route(rel@),
        r.file@ == server_module_rel(rel@),
        views(r.methods@) == method_names(exports@),
{
    let mut methods: Vec<String> = Vec::new();
    for i in 0..exports.len()
        invariant
            views(methods@) == method_names(exports@.take(i as int)),
    {
        assert(exports@.take(i + 1).drop_last() =~= exports@.take(i as int));
        assert(exports@.take(i + 1).last() == exports@[i as int]);
        let ghost before = methods@;
        match exports[i].kind {
            ExportKind::NamedFunction => {
                methods.push(exports[i].name.clone());
                assert(views(methods@) =~= views(before).push(exports@[i as int].name@));
            },
            ExportKind::DefaultExport => {},
        }
    }
    assert(exports@.take(exports@.len() as int) =~= exports@);
    ApiRoute {
        path: api_file_to_route(rel),
        file: server_module_rel_of(rel),
        methods,
    }
}

pub open spec fn runs_on_label(k: RunsOn) -> Seq<char> {
    match k {
        RunsOn::Server => "server"@,
        RunsOn::Api => "api"@,
        RunsOn::Client => "client"@,
    }
}

/// The classification of the first entry whose path equals `target`.
pub open spec fn lookup_runs_on(table: Seq<(Seq<char>, RunsOn)>, target: Seq<char>) -> Option<
    RunsOn,
>
    decreases table.len(),
{
    if table.len() == 0 {
        None
    } else {
        match lookup_runs_on(table.drop_last(), target) {
            Some(k) => Some(k),
            None => if components(table.last().0) == components(target) {
                Some(table.last().1)
            } else {
                None
            },
        }
    }
}

pub open spec fn table_views(t: Seq<(String, RunsOn)>) -> Seq<(Seq<char>, RunsOn)> {
    t.map_values(|e: (String, RunsOn)| (e.0@, e.1))
}

fn copy_runs_on(k: &RunsOn) -> (r: RunsOn)
    ensures
        r == *k,
{
    match k {
        RunsOn::Client => RunsOn::Client,
        RunsOn::Server => RunsOn::Server,
        RunsOn::Api => RunsOn::Api,
    }
}

fn lookup_runs_on_of(table: &Vec<(String, RunsOn)>, target: &str) -> (r: Option<RunsOn>)
    ensures
        r == lookup_runs_on(table_views(table@), target@),
{
    let ghost tv = table_views(table@);
    for i in 0..table.len()
        invariant
            tv == table_views(table@),
            lookup_runs_on(tv.take(i as int), target@) is None,
    {
        assert(tv.take(i + 1).drop_last() =~= tv.take(i as int));
        assert(tv.take(i + 1).last() == tv[i as int]);
        if path_eq(table[i].0.as_str(), target) {
            proof {
                lemma_lookup_prefix(tv, target@, i + 1, tv.len() as int);
                assert(tv.take(tv.len() as int) =~= tv);
            }
            return Some(copy_runs_on(&table[i].1));
        }
    }
    assert(tv.take(tv.len() as int) =~= tv);
    None
}

proof fn lemma_lookup_prefix(t: Seq<(Seq<char>, RunsOn)>, target: Seq<char>, k: int, j: int)
    requires
        0 <= k <= j <= t.len(),
        lookup_runs_on(t.take(k), target) is Some,
    ensures
        lookup_runs_on(t.take(j), target) == lookup_runs_on(t.take(k), target),
    decreases j - k,
{
    if k < j {
        lemma_lookup_prefix(t, target, k, j - 1);
        assert(t.take(j).drop_last() =~= t.take(j - 1));
    }
}

/// What a relative import of a client file at `rel` resolves to: its
/// normalized path (the importer's directory joined with the source, its
/// extension dropped) plus `.tsx`, else `.ts`, whichever the build knows
/// first; none when neither is known.
pub open spec fn import_target_kind(
    rel: Seq<char>,
    source: Seq<char>,
    table: Seq<(Seq<char>, RunsOn)>,
) -> Option<RunsOn> {
    let dir = match parent_str(rel) {
        Some(d) => split(d, '/'),
        None => split(Seq::<char>::empty(), '/'),
    };
    let resolved = normalized(join_segs(dir, source_stem(source)));
    match lookup_runs_on(table, resolved + ".tsx"@) {
        Some(k) => Some(k),
        None => lookup_runs_on(table, resolved + ".ts"@),
    }
}

/// The build error of a client file whose relative import `imp` resolves
/// to a module that runs on the server or as an API route; none otherwise.
pub open spec fn import_violation(
    rel: Seq<char>,
    imp: ImportInfo,
    table: Seq<(Seq<char>, RunsOn)>,
) -> Option<Seq<char>> {
    if imp.is_css || !(starts_with(imp.source@, "./"@) || starts_with(imp.source@, "../"@)) {
        None
    } else {
        match import_target_kind(rel, imp.source@, table) {
            Some(k) => if k != RunsOn::Client {
                Some(
                    rel + ":"@ + dec(imp.line as nat)
                        + " — CLIENT_IMPORTS_SERVER: client file imports '"@ + imp.source@
                        + "' which runs on "@ + runs_on_label(k)
                        + " (server-side modules have no public URL); move the import into a @runsOn server component and pass data down via props"@,
                )
            } else {
                None
            },
            None => None,
        }
    }
}

/// The first import violation among `imports`, in order.
pub open spec fn first_violation(
    rel: Seq<char>,
    imports: Seq<ImportInfo>,
    table: Seq<(Seq<char>, RunsOn)>,
) -> Option<Seq<char>>
    decreases imports.len(),
{
    if imports.len() == 0 {
        None
    } else {
        match first_violation(rel, imports.drop_last(), table) {
            Some(m) => Some(m),
            None => import_violation(rel, imports.last(), table),
        }
    }
}

fn import_violation_of(rel: &str, imp: &ImportInfo, table: &Vec<(String, RunsOn)>) -> (r: Option<
    String,
>)
    ensures
        match import_violation(rel@, *imp, table_views(table@)) {
            Some(m) => r matches Some(s) && s@ == m,
            None => r is None,
        },
{
    if imp.is_css || !(str_starts_with(imp.source.as_str(), "./") || str_starts_with(
        imp.source.as_str(),
        "../",
    )) {
        return None;
    }
    let dir = match path_parent(rel) {
        Some(d) => split_on(d.as_str(), '/'),
        None => split_on("", '/'),
    };
    proof {
        reveal_strlit("");
        assert(""@ =~= Seq::<char>::empty());
    }
    let stem = source_stem_of(imp.source.as_str());
    let joined = crate::paths::join_vec(&dir, stem.as_str());
    let resolved = normalized_of(&joined);
    let mut tsx = resolved.clone();
    push_str(&mut tsx, ".tsx");
    let kind = match lookup_runs_on_of(table, tsx.as_str()) {
        Some(k) => Some(k),
        None => {
            let mut ts = resolved.clone();
            push_str(&mut ts, ".ts");
            lookup_runs_on_of(table, ts.as_str())
        },
    };
    match kind {
        Some(k) => {
            let label = match k {
                RunsOn::Client => {
                    return None;
                },
                RunsOn::Server => "server",
                RunsOn::Api => "api",
            };
            let mut m = owned(rel);
            push_str(&mut m, ":");
            push_dec(&mut m, imp.line as u64);
            push_str(&mut m, " — CLIENT_IMPORTS_SERVER: client file imports '");
            push_str(&mut m, imp.source.as_str());
            push_str(&mut m, "' which runs on ");
            push_str(&mut m, label);
            push_str(
                &mut m,
                " (server-side modules have no public URL); move the import into a @runsOn server component and pass data down via props",
            );
            Some(m)
        },
        None => None,
    }
}

/// The first relative import of a client file at `rel` that reaches a
/// server-side module (per the build's classification of every source),
/// as the build error; none when there is none.
pub fn client_import_violation(
    rel: &str,
    imports: &Vec<ImportInfo>,
    runs_on_by_rel: &Vec<(String, RunsOn)>,
) -> (r: Option<String>)
    ensures
        match first_violation(rel@, imports@, table_views(runs_on_by_rel@)) {
            Some(m) => r matches Some(s) && s@ == m,
            None => r is None,
        },
{
    for i in 0..imports.len()
        invariant
            first_violation(rel@, imports@.take(i as int), table_views(runs_on_by_rel@)) is None,
    {
        assert(imports@.take(i + 1).drop_last() =~= imports@.take(i as int));
        assert(imports@.take(i + 1).last() == imports@[i as int]);
        match import_violation_of(rel, &imports[i], runs_on_by_rel) {
            Some(m) => {
                proof {
                    lemma_violation_prefix(
                        rel@,
                        imports@,
                        table_views(runs_on_by_rel@),
                        i + 1,
                        imports@.len() as int,
                    );
                    assert(imports@.take(imports@.len() as int) =~= imports@);
                }
                return Some(m);
            },
            None => {},
        }
    }
    assert(imports@.take(imports@.len() as int) =~= imports@);
    None
}

proof fn lemma_violation_prefix(
    rel: Seq<char>,
    imports: Seq<ImportInfo>,
    table: Seq<(Seq<char>, RunsOn)>,
    k: int,
    j: int,
)
    requires
        0 <= k <= j <= imports.len(),
        first_violation(rel, imports.take(k), table) is Some,
    ensures
        first_violation(rel, imports.take(j), table) == first_violation(rel, imports.take(k), table),
    decreases j - k,
{
    if k < j {
        lemma_violation_prefix(rel, imports, table, k, j - 1);
        assert(imports.take(j).drop_last() =~= imports.take(j - 1));
    }
}

/// The UTF-8 byte count of `c`.
pub open spec fn utf8_width(c: char) -> nat {
    if (c as u32) <= 0x7F {
        1
    } else if (c as u32) <= 0x7FF {
        2
    } else if (c as u32) <= 0xFFFF {
        3
    } else {
        4
    }
}

pub open spec fn width_sum(s: Seq<char>) -> nat
    decreases s.len(),
{
    if s.len() == 0 {
        0
    } else {
        utf8_width(s[0]) + width_sum(s.drop_first())
    }
}

proof fn lemma_utf8_len(s: Seq<char>)
    ensures
        vstd::utf8::encode_utf8(s).len() == width_sum(s),
    decreases s.len(),
{
    if s.len() > 0 {
        lemma_utf8_len(s.drop_first());
        vstd::utf8::char_is_scalar(s[0]);
        let v = s[0] as u32;
        assert(v <= 0x10FFFF && !(0xD800 <= v <= 0xDFFF)) by {
            assert(vstd::utf8::is_scalar(v));
        }
        assert(vstd::utf8::encode_scalar(v).len() == utf8_width(s[0]));
    }
}

/// At least `n` bytes of UTF-8 (`n <= 16`).
fn utf8_at_least(v: &Vec<char>, n: u64) -> (r: bool)
    requires
        n <= 16,
    ensures
        r == (vstd::utf8::encode_utf8(v@).len() >= n),
{
    proof {
        lemma_utf8_len(v@);
    }
    if n == 0 {
        return true;
    }
    let mut acc: u64 = 0;
    let mut i: usize = 0;
    assert(v@.skip(0) =~= v@);
    while i < v.len()
        invariant
            i <= v@.len(),
            acc < n,
            n <= 16,
            width_sum(v@) == acc + width_sum(v@.skip(i as int)),
            vstd::utf8::encode_utf8(v@).len() == width_sum(v@),
        decreases v.len() - i,
    {
        let c = v[i] as u32;
        let w: u64 = if c <= 0x7F {
            1
        } else if c <= 0x7FF {
            2
        } else if c <= 0xFFFF {
            3
        } else {
            4
        };
        assert(v@.skip(i as int).drop_first() =~= v@.skip(i + 1));
        assert(v@.skip(i as int)[0] == v@[i as int]);
        acc = acc + w;
        i += 1;
        if acc >= n {
            return true;
        }
    }
    assert(v@.skip(i as int).len() == 0);
    acc >= n
}

/// A session secret the build accepts: after trimming, non-empty and at
/// least 16 bytes of UTF-8.
pub open spec fn strong_secret(secret: Seq<char>) -> bool {
    trim(secret).len() > 0 && vstd::utf8::encode_utf8(trim(secret)).len() >= 16
}

/// The build error of a module at `rel` that uses sessions without a
/// strong `SESSION_SECRET` in `env`; none when it uses none or the secret
/// is strong.
pub open spec fn session_secret_error(
    uses_session: bool,
    env: Seq<(String, String)>,
    rel: Seq<char>,
) -> Option<Seq<char>> {
    let secret = match env_lookup(env, "SESSION_SECRET"@) {
        Some(v) => v,
        None => Seq::<char>::empty(),
    };
    if uses_session && !strong_secret(secret) {
        Some(
            "SESSION_SECRET is missing or too weak, but "@ + rel
                + " uses session()/setSession() — session signing cannot work without it. Add a strong SESSION_SECRET (16+ characters) to .env or the environment (e.g. `openssl rand -base64 32`)."@,
        )
    } else {
        None
    }
}

pub fn check_session_secret(uses_session: bool, env: &EnvMap, rel: &str) -> (r: Option<String>)
    ensures
        match session_secret_error(uses_session, env@, rel@) {
            Some(m) => r matches Some(s) && s@ == m,
            None => r is None,
        },
{
    if !uses_session {
        return None;
    }
    let secret = match env_get(env, "SESSION_SECRET") {
        Some(v) => v,
        None => String::new(),
    };
    let trimmed = vec_trim(&chars_of(secret.as_str()));
    if trimmed.len() == 0 || !utf8_at_least(&trimmed, 16) {
        let mut m = owned("SESSION_SECRET is missing or too weak, but ");
        push_str(&mut m, rel);
        push_str(
            &mut m,
            " uses session()/setSession() — session signing cannot work without it. Add a strong SESSION_SECRET (16+ characters) to .env or the environment (e.g. `openssl rand -base64 32`).",
        );
        return Some(m);
    }
    None
}

/// A server page that is prerendered (no `data()`) while its module reads
/// `env()`: the build warns that the values may land in public HTML.
pub open spec fn env_prerender_warning(rel: Seq<char>, c: ComponentFile) -> bool {
    !under(rel, "api"@) && under(rel, "pages"@) && c.runs_on == Some(RunsOn::Server)
        && !c.has_data_call && c.has_env_call
}

pub fn warns_env_prerender(rel: &str, component: &ComponentFile) -> (r: bool)
    ensures
        r == env_prerender_warning(rel@, *component),
{
    let server = match &component.runs_on {
        Some(RunsOn::Server) => true,
        _ => false,
    };
    !is_api_rel(rel) && is_page_rel(rel) && server && !component.has_data_call
        && component.has_env_call
}

/// The warning for a server page prerendered at build time whose module
/// reads `env()`: its position is that of the `env()` call (at least line
/// and column 1).
pub open spec fn env_prerender_view(c: ComponentFile) -> (Option<usize>, Option<usize>, Seq<char>, Seq<char>, Seq<char>, bool) {
    (
        Some(if c.env_call_line >= 1 { c.env_call_line } else { 1 }),
        Some(if c.env_call_column >= 1 { c.env_call_column } else { 1 }),
        "SERVER_PAGE_ENV_PRERENDER"@,
        "this page is prerendered into static HTML at build time (no data()), but its module code reads env() — the value is evaluated during prerender and may end up in the public .html file served to everyone. Never read secrets (SESSION_SECRET, API keys) here."@,
        "Read secrets only from api routes or data(); for non-secret configuration, this warning is informational."@,
        true,
    )
}

pub fn env_prerender_diagnostic(rel: &str, component: &ComponentFile) -> (r: Option<Diagnostic>)
    ensures
        r.is_some() == env_prerender_warning(rel@, *component),
        r matches Some(d) ==> (d.line, d.column, d.code@, d.message@, d.fix_hint@, d.is_warning)
            == env_prerender_view(*component),
{
    if !warns_env_prerender(rel, component) {
        return None;
    }
    let line = if component.env_call_line >= 1 { component.env_call_line } else { 1 };
    let column = if component.env_call_column >= 1 { component.env_call_column } else { 1 };
    Some(Diagnostic {
        line: Some(line),
        column: Some(column),
        code: owned("SERVER_PAGE_ENV_PRERENDER"),
        message: owned("this page is prerendered into static HTML at build time (no data()), but its module code reads env() — the value is evaluated during prerender and may end up in the public .html file served to everyone. Never read secrets (SESSION_SECRET, API keys) here."),
        fix_hint: owned("Read secrets only from api routes or data(); for non-secret configuration, this warning is informational."),
        is_warning: true,
    })
}

/// The source path of a page from its manifest module path: `_server/`
/// and `.mjs` dropped, `.tsx` added.
pub open spec fn page_source_rel(mjs_rel: Seq<char>) -> Seq<char> {
    let s = if starts_with(mjs_rel, "_server/"@) {
        mjs_rel.skip(8)
    } else {
        mjs_rel
    };
    crate::text::trim_end_matches(s, ".mjs"@) + ".tsx"@
}

pub fn page_source_rel_of(mjs_rel: &str) -> (r: String)
    ensures
        r@ == page_source_rel(mjs_rel@),
{
    let cs = chars_of(mjs_rel);
    let s = if str_starts_with(mjs_rel, "_server/") {
        proof {
            reveal_strlit("_server/");
        }
        let t = crate::text::slice_chars(&cs, 8, cs.len());
        assert(t@ =~= mjs_rel@.skip(8));
        t
    } else {
        cs
    };
    let t = crate::text::vec_trim_end_matches(&s, &chars_of(".mjs"));
    let mut out = string_of(&t);
    push_str(&mut out, ".tsx");
    out
}

} // verus!
