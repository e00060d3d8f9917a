//! Module-scope runtime pieces shared by server and API modules (the baked
//! environment helper and the session runtime), and the API route
//! generator.

use vstd::prelude::*;
use crate::ast::{ComponentFile, ImportInfo};
use crate::codegen::{mjs_specifier, to_mjs_specifier};
use crate::json::{json_quoted, json_string};
use crate::text::{
    chars_of, ends_with, join, owned, push_join, push_str, starts_with, str_eq, str_starts_with,
    slice_chars, string_of, trim, trim_end, vec_starts_with, vec_trim, vec_trim_end, views,
};

verus! {

broadcast use vstd::string::group_string_axioms;

/// The build-time environment snapshot: (key, value) pairs, the first pair
/// of a key wins.
pub type EnvMap = Vec<(String, String)>;

/// The value of `key` in the snapshot.
pub open spec fn env_lookup(env: Seq<(String, String)>, key: Seq<char>) -> Option<Seq<char>>
    decreases env.len(),
{
    if env.len() == 0 {
        None
    } else if env[0].0@ == key {
        Some(env[0].1@)
    } else {
        env_lookup(env.drop_first(), key)
    }
}

pub fn env_get(env: &EnvMap, key: &str) -> (r: Option<String>)
    ensures
        r is Some <==> env_lookup(env@, key@) is Some,
        r matches Some(v) ==> env_lookup(env@, key@) == Some(v@),
{
    let mut i: usize = 0;
    assert(env@.skip(0) =~= env@);
    while i < env.len()
        invariant
            i <= env@.len(),
            env_lookup(env@, key@) == env_lookup(env@.skip(i as int), key@),
        decreases env.len() - i,
    {
        assert(env@.skip(i as int)[0] == env@[i as int]);
        if str_eq(env[i].0.as_str(), key) {
            return Some(env[i].1.clone());
        }
        assert(env@.skip(i as int).drop_first() =~= env@.skip(i + 1));
        i += 1;
    }
    None
}

/// The `"key": "value"` entries baked for `keys`: referenced keys present in
/// the snapshot, in reference order; absent keys bake nothing.
pub open spec fn env_entries(env: Seq<(String, String)>, keys: Seq<Seq<char>>) -> Seq<Seq<char>>
    decreases keys.len(),
{
    if keys.len() == 0 {
        seq![]
    } else {
        let prev = env_entries(env, keys.drop_last());
        match env_lookup(env, keys.last()) {
            Some(v) => prev.push(json_quoted(keys.last()) + ": "@ + json_quoted(v)),
            None => prev,
        }
    }
}

/// `const env = (key) => ({ ... })[key];` carrying only the referenced keys.
pub open spec fn env_helper(env: Seq<(String, String)>, keys: Seq<Seq<char>>) -> Seq<char> {
    "const env = (key) => ({ "@ + join(env_entries(env, keys), ", "@) + " })[key];\n"@
}

pub fn emit_env_helper(env: &EnvMap, referenced_keys: &Vec<String>) -> (r: String)
    ensures
        r@ == env_helper(env@, views(referenced_keys@)),
{
    let mut entries: Vec<String> = Vec::new();
    for i in 0..referenced_keys.len()
        invariant
            views(entries@) == env_entries(env@, views(referenced_keys@).take(i as int)),
    {
        assert(views(referenced_keys@).take(i + 1).drop_last() =~= views(referenced_keys@).take(
            i as int,
        ));
        assert(views(referenced_keys@).take(i + 1).last() == referenced_keys@[i as int]@);
        let k = &referenced_keys[i];
        if let Some(v) = env_get(env, k.as_str()) {
            let mut e = json_string(k.as_str());
            push_str(&mut e, ": ");
            let jv = json_string(v.as_str());
            push_str(&mut e, jv.as_str());
            let ghost before = entries@;
            entries.push(e);
            assert(views(entries@) =~= views(before).push(e@));
        }
    }
    assert(views(referenced_keys@).take(referenced_keys@.len() as int) =~= views(
        referenced_keys@,
    ));
    let mut out = String::new();
    push_str(&mut out, "const env = (key) => ({ ");
    push_join(&mut out, &entries, ", ");
    push_str(&mut out, " })[key];\n");
    assert(out@ =~= env_helper(env@, views(referenced_keys@)));
    out
}

/// The keys a module bakes: its literal `env('K')` keys, plus
/// `SESSION_SECRET` and `NODE_ENV` (each unless already referenced) when it
/// uses sessions.
pub open spec fn referenced_keys(keys: Seq<Seq<char>>, uses_session: bool) -> Seq<Seq<char>> {
    if uses_session {
        let k2 = if keys.contains("SESSION_SECRET"@) { keys } else { keys.push("SESSION_SECRET"@) };
        if k2.contains("NODE_ENV"@) { k2 } else { k2.push("NODE_ENV"@) }
    } else {
        keys
    }
}

fn contains_key(keys: &Vec<String>, key: &str) -> (r: bool)
    ensures
        r == views(keys@).contains(key@),
{
    for i in 0..keys.len()
        invariant
            forall|k: int| 0 <= k < i ==> keys@[k]@ != key@,
    {
        if str_eq(keys[i].as_str(), key) {
            assert(views(keys@)[i as int] == key@);
            return true;
        }
    }
    assert(!views(keys@).contains(key@)) by {
        if views(keys@).contains(key@) {
            let k = choose|k: int| 0 <= k < views(keys@).len() && views(keys@)[k] == key@;
            assert(keys@[k]@ == key@);
        }
    }
    false
}

pub fn referenced_env_keys(component: &ComponentFile) -> (r: Vec<String>)
    ensures
        views(r@) == referenced_keys(views(component.env_call_keys@), component.has_session_call),
{
    let mut keys = component.env_call_keys.clone();
    assert(keys@ == component.env_call_keys@);
    if component.has_session_call {
        if !contains_key(&keys, "SESSION_SECRET") {
            let ghost before = keys@;
            keys.push(owned("SESSION_SECRET"));
            assert(views(keys@) =~= views(before).push("SESSION_SECRET"@));
        }
        if !contains_key(&keys, "NODE_ENV") {
            let ghost before = keys@;
            keys.push(owned("NODE_ENV"));
            assert(views(keys@) =~= views(before).push("NODE_ENV"@));
        }
    }
    keys
}

/// The session runtime emitted into every server/api module that calls
/// `session()`/`setSession()`: HMAC-signed cookie, request context in an
/// `AsyncLocalStorage`, every failure mode answering `null`.
pub const SESSION_RUNTIME: &'static str = "import { createHmac, timingSafeEqual } from 'node:crypto';
import { AsyncLocalStorage } from 'node:async_hooks';

const __sessionAls = new AsyncLocalStorage();
const __sessionCookie = 'marisjs_session';
const __sessionSecure = (env('NODE_ENV') || '') === 'production';

const __sessionSign = (payload) => createHmac('sha256', env('SESSION_SECRET')).update(payload).digest('hex');

const __sessionExtract = (header) => {
  for (const part of header.split(';')) {
    const eq = part.indexOf('=');
    if (eq <= 0) continue;
    if (part.slice(0, eq).trim() === __sessionCookie) {
      return part.slice(eq + 1).trim();
    }
  }
  return null;
};

const session = () => {
  const secret = env('SESSION_SECRET');
  if (!secret) return null;
  const req = __sessionAls.getStore();
  if (!req) return null;
  const header = req.headers && req.headers.get('cookie');
  if (!header) return null;
  const raw = __sessionExtract(header);
  if (!raw) return null;
  const dot = raw.lastIndexOf('.');
  if (dot <= 0 || dot === raw.length - 1) return null;
  const payload = raw.slice(0, dot);
  const expected = __sessionSign(payload);
  const given = Buffer.from(raw.slice(dot + 1), 'hex');
  const want = Buffer.from(expected, 'hex');
  if (given.length !== want.length || !timingSafeEqual(given, want)) return null;
  try {
    const decoded = JSON.parse(Buffer.from(payload, 'base64url').toString('utf8'));
    return decoded && typeof decoded === 'object' && !Array.isArray(decoded) ? decoded : null;
  } catch {
    return null;
  }
};

const setSession = (data, response) => {
  const secret = env('SESSION_SECRET');
  if (!secret || !response) return response;
  const payload = Buffer.from(JSON.stringify(data), 'utf8').toString('base64url');
  const cookie = __sessionCookie + '=' + payload + '.' + __sessionSign(payload) + '; Path=/; HttpOnly; SameSite=Lax' + (__sessionSecure ? '; Secure' : '');
  response.headers.append('Set-Cookie', cookie);
  return response;
};
";

pub fn emit_session_block() -> (r: String)
    ensures
        r@ == SESSION_RUNTIME@,
{
    owned(SESSION_RUNTIME)
}

/// `export [async] function NAME(` … becomes a private `__raw_NAME` plus an
/// exported wrapper that runs it inside the session request context;
/// anything else is returned unchanged.
pub open spec fn session_wrapped(name: Seq<char>, source: Seq<char>) -> Seq<char> {
    let p_async = "export async function "@ + name + "("@;
    let p_sync = "export function "@ + name + "("@;
    if starts_with(source, p_async) {
        session_wrapper("async function"@, name, source.skip(p_async.len() as int))
    } else if starts_with(source, p_sync) {
        session_wrapper("function"@, name, source.skip(p_sync.len() as int))
    } else {
        source
    }
}

pub open spec fn session_wrapper(raw_decl: Seq<char>, name: Seq<char>, rest: Seq<char>) -> Seq<
    char,
> {
    raw_decl + " __raw_"@ + name + "("@ + rest + "\n\nexport function "@ + name
        + "(...args) {\n  return __sessionAls.run(args[0], () => __raw_"@ + name
        + "(...args));\n}\n"@
}

fn build_session_wrapper(raw_decl: &str, name: &str, rest: &Vec<char>) -> (r: String)
    ensures
        r@ == session_wrapper(raw_decl@, name@, rest@),
{
    let mut out = String::new();
    push_str(&mut out, raw_decl);
    push_str(&mut out, " __raw_");
    push_str(&mut out, name);
    push_str(&mut out, "(");
    let r = string_of(rest);
    push_str(&mut out, r.as_str());
    push_str(&mut out, "\n\nexport function ");
    push_str(&mut out, name);
    push_str(&mut out, "(...args) {\n  return __sessionAls.run(args[0], () => __raw_");
    push_str(&mut out, name);
    push_str(&mut out, "(...args));\n}\n");
    assert(out@ =~= session_wrapper(raw_decl@, name@, rest@));
    out
}

pub fn wrap_handler_with_session_context(name: &str, source: &str) -> (r: String)
    ensures
        r@ == session_wrapped(name@, source@),
{
    let src = chars_of(source);
    let mut p_async = String::new();
    push_str(&mut p_async, "export async function ");
    push_str(&mut p_async, name);
    push_str(&mut p_async, "(");
    let pa = chars_of(p_async.as_str());
    if vec_starts_with(&src, &pa) {
        let rest = slice_chars(&src, pa.len(), src.len());
        assert(rest@ =~= source@.skip(pa@.len() as int));
        return build_session_wrapper("async function", name, &rest);
    }
    let mut p_sync = String::new();
    push_str(&mut p_sync, "export function ");
    push_str(&mut p_sync, name);
    push_str(&mut p_sync, "(");
    let ps = chars_of(p_sync.as_str());
    if vec_starts_with(&src, &ps) {
        let rest = slice_chars(&src, ps.len(), src.len());
        assert(rest@ =~= source@.skip(ps@.len() as int));
        return build_session_wrapper("function", name, &rest);
    }
    owned(source)
}

/// The specifier an API module imports: relative specifiers point at the
/// compiled `.mjs` sibling, bare ones pass through.
pub open spec fn api_specifier(source: Seq<char>) -> Seq<char> {
    if starts_with(source, "./"@) || starts_with(source, "../"@) {
        mjs_specifier(source)
    } else {
        source
    }
}

pub open spec fn api_import_line(imp: ImportInfo) -> Seq<char> {
    "import { "@ + join(views(imp.imported_names@), ", "@) + " } from '"@ + api_specifier(
        imp.source@,
    ) + "';\n"@
}

/// Import lines of the non-CSS imports, in order.
pub open spec fn api_imports(imports: Seq<ImportInfo>) -> Seq<char>
    decreases imports.len(),
{
    if imports.len() == 0 {
        seq![]
    } else if imports.last().is_css {
        api_imports(imports.drop_last())
    } else {
        api_imports(imports.drop_last()) + api_import_line(imports.last())
    }
}

/// Each statement followed by a newline.
pub open spec fn statements_text(stmts: Seq<Seq<char>>) -> Seq<char>
    decreases stmts.len(),
{
    if stmts.len() == 0 {
        seq![]
    } else {
        statements_text(stmts.drop_last()) + stmts.last() + "\n"@
    }
}

/// One emitted handler: verbatim (or session-wrapped), a newline unless it
/// already ends in `}`, then a blank line.
pub open spec fn handler_text(name: Seq<char>, source: Seq<char>, uses_session: bool) -> Seq<char> {
    let emitted = if uses_session { session_wrapped(name, source) } else { source };
    emitted + (if ends_with(trim_end(emitted), "}"@) { Seq::<char>::empty() } else { "\n"@ }) + "\n"@
}

pub open spec fn handlers_text(fns: Seq<(String, String)>, uses_session: bool) -> Seq<char>
    decreases fns.len(),
{
    if fns.len() == 0 {
        seq![]
    } else {
        handlers_text(fns.drop_last(), uses_session) + handler_text(
            fns.last().0@,
            fns.last().1@,
            uses_session,
        )
    }
}

/// The text of a generated API module.
pub open spec fn api_module(c: ComponentFile, env: Seq<(String, String)>) -> Seq<char> {
    api_imports(c.imports@) + (if c.imports@.len() > 0 { "\n"@ } else { Seq::<char>::empty() }) + (if c.has_env_call
        || c.has_session_call {
        env_helper(env, referenced_keys(views(c.env_call_keys@), c.has_session_call)) + "\n"@
    } else {
        Seq::<char>::empty()
    }) + (if c.has_session_call { SESSION_RUNTIME@ + "\n"@ } else { Seq::<char>::empty() }) + statements_text(
        views(c.module_statements@),
    ) + handlers_text(c.exported_fn_sources@, c.has_session_call)
}

fn push_api_import_line(out: &mut String, imp: &ImportInfo)
    ensures
        final(out)@ == old(out)@ + api_import_line(*imp),
{
    push_str(out, "import { ");
    push_join(out, &imp.imported_names, ", ");
    push_str(out, " } from '");
    if str_starts_with(imp.source.as_str(), "./") || str_starts_with(imp.source.as_str(), "../") {
        let m = to_mjs_specifier(imp.source.as_str());
        push_str(out, m.as_str());
    } else {
        push_str(out, imp.source.as_str());
    }
    push_str(out, "';\n");
    assert(out@ =~= old(out)@ + api_import_line(*imp));
}

fn push_handler(out: &mut String, name: &str, source: &str, uses_session: bool)
    ensures
        final(out)@ == old(out)@ + handler_text(name@, source@, uses_session),
{
    let emitted = if uses_session {
        wrap_handler_with_session_context(name, source)
    } else {
        owned(source)
    };
    push_str(out, emitted.as_str());
    let t = vec_trim_end(&chars_of(emitted.as_str()));
    if t.len() > 0 && t[t.len() - 1] == '}' {
        assert(ends_with(t@, "}"@)) by {
            reveal_strlit("}");
            assert("}"@ =~= seq!['}']);
            assert(t@.subrange(t@.len() - 1, t@.len() as int) =~= seq!['}']);
        }
    } else {
        assert(!ends_with(t@, "}"@)) by {
            reveal_strlit("}");
            if t@.len() >= 1 {
                assert(t@.subrange(t@.len() - 1, t@.len() as int)[0] == t@.last());
            }
        }
        push_str(out, "\n");
    }
    push_str(out, "\n");
    assert(out@ =~= old(out)@ + handler_text(name@, source@, uses_session));
}

fn push_api_imports(output: &mut String, imports: &Vec<ImportInfo>)
    ensures
        final(output)@ == old(output)@ + api_imports(imports@),
{
    let ghost start = output@;
    for i in 0..imports.len()
        invariant
            output@ == start + api_imports(imports@.take(i as int)),
    {
        assert(imports@.take(i + 1).drop_last() =~= imports@.take(i as int));
        assert(imports@.take(i + 1).last() == imports@[i as int]);
        if !imports[i].is_css {
            push_api_import_line(output, &imports[i]);
        }
        assert(output@ =~= start + api_imports(imports@.take(i + 1)));
    }
    assert(imports@.take(imports@.len() as int) =~= imports@);
}

/// Appends each statement followed by a newline.
pub fn push_statements(output: &mut String, stmts: &Vec<String>)
    ensures
        final(output)@ == old(output)@ + statements_text(views(stmts@)),
{
    let ghost start = output@;
    for i in 0..stmts.len()
        invariant
            output@ == start + statements_text(views(stmts@).take(i as int)),
    {
        assert(views(stmts@).take(i + 1).drop_last() =~= views(stmts@).take(i as int));
        assert(views(stmts@).take(i + 1).last() == stmts@[i as int]@);
        push_str(output, stmts[i].as_str());
        push_str(output, "\n");
        assert(output@ =~= start + statements_text(views(stmts@).take(i + 1)));
    }
    assert(views(stmts@).take(stmts@.len() as int) =~= views(stmts@));
}

fn push_handlers(output: &mut String, fns: &Vec<(String, String)>, uses_session: bool)
    ensures
        final(output)@ == old(output)@ + handlers_text(fns@, uses_session),
{
    let ghost start = output@;
    for i in 0..fns.len()
        invariant
            output@ == start + handlers_text(fns@.take(i as int), uses_session),
    {
        assert(fns@.take(i + 1).drop_last() =~= fns@.take(i as int));
        assert(fns@.take(i + 1).last() == fns@[i as int]);
        push_handler(output, fns[i].0.as_str(), fns[i].1.as_str(), uses_session);
        assert(output@ =~= start + handlers_text(fns@.take(i + 1), uses_session));
    }
    assert(fns@.take(fns@.len() as int) =~= fns@);
}

/// The env helper (and a blank line) when the module reads env() or uses
/// sessions, then the session runtime (and a blank line) when it uses
/// sessions.
pub open spec fn module_runtime(c: ComponentFile, env: Seq<(String, String)>) -> Seq<char> {
    (if c.has_env_call || c.has_session_call {
        env_helper(env, referenced_keys(views(c.env_call_keys@), c.has_session_call)) + "\n"@
    } else {
        Seq::<char>::empty()
    }) + (if c.has_session_call { SESSION_RUNTIME@ + "\n"@ } else { Seq::<char>::empty() })
}

/// Appends the env helper (and its blank line) when the module reads env()
/// or uses sessions, then the session runtime when it uses sessions.
pub fn push_module_runtime(output: &mut String, component: &ComponentFile, env: &EnvMap)
    ensures
        final(output)@ == old(output)@ + module_runtime(*component, env@),
{
    let ghost start = output@;
    if component.has_env_call || component.has_session_call {
        let keys = referenced_env_keys(component);
        let helper = emit_env_helper(env, &keys);
        push_str(output, helper.as_str());
        push_str(output, "\n");
    }
    let ghost mid = output@;
    if component.has_session_call {
        push_str(output, SESSION_RUNTIME);
        push_str(output, "\n");
    }
    assert(output@ =~= start + (if component.has_env_call || component.has_session_call {
        env_helper(env@, referenced_keys(views(component.env_call_keys@), component.has_session_call))
            + "\n"@
    } else {
        Seq::<char>::empty()
    }) + (if component.has_session_call { SESSION_RUNTIME@ + "\n"@ } else { Seq::<char>::empty() }));
}

/// API route module: non-CSS imports, the env helper (only when the file
/// reads env() or uses sessions), the session runtime, every module-scope
/// statement, then every exported handler. A module with nothing but white
/// space in it is refused.
pub fn generate_api(component: &ComponentFile, env: &EnvMap) -> (r: Result<String, String>)
    ensures
        trim(api_module(*component, env@)).len() == 0 ==> (r matches Err(e)
            && e@ == "no handlers emitted"@),
        trim(api_module(*component, env@)).len() != 0 ==> (r matches Ok(s) && s@ == api_module(
            *component,
            env@,
        )),
{
    let mut output = String::new();
    push_api_imports(&mut output, &component.imports);
    if component.imports.len() > 0 {
        push_str(&mut output, "\n");
    }
    push_module_runtime(&mut output, component, env);
    push_statements(&mut output, &component.module_statements);
    push_handlers(&mut output, &component.exported_fn_sources, component.has_session_call);
    assert(output@ =~= api_module(*component, env@));
    let t = vec_trim(&chars_of(output.as_str()));
    if t.len() == 0 {
        return Err(owned("no handlers emitted"));
    }
    Ok(output)
}

/// Only referenced keys are baked: every entry of the env helper is the
/// JSON of a referenced key and of that key's value in the snapshot, so an
/// unreferenced variable never reaches a compiled module.
pub proof fn law_env_only_referenced(env: Seq<(String, String)>, keys: Seq<Seq<char>>, i: int)
    requires
        0 <= i < env_entries(env, keys).len(),
    ensures
        exists|j: int|
            0 <= j < keys.len() && #[trigger] env_lookup(env, keys[j]) is Some
                && env_entries(env, keys)[i] == json_quoted(keys[j]) + ": "@ + json_quoted(
                env_lookup(env, keys[j])->0,
            ),
    decreases keys.len(),
{
    let prev = env_entries(env, keys.drop_last());
    if i < prev.len() {
        law_env_only_referenced(env, keys.drop_last(), i);
        let j = choose|j: int|
            0 <= j < keys.drop_last().len() && #[trigger] env_lookup(env, keys.drop_last()[j]) is Some
                && prev[i] == json_quoted(keys.drop_last()[j]) + ": "@ + json_quoted(
                env_lookup(env, keys.drop_last()[j])->0,
            );
        assert(keys.drop_last()[j] == keys[j]);
        assert(env_lookup(env, keys[j]) is Some);
    } else {
        let j = keys.len() - 1;
        assert(keys.last() == keys[j]);
        assert(env_lookup(env, keys[j]) is Some);
    }
}

/// At most one entry per referenced key.
pub proof fn law_env_entry_count(env: Seq<(String, String)>, keys: Seq<Seq<char>>)
    ensures
        env_entries(env, keys).len() <= keys.len(),
    decreases keys.len(),
{
    if keys.len() > 0 {
        law_env_entry_count(env, keys.drop_last());
    }
}

} // verus!
