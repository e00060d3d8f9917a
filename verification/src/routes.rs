//! File-based routing of the build: page and API URLs from source paths,
//! output files from URLs, and the module paths pages import.

use vstd::prelude::*;
use crate::ast::ImportInfo;
use crate::codegen::imports_name;
use crate::paths::{
    join_segs, join_vec, normalized, normalized_of, parent_str, path_parent, path_with_extension,
    split, split_on, with_ext, with_ext_vec, with_extension,
};
use crate::text::{
    chars_of, ends_with, owned, push_repeat, push_str, repeat, starts_with, str_eq, str_starts_with,
    string_of, to_lowercase, trim_end_matches, unicode_to_lowercase, vec_ends_with,
    vec_trim_end_matches, views,
};

verus! {

broadcast use vstd::string::group_string_axioms;

/// `s` without its leading `c`s (`str::trim_start_matches` with a char).
pub open spec fn trim_start_char(s: Seq<char>, c: char) -> Seq<char>
    decreases s.len(),
{
    if s.len() > 0 && s[0] == c {
        trim_start_char(s.drop_first(), c)
    } else {
        s
    }
}

pub fn str_trim_start_char(s: &str, c: char) -> (r: String)
    ensures
        r@ == trim_start_char(s@, c),
{
    let cs = chars_of(s);
    let mut i: usize = 0;
    assert(cs@.skip(0) =~= cs@);
    while i < cs.len() && cs[i] == c
        invariant
            i <= cs@.len(),
            cs@ == s@,
            trim_start_char(s@, c) == trim_start_char(cs@.skip(i as int), c),
        decreases cs.len() - i,
    {
        assert(cs@.skip(i as int).drop_first() =~= cs@.skip(i + 1));
        i += 1;
    }
    let rest = crate::text::slice_chars(&cs, i, cs.len());
    assert(rest@ =~= cs@.skip(i as int));
    string_of(&rest)
}

/// The HTML file of a page route: `index.html` for `/`, otherwise the
/// route without its leading slashes plus `.html`.
pub open spec fn html_file_of(route: Seq<char>) -> Seq<char> {
    if route == "/"@ {
        "index.html"@
    } else {
        trim_start_char(route, '/') + ".html"@
    }
}

pub fn route_to_html_file(route: &str) -> (r: String)
    ensures
        r@ == html_file_of(route@),
{
    if str_eq(route, "/") {
        return owned("index.html");
    }
    let mut s = str_trim_start_char(route, '/');
    push_str(&mut s, ".html");
    s
}

/// The number of non-empty segments.
pub open spec fn nonempty_count(segs: Seq<Seq<char>>) -> nat
    decreases segs.len(),
{
    if segs.len() == 0 {
        0
    } else {
        nonempty_count(segs.drop_last()) + (if segs.last().len() > 0 {
            1nat
        } else {
            0nat
        })
    }
}

/// How many directories below the output root the page of `route` lives:
/// its non-empty path segments.
pub open spec fn route_depth(route: Seq<char>) -> nat {
    nonempty_count(split(trim_start_char(route, '/'), '/'))
}

/// `../` once per directory level of the page of `route`, so that
/// root-relative references resolve from the page's own location.
pub fn depth_prefix(route: &str) -> (r: String)
    ensures
        r@ == repeat("../"@, route_depth(route@)),
{
    let trimmed = str_trim_start_char(route, '/');
    let segs = split_on(trimmed.as_str(), '/');
    let mut n: usize = 0;
    for i in 0..segs.len()
        invariant
            n == nonempty_count(views(segs@).take(i as int)),
            n <= i,
    {
        assert(views(segs@).take(i + 1).drop_last() =~= views(segs@).take(i as int));
        assert(views(segs@).take(i + 1).last() == segs@[i as int]@);
        if chars_of(segs[i].as_str()).len() > 0 {
            n += 1;
        }
    }
    assert(views(segs@).take(segs@.len() as int) =~= views(segs@));
    let mut out = String::new();
    push_repeat(&mut out, "../", n);
    out
}

/// `s` without the first matching prefix among `long` and `short`.
pub open spec fn strip_either(s: Seq<char>, long: Seq<char>, short: Seq<char>) -> Seq<char> {
    if starts_with(s, long) {
        s.skip(long.len() as int)
    } else if starts_with(s, short) {
        s.skip(short.len() as int)
    } else {
        s
    }
}

fn str_strip_either(s: &str, long: &str, short: &str) -> (r: String)
    ensures
        r@ == strip_either(s@, long@, short@),
{
    let cs = chars_of(s);
    if str_starts_with(s, long) {
        let n = chars_of(long).len();
        let rest = crate::text::slice_chars(&cs, n, cs.len());
        assert(rest@ =~= s@.skip(long@.len() as int));
        string_of(&rest)
    } else if str_starts_with(s, short) {
        let n = chars_of(short).len();
        let rest = crate::text::slice_chars(&cs, n, cs.len());
        assert(rest@ =~= s@.skip(short@.len() as int));
        string_of(&rest)
    } else {
        owned(s)
    }
}

/// The route of an index file: `/` plus its directory, or `/` alone.
pub open spec fn index_route(path: Seq<char>, base: Seq<char>) -> Seq<char> {
    let parent = match parent_str(path) {
        Some(p) => p,
        None => Seq::<char>::empty(),
    };
    if parent.len() == 0 {
        base
    } else {
        base + parent
    }
}

/// The URL of a page file `pages/<path>.tsx`: lower-cased, an `index` file
/// standing for its directory.
pub open spec fn page_route(rel: Seq<char>) -> Seq<char> {
    let s = with_extension(rel, Seq::<char>::empty());
    let path = unicode_to_lowercase(strip_either(s, "pages/"@, "pages"@));
    if path.len() == 0 || path == "index"@ || ends_with(path, "/index"@) {
        index_route(path, "/"@)
    } else {
        "/"@ + path
    }
}

/// The URL of an API file `api/<path>.ts`: as written (case kept), an
/// `Index` file standing for its directory (`api/billing/Index.ts` is
/// `/api/billing`, `api/Index.ts` is `/api`).
pub open spec fn api_route(rel: Seq<char>) -> Seq<char> {
    let s = with_extension(rel, Seq::<char>::empty());
    let path = strip_either(s, "api/"@, "api"@);
    if path.len() == 0 || path == "Index"@ || ends_with(path, "/Index"@) {
        if index_route(path, Seq::<char>::empty()).len() == 0 {
            "/api"@
        } else {
            "/api/"@ + index_route(path, Seq::<char>::empty())
        }
    } else {
        "/api/"@ + path
    }
}

fn index_route_of(path: &str, base: &str) -> (r: String)
    ensures
        r@ == index_route(path@, base@),
{
    let parent = match path_parent(path) {
        Some(p) => p,
        None => String::new(),
    };
    let mut out = owned(base);
    if chars_of(parent.as_str()).len() > 0 {
        push_str(&mut out, parent.as_str());
    }
    out
}

fn is_index_path(path: &str, name: &str, tail: &str) -> (r: bool)
    ensures
        r == (path@.len() == 0 || path@ == name@ || ends_with(path@, tail@)),
{
    chars_of(path).len() == 0 || str_eq(path, name) || vec_ends_with(&chars_of(path), &chars_of(tail))
}

pub fn page_file_to_route(rel: &str) -> (r: String)
    ensures
        r@ == page_route(rel@),
{
    let s = path_with_extension(rel, "");
    proof {
        reveal_strlit("");
        assert(""@ =~= Seq::<char>::empty());
    }
    let stripped = str_strip_either(s.as_str(), "pages/", "pages");
    let path = to_lowercase(stripped.as_str());
    if is_index_path(path.as_str(), "index", "/index") {
        return index_route_of(path.as_str(), "/");
    }
    let mut out = owned("/");
    push_str(&mut out, path.as_str());
    out
}

pub fn api_file_to_route(rel: &str) -> (r: String)
    ensures
        r@ == api_route(rel@),
{
    let s = path_with_extension(rel, "");
    proof {
        reveal_strlit("");
        assert(""@ =~= Seq::<char>::empty());
    }
    let path = str_strip_either(s.as_str(), "api/", "api");
    if is_index_path(path.as_str(), "Index", "/Index") {
        let parent = index_route_of(path.as_str(), "");
        if chars_of(parent.as_str()).len() == 0 {
            return owned("/api");
        }
        let mut out = owned("/api/");
        push_str(&mut out, parent.as_str());
        return out;
    }
    let mut out = owned("/api/");
    push_str(&mut out, path.as_str());
    out
}

/// A relative import source without its `.tsx`/`.ts` extension.
pub open spec fn source_stem(source: Seq<char>) -> Seq<char> {
    trim_end_matches(trim_end_matches(source, ".tsx"@), ".ts"@)
}

pub fn source_stem_of(source: &str) -> (r: String)
    ensures
        r@ == source_stem(source@),
{
    let a = vec_trim_end_matches(&chars_of(source), &chars_of(".tsx"));
    let b = vec_trim_end_matches(&a, &chars_of(".ts"));
    string_of(&b)
}

/// The segments of a path's directory, `.` when it has none.
pub open spec fn dir_segs(p: Seq<char>) -> Seq<Seq<char>> {
    match parent_str(p) {
        Some(d) => split(d, '/'),
        None => split("."@, '/'),
    }
}

pub fn dir_segs_of(p: &str) -> (r: Vec<String>)
    ensures
        views(r@) == dir_segs(p@),
{
    match path_parent(p) {
        Some(d) => split_on(d.as_str(), '/'),
        None => split_on(".", '/'),
    }
}

/// The first import that brings in `name`.
pub open spec fn first_import_of(imports: Seq<ImportInfo>, name: Seq<char>) -> Option<int>
    decreases imports.len(),
{
    if imports.len() == 0 {
        None
    } else {
        match first_import_of(imports.drop_last(), name) {
            Some(i) => Some(i),
            None => if imports_name(imports.last(), name) {
                Some(imports.len() - 1)
            } else {
                None
            },
        }
    }
}

proof fn lemma_first_import_of(imports: Seq<ImportInfo>, name: Seq<char>, k: int)
    requires
        0 <= k <= imports.len(),
        forall|j: int| 0 <= j < k ==> !imports_name(#[trigger] imports[j], name),
    ensures
        first_import_of(imports.take(k), name) is None,
    decreases k,
{
    if k > 0 {
        assert(imports.take(k).drop_last() =~= imports.take(k - 1));
        lemma_first_import_of(imports, name, k - 1);
    }
}

proof fn lemma_first_import_prefix(imports: Seq<ImportInfo>, name: Seq<char>, k: int, j: int)
    requires
        0 <= k <= j <= imports.len(),
        first_import_of(imports.take(k), name) is Some,
    ensures
        first_import_of(imports.take(j), name) == first_import_of(imports.take(k), name),
    decreases j - k,
{
    if k < j {
        lemma_first_import_prefix(imports, name, k, j - 1);
        assert(imports.take(j).drop_last() =~= imports.take(j - 1));
    }
}

fn has_name(imp: &ImportInfo, name: &str) -> (r: bool)
    ensures
        r == imports_name(*imp, name@),
{
    crate::codegen::import_has_name(imp, name)
}

/// The module a page imports for the island `root_name`, relative to the
/// output root: the importing source's directory joined with the import's
/// compiled `.mjs` specifier, normalized.
pub open spec fn client_import_path(
    server_rel: Seq<char>,
    root_name: Seq<char>,
    imports: Seq<ImportInfo>,
) -> Result<Seq<char>, Seq<char>> {
    match first_import_of(imports, root_name) {
        None => Err("client root '"@ + root_name + "' referenced but no import found"@),
        Some(i) => Ok(
            normalized(
                join_segs(
                    dir_segs(with_extension(server_rel, "mjs"@)),
                    source_stem(imports[i].source@) + ".mjs"@,
                ),
            ),
        ),
    }
}

#[verifier::loop_isolation(false)]
pub fn resolve_client_import(server_rel: &str, root_name: &str, imports: &Vec<ImportInfo>) -> (r:
    Result<String, String>)
    ensures
        match client_import_path(server_rel@, root_name@, imports@) {
            Ok(p) => r matches Ok(s) && s@ == p,
            Err(e) => r matches Err(m) && m@ == e,
        },
{
    for i in 0..imports.len()
        invariant
            forall|j: int| 0 <= j < i ==> !imports_name(#[trigger] imports@[j], root_name@),
    {
        if has_name(&imports[i], root_name) {
            proof {
                lemma_first_import_of(imports@, root_name@, i as int);
                assert(imports@.take(i + 1).drop_last() =~= imports@.take(i as int));
                assert(imports@.take(i + 1).last() == imports@[i as int]);
                lemma_first_import_prefix(imports@, root_name@, i + 1, imports@.len() as int);
                assert(imports@.take(imports@.len() as int) =~= imports@);
            }
            let mut import_src = source_stem_of(imports[i].source.as_str());
            push_str(&mut import_src, ".mjs");
            let with_mjs = path_with_extension(server_rel, "mjs");
            let dir = dir_segs_of(with_mjs.as_str());
            let segs = join_vec(&dir, import_src.as_str());
            return Ok(normalized_of(&segs));
        }
    }
    proof {
        lemma_first_import_of(imports@, root_name@, imports@.len() as int);
        assert(imports@.take(imports@.len() as int) =~= imports@);
    }
    let mut m = owned("client root '");
    push_str(&mut m, root_name);
    push_str(&mut m, "' referenced but no import found");
    Err(m)
}

/// The first non-CSS import that brings in `name`.
pub open spec fn first_code_import_of(imports: Seq<ImportInfo>, name: Seq<char>) -> Option<int>
    decreases imports.len(),
{
    if imports.len() == 0 {
        None
    } else {
        match first_code_import_of(imports.drop_last(), name) {
            Some(i) => Some(i),
            None => if !imports.last().is_css && imports_name(imports.last(), name) {
                Some(imports.len() - 1)
            } else {
                None
            },
        }
    }
}

/// The source file of the component `tag` imported by the component at
/// `current_rel`: the import's path (extension replaced by `.tsx`) read
/// from the importer's directory, normalized.
pub open spec fn component_source_path(
    tag: Seq<char>,
    imports: Seq<ImportInfo>,
    current_rel: Seq<char>,
) -> Option<Seq<char>> {
    match first_code_import_of(imports, tag) {
        None => None,
        Some(i) => Some(
            normalized(
                with_ext(join_segs(dir_segs(current_rel), source_stem(imports[i].source@)), "tsx"@),
            ),
        ),
    }
}

#[verifier::loop_isolation(false)]
pub fn resolve_component_import_path(tag: &str, imports: &Vec<ImportInfo>, current_rel: &str) -> (r:
    Option<String>)
    ensures
        match component_source_path(tag@, imports@, current_rel@) {
            Some(p) => r matches Some(s) && s@ == p,
            None => r is None,
        },
{
    for i in 0..imports.len()
        invariant
            first_code_import_of(imports@.take(i as int), tag@) is None,
    {
        assert(imports@.take(i + 1).drop_last() =~= imports@.take(i as int));
        assert(imports@.take(i + 1).last() == imports@[i as int]);
        if !imports[i].is_css && has_name(&imports[i], tag) {
            proof {
                lemma_first_code_import_prefix(imports@, tag@, i + 1, imports@.len() as int);
                assert(imports@.take(imports@.len() as int) =~= imports@);
            }
            let stem = source_stem_of(imports[i].source.as_str());
            let dir = dir_segs_of(current_rel);
            let joined = join_vec(&dir, stem.as_str());
            let with_tsx = with_ext_vec(&joined, "tsx");
            return Some(normalized_of(&with_tsx));
        }
    }
    assert(imports@.take(imports@.len() as int) =~= imports@);
    None
}

proof fn lemma_first_code_import_prefix(imports: Seq<ImportInfo>, name: Seq<char>, k: int, j: int)
    requires
        0 <= k <= j <= imports.len(),
        first_code_import_of(imports.take(k), name) is Some,
    ensures
        first_code_import_of(imports.take(j), name) == first_code_import_of(imports.take(k), name),
    decreases j - k,
{
    if k < j {
        lemma_first_code_import_prefix(imports, name, k, j - 1);
        assert(imports.take(j).drop_last() =~= imports.take(j - 1));
    }
}

/// Every API route lives under `/api`.
pub proof fn law_api_route_prefix(rel: Seq<char>)
    ensures
        starts_with(api_route(rel), "/api"@),
{
    reveal_strlit("/api");
    reveal_strlit("/api/");
    let r = api_route(rel);
    assert(r.subrange(0, 4) =~= "/api"@);
}

/// Every page route is absolute.
pub proof fn law_page_route_prefix(rel: Seq<char>)
    ensures
        starts_with(page_route(rel), "/"@),
{
    reveal_strlit("/");
    let r = page_route(rel);
    assert(r.subrange(0, 1) =~= "/"@);
}

/// Every page's file is an `.html` file.
pub proof fn law_html_file_suffix(route: Seq<char>)
    ensures
        ends_with(html_file_of(route), ".html"@),
{
    reveal_strlit(".html");
    reveal_strlit("index.html");
    let f = html_file_of(route);
    assert(f.subrange(f.len() - 5, f.len() as int) =~= ".html"@);
}

} // verus!
