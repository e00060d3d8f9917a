//! The routes manifest (`routes.json`): its entries as the build writes
//! them, and the dev server's route table as it reads it back.

use vstd::prelude::*;
use crate::dev::{header_pairs, manifest_file};
use crate::json::{
    JsonView, json_as_array, json_as_object, json_as_str, json_content, json_get, json_text_value,
    lemma_obj_index, member, obj_index, parse_json_text, text_member, text_member_of,
};
use crate::pipeline::ApiRoute;
use crate::site::PageRoute;
use crate::text::{owned, str_eq, views};

verus! {

/// A page entry of the manifest.
pub struct RouteEntry {
    pub path: String,
    pub file: String,
    pub mjs: String,
    /// `server` for a page with a `data()` loader, `static` otherwise.
    pub mode: String,
    pub css: Vec<String>,
    /// The hydration islands: component name and module path.
    pub client_modules: Vec<(String, String)>,
}

/// The compiled middleware module, relative to the output directory.
pub const MIDDLEWARE_MODULE: &'static str = "_server/middleware.mjs";

pub open spec fn mode_of(has_data: bool) -> Seq<char> {
    if has_data { "server"@ } else { "static"@ }
}

pub open spec fn modules_of(roots: Seq<(String, String, bool)>) -> Seq<(Seq<char>, Seq<char>)> {
    roots.map_values(|r: (String, String, bool)| (r.0@, r.1@))
}

/// The manifest entry of a built page: its route, HTML file, module,
/// mode, stylesheets and islands (name and module path).
pub fn route_entry(page: &PageRoute) -> (r: RouteEntry)
    ensures
        r.path@ == page.route@,
        r.file@ == page.html_file@,
        r.mjs@ == page.mjs_rel@,
        r.mode@ == mode_of(page.has_data),
        views(r.css@) == views(page.css_files@),
        header_pairs(r.client_modules@) == modules_of(page.page_roots@),
{
    let mut css: Vec<String> = Vec::new();
    for i in 0..page.css_files.len()
        invariant
            views(css@) == views(page.css_files@.take(i as int)),
    {
        let ghost before = css@;
        let c = owned(page.css_files[i].as_str());
        css.push(c);
        assert(css@ =~= before.push(c));
        assert(page.css_files@.take(i + 1) =~= page.css_files@.take(i as int).push(page.css_files@[i as int]));
        assert(views(page.css_files@.take(i + 1)) =~= views(page.css_files@.take(i as int)).push(page.css_files@[i as int]@));
        assert(views(css@) =~= views(before).push(c@));
        assert(views(css@) =~= views(page.css_files@.take(i + 1)));
    }
    assert(page.css_files@.take(page.css_files@.len() as int) =~= page.css_files@);
    let mut modules: Vec<(String, String)> = Vec::new();
    for i in 0..page.page_roots.len()
        invariant
            header_pairs(modules@) == modules_of(page.page_roots@.take(i as int)),
    {
        let ghost before = modules@;
        let m = (owned(page.page_roots[i].0.as_str()), owned(page.page_roots[i].1.as_str()));
        modules.push(m);
        assert(modules@ =~= before.push(m));
        assert(page.page_roots@.take(i + 1) =~= page.page_roots@.take(i as int).push(page.page_roots@[i as int]));
        assert(modules_of(page.page_roots@.take(i + 1)) =~= modules_of(page.page_roots@.take(i as int)).push(
            (page.page_roots@[i as int].0@, page.page_roots@[i as int].1@)));
        assert(header_pairs(modules@) =~= header_pairs(before).push((m.0@, m.1@)));
        assert(header_pairs(modules@) =~= modules_of(page.page_roots@.take(i + 1)));
    }
    assert(page.page_roots@.take(page.page_roots@.len() as int) =~= page.page_roots@);
    RouteEntry {
        path: owned(page.route.as_str()),
        file: owned(page.html_file.as_str()),
        mjs: owned(page.mjs_rel.as_str()),
        mode: if page.has_data { owned("server") } else { owned("static") },
        css,
        client_modules: modules,
    }
}

/// The manifest's middleware entry: the compiled module when the project
/// has a middleware.
pub fn middleware_entry(has_middleware: bool) -> (r: Option<String>)
    ensures
        r.is_some() == has_middleware,
        r.is_some() ==> r.unwrap()@ == MIDDLEWARE_MODULE@,
{
    if has_middleware { Some(owned(MIDDLEWARE_MODULE)) } else { None }
}

/// The file of the last pair for `path`.
pub open spec fn last_file(pairs: Seq<(Seq<char>, Seq<char>)>, path: Seq<char>) -> Option<Seq<char>>
    decreases pairs.len(),
{
    if pairs.len() == 0 {
        None
    } else if pairs.last().0 == path {
        Some(pairs.last().1)
    } else {
        last_file(pairs.drop_last(), path)
    }
}

proof fn lemma_last_file_front(x: (Seq<char>, Seq<char>), s: Seq<(Seq<char>, Seq<char>)>, path: Seq<char>)
    ensures
        last_file(seq![x] + s, path) == match last_file(s, path) {
            Some(f) => Some(f),
            None => if x.0 == path { Some(x.1) } else { None },
        },
    decreases s.len(),
{
    if s.len() > 0 {
        assert((seq![x] + s).drop_last() =~= seq![x] + s.drop_last());
        assert((seq![x] + s).last() == s.last());
        lemma_last_file_front(x, s.drop_last(), path);
    } else {
        assert((seq![x] + s).drop_last() =~= Seq::<(Seq<char>, Seq<char>)>::empty());
        assert((seq![x] + s).last() == x);
        assert(last_file(Seq::<(Seq<char>, Seq<char>)>::empty(), path).is_none());
    }
}

proof fn lemma_manifest_push(t: Seq<(Seq<char>, Seq<char>)>, x: (Seq<char>, Seq<char>), path: Seq<char>)
    ensures
        manifest_file(t.push(x), path) == match manifest_file(t, path) {
            Some(f) => Some(f),
            None => if x.0 == path { Some(x.1) } else { None },
        },
{
    assert(t.push(x).drop_last() =~= t);
}

fn table_has(t: &Vec<(String, String)>, path: &str) -> (r: bool)
    ensures
        r == manifest_file(header_pairs(t@), path@).is_some(),
{
    let ghost tp = header_pairs(t@);
    let mut i: usize = 0;
    assert(tp.take(0) =~= Seq::<(Seq<char>, Seq<char>)>::empty());
    while i < t.len()
        invariant
            i <= t@.len(),
            tp == header_pairs(t@),
            manifest_file(tp.take(i as int), path@).is_none(),
        decreases t.len() - i,
    {
        assert(tp.take(i + 1).drop_last() =~= tp.take(i as int));
        if str_eq(t[i].0.as_str(), path) {
            proof { lemma_prefix_found(tp, path@, i + 1); }
            return true;
        }
        i += 1;
    }
    assert(tp.take(tp.len() as int) =~= tp);
    false
}

proof fn lemma_prefix_found(tp: Seq<(Seq<char>, Seq<char>)>, path: Seq<char>, k: int)
    requires
        0 <= k <= tp.len(),
        manifest_file(tp.take(k), path).is_some(),
    ensures
        manifest_file(tp, path).is_some(),
    decreases tp.len() - k,
{
    if k < tp.len() {
        assert(tp.take(k + 1).drop_last() =~= tp.take(k));
        lemma_prefix_found(tp, path, k + 1);
    } else {
        assert(tp.take(k) =~= tp);
    }
}

/// The dev server's route table from the manifest: its page entries (path
/// and file) when it has a `routes` list, else its flat path-to-file
/// object, else (no readable manifest) `/` served by `index.html`. A path
/// listed more than once is served by its last file.
pub fn route_table(
    entries: Option<Vec<(String, String)>>,
    flat: Option<Vec<(String, String)>>,
) -> (r: Vec<(String, String)>)
    ensures
        forall|path: Seq<char>| #[trigger] manifest_file(header_pairs(r@), path) == match entries {
            Some(e) => last_file(header_pairs(e@), path),
            None => match flat {
                Some(f) => last_file(header_pairs(f@), path),
                None => if path == "/"@ { Some("index.html"@) } else { None },
            },
        },
{
    let pairs = match entries {
        Some(e) => e,
        None => match flat {
            Some(f) => f,
            None => {
                let t = vec![(owned("/"), owned("index.html"))];
                assert(header_pairs(t@) =~= seq![("/"@, "index.html"@)]);
                proof {
                    assert forall|path: Seq<char>| #[trigger] manifest_file(header_pairs(t@), path)
                        == (if path == "/"@ { Some("index.html"@) } else { None }) by {
                        assert(header_pairs(t@).drop_last() =~= Seq::<(Seq<char>, Seq<char>)>::empty());
                        assert(manifest_file(header_pairs(t@).drop_last(), path).is_none());
                    }
                }
                return t;
            },
        },
    };
    let ghost pp = header_pairs(pairs@);
    let mut t: Vec<(String, String)> = Vec::new();
    let mut i: usize = pairs.len();
    proof {
        assert forall|path: Seq<char>| #[trigger] manifest_file(header_pairs(t@), path)
            == last_file(pp.subrange(i as int, pp.len() as int), path) by {
            assert(pp.subrange(i as int, pp.len() as int) =~= Seq::<(Seq<char>, Seq<char>)>::empty());
            assert(header_pairs(t@) =~= Seq::<(Seq<char>, Seq<char>)>::empty());
        }
    }
    while i > 0
        invariant
            i <= pairs@.len(),
            pp == header_pairs(pairs@),
            forall|path: Seq<char>| #[trigger] manifest_file(header_pairs(t@), path)
                == last_file(pp.subrange(i as int, pp.len() as int), path),
        decreases i,
    {
        let ghost old_t = header_pairs(t@);
        let ghost x = pp[i - 1];
        let ghost rest = pp.subrange(i as int, pp.len() as int);
        assert(pp.subrange(i - 1, pp.len() as int) =~= seq![x] + rest);
        if !table_has(&t, pairs[i - 1].0.as_str()) {
            t.push((owned(pairs[i - 1].0.as_str()), owned(pairs[i - 1].1.as_str())));
            assert(header_pairs(t@) =~= old_t.push(x));
            proof {
                assert forall|path: Seq<char>| #[trigger] manifest_file(header_pairs(t@), path)
                    == last_file(seq![x] + rest, path) by {
                    lemma_manifest_push(old_t, x, path);
                    lemma_last_file_front(x, rest, path);
                }
            }
        } else {
            proof {
                assert forall|path: Seq<char>| #[trigger] manifest_file(header_pairs(t@), path)
                    == last_file(seq![x] + rest, path) by {
                    lemma_last_file_front(x, rest, path);
                    if path == x.0 {
                        assert(manifest_file(old_t, x.0).is_some());
                    }
                }
            }
        }
        i -= 1;
    }
    assert(pp.subrange(0, pp.len() as int) =~= pp);
    t
}


/// A page entry of a read manifest: its `path` and `file` texts.
pub open spec fn entry_pair(item: JsonView) -> Option<(Seq<char>, Seq<char>)> {
    match (text_member(item, "path"@), text_member(item, "file"@)) {
        (Some(p), Some(f)) => Some((p, f)),
        _ => None,
    }
}

/// The page entries of `items` that have both texts, in order.
pub open spec fn entry_pairs(items: Seq<JsonView>) -> Seq<(Seq<char>, Seq<char>)>
    decreases items.len(),
{
    if items.len() == 0 {
        seq![]
    } else {
        match entry_pair(items.last()) {
            Some(e) => entry_pairs(items.drop_last()).push(e),
            None => entry_pairs(items.drop_last()),
        }
    }
}

/// The `routes` list of a manifest, when it has one.
pub open spec fn routes_list(v: JsonView) -> Option<Seq<JsonView>> {
    match member(v, "routes"@) {
        Some(JsonView::Arr(items)) => Some(items),
        _ => None,
    }
}

/// The file served for `path` by a manifest read from `routes.json` (see
/// [`route_table`]): the last entry of its `routes` list for the path; a
/// manifest without one is a flat object from path to file; no readable
/// manifest serves `/` with `index.html`.
pub open spec fn served_file(manifest: Option<JsonView>, path: Seq<char>) -> Option<Seq<char>> {
    match manifest {
        Some(v) => match routes_list(v) {
            Some(items) => last_file(entry_pairs(items), path),
            None => match v {
                JsonView::Obj(_) => text_member(v, path),
                _ => if path == "/"@ { Some("index.html"@) } else { None },
            },
        },
        None => if path == "/"@ { Some("index.html"@) } else { None },
    }
}

fn entries_of(items: &Vec<serde_json::Value>, Ghost(s): Ghost<Seq<JsonView>>) -> (r: Vec<(String, String)>)
    requires
        items@.len() == s.len(),
        forall|k: int| 0 <= k < s.len() ==> json_content(#[trigger] items@[k]) == s[k],
    ensures
        header_pairs(r@) == entry_pairs(s),
{
    let mut out: Vec<(String, String)> = Vec::new();
    for i in 0..items.len()
        invariant
            items@.len() == s.len(),
            forall|k: int| 0 <= k < s.len() ==> json_content(#[trigger] items@[k]) == s[k],
            header_pairs(out@) == entry_pairs(s.take(i as int)),
    {
        assert(s.take(i + 1).drop_last() =~= s.take(i as int));
        assert(s.take(i + 1).last() == s[i as int]);
        assert(json_content(items@[i as int]) == s[i as int]);
        let ghost before = out@;
        match (text_member_of(&items[i], "path"), text_member_of(&items[i], "file")) {
            (Some(p), Some(f)) => {
                out.push((p, f));
                assert(header_pairs(out@) =~= header_pairs(before).push((out@.last().0@, out@.last().1@)));
            },
            _ => {},
        }
        assert(header_pairs(out@) =~= entry_pairs(s.take(i + 1)));
    }
    assert(s.take(s.len() as int) =~= s);
    out
}

/// The text members of an object's entries, as (key, text) pairs.
fn flat_of(es: &Vec<(String, serde_json::Value)>, Ghost(m): Ghost<Seq<(Seq<char>, JsonView)>>) -> (r: Vec<(String, String)>)
    requires
        es@.len() == m.len(),
        forall|a: int| 0 <= a < es@.len() ==> (#[trigger] es@[a]).0@ == m[a].0,
        forall|a: int| 0 <= a < es@.len() ==> json_content((#[trigger] es@[a]).1) == m[a].1,
        forall|i: int, j: int| 0 <= i < j < es@.len() ==> #[trigger] m[i].0 != #[trigger] m[j].0,
    ensures
        forall|path: Seq<char>| #[trigger] last_file(header_pairs(r@), path) == text_member(JsonView::Obj(m), path),
{
    let mut out: Vec<(String, String)> = Vec::new();
    for i in 0..es.len()
        invariant
            es@.len() == m.len(),
            forall|a: int| 0 <= a < es@.len() ==> (#[trigger] es@[a]).0@ == m[a].0,
            forall|a: int| 0 <= a < es@.len() ==> json_content((#[trigger] es@[a]).1) == m[a].1,
            forall|a: int, b: int| 0 <= a < b < es@.len() ==> #[trigger] m[a].0 != #[trigger] m[b].0,
            forall|path: Seq<char>| #[trigger]
                last_file(header_pairs(out@), path) == text_member(JsonView::Obj(m.take(i as int)), path),
    {
        let ghost before = out@;
        let ghost k = m[i as int].0;
        assert(es@[i as int].0@ == k);
        let ghost pre = m.take(i as int);
        let ghost post = m.take(i + 1);
        assert(post.drop_last() =~= pre);
        assert(post.last() == m[i as int]);
        proof {
            lemma_obj_index(pre, k);
            assert forall|j: int| 0 <= j < pre.len() implies pre[j].0 != k by {
                assert(pre[j] == m[j]);
            }
        }
        let sv = json_as_str(&es[i].1);
        match sv {
            Some(s) => {
                out.push((es[i].0.clone(), s));
                assert(header_pairs(out@).drop_last() =~= header_pairs(before));
                assert(header_pairs(out@).last() == (k, s@));
            },
            None => {},
        }
        assert forall|path: Seq<char>| #[trigger]
            last_file(header_pairs(out@), path) == text_member(JsonView::Obj(post), path) by {
            if path == k {
                assert(obj_index(post, path) == Some(i as int));
                assert(obj_index(pre, path) is None);
                assert(last_file(header_pairs(before), path) == text_member(JsonView::Obj(pre), path));
            } else {
                assert(obj_index(post, path) == obj_index(pre, path));
                lemma_obj_index(pre, path);
                if obj_index(pre, path) is Some {
                    let j = obj_index(pre, path)->0;
                    assert(post[j] == pre[j]);
                }
                assert(last_file(header_pairs(out@), path) == last_file(header_pairs(before), path));
            }
        }
    }
    assert(m.take(es@.len() as int) =~= m);
    out
}

/// The page route table of a `routes.json` text (see [`served_file`]).
pub fn manifest_routes(text: &str) -> (r: Vec<(String, String)>)
    ensures
        forall|path: Seq<char>| #[trigger] manifest_file(header_pairs(r@), path) == served_file(
            json_text_value(text@),
            path,
        ),
{
    let v = match parse_json_text(text) {
        Some(v) => v,
        None => {
            return route_table(None, None);
        },
    };
    let ghost jv = json_content(v);
    match json_get(&v, "routes") {
        Some(list) => match json_as_array(&list) {
            Some(items) => {
                let ghost s = routes_list(jv)->0;
                let entries = entries_of(&items, Ghost(s));
                return route_table(Some(entries), None);
            },
            None => {},
        },
        None => {},
    }
    assert(routes_list(jv) is None);
    match json_as_object(&v) {
        Some(es) => {
            let flat = flat_of(&es, Ghost(jv->Obj_0));
            route_table(None, Some(flat))
        },
        None => route_table(None, None),
    }
}


/// The texts among `items`, in order.
pub open spec fn texts_of(items: Seq<JsonView>) -> Seq<Seq<char>>
    decreases items.len(),
{
    if items.len() == 0 {
        seq![]
    } else {
        match items.last() {
            JsonView::Str(s) => texts_of(items.drop_last()).push(s),
            _ => texts_of(items.drop_last()),
        }
    }
}

/// The `methods` of an API entry: the texts of its list, none without one.
pub open spec fn methods_member(item: JsonView) -> Seq<Seq<char>> {
    methods_member_at(item, "methods"@)
}

/// The API entries of `items` that have a `path` and a `file` text, in
/// order, with their methods.
pub open spec fn api_entries(items: Seq<JsonView>) -> Seq<(Seq<char>, Seq<char>, Seq<Seq<char>>)>
    decreases items.len(),
{
    if items.len() == 0 {
        seq![]
    } else {
        match entry_pair(items.last()) {
            Some((p, f)) => api_entries(items.drop_last()).push((p, f, methods_member(items.last()))),
            None => api_entries(items.drop_last()),
        }
    }
}

/// The API routes of a manifest read from `routes.json`: the entries of
/// its `apiRoutes` list; none without one.
pub open spec fn manifest_api(manifest: Option<JsonView>) -> Seq<(Seq<char>, Seq<char>, Seq<Seq<char>>)> {
    match manifest {
        Some(v) => match member(v, "apiRoutes"@) {
            Some(JsonView::Arr(items)) => api_entries(items),
            _ => seq![],
        },
        None => seq![],
    }
}

pub open spec fn api_views(rs: Seq<ApiRoute>) -> Seq<(Seq<char>, Seq<char>, Seq<Seq<char>>)> {
    rs.map_values(|a: ApiRoute| (a.path@, a.file@, views(a.methods@)))
}

fn texts_in(v: &serde_json::Value, key: &str) -> (r: Vec<String>)
    ensures
        views(r@) == methods_member_at(json_content(*v), key@),
{
    let mut out: Vec<String> = Vec::new();
    let items = match json_get(v, key) {
        Some(x) => match json_as_array(&x) {
            Some(a) => a,
            None => {
                assert(views(out@) =~= Seq::<Seq<char>>::empty());
                return out;
            },
        },
        None => {
            assert(views(out@) =~= Seq::<Seq<char>>::empty());
            return out;
        },
    };
    let ghost s = member(json_content(*v), key@)->0->Arr_0;
    for i in 0..items.len()
        invariant
            items@.len() == s.len(),
            forall|k: int| 0 <= k < s.len() ==> json_content(#[trigger] items@[k]) == s[k],
            views(out@) == texts_of(s.take(i as int)),
    {
        assert(s.take(i + 1).drop_last() =~= s.take(i as int));
        assert(s.take(i + 1).last() == s[i as int]);
        assert(json_content(items@[i as int]) == s[i as int]);
        let ghost before = out@;
        match json_as_str(&items[i]) {
            Some(x) => {
                out.push(x);
                assert(views(out@) =~= views(before).push(out@.last()@));
            },
            None => {},
        }
        assert(views(out@) =~= texts_of(s.take(i + 1)));
    }
    assert(s.take(s.len() as int) =~= s);
    out
}

/// The texts of the list under `key` of an object.
pub open spec fn methods_member_at(item: JsonView, key: Seq<char>) -> Seq<Seq<char>> {
    match member(item, key) {
        Some(JsonView::Arr(items)) => texts_of(items),
        _ => seq![],
    }
}

/// The API route table of a `routes.json` text (see [`manifest_api`]).
pub fn manifest_api_routes(text: &str) -> (r: Vec<ApiRoute>)
    ensures
        api_views(r@) == manifest_api(json_text_value(text@)),
{
    let mut out: Vec<ApiRoute> = Vec::new();
    proof {
        assert(api_views(out@) =~= Seq::<(Seq<char>, Seq<char>, Seq<Seq<char>>)>::empty());
    }
    let v = match parse_json_text(text) {
        Some(v) => v,
        None => {
            return out;
        },
    };
    let items = match json_get(&v, "apiRoutes") {
        Some(x) => match json_as_array(&x) {
            Some(a) => a,
            None => {
                return out;
            },
        },
        None => {
            return out;
        },
    };
    let ghost s = member(json_content(v), "apiRoutes"@)->0->Arr_0;
    for i in 0..items.len()
        invariant
            items@.len() == s.len(),
            forall|k: int| 0 <= k < s.len() ==> json_content(#[trigger] items@[k]) == s[k],
            api_views(out@) == api_entries(s.take(i as int)),
    {
        assert(s.take(i + 1).drop_last() =~= s.take(i as int));
        assert(s.take(i + 1).last() == s[i as int]);
        assert(json_content(items@[i as int]) == s[i as int]);
        let ghost before = out@;
        match (text_member_of(&items[i], "path"), text_member_of(&items[i], "file")) {
            (Some(path), Some(file)) => {
                let methods = texts_in(&items[i], "methods");
                out.push(ApiRoute { path, file, methods });
                assert(api_views(out@) =~= api_views(before).push(
                    (out@.last().path@, out@.last().file@, views(out@.last().methods@)),
                ));
            },
            _ => {},
        }
        assert(api_views(out@) =~= api_entries(s.take(i + 1)));
    }
    assert(s.take(s.len() as int) =~= s);
    out
}

/// The middleware module a manifest names: the `file` text of its
/// `middleware` object.
pub open spec fn manifest_middleware_of(manifest: Option<JsonView>) -> Option<Seq<char>> {
    match manifest {
        Some(v) => match member(v, "middleware"@) {
            Some(x) => text_member(x, "file"@),
            None => None,
        },
        None => None,
    }
}

pub fn manifest_middleware(text: &str) -> (r: Option<String>)
    ensures
        match manifest_middleware_of(json_text_value(text@)) {
            Some(f) => r matches Some(x) && x@ == f,
            None => r is None,
        },
{
    let v = parse_json_text(text)?;
    let mw = json_get(&v, "middleware")?;
    text_member_of(&mw, "file")
}

} // verus!
