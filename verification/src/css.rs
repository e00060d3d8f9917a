//! The stylesheets of a page: the CSS imported anywhere in its transitive
//! component tree, in first-seen order, with where each was imported and
//! which component rendered which.

use vstd::prelude::*;
use crate::ast::{ImportInfo, JsxNode};
use crate::paths::{components, join_segs, join_vec, normalized, normalized_of, path_eq};
use crate::routes::{component_source_path, dir_segs, resolve_component_import_path};
use crate::text::{str_eq, views};
use crate::tree::{collect_child_component_tags, tags_acc};

verus! {

/// What the build keeps of a compiled component: its render tree, its
/// imports, its CSS imports.
pub struct ComponentMeta {
    pub render_tree: Option<JsxNode>,
    pub imports: Vec<ImportInfo>,
    pub css_imports: Vec<String>,
}

/// The CSS closure of a page: the stylesheets in link order, the component
/// that first imported each, every component reached, and the component
/// that rendered each one (last renderer wins).
pub struct PageCssClosure {
    pub css_files: Vec<String>,
    pub sites: Vec<(String, String)>,
    pub components: Vec<String>,
    pub parents: Vec<(String, String)>,
}

impl PageCssClosure {
    pub fn new() -> (r: PageCssClosure)
        ensures
            r.css_files@.len() == 0,
            r.sites@.len() == 0,
            r.components@.len() == 0,
            r.parents@.len() == 0,
    {
        PageCssClosure {
            css_files: Vec::new(),
            sites: Vec::new(),
            components: Vec::new(),
            parents: Vec::new(),
        }
    }
}

/// A closure and the visited set as values: stylesheets, sites,
/// components, parents, visited paths.
pub type CssState = (
    Seq<Seq<char>>,
    Seq<(Seq<char>, Seq<char>)>,
    Seq<Seq<char>>,
    Seq<(Seq<char>, Seq<char>)>,
    Seq<Seq<char>>,
);

pub open spec fn pairs_of(v: Seq<(String, String)>) -> Seq<(Seq<char>, Seq<char>)> {
    v.map_values(|p: (String, String)| (p.0@, p.1@))
}

pub open spec fn css_state(c: PageCssClosure, seen: Seq<String>) -> CssState {
    (views(c.css_files@), pairs_of(c.sites@), views(c.components@), pairs_of(c.parents@), views(seen))
}

/// The first entry of `meta` whose path equals `p`.
pub open spec fn meta_index(meta: Seq<(String, ComponentMeta)>, p: Seq<char>) -> Option<int>
    decreases meta.len(),
{
    if meta.len() == 0 {
        None
    } else {
        match meta_index(meta.drop_last(), p) {
            Some(i) => Some(i),
            None => if components(meta.last().0@) == components(p) {
                Some(meta.len() - 1)
            } else {
                None
            },
        }
    }
}

/// Some path of `set` equals `p`.
pub open spec fn holds_path(set: Seq<Seq<char>>, p: Seq<char>) -> bool {
    exists|i: int| 0 <= i < set.len() && components(set[i]) == components(p)
}

/// The first key of `ps` equal to `p`.
pub open spec fn key_index(ps: Seq<(Seq<char>, Seq<char>)>, p: Seq<char>) -> Option<int>
    decreases ps.len(),
{
    if ps.len() == 0 {
        None
    } else {
        match key_index(ps.drop_last(), p) {
            Some(i) => Some(i),
            None => if components(ps.last().0) == components(p) {
                Some(ps.len() - 1)
            } else {
                None
            },
        }
    }
}

/// Map insertion keyed by path: an equal key keeps its place and takes the
/// new value; a new key goes last.
pub open spec fn insert_parent(
    ps: Seq<(Seq<char>, Seq<char>)>,
    child: Seq<char>,
    parent: Seq<char>,
) -> Seq<(Seq<char>, Seq<char>)> {
    match key_index(ps, child) {
        Some(i) => ps.update(i, (ps[i].0, parent)),
        None => ps.push((child, parent)),
    }
}

/// One CSS import of component `comp`, resolved against its directory: a
/// new site and a new stylesheet are recorded.
pub open spec fn css_step(st: CssState, comp: Seq<char>, css: Seq<char>) -> CssState {
    let path = normalized(join_segs(dir_segs(comp), css));
    let sites = if exists|i: int| 0 <= i < st.1.len() && st.1[i].0 == path {
        st.1
    } else {
        st.1.push((path, comp))
    };
    let files = if st.0.contains(path) {
        st.0
    } else {
        st.0.push(path)
    };
    (files, sites, st.2, st.3, st.4)
}

pub open spec fn css_fold(st: CssState, comp: Seq<char>, css: Seq<Seq<char>>) -> CssState
    decreases css.len(),
{
    if css.len() == 0 {
        st
    } else {
        css_step(css_fold(st, comp, css.drop_last()), comp, css.last())
    }
}

/// Visits component `comp` (at most `fuel` levels deep): a path already
/// visited adds nothing; otherwise it is recorded, its CSS imports are
/// added, and each child component it renders (resolved through its
/// imports) is recorded with `comp` as parent and visited in turn.
pub open spec fn visit(
    meta: Seq<(String, ComponentMeta)>,
    comp: Seq<char>,
    st: CssState,
    fuel: nat,
) -> CssState
    decreases fuel, 0nat, 0nat,
{
    if fuel == 0 || holds_path(st.4, comp) {
        st
    } else {
        let st1 = (st.0, st.1, st.2.push(comp), st.3, st.4.push(comp));
        match meta_index(meta, comp) {
            None => st1,
            Some(i) => {
                let m = meta[i].1;
                let st2 = css_fold(st1, comp, views(m.css_imports@));
                match m.render_tree {
                    None => st2,
                    Some(tree) => visit_tags(
                        meta,
                        comp,
                        m.imports@,
                        tags_acc(tree, seq![]),
                        st2,
                        (fuel - 1) as nat,
                    ),
                }
            },
        }
    }
}

pub open spec fn visit_tags(
    meta: Seq<(String, ComponentMeta)>,
    comp: Seq<char>,
    imports: Seq<ImportInfo>,
    tags: Seq<Seq<char>>,
    st: CssState,
    fuel: nat,
) -> CssState
    decreases fuel, 1nat, tags.len(),
{
    if tags.len() == 0 {
        st
    } else {
        let st1 = visit_tags(meta, comp, imports, tags.drop_last(), st, fuel);
        match component_source_path(tags.last(), imports, comp) {
            None => st1,
            Some(child) => visit(
                meta,
                child,
                (st1.0, st1.1, st1.2, insert_parent(st1.3, child, comp), st1.4),
                fuel,
            ),
        }
    }
}

/// `a` is a prefix of `b`.
pub open spec fn is_prefix<T>(a: Seq<T>, b: Seq<T>) -> bool {
    a.len() <= b.len() && b.take(a.len() as int) == a
}

/// No element of `s` occurs twice.
pub open spec fn no_dups<T>(s: Seq<T>) -> bool {
    forall|i: int, j: int| 0 <= i < j < s.len() ==> #[trigger] s[i] != #[trigger] s[j]
}

/// Every element of `a` is in `b`.
pub open spec fn all_in<T>(a: Seq<T>, b: Seq<T>) -> bool {
    forall|i: int| 0 <= i < a.len() ==> b.contains(#[trigger] a[i])
}

/// How a walk step may change the state: stylesheets, sites and components
/// only grow at the end, the visited set grows by exactly the components
/// added, stylesheets stay free of repeats, and components stay free of
/// repeats while all of them are visited.
pub open spec fn grows(a: CssState, b: CssState) -> bool {
    &&& is_prefix(a.0, b.0)
    &&& is_prefix(a.1, b.1)
    &&& is_prefix(a.2, b.2)
    &&& b.4 == a.4 + b.2.skip(a.2.len() as int)
    &&& no_dups(a.0) ==> no_dups(b.0)
    &&& (no_dups(a.2) && all_in(a.2, a.4)) ==> (no_dups(b.2) && all_in(b.2, b.4))
}

proof fn lemma_grows_refl(a: CssState)
    ensures
        grows(a, a),
{
    assert(a.0.take(a.0.len() as int) =~= a.0);
    assert(a.1.take(a.1.len() as int) =~= a.1);
    assert(a.2.take(a.2.len() as int) =~= a.2);
    assert(a.4 + a.2.skip(a.2.len() as int) =~= a.4);
}

proof fn lemma_grows_trans(a: CssState, b: CssState, c: CssState)
    requires
        grows(a, b),
        grows(b, c),
    ensures
        grows(a, c),
{
    assert(c.0.take(a.0.len() as int) =~= c.0.take(b.0.len() as int).take(a.0.len() as int));
    assert(c.1.take(a.1.len() as int) =~= c.1.take(b.1.len() as int).take(a.1.len() as int));
    assert(c.2.take(a.2.len() as int) =~= c.2.take(b.2.len() as int).take(a.2.len() as int));
    assert(c.2.skip(a.2.len() as int) =~= b.2.skip(a.2.len() as int) + c.2.skip(b.2.len() as int)) by {
        assert(b.2 =~= c.2.take(b.2.len() as int));
    }
    assert(c.4 =~= a.4 + c.2.skip(a.2.len() as int));
}

proof fn lemma_css_step(st: CssState, comp: Seq<char>, css: Seq<char>)
    ensures
        grows(st, css_step(st, comp, css)),
{
    let r = css_step(st, comp, css);
    lemma_grows_refl(st);
    let path = normalized(join_segs(dir_segs(comp), css));
    if !st.0.contains(path) {
        assert(r.0.take(st.0.len() as int) =~= st.0);
        if no_dups(st.0) {
            assert forall|i: int, j: int| 0 <= i < j < r.0.len() implies #[trigger] r.0[i]
                != #[trigger] r.0[j] by {
                if j == st.0.len() {
                    assert(r.0[i] == st.0[i]);
                }
            }
        }
    }
    if !(exists|i: int| 0 <= i < st.1.len() && st.1[i].0 == path) {
        assert(r.1.take(st.1.len() as int) =~= st.1);
    }
}

proof fn lemma_css_fold(st: CssState, comp: Seq<char>, css: Seq<Seq<char>>)
    ensures
        grows(st, css_fold(st, comp, css)),
    decreases css.len(),
{
    if css.len() == 0 {
        lemma_grows_refl(st);
    } else {
        let m = css_fold(st, comp, css.drop_last());
        lemma_css_fold(st, comp, css.drop_last());
        lemma_css_step(m, comp, css.last());
        lemma_grows_trans(st, m, css_fold(st, comp, css));
    }
}

proof fn lemma_holds_contains(set: Seq<Seq<char>>, p: Seq<char>)
    requires
        set.contains(p),
    ensures
        holds_path(set, p),
{
    let i = choose|i: int| 0 <= i < set.len() && set[i] == p;
    assert(components(set[i]) == components(p));
}

proof fn lemma_visit_grows(meta: Seq<(String, ComponentMeta)>, comp: Seq<char>, st: CssState, fuel: nat)
    ensures
        grows(st, visit(meta, comp, st, fuel)),
        fuel > 0 && !holds_path(st.4, comp) ==> visit(meta, comp, st, fuel).2.len() > st.2.len()
            && visit(meta, comp, st, fuel).2[st.2.len() as int] == comp,
    decreases fuel, 0nat, 0nat,
{
    if fuel == 0 || holds_path(st.4, comp) {
        lemma_grows_refl(st);
    } else {
        let st1 = (st.0, st.1, st.2.push(comp), st.3, st.4.push(comp));
        lemma_grows_refl(st);
        assert(grows(st, st1)) by {
            assert(st1.2.take(st.2.len() as int) =~= st.2);
            assert(st1.2.skip(st.2.len() as int) =~= seq![comp]);
            assert(st1.4 =~= st.4 + st1.2.skip(st.2.len() as int));
            if no_dups(st.2) && all_in(st.2, st.4) {
                assert(!st.4.contains(comp)) by {
                    if st.4.contains(comp) {
                        lemma_holds_contains(st.4, comp);
                    }
                }
                assert forall|i: int, j: int| 0 <= i < j < st1.2.len() implies #[trigger] st1.2[i]
                    != #[trigger] st1.2[j] by {
                    if j == st.2.len() {
                        assert(st1.2[i] == st.2[i]);
                        assert(st.4.contains(st.2[i]));
                    }
                }
                assert forall|i: int| 0 <= i < st1.2.len() implies st1.4.contains(#[trigger] st1.2[i]) by {
                    if i < st.2.len() {
                        assert(st.4.contains(st.2[i]));
                        let k = choose|k: int| 0 <= k < st.4.len() && st.4[k] == st.2[i];
                        assert(st1.4[k] == st.4[k]);
                    } else {
                        assert(st1.4[st.4.len() as int] == comp);
                    }
                }
            }
        }
        let r = visit(meta, comp, st, fuel);
        match meta_index(meta, comp) {
            None => {},
            Some(i) => {
                let m = meta[i].1;
                let st2 = css_fold(st1, comp, views(m.css_imports@));
                lemma_css_fold(st1, comp, views(m.css_imports@));
                lemma_grows_trans(st, st1, st2);
                match m.render_tree {
                    None => {},
                    Some(tree) => {
                        lemma_visit_tags_grows(
                            meta,
                            comp,
                            m.imports@,
                            tags_acc(tree, seq![]),
                            st2,
                            (fuel - 1) as nat,
                        );
                        lemma_grows_trans(st, st2, r);
                        assert(r.2.take(st2.2.len() as int)[st.2.len() as int] == st2.2[st.2.len() as int]);
                    },
                }
                assert(st2.2.take(st1.2.len() as int)[st.2.len() as int] == st1.2[st.2.len() as int]);
            },
        }
        assert(r.2.take(st1.2.len() as int) == st1.2);
        assert(r.2.take(st1.2.len() as int)[st.2.len() as int] == r.2[st.2.len() as int]);
    }
}

proof fn lemma_visit_tags_grows(
    meta: Seq<(String, ComponentMeta)>,
    comp: Seq<char>,
    imports: Seq<ImportInfo>,
    tags: Seq<Seq<char>>,
    st: CssState,
    fuel: nat,
)
    ensures
        grows(st, visit_tags(meta, comp, imports, tags, st, fuel)),
    decreases fuel, 1nat, tags.len(),
{
    if tags.len() == 0 {
        lemma_grows_refl(st);
    } else {
        let st1 = visit_tags(meta, comp, imports, tags.drop_last(), st, fuel);
        lemma_visit_tags_grows(meta, comp, imports, tags.drop_last(), st, fuel);
        match component_source_path(tags.last(), imports, comp) {
            None => {},
            Some(child) => {
                let st2 = (st1.0, st1.1, st1.2, insert_parent(st1.3, child, comp), st1.4);
                lemma_grows_refl(st1);
                assert(grows(st1, st2));
                lemma_grows_trans(st, st1, st2);
                lemma_visit_grows(meta, child, st2, fuel);
                lemma_grows_trans(st, st2, visit(meta, child, st2, fuel));
            },
        }
    }
}

/// The CSS walk of a page component only adds: an already visited
/// component changes nothing; otherwise the stylesheets, sites and
/// components found before stay in front, the component is the first one
/// added, the visited set grows by exactly the components added, and
/// neither the stylesheets nor the components (all visited) ever repeat.
pub proof fn law_css_closure_grows(
    meta: Seq<(String, ComponentMeta)>,
    comp: Seq<char>,
    st: CssState,
    fuel: nat,
)
    requires
        fuel > 0,
    ensures
        holds_path(st.4, comp) ==> visit(meta, comp, st, fuel) == st,
        !holds_path(st.4, comp) ==> ({
            let r = visit(meta, comp, st, fuel);
            &&& is_prefix(st.0, r.0)
            &&& is_prefix(st.1, r.1)
            &&& is_prefix(st.2, r.2)
            &&& r.2.len() > st.2.len()
            &&& r.2[st.2.len() as int] == comp
            &&& r.4 == st.4 + r.2.skip(st.2.len() as int)
            &&& no_dups(st.0) ==> no_dups(r.0)
            &&& (no_dups(st.2) && all_in(st.2, st.4)) ==> (no_dups(r.2) && all_in(r.2, r.4))
        }),
{
    lemma_visit_grows(meta, comp, st, fuel);
}

fn holds_path_of(set: &Vec<String>, p: &str) -> (r: bool)
    ensures
        r == holds_path(views(set@), p@),
{
    for i in 0..set.len()
        invariant
            forall|k: int| 0 <= k < i ==> components(set@[k]@) != components(p@),
    {
        if path_eq(set[i].as_str(), p) {
            assert(views(set@)[i as int] == set@[i as int]@);
            return true;
        }
    }
    assert(!holds_path(views(set@), p@)) by {
        if holds_path(views(set@), p@) {
            let k = choose|k: int|
                0 <= k < views(set@).len() && components(views(set@)[k]) == components(p@);
            assert(views(set@)[k] == set@[k]@);
        }
    }
    false
}

fn meta_index_of(meta: &Vec<(String, ComponentMeta)>, p: &str) -> (r: Option<usize>)
    ensures
        r matches Some(i) ==> i < meta@.len() && meta_index(meta@, p@) == Some(i as int),
        r is None ==> meta_index(meta@, p@) is None,
{
    for i in 0..meta.len()
        invariant
            meta_index(meta@.take(i as int), p@) is None,
    {
        assert(meta@.take(i + 1).drop_last() =~= meta@.take(i as int));
        assert(meta@.take(i + 1).last() == meta@[i as int]);
        if path_eq(meta[i].0.as_str(), p) {
            proof {
                lemma_meta_prefix(meta@, p@, i + 1, meta@.len() as int);
                assert(meta@.take(meta@.len() as int) =~= meta@);
            }
            return Some(i);
        }
    }
    assert(meta@.take(meta@.len() as int) =~= meta@);
    None
}

proof fn lemma_meta_prefix(meta: Seq<(String, ComponentMeta)>, p: Seq<char>, k: int, j: int)
    requires
        0 <= k <= j <= meta.len(),
        meta_index(meta.take(k), p) is Some,
    ensures
        meta_index(meta.take(j), p) == meta_index(meta.take(k), p),
    decreases j - k,
{
    if k < j {
        lemma_meta_prefix(meta, p, k, j - 1);
        assert(meta.take(j).drop_last() =~= meta.take(j - 1));
    }
}

proof fn lemma_key_prefix(ps: Seq<(Seq<char>, Seq<char>)>, p: Seq<char>, k: int, j: int)
    requires
        0 <= k <= j <= ps.len(),
        key_index(ps.take(k), p) is Some,
    ensures
        key_index(ps.take(j), p) == key_index(ps.take(k), p),
    decreases j - k,
{
    if k < j {
        lemma_key_prefix(ps, p, k, j - 1);
        assert(ps.take(j).drop_last() =~= ps.take(j - 1));
    }
}

proof fn lemma_key_index_bound(ps: Seq<(Seq<char>, Seq<char>)>, p: Seq<char>)
    ensures
        key_index(ps, p) matches Some(i) ==> 0 <= i < ps.len(),
    decreases ps.len(),
{
    if ps.len() > 0 {
        lemma_key_index_bound(ps.drop_last(), p);
    }
}

fn insert_parent_into(ps: &mut Vec<(String, String)>, child: String, parent: &str)
    ensures
        pairs_of(final(ps)@) == insert_parent(pairs_of(old(ps)@), child@, parent@),
{
    let ghost pv = pairs_of(ps@);
    let mut i: usize = 0;
    while i < ps.len()
        invariant
            pv == pairs_of(ps@),
            pv == pairs_of(old(ps)@),
            i <= ps@.len(),
            key_index(pv.take(i as int), child@) is None,
        decreases ps.len() - i,
    {
        assert(pv.take(i + 1).drop_last() =~= pv.take(i as int));
        assert(pv.take(i + 1).last() == pv[i as int]);
        if path_eq(ps[i].0.as_str(), child.as_str()) {
            proof {
                assert(pv[i as int].0 == ps@[i as int].0@);
                assert(key_index(pv.take(i + 1), child@) == Some(i as int));
                lemma_key_prefix(pv, child@, i + 1, pv.len() as int);
                assert(pv.take(pv.len() as int) =~= pv);
            }
            let key = ps[i].0.clone();
            let ghost before = ps@;
            ps.set(i, (key, crate::text::owned(parent)));
            assert(pairs_of(ps@) =~= pv.update(i as int, (pv[i as int].0, parent@)));
            return;
        }
        i += 1;
    }
    assert(pv.take(pv.len() as int) =~= pv);
    let ghost before = ps@;
    ps.push((child, crate::text::owned(parent)));
    assert(pairs_of(ps@) =~= pv.push((child@, parent@)));
}

fn site_known_of(sites: &Vec<(String, String)>, p: &str) -> (r: bool)
    ensures
        r == (exists|i: int| 0 <= i < pairs_of(sites@).len() && pairs_of(sites@)[i].0 == p@),
{
    for i in 0..sites.len()
        invariant
            forall|k: int| 0 <= k < i ==> sites@[k].0@ != p@,
    {
        if str_eq(sites[i].0.as_str(), p) {
            assert(pairs_of(sites@)[i as int].0 == p@);
            return true;
        }
    }
    assert(!(exists|i: int| 0 <= i < pairs_of(sites@).len() && pairs_of(sites@)[i].0 == p@)) by {
        if exists|i: int| 0 <= i < pairs_of(sites@).len() && pairs_of(sites@)[i].0 == p@ {
            let k = choose|i: int| 0 <= i < pairs_of(sites@).len() && pairs_of(sites@)[i].0 == p@;
            assert(pairs_of(sites@)[k].0 == sites@[k].0@);
        }
    }
    false
}

fn file_known_of(files: &Vec<String>, p: &str) -> (r: bool)
    ensures
        r == views(files@).contains(p@),
{
    for i in 0..files.len()
        invariant
            forall|k: int| 0 <= k < i ==> files@[k]@ != p@,
    {
        if str_eq(files[i].as_str(), p) {
            assert(views(files@)[i as int] == p@);
            return true;
        }
    }
    assert(!views(files@).contains(p@)) by {
        if views(files@).contains(p@) {
            let k = choose|k: int| 0 <= k < views(files@).len() && views(files@)[k] == p@;
            assert(views(files@)[k] == files@[k]@);
        }
    }
    false
}

fn add_css(closure: &mut PageCssClosure, seen: &Vec<String>, comp: &str, css: &str)
    ensures
        css_state(*final(closure), seen@) == css_step(css_state(*old(closure), seen@), comp@, css@),
{
    let dir = crate::routes::dir_segs_of(comp);
    let joined = join_vec(&dir, css);
    let css_path = normalized_of(&joined);
    let ghost st = css_state(*closure, seen@);
    let site_known = site_known_of(&closure.sites, css_path.as_str());
    let file_known = file_known_of(&closure.css_files, css_path.as_str());
    if !site_known {
        let ghost before = closure.sites@;
        closure.sites.push((css_path.clone(), crate::text::owned(comp)));
        assert(pairs_of(closure.sites@) =~= pairs_of(before).push((css_path@, comp@)));
    }
    if !file_known {
        let ghost before = closure.css_files@;
        closure.css_files.push(css_path);
        assert(views(closure.css_files@) =~= views(before).push(css_path@));
    }
}

#[verifier::loop_isolation(false)]
fn css_visit(
    comp_rel: &str,
    meta: &Vec<(String, ComponentMeta)>,
    closure: &mut PageCssClosure,
    seen: &mut Vec<String>,
    fuel: u128,
)
    ensures
        css_state(*final(closure), final(seen)@) == visit(
            meta@,
            comp_rel@,
            css_state(*old(closure), old(seen)@),
            fuel as nat,
        ),
    decreases fuel,
{
    if fuel == 0 {
        return;
    }
    if holds_path_of(seen, comp_rel) {
        return;
    }
    let ghost st0 = css_state(*closure, seen@);
    seen.push(crate::text::owned(comp_rel));
    closure.components.push(crate::text::owned(comp_rel));
    let ghost st1 = (st0.0, st0.1, st0.2.push(comp_rel@), st0.3, st0.4.push(comp_rel@));
    assert(css_state(*closure, seen@) =~= st1);
    match meta_index_of(meta, comp_rel) {
        None => {},
        Some(i) => {
            let m = &meta[i].1;
            for j in 0..m.css_imports.len()
                invariant
                    css_state(*closure, seen@) == css_fold(
                        st1,
                        comp_rel@,
                        views(m.css_imports@).take(j as int),
                    ),
            {
                assert(views(m.css_imports@).take(j + 1).drop_last() =~= views(m.css_imports@).take(
                    j as int,
                ));
                assert(views(m.css_imports@).take(j + 1).last() == m.css_imports@[j as int]@);
                add_css(closure, seen, comp_rel, m.css_imports[j].as_str());
            }
            assert(views(m.css_imports@).take(m.css_imports@.len() as int) =~= views(
                m.css_imports@,
            ));
            let ghost st2 = css_fold(st1, comp_rel@, views(m.css_imports@));
            match &m.render_tree {
                None => {},
                Some(tree) => {
                    let tags = collect_child_component_tags(tree);
                    for t in 0..tags.len()
                        invariant
                            css_state(*closure, seen@) == visit_tags(
                                meta@,
                                comp_rel@,
                                m.imports@,
                                views(tags@).take(t as int),
                                st2,
                                (fuel - 1) as nat,
                            ),
                    {
                        assert(views(tags@).take(t + 1).drop_last() =~= views(tags@).take(t as int));
                        assert(views(tags@).take(t + 1).last() == tags@[t as int]@);
                        match resolve_component_import_path(tags[t].as_str(), &m.imports, comp_rel) {
                            None => {},
                            Some(child) => {
                                insert_parent_into(&mut closure.parents, child.clone(), comp_rel);
                                css_visit(child.as_str(), meta, closure, seen, fuel - 1);
                            },
                        }
                    }
                    assert(views(tags@).take(tags@.len() as int) =~= views(tags@));
                },
            }
        },
    }
}

/// Walks the component tree of a page from `comp_rel`, adding to `closure`
/// and `seen` exactly what [`visit`] describes. The visit depth is bounded
/// by one more than the number of known components, which a walk never
/// reaches: every level below the first visits a known component not yet
/// seen.
pub fn collect_page_css_closure(
    comp_rel: &str,
    component_meta: &Vec<(String, ComponentMeta)>,
    closure: &mut PageCssClosure,
    seen: &mut Vec<String>,
)
    ensures
        css_state(*final(closure), final(seen)@) == visit(
            component_meta@,
            comp_rel@,
            css_state(*old(closure), old(seen)@),
            (component_meta@.len() + 1) as nat,
        ),
{
    css_visit(comp_rel, component_meta, closure, seen, component_meta.len() as u128 + 1);
}

} // verus!
