//! `marisjs init`: the starter files of a new project, and the build's
//! environment snapshot.

use vstd::prelude::*;
use crate::json::{json_quoted, json_string};
use crate::text::{chars_of, lines, owned, push_char, push_str, split_lines, str_eq, string_of, to_lowercase, trim,
    unicode_to_lowercase, vec_trim, views};
use crate::tree::pair_views;

verus! {

/// Spaces and underscores become dashes.
pub open spec fn dashed(c: char) -> char {
    if c == ' ' || c == '_' { '-' } else { c }
}

/// The package name of a project in the directory named `dir`: the name
/// lowercased with spaces and underscores as dashes; `marisjs-app` when the
/// directory has no usable name.
pub open spec fn package_name_of(dir: Option<Seq<char>>) -> Seq<char> {
    match dir {
        Some(n) => unicode_to_lowercase(n).map_values(|c: char| dashed(c)),
        None => "marisjs-app"@,
    }
}

pub fn package_name(dir: Option<&str>) -> (r: String)
    ensures
        r@ == package_name_of(match dir { Some(d) => Some(d@), None => None }),
{
    let d = match dir {
        Some(d) => d,
        None => return owned("marisjs-app"),
    };
    let lower = chars_of(to_lowercase(d).as_str());
    let mut out = String::new();
    let ghost target = unicode_to_lowercase(d@).map_values(|c: char| dashed(c));
    for i in 0..lower.len()
        invariant
            lower@ == unicode_to_lowercase(d@),
            target == lower@.map_values(|c: char| dashed(c)),
            out@ == target.take(i as int),
    {
        let c = lower[i];
        push_char(&mut out, if c == ' ' || c == '_' { '-' } else { c });
        assert(out@ =~= target.take(i + 1));
    }
    assert(target.take(lower@.len() as int) =~= target);
    out
}

/// The starter `package.json` of a project named `name`.
pub open spec fn package_json_text(name: Seq<char>) -> Seq<char> {
    "{\n  \"name\": "@ + json_quoted(name)
        + ",\n  \"version\": \"0.1.0\",\n  \"private\": true,\n  \"type\": \"module\",\n  \"scripts\": {\n    \"dev\": \"marisjs dev\",\n    \"build\": \"marisjs build\",\n    \"serve\": \"npx @marisjs/adapter-node ./dist\"\n  }\n}\n"@
}

pub fn package_json(name: &str) -> (r: String)
    ensures
        r@ == package_json_text(name@),
{
    let mut out = owned("{\n  \"name\": ");
    push_str(&mut out, json_string(name).as_str());
    push_str(&mut out, ",\n  \"version\": \"0.1.0\",\n  \"private\": true,\n  \"type\": \"module\",\n  \"scripts\": {\n    \"dev\": \"marisjs dev\",\n    \"build\": \"marisjs build\",\n    \"serve\": \"npx @marisjs/adapter-node ./dist\"\n  }\n}\n");
    out
}

/// The starter `.env.example`: documents the keys, holds no value.
pub const ENV_EXAMPLE: &'static str = "# Copy to .env and fill in real values. .env is gitignored.\n# Example:\n# MY_API_KEY=changeme\n";

/// An existing `.gitignore` made to end with a line break (an empty file
/// gets one too); none is the empty text.
pub open spec fn gitignore_base(existing: Option<Seq<char>>) -> Seq<char> {
    match existing {
        Some(s) => if s.len() > 0 && s.last() == '\n' { s } else { s.push('\n') },
        None => Seq::empty(),
    }
}

/// Whether some line, trimmed, is `.env`.
pub open spec fn ignores_env(s: Seq<char>) -> bool {
    exists|i: int| 0 <= i < lines(s).len() && trim(#[trigger] lines(s)[i]) == ".env"@
}

/// The `.gitignore` to write so that `.env` is never committed: the
/// existing one with a `.env` line added; none when it already has one.
pub open spec fn gitignore_update_of(existing: Option<Seq<char>>) -> Option<Seq<char>> {
    let b = gitignore_base(existing);
    if ignores_env(b) { None } else { Some(b + ".env\n"@) }
}

#[verifier::loop_isolation(false)]
pub fn gitignore_update(existing: Option<&str>) -> (r: Option<String>)
    ensures
        match gitignore_update_of(match existing { Some(s) => Some(s@), None => None }) {
            Some(t) => r matches Some(s) && s@ == t,
            None => r is None,
        },
{
    let mut base = match existing {
        Some(s) => {
            let cs = chars_of(s);
            let mut b = owned(s);
            if !(cs.len() > 0 && cs[cs.len() - 1] == '\n') {
                push_char(&mut b, '\n');
            }
            b
        },
        None => String::new(),
    };
    assert(base@ == gitignore_base(match existing { Some(s) => Some(s@), None => None }));
    let ls = split_lines(base.as_str());
    let ghost ghost_lines = lines(base@);
    for i in 0..ls.len()
        invariant
            views(ls@) == ghost_lines,
            ghost_lines == lines(base@),
            forall|k: int| 0 <= k < i ==> trim(#[trigger] ghost_lines[k]) != ".env"@,
    {
        let t = string_of(&vec_trim(&chars_of(ls[i].as_str())));
        if str_eq(t.as_str(), ".env") {
            assert(ghost_lines[i as int] == ls@[i as int]@);
            assert(trim(ghost_lines[i as int]) == ".env"@);
            return None;
        }
        assert(ghost_lines[i as int] == ls@[i as int]@);
    }
    push_str(&mut base, ".env\n");
    Some(base)
}

/// The environment snapshot after adding `pairs` without overriding: a
/// key already present (from the process, or earlier in `pairs`) keeps its
/// value.
pub open spec fn merged(env: Seq<(Seq<char>, Seq<char>)>, pairs: Seq<(Seq<char>, Seq<char>)>) -> Seq<(Seq<char>, Seq<char>)>
    decreases pairs.len(),
{
    if pairs.len() == 0 {
        env
    } else {
        let m = merged(env, pairs.drop_last());
        if exists|i: int| 0 <= i < m.len() && m[i].0 == pairs.last().0 {
            m
        } else {
            m.push(pairs.last())
        }
    }
}

/// A variable of the process environment is never shadowed by `.env`: the
/// snapshot before the merge is kept, pair for pair, at the front of the
/// merged one, and every key that `.env` names is then present.
pub proof fn law_process_env_kept(env: Seq<(Seq<char>, Seq<char>)>, pairs: Seq<(Seq<char>, Seq<char>)>)
    ensures
        merged(env, pairs).len() >= env.len(),
        merged(env, pairs).take(env.len() as int) == env,
        forall|j: int| 0 <= j < pairs.len() ==> exists|i: int|
            0 <= i < merged(env, pairs).len() && merged(env, pairs)[i].0 == #[trigger] pairs[j].0,
    decreases pairs.len(),
{
    if pairs.len() > 0 {
        let p = pairs.drop_last();
        law_process_env_kept(env, p);
        let m = merged(env, p);
        if !(exists|i: int| 0 <= i < m.len() && m[i].0 == pairs.last().0) {
            assert(m.push(pairs.last()).take(env.len() as int) =~= m.take(env.len() as int));
            assert(m.push(pairs.last())[m.len() as int].0 == pairs.last().0);
        }
        assert forall|j: int| 0 <= j < pairs.len() implies exists|i: int|
            0 <= i < merged(env, pairs).len() && merged(env, pairs)[i].0 == #[trigger] pairs[j].0 by {
            let mm = merged(env, pairs);
            if j < pairs.len() - 1 {
                assert(pairs[j] == p[j]);
                let i = choose|i: int| 0 <= i < m.len() && m[i].0 == #[trigger] p[j].0;
                assert(mm[i] == m[i]);
                assert(0 <= i < mm.len() && mm[i].0 == pairs[j].0);
            } else if exists|i: int| 0 <= i < m.len() && m[i].0 == pairs.last().0 {
                let i = choose|i: int| 0 <= i < m.len() && m[i].0 == pairs.last().0;
                assert(mm[i] == m[i]);
                assert(0 <= i < mm.len() && mm[i].0 == pairs[j].0);
            } else {
                assert(0 <= m.len() < mm.len() && mm[m.len() as int].0 == pairs[j].0);
            }
        }
    } else {
        assert(env.take(env.len() as int) =~= env);
    }
}

/// No key occurs twice in `env`.
pub open spec fn keys_distinct(env: Seq<(Seq<char>, Seq<char>)>) -> bool {
    forall|i: int, j: int| 0 <= i < j < env.len() ==> #[trigger] env[i].0 != #[trigger] env[j].0
}

/// A snapshot whose keys are distinct (as the process environment's are)
/// keeps them distinct through the merge: every key has one value.
pub proof fn law_merge_keys_distinct(env: Seq<(Seq<char>, Seq<char>)>, pairs: Seq<(Seq<char>, Seq<char>)>)
    requires
        keys_distinct(env),
    ensures
        keys_distinct(merged(env, pairs)),
    decreases pairs.len(),
{
    if pairs.len() > 0 {
        law_merge_keys_distinct(env, pairs.drop_last());
        let m = merged(env, pairs.drop_last());
        if !(exists|i: int| 0 <= i < m.len() && m[i].0 == pairs.last().0) {
            let r = m.push(pairs.last());
            assert forall|i: int, j: int| 0 <= i < j < r.len() implies #[trigger] r[i].0
                != #[trigger] r[j].0 by {
                if j == m.len() {
                    assert(r[i] == m[i]);
                } else {
                    assert(r[i] == m[i] && r[j] == m[j]);
                }
            }
        }
    }
}

fn has_key(env: &Vec<(String, String)>, key: &str) -> (r: bool)
    ensures
        r == exists|i: int| 0 <= i < pair_views(env@).len() && pair_views(env@)[i].0 == key@,
{
    for i in 0..env.len()
        invariant
            forall|k: int| 0 <= k < i ==> env@[k].0@ != key@,
    {
        if str_eq(env[i].0.as_str(), key) {
            assert(pair_views(env@)[i as int].0 == key@);
            return true;
        }
    }
    assert forall|i: int| 0 <= i < pair_views(env@).len() implies pair_views(env@)[i].0 != key@ by {
        assert(pair_views(env@)[i].0 == env@[i].0@);
    }
    false
}

/// Adds the `.env` pairs to the snapshot without overriding (see
/// [`merged`]).
pub fn merge_env(env: &mut Vec<(String, String)>, pairs: Vec<(String, String)>)
    ensures
        pair_views(final(env)@) == merged(pair_views(old(env)@), pair_views(pairs@)),
{
    let ghost e0 = pair_views(env@);
    let ghost pp = pair_views(pairs@);
    let mut i: usize = 0;
    assert(pp.take(0) =~= Seq::<(Seq<char>, Seq<char>)>::empty());
    while i < pairs.len()
        invariant
            i <= pairs@.len(),
            pp == pair_views(pairs@),
            pair_views(env@) == merged(e0, pp.take(i as int)),
        decreases pairs.len() - i,
    {
        assert(pp.take(i + 1).drop_last() =~= pp.take(i as int));
        assert(pp.take(i + 1).last() == pp[i as int]);
        if !has_key(env, pairs[i].0.as_str()) {
            let ghost before = env@;
            env.push((owned(pairs[i].0.as_str()), owned(pairs[i].1.as_str())));
            assert(pair_views(env@) =~= pair_views(before).push(pp[i as int]));
        }
        i += 1;
    }
    assert(pp.take(pp.len() as int) =~= pp);
}

} // verus!
