//! Lexical path handling over `/`-separated strings: the segment model of
//! `std::path` that the build uses (join, parent, extension, normalize).
//!
//! A path is read as its segments, the pieces between `/` (empty pieces
//! kept). Empty and `.` segments are "junk": the component iterator of a
//! path skips them (but for a leading `.` and the root), so every operation
//! below ignores them where the path library does.

use vstd::prelude::*;
use crate::text::{
    chars_of, chars_eq, join, owned, push_join, push_str, slice_chars, starts_with, string_of,
    views,
};

verus! {

broadcast use vstd::string::group_string_axioms;

/// `str::split` with a char separator: the pieces between separators,
/// empty ones kept.
pub open spec fn split(s: Seq<char>, sep: char) -> Seq<Seq<char>>
    decreases s.len(),
{
    match first_at(s, sep, 0) {
        None => seq![s],
        Some(i) => if 0 <= i < s.len() {
            seq![s.take(i)] + split(s.skip(i + 1), sep)
        } else {
            seq![s]
        },
    }
}

/// The first index `>= from` holding `c`.
pub open spec fn first_at(s: Seq<char>, c: char, from: int) -> Option<int>
    decreases s.len() - from,
{
    if from < 0 || from >= s.len() {
        None
    } else if s[from] == c {
        Some(from)
    } else {
        first_at(s, c, from + 1)
    }
}

proof fn lemma_first_at(s: Seq<char>, c: char, from: int)
    requires
        0 <= from,
    ensures
        first_at(s, c, from) matches Some(i) ==> from <= i < s.len() && s[i] == c && forall|k: int|
            from <= k < i ==> s[k] != c,
        first_at(s, c, from) is None ==> forall|k: int| from <= k < s.len() ==> s[k] != c,
    decreases s.len() - from,
{
    if from < s.len() && s[from] != c {
        lemma_first_at(s, c, from + 1);
    }
}

/// `first_at` finds the first occurrence of `c` at or after `from`, if any.
pub proof fn lemma_first_at_pub(s: Seq<char>, c: char, from: int)
    requires
        0 <= from,
    ensures
        first_at(s, c, from) matches Some(i) ==> from <= i < s.len() && s[i] == c && forall|k: int|
            from <= k < i ==> s[k] != c,
        first_at(s, c, from) is None ==> forall|k: int| from <= k < s.len() ==> s[k] != c,
{
    lemma_first_at(s, c, from);
}

proof fn lemma_first_at_found(s: Seq<char>, c: char, from: int, i: int)
    requires
        0 <= from <= i < s.len(),
        s[i] == c,
        forall|k: int| from <= k < i ==> s[k] != c,
    ensures
        first_at(s, c, from) == Some(i),
    decreases i - from,
{
    if from < i {
        lemma_first_at_found(s, c, from + 1, i);
    }
}

/// No piece of a split holds the separator.
proof fn lemma_split_pieces(s: Seq<char>, sep: char)
    ensures
        forall|k: int| 0 <= k < split(s, sep).len() ==> !(#[trigger] split(s, sep)[k]).contains(sep),
    decreases s.len(),
{
    lemma_first_at(s, sep, 0);
    match first_at(s, sep, 0) {
        None => {},
        Some(i) => {
            lemma_split_pieces(s.skip(i + 1), sep);
            let sp = split(s, sep);
            assert forall|k: int| 0 <= k < sp.len() implies !(#[trigger] sp[k]).contains(sep) by {
                if k == 0 {
                    assert(sp[0] == s.take(i));
                } else {
                    assert(sp[k] == split(s.skip(i + 1), sep)[k - 1]);
                }
            }
        },
    }
}

/// Splitting around a separator splits each side.
proof fn lemma_split_concat(a: Seq<char>, b: Seq<char>, sep: char)
    ensures
        split(a + seq![sep] + b, sep) == split(a, sep) + split(b, sep),
    decreases a.len(),
{
    let s = a + seq![sep] + b;
    lemma_first_at(a, sep, 0);
    match first_at(a, sep, 0) {
        None => {
            lemma_first_at_found(s, sep, 0, a.len() as int);
            assert(s.take(a.len() as int) =~= a);
            assert(s.skip(a.len() as int + 1) =~= b);
        },
        Some(i) => {
            lemma_first_at_found(s, sep, 0, i);
            assert(s.take(i) =~= a.take(i));
            assert(s.skip(i + 1) =~= a.skip(i + 1) + seq![sep] + b);
            lemma_split_concat(a.skip(i + 1), b, sep);
            assert(split(a, sep) == seq![a.take(i)] + split(a.skip(i + 1), sep));
        },
    }
}

proof fn lemma_split_plain(s: Seq<char>, sep: char)
    requires
        !s.contains(sep),
    ensures
        split(s, sep) == seq![s],
{
    lemma_first_at(s, sep, 0);
    if first_at(s, sep, 0) is Some {
        let i = first_at(s, sep, 0)->0;
        assert(s[i] == sep);
    }
}

/// A segment a normal form keeps: not empty, `.` or `..`, no `/` in it.
pub open spec fn clean_segment(seg: Seq<char>) -> bool {
    !is_junk(seg) && seg != ".."@ && !seg.contains('/')
}

proof fn lemma_resolve_clean(parts: Seq<Seq<char>>, segs: Seq<Seq<char>>)
    requires
        forall|k: int| 0 <= k < parts.len() ==> clean_segment(#[trigger] parts[k]),
        forall|k: int| 0 <= k < segs.len() ==> !(#[trigger] segs[k]).contains('/'),
    ensures
        forall|k: int|
            0 <= k < resolve(parts, segs).len() ==> clean_segment(#[trigger] resolve(parts, segs)[k]),
    decreases segs.len(),
{
    if segs.len() > 0 {
        lemma_resolve_clean(parts, segs.drop_last());
        let m = resolve(parts, segs.drop_last());
        let r = resolve(parts, segs);
        assert(segs.last() == segs[segs.len() - 1]);
        assert forall|k: int| 0 <= k < r.len() implies clean_segment(#[trigger] r[k]) by {
            if k < m.len() {
                assert(r[k] == m[k]);
            }
        }
    }
}

proof fn lemma_resolve_keeps_clean(parts: Seq<Seq<char>>)
    requires
        forall|k: int| 0 <= k < parts.len() ==> clean_segment(#[trigger] parts[k]),
    ensures
        resolve(seq![], parts) == parts,
    decreases parts.len(),
{
    if parts.len() > 0 {
        lemma_resolve_keeps_clean(parts.drop_last());
        assert(parts.last() == parts[parts.len() - 1]);
        assert(parts.drop_last().push(parts.last()) =~= parts);
    }
}

proof fn lemma_split_join(parts: Seq<Seq<char>>)
    requires
        parts.len() > 0,
        forall|k: int| 0 <= k < parts.len() ==> !(#[trigger] parts[k]).contains('/'),
    ensures
        split(join(parts, "/"@), '/') == parts,
    decreases parts.len(),
{
    reveal_strlit("/");
    assert("/"@ =~= seq!['/']);
    assert(parts.last() == parts[parts.len() - 1]);
    if parts.len() == 1 {
        lemma_split_plain(parts[0], '/');
        assert(seq![parts[0]] =~= parts);
    } else {
        lemma_split_join(parts.drop_last());
        lemma_split_concat(join(parts.drop_last(), "/"@), parts.last(), '/');
        lemma_split_plain(parts.last(), '/');
        assert(parts.drop_last() + seq![parts.last()] =~= parts);
    }
}

/// A normal form is its own normal form, and none of its segments is empty,
/// `.` or `..`: normalizing twice is normalizing once.
pub proof fn law_normalize_idempotent(p: Seq<char>)
    ensures
        normalized(split(normalized(split(p, '/')), '/')) == normalized(split(p, '/')),
        normalized(split(p, '/')).len() > 0 ==> forall|k: int|
            0 <= k < split(normalized(split(p, '/')), '/').len() ==> clean_segment(
                #[trigger] split(normalized(split(p, '/')), '/')[k],
            ),
{
    reveal_strlit(".");
    reveal_strlit("..");
    let segs = split(p, '/');
    lemma_split_pieces(p, '/');
    lemma_resolve_clean(seq![], segs);
    let parts = resolve(seq![], segs);
    let r = normalized(segs);
    if parts.len() == 0 {
        assert(r =~= Seq::<char>::empty());
        lemma_split_plain(r, '/');
        assert(split(r, '/')[0] == r);
        assert(is_junk(r));
        let sr = split(r, '/');
        assert(sr.drop_last() =~= Seq::<Seq<char>>::empty());
        assert(sr.last() == r);
        assert(sr.len() == 1);
        assert(resolve(seq![], sr.drop_last()) == Seq::<Seq<char>>::empty());
        assert(is_junk(sr.last()));
        assert(resolve(seq![], sr) == push_segment(resolve(seq![], sr.drop_last()), sr.last()));
        assert(resolve(seq![], sr) =~= Seq::<Seq<char>>::empty());
    } else {
        assert forall|k: int| 0 <= k < parts.len() implies !(#[trigger] parts[k]).contains('/') by {
            assert(clean_segment(parts[k]));
        }
        lemma_split_join(parts);
        lemma_resolve_keeps_clean(parts);
    }
}

/// The pieces of `s` between `sep`s.
pub fn split_on(s: &str, sep: char) -> (r: Vec<String>)
    ensures
        views(r@) == split(s@, sep),
{
    let cs = chars_of(s);
    let mut out: Vec<String> = Vec::new();
    let mut start: usize = 0;
    let mut i: usize = 0;
    assert(cs@.skip(0) =~= cs@);
    while i < cs.len()
        invariant
            cs@ == s@,
            start <= i <= cs@.len(),
            split(s@, sep) == views(out@) + split(cs@.skip(start as int), sep),
            forall|k: int| start <= k < i ==> cs@[k] != sep,
        decreases cs.len() - i,
    {
        if cs[i] == sep {
            let ghost rest = cs@.skip(start as int);
            proof {
                assert forall|k: int| 0 <= k < i - start implies rest[k] != sep by {
                    assert(rest[k] == cs@[start + k]);
                }
                lemma_first_at_found(rest, sep, 0, i - start);
                assert(rest.take(i - start) =~= cs@.subrange(start as int, i as int));
                assert(rest.skip(i - start + 1) =~= cs@.skip(i + 1));
            }
            let piece = slice_chars(&cs, start, i);
            let ghost before = out@;
            out.push(string_of(&piece));
            assert(views(out@) =~= views(before).push(piece@));
            assert(views(out@) + split(cs@.skip(i + 1), sep) =~= views(before) + (seq![piece@]
                + split(cs@.skip(i + 1), sep)));
            start = i + 1;
        }
        i += 1;
    }
    let ghost rest = cs@.skip(start as int);
    proof {
        lemma_first_at(rest, sep, 0);
        if first_at(rest, sep, 0) is Some {
            let j = first_at(rest, sep, 0)->0;
            assert(rest[j] == cs@[start + j]);
        }
    }
    let piece = slice_chars(&cs, start, cs.len());
    assert(piece@ =~= rest);
    let ghost before = out@;
    out.push(string_of(&piece));
    assert(views(out@) =~= views(before).push(piece@));
    assert(views(out@) =~= views(before) + split(rest, sep));
    out
}

/// A segment that path components skip: empty or `.`.
pub open spec fn is_junk(seg: Seq<char>) -> bool {
    seg.len() == 0 || seg == "."@
}

/// Lexical resolution of one segment: junk is skipped, `..` drops the last
/// kept segment (if any), anything else is kept.
pub open spec fn push_segment(parts: Seq<Seq<char>>, seg: Seq<char>) -> Seq<Seq<char>> {
    if is_junk(seg) {
        parts
    } else if seg == ".."@ {
        if parts.len() > 0 {
            parts.drop_last()
        } else {
            parts
        }
    } else {
        parts.push(seg)
    }
}

/// The segments `segs` resolved, in order, onto `parts`.
pub open spec fn resolve(parts: Seq<Seq<char>>, segs: Seq<Seq<char>>) -> Seq<Seq<char>>
    decreases segs.len(),
{
    if segs.len() == 0 {
        parts
    } else {
        push_segment(resolve(parts, segs.drop_last()), segs.last())
    }
}

/// `segs` without its trailing junk, keeping its first `keep` segments.
pub open spec fn trim_junk_from(segs: Seq<Seq<char>>, keep: int) -> Seq<Seq<char>>
    decreases segs.len(),
{
    if segs.len() > 0 && segs.len() > keep && is_junk(segs.last()) {
        trim_junk_from(segs.drop_last(), keep)
    } else {
        segs
    }
}

/// `segs` without its trailing junk.
pub open spec fn trim_junk(segs: Seq<Seq<char>>) -> Seq<Seq<char>> {
    trim_junk_from(segs, 0)
}

/// The segments of a path's directory: its last component (and the junk
/// after it) removed.
pub open spec fn parent_segs(segs: Seq<Seq<char>>) -> Seq<Seq<char>> {
    let t = trim_junk(segs);
    if t.len() > 0 {
        t.drop_last()
    } else {
        t
    }
}

/// The index of the last `c` in `s`.
pub open spec fn last_index(s: Seq<char>, c: char) -> Option<int>
    decreases s.len(),
{
    if s.len() == 0 {
        None
    } else if s.last() == c {
        Some(s.len() - 1)
    } else {
        last_index(s.drop_last(), c)
    }
}

/// `Path::file_stem` of a file name: the name up to its last `.`, unless
/// that dot is the first character (or there is none).
pub open spec fn file_stem(name: Seq<char>) -> Seq<char> {
    match last_index(name, '.') {
        Some(k) => if k > 0 {
            name.take(k)
        } else {
            name
        },
        None => name,
    }
}

/// The segments of `Path::with_extension`: the last component, when it is
/// a file name (not `..`), becomes its stem plus `.ext` (nothing for an
/// empty `ext`); junk after it goes. A path without a file name is kept.
pub open spec fn with_ext(segs: Seq<Seq<char>>, ext: Seq<char>) -> Seq<Seq<char>> {
    let t = trim_junk(segs);
    if t.len() > 0 && t.last() != ".."@ {
        t.drop_last().push(
            file_stem(t.last()) + (if ext.len() > 0 {
                "."@ + ext
            } else {
                Seq::<char>::empty()
            }),
        )
    } else {
        segs
    }
}

/// The segments of `dir.join(rel)`: an absolute `rel` replaces `dir`.
pub open spec fn join_segs(dir: Seq<Seq<char>>, rel: Seq<char>) -> Seq<Seq<char>> {
    if starts_with(rel, "/"@) {
        split(rel, '/')
    } else {
        dir + split(rel, '/')
    }
}

/// The normal form of a path: `.` and empty segments dropped, each `..`
/// removing the segment before it, joined with `/`.
pub open spec fn normalized(segs: Seq<Seq<char>>) -> Seq<char> {
    join(resolve(seq![], segs), "/"@)
}

fn is_junk_str(s: &str) -> (r: bool)
    ensures
        r == is_junk(s@),
{
    let cs = chars_of(s);
    let dot = chars_of(".");
    proof {
        reveal_strlit(".");
    }
    cs.len() == 0 || chars_eq(&cs, &dot)
}

fn is_parent_str(s: &str) -> (r: bool)
    ensures
        r == (s@ == ".."@),
{
    let cs = chars_of(s);
    let dd = chars_of("..");
    chars_eq(&cs, &dd)
}

/// Resolves `segs` onto `parts`.
pub fn resolve_into(parts: &mut Vec<String>, segs: &Vec<String>)
    ensures
        views(final(parts)@) == resolve(views(old(parts)@), views(segs@)),
{
    let ghost base = views(parts@);
    for i in 0..segs.len()
        invariant
            views(parts@) == resolve(base, views(segs@).take(i as int)),
    {
        assert(views(segs@).take(i + 1).drop_last() =~= views(segs@).take(i as int));
        assert(views(segs@).take(i + 1).last() == segs@[i as int]@);
        let s = segs[i].as_str();
        let ghost before = parts@;
        if is_junk_str(s) {
        } else if is_parent_str(s) {
            if parts.len() > 0 {
                parts.pop();
                assert(views(parts@) =~= views(before).drop_last());
            }
        } else {
            parts.push(segs[i].clone());
            assert(views(parts@) =~= views(before).push(s@));
        }
    }
    assert(views(segs@).take(segs@.len() as int) =~= views(segs@));
}

fn trim_junk_vec(segs: &Vec<String>, keep: usize) -> (r: Vec<String>)
    ensures
        views(r@) == trim_junk_from(views(segs@), keep as int),
{
    let mut n = segs.len();
    assert(views(segs@).take(n as int) =~= views(segs@));
    while n > keep && is_junk_str(segs[n - 1].as_str())
        invariant
            n <= segs@.len(),
            trim_junk_from(views(segs@), keep as int) == trim_junk_from(
                views(segs@).take(n as int),
                keep as int,
            ),
        decreases n,
    {
        assert(views(segs@).take(n as int).drop_last() =~= views(segs@).take(n - 1));
        assert(views(segs@).take(n as int).last() == segs@[n - 1]@);
        n -= 1;
    }
    let mut r: Vec<String> = Vec::new();
    for i in 0..n
        invariant
            n <= segs@.len(),
            views(r@) == views(segs@).take(i as int),
    {
        let ghost before = r@;
        r.push(segs[i].clone());
        assert(views(r@) =~= views(before).push(segs@[i as int]@));
        assert(views(r@) =~= views(segs@).take(i + 1));
    }
    proof {
        if n > keep {
            assert(views(segs@).take(n as int).last() == segs@[n - 1]@);
        }
    }
    r
}

fn last_dot(name: &Vec<char>) -> (r: Option<usize>)
    ensures
        r matches Some(k) ==> last_index(name@, '.') == Some(k as int),
        r is None ==> last_index(name@, '.') is None,
{
    let mut n = name.len();
    assert(name@.take(n as int) =~= name@);
    while n > 0
        invariant
            n <= name@.len(),
            last_index(name@, '.') == last_index(name@.take(n as int), '.'),
        decreases n,
    {
        assert(name@.take(n as int).last() == name@[n - 1]);
        if name[n - 1] == '.' {
            return Some(n - 1);
        }
        assert(name@.take(n as int).drop_last() =~= name@.take(n - 1));
        n -= 1;
    }
    None
}

fn stem_of(name: &str) -> (r: String)
    ensures
        r@ == file_stem(name@),
{
    let cs = chars_of(name);
    match last_dot(&cs) {
        Some(k) => {
            if k > 0 {
                proof {
                    assert(last_index(name@, '.') == Some(k as int));
                    lemma_last_index_bound(name@, '.');
                }
                let s = slice_chars(&cs, 0, k);
                assert(s@ =~= name@.take(k as int));
                string_of(&s)
            } else {
                owned(name)
            }
        },
        None => owned(name),
    }
}

proof fn lemma_last_index_bound(s: Seq<char>, c: char)
    ensures
        last_index(s, c) matches Some(k) ==> 0 <= k < s.len() && s[k] == c,
    decreases s.len(),
{
    if s.len() > 0 && s.last() != c {
        lemma_last_index_bound(s.drop_last(), c);
    }
}

/// The segments of `Path::with_extension`.
pub fn with_ext_vec(segs: &Vec<String>, ext: &str) -> (r: Vec<String>)
    ensures
        views(r@) == with_ext(views(segs@), ext@),
{
    let t = trim_junk_vec(segs, 0);
    proof {
        if t@.len() > 0 {
            assert(views(t@).last() == t@[t@.len() - 1]@);
        }
    }
    if t.len() > 0 && !is_parent_str(t[t.len() - 1].as_str()) {
        let mut r: Vec<String> = Vec::new();
        for i in 0..t.len() - 1
            invariant
                t@.len() > 0,
                views(r@) == views(t@).take(i as int),
        {
            let ghost before = r@;
            r.push(t[i].clone());
            assert(views(r@) =~= views(before).push(t@[i as int]@));
            assert(views(r@) =~= views(t@).take(i + 1));
        }
        let mut last = stem_of(t[t.len() - 1].as_str());
        if chars_of(ext).len() > 0 {
            push_str(&mut last, ".");
            push_str(&mut last, ext);
        }
        let ghost want = file_stem(t@[t@.len() - 1]@) + (if ext@.len() > 0 {
            "."@ + ext@
        } else {
            Seq::<char>::empty()
        });
        assert(last@ =~= want);
        let ghost before = r@;
        r.push(last);
        assert(views(t@).drop_last() =~= views(t@).take(t@.len() - 1));
        assert(views(r@) =~= views(before).push(want));
        assert(views(t@).last() == t@[t@.len() - 1]@);
        r
    } else {
        let mut r: Vec<String> = Vec::new();
        for i in 0..segs.len()
            invariant
                views(r@) == views(segs@).take(i as int),
        {
            let ghost before = r@;
            r.push(segs[i].clone());
            assert(views(r@) =~= views(before).push(segs@[i as int]@));
            assert(views(r@) =~= views(segs@).take(i + 1));
        }
        assert(views(segs@).take(segs@.len() as int) =~= views(segs@));
        r
    }
}

/// The segments of a path's directory.
pub fn parent_vec(segs: &Vec<String>) -> (r: Vec<String>)
    ensures
        views(r@) == parent_segs(views(segs@)),
{
    let mut t = trim_junk_vec(segs, 0);
    if t.len() > 0 {
        let ghost before = t@;
        t.pop();
        assert(views(t@) =~= views(before).drop_last());
    }
    t
}

/// The segments of `dir.join(rel)`.
pub fn join_vec(dir: &Vec<String>, rel: &str) -> (r: Vec<String>)
    ensures
        views(r@) == join_segs(views(dir@), rel@),
{
    let rs = split_on(rel, '/');
    if crate::text::str_starts_with(rel, "/") {
        return rs;
    }
    let mut r: Vec<String> = Vec::new();
    for i in 0..dir.len()
        invariant
            views(r@) == views(dir@).take(i as int),
    {
        let ghost before = r@;
        r.push(dir[i].clone());
        assert(views(r@) =~= views(before).push(dir@[i as int]@));
        assert(views(r@) =~= views(dir@).take(i + 1));
    }
    assert(views(dir@).take(dir@.len() as int) =~= views(dir@));
    for i in 0..rs.len()
        invariant
            views(r@) == views(dir@) + views(rs@).take(i as int),
    {
        let ghost before = r@;
        r.push(rs[i].clone());
        assert(views(r@) =~= views(before).push(rs@[i as int]@));
        assert(views(r@) =~= views(dir@) + views(rs@).take(i + 1));
    }
    assert(views(rs@).take(rs@.len() as int) =~= views(rs@));
    r
}

/// The normal form of the path with segments `segs`.
pub fn normalized_of(segs: &Vec<String>) -> (r: String)
    ensures
        r@ == normalized(views(segs@)),
{
    let mut parts: Vec<String> = Vec::new();
    assert(views(parts@) =~= Seq::<Seq<char>>::empty());
    resolve_into(&mut parts, segs);
    let mut out = String::new();
    push_join(&mut out, &parts, "/");
    out
}

/// Lexical normalization: `.` and empty segments dropped, `..` removing the
/// segment before it (nothing when there is none), a root dropped; the
/// rest joined with `/`.
pub fn normalize_path(p: &str) -> (r: String)
    ensures
        r@ == normalized(split(p@, '/')),
{
    normalized_of(&split_on(p, '/'))
}

/// The normal form of a path, as a path (same text).
pub fn normalize_pathbuf(p: &str) -> (r: String)
    ensures
        r@ == normalized(split(p@, '/')),
{
    normalize_path(p)
}

/// `Path::with_extension`, as text.
pub open spec fn with_extension(p: Seq<char>, ext: Seq<char>) -> Seq<char> {
    let t = trim_junk(split(p, '/'));
    if t.len() > 0 && t.last() != ".."@ {
        join(with_ext(split(p, '/'), ext), "/"@)
    } else {
        p
    }
}

pub fn path_with_extension(p: &str, ext: &str) -> (r: String)
    ensures
        r@ == with_extension(p@, ext@),
{
    let segs = split_on(p, '/');
    let t = trim_junk_vec(&segs, 0);
    proof {
        if t@.len() > 0 {
            assert(views(t@).last() == t@[t@.len() - 1]@);
        }
    }
    if t.len() > 0 && !is_parent_str(t[t.len() - 1].as_str()) {
        let w = with_ext_vec(&segs, ext);
        let mut out = String::new();
        push_join(&mut out, &w, "/");
        out
    } else {
        owned(p)
    }
}

/// `Path::parent`, as text: the path without its last component (and the
/// junk around it); none for an empty path or a bare root.
pub open spec fn parent_str(p: Seq<char>) -> Option<Seq<char>> {
    let t = trim_junk_from(split(p, '/'), 1);
    if t.len() <= 1 {
        if t.len() == 1 && t[0].len() > 0 {
            Some(Seq::<char>::empty())
        } else {
            None
        }
    } else {
        let u = trim_junk_from(t.drop_last(), 1);
        if u.len() == 1 && u[0].len() == 0 {
            Some("/"@)
        } else {
            Some(join(u, "/"@))
        }
    }
}

pub fn path_parent(p: &str) -> (r: Option<String>)
    ensures
        match parent_str(p@) {
            Some(q) => r matches Some(s) && s@ == q,
            None => r is None,
        },
{
    let segs = split_on(p, '/');
    let t = trim_junk_vec(&segs, 1);
    if t.len() <= 1 {
        if t.len() == 1 && chars_of(t[0].as_str()).len() > 0 {
            return Some(String::new());
        }
        return None;
    }
    let mut head: Vec<String> = Vec::new();
    for i in 0..t.len() - 1
        invariant
            t@.len() > 1,
            views(head@) == views(t@).take(i as int),
    {
        let ghost before = head@;
        head.push(t[i].clone());
        assert(views(head@) =~= views(before).push(t@[i as int]@));
        assert(views(head@) =~= views(t@).take(i + 1));
    }
    assert(views(head@) =~= views(t@).drop_last());
    let u = trim_junk_vec(&head, 1);
    if u.len() == 1 && chars_of(u[0].as_str()).len() == 0 {
        return Some(owned("/"));
    }
    let mut out = String::new();
    push_join(&mut out, &u, "/");
    Some(out)
}

/// The components of a path (`Path::components`): a root `/` first when
/// the path is absolute, then every segment that is neither empty nor `.`
/// (a leading `.` of a relative path is kept).
pub open spec fn components(p: Seq<char>) -> Seq<Seq<char>> {
    (if starts_with(p, "/"@) {
        seq!["/"@]
    } else {
        Seq::<Seq<char>>::empty()
    }) + kept(split(p, '/'))
}

pub open spec fn keeps(seg: Seq<char>, i: int) -> bool {
    seg.len() > 0 && (seg != "."@ || i == 0)
}

pub open spec fn kept(segs: Seq<Seq<char>>) -> Seq<Seq<char>>
    decreases segs.len(),
{
    if segs.len() == 0 {
        seq![]
    } else {
        kept(segs.drop_last()) + (if keeps(segs.last(), segs.len() - 1) {
            seq![segs.last()]
        } else {
            Seq::<Seq<char>>::empty()
        })
    }
}

pub fn path_components(p: &str) -> (r: Vec<String>)
    ensures
        views(r@) == components(p@),
{
    let segs = split_on(p, '/');
    let mut out: Vec<String> = Vec::new();
    if crate::text::str_starts_with(p, "/") {
        out.push(owned("/"));
    }
    let ghost start = views(out@);
    for i in 0..segs.len()
        invariant
            views(out@) == start + kept(views(segs@).take(i as int)),
    {
        assert(views(segs@).take(i + 1).drop_last() =~= views(segs@).take(i as int));
        assert(views(segs@).take(i + 1).last() == segs@[i as int]@);
        let seg = segs[i].as_str();
        let ghost before = out@;
        if chars_of(seg).len() > 0 && (!is_junk_str(seg) || i == 0) {
            out.push(segs[i].clone());
            assert(views(out@) =~= views(before).push(seg@));
        }
        assert(views(out@) =~= start + kept(views(segs@).take(i + 1)));
    }
    assert(views(segs@).take(segs@.len() as int) =~= views(segs@));
    out
}

/// Path equality (`Path == Path`): equal components.
pub fn path_eq(a: &str, b: &str) -> (r: bool)
    ensures
        r == (components(a@) == components(b@)),
{
    let ca = path_components(a);
    let cb = path_components(b);
    if ca.len() != cb.len() {
        assert(views(ca@).len() != views(cb@).len());
        return false;
    }
    for i in 0..ca.len()
        invariant
            ca@.len() == cb@.len(),
            views(ca@) == components(a@),
            views(cb@) == components(b@),
            forall|k: int| 0 <= k < i ==> ca@[k]@ == cb@[k]@,
    {
        if !crate::text::str_eq(ca[i].as_str(), cb[i].as_str()) {
            assert(views(ca@)[i as int] == ca@[i as int]@);
            assert(views(cb@)[i as int] == cb@[i as int]@);
            assert(views(ca@) != views(cb@));
            return false;
        }
    }
    assert(views(ca@) =~= views(cb@));
    true
}

/// The extension of a path's file name (see `dev::extension_of`).
pub fn path_extension(p: &str) -> (r: String)
    ensures
        r@ == crate::dev::extension_of(p@),
{
    let segs = split_on(p, '/');
    let t = trim_junk_vec(&segs, 0);
    proof {
        if t@.len() > 0 {
            assert(views(t@).last() == t@[t@.len() - 1]@);
        }
    }
    if t.len() > 0 && !is_parent_str(t[t.len() - 1].as_str()) {
        let name = chars_of(t[t.len() - 1].as_str());
        match last_dot(&name) {
            Some(k) => {
                if k > 0 {
                    proof {
                        lemma_last_index_bound(name@, '.');
                    }
                    let e = slice_chars(&name, k + 1, name.len());
                    assert(e@ =~= name@.skip(k + 1));
                    string_of(&e)
                } else {
                    String::new()
                }
            },
            None => String::new(),
        }
    } else {
        String::new()
    }
}

} // verus!
