//! The `.env` tokenizer: `KEY=value` lines with comments, blank lines and
//! quoted values.

use vstd::prelude::*;
use crate::text::{
    chars_of, index_of, lemma_index_of, lines, occurs_at, split_lines, starts_with, string_of, trim,
    vec_occurs_at, vec_trim, views,
};
use crate::tree::pair_views;

verus! {

/// The value of a double-quoted string after its opening quote: up to the
/// closing quote, `\"` and `\\` standing for the escaped character, any
/// other backslash kept.
pub open spec fn dq_value(s: Seq<char>) -> Seq<char>
    decreases s.len(),
{
    if s.len() == 0 || s[0] == '"' {
        seq![]
    } else if s[0] == '\\' {
        if s.len() > 1 && (s[1] == '"' || s[1] == '\\') {
            seq![s[1]] + dq_value(s.skip(2))
        } else {
            seq!['\\'] + dq_value(s.drop_first())
        }
    } else {
        seq![s[0]] + dq_value(s.drop_first())
    }
}

/// The first position where `p` occurs in `s`.
pub open spec fn find_from(s: Seq<char>, p: Seq<char>, from: int) -> Option<int>
    decreases s.len() + 1 - from,
{
    if from < 0 || from + p.len() > s.len() {
        None
    } else if occurs_at(s, p, from) {
        Some(from)
    } else {
        find_from(s, p, from + 1)
    }
}

/// The value of an assignment's right-hand side (already trimmed).
pub open spec fn env_value(rest: Seq<char>) -> Seq<char> {
    if starts_with(rest, seq!['"']) {
        dq_value(rest.drop_first())
    } else if starts_with(rest, seq!['\'']) {
        let inner = rest.drop_first();
        match index_of(inner, '\'') {
            Some(end) => inner.take(end),
            None => inner,
        }
    } else {
        match find_from(rest, seq![' ', '#'], 0) {
            Some(i) => trim(rest.take(i)),
            None => trim(rest),
        }
    }
}

/// The entry of one line: none for a blank line, a `#` comment, a line
/// without `=` or with an empty key; otherwise the trimmed key and its
/// value.
pub open spec fn env_entry(raw: Seq<char>) -> Option<(Seq<char>, Seq<char>)> {
    let l = trim(raw);
    if l.len() == 0 || l[0] == '#' {
        None
    } else {
        match index_of(l, '=') {
            None => None,
            Some(eq) => {
                let key = trim(l.take(eq));
                if key.len() == 0 {
                    None
                } else {
                    Some((key, env_value(trim(l.skip(eq + 1)))))
                }
            },
        }
    }
}

pub open spec fn env_entries(ls: Seq<Seq<char>>) -> Seq<(Seq<char>, Seq<char>)>
    decreases ls.len(),
{
    if ls.len() == 0 {
        seq![]
    } else {
        env_entries(ls.drop_last()) + match env_entry(ls.last()) {
            Some(e) => seq![e],
            None => Seq::<(Seq<char>, Seq<char>)>::empty(),
        }
    }
}

/// The entries of a `.env` file, in order.
pub open spec fn dotenv(content: Seq<char>) -> Seq<(Seq<char>, Seq<char>)> {
    env_entries(lines(content))
}

fn dq_value_of(s: &Vec<char>) -> (r: Vec<char>)
    ensures
        r@ == dq_value(s@),
{
    let mut out: Vec<char> = Vec::new();
    let mut i: usize = 0;
    assert(s@.skip(0) =~= s@);
    while i < s.len()
        invariant
            i <= s@.len(),
            dq_value(s@) == out@ + dq_value(s@.skip(i as int)),
        decreases s.len() - i,
    {
        let c = s[i];
        let ghost rest = s@.skip(i as int);
        if c == '"' {
            assert(dq_value(rest) =~= Seq::<char>::empty());
            assert(out@ =~= out@ + Seq::<char>::empty());
            return out;
        } else if c == '\\' {
            if i + 1 < s.len() && (s[i + 1] == '"' || s[i + 1] == '\\') {
                out.push(s[i + 1]);
                assert(rest.skip(2) =~= s@.skip(i + 2));
                assert(rest[1] == s@[i + 1]);
                i += 2;
            } else {
                out.push('\\');
                assert(rest.drop_first() =~= s@.skip(i + 1));
                i += 1;
            }
        } else {
            out.push(c);
            assert(rest.drop_first() =~= s@.skip(i + 1));
            i += 1;
        }
    }
    assert(s@.skip(i as int).len() == 0);
    assert(out@ =~= out@ + Seq::<char>::empty());
    out
}

proof fn lemma_find_from(s: Seq<char>, p: Seq<char>, from: int, i: int)
    requires
        0 <= from <= i,
        i + p.len() <= s.len(),
        occurs_at(s, p, i),
        forall|k: int| from <= k < i ==> !occurs_at(s, p, k),
    ensures
        find_from(s, p, from) == Some(i),
    decreases i - from,
{
    if from < i {
        lemma_find_from(s, p, from + 1, i);
    }
}

proof fn lemma_find_from_none(s: Seq<char>, p: Seq<char>, from: int)
    requires
        0 <= from,
        forall|k: int| from <= k && k + p.len() <= s.len() ==> !occurs_at(s, p, k),
    ensures
        find_from(s, p, from) is None,
    decreases s.len() + 1 - from,
{
    if from + p.len() <= s.len() {
        lemma_find_from_none(s, p, from + 1);
    }
}

fn find_seq(s: &Vec<char>, p: &Vec<char>) -> (r: Option<usize>)
    requires
        p@.len() > 0,
    ensures
        r matches Some(i) ==> i + p@.len() <= s@.len() && find_from(s@, p@, 0) == Some(i as int),
        r is None ==> find_from(s@, p@, 0) is None,
{
    if p.len() > s.len() {
        proof {
            lemma_find_from_none(s@, p@, 0);
        }
        return None;
    }
    let last = s.len() - p.len();
    assert(s@.len() <= usize::MAX);
    let mut i: usize = 0;
    while i <= last
        invariant
            last == s@.len() - p@.len(),
            last + 1 <= s@.len(),
            s@.len() <= usize::MAX,
            p@.len() > 0,
            i <= last + 1,
            forall|k: int| 0 <= k < i ==> !occurs_at(s@, p@, k),
        decreases last + 1 - i,
    {
        if vec_occurs_at(s, p, i) {
            proof {
                lemma_find_from(s@, p@, 0, i as int);
            }
            return Some(i);
        }
        i += 1;
    }
    proof {
        lemma_find_from_none(s@, p@, 0);
    }
    None
}

fn env_value_of(rest: &Vec<char>) -> (r: Vec<char>)
    ensures
        r@ == env_value(rest@),
{
    if rest.len() > 0 && rest[0] == '"' {
        assert(starts_with(rest@, seq!['"'])) by {
            assert(rest@.subrange(0, 1) =~= seq!['"']);
        }
        let inner = crate::text::slice_chars(rest, 1, rest.len());
        assert(inner@ =~= rest@.drop_first());
        return dq_value_of(&inner);
    }
    assert(!starts_with(rest@, seq!['"'])) by {
        if rest@.len() > 0 {
            assert(rest@.subrange(0, 1)[0] == rest@[0]);
        }
    }
    if rest.len() > 0 && rest[0] == '\'' {
        assert(starts_with(rest@, seq!['\''])) by {
            assert(rest@.subrange(0, 1) =~= seq!['\'']);
        }
        let inner = crate::text::slice_chars(rest, 1, rest.len());
        assert(inner@ =~= rest@.drop_first());
        return match crate::text::find_char(&inner, '\'') {
            Some(end) => {
                proof {
                    lemma_index_of(inner@, '\'');
                }
                let v = crate::text::slice_chars(&inner, 0, end);
                assert(v@ =~= inner@.take(end as int));
                v
            },
            None => inner,
        };
    }
    assert(!starts_with(rest@, seq!['\''])) by {
        if rest@.len() > 0 {
            assert(rest@.subrange(0, 1)[0] == rest@[0]);
        }
    }
    let pat: Vec<char> = vec![' ', '#'];
    assert(pat@ =~= seq![' ', '#']);
    match find_seq(rest, &pat) {
        Some(i) => {
            let head = crate::text::slice_chars(rest, 0, i);
            assert(head@ =~= rest@.take(i as int));
            vec_trim(&head)
        },
        None => vec_trim(rest),
    }
}

fn env_entry_of(raw: &str) -> (r: Option<(String, String)>)
    ensures
        match env_entry(raw@) {
            Some((k, v)) => r matches Some(p) && p.0@ == k && p.1@ == v,
            None => r is None,
        },
{
    let l = vec_trim(&chars_of(raw));
    if l.len() == 0 || l[0] == '#' {
        return None;
    }
    let eq = match crate::text::find_char(&l, '=') {
        Some(e) => e,
        None => {
            return None;
        },
    };
    proof {
        lemma_index_of(l@, '=');
    }
    let head = crate::text::slice_chars(&l, 0, eq);
    assert(head@ =~= l@.take(eq as int));
    let key = vec_trim(&head);
    if key.len() == 0 {
        return None;
    }
    let tail = crate::text::slice_chars(&l, eq + 1, l.len());
    assert(tail@ =~= l@.skip(eq + 1));
    let rest = vec_trim(&tail);
    let value = env_value_of(&rest);
    Some((string_of(&key), string_of(&value)))
}

/// The `KEY=value` entries of a `.env` file, in order. Blank lines and
/// `#` comment lines are skipped, so are lines without `=` or with an empty
/// key. Keys and values are trimmed; a value may be double-quoted (with
/// `\"` and `\\` escapes), single-quoted (taken literally), or bare (a
/// ` #` comment after it dropped).
pub fn parse_dotenv(content: &str) -> (r: Vec<(String, String)>)
    ensures
        pair_views(r@) == dotenv(content@),
{
    let ls = split_lines(content);
    let mut out: Vec<(String, String)> = Vec::new();
    for i in 0..ls.len()
        invariant
            pair_views(out@) == env_entries(views(ls@).take(i as int)),
    {
        assert(views(ls@).take(i + 1).drop_last() =~= views(ls@).take(i as int));
        assert(views(ls@).take(i + 1).last() == ls@[i as int]@);
        let ghost before = out@;
        match env_entry_of(ls[i].as_str()) {
            Some(p) => {
                out.push(p);
                assert(pair_views(out@) =~= pair_views(before).push((p.0@, p.1@)));
            },
            None => {},
        }
        assert(pair_views(out@) =~= env_entries(views(ls@).take(i + 1)));
    }
    assert(views(ls@).take(ls@.len() as int) =~= views(ls@));
    out
}

/// Every entry has a non-empty key without surrounding white space.
pub proof fn law_dotenv_keys(content: Seq<char>, i: int)
    requires
        0 <= i < dotenv(content).len(),
    ensures
        dotenv(content)[i].0.len() > 0,
        trim(dotenv(content)[i].0) == dotenv(content)[i].0,
{
    lemma_entries_keys(lines(content), i);
}

proof fn lemma_entries_keys(ls: Seq<Seq<char>>, i: int)
    requires
        0 <= i < env_entries(ls).len(),
    ensures
        env_entries(ls)[i].0.len() > 0,
        trim(env_entries(ls)[i].0) == env_entries(ls)[i].0,
    decreases ls.len(),
{
    let prev = env_entries(ls.drop_last());
    if i < prev.len() {
        lemma_entries_keys(ls.drop_last(), i);
    } else {
        let l = trim(ls.last());
        let eq = index_of(l, '=')->0;
        crate::text::lemma_trim_idempotent(l.take(eq));
    }
}


/// An unquoted value is everything after the first `=` of the line,
/// trimmed, with any further `=` kept (`URL=a?b=c` has value `a?b=c`), as
/// long as it holds no ` #` comment.
pub proof fn law_env_value_after_first_eq(raw: Seq<char>, eq: int)
    requires
        0 <= eq < trim(raw).len(),
        trim(raw)[eq] == '=',
        forall|k: int| 0 <= k < eq ==> trim(raw)[k] != '=',
        trim(raw)[0] != '#',
        trim(trim(raw).take(eq)).len() > 0,
        ({
            let v = trim(trim(raw).skip(eq + 1));
            &&& v.len() > 0 ==> v[0] != '"' && v[0] != '\''
            &&& forall|k: int| 0 <= k < v.len() - 1 ==> !(#[trigger] v[k] == ' ' && v[k + 1] == '#')
        }),
    ensures
        env_entry(raw) == Some((trim(trim(raw).take(eq)), trim(trim(raw).skip(eq + 1)))),
{
    let l = trim(raw);
    let v = trim(l.skip(eq + 1));
    crate::text::lemma_index_of_unique(l, '=', eq);
    assert(!starts_with(v, seq!['"'])) by {
        if v.len() > 0 {
            assert(v.subrange(0, 1)[0] == v[0]);
        }
    }
    assert(!starts_with(v, seq!['\''])) by {
        if v.len() > 0 {
            assert(v.subrange(0, 1)[0] == v[0]);
        }
    }
    assert forall|k: int| 0 <= k && k + 2 <= v.len() implies !occurs_at(v, seq![' ', '#'], k) by {
        if occurs_at(v, seq![' ', '#'], k) {
            assert(v.subrange(k, k + 2)[0] == v[k]);
            assert(v.subrange(k, k + 2)[1] == v[k + 1]);
        }
    }
    lemma_find_from_none(v, seq![' ', '#'], 0);
    crate::text::lemma_trim_idempotent(l.skip(eq + 1));
}


/// An inline comment ends an unquoted value: for `a #comment` where `a`
/// holds no ` #`, the value is `a` trimmed.
pub proof fn law_env_inline_comment(a: Seq<char>, c: Seq<char>)
    requires
        a.len() == 0 || (a[0] != '"' && a[0] != '\''),
        forall|k: int| 0 <= k < a.len() - 1 ==> !(#[trigger] a[k] == ' ' && a[k + 1] == '#'),
    ensures
        env_value(a + seq![' ', '#'] + c) == trim(a),
{
    let v = a + seq![' ', '#'] + c;
    let p = seq![' ', '#'];
    assert(!starts_with(v, seq!['"']) && !starts_with(v, seq!['\''])) by {
        assert(v.subrange(0, 1)[0] == v[0]);
        if a.len() == 0 {
            assert(v[0] == ' ');
        } else {
            assert(v[0] == a[0]);
        }
    }
    assert(occurs_at(v, p, a.len() as int)) by {
        assert(v.subrange(a.len() as int, a.len() as int + 2) =~= p);
    }
    assert forall|k: int| 0 <= k < a.len() implies !occurs_at(v, p, k) by {
        if occurs_at(v, p, k) {
            assert(v.subrange(k, k + 2)[0] == v[k]);
            assert(v.subrange(k, k + 2)[1] == v[k + 1]);
            assert(v[k] == a[k]);
            if k + 1 < a.len() {
                assert(v[k + 1] == a[k + 1]);
            } else {
                assert(v[k + 1] == ' ');
            }
        }
    }
    lemma_find_from(v, p, 0, a.len() as int);
    assert(v.take(a.len() as int) =~= a);
}

proof fn lemma_dq_plain(s: Seq<char>, rest: Seq<char>)
    requires
        forall|k: int| 0 <= k < s.len() ==> #[trigger] s[k] != '"' && s[k] != '\\',
    ensures
        dq_value(s + seq!['"'] + rest) == s,
    decreases s.len(),
{
    let v = s + seq!['"'] + rest;
    if s.len() == 0 {
        assert(v[0] == '"');
        assert(dq_value(v) =~= s);
    } else {
        assert(v[0] == s[0]);
        assert(v.drop_first() =~= s.drop_first() + seq!['"'] + rest);
        lemma_dq_plain(s.drop_first(), rest);
        assert(seq![s[0]] + s.drop_first() =~= s);
    }
}

/// A double-quoted value without escapes is the text between its quotes,
/// spaces and `#` included; whatever follows the closing quote is dropped.
pub proof fn law_env_double_quoted(s: Seq<char>, rest: Seq<char>)
    requires
        forall|k: int| 0 <= k < s.len() ==> #[trigger] s[k] != '"' && s[k] != '\\',
    ensures
        env_value(seq!['"'] + s + seq!['"'] + rest) == s,
{
    let v = seq!['"'] + s + seq!['"'] + rest;
    assert(starts_with(v, seq!['"'])) by {
        assert(v.subrange(0, 1) =~= seq!['"']);
    }
    assert(v.drop_first() =~= s + seq!['"'] + rest);
    lemma_dq_plain(s, rest);
}

/// A single-quoted value is the text up to the next quote, taken as
/// written.
pub proof fn law_env_single_quoted(s: Seq<char>, rest: Seq<char>)
    requires
        forall|k: int| 0 <= k < s.len() ==> #[trigger] s[k] != '\'',
    ensures
        env_value(seq!['\''] + s + seq!['\''] + rest) == s,
{
    let v = seq!['\''] + s + seq!['\''] + rest;
    assert(!starts_with(v, seq!['"'])) by {
        assert(v.subrange(0, 1)[0] == v[0]);
    }
    assert(starts_with(v, seq!['\''])) by {
        assert(v.subrange(0, 1) =~= seq!['\'']);
    }
    let inner = v.drop_first();
    assert(inner =~= s + seq!['\''] + rest);
    assert(inner[s.len() as int] == '\'');
    assert forall|k: int| 0 <= k < s.len() implies inner[k] != '\'' by {
        assert(inner[k] == s[k]);
    }
    crate::text::lemma_index_of_unique(inner, '\'', s.len() as int);
    assert(inner.take(s.len() as int) =~= s);
}

} // verus!
