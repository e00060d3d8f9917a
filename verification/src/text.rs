//! Character-level string helpers with exact specifications over `Seq<char>`.

use vstd::prelude::*;
use vstd::string::*;
use vstd::std_specs::iter::IteratorSpec;

verus! {

broadcast use vstd::string::group_string_axioms;

/// The characters of `s`, in order.
pub fn chars_of(s: &str) -> (r: Vec<char>)
    ensures
        r@ == s@,
{
    let mut out: Vec<char> = Vec::new();
    for c in it: s.chars()
        invariant
            out@ == it.seq().take(it.index() as int),
            it.seq() == s@,
    {
        out.push(c);
    }
    out
}

/// Appends one character: `String::push`, whose documentation says it
/// appends the given char to the end of the string.
#[verifier::external_body]
pub fn push_char(out: &mut String, c: char)
    ensures
        final(out)@ == old(out)@.push(c),
{
    out.push(c);
}

/// Appends a string slice.
pub fn push_str(out: &mut String, s: &str)
    ensures
        final(out)@ == old(out)@ + s@,
{
    out.append(s);
}

/// Appends the characters of `v`.
pub fn push_chars(out: &mut String, v: &Vec<char>)
    ensures
        final(out)@ == old(out)@ + v@,
{
    let ghost start = out@;
    for i in 0..v.len()
        invariant
            out@ == start + v@.take(i as int),
    {
        push_char(out, v[i]);
        assert(v@.take(i + 1) =~= v@.take(i as int).push(v@[i as int]));
    }
    assert(v@.take(v@.len() as int) =~= v@);
}

/// A fresh string holding exactly the characters of `v`.
pub fn string_of(v: &Vec<char>) -> (r: String)
    ensures
        r@ == v@,
{
    let mut out = String::new();
    push_chars(&mut out, v);
    out
}

/// A fresh copy of a string slice.
pub fn owned(s: &str) -> (r: String)
    ensures
        r@ == s@,
{
    s.to_owned()
}

/// Decimal digit character of `d < 10`.
pub open spec fn digit(d: nat) -> char {
    if d == 0 { '0' }
    else if d == 1 { '1' }
    else if d == 2 { '2' }
    else if d == 3 { '3' }
    else if d == 4 { '4' }
    else if d == 5 { '5' }
    else if d == 6 { '6' }
    else if d == 7 { '7' }
    else if d == 8 { '8' }
    else { '9' }
}

/// Base-10 rendering of `n` without leading zeros (`"0"` for zero), as
/// `Display` prints unsigned integers.
pub open spec fn dec(n: nat) -> Seq<char>
    decreases n,
{
    if n < 10 {
        seq![digit(n)]
    } else {
        dec(n / 10).push(digit(n % 10))
    }
}

fn digit_char(d: u64) -> (c: char)
    requires
        d < 10,
    ensures
        c == digit(d as nat),
{
    if d == 0 { '0' }
    else if d == 1 { '1' }
    else if d == 2 { '2' }
    else if d == 3 { '3' }
    else if d == 4 { '4' }
    else if d == 5 { '5' }
    else if d == 6 { '6' }
    else if d == 7 { '7' }
    else if d == 8 { '8' }
    else { '9' }
}

/// Appends the decimal rendering of `n`.
pub fn push_dec(out: &mut String, n: u64)
    ensures
        final(out)@ == old(out)@ + dec(n as nat),
    decreases n,
{
    if n < 10 {
        push_char(out, digit_char(n));
        assert(dec(n as nat) =~= seq![digit(n as nat)]);
    } else {
        push_dec(out, n / 10);
        push_char(out, digit_char(n % 10));
    }
}

/// `s` repeated `n` times.
pub open spec fn repeat(s: Seq<char>, n: nat) -> Seq<char>
    decreases n,
{
    if n == 0 { seq![] } else { repeat(s, (n - 1) as nat) + s }
}

/// Appends `s` repeated `n` times (`str::repeat`).
pub fn push_repeat(out: &mut String, s: &str, n: usize)
    ensures
        final(out)@ == old(out)@ + repeat(s@, n as nat),
{
    let ghost start = out@;
    for i in 0..n
        invariant
            out@ == start + repeat(s@, i as nat),
    {
        push_str(out, s);
        assert(start + repeat(s@, i as nat) + s@ =~= start + repeat(s@, (i + 1) as nat));
    }
}

/// The character-level escapings used when text is embedded in generated
/// code or markup.
#[derive(Clone, Copy)]
pub enum Escape {
    /// HTML text and attribute values: `& < > ' "` as entities.
    Html,
    /// Inside a single-quoted JavaScript string: `\` and `'`.
    JsQuote,
    /// Inside a single-quoted JavaScript string, newlines included.
    JsQuoteNewline,
    /// XML character data: `& < > " '` as entities.
    Xml,
}

pub open spec fn escape_char(kind: Escape, c: char) -> Seq<char> {
    match kind {
        Escape::Html => {
            if c == '&' { "&amp;"@ }
            else if c == '<' { "&lt;"@ }
            else if c == '>' { "&gt;"@ }
            else if c == '\'' { "&#39;"@ }
            else if c == '"' { "&quot;"@ }
            else { seq![c] }
        },
        Escape::JsQuote => {
            if c == '\\' { "\\\\"@ }
            else if c == '\'' { "\\'"@ }
            else { seq![c] }
        },
        Escape::JsQuoteNewline => {
            if c == '\\' { "\\\\"@ }
            else if c == '\'' { "\\'"@ }
            else if c == '\n' { "\\n"@ }
            else { seq![c] }
        },
        Escape::Xml => {
            if c == '&' { "&amp;"@ }
            else if c == '<' { "&lt;"@ }
            else if c == '>' { "&gt;"@ }
            else if c == '"' { "&quot;"@ }
            else if c == '\'' { "&apos;"@ }
            else { seq![c] }
        },
    }
}

/// Every character of `s` replaced by its escape, in order.
pub open spec fn escaped(kind: Escape, s: Seq<char>) -> Seq<char>
    decreases s.len(),
{
    if s.len() == 0 {
        seq![]
    } else {
        escaped(kind, s.drop_last()) + escape_char(kind, s.last())
    }
}

fn push_escape_char(out: &mut String, kind: Escape, c: char)
    ensures
        final(out)@ == old(out)@ + escape_char(kind, c),
{
    match kind {
        Escape::Html => {
            if c == '&' { push_str(out, "&amp;") }
            else if c == '<' { push_str(out, "&lt;") }
            else if c == '>' { push_str(out, "&gt;") }
            else if c == '\'' { push_str(out, "&#39;") }
            else if c == '"' { push_str(out, "&quot;") }
            else { push_char(out, c); assert(out@ =~= old(out)@ + seq![c]); }
        },
        Escape::JsQuote => {
            if c == '\\' { push_str(out, "\\\\") }
            else if c == '\'' { push_str(out, "\\'") }
            else { push_char(out, c); assert(out@ =~= old(out)@ + seq![c]); }
        },
        Escape::JsQuoteNewline => {
            if c == '\\' { push_str(out, "\\\\") }
            else if c == '\'' { push_str(out, "\\'") }
            else if c == '\n' { push_str(out, "\\n") }
            else { push_char(out, c); assert(out@ =~= old(out)@ + seq![c]); }
        },
        Escape::Xml => {
            if c == '&' { push_str(out, "&amp;") }
            else if c == '<' { push_str(out, "&lt;") }
            else if c == '>' { push_str(out, "&gt;") }
            else if c == '"' { push_str(out, "&quot;") }
            else if c == '\'' { push_str(out, "&apos;") }
            else { push_char(out, c); assert(out@ =~= old(out)@ + seq![c]); }
        },
    }
}

/// Appends `s` with every character escaped.
pub fn push_escaped(out: &mut String, s: &str, kind: Escape)
    ensures
        final(out)@ == old(out)@ + escaped(kind, s@),
{
    let cs = chars_of(s);
    let ghost start = out@;
    for i in 0..cs.len()
        invariant
            cs@ == s@,
            out@ == start + escaped(kind, cs@.take(i as int)),
    {
        push_escape_char(out, kind, cs[i]);
        assert(cs@.take(i + 1).drop_last() =~= cs@.take(i as int));
    }
    assert(cs@.take(cs@.len() as int) =~= cs@);
}

/// A fresh escaped copy of `s`.
pub fn escape(s: &str, kind: Escape) -> (r: String)
    ensures
        r@ == escaped(kind, s@),
{
    let mut out = String::new();
    push_escaped(&mut out, s, kind);
    out
}

/// What `char::is_uppercase` answers for `c` (the Unicode `Uppercase`
/// property).
pub uninterp spec fn unicode_is_uppercase(c: char) -> bool;

/// What `str::to_lowercase` returns for `s` (full Unicode lowercase
/// mapping).
pub uninterp spec fn unicode_to_lowercase(s: Seq<char>) -> Seq<char>;

/// What `char::to_uppercase`, collected into a string, returns for `c`.
pub uninterp spec fn unicode_char_to_uppercase(c: char) -> Seq<char>;

/// `char::is_uppercase`; its result is the Unicode property, named
/// `unicode_is_uppercase` and not spelled out here, beyond what its
/// documentation shows of ASCII: `A`..`Z` have it, `a`..`z` do not.
#[verifier::external_body]
pub fn char_is_uppercase(c: char) -> (r: bool)
    ensures
        r == unicode_is_uppercase(c),
        'A' <= c <= 'Z' ==> r,
        'a' <= c <= 'z' ==> !r,
{
    c.is_uppercase()
}

/// All characters of `s` are ASCII.
pub open spec fn all_ascii(s: Seq<char>) -> bool {
    forall|i: int| 0 <= i < s.len() ==> (#[trigger] s[i] as u32) < 128
}

/// ASCII upper-case letters lower-cased, every other character kept.
pub open spec fn ascii_lowered(s: Seq<char>) -> Seq<char> {
    s.map_values(|c: char| if 'A' <= c && c <= 'Z' { ((c as u32) + 32) as char } else { c })
}

/// `str::to_lowercase`; its result is named `unicode_to_lowercase`, and
/// for ASCII text it is what its documentation shows: `A`..`Z` become
/// `a`..`z`, everything else is kept.
#[verifier::external_body]
pub fn to_lowercase(s: &str) -> (r: String)
    ensures
        r@ == unicode_to_lowercase(s@),
        all_ascii(s@) ==> r@ == ascii_lowered(s@),
{
    s.to_lowercase()
}

/// `char::to_uppercase`, collected into a `String`; its result is named
/// `unicode_char_to_uppercase`.
#[verifier::external_body]
pub fn char_to_uppercase(c: char) -> (r: String)
    ensures
        r@ == unicode_char_to_uppercase(c),
{
    c.to_uppercase().collect::<String>()
}

/// Equality of two string slices by their characters.
pub fn str_eq(a: &str, b: &str) -> (r: bool)
    ensures
        r == (a@ == b@),
{
    let x = owned(a);
    let y = owned(b);
    x == y
}

/// Equality of two character vectors.
pub fn chars_eq(a: &Vec<char>, b: &Vec<char>) -> (r: bool)
    ensures
        r == (a@ == b@),
{
    if a.len() != b.len() {
        return false;
    }
    for i in 0..a.len()
        invariant
            a@.len() == b@.len(),
            forall|k: int| 0 <= k < i ==> a@[k] == b@[k],
    {
        if a[i] != b[i] {
            return false;
        }
    }
    assert(a@ =~= b@);
    true
}

/// The characters `v[i..j]`.
pub fn slice_chars(v: &Vec<char>, i: usize, j: usize) -> (r: Vec<char>)
    requires
        i <= j <= v@.len(),
    ensures
        r@ == v@.subrange(i as int, j as int),
{
    let mut out: Vec<char> = Vec::new();
    let mut k = i;
    while k < j
        invariant
            i <= k <= j <= v@.len(),
            out@ == v@.subrange(i as int, k as int),
        decreases j - k,
    {
        out.push(v[k]);
        k += 1;
        assert(out@ =~= v@.subrange(i as int, k as int));
    }
    out
}

/// `p` is a prefix of `s`.
pub open spec fn starts_with(s: Seq<char>, p: Seq<char>) -> bool {
    p.len() <= s.len() && s.subrange(0, p.len() as int) == p
}

/// `p` is a suffix of `s`.
pub open spec fn ends_with(s: Seq<char>, p: Seq<char>) -> bool {
    p.len() <= s.len() && s.subrange(s.len() - p.len(), s.len() as int) == p
}

pub fn vec_starts_with(s: &Vec<char>, p: &Vec<char>) -> (r: bool)
    ensures
        r == starts_with(s@, p@),
{
    if p.len() > s.len() {
        return false;
    }
    for i in 0..p.len()
        invariant
            p@.len() <= s@.len(),
            forall|k: int| 0 <= k < i ==> s@[k] == p@[k],
    {
        if s[i] != p[i] {
            assert(s@.subrange(0, p@.len() as int)[i as int] != p@[i as int]);
            return false;
        }
    }
    assert(s@.subrange(0, p@.len() as int) =~= p@);
    true
}

pub fn vec_ends_with(s: &Vec<char>, p: &Vec<char>) -> (r: bool)
    ensures
        r == ends_with(s@, p@),
{
    if p.len() > s.len() {
        return false;
    }
    let off = s.len() - p.len();
    for i in 0..p.len()
        invariant
            p@.len() <= s@.len(),
            off == s@.len() - p@.len(),
            off + p.len() == s.len(),
            forall|k: int| 0 <= k < i ==> s@[off + k] == p@[k],
    {
        if s[off + i] != p[i] {
            assert(s@.subrange(off as int, s@.len() as int)[i as int] != p@[i as int]);
            return false;
        }
    }
    assert(s@.subrange(off as int, s@.len() as int) =~= p@);
    true
}

/// `str::starts_with` with a string pattern.
pub fn str_starts_with(s: &str, p: &str) -> (r: bool)
    ensures
        r == starts_with(s@, p@),
{
    vec_starts_with(&chars_of(s), &chars_of(p))
}

/// `str::ends_with` with a string pattern.
pub fn str_ends_with(s: &str, p: &str) -> (r: bool)
    ensures
        r == ends_with(s@, p@),
{
    vec_ends_with(&chars_of(s), &chars_of(p))
}

/// Index of the first occurrence of `c` in `s`.
pub open spec fn index_of(s: Seq<char>, c: char) -> Option<int>
    decreases s.len(),
{
    if s.len() == 0 {
        None
    } else if s[0] == c {
        Some(0)
    } else {
        match index_of(s.drop_first(), c) {
            Some(i) => Some(i + 1),
            None => None,
        }
    }
}

/// `index_of` finds the first occurrence of `c`, if any.
pub proof fn lemma_index_of(s: Seq<char>, c: char)
    ensures
        index_of(s, c) matches Some(i) ==> 0 <= i < s.len() && s[i] == c && forall|k: int|
            0 <= k < i ==> s[k] != c,
        index_of(s, c) is None ==> forall|k: int| 0 <= k < s.len() ==> s[k] != c,
    decreases s.len(),
{
    if s.len() > 0 && s[0] != c {
        lemma_index_of(s.drop_first(), c);
        if let Some(i) = index_of(s.drop_first(), c) {
            assert forall|k: int| 0 <= k < i + 1 implies s[k] != c by {
                if k > 0 {
                    assert(s[k] == s.drop_first()[k - 1]);
                }
            }
        } else {
            assert forall|k: int| 0 <= k < s.len() implies s[k] != c by {
                if k > 0 {
                    assert(s[k] == s.drop_first()[k - 1]);
                }
            }
        }
    }
}

/// The first occurrence of `c` is the one `index_of` gives.
pub proof fn lemma_index_of_unique(s: Seq<char>, c: char, i: int)
    requires
        0 <= i < s.len(),
        s[i] == c,
        forall|k: int| 0 <= k < i ==> s[k] != c,
    ensures
        index_of(s, c) == Some(i),
    decreases s.len(),
{
    if i > 0 {
        assert forall|k: int| 0 <= k < i - 1 implies s.drop_first()[k] != c by {
            assert(s.drop_first()[k] == s[k + 1]);
        }
        lemma_index_of_unique(s.drop_first(), c, i - 1);
    }
}

/// First position of `c` in `v` (`str::find` with a char pattern, counted
/// in characters).
pub fn find_char(v: &Vec<char>, c: char) -> (r: Option<usize>)
    ensures
        r matches Some(i) ==> index_of(v@, c) == Some(i as int),
        r is None ==> index_of(v@, c) is None,
{
    for i in 0..v.len()
        invariant
            forall|k: int| 0 <= k < i ==> v@[k] != c,
    {
        if v[i] == c {
            proof { lemma_index_of_unique(v@, c, i as int); }
            return Some(i);
        }
    }
    proof { lemma_index_of(v@, c); }
    None
}

/// Unicode `White_Space`, the property `char::is_whitespace` and
/// `str::trim` use.
pub open spec fn is_ws(c: char) -> bool {
    ||| ('\u{9}' <= c && c <= '\u{d}')
    ||| c == ' '
    ||| c == '\u{85}'
    ||| c == '\u{a0}'
    ||| c == '\u{1680}'
    ||| ('\u{2000}' <= c && c <= '\u{200a}')
    ||| c == '\u{2028}'
    ||| c == '\u{2029}'
    ||| c == '\u{202f}'
    ||| c == '\u{205f}'
    ||| c == '\u{3000}'
}

pub fn char_is_ws(c: char) -> (r: bool)
    ensures
        r == is_ws(c),
{
    ('\u{9}' <= c && c <= '\u{d}') || c == ' ' || c == '\u{85}' || c == '\u{a0}' || c == '\u{1680}'
        || ('\u{2000}' <= c && c <= '\u{200a}') || c == '\u{2028}' || c == '\u{2029}' || c
        == '\u{202f}' || c == '\u{205f}' || c == '\u{3000}'
}

/// `s` without leading white space.
pub open spec fn trim_start(s: Seq<char>) -> Seq<char>
    decreases s.len(),
{
    if s.len() > 0 && is_ws(s[0]) { trim_start(s.drop_first()) } else { s }
}

/// `s` without trailing white space.
pub open spec fn trim_end(s: Seq<char>) -> Seq<char>
    decreases s.len(),
{
    if s.len() > 0 && is_ws(s.last()) { trim_end(s.drop_last()) } else { s }
}

/// `str::trim`.
pub open spec fn trim(s: Seq<char>) -> Seq<char> {
    trim_end(trim_start(s))
}

proof fn lemma_trim_start_shape(s: Seq<char>)
    ensures
        trim_start(s).len() == 0 || !is_ws(trim_start(s)[0]),
    decreases s.len(),
{
    if s.len() > 0 && is_ws(s[0]) {
        lemma_trim_start_shape(s.drop_first());
    }
}

proof fn lemma_trim_end_shape(s: Seq<char>)
    ensures
        trim_end(s).len() <= s.len(),
        trim_end(s) == s.take(trim_end(s).len() as int),
        trim_end(s).len() == 0 || !is_ws(trim_end(s).last()),
    decreases s.len(),
{
    if s.len() > 0 && is_ws(s.last()) {
        lemma_trim_end_shape(s.drop_last());
        assert(s.drop_last().take(trim_end(s).len() as int) =~= s.take(trim_end(s).len() as int));
    } else {
        assert(s.take(s.len() as int) =~= s);
    }
}

/// Trimming twice is trimming once.
pub proof fn lemma_trim_idempotent(s: Seq<char>)
    ensures
        trim(trim(s)) == trim(s),
{
    let a = trim_start(s);
    let t = trim_end(a);
    lemma_trim_start_shape(s);
    lemma_trim_end_shape(a);
    if t.len() > 0 {
        assert(t[0] == a[0]);
        assert(trim_start(t) == t);
        assert(trim_end(t) == t);
    } else {
        assert(trim_start(t) == t);
    }
}

pub fn vec_trim_start(v: &Vec<char>) -> (r: Vec<char>)
    ensures
        r@ == trim_start(v@),
{
    let mut i: usize = 0;
    assert(v@.subrange(0, v@.len() as int) =~= v@);
    while i < v.len() && char_is_ws(v[i])
        invariant
            i <= v@.len(),
            trim_start(v@) == trim_start(v@.subrange(i as int, v@.len() as int)),
        decreases v.len() - i,
    {
        assert(v@.subrange(i as int, v@.len() as int).drop_first() =~= v@.subrange(
            i + 1,
            v@.len() as int,
        ));
        i += 1;
    }
    let r = slice_chars(v, i, v.len());
    r
}

pub fn vec_trim_end(v: &Vec<char>) -> (r: Vec<char>)
    ensures
        r@ == trim_end(v@),
{
    let mut j: usize = v.len();
    assert(v@.subrange(0, v@.len() as int) =~= v@);
    while j > 0 && char_is_ws(v[j - 1])
        invariant
            j <= v@.len(),
            trim_end(v@) == trim_end(v@.subrange(0, j as int)),
        decreases j,
    {
        assert(v@.subrange(0, j as int).drop_last() =~= v@.subrange(0, j - 1));
        j -= 1;
    }
    slice_chars(v, 0, j)
}

pub fn vec_trim(v: &Vec<char>) -> (r: Vec<char>)
    ensures
        r@ == trim(v@),
{
    vec_trim_end(&vec_trim_start(v))
}

/// `s` with every trailing repetition of the non-empty pattern `p` removed
/// (`str::trim_end_matches`; an empty pattern removes nothing).
pub open spec fn trim_end_matches(s: Seq<char>, p: Seq<char>) -> Seq<char>
    decreases s.len(),
{
    if p.len() > 0 && ends_with(s, p) {
        trim_end_matches(s.subrange(0, s.len() - p.len()), p)
    } else {
        s
    }
}

pub fn vec_trim_end_matches(v: &Vec<char>, p: &Vec<char>) -> (r: Vec<char>)
    ensures
        r@ == trim_end_matches(v@, p@),
    decreases v@.len(),
{
    if p.len() > 0 && vec_ends_with(v, p) {
        let shorter = slice_chars(v, 0, v.len() - p.len());
        vec_trim_end_matches(&shorter, p)
    } else {
        slice_chars(v, 0, v.len())
    }
}

/// `p` occurs in `s` at position `i`.
pub open spec fn occurs_at(s: Seq<char>, p: Seq<char>, i: int) -> bool {
    0 <= i && i + p.len() <= s.len() && s.subrange(i, i + p.len()) == p
}

/// `str::contains` with a string pattern.
pub open spec fn contains(s: Seq<char>, p: Seq<char>) -> bool {
    exists|i: int| occurs_at(s, p, i)
}

pub fn vec_occurs_at(s: &Vec<char>, p: &Vec<char>, i: usize) -> (r: bool)
    ensures
        r == occurs_at(s@, p@, i as int),
{
    if i > s.len() || p.len() > s.len() - i {
        return false;
    }
    for k in 0..p.len()
        invariant
            i + p.len() <= s.len(),
            forall|m: int| 0 <= m < k ==> s@[i + m] == p@[m],
    {
        assert(i + k < s.len());
        if s[i + k] != p[k] {
            assert(s@.subrange(i as int, i + p@.len())[k as int] != p@[k as int]);
            return false;
        }
    }
    assert(s@.subrange(i as int, i + p@.len()) =~= p@);
    true
}

pub fn vec_contains(s: &Vec<char>, p: &Vec<char>) -> (r: bool)
    ensures
        r == contains(s@, p@),
{
    if p.len() > s.len() {
        assert forall|i: int| !occurs_at(s@, p@, i) by {}
        return false;
    }
    let last = s.len() - p.len();
    for i in 0..last
        invariant
            last == s@.len() - p@.len(),
            forall|k: int| 0 <= k < i ==> !occurs_at(s@, p@, k),
    {
        if vec_occurs_at(s, p, i) {
            return true;
        }
    }
    if vec_occurs_at(s, p, last) {
        return true;
    }
    assert forall|k: int| !occurs_at(s@, p@, k) by {
        if 0 <= k && k < last {
        }
    }
    false
}

/// `parts` joined with `sep` between consecutive parts.
pub open spec fn join(parts: Seq<Seq<char>>, sep: Seq<char>) -> Seq<char>
    decreases parts.len(),
{
    if parts.len() == 0 {
        seq![]
    } else if parts.len() == 1 {
        parts[0]
    } else {
        join(parts.drop_last(), sep) + sep + parts.last()
    }
}

/// The views of a vector of strings.
pub open spec fn views(v: Seq<String>) -> Seq<Seq<char>> {
    v.map_values(|s: String| s@)
}

/// Appends `parts` joined with `sep`.
pub fn push_join(out: &mut String, parts: &Vec<String>, sep: &str)
    ensures
        final(out)@ == old(out)@ + join(views(parts@), sep@),
{
    let ghost start = out@;
    for i in 0..parts.len()
        invariant
            out@ == start + join(views(parts@.take(i as int)), sep@),
    {
        let ghost prev = views(parts@.take(i as int));
        assert(views(parts@.take(i + 1)).drop_last() =~= prev);
        if i > 0 {
            push_str(out, sep);
        }
        push_str(out, parts[i].as_str());
        assert(views(parts@.take(i + 1)).last() == parts@[i as int]@);
        if i == 0 {
            assert(join(views(parts@.take(1)), sep@) == views(parts@.take(1))[0]);
            assert(out@ =~= start + join(views(parts@.take(i + 1)), sep@));
        } else {
            assert(out@ =~= start + join(views(parts@.take(i + 1)), sep@));
        }
    }
    assert(parts@.take(parts@.len() as int) =~= parts@);
}

/// A line without its carriage return (`\r\n` endings).
pub open spec fn strip_cr(l: Seq<char>) -> Seq<char> {
    if l.len() > 0 && l.last() == '\r' { l.drop_last() } else { l }
}

/// `str::lines`: split at `\n` (a `\r` before it dropped); no empty line
/// after a final newline.
pub open spec fn lines(s: Seq<char>) -> Seq<Seq<char>>
    decreases s.len(),
{
    if s.len() == 0 {
        seq![]
    } else {
        match index_of(s, '\n') {
            None => seq![s],
            Some(i) => {
                if 0 <= i < s.len() {
                    seq![strip_cr(s.take(i))] + lines(s.skip(i + 1))
                } else {
                    seq![]
                }
            },
        }
    }
}

fn strip_cr_vec(v: Vec<char>) -> (r: Vec<char>)
    ensures
        r@ == strip_cr(v@),
{
    let mut v = v;
    if v.len() > 0 && v[v.len() - 1] == '\r' {
        v.pop();
    }
    v
}

/// The lines of `s`.
pub fn split_lines(s: &str) -> (r: Vec<String>)
    ensures
        views(r@) == lines(s@),
{
    let cs = chars_of(s);
    let mut out: Vec<String> = Vec::new();
    let mut start: usize = 0;
    let mut i: usize = 0;
    assert(cs@.skip(0) =~= cs@);
    while i < cs.len()
        invariant
            cs@ == s@,
            start <= i <= cs@.len(),
            lines(s@) == views(out@) + lines(cs@.skip(start as int)),
            forall|k: int| start <= k < i ==> cs@[k] != '\n',
        decreases cs.len() - i,
    {
        if cs[i] == '\n' {
            let ghost rest = cs@.skip(start as int);
            proof {
                assert forall|k: int| 0 <= k < i - start implies rest[k] != '\n' by {
                    assert(rest[k] == cs@[start + k]);
                }
                lemma_index_of_unique(rest, '\n', i - start);
                assert(rest.take(i - start) =~= cs@.subrange(start as int, i as int));
                assert(rest.skip(i - start + 1) =~= cs@.skip(i + 1));
            }
            let l = strip_cr_vec(slice_chars(&cs, start, i));
            let ghost before = out@;
            out.push(string_of(&l));
            assert(views(out@) =~= views(before).push(l@));
            assert(views(out@) + lines(cs@.skip(i + 1)) =~= views(before) + (seq![l@] + lines(
                cs@.skip(i + 1),
            )));
            start = i + 1;
        }
        i += 1;
    }
    if start < cs.len() {
        let ghost rest = cs@.skip(start as int);
        proof {
            assert forall|k: int| 0 <= k < rest.len() implies rest[k] != '\n' by {
                assert(rest[k] == cs@[start + k]);
            }
            lemma_index_of(rest, '\n');
            if index_of(rest, '\n') is Some {
                let j = index_of(rest, '\n')->0;
                assert(rest[j] == '\n');
            }
        }
        let l = slice_chars(&cs, start, cs.len());
        assert(l@ =~= rest);
        let ghost before = out@;
        out.push(string_of(&l));
        assert(views(out@) =~= views(before).push(l@));
        assert(views(out@) =~= views(before) + lines(rest));
    } else {
        assert(cs@.skip(start as int).len() == 0);
        assert(views(out@) + lines(cs@.skip(start as int)) =~= views(out@));
    }
    out
}

} // verus!
