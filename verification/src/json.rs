//! JSON string literals, as `serde_json` writes them, and JSON documents
//! as `serde_json` reads them.

use vstd::prelude::*;

verus! {

/// Lowercase hexadecimal digit of `d < 16`.
pub open spec fn hex_digit(d: nat) -> char {
    if d < 10 {
        ((d + 48) as u8) as char
    } else {
        ((d - 10 + 97) as u8) as char
    }
}

/// The escape of one character inside a JSON string: `"` and `\` with a
/// backslash, the short forms `\b \t \n \f \r`, other control characters
/// below U+0020 as `\u00xx`; everything else verbatim.
pub open spec fn json_char(c: char) -> Seq<char> {
    if c == '"' {
        seq!['\\', '"']
    } else if c == '\\' {
        seq!['\\', '\\']
    } else if c == '\u{8}' {
        seq!['\\', 'b']
    } else if c == '\t' {
        seq!['\\', 't']
    } else if c == '\n' {
        seq!['\\', 'n']
    } else if c == '\u{c}' {
        seq!['\\', 'f']
    } else if c == '\r' {
        seq!['\\', 'r']
    } else if (c as u32) < 0x20 {
        seq!['\\', 'u', '0', '0', hex_digit((c as u32 / 16) as nat), hex_digit((c as u32 % 16) as nat)]
    } else {
        seq![c]
    }
}

pub open spec fn json_chars(s: Seq<char>) -> Seq<char>
    decreases s.len(),
{
    if s.len() == 0 {
        seq![]
    } else {
        json_chars(s.drop_last()) + json_char(s.last())
    }
}

/// A JSON string literal holding `s`.
pub open spec fn json_quoted(s: Seq<char>) -> Seq<char> {
    seq!['"'] + json_chars(s) + seq!['"']
}

/// `serde_json::to_string` of a string: per the crate's `format_escaped_str`
/// and its `ESCAPE` table, the string quoted, with `"`, `\`, the short
/// control escapes and `\u00xx` for other control characters.
#[verifier::external_body]
pub fn json_string(s: &str) -> (r: String)
    ensures
        r@ == json_quoted(s@),
{
    match serde_json::to_string(s) {
        Ok(v) => v,
        Err(_) => String::new(),
    }
}


/// A JSON value as read: a number is kept as its value when it is a
/// non-negative integer that fits a `u64` (what `Value::as_u64` gives),
/// an object as its entries in the order its map walks them (each key
/// once).
pub enum JsonView {
    Null,
    Bool(bool),
    Num(Option<u64>),
    Str(Seq<char>),
    Arr(Seq<JsonView>),
    Obj(Seq<(Seq<char>, JsonView)>),
}

/// The index of the entry with key `key` (the last such, though an
/// object holds each key once).
pub open spec fn obj_index(es: Seq<(Seq<char>, JsonView)>, key: Seq<char>) -> Option<int>
    decreases es.len(),
{
    if es.len() == 0 {
        None
    } else if es.last().0 == key {
        Some(es.len() - 1)
    } else {
        obj_index(es.drop_last(), key)
    }
}

/// The member of an object under `key`, none when it has no such key or is
/// not an object.
pub open spec fn member(v: JsonView, key: Seq<char>) -> Option<JsonView> {
    match v {
        JsonView::Obj(es) => match obj_index(es, key) {
            Some(i) => Some(es[i].1),
            None => None,
        },
        _ => None,
    }
}

pub proof fn lemma_obj_index(es: Seq<(Seq<char>, JsonView)>, key: Seq<char>)
    ensures
        obj_index(es, key) matches Some(i) ==> 0 <= i < es.len() && es[i].0 == key && forall|j: int|
            i < j < es.len() ==> es[j].0 != key,
        obj_index(es, key) is None ==> forall|j: int| 0 <= j < es.len() ==> es[j].0 != key,
    decreases es.len(),
{
    if es.len() > 0 {
        lemma_obj_index(es.drop_last(), key);
        assert forall|j: int| 0 <= j < es.len() - 1 implies es[j] == es.drop_last()[j] by {}
    }
}

#[verifier::external_type_specification]
#[verifier::external_body]
pub struct ExJsonValue(serde_json::Value);

/// What a `serde_json::Value` holds.
pub uninterp spec fn json_content(v: serde_json::Value) -> JsonView;

/// What `serde_json::from_str::<Value>` reads from a text, none when the
/// text is not one JSON document.
pub uninterp spec fn json_text_value(text: Seq<char>) -> Option<JsonView>;

/// What `serde_json::from_slice::<Value>` reads from bytes, none when they
/// are not one JSON document.
pub uninterp spec fn json_bytes_value(bytes: Seq<u8>) -> Option<JsonView>;

/// `serde_json::from_str` into a `Value`; its result is named, not spelled
/// out.
#[verifier::external_body]
pub(crate) fn parse_json_text(text: &str) -> (r: Option<serde_json::Value>)
    ensures
        match r {
            Some(v) => json_text_value(text@) == Some(json_content(v)),
            None => json_text_value(text@) is None,
        },
{
    serde_json::from_str::<serde_json::Value>(text).ok()
}

/// `serde_json::from_slice` into a `Value`; its result is named, not
/// spelled out.
#[verifier::external_body]
pub(crate) fn parse_json_bytes(bytes: &[u8]) -> (r: Option<serde_json::Value>)
    ensures
        match r {
            Some(v) => json_bytes_value(bytes@) == Some(json_content(v)),
            None => json_bytes_value(bytes@) is None,
        },
{
    serde_json::from_slice::<serde_json::Value>(bytes).ok()
}

/// `Value::get` with a key, cloned: the member of an object under that key,
/// none for a missing key or a value that is not an object.
#[verifier::external_body]
pub(crate) fn json_get(v: &serde_json::Value, key: &str) -> (r: Option<serde_json::Value>)
    ensures
        match member(json_content(*v), key@) {
            Some(x) => r matches Some(y) && json_content(y) == x,
            None => r is None,
        },
{
    v.get(key).cloned()
}

/// `Value::as_str`, owned: the text of a string value, none otherwise.
#[verifier::external_body]
pub(crate) fn json_as_str(v: &serde_json::Value) -> (r: Option<String>)
    ensures
        match json_content(*v) {
            JsonView::Str(s) => r matches Some(x) && x@ == s,
            _ => r is None,
        },
{
    v.as_str().map(|s| s.to_string())
}

/// `Value::as_u64`: a number that is a non-negative integer fitting a
/// `u64`, none otherwise.
#[verifier::external_body]
pub(crate) fn json_as_u64(v: &serde_json::Value) -> (r: Option<u64>)
    ensures
        r == match json_content(*v) {
            JsonView::Num(n) => n,
            _ => None,
        },
{
    v.as_u64()
}

/// `Value::as_array`, cloned: the items of an array value, none otherwise.
#[verifier::external_body]
pub(crate) fn json_as_array(v: &serde_json::Value) -> (r: Option<Vec<serde_json::Value>>)
    ensures
        match json_content(*v) {
            JsonView::Arr(s) => r matches Some(a) && a@.len() == s.len() && forall|i: int|
                0 <= i < s.len() ==> json_content(#[trigger] a@[i]) == s[i],
            _ => r is None,
        },
{
    v.as_array().cloned()
}

/// The text under `key` of an object, none when it is missing or not text.
pub open spec fn text_member(v: JsonView, key: Seq<char>) -> Option<Seq<char>> {
    match member(v, key) {
        Some(JsonView::Str(s)) => Some(s),
        _ => None,
    }
}

/// The `u64` under `key` of an object, none when it is missing or no such
/// number.
pub open spec fn u64_member(v: JsonView, key: Seq<char>) -> Option<u64> {
    match member(v, key) {
        Some(JsonView::Num(n)) => n,
        _ => None,
    }
}

/// The items of `items` that are two-string arrays, as pairs, in order.
pub open spec fn string_pairs(items: Seq<JsonView>) -> Seq<(Seq<char>, Seq<char>)>
    decreases items.len(),
{
    if items.len() == 0 {
        seq![]
    } else {
        let prev = string_pairs(items.drop_last());
        match items.last() {
            JsonView::Arr(p) => if p.len() == 2 && p[0] is Str && p[1] is Str {
                prev.push((p[0]->Str_0, p[1]->Str_0))
            } else {
                prev
            },
            _ => prev,
        }
    }
}

/// The header pairs under `key` of an object: its two-string items when it
/// is an array, none otherwise.
pub open spec fn pairs_member(v: JsonView, key: Seq<char>) -> Seq<(Seq<char>, Seq<char>)> {
    match member(v, key) {
        Some(JsonView::Arr(items)) => string_pairs(items),
        _ => seq![],
    }
}

pub(crate) fn text_member_of(v: &serde_json::Value, key: &str) -> (r: Option<String>)
    ensures
        match text_member(json_content(*v), key@) {
            Some(s) => r matches Some(x) && x@ == s,
            None => r is None,
        },
{
    match json_get(v, key) {
        Some(x) => json_as_str(&x),
        None => None,
    }
}

pub(crate) fn u64_member_of(v: &serde_json::Value, key: &str) -> (r: Option<u64>)
    ensures
        r == u64_member(json_content(*v), key@),
{
    match json_get(v, key) {
        Some(x) => json_as_u64(&x),
        None => None,
    }
}

pub open spec fn pair_views_of(v: Seq<(String, String)>) -> Seq<(Seq<char>, Seq<char>)> {
    v.map_values(|p: (String, String)| (p.0@, p.1@))
}

pub(crate) fn pairs_member_of(v: &serde_json::Value, key: &str) -> (r: Vec<(String, String)>)
    ensures
        pair_views_of(r@) == pairs_member(json_content(*v), key@),
{
    let mut out: Vec<(String, String)> = Vec::new();
    let items = match json_get(v, key) {
        Some(x) => match json_as_array(&x) {
            Some(a) => a,
            None => {
                assert(pair_views_of(out@) =~= Seq::<(Seq<char>, Seq<char>)>::empty());
                return out;
            },
        },
        None => {
            assert(pair_views_of(out@) =~= Seq::<(Seq<char>, Seq<char>)>::empty());
            return out;
        },
    };
    let ghost s = match member(json_content(*v), key@) {
        Some(JsonView::Arr(s)) => s,
        _ => seq![],
    };
    assert(items@.len() == s.len());
    for i in 0..items.len()
        invariant
            items@.len() == s.len(),
            forall|k: int| 0 <= k < s.len() ==> json_content(#[trigger] items@[k]) == s[k],
            pair_views_of(out@) == string_pairs(s.take(i as int)),
    {
        assert(s.take(i + 1).drop_last() =~= s.take(i as int));
        assert(s.take(i + 1).last() == s[i as int]);
        assert(json_content(items@[i as int]) == s[i as int]);
        let ghost before = out@;
        match json_as_array(&items[i]) {
            Some(p) => {
                if p.len() == 2 {
                    match (json_as_str(&p[0]), json_as_str(&p[1])) {
                        (Some(a), Some(b)) => {
                            out.push((a, b));
                            assert(pair_views_of(out@) =~= pair_views_of(before).push(
                                (out@.last().0@, out@.last().1@),
                            ));
                        },
                        _ => {},
                    }
                }
            },
            None => {},
        }
        assert(pair_views_of(out@) =~= string_pairs(s.take(i + 1)));
    }
    assert(s.take(s.len() as int) =~= s);
    out
}


/// `Value::as_object`, its entries cloned in the map's order: for an
/// object, each key once, with the member under it; none otherwise.
#[verifier::external_body]
pub(crate) fn json_as_object(v: &serde_json::Value) -> (r: Option<Vec<(String, serde_json::Value)>>)
    ensures
        match json_content(*v) {
            JsonView::Obj(m) => r matches Some(es) && es@.len() == m.len() && (forall|i: int|
                0 <= i < m.len() ==> (#[trigger] es@[i]).0@ == m[i].0 && json_content(es@[i].1) == m[i].1)
                && (forall|i: int, j: int| 0 <= i < j < m.len() ==> #[trigger] m[i].0 != #[trigger] m[j].0),
            _ => r is None,
        },
{
    v.as_object().map(|m| m.iter().map(|(k, x)| (k.clone(), x.clone())).collect())
}

} // verus!
