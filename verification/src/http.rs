//! The dev server's request-independent pieces: content types, status
//! texts, base64 for request and response bodies, and confinement of
//! static paths to the output directory.

use vstd::prelude::*;
use crate::paths::{is_junk, split, split_on};
use crate::text::{chars_of, ends_with, join, owned, push_char, push_join, push_str, str_eq, views};

verus! {

broadcast use vstd::string::group_string_axioms;

/// The content type served for a file extension; `text/plain` for any
/// other.
pub open spec fn mime_of(ext: Seq<char>) -> Seq<char> {
    if ext == "html"@ {
        "text/html"@
    } else if ext == "js"@ || ext == "mjs"@ {
        "application/javascript"@
    } else if ext == "json"@ {
        "application/json"@
    } else if ext == "css"@ {
        "text/css"@
    } else if ext == "png"@ {
        "image/png"@
    } else if ext == "jpg"@ || ext == "jpeg"@ {
        "image/jpeg"@
    } else if ext == "svg"@ {
        "image/svg+xml"@
    } else if ext == "ico"@ {
        "image/x-icon"@
    } else if ext == "webp"@ {
        "image/webp"@
    } else if ext == "gif"@ {
        "image/gif"@
    } else {
        "text/plain"@
    }
}

pub fn mime_for_ext(ext: &str) -> (r: &'static str)
    ensures
        r@ == mime_of(ext@),
{
    if str_eq(ext, "html") {
        "text/html"
    } else if str_eq(ext, "js") || str_eq(ext, "mjs") {
        "application/javascript"
    } else if str_eq(ext, "json") {
        "application/json"
    } else if str_eq(ext, "css") {
        "text/css"
    } else if str_eq(ext, "png") {
        "image/png"
    } else if str_eq(ext, "jpg") || str_eq(ext, "jpeg") {
        "image/jpeg"
    } else if str_eq(ext, "svg") {
        "image/svg+xml"
    } else if str_eq(ext, "ico") {
        "image/x-icon"
    } else if str_eq(ext, "webp") {
        "image/webp"
    } else if str_eq(ext, "gif") {
        "image/gif"
    } else {
        "text/plain"
    }
}

/// The reason phrase written after a status code; `Status` for codes the
/// server does not name.
pub open spec fn status_text(status: u64) -> Seq<char> {
    if status == 200 {
        "OK"@
    } else if status == 201 {
        "Created"@
    } else if status == 202 {
        "Accepted"@
    } else if status == 204 {
        "No Content"@
    } else if status == 400 {
        "Bad Request"@
    } else if status == 401 {
        "Unauthorized"@
    } else if status == 403 {
        "Forbidden"@
    } else if status == 404 {
        "Not Found"@
    } else if status == 405 {
        "Method Not Allowed"@
    } else if status == 409 {
        "Conflict"@
    } else if status == 422 {
        "Unprocessable Entity"@
    } else if status == 429 {
        "Too Many Requests"@
    } else if status == 500 {
        "Internal Server Error"@
    } else if status == 502 {
        "Bad Gateway"@
    } else if status == 503 {
        "Service Unavailable"@
    } else {
        "Status"@
    }
}

pub fn http_status_text(status: u64) -> (r: &'static str)
    ensures
        r@ == status_text(status),
{
    match status {
        200 => "OK",
        201 => "Created",
        202 => "Accepted",
        204 => "No Content",
        400 => "Bad Request",
        401 => "Unauthorized",
        403 => "Forbidden",
        404 => "Not Found",
        405 => "Method Not Allowed",
        409 => "Conflict",
        422 => "Unprocessable Entity",
        429 => "Too Many Requests",
        500 => "Internal Server Error",
        502 => "Bad Gateway",
        503 => "Service Unavailable",
        _ => "Status",
    }
}

/// The base64 digit of a sextet `v < 64` (standard alphabet).
pub open spec fn b64_digit(v: int) -> char {
    if v < 26 {
        ('A' as int + v) as char
    } else if v < 52 {
        ('a' as int + (v - 26)) as char
    } else if v < 62 {
        ('0' as int + (v - 52)) as char
    } else if v == 62 {
        '+'
    } else {
        '/'
    }
}

/// One group of output: the 24-bit value of the chunk cut into four
/// sextets, `=` in place of the digits a short chunk does not have.
pub open spec fn b64_group(b0: u8, b1: u8, b2: u8, n: int) -> Seq<char> {
    let t = b0 * 65536 + b1 * 256 + b2;
    seq![
        b64_digit(t / 262144 % 64),
        b64_digit(t / 4096 % 64),
        if n > 1 { b64_digit(t / 64 % 64) } else { '=' },
        if n > 2 { b64_digit(t % 64) } else { '=' },
    ]
}

/// Standard padded base64 of `data`.
pub open spec fn b64_encode(data: Seq<u8>) -> Seq<char>
    decreases data.len(),
{
    if data.len() == 0 {
        seq![]
    } else if data.len() == 1 {
        b64_group(data[0], 0, 0, 1)
    } else if data.len() == 2 {
        b64_group(data[0], data[1], 0, 2)
    } else {
        b64_group(data[0], data[1], data[2], 3) + b64_encode(data.skip(3))
    }
}

fn digit_of(v: u32) -> (c: char)
    requires
        v < 64,
    ensures
        c == b64_digit(v as int),
{
    if v < 26 {
        ((65 + v) as u8) as char
    } else if v < 52 {
        ((97 + (v - 26)) as u8) as char
    } else if v < 62 {
        ((48 + (v - 52)) as u8) as char
    } else if v == 62 {
        '+'
    } else {
        '/'
    }
}

fn encode_group(out: &mut String, b0: u8, b1: u8, b2: u8, n: usize)
    requires
        1 <= n <= 3,
    ensures
        final(out)@ == old(out)@ + b64_group(b0, b1, b2, n as int),
{
    let triple: u32 = ((b0 as u32) << 16) | ((b1 as u32) << 8) | (b2 as u32);
    assert(triple == b0 * 65536 + b1 * 256 + b2) by (bit_vector)
        requires
            triple == ((b0 as u32) << 16) | ((b1 as u32) << 8) | (b2 as u32),
    ;
    assert((triple >> 18) & 63 == triple / 262144 % 64) by (bit_vector);
    assert((triple >> 12) & 63 == triple / 4096 % 64) by (bit_vector);
    assert((triple >> 6) & 63 == triple / 64 % 64) by (bit_vector);
    assert(triple & 63 == triple % 64) by (bit_vector);
    push_char(out, digit_of((triple >> 18) & 63));
    push_char(out, digit_of((triple >> 12) & 63));
    if n > 1 {
        push_char(out, digit_of((triple >> 6) & 63));
    } else {
        push_char(out, '=');
    }
    if n > 2 {
        push_char(out, digit_of(triple & 63));
    } else {
        push_char(out, '=');
    }
    assert(out@ =~= old(out)@ + b64_group(b0, b1, b2, n as int));
}

/// Standard padded base64 (`A-Z a-z 0-9 + /`, `=` padding).
pub fn base64_encode(data: &[u8]) -> (r: String)
    ensures
        r@ == b64_encode(data@),
{
    let mut out = String::new();
    let mut i: usize = 0;
    assert(data@.skip(0) =~= data@);
    while i < data.len()
        invariant
            i <= data@.len(),
            b64_encode(data@) == out@ + b64_encode(data@.skip(i as int)),
        decreases data.len() - i,
    {
        let rest = data.len() - i;
        let ghost tail = data@.skip(i as int);
        if rest == 1 {
            encode_group(&mut out, data[i], 0, 0, 1);
            i = data.len();
            assert(data@.skip(i as int).len() == 0);
        } else if rest == 2 {
            encode_group(&mut out, data[i], data[i + 1], 0, 2);
            i = data.len();
            assert(data@.skip(i as int).len() == 0);
        } else {
            encode_group(&mut out, data[i], data[i + 1], data[i + 2], 3);
            assert(tail.skip(3) =~= data@.skip(i + 3));
            i = i + 3;
        }
    }
    assert(data@.skip(i as int).len() == 0);
    assert(out@ =~= b64_encode(data@));
    out
}

/// The sextet of a base64 digit; none for other characters.
pub open spec fn b64_value(c: char) -> Option<u32> {
    if 'A' <= c && c <= 'Z' {
        Some((c as u32 - 'A' as u32) as u32)
    } else if 'a' <= c && c <= 'z' {
        Some((c as u32 - 'a' as u32 + 26) as u32)
    } else if '0' <= c && c <= '9' {
        Some((c as u32 - '0' as u32 + 52) as u32)
    } else if c == '+' {
        Some(62)
    } else if c == '/' {
        Some(63)
    } else {
        None
    }
}

/// The sextets of `s`: digits in order, other characters skipped, reading
/// stopped at the first `=`.
pub open spec fn sextets(s: Seq<char>) -> Seq<u32>
    decreases s.len(),
{
    if s.len() == 0 || s[0] == '=' {
        seq![]
    } else {
        match b64_value(s[0]) {
            Some(v) => seq![v] + sextets(s.drop_first()),
            None => sextets(s.drop_first()),
        }
    }
}

/// The bytes of a sextet sequence: three per full group of four, then two
/// for three leftover sextets, one for two, none for one.
pub open spec fn from_sextets(v: Seq<u32>) -> Seq<u8>
    decreases v.len(),
{
    if v.len() < 2 {
        seq![]
    } else {
        let b0 = ((v[0] * 4 + v[1] / 16) % 256) as u8;
        if v.len() == 2 {
            seq![b0]
        } else {
            let b1 = ((v[1] % 16 * 16 + v[2] / 4) % 256) as u8;
            if v.len() == 3 {
                seq![b0, b1]
            } else {
                let b2 = ((v[2] % 4 * 64 + v[3]) % 256) as u8;
                seq![b0, b1, b2] + from_sextets(v.skip(4))
            }
        }
    }
}

/// Lenient base64 decoding: the bytes of the sextets of `s`.
pub open spec fn b64_decode(s: Seq<char>) -> Seq<u8> {
    from_sextets(sextets(s))
}

fn value_of(c: char) -> (r: Option<u32>)
    ensures
        r == b64_value(c),
{
    if 'A' <= c && c <= 'Z' {
        Some(c as u32 - 'A' as u32)
    } else if 'a' <= c && c <= 'z' {
        Some(c as u32 - 'a' as u32 + 26)
    } else if '0' <= c && c <= '9' {
        Some(c as u32 - '0' as u32 + 52)
    } else if c == '+' {
        Some(62)
    } else if c == '/' {
        Some(63)
    } else {
        None
    }
}

proof fn lemma_b64_value_bound(c: char)
    ensures
        b64_value(c) matches Some(v) ==> v < 64,
{
}

/// The bytes decoded from the first `k` sextets (complete groups and the
/// bytes of the pending one).
pub open spec fn pending_byte(v: Seq<u32>, k: int) -> Seq<u8> {
    if k % 4 == 0 {
        Seq::<u8>::empty()
    } else if k % 4 == 1 {
        seq![((v[k - 1] * 4 + v[k] / 16) % 256) as u8]
    } else if k % 4 == 2 {
        seq![((v[k - 1] % 16 * 16 + v[k] / 4) % 256) as u8]
    } else {
        seq![((v[k - 1] % 4 * 64 + v[k]) % 256) as u8]
    }
}

/// Reading one more sextet adds the byte it completes.
proof fn lemma_from_sextets_push(v: Seq<u32>, k: int)
    requires
        0 <= k < v.len(),
    ensures
        from_sextets(v.take(k + 1)) == from_sextets(v.take(k)) + pending_byte(v, k),
    decreases k,
{
    if k >= 4 {
        let w = v.skip(4);
        lemma_from_sextets_push(w, k - 4);
        assert(v.take(k + 1).skip(4) =~= w.take(k - 3));
        assert(v.take(k).skip(4) =~= w.take(k - 4));
        assert(pending_byte(w, k - 4) == pending_byte(v, k)) by {
            assert(w[k - 4] == v[k]);
            if k % 4 != 0 {
                assert(w[k - 5] == v[k - 1]);
            }
        }
        let head = seq![
            ((v[0] * 4 + v[1] / 16) % 256) as u8,
            ((v[1] % 16 * 16 + v[2] / 4) % 256) as u8,
            ((v[2] % 4 * 64 + v[3]) % 256) as u8,
        ];
        assert(from_sextets(v.take(k + 1)) == head + from_sextets(w.take(k - 3)));
        assert(from_sextets(v.take(k)) == head + from_sextets(w.take(k - 4)));
        assert(from_sextets(v.take(k + 1)) =~= from_sextets(v.take(k)) + pending_byte(v, k));
    } else if k == 3 {
        assert(v.take(4).skip(4).len() == 0);
        assert(from_sextets(v.take(4).skip(4)) == Seq::<u8>::empty());
        assert(from_sextets(v.take(4)) =~= from_sextets(v.take(3)) + pending_byte(v, k));
    } else if k == 2 {
        assert(from_sextets(v.take(3)) =~= from_sextets(v.take(2)) + pending_byte(v, k));
    } else if k == 1 {
        assert(from_sextets(v.take(2)) =~= from_sextets(v.take(1)) + pending_byte(v, k));
    } else {
        assert(from_sextets(v.take(1)) =~= from_sextets(v.take(0)) + pending_byte(v, k));
    }
}

/// Lenient base64 decoding: digits of the standard alphabet are read,
/// other characters skipped, reading stops at the first `=`.
pub fn base64_decode(s: &str) -> (r: Vec<u8>)
    ensures
        r@ == b64_decode(s@),
{
    let cs = chars_of(s);
    let mut out: Vec<u8> = Vec::new();
    let mut acc: u32 = 0;
    let mut bits: u32 = 0;
    let mut i: usize = 0;
    let ghost mut seen: Seq<u32> = seq![];
    assert(cs@.skip(0) =~= cs@);
    while i < cs.len()
        invariant
            cs@ == s@,
            i <= cs@.len(),
            sextets(s@) == seen + sextets(cs@.skip(i as int)),
            forall|j: int| 0 <= j < seen.len() ==> seen[j] < 64,
            out@ == from_sextets(seen),
            bits == (if seen.len() % 4 == 0 {
                0u32
            } else if seen.len() % 4 == 1 {
                6u32
            } else if seen.len() % 4 == 2 {
                4u32
            } else {
                2u32
            }),
            seen.len() % 4 == 1 ==> acc % 64 == seen.last(),
            seen.len() % 4 == 2 ==> acc % 16 == seen.last() % 16,
            seen.len() % 4 == 3 ==> acc % 4 == seen.last() % 4,
        decreases cs.len() - i,
    {
        let c = cs[i];
        assert(cs@.skip(i as int).drop_first() =~= cs@.skip(i + 1));
        if c == '=' {
            assert(sextets(cs@.skip(i as int)) =~= Seq::<u32>::empty());
            assert(seen =~= sextets(s@));
            return out;
        }
        match value_of(c) {
            None => {},
            Some(v) => {
                proof {
                    lemma_b64_value_bound(c);
                }
                let ghost k: int = seen.len() as int;
                let ghost next = seen.push(v);
                proof {
                    assert(next.take(k) =~= seen);
                    assert(next.take(k + 1) =~= next);
                    lemma_from_sextets_push(next, k);
                }
                let old_acc = acc;
                acc = (acc << 6) | v;
                bits = bits + 6;
                if bits >= 8 {
                    bits = bits - 8;
                    let byte = ((acc >> bits) as u8) & 0xFF;
                    if bits == 4 {
                        assert(((((old_acc << 6) | v) >> 4u32) as u8) & 0xFF == ((old_acc % 64) * 4
                            + v / 16) % 256) by (bit_vector)
                            requires
                                v < 64,
                        ;
                    } else if bits == 2 {
                        assert(((((old_acc << 6) | v) >> 2u32) as u8) & 0xFF == ((old_acc % 16) * 16
                            + v / 4) % 256) by (bit_vector)
                            requires
                                v < 64,
                        ;
                    } else {
                        assert(((((old_acc << 6) | v) >> 0u32) as u8) & 0xFF == ((old_acc % 4) * 64
                            + v) % 256) by (bit_vector)
                            requires
                                v < 64,
                        ;
                    }
                    out.push(byte);
                }
                assert(((old_acc << 6) | v) % 64 == v) by (bit_vector)
                    requires
                        v < 64,
                ;
                assert(((old_acc << 6) | v) % 16 == v % 16) by (bit_vector)
                    requires
                        v < 64,
                ;
                assert(((old_acc << 6) | v) % 4 == v % 4) by (bit_vector)
                    requires
                        v < 64,
                ;
                proof {
                    seen = next;
                }
            },
        }
        i += 1;
    }
    assert(cs@.skip(i as int).len() == 0);
    assert(seen =~= sextets(s@));
    out
}

/// The request path cut into its segments and resolved: empty and `.`
/// segments skipped, `..` dropping the segment before it; none when a `..`
/// has nothing to drop.
pub open spec fn confined(segs: Seq<Seq<char>>) -> Option<Seq<Seq<char>>>
    decreases segs.len(),
{
    if segs.len() == 0 {
        Some(seq![])
    } else {
        match confined(segs.drop_last()) {
            None => None,
            Some(parts) => {
                let s = segs.last();
                if is_junk(s) {
                    Some(parts)
                } else if s == ".."@ {
                    if parts.len() == 0 {
                        None
                    } else {
                        Some(parts.drop_last())
                    }
                } else {
                    Some(parts.push(s))
                }
            },
        }
    }
}

/// `dir.join(rel)` for a relative `rel`, as text.
pub open spec fn join_str(dir: Seq<char>, rel: Seq<char>) -> Seq<char> {
    if dir.len() == 0 || ends_with(dir, "/"@) {
        dir + rel
    } else {
        dir + "/"@ + rel
    }
}

/// The file a request path names inside `out_dir`; none when the path
/// names nothing or would climb out of it.
pub open spec fn static_path(out_dir: Seq<char>, path: Seq<char>) -> Option<Seq<char>> {
    match confined(split(path, '/')) {
        None => None,
        Some(parts) => if parts.len() == 0 {
            None
        } else {
            Some(join_str(out_dir, join(parts, "/"@)))
        },
    }
}

pub fn safe_static_path(out_dir: &str, path: &str) -> (r: Option<String>)
    ensures
        match static_path(out_dir@, path@) {
            Some(p) => r matches Some(s) && s@ == p,
            None => r is None,
        },
{
    let segs = split_on(path, '/');
    let mut parts: Vec<String> = Vec::new();
    for i in 0..segs.len()
        invariant
            views(segs@) == split(path@, '/'),
            confined(views(segs@).take(i as int)) == Some(views(parts@)),
    {
        assert(views(segs@).take(i + 1).drop_last() =~= views(segs@).take(i as int));
        assert(views(segs@).take(i + 1).last() == segs@[i as int]@);
        let s = segs[i].as_str();
        let cs = chars_of(s);
        let ghost before = parts@;
        if cs.len() == 0 || str_eq(s, ".") {
        } else if str_eq(s, "..") {
            if parts.len() == 0 {
                proof {
                    lemma_confined_none(views(segs@), i + 1);
                    assert(views(segs@).take(segs@.len() as int) =~= views(segs@));
                }
                return None;
            }
            parts.pop();
            assert(views(parts@) =~= views(before).drop_last());
        } else {
            parts.push(segs[i].clone());
            assert(views(parts@) =~= views(before).push(s@));
        }
    }
    assert(views(segs@).take(segs@.len() as int) =~= views(segs@));
    if parts.len() == 0 {
        return None;
    }
    let mut joined = String::new();
    push_join(&mut joined, &parts, "/");
    let mut out = owned(out_dir);
    let d = chars_of(out_dir);
    let bare = d.len() == 0 || crate::text::str_ends_with(out_dir, "/");
    if !bare {
        push_str(&mut out, "/");
    }
    push_str(&mut out, joined.as_str());
    assert(out@ == join_str(out_dir@, join(views(parts@), "/"@)));
    Some(out)
}

proof fn lemma_confined_none(segs: Seq<Seq<char>>, k: int)
    requires
        0 <= k <= segs.len(),
        confined(segs.take(k)) is None,
    ensures
        confined(segs) is None,
    decreases segs.len() - k,
{
    if k < segs.len() {
        assert(segs.take(k + 1).drop_last() =~= segs.take(k));
        lemma_confined_none(segs, k + 1);
    } else {
        assert(segs.take(k) =~= segs);
    }
}

proof fn lemma_digit_value(v: int)
    requires
        0 <= v < 64,
    ensures
        b64_value(b64_digit(v)) == Some(v as u32),
        b64_digit(v) != '=',
{
}

proof fn lemma_sextets_digit(c: char, rest: Seq<char>)
    requires
        c != '=',
        b64_value(c) is Some,
    ensures
        sextets(seq![c] + rest) == seq![b64_value(c)->0] + sextets(rest),
{
    assert((seq![c] + rest).drop_first() =~= rest);
}

proof fn lemma_sextets_pad(rest: Seq<char>)
    ensures
        sextets(seq!['='] + rest) == Seq::<u32>::empty(),
{
}

proof fn lemma_divmod(x: int, d: int, q: int, r: int)
    requires
        d > 0,
        0 <= r < d,
        x == q * d + r,
    ensures
        x / d == q,
        x % d == r,
{
    vstd::arithmetic::div_mod::lemma_fundamental_div_mod_converse(x, d, q, r);
}

proof fn lemma_chunk_bytes(b0: u8, b1: u8, b2: u8)
    ensures
        ({
            let t = b0 * 65536 + b1 * 256 + b2;
            &&& ((t / 262144 % 64) * 4 + (t / 4096 % 64) / 16) % 256 == b0
            &&& ((t / 4096 % 64) % 16 * 16 + (t / 64 % 64) / 4) % 256 == b1
            &&& ((t / 64 % 64) % 4 * 64 + t % 64) % 256 == b2
        }),
{
    let x0 = b0 as int;
    let x1 = b1 as int;
    let x2 = b2 as int;
    let t = x0 * 65536 + x1 * 256 + x2;
    let q0 = x0 / 4;
    let r0 = x0 % 4;
    let q1 = x1 / 16;
    let r1 = x1 % 16;
    let q2 = x2 / 64;
    let r2 = x2 % 64;
    lemma_divmod(x0, 4, q0, r0);
    lemma_divmod(x1, 16, q1, r1);
    lemma_divmod(x2, 64, q2, r2);
    assert(x0 == q0 * 4 + r0);
    assert(x1 == q1 * 16 + r1);
    assert(x2 == q2 * 64 + r2);
    let s0 = q0;
    let s1 = r0 * 16 + q1;
    let s2 = r1 * 4 + q2;
    let s3 = r2;
    lemma_divmod(t, 262144, q0, r0 * 65536 + x1 * 256 + x2);
    lemma_divmod(t, 4096, x0 * 16 + q1, r1 * 256 + x2);
    lemma_divmod(x0 * 16 + q1, 64, q0, s1);
    lemma_divmod(t, 64, x0 * 1024 + x1 * 4 + q2, r2);
    lemma_divmod(x0 * 1024 + x1 * 4 + q2, 64, x0 * 16 + q1, s2);
    lemma_divmod(s0, 64, 0, s0);
    lemma_divmod(s1, 16, r0, q1);
    lemma_divmod(s0 * 4 + r0, 256, 0, x0);
    lemma_divmod(s2, 4, r1, q2);
    lemma_divmod(s1 % 16 * 16 + s2 / 4, 256, 0, x1);
    lemma_divmod(s2 % 4 * 64 + s3, 256, 0, x2);
}

/// The sextets of one encoded group followed by `rest`: its digits, then
/// nothing past a pad.
proof fn lemma_group_sextets(b0: u8, b1: u8, b2: u8, n: int, rest: Seq<char>)
    requires
        1 <= n <= 3,
    ensures
        ({
            let t = b0 * 65536 + b1 * 256 + b2;
            let v = seq![
                (t / 262144 % 64) as u32,
                (t / 4096 % 64) as u32,
                (t / 64 % 64) as u32,
                (t % 64) as u32,
            ];
            sextets(b64_group(b0, b1, b2, n) + rest) == if n == 3 {
                v + sextets(rest)
            } else {
                v.take(n + 1)
            }
        }),
{
    let t = b0 * 65536 + b1 * 256 + b2;
    let g = b64_group(b0, b1, b2, n);
    lemma_digit_value(t / 262144 % 64);
    lemma_digit_value(t / 4096 % 64);
    lemma_digit_value(t / 64 % 64);
    lemma_digit_value(t % 64);
    let r3 = seq![g[3]] + rest;
    let r2 = seq![g[2]] + r3;
    let r1 = seq![g[1]] + r2;
    assert(g + rest =~= seq![g[0]] + r1);
    lemma_sextets_digit(g[0], r1);
    lemma_sextets_digit(g[1], r2);
    if n == 1 {
        lemma_sextets_pad(r3);
        assert(r2 =~= seq!['='] + r3);
    } else {
        lemma_sextets_digit(g[2], r3);
        if n == 2 {
            lemma_sextets_pad(rest);
            assert(r3 =~= seq!['='] + rest);
        } else {
            lemma_sextets_digit(g[3], rest);
        }
    }
}

/// Base64 round trip: decoding what was encoded gives back the bytes.
pub proof fn law_base64_roundtrip(data: Seq<u8>)
    ensures
        b64_decode(b64_encode(data)) == data,
    decreases data.len(),
{
    if data.len() == 0 {
    } else if data.len() <= 2 {
        let b1: u8 = if data.len() == 2 { data[1] } else { 0 };
        lemma_group_sextets(data[0], b1, 0, data.len() as int, Seq::<char>::empty());
        lemma_chunk_bytes(data[0], b1, 0);
        assert(b64_group(data[0], b1, 0, data.len() as int) + Seq::<char>::empty() =~= b64_encode(
            data,
        ));
        assert(b64_decode(b64_encode(data)) =~= data);
    } else {
        let rest = b64_encode(data.skip(3));
        lemma_group_sextets(data[0], data[1], data[2], 3, rest);
        lemma_chunk_bytes(data[0], data[1], data[2]);
        law_base64_roundtrip(data.skip(3));
        let t = data[0] * 65536 + data[1] * 256 + data[2];
        let v = seq![
            (t / 262144 % 64) as u32,
            (t / 4096 % 64) as u32,
            (t / 64 % 64) as u32,
            (t % 64) as u32,
        ];
        assert((v + sextets(rest)).skip(4) =~= sextets(rest));
        assert(data =~= seq![data[0], data[1], data[2]] + data.skip(3));
        assert(b64_decode(b64_encode(data)) =~= data);
    }
}

proof fn lemma_split_no_sep(s: Seq<char>, sep: char)
    ensures
        forall|i: int| 0 <= i < split(s, sep).len() ==> !(#[trigger] split(s, sep)[i]).contains(sep),
    decreases s.len(),
{
    crate::paths::lemma_first_at_pub(s, sep, 0);
    match crate::paths::first_at(s, sep, 0) {
        None => {
            assert(split(s, sep) == seq![s]);
        },
        Some(i) => {
            lemma_split_no_sep(s.skip(i + 1), sep);
            assert forall|k: int| 0 <= k < split(s, sep).len() implies !(#[trigger] split(
                s,
                sep,
            )[k]).contains(sep) by {
                if k == 0 {
                    assert(split(s, sep)[0] == s.take(i));
                    if s.take(i).contains(sep) {
                        let m = choose|m: int| 0 <= m < s.take(i).len() && s.take(i)[m] == sep;
                        assert(s[m] == sep);
                    }
                } else {
                    assert(split(s, sep)[k] == split(s.skip(i + 1), sep)[k - 1]);
                }
            }
        },
    }
}

proof fn lemma_confined_normal(segs: Seq<Seq<char>>)
    requires
        forall|i: int| 0 <= i < segs.len() ==> !(#[trigger] segs[i]).contains('/'),
    ensures
        confined(segs) matches Some(parts) ==> forall|i: int|
            0 <= i < parts.len() ==> crate::server::is_normal(#[trigger] parts[i]) && !parts[i].contains(
                '/',
            ),
    decreases segs.len(),
{
    if segs.len() > 0 {
        assert forall|i: int| 0 <= i < segs.drop_last().len() implies !(
        #[trigger] segs.drop_last()[i]).contains('/') by {
            assert(segs.drop_last()[i] == segs[i]);
        }
        lemma_confined_normal(segs.drop_last());
        assert(!segs[segs.len() - 1].contains('/'));
    }
}

/// A request path never leaves the output directory: the file served is
/// the directory joined with named segments only (none empty, `.`, `..`,
/// or holding a `/`).
pub proof fn law_static_path_confined(out_dir: Seq<char>, path: Seq<char>)
    ensures
        static_path(out_dir, path) matches Some(p) ==> (confined(split(path, '/')) matches Some(parts)
            && parts.len() > 0 && p == join_str(out_dir, join(parts, "/"@)) && forall|i: int|
            0 <= i < parts.len() ==> crate::server::is_normal(#[trigger] parts[i])
                && !parts[i].contains('/')),
{
    lemma_split_no_sep(path, '/');
    lemma_confined_normal(split(path, '/'));
}

} // verus!
