//! The dev server's decisions on a request: reading the request head,
//! routing the path, and the response heads it writes back.

use vstd::prelude::*;
use crate::json::{
    json_bytes_value, json_text_value, pair_views_of, pairs_member, pairs_member_of, parse_json_bytes,
    parse_json_text, text_member, text_member_of, u64_member, u64_member_of,
};
use crate::http::{b64_decode, base64_decode, http_status_text, join_str, mime_of, status_text};
use crate::paths::{components, path_components};
use crate::pipeline::{ApiRoute, join_path};
use crate::text::{
    chars_of, dec, is_ws, lines, owned, push_char, push_dec, push_join, push_str, split_lines,
    starts_with, str_eq, string_of, trim, vec_starts_with, vec_trim, views,
};

verus! {

broadcast use vstd::string::group_string_axioms;

/// ASCII letters lower-cased, everything else kept
/// (`str::to_ascii_lowercase`).
pub open spec fn ascii_lower(s: Seq<char>) -> Seq<char> {
    s.map_values(|c: char| if 'A' <= c && c <= 'Z' { ((c as u32) + 32) as char } else { c })
}

pub fn to_ascii_lowercase(s: &str) -> (r: String)
    ensures
        r@ == ascii_lower(s@),
{
    let cs = chars_of(s);
    let mut out = String::new();
    for i in 0..cs.len()
        invariant
            cs@ == s@,
            out@ == ascii_lower(cs@.take(i as int)),
    {
        let c = cs[i];
        if 'A' <= c && c <= 'Z' {
            let l = ((c as u8) + 32) as char;
            assert(l == ((c as u32) + 32) as char);
            push_char(&mut out, l);
        } else {
            push_char(&mut out, c);
        }
        assert(out@ =~= ascii_lower(cs@.take(i + 1)));
    }
    assert(cs@.take(cs@.len() as int) =~= cs@);
    out
}

/// The value of a decimal numeral (`+` allowed in front), none for any
/// other text (`usize::from_str`, before its range check).
pub open spec fn numeral(s: Seq<char>) -> Option<nat> {
    let d = unsigned_part(s);
    if d.len() > 0 && all_digits(d) {
        Some(digits_value(d))
    } else {
        None
    }
}

/// `s` without a leading `+`.
pub open spec fn unsigned_part(s: Seq<char>) -> Seq<char> {
    if s.len() > 0 && s[0] == '+' {
        s.drop_first()
    } else {
        s
    }
}

pub open spec fn is_digit(c: char) -> bool {
    '0' <= c && c <= '9'
}

pub open spec fn all_digits(d: Seq<char>) -> bool {
    forall|i: int| 0 <= i < d.len() ==> is_digit(#[trigger] d[i])
}

pub open spec fn digits_value(d: Seq<char>) -> nat
    decreases d.len(),
{
    if d.len() == 0 {
        0
    } else {
        digits_value(d.drop_last()) * 10 + ((d.last() as u32) - ('0' as u32)) as nat
    }
}

/// `s.parse::<usize>().unwrap_or(0)`.
pub open spec fn parse_or_zero(s: Seq<char>) -> nat {
    match numeral(s) {
        Some(n) => if n <= usize::MAX {
            n
        } else {
            0
        },
        None => 0,
    }
}

#[verifier::loop_isolation(false)]
fn parse_usize_or_zero(s: &Vec<char>) -> (r: usize)
    ensures
        r == parse_or_zero(s@),
{
    let start: usize = if s.len() > 0 && s[0] == '+' {
        1
    } else {
        0
    };
    let d = crate::text::slice_chars(s, start, s.len());
    assert(d@ =~= unsigned_part(s@));
    if d.len() == 0 {
        return 0;
    }
    let mut acc: usize = 0;
    for i in 0..d.len()
        invariant
            forall|k: int| 0 <= k < i ==> is_digit(#[trigger] d@[k]),
            acc == digits_value(d@.take(i as int)),
    {
        let c = d[i];
        assert(d@.take(i + 1).drop_last() =~= d@.take(i as int));
        assert(d@.take(i + 1).last() == c);
        if !('0' <= c && c <= '9') {
            assert(!is_digit(d@[i as int]));
            assert(!all_digits(d@));
            return 0;
        }
        let v = (c as u32 - '0' as u32) as usize;
        if acc > (usize::MAX - v) / 10 {
            proof {
                lemma_digits_grow(d@, i as int + 1);
                assert(digits_value(d@.take(i + 1)) > usize::MAX) by (nonlinear_arith)
                    requires
                        acc > (usize::MAX - v) / 10,
                        digits_value(d@.take(i + 1)) == acc * 10 + v,
                        v <= 9,
                ;
            }
            return 0;
        }
        acc = acc * 10 + v;
    }
    assert(d@.take(d@.len() as int) =~= d@);
    acc
}

/// Once above the range, more digits keep the value above it.
proof fn lemma_digits_grow(d: Seq<char>, k: int)
    requires
        0 <= k <= d.len(),
    ensures
        digits_value(d.take(k)) <= digits_value(d),
    decreases d.len() - k,
{
    if k < d.len() {
        lemma_digits_grow(d, k + 1);
        assert(d.take(k + 1).drop_last() =~= d.take(k));
        assert(digits_value(d.take(k + 1)) >= digits_value(d.take(k))) by (nonlinear_arith)
            requires
                digits_value(d.take(k + 1)) == digits_value(d.take(k)) * 10 + ((d.take(k + 1).last()
                    as u32) - ('0' as u32)) as nat,
        ;
    } else {
        assert(d.take(k) =~= d);
    }
}

/// The first line of `ls` that starts (ASCII case aside) with
/// `content-length:`.
pub open spec fn length_line(ls: Seq<Seq<char>>) -> Option<Seq<char>>
    decreases ls.len(),
{
    if ls.len() == 0 {
        None
    } else if starts_with(ascii_lower(ls[0]), "content-length:"@) {
        Some(ascii_lower(ls[0]))
    } else {
        length_line(ls.drop_first())
    }
}

/// The declared body length of a request: the trimmed value of its first
/// `Content-Length:` header line read as a number, 0 when it is absent or
/// no number in range.
pub open spec fn declared_length(head: Seq<char>) -> nat {
    match length_line(lines(head)) {
        Some(l) => parse_or_zero(trim(l.skip(15))),
        None => 0,
    }
}

pub fn content_length(head: &str) -> (r: usize)
    ensures
        r == declared_length(head@),
{
    let ls = split_lines(head);
    let mut i: usize = 0;
    assert(views(ls@).skip(0) =~= views(ls@));
    while i < ls.len()
        invariant
            i <= ls@.len(),
            length_line(lines(head@)) == length_line(views(ls@).skip(i as int)),
        decreases ls.len() - i,
    {
        assert(views(ls@).skip(i as int)[0] == ls@[i as int]@);
        assert(views(ls@).skip(i as int).drop_first() =~= views(ls@).skip(i + 1));
        let lower = to_ascii_lowercase(ls[i].as_str());
        if crate::text::str_starts_with(lower.as_str(), "content-length:") {
            let lc = chars_of(lower.as_str());
            proof {
                reveal_strlit("content-length:");
            }
            let v = crate::text::slice_chars(&lc, 15, lc.len());
            assert(v@ =~= lower@.skip(15));
            return parse_usize_or_zero(&vec_trim(&v));
        }
        i += 1;
    }
    0
}

/// The largest request body the dev server reads (10 MiB).
pub const MAX_BODY: usize = 10485760;

/// The answer to a request whose declared body exceeds [`MAX_BODY`].
pub const PAYLOAD_TOO_LARGE: &'static str = "HTTP/1.1 413 Payload Too Large\r\nContent-Length: 0\r\n\r\n";

/// A bare 404.
pub const NOT_FOUND: &'static str = "HTTP/1.1 404 Not Found\r\nContent-Length: 0\r\n\r\n";

/// A bare 500.
pub const SERVER_ERROR: &'static str = "HTTP/1.1 500 Internal Server Error\r\nContent-Length: 0\r\n\r\n";

/// The white-space separated words of `s` (`str::split_whitespace`).
pub open spec fn words(s: Seq<char>) -> Seq<Seq<char>>
    decreases s.len(),
{
    words_from(s, Seq::<char>::empty())
}

/// The words of `s`, `cur` being the word read so far.
pub open spec fn words_from(s: Seq<char>, cur: Seq<char>) -> Seq<Seq<char>>
    decreases s.len(),
{
    if s.len() == 0 {
        if cur.len() > 0 {
            seq![cur]
        } else {
            seq![]
        }
    } else if is_ws(s[0]) {
        if cur.len() > 0 {
            seq![cur] + words_from(s.drop_first(), Seq::<char>::empty())
        } else {
            words_from(s.drop_first(), Seq::<char>::empty())
        }
    } else {
        words_from(s.drop_first(), cur.push(s[0]))
    }
}

fn words_of(s: &str) -> (r: Vec<String>)
    ensures
        views(r@) == words(s@),
{
    let cs = chars_of(s);
    let mut out: Vec<String> = Vec::new();
    let mut cur: Vec<char> = Vec::new();
    let mut i: usize = 0;
    assert(cs@.skip(0) =~= cs@);
    while i < cs.len()
        invariant
            cs@ == s@,
            i <= cs@.len(),
            words(s@) == views(out@) + words_from(cs@.skip(i as int), cur@),
        decreases cs.len() - i,
    {
        let c = cs[i];
        assert(cs@.skip(i as int)[0] == c);
        assert(cs@.skip(i as int).drop_first() =~= cs@.skip(i + 1));
        if crate::text::char_is_ws(c) {
            if cur.len() > 0 {
                let ghost before = out@;
                out.push(string_of(&cur));
                assert(views(out@) =~= views(before).push(cur@));
                assert(views(out@) + words_from(cs@.skip(i + 1), Seq::<char>::empty()) =~= views(
                    before,
                ) + (seq![cur@] + words_from(cs@.skip(i + 1), Seq::<char>::empty())));
                cur = Vec::new();
            } else {
                assert(cur@ =~= Seq::<char>::empty());
                cur = Vec::new();
            }
        } else {
            cur.push(c);
        }
        i += 1;
    }
    assert(cs@.skip(i as int).len() == 0);
    if cur.len() > 0 {
        let ghost before = out@;
        out.push(string_of(&cur));
        assert(views(out@) =~= views(before).push(cur@));
        assert(views(out@) =~= views(before) + seq![cur@]);
    } else {
        assert(views(out@) =~= views(out@) + Seq::<Seq<char>>::empty());
    }
    out
}

/// Method and path of a request: the first two words of its first line,
/// `GET` and `/` in place of missing ones.
pub open spec fn request_target(head: Seq<char>) -> (Seq<char>, Seq<char>) {
    let first = if lines(head).len() > 0 {
        lines(head)[0]
    } else {
        Seq::<char>::empty()
    };
    let w = words(first);
    (if w.len() >= 1 {
        w[0]
    } else {
        "GET"@
    }, if w.len() >= 2 {
        w[1]
    } else {
        "/"@
    })
}

pub fn request_line(head: &str) -> (r: (String, String))
    ensures
        (r.0@, r.1@) == request_target(head@),
{
    let ls = split_lines(head);
    let first = if ls.len() > 0 {
        assert(views(ls@)[0] == ls@[0]@);
        ls[0].clone()
    } else {
        String::new()
    };
    let w = words_of(first.as_str());
    let method = if w.len() >= 1 {
        assert(views(w@)[0] == w@[0]@);
        w[0].clone()
    } else {
        owned("GET")
    };
    let path = if w.len() >= 2 {
        assert(views(w@)[1] == w@[1]@);
        w[1].clone()
    } else {
        owned("/")
    };
    (method, path)
}

/// The request header lines handed on to a handler: every line after the
/// request line except `Content-Length` and blank ones.
pub open spec fn forwarded(ls: Seq<Seq<char>>) -> Seq<Seq<char>>
    decreases ls.len(),
{
    if ls.len() == 0 {
        seq![]
    } else {
        forwarded(ls.drop_last()) + if starts_with(ascii_lower(ls.last()), "content-length:"@)
            || trim(ls.last()).len() == 0 {
            Seq::<Seq<char>>::empty()
        } else {
            seq![ls.last()]
        }
    }
}

pub open spec fn forwarded_of(head: Seq<char>) -> Seq<Seq<char>> {
    if lines(head).len() == 0 {
        seq![]
    } else {
        forwarded(lines(head).drop_first())
    }
}

pub fn forwarded_headers(head: &str) -> (r: Vec<String>)
    ensures
        views(r@) == forwarded_of(head@),
{
    let ls = split_lines(head);
    let mut out: Vec<String> = Vec::new();
    if ls.len() == 0 {
        return out;
    }
    let ghost rest = views(ls@).drop_first();
    for i in 1..ls.len()
        invariant
            rest == views(ls@).drop_first(),
            views(out@) == forwarded(rest.take(i - 1)),
    {
        assert(rest.take(i as int).drop_last() =~= rest.take(i - 1));
        assert(rest.take(i as int).last() == ls@[i as int]@);
        let lower = to_ascii_lowercase(ls[i].as_str());
        let blank = vec_trim(&chars_of(ls[i].as_str())).len() == 0;
        if !crate::text::str_starts_with(lower.as_str(), "content-length:") && !blank {
            let ghost before = out@;
            out.push(ls[i].clone());
            assert(views(out@) =~= views(before).push(ls@[i as int]@));
        }
    }
    assert(rest.take(rest.len() as int) =~= rest);
    out
}

/// A response status line with the CORS header: `HTTP/1.1 <status>
/// <reason>` and `Access-Control-Allow-Origin: *`.
pub open spec fn status_head(status: u64) -> Seq<char> {
    "HTTP/1.1 "@ + dec(status as nat) + " "@ + status_text(status)
        + "\r\nAccess-Control-Allow-Origin: *\r\n"@
}

/// A header name the server writes itself (framing), never a handler.
pub open spec fn is_framing(name: Seq<char>) -> bool {
    let l = ascii_lower(name);
    l == "content-length"@ || l == "transfer-encoding"@ || l == "connection"@
}

pub open spec fn has_break(s: Seq<char>) -> bool {
    s.contains('\r') || s.contains('\n')
}

/// The header lines a handler's response passes on: framing headers
/// dropped, and (when `strict`) any name or value holding a line break.
pub open spec fn header_lines(hs: Seq<(Seq<char>, Seq<char>)>, strict: bool) -> Seq<char>
    decreases hs.len(),
{
    if hs.len() == 0 {
        seq![]
    } else {
        let (k, v) = hs.last();
        header_lines(hs.drop_last(), strict) + if is_framing(k) || (strict && (has_break(k)
            || has_break(v))) {
            Seq::<char>::empty()
        } else {
            k + ": "@ + v + "\r\n"@
        }
    }
}

/// The head of a response relayed from a handler: status line, the
/// handler's headers, the length of the body.
pub open spec fn relayed_head(
    status: u64,
    hs: Seq<(Seq<char>, Seq<char>)>,
    strict: bool,
    body_len: nat,
) -> Seq<char> {
    status_head(status) + header_lines(hs, strict) + "Content-Length: "@ + dec(body_len)
        + "\r\n\r\n"@
}

fn char_in(s: &str, c: char) -> (r: bool)
    ensures
        r == s@.contains(c),
{
    let cs = chars_of(s);
    for i in 0..cs.len()
        invariant
            cs@ == s@,
            forall|k: int| 0 <= k < i ==> cs@[k] != c,
    {
        if cs[i] == c {
            return true;
        }
    }
    false
}

fn push_status_head(out: &mut String, status: u64)
    ensures
        final(out)@ == old(out)@ + status_head(status),
{
    push_str(out, "HTTP/1.1 ");
    push_dec(out, status);
    push_str(out, " ");
    push_str(out, http_status_text(status));
    push_str(out, "\r\nAccess-Control-Allow-Origin: *\r\n");
    assert(out@ =~= old(out)@ + status_head(status));
}

pub open spec fn header_pairs(v: Seq<(String, String)>) -> Seq<(Seq<char>, Seq<char>)> {
    v.map_values(|p: (String, String)| (p.0@, p.1@))
}

/// The head of a relayed response (see [`relayed_head`]).
pub fn relay_head(status: u64, headers: &Vec<(String, String)>, strict: bool, body_len: usize) -> (r:
    String)
    ensures
        r@ == relayed_head(status, header_pairs(headers@), strict, body_len as nat),
{
    let mut out = String::new();
    push_status_head(&mut out, status);
    let ghost start = out@;
    let ghost hp = header_pairs(headers@);
    for i in 0..headers.len()
        invariant
            hp == header_pairs(headers@),
            out@ == start + header_lines(hp.take(i as int), strict),
    {
        assert(hp.take(i + 1).drop_last() =~= hp.take(i as int));
        assert(hp.take(i + 1).last() == hp[i as int]);
        let k = headers[i].0.as_str();
        let v = headers[i].1.as_str();
        let lower = to_ascii_lowercase(k);
        let framing = str_eq(lower.as_str(), "content-length") || str_eq(
            lower.as_str(),
            "transfer-encoding",
        ) || str_eq(lower.as_str(), "connection");
        let broken = char_in(k, '\r') || char_in(k, '\n') || char_in(v, '\r') || char_in(v, '\n');
        if !(framing || (strict && broken)) {
            push_str(&mut out, k);
            push_str(&mut out, ": ");
            push_str(&mut out, v);
            push_str(&mut out, "\r\n");
        }
        assert(out@ =~= start + header_lines(hp.take(i + 1), strict));
    }
    assert(hp.take(hp.len() as int) =~= hp);
    push_str(&mut out, "Content-Length: ");
    push_dec(&mut out, body_len as u64);
    push_str(&mut out, "\r\n\r\n");
    out
}

/// What the middleware decided for a request.
pub enum MiddlewareOutcome {
    /// No match, or `next()`: dispatch goes on.
    Pass,
    Redirect { url: String, status: u64 },
    Respond { status: u64, headers: Vec<(String, String)>, body_bytes: Vec<u8> },
    /// The middleware failed: the request is refused (fail closed).
    Error,
}

/// What the dev server writes back: nothing yet (dispatch goes on), or a
/// head and a body.
pub enum Reply {
    Continue,
    Send { head: String, body: Vec<u8> },
}

/// The reply for a middleware decision: a redirect (refused with 500 when
/// its URL holds a line break), the middleware's own response (framing and
/// line-breaking headers dropped), a 500 for a failure, or nothing.
pub open spec fn middleware_reply(o: MiddlewareOutcome) -> Option<(Seq<char>, Seq<u8>)> {
    match o {
        MiddlewareOutcome::Pass => None,
        MiddlewareOutcome::Redirect { url, status } => if has_break(url@) {
            Some((SERVER_ERROR@, Seq::<u8>::empty()))
        } else {
            Some(
                (
                    "HTTP/1.1 "@ + dec(status as nat) + " "@ + status_text(status) + "\r\nLocation: "@
                        + url@ + "\r\nAccess-Control-Allow-Origin: *\r\nContent-Length: 0\r\n\r\n"@,
                    Seq::<u8>::empty(),
                ),
            )
        },
        MiddlewareOutcome::Respond { status, headers, body_bytes } => Some(
            (
                relayed_head(status, header_pairs(headers@), true, body_bytes@.len()),
                body_bytes@,
            ),
        ),
        MiddlewareOutcome::Error => Some((SERVER_ERROR@, Seq::<u8>::empty())),
    }
}

pub fn middleware_response(outcome: MiddlewareOutcome) -> (r: Reply)
    ensures
        match middleware_reply(outcome) {
            None => r is Continue,
            Some((h, b)) => r matches Reply::Send { head, body } && head@ == h && body@ == b,
        },
{
    match outcome {
        MiddlewareOutcome::Pass => Reply::Continue,
        MiddlewareOutcome::Redirect { url, status } => {
            if char_in(url.as_str(), '\r') || char_in(url.as_str(), '\n') {
                return Reply::Send { head: owned(SERVER_ERROR), body: Vec::new() };
            }
            let mut head = owned("HTTP/1.1 ");
            push_dec(&mut head, status);
            push_str(&mut head, " ");
            push_str(&mut head, http_status_text(status));
            push_str(&mut head, "\r\nLocation: ");
            push_str(&mut head, url.as_str());
            push_str(&mut head, "\r\nAccess-Control-Allow-Origin: *\r\nContent-Length: 0\r\n\r\n");
            Reply::Send { head, body: Vec::new() }
        },
        MiddlewareOutcome::Respond { status, headers, body_bytes } => {
            let head = relay_head(status, &headers, true, body_bytes.len());
            Reply::Send { head, body: body_bytes }
        },
        MiddlewareOutcome::Error => Reply::Send { head: owned(SERVER_ERROR), body: Vec::new() },
    }
}

/// The reply of an API route to a method it does not export: 405 with the
/// methods it does.
pub open spec fn method_not_allowed(methods: Seq<Seq<char>>) -> Seq<char> {
    "HTTP/1.1 405 Method Not Allowed\r\nAllow: "@ + crate::text::join(methods, ", "@)
        + "\r\nAccess-Control-Allow-Origin: *\r\nContent-Length: 0\r\n\r\n"@
}

/// Whether the route answers `method`; the 405 reply when it does not.
pub fn check_method(api: &ApiRoute, method: &str) -> (r: Option<String>)
    ensures
        views(api.methods@).contains(method@) ==> r is None,
        !views(api.methods@).contains(method@) ==> (r matches Some(s) && s@ == method_not_allowed(
            views(api.methods@),
        )),
{
    for i in 0..api.methods.len()
        invariant
            forall|k: int| 0 <= k < i ==> api.methods@[k]@ != method@,
    {
        if str_eq(api.methods[i].as_str(), method) {
            assert(views(api.methods@)[i as int] == method@);
            return None;
        }
    }
    assert(!views(api.methods@).contains(method@)) by {
        if views(api.methods@).contains(method@) {
            let k = choose|k: int|
                0 <= k < views(api.methods@).len() && views(api.methods@)[k] == method@;
            assert(views(api.methods@)[k] == api.methods@[k]@);
        }
    }
    let mut s = owned("HTTP/1.1 405 Method Not Allowed\r\nAllow: ");
    push_join(&mut s, &api.methods, ", ");
    push_str(&mut s, "\r\nAccess-Control-Allow-Origin: *\r\nContent-Length: 0\r\n\r\n");
    Some(s)
}

/// The reply relaying an API handler's response: its status, its headers
/// (framing ones dropped), its body decoded from base64.
pub fn api_response(status: u64, headers: &Vec<(String, String)>, body_b64: &str) -> (r: (
    String,
    Vec<u8>,
))
    ensures
        r.1@ == b64_decode(body_b64@),
        r.0@ == relayed_head(status, header_pairs(headers@), false, r.1@.len()),
{
    let body = base64_decode(body_b64);
    let head = relay_head(status, headers, false, body.len());
    (head, body)
}

/// The decision a middleware run reports: `nomatch` and `next` pass, a
/// `redirect` goes to its URL (`/` when absent) with its status (302 when
/// absent), a `respond` answers with its status (200 when absent), headers
/// and base64 body (empty when absent); any other kind, or none (the run
/// failed or its report was unreadable), is a failure.
pub open spec fn outcome_of(
    kind: Option<Seq<char>>,
    url: Option<Seq<char>>,
    status: Option<u64>,
    body_b64: Option<Seq<char>>,
) -> (int, Seq<char>, u64, Seq<u8>) {
    match kind {
        Some(k) => if k == "nomatch"@ || k == "next"@ {
            (0, Seq::empty(), 0, Seq::empty())
        } else if k == "redirect"@ {
            (1, match url { Some(u) => u, None => "/"@ }, match status { Some(s) => s, None => 302 }, Seq::empty())
        } else if k == "respond"@ {
            (2, Seq::empty(), match status { Some(s) => s, None => 200 },
                b64_decode(match body_b64 { Some(b) => b, None => Seq::empty() }))
        } else {
            (3, Seq::empty(), 0, Seq::empty())
        },
        None => (3, Seq::empty(), 0, Seq::empty()),
    }
}

/// The middleware outcome by its parts: which kind (pass, redirect,
/// respond, failure), the redirect URL, the status, the body.
pub open spec fn outcome_view(o: MiddlewareOutcome) -> (int, Seq<char>, u64, Seq<u8>) {
    match o {
        MiddlewareOutcome::Pass => (0, Seq::empty(), 0, Seq::empty()),
        MiddlewareOutcome::Redirect { url, status } => (1, url@, status, Seq::empty()),
        MiddlewareOutcome::Respond { status, body_bytes, .. } => (2, Seq::empty(), status, body_bytes@),
        MiddlewareOutcome::Error => (3, Seq::empty(), 0, Seq::empty()),
    }
}

fn opt_view(o: &Option<String>) -> (r: Option<&str>)
    ensures
        match *o {
            Some(s) => r is Some && r.unwrap()@ == s@,
            None => r is None,
        },
{
    match o {
        Some(s) => Some(s.as_str()),
        None => None,
    }
}

/// Reads the report of a middleware run (see [`outcome_of`]); a `respond`
/// carries the reported headers as given.
pub fn middleware_outcome(
    kind: Option<String>,
    url: Option<String>,
    status: Option<u64>,
    headers: Vec<(String, String)>,
    body_b64: Option<String>,
) -> (r: MiddlewareOutcome)
    ensures
        outcome_view(r) == outcome_of(
            match kind { Some(k) => Some(k@), None => None },
            match url { Some(u) => Some(u@), None => None },
            status,
            match body_b64 { Some(b) => Some(b@), None => None },
        ),
        r matches MiddlewareOutcome::Respond { headers: h, .. } ==> h == headers,
{
    let k = match kind {
        Some(k) => k,
        None => return MiddlewareOutcome::Error,
    };
    if str_eq(k.as_str(), "nomatch") || str_eq(k.as_str(), "next") {
        MiddlewareOutcome::Pass
    } else if str_eq(k.as_str(), "redirect") {
        let url = match url {
            Some(u) => u,
            None => owned("/"),
        };
        let status = match status {
            Some(s) => s,
            None => 302,
        };
        MiddlewareOutcome::Redirect { url, status }
    } else if str_eq(k.as_str(), "respond") {
        let status = match status {
            Some(s) => s,
            None => 200,
        };
        let body_bytes = match opt_view(&body_b64) {
            Some(b) => base64_decode(b),
            None => base64_decode(""),
        };
        proof {
            reveal_strlit("");
        }
        MiddlewareOutcome::Respond { status, headers, body_bytes }
    } else {
        MiddlewareOutcome::Error
    }
}

/// The reply relaying an API handler's report: status 500 and an empty
/// body when they are absent (the handler's run failed or its report was
/// unreadable); see [`api_response`].
pub fn api_reply(status: Option<u64>, headers: &Vec<(String, String)>, body_b64: Option<String>) -> (r: (
    String,
    Vec<u8>,
))
    ensures
        r.1@ == b64_decode(match body_b64 { Some(b) => b@, None => Seq::empty() }),
        r.0@ == relayed_head(match status { Some(s) => s, None => 500 }, header_pairs(headers@), false, r.1@.len()),
{
    let st = match status {
        Some(s) => s,
        None => 500,
    };
    proof {
        reveal_strlit("");
    }
    match opt_view(&body_b64) {
        Some(b) => api_response(st, headers, b),
        None => api_response(st, headers, ""),
    }
}

/// Where the dev server sends a request.
pub enum DevRoute {
    /// To the API route at this index of the route table.
    Api(usize),
    /// The build timestamp (for live reload).
    Timestamp,
    /// This file of the output directory.
    File(String),
    /// Nowhere: a 404.
    NotFound,
}

/// The reply refusing a request whose declared body exceeds the cap;
/// none when the body may be read.
pub fn body_size_reply(declared: usize) -> (r: Option<&'static str>)
    ensures
        r.is_some() == (declared > MAX_BODY),
        r matches Some(s) ==> s@ == PAYLOAD_TOO_LARGE@,
{
    if declared > MAX_BODY { Some(PAYLOAD_TOO_LARGE) } else { None }
}

/// The first API route whose path is `path`.
pub open spec fn api_index(apis: Seq<ApiRoute>, path: Seq<char>) -> Option<int>
    decreases apis.len(),
{
    if apis.len() == 0 {
        None
    } else {
        match api_index(apis.drop_last(), path) {
            Some(i) => Some(i),
            None => if apis.last().path@ == path {
                Some(apis.len() - 1)
            } else {
                None
            },
        }
    }
}

/// The file the manifest maps `path` to.
pub open spec fn manifest_file(routes: Seq<(Seq<char>, Seq<char>)>, path: Seq<char>) -> Option<
    Seq<char>,
>
    decreases routes.len(),
{
    if routes.len() == 0 {
        None
    } else {
        match manifest_file(routes.drop_last(), path) {
            Some(f) => Some(f),
            None => if routes.last().0 == path {
                Some(routes.last().1)
            } else {
                None
            },
        }
    }
}

/// A file below `_server/` or `api/` of the output directory (compared
/// ASCII case-insensitively): never served as a file.
pub open spec fn is_private(out_dir: Seq<char>, file: Seq<char>) -> bool {
    let d = components(out_dir);
    let f = components(file);
    d.len() < f.len() && f.take(d.len() as int) == d && (ascii_lower(f[d.len() as int])
        == "_server"@ || ascii_lower(f[d.len() as int]) == "api"@)
}

/// The file a static request is answered with: the manifest's file for
/// the path, `index.html` for `/`, otherwise the request path confined to
/// the output directory; none for a path that climbs out or names a
/// private file.
pub open spec fn static_file(out_dir: Seq<char>, routes: Seq<(Seq<char>, Seq<char>)>, path: Seq<char>) -> Option<
    Seq<char>,
> {
    let file = match manifest_file(routes, path) {
        Some(f) => Some(join_path(out_dir, f)),
        None => if path == "/"@ {
            Some(join_path(out_dir, "index.html"@))
        } else {
            crate::http::static_path(out_dir, path)
        },
    };
    match file {
        Some(f) => if is_private(out_dir, f) {
            None
        } else {
            Some(f)
        },
        None => None,
    }
}

#[verifier::loop_isolation(false)]
fn is_private_of(out_dir: &str, file: &str) -> (r: bool)
    ensures
        r == is_private(out_dir@, file@),
{
    let d = path_components(out_dir);
    let f = path_components(file);
    if d.len() >= f.len() {
        return false;
    }
    for i in 0..d.len()
        invariant
            d@.len() < f@.len(),
            forall|k: int| 0 <= k < i ==> views(d@)[k] == views(f@)[k],
    {
        if !str_eq(d[i].as_str(), f[i].as_str()) {
            assert(views(f@).take(d@.len() as int)[i as int] != views(d@)[i as int]);
            return false;
        }
    }
    assert(views(f@).take(d@.len() as int) =~= views(d@));
    assert(views(f@)[d@.len() as int] == f@[d.len() as int]@);
    let first = to_ascii_lowercase(f[d.len()].as_str());
    str_eq(first.as_str(), "_server") || str_eq(first.as_str(), "api")
}

fn manifest_file_of(routes: &Vec<(String, String)>, path: &str) -> (r: Option<String>)
    ensures
        match manifest_file(header_pairs(routes@), path@) {
            Some(f) => r matches Some(s) && s@ == f,
            None => r is None,
        },
{
    let ghost rp = header_pairs(routes@);
    for i in 0..routes.len()
        invariant
            rp == header_pairs(routes@),
            manifest_file(rp.take(i as int), path@) is None,
    {
        assert(rp.take(i + 1).drop_last() =~= rp.take(i as int));
        assert(rp.take(i + 1).last() == rp[i as int]);
        if str_eq(routes[i].0.as_str(), path) {
            proof {
                lemma_manifest_prefix(rp, path@, i + 1, rp.len() as int);
                assert(rp.take(rp.len() as int) =~= rp);
            }
            return Some(routes[i].1.clone());
        }
    }
    assert(rp.take(rp.len() as int) =~= rp);
    None
}

proof fn lemma_manifest_prefix(rp: Seq<(Seq<char>, Seq<char>)>, path: Seq<char>, k: int, j: int)
    requires
        0 <= k <= j <= rp.len(),
        manifest_file(rp.take(k), path) is Some,
    ensures
        manifest_file(rp.take(j), path) == manifest_file(rp.take(k), path),
    decreases j - k,
{
    if k < j {
        lemma_manifest_prefix(rp, path, k, j - 1);
        assert(rp.take(j).drop_last() =~= rp.take(j - 1));
    }
}

proof fn lemma_api_prefix(apis: Seq<ApiRoute>, path: Seq<char>, k: int, j: int)
    requires
        0 <= k <= j <= apis.len(),
        api_index(apis.take(k), path) is Some,
    ensures
        api_index(apis.take(j), path) == api_index(apis.take(k), path),
    decreases j - k,
{
    if k < j {
        lemma_api_prefix(apis, path, k, j - 1);
        assert(apis.take(j).drop_last() =~= apis.take(j - 1));
    }
}

fn api_index_of(apis: &Vec<ApiRoute>, path: &str) -> (r: Option<usize>)
    ensures
        r matches Some(i) ==> i < apis@.len() && api_index(apis@, path@) == Some(i as int),
        r is None ==> api_index(apis@, path@) is None,
{
    for i in 0..apis.len()
        invariant
            api_index(apis@.take(i as int), path@) is None,
    {
        assert(apis@.take(i + 1).drop_last() =~= apis@.take(i as int));
        assert(apis@.take(i + 1).last() == apis@[i as int]);
        if str_eq(apis[i].path.as_str(), path) {
            proof {
                lemma_api_prefix(apis@, path@, i + 1, apis@.len() as int);
                assert(apis@.take(apis@.len() as int) =~= apis@);
            }
            return Some(i);
        }
    }
    assert(apis@.take(apis@.len() as int) =~= apis@);
    None
}

/// Routes a request path: API routes first, then the build timestamp,
/// then static files (see [`static_file`]).
pub fn route_request(
    out_dir: &str,
    routes: &Vec<(String, String)>,
    api_routes: &Vec<ApiRoute>,
    path: &str,
) -> (r: DevRoute)
    ensures
        match api_index(api_routes@, path@) {
            Some(i) => r == DevRoute::Api(i as usize),
            None => if path@ == "/__build_timestamp"@ {
                r is Timestamp
            } else {
                match static_file(out_dir@, header_pairs(routes@), path@) {
                    Some(f) => r matches DevRoute::File(p) && p@ == f,
                    None => r is NotFound,
                }
            },
        },
{
    match api_index_of(api_routes, path) {
        Some(i) => {
            return DevRoute::Api(i);
        },
        None => {},
    }
    if str_eq(path, "/__build_timestamp") {
        return DevRoute::Timestamp;
    }
    let file = match manifest_file_of(routes, path) {
        Some(f) => Some(crate::pipeline::join_path_of(out_dir, f.as_str())),
        None => if str_eq(path, "/") {
            Some(crate::pipeline::join_path_of(out_dir, "index.html"))
        } else {
            crate::http::safe_static_path(out_dir, path)
        },
    };
    match file {
        Some(f) => if is_private_of(out_dir, f.as_str()) {
            DevRoute::NotFound
        } else {
            DevRoute::File(f)
        },
        None => DevRoute::NotFound,
    }
}

/// The extension of a path's file name (`Path::extension`): after its last
/// `.`, unless that dot begins the name; none without a file name.
pub open spec fn extension_of(p: Seq<char>) -> Seq<char> {
    let t = crate::paths::trim_junk(crate::paths::split(p, '/'));
    if t.len() > 0 && t.last() != ".."@ {
        match crate::paths::last_index(t.last(), '.') {
            Some(k) => if k > 0 {
                t.last().skip(k + 1)
            } else {
                Seq::<char>::empty()
            },
            None => Seq::<char>::empty(),
        }
    } else {
        Seq::<char>::empty()
    }
}

/// The head of a served file: 200, its content type (from its
/// extension), its length.
pub open spec fn file_head(file: Seq<char>, len: nat) -> Seq<char> {
    "HTTP/1.1 200 OK\r\nContent-Type: "@ + mime_of(extension_of(file))
        + "\r\nAccess-Control-Allow-Origin: *\r\nContent-Length: "@ + dec(len) + "\r\n\r\n"@
}

pub fn file_response_head(file: &str, len: usize) -> (r: String)
    ensures
        r@ == file_head(file@, len as nat),
{
    let ext = crate::paths::path_extension(file);
    let mut s = owned("HTTP/1.1 200 OK\r\nContent-Type: ");
    push_str(&mut s, crate::http::mime_for_ext(ext.as_str()));
    push_str(&mut s, "\r\nAccess-Control-Allow-Origin: *\r\nContent-Length: ");
    push_dec(&mut s, len as u64);
    push_str(&mut s, "\r\n\r\n");
    s
}

/// The reply with the build timestamp text.
pub open spec fn timestamp_reply(ts: Seq<char>, len: nat) -> Seq<char> {
    "HTTP/1.1 200 OK\r\nContent-Type: text/plain\r\nContent-Length: "@ + dec(len) + "\r\n\r\n"@ + ts
}

/// `len` is the byte length of `ts`.
pub fn timestamp_response(ts: &str, len: usize) -> (r: String)
    ensures
        r@ == timestamp_reply(ts@, len as nat),
{
    let mut s = owned("HTTP/1.1 200 OK\r\nContent-Type: text/plain\r\nContent-Length: ");
    push_dec(&mut s, len as u64);
    push_str(&mut s, "\r\n\r\n");
    push_str(&mut s, ts);
    s
}

/// A file the dev server answers a request with is never a server-side
/// module or an api source: nothing below `_server/` or `api/` of the
/// output directory (in any letter case) is served.
pub proof fn law_private_never_served(out_dir: Seq<char>, routes: Seq<(Seq<char>, Seq<char>)>, path: Seq<char>)
    ensures
        static_file(out_dir, routes, path) matches Some(f) ==> !is_private(out_dir, f),
{
}

/// The number of line feeds in `s`.
pub open spec fn lf_count(s: Seq<char>) -> nat
    decreases s.len(),
{
    if s.len() == 0 {
        0
    } else {
        lf_count(s.drop_last()) + if s.last() == '\n' { 1nat } else { 0nat }
    }
}

/// Every carriage return in `s` is followed by a line feed, and every line
/// feed follows a carriage return.
pub open spec fn crlf_clean(s: Seq<char>) -> bool {
    forall|i: int| 0 <= i < s.len() ==> #[trigger] crlf_at(s, i)
}

/// The character at `i` is no lone carriage return or line feed.
pub open spec fn crlf_at(s: Seq<char>, i: int) -> bool {
    &&& s[i] == '\r' ==> i + 1 < s.len() && s[i + 1] == '\n'
    &&& s[i] == '\n' ==> i >= 1 && s[i - 1] == '\r'
}

/// How many of `hs` a middleware response passes on.
pub open spec fn kept_count(hs: Seq<(Seq<char>, Seq<char>)>) -> nat
    decreases hs.len(),
{
    if hs.len() == 0 {
        0
    } else {
        let (k, v) = hs.last();
        kept_count(hs.drop_last()) + if is_framing(k) || has_break(k) || has_break(v) {
            0nat
        } else {
            1nat
        }
    }
}

proof fn lemma_lf_count_add(a: Seq<char>, b: Seq<char>)
    ensures
        lf_count(a + b) == lf_count(a) + lf_count(b),
    decreases b.len(),
{
    if b.len() == 0 {
        assert(a + b =~= a);
    } else {
        lemma_lf_count_add(a, b.drop_last());
        assert((a + b).drop_last() =~= a + b.drop_last());
        assert((a + b).last() == b.last());
    }
}

proof fn lemma_lf_count_none(s: Seq<char>)
    requires
        !s.contains('\n'),
    ensures
        lf_count(s) == 0,
    decreases s.len(),
{
    if s.len() > 0 {
        assert(s.drop_last().contains('\n') ==> s.contains('\n'));
        lemma_lf_count_none(s.drop_last());
        assert(s.last() == s[s.len() - 1]);
    }
}

proof fn lemma_crlf_concat(a: Seq<char>, b: Seq<char>)
    requires
        crlf_clean(a),
        crlf_clean(b),
    ensures
        crlf_clean(a + b),
{
    let s = a + b;
    assert forall|i: int| 0 <= i < s.len() implies crlf_at(s, i) by {
        if i < a.len() {
            assert(crlf_at(a, i));
            assert(s[i] == a[i]);
            if a[i] == '\r' {
                assert(s[i + 1] == a[i + 1]);
            }
            if a[i] == '\n' {
                assert(s[i - 1] == a[i - 1]);
            }
        } else {
            let j = i - a.len();
            assert(crlf_at(b, j));
            assert(s[i] == b[j]);
            if b[j] == '\r' {
                assert(s[i + 1] == b[j + 1]);
            }
            if b[j] == '\n' {
                assert(s[i - 1] == b[j - 1]);
            }
        }
    }
}

proof fn lemma_header_line(k: Seq<char>, v: Seq<char>)
    requires
        !has_break(k),
        !has_break(v),
    ensures
        crlf_clean(k + ": "@ + v + "\r\n"@),
        lf_count(k + ": "@ + v + "\r\n"@) == 1,
{
    reveal_strlit(": ");
    reveal_strlit("\r\n");
    let front = k + ": "@ + v;
    let l = front + "\r\n"@;
    assert(!(": "@).contains('\n')) by {
        assert(forall|i: int| 0 <= i < 2 ==> (": "@)[i] != '\n');
    }
    lemma_lf_count_none(k);
    lemma_lf_count_none(": "@);
    lemma_lf_count_none(v);
    lemma_lf_count_add(k, ": "@);
    lemma_lf_count_add(k + ": "@, v);
    lemma_lf_count_add(front, "\r\n"@);
    assert(("\r\n"@).drop_last() =~= seq!['\r']);
    assert(seq!['\r'].drop_last() =~= Seq::<char>::empty());
    assert(lf_count(Seq::<char>::empty()) == 0);
    assert(seq!['\r'].last() == '\r');
    assert(lf_count(seq!['\r']) == 0);
    assert(lf_count("\r\n"@) == 1);
    assert forall|i: int| 0 <= i < front.len() implies front[i] != '\r' && front[i] != '\n' by {
        if i < k.len() {
            assert(front[i] == k[i]);
        } else if i < k.len() + 2 {
            assert(front[i] == (": "@)[i - k.len()]);
        } else {
            assert(front[i] == v[i - k.len() - 2]);
        }
    }
    assert forall|i: int| 0 <= i < l.len() implies crlf_at(l, i) by {
        if i < front.len() {
            assert(l[i] == front[i]);
        } else if i == front.len() {
            assert(l[i] == '\r');
            assert(l[i + 1] == '\n');
        } else {
            assert(l[i] == '\n');
            assert(l[i - 1] == '\r');
        }
    }
}

/// A middleware cannot inject a header line: in the header block relayed
/// from its response every carriage return is followed by a line feed and
/// every line feed follows a carriage return, and there is exactly one line
/// break per header passed on.
pub proof fn law_no_header_injection(hs: Seq<(Seq<char>, Seq<char>)>)
    ensures
        crlf_clean(header_lines(hs, true)),
        lf_count(header_lines(hs, true)) == kept_count(hs),
    decreases hs.len(),
{
    if hs.len() > 0 {
        let (k, v) = hs.last();
        law_no_header_injection(hs.drop_last());
        let prev = header_lines(hs.drop_last(), true);
        if is_framing(k) || has_break(k) || has_break(v) {
            assert(header_lines(hs, true) =~= prev);
        } else {
            lemma_header_line(k, v);
            lemma_crlf_concat(prev, k + ": "@ + v + "\r\n"@);
            lemma_lf_count_add(prev, k + ": "@ + v + "\r\n"@);
        }
    } else {
        assert(lf_count(header_lines(hs, true)) == 0);
    }
}


/// The outcome a middleware run reports in its JSON envelope `text`: the
/// members `kind`, `url`, `status`, `body` (see [`outcome_of`]), and for a
/// response the two-string pairs of `headers`; a text that is not JSON is a
/// failure.
pub open spec fn report_outcome(text: Seq<char>) -> (int, Seq<char>, u64, Seq<u8>) {
    match json_text_value(text) {
        None => outcome_of(None, None, None, None),
        Some(v) => outcome_of(
            text_member(v, "kind"@),
            text_member(v, "url"@),
            u64_member(v, "status"@),
            text_member(v, "body"@),
        ),
    }
}

/// Reads a middleware run's envelope (see [`report_outcome`]).
pub fn middleware_from_report(text: &str) -> (r: MiddlewareOutcome)
    ensures
        outcome_view(r) == report_outcome(text@),
        r matches MiddlewareOutcome::Respond { headers: h, .. } ==> json_text_value(text@) matches Some(
            v,
        ) && header_pairs(h@) == pairs_member(v, "headers"@),
{
    match parse_json_text(text) {
        None => middleware_outcome(None, None, None, Vec::new(), None),
        Some(v) => {
            let headers = pairs_member_of(&v, "headers");
            assert(header_pairs(headers@) =~= pair_views_of(headers@));
            middleware_outcome(
                text_member_of(&v, "kind"),
                text_member_of(&v, "url"),
                u64_member_of(&v, "status"),
                headers,
                text_member_of(&v, "body"),
            )
        },
    }
}

/// The reply relaying an API handler run whose standard output is
/// `stdout`: the `status` (500 when absent or unreadable), the two-string
/// `headers` pairs and the base64 `body` of its JSON report.
pub open spec fn relay_of(stdout: Seq<u8>) -> (Option<u64>, Seq<(Seq<char>, Seq<char>)>, Seq<char>) {
    match json_bytes_value(stdout) {
        None => (None, seq![], Seq::empty()),
        Some(v) => (
            u64_member(v, "status"@),
            pairs_member(v, "headers"@),
            match text_member(v, "body"@) {
                Some(b) => b,
                None => Seq::empty(),
            },
        ),
    }
}

pub fn api_relay(stdout: &[u8]) -> (r: (String, Vec<u8>))
    ensures
        r.1@ == b64_decode(relay_of(stdout@).2),
        r.0@ == relayed_head(
            match relay_of(stdout@).0 {
                Some(s) => s,
                None => 500,
            },
            relay_of(stdout@).1,
            false,
            r.1@.len(),
        ),
{
    match parse_json_bytes(stdout) {
        None => {
            let none: Vec<(String, String)> = Vec::new();
            assert(header_pairs(none@) =~= Seq::<(Seq<char>, Seq<char>)>::empty());
            api_reply(None, &none, None)
        },
        Some(v) => {
            let headers = pairs_member_of(&v, "headers");
            assert(header_pairs(headers@) =~= pair_views_of(headers@));
            api_reply(u64_member_of(&v, "status"), &headers, text_member_of(&v, "body"))
        },
    }
}

} // verus!
