//! The static site around the compiled modules: prerendered page shells,
//! sitemap.xml and robots.txt.

use vstd::prelude::*;
use crate::client::lines_text;
use crate::codegen::line;
use crate::routes::{depth_prefix, route_depth};
use crate::text::{
    Escape, chars_of, char_to_uppercase, escape, escape_char, escaped, lines, owned, push_chars, push_escaped,
    push_str, repeat, split_lines, starts_with, str_eq, string_of, trim_end_matches,
    unicode_char_to_uppercase, vec_trim_end_matches, views,
};

verus! {

broadcast use vstd::string::group_string_axioms;

/// One built page: its URL, its HTML file, its compiled server module, the
/// islands it mounts (name, module path, whether it takes children), its
/// stylesheets, whether it loads data per request, and whether it stays
/// out of the sitemap.
pub struct PageRoute {
    pub route: String,
    pub html_file: String,
    pub mjs_rel: String,
    pub page_roots: Vec<(String, String, bool)>,
    pub css_files: Vec<String>,
    pub has_data: bool,
    pub noindex: bool,
}

/// `s` with every non-overlapping occurrence of the non-empty `from`,
/// left to right, replaced by `to` (`str::replace`).
pub open spec fn replace_all(s: Seq<char>, from: Seq<char>, to: Seq<char>) -> Seq<char>
    decreases s.len(),
{
    if s.len() == 0 || from.len() == 0 {
        s
    } else if starts_with(s, from) {
        to + replace_all(s.skip(from.len() as int), from, to)
    } else {
        seq![s[0]] + replace_all(s.drop_first(), from, to)
    }
}

fn replace_str(s: &str, from: &str, to: &str) -> (r: String)
    requires
        from@.len() > 0,
    ensures
        r@ == replace_all(s@, from@, to@),
{
    let cs = chars_of(s);
    let f = chars_of(from);
    let mut out = String::new();
    let mut i: usize = 0;
    assert(cs@.skip(0) =~= cs@);
    while i < cs.len()
        invariant
            cs@ == s@,
            f@ == from@,
            f@.len() > 0,
            i <= cs@.len(),
            replace_all(s@, from@, to@) == out@ + replace_all(cs@.skip(i as int), from@, to@),
        decreases cs.len() - i,
    {
        let ghost rest = cs@.skip(i as int);
        if crate::text::vec_occurs_at(&cs, &f, i) {
            assert(rest.subrange(0, f@.len() as int) =~= cs@.subrange(i as int, i + f@.len()));
            assert(starts_with(rest, from@));
            push_str(&mut out, to);
            assert(rest.skip(f@.len() as int) =~= cs@.skip(i + f@.len()));
            i = i + f.len();
        } else {
            assert(!starts_with(rest, from@)) by {
                if starts_with(rest, from@) {
                    assert(rest.subrange(0, f@.len() as int) =~= cs@.subrange(
                        i as int,
                        i + f@.len(),
                    ));
                }
            }
            crate::text::push_char(&mut out, cs[i]);
            assert(rest.drop_first() =~= cs@.skip(i + 1));
            i = i + 1;
        }
    }
    assert(cs@.skip(i as int).len() == 0);
    assert(out@ =~= out@ + Seq::<char>::empty());
    out
}

/// HTML entities turned back into characters, in this order: `&lt;`,
/// `&gt;`, `&amp;`, `&#39;`, `&quot;`.
pub open spec fn unescaped(s: Seq<char>) -> Seq<char> {
    replace_all(
        replace_all(
            replace_all(replace_all(replace_all(s, "&lt;"@, "<"@), "&gt;"@, ">"@), "&amp;"@, "&"@),
            "&#39;"@,
            "'"@,
        ),
        "&quot;"@,
        "\""@,
    )
}

pub fn unescape_html(s: &str) -> (r: String)
    ensures
        r@ == unescaped(s@),
{
    proof {
        reveal_strlit("&lt;");
        reveal_strlit("&gt;");
        reveal_strlit("&amp;");
        reveal_strlit("&#39;");
        reveal_strlit("&quot;");
    }
    let a = replace_str(s, "&lt;", "<");
    let b = replace_str(a.as_str(), "&gt;", ">");
    let c = replace_str(b.as_str(), "&amp;", "&");
    let d = replace_str(c.as_str(), "&#39;", "'");
    replace_str(d.as_str(), "&quot;", "\"")
}

/// `s` with the characters of `a` written as HTML entities, the others kept.
pub open spec fn escaped_some(a: Set<char>, s: Seq<char>) -> Seq<char>
    decreases s.len(),
{
    if s.len() == 0 {
        seq![]
    } else {
        (if a.contains(s[0]) {
            escape_char(Escape::Html, s[0])
        } else {
            seq![s[0]]
        }) + escaped_some(a, s.drop_first())
    }
}

proof fn lemma_escaped_some_last(a: Set<char>, s: Seq<char>)
    requires
        s.len() > 0,
    ensures
        escaped_some(a, s) == escaped_some(a, s.drop_last()) + (if a.contains(s.last()) {
            escape_char(Escape::Html, s.last())
        } else {
            seq![s.last()]
        }),
    decreases s.len(),
{
    if s.len() > 1 {
        lemma_escaped_some_last(a, s.drop_first());
        assert(s.drop_first().drop_last() =~= s.drop_last().drop_first());
        assert(s.drop_last()[0] == s[0]);
    } else {
        assert(s.drop_first() =~= Seq::<char>::empty());
        assert(s.drop_last() =~= Seq::<char>::empty());
    }
}

proof fn lemma_escaped_some_none(s: Seq<char>)
    ensures
        escaped_some(Set::empty(), s) == s,
    decreases s.len(),
{
    if s.len() > 0 {
        lemma_escaped_some_none(s.drop_first());
        assert(seq![s[0]] + s.drop_first() =~= s);
    }
}

/// HTML-escaping text without `&` writes its other four special characters
/// as entities.
proof fn lemma_escaped_html(s: Seq<char>)
    requires
        !s.contains('&'),
    ensures
        escaped(Escape::Html, s) == escaped_some(set!['<', '>', '\'', '"'], s),
    decreases s.len(),
{
    if s.len() > 0 {
        assert(!s.drop_last().contains('&')) by {
            if s.drop_last().contains('&') {
                let i = choose|i: int| 0 <= i < s.drop_last().len() && s.drop_last()[i] == '&';
                assert(s[i] == '&');
            }
        }
        lemma_escaped_html(s.drop_last());
        lemma_escaped_some_last(set!['<', '>', '\'', '"'], s);
        assert(s.last() == s[s.len() - 1]);
    }
}

/// Replacing leaves text alone up to the first character of the pattern.
proof fn lemma_replace_skip(p: Seq<char>, r: Seq<char>, from: Seq<char>, to: Seq<char>)
    requires
        from.len() > 0,
        forall|i: int| 0 <= i < p.len() ==> p[i] != from[0],
    ensures
        replace_all(p + r, from, to) == p + replace_all(r, from, to),
    decreases p.len(),
{
    if p.len() == 0 {
        assert(p + r =~= r);
    } else {
        let s = p + r;
        assert(s[0] == p[0]);
        assert(!starts_with(s, from)) by {
            if starts_with(s, from) {
                assert(s.subrange(0, from.len() as int)[0] == s[0]);
            }
        }
        assert(s.drop_first() =~= p.drop_first() + r);
        lemma_replace_skip(p.drop_first(), r, from, to);
        assert(seq![s[0]] + (p.drop_first() + replace_all(r, from, to)) =~= p + replace_all(
            r,
            from,
            to,
        ));
    }
}

pub open spec fn html_special(c: char) -> bool {
    c == '<' || c == '>' || c == '&' || c == '\'' || c == '"'
}

/// One pass of `unescaped` turns the entity of `c` back into `c` and
/// leaves the other entities as they are.
proof fn lemma_unescape_step(a: Set<char>, s: Seq<char>, c: char)
    requires
        !s.contains('&'),
        forall|x: char| a.contains(x) ==> x == '<' || x == '>' || x == '\'' || x == '"',
        html_special(c),
    ensures
        replace_all(escaped_some(a, s), escape_char(Escape::Html, c), seq![c]) == escaped_some(
            a.remove(c),
            s,
        ),
    decreases s.len(),
{
    reveal_strlit("&amp;");
    reveal_strlit("&lt;");
    reveal_strlit("&gt;");
    reveal_strlit("&#39;");
    reveal_strlit("&quot;");
    let from = escape_char(Escape::Html, c);
    let to = seq![c];
    if s.len() > 0 {
        let x = s[0];
        let s1 = s.drop_first();
        assert(!s1.contains('&')) by {
            if s1.contains('&') {
                let i = choose|i: int| 0 <= i < s1.len() && s1[i] == '&';
                assert(s[i + 1] == '&');
            }
        }
        assert(x != '&') by {
            if x == '&' {
                assert(s.contains('&'));
            }
        }
        lemma_unescape_step(a, s1, c);
        let rest = escaped_some(a, s1);
        assert(escaped_some(a, s) == (if a.contains(x) {
            escape_char(Escape::Html, x)
        } else {
            seq![x]
        }) + rest);
        assert(from[0] == '&');
        if a.contains(x) {
            let e = escape_char(Escape::Html, x);
            if x == c {
                assert((e + rest).subrange(0, e.len() as int) =~= e);
                assert((e + rest).skip(e.len() as int) =~= rest);
            } else {
                assert(e[0] == '&');
                assert(e[1] != from[1]);
                assert(!starts_with(e + rest, from)) by {
                    if starts_with(e + rest, from) {
                        assert((e + rest).subrange(0, from.len() as int)[1] == (e + rest)[1]);
                    }
                }
                let p = e.drop_first();
                assert(forall|i: int| 0 <= i < p.len() ==> p[i] != '&');
                assert((e + rest).drop_first() =~= p + rest);
                lemma_replace_skip(p, rest, from, to);
                assert(seq![(e + rest)[0]] + (p + replace_all(rest, from, to)) =~= e
                    + replace_all(rest, from, to));
            }
        } else {
            lemma_replace_skip(seq![x], rest, from, to);
        }
    }
}

/// HTML-escaped text without `&` comes back unchanged from
/// `unescape_html`: the prerendered markup is restored as it was written.
pub proof fn law_unescape_html_roundtrip(s: Seq<char>)
    requires
        !s.contains('&'),
    ensures
        unescaped(escaped(Escape::Html, s)) == s,
{
    reveal_strlit("&amp;");
    reveal_strlit("&lt;");
    reveal_strlit("&gt;");
    reveal_strlit("&#39;");
    reveal_strlit("&quot;");
    reveal_strlit("<");
    reveal_strlit(">");
    reveal_strlit("&");
    reveal_strlit("'");
    reveal_strlit("\"");
    let a0 = set!['<', '>', '\'', '"'];
    lemma_escaped_html(s);
    lemma_unescape_step(a0, s, '<');
    let a1 = a0.remove('<');
    lemma_unescape_step(a1, s, '>');
    let a2 = a1.remove('>');
    lemma_unescape_step(a2, s, '&');
    let a3 = a2.remove('&');
    lemma_unescape_step(a3, s, '\'');
    let a4 = a3.remove('\'');
    lemma_unescape_step(a4, s, '"');
    let a5 = a4.remove('"');
    assert(a5 =~= Set::<char>::empty());
    lemma_escaped_some_none(s);
    assert("<"@ =~= seq!['<']);
    assert(">"@ =~= seq!['>']);
    assert("&"@ =~= seq!['&']);
    assert("'"@ =~= seq!['\'']);
    assert("\""@ =~= seq!['"']);
}

/// The first character upper-cased (Unicode mapping), the rest kept.
pub open spec fn capitalized(s: Seq<char>) -> Seq<char> {
    if s.len() == 0 {
        Seq::<char>::empty()
    } else {
        unicode_char_to_uppercase(s[0]) + s.drop_first()
    }
}

pub fn capitalize_first(s: &str) -> (r: String)
    ensures
        r@ == capitalized(s@),
{
    let cs = chars_of(s);
    if cs.len() == 0 {
        return String::new();
    }
    let mut out = char_to_uppercase(cs[0]);
    let rest = crate::text::slice_chars(&cs, 1, cs.len());
    assert(rest@ =~= s@.drop_first());
    push_chars(&mut out, &rest);
    out
}

/// XML-escapes text for the sitemap: `& < > " '` as entities.
pub fn xml_escape(s: &str) -> (r: String)
    ensures
        r@ == escaped(Escape::Xml, s@),
{
    escape(s, Escape::Xml)
}

/// The runtime module as seen from a page with depth prefix `prefix`.
pub open spec fn runtime_ref(prefix: Seq<char>) -> Seq<char> {
    if prefix.len() == 0 {
        "./runtime.mjs"@
    } else {
        prefix + "runtime.mjs"@
    }
}

/// The head of a page shell: the import map for the runtime, the page's
/// own head lines (indented), its stylesheets.
pub open spec fn shell_head(prefix: Seq<char>, head: Option<Seq<char>>, css: Seq<Seq<char>>) -> Seq<
    char,
> {
    "<!DOCTYPE html>\n<html>\n<head>\n"@ + "  <script type=\"importmap\">\n  {\n    \"imports\": {\n      \"@marisjs/runtime\": \""@
        + runtime_ref(prefix) + "\"\n    }\n  }\n  </script>\n"@ + (match head {
        Some(h) => lines_text(lines(h), 1),
        None => Seq::<char>::empty(),
    }) + css_links(prefix, css)
}

pub open spec fn css_links(prefix: Seq<char>, css: Seq<Seq<char>>) -> Seq<char>
    decreases css.len(),
{
    if css.len() == 0 {
        seq![]
    } else {
        css_links(prefix, css.drop_last()) + "  <link rel=\"stylesheet\" href=\""@ + prefix
            + css.last() + "\">\n"@
    }
}

/// The names in `roots` before position `k`.
pub open spec fn names_before(roots: Seq<(Seq<char>, Seq<char>, bool)>, k: int) -> Seq<Seq<char>> {
    roots.take(k).map_values(|r: (Seq<char>, Seq<char>, bool)| r.0)
}

/// One import per island component (its first occurrence), from the
/// module path made relative to the page.
pub open spec fn island_imports(roots: Seq<(Seq<char>, Seq<char>, bool)>, prefix: Seq<char>) -> Seq<
    char,
>
    decreases roots.len(),
{
    if roots.len() == 0 {
        seq![]
    } else {
        let r = roots.last();
        island_imports(roots.drop_last(), prefix) + if names_before(roots, roots.len() - 1).contains(
            r.0,
        ) {
            Seq::<char>::empty()
        } else {
            "    import { "@ + r.0 + " } from '"@ + (if prefix.len() == 0 {
                "./"@
            } else {
                prefix
            }) + r.1 + "';\n"@
        }
    }
}

/// The mount loop of one island: every placeholder of the component is
/// mounted with its serialized props; an island with children first
/// detaches the server-rendered child and passes it on.
pub open spec fn mount_line(name: Seq<char>, has_children: bool) -> Seq<char> {
    if has_children {
        "    for (const el of document.querySelectorAll('[data-hydrate=\""@ + name
            + "\"]')) { const _children = el.firstChild; if (_children) _children.remove(); mount(el, () => "@
            + name
            + "({ ...(el.dataset.props ? JSON.parse(el.dataset.props) : {}), children: _children })); }\n"@
    } else {
        "    for (const el of document.querySelectorAll('[data-hydrate=\""@ + name
            + "\"]')) { mount(el, () => "@ + name
            + "(el.dataset.props ? JSON.parse(el.dataset.props) : {})); }\n"@
    }
}

pub open spec fn mount_lines(roots: Seq<(Seq<char>, Seq<char>, bool)>) -> Seq<char>
    decreases roots.len(),
{
    if roots.len() == 0 {
        seq![]
    } else {
        mount_lines(roots.drop_last()) + mount_line(roots.last().0, roots.last().2)
    }
}

pub open spec fn root_views(roots: Seq<(String, String, bool)>) -> Seq<(Seq<char>, Seq<char>, bool)> {
    roots.map_values(|r: (String, String, bool)| (r.0@, r.1@, r.2))
}

/// The prerendered HTML document of a page from its server render (HTML
/// and optional head): import map, head, stylesheets, the unescaped HTML
/// in `#root`, then the island imports and mount loops.
pub open spec fn page_document(page: PageRoute, html: Seq<char>, head: Option<Seq<char>>) -> Seq<
    char,
> {
    let prefix = repeat("../"@, route_depth(page.route@));
    let roots = root_views(page.page_roots@);
    shell_head(prefix, head, views(page.css_files@)) + "</head>\n<body>\n"@ + "  <div id=\"root\">\n"@
        + "  "@ + unescaped(html) + "\n"@ + "  </div>\n"@ + "  <script type=\"module\">\n"@ + (if roots.len()
        > 0 {
        "    import { mount } from '@marisjs/runtime';\n"@ + island_imports(roots, prefix)
            + mount_lines(roots)
    } else {
        Seq::<char>::empty()
    }) + "  </script>\n</body>\n</html>\n"@
}

#[verifier::rlimit(40)]
fn push_shell_head(output: &mut String, prefix: &str, head: &Option<String>, css: &Vec<String>)
    ensures
        final(output)@ == old(output)@ + shell_head(
            prefix@,
            match head {
                Some(h) => Some(h@),
                None => None,
            },
            views(css@),
        ),
{
    let ghost start = output@;
    push_str(output, "<!DOCTYPE html>\n<html>\n<head>\n");
    push_str(
        output,
        "  <script type=\"importmap\">\n  {\n    \"imports\": {\n      \"@marisjs/runtime\": \"",
    );
    if chars_of(prefix).len() == 0 {
        push_str(output, "./runtime.mjs");
    } else {
        push_str(output, prefix);
        push_str(output, "runtime.mjs");
    }
    push_str(output, "\"\n    }\n  }\n  </script>\n");
    let ghost mid = output@;
    match head {
        Some(h) => {
            let ls = split_lines(h.as_str());
            for j in 0..ls.len()
                invariant
                    output@ == mid + lines_text(views(ls@).take(j as int), 1),
            {
                assert(views(ls@).take(j + 1).drop_last() =~= views(ls@).take(j as int));
                assert(views(ls@).take(j + 1).last() == ls@[j as int]@);
                crate::codegen::writeln(output, 1, ls[j].as_str());
                assert(output@ =~= mid + lines_text(views(ls@).take(j + 1), 1));
            }
            assert(views(ls@).take(ls@.len() as int) =~= views(ls@));
        },
        None => {},
    }
    let ghost mid2 = output@;
    for i in 0..css.len()
        invariant
            output@ == mid2 + css_links(prefix@, views(css@).take(i as int)),
    {
        assert(views(css@).take(i + 1).drop_last() =~= views(css@).take(i as int));
        assert(views(css@).take(i + 1).last() == css@[i as int]@);
        push_str(output, "  <link rel=\"stylesheet\" href=\"");
        push_str(output, prefix);
        push_str(output, css[i].as_str());
        push_str(output, "\">\n");
        assert(output@ =~= mid2 + css_links(prefix@, views(css@).take(i + 1)));
    }
    assert(views(css@).take(css@.len() as int) =~= views(css@));
    assert(output@ =~= start + shell_head(
        prefix@,
        match head {
            Some(h) => Some(h@),
            None => None,
        },
        views(css@),
    ));
}

fn name_seen(roots: &Vec<(String, String, bool)>, k: usize, name: &str) -> (r: bool)
    requires
        k <= roots@.len(),
    ensures
        r == names_before(root_views(roots@), k as int).contains(name@),
{
    let ghost nb = names_before(root_views(roots@), k as int);
    for j in 0..k
        invariant
            k <= roots@.len(),
            nb == names_before(root_views(roots@), k as int),
            forall|m: int| 0 <= m < j ==> nb[m] != name@,
    {
        assert(nb[j as int] == roots@[j as int].0@);
        if str_eq(roots[j].0.as_str(), name) {
            return true;
        }
    }
    false
}

fn push_islands(output: &mut String, roots: &Vec<(String, String, bool)>, prefix: &str)
    ensures
        final(output)@ == old(output)@ + island_imports(root_views(roots@), prefix@) + mount_lines(
            root_views(roots@),
        ),
{
    let ghost start = output@;
    let ghost rv = root_views(roots@);
    for i in 0..roots.len()
        invariant
            rv == root_views(roots@),
            output@ == start + island_imports(rv.take(i as int), prefix@),
    {
        assert(rv.take(i + 1).drop_last() =~= rv.take(i as int));
        assert(rv.take(i + 1).last() == rv[i as int]);
        assert(names_before(rv.take(i + 1), i as int) =~= names_before(rv, i as int));
        if !name_seen(roots, i, roots[i].0.as_str()) {
            push_str(output, "    import { ");
            push_str(output, roots[i].0.as_str());
            push_str(output, " } from '");
            if chars_of(prefix).len() == 0 {
                push_str(output, "./");
            } else {
                push_str(output, prefix);
            }
            push_str(output, roots[i].1.as_str());
            push_str(output, "';\n");
        }
        assert(output@ =~= start + island_imports(rv.take(i + 1), prefix@));
    }
    assert(rv.take(rv.len() as int) =~= rv);
    let ghost mid = output@;
    for i in 0..roots.len()
        invariant
            rv == root_views(roots@),
            output@ == mid + mount_lines(rv.take(i as int)),
    {
        assert(rv.take(i + 1).drop_last() =~= rv.take(i as int));
        assert(rv.take(i + 1).last() == rv[i as int]);
        let name = roots[i].0.as_str();
        push_str(output, "    for (const el of document.querySelectorAll('[data-hydrate=\"");
        push_str(output, name);
        if roots[i].2 {
            push_str(
                output,
                "\"]')) { const _children = el.firstChild; if (_children) _children.remove(); mount(el, () => ",
            );
            push_str(output, name);
            push_str(
                output,
                "({ ...(el.dataset.props ? JSON.parse(el.dataset.props) : {}), children: _children })); }\n",
            );
        } else {
            push_str(output, "\"]')) { mount(el, () => ");
            push_str(output, name);
            push_str(output, "(el.dataset.props ? JSON.parse(el.dataset.props) : {})); }\n");
        }
        assert(output@ =~= mid + mount_lines(rv.take(i + 1)));
    }
    assert(rv.take(rv.len() as int) =~= rv);
}

/// The prerendered document of `page` from its server render; none when
/// the page's module produced nothing to render (its file is missing).
pub fn generate_page_html(page: &PageRoute, server_html: Option<(String, Option<String>)>) -> (r:
    Option<String>)
    ensures
        match server_html {
            None => r is None,
            Some((html, head)) => r matches Some(doc) && doc@ == page_document(
                *page,
                html@,
                match head {
                    Some(h) => Some(h@),
                    None => None,
                },
            ),
        },
{
    let (html_content, head_content) = match server_html {
        Some(p) => p,
        None => {
            return None;
        },
    };
    let prefix = depth_prefix(page.route.as_str());
    let mut html = String::new();
    push_shell_head(&mut html, prefix.as_str(), &head_content, &page.css_files);
    push_str(&mut html, "</head>\n<body>\n");
    push_str(&mut html, "  <div id=\"root\">\n");
    push_str(&mut html, "  ");
    let body = unescape_html(html_content.as_str());
    push_str(&mut html, body.as_str());
    push_str(&mut html, "\n");
    push_str(&mut html, "  </div>\n");
    push_str(&mut html, "  <script type=\"module\">\n");
    let ghost before_islands = html@;
    if page.page_roots.len() > 0 {
        push_str(&mut html, "    import { mount } from '@marisjs/runtime';\n");
        push_islands(&mut html, &page.page_roots, prefix.as_str());
    }
    push_str(&mut html, "  </script>\n</body>\n</html>\n");
    assert(html@ =~= page_document(
        *page,
        html_content@,
        match head_content {
            Some(h) => Some(h@),
            None => None,
        },
    ));
    Some(html)
}

/// The sitemap of the built pages for the site at `site_url`: one `<url>`
/// per page not marked noindex, its absolute location XML-escaped.
pub open spec fn sitemap(pages: Seq<(Seq<char>, bool)>, site_url: Seq<char>) -> Seq<char> {
    "<?xml version=\"1.0\" encoding=\"UTF-8\"?>\n"@
        + "<urlset xmlns=\"http://www.sitemaps.org/schemas/sitemap/0.9\">\n"@ + sitemap_urls(
        pages,
        trim_end_matches(site_url, "/"@),
    ) + "</urlset>\n"@
}

pub open spec fn sitemap_loc(route: Seq<char>, base: Seq<char>) -> Seq<char> {
    if route == "/"@ {
        base + "/"@
    } else {
        base + escaped(Escape::Xml, route)
    }
}

pub open spec fn sitemap_urls(pages: Seq<(Seq<char>, bool)>, base: Seq<char>) -> Seq<char>
    decreases pages.len(),
{
    if pages.len() == 0 {
        seq![]
    } else {
        sitemap_urls(pages.drop_last(), base) + if pages.last().1 {
            Seq::<char>::empty()
        } else {
            "  <url><loc>"@ + escaped(Escape::Xml, sitemap_loc(pages.last().0, base))
                + "</loc></url>\n"@
        }
    }
}

/// Route and noindex flag of each page.
pub open spec fn page_index(pages: Seq<PageRoute>) -> Seq<(Seq<char>, bool)> {
    pages.map_values(|p: PageRoute| (p.route@, p.noindex))
}

pub fn sitemap_xml(pages: &Vec<PageRoute>, site_url: &str) -> (r: String)
    ensures
        r@ == sitemap(page_index(pages@), site_url@),
{
    let base = string_of(&vec_trim_end_matches(&chars_of(site_url), &chars_of("/")));
    let mut xml = owned("<?xml version=\"1.0\" encoding=\"UTF-8\"?>\n");
    push_str(&mut xml, "<urlset xmlns=\"http://www.sitemaps.org/schemas/sitemap/0.9\">\n");
    let ghost start = xml@;
    let ghost pi = page_index(pages@);
    for i in 0..pages.len()
        invariant
            pi == page_index(pages@),
            xml@ == start + sitemap_urls(pi.take(i as int), base@),
    {
        assert(pi.take(i + 1).drop_last() =~= pi.take(i as int));
        assert(pi.take(i + 1).last() == pi[i as int]);
        let page = &pages[i];
        if !page.noindex {
            let mut loc = base.clone();
            if str_eq(page.route.as_str(), "/") {
                push_str(&mut loc, "/");
            } else {
                push_escaped(&mut loc, page.route.as_str(), Escape::Xml);
            }
            push_str(&mut xml, "  <url><loc>");
            push_escaped(&mut xml, loc.as_str(), Escape::Xml);
            push_str(&mut xml, "</loc></url>\n");
        }
        assert(xml@ =~= start + sitemap_urls(pi.take(i + 1), base@));
    }
    assert(pi.take(pi.len() as int) =~= pi);
    push_str(&mut xml, "</urlset>\n");
    assert(xml@ =~= sitemap(page_index(pages@), site_url@));
    xml
}

/// The default robots.txt: everything allowed, and the sitemap's location
/// when the site URL is known.
pub open spec fn robots(site_url: Option<Seq<char>>) -> Seq<char> {
    "User-agent: *\nAllow: /\n"@ + match site_url {
        Some(u) => "\nSitemap: "@ + trim_end_matches(u, "/"@) + "/sitemap.xml\n"@,
        None => Seq::<char>::empty(),
    }
}

pub fn robots_txt(site_url: Option<&str>) -> (r: String)
    ensures
        r@ == robots(
            match site_url {
                Some(u) => Some(u@),
                None => None,
            },
        ),
{
    let mut content = owned("User-agent: *\nAllow: /\n");
    match site_url {
        Some(u) => {
            push_str(&mut content, "\nSitemap: ");
            let t = vec_trim_end_matches(&chars_of(u), &chars_of("/"));
            push_chars(&mut content, &t);
            push_str(&mut content, "/sitemap.xml\n");
        },
        None => {},
    }
    content
}

/// The pages not marked noindex, in order.
pub open spec fn indexed_pages(pages: Seq<(Seq<char>, bool)>) -> Seq<(Seq<char>, bool)>
    decreases pages.len(),
{
    if pages.len() == 0 {
        seq![]
    } else if pages.last().1 {
        indexed_pages(pages.drop_last())
    } else {
        indexed_pages(pages.drop_last()).push(pages.last())
    }
}

/// A page marked noindex never reaches the sitemap: the sitemap is that of
/// the other pages alone.
pub proof fn law_sitemap_skips_noindex(pages: Seq<(Seq<char>, bool)>, base: Seq<char>)
    ensures
        sitemap_urls(pages, base) == sitemap_urls(indexed_pages(pages), base),
    decreases pages.len(),
{
    if pages.len() > 0 {
        law_sitemap_skips_noindex(pages.drop_last(), base);
        if !pages.last().1 {
            let f = indexed_pages(pages);
            assert(f.drop_last() =~= indexed_pages(pages.drop_last()));
            assert(f.last() == pages.last());
        }
    }
}

/// What a prerender run printed, read as page HTML and head: nothing is
/// an empty page; a JSON object with an `html` string is that HTML and its
/// `head` string, if any; a JSON string is the HTML; anything else is the
/// printed text itself.
pub open spec fn prerendered(
    printed: Seq<char>,
    html: Option<Seq<char>>,
    head: Option<Seq<char>>,
    as_string: Option<Seq<char>>,
) -> (Seq<char>, Option<Seq<char>>) {
    if printed.len() == 0 {
        (Seq::empty(), None)
    } else {
        match html {
            Some(h) => (h, head),
            None => match as_string {
                Some(s) => (s, None),
                None => (printed, None),
            },
        }
    }
}

/// Reads a prerender run's trimmed output (see [`prerendered`]); `html`,
/// `head` and `as_string` are what its JSON holds, none when it is not
/// JSON.
pub fn prerender_result(
    printed: &str,
    html: Option<String>,
    head: Option<String>,
    as_string: Option<String>,
) -> (r: (String, Option<String>))
    ensures
        ({
            let p = prerendered(
                printed@,
                match html { Some(h) => Some(h@), None => None },
                match head { Some(h) => Some(h@), None => None },
                match as_string { Some(s) => Some(s@), None => None },
            );
            r.0@ == p.0 && match p.1 {
                Some(h) => r.1 matches Some(x) && x@ == h,
                None => r.1 is None,
            }
        }),
{
    if chars_of(printed).len() == 0 {
        return (String::new(), None);
    }
    match html {
        Some(h) => (h, head),
        None => match as_string {
            Some(s) => (s, None),
            None => (owned(printed), None),
        },
    }
}



/// The stylesheet link of `css` with path prefix `prefix`.
pub open spec fn stylesheet_link(prefix: Seq<char>, css: Seq<char>) -> Seq<char> {
    "  <link rel=\"stylesheet\" href=\""@ + prefix + css + "\">\n"@
}

proof fn lemma_css_link_at(prefix: Seq<char>, css: Seq<Seq<char>>, i: int)
    requires
        0 <= i < css.len(),
    ensures
        exists|pre: Seq<char>, post: Seq<char>|
            css_links(prefix, css) == pre + stylesheet_link(prefix, css[i]) + post,
    decreases css.len(),
{
    let link = stylesheet_link(prefix, css[i]);
    if i == css.len() - 1 {
        let pre = css_links(prefix, css.drop_last());
        assert(css_links(prefix, css) =~= pre + link + Seq::<char>::empty());
    } else {
        lemma_css_link_at(prefix, css.drop_last(), i);
        assert(css.drop_last()[i] == css[i]);
        let (pre, post) = choose|pre: Seq<char>, post: Seq<char>|
            css_links(prefix, css.drop_last()) == pre + link + post;
        let tail = stylesheet_link(prefix, css.last());
        assert(css_links(prefix, css) =~= pre + link + (post + tail));
    }
}

/// Every stylesheet of a page is linked from its document with the same
/// `../` prefix as the runtime import, one per directory level of the
/// page's route, followed by the stylesheet's path: the link resolves from
/// the page's own location to the built stylesheet.
#[verifier::spinoff_prover]
#[verifier::rlimit(40)]
pub proof fn law_stylesheet_links_depth_prefixed(page: PageRoute, html: Seq<char>, head: Option<Seq<char>>, i: int)
    requires
        0 <= i < page.css_files@.len(),
    ensures
        exists|pre: Seq<char>, post: Seq<char>|
            page_document(page, html, head) == pre + "  <link rel=\"stylesheet\" href=\""@ + repeat(
                "../"@,
                route_depth(page.route@),
            ) + page.css_files@[i]@ + "\">\n"@ + post,
{
    let prefix = repeat("../"@, route_depth(page.route@));
    let css = views(page.css_files@);
    lemma_css_link_at(prefix, css, i);
    let (pre, post) = choose|pre: Seq<char>, post: Seq<char>|
        css_links(prefix, css) == pre + stylesheet_link(prefix, css[i]) + post;
    let doc = page_document(page, html, head);
    let front = shell_head(prefix, head, css).subrange(0, shell_head(prefix, head, css).len() - css_links(prefix, css).len());
    assert(shell_head(prefix, head, css) =~= front + css_links(prefix, css));
    let rest = doc.subrange(shell_head(prefix, head, css).len() as int, doc.len() as int);
    assert(doc =~= shell_head(prefix, head, css) + rest);
    assert(doc =~= (front + pre) + "  <link rel=\"stylesheet\" href=\""@ + prefix + page.css_files@[i]@ + "\">\n"@ + (post + rest));
}

/// `escaped` distributes over concatenation.
pub proof fn lemma_escaped_concat(kind: Escape, a: Seq<char>, b: Seq<char>)
    ensures
        escaped(kind, a + b) == escaped(kind, a) + escaped(kind, b),
    decreases b.len(),
{
    if b.len() == 0 {
        assert(a + b =~= a);
        assert(escaped(kind, a) + escaped(kind, b) =~= escaped(kind, a));
    } else {
        lemma_escaped_concat(kind, a, b.drop_last());
        assert((a + b).drop_last() =~= a + b.drop_last());
        assert((a + b).last() == b.last());
        assert(escaped(kind, a + b) =~= escaped(kind, a) + escaped(kind, b));
    }
}

/// The sitemap entry of a page at `route` on the site whose URL without
/// its trailing slashes is `base`.
pub open spec fn sitemap_entry(route: Seq<char>, base: Seq<char>) -> Seq<char> {
    "  <url><loc>"@ + escaped(Escape::Xml, sitemap_loc(route, base)) + "</loc></url>\n"@
}

proof fn lemma_sitemap_entry_at(pages: Seq<(Seq<char>, bool)>, base: Seq<char>, i: int)
    requires
        0 <= i < pages.len(),
        !pages[i].1,
    ensures
        exists|pre: Seq<char>, post: Seq<char>|
            sitemap_urls(pages, base) == pre + sitemap_entry(pages[i].0, base) + post,
    decreases pages.len(),
{
    let entry = sitemap_entry(pages[i].0, base);
    if i == pages.len() - 1 {
        let pre = sitemap_urls(pages.drop_last(), base);
        assert(sitemap_urls(pages, base) =~= pre + entry + Seq::<char>::empty());
    } else {
        lemma_sitemap_entry_at(pages.drop_last(), base, i);
        assert(pages.drop_last()[i] == pages[i]);
        let (pre, post) = choose|pre: Seq<char>, post: Seq<char>|
            sitemap_urls(pages.drop_last(), base) == pre + entry + post;
        let tail = sitemap_urls(pages, base).subrange(
            sitemap_urls(pages.drop_last(), base).len() as int,
            sitemap_urls(pages, base).len() as int,
        );
        assert(sitemap_urls(pages, base) =~= sitemap_urls(pages.drop_last(), base) + tail);
        assert(sitemap_urls(pages, base) =~= pre + entry + (post + tail));
    }
}

/// The path part of a page's location: `/` for the root page, else its
/// XML-escaped route.
pub open spec fn site_path(route: Seq<char>) -> Seq<char> {
    if route == "/"@ { "/"@ } else { escaped(Escape::Xml, route) }
}

/// Every page not marked noindex has its absolute URL in the sitemap: a
/// `<loc>` made of the site URL without its trailing slashes, then `/` for
/// the root page or the page's XML-escaped route (the whole location is
/// XML-escaped once more as element text).
pub proof fn law_sitemap_locations_absolute(pages: Seq<(Seq<char>, bool)>, site_url: Seq<char>, i: int)
    requires
        0 <= i < pages.len(),
        !pages[i].1,
    ensures
        exists|pre: Seq<char>, post: Seq<char>|
            sitemap(pages, site_url) == pre + "  <url><loc>"@ + escaped(
                Escape::Xml,
                trim_end_matches(site_url, "/"@),
            ) + escaped(Escape::Xml, site_path(pages[i].0)) + "</loc></url>\n"@ + post,
{
    let base = trim_end_matches(site_url, "/"@);
    let path = site_path(pages[i].0);
    lemma_sitemap_entry_at(pages, base, i);
    let (pre, post) = choose|pre: Seq<char>, post: Seq<char>|
        sitemap_urls(pages, base) == pre + sitemap_entry(pages[i].0, base) + post;
    assert(sitemap_loc(pages[i].0, base) == base + path);
    lemma_escaped_concat(Escape::Xml, base, path);
    let head = "<?xml version=\"1.0\" encoding=\"UTF-8\"?>\n"@
        + "<urlset xmlns=\"http://www.sitemaps.org/schemas/sitemap/0.9\">\n"@;
    let p2 = head + pre;
    let q2 = post + "</urlset>\n"@;
    assert(sitemap(pages, site_url) =~= p2 + "  <url><loc>"@ + escaped(Escape::Xml, base) + escaped(
        Escape::Xml,
        path,
    ) + "</loc></url>\n"@ + q2);
    assert(exists|pre: Seq<char>, post: Seq<char>|
        sitemap(pages, site_url) == pre + "  <url><loc>"@ + escaped(Escape::Xml, base) + escaped(
            Escape::Xml,
            path,
        ) + "</loc></url>\n"@ + post);
}

} // verus!
