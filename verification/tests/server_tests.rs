use marisjs::ast::{ComponentFile, ExportInfo, ExportKind, ImportInfo, RunsOn};
use marisjs::css::{collect_page_css_closure, ComponentMeta, PageCssClosure};
use marisjs::dev::{
    api_reply, check_method, content_length, file_response_head, forwarded_headers,
    middleware_outcome, middleware_response, request_line, route_request, timestamp_response,
    to_ascii_lowercase, DevRoute, MiddlewareOutcome, Reply,
};
use marisjs::manifest::{middleware_entry, route_entry, route_table};
use marisjs::pipeline::{
    api_route_entry, check_session_secret, client_import_violation, env_prerender_diagnostic, is_api_rel, is_page_rel,
    module_out_path_of, page_source_rel_of, server_module_rel_of, warns_env_prerender, ApiRoute,
};
use marisjs::site::{capitalize_first, robots_txt, sitemap_xml, unescape_html, xml_escape, PageRoute};
use marisjs::ast::{JsxAttr, JsxNode};

fn s(x: &str) -> String {
    x.to_string()
}

fn page(route: &str, html: &str, has_data: bool, noindex: bool) -> PageRoute {
    PageRoute {
        route: s(route),
        html_file: s(html),
        mjs_rel: format!("_server/pages/{}.mjs", html.trim_end_matches(".html")),
        page_roots: vec![(s("Counter"), s("components/Counter.mjs"), false)],
        css_files: vec![s("pages/site.css")],
        has_data,
        noindex,
    }
}

fn import(source: &str, names: &[&str], css: bool) -> ImportInfo {
    ImportInfo {
        source: s(source),
        imported_names: names.iter().map(|n| s(n)).collect(),
        line: 3,
        column: 0,
        is_css: css,
    }
}

#[test]
fn request_head_parsing() {
    let head = "POST /api/items HTTP/1.1\r\nHost: x\r\nContent-Length: 12\r\n\r\n";
    assert_eq!(content_length(head), 12);
    assert_eq!(content_length("GET / HTTP/1.1\r\ncontent-length: abc\r\n\r\n"), 0);
    assert_eq!(request_line(head), (s("POST"), s("/api/items")));
    assert_eq!(request_line(""), (s("GET"), s("/")));
    assert_eq!(forwarded_headers(head), vec![s("Host: x")]);
    assert_eq!(to_ascii_lowercase("Content-TYPE"), "content-type");
}

#[test]
fn middleware_reports() {
    assert!(matches!(middleware_outcome(Some(s("next")), None, None, vec![], None), MiddlewareOutcome::Pass));
    assert!(matches!(middleware_outcome(Some(s("nomatch")), None, None, vec![], None), MiddlewareOutcome::Pass));
    match middleware_outcome(Some(s("redirect")), None, None, vec![], None) {
        MiddlewareOutcome::Redirect { url, status } => {
            assert_eq!(url, "/");
            assert_eq!(status, 302);
        }
        other => panic!("unexpected {:?}", matches!(other, MiddlewareOutcome::Error)),
    }
    match middleware_outcome(Some(s("respond")), None, None, vec![(s("x-a"), s("1"))], Some(s("aGk="))) {
        MiddlewareOutcome::Respond { status, headers, body_bytes } => {
            assert_eq!(status, 200);
            assert_eq!(headers, vec![(s("x-a"), s("1"))]);
            assert_eq!(body_bytes, b"hi".to_vec());
        }
        _ => panic!("expected a response"),
    }
    assert!(matches!(middleware_outcome(Some(s("weird")), None, None, vec![], None), MiddlewareOutcome::Error));
    assert!(matches!(middleware_outcome(None, None, None, vec![], None), MiddlewareOutcome::Error));
}

#[test]
fn middleware_replies() {
    assert!(matches!(middleware_response(MiddlewareOutcome::Pass), Reply::Continue));
    match middleware_response(MiddlewareOutcome::Redirect { url: s("/login"), status: 303 }) {
        Reply::Send { head, body } => {
            assert_eq!(
                head,
                "HTTP/1.1 303 Status\r\nLocation: /login\r\nAccess-Control-Allow-Origin: *\r\nContent-Length: 0\r\n\r\n"
            );
            assert!(body.is_empty());
        }
        Reply::Continue => panic!("expected a reply"),
    }
    match middleware_response(MiddlewareOutcome::Redirect { url: s("/a\r\nSet-Cookie: x"), status: 302 }) {
        Reply::Send { head, .. } => assert_eq!(head, "HTTP/1.1 500 Internal Server Error\r\nContent-Length: 0\r\n\r\n"),
        Reply::Continue => panic!("expected a reply"),
    }
    let outcome = MiddlewareOutcome::Respond {
        status: 401,
        headers: vec![
            (s("Content-Type"), s("text/plain")),
            (s("Content-Length"), s("99")),
            (s("X-Bad"), s("a\nb")),
        ],
        body_bytes: b"no".to_vec(),
    };
    match middleware_response(outcome) {
        Reply::Send { head, body } => {
            assert_eq!(
                head,
                "HTTP/1.1 401 Unauthorized\r\nAccess-Control-Allow-Origin: *\r\nContent-Type: text/plain\r\nContent-Length: 2\r\n\r\n"
            );
            assert_eq!(body, b"no".to_vec());
        }
        Reply::Continue => panic!("expected a reply"),
    }
}

#[test]
fn api_dispatch_pieces() {
    let api = ApiRoute { path: s("/api/items"), file: s("_server/api/items.mjs"), methods: vec![s("GET"), s("POST")] };
    assert_eq!(check_method(&api, "GET"), None);
    assert_eq!(
        check_method(&api, "DELETE"),
        Some(s("HTTP/1.1 405 Method Not Allowed\r\nAllow: GET, POST\r\nAccess-Control-Allow-Origin: *\r\nContent-Length: 0\r\n\r\n"))
    );
    let (head, body) = api_reply(None, &vec![], None);
    assert_eq!(head, "HTTP/1.1 500 Internal Server Error\r\nAccess-Control-Allow-Origin: *\r\nContent-Length: 0\r\n\r\n");
    assert!(body.is_empty());
    let (head, body) = api_reply(Some(201), &vec![(s("Transfer-Encoding"), s("chunked")), (s("Set-Cookie"), s("a=1"))], Some(s("b2s=")));
    assert_eq!(head, "HTTP/1.1 201 Created\r\nAccess-Control-Allow-Origin: *\r\nSet-Cookie: a=1\r\nContent-Length: 2\r\n\r\n");
    assert_eq!(body, b"ok".to_vec());
}

#[test]
fn dev_routing() {
    let routes = vec![(s("/about"), s("about.html"))];
    let apis = vec![ApiRoute { path: s("/api/x"), file: s("_server/api/x.mjs"), methods: vec![] }];
    assert!(matches!(route_request("dist", &routes, &apis, "/api/x"), DevRoute::Api(0)));
    assert!(matches!(route_request("dist", &routes, &apis, "/__build_timestamp"), DevRoute::Timestamp));
    match route_request("dist", &routes, &apis, "/about") {
        DevRoute::File(f) => assert_eq!(f, "dist/about.html"),
        _ => panic!("expected a file"),
    }
    match route_request("dist", &routes, &apis, "/") {
        DevRoute::File(f) => assert_eq!(f, "dist/index.html"),
        _ => panic!("expected a file"),
    }
    match route_request("dist", &routes, &apis, "/img/../logo.png") {
        DevRoute::File(f) => assert_eq!(f, "dist/logo.png"),
        _ => panic!("expected a file"),
    }
    assert!(matches!(route_request("dist", &routes, &apis, "/../secret"), DevRoute::NotFound));
    assert!(matches!(route_request("dist", &routes, &apis, "/_SERVER/middleware.mjs"), DevRoute::NotFound));
    assert!(matches!(route_request("dist", &routes, &apis, "/api/other.mjs"), DevRoute::NotFound));
    assert_eq!(
        file_response_head("dist/app.css", 5),
        "HTTP/1.1 200 OK\r\nContent-Type: text/css\r\nAccess-Control-Allow-Origin: *\r\nContent-Length: 5\r\n\r\n"
    );
    assert_eq!(timestamp_response("123", 3), "HTTP/1.1 200 OK\r\nContent-Type: text/plain\r\nContent-Length: 3\r\n\r\n123");
}

#[test]
fn manifest_entries_and_table() {
    let p = page("/blog", "blog.html", true, false);
    let e = route_entry(&p);
    assert_eq!(e.path, "/blog");
    assert_eq!(e.file, "blog.html");
    assert_eq!(e.mjs, "_server/pages/blog.mjs");
    assert_eq!(e.mode, "server");
    assert_eq!(e.css, vec![s("pages/site.css")]);
    assert_eq!(e.client_modules, vec![(s("Counter"), s("components/Counter.mjs"))]);
    assert_eq!(route_entry(&page("/", "index.html", false, false)).mode, "static");
    assert_eq!(middleware_entry(true), Some(s("_server/middleware.mjs")));
    assert_eq!(middleware_entry(false), None);
    assert_eq!(route_table(None, None), vec![(s("/"), s("index.html"))]);
    let t = route_table(Some(vec![(s("/"), s("a.html")), (s("/x"), s("x.html")), (s("/"), s("b.html"))]), None);
    assert_eq!(t, vec![(s("/"), s("b.html")), (s("/x"), s("x.html"))]);
    let legacy = route_table(None, Some(vec![(s("/about"), s("about.html"))]));
    assert_eq!(legacy, vec![(s("/about"), s("about.html"))]);
}

#[test]
fn site_documents() {
    assert_eq!(unescape_html("&lt;b&gt; &amp;amp; &#39;x&#39; &quot;"), "<b> &amp; 'x' \"");
    assert_eq!(capitalize_first("index"), "Index");
    assert_eq!(capitalize_first(""), "");
    assert_eq!(xml_escape("a&b<c>\"'"), "a&amp;b&lt;c&gt;&quot;&apos;");
    let pages = vec![page("/", "index.html", false, false), page("/hidden", "hidden.html", false, true)];
    let xml = sitemap_xml(&pages, "https://example.com/");
    assert!(xml.contains("<loc>https://example.com/</loc>"));
    assert!(!xml.contains("hidden"));
    assert_eq!(robots_txt(None), "User-agent: *\nAllow: /\n");
    assert_eq!(
        robots_txt(Some("https://example.com")),
        "User-agent: *\nAllow: /\n\nSitemap: https://example.com/sitemap.xml\n"
    );
}

#[test]
fn pipeline_rules() {
    assert!(is_api_rel("api/items.ts"));
    assert!(is_api_rel("api"));
    assert!(!is_api_rel("apis/items.ts"));
    assert!(is_page_rel("pages/Index.tsx"));
    assert!(!is_page_rel("components/Pages.tsx"));
    assert_eq!(module_out_path_of("dist", "pages/About.tsx", true), "dist/_server/pages/About.mjs");
    assert_eq!(module_out_path_of("dist", "components/Nav.tsx", false), "dist/components/Nav.mjs");
    assert_eq!(server_module_rel_of("api/items.ts"), "_server/api/items.mjs");
    assert_eq!(page_source_rel_of("_server/pages/Docs/Index.mjs"), "pages/Docs/Index.tsx");
    assert_eq!(page_source_rel_of("pages/About.mjs"), "pages/About.tsx");
    let exports = vec![
        ExportInfo { name: s("GET"), kind: ExportKind::NamedFunction, line: 1, column: 0 },
        ExportInfo { name: s("default"), kind: ExportKind::DefaultExport, line: 2, column: 0 },
        ExportInfo { name: s("POST"), kind: ExportKind::NamedFunction, line: 3, column: 0 },
    ];
    let route = api_route_entry("api/items.ts", &exports);
    assert_eq!(route.path, "/api/items");
    assert_eq!(route.file, "_server/api/items.mjs");
    assert_eq!(route.methods, vec![s("GET"), s("POST")]);
}

#[test]
fn client_imports_of_server_modules_are_refused() {
    let runs_on = vec![(s("components/Secret.tsx"), RunsOn::Server), (s("components/Ok.tsx"), RunsOn::Client)];
    let imports = vec![
        import("./styles.css", &[], true),
        import("react", &["x"], false),
        import("../components/Ok", &["Ok"], false),
        import("../components/Secret.tsx", &["Secret"], false),
    ];
    let err = client_import_violation("pages/Index.tsx", &imports, &runs_on).unwrap();
    assert_eq!(
        err,
        "pages/Index.tsx:3 — CLIENT_IMPORTS_SERVER: client file imports '../components/Secret.tsx' which runs on server (server-side modules have no public URL); move the import into a @runsOn server component and pass data down via props"
    );
    assert_eq!(client_import_violation("pages/Index.tsx", &imports[..3].to_vec(), &runs_on), None);
}

#[test]
fn session_secret_and_prerender_warning() {
    let weak = vec![(s("SESSION_SECRET"), s("  short  "))];
    let strong = vec![(s("SESSION_SECRET"), s("0123456789abcdef"))];
    assert!(check_session_secret(true, &weak, "api/login.ts").unwrap().starts_with("SESSION_SECRET is missing or too weak, but api/login.ts uses"));
    assert!(check_session_secret(true, &vec![], "api/login.ts").is_some());
    assert_eq!(check_session_secret(true, &strong, "api/login.ts"), None);
    assert_eq!(check_session_secret(false, &weak, "api/login.ts"), None);
    let mut c = ComponentFile::new(s("pages/Home.tsx"));
    c.runs_on = Some(RunsOn::Server);
    c.has_env_call = true;
    assert!(warns_env_prerender("pages/Home.tsx", &c));
    let d = env_prerender_diagnostic("pages/Home.tsx", &c).unwrap();
    assert_eq!(d.code, "SERVER_PAGE_ENV_PRERENDER");
    assert_eq!((d.line, d.column), (Some(1), Some(1)));
    assert!(d.is_warning);
    c.env_call_line = 7;
    c.env_call_column = 3;
    assert_eq!(env_prerender_diagnostic("pages/Home.tsx", &c).unwrap().line, Some(7));
    c.has_data_call = true;
    assert!(!warns_env_prerender("pages/Home.tsx", &c));
    c.has_data_call = false;
    assert!(!warns_env_prerender("components/Home.tsx", &c));
}

#[test]
fn css_closure_follows_child_components() {
    let card = JsxNode::Element { tag: s("Card"), attrs: Vec::<JsxAttr>::new(), children: vec![], is_hydrate_root: false, is_component: true };
    let page_tree = JsxNode::Element { tag: s("main"), attrs: vec![], children: vec![card], is_hydrate_root: false, is_component: false };
    let meta = vec![
        (
            s("pages/Index.tsx"),
            ComponentMeta {
                render_tree: Some(page_tree),
                imports: vec![import("../components/Card", &["Card"], false)],
                css_imports: vec![s("./index.css")],
            },
        ),
        (
            s("components/Card.tsx"),
            ComponentMeta { render_tree: None, imports: vec![], css_imports: vec![s("./card.css"), s("../pages/index.css")] },
        ),
    ];
    let mut closure = PageCssClosure::new();
    let mut seen = Vec::new();
    collect_page_css_closure("pages/Index.tsx", &meta, &mut closure, &mut seen);
    assert_eq!(closure.css_files, vec![s("pages/index.css"), s("components/card.css")]);
    assert_eq!(
        closure.sites,
        vec![(s("pages/index.css"), s("pages/Index.tsx")), (s("components/card.css"), s("components/Card.tsx"))]
    );
    assert_eq!(closure.components, vec![s("pages/Index.tsx"), s("components/Card.tsx")]);
    assert_eq!(closure.parents, vec![(s("components/Card.tsx"), s("pages/Index.tsx"))]);
}
