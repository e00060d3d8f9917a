use marisjs::http::{base64_decode, base64_encode, http_status_text, safe_static_path};
use marisjs::paths::{normalize_path, normalize_pathbuf, path_parent, path_with_extension};
use marisjs::routes::{
    depth_prefix, page_file_to_route, resolve_client_import, resolve_component_import_path,
    route_to_html_file,
};
use marisjs::ast::ImportInfo;

fn import(source: &str, names: &[&str], is_css: bool) -> ImportInfo {
    ImportInfo {
        source: source.to_string(),
        imported_names: names.iter().map(|n| n.to_string()).collect(),
        line: 1,
        column: 0,
        is_css,
    }
}

#[test]
fn page_routes_are_lowercase_urls() {
    assert_eq!(page_file_to_route("pages/index.tsx"), "/");
    assert_eq!(page_file_to_route("pages/About.tsx"), "/about");
    assert_eq!(page_file_to_route("pages/blog/index.tsx"), "/blog");
    assert_eq!(page_file_to_route("pages/Docs/Api/Signals.tsx"), "/docs/api/signals");
}

#[test]
fn html_files_and_depth_prefixes() {
    assert_eq!(route_to_html_file("/"), "index.html");
    assert_eq!(route_to_html_file("/docs/api/signals"), "docs/api/signals.html");
    assert_eq!(depth_prefix("/docs/api/signals"), "../../../");
    assert_eq!(depth_prefix("/"), "");
    assert_eq!(depth_prefix("/about"), "../");
}

#[test]
fn normalization_resolves_dots() {
    assert_eq!(normalize_path("a/./b/../c"), "a/c");
    assert_eq!(normalize_path("../x"), "x");
    assert_eq!(normalize_path("/abs//p/"), "abs/p");
    assert_eq!(normalize_pathbuf("pages/../components/Card.tsx"), "components/Card.tsx");
}

#[test]
fn parent_and_extension_follow_path_rules() {
    assert_eq!(path_parent("a/b/c.tsx"), Some("a/b".to_string()));
    assert_eq!(path_parent("c.tsx"), Some("".to_string()));
    assert_eq!(path_parent(""), None);
    assert_eq!(path_parent("/a"), Some("/".to_string()));
    assert_eq!(path_with_extension("pages/index.tsx", "mjs"), "pages/index.mjs");
    assert_eq!(path_with_extension("pages/.hidden", "mjs"), "pages/.hidden.mjs");
    assert_eq!(path_with_extension("a.b.c", ""), "a.b");
}

#[test]
fn client_imports_resolve_against_the_page() {
    let imports = vec![import("../components/Counter.tsx", &["Counter"], false)];
    assert_eq!(
        resolve_client_import("pages/index.tsx", "Counter", &imports),
        Ok("components/Counter.mjs".to_string())
    );
    assert_eq!(
        resolve_client_import("pages/index.tsx", "Missing", &imports),
        Err("client root 'Missing' referenced but no import found".to_string())
    );
}

#[test]
fn component_sources_resolve_with_tsx() {
    let imports = vec![import("./card.css", &["Card"], true), import("./Card.tsx", &["Card"], false)];
    assert_eq!(
        resolve_component_import_path("Card", &imports, "pages/index.tsx"),
        Some("pages/Card.tsx".to_string())
    );
    assert_eq!(resolve_component_import_path("Nope", &imports, "pages/index.tsx"), None);
}

#[test]
fn static_paths_stay_inside_the_output() {
    assert_eq!(safe_static_path("dist", "/a/../b.css"), Some("dist/b.css".to_string()));
    assert_eq!(safe_static_path("dist/", "/img/logo.png"), Some("dist/img/logo.png".to_string()));
    assert_eq!(safe_static_path("dist", "/../etc/passwd"), None);
    assert_eq!(safe_static_path("dist", "/"), None);
    assert_eq!(safe_static_path("dist", "/./a/./"), Some("dist/a".to_string()));
}

#[test]
fn base64_round_trips() {
    assert_eq!(base64_encode(b"hello"), "aGVsbG8=");
    assert_eq!(base64_encode(b"hi"), "aGk=");
    assert_eq!(base64_encode(b"abc"), "YWJj");
    assert_eq!(base64_encode(b""), "");
    assert_eq!(base64_decode("aGVsbG8="), b"hello".to_vec());
    assert_eq!(base64_decode("aGVs bG8"), b"hello".to_vec());
    assert_eq!(base64_decode("YW=Jj"), b"a".to_vec());
    let data: Vec<u8> = (0u8..=255).collect();
    assert_eq!(base64_decode(&base64_encode(&data)), data);
}

#[test]
fn status_texts() {
    assert_eq!(http_status_text(404), "Not Found");
    assert_eq!(http_status_text(201), "Created");
    assert_eq!(http_status_text(999), "Status");
}
