use marisjs::dotenv::parse_dotenv;
use marisjs::http::mime_for_ext;
use marisjs::routes::api_file_to_route;

#[test]
fn known_mime_types() {
    assert_eq!(mime_for_ext("html"), "text/html");
    assert_eq!(mime_for_ext("js"), "application/javascript");
    assert_eq!(mime_for_ext("mjs"), "application/javascript");
    assert_eq!(mime_for_ext("json"), "application/json");
    assert_eq!(mime_for_ext("css"), "text/css");
}

#[test]
fn image_mime_types() {
    assert_eq!(mime_for_ext("png"), "image/png");
    assert_eq!(mime_for_ext("jpg"), "image/jpeg");
    assert_eq!(mime_for_ext("jpeg"), "image/jpeg");
    assert_eq!(mime_for_ext("svg"), "image/svg+xml");
    assert_eq!(mime_for_ext("ico"), "image/x-icon");
    assert_eq!(mime_for_ext("webp"), "image/webp");
    assert_eq!(mime_for_ext("gif"), "image/gif");
}

#[test]
fn unknown_extension_falls_back_to_text_plain() {
    assert_eq!(mime_for_ext("wasm"), "text/plain");
    assert_eq!(mime_for_ext("woff2"), "text/plain");
    assert_eq!(mime_for_ext(""), "text/plain");
}

#[test]
fn dotenv_parses_plain_values() {
    let env = parse_dotenv("KEY=value\nEMPTY=\nNUMBER=42");
    assert_eq!(env.len(), 3);
    assert_eq!(env[0], ("KEY".into(), "value".into()));
    assert_eq!(env[1], ("EMPTY".into(), "".into()));
    assert_eq!(env[2], ("NUMBER".into(), "42".into()));
}

#[test]
fn dotenv_skips_comments_and_blanks() {
    let env = parse_dotenv("# leading comment\n\nKEY=value # trailing comment\n  \n# another\nA=B");
    assert_eq!(env, vec![("KEY".into(), "value".into()), ("A".into(), "B".into())]);
}

#[test]
fn dotenv_parses_quoted_values() {
    let env = parse_dotenv(
        "SINGLE='hello world'\nDOUBLE=\"a \\\"quoted\\\" value\"\nESCAPED=\"back\\\\slash\"",
    );
    assert_eq!(env.len(), 3);
    assert_eq!(env[0], ("SINGLE".into(), "hello world".into()));
    assert_eq!(env[1], ("DOUBLE".into(), "a \"quoted\" value".into()));
    assert_eq!(env[2], ("ESCAPED".into(), "back\\slash".into()));
}

#[test]
fn dotenv_trims_whitespace_around_key_and_value() {
    let env = parse_dotenv("  PADDED  =   spaced value  ");
    assert_eq!(env, vec![("PADDED".into(), "spaced value".into())]);
}

#[test]
fn api_routes_map_file_based_like_pages() {
    assert_eq!(api_file_to_route("api/checkout.ts"), "/api/checkout");
    assert_eq!(api_file_to_route("api/billing/charge.ts"), "/api/billing/charge");
    assert_eq!(api_file_to_route("api/Index.ts"), "/api");
    assert_eq!(api_file_to_route("api/webhooks/stripe.ts"), "/api/webhooks/stripe");
}

#[test]
fn dotenv_skips_lines_without_key_or_equals() {
    let env = parse_dotenv("NOEQUALS\n=value\n  # indented comment\nOK=1");
    assert_eq!(env, vec![("OK".into(), "1".into())]);
}

#[test]
fn dotenv_single_quote_without_close_takes_rest() {
    let env = parse_dotenv("A='open ended\nB=\"x\\ny\"");
    assert_eq!(env[0], ("A".into(), "open ended".into()));
    assert_eq!(env[1], ("B".into(), "x\\ny".into()));
}

#[test]
fn dotenv_hash_without_space_is_kept() {
    let env = parse_dotenv("COLOR=#fff\r\nURL=http://x/#frag");
    assert_eq!(env, vec![("COLOR".into(), "#fff".into()), ("URL".into(), "http://x/#frag".into())]);
}
