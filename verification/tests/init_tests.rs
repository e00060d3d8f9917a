use marisjs::dev::body_size_reply;
use marisjs::init::{gitignore_update, merge_env, package_json, package_name, ENV_EXAMPLE};
use marisjs::site::prerender_result;

fn s(x: &str) -> String {
    x.to_string()
}

#[test]
fn package_names() {
    assert_eq!(package_name(Some("My Cool_App")), "my-cool-app");
    assert_eq!(package_name(None), "marisjs-app");
}

#[test]
fn package_json_quotes_the_name() {
    let json = package_json("a\"b");
    assert!(json.starts_with("{\n  \"name\": \"a\\\"b\",\n  \"version\": \"0.1.0\","));
    assert!(json.contains("\"serve\": \"npx @marisjs/adapter-node ./dist\""));
    assert!(json.ends_with("  }\n}\n"));
}

#[test]
fn gitignore_gets_an_env_line_once() {
    assert_eq!(gitignore_update(None), Some(s(".env\n")));
    assert_eq!(gitignore_update(Some("")), Some(s("\n.env\n")));
    assert_eq!(gitignore_update(Some("node_modules")), Some(s("node_modules\n.env\n")));
    assert_eq!(gitignore_update(Some("dist\n  .env  \n")), None);
    assert!(ENV_EXAMPLE.starts_with("# Copy to .env"));
}

#[test]
fn dotenv_does_not_override_the_process() {
    let mut env = vec![(s("A"), s("process"))];
    merge_env(&mut env, vec![(s("A"), s("file")), (s("B"), s("1")), (s("B"), s("2"))]);
    assert_eq!(env, vec![(s("A"), s("process")), (s("B"), s("1"))]);
}

#[test]
fn prerender_output_forms() {
    assert_eq!(prerender_result("", None, None, None), (s(""), None));
    assert_eq!(
        prerender_result("{..}", Some(s("<p>x</p>")), Some(s("<title>t</title>")), None),
        (s("<p>x</p>"), Some(s("<title>t</title>")))
    );
    assert_eq!(prerender_result("\"<b>\"", None, None, Some(s("<b>"))), (s("<b>"), None));
    assert_eq!(prerender_result("<i>raw</i>", None, None, None), (s("<i>raw</i>"), None));
}

#[test]
fn body_cap() {
    assert_eq!(body_size_reply(10 * 1024 * 1024), None);
    assert_eq!(
        body_size_reply(10 * 1024 * 1024 + 1),
        Some("HTTP/1.1 413 Payload Too Large\r\nContent-Length: 0\r\n\r\n")
    );
}
