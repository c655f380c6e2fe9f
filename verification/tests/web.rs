use vaultmesh_agent::direct_policy::{AgentWebInputPolicy, AgentWebRecipeKind, AgentWebRecipePolicy};
use vaultmesh_agent::http_path::AgentRiskTier;
use vaultmesh_agent::json::JsonValue;
use vaultmesh_agent::web::{
    approved_url, click_script, contains_canary, login_script, origin_allowed, protected_fill_script,
    protected_kind_name, ready_script, recipe_kind, recipe_result_script, sanitize_href, validate_action_input,
    AgentManagedWebProtectedKind, UrlParts, CLICK_SCRIPT_0, CLICK_SCRIPT_1, READY_SCRIPT,
};

fn s(text: &str) -> JsonValue {
    JsonValue::String(text.to_owned())
}

fn obj(members: Vec<(&str, JsonValue)>) -> JsonValue {
    JsonValue::Object(members.into_iter().map(|(k, v)| (k.to_owned(), v)).collect())
}

fn recipe(kind: AgentWebRecipeKind) -> AgentWebRecipePolicy {
    AgentWebRecipePolicy {
        name: "search".into(),
        kind,
        path: "/dashboard".into(),
        username_selector: None,
        password_selector: None,
        submit_selector: None,
        success_selector: Some("#results".into()),
        failure_selector: None,
        selector: Some("#submit".into()),
        fields: Vec::new(),
        inputs: vec![AgentWebInputPolicy { name: "query".into(), selector: "#query".into(), max_length: 8 }],
        risk: AgentRiskTier::R2,
    }
}

#[test]
fn ct_agent_web_navigation_and_href_are_exact_origin_and_strip_query_material() {
    let origins = vec![String::from("https://portal.example.test")];
    assert!(approved_url(&origins[0], "/dashboard", &origins).is_ok());
    assert_eq!(
        sanitize_href("https://portal.example.test/report?id=secret#token", &origins).unwrap(),
        "https://portal.example.test/report"
    );
    assert!(sanitize_href("https://evil.example.test/", &origins).is_err());
}

#[test]
fn ct_agent_web_action_input_is_schema_exact_and_bounded() {
    let recipe = recipe(AgentWebRecipeKind::Action);
    assert!(validate_action_input(&recipe, &obj(vec![("query", s("status"))])).is_ok());
    assert!(validate_action_input(&recipe, &obj(vec![("query", s("too-long-value"))])).is_err());
    assert!(validate_action_input(&recipe, &obj(vec![("query", s("ok")), ("extra", s("x"))])).is_err());
}

#[test]
fn approved_url_refuses_query_fragment_and_foreign_origin() {
    let origins = vec![String::from("https://portal.example.test")];
    assert_eq!(approved_url(&origins[0], "/a?x=1", &origins).unwrap_err(), "web-policy-denied");
    assert_eq!(approved_url(&origins[0], "/a#frag", &origins).unwrap_err(), "web-policy-denied");
    assert_eq!(approved_url(&origins[0], "https://evil.example.test/a", &origins).unwrap_err(), "web-policy-denied");
    assert_eq!(approved_url("not a url", "/a", &origins).unwrap_err(), "web-policy-invalid");
    let page = approved_url(&origins[0], "/dashboard", &origins).unwrap();
    assert_eq!(page.path, "/dashboard");
    assert_eq!(page.origin.as_deref(), Some("https://portal.example.test"));
}

#[test]
fn plain_http_origin_is_never_allowed() {
    let origins = vec![String::from("http://portal.example.test")];
    let url = UrlParts {
        scheme: "http".into(),
        origin: Some("http://portal.example.test".into()),
        host: Some("portal.example.test".into()),
        port: Some(80),
        username: String::new(),
        password: None,
        path: "/x".into(),
        query: None,
        fragment: None,
    };
    assert!(!origin_allowed(&url, &origins));
}

#[test]
fn long_href_is_cut_to_its_limit() {
    let origins = vec![String::from("https://portal.example.test")];
    let long = format!("https://portal.example.test/{}", "a".repeat(5000));
    let safe = sanitize_href(&long, &origins).unwrap();
    assert_eq!(safe.len(), 4096);
    assert!(safe.starts_with("https://portal.example.test/aaa"));
}

#[test]
fn unparsable_href_is_an_extract_failure() {
    let origins = vec![String::from("https://portal.example.test")];
    assert_eq!(sanitize_href("no scheme here", &origins).unwrap_err(), "web-extract-failed");
}

#[test]
fn action_input_keeps_the_recipe_order_and_values() {
    let recipe = recipe(AgentWebRecipeKind::Action);
    let out = validate_action_input(&recipe, &obj(vec![("query", s("status"))])).unwrap();
    assert_eq!(out.len(), 1);
    assert_eq!(out[0].0, "query");
    assert!(matches!(&out[0].1, JsonValue::String(v) if v == "status"));
    assert_eq!(validate_action_input(&recipe, &s("status")).unwrap_err(), "invalid-parameters");
}

#[test]
fn protected_kinds_have_names_and_recipes() {
    assert_eq!(protected_kind_name(AgentManagedWebProtectedKind::Totp), "totp");
    assert_eq!(protected_kind_name(AgentManagedWebProtectedKind::EmailOtp), "email-otp");
    assert_eq!(protected_kind_name(AgentManagedWebProtectedKind::RecoveryCode), "recovery-code");
    assert_eq!(recipe_kind(AgentManagedWebProtectedKind::EmailOtp), AgentWebRecipeKind::EmailOtp);
}

#[test]
fn page_content_canary_is_found_in_every_form() {
    let canaries = vec![String::new(), "token".to_owned()];
    assert!(contains_canary(b"...token...", &canaries));
    assert!(contains_canary(b"dG9rZW4=", &canaries));
    assert!(contains_canary(b"746f6b656e", &canaries));
    assert!(!contains_canary(b"nothing here", &canaries));
    assert!(!contains_canary(b"", &[String::new()].to_vec()));
}

#[test]
fn click_script_quotes_the_selector() {
    let script = click_script(&recipe(AgentWebRecipeKind::Action)).unwrap();
    assert_eq!(script, format!("{}\"#submit\"{}", CLICK_SCRIPT_0, CLICK_SCRIPT_1));
    assert!(script.contains("document.querySelector(\"#submit\")"));
}

#[test]
fn login_script_needs_all_three_selectors_and_escapes_values() {
    let mut login = recipe(AgentWebRecipeKind::Login);
    assert_eq!(login_script(&login, "u", "p").unwrap_err(), "web-policy-invalid");
    login.username_selector = Some("#user".into());
    login.password_selector = Some("#pass".into());
    login.submit_selector = Some("#go".into());
    let script = login_script(&login, "alice", "pa\"ss").unwrap();
    assert!(script.contains("const password=\"pa\\\"ss\";"));
    assert!(script.contains("const userSel=\"#user\";"));
}

#[test]
fn result_and_fill_scripts_use_their_selectors() {
    let r = recipe(AgentWebRecipeKind::Totp);
    let result = recipe_result_script(&r).unwrap();
    assert!(result.contains("document.querySelector(\"#results\")"));
    assert!(result.contains("const failureSel=\"\";"));
    let fill = protected_fill_script(&r, "123456").unwrap();
    assert!(fill.contains("setter.call(field,\"123456\")"));
    let mut no_success = recipe(AgentWebRecipeKind::Totp);
    no_success.success_selector = None;
    assert_eq!(recipe_result_script(&no_success).unwrap_err(), "web-policy-invalid");
    assert_eq!(ready_script(), READY_SCRIPT);
}

#[test]
fn values_with_breaks_and_controls_stay_inside_their_literals() {
    let mut login = recipe(AgentWebRecipeKind::Login);
    login.username_selector = Some("#user".into());
    login.password_selector = Some("#pass".into());
    login.submit_selector = Some("#go".into());
    let script = login_script(&login, "al\nice", "p\\\";x\u{1}").unwrap();
    assert!(script.contains("const username=\"al\\nice\";"));
    assert!(script.contains("const password=\"p\\\\\\\";x\\u0001\";"));
    assert!(!script.contains("al\nice"));
}
