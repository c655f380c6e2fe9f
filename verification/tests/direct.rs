use vaultmesh_agent::connector::{
    agent_managed_web_credential, agent_managed_web_passkey_binding, configured_direct_ssh_tunnel,
    generate_direct_connector_policy, AgentCapabilityPolicy, AgentConnectorDefinition, AgentConnectorKind,
    AgentCredentialKind, AgentCredentialRef, AgentOutputPolicy, AgentTargetPolicy,
};
use vaultmesh_agent::direct_http::{
    direct_http_policy, direct_http_request, direct_http_target, direct_http_target_binding, DirectHttpRequest,
    DirectHttpTarget,
};
use vaultmesh_agent::direct_policy::{direct_web_action, AgentWebRecipeKind, AgentWebRecipePolicy};
use vaultmesh_agent::direct_ssh::{
    direct_ssh_action_policy, direct_ssh_policy, direct_ssh_target, direct_ssh_target_binding, ssh_action_lookup,
    AgentSshTunnelPolicy, DirectSshActionPolicy, SshActionAnswer, SshActionLookup, SshTargetPlan,
};
use vaultmesh_agent::error::AgentBrokerError;
use vaultmesh_agent::http_path::AgentRiskTier;
use vaultmesh_agent::json::JsonValue;
use vaultmesh_agent::policy::AgentHttpBodyMode;
use vaultmesh_agent::text::decimal_text;
use vaultmesh_agent::web::AgentManagedWebProtectedKind;

const HANDLE: &str = "0123456789abcdef0123456789abcdef";
const RESULT_REF: &str = "00000000-0000-4000-8000-000000000001";

fn s(text: &str) -> JsonValue {
    JsonValue::String(text.to_owned())
}

fn obj(members: Vec<(&str, JsonValue)>) -> JsonValue {
    JsonValue::Object(members.into_iter().map(|(k, v)| (k.to_owned(), v)).collect())
}

fn missing_fields(e: &AgentBrokerError) -> Vec<String> {
    let details = e.details.as_ref().expect("details");
    let members = match details {
        JsonValue::Object(members) => members,
        _ => panic!("details are not an object"),
    };
    let (_, fields) = members.iter().find(|(k, _)| k == "missingFields").expect("missingFields");
    match fields {
        JsonValue::Array(items) => items
            .iter()
            .map(|item| match item {
                JsonValue::String(text) => text.clone(),
                _ => panic!("field is not a string"),
            })
            .collect(),
        _ => panic!("missingFields is not an array"),
    }
}

fn member<'a>(value: &'a JsonValue, key: &str) -> &'a JsonValue {
    match value {
        JsonValue::Object(members) => &members.iter().find(|(k, _)| k == key).expect("member").1,
        _ => panic!("not an object"),
    }
}

fn text_of(value: &JsonValue) -> &str {
    match value {
        JsonValue::String(text) => text,
        _ => panic!("not a string"),
    }
}

fn recipe(name: &str, kind: AgentWebRecipeKind, risk: AgentRiskTier) -> AgentWebRecipePolicy {
    AgentWebRecipePolicy {
        name: name.into(),
        kind,
        path: "/".into(),
        username_selector: None,
        password_selector: None,
        submit_selector: None,
        success_selector: None,
        failure_selector: None,
        selector: None,
        fields: Vec::new(),
        inputs: Vec::new(),
        risk,
    }
}

fn pair(r: Result<(String, String), AgentBrokerError>) -> (String, String) {
    r.expect("allowed")
}

// ----------------------------------------------------------------------------
// Managed web actions
// ----------------------------------------------------------------------------

#[test]
fn web_session_close_and_result_save_have_fixed_risks() {
    let none = obj(vec![]);
    assert_eq!(
        pair(direct_web_action("vaultmesh_web_session_close", None, &none, &Vec::new())),
        ("R1".to_owned(), "关闭隔离网站会话".to_owned())
    );
    assert_eq!(
        pair(direct_web_action("vaultmesh_result_save", None, &none, &Vec::new())),
        ("R2".to_owned(), "保存网站下载结果".to_owned())
    );
}

#[test]
fn web_protected_actions_need_a_bound_handle_and_take_the_highest_recipe_risk() {
    let recipes = vec![
        recipe("otp", AgentWebRecipeKind::Totp, AgentRiskTier::R3),
        recipe("mail", AgentWebRecipeKind::EmailOtp, AgentRiskTier::R1),
    ];
    let e = direct_web_action("vaultmesh_otp_fill", None, &obj(vec![]), &recipes).unwrap_err();
    assert_eq!(e.code, "action-input-insufficient");
    assert_eq!(missing_fields(&e), vec!["protected.targetRef".to_owned()]);
    let bad = obj(vec![("targetRef", s("webt_XYZ"))]);
    assert_eq!(direct_web_action("vaultmesh_otp_fill", None, &bad, &recipes).unwrap_err().code, "invalid-parameters");
    let good = obj(vec![("targetRef", s(&format!("webt_{HANDLE}")))]);
    assert_eq!(
        pair(direct_web_action("vaultmesh_otp_fill", None, &good, &recipes)),
        ("R3".to_owned(), "向绑定网站目标提交一次性验证码".to_owned())
    );
    let low = vec![recipe("mail", AgentWebRecipeKind::EmailOtp, AgentRiskTier::R1)];
    assert_eq!(pair(direct_web_action("vaultmesh_otp_fill", None, &good, &low)).0, "R2");
    let e = direct_web_action("vaultmesh_recovery_code_consume", None, &good, &low).unwrap_err();
    assert_eq!(e.code, "action-rule-unavailable");
    assert_eq!(missing_fields(&e), vec!["builtInRule:connector-managed-web:protected".to_owned()]);
    let request = obj(vec![("requestRef", s(&format!("webauthn_{HANDLE}")))]);
    let passkeys = vec![recipe("sign-in", AgentWebRecipeKind::PasskeyAssertion, AgentRiskTier::R2)];
    assert_eq!(
        pair(direct_web_action("vaultmesh_passkey_perform", None, &request, &passkeys)),
        ("R3".to_owned(), "完成绑定页面发起的 Passkey 请求".to_owned())
    );
}

#[test]
fn web_session_open_uses_the_login_recipe_risk() {
    let recipes = vec![
        recipe("search", AgentWebRecipeKind::Navigate, AgentRiskTier::R2),
        recipe("login", AgentWebRecipeKind::Login, AgentRiskTier::R1),
    ];
    assert_eq!(
        pair(direct_web_action("vaultmesh_web_session_open", None, &obj(vec![]), &recipes)),
        ("R1".to_owned(), "打开并登录隔离网站会话".to_owned())
    );
    let e = direct_web_action("vaultmesh_web_session_open", None, &obj(vec![]), &recipes[..1].to_vec()).unwrap_err();
    assert_eq!(missing_fields(&e), vec!["builtInRule:connector-managed-web:vaultmesh_web_session_open".to_owned()]);
}

#[test]
fn web_named_operations_need_a_recipe_of_the_tool_kind() {
    let recipes = vec![
        recipe("search", AgentWebRecipeKind::Extract, AgentRiskTier::R1),
        recipe("search", AgentWebRecipeKind::Navigate, AgentRiskTier::R2),
        recipe("register", AgentWebRecipeKind::PasskeyRegistration, AgentRiskTier::R3),
    ];
    let none = obj(vec![]);
    let e = direct_web_action("vaultmesh_web_navigate", None, &none, &recipes).unwrap_err();
    assert_eq!(missing_fields(&e), vec!["web.operation".to_owned()]);
    assert_eq!(
        pair(direct_web_action("vaultmesh_web_navigate", Some("search"), &none, &recipes)),
        ("R2".to_owned(), "导航：search".to_owned())
    );
    assert_eq!(
        pair(direct_web_action("vaultmesh_web_extract", Some("search"), &none, &recipes)),
        ("R1".to_owned(), "提取：search".to_owned())
    );
    assert_eq!(
        direct_web_action("vaultmesh_web_download", Some("search"), &none, &recipes).unwrap_err().code,
        "action-rule-unavailable"
    );
    assert_eq!(
        pair(direct_web_action("vaultmesh_passkey_request_begin", Some("register"), &none, &recipes)),
        ("R3".to_owned(), "捕获 Passkey 请求：register".to_owned())
    );
    let acts = vec![recipe("submit", AgentWebRecipeKind::Action, AgentRiskTier::R3)];
    assert_eq!(pair(direct_web_action("vaultmesh_web_act", Some("submit"), &none, &acts)).1, "执行网站动作：submit");
    let e = direct_web_action("vaultmesh_web_other", Some("submit"), &none, &acts).unwrap_err();
    assert_eq!(missing_fields(&e), vec!["builtInRule:connector-managed-web:vaultmesh_web_other".to_owned()]);
}

// ----------------------------------------------------------------------------
// Direct HTTP actions
// ----------------------------------------------------------------------------

fn http(params: JsonValue) -> Result<DirectHttpRequest, AgentBrokerError> {
    direct_http_request(true, "secret", "vaultmesh_http_request", &params)
}

#[test]
fn http_request_is_refused_before_the_vault_is_read() {
    let params = obj(vec![("method", s("GET")), ("path", s("/users"))]);
    assert_eq!(direct_http_request(false, "secret", "vaultmesh_http_request", &params).unwrap_err().code, "vault-locked");
    let e = direct_http_request(true, "login", "vaultmesh_http_request", &params).unwrap_err();
    assert_eq!(missing_fields(&e), vec!["builtInRule:login:vaultmesh_http_request".to_owned()]);
    assert_eq!(missing_fields(&http(obj(vec![])).unwrap_err()), vec!["http.method".to_owned()]);
    assert_eq!(http(obj(vec![("method", s("TRACE"))])).unwrap_err().code, "invalid-http-method");
    assert_eq!(missing_fields(&http(obj(vec![("method", s("GET"))])).unwrap_err()), vec!["http.path".to_owned()]);
    let xml = obj(vec![("method", s("GET")), ("path", s("/")), ("responseMode", s("xml"))]);
    assert_eq!(http(xml).unwrap_err().code, "invalid-http-response-mode");
}

#[test]
fn http_request_input_travels_by_query_or_body_by_method() {
    let get_with_body = obj(vec![("method", s("GET")), ("path", s("/")), ("body", obj(vec![]))]);
    assert_eq!(http(get_with_body).unwrap_err().code, "invalid-http-request");
    let post_with_query = obj(vec![("method", s("POST")), ("path", s("/")), ("query", obj(vec![]))]);
    assert_eq!(http(post_with_query).unwrap_err().code, "invalid-http-request");
    let query_not_object = obj(vec![("method", s("GET")), ("path", s("/")), ("query", s("q=1"))]);
    assert_eq!(http(query_not_object).unwrap_err().code, "invalid-http-request");

    let get = http(obj(vec![
        ("method", s("GET")),
        ("path", s("/users")),
        ("responseMode", s("json")),
        ("query", obj(vec![("q", s("a"))])),
    ]))
    .unwrap();
    assert_eq!(get.method, "GET");
    assert_eq!(get.risk, AgentRiskTier::R1);
    assert_eq!(get.requested_path, "/users");
    assert!(get.response_json);
    assert_eq!(text_of(member(&get.input, "q")), "a");

    let post = http(obj(vec![("method", s("POST")), ("path", s("/users"))])).unwrap();
    assert_eq!(post.risk, AgentRiskTier::R2);
    assert!(!post.response_json);
    assert!(matches!(&post.input, JsonValue::Object(members) if members.is_empty()));
}

fn token_detail() -> JsonValue {
    obj(vec![
        ("kind", s("access-token")),
        ("website", s(" https://API.example.com/v1 ")),
        ("title", s("API")),
        ("environment", s("prod")),
    ])
}

fn get_users() -> DirectHttpRequest {
    http(obj(vec![
        ("method", s("GET")),
        ("path", s("/users")),
        ("responseMode", s("json")),
        ("query", obj(vec![("q", s("a"))])),
    ]))
    .unwrap()
}

#[test]
fn http_target_lists_what_the_item_lacks_in_order() {
    let request = get_users();
    let e = direct_http_target(&request, 262_145, "secret", Some(&token_detail()), true).unwrap_err();
    assert_eq!(e.code, "http-request-too-large");
    assert!(direct_http_target(&request, 262_144, "secret", Some(&token_detail()), true).is_ok());
    assert_eq!(missing_fields(&direct_http_target(&request, 2, "secret", None, true).unwrap_err()), vec!["secret".to_owned()]);
    let bare = obj(vec![("masterPasswordReprompt", JsonValue::Bool(true))]);
    let e = direct_http_target(&request, 2, "secret", Some(&bare), false).unwrap_err();
    assert_eq!(
        missing_fields(&e),
        vec![
            "secret.kind=access-token".to_owned(),
            "secret.masterPasswordReprompt=false".to_owned(),
            "secret.agentAccessTokenEnabled=true".to_owned(),
            "secret.website (exact HTTP(S) URL without userinfo, query, or fragment)".to_owned(),
        ]
    );
    let with_user = obj(vec![("kind", s("access-token")), ("website", s("https://user@api.example.com/v1"))]);
    let e = direct_http_target(&request, 2, "secret", Some(&with_user), true).unwrap_err();
    assert_eq!(
        missing_fields(&e),
        vec!["secret.website (exact HTTP(S) URL without userinfo, query, or fragment)".to_owned()]
    );
}

#[test]
fn http_target_resolves_the_path_below_the_website() {
    let request = get_users();
    let target = direct_http_target(&request, 20, "secret", Some(&token_detail()), true).unwrap();
    assert_eq!(target.origin, "https://api.example.com");
    assert_eq!(target.base_path, "/v1");
    assert_eq!(target.path, "/v1/users");
    assert_eq!(target.account_label, "API");
    assert_eq!(target.environment, "prod");

    let plain = obj(vec![("kind", s("access-token")), ("website", s("http://example.test")), ("environment", s("  "))]);
    let target = direct_http_target(&request, 20, "secret", Some(&plain), true).unwrap();
    assert_eq!(target.origin, "http://example.test");
    assert_eq!(target.path, "/users");
    assert_eq!(target.account_label, "Vault account");
    assert_eq!(target.environment, "default");

    let relative = http(obj(vec![("method", s("GET")), ("path", s("users"))])).unwrap();
    let e = direct_http_target(&relative, 20, "secret", Some(&token_detail()), true).unwrap_err();
    assert_eq!(e.code, "invalid-http-path");
}

#[test]
fn http_policy_binds_the_target_and_the_operation() {
    let request = get_users();
    let target = direct_http_target(&request, 20, "secret", Some(&token_detail()), true).unwrap();
    let binding = direct_http_target_binding(&target, 42);
    assert_eq!(text_of(member(&binding, "connector")), "http");
    assert_eq!(text_of(member(&binding, "origin")), "https://api.example.com");
    assert_eq!(text_of(member(&binding, "basePath")), "/v1");
    assert_eq!(text_of(member(&binding, "authStrategy")), "bearer");
    assert_eq!(text_of(member(&binding, "accountRef")), "00000000-0000-0000-0000-00000000002a");
    assert_eq!(text_of(member(&binding, "matcherRevision")), "http-path-v1");

    let policy = direct_http_policy(&request, &target, 42, "secret", "sha256:abc".to_owned()).unwrap();
    assert_eq!(policy.credential_kind, vaultmesh_agent::connector::AgentCredentialKind::Secret);
    assert_eq!(policy.auth_strategy, vaultmesh_agent::policy::AgentHttpAuthStrategy::Bearer);
    assert_eq!(policy.account_ref, 42);
    assert_eq!(policy.account_label, "API");
    assert_eq!(policy.item_kind, "secret");
    assert_eq!(policy.origin, "https://api.example.com");
    assert_eq!(policy.approved_display, "https://api.example.com/v1/users");
    assert_eq!(policy.operation.name, "direct");
    assert_eq!(policy.operation.method, "GET");
    assert_eq!(policy.operation.path, "/v1/users");
    assert_eq!(policy.operation.request_fields, vec!["q".to_owned()]);
    assert_eq!(policy.operation.response_fields, vec!["*".to_owned()]);
    assert_eq!(policy.operation.request_mode, AgentHttpBodyMode::Json);
    assert_eq!(policy.operation.response_mode, AgentHttpBodyMode::Json);
    assert_eq!(policy.operation.risk, AgentRiskTier::R1);
    assert_eq!(policy.allowed_output_fields, vec!["*".to_owned()]);
    assert_eq!(policy.max_output_bytes, 65_536);
    assert_eq!(policy.max_output_items, 1_000);
    assert_eq!(policy.target_digest, "sha256:abc");

    let post = http(obj(vec![("method", s("DELETE")), ("path", s("/users/1"))])).unwrap();
    let policy = direct_http_policy(&post, &target, 42, "secret", "d".to_owned()).unwrap();
    assert_eq!(policy.operation.request_mode, AgentHttpBodyMode::Empty);
    assert_eq!(policy.operation.response_mode, AgentHttpBodyMode::Empty);
    assert!(policy.operation.response_fields.is_empty());
    assert_eq!(policy.operation.risk, AgentRiskTier::R4);

    let odd = DirectHttpRequest {
        method: "GET".into(),
        risk: AgentRiskTier::R1,
        requested_path: "/".into(),
        response_json: false,
        input: JsonValue::Null,
    };
    let fixed_target = DirectHttpTarget {
        origin: "https://a.test".into(),
        base_path: "/".into(),
        path: "/".into(),
        account_label: "A".into(),
        environment: "default".into(),
    };
    assert_eq!(direct_http_policy(&odd, &fixed_target, 1, "secret", "d".into()).unwrap_err().code, "broker-unavailable");
}

// ----------------------------------------------------------------------------
// Direct SSH actions
// ----------------------------------------------------------------------------

fn tunnel() -> AgentSshTunnelPolicy {
    AgentSshTunnelPolicy {
        name: "pg".into(),
        local_host: "127.0.0.1".into(),
        local_port: 15_432,
        destination_host: "10.0.0.5".into(),
        destination_port: 5_432,
        max_connections: 4,
        ttl_millis: 60_000,
        risk: AgentRiskTier::R3,
    }
}

fn allowed(r: Result<DirectSshActionPolicy, AgentBrokerError>) -> DirectSshActionPolicy {
    r.expect("allowed")
}

#[test]
fn ssh_action_lookup_names_what_the_rule_needs() {
    assert!(matches!(ssh_action_lookup("vaultmesh_ssh_exec", &obj(vec![])), SshActionLookup::CommandPolicy));
    let key = obj(vec![("publicKeyRef", s("00000000-0000-4000-8000-00000000000a"))]);
    assert!(matches!(
        ssh_action_lookup("vaultmesh_ssh_public_key_install", &key),
        SshActionLookup::PublicKey { key_ref: 0x0000_0000_0000_4000_8000_0000_0000_000a }
    ));
    let bad_key = obj(vec![("publicKeyRef", s("key"))]);
    assert!(matches!(ssh_action_lookup("vaultmesh_ssh_public_key_install", &bad_key), SshActionLookup::Nothing));
    match ssh_action_lookup("vaultmesh_ssh_host_setup", &obj(vec![("alias", s("db"))])) {
        SshActionLookup::HostAlias { alias } => assert_eq!(alias, "db"),
        other => panic!("unexpected lookup {other:?}"),
    }
    match ssh_action_lookup("vaultmesh_ssh_tunnel_open", &obj(vec![("endpoint", s("pg"))])) {
        SshActionLookup::Tunnel { endpoint } => assert_eq!(endpoint, "pg"),
        other => panic!("unexpected lookup {other:?}"),
    }
    assert!(matches!(ssh_action_lookup("vaultmesh_ssh_upload", &obj(vec![])), SshActionLookup::Nothing));
}

#[test]
fn ssh_exec_takes_the_command_policy() {
    let p = obj(vec![]);
    let a = allowed(direct_ssh_action_policy(
        "vaultmesh_ssh_exec",
        &p,
        SshActionAnswer::CommandPolicy(Ok((AgentRiskTier::R2, "ls -la".into()))),
    ));
    assert_eq!((a.risk.as_str(), a.action_display.as_str()), ("R2", "ls -la"));
    assert!(a.remote_path_prefixes.is_empty() && a.connector_ref.is_none() && a.tunnel.is_none());
    let e = direct_ssh_action_policy(
        "vaultmesh_ssh_exec",
        &p,
        SshActionAnswer::CommandPolicy(Err(AgentBrokerError::new("command-refused", "refused", false))),
    )
    .unwrap_err();
    assert_eq!(e.code, "command-refused");
    assert_eq!(direct_ssh_action_policy("vaultmesh_ssh_exec", &p, SshActionAnswer::Nothing).unwrap_err().code, "broker-unavailable");
}

#[test]
fn ssh_file_actions_check_their_handles_and_paths() {
    let select = obj(vec![("purpose", s("ssh-upload"))]);
    let a = allowed(direct_ssh_action_policy("vaultmesh_local_file_select", &select, SshActionAnswer::Nothing));
    assert_eq!((a.risk.as_str(), a.action_display.as_str()), ("R2", "选择供 SSH 上传使用的本地文件"));
    let wrong = obj(vec![("purpose", s("backup"))]);
    assert_eq!(
        direct_ssh_action_policy("vaultmesh_local_file_select", &wrong, SshActionAnswer::Nothing).unwrap_err().code,
        "invalid-parameters"
    );
    let save = obj(vec![("resultRef", s(RESULT_REF))]);
    let a = allowed(direct_ssh_action_policy("vaultmesh_result_save", &save, SshActionAnswer::Nothing));
    assert_eq!((a.risk.as_str(), a.action_display.as_str()), ("R2", "保存 SSH 下载结果"));

    let upload = obj(vec![("remotePath", s("/srv/app/file.txt")), ("fileRef", s(RESULT_REF))]);
    let a = allowed(direct_ssh_action_policy("vaultmesh_ssh_upload", &upload, SshActionAnswer::Nothing));
    assert_eq!((a.risk.as_str(), a.action_display.as_str()), ("R2", "上传到 /srv/app/file.txt"));
    assert_eq!(a.remote_path_prefixes, vec!["/srv/app".to_owned()]);
    let download = obj(vec![("remotePath", s("/srv/app/file.txt"))]);
    let a = allowed(direct_ssh_action_policy("vaultmesh_ssh_download", &download, SshActionAnswer::Nothing));
    assert_eq!((a.risk.as_str(), a.action_display.as_str()), ("R1", "下载 /srv/app/file.txt"));
    assert_eq!(a.remote_path_prefixes, vec!["/srv/app/file.txt".to_owned()]);
    assert_eq!(
        direct_ssh_action_policy("vaultmesh_ssh_upload", &download, SshActionAnswer::Nothing).unwrap_err().code,
        "invalid-parameters"
    );
    let dotted = obj(vec![("remotePath", s("/srv/../etc/passwd"))]);
    assert_eq!(
        direct_ssh_action_policy("vaultmesh_ssh_download", &dotted, SshActionAnswer::Nothing).unwrap_err().code,
        "invalid-parameters"
    );
}

#[test]
fn ssh_public_key_install_needs_a_public_key_record() {
    let p = obj(vec![("publicKeyRef", s(RESULT_REF))]);
    let e = direct_ssh_action_policy("vaultmesh_ssh_public_key_install", &p, SshActionAnswer::PublicKey(None)).unwrap_err();
    assert_eq!(missing_fields(&e), vec!["ssh.publicKeyRef".to_owned()]);
    let key = obj(vec![("recordKind", s("key")), ("hasPublicKey", JsonValue::Bool(true)), ("title", s(" deploy "))]);
    let a = allowed(direct_ssh_action_policy("vaultmesh_ssh_public_key_install", &p, SshActionAnswer::PublicKey(Some(key))));
    assert_eq!((a.risk.as_str(), a.action_display.as_str()), ("R2", "安装公钥：deploy"));
    let untitled = obj(vec![("recordKind", s("key")), ("hasPublicKey", JsonValue::Bool(true))]);
    let a = allowed(direct_ssh_action_policy(
        "vaultmesh_ssh_public_key_install",
        &p,
        SshActionAnswer::PublicKey(Some(untitled)),
    ));
    assert_eq!(a.action_display, "安装公钥：SSH key");
    let account = obj(vec![("recordKind", s("account")), ("hasPublicKey", JsonValue::Bool(true))]);
    let e = direct_ssh_action_policy("vaultmesh_ssh_public_key_install", &p, SshActionAnswer::PublicKey(Some(account)))
        .unwrap_err();
    assert_eq!(missing_fields(&e), vec!["ssh.publicKeyRef (public-key record)".to_owned()]);
    let bad = obj(vec![("publicKeyRef", s("key"))]);
    assert_eq!(
        direct_ssh_action_policy("vaultmesh_ssh_public_key_install", &bad, SshActionAnswer::PublicKey(None))
            .unwrap_err()
            .code,
        "invalid-parameters"
    );
}

#[test]
fn ssh_host_setup_and_pty_have_fixed_high_risk() {
    let p = obj(vec![("alias", s("db"))]);
    let a = allowed(direct_ssh_action_policy("vaultmesh_ssh_host_setup", &p, SshActionAnswer::HostAlias(true)));
    assert_eq!(
        (a.risk.as_str(), a.action_display.as_str()),
        ("R3", "配置持久 OpenSSH 主机别名（当前 OS 用户进程可直接使用）：db")
    );
    assert_eq!(
        direct_ssh_action_policy("vaultmesh_ssh_host_setup", &p, SshActionAnswer::HostAlias(false)).unwrap_err().code,
        "invalid-parameters"
    );
    let a = allowed(direct_ssh_action_policy("vaultmesh_ssh_pty_open", &obj(vec![]), SshActionAnswer::Nothing));
    assert_eq!((a.risk.as_str(), a.action_display.as_str()), ("R3", "打开独占 SSH PTY（xterm-256color）"));
    let vt = obj(vec![("terminal", s("vt100"))]);
    assert_eq!(allowed(direct_ssh_action_policy("vaultmesh_ssh_pty_open", &vt, SshActionAnswer::Nothing)).action_display, "打开独占 SSH PTY（vt100）");
    let screen = obj(vec![("terminal", s("screen"))]);
    assert_eq!(
        direct_ssh_action_policy("vaultmesh_ssh_pty_open", &screen, SshActionAnswer::Nothing).unwrap_err().code,
        "invalid-parameters"
    );
}

#[test]
fn ssh_tunnel_open_describes_the_fixed_tunnel() {
    let e = direct_ssh_action_policy("vaultmesh_ssh_tunnel_open", &obj(vec![]), SshActionAnswer::Nothing).unwrap_err();
    assert_eq!(missing_fields(&e), vec!["ssh.tunnel.endpoint".to_owned()]);
    let p = obj(vec![("endpoint", s("pg"))]);
    let a = allowed(direct_ssh_action_policy("vaultmesh_ssh_tunnel_open", &p, SshActionAnswer::Tunnel(Ok((7, tunnel())))));
    assert_eq!(a.risk, "R3");
    assert_eq!(a.action_display, "打开固定隧道 pg → 10.0.0.5:5432（最多 4 条连接，60 秒）");
    assert_eq!(a.connector_ref, Some(7));
    assert_eq!(a.tunnel.as_ref().map(|t| t.name.as_str()), Some("pg"));
    let e = direct_ssh_action_policy("vaultmesh_other", &p, SshActionAnswer::Nothing).unwrap_err();
    assert_eq!(missing_fields(&e), vec!["builtInRule:ssh:vaultmesh_other".to_owned()]);
}

#[test]
fn ssh_target_reads_an_exact_endpoint() {
    assert_eq!(direct_ssh_target(false, None).unwrap_err().code, "vault-locked");
    assert_eq!(missing_fields(&direct_ssh_target(true, None).unwrap_err()), vec!["ssh".to_owned()]);
    let bare = obj(vec![("masterPasswordReprompt", JsonValue::Bool(true)), ("port", JsonValue::Integer(0))]);
    assert_eq!(
        missing_fields(&direct_ssh_target(true, Some(&bare)).unwrap_err()),
        vec![
            "ssh.masterPasswordReprompt=false".to_owned(),
            "ssh.recordKind=account".to_owned(),
            "ssh.host".to_owned(),
            "ssh.username".to_owned(),
            "ssh.port".to_owned(),
        ]
    );
    let account = |host: &str, port: i128| {
        obj(vec![
            ("recordKind", s("account")),
            ("host", s(host)),
            ("username", s(" root ")),
            ("port", JsonValue::Integer(port)),
        ])
    };
    let t = direct_ssh_target(true, Some(&account(" Example.COM ", 22))).unwrap();
    assert_eq!((t.host.as_str(), t.port, t.username.as_str()), ("example.com", 22, "root"));
    assert_eq!(missing_fields(&direct_ssh_target(true, Some(&account("h", 70_000))).unwrap_err()), vec!["ssh.port".to_owned()]);
    for bad in ["a b", "user@host", "a/b", "a\\b"] {
        let e = direct_ssh_target(true, Some(&account(bad, 22))).unwrap_err();
        assert_eq!(missing_fields(&e), vec!["ssh.host (valid exact SSH host)".to_owned()]);
    }
    let long = "a".repeat(254);
    assert!(direct_ssh_target(true, Some(&account(&long, 22))).is_err());
    assert!(direct_ssh_target(true, Some(&account(&"a".repeat(253), 22))).is_ok());
}

#[test]
fn ssh_policy_binds_endpoint_host_key_and_tunnel() {
    let target = || SshTargetPlan { host: "example.com".into(), port: 22, username: "root".into() };
    let binding = direct_ssh_target_binding(&target(), "SHA256:k", None);
    assert_eq!(text_of(member(&binding, "connector")), "ssh");
    assert_eq!(text_of(member(&binding, "host")), "example.com");
    assert!(matches!(member(&binding, "port"), JsonValue::Integer(22)));
    assert_eq!(text_of(member(&binding, "hostKeySha256")), "SHA256:k");
    assert!(matches!(&binding, JsonValue::Object(members) if members.len() == 5));
    let t = tunnel();
    let with_tunnel = direct_ssh_target_binding(&target(), "SHA256:k", Some(&t));
    let inner = member(&with_tunnel, "tunnel");
    assert_eq!(text_of(member(inner, "destinationHost")), "10.0.0.5");
    assert!(matches!(member(inner, "ttlMillis"), JsonValue::Integer(60_000)));

    let plain_action = DirectSshActionPolicy {
        risk: "R1".into(),
        action_display: "hostname".into(),
        remote_path_prefixes: Vec::new(),
        connector_ref: None,
        tunnel: None,
    };
    let detail = obj(vec![("title", s("  "))]);
    let p = direct_ssh_policy(9, "vaultmesh_ssh_exec", &detail, target(), "SHA256:k".into(), plain_action, "d".into());
    assert_eq!(p.approved_display, "root@example.com:22 · SHA256:k");
    assert_eq!(p.account_label, "example.com");
    assert_eq!(p.environment, "default");
    assert_eq!(p.max_output_bytes, 4_096);
    let tunnel_action = DirectSshActionPolicy {
        risk: "R3".into(),
        action_display: "tunnel".into(),
        remote_path_prefixes: Vec::new(),
        connector_ref: Some(7),
        tunnel: Some(tunnel()),
    };
    let detail = obj(vec![("title", s(" Prod DB "))]);
    let p = direct_ssh_policy(9, "vaultmesh_ssh_tunnel_open", &detail, target(), "SHA256:k".into(), tunnel_action, "d".into());
    assert_eq!(p.approved_display, "root@example.com:22 · SHA256:k → 10.0.0.5:5432");
    assert_eq!(p.account_label, "Prod DB");
    assert_eq!(p.connector_ref, Some(7));
}

#[test]
fn decimal_text_writes_unsigned_integers() {
    assert_eq!(decimal_text(0), "0");
    assert_eq!(decimal_text(5_432), "5432");
    assert_eq!(decimal_text(u64::MAX), u64::MAX.to_string());
}

// ----------------------------------------------------------------------------
// Connector definitions
// ----------------------------------------------------------------------------

fn web_definition() -> AgentConnectorDefinition {
    AgentConnectorDefinition {
        id: 5,
        enabled: true,
        connector_kind: AgentConnectorKind::ManagedWeb,
        display_label: "Portal".into(),
        environment: "prod".into(),
        capability_policy: AgentCapabilityPolicy {
            allowed_tools: vec!["vaultmesh_web_session_open".into(), "vaultmesh_web_download".into()],
            risk_ceiling: AgentRiskTier::R2,
        },
        credential_refs: vec![
            AgentCredentialRef { kind: AgentCredentialKind::Login, item_id: 11 },
            AgentCredentialRef { kind: AgentCredentialKind::Email, item_id: 12 },
        ],
        output_policy: AgentOutputPolicy { max_bytes: 4_096, allowed_fields: Vec::new() },
        target_policy: AgentTargetPolicy::ManagedWeb {
            origins: vec!["https://app.example.com".into()],
            recipes: vec![
                recipe("login", AgentWebRecipeKind::Login, AgentRiskTier::R1),
                recipe("report", AgentWebRecipeKind::Download, AgentRiskTier::R2),
            ],
            persist_session: false,
        },
    }
}

#[test]
fn connector_policy_plans_an_allowed_web_action() {
    let d = web_definition();
    let none = obj(vec![]);
    let p = generate_direct_connector_policy(true, 5, Some(&d), "vaultmesh_web_session_open", &none, "sha256:t".into()).unwrap();
    assert_eq!((p.connector_ref, p.account_ref), (5, 11));
    assert_eq!(p.account_label, "Portal");
    assert_eq!(p.environment, "prod");
    assert_eq!(p.connector_kind, "managed-web");
    assert_eq!(p.tool, "vaultmesh_web_session_open");
    assert_eq!(p.operation, None);
    assert_eq!((p.risk.as_str(), p.action_display.as_str()), ("R1", "打开并登录隔离网站会话"));
    assert_eq!(p.approved_display, "https://app.example.com");
    assert_eq!(p.target_digest, "sha256:t");

    let report = obj(vec![("recipe", s("report"))]);
    let p = generate_direct_connector_policy(true, 5, Some(&d), "vaultmesh_web_download", &report, "t".into()).unwrap();
    assert_eq!(p.operation.as_deref(), Some("report"));
    assert_eq!(p.action_display, "下载：report");

    let save = obj(vec![("resultRef", s(RESULT_REF))]);
    let p = generate_direct_connector_policy(true, 5, Some(&d), "vaultmesh_result_save", &save, "t".into()).unwrap();
    assert_eq!(p.risk, "R2");
    assert_eq!(
        generate_direct_connector_policy(true, 5, Some(&d), "vaultmesh_result_save", &none, "t".into()).unwrap_err().code,
        "invalid-parameters"
    );
}

#[test]
fn connector_policy_refuses_what_the_definition_does_not_allow() {
    let none = obj(vec![]);
    let d = web_definition();
    assert_eq!(
        generate_direct_connector_policy(false, 5, Some(&d), "vaultmesh_web_session_open", &none, "t".into()).unwrap_err().code,
        "vault-locked"
    );
    let e = generate_direct_connector_policy(true, 5, None, "vaultmesh_web_session_open", &none, "t".into()).unwrap_err();
    assert_eq!(missing_fields(&e), vec!["builtInRule:connector:vaultmesh_web_session_open".to_owned()]);
    let e = generate_direct_connector_policy(true, 5, Some(&d), "vaultmesh_web_navigate", &none, "t".into()).unwrap_err();
    assert_eq!(missing_fields(&e), vec!["builtInRule:connector:vaultmesh_web_navigate".to_owned()]);
    let mut disabled = web_definition();
    disabled.enabled = false;
    assert!(generate_direct_connector_policy(true, 5, Some(&disabled), "vaultmesh_web_session_open", &none, "t".into()).is_err());
    let mut low = web_definition();
    low.capability_policy.risk_ceiling = AgentRiskTier::R1;
    let report = obj(vec![("recipe", s("report"))]);
    let e = generate_direct_connector_policy(true, 5, Some(&low), "vaultmesh_web_download", &report, "t".into()).unwrap_err();
    assert_eq!(missing_fields(&e), vec!["builtInRule:connector:vaultmesh_web_download".to_owned()]);
    let mut no_origin = web_definition();
    if let AgentTargetPolicy::ManagedWeb { origins, .. } = &mut no_origin.target_policy {
        origins.clear();
    }
    let e = generate_direct_connector_policy(true, 5, Some(&no_origin), "vaultmesh_web_session_open", &none, "t".into())
        .unwrap_err();
    assert_eq!(missing_fields(&e), vec!["builtInRule:connector-managed-web:vaultmesh_web_session_open".to_owned()]);
    let mut no_credential = web_definition();
    no_credential.credential_refs.clear();
    assert!(generate_direct_connector_policy(true, 5, Some(&no_credential), "vaultmesh_web_session_open", &none, "t".into())
        .is_err());
    let mut other = web_definition();
    other.target_policy = AgentTargetPolicy::Other;
    assert!(generate_direct_connector_policy(true, 5, Some(&other), "vaultmesh_web_session_open", &none, "t".into()).is_err());
}

fn ssh_definition(id: u128, host_key: &str) -> AgentConnectorDefinition {
    AgentConnectorDefinition {
        id,
        enabled: true,
        connector_kind: AgentConnectorKind::Ssh,
        display_label: "DB".into(),
        environment: "prod".into(),
        capability_policy: AgentCapabilityPolicy {
            allowed_tools: vec!["vaultmesh_ssh_tunnel_open".into()],
            risk_ceiling: AgentRiskTier::R3,
        },
        credential_refs: vec![AgentCredentialRef { kind: AgentCredentialKind::Ssh, item_id: 3 }],
        output_policy: AgentOutputPolicy { max_bytes: 4_096, allowed_fields: Vec::new() },
        target_policy: AgentTargetPolicy::Ssh {
            host: " Example.com ".into(),
            port: 22,
            host_key_sha256: host_key.into(),
            tunnel_policies: vec![tunnel()],
        },
    }
}

#[test]
fn configured_tunnel_must_be_offered_by_exactly_one_connector() {
    let one = vec![ssh_definition(7, "SHA256:k"), ssh_definition(8, "SHA256:other")];
    let (connector, found) = configured_direct_ssh_tunnel(Some(&one), 3, "pg", "example.com", 22, "SHA256:k").unwrap();
    assert_eq!(connector, 7);
    assert_eq!(found.destination_port, 5_432);
    let e = configured_direct_ssh_tunnel(Some(&one), 3, "redis", "example.com", 22, "SHA256:k").unwrap_err();
    assert_eq!(missing_fields(&e), vec!["builtInRule:ssh:vaultmesh_ssh_tunnel_open".to_owned()]);
    assert!(configured_direct_ssh_tunnel(Some(&one), 4, "pg", "example.com", 22, "SHA256:k").is_err());
    assert!(configured_direct_ssh_tunnel(None, 3, "pg", "example.com", 22, "SHA256:k").is_err());
    let two = vec![ssh_definition(7, "SHA256:k"), ssh_definition(9, "SHA256:k")];
    let e = configured_direct_ssh_tunnel(Some(&two), 3, "pg", "example.com", 22, "SHA256:k").unwrap_err();
    assert_eq!(e.code, "action-target-ambiguous");
}

#[test]
fn managed_web_credentials_are_chosen_by_kind() {
    let d = web_definition();
    assert_eq!(agent_managed_web_credential(&d, AgentManagedWebProtectedKind::Totp), Some(11));
    assert_eq!(agent_managed_web_credential(&d, AgentManagedWebProtectedKind::RecoveryCode), Some(11));
    assert_eq!(agent_managed_web_credential(&d, AgentManagedWebProtectedKind::EmailOtp), Some(12));
    assert_eq!(agent_managed_web_credential(&ssh_definition(7, "k"), AgentManagedWebProtectedKind::Totp), None);
    assert_eq!(agent_managed_web_passkey_binding(&d, "create"), Some(11));
    assert_eq!(agent_managed_web_passkey_binding(&d, "get"), None);
    assert_eq!(agent_managed_web_passkey_binding(&d, "delete"), None);
}
