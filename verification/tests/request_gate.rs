use vaultmesh_agent::error::AgentBrokerError;
use vaultmesh_agent::http_path::AgentRiskTier;
use vaultmesh_agent::json::JsonValue;
use vaultmesh_agent::model::{AgentToolDefinition, AgentToolParameter, PermissionEffect, PermissionScope};
use vaultmesh_agent::permission_desk::ConnectionSession;
use vaultmesh_agent::policy::{
    AgentDirectHttpPolicy, AgentHttpBodyMode, AgentHttpOperationPolicy, PermissionGrant,
};
use vaultmesh_agent::request_gate::{
    check_confirmation_ticket, check_connection_grant, check_request_account, check_request_session,
    confirmation_required, effective_risk, spend_request, validate_parameters,
};

fn s(text: &str) -> JsonValue {
    JsonValue::String(text.to_owned())
}

fn obj(members: Vec<(&str, JsonValue)>) -> JsonValue {
    JsonValue::Object(members.into_iter().map(|(k, v)| (k.to_owned(), v)).collect())
}

fn param(name: &str, ty: &str, required: bool) -> AgentToolParameter {
    AgentToolParameter {
        name: name.into(),
        parameter_type: ty.into(),
        required,
        max_length: None,
        max_items: None,
        max_bytes: None,
    }
}

fn tool(parameters: Vec<AgentToolParameter>) -> AgentToolDefinition {
    AgentToolDefinition {
        name: "vaultmesh_ssh_exec".into(),
        version: 1,
        capability: "ssh.exec".into(),
        risk: "R2".into(),
        requires_account: true,
        confirmation: "risk-dependent".into(),
        parameters,
    }
}

fn len_of(value: &JsonValue) -> Option<usize> {
    match value {
        JsonValue::Object(members) => Some(2 + members.len() * 10),
        _ => None,
    }
}

fn code(r: Result<(), AgentBrokerError>) -> &'static str {
    match r {
        Ok(()) => "ok",
        Err(e) => e.code,
    }
}

#[test]
fn parameters_must_be_declared_present_and_typed() {
    let mut program = param("program", "string", true);
    program.max_length = Some(4);
    let mut arguments = param("arguments", "string-array", false);
    arguments.max_items = Some(2);
    arguments.max_length = Some(3);
    let mut body = param("body", "object", false);
    body.max_bytes = Some(20);
    let t = tool(vec![program, arguments, param("count", "integer", false), body]);
    let check = |p: JsonValue| code(validate_parameters(&t, &p, &len_of));
    assert_eq!(check(s("ls")), "invalid-parameters");
    assert_eq!(check(obj(vec![("program", s("ls")), ("extra", s("x"))])), "unknown-field");
    assert_eq!(check(obj(vec![])), "missing-field");
    assert_eq!(check(obj(vec![("program", s("ls"))])), "ok");
    assert_eq!(check(obj(vec![("program", s("hostname"))])), "invalid-parameters");
    assert_eq!(check(obj(vec![("program", s("🙂🙂"))])), "ok");
    assert_eq!(check(obj(vec![("program", s("🙂🙂a"))])), "invalid-parameters");
    let args = |items: Vec<&str>| JsonValue::Array(items.into_iter().map(s).collect());
    assert_eq!(check(obj(vec![("program", s("ls")), ("arguments", args(vec!["-l", "/"]))])), "ok");
    assert_eq!(check(obj(vec![("program", s("ls")), ("arguments", args(vec!["-l", "-a", "/"]))])), "invalid-parameters");
    assert_eq!(check(obj(vec![("program", s("ls")), ("arguments", args(vec!["long"]))])), "invalid-parameters");
    assert_eq!(check(obj(vec![("program", s("ls")), ("count", JsonValue::Integer(3))])), "ok");
    assert_eq!(check(obj(vec![("program", s("ls")), ("count", JsonValue::Integer(-1))])), "invalid-parameters");
    assert_eq!(check(obj(vec![("program", s("ls")), ("count", JsonValue::Float("1.5".into()))])), "invalid-parameters");
    assert_eq!(check(obj(vec![("program", s("ls")), ("body", obj(vec![("a", s("b"))]))])), "ok");
    assert_eq!(
        check(obj(vec![("program", s("ls")), ("body", obj(vec![("a", s("b")), ("c", s("d"))]))])),
        "invalid-parameters"
    );
    assert_eq!(check(obj(vec![("count", JsonValue::Integer(-1))])), "missing-field");
}

fn session() -> ConnectionSession {
    ConnectionSession {
        session_id: 1,
        client_id: 2,
        connection_managed: true,
        allowed_accounts: vec!["acct".into()],
        allowed_tools: vec!["vaultmesh_ssh_exec".into()],
        issued_at: 0,
        expires_at: 1_000,
        request_limit: 3,
        requests_used: 0,
    }
}

#[test]
fn session_and_account_checks_follow_the_order() {
    assert_eq!(code(check_request_session(None, 2, "vaultmesh_ssh_exec", 5)), "session-required");
    assert_eq!(code(check_request_session(Some(&session()), 9, "vaultmesh_ssh_exec", 5)), "session-denied");
    assert_eq!(code(check_request_session(Some(&session()), 2, "vaultmesh_ssh_exec", 1_000)), "session-denied");
    let mut used = session();
    used.requests_used = 3;
    assert_eq!(code(check_request_session(Some(&used), 2, "vaultmesh_ssh_exec", 5)), "session-denied");
    assert_eq!(code(check_request_session(Some(&session()), 2, "vaultmesh_http_request", 5)), "capability-denied");
    assert_eq!(code(check_request_session(Some(&session()), 2, "vaultmesh_ssh_exec", 5)), "ok");

    let s = session();
    assert_eq!(code(check_request_account(true, None, &s, true, false)), "account-required");
    assert_eq!(code(check_request_account(true, Some("other"), &s, true, false)), "account-denied");
    assert_eq!(code(check_request_account(true, Some("acct"), &s, false, false)), "action-plan-unavailable");
    assert_eq!(code(check_request_account(true, Some("acct"), &s, false, true)), "ok");
    assert_eq!(code(check_request_account(false, Some("acct"), &s, false, false)), "invalid-account");
    assert_eq!(code(check_request_account(false, None, &s, false, false)), "ok");
}

fn grant(effect: PermissionEffect, fresh: bool, uses: Option<u32>) -> PermissionGrant {
    PermissionGrant {
        account_ref: "acct".into(),
        tool: "vaultmesh_ssh_exec".into(),
        operation: None,
        scope: PermissionScope::All,
        parameters_digest: None,
        catalog_revision: None,
        effect,
        fresh_confirmation_required: fresh,
        remaining_uses: uses,
    }
}

#[test]
fn connection_grant_decides_a_managed_request() {
    assert_eq!(code(check_connection_grant(None, None)), "account-required");
    assert_eq!(code(check_connection_grant(Some("acct"), Some(&grant(PermissionEffect::Deny, false, None)))), "authorization-denied");
    let e = check_connection_grant(Some("acct"), None).unwrap_err();
    assert_eq!(e.code, "permission-required");
    assert_eq!(e.native_action_required, Some("request-permission"));
    assert_eq!(code(check_connection_grant(Some("acct"), Some(&grant(PermissionEffect::Allow, true, None)))), "permission-required");
    assert_eq!(code(check_connection_grant(Some("acct"), Some(&grant(PermissionEffect::Allow, false, None)))), "ok");
}

#[test]
fn risk_and_confirmation_rules() {
    let http = AgentDirectHttpPolicy {
        account_ref: 1,
        account_label: "API".into(),
        environment: "prod".into(),
        item_kind: "secret".into(),
        credential_kind: vaultmesh_agent::connector::AgentCredentialKind::Secret,
        auth_strategy: vaultmesh_agent::policy::AgentHttpAuthStrategy::Bearer,
        origin: "https://a.test".into(),
        operation: AgentHttpOperationPolicy {
            name: "direct".into(),
            method: "DELETE".into(),
            path: "/x".into(),
            request_fields: Vec::new(),
            response_fields: Vec::new(),
            request_mode: AgentHttpBodyMode::Empty,
            response_mode: AgentHttpBodyMode::Empty,
            risk: AgentRiskTier::R4,
        },
        target_digest: "d".into(),
        approved_display: "https://a.test/x".into(),
        allowed_output_fields: Vec::new(),
        max_output_bytes: 1,
        max_output_items: 1,
    };
    assert_eq!(effective_risk(None, Some(&http), None, "R1"), "R4");
    assert_eq!(effective_risk(None, None, None, "R1"), "R1");
    assert!(confirmation_required("fresh", "R0"));
    assert!(confirmation_required("risk-dependent", "R2"));
    assert!(!confirmation_required("risk-dependent", "R1"));
    assert!(!confirmation_required("none", "R4"));
    assert_eq!(code(check_confirmation_ticket(None, false)), "ok");
    assert_eq!(code(check_confirmation_ticket(Some("t"), false)), "invalid-confirmation");
    assert_eq!(code(check_confirmation_ticket(Some("ticket"), true)), "ok");
    assert_eq!(code(check_confirmation_ticket(Some(""), true)), "invalid-confirmation");
    assert_eq!(code(check_confirmation_ticket(Some(&"x".repeat(129)), true)), "invalid-confirmation");
    assert_eq!(code(check_confirmation_ticket(Some("a\nb"), true)), "invalid-confirmation");
}

#[test]
fn spending_a_request_uses_up_limited_grants() {
    let params = obj(vec![]);
    let mut s = session();
    let mut grants = vec![grant(PermissionEffect::Allow, false, Some(2)), grant(PermissionEffect::Allow, false, Some(0))];
    let deciding = spend_request(&mut s, &mut grants, "vaultmesh_ssh_exec", Some("acct"), None, "d", &params, false);
    assert_eq!(s.requests_used, 1);
    assert_eq!(deciding, Some(0));
    assert_eq!(grants.len(), 1);
    assert_eq!(grants[0].remaining_uses, Some(1));
    spend_request(&mut s, &mut grants, "vaultmesh_ssh_exec", Some("acct"), None, "d", &params, false);
    assert!(grants.is_empty());
    assert_eq!(s.requests_used, 2);
    let mut unmanaged = session();
    unmanaged.connection_managed = false;
    let mut kept = vec![grant(PermissionEffect::Allow, false, Some(1))];
    assert_eq!(spend_request(&mut unmanaged, &mut kept, "vaultmesh_ssh_exec", Some("acct"), None, "d", &params, false), None);
    assert_eq!(kept.len(), 1);
    let mut full = session();
    full.requests_used = u32::MAX;
    spend_request(&mut full, &mut kept, "vaultmesh_accounts_list", None, None, "d", &params, false);
    assert_eq!(full.requests_used, u32::MAX);
}
