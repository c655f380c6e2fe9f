use vaultmesh_agent::authz_rules::AgentAuthorizationRule;
use vaultmesh_agent::connector::{connector_plan_is_current, AgentDirectConnectorPolicy};
use vaultmesh_agent::direct_http::http_plan_is_current;
use vaultmesh_agent::direct_permission::{
    route_permission_request, AgentAccountPolicy, AgentVaultAccountCandidate, DirectPermissionOutcome, PermissionRoute,
    PERMISSION_TTL_MILLIS,
};
use vaultmesh_agent::direct_ssh::AgentDirectSshPolicy;
use vaultmesh_agent::error::AgentBrokerError;
use vaultmesh_agent::http_path::AgentRiskTier;
use vaultmesh_agent::json::JsonValue;
use vaultmesh_agent::model::{AgentRegistry, AgentToolDefinition, PermissionEffect, PermissionScope};
use vaultmesh_agent::permission_desk::PermissionDesk;
use vaultmesh_agent::policy::{
    AgentDirectHttpPolicy, AgentHttpBodyMode, AgentHttpOperationPolicy, PermissionGrant, SAFE_SSH_CATALOG_REVISION,
};

const ACCOUNT: u128 = 3;
const ACCOUNT_TEXT: &str = "00000000-0000-0000-0000-000000000003";
const CLIENT_KEY: &str = "client-key";

fn s(text: &str) -> JsonValue {
    JsonValue::String(text.to_owned())
}

fn obj(members: Vec<(&str, JsonValue)>) -> JsonValue {
    JsonValue::Object(members.into_iter().map(|(k, v)| (k.to_owned(), v)).collect())
}

fn desk() -> PermissionDesk {
    PermissionDesk { requests: Vec::new(), outcomes: Vec::new() }
}

fn ssh_policy(risk: &str) -> AgentDirectSshPolicy {
    AgentDirectSshPolicy {
        account_ref: ACCOUNT,
        account_label: "Prod".into(),
        environment: "default".into(),
        tool: "vaultmesh_ssh_exec".into(),
        risk: risk.into(),
        action_display: "hostname".into(),
        host: "example.com".into(),
        port: 22,
        username: "root".into(),
        host_key_sha256: "SHA256:k".into(),
        target_digest: "sha256:target".into(),
        approved_display: "root@example.com:22 · SHA256:k".into(),
        max_output_bytes: 4_096,
        remote_path_prefixes: Vec::new(),
        connector_ref: None,
        tunnel: None,
    }
}

fn rule(scope: PermissionScope, effect: PermissionEffect) -> AgentAuthorizationRule {
    AgentAuthorizationRule {
        id: 1,
        client_key: CLIENT_KEY.into(),
        account_ref: ACCOUNT_TEXT.into(),
        target_digest: "sha256:target".into(),
        tool: "vaultmesh_ssh_exec".into(),
        scope,
        effect,
        parameters_digest: None,
        catalog_revision: Some(SAFE_SSH_CATALOG_REVISION.into()),
        http_method: None,
        path_pattern: None,
        matcher_revision: None,
        created_at: 1,
        updated_at: 1,
    }
}

fn grant(effect: PermissionEffect, fresh: bool) -> PermissionGrant {
    PermissionGrant {
        account_ref: ACCOUNT_TEXT.into(),
        tool: "vaultmesh_ssh_exec".into(),
        operation: None,
        scope: PermissionScope::All,
        parameters_digest: None,
        catalog_revision: None,
        effect,
        fresh_confirmation_required: fresh,
        remaining_uses: Some(2),
    }
}

fn ssh_request(
    desk: &mut PermissionDesk,
    rules: Option<&Vec<AgentAuthorizationRule>>,
    grants: Option<&Vec<PermissionGrant>>,
    policy: Option<Result<AgentDirectSshPolicy, AgentBrokerError>>,
    now: u64,
    new_ref: u128,
) -> Result<DirectPermissionOutcome, AgentBrokerError> {
    let params = obj(vec![("program", s("hostname"))]);
    desk.request_direct_ssh_permission(
        rules,
        grants,
        10,
        20,
        "user",
        CLIENT_KEY,
        ACCOUNT,
        "ssh",
        policy,
        "vaultmesh_ssh_exec",
        &params,
        "sha256:params",
        now,
        new_ref,
    )
}

#[test]
fn ssh_permission_refuses_a_missing_or_mismatched_plan() {
    let mut d = desk();
    assert_eq!(ssh_request(&mut d, None, None, None, 5, 100).unwrap_err().code, "action-rule-unavailable");
    let e = ssh_request(&mut d, None, None, Some(Err(AgentBrokerError::new("action-target-unavailable", "x", true))), 5, 100)
        .unwrap_err();
    assert_eq!(e.code, "action-target-unavailable");
    let mut other = ssh_policy("R1");
    other.account_ref = 4;
    assert_eq!(ssh_request(&mut d, None, None, Some(Ok(other)), 5, 100).unwrap_err().code, "broker-unavailable");
    assert!(d.requests.is_empty());
}

#[test]
fn ssh_permission_opens_one_request_per_action() {
    let mut d = desk();
    match ssh_request(&mut d, None, None, Some(Ok(ssh_policy("R1"))), 5, 100).unwrap() {
        DirectPermissionOutcome::Pending { permission_ref, expires_at } => {
            assert_eq!(permission_ref, 100);
            assert_eq!(expires_at, 5 + PERMISSION_TTL_MILLIS);
        }
        other => panic!("unexpected outcome {other:?}"),
    }
    assert_eq!(d.requests.len(), 1);
    let opened = &d.requests[0];
    assert_eq!(opened.account_ref, ACCOUNT_TEXT);
    assert_eq!(opened.operation.as_deref(), Some("hostname"));
    assert_eq!(opened.parameters_digest.as_deref(), Some("sha256:params"));
    assert_eq!(opened.risk, "R1");
    assert_eq!(opened.source_item_ref, Some(ACCOUNT));
    assert_eq!(opened.source_item_kind.as_deref(), Some("ssh"));
    assert!(opened.activation_required);
    assert!(opened.direct_ssh_policy.is_some() && opened.direct_http_policy.is_none());

    match ssh_request(&mut d, None, None, Some(Ok(ssh_policy("R1"))), 6, 101).unwrap() {
        DirectPermissionOutcome::Pending { permission_ref, .. } => assert_eq!(permission_ref, 100),
        other => panic!("unexpected outcome {other:?}"),
    }
    assert_eq!(d.requests.len(), 1);

    match ssh_request(&mut d, None, None, Some(Ok(ssh_policy("R1"))), 5 + PERMISSION_TTL_MILLIS, 102).unwrap() {
        DirectPermissionOutcome::Pending { permission_ref, .. } => assert_eq!(permission_ref, 102),
        other => panic!("unexpected outcome {other:?}"),
    }
    assert_eq!(d.requests.len(), 2);
}

#[test]
fn ssh_permission_follows_a_persistent_rule_first() {
    let mut d = desk();
    let deny = vec![rule(PermissionScope::All, PermissionEffect::Deny)];
    let allow_grants = vec![grant(PermissionEffect::Allow, false)];
    assert!(matches!(
        ssh_request(&mut d, Some(&deny), Some(&allow_grants), Some(Ok(ssh_policy("R1"))), 5, 100).unwrap(),
        DirectPermissionOutcome::Denied { persistent: true }
    ));
    let allow = vec![rule(PermissionScope::All, PermissionEffect::Allow)];
    match ssh_request(&mut d, Some(&allow), None, Some(Ok(ssh_policy("R1"))), 5, 100).unwrap() {
        DirectPermissionOutcome::Allowed { persistent, grant, request } => {
            assert!(persistent);
            assert_eq!(grant.account_ref, ACCOUNT_TEXT);
            assert_eq!(grant.scope, PermissionScope::All);
            assert_eq!(grant.operation, None);
            assert_eq!(grant.parameters_digest, None);
            assert_eq!(grant.catalog_revision.as_deref(), Some(SAFE_SSH_CATALOG_REVISION));
            assert_eq!(grant.effect, PermissionEffect::Allow);
            assert!(!grant.fresh_confirmation_required);
            assert!(request.direct_ssh_policy.is_some());
        }
        other => panic!("unexpected outcome {other:?}"),
    }
    let mut exact = rule(PermissionScope::Exact, PermissionEffect::Allow);
    exact.parameters_digest = Some("sha256:params".into());
    match ssh_request(&mut d, Some(&vec![exact]), None, Some(Ok(ssh_policy("R1"))), 5, 100).unwrap() {
        DirectPermissionOutcome::Allowed { grant, .. } => {
            assert_eq!(grant.operation.as_deref(), Some("hostname"));
            assert_eq!(grant.parameters_digest.as_deref(), Some("sha256:params"));
        }
        other => panic!("unexpected outcome {other:?}"),
    }
    assert!(d.requests.is_empty());
    assert!(matches!(
        ssh_request(&mut d, Some(&allow), None, Some(Ok(ssh_policy("R2"))), 5, 100).unwrap(),
        DirectPermissionOutcome::Pending { permission_ref: 100, .. }
    ));
}

#[test]
fn ssh_permission_follows_a_connection_grant_next() {
    let mut d = desk();
    let deny = vec![grant(PermissionEffect::Deny, false)];
    assert!(matches!(
        ssh_request(&mut d, None, Some(&deny), Some(Ok(ssh_policy("R3"))), 5, 100).unwrap(),
        DirectPermissionOutcome::Denied { persistent: false }
    ));
    let allow = vec![grant(PermissionEffect::Allow, false)];
    match ssh_request(&mut d, None, Some(&allow), Some(Ok(ssh_policy("R3"))), 5, 100).unwrap() {
        DirectPermissionOutcome::Allowed { persistent, grant, .. } => {
            assert!(!persistent);
            assert_eq!(grant.scope, PermissionScope::All);
            assert_eq!(grant.remaining_uses, Some(2));
        }
        other => panic!("unexpected outcome {other:?}"),
    }
    let fresh = vec![grant(PermissionEffect::Allow, true)];
    assert!(matches!(
        ssh_request(&mut d, None, Some(&fresh), Some(Ok(ssh_policy("R3"))), 5, 100).unwrap(),
        DirectPermissionOutcome::Pending { .. }
    ));
}

fn http_policy(method: &str) -> AgentDirectHttpPolicy {
    AgentDirectHttpPolicy {
        account_ref: ACCOUNT,
        account_label: "API".into(),
        environment: "prod".into(),
        item_kind: "secret".into(),
        credential_kind: vaultmesh_agent::connector::AgentCredentialKind::Secret,
        auth_strategy: vaultmesh_agent::policy::AgentHttpAuthStrategy::Bearer,
        origin: "https://api.example.com".into(),
        operation: AgentHttpOperationPolicy {
            name: "direct".into(),
            method: method.into(),
            path: "/v1/users".into(),
            request_fields: Vec::new(),
            response_fields: Vec::new(),
            request_mode: AgentHttpBodyMode::Empty,
            response_mode: AgentHttpBodyMode::Empty,
            risk: AgentRiskTier::R1,
        },
        target_digest: "sha256:http".into(),
        approved_display: "https://api.example.com/v1/users".into(),
        allowed_output_fields: Vec::new(),
        max_output_bytes: 65_536,
        max_output_items: 1_000,
    }
}

#[test]
fn http_permission_describes_method_and_path() {
    let mut d = desk();
    let params = obj(vec![("method", s("GET")), ("path", s("/users"))]);
    let request = |d: &mut PermissionDesk,
                   policy: Option<Result<AgentDirectHttpPolicy, AgentBrokerError>>,
                   rules: Option<&Vec<AgentAuthorizationRule>>| {
        d.request_direct_http_permission(
            rules,
            10,
            20,
            "user",
            CLIENT_KEY,
            ACCOUNT,
            "secret",
            Some((ACCOUNT, "secret")),
            policy,
            "vaultmesh_http_request",
            &params,
            "sha256:params",
            5,
            100,
        )
    };
    assert_eq!(request(&mut d, None, None).unwrap_err().code, "action-rule-unavailable");
    assert_eq!(request(&mut d, Some(Ok(http_policy("POST"))), None).unwrap_err().code, "broker-unavailable");
    assert!(matches!(
        request(&mut d, Some(Ok(http_policy("GET"))), None).unwrap(),
        DirectPermissionOutcome::Pending { permission_ref: 100, .. }
    ));
    let opened = &d.requests[0];
    assert_eq!(opened.action_display, "GET /v1/users");
    assert_eq!(opened.operation.as_deref(), Some("/users"));
    assert_eq!(opened.risk, "R1");
    assert_eq!(opened.source_item_kind.as_deref(), Some("secret"));
    assert!(opened.direct_http_policy.is_some());

    let mut path_rule = rule(PermissionScope::Path, PermissionEffect::Allow);
    path_rule.tool = "vaultmesh_http_request".into();
    path_rule.target_digest = "sha256:http".into();
    path_rule.http_method = Some("GET".into());
    path_rule.path_pattern = Some("/users".into());
    path_rule.matcher_revision = Some("http-path-v1".into());
    let mut fresh = desk();
    match request(&mut fresh, Some(Ok(http_policy("GET"))), Some(&vec![path_rule])).unwrap() {
        DirectPermissionOutcome::Allowed { persistent, grant, .. } => {
            assert!(persistent);
            assert_eq!(grant.scope, PermissionScope::Path);
            assert_eq!(grant.operation.as_deref(), Some("/users"));
            assert_eq!(grant.parameters_digest.as_deref(), Some("GET"));
            assert_eq!(grant.catalog_revision.as_deref(), Some("http-path-v1"));
        }
        other => panic!("unexpected outcome {other:?}"),
    }
}

fn connector_policy() -> AgentDirectConnectorPolicy {
    AgentDirectConnectorPolicy {
        connector_ref: 5,
        account_ref: ACCOUNT,
        account_label: "Portal".into(),
        environment: "prod".into(),
        connector_kind: "managed-web".into(),
        tool: "vaultmesh_web_download".into(),
        operation: Some("report".into()),
        risk: "R2".into(),
        action_display: "下载：report".into(),
        approved_display: "https://app.example.com".into(),
        target_digest: "sha256:connector".into(),
    }
}

#[test]
fn connector_permission_checks_the_plan_owner() {
    let mut d = desk();
    let params = obj(vec![("recipe", s("report"))]);
    let request = |d: &mut PermissionDesk, source: &str, grants: Option<&Vec<PermissionGrant>>| {
        d.request_direct_connector_permission(
            None,
            grants,
            10,
            20,
            "user",
            CLIENT_KEY,
            source,
            Some(Ok(connector_policy())),
            "vaultmesh_web_download",
            &params,
            "sha256:params",
            5,
            100,
        )
    };
    assert_eq!(request(&mut d, "00000000-0000-0000-0000-000000000004", None).unwrap_err().code, "broker-unavailable");
    assert!(matches!(request(&mut d, ACCOUNT_TEXT, None).unwrap(), DirectPermissionOutcome::Pending { .. }));
    let opened = &d.requests[0];
    assert_eq!(opened.operation.as_deref(), Some("report"));
    assert_eq!(opened.action_display, "下载：report");
    assert_eq!(opened.source_item_ref, None);
    assert!(opened.direct_connector_policy.is_some());
    let mut g = grant(PermissionEffect::Allow, false);
    g.tool = "vaultmesh_web_download".into();
    g.catalog_revision = Some("kept".into());
    let mut fresh = desk();
    match request(&mut fresh, ACCOUNT_TEXT, Some(&vec![g])).unwrap() {
        DirectPermissionOutcome::Allowed { persistent, grant, .. } => {
            assert!(!persistent);
            assert_eq!(grant.catalog_revision, None);
        }
        other => panic!("unexpected outcome {other:?}"),
    }
}

fn tool(name: &str, requires_account: bool) -> AgentToolDefinition {
    AgentToolDefinition {
        name: name.into(),
        version: 1,
        capability: "x".into(),
        risk: "R1".into(),
        requires_account,
        confirmation: "none".into(),
        parameters: Vec::new(),
    }
}

fn registry() -> AgentRegistry {
    AgentRegistry {
        protocol_version: 2,
        tools: vec![
            tool("vaultmesh_accounts_list", false),
            tool("vaultmesh_ssh_exec", true),
            tool("vaultmesh_http_request", true),
            tool("vaultmesh_web_download", true),
            tool("vaultmesh_web_navigate", true),
        ],
    }
}

fn candidates() -> Result<Vec<AgentVaultAccountCandidate>, AgentBrokerError> {
    Ok(vec![
        AgentVaultAccountCandidate { account_ref: ACCOUNT, kind: "ssh".into(), label: "Prod".into() },
        AgentVaultAccountCandidate { account_ref: 4, kind: "secret".into(), label: "API".into() },
    ])
}

fn web_account(enabled: bool) -> AgentAccountPolicy {
    AgentAccountPolicy {
        account_ref: "00000000-0000-0000-0000-000000000009".into(),
        definition_id: 77,
        display_label: "Console".into(),
        environment: "production".into(),
        connector_kind: "managed-web".into(),
        catalog_kind: "login".into(),
        allowed_tools: vec!["vaultmesh_web_download".into()],
        enabled,
        operations: vec![],
    }
}

fn route(
    tool_name: Option<&str>,
    digest: Option<Result<String, AgentBrokerError>>,
    client_known: bool,
    account: &str,
    connectors: &Vec<AgentAccountPolicy>,
) -> Result<(PermissionRoute, String), AgentBrokerError> {
    route_permission_request(&registry(), tool_name, digest, client_known, candidates(), connectors, account)
}

fn digest() -> Option<Result<String, AgentBrokerError>> {
    Some(Ok("sha256:params".into()))
}

#[test]
fn permission_route_checks_the_request_in_order() {
    let none = Vec::new();
    assert_eq!(route(None, digest(), true, ACCOUNT_TEXT, &none).unwrap_err().code, "invalid-parameters");
    let failing = Some(Err(AgentBrokerError::new("invalid-parameters", "bad", false)));
    assert_eq!(route(Some("vaultmesh_ssh_exec"), failing, true, ACCOUNT_TEXT, &none).unwrap_err().code, "invalid-parameters");
    assert_eq!(route(Some("vaultmesh_accounts_list"), digest(), true, ACCOUNT_TEXT, &none).unwrap_err().code, "invalid-permission");
    assert_eq!(route(Some("vaultmesh_unknown"), digest(), true, ACCOUNT_TEXT, &none).unwrap_err().code, "unknown-tool");
    assert_eq!(route(Some("vaultmesh_ssh_exec"), digest(), false, ACCOUNT_TEXT, &none).unwrap_err().code, "unknown-client");
    assert_eq!(route(Some("vaultmesh_ssh_exec"), None, true, ACCOUNT_TEXT, &none).unwrap_err().code, "invalid-permission");
    let e = route_permission_request(
        &registry(),
        Some("vaultmesh_ssh_exec"),
        digest(),
        true,
        Err(AgentBrokerError::new("vault-locked", "locked", true)),
        &none,
        ACCOUNT_TEXT,
    )
    .unwrap_err();
    assert_eq!(e.code, "vault-locked");
    assert_eq!(route(Some("vaultmesh_ssh_exec"), digest(), true, "not-a-uuid", &none).unwrap_err().code, "account-unavailable");
    assert_eq!(
        route(Some("vaultmesh_ssh_exec"), digest(), true, "00000000-0000-0000-0000-000000000005", &none).unwrap_err().code,
        "account-unavailable"
    );
}

#[test]
fn permission_route_sends_each_account_kind_to_its_rule() {
    let none = Vec::new();
    match route(Some("vaultmesh_ssh_exec"), digest(), true, ACCOUNT_TEXT, &none).unwrap() {
        (PermissionRoute::Ssh { candidate }, d) => {
            assert_eq!(candidate.account_ref, ACCOUNT);
            assert_eq!(d, "sha256:params");
        }
        other => panic!("unexpected route {other:?}"),
    }
    match route(Some("vaultmesh_http_request"), digest(), true, "00000000-0000-0000-0000-000000000004", &none).unwrap() {
        (PermissionRoute::Http { candidate }, _) => assert_eq!(candidate.kind, "secret"),
        other => panic!("unexpected route {other:?}"),
    }
    assert_eq!(
        route(Some("vaultmesh_http_request"), digest(), true, ACCOUNT_TEXT, &none).unwrap_err().code,
        "account-policy-denied"
    );
    let web = vec![web_account(true)];
    match route(Some("vaultmesh_web_download"), digest(), true, "00000000-0000-0000-0000-000000000009", &web).unwrap() {
        (PermissionRoute::Connector { definition_id }, _) => assert_eq!(definition_id, 77),
        other => panic!("unexpected route {other:?}"),
    }
    let disabled = vec![web_account(false)];
    assert_eq!(
        route(Some("vaultmesh_web_download"), digest(), true, "00000000-0000-0000-0000-000000000009", &disabled)
            .unwrap_err()
            .code,
        "account-policy-denied"
    );
    assert_eq!(
        route(Some("vaultmesh_web_navigate"), digest(), true, "00000000-0000-0000-0000-000000000009", &web).unwrap_err().code,
        "account-unavailable"
    );
}

#[test]
fn stored_http_plan_runs_only_while_it_matches_the_fresh_one() {
    let stored = http_policy("GET");
    assert!(http_plan_is_current(&http_policy("GET"), &stored));

    let mut moved = http_policy("GET");
    moved.target_digest = "sha256:other".into();
    assert!(!http_plan_is_current(&moved, &stored));

    let mut wider = http_policy("GET");
    wider.allowed_output_fields = vec!["email".into()];
    assert!(!http_plan_is_current(&wider, &stored));

    let mut bigger = http_policy("GET");
    bigger.max_output_bytes = 1;
    assert!(!http_plan_is_current(&bigger, &stored));

    let mut other_path = http_policy("GET");
    other_path.operation.path = "/v1/admins".into();
    assert!(!http_plan_is_current(&other_path, &stored));

    // The display text and label are not part of the comparison.
    let mut relabelled = http_policy("GET");
    relabelled.account_label = "Renamed".into();
    relabelled.approved_display = "elsewhere".into();
    assert!(http_plan_is_current(&relabelled, &stored));

    // Only a secret item authenticating as a bearer token may run.
    let mut login = http_policy("GET");
    login.item_kind = "login".into();
    assert!(!http_plan_is_current(&login, &login.clone()));
}

#[test]
fn stored_connector_plan_runs_only_while_it_is_unchanged() {
    let stored = connector_policy();
    assert!(connector_plan_is_current(&connector_policy(), &stored));

    let mut relabelled = connector_policy();
    relabelled.account_label = "Portal 2".into();
    assert!(!connector_plan_is_current(&relabelled, &stored));

    let mut no_operation = connector_policy();
    no_operation.operation = None;
    assert!(!connector_plan_is_current(&no_operation, &stored));

    let mut moved = connector_policy();
    moved.target_digest = "sha256:moved".into();
    assert!(!connector_plan_is_current(&moved, &stored));
}
