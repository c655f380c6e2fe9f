use vaultmesh_agent::direct_permission::{AgentAccountPolicy, AgentVaultAccountCandidate};
use vaultmesh_agent::model::{AgentRegistry, AgentToolDefinition, PairingState, PermissionEffect, PermissionScope};
use vaultmesh_agent::policy::PermissionGrant;
use vaultmesh_agent::connector_state::{retain_backed_grants, sessions_after_connector_change};
use vaultmesh_agent::permission_desk::ConnectionSession;
use vaultmesh_agent::sessions::{
    connection_managed_session, issue_session, session_snapshot, MAX_SESSION_MILLIS,
    MAX_SESSION_OUTPUT_BYTES, SESSION_REQUEST_LIMIT,
};

fn tool(name: &str) -> AgentToolDefinition {
    AgentToolDefinition {
        name: name.into(),
        version: 1,
        capability: "c".into(),
        risk: "R1".into(),
        requires_account: false,
        confirmation: "never".into(),
        parameters: Vec::new(),
    }
}

fn registry() -> AgentRegistry {
    AgentRegistry { protocol_version: 1, tools: vec![tool("vaultmesh_ssh_exec"), tool("vaultmesh_http_request")] }
}

fn connector(account: u128, enabled: bool) -> AgentAccountPolicy {
    AgentAccountPolicy {
        account_ref: format_uuid(account),
        definition_id: 1,
        display_label: "Portal".into(),
        environment: "production".into(),
        connector_kind: "managed-web".into(),
        catalog_kind: "login".into(),
        allowed_tools: vec![],
        enabled,
        operations: vec![],
    }
}

fn issue(
    pairing: PairingState,
    tools: Vec<&str>,
    accounts: Vec<String>,
    ttl: u64,
    limit: u32,
) -> Result<vaultmesh_agent::permission_desk::ConnectionSession, vaultmesh_agent::error::AgentBrokerError> {
    issue_session(
        &registry(),
        7,
        pairing,
        &tools.into_iter().map(String::from).collect(),
        &accounts,
        ttl,
        limit,
        1_000,
        9,
        &vec![connector(0x11, true), connector(0x12, false)],
        &vec![AgentVaultAccountCandidate { account_ref: 0x22, kind: "ssh".into(), label: "Box".into() }],
    )
}

#[test]
fn a_paired_client_gets_a_bounded_session() {
    let s = issue(
        PairingState::Paired,
        vec!["vaultmesh_ssh_exec", "vaultmesh_http_request"],
        vec![format_uuid(0x22), format_uuid(0x11), format_uuid(0x22)],
        60_000,
        10,
    )
    .unwrap();
    assert_eq!(s.session_id, 9);
    assert_eq!(s.client_id, 7);
    assert!(!s.connection_managed);
    assert_eq!(s.allowed_tools, vec!["vaultmesh_http_request", "vaultmesh_ssh_exec"]);
    assert_eq!(s.allowed_accounts, vec![format_uuid(0x11), format_uuid(0x22)]);
    assert_eq!((s.issued_at, s.expires_at, s.request_limit, s.requests_used), (1_000, 61_000, 10, 0));
}

#[test]
fn an_unpaired_client_is_sent_to_the_local_app() {
    let e = issue(PairingState::Pending, vec!["vaultmesh_ssh_exec"], vec![], 60_000, 10).unwrap_err();
    assert_eq!(e.code, "pairing-required");
    assert_eq!(e.native_action_required, Some("approve-pairing"));
}

#[test]
fn session_requests_out_of_bounds_are_invalid() {
    let invalid = |tools: Vec<&str>, accounts: Vec<String>, ttl: u64, limit: u32| {
        assert_eq!(issue(PairingState::Paired, tools, accounts, ttl, limit).unwrap_err().code, "invalid-session");
    };
    invalid(vec!["vaultmesh_ssh_exec"], vec![], 0, 10);
    invalid(vec!["vaultmesh_ssh_exec"], vec![], MAX_SESSION_MILLIS + 1, 10);
    invalid(vec!["vaultmesh_ssh_exec"], vec![], 60_000, 0);
    invalid(vec!["vaultmesh_ssh_exec"], vec![], 60_000, 10_001);
    invalid(vec![], vec![], 60_000, 10);
    invalid(vec!["vaultmesh_ssh_exec", "vaultmesh_ssh_exec", "vaultmesh_ssh_exec"], vec![], 60_000, 10);
    invalid(vec!["vaultmesh_ssh_exec"], vec!["not-a-uuid".into()], 60_000, 10);
    invalid(vec!["vaultmesh_ssh_exec"], vec![format_uuid(0x12)], 60_000, 10);
    invalid(vec!["vaultmesh_ssh_exec"], vec![format_uuid(0x99)], 60_000, 10);
    assert!(issue(PairingState::Paired, vec!["vaultmesh_ssh_exec"], vec![], MAX_SESSION_MILLIS, 10_000).is_ok());
}

#[test]
fn an_unknown_tool_is_a_denied_capability() {
    let e = issue(PairingState::Paired, vec!["vaultmesh_teleport"], vec![], 60_000, 10).unwrap_err();
    assert_eq!(e.code, "capability-denied");
}

fn grant(account: &str, effect: PermissionEffect) -> PermissionGrant {
    PermissionGrant {
        account_ref: account.into(),
        tool: "vaultmesh_ssh_exec".into(),
        operation: None,
        scope: PermissionScope::All,
        parameters_digest: None,
        catalog_revision: None,
        effect,
        fresh_confirmation_required: false,
        remaining_uses: None,
    }
}

#[test]
fn a_connection_session_carries_the_allowed_accounts_of_its_grants() {
    let grants = vec![grant("b", PermissionEffect::Allow), grant("a", PermissionEffect::Allow), grant("c", PermissionEffect::Deny), grant("b", PermissionEffect::Allow)];
    let s = connection_managed_session(&registry(), 7, &grants, u64::MAX - 5, 3);
    assert!(s.connection_managed);
    assert_eq!(s.allowed_accounts, vec!["a", "b"]);
    assert_eq!(s.allowed_tools, vec!["vaultmesh_http_request", "vaultmesh_ssh_exec"]);
    assert_eq!(s.expires_at, u64::MAX);
    assert_eq!(s.request_limit, SESSION_REQUEST_LIMIT);
    let snapshot = session_snapshot(&s, 12);
    assert_eq!(snapshot.session_id, format_uuid(3));
    assert_eq!(snapshot.client_id, format_uuid(7));
    assert_eq!(snapshot.output_byte_limit, MAX_SESSION_OUTPUT_BYTES);
    assert_eq!(snapshot.output_bytes_used, 12);
    assert_eq!(snapshot.allowed_accounts, vec!["a", "b"]);
}

fn web_connector(account: &str, enabled: bool, tools: Vec<&str>) -> AgentAccountPolicy {
    AgentAccountPolicy {
        account_ref: account.into(),
        definition_id: 1,
        display_label: "Portal".into(),
        environment: "production".into(),
        connector_kind: "managed-web".into(),
        catalog_kind: "login".into(),
        allowed_tools: tools.into_iter().map(String::from).collect(),
        enabled,
        operations: vec![],
    }
}

#[test]
fn grants_stay_only_while_their_connector_backs_them() {
    let policies = vec![web_connector("a", true, vec!["vaultmesh_web_act"]), web_connector("b", false, vec!["vaultmesh_ssh_exec"])];
    let mut grants = vec![
        grant("a", PermissionEffect::Allow),
        grant("b", PermissionEffect::Allow),
        grant("c", PermissionEffect::Allow),
        PermissionGrant { tool: "vaultmesh_web_act".into(), ..grant("a", PermissionEffect::Allow) },
    ];
    retain_backed_grants(&mut grants, &policies);
    let kept: Vec<(&str, &str)> = grants.iter().map(|g| (g.account_ref.as_str(), g.tool.as_str())).collect();
    assert_eq!(kept, vec![("c", "vaultmesh_ssh_exec"), ("a", "vaultmesh_web_act")]);
}

fn session(id: u128, managed: bool, accounts: Vec<&str>) -> ConnectionSession {
    ConnectionSession {
        session_id: id,
        client_id: 7,
        connection_managed: managed,
        allowed_accounts: accounts.into_iter().map(String::from).collect(),
        allowed_tools: vec!["vaultmesh_ssh_exec".into()],
        issued_at: 1,
        expires_at: 100,
        request_limit: 10,
        requests_used: 2,
    }
}

#[test]
fn sessions_follow_the_connectors_that_back_them() {
    let policies = vec![web_connector("a", true, vec![]), web_connector("b", false, vec![]), web_connector("d", true, vec![])];
    let (kept, ended) = sessions_after_connector_change(
        vec![session(1, true, vec!["b", "c"]), session(2, false, vec!["a", "c"]), session(3, false, vec!["b"])],
        &policies,
        &registry(),
    );
    assert_eq!(ended, vec![3]);
    assert_eq!(kept.len(), 2);
    assert_eq!(kept[0].session_id, 1);
    assert_eq!(kept[0].allowed_accounts, vec!["a", "c", "d"]);
    assert_eq!(kept[0].allowed_tools, vec!["vaultmesh_http_request", "vaultmesh_ssh_exec"]);
    assert_eq!(kept[0].requests_used, 2);
    assert_eq!(kept[1].session_id, 2);
    assert_eq!(kept[1].allowed_accounts, vec!["a", "c"]);
}

fn format_uuid(id: u128) -> String {
    uuid::Uuid::from_u128(id).hyphenated().to_string()
}
