use vaultmesh_agent::active_plans::{audit_context_for_request, ActiveDirectPlans};
use vaultmesh_agent::connector::AgentDirectConnectorPolicy;
use vaultmesh_agent::direct_ssh::AgentDirectSshPolicy;
use vaultmesh_agent::model::{AgentRegistry, AgentToolDefinition};
use vaultmesh_agent::permission_desk::PermissionDesk;
use vaultmesh_agent::policy::PendingPermission;

const ACCOUNT: &str = "00000000-0000-0000-0000-000000000003";

fn ssh_policy() -> AgentDirectSshPolicy {
    AgentDirectSshPolicy {
        account_ref: 3,
        account_label: "Prod".into(),
        environment: "default".into(),
        tool: "vaultmesh_ssh_exec".into(),
        risk: "R1".into(),
        action_display: "hostname".into(),
        host: "example.com".into(),
        port: 22,
        username: "root".into(),
        host_key_sha256: "SHA256:k".into(),
        target_digest: "sha256:target".into(),
        approved_display: "root@example.com:22 · SHA256:k".into(),
        max_output_bytes: 4_096,
        remote_path_prefixes: vec!["/srv".into()],
        connector_ref: None,
        tunnel: None,
    }
}

fn connector_policy() -> AgentDirectConnectorPolicy {
    AgentDirectConnectorPolicy {
        connector_ref: 5,
        account_ref: 3,
        account_label: "Portal".into(),
        environment: "prod".into(),
        connector_kind: "managed-web".into(),
        tool: "vaultmesh_web_download".into(),
        operation: Some("report".into()),
        risk: "R2".into(),
        action_display: "下载：report".into(),
        approved_display: "https://app.example.com".into(),
        target_digest: "sha256:connector".into(),
    }
}

fn request(permission_ref: u128, client_id: u128, tool: &str) -> PendingPermission {
    PendingPermission {
        permission_ref,
        client_id,
        session_id: 20,
        account_ref: ACCOUNT.into(),
        account_label: "Prod".into(),
        environment: "default".into(),
        tool: tool.into(),
        operation: Some("hostname".into()),
        parameters_digest: Some("sha256:params".into()),
        risk: "R1".into(),
        approved_display: "root@example.com:22".into(),
        action_display: "hostname".into(),
        target_digest: "sha256:target".into(),
        source_item_ref: Some(3),
        source_item_kind: Some("ssh".into()),
        activation_required: true,
        direct_ssh_policy: Some(ssh_policy()),
        direct_http_policy: None,
        direct_connector_policy: None,
        created_at: 1,
        expires_at: 1_000,
    }
}

#[test]
fn stored_plans_are_found_under_their_key_and_removed_by_client() {
    let mut plans = ActiveDirectPlans::new();
    plans.store_request_plan(&request(1, 10, "vaultmesh_ssh_exec")).unwrap();
    plans.store_request_plan(&request(2, 10, "vaultmesh_ssh_exec")).unwrap();
    assert_eq!(plans.ssh.len(), 1);
    assert!(plans.has_plan(10, ACCOUNT, "vaultmesh_ssh_exec", "sha256:params"));
    assert!(!plans.has_plan(11, ACCOUNT, "vaultmesh_ssh_exec", "sha256:params"));
    assert!(!plans.has_plan(10, ACCOUNT, "vaultmesh_ssh_exec", "sha256:other"));
    let found = plans.ssh_plan(10, ACCOUNT, "vaultmesh_ssh_exec", "sha256:params").unwrap();
    assert_eq!(found.remote_path_prefixes, vec!["/srv".to_owned()]);
    let mut other = request(3, 11, "vaultmesh_web_download");
    other.direct_ssh_policy = None;
    other.direct_connector_policy = Some(connector_policy());
    plans.store_request_plan(&other).unwrap();
    assert!(plans.connector_plan(11, ACCOUNT, "vaultmesh_web_download", "sha256:params").is_some());
    let mut bare = request(4, 12, "vaultmesh_ssh_exec");
    bare.direct_ssh_policy = None;
    assert_eq!(plans.store_request_plan(&bare).unwrap_err().code, "broker-unavailable");
    plans.remove_client(10);
    assert!(plans.ssh.is_empty());
    assert_eq!(plans.connector.len(), 1);
    plans.clear();
    assert!(plans.connector.is_empty());
}

#[test]
fn activating_a_request_installs_its_plan() {
    let mut desk = PermissionDesk { requests: vec![request(1, 10, "vaultmesh_ssh_exec")], outcomes: Vec::new() };
    let mut plans = ActiveDirectPlans::new();
    let sessions = vec![20u128];
    let clients = vec![10u128];
    let snapshot = desk
        .activate_pending_direct_action(&mut plans, "00000000-0000-0000-0000-000000000001", 5, &sessions, &clients)
        .unwrap()
        .unwrap();
    assert!(!snapshot.activation_required);
    assert_eq!(snapshot.permission_ref, "00000000-0000-0000-0000-000000000001");
    assert!(!desk.requests[0].activation_required);
    assert!(plans.has_plan(10, ACCOUNT, "vaultmesh_ssh_exec", "sha256:params"));
    let e = desk
        .activate_pending_direct_action(&mut plans, "00000000-0000-0000-0000-000000000009", 5, &sessions, &clients)
        .unwrap_err();
    assert_eq!(e.code, "unknown-permission");
    assert_eq!(
        desk.activate_pending_direct_action(&mut plans, "nope", 5, &sessions, &clients).unwrap_err().code,
        "unknown-permission"
    );
    let mut plain = request(2, 10, "vaultmesh_ssh_exec");
    plain.direct_ssh_policy = None;
    desk.requests.push(plain);
    assert!(desk
        .activate_pending_direct_action(&mut plans, "00000000-0000-0000-0000-000000000002", 5, &sessions, &clients)
        .unwrap()
        .is_none());
    assert!(desk
        .activate_pending_direct_action(&mut plans, "00000000-0000-0000-0000-000000000001", 1_000, &sessions, &clients)
        .is_err());
    assert!(desk.requests.is_empty());
}

#[test]
fn audit_context_comes_from_plan_then_request_then_terminal_session() {
    let registry = AgentRegistry {
        protocol_version: 2,
        tools: vec![AgentToolDefinition {
            name: "vaultmesh_ssh_pty_write".into(),
            version: 1,
            capability: "ssh.pty".into(),
            risk: "R3".into(),
            requires_account: true,
            confirmation: "none".into(),
            parameters: Vec::new(),
        }],
    };
    let mut plans = ActiveDirectPlans::new();
    let desk = PermissionDesk { requests: vec![request(1, 10, "vaultmesh_ssh_exec")], outcomes: Vec::new() };
    let from_request =
        audit_context_for_request(&plans, &desk, &registry, 10, Some(ACCOUNT), "vaultmesh_ssh_exec", Some("sha256:params")).unwrap();
    assert_eq!(from_request.target_class, "ssh");
    assert_eq!(from_request.account_ref, 3);
    assert_eq!(from_request.approved_display, "root@example.com:22");
    plans.store_request_plan(&request(1, 10, "vaultmesh_ssh_exec")).unwrap();
    let from_plan =
        audit_context_for_request(&plans, &desk, &registry, 10, Some(ACCOUNT), "vaultmesh_ssh_exec", Some("sha256:params")).unwrap();
    assert_eq!(from_plan.approved_display, "root@example.com:22 · SHA256:k");
    let pty = audit_context_for_request(&plans, &desk, &registry, 10, Some(ACCOUNT), "vaultmesh_ssh_pty_write", Some("d")).unwrap();
    assert_eq!(pty.target_class, "ssh-pty-session");
    assert_eq!(pty.risk, "R3");
    assert!(audit_context_for_request(&plans, &desk, &registry, 10, None, "vaultmesh_ssh_exec", Some("d")).is_none());
    assert!(audit_context_for_request(&plans, &desk, &registry, 10, Some(ACCOUNT), "vaultmesh_ssh_exec", None).is_none());
    assert!(audit_context_for_request(&plans, &desk, &registry, 10, Some(ACCOUNT), "vaultmesh_other", Some("d")).is_none());
}
