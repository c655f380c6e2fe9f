use vaultmesh_agent::model::{PermissionChoice, PermissionDuration, PermissionEffect, PermissionScope};
use vaultmesh_agent::permission_desk::{
    apply_permission_grant, grant_permission, plan_permission_resolution, ConnectionSession, PermissionDesk,
    PermissionWaitOutcome,
};
use vaultmesh_agent::policy::{PendingPermission, PermissionGrant};

fn pending(risk: &str, permission_ref: u128) -> PendingPermission {
    PendingPermission {
        permission_ref,
        client_id: 2,
        session_id: 3,
        account_ref: "00000000-0000-4000-8000-000000000011".to_owned(),
        account_label: "SSH".to_owned(),
        environment: "test".to_owned(),
        tool: "vaultmesh_ssh_exec".to_owned(),
        operation: Some("hostname".to_owned()),
        parameters_digest: Some(format!("sha256:{}", "c".repeat(64))),
        risk: risk.to_owned(),
        approved_display: "root@example.test:22".to_owned(),
        action_display: "hostname".to_owned(),
        target_digest: format!("sha256:{}", "d".repeat(64)),
        source_item_ref: Some(4),
        source_item_kind: Some("ssh".to_owned()),
        activation_required: false,
        direct_ssh_policy: None,
        direct_http_policy: None,
        direct_connector_policy: None,
        created_at: 1,
        expires_at: 31_000,
    }
}

fn choice(effect: PermissionEffect, scope: PermissionScope, duration: PermissionDuration) -> PermissionChoice {
    PermissionChoice { effect, scope, duration, path_pattern: None }
}

#[test]
fn allow_once_of_low_risk_gives_one_use() {
    let plan = plan_permission_resolution(&pending("R1", 1), &choice(PermissionEffect::Allow, PermissionScope::Exact, PermissionDuration::Once), false, Some("codex"), 9, 100).unwrap();
    assert!(plan.allowed);
    assert!(plan.rule.is_none());
    assert_eq!(plan.grants.len(), 1);
    assert_eq!(plan.grants[0].remaining_uses, Some(1));
    assert_eq!(plan.grants[0].operation.as_deref(), Some("hostname"));
}

#[test]
fn allow_of_r2_needs_fresh_confirmation_and_one_exact_use() {
    let plan = plan_permission_resolution(&pending("R2", 1), &choice(PermissionEffect::Allow, PermissionScope::All, PermissionDuration::Connection), false, Some("codex"), 9, 100).unwrap();
    assert_eq!(plan.grants.len(), 2);
    assert!(plan.grants[0].fresh_confirmation_required);
    assert_eq!(plan.grants[0].scope, PermissionScope::All);
    assert_eq!(plan.grants[1].scope, PermissionScope::Exact);
    assert_eq!(plan.grants[1].remaining_uses, Some(1));
}

#[test]
fn permanent_choice_needs_the_scoped_store() {
    let err = plan_permission_resolution(&pending("R1", 1), &choice(PermissionEffect::Allow, PermissionScope::Exact, PermissionDuration::Permanent), false, Some("codex"), 9, 100).unwrap_err();
    assert_eq!(err.code, "permission-store-unavailable");
    assert!(err.retryable);
    let plan = plan_permission_resolution(&pending("R1", 1), &choice(PermissionEffect::Allow, PermissionScope::Exact, PermissionDuration::Permanent), true, Some("codex"), 9, 100).unwrap();
    let rule = plan.rule.unwrap();
    assert_eq!(rule.id, 9);
    assert_eq!(rule.client_key, "codex");
    assert_eq!(rule.effect, PermissionEffect::Allow);
    assert_eq!(rule.parameters_digest, Some(format!("sha256:{}", "c".repeat(64))));
    assert_eq!(rule.created_at, 100);
}

#[test]
fn unoffered_scope_and_unknown_client_are_refused() {
    let err = plan_permission_resolution(&pending("R4", 1), &choice(PermissionEffect::Allow, PermissionScope::All, PermissionDuration::Once), true, Some("codex"), 9, 100).unwrap_err();
    assert_eq!(err.code, "permission-scope-denied");
    let err = plan_permission_resolution(&pending("R4", 1), &choice(PermissionEffect::Allow, PermissionScope::Exact, PermissionDuration::Connection), true, Some("codex"), 9, 100).unwrap_err();
    assert_eq!(err.code, "permission-duration-denied");
    let err = plan_permission_resolution(&pending("R1", 1), &choice(PermissionEffect::Deny, PermissionScope::Exact, PermissionDuration::Once), true, None, 9, 100).unwrap_err();
    assert_eq!(err.code, "unknown-client");
}

#[test]
fn inactive_direct_action_can_only_be_denied() {
    let mut p = pending("R1", 1);
    p.activation_required = true;
    let err = plan_permission_resolution(&p, &choice(PermissionEffect::Allow, PermissionScope::Exact, PermissionDuration::Once), true, Some("codex"), 9, 100).unwrap_err();
    assert_eq!(err.code, "action-not-activated");
    let plan = plan_permission_resolution(&p, &choice(PermissionEffect::Deny, PermissionScope::Exact, PermissionDuration::Connection), true, Some("codex"), 9, 100).unwrap();
    assert!(!plan.allowed);
    assert_eq!(plan.grants.len(), 1);
    assert_eq!(plan.grants[0].effect, PermissionEffect::Deny);
}

fn grant(uses: Option<u32>) -> PermissionGrant {
    PermissionGrant {
        account_ref: "a".into(),
        tool: "t".into(),
        operation: None,
        scope: PermissionScope::All,
        parameters_digest: None,
        catalog_revision: None,
        effect: PermissionEffect::Allow,
        fresh_confirmation_required: false,
        remaining_uses: uses,
    }
}

#[test]
fn giving_the_same_grant_twice_keeps_one() {
    let mut grants = Vec::new();
    apply_permission_grant(&mut grants, grant(Some(1)));
    apply_permission_grant(&mut grants, grant(None));
    apply_permission_grant(&mut grants, grant(None));
    assert_eq!(grants.len(), 1);
    assert_eq!(grants[0].remaining_uses, None);
}

#[test]
fn grant_needs_a_connection_managed_session() {
    let mut session = ConnectionSession { session_id: 3, client_id: 2, connection_managed: false, allowed_accounts: vec![], allowed_tools: vec![], issued_at: 0, expires_at: 900_000, request_limit: 100, requests_used: 0 };
    let mut grants = Vec::new();
    assert_eq!(grant_permission(&mut session, &mut grants, grant(None)).unwrap_err().code, "invalid-permission");
    session.connection_managed = true;
    grant_permission(&mut session, &mut grants, grant(None)).unwrap();
    grant_permission(&mut session, &mut grants, grant(None)).unwrap();
    assert_eq!(session.allowed_accounts, vec!["a".to_owned()]);
    assert_eq!(session.allowed_tools, vec!["t".to_owned()]);
    assert_eq!(grants.len(), 1);
}

#[test]
fn resolved_permission_is_reported_once() {
    let mut desk = PermissionDesk { requests: vec![pending("R1", 77)], outcomes: vec![] };
    let reference = format_uuid(77);
    let sessions = vec![3u128];
    let clients = vec![2u128];
    assert_eq!(desk.permission_wait_outcome(&reference, 10, &sessions, &clients), PermissionWaitOutcome::Pending);
    assert_eq!(desk.pending_request(&reference, 10, &sessions, &clients).unwrap(), 0);
    desk.record_outcome(77, false, 20);
    assert!(desk.requests.is_empty());
    assert_eq!(desk.permission_wait_outcome(&reference, 30, &sessions, &clients), PermissionWaitOutcome::Denied);
    assert_eq!(desk.permission_wait_outcome(&reference, 31, &sessions, &clients), PermissionWaitOutcome::Expired);
    assert_eq!(desk.permission_wait_outcome("not-a-uuid", 31, &sessions, &clients), PermissionWaitOutcome::Expired);
}

#[test]
fn permission_outcome_expires_and_requests_follow_their_session() {
    let mut desk = PermissionDesk { requests: vec![pending("R1", 5)], outcomes: vec![] };
    let reference = format_uuid(5);
    assert_eq!(desk.permission_wait_outcome(&reference, 10, &vec![], &vec![2]), PermissionWaitOutcome::Expired);
    assert!(desk.requests.is_empty());
    desk.record_outcome(5, true, 100);
    assert_eq!(desk.permission_wait_outcome(&reference, 100 + 30_000, &vec![], &vec![]), PermissionWaitOutcome::Expired);
    desk.record_outcome(5, true, 100);
    assert_eq!(desk.permission_wait_outcome(&reference, 200, &vec![], &vec![]), PermissionWaitOutcome::Allowed);
    assert_eq!(desk.pending_request(&reference, 200, &vec![], &vec![]).unwrap_err().code, "unknown-permission");
}

fn format_uuid(id: u128) -> String {
    uuid::Uuid::from_u128(id).hyphenated().to_string()
}
