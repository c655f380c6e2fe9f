use vaultmesh_agent::confirmation::{ConfirmationDesk, PendingConfirmation, CONFIRMATION_TTL_MILLIS};
use vaultmesh_agent::permission_desk::{PermissionDesk, PermissionWaitOutcome};
use vaultmesh_agent::policy::PendingPermission;

const CLIENT: u128 = 2;
const SESSION: u128 = 3;

fn empty() -> ConfirmationDesk {
    ConfirmationDesk { confirmations: vec![], outcomes: vec![] }
}

fn digest(c: char) -> String {
    format!("sha256:{}", c.to_string().repeat(64))
}

fn ask(desk: &mut ConfirmationDesk, action: &str, ticket: Option<&str>, now: u64, new_ref: u128) -> Result<(), vaultmesh_agent::error::AgentBrokerError> {
    desk.validate_or_request_confirmation(
        CLIENT,
        SESSION,
        Some("00000000-0000-4000-8000-000000000011".to_owned()),
        Some("SSH".to_owned()),
        "vaultmesh_ssh_exec",
        "R3",
        action.to_owned(),
        ticket,
        now,
        new_ref,
    )
}

fn opened(r: u128, created_at: u64) -> PendingConfirmation {
    PendingConfirmation {
        confirmation_ref: r,
        client_id: CLIENT,
        session_id: SESSION,
        account_ref: None,
        account_label: None,
        tool: "vaultmesh_ssh_exec".to_owned(),
        risk: "R3".to_owned(),
        action_digest: digest('a'),
        created_at,
        expires_at: created_at + CONFIRMATION_TTL_MILLIS,
        approved: false,
    }
}

#[test]
fn a_call_without_ticket_opens_one_confirmation_per_action() {
    let mut desk = empty();
    let e = ask(&mut desk, &digest('a'), None, 100, 41).unwrap_err();
    assert_eq!(e.code, "confirmation-required");
    assert!(e.retryable);
    assert_eq!(e.native_action_required, Some("approve-confirmation"));
    assert_eq!(e.confirmation_ref.as_deref(), Some(format_uuid(41).as_str()));
    assert_eq!(desk.confirmations.len(), 1);
    assert_eq!(desk.confirmations[0].expires_at, 100 + CONFIRMATION_TTL_MILLIS);
    assert!(!desk.confirmations[0].approved);

    let again = ask(&mut desk, &digest('a'), None, 200, 42).unwrap_err();
    assert_eq!(again.confirmation_ref.as_deref(), Some(format_uuid(41).as_str()));
    assert_eq!(desk.confirmations.len(), 1);

    let other = ask(&mut desk, &digest('b'), None, 200, 43).unwrap_err();
    assert_eq!(other.confirmation_ref.as_deref(), Some(format_uuid(43).as_str()));
    assert_eq!(desk.confirmations.len(), 2);
}

#[test]
fn an_approved_ticket_is_accepted_once() {
    let mut desk = empty();
    ask(&mut desk, &digest('a'), None, 100, 41).unwrap_err();
    let reference = format_uuid(41);
    let snapshot = desk.approve_confirmation(&reference, 150, &vec![SESSION]).unwrap();
    assert!(snapshot.approved);
    assert_eq!(snapshot.confirmation_ref, reference);
    assert_eq!(snapshot.tool, "vaultmesh_ssh_exec");
    assert_eq!(snapshot.created_at, 100);

    assert!(ask(&mut desk, &digest('a'), Some(&reference), 160, 50).is_ok());
    assert!(desk.confirmations.is_empty());
    let reused = ask(&mut desk, &digest('a'), Some(&reference), 170, 51).unwrap_err();
    assert_eq!(reused.code, "invalid-confirmation");
    assert!(!reused.retryable);
}

#[test]
fn a_ticket_for_another_action_or_unapproved_is_a_mismatch_and_is_spent() {
    let mut desk = empty();
    ask(&mut desk, &digest('a'), None, 100, 41).unwrap_err();
    let reference = format_uuid(41);
    let unapproved = ask(&mut desk, &digest('a'), Some(&reference), 110, 50).unwrap_err();
    assert_eq!(unapproved.code, "confirmation-mismatch");
    assert!(desk.confirmations.is_empty());

    ask(&mut desk, &digest('a'), None, 120, 42).unwrap_err();
    let reference = format_uuid(42);
    desk.approve_confirmation(&reference, 130, &vec![SESSION]).unwrap();
    let other = ask(&mut desk, &digest('b'), Some(&reference), 140, 51).unwrap_err();
    assert_eq!(other.code, "confirmation-mismatch");
    assert!(desk.confirmations.is_empty());
}

#[test]
fn an_expired_approval_does_not_match() {
    let mut desk = ConfirmationDesk { confirmations: vec![PendingConfirmation { approved: true, ..opened(41, 100) }], outcomes: vec![] };
    let late = ask(&mut desk, &digest('a'), Some(&format_uuid(41)), 100 + CONFIRMATION_TTL_MILLIS, 50).unwrap_err();
    assert_eq!(late.code, "confirmation-mismatch");
}

#[test]
fn unreadable_or_unknown_tickets_are_invalid() {
    let mut desk = empty();
    let bad = ask(&mut desk, &digest('a'), Some("not-a-uuid"), 100, 41).unwrap_err();
    assert_eq!(bad.code, "invalid-confirmation");
    assert_eq!(bad.message, "The opaque Agent reference is invalid.");
    let unknown = ask(&mut desk, &digest('a'), Some(&format_uuid(99)), 100, 41).unwrap_err();
    assert_eq!(unknown.code, "invalid-confirmation");
    assert_eq!(unknown.message, "The confirmation ticket is expired or unavailable.");
    assert!(desk.confirmations.is_empty());
}

#[test]
fn approving_an_unknown_or_pruned_confirmation_is_refused() {
    let mut desk = ConfirmationDesk { confirmations: vec![opened(41, 100)], outcomes: vec![] };
    assert_eq!(desk.approve_confirmation("nope", 110, &vec![SESSION]).unwrap_err().code, "unknown-confirmation");
    assert_eq!(desk.approve_confirmation(&format_uuid(41), 110, &vec![]).unwrap_err().code, "unknown-confirmation");
    assert!(desk.confirmations.is_empty());
}

#[test]
fn a_waiting_call_sees_pending_then_allowed() {
    let mut desk = ConfirmationDesk { confirmations: vec![opened(41, 100)], outcomes: vec![] };
    let reference = format_uuid(41);
    let sessions = vec![SESSION];
    assert_eq!(desk.confirmation_wait_outcome(&reference, 110, &sessions), PermissionWaitOutcome::Pending);
    desk.approve_confirmation(&reference, 120, &sessions).unwrap();
    assert_eq!(desk.confirmation_wait_outcome(&reference, 130, &sessions), PermissionWaitOutcome::Allowed);
    assert_eq!(desk.confirmation_wait_outcome("nope", 130, &sessions), PermissionWaitOutcome::Expired);
}

#[test]
fn a_rejection_is_reported_once() {
    let mut desk = ConfirmationDesk { confirmations: vec![opened(41, 100)], outcomes: vec![] };
    let reference = format_uuid(41);
    let sessions = vec![SESSION];
    desk.reject_confirmation(&reference, 200).unwrap();
    assert!(desk.confirmations.is_empty());
    assert_eq!(desk.outcomes.len(), 1);
    assert_eq!(desk.outcomes[0].expires_at, 200 + CONFIRMATION_TTL_MILLIS);
    assert_eq!(desk.confirmation_wait_outcome(&reference, 210, &sessions), PermissionWaitOutcome::Denied);
    assert_eq!(desk.confirmation_wait_outcome(&reference, 220, &sessions), PermissionWaitOutcome::Expired);
    assert_eq!(desk.reject_confirmation(&reference, 230).unwrap_err().code, "unknown-confirmation");
}

#[test]
fn a_rejection_not_read_in_time_expires() {
    let mut desk = ConfirmationDesk { confirmations: vec![opened(41, 100)], outcomes: vec![] };
    let reference = format_uuid(41);
    desk.reject_confirmation(&reference, 200).unwrap();
    let late = 200 + CONFIRMATION_TTL_MILLIS;
    assert_eq!(desk.confirmation_wait_outcome(&reference, late, &vec![SESSION]), PermissionWaitOutcome::Expired);
}

#[test]
fn prune_drops_expired_and_orphaned_confirmations() {
    let mut other_session = opened(42, 100);
    other_session.session_id = 9;
    let mut desk = ConfirmationDesk { confirmations: vec![opened(41, 100), other_session, opened(43, 5_000)], outcomes: vec![] };
    desk.prune(100 + CONFIRMATION_TTL_MILLIS, &vec![SESSION]);
    assert_eq!(desk.confirmations.len(), 1);
    assert_eq!(desk.confirmations[0].confirmation_ref, 43);
}

#[test]
fn confirmations_are_listed_oldest_first() {
    let desk = ConfirmationDesk { confirmations: vec![opened(41, 300), opened(42, 100), opened(43, 300), opened(44, 200)], outcomes: vec![] };
    let listed: Vec<String> = desk.confirmations().into_iter().map(|s| s.confirmation_ref).collect();
    assert_eq!(listed, vec![format_uuid(42), format_uuid(44), format_uuid(41), format_uuid(43)]);
}

fn request(permission_ref: u128, created_at: u64) -> PendingPermission {
    PendingPermission {
        permission_ref,
        client_id: CLIENT,
        session_id: SESSION,
        account_ref: "00000000-0000-4000-8000-000000000011".to_owned(),
        account_label: "SSH".to_owned(),
        environment: "test".to_owned(),
        tool: "vaultmesh_ssh_exec".to_owned(),
        operation: Some("hostname".to_owned()),
        parameters_digest: None,
        risk: "R1".to_owned(),
        approved_display: "root@example.test:22".to_owned(),
        action_display: "hostname".to_owned(),
        target_digest: digest('d'),
        source_item_ref: None,
        source_item_kind: None,
        activation_required: false,
        direct_ssh_policy: None,
        direct_http_policy: None,
        direct_connector_policy: None,
        created_at,
        expires_at: created_at + 30_000,
    }
}

#[test]
fn permission_requests_are_listed_oldest_first() {
    let desk = PermissionDesk { requests: vec![request(7, 50), request(8, 10), request(9, 50)], outcomes: vec![] };
    let listed: Vec<String> = desk.permission_requests().into_iter().map(|s| s.permission_ref).collect();
    assert_eq!(listed, vec![format_uuid(8), format_uuid(7), format_uuid(9)]);
}

fn format_uuid(id: u128) -> String {
    uuid::Uuid::from_u128(id).hyphenated().to_string()
}
