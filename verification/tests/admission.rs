use sha2::{Digest, Sha256};
use vaultmesh_agent::account_catalog::AccountPageQuery;
use vaultmesh_agent::active_plans::ActiveDirectPlans;
use vaultmesh_agent::admission::{
    admit_request, authorize_request, finish_request, RequestPlan, canonical_action_digest, canonical_target, request_action_digest, check_request_plan, check_request_size, record_request, resolve_request_session, AdmissionState, AgentRequest,
    MAX_REQUEST_BYTES, MAX_SEEN_REQUESTS, PROTOCOL_VERSION,
};
use vaultmesh_agent::canonical::{canonical_parameters_digest, canonicalize_json};
use vaultmesh_agent::catalog_revision::account_catalog_revision;
use vaultmesh_agent::authz_envelope::executable_identity;
use vaultmesh_agent::broker::client_pairing_state;
use vaultmesh_agent::confirmation::ConfirmationDesk;
use vaultmesh_agent::account_catalog::account_page_window;
use vaultmesh_agent::connector_state::sync_connector_definitions;
use vaultmesh_agent::frame::{AgentFrameReader, FrameStep};
use vaultmesh_agent::http_path::{canonicalize_exact_path, path_matches};
use vaultmesh_agent::json::JsonValue;
use vaultmesh_agent::model::{AgentRegistry, AgentToolDefinition, PairingState, PermissionEffect, PermissionScope};
use vaultmesh_agent::native_ui::AgentNativeUiSurface;
use vaultmesh_agent::native_wait::{
    answer_event, native_authorization_step, native_wait_start, NativeWaitEffect, NativeWaitEvent, NativeWaitPhase,
    NativeWaitState,
};
use vaultmesh_agent::permission_desk::{apply_permission_plan, ConnectionSession, PermissionWaitOutcome};
use vaultmesh_agent::policy::{candidate_accepts_tool, is_direct_ssh_action_tool, is_ssh_pty_session_tool, PermissionGrant};
use vaultmesh_agent::unlock::AgentUnlockWaitOutcome;
use vaultmesh_agent::window::{
    close_authorization_window, expire_authorization_window, AuthorizationWindowState, DisplayedAgentAuthorization,
    WindowCloseRejection,
};

fn tool(name: &str) -> AgentToolDefinition {
    AgentToolDefinition {
        name: name.into(),
        version: 3,
        capability: "c".into(),
        risk: "R1".into(),
        requires_account: false,
        confirmation: "never".into(),
        parameters: Vec::new(),
    }
}

fn registry() -> AgentRegistry {
    AgentRegistry { protocol_version: 2, tools: vec![tool("vaultmesh_accounts_list"), tool("vaultmesh_request_local_ui")] }
}

fn request(id: u128, session: u128, tool: &str) -> AgentRequest {
    AgentRequest {
        protocol_version: PROTOCOL_VERSION,
        request_id: id,
        session_id: session,
        account_ref: None,
        tool: tool.into(),
        tool_version: 3,
        parameters: JsonValue::Object(Vec::new()),
        confirmation_ticket: None,
    }
}

fn session(id: u128, client: u128, managed: bool) -> ConnectionSession {
    ConnectionSession {
        session_id: id,
        client_id: client,
        connection_managed: managed,
        allowed_accounts: vec![],
        allowed_tools: vec!["vaultmesh_accounts_list".into()],
        issued_at: 0,
        expires_at: 10_000,
        request_limit: 5,
        requests_used: 0,
    }
}

fn len_of(_: &JsonValue) -> Option<usize> {
    Some(2)
}

fn run_admission(state: &mut AdmissionState, pairing: Option<PairingState>, req: &AgentRequest, continuation: bool) -> Result<(u128, usize), &'static str> {
    admit_request(state, &registry(), &Vec::new(), 7, pairing, req, continuation, 99, 1_000, &len_of)
        .map(|a| (a.session_id, a.tool_index))
        .map_err(|e| e.code)
}

#[test]
fn oversized_requests_are_refused_before_reading() {
    assert!(check_request_size(MAX_REQUEST_BYTES).is_ok());
    assert_eq!(check_request_size(MAX_REQUEST_BYTES + 1).unwrap_err().code, "request-too-large");
}

#[test]
fn admission_checks_follow_the_request_order() {
    let mut state = AdmissionState { sessions: vec![session(5, 7, false)], seen_requests: vec![] };
    let mut old = request(1, 5, "vaultmesh_accounts_list");
    old.protocol_version = 1;
    assert_eq!(run_admission(&mut state, None, &old, false), Err("update-required"));
    assert!(state.seen_requests.is_empty());

    assert_eq!(run_admission(&mut state, None, &request(1, 5, "vaultmesh_accounts_list"), false), Ok((5, 0)));
    assert_eq!(state.seen_requests, vec![1]);
    assert_eq!(run_admission(&mut state, None, &request(1, 5, "vaultmesh_accounts_list"), false), Err("request-replayed"));
    assert_eq!(run_admission(&mut state, None, &request(1, 5, "vaultmesh_accounts_list"), true), Ok((5, 0)));
    assert_eq!(run_admission(&mut state, None, &request(2, 5, "vaultmesh_unknown"), false), Err("unknown-tool"));
    let mut stale = request(3, 5, "vaultmesh_accounts_list");
    stale.tool_version = 2;
    assert_eq!(run_admission(&mut state, None, &stale, false), Err("update-required"));
    let mut bad = request(4, 5, "vaultmesh_accounts_list");
    bad.parameters = JsonValue::Null;
    assert_eq!(run_admission(&mut state, None, &bad, false), Err("invalid-parameters"));
    let mut extra = request(5, 5, "vaultmesh_accounts_list");
    extra.parameters = JsonValue::Object(vec![("x".into(), JsonValue::Null)]);
    assert_eq!(run_admission(&mut state, None, &extra, false), Err("unknown-field"));
    assert_eq!(run_admission(&mut state, None, &request(6, 5, "vaultmesh_request_local_ui"), false), Err("capability-denied"));
    assert_eq!(run_admission(&mut state, None, &request(7, 8, "vaultmesh_accounts_list"), false), Err("session-required"));
    assert_eq!(run_admission(&mut state, None, &request(8, 0, "vaultmesh_accounts_list"), false), Err("session-required"));
    assert_eq!(run_admission(&mut state, Some(PairingState::Pending), &request(9, 0, "vaultmesh_accounts_list"), false), Err("pairing-required"));
}

#[test]
fn a_paired_connection_gets_its_own_session() {
    let mut state = AdmissionState { sessions: vec![], seen_requests: vec![] };
    assert_eq!(run_admission(&mut state, Some(PairingState::Paired), &request(1, 0, "vaultmesh_accounts_list"), false), Ok((99, 0)));
    assert_eq!(state.sessions.len(), 1);
    assert!(state.sessions[0].connection_managed);
    assert_eq!(state.sessions[0].session_id, 99);
    assert_eq!(state.sessions[0].expires_at, 1_000 + 900_000);
    assert_eq!(run_admission(&mut state, Some(PairingState::Paired), &request(2, 0, "vaultmesh_request_local_ui"), false), Ok((99, 1)));
    assert_eq!(state.sessions.len(), 1);
}

#[test]
fn session_resolution_prefers_the_named_session() {
    let mut sessions = vec![session(4, 7, true)];
    assert_eq!(resolve_request_session(&mut sessions, &registry(), &Vec::new(), 7, None, 12, 99, 0).unwrap(), 12);
    assert_eq!(resolve_request_session(&mut sessions, &registry(), &Vec::new(), 7, None, 0, 99, 0).unwrap(), 4);
    assert_eq!(sessions.len(), 1);
}

#[test]
fn the_replay_guard_starts_over_when_full() {
    let mut seen: Vec<u128> = (0..MAX_SEEN_REQUESTS as u128).collect();
    assert!(record_request(&mut seen, 1_000_000, false).is_ok());
    assert_eq!(seen, vec![1_000_000]);
    assert_eq!(record_request(&mut seen, 5, true).unwrap_err().code, "broker-unavailable");
    assert_eq!(seen, vec![1_000_000]);
}

#[test]
fn an_unlock_wait_continues_after_approval() {
    let start = native_wait_start(1_000);
    assert_eq!(start.deadline, 31_000);
    let details = JsonValue::Object(vec![("unlockRef".into(), JsonValue::String("u-1".into()))]);
    let response = JsonValue::Object(vec![("error".into(), JsonValue::Object(vec![("details".into(), details)]))]);
    let (state, action) = native_authorization_step(&start, answer_event(&response));
    assert_eq!(action.show, Some(AgentNativeUiSurface::Unlock));
    assert!(matches!(action.effect, NativeWaitEffect::PollUnlock { ref unlock_ref, pause: false } if unlock_ref == "u-1"));
    let (state, action) = native_authorization_step(&state, NativeWaitEvent::UnlockPolled { outcome: AgentUnlockWaitOutcome::Pending, now: 2_000 });
    assert!(matches!(action.effect, NativeWaitEffect::PollUnlock { pause: true, .. }));
    let (state, action) = native_authorization_step(&state, NativeWaitEvent::UnlockPolled { outcome: AgentUnlockWaitOutcome::Allowed, now: 3_000 });
    assert!(matches!(state.phase, NativeWaitPhase::Inspect));
    assert_eq!(state.deadline, 33_000);
    assert!(matches!(action.effect, NativeWaitEffect::Continue { confirmation_ticket: None }));
    let done = JsonValue::Object(vec![("ok".into(), JsonValue::Bool(true)), ("result".into(), JsonValue::Null)]);
    let (state, action) = native_authorization_step(&state, answer_event(&done));
    assert!(matches!(state.phase, NativeWaitPhase::Done));
    assert!(matches!(action.effect, NativeWaitEffect::Finish));
}

#[test]
fn a_pending_unlock_expires_at_the_deadline() {
    let state = NativeWaitState { phase: NativeWaitPhase::Unlock("u-2".into()), deadline: 500 };
    let (next, action) = native_authorization_step(&state, NativeWaitEvent::UnlockPolled { outcome: AgentUnlockWaitOutcome::Pending, now: 500 });
    assert!(matches!(next.phase, NativeWaitPhase::Done));
    assert_eq!(action.show, Some(AgentNativeUiSurface::UnlockExpired("u-2".into())));
    assert!(matches!(action.effect, NativeWaitEffect::Fail { ref error, clear_audit: false } if error.code == "mcp-unlock-timeout"));
    let (_, denied) = native_authorization_step(&state, NativeWaitEvent::UnlockPolled { outcome: AgentUnlockWaitOutcome::Denied, now: 1 });
    assert!(matches!(denied.effect, NativeWaitEffect::Fail { ref error, .. } if error.code == "mcp-unlock-denied" && error.retryable));
}

#[test]
fn an_allowed_confirmation_continues_with_its_ticket() {
    let response = JsonValue::Object(vec![(
        "error".into(),
        JsonValue::Object(vec![("confirmationRef".into(), JsonValue::String("c-9".into()))]),
    )]);
    let (state, action) = native_authorization_step(&native_wait_start(0), answer_event(&response));
    assert_eq!(action.show, Some(AgentNativeUiSurface::Authorization));
    assert!(matches!(action.effect, NativeWaitEffect::PollAuthorization { confirmation: true, pause: false, .. }));
    let (_, action) = native_authorization_step(&state, NativeWaitEvent::AuthorizationPolled { outcome: PermissionWaitOutcome::Allowed, now: 10 });
    assert!(matches!(action.effect, NativeWaitEffect::Continue { confirmation_ticket: Some(ref t) } if t == "c-9"));
    let (_, action) = native_authorization_step(&state, NativeWaitEvent::AuthorizationPolled { outcome: PermissionWaitOutcome::Expired, now: 10 });
    assert_eq!(action.show, Some(AgentNativeUiSurface::AuthorizationExpired("c-9".into())));
    assert!(matches!(action.effect, NativeWaitEffect::Fail { ref error, .. } if error.code == "authorization-timeout"));
    let (_, action) = native_authorization_step(&state, NativeWaitEvent::AuthorizationPolled { outcome: PermissionWaitOutcome::Denied, now: 10 });
    assert!(matches!(action.effect, NativeWaitEffect::Fail { ref error, .. } if error.code == "authorization-denied"));
    let (_, action) = native_authorization_step(&state, NativeWaitEvent::ContinuationFailed);
    assert!(matches!(action.effect, NativeWaitEffect::Fail { ref error, clear_audit: true } if error.code == "broker-unavailable"));
}

#[test]
fn closing_the_window_resets_its_deadline() {
    let mut window = AuthorizationWindowState { displayed: Some(DisplayedAgentAuthorization::Confirmation("c-1".into())), deadline: 40_000 };
    assert!(!expire_authorization_window(&mut window, "other", 12_000));
    assert_eq!(window.deadline, 40_000);
    assert!(expire_authorization_window(&mut window, "c-1", 12_000));
    assert_eq!(window.deadline, 12_000);
    let rejection = close_authorization_window(&mut window);
    assert!(matches!(rejection, Some(WindowCloseRejection::Confirmation { ref confirmation_ref }) if confirmation_ref == "c-1"));
    assert!(window.displayed.is_none());
    assert_eq!(window.deadline, 0);
}

#[test]
fn the_catalog_revision_digests_filters_entries_and_environments() {
    let query = AccountPageQuery { limit: 20, cursor: None, query: None, kinds: vec![], capabilities: vec![], environments: vec![] };
    let revision = account_catalog_revision(&query, &Vec::new(), &Vec::new(), &Vec::new()).unwrap();
    let digest = Sha256::digest(br#"{"capabilities":[],"environments":[],"kinds":[],"query":null}"#);
    let expected: String = digest.iter().map(|b| format!("{b:02x}")).collect();
    assert_eq!(revision, expected[..16]);
    let filtered = AccountPageQuery { kinds: vec!["ssh".into(), "api".into(), "ssh".into()], ..query };
    let revision = account_catalog_revision(&filtered, &Vec::new(), &Vec::new(), &Vec::new()).unwrap();
    let digest = Sha256::digest(br#"{"capabilities":[],"environments":[],"kinds":["api","ssh"],"query":null}"#);
    let expected: String = digest.iter().map(|b| format!("{b:02x}")).collect();
    assert_eq!(revision, expected[..16]);
}

#[test]
fn syncing_no_connectors_keeps_the_managed_sessions() {
    let mut sessions = vec![session(4, 7, true)];
    let mut grants: Vec<Vec<PermissionGrant>> = vec![vec![]];
    let (policies, ended) = sync_connector_definitions(&Vec::new(), &mut sessions, &mut grants, &registry()).unwrap();
    assert!(policies.is_empty());
    assert!(ended.is_empty());
    assert_eq!(sessions.len(), 1);
    assert_eq!(sessions[0].allowed_tools, vec!["vaultmesh_accounts_list".to_string(), "vaultmesh_request_local_ui".to_string()]);
    assert_eq!(grants.len(), 1);
}

#[test]
fn a_plan_is_applied_grant_by_grant() {
    let grant = PermissionGrant {
        account_ref: "acct".into(),
        tool: "vaultmesh_ssh_exec".into(),
        operation: None,
        scope: PermissionScope::All,
        parameters_digest: None,
        catalog_revision: None,
        effect: PermissionEffect::Allow,
        fresh_confirmation_required: false,
        remaining_uses: Some(1),
    };
    let mut managed = session(4, 7, true);
    let mut grants = Vec::new();
    apply_permission_plan(&mut managed, &mut grants, &vec![grant.clone(), grant.clone()]).unwrap();
    assert_eq!(grants.len(), 1);
    assert_eq!(managed.allowed_accounts, vec!["acct".to_string()]);
    let mut explicit = session(5, 7, false);
    let mut none = Vec::new();
    assert_eq!(apply_permission_plan(&mut explicit, &mut none, &vec![grant]).unwrap_err().code, "invalid-permission");
    assert!(none.is_empty());
}

#[test]
fn frames_come_back_once_in_order() {
    let mut reader = AgentFrameReader::new();
    reader.push_bytes(b"one\ntw");
    reader.push_bytes(b"o\nthree\n");
    let mut lines = Vec::new();
    while let FrameStep::Frame(f) = reader.next_frame() {
        lines.push(f);
    }
    assert_eq!(lines, vec![b"one".to_vec(), b"two".to_vec(), b"three".to_vec()]);
    assert!(reader.pending.is_empty());
}

#[test]
fn terminal_tools_are_ssh_follow_ups() {
    for t in ["vaultmesh_ssh_pty_read", "vaultmesh_ssh_pty_write", "vaultmesh_ssh_pty_resize", "vaultmesh_ssh_pty_close"] {
        assert!(is_ssh_pty_session_tool(t));
        assert!(!is_direct_ssh_action_tool(t));
        assert!(candidate_accepts_tool("ssh", t));
    }
}

#[test]
fn canonical_paths_keep_length_and_literal_patterns_match_equal_paths() {
    let c = canonicalize_exact_path("/a/%4ab").unwrap();
    assert_eq!(c, "/a/%4Ab");
    assert_eq!(c.len(), "/a/%4ab".len());
    assert!(path_matches("/v1/items", "/v1/items"));
    assert!(!path_matches("/v1/items", "/v1/items/x"));
    assert!(path_matches("/v1/*", "/v1/items"));
}

#[test]
fn plan_stages_settle_risk_and_confirmation() {
    let mut ssh_tool = tool("vaultmesh_ssh_pty_read");
    ssh_tool.requires_account = true;
    ssh_tool.confirmation = "risk-dependent".into();
    let mut managed = session(4, 7, true);
    managed.allowed_accounts = vec!["acct".into()];
    let mut req = request(1, 4, "vaultmesh_ssh_pty_read");
    assert_eq!(check_request_plan(&ssh_tool, &req, &managed, None, None, None, None, false).unwrap_err().code, "account-required");
    req.account_ref = Some("other".into());
    assert_eq!(check_request_plan(&ssh_tool, &req, &managed, None, None, None, None, false).unwrap_err().code, "account-denied");
    req.account_ref = Some("acct".into());
    let plan = check_request_plan(&ssh_tool, &req, &managed, None, None, None, None, false).unwrap();
    assert_eq!(plan.risk, "R1");
    assert!(!plan.confirmation_required);
    req.confirmation_ticket = Some("t".into());
    assert_eq!(check_request_plan(&ssh_tool, &req, &managed, None, None, None, None, false).unwrap_err().code, "invalid-confirmation");

    let mut exec = tool("vaultmesh_ssh_exec");
    exec.requires_account = true;
    let mut call = request(2, 4, "vaultmesh_ssh_exec");
    call.account_ref = Some("acct".into());
    let denied = check_request_plan(&exec, &call, &managed, None, None, None, None, false).unwrap_err();
    assert_eq!(denied.code, "permission-required");
    assert_eq!(denied.native_action_required, Some("request-permission"));
    let mut explicit = session(5, 7, false);
    explicit.allowed_accounts = vec!["acct".into()];
    assert_eq!(check_request_plan(&exec, &call, &explicit, None, None, None, None, false).unwrap_err().code, "action-plan-unavailable");
    let plain = tool("vaultmesh_accounts_list");
    let mut listing = request(3, 4, "vaultmesh_accounts_list");
    listing.account_ref = Some("acct".into());
    assert_eq!(check_request_plan(&plain, &listing, &managed, None, None, None, None, false).unwrap_err().code, "invalid-account");
}

#[test]
fn authorization_digests_the_parameters_first() {
    let plans = ActiveDirectPlans::new();
    let listing = tool("vaultmesh_accounts_list");
    let plain = session(4, 7, false);
    let (digest, plan) = authorize_request(&plans, &Vec::new(), 7, &listing, &request(1, 4, "vaultmesh_accounts_list"), &plain, false).unwrap();
    let expected: String = Sha256::digest(b"{}").iter().map(|b| format!("{b:02x}")).collect();
    assert_eq!(digest, format!("sha256:{expected}"));
    assert_eq!(plan.risk, "R1");
    let mut floating = request(2, 4, "vaultmesh_accounts_list");
    floating.parameters = JsonValue::Object(vec![("fraction".into(), JsonValue::Float("1.5".into()))]);
    assert_eq!(authorize_request(&plans, &Vec::new(), 7, &listing, &floating, &plain, false).unwrap_err().code, "invalid-parameters");
    let mut exec = tool("vaultmesh_ssh_exec");
    exec.requires_account = true;
    let mut call = request(3, 4, "vaultmesh_ssh_exec");
    call.account_ref = Some("acct".into());
    let mut allowed = session(4, 7, false);
    allowed.allowed_accounts = vec!["acct".into()];
    assert_eq!(authorize_request(&plans, &Vec::new(), 7, &exec, &call, &allowed, false).unwrap_err().code, "action-plan-unavailable");
}

#[test]
fn member_order_does_not_change_the_digest() {
    let one = JsonValue::Object(vec![("b".into(), JsonValue::Integer(1)), ("a".into(), JsonValue::String("x".into()))]);
    let two = JsonValue::Object(vec![("a".into(), JsonValue::String("x".into())), ("b".into(), JsonValue::Integer(1))]);
    let expected: String = Sha256::digest(br#"{"a":"x","b":1}"#).iter().map(|b| format!("{b:02x}")).collect();
    assert_eq!(canonical_parameters_digest(&one).unwrap(), format!("sha256:{expected}"));
    assert_eq!(canonical_parameters_digest(&two).unwrap(), canonical_parameters_digest(&one).unwrap());
}

#[test]
fn an_action_digest_names_client_session_target_and_parameters() {
    let digest = canonical_action_digest(1, 2, None, "t", 3, &JsonValue::Null, &JsonValue::Object(vec![]), "R1").unwrap();
    let text = [
        r#"{"accountRef":null,"canonicalParameters":{},"canonicalTarget":null,"#,
        r#""clientId":"00000000-0000-0000-0000-000000000001","risk":"R1","#,
        r#""sessionId":"00000000-0000-0000-0000-000000000002","tool":"t","toolVersion":3}"#,
    ]
    .join("");
    let expected: String = Sha256::digest(text.as_bytes()).iter().map(|b| format!("{b:02x}")).collect();
    assert_eq!(digest, format!("sha256:{expected}"));
    let other = canonical_action_digest(1, 3, None, "t", 3, &JsonValue::Null, &JsonValue::Object(vec![]), "R1").unwrap();
    assert_ne!(digest, other);
    assert_eq!(
        canonical_action_digest(1, 2, None, "t", 3, &JsonValue::Float("1.5".into()), &JsonValue::Null, "R1").unwrap_err().code,
        "invalid-parameters"
    );
}

#[test]
fn a_terminal_follow_up_targets_its_session() {
    let mut req = request(1, 4, "vaultmesh_ssh_pty_read");
    req.account_ref = Some("a".into());
    req.parameters = JsonValue::Object(vec![("sessionRef".into(), JsonValue::String("s".into()))]);
    let target = canonical_target(None, &req, None, None);
    assert_eq!(target.get_str("connector"), Some("ssh-pty-session"));
    assert_eq!(target.get_str("accountRef"), Some("a"));
    assert_eq!(target.get_str("sessionRef"), Some("s"));
    assert!(matches!(canonical_target(None, &request(2, 4, "vaultmesh_accounts_list"), None, None), JsonValue::Null));
    let digest = request_action_digest(7, 4, &req, None, None, None, "R1").unwrap();
    assert!(digest.starts_with("sha256:"));
    assert_eq!(digest.len(), 71);
}

fn keys(v: &JsonValue) -> Vec<String> {
    match v {
        JsonValue::Object(members) => members.iter().map(|(k, _)| k.clone()).collect(),
        _ => vec![],
    }
}

#[test]
fn canonical_json_is_sorted_at_every_depth() {
    let inner = JsonValue::Object(vec![("y".into(), JsonValue::Integer(1)), ("x".into(), JsonValue::Integer(2))]);
    let listed = JsonValue::Array(vec![JsonValue::Object(vec![("d".into(), JsonValue::Null), ("c".into(), JsonValue::Null)])]);
    let value = JsonValue::Object(vec![("b".into(), inner), ("a".into(), listed)]);
    let c = canonicalize_json(&value).unwrap();
    assert_eq!(keys(&c), vec!["a".to_string(), "b".to_string()]);
    assert_eq!(keys(c.get("b").unwrap()), vec!["x".to_string(), "y".to_string()]);
    match c.get("a").unwrap() {
        JsonValue::Array(items) => assert_eq!(keys(&items[0]), vec!["c".to_string(), "d".to_string()]),
        _ => panic!("the array stays an array"),
    }
}

#[test]
fn an_executable_is_named_by_its_digest() {
    assert_eq!(
        executable_identity(b"abc"),
        "sha256:ba7816bf8f01cfea414140de5dae2223b00361a396177a9cb410ff61f20015ad"
    );
}

#[test]
fn finishing_a_request_asks_for_confirmation_then_spends() {
    let mut desk = ConfirmationDesk { confirmations: vec![], outcomes: vec![] };
    let mut s = session(4, 7, false);
    let mut grants = Vec::new();
    let req = request(1, 4, "vaultmesh_accounts_list");
    let confirmed = RequestPlan { risk: "R3".into(), confirmation_required: true };
    let err = finish_request(&mut desk, &mut s, &mut grants, 7, &req, None, &confirmed, "sha256:p", "sha256:a".into(), false, 100, 55).unwrap_err();
    assert_eq!(err.code, "confirmation-required");
    assert_eq!(desk.confirmations.len(), 1);
    assert_eq!(s.requests_used, 0);
    let plain = RequestPlan { risk: "R1".into(), confirmation_required: false };
    assert_eq!(finish_request(&mut desk, &mut s, &mut grants, 7, &req, None, &plain, "sha256:p", "sha256:a".into(), false, 100, 56).unwrap(), None);
    assert_eq!(s.requests_used, 1);
    assert_eq!(desk.confirmations.len(), 1);
}

#[test]
fn following_cursors_pages_through_every_entry_once() {
    let mut shown = Vec::new();
    let mut cursor: Option<String> = None;
    loop {
        let w = account_page_window(cursor.as_deref(), "rev1", 5, 2).unwrap();
        shown.extend(w.offset..w.end);
        match w.next_cursor {
            Some(c) => cursor = Some(c),
            None => break,
        }
    }
    assert_eq!(shown, vec![0, 1, 2, 3, 4]);
}

#[test]
fn frames_cut_the_same_whatever_the_chunks() {
    let mut whole = AgentFrameReader::new();
    whole.push_bytes(b"a\nbc\nd");
    let mut pieces = AgentFrameReader::new();
    pieces.push_bytes(b"a\nb");
    let mut from_pieces = Vec::new();
    while let FrameStep::Frame(f) = pieces.next_frame() {
        from_pieces.push(f);
    }
    pieces.push_bytes(b"c\nd");
    while let FrameStep::Frame(f) = pieces.next_frame() {
        from_pieces.push(f);
    }
    let mut from_whole = Vec::new();
    while let FrameStep::Frame(f) = whole.next_frame() {
        from_whole.push(f);
    }
    assert_eq!(from_pieces, from_whole);
    assert_eq!(pieces.pending, whole.pending);
}

#[test]
fn a_literal_pattern_matches_only_its_own_path() {
    assert!(path_matches("/v1/a-b", "/v1/a-b"));
    assert!(!path_matches("/v1/a", "/v1/b"));
    assert!(!path_matches("/v1/a/", "/v1/a"));
}

fn holds_float(v: &JsonValue, text: &str) -> bool {
    match v {
        JsonValue::Float(t) => t == text,
        JsonValue::Array(items) => items.iter().any(|i| holds_float(i, text)),
        JsonValue::Object(members) => members.iter().any(|(_, m)| holds_float(m, text)),
        _ => false,
    }
}

#[test]
fn a_fraction_in_an_answer_keeps_its_value() {
    let body = JsonValue::Object(vec![("ratio".into(), JsonValue::Float("0.25".into()))]);
    let safe = vaultmesh_agent::http_safety::build_safe_response(200, &body, &vec!["*".into()], &vec!["*".into()], 1000, 10, &vec![]).unwrap();
    assert!(holds_float(&safe, "0.25"));
}

#[test]
fn strings_are_escaped_as_serde_json_writes_them() {
    let text = "q\"b\\n\nt\tc\u{1}e\u{7f}é";
    let params = JsonValue::Object(vec![("s".into(), JsonValue::String(text.into()))]);
    let mut map = serde_json::Map::new();
    map.insert("s".into(), serde_json::Value::String(text.into()));
    let bytes = serde_json::to_vec(&serde_json::Value::Object(map)).unwrap();
    let expected: String = Sha256::digest(&bytes).iter().map(|b| format!("{b:02x}")).collect();
    assert_eq!(canonical_parameters_digest(&params).unwrap(), format!("sha256:{expected}"));
}

#[test]
fn disconnecting_leaves_nothing_of_the_client() {
    let mut state = vaultmesh_agent::broker::AgentBrokerState {
        clients: vec![client(7, "key-a", "501", PairingState::Paired), client(8, "key-b", "501", PairingState::Pending)],
        sessions: vec![session(1, 7, true), session(2, 8, false), session(3, 7, false)],
        grants: vec![(7, vec![]), (8, vec![])],
        plans: ActiveDirectPlans::new(),
        permissions: vaultmesh_agent::permission_desk::PermissionDesk { requests: vec![], outcomes: vec![] },
        unlocks: vaultmesh_agent::unlock::UnlockDesk { pending: vec![], outcomes: vec![] },
    };
    state.disconnect(7);
    assert_eq!(state.clients.len(), 1);
    assert_eq!(state.clients[0].client_id, 8);
    assert_eq!(state.sessions.len(), 1);
    assert_eq!(state.sessions[0].session_id, 2);
    assert_eq!(state.grants.len(), 1);
    state.clear();
    assert!(state.clients.is_empty() && state.sessions.is_empty() && state.grants.is_empty());
}

#[test]
fn a_connecting_client_is_checked_then_paired_or_left_waiting() {
    let peer = vaultmesh_agent::model::PeerIdentity {
        user_id: "501".into(),
        process_id: 9,
        executable: "/usr/bin/agent".into(),
        binary_identity: executable_identity(b"agent"),
    };
    assert!(matches!(client_pairing_state(0, true, &peer, true, false, 0), Ok(PairingState::Paired)));
    assert!(matches!(client_pairing_state(0, true, &peer, false, false, 0), Ok(PairingState::Pending)));
    assert_eq!(client_pairing_state(32, true, &peer, true, false, 0).unwrap_err().code, "invalid-client");
    assert_eq!(client_pairing_state(0, false, &peer, true, false, 0).unwrap_err().code, "invalid-client");
    assert_eq!(client_pairing_state(0, true, &peer, false, false, 32).unwrap_err().code, "too-many-pairing-requests");
    assert!(matches!(client_pairing_state(0, true, &peer, false, true, 32), Ok(PairingState::Pending)));
    let bad = vaultmesh_agent::model::PeerIdentity { binary_identity: "sha256:xyz".into(), ..peer };
    assert_eq!(client_pairing_state(0, true, &bad, true, false, 0).unwrap_err().code, "invalid-client");
}

fn client(id: u128, key: &str, user: &str, pairing: PairingState) -> vaultmesh_agent::broker::BrokerClient {
    vaultmesh_agent::broker::BrokerClient { client_id: id, client_key: key.into(), user_id: user.into(), pairing }
}

#[test]
fn revoking_an_identity_removes_each_of_its_clients() {
    let mut state = vaultmesh_agent::broker::AgentBrokerState {
        clients: vec![
            client(7, "key-a", "501", PairingState::Paired),
            client(8, "key-b", "501", PairingState::Paired),
            client(9, "key-a", "501", PairingState::Pending),
            client(10, "key-a", "502", PairingState::Paired),
        ],
        sessions: vec![session(1, 7, true), session(2, 8, false), session(3, 9, false), session(4, 10, false)],
        grants: vec![(7, vec![]), (8, vec![]), (9, vec![])],
        plans: ActiveDirectPlans::new(),
        permissions: vaultmesh_agent::permission_desk::PermissionDesk { requests: vec![], outcomes: vec![] },
        unlocks: vaultmesh_agent::unlock::UnlockDesk { pending: vec![], outcomes: vec![] },
    };
    let revoked = state.revoke_clients("key-a", "501");
    assert_eq!(revoked, vec![7, 9]);
    let left: Vec<u128> = state.clients.iter().map(|c| c.client_id).collect();
    assert_eq!(left, vec![8, 10]);
    let sessions: Vec<u128> = state.sessions.iter().map(|s| s.session_id).collect();
    assert_eq!(sessions, vec![2, 4]);
    let grants: Vec<u128> = state.grants.iter().map(|g| g.0).collect();
    assert_eq!(grants, vec![8]);
    assert!(state.revoke_clients("key-z", "501").is_empty());
    assert_eq!(state.clients.len(), 2);
}

#[test]
fn registering_adds_the_client_unless_the_broker_is_full() {
    let peer = vaultmesh_agent::model::PeerIdentity {
        user_id: "501".into(),
        process_id: 9,
        executable: "/usr/bin/agent".into(),
        binary_identity: executable_identity(b"agent"),
    };
    let mut state = vaultmesh_agent::broker::AgentBrokerState {
        clients: vec![],
        sessions: vec![],
        grants: vec![],
        plans: ActiveDirectPlans::new(),
        permissions: vaultmesh_agent::permission_desk::PermissionDesk { requests: vec![], outcomes: vec![] },
        unlocks: vaultmesh_agent::unlock::UnlockDesk { pending: vec![], outcomes: vec![] },
    };
    assert!(matches!(state.register_client(1, "key-a", true, &peer, false, false, 0), Ok(PairingState::Pending)));
    assert_eq!(state.clients.len(), 1);
    assert_eq!(state.clients[0].client_key, "key-a");
    assert_eq!(state.clients[0].user_id, "501");
    assert_eq!(state.register_client(2, "bad", false, &peer, true, false, 0).unwrap_err().code, "invalid-client");
    assert_eq!(state.clients.len(), 1);
    for id in 2..33u128 {
        assert!(state.register_client(id, "key-b", true, &peer, true, false, 0).is_ok());
    }
    assert_eq!(state.clients.len(), 32);
    assert_eq!(state.register_client(40, "key-c", true, &peer, true, false, 0).unwrap_err().code, "invalid-client");
    assert_eq!(state.clients.len(), 32);
}
