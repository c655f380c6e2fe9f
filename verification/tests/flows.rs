use vaultmesh_agent::authz_envelope::{aad, credential_ref, open_envelope, seal_envelope, EnvelopeContent};
use vaultmesh_agent::canonical::{canonicalize_json, parameters_digest};
use vaultmesh_agent::frame::{AgentFrameReader, FrameStep, MAX_IPC_LINE_BYTES};
use vaultmesh_agent::json::JsonValue;
use vaultmesh_agent::model::{PermissionDuration, PermissionEffect, PermissionScope};
use vaultmesh_agent::native_ui::{complete_native_ui_action, AgentNativeUiSurface};
use vaultmesh_agent::unlock::{requires_agent_unlock, AgentUnlockWaitOutcome, UnlockDesk};
use vaultmesh_agent::window::{
    authorization_window_deadline, expires_displayed_authorization, next_displayed_authorization,
    reject_displayed_authorization_on_window_close, DisplayedAgentAuthorization, WaitingAuthorization, WindowCloseRejection,
};

fn s(text: &str) -> JsonValue {
    JsonValue::String(text.to_owned())
}

fn obj(members: Vec<(&str, JsonValue)>) -> JsonValue {
    JsonValue::Object(members.into_iter().map(|(k, v)| (k.to_owned(), v)).collect())
}

fn keys(value: &JsonValue) -> Vec<String> {
    match value {
        JsonValue::Object(entries) => entries.iter().map(|(k, _)| k.clone()).collect(),
        _ => vec![],
    }
}

const NO_SHARING: Option<fn(u128, u128) -> bool> = None;

#[test]
fn locked_client_opens_then_joins_one_unlock_request() {
    let mut desk = UnlockDesk { pending: vec![], outcomes: vec![] };
    assert!(!requires_agent_unlock("vaultmesh_request_local_ui"));
    assert!(desk.require_agent_unlock(1, Some("codex"), "vaultmesh_request_local_ui", 10, false, &NO_SHARING, 500).is_ok());
    assert!(desk.require_agent_unlock(1, Some("codex"), "vaultmesh_accounts_list", 10, true, &NO_SHARING, 500).is_ok());
    assert_eq!(desk.require_agent_unlock(1, None, "vaultmesh_accounts_list", 10, false, &NO_SHARING, 500).unwrap_err().code, "unknown-client");
    let first = desk.require_agent_unlock(1, Some("codex"), "vaultmesh_accounts_list", 10, false, &NO_SHARING, 500).unwrap_err();
    assert_eq!(first.code, "mcp-locked");
    assert_eq!(first.native_action_required, Some("unlock-agent"));
    let details = first.details.unwrap();
    assert_eq!(details.get_str("unlockRef"), Some(format_uuid(500).as_str()));
    let shared = Some(|_: u128, _: u128| true);
    let second = desk.require_agent_unlock(2, Some("codex"), "vaultmesh_accounts_list", 11, false, &shared, 600).unwrap_err();
    assert_eq!(second.details.unwrap().get_str("unlockRef"), Some(format_uuid(500).as_str()));
    assert_eq!(desk.pending.len(), 1);
    assert_eq!(desk.pending[0].client_ids, vec![1, 2]);
}

#[test]
fn unlock_outcome_reaches_every_sharing_client() {
    let mut desk = UnlockDesk { pending: vec![], outcomes: vec![] };
    let shared = Some(|_: u128, _: u128| true);
    let _ = desk.require_agent_unlock(1, Some("codex"), "vaultmesh_accounts_list", 10, false, &shared, 500);
    let _ = desk.require_agent_unlock(2, Some("codex"), "vaultmesh_accounts_list", 11, false, &shared, 600);
    let reference = format_uuid(500);
    assert_eq!(desk.unlock_wait_outcome(&reference, 2, 12, false), AgentUnlockWaitOutcome::Pending);
    assert_eq!(desk.resolve_unlock_request(&reference, 2, true, 13).unwrap_err().code, "invalid-unlock");
    desk.resolve_unlock_request(&reference, 1, true, 13).unwrap();
    assert_eq!(desk.unlock_wait_outcome(&reference, 1, 14, false), AgentUnlockWaitOutcome::Allowed);
    assert_eq!(desk.unlock_wait_outcome(&reference, 2, 14, false), AgentUnlockWaitOutcome::Allowed);
    assert_eq!(desk.unlock_wait_outcome(&reference, 3, 14, false), AgentUnlockWaitOutcome::Expired);
    assert_eq!(desk.unlock_wait_outcome(&reference, 1, 13 + 30_000, false), AgentUnlockWaitOutcome::Expired);
}

#[test]
fn denied_and_expired_unlocks() {
    let mut desk = UnlockDesk { pending: vec![], outcomes: vec![] };
    let _ = desk.require_agent_unlock(1, Some("codex"), "vaultmesh_accounts_list", 10, false, &NO_SHARING, 500);
    let reference = format_uuid(500);
    desk.resolve_unlock_request(&reference, 1, false, 20).unwrap();
    assert_eq!(desk.unlock_wait_outcome(&reference, 1, 21, true), AgentUnlockWaitOutcome::Denied);
    let _ = desk.require_agent_unlock(1, Some("codex"), "vaultmesh_accounts_list", 10, false, &NO_SHARING, 700);
    let late = format_uuid(700);
    assert_eq!(desk.resolve_unlock_request(&late, 1, true, 10 + 600_000).unwrap_err().code, "invalid-unlock");
    assert_eq!(desk.unlock_wait_outcome(&late, 1, 10 + 600_000, false), AgentUnlockWaitOutcome::Expired);
    assert_eq!(desk.resolve_unlock_request("garbage", 1, true, 5).unwrap_err().code, "invalid-unlock");
}

#[test]
fn unlocked_access_answers_the_waiting_call() {
    let mut desk = UnlockDesk { pending: vec![], outcomes: vec![] };
    let _ = desk.require_agent_unlock(1, Some("codex"), "vaultmesh_accounts_list", 10, false, &NO_SHARING, 500);
    let reference = format_uuid(500);
    assert_eq!(desk.unlock_wait_outcome(&reference, 1, 11, true), AgentUnlockWaitOutcome::Allowed);
    assert_eq!(desk.outcomes.len(), 1);
    assert_eq!(desk.unlock_wait_outcome(&reference, 1, 12, false), AgentUnlockWaitOutcome::Allowed);
}

#[test]
fn removed_clients_leave_their_unlock_requests() {
    let mut desk = UnlockDesk { pending: vec![], outcomes: vec![] };
    let shared = Some(|_: u128, _: u128| true);
    let _ = desk.require_agent_unlock(1, Some("codex"), "vaultmesh_accounts_list", 10, false, &shared, 500);
    let _ = desk.require_agent_unlock(2, Some("codex"), "vaultmesh_accounts_list", 11, false, &shared, 600);
    desk.remove_pending_unlock_clients(&vec![1]);
    assert_eq!(desk.pending.len(), 1);
    assert_eq!(desk.pending[0].client_id, 2);
    assert_eq!(desk.pending[0].client_ids, vec![2]);
    desk.remove_pending_unlock_clients(&vec![2]);
    assert!(desk.pending.is_empty());
}

#[test]
fn oldest_locked_unlock_request_is_shown() {
    let mut desk = UnlockDesk { pending: vec![], outcomes: vec![] };
    let _ = desk.require_agent_unlock(1, Some("a"), "vaultmesh_accounts_list", 20, false, &NO_SHARING, 500);
    let _ = desk.require_agent_unlock(2, Some("b"), "vaultmesh_accounts_list", 10, false, &NO_SHARING, 600);
    let none_unlocked = Some(|_: u128| false);
    let shown = desk.pending_unlock_request(15, &vec![1, 2], &none_unlocked).unwrap();
    assert_eq!(shown.unlock_ref, format_uuid(600));
    assert_eq!(shown.client_key, "b");
    let second_unlocked = Some(|client: u128| client == 2);
    let shown = desk.pending_unlock_request(15, &vec![1, 2], &second_unlocked).unwrap();
    assert_eq!(shown.unlock_ref, format_uuid(500));
    assert!(desk.pending_unlock_request(15, &vec![], &none_unlocked).is_none());
}

#[test]
fn window_shows_the_older_request_and_denies_on_close() {
    let shown = next_displayed_authorization(
        Some(WaitingAuthorization { reference: "p", created_at: 5 }),
        Some(WaitingAuthorization { reference: "c", created_at: 3 }),
    );
    assert!(matches!(&shown, Some(DisplayedAgentAuthorization::Confirmation(r)) if r == "c"));
    let shown = next_displayed_authorization(Some(WaitingAuthorization { reference: "p", created_at: 5 }), None);
    assert!(matches!(&shown, Some(DisplayedAgentAuthorization::Permission(r)) if r == "p"));
    assert!(next_displayed_authorization(None, None).is_none());
    let mut displayed = shown;
    assert!(expires_displayed_authorization(&displayed, "p"));
    assert!(!expires_displayed_authorization(&displayed, "q"));
    match reject_displayed_authorization_on_window_close(&mut displayed) {
        Some(WindowCloseRejection::Permission { permission_ref, choice }) => {
            assert_eq!(permission_ref, "p");
            assert_eq!(choice.effect, PermissionEffect::Deny);
            assert_eq!(choice.scope, PermissionScope::Exact);
            assert_eq!(choice.duration, PermissionDuration::Once);
        },
        other => panic!("unexpected {other:?}"),
    }
    assert!(displayed.is_none());
    assert!(reject_displayed_authorization_on_window_close(&mut displayed).is_none());
    assert_eq!(authorization_window_deadline(1_000), 31_000);
    assert_eq!(authorization_window_deadline(u64::MAX - 1), u64::MAX);
    assert!(DisplayedAgentAuthorization::Confirmation("c".into()).matches_reference("c"));
}

#[test]
fn frames_are_cut_at_newlines_without_losing_bytes() {
    let mut reader = AgentFrameReader::new();
    assert!(matches!(reader.next_frame(), FrameStep::NeedMore));
    reader.push_bytes(b"{\"a\":1}\n{\"b\"");
    match reader.next_frame() {
        FrameStep::Frame(frame) => assert_eq!(frame, b"{\"a\":1}".to_vec()),
        other => panic!("unexpected {other:?}"),
    }
    assert_eq!(reader.pending, b"{\"b\"".to_vec());
    assert!(matches!(reader.next_frame(), FrameStep::NeedMore));
    reader.push_bytes(b":2}\n\n");
    assert!(matches!(reader.next_frame(), FrameStep::Frame(f) if f == b"{\"b\":2}".to_vec()));
    assert!(matches!(reader.next_frame(), FrameStep::Frame(f) if f.is_empty()));
    reader.push_bytes(&vec![b'x'; MAX_IPC_LINE_BYTES + 1]);
    assert!(matches!(reader.next_frame(), FrameStep::TooLarge));
}

#[test]
fn native_ui_actions_are_recognized() {
    let mut response = obj(vec![
        ("requestId", s("r-1")),
        ("error", obj(vec![("nativeActionRequired", s("open-local-ui"))])),
    ]);
    assert_eq!(complete_native_ui_action(&mut response), Some(AgentNativeUiSurface::LocalUi));
    assert!(matches!(response.get("ok"), Some(JsonValue::Bool(true))));
    assert_eq!(response.get_str("requestId"), Some("r-1"));
    assert!(matches!(response.get("result").unwrap().get("accepted"), Some(JsonValue::Bool(true))));
    let mut pairing = obj(vec![("error", obj(vec![("nativeActionRequired", s("approve-pairing"))]))]);
    assert_eq!(complete_native_ui_action(&mut pairing), Some(AgentNativeUiSurface::Pairing));
    assert!(pairing.get("error").is_some());
    let mut unlock = obj(vec![("error", obj(vec![("nativeActionRequired", s("unlock-agent"))]))]);
    assert_eq!(complete_native_ui_action(&mut unlock), Some(AgentNativeUiSurface::Unlock));
    let mut other = obj(vec![("ok", JsonValue::Bool(true))]);
    assert_eq!(complete_native_ui_action(&mut other), None);
}

#[test]
fn ct_agent_policy_canonical_digest_is_order_independent_and_substitution_sensitive() {
    let first = canonicalize_json(&obj(vec![
        ("body", obj(vec![("z", JsonValue::Integer(2)), ("a", JsonValue::Integer(1))])),
        ("method", s("POST")),
    ]))
    .unwrap();
    let reordered = canonicalize_json(&obj(vec![
        ("method", s("POST")),
        ("body", obj(vec![("a", JsonValue::Integer(1)), ("z", JsonValue::Integer(2))])),
    ]))
    .unwrap();
    assert_eq!(keys(&first), vec!["body".to_owned(), "method".to_owned()]);
    assert_eq!(keys(&reordered), keys(&first));
    assert_eq!(keys(first.get("body").unwrap()), vec!["a".to_owned(), "z".to_owned()]);
    assert_eq!(keys(reordered.get("body").unwrap()), vec!["a".to_owned(), "z".to_owned()]);
    assert!(matches!(first.get("body").unwrap().get("z"), Some(JsonValue::Integer(2))));
    assert_eq!(
        canonicalize_json(&obj(vec![("fraction", JsonValue::Float("1.5".into()))])).unwrap_err().code,
        "invalid-parameters"
    );
    let a = parameters_digest(b"{\"a\":1,\"z\":2}");
    let b = parameters_digest(b"{\"a\":1,\"z\":3}");
    assert!(a.starts_with("sha256:"));
    assert_eq!(a.len(), 7 + 64);
    assert_ne!(a, b);
}

#[test]
fn canonical_keys_follow_character_order() {
    let value = canonicalize_json(&obj(vec![("b", JsonValue::Null), ("B", JsonValue::Null), ("", JsonValue::Null), ("ab", JsonValue::Null), ("a", JsonValue::Null)])).unwrap();
    assert_eq!(keys(&value), vec!["", "B", "a", "ab", "b"]);
    let array = canonicalize_json(&JsonValue::Array(vec![JsonValue::Float("1.5".into())])).unwrap_err();
    assert_eq!(array.code, "invalid-parameters");
}

#[test]
fn ct_agent_authz_persistent_store_is_encrypted_bound_and_fail_closed() {
    let key = [7u8; 32];
    let nonce = [9u8; 12];
    let name = credential_ref("vault-a", "501");
    let plaintext = b"[{\"clientKey\":\"codex\"}]";
    let bound = aad("vault-a", "501");
    let envelope = seal_envelope(&name, &key, &nonce, &bound, plaintext).unwrap();
    for field in [&envelope.ciphertext, &envelope.nonce, &envelope.authentication_tag, &envelope.credential_ref] {
        assert!(!field.contains("codex"));
    }
    match open_envelope(&envelope, &name, Some(&key[..]), &bound).unwrap() {
        EnvelopeContent::Payload(bytes) => assert_eq!(bytes, plaintext.to_vec()),
        other => panic!("unexpected {other:?}"),
    }
    let other_vault = aad("vault-b", "501");
    assert!(open_envelope(&envelope, &name, Some(&key[..]), &other_vault).is_err());
    assert!(open_envelope(&envelope, &credential_ref("vault-b", "501"), Some(&key[..]), &bound).is_err());
    assert!(open_envelope(&envelope, &name, None, &bound).is_err());
    let mut tampered = envelope.clone();
    let mut bytes = base64::Engine::decode(&base64::engine::general_purpose::STANDARD, &tampered.ciphertext).ok().unwrap();
    let last = bytes.last_mut().unwrap();
    *last ^= 1;
    tampered.ciphertext = base64::Engine::encode(&base64::engine::general_purpose::STANDARD, &bytes);
    assert!(open_envelope(&tampered, &name, Some(&key[..]), &bound).is_err());
}

#[test]
fn uuid_text_round_trips() {
    let text = format_uuid(0x0123_4567_89ab_cdef_0123_4567_89ab_cdef);
    assert_eq!(text, "01234567-89ab-cdef-0123-456789abcdef");
    assert_eq!(parse_uuid(&text), Some(0x0123_4567_89ab_cdef_0123_4567_89ab_cdef));
    assert_eq!(parse_uuid("nope"), None);
}

fn format_uuid(id: u128) -> String {
    uuid::Uuid::from_u128(id).hyphenated().to_string()
}

fn parse_uuid(text: &str) -> Option<u128> {
    uuid::Uuid::parse_str(text).ok().map(|id| id.as_u128())
}
