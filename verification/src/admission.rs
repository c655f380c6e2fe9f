//! Admission of an Agent request: the protocol version, the connection
//! session it runs in (one the broker keeps for the connection when the
//! request names none), the replay guard, the tool and its version, the
//! parameters, and the session's own limits, checked in that order.
use vstd::prelude::*;
use crate::error::AgentBrokerError;
use crate::json::JsonValue;
use crate::model::{AgentRegistry, AgentToolDefinition, PairingState};
use crate::permission_desk::{names_view, ConnectionSession};
use crate::policy::PermissionGrant;
use crate::connector::AgentDirectConnectorPolicy;
use crate::direct_permission::session_base_tools;
use crate::direct_ssh::AgentDirectSshPolicy;
use crate::model::PermissionEffect;
use crate::policy::{
    grant_priority, is_ssh_pty_session_tool, matching_permission_grant_index, request_permission_operation, spec_grant_matches,
    spec_request_permission_operation, ssh_pty_session_tools, AgentDirectHttpPolicy,
};
use crate::active_plans::{plan_index, ActiveDirectPlans, DirectPlanKey};
use crate::authz_envelope::{lower_hex, sha256_digest};
use crate::canonical::{canon, canonical_parameters_digest, canonicalize_json, parameters_digest};
use crate::catalog_revision::{member, object_of};
use crate::ids::{format_uuid, uuid_text};
use crate::json::{json_view, JsonView};
use crate::json_text::json_chars;
use crate::authz_envelope::str_bytes;
use crate::text::{copy_string, from_chars};
use crate::json_text::json_text;
use crate::confirmation::{confirmation_check_holds, ConfirmationDesk};
use crate::request_gate::{spend_holds, spend_request};
use crate::request_gate::{
    check_confirmation_ticket, check_connection_grant, check_request_account, check_request_session, confirmation_required,
    declarations_hold, effective_risk, first_fault_index, only_declared, session_usable, sizes_answered,
    spec_confirmation_required, spec_effective_risk, ticket_shape_ok, validate_parameters,
};
use crate::sessions::{allowed_grant_accounts, connection_managed_session, registry_tool_names, MAX_SESSION_MILLIS, SESSION_REQUEST_LIMIT};
use crate::text::str_eq;
use crate::text_order::{strictly_sorted, string_texts};

verus! {

broadcast use vstd::string::group_string_axioms;

/// The protocol version that the broker speaks.
pub const PROTOCOL_VERSION: u32 = 2;

/// The largest request, in bytes.
pub const MAX_REQUEST_BYTES: usize = 393216;

/// How many request identifiers the replay guard keeps before it starts over.
pub const MAX_SEEN_REQUESTS: usize = 4096;

/// An Agent request as the client sent it. A `session_id` of zero names no
/// session.
#[derive(Debug)]
pub struct AgentRequest {
    pub protocol_version: u32,
    pub request_id: u128,
    pub session_id: u128,
    pub account_ref: Option<String>,
    pub tool: String,
    pub tool_version: u32,
    pub parameters: JsonValue,
    pub confirmation_ticket: Option<String>,
}

/// What admission keeps between requests: the connection sessions and the
/// identifiers of the requests already seen (no identifier twice).
#[derive(Debug)]
pub struct AdmissionState {
    pub sessions: Vec<ConnectionSession>,
    pub seen_requests: Vec<u128>,
}

/// An admitted request: the session it runs in and the registry position of
/// its tool.
#[derive(Debug)]
pub struct AdmittedRequest {
    pub session_id: u128,
    pub tool_index: usize,
}

/// The first session that the broker keeps for `client`'s connection.
pub open spec fn managed_session_of(sessions: Seq<ConnectionSession>, client: u128) -> Option<u128>
    decreases sessions.len(),
{
    if sessions.len() == 0 {
        None
    } else if sessions[0].client_id == client && sessions[0].connection_managed {
        Some(sessions[0].session_id)
    } else {
        managed_session_of(sessions.drop_first(), client)
    }
}

/// The position of the first session with reference `id`.
pub open spec fn session_position(sessions: Seq<ConnectionSession>, id: u128) -> Option<int>
    decreases sessions.len(),
{
    if sessions.len() == 0 {
        None
    } else if sessions[0].session_id == id {
        Some(0)
    } else {
        match session_position(sessions.drop_first(), id) {
            Some(k) => Some(k + 1),
            None => None,
        }
    }
}

/// The position of the first tool named `name`.
pub open spec fn tool_position(tools: Seq<AgentToolDefinition>, name: Seq<char>) -> Option<int>
    decreases tools.len(),
{
    if tools.len() == 0 {
        None
    } else if tools[0].name@ == name {
        Some(0)
    } else {
        match tool_position(tools.drop_first(), name) {
            Some(k) => Some(k + 1),
            None => None,
        }
    }
}

/// How the session of a request is found.
#[derive(Debug)]
pub enum SessionResolution {
    /// The request runs in this session.
    Use(u128),
    /// The broker opens a session for the paired client's connection.
    Open,
    /// The client still waits for its pairing to be approved.
    PairingRequired,
    /// No session can serve the request.
    Unavailable,
}

/// The session that a request runs in: the one it names, else the one the
/// broker keeps for the connection, else a new one for a paired client.
pub open spec fn resolve_session(sessions: Seq<ConnectionSession>, client: u128, pairing: Option<PairingState>, requested: u128) -> SessionResolution {
    if requested != 0 {
        SessionResolution::Use(requested)
    } else {
        match managed_session_of(sessions, client) {
            Some(id) => SessionResolution::Use(id),
            None => if pairing == Some(PairingState::Paired) {
                SessionResolution::Open
            } else if pairing == Some(PairingState::Pending) {
                SessionResolution::PairingRequired
            } else {
                SessionResolution::Unavailable
            },
        }
    }
}

/// `s` is the session the broker opens for `client`'s connection at `now`
/// under reference `id`: every tool of the registry, the accounts that the
/// client's allowing grants name, the longest lifetime and the connection's
/// request limit.
pub open spec fn is_opened_session(s: ConnectionSession, registry: AgentRegistry, client: u128, grants: Seq<PermissionGrant>, now: u64, id: u128) -> bool {
    &&& s.session_id == id
    &&& s.client_id == client
    &&& s.connection_managed
    &&& strictly_sorted(string_texts(s.allowed_tools@))
    &&& string_texts(s.allowed_tools@).to_set() == string_texts(registry_tool_names(registry)).to_set()
    &&& strictly_sorted(string_texts(s.allowed_accounts@))
    &&& string_texts(s.allowed_accounts@).to_set() == allowed_grant_accounts(grants)
    &&& s.issued_at == now
    &&& s.expires_at == if now + MAX_SESSION_MILLIS > u64::MAX { u64::MAX } else { (now + MAX_SESSION_MILLIS) as u64 }
    &&& s.request_limit == SESSION_REQUEST_LIMIT
    &&& s.requests_used == 0
}

/// The replay guard after it records `id`: it starts over when full.
pub open spec fn seen_after(seen: Seq<u128>, id: u128) -> Seq<u128> {
    if seen.len() >= MAX_SEEN_REQUESTS {
        seq![id]
    } else {
        seen.push(id)
    }
}

/// The session check of a request, by its outcome's code (see
/// `check_request_session`).
pub open spec fn session_check_holds(r: Result<AdmittedRequest, AgentBrokerError>, session: Option<ConnectionSession>, client: u128, tool: Seq<char>, now: u64) -> bool {
    match session {
        None => r matches Err(e) && e.code@ == "session-required"@ && e.retryable,
        Some(s) => if !session_usable(s, client, now) {
            r matches Err(e) && e.code@ == "session-denied"@ && !e.retryable
        } else if !names_view(s.allowed_tools@).contains(tool) {
            r matches Err(e) && e.code@ == "capability-denied"@ && !e.retryable
        } else {
            r is Ok
        },
    }
}

/// The outcome of an admission without its value.
pub open spec fn unit_of(r: Result<AdmittedRequest, AgentBrokerError>) -> Result<(), AgentBrokerError> {
    match r {
        Ok(_) => Ok(()),
        Err(e) => Err(e),
    }
}

proof fn lemma_tool_position(tools: Seq<AgentToolDefinition>, name: Seq<char>)
    ensures
        tool_position(tools, name) matches Some(k) ==> 0 <= k < tools.len() && tools[k].name@ == name,
    decreases tools.len(),
{
    if tools.len() > 0 && tools[0].name@ != name {
        lemma_tool_position(tools.drop_first(), name);
    }
}

proof fn lemma_session_position(sessions: Seq<ConnectionSession>, id: u128)
    ensures
        session_position(sessions, id) matches Some(k) ==> 0 <= k < sessions.len() && sessions[k].session_id == id,
    decreases sessions.len(),
{
    if sessions.len() > 0 && sessions[0].session_id != id {
        lemma_session_position(sessions.drop_first(), id);
    }
}

/// Checks the size of a raw request before it is read.
pub fn check_request_size(len: usize) -> (r: Result<(), AgentBrokerError>)
    ensures
        r is Ok <==> len <= MAX_REQUEST_BYTES,
        r matches Err(e) ==> e.code@ == "request-too-large"@ && !e.retryable,
{
    proof {
        reveal_strlit("request-too-large");
    }
    if len > MAX_REQUEST_BYTES {
        Err(AgentBrokerError::new("request-too-large", "The Agent request exceeds the size limit.", false))
    } else {
        Ok(())
    }
}

fn find_managed_session(sessions: &Vec<ConnectionSession>, client: u128) -> (r: Option<u128>)
    ensures
        r == managed_session_of(sessions@, client),
{
    let mut i: usize = 0;
    assert(sessions@.subrange(0, sessions@.len() as int) =~= sessions@);
    while i < sessions.len()
        invariant
            i <= sessions.len(),
            managed_session_of(sessions@, client) == managed_session_of(sessions@.subrange(i as int, sessions@.len() as int), client),
        decreases sessions.len() - i,
    {
        assert(sessions@.subrange(i as int, sessions@.len() as int).drop_first() =~= sessions@.subrange(i + 1, sessions@.len() as int));
        if sessions[i].client_id == client && sessions[i].connection_managed {
            return Some(sessions[i].session_id);
        }
        i += 1;
    }
    None
}

fn find_session(sessions: &Vec<ConnectionSession>, id: u128) -> (r: Option<usize>)
    ensures
        match session_position(sessions@, id) {
            Some(k) => r matches Some(i) && i as int == k,
            None => r is None,
        },
{
    let mut i: usize = 0;
    assert(sessions@.subrange(0, sessions@.len() as int) =~= sessions@);
    while i < sessions.len()
        invariant
            i <= sessions.len(),
            session_position(sessions@, id) == match session_position(sessions@.subrange(i as int, sessions@.len() as int), id) {
                Some(k) => Some(k + i),
                None => None::<int>,
            },
        decreases sessions.len() - i,
    {
        assert(sessions@.subrange(i as int, sessions@.len() as int).drop_first() =~= sessions@.subrange(i + 1, sessions@.len() as int));
        if sessions[i].session_id == id {
            return Some(i);
        }
        i += 1;
    }
    None
}

fn find_tool(registry: &AgentRegistry, name: &str) -> (r: Option<usize>)
    ensures
        match tool_position(registry.tools@, name@) {
            Some(k) => r matches Some(i) && i as int == k,
            None => r is None,
        },
{
    let mut i: usize = 0;
    assert(registry.tools@.subrange(0, registry.tools@.len() as int) =~= registry.tools@);
    while i < registry.tools.len()
        invariant
            i <= registry.tools.len(),
            tool_position(registry.tools@, name@) == match tool_position(registry.tools@.subrange(i as int, registry.tools@.len() as int), name@) {
                Some(k) => Some(k + i),
                None => None::<int>,
            },
        decreases registry.tools.len() - i,
    {
        assert(registry.tools@.subrange(i as int, registry.tools@.len() as int).drop_first()
            =~= registry.tools@.subrange(i + 1, registry.tools@.len() as int));
        if str_eq(registry.tools[i].name.as_str(), name) {
            return Some(i);
        }
        i += 1;
    }
    None
}

fn seen_contains(seen: &Vec<u128>, id: u128) -> (r: bool)
    ensures
        r == seen@.contains(id),
{
    let mut i: usize = 0;
    while i < seen.len()
        invariant
            i <= seen.len(),
            forall|k: int| 0 <= k < i ==> seen@[k] != id,
        decreases seen.len() - i,
    {
        if seen[i] == id {
            assert(seen@[i as int] == id);
            return true;
        }
        i += 1;
    }
    false
}

/// Finds the session that a request runs in (see `resolve_session`),
/// opening one for a paired client's connection under `fresh_id`.
pub fn resolve_request_session(
    sessions: &mut Vec<ConnectionSession>,
    registry: &AgentRegistry,
    grants: &Vec<PermissionGrant>,
    client_id: u128,
    pairing: Option<PairingState>,
    requested: u128,
    fresh_id: u128,
    now_millis: u64,
) -> (r: Result<u128, AgentBrokerError>)
    ensures
        match resolve_session(old(sessions)@, client_id, pairing, requested) {
            SessionResolution::Use(id) => r == Ok::<u128, AgentBrokerError>(id) && final(sessions)@ == old(sessions)@,
            SessionResolution::Open => r == Ok::<u128, AgentBrokerError>(fresh_id)
                && final(sessions)@.len() == old(sessions)@.len() + 1
                && final(sessions)@.take(old(sessions)@.len() as int) == old(sessions)@
                && is_opened_session(final(sessions)@.last(), *registry, client_id, grants@, now_millis, fresh_id),
            SessionResolution::PairingRequired => r matches Err(e) && e.code@ == "pairing-required"@
                && e.native_action_required == Some("approve-pairing") && final(sessions)@ == old(sessions)@,
            SessionResolution::Unavailable => r matches Err(e) && e.code@ == "session-required"@ && e.retryable
                && final(sessions)@ == old(sessions)@,
        },
{
    proof {
        reveal_strlit("pairing-required");
        reveal_strlit("session-required");
    }
    if requested != 0 {
        return Ok(requested);
    }
    match find_managed_session(sessions, client_id) {
        Some(id) => Ok(id),
        None => {
            if pairing == Some(PairingState::Paired) {
                let s = connection_managed_session(registry, client_id, grants, now_millis, fresh_id);
                sessions.push(s);
                assert(sessions@.take(old(sessions)@.len() as int) =~= old(sessions)@);
                Ok(fresh_id)
            } else if pairing == Some(PairingState::Pending) {
                Err(AgentBrokerError::native("pairing-required", "approve-pairing"))
            } else {
                Err(AgentBrokerError::new(
                    "session-required",
                    "The MCP connection session is unavailable; reconnect the client.",
                    true,
                ))
            }
        },
    }
}

/// Records a request identifier in the replay guard. A fresh request must
/// not have been seen (`request-replayed`); a continuation after a local
/// approval must have been (else the broker is at fault).
pub fn record_request(seen: &mut Vec<u128>, request_id: u128, continuation: bool) -> (r: Result<(), AgentBrokerError>)
    ensures
        if continuation {
            final(seen)@ == old(seen)@ && (r is Ok <==> old(seen)@.contains(request_id))
                && (r matches Err(e) ==> e.code@ == "broker-unavailable"@)
        } else if old(seen)@.contains(request_id) {
            final(seen)@ == old(seen)@ && (r matches Err(e) && e.code@ == "request-replayed"@ && !e.retryable)
        } else {
            r is Ok && final(seen)@ == seen_after(old(seen)@, request_id)
        },
{
    proof {
        reveal_strlit("request-replayed");
    }
    let known = seen_contains(seen, request_id);
    if continuation {
        if !known {
            return Err(AgentBrokerError::internal());
        }
        return Ok(());
    }
    if known {
        return Err(AgentBrokerError::new("request-replayed", "The Agent request has already been used.", false));
    }
    if seen.len() >= MAX_SEEN_REQUESTS {
        seen.clear();
    }
    seen.push(request_id);
    Ok(())
}


/// The tool, parameter and session stages of an admission in session `sid`
/// (see `admission_holds`).
pub open spec fn tool_stage_holds<F: Fn(&JsonValue) -> Option<usize>>(
    r: Result<AdmittedRequest, AgentBrokerError>,
    sessions: Seq<ConnectionSession>,
    registry: AgentRegistry,
    client: u128,
    request: AgentRequest,
    sid: u128,
    now: u64,
    serialized_len: F,
) -> bool {
    match tool_position(registry.tools@, request.tool@) {
        None => r matches Err(e) && e.code@ == "unknown-tool"@ && !e.retryable,
        Some(ti) => {
            let tool = registry.tools@[ti];
            if request.tool_version != tool.version {
                r matches Err(e) && e.code@ == "update-required"@ && !e.retryable
            } else {
                match request.parameters {
                    JsonValue::Object(entries) => if !only_declared(tool, entries@) {
                        r matches Err(e) && e.code@ == "unknown-field"@ && !e.retryable
                    } else {
                        exists|sizes: Seq<Option<usize>>, upto: int| #[trigger] sizes_answered(tool, request.parameters, serialized_len, sizes, upto)
                            && match first_fault_index(tool, request.parameters, sizes, 0) {
                                Some(_) => declarations_hold(unit_of(r), tool, request.parameters, sizes, upto),
                                None => {
                                    &&& upto == tool.parameters@.len()
                                    &&& session_check_holds(r, match session_position(sessions, sid) {
                                            Some(k) => Some(sessions[k]),
                                            None => None,
                                        }, client, request.tool@, now)
                                    &&& r matches Ok(a) ==> a.session_id == sid && a.tool_index == ti
                                },
                            }
                    },
                    _ => r matches Err(e) && e.code@ == "invalid-parameters"@ && !e.retryable,
                }
            }
        },
    }
}

/// An admission of `request` from `client` took state `s0` to `s1` with
/// outcome `r`: the protocol version must match (`update-required`); the
/// session is resolved (see `resolve_session`); the replay guard records the
/// request (see `record_request`); then the tool stages follow.
pub open spec fn admission_holds<F: Fn(&JsonValue) -> Option<usize>>(
    r: Result<AdmittedRequest, AgentBrokerError>,
    s0: AdmissionState,
    s1: AdmissionState,
    registry: AgentRegistry,
    grants: Seq<PermissionGrant>,
    client: u128,
    pairing: Option<PairingState>,
    request: AgentRequest,
    continuation: bool,
    fresh_id: u128,
    now: u64,
    serialized_len: F,
) -> bool {
    if request.protocol_version != PROTOCOL_VERSION {
        r matches Err(e) && e.code@ == "update-required"@ && !e.retryable
            && s1.sessions@ == s0.sessions@ && s1.seen_requests@ == s0.seen_requests@
    } else {
        let res = resolve_session(s0.sessions@, client, pairing, request.session_id);
        match res {
            SessionResolution::PairingRequired => r matches Err(e) && e.code@ == "pairing-required"@
                && e.native_action_required == Some("approve-pairing")
                && s1.sessions@ == s0.sessions@ && s1.seen_requests@ == s0.seen_requests@,
            SessionResolution::Unavailable => r matches Err(e) && e.code@ == "session-required"@ && e.retryable
                && s1.sessions@ == s0.sessions@ && s1.seen_requests@ == s0.seen_requests@,
            _ => {
                let sid = match res {
                    SessionResolution::Use(id) => id,
                    _ => fresh_id,
                };
                let seen0 = s0.seen_requests@;
                &&& if res is Open {
                    &&& s1.sessions@.len() == s0.sessions@.len() + 1
                    &&& s1.sessions@.take(s0.sessions@.len() as int) == s0.sessions@
                    &&& is_opened_session(s1.sessions@.last(), registry, client, grants, now, fresh_id)
                } else {
                    s1.sessions@ == s0.sessions@
                }
                &&& if continuation && !seen0.contains(request.request_id) {
                    (r matches Err(e) && e.code@ == "broker-unavailable"@) && s1.seen_requests@ == seen0
                } else if !continuation && seen0.contains(request.request_id) {
                    (r matches Err(e) && e.code@ == "request-replayed"@ && !e.retryable) && s1.seen_requests@ == seen0
                } else {
                    &&& s1.seen_requests@ == if continuation { seen0 } else { seen_after(seen0, request.request_id) }
                    &&& tool_stage_holds(r, s1.sessions@, registry, client, request, sid, now, serialized_len)
                }
            },
        }
    }
}

/// Admits an Agent request (see `admission_holds`). A continuation is the
/// same request run again after a local approval. `fresh_id` names the
/// session that the broker opens for a paired client's connection when the
/// request names none and the connection has none yet; `serialized_len`
/// gives the size of a JSON value in bytes.
pub fn admit_request<F: Fn(&JsonValue) -> Option<usize>>(
    state: &mut AdmissionState,
    registry: &AgentRegistry,
    grants: &Vec<PermissionGrant>,
    client_id: u128,
    pairing: Option<PairingState>,
    request: &AgentRequest,
    continuation: bool,
    fresh_id: u128,
    now_millis: u64,
    serialized_len: &F,
) -> (r: Result<AdmittedRequest, AgentBrokerError>)
    requires
        forall|v: &JsonValue| serialized_len.requires((v,)),
    ensures
        admission_holds(r, *old(state), *final(state), *registry, grants@, client_id, pairing, *request, continuation, fresh_id, now_millis, *serialized_len),
{
    proof {
        reveal_strlit("update-required");
        reveal_strlit("unknown-tool");
    }
    if request.protocol_version != PROTOCOL_VERSION {
        return Err(AgentBrokerError::new("update-required", "The Agent protocol version is not supported.", false));
    }
    let sid = match resolve_request_session(&mut state.sessions, registry, grants, client_id, pairing, request.session_id, fresh_id, now_millis) {
        Ok(id) => id,
        Err(e) => return Err(e),
    };
    match record_request(&mut state.seen_requests, request.request_id, continuation) {
        Ok(()) => {},
        Err(e) => return Err(e),
    }
    admit_tool_stage(&state.sessions, registry, client_id, request, sid, now_millis, serialized_len)
}

fn admit_tool_stage<F: Fn(&JsonValue) -> Option<usize>>(
    sessions: &Vec<ConnectionSession>,
    registry: &AgentRegistry,
    client_id: u128,
    request: &AgentRequest,
    sid: u128,
    now_millis: u64,
    serialized_len: &F,
) -> (r: Result<AdmittedRequest, AgentBrokerError>)
    requires
        forall|v: &JsonValue| serialized_len.requires((v,)),
    ensures
        tool_stage_holds(r, sessions@, *registry, client_id, *request, sid, now_millis, *serialized_len),
{
    proof {
        reveal_strlit("update-required");
        reveal_strlit("unknown-tool");
        lemma_tool_position(registry.tools@, request.tool@);
        lemma_session_position(sessions@, sid);
    }
    let ti = match find_tool(registry, request.tool.as_str()) {
        Some(i) => i,
        None => return Err(AgentBrokerError::new("unknown-tool", "The Agent tool is not supported.", false)),
    };
    let tool = &registry.tools[ti];
    if request.tool_version != tool.version {
        return Err(AgentBrokerError::new("update-required", "The Agent tool version is not supported.", false));
    }
    match validate_parameters(tool, &request.parameters, serialized_len) {
        Ok(()) => {},
        Err(e) => return Err(e),
    }
    let session = match find_session(sessions, sid) {
        Some(k) => Some(&sessions[k]),
        None => None,
    };
    match check_request_session(session, client_id, request.tool.as_str(), now_millis) {
        Ok(()) => Ok(AdmittedRequest { session_id: sid, tool_index: ti }),
        Err(e) => Err(e),
    }
}


/// What the plan stages of an admitted request settle: its risk and whether
/// it needs a confirmation.
#[derive(Debug)]
pub struct RequestPlan {
    pub risk: String,
    pub confirmation_required: bool,
}

/// The value behind an optional reference.
pub open spec fn deref_opt<T>(o: Option<&T>) -> Option<T> {
    match o {
        Some(v) => Some(*v),
        None => None,
    }
}

/// What the connection's grant says against a request (see
/// `check_connection_grant`): its code, and whether it asks for the local
/// permission flow; `None` when an allowing grant without a fresh
/// confirmation decides.
pub open spec fn connection_grant_fault(account_ref: Option<String>, grant: Option<PermissionGrant>) -> Option<(Seq<char>, bool)> {
    match account_ref {
        None => Some(("account-required"@, false)),
        Some(_) => match grant {
            Some(g) => if g.effect == PermissionEffect::Deny {
                Some(("authorization-denied"@, false))
            } else if g.fresh_confirmation_required {
                Some(("permission-required"@, true))
            } else {
                None
            },
            None => Some(("permission-required"@, true)),
        },
    }
}

/// The grant and confirmation stages of a request at risk `risk` (see
/// `plan_stage_holds`).
pub open spec fn grant_stage_holds(
    r: Result<RequestPlan, AgentBrokerError>,
    tool: AgentToolDefinition,
    request: AgentRequest,
    session: ConnectionSession,
    grant: Option<PermissionGrant>,
    risk: Seq<char>,
) -> bool {
    let checked = session.connection_managed && !session_base_tools().contains(request.tool@)
        && !ssh_pty_session_tools().contains(request.tool@);
    let grant_fault: Option<(Seq<char>, bool)> = if !checked {
        None
    } else {
        connection_grant_fault(request.account_ref, grant)
    };
    let required = spec_confirmation_required(tool.confirmation@, risk);
    match grant_fault {
        Some((code, native)) => r matches Err(e) && e.code@ == code
            && (native ==> e.native_action_required == Some("request-permission")),
        None => {
            let ticket_ok = match request.confirmation_ticket {
                Some(t) => required && ticket_shape_ok(t@),
                None => true,
            };
            if !ticket_ok {
                r matches Err(e) && e.code@ == "invalid-confirmation"@ && !e.retryable
            } else {
                r matches Ok(plan) && plan.risk@ == risk && plan.confirmation_required == required
            }
        },
    }
}

/// The plan stages of an admitted request, in order: on a session that the
/// broker keeps, for a tool that needs an account and is no SSH terminal
/// follow-up, the connection's grant (see `connection_grant_fault`) and a
/// plan stored for the request (`plan_stored`), without which the local
/// permission flow is asked for (`permission-required`); then the account it names
/// (see `check_request_account`; an SSH terminal follow-up needs no plan of
/// its own), its risk (see `spec_effective_risk`), the connection's grant
/// when the session is one the broker keeps and the tool is neither a
/// session tool nor a terminal follow-up (see `check_connection_grant`), and
/// the confirmation ticket (see `check_confirmation_ticket`).
pub open spec fn plan_stage_holds(
    r: Result<RequestPlan, AgentBrokerError>,
    tool: AgentToolDefinition,
    request: AgentRequest,
    session: ConnectionSession,
    ssh: Option<AgentDirectSshPolicy>,
    http: Option<AgentDirectHttpPolicy>,
    connector: Option<AgentDirectConnectorPolicy>,
    grant: Option<PermissionGrant>,
    plan_stored: bool,
) -> bool {
    let continues = ssh_pty_session_tools().contains(request.tool@);
    let has_plan = ssh is Some || http is Some || connector is Some;
    let risk = spec_effective_risk(ssh, http, connector, tool.risk@);
    let pre_fault: Option<(Seq<char>, bool)> = if session.connection_managed && tool.requires_account && !continues {
        match connection_grant_fault(request.account_ref, grant) {
            Some(f) => Some(f),
            None => if !plan_stored { Some(("permission-required"@, true)) } else { None },
        }
    } else {
        None
    };
    if pre_fault is Some {
        let (code, native) = pre_fault->0;
        r matches Err(e) && e.code@ == code && (native ==> e.native_action_required == Some("request-permission"))
    } else if tool.requires_account {
        match request.account_ref {
            None => r matches Err(e) && e.code@ == "account-required"@ && !e.retryable,
            Some(a) => if !names_view(session.allowed_accounts@).contains(a@) {
                r matches Err(e) && e.code@ == "account-denied"@ && !e.retryable
            } else if !has_plan && !continues {
                r matches Err(e) && e.code@ == "action-plan-unavailable"@ && !e.retryable
            } else {
                grant_stage_holds(r, tool, request, session, grant, risk)
            },
        }
    } else if request.account_ref is Some {
        r matches Err(e) && e.code@ == "invalid-account"@ && !e.retryable
    } else {
        grant_stage_holds(r, tool, request, session, grant, risk)
    }
}

/// Runs the plan stages of an admitted request (see `plan_stage_holds`) with
/// the direct plans and the deciding grant found for it; `plan_stored` says
/// whether any direct plan is stored under the request's key.
pub fn check_request_plan(
    tool: &AgentToolDefinition,
    request: &AgentRequest,
    session: &ConnectionSession,
    ssh: Option<&AgentDirectSshPolicy>,
    http: Option<&AgentDirectHttpPolicy>,
    connector: Option<&AgentDirectConnectorPolicy>,
    grant: Option<&PermissionGrant>,
    plan_stored: bool,
) -> (r: Result<RequestPlan, AgentBrokerError>)
    ensures
        plan_stage_holds(r, *tool, *request, *session, deref_opt(ssh), deref_opt(http), deref_opt(connector), deref_opt(grant), plan_stored),
{
    proof {
        reveal_strlit("permission-required");
    }
    let continues = is_ssh_pty_session_tool(request.tool.as_str());
    let has_plan = ssh.is_some() || http.is_some() || connector.is_some();
    let account = match &request.account_ref {
        Some(a) => Some(a.as_str()),
        None => None,
    };
    if session.connection_managed && tool.requires_account && !continues {
        match check_connection_grant(account, grant) {
            Ok(()) => {},
            Err(e) => return Err(e),
        }
        if !plan_stored {
            return Err(AgentBrokerError::native("permission-required", "request-permission"));
        }
    }
    match check_request_account(tool.requires_account, account, session, has_plan, continues) {
        Ok(()) => {},
        Err(e) => return Err(e),
    }
    let risk = effective_risk(ssh, http, connector, tool.risk.as_str());
    if session.connection_managed && !crate::direct_permission::is_session_base_tool(request.tool.as_str()) && !continues {
        match check_connection_grant(account, grant) {
            Ok(()) => {},
            Err(e) => return Err(e),
        }
    }
    let required = confirmation_required(tool.confirmation.as_str(), risk.as_str());
    let ticket = match &request.confirmation_ticket {
        Some(t) => Some(t.as_str()),
        None => None,
    };
    match check_confirmation_ticket(ticket, required) {
        Ok(()) => Ok(RequestPlan { risk, confirmation_required: required }),
        Err(e) => Err(e),
    }
}


/// The digest of a request's parameters: `sha256:` and the lower-case
/// hexadecimal SHA-256 of their canonical JSON text (see
/// `canonical_parameters_digest`).
pub open spec fn parameters_digest_text(params: JsonValue) -> Option<Seq<char>> {
    match canon(params) {
        Some(c) => match json_text(c) {
            Some(t) => Some("sha256:"@ + lower_hex(sha256_digest(vstd::utf8::encode_utf8(t)))),
            None => None,
        },
        None => None,
    }
}

/// The plan stored under key `k`.
pub open spec fn plan_at<P>(es: Seq<(DirectPlanKey, P)>, k: (u128, Seq<char>, Seq<char>, Seq<char>)) -> Option<P> {
    match plan_index(es, k) {
        Some(i) => Some(es[i].1),
        None => None,
    }
}

/// `r` names the grant that decides a request (see
/// `matching_permission_grant_index`): a matching grant of the highest
/// priority, the last of those, or none when no grant matches.
pub open spec fn is_deciding_grant(
    grants: Seq<PermissionGrant>,
    account: Seq<char>,
    tool: Seq<char>,
    operation: Option<Seq<char>>,
    digest: Seq<char>,
    params: JsonValue,
    safe_command: bool,
    r: Option<int>,
) -> bool {
    match r {
        Some(i) => {
            &&& 0 <= i < grants.len()
            &&& spec_grant_matches(grants[i], account, tool, operation, digest, params, safe_command)
            &&& forall|j: int| 0 <= j < grants.len() && spec_grant_matches(#[trigger] grants[j], account, tool, operation, digest, params, safe_command)
                ==> grant_priority(grants[j]) <= grant_priority(grants[i])
            &&& forall|j: int| i < j < grants.len() && spec_grant_matches(#[trigger] grants[j], account, tool, operation, digest, params, safe_command)
                ==> grant_priority(grants[j]) < grant_priority(grants[i])
        },
        None => forall|j: int| 0 <= j < grants.len() ==> !spec_grant_matches(#[trigger] grants[j], account, tool, operation, digest, params, safe_command),
    }
}

/// The plan part of an authorization outcome.
pub open spec fn plan_part(r: Result<(String, RequestPlan), AgentBrokerError>) -> Result<RequestPlan, AgentBrokerError> {
    match r {
        Ok((_, p)) => Ok(p),
        Err(e) => Err(e),
    }
}

/// Authorizes an admitted request of `client_id` for `tool` in `session`:
/// the digest of its parameters (see `canonical_parameters_digest`), then
/// the plan stages (see `plan_stage_holds`) with the direct plans stored
/// under the request's account, tool and digest (an HTTP plan only for the
/// HTTP tool, though any stored plan counts as stored) and the client's
/// deciding grant (see `is_deciding_grant`).
/// `safe_command` says whether the command of an SSH request is a safe one.
pub fn authorize_request(
    plans: &ActiveDirectPlans,
    grants: &Vec<PermissionGrant>,
    client_id: u128,
    tool: &AgentToolDefinition,
    request: &AgentRequest,
    session: &ConnectionSession,
    safe_command: bool,
) -> (r: Result<(String, RequestPlan), AgentBrokerError>)
    ensures
        match canon(request.parameters) {
            None => r matches Err(e) && e.code@ == "invalid-parameters"@ && !e.retryable,
            Some(c) => match json_text(c) {
                None => r matches Err(e) && e.code@ == "broker-unavailable"@,
                Some(_) => {
                    let d = parameters_digest_text(request.parameters)->0;
                    &&& r matches Ok((digest, _)) ==> digest@ == d
                    &&& match request.account_ref {
                        None => plan_stage_holds(plan_part(r), *tool, *request, *session, None, None, None, None, false),
                        Some(a) => {
                            let k = (client_id, a@, request.tool@, d);
                            let http = if request.tool@ == "vaultmesh_http_request"@ { plan_at(plans.http@, k) } else { None };
                            exists|gi: Option<int>| #[trigger] is_deciding_grant(grants@, a@, request.tool@,
                                spec_request_permission_operation(request.tool@, request.parameters), d, request.parameters, safe_command, gi)
                                && plan_stage_holds(plan_part(r), *tool, *request, *session, plan_at(plans.ssh@, k), http,
                                    plan_at(plans.connector@, k), match gi { Some(i) => Some(grants@[i]), None => None },
                                    plan_index(plans.ssh@, k) is Some || plan_index(plans.http@, k) is Some || plan_index(plans.connector@, k) is Some)
                        },
                    }
                },
            },
        },
{
    proof {
        reveal_strlit("vaultmesh_http_request");
    }
    let digest = match canonical_parameters_digest(&request.parameters) {
        Ok(d) => d,
        Err(e) => return Err(e),
    };
    assert(parameters_digest_text(request.parameters) == Some(digest@));
    match &request.account_ref {
        None => {
            let r = check_request_plan(tool, request, session, None, None, None, None, false);
            let out = match r {
                Ok(p) => Ok((digest, p)),
                Err(e) => Err(e),
            };
            assert(plan_part(out) == r);
            assert(plan_stage_holds(plan_part(out), *tool, *request, *session, None, None, None, None, false));
            out
        },
        Some(a) => {
            let ssh = plans.ssh_plan(client_id, a.as_str(), request.tool.as_str(), digest.as_str());
            let http = if str_eq(request.tool.as_str(), "vaultmesh_http_request") {
                plans.http_plan(client_id, a.as_str(), request.tool.as_str(), digest.as_str())
            } else {
                None
            };
            let connector = plans.connector_plan(client_id, a.as_str(), request.tool.as_str(), digest.as_str());
            let operation = request_permission_operation(request.tool.as_str(), &request.parameters);
            let gi = matching_permission_grant_index(grants, a.as_str(), request.tool.as_str(), operation, digest.as_str(), &request.parameters, safe_command);
            let grant = match gi {
                Some(i) => Some(&grants[i]),
                None => None,
            };
            let ghost gview: Option<int> = match gi { Some(i) => Some(i as int), None => None };
            let ghost d = parameters_digest_text(request.parameters)->0;
            assert(is_deciding_grant(grants@, a@, request.tool@, spec_request_permission_operation(request.tool@, request.parameters),
                d, request.parameters, safe_command, gview));
            let ghost k = (client_id, a@, request.tool@, d);
            assert(deref_opt(ssh) == plan_at(plans.ssh@, k));
            assert(deref_opt(connector) == plan_at(plans.connector@, k));
            assert(deref_opt(http) == if request.tool@ == "vaultmesh_http_request"@ { plan_at(plans.http@, k) } else { None });
            assert(deref_opt(grant) == match gview { Some(i) => Some(grants@[i]), None => None });
            let stored = plans.has_plan(client_id, a.as_str(), request.tool.as_str(), digest.as_str());
            let r = check_request_plan(tool, request, session, ssh, http, connector, grant, stored);
            let out = match r {
                Ok(p) => Ok((digest, p)),
                Err(e) => Err(e),
            };
            assert(plan_part(out) == r);
            assert(plan_stage_holds(plan_part(out), *tool, *request, *session, plan_at(plans.ssh@, k), if request.tool@ == "vaultmesh_http_request"@ { plan_at(plans.http@, k) } else { None },
                plan_at(plans.connector@, k), match gview { Some(i) => Some(grants@[i]), None => None },
                plan_index(plans.ssh@, k) is Some || plan_index(plans.http@, k) is Some || plan_index(plans.connector@, k) is Some));
            out
        },
    }
}


/// The record whose digest names an action (members in key order): the
/// account (or `null`), the canonical parameters and target, the client, the
/// risk, the session, the tool and its version.
pub open spec fn action_record(
    client_id: u128,
    session_id: u128,
    account_ref: Option<Seq<char>>,
    tool: Seq<char>,
    tool_version: u32,
    target: JsonView,
    parameters: JsonView,
    risk: Seq<char>,
) -> JsonView {
    JsonView::Object(seq![
        ("accountRef"@, match account_ref { Some(a) => JsonView::String(a), None => JsonView::Null }),
        ("canonicalParameters"@, parameters),
        ("canonicalTarget"@, target),
        ("clientId"@, JsonView::String(uuid_text(client_id))),
        ("risk"@, JsonView::String(risk)),
        ("sessionId"@, JsonView::String(uuid_text(session_id))),
        ("tool"@, JsonView::String(tool)),
        ("toolVersion"@, JsonView::Integer(tool_version as i128)),
    ])
}

/// The digest that names an action: `sha256:` and the lower-case
/// hexadecimal SHA-256 of the compact JSON text of its record (see
/// `action_record`). Parameters or a target with a floating-point number are
/// refused as `invalid-parameters` (the parameters are checked first); a
/// record without a JSON text is an internal fault.
#[allow(clippy::too_many_arguments)]
pub fn canonical_action_digest(
    client_id: u128,
    session_id: u128,
    account_ref: Option<&str>,
    tool: &str,
    tool_version: u32,
    canonical_target: &JsonValue,
    parameters: &JsonValue,
    risk: &str,
) -> (r: Result<String, AgentBrokerError>)
    ensures
        match (canon(*parameters), canon(*canonical_target)) {
            (Some(p), Some(t)) => match json_text(action_record(client_id, session_id, opt_str_view(account_ref), tool@, tool_version, t, p, risk@)) {
                Some(text) => r matches Ok(d) && d@ == "sha256:"@ + lower_hex(sha256_digest(vstd::utf8::encode_utf8(text))),
                None => r matches Err(e) && e.code@ == "broker-unavailable"@,
            },
            _ => r matches Err(e) && e.code@ == "invalid-parameters"@ && !e.retryable,
        },
{
    let p = match canonicalize_json(parameters) {
        Ok(v) => v,
        Err(e) => return Err(e),
    };
    let t = match canonicalize_json(canonical_target) {
        Ok(v) => v,
        Err(e) => return Err(e),
    };
    let ghost view = seq![
        ("accountRef"@, match opt_str_view(account_ref) { Some(a) => JsonView::String(a), None => JsonView::Null }),
        ("canonicalParameters"@, json_view(p)),
        ("canonicalTarget"@, json_view(t)),
        ("clientId"@, JsonView::String(uuid_text(client_id))),
        ("risk"@, JsonView::String(risk@)),
        ("sessionId"@, JsonView::String(uuid_text(session_id))),
        ("tool"@, JsonView::String(tool@)),
        ("toolVersion"@, JsonView::Integer(tool_version as i128)),
    ];
    let account = match account_ref {
        Some(a) => JsonValue::String(copy_string(a)),
        None => JsonValue::Null,
    };
    let members = vec![
        member("accountRef", account),
        member("canonicalParameters", p),
        member("canonicalTarget", t),
        member("clientId", JsonValue::String(format_uuid(client_id))),
        member("risk", JsonValue::String(copy_string(risk))),
        member("sessionId", JsonValue::String(format_uuid(session_id))),
        member("tool", JsonValue::String(copy_string(tool))),
        member("toolVersion", JsonValue::Integer(tool_version as i128)),
    ];
    let record = object_of(members, Ghost(view));
    proof {
        if let JsonView::Object(m) = action_record(client_id, session_id, opt_str_view(account_ref), tool@, tool_version, json_view(t), json_view(p), risk@) {
            assert(view =~= m);
        }
    }
    let chars = match json_chars(&record) {
        Some(c) => c,
        None => return Err(AgentBrokerError::internal()),
    };
    let text = from_chars(&chars);
    let bytes = str_bytes(text.as_str());
    Ok(parameters_digest(bytes.as_slice()))
}

/// The text of an optional text.
pub open spec fn opt_str_view(o: Option<&str>) -> Option<Seq<char>> {
    match o {
        Some(s) => Some(s@),
        None => None,
    }
}


/// The target that an action's digest names: that of its direct SSH plan,
/// else (for an SSH terminal follow-up) the account and the terminal session
/// named in the parameters, else that of its HTTP plan, else that of its
/// connector plan, else `null`.
pub open spec fn canonical_target_view(
    ssh: Option<AgentDirectSshPolicy>,
    continues_terminal: bool,
    account_ref: Option<Seq<char>>,
    session_ref: Option<JsonView>,
    http: Option<AgentDirectHttpPolicy>,
    connector: Option<AgentDirectConnectorPolicy>,
) -> JsonView {
    match ssh {
        Some(p) => JsonView::Object(seq![
            ("accountRef"@, JsonView::String(uuid_text(p.account_ref))),
            ("connector"@, JsonView::String("ssh"@)),
            ("host"@, JsonView::String(p.host@)),
            ("port"@, JsonView::Integer(p.port as i128)),
            ("username"@, JsonView::String(p.username@)),
            ("hostKeySha256"@, JsonView::String(p.host_key_sha256@)),
            ("targetDigest"@, JsonView::String(p.target_digest@)),
        ]),
        None => if continues_terminal {
            JsonView::Object(seq![
                ("accountRef"@, match account_ref { Some(a) => JsonView::String(a), None => JsonView::Null }),
                ("connector"@, JsonView::String("ssh-pty-session"@)),
                ("sessionRef"@, match session_ref { Some(v) => v, None => JsonView::Null }),
            ])
        } else {
            match http {
                Some(p) => JsonView::Object(seq![
                    ("accountRef"@, JsonView::String(uuid_text(p.account_ref))),
                    ("connector"@, JsonView::String("http"@)),
                    ("origin"@, JsonView::String(p.origin@)),
                    ("operation"@, JsonView::String(p.operation.name@)),
                    ("targetDigest"@, JsonView::String(p.target_digest@)),
                ]),
                None => match connector {
                    Some(p) => JsonView::Object(seq![
                        ("accountRef"@, JsonView::String(uuid_text(p.account_ref))),
                        ("connector"@, JsonView::String(p.connector_kind@)),
                        ("operation"@, match p.operation { Some(o) => JsonView::String(o@), None => JsonView::Null }),
                        ("targetDigest"@, JsonView::String(p.target_digest@)),
                    ]),
                    None => JsonView::Null,
                },
            }
        },
    }
}

/// The account a request names, as text.
pub open spec fn request_account_view(request: AgentRequest) -> Option<Seq<char>> {
    match request.account_ref {
        Some(a) => Some(a@),
        None => None,
    }
}

/// The terminal session a request's parameters name.
pub open spec fn session_ref_view(request: AgentRequest) -> Option<JsonView> {
    match request.parameters.spec_get("sessionRef"@) {
        Some(v) => Some(json_view(v)),
        None => None,
    }
}

/// The target of an action (see `canonical_target_view`).
pub fn canonical_target(
    ssh: Option<&AgentDirectSshPolicy>,
    request: &AgentRequest,
    http: Option<&AgentDirectHttpPolicy>,
    connector: Option<&AgentDirectConnectorPolicy>,
) -> (r: JsonValue)
    ensures
        json_view(r) == canonical_target_view(deref_opt(ssh), ssh_pty_session_tools().contains(request.tool@),
            request_account_view(*request), session_ref_view(*request),
            deref_opt(http), deref_opt(connector)),
{
    match ssh {
        Some(p) => {
            let ghost view = seq![
                ("accountRef"@, JsonView::String(uuid_text(p.account_ref))),
                ("connector"@, JsonView::String("ssh"@)),
                ("host"@, JsonView::String(p.host@)),
                ("port"@, JsonView::Integer(p.port as i128)),
                ("username"@, JsonView::String(p.username@)),
                ("hostKeySha256"@, JsonView::String(p.host_key_sha256@)),
                ("targetDigest"@, JsonView::String(p.target_digest@)),
            ];
            let members = vec![
                member("accountRef", JsonValue::String(format_uuid(p.account_ref))),
                member("connector", JsonValue::String(copy_string("ssh"))),
                member("host", JsonValue::String(copy_string(p.host.as_str()))),
                member("port", JsonValue::Integer(p.port as i128)),
                member("username", JsonValue::String(copy_string(p.username.as_str()))),
                member("hostKeySha256", JsonValue::String(copy_string(p.host_key_sha256.as_str()))),
                member("targetDigest", JsonValue::String(copy_string(p.target_digest.as_str()))),
            ];
            return object_of(members, Ghost(view));
        },
        None => {},
    }
    if is_ssh_pty_session_tool(request.tool.as_str()) {
        let account = match &request.account_ref {
            Some(a) => JsonValue::String(copy_string(a.as_str())),
            None => JsonValue::Null,
        };
        let session_ref = match request.parameters.get("sessionRef") {
            Some(v) => crate::json::clone_json(v),
            None => JsonValue::Null,
        };
        let ghost view = seq![
            ("accountRef"@, json_view(account)),
            ("connector"@, JsonView::String("ssh-pty-session"@)),
            ("sessionRef"@, json_view(session_ref)),
        ];
        let members = vec![
            member("accountRef", account),
            member("connector", JsonValue::String(copy_string("ssh-pty-session"))),
            member("sessionRef", session_ref),
        ];
        let r = object_of(members, Ghost(view));
        proof {
            if let JsonView::Object(m) = canonical_target_view(deref_opt(ssh), ssh_pty_session_tools().contains(request.tool@),
            request_account_view(*request), session_ref_view(*request),
            deref_opt(http), deref_opt(connector)) {
                assert(view =~= m);
            }
        }
        return r;
    }
    match http {
        Some(p) => {
            let ghost view = seq![
                ("accountRef"@, JsonView::String(uuid_text(p.account_ref))),
                ("connector"@, JsonView::String("http"@)),
                ("origin"@, JsonView::String(p.origin@)),
                ("operation"@, JsonView::String(p.operation.name@)),
                ("targetDigest"@, JsonView::String(p.target_digest@)),
            ];
            let members = vec![
                member("accountRef", JsonValue::String(format_uuid(p.account_ref))),
                member("connector", JsonValue::String(copy_string("http"))),
                member("origin", JsonValue::String(copy_string(p.origin.as_str()))),
                member("operation", JsonValue::String(copy_string(p.operation.name.as_str()))),
                member("targetDigest", JsonValue::String(copy_string(p.target_digest.as_str()))),
            ];
            return object_of(members, Ghost(view));
        },
        None => {},
    }
    match connector {
        Some(p) => {
            let operation = match &p.operation {
                Some(o) => JsonValue::String(copy_string(o.as_str())),
                None => JsonValue::Null,
            };
            let ghost view = seq![
                ("accountRef"@, JsonView::String(uuid_text(p.account_ref))),
                ("connector"@, JsonView::String(p.connector_kind@)),
                ("operation"@, json_view(operation)),
                ("targetDigest"@, JsonView::String(p.target_digest@)),
            ];
            let members = vec![
                member("accountRef", JsonValue::String(format_uuid(p.account_ref))),
                member("connector", JsonValue::String(copy_string(p.connector_kind.as_str()))),
                member("operation", operation),
                member("targetDigest", JsonValue::String(copy_string(p.target_digest.as_str()))),
            ];
            let r = object_of(members, Ghost(view));
            proof {
                if let JsonView::Object(m) = canonical_target_view(deref_opt(ssh), ssh_pty_session_tools().contains(request.tool@),
            request_account_view(*request), session_ref_view(*request),
            deref_opt(http), deref_opt(connector)) {
                    assert(view =~= m);
                }
            }
            r
        },
        None => JsonValue::Null,
    }
}


/// The digest that names a request's action at risk `risk` in session
/// `session_id` (see `canonical_action_digest`), its target being the one
/// that `canonical_target` builds.
pub fn request_action_digest(
    client_id: u128,
    session_id: u128,
    request: &AgentRequest,
    ssh: Option<&AgentDirectSshPolicy>,
    http: Option<&AgentDirectHttpPolicy>,
    connector: Option<&AgentDirectConnectorPolicy>,
    risk: &str,
) -> (r: Result<String, AgentBrokerError>)
    ensures
        exists|target: JsonValue| #[trigger] json_view(target) == canonical_target_view(deref_opt(ssh),
            ssh_pty_session_tools().contains(request.tool@), request_account_view(*request), session_ref_view(*request),
            deref_opt(http), deref_opt(connector))
            && match (canon(request.parameters), canon(target)) {
                (Some(p), Some(t)) => match json_text(action_record(client_id, session_id, request_account_view(*request),
                    request.tool@, request.tool_version, t, p, risk@)) {
                    Some(text) => r matches Ok(d) && d@ == "sha256:"@ + lower_hex(sha256_digest(vstd::utf8::encode_utf8(text))),
                    None => r matches Err(e) && e.code@ == "broker-unavailable"@,
                },
                _ => r matches Err(e) && e.code@ == "invalid-parameters"@ && !e.retryable,
            },
{
    let target = canonical_target(ssh, request, http, connector);
    let account = match &request.account_ref {
        Some(a) => Some(a.as_str()),
        None => None,
    };
    assert(opt_str_view(account) == request_account_view(*request));
    let r = canonical_action_digest(client_id, session_id, account, request.tool.as_str(), request.tool_version, &target, &request.parameters, risk);
    r
}


/// The text of an optional string.
pub open spec fn opt_string_view(o: Option<String>) -> Option<Seq<char>> {
    match o {
        Some(s) => Some(s@),
        None => None,
    }
}

/// The confirmation ticket of a request, as text.
pub open spec fn request_ticket_view(request: AgentRequest) -> Option<Seq<char>> {
    match request.confirmation_ticket {
        Some(t) => Some(t@),
        None => None,
    }
}

/// The last stages of an authorized request: when its plan needs a
/// confirmation, the confirmation is checked or asked for (see
/// `confirmation_check_holds`; `new_ref` names a new one), and a refusal
/// leaves the session and the grants as they were; then one request of the
/// session is spent, with one use of the deciding grant (see `spend_holds`).
pub fn finish_request(
    confirmations: &mut ConfirmationDesk,
    session: &mut ConnectionSession,
    grants: &mut Vec<PermissionGrant>,
    client_id: u128,
    request: &AgentRequest,
    account_label: Option<String>,
    plan: &RequestPlan,
    parameters_digest: &str,
    action_digest: String,
    safe_command: bool,
    now_millis: u64,
    new_ref: u128,
) -> (r: Result<Option<usize>, AgentBrokerError>)
    ensures
        final(confirmations).outcomes@ == old(confirmations).outcomes@,
        ({
            let spent = r matches Ok(d) && spend_holds(*old(session), *final(session), old(grants)@, final(grants)@, d, request.tool@,
                request_account_view(*request), spec_request_permission_operation(request.tool@, request.parameters),
                parameters_digest@, request.parameters, safe_command);
            if plan.confirmation_required {
                exists|c: Result<(), AgentBrokerError>, account: Option<String>| #[trigger] confirmation_check_holds(old(confirmations).confirmations@,
                    final(confirmations).confirmations@, c, client_id, old(session).session_id, account, account_label,
                    request.tool@, plan.risk@, action_digest,
                    request_ticket_view(*request), now_millis, new_ref)
                    && opt_string_view(account) == request_account_view(*request)
                    && match c {
                        Err(e) => r == Err::<Option<usize>, AgentBrokerError>(e) && *final(session) == *old(session)
                            && final(grants)@ == old(grants)@,
                        Ok(_) => spent,
                    }
            } else {
                final(confirmations).confirmations@ == old(confirmations).confirmations@ && spent
            }
        }),
{
    if plan.confirmation_required {
        let ticket = match &request.confirmation_ticket {
            Some(t) => Some(t.as_str()),
            None => None,
        };
        let account = match &request.account_ref {
            Some(a) => Some(copy_string(a.as_str())),
            None => None,
        };
        let ghost account_view = account;
        let c = confirmations.validate_or_request_confirmation(
            client_id,
            session.session_id,
            account,
            account_label,
            request.tool.as_str(),
            plan.risk.as_str(),
            action_digest,
            ticket,
            now_millis,
            new_ref,
        );
        assert(opt_string_view(account_view) == request_account_view(*request));
        match c {
            Ok(()) => {},
            Err(e) => return Err(e),
        }
    }
    let account = match &request.account_ref {
        Some(a) => Some(a.as_str()),
        None => None,
    };
    let operation = request_permission_operation(request.tool.as_str(), &request.parameters);
    let deciding = spend_request(session, grants, request.tool.as_str(), account, operation, parameters_digest, &request.parameters, safe_command);
    Ok(deciding)
}

} // verus!
