//! Connection sessions: the ones a paired client asks for, with the tools
//! and accounts it may use for a bounded time and number of requests, and
//! the one the broker keeps for a connection on its own.
use vstd::prelude::*;
use crate::direct_permission::{first_account_policy, AgentAccountPolicy, AgentVaultAccountCandidate};
use crate::error::AgentBrokerError;
use crate::ids::{format_uuid, parse_uuid, uuid_parse, uuid_text};
use crate::model::{AgentRegistry, ConnectionSessionSnapshot, PairingState, PermissionEffect};
use crate::permission_desk::ConnectionSession;
use crate::policy::PermissionGrant;
use crate::text::{copy_string, str_eq};
use crate::text_order::{insert_sorted_unique, sorted_unique, strictly_sorted, string_texts};

verus! {

broadcast use vstd::string::group_string_axioms;

/// The longest a connection session lasts.
pub const MAX_SESSION_MILLIS: u64 = 900000;

/// The most output bytes a session may receive.
pub const MAX_SESSION_OUTPUT_BYTES: u64 = 1048576;

/// The requests a session that the broker keeps for a connection may make.
pub const SESSION_REQUEST_LIMIT: u32 = 1000;

/// The most requests a client may ask a session for.
pub const MAX_SESSION_REQUESTS: u32 = 10000;

/// The most accounts a session may name.
pub const MAX_SESSION_ACCOUNTS: usize = 256;

/// Some tool of the registry is named `name`.
pub open spec fn registry_has_tool(registry: AgentRegistry, name: Seq<char>) -> bool {
    exists|i: int| 0 <= i < registry.tools@.len() && (#[trigger] registry.tools@[i]).name@ == name
}

/// A session may name account `a`: its reference reads as a UUID, and an
/// enabled connector or a Vault account candidate stands for it.
pub open spec fn session_account_valid(
    a: Seq<char>,
    connectors: Seq<AgentAccountPolicy>,
    candidates: Seq<AgentVaultAccountCandidate>,
) -> bool {
    &&& uuid_parse(a) is Some
    &&& (match first_account_policy(connectors, a) {
        Some(i) => connectors[i].enabled,
        None => false,
    } || exists|k: int| 0 <= k < candidates.len() && uuid_text((#[trigger] candidates[k]).account_ref) == a)
}

/// What a client asks of a session is within bounds: a lifetime of at most
/// `MAX_SESSION_MILLIS`, 1 to `MAX_SESSION_REQUESTS` requests, some tools
/// but no more than the registry has, at most `MAX_SESSION_ACCOUNTS`
/// accounts, each of which it may name.
pub open spec fn session_request_valid(
    registry: AgentRegistry,
    tools: Seq<String>,
    accounts: Seq<String>,
    ttl_millis: u64,
    request_limit: u32,
    connectors: Seq<AgentAccountPolicy>,
    candidates: Seq<AgentVaultAccountCandidate>,
) -> bool {
    &&& 0 < ttl_millis <= MAX_SESSION_MILLIS
    &&& 1 <= request_limit <= MAX_SESSION_REQUESTS
    &&& 0 < tools.len() <= registry.tools@.len()
    &&& accounts.len() <= MAX_SESSION_ACCOUNTS
    &&& forall|i: int| 0 <= i < accounts.len() ==> session_account_valid((#[trigger] accounts[i])@, connectors, candidates)
}

/// `s` is the session issued at `now` as `session_id` to client `client_id`
/// for `tools` and `accounts`, each kept once.
pub open spec fn is_issued_session(
    s: ConnectionSession,
    session_id: u128,
    client_id: u128,
    tools: Seq<String>,
    accounts: Seq<String>,
    now: u64,
    lifetime: u64,
    request_limit: u32,
    managed: bool,
) -> bool {
    &&& s.session_id == session_id
    &&& s.client_id == client_id
    &&& s.connection_managed == managed
    &&& strictly_sorted(string_texts(s.allowed_tools@))
    &&& string_texts(s.allowed_tools@).to_set() == string_texts(tools).to_set()
    &&& strictly_sorted(string_texts(s.allowed_accounts@))
    &&& string_texts(s.allowed_accounts@).to_set() == string_texts(accounts).to_set()
    &&& s.issued_at == now
    &&& s.expires_at == if now + lifetime > u64::MAX { u64::MAX } else { (now + lifetime) as u64 }
    &&& s.request_limit == request_limit
    &&& s.requests_used == 0
}

fn tool_known(registry: &AgentRegistry, name: &str) -> (r: bool)
    ensures
        r == registry_has_tool(*registry, name@),
{
    let mut i: usize = 0;
    while i < registry.tools.len()
        invariant
            i <= registry.tools.len(),
            forall|k: int| 0 <= k < i ==> (#[trigger] registry.tools@[k]).name@ != name@,
        decreases registry.tools.len() - i,
    {
        if str_eq(registry.tools[i].name.as_str(), name) {
            return true;
        }
        i += 1;
    }
    false
}

fn account_known(a: &str, connectors: &Vec<AgentAccountPolicy>, candidates: &Vec<AgentVaultAccountCandidate>) -> (r: bool)
    ensures
        r == session_account_valid(a@, connectors@, candidates@),
{
    if parse_uuid(a).is_none() {
        return false;
    }
    match crate::direct_permission::find_account_policy(connectors, a) {
        Some(i) => {
            if connectors[i].enabled {
                return true;
            }
        },
        None => {},
    }
    let mut k: usize = 0;
    while k < candidates.len()
        invariant
            k <= candidates.len(),
            forall|j: int| 0 <= j < k ==> uuid_text((#[trigger] candidates@[j]).account_ref) != a@,
        decreases candidates.len() - k,
    {
        let text = format_uuid(candidates[k].account_ref);
        if str_eq(text.as_str(), a) {
            return true;
        }
        k += 1;
    }
    false
}

/// Issues a connection session to a connected client at `now_millis`, as
/// `session_id`. A client that is not paired is sent to the local app
/// (`pairing-required`); a request out of bounds is refused with
/// `invalid-session` (see `session_request_valid`); a tool that the
/// registry lacks with `capability-denied`.
pub fn issue_session(
    registry: &AgentRegistry,
    client_id: u128,
    pairing: PairingState,
    allowed_tools: &Vec<String>,
    allowed_accounts: &Vec<String>,
    ttl_millis: u64,
    request_limit: u32,
    now_millis: u64,
    session_id: u128,
    connectors: &Vec<AgentAccountPolicy>,
    candidates: &Vec<AgentVaultAccountCandidate>,
) -> (r: Result<ConnectionSession, AgentBrokerError>)
    ensures
        if pairing != PairingState::Paired {
            r matches Err(e) && e.code@ == "pairing-required"@ && e.native_action_required == Some("approve-pairing")
        } else if !session_request_valid(*registry, allowed_tools@, allowed_accounts@, ttl_millis, request_limit, connectors@, candidates@) {
            r matches Err(e) && e.code@ == "invalid-session"@ && !e.retryable
        } else if exists|i: int| 0 <= i < allowed_tools.len() && !registry_has_tool(*registry, (#[trigger] allowed_tools@[i])@) {
            r matches Err(e) && e.code@ == "capability-denied"@ && !e.retryable
        } else {
            r matches Ok(s) && is_issued_session(s, session_id, client_id, allowed_tools@, allowed_accounts@, now_millis, ttl_millis, request_limit, false)
        },
{
    proof {
        reveal_strlit("pairing-required");
        reveal_strlit("invalid-session");
        reveal_strlit("capability-denied");
    }
    if pairing != PairingState::Paired {
        return Err(AgentBrokerError::native("pairing-required", "approve-pairing"));
    }
    let mut valid = ttl_millis > 0 && ttl_millis <= MAX_SESSION_MILLIS && request_limit >= 1 && request_limit <= MAX_SESSION_REQUESTS
        && allowed_tools.len() > 0 && allowed_tools.len() <= registry.tools.len() && allowed_accounts.len() <= MAX_SESSION_ACCOUNTS;
    let mut i: usize = 0;
    while valid && i < allowed_accounts.len()
        invariant
            i <= allowed_accounts.len(),
            valid ==> (0 < ttl_millis <= MAX_SESSION_MILLIS && 1 <= request_limit <= MAX_SESSION_REQUESTS
                && 0 < allowed_tools.len() <= registry.tools@.len() && allowed_accounts.len() <= MAX_SESSION_ACCOUNTS),
            valid ==> forall|k: int| 0 <= k < i ==> session_account_valid((#[trigger] allowed_accounts@[k])@, connectors@, candidates@),
            !valid ==> !session_request_valid(*registry, allowed_tools@, allowed_accounts@, ttl_millis, request_limit, connectors@, candidates@),
        decreases allowed_accounts.len() - i + if valid { 1int } else { 0int },
    {
        if !account_known(allowed_accounts[i].as_str(), connectors, candidates) {
            valid = false;
        } else {
            i += 1;
        }
    }
    if !valid {
        return Err(AgentBrokerError::new("invalid-session", "The requested connection session is invalid.", false));
    }
    let mut t: usize = 0;
    while t < allowed_tools.len()
        invariant
            t <= allowed_tools.len(),
            pairing == PairingState::Paired,
            session_request_valid(*registry, allowed_tools@, allowed_accounts@, ttl_millis, request_limit, connectors@, candidates@),
            forall|k: int| 0 <= k < t ==> registry_has_tool(*registry, (#[trigger] allowed_tools@[k])@),
        decreases allowed_tools.len() - t,
    {
        if !tool_known(registry, allowed_tools[t].as_str()) {
            assert(!registry_has_tool(*registry, allowed_tools@[t as int]@));
            return Err(AgentBrokerError::new(
                "capability-denied",
                "The requested capability is not approved for this client.",
                false,
            ));
        }
        t += 1;
    }
    Ok(ConnectionSession {
        session_id,
        client_id,
        connection_managed: false,
        allowed_accounts: sorted_unique(allowed_accounts),
        allowed_tools: sorted_unique(allowed_tools),
        issued_at: now_millis,
        expires_at: now_millis.saturating_add(ttl_millis),
        request_limit,
        requests_used: 0,
    })
}

/// The tool names of the registry.
pub open spec fn registry_tool_names(registry: AgentRegistry) -> Seq<String> {
    Seq::new(registry.tools@.len(), |i: int| registry.tools@[i].name)
}

/// The tool names of the registry, sorted, each once.
pub fn registry_tool_set(registry: &AgentRegistry) -> (r: Vec<String>)
    ensures
        strictly_sorted(string_texts(r@)),
        string_texts(r@).to_set() == string_texts(registry_tool_names(*registry)).to_set(),
{
    let mut tools: Vec<String> = Vec::new();
    assert(string_texts(tools@) =~= Seq::<Seq<char>>::empty());
    let ghost names = string_texts(registry_tool_names(*registry));
    let mut i: usize = 0;
    while i < registry.tools.len()
        invariant
            i <= registry.tools.len(),
            names == string_texts(registry_tool_names(*registry)),
            strictly_sorted(string_texts(tools@)),
            string_texts(tools@).to_set() == names.take(i as int).to_set(),
        decreases registry.tools.len() - i,
    {
        insert_sorted_unique(&mut tools, copy_string(registry.tools[i].name.as_str()));
        assert(names.take(i + 1) =~= names.take(i as int).push(registry.tools@[i as int].name@));
        proof {
            names.take(i as int).lemma_push_to_set_commute(registry.tools@[i as int].name@);
        }
        i += 1;
    }
    assert(names.take(registry.tools.len() as int) =~= names);
    tools
}

/// The accounts that grants allow: those of the grants with effect Allow.
pub open spec fn allowed_grant_accounts(grants: Seq<PermissionGrant>) -> Set<Seq<char>> {
    Set::new(|a: Seq<char>| exists|i: int| 0 <= i < grants.len() && (#[trigger] grants[i]).effect == PermissionEffect::Allow && grants[i].account_ref@ == a)
}

/// The session that the broker keeps for a connection of client
/// `client_id`, issued at `now_millis` as `session_id`: every tool of the
/// registry, the accounts that the connection's grants allow,
/// `SESSION_REQUEST_LIMIT` requests for `MAX_SESSION_MILLIS`.
pub fn connection_managed_session(
    registry: &AgentRegistry,
    client_id: u128,
    grants: &Vec<PermissionGrant>,
    now_millis: u64,
    session_id: u128,
) -> (s: ConnectionSession)
    ensures
        s.session_id == session_id,
        s.client_id == client_id,
        s.connection_managed,
        strictly_sorted(string_texts(s.allowed_tools@)),
        string_texts(s.allowed_tools@).to_set() == string_texts(registry_tool_names(*registry)).to_set(),
        strictly_sorted(string_texts(s.allowed_accounts@)),
        string_texts(s.allowed_accounts@).to_set() == allowed_grant_accounts(grants@),
        s.issued_at == now_millis,
        s.expires_at == if now_millis + MAX_SESSION_MILLIS > u64::MAX { u64::MAX } else { (now_millis + MAX_SESSION_MILLIS) as u64 },
        s.request_limit == SESSION_REQUEST_LIMIT,
        s.requests_used == 0,
{
    let tools = registry_tool_set(registry);
    let mut accounts: Vec<String> = Vec::new();
    assert(string_texts(accounts@) =~= Seq::<Seq<char>>::empty());
    let mut j: usize = 0;
    while j < grants.len()
        invariant
            j <= grants.len(),
            strictly_sorted(string_texts(accounts@)),
            string_texts(accounts@).to_set() == allowed_grant_accounts(grants@.take(j as int)),
        decreases grants.len() - j,
    {
        let ghost before = string_texts(accounts@).to_set();
        if grants[j].effect == PermissionEffect::Allow {
            insert_sorted_unique(&mut accounts, copy_string(grants[j].account_ref.as_str()));
        }
        proof {
            let prev = grants@.take(j as int);
            let now = grants@.take(j + 1);
            assert forall|a: Seq<char>| string_texts(accounts@).to_set().contains(a) <==> allowed_grant_accounts(now).contains(a) by {
                if allowed_grant_accounts(now).contains(a) {
                    let w = choose|w: int| 0 <= w < now.len() && (#[trigger] now[w]).effect == PermissionEffect::Allow && now[w].account_ref@ == a;
                    if w < j {
                        assert(prev[w] == now[w]);
                        assert(allowed_grant_accounts(prev).contains(a));
                    }
                }
                if before.contains(a) {
                    let w = choose|w: int| 0 <= w < prev.len() && (#[trigger] prev[w]).effect == PermissionEffect::Allow && prev[w].account_ref@ == a;
                    assert(now[w] == prev[w]);
                }
                if string_texts(accounts@).to_set().contains(a) && !before.contains(a) {
                    assert(now[j as int] == grants@[j as int]);
                }
            }
            assert(string_texts(accounts@).to_set() =~= allowed_grant_accounts(now));
        }
        j += 1;
    }
    assert(grants@.take(grants.len() as int) =~= grants@);
    ConnectionSession {
        session_id,
        client_id,
        connection_managed: true,
        allowed_accounts: accounts,
        allowed_tools: tools,
        issued_at: now_millis,
        expires_at: now_millis.saturating_add(MAX_SESSION_MILLIS),
        request_limit: SESSION_REQUEST_LIMIT,
        requests_used: 0,
    }
}

/// The snapshot of a session whose output so far is `output_bytes_used`:
/// its references as UUID text, its tools and accounts sorted, each once.
pub fn session_snapshot(s: &ConnectionSession, output_bytes_used: u64) -> (r: ConnectionSessionSnapshot)
    ensures
        r.session_id@ == uuid_text(s.session_id),
        r.client_id@ == uuid_text(s.client_id),
        strictly_sorted(string_texts(r.allowed_tools@)),
        string_texts(r.allowed_tools@).to_set() == string_texts(s.allowed_tools@).to_set(),
        strictly_sorted(string_texts(r.allowed_accounts@)),
        string_texts(r.allowed_accounts@).to_set() == string_texts(s.allowed_accounts@).to_set(),
        r.issued_at == s.issued_at,
        r.expires_at == s.expires_at,
        r.request_limit == s.request_limit,
        r.requests_used == s.requests_used,
        r.output_byte_limit == MAX_SESSION_OUTPUT_BYTES,
        r.output_bytes_used == output_bytes_used,
{
    ConnectionSessionSnapshot {
        session_id: format_uuid(s.session_id),
        client_id: format_uuid(s.client_id),
        allowed_tools: sorted_unique(&s.allowed_tools),
        allowed_accounts: sorted_unique(&s.allowed_accounts),
        issued_at: s.issued_at,
        expires_at: s.expires_at,
        request_limit: s.request_limit,
        requests_used: s.requests_used,
        output_byte_limit: MAX_SESSION_OUTPUT_BYTES,
        output_bytes_used,
    }
}

} // verus!
