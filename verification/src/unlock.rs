//! The independent MCP unlock: a locked client's call opens (or joins) an
//! unlock request, the local app resolves it, and the waiting calls of every
//! client that shares it learn the outcome.
use vstd::prelude::*;
use crate::error::AgentBrokerError;
use crate::ids::{format_uuid, parse_uuid, uuid_parse, uuid_text};
use crate::json::{json_view, JsonValue, JsonView};
use crate::model::AgentUnlockRequestSnapshot;
use crate::permission_desk::AUTHORIZATION_TTL_MILLIS;
use crate::text::{copy_string, str_eq};

verus! {

broadcast use vstd::string::group_string_axioms;

/// How long an unlock request stays actionable in the local app.
pub const PAIRING_REQUEST_TTL_MILLIS: u64 = 600_000;

/// A pending unlock request: the client that opened it (or that now speaks
/// for it), every client that shares it, and its lifetime.
#[derive(Debug)]
pub struct PendingUnlockRecord {
    pub unlock_ref: u128,
    pub client_id: u128,
    pub client_ids: Vec<u128>,
    pub client_key: String,
    pub created_at: u64,
    pub expires_at: u64,
}

/// The outcome of a resolved unlock request.
#[derive(Clone, Copy, Debug, PartialEq, Eq, Structural)]
pub struct UnlockOutcome {
    pub unlock_ref: u128,
    pub allowed: bool,
    pub expires_at: u64,
}

/// What a waiting call is told about an unlock request.
#[derive(Clone, Copy, Debug, PartialEq, Eq, Structural)]
pub enum AgentUnlockWaitOutcome {
    Pending,
    Allowed,
    Denied,
    Expired,
}

/// The open unlock requests and their outcomes.
#[derive(Debug)]
pub struct UnlockDesk {
    pub pending: Vec<PendingUnlockRecord>,
    pub outcomes: Vec<UnlockOutcome>,
}

/// A record names at least one client, its speaking client among them, and
/// no client twice.
pub open spec fn record_wf(p: PendingUnlockRecord) -> bool {
    &&& p.client_ids@.len() > 0
    &&& p.client_ids@.contains(p.client_id)
    &&& p.client_ids@.no_duplicates()
}

/// Every record is well formed and no two records or outcomes share a reference.
pub open spec fn desk_wf(ps: Seq<PendingUnlockRecord>, os: Seq<UnlockOutcome>) -> bool {
    &&& forall|i: int| 0 <= i < ps.len() ==> record_wf(#[trigger] ps[i])
    &&& forall|i: int, j: int| 0 <= i < j < ps.len() ==> (#[trigger] ps[i]).unlock_ref != (#[trigger] ps[j]).unlock_ref
    &&& forall|i: int, j: int| 0 <= i < j < os.len() ==> (#[trigger] os[i]).unlock_ref != (#[trigger] os[j]).unlock_ref
}

/// The outcome recorded for `r`, if any.
pub open spec fn outcome_of(os: Seq<UnlockOutcome>, r: u128) -> Option<UnlockOutcome> {
    if exists|i: int| 0 <= i < os.len() && (#[trigger] os[i]).unlock_ref == r {
        Some(os[choose|i: int| 0 <= i < os.len() && (#[trigger] os[i]).unlock_ref == r])
    } else {
        None
    }
}

/// The pending record `r`, if any.
pub open spec fn record_index(ps: Seq<PendingUnlockRecord>, r: u128) -> Option<int> {
    if exists|i: int| 0 <= i < ps.len() && (#[trigger] ps[i]).unlock_ref == r {
        Some(choose|i: int| 0 <= i < ps.len() && (#[trigger] ps[i]).unlock_ref == r)
    } else {
        None
    }
}

/// Every tool but the request for the local UI needs the MCP unlock.
pub fn requires_agent_unlock(tool: &str) -> (r: bool)
    ensures
        r == (tool@ != "vaultmesh_request_local_ui"@),
{
    !str_eq(tool, "vaultmesh_request_local_ui")
}

/// The error that asks the local user for the MCP unlock `unlock_ref`.
pub open spec fn is_unlock_error(e: AgentBrokerError, unlock_ref: u128) -> bool {
    &&& e.code@ == "mcp-locked"@
    &&& e.retryable
    &&& e.native_action_required matches Some(a) && a@ == "unlock-agent"@
    &&& e.details matches Some(d) && json_view(d) == JsonView::Object(seq![("unlockRef"@, JsonView::String(uuid_text(unlock_ref)))])
}

/// The error that asks the local user for the MCP unlock `unlock_ref`.
pub fn agent_unlock_error(unlock_ref: u128) -> (e: AgentBrokerError)
    ensures
        is_unlock_error(e, unlock_ref),
{
    let text = format_uuid(unlock_ref);
    let entries = vec![(copy_string("unlockRef"), JsonValue::String(text))];
    let details = JsonValue::Object(entries);
    proof {
        if let JsonView::Object(a) = json_view(details) {
            assert(a[0] == (entries@[0].0@, json_view(entries@[0].1)));
            assert(a =~= seq![("unlockRef"@, JsonView::String(uuid_text(unlock_ref)))]);
        }
    }
    AgentBrokerError {
        code: "mcp-locked",
        message: "VaultMesh requires independent MCP access unlock in the local app.",
        retryable: true,
        native_action_required: Some("unlock-agent"),
        confirmation_ref: None,
        details: Some(details),
    }
}

fn find_outcome(os: &Vec<UnlockOutcome>, r: u128) -> (k: Option<usize>)
    ensures
        match k {
            Some(i) => i < os@.len() && os@[i as int].unlock_ref == r,
            None => forall|i: int| 0 <= i < os@.len() ==> (#[trigger] os@[i]).unlock_ref != r,
        },
{
    let mut i: usize = 0;
    while i < os.len()
        invariant
            i <= os.len(),
            forall|j: int| 0 <= j < i ==> (#[trigger] os@[j]).unlock_ref != r,
        decreases os.len() - i,
    {
        if os[i].unlock_ref == r {
            return Some(i);
        }
        i += 1;
    }
    None
}

fn find_record(ps: &Vec<PendingUnlockRecord>, r: u128) -> (k: Option<usize>)
    ensures
        match k {
            Some(i) => i < ps@.len() && ps@[i as int].unlock_ref == r,
            None => forall|i: int| 0 <= i < ps@.len() ==> (#[trigger] ps@[i]).unlock_ref != r,
        },
{
    let mut i: usize = 0;
    while i < ps.len()
        invariant
            i <= ps.len(),
            forall|j: int| 0 <= j < i ==> (#[trigger] ps@[j]).unlock_ref != r,
        decreases ps.len() - i,
    {
        if ps[i].unlock_ref == r {
            return Some(i);
        }
        i += 1;
    }
    None
}

proof fn lemma_outcome_of_unique(os: Seq<UnlockOutcome>, r: u128, i: int)
    requires
        0 <= i < os.len(),
        os[i].unlock_ref == r,
        forall|a: int, b: int| 0 <= a < b < os.len() ==> (#[trigger] os[a]).unlock_ref != (#[trigger] os[b]).unlock_ref,
    ensures
        outcome_of(os, r) == Some(os[i]),
{
    let k = choose|k: int| 0 <= k < os.len() && (#[trigger] os[k]).unlock_ref == r;
    assert(k == i) by {
        if k < i {
            assert(os[k].unlock_ref != os[i].unlock_ref);
        } else if k > i {
            assert(os[i].unlock_ref != os[k].unlock_ref);
        }
    }
}

proof fn lemma_record_index_unique(ps: Seq<PendingUnlockRecord>, r: u128, i: int)
    requires
        0 <= i < ps.len(),
        ps[i].unlock_ref == r,
        forall|a: int, b: int| 0 <= a < b < ps.len() ==> (#[trigger] ps[a]).unlock_ref != (#[trigger] ps[b]).unlock_ref,
    ensures
        record_index(ps, r) == Some(i),
{
    let k = choose|k: int| 0 <= k < ps.len() && (#[trigger] ps[k]).unlock_ref == r;
    assert(k == i) by {
        if k < i {
            assert(ps[k].unlock_ref != ps[i].unlock_ref);
        } else if k > i {
            assert(ps[i].unlock_ref != ps[k].unlock_ref);
        }
    }
}

/// What a call waiting on unlock request `r` for `client` is told at `now`;
/// `granted` says whether the client's MCP access is already unlocked. An
/// outcome decides first (an allow that expired counts as expired); a
/// client outside the request, or a request that is gone, has expired.
pub open spec fn spec_unlock_wait(ps: Seq<PendingUnlockRecord>, os: Seq<UnlockOutcome>, r: Option<u128>, client: u128, now: u64, granted: bool)
    -> AgentUnlockWaitOutcome
{
    match r {
        None => AgentUnlockWaitOutcome::Expired,
        Some(r) => match record_index(ps, r) {
            None => AgentUnlockWaitOutcome::Expired,
            Some(i) => if !ps[i].client_ids@.contains(client) {
                AgentUnlockWaitOutcome::Expired
            } else {
                match outcome_of(os, r) {
                    Some(o) => if o.allowed && o.expires_at > now {
                        AgentUnlockWaitOutcome::Allowed
                    } else if o.allowed {
                        AgentUnlockWaitOutcome::Expired
                    } else {
                        AgentUnlockWaitOutcome::Denied
                    },
                    None => if granted {
                        AgentUnlockWaitOutcome::Allowed
                    } else if ps[i].expires_at > now {
                        AgentUnlockWaitOutcome::Pending
                    } else {
                        AgentUnlockWaitOutcome::Expired
                    },
                }
            },
        },
    }
}

/// The outcome kept for a resolution at `now`.
pub open spec fn resolved_outcome(r: u128, allowed: bool, now: u64) -> UnlockOutcome {
    UnlockOutcome {
        unlock_ref: r,
        allowed,
        expires_at: if now + AUTHORIZATION_TTL_MILLIS > u64::MAX { u64::MAX } else { (now + AUTHORIZATION_TTL_MILLIS) as u64 },
    }
}

/// The outcomes after `o` replaces any outcome with its reference.
pub open spec fn put_outcome(os: Seq<UnlockOutcome>, o: UnlockOutcome) -> Seq<UnlockOutcome> {
    if exists|i: int| 0 <= i < os.len() && (#[trigger] os[i]).unlock_ref == o.unlock_ref {
        os.update(choose|i: int| 0 <= i < os.len() && (#[trigger] os[i]).unlock_ref == o.unlock_ref, o)
    } else {
        os.push(o)
    }
}

fn invalid_unlock(message: &'static str) -> (e: AgentBrokerError)
    ensures
        e.code@ == "invalid-unlock"@,
        !e.retryable,
{
    proof {
        reveal_strlit("invalid-unlock");
    }
    AgentBrokerError::new("invalid-unlock", message, false)
}

impl UnlockDesk {
    /// Resolves unlock request `unlock_ref` on behalf of `client_id` at
    /// `now_millis`. It must be a UUID of a pending request that this client
    /// speaks for and that has not expired (an expired one is dropped);
    /// otherwise `invalid-unlock`. The outcome is kept for `AUTHORIZATION_TTL_MILLIS`.
    pub fn resolve_unlock_request(&mut self, unlock_ref: &str, client_id: u128, allowed: bool, now_millis: u64) -> (r: Result<(), AgentBrokerError>)
        requires
            desk_wf(old(self).pending@, old(self).outcomes@),
        ensures
            desk_wf(final(self).pending@, final(self).outcomes@),
            match uuid_parse(unlock_ref@) {
                None => r matches Err(e) && e.code@ == "invalid-unlock"@ && final(self).pending@ == old(self).pending@
                    && final(self).outcomes@ == old(self).outcomes@,
                Some(id) => match record_index(old(self).pending@, id) {
                    None => r matches Err(e) && e.code@ == "invalid-unlock"@ && final(self).pending@ == old(self).pending@
                        && final(self).outcomes@ == old(self).outcomes@,
                    Some(i) => if old(self).pending@[i].client_id != client_id {
                        r matches Err(e) && e.code@ == "invalid-unlock"@ && final(self).pending@ == old(self).pending@
                            && final(self).outcomes@ == old(self).outcomes@
                    } else if old(self).pending@[i].expires_at <= now_millis {
                        r matches Err(e) && e.code@ == "invalid-unlock"@ && final(self).pending@ == old(self).pending@.remove(i)
                            && final(self).outcomes@ == old(self).outcomes@
                    } else {
                        r is Ok && final(self).pending@ == old(self).pending@
                            && final(self).outcomes@ == put_outcome(old(self).outcomes@, resolved_outcome(id, allowed, now_millis))
                    },
                },
            },
    {
        let id = match parse_uuid(unlock_ref) {
            Some(id) => id,
            None => return Err(invalid_unlock("The MCP unlock request is invalid.")),
        };
        let i = match find_record(&self.pending, id) {
            Some(i) => i,
            None => return Err(invalid_unlock("The MCP unlock request is unavailable.")),
        };
        proof {
            lemma_record_index_unique(self.pending@, id, i as int);
        }
        if self.pending[i].client_id != client_id {
            return Err(invalid_unlock("The MCP unlock request does not belong to this client."));
        }
        if self.pending[i].expires_at <= now_millis {
            let ghost before = self.pending@;
            let _gone = self.pending.remove(i);
            proof {
                assert forall|a: int, b: int| 0 <= a < b < self.pending@.len() implies
                    (#[trigger] self.pending@[a]).unlock_ref != (#[trigger] self.pending@[b]).unlock_ref by {
                    let a0 = if a < i { a } else { a + 1 };
                    let b0 = if b < i { b } else { b + 1 };
                    assert(self.pending@[a] == before[a0]);
                    assert(self.pending@[b] == before[b0]);
                }
                assert forall|a: int| 0 <= a < self.pending@.len() implies record_wf(#[trigger] self.pending@[a]) by {
                    let a0 = if a < i { a } else { a + 1 };
                    assert(self.pending@[a] == before[a0]);
                }
            }
            return Err(invalid_unlock("The MCP unlock request has expired."));
        }
        let outcome = UnlockOutcome {
            unlock_ref: id,
            allowed,
            expires_at: now_millis.saturating_add(AUTHORIZATION_TTL_MILLIS),
        };
        let ghost os = self.outcomes@;
        match find_outcome(&self.outcomes, id) {
            Some(k) => {
                proof {
                    let c = choose|c: int| 0 <= c < os.len() && (#[trigger] os[c]).unlock_ref == id;
                    assert(c == k) by {
                        if c < k {
                            assert(os[c].unlock_ref != os[k as int].unlock_ref);
                        } else if c > k {
                            assert(os[k as int].unlock_ref != os[c].unlock_ref);
                        }
                    }
                }
                self.outcomes.set(k, outcome);
                proof {
                    assert forall|a: int, b: int| 0 <= a < b < self.outcomes@.len() implies
                        (#[trigger] self.outcomes@[a]).unlock_ref != (#[trigger] self.outcomes@[b]).unlock_ref by {
                        assert(self.outcomes@[a].unlock_ref == os[a].unlock_ref);
                        assert(self.outcomes@[b].unlock_ref == os[b].unlock_ref);
                    }
                }
            },
            None => {
                self.outcomes.push(outcome);
                proof {
                    assert forall|a: int, b: int| 0 <= a < b < self.outcomes@.len() implies
                        (#[trigger] self.outcomes@[a]).unlock_ref != (#[trigger] self.outcomes@[b]).unlock_ref by {
                        if b == os.len() {
                            assert(os[a].unlock_ref != id);
                        } else {
                            assert(self.outcomes@[a] == os[a]);
                            assert(self.outcomes@[b] == os[b]);
                        }
                    }
                }
            },
        }
        Ok(())
    }

    /// What a call of `client_id` waiting on `unlock_ref` is told at
    /// `now_millis` (see `spec_unlock_wait`); `access_granted` says whether
    /// the client's MCP access is unlocked. An unlocked client with no outcome
    /// yet gets an allowing outcome recorded.
    pub fn unlock_wait_outcome(&mut self, unlock_ref: &str, client_id: u128, now_millis: u64, access_granted: bool) -> (w: AgentUnlockWaitOutcome)
        requires
            desk_wf(old(self).pending@, old(self).outcomes@),
        ensures
            desk_wf(final(self).pending@, final(self).outcomes@),
            final(self).pending@ == old(self).pending@,
            w == spec_unlock_wait(old(self).pending@, old(self).outcomes@, uuid_parse(unlock_ref@), client_id, now_millis, access_granted),
            w == AgentUnlockWaitOutcome::Allowed && outcome_of(old(self).outcomes@, uuid_parse(unlock_ref@)->0) is None
                ==> final(self).outcomes@ == old(self).outcomes@.push(resolved_outcome(uuid_parse(unlock_ref@)->0, true, now_millis)),
            !(w == AgentUnlockWaitOutcome::Allowed && outcome_of(old(self).outcomes@, uuid_parse(unlock_ref@)->0) is None)
                ==> final(self).outcomes@ == old(self).outcomes@,
    {
        let id = match parse_uuid(unlock_ref) {
            Some(id) => id,
            None => return AgentUnlockWaitOutcome::Expired,
        };
        let i = match find_record(&self.pending, id) {
            Some(i) => i,
            None => return AgentUnlockWaitOutcome::Expired,
        };
        proof {
            lemma_record_index_unique(self.pending@, id, i as int);
        }
        let mut member = false;
        let mut k: usize = 0;
        while k < self.pending[i].client_ids.len()
            invariant
                i < self.pending@.len(),
                k <= self.pending@[i as int].client_ids@.len(),
                member == exists|m: int| 0 <= m < k && self.pending@[i as int].client_ids@[m] == client_id,
            decreases self.pending@[i as int].client_ids@.len() - k,
        {
            if self.pending[i].client_ids[k] == client_id {
                member = true;
            }
            k += 1;
        }
        if !member {
            return AgentUnlockWaitOutcome::Expired;
        }
        match find_outcome(&self.outcomes, id) {
            Some(o) => {
                proof {
                    lemma_outcome_of_unique(self.outcomes@, id, o as int);
                }
                let outcome = self.outcomes[o];
                if outcome.allowed && outcome.expires_at > now_millis {
                    return AgentUnlockWaitOutcome::Allowed;
                } else if outcome.allowed {
                    return AgentUnlockWaitOutcome::Expired;
                } else {
                    return AgentUnlockWaitOutcome::Denied;
                }
            },
            None => {},
        }
        if access_granted {
            let ghost os = self.outcomes@;
            self.outcomes.push(UnlockOutcome {
                unlock_ref: id,
                allowed: true,
                expires_at: now_millis.saturating_add(AUTHORIZATION_TTL_MILLIS),
            });
            proof {
                assert forall|a: int, b: int| 0 <= a < b < self.outcomes@.len() implies
                    (#[trigger] self.outcomes@[a]).unlock_ref != (#[trigger] self.outcomes@[b]).unlock_ref by {
                    if b == os.len() {
                        assert(os[a].unlock_ref != id);
                    } else {
                        assert(self.outcomes@[a] == os[a]);
                        assert(self.outcomes@[b] == os[b]);
                    }
                }
            }
            return AgentUnlockWaitOutcome::Allowed;
        }
        if self.pending[i].expires_at > now_millis {
            AgentUnlockWaitOutcome::Pending
        } else {
            AgentUnlockWaitOutcome::Expired
        }
    }
}

/// An unresolved unlock request that has not expired at `now`.
pub open spec fn unlock_joinable(os: Seq<UnlockOutcome>, p: PendingUnlockRecord, now: u64) -> bool {
    outcome_of(os, p.unlock_ref) is None && p.expires_at > now
}

/// `answer` is a possible answer to whether `client` shares the unlock of
/// `owner`: the callback's answer when there is one, otherwise whether they
/// are the same client.
pub open spec fn shares_unlock<F: Fn(u128, u128) -> bool>(shares: Option<F>, owner: u128, client: u128, answer: bool) -> bool {
    match shares {
        None => (owner == client) == answer,
        Some(f) => call_ensures(f, (owner, client), answer),
    }
}

/// `i` is the first open request that `client` can join.
pub open spec fn is_first_joinable<F: Fn(u128, u128) -> bool>(
    ps: Seq<PendingUnlockRecord>,
    os: Seq<UnlockOutcome>,
    client: u128,
    now: u64,
    shares: Option<F>,
    i: int,
) -> bool {
    &&& 0 <= i < ps.len()
    &&& unlock_joinable(os, ps[i], now)
    &&& shares_unlock(shares, ps[i].client_id, client, true)
    &&& forall|j: int| 0 <= j < i ==> !unlock_joinable(os, #[trigger] ps[j], now) || shares_unlock(shares, ps[j].client_id, client, false)
}

/// No open request can be joined by `client`.
pub open spec fn none_joinable<F: Fn(u128, u128) -> bool>(
    ps: Seq<PendingUnlockRecord>,
    os: Seq<UnlockOutcome>,
    client: u128,
    now: u64,
    shares: Option<F>,
) -> bool {
    forall|j: int| 0 <= j < ps.len() ==> !unlock_joinable(os, #[trigger] ps[j], now) || shares_unlock(shares, ps[j].client_id, client, false)
}

/// `after` is `before` joined by `client`.
pub open spec fn joined_record(before: PendingUnlockRecord, after: PendingUnlockRecord, client: u128) -> bool {
    &&& after.unlock_ref == before.unlock_ref
    &&& after.client_id == before.client_id
    &&& after.client_key == before.client_key
    &&& after.created_at == before.created_at
    &&& after.expires_at == before.expires_at
    &&& after.client_ids@ == if before.client_ids@.contains(client) { before.client_ids@ } else { before.client_ids@.push(client) }
}

/// `p` is a fresh unlock request `r` of `client`, opened at `now`.
pub open spec fn fresh_record(p: PendingUnlockRecord, r: u128, client: u128, client_key: Seq<char>, now: u64) -> bool {
    &&& p.unlock_ref == r
    &&& p.client_id == client
    &&& p.client_ids@ == seq![client]
    &&& p.client_key@ == client_key
    &&& p.created_at == now
    &&& p.expires_at == if now + PAIRING_REQUEST_TTL_MILLIS > u64::MAX { u64::MAX } else { (now + PAIRING_REQUEST_TTL_MILLIS) as u64 }
}

proof fn lemma_same_refs_keep_wf(before: Seq<PendingUnlockRecord>, after: Seq<PendingUnlockRecord>, os: Seq<UnlockOutcome>)
    requires
        desk_wf(before, os),
        after.len() == before.len(),
        forall|j: int| 0 <= j < after.len() ==> (#[trigger] after[j]).unlock_ref == before[j].unlock_ref && record_wf(after[j]),
    ensures
        desk_wf(after, os),
{
    assert forall|a: int, b: int| 0 <= a < b < after.len() implies (#[trigger] after[a]).unlock_ref != (#[trigger] after[b]).unlock_ref by {
        assert(before[a].unlock_ref != before[b].unlock_ref);
    }
}

fn ids_contain(ids: &Vec<u128>, id: u128) -> (r: bool)
    ensures
        r == ids@.contains(id),
{
    let mut i: usize = 0;
    while i < ids.len()
        invariant
            i <= ids.len(),
            forall|k: int| 0 <= k < i ==> ids@[k] != id,
        decreases ids.len() - i,
    {
        if ids[i] == id {
            assert(ids@[i as int] == id);
            return true;
        }
        i += 1;
    }
    false
}

impl UnlockDesk {
    /// Requires the independent MCP unlock for a call of `client_id` to
    /// `tool` at `now_millis`. Nothing is needed for the local-UI request or
    /// when `access_granted` says the client's MCP access is unlocked. An
    /// unknown client (no `client_key`) is refused. Otherwise the call is
    /// refused with the unlock error of the first open request the client can
    /// join (`shares` answers whether a client shares another's unlock; with
    /// none, only the same client does), which the client then joins; with
    /// no such request a fresh request `new_ref` is opened, replacing any
    /// request with that reference.
    pub fn require_agent_unlock<F: Fn(u128, u128) -> bool>(
        &mut self,
        client_id: u128,
        client_key: Option<&str>,
        tool: &str,
        now_millis: u64,
        access_granted: bool,
        shares: &Option<F>,
        new_ref: u128,
    ) -> (r: Result<(), AgentBrokerError>)
        requires
            desk_wf(old(self).pending@, old(self).outcomes@),
            match *shares {
                Some(f) => forall|a: u128, b: u128| call_requires(f, (a, b)),
                None => true,
            },
        ensures
            desk_wf(final(self).pending@, final(self).outcomes@),
            final(self).outcomes@ == old(self).outcomes@,
            tool@ == "vaultmesh_request_local_ui"@ || access_granted ==> r is Ok && final(self).pending@ == old(self).pending@,
            tool@ != "vaultmesh_request_local_ui"@ && !access_granted && client_key is None
                ==> (r matches Err(e) && e.code@ == "unknown-client"@) && final(self).pending@ == old(self).pending@,
            tool@ != "vaultmesh_request_local_ui"@ && !access_granted && client_key is Some ==> (r matches Err(e) && (
                (exists|i: int| #[trigger] is_first_joinable(old(self).pending@, old(self).outcomes@, client_id, now_millis, *shares, i)
                    && is_unlock_error(e, old(self).pending@[i].unlock_ref)
                    && final(self).pending@.len() == old(self).pending@.len()
                    && (forall|j: int| 0 <= j < old(self).pending@.len() && j != i ==> final(self).pending@[j] == old(self).pending@[j])
                    && joined_record(old(self).pending@[i], final(self).pending@[i], client_id))
                || (none_joinable(old(self).pending@, old(self).outcomes@, client_id, now_millis, *shares)
                    && is_unlock_error(e, new_ref)
                    && exists|p: PendingUnlockRecord| fresh_record(p, new_ref, client_id, client_key->0@, now_millis)
                        && #[trigger] final(self).pending@ == match record_index(old(self).pending@, new_ref) {
                            Some(k) => old(self).pending@.update(k, p),
                            None => old(self).pending@.push(p),
                        })
            )),
    {
        if !requires_agent_unlock(tool) || access_granted {
            return Ok(());
        }
        let key = match client_key {
            Some(k) => k,
            None => {
                proof {
                    reveal_strlit("unknown-client");
                }
                return Err(AgentBrokerError::new("unknown-client", "The Agent client is not connected.", false));
            },
        };
        let ghost ps = self.pending@;
        let ghost os = self.outcomes@;
        let mut i: usize = 0;
        while i < self.pending.len()
            invariant
                i <= self.pending.len(),
                self.pending@ == ps,
                self.outcomes@ == os,
                ps == old(self).pending@,
                os == old(self).outcomes@,
                tool@ != "vaultmesh_request_local_ui"@,
                !access_granted,
                client_key == Some(key),
                desk_wf(ps, os),
                match *shares {
                    Some(f) => forall|a: u128, b: u128| call_requires(f, (a, b)),
                    None => true,
                },
                forall|j: int| 0 <= j < i ==> !unlock_joinable(os, #[trigger] ps[j], now_millis) || shares_unlock(*shares, ps[j].client_id, client_id, false),
            decreases self.pending.len() - i,
        {
            let owner = self.pending[i].client_id;
            let open = match find_outcome(&self.outcomes, self.pending[i].unlock_ref) {
                Some(_) => false,
                None => self.pending[i].expires_at > now_millis,
            };
            proof {
                if exists|k: int| 0 <= k < os.len() && (#[trigger] os[k]).unlock_ref == ps[i as int].unlock_ref {
                    assert(outcome_of(os, ps[i as int].unlock_ref) is Some);
                }
            }
            assert(open == unlock_joinable(os, ps[i as int], now_millis));
            if open {
                let shared = match shares {
                    Some(f) => f(owner, client_id),
                    None => owner == client_id,
                };
                if shared {
                    assert(is_first_joinable(ps, os, client_id, now_millis, *shares, i as int));
                    let mut rec = self.pending.remove(i);
                    assert(rec == ps[i as int]);
                    assert(record_wf(rec));
                    let ghost ids0 = rec.client_ids@;
                    if !ids_contain(&rec.client_ids, client_id) {
                        rec.client_ids.push(client_id);
                        proof {
                            assert forall|a: int, b: int| 0 <= a < b < rec.client_ids@.len() implies
                                rec.client_ids@[a] != rec.client_ids@[b] by {
                                if b == ids0.len() {
                                    assert(ids0[a] != client_id);
                                } else {
                                    assert(ids0[a] != ids0[b]);
                                }
                            }
                            assert(rec.client_ids@.contains(rec.client_id)) by {
                                let w = choose|w: int| 0 <= w < ids0.len() && ids0[w] == rec.client_id;
                                assert(rec.client_ids@[w] == rec.client_id);
                            }
                        }
                    }
                    let unlock_ref = rec.unlock_ref;
                    proof {
                        assert(rec.client_ids@.no_duplicates());
                        assert(record_wf(rec));
                    }
                    self.pending.insert(i, rec);
                    proof {
                        assert(self.pending@ =~= ps.update(i as int, rec));
                        lemma_same_refs_keep_wf(ps, self.pending@, os);
                    }
                    return Err(agent_unlock_error(unlock_ref));
                }
            }
            i += 1;
        }
        let rec = PendingUnlockRecord {
            unlock_ref: new_ref,
            client_id,
            client_ids: vec![client_id],
            client_key: copy_string(key),
            created_at: now_millis,
            expires_at: now_millis.saturating_add(PAIRING_REQUEST_TTL_MILLIS),
        };
        proof {
            assert(rec.client_ids@ =~= seq![client_id]);
            assert(record_wf(rec));
            assert(fresh_record(rec, new_ref, client_id, key@, now_millis));
        }
        match find_record(&self.pending, new_ref) {
            Some(k) => {
                proof {
                    lemma_record_index_unique(ps, new_ref, k as int);
                }
                self.pending.set(k, rec);
                proof {
                    lemma_same_refs_keep_wf(ps, self.pending@, os);
                }
            },
            None => {
                self.pending.push(rec);
                proof {
                    assert forall|a: int, b: int| 0 <= a < b < self.pending@.len() implies
                        (#[trigger] self.pending@[a]).unlock_ref != (#[trigger] self.pending@[b]).unlock_ref by {
                        if b == ps.len() {
                            assert(ps[a].unlock_ref != new_ref);
                        } else {
                            assert(self.pending@[a] == ps[a]);
                            assert(self.pending@[b] == ps[b]);
                        }
                    }
                }
            },
        }
        Err(agent_unlock_error(new_ref))
    }
}

/// Once the local app resolves an unlock request, every client that shares
/// it and waits before the outcome expires is told the outcome: allowed or
/// denied, whatever its own access state.
pub proof fn law_resolved_unlock_reaches_every_sharing_client(
    ps: Seq<PendingUnlockRecord>,
    os: Seq<UnlockOutcome>,
    r: u128,
    allowed: bool,
    resolved_at: u64,
    client: u128,
    now: u64,
    granted: bool,
)
    requires
        desk_wf(ps, os),
        record_index(ps, r) matches Some(i) && ps[i].client_ids@.contains(client),
        (now as int) < resolved_at + AUTHORIZATION_TTL_MILLIS,
        now < u64::MAX,
    ensures
        spec_unlock_wait(ps, put_outcome(os, resolved_outcome(r, allowed, resolved_at)), Some(r), client, now, granted)
            == if allowed { AgentUnlockWaitOutcome::Allowed } else { AgentUnlockWaitOutcome::Denied },
{
    let o = resolved_outcome(r, allowed, resolved_at);
    let after = put_outcome(os, o);
    if exists|i: int| 0 <= i < os.len() && (#[trigger] os[i]).unlock_ref == r {
        let k = choose|i: int| 0 <= i < os.len() && (#[trigger] os[i]).unlock_ref == r;
        assert(after[k] == o);
        assert forall|a: int, b: int| 0 <= a < b < after.len() implies (#[trigger] after[a]).unlock_ref != (#[trigger] after[b]).unlock_ref by {
            assert(after[a].unlock_ref == os[a].unlock_ref);
            assert(after[b].unlock_ref == os[b].unlock_ref);
        }
        lemma_outcome_of_unique(after, r, k);
    } else {
        let n = os.len() as int;
        assert(after[n] == o);
        assert forall|a: int, b: int| 0 <= a < b < after.len() implies (#[trigger] after[a]).unlock_ref != (#[trigger] after[b]).unlock_ref by {
            if b == n {
                assert(os[a].unlock_ref != r);
            } else {
                assert(after[a] == os[a]);
                assert(after[b] == os[b]);
            }
        }
        lemma_outcome_of_unique(after, r, n);
    }
}

/// A call of a client that does not share an unlock request is never told
/// the request's outcome: for it the request has expired.
pub proof fn law_unlock_outcome_is_client_bound(
    ps: Seq<PendingUnlockRecord>,
    os: Seq<UnlockOutcome>,
    r: u128,
    client: u128,
    now: u64,
    granted: bool,
)
    requires
        desk_wf(ps, os),
        record_index(ps, r) matches Some(i) && !ps[i].client_ids@.contains(client),
    ensures
        spec_unlock_wait(ps, os, Some(r), client, now, granted) == AgentUnlockWaitOutcome::Expired,
{
}

/// A pending unlock request as a mathematical value.
pub struct UnlockRecordView {
    pub unlock_ref: u128,
    pub client_id: u128,
    pub client_ids: Seq<u128>,
    pub client_key: Seq<char>,
    pub created_at: u64,
    pub expires_at: u64,
}

/// The mathematical value of a pending unlock request.
pub open spec fn record_view(p: PendingUnlockRecord) -> UnlockRecordView {
    UnlockRecordView {
        unlock_ref: p.unlock_ref,
        client_id: p.client_id,
        client_ids: p.client_ids@,
        client_key: p.client_key@,
        created_at: p.created_at,
        expires_at: p.expires_at,
    }
}

/// The mathematical values of pending unlock requests.
pub open spec fn records_view(ps: Seq<PendingUnlockRecord>) -> Seq<UnlockRecordView> {
    ps.map_values(|p: PendingUnlockRecord| record_view(p))
}

/// The clients of `ids` that stay: those listed when `keep_listed`, the
/// others otherwise.
pub open spec fn strip_ids(ids: Seq<u128>, list: Seq<u128>, keep_listed: bool) -> Seq<u128>
    decreases ids.len(),
{
    if ids.len() == 0 {
        ids
    } else if list.contains(ids.last()) == keep_listed {
        strip_ids(ids.drop_last(), list, keep_listed).push(ids.last())
    } else {
        strip_ids(ids.drop_last(), list, keep_listed)
    }
}

/// The requests after their clients are filtered (see `strip_ids`): a
/// request left without clients is dropped, as is one expired at `expiry`;
/// a request whose speaking client left is spoken for by its first remaining client.
pub open spec fn filter_records(ps: Seq<UnlockRecordView>, list: Seq<u128>, keep_listed: bool, expiry: Option<u64>) -> Seq<UnlockRecordView>
    decreases ps.len(),
{
    if ps.len() == 0 {
        ps
    } else {
        let rest = filter_records(ps.drop_last(), list, keep_listed, expiry);
        let p = ps.last();
        let ids = strip_ids(p.client_ids, list, keep_listed);
        if ids.len() == 0 || (expiry matches Some(now) && p.expires_at <= now) {
            rest
        } else {
            rest.push(UnlockRecordView {
                client_ids: ids,
                client_id: if ids.contains(p.client_id) { p.client_id } else { ids[0] },
                ..p
            })
        }
    }
}

proof fn lemma_strip_respects(ids: Seq<u128>, list: Seq<u128>, keep: bool)
    ensures
        forall|c: u128| strip_ids(ids, list, keep).contains(c) ==> list.contains(c) == keep,
    decreases ids.len(),
{
    if ids.len() > 0 {
        lemma_strip_respects(ids.drop_last(), list, keep);
        let rest = strip_ids(ids.drop_last(), list, keep);
        assert forall|c: u128| strip_ids(ids, list, keep).contains(c) implies list.contains(c) == keep by {
            if list.contains(ids.last()) == keep {
                let w = choose|w: int| 0 <= w < rest.push(ids.last()).len() && rest.push(ids.last())[w] == c;
                if w < rest.len() {
                    assert(rest.contains(c));
                }
            }
        }
    }
}

proof fn lemma_filter_records_respect(vs: Seq<UnlockRecordView>, list: Seq<u128>, keep: bool, expiry: Option<u64>)
    ensures
        forall|i: int| 0 <= i < filter_records(vs, list, keep, expiry).len() ==>
            (expiry matches Some(now) ==> (#[trigger] filter_records(vs, list, keep, expiry)[i]).expires_at > now)
            && (forall|c: u128| filter_records(vs, list, keep, expiry)[i].client_ids.contains(c) ==> list.contains(c) == keep),
    decreases vs.len(),
{
    if vs.len() > 0 {
        lemma_filter_records_respect(vs.drop_last(), list, keep, expiry);
        lemma_strip_respects(vs.last().client_ids, list, keep);
        let rest = filter_records(vs.drop_last(), list, keep, expiry);
        let all = filter_records(vs, list, keep, expiry);
        assert forall|i: int| 0 <= i < all.len() implies (expiry matches Some(now) ==> (#[trigger] all[i]).expires_at > now)
            && (forall|c: u128| all[i].client_ids.contains(c) ==> list.contains(c) == keep) by {
            if i < rest.len() {
                assert(all[i] == rest[i]);
            }
        }
    }
}

impl UnlockDesk {
    fn filter_clients(&mut self, list: &Vec<u128>, keep_listed: bool, expiry: Option<u64>)
        requires
            desk_wf(old(self).pending@, old(self).outcomes@),
        ensures
            desk_wf(final(self).pending@, final(self).outcomes@),
            final(self).outcomes@ == old(self).outcomes@,
            records_view(final(self).pending@) == filter_records(records_view(old(self).pending@), list@, keep_listed, expiry),
    {
        let ghost orig = self.pending@;
        let ghost ov = records_view(orig);
        let mut rest: Vec<PendingUnlockRecord> = Vec::new();
        std::mem::swap(&mut rest, &mut self.pending);
        let mut k: usize = 0;
        assert(rest@.len() == rest.len());
        while rest.len() > 0
            invariant
                k + rest@.len() == orig.len(),
                orig.len() <= usize::MAX,
                rest@ == orig.skip(k as int),
                ov == records_view(orig),
                desk_wf(orig, self.outcomes@),
                self.outcomes@ == old(self).outcomes@,
                records_view(self.pending@) == filter_records(ov.take(k as int), list@, keep_listed, expiry),
                forall|a: int| 0 <= a < self.pending@.len() ==> record_wf(#[trigger] self.pending@[a]),
                forall|a: int| 0 <= a < self.pending@.len() ==> exists|j: int| 0 <= j < k && orig[j].unlock_ref == (#[trigger] self.pending@[a]).unlock_ref,
                forall|a: int, b: int| 0 <= a < b < self.pending@.len() ==> (#[trigger] self.pending@[a]).unlock_ref != (#[trigger] self.pending@[b]).unlock_ref,
            decreases rest.len(),
        {
            let p = rest.remove(0);
            assert(p == orig[k as int]);
            assert(ov.take(k + 1).drop_last() =~= ov.take(k as int));
            assert(ov.take(k + 1).last() == record_view(p));
            assert(record_wf(p));
            let ghost ids0 = p.client_ids@;
            let mut ids: Vec<u128> = Vec::new();
            let mut m: usize = 0;
            while m < p.client_ids.len()
                invariant
                    m <= p.client_ids@.len(),
                    ids0 == p.client_ids@,
                    ids0.no_duplicates(),
                    ids@ == strip_ids(ids0.take(m as int), list@, keep_listed),
                    forall|a: int| 0 <= a < ids@.len() ==> exists|j: int| 0 <= j < m && ids0[j] == #[trigger] ids@[a],
                    ids@.no_duplicates(),
                decreases p.client_ids@.len() - m,
            {
                let c = p.client_ids[m];
                assert(ids0.take(m + 1).drop_last() =~= ids0.take(m as int));
                assert(ids0.take(m + 1).last() == c);
                if ids_contain(list, c) == keep_listed {
                    let ghost before = ids@;
                    ids.push(c);
                    proof {
                        assert forall|a: int, b: int| 0 <= a < b < ids@.len() implies ids@[a] != ids@[b] by {
                            if b == before.len() {
                                let j = choose|j: int| 0 <= j < m && ids0[j] == #[trigger] before[a];
                                assert(ids0[j] != ids0[m as int]);
                            } else {
                                assert(before[a] != before[b]);
                            }
                        }
                        assert forall|a: int| 0 <= a < ids@.len() implies exists|j: int| 0 <= j < m + 1 && ids0[j] == #[trigger] ids@[a] by {
                            if a == before.len() {
                                assert(ids0[m as int] == ids@[a]);
                            } else {
                                let j = choose|j: int| 0 <= j < m && ids0[j] == #[trigger] before[a];
                                assert(ids0[j] == ids@[a]);
                            }
                        }
                    }
                }
                m += 1;
            }
            assert(ids0.take(ids0.len() as int) =~= ids0);
            let expired = match expiry {
                Some(now) => p.expires_at <= now,
                None => false,
            };
            if ids.len() > 0 && !expired {
                let speaker = if ids_contain(&ids, p.client_id) { p.client_id } else { ids[0] };
                let rec = PendingUnlockRecord {
                    unlock_ref: p.unlock_ref,
                    client_id: speaker,
                    client_ids: ids,
                    client_key: p.client_key,
                    created_at: p.created_at,
                    expires_at: p.expires_at,
                };
                let ghost before = self.pending@;
                proof {
                    if !rec.client_ids@.contains(p.client_id) {
                        assert(rec.client_ids@[0] == speaker);
                    }
                    assert(record_wf(rec));
                }
                self.pending.push(rec);
                proof {
                    assert(records_view(self.pending@) =~= records_view(before).push(record_view(rec)));
                    assert forall|a: int, b: int| 0 <= a < b < self.pending@.len() implies
                        (#[trigger] self.pending@[a]).unlock_ref != (#[trigger] self.pending@[b]).unlock_ref by {
                        if b == before.len() {
                            let j = choose|j: int| 0 <= j < k && orig[j].unlock_ref == (#[trigger] before[a]).unlock_ref;
                            assert(orig[j].unlock_ref != orig[k as int].unlock_ref);
                        } else {
                            assert(before[a].unlock_ref != before[b].unlock_ref);
                        }
                    }
                    assert forall|a: int| 0 <= a < self.pending@.len() implies exists|j: int| 0 <= j < k + 1 && orig[j].unlock_ref == (#[trigger] self.pending@[a]).unlock_ref by {
                        if a == before.len() {
                            assert(orig[k as int].unlock_ref == self.pending@[a].unlock_ref);
                        } else {
                            let j = choose|j: int| 0 <= j < k && orig[j].unlock_ref == (#[trigger] before[a]).unlock_ref;
                            assert(orig[j].unlock_ref == self.pending@[a].unlock_ref);
                        }
                    }
                }
            }
            k += 1;
            assert(rest@ =~= orig.skip(k as int));
        }
        assert(ov.take(orig.len() as int) =~= ov);
    }

    /// Removes clients from every pending unlock request (when their access
    /// is locked again): a request left without clients is dropped, and one
    /// whose speaking client left is spoken for by a remaining client.
    pub fn remove_pending_unlock_clients(&mut self, client_ids: &Vec<u128>)
        requires
            desk_wf(old(self).pending@, old(self).outcomes@),
        ensures
            desk_wf(final(self).pending@, final(self).outcomes@),
            final(self).outcomes@ == old(self).outcomes@,
            records_view(final(self).pending@) == filter_records(records_view(old(self).pending@), client_ids@, false, None),
            forall|i: int, c: u128| 0 <= i < final(self).pending@.len() && #[trigger] final(self).pending@[i].client_ids@.contains(c)
                ==> !client_ids@.contains(c),
    {
        let ghost before = records_view(self.pending@);
        self.filter_clients(client_ids, false, None);
        proof {
            lemma_filter_records_respect(before, client_ids@, false, None);
            assert forall|i: int, c: u128| 0 <= i < self.pending@.len() && #[trigger] self.pending@[i].client_ids@.contains(c)
                implies !client_ids@.contains(c) by {
                assert(records_view(self.pending@)[i] == record_view(self.pending@[i]));
            }
        }
    }

    /// Drops what has expired at `now_millis`: outcomes that expired, with
    /// their requests; clients that are no longer connected; and requests
    /// that expired or were left without clients.
    pub fn prune(&mut self, now_millis: u64, connected_clients: &Vec<u128>)
        requires
            desk_wf(old(self).pending@, old(self).outcomes@),
        ensures
            desk_wf(final(self).pending@, final(self).outcomes@),
            forall|i: int| 0 <= i < final(self).outcomes@.len() ==> (#[trigger] final(self).outcomes@[i]).expires_at > now_millis,
            forall|i: int| 0 <= i < final(self).pending@.len() ==> (#[trigger] final(self).pending@[i]).expires_at > now_millis
                && (forall|c: u128| final(self).pending@[i].client_ids@.contains(c) ==> connected_clients@.contains(c)),
    {
        let mut i: usize = 0;
        while i < self.outcomes.len()
            invariant
                i <= self.outcomes.len(),
                desk_wf(self.pending@, self.outcomes@),
                forall|j: int| 0 <= j < i ==> (#[trigger] self.outcomes@[j]).expires_at > now_millis,
            decreases self.outcomes.len() - i,
        {
            if self.outcomes[i].expires_at <= now_millis {
                let gone = self.outcomes.remove(i);
                match find_record(&self.pending, gone.unlock_ref) {
                    Some(k) => {
                        let ghost before = self.pending@;
                        let _dropped = self.pending.remove(k);
                        proof {
                            assert forall|a: int, b: int| 0 <= a < b < self.pending@.len() implies
                                (#[trigger] self.pending@[a]).unlock_ref != (#[trigger] self.pending@[b]).unlock_ref by {
                                let a0 = if a < k { a } else { a + 1 };
                                let b0 = if b < k { b } else { b + 1 };
                                assert(self.pending@[a] == before[a0]);
                                assert(self.pending@[b] == before[b0]);
                            }
                            assert forall|a: int| 0 <= a < self.pending@.len() implies record_wf(#[trigger] self.pending@[a]) by {
                                let a0 = if a < k { a } else { a + 1 };
                                assert(self.pending@[a] == before[a0]);
                            }
                        }
                    },
                    None => {},
                }
            } else {
                i += 1;
            }
        }
        let ghost before = records_view(self.pending@);
        self.filter_clients(connected_clients, true, Some(now_millis));
        proof {
            lemma_filter_records_respect(before, connected_clients@, true, Some(now_millis));
            assert forall|i: int| 0 <= i < self.pending@.len() implies (#[trigger] self.pending@[i]).expires_at > now_millis
                && (forall|c: u128| self.pending@[i].client_ids@.contains(c) ==> connected_clients@.contains(c)) by {
                assert(records_view(self.pending@)[i] == record_view(self.pending@[i]));
            }
        }
    }
}

/// `answer` is a possible answer of the access check for `client`; with no
/// check, access is never already unlocked.
pub open spec fn access_answer<F: Fn(u128) -> bool>(check: Option<F>, client: u128, answer: bool) -> bool {
    match check {
        None => !answer,
        Some(f) => call_ensures(f, (client,), answer),
    }
}

/// The snapshot of a pending unlock request for the local app.
pub open spec fn is_unlock_snapshot(s: AgentUnlockRequestSnapshot, p: PendingUnlockRecord) -> bool {
    &&& s.unlock_ref@ == uuid_text(p.unlock_ref)
    &&& s.client_id@ == uuid_text(p.client_id)
    &&& s.client_key@ == p.client_key@
    &&& s.created_at == p.created_at
    &&& s.expires_at == p.expires_at
}

impl UnlockDesk {
    /// The unlock request the local app should show at `now_millis`, after
    /// the desk is pruned: among unresolved requests whose client's access is
    /// still locked, the oldest (the first such when several are equally old).
    pub fn pending_unlock_request<F: Fn(u128) -> bool>(
        &mut self,
        now_millis: u64,
        connected_clients: &Vec<u128>,
        access_check: &Option<F>,
    ) -> (r: Option<AgentUnlockRequestSnapshot>)
        requires
            desk_wf(old(self).pending@, old(self).outcomes@),
            match *access_check {
                Some(f) => forall|c: u128| call_requires(f, (c,)),
                None => true,
            },
        ensures
            desk_wf(final(self).pending@, final(self).outcomes@),
            match r {
                Some(s) => exists|i: int| 0 <= i < final(self).pending@.len()
                    && is_unlock_snapshot(s, #[trigger] final(self).pending@[i])
                    && outcome_of(final(self).outcomes@, final(self).pending@[i].unlock_ref) is None
                    && access_answer(*access_check, final(self).pending@[i].client_id, false)
                    && forall|j: int| 0 <= j < final(self).pending@.len() && outcome_of(final(self).outcomes@, (#[trigger] final(self).pending@[j]).unlock_ref) is None
                        ==> access_answer(*access_check, final(self).pending@[j].client_id, true)
                            || final(self).pending@[i].created_at <= final(self).pending@[j].created_at,
                None => forall|j: int| 0 <= j < final(self).pending@.len() && outcome_of(final(self).outcomes@, (#[trigger] final(self).pending@[j]).unlock_ref) is None
                    ==> access_answer(*access_check, final(self).pending@[j].client_id, true),
            },
    {
        self.prune(now_millis, connected_clients);
        let mut best: Option<usize> = None;
        let mut i: usize = 0;
        while i < self.pending.len()
            invariant
                i <= self.pending.len(),
                desk_wf(self.pending@, self.outcomes@),
                match *access_check {
                    Some(f) => forall|c: u128| call_requires(f, (c,)),
                    None => true,
                },
                match best {
                    Some(b) => b < i
                        && outcome_of(self.outcomes@, self.pending@[b as int].unlock_ref) is None
                        && access_answer(*access_check, self.pending@[b as int].client_id, false)
                        && forall|j: int| 0 <= j < i && outcome_of(self.outcomes@, (#[trigger] self.pending@[j]).unlock_ref) is None
                            ==> access_answer(*access_check, self.pending@[j].client_id, true)
                                || self.pending@[b as int].created_at <= self.pending@[j].created_at,
                    None => forall|j: int| 0 <= j < i && outcome_of(self.outcomes@, (#[trigger] self.pending@[j]).unlock_ref) is None
                        ==> access_answer(*access_check, self.pending@[j].client_id, true),
                },
            decreases self.pending.len() - i,
        {
            let unresolved = match find_outcome(&self.outcomes, self.pending[i].unlock_ref) {
                Some(k) => {
                    proof {
                        lemma_outcome_of_unique(self.outcomes@, self.pending@[i as int].unlock_ref, k as int);
                    }
                    false
                },
                None => true,
            };
            if unresolved {
                let unlocked = match access_check {
                    Some(f) => f(self.pending[i].client_id),
                    None => false,
                };
                if !unlocked {
                    let better = match best {
                        Some(b) => self.pending[i].created_at < self.pending[b].created_at,
                        None => true,
                    };
                    if better {
                        best = Some(i);
                    }
                }
            }
            i += 1;
        }
        match best {
            Some(b) => {
                let p = &self.pending[b];
                Some(AgentUnlockRequestSnapshot {
                    unlock_ref: format_uuid(p.unlock_ref),
                    client_id: format_uuid(p.client_id),
                    client_key: p.client_key.clone(),
                    created_at: p.created_at,
                    expires_at: p.expires_at,
                })
            },
            None => None,
        }
    }
}

} // verus!
