//! The broker's state as a whole: the connected clients, their sessions and
//! grants, the approved direct plans, and the open permission and unlock
//! requests; and what disconnecting a client does to all of it.
use vstd::prelude::*;
use crate::active_plans::{law_removed_client_has_no_plans, plans_without_client, ActiveDirectPlans, DirectPlanKey};
use crate::connector::AgentDirectConnectorPolicy;
use crate::direct_ssh::AgentDirectSshPolicy;
use crate::policy::AgentDirectHttpPolicy;
use crate::text::{copy_string, str_eq};
use crate::account_catalog::{controls_absent, free_of_controls};
use crate::authz_rules::{utf8_len, utf8_len_within};
use crate::error::AgentBrokerError;
use crate::model::{PairingState, PeerIdentity};
use crate::policy::{spec_valid_sha256_identity, valid_sha256_identity};
use crate::permission_desk::{ConnectionSession, PermissionDesk};
use crate::policy::{PendingPermission, PermissionGrant};
use crate::unlock::{desk_wf, filter_records, records_view, UnlockDesk};

verus! {

/// The state of the broker: each connected client with its pairing state,
/// the connection sessions, each client's grants, the approved direct
/// plans, the open permission requests and the open unlock requests.
#[derive(Debug)]
pub struct AgentBrokerState {
    pub clients: Vec<BrokerClient>,
    pub sessions: Vec<ConnectionSession>,
    pub grants: Vec<(u128, Vec<PermissionGrant>)>,
    pub plans: ActiveDirectPlans,
    pub permissions: PermissionDesk,
    pub unlocks: UnlockDesk,
}

/// A connected client: its identifier, the key and local user it connected
/// as, and whether it is paired.
#[derive(Clone, Debug)]
pub struct BrokerClient {
    pub client_id: u128,
    pub client_key: String,
    pub user_id: String,
    pub pairing: PairingState,
}

/// Whether a client record belongs to another client.
pub open spec fn not_client_record(client_id: u128) -> spec_fn(BrokerClient) -> bool {
    |e: BrokerClient| e.client_id != client_id
}

/// Whether a session belongs to another client.
pub open spec fn not_client_session(client_id: u128) -> spec_fn(ConnectionSession) -> bool {
    |e: ConnectionSession| e.client_id != client_id
}

/// Whether a grant list belongs to another client.
pub open spec fn not_client_grants(client_id: u128) -> spec_fn((u128, Vec<PermissionGrant>)) -> bool {
    |e: (u128, Vec<PermissionGrant>)| e.0 != client_id
}

/// Whether a permission request belongs to another client.
pub open spec fn not_client_request(client_id: u128) -> spec_fn(PendingPermission) -> bool {
    |e: PendingPermission| e.client_id != client_id
}

fn drop_client_record(es: &mut Vec<BrokerClient>, client_id: u128)
    ensures
        final(es)@ == old(es)@.filter(not_client_record(client_id)),
{
    let ghost original = es@;
    let ghost mut seen: int = 0;
    let mut i: usize = 0;
    assert(original.take(0).filter(not_client_record(client_id)) =~= Seq::empty());
    while i < es.len()
        invariant
            0 <= seen <= original.len(),
            i <= es.len(),
            es@.len() - i == original.len() - seen,
            es@.take(i as int) == original.take(seen).filter(not_client_record(client_id)),
            es@.skip(i as int) == original.skip(seen),
        decreases es.len() - i,
    {
        proof {
            assert(original.take(seen + 1).drop_last() =~= original.take(seen));
            assert(original.take(seen + 1).last() == original[seen]);
            assert(es@[i as int] == original[seen]) by {
                assert(es@.skip(i as int)[0] == original.skip(seen)[0]);
            }
            original.take(seen).lemma_filter_push(original[seen], not_client_record(client_id));
            assert(original.take(seen).push(original[seen]) =~= original.take(seen + 1));
        }
        if es[i].client_id == client_id {
            let ghost before = es@;
            es.remove(i);
            proof {
                assert(es@.take(i as int) =~= before.take(i as int));
                assert(es@.skip(i as int) =~= before.skip(i + 1));
                assert(original.skip(seen + 1) =~= original.skip(seen).drop_first());
                assert(before.skip(i + 1) =~= before.skip(i as int).drop_first());
                seen = seen + 1;
            }
        } else {
            proof {
                assert(es@.take(i + 1) =~= es@.take(i as int).push(es@[i as int]));
                assert(original.skip(seen + 1) =~= original.skip(seen).drop_first());
                assert(es@.skip(i + 1) =~= es@.skip(i as int).drop_first());
                seen = seen + 1;
            }
            i += 1;
        }
    }
    proof {
        assert(es@.take(i as int) =~= es@);
        assert(original.skip(seen).len() == 0);
        assert(original.take(seen) =~= original);
    }
}

fn drop_client_sessions(es: &mut Vec<ConnectionSession>, client_id: u128)
    ensures
        final(es)@ == old(es)@.filter(not_client_session(client_id)),
{
    let ghost original = es@;
    let ghost mut seen: int = 0;
    let mut i: usize = 0;
    assert(original.take(0).filter(not_client_session(client_id)) =~= Seq::empty());
    while i < es.len()
        invariant
            0 <= seen <= original.len(),
            i <= es.len(),
            es@.len() - i == original.len() - seen,
            es@.take(i as int) == original.take(seen).filter(not_client_session(client_id)),
            es@.skip(i as int) == original.skip(seen),
        decreases es.len() - i,
    {
        proof {
            assert(original.take(seen + 1).drop_last() =~= original.take(seen));
            assert(original.take(seen + 1).last() == original[seen]);
            assert(es@[i as int] == original[seen]) by {
                assert(es@.skip(i as int)[0] == original.skip(seen)[0]);
            }
            original.take(seen).lemma_filter_push(original[seen], not_client_session(client_id));
            assert(original.take(seen).push(original[seen]) =~= original.take(seen + 1));
        }
        if es[i].client_id == client_id {
            let ghost before = es@;
            es.remove(i);
            proof {
                assert(es@.take(i as int) =~= before.take(i as int));
                assert(es@.skip(i as int) =~= before.skip(i + 1));
                assert(original.skip(seen + 1) =~= original.skip(seen).drop_first());
                assert(before.skip(i + 1) =~= before.skip(i as int).drop_first());
                seen = seen + 1;
            }
        } else {
            proof {
                assert(es@.take(i + 1) =~= es@.take(i as int).push(es@[i as int]));
                assert(original.skip(seen + 1) =~= original.skip(seen).drop_first());
                assert(es@.skip(i + 1) =~= es@.skip(i as int).drop_first());
                seen = seen + 1;
            }
            i += 1;
        }
    }
    proof {
        assert(es@.take(i as int) =~= es@);
        assert(original.skip(seen).len() == 0);
        assert(original.take(seen) =~= original);
    }
}

fn drop_client_grants(es: &mut Vec<(u128, Vec<PermissionGrant>)>, client_id: u128)
    ensures
        final(es)@ == old(es)@.filter(not_client_grants(client_id)),
{
    let ghost original = es@;
    let ghost mut seen: int = 0;
    let mut i: usize = 0;
    assert(original.take(0).filter(not_client_grants(client_id)) =~= Seq::empty());
    while i < es.len()
        invariant
            0 <= seen <= original.len(),
            i <= es.len(),
            es@.len() - i == original.len() - seen,
            es@.take(i as int) == original.take(seen).filter(not_client_grants(client_id)),
            es@.skip(i as int) == original.skip(seen),
        decreases es.len() - i,
    {
        proof {
            assert(original.take(seen + 1).drop_last() =~= original.take(seen));
            assert(original.take(seen + 1).last() == original[seen]);
            assert(es@[i as int] == original[seen]) by {
                assert(es@.skip(i as int)[0] == original.skip(seen)[0]);
            }
            original.take(seen).lemma_filter_push(original[seen], not_client_grants(client_id));
            assert(original.take(seen).push(original[seen]) =~= original.take(seen + 1));
        }
        if es[i].0 == client_id {
            let ghost before = es@;
            es.remove(i);
            proof {
                assert(es@.take(i as int) =~= before.take(i as int));
                assert(es@.skip(i as int) =~= before.skip(i + 1));
                assert(original.skip(seen + 1) =~= original.skip(seen).drop_first());
                assert(before.skip(i + 1) =~= before.skip(i as int).drop_first());
                seen = seen + 1;
            }
        } else {
            proof {
                assert(es@.take(i + 1) =~= es@.take(i as int).push(es@[i as int]));
                assert(original.skip(seen + 1) =~= original.skip(seen).drop_first());
                assert(es@.skip(i + 1) =~= es@.skip(i as int).drop_first());
                seen = seen + 1;
            }
            i += 1;
        }
    }
    proof {
        assert(es@.take(i as int) =~= es@);
        assert(original.skip(seen).len() == 0);
        assert(original.take(seen) =~= original);
    }
}

fn drop_client_requests(es: &mut Vec<PendingPermission>, client_id: u128)
    ensures
        final(es)@ == old(es)@.filter(not_client_request(client_id)),
{
    let ghost original = es@;
    let ghost mut seen: int = 0;
    let mut i: usize = 0;
    assert(original.take(0).filter(not_client_request(client_id)) =~= Seq::empty());
    while i < es.len()
        invariant
            0 <= seen <= original.len(),
            i <= es.len(),
            es@.len() - i == original.len() - seen,
            es@.take(i as int) == original.take(seen).filter(not_client_request(client_id)),
            es@.skip(i as int) == original.skip(seen),
        decreases es.len() - i,
    {
        proof {
            assert(original.take(seen + 1).drop_last() =~= original.take(seen));
            assert(original.take(seen + 1).last() == original[seen]);
            assert(es@[i as int] == original[seen]) by {
                assert(es@.skip(i as int)[0] == original.skip(seen)[0]);
            }
            original.take(seen).lemma_filter_push(original[seen], not_client_request(client_id));
            assert(original.take(seen).push(original[seen]) =~= original.take(seen + 1));
        }
        if es[i].client_id == client_id {
            let ghost before = es@;
            es.remove(i);
            proof {
                assert(es@.take(i as int) =~= before.take(i as int));
                assert(es@.skip(i as int) =~= before.skip(i + 1));
                assert(original.skip(seen + 1) =~= original.skip(seen).drop_first());
                assert(before.skip(i + 1) =~= before.skip(i as int).drop_first());
                seen = seen + 1;
            }
        } else {
            proof {
                assert(es@.take(i + 1) =~= es@.take(i as int).push(es@[i as int]));
                assert(original.skip(seen + 1) =~= original.skip(seen).drop_first());
                assert(es@.skip(i + 1) =~= es@.skip(i as int).drop_first());
                seen = seen + 1;
            }
            i += 1;
        }
    }
    proof {
        assert(es@.take(i as int) =~= es@);
        assert(original.skip(seen).len() == 0);
        assert(original.take(seen) =~= original);
    }
}

/// `s1` is `s0` after disconnecting `client_id`: the client, its sessions,
/// its grants, its direct plans and its permission requests are gone, it is
/// dropped from every unlock request (a request left with no client goes),
/// and nothing else changes.
pub open spec fn disconnected(s0: AgentBrokerState, s1: AgentBrokerState, client_id: u128) -> bool {
    &&& s1.clients@ == s0.clients@.filter(not_client_record(client_id))
    &&& s1.sessions@ == s0.sessions@.filter(not_client_session(client_id))
    &&& s1.grants@ == s0.grants@.filter(not_client_grants(client_id))
    &&& s1.plans.ssh@ == plans_without_client(s0.plans.ssh@, client_id)
    &&& s1.plans.http@ == plans_without_client(s0.plans.http@, client_id)
    &&& s1.plans.connector@ == plans_without_client(s0.plans.connector@, client_id)
    &&& s1.permissions.requests@ == s0.permissions.requests@.filter(not_client_request(client_id))
    &&& s1.permissions.outcomes@ == s0.permissions.outcomes@
    &&& records_view(s1.unlocks.pending@) == filter_records(records_view(s0.unlocks.pending@), seq![client_id], false, None)
    &&& forall|i: int, c: u128| 0 <= i < s1.unlocks.pending@.len() && #[trigger] s1.unlocks.pending@[i].client_ids@.contains(c)
        ==> c != client_id
    &&& s1.unlocks.outcomes@ == s0.unlocks.outcomes@
    &&& desk_wf(s1.unlocks.pending@, s1.unlocks.outcomes@)
}

impl AgentBrokerState {
    /// Disconnects a client (see `disconnected`).
    pub fn disconnect(&mut self, client_id: u128)
        requires
            desk_wf(old(self).unlocks.pending@, old(self).unlocks.outcomes@),
        ensures
            disconnected(*old(self), *final(self), client_id),
    {
        drop_client_record(&mut self.clients, client_id);
        drop_client_sessions(&mut self.sessions, client_id);
        drop_client_grants(&mut self.grants, client_id);
        self.plans.remove_client(client_id);
        drop_client_requests(&mut self.permissions.requests, client_id);
        let ids = vec![client_id];
        assert(ids@ =~= seq![client_id]);
        self.unlocks.remove_pending_unlock_clients(&ids);
    }
}

impl AgentBrokerState {
    /// Clears the broker: no client, session, grant, plan, permission
    /// request or outcome, and no unlock request or outcome is left.
    pub fn clear(&mut self)
        ensures
            final(self).clients@.len() == 0,
            final(self).sessions@.len() == 0,
            final(self).grants@.len() == 0,
            final(self).plans.ssh@.len() == 0,
            final(self).plans.http@.len() == 0,
            final(self).plans.connector@.len() == 0,
            final(self).permissions.requests@.len() == 0,
            final(self).permissions.outcomes@.len() == 0,
            final(self).unlocks.pending@.len() == 0,
            final(self).unlocks.outcomes@.len() == 0,
            desk_wf(final(self).unlocks.pending@, final(self).unlocks.outcomes@),
    {
        self.clients = Vec::new();
        self.sessions = Vec::new();
        self.grants = Vec::new();
        self.plans.clear();
        self.permissions.requests = Vec::new();
        self.permissions.outcomes = Vec::new();
        self.unlocks.pending = Vec::new();
        self.unlocks.outcomes = Vec::new();
    }
}

/// Disconnecting leaves nothing of the client: no record, session, grant,
/// direct plan or permission request of it remains, and no unlock request
/// still names it.
pub proof fn law_disconnect_leaves_nothing_of_the_client(s0: AgentBrokerState, s1: AgentBrokerState, client_id: u128)
    requires
        disconnected(s0, s1, client_id),
    ensures
        forall|i: int| 0 <= i < s1.clients@.len() ==> (#[trigger] s1.clients@[i]).client_id != client_id,
        forall|i: int| 0 <= i < s1.sessions@.len() ==> (#[trigger] s1.sessions@[i]).client_id != client_id,
        forall|i: int| 0 <= i < s1.grants@.len() ==> (#[trigger] s1.grants@[i]).0 != client_id,
        forall|i: int| 0 <= i < s1.plans.ssh@.len() ==> (#[trigger] s1.plans.ssh@[i]).0.client_id != client_id,
        forall|i: int| 0 <= i < s1.plans.http@.len() ==> (#[trigger] s1.plans.http@[i]).0.client_id != client_id,
        forall|i: int| 0 <= i < s1.plans.connector@.len() ==> (#[trigger] s1.plans.connector@[i]).0.client_id != client_id,
        forall|i: int| 0 <= i < s1.permissions.requests@.len() ==> (#[trigger] s1.permissions.requests@[i]).client_id != client_id,
        forall|i: int| 0 <= i < s1.unlocks.pending@.len() ==> !(#[trigger] s1.unlocks.pending@[i]).client_ids@.contains(client_id),
{
    s0.clients@.filter_lemma(not_client_record(client_id));
    s0.sessions@.filter_lemma(not_client_session(client_id));
    s0.grants@.filter_lemma(not_client_grants(client_id));
    s0.permissions.requests@.filter_lemma(not_client_request(client_id));
    law_removed_client_has_no_plans(s0.plans.ssh@, client_id);
    law_removed_client_has_no_plans(s0.plans.http@, client_id);
    law_removed_client_has_no_plans(s0.plans.connector@, client_id);
}


/// A record of the broker's state that belongs to one client.
pub trait ClientOwned {
    /// The client that the record belongs to.
    spec fn owner(&self) -> u128;

    /// The client that the record belongs to.
    fn owner_id(&self) -> (r: u128)
        ensures
            r == self.owner(),
    ;
}

impl ClientOwned for BrokerClient {
    open spec fn owner(&self) -> u128 {
        self.client_id
    }

    fn owner_id(&self) -> (r: u128) {
        self.client_id
    }
}

impl ClientOwned for ConnectionSession {
    open spec fn owner(&self) -> u128 {
        self.client_id
    }

    fn owner_id(&self) -> (r: u128) {
        self.client_id
    }
}

impl ClientOwned for PendingPermission {
    open spec fn owner(&self) -> u128 {
        self.client_id
    }

    fn owner_id(&self) -> (r: u128) {
        self.client_id
    }
}

impl ClientOwned for (u128, Vec<PermissionGrant>) {
    open spec fn owner(&self) -> u128 {
        self.0
    }

    fn owner_id(&self) -> (r: u128) {
        self.0
    }
}

impl<P> ClientOwned for (DirectPlanKey, P) {
    open spec fn owner(&self) -> u128 {
        self.0.client_id
    }

    fn owner_id(&self) -> (r: u128) {
        self.0.client_id
    }
}

/// Whether a record belongs to none of the clients `ids`.
pub open spec fn not_listed<T: ClientOwned>(ids: Seq<u128>) -> spec_fn(T) -> bool {
    |e: T| !ids.contains(e.owner())
}

fn contains_id(ids: &Vec<u128>, id: u128) -> (r: bool)
    ensures
        r == ids@.contains(id),
{
    let mut i: usize = 0;
    while i < ids.len()
        invariant
            i <= ids.len(),
            forall|k: int| 0 <= k < i ==> ids@[k] != id,
        decreases ids.len() - i,
    {
        if ids[i] == id {
            return true;
        }
        i += 1;
    }
    false
}

fn drop_listed<T: ClientOwned>(es: &mut Vec<T>, ids: &Vec<u128>)
    ensures
        final(es)@ == old(es)@.filter(not_listed::<T>(ids@)),
{
    let ghost original = es@;
    let ghost mut seen: int = 0;
    let mut i: usize = 0;
    assert(original.take(0).filter(not_listed::<T>(ids@)) =~= Seq::empty());
    while i < es.len()
        invariant
            0 <= seen <= original.len(),
            i <= es.len(),
            es@.len() - i == original.len() - seen,
            es@.take(i as int) == original.take(seen).filter(not_listed::<T>(ids@)),
            es@.skip(i as int) == original.skip(seen),
        decreases es.len() - i,
    {
        proof {
            assert(original.take(seen + 1).drop_last() =~= original.take(seen));
            assert(original.take(seen + 1).last() == original[seen]);
            assert(es@[i as int] == original[seen]) by {
                assert(es@.skip(i as int)[0] == original.skip(seen)[0]);
            }
            original.take(seen).lemma_filter_push(original[seen], not_listed::<T>(ids@));
            assert(original.take(seen).push(original[seen]) =~= original.take(seen + 1));
        }
        let owner = es[i].owner_id();
        if contains_id(ids, owner) {
            let ghost before = es@;
            es.remove(i);
            proof {
                assert(es@.take(i as int) =~= before.take(i as int));
                assert(es@.skip(i as int) =~= before.skip(i + 1));
                assert(original.skip(seen + 1) =~= original.skip(seen).drop_first());
                assert(before.skip(i + 1) =~= before.skip(i as int).drop_first());
                seen = seen + 1;
            }
        } else {
            proof {
                assert(es@.take(i + 1) =~= es@.take(i as int).push(es@[i as int]));
                assert(original.skip(seen + 1) =~= original.skip(seen).drop_first());
                assert(es@.skip(i + 1) =~= es@.skip(i as int).drop_first());
                seen = seen + 1;
            }
            i += 1;
        }
    }
    proof {
        assert(es@.take(i as int) =~= es@);
        assert(original.skip(seen).len() == 0);
        assert(original.take(seen) =~= original);
    }
}

/// The client connected with the key `client_key` as the local user `user_id`.
pub open spec fn client_matches(c: BrokerClient, client_key: Seq<char>, user_id: Seq<char>) -> bool {
    c.client_key@ == client_key && c.user_id@ == user_id
}

/// The identifiers of the clients connected with the key `client_key` as
/// the local user `user_id`, in the order of `cs`.
pub open spec fn matching_client_ids(cs: Seq<BrokerClient>, client_key: Seq<char>, user_id: Seq<char>) -> Seq<u128>
    decreases cs.len(),
{
    if cs.len() == 0 {
        Seq::empty()
    } else {
        let rest = matching_client_ids(cs.drop_last(), client_key, user_id);
        if client_matches(cs.last(), client_key, user_id) {
            rest.push(cs.last().client_id)
        } else {
            rest
        }
    }
}

/// `s1` is `s0` after revoking the clients `ids`: their records, sessions,
/// grants, direct plans and permission requests are gone, and nothing else
/// changes.
pub open spec fn revoked(s0: AgentBrokerState, s1: AgentBrokerState, ids: Seq<u128>) -> bool {
    &&& s1.clients@ == s0.clients@.filter(not_listed::<BrokerClient>(ids))
    &&& s1.sessions@ == s0.sessions@.filter(not_listed::<ConnectionSession>(ids))
    &&& s1.grants@ == s0.grants@.filter(not_listed::<(u128, Vec<PermissionGrant>)>(ids))
    &&& s1.plans.ssh@ == s0.plans.ssh@.filter(not_listed::<(DirectPlanKey, AgentDirectSshPolicy)>(ids))
    &&& s1.plans.http@ == s0.plans.http@.filter(not_listed::<(DirectPlanKey, AgentDirectHttpPolicy)>(ids))
    &&& s1.plans.connector@ == s0.plans.connector@.filter(not_listed::<(DirectPlanKey, AgentDirectConnectorPolicy)>(ids))
    &&& s1.permissions.requests@ == s0.permissions.requests@.filter(not_listed::<PendingPermission>(ids))
    &&& s1.permissions.outcomes@ == s0.permissions.outcomes@
    &&& s1.unlocks.pending@ == s0.unlocks.pending@
    &&& s1.unlocks.outcomes@ == s0.unlocks.outcomes@
}

impl AgentBrokerState {
    /// Revokes every client connected with the key `client_key` as the local
    /// user `user_id` (see `revoked`), and returns their identifiers.
    pub fn revoke_clients(&mut self, client_key: &str, user_id: &str) -> (ids: Vec<u128>)
        ensures
            ids@ == matching_client_ids(old(self).clients@, client_key@, user_id@),
            revoked(*old(self), *final(self), ids@),
    {
        let mut ids: Vec<u128> = Vec::new();
        let mut i: usize = 0;
        while i < self.clients.len()
            invariant
                i <= self.clients.len(),
                ids@ == matching_client_ids(self.clients@.take(i as int), client_key@, user_id@),
            decreases self.clients.len() - i,
        {
            proof {
                assert(self.clients@.take(i + 1).drop_last() =~= self.clients@.take(i as int));
            }
            if str_eq(self.clients[i].client_key.as_str(), client_key) && str_eq(self.clients[i].user_id.as_str(), user_id) {
                ids.push(self.clients[i].client_id);
            }
            i += 1;
        }
        assert(self.clients@.take(i as int) =~= self.clients@);
        drop_listed(&mut self.clients, &ids);
        drop_listed(&mut self.sessions, &ids);
        drop_listed(&mut self.grants, &ids);
        drop_listed(&mut self.plans.ssh, &ids);
        drop_listed(&mut self.plans.http, &ids);
        drop_listed(&mut self.plans.connector, &ids);
        drop_listed(&mut self.permissions.requests, &ids);
        ids
    }
}

proof fn lemma_matching_client_listed(cs: Seq<BrokerClient>, client_key: Seq<char>, user_id: Seq<char>, i: int)
    requires
        0 <= i < cs.len(),
        client_matches(cs[i], client_key, user_id),
    ensures
        matching_client_ids(cs, client_key, user_id).contains(cs[i].client_id),
    decreases cs.len(),
{
    let ids = matching_client_ids(cs, client_key, user_id);
    if i == cs.len() - 1 {
        assert(ids.last() == cs[i].client_id);
        assert(ids[ids.len() - 1] == cs[i].client_id);
    } else {
        lemma_matching_client_listed(cs.drop_last(), client_key, user_id, i);
        let rest = matching_client_ids(cs.drop_last(), client_key, user_id);
        let k = choose|k: int| 0 <= k < rest.len() && rest[k] == cs[i].client_id;
        if client_matches(cs.last(), client_key, user_id) {
            assert(ids[k] == rest[k]);
        }
        assert(ids[k] == cs[i].client_id);
    }
}

/// Revoking an identity leaves nothing of its clients: no client connected
/// with that key as that user remains, and no session, grant, direct plan or
/// permission request of a revoked client remains.
pub proof fn law_revoke_leaves_nothing_of_the_identity(
    s0: AgentBrokerState,
    s1: AgentBrokerState,
    client_key: Seq<char>,
    user_id: Seq<char>,
)
    requires
        revoked(s0, s1, matching_client_ids(s0.clients@, client_key, user_id)),
    ensures
        forall|i: int| 0 <= i < s1.clients@.len() ==> !client_matches(#[trigger] s1.clients@[i], client_key, user_id),
        forall|i: int| 0 <= i < s1.sessions@.len()
            ==> !matching_client_ids(s0.clients@, client_key, user_id).contains((#[trigger] s1.sessions@[i]).client_id),
        forall|i: int| 0 <= i < s1.grants@.len()
            ==> !matching_client_ids(s0.clients@, client_key, user_id).contains((#[trigger] s1.grants@[i]).0),
        forall|i: int| 0 <= i < s1.plans.ssh@.len()
            ==> !matching_client_ids(s0.clients@, client_key, user_id).contains((#[trigger] s1.plans.ssh@[i]).0.client_id),
        forall|i: int| 0 <= i < s1.plans.http@.len()
            ==> !matching_client_ids(s0.clients@, client_key, user_id).contains((#[trigger] s1.plans.http@[i]).0.client_id),
        forall|i: int| 0 <= i < s1.plans.connector@.len()
            ==> !matching_client_ids(s0.clients@, client_key, user_id).contains((#[trigger] s1.plans.connector@[i]).0.client_id),
        forall|i: int| 0 <= i < s1.permissions.requests@.len()
            ==> !matching_client_ids(s0.clients@, client_key, user_id).contains((#[trigger] s1.permissions.requests@[i]).client_id),
{
    let ids = matching_client_ids(s0.clients@, client_key, user_id);
    s0.clients@.filter_lemma(not_listed::<BrokerClient>(ids));
    s0.sessions@.filter_lemma(not_listed::<ConnectionSession>(ids));
    s0.grants@.filter_lemma(not_listed::<(u128, Vec<PermissionGrant>)>(ids));
    s0.plans.ssh@.filter_lemma(not_listed::<(DirectPlanKey, AgentDirectSshPolicy)>(ids));
    s0.plans.http@.filter_lemma(not_listed::<(DirectPlanKey, AgentDirectHttpPolicy)>(ids));
    s0.plans.connector@.filter_lemma(not_listed::<(DirectPlanKey, AgentDirectConnectorPolicy)>(ids));
    s0.permissions.requests@.filter_lemma(not_listed::<PendingPermission>(ids));
    assert forall|i: int| 0 <= i < s1.clients@.len() implies !client_matches(#[trigger] s1.clients@[i], client_key, user_id) by {
        let c = s1.clients@[i];
        assert(s1.clients@.contains(c));
        s0.clients@.lemma_filter_contains_rev(not_listed::<BrokerClient>(ids), c);
        assert(!ids.contains(c.client_id));
        let j = choose|j: int| 0 <= j < s0.clients@.len() && s0.clients@[j] == c;
        if client_matches(c, client_key, user_id) {
            lemma_matching_client_listed(s0.clients@, client_key, user_id, j);
        }
    }
}


/// The most clients, and the most pending pairing requests, at once.
pub const MAX_CLIENTS: usize = 32;

/// How long a pairing request waits for approval.
pub const PAIRING_REQUEST_TTL_MILLIS: u64 = 600000;

/// A connecting client's identity is acceptable: its key is well formed
/// (`client_key_valid`), the path of its executable is at most 4096 bytes
/// without a control character, and the executable's identity is a SHA-256
/// identity (see `executable_identity`).
pub open spec fn client_identity_valid(client_key_valid: bool, peer: PeerIdentity) -> bool {
    &&& client_key_valid
    &&& utf8_len(peer.executable@) <= 4096
    &&& free_of_controls(peer.executable@)
    &&& spec_valid_sha256_identity(peer.binary_identity@)
}

/// Decides how a connecting client is let in, given the number of clients,
/// whether its key is well formed, whether a pairing proof for its key and
/// user is stored (`paired`), whether a pairing request for them is already
/// waiting, and how many are. A full broker or a bad identity is refused
/// (`invalid-client`); a new pairing request beyond the limit too
/// (`too-many-pairing-requests`, retryable); otherwise the client is paired
/// when a proof is stored, else it waits for pairing.
pub fn client_pairing_state(
    client_count: usize,
    client_key_valid: bool,
    peer: &PeerIdentity,
    paired: bool,
    pairing_waiting: bool,
    waiting_count: usize,
) -> (r: Result<PairingState, AgentBrokerError>)
    ensures
        if client_count >= MAX_CLIENTS || !client_identity_valid(client_key_valid, *peer) {
            r matches Err(e) && e.code@ == "invalid-client"@ && !e.retryable
        } else if !paired && !pairing_waiting && waiting_count >= MAX_CLIENTS {
            r matches Err(e) && e.code@ == "too-many-pairing-requests"@ && e.retryable
        } else {
            r == Ok::<PairingState, AgentBrokerError>(if paired { PairingState::Paired } else { PairingState::Pending })
        },
{
    proof {
        reveal_strlit("invalid-client");
        reveal_strlit("too-many-pairing-requests");
    }
    if client_count >= MAX_CLIENTS || !client_key_valid || !utf8_len_within(peer.executable.as_str(), 4096)
        || !controls_absent(peer.executable.as_str()) || !valid_sha256_identity(peer.binary_identity.as_str()) {
        return Err(AgentBrokerError::new("invalid-client", "The local Agent client identity is invalid.", false));
    }
    if !paired && !pairing_waiting && waiting_count >= MAX_CLIENTS {
        return Err(AgentBrokerError::new("too-many-pairing-requests", "Too many Agent pairing requests are pending.", true));
    }
    Ok(if paired { PairingState::Paired } else { PairingState::Pending })
}

impl AgentBrokerState {
    /// Registers a connecting client under `client_id`: decides its pairing
    /// state as `client_pairing_state` does with the clients connected now,
    /// and on success adds the client's record (its key, its user and that
    /// state) after the others; on an error nothing changes.
    pub fn register_client(
        &mut self,
        client_id: u128,
        client_key: &str,
        client_key_valid: bool,
        peer: &PeerIdentity,
        paired: bool,
        pairing_waiting: bool,
        waiting_count: usize,
    ) -> (r: Result<PairingState, AgentBrokerError>)
        ensures
            if old(self).clients@.len() >= MAX_CLIENTS || !client_identity_valid(client_key_valid, *peer) {
                r matches Err(e) && e.code@ == "invalid-client"@ && !e.retryable
            } else if !paired && !pairing_waiting && waiting_count >= MAX_CLIENTS {
                r matches Err(e) && e.code@ == "too-many-pairing-requests"@ && e.retryable
            } else {
                r == Ok::<PairingState, AgentBrokerError>(if paired { PairingState::Paired } else { PairingState::Pending })
            },
            match r {
                Ok(state) => {
                    &&& final(self).clients@.len() == old(self).clients@.len() + 1
                    &&& final(self).clients@.drop_last() == old(self).clients@
                    &&& final(self).clients@.last().client_id == client_id
                    &&& final(self).clients@.last().client_key@ == client_key@
                    &&& final(self).clients@.last().user_id@ == peer.user_id@
                    &&& final(self).clients@.last().pairing == state
                    &&& final(self).sessions@ == old(self).sessions@
                    &&& final(self).grants@ == old(self).grants@
                    &&& final(self).plans == old(self).plans
                    &&& final(self).permissions == old(self).permissions
                    &&& final(self).unlocks == old(self).unlocks
                },
                Err(_) => *final(self) == *old(self),
            },
    {
        let state = client_pairing_state(self.clients.len(), client_key_valid, peer, paired, pairing_waiting, waiting_count)?;
        let record = BrokerClient {
            client_id,
            client_key: copy_string(client_key),
            user_id: copy_string(peer.user_id.as_str()),
            pairing: state,
        };
        self.clients.push(record);
        assert(self.clients@.drop_last() =~= old(self).clients@);
        Ok(state)
    }
}

} // verus!
