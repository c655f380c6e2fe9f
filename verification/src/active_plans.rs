//! The approved direct plans that wait for their action: each is kept under
//! the client, account, tool and canonical parameters that it was approved
//! for, and the action runs only with the plan stored under its own key.
use vstd::prelude::*;
use crate::connector::{clone_tunnel, AgentDirectConnectorPolicy};
use crate::direct_ssh::AgentDirectSshPolicy;
use crate::error::AgentBrokerError;
use crate::ids::uuid_parse;
use crate::model::{AgentRegistry, PermissionRequestSnapshot};
use crate::permission_desk::{has_request, is_permission_snapshot, is_request_index, live_outcomes, live_requests, permission_snapshot, PermissionDesk};
use crate::policy::{opt_view, AgentDirectHttpPolicy, AgentHttpOperationPolicy, PendingPermission};
use crate::text::{copy_string, str_eq};

verus! {

broadcast use vstd::string::group_string_axioms;

/// The key of an approved direct plan.
#[derive(Debug)]
pub struct DirectPlanKey {
    pub client_id: u128,
    pub account_ref: String,
    pub tool: String,
    pub parameters_digest: String,
}

/// A plan key as plain values.
pub open spec fn key_view(k: DirectPlanKey) -> (u128, Seq<char>, Seq<char>, Seq<char>) {
    (k.client_id, k.account_ref@, k.tool@, k.parameters_digest@)
}

/// The approved direct plans of all clients.
#[derive(Debug)]
pub struct ActiveDirectPlans {
    pub ssh: Vec<(DirectPlanKey, AgentDirectSshPolicy)>,
    pub http: Vec<(DirectPlanKey, AgentDirectHttpPolicy)>,
    pub connector: Vec<(DirectPlanKey, AgentDirectConnectorPolicy)>,
}

// ----------------------------------------------------------------------------
// Specification
// ----------------------------------------------------------------------------

/// The index of the plan stored under `k`.
pub open spec fn plan_index<P>(es: Seq<(DirectPlanKey, P)>, k: (u128, Seq<char>, Seq<char>, Seq<char>)) -> Option<int>
    decreases es.len(),
{
    if es.len() == 0 {
        None
    } else {
        match plan_index(es.drop_last(), k) {
            Some(i) => Some(i),
            None => if key_view(es.last().0) == k {
                Some(es.len() - 1)
            } else {
                None
            },
        }
    }
}

/// The plans after `plan` is stored under `key`, replacing a plan stored
/// under the same key.
pub open spec fn spec_store_plan<P>(es: Seq<(DirectPlanKey, P)>, key: DirectPlanKey, plan: P) -> Seq<(DirectPlanKey, P)> {
    match plan_index(es, key_view(key)) {
        Some(i) => es.update(i, (key, plan)),
        None => es.push((key, plan)),
    }
}

/// The plans of clients other than `client`.
pub open spec fn plans_without_client<P>(es: Seq<(DirectPlanKey, P)>, client: u128) -> Seq<(DirectPlanKey, P)> {
    es.filter(|e: (DirectPlanKey, P)| e.0.client_id != client)
}

/// Two SSH plans with the same content.
pub open spec fn same_ssh_plan(a: AgentDirectSshPolicy, b: AgentDirectSshPolicy) -> bool {
    &&& a.account_ref == b.account_ref
    &&& a.account_label == b.account_label
    &&& a.environment == b.environment
    &&& a.tool == b.tool
    &&& a.risk == b.risk
    &&& a.action_display == b.action_display
    &&& a.host == b.host
    &&& a.port == b.port
    &&& a.username == b.username
    &&& a.host_key_sha256 == b.host_key_sha256
    &&& a.target_digest == b.target_digest
    &&& a.approved_display == b.approved_display
    &&& a.max_output_bytes == b.max_output_bytes
    &&& a.remote_path_prefixes@ == b.remote_path_prefixes@
    &&& a.connector_ref == b.connector_ref
    &&& a.tunnel == b.tunnel
}

/// Two HTTP plans with the same content.
pub open spec fn same_http_plan(a: AgentDirectHttpPolicy, b: AgentDirectHttpPolicy) -> bool {
    &&& a.account_ref == b.account_ref
    &&& a.account_label == b.account_label
    &&& a.environment == b.environment
    &&& a.item_kind == b.item_kind
    &&& a.credential_kind == b.credential_kind
    &&& a.origin == b.origin
    &&& a.auth_strategy == b.auth_strategy
    &&& a.operation.name == b.operation.name
    &&& a.operation.method == b.operation.method
    &&& a.operation.path == b.operation.path
    &&& a.operation.request_fields@ == b.operation.request_fields@
    &&& a.operation.response_fields@ == b.operation.response_fields@
    &&& a.operation.request_mode == b.operation.request_mode
    &&& a.operation.response_mode == b.operation.response_mode
    &&& a.operation.risk == b.operation.risk
    &&& a.target_digest == b.target_digest
    &&& a.approved_display == b.approved_display
    &&& a.allowed_output_fields@ == b.allowed_output_fields@
    &&& a.max_output_bytes == b.max_output_bytes
    &&& a.max_output_items == b.max_output_items
}

/// The key of the plan of a request.
pub open spec fn request_key(p: PendingPermission) -> (u128, Seq<char>, Seq<char>, Seq<char>) {
    (p.client_id, p.account_ref@, p.tool@, opt_view(p.parameters_digest)->0)
}

/// `after` is `before` with the direct plan of `p` stored under its key.
pub open spec fn plan_stored(before: ActiveDirectPlans, after: ActiveDirectPlans, p: PendingPermission) -> bool {
    if p.direct_ssh_policy is Some {
        &&& after.http@ == before.http@
        &&& after.connector@ == before.connector@
        &&& stored_with(before.ssh@, after.ssh@, request_key(p), |x: AgentDirectSshPolicy| same_ssh_plan(x, p.direct_ssh_policy->0))
    } else if p.direct_http_policy is Some {
        &&& after.ssh@ == before.ssh@
        &&& after.connector@ == before.connector@
        &&& stored_with(before.http@, after.http@, request_key(p), |x: AgentDirectHttpPolicy| same_http_plan(x, p.direct_http_policy->0))
    } else {
        &&& after.ssh@ == before.ssh@
        &&& after.http@ == before.http@
        &&& stored_with(before.connector@, after.connector@, request_key(p), |x: AgentDirectConnectorPolicy| x == p.direct_connector_policy->0)
    }
}

/// `after` is `before` with a plan satisfying `is_plan` stored under `k`.
pub open spec fn stored_with<P>(
    before: Seq<(DirectPlanKey, P)>,
    after: Seq<(DirectPlanKey, P)>,
    k: (u128, Seq<char>, Seq<char>, Seq<char>),
    is_plan: spec_fn(P) -> bool,
) -> bool {
    match plan_index(before, k) {
        Some(i) => after.len() == before.len() && key_view(after[i].0) == k && is_plan(after[i].1)
            && forall|j: int| 0 <= j < before.len() && j != i ==> after[j] == before[j],
        None => after.len() == before.len() + 1 && after.drop_last() == before && key_view(after.last().0) == k
            && is_plan(after.last().1),
    }
}

// ----------------------------------------------------------------------------
// Executable functions
// ----------------------------------------------------------------------------

fn same_key(k: &DirectPlanKey, client_id: u128, account_ref: &str, tool: &str, digest: &str) -> (r: bool)
    ensures
        r == (key_view(*k) == (client_id, account_ref@, tool@, digest@)),
{
    k.client_id == client_id && str_eq(k.account_ref.as_str(), account_ref) && str_eq(k.tool.as_str(), tool) && str_eq(
        k.parameters_digest.as_str(),
        digest,
    )
}

fn find_plan<P>(es: &Vec<(DirectPlanKey, P)>, client_id: u128, account_ref: &str, tool: &str, digest: &str) -> (r: Option<usize>)
    ensures
        match r {
            Some(i) => i < es.len() && plan_index(es@, (client_id, account_ref@, tool@, digest@)) == Some(i as int),
            None => plan_index(es@, (client_id, account_ref@, tool@, digest@)) is None,
        },
{
    let ghost k = (client_id, account_ref@, tool@, digest@);
    let mut i: usize = 0;
    while i < es.len()
        invariant
            i <= es.len(),
            k == (client_id, account_ref@, tool@, digest@),
            plan_index(es@.take(i as int), k) is None,
        decreases es.len() - i,
    {
        assert(es@.take(i + 1).drop_last() =~= es@.take(i as int));
        if same_key(&es[i].0, client_id, account_ref, tool, digest) {
            proof {
                lemma_plan_index_prefix(es@, k, i as int);
            }
            return Some(i);
        }
        i += 1;
    }
    assert(es@.take(es@.len() as int) =~= es@);
    None
}

proof fn lemma_plan_index_prefix<P>(es: Seq<(DirectPlanKey, P)>, k: (u128, Seq<char>, Seq<char>, Seq<char>), i: int)
    requires
        0 <= i < es.len(),
        plan_index(es.take(i), k) is None,
        key_view(es[i].0) == k,
    ensures
        plan_index(es, k) == Some(i),
    decreases es.len(),
{
    assert(es.take(i + 1).drop_last() =~= es.take(i));
    if i + 1 < es.len() {
        assert(es.drop_last().take(i) =~= es.take(i));
        lemma_plan_index_prefix(es.drop_last(), k, i);
    } else {
        assert(es.drop_last() =~= es.take(i));
    }
}

proof fn lemma_plan_index_valid<P>(es: Seq<(DirectPlanKey, P)>, k: (u128, Seq<char>, Seq<char>, Seq<char>))
    ensures
        plan_index(es, k) matches Some(i) ==> 0 <= i < es.len() && key_view(es[i].0) == k,
    decreases es.len(),
{
    if es.len() > 0 {
        lemma_plan_index_valid(es.drop_last(), k);
    }
}

fn store_plan<P>(es: &mut Vec<(DirectPlanKey, P)>, key: DirectPlanKey, plan: P)
    ensures
        final(es)@ == spec_store_plan(old(es)@, key, plan),
        plan_index(old(es)@, key_view(key)) matches Some(i) ==> 0 <= i < old(es)@.len(),
{
    proof {
        lemma_plan_index_valid(es@, key_view(key));
    }
    match find_plan(es, key.client_id, key.account_ref.as_str(), key.tool.as_str(), key.parameters_digest.as_str()) {
        Some(i) => {
            es.set(i, (key, plan));
        },
        None => {
            es.push((key, plan));
        },
    }
}

fn drop_client_plans<P>(es: &mut Vec<(DirectPlanKey, P)>, client_id: u128)
    ensures
        final(es)@ == plans_without_client(old(es)@, client_id),
{
    let ghost original = es@;
    let ghost mut seen: int = 0;
    let mut i: usize = 0;
    assert(original.take(0).filter(|e: (DirectPlanKey, P)| e.0.client_id != client_id) =~= Seq::empty());
    while i < es.len()
        invariant
            0 <= seen <= original.len(),
            i <= es.len(),
            es@.len() - i == original.len() - seen,
            es@.take(i as int) == original.take(seen).filter(|e: (DirectPlanKey, P)| e.0.client_id != client_id),
            es@.skip(i as int) == original.skip(seen),
        decreases es.len() - i,
    {
        proof {
            assert(original.take(seen + 1).drop_last() =~= original.take(seen));
            assert(original.take(seen + 1).last() == original[seen]);
            assert(es@[i as int] == original[seen]) by {
                assert(es@.skip(i as int)[0] == original.skip(seen)[0]);
            }
            original.take(seen).lemma_filter_push(original[seen], |e: (DirectPlanKey, P)| e.0.client_id != client_id);
            assert(original.take(seen).push(original[seen]) =~= original.take(seen + 1));
        }
        if es[i].0.client_id == client_id {
            let ghost before = es@;
            es.remove(i);
            proof {
                assert(es@.take(i as int) =~= before.take(i as int));
                assert(es@.skip(i as int) =~= before.skip(i + 1));
                assert(original.skip(seen + 1) =~= original.skip(seen).drop_first());
                assert(before.skip(i + 1) =~= before.skip(i as int).drop_first());
                seen = seen + 1;
            }
        } else {
            proof {
                assert(es@.take(i + 1) =~= es@.take(i as int).push(es@[i as int]));
                assert(original.skip(seen + 1) =~= original.skip(seen).drop_first());
                assert(es@.skip(i + 1) =~= es@.skip(i as int).drop_first());
                seen = seen + 1;
            }
            i += 1;
        }
    }
    proof {
        assert(es@.take(i as int) =~= es@);
        assert(original.skip(seen).len() == 0);
        assert(original.take(seen) =~= original);
    }
}

fn clone_strings(v: &Vec<String>) -> (r: Vec<String>)
    ensures
        r@ == v@,
{
    let mut out: Vec<String> = Vec::new();
    let mut i: usize = 0;
    while i < v.len()
        invariant
            i <= v.len(),
            out@ == v@.take(i as int),
        decreases v.len() - i,
    {
        out.push(v[i].clone());
        assert(out@ =~= v@.take(i + 1));
        i += 1;
    }
    assert(v@.take(v@.len() as int) =~= v@);
    out
}

fn copy_ssh_plan(p: &AgentDirectSshPolicy) -> (r: AgentDirectSshPolicy)
    ensures
        same_ssh_plan(r, *p),
{
    AgentDirectSshPolicy {
        account_ref: p.account_ref,
        account_label: p.account_label.clone(),
        environment: p.environment.clone(),
        tool: p.tool.clone(),
        risk: p.risk.clone(),
        action_display: p.action_display.clone(),
        host: p.host.clone(),
        port: p.port,
        username: p.username.clone(),
        host_key_sha256: p.host_key_sha256.clone(),
        target_digest: p.target_digest.clone(),
        approved_display: p.approved_display.clone(),
        max_output_bytes: p.max_output_bytes,
        remote_path_prefixes: clone_strings(&p.remote_path_prefixes),
        connector_ref: p.connector_ref,
        tunnel: match &p.tunnel {
            Some(t) => Some(clone_tunnel(t)),
            None => None,
        },
    }
}

fn copy_http_plan(p: &AgentDirectHttpPolicy) -> (r: AgentDirectHttpPolicy)
    ensures
        same_http_plan(r, *p),
{
    AgentDirectHttpPolicy {
        account_ref: p.account_ref,
        account_label: p.account_label.clone(),
        environment: p.environment.clone(),
        item_kind: p.item_kind.clone(),
        credential_kind: p.credential_kind,
        origin: p.origin.clone(),
        auth_strategy: p.auth_strategy,
        operation: AgentHttpOperationPolicy {
            name: p.operation.name.clone(),
            method: p.operation.method.clone(),
            path: p.operation.path.clone(),
            request_fields: clone_strings(&p.operation.request_fields),
            response_fields: clone_strings(&p.operation.response_fields),
            request_mode: p.operation.request_mode,
            response_mode: p.operation.response_mode,
            risk: p.operation.risk,
        },
        target_digest: p.target_digest.clone(),
        approved_display: p.approved_display.clone(),
        allowed_output_fields: clone_strings(&p.allowed_output_fields),
        max_output_bytes: p.max_output_bytes,
        max_output_items: p.max_output_items,
    }
}

fn clone_opt(o: &Option<String>) -> (r: Option<String>)
    ensures
        r == *o,
{
    match o {
        Some(s) => Some(s.clone()),
        None => None,
    }
}

fn copy_connector_plan(p: &AgentDirectConnectorPolicy) -> (r: AgentDirectConnectorPolicy)
    ensures
        r == *p,
{
    AgentDirectConnectorPolicy {
        connector_ref: p.connector_ref,
        account_ref: p.account_ref,
        account_label: p.account_label.clone(),
        environment: p.environment.clone(),
        connector_kind: p.connector_kind.clone(),
        tool: p.tool.clone(),
        operation: clone_opt(&p.operation),
        risk: p.risk.clone(),
        action_display: p.action_display.clone(),
        approved_display: p.approved_display.clone(),
        target_digest: p.target_digest.clone(),
    }
}

impl ActiveDirectPlans {
    /// No approved plans.
    pub fn new() -> (r: Self)
        ensures
            r.ssh@.len() == 0,
            r.http@.len() == 0,
            r.connector@.len() == 0,
    {
        ActiveDirectPlans { ssh: Vec::new(), http: Vec::new(), connector: Vec::new() }
    }

    /// Stores the direct plan of an approved request under its client,
    /// account, tool and canonical parameters; a request without a direct
    /// plan or without parameters is refused as a broker fault.
    pub fn store_request_plan(&mut self, request: &PendingPermission) -> (r: Result<(), AgentBrokerError>)
        ensures
            if (request.direct_ssh_policy is Some || request.direct_http_policy is Some || request.direct_connector_policy is Some)
                && request.parameters_digest is Some {
                r is Ok && plan_stored(*old(self), *final(self), *request)
            } else {
                r matches Err(e) && e.code@ == "broker-unavailable"@ && final(self).ssh@ == old(self).ssh@
                    && final(self).http@ == old(self).http@ && final(self).connector@ == old(self).connector@
            },
    {
        let digest = match &request.parameters_digest {
            Some(d) => d,
            None => return Err(AgentBrokerError::internal()),
        };
        let key = DirectPlanKey {
            client_id: request.client_id,
            account_ref: copy_string(request.account_ref.as_str()),
            tool: copy_string(request.tool.as_str()),
            parameters_digest: copy_string(digest.as_str()),
        };
        if let Some(p) = &request.direct_ssh_policy {
            let plan = copy_ssh_plan(p);
            let ghost before = self.ssh@;
            store_plan(&mut self.ssh, key, plan);
            proof {
                if plan_index(before, request_key(*request)) is None {
                    assert(self.ssh@.drop_last() =~= before);
                }
            }
            Ok(())
        } else if let Some(p) = &request.direct_http_policy {
            let plan = copy_http_plan(p);
            let ghost before = self.http@;
            store_plan(&mut self.http, key, plan);
            proof {
                if plan_index(before, request_key(*request)) is None {
                    assert(self.http@.drop_last() =~= before);
                }
            }
            Ok(())
        } else if let Some(p) = &request.direct_connector_policy {
            let plan = copy_connector_plan(p);
            let ghost before = self.connector@;
            store_plan(&mut self.connector, key, plan);
            proof {
                if plan_index(before, request_key(*request)) is None {
                    assert(self.connector@.drop_last() =~= before);
                }
            }
            Ok(())
        } else {
            Err(AgentBrokerError::internal())
        }
    }

    /// Drops the approved plans of a client.
    pub fn remove_client(&mut self, client_id: u128)
        ensures
            final(self).ssh@ == plans_without_client(old(self).ssh@, client_id),
            final(self).http@ == plans_without_client(old(self).http@, client_id),
            final(self).connector@ == plans_without_client(old(self).connector@, client_id),
    {
        drop_client_plans(&mut self.ssh, client_id);
        drop_client_plans(&mut self.http, client_id);
        drop_client_plans(&mut self.connector, client_id);
    }

    /// Drops every approved plan.
    pub fn clear(&mut self)
        ensures
            final(self).ssh@.len() == 0,
            final(self).http@.len() == 0,
            final(self).connector@.len() == 0,
    {
        self.ssh = Vec::new();
        self.http = Vec::new();
        self.connector = Vec::new();
    }

    /// Whether some plan is stored under the key.
    pub fn has_plan(&self, client_id: u128, account_ref: &str, tool: &str, digest: &str) -> (r: bool)
        ensures
            r == (plan_index(self.ssh@, (client_id, account_ref@, tool@, digest@)) is Some
                || plan_index(self.http@, (client_id, account_ref@, tool@, digest@)) is Some
                || plan_index(self.connector@, (client_id, account_ref@, tool@, digest@)) is Some),
    {
        find_plan(&self.ssh, client_id, account_ref, tool, digest).is_some()
            || find_plan(&self.http, client_id, account_ref, tool, digest).is_some()
            || find_plan(&self.connector, client_id, account_ref, tool, digest).is_some()
    }

    /// The SSH plan stored under the key.
    pub fn ssh_plan(&self, client_id: u128, account_ref: &str, tool: &str, digest: &str) -> (r: Option<&AgentDirectSshPolicy>)
        ensures
            match plan_index(self.ssh@, (client_id, account_ref@, tool@, digest@)) {
                Some(i) => r == Some(&self.ssh@[i].1),
                None => r is None,
            },
    {
        match find_plan(&self.ssh, client_id, account_ref, tool, digest) {
            Some(i) => Some(&self.ssh[i].1),
            None => None,
        }
    }

    /// The HTTP plan stored under the key.
    pub fn http_plan(&self, client_id: u128, account_ref: &str, tool: &str, digest: &str) -> (r: Option<&AgentDirectHttpPolicy>)
        ensures
            match plan_index(self.http@, (client_id, account_ref@, tool@, digest@)) {
                Some(i) => r == Some(&self.http@[i].1),
                None => r is None,
            },
    {
        match find_plan(&self.http, client_id, account_ref, tool, digest) {
            Some(i) => Some(&self.http[i].1),
            None => None,
        }
    }

    /// The connector plan stored under the key.
    pub fn connector_plan(&self, client_id: u128, account_ref: &str, tool: &str, digest: &str) -> (r: Option<&AgentDirectConnectorPolicy>)
        ensures
            match plan_index(self.connector@, (client_id, account_ref@, tool@, digest@)) {
                Some(i) => r == Some(&self.connector@[i].1),
                None => r is None,
            },
    {
        match find_plan(&self.connector, client_id, account_ref, tool, digest) {
            Some(i) => Some(&self.connector[i].1),
            None => None,
        }
    }
}

/// `p` with its direct plan activated.
pub open spec fn activated(p: PendingPermission) -> PendingPermission {
    PendingPermission { activation_required: false, ..p }
}

/// A request with a direct plan.
pub open spec fn has_direct_plan(p: PendingPermission) -> bool {
    p.direct_ssh_policy is Some || p.direct_http_policy is Some || p.direct_connector_policy is Some
}

impl PermissionDesk {
    /// Activates the direct plan of the open request `permission_ref`, after
    /// the desk is pruned: the plan is stored in `plans` and the request no
    /// longer waits for activation; its snapshot is returned. A request
    /// without a direct plan is left as it is (`None`).
    pub fn activate_pending_direct_action(
        &mut self,
        plans: &mut ActiveDirectPlans,
        permission_ref: &str,
        now_millis: u64,
        live_sessions: &Vec<u128>,
        live_clients: &Vec<u128>,
    ) -> (r: Result<Option<PermissionRequestSnapshot>, AgentBrokerError>)
        ensures
            final(self).outcomes@ == live_outcomes(old(self).outcomes@, now_millis),
            ({
                let pruned = live_requests(old(self).requests@, now_millis, live_sessions@, live_clients@);
                match uuid_parse(permission_ref@) {
                    Some(id) => if has_request(pruned, id) {
                        exists|i: int| #[trigger] is_request_index(pruned, id, i) && {
                            let p = pruned[i];
                            if !has_direct_plan(p) {
                                r == Ok::<Option<PermissionRequestSnapshot>, AgentBrokerError>(None) && final(self).requests@ == pruned
                                    && final(plans).ssh@ == old(plans).ssh@ && final(plans).http@ == old(plans).http@
                                    && final(plans).connector@ == old(plans).connector@
                            } else if p.parameters_digest is None {
                                (r matches Err(e) && e.code@ == "broker-unavailable"@) && final(self).requests@ == pruned
                                    && final(plans).ssh@ == old(plans).ssh@ && final(plans).http@ == old(plans).http@
                                    && final(plans).connector@ == old(plans).connector@
                            } else {
                                &&& plan_stored(*old(plans), *final(plans), p)
                                &&& final(self).requests@ == pruned.update(i, activated(p))
                                &&& r matches Ok(Some(snap)) && is_permission_snapshot(snap, activated(p))
                            }
                        }
                    } else {
                        (r matches Err(e) && e.code@ == "unknown-permission"@) && final(self).requests@ == pruned
                            && final(plans).ssh@ == old(plans).ssh@ && final(plans).http@ == old(plans).http@
                            && final(plans).connector@ == old(plans).connector@
                    },
                    None => (r matches Err(e) && e.code@ == "unknown-permission"@) && final(self).requests@ == pruned
                        && final(plans).ssh@ == old(plans).ssh@ && final(plans).http@ == old(plans).http@
                        && final(plans).connector@ == old(plans).connector@,
                }
            }),
    {
        let i = match self.pending_request(permission_ref, now_millis, live_sessions, live_clients) {
            Ok(i) => i,
            Err(e) => return Err(e),
        };
        let ghost pruned = self.requests@;
        let has_plan = self.requests[i].direct_ssh_policy.is_some() || self.requests[i].direct_http_policy.is_some()
            || self.requests[i].direct_connector_policy.is_some();
        if !has_plan {
            return Ok(None);
        }
        match plans.store_request_plan(&self.requests[i]) {
            Ok(()) => {},
            Err(e) => return Err(e),
        }
        let mut request = self.requests.remove(i);
        request.activation_required = false;
        self.requests.insert(i, request);
        proof {
            assert(self.requests@ =~= pruned.update(i as int, activated(pruned[i as int])));
        }
        let snapshot = permission_snapshot(&self.requests[i]);
        Ok(Some(snapshot))
    }
}

/// What the audit log records of the account and target of an action.
#[derive(Debug)]
pub struct AgentAuditContext {
    pub account_ref: u128,
    pub account_label: String,
    pub environment: String,
    pub target_class: String,
    pub approved_display: String,
    pub risk: String,
}

/// The audit context as plain values.
pub struct AuditView {
    pub account_ref: u128,
    pub account_label: Seq<char>,
    pub environment: Seq<char>,
    pub target_class: Seq<char>,
    pub approved_display: Seq<char>,
    pub risk: Seq<char>,
}

/// The audit context as plain values.
pub open spec fn audit_view(c: AgentAuditContext) -> AuditView {
    AuditView {
        account_ref: c.account_ref,
        account_label: c.account_label@,
        environment: c.environment@,
        target_class: c.target_class@,
        approved_display: c.approved_display@,
        risk: c.risk@,
    }
}

/// An open request of the client for the same account, tool and parameters.
pub open spec fn same_action_request(p: PendingPermission, client: u128, account: Seq<char>, tool: Seq<char>, digest: Seq<char>) -> bool {
    p.client_id == client && p.account_ref@ == account && p.tool@ == tool && opt_view(p.parameters_digest) == Some(digest)
}

/// The first open request for the same action.
pub open spec fn first_action_request(rs: Seq<PendingPermission>, client: u128, account: Seq<char>, tool: Seq<char>, digest: Seq<char>) -> Option<int>
    decreases rs.len(),
{
    if rs.len() == 0 {
        None
    } else {
        match first_action_request(rs.drop_last(), client, account, tool, digest) {
            Some(i) => Some(i),
            None => if same_action_request(rs.last(), client, account, tool, digest) {
                Some(rs.len() - 1)
            } else {
                None
            },
        }
    }
}

/// The risk of the registry tool `tool`, if the registry has it.
pub open spec fn registry_risk(registry: AgentRegistry, tool: Seq<char>) -> Option<Seq<char>>
    decreases registry.tools@.len(),
{
    registry_risk_from(registry.tools@, tool)
}

/// The risk of the first tool named `tool`.
pub open spec fn registry_risk_from(tools: Seq<crate::model::AgentToolDefinition>, tool: Seq<char>) -> Option<Seq<char>>
    decreases tools.len(),
{
    if tools.len() == 0 {
        None
    } else if tools[0].name@ == tool {
        Some(tools[0].risk@)
    } else {
        registry_risk_from(tools.drop_first(), tool)
    }
}

/// What the audit log records of an action: from the approved plan of the
/// action (SSH, HTTP, then connector), else from an open request for it,
/// else for an SSH terminal action from its session.
pub open spec fn spec_audit_context(
    plans: ActiveDirectPlans,
    requests: Seq<PendingPermission>,
    registry: AgentRegistry,
    client: u128,
    account: Option<Seq<char>>,
    tool: Seq<char>,
    digest: Option<Seq<char>>,
) -> Option<AuditView> {
    match (account, digest) {
        (Some(a), Some(d)) => {
            let k = (client, a, tool, d);
            match plan_index(plans.ssh@, k) {
                Some(i) => {
                    let p = plans.ssh@[i].1;
                    Some(AuditView { account_ref: p.account_ref, account_label: p.account_label@, environment: p.environment@,
                        target_class: "ssh"@, approved_display: p.approved_display@, risk: p.risk@ })
                },
                None => match plan_index(plans.http@, k) {
                    Some(i) => {
                        let p = plans.http@[i].1;
                        Some(AuditView { account_ref: p.account_ref, account_label: p.account_label@, environment: p.environment@,
                            target_class: "http"@, approved_display: p.approved_display@,
                            risk: crate::direct_policy::spec_risk_name(p.operation.risk) })
                    },
                    None => match plan_index(plans.connector@, k) {
                        Some(i) => {
                            let p = plans.connector@[i].1;
                            Some(AuditView { account_ref: p.account_ref, account_label: p.account_label@, environment: p.environment@,
                                target_class: p.connector_kind@, approved_display: p.approved_display@, risk: p.risk@ })
                        },
                        None => match first_action_request(requests, client, a, tool, d) {
                            Some(i) => {
                                let p = requests[i];
                                let class = if p.direct_ssh_policy is Some {
                                    Some("ssh"@)
                                } else if p.direct_http_policy is Some {
                                    Some("http"@)
                                } else if p.direct_connector_policy is Some {
                                    Some(p.direct_connector_policy->0.connector_kind@)
                                } else {
                                    None
                                };
                                match (class, uuid_parse(a)) {
                                    (Some(c), Some(id)) => Some(AuditView { account_ref: id, account_label: p.account_label@,
                                        environment: p.environment@, target_class: c, approved_display: p.approved_display@,
                                        risk: p.risk@ }),
                                    _ => None,
                                }
                            },
                            None => if crate::policy::ssh_pty_session_tools().contains(tool) {
                                match (uuid_parse(a), registry_risk(registry, tool)) {
                                    (Some(id), Some(risk)) => Some(AuditView { account_ref: id, account_label: "SSH PTY session"@,
                                        environment: "active-session"@, target_class: "ssh-pty-session"@,
                                        approved_display: "Bound SSH PTY session"@, risk }),
                                    _ => None,
                                }
                            } else {
                                None
                            },
                        },
                    },
                },
            }
        },
        _ => None,
    }
}

fn find_action_request(rs: &Vec<PendingPermission>, client: u128, account: &str, tool: &str, digest: &str) -> (r: Option<usize>)
    ensures
        match r {
            Some(i) => i < rs.len() && first_action_request(rs@, client, account@, tool@, digest@) == Some(i as int),
            None => first_action_request(rs@, client, account@, tool@, digest@) is None,
        },
{
    let mut i: usize = 0;
    while i < rs.len()
        invariant
            i <= rs.len(),
            first_action_request(rs@.take(i as int), client, account@, tool@, digest@) is None,
        decreases rs.len() - i,
    {
        assert(rs@.take(i + 1).drop_last() =~= rs@.take(i as int));
        let p = &rs[i];
        let same = p.client_id == client && str_eq(p.account_ref.as_str(), account) && str_eq(p.tool.as_str(), tool)
            && match &p.parameters_digest {
            Some(d) => str_eq(d.as_str(), digest),
            None => false,
        };
        if same {
            proof {
                lemma_action_request_prefix(rs@, client, account@, tool@, digest@, i as int);
            }
            return Some(i);
        }
        i += 1;
    }
    assert(rs@.take(rs@.len() as int) =~= rs@);
    None
}

proof fn lemma_action_request_prefix(rs: Seq<PendingPermission>, client: u128, account: Seq<char>, tool: Seq<char>, digest: Seq<char>, i: int)
    requires
        0 <= i < rs.len(),
        first_action_request(rs.take(i), client, account, tool, digest) is None,
        same_action_request(rs[i], client, account, tool, digest),
    ensures
        first_action_request(rs, client, account, tool, digest) == Some(i),
    decreases rs.len(),
{
    assert(rs.take(i + 1).drop_last() =~= rs.take(i));
    if i + 1 < rs.len() {
        assert(rs.drop_last().take(i) =~= rs.take(i));
        lemma_action_request_prefix(rs.drop_last(), client, account, tool, digest, i);
    } else {
        assert(rs.drop_last() =~= rs.take(i));
    }
}

fn tool_risk(registry: &AgentRegistry, tool: &str) -> (r: Option<String>)
    ensures
        opt_view(r) == registry_risk(*registry, tool@),
{
    let mut i: usize = 0;
    assert(registry.tools@.skip(0) =~= registry.tools@);
    while i < registry.tools.len()
        invariant
            i <= registry.tools.len(),
            registry_risk(*registry, tool@) == registry_risk_from(registry.tools@.skip(i as int), tool@),
        decreases registry.tools.len() - i,
    {
        assert(registry.tools@.skip(i as int).drop_first() =~= registry.tools@.skip(i + 1));
        assert(registry.tools@.skip(i as int)[0] == registry.tools@[i as int]);
        if str_eq(registry.tools[i].name.as_str(), tool) {
            return Some(copy_string(registry.tools[i].risk.as_str()));
        }
        i += 1;
    }
    None
}

/// The audit context of an action (see `spec_audit_context`); `parameters_digest`
/// is the digest of its parameters, `None` when they have none.
pub fn audit_context_for_request(
    plans: &ActiveDirectPlans,
    desk: &PermissionDesk,
    registry: &AgentRegistry,
    client_id: u128,
    account_ref: Option<&str>,
    tool: &str,
    parameters_digest: Option<&str>,
) -> (r: Option<AgentAuditContext>)
    ensures
        match r {
            Some(c) => spec_audit_context(*plans, desk.requests@, *registry, client_id, crate::policy::opt_ref_view(account_ref), tool@,
                crate::policy::opt_ref_view(parameters_digest)) == Some(audit_view(c)),
            None => spec_audit_context(*plans, desk.requests@, *registry, client_id, crate::policy::opt_ref_view(account_ref), tool@,
                crate::policy::opt_ref_view(parameters_digest)) is None,
        },
{
    let account = match account_ref {
        Some(a) => a,
        None => return None,
    };
    let digest = match parameters_digest {
        Some(d) => d,
        None => return None,
    };
    proof {
        reveal_strlit("ssh");
        reveal_strlit("http");
    }
    if let Some(p) = plans.ssh_plan(client_id, account, tool, digest) {
        return Some(AgentAuditContext {
            account_ref: p.account_ref,
            account_label: copy_string(p.account_label.as_str()),
            environment: copy_string(p.environment.as_str()),
            target_class: copy_string("ssh"),
            approved_display: copy_string(p.approved_display.as_str()),
            risk: copy_string(p.risk.as_str()),
        });
    }
    if let Some(p) = plans.http_plan(client_id, account, tool, digest) {
        return Some(AgentAuditContext {
            account_ref: p.account_ref,
            account_label: copy_string(p.account_label.as_str()),
            environment: copy_string(p.environment.as_str()),
            target_class: copy_string("http"),
            approved_display: copy_string(p.approved_display.as_str()),
            risk: crate::direct_policy::risk_name(p.operation.risk),
        });
    }
    if let Some(p) = plans.connector_plan(client_id, account, tool, digest) {
        return Some(AgentAuditContext {
            account_ref: p.account_ref,
            account_label: copy_string(p.account_label.as_str()),
            environment: copy_string(p.environment.as_str()),
            target_class: copy_string(p.connector_kind.as_str()),
            approved_display: copy_string(p.approved_display.as_str()),
            risk: copy_string(p.risk.as_str()),
        });
    }
    if let Some(i) = find_action_request(&desk.requests, client_id, account, tool, digest) {
        let p = &desk.requests[i];
        let class = if p.direct_ssh_policy.is_some() {
            copy_string("ssh")
        } else if p.direct_http_policy.is_some() {
            copy_string("http")
        } else {
            match &p.direct_connector_policy {
                Some(c) => copy_string(c.connector_kind.as_str()),
                None => return None,
            }
        };
        let id = match crate::ids::parse_uuid(account) {
            Some(id) => id,
            None => return None,
        };
        return Some(AgentAuditContext {
            account_ref: id,
            account_label: copy_string(p.account_label.as_str()),
            environment: copy_string(p.environment.as_str()),
            target_class: class,
            approved_display: copy_string(p.approved_display.as_str()),
            risk: copy_string(p.risk.as_str()),
        });
    }
    if crate::policy::is_ssh_pty_session_tool(tool) {
        let id = match crate::ids::parse_uuid(account) {
            Some(id) => id,
            None => return None,
        };
        let risk = match tool_risk(registry, tool) {
            Some(r) => r,
            None => return None,
        };
        return Some(AgentAuditContext {
            account_ref: id,
            account_label: copy_string("SSH PTY session"),
            environment: copy_string("active-session"),
            target_class: copy_string("ssh-pty-session"),
            approved_display: copy_string("Bound SSH PTY session"),
            risk,
        });
    }
    None
}

// ----------------------------------------------------------------------------
// Laws
// ----------------------------------------------------------------------------

proof fn lemma_plan_index_none<P>(es: Seq<(DirectPlanKey, P)>, k: (u128, Seq<char>, Seq<char>, Seq<char>))
    ensures
        plan_index(es, k) is None <==> forall|j: int| 0 <= j < es.len() ==> key_view(#[trigger] es[j].0) != k,
    decreases es.len(),
{
    if es.len() > 0 {
        lemma_plan_index_none(es.drop_last(), k);
        if plan_index(es, k) is None {
            assert forall|j: int| 0 <= j < es.len() implies key_view(#[trigger] es[j].0) != k by {
                if j < es.len() - 1 {
                    assert(es[j] == es.drop_last()[j]);
                }
            }
        } else if plan_index(es.drop_last(), k) is Some {
            lemma_plan_index_valid(es.drop_last(), k);
            let i = plan_index(es.drop_last(), k)->0;
            assert(es[i] == es.drop_last()[i]);
        }
    }
}

/// A plan stored under a key is the plan that a later lookup of that key
/// finds, whether or not a plan was stored under it before.
pub proof fn law_stored_plan_is_found<P>(es: Seq<(DirectPlanKey, P)>, key: DirectPlanKey, plan: P)
    ensures
        ({
            let after = spec_store_plan(es, key, plan);
            plan_index(after, key_view(key)) matches Some(i) && after[i].1 == plan
        }),
{
    lemma_plan_index_valid(es, key_view(key));
    let after = spec_store_plan(es, key, plan);
    match plan_index(es, key_view(key)) {
        Some(i) => {
            lemma_plan_index_valid(after, key_view(key));
            lemma_plan_index_none(es.take(i), key_view(key));
            lemma_same_index(es, after, key_view(key), i);
        },
        None => {
            assert(after.drop_last() =~= es);
        },
    }
}

proof fn lemma_same_index<P>(es: Seq<(DirectPlanKey, P)>, after: Seq<(DirectPlanKey, P)>, k: (u128, Seq<char>, Seq<char>, Seq<char>), i: int)
    requires
        plan_index(es, k) == Some(i),
        0 <= i < es.len(),
        after.len() == es.len(),
        key_view(after[i].0) == k,
        forall|j: int| 0 <= j < es.len() && j != i ==> after[j] == es[j],
    ensures
        plan_index(after, k) == Some(i),
    decreases es.len(),
{
    if i < es.len() - 1 {
        assert(plan_index(es.drop_last(), k) == Some(i));
        assert forall|j: int| 0 <= j < es.drop_last().len() && j != i implies after.drop_last()[j] == es.drop_last()[j] by {}
        lemma_plan_index_valid(es.drop_last(), k);
        lemma_same_index(es.drop_last(), after.drop_last(), k, i);
    } else {
        lemma_plan_index_valid(es.drop_last(), k);
        assert(plan_index(es.drop_last(), k) is None);
        lemma_plan_index_none(es.drop_last(), k);
        assert(after.drop_last() =~= es.drop_last());
    }
}

/// After a client's plans are removed, no plan of that client is left.
pub proof fn law_removed_client_has_no_plans<P>(es: Seq<(DirectPlanKey, P)>, client: u128)
    ensures
        forall|j: int| 0 <= j < plans_without_client(es, client).len() ==> (#[trigger] plans_without_client(es, client)[j]).0.client_id != client,
{
    let f = |e: (DirectPlanKey, P)| e.0.client_id != client;
    es.filter_lemma(f);
}

} // verus!
