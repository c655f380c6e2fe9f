//! Permission requests for direct actions. A persistent rule of the client
//! or a grant of its connection may decide a request at once; otherwise the
//! request waits, once per action, for the local authorization window.
use vstd::prelude::*;
use crate::authz_rules::{
    is_deciding_rule, matching_rule, query_view, spec_rule_matches, AgentAuthorizationMatch, AgentAuthorizationRule,
    MatchQuery,
};
use crate::connector::AgentDirectConnectorPolicy;
use crate::direct_policy::is_rule_unavailable;
use crate::direct_ssh::AgentDirectSshPolicy;
use crate::error::AgentBrokerError;
use crate::ids::{format_uuid, uuid_text};
use crate::json::JsonValue;
use crate::model::{AgentRegistry, PermissionEffect, PermissionScope};
use crate::permission_desk::{grant_view, names_view, GrantView, PermissionDesk};
use crate::policy::{
    grant_priority, matching_permission_grant_index, opt_ref_view, opt_view, request_permission_operation,
    risk_rank, spec_grant_matches, spec_request_permission_operation, spec_risk_rank, AgentDirectHttpPolicy,
    PendingPermission, PermissionGrant, SAFE_SSH_CATALOG_REVISION,
};
use crate::authz_rules::utf8_len;
use crate::direct_policy::{risk_name, spec_risk_name};
use crate::direct_ssh::is_control_char;
use crate::text::{concat, copy_string, str_eq, to_chars};

verus! {

broadcast use vstd::string::group_string_axioms;

/// How long a permission request waits for the authorization window.
pub const PERMISSION_TTL_MILLIS: u64 = 900_000;

/// The longest description of a direct HTTP action, in bytes.
pub const MAX_HTTP_ACTION_DISPLAY_BYTES: usize = 16384;

/// What a permission request for a direct action comes to.
#[derive(Debug)]
pub enum DirectPermissionOutcome {
    /// Denied by a persistent rule (`persistent`) or by a grant of the connection.
    Denied { persistent: bool },
    /// Allowed at once: `grant` is given to the connection, and the direct
    /// plan in `request` (which needed no window) becomes active.
    Allowed { persistent: bool, grant: PermissionGrant, request: PendingPermission },
    /// Waiting for the local authorization window.
    Pending { permission_ref: u128, expires_at: u64 },
}

// ----------------------------------------------------------------------------
// Specification
// ----------------------------------------------------------------------------

/// The rule that decides a lookup, if any rule matches.
pub open spec fn deciding_rule(rules: Seq<AgentAuthorizationRule>, q: MatchQuery) -> Option<AgentAuthorizationRule> {
    if exists|i: int| is_deciding_rule(rules, q, i) {
        Some(rules[choose|i: int| is_deciding_rule(rules, q, i)])
    } else {
        None
    }
}

/// The grant of a connection that decides an action: the matching grant of
/// highest priority, the last of equals.
pub open spec fn is_deciding_grant(
    grants: Seq<PermissionGrant>,
    account_ref: Seq<char>,
    tool: Seq<char>,
    operation: Option<Seq<char>>,
    digest: Seq<char>,
    p: JsonValue,
    safe: bool,
    i: int,
) -> bool {
    &&& 0 <= i < grants.len()
    &&& spec_grant_matches(grants[i], account_ref, tool, operation, digest, p, safe)
    &&& forall|j: int| 0 <= j < grants.len() && spec_grant_matches(#[trigger] grants[j], account_ref, tool, operation, digest, p, safe)
        ==> grant_priority(grants[j]) <= grant_priority(grants[i])
    &&& forall|j: int| i < j < grants.len() && spec_grant_matches(#[trigger] grants[j], account_ref, tool, operation, digest, p, safe)
        ==> grant_priority(grants[j]) < grant_priority(grants[i])
}

/// The grant of a connection that decides an action, if any grant matches.
pub open spec fn deciding_grant(
    grants: Seq<PermissionGrant>,
    account_ref: Seq<char>,
    tool: Seq<char>,
    operation: Option<Seq<char>>,
    digest: Seq<char>,
    p: JsonValue,
    safe: bool,
) -> Option<PermissionGrant> {
    if exists|i: int| is_deciding_grant(grants, account_ref, tool, operation, digest, p, safe, i) {
        Some(grants[choose|i: int| is_deciding_grant(grants, account_ref, tool, operation, digest, p, safe, i)])
    } else {
        None
    }
}

/// A live open request of the same client, session, account, tool and
/// canonical parameters.
pub open spec fn same_open_request(p: PendingPermission, c: PendingPermission, now: u64) -> bool {
    &&& p.client_id == c.client_id
    &&& p.session_id == c.session_id
    &&& p.account_ref@ == c.account_ref@
    &&& p.tool@ == c.tool@
    &&& opt_view(p.parameters_digest) == opt_view(c.parameters_digest)
    &&& p.expires_at > now
}

/// The first open request that the candidate `c` repeats.
pub open spec fn first_open_request(rs: Seq<PendingPermission>, c: PendingPermission, now: u64) -> Option<int>
    decreases rs.len(),
{
    if rs.len() == 0 {
        None
    } else {
        match first_open_request(rs.drop_last(), c, now) {
            Some(i) => Some(i),
            None => if same_open_request(rs.last(), c, now) {
                Some(rs.len() - 1)
            } else {
                None
            },
        }
    }
}

/// When a request opened at `now` expires.
pub open spec fn request_expiry(now: u64) -> u64 {
    if now + PERMISSION_TTL_MILLIS > u64::MAX {
        u64::MAX
    } else {
        (now + PERMISSION_TTL_MILLIS) as u64
    }
}

/// How a request is decided before it reaches the window.
pub enum DirectStep {
    Denied { persistent: bool },
    AllowedByRule,
    AllowedByGrant,
    Repeated { index: int },
    Opened,
}

/// The step that decides a request: a denying rule, or an allowing rule for
/// an action below `R2`; then a denying grant of the connection, or one that
/// needs no fresh confirmation; then an open request for the same action;
/// else a new request.
pub open spec fn direct_step(
    rule: Option<AgentAuthorizationRule>,
    risk: Seq<char>,
    grant: Option<PermissionGrant>,
    requests: Seq<PendingPermission>,
    candidate: PendingPermission,
    now: u64,
) -> DirectStep {
    if rule matches Some(r) && r.effect == PermissionEffect::Deny {
        DirectStep::Denied { persistent: true }
    } else if rule is Some && spec_risk_rank(risk) < 2 {
        DirectStep::AllowedByRule
    } else if grant matches Some(g) && g.effect == PermissionEffect::Deny {
        DirectStep::Denied { persistent: false }
    } else if grant matches Some(g) && !g.fresh_confirmation_required {
        DirectStep::AllowedByGrant
    } else {
        match first_open_request(requests, candidate, now) {
            Some(i) => DirectStep::Repeated { index: i },
            None => DirectStep::Opened,
        }
    }
}

/// `candidate` opened as request `r` at `now`.
pub open spec fn opened(candidate: PendingPermission, r: u128, now: u64) -> PendingPermission {
    PendingPermission { permission_ref: r, created_at: now, expires_at: request_expiry(now), ..candidate }
}

/// What a decided step leaves: the outcome, and the open requests.
pub open spec fn step_holds(
    step: DirectStep,
    out: DirectPermissionOutcome,
    before: Seq<PendingPermission>,
    after: Seq<PendingPermission>,
    candidate: PendingPermission,
    rule_grant: GrantView,
    connection_grant: GrantView,
    new_ref: u128,
    now: u64,
) -> bool {
    match step {
        DirectStep::Denied { persistent } => out == DirectPermissionOutcome::Denied { persistent } && after == before,
        DirectStep::AllowedByRule => after == before && (out matches DirectPermissionOutcome::Allowed { persistent, grant, request }
            && persistent && grant_view(grant) == rule_grant && request == candidate),
        DirectStep::AllowedByGrant => after == before && (out matches DirectPermissionOutcome::Allowed { persistent, grant, request }
            && !persistent && grant_view(grant) == connection_grant && request == candidate),
        DirectStep::Repeated { index } => after == before && out == DirectPermissionOutcome::Pending {
            permission_ref: before[index].permission_ref,
            expires_at: before[index].expires_at,
        },
        DirectStep::Opened => after == before.push(opened(candidate, new_ref, now)) && out == DirectPermissionOutcome::Pending {
            permission_ref: new_ref,
            expires_at: request_expiry(now),
        },
    }
}

/// The grant that a persistent rule gives for an action of a fixed target:
/// the exact action for an exact rule, the whole tool otherwise.
pub open spec fn fixed_rule_grant(
    rule: AgentAuthorizationRule,
    account_ref: Seq<char>,
    tool: Seq<char>,
    operation: Option<Seq<char>>,
    digest: Seq<char>,
    catalog_revision: Option<Seq<char>>,
) -> GrantView {
    let exact = rule.scope == PermissionScope::Exact;
    GrantView {
        account_ref,
        tool,
        operation: if exact { operation } else { None },
        scope: rule.scope,
        parameters_digest: if exact { Some(digest) } else { None },
        catalog_revision,
        effect: PermissionEffect::Allow,
        fresh_confirmation_required: false,
        remaining_uses: None,
    }
}

/// The grant that a persistent rule gives for a direct HTTP action: the exact
/// path and parameters, or the rule's path pattern and method.
pub open spec fn http_rule_grant(
    rule: AgentAuthorizationRule,
    account_ref: Seq<char>,
    tool: Seq<char>,
    path: Option<Seq<char>>,
    digest: Seq<char>,
) -> GrantView {
    GrantView {
        account_ref,
        tool,
        operation: match rule.scope {
            PermissionScope::Exact => path,
            PermissionScope::Path => opt_view(rule.path_pattern),
            _ => None,
        },
        scope: rule.scope,
        parameters_digest: match rule.scope {
            PermissionScope::Exact => Some(digest),
            PermissionScope::Path => opt_view(rule.http_method),
            _ => None,
        },
        catalog_revision: opt_view(rule.matcher_revision),
        effect: PermissionEffect::Allow,
        fresh_confirmation_required: false,
        remaining_uses: None,
    }
}

/// The grant that a grant of the connection gives again, with the catalog
/// revision `catalog_revision`.
pub open spec fn renewed_grant(
    g: PermissionGrant,
    account_ref: Seq<char>,
    tool: Seq<char>,
    catalog_revision: Option<Seq<char>>,
) -> GrantView {
    GrantView {
        account_ref,
        tool,
        operation: opt_view(g.operation),
        scope: g.scope,
        parameters_digest: opt_view(g.parameters_digest),
        catalog_revision,
        effect: g.effect,
        fresh_confirmation_required: g.fresh_confirmation_required,
        remaining_uses: g.remaining_uses,
    }
}

/// The fields that every direct permission request carries.
pub open spec fn request_common(
    c: PendingPermission,
    client_id: u128,
    session_id: u128,
    account_ref: Seq<char>,
    tool: Seq<char>,
    digest: Seq<char>,
    now: u64,
    new_ref: u128,
) -> bool {
    &&& c.permission_ref == new_ref
    &&& c.client_id == client_id
    &&& c.session_id == session_id
    &&& c.account_ref@ == account_ref
    &&& c.tool@ == tool
    &&& opt_view(c.parameters_digest) == Some(digest)
    &&& c.activation_required
    &&& c.created_at == now
    &&& c.expires_at == request_expiry(now)
}

/// The request for a direct SSH action on the account `account`.
pub open spec fn ssh_request(
    c: PendingPermission,
    p: AgentDirectSshPolicy,
    account: u128,
    kind: Seq<char>,
    operation: Option<Seq<char>>,
) -> bool {
    &&& c.account_label == p.account_label
    &&& c.environment == p.environment
    &&& opt_view(c.operation) == operation
    &&& c.risk == p.risk
    &&& c.approved_display == p.approved_display
    &&& c.action_display == p.action_display
    &&& c.target_digest == p.target_digest
    &&& c.source_item_ref == Some(account)
    &&& opt_view(c.source_item_kind) == Some(kind)
    &&& c.direct_ssh_policy == Some(p)
    &&& c.direct_http_policy is None
    &&& c.direct_connector_policy is None
}

/// The lookup of a direct SSH action in the persistent rules.
pub open spec fn ssh_query(user_id: Seq<char>, client_key: Seq<char>, account: Seq<char>, p: AgentDirectSshPolicy, tool: Seq<char>, digest: Seq<char>) -> MatchQuery {
    let exec = tool == "vaultmesh_ssh_exec"@;
    MatchQuery {
        user_id,
        client_key,
        account_ref: account,
        target_digest: p.target_digest@,
        tool,
        parameters_digest: digest,
        safe: exec && p.risk@ == "R1"@,
        catalog_revision: if exec { "ssh-safe-v1"@ } else { "none"@ },
        http_method: None,
        http_path: None,
    }
}

// ----------------------------------------------------------------------------
// Lemmas
// ----------------------------------------------------------------------------

proof fn lemma_deciding_rule_unique(rules: Seq<AgentAuthorizationRule>, q: MatchQuery, i: int)
    requires
        is_deciding_rule(rules, q, i),
    ensures
        deciding_rule(rules, q) == Some(rules[i]),
{
    let k = choose|k: int| is_deciding_rule(rules, q, k);
    assert(is_deciding_rule(rules, q, k));
    if k < i {
        assert(spec_rule_matches(rules[i], q));
    } else if i < k {
        assert(spec_rule_matches(rules[k], q));
    }
}

proof fn lemma_deciding_grant_unique(
    grants: Seq<PermissionGrant>,
    account_ref: Seq<char>,
    tool: Seq<char>,
    operation: Option<Seq<char>>,
    digest: Seq<char>,
    p: JsonValue,
    safe: bool,
    i: int,
)
    requires
        is_deciding_grant(grants, account_ref, tool, operation, digest, p, safe, i),
    ensures
        deciding_grant(grants, account_ref, tool, operation, digest, p, safe) == Some(grants[i]),
{
    let k = choose|k: int| is_deciding_grant(grants, account_ref, tool, operation, digest, p, safe, k);
    assert(is_deciding_grant(grants, account_ref, tool, operation, digest, p, safe, k));
    if k < i {
        assert(spec_grant_matches(grants[i], account_ref, tool, operation, digest, p, safe));
    } else if i < k {
        assert(spec_grant_matches(grants[k], account_ref, tool, operation, digest, p, safe));
    }
}

proof fn lemma_first_open_prefix(rs: Seq<PendingPermission>, c: PendingPermission, now: u64, i: int)
    requires
        0 <= i < rs.len(),
        first_open_request(rs.take(i), c, now) is None,
        same_open_request(rs[i], c, now),
    ensures
        first_open_request(rs, c, now) == Some(i),
    decreases rs.len(),
{
    assert(rs.take(i + 1).drop_last() =~= rs.take(i));
    if i + 1 < rs.len() {
        assert(rs.drop_last().take(i) =~= rs.take(i));
        lemma_first_open_prefix(rs.drop_last(), c, now, i);
    } else {
        assert(rs.drop_last() =~= rs.take(i));
    }
}

// ----------------------------------------------------------------------------
// Executable functions
// ----------------------------------------------------------------------------

/// The rule that decides a lookup, when the rules could be read.
fn lookup_rule(rules: Option<&Vec<AgentAuthorizationRule>>, query: &AgentAuthorizationMatch) -> (r: Option<AgentAuthorizationRule>)
    ensures
        r == match rules {
            Some(rs) => deciding_rule(rs@, query_view(*query)),
            None => None,
        },
{
    match rules {
        None => None,
        Some(rs) => {
            let found = matching_rule(rs, query);
            proof {
                if found is Some {
                        let rule = found->0;
                        let i = choose|i: int| is_deciding_rule(rs@, query_view(*query), i) && rs@[i] == rule;
                        lemma_deciding_rule_unique(rs@, query_view(*query), i);
                } else {
                        assert forall|i: int| !is_deciding_rule(rs@, query_view(*query), i) by {
                            if 0 <= i < rs@.len() {
                                assert(!spec_rule_matches(rs@[i], query_view(*query)));
                            }
                        }
                }
            }
            found
        },
    }
}

fn clone_opt(o: &Option<String>) -> (r: Option<String>)
    ensures
        r == *o,
{
    match o {
        Some(s) => Some(s.clone()),
        None => None,
    }
}

fn clone_grant(g: &PermissionGrant) -> (r: PermissionGrant)
    ensures
        r == *g,
{
    PermissionGrant {
        account_ref: g.account_ref.clone(),
        tool: g.tool.clone(),
        operation: clone_opt(&g.operation),
        scope: g.scope,
        parameters_digest: clone_opt(&g.parameters_digest),
        catalog_revision: clone_opt(&g.catalog_revision),
        effect: g.effect,
        fresh_confirmation_required: g.fresh_confirmation_required,
        remaining_uses: g.remaining_uses,
    }
}

/// The grant of the connection that decides an action, when the connection
/// has grants.
fn lookup_grant(
    grants: Option<&Vec<PermissionGrant>>,
    account_ref: &str,
    tool: &str,
    operation: Option<&str>,
    digest: &str,
    parameters: &JsonValue,
    safe: bool,
) -> (r: Option<PermissionGrant>)
    ensures
        r == match grants {
            Some(gs) => deciding_grant(gs@, account_ref@, tool@, opt_ref_view(operation), digest@, *parameters, safe),
            None => None,
        },
{
    match grants {
        None => None,
        Some(gs) => match matching_permission_grant_index(gs, account_ref, tool, operation, digest, parameters, safe) {
            Some(i) => {
                proof {
                    lemma_deciding_grant_unique(gs@, account_ref@, tool@, opt_ref_view(operation), digest@, *parameters, safe, i as int);
                }
                Some(clone_grant(&gs[i]))
            },
            None => {
                proof {
                    assert forall|i: int| !is_deciding_grant(gs@, account_ref@, tool@, opt_ref_view(operation), digest@, *parameters, safe, i) by {
                        if 0 <= i < gs@.len() {
                            assert(!spec_grant_matches(gs@[i], account_ref@, tool@, opt_ref_view(operation), digest@, *parameters, safe));
                        }
                    }
                }
                None
            },
        },
    }
}

impl PermissionDesk {
    /// Opens `candidate` as request `new_ref` at `now_millis`, unless a live
    /// request for the same action is open: then that one is reported.
    fn open_request(&mut self, candidate: PendingPermission, new_ref: u128, now_millis: u64) -> (r: (u128, u64))
        ensures
            final(self).outcomes@ == old(self).outcomes@,
            match first_open_request(old(self).requests@, candidate, now_millis) {
                Some(i) => r == (old(self).requests@[i].permission_ref, old(self).requests@[i].expires_at)
                    && final(self).requests@ == old(self).requests@,
                None => r == (new_ref, request_expiry(now_millis))
                    && final(self).requests@ == old(self).requests@.push(opened(candidate, new_ref, now_millis)),
            },
    {
        let mut i: usize = 0;
        while i < self.requests.len()
            invariant
                i <= self.requests.len(),
                self.requests@ == old(self).requests@,
                self.outcomes@ == old(self).outcomes@,
                first_open_request(self.requests@.take(i as int), candidate, now_millis) is None,
            decreases self.requests.len() - i,
        {
            assert(self.requests@.take(i + 1).drop_last() =~= self.requests@.take(i as int));
            let p = &self.requests[i];
            let same = p.client_id == candidate.client_id && p.session_id == candidate.session_id && str_eq(
                p.account_ref.as_str(),
                candidate.account_ref.as_str(),
            ) && str_eq(p.tool.as_str(), candidate.tool.as_str()) && match (&p.parameters_digest, &candidate.parameters_digest) {
                (Some(a), Some(b)) => str_eq(a.as_str(), b.as_str()),
                (None, None) => true,
                _ => false,
            } && p.expires_at > now_millis;
            if same {
                proof {
                    lemma_first_open_prefix(self.requests@, candidate, now_millis, i as int);
                }
                return (p.permission_ref, p.expires_at);
            }
            i += 1;
        }
        assert(self.requests@.take(self.requests@.len() as int) =~= self.requests@);
        let expires_at = now_millis.saturating_add(PERMISSION_TTL_MILLIS);
        let mut c = candidate;
        c.permission_ref = new_ref;
        c.created_at = now_millis;
        c.expires_at = expires_at;
        self.requests.push(c);
        (new_ref, expires_at)
    }

    /// Decides a request once its rule and connection grant are known.
    fn decide_direct(
        &mut self,
        rule: Option<AgentAuthorizationRule>,
        rule_grant: Option<PermissionGrant>,
        risk: &str,
        grant: Option<PermissionGrant>,
        renewed: Option<PermissionGrant>,
        candidate: PendingPermission,
        new_ref: u128,
        now_millis: u64,
    ) -> (out: DirectPermissionOutcome)
        requires
            rule is Some ==> rule_grant is Some,
            grant is Some ==> renewed is Some,
        ensures
            final(self).outcomes@ == old(self).outcomes@,
            step_holds(
                direct_step(rule, risk@, grant, old(self).requests@, candidate, now_millis),
                out,
                old(self).requests@,
                final(self).requests@,
                candidate,
                grant_view(rule_grant->0),
                grant_view(renewed->0),
                new_ref,
                now_millis,
            ),
    {
        if let Some(r) = &rule {
            if r.effect == PermissionEffect::Deny {
                return DirectPermissionOutcome::Denied { persistent: true };
            }
            if risk_rank(risk) < 2 {
                let g = match rule_grant {
                    Some(g) => g,
                    None => return DirectPermissionOutcome::Denied { persistent: true },
                };
                return DirectPermissionOutcome::Allowed { persistent: true, grant: g, request: candidate };
            }
        }
        if let Some(g) = &grant {
            if g.effect == PermissionEffect::Deny {
                return DirectPermissionOutcome::Denied { persistent: false };
            }
            if !g.fresh_confirmation_required {
                let again = match renewed {
                    Some(again) => again,
                    None => return DirectPermissionOutcome::Denied { persistent: false },
                };
                return DirectPermissionOutcome::Allowed { persistent: false, grant: again, request: candidate };
            }
        }
        let (permission_ref, expires_at) = self.open_request(candidate, new_ref, now_millis);
        DirectPermissionOutcome::Pending { permission_ref, expires_at }
    }
}

fn copy_opt(o: Option<&str>) -> (r: Option<String>)
    ensures
        opt_view(r) == opt_ref_view(o),
{
    match o {
        Some(s) => Some(copy_string(s)),
        None => None,
    }
}

fn fixed_grant(
    rule: &AgentAuthorizationRule,
    account_ref: &str,
    tool: &str,
    operation: Option<&str>,
    digest: &str,
    catalog_revision: Option<String>,
) -> (g: PermissionGrant)
    ensures
        grant_view(g) == fixed_rule_grant(*rule, account_ref@, tool@, opt_ref_view(operation), digest@, opt_view(catalog_revision)),
{
    let exact = rule.scope == PermissionScope::Exact;
    PermissionGrant {
        account_ref: copy_string(account_ref),
        tool: copy_string(tool),
        operation: if exact { copy_opt(operation) } else { None },
        scope: rule.scope,
        parameters_digest: if exact { Some(copy_string(digest)) } else { None },
        catalog_revision,
        effect: PermissionEffect::Allow,
        fresh_confirmation_required: false,
        remaining_uses: None,
    }
}

fn http_grant(rule: &AgentAuthorizationRule, account_ref: &str, tool: &str, path: Option<&str>, digest: &str) -> (g: PermissionGrant)
    ensures
        grant_view(g) == http_rule_grant(*rule, account_ref@, tool@, opt_ref_view(path), digest@),
{
    let (operation, parameters_digest) = match rule.scope {
        PermissionScope::Exact => (copy_opt(path), Some(copy_string(digest))),
        PermissionScope::Path => (clone_opt(&rule.path_pattern), clone_opt(&rule.http_method)),
        _ => (None, None),
    };
    PermissionGrant {
        account_ref: copy_string(account_ref),
        tool: copy_string(tool),
        operation,
        scope: rule.scope,
        parameters_digest,
        catalog_revision: clone_opt(&rule.matcher_revision),
        effect: PermissionEffect::Allow,
        fresh_confirmation_required: false,
        remaining_uses: None,
    }
}

fn renew(g: &PermissionGrant, account_ref: &str, tool: &str, catalog_revision: Option<String>) -> (r: PermissionGrant)
    ensures
        grant_view(r) == renewed_grant(*g, account_ref@, tool@, opt_view(catalog_revision)),
{
    PermissionGrant {
        account_ref: copy_string(account_ref),
        tool: copy_string(tool),
        operation: clone_opt(&g.operation),
        scope: g.scope,
        parameters_digest: clone_opt(&g.parameters_digest),
        catalog_revision,
        effect: g.effect,
        fresh_confirmation_required: g.fresh_confirmation_required,
        remaining_uses: g.remaining_uses,
    }
}

/// The request for a direct HTTP action.
pub open spec fn http_request(
    c: PendingPermission,
    p: AgentDirectHttpPolicy,
    source: Option<(u128, Seq<char>)>,
    path: Option<Seq<char>>,
    display: Seq<char>,
) -> bool {
    &&& c.account_label == p.account_label
    &&& c.environment == p.environment
    &&& opt_view(c.operation) == path
    &&& c.risk@ == spec_risk_name(p.operation.risk)
    &&& c.approved_display == p.approved_display
    &&& c.action_display@ == display
    &&& c.target_digest == p.target_digest
    &&& c.source_item_ref == (match source {
        Some((r, _)) => Some(r),
        None => None,
    })
    &&& opt_view(c.source_item_kind) == (match source {
        Some((_, k)) => Some(k),
        None => None,
    })
    &&& c.direct_ssh_policy is None
    &&& c.direct_http_policy == Some(p)
    &&& c.direct_connector_policy is None
}

/// How the window shows a direct HTTP action: its method and path.
pub open spec fn http_action_display(p: AgentDirectHttpPolicy) -> Seq<char> {
    p.operation.method@ + " "@ + p.operation.path@
}

/// A description that the window can show: at most 16384 bytes and no
/// control character.
pub open spec fn showable(display: Seq<char>) -> bool {
    utf8_len(display) <= MAX_HTTP_ACTION_DISPLAY_BYTES && forall|i: int| 0 <= i < display.len() ==> !is_control_char(#[trigger] display[i])
}

/// The request for a direct connector action.
pub open spec fn connector_request(c: PendingPermission, p: AgentDirectConnectorPolicy) -> bool {
    &&& c.account_label == p.account_label
    &&& c.environment == p.environment
    &&& c.operation == p.operation
    &&& c.risk == p.risk
    &&& c.approved_display == p.approved_display
    &&& c.action_display == p.action_display
    &&& c.target_digest == p.target_digest
    &&& c.source_item_ref is None
    &&& c.source_item_kind is None
    &&& c.direct_ssh_policy is None
    &&& c.direct_http_policy is None
    &&& c.direct_connector_policy == Some(p)
}

/// The lookup of a direct action without a command catalog in the persistent rules.
pub open spec fn plain_query(
    user_id: Seq<char>,
    client_key: Seq<char>,
    account: Seq<char>,
    target_digest: Seq<char>,
    tool: Seq<char>,
    digest: Seq<char>,
    http_method: Option<Seq<char>>,
    http_path: Option<Seq<char>>,
) -> MatchQuery {
    MatchQuery {
        user_id,
        client_key,
        account_ref: account,
        target_digest,
        tool,
        parameters_digest: digest,
        safe: false,
        catalog_revision: "none"@,
        http_method,
        http_path,
    }
}

/// The rule that decides a lookup, when the rules could be read.
pub open spec fn rule_of(rules: Option<&Vec<AgentAuthorizationRule>>, q: MatchQuery) -> Option<AgentAuthorizationRule> {
    match rules {
        Some(rs) => deciding_rule(rs@, q),
        None => None,
    }
}

/// The grant of the connection that decides an action, when it has grants.
pub open spec fn grant_of(
    grants: Option<&Vec<PermissionGrant>>,
    account_ref: Seq<char>,
    tool: Seq<char>,
    operation: Option<Seq<char>>,
    digest: Seq<char>,
    p: JsonValue,
    safe: bool,
) -> Option<PermissionGrant> {
    match grants {
        Some(gs) => deciding_grant(gs@, account_ref, tool, operation, digest, p, safe),
        None => None,
    }
}

fn text_is_showable(display: &str) -> (r: bool)
    ensures
        r == showable(display@),
{
    if !crate::authz_rules::utf8_len_within(display, MAX_HTTP_ACTION_DISPLAY_BYTES) {
        return false;
    }
    let chars = to_chars(display);
    let mut i: usize = 0;
    while i < chars.len()
        invariant
            i <= chars.len(),
            chars@ == display@,
            forall|k: int| 0 <= k < i ==> !is_control_char(#[trigger] display@[k]),
        decreases chars.len() - i,
    {
        let u = chars[i] as u32;
        if u <= 0x1f || (u >= 0x7f && u <= 0x9f) {
            return false;
        }
        i += 1;
    }
    true
}

impl PermissionDesk {
    /// Requests permission for a direct SSH action on the SSH account
    /// `account` of Vault kind `kind`: `policy` is the action's plan (`None`
    /// when no SSH planner is configured), `rules` the client's persistent
    /// rules and `grants` its connection's grants, when they exist.
    #[verifier::rlimit(40)]
    pub fn request_direct_ssh_permission(
        &mut self,
        rules: Option<&Vec<AgentAuthorizationRule>>,
        grants: Option<&Vec<PermissionGrant>>,
        client_id: u128,
        session_id: u128,
        user_id: &str,
        client_key: &str,
        account: u128,
        kind: &str,
        policy: Option<Result<AgentDirectSshPolicy, AgentBrokerError>>,
        tool: &str,
        action_parameters: &JsonValue,
        parameters_digest: &str,
        now_millis: u64,
        new_ref: u128,
    ) -> (r: Result<DirectPermissionOutcome, AgentBrokerError>)
        ensures
            final(self).outcomes@ == old(self).outcomes@,
            match policy {
                None => r matches Err(e) && is_rule_unavailable(e, "ssh"@, tool@) && final(self).requests@ == old(self).requests@,
                Some(Err(e)) => r == Err::<DirectPermissionOutcome, AgentBrokerError>(e) && final(self).requests@ == old(self).requests@,
                Some(Ok(p)) => if p.account_ref != account || p.tool@ != tool@ {
                    r matches Err(e) && e.code@ == "broker-unavailable"@ && final(self).requests@ == old(self).requests@
                } else {
                    let account_text = uuid_text(account);
                    let op = spec_request_permission_operation(tool@, *action_parameters);
                    let q = ssh_query(user_id@, client_key@, account_text, p, tool@, parameters_digest@);
                    let rule = rule_of(rules, q);
                    let grant = grant_of(grants, account_text, tool@, op, parameters_digest@, *action_parameters, q.safe);
                    r matches Ok(out) && exists|c: PendingPermission| {
                        &&& request_common(c, client_id, session_id, account_text, tool@, parameters_digest@, now_millis, new_ref)
                        &&& ssh_request(c, p, account, kind@, op)
                        &&& step_holds(
                            direct_step(rule, p.risk@, grant, old(self).requests@, c, now_millis),
                            out,
                            old(self).requests@,
                            final(self).requests@,
                            c,
                            fixed_rule_grant(rule->0, account_text, tool@, op, parameters_digest@, opt_view(rule->0.catalog_revision)),
                            renewed_grant(grant->0, account_text, tool@, opt_view(grant->0.catalog_revision)),
                            new_ref,
                            now_millis,
                        )
                    }
                },
            },
    {
        let p = match policy {
            None => return Err(AgentBrokerError::action_rule_unavailable("ssh", tool)),
            Some(Err(e)) => return Err(e),
            Some(Ok(p)) => p,
        };
        if p.account_ref != account || !str_eq(p.tool.as_str(), tool) {
            return Err(AgentBrokerError::internal());
        }
        let account_text = format_uuid(account);
        let operation = request_permission_operation(tool, action_parameters);
        let exec = str_eq(tool, "vaultmesh_ssh_exec");
        let safe = exec && str_eq(p.risk.as_str(), "R1");
        let catalog = if exec { SAFE_SSH_CATALOG_REVISION } else { "none" };
        proof {
            reveal_strlit("ssh-safe-v1");
            reveal_strlit("none");
        }
        let query = AgentAuthorizationMatch {
            user_id,
            client_key,
            account_ref: account_text.as_str(),
            target_digest: p.target_digest.as_str(),
            tool,
            parameters_digest,
            safe,
            catalog_revision: catalog,
            http_method: None,
            http_path: None,
        };
        let ghost gp = p;
        assert(query_view(query) == ssh_query(user_id@, client_key@, uuid_text(account), gp, tool@, parameters_digest@));
        let rule = lookup_rule(rules, &query);
        let rule_grant = match &rule {
            Some(r) => Some(fixed_grant(r, account_text.as_str(), tool, operation, parameters_digest, clone_opt(&r.catalog_revision))),
            None => None,
        };
        let grant = lookup_grant(grants, account_text.as_str(), tool, operation, parameters_digest, action_parameters, safe);
        let renewed = match &grant {
            Some(g) => Some(renew(g, account_text.as_str(), tool, clone_opt(&g.catalog_revision))),
            None => None,
        };
        let risk = p.risk.clone();
        let candidate = PendingPermission {
            permission_ref: new_ref,
            client_id,
            session_id,
            account_ref: account_text,
            account_label: p.account_label.clone(),
            environment: p.environment.clone(),
            tool: copy_string(tool),
            operation: copy_opt(operation),
            parameters_digest: Some(copy_string(parameters_digest)),
            risk: p.risk.clone(),
            approved_display: p.approved_display.clone(),
            action_display: p.action_display.clone(),
            target_digest: p.target_digest.clone(),
            source_item_ref: Some(account),
            source_item_kind: Some(copy_string(kind)),
            activation_required: true,
            direct_ssh_policy: Some(p),
            direct_http_policy: None,
            direct_connector_policy: None,
            created_at: now_millis,
            expires_at: now_millis.saturating_add(PERMISSION_TTL_MILLIS),
        };
        let ghost c = candidate;
        let out = self.decide_direct(rule, rule_grant, risk.as_str(), grant, renewed, candidate, new_ref, now_millis);
        assert(request_common(c, client_id, session_id, uuid_text(account), tool@, parameters_digest@, now_millis, new_ref));
        assert(ssh_request(c, gp, account, kind@, spec_request_permission_operation(tool@, *action_parameters)));
        Ok(out)
    }
}

/// The source item of a request, as plain values.
pub open spec fn source_view(source: Option<(u128, &str)>) -> Option<(u128, Seq<char>)> {
    match source {
        Some((r, k)) => Some((r, k@)),
        None => None,
    }
}

impl PermissionDesk {
    /// Requests permission for a direct HTTP action on the account `account`
    /// of kind `account_kind`: `policy` is the action's plan (`None` when no
    /// HTTP planner is configured), `rules` the client's persistent rules
    /// when they exist, and `source` the Vault item that the request names.
    #[verifier::rlimit(40)]
    pub fn request_direct_http_permission(
        &mut self,
        rules: Option<&Vec<AgentAuthorizationRule>>,
        client_id: u128,
        session_id: u128,
        user_id: &str,
        client_key: &str,
        account: u128,
        account_kind: &str,
        source: Option<(u128, &str)>,
        policy: Option<Result<AgentDirectHttpPolicy, AgentBrokerError>>,
        tool: &str,
        action_parameters: &JsonValue,
        parameters_digest: &str,
        now_millis: u64,
        new_ref: u128,
    ) -> (r: Result<DirectPermissionOutcome, AgentBrokerError>)
        ensures
            final(self).outcomes@ == old(self).outcomes@,
            match policy {
                None => r matches Err(e) && is_rule_unavailable(e, account_kind@, tool@) && final(self).requests@ == old(self).requests@,
                Some(Err(e)) => r == Err::<DirectPermissionOutcome, AgentBrokerError>(e) && final(self).requests@ == old(self).requests@,
                Some(Ok(p)) => {
                    let method = match action_parameters.spec_get_str("method"@) {
                        Some(m) => m,
                        None => Seq::<char>::empty(),
                    };
                    if p.account_ref != account || p.operation.method@ != method || !showable(http_action_display(p)) {
                        r matches Err(e) && e.code@ == "broker-unavailable"@ && final(self).requests@ == old(self).requests@
                    } else {
                        let account_text = uuid_text(account);
                        let path = action_parameters.spec_get_str("path"@);
                        let q = plain_query(user_id@, client_key@, account_text, p.target_digest@, tool@, parameters_digest@, Some(p.operation.method@), path);
                        let rule = rule_of(rules, q);
                        let rule_grant = http_rule_grant(rule->0, account_text, tool@, path, parameters_digest@);
                        r matches Ok(out) && exists|c: PendingPermission| {
                            &&& request_common(c, client_id, session_id, account_text, tool@, parameters_digest@, now_millis, new_ref)
                            &&& http_request(c, p, source_view(source), path, http_action_display(p))
                            &&& step_holds(
                                direct_step(rule, spec_risk_name(p.operation.risk), None, old(self).requests@, c, now_millis),
                                out,
                                old(self).requests@,
                                final(self).requests@,
                                c,
                                rule_grant,
                                rule_grant,
                                new_ref,
                                now_millis,
                            )
                        }
                    }
                },
            },
    {
        let p = match policy {
            None => return Err(AgentBrokerError::action_rule_unavailable(account_kind, tool)),
            Some(Err(e)) => return Err(e),
            Some(Ok(p)) => p,
        };
        let method = match action_parameters.get_str("method") {
            Some(m) => m,
            None => "",
        };
        proof {
            reveal_strlit("");
            assert(""@ =~= Seq::<char>::empty());
        }
        if p.account_ref != account || !str_eq(p.operation.method.as_str(), method) {
            return Err(AgentBrokerError::internal());
        }
        let head = concat(p.operation.method.as_str(), " ");
        let action_display = concat(head.as_str(), p.operation.path.as_str());
        assert(action_display@ == http_action_display(p));
        if !text_is_showable(action_display.as_str()) {
            return Err(AgentBrokerError::internal());
        }
        let risk = risk_name(p.operation.risk);
        let account_text = format_uuid(account);
        let path = action_parameters.get_str("path");
        let query = AgentAuthorizationMatch {
            user_id,
            client_key,
            account_ref: account_text.as_str(),
            target_digest: p.target_digest.as_str(),
            tool,
            parameters_digest,
            safe: false,
            catalog_revision: "none",
            http_method: Some(p.operation.method.as_str()),
            http_path: path,
        };
        let ghost gp = p;
        let rule = lookup_rule(rules, &query);
        let rule_grant = match &rule {
            Some(r) => Some(http_grant(r, account_text.as_str(), tool, path, parameters_digest)),
            None => None,
        };
        let candidate = PendingPermission {
            permission_ref: new_ref,
            client_id,
            session_id,
            account_ref: account_text,
            account_label: p.account_label.clone(),
            environment: p.environment.clone(),
            tool: copy_string(tool),
            operation: copy_opt(path),
            parameters_digest: Some(copy_string(parameters_digest)),
            risk: risk.clone(),
            approved_display: p.approved_display.clone(),
            action_display,
            target_digest: p.target_digest.clone(),
            source_item_ref: match source {
                Some((r, _)) => Some(r),
                None => None,
            },
            source_item_kind: match source {
                Some((_, k)) => Some(copy_string(k)),
                None => None,
            },
            activation_required: true,
            direct_ssh_policy: None,
            direct_http_policy: Some(p),
            direct_connector_policy: None,
            created_at: now_millis,
            expires_at: now_millis.saturating_add(PERMISSION_TTL_MILLIS),
        };
        let ghost c = candidate;
        let out = self.decide_direct(rule, rule_grant, risk.as_str(), None, None, candidate, new_ref, now_millis);
        assert(request_common(c, client_id, session_id, uuid_text(account), tool@, parameters_digest@, now_millis, new_ref));
        assert(http_request(c, gp, source_view(source), action_parameters.spec_get_str("path"@), http_action_display(gp)));
        Ok(out)
    }

    /// Requests permission for a direct action of a connector on its account
    /// `source_account_ref`: `policy` is the action's plan (`None` when no
    /// connector planner is configured), `rules` the client's persistent
    /// rules and `grants` its connection's grants, when they exist.
    #[verifier::rlimit(40)]
    pub fn request_direct_connector_permission(
        &mut self,
        rules: Option<&Vec<AgentAuthorizationRule>>,
        grants: Option<&Vec<PermissionGrant>>,
        client_id: u128,
        session_id: u128,
        user_id: &str,
        client_key: &str,
        source_account_ref: &str,
        policy: Option<Result<AgentDirectConnectorPolicy, AgentBrokerError>>,
        tool: &str,
        action_parameters: &JsonValue,
        parameters_digest: &str,
        now_millis: u64,
        new_ref: u128,
    ) -> (r: Result<DirectPermissionOutcome, AgentBrokerError>)
        ensures
            final(self).outcomes@ == old(self).outcomes@,
            match policy {
                None => r matches Err(e) && is_rule_unavailable(e, "connector"@, tool@) && final(self).requests@ == old(self).requests@,
                Some(Err(e)) => r == Err::<DirectPermissionOutcome, AgentBrokerError>(e) && final(self).requests@ == old(self).requests@,
                Some(Ok(p)) => if uuid_text(p.account_ref) != source_account_ref@ || p.tool@ != tool@ {
                    r matches Err(e) && e.code@ == "broker-unavailable"@ && final(self).requests@ == old(self).requests@
                } else {
                    let account = source_account_ref@;
                    let op = opt_view(p.operation);
                    let q = plain_query(user_id@, client_key@, account, p.target_digest@, tool@, parameters_digest@, None, None);
                    let rule = rule_of(rules, q);
                    let grant = grant_of(grants, account, tool@, op, parameters_digest@, *action_parameters, false);
                    r matches Ok(out) && exists|c: PendingPermission| {
                        &&& request_common(c, client_id, session_id, account, tool@, parameters_digest@, now_millis, new_ref)
                        &&& connector_request(c, p)
                        &&& step_holds(
                            direct_step(rule, p.risk@, grant, old(self).requests@, c, now_millis),
                            out,
                            old(self).requests@,
                            final(self).requests@,
                            c,
                            fixed_rule_grant(rule->0, account, tool@, op, parameters_digest@, None),
                            renewed_grant(grant->0, account, tool@, None),
                            new_ref,
                            now_millis,
                        )
                    }
                },
            },
    {
        let p = match policy {
            None => return Err(AgentBrokerError::action_rule_unavailable("connector", tool)),
            Some(Err(e)) => return Err(e),
            Some(Ok(p)) => p,
        };
        let owner = format_uuid(p.account_ref);
        if !str_eq(owner.as_str(), source_account_ref) || !str_eq(p.tool.as_str(), tool) {
            return Err(AgentBrokerError::internal());
        }
        let operation = clone_opt(&p.operation);
        let query = AgentAuthorizationMatch {
            user_id,
            client_key,
            account_ref: source_account_ref,
            target_digest: p.target_digest.as_str(),
            tool,
            parameters_digest,
            safe: false,
            catalog_revision: "none",
            http_method: None,
            http_path: None,
        };
        let ghost gp = p;
        let rule = lookup_rule(rules, &query);
        let op_ref: Option<&str> = match &operation {
            Some(o) => Some(o.as_str()),
            None => None,
        };
        let rule_grant = match &rule {
            Some(r) => Some(fixed_grant(r, source_account_ref, tool, op_ref, parameters_digest, None)),
            None => None,
        };
        let grant = lookup_grant(grants, source_account_ref, tool, op_ref, parameters_digest, action_parameters, false);
        let renewed = match &grant {
            Some(g) => Some(renew(g, source_account_ref, tool, None)),
            None => None,
        };
        let risk = p.risk.clone();
        let candidate = PendingPermission {
            permission_ref: new_ref,
            client_id,
            session_id,
            account_ref: copy_string(source_account_ref),
            account_label: p.account_label.clone(),
            environment: p.environment.clone(),
            tool: copy_string(tool),
            operation: clone_opt(&p.operation),
            parameters_digest: Some(copy_string(parameters_digest)),
            risk: p.risk.clone(),
            approved_display: p.approved_display.clone(),
            action_display: p.action_display.clone(),
            target_digest: p.target_digest.clone(),
            source_item_ref: None,
            source_item_kind: None,
            activation_required: true,
            direct_ssh_policy: None,
            direct_http_policy: None,
            direct_connector_policy: Some(p),
            created_at: now_millis,
            expires_at: now_millis.saturating_add(PERMISSION_TTL_MILLIS),
        };
        let ghost c = candidate;
        let out = self.decide_direct(rule, rule_grant, risk.as_str(), grant, renewed, candidate, new_ref, now_millis);
        assert(request_common(c, client_id, session_id, source_account_ref@, tool@, parameters_digest@, now_millis, new_ref));
        assert(connector_request(c, gp));
        Ok(out)
    }
}

// ----------------------------------------------------------------------------
// Routing a permission request
// ----------------------------------------------------------------------------

/// The capabilities of broker discovery, which need no account permission.
pub open spec fn session_base_tools() -> Seq<Seq<char>> {
    seq![
        "vaultmesh_accounts_list"@,
        "vaultmesh_items_list_metadata"@,
        "vaultmesh_item_get_metadata"@,
        "vaultmesh_request_local_ui"@,
    ]
}

/// A Vault account that Agents can name.
#[derive(Clone, Debug)]
pub struct AgentVaultAccountCandidate {
    pub account_ref: u128,
    pub kind: String,
    pub label: String,
}

/// A named operation of a connector: its risk and the tools it unlocks.
#[derive(Clone, Debug)]
pub struct AgentOperationPolicy {
    pub name: String,
    pub risk: String,
    pub tools: Vec<String>,
}

/// What the broker keeps of a connector that stands for a Vault account:
/// the account it stands for, the definition, how the catalog shows it, its
/// kind, the tools it allows and its named operations.
#[derive(Clone, Debug)]
pub struct AgentAccountPolicy {
    pub account_ref: String,
    pub definition_id: u128,
    pub display_label: String,
    pub environment: String,
    pub connector_kind: String,
    pub catalog_kind: String,
    pub allowed_tools: Vec<String>,
    pub enabled: bool,
    pub operations: Vec<AgentOperationPolicy>,
}

/// Where a permission request goes.
#[derive(Debug)]
pub enum PermissionRoute {
    /// A direct action of the connector definition.
    Connector { definition_id: u128 },
    /// A direct SSH action on the candidate account.
    Ssh { candidate: AgentVaultAccountCandidate },
    /// A direct HTTP action on the candidate account.
    Http { candidate: AgentVaultAccountCandidate },
}

/// The first connector that stands for the account `key`.
pub open spec fn first_account_policy(ps: Seq<AgentAccountPolicy>, key: Seq<char>) -> Option<int>
    decreases ps.len(),
{
    if ps.len() == 0 {
        None
    } else if ps[0].account_ref@ == key {
        Some(0)
    } else {
        match first_account_policy(ps.drop_first(), key) {
            Some(i) => Some(i + 1),
            None => None,
        }
    }
}

/// The first candidate account `id`.
pub open spec fn first_candidate(cs: Seq<AgentVaultAccountCandidate>, id: u128) -> Option<int>
    decreases cs.len(),
{
    if cs.len() == 0 {
        None
    } else if cs[0].account_ref == id {
        Some(0)
    } else {
        match first_candidate(cs.drop_first(), id) {
            Some(i) => Some(i + 1),
            None => None,
        }
    }
}

/// The registry has `tool` as a capability that needs an account.
pub open spec fn needs_account(registry: AgentRegistry, tool: Seq<char>) -> bool {
    exists|i: int| 0 <= i < registry.tools@.len() && (#[trigger] registry.tools@[i]).name@ == tool && registry.tools@[i].requires_account
}

/// What a permission request comes to before a direct rule plans it.
pub enum RouteCheck {
    Failed { error: AgentBrokerError },
    Refused { code: Seq<char> },
    RuleUnavailable { kind: Seq<char>, tool: Seq<char> },
    Connector { definition_id: u128 },
    Ssh { index: int },
    Http { index: int },
}

/// The route of a permission request for `tool` on `account_ref`: the
/// capability must need an account and the client be connected; a connector
/// that stands for the account takes the tools it allows and runs directly;
/// otherwise the account must be a candidate whose kind accepts the tool,
/// and SSH accounts take their direct SSH actions, login and secret accounts
/// direct HTTP requests.
pub open spec fn spec_route(
    registry: AgentRegistry,
    tool: Option<Seq<char>>,
    digest: Option<Result<String, AgentBrokerError>>,
    client_known: bool,
    candidates: Result<Vec<AgentVaultAccountCandidate>, AgentBrokerError>,
    connectors: Seq<AgentAccountPolicy>,
    account_ref: Seq<char>,
) -> RouteCheck {
    match tool {
        None => RouteCheck::Refused { code: "invalid-parameters"@ },
        Some(t) => if digest matches Some(Err(_)) {
            RouteCheck::Failed { error: digest->0->Err_0 }
        } else if session_base_tools().contains(t) {
            RouteCheck::Refused { code: "invalid-permission"@ }
        } else if !needs_account(registry, t) {
            RouteCheck::Refused { code: "unknown-tool"@ }
        } else if !client_known {
            RouteCheck::Refused { code: "unknown-client"@ }
        } else {
            match candidates {
                Err(e) => RouteCheck::Failed { error: e },
                Ok(cs) => if digest is None {
                    RouteCheck::Refused { code: "invalid-permission"@ }
                } else {
                    let connector = first_account_policy(connectors, account_ref);
                    if connector matches Some(i) && !connectors[i].enabled {
                        RouteCheck::Refused { code: "account-policy-denied"@ }
                    } else if connector matches Some(i) && names_view(connectors[i].allowed_tools@).contains(t)
                        && crate::policy::spec_is_direct_connector_action_tool(connectors[i].connector_kind@, t) {
                        RouteCheck::Connector { definition_id: connectors[connector->0].definition_id }
                    } else {
                        match crate::ids::uuid_parse(account_ref) {
                            None => RouteCheck::Refused { code: "account-unavailable"@ },
                            Some(id) => match first_candidate(cs@, id) {
                                None => RouteCheck::Refused { code: "account-unavailable"@ },
                                Some(k) => {
                                    let kind = cs@[k].kind@;
                                    if !crate::policy::spec_candidate_accepts_tool(kind, t) {
                                        RouteCheck::Refused { code: "account-policy-denied"@ }
                                    } else if kind == "ssh"@ && crate::policy::direct_ssh_action_tools().contains(t) {
                                        RouteCheck::Ssh { index: k }
                                    } else if (kind == "login"@ || kind == "secret"@) && t == "vaultmesh_http_request"@ {
                                        RouteCheck::Http { index: k }
                                    } else {
                                        RouteCheck::RuleUnavailable { kind, tool: t }
                                    }
                                },
                            },
                        }
                    }
                },
            }
        },
    }
}

/// `r` is what `c` decides; `cs` are the candidates and `digest` the
/// digest of the action parameters.
pub open spec fn route_holds(
    r: Result<(PermissionRoute, String), AgentBrokerError>,
    c: RouteCheck,
    cs: Result<Vec<AgentVaultAccountCandidate>, AgentBrokerError>,
    digest: Option<Result<String, AgentBrokerError>>,
) -> bool {
    let d = match digest {
        Some(Ok(d)) => d@,
        _ => Seq::<char>::empty(),
    };
    match c {
        RouteCheck::Failed { error } => r == Err::<(PermissionRoute, String), AgentBrokerError>(error),
        RouteCheck::Refused { code } => r matches Err(e) && e.code@ == code && !e.retryable,
        RouteCheck::RuleUnavailable { kind, tool } => r matches Err(e) && is_rule_unavailable(e, kind, tool),
        RouteCheck::Connector { definition_id } => r matches Ok((route, rd)) && route == (PermissionRoute::Connector { definition_id })
            && rd@ == d,
        RouteCheck::Ssh { index } => r matches Ok((route, rd)) && (route matches PermissionRoute::Ssh { candidate }
            && candidate == cs->Ok_0@[index]) && rd@ == d,
        RouteCheck::Http { index } => r matches Ok((route, rd)) && (route matches PermissionRoute::Http { candidate }
            && candidate == cs->Ok_0@[index]) && rd@ == d,
    }
}

pub(crate) fn is_session_base_tool(tool: &str) -> (r: bool)
    ensures
        r == session_base_tools().contains(tool@),
{
    let list = vec![
        "vaultmesh_accounts_list",
        "vaultmesh_items_list_metadata",
        "vaultmesh_item_get_metadata",
        "vaultmesh_request_local_ui",
    ];
    assert(crate::text::str_views(list@) =~= session_base_tools());
    crate::text::str_in(&list, tool)
}

fn registry_needs_account(registry: &AgentRegistry, tool: &str) -> (r: bool)
    ensures
        r == needs_account(*registry, tool@),
{
    let mut i: usize = 0;
    while i < registry.tools.len()
        invariant
            i <= registry.tools.len(),
            forall|k: int| 0 <= k < i ==> !((#[trigger] registry.tools@[k]).name@ == tool@ && registry.tools@[k].requires_account),
        decreases registry.tools.len() - i,
    {
        if registry.tools[i].requires_account && str_eq(registry.tools[i].name.as_str(), tool) {
            return true;
        }
        i += 1;
    }
    false
}

pub(crate) fn find_account_policy(ps: &Vec<AgentAccountPolicy>, key: &str) -> (r: Option<usize>)
    ensures
        match r {
            Some(i) => i < ps.len() && first_account_policy(ps@, key@) == Some(i as int),
            None => first_account_policy(ps@, key@) is None,
        },
{
    let mut i: usize = 0;
    assert(ps@.skip(0) =~= ps@);
    while i < ps.len()
        invariant
            i <= ps.len(),
            forall|k: int| 0 <= k < i ==> (#[trigger] ps@[k]).account_ref@ != key@,
            match first_account_policy(ps@, key@) {
                Some(j) => match first_account_policy(ps@.skip(i as int), key@) {
                    Some(m) => j == m + i,
                    None => false,
                },
                None => first_account_policy(ps@.skip(i as int), key@) is None,
            },
        decreases ps.len() - i,
    {
        assert(ps@.skip(i as int).drop_first() =~= ps@.skip(i + 1));
        assert(ps@.skip(i as int)[0] == ps@[i as int]);
        if str_eq(ps[i].account_ref.as_str(), key) {
            return Some(i);
        }
        i += 1;
    }
    None
}

fn find_candidate(cs: &Vec<AgentVaultAccountCandidate>, id: u128) -> (r: Option<usize>)
    ensures
        match r {
            Some(i) => i < cs.len() && first_candidate(cs@, id) == Some(i as int),
            None => first_candidate(cs@, id) is None,
        },
{
    let mut i: usize = 0;
    assert(cs@.skip(0) =~= cs@);
    while i < cs.len()
        invariant
            i <= cs.len(),
            match first_candidate(cs@, id) {
                Some(j) => match first_candidate(cs@.skip(i as int), id) {
                    Some(m) => j == m + i,
                    None => false,
                },
                None => first_candidate(cs@.skip(i as int), id) is None,
            },
        decreases cs.len() - i,
    {
        assert(cs@.skip(i as int).drop_first() =~= cs@.skip(i + 1));
        assert(cs@.skip(i as int)[0] == cs@[i as int]);
        if cs[i].account_ref == id {
            return Some(i);
        }
        i += 1;
    }
    None
}

fn tools_contain(tools: &Vec<String>, tool: &str) -> (r: bool)
    ensures
        r == names_view(tools@).contains(tool@),
{
    let mut i: usize = 0;
    while i < tools.len()
        invariant
            i <= tools.len(),
            forall|k: int| 0 <= k < i ==> tools@[k]@ != tool@,
        decreases tools.len() - i,
    {
        if str_eq(tools[i].as_str(), tool) {
            assert(names_view(tools@)[i as int] == tool@);
            return true;
        }
        i += 1;
    }
    proof {
        if names_view(tools@).contains(tool@) {
            let k = choose|k: int| 0 <= k < tools@.len() && names_view(tools@)[k] == tool@;
            assert(tools@[k]@ == tool@);
        }
    }
    false
}

fn refused(code: &'static str, message: &'static str) -> (e: AgentBrokerError)
    ensures
        e.code == code,
        !e.retryable,
{
    AgentBrokerError::new(code, message, false)
}

/// Routes a permission request for `tool` on `account_ref` to the direct
/// rule that plans it (see `spec_route`). `parameters_digest` is the digest
/// of the action parameters (`None` when the request has none),
/// `client_known` says whether the client is connected, `candidates` are the
/// Vault accounts of the catalog and `connectors` the connectors that stand
/// for accounts.
pub fn route_permission_request(
    registry: &AgentRegistry,
    tool: Option<&str>,
    parameters_digest: Option<Result<String, AgentBrokerError>>,
    client_known: bool,
    candidates: Result<Vec<AgentVaultAccountCandidate>, AgentBrokerError>,
    connectors: &Vec<AgentAccountPolicy>,
    account_ref: &str,
) -> (r: Result<(PermissionRoute, String), AgentBrokerError>)
    ensures
        route_holds(
            r,
            spec_route(*registry, opt_ref_view(tool), parameters_digest, client_known, candidates, connectors@, account_ref@),
            candidates,
            parameters_digest,
        ),
{
    proof {
        reveal_strlit("invalid-parameters");
        reveal_strlit("invalid-permission");
        reveal_strlit("unknown-tool");
        reveal_strlit("unknown-client");
        reveal_strlit("account-policy-denied");
        reveal_strlit("account-unavailable");
    }
    let tool = match tool {
        Some(t) => t,
        None => return Err(refused("invalid-parameters", "A capability is required.")),
    };
    let digest = match parameters_digest {
        Some(Err(e)) => return Err(e),
        Some(Ok(d)) => Some(d),
        None => None,
    };
    if is_session_base_tool(tool) {
        return Err(refused("invalid-permission", "Broker discovery capabilities do not require account permission."));
    }
    if !registry_needs_account(registry, tool) {
        return Err(refused("unknown-tool", "The requested capability is unavailable."));
    }
    if !client_known {
        return Err(refused("unknown-client", "The Agent client is not connected."));
    }
    let cs = match candidates {
        Err(e) => return Err(e),
        Ok(cs) => cs,
    };
    let digest = match digest {
        Some(d) => d,
        None => return Err(refused("invalid-permission", "A canonical action payload is required.")),
    };
    if let Some(i) = find_account_policy(connectors, account_ref) {
        let c = &connectors[i];
        if !c.enabled {
            return Err(refused("account-policy-denied", "The account connector does not allow this capability."));
        }
        if tools_contain(&c.allowed_tools, tool) && crate::policy::is_direct_connector_action_tool(c.connector_kind.as_str(), tool) {
            return Ok((PermissionRoute::Connector { definition_id: c.definition_id }, digest));
        }
    }
    let id = match crate::ids::parse_uuid(account_ref) {
        Some(id) => id,
        None => return Err(refused("account-unavailable", "The Vault account is unavailable.")),
    };
    let k = match find_candidate(&cs, id) {
        Some(k) => k,
        None => return Err(refused("account-unavailable", "The Vault account is unavailable.")),
    };
    let kind = cs[k].kind.as_str();
    if !crate::policy::candidate_accepts_tool(kind, tool) {
        return Err(refused("account-policy-denied", "This Vault account kind cannot create the requested capability."));
    }
    let ssh = str_eq(kind, "ssh") && crate::policy::is_direct_ssh_action_tool(tool);
    let http = (str_eq(kind, "login") || str_eq(kind, "secret")) && str_eq(tool, "vaultmesh_http_request");
    if !ssh && !http {
        return Err(AgentBrokerError::action_rule_unavailable(kind, tool));
    }
    let candidate = AgentVaultAccountCandidate {
        account_ref: cs[k].account_ref,
        kind: cs[k].kind.clone(),
        label: cs[k].label.clone(),
    };
    assert(candidate == cs@[k as int]);
    if ssh {
        Ok((PermissionRoute::Ssh { candidate }, digest))
    } else {
        Ok((PermissionRoute::Http { candidate }, digest))
    }
}

// ----------------------------------------------------------------------------
// Laws
// ----------------------------------------------------------------------------

proof fn lemma_no_open_request(rs: Seq<PendingPermission>, c: PendingPermission, now: u64)
    ensures
        first_open_request(rs, c, now) is None <==> forall|i: int| 0 <= i < rs.len() ==> !same_open_request(#[trigger] rs[i], c, now),
    decreases rs.len(),
{
    if rs.len() > 0 {
        lemma_no_open_request(rs.drop_last(), c, now);
        if first_open_request(rs, c, now) is None {
            assert forall|i: int| 0 <= i < rs.len() implies !same_open_request(#[trigger] rs[i], c, now) by {
                if i < rs.len() - 1 {
                    assert(rs[i] == rs.drop_last()[i]);
                }
            }
        } else {
            if first_open_request(rs.drop_last(), c, now) is None {
                assert(same_open_request(rs[rs.len() - 1], c, now));
            } else {
                let k = choose|k: int| 0 <= k < rs.drop_last().len() && same_open_request(#[trigger] rs.drop_last()[k], c, now);
                assert(rs[k] == rs.drop_last()[k]);
            }
        }
    }
}

/// A persistent rule that denies an action decides it before anything else:
/// no grant of the connection and no open request can allow it.
pub proof fn law_persistent_denial_decides_first(
    rule: AgentAuthorizationRule,
    risk: Seq<char>,
    grant: Option<PermissionGrant>,
    requests: Seq<PendingPermission>,
    candidate: PendingPermission,
    now: u64,
)
    requires
        rule.effect == PermissionEffect::Deny,
    ensures
        direct_step(Some(rule), risk, grant, requests, candidate, now) == (DirectStep::Denied { persistent: true }),
{
}

/// A persistent rule allows at once only actions below risk `R2`; a riskier
/// action still goes to the local authorization window unless the
/// connection decides it.
pub proof fn law_persistent_allow_is_below_r2(
    rule: Option<AgentAuthorizationRule>,
    risk: Seq<char>,
    grant: Option<PermissionGrant>,
    requests: Seq<PendingPermission>,
    candidate: PendingPermission,
    now: u64,
)
    ensures
        direct_step(rule, risk, grant, requests, candidate, now) is AllowedByRule ==> (rule matches Some(r)
            && r.effect == PermissionEffect::Allow && spec_risk_rank(risk) < 2),
{
}

/// Asking again for an action whose request was just opened, before that
/// request expires, reports that request: no second request is opened.
pub proof fn law_open_request_is_reported_again(
    before: Seq<PendingPermission>,
    candidate: PendingPermission,
    now: u64,
    new_ref: u128,
    rule: Option<AgentAuthorizationRule>,
    risk: Seq<char>,
    grant: Option<PermissionGrant>,
    again: PendingPermission,
    later: u64,
)
    requires
        first_open_request(before, candidate, now) is None,
        again.client_id == candidate.client_id,
        again.session_id == candidate.session_id,
        again.account_ref@ == candidate.account_ref@,
        again.tool@ == candidate.tool@,
        opt_view(again.parameters_digest) == opt_view(candidate.parameters_digest),
        now <= later < request_expiry(now),
    ensures
        ({
            let after = before.push(opened(candidate, new_ref, now));
            let step = direct_step(rule, risk, grant, after, again, later);
            &&& step !is Opened
            &&& step matches DirectStep::Repeated { index } ==> (index == before.len() && after[index].permission_ref == new_ref)
        }),
{
    let after = before.push(opened(candidate, new_ref, now));
    lemma_no_open_request(before, candidate, now);
    assert forall|i: int| 0 <= i < before.len() implies !same_open_request(#[trigger] before[i], again, later) by {
        assert(!same_open_request(before[i], candidate, now));
    }
    lemma_no_open_request(before, again, later);
    assert(after.drop_last() =~= before);
    assert(same_open_request(after.last(), again, later));
    assert(first_open_request(after, again, later) == Some(before.len() as int));
}

} // verus!
