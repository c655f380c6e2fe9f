//! Resolving a permission request from the local authorization window: what
//! a choice persists, which grants it gives the connection, and what the
//! waiting Agent call is told.
use vstd::prelude::*;
use crate::authz_rules::AgentAuthorizationRule;
use crate::error::AgentBrokerError;
use crate::http_path::HTTP_PATH_MATCHER_REVISION;
use crate::model::{PermissionChoice, PermissionDuration, PermissionEffect, PermissionScope};
use crate::policy::{
    opt_ref_view, opt_view, permission_available_durations, permission_available_scopes,
    permission_choice_catalog_revision, permission_choice_is_valid, permission_choice_operation,
    permission_choice_parameters_digest, risk_rank, spec_available_durations, spec_available_scopes,
    spec_catalog_revision, spec_choice_is_valid, spec_risk_rank, PendingPermission, PermissionGrant,
    SAFE_SSH_CATALOG_REVISION,
};
use crate::text::{copy_string, str_eq};
use crate::ids::{format_uuid, parse_uuid, uuid_parse, uuid_text};
use crate::model::PermissionRequestSnapshot;
use crate::listing::{is_listing_order, listing_order};
use crate::policy::{permission_available_path_patterns, permission_recommended_choice, spec_available_path_patterns, spec_recommended_choice};

verus! {

broadcast use vstd::string::group_string_axioms;

/// How long the outcome of a resolved request is kept for the waiting call.
pub const AUTHORIZATION_TTL_MILLIS: u64 = 30_000;

/// A session grant as a mathematical value.
pub struct GrantView {
    pub account_ref: Seq<char>,
    pub tool: Seq<char>,
    pub operation: Option<Seq<char>>,
    pub scope: PermissionScope,
    pub parameters_digest: Option<Seq<char>>,
    pub catalog_revision: Option<Seq<char>>,
    pub effect: PermissionEffect,
    pub fresh_confirmation_required: bool,
    pub remaining_uses: Option<u32>,
}

/// The mathematical value of a grant.
pub open spec fn grant_view(g: PermissionGrant) -> GrantView {
    GrantView {
        account_ref: g.account_ref@,
        tool: g.tool@,
        operation: opt_view(g.operation),
        scope: g.scope,
        parameters_digest: opt_view(g.parameters_digest),
        catalog_revision: opt_view(g.catalog_revision),
        effect: g.effect,
        fresh_confirmation_required: g.fresh_confirmation_required,
        remaining_uses: g.remaining_uses,
    }
}

/// The operation a grant made from `choice` is bound to.
pub open spec fn choice_operation(p: PendingPermission, c: PermissionChoice) -> Option<Seq<char>> {
    match c.scope {
        PermissionScope::Exact => opt_view(p.operation),
        PermissionScope::Path => opt_view(c.path_pattern),
        _ => None,
    }
}

/// The digest a grant made from `choice` is bound to: the parameters digest
/// for `Exact`, the HTTP method for `Path`.
pub open spec fn choice_digest(p: PendingPermission, c: PermissionChoice) -> Option<Seq<char>> {
    match c.scope {
        PermissionScope::Exact => opt_view(p.parameters_digest),
        PermissionScope::Path => match p.direct_http_policy {
            Some(policy) => Some(policy.operation.method@),
            None => None,
        },
        _ => None,
    }
}

/// The grant that a choice gives the connection.
pub open spec fn choice_grant(p: PendingPermission, c: PermissionChoice, effect: PermissionEffect, fresh: bool, uses: Option<u32>) -> GrantView {
    GrantView {
        account_ref: p.account_ref@,
        tool: p.tool@,
        operation: choice_operation(p, c),
        scope: c.scope,
        parameters_digest: choice_digest(p, c),
        catalog_revision: spec_catalog_revision(c.scope),
        effect,
        fresh_confirmation_required: fresh,
        remaining_uses: uses,
    }
}

/// The single-use grant of exactly the requested action.
pub open spec fn once_grant(p: PendingPermission) -> GrantView {
    GrantView {
        account_ref: p.account_ref@,
        tool: p.tool@,
        operation: opt_view(p.operation),
        scope: PermissionScope::Exact,
        parameters_digest: opt_view(p.parameters_digest),
        catalog_revision: None,
        effect: PermissionEffect::Allow,
        fresh_confirmation_required: false,
        remaining_uses: Some(1),
    }
}

/// An allow of an action of risk `R2` or more needs a fresh confirmation each time.
pub open spec fn needs_fresh_confirmation(p: PendingPermission, c: PermissionChoice) -> bool {
    spec_risk_rank(p.risk@) >= 2 && c.effect == PermissionEffect::Allow
}

/// What resolving a request with a choice does: on success, the effect of
/// the persistent rule to store (if any), the grants to give the
/// connection in order, and whether the waiting call is allowed; otherwise
/// the error code. `store` says whether the persistent store is available,
/// `client_key` is the key of the requesting client if it is connected.
pub open spec fn spec_resolution(p: PendingPermission, c: PermissionChoice, store: bool, client_key: Option<Seq<char>>)
    -> Result<(Option<PermissionEffect>, Seq<GrantView>, bool), Seq<char>>
{
    if !spec_available_scopes(p).contains(c.scope) || !spec_choice_is_valid(p, c) {
        Err("permission-scope-denied"@)
    } else if p.activation_required {
        if c.effect == PermissionEffect::Allow {
            Err("action-not-activated"@)
        } else if !spec_available_durations(p, c.effect).contains(c.duration) {
            Err("permission-duration-denied"@)
        } else if c.duration == PermissionDuration::Permanent && client_key is None {
            Err("unknown-client"@)
        } else if c.duration == PermissionDuration::Permanent && !store {
            Err("permission-store-unavailable"@)
        } else {
            Ok((
                if c.duration == PermissionDuration::Permanent { Some(PermissionEffect::Deny) } else { None },
                if c.duration == PermissionDuration::Connection {
                    seq![choice_grant(p, c, PermissionEffect::Deny, false, None)]
                } else {
                    Seq::empty()
                },
                false,
            ))
        }
    } else if !spec_available_durations(p, c.effect).contains(c.duration) {
        Err("permission-duration-denied"@)
    } else if !(store && p.parameters_digest is Some) && c.duration == PermissionDuration::Permanent {
        Err("permission-store-unavailable"@)
    } else if client_key is None {
        Err("unknown-client"@)
    } else {
        Ok((
            if c.duration == PermissionDuration::Permanent { Some(c.effect) } else { None },
            if c.effect == PermissionEffect::Deny && c.duration == PermissionDuration::Connection {
                seq![choice_grant(p, c, PermissionEffect::Deny, false, None)]
            } else if needs_fresh_confirmation(p, c) {
                (if c.duration == PermissionDuration::Connection {
                    seq![choice_grant(p, c, PermissionEffect::Allow, true, None)]
                } else {
                    Seq::empty()
                }) + seq![once_grant(p)]
            } else if c.effect == PermissionEffect::Allow {
                seq![choice_grant(p, c, PermissionEffect::Allow, false, if c.duration == PermissionDuration::Once { Some(1) } else { None })]
            } else {
                Seq::empty()
            },
            c.effect == PermissionEffect::Allow,
        ))
    }
}

/// The persistent rule stored for a choice: bound to the client, account,
/// target and tool of the request, and to what the scope needs (the
/// parameters digest for `Exact`, the safe catalog for `Safe`, the HTTP
/// method, path pattern and matcher for `Path`).
pub open spec fn rule_for_choice(
    r: AgentAuthorizationRule,
    p: PendingPermission,
    c: PermissionChoice,
    client_key: Seq<char>,
    effect: PermissionEffect,
    id: u128,
    now: u64,
) -> bool {
    &&& r.id == id
    &&& r.client_key@ == client_key
    &&& r.account_ref@ == p.account_ref@
    &&& r.target_digest@ == p.target_digest@
    &&& r.tool@ == p.tool@
    &&& r.scope == c.scope
    &&& r.effect == effect
    &&& opt_view(r.parameters_digest) == (if c.scope == PermissionScope::Exact { opt_view(p.parameters_digest) } else { None })
    &&& opt_view(r.catalog_revision) == (if c.scope == PermissionScope::Safe { Some(SAFE_SSH_CATALOG_REVISION@) } else { None })
    &&& opt_view(r.http_method) == (if c.scope == PermissionScope::Path { choice_digest(p, c) } else { None })
    &&& opt_view(r.path_pattern) == (if c.scope == PermissionScope::Path { opt_view(c.path_pattern) } else { None })
    &&& opt_view(r.matcher_revision) == (if c.scope == PermissionScope::Path { Some(HTTP_PATH_MATCHER_REVISION@) } else { None })
    &&& r.created_at == now
    &&& r.updated_at == now
}

/// What resolving a permission request does besides retiring the request.
#[derive(Debug)]
pub struct PermissionResolutionPlan {
    /// The rule to store for the client's OS user.
    pub rule: Option<AgentAuthorizationRule>,
    /// The grants to give the connection, in order.
    pub grants: Vec<PermissionGrant>,
    /// Whether the waiting call is allowed.
    pub allowed: bool,
}

fn opt_string(o: Option<&str>) -> (r: Option<String>)
    ensures
        opt_view(r) == opt_ref_view(o),
{
    match o {
        Some(s) => Some(copy_string(s)),
        None => None,
    }
}

fn make_choice_grant(p: &PendingPermission, c: &PermissionChoice, effect: PermissionEffect, fresh: bool, uses: Option<u32>) -> (g: PermissionGrant)
    ensures
        grant_view(g) == choice_grant(*p, *c, effect, fresh, uses),
{
    PermissionGrant {
        account_ref: p.account_ref.clone(),
        tool: p.tool.clone(),
        operation: opt_string(permission_choice_operation(p, c)),
        scope: c.scope,
        parameters_digest: opt_string(permission_choice_parameters_digest(p, c)),
        catalog_revision: opt_string(permission_choice_catalog_revision(c)),
        effect,
        fresh_confirmation_required: fresh,
        remaining_uses: uses,
    }
}

fn make_once_grant(p: &PendingPermission) -> (g: PermissionGrant)
    ensures
        grant_view(g) == once_grant(*p),
{
    PermissionGrant {
        account_ref: p.account_ref.clone(),
        tool: p.tool.clone(),
        operation: p.operation.clone(),
        scope: PermissionScope::Exact,
        parameters_digest: p.parameters_digest.clone(),
        catalog_revision: None,
        effect: PermissionEffect::Allow,
        fresh_confirmation_required: false,
        remaining_uses: Some(1),
    }
}

fn make_rule(p: &PendingPermission, c: &PermissionChoice, client_key: &str, effect: PermissionEffect, id: u128, now: u64) -> (r: AgentAuthorizationRule)
    ensures
        rule_for_choice(r, *p, *c, client_key@, effect, id, now),
{
    let exact = c.scope == PermissionScope::Exact;
    let safe = c.scope == PermissionScope::Safe;
    let path = c.scope == PermissionScope::Path;
    AgentAuthorizationRule {
        id,
        client_key: copy_string(client_key),
        account_ref: p.account_ref.clone(),
        target_digest: p.target_digest.clone(),
        tool: p.tool.clone(),
        scope: c.scope,
        effect,
        parameters_digest: if exact { p.parameters_digest.clone() } else { None },
        catalog_revision: if safe { Some(copy_string(SAFE_SSH_CATALOG_REVISION)) } else { None },
        http_method: if path { opt_string(permission_choice_parameters_digest(p, c)) } else { None },
        path_pattern: if path { c.path_pattern.clone() } else { None },
        matcher_revision: if path { Some(copy_string(HTTP_PATH_MATCHER_REVISION)) } else { None },
        created_at: now,
        updated_at: now,
    }
}

fn contains_scope(list: &Vec<PermissionScope>, scope: PermissionScope) -> (r: bool)
    ensures
        r == list@.contains(scope),
{
    let mut i: usize = 0;
    while i < list.len()
        invariant
            i <= list.len(),
            forall|k: int| 0 <= k < i ==> list@[k] != scope,
        decreases list.len() - i,
    {
        if list[i] == scope {
            assert(list@[i as int] == scope);
            return true;
        }
        i += 1;
    }
    false
}

fn contains_duration(list: &Vec<PermissionDuration>, duration: PermissionDuration) -> (r: bool)
    ensures
        r == list@.contains(duration),
{
    let mut i: usize = 0;
    while i < list.len()
        invariant
            i <= list.len(),
            forall|k: int| 0 <= k < i ==> list@[k] != duration,
        decreases list.len() - i,
    {
        if list[i] == duration {
            assert(list@[i as int] == duration);
            return true;
        }
        i += 1;
    }
    false
}

fn plan_error(code: &'static str, message: &'static str, retryable: bool) -> (e: AgentBrokerError)
    ensures
        e.code == code,
        e.retryable == retryable,
{
    AgentBrokerError::new(code, message, retryable)
}

/// Decides what resolving a pending permission request with `choice` does
/// (see `spec_resolution` and `rule_for_choice`). `rule_id` names a rule
/// that is stored; `now_millis` stamps it. Errors are retryable only when
/// the persistent store is unavailable.
pub fn plan_permission_resolution(
    pending: &PendingPermission,
    choice: &PermissionChoice,
    store_available: bool,
    client_key: Option<&str>,
    rule_id: u128,
    now_millis: u64,
) -> (r: Result<PermissionResolutionPlan, AgentBrokerError>)
    ensures
        match spec_resolution(*pending, *choice, store_available, opt_ref_view(client_key)) {
            Ok((rule_effect, grants, allowed)) => r matches Ok(plan)
                && plan.allowed == allowed
                && plan.grants@.map_values(|g: PermissionGrant| grant_view(g)) == grants
                && match rule_effect {
                    None => plan.rule is None,
                    Some(effect) => plan.rule matches Some(rule) && rule_for_choice(rule, *pending, *choice, client_key->0@, effect, rule_id, now_millis),
                },
            Err(code) => r matches Err(e) && e.code@ == code && e.retryable == (code == "permission-store-unavailable"@),
        },
{
    proof {
        reveal_strlit("permission-scope-denied");
        reveal_strlit("action-not-activated");
        reveal_strlit("permission-duration-denied");
        reveal_strlit("unknown-client");
        reveal_strlit("permission-store-unavailable");
    }
    let scopes = permission_available_scopes(pending);
    if !contains_scope(&scopes, choice.scope) || !permission_choice_is_valid(pending, choice) {
        return Err(plan_error(
            "permission-scope-denied",
            "The selected authorization scope or HTTP path pattern is invalid.",
            false,
        ));
    }
    let durations = permission_available_durations(pending, choice.effect);
    if pending.activation_required {
        if choice.effect == PermissionEffect::Allow {
            assert("action-not-activated"@ != "permission-store-unavailable"@) by {
                assert("action-not-activated"@.len() != "permission-store-unavailable"@.len());
            }
            return Err(plan_error(
                "action-not-activated",
                "Activate the broker-owned direct action before allowing this request.",
                false,
            ));
        }
        if !contains_duration(&durations, choice.duration) {
            return Err(plan_error(
                "permission-duration-denied",
                "The selected authorization duration is not valid for this action risk.",
                false,
            ));
        }
        let mut rule: Option<AgentAuthorizationRule> = None;
        if choice.duration == PermissionDuration::Permanent {
            let key = match client_key {
                Some(k) => k,
                None => return Err(plan_error("unknown-client", "The Agent client is not connected.", false)),
            };
            if !store_available {
                return Err(plan_error(
                    "permission-store-unavailable",
                    "The persistent authorization store is unavailable.",
                    true,
                ));
            }
            rule = Some(make_rule(pending, choice, key, PermissionEffect::Deny, rule_id, now_millis));
        }
        let mut grants: Vec<PermissionGrant> = Vec::new();
        if choice.duration == PermissionDuration::Connection {
            grants.push(make_choice_grant(pending, choice, PermissionEffect::Deny, false, None));
        }
        let plan = PermissionResolutionPlan { rule, grants, allowed: false };
        proof {
            let want = spec_resolution(*pending, *choice, store_available, opt_ref_view(client_key))->Ok_0.1;
            assert(plan.grants@.map_values(|g: PermissionGrant| grant_view(g)) =~= want);
        }
        return Ok(plan);
    }
    if !contains_duration(&durations, choice.duration) {
        return Err(plan_error(
            "permission-duration-denied",
            "The selected authorization duration is not valid for this action risk.",
            false,
        ));
    }
    let use_scoped_store = store_available && pending.parameters_digest.is_some();
    if !use_scoped_store && choice.duration == PermissionDuration::Permanent {
        return Err(plan_error(
            "permission-store-unavailable",
            "Persistent authorization requires the scoped authorization store.",
            true,
        ));
    }
    let key = match client_key {
        Some(k) => k,
        None => return Err(plan_error("unknown-client", "The Agent client is not connected.", false)),
    };
    let rule = if choice.duration == PermissionDuration::Permanent {
        Some(make_rule(pending, choice, key, choice.effect, rule_id, now_millis))
    } else {
        None
    };
    proof {
        reveal_strlit("R0");
        reveal_strlit("R1");
        reveal_strlit("R2");
        assert("R0"@[1] != "R2"@[1]);
        assert("R1"@[1] != "R2"@[1]);
        assert(spec_risk_rank("R2"@) == 2);
    }
    let fresh = risk_rank(pending.risk.as_str()) >= risk_rank("R2") && choice.effect == PermissionEffect::Allow;
    let mut grants: Vec<PermissionGrant> = Vec::new();
    if choice.effect == PermissionEffect::Deny && choice.duration == PermissionDuration::Connection {
        grants.push(make_choice_grant(pending, choice, PermissionEffect::Deny, false, None));
    } else if choice.effect == PermissionEffect::Allow && fresh {
        if choice.duration == PermissionDuration::Connection {
            grants.push(make_choice_grant(pending, choice, PermissionEffect::Allow, true, None));
        }
        grants.push(make_once_grant(pending));
    } else if choice.effect == PermissionEffect::Allow {
        let uses: Option<u32> = if choice.duration == PermissionDuration::Once { Some(1) } else { None };
        grants.push(make_choice_grant(pending, choice, PermissionEffect::Allow, false, uses));
    }
    let plan = PermissionResolutionPlan { rule, grants, allowed: choice.effect == PermissionEffect::Allow };
    proof {
        let want = spec_resolution(*pending, *choice, store_available, opt_ref_view(client_key))->Ok_0.1;
        assert(plan.grants@.map_values(|g: PermissionGrant| grant_view(g)) =~= want);
    }
    Ok(plan)
}

// ----------------------------------------------------------------------------
// Connection grants
// ----------------------------------------------------------------------------

/// Two grants bind the same thing and differ at most in their remaining uses.
pub open spec fn same_grant_key(a: GrantView, b: GrantView) -> bool {
    &&& a.account_ref == b.account_ref
    &&& a.tool == b.tool
    &&& a.operation == b.operation
    &&& a.scope == b.scope
    &&& a.parameters_digest == b.parameters_digest
    &&& a.catalog_revision == b.catalog_revision
    &&& a.effect == b.effect
    &&& a.fresh_confirmation_required == b.fresh_confirmation_required
}

/// `i` is the first grant with the key of `g`.
pub open spec fn is_first_same_grant(gs: Seq<GrantView>, g: GrantView, i: int) -> bool {
    &&& 0 <= i < gs.len()
    &&& same_grant_key(gs[i], g)
    &&& forall|j: int| 0 <= j < i ==> !same_grant_key(#[trigger] gs[j], g)
}

/// The grants of a client after `g` is given: a grant with the same key
/// takes the remaining uses of `g` (and so becomes `g`); otherwise `g` is added.
pub open spec fn spec_apply_grant(gs: Seq<GrantView>, g: GrantView) -> Seq<GrantView> {
    if exists|i: int| is_first_same_grant(gs, g, i) {
        gs.update(choose|i: int| is_first_same_grant(gs, g, i), g)
    } else {
        gs.push(g)
    }
}

/// No two grants have the same key.
pub open spec fn unique_grant_keys(gs: Seq<GrantView>) -> bool {
    forall|i: int, j: int| 0 <= i < j < gs.len() ==> !same_grant_key(#[trigger] gs[i], #[trigger] gs[j])
}

/// The views of a list of grants.
pub open spec fn grants_view(gs: Seq<PermissionGrant>) -> Seq<GrantView> {
    gs.map_values(|g: PermissionGrant| grant_view(g))
}

proof fn lemma_first_same_grant_exists(gs: Seq<GrantView>, g: GrantView, k: int)
    requires
        0 <= k < gs.len(),
        same_grant_key(gs[k], g),
    ensures
        exists|i: int| is_first_same_grant(gs, g, i),
    decreases k,
{
    if forall|j: int| 0 <= j < k ==> !same_grant_key(#[trigger] gs[j], g) {
        assert(is_first_same_grant(gs, g, k));
    } else {
        let j = choose|j: int| 0 <= j < k && !!same_grant_key(#[trigger] gs[j], g);
        lemma_first_same_grant_exists(gs, g, j);
    }
}

/// Giving the same grant twice leaves the grants as giving it once.
pub proof fn law_grant_is_idempotent(gs: Seq<GrantView>, g: GrantView)
    ensures
        spec_apply_grant(spec_apply_grant(gs, g), g) == spec_apply_grant(gs, g),
{
    let once = spec_apply_grant(gs, g);
    if exists|i: int| is_first_same_grant(gs, g, i) {
        let i = choose|i: int| is_first_same_grant(gs, g, i);
        assert(is_first_same_grant(once, g, i)) by {
            assert forall|j: int| 0 <= j < i implies !same_grant_key(#[trigger] once[j], g) by {
                assert(once[j] == gs[j]);
            }
        }
        let k = choose|k: int| is_first_same_grant(once, g, k);
        assert(k == i) by {
            if k < i {
                assert(once[k] == gs[k]);
            } else if k > i {
                assert(!same_grant_key(once[i], g));
            }
        }
        assert(once.update(i, g) =~= once);
    } else {
        let n = gs.len() as int;
        assert(same_grant_key(once[n], g));
        lemma_first_same_grant_exists(once, g, n);
        let k = choose|k: int| is_first_same_grant(once, g, k);
        assert(k == n) by {
            if k < n {
                assert(once[k] == gs[k]);
                assert(is_first_same_grant(gs, g, k)) by {
                    assert forall|j: int| 0 <= j < k implies !same_grant_key(#[trigger] gs[j], g) by {
                        assert(once[j] == gs[j]);
                    }
                }
            }
        }
        assert(once.update(n, g) =~= once);
    }
}

/// Giving a grant keeps the keys of a client's grants unique, and the given
/// grant is then among them.
pub proof fn law_grant_keeps_keys_unique(gs: Seq<GrantView>, g: GrantView)
    requires
        unique_grant_keys(gs),
    ensures
        unique_grant_keys(spec_apply_grant(gs, g)),
        spec_apply_grant(gs, g).contains(g),
{
    let after = spec_apply_grant(gs, g);
    if exists|i: int| is_first_same_grant(gs, g, i) {
        let i = choose|i: int| is_first_same_grant(gs, g, i);
        assert forall|a: int, b: int| 0 <= a < b < after.len() implies !same_grant_key(#[trigger] after[a], #[trigger] after[b]) by {
            if a == i {
                assert(!same_grant_key(gs[i], gs[b]));
            } else if b == i {
                assert(!same_grant_key(gs[a], gs[i]));
            } else {
                assert(!same_grant_key(gs[a], gs[b]));
            }
        }
        assert(after[i] == g);
    } else {
        assert forall|a: int, b: int| 0 <= a < b < after.len() implies !same_grant_key(#[trigger] after[a], #[trigger] after[b]) by {
            if b == gs.len() {
                if same_grant_key(gs[a], g) {
                    lemma_first_same_grant_exists(gs, g, a);
                }
            }
        }
        assert(after[gs.len() as int] == g);
    }
}

fn opt_same(a: &Option<String>, b: &Option<String>) -> (r: bool)
    ensures
        r == (opt_view(*a) == opt_view(*b)),
{
    match (a, b) {
        (Some(x), Some(y)) => str_eq(x.as_str(), y.as_str()),
        (None, None) => true,
        _ => false,
    }
}

fn same_key_exec(a: &PermissionGrant, b: &PermissionGrant) -> (r: bool)
    ensures
        r == same_grant_key(grant_view(*a), grant_view(*b)),
{
    str_eq(a.account_ref.as_str(), b.account_ref.as_str()) && str_eq(a.tool.as_str(), b.tool.as_str())
        && opt_same(&a.operation, &b.operation) && a.scope == b.scope
        && opt_same(&a.parameters_digest, &b.parameters_digest)
        && opt_same(&a.catalog_revision, &b.catalog_revision) && a.effect == b.effect
        && a.fresh_confirmation_required == b.fresh_confirmation_required
}

/// Gives a client a grant (see `spec_apply_grant`).
pub fn apply_permission_grant(grants: &mut Vec<PermissionGrant>, input: PermissionGrant)
    ensures
        grants_view(final(grants)@) == spec_apply_grant(grants_view(old(grants)@), grant_view(input)),
{
    let ghost gs = grants_view(grants@);
    let ghost g = grant_view(input);
    let mut i: usize = 0;
    while i < grants.len()
        invariant
            i <= grants.len(),
            gs == grants_view(grants@),
            grants@ == old(grants)@,
            g == grant_view(input),
            forall|j: int| 0 <= j < i ==> !same_grant_key(#[trigger] gs[j], g),
        decreases grants.len() - i,
    {
        if same_key_exec(&grants[i], &input) {
            assert(is_first_same_grant(gs, g, i as int));
            proof {
                let k = choose|k: int| is_first_same_grant(gs, g, k);
                assert(k == i) by {
                    if k < i {
                    } else if k > i {
                        assert(!same_grant_key(gs[i as int], g));
                    }
                }
            }
            grants.set(i, input);
            assert(grants_view(grants@) =~= gs.update(i as int, g));
            return;
        }
        i += 1;
    }
    grants.push(input);
    assert(grants_view(grants@) =~= gs.push(g));
}

/// The permissions of one connection session.
#[derive(Debug)]
pub struct ConnectionSession {
    pub session_id: u128,
    pub client_id: u128,
    /// Whether the broker manages this session's grants on behalf of the connection.
    pub connection_managed: bool,
    pub allowed_accounts: Vec<String>,
    pub allowed_tools: Vec<String>,
    pub issued_at: u64,
    pub expires_at: u64,
    pub request_limit: u32,
    pub requests_used: u32,
}

/// The texts of a list of strings.
pub open spec fn names_view(list: Seq<String>) -> Seq<Seq<char>> {
    list.map_values(|s: String| s@)
}

/// A set of names after `name` is added.
pub open spec fn spec_insert_name(names: Seq<Seq<char>>, name: Seq<char>) -> Seq<Seq<char>> {
    if names.contains(name) {
        names
    } else {
        names.push(name)
    }
}

fn insert_name(list: &mut Vec<String>, name: &str)
    ensures
        names_view(final(list)@) == spec_insert_name(names_view(old(list)@), name@),
{
    let ghost ns = names_view(list@);
    let mut i: usize = 0;
    while i < list.len()
        invariant
            i <= list.len(),
            ns == names_view(list@),
            forall|j: int| 0 <= j < i ==> ns[j] != name@,
        decreases list.len() - i,
    {
        if str_eq(list[i].as_str(), name) {
            assert(ns[i as int] == name@);
            return;
        }
        i += 1;
    }
    list.push(copy_string(name));
    assert(names_view(list@) =~= ns.push(name@));
}

/// Gives a connection-managed session a grant for its client: the session
/// then admits the grant's account and tool, and the client's grants are
/// updated (see `spec_apply_grant`). A session with an explicit capability
/// set is refused.
pub fn grant_permission(
    session: &mut ConnectionSession,
    grants: &mut Vec<PermissionGrant>,
    input: PermissionGrant,
) -> (r: Result<(), AgentBrokerError>)
    ensures
        !old(session).connection_managed ==> (r matches Err(e) && e.code@ == "invalid-permission"@)
            && *final(session) == *old(session) && final(grants)@ == old(grants)@,
        old(session).connection_managed ==> r is Ok
            && final(session).session_id == old(session).session_id
            && final(session).client_id == old(session).client_id
            && final(session).connection_managed
            && final(session).issued_at == old(session).issued_at
            && final(session).expires_at == old(session).expires_at
            && final(session).request_limit == old(session).request_limit
            && final(session).requests_used == old(session).requests_used
            && names_view(final(session).allowed_accounts@) == spec_insert_name(names_view(old(session).allowed_accounts@), input.account_ref@)
            && names_view(final(session).allowed_tools@) == spec_insert_name(names_view(old(session).allowed_tools@), input.tool@)
            && grants_view(final(grants)@) == spec_apply_grant(grants_view(old(grants)@), grant_view(input)),
{
    if !session.connection_managed {
        proof {
            reveal_strlit("invalid-permission");
        }
        return Err(AgentBrokerError::new(
            "invalid-permission",
            "This connection already has an explicit capability session.",
            false,
        ));
    }
    insert_name(&mut session.allowed_accounts, input.account_ref.as_str());
    insert_name(&mut session.allowed_tools, input.tool.as_str());
    apply_permission_grant(grants, input);
    Ok(())
}

/// The grants after giving each of `inputs` in turn (see `spec_apply_grant`).
pub open spec fn apply_all_grants(gs: Seq<GrantView>, inputs: Seq<GrantView>) -> Seq<GrantView>
    decreases inputs.len(),
{
    if inputs.len() == 0 {
        gs
    } else {
        spec_apply_grant(apply_all_grants(gs, inputs.drop_last()), inputs.last())
    }
}

/// The names after inserting each of `inputs` in turn (see `spec_insert_name`).
pub open spec fn insert_all_names(names: Seq<Seq<char>>, inputs: Seq<Seq<char>>) -> Seq<Seq<char>>
    decreases inputs.len(),
{
    if inputs.len() == 0 {
        names
    } else {
        spec_insert_name(insert_all_names(names, inputs.drop_last()), inputs.last())
    }
}

/// Gives a connection-managed session the grants of a resolution plan, in
/// order (see `grant_permission`); a plan without grants changes nothing,
/// and a session with an explicit capability set refuses any.
pub fn apply_permission_plan(
    session: &mut ConnectionSession,
    grants: &mut Vec<PermissionGrant>,
    plan_grants: &Vec<PermissionGrant>,
) -> (r: Result<(), AgentBrokerError>)
    ensures
        (plan_grants.len() > 0 && !old(session).connection_managed) ==> (r matches Err(e) && e.code@ == "invalid-permission"@)
            && *final(session) == *old(session) && final(grants)@ == old(grants)@,
        (plan_grants.len() == 0 || old(session).connection_managed) ==> r is Ok
            && final(session).session_id == old(session).session_id
            && final(session).client_id == old(session).client_id
            && final(session).connection_managed == old(session).connection_managed
            && final(session).issued_at == old(session).issued_at
            && final(session).expires_at == old(session).expires_at
            && final(session).request_limit == old(session).request_limit
            && final(session).requests_used == old(session).requests_used
            && names_view(final(session).allowed_accounts@)
                == insert_all_names(names_view(old(session).allowed_accounts@), plan_grants@.map_values(|g: PermissionGrant| g.account_ref@))
            && names_view(final(session).allowed_tools@)
                == insert_all_names(names_view(old(session).allowed_tools@), plan_grants@.map_values(|g: PermissionGrant| g.tool@))
            && grants_view(final(grants)@) == apply_all_grants(grants_view(old(grants)@), grants_view(plan_grants@)),
{
    let ghost accounts = plan_grants@.map_values(|g: PermissionGrant| g.account_ref@);
    let ghost tools = plan_grants@.map_values(|g: PermissionGrant| g.tool@);
    let ghost inputs = grants_view(plan_grants@);
    let mut i: usize = 0;
    assert(accounts.take(0) =~= Seq::<Seq<char>>::empty());
    assert(tools.take(0) =~= Seq::<Seq<char>>::empty());
    assert(inputs.take(0) =~= Seq::<GrantView>::empty());
    while i < plan_grants.len()
        invariant
            i <= plan_grants.len(),
            accounts == plan_grants@.map_values(|g: PermissionGrant| g.account_ref@),
            tools == plan_grants@.map_values(|g: PermissionGrant| g.tool@),
            inputs == grants_view(plan_grants@),
            session.session_id == old(session).session_id,
            session.client_id == old(session).client_id,
            session.connection_managed == old(session).connection_managed,
            session.issued_at == old(session).issued_at,
            session.expires_at == old(session).expires_at,
            session.request_limit == old(session).request_limit,
            session.requests_used == old(session).requests_used,
            i > 0 ==> old(session).connection_managed,
            i == 0 ==> *session == *old(session) && grants@ == old(grants)@,
            names_view(session.allowed_accounts@) == insert_all_names(names_view(old(session).allowed_accounts@), accounts.take(i as int)),
            names_view(session.allowed_tools@) == insert_all_names(names_view(old(session).allowed_tools@), tools.take(i as int)),
            grants_view(grants@) == apply_all_grants(grants_view(old(grants)@), inputs.take(i as int)),
        decreases plan_grants.len() - i,
    {
        let g = crate::request_gate::clone_grant(&plan_grants[i]);
        match grant_permission(session, grants, g) {
            Ok(()) => {},
            Err(e) => return Err(e),
        }
        assert(accounts.take(i + 1).drop_last() =~= accounts.take(i as int));
        assert(tools.take(i + 1).drop_last() =~= tools.take(i as int));
        assert(inputs.take(i + 1).drop_last() =~= inputs.take(i as int));
        i += 1;
    }
    assert(accounts.take(plan_grants.len() as int) =~= accounts);
    assert(tools.take(plan_grants.len() as int) =~= tools);
    assert(inputs.take(plan_grants.len() as int) =~= inputs);
    Ok(())
}

// ----------------------------------------------------------------------------
// Waiting for a resolution
// ----------------------------------------------------------------------------

/// What a waiting Agent call is told about its permission request.
#[derive(Clone, Copy, Debug, PartialEq, Eq, Structural)]
pub enum PermissionWaitOutcome {
    Pending,
    Allowed,
    Denied,
    Expired,
}

/// The outcome of a resolved request, kept until it is read or expires.
#[derive(Clone, Copy, Debug, PartialEq, Eq, Structural)]
pub struct ResolvedPermissionOutcome {
    pub permission_ref: u128,
    pub allowed: bool,
    pub expires_at: u64,
}

/// The open permission requests and the outcomes not yet read.
#[derive(Debug)]
pub struct PermissionDesk {
    pub requests: Vec<PendingPermission>,
    pub outcomes: Vec<ResolvedPermissionOutcome>,
}

/// The outcomes that are not about `r`.
pub open spec fn outcomes_without(os: Seq<ResolvedPermissionOutcome>, r: u128) -> Seq<ResolvedPermissionOutcome>
    decreases os.len(),
{
    if os.len() == 0 {
        os
    } else if os.last().permission_ref == r {
        outcomes_without(os.drop_last(), r)
    } else {
        outcomes_without(os.drop_last(), r).push(os.last())
    }
}

/// The requests that are not `r`.
pub open spec fn requests_without(rs: Seq<PendingPermission>, r: u128) -> Seq<PendingPermission>
    decreases rs.len(),
{
    if rs.len() == 0 {
        rs
    } else if rs.last().permission_ref == r {
        requests_without(rs.drop_last(), r)
    } else {
        requests_without(rs.drop_last(), r).push(rs.last())
    }
}

/// The outcomes that have not expired at `now`.
pub open spec fn live_outcomes(os: Seq<ResolvedPermissionOutcome>, now: u64) -> Seq<ResolvedPermissionOutcome>
    decreases os.len(),
{
    if os.len() == 0 {
        os
    } else if os.last().expires_at > now {
        live_outcomes(os.drop_last(), now).push(os.last())
    } else {
        live_outcomes(os.drop_last(), now)
    }
}

/// A request is still open at `now`: not expired, and its session and
/// client are still there.
pub open spec fn request_live(p: PendingPermission, now: u64, sessions: Seq<u128>, clients: Seq<u128>) -> bool {
    p.expires_at > now && sessions.contains(p.session_id) && clients.contains(p.client_id)
}

/// The requests still open at `now`.
pub open spec fn live_requests(rs: Seq<PendingPermission>, now: u64, sessions: Seq<u128>, clients: Seq<u128>) -> Seq<PendingPermission>
    decreases rs.len(),
{
    if rs.len() == 0 {
        rs
    } else if request_live(rs.last(), now, sessions, clients) {
        live_requests(rs.drop_last(), now, sessions, clients).push(rs.last())
    } else {
        live_requests(rs.drop_last(), now, sessions, clients)
    }
}

/// Some request is `r`.
pub open spec fn has_request(rs: Seq<PendingPermission>, r: u128) -> bool {
    exists|i: int| 0 <= i < rs.len() && (#[trigger] rs[i]).permission_ref == r
}

/// Some outcome is about `r`.
pub open spec fn has_outcome(os: Seq<ResolvedPermissionOutcome>, r: u128) -> bool {
    exists|i: int| 0 <= i < os.len() && (#[trigger] os[i]).permission_ref == r
}

/// `i` is the first outcome about `r`.
pub open spec fn is_first_outcome(os: Seq<ResolvedPermissionOutcome>, r: u128, i: int) -> bool {
    &&& 0 <= i < os.len()
    &&& os[i].permission_ref == r
    &&& forall|k: int| 0 <= k < i ==> (#[trigger] os[k]).permission_ref != r
}

/// What a waiting call about `r` is told, and the outcomes afterwards: an
/// open request is pending; a resolved one is allowed or denied, and its
/// outcome is consumed; anything else (an unreadable reference included) has expired.
pub open spec fn spec_wait(rs: Seq<PendingPermission>, os: Seq<ResolvedPermissionOutcome>, r: Option<u128>)
    -> (PermissionWaitOutcome, Seq<ResolvedPermissionOutcome>)
{
    match r {
        None => (PermissionWaitOutcome::Expired, os),
        Some(r) => if has_request(rs, r) {
            (PermissionWaitOutcome::Pending, os)
        } else if has_outcome(os, r) {
            let i = choose|i: int| is_first_outcome(os, r, i);
            (if os[i].allowed { PermissionWaitOutcome::Allowed } else { PermissionWaitOutcome::Denied }, os.remove(i))
        } else {
            (PermissionWaitOutcome::Expired, os)
        },
    }
}

/// The desk after request `r` is resolved at `now`: the request is retired
/// and its outcome replaces any earlier one, kept for `AUTHORIZATION_TTL_MILLIS`.
pub open spec fn spec_record(rs: Seq<PendingPermission>, os: Seq<ResolvedPermissionOutcome>, r: u128, allowed: bool, now: u64)
    -> (Seq<PendingPermission>, Seq<ResolvedPermissionOutcome>)
{
    (
        requests_without(rs, r),
        outcomes_without(os, r).push(ResolvedPermissionOutcome {
            permission_ref: r,
            allowed,
            expires_at: if now + AUTHORIZATION_TTL_MILLIS > u64::MAX { u64::MAX } else { (now + AUTHORIZATION_TTL_MILLIS) as u64 },
        }),
    )
}

pub(crate) proof fn lemma_outcomes_without(os: Seq<ResolvedPermissionOutcome>, r: u128)
    ensures
        !has_outcome(outcomes_without(os, r), r),
    decreases os.len(),
{
    if os.len() > 0 {
        lemma_outcomes_without(os.drop_last(), r);
    }
}

proof fn lemma_requests_without(rs: Seq<PendingPermission>, r: u128)
    ensures
        !has_request(requests_without(rs, r), r),
    decreases rs.len(),
{
    if rs.len() > 0 {
        lemma_requests_without(rs.drop_last(), r);
    }
}

pub(crate) proof fn lemma_live_outcomes_keep_absence(os: Seq<ResolvedPermissionOutcome>, now: u64, r: u128)
    requires
        !has_outcome(os, r),
    ensures
        !has_outcome(live_outcomes(os, now), r),
    decreases os.len(),
{
    if os.len() > 0 {
        assert(!has_outcome(os.drop_last(), r)) by {
            if has_outcome(os.drop_last(), r) {
                let i = choose|i: int| 0 <= i < os.drop_last().len() && (#[trigger] os.drop_last()[i]).permission_ref == r;
                assert(os[i].permission_ref == r);
            }
        }
        lemma_live_outcomes_keep_absence(os.drop_last(), now, r);
        assert(os[os.len() - 1].permission_ref != r);
    }
}

proof fn lemma_live_requests_keep_absence(rs: Seq<PendingPermission>, now: u64, sessions: Seq<u128>, clients: Seq<u128>, r: u128)
    requires
        !has_request(rs, r),
    ensures
        !has_request(live_requests(rs, now, sessions, clients), r),
    decreases rs.len(),
{
    if rs.len() > 0 {
        assert(!has_request(rs.drop_last(), r)) by {
            if has_request(rs.drop_last(), r) {
                let i = choose|i: int| 0 <= i < rs.drop_last().len() && (#[trigger] rs.drop_last()[i]).permission_ref == r;
                assert(rs[i].permission_ref == r);
            }
        }
        lemma_live_requests_keep_absence(rs.drop_last(), now, sessions, clients, r);
        assert(rs[rs.len() - 1].permission_ref != r);
    }
}

/// A resolution is reported exactly once: a call that waits on a resolved
/// request before its outcome expires is told whether it was allowed, and
/// any later wait on it finds it expired.
pub proof fn law_resolution_is_reported_once(
    rs: Seq<PendingPermission>,
    os: Seq<ResolvedPermissionOutcome>,
    r: u128,
    allowed: bool,
    resolved_at: u64,
    now: u64,
    sessions: Seq<u128>,
    clients: Seq<u128>,
)
    requires
        (now as int) < resolved_at + AUTHORIZATION_TTL_MILLIS,
        now < u64::MAX,
    ensures
        ({
            let (rs1, os1) = spec_record(rs, os, r, allowed, resolved_at);
            let live_rs = live_requests(rs1, now, sessions, clients);
            let (first, os2) = spec_wait(live_rs, live_outcomes(os1, now), Some(r));
            &&& first == (if allowed { PermissionWaitOutcome::Allowed } else { PermissionWaitOutcome::Denied })
            &&& spec_wait(live_requests(live_rs, now, sessions, clients), live_outcomes(os2, now), Some(r)).0 == PermissionWaitOutcome::Expired
        }),
{
    let (rs1, os1) = spec_record(rs, os, r, allowed, resolved_at);
    let base = outcomes_without(os, r);
    lemma_outcomes_without(os, r);
    lemma_requests_without(rs, r);
    let live_rs = live_requests(rs1, now, sessions, clients);
    lemma_live_requests_keep_absence(rs1, now, sessions, clients, r);
    lemma_live_requests_keep_absence(live_rs, now, sessions, clients, r);
    let live_base = live_outcomes(base, now);
    lemma_live_outcomes_keep_absence(base, now, r);
    assert(os1.drop_last() =~= base);
    let lo = live_outcomes(os1, now);
    assert(lo == live_base.push(os1.last()));
    let n = live_base.len() as int;
    assert(lo[n].permission_ref == r);
    assert(has_outcome(lo, r));
    assert(is_first_outcome(lo, r, n)) by {
        assert forall|k: int| 0 <= k < n implies (#[trigger] lo[k]).permission_ref != r by {
            assert(lo[k] == live_base[k]);
        }
    }
    let i = choose|i: int| is_first_outcome(lo, r, i);
    assert(i == n) by {
        if i < n {
            assert(lo[i] == live_base[i]);
        }
    }
    let os2 = lo.remove(i);
    assert(os2 =~= live_base);
    lemma_live_outcomes_keep_absence(os2, now, r);
}

pub(crate) fn drop_outcomes_of(outcomes: &mut Vec<ResolvedPermissionOutcome>, r: u128)
    ensures
        final(outcomes)@ == outcomes_without(old(outcomes)@, r),
{
    let ghost orig = outcomes@;
    let mut out: Vec<ResolvedPermissionOutcome> = Vec::new();
    let mut i: usize = 0;
    while i < outcomes.len()
        invariant
            i <= outcomes.len(),
            outcomes@ == orig,
            out@ == outcomes_without(orig.take(i as int), r),
        decreases outcomes.len() - i,
    {
        assert(orig.take(i + 1).drop_last() =~= orig.take(i as int));
        let o = outcomes[i];
        if o.permission_ref != r {
            out.push(o);
        }
        i += 1;
    }
    assert(orig.take(orig.len() as int) =~= orig);
    *outcomes = out;
}

pub(crate) fn keep_live_outcomes(outcomes: &mut Vec<ResolvedPermissionOutcome>, now: u64)
    ensures
        final(outcomes)@ == live_outcomes(old(outcomes)@, now),
{
    let ghost orig = outcomes@;
    let mut out: Vec<ResolvedPermissionOutcome> = Vec::new();
    let mut i: usize = 0;
    while i < outcomes.len()
        invariant
            i <= outcomes.len(),
            outcomes@ == orig,
            out@ == live_outcomes(orig.take(i as int), now),
        decreases outcomes.len() - i,
    {
        assert(orig.take(i + 1).drop_last() =~= orig.take(i as int));
        let o = outcomes[i];
        if o.expires_at > now {
            out.push(o);
        }
        i += 1;
    }
    assert(orig.take(orig.len() as int) =~= orig);
    *outcomes = out;
}

fn contains_id(list: &Vec<u128>, id: u128) -> (r: bool)
    ensures
        r == list@.contains(id),
{
    let mut i: usize = 0;
    while i < list.len()
        invariant
            i <= list.len(),
            forall|k: int| 0 <= k < i ==> list@[k] != id,
        decreases list.len() - i,
    {
        if list[i] == id {
            assert(list@[i as int] == id);
            return true;
        }
        i += 1;
    }
    false
}

impl PermissionDesk {
    /// Retires request `r` (the original position of the others is kept).
    fn drop_request(&mut self, r: u128)
        ensures
            final(self).requests@ == requests_without(old(self).requests@, r),
            final(self).outcomes@ == old(self).outcomes@,
    {
        let ghost orig = self.requests@;
        let mut rest: Vec<PendingPermission> = Vec::new();
        std::mem::swap(&mut rest, &mut self.requests);
        let mut k: usize = 0;
        assert(rest@.len() == rest.len());
        while rest.len() > 0
            invariant
                k + rest@.len() == orig.len(),
                orig.len() <= usize::MAX,
                rest@ == orig.skip(k as int),
                self.requests@ == requests_without(orig.take(k as int), r),
                self.outcomes@ == old(self).outcomes@,
            decreases rest.len(),
        {
            let p = rest.remove(0);
            assert(orig.take(k + 1).drop_last() =~= orig.take(k as int));
            assert(orig.take(k + 1).last() == p);
            if p.permission_ref != r {
                self.requests.push(p);
            }
            k += 1;
            assert(rest@ =~= orig.skip(k as int));
        }
        assert(orig.take(orig.len() as int) =~= orig);
    }

    /// Drops the requests that expired or whose session or client is gone,
    /// and the outcomes that expired.
    pub fn prune(&mut self, now_millis: u64, live_sessions: &Vec<u128>, live_clients: &Vec<u128>)
        ensures
            final(self).requests@ == live_requests(old(self).requests@, now_millis, live_sessions@, live_clients@),
            final(self).outcomes@ == live_outcomes(old(self).outcomes@, now_millis),
    {
        let ghost orig = self.requests@;
        let mut rest: Vec<PendingPermission> = Vec::new();
        std::mem::swap(&mut rest, &mut self.requests);
        let mut k: usize = 0;
        assert(rest@.len() == rest.len());
        while rest.len() > 0
            invariant
                k + rest@.len() == orig.len(),
                orig.len() <= usize::MAX,
                rest@ == orig.skip(k as int),
                self.requests@ == live_requests(orig.take(k as int), now_millis, live_sessions@, live_clients@),
                self.outcomes@ == old(self).outcomes@,
            decreases rest.len(),
        {
            let p = rest.remove(0);
            assert(orig.take(k + 1).drop_last() =~= orig.take(k as int));
            assert(orig.take(k + 1).last() == p);
            if p.expires_at > now_millis && contains_id(live_sessions, p.session_id) && contains_id(live_clients, p.client_id) {
                self.requests.push(p);
            }
            k += 1;
            assert(rest@ =~= orig.skip(k as int));
        }
        assert(orig.take(orig.len() as int) =~= orig);
        keep_live_outcomes(&mut self.outcomes, now_millis);
    }

    /// Records the outcome of request `r`, resolved at `now_millis` (see `spec_record`).
    pub fn record_outcome(&mut self, r: u128, allowed: bool, now_millis: u64)
        ensures
            (final(self).requests@, final(self).outcomes@) == spec_record(old(self).requests@, old(self).outcomes@, r, allowed, now_millis),
    {
        self.drop_request(r);
        drop_outcomes_of(&mut self.outcomes, r);
        self.outcomes.push(ResolvedPermissionOutcome {
            permission_ref: r,
            allowed,
            expires_at: now_millis.saturating_add(AUTHORIZATION_TTL_MILLIS),
        });
    }

    /// What a waiting call about `permission_ref` is told at `now_millis`,
    /// after the desk is pruned (see `prune` and `spec_wait`).
    pub fn permission_wait_outcome(
        &mut self,
        permission_ref: &str,
        now_millis: u64,
        live_sessions: &Vec<u128>,
        live_clients: &Vec<u128>,
    ) -> (w: PermissionWaitOutcome)
        ensures
            final(self).requests@ == live_requests(old(self).requests@, now_millis, live_sessions@, live_clients@),
            (w, final(self).outcomes@) == spec_wait(
                live_requests(old(self).requests@, now_millis, live_sessions@, live_clients@),
                live_outcomes(old(self).outcomes@, now_millis),
                crate::ids::uuid_parse(permission_ref@),
            ),
    {
        self.prune(now_millis, live_sessions, live_clients);
        let r = match crate::ids::parse_uuid(permission_ref) {
            Some(r) => r,
            None => return PermissionWaitOutcome::Expired,
        };
        let mut i: usize = 0;
        while i < self.requests.len()
            invariant
                i <= self.requests.len(),
                crate::ids::uuid_parse(permission_ref@) == Some(r),
                self.requests@ == live_requests(old(self).requests@, now_millis, live_sessions@, live_clients@),
                self.outcomes@ == live_outcomes(old(self).outcomes@, now_millis),
                forall|k: int| 0 <= k < i ==> (#[trigger] self.requests@[k]).permission_ref != r,
            decreases self.requests.len() - i,
        {
            if self.requests[i].permission_ref == r {
                assert(has_request(self.requests@, r)) by {
                    assert(self.requests@[i as int].permission_ref == r);
                }
                return PermissionWaitOutcome::Pending;
            }
            i += 1;
        }
        let ghost os = self.outcomes@;
        assert(!has_request(self.requests@, r));
        let mut j: usize = 0;
        while j < self.outcomes.len()
            invariant
                j <= self.outcomes.len(),
                os == self.outcomes@,
                crate::ids::uuid_parse(permission_ref@) == Some(r),
                !has_request(self.requests@, r),
                self.requests@ == live_requests(old(self).requests@, now_millis, live_sessions@, live_clients@),
                os == live_outcomes(old(self).outcomes@, now_millis),
                forall|k: int| 0 <= k < j ==> (#[trigger] os[k]).permission_ref != r,
            decreases self.outcomes.len() - j,
        {
            if self.outcomes[j].permission_ref == r {
                assert(has_outcome(os, r)) by {
                    assert(os[j as int].permission_ref == r);
                }
                assert(is_first_outcome(os, r, j as int));
                proof {
                    let c = choose|i: int| is_first_outcome(os, r, i);
                    assert(c == j) by {
                        if c < j {
                        } else if c > j {
                            assert(os[j as int].permission_ref == r);
                        }
                    }
                }
                let o = self.outcomes.remove(j);
                return if o.allowed { PermissionWaitOutcome::Allowed } else { PermissionWaitOutcome::Denied };
            }
            j += 1;
        }
        PermissionWaitOutcome::Expired
    }
}

/// A pending request as the local authorization window shows it: its
/// references as UUID text, what it asks for, and the scopes, path patterns,
/// durations and recommendation that the window offers.
pub open spec fn is_permission_snapshot(s: PermissionRequestSnapshot, p: PendingPermission) -> bool {
    &&& s.permission_ref@ == uuid_text(p.permission_ref)
    &&& s.client_id@ == uuid_text(p.client_id)
    &&& s.session_id@ == uuid_text(p.session_id)
    &&& s.account_ref@ == p.account_ref@
    &&& s.account_label@ == p.account_label@
    &&& s.environment@ == p.environment@
    &&& s.tool@ == p.tool@
    &&& opt_view(s.operation) == opt_view(p.operation)
    &&& s.risk@ == p.risk@
    &&& s.approved_display@ == p.approved_display@
    &&& s.action_display@ == p.action_display@
    &&& opt_view(s.source_item_ref) == (match p.source_item_ref { Some(id) => Some(uuid_text(id)), None => None })
    &&& opt_view(s.source_item_kind) == opt_view(p.source_item_kind)
    &&& s.activation_required == p.activation_required
    &&& s.available_scopes@ == spec_available_scopes(p)
    &&& s.available_path_patterns@.map_values(|t: String| t@) == spec_available_path_patterns(p)
    &&& s.available_allow_durations@ == spec_available_durations(p, PermissionEffect::Allow)
    &&& s.available_deny_durations@ == spec_available_durations(p, PermissionEffect::Deny)
    &&& s.recommended_scope == spec_recommended_choice(p).1
    &&& s.recommended_duration == spec_recommended_choice(p).2
    &&& s.fresh_confirmation_required == (spec_risk_rank(p.risk@) >= 2)
    &&& s.created_at == p.created_at
    &&& s.expires_at == p.expires_at
}

/// The snapshot of a pending request (see `is_permission_snapshot`).
pub fn permission_snapshot(permission: &PendingPermission) -> (s: PermissionRequestSnapshot)
    ensures
        is_permission_snapshot(s, *permission),
{
    proof {
        reveal_strlit("R0");
        reveal_strlit("R1");
        reveal_strlit("R2");
        assert("R0"@[1] != "R2"@[1]);
        assert("R1"@[1] != "R2"@[1]);
    }
    let recommended = permission_recommended_choice(permission);
    PermissionRequestSnapshot {
        permission_ref: format_uuid(permission.permission_ref),
        client_id: format_uuid(permission.client_id),
        session_id: format_uuid(permission.session_id),
        account_ref: permission.account_ref.clone(),
        account_label: permission.account_label.clone(),
        environment: permission.environment.clone(),
        tool: permission.tool.clone(),
        operation: permission.operation.clone(),
        risk: permission.risk.clone(),
        approved_display: permission.approved_display.clone(),
        action_display: permission.action_display.clone(),
        source_item_ref: match permission.source_item_ref {
            Some(id) => Some(format_uuid(id)),
            None => None,
        },
        source_item_kind: permission.source_item_kind.clone(),
        activation_required: permission.activation_required,
        available_scopes: permission_available_scopes(permission),
        available_path_patterns: permission_available_path_patterns(permission),
        available_allow_durations: permission_available_durations(permission, PermissionEffect::Allow),
        available_deny_durations: permission_available_durations(permission, PermissionEffect::Deny),
        recommended_scope: recommended.scope,
        recommended_duration: recommended.duration,
        fresh_confirmation_required: risk_rank(permission.risk.as_str()) >= risk_rank("R2"),
        created_at: permission.created_at,
        expires_at: permission.expires_at,
    }
}

/// The index of the open request `r`.
pub open spec fn is_request_index(rs: Seq<PendingPermission>, r: u128, i: int) -> bool {
    0 <= i < rs.len() && rs[i].permission_ref == r && forall|k: int| 0 <= k < i ==> (#[trigger] rs[k]).permission_ref != r
}

impl PermissionDesk {
    /// Looks up an open request by its reference text, after the desk is
    /// pruned; refused as `unknown-permission` when the text is not a UUID
    /// or no such request is open.
    pub fn pending_request(
        &mut self,
        permission_ref: &str,
        now_millis: u64,
        live_sessions: &Vec<u128>,
        live_clients: &Vec<u128>,
    ) -> (r: Result<usize, AgentBrokerError>)
        ensures
            final(self).requests@ == live_requests(old(self).requests@, now_millis, live_sessions@, live_clients@),
            final(self).outcomes@ == live_outcomes(old(self).outcomes@, now_millis),
            match uuid_parse(permission_ref@) {
                Some(id) => if has_request(final(self).requests@, id) {
                    r matches Ok(i) && is_request_index(final(self).requests@, id, i as int)
                } else {
                    r matches Err(e) && e.code@ == "unknown-permission"@
                },
                None => r matches Err(e) && e.code@ == "unknown-permission"@,
            },
    {
        self.prune(now_millis, live_sessions, live_clients);
        proof {
            reveal_strlit("unknown-permission");
        }
        let id = match parse_uuid(permission_ref) {
            Some(id) => id,
            None => return Err(AgentBrokerError::new(
                "unknown-permission",
                "The permission request is expired or unavailable.",
                false,
            )),
        };
        let mut i: usize = 0;
        while i < self.requests.len()
            invariant
                i <= self.requests.len(),
                uuid_parse(permission_ref@) == Some(id),
                self.requests@ == live_requests(old(self).requests@, now_millis, live_sessions@, live_clients@),
                self.outcomes@ == live_outcomes(old(self).outcomes@, now_millis),
                forall|k: int| 0 <= k < i ==> (#[trigger] self.requests@[k]).permission_ref != id,
            decreases self.requests.len() - i,
        {
            if self.requests[i].permission_ref == id {
                assert(has_request(self.requests@, id)) by {
                    assert(self.requests@[i as int].permission_ref == id);
                }
                return Ok(i);
            }
            i += 1;
        }
        Err(AgentBrokerError::new(
            "unknown-permission",
            "The permission request is expired or unavailable.",
            false,
        ))
    }
}


/// The creation times of the requests, in their order.
pub open spec fn request_times(rs: Seq<PendingPermission>) -> Seq<u64> {
    Seq::new(rs.len(), |k: int| rs[k].created_at)
}

impl PermissionDesk {
    /// The open requests as the local authorization window lists them:
    /// oldest first (see `is_listing_order`).
    pub fn permission_requests(&self) -> (r: Vec<PermissionRequestSnapshot>)
        ensures
            r.len() == self.requests.len(),
            exists|order: Seq<usize>| #[trigger] is_listing_order(request_times(self.requests@), order)
                && forall|k: int| 0 <= k < r.len() ==> is_permission_snapshot(#[trigger] r@[k], self.requests@[order[k] as int]),
    {
        let mut keys: Vec<u64> = Vec::new();
        let mut i: usize = 0;
        while i < self.requests.len()
            invariant
                i <= self.requests.len(),
                keys@ =~= request_times(self.requests@).take(i as int),
            decreases self.requests.len() - i,
        {
            keys.push(self.requests[i].created_at);
            i += 1;
        }
        assert(keys@ =~= request_times(self.requests@));
        let order = listing_order(&keys);
        let mut out: Vec<PermissionRequestSnapshot> = Vec::new();
        let mut k: usize = 0;
        while k < order.len()
            invariant
                k <= order.len(),
                out.len() == k,
                is_listing_order(request_times(self.requests@), order@),
                forall|j: int| 0 <= j < k ==> is_permission_snapshot(#[trigger] out@[j], self.requests@[order@[j] as int]),
            decreases order.len() - k,
        {
            out.push(permission_snapshot(&self.requests[order[k]]));
            k += 1;
        }
        assert(is_listing_order(request_times(self.requests@), order@));
        out
    }
}

} // verus!
