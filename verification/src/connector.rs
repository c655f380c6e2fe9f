//! Connector definitions in the Vault, and the direct action rules that read
//! them: the plan of a managed web action, the fixed SSH tunnel of an
//! account, and the credential that a managed web session may use.
use vstd::prelude::*;
use crate::direct_policy::{
    direct_web_action, is_input_insufficient, is_invalid_parameters, is_rule_unavailable, risk_name,
    risk_rank, spec_direct_risk_rank, spec_direct_web_action, spec_risk_name, tier_rank, trim, trimmed,
    validate_connector_file_action, AgentWebRecipePolicy, DirectActionOutcome,
};
use crate::direct_ssh::{lowercase_ascii, uuid_parameter, AgentSshTunnelPolicy};
use crate::error::AgentBrokerError;
use crate::http_path::AgentRiskTier;
use crate::http_safety::ascii_lowercase;
use crate::json::JsonValue;
use crate::policy::{opt_view, request_permission_operation, spec_request_permission_operation};
use crate::text::{copy_string, str_eq};
use crate::web::AgentManagedWebProtectedKind;

verus! {

broadcast use vstd::string::group_string_axioms;

/// The kind of a connector definition.
#[derive(Clone, Copy, Debug, PartialEq, Eq, Structural)]
pub enum AgentConnectorKind {
    ManagedWeb,
    Ssh,
    Http,
}

/// The kind of a Vault item that a connector uses as a credential.
#[derive(Clone, Copy, Debug, PartialEq, Eq, Structural)]
pub enum AgentCredentialKind {
    Login,
    Email,
    Passkey,
    Secret,
    Ssh,
}

/// A Vault item that a connector uses as a credential.
#[derive(Clone, Copy, Debug)]
pub struct AgentCredentialRef {
    pub kind: AgentCredentialKind,
    pub item_id: u128,
}

/// The tools that a connector allows and the highest risk it accepts.
#[derive(Clone, Debug)]
pub struct AgentCapabilityPolicy {
    pub allowed_tools: Vec<String>,
    pub risk_ceiling: AgentRiskTier,
}

/// What of a connector's output may reach the Agent.
#[derive(Clone, Debug)]
pub struct AgentOutputPolicy {
    pub max_bytes: u64,
    pub allowed_fields: Vec<String>,
}

/// What a connector acts on.
#[derive(Clone, Debug)]
pub enum AgentTargetPolicy {
    ManagedWeb { origins: Vec<String>, recipes: Vec<AgentWebRecipePolicy>, persist_session: bool },
    Ssh { host: String, port: u16, host_key_sha256: String, tunnel_policies: Vec<AgentSshTunnelPolicy> },
    /// A target that no direct action rule reads.
    Other,
}

/// A connector definition stored in the Vault.
#[derive(Clone, Debug)]
pub struct AgentConnectorDefinition {
    pub id: u128,
    pub enabled: bool,
    pub connector_kind: AgentConnectorKind,
    pub display_label: String,
    pub environment: String,
    pub capability_policy: AgentCapabilityPolicy,
    pub credential_refs: Vec<AgentCredentialRef>,
    pub output_policy: AgentOutputPolicy,
    pub target_policy: AgentTargetPolicy,
}

/// The broker-owned plan of a direct connector action.
#[derive(Clone, Debug)]
pub struct AgentDirectConnectorPolicy {
    pub connector_ref: u128,
    pub account_ref: u128,
    pub account_label: String,
    pub environment: String,
    pub connector_kind: String,
    pub tool: String,
    pub operation: Option<String>,
    pub risk: String,
    pub action_display: String,
    pub approved_display: String,
    pub target_digest: String,
}

// ----------------------------------------------------------------------------
// Specification
// ----------------------------------------------------------------------------

/// The tools that a definition allows, as text.
pub open spec fn tool_names(d: AgentConnectorDefinition) -> Seq<Seq<char>> {
    d.capability_policy.allowed_tools@.map_values(|s: String| s@)
}

/// A definition allows `tool`.
pub open spec fn allows_tool(d: AgentConnectorDefinition, tool: Seq<char>) -> bool {
    tool_names(d).contains(tool)
}

/// `e` is the refusal that a web action outcome decides.
pub open spec fn refusal_holds(e: AgentBrokerError, o: DirectActionOutcome) -> bool {
    match o {
        DirectActionOutcome::Allowed { .. } => false,
        DirectActionOutcome::RuleUnavailable { kind, tool } => is_rule_unavailable(e, kind, tool),
        DirectActionOutcome::InputInsufficient { fields } => is_input_insufficient(e, fields),
        DirectActionOutcome::InvalidParameters => is_invalid_parameters(e),
    }
}

/// What a connector definition decides for a direct action.
pub enum ConnectorCheck {
    Locked,
    RuleUnavailable { kind: Seq<char> },
    InvalidParameters,
    Refused { outcome: DirectActionOutcome },
    Internal,
    Ready {
        account_ref: u128,
        account_label: Seq<char>,
        environment: Seq<char>,
        operation: Option<Seq<char>>,
        risk: Seq<char>,
        display: Seq<char>,
        approved: Seq<char>,
    },
}

/// The plan of a direct action of a managed web connector: the connector
/// must be enabled and allow the tool (saving a download is allowed with the
/// download tool, completing a passkey with capturing one), the recipes must
/// allow the action, its risk must not exceed the connector's ceiling, and
/// the connector must have an origin and a credential.
pub open spec fn spec_direct_connector_policy(
    unlocked: bool,
    definition: Option<AgentConnectorDefinition>,
    tool: Seq<char>,
    p: JsonValue,
) -> ConnectorCheck {
    if !unlocked {
        ConnectorCheck::Locked
    } else {
        match definition {
            None => ConnectorCheck::RuleUnavailable { kind: "connector"@ },
            Some(d) => {
                let web = d.connector_kind == AgentConnectorKind::ManagedWeb;
                let derived = web && ((tool == "vaultmesh_result_save"@ && allows_tool(d, "vaultmesh_web_download"@))
                    || (tool == "vaultmesh_passkey_perform"@ && allows_tool(d, "vaultmesh_passkey_request_begin"@)));
                if !d.enabled || (!allows_tool(d, tool) && !derived) {
                    ConnectorCheck::RuleUnavailable { kind: "connector"@ }
                } else if tool == "vaultmesh_result_save"@ && (!web || !allows_tool(d, "vaultmesh_web_download"@)) {
                    ConnectorCheck::RuleUnavailable { kind: "connector"@ }
                } else {
                    match d.target_policy {
                        AgentTargetPolicy::ManagedWeb { origins, recipes, .. } => {
                            let operation = spec_request_permission_operation(tool, p);
                            if tool == "vaultmesh_result_save"@ && uuid_parameter(p, "resultRef"@) is None {
                                ConnectorCheck::InvalidParameters
                            } else {
                                match spec_direct_web_action(tool, operation, p, recipes@) {
                                    DirectActionOutcome::Allowed { risk, display } => if origins@.len() == 0 {
                                        ConnectorCheck::RuleUnavailable { kind: "connector-managed-web"@ }
                                    } else {
                                        match spec_direct_risk_rank(risk) {
                                            None => ConnectorCheck::Internal,
                                            Some(rank) => if rank > tier_rank(d.capability_policy.risk_ceiling) {
                                                ConnectorCheck::RuleUnavailable { kind: "connector"@ }
                                            } else if d.credential_refs@.len() == 0 {
                                                ConnectorCheck::RuleUnavailable { kind: "connector"@ }
                                            } else {
                                                ConnectorCheck::Ready {
                                                    account_ref: d.credential_refs@[0].item_id,
                                                    account_label: d.display_label@,
                                                    environment: d.environment@,
                                                    operation,
                                                    risk,
                                                    display,
                                                    approved: origins@[0]@,
                                                }
                                            },
                                        }
                                    },
                                    other => ConnectorCheck::Refused { outcome: other },
                                }
                            }
                        },
                        _ => ConnectorCheck::RuleUnavailable { kind: "connector"@ },
                    }
                }
            },
        }
    }
}

/// `r` is what `c` decides for the action `tool` of connector `connector_id`
/// whose target binding has digest `digest`.
pub open spec fn connector_policy_holds(
    r: Result<AgentDirectConnectorPolicy, AgentBrokerError>,
    c: ConnectorCheck,
    connector_id: u128,
    tool: Seq<char>,
    digest: Seq<char>,
) -> bool {
    match c {
        ConnectorCheck::Locked => r matches Err(e) && e.code@ == "vault-locked"@,
        ConnectorCheck::RuleUnavailable { kind } => r matches Err(e) && is_rule_unavailable(e, kind, tool),
        ConnectorCheck::InvalidParameters => r matches Err(e) && is_invalid_parameters(e),
        ConnectorCheck::Refused { outcome } => r matches Err(e) && refusal_holds(e, outcome),
        ConnectorCheck::Internal => r matches Err(e) && e.code@ == "broker-unavailable"@,
        ConnectorCheck::Ready { account_ref, account_label, environment, operation, risk, display, approved } => r matches Ok(
            p,
        ) && p.connector_ref == connector_id && p.account_ref == account_ref && p.account_label@ == account_label
            && p.environment@ == environment && p.connector_kind@ == "managed-web"@ && p.tool@ == tool && opt_view(
            p.operation,
        ) == operation && p.risk@ == risk && p.action_display@ == display && p.approved_display@ == approved
            && p.target_digest@ == digest,
    }
}

/// The first tunnel named `name`.
pub open spec fn first_tunnel(ts: Seq<AgentSshTunnelPolicy>, name: Seq<char>) -> Option<int>
    decreases ts.len(),
{
    if ts.len() == 0 {
        None
    } else {
        match first_tunnel(ts.drop_last(), name) {
            Some(i) => Some(i),
            None => if ts.last().name@ == name {
                Some(ts.len() - 1)
            } else {
                None
            },
        }
    }
}

/// The tunnel named `endpoint` that an enabled SSH connector of the account
/// `account_ref` offers for the endpoint `host`:`port` with the host key.
pub open spec fn tunnel_candidate(
    d: AgentConnectorDefinition,
    account_ref: u128,
    endpoint: Seq<char>,
    host: Seq<char>,
    port: u16,
    host_key: Seq<char>,
) -> Option<AgentSshTunnelPolicy> {
    if d.enabled && d.connector_kind == AgentConnectorKind::Ssh && allows_tool(d, "vaultmesh_ssh_tunnel_open"@)
        && d.credential_refs@.len() > 0 && d.credential_refs@[0].kind == AgentCredentialKind::Ssh
        && d.credential_refs@[0].item_id == account_ref {
        match d.target_policy {
            AgentTargetPolicy::Ssh { host: ph, port: pp, host_key_sha256: pk, tunnel_policies } => if ascii_lowercase(
                trimmed(ph@),
            ) == ascii_lowercase(host) && pp == port && pk@ == host_key {
                match first_tunnel(tunnel_policies@, endpoint) {
                    Some(i) => Some(tunnel_policies@[i]),
                    None => None,
                }
            } else {
                None
            },
            _ => None,
        }
    } else {
        None
    }
}

/// The connectors, with their tunnels, that offer the endpoint, in order.
pub open spec fn tunnel_matches(
    defs: Seq<AgentConnectorDefinition>,
    account_ref: u128,
    endpoint: Seq<char>,
    host: Seq<char>,
    port: u16,
    host_key: Seq<char>,
) -> Seq<(u128, AgentSshTunnelPolicy)>
    decreases defs.len(),
{
    if defs.len() == 0 {
        seq![]
    } else {
        let rest = tunnel_matches(defs.drop_last(), account_ref, endpoint, host, port, host_key);
        match tunnel_candidate(defs.last(), account_ref, endpoint, host, port, host_key) {
            Some(t) => rest.push((defs.last().id, t)),
            None => rest,
        }
    }
}

/// The credential kind that a protected managed web value is read with.
pub open spec fn protected_credential_kind(kind: AgentManagedWebProtectedKind) -> AgentCredentialKind {
    match kind {
        AgentManagedWebProtectedKind::EmailOtp => AgentCredentialKind::Email,
        _ => AgentCredentialKind::Login,
    }
}

/// The first credential of a kind.
pub open spec fn first_credential(refs: Seq<AgentCredentialRef>, kind: AgentCredentialKind) -> Option<u128>
    decreases refs.len(),
{
    if refs.len() == 0 {
        None
    } else if refs[0].kind == kind {
        Some(refs[0].item_id)
    } else {
        first_credential(refs.drop_first(), kind)
    }
}

// ----------------------------------------------------------------------------
// Executable functions
// ----------------------------------------------------------------------------

proof fn lemma_rank_of_tier_name(t: AgentRiskTier)
    ensures
        spec_direct_risk_rank(spec_risk_name(t)) == Some(tier_rank(t)),
{
    reveal_strlit("R0");
    reveal_strlit("R1");
    reveal_strlit("R2");
    reveal_strlit("R3");
    reveal_strlit("R4");
    assert("R0"@[1] != "R1"@[1]);
    assert("R0"@[1] != "R2"@[1]);
    assert("R0"@[1] != "R3"@[1]);
    assert("R0"@[1] != "R4"@[1]);
    assert("R1"@[1] != "R2"@[1]);
    assert("R1"@[1] != "R3"@[1]);
    assert("R1"@[1] != "R4"@[1]);
    assert("R2"@[1] != "R3"@[1]);
    assert("R2"@[1] != "R4"@[1]);
    assert("R3"@[1] != "R4"@[1]);
}

fn allows(d: &AgentConnectorDefinition, tool: &str) -> (r: bool)
    ensures
        r == allows_tool(*d, tool@),
{
    let tools = &d.capability_policy.allowed_tools;
    let mut i: usize = 0;
    while i < tools.len()
        invariant
            i <= tools.len(),
            *tools == d.capability_policy.allowed_tools,
            forall|k: int| 0 <= k < i ==> tools@[k]@ != tool@,
        decreases tools.len() - i,
    {
        if str_eq(tools[i].as_str(), tool) {
            assert(tool_names(*d)[i as int] == tool@);
            return true;
        }
        i += 1;
    }
    proof {
        if tool_names(*d).contains(tool@) {
            let k = choose|k: int| 0 <= k < tool_names(*d).len() && tool_names(*d)[k] == tool@;
            assert(tools@[k]@ == tool@);
        }
    }
    false
}

/// Compiles a direct action of a managed web connector into a broker-owned
/// plan (see `spec_direct_connector_policy`). `definition` is the connector
/// definition, `None` when the Vault has none under `connector_id`;
/// `target_digest` is the digest of the definition's target binding.
pub fn generate_direct_connector_policy(
    unlocked: bool,
    connector_id: u128,
    definition: Option<&AgentConnectorDefinition>,
    tool: &str,
    action_parameters: &JsonValue,
    target_digest: String,
) -> (r: Result<AgentDirectConnectorPolicy, AgentBrokerError>)
    ensures
        connector_policy_holds(
            r,
            spec_direct_connector_policy(
                unlocked,
                match definition {
                    Some(d) => Some(*d),
                    None => None,
                },
                tool@,
                *action_parameters,
            ),
            connector_id,
            tool@,
            target_digest@,
        ),
{
    if !unlocked {
        return Err(AgentBrokerError::vault_locked());
    }
    let d = match definition {
        Some(d) => d,
        None => return Err(AgentBrokerError::action_rule_unavailable("connector", tool)),
    };
    let web = d.connector_kind == AgentConnectorKind::ManagedWeb;
    let explicitly_allowed = allows(d, tool);
    let derived = web && ((str_eq(tool, "vaultmesh_result_save") && allows(d, "vaultmesh_web_download")) || (str_eq(
        tool,
        "vaultmesh_passkey_perform",
    ) && allows(d, "vaultmesh_passkey_request_begin")));
    if !d.enabled || (!explicitly_allowed && !derived) {
        return Err(AgentBrokerError::action_rule_unavailable("connector", tool));
    }
    if str_eq(tool, "vaultmesh_result_save") && (!web || !allows(d, "vaultmesh_web_download")) {
        return Err(AgentBrokerError::action_rule_unavailable("connector", tool));
    }
    let operation = request_permission_operation(tool, action_parameters);
    let (origins, recipes) = match &d.target_policy {
        AgentTargetPolicy::ManagedWeb { origins, recipes, .. } => (origins, recipes),
        _ => return Err(AgentBrokerError::action_rule_unavailable("connector", tool)),
    };
    if str_eq(tool, "vaultmesh_result_save") {
        if let Err(e) = validate_connector_file_action(tool, action_parameters) {
            proof {
                assert(uuid_parameter(*action_parameters, "resultRef"@) is None);
            }
            return Err(e);
        }
    }
    let (risk, action_display) = match direct_web_action(tool, operation, action_parameters, recipes) {
        Ok(pair) => pair,
        Err(e) => return Err(e),
    };
    if origins.len() == 0 {
        return Err(AgentBrokerError::action_rule_unavailable("connector-managed-web", tool));
    }
    let approved_display = origins[0].clone();
    let rank = match risk_rank(risk.as_str()) {
        Ok(k) => k,
        Err(e) => return Err(e),
    };
    let ceiling = match risk_rank(risk_name(d.capability_policy.risk_ceiling).as_str()) {
        Ok(k) => k,
        Err(e) => return Err(e),
    };
    proof {
        lemma_rank_of_tier_name(d.capability_policy.risk_ceiling);
    }
    if rank > ceiling {
        return Err(AgentBrokerError::action_rule_unavailable("connector", tool));
    }
    if d.credential_refs.len() == 0 {
        return Err(AgentBrokerError::action_rule_unavailable("connector", tool));
    }
    let account_ref = d.credential_refs[0].item_id;
    let operation = match operation {
        Some(op) => Some(copy_string(op)),
        None => None,
    };
    Ok(AgentDirectConnectorPolicy {
        connector_ref: connector_id,
        account_ref,
        account_label: d.display_label.clone(),
        environment: d.environment.clone(),
        connector_kind: copy_string("managed-web"),
        tool: copy_string(tool),
        operation,
        risk,
        action_display,
        approved_display,
        target_digest,
    })
}

pub(crate) fn clone_tunnel(t: &AgentSshTunnelPolicy) -> (r: AgentSshTunnelPolicy)
    ensures
        r == *t,
{
    AgentSshTunnelPolicy {
        name: t.name.clone(),
        local_host: t.local_host.clone(),
        local_port: t.local_port,
        destination_host: t.destination_host.clone(),
        destination_port: t.destination_port,
        max_connections: t.max_connections,
        ttl_millis: t.ttl_millis,
        risk: t.risk,
    }
}

fn find_tunnel(ts: &Vec<AgentSshTunnelPolicy>, name: &str) -> (r: Option<usize>)
    ensures
        match r {
            Some(i) => i < ts.len() && first_tunnel(ts@, name@) == Some(i as int),
            None => first_tunnel(ts@, name@) is None,
        },
{
    let mut i: usize = 0;
    while i < ts.len()
        invariant
            i <= ts.len(),
            first_tunnel(ts@.take(i as int), name@) is None,
        decreases ts.len() - i,
    {
        assert(ts@.take(i + 1).drop_last() =~= ts@.take(i as int));
        if str_eq(ts[i].name.as_str(), name) {
            proof {
                lemma_first_tunnel_prefix(ts@, name@, i as int);
            }
            return Some(i);
        }
        i += 1;
    }
    assert(ts@.take(ts@.len() as int) =~= ts@);
    None
}

proof fn lemma_first_tunnel_prefix(ts: Seq<AgentSshTunnelPolicy>, name: Seq<char>, i: int)
    requires
        0 <= i < ts.len(),
        first_tunnel(ts.take(i), name) is None,
        ts[i].name@ == name,
    ensures
        first_tunnel(ts, name) == Some(i),
    decreases ts.len(),
{
    assert(ts.take(i + 1).drop_last() =~= ts.take(i));
    if i + 1 < ts.len() {
        assert(ts.drop_last().take(i) =~= ts.take(i));
        lemma_first_tunnel_prefix(ts.drop_last(), name, i);
    } else {
        assert(ts.drop_last() =~= ts.take(i));
    }
}

fn candidate(
    d: &AgentConnectorDefinition,
    account_ref: u128,
    endpoint: &str,
    host: &str,
    port: u16,
    host_key_sha256: &str,
) -> (r: Option<AgentSshTunnelPolicy>)
    ensures
        r == tunnel_candidate(*d, account_ref, endpoint@, host@, port, host_key_sha256@),
{
    if !(d.enabled && d.connector_kind == AgentConnectorKind::Ssh && allows(d, "vaultmesh_ssh_tunnel_open")) {
        return None;
    }
    if d.credential_refs.len() == 0 {
        return None;
    }
    let first = d.credential_refs[0];
    if !(first.kind == AgentCredentialKind::Ssh && first.item_id == account_ref) {
        return None;
    }
    match &d.target_policy {
        AgentTargetPolicy::Ssh { host: ph, port: pp, host_key_sha256: pk, tunnel_policies } => {
            let policy_host = lowercase_ascii(trim(ph.as_str()).as_str());
            let wanted = lowercase_ascii(host);
            if str_eq(policy_host.as_str(), wanted.as_str()) && *pp == port && str_eq(pk.as_str(), host_key_sha256) {
                match find_tunnel(tunnel_policies, endpoint) {
                    Some(i) => Some(clone_tunnel(&tunnel_policies[i])),
                    None => None,
                }
            } else {
                None
            }
        },
        _ => None,
    }
}

/// The fixed tunnel named `endpoint` for the SSH account `account_ref` at
/// `host`:`port` with the verified host key, from the connector definitions
/// (`None` when they could not be read): exactly one enabled SSH connector of
/// the account, allowing tunnels, must offer it.
pub fn configured_direct_ssh_tunnel(
    definitions: Option<&Vec<AgentConnectorDefinition>>,
    account_ref: u128,
    endpoint: &str,
    host: &str,
    port: u16,
    host_key_sha256: &str,
) -> (r: Result<(u128, AgentSshTunnelPolicy), AgentBrokerError>)
    ensures
        match definitions {
            None => r matches Err(e) && is_rule_unavailable(e, "ssh"@, "vaultmesh_ssh_tunnel_open"@),
            Some(defs) => {
                let m = tunnel_matches(defs@, account_ref, endpoint@, host@, port, host_key_sha256@);
                if m.len() == 0 {
                    r matches Err(e) && is_rule_unavailable(e, "ssh"@, "vaultmesh_ssh_tunnel_open"@)
                } else if m.len() == 1 {
                    r == Ok::<(u128, AgentSshTunnelPolicy), AgentBrokerError>(m[0])
                } else {
                    r matches Err(e) && e.code@ == "action-target-ambiguous"@ && !e.retryable
                }
            },
        },
{
    let defs = match definitions {
        Some(defs) => defs,
        None => return Err(AgentBrokerError::action_rule_unavailable("ssh", "vaultmesh_ssh_tunnel_open")),
    };
    let mut first: Option<(u128, AgentSshTunnelPolicy)> = None;
    let mut more = false;
    let mut i: usize = 0;
    while i < defs.len()
        invariant
            i <= defs.len(),
            ({
                let m = tunnel_matches(defs@.take(i as int), account_ref, endpoint@, host@, port, host_key_sha256@);
                &&& (m.len() == 0) == (first is None)
                &&& m.len() > 0 ==> first == Some(m[0])
                &&& more == (m.len() > 1)
            }),
        decreases defs.len() - i,
    {
        assert(defs@.take(i + 1).drop_last() =~= defs@.take(i as int));
        assert(defs@.take(i + 1).last() == defs@[i as int]);
        match candidate(&defs[i], account_ref, endpoint, host, port, host_key_sha256) {
            Some(t) => {
                if first.is_none() {
                    first = Some((defs[i].id, t));
                } else {
                    more = true;
                }
            },
            None => {},
        }
        i += 1;
    }
    assert(defs@.take(defs@.len() as int) =~= defs@);
    match first {
        None => Err(AgentBrokerError::action_rule_unavailable("ssh", "vaultmesh_ssh_tunnel_open")),
        Some(found) => if more {
            Err(AgentBrokerError::new(
                "action-target-ambiguous",
                "More than one fixed SSH tunnel endpoint matches this account.",
                false,
            ))
        } else {
            Ok(found)
        },
    }
}

fn credential_of(refs: &Vec<AgentCredentialRef>, kind: AgentCredentialKind) -> (r: Option<u128>)
    ensures
        r == first_credential(refs@, kind),
{
    let mut i: usize = 0;
    assert(refs@.skip(0) =~= refs@);
    while i < refs.len()
        invariant
            i <= refs.len(),
            first_credential(refs@, kind) == first_credential(refs@.skip(i as int), kind),
        decreases refs.len() - i,
    {
        assert(refs@.skip(i as int).drop_first() =~= refs@.skip(i + 1));
        assert(refs@.skip(i as int)[0] == refs@[i as int]);
        if refs[i].kind == kind {
            return Some(refs[i].item_id);
        }
        i += 1;
    }
    None
}

/// The Vault item that holds a protected value of a managed web connector:
/// its first Login credential for one-time and recovery codes, its first
/// Email credential for e-mail codes; `None` for another connector or when
/// the connector has no such credential.
pub fn agent_managed_web_credential(
    definition: &AgentConnectorDefinition,
    kind: AgentManagedWebProtectedKind,
) -> (r: Option<u128>)
    ensures
        r == match definition.target_policy {
            AgentTargetPolicy::ManagedWeb { .. } => first_credential(definition.credential_refs@, protected_credential_kind(kind)),
            _ => None,
        },
{
    match &definition.target_policy {
        AgentTargetPolicy::ManagedWeb { .. } => {},
        _ => return None,
    }
    let wanted = match kind {
        AgentManagedWebProtectedKind::EmailOtp => AgentCredentialKind::Email,
        _ => AgentCredentialKind::Login,
    };
    credential_of(&definition.credential_refs, wanted)
}

/// The Vault item that a passkey operation of a managed web connector is
/// bound to: its first Login credential to `create` a passkey, its first
/// Passkey credential to `get` one; `None` for another connector or
/// operation, or when the connector has no such credential.
pub fn agent_managed_web_passkey_binding(definition: &AgentConnectorDefinition, operation: &str) -> (r: Option<u128>)
    ensures
        r == match definition.target_policy {
            AgentTargetPolicy::ManagedWeb { .. } => if operation@ == "create"@ {
                first_credential(definition.credential_refs@, AgentCredentialKind::Login)
            } else if operation@ == "get"@ {
                first_credential(definition.credential_refs@, AgentCredentialKind::Passkey)
            } else {
                None
            },
            _ => None,
        },
{
    match &definition.target_policy {
        AgentTargetPolicy::ManagedWeb { .. } => {},
        _ => return None,
    }
    if str_eq(operation, "create") {
        credential_of(&definition.credential_refs, AgentCredentialKind::Login)
    } else if str_eq(operation, "get") {
        credential_of(&definition.credential_refs, AgentCredentialKind::Passkey)
    } else {
        None
    }
}


/// A stored direct connector plan may still run: the plan generated again
/// now is the same in every field.
pub open spec fn connector_plan_still_current(current: AgentDirectConnectorPolicy, stored: AgentDirectConnectorPolicy) -> bool {
    &&& current.connector_ref == stored.connector_ref
    &&& current.account_ref == stored.account_ref
    &&& current.account_label@ == stored.account_label@
    &&& current.environment@ == stored.environment@
    &&& current.connector_kind@ == stored.connector_kind@
    &&& current.tool@ == stored.tool@
    &&& opt_view(current.operation) == opt_view(stored.operation)
    &&& current.risk@ == stored.risk@
    &&& current.action_display@ == stored.action_display@
    &&& current.approved_display@ == stored.approved_display@
    &&& current.target_digest@ == stored.target_digest@
}

fn opt_text_eq(a: &Option<String>, b: &Option<String>) -> (r: bool)
    ensures
        r == (opt_view(*a) == opt_view(*b)),
{
    match (a, b) {
        (Some(x), Some(y)) => str_eq(x.as_str(), y.as_str()),
        (None, None) => true,
        _ => false,
    }
}

/// Whether a stored direct connector plan may still run (see
/// `connector_plan_still_current`), given the plan generated again now.
pub fn connector_plan_is_current(current: &AgentDirectConnectorPolicy, stored: &AgentDirectConnectorPolicy) -> (r: bool)
    ensures
        r == connector_plan_still_current(*current, *stored),
{
    current.connector_ref == stored.connector_ref && current.account_ref == stored.account_ref
        && str_eq(current.account_label.as_str(), stored.account_label.as_str())
        && str_eq(current.environment.as_str(), stored.environment.as_str())
        && str_eq(current.connector_kind.as_str(), stored.connector_kind.as_str())
        && str_eq(current.tool.as_str(), stored.tool.as_str())
        && opt_text_eq(&current.operation, &stored.operation)
        && str_eq(current.risk.as_str(), stored.risk.as_str())
        && str_eq(current.action_display.as_str(), stored.action_display.as_str())
        && str_eq(current.approved_display.as_str(), stored.approved_display.as_str())
        && str_eq(current.target_digest.as_str(), stored.target_digest.as_str())
}

} // verus!
