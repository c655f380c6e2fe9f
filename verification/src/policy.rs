//! The broker's authorization policy: which tools an account kind accepts,
//! which scopes and durations a permission request offers, and which
//! session grant decides a later action.
use vstd::prelude::*;
use crate::error::AgentBrokerError;
use crate::http_path::{
    path_matches, spec_path_matches, valid_path_pattern, validate_pattern, HTTP_PATH_MATCHER_REVISION,
};
use crate::ids::{parse_uuid, uuid_parse};
use crate::json::JsonValue;
use crate::model::{
    AgentRegistry, PermissionChoice, PermissionDuration, PermissionEffect, PermissionScope,
};
use crate::text::{str_eq, str_in, str_views, starts_with, to_chars, from_chars, chars_contain, contains_text};

verus! {

broadcast use vstd::string::group_string_axioms;

/// The revision of the safe SSH command catalog that `Safe` grants are bound to.
pub const SAFE_SSH_CATALOG_REVISION: &'static str = "ssh-safe-v1";

/// How a request or response body of an HTTP operation is carried.
#[derive(Clone, Copy, Debug, PartialEq, Eq, Structural)]
pub enum AgentHttpBodyMode {
    Empty,
    Json,
}

/// The HTTP operation that a direct HTTP action was compiled to.
#[derive(Clone, Debug)]
pub struct AgentHttpOperationPolicy {
    pub name: String,
    pub method: String,
    pub path: String,
    pub request_fields: Vec<String>,
    pub response_fields: Vec<String>,
    pub request_mode: AgentHttpBodyMode,
    pub response_mode: AgentHttpBodyMode,
    pub risk: crate::http_path::AgentRiskTier,
}

/// How a direct HTTP action authenticates to its origin.
#[derive(Clone, Copy, Debug, PartialEq, Eq, Structural)]
pub enum AgentHttpAuthStrategy {
    /// The Vault secret as a bearer token.
    Bearer,
}

/// The broker-owned plan of a direct HTTP action.
#[derive(Clone, Debug)]
pub struct AgentDirectHttpPolicy {
    pub account_ref: u128,
    pub account_label: String,
    pub environment: String,
    pub item_kind: String,
    pub credential_kind: crate::connector::AgentCredentialKind,
    pub origin: String,
    pub auth_strategy: AgentHttpAuthStrategy,
    pub operation: AgentHttpOperationPolicy,
    pub target_digest: String,
    pub approved_display: String,
    pub allowed_output_fields: Vec<String>,
    pub max_output_bytes: usize,
    pub max_output_items: usize,
}

/// A permission request waiting for the local authorization window.
#[derive(Clone, Debug)]
pub struct PendingPermission {
    pub permission_ref: u128,
    pub client_id: u128,
    pub session_id: u128,
    pub account_ref: String,
    pub account_label: String,
    pub environment: String,
    pub tool: String,
    pub operation: Option<String>,
    pub parameters_digest: Option<String>,
    pub risk: String,
    pub approved_display: String,
    pub action_display: String,
    pub target_digest: String,
    pub source_item_ref: Option<u128>,
    pub source_item_kind: Option<String>,
    pub activation_required: bool,
    pub direct_ssh_policy: Option<crate::direct_ssh::AgentDirectSshPolicy>,
    pub direct_http_policy: Option<AgentDirectHttpPolicy>,
    pub direct_connector_policy: Option<crate::connector::AgentDirectConnectorPolicy>,
    pub created_at: u64,
    pub expires_at: u64,
}

/// A grant held by a connection for the rest of its life (or for a number of uses).
#[derive(Clone, Debug)]
pub struct PermissionGrant {
    pub account_ref: String,
    pub tool: String,
    pub operation: Option<String>,
    pub scope: PermissionScope,
    pub parameters_digest: Option<String>,
    pub catalog_revision: Option<String>,
    pub effect: PermissionEffect,
    pub fresh_confirmation_required: bool,
    pub remaining_uses: Option<u32>,
}

// ----------------------------------------------------------------------------
// Specification
// ----------------------------------------------------------------------------

/// The rank of a risk tier name; unknown names rank highest (255).
pub open spec fn spec_risk_rank(risk: Seq<char>) -> u8 {
    if risk == "R0"@ {
        0
    } else if risk == "R1"@ {
        1
    } else if risk == "R2"@ {
        2
    } else if risk == "R3"@ {
        3
    } else if risk == "R4"@ {
        4
    } else {
        255
    }
}

/// A lower-case hexadecimal digit.
pub open spec fn is_lower_hex_char(c: char) -> bool {
    (48 <= (c as u32) && (c as u32) <= 57) || (97 <= (c as u32) && (c as u32) <= 102)
}

/// `sha256:` followed by 64 lower-case hexadecimal digits.
pub open spec fn spec_valid_sha256_identity(v: Seq<char>) -> bool {
    &&& v.len() == 71
    &&& v.subrange(0, 7) == "sha256:"@
    &&& forall|i: int| 7 <= i < 71 ==> is_lower_hex_char(#[trigger] v[i])
}

/// The tools that act directly on an SSH Vault item.
pub open spec fn direct_ssh_action_tools() -> Seq<Seq<char>> {
    seq![
        "vaultmesh_local_file_select"@,
        "vaultmesh_result_save"@,
        "vaultmesh_ssh_exec"@,
        "vaultmesh_ssh_upload"@,
        "vaultmesh_ssh_download"@,
        "vaultmesh_ssh_public_key_install"@,
        "vaultmesh_ssh_host_setup"@,
        "vaultmesh_ssh_pty_open"@,
        "vaultmesh_ssh_tunnel_open"@,
    ]
}

/// The tools that continue an open SSH terminal session.
pub open spec fn ssh_pty_session_tools() -> Seq<Seq<char>> {
    seq![
        "vaultmesh_ssh_pty_read"@,
        "vaultmesh_ssh_pty_write"@,
        "vaultmesh_ssh_pty_resize"@,
        "vaultmesh_ssh_pty_close"@,
    ]
}

/// The tools of a managed web connector.
pub open spec fn managed_web_tools() -> Seq<Seq<char>> {
    seq![
        "vaultmesh_web_session_open"@,
        "vaultmesh_web_navigate"@,
        "vaultmesh_web_extract"@,
        "vaultmesh_web_act"@,
        "vaultmesh_web_download"@,
        "vaultmesh_web_session_close"@,
        "vaultmesh_otp_fill"@,
        "vaultmesh_recovery_code_consume"@,
        "vaultmesh_passkey_request_begin"@,
        "vaultmesh_passkey_perform"@,
        "vaultmesh_result_save"@,
    ]
}

/// The tools that a Vault item of kind `kind` offers directly.
pub open spec fn spec_candidate_tools(kind: Seq<char>) -> Seq<Seq<char>> {
    if kind == "secret"@ {
        seq!["vaultmesh_http_request"@]
    } else if kind == "ssh"@ {
        direct_ssh_action_tools()
    } else {
        Seq::empty()
    }
}

/// The tools that an item of kind `kind` accepts, including the follow-up
/// tools of an SSH terminal session.
pub open spec fn spec_candidate_accepts_tool(kind: Seq<char>, tool: Seq<char>) -> bool {
    spec_candidate_tools(kind).contains(tool) || (kind == "ssh"@ && (ssh_pty_session_tools().contains(tool)
        || tool == "vaultmesh_local_file_select"@ || tool == "vaultmesh_result_save"@))
}

/// The tools that a connector of kind `connector_kind` can run directly.
pub open spec fn spec_is_direct_connector_action_tool(connector_kind: Seq<char>, tool: Seq<char>) -> bool {
    connector_kind == "managed-web"@ && managed_web_tools().contains(tool)
}

/// The parameter that names the operation of a tool, if the tool has one.
pub open spec fn operation_field(tool: Seq<char>) -> Option<Seq<char>> {
    if tool == "vaultmesh_ssh_exec"@ {
        Some("program"@)
    } else if tool == "vaultmesh_ssh_tunnel_open"@ {
        Some("endpoint"@)
    } else if tool == "vaultmesh_web_navigate"@ {
        Some("route"@)
    } else if tool == "vaultmesh_web_extract"@ || tool == "vaultmesh_web_act"@ || tool
        == "vaultmesh_web_download"@ || tool == "vaultmesh_passkey_request_begin"@ {
        Some("recipe"@)
    } else if tool == "vaultmesh_http_request"@ {
        Some("path"@)
    } else {
        None
    }
}

/// The operation that a permission request for `tool` names in `parameters`.
pub open spec fn spec_request_permission_operation(tool: Seq<char>, parameters: JsonValue) -> Option<Seq<char>> {
    match operation_field(tool) {
        Some(field) => parameters.spec_get_str(field),
        None => None,
    }
}

/// The tools that a named operation of a connector definition unlocks.
pub open spec fn spec_tools_for_named_operation(field: Seq<char>, operation: JsonValue) -> Seq<Seq<char>> {
    if field == "tunnelPolicies"@ {
        seq!["vaultmesh_ssh_tunnel_open"@]
    } else if field == "recipes"@ {
        match operation.spec_get_str("kind"@) {
            Some(k) => if k == "navigate"@ {
                seq!["vaultmesh_web_navigate"@]
            } else if k == "extract"@ {
                seq!["vaultmesh_web_extract"@]
            } else if k == "action"@ {
                seq!["vaultmesh_web_act"@]
            } else if k == "download"@ {
                seq!["vaultmesh_web_download"@]
            } else if k == "totp"@ || k == "email-otp"@ {
                seq!["vaultmesh_otp_fill"@]
            } else if k == "recovery-code"@ {
                seq!["vaultmesh_recovery_code_consume"@]
            } else if k == "passkey-registration"@ || k == "passkey-assertion"@ {
                seq!["vaultmesh_passkey_request_begin"@, "vaultmesh_passkey_perform"@]
            } else {
                Seq::empty()
            },
            None => Seq::empty(),
        }
    } else {
        Seq::empty()
    }
}

/// The HTTP policy of a request, when it targets a `secret` item.
pub open spec fn secret_http_policy(p: PendingPermission) -> Option<AgentDirectHttpPolicy> {
    match p.direct_http_policy {
        Some(policy) => if policy.item_kind@ == "secret"@ {
            Some(policy)
        } else {
            None
        },
        None => None,
    }
}

/// The scopes that the authorization window offers for a request.
pub open spec fn spec_available_scopes(p: PendingPermission) -> Seq<PermissionScope> {
    let base = if secret_http_policy(p) is Some {
        seq![PermissionScope::Exact, PermissionScope::Path]
    } else {
        seq![PermissionScope::Exact]
    };
    if spec_risk_rank(p.risk@) >= 3 {
        base
    } else if p.tool@ == "vaultmesh_ssh_exec"@ {
        if p.risk@ == "R1"@ {
            base.push(PermissionScope::Safe).push(PermissionScope::All)
        } else {
            base.push(PermissionScope::All)
        }
    } else if direct_ssh_action_tools().contains(p.tool@) || p.source_item_ref is None {
        base.push(PermissionScope::All)
    } else {
        base
    }
}

/// The durations offered for an effect: an allow of an `R4` action lasts once.
pub open spec fn spec_available_durations(p: PendingPermission, effect: PermissionEffect) -> Seq<PermissionDuration> {
    if effect == PermissionEffect::Allow && p.risk@ == "R4"@ {
        seq![PermissionDuration::Once]
    } else {
        seq![PermissionDuration::Once, PermissionDuration::Connection, PermissionDuration::Permanent]
    }
}

/// The position of the last `/` in `s`.
pub open spec fn last_slash(s: Seq<char>) -> Option<int>
    decreases s.len(),
{
    if s.len() == 0 {
        None
    } else if s.last() == '/' {
        Some(s.len() - 1)
    } else {
        last_slash(s.drop_last())
    }
}

/// The HTTP path patterns offered for a request on a `secret` item: the exact
/// path, its siblings (`parent/*`) and its subtree (`parent/**`), each only if
/// it is a valid pattern.
pub open spec fn spec_available_path_patterns(p: PendingPermission) -> Seq<Seq<char>> {
    match secret_http_policy(p) {
        None => Seq::empty(),
        Some(policy) => {
            let exact = requested_http_path(p);
            match last_slash(exact) {
                None => seq![exact],
                Some(i) => {
                    let parent = exact.subrange(0, i);
                    seq![exact, parent + "/*"@, parent + "/**"@].filter(|c: Seq<char>| valid_path_pattern(c))
                },
            }
        },
    }
}

/// The path that an HTTP permission request names: its operation, else the
/// path of its HTTP plan.
pub open spec fn requested_http_path(p: PendingPermission) -> Seq<char> {
    match p.operation {
        Some(op) => op@,
        None => match p.direct_http_policy {
            Some(policy) => policy.operation.path@,
            None => Seq::empty(),
        },
    }
}

/// The choice that the authorization window preselects.
pub open spec fn spec_recommended_choice(p: PendingPermission) -> (PermissionEffect, PermissionScope, PermissionDuration) {
    if p.risk@ == "R1"@ {
        (
            PermissionEffect::Allow,
            if spec_available_scopes(p).contains(PermissionScope::Safe) {
                PermissionScope::Safe
            } else {
                PermissionScope::Exact
            },
            PermissionDuration::Connection,
        )
    } else {
        (PermissionEffect::Allow, PermissionScope::Exact, PermissionDuration::Once)
    }
}

/// A choice is consistent with the request: only `Path` carries a pattern,
/// and that pattern is one of the offered ones and covers the requested path.
pub open spec fn spec_choice_is_valid(p: PendingPermission, choice: PermissionChoice) -> bool {
    if choice.scope != PermissionScope::Path {
        choice.path_pattern is None
    } else {
        match choice.path_pattern {
            None => false,
            Some(pattern) => {
                &&& spec_available_path_patterns(p).contains(pattern@)
                &&& match p.operation {
                    Some(path) => spec_path_matches(pattern@, path@),
                    None => false,
                }
            },
        }
    }
}

/// The catalog revision that a grant of `scope` is bound to.
pub open spec fn spec_catalog_revision(scope: PermissionScope) -> Option<Seq<char>> {
    match scope {
        PermissionScope::Path => Some("http-path-v1"@),
        PermissionScope::Safe => Some("ssh-safe-v1"@),
        _ => None,
    }
}

/// The view of an optional string.
pub open spec fn opt_view(o: Option<String>) -> Option<Seq<char>> {
    match o {
        Some(s) => Some(s@),
        None => None,
    }
}

/// Whether a session grant covers an action.
///
/// `safe_command` says whether the SSH command of the action is in the safe
/// command catalog (risk `R1`).
pub open spec fn spec_grant_matches(
    grant: PermissionGrant,
    account_ref: Seq<char>,
    tool: Seq<char>,
    operation: Option<Seq<char>>,
    parameters_digest: Seq<char>,
    parameters: JsonValue,
    safe_command: bool,
) -> bool {
    &&& grant.account_ref@ == account_ref
    &&& grant.tool@ == tool
    &&& grant.remaining_uses != Some(0u32)
    &&& match grant.scope {
        PermissionScope::Exact => {
            &&& opt_view(grant.operation) == operation
            &&& match grant.parameters_digest {
                Some(d) => d@ == parameters_digest,
                None => true,
            }
        },
        PermissionScope::Path => {
            &&& tool == "vaultmesh_http_request"@
            &&& opt_view(grant.catalog_revision) == Some("http-path-v1"@)
            &&& match grant.operation {
                None => false,
                Some(pattern) => {
                    &&& opt_view(grant.parameters_digest) == parameters.spec_get_str("method"@)
                    &&& match parameters.spec_get_str("path"@) {
                        Some(path) => spec_path_matches(pattern@, path),
                        None => false,
                    }
                },
            }
        },
        PermissionScope::Safe => {
            &&& tool == "vaultmesh_ssh_exec"@
            &&& opt_view(grant.catalog_revision) == Some("ssh-safe-v1"@)
            &&& safe_command
        },
        PermissionScope::All => true,
    }
}

/// How specific a scope is: exact beats path beats safe beats all.
pub open spec fn scope_specificity(scope: PermissionScope) -> int {
    match scope {
        PermissionScope::Exact => 4,
        PermissionScope::Path => 3,
        PermissionScope::Safe => 2,
        PermissionScope::All => 1,
    }
}

/// The priority of a grant: denials first, then specificity, then grants that
/// need no fresh confirmation.
pub open spec fn grant_priority(g: PermissionGrant) -> int {
    (if g.effect == PermissionEffect::Deny { 100int } else { 0int }) + scope_specificity(g.scope) * 10 + (if g.fresh_confirmation_required { 0int } else { 1int })
}

/// A registry that the broker accepts.
pub open spec fn spec_valid_registry(registry: AgentRegistry) -> bool {
    let tools = registry.tools@;
    &&& registry.protocol_version == 2
    &&& tools.len() > 0
    &&& forall|i: int| 0 <= i < tools.len() ==> {
        let t = #[trigger] tools[i];
        &&& 1 <= t.version <= 3
        &&& t.name@.len() >= 10 && t.name@.subrange(0, 10) == "vaultmesh_"@
        &&& !contains_text(t.name@, "get_password"@)
        &&& !contains_text(t.name@, "export_secret"@)
        &&& !contains_text(t.name@, "dump_vault"@)
    }
    &&& forall|i: int, j: int| 0 <= i < j < tools.len() ==> #[trigger] tools[i].name@ != #[trigger] tools[j].name@
}

/// The follow-up tools of an SSH terminal session are not direct SSH
/// actions of their own, and an SSH Vault item accepts each of them.
pub proof fn law_terminal_tools_follow_ssh_sessions(tool: Seq<char>)
    requires
        ssh_pty_session_tools().contains(tool),
    ensures
        !direct_ssh_action_tools().contains(tool),
        spec_candidate_accepts_tool("ssh"@, tool),
{
    reveal_strlit("ssh");
    reveal_strlit("vaultmesh_ssh_pty_read");
    reveal_strlit("vaultmesh_ssh_pty_write");
    reveal_strlit("vaultmesh_ssh_pty_resize");
    reveal_strlit("vaultmesh_ssh_pty_close");
    reveal_strlit("vaultmesh_local_file_select");
    reveal_strlit("vaultmesh_result_save");
    reveal_strlit("vaultmesh_ssh_exec");
    reveal_strlit("vaultmesh_ssh_upload");
    reveal_strlit("vaultmesh_ssh_download");
    reveal_strlit("vaultmesh_ssh_public_key_install");
    reveal_strlit("vaultmesh_ssh_host_setup");
    reveal_strlit("vaultmesh_ssh_pty_open");
    reveal_strlit("vaultmesh_ssh_tunnel_open");
    let pty = ssh_pty_session_tools();
    let direct = direct_ssh_action_tools();
    let k = choose|k: int| 0 <= k < pty.len() && pty[k] == tool;
    assert forall|j: int| 0 <= j < direct.len() implies direct[j] != tool by {
        assert(pty[k].len() != direct[j].len() || pty[k][15] != direct[j][15] || pty[k][18] != direct[j][18]
            || pty[k][19] != direct[j][19] || pty[k][20] != direct[j][20]);
    }
}

/// A matching denial always decides: when the grant chosen for an action has
/// the highest priority among the grants that match it (as
/// `matching_permission_grant_index` ensures), and some matching grant denies
/// the action, the chosen grant is a denial.
pub proof fn law_matching_deny_wins(
    grants: Seq<PermissionGrant>,
    account_ref: Seq<char>,
    tool: Seq<char>,
    operation: Option<Seq<char>>,
    parameters_digest: Seq<char>,
    parameters: JsonValue,
    safe_command: bool,
    chosen: int,
    denying: int,
)
    requires
        0 <= chosen < grants.len(),
        0 <= denying < grants.len(),
        forall|j: int| 0 <= j < grants.len() && spec_grant_matches(#[trigger] grants[j], account_ref, tool, operation, parameters_digest, parameters, safe_command)
            ==> grant_priority(grants[j]) <= grant_priority(grants[chosen]),
        spec_grant_matches(grants[denying], account_ref, tool, operation, parameters_digest, parameters, safe_command),
        grants[denying].effect == PermissionEffect::Deny,
    ensures
        grants[chosen].effect == PermissionEffect::Deny,
{
    assert(grant_priority(grants[denying]) <= grant_priority(grants[chosen]));
}

/// A request of risk `R3` or higher is only ever offered exact (and, for a
/// `secret` HTTP item, path) scopes: never the safe catalog or the whole tool.
pub proof fn law_high_risk_offers_no_broad_scope(p: PendingPermission)
    requires
        spec_risk_rank(p.risk@) >= 3,
    ensures
        !spec_available_scopes(p).contains(PermissionScope::Safe),
        !spec_available_scopes(p).contains(PermissionScope::All),
{
    let s = spec_available_scopes(p);
    assert(forall|i: int| 0 <= i < s.len() ==> s[i] == PermissionScope::Exact || s[i] == PermissionScope::Path);
}

/// The preselected choice is always one that the window offers: its scope is
/// an available scope and its duration an available allow duration.
pub proof fn law_recommended_choice_is_offered(p: PendingPermission)
    ensures
        spec_available_scopes(p).contains(spec_recommended_choice(p).1),
        spec_available_durations(p, PermissionEffect::Allow).contains(spec_recommended_choice(p).2),
{
    let s = spec_available_scopes(p);
    assert(s[0] == PermissionScope::Exact);
    let d = spec_available_durations(p, PermissionEffect::Allow);
    assert(d[0] == PermissionDuration::Once);
    if p.risk@ == "R1"@ {
        reveal_strlit("R1");
        reveal_strlit("R4");
        assert(p.risk@ != "R4"@) by {
            assert(p.risk@[1] == '1');
        }
        assert(d[1] == PermissionDuration::Connection);
    }
}

/// When the requested HTTP path has a parent, every offered path pattern is a
/// valid pattern.
pub proof fn law_offered_path_patterns_are_valid(p: PendingPermission)
    requires
        last_slash(requested_http_path(p)) is Some,
    ensures
        forall|k: int| 0 <= k < spec_available_path_patterns(p).len() ==> valid_path_pattern(#[trigger] spec_available_path_patterns(p)[k]),
{
    broadcast use vstd::seq_lib::group_filter_ensures;
    if secret_http_policy(p) is Some {
        let exact = requested_http_path(p);
        let i = last_slash(exact)->0;
        let parent = exact.subrange(0, i);
        let c = seq![exact, parent + "/*"@, parent + "/**"@];
        let f = c.filter(|x: Seq<char>| valid_path_pattern(x));
        assert(spec_available_path_patterns(p) == f);
    }
}

// ----------------------------------------------------------------------------
// Executable functions
// ----------------------------------------------------------------------------

/// Parses an opaque UUID reference; `code` is the error code for a bad reference.
pub fn parse_opaque_id(value: &str, code: &'static str) -> (r: Result<u128, AgentBrokerError>)
    ensures
        match uuid_parse(value@) {
            Some(id) => r matches Ok(v) && v == id,
            None => r matches Err(e) && e.code == code && !e.retryable && e.message@ == "The opaque Agent reference is invalid."@,
        },
{
    match parse_uuid(value) {
        Some(id) => Ok(id),
        None => Err(AgentBrokerError::new(code, "The opaque Agent reference is invalid.", false)),
    }
}

/// The rank of a risk tier name.
pub fn risk_rank(risk: &str) -> (r: u8)
    ensures
        r == spec_risk_rank(risk@),
{
    if str_eq(risk, "R0") {
        0
    } else if str_eq(risk, "R1") {
        1
    } else if str_eq(risk, "R2") {
        2
    } else if str_eq(risk, "R3") {
        3
    } else if str_eq(risk, "R4") {
        4
    } else {
        255
    }
}

/// Whether a binary identity is `sha256:` with 64 lower-case hex digits.
pub fn valid_sha256_identity(value: &str) -> (r: bool)
    ensures
        r == spec_valid_sha256_identity(value@),
{
    let v = to_chars(value);
    if v.len() != 71 || !starts_with(value, "sha256:") {
        proof {
            reveal_strlit("sha256:");
        }
        return false;
    }
    proof {
        reveal_strlit("sha256:");
    }
    let mut i: usize = 7;
    while i < 71
        invariant
            v@ == value@,
            v.len() == 71,
            7 <= i <= 71,
            forall|k: int| 7 <= k < i ==> is_lower_hex_char(#[trigger] v@[k]),
        decreases 71 - i,
    {
        let code = v[i] as u32;
        if !((code >= 48 && code <= 57) || (code >= 97 && code <= 102)) {
            return false;
        }
        i += 1;
    }
    true
}

/// The tools that a Vault item of kind `kind` offers directly.
pub fn candidate_tools(kind: &str) -> (r: Vec<&'static str>)
    ensures
        str_views(r@) == spec_candidate_tools(kind@),
{
    if str_eq(kind, "secret") {
        let r = vec!["vaultmesh_http_request"];
        assert(str_views(r@) =~= seq!["vaultmesh_http_request"@]);
        r
    } else if str_eq(kind, "ssh") {
        direct_ssh_action_tool_list()
    } else {
        let r: Vec<&'static str> = Vec::new();
        assert(str_views(r@) =~= Seq::<Seq<char>>::empty());
        r
    }
}

fn direct_ssh_action_tool_list() -> (r: Vec<&'static str>)
    ensures
        str_views(r@) == direct_ssh_action_tools(),
{
    let r = vec![
        "vaultmesh_local_file_select",
        "vaultmesh_result_save",
        "vaultmesh_ssh_exec",
        "vaultmesh_ssh_upload",
        "vaultmesh_ssh_download",
        "vaultmesh_ssh_public_key_install",
        "vaultmesh_ssh_host_setup",
        "vaultmesh_ssh_pty_open",
        "vaultmesh_ssh_tunnel_open",
    ];
    assert(str_views(r@) =~= direct_ssh_action_tools());
    r
}

fn ssh_pty_session_tool_list() -> (r: Vec<&'static str>)
    ensures
        str_views(r@) == ssh_pty_session_tools(),
{
    let r = vec![
        "vaultmesh_ssh_pty_read",
        "vaultmesh_ssh_pty_write",
        "vaultmesh_ssh_pty_resize",
        "vaultmesh_ssh_pty_close",
    ];
    assert(str_views(r@) =~= ssh_pty_session_tools());
    r
}

fn managed_web_tool_list() -> (r: Vec<&'static str>)
    ensures
        str_views(r@) == managed_web_tools(),
{
    let r = vec![
        "vaultmesh_web_session_open",
        "vaultmesh_web_navigate",
        "vaultmesh_web_extract",
        "vaultmesh_web_act",
        "vaultmesh_web_download",
        "vaultmesh_web_session_close",
        "vaultmesh_otp_fill",
        "vaultmesh_recovery_code_consume",
        "vaultmesh_passkey_request_begin",
        "vaultmesh_passkey_perform",
        "vaultmesh_result_save",
    ];
    assert(str_views(r@) =~= managed_web_tools());
    r
}

/// Whether an item of kind `kind` accepts `tool`.
pub fn candidate_accepts_tool(kind: &str, tool: &str) -> (r: bool)
    ensures
        r == spec_candidate_accepts_tool(kind@, tool@),
{
    let tools = candidate_tools(kind);
    if str_in(&tools, tool) {
        return true;
    }
    str_eq(kind, "ssh") && (str_eq(tool, "vaultmesh_local_file_select") || str_eq(tool, "vaultmesh_result_save")
        || str_in(&ssh_pty_session_tool_list(), tool))
}

/// Whether `tool` acts directly on an SSH Vault item.
pub fn is_direct_ssh_action_tool(tool: &str) -> (r: bool)
    ensures
        r == direct_ssh_action_tools().contains(tool@),
{
    str_in(&direct_ssh_action_tool_list(), tool)
}

/// Whether `tool` continues an open SSH terminal session.
pub fn is_ssh_pty_session_tool(tool: &str) -> (r: bool)
    ensures
        r == ssh_pty_session_tools().contains(tool@),
{
    str_in(&ssh_pty_session_tool_list(), tool)
}

/// Whether a connector of kind `connector_kind` runs `tool` directly.
pub fn is_direct_connector_action_tool(connector_kind: &str, tool: &str) -> (r: bool)
    ensures
        r == spec_is_direct_connector_action_tool(connector_kind@, tool@),
{
    str_eq(connector_kind, "managed-web") && str_in(&managed_web_tool_list(), tool)
}

/// The operation that a permission request for `tool` names in its parameters.
pub fn request_permission_operation<'a>(tool: &str, parameters: &'a JsonValue) -> (r: Option<&'a str>)
    ensures
        match spec_request_permission_operation(tool@, *parameters) {
            Some(op) => r is Some && r->0@ == op,
            None => r is None,
        },
{
    let field = if str_eq(tool, "vaultmesh_ssh_exec") {
        "program"
    } else if str_eq(tool, "vaultmesh_ssh_tunnel_open") {
        "endpoint"
    } else if str_eq(tool, "vaultmesh_web_navigate") {
        "route"
    } else if str_eq(tool, "vaultmesh_web_extract") || str_eq(tool, "vaultmesh_web_act") || str_eq(
        tool,
        "vaultmesh_web_download",
    ) || str_eq(tool, "vaultmesh_passkey_request_begin") {
        "recipe"
    } else if str_eq(tool, "vaultmesh_http_request") {
        "path"
    } else {
        return None;
    };
    parameters.get_str(field)
}

/// The tools that a named operation of a connector definition unlocks.
pub fn tools_for_named_operation(field: &str, operation: &JsonValue) -> (r: Vec<&'static str>)
    ensures
        str_views(r@) == spec_tools_for_named_operation(field@, *operation),
{
    let empty: Vec<&'static str> = Vec::new();
    assert(str_views(empty@) =~= Seq::<Seq<char>>::empty());
    if str_eq(field, "tunnelPolicies") {
        let r = vec!["vaultmesh_ssh_tunnel_open"];
        assert(str_views(r@) =~= seq!["vaultmesh_ssh_tunnel_open"@]);
        return r;
    }
    if !str_eq(field, "recipes") {
        return empty;
    }
    let kind = match operation.get_str("kind") {
        Some(k) => k,
        None => return empty,
    };
    let r = if str_eq(kind, "navigate") {
        vec!["vaultmesh_web_navigate"]
    } else if str_eq(kind, "extract") {
        vec!["vaultmesh_web_extract"]
    } else if str_eq(kind, "action") {
        vec!["vaultmesh_web_act"]
    } else if str_eq(kind, "download") {
        vec!["vaultmesh_web_download"]
    } else if str_eq(kind, "totp") || str_eq(kind, "email-otp") {
        vec!["vaultmesh_otp_fill"]
    } else if str_eq(kind, "recovery-code") {
        vec!["vaultmesh_recovery_code_consume"]
    } else if str_eq(kind, "passkey-registration") || str_eq(kind, "passkey-assertion") {
        vec!["vaultmesh_passkey_request_begin", "vaultmesh_passkey_perform"]
    } else {
        return empty;
    };
    assert(str_views(r@) =~= spec_tools_for_named_operation(field@, *operation));
    r
}

fn is_secret_http(p: &PendingPermission) -> (r: bool)
    ensures
        r == (secret_http_policy(*p) is Some),
{
    match &p.direct_http_policy {
        Some(policy) => str_eq(policy.item_kind.as_str(), "secret"),
        None => false,
    }
}

/// The scopes that the authorization window offers for a request.
pub fn permission_available_scopes(permission: &PendingPermission) -> (r: Vec<PermissionScope>)
    ensures
        r@ == spec_available_scopes(*permission),
{
    let mut scopes = vec![PermissionScope::Exact];
    if is_secret_http(permission) {
        scopes.push(PermissionScope::Path);
    }
    assert(scopes@ =~= if secret_http_policy(*permission) is Some {
        seq![PermissionScope::Exact, PermissionScope::Path]
    } else {
        seq![PermissionScope::Exact]
    });
    if risk_rank(permission.risk.as_str()) >= 3 {
        return scopes;
    }
    if str_eq(permission.tool.as_str(), "vaultmesh_ssh_exec") {
        if str_eq(permission.risk.as_str(), "R1") {
            scopes.push(PermissionScope::Safe);
        }
        scopes.push(PermissionScope::All);
    } else if is_direct_ssh_action_tool(permission.tool.as_str()) || permission.source_item_ref.is_none() {
        scopes.push(PermissionScope::All);
    }
    scopes
}

fn scope_in(scopes: &Vec<PermissionScope>, scope: PermissionScope) -> (r: bool)
    ensures
        r == scopes@.contains(scope),
{
    let mut i: usize = 0;
    while i < scopes.len()
        invariant
            i <= scopes.len(),
            forall|k: int| 0 <= k < i ==> scopes@[k] != scope,
        decreases scopes.len() - i,
    {
        if scopes[i] == scope {
            return true;
        }
        i += 1;
    }
    false
}

/// The durations offered for an effect.
pub fn permission_available_durations(permission: &PendingPermission, effect: PermissionEffect) -> (r: Vec<PermissionDuration>)
    ensures
        r@ == spec_available_durations(*permission, effect),
{
    if effect == PermissionEffect::Allow && str_eq(permission.risk.as_str(), "R4") {
        let r = vec![PermissionDuration::Once];
        assert(r@ =~= seq![PermissionDuration::Once]);
        return r;
    }
    let r = vec![PermissionDuration::Once, PermissionDuration::Connection, PermissionDuration::Permanent];
    assert(r@ =~= seq![PermissionDuration::Once, PermissionDuration::Connection, PermissionDuration::Permanent]);
    r
}

/// The choice that the authorization window preselects: connection-long
/// (and the safe catalog where offered) for `R1`, a single exact use otherwise.
pub fn permission_recommended_choice(permission: &PendingPermission) -> (r: PermissionChoice)
    ensures
        (r.effect, r.scope, r.duration) == spec_recommended_choice(*permission),
        r.path_pattern is None,
{
    if str_eq(permission.risk.as_str(), "R1") {
        let scopes = permission_available_scopes(permission);
        return PermissionChoice {
            effect: PermissionEffect::Allow,
            scope: if scope_in(&scopes, PermissionScope::Safe) {
                PermissionScope::Safe
            } else {
                PermissionScope::Exact
            },
            duration: PermissionDuration::Connection,
            path_pattern: None,
        };
    }
    PermissionChoice {
        effect: PermissionEffect::Allow,
        scope: PermissionScope::Exact,
        duration: PermissionDuration::Once,
        path_pattern: None,
    }
}

fn clone_string(s: &String) -> (r: String)
    ensures
        r@ == s@,
{
    s.clone()
}

/// The HTTP path patterns offered for a request on a `secret` item.
pub fn permission_available_path_patterns(permission: &PendingPermission) -> (r: Vec<String>)
    ensures
        r@.map_values(|s: String| s@) == spec_available_path_patterns(*permission),
{
    let policy = match &permission.direct_http_policy {
        Some(policy) => policy,
        None => {
            let r: Vec<String> = Vec::new();
            assert(r@.map_values(|s: String| s@) =~= Seq::<Seq<char>>::empty());
            return r;
        },
    };
    if !str_eq(policy.item_kind.as_str(), "secret") {
        let r: Vec<String> = Vec::new();
        assert(r@.map_values(|s: String| s@) =~= Seq::<Seq<char>>::empty());
        return r;
    }
    let exact = match &permission.operation {
        Some(op) => clone_string(op),
        None => clone_string(&policy.operation.path),
    };
    let e = to_chars(exact.as_str());
    let mut i: usize = e.len();
    assert(e@.subrange(0, e@.len() as int) =~= e@);
    while i > 0 && e[i - 1] != '/'
        invariant
            i <= e.len(),
            last_slash(e@) == last_slash(e@.subrange(0, i as int)),
        decreases i,
    {
        assert(e@.subrange(0, i as int).drop_last() =~= e@.subrange(0, i - 1));
        i -= 1;
    }
    if i == 0 {
        assert(e@.subrange(0, 0) =~= Seq::<char>::empty());
        let r = vec![exact];
        assert(r@.map_values(|s: String| s@) =~= spec_available_path_patterns(*permission));
        return r;
    }
    let slash = i - 1;
    assert(last_slash(e@) == Some(slash as int));
    let mut parent: Vec<char> = Vec::new();
    let mut k: usize = 0;
    while k < slash
        invariant
            slash < e.len(),
            k <= slash,
            parent@ == e@.subrange(0, k as int),
        decreases slash - k,
    {
        parent.push(e[k]);
        assert(parent@ =~= e@.subrange(0, k + 1));
        k += 1;
    }
    let mut siblings = parent.clone();
    siblings.push('/');
    siblings.push('*');
    let mut subtree = parent.clone();
    subtree.push('/');
    subtree.push('*');
    subtree.push('*');
    proof {
        reveal_strlit("/*");
        reveal_strlit("/**");
        assert(siblings@ =~= parent@ + "/*"@);
        assert(subtree@ =~= parent@ + "/**"@);
    }
    let candidates = vec![exact, from_chars(&siblings), from_chars(&subtree)];
    let ghost cands = seq![e@, parent@ + "/*"@, parent@ + "/**"@];
    assert(candidates@.map_values(|s: String| s@) =~= cands);
    let mut r: Vec<String> = Vec::new();
    let mut j: usize = 0;
    while j < candidates.len()
        invariant
            j <= candidates.len(),
            candidates@.map_values(|s: String| s@) == cands,
            r@.map_values(|s: String| s@) == cands.take(j as int).filter(|c: Seq<char>| valid_path_pattern(c)),
        decreases candidates.len() - j,
    {
        proof {
            assert(cands.take(j + 1).drop_last() =~= cands.take(j as int));
            assert(cands.take(j + 1).last() == cands[j as int]);
            reveal_with_fuel(Seq::filter, 1);
        }
        if validate_pattern(candidates[j].as_str()).is_ok() {
            r.push(clone_string(&candidates[j]));
            assert(r@.map_values(|s: String| s@) =~= cands.take(j as int).filter(|c: Seq<char>| valid_path_pattern(c)).push(
                cands[j as int],
            ));
        } else {
            assert(r@.map_values(|s: String| s@) =~= cands.take(j + 1).filter(|c: Seq<char>| valid_path_pattern(c)));
        }
        j += 1;
    }
    assert(cands.take(3) =~= cands);
    r
}

/// Whether a choice is consistent with the request.
pub fn permission_choice_is_valid(permission: &PendingPermission, choice: &PermissionChoice) -> (r: bool)
    ensures
        r == spec_choice_is_valid(*permission, *choice),
{
    if choice.scope != PermissionScope::Path {
        return choice.path_pattern.is_none();
    }
    let pattern = match &choice.path_pattern {
        Some(p) => p,
        None => return false,
    };
    let patterns = permission_available_path_patterns(permission);
    let mut offered = false;
    let mut i: usize = 0;
    while i < patterns.len()
        invariant
            i <= patterns.len(),
            offered == exists|k: int| 0 <= k < i && patterns@[k]@ == pattern@,
        decreases patterns.len() - i,
    {
        if str_eq(patterns[i].as_str(), pattern.as_str()) {
            offered = true;
        }
        i += 1;
    }
    proof {
        let views = patterns@.map_values(|s: String| s@);
        if offered {
            let k = choose|k: int| 0 <= k < patterns@.len() && patterns@[k]@ == pattern@;
            assert(views[k] == pattern@);
        } else {
            if views.contains(pattern@) {
                let k = choose|k: int| 0 <= k < views.len() && views[k] == pattern@;
                assert(patterns@[k]@ == pattern@);
            }
        }
    }
    offered && match &permission.operation {
        Some(path) => path_matches(pattern.as_str(), path.as_str()),
        None => false,
    }
}

/// The operation a grant made from `choice` is bound to.
pub fn permission_choice_operation<'a>(permission: &'a PendingPermission, choice: &'a PermissionChoice) -> (r: Option<&'a str>)
    ensures
        match choice.scope {
            PermissionScope::Exact => opt_ref_view(r) == opt_view(permission.operation),
            PermissionScope::Path => opt_ref_view(r) == opt_view(choice.path_pattern),
            _ => r is None,
        },
{
    match choice.scope {
        PermissionScope::Exact => match &permission.operation {
            Some(op) => Some(op.as_str()),
            None => None,
        },
        PermissionScope::Path => match &choice.path_pattern {
            Some(p) => Some(p.as_str()),
            None => None,
        },
        _ => None,
    }
}

/// The view of an optional string slice.
pub open spec fn opt_ref_view(o: Option<&str>) -> Option<Seq<char>> {
    match o {
        Some(s) => Some(s@),
        None => None,
    }
}

/// The digest a grant made from `choice` is bound to: the parameters digest for
/// `Exact`, the HTTP method for `Path`.
pub fn permission_choice_parameters_digest<'a>(permission: &'a PendingPermission, choice: &PermissionChoice) -> (r: Option<&'a str>)
    ensures
        match choice.scope {
            PermissionScope::Exact => opt_ref_view(r) == opt_view(permission.parameters_digest),
            PermissionScope::Path => opt_ref_view(r) == match permission.direct_http_policy {
                Some(policy) => Some(policy.operation.method@),
                None => None,
            },
            _ => r is None,
        },
{
    match choice.scope {
        PermissionScope::Exact => match &permission.parameters_digest {
            Some(d) => Some(d.as_str()),
            None => None,
        },
        PermissionScope::Path => match &permission.direct_http_policy {
            Some(policy) => Some(policy.operation.method.as_str()),
            None => None,
        },
        _ => None,
    }
}

/// The catalog revision that a grant made from `choice` is bound to.
pub fn permission_choice_catalog_revision(choice: &PermissionChoice) -> (r: Option<&'static str>)
    ensures
        opt_ref_view(r) == spec_catalog_revision(choice.scope),
{
    proof {
        reveal_strlit("http-path-v1");
        reveal_strlit("ssh-safe-v1");
    }
    match choice.scope {
        PermissionScope::Path => Some(HTTP_PATH_MATCHER_REVISION),
        PermissionScope::Safe => Some(SAFE_SSH_CATALOG_REVISION),
        _ => None,
    }
}

fn opt_eq(a: &Option<String>, b: Option<&str>) -> (r: bool)
    ensures
        r == (opt_view(*a) == opt_ref_view(b)),
{
    match (a, b) {
        (Some(x), Some(y)) => str_eq(x.as_str(), y),
        (None, None) => true,
        _ => false,
    }
}

/// Whether a session grant covers an action; `safe_command` says whether the
/// SSH command of the action is in the safe command catalog.
pub fn permission_grant_matches(
    grant: &PermissionGrant,
    account_ref: &str,
    tool: &str,
    operation: Option<&str>,
    parameters_digest: &str,
    parameters: &JsonValue,
    safe_command: bool,
) -> (r: bool)
    ensures
        r == spec_grant_matches(*grant, account_ref@, tool@, opt_ref_view(operation), parameters_digest@, *parameters, safe_command),
{
    if !str_eq(grant.account_ref.as_str(), account_ref) || !str_eq(grant.tool.as_str(), tool) {
        return false;
    }
    match grant.remaining_uses {
        Some(0) => return false,
        _ => {},
    }
    proof {
        reveal_strlit("http-path-v1");
        reveal_strlit("ssh-safe-v1");
    }
    match grant.scope {
        PermissionScope::Exact => {
            opt_eq(&grant.operation, operation) && match &grant.parameters_digest {
                Some(d) => str_eq(d.as_str(), parameters_digest),
                None => true,
            }
        },
        PermissionScope::Path => {
            if !str_eq(tool, "vaultmesh_http_request") || !opt_eq(&grant.catalog_revision, Some(HTTP_PATH_MATCHER_REVISION)) {
                return false;
            }
            let pattern = match &grant.operation {
                Some(p) => p,
                None => return false,
            };
            if !opt_eq(&grant.parameters_digest, parameters.get_str("method")) {
                return false;
            }
            match parameters.get_str("path") {
                Some(path) => path_matches(pattern.as_str(), path),
                None => false,
            }
        },
        PermissionScope::Safe => {
            str_eq(tool, "vaultmesh_ssh_exec") && opt_eq(&grant.catalog_revision, Some(SAFE_SSH_CATALOG_REVISION))
                && safe_command
        },
        PermissionScope::All => true,
    }
}

fn grant_priority_exec(g: &PermissionGrant) -> (r: u8)
    ensures
        r as int == grant_priority(*g),
{
    let deny: u8 = if g.effect == PermissionEffect::Deny { 100 } else { 0 };
    let specificity: u8 = match g.scope {
        PermissionScope::Exact => 4,
        PermissionScope::Path => 3,
        PermissionScope::Safe => 2,
        PermissionScope::All => 1,
    };
    let ready: u8 = if g.fresh_confirmation_required { 0 } else { 1 };
    deny + specificity * 10 + ready
}

/// The index of the grant that decides an action: among the matching grants
/// the one of highest priority (a denial first, then the most specific scope,
/// then one that needs no fresh confirmation), the last of equals.
pub fn matching_permission_grant_index(
    grants: &Vec<PermissionGrant>,
    account_ref: &str,
    tool: &str,
    operation: Option<&str>,
    parameters_digest: &str,
    parameters: &JsonValue,
    safe_command: bool,
) -> (r: Option<usize>)
    ensures
        match r {
            Some(i) => {
                &&& i < grants.len()
                &&& spec_grant_matches(grants@[i as int], account_ref@, tool@, opt_ref_view(operation), parameters_digest@, *parameters, safe_command)
                &&& forall|j: int| 0 <= j < grants.len() && spec_grant_matches(#[trigger] grants@[j], account_ref@, tool@, opt_ref_view(operation), parameters_digest@, *parameters, safe_command)
                    ==> grant_priority(grants@[j]) <= grant_priority(grants@[i as int])
                &&& forall|j: int| i < j < grants.len() && spec_grant_matches(#[trigger] grants@[j], account_ref@, tool@, opt_ref_view(operation), parameters_digest@, *parameters, safe_command)
                    ==> grant_priority(grants@[j]) < grant_priority(grants@[i as int])
            },
            None => forall|j: int| 0 <= j < grants.len() ==> !spec_grant_matches(#[trigger] grants@[j], account_ref@, tool@, opt_ref_view(operation), parameters_digest@, *parameters, safe_command),
        },
{
    let mut best: Option<usize> = None;
    let mut best_priority: u8 = 0;
    let mut i: usize = 0;
    while i < grants.len()
        invariant
            i <= grants.len(),
            match best {
                Some(b) => {
                    &&& b < i
                    &&& best_priority as int == grant_priority(grants@[b as int])
                    &&& spec_grant_matches(grants@[b as int], account_ref@, tool@, opt_ref_view(operation), parameters_digest@, *parameters, safe_command)
                    &&& forall|j: int| 0 <= j < i && spec_grant_matches(#[trigger] grants@[j], account_ref@, tool@, opt_ref_view(operation), parameters_digest@, *parameters, safe_command)
                        ==> grant_priority(grants@[j]) <= grant_priority(grants@[b as int])
                    &&& forall|j: int| b < j < i && spec_grant_matches(#[trigger] grants@[j], account_ref@, tool@, opt_ref_view(operation), parameters_digest@, *parameters, safe_command)
                        ==> grant_priority(grants@[j]) < grant_priority(grants@[b as int])
                },
                None => forall|j: int| 0 <= j < i ==> !spec_grant_matches(#[trigger] grants@[j], account_ref@, tool@, opt_ref_view(operation), parameters_digest@, *parameters, safe_command),
            },
        decreases grants.len() - i,
    {
        if permission_grant_matches(&grants[i], account_ref, tool, operation, parameters_digest, parameters, safe_command) {
            let priority = grant_priority_exec(&grants[i]);
            let better = match best {
                Some(_) => priority >= best_priority,
                None => true,
            };
            if better {
                best = Some(i);
                best_priority = priority;
            }
        }
        i += 1;
    }
    best
}

/// Checks the capability registry: protocol version 2, at least one tool,
/// unique `vaultmesh_` names, versions 1 to 3, and no name that suggests
/// exporting secrets.
pub fn validate_registry(registry: &AgentRegistry) -> (r: Result<(), AgentBrokerError>)
    ensures
        r is Ok <==> spec_valid_registry(*registry),
        r matches Err(e) ==> e.code@ == "broker-unavailable"@,
{
    if registry.protocol_version != 2 || registry.tools.len() == 0 {
        return Err(AgentBrokerError::internal());
    }
    let get_password = to_chars("get_password");
    let export_secret = to_chars("export_secret");
    let dump_vault = to_chars("dump_vault");
    proof {
        reveal_strlit("vaultmesh_");
    }
    let mut i: usize = 0;
    while i < registry.tools.len()
        invariant
            i <= registry.tools.len(),
            registry.protocol_version == 2,
            registry.tools.len() > 0,
            get_password@ == "get_password"@,
            export_secret@ == "export_secret"@,
            dump_vault@ == "dump_vault"@,
            forall|k: int| 0 <= k < i ==> {
                let t = #[trigger] registry.tools@[k];
                &&& 1 <= t.version <= 3
                &&& t.name@.len() >= 10 && t.name@.subrange(0, 10) == "vaultmesh_"@
                &&& !contains_text(t.name@, "get_password"@)
                &&& !contains_text(t.name@, "export_secret"@)
                &&& !contains_text(t.name@, "dump_vault"@)
            },
            forall|a: int, b: int| 0 <= a < b < i ==> #[trigger] registry.tools@[a].name@ != #[trigger] registry.tools@[b].name@,
        decreases registry.tools.len() - i,
    {
        proof {
            reveal_strlit("vaultmesh_");
        }
        let tool = &registry.tools[i];
        let name = to_chars(tool.name.as_str());
        if tool.version < 1 || tool.version > 3 || !starts_with(tool.name.as_str(), "vaultmesh_")
            || chars_contain(&name, &get_password) || chars_contain(&name, &export_secret)
            || chars_contain(&name, &dump_vault) {
            return Err(AgentBrokerError::internal());
        }
        let mut j: usize = 0;
        while j < i
            invariant
                i < registry.tools.len(),
                j <= i,
                forall|b: int| 0 <= b < j ==> registry.tools@[b].name@ != registry.tools@[i as int].name@,
            decreases i - j,
        {
            if str_eq(registry.tools[j].name.as_str(), registry.tools[i].name.as_str()) {
                return Err(AgentBrokerError::internal());
            }
            j += 1;
        }
        i += 1;
    }
    Ok(())
}


/// A path grant is bound to one HTTP method: whenever a path-scope grant
/// covers an action, the action's `method` parameter is exactly the method
/// the grant stores, so a request with any other method is never covered.
pub proof fn law_path_grant_is_bound_to_its_method(
    grant: PermissionGrant,
    account_ref: Seq<char>,
    tool: Seq<char>,
    operation: Option<Seq<char>>,
    parameters_digest: Seq<char>,
    parameters: JsonValue,
    safe_command: bool,
)
    requires
        grant.scope == PermissionScope::Path,
        spec_grant_matches(grant, account_ref, tool, operation, parameters_digest, parameters, safe_command),
    ensures
        parameters.spec_get_str("method"@) == opt_view(grant.parameters_digest),
        grant.operation is Some,
        parameters.spec_get_str("path"@) is Some,
{
}

} // verus!
