//! The broker's shared data types: the capability registry, client identities,
//! permission choices and the snapshots shown in the local UI.
use vstd::prelude::*;

verus! {

/// The capability registry shared with Agent adapters.
#[derive(Clone, Debug)]
pub struct AgentRegistry {
    pub protocol_version: u32,
    pub tools: Vec<AgentToolDefinition>,
}

/// One capability of the registry.
#[derive(Clone, Debug)]
pub struct AgentToolDefinition {
    pub name: String,
    pub version: u32,
    pub capability: String,
    pub risk: String,
    pub requires_account: bool,
    pub confirmation: String,
    pub parameters: Vec<AgentToolParameter>,
}

/// One parameter of a capability.
#[derive(Clone, Debug)]
pub struct AgentToolParameter {
    pub name: String,
    pub parameter_type: String,
    pub required: bool,
    pub max_length: Option<u64>,
    pub max_items: Option<u64>,
    pub max_bytes: Option<u64>,
}

/// The identity of a local peer process as the transport verified it.
#[derive(Clone, Debug)]
pub struct PeerIdentity {
    pub user_id: String,
    pub process_id: u32,
    pub executable: String,
    pub binary_identity: String,
}

/// The hello frame of an Agent client.
#[derive(Clone, Debug)]
pub struct ClientHello {
    pub client_key: String,
}

/// Whether a client identity has been approved locally.
#[derive(Clone, Copy, Debug, PartialEq, Eq, Structural)]
pub enum PairingState {
    Pending,
    Paired,
}

/// A connected Agent client.
#[derive(Clone, Debug)]
pub struct AgentClientSnapshot {
    pub client_id: String,
    pub client_key: String,
    pub pairing_state: PairingState,
    pub connected_at: u64,
    pub active_session_count: usize,
}

/// One connection of a client identity.
#[derive(Clone, Debug)]
pub struct AgentClientActivitySnapshot {
    pub client_id: String,
    pub process_id: u32,
    pub connected_at: u64,
    pub active_session_count: usize,
}

/// A client identity with its connections, as the admin UI lists it.
#[derive(Clone, Debug)]
pub struct AgentClientAdminSnapshot {
    pub client_id: String,
    pub client_key: String,
    pub pairing_state: PairingState,
    pub active_session_count: usize,
    pub activities: Vec<AgentClientActivitySnapshot>,
}

/// A pending request for the independent MCP unlock.
#[derive(Clone, Debug)]
pub struct AgentUnlockRequestSnapshot {
    pub unlock_ref: String,
    pub client_id: String,
    pub client_key: String,
    pub created_at: u64,
    pub expires_at: u64,
}

/// A pending pairing request.
#[derive(Clone, Debug)]
pub struct AgentPairingRequestSnapshot {
    pub client_id: String,
    pub client_key: String,
    pub connected_at: u64,
}

/// The decisions offered by the legacy permission prompt.
#[derive(Clone, Copy, Debug, PartialEq, Eq, Structural)]
pub enum PermissionDecision {
    AllowOnce,
    AllowSession,
    AlwaysAllow,
    DenyOnce,
    AlwaysDeny,
}

/// What an authorization covers: this exact action, an HTTP path pattern,
/// the safe command catalog, or every action of the tool on the account.
#[derive(Clone, Copy, Debug, PartialEq, Eq, Structural)]
pub enum PermissionScope {
    Exact,
    Path,
    Safe,
    All,
}

/// How long an authorization lasts.
#[derive(Clone, Copy, Debug, PartialEq, Eq, Structural)]
pub enum PermissionDuration {
    Once,
    Connection,
    Permanent,
}

/// Whether an authorization allows or denies.
#[derive(Clone, Copy, Debug, PartialEq, Eq, Structural)]
pub enum PermissionEffect {
    Allow,
    Deny,
}

/// The choice made in the local authorization window.
#[derive(Clone, Debug, PartialEq, Eq)]
pub struct PermissionChoice {
    pub effect: PermissionEffect,
    pub scope: PermissionScope,
    pub duration: PermissionDuration,
    pub path_pattern: Option<String>,
}

/// A pending permission request as the local UI shows it.
#[derive(Clone, Debug)]
pub struct PermissionRequestSnapshot {
    pub permission_ref: String,
    pub client_id: String,
    pub session_id: String,
    pub account_ref: String,
    pub account_label: String,
    pub environment: String,
    pub tool: String,
    pub operation: Option<String>,
    pub risk: String,
    pub approved_display: String,
    pub action_display: String,
    pub source_item_ref: Option<String>,
    pub source_item_kind: Option<String>,
    pub activation_required: bool,
    pub available_scopes: Vec<PermissionScope>,
    pub available_path_patterns: Vec<String>,
    pub available_allow_durations: Vec<PermissionDuration>,
    pub available_deny_durations: Vec<PermissionDuration>,
    pub recommended_scope: PermissionScope,
    pub recommended_duration: PermissionDuration,
    pub fresh_confirmation_required: bool,
    pub created_at: u64,
    pub expires_at: u64,
}

/// A persistent authorization rule as the admin UI lists it.
#[derive(Clone, Debug)]
pub struct AuthorizationRuleSnapshot {
    pub id: String,
    pub client_key: String,
    pub account_ref: String,
    pub tool: String,
    pub scope: PermissionScope,
    pub effect: PermissionEffect,
    pub http_method: Option<String>,
    pub path_pattern: Option<String>,
    pub created_at: u64,
    pub updated_at: u64,
}

/// A resolved permission request and the choice that resolved it.
#[derive(Clone, Debug)]
pub struct PermissionResolution {
    pub request: PermissionRequestSnapshot,
    pub choice: PermissionChoice,
}

/// A pending confirmation.
#[derive(Clone, Debug)]
pub struct ConfirmationSnapshot {
    pub confirmation_ref: String,
    pub client_id: String,
    pub session_id: String,
    pub account_ref: Option<String>,
    pub account_label: Option<String>,
    pub tool: String,
    pub risk: String,
    pub created_at: u64,
    pub expires_at: u64,
    pub approved: bool,
}

/// A connection session.
#[derive(Clone, Debug)]
pub struct ConnectionSessionSnapshot {
    pub session_id: String,
    pub client_id: String,
    pub allowed_tools: Vec<String>,
    pub allowed_accounts: Vec<String>,
    pub issued_at: u64,
    pub expires_at: u64,
    pub request_limit: u32,
    pub requests_used: u32,
    pub output_byte_limit: u64,
    pub output_bytes_used: u64,
}

/// A client with its newest connection session.
#[derive(Clone, Debug)]
pub struct AgentSessionSnapshot {
    pub client: AgentClientSnapshot,
    pub session: Option<ConnectionSessionSnapshot>,
}

} // verus!
