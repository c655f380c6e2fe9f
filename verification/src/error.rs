//! Errors that the broker reports to Agent clients.
use vstd::prelude::*;
use crate::json::JsonValue;

verus! {

/// A broker error as it is reported to the Agent client: a stable code, a
/// human-readable message, and whether the same call may succeed later.
#[derive(Debug)]
pub struct AgentBrokerError {
    pub code: &'static str,
    pub message: &'static str,
    pub retryable: bool,
    pub native_action_required: Option<&'static str>,
    pub confirmation_ref: Option<String>,
    pub details: Option<JsonValue>,
}

/// The message that asks for the local action `action`.
pub open spec fn native_message(action: Seq<char>) -> Seq<char> {
    if action == "approve-pairing"@ {
        "VaultMesh requires approval of this local MCP client pairing."@
    } else if action == "unlock-agent"@ {
        "VaultMesh requires independent MCP access unlock in the local app."@
    } else if action == "request-authorization"@ {
        "VaultMesh requires authorization for this action in the local app."@
    } else if action == "approve-confirmation"@ {
        "VaultMesh requires confirmation for this action in the local app."@
    } else {
        "VaultMesh requires a local user action."@
    }
}

impl AgentBrokerError {
    /// A plain error without a native action or details.
    pub fn new(code: &'static str, message: &'static str, retryable: bool) -> (e: Self)
        ensures
            e.code == code,
            e.message == message,
            e.retryable == retryable,
            e.native_action_required is None,
            e.confirmation_ref is None,
            e.details is None,
    {
        AgentBrokerError {
            code,
            message,
            retryable,
            native_action_required: None,
            confirmation_ref: None,
            details: None,
        }
    }

    /// An error that asks the user for a local action (`action`), after
    /// which the same call may be retried.
    pub fn native(code: &'static str, action: &'static str) -> (e: Self)
        ensures
            e.code == code,
            e.native_action_required == Some(action),
            e.retryable,
            e.confirmation_ref is None,
            e.details is None,
            e.message@ == native_message(action@),
    {
        let message = if crate::text::str_eq(action, "approve-pairing") {
            "VaultMesh requires approval of this local MCP client pairing."
        } else if crate::text::str_eq(action, "unlock-agent") {
            "VaultMesh requires independent MCP access unlock in the local app."
        } else if crate::text::str_eq(action, "request-authorization") {
            "VaultMesh requires authorization for this action in the local app."
        } else if crate::text::str_eq(action, "approve-confirmation") {
            "VaultMesh requires confirmation for this action in the local app."
        } else {
            "VaultMesh requires a local user action."
        };
        AgentBrokerError {
            code,
            message,
            retryable: true,
            native_action_required: Some(action),
            confirmation_ref: None,
            details: None,
        }
    }

    /// The broker itself is unavailable.
    pub fn internal() -> (e: Self)
        ensures
            e.code@ == "broker-unavailable"@,
            e.retryable,
            e.details is None,
    {
        Self::new("broker-unavailable", "VaultMesh Agent broker is unavailable.", true)
    }

    /// The Vault is locked; the same call may be retried after a local unlock.
    pub fn vault_locked() -> (e: Self)
        ensures
            e.code@ == "vault-locked"@,
            e.retryable,
    {
        Self::new(
            "vault-locked",
            "VaultMesh is locked; unlock it locally, then retry the same tool call.",
            true,
        )
    }

    /// The local authorization window denied the action.
    pub fn authorization_denied() -> (e: Self)
        ensures
            e.code@ == "authorization-denied"@,
            !e.retryable,
    {
        Self::new(
            "authorization-denied",
            "The action was denied in the local authorization window.",
            false,
        )
    }

    /// The local authorization window expired.
    pub fn authorization_timeout() -> (e: Self)
        ensures
            e.code@ == "authorization-timeout"@,
            e.retryable,
    {
        Self::new(
            "authorization-timeout",
            "The local authorization window expired after 30 seconds.",
            true,
        )
    }

    /// The independent MCP unlock was not completed in time.
    pub fn agent_unlock_timeout() -> (e: Self)
        ensures
            e.code@ == "mcp-unlock-timeout"@,
            e.retryable,
    {
        Self::new(
            "mcp-unlock-timeout",
            "The independent MCP unlock was not completed within 30 seconds.",
            true,
        )
    }
}

} // verus!
