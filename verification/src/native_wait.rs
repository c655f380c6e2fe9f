//! Waiting for a local decision on an Agent request: the decisions of the
//! wait, as a step from state and event to next state and action. The caller
//! runs the loop: it shows the surfaces, polls the broker, sleeps, and runs
//! the request again when a decision allows it.
use vstd::prelude::*;
use crate::error::AgentBrokerError;
use crate::json::JsonValue;
use crate::native_ui::AgentNativeUiSurface;
use crate::permission_desk::{PermissionWaitOutcome, AUTHORIZATION_TTL_MILLIS};
use crate::text::copy_string;
use crate::unlock::AgentUnlockWaitOutcome;

verus! {

broadcast use vstd::string::group_string_axioms;

/// The pause between two polls of the broker, in milliseconds.
pub const AUTHORIZATION_POLL_MILLIS: u64 = 20;

/// Where a wait stands.
#[derive(Debug)]
pub enum NativeWaitPhase {
    /// The broker's latest answer is to be read.
    Inspect,
    /// Waiting for the unlock request with this reference.
    Unlock(String),
    /// Waiting for a permission request (or, with `confirmation`, a
    /// confirmation) with this reference.
    Authorization { reference: String, confirmation: bool },
    /// The wait is over.
    Done,
}

/// A wait: its phase and the time (in milliseconds) after which a pending
/// decision counts as expired.
#[derive(Debug)]
pub struct NativeWaitState {
    pub phase: NativeWaitPhase,
    pub deadline: u64,
}

/// What the caller observed.
#[derive(Debug)]
pub enum NativeWaitEvent {
    /// The broker answered the request; the references its error carries
    /// (see `answer_event`).
    Answer { unlock_ref: Option<String>, authorization_ref: Option<String>, confirmation_ref: Option<String> },
    /// A poll of the unlock request at `now`.
    UnlockPolled { outcome: AgentUnlockWaitOutcome, now: u64 },
    /// A poll of the permission or confirmation request at `now`.
    AuthorizationPolled { outcome: PermissionWaitOutcome, now: u64 },
    /// The request could not be run again (it could not be encoded, or the
    /// broker was unavailable).
    ContinuationFailed,
}

/// What the caller does next.
#[derive(Debug)]
pub enum NativeWaitEffect {
    /// Poll the unlock request, after the poll pause when `pause`.
    PollUnlock { unlock_ref: String, pause: bool },
    /// Poll the permission or confirmation request, after the poll pause
    /// when `pause`.
    PollAuthorization { reference: String, confirmation: bool, pause: bool },
    /// Run the request again, with this confirmation ticket when there is one,
    /// and report the broker's answer.
    Continue { confirmation_ticket: Option<String> },
    /// Replace the answer by this error and drop the authorized action; drop
    /// the audit event too when `clear_audit`.
    Fail { error: AgentBrokerError, clear_audit: bool },
    /// Keep the answer as it is.
    Finish,
}

/// The next action: a surface to show first, if any, and the effect.
#[derive(Debug)]
pub struct NativeWaitAction {
    pub show: Option<AgentNativeUiSurface>,
    pub effect: NativeWaitEffect,
}

/// The deadline `now` plus the decision time, at most `u64::MAX`.
pub open spec fn deadline_after(now: u64) -> u64 {
    if now + AUTHORIZATION_TTL_MILLIS > u64::MAX { u64::MAX } else { (now + AUTHORIZATION_TTL_MILLIS) as u64 }
}

/// The texts of an optional string.
pub open spec fn opt_text(o: Option<String>) -> Option<Seq<char>> {
    match o {
        Some(s) => Some(s@),
        None => None,
    }
}

/// What an action says, its error taken by code and flags.
pub open spec fn effect_is_fail(e: NativeWaitEffect, code: Seq<char>, retryable: bool, clear_audit: bool) -> bool {
    e matches NativeWaitEffect::Fail { error, clear_audit: c } && error.code@ == code && error.retryable == retryable && c == clear_audit
}

/// One step of a wait. An answer that names an unlock request starts an
/// unlock wait; else one that names a permission request, else a
/// confirmation, starts an authorization wait; else the wait ends. A pending
/// decision is polled again after the pause until the deadline passes, when
/// it counts as expired. An allowed unlock runs the request again with a new
/// deadline; an allowed authorization runs it again (a confirmation with its
/// reference as ticket). A denial or an expiry ends the wait with its error;
/// a failed continuation ends it with the broker's error and no audit event.
/// Any other event ends the wait and keeps the answer.
pub open spec fn native_step_holds(s: NativeWaitState, ev: NativeWaitEvent, next: NativeWaitState, a: NativeWaitAction) -> bool {
    match ev {
        NativeWaitEvent::ContinuationFailed => {
            &&& next.phase is Done
            &&& next.deadline == s.deadline
            &&& a.show is None
            &&& effect_is_fail(a.effect, "broker-unavailable"@, true, true)
        },
        NativeWaitEvent::Answer { unlock_ref, authorization_ref, confirmation_ref } => match s.phase {
            NativeWaitPhase::Inspect => {
                &&& next.deadline == s.deadline
                &&& match unlock_ref {
                    Some(u) => {
                        &&& (next.phase matches NativeWaitPhase::Unlock(n) && n@ == u@)
                        &&& a.show == Some(AgentNativeUiSurface::Unlock)
                        &&& (a.effect matches NativeWaitEffect::PollUnlock { unlock_ref: p, pause } && p@ == u@ && !pause)
                    },
                    None => {
                        let chosen: Option<(Seq<char>, bool)> = match authorization_ref {
                            Some(p) => Some((p@, false)),
                            None => match confirmation_ref {
                                Some(c) => Some((c@, true)),
                                None => None,
                            },
                        };
                        match chosen {
                            Some((reference, confirmation)) => {
                                &&& (next.phase matches NativeWaitPhase::Authorization { reference: n, confirmation: c }
                                    && n@ == reference && c == confirmation)
                                &&& a.show == Some(AgentNativeUiSurface::Authorization)
                                &&& (a.effect matches NativeWaitEffect::PollAuthorization { reference: p, confirmation: pc, pause }
                                    && p@ == reference && pc == confirmation && !pause)
                            },
                            None => next.phase is Done && a.show is None && a.effect is Finish,
                        }
                    },
                }
            },
            _ => next.phase is Done && next.deadline == s.deadline && a.show is None && a.effect is Finish,
        },
        NativeWaitEvent::UnlockPolled { outcome, now } => match s.phase {
            NativeWaitPhase::Unlock(u) => {
                let expired = outcome == AgentUnlockWaitOutcome::Expired
                    || (outcome == AgentUnlockWaitOutcome::Pending && now >= s.deadline);
                if expired {
                    &&& next.phase is Done
                    &&& next.deadline == s.deadline
                    &&& (a.show matches Some(AgentNativeUiSurface::UnlockExpired(n)) && n@ == u@)
                    &&& effect_is_fail(a.effect, "mcp-unlock-timeout"@, true, false)
                } else if outcome == AgentUnlockWaitOutcome::Pending {
                    &&& (next.phase matches NativeWaitPhase::Unlock(n) && n@ == u@)
                    &&& next.deadline == s.deadline
                    &&& a.show is None
                    &&& (a.effect matches NativeWaitEffect::PollUnlock { unlock_ref: p, pause } && p@ == u@ && pause)
                } else if outcome == AgentUnlockWaitOutcome::Allowed {
                    &&& next.phase is Inspect
                    &&& next.deadline == deadline_after(now)
                    &&& a.show is None
                    &&& (a.effect matches NativeWaitEffect::Continue { confirmation_ticket } && confirmation_ticket is None)
                } else {
                    &&& next.phase is Done
                    &&& next.deadline == s.deadline
                    &&& a.show is None
                    &&& effect_is_fail(a.effect, "mcp-unlock-denied"@, true, false)
                }
            },
            _ => next.phase is Done && next.deadline == s.deadline && a.show is None && a.effect is Finish,
        },
        NativeWaitEvent::AuthorizationPolled { outcome, now } => match s.phase {
            NativeWaitPhase::Authorization { reference, confirmation } => {
                let expired = outcome == PermissionWaitOutcome::Expired
                    || (outcome == PermissionWaitOutcome::Pending && now >= s.deadline);
                if expired {
                    &&& next.phase is Done
                    &&& next.deadline == s.deadline
                    &&& (a.show matches Some(AgentNativeUiSurface::AuthorizationExpired(n)) && n@ == reference@)
                    &&& effect_is_fail(a.effect, "authorization-timeout"@, true, false)
                } else if outcome == PermissionWaitOutcome::Pending {
                    &&& (next.phase matches NativeWaitPhase::Authorization { reference: n, confirmation: c }
                        && n@ == reference@ && c == confirmation)
                    &&& next.deadline == s.deadline
                    &&& a.show is None
                    &&& (a.effect matches NativeWaitEffect::PollAuthorization { reference: p, confirmation: pc, pause }
                        && p@ == reference@ && pc == confirmation && pause)
                } else if outcome == PermissionWaitOutcome::Allowed {
                    &&& next.phase is Inspect
                    &&& next.deadline == s.deadline
                    &&& a.show is None
                    &&& (a.effect matches NativeWaitEffect::Continue { confirmation_ticket }
                        && opt_text(confirmation_ticket) == if confirmation { Some(reference@) } else { None })
                } else {
                    &&& next.phase is Done
                    &&& next.deadline == s.deadline
                    &&& a.show is None
                    &&& effect_is_fail(a.effect, "authorization-denied"@, false, false)
                }
            },
            _ => next.phase is Done && next.deadline == s.deadline && a.show is None && a.effect is Finish,
        },
    }
}

/// A wait that starts at `now`: the broker's answer is read first.
pub fn native_wait_start(now: u64) -> (s: NativeWaitState)
    ensures
        s.phase is Inspect,
        s.deadline == deadline_after(now),
{
    NativeWaitState { phase: NativeWaitPhase::Inspect, deadline: now.saturating_add(AUTHORIZATION_TTL_MILLIS) }
}

/// The references that a broker answer's error carries:
/// `/error/details/unlockRef`, `/error/details/authorizationRef` and
/// `/error/confirmationRef`.
pub fn answer_event(response: &JsonValue) -> (ev: NativeWaitEvent)
    ensures
        ({
            let error = response.spec_get("error"@);
            let details = match error { Some(e) => e.spec_get("details"@), None => None };
            ev matches NativeWaitEvent::Answer { unlock_ref, authorization_ref, confirmation_ref }
                && opt_text(unlock_ref) == match details { Some(d) => d.spec_get_str("unlockRef"@), None => None }
                && opt_text(authorization_ref) == match details { Some(d) => d.spec_get_str("authorizationRef"@), None => None }
                && opt_text(confirmation_ref) == match error { Some(e) => e.spec_get_str("confirmationRef"@), None => None }
        }),
{
    let mut unlock_ref: Option<String> = None;
    let mut authorization_ref: Option<String> = None;
    let mut confirmation_ref: Option<String> = None;
    match response.get("error") {
        Some(e) => {
            match e.get_str("confirmationRef") {
                Some(c) => { confirmation_ref = Some(copy_string(c)); },
                None => {},
            }
            match e.get("details") {
                Some(d) => {
                    match d.get_str("unlockRef") {
                        Some(u) => { unlock_ref = Some(copy_string(u)); },
                        None => {},
                    }
                    match d.get_str("authorizationRef") {
                        Some(p) => { authorization_ref = Some(copy_string(p)); },
                        None => {},
                    }
                },
                None => {},
            }
        },
        None => {},
    }
    NativeWaitEvent::Answer { unlock_ref, authorization_ref, confirmation_ref }
}

fn done(deadline: u64) -> (s: NativeWaitState)
    ensures
        s.phase is Done,
        s.deadline == deadline,
{
    NativeWaitState { phase: NativeWaitPhase::Done, deadline }
}

fn fail(error: AgentBrokerError, clear_audit: bool) -> (a: NativeWaitAction)
    ensures
        a.show is None,
        a.effect matches NativeWaitEffect::Fail { error: e, clear_audit: c } && e == error && c == clear_audit,
{
    NativeWaitAction { show: None, effect: NativeWaitEffect::Fail { error, clear_audit } }
}

fn finish() -> (a: NativeWaitAction)
    ensures
        a.show is None,
        a.effect is Finish,
{
    NativeWaitAction { show: None, effect: NativeWaitEffect::Finish }
}

/// One step of a wait (see `native_step_holds`).
pub fn native_authorization_step(state: &NativeWaitState, event: NativeWaitEvent) -> (r: (NativeWaitState, NativeWaitAction))
    ensures
        native_step_holds(*state, event, r.0, r.1),
{
    let deadline = state.deadline;
    match event {
        NativeWaitEvent::ContinuationFailed => (done(deadline), fail(AgentBrokerError::internal(), true)),
        NativeWaitEvent::Answer { unlock_ref, authorization_ref, confirmation_ref } => {
            match &state.phase {
                NativeWaitPhase::Inspect => {},
                _ => return (done(deadline), finish()),
            }
            match unlock_ref {
                Some(u) => {
                    let p = copy_string(u.as_str());
                    return (
                        NativeWaitState { phase: NativeWaitPhase::Unlock(u), deadline },
                        NativeWaitAction {
                            show: Some(AgentNativeUiSurface::Unlock),
                            effect: NativeWaitEffect::PollUnlock { unlock_ref: p, pause: false },
                        },
                    );
                },
                None => {},
            }
            let chosen: Option<(String, bool)> = match authorization_ref {
                Some(p) => Some((p, false)),
                None => match confirmation_ref {
                    Some(c) => Some((c, true)),
                    None => None,
                },
            };
            match chosen {
                Some((reference, confirmation)) => {
                    let p = copy_string(reference.as_str());
                    (
                        NativeWaitState { phase: NativeWaitPhase::Authorization { reference, confirmation }, deadline },
                        NativeWaitAction {
                            show: Some(AgentNativeUiSurface::Authorization),
                            effect: NativeWaitEffect::PollAuthorization { reference: p, confirmation, pause: false },
                        },
                    )
                },
                None => (done(deadline), finish()),
            }
        },
        NativeWaitEvent::UnlockPolled { outcome, now } => {
            let u = match &state.phase {
                NativeWaitPhase::Unlock(u) => u,
                _ => return (done(deadline), finish()),
            };
            let expired = match outcome {
                AgentUnlockWaitOutcome::Expired => true,
                AgentUnlockWaitOutcome::Pending => now >= deadline,
                _ => false,
            };
            if expired {
                proof {
                    reveal_strlit("mcp-unlock-timeout");
                }
                return (
                    done(deadline),
                    NativeWaitAction {
                        show: Some(AgentNativeUiSurface::UnlockExpired(copy_string(u.as_str()))),
                        effect: NativeWaitEffect::Fail { error: AgentBrokerError::agent_unlock_timeout(), clear_audit: false },
                    },
                );
            }
            match outcome {
                AgentUnlockWaitOutcome::Pending => (
                    NativeWaitState { phase: NativeWaitPhase::Unlock(copy_string(u.as_str())), deadline },
                    NativeWaitAction {
                        show: None,
                        effect: NativeWaitEffect::PollUnlock { unlock_ref: copy_string(u.as_str()), pause: true },
                    },
                ),
                AgentUnlockWaitOutcome::Allowed => (
                    NativeWaitState { phase: NativeWaitPhase::Inspect, deadline: now.saturating_add(AUTHORIZATION_TTL_MILLIS) },
                    NativeWaitAction { show: None, effect: NativeWaitEffect::Continue { confirmation_ticket: None } },
                ),
                _ => {
                    proof {
                        reveal_strlit("mcp-unlock-denied");
                    }
                    (
                        done(deadline),
                        fail(AgentBrokerError::new("mcp-unlock-denied", "The independent MCP unlock was cancelled locally.", true), false),
                    )
                },
            }
        },
        NativeWaitEvent::AuthorizationPolled { outcome, now } => {
            let (reference, confirmation) = match &state.phase {
                NativeWaitPhase::Authorization { reference, confirmation } => (reference, *confirmation),
                _ => return (done(deadline), finish()),
            };
            let expired = match outcome {
                PermissionWaitOutcome::Expired => true,
                PermissionWaitOutcome::Pending => now >= deadline,
                _ => false,
            };
            if expired {
                return (
                    done(deadline),
                    NativeWaitAction {
                        show: Some(AgentNativeUiSurface::AuthorizationExpired(copy_string(reference.as_str()))),
                        effect: NativeWaitEffect::Fail { error: AgentBrokerError::authorization_timeout(), clear_audit: false },
                    },
                );
            }
            match outcome {
                PermissionWaitOutcome::Pending => (
                    NativeWaitState {
                        phase: NativeWaitPhase::Authorization { reference: copy_string(reference.as_str()), confirmation },
                        deadline,
                    },
                    NativeWaitAction {
                        show: None,
                        effect: NativeWaitEffect::PollAuthorization { reference: copy_string(reference.as_str()), confirmation, pause: true },
                    },
                ),
                PermissionWaitOutcome::Allowed => {
                    let ticket = if confirmation { Some(copy_string(reference.as_str())) } else { None };
                    (
                        NativeWaitState { phase: NativeWaitPhase::Inspect, deadline },
                        NativeWaitAction { show: None, effect: NativeWaitEffect::Continue { confirmation_ticket: ticket } },
                    )
                },
                _ => (done(deadline), fail(AgentBrokerError::authorization_denied(), false)),
            }
        },
    }
}

} // verus!
