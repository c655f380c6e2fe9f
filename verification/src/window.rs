//! The local authorization window: which request it shows, and what closing
//! it does to the request on display.
use vstd::prelude::*;
use crate::model::{PermissionChoice, PermissionDuration, PermissionEffect, PermissionScope};
use crate::permission_desk::AUTHORIZATION_TTL_MILLIS;
use crate::text::{copy_string, str_eq};

verus! {

broadcast use vstd::string::group_string_axioms;

/// The label of the dedicated authorization window.
pub const AGENT_AUTHORIZATION_WINDOW_LABEL: &'static str = "agent-authorization";

/// The request the authorization window shows, by its reference.
#[derive(Debug)]
pub enum DisplayedAgentAuthorization {
    Permission(String),
    Confirmation(String),
}

/// The reference of the displayed request.
pub open spec fn displayed_reference(d: DisplayedAgentAuthorization) -> Seq<char> {
    match d {
        DisplayedAgentAuthorization::Permission(r) => r@,
        DisplayedAgentAuthorization::Confirmation(r) => r@,
    }
}

impl DisplayedAgentAuthorization {
    /// Whether the displayed request has this reference, whatever its kind.
    pub fn matches_reference(&self, reference: &str) -> (r: bool)
        ensures
            r == (displayed_reference(*self) == reference@),
    {
        match self {
            DisplayedAgentAuthorization::Permission(current) => str_eq(current.as_str(), reference),
            DisplayedAgentAuthorization::Confirmation(current) => str_eq(current.as_str(), reference),
        }
    }
}

/// The first open permission request or unapproved confirmation, by its
/// reference and creation time.
pub struct WaitingAuthorization<'a> {
    pub reference: &'a str,
    pub created_at: u64,
}

/// Which request the window shows: a confirmation created before the
/// permission request; otherwise the permission request; otherwise the
/// confirmation; otherwise nothing.
pub open spec fn spec_next_display(permission: Option<(Seq<char>, u64)>, confirmation: Option<(Seq<char>, u64)>) -> Option<(bool, Seq<char>)> {
    match (permission, confirmation) {
        (Some(p), Some(c)) => if c.1 < p.1 { Some((false, c.0)) } else { Some((true, p.0)) },
        (Some(p), None) => Some((true, p.0)),
        (None, Some(c)) => Some((false, c.0)),
        (None, None) => None,
    }
}

/// The view of a waiting request.
pub open spec fn waiting_view(w: Option<WaitingAuthorization>) -> Option<(Seq<char>, u64)> {
    match w {
        Some(w) => Some((w.reference@, w.created_at)),
        None => None,
    }
}

/// The view of a displayed request: whether it is a permission request, and its reference.
pub open spec fn display_view(d: Option<DisplayedAgentAuthorization>) -> Option<(bool, Seq<char>)> {
    match d {
        Some(DisplayedAgentAuthorization::Permission(r)) => Some((true, r@)),
        Some(DisplayedAgentAuthorization::Confirmation(r)) => Some((false, r@)),
        None => None,
    }
}

/// The request the window shows next (see `spec_next_display`).
pub fn next_displayed_authorization(
    permission: Option<WaitingAuthorization>,
    confirmation: Option<WaitingAuthorization>,
) -> (r: Option<DisplayedAgentAuthorization>)
    ensures
        display_view(r) == spec_next_display(waiting_view(permission), waiting_view(confirmation)),
{
    match (permission, confirmation) {
        (Some(p), Some(c)) => if c.created_at < p.created_at {
            Some(DisplayedAgentAuthorization::Confirmation(copy_string(c.reference)))
        } else {
            Some(DisplayedAgentAuthorization::Permission(copy_string(p.reference)))
        },
        (Some(p), None) => Some(DisplayedAgentAuthorization::Permission(copy_string(p.reference))),
        (None, Some(c)) => Some(DisplayedAgentAuthorization::Confirmation(copy_string(c.reference))),
        (None, None) => None,
    }
}

/// The deadline the window shows when it opens at `now`.
pub fn authorization_window_deadline(now_millis: u64) -> (r: u64)
    ensures
        r == if now_millis + AUTHORIZATION_TTL_MILLIS > u64::MAX { u64::MAX } else { (now_millis + AUTHORIZATION_TTL_MILLIS) as u64 },
{
    now_millis.saturating_add(AUTHORIZATION_TTL_MILLIS)
}

/// Whether a request that expires should expire the window: only when it
/// is the request on display.
pub fn expires_displayed_authorization(displayed: &Option<DisplayedAgentAuthorization>, reference: &str) -> (r: bool)
    ensures
        r == (display_view(*displayed) matches Some((_, shown)) && shown == reference@),
{
    match displayed {
        Some(d) => d.matches_reference(reference),
        None => false,
    }
}

/// What closing the window does to the request on display.
#[derive(Debug)]
pub enum WindowCloseRejection {
    /// The permission request is denied once.
    Permission { permission_ref: String, choice: PermissionChoice },
    /// The confirmation is rejected.
    Confirmation { confirmation_ref: String },
}

/// Closing the window clears the displayed request and rejects it: a
/// permission request is denied once, exactly as asked; a confirmation is rejected.
pub fn reject_displayed_authorization_on_window_close(displayed: &mut Option<DisplayedAgentAuthorization>) -> (r: Option<WindowCloseRejection>)
    ensures
        *final(displayed) is None,
        match display_view(*old(displayed)) {
            None => r is None,
            Some((true, reference)) => r matches Some(WindowCloseRejection::Permission { permission_ref, choice })
                && permission_ref@ == reference
                && choice.effect == PermissionEffect::Deny
                && choice.scope == PermissionScope::Exact
                && choice.duration == PermissionDuration::Once
                && choice.path_pattern is None,
            Some((false, reference)) => r matches Some(WindowCloseRejection::Confirmation { confirmation_ref })
                && confirmation_ref@ == reference,
        },
{
    let taken = displayed.take();
    match taken {
        Some(DisplayedAgentAuthorization::Permission(permission_ref)) => Some(WindowCloseRejection::Permission {
            permission_ref,
            choice: PermissionChoice {
                effect: PermissionEffect::Deny,
                scope: PermissionScope::Exact,
                duration: PermissionDuration::Once,
                path_pattern: None,
            },
        }),
        Some(DisplayedAgentAuthorization::Confirmation(confirmation_ref)) => Some(WindowCloseRejection::Confirmation { confirmation_ref }),
        None => None,
    }
}


/// The authorization window: the request on display and the time (in
/// milliseconds) at which the window gives up on it, 0 when none.
pub struct AuthorizationWindowState {
    pub displayed: Option<DisplayedAgentAuthorization>,
    pub deadline: u64,
}

/// A request expired: when it is the one on display, the window's deadline
/// becomes `now` and the window is told (the result is `true`); otherwise
/// nothing changes. The request on display stays either way.
pub fn expire_authorization_window(window: &mut AuthorizationWindowState, reference: &str, now_millis: u64) -> (r: bool)
    ensures
        r == (display_view(old(window).displayed) matches Some((_, shown)) && shown == reference@),
        display_view(final(window).displayed) == display_view(old(window).displayed),
        final(window).deadline == if r { now_millis } else { old(window).deadline },
{
    let expires = expires_displayed_authorization(&window.displayed, reference);
    if expires {
        window.deadline = now_millis;
    }
    expires
}

/// Closing the window clears the request on display, resets the deadline to
/// 0, and gives the rejection to carry out (see
/// `reject_displayed_authorization_on_window_close`).
pub fn close_authorization_window(window: &mut AuthorizationWindowState) -> (r: Option<WindowCloseRejection>)
    ensures
        final(window).displayed is None,
        final(window).deadline == 0,
        match display_view(old(window).displayed) {
            None => r is None,
            Some((true, reference)) => r matches Some(WindowCloseRejection::Permission { permission_ref, choice })
                && permission_ref@ == reference
                && choice.effect == PermissionEffect::Deny
                && choice.scope == PermissionScope::Exact
                && choice.duration == PermissionDuration::Once
                && choice.path_pattern is None,
            Some((false, reference)) => r matches Some(WindowCloseRejection::Confirmation { confirmation_ref })
                && confirmation_ref@ == reference,
        },
{
    let r = reject_displayed_authorization_on_window_close(&mut window.displayed);
    window.deadline = 0;
    r
}


/// The window shows the older of two waiting requests: with a permission
/// request and a confirmation both waiting, the one shown was created no
/// later than the other (the permission request on a tie); with one waiting
/// it is shown, and with none nothing is.
pub proof fn law_older_waiting_request_is_shown(permission: Option<(Seq<char>, u64)>, confirmation: Option<(Seq<char>, u64)>)
    ensures
        ({
            let d = spec_next_display(permission, confirmation);
            &&& (d is None <==> permission is None && confirmation is None)
            &&& (d matches Some((true, r)) ==> permission matches Some(p) && r == p.0 && (confirmation matches Some(c)
                ==> p.1 <= c.1))
            &&& (d matches Some((false, r)) ==> confirmation matches Some(c) && r == c.0 && (permission matches Some(p)
                ==> c.1 < p.1))
        }),
{
}

} // verus!
