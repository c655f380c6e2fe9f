//! Confirmations of single actions in the local app: a call that needs one
//! opens a confirmation for its exact action digest, and a later call may
//! present the approved ticket once.
use vstd::prelude::*;
use crate::error::AgentBrokerError;
use crate::ids::{format_uuid, parse_uuid, uuid_parse, uuid_text};
use crate::model::ConfirmationSnapshot;
use crate::permission_desk::{
    drop_outcomes_of, has_outcome, is_first_outcome, keep_live_outcomes, lemma_live_outcomes_keep_absence,
    lemma_outcomes_without, live_outcomes, outcomes_without, PermissionWaitOutcome, ResolvedPermissionOutcome,
    AUTHORIZATION_TTL_MILLIS,
};
use crate::policy::opt_view;
use crate::text::str_eq;
use crate::listing::{is_listing_order, listing_order};

verus! {

broadcast use vstd::string::group_string_axioms;

/// How long a confirmation waits for the local app.
pub const CONFIRMATION_TTL_MILLIS: u64 = AUTHORIZATION_TTL_MILLIS;

/// A confirmation waiting in the local app.
#[derive(Clone, Debug)]
pub struct PendingConfirmation {
    pub confirmation_ref: u128,
    pub client_id: u128,
    pub session_id: u128,
    pub account_ref: Option<String>,
    pub account_label: Option<String>,
    pub tool: String,
    pub risk: String,
    pub action_digest: String,
    pub created_at: u64,
    pub expires_at: u64,
    pub approved: bool,
}

/// The open confirmations and the rejections not yet read.
#[derive(Debug)]
pub struct ConfirmationDesk {
    pub confirmations: Vec<PendingConfirmation>,
    pub outcomes: Vec<ResolvedPermissionOutcome>,
}

// ----------------------------------------------------------------------------
// Specification
// ----------------------------------------------------------------------------

/// The index of the first confirmation `r`.
pub open spec fn confirmation_index(cs: Seq<PendingConfirmation>, r: u128) -> Option<int>
    decreases cs.len(),
{
    if cs.len() == 0 {
        None
    } else {
        match confirmation_index(cs.drop_last(), r) {
            Some(i) => Some(i),
            None => if cs.last().confirmation_ref == r {
                Some(cs.len() - 1)
            } else {
                None
            },
        }
    }
}

/// A live confirmation of the client's session for the same action.
pub open spec fn same_action(c: PendingConfirmation, client: u128, session: u128, digest: Seq<char>, now: u64) -> bool {
    c.client_id == client && c.session_id == session && c.action_digest@ == digest && c.expires_at > now
}

/// The first live confirmation for the same action.
pub open spec fn action_index(cs: Seq<PendingConfirmation>, client: u128, session: u128, digest: Seq<char>, now: u64) -> Option<int>
    decreases cs.len(),
{
    if cs.len() == 0 {
        None
    } else {
        match action_index(cs.drop_last(), client, session, digest, now) {
            Some(i) => Some(i),
            None => if same_action(cs.last(), client, session, digest, now) {
                Some(cs.len() - 1)
            } else {
                None
            },
        }
    }
}

/// A confirmation that a ticket may use: approved in the local app, not
/// expired, and for the same client, session and action.
pub open spec fn ticket_accepts(c: PendingConfirmation, client: u128, session: u128, digest: Seq<char>, now: u64) -> bool {
    c.approved && c.expires_at > now && c.client_id == client && c.session_id == session && c.action_digest@ == digest
}

/// When a confirmation opened at `now` expires.
pub open spec fn confirmation_expiry(now: u64) -> u64 {
    if now + CONFIRMATION_TTL_MILLIS > u64::MAX {
        u64::MAX
    } else {
        (now + CONFIRMATION_TTL_MILLIS) as u64
    }
}

/// A confirmation is still open at `now`: not expired, and its session is live.
pub open spec fn confirmation_live(c: PendingConfirmation, now: u64, sessions: Seq<u128>) -> bool {
    c.expires_at > now && sessions.contains(c.session_id)
}

/// The confirmations still open at `now`, in their order.
pub open spec fn live_confirmations(cs: Seq<PendingConfirmation>, now: u64, sessions: Seq<u128>) -> Seq<PendingConfirmation>
    decreases cs.len(),
{
    if cs.len() == 0 {
        cs
    } else if confirmation_live(cs.last(), now, sessions) {
        live_confirmations(cs.drop_last(), now, sessions).push(cs.last())
    } else {
        live_confirmations(cs.drop_last(), now, sessions)
    }
}

/// No two confirmations share a reference (they are keyed by it).
pub open spec fn refs_unique(cs: Seq<PendingConfirmation>) -> bool {
    forall|i: int, j: int| 0 <= i < j < cs.len() ==> (#[trigger] cs[i]).confirmation_ref != (#[trigger] cs[j]).confirmation_ref
}

/// Confirmation `c` once approved in the local app.
pub open spec fn approved(c: PendingConfirmation) -> PendingConfirmation {
    PendingConfirmation { approved: true, ..c }
}

/// The outcome kept for a confirmation rejected at `now`.
pub open spec fn rejection(r: u128, now: u64) -> ResolvedPermissionOutcome {
    ResolvedPermissionOutcome { permission_ref: r, allowed: false, expires_at: confirmation_expiry(now) }
}

/// What a call waiting on confirmation `r` is told, and the outcomes
/// afterwards: an open confirmation is allowed once approved and pending
/// before; a rejected one is denied, and its outcome is consumed; anything
/// else (an unreadable reference included) has expired.
pub open spec fn spec_confirmation_wait(cs: Seq<PendingConfirmation>, os: Seq<ResolvedPermissionOutcome>, r: Option<u128>)
    -> (PermissionWaitOutcome, Seq<ResolvedPermissionOutcome>)
{
    match r {
        None => (PermissionWaitOutcome::Expired, os),
        Some(r) => match confirmation_index(cs, r) {
            Some(i) => (if cs[i].approved { PermissionWaitOutcome::Allowed } else { PermissionWaitOutcome::Pending }, os),
            None => if has_outcome(os, r) {
                let i = choose|i: int| is_first_outcome(os, r, i);
                (PermissionWaitOutcome::Denied, os.remove(i))
            } else {
                (PermissionWaitOutcome::Expired, os)
            },
        },
    }
}

/// The error that asks for confirmation `r` in the local app.
pub open spec fn is_confirmation_error(e: AgentBrokerError, r: u128) -> bool {
    &&& e.code@ == "confirmation-required"@
    &&& e.retryable
    &&& e.native_action_required == Some("approve-confirmation")
    &&& opt_view(e.confirmation_ref) == Some(uuid_text(r))
}

/// The snapshot of a confirmation.
pub open spec fn is_confirmation_snapshot(s: ConfirmationSnapshot, c: PendingConfirmation) -> bool {
    &&& s.confirmation_ref@ == uuid_text(c.confirmation_ref)
    &&& s.client_id@ == uuid_text(c.client_id)
    &&& s.session_id@ == uuid_text(c.session_id)
    &&& opt_view(s.account_ref) == opt_view(c.account_ref)
    &&& opt_view(s.account_label) == opt_view(c.account_label)
    &&& s.tool@ == c.tool@
    &&& s.risk@ == c.risk@
    &&& s.created_at == c.created_at
    &&& s.expires_at == c.expires_at
    &&& s.approved == c.approved
}

// ----------------------------------------------------------------------------
// Executable functions
// ----------------------------------------------------------------------------

proof fn lemma_index_valid(cs: Seq<PendingConfirmation>, r: u128)
    ensures
        confirmation_index(cs, r) matches Some(i) ==> 0 <= i < cs.len() && cs[i].confirmation_ref == r,
    decreases cs.len(),
{
    if cs.len() > 0 {
        lemma_index_valid(cs.drop_last(), r);
    }
}

proof fn lemma_index_prefix(cs: Seq<PendingConfirmation>, r: u128, i: int)
    requires
        0 <= i < cs.len(),
        confirmation_index(cs.take(i), r) is None,
        cs[i].confirmation_ref == r,
    ensures
        confirmation_index(cs, r) == Some(i),
    decreases cs.len(),
{
    assert(cs.take(i + 1).drop_last() =~= cs.take(i));
    if i + 1 < cs.len() {
        assert(cs.drop_last().take(i) =~= cs.take(i));
        lemma_index_prefix(cs.drop_last(), r, i);
    } else {
        assert(cs.drop_last() =~= cs.take(i));
    }
}

fn find_confirmation(cs: &Vec<PendingConfirmation>, r: u128) -> (i: Option<usize>)
    ensures
        match i {
            Some(i) => i < cs.len() && confirmation_index(cs@, r) == Some(i as int),
            None => confirmation_index(cs@, r) is None,
        },
{
    let mut i: usize = 0;
    while i < cs.len()
        invariant
            i <= cs.len(),
            confirmation_index(cs@.take(i as int), r) is None,
        decreases cs.len() - i,
    {
        assert(cs@.take(i + 1).drop_last() =~= cs@.take(i as int));
        if cs[i].confirmation_ref == r {
            proof {
                lemma_index_prefix(cs@, r, i as int);
            }
            return Some(i);
        }
        i += 1;
    }
    assert(cs@.take(cs@.len() as int) =~= cs@);
    None
}

proof fn lemma_action_prefix(cs: Seq<PendingConfirmation>, client: u128, session: u128, digest: Seq<char>, now: u64, i: int)
    requires
        0 <= i < cs.len(),
        action_index(cs.take(i), client, session, digest, now) is None,
        same_action(cs[i], client, session, digest, now),
    ensures
        action_index(cs, client, session, digest, now) == Some(i),
    decreases cs.len(),
{
    assert(cs.take(i + 1).drop_last() =~= cs.take(i));
    if i + 1 < cs.len() {
        assert(cs.drop_last().take(i) =~= cs.take(i));
        lemma_action_prefix(cs.drop_last(), client, session, digest, now, i);
    } else {
        assert(cs.drop_last() =~= cs.take(i));
    }
}

fn find_action(cs: &Vec<PendingConfirmation>, client: u128, session: u128, digest: &str, now: u64) -> (i: Option<usize>)
    ensures
        match i {
            Some(i) => i < cs.len() && action_index(cs@, client, session, digest@, now) == Some(i as int),
            None => action_index(cs@, client, session, digest@, now) is None,
        },
{
    let mut i: usize = 0;
    while i < cs.len()
        invariant
            i <= cs.len(),
            action_index(cs@.take(i as int), client, session, digest@, now) is None,
        decreases cs.len() - i,
    {
        assert(cs@.take(i + 1).drop_last() =~= cs@.take(i as int));
        let c = &cs[i];
        if c.client_id == client && c.session_id == session && str_eq(c.action_digest.as_str(), digest) && c.expires_at > now {
            proof {
                lemma_action_prefix(cs@, client, session, digest@, now, i as int);
            }
            return Some(i);
        }
        i += 1;
    }
    assert(cs@.take(cs@.len() as int) =~= cs@);
    None
}

impl AgentBrokerError {
    /// The call needs confirmation `confirmation_ref` in the local app.
    pub fn confirmation(confirmation_ref: u128) -> (e: Self)
        ensures
            is_confirmation_error(e, confirmation_ref),
            e.details is None,
    {
        AgentBrokerError {
            code: "confirmation-required",
            message: "VaultMesh requires confirmation in the local app.",
            retryable: true,
            native_action_required: Some("approve-confirmation"),
            confirmation_ref: Some(format_uuid(confirmation_ref)),
            details: None,
        }
    }
}

fn snapshot(c: &PendingConfirmation) -> (s: ConfirmationSnapshot)
    ensures
        is_confirmation_snapshot(s, *c),
{
    ConfirmationSnapshot {
        confirmation_ref: format_uuid(c.confirmation_ref),
        client_id: format_uuid(c.client_id),
        session_id: format_uuid(c.session_id),
        account_ref: c.account_ref.clone(),
        account_label: c.account_label.clone(),
        tool: c.tool.clone(),
        risk: c.risk.clone(),
        created_at: c.created_at,
        expires_at: c.expires_at,
        approved: c.approved,
    }
}

fn contains_session(sessions: &Vec<u128>, id: u128) -> (r: bool)
    ensures
        r == sessions@.contains(id),
{
    let mut i: usize = 0;
    while i < sessions.len()
        invariant
            i <= sessions.len(),
            forall|k: int| 0 <= k < i ==> sessions@[k] != id,
        decreases sessions.len() - i,
    {
        if sessions[i] == id {
            return true;
        }
        i += 1;
    }
    false
}

/// What checking or asking for a confirmation does (see
/// `ConfirmationDesk::validate_or_request_confirmation`): `old_confs` become
/// `new_confs`, with outcome `r`.
pub open spec fn confirmation_check_holds(
    old_confs: Seq<PendingConfirmation>,
    new_confs: Seq<PendingConfirmation>,
    r: Result<(), AgentBrokerError>,
    client_id: u128,
    session_id: u128,
    account_ref: Option<String>,
    account_label: Option<String>,
    tool: Seq<char>,
    risk: Seq<char>,
    action_digest: String,
    ticket: Option<Seq<char>>,
    now_millis: u64,
    new_ref: u128,
) -> bool {
    match ticket {
        Some(t) => match uuid_parse(t) {
            None => (r matches Err(e) && e.code@ == "invalid-confirmation"@ && !e.retryable)
                && new_confs == old_confs,
            Some(id) => match confirmation_index(old_confs, id) {
                None => (r matches Err(e) && e.code@ == "invalid-confirmation"@ && !e.retryable)
                    && new_confs == old_confs,
                Some(i) => new_confs == old_confs.remove(i) && if ticket_accepts(
                    old_confs[i],
                    client_id,
                    session_id,
                    action_digest@,
                    now_millis,
                ) {
                    r is Ok
                } else {
                    r matches Err(e) && e.code@ == "confirmation-mismatch"@ && !e.retryable
                },
            },
        },
        None => match action_index(old_confs, client_id, session_id, action_digest@, now_millis) {
            Some(i) => (r matches Err(e) && is_confirmation_error(e, old_confs[i].confirmation_ref))
                && new_confs == old_confs,
            None => (r matches Err(e) && is_confirmation_error(e, new_ref)) && new_confs.len()
                == old_confs.len() + 1 && new_confs.drop_last()
                == old_confs && {
                let c = new_confs.last();
                &&& c.confirmation_ref == new_ref
                &&& c.client_id == client_id
                &&& c.session_id == session_id
                &&& c.account_ref == account_ref
                &&& c.account_label == account_label
                &&& c.tool@ == tool
                &&& c.risk@ == risk
                &&& c.action_digest == action_digest
                &&& c.created_at == now_millis
                &&& c.expires_at == confirmation_expiry(now_millis)
                &&& !c.approved
            },
        },
    }
}

impl ConfirmationDesk {
    /// Drops the confirmations that expired or whose session is gone, and
    /// the rejections that expired.
    pub fn prune(&mut self, now_millis: u64, live_sessions: &Vec<u128>)
        ensures
            final(self).confirmations@ == live_confirmations(old(self).confirmations@, now_millis, live_sessions@),
            final(self).outcomes@ == live_outcomes(old(self).outcomes@, now_millis),
    {
        let ghost orig = self.confirmations@;
        let mut rest: Vec<PendingConfirmation> = Vec::new();
        std::mem::swap(&mut rest, &mut self.confirmations);
        let mut k: usize = 0;
        assert(rest@.len() == rest.len());
        while rest.len() > 0
            invariant
                k + rest@.len() == orig.len(),
                orig.len() <= usize::MAX,
                rest@ == orig.skip(k as int),
                self.confirmations@ == live_confirmations(orig.take(k as int), now_millis, live_sessions@),
                self.outcomes@ == old(self).outcomes@,
            decreases rest.len(),
        {
            let c = rest.remove(0);
            assert(orig.take(k + 1).drop_last() =~= orig.take(k as int));
            assert(orig.take(k + 1).last() == c);
            if c.expires_at > now_millis && contains_session(live_sessions, c.session_id) {
                self.confirmations.push(c);
            }
            k += 1;
            assert(rest@ =~= orig.skip(k as int));
        }
        assert(orig.take(orig.len() as int) =~= orig);
        keep_live_outcomes(&mut self.outcomes, now_millis);
    }

    /// Checks the confirmation of a call of `tool` with action digest
    /// `action_digest`. A presented ticket is used up: it must name an open
    /// confirmation (`invalid-confirmation`) that accepts the call
    /// (`confirmation-mismatch`). Without a ticket the call asks for
    /// confirmation: for the open confirmation of the same action, or for a
    /// new one, `new_ref`, opened at `now_millis`.
    pub fn validate_or_request_confirmation(
        &mut self,
        client_id: u128,
        session_id: u128,
        account_ref: Option<String>,
        account_label: Option<String>,
        tool: &str,
        risk: &str,
        action_digest: String,
        confirmation_ticket: Option<&str>,
        now_millis: u64,
        new_ref: u128,
    ) -> (r: Result<(), AgentBrokerError>)
        ensures
            final(self).outcomes@ == old(self).outcomes@,
            confirmation_check_holds(old(self).confirmations@, final(self).confirmations@, r, client_id, session_id, account_ref,
                account_label, tool@, risk@, action_digest, match confirmation_ticket { Some(t) => Some(t@), None => None },
                now_millis, new_ref),
    {
        proof {
            reveal_strlit("invalid-confirmation");
            reveal_strlit("confirmation-mismatch");
        }
        if let Some(ticket) = confirmation_ticket {
            let id = match parse_uuid(ticket) {
                Some(id) => id,
                None => return Err(AgentBrokerError::new(
                    "invalid-confirmation",
                    "The opaque Agent reference is invalid.",
                    false,
                )),
            };
            let i = match find_confirmation(&self.confirmations, id) {
                Some(i) => i,
                None => return Err(AgentBrokerError::new(
                    "invalid-confirmation",
                    "The confirmation ticket is expired or unavailable.",
                    false,
                )),
            };
            let c = self.confirmations.remove(i);
            if !c.approved || c.expires_at <= now_millis || c.client_id != client_id || c.session_id != session_id
                || !str_eq(c.action_digest.as_str(), action_digest.as_str()) {
                return Err(AgentBrokerError::new(
                    "confirmation-mismatch",
                    "The confirmation does not match this exact action.",
                    false,
                ));
            }
            return Ok(());
        }
        if let Some(i) = find_action(&self.confirmations, client_id, session_id, action_digest.as_str(), now_millis) {
            return Err(AgentBrokerError::confirmation(self.confirmations[i].confirmation_ref));
        }
        self.confirmations.push(PendingConfirmation {
            confirmation_ref: new_ref,
            client_id,
            session_id,
            account_ref,
            account_label,
            tool: tool.to_string(),
            risk: risk.to_string(),
            action_digest,
            created_at: now_millis,
            expires_at: now_millis.saturating_add(CONFIRMATION_TTL_MILLIS),
            approved: false,
        });
        proof {
            assert(self.confirmations@.drop_last() =~= old(self).confirmations@);
        }
        Err(AgentBrokerError::confirmation(new_ref))
    }
}


fn unknown_confirmation(message: &'static str) -> (e: AgentBrokerError)
    ensures
        e.code@ == "unknown-confirmation"@,
        !e.retryable,
        e.native_action_required is None,
{
    AgentBrokerError::new("unknown-confirmation", message, false)
}

impl ConfirmationDesk {
    /// Approves confirmation `confirmation_ref` in the local app at
    /// `now_millis`, after the desk is pruned, and returns its snapshot.
    /// A reference that does not read, or names no open confirmation, is
    /// refused with `unknown-confirmation`.
    pub fn approve_confirmation(
        &mut self,
        confirmation_ref: &str,
        now_millis: u64,
        live_sessions: &Vec<u128>,
    ) -> (r: Result<ConfirmationSnapshot, AgentBrokerError>)
        ensures
            final(self).outcomes@ == live_outcomes(old(self).outcomes@, now_millis),
            ({
                let pruned = live_confirmations(old(self).confirmations@, now_millis, live_sessions@);
                match uuid_parse(confirmation_ref@) {
                    Some(id) => match confirmation_index(pruned, id) {
                        Some(i) => {
                            &&& final(self).confirmations@ == pruned.update(i, approved(pruned[i]))
                            &&& r matches Ok(s) && is_confirmation_snapshot(s, approved(pruned[i]))
                        },
                        None => final(self).confirmations@ == pruned
                            && (r matches Err(e) && e.code@ == "unknown-confirmation"@ && !e.retryable),
                    },
                    None => final(self).confirmations@ == pruned
                        && (r matches Err(e) && e.code@ == "unknown-confirmation"@ && !e.retryable),
                }
            }),
    {
        proof {
            reveal_strlit("unknown-confirmation");
        }
        self.prune(now_millis, live_sessions);
        let id = match parse_uuid(confirmation_ref) {
            Some(id) => id,
            None => return Err(unknown_confirmation("The opaque Agent reference is invalid.")),
        };
        let i = match find_confirmation(&self.confirmations, id) {
            Some(i) => i,
            None => return Err(unknown_confirmation("The confirmation is expired or unavailable.")),
        };
        let ghost before = self.confirmations@;
        let mut c = self.confirmations.remove(i);
        c.approved = true;
        self.confirmations.insert(i, c);
        proof {
            assert(self.confirmations@ =~= before.update(i as int, approved(before[i as int])));
        }
        Ok(snapshot(&self.confirmations[i]))
    }

    /// Rejects confirmation `confirmation_ref` in the local app at
    /// `now_millis`: it is closed, and its rejection (replacing any earlier
    /// outcome for it) is kept for the waiting call. A reference that does
    /// not read, or names no open confirmation, is refused with
    /// `unknown-confirmation` and changes nothing.
    pub fn reject_confirmation(&mut self, confirmation_ref: &str, now_millis: u64) -> (r: Result<(), AgentBrokerError>)
        ensures
            match uuid_parse(confirmation_ref@) {
                Some(id) => match confirmation_index(old(self).confirmations@, id) {
                    Some(i) => {
                        &&& r is Ok
                        &&& final(self).confirmations@ == old(self).confirmations@.remove(i)
                        &&& final(self).outcomes@ == outcomes_without(old(self).outcomes@, id).push(rejection(id, now_millis))
                    },
                    None => (r matches Err(e) && e.code@ == "unknown-confirmation"@ && !e.retryable)
                        && final(self).confirmations@ == old(self).confirmations@
                        && final(self).outcomes@ == old(self).outcomes@,
                },
                None => (r matches Err(e) && e.code@ == "unknown-confirmation"@ && !e.retryable)
                    && final(self).confirmations@ == old(self).confirmations@
                    && final(self).outcomes@ == old(self).outcomes@,
            },
    {
        proof {
            reveal_strlit("unknown-confirmation");
        }
        let id = match parse_uuid(confirmation_ref) {
            Some(id) => id,
            None => return Err(unknown_confirmation("The opaque Agent reference is invalid.")),
        };
        let i = match find_confirmation(&self.confirmations, id) {
            Some(i) => i,
            None => return Err(unknown_confirmation("The confirmation is expired or unavailable.")),
        };
        self.confirmations.remove(i);
        drop_outcomes_of(&mut self.outcomes, id);
        self.outcomes.push(ResolvedPermissionOutcome {
            permission_ref: id,
            allowed: false,
            expires_at: now_millis.saturating_add(CONFIRMATION_TTL_MILLIS),
        });
        Ok(())
    }

    /// What a call waiting on confirmation `confirmation_ref` is told at
    /// `now_millis`, after the desk is pruned (see `prune` and
    /// `spec_confirmation_wait`).
    pub fn confirmation_wait_outcome(
        &mut self,
        confirmation_ref: &str,
        now_millis: u64,
        live_sessions: &Vec<u128>,
    ) -> (w: PermissionWaitOutcome)
        ensures
            final(self).confirmations@ == live_confirmations(old(self).confirmations@, now_millis, live_sessions@),
            (w, final(self).outcomes@) == spec_confirmation_wait(
                live_confirmations(old(self).confirmations@, now_millis, live_sessions@),
                live_outcomes(old(self).outcomes@, now_millis),
                uuid_parse(confirmation_ref@),
            ),
    {
        self.prune(now_millis, live_sessions);
        let r = match parse_uuid(confirmation_ref) {
            Some(r) => r,
            None => return PermissionWaitOutcome::Expired,
        };
        if let Some(i) = find_confirmation(&self.confirmations, r) {
            return if self.confirmations[i].approved { PermissionWaitOutcome::Allowed } else { PermissionWaitOutcome::Pending };
        }
        let ghost os = self.outcomes@;
        let mut j: usize = 0;
        while j < self.outcomes.len()
            invariant
                j <= self.outcomes.len(),
                os == self.outcomes@,
                uuid_parse(confirmation_ref@) == Some(r),
                confirmation_index(self.confirmations@, r) is None,
                self.confirmations@ == live_confirmations(old(self).confirmations@, now_millis, live_sessions@),
                os == live_outcomes(old(self).outcomes@, now_millis),
                forall|k: int| 0 <= k < j ==> (#[trigger] os[k]).permission_ref != r,
            decreases self.outcomes.len() - j,
        {
            if self.outcomes[j].permission_ref == r {
                assert(has_outcome(os, r)) by {
                    assert(os[j as int].permission_ref == r);
                }
                assert(is_first_outcome(os, r, j as int));
                proof {
                    let c = choose|i: int| is_first_outcome(os, r, i);
                    assert(c == j) by {
                        if c > j {
                            assert(os[j as int].permission_ref == r);
                        }
                    }
                }
                self.outcomes.remove(j);
                return PermissionWaitOutcome::Denied;
            }
            j += 1;
        }
        PermissionWaitOutcome::Expired
    }
}

/// The creation times of the confirmations, in their order.
pub open spec fn confirmation_times(cs: Seq<PendingConfirmation>) -> Seq<u64> {
    Seq::new(cs.len(), |k: int| cs[k].created_at)
}

impl ConfirmationDesk {
    /// The open confirmations as the local app lists them: oldest first
    /// (see `is_listing_order`).
    pub fn confirmations(&self) -> (r: Vec<ConfirmationSnapshot>)
        ensures
            r.len() == self.confirmations.len(),
            exists|order: Seq<usize>| #[trigger] is_listing_order(confirmation_times(self.confirmations@), order)
                && forall|k: int| 0 <= k < r.len() ==> is_confirmation_snapshot(#[trigger] r@[k], self.confirmations@[order[k] as int]),
    {
        let mut keys: Vec<u64> = Vec::new();
        let mut i: usize = 0;
        while i < self.confirmations.len()
            invariant
                i <= self.confirmations.len(),
                keys@ =~= confirmation_times(self.confirmations@).take(i as int),
            decreases self.confirmations.len() - i,
        {
            keys.push(self.confirmations[i].created_at);
            i += 1;
        }
        assert(keys@ =~= confirmation_times(self.confirmations@));
        let order = listing_order(&keys);
        let mut out: Vec<ConfirmationSnapshot> = Vec::new();
        let mut k: usize = 0;
        while k < order.len()
            invariant
                k <= order.len(),
                out.len() == k,
                is_listing_order(confirmation_times(self.confirmations@), order@),
                forall|j: int| 0 <= j < k ==> is_confirmation_snapshot(#[trigger] out@[j], self.confirmations@[order@[j] as int]),
            decreases order.len() - k,
        {
            out.push(snapshot(&self.confirmations[order[k]]));
            k += 1;
        }
        assert(is_listing_order(confirmation_times(self.confirmations@), order@));
        out
    }
}

// ----------------------------------------------------------------------------
// Laws
// ----------------------------------------------------------------------------

proof fn lemma_index_none(cs: Seq<PendingConfirmation>, r: u128)
    ensures
        confirmation_index(cs, r) is None <==> forall|k: int| 0 <= k < cs.len() ==> (#[trigger] cs[k]).confirmation_ref != r,
    decreases cs.len(),
{
    if cs.len() > 0 {
        lemma_index_none(cs.drop_last(), r);
        if confirmation_index(cs, r) is None {
            assert forall|k: int| 0 <= k < cs.len() implies (#[trigger] cs[k]).confirmation_ref != r by {
                if k < cs.len() - 1 {
                    assert(cs[k] == cs.drop_last()[k]);
                }
            }
        }
        if forall|k: int| 0 <= k < cs.len() ==> (#[trigger] cs[k]).confirmation_ref != r {
            assert forall|k: int| 0 <= k < cs.drop_last().len() implies (#[trigger] cs.drop_last()[k]).confirmation_ref != r by {
                assert(cs.drop_last()[k] == cs[k]);
            }
            assert(cs[cs.len() - 1].confirmation_ref != r);
        }
    }
}

proof fn lemma_live_keeps_absence(cs: Seq<PendingConfirmation>, now: u64, sessions: Seq<u128>, r: u128)
    requires
        confirmation_index(cs, r) is None,
    ensures
        confirmation_index(live_confirmations(cs, now, sessions), r) is None,
    decreases cs.len(),
{
    if cs.len() > 0 {
        lemma_index_none(cs, r);
        lemma_index_none(cs.drop_last(), r);
        assert forall|k: int| 0 <= k < cs.drop_last().len() implies (#[trigger] cs.drop_last()[k]).confirmation_ref != r by {
            assert(cs.drop_last()[k] == cs[k]);
        }
        lemma_live_keeps_absence(cs.drop_last(), now, sessions, r);
        let rest = live_confirmations(cs.drop_last(), now, sessions);
        lemma_index_none(rest, r);
        if confirmation_live(cs.last(), now, sessions) {
            let out = rest.push(cs.last());
            assert(cs[cs.len() - 1].confirmation_ref != r);
            assert forall|k: int| 0 <= k < out.len() implies (#[trigger] out[k]).confirmation_ref != r by {
                if k < rest.len() {
                    assert(out[k] == rest[k]);
                }
            }
            lemma_index_none(out, r);
        }
    }
}

/// A ticket is used once: when a call presents the ticket of confirmation
/// `i` (which `validate_or_request_confirmation` then closes, whether it
/// matches or not), no confirmation with that reference is left, so the
/// ticket cannot be presented again.
pub proof fn law_ticket_is_single_use(cs: Seq<PendingConfirmation>, id: u128)
    requires
        refs_unique(cs),
    ensures
        confirmation_index(cs, id) matches Some(i) ==> confirmation_index(cs.remove(i), id) is None,
{
    lemma_index_valid(cs, id);
    if let Some(i) = confirmation_index(cs, id) {
        let out = cs.remove(i);
        assert forall|k: int| 0 <= k < out.len() implies (#[trigger] out[k]).confirmation_ref != id by {
            if k < i {
                assert(out[k] == cs[k]);
            } else {
                assert(out[k] == cs[k + 1]);
            }
        }
        lemma_index_none(out, id);
    }
}

/// A rejection is reported once: a call that waits on a confirmation
/// rejected before the rejection expires is told it was denied, and any
/// later wait on it finds it expired.
pub proof fn law_rejection_is_reported_once(
    cs: Seq<PendingConfirmation>,
    os: Seq<ResolvedPermissionOutcome>,
    id: u128,
    rejected_at: u64,
    now: u64,
    sessions: Seq<u128>,
)
    requires
        refs_unique(cs),
        confirmation_index(cs, id) is Some,
        (now as int) < rejected_at + CONFIRMATION_TTL_MILLIS,
        now < u64::MAX,
    ensures
        ({
            let cs1 = cs.remove(confirmation_index(cs, id)->0);
            let os1 = outcomes_without(os, id).push(rejection(id, rejected_at));
            let live_cs = live_confirmations(cs1, now, sessions);
            let (first, os2) = spec_confirmation_wait(live_cs, live_outcomes(os1, now), Some(id));
            &&& first == PermissionWaitOutcome::Denied
            &&& spec_confirmation_wait(live_confirmations(live_cs, now, sessions), live_outcomes(os2, now), Some(id)).0
                == PermissionWaitOutcome::Expired
        }),
{
    let i = confirmation_index(cs, id)->0;
    law_ticket_is_single_use(cs, id);
    let cs1 = cs.remove(i);
    let live_cs = live_confirmations(cs1, now, sessions);
    lemma_live_keeps_absence(cs1, now, sessions, id);
    lemma_live_keeps_absence(live_cs, now, sessions, id);
    let base = outcomes_without(os, id);
    let os1 = base.push(rejection(id, rejected_at));
    lemma_outcomes_without(os, id);
    let live_base = live_outcomes(base, now);
    lemma_live_outcomes_keep_absence(base, now, id);
    assert(os1.drop_last() =~= base);
    let lo = live_outcomes(os1, now);
    assert(lo == live_base.push(os1.last()));
    let n = live_base.len() as int;
    assert(lo[n].permission_ref == id);
    assert(has_outcome(lo, id));
    assert(is_first_outcome(lo, id, n)) by {
        assert forall|k: int| 0 <= k < n implies (#[trigger] lo[k]).permission_ref != id by {
            assert(lo[k] == live_base[k]);
        }
    }
    let j = choose|j: int| is_first_outcome(lo, id, j);
    assert(j == n) by {
        if j < n {
            assert(lo[j] == live_base[j]);
        }
    }
    let os2 = lo.remove(j);
    assert(os2 =~= live_base);
    lemma_live_outcomes_keep_absence(os2, now, id);
}

} // verus!
