//! The checks that an Agent request passes before its tool runs: its
//! parameters against the tool's declaration, its connection session, the
//! account it names, the confirmation it needs, and the session and grant
//! uses it spends.
use vstd::prelude::*;
use crate::authz_rules::{utf8_len, utf8_len_within};
use crate::connector::AgentDirectConnectorPolicy;
use crate::direct_permission::session_base_tools;
use crate::direct_policy::{risk_name, spec_risk_name};
use crate::direct_ssh::{is_control_char, AgentDirectSshPolicy};
use crate::error::AgentBrokerError;
use crate::json::JsonValue;
use crate::model::{AgentToolDefinition, AgentToolParameter, PermissionEffect};
use crate::permission_desk::{names_view, ConnectionSession};
use crate::policy::{
    matching_permission_grant_index, opt_ref_view, risk_rank, spec_grant_matches, spec_risk_rank, AgentDirectHttpPolicy,
    PermissionGrant,
};
use crate::text::{copy_string, str_eq, to_chars};

verus! {

broadcast use vstd::string::group_string_axioms;

// ----------------------------------------------------------------------------
// Tool parameters
// ----------------------------------------------------------------------------

/// The number of UTF-16 code units of a text (`str::encode_utf16().count()`).
pub open spec fn utf16_len(s: Seq<char>) -> int
    decreases s.len(),
{
    if s.len() == 0 {
        0
    } else {
        utf16_len(s.drop_last()) + if (s.last() as u32) >= 0x10000 { 2int } else { 1int }
    }
}

/// A text within the parameter's length limit.
pub open spec fn within_length(p: AgentToolParameter, s: Seq<char>) -> bool {
    match p.max_length {
        Some(m) => utf16_len(s) <= m,
        None => true,
    }
}

/// The value of a declared parameter has the declared type and limits;
/// `size` is the serialized size of an object value, `None` when it could not
/// be serialized.
pub open spec fn value_fits(p: AgentToolParameter, v: JsonValue, size: Option<usize>) -> bool {
    let ty = p.parameter_type@;
    if ty == "string"@ {
        v.spec_str() matches Some(s) && within_length(p, s)
    } else if ty == "integer"@ {
        v matches JsonValue::Integer(n) && 0 <= n <= u64::MAX
    } else if ty == "string-array"@ {
        &&& v matches JsonValue::Array(items)
        &&& (p.max_items matches Some(m) ==> items@.len() <= m)
        &&& forall|i: int| 0 <= i < items@.len() ==> ((#[trigger] items@[i]).spec_str() matches Some(s) && within_length(p, s))
    } else if ty == "object"@ {
        &&& v is Object
        &&& (p.max_bytes matches Some(m) ==> (size matches Some(n) && n <= m))
    } else {
        false
    }
}

/// The names that a tool declares.
pub open spec fn declared_names(tool: AgentToolDefinition) -> Seq<Seq<char>> {
    tool.parameters@.map_values(|p: AgentToolParameter| p.name@)
}

/// An object value whose size a declared parameter limits.
pub open spec fn sized_object(p: AgentToolParameter, v: Option<JsonValue>) -> bool {
    p.parameter_type@ == "object"@ && p.max_bytes is Some && (v matches Some(x) && x is Object)
}

/// How a declared parameter fails, if it does.
pub enum ParameterFault {
    Missing,
    Invalid,
}

/// How the `i`-th declared parameter fails, given the serialized size of its value.
pub open spec fn parameter_fault(tool: AgentToolDefinition, params: JsonValue, i: int, size: Option<usize>) -> Option<ParameterFault> {
    let p = tool.parameters@[i];
    match params.spec_get(p.name@) {
        None => if p.required {
            Some(ParameterFault::Missing)
        } else {
            None
        },
        Some(v) => if value_fits(p, v, size) {
            None
        } else {
            Some(ParameterFault::Invalid)
        },
    }
}

/// The index of the first declared parameter that fails, from index `i`.
pub open spec fn first_fault_index(tool: AgentToolDefinition, params: JsonValue, sizes: Seq<Option<usize>>, i: int) -> Option<int>
    decreases tool.parameters@.len() - i,
{
    if i < 0 || i >= tool.parameters@.len() {
        None
    } else if parameter_fault(tool, params, i, sizes[i]) is Some {
        Some(i)
    } else {
        first_fault_index(tool, params, sizes, i + 1)
    }
}

/// Every member of the object is a declared parameter.
pub open spec fn only_declared(tool: AgentToolDefinition, entries: Seq<(String, JsonValue)>) -> bool {
    forall|k: int| 0 <= k < entries.len() ==> declared_names(tool).contains(#[trigger] entries[k].0@)
}

/// What the check of the declared parameters decides, given the serialized
/// sizes of the values checked before it stopped (`upto`): the first failing
/// declaration decides.
pub open spec fn declarations_hold(
    r: Result<(), AgentBrokerError>,
    tool: AgentToolDefinition,
    params: JsonValue,
    sizes: Seq<Option<usize>>,
    upto: int,
) -> bool {
    match first_fault_index(tool, params, sizes, 0) {
        None => upto == tool.parameters@.len() && r is Ok,
        Some(k) => k < upto && match parameter_fault(tool, params, k, sizes[k]) {
            Some(ParameterFault::Missing) => r matches Err(e) && e.code@ == "missing-field"@ && !e.retryable,
            _ => r matches Err(e) && e.code@ == "invalid-parameters"@ && !e.retryable,
        },
    }
}

/// `sizes` are sizes that `serialized_len` gave for the object values, before
/// index `upto`, whose size a declaration limits.
pub open spec fn sizes_answered<F: Fn(&JsonValue) -> Option<usize>>(
    tool: AgentToolDefinition,
    params: JsonValue,
    serialized_len: F,
    sizes: Seq<Option<usize>>,
    upto: int,
) -> bool {
    &&& sizes.len() == tool.parameters@.len()
    &&& 0 <= upto <= sizes.len()
    &&& forall|i: int| 0 <= i < upto && #[trigger] sized_object(tool.parameters@[i], params.spec_get(tool.parameters@[i].name@))
        ==> serialized_len.ensures((&params.spec_get(tool.parameters@[i].name@)->0,), sizes[i])
}

fn utf16_within(s: &str, limit: Option<u64>) -> (r: bool)
    ensures
        r == match limit {
            Some(m) => utf16_len(s@) <= m,
            None => true,
        },
{
    let m = match limit {
        Some(m) => m,
        None => return true,
    };
    let chars = to_chars(s);
    let mut count: u64 = 0;
    let mut i: usize = 0;
    while i < chars.len()
        invariant
            i <= chars.len(),
            chars@ == s@,
            count as int == utf16_len(s@.take(i as int)),
            count <= m,
            limit == Some(m),
        decreases chars.len() - i,
    {
        assert(s@.take(i + 1).drop_last() =~= s@.take(i as int));
        assert(s@.take(i + 1).last() == s@[i as int]);
        let width: u64 = if (chars[i] as u32) >= 0x10000 { 2 } else { 1 };
        assert(utf16_len(s@.take(i + 1)) == count + width);
        if width > m - count {
            proof {
                lemma_utf16_prefix(s@, i + 1);
            }
            return false;
        }
        count = count + width;
        i += 1;
    }
    assert(s@.take(chars@.len() as int) =~= s@);
    true
}

proof fn lemma_utf16_prefix(s: Seq<char>, i: int)
    requires
        0 <= i <= s.len(),
    ensures
        utf16_len(s.take(i)) <= utf16_len(s),
    decreases s.len() - i,
{
    if i < s.len() {
        lemma_utf16_prefix(s, i + 1);
        assert(s.take(i + 1).drop_last() =~= s.take(i));
    } else {
        assert(s.take(i) =~= s);
    }
}

fn value_is_valid(p: &AgentToolParameter, v: &JsonValue, size: Option<usize>) -> (r: bool)
    ensures
        r == value_fits(*p, *v, size),
{
    let ty = p.parameter_type.as_str();
    if str_eq(ty, "string") {
        match v {
            JsonValue::String(s) => utf16_within(s.as_str(), p.max_length),
            _ => false,
        }
    } else if str_eq(ty, "integer") {
        match v {
            JsonValue::Integer(n) => *n >= 0 && *n <= u64::MAX as i128,
            _ => false,
        }
    } else if str_eq(ty, "string-array") {
        let items = match v {
            JsonValue::Array(items) => items,
            _ => return false,
        };
        if let Some(m) = p.max_items {
            if items.len() as u64 > m {
                return false;
            }
        }
        let mut i: usize = 0;
        while i < items.len()
            invariant
                i <= items.len(),
                *v == JsonValue::Array(*items),
                forall|k: int| 0 <= k < i ==> ((#[trigger] items@[k]).spec_str() matches Some(s) && within_length(*p, s)),
            decreases items.len() - i,
        {
            match &items[i] {
                JsonValue::String(s) => {
                    if !utf16_within(s.as_str(), p.max_length) {
                        return false;
                    }
                },
                _ => return false,
            }
            i += 1;
        }
        true
    } else if str_eq(ty, "object") {
        match v {
            JsonValue::Object(_) => match p.max_bytes {
                Some(m) => match size {
                    Some(n) => n as u64 <= m,
                    None => false,
                },
                None => true,
            },
            _ => false,
        }
    } else {
        false
    }
}

fn declared(tool: &AgentToolDefinition, name: &str) -> (r: bool)
    ensures
        r == declared_names(*tool).contains(name@),
{
    let mut i: usize = 0;
    while i < tool.parameters.len()
        invariant
            i <= tool.parameters.len(),
            forall|k: int| 0 <= k < i ==> tool.parameters@[k].name@ != name@,
        decreases tool.parameters.len() - i,
    {
        if str_eq(tool.parameters[i].name.as_str(), name) {
            assert(declared_names(*tool)[i as int] == name@);
            return true;
        }
        i += 1;
    }
    proof {
        if declared_names(*tool).contains(name@) {
            let k = choose|k: int| 0 <= k < declared_names(*tool).len() && declared_names(*tool)[k] == name@;
            assert(tool.parameters@[k].name@ == name@);
        }
    }
    false
}

fn invalid(code: &'static str, message: &'static str) -> (e: AgentBrokerError)
    ensures
        e.code == code,
        !e.retryable,
{
    AgentBrokerError::new(code, message, false)
}

/// Checks Agent tool parameters against the tool's declaration (see
/// `parameters_holds`). `serialized_len` gives the size of a JSON value in
/// bytes, `None` when it cannot be serialized; the check holds for the sizes
/// that it returned.
pub fn validate_parameters<F: Fn(&JsonValue) -> Option<usize>>(
    tool: &AgentToolDefinition,
    parameters: &JsonValue,
    serialized_len: &F,
) -> (r: Result<(), AgentBrokerError>)
    requires
        forall|v: &JsonValue| serialized_len.requires((v,)),
    ensures
        match *parameters {
            JsonValue::Object(entries) => if !only_declared(*tool, entries@) {
                r matches Err(e) && e.code@ == "unknown-field"@ && !e.retryable
            } else {
                exists|sizes: Seq<Option<usize>>, upto: int| #[trigger] sizes_answered(*tool, *parameters, *serialized_len, sizes, upto)
                    && declarations_hold(r, *tool, *parameters, sizes, upto)
            },
            _ => r matches Err(e) && e.code@ == "invalid-parameters"@ && !e.retryable,
        },
{
    proof {
        reveal_strlit("invalid-parameters");
        reveal_strlit("unknown-field");
        reveal_strlit("missing-field");
    }
    let entries = match parameters {
        JsonValue::Object(entries) => entries,
        _ => return Err(invalid("invalid-parameters", "The Agent tool parameters are invalid.")),
    };
    let mut k: usize = 0;
    while k < entries.len()
        invariant
            k <= entries.len(),
            *parameters == JsonValue::Object(*entries),
            forall|j: int| 0 <= j < k ==> declared_names(*tool).contains(#[trigger] entries@[j].0@),
        decreases entries.len() - k,
    {
        if !declared(tool, entries[k].0.as_str()) {
            return Err(invalid("unknown-field", "The Agent tool parameters contain an unknown field."));
        }
        k += 1;
    }
    let ghost mut sizes: Seq<Option<usize>> = Seq::new(tool.parameters@.len(), |i: int| None::<usize>);
    let mut i: usize = 0;
    while i < tool.parameters.len()
        invariant
            i <= tool.parameters.len(),
            *parameters == JsonValue::Object(*entries),
            forall|j: int| 0 <= j < entries@.len() ==> declared_names(*tool).contains(#[trigger] entries@[j].0@),
            forall|v: &JsonValue| serialized_len.requires((v,)),
            sizes.len() == tool.parameters@.len(),
            sizes_answered(*tool, *parameters, *serialized_len, sizes, i as int),
            forall|j: int| 0 <= j < i ==> #[trigger] parameter_fault(*tool, *parameters, j, sizes[j]) is None,
        decreases tool.parameters.len() - i,
    {
        let p = &tool.parameters[i];
        let value = parameters.get(p.name.as_str());
        match value {
            None => {
                if p.required {
                    let r = Err(invalid("missing-field", "The Agent tool parameters are incomplete."));
                    proof {
                        lemma_clean_prefix(*tool, *parameters, sizes, i as int);
                        assert(sizes_answered(*tool, *parameters, *serialized_len, sizes, i + 1));
                    }
                    return r;
                }
            },
            Some(v) => {
                let needs_size = match v {
                    JsonValue::Object(_) => p.max_bytes.is_some() && str_eq(p.parameter_type.as_str(), "object"),
                    _ => false,
                };
                let size = if needs_size { serialized_len(v) } else { None };
                proof {
                    sizes = sizes.update(i as int, size);
                }
                if !value_is_valid(p, v, size) {
                    let r = Err(invalid("invalid-parameters", "The Agent tool parameters are invalid."));
                    proof {
                        lemma_clean_prefix(*tool, *parameters, sizes, i as int);
                        assert(sizes_answered(*tool, *parameters, *serialized_len, sizes, i + 1));
                    }
                    return r;
                }
            },
        }
        i += 1;
    }
    proof {
        lemma_clean_prefix(*tool, *parameters, sizes, tool.parameters@.len() as int);
        assert(sizes_answered(*tool, *parameters, *serialized_len, sizes, tool.parameters@.len() as int));
    }
    Ok(())
}

proof fn lemma_clean_prefix(tool: AgentToolDefinition, params: JsonValue, sizes: Seq<Option<usize>>, i: int)
    requires
        0 <= i <= tool.parameters@.len(),
        sizes.len() == tool.parameters@.len(),
        forall|j: int| 0 <= j < i ==> #[trigger] parameter_fault(tool, params, j, sizes[j]) is None,
    ensures
        first_fault_index(tool, params, sizes, 0) == first_fault_index(tool, params, sizes, i),
    decreases i,
{
    if i > 0 {
        lemma_clean_prefix(tool, params, sizes, i - 1);
        assert(parameter_fault(tool, params, i - 1, sizes[i - 1]) is None);
    }
}

// ----------------------------------------------------------------------------
// Session, account and connection
// ----------------------------------------------------------------------------

/// A connection session may run a request of `client` at `now`: it belongs
/// to the client, has not expired, and has requests left.
pub open spec fn session_usable(session: ConnectionSession, client: u128, now: u64) -> bool {
    session.client_id == client && session.expires_at > now && session.requests_used < session.request_limit
}

fn names_contain(list: &Vec<String>, name: &str) -> (r: bool)
    ensures
        r == names_view(list@).contains(name@),
{
    let mut i: usize = 0;
    while i < list.len()
        invariant
            i <= list.len(),
            forall|k: int| 0 <= k < i ==> list@[k]@ != name@,
        decreases list.len() - i,
    {
        if str_eq(list[i].as_str(), name) {
            assert(names_view(list@)[i as int] == name@);
            return true;
        }
        i += 1;
    }
    proof {
        if names_view(list@).contains(name@) {
            let k = choose|k: int| 0 <= k < names_view(list@).len() && names_view(list@)[k] == name@;
            assert(list@[k]@ == name@);
        }
    }
    false
}

/// Checks the connection session of a request for `tool`: it must exist
/// (`session-required`), be usable by the client (`session-denied`), and
/// allow the tool (`capability-denied`).
pub fn check_request_session(session: Option<&ConnectionSession>, client_id: u128, tool: &str, now_millis: u64) -> (r: Result<(), AgentBrokerError>)
    ensures
        match session {
            None => r matches Err(e) && e.code@ == "session-required"@ && e.retryable,
            Some(s) => if !session_usable(*s, client_id, now_millis) {
                r matches Err(e) && e.code@ == "session-denied"@ && !e.retryable
            } else if !names_view(s.allowed_tools@).contains(tool@) {
                r matches Err(e) && e.code@ == "capability-denied"@ && !e.retryable
            } else {
                r is Ok
            },
        },
{
    proof {
        reveal_strlit("session-required");
        reveal_strlit("session-denied");
        reveal_strlit("capability-denied");
    }
    let s = match session {
        Some(s) => s,
        None => return Err(AgentBrokerError::new(
            "session-required",
            "The MCP connection session is unavailable; reconnect the client.",
            true,
        )),
    };
    if s.client_id != client_id || s.expires_at <= now_millis || s.requests_used >= s.request_limit {
        return Err(AgentBrokerError::new("session-denied", "The connection session is expired or unavailable.", false));
    }
    if !names_contain(&s.allowed_tools, tool) {
        return Err(AgentBrokerError::new("capability-denied", "The connection session does not allow this capability.", false));
    }
    Ok(())
}

/// Checks the account that a request names: a tool that needs an account
/// must name one (`account-required`) that the session allows
/// (`account-denied`) and that has an approved direct plan, unless the
/// action continues an SSH terminal session (`action-plan-unavailable`);
/// another tool must name none (`invalid-account`).
pub fn check_request_account(
    requires_account: bool,
    account_ref: Option<&str>,
    session: &ConnectionSession,
    has_direct_plan: bool,
    continues_terminal: bool,
) -> (r: Result<(), AgentBrokerError>)
    ensures
        if requires_account {
            match account_ref {
                None => r matches Err(e) && e.code@ == "account-required"@ && !e.retryable,
                Some(a) => if !names_view(session.allowed_accounts@).contains(a@) {
                    r matches Err(e) && e.code@ == "account-denied"@ && !e.retryable
                } else if !has_direct_plan && !continues_terminal {
                    r matches Err(e) && e.code@ == "action-plan-unavailable"@ && !e.retryable
                } else {
                    r is Ok
                },
            }
        } else {
            if account_ref is Some {
                r matches Err(e) && e.code@ == "invalid-account"@ && !e.retryable
            } else {
                r is Ok
            }
        },
{
    proof {
        reveal_strlit("account-required");
        reveal_strlit("account-denied");
        reveal_strlit("action-plan-unavailable");
        reveal_strlit("invalid-account");
    }
    if requires_account {
        let a = match account_ref {
            Some(a) => a,
            None => return Err(AgentBrokerError::new("account-required", "An approved account reference is required.", false)),
        };
        if !names_contain(&session.allowed_accounts, a) {
            return Err(AgentBrokerError::new("account-denied", "The account is not approved for this connection.", false));
        }
        if !has_direct_plan && !continues_terminal {
            return Err(AgentBrokerError::new(
                "action-plan-unavailable",
                "The account action is missing its immutable direct plan.",
                false,
            ));
        }
        Ok(())
    } else if account_ref.is_some() {
        Err(AgentBrokerError::new("invalid-account", "This Agent tool does not accept an account reference.", false))
    } else {
        Ok(())
    }
}

/// The grants of a connection decide a request that needs an account: the
/// request must name an account (`account-required`); a denying grant
/// refuses it (`authorization-denied`), and without an allowing grant that
/// needs no fresh confirmation the local permission flow is asked for
/// (`permission-required`).
pub fn check_connection_grant(account_ref: Option<&str>, grant: Option<&PermissionGrant>) -> (r: Result<(), AgentBrokerError>)
    ensures
        match account_ref {
            None => r matches Err(e) && e.code@ == "account-required"@ && !e.retryable,
            Some(_) => match grant {
                Some(g) => if g.effect == PermissionEffect::Deny {
                    r matches Err(e) && e.code@ == "authorization-denied"@
                } else if g.fresh_confirmation_required {
                    r matches Err(e) && e.code@ == "permission-required"@ && e.native_action_required == Some("request-permission")
                } else {
                    r is Ok
                },
                None => r matches Err(e) && e.code@ == "permission-required"@ && e.native_action_required == Some("request-permission"),
            },
        },
{
    proof {
        reveal_strlit("account-required");
    }
    if account_ref.is_none() {
        return Err(AgentBrokerError::new("account-required", "An approved account reference is required.", false));
    }
    match grant {
        Some(g) => {
            if g.effect == PermissionEffect::Deny {
                return Err(AgentBrokerError::authorization_denied());
            }
            if g.fresh_confirmation_required {
                return Err(AgentBrokerError::native("permission-required", "request-permission"));
            }
            Ok(())
        },
        None => Err(AgentBrokerError::native("permission-required", "request-permission")),
    }
}

// ----------------------------------------------------------------------------
// Risk and confirmation
// ----------------------------------------------------------------------------

/// The risk of a request: that of its direct SSH plan, else of its direct
/// HTTP plan, else of its connector plan, else the tool's.
pub open spec fn spec_effective_risk(
    ssh: Option<AgentDirectSshPolicy>,
    http: Option<AgentDirectHttpPolicy>,
    connector: Option<AgentDirectConnectorPolicy>,
    tool_risk: Seq<char>,
) -> Seq<char> {
    match ssh {
        Some(p) => p.risk@,
        None => match http {
            Some(p) => spec_risk_name(p.operation.risk),
            None => match connector {
                Some(p) => p.risk@,
                None => tool_risk,
            },
        },
    }
}

/// The risk of a request (see `spec_effective_risk`).
pub fn effective_risk(
    ssh: Option<&AgentDirectSshPolicy>,
    http: Option<&AgentDirectHttpPolicy>,
    connector: Option<&AgentDirectConnectorPolicy>,
    tool_risk: &str,
) -> (r: String)
    ensures
        r@ == spec_effective_risk(
            match ssh { Some(p) => Some(*p), None => None },
            match http { Some(p) => Some(*p), None => None },
            match connector { Some(p) => Some(*p), None => None },
            tool_risk@,
        ),
{
    match ssh {
        Some(p) => copy_string(p.risk.as_str()),
        None => match http {
            Some(p) => risk_name(p.operation.risk),
            None => match connector {
                Some(p) => copy_string(p.risk.as_str()),
                None => copy_string(tool_risk),
            },
        },
    }
}

/// A tool whose calls need a confirmation: always for `fresh`,
/// `privileged` and `first-target` tools, and for `risk-dependent` tools
/// from risk `R2`.
pub open spec fn spec_confirmation_required(confirmation: Seq<char>, risk: Seq<char>) -> bool {
    confirmation == "fresh"@ || confirmation == "privileged"@ || confirmation == "first-target"@
        || (confirmation == "risk-dependent"@ && spec_risk_rank(risk) >= 2)
}

/// Whether a call of a tool with `confirmation` at `risk` needs a confirmation.
pub fn confirmation_required(confirmation: &str, risk: &str) -> (r: bool)
    ensures
        r == spec_confirmation_required(confirmation@, risk@),
{
    str_eq(confirmation, "fresh") || str_eq(confirmation, "privileged") || str_eq(confirmation, "first-target")
        || (str_eq(confirmation, "risk-dependent") && risk_rank(risk) >= 2)
}

/// A confirmation ticket of the right shape: 1 to 128 bytes, no control character.
pub open spec fn ticket_shape_ok(t: Seq<char>) -> bool {
    t.len() > 0 && utf8_len(t) <= 128 && forall|i: int| 0 <= i < t.len() ==> !is_control_char(#[trigger] t[i])
}

/// Checks the confirmation ticket of a call: a call that needs no
/// confirmation takes none, and a ticket must have the right shape
/// (`invalid-confirmation` otherwise).
pub fn check_confirmation_ticket(ticket: Option<&str>, required: bool) -> (r: Result<(), AgentBrokerError>)
    ensures
        r is Ok <==> match ticket {
            Some(t) => required && ticket_shape_ok(t@),
            None => true,
        },
        r matches Err(e) ==> e.code@ == "invalid-confirmation"@ && !e.retryable,
{
    proof {
        reveal_strlit("invalid-confirmation");
    }
    let t = match ticket {
        Some(t) => t,
        None => return Ok(()),
    };
    if !required {
        return Err(AgentBrokerError::new("invalid-confirmation", "This Agent tool does not accept a confirmation ticket.", false));
    }
    if t.is_empty() || !utf8_len_within(t, 128) {
        return Err(AgentBrokerError::new("invalid-confirmation", "The Agent confirmation ticket is invalid.", false));
    }
    let chars = to_chars(t);
    let mut i: usize = 0;
    while i < chars.len()
        invariant
            i <= chars.len(),
            chars@ == t@,
            ticket == Some(t),
            required,
            forall|k: int| 0 <= k < i ==> !is_control_char(#[trigger] t@[k]),
        decreases chars.len() - i,
    {
        let u = chars[i] as u32;
        if u <= 0x1f || (u >= 0x7f && u <= 0x9f) {
            return Err(AgentBrokerError::new("invalid-confirmation", "The Agent confirmation ticket is invalid.", false));
        }
        i += 1;
    }
    Ok(())
}

// ----------------------------------------------------------------------------
// Spending a request
// ----------------------------------------------------------------------------

/// The grants after one use: the deciding grant `i`, when it allows and is
/// limited, has one use less; then every grant without uses left goes.
pub open spec fn spend_grants(gs: Seq<PermissionGrant>, deciding: Option<int>) -> Seq<PermissionGrant> {
    let spent = match deciding {
        Some(i) => if gs[i].effect == PermissionEffect::Allow && gs[i].remaining_uses is Some {
            let n = gs[i].remaining_uses->0;
            gs.update(i, PermissionGrant { remaining_uses: Some(if n > 0 { (n - 1) as u32 } else { 0u32 }), ..gs[i] })
        } else {
            gs
        },
        None => gs,
    };
    spent.filter(|g: PermissionGrant| g.remaining_uses != Some(0u32))
}

fn clone_opt(o: &Option<String>) -> (r: Option<String>)
    ensures
        r == *o,
{
    match o {
        Some(s) => Some(s.clone()),
        None => None,
    }
}

pub(crate) fn clone_grant(g: &PermissionGrant) -> (r: PermissionGrant)
    ensures
        r == *g,
{
    PermissionGrant {
        account_ref: g.account_ref.clone(),
        tool: g.tool.clone(),
        operation: clone_opt(&g.operation),
        scope: g.scope,
        parameters_digest: clone_opt(&g.parameters_digest),
        catalog_revision: clone_opt(&g.catalog_revision),
        effect: g.effect,
        fresh_confirmation_required: g.fresh_confirmation_required,
        remaining_uses: g.remaining_uses,
    }
}

/// What spending a request does (see `spend_request`): the session `s0`
/// becomes `s1` with one more request used, and the grants `g0` become `g1`,
/// `deciding` naming the grant that decided the action.
pub open spec fn spend_holds(
    s0: ConnectionSession,
    s1: ConnectionSession,
    g0: Seq<PermissionGrant>,
    g1: Seq<PermissionGrant>,
    deciding: Option<usize>,
    tool: Seq<char>,
    account_ref: Option<Seq<char>>,
    operation: Option<Seq<char>>,
    parameters_digest: Seq<char>,
    parameters: JsonValue,
    safe_command: bool,
) -> bool {
    &&& (s1.requests_used == if s0.requests_used == u32::MAX {
            u32::MAX
        } else {
            (s0.requests_used + 1) as u32
        })
    &&& (s1.session_id == s0.session_id)
    &&& (s1.client_id == s0.client_id)
    &&& (s1.connection_managed == s0.connection_managed)
    &&& (s1.allowed_accounts == s0.allowed_accounts)
    &&& (s1.allowed_tools == s0.allowed_tools)
    &&& (s1.issued_at == s0.issued_at)
    &&& (s1.expires_at == s0.expires_at)
    &&& (s1.request_limit == s0.request_limit)
    &&& (!s0.connection_managed || session_base_tools().contains(tool) ==> g1 == g0
            && deciding is None)
    &&& (s0.connection_managed && !session_base_tools().contains(tool) ==> {
        let a = match account_ref {
            Some(a) => a,
            None => Seq::<char>::empty(),
        };
        &&& match deciding {
            Some(i) => crate::direct_permission::is_deciding_grant(g0, a, tool, operation, parameters_digest, parameters, safe_command, i as int),
            None => forall|j: int| 0 <= j < g0.len() ==> !spec_grant_matches(#[trigger] g0[j], a, tool, operation, parameters_digest, parameters, safe_command),
        }
        &&& g1 == spend_grants(g0, match deciding {
            Some(i) => Some(i as int),
            None => None,
        })
    })
}

/// Spends one request of the session and, on a connection-managed session
/// for a tool that needs an account, one use of the grant that decides the
/// action; grants without uses left are dropped.
pub fn spend_request(
    session: &mut ConnectionSession,
    grants: &mut Vec<PermissionGrant>,
    tool: &str,
    account_ref: Option<&str>,
    operation: Option<&str>,
    parameters_digest: &str,
    parameters: &JsonValue,
    safe_command: bool,
) -> (deciding: Option<usize>)
    ensures
        spend_holds(*old(session), *final(session), old(grants)@, final(grants)@, deciding, tool@,
            match account_ref { Some(a) => Some(a@), None => None }, opt_ref_view(operation), parameters_digest@, *parameters, safe_command),
{
    session.requests_used = session.requests_used.saturating_add(1);
    if !session.connection_managed || crate::direct_permission::is_session_base_tool(tool) {
        return None;
    }
    let account: &str = match account_ref {
        Some(a) => a,
        None => "",
    };
    proof {
        reveal_strlit("");
        assert(""@ =~= Seq::<char>::empty());
    }
    let deciding = matching_permission_grant_index(grants, account, tool, operation, parameters_digest, parameters, safe_command);
    let ghost before = grants@;
    if let Some(i) = deciding {
        if grants[i].effect == PermissionEffect::Allow {
            if let Some(n) = grants[i].remaining_uses {
                let mut g = clone_grant(&grants[i]);
                g.remaining_uses = Some(n.saturating_sub(1));
                grants.set(i, g);
            }
        }
    }
    let ghost spent = grants@;
    assert(spent == match deciding {
        Some(i) => if before[i as int].effect == PermissionEffect::Allow && before[i as int].remaining_uses is Some {
            let n = before[i as int].remaining_uses->0;
            before.update(i as int, PermissionGrant { remaining_uses: Some(if n > 0 { (n - 1) as u32 } else { 0u32 }), ..before[i as int] })
        } else {
            before
        },
        None => before,
    });
    let mut kept: Vec<PermissionGrant> = Vec::new();
    let mut k: usize = 0;
    while k < grants.len()
        invariant
            k <= grants.len(),
            grants@ == spent,
            kept@ == spent.take(k as int).filter(|g: PermissionGrant| g.remaining_uses != Some(0u32)),
        decreases grants.len() - k,
    {
        proof {
            lemma_filter_step(spent, k as int);
        }
        if grants[k].remaining_uses != Some(0u32) {
            kept.push(clone_grant(&grants[k]));
        }
        k += 1;
    }
    assert(spent.take(spent.len() as int) =~= spent);
    *grants = kept;
    deciding
}

proof fn lemma_filter_step(s: Seq<PermissionGrant>, k: int)
    requires
        0 <= k < s.len(),
    ensures
        s.take(k + 1).filter(|g: PermissionGrant| g.remaining_uses != Some(0u32)) == if s[k].remaining_uses != Some(0u32) {
            s.take(k).filter(|g: PermissionGrant| g.remaining_uses != Some(0u32)).push(s[k])
        } else {
            s.take(k).filter(|g: PermissionGrant| g.remaining_uses != Some(0u32))
        },
{
    let f = |g: PermissionGrant| g.remaining_uses != Some(0u32);
    assert(s.take(k + 1).drop_last() =~= s.take(k));
    assert(s.take(k + 1).last() == s[k]);
    s.take(k).lemma_filter_push(s[k], f);
    assert(s.take(k).push(s[k]) =~= s.take(k + 1));
}

// ----------------------------------------------------------------------------
// Laws
// ----------------------------------------------------------------------------

/// After a request is spent, every grant of the connection has a use left:
/// a grant whose last use was spent is gone.
pub proof fn law_spent_grants_keep_uses(gs: Seq<PermissionGrant>, deciding: Option<int>)
    requires
        deciding matches Some(i) ==> 0 <= i < gs.len(),
    ensures
        forall|k: int| 0 <= k < spend_grants(gs, deciding).len() ==> (#[trigger] spend_grants(gs, deciding)[k]).remaining_uses != Some(0u32),
{
    let f = |g: PermissionGrant| g.remaining_uses != Some(0u32);
    let spent = match deciding {
        Some(i) => if gs[i].effect == PermissionEffect::Allow && gs[i].remaining_uses is Some {
            let n = gs[i].remaining_uses->0;
            gs.update(i, PermissionGrant { remaining_uses: Some(if n > 0 { (n - 1) as u32 } else { 0u32 }), ..gs[i] })
        } else {
            gs
        },
        None => gs,
    };
    assert(spend_grants(gs, deciding) == spent.filter(f));
    assert forall|k: int| 0 <= k < spent.filter(f).len() implies (#[trigger] spent.filter(f)[k]).remaining_uses != Some(0u32) by {
        spent.filter_lemma(f);
    }
}

} // verus!
