//! Checks on the parameters of direct actions and the risk and description
//! of managed web actions.
use vstd::prelude::*;
use crate::error::AgentBrokerError;
use crate::http_path::{is_ascii_char, is_ascii_control, split_on_slash, AgentRiskTier};
use crate::ids::{parse_uuid, uuid_parse};
use crate::json::JsonValue;
use crate::policy::{is_lower_hex_char, last_slash, opt_ref_view};
use crate::text::{chars_contain, concat, contains_text, copy_string, from_chars, starts_with, str_eq, to_chars};

verus! {

broadcast use vstd::string::group_string_axioms;

/// The kind of a managed web recipe.
#[derive(Clone, Copy, Debug, PartialEq, Eq, Structural)]
pub enum AgentWebRecipeKind {
    Login,
    Navigate,
    Extract,
    Action,
    Download,
    Totp,
    EmailOtp,
    RecoveryCode,
    PasskeyRegistration,
    PasskeyAssertion,
}

/// Where an extracted field is read from.
#[derive(Clone, Copy, Debug, PartialEq, Eq, Structural)]
pub enum AgentWebFieldSource {
    Text,
    Href,
}

/// A field that a recipe extracts.
#[derive(Clone, Debug)]
pub struct AgentWebFieldPolicy {
    pub name: String,
    pub selector: String,
    pub source: AgentWebFieldSource,
}

/// An input that an action recipe accepts.
#[derive(Clone, Debug)]
pub struct AgentWebInputPolicy {
    pub name: String,
    pub selector: String,
    pub max_length: u32,
}

/// A recipe of a managed web connector.
#[derive(Clone, Debug)]
pub struct AgentWebRecipePolicy {
    pub name: String,
    pub kind: AgentWebRecipeKind,
    pub path: String,
    pub username_selector: Option<String>,
    pub password_selector: Option<String>,
    pub submit_selector: Option<String>,
    pub success_selector: Option<String>,
    pub failure_selector: Option<String>,
    pub selector: Option<String>,
    pub fields: Vec<AgentWebFieldPolicy>,
    pub inputs: Vec<AgentWebInputPolicy>,
    pub risk: AgentRiskTier,
}

// ----------------------------------------------------------------------------
// Specification
// ----------------------------------------------------------------------------

/// A Unicode `White_Space` character (`char::is_whitespace`).
pub open spec fn is_unicode_whitespace(c: char) -> bool {
    let u = c as u32;
    (0x09 <= u && u <= 0x0d) || u == 0x20 || u == 0x85 || u == 0xa0 || u == 0x1680 || (0x2000 <= u && u <= 0x200a)
        || u == 0x2028 || u == 0x2029 || u == 0x202f || u == 0x205f || u == 0x3000
}

/// `s` without leading white space.
pub open spec fn trim_start(s: Seq<char>) -> Seq<char>
    decreases s.len(),
{
    if s.len() > 0 && is_unicode_whitespace(s[0]) {
        trim_start(s.drop_first())
    } else {
        s
    }
}

/// `s` without trailing white space.
pub open spec fn trim_end(s: Seq<char>) -> Seq<char>
    decreases s.len(),
{
    if s.len() > 0 && is_unicode_whitespace(s.last()) {
        trim_end(s.drop_last())
    } else {
        s
    }
}

/// `s` without leading and trailing white space (`str::trim`).
pub open spec fn trimmed(s: Seq<char>) -> Seq<char> {
    trim_end(trim_start(s))
}

/// A remote file path that a direct SSH transfer may use: absolute ASCII,
/// at most 4096 characters, not `/`, no trailing `/`, no `//`, no `.` or `..`
/// component and no control character.
pub open spec fn spec_valid_direct_remote_path(p: Seq<char>) -> bool {
    &&& 0 < p.len() <= 4096
    &&& p[0] == '/'
    &&& p != seq!['/']
    &&& p.last() != '/'
    &&& forall|i: int| 0 <= i < p.len() ==> is_ascii_char(#[trigger] p[i]) && !is_ascii_control(p[i])
    &&& !contains_text(p, "//"@)
    &&& forall|k: int| 0 <= k < split_on_slash(p).len() ==> #[trigger] split_on_slash(p)[k] != seq!['.'] && split_on_slash(p)[k] != seq!['.', '.']
}

/// The parent directory of a remote path; `/` at the top.
pub open spec fn spec_remote_parent(p: Seq<char>) -> Seq<char> {
    match last_slash(p) {
        Some(i) => if i == 0 {
            seq!['/']
        } else {
            p.subrange(0, i)
        },
        None => seq!['/'],
    }
}

/// The label of an SSH account: its trimmed title, else its host.
pub open spec fn spec_ssh_account_label(detail: JsonValue, host: Seq<char>) -> Seq<char> {
    match detail.spec_get_str("title"@) {
        Some(t) => if trimmed(t).len() > 0 {
            trimmed(t)
        } else {
            host
        },
        None => host,
    }
}

/// A lower-case hexadecimal handle of 32 digits after `prefix`.
pub open spec fn bound_handle(value: Seq<char>, prefix: Seq<char>) -> bool {
    &&& prefix.len() <= value.len()
    &&& value.subrange(0, prefix.len() as int) == prefix
    &&& value.len() - prefix.len() == 32
    &&& forall|i: int| prefix.len() <= i < value.len() ==> is_lower_hex_char(#[trigger] value[i])
}

/// The name of a risk tier.
pub open spec fn spec_risk_name(risk: AgentRiskTier) -> Seq<char> {
    match risk {
        AgentRiskTier::R0 => "R0"@,
        AgentRiskTier::R1 => "R1"@,
        AgentRiskTier::R2 => "R2"@,
        AgentRiskTier::R3 => "R3"@,
        AgentRiskTier::R4 => "R4"@,
    }
}

/// The rank of a risk tier name, or `None` for an unknown name.
pub open spec fn spec_direct_risk_rank(risk: Seq<char>) -> Option<u8> {
    if risk == "R0"@ {
        Some(0u8)
    } else if risk == "R1"@ {
        Some(1u8)
    } else if risk == "R2"@ {
        Some(2u8)
    } else if risk == "R3"@ {
        Some(3u8)
    } else if risk == "R4"@ {
        Some(4u8)
    } else {
        None
    }
}

/// The rank of a risk tier.
pub open spec fn tier_rank(risk: AgentRiskTier) -> u8 {
    match risk {
        AgentRiskTier::R0 => 0,
        AgentRiskTier::R1 => 1,
        AgentRiskTier::R2 => 2,
        AgentRiskTier::R3 => 3,
        AgentRiskTier::R4 => 4,
    }
}

/// The name of the risk tier of a rank.
pub open spec fn rank_name(rank: u8) -> Seq<char> {
    if rank == 0 {
        "R0"@
    } else if rank == 1 {
        "R1"@
    } else if rank == 2 {
        "R2"@
    } else if rank == 3 {
        "R3"@
    } else {
        "R4"@
    }
}

/// The highest risk among the recipes of the given kinds, starting from
/// `minimum`; `None` when no recipe has one of the kinds.
pub open spec fn spec_highest_recipe_risk(recipes: Seq<AgentWebRecipePolicy>, kinds: Seq<AgentWebRecipeKind>, minimum: u8) -> Option<u8>
    decreases recipes.len(),
{
    if recipes.len() == 0 {
        None
    } else {
        let rest = spec_highest_recipe_risk(recipes.drop_last(), kinds, minimum);
        if kinds.contains(recipes.last().kind) {
            let r = tier_rank(recipes.last().risk);
            match rest {
                Some(h) => Some(if r > h { r } else { h }),
                None => Some(if r > minimum { r } else { minimum }),
            }
        } else {
            rest
        }
    }
}

/// The index of the first recipe satisfying `pred`.
pub open spec fn first_recipe(recipes: Seq<AgentWebRecipePolicy>, pred: spec_fn(AgentWebRecipePolicy) -> bool) -> Option<int>
    decreases recipes.len(),
{
    if recipes.len() == 0 {
        None
    } else {
        match first_recipe(recipes.drop_last(), pred) {
            Some(i) => Some(i),
            None => if pred(recipes.last()) {
                Some(recipes.len() - 1)
            } else {
                None
            },
        }
    }
}

/// The error for a direct action that lacks metadata.
pub open spec fn is_input_insufficient(e: AgentBrokerError, fields: Seq<Seq<char>>) -> bool {
    &&& e.code@ == "action-input-insufficient"@
    &&& e.retryable
    &&& match e.details {
        Some(d) => match d.spec_get("missingFields"@) {
            Some(JsonValue::Array(items)) => items@.len() == fields.len() && forall|i: int|
                0 <= i < fields.len() ==> (#[trigger] items@[i]).spec_str() == Some(fields[i]),
            _ => false,
        },
        None => false,
    }
}

/// The error for a capability without a direct action rule.
pub open spec fn is_rule_unavailable(e: AgentBrokerError, kind: Seq<char>, tool: Seq<char>) -> bool {
    &&& e.code@ == "action-rule-unavailable"@
    &&& e.retryable
    &&& match e.details {
        Some(d) => match d.spec_get("missingFields"@) {
            Some(JsonValue::Array(items)) => items@.len() == 1 && items@[0].spec_str() == Some(
                "builtInRule:"@ + kind + ":"@ + tool,
            ),
            _ => false,
        },
        None => false,
    }
}

/// The error for malformed action parameters.
pub open spec fn is_invalid_parameters(e: AgentBrokerError) -> bool {
    e.code@ == "invalid-parameters"@ && !e.retryable
}

// ----------------------------------------------------------------------------
// Errors with details
// ----------------------------------------------------------------------------

fn string_array(items: Vec<String>) -> (r: JsonValue)
    ensures
        match r {
            JsonValue::Array(v) => v@.len() == items@.len() && forall|i: int| 0 <= i < items@.len() ==> (#[trigger] v@[i]).spec_str() == Some(items@[i]@),
            _ => false,
        },
{
    let mut out: Vec<JsonValue> = Vec::new();
    let mut i: usize = 0;
    while i < items.len()
        invariant
            i <= items.len(),
            out@.len() == i,
            forall|k: int| 0 <= k < i ==> (#[trigger] out@[k]).spec_str() == Some(items@[k]@),
        decreases items.len() - i,
    {
        out.push(JsonValue::String(copy_string(items[i].as_str())));
        i += 1;
    }
    JsonValue::Array(out)
}

fn object_with_missing_fields(missing: JsonValue, retry_hint: &str) -> (r: JsonValue)
    ensures
        r.spec_get("missingFields"@) == Some(missing),
{
    let sources = vec![JsonValue::String(copy_string("vault-item")), JsonValue::String(copy_string("built-in-rule"))];
    let entries = vec![
        (copy_string("missingFields"), missing),
        (copy_string("retryHint"), JsonValue::String(copy_string(retry_hint))),
        (copy_string("allowedSources"), JsonValue::Array(sources)),
    ];
    proof {
        assert(entries@[0].0@ == "missingFields"@);
    }
    JsonValue::Object(entries)
}

impl AgentBrokerError {
    /// The Vault item lacks the metadata that a direct action plan needs.
    pub fn action_input_insufficient(missing_fields: Vec<String>) -> (e: Self)
        ensures
            is_input_insufficient(e, missing_fields@.map_values(|s: String| s@)),
    {
        let ghost names = missing_fields@.map_values(|s: String| s@);
        let missing = string_array(missing_fields);
        let details = object_with_missing_fields(
            missing,
            "Update the Vault item, then retry the same action with the same accountRef.",
        );
        AgentBrokerError {
            code: "action-input-insufficient",
            message: "The account does not contain enough metadata for a direct action plan.",
            retryable: true,
            native_action_required: None,
            confirmation_ref: None,
            details: Some(details),
        }
    }

    /// VaultMesh has no direct action rule for the account kind and capability.
    pub fn action_rule_unavailable(kind: &str, tool: &str) -> (e: Self)
        ensures
            is_rule_unavailable(e, kind@, tool@),
    {
        let a = concat("builtInRule:", kind);
        let b = concat(a.as_str(), ":");
        let c = concat(b.as_str(), tool);
        let missing = vec![c];
        let list = string_array(missing);
        let details = object_with_missing_fields(
            list,
            "Choose a capability published by vaultmesh_accounts_list, then call that action directly.",
        );
        AgentBrokerError {
            code: "action-rule-unavailable",
            message: "VaultMesh has no direct action rule for this account and capability.",
            retryable: true,
            native_action_required: None,
            confirmation_ref: None,
            details: Some(details),
        }
    }

    /// The SSH target of a direct action could not be verified.
    pub fn action_target_unavailable() -> (e: Self)
        ensures
            e.code@ == "action-target-unavailable"@,
            e.retryable,
            e.details is Some,
    {
        let sources = vec![JsonValue::String(copy_string("vault-item")), JsonValue::String(copy_string("built-in-rule"))];
        let entries = vec![
            (
                copy_string("retryHint"),
                JsonValue::String(
                    copy_string(
                        "Ensure the SSH endpoint saved in the Vault item is reachable, then retry the same SSH action.",
                    ),
                ),
            ),
            (copy_string("allowedSources"), JsonValue::Array(sources)),
        ];
        AgentBrokerError {
            code: "action-target-unavailable",
            message: "VaultMesh could not verify the target identity for this direct action.",
            retryable: true,
            native_action_required: None,
            confirmation_ref: None,
            details: Some(JsonValue::Object(entries)),
        }
    }
}

fn invalid_parameters(message: &'static str) -> (e: AgentBrokerError)
    ensures
        is_invalid_parameters(e),
{
    AgentBrokerError::new("invalid-parameters", message, false)
}

// ----------------------------------------------------------------------------
// Executable functions
// ----------------------------------------------------------------------------

/// The text without leading and trailing white space.
pub fn trim(s: &str) -> (r: String)
    ensures
        r@ == trimmed(s@),
{
    let v = to_chars(s);
    let mut start: usize = 0;
    assert(v@.subrange(0, v@.len() as int) =~= v@);
    while start < v.len() && is_whitespace_char(v[start])
        invariant
            start <= v.len(),
            trim_start(v@) == trim_start(v@.subrange(start as int, v@.len() as int)),
        decreases v.len() - start,
    {
        assert(v@.subrange(start as int, v@.len() as int).drop_first() =~= v@.subrange(start + 1, v@.len() as int));
        start += 1;
    }
    let ghost front = v@.subrange(start as int, v@.len() as int);
    assert(trim_start(v@) == front);
    let mut end: usize = v.len();
    assert(front.subrange(0, front.len() as int) =~= front);
    while end > start && is_whitespace_char(v[end - 1])
        invariant
            start <= end <= v.len(),
            front == v@.subrange(start as int, v@.len() as int),
            trim_end(front) == trim_end(v@.subrange(start as int, end as int)),
        decreases end,
    {
        assert(v@.subrange(start as int, end as int).drop_last() =~= v@.subrange(start as int, end - 1));
        end -= 1;
    }
    let mut out: Vec<char> = Vec::new();
    let mut i: usize = start;
    while i < end
        invariant
            start <= i <= end <= v.len(),
            out@ == v@.subrange(start as int, i as int),
        decreases end - i,
    {
        out.push(v[i]);
        assert(out@ =~= v@.subrange(start as int, i + 1));
        i += 1;
    }
    from_chars(&out)
}

fn is_whitespace_char(c: char) -> (r: bool)
    ensures
        r == is_unicode_whitespace(c),
{
    let u = c as u32;
    (u >= 0x09 && u <= 0x0d) || u == 0x20 || u == 0x85 || u == 0xa0 || u == 0x1680 || (u >= 0x2000 && u <= 0x200a)
        || u == 0x2028 || u == 0x2029 || u == 0x202f || u == 0x205f || u == 0x3000
}

/// Whether a remote path is acceptable for a direct SSH transfer.
pub fn valid_direct_remote_path(path: &str) -> (r: bool)
    ensures
        r == spec_valid_direct_remote_path(path@),
{
    let p = to_chars(path);
    let n = p.len();
    if n == 0 || n > 4096 || p[0] != '/' || p[n - 1] == '/' {
        return false;
    }
    if n == 1 {
        assert(p@ =~= seq!['/']);
        return false;
    }
    assert(p@ != seq!['/']) by {
        assert(p@.len() != 1);
    }
    let mut i: usize = 0;
    while i < n
        invariant
            n == p@.len(),
            p@ == path@,
            i <= n,
            forall|k: int| 0 <= k < i ==> is_ascii_char(#[trigger] p@[k]) && !is_ascii_control(p@[k]),
        decreases n - i,
    {
        let u = p[i] as u32;
        if u > 127 || u < 32 || u == 127 {
            assert(!(is_ascii_char(p@[i as int]) && !is_ascii_control(p@[i as int])));
            return false;
        }
        i += 1;
    }
    let slashes = to_chars("//");
    proof {
        reveal_strlit("//");
    }
    if chars_contain(&p, &slashes) {
        return false;
    }
    let segs = split_all(&p);
    let mut k: usize = 0;
    while k < segs.len()
        invariant
            k <= segs.len(),
            p@ == path@,
            segs.deep_view() == split_on_slash(p@),
            forall|j: int| 0 <= j < k ==> #[trigger] segs.deep_view()[j] != seq!['.'] && segs.deep_view()[j] != seq!['.', '.'],
        decreases segs.len() - k,
    {
        let s = &segs[k];
        assert(segs.deep_view()[k as int] == s@);
        if s.len() == 1 && s[0] == '.' {
            assert(s@ =~= seq!['.']);
            assert(split_on_slash(path@)[k as int] == seq!['.']);
            return false;
        }
        if s.len() == 2 && s[0] == '.' && s[1] == '.' {
            assert(s@ =~= seq!['.', '.']);
            assert(split_on_slash(path@)[k as int] == seq!['.', '.']);
            return false;
        }
        assert(s@ != seq!['.']) by {
            if s@ == seq!['.'] {
                assert(s@[0] == '.');
            }
        }
        assert(s@ != seq!['.', '.']) by {
            if s@ == seq!['.', '.'] {
                assert(s@[0] == '.' && s@[1] == '.');
            }
        }
        k += 1;
    }
    true
}

fn split_all(v: &Vec<char>) -> (segs: Vec<Vec<char>>)
    ensures
        segs.deep_view() == split_on_slash(v@),
{
    let segs = crate::http_path::split_segments(v, 0);
    assert(v@.subrange(0, v@.len() as int) =~= v@);
    segs
}

/// The parent directory of a remote path.
pub fn remote_parent(path: &str) -> (r: String)
    ensures
        r@ == spec_remote_parent(path@),
{
    let p = to_chars(path);
    let mut i: usize = p.len();
    assert(p@.subrange(0, p@.len() as int) =~= p@);
    while i > 0 && p[i - 1] != '/'
        invariant
            i <= p.len(),
            last_slash(p@) == last_slash(p@.subrange(0, i as int)),
        decreases i,
    {
        assert(p@.subrange(0, i as int).drop_last() =~= p@.subrange(0, i - 1));
        i -= 1;
    }
    if i == 0 {
        assert(p@.subrange(0, 0) =~= Seq::<char>::empty());
        proof {
            reveal_strlit("/");
        }
        return copy_string("/");
    }
    assert(last_slash(p@) == Some(i - 1));
    if i == 1 {
        proof {
            reveal_strlit("/");
        }
        return copy_string("/");
    }
    let mut out: Vec<char> = Vec::new();
    let mut k: usize = 0;
    while k < i - 1
        invariant
            1 < i <= p.len(),
            k <= i - 1,
            out@ == p@.subrange(0, k as int),
        decreases i - 1 - k,
    {
        out.push(p[k]);
        assert(out@ =~= p@.subrange(0, k + 1));
        k += 1;
    }
    from_chars(&out)
}

/// The label of an SSH account: its trimmed title, else its host.
pub fn ssh_account_label(detail: &JsonValue, host: &str) -> (r: String)
    ensures
        r@ == spec_ssh_account_label(*detail, host@),
{
    match detail.get_str("title") {
        Some(title) => {
            let t = trim(title);
            if t.as_str().is_empty() {
                copy_string(host)
            } else {
                t
            }
        },
        None => copy_string(host),
    }
}

/// The UUID in a string parameter; refused when it is missing or malformed.
pub fn require_uuid_parameter(parameters: &JsonValue, field: &str) -> (r: Result<u128, AgentBrokerError>)
    ensures
        match parameters.spec_get_str(field@) {
            Some(text) => match uuid_parse(text) {
                Some(id) => r matches Ok(v) && v == id,
                None => r matches Err(e) && is_invalid_parameters(e),
            },
            None => r matches Err(e) && is_invalid_parameters(e),
        },
{
    match parameters.get_str(field) {
        Some(text) => match parse_uuid(text) {
            Some(id) => Ok(id),
            None => Err(invalid_parameters("An SSH action handle is invalid.")),
        },
        None => Err(invalid_parameters("An SSH action handle is invalid.")),
    }
}

/// Checks a handle to a broker-held resource: `prefix` and 32 lower-case
/// hexadecimal digits.
pub fn validate_bound_resource_parameter(parameters: &JsonValue, field: &str, prefix: &str) -> (r: Result<(), AgentBrokerError>)
    ensures
        match parameters.spec_get_str(field@) {
            None => r matches Err(e) && is_input_insufficient(e, seq!["protected."@ + field@]),
            Some(value) => if bound_handle(value, prefix@) {
                r is Ok
            } else {
                r matches Err(e) && is_invalid_parameters(e)
            },
        },
{
    let value = match parameters.get_str(field) {
        Some(v) => v,
        None => {
            let name = concat("protected.", field);
            let fields = vec![name];
            let e = AgentBrokerError::action_input_insufficient(fields);
            proof {
                reveal_strlit("protected.");
                assert(fields@.map_values(|s: String| s@) =~= seq!["protected."@ + field@]);
            }
            return Err(e);
        },
    };
    if !starts_with(value, prefix) {
        return Err(invalid_parameters("The protected resource reference is invalid."));
    }
    let v = to_chars(value);
    let p = to_chars(prefix);
    if v.len() - p.len() != 32 {
        return Err(invalid_parameters("The protected resource reference is invalid."));
    }
    let mut i: usize = p.len();
    while i < v.len()
        invariant
            p.len() <= i <= v.len(),
            v@ == value@,
            p@ == prefix@,
            parameters.spec_get_str(field@) == Some(value@),
            forall|k: int| p@.len() <= k < i ==> is_lower_hex_char(#[trigger] v@[k]),
        decreases v.len() - i,
    {
        let u = v[i] as u32;
        if !((u >= 48 && u <= 57) || (u >= 97 && u <= 102)) {
            assert(!is_lower_hex_char(value@[i as int]));
            return Err(invalid_parameters("The protected resource reference is invalid."));
        }
        i += 1;
    }
    Ok(())
}

/// The name of a risk tier.
pub fn risk_name(risk: AgentRiskTier) -> (r: String)
    ensures
        r@ == spec_risk_name(risk),
{
    match risk {
        AgentRiskTier::R0 => copy_string("R0"),
        AgentRiskTier::R1 => copy_string("R1"),
        AgentRiskTier::R2 => copy_string("R2"),
        AgentRiskTier::R3 => copy_string("R3"),
        AgentRiskTier::R4 => copy_string("R4"),
    }
}

/// The rank of a risk tier name; an unknown name is a broker fault.
pub fn risk_rank(risk: &str) -> (r: Result<u8, AgentBrokerError>)
    ensures
        match spec_direct_risk_rank(risk@) {
            Some(k) => r matches Ok(v) && v == k,
            None => r matches Err(e) && e.code@ == "broker-unavailable"@,
        },
{
    if str_eq(risk, "R0") {
        Ok(0)
    } else if str_eq(risk, "R1") {
        Ok(1)
    } else if str_eq(risk, "R2") {
        Ok(2)
    } else if str_eq(risk, "R3") {
        Ok(3)
    } else if str_eq(risk, "R4") {
        Ok(4)
    } else {
        Err(AgentBrokerError::internal())
    }
}

fn tier_rank_exec(risk: AgentRiskTier) -> (r: u8)
    ensures
        r == tier_rank(risk),
{
    match risk {
        AgentRiskTier::R0 => 0,
        AgentRiskTier::R1 => 1,
        AgentRiskTier::R2 => 2,
        AgentRiskTier::R3 => 3,
        AgentRiskTier::R4 => 4,
    }
}

fn tier_of_rank(rank: u8) -> (r: AgentRiskTier)
    requires
        rank <= 4,
    ensures
        tier_rank(r) == rank,
{
    if rank == 0 {
        AgentRiskTier::R0
    } else if rank == 1 {
        AgentRiskTier::R1
    } else if rank == 2 {
        AgentRiskTier::R2
    } else if rank == 3 {
        AgentRiskTier::R3
    } else {
        AgentRiskTier::R4
    }
}

fn kind_in(kinds: &Vec<AgentWebRecipeKind>, kind: AgentWebRecipeKind) -> (r: bool)
    ensures
        r == kinds@.contains(kind),
{
    let mut i: usize = 0;
    while i < kinds.len()
        invariant
            i <= kinds.len(),
            forall|k: int| 0 <= k < i ==> kinds@[k] != kind,
        decreases kinds.len() - i,
    {
        if kinds[i] == kind {
            return true;
        }
        i += 1;
    }
    false
}

/// The highest risk among the recipes of the given kinds, at least `minimum`;
/// without such a recipe the connector has no rule for the protected action.
pub fn highest_web_recipe_risk(recipes: &Vec<AgentWebRecipePolicy>, kinds: &Vec<AgentWebRecipeKind>, minimum: AgentRiskTier) -> (r: Result<String, AgentBrokerError>)
    ensures
        match spec_highest_recipe_risk(recipes@, kinds@, tier_rank(minimum)) {
            Some(h) => r matches Ok(name) && name@ == rank_name(h),
            None => r matches Err(e) && is_rule_unavailable(e, "connector-managed-web"@, "protected"@),
        },
{
    let mut highest: Option<u8> = None;
    let mut i: usize = 0;
    let min_rank = tier_rank_exec(minimum);
    while i < recipes.len()
        invariant
            i <= recipes.len(),
            min_rank == tier_rank(minimum),
            highest == spec_highest_recipe_risk(recipes@.take(i as int), kinds@, min_rank),
            match highest {
                Some(h) => h <= 4,
                None => true,
            },
        decreases recipes.len() - i,
    {
        assert(recipes@.take(i + 1).drop_last() =~= recipes@.take(i as int));
        assert(recipes@.take(i + 1).last() == recipes@[i as int]);
        if kind_in(kinds, recipes[i].kind) {
            let r = tier_rank_exec(recipes[i].risk);
            highest = match highest {
                Some(h) => Some(if r > h { r } else { h }),
                None => Some(if r > min_rank { r } else { min_rank }),
            };
        }
        i += 1;
    }
    assert(recipes@.take(recipes@.len() as int) =~= recipes@);
    match highest {
        Some(h) => {
            let tier = tier_of_rank(h);
            Ok(risk_name(tier))
        },
        None => Err(AgentBrokerError::action_rule_unavailable("connector-managed-web", "protected")),
    }
}

/// Checks the parameters of a file action of a connector: only
/// `vaultmesh_result_save` with a UUID `resultRef` is accepted.
pub fn validate_connector_file_action(tool: &str, parameters: &JsonValue) -> (r: Result<(), AgentBrokerError>)
    ensures
        r is Ok <==> tool@ == "vaultmesh_result_save"@ && match parameters.spec_get_str("resultRef"@) {
            Some(text) => uuid_parse(text) is Some,
            None => false,
        },
        r matches Err(e) ==> is_invalid_parameters(e),
{
    if str_eq(tool, "vaultmesh_result_save") {
        match parameters.get_str("resultRef") {
            Some(text) => if parse_uuid(text).is_some() {
                return Ok(());
            },
            None => {},
        }
    }
    Err(invalid_parameters("The connector file action is invalid."))
}

// ----------------------------------------------------------------------------
// Managed web actions
// ----------------------------------------------------------------------------

/// What a direct action rule decides: the risk and description of an allowed
/// action, or the error that refuses it.
pub enum DirectActionOutcome {
    Allowed { risk: Seq<char>, display: Seq<char> },
    RuleUnavailable { kind: Seq<char>, tool: Seq<char> },
    InputInsufficient { fields: Seq<Seq<char>> },
    InvalidParameters,
}

/// `r` is what `o` decides.
pub open spec fn action_outcome_holds(r: Result<(String, String), AgentBrokerError>, o: DirectActionOutcome) -> bool {
    match o {
        DirectActionOutcome::Allowed { risk, display } => r matches Ok(p) && p.0@ == risk && p.1@ == display,
        DirectActionOutcome::RuleUnavailable { kind, tool } => r matches Err(e) && is_rule_unavailable(e, kind, tool),
        DirectActionOutcome::InputInsufficient { fields } => r matches Err(e) && is_input_insufficient(e, fields),
        DirectActionOutcome::InvalidParameters => r matches Err(e) && is_invalid_parameters(e),
    }
}

/// Recipes with the given name (any name for `None`) and one of the kinds.
pub open spec fn recipe_selector(name: Option<Seq<char>>, kinds: Seq<AgentWebRecipeKind>) -> spec_fn(AgentWebRecipePolicy) -> bool {
    |r: AgentWebRecipePolicy| (match name {
        Some(n) => r.name@ == n,
        None => true,
    }) && kinds.contains(r.kind)
}

/// A protected web action: a bound handle in `field`, then the highest risk of
/// the recipes of the kinds, at least `minimum`.
pub open spec fn protected_web_outcome(
    parameters: JsonValue,
    field: Seq<char>,
    prefix: Seq<char>,
    recipes: Seq<AgentWebRecipePolicy>,
    kinds: Seq<AgentWebRecipeKind>,
    minimum: u8,
    display: Seq<char>,
) -> DirectActionOutcome {
    match parameters.spec_get_str(field) {
        None => DirectActionOutcome::InputInsufficient { fields: seq!["protected."@ + field] },
        Some(v) => if !bound_handle(v, prefix) {
            DirectActionOutcome::InvalidParameters
        } else {
            match spec_highest_recipe_risk(recipes, kinds, minimum) {
                None => DirectActionOutcome::RuleUnavailable { kind: "connector-managed-web"@, tool: "protected"@ },
                Some(h) => DirectActionOutcome::Allowed { risk: rank_name(h), display },
            }
        },
    }
}

/// The recipe kind that a named web operation tool runs.
pub open spec fn web_operation_kind(tool: Seq<char>) -> Option<AgentWebRecipeKind> {
    if tool == "vaultmesh_web_navigate"@ {
        Some(AgentWebRecipeKind::Navigate)
    } else if tool == "vaultmesh_web_extract"@ {
        Some(AgentWebRecipeKind::Extract)
    } else if tool == "vaultmesh_web_act"@ {
        Some(AgentWebRecipeKind::Action)
    } else if tool == "vaultmesh_web_download"@ {
        Some(AgentWebRecipeKind::Download)
    } else {
        None
    }
}

/// The verb that describes a named web operation.
pub open spec fn web_verb(kind: AgentWebRecipeKind) -> Seq<char> {
    match kind {
        AgentWebRecipeKind::Navigate => "导航"@,
        AgentWebRecipeKind::Extract => "提取"@,
        AgentWebRecipeKind::Action => "执行网站动作"@,
        _ => "下载"@,
    }
}

/// A named recipe of a managed web connector: its risk and `prefix` and its
/// name as the description.
pub open spec fn named_recipe_outcome(
    recipes: Seq<AgentWebRecipePolicy>,
    selector: spec_fn(AgentWebRecipePolicy) -> bool,
    tool: Seq<char>,
    prefix: Seq<char>,
) -> DirectActionOutcome {
    match first_recipe(recipes, selector) {
        None => DirectActionOutcome::RuleUnavailable { kind: "connector-managed-web"@, tool },
        Some(i) => DirectActionOutcome::Allowed { risk: spec_risk_name(recipes[i].risk), display: prefix + recipes[i].name@ },
    }
}

/// The risk and description of an action of a managed web connector.
pub open spec fn spec_direct_web_action(
    tool: Seq<char>,
    operation: Option<Seq<char>>,
    parameters: JsonValue,
    recipes: Seq<AgentWebRecipePolicy>,
) -> DirectActionOutcome {
    if tool == "vaultmesh_web_session_close"@ {
        DirectActionOutcome::Allowed { risk: "R1"@, display: "关闭隔离网站会话"@ }
    } else if tool == "vaultmesh_result_save"@ {
        DirectActionOutcome::Allowed { risk: "R2"@, display: "保存网站下载结果"@ }
    } else if tool == "vaultmesh_otp_fill"@ {
        protected_web_outcome(
            parameters,
            "targetRef"@,
            "webt_"@,
            recipes,
            seq![AgentWebRecipeKind::Totp, AgentWebRecipeKind::EmailOtp],
            2,
            "向绑定网站目标提交一次性验证码"@,
        )
    } else if tool == "vaultmesh_recovery_code_consume"@ {
        protected_web_outcome(
            parameters,
            "targetRef"@,
            "webt_"@,
            recipes,
            seq![AgentWebRecipeKind::RecoveryCode],
            3,
            "向绑定网站目标提交并消费恢复码"@,
        )
    } else if tool == "vaultmesh_passkey_perform"@ {
        protected_web_outcome(
            parameters,
            "requestRef"@,
            "webauthn_"@,
            recipes,
            seq![AgentWebRecipeKind::PasskeyRegistration, AgentWebRecipeKind::PasskeyAssertion],
            3,
            "完成绑定页面发起的 Passkey 请求"@,
        )
    } else if tool == "vaultmesh_web_session_open"@ {
        match first_recipe(recipes, recipe_selector(None, seq![AgentWebRecipeKind::Login])) {
            None => DirectActionOutcome::RuleUnavailable { kind: "connector-managed-web"@, tool },
            Some(i) => DirectActionOutcome::Allowed { risk: spec_risk_name(recipes[i].risk), display: "打开并登录隔离网站会话"@ },
        }
    } else {
        match operation {
            None => DirectActionOutcome::InputInsufficient { fields: seq!["web.operation"@] },
            Some(op) => if tool == "vaultmesh_passkey_request_begin"@ {
                named_recipe_outcome(
                    recipes,
                    recipe_selector(Some(op), seq![AgentWebRecipeKind::PasskeyRegistration, AgentWebRecipeKind::PasskeyAssertion]),
                    tool,
                    "捕获 Passkey 请求："@,
                )
            } else {
                match web_operation_kind(tool) {
                    None => DirectActionOutcome::RuleUnavailable { kind: "connector-managed-web"@, tool },
                    Some(k) => named_recipe_outcome(recipes, recipe_selector(Some(op), seq![k]), tool, web_verb(k) + "："@),
                }
            },
        }
    }
}

fn find_recipe(recipes: &Vec<AgentWebRecipePolicy>, name: Option<&str>, kinds: &Vec<AgentWebRecipeKind>) -> (r: Option<usize>)
    ensures
        match r {
            Some(i) => i < recipes.len() && first_recipe(recipes@, recipe_selector(opt_ref_view(name), kinds@)) == Some(i as int),
            None => first_recipe(recipes@, recipe_selector(opt_ref_view(name), kinds@)) is None,
        },
{
    let ghost pred = recipe_selector(opt_ref_view(name), kinds@);
    let mut i: usize = 0;
    while i < recipes.len()
        invariant
            i <= recipes.len(),
            pred == recipe_selector(opt_ref_view(name), kinds@),
            first_recipe(recipes@.take(i as int), pred) is None,
        decreases recipes.len() - i,
    {
        assert(recipes@.take(i + 1).drop_last() =~= recipes@.take(i as int));
        assert(recipes@.take(i + 1).last() == recipes@[i as int]);
        let name_ok = match name {
            Some(n) => str_eq(recipes[i].name.as_str(), n),
            None => true,
        };
        if name_ok && kind_in(kinds, recipes[i].kind) {
            proof {
                lemma_first_recipe_prefix(recipes@, pred, i as int);
            }
            return Some(i);
        }
        i += 1;
    }
    assert(recipes@.take(recipes@.len() as int) =~= recipes@);
    None
}

proof fn lemma_first_recipe_prefix(recipes: Seq<AgentWebRecipePolicy>, pred: spec_fn(AgentWebRecipePolicy) -> bool, i: int)
    requires
        0 <= i < recipes.len(),
        first_recipe(recipes.take(i), pred) is None,
        pred(recipes[i]),
    ensures
        first_recipe(recipes, pred) == Some(i),
    decreases recipes.len(),
{
    assert(recipes.take(i + 1).drop_last() =~= recipes.take(i));
    if i + 1 < recipes.len() {
        assert(recipes.drop_last().take(i) =~= recipes.take(i));
        lemma_first_recipe_prefix(recipes.drop_last(), pred, i);
    } else {
        assert(recipes.drop_last() =~= recipes.take(i));
    }
}

fn protected_web_action(
    parameters: &JsonValue,
    field: &str,
    prefix: &str,
    recipes: &Vec<AgentWebRecipePolicy>,
    kinds: Vec<AgentWebRecipeKind>,
    minimum: AgentRiskTier,
    display: &str,
) -> (r: Result<(String, String), AgentBrokerError>)
    ensures
        action_outcome_holds(r, protected_web_outcome(*parameters, field@, prefix@, recipes@, kinds@, tier_rank(minimum), display@)),
{
    match validate_bound_resource_parameter(parameters, field, prefix) {
        Err(e) => Err(e),
        Ok(()) => match highest_web_recipe_risk(recipes, &kinds, minimum) {
            Ok(risk) => Ok((risk, copy_string(display))),
            Err(e) => Err(e),
        },
    }
}

fn named_web_action(
    recipes: &Vec<AgentWebRecipePolicy>,
    operation: &str,
    kinds: Vec<AgentWebRecipeKind>,
    tool: &str,
    prefix: &str,
) -> (r: Result<(String, String), AgentBrokerError>)
    ensures
        action_outcome_holds(r, named_recipe_outcome(recipes@, recipe_selector(Some(operation@), kinds@), tool@, prefix@)),
{
    assert(opt_ref_view(Some(operation)) == Some(operation@));
    match find_recipe(recipes, Some(operation), &kinds) {
        None => Err(AgentBrokerError::action_rule_unavailable("connector-managed-web", tool)),
        Some(i) => {
            let display = concat(prefix, recipes[i].name.as_str());
            Ok((risk_name(recipes[i].risk), display))
        },
    }
}

/// The risk and description of an action of a managed web connector, from
/// the connector's recipes; refused when no recipe allows the action.
pub fn direct_web_action(
    tool: &str,
    operation: Option<&str>,
    parameters: &JsonValue,
    recipes: &Vec<AgentWebRecipePolicy>,
) -> (r: Result<(String, String), AgentBrokerError>)
    ensures
        action_outcome_holds(r, spec_direct_web_action(tool@, opt_ref_view(operation), *parameters, recipes@)),
{
    if str_eq(tool, "vaultmesh_web_session_close") {
        return Ok((copy_string("R1"), copy_string("关闭隔离网站会话")));
    }
    if str_eq(tool, "vaultmesh_result_save") {
        return Ok((copy_string("R2"), copy_string("保存网站下载结果")));
    }
    if str_eq(tool, "vaultmesh_otp_fill") {
        let kinds = vec![AgentWebRecipeKind::Totp, AgentWebRecipeKind::EmailOtp];
        proof {
            assert(kinds@ =~= seq![AgentWebRecipeKind::Totp, AgentWebRecipeKind::EmailOtp]);
        }
        return protected_web_action(
            parameters,
            "targetRef",
            "webt_",
            recipes,
            kinds,
            AgentRiskTier::R2,
            "向绑定网站目标提交一次性验证码",
        );
    }
    if str_eq(tool, "vaultmesh_recovery_code_consume") {
        let kinds = vec![AgentWebRecipeKind::RecoveryCode];
        proof {
            assert(kinds@ =~= seq![AgentWebRecipeKind::RecoveryCode]);
        }
        return protected_web_action(
            parameters,
            "targetRef",
            "webt_",
            recipes,
            kinds,
            AgentRiskTier::R3,
            "向绑定网站目标提交并消费恢复码",
        );
    }
    if str_eq(tool, "vaultmesh_passkey_perform") {
        let kinds = vec![AgentWebRecipeKind::PasskeyRegistration, AgentWebRecipeKind::PasskeyAssertion];
        proof {
            assert(kinds@ =~= seq![AgentWebRecipeKind::PasskeyRegistration, AgentWebRecipeKind::PasskeyAssertion]);
        }
        return protected_web_action(
            parameters,
            "requestRef",
            "webauthn_",
            recipes,
            kinds,
            AgentRiskTier::R3,
            "完成绑定页面发起的 Passkey 请求",
        );
    }
    if str_eq(tool, "vaultmesh_web_session_open") {
        let kinds = vec![AgentWebRecipeKind::Login];
        proof {
            assert(kinds@ =~= seq![AgentWebRecipeKind::Login]);
        }
        assert(opt_ref_view(None) == None::<Seq<char>>);
        return match find_recipe(recipes, None, &kinds) {
            None => Err(AgentBrokerError::action_rule_unavailable("connector-managed-web", tool)),
            Some(i) => Ok((risk_name(recipes[i].risk), copy_string("打开并登录隔离网站会话"))),
        };
    }
    let op = match operation {
        Some(op) => op,
        None => {
            let fields = vec![copy_string("web.operation")];
            proof {
                assert(fields@.map_values(|s: String| s@) =~= seq!["web.operation"@]);
            }
            return Err(AgentBrokerError::action_input_insufficient(fields));
        },
    };
    if str_eq(tool, "vaultmesh_passkey_request_begin") {
        let kinds = vec![AgentWebRecipeKind::PasskeyRegistration, AgentWebRecipeKind::PasskeyAssertion];
        proof {
            assert(kinds@ =~= seq![AgentWebRecipeKind::PasskeyRegistration, AgentWebRecipeKind::PasskeyAssertion]);
        }
        return named_web_action(
            recipes,
            op,
            kinds,
            tool,
            "捕获 Passkey 请求：",
        );
    }
    let (kind, verb) = if str_eq(tool, "vaultmesh_web_navigate") {
        (AgentWebRecipeKind::Navigate, "导航：")
    } else if str_eq(tool, "vaultmesh_web_extract") {
        (AgentWebRecipeKind::Extract, "提取：")
    } else if str_eq(tool, "vaultmesh_web_act") {
        (AgentWebRecipeKind::Action, "执行网站动作：")
    } else if str_eq(tool, "vaultmesh_web_download") {
        (AgentWebRecipeKind::Download, "下载：")
    } else {
        return Err(AgentBrokerError::action_rule_unavailable("connector-managed-web", tool));
    };
    proof {
        reveal_strlit("导航：");
        reveal_strlit("提取：");
        reveal_strlit("执行网站动作：");
        reveal_strlit("下载：");
        reveal_strlit("导航");
        reveal_strlit("提取");
        reveal_strlit("执行网站动作");
        reveal_strlit("下载");
        reveal_strlit("：");
        assert(verb@ == web_verb(kind) + "："@);
    }
    let kinds = vec![kind];
    proof {
        assert(kinds@ =~= seq![kind]);
    }
    named_web_action(recipes, op, kinds, tool, verb)
}

} // verus!
