//! The account catalog as the Agent sees it: the checks that a catalog read
//! from the Vault must pass, the parameters of an account page, which
//! candidates a page lists, and the window of entries one page shows.
use vstd::prelude::*;
use std::collections::HashSet;
use crate::direct_permission::AgentVaultAccountCandidate;
use crate::direct_policy::{trim, trimmed};
use crate::direct_ssh::is_control_char;
use crate::error::AgentBrokerError;
use crate::json::JsonValue;
use crate::model::AgentRegistry;
use crate::request_gate::utf16_len;
use crate::text::{concat, decimal, decimal_text, to_chars};
use crate::text_order::string_texts;
use crate::web::{parse_url, parsed_url};

verus! {

broadcast use vstd::string::group_string_axioms, vstd::std_specs::hash::group_hash_axioms;

/// The most API environments a catalog may hold.
pub const MAX_API_ENVIRONMENTS: usize = 10000;

/// The most Vault account candidates a catalog may hold.
pub const MAX_ACCOUNT_CANDIDATES: usize = 50000;

/// The most connector definitions a catalog may hold.
pub const MAX_CONNECTOR_DEFINITIONS: usize = 256;

/// An API environment that the Agent may discover.
#[derive(Clone, Debug)]
pub struct AgentApiEnvironmentCandidate {
    pub environment_ref: u128,
    pub label: String,
    pub environment: String,
    pub capability: String,
    pub openapi_url: Option<String>,
    pub revision: u64,
    pub policy_digest: String,
}

// ----------------------------------------------------------------------------
// Specification
// ----------------------------------------------------------------------------

/// No character of `s` is a control character.
pub open spec fn free_of_controls(s: Seq<char>) -> bool {
    forall|i: int| 0 <= i < s.len() ==> !is_control_char(#[trigger] s[i])
}

/// An ASCII hexadecimal digit.
pub open spec fn is_hex_digit(c: char) -> bool {
    ('0' <= c && c <= '9') || ('a' <= c && c <= 'f') || ('A' <= c && c <= 'F')
}

/// A label the Agent may be shown: not empty, at most 128 UTF-16 units, no
/// control character.
pub open spec fn catalog_label_valid(label: Seq<char>) -> bool {
    label.len() > 0 && utf16_len(label) <= 128 && free_of_controls(label)
}

/// The environments an API environment may belong to.
pub open spec fn api_environment_name_valid(e: Seq<char>) -> bool {
    e == "production"@ || e == "staging"@ || e == "development"@ || e == "local"@ || e == "other"@
}

/// An OpenAPI document address the Agent may be shown: at most 2048 UTF-16
/// units, no control character, and a URL of the `http` or `https` scheme
/// with a host and without credentials.
pub open spec fn openapi_url_valid(u: Seq<char>) -> bool {
    &&& utf16_len(u) <= 2048
    &&& free_of_controls(u)
    &&& parsed_url(u) matches Some(p)
    &&& (p.scheme == "http"@ || p.scheme == "https"@)
    &&& p.username.len() == 0
    &&& p.password is None
    &&& p.host is Some
}

/// An API environment that passes the catalog checks.
pub open spec fn api_environment_valid(c: AgentApiEnvironmentCandidate) -> bool {
    &&& catalog_label_valid(c.label@)
    &&& api_environment_name_valid(c.environment@)
    &&& c.capability@ == "http"@
    &&& c.policy_digest@.len() == 64
    &&& forall|i: int| 0 <= i < 64 ==> is_hex_digit(#[trigger] c.policy_digest@[i])
    &&& (c.openapi_url matches Some(u) ==> openapi_url_valid(u@))
}

/// No two API environments share a reference.
pub open spec fn environment_refs_distinct(cs: Seq<AgentApiEnvironmentCandidate>) -> bool {
    forall|i: int, j: int| 0 <= i < j < cs.len() ==> (#[trigger] cs[i]).environment_ref != (#[trigger] cs[j]).environment_ref
}

/// The kinds of Vault account that the catalog lists.
pub open spec fn account_kind_valid(kind: Seq<char>) -> bool {
    kind == "login"@ || kind == "ssh"@ || kind == "secret"@
}

/// A Vault account candidate that passes the catalog checks.
pub open spec fn account_candidate_valid(c: AgentVaultAccountCandidate) -> bool {
    account_kind_valid(c.kind@) && catalog_label_valid(c.label@)
}

/// No two Vault account candidates share a reference.
pub open spec fn account_refs_distinct(cs: Seq<AgentVaultAccountCandidate>) -> bool {
    forall|i: int, j: int| 0 <= i < j < cs.len() ==> (#[trigger] cs[i]).account_ref != (#[trigger] cs[j]).account_ref
}

/// An error that is not worth retrying, with code `code`.
pub open spec fn is_final_error(e: AgentBrokerError, code: Seq<char>) -> bool {
    e.code@ == code && !e.retryable
}

// ----------------------------------------------------------------------------
// Catalog checks
// ----------------------------------------------------------------------------

fn catalog_error(code: &'static str, message: &'static str) -> (e: AgentBrokerError)
    ensures
        e.code@ == code@,
        e.message@ == message@,
        !e.retryable,
{
    AgentBrokerError::new(code, message, false)
}

fn label_valid(label: &str) -> (r: bool)
    ensures
        r == catalog_label_valid(label@),
{
    let chars = to_chars(label);
    if chars.len() == 0 {
        return false;
    }
    let mut units: usize = 0;
    let mut i: usize = 0;
    while i < chars.len()
        invariant
            i <= chars.len(),
            chars@ == label@,
            units as int == utf16_len(label@.take(i as int)),
            units <= 128,
            forall|k: int| 0 <= k < i ==> !is_control_char(#[trigger] label@[k]),
        decreases chars.len() - i,
    {
        let c = chars[i];
        let u = c as u32;
        assert(label@.take(i + 1).drop_last() =~= label@.take(i as int));
        let width: usize = if u >= 0x10000 { 2 } else { 1 };
        if units + width > 128 {
            proof {
                lemma_utf16_prefix_le(label@, i + 1);
            }
            return false;
        }
        units = units + width;
        if u <= 0x1f || (u >= 0x7f && u <= 0x9f) {
            assert(is_control_char(label@[i as int]));
            return false;
        }
        i += 1;
    }
    assert(label@.take(label@.len() as int) =~= label@);
    true
}

/// The UTF-16 length of a text is at least that of each of its prefixes.
proof fn lemma_utf16_prefix_le(s: Seq<char>, k: int)
    requires
        0 <= k <= s.len(),
    ensures
        utf16_len(s.take(k)) <= utf16_len(s),
    decreases s.len(),
{
    if k < s.len() {
        assert(s.drop_last().take(k) =~= s.take(k));
        lemma_utf16_prefix_le(s.drop_last(), k);
    } else {
        assert(s.take(k) =~= s);
    }
}

fn text_is(s: &str, lit: &str) -> (r: bool)
    ensures
        r == (s@ == lit@),
{
    crate::text::str_eq(s, lit)
}

pub(crate) fn controls_absent(s: &str) -> (r: bool)
    ensures
        r == free_of_controls(s@),
{
    let chars = to_chars(s);
    let mut i: usize = 0;
    while i < chars.len()
        invariant
            i <= chars.len(),
            chars@ == s@,
            forall|k: int| 0 <= k < i ==> !is_control_char(#[trigger] s@[k]),
        decreases chars.len() - i,
    {
        let u = chars[i] as u32;
        if u <= 0x1f || (u >= 0x7f && u <= 0x9f) {
            assert(is_control_char(s@[i as int]));
            return false;
        }
        i += 1;
    }
    true
}

fn utf16_at_most(s: &str, limit: usize) -> (r: bool)
    ensures
        r == (utf16_len(s@) <= limit),
{
    let chars = to_chars(s);
    let mut units: usize = 0;
    let mut i: usize = 0;
    while i < chars.len()
        invariant
            i <= chars.len(),
            chars@ == s@,
            units as int == utf16_len(s@.take(i as int)),
            units <= limit,
        decreases chars.len() - i,
    {
        assert(s@.take(i + 1).drop_last() =~= s@.take(i as int));
        let width: usize = if (chars[i] as u32) >= 0x10000 { 2 } else { 1 };
        if width > limit - units {
            proof {
                lemma_utf16_prefix_le(s@, i + 1);
            }
            return false;
        }
        units = units + width;
        i += 1;
    }
    assert(s@.take(s@.len() as int) =~= s@);
    true
}

fn openapi_url_ok(u: &str) -> (r: bool)
    ensures
        r == openapi_url_valid(u@),
{
    proof {
        reveal_strlit("http");
        reveal_strlit("https");
    }
    if !utf16_at_most(u, 2048) || !controls_absent(u) {
        return false;
    }
    match parse_url(u) {
        Some(p) => (text_is(p.scheme.as_str(), "http") || text_is(p.scheme.as_str(), "https")) && to_chars(p.username.as_str()).len() == 0
            && p.password.is_none() && p.host.is_some(),
        None => false,
    }
}

fn digest_ok(d: &str) -> (r: bool)
    ensures
        r == (d@.len() == 64 && forall|i: int| 0 <= i < 64 ==> is_hex_digit(#[trigger] d@[i])),
{
    let chars = to_chars(d);
    if chars.len() != 64 {
        return false;
    }
    let mut i: usize = 0;
    while i < 64
        invariant
            i <= 64,
            chars@ == d@,
            d@.len() == 64,
            forall|k: int| 0 <= k < i ==> is_hex_digit(#[trigger] d@[k]),
        decreases 64 - i,
    {
        let c = chars[i];
        if !(('0' <= c && c <= '9') || ('a' <= c && c <= 'f') || ('A' <= c && c <= 'F')) {
            return false;
        }
        i += 1;
    }
    true
}

fn environment_name_ok(e: &str) -> (r: bool)
    ensures
        r == api_environment_name_valid(e@),
{
    text_is(e, "production") || text_is(e, "staging") || text_is(e, "development") || text_is(e, "local") || text_is(
        e,
        "other",
    )
}

fn api_environment_ok(c: &AgentApiEnvironmentCandidate) -> (r: bool)
    ensures
        r == api_environment_valid(*c),
{
    label_valid(c.label.as_str()) && environment_name_ok(c.environment.as_str()) && text_is(c.capability.as_str(), "http")
        && digest_ok(c.policy_digest.as_str()) && match &c.openapi_url {
        Some(u) => openapi_url_ok(u.as_str()),
        None => true,
    }
}

/// Checks the API environments that a catalog returned: at most
/// `MAX_API_ENVIRONMENTS` (`account-catalog-too-large`), each valid and
/// none twice (`invalid-account-catalog`).
pub fn check_api_environment_catalog(candidates: &Vec<AgentApiEnvironmentCandidate>) -> (r: Result<(), AgentBrokerError>)
    ensures
        candidates.len() > MAX_API_ENVIRONMENTS ==> (r matches Err(e) && is_final_error(e, "account-catalog-too-large"@)),
        candidates.len() <= MAX_API_ENVIRONMENTS ==> {
            &&& r is Ok <==> (environment_refs_distinct(candidates@)
                && forall|i: int| 0 <= i < candidates.len() ==> api_environment_valid(#[trigger] candidates@[i]))
            &&& r matches Err(e) ==> is_final_error(e, "invalid-account-catalog"@)
        },
{
    if candidates.len() > MAX_API_ENVIRONMENTS {
        return Err(catalog_error("account-catalog-too-large", "The API environment catalog exceeds the supported size."));
    }
    let mut seen: HashSet<u128> = HashSet::new();
    let mut i: usize = 0;
    while i < candidates.len()
        invariant
            i <= candidates.len(),
            candidates.len() <= MAX_API_ENVIRONMENTS,
            seen@ == Set::new(|r: u128| exists|k: int| 0 <= k < i && (#[trigger] candidates@[k]).environment_ref == r),
            environment_refs_distinct(candidates@.take(i as int)),
            forall|k: int| 0 <= k < i ==> api_environment_valid(#[trigger] candidates@[k]),
        decreases candidates.len() - i,
    {
        let c = &candidates[i];
        let fresh = seen.insert(c.environment_ref);
        if !fresh || !api_environment_ok(c) {
            proof {
                if !fresh {
                    let k = choose|k: int| 0 <= k < i && (#[trigger] candidates@[k]).environment_ref == c.environment_ref;
                    assert(!environment_refs_distinct(candidates@)) by {
                        assert(candidates@[k].environment_ref == candidates@[i as int].environment_ref);
                    }
                }
            }
            return Err(catalog_error("invalid-account-catalog", "The API environment catalog is invalid."));
        }
        proof {
            assert(seen@ =~= Set::new(|r: u128| exists|k: int| 0 <= k < i + 1 && (#[trigger] candidates@[k]).environment_ref == r)) by {
                assert forall|r: u128| seen@.contains(r) implies exists|k: int| 0 <= k < i + 1 && (#[trigger] candidates@[k]).environment_ref == r by {
                    if r == c.environment_ref {
                        assert(candidates@[i as int].environment_ref == r);
                    }
                }
            }
            assert(environment_refs_distinct(candidates@.take(i + 1))) by {
                let t = candidates@.take(i + 1);
                assert forall|a: int, b: int| 0 <= a < b < t.len() implies (#[trigger] t[a]).environment_ref != (#[trigger] t[b]).environment_ref by {
                    if b == i {
                        if t[a].environment_ref == t[b].environment_ref {
                            assert(candidates@[a].environment_ref == c.environment_ref);
                        }
                    } else {
                        assert(candidates@.take(i as int)[a] == t[a]);
                        assert(candidates@.take(i as int)[b] == t[b]);
                    }
                }
            }
        }
        i += 1;
    }
    assert(candidates@.take(candidates.len() as int) =~= candidates@);
    Ok(())
}

/// Checks the size of an account catalog: at most
/// `MAX_CONNECTOR_DEFINITIONS` connector definitions and
/// `MAX_ACCOUNT_CANDIDATES` candidates (`account-catalog-too-large`).
pub fn check_account_catalog_size(definitions: usize, candidates: usize) -> (r: Result<(), AgentBrokerError>)
    ensures
        r is Ok <==> (definitions <= MAX_CONNECTOR_DEFINITIONS && candidates <= MAX_ACCOUNT_CANDIDATES),
        r matches Err(e) ==> is_final_error(e, "account-catalog-too-large"@),
{
    if definitions > MAX_CONNECTOR_DEFINITIONS || candidates > MAX_ACCOUNT_CANDIDATES {
        return Err(catalog_error("account-catalog-too-large", "The Vault account catalog exceeds the supported size."));
    }
    Ok(())
}

fn account_kind_ok(kind: &str) -> (r: bool)
    ensures
        r == account_kind_valid(kind@),
{
    text_is(kind, "login") || text_is(kind, "ssh") || text_is(kind, "secret")
}

/// Checks the Vault account candidates of a catalog: each of a listed
/// kind with a valid label, and none twice (`invalid-account-catalog`).
pub fn check_account_candidates(candidates: &Vec<AgentVaultAccountCandidate>) -> (r: Result<(), AgentBrokerError>)
    ensures
        r is Ok <==> (account_refs_distinct(candidates@)
            && forall|i: int| 0 <= i < candidates.len() ==> account_candidate_valid(#[trigger] candidates@[i])),
        r matches Err(e) ==> is_final_error(e, "invalid-account-catalog"@),
{
    let mut seen: HashSet<u128> = HashSet::new();
    let mut i: usize = 0;
    while i < candidates.len()
        invariant
            i <= candidates.len(),
            seen@ == Set::new(|r: u128| exists|k: int| 0 <= k < i && (#[trigger] candidates@[k]).account_ref == r),
            account_refs_distinct(candidates@.take(i as int)),
            forall|k: int| 0 <= k < i ==> account_candidate_valid(#[trigger] candidates@[k]),
        decreases candidates.len() - i,
    {
        let c = &candidates[i];
        let fresh = seen.insert(c.account_ref);
        if !fresh || !account_kind_ok(c.kind.as_str()) || !label_valid(c.label.as_str()) {
            proof {
                if !fresh {
                    let k = choose|k: int| 0 <= k < i && (#[trigger] candidates@[k]).account_ref == c.account_ref;
                    assert(!account_refs_distinct(candidates@)) by {
                        assert(candidates@[k].account_ref == candidates@[i as int].account_ref);
                    }
                }
            }
            return Err(catalog_error("invalid-account-catalog", "The Vault account catalog is invalid."));
        }
        proof {
            assert(seen@ =~= Set::new(|r: u128| exists|k: int| 0 <= k < i + 1 && (#[trigger] candidates@[k]).account_ref == r)) by {
                assert forall|r: u128| seen@.contains(r) implies exists|k: int| 0 <= k < i + 1 && (#[trigger] candidates@[k]).account_ref == r by {
                    if r == c.account_ref {
                        assert(candidates@[i as int].account_ref == r);
                    }
                }
            }
            assert(account_refs_distinct(candidates@.take(i + 1))) by {
                let t = candidates@.take(i + 1);
                assert forall|a: int, b: int| 0 <= a < b < t.len() implies (#[trigger] t[a]).account_ref != (#[trigger] t[b]).account_ref by {
                    if b == i {
                        if t[a].account_ref == t[b].account_ref {
                            assert(candidates@[a].account_ref == c.account_ref);
                        }
                    } else {
                        assert(candidates@.take(i as int)[a] == t[a]);
                        assert(candidates@.take(i as int)[b] == t[b]);
                    }
                }
            }
        }
        i += 1;
    }
    assert(candidates@.take(candidates.len() as int) =~= candidates@);
    Ok(())
}


// ----------------------------------------------------------------------------
// Page parameters
// ----------------------------------------------------------------------------

/// The lower-case form of `text` that `str::to_lowercase` gives.
pub uninterp spec fn lowercase_text(text: Seq<char>) -> Seq<char>;

/// Lower-cases a text (`str::to_lowercase`).
///
/// Trusted: the result is the one named by `lowercase_text`.
#[verifier::external_body]
pub(crate) fn to_lowercase(text: &str) -> (r: String)
    ensures
        r@ == lowercase_text(text@),
{
    text.to_lowercase()
}

/// How many accounts a page shows when the call does not say.
pub const DEFAULT_PAGE_LIMIT: u64 = 50;

/// What a call asks of an account page: how many entries, from where, and
/// the filters on text, kind, capability and environment.
#[derive(Debug)]
pub struct AccountPageQuery {
    pub limit: u64,
    pub cursor: Option<String>,
    pub query: Option<String>,
    pub kinds: Vec<String>,
    pub capabilities: Vec<String>,
    pub environments: Vec<String>,
}

/// The page size asked for: the `limit` member when it is an unsigned
/// 64-bit integer, else `DEFAULT_PAGE_LIMIT`.
pub open spec fn spec_page_limit(p: JsonValue) -> u64 {
    match p.spec_get("limit"@) {
        Some(JsonValue::Integer(n)) => if 0 <= n <= u64::MAX { n as u64 } else { DEFAULT_PAGE_LIMIT },
        _ => DEFAULT_PAGE_LIMIT,
    }
}

/// The texts of a filter member: empty when the member is not an array,
/// `None` when an item of the array is not a string.
pub open spec fn spec_string_filter(p: JsonValue, field: Seq<char>) -> Option<Seq<Seq<char>>> {
    match p.spec_get(field) {
        Some(JsonValue::Array(items)) => if forall|i: int| 0 <= i < items@.len() ==> (#[trigger] items@[i]).spec_str() is Some {
            Some(Seq::new(items@.len(), |i: int| items@[i].spec_str()->0))
        } else {
            None
        },
        _ => Some(Seq::empty()),
    }
}

/// The text filter: the `query` member trimmed and lower-cased, if it is a
/// string that is not blank.
pub open spec fn spec_page_query(p: JsonValue) -> Option<Seq<char>> {
    match p.spec_get_str("query"@) {
        Some(q) => if trimmed(q).len() == 0 { None } else { Some(lowercase_text(trimmed(q))) },
        None => None,
    }
}

/// The kinds of entry an account page can list.
pub open spec fn page_kind_valid(kind: Seq<char>) -> bool {
    kind == "login"@ || kind == "ssh"@ || kind == "secret"@ || kind == "api-environment"@
}

/// Some tool of the registry has capability `c`.
pub open spec fn registry_has_capability(registry: AgentRegistry, c: Seq<char>) -> bool {
    exists|i: int| 0 <= i < registry.tools@.len() && (#[trigger] registry.tools@[i]).capability@ == c
}

/// An `invalid-parameters` error with message `message`.
pub open spec fn is_parameter_error(e: AgentBrokerError, message: Seq<char>) -> bool {
    e.code@ == "invalid-parameters"@ && e.message@ == message && !e.retryable
}

fn parameter_error(message: &'static str) -> (e: AgentBrokerError)
    ensures
        is_parameter_error(e, message@),
{
    AgentBrokerError::new("invalid-parameters", message, false)
}

fn page_limit(p: &JsonValue) -> (r: u64)
    ensures
        r == spec_page_limit(*p),
{
    match p.get("limit") {
        Some(JsonValue::Integer(n)) => if 0 <= *n && *n <= u64::MAX as i128 { *n as u64 } else { DEFAULT_PAGE_LIMIT },
        _ => DEFAULT_PAGE_LIMIT,
    }
}

fn string_filter(p: &JsonValue, field: &str) -> (r: Option<Vec<String>>)
    ensures
        match spec_string_filter(*p, field@) {
            Some(t) => r matches Some(v) && string_texts(v@) == t,
            None => r is None,
        },
{
    match p.get(field) {
        Some(JsonValue::Array(items)) => {
            let mut out: Vec<String> = Vec::new();
            let mut i: usize = 0;
            while i < items.len()
                invariant
                    i <= items.len(),
                    out.len() == i,
                    p.spec_get(field@) == Some(JsonValue::Array(*items)),
                    forall|k: int| 0 <= k < i ==> (#[trigger] items@[k]).spec_str() == Some(out@[k]@),
                decreases items.len() - i,
            {
                match items[i].as_str() {
                    Some(t) => out.push(t.to_string()),
                    None => {
                        assert(items@[i as int].spec_str() is None);
                        assert(spec_string_filter(*p, field@) is None);
                        return None;
                    },
                }
                i += 1;
            }
            assert(string_texts(out@) =~= Seq::new(items@.len(), |i: int| items@[i].spec_str()->0));
            Some(out)
        },
        _ => {
            let out: Vec<String> = Vec::new();
            assert(string_texts(out@) =~= Seq::<Seq<char>>::empty());
            Some(out)
        },
    }
}

fn page_query_text(p: &JsonValue) -> (r: Option<String>)
    ensures
        opt_text(r) == spec_page_query(*p),
{
    match p.get_str("query") {
        Some(q) => {
            let t = trim(q);
            if to_chars(t.as_str()).len() == 0 {
                None
            } else {
                Some(to_lowercase(t.as_str()))
            }
        },
        None => None,
    }
}

/// The text of an optional string.
pub open spec fn opt_text(o: Option<String>) -> Option<Seq<char>> {
    match o {
        Some(s) => Some(s@),
        None => None,
    }
}

fn kinds_valid(kinds: &Vec<String>) -> (r: bool)
    ensures
        r == forall|i: int| 0 <= i < kinds.len() ==> page_kind_valid(#[trigger] kinds@[i]@),
{
    let mut i: usize = 0;
    while i < kinds.len()
        invariant
            i <= kinds.len(),
            forall|k: int| 0 <= k < i ==> page_kind_valid(#[trigger] kinds@[k]@),
        decreases kinds.len() - i,
    {
        let k = kinds[i].as_str();
        if !(text_is(k, "login") || text_is(k, "ssh") || text_is(k, "secret") || text_is(k, "api-environment")) {
            return false;
        }
        i += 1;
    }
    true
}

fn capability_known(registry: &AgentRegistry, c: &str) -> (r: bool)
    ensures
        r == registry_has_capability(*registry, c@),
{
    let mut i: usize = 0;
    while i < registry.tools.len()
        invariant
            i <= registry.tools.len(),
            forall|k: int| 0 <= k < i ==> (#[trigger] registry.tools@[k]).capability@ != c@,
        decreases registry.tools.len() - i,
    {
        if text_is(registry.tools[i].capability.as_str(), c) {
            return true;
        }
        i += 1;
    }
    false
}

fn capabilities_known(registry: &AgentRegistry, capabilities: &Vec<String>) -> (r: bool)
    ensures
        r == forall|i: int| 0 <= i < capabilities.len() ==> registry_has_capability(*registry, #[trigger] capabilities@[i]@),
{
    let mut i: usize = 0;
    while i < capabilities.len()
        invariant
            i <= capabilities.len(),
            forall|k: int| 0 <= k < i ==> registry_has_capability(*registry, #[trigger] capabilities@[k]@),
        decreases capabilities.len() - i,
    {
        if !capability_known(registry, capabilities[i].as_str()) {
            return false;
        }
        i += 1;
    }
    true
}

/// Reads what a call asks of an account page. Refused with
/// `invalid-parameters`, in this order: a page size outside 1 to 100; a
/// kind filter with an item that is not a string, or a kind that no entry
/// has; a capability or environment filter with an item that is not a
/// string; a capability that no tool of the registry has.
pub fn account_page_query(registry: &AgentRegistry, parameters: &JsonValue) -> (r: Result<AccountPageQuery, AgentBrokerError>)
    ensures
        ({
            let limit = spec_page_limit(*parameters);
            let kinds = spec_string_filter(*parameters, "kinds"@);
            let capabilities = spec_string_filter(*parameters, "capabilities"@);
            let environments = spec_string_filter(*parameters, "environments"@);
            if !(1 <= limit <= 100) {
                r matches Err(e) && is_parameter_error(e, "The account page limit must be between 1 and 100."@)
            } else if kinds is None {
                r matches Err(e) && is_parameter_error(e, "An account filter is invalid."@)
            } else if !(forall|i: int| 0 <= i < kinds->0.len() ==> page_kind_valid(#[trigger] kinds->0[i])) {
                r matches Err(e) && is_parameter_error(e, "The requested account kind is invalid."@)
            } else if capabilities is None || environments is None {
                r matches Err(e) && is_parameter_error(e, "An account filter is invalid."@)
            } else if !(forall|i: int| 0 <= i < capabilities->0.len() ==> registry_has_capability(*registry, #[trigger] capabilities->0[i])) {
                r matches Err(e) && is_parameter_error(e, "The requested account capability is not in the public capability catalog."@)
            } else {
                r matches Ok(q) && {
                    &&& q.limit == limit
                    &&& opt_text(q.cursor) == parameters.spec_get_str("cursor"@)
                    &&& opt_text(q.query) == spec_page_query(*parameters)
                    &&& string_texts(q.kinds@) == kinds->0
                    &&& string_texts(q.capabilities@) == capabilities->0
                    &&& string_texts(q.environments@) == environments->0
                }
            }
        }),
{
    let limit = page_limit(parameters);
    if limit < 1 || limit > 100 {
        return Err(parameter_error("The account page limit must be between 1 and 100."));
    }
    let cursor = match parameters.get_str("cursor") {
        Some(c) => Some(c.to_string()),
        None => None,
    };
    let query = page_query_text(parameters);
    let kinds = match string_filter(parameters, "kinds") {
        Some(k) => k,
        None => return Err(parameter_error("An account filter is invalid.")),
    };
    if !kinds_valid(&kinds) {
        proof {
            let i = choose|i: int| 0 <= i < kinds.len() && !page_kind_valid(#[trigger] kinds@[i]@);
            assert(string_texts(kinds@)[i] == kinds@[i]@);
        }
        return Err(parameter_error("The requested account kind is invalid."));
    }
    assert forall|i: int| 0 <= i < string_texts(kinds@).len() implies page_kind_valid(#[trigger] string_texts(kinds@)[i]) by {
        assert(string_texts(kinds@)[i] == kinds@[i]@);
    }
    let capabilities = match string_filter(parameters, "capabilities") {
        Some(c) => c,
        None => return Err(parameter_error("An account filter is invalid.")),
    };
    let environments = match string_filter(parameters, "environments") {
        Some(e) => e,
        None => return Err(parameter_error("An account filter is invalid.")),
    };
    if !capabilities_known(registry, &capabilities) {
        proof {
            let i = choose|i: int| 0 <= i < capabilities.len() && !registry_has_capability(*registry, #[trigger] capabilities@[i]@);
            assert(string_texts(capabilities@)[i] == capabilities@[i]@);
        }
        return Err(parameter_error("The requested account capability is not in the public capability catalog."));
    }
    assert forall|i: int| 0 <= i < string_texts(capabilities@).len() implies registry_has_capability(*registry, #[trigger] string_texts(capabilities@)[i]) by {
        assert(string_texts(capabilities@)[i] == capabilities@[i]@);
    }
    Ok(AccountPageQuery { limit, cursor, query, kinds, capabilities, environments })
}

// ----------------------------------------------------------------------------
// The page window
// ----------------------------------------------------------------------------

/// The value of a nonempty run of decimal digits.
pub open spec fn digits_value(t: Seq<char>) -> nat
    decreases t.len(),
{
    if t.len() == 0 {
        0
    } else {
        digits_value(t.drop_last()) * 10 + ((t.last() as nat) - 48) as nat
    }
}

/// An ASCII decimal digit.
pub open spec fn is_digit(c: char) -> bool {
    '0' <= c && c <= '9'
}

/// The unsigned number that `str::parse::<usize>` reads from `t`: an
/// optional `+` and at least one decimal digit, with a value that fits.
pub open spec fn parsed_usize(t: Seq<char>) -> Option<nat> {
    let d = unsigned_digits(t);
    if d.len() > 0 && all_digits(d) && digits_value(d) <= usize::MAX {
        Some(digits_value(d))
    } else {
        None
    }
}

/// `t` without a leading `+`.
pub open spec fn unsigned_digits(t: Seq<char>) -> Seq<char> {
    if t.len() > 0 && t[0] == '+' { t.drop_first() } else { t }
}

/// Every character of `d` is a decimal digit.
pub open spec fn all_digits(d: Seq<char>) -> bool {
    forall|i: int| 0 <= i < d.len() ==> is_digit(#[trigger] d[i])
}

/// The offset that a page cursor names for catalog revision `rev`: the
/// cursor reads `v2:`, the revision, `:` and the offset, and holds no
/// other `:`.
pub open spec fn cursor_offset(cursor: Seq<char>, rev: Seq<char>) -> Option<nat> {
    let n = rev.len() as int;
    if !rev.contains(':') && cursor.len() >= n + 4 && cursor.subrange(0, 3) == "v2:"@ && cursor.subrange(3, 3 + n) == rev
        && cursor[3 + n] == ':' && !cursor.subrange(4 + n, cursor.len() as int).contains(':') {
        parsed_usize(cursor.subrange(4 + n, cursor.len() as int))
    } else {
        None
    }
}

/// The cursor of the page that starts at entry `offset`.
pub open spec fn page_cursor(rev: Seq<char>, offset: nat) -> Seq<char> {
    "v2:"@ + rev + ":"@ + decimal(offset)
}

/// The entries one page shows, `offset` to `end`, and the cursor of the
/// next page if there is one.
#[derive(Debug)]
pub struct AccountPageWindow {
    pub offset: usize,
    pub end: usize,
    pub next_cursor: Option<String>,
}

/// An `invalid-cursor` error with message `message`.
pub open spec fn is_cursor_error(e: AgentBrokerError, message: Seq<char>) -> bool {
    e.code@ == "invalid-cursor"@ && e.message@ == message && !e.retryable
}

proof fn lemma_digits_prefix_le(t: Seq<char>, k: int)
    requires
        0 <= k <= t.len(),
        forall|i: int| 0 <= i < t.len() ==> is_digit(#[trigger] t[i]),
    ensures
        digits_value(t.take(k)) <= digits_value(t),
    decreases t.len(),
{
    if k < t.len() {
        assert(t.drop_last().take(k) =~= t.take(k));
        assert forall|i: int| 0 <= i < t.drop_last().len() implies is_digit(#[trigger] t.drop_last()[i]) by {
            assert(t.drop_last()[i] == t[i]);
        }
        lemma_digits_prefix_le(t.drop_last(), k);
        assert(is_digit(t[t.len() - 1]));
    } else {
        assert(t.take(k) =~= t);
    }
}

fn parse_usize(t: &Vec<char>, start: usize) -> (r: Option<usize>)
    requires
        start <= t.len(),
    ensures
        match parsed_usize(t@.subrange(start as int, t.len() as int)) {
            Some(v) => r == Some(v as usize),
            None => r is None,
        },
{
    let ghost all = t@.subrange(start as int, t.len() as int);
    let mut i = start;
    if i < t.len() && t[i] == '+' {
        i += 1;
    }
    let ghost d = t@.subrange(i as int, t.len() as int);
    assert(d =~= unsigned_digits(all));
    if i >= t.len() {
        assert(d.len() == 0);
        assert(parsed_usize(all) is None);
        return None;
    }
    let mut acc: usize = 0;
    let mut j = i;
    while j < t.len()
        invariant
            i <= j <= t.len(),
            i < t.len(),
            d == t@.subrange(i as int, t.len() as int),
            all == t@.subrange(start as int, t.len() as int),
            d == unsigned_digits(all),
            forall|k: int| 0 <= k < j - i ==> is_digit(#[trigger] d[k]),
            acc as nat == digits_value(d.take(j - i)),
        decreases t.len() - j,
    {
        let c = t[j];
        assert(d[j - i] == c);
        if !('0' <= c && c <= '9') {
            assert(!is_digit(d[j - i]));
            assert(!all_digits(d));
            return None;
        }
        assert(d.take(j - i + 1).drop_last() =~= d.take(j - i));
        assert(d.take(j - i + 1).last() == c);
        let digit = (c as u32 - 48) as usize;
        assert(digits_value(d.take(j - i + 1)) == acc * 10 + digit);
        let next = match acc.checked_mul(10) {
            Some(m) => m.checked_add(digit),
            None => None,
        };
        match next {
            Some(v) => acc = v,
            None => {
                proof {
                    assert(digits_value(d.take(j - i + 1)) > usize::MAX);
                    if all_digits(d) {
                        lemma_digits_prefix_le(d, j - i + 1);
                    }
                }
                return None;
            },
        }
        j += 1;
    }
    assert(d.take(d.len() as int) =~= d);
    Some(acc)
}

/// The window of entries that one page shows, of `total` entries in a
/// catalog of revision `catalog_revision`, `limit` to a page. Without a
/// cursor the page starts at the first entry; a cursor that does not name
/// an offset of this revision, or names one past the last entry, is
/// refused with `invalid-cursor`.
pub fn account_page_window(cursor: Option<&str>, catalog_revision: &str, total: usize, limit: u64) -> (r: Result<AccountPageWindow, AgentBrokerError>)
    requires
        1 <= limit <= 100,
    ensures
        ({
            let offset: Option<nat> = match cursor {
                Some(c) => cursor_offset(c@, catalog_revision@),
                None => Some(0nat),
            };
            match offset {
                None => r matches Err(e) && is_cursor_error(e, "The account page cursor is invalid or the account catalog changed."@),
                Some(o) => if o > total {
                    r matches Err(e) && is_cursor_error(e, "The account page cursor is no longer available."@)
                } else {
                    r matches Ok(w) && {
                        let end: nat = if o + limit < total { (o + limit) as nat } else { total as nat };
                        &&& w.offset == o
                        &&& w.end == end
                        &&& opt_text(w.next_cursor) == if end < total { Some(page_cursor(catalog_revision@, end)) } else { None }
                    }
                },
            }
        }),
{
    proof {
        reveal_strlit("v2:");
        reveal_strlit(":");
    }
    let rev = to_chars(catalog_revision);
    let n = rev.len();
    let offset: usize = match cursor {
        None => 0,
        Some(c) => {
            let cs = to_chars(c);
            let mut ok = cs.len() >= 4 && n <= cs.len() - 4 && cs[0] == 'v' && cs[1] == '2' && cs[2] == ':';
            proof {
                if cs@.len() >= 3 {
                    if cs@[0] == 'v' && cs@[1] == '2' && cs@[2] == ':' {
                        assert(cs@.subrange(0, 3) =~= "v2:"@);
                    } else {
                        assert(cs@.subrange(0, 3) != "v2:"@) by {
                            if cs@.subrange(0, 3) == "v2:"@ {
                                assert(cs@.subrange(0, 3)[0] == cs@[0]);
                                assert(cs@.subrange(0, 3)[1] == cs@[1]);
                                assert(cs@.subrange(0, 3)[2] == cs@[2]);
                            }
                        }
                    }
                }
                if ok {
                    assert(cs@.subrange(3, 3) =~= rev@.take(0));
                }
                assert(!rev@.take(0).contains(':'));
            }
            let mut k: usize = 0;
            while ok && k < n
                invariant
                    k <= n,
                    n == rev.len(),
                    rev@ == catalog_revision@,
                    cs@ == c@,
                    ok ==> (cs.len() >= n + 4 && cs@.subrange(0, 3) == "v2:"@ && !rev@.take(k as int).contains(':')
                        && cs@.subrange(3, 3 + k as int) == rev@.take(k as int)),
                    !ok ==> cursor_offset(c@, catalog_revision@) is None,
                decreases n - k + if ok { 1int } else { 0int },
            {
                proof {
                    assert(rev@.take(k + 1).drop_last() =~= rev@.take(k as int));
                    assert(cs@.subrange(3, 3 + k + 1).drop_last() =~= cs@.subrange(3, 3 + k as int));
                }
                if rev[k] == ':' || cs[3 + k] != rev[k] {
                    proof {
                        if rev[k as int] == ':' {
                            assert(rev@.contains(':')) by {
                                assert(rev@[k as int] == ':');
                            }
                        } else {
                            assert(cs@.subrange(3, 3 + n as int)[k as int] == cs@[3 + k]);
                        }
                    }
                    ok = false;
                } else {
                    assert(!rev@.take(k + 1).contains(':')) by {
                        if rev@.take(k + 1).contains(':') {
                            let w = choose|w: int| 0 <= w < k + 1 && #[trigger] rev@.take(k + 1)[w] == ':';
                            if w < k {
                                assert(rev@.take(k as int)[w] == ':');
                            }
                        }
                    }
                    k += 1;
                }
            }
            if !ok {
                return Err(cursor_error("The account page cursor is invalid or the account catalog changed."));
            }
            assert(rev@.take(n as int) =~= rev@);
            if cs[3 + n] != ':' {
                return Err(cursor_error("The account page cursor is invalid or the account catalog changed."));
            }
            let mut m = 4 + n;
            while m < cs.len()
                invariant
                    4 + n <= m <= cs.len(),
                    cursor == Some(c),
                    cs@ == c@,
                    n == rev.len(),
                    rev@ == catalog_revision@,
                    forall|w: int| 4 + n <= w < m ==> cs@[w] != ':',
                decreases cs.len() - m,
            {
                if cs[m] == ':' {
                    proof {
                        assert(cs@.subrange(4 + n as int, cs.len() as int)[m - 4 - n] == ':');
                        assert(c@.subrange(4 + rev@.len() as int, c@.len() as int).contains(':'));
                    }
                    return Err(cursor_error("The account page cursor is invalid or the account catalog changed."));
                }
                m += 1;
            }
            assert(!cs@.subrange(4 + n as int, cs.len() as int).contains(':')) by {
                if cs@.subrange(4 + n as int, cs.len() as int).contains(':') {
                    let w = choose|w: int| 0 <= w < cs.len() - 4 - n && #[trigger] cs@.subrange(4 + n as int, cs.len() as int)[w] == ':';
                    assert(cs@[w + 4 + n] == ':');
                }
            }
            match parse_usize(&cs, 4 + n) {
                Some(o) => o,
                None => return Err(cursor_error("The account page cursor is invalid or the account catalog changed.")),
            }
        },
    };
    if offset > total {
        return Err(cursor_error("The account page cursor is no longer available."));
    }
    let end: usize = if (limit as usize) < total - offset { offset + limit as usize } else { total };
    let next_cursor = if end < total {
        let head = concat("v2:", catalog_revision);
        let head = concat(head.as_str(), ":");
        let s = concat(head.as_str(), decimal_text(end as u64).as_str());
        proof {
            assert(s@ =~= page_cursor(catalog_revision@, end as nat));
        }
        Some(s)
    } else {
        None
    };
    Ok(AccountPageWindow { offset, end, next_cursor })
}

fn cursor_error(message: &'static str) -> (e: AgentBrokerError)
    ensures
        is_cursor_error(e, message@),
{
    AgentBrokerError::new("invalid-cursor", message, false)
}


// ----------------------------------------------------------------------------
// Laws
// ----------------------------------------------------------------------------

proof fn lemma_decimal_digits(n: nat)
    ensures
        decimal(n).len() > 0,
        all_digits(decimal(n)),
        digits_value(decimal(n)) == n,
        decimal(n)[0] != '+',
        !decimal(n).contains(':'),
    decreases n,
{
    if n < 10 {
        assert(decimal(n) =~= seq![crate::text::digit_char(n)]);
        assert(digits_value(decimal(n)) == digits_value(decimal(n).drop_last()) * 10 + ((decimal(n).last() as nat) - 48) as nat);
        assert(decimal(n).drop_last() =~= Seq::<char>::empty());
        if decimal(n).contains(':') {
            let k = choose|k: int| 0 <= k < decimal(n).len() && decimal(n)[k] == ':';
            assert(k == 0);
        }
    } else {
        lemma_decimal_digits(n / 10);
        let d = decimal(n);
        let head = decimal(n / 10);
        assert(d == head.push(crate::text::digit_char(n % 10)));
        assert(d.drop_last() =~= head);
        assert(digits_value(d) == (n / 10) * 10 + n % 10);
        assert((n / 10) * 10 + n % 10 == n) by (nonlinear_arith);
        assert forall|i: int| 0 <= i < d.len() implies is_digit(#[trigger] d[i]) by {
            if i < head.len() {
                assert(d[i] == head[i]);
            }
        }
        assert(d[0] == head[0]);
        if d.contains(':') {
            let k = choose|k: int| 0 <= k < d.len() && d[k] == ':';
            assert(is_digit(d[k]));
        }
    }
}

/// The cursor of the next page resumes at the entry where the page ended:
/// a cursor that a page hands out for catalog revision `rev` names offset
/// `end` in that revision (a revision holds no `:`, as one of hex digits
/// does not).
pub proof fn law_next_cursor_resumes_at_end(rev: Seq<char>, end: usize)
    requires
        !rev.contains(':'),
    ensures
        cursor_offset(page_cursor(rev, end as nat), rev) == Some(end as nat),
{
    reveal_strlit("v2:");
    reveal_strlit(":");
    lemma_decimal_digits(end as nat);
    let c = page_cursor(rev, end as nat);
    let n = rev.len() as int;
    let digits = decimal(end as nat);
    assert(c.subrange(0, 3) =~= "v2:"@);
    assert(c.subrange(3, 3 + n) =~= rev);
    assert(c[3 + n] == ':');
    assert(c.subrange(4 + n, c.len() as int) =~= digits);
    assert(unsigned_digits(digits) == digits);
}


/// The pages that following the cursors from entry `offset` on shows, as
/// `(offset, end)` ranges of the ordered entries: each page ends `limit`
/// entries on or at the end of the catalog (as `account_page_window` cuts
/// it), and the next page starts where it ends, until the end is reached.
pub open spec fn page_ranges(offset: nat, total: nat, limit: nat) -> Seq<(nat, nat)>
    decreases total - offset,
{
    let end: nat = if offset + limit < total { (offset + limit) as nat } else { total };
    if limit >= 1 && end < total {
        seq![(offset, end)] + page_ranges(end, total, limit)
    } else {
        seq![(offset, end)]
    }
}

/// Paging through the catalog shows every entry once, in order: the pages
/// from entry `offset` start there, end at the last entry, each starts where
/// the one before ends, and every page but the last holds `limit` entries
/// (the last at most `limit`, and at least one unless there is none left).
pub proof fn law_pages_show_every_entry_once(offset: nat, total: nat, limit: nat)
    requires
        1 <= limit,
        offset <= total,
    ensures
        ({
            let ps = page_ranges(offset, total, limit);
            &&& ps.len() >= 1
            &&& ps[0].0 == offset
            &&& ps.last().1 == total
            &&& forall|i: int| 0 <= i < ps.len() - 1 ==> #[trigger] ps[i].1 == ps[i + 1].0 && ps[i].1 - ps[i].0 == limit
            &&& forall|i: int| 0 <= i < ps.len() ==> #[trigger] ps[i].0 <= ps[i].1 && ps[i].1 - ps[i].0 <= limit
            &&& (offset < total ==> ps.last().0 < ps.last().1)
        }),
    decreases total - offset,
{
    let end: nat = if offset + limit < total { (offset + limit) as nat } else { total };
    if end < total {
        law_pages_show_every_entry_once(end, total, limit);
        let rest = page_ranges(end, total, limit);
        let ps = page_ranges(offset, total, limit);
        assert(ps == seq![(offset, end)] + rest);
        assert forall|i: int| 0 <= i < ps.len() - 1 implies #[trigger] ps[i].1 == ps[i + 1].0 && ps[i].1 - ps[i].0 == limit by {
            if i > 0 {
                assert(ps[i] == rest[i - 1] && ps[i + 1] == rest[i]);
            }
        }
        assert forall|i: int| 0 <= i < ps.len() implies #[trigger] ps[i].0 <= ps[i].1 && ps[i].1 - ps[i].0 <= limit by {
            if i > 0 {
                assert(ps[i] == rest[i - 1]);
            }
        }
        assert(ps.last() == rest.last());
    }
}


/// A page window (see `account_page_window`) is the first of the pages from
/// its offset, and its next cursor, read back, starts the page after it.
pub proof fn law_next_cursor_starts_next_page(rev: Seq<char>, offset: nat, total: usize, limit: nat)
    requires
        1 <= limit,
        offset <= total,
        !rev.contains(':'),
    ensures
        ({
            let ps = page_ranges(offset, total as nat, limit);
            let end: nat = if offset + limit < total { (offset + limit) as nat } else { total as nat };
            &&& ps[0] == (offset, end)
            &&& (end < total <==> ps.len() > 1)
            &&& end < total ==> cursor_offset(page_cursor(rev, end), rev) == Some(ps[1].0)
        }),
{
    let end: nat = if offset + limit < total { (offset + limit) as nat } else { total as nat };
    if end < total {
        law_next_cursor_resumes_at_end(rev, end as usize);
        law_pages_show_every_entry_once(end, total as nat, limit);
    }
}

} // verus!
