//! The plan of a direct HTTP action on a Vault access token: what the action
//! parameters ask for, which exact HTTP(S) target the Vault item binds, and
//! the broker-owned operation that comes out of both.
use vstd::prelude::*;
use crate::direct_policy::{is_input_insufficient, is_rule_unavailable, trim, trimmed};
use crate::error::AgentBrokerError;
use crate::http_path::{
    canonical_exact_path, canonicalize_exact_path, is_invalid_path_error, join_base_path, method_risk,
    response_mode, spec_join_base_path, spec_method_risk, AgentRiskTier, HTTP_PATH_MATCHER_REVISION,
};
use crate::ids::{format_uuid, uuid_text};
use crate::json::{clone_json, json_view, JsonValue, JsonView};
use crate::connector::AgentCredentialKind;
use crate::policy::{AgentDirectHttpPolicy, AgentHttpAuthStrategy, AgentHttpBodyMode, AgentHttpOperationPolicy};
use crate::text::{concat, copy_string, str_eq};
use crate::web::{parse_url, parsed_url, UrlParts, UrlView};

verus! {

broadcast use vstd::string::group_string_axioms;

/// The largest input object, in bytes of JSON, that a direct HTTP action sends.
pub const MAX_DIRECT_HTTP_INPUT_BYTES: usize = 262144;

/// The largest response, in bytes, that a direct HTTP action returns.
pub const MAX_DIRECT_HTTP_OUTPUT_BYTES: usize = 65536;

/// The most response items that a direct HTTP action returns.
pub const MAX_DIRECT_HTTP_OUTPUT_ITEMS: usize = 1000;

/// A direct HTTP request as the action parameters state it.
#[derive(Debug)]
pub struct DirectHttpRequest {
    pub method: String,
    pub risk: AgentRiskTier,
    pub requested_path: String,
    /// The Agent asked for the JSON response body (`responseMode: json`).
    pub response_json: bool,
    /// The query object of a `GET` or `HEAD`, else the body object.
    pub input: JsonValue,
}

/// The exact target that the Vault item binds a direct HTTP action to.
#[derive(Debug)]
pub struct DirectHttpTarget {
    pub origin: String,
    pub base_path: String,
    pub path: String,
    pub account_label: String,
    pub environment: String,
}

// ----------------------------------------------------------------------------
// Specification
// ----------------------------------------------------------------------------

/// A method whose input travels in the query string.
pub open spec fn query_method(method: Seq<char>) -> bool {
    method == "GET"@ || method == "HEAD"@
}

/// What the parameters of a direct HTTP action decide.
pub enum HttpRequestCheck {
    Locked,
    RuleUnavailable { kind: Seq<char>, tool: Seq<char> },
    MissingField { field: Seq<char> },
    InvalidMethod,
    InvalidResponseMode,
    InvalidShape,
    Ready { method: Seq<char>, risk: AgentRiskTier, path: Seq<char>, json: bool, input: JsonView },
}

/// The request that the parameters of a direct HTTP action state, or why
/// they are refused.
pub open spec fn spec_direct_http_request(unlocked: bool, item_kind: Seq<char>, tool: Seq<char>, p: JsonValue) -> HttpRequestCheck {
    if !unlocked {
        HttpRequestCheck::Locked
    } else if tool != "vaultmesh_http_request"@ || item_kind != "secret"@ {
        HttpRequestCheck::RuleUnavailable { kind: item_kind, tool }
    } else {
        match p.spec_get_str("method"@) {
            None => HttpRequestCheck::MissingField { field: "http.method"@ },
            Some(m) => match spec_method_risk(m) {
                None => HttpRequestCheck::InvalidMethod,
                Some(risk) => match p.spec_get_str("path"@) {
                    None => HttpRequestCheck::MissingField { field: "http.path"@ },
                    Some(path) => {
                        let mode = match p.spec_get_str("responseMode"@) {
                            Some(x) => x,
                            None => "status"@,
                        };
                        let q = p.spec_get("query"@);
                        let b = p.spec_get("body"@);
                        if mode != "status"@ && mode != "json"@ {
                            HttpRequestCheck::InvalidResponseMode
                        } else if (q matches Some(v) && !(v is Object)) || (b matches Some(v) && !(v is Object))
                            || (query_method(m) && b is Some) || (!query_method(m) && q is Some) {
                            HttpRequestCheck::InvalidShape
                        } else {
                            let chosen = if query_method(m) { q } else { b };
                            HttpRequestCheck::Ready {
                                method: m,
                                risk,
                                path,
                                json: mode == "json"@,
                                input: match chosen {
                                    Some(v) => json_view(v),
                                    None => JsonView::Object(seq![]),
                                },
                            }
                        }
                    },
                },
            },
        }
    }
}

/// `r` is what `c` decides.
pub open spec fn http_request_holds(r: Result<DirectHttpRequest, AgentBrokerError>, c: HttpRequestCheck) -> bool {
    match c {
        HttpRequestCheck::Locked => r matches Err(e) && e.code@ == "vault-locked"@,
        HttpRequestCheck::RuleUnavailable { kind, tool } => r matches Err(e) && is_rule_unavailable(e, kind, tool),
        HttpRequestCheck::MissingField { field } => r matches Err(e) && is_input_insufficient(e, seq![field]),
        HttpRequestCheck::InvalidMethod => r matches Err(e) && e.code@ == "invalid-http-method"@ && !e.retryable,
        HttpRequestCheck::InvalidResponseMode => r matches Err(e) && e.code@ == "invalid-http-response-mode"@ && !e.retryable,
        HttpRequestCheck::InvalidShape => r matches Err(e) && e.code@ == "invalid-http-request"@ && !e.retryable,
        HttpRequestCheck::Ready { method, risk, path, json, input } => r matches Ok(q) && q.method@ == method && q.risk == risk
            && q.requested_path@ == path && q.response_json == json && json_view(q.input) == input,
    }
}

/// A URL that names one exact HTTP(S) target: a host, and no user
/// information, query or fragment.
pub open spec fn exact_http_url(u: UrlView) -> bool {
    &&& u.scheme == "http"@ || u.scheme == "https"@
    &&& u.host is Some
    &&& u.username.len() == 0
    &&& u.password is None
    &&& u.query is None
    &&& u.fragment is None
}

/// The exact HTTP(S) URL of a Vault item's website field.
pub open spec fn website_url(detail: JsonValue) -> Option<UrlView> {
    match detail.spec_get_str("website"@) {
        None => None,
        Some(w) => if trimmed(w).len() == 0 {
            None
        } else {
            match parsed_url(trimmed(w)) {
                Some(u) => if exact_http_url(u) {
                    Some(u)
                } else {
                    None
                },
                None => None,
            }
        },
    }
}

/// The item asks for the master password before each use.
pub open spec fn reprompts(detail: JsonValue) -> bool {
    detail.spec_get("masterPasswordReprompt"@) == Some(JsonValue::Bool(true))
}

/// What a Vault item lacks for a direct HTTP action, in the order reported.
pub open spec fn http_missing_fields(item_kind: Seq<char>, detail: JsonValue, token_enabled: bool) -> Seq<Seq<char>> {
    (if detail.spec_get_str("kind"@) != Some("access-token"@) {
        seq!["secret.kind=access-token"@]
    } else {
        seq![]
    }) + (if reprompts(detail) {
        seq![item_kind + ".masterPasswordReprompt=false"@]
    } else {
        seq![]
    }) + (if !token_enabled {
        seq!["secret.agentAccessTokenEnabled=true"@]
    } else {
        seq![]
    }) + (if website_url(detail) is None {
        seq!["secret.website (exact HTTP(S) URL without userinfo, query, or fragment)"@]
    } else {
        seq![]
    })
}

/// The ASCII serialization of a URL's origin; `null` for an opaque origin.
pub open spec fn origin_text(u: UrlView) -> Seq<char> {
    match u.origin {
        Some(o) => o,
        None => "null"@,
    }
}

/// The label of the account: its title, else `Vault account`.
pub open spec fn http_account_label(detail: JsonValue) -> Seq<char> {
    match detail.spec_get_str("title"@) {
        Some(t) => t,
        None => "Vault account"@,
    }
}

/// The environment of the account when it is not blank, else `default`.
pub open spec fn http_environment(detail: JsonValue) -> Seq<char> {
    match detail.spec_get_str("environment"@) {
        Some(e) => if trimmed(e).len() > 0 {
            e
        } else {
            "default"@
        },
        None => "default"@,
    }
}

/// What the Vault item decides for a direct HTTP action.
pub enum HttpTargetCheck {
    TooLarge,
    Missing { fields: Seq<Seq<char>> },
    InvalidPath,
    Ready { origin: Seq<char>, base_path: Seq<char>, path: Seq<char>, account_label: Seq<char>, environment: Seq<char> },
}

/// The target of a direct HTTP action: the request must fit, the item must
/// be an enabled access token with an exact website, and the requested path
/// is resolved below the website's path.
pub open spec fn spec_direct_http_target(
    requested_path: Seq<char>,
    input_bytes: usize,
    item_kind: Seq<char>,
    detail: Option<JsonValue>,
    token_enabled: bool,
) -> HttpTargetCheck {
    if input_bytes > MAX_DIRECT_HTTP_INPUT_BYTES {
        HttpTargetCheck::TooLarge
    } else {
        match detail {
            None => HttpTargetCheck::Missing { fields: seq!["secret"@] },
            Some(d) => {
                let missing = http_missing_fields(item_kind, d, token_enabled);
                if missing.len() > 0 {
                    HttpTargetCheck::Missing { fields: missing }
                } else {
                    let u = website_url(d)->0;
                    match canonical_exact_path(u.path) {
                        None => HttpTargetCheck::InvalidPath,
                        Some(base) => match spec_join_base_path(base, requested_path) {
                            None => HttpTargetCheck::InvalidPath,
                            Some(path) => HttpTargetCheck::Ready {
                                origin: origin_text(u),
                                base_path: base,
                                path,
                                account_label: http_account_label(d),
                                environment: http_environment(d),
                            },
                        },
                    }
                }
            },
        }
    }
}

/// `r` is what `c` decides.
pub open spec fn http_target_holds(r: Result<DirectHttpTarget, AgentBrokerError>, c: HttpTargetCheck) -> bool {
    match c {
        HttpTargetCheck::TooLarge => r matches Err(e) && e.code@ == "http-request-too-large"@ && !e.retryable,
        HttpTargetCheck::Missing { fields } => r matches Err(e) && is_input_insufficient(e, fields),
        HttpTargetCheck::InvalidPath => r matches Err(e) && is_invalid_path_error(e),
        HttpTargetCheck::Ready { origin, base_path, path, account_label, environment } => r matches Ok(t)
            && t.origin@ == origin && t.base_path@ == base_path && t.path@ == path
            && t.account_label@ == account_label && t.environment@ == environment,
    }
}

/// The member names of an object, in order.
pub open spec fn object_keys(v: JsonView) -> Seq<Seq<char>> {
    match v {
        JsonView::Object(es) => Seq::new(es.len(), |i: int| es[i].0),
        _ => seq![],
    }
}

/// The output fields that a response mode allows: all for JSON, none else.
pub open spec fn output_fields(json: bool) -> Seq<Seq<char>> {
    if json {
        seq!["*"@]
    } else {
        seq![]
    }
}

/// The plan of a direct HTTP action.
pub open spec fn direct_http_policy_holds(
    p: AgentDirectHttpPolicy,
    request: DirectHttpRequest,
    target: DirectHttpTarget,
    item_id: u128,
    item_kind: Seq<char>,
    target_digest: Seq<char>,
) -> bool {
    let json = request.response_json;
    &&& p.account_ref == item_id
    &&& p.account_label@ == target.account_label@
    &&& p.environment@ == target.environment@
    &&& p.item_kind@ == item_kind
    &&& p.credential_kind == AgentCredentialKind::Secret
    &&& p.origin@ == target.origin@
    &&& p.auth_strategy == AgentHttpAuthStrategy::Bearer
    &&& p.operation.name@ == "direct"@
    &&& p.operation.method@ == request.method@
    &&& p.operation.path@ == target.path@
    &&& p.operation.request_fields@.map_values(|s: String| s@) == object_keys(json_view(request.input))
    &&& p.operation.response_fields@.map_values(|s: String| s@) == output_fields(json)
    &&& p.operation.request_mode == (if object_keys(json_view(request.input)).len() == 0 {
        AgentHttpBodyMode::Empty
    } else {
        AgentHttpBodyMode::Json
    })
    &&& p.operation.response_mode == (if json {
        AgentHttpBodyMode::Json
    } else {
        AgentHttpBodyMode::Empty
    })
    &&& p.operation.risk == request.risk
    &&& p.target_digest@ == target_digest
    &&& p.approved_display@ == target.origin@ + target.path@
    &&& p.allowed_output_fields@.map_values(|s: String| s@) == output_fields(json)
    &&& p.max_output_bytes == MAX_DIRECT_HTTP_OUTPUT_BYTES
    &&& p.max_output_items == MAX_DIRECT_HTTP_OUTPUT_ITEMS
}

/// The members of the object whose canonical digest binds a direct HTTP
/// action to its target.
pub open spec fn http_target_binding(target: DirectHttpTarget, item_id: u128) -> JsonView {
    JsonView::Object(
        seq![
            ("connector"@, JsonView::String("http"@)),
            ("origin"@, JsonView::String(target.origin@)),
            ("basePath"@, JsonView::String(target.base_path@)),
            ("authStrategy"@, JsonView::String("bearer"@)),
            ("accountRef"@, JsonView::String(uuid_text(item_id))),
            ("matcherRevision"@, JsonView::String(HTTP_PATH_MATCHER_REVISION@)),
        ],
    )
}

// ----------------------------------------------------------------------------
// Executable functions
// ----------------------------------------------------------------------------

fn is_object(v: &JsonValue) -> (r: bool)
    ensures
        r == (*v is Object),
{
    match v {
        JsonValue::Object(_) => true,
        _ => false,
    }
}

fn missing_field(name: &str) -> (e: AgentBrokerError)
    ensures
        is_input_insufficient(e, seq![name@]),
{
    let fields = vec![copy_string(name)];
    proof {
        assert(fields@.map_values(|s: String| s@) =~= seq![name@]);
    }
    AgentBrokerError::action_input_insufficient(fields)
}

/// Reads a direct HTTP request from the action parameters: a supported
/// method, a path, a response mode, and a query object (for `GET` and
/// `HEAD`) or a body object (for the other methods), empty when absent.
pub fn direct_http_request(
    unlocked: bool,
    item_kind: &str,
    tool: &str,
    action_parameters: &JsonValue,
) -> (r: Result<DirectHttpRequest, AgentBrokerError>)
    ensures
        http_request_holds(r, spec_direct_http_request(unlocked, item_kind@, tool@, *action_parameters)),
{
    if !unlocked {
        return Err(AgentBrokerError::vault_locked());
    }
    if !str_eq(tool, "vaultmesh_http_request") || !str_eq(item_kind, "secret") {
        return Err(AgentBrokerError::action_rule_unavailable(item_kind, tool));
    }
    let method = match action_parameters.get_str("method") {
        Some(m) => m,
        None => return Err(missing_field("http.method")),
    };
    let risk = match method_risk(method) {
        Ok(risk) => risk,
        Err(e) => return Err(e),
    };
    let requested_path = match action_parameters.get_str("path") {
        Some(p) => p,
        None => return Err(missing_field("http.path")),
    };
    let mode = match response_mode(action_parameters) {
        Ok(m) => m,
        Err(e) => return Err(e),
    };
    let query = action_parameters.get("query");
    let body = action_parameters.get("body");
    let by_query = str_eq(method, "GET") || str_eq(method, "HEAD");
    let bad_query = match query {
        Some(v) => !is_object(v),
        None => false,
    };
    let bad_body = match body {
        Some(v) => !is_object(v),
        None => false,
    };
    if bad_query || bad_body || (by_query && body.is_some()) || (!by_query && query.is_some()) {
        return Err(AgentBrokerError::new(
            "invalid-http-request",
            "The HTTP query or JSON body is invalid for this method.",
            false,
        ));
    }
    let chosen = if by_query { query } else { body };
    let input = match chosen {
        Some(v) => clone_json(v),
        None => JsonValue::Object(Vec::new()),
    };
    proof {
        if chosen is None {
            assert(json_view(input) =~= JsonView::Object(seq![])) by {
                if let JsonView::Object(es) = json_view(input) {
                    assert(es =~= seq![]);
                }
            }
        }
    }
    Ok(DirectHttpRequest {
        method: copy_string(method),
        risk,
        requested_path: copy_string(requested_path),
        response_json: str_eq(mode, "json"),
        input,
    })
}

fn exact_http_website(detail: &JsonValue) -> (r: Option<UrlParts>)
    ensures
        match r {
            Some(u) => website_url(*detail) == Some(u@),
            None => website_url(*detail) is None,
        },
{
    let website = match detail.get_str("website") {
        Some(w) => w,
        None => return None,
    };
    let text = trim(website);
    if text.as_str().is_empty() {
        return None;
    }
    let u = match parse_url(text.as_str()) {
        Some(u) => u,
        None => return None,
    };
    let scheme_ok = str_eq(u.scheme.as_str(), "http") || str_eq(u.scheme.as_str(), "https");
    if scheme_ok && u.host.is_some() && u.username.as_str().is_empty() && u.password.is_none() && u.query.is_none()
        && u.fragment.is_none() {
        Some(u)
    } else {
        None
    }
}

/// Resolves the target of a direct HTTP action from the Vault item: the
/// item's details (`None` when they could not be read), whether its token is
/// enabled for Agents, and the size of the request's input in bytes of JSON.
pub fn direct_http_target(
    request: &DirectHttpRequest,
    input_bytes: usize,
    item_kind: &str,
    detail: Option<&JsonValue>,
    access_token_enabled: bool,
) -> (r: Result<DirectHttpTarget, AgentBrokerError>)
    ensures
        http_target_holds(
            r,
            spec_direct_http_target(
                request.requested_path@,
                input_bytes,
                item_kind@,
                match detail {
                    Some(d) => Some(*d),
                    None => None,
                },
                access_token_enabled,
            ),
        ),
{
    if input_bytes > MAX_DIRECT_HTTP_INPUT_BYTES {
        return Err(AgentBrokerError::new(
            "http-request-too-large",
            "The HTTP request parameters exceed the supported size.",
            false,
        ));
    }
    let d = match detail {
        Some(d) => d,
        None => return Err(missing_field("secret")),
    };
    let mut missing: Vec<String> = Vec::new();
    let kind_ok = match d.get_str("kind") {
        Some(k) => str_eq(k, "access-token"),
        None => false,
    };
    if !kind_ok {
        missing.push(copy_string("secret.kind=access-token"));
    }
    let reprompt = match d.get("masterPasswordReprompt") {
        Some(JsonValue::Bool(b)) => *b,
        _ => false,
    };
    if reprompt {
        missing.push(concat(item_kind, ".masterPasswordReprompt=false"));
    }
    if !access_token_enabled {
        missing.push(copy_string("secret.agentAccessTokenEnabled=true"));
    }
    let website = exact_http_website(d);
    if website.is_none() {
        missing.push(copy_string("secret.website (exact HTTP(S) URL without userinfo, query, or fragment)"));
    }
    proof {
        assert(missing@.map_values(|s: String| s@) =~= http_missing_fields(item_kind@, *d, access_token_enabled));
    }
    let u = match website {
        Some(u) => u,
        None => return Err(AgentBrokerError::action_input_insufficient(missing)),
    };
    if missing.len() > 0 {
        return Err(AgentBrokerError::action_input_insufficient(missing));
    }
    let origin = match &u.origin {
        Some(o) => copy_string(o.as_str()),
        None => copy_string("null"),
    };
    let base_path = match canonicalize_exact_path(u.path.as_str()) {
        Ok(b) => b,
        Err(e) => return Err(e),
    };
    let path = match join_base_path(base_path.as_str(), request.requested_path.as_str()) {
        Ok(p) => p,
        Err(e) => return Err(e),
    };
    let account_label = match d.get_str("title") {
        Some(t) => copy_string(t),
        None => copy_string("Vault account"),
    };
    let environment = match d.get_str("environment") {
        Some(e) => {
            let t = trim(e);
            if t.as_str().is_empty() {
                copy_string("default")
            } else {
                copy_string(e)
            }
        },
        None => copy_string("default"),
    };
    Ok(DirectHttpTarget { origin, base_path, path, account_label, environment })
}

/// The object whose canonical digest binds a direct HTTP action to its
/// target: connector, origin, base path, bearer authentication, account and
/// path matcher revision.
pub fn direct_http_target_binding(target: &DirectHttpTarget, item_id: u128) -> (r: JsonValue)
    ensures
        json_view(r) == http_target_binding(*target, item_id),
{
    let entries = vec![
        (copy_string("connector"), JsonValue::String(copy_string("http"))),
        (copy_string("origin"), JsonValue::String(copy_string(target.origin.as_str()))),
        (copy_string("basePath"), JsonValue::String(copy_string(target.base_path.as_str()))),
        (copy_string("authStrategy"), JsonValue::String(copy_string("bearer"))),
        (copy_string("accountRef"), JsonValue::String(format_uuid(item_id))),
        (copy_string("matcherRevision"), JsonValue::String(copy_string(HTTP_PATH_MATCHER_REVISION))),
    ];
    let ghost want = http_target_binding(*target, item_id)->Object_0;
    proof {
        assert forall|k: int| 0 <= k < 6 implies (entries@[k].0@, json_view(#[trigger] entries@[k].1)) == want[k] by {
            if k == 0 {
            } else if k == 1 {
            } else if k == 2 {
            } else if k == 3 {
            } else if k == 4 {
            } else {
            }
        }
    }
    let r = JsonValue::Object(entries);
    proof {
        if let JsonView::Object(es) = json_view(r) {
            assert(es =~= want);
        }
    }
    r
}

fn star_fields(json: bool) -> (r: Vec<String>)
    ensures
        r@.map_values(|s: String| s@) == output_fields(json),
{
    let r = if json { vec![copy_string("*")] } else { Vec::new() };
    proof {
        assert(r@.map_values(|s: String| s@) =~= output_fields(json));
    }
    r
}

/// The broker-owned plan of a direct HTTP action, from its request, its
/// target and the digest of its target binding; the request's input must be
/// an object.
pub fn direct_http_policy(
    request: &DirectHttpRequest,
    target: &DirectHttpTarget,
    item_id: u128,
    item_kind: &str,
    target_digest: String,
) -> (r: Result<AgentDirectHttpPolicy, AgentBrokerError>)
    ensures
        match r {
            Ok(p) => (request.input is Object) && direct_http_policy_holds(p, *request, *target, item_id, item_kind@, target_digest@),
            Err(e) => !(request.input is Object) && e.code@ == "broker-unavailable"@,
        },
{
    let entries = match &request.input {
        JsonValue::Object(entries) => entries,
        _ => return Err(AgentBrokerError::internal()),
    };
    let mut request_fields: Vec<String> = Vec::new();
    let mut i: usize = 0;
    while i < entries.len()
        invariant
            i <= entries.len(),
            request.input == JsonValue::Object(*entries),
            request_fields@.len() == i,
            forall|k: int| 0 <= k < i ==> (#[trigger] request_fields@[k])@ == entries@[k].0@,
        decreases entries.len() - i,
    {
        request_fields.push(copy_string(entries[i].0.as_str()));
        i += 1;
    }
    proof {
        assert(request_fields@.map_values(|s: String| s@) =~= object_keys(json_view(request.input)));
    }
    let json = request.response_json;
    let operation = AgentHttpOperationPolicy {
        name: copy_string("direct"),
        method: copy_string(request.method.as_str()),
        path: copy_string(target.path.as_str()),
        request_fields,
        response_fields: star_fields(json),
        request_mode: if entries.len() == 0 { AgentHttpBodyMode::Empty } else { AgentHttpBodyMode::Json },
        response_mode: if json { AgentHttpBodyMode::Json } else { AgentHttpBodyMode::Empty },
        risk: request.risk,
    };
    Ok(AgentDirectHttpPolicy {
        account_ref: item_id,
        account_label: copy_string(target.account_label.as_str()),
        environment: copy_string(target.environment.as_str()),
        item_kind: copy_string(item_kind),
        credential_kind: AgentCredentialKind::Secret,
        origin: copy_string(target.origin.as_str()),
        auth_strategy: AgentHttpAuthStrategy::Bearer,
        approved_display: concat(target.origin.as_str(), target.path.as_str()),
        operation,
        target_digest,
        allowed_output_fields: star_fields(json),
        max_output_bytes: MAX_DIRECT_HTTP_OUTPUT_BYTES,
        max_output_items: MAX_DIRECT_HTTP_OUTPUT_ITEMS,
    })
}


fn texts_equal(a: &Vec<String>, b: &Vec<String>) -> (r: bool)
    ensures
        r == (crate::permission_desk::names_view(a@) == crate::permission_desk::names_view(b@)),
{
    if a.len() != b.len() {
        proof {
            assert(crate::permission_desk::names_view(a@).len() != crate::permission_desk::names_view(b@).len());
        }
        return false;
    }
    let mut i: usize = 0;
    while i < a.len()
        invariant
            i <= a.len(),
            a.len() == b.len(),
            forall|k: int| 0 <= k < i ==> a@[k]@ == b@[k]@,
        decreases a.len() - i,
    {
        if !str_eq(a[i].as_str(), b[i].as_str()) {
            proof {
                assert(crate::permission_desk::names_view(a@)[i as int] != crate::permission_desk::names_view(b@)[i as int]);
            }
            return false;
        }
        i += 1;
    }
    assert(crate::permission_desk::names_view(a@) =~= crate::permission_desk::names_view(b@));
    true
}

fn body_mode_same(a: AgentHttpBodyMode, b: AgentHttpBodyMode) -> (r: bool)
    ensures
        r == (a == b),
{
    match (a, b) {
        (AgentHttpBodyMode::Empty, AgentHttpBodyMode::Empty) | (AgentHttpBodyMode::Json, AgentHttpBodyMode::Json) => true,
        _ => false,
    }
}

/// A stored direct HTTP plan may still run: the plan generated again now
/// has the same account, item kind, credential kind, origin, authentication,
/// operation, target digest and output limits, and the plan authenticates
/// with the access token of a secret item as a bearer token.
pub open spec fn http_plan_still_current(current: AgentDirectHttpPolicy, stored: AgentDirectHttpPolicy) -> bool {
    let names = |v: Vec<String>| crate::permission_desk::names_view(v@);
    &&& current.account_ref == stored.account_ref
    &&& current.item_kind@ == stored.item_kind@
    &&& current.credential_kind == stored.credential_kind
    &&& current.origin@ == stored.origin@
    &&& current.auth_strategy == stored.auth_strategy
    &&& current.operation.name@ == stored.operation.name@
    &&& current.operation.method@ == stored.operation.method@
    &&& current.operation.path@ == stored.operation.path@
    &&& names(current.operation.request_fields) == names(stored.operation.request_fields)
    &&& names(current.operation.response_fields) == names(stored.operation.response_fields)
    &&& current.operation.request_mode == stored.operation.request_mode
    &&& current.operation.response_mode == stored.operation.response_mode
    &&& current.operation.risk == stored.operation.risk
    &&& current.target_digest@ == stored.target_digest@
    &&& names(current.allowed_output_fields) == names(stored.allowed_output_fields)
    &&& current.max_output_bytes == stored.max_output_bytes
    &&& current.max_output_items == stored.max_output_items
    &&& stored.auth_strategy == AgentHttpAuthStrategy::Bearer
    &&& stored.credential_kind == AgentCredentialKind::Secret
    &&& stored.item_kind@ == "secret"@
}

/// Whether a stored direct HTTP plan may still run (see
/// `http_plan_still_current`), given the plan generated again now.
pub fn http_plan_is_current(current: &AgentDirectHttpPolicy, stored: &AgentDirectHttpPolicy) -> (r: bool)
    ensures
        r == http_plan_still_current(*current, *stored),
{
    let risk_same = match (current.operation.risk, stored.operation.risk) {
        (AgentRiskTier::R0, AgentRiskTier::R0) | (AgentRiskTier::R1, AgentRiskTier::R1) | (AgentRiskTier::R2, AgentRiskTier::R2)
        | (AgentRiskTier::R3, AgentRiskTier::R3) | (AgentRiskTier::R4, AgentRiskTier::R4) => true,
        _ => false,
    };
    current.account_ref == stored.account_ref && str_eq(current.item_kind.as_str(), stored.item_kind.as_str())
        && current.credential_kind == stored.credential_kind && str_eq(current.origin.as_str(), stored.origin.as_str())
        && current.auth_strategy == stored.auth_strategy
        && str_eq(current.operation.name.as_str(), stored.operation.name.as_str())
        && str_eq(current.operation.method.as_str(), stored.operation.method.as_str())
        && str_eq(current.operation.path.as_str(), stored.operation.path.as_str())
        && texts_equal(&current.operation.request_fields, &stored.operation.request_fields)
        && texts_equal(&current.operation.response_fields, &stored.operation.response_fields)
        && body_mode_same(current.operation.request_mode, stored.operation.request_mode)
        && body_mode_same(current.operation.response_mode, stored.operation.response_mode)
        && risk_same
        && str_eq(current.target_digest.as_str(), stored.target_digest.as_str())
        && texts_equal(&current.allowed_output_fields, &stored.allowed_output_fields)
        && current.max_output_bytes == stored.max_output_bytes
        && current.max_output_items == stored.max_output_items
        && stored.auth_strategy == AgentHttpAuthStrategy::Bearer
        && stored.credential_kind == AgentCredentialKind::Secret
        && str_eq(stored.item_kind.as_str(), "secret")
}

} // verus!
