//! The revision of an account catalog page: a digest of the filters, the
//! ordered entries and the API environments, which a page cursor carries so
//! that a changed catalog invalidates it.
use vstd::prelude::*;
use crate::account_catalog::{AccountPageQuery, AgentApiEnvironmentCandidate};
use crate::account_page::{AccountAction, AccountEntry, AccountSource};
use crate::authz_envelope::{hex_lower, lower_hex, sha256, sha256_digest, str_bytes};
use crate::error::AgentBrokerError;
use crate::ids::{format_uuid, uuid_text};
use crate::json::{json_view, JsonValue, JsonView};
use crate::json_text::{json_chars, json_text};
use crate::text::{copy_string, from_chars, to_chars};
use crate::text_order::{sorted_unique, strictly_sorted, string_texts};

verus! {

broadcast use vstd::string::group_string_axioms;

/// A list of texts as a JSON array of strings.
pub open spec fn texts_json(v: Seq<String>) -> JsonView {
    JsonView::Array(Seq::new(v.len(), |i: int| JsonView::String(v[i]@)))
}

/// An optional text as a JSON string or `null`.
pub open spec fn opt_text_json(o: Option<String>) -> JsonView {
    match o {
        Some(s) => JsonView::String(s@),
        None => JsonView::Null,
    }
}

/// The JSON object of an action (members in key order).
pub open spec fn action_json(a: AccountAction) -> JsonView {
    JsonView::Object(seq![("name"@, JsonView::String(a.name@)), ("risk"@, opt_text_json(a.risk)), ("tools"@, texts_json(a.tools@))])
}

/// The JSON object of an entry (members in key order), as a page lists it.
pub open spec fn entry_json(e: AccountEntry) -> JsonView {
    let actions = JsonView::Array(Seq::new(e.actions@.len(), |i: int| action_json(e.actions@[i])));
    match e.source {
        AccountSource::ApiEnvironment { openapi_url } => JsonView::Object(seq![
            ("accountRef"@, JsonView::String(e.account_ref@)),
            ("actions"@, actions),
            ("capabilities"@, texts_json(e.capabilities@)),
            ("environment"@, JsonView::String(e.environment@)),
            ("environmentRef"@, JsonView::String(e.account_ref@)),
            ("kind"@, JsonView::String(e.kind@)),
            ("label"@, JsonView::String(e.label@)),
            ("openapiUrl"@, opt_text_json(openapi_url)),
        ]),
        _ => JsonView::Object(seq![
            ("accountRef"@, JsonView::String(e.account_ref@)),
            ("actions"@, actions),
            ("capabilities"@, texts_json(e.capabilities@)),
            ("environment"@, JsonView::String(e.environment@)),
            ("kind"@, JsonView::String(e.kind@)),
            ("label"@, JsonView::String(e.label@)),
        ]),
    }
}

/// The JSON object of the filters: each filter's distinct texts in order,
/// and the text filter or `null` (members in key order).
pub open spec fn query_json(q: AccountPageQuery, kinds: Seq<String>, capabilities: Seq<String>, environments: Seq<String>) -> JsonView {
    JsonView::Object(seq![
        ("capabilities"@, texts_json(capabilities)),
        ("environments"@, texts_json(environments)),
        ("kinds"@, texts_json(kinds)),
        ("query"@, opt_text_json(q.query)),
    ])
}

/// The 16 bytes of a UUID, most significant first.
pub open spec fn uuid_bytes(id: u128) -> Seq<u8> {
    Seq::new(16, |i: int| ((id >> (8 * (15 - i)) as u128) & 0xff) as u8)
}

/// The 8 bytes of a revision number, least significant first.
pub open spec fn revision_le_bytes(n: u64) -> Seq<u8> {
    Seq::new(8, |i: int| ((n >> (8 * i) as u64) & 0xff) as u8)
}

/// The bytes that an API environment adds to the revision.
pub open spec fn environment_bytes(c: AgentApiEnvironmentCandidate) -> Seq<u8> {
    uuid_bytes(c.environment_ref) + revision_le_bytes(c.revision) + vstd::utf8::encode_utf8(c.policy_digest@) + seq![0u8]
}

/// The bytes of the entries' JSON texts, each followed by a zero byte.
pub open spec fn entries_bytes(es: Seq<AccountEntry>) -> Option<Seq<u8>>
    decreases es.len(),
{
    if es.len() == 0 {
        Some(Seq::empty())
    } else {
        match (entries_bytes(es.drop_last()), json_text(entry_json(es.last()))) {
            (Some(head), Some(t)) => Some(head + vstd::utf8::encode_utf8(t) + seq![0u8]),
            _ => None,
        }
    }
}

/// The bytes of the API environments.
pub open spec fn environments_bytes(cs: Seq<AgentApiEnvironmentCandidate>) -> Seq<u8>
    decreases cs.len(),
{
    if cs.len() == 0 {
        Seq::empty()
    } else {
        environments_bytes(cs.drop_last()) + environment_bytes(cs.last())
    }
}

proof fn lemma_entries_bytes_stay_none(es: Seq<AccountEntry>, k: int)
    requires
        0 <= k <= es.len(),
        entries_bytes(es.take(k)) is None,
    ensures
        entries_bytes(es) is None,
    decreases es.len() - k,
{
    if k < es.len() {
        assert(es.take(k + 1).drop_last() =~= es.take(k));
        lemma_entries_bytes_stay_none(es, k + 1);
    } else {
        assert(es.take(k) =~= es);
    }
}

proof fn lemma_lower_hex_len(d: Seq<u8>)
    ensures
        lower_hex(d).len() == 2 * d.len(),
    decreases d.len(),
{
    if d.len() > 0 {
        lemma_lower_hex_len(d.drop_last());
    }
}

fn texts_value(v: &Vec<String>) -> (r: JsonValue)
    ensures
        json_view(r) == texts_json(v@),
{
    let mut items: Vec<JsonValue> = Vec::new();
    let mut i: usize = 0;
    while i < v.len()
        invariant
            i <= v.len(),
            items.len() == i,
            forall|k: int| 0 <= k < i ==> json_view(#[trigger] items@[k]) == JsonView::String(v@[k]@),
        decreases v.len() - i,
    {
        items.push(JsonValue::String(copy_string(v[i].as_str())));
        i += 1;
    }
    let r = JsonValue::Array(items);
    assert(json_view(r) == texts_json(v@)) by {
        if let JsonView::Array(a) = json_view(r) {
            assert(a =~= Seq::new(v@.len(), |i: int| JsonView::String(v@[i]@)));
        }
    }
    r
}

fn opt_text_value(o: &Option<String>) -> (r: JsonValue)
    ensures
        json_view(r) == opt_text_json(*o),
{
    match o {
        Some(s) => JsonValue::String(copy_string(s.as_str())),
        None => JsonValue::Null,
    }
}

pub(crate) fn member(key: &str, value: JsonValue) -> (r: (String, JsonValue))
    ensures
        r.0@ == key@,
        r.1 == value,
{
    (copy_string(key), value)
}

pub(crate) fn object_of(members: Vec<(String, JsonValue)>, Ghost(view): Ghost<Seq<(Seq<char>, JsonView)>>) -> (r: JsonValue)
    requires
        members.len() == view.len(),
        forall|i: int| 0 <= i < view.len() ==> (#[trigger] members@[i]).0@ == view[i].0 && json_view(members@[i].1) == view[i].1,
    ensures
        json_view(r) == JsonView::Object(view),
{
    let r = JsonValue::Object(members);
    assert(json_view(r) == JsonView::Object(view)) by {
        if let JsonView::Object(a) = json_view(r) {
            assert(a =~= view);
        }
    }
    r
}

fn action_value(a: &AccountAction) -> (r: JsonValue)
    ensures
        json_view(r) == action_json(*a),
{
    let ghost view = seq![("name"@, JsonView::String(a.name@)), ("risk"@, opt_text_json(a.risk)), ("tools"@, texts_json(a.tools@))];
    let members = vec![
        member("name", JsonValue::String(copy_string(a.name.as_str()))),
        member("risk", opt_text_value(&a.risk)),
        member("tools", texts_value(&a.tools)),
    ];
    object_of(members, Ghost(view))
}

/// The JSON value of an entry (see `entry_json`).
pub fn entry_value(e: &AccountEntry) -> (r: JsonValue)
    ensures
        json_view(r) == entry_json(*e),
{
    let mut acts: Vec<JsonValue> = Vec::new();
    let mut i: usize = 0;
    while i < e.actions.len()
        invariant
            i <= e.actions.len(),
            acts.len() == i,
            forall|k: int| 0 <= k < i ==> json_view(#[trigger] acts@[k]) == action_json(e.actions@[k]),
        decreases e.actions.len() - i,
    {
        acts.push(action_value(&e.actions[i]));
        i += 1;
    }
    let ghost actions_view = JsonView::Array(Seq::new(e.actions@.len(), |i: int| action_json(e.actions@[i])));
    let actions = JsonValue::Array(acts);
    assert(json_view(actions) == actions_view) by {
        if let JsonView::Array(a) = json_view(actions) {
            assert(a =~= Seq::new(e.actions@.len(), |i: int| action_json(e.actions@[i])));
        }
    }
    match &e.source {
        AccountSource::ApiEnvironment { openapi_url } => {
            let ghost view = seq![
                ("accountRef"@, JsonView::String(e.account_ref@)),
                ("actions"@, actions_view),
                ("capabilities"@, texts_json(e.capabilities@)),
                ("environment"@, JsonView::String(e.environment@)),
                ("environmentRef"@, JsonView::String(e.account_ref@)),
                ("kind"@, JsonView::String(e.kind@)),
                ("label"@, JsonView::String(e.label@)),
                ("openapiUrl"@, opt_text_json(*openapi_url)),
            ];
            let members = vec![
                member("accountRef", JsonValue::String(copy_string(e.account_ref.as_str()))),
                member("actions", actions),
                member("capabilities", texts_value(&e.capabilities)),
                member("environment", JsonValue::String(copy_string(e.environment.as_str()))),
                member("environmentRef", JsonValue::String(copy_string(e.account_ref.as_str()))),
                member("kind", JsonValue::String(copy_string(e.kind.as_str()))),
                member("label", JsonValue::String(copy_string(e.label.as_str()))),
                member("openapiUrl", opt_text_value(openapi_url)),
            ];
            object_of(members, Ghost(view))
        },
        _ => {
            let ghost view = seq![
                ("accountRef"@, JsonView::String(e.account_ref@)),
                ("actions"@, actions_view),
                ("capabilities"@, texts_json(e.capabilities@)),
                ("environment"@, JsonView::String(e.environment@)),
                ("kind"@, JsonView::String(e.kind@)),
                ("label"@, JsonView::String(e.label@)),
            ];
            let members = vec![
                member("accountRef", JsonValue::String(copy_string(e.account_ref.as_str()))),
                member("actions", actions),
                member("capabilities", texts_value(&e.capabilities)),
                member("environment", JsonValue::String(copy_string(e.environment.as_str()))),
                member("kind", JsonValue::String(copy_string(e.kind.as_str()))),
                member("label", JsonValue::String(copy_string(e.label.as_str()))),
            ];
            object_of(members, Ghost(view))
        },
    }
}

fn text_bytes_of(v: &JsonValue) -> (r: Option<Vec<u8>>)
    ensures
        match json_text(json_view(*v)) {
            Some(t) => r matches Some(b) && b@ == vstd::utf8::encode_utf8(t),
            None => r is None,
        },
{
    match json_chars(v) {
        Some(c) => {
            let s = from_chars(&c);
            Some(str_bytes(s.as_str()))
        },
        None => None,
    }
}

fn push_bytes(out: &mut Vec<u8>, b: &Vec<u8>)
    ensures
        final(out)@ == old(out)@ + b@,
{
    let mut i: usize = 0;
    while i < b.len()
        invariant
            i <= b.len(),
            out@ == old(out)@ + b@.take(i as int),
        decreases b.len() - i,
    {
        out.push(b[i]);
        assert(b@.take(i + 1) =~= b@.take(i as int).push(b@[i as int]));
        i += 1;
    }
    assert(b@.take(b@.len() as int) =~= b@);
}

fn environment_byte_list(c: &AgentApiEnvironmentCandidate) -> (r: Vec<u8>)
    ensures
        r@ == environment_bytes(*c),
{
    let mut out: Vec<u8> = Vec::new();
    let mut i: usize = 0;
    while i < 16
        invariant
            i <= 16,
            out@ == uuid_bytes(c.environment_ref).take(i as int),
        decreases 16 - i,
    {
        let shift: u128 = 8 * (15 - i as u128);
        out.push(((c.environment_ref >> shift) & 0xff) as u8);
        assert(out@ =~= uuid_bytes(c.environment_ref).take(i + 1));
        i += 1;
    }
    let mut j: usize = 0;
    while j < 8
        invariant
            j <= 8,
            out@ == uuid_bytes(c.environment_ref) + revision_le_bytes(c.revision).take(j as int),
        decreases 8 - j,
    {
        let shift: u64 = 8 * j as u64;
        out.push(((c.revision >> shift) & 0xff) as u8);
        assert(out@ =~= uuid_bytes(c.environment_ref) + revision_le_bytes(c.revision).take(j + 1));
        j += 1;
    }
    assert(revision_le_bytes(c.revision).take(8) =~= revision_le_bytes(c.revision));
    let digest = str_bytes(c.policy_digest.as_str());
    push_bytes(&mut out, &digest);
    out.push(0u8);
    assert(out@ =~= environment_bytes(*c));
    out
}

/// The revision of an account page: the first 16 lower-case hexadecimal
/// digits of the SHA-256 digest of the filters' JSON text (each filter's
/// distinct texts in order), then each entry's JSON text in page order and
/// a zero byte, then each API environment's reference (16 bytes, most
/// significant first), revision (8 bytes, least significant first), policy
/// digest and a zero byte. An entry without a JSON text is an internal fault.
pub fn account_catalog_revision(
    q: &AccountPageQuery,
    entries: &Vec<AccountEntry>,
    order: &Vec<usize>,
    environments: &Vec<AgentApiEnvironmentCandidate>,
) -> (r: Result<String, AgentBrokerError>)
    requires
        forall|k: int| 0 <= k < order.len() ==> (#[trigger] order@[k]) < entries.len(),
    ensures
        ({
            let ordered = Seq::new(order.len() as nat, |k: int| entries@[order@[k] as int]);
            exists|kinds: Seq<String>, caps: Seq<String>, envs: Seq<String>| {
                &&& #[trigger] strictly_sorted(string_texts(kinds)) && string_texts(kinds).to_set() == string_texts(q.kinds@).to_set()
                &&& #[trigger] strictly_sorted(string_texts(caps)) && string_texts(caps).to_set() == string_texts(q.capabilities@).to_set()
                &&& #[trigger] strictly_sorted(string_texts(envs)) && string_texts(envs).to_set() == string_texts(q.environments@).to_set()
                &&& (r is Ok <==> (json_text(query_json(*q, kinds, caps, envs)) is Some && entries_bytes(ordered) is Some))
                &&& (r matches Ok(rev) ==> rev@ == lower_hex(sha256_digest(vstd::utf8::encode_utf8(json_text(query_json(*q, kinds, caps, envs))->0)
                    + entries_bytes(ordered)->0 + environments_bytes(environments@))).take(16))
                &&& (r matches Err(e) ==> e.code@ == "broker-unavailable"@)
            }
        }),
{
    let ghost ordered = Seq::new(order.len() as nat, |k: int| entries@[order@[k] as int]);
    let kinds = sorted_unique(&q.kinds);
    let caps = sorted_unique(&q.capabilities);
    let envs = sorted_unique(&q.environments);
    proof {
        assert(strictly_sorted(string_texts(kinds@)));
        assert(strictly_sorted(string_texts(caps@)));
        assert(strictly_sorted(string_texts(envs@)));
    }
    let members = vec![
        member("capabilities", texts_value(&caps)),
        member("environments", texts_value(&envs)),
        member("kinds", texts_value(&kinds)),
        member("query", opt_text_value(&q.query)),
    ];
    let ghost qmembers = seq![
        ("capabilities"@, texts_json(caps@)),
        ("environments"@, texts_json(envs@)),
        ("kinds"@, texts_json(kinds@)),
        ("query"@, opt_text_json(q.query)),
    ];
    let query = object_of(members, Ghost(qmembers));
    let mut bytes = match text_bytes_of(&query) {
        Some(b) => b,
        None => return Err(AgentBrokerError::internal()),
    };
    let ghost head = bytes@;
    let mut k: usize = 0;
    while k < order.len()
        invariant
            k <= order.len(),
            forall|j: int| 0 <= j < order.len() ==> (#[trigger] order@[j]) < entries.len(),
            ordered == Seq::new(order.len() as nat, |k: int| entries@[order@[k] as int]),
            entries_bytes(ordered.take(k as int)) matches Some(eb) && bytes@ == head + eb,
            strictly_sorted(string_texts(kinds@)) && string_texts(kinds@).to_set() == string_texts(q.kinds@).to_set(),
            strictly_sorted(string_texts(caps@)) && string_texts(caps@).to_set() == string_texts(q.capabilities@).to_set(),
            strictly_sorted(string_texts(envs@)) && string_texts(envs@).to_set() == string_texts(q.environments@).to_set(),
            json_text(query_json(*q, kinds@, caps@, envs@)) is Some,
        decreases order.len() - k,
    {
        assert(ordered.take(k + 1).drop_last() =~= ordered.take(k as int));
        assert(ordered.take(k + 1).last() == entries@[order@[k as int] as int]);
        let v = entry_value(&entries[order[k]]);
        let b = match text_bytes_of(&v) {
            Some(b) => b,
            None => {
                proof {
                    assert(json_text(entry_json(ordered.take(k + 1).last())) is None);
                    assert(entries_bytes(ordered.take(k + 1)) is None);
                    lemma_entries_bytes_stay_none(ordered, k + 1);
                }
                return Err(AgentBrokerError::internal());
            },
        };
        push_bytes(&mut bytes, &b);
        bytes.push(0u8);
        assert(bytes@ =~= head + entries_bytes(ordered.take(k + 1))->0);
        k += 1;
    }
    assert(ordered.take(order.len() as int) =~= ordered);
    let ghost mid = bytes@;
    let mut m: usize = 0;
    while m < environments.len()
        invariant
            m <= environments.len(),
            bytes@ == mid + environments_bytes(environments@.take(m as int)),
        decreases environments.len() - m,
    {
        assert(environments@.take(m + 1).drop_last() =~= environments@.take(m as int));
        let b = environment_byte_list(&environments[m]);
        push_bytes(&mut bytes, &b);
        assert(bytes@ =~= mid + environments_bytes(environments@.take(m + 1)));
        m += 1;
    }
    assert(environments@.take(environments.len() as int) =~= environments@);
    let digest = sha256(bytes.as_slice());
    let hex = hex_lower(digest.as_slice());
    let chars = to_chars(hex.as_str());
    let mut out: Vec<char> = Vec::new();
    let mut i: usize = 0;
    proof {
        lemma_lower_hex_len(digest@);
    }
    while i < 16
        invariant
            i <= 16,
            chars@ == lower_hex(digest@),
            chars@.len() == 64,
            out@ == chars@.take(i as int),
        decreases 16 - i,
    {
        out.push(chars[i]);
        assert(out@ =~= chars@.take(i + 1));
        i += 1;
    }
    let rev = from_chars(&out);
    proof {
        assert(strictly_sorted(string_texts(kinds@)));
        assert(strictly_sorted(string_texts(caps@)));
        assert(strictly_sorted(string_texts(envs@)));
    }
    Ok(rev)
}

} // verus!
