//! Persistent authorization rules: which rules are well formed, how a new rule
//! replaces an equivalent one, and which rule decides an action.
use vstd::prelude::*;
use crate::http_path::{
    is_hex_digit, method_risk, path_matches, spec_method_risk, spec_path_matches, valid_path_pattern,
    validate_pattern, HTTP_PATH_MATCHER_REVISION,
};
use crate::ids::{parse_uuid, uuid_parse};
use crate::model::{PermissionEffect, PermissionScope};
use crate::policy::{opt_ref_view, opt_view, scope_specificity};
use crate::text::{starts_with, str_eq, to_chars};

verus! {

broadcast use vstd::string::group_string_axioms;

/// The largest number of persistent rules a store holds.
pub const MAX_RULES: usize = 500;

/// A persistent authorization rule of one client identity.
#[derive(Clone, Debug, PartialEq, Eq)]
pub struct AgentAuthorizationRule {
    pub id: u128,
    pub client_key: String,
    pub account_ref: String,
    pub target_digest: String,
    pub tool: String,
    pub scope: PermissionScope,
    pub effect: PermissionEffect,
    pub parameters_digest: Option<String>,
    pub catalog_revision: Option<String>,
    pub http_method: Option<String>,
    pub path_pattern: Option<String>,
    pub matcher_revision: Option<String>,
    pub created_at: u64,
    pub updated_at: u64,
}

/// An action looked up in the persistent rules.
pub struct AgentAuthorizationMatch<'a> {
    pub user_id: &'a str,
    pub client_key: &'a str,
    pub account_ref: &'a str,
    pub target_digest: &'a str,
    pub tool: &'a str,
    pub parameters_digest: &'a str,
    pub safe: bool,
    pub catalog_revision: &'a str,
    pub http_method: Option<&'a str>,
    pub http_path: Option<&'a str>,
}

/// The number of UTF-8 bytes of a character.
pub open spec fn utf8_width(c: char) -> int {
    if (c as u32) < 0x80 {
        1
    } else if (c as u32) < 0x800 {
        2
    } else if (c as u32) < 0x10000 {
        3
    } else {
        4
    }
}

/// The number of UTF-8 bytes of a text (`str::len`).
pub open spec fn utf8_len(s: Seq<char>) -> int
    decreases s.len(),
{
    if s.len() == 0 {
        0
    } else {
        utf8_len(s.drop_last()) + utf8_width(s.last())
    }
}

proof fn lemma_utf8_len_prefix(s: Seq<char>, i: int)
    requires
        0 <= i <= s.len(),
    ensures
        utf8_len(s.take(i)) <= utf8_len(s),
    decreases s.len() - i,
{
    if i < s.len() {
        lemma_utf8_len_prefix(s, i + 1);
        assert(s.take(i + 1).drop_last() =~= s.take(i));
    } else {
        assert(s.take(i) =~= s);
    }
}

/// Whether a text has at most `limit` UTF-8 bytes.
pub fn utf8_len_within(s: &str, limit: usize) -> (r: bool)
    ensures
        r == (utf8_len(s@) <= limit),
{
    let v = to_chars(s);
    let mut total: usize = 0;
    let mut i: usize = 0;
    while i < v.len()
        invariant
            v@ == s@,
            i <= v.len(),
            total as int == utf8_len(v@.take(i as int)),
            total <= limit,
        decreases v.len() - i,
    {
        let c = v[i] as u32;
        let w: usize = if c < 0x80 {
            1
        } else if c < 0x800 {
            2
        } else if c < 0x10000 {
            3
        } else {
            4
        };
        assert(v@.take(i + 1).drop_last() =~= v@.take(i as int));
        if w > limit - total {
            proof {
                lemma_utf8_len_prefix(v@, i + 1);
            }
            return false;
        }
        total = total + w;
        i += 1;
    }
    assert(v@.take(v@.len() as int) =~= v@);
    true
}

/// `sha256:` followed by 64 hexadecimal digits.
pub open spec fn spec_valid_digest(v: Seq<char>) -> bool {
    &&& v.len() == 71
    &&& v.subrange(0, 7) == "sha256:"@
    &&& forall|i: int| 7 <= i < 71 ==> is_hex_digit(#[trigger] v[i])
}

/// The fields of a rule that its scope does not use are absent, and the ones
/// it uses are well formed.
pub open spec fn scope_fields_valid(r: AgentAuthorizationRule) -> bool {
    match r.scope {
        PermissionScope::Exact => {
            &&& match r.parameters_digest {
                Some(d) => spec_valid_digest(d@),
                None => false,
            }
            &&& r.catalog_revision is None
            &&& r.http_method is None
            &&& r.path_pattern is None
            &&& r.matcher_revision is None
        },
        PermissionScope::Path => {
            &&& r.tool@ == "vaultmesh_http_request"@
            &&& r.parameters_digest is None
            &&& r.catalog_revision is None
            &&& match r.http_method {
                Some(m) => spec_method_risk(m@) is Some,
                None => false,
            }
            &&& match r.path_pattern {
                Some(p) => valid_path_pattern(p@),
                None => false,
            }
            &&& opt_view(r.matcher_revision) == Some("http-path-v1"@)
        },
        PermissionScope::Safe => {
            &&& r.parameters_digest is None
            &&& r.http_method is None
            &&& r.path_pattern is None
            &&& r.matcher_revision is None
            &&& match r.catalog_revision {
                Some(c) => c@.len() > 0 && utf8_len(c@) <= 128,
                None => false,
            }
        },
        PermissionScope::All => {
            &&& r.parameters_digest is None
            &&& r.catalog_revision is None
            &&& r.http_method is None
            &&& r.path_pattern is None
            &&& r.matcher_revision is None
        },
    }
}

/// A rule that the store accepts.
pub open spec fn spec_rule_valid(r: AgentAuthorizationRule) -> bool {
    &&& r.client_key@.len() > 0
    &&& utf8_len(r.client_key@) <= 128
    &&& uuid_parse(r.account_ref@) is Some
    &&& spec_valid_digest(r.target_digest@)
    &&& r.tool@.len() >= 10 && r.tool@.subrange(0, 10) == "vaultmesh_"@
    &&& utf8_len(r.tool@) <= 128
    &&& scope_fields_valid(r)
}

/// A rule set that the store can save: at most `MAX_RULES` valid rules.
pub open spec fn spec_rule_set_valid(rules: Seq<AgentAuthorizationRule>) -> bool {
    rules.len() <= 500 && forall|i: int| 0 <= i < rules.len() ==> spec_rule_valid(#[trigger] rules[i])
}

/// Two rules are about the same thing and only their effect, id or times differ.
pub open spec fn same_rule_key(a: AgentAuthorizationRule, b: AgentAuthorizationRule) -> bool {
    &&& a.client_key@ == b.client_key@
    &&& a.account_ref@ == b.account_ref@
    &&& a.target_digest@ == b.target_digest@
    &&& a.tool@ == b.tool@
    &&& a.scope == b.scope
    &&& opt_view(a.parameters_digest) == opt_view(b.parameters_digest)
    &&& opt_view(a.catalog_revision) == opt_view(b.catalog_revision)
    &&& opt_view(a.http_method) == opt_view(b.http_method)
    &&& opt_view(a.path_pattern) == opt_view(b.path_pattern)
    &&& opt_view(a.matcher_revision) == opt_view(b.matcher_revision)
}

/// A lookup in plain values.
pub struct MatchQuery {
    pub user_id: Seq<char>,
    pub client_key: Seq<char>,
    pub account_ref: Seq<char>,
    pub target_digest: Seq<char>,
    pub tool: Seq<char>,
    pub parameters_digest: Seq<char>,
    pub safe: bool,
    pub catalog_revision: Seq<char>,
    pub http_method: Option<Seq<char>>,
    pub http_path: Option<Seq<char>>,
}

/// The plain values of a lookup.
pub open spec fn query_view(q: AgentAuthorizationMatch) -> MatchQuery {
    MatchQuery {
        user_id: q.user_id@,
        client_key: q.client_key@,
        account_ref: q.account_ref@,
        target_digest: q.target_digest@,
        tool: q.tool@,
        parameters_digest: q.parameters_digest@,
        safe: q.safe,
        catalog_revision: q.catalog_revision@,
        http_method: opt_ref_view(q.http_method),
        http_path: opt_ref_view(q.http_path),
    }
}

/// Whether a persistent rule covers an action.
pub open spec fn spec_rule_matches(r: AgentAuthorizationRule, q: MatchQuery) -> bool {
    &&& r.client_key@ == q.client_key
    &&& r.account_ref@ == q.account_ref
    &&& r.target_digest@ == q.target_digest
    &&& r.tool@ == q.tool
    &&& match r.scope {
        PermissionScope::Exact => opt_view(r.parameters_digest) == Some(q.parameters_digest),
        PermissionScope::Path => {
            &&& opt_view(r.http_method) == q.http_method
            &&& opt_view(r.matcher_revision) == Some("http-path-v1"@)
            &&& match (r.path_pattern, q.http_path) {
                (Some(pattern), Some(path)) => spec_path_matches(pattern@, path),
                _ => false,
            }
        },
        PermissionScope::Safe => q.safe && opt_view(r.catalog_revision) == Some(q.catalog_revision),
        PermissionScope::All => true,
    }
}

/// The priority of a rule: denials first, then the most specific scope.
pub open spec fn rule_priority(r: AgentAuthorizationRule) -> int {
    (if r.effect == PermissionEffect::Deny { 10int } else { 0int }) + scope_specificity(r.scope)
}

/// The rule that decides an action: the last of the matching rules of highest
/// priority, or `None` when no rule matches.
pub open spec fn is_deciding_rule(rules: Seq<AgentAuthorizationRule>, q: MatchQuery, i: int) -> bool {
    &&& 0 <= i < rules.len()
    &&& spec_rule_matches(rules[i], q)
    &&& forall|j: int| 0 <= j < rules.len() && spec_rule_matches(#[trigger] rules[j], q) ==> rule_priority(rules[j]) <= rule_priority(rules[i])
    &&& forall|j: int| i < j < rules.len() && spec_rule_matches(#[trigger] rules[j], q) ==> rule_priority(rules[j]) < rule_priority(rules[i])
}

/// The rules after `rule` is added: the first rule with the same key is
/// replaced (keeping its id and creation time), or `rule` is appended.
pub open spec fn spec_upserted(rules: Seq<AgentAuthorizationRule>, rule: AgentAuthorizationRule) -> Seq<AgentAuthorizationRule> {
    match first_same_key(rules, rule) {
        Some(i) => rules.update(i, AgentAuthorizationRule { id: rules[i].id, created_at: rules[i].created_at, ..rule }),
        None => rules.push(rule),
    }
}

/// No two rules share a key.
pub open spec fn unique_rule_keys(rules: Seq<AgentAuthorizationRule>) -> bool {
    forall|i: int, j: int| 0 <= i < j < rules.len() ==> !same_rule_key(#[trigger] rules[i], #[trigger] rules[j])
}

proof fn lemma_first_same_key_found(rules: Seq<AgentAuthorizationRule>, rule: AgentAuthorizationRule)
    requires
        first_same_key(rules, rule) is Some,
    ensures
        0 <= first_same_key(rules, rule)->0 < rules.len(),
        same_rule_key(rules[first_same_key(rules, rule)->0], rule),
    decreases rules.len(),
{
    if rules.len() > 0 && first_same_key(rules.drop_last(), rule) is Some {
        lemma_first_same_key_found(rules.drop_last(), rule);
    }
}

proof fn lemma_first_same_key_none(rules: Seq<AgentAuthorizationRule>, rule: AgentAuthorizationRule)
    requires
        first_same_key(rules, rule) is None,
    ensures
        forall|k: int| 0 <= k < rules.len() ==> !same_rule_key(#[trigger] rules[k], rule),
    decreases rules.len(),
{
    if rules.len() > 0 {
        lemma_first_same_key_none(rules.drop_last(), rule);
        assert forall|k: int| 0 <= k < rules.len() implies !same_rule_key(#[trigger] rules[k], rule) by {
            if k < rules.len() - 1 {
                assert(rules[k] == rules.drop_last()[k]);
            }
        }
    }
}

/// Adding a rule keeps a saved rule set saveable: when the store accepts the
/// rule (it is valid, and it replaces a rule or the set has room), every rule
/// stays valid and the set stays within `MAX_RULES`.
pub proof fn law_upsert_keeps_rule_set_valid(rules: Seq<AgentAuthorizationRule>, rule: AgentAuthorizationRule)
    requires
        spec_rule_set_valid(rules),
        spec_rule_valid(rule),
        first_same_key(rules, rule) is Some || rules.len() < 500,
    ensures
        spec_rule_set_valid(spec_upserted(rules, rule)),
{
    let out = spec_upserted(rules, rule);
    if first_same_key(rules, rule) is Some {
        lemma_first_same_key_found(rules, rule);
        let i = first_same_key(rules, rule)->0;
        assert forall|k: int| 0 <= k < out.len() implies spec_rule_valid(#[trigger] out[k]) by {
            if k != i {
                assert(out[k] == rules[k]);
            }
        }
    } else {
        assert forall|k: int| 0 <= k < out.len() implies spec_rule_valid(#[trigger] out[k]) by {
            if k < rules.len() {
                assert(out[k] == rules[k]);
            }
        }
    }
}

/// Adding a rule never creates two rules with the same key.
pub proof fn law_upsert_keeps_keys_unique(rules: Seq<AgentAuthorizationRule>, rule: AgentAuthorizationRule)
    requires
        unique_rule_keys(rules),
    ensures
        unique_rule_keys(spec_upserted(rules, rule)),
{
    let out = spec_upserted(rules, rule);
    if first_same_key(rules, rule) is Some {
        lemma_first_same_key_found(rules, rule);
        let i = first_same_key(rules, rule)->0;
        assert forall|a: int, b: int| 0 <= a < b < out.len() implies !same_rule_key(#[trigger] out[a], #[trigger] out[b]) by {
            if a == i {
                assert(!same_rule_key(rules[i], rules[b]));
            } else if b == i {
                assert(!same_rule_key(rules[a], rules[i]));
            } else {
                assert(out[a] == rules[a] && out[b] == rules[b]);
            }
        }
    } else {
        lemma_first_same_key_none(rules, rule);
        assert forall|a: int, b: int| 0 <= a < b < out.len() implies !same_rule_key(#[trigger] out[a], #[trigger] out[b]) by {
            if b == rules.len() {
                assert(out[a] == rules[a]);
                assert(!same_rule_key(rules[a], rule));
            } else {
                assert(out[a] == rules[a] && out[b] == rules[b]);
            }
        }
    }
}

/// What was stored is found again: after adding a rule, every action that the
/// rule covers is covered by a stored rule of the same scope and effect.
pub proof fn law_upserted_rule_is_found(rules: Seq<AgentAuthorizationRule>, rule: AgentAuthorizationRule, q: MatchQuery)
    requires
        spec_rule_matches(rule, q),
    ensures
        exists|i: int| 0 <= i < spec_upserted(rules, rule).len() && spec_rule_matches(#[trigger] spec_upserted(rules, rule)[i], q)
            && spec_upserted(rules, rule)[i].effect == rule.effect && spec_upserted(rules, rule)[i].scope == rule.scope,
{
    let out = spec_upserted(rules, rule);
    if first_same_key(rules, rule) is Some {
        lemma_first_same_key_found(rules, rule);
        let i = first_same_key(rules, rule)->0;
        assert(spec_rule_matches(out[i], q));
    } else {
        assert(spec_rule_matches(out[rules.len() as int], q));
    }
}

/// A matching persistent denial always wins: the deciding rule of an action
/// that some rule denies is a denial.
pub proof fn law_persistent_deny_wins(rules: Seq<AgentAuthorizationRule>, q: MatchQuery, i: int, denying: int)
    requires
        is_deciding_rule(rules, q, i),
        0 <= denying < rules.len(),
        spec_rule_matches(rules[denying], q),
        rules[denying].effect == PermissionEffect::Deny,
    ensures
        rules[i].effect == PermissionEffect::Deny,
{
    assert(rule_priority(rules[denying]) <= rule_priority(rules[i]));
}

/// Revoking a client identity removes its authority: after its rules are
/// removed, no remaining rule covers any action of that identity.
pub proof fn law_removed_client_has_no_rules(rules: Seq<AgentAuthorizationRule>, client_key: Seq<char>, q: MatchQuery)
    requires
        q.client_key == client_key,
    ensures
        forall|k: int| 0 <= k < rules_without_client(rules, client_key).len()
            ==> !spec_rule_matches(#[trigger] rules_without_client(rules, client_key)[k], q),
{
    broadcast use vstd::seq_lib::group_filter_ensures;
}

/// The rules of every other client identity.
pub open spec fn rules_without_client(rules: Seq<AgentAuthorizationRule>, client_key: Seq<char>) -> Seq<AgentAuthorizationRule> {
    rules.filter(|r: AgentAuthorizationRule| r.client_key@ != client_key)
}

// ----------------------------------------------------------------------------
// Executable functions
// ----------------------------------------------------------------------------

/// Whether a digest is `sha256:` followed by 64 hexadecimal digits.
pub fn valid_digest(value: &str) -> (r: bool)
    ensures
        r == spec_valid_digest(value@),
{
    let v = to_chars(value);
    proof {
        reveal_strlit("sha256:");
    }
    if v.len() != 71 || !starts_with(value, "sha256:") {
        return false;
    }
    let mut i: usize = 7;
    while i < 71
        invariant
            v@ == value@,
            v.len() == 71,
            7 <= i <= 71,
            forall|k: int| 7 <= k < i ==> is_hex_digit(#[trigger] v@[k]),
        decreases 71 - i,
    {
        let b = v[i] as u32;
        if !((b >= 48 && b <= 57) || (b >= 97 && b <= 102) || (b >= 65 && b <= 70)) {
            return false;
        }
        i += 1;
    }
    true
}

fn opt_str_eq(a: &Option<String>, b: &Option<String>) -> (r: bool)
    ensures
        r == (opt_view(*a) == opt_view(*b)),
{
    match (a, b) {
        (Some(x), Some(y)) => str_eq(x.as_str(), y.as_str()),
        (None, None) => true,
        _ => false,
    }
}

fn opt_str_eq_ref(a: &Option<String>, b: Option<&str>) -> (r: bool)
    ensures
        r == (opt_view(*a) == opt_ref_view(b)),
{
    match (a, b) {
        (Some(x), Some(y)) => str_eq(x.as_str(), y),
        (None, None) => true,
        _ => false,
    }
}

impl AgentAuthorizationRule {
    /// Whether the store accepts this rule.
    pub fn valid(&self) -> (r: bool)
        ensures
            r == spec_rule_valid(*self),
    {
        proof {
            reveal_strlit("vaultmesh_");
            reveal_strlit("http-path-v1");
        }
        if self.client_key.as_str().is_empty() || !utf8_len_within(self.client_key.as_str(), 128) || parse_uuid(
            self.account_ref.as_str(),
        ).is_none() || !valid_digest(self.target_digest.as_str()) || !starts_with(self.tool.as_str(), "vaultmesh_")
            || !utf8_len_within(self.tool.as_str(), 128) {
            return false;
        }
        match self.scope {
            PermissionScope::Exact => {
                (match &self.parameters_digest {
                    Some(d) => valid_digest(d.as_str()),
                    None => false,
                }) && self.catalog_revision.is_none() && self.http_method.is_none() && self.path_pattern.is_none()
                    && self.matcher_revision.is_none()
            },
            PermissionScope::Path => {
                str_eq(self.tool.as_str(), "vaultmesh_http_request") && self.parameters_digest.is_none()
                    && self.catalog_revision.is_none() && (match &self.http_method {
                    Some(m) => method_risk(m.as_str()).is_ok(),
                    None => false,
                }) && (match &self.path_pattern {
                    Some(p) => validate_pattern(p.as_str()).is_ok(),
                    None => false,
                }) && opt_str_eq_ref(&self.matcher_revision, Some(HTTP_PATH_MATCHER_REVISION))
            },
            PermissionScope::Safe => {
                self.parameters_digest.is_none() && self.http_method.is_none() && self.path_pattern.is_none()
                    && self.matcher_revision.is_none() && match &self.catalog_revision {
                    Some(c) => !c.as_str().is_empty() && utf8_len_within(c.as_str(), 128),
                    None => false,
                }
            },
            PermissionScope::All => {
                self.parameters_digest.is_none() && self.catalog_revision.is_none() && self.http_method.is_none()
                    && self.path_pattern.is_none() && self.matcher_revision.is_none()
            },
        }
    }
}

/// Whether a rule set can be saved: at most `MAX_RULES` rules, all valid.
pub fn rule_set_valid(rules: &Vec<AgentAuthorizationRule>) -> (r: bool)
    ensures
        r == spec_rule_set_valid(rules@),
{
    if rules.len() > MAX_RULES {
        return false;
    }
    let mut i: usize = 0;
    while i < rules.len()
        invariant
            i <= rules.len(),
            forall|k: int| 0 <= k < i ==> spec_rule_valid(#[trigger] rules@[k]),
        decreases rules.len() - i,
    {
        if !rules[i].valid() {
            return false;
        }
        i += 1;
    }
    true
}

fn same_key(a: &AgentAuthorizationRule, b: &AgentAuthorizationRule) -> (r: bool)
    ensures
        r == same_rule_key(*a, *b),
{
    str_eq(a.client_key.as_str(), b.client_key.as_str()) && str_eq(a.account_ref.as_str(), b.account_ref.as_str())
        && str_eq(a.target_digest.as_str(), b.target_digest.as_str()) && str_eq(a.tool.as_str(), b.tool.as_str())
        && a.scope == b.scope && opt_str_eq(&a.parameters_digest, &b.parameters_digest) && opt_str_eq(
        &a.catalog_revision,
        &b.catalog_revision,
    ) && opt_str_eq(&a.http_method, &b.http_method) && opt_str_eq(&a.path_pattern, &b.path_pattern)
        && opt_str_eq(&a.matcher_revision, &b.matcher_revision)
}

/// Adds a rule, replacing the first rule with the same key (which keeps its id
/// and creation time); refused for an invalid rule or a full set.
pub fn upsert_rule(rules: &mut Vec<AgentAuthorizationRule>, rule: AgentAuthorizationRule) -> (r: Result<(), ()>)
    ensures
        r is Ok <==> spec_rule_valid(rule) && (exists|i: int| 0 <= i < old(rules)@.len() && same_rule_key(#[trigger] old(rules)@[i], rule)
            || old(rules)@.len() < 500),
        r is Err ==> final(rules)@ == old(rules)@,
        r is Ok ==> final(rules)@ == spec_upserted(old(rules)@, rule),
{
    if !rule.valid() {
        return Err(());
    }
    let mut i: usize = 0;
    while i < rules.len()
        invariant
            i <= rules.len(),
            rules@ == old(rules)@,
            spec_rule_valid(rule),
            forall|k: int| 0 <= k < i ==> !same_rule_key(#[trigger] rules@[k], rule),
        decreases rules.len() - i,
    {
        if same_key(&rules[i], &rule) {
            proof {
                lemma_first_same_key(old(rules)@, rule, i as int);
            }
            let id = rules[i].id;
            let created_at = rules[i].created_at;
            let replaced = AgentAuthorizationRule { id, created_at, ..rule };
            rules.set(i, replaced);
            return Ok(());
        }
        i += 1;
    }
    proof {
        lemma_no_same_key(old(rules)@, rule);
    }
    if rules.len() >= MAX_RULES {
        return Err(());
    }
    rules.push(rule);
    Ok(())
}

/// The index of the first rule with the same key as `rule`.
pub open spec fn first_same_key(rules: Seq<AgentAuthorizationRule>, rule: AgentAuthorizationRule) -> Option<int>
    decreases rules.len(),
{
    if rules.len() == 0 {
        None
    } else if same_rule_key(rules.last(), rule) && first_same_key(rules.drop_last(), rule) is None {
        Some(rules.len() - 1)
    } else {
        first_same_key(rules.drop_last(), rule)
    }
}

proof fn lemma_first_same_key_prefix(rules: Seq<AgentAuthorizationRule>, rule: AgentAuthorizationRule, n: int)
    requires
        0 <= n <= rules.len(),
        forall|k: int| 0 <= k < n ==> !same_rule_key(#[trigger] rules[k], rule),
    ensures
        first_same_key(rules.subrange(0, n), rule) is None,
    decreases n,
{
    if n > 0 {
        assert(rules.subrange(0, n).drop_last() =~= rules.subrange(0, n - 1));
        lemma_first_same_key_prefix(rules, rule, n - 1);
    }
}

proof fn lemma_first_same_key_extend(rules: Seq<AgentAuthorizationRule>, rule: AgentAuthorizationRule, n: int)
    requires
        0 <= n <= rules.len(),
        first_same_key(rules.subrange(0, n), rule) is Some,
    ensures
        first_same_key(rules, rule) == first_same_key(rules.subrange(0, n), rule),
    decreases rules.len() - n,
{
    if n < rules.len() {
        assert(rules.subrange(0, n + 1).drop_last() =~= rules.subrange(0, n));
        lemma_first_same_key_extend(rules, rule, n + 1);
    } else {
        assert(rules.subrange(0, n) =~= rules);
    }
}

proof fn lemma_first_same_key(rules: Seq<AgentAuthorizationRule>, rule: AgentAuthorizationRule, i: int)
    requires
        0 <= i < rules.len(),
        same_rule_key(rules[i], rule),
        forall|k: int| 0 <= k < i ==> !same_rule_key(#[trigger] rules[k], rule),
    ensures
        first_same_key(rules, rule) == Some(i),
{
    lemma_first_same_key_prefix(rules, rule, i);
    assert(rules.subrange(0, i + 1).drop_last() =~= rules.subrange(0, i));
    assert(rules.subrange(0, i + 1).last() == rules[i]);
    lemma_first_same_key_extend(rules, rule, i + 1);
}

proof fn lemma_no_same_key(rules: Seq<AgentAuthorizationRule>, rule: AgentAuthorizationRule)
    requires
        forall|k: int| 0 <= k < rules.len() ==> !same_rule_key(#[trigger] rules[k], rule),
    ensures
        first_same_key(rules, rule) is None,
{
    lemma_first_same_key_prefix(rules, rule, rules.len() as int);
    assert(rules.subrange(0, rules.len() as int) =~= rules);
}

/// Whether a persistent rule covers an action.
pub fn rule_matches(rule: &AgentAuthorizationRule, query: &AgentAuthorizationMatch) -> (r: bool)
    ensures
        r == spec_rule_matches(*rule, query_view(*query)),
{
    if !str_eq(rule.client_key.as_str(), query.client_key) || !str_eq(rule.account_ref.as_str(), query.account_ref)
        || !str_eq(rule.target_digest.as_str(), query.target_digest) || !str_eq(rule.tool.as_str(), query.tool) {
        return false;
    }
    proof {
        reveal_strlit("http-path-v1");
    }
    match rule.scope {
        PermissionScope::Exact => match &rule.parameters_digest {
            Some(d) => str_eq(d.as_str(), query.parameters_digest),
            None => false,
        },
        PermissionScope::Path => {
            opt_str_eq_ref(&rule.http_method, query.http_method) && opt_str_eq_ref(
                &rule.matcher_revision,
                Some(HTTP_PATH_MATCHER_REVISION),
            ) && match (&rule.path_pattern, query.http_path) {
                (Some(pattern), Some(path)) => path_matches(pattern.as_str(), path),
                _ => false,
            }
        },
        PermissionScope::Safe => query.safe && match &rule.catalog_revision {
            Some(c) => str_eq(c.as_str(), query.catalog_revision),
            None => false,
        },
        PermissionScope::All => true,
    }
}

fn rule_priority_exec(r: &AgentAuthorizationRule) -> (p: u8)
    ensures
        p as int == rule_priority(*r),
{
    let deny: u8 = if r.effect == PermissionEffect::Deny { 10 } else { 0 };
    let specificity: u8 = match r.scope {
        PermissionScope::Exact => 4,
        PermissionScope::Path => 3,
        PermissionScope::Safe => 2,
        PermissionScope::All => 1,
    };
    deny + specificity
}

/// The index of the rule that decides an action.
pub fn deciding_rule_index(rules: &Vec<AgentAuthorizationRule>, query: &AgentAuthorizationMatch) -> (r: Option<usize>)
    ensures
        match r {
            Some(i) => is_deciding_rule(rules@, query_view(*query), i as int),
            None => forall|j: int| 0 <= j < rules.len() ==> !spec_rule_matches(#[trigger] rules@[j], query_view(*query)),
        },
{
    let ghost q = query_view(*query);
    let mut best: Option<usize> = None;
    let mut best_priority: u8 = 0;
    let mut i: usize = 0;
    while i < rules.len()
        invariant
            i <= rules.len(),
            q == query_view(*query),
            match best {
                Some(b) => {
                    &&& b < i
                    &&& best_priority as int == rule_priority(rules@[b as int])
                    &&& spec_rule_matches(rules@[b as int], q)
                    &&& forall|j: int| 0 <= j < i && spec_rule_matches(#[trigger] rules@[j], q) ==> rule_priority(rules@[j]) <= rule_priority(rules@[b as int])
                    &&& forall|j: int| b < j < i && spec_rule_matches(#[trigger] rules@[j], q) ==> rule_priority(rules@[j]) < rule_priority(rules@[b as int])
                },
                None => forall|j: int| 0 <= j < i ==> !spec_rule_matches(#[trigger] rules@[j], q),
            },
        decreases rules.len() - i,
    {
        if rule_matches(&rules[i], query) {
            let priority = rule_priority_exec(&rules[i]);
            let better = match best {
                Some(_) => priority >= best_priority,
                None => true,
            };
            if better {
                best = Some(i);
                best_priority = priority;
            }
        }
        i += 1;
    }
    best
}

/// The rule that decides an action, if any.
pub fn matching_rule(rules: &Vec<AgentAuthorizationRule>, query: &AgentAuthorizationMatch) -> (r: Option<AgentAuthorizationRule>)
    ensures
        match r {
            Some(rule) => exists|i: int| is_deciding_rule(rules@, query_view(*query), i) && rules@[i] == rule,
            None => forall|j: int| 0 <= j < rules.len() ==> !spec_rule_matches(#[trigger] rules@[j], query_view(*query)),
        },
{
    match deciding_rule_index(rules, query) {
        Some(i) => {
            let rule = clone_rule(&rules[i]);
            assert(is_deciding_rule(rules@, query_view(*query), i as int));
            Some(rule)
        },
        None => None,
    }
}

fn clone_opt(o: &Option<String>) -> (r: Option<String>)
    ensures
        r == *o,
{
    match o {
        Some(s) => Some(s.clone()),
        None => None,
    }
}

/// A copy of a rule.
pub fn clone_rule(r: &AgentAuthorizationRule) -> (c: AgentAuthorizationRule)
    ensures
        c == *r,
{
    AgentAuthorizationRule {
        id: r.id,
        client_key: r.client_key.clone(),
        account_ref: r.account_ref.clone(),
        target_digest: r.target_digest.clone(),
        tool: r.tool.clone(),
        scope: r.scope,
        effect: r.effect,
        parameters_digest: clone_opt(&r.parameters_digest),
        catalog_revision: clone_opt(&r.catalog_revision),
        http_method: clone_opt(&r.http_method),
        path_pattern: clone_opt(&r.path_pattern),
        matcher_revision: clone_opt(&r.matcher_revision),
        created_at: r.created_at,
        updated_at: r.updated_at,
    }
}

/// Removes every rule of a client identity; whether any rule was removed.
pub fn remove_client_rules(rules: &mut Vec<AgentAuthorizationRule>, client_key: &str) -> (changed: bool)
    ensures
        final(rules)@ == rules_without_client(old(rules)@, client_key@),
        changed == (final(rules)@.len() != old(rules)@.len()),
{
    let ghost keep = |r: AgentAuthorizationRule| r.client_key@ != client_key@;
    let mut kept: Vec<AgentAuthorizationRule> = Vec::new();
    let mut i: usize = 0;
    let n = rules.len();
    while i < n
        invariant
            n == rules.len(),
            rules@ == old(rules)@,
            i <= n,
            kept@ == rules@.take(i as int).filter(keep),
            keep == (|r: AgentAuthorizationRule| r.client_key@ != client_key@),
        decreases n - i,
    {
        proof {
            assert(rules@.take(i + 1).drop_last() =~= rules@.take(i as int));
        }
        let ghost before = kept@;
        if !str_eq(rules[i].client_key.as_str(), client_key) {
            kept.push(clone_rule(&rules[i]));
            assert(kept@ =~= before.push(rules@[i as int]));
        }
        assert(rules@.take(i + 1).last() == rules@[i as int]);
        assert(kept@ == rules@.take(i + 1).filter(keep)) by {
            reveal_with_fuel(Seq::filter, 1);
        }
        i += 1;
    }
    assert(rules@.take(n as int) =~= rules@);
    let changed = kept.len() != n;
    *rules = kept;
    changed
}

/// Removes the rule with id `rule_id`; whether one was removed.
pub fn remove_rule_by_id(rules: &mut Vec<AgentAuthorizationRule>, rule_id: u128) -> (removed: bool)
    ensures
        final(rules)@ == old(rules)@.filter(|r: AgentAuthorizationRule| r.id != rule_id),
        removed == (final(rules)@.len() != old(rules)@.len()),
{
    let ghost keep = |r: AgentAuthorizationRule| r.id != rule_id;
    let mut kept: Vec<AgentAuthorizationRule> = Vec::new();
    let mut i: usize = 0;
    let n = rules.len();
    while i < n
        invariant
            n == rules.len(),
            rules@ == old(rules)@,
            i <= n,
            kept@ == rules@.take(i as int).filter(keep),
            keep == (|r: AgentAuthorizationRule| r.id != rule_id),
        decreases n - i,
    {
        proof {
            assert(rules@.take(i + 1).drop_last() =~= rules@.take(i as int));
        }
        let ghost before = kept@;
        if rules[i].id != rule_id {
            kept.push(clone_rule(&rules[i]));
            assert(kept@ =~= before.push(rules@[i as int]));
        }
        assert(rules@.take(i + 1).last() == rules@[i as int]);
        assert(kept@ == rules@.take(i + 1).filter(keep)) by {
            reveal_with_fuel(Seq::filter, 1);
        }
        i += 1;
    }
    assert(rules@.take(n as int) =~= rules@);
    let removed = kept.len() != n;
    *rules = kept;
    removed
}

} // verus!
