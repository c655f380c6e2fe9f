//! The entries of an account page: which Vault accounts, API environments
//! and connectors a page lists, what each entry advertises, and the order
//! of the entries.
use vstd::prelude::*;
use crate::account_catalog::{lowercase_text, opt_text, to_lowercase, AccountPageQuery, AgentApiEnvironmentCandidate};
use crate::direct_permission::{AgentAccountPolicy, AgentOperationPolicy, AgentVaultAccountCandidate};
use crate::ids::{format_uuid, uuid_text};
use crate::model::{AgentRegistry, AgentToolDefinition};
use crate::policy::{candidate_tools, spec_candidate_tools};
use crate::text::{chars_contain, contains_text, copy_string, starts_with, str_eq, str_views, to_chars};
use crate::text_order::{
    insert_sorted_unique, is_tuple_order, sorted_unique, lemma_text_less_irreflexive, lemma_text_less_total, lemma_text_less_transitive,
    strictly_sorted, string_texts, text_less, tuple_less, tuple_order, tuple_texts,
};
use crate::error::AgentBrokerError;

verus! {

broadcast use vstd::string::group_string_axioms;

/// A named action that an entry advertises: the tools it uses and its risk.
#[derive(Debug)]
pub struct AccountAction {
    pub name: String,
    pub tools: Vec<String>,
    pub risk: Option<String>,
}

/// Where an entry of an account page comes from.
#[derive(Debug)]
pub enum AccountSource {
    /// A Vault account candidate.
    Vault,
    /// An API environment, with the address of its OpenAPI document.
    ApiEnvironment { openapi_url: Option<String> },
    /// A connector definition that stands for a Vault account.
    Connector,
}

/// One entry of an account page.
#[derive(Debug)]
pub struct AccountEntry {
    pub account_ref: String,
    pub label: String,
    pub kind: String,
    pub environment: String,
    pub capabilities: Vec<String>,
    pub actions: Vec<AccountAction>,
    pub source: AccountSource,
}

// ----------------------------------------------------------------------------
// Specification
// ----------------------------------------------------------------------------

/// An action as plain values: name, tools and risk.
pub type ActionView = (Seq<char>, Seq<Seq<char>>, Option<Seq<char>>);

/// The plain values of an action.
pub open spec fn action_view(a: AccountAction) -> ActionView {
    (a.name@, string_texts(a.tools@), opt_text(a.risk))
}

/// The plain values of a list of actions.
pub open spec fn action_views(v: Seq<AccountAction>) -> Seq<ActionView> {
    Seq::new(v.len(), |i: int| action_view(v[i]))
}

/// The capability that the registry gives tool `name`: that of the last
/// tool of that name.
pub open spec fn tool_capability(tools: Seq<AgentToolDefinition>, name: Seq<char>) -> Option<Seq<char>>
    decreases tools.len(),
{
    if tools.len() == 0 {
        None
    } else if tools.last().name@ == name {
        Some(tools.last().capability@)
    } else {
        tool_capability(tools.drop_last(), name)
    }
}

/// Some tool of `tools` has capability `c` in the registry.
pub open spec fn offers_capability(registry: Seq<AgentToolDefinition>, tools: Seq<Seq<char>>, c: Seq<char>) -> bool {
    exists|j: int| 0 <= j < tools.len() && tool_capability(registry, #[trigger] tools[j]) == Some(c)
}

/// The capabilities that `tools` offer.
pub open spec fn offered_capabilities(registry: Seq<AgentToolDefinition>, tools: Seq<Seq<char>>) -> Set<Seq<char>> {
    Set::new(|c: Seq<char>| offers_capability(registry, tools, c))
}

/// Every capability of `caps` is offered by some tool of `tools`.
pub open spec fn offers_all(registry: Seq<AgentToolDefinition>, tools: Seq<Seq<char>>, caps: Seq<Seq<char>>) -> bool {
    forall|i: int| 0 <= i < caps.len() ==> offers_capability(registry, tools, #[trigger] caps[i])
}

/// A filter of texts admits `x`: it is empty or holds `x`.
pub open spec fn filter_admits(filter: Seq<Seq<char>>, x: Seq<char>) -> bool {
    filter.len() == 0 || filter.contains(x)
}

/// The text filter admits a label: there is none, or the lower-cased label
/// contains it.
pub open spec fn query_admits(q: Option<Seq<char>>, label: Seq<char>) -> bool {
    match q {
        Some(q) => contains_text(lowercase_text(label), q),
        None => true,
    }
}

/// The tool that opens a fixed SSH tunnel.
pub open spec fn tunnel_tool() -> Seq<char> {
    "vaultmesh_ssh_tunnel_open"@
}

/// A connector that offers the SSH tunnels of account `key`.
pub open spec fn offers_tunnels(p: AgentAccountPolicy, key: Seq<char>) -> bool {
    &&& p.enabled
    &&& p.connector_kind@ == "ssh"@
    &&& p.account_ref@ == key
    &&& string_texts(p.allowed_tools@).contains(tunnel_tool())
}

/// The operations of a connector that open a tunnel.
pub open spec fn tunnel_operations_of(ops: Seq<AgentOperationPolicy>) -> Seq<AgentOperationPolicy>
    decreases ops.len(),
{
    if ops.len() == 0 {
        ops
    } else if string_texts(ops.last().tools@).contains(tunnel_tool()) {
        tunnel_operations_of(ops.drop_last()).push(ops.last())
    } else {
        tunnel_operations_of(ops.drop_last())
    }
}

/// The tunnel operations of account `key`, over all connectors in turn.
pub open spec fn tunnel_operations(ps: Seq<AgentAccountPolicy>, key: Seq<char>) -> Seq<AgentOperationPolicy>
    decreases ps.len(),
{
    if ps.len() == 0 {
        Seq::empty()
    } else if offers_tunnels(ps.last(), key) {
        tunnel_operations(ps.drop_last(), key) + tunnel_operations_of(ps.last().operations@)
    } else {
        tunnel_operations(ps.drop_last(), key)
    }
}

/// The tools that a Vault account lists: those of its kind, without the
/// tunnel tool unless a connector offers tunnels for it.
pub open spec fn offered_tools(tools: Seq<Seq<char>>, tunnels: bool) -> Seq<Seq<char>>
    decreases tools.len(),
{
    if tools.len() == 0 {
        tools
    } else if tools.last() != tunnel_tool() || tunnels {
        offered_tools(tools.drop_last(), tunnels).push(tools.last())
    } else {
        offered_tools(tools.drop_last(), tunnels)
    }
}

/// The tools that Vault account `c` lists.
pub open spec fn candidate_tool_names(c: AgentVaultAccountCandidate, connectors: Seq<AgentAccountPolicy>) -> Seq<Seq<char>> {
    offered_tools(spec_candidate_tools(c.kind@), tunnel_operations(connectors, uuid_text(c.account_ref)).len() > 0)
}

/// A page lists Vault account `c`.
pub open spec fn vault_candidate_selected(
    registry: AgentRegistry,
    q: AccountPageQuery,
    c: AgentVaultAccountCandidate,
    connectors: Seq<AgentAccountPolicy>,
) -> bool {
    &&& filter_admits(string_texts(q.kinds@), c.kind@)
    &&& query_admits(opt_text(q.query), c.label@)
    &&& filter_admits(string_texts(q.environments@), "default"@)
    &&& offers_all(registry.tools@, candidate_tool_names(c, connectors), string_texts(q.capabilities@))
}

/// A page lists API environment `c`.
pub open spec fn api_environment_selected(q: AccountPageQuery, c: AgentApiEnvironmentCandidate) -> bool {
    &&& filter_admits(string_texts(q.kinds@), "api-environment"@)
    &&& query_admits(opt_text(q.query), c.label@)
    &&& filter_admits(string_texts(q.environments@), c.environment@)
    &&& forall|i: int| 0 <= i < q.capabilities@.len() ==> (#[trigger] q.capabilities@[i])@ == c.capability@
}

/// A page lists connector `p`.
pub open spec fn connector_selected(registry: AgentRegistry, q: AccountPageQuery, p: AgentAccountPolicy) -> bool {
    &&& p.enabled
    &&& p.connector_kind@ != "ssh"@
    &&& p.operations@.len() > 0
    &&& filter_admits(string_texts(q.kinds@), p.catalog_kind@)
    &&& query_admits(opt_text(q.query), p.display_label@)
    &&& filter_admits(string_texts(q.environments@), p.environment@)
    &&& offers_all(registry.tools@, string_texts(p.allowed_tools@), string_texts(q.capabilities@))
}

/// The advertised capabilities: those that `tools` offer, sorted, each once.
pub open spec fn advertises(caps: Seq<String>, registry: AgentRegistry, tools: Seq<Seq<char>>) -> bool {
    strictly_sorted(string_texts(caps)) && string_texts(caps).to_set() == offered_capabilities(registry.tools@, tools)
}

/// The fixed SSH actions that follow the named commands.
pub open spec fn fixed_ssh_actions() -> Seq<ActionView> {
    seq![
        ("upload"@, seq!["vaultmesh_local_file_select"@, "vaultmesh_ssh_upload"@], Some("R2"@)),
        ("download"@, seq!["vaultmesh_ssh_download"@, "vaultmesh_result_save"@], Some("R1"@)),
        ("install-public-key"@, seq!["vaultmesh_ssh_public_key_install"@], Some("R2"@)),
        ("setup-openssh-host"@, seq!["vaultmesh_ssh_host_setup"@], Some("R3"@)),
        ("pty"@, seq![
            "vaultmesh_ssh_pty_open"@,
            "vaultmesh_ssh_pty_read"@,
            "vaultmesh_ssh_pty_write"@,
            "vaultmesh_ssh_pty_resize"@,
            "vaultmesh_ssh_pty_close"@,
        ], Some("R3"@)),
    ]
}

/// The action of a named command that an SSH account may run.
pub open spec fn command_action(program: Seq<char>) -> ActionView {
    (program, seq!["vaultmesh_ssh_exec"@], Some("R1"@))
}

/// The action of a tunnel operation.
pub open spec fn tunnel_action(o: AgentOperationPolicy) -> ActionView {
    (o.name@, seq![tunnel_tool()], Some(o.risk@))
}

/// `actions` are the tunnel actions of `ops`, ordered by name.
pub open spec fn tunnel_actions_in_order(actions: Seq<ActionView>, ops: Seq<AgentOperationPolicy>) -> bool {
    exists|order: Seq<usize>| #[trigger] crate::text_order::is_tuple_order(name_keys(ops), order) && actions.len() == ops.len()
        && forall|k: int| 0 <= k < actions.len() ==> #[trigger] actions[k] == tunnel_action(ops[order[k] as int])
}

/// The sort keys of operations: their names.
pub open spec fn name_keys(ops: Seq<AgentOperationPolicy>) -> Seq<Seq<Seq<char>>> {
    Seq::new(ops.len(), |i: int| seq![ops[i].name@])
}

/// The actions of Vault account `c`: HTTP for a secret; for an SSH account
/// the named commands, the fixed actions and its tunnels by name; none for
/// other kinds.
pub open spec fn vault_actions_are(
    actions: Seq<ActionView>,
    c: AgentVaultAccountCandidate,
    connectors: Seq<AgentAccountPolicy>,
    programs: Seq<Seq<char>>,
) -> bool {
    if c.kind@ == "secret"@ {
        actions == seq![("http"@, seq!["vaultmesh_http_request"@], Some("method-dependent"@))]
    } else if c.kind@ == "ssh"@ {
        let n = programs.len();
        let m = n + fixed_ssh_actions().len();
        &&& actions.len() >= m
        &&& forall|i: int| 0 <= i < n ==> #[trigger] actions[i] == command_action(programs[i])
        &&& actions.subrange(n as int, m as int) == fixed_ssh_actions()
        &&& tunnel_actions_in_order(actions.skip(m as int), tunnel_operations(connectors, uuid_text(c.account_ref)))
    } else {
        actions.len() == 0
    }
}

/// Entry `e` lists Vault account `c`.
pub open spec fn is_vault_entry(
    e: AccountEntry,
    registry: AgentRegistry,
    c: AgentVaultAccountCandidate,
    connectors: Seq<AgentAccountPolicy>,
    programs: Seq<Seq<char>>,
) -> bool {
    &&& e.account_ref@ == uuid_text(c.account_ref)
    &&& e.label@ == c.label@
    &&& e.kind@ == c.kind@
    &&& e.environment@ == "default"@
    &&& e.source is Vault
    &&& advertises(e.capabilities@, registry, candidate_tool_names(c, connectors))
    &&& vault_actions_are(action_views(e.actions@), c, connectors, programs)
}

/// Entry `e` lists API environment `c`.
pub open spec fn is_api_environment_entry(e: AccountEntry, c: AgentApiEnvironmentCandidate) -> bool {
    &&& e.account_ref@ == uuid_text(c.environment_ref)
    &&& e.label@ == c.label@
    &&& e.kind@ == "api-environment"@
    &&& e.environment@ == c.environment@
    &&& string_texts(e.capabilities@) == seq![c.capability@]
    &&& e.actions@.len() == 0
    &&& e.source matches AccountSource::ApiEnvironment { openapi_url } && opt_text(openapi_url) == opt_text(c.openapi_url)
}

/// The public operations of a connector: those whose name does not start
/// with `__`.
pub open spec fn public_operations(ops: Seq<AgentOperationPolicy>) -> Seq<AgentOperationPolicy>
    decreases ops.len(),
{
    if ops.len() == 0 {
        ops
    } else if ops.last().name@.len() >= 2 && ops.last().name@.take(2) == "__"@ {
        public_operations(ops.drop_last())
    } else {
        public_operations(ops.drop_last()).push(ops.last())
    }
}

/// Entry `e` lists connector `p`: its public operations by name, each with
/// its tools sorted.
pub open spec fn is_connector_entry(e: AccountEntry, registry: AgentRegistry, p: AgentAccountPolicy) -> bool {
    &&& e.account_ref@ == p.account_ref@
    &&& e.label@ == p.display_label@
    &&& e.kind@ == p.catalog_kind@
    &&& e.environment@ == p.environment@
    &&& e.source is Connector
    &&& advertises(e.capabilities@, registry, string_texts(p.allowed_tools@))
    &&& {
        let ops = public_operations(p.operations@);
        let acts = e.actions@;
        exists|order: Seq<usize>| #[trigger] crate::text_order::is_tuple_order(name_keys(ops), order) && acts.len() == ops.len()
            && forall|k: int| 0 <= k < acts.len() ==> {
                let o = ops[order[k] as int];
                &&& (#[trigger] acts[k]).name@ == o.name@
                &&& acts[k].risk matches Some(r) && r@ == o.risk@
                &&& strictly_sorted(string_texts(acts[k].tools@))
                &&& string_texts(acts[k].tools@).to_set() == string_texts(o.tools@).to_set()
            }
    }
}


// ----------------------------------------------------------------------------
// Building blocks
// ----------------------------------------------------------------------------

fn capability_of<'a>(registry: &'a AgentRegistry, name: &str) -> (r: Option<&'a String>)
    ensures
        opt_text_ref(r) == tool_capability(registry.tools@, name@),
{
    let mut i = registry.tools.len();
    assert(registry.tools@.take(i as int) =~= registry.tools@);
    while i > 0
        invariant
            i <= registry.tools.len(),
            tool_capability(registry.tools@, name@) == tool_capability(registry.tools@.take(i as int), name@),
        decreases i,
    {
        let t = &registry.tools[i - 1];
        assert(registry.tools@.take(i as int).drop_last() =~= registry.tools@.take(i - 1));
        if str_eq(t.name.as_str(), name) {
            return Some(&t.capability);
        }
        i -= 1;
    }
    None
}

/// The text of an optional borrowed string.
pub open spec fn opt_text_ref(o: Option<&String>) -> Option<Seq<char>> {
    match o {
        Some(s) => Some(s@),
        None => None,
    }
}

/// Whether a list of strings holds `x`.
pub fn strings_contain(v: &Vec<String>, x: &str) -> (r: bool)
    ensures
        r == string_texts(v@).contains(x@),
{
    let mut i: usize = 0;
    while i < v.len()
        invariant
            i <= v.len(),
            forall|k: int| 0 <= k < i ==> v@[k]@ != x@,
        decreases v.len() - i,
    {
        if str_eq(v[i].as_str(), x) {
            assert(string_texts(v@)[i as int] == x@);
            return true;
        }
        i += 1;
    }
    assert(!string_texts(v@).contains(x@)) by {
        if string_texts(v@).contains(x@) {
            let k = choose|k: int| 0 <= k < string_texts(v@).len() && string_texts(v@)[k] == x@;
            assert(v@[k]@ == x@);
        }
    }
    false
}

/// The capabilities that `tools` offer, sorted, each once.
pub fn advertised_capabilities(registry: &AgentRegistry, tools: &Vec<String>) -> (r: Vec<String>)
    ensures
        advertises(r@, *registry, string_texts(tools@)),
{
    let ghost reg = registry.tools@;
    let ghost ts = string_texts(tools@);
    let mut out: Vec<String> = Vec::new();
    assert(string_texts(out@) =~= Seq::<Seq<char>>::empty());
    let mut i: usize = 0;
    while i < tools.len()
        invariant
            i <= tools.len(),
            ts == string_texts(tools@),
            reg == registry.tools@,
            strictly_sorted(string_texts(out@)),
            string_texts(out@).to_set() == Set::new(|c: Seq<char>| exists|j: int| 0 <= j < i && tool_capability(reg, #[trigger] ts[j]) == Some(c)),
        decreases tools.len() - i,
    {
        let ghost before = string_texts(out@).to_set();
        match capability_of(registry, tools[i].as_str()) {
            Some(c) => {
                insert_sorted_unique(&mut out, copy_string(c.as_str()));
            },
            None => {},
        }
        proof {
            assert(ts[i as int] == tools@[i as int]@);
            assert(string_texts(out@).to_set() =~= Set::new(|c: Seq<char>| exists|j: int| 0 <= j < i + 1 && tool_capability(reg, #[trigger] ts[j]) == Some(c))) by {
                assert forall|c: Seq<char>| string_texts(out@).to_set().contains(c) implies exists|j: int| 0 <= j < i + 1 && tool_capability(reg, #[trigger] ts[j]) == Some(c) by {
                    if !before.contains(c) {
                        assert(tool_capability(reg, ts[i as int]) == Some(c));
                    }
                }
                assert forall|c: Seq<char>| (exists|j: int| 0 <= j < i + 1 && tool_capability(reg, #[trigger] ts[j]) == Some(c)) implies string_texts(out@).to_set().contains(c) by {
                    let j = choose|j: int| 0 <= j < i + 1 && tool_capability(reg, #[trigger] ts[j]) == Some(c);
                    if j < i {
                        assert(before.contains(c));
                    }
                }
            }
        }
        i += 1;
    }
    assert(string_texts(out@).to_set() =~= offered_capabilities(reg, ts));
    out
}

/// The tools of an item of kind `kind`, without the tunnel tool unless
/// `tunnels`.
fn offered_tool_list(kind: &str, tunnels: bool) -> (r: Vec<String>)
    ensures
        string_texts(r@) == offered_tools(spec_candidate_tools(kind@), tunnels),
{
    let all = candidate_tools(kind);
    let ghost spec_all = spec_candidate_tools(kind@);
    let mut out: Vec<String> = Vec::new();
    let mut i: usize = 0;
    while i < all.len()
        invariant
            i <= all.len(),
            str_views(all@) == spec_all,
            string_texts(out@) == offered_tools(spec_all.take(i as int), tunnels),
        decreases all.len() - i,
    {
        assert(spec_all.take(i + 1).drop_last() =~= spec_all.take(i as int));
        assert(spec_all[i as int] == all@[i as int]@);
        if tunnels || !str_eq(all[i], "vaultmesh_ssh_tunnel_open") {
            out.push(copy_string(all[i]));
            assert(string_texts(out@) =~= offered_tools(spec_all.take(i as int), tunnels).push(all@[i as int]@));
        }
        i += 1;
    }
    assert(spec_all.take(all.len() as int) =~= spec_all);
    out
}

/// The names and risks of the tunnel operations of account `key`.
fn tunnel_operation_list(connectors: &Vec<AgentAccountPolicy>, key: &str) -> (r: Vec<(String, String)>)
    ensures
        r.len() == tunnel_operations(connectors@, key@).len(),
        forall|k: int| 0 <= k < r.len() ==> {
            &&& (#[trigger] r@[k]).0@ == tunnel_operations(connectors@, key@)[k].name@
            &&& r@[k].1@ == tunnel_operations(connectors@, key@)[k].risk@
        },
{
    let mut out: Vec<(String, String)> = Vec::new();
    let mut i: usize = 0;
    while i < connectors.len()
        invariant
            i <= connectors.len(),
            out.len() == tunnel_operations(connectors@.take(i as int), key@).len(),
            forall|k: int| 0 <= k < out.len() ==> {
                &&& (#[trigger] out@[k]).0@ == tunnel_operations(connectors@.take(i as int), key@)[k].name@
                &&& out@[k].1@ == tunnel_operations(connectors@.take(i as int), key@)[k].risk@
            },
        decreases connectors.len() - i,
    {
        let p = &connectors[i];
        assert(connectors@.take(i + 1).drop_last() =~= connectors@.take(i as int));
        assert(connectors@.take(i + 1).last() == *p);
        let ghost base = tunnel_operations(connectors@.take(i as int), key@);
        if p.enabled && str_eq(p.connector_kind.as_str(), "ssh") && str_eq(p.account_ref.as_str(), key)
            && strings_contain(&p.allowed_tools, "vaultmesh_ssh_tunnel_open") {
            let ghost start = out.len() as int;
            let mut j: usize = 0;
            while j < p.operations.len()
                invariant
                    j <= p.operations.len(),
                    start == base.len(),
                    out.len() == start + tunnel_operations_of(p.operations@.take(j as int)).len(),
                    forall|k: int| 0 <= k < start ==> {
                        &&& (#[trigger] out@[k]).0@ == base[k].name@
                        &&& out@[k].1@ == base[k].risk@
                    },
                    forall|k: int| start <= k < out.len() ==> {
                        &&& (#[trigger] out@[k]).0@ == tunnel_operations_of(p.operations@.take(j as int))[k - start].name@
                        &&& out@[k].1@ == tunnel_operations_of(p.operations@.take(j as int))[k - start].risk@
                    },
                decreases p.operations.len() - j,
            {
                let o = &p.operations[j];
                assert(p.operations@.take(j + 1).drop_last() =~= p.operations@.take(j as int));
                assert(p.operations@.take(j + 1).last() == *o);
                if strings_contain(&o.tools, "vaultmesh_ssh_tunnel_open") {
                    out.push((copy_string(o.name.as_str()), copy_string(o.risk.as_str())));
                }
                j += 1;
            }
            assert(p.operations@.take(p.operations.len() as int) =~= p.operations@);
            let ghost added = tunnel_operations_of(p.operations@);
            assert(tunnel_operations(connectors@.take(i + 1), key@) == base + added);
            assert forall|k: int| 0 <= k < out.len() implies {
                &&& (#[trigger] out@[k]).0@ == (base + added)[k].name@
                &&& out@[k].1@ == (base + added)[k].risk@
            } by {
                if k < start {
                } else {
                    assert((base + added)[k] == added[k - start]);
                }
            }
        } else {
            assert(tunnel_operations(connectors@.take(i + 1), key@) == base);
        }
        i += 1;
    }
    assert(connectors@.take(connectors.len() as int) =~= connectors@);
    out
}


// ----------------------------------------------------------------------------
// Selection
// ----------------------------------------------------------------------------

fn filter_admits_text(filter: &Vec<String>, x: &str) -> (r: bool)
    ensures
        r == filter_admits(string_texts(filter@), x@),
{
    filter.len() == 0 || strings_contain(filter, x)
}

fn query_admits_label(q: &Option<String>, label: &str) -> (r: bool)
    ensures
        r == query_admits(opt_text(*q), label@),
{
    match q {
        Some(q) => {
            let lower = to_lowercase(label);
            chars_contain(&to_chars(lower.as_str()), &to_chars(q.as_str()))
        },
        None => true,
    }
}

fn offers_capability_exec(registry: &AgentRegistry, tools: &Vec<String>, c: &str) -> (r: bool)
    ensures
        r == offers_capability(registry.tools@, string_texts(tools@), c@),
{
    let mut j: usize = 0;
    while j < tools.len()
        invariant
            j <= tools.len(),
            forall|k: int| 0 <= k < j ==> tool_capability(registry.tools@, #[trigger] string_texts(tools@)[k]) != Some(c@),
        decreases tools.len() - j,
    {
        assert(string_texts(tools@)[j as int] == tools@[j as int]@);
        match capability_of(registry, tools[j].as_str()) {
            Some(t) => {
                if str_eq(t.as_str(), c) {
                    return true;
                }
            },
            None => {},
        }
        j += 1;
    }
    false
}

fn offers_all_exec(registry: &AgentRegistry, tools: &Vec<String>, caps: &Vec<String>) -> (r: bool)
    ensures
        r == offers_all(registry.tools@, string_texts(tools@), string_texts(caps@)),
{
    let mut i: usize = 0;
    while i < caps.len()
        invariant
            i <= caps.len(),
            forall|k: int| 0 <= k < i ==> offers_capability(registry.tools@, string_texts(tools@), #[trigger] string_texts(caps@)[k]),
        decreases caps.len() - i,
    {
        assert(string_texts(caps@)[i as int] == caps@[i as int]@);
        if !offers_capability_exec(registry, tools, caps[i].as_str()) {
            return false;
        }
        i += 1;
    }
    true
}

/// Whether a page lists Vault account `c` (see `vault_candidate_selected`).
pub fn vault_candidate_listed(
    registry: &AgentRegistry,
    q: &AccountPageQuery,
    c: &AgentVaultAccountCandidate,
    connectors: &Vec<AgentAccountPolicy>,
) -> (r: bool)
    ensures
        r == vault_candidate_selected(*registry, *q, *c, connectors@),
{
    proof {
        reveal_strlit("default");
    }
    let key = format_uuid(c.account_ref);
    let tunnels = tunnel_operation_list(connectors, key.as_str());
    let tools = offered_tool_list(c.kind.as_str(), tunnels.len() > 0);
    filter_admits_text(&q.kinds, c.kind.as_str()) && query_admits_label(&q.query, c.label.as_str())
        && filter_admits_text(&q.environments, "default") && offers_all_exec(registry, &tools, &q.capabilities)
}

/// Whether a page lists API environment `c` (see `api_environment_selected`).
pub fn api_environment_listed(q: &AccountPageQuery, c: &AgentApiEnvironmentCandidate) -> (r: bool)
    ensures
        r == api_environment_selected(*q, *c),
{
    if !filter_admits_text(&q.kinds, "api-environment") || !query_admits_label(&q.query, c.label.as_str())
        || !filter_admits_text(&q.environments, c.environment.as_str()) {
        return false;
    }
    let mut i: usize = 0;
    while i < q.capabilities.len()
        invariant
            i <= q.capabilities.len(),
            forall|k: int| 0 <= k < i ==> (#[trigger] q.capabilities@[k])@ == c.capability@,
        decreases q.capabilities.len() - i,
    {
        if !str_eq(q.capabilities[i].as_str(), c.capability.as_str()) {
            return false;
        }
        i += 1;
    }
    true
}

/// Whether a page lists connector `p` (see `connector_selected`).
pub fn connector_listed(registry: &AgentRegistry, q: &AccountPageQuery, p: &AgentAccountPolicy) -> (r: bool)
    ensures
        r == connector_selected(*registry, *q, *p),
{
    p.enabled && !str_eq(p.connector_kind.as_str(), "ssh") && p.operations.len() > 0 && filter_admits_text(
        &q.kinds,
        p.catalog_kind.as_str(),
    ) && query_admits_label(&q.query, p.display_label.as_str()) && filter_admits_text(
        &q.environments,
        p.environment.as_str(),
    ) && offers_all_exec(registry, &p.allowed_tools, &q.capabilities)
}


// ----------------------------------------------------------------------------
// Entries
// ----------------------------------------------------------------------------

fn string_list(items: Vec<&str>) -> (r: Vec<String>)
    ensures
        string_texts(r@) == str_views(items@),
{
    let mut out: Vec<String> = Vec::new();
    let mut i: usize = 0;
    while i < items.len()
        invariant
            i <= items.len(),
            out.len() == i,
            string_texts(out@) == str_views(items@).take(i as int),
        decreases items.len() - i,
    {
        let ghost before = out@;
        out.push(copy_string(items[i]));
        proof {
            assert forall|k: int| 0 <= k < i + 1 implies #[trigger] string_texts(out@)[k] == str_views(items@).take(i + 1)[k] by {
                if k < i {
                    assert(out@[k] == before[k]);
                    assert(string_texts(before)[k] == str_views(items@).take(i as int)[k]);
                }
            }
            assert(string_texts(out@) =~= str_views(items@).take(i + 1));
        }
        i += 1;
    }
    assert(str_views(items@).take(items.len() as int) =~= str_views(items@));
    out
}

fn fixed_action(name: &str, tools: Vec<&str>, risk: &str) -> (a: AccountAction)
    ensures
        action_view(a) == (name@, str_views(tools@), Some(risk@)),
{
    AccountAction { name: copy_string(name), tools: string_list(tools), risk: Some(copy_string(risk)) }
}

/// The tunnel actions of the given operations (names and risks), by name.
fn tunnel_actions(tunnels: &Vec<(String, String)>, Ghost(ops): Ghost<Seq<AgentOperationPolicy>>) -> (r: Vec<AccountAction>)
    requires
        tunnels.len() == ops.len(),
        forall|k: int| 0 <= k < tunnels.len() ==> {
            &&& (#[trigger] tunnels@[k]).0@ == ops[k].name@
            &&& tunnels@[k].1@ == ops[k].risk@
        },
    ensures
        tunnel_actions_in_order(action_views(r@), ops),
{
    proof {
        reveal_strlit("vaultmesh_ssh_tunnel_open");
    }
    let mut keys: Vec<Vec<String>> = Vec::new();
    let mut i: usize = 0;
    while i < tunnels.len()
        invariant
            i <= tunnels.len(),
            tunnels.len() == ops.len(),
            forall|k: int| 0 <= k < tunnels.len() ==> (#[trigger] tunnels@[k]).0@ == ops[k].name@,
            keys.len() == i,
            tuple_texts(keys@) == name_keys(ops).take(i as int),
        decreases tunnels.len() - i,
    {
        let key = vec![copy_string(tunnels[i].0.as_str())];
        assert(string_texts(key@) =~= seq![ops[i as int].name@]);
        let ghost before = keys@;
        keys.push(key);
        proof {
            assert forall|k: int| 0 <= k < i + 1 implies #[trigger] tuple_texts(keys@)[k] == name_keys(ops).take(i + 1)[k] by {
                if k < i {
                    assert(keys@[k] == before[k]);
                    assert(tuple_texts(before)[k] == name_keys(ops).take(i as int)[k]);
                }
            }
            assert(tuple_texts(keys@) =~= name_keys(ops).take(i + 1));
        }
        i += 1;
    }
    assert(name_keys(ops).take(tunnels.len() as int) =~= name_keys(ops));
    let order = tuple_order(&keys);
    let mut out: Vec<AccountAction> = Vec::new();
    let mut k: usize = 0;
    while k < order.len()
        invariant
            k <= order.len(),
            out.len() == k,
            tunnels.len() == ops.len(),
            forall|j: int| 0 <= j < tunnels.len() ==> {
                &&& (#[trigger] tunnels@[j]).0@ == ops[j].name@
                &&& tunnels@[j].1@ == ops[j].risk@
            },
            is_tuple_order(name_keys(ops), order@),
            forall|j: int| 0 <= j < k ==> #[trigger] action_views(out@)[j] == tunnel_action(ops[order@[j] as int]),
        decreases order.len() - k,
    {
        let t = &tunnels[order[k]];
        let a = fixed_action(t.0.as_str(), vec!["vaultmesh_ssh_tunnel_open"], t.1.as_str());
        assert(str_views(seq!["vaultmesh_ssh_tunnel_open"]) =~= seq![tunnel_tool()]);
        assert(action_view(a) == tunnel_action(ops[order@[k as int] as int]));
        let ghost before = out@;
        out.push(a);
        proof {
            assert forall|j: int| 0 <= j < k + 1 implies #[trigger] action_views(out@)[j] == tunnel_action(ops[order@[j] as int]) by {
                if j < k {
                    assert(out@[j] == before[j]);
                    assert(action_views(before)[j] == tunnel_action(ops[order@[j] as int]));
                }
            }
        }
        k += 1;
    }
    assert(is_tuple_order(name_keys(ops), order@));
    out
}

fn fixed_tools_action(name: &str, tools: Vec<&str>, risk: &str, Ghost(expected): Ghost<ActionView>) -> (a: AccountAction)
    requires
        expected == (name@, str_views(tools@), Some(risk@)),
    ensures
        action_view(a) == expected,
{
    fixed_action(name, tools, risk)
}

fn fixed_ssh_action_list() -> (r: Vec<AccountAction>)
    ensures
        action_views(r@) == fixed_ssh_actions(),
{
    let ghost f = fixed_ssh_actions();
    let t0 = vec!["vaultmesh_local_file_select", "vaultmesh_ssh_upload"];
    assert(str_views(t0@) =~= f[0].1);
    let a0 = fixed_tools_action("upload", t0, "R2", Ghost(f[0]));
    let t1 = vec!["vaultmesh_ssh_download", "vaultmesh_result_save"];
    assert(str_views(t1@) =~= f[1].1);
    let a1 = fixed_tools_action("download", t1, "R1", Ghost(f[1]));
    let t2 = vec!["vaultmesh_ssh_public_key_install"];
    assert(str_views(t2@) =~= f[2].1);
    let a2 = fixed_tools_action("install-public-key", t2, "R2", Ghost(f[2]));
    let t3 = vec!["vaultmesh_ssh_host_setup"];
    assert(str_views(t3@) =~= f[3].1);
    let a3 = fixed_tools_action("setup-openssh-host", t3, "R3", Ghost(f[3]));
    let t4 = vec![
        "vaultmesh_ssh_pty_open",
        "vaultmesh_ssh_pty_read",
        "vaultmesh_ssh_pty_write",
        "vaultmesh_ssh_pty_resize",
        "vaultmesh_ssh_pty_close",
    ];
    assert(str_views(t4@) =~= f[4].1);
    let a4 = fixed_tools_action("pty", t4, "R3", Ghost(f[4]));
    let r = vec![a0, a1, a2, a3, a4];
    assert(action_views(r@) =~= f);
    r
}

/// The actions of an SSH account: its named commands, the fixed actions and
/// its tunnels by name.
fn ssh_actions(
    programs: &Vec<String>,
    tunnels: &Vec<(String, String)>,
    Ghost(ops): Ghost<Seq<AgentOperationPolicy>>,
) -> (r: Vec<AccountAction>)
    requires
        tunnels.len() == ops.len(),
        forall|k: int| 0 <= k < tunnels.len() ==> {
            &&& (#[trigger] tunnels@[k]).0@ == ops[k].name@
            &&& tunnels@[k].1@ == ops[k].risk@
        },
    ensures
        ({
            let actions = action_views(r@);
            let programs = string_texts(programs@);
            let n = programs.len();
            let m = n + fixed_ssh_actions().len();
            &&& actions.len() >= m
            &&& forall|i: int| 0 <= i < n ==> #[trigger] actions[i] == command_action(programs[i])
            &&& actions.subrange(n as int, m as int) == fixed_ssh_actions()
            &&& tunnel_actions_in_order(actions.skip(m as int), ops)
        }),
{
    let mut out: Vec<AccountAction> = Vec::new();
    let mut i: usize = 0;
    while i < programs.len()
        invariant
            i <= programs.len(),
            out.len() == i,
            forall|j: int| 0 <= j < i ==> #[trigger] action_views(out@)[j] == command_action(string_texts(programs@)[j]),
        decreases programs.len() - i,
    {
        let a = fixed_action(programs[i].as_str(), vec!["vaultmesh_ssh_exec"], "R1");
        assert(str_views(seq!["vaultmesh_ssh_exec"]) =~= seq!["vaultmesh_ssh_exec"@]);
        assert(action_view(a) == command_action(string_texts(programs@)[i as int]));
        let ghost before = out@;
        out.push(a);
        proof {
            assert forall|j: int| 0 <= j < i + 1 implies #[trigger] action_views(out@)[j] == command_action(string_texts(programs@)[j]) by {
                if j < i {
                    assert(out@[j] == before[j]);
                    assert(action_views(before)[j] == command_action(string_texts(programs@)[j]));
                }
            }
        }
        i += 1;
    }
    let ghost n = out.len() as int;
    let fixed = fixed_ssh_action_list();
    let mut fixed = fixed;
    let ghost before = action_views(out@);
    let ghost fixed_views = action_views(fixed@);
    out.append(&mut fixed);
    assert(action_views(out@) =~= before + fixed_views);
    let ghost m = out.len() as int;
    let ghost head = action_views(out@);
    let mut tail = tunnel_actions(tunnels, Ghost(ops));
    let ghost tail_views = action_views(tail@);
    out.append(&mut tail);
    proof {
        assert(action_views(out@) =~= head + tail_views);
        assert(action_views(out@).skip(m) =~= tail_views);
        assert(action_views(out@).subrange(n, m) =~= fixed_ssh_actions());
        assert forall|i: int| 0 <= i < n implies #[trigger] action_views(out@)[i] == command_action(string_texts(programs@)[i]) by {
            assert(action_views(out@)[i] == head[i]);
            assert(head[i] == before[i]);
        }
    }
    out
}

/// The entry of Vault account `c` (see `is_vault_entry`).
pub fn vault_account_entry(
    registry: &AgentRegistry,
    c: &AgentVaultAccountCandidate,
    connectors: &Vec<AgentAccountPolicy>,
    programs: &Vec<String>,
) -> (e: AccountEntry)
    ensures
        is_vault_entry(e, *registry, *c, connectors@, string_texts(programs@)),
{
    proof {
        reveal_strlit("default");
        reveal_strlit("secret");
        reveal_strlit("ssh");
    }
    let key = format_uuid(c.account_ref);
    let tunnels = tunnel_operation_list(connectors, key.as_str());
    let tools = offered_tool_list(c.kind.as_str(), tunnels.len() > 0);
    let capabilities = advertised_capabilities(registry, &tools);
    let actions = if str_eq(c.kind.as_str(), "secret") {
        let t = vec!["vaultmesh_http_request"];
        assert(str_views(t@) =~= seq!["vaultmesh_http_request"@]);
        let a = fixed_tools_action("http", t, "method-dependent", Ghost(("http"@, seq!["vaultmesh_http_request"@], Some("method-dependent"@))));
        let v = vec![a];
        assert(action_views(v@) =~= seq![("http"@, seq!["vaultmesh_http_request"@], Some("method-dependent"@))]);
        v
    } else if str_eq(c.kind.as_str(), "ssh") {
        ssh_actions(programs, &tunnels, Ghost(tunnel_operations(connectors@, key@)))
    } else {
        let v: Vec<AccountAction> = Vec::new();
        assert(action_views(v@).len() == 0);
        v
    };
    AccountEntry {
        account_ref: key,
        label: copy_string(c.label.as_str()),
        kind: copy_string(c.kind.as_str()),
        environment: copy_string("default"),
        capabilities,
        actions,
        source: AccountSource::Vault,
    }
}

/// The entry of API environment `c` (see `is_api_environment_entry`).
pub fn api_environment_entry(c: &AgentApiEnvironmentCandidate) -> (e: AccountEntry)
    ensures
        is_api_environment_entry(e, *c),
{
    let mut capabilities: Vec<String> = Vec::new();
    capabilities.push(copy_string(c.capability.as_str()));
    assert(string_texts(capabilities@) =~= seq![c.capability@]);
    AccountEntry {
        account_ref: format_uuid(c.environment_ref),
        label: copy_string(c.label.as_str()),
        kind: copy_string("api-environment"),
        environment: copy_string(c.environment.as_str()),
        capabilities,
        actions: Vec::new(),
        source: AccountSource::ApiEnvironment {
            openapi_url: match &c.openapi_url {
                Some(u) => Some(copy_string(u.as_str())),
                None => None,
            },
        },
    }
}

/// The entry of connector `p` (see `is_connector_entry`).
pub fn connector_account_entry(registry: &AgentRegistry, p: &AgentAccountPolicy) -> (e: AccountEntry)
    ensures
        is_connector_entry(e, *registry, *p),
{
    let ghost ops = p.operations@;
    let mut public: Vec<usize> = Vec::new();
    let mut keys: Vec<Vec<String>> = Vec::new();
    let mut i: usize = 0;
    while i < p.operations.len()
        invariant
            i <= p.operations.len(),
            ops == p.operations@,
            public.len() == public_operations(ops.take(i as int)).len(),
            keys.len() == public.len(),
            forall|k: int| 0 <= k < public.len() ==> (#[trigger] public@[k]) < ops.len()
                && ops[public@[k] as int] == public_operations(ops.take(i as int))[k],
            tuple_texts(keys@) == name_keys(public_operations(ops.take(i as int))),
        decreases p.operations.len() - i,
    {
        assert(ops.take(i + 1).drop_last() =~= ops.take(i as int));
        assert(ops.take(i + 1).last() == ops[i as int]);
        let ghost prev = public_operations(ops.take(i as int));
        if !starts_with(p.operations[i].name.as_str(), "__") {
            proof {
                reveal_strlit("__");
            }
            public.push(i);
            keys.push(vec![copy_string(p.operations[i].name.as_str())]);
            proof {
                let now = public_operations(ops.take(i + 1));
                assert(now == prev.push(ops[i as int]));
                assert(tuple_texts(keys@) =~= name_keys(now)) by {
                    assert forall|k: int| 0 <= k < keys.len() implies #[trigger] tuple_texts(keys@)[k] == name_keys(now)[k] by {
                        if k < prev.len() {
                            assert(tuple_texts(keys@)[k] == tuple_texts(keys@.drop_last())[k]);
                            assert(name_keys(now)[k] == name_keys(prev)[k]);
                        } else {
                            assert(string_texts(keys@[k]@) =~= seq![ops[i as int].name@]);
                        }
                    }
                }
            }
        } else {
            proof {
                reveal_strlit("__");
                assert(public_operations(ops.take(i + 1)) == prev);
            }
        }
        i += 1;
    }
    assert(ops.take(ops.len() as int) =~= ops);
    let ghost pub_ops = public_operations(ops);
    let order = tuple_order(&keys);
    let mut actions: Vec<AccountAction> = Vec::new();
    let mut k: usize = 0;
    while k < order.len()
        invariant
            k <= order.len(),
            actions.len() == k,
            ops == p.operations@,
            pub_ops == public_operations(ops),
            public.len() == pub_ops.len(),
            forall|j: int| 0 <= j < public.len() ==> (#[trigger] public@[j]) < ops.len() && ops[public@[j] as int] == pub_ops[j],
            is_tuple_order(name_keys(pub_ops), order@),
            forall|j: int| 0 <= j < k ==> {
                let o = pub_ops[order@[j] as int];
                &&& (#[trigger] actions@[j]).name@ == o.name@
                &&& actions@[j].risk matches Some(r) && r@ == o.risk@
                &&& strictly_sorted(string_texts(actions@[j].tools@))
                &&& string_texts(actions@[j].tools@).to_set() == string_texts(o.tools@).to_set()
            },
        decreases order.len() - k,
    {
        let o = &p.operations[public[order[k]]];
        let a = AccountAction {
            name: copy_string(o.name.as_str()),
            tools: sorted_unique(&o.tools),
            risk: Some(copy_string(o.risk.as_str())),
        };
        actions.push(a);
        k += 1;
    }
    AccountEntry {
        account_ref: copy_string(p.account_ref.as_str()),
        label: copy_string(p.display_label.as_str()),
        kind: copy_string(p.catalog_kind.as_str()),
        environment: copy_string(p.environment.as_str()),
        capabilities: advertised_capabilities(registry, &p.allowed_tools),
        actions,
        source: AccountSource::Connector,
    }
}


// ----------------------------------------------------------------------------
// The listed entries and their order
// ----------------------------------------------------------------------------

/// Where the entries of a page come from, in the order they are gathered:
/// the listed Vault accounts, then API environments, then connectors, each
/// as (source, position) with source 0, 1 or 2.
pub open spec fn listed_sources(
    registry: AgentRegistry,
    q: AccountPageQuery,
    candidates: Seq<AgentVaultAccountCandidate>,
    apis: Seq<AgentApiEnvironmentCandidate>,
    connectors: Seq<AgentAccountPolicy>,
) -> Seq<(int, int)> {
    listed_vault(registry, q, candidates, connectors) + listed_apis(q, apis) + listed_connectors(registry, q, connectors)
}

/// The positions of the listed Vault accounts.
pub open spec fn listed_vault(
    registry: AgentRegistry,
    q: AccountPageQuery,
    cs: Seq<AgentVaultAccountCandidate>,
    connectors: Seq<AgentAccountPolicy>,
) -> Seq<(int, int)>
    decreases cs.len(),
{
    if cs.len() == 0 {
        Seq::empty()
    } else if vault_candidate_selected(registry, q, cs.last(), connectors) {
        listed_vault(registry, q, cs.drop_last(), connectors).push((0int, cs.len() - 1))
    } else {
        listed_vault(registry, q, cs.drop_last(), connectors)
    }
}

/// The positions of the listed API environments.
pub open spec fn listed_apis(q: AccountPageQuery, cs: Seq<AgentApiEnvironmentCandidate>) -> Seq<(int, int)>
    decreases cs.len(),
{
    if cs.len() == 0 {
        Seq::empty()
    } else if api_environment_selected(q, cs.last()) {
        listed_apis(q, cs.drop_last()).push((1int, cs.len() - 1))
    } else {
        listed_apis(q, cs.drop_last())
    }
}

/// The positions of the listed connectors.
pub open spec fn listed_connectors(registry: AgentRegistry, q: AccountPageQuery, ps: Seq<AgentAccountPolicy>) -> Seq<(int, int)>
    decreases ps.len(),
{
    if ps.len() == 0 {
        Seq::empty()
    } else if connector_selected(registry, q, ps.last()) {
        listed_connectors(registry, q, ps.drop_last()).push((2int, ps.len() - 1))
    } else {
        listed_connectors(registry, q, ps.drop_last())
    }
}

/// Entry `e` is the entry of source `src`.
pub open spec fn is_entry_of(
    e: AccountEntry,
    src: (int, int),
    registry: AgentRegistry,
    candidates: Seq<AgentVaultAccountCandidate>,
    apis: Seq<AgentApiEnvironmentCandidate>,
    connectors: Seq<AgentAccountPolicy>,
    programs: Seq<Seq<char>>,
) -> bool {
    if src.0 == 0 {
        0 <= src.1 < candidates.len() && is_vault_entry(e, registry, candidates[src.1], connectors, programs)
    } else if src.0 == 1 {
        0 <= src.1 < apis.len() && is_api_environment_entry(e, apis[src.1])
    } else {
        0 <= src.1 < connectors.len() && is_connector_entry(e, registry, connectors[src.1])
    }
}

/// The entries of a page, in the order they are gathered (see
/// `listed_sources`); `programs` are the named commands an SSH account offers.
pub fn collect_account_entries(
    registry: &AgentRegistry,
    q: &AccountPageQuery,
    candidates: &Vec<AgentVaultAccountCandidate>,
    apis: &Vec<AgentApiEnvironmentCandidate>,
    connectors: &Vec<AgentAccountPolicy>,
    programs: &Vec<String>,
) -> (r: Vec<AccountEntry>)
    ensures
        ({
            let srcs = listed_sources(*registry, *q, candidates@, apis@, connectors@);
            &&& r.len() == srcs.len()
            &&& forall|k: int| 0 <= k < r.len() ==> is_entry_of(#[trigger] r@[k], srcs[k], *registry, candidates@, apis@, connectors@, string_texts(programs@))
        }),
{
    let ghost progs = string_texts(programs@);
    let mut out: Vec<AccountEntry> = Vec::new();
    let mut i: usize = 0;
    while i < candidates.len()
        invariant
            i <= candidates.len(),
            progs == string_texts(programs@),
            out.len() == listed_vault(*registry, *q, candidates@.take(i as int), connectors@).len(),
            forall|k: int| 0 <= k < out.len() ==> is_entry_of(#[trigger] out@[k], listed_vault(*registry, *q, candidates@.take(i as int), connectors@)[k], *registry, candidates@, apis@, connectors@, progs),
        decreases candidates.len() - i,
    {
        assert(candidates@.take(i + 1).drop_last() =~= candidates@.take(i as int));
        let ghost prev = listed_vault(*registry, *q, candidates@.take(i as int), connectors@);
        if vault_candidate_listed(registry, q, &candidates[i], connectors) {
            let e = vault_account_entry(registry, &candidates[i], connectors, programs);
            let ghost before = out@;
            out.push(e);
            proof {
                assert forall|k: int| 0 <= k < out.len() implies is_entry_of(#[trigger] out@[k], listed_vault(*registry, *q, candidates@.take(i + 1), connectors@)[k], *registry, candidates@, apis@, connectors@, progs) by {
                    if k < before.len() {
                        assert(out@[k] == before[k]);
                        assert(is_entry_of(before[k], prev[k], *registry, candidates@, apis@, connectors@, progs));
                    }
                }
            }
        }
        i += 1;
    }
    assert(candidates@.take(candidates.len() as int) =~= candidates@);
    let ghost vault_srcs = listed_vault(*registry, *q, candidates@, connectors@);
    let ghost n1 = out.len() as int;
    let mut j: usize = 0;
    while j < apis.len()
        invariant
            j <= apis.len(),
            progs == string_texts(programs@),
            n1 == vault_srcs.len(),
            out.len() == n1 + listed_apis(*q, apis@.take(j as int)).len(),
            forall|k: int| 0 <= k < out.len() ==> is_entry_of(#[trigger] out@[k], (vault_srcs + listed_apis(*q, apis@.take(j as int)))[k], *registry, candidates@, apis@, connectors@, progs),
        decreases apis.len() - j,
    {
        assert(apis@.take(j + 1).drop_last() =~= apis@.take(j as int));
        let ghost prev = vault_srcs + listed_apis(*q, apis@.take(j as int));
        if api_environment_listed(q, &apis[j]) {
            let e = api_environment_entry(&apis[j]);
            let ghost before = out@;
            out.push(e);
            proof {
                let now = vault_srcs + listed_apis(*q, apis@.take(j + 1));
                assert(now =~= prev.push((1int, j as int)));
                assert forall|k: int| 0 <= k < out.len() implies is_entry_of(#[trigger] out@[k], now[k], *registry, candidates@, apis@, connectors@, progs) by {
                    if k < before.len() {
                        assert(out@[k] == before[k]);
                        assert(is_entry_of(before[k], prev[k], *registry, candidates@, apis@, connectors@, progs));
                    }
                }
            }
        } else {
            assert(vault_srcs + listed_apis(*q, apis@.take(j + 1)) =~= prev);
        }
        j += 1;
    }
    assert(apis@.take(apis.len() as int) =~= apis@);
    let ghost head = vault_srcs + listed_apis(*q, apis@);
    let ghost n2 = out.len() as int;
    let mut m: usize = 0;
    while m < connectors.len()
        invariant
            m <= connectors.len(),
            progs == string_texts(programs@),
            n2 == head.len(),
            out.len() == n2 + listed_connectors(*registry, *q, connectors@.take(m as int)).len(),
            forall|k: int| 0 <= k < out.len() ==> is_entry_of(#[trigger] out@[k], (head + listed_connectors(*registry, *q, connectors@.take(m as int)))[k], *registry, candidates@, apis@, connectors@, progs),
        decreases connectors.len() - m,
    {
        assert(connectors@.take(m + 1).drop_last() =~= connectors@.take(m as int));
        let ghost prev = head + listed_connectors(*registry, *q, connectors@.take(m as int));
        if connector_listed(registry, q, &connectors[m]) {
            let e = connector_account_entry(registry, &connectors[m]);
            let ghost before = out@;
            out.push(e);
            proof {
                let now = head + listed_connectors(*registry, *q, connectors@.take(m + 1));
                assert(now =~= prev.push((2int, m as int)));
                assert forall|k: int| 0 <= k < out.len() implies is_entry_of(#[trigger] out@[k], now[k], *registry, candidates@, apis@, connectors@, progs) by {
                    if k < before.len() {
                        assert(out@[k] == before[k]);
                        assert(is_entry_of(before[k], prev[k], *registry, candidates@, apis@, connectors@, progs));
                    }
                }
            }
        } else {
            assert(head + listed_connectors(*registry, *q, connectors@.take(m + 1)) =~= prev);
        }
        m += 1;
    }
    assert(connectors@.take(connectors.len() as int) =~= connectors@);
    out
}


/// The order keys of entries: kind, label and account reference.
pub open spec fn entry_keys(es: Seq<AccountEntry>) -> Seq<Seq<Seq<char>>> {
    Seq::new(es.len(), |i: int| seq![es[i].kind@, es[i].label@, es[i].account_ref@])
}

/// The account references of entries, as one-text keys.
pub open spec fn reference_keys(es: Seq<AccountEntry>) -> Seq<Seq<Seq<char>>> {
    Seq::new(es.len(), |i: int| seq![es[i].account_ref@])
}

/// No two entries share an account reference.
pub open spec fn references_distinct(es: Seq<AccountEntry>) -> bool {
    forall|i: int, j: int| 0 <= i < j < es.len() ==> (#[trigger] es[i]).account_ref@ != (#[trigger] es[j]).account_ref@
}

fn keys_of(entries: &Vec<AccountEntry>, full: bool) -> (r: Vec<Vec<String>>)
    ensures
        tuple_texts(r@) == if full { entry_keys(entries@) } else { reference_keys(entries@) },
{
    let ghost want = if full { entry_keys(entries@) } else { reference_keys(entries@) };
    let mut out: Vec<Vec<String>> = Vec::new();
    let mut i: usize = 0;
    while i < entries.len()
        invariant
            i <= entries.len(),
            out.len() == i,
            want == if full { entry_keys(entries@) } else { reference_keys(entries@) },
            forall|k: int| 0 <= k < i ==> #[trigger] tuple_texts(out@)[k] == want[k],
        decreases entries.len() - i,
    {
        let e = &entries[i];
        let key = if full {
            vec![copy_string(e.kind.as_str()), copy_string(e.label.as_str()), copy_string(e.account_ref.as_str())]
        } else {
            vec![copy_string(e.account_ref.as_str())]
        };
        assert(string_texts(key@) =~= want[i as int]);
        let ghost before = out@;
        out.push(key);
        proof {
            assert forall|k: int| 0 <= k < i + 1 implies #[trigger] tuple_texts(out@)[k] == want[k] by {
                if k < i {
                    assert(out@[k] == before[k]);
                    assert(tuple_texts(before)[k] == want[k]);
                }
            }
        }
        i += 1;
    }
    assert(tuple_texts(out@) =~= want);
    out
}

proof fn lemma_chain(keys: Seq<Seq<Seq<char>>>, order: Seq<usize>, a: int, b: int)
    requires
        0 <= a < b < order.len(),
        forall|k: int| 0 <= k < order.len() ==> (#[trigger] order[k]) < keys.len(),
        forall|k: int| 0 < k < order.len() ==> text_less(keys[order[k - 1] as int][0], keys[#[trigger] order[k] as int][0]),
    ensures
        text_less(keys[order[a] as int][0], keys[order[b] as int][0]),
    decreases b - a,
{
    if b > a + 1 {
        lemma_chain(keys, order, a, b - 1);
        lemma_text_less_transitive(keys[order[a] as int][0], keys[order[b - 1] as int][0], keys[order[b] as int][0]);
    }
}

/// Checks that no two entries share an account reference, and gives the
/// order in which a page lists them: by kind, then label, then reference.
/// Entries that share a reference are refused with
/// `invalid-account-catalog`.
pub fn account_page_order(entries: &Vec<AccountEntry>) -> (r: Result<Vec<usize>, AgentBrokerError>)
    ensures
        r is Ok <==> references_distinct(entries@),
        match r {
            Ok(order) => is_tuple_order(entry_keys(entries@), order@),
            Err(e) => e.code@ == "invalid-account-catalog"@ && !e.retryable,
        },
{
    let ref_keys = keys_of(entries, false);
    let ghost rk = reference_keys(entries@);
    let by_ref = tuple_order(&ref_keys);
    let mut k: usize = 1;
    while k < by_ref.len()
        invariant
            1 <= k,
            by_ref.len() == entries.len(),
            rk == reference_keys(entries@),
            is_tuple_order(rk, by_ref@),
            forall|j: int| 0 < j < k && j < by_ref.len() ==> text_less(rk[by_ref@[j - 1] as int][0], rk[#[trigger] by_ref@[j] as int][0]),
        decreases by_ref.len() - k,
    {
        let a = by_ref[k - 1];
        let b = by_ref[k];
        assert(rk[a as int][0] == entries@[a as int].account_ref@);
        assert(rk[b as int][0] == entries@[b as int].account_ref@);
        if str_eq(entries[a].account_ref.as_str(), entries[b].account_ref.as_str()) {
            proof {
                assert(a != b);
                if a < b {
                    assert(!references_distinct(entries@)) by {
                        assert(entries@[a as int].account_ref@ == entries@[b as int].account_ref@);
                    }
                } else {
                    assert(!references_distinct(entries@)) by {
                        assert(entries@[b as int].account_ref@ == entries@[a as int].account_ref@);
                    }
                }
            }
            return Err(AgentBrokerError::new(
                "invalid-account-catalog",
                "The account catalog contains an ambiguous reference.",
                false,
            ));
        }
        proof {
            let x = rk[a as int];
            let y = rk[b as int];
            assert(!tuple_less(y, x));
            lemma_text_less_total(x[0], y[0]);
            if text_less(y[0], x[0]) {
                assert(y.drop_first().len() == 0);
                assert(tuple_less(y, x));
            }
        }
        k += 1;
    }
    proof {
        assert forall|i: int, j: int| 0 <= i < j < entries.len() implies (#[trigger] entries@[i]).account_ref@ != (#[trigger] entries@[j]).account_ref@ by {
            assert(by_ref@.contains(i as usize));
            assert(by_ref@.contains(j as usize));
            let pi = choose|p: int| 0 <= p < by_ref@.len() && by_ref@[p] == i as usize;
            let pj = choose|p: int| 0 <= p < by_ref@.len() && by_ref@[p] == j as usize;
            assert(rk[i][0] == entries@[i].account_ref@);
            assert(rk[j][0] == entries@[j].account_ref@);
            if pi < pj {
                lemma_chain(rk, by_ref@, pi, pj);
                lemma_text_less_irreflexive(rk[i][0]);
            } else {
                lemma_chain(rk, by_ref@, pj, pi);
                lemma_text_less_irreflexive(rk[j][0]);
            }
        }
    }
    let keys = keys_of(entries, true);
    Ok(tuple_order(&keys))
}

} // verus!
