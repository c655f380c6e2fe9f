//! What the broker keeps of the connector definitions in the Vault: one
//! policy per Vault account, with the tools the connector allows and its
//! named operations (the risk of each and the allowed tools it unlocks).
use vstd::prelude::*;
use crate::account_catalog::{
    account_candidate_valid, account_refs_distinct, check_account_candidates, check_account_catalog_size, is_final_error,
    MAX_ACCOUNT_CANDIDATES, MAX_CONNECTOR_DEFINITIONS,
};
use crate::connector::{AgentConnectorDefinition, AgentConnectorKind, AgentCredentialKind, AgentTargetPolicy};
use crate::direct_permission::{find_account_policy, first_account_policy, AgentAccountPolicy, AgentOperationPolicy, AgentVaultAccountCandidate};
use crate::model::AgentRegistry;
use crate::permission_desk::ConnectionSession;
use crate::policy::{candidate_accepts_tool, spec_candidate_accepts_tool, PermissionGrant};
use crate::sessions::{registry_tool_names, registry_tool_set};
use crate::direct_policy::{risk_name, spec_risk_name, AgentWebRecipeKind, AgentWebRecipePolicy};
use crate::direct_ssh::AgentSshTunnelPolicy;
use crate::error::AgentBrokerError;
use crate::ids::{format_uuid, uuid_text};
use crate::text::{copy_string, str_eq};
use crate::text_order::{insert_sorted_unique, sorted_unique, strictly_sorted, string_texts};

verus! {

broadcast use vstd::string::group_string_axioms;

/// A named operation as the target policy states it: name, risk and tools.
pub type NamedOperation = (Seq<char>, Seq<char>, Seq<Seq<char>>);

/// The name under which a connector kind is stored.
pub open spec fn connector_kind_name(k: AgentConnectorKind) -> Seq<char> {
    match k {
        AgentConnectorKind::ManagedWeb => "managed-web"@,
        AgentConnectorKind::Ssh => "ssh"@,
        AgentConnectorKind::Http => "http"@,
    }
}

/// The name under which a credential kind is stored.
pub open spec fn credential_kind_name(k: AgentCredentialKind) -> Seq<char> {
    match k {
        AgentCredentialKind::Login => "login"@,
        AgentCredentialKind::Email => "email"@,
        AgentCredentialKind::Passkey => "passkey"@,
        AgentCredentialKind::Secret => "secret"@,
        AgentCredentialKind::Ssh => "ssh"@,
    }
}

/// The name of the operation that opens a managed web session with the
/// login recipe.
pub open spec fn login_operation() -> Seq<char> {
    "__managed_web_login__"@
}

/// The tools that a recipe of kind `kind` unlocks (a download also saves
/// its result).
pub open spec fn recipe_tools(kind: AgentWebRecipeKind) -> Seq<Seq<char>> {
    match kind {
        AgentWebRecipeKind::Navigate => seq!["vaultmesh_web_navigate"@],
        AgentWebRecipeKind::Extract => seq!["vaultmesh_web_extract"@],
        AgentWebRecipeKind::Action => seq!["vaultmesh_web_act"@],
        AgentWebRecipeKind::Download => seq!["vaultmesh_web_download"@, "vaultmesh_result_save"@],
        AgentWebRecipeKind::Totp | AgentWebRecipeKind::EmailOtp => seq!["vaultmesh_otp_fill"@],
        AgentWebRecipeKind::RecoveryCode => seq!["vaultmesh_recovery_code_consume"@],
        AgentWebRecipeKind::PasskeyRegistration | AgentWebRecipeKind::PasskeyAssertion => seq![
            "vaultmesh_passkey_request_begin"@,
            "vaultmesh_passkey_perform"@,
        ],
        AgentWebRecipeKind::Login => Seq::empty(),
    }
}

/// The named operations of the recipes, in turn; a login recipe also
/// stands for the operation that opens a session.
pub open spec fn recipe_operations(rs: Seq<AgentWebRecipePolicy>) -> Seq<NamedOperation>
    decreases rs.len(),
{
    if rs.len() == 0 {
        Seq::empty()
    } else {
        let r = rs.last();
        let own = seq![(r.name@, spec_risk_name(r.risk), recipe_tools(r.kind))];
        let login = if r.kind == AgentWebRecipeKind::Login {
            seq![(login_operation(), spec_risk_name(r.risk), seq!["vaultmesh_web_session_open"@])]
        } else {
            Seq::empty()
        };
        recipe_operations(rs.drop_last()) + own + login
    }
}

/// The named operation of a fixed tunnel.
pub open spec fn tunnel_operation(t: AgentSshTunnelPolicy) -> NamedOperation {
    (t.name@, spec_risk_name(t.risk), seq!["vaultmesh_ssh_tunnel_open"@])
}

/// The named operations of a target policy.
pub open spec fn named_operations(target: AgentTargetPolicy) -> Seq<NamedOperation> {
    match target {
        AgentTargetPolicy::Ssh { tunnel_policies, .. } => Seq::new(tunnel_policies@.len(), |i: int| tunnel_operation(tunnel_policies@[i])),
        AgentTargetPolicy::ManagedWeb { recipes, .. } => recipe_operations(recipes@),
        AgentTargetPolicy::Other => Seq::empty(),
    }
}

/// The risk of operation `name`: that of its last statement.
pub open spec fn operation_risk(ops: Seq<NamedOperation>, name: Seq<char>) -> Option<Seq<char>>
    decreases ops.len(),
{
    if ops.len() == 0 {
        None
    } else if ops.last().0 == name {
        Some(ops.last().1)
    } else {
        operation_risk(ops.drop_last(), name)
    }
}

/// The tools that operation `name` unlocks, over all its statements.
pub open spec fn operation_tools(ops: Seq<NamedOperation>, name: Seq<char>) -> Set<Seq<char>> {
    Set::new(|t: Seq<char>| exists|j: int| 0 <= j < ops.len() && (#[trigger] ops[j]).0 == name && ops[j].2.contains(t))
}

/// The tools that a definition allows: those it lists, with the saving of a
/// download's result and the completion of a passkey request.
pub open spec fn allowed_tool_set(d: AgentConnectorDefinition) -> Set<Seq<char>> {
    let listed = string_texts(d.capability_policy.allowed_tools@).to_set();
    let with_save = if listed.contains("vaultmesh_web_download"@) { listed.insert("vaultmesh_result_save"@) } else { listed };
    if listed.contains("vaultmesh_passkey_request_begin"@) { with_save.insert("vaultmesh_passkey_perform"@) } else { with_save }
}

/// `o` is the operation that the policy keeps for `name`: the last risk
/// stated for it and the allowed tools it unlocks, which are not none.
pub open spec fn is_kept_operation(o: AgentOperationPolicy, ops: Seq<NamedOperation>, allowed: Set<Seq<char>>) -> bool {
    &&& operation_risk(ops, o.name@) == Some(o.risk@)
    &&& strictly_sorted(string_texts(o.tools@))
    &&& string_texts(o.tools@).to_set() == operation_tools(ops, o.name@).intersect(allowed)
    &&& string_texts(o.tools@).len() > 0
}

/// The policy that the broker keeps for definition `d`.
pub open spec fn is_account_policy(p: AgentAccountPolicy, d: AgentConnectorDefinition) -> bool {
    let ops = named_operations(d.target_policy);
    let allowed = allowed_tool_set(d);
    &&& d.credential_refs@.len() > 0
    &&& p.account_ref@ == uuid_text(d.credential_refs@[0].item_id)
    &&& p.definition_id == d.id
    &&& p.display_label@ == d.display_label@
    &&& p.environment@ == d.environment@
    &&& p.connector_kind@ == connector_kind_name(d.connector_kind)
    &&& p.catalog_kind@ == credential_kind_name(d.credential_refs@[0].kind)
    &&& strictly_sorted(string_texts(p.allowed_tools@))
    &&& string_texts(p.allowed_tools@).to_set() == allowed
    &&& p.enabled == d.enabled
    &&& forall|k: int| 0 <= k < p.operations@.len() ==> is_kept_operation(#[trigger] p.operations@[k], ops, allowed)
    &&& forall|k1: int, k2: int| 0 <= k1 < k2 < p.operations@.len() ==> (#[trigger] p.operations@[k1]).name@ != (#[trigger] p.operations@[k2]).name@
    &&& forall|j: int| 0 <= j < ops.len() && !operation_tools(ops, (#[trigger] ops[j]).0).intersect(allowed).is_empty()
        ==> exists|k: int| 0 <= k < p.operations@.len() && (#[trigger] p.operations@[k]).name@ == ops[j].0
}

/// Why a list of definitions cannot be kept: `Some(true)` when a definition
/// has no credential, `Some(false)` when two stand for the same Vault
/// account; the first definition at fault decides.
pub open spec fn definitions_fault(ds: Seq<AgentConnectorDefinition>) -> Option<bool>
    decreases ds.len(),
{
    if ds.len() == 0 {
        None
    } else {
        match definitions_fault(ds.drop_last()) {
            Some(f) => Some(f),
            None => if ds.last().credential_refs@.len() == 0 {
                Some(true)
            } else if exists|j: int| 0 <= j < ds.len() - 1 && (#[trigger] ds[j]).credential_refs@[0].item_id == ds.last().credential_refs@[0].item_id {
                Some(false)
            } else {
                None
            },
        }
    }
}


// ----------------------------------------------------------------------------
// Executable functions
// ----------------------------------------------------------------------------

/// A named operation as strings.
pub open spec fn op_view(o: (String, String, Vec<String>)) -> NamedOperation {
    (o.0@, o.1@, string_texts(o.2@))
}

/// The plain values of a list of named operations.
pub open spec fn op_views(v: Seq<(String, String, Vec<String>)>) -> Seq<NamedOperation> {
    Seq::new(v.len(), |i: int| op_view(v[i]))
}

fn strings_of(items: Vec<&str>) -> (r: Vec<String>)
    ensures
        string_texts(r@) == crate::text::str_views(items@),
{
    let mut out: Vec<String> = Vec::new();
    let mut i: usize = 0;
    while i < items.len()
        invariant
            i <= items.len(),
            out.len() == i,
            forall|k: int| 0 <= k < i ==> (#[trigger] out@[k])@ == items@[k]@,
        decreases items.len() - i,
    {
        out.push(copy_string(items[i]));
        i += 1;
    }
    assert(string_texts(out@) =~= crate::text::str_views(items@));
    out
}

fn recipe_tool_list(kind: AgentWebRecipeKind) -> (r: Vec<String>)
    ensures
        string_texts(r@) == recipe_tools(kind),
{
    let items: Vec<&str> = match kind {
        AgentWebRecipeKind::Navigate => vec!["vaultmesh_web_navigate"],
        AgentWebRecipeKind::Extract => vec!["vaultmesh_web_extract"],
        AgentWebRecipeKind::Action => vec!["vaultmesh_web_act"],
        AgentWebRecipeKind::Download => vec!["vaultmesh_web_download", "vaultmesh_result_save"],
        AgentWebRecipeKind::Totp | AgentWebRecipeKind::EmailOtp => vec!["vaultmesh_otp_fill"],
        AgentWebRecipeKind::RecoveryCode => vec!["vaultmesh_recovery_code_consume"],
        AgentWebRecipeKind::PasskeyRegistration | AgentWebRecipeKind::PasskeyAssertion => vec![
            "vaultmesh_passkey_request_begin",
            "vaultmesh_passkey_perform",
        ],
        AgentWebRecipeKind::Login => Vec::new(),
    };
    assert(crate::text::str_views(items@) =~= recipe_tools(kind));
    strings_of(items)
}

/// The named operations of a target policy (see `named_operations`).
pub fn named_operation_list(target: &AgentTargetPolicy) -> (r: Vec<(String, String, Vec<String>)>)
    ensures
        op_views(r@) == named_operations(*target),
{
    let mut out: Vec<(String, String, Vec<String>)> = Vec::new();
    match target {
        AgentTargetPolicy::Ssh { tunnel_policies, .. } => {
            let mut i: usize = 0;
            while i < tunnel_policies.len()
                invariant
                    i <= tunnel_policies.len(),
                    out.len() == i,
                    forall|k: int| 0 <= k < i ==> #[trigger] op_view(out@[k]) == tunnel_operation(tunnel_policies@[k]),
                decreases tunnel_policies.len() - i,
            {
                let t = &tunnel_policies[i];
                let tools = strings_of(vec!["vaultmesh_ssh_tunnel_open"]);
                assert(crate::text::str_views(seq!["vaultmesh_ssh_tunnel_open"]) =~= seq!["vaultmesh_ssh_tunnel_open"@]);
                out.push((copy_string(t.name.as_str()), risk_name(t.risk), tools));
                i += 1;
            }
            assert(op_views(out@) =~= named_operations(*target));
        },
        AgentTargetPolicy::ManagedWeb { recipes, .. } => {
            let mut i: usize = 0;
            while i < recipes.len()
                invariant
                    i <= recipes.len(),
                    op_views(out@) == recipe_operations(recipes@.take(i as int)),
                decreases recipes.len() - i,
            {
                let r = &recipes[i];
                assert(recipes@.take(i + 1).drop_last() =~= recipes@.take(i as int));
                assert(recipes@.take(i + 1).last() == *r);
                let ghost before = op_views(out@);
                out.push((copy_string(r.name.as_str()), risk_name(r.risk), recipe_tool_list(r.kind)));
                let ghost mid = op_views(out@);
                assert(mid =~= before + seq![(r.name@, spec_risk_name(r.risk), recipe_tools(r.kind))]);
                if r.kind == AgentWebRecipeKind::Login {
                    let tools = strings_of(vec!["vaultmesh_web_session_open"]);
                    assert(crate::text::str_views(seq!["vaultmesh_web_session_open"]) =~= seq!["vaultmesh_web_session_open"@]);
                    let ghost mid_out = out@;
                    out.push((copy_string("__managed_web_login__"), risk_name(r.risk), tools));
                    proof {
                        let want = mid + seq![(login_operation(), spec_risk_name(r.risk), seq!["vaultmesh_web_session_open"@])];
                        assert forall|k: int| 0 <= k < out.len() implies #[trigger] op_views(out@)[k] == want[k] by {
                            if k < mid_out.len() {
                                assert(out@[k] == mid_out[k]);
                                assert(op_views(mid_out)[k] == mid[k]);
                            }
                        }
                        assert(op_views(out@) =~= want);
                    }
                } else {
                    assert(mid =~= mid + Seq::<NamedOperation>::empty());
                }
                i += 1;
            }
            assert(recipes@.take(recipes.len() as int) =~= recipes@);
        },
        AgentTargetPolicy::Other => {
            assert(op_views(out@) =~= named_operations(*target));
        },
    }
    out
}

fn strings_contain(v: &Vec<String>, x: &str) -> (r: bool)
    ensures
        r == string_texts(v@).contains(x@),
{
    let mut i: usize = 0;
    while i < v.len()
        invariant
            i <= v.len(),
            forall|k: int| 0 <= k < i ==> v@[k]@ != x@,
        decreases v.len() - i,
    {
        if str_eq(v[i].as_str(), x) {
            assert(string_texts(v@)[i as int] == x@);
            return true;
        }
        i += 1;
    }
    assert(!string_texts(v@).contains(x@)) by {
        if string_texts(v@).contains(x@) {
            let k = choose|k: int| 0 <= k < string_texts(v@).len() && string_texts(v@)[k] == x@;
            assert(v@[k]@ == x@);
        }
    }
    false
}

/// The tools that definition `d` allows, sorted (see `allowed_tool_set`).
pub fn allowed_tool_list(d: &AgentConnectorDefinition) -> (r: Vec<String>)
    ensures
        strictly_sorted(string_texts(r@)),
        string_texts(r@).to_set() == allowed_tool_set(*d),
{
    let listed = &d.capability_policy.allowed_tools;
    let mut out = sorted_unique(listed);
    if strings_contain(listed, "vaultmesh_web_download") {
        insert_sorted_unique(&mut out, copy_string("vaultmesh_result_save"));
    }
    if strings_contain(listed, "vaultmesh_passkey_request_begin") {
        insert_sorted_unique(&mut out, copy_string("vaultmesh_passkey_perform"));
    }
    out
}

/// The last risk and the allowed tools of operation `name`.
fn operation_summary(ops: &Vec<(String, String, Vec<String>)>, name: &str, allowed: &Vec<String>) -> (r: (Option<String>, Vec<String>))
    ensures
        opt_string_text(r.0) == operation_risk(op_views(ops@), name@),
        strictly_sorted(string_texts(r.1@)),
        string_texts(r.1@).to_set() == operation_tools(op_views(ops@), name@).intersect(string_texts(allowed@).to_set()),
{
    let ghost vs = op_views(ops@);
    let ghost aset = string_texts(allowed@).to_set();
    let mut risk: Option<String> = None;
    let mut tools: Vec<String> = Vec::new();
    assert(string_texts(tools@) =~= Seq::<Seq<char>>::empty());
    let mut j: usize = 0;
    while j < ops.len()
        invariant
            j <= ops.len(),
            vs == op_views(ops@),
            aset == string_texts(allowed@).to_set(),
            opt_string_text(risk) == operation_risk(vs.take(j as int), name@),
            strictly_sorted(string_texts(tools@)),
            string_texts(tools@).to_set() == operation_tools(vs.take(j as int), name@).intersect(aset),
        decreases ops.len() - j,
    {
        let o = &ops[j];
        assert(vs.take(j + 1).drop_last() =~= vs.take(j as int));
        assert(vs.take(j + 1).last() == op_view(*o));
        let ghost prev_tools = operation_tools(vs.take(j as int), name@);
        if str_eq(o.0.as_str(), name) {
            risk = Some(copy_string(o.1.as_str()));
            let ghost base = string_texts(tools@).to_set();
            let mut k: usize = 0;
            while k < o.2.len()
                invariant
                    k <= o.2.len(),
                    aset == string_texts(allowed@).to_set(),
                    strictly_sorted(string_texts(tools@)),
                    string_texts(tools@).to_set() == base.union(string_texts(o.2@).take(k as int).to_set().intersect(aset)),
                decreases o.2.len() - k,
            {
                let ghost before = string_texts(tools@).to_set();
                assert(string_texts(o.2@).take(k + 1) =~= string_texts(o.2@).take(k as int).push(o.2@[k as int]@));
                proof {
                    string_texts(o.2@).take(k as int).lemma_push_to_set_commute(o.2@[k as int]@);
                }
                if strings_contain(allowed, o.2[k].as_str()) {
                    insert_sorted_unique(&mut tools, copy_string(o.2[k].as_str()));
                    assert(string_texts(tools@).to_set() =~= base.union(string_texts(o.2@).take(k + 1).to_set().intersect(aset)));
                } else {
                    assert(string_texts(tools@).to_set() =~= base.union(string_texts(o.2@).take(k + 1).to_set().intersect(aset)));
                }
                k += 1;
            }
            assert(string_texts(o.2@).take(o.2.len() as int) =~= string_texts(o.2@));
            proof {
                let now = operation_tools(vs.take(j + 1), name@);
                assert(now =~= prev_tools.union(string_texts(o.2@).to_set())) by {
                    assert forall|t: Seq<char>| now.contains(t) implies prev_tools.union(string_texts(o.2@).to_set()).contains(t) by {
                        let jj = choose|jj: int| 0 <= jj < vs.take(j + 1).len() && (#[trigger] vs.take(j + 1)[jj]).0 == name@ && vs.take(j + 1)[jj].2.contains(t);
                        if jj < j {
                            assert(vs.take(j as int)[jj] == vs.take(j + 1)[jj]);
                        }
                    }
                    assert forall|t: Seq<char>| prev_tools.union(string_texts(o.2@).to_set()).contains(t) implies now.contains(t) by {
                        if prev_tools.contains(t) {
                            let jj = choose|jj: int| 0 <= jj < vs.take(j as int).len() && (#[trigger] vs.take(j as int)[jj]).0 == name@ && vs.take(j as int)[jj].2.contains(t);
                            assert(vs.take(j + 1)[jj] == vs.take(j as int)[jj]);
                        } else {
                            assert(vs.take(j + 1)[j as int] == op_view(*o));
                        }
                    }
                }
                assert(string_texts(tools@).to_set() =~= now.intersect(aset));
            }
        } else {
            proof {
                let now = operation_tools(vs.take(j + 1), name@);
                assert(now =~= prev_tools) by {
                    assert forall|t: Seq<char>| now.contains(t) implies prev_tools.contains(t) by {
                        let jj = choose|jj: int| 0 <= jj < vs.take(j + 1).len() && (#[trigger] vs.take(j + 1)[jj]).0 == name@ && vs.take(j + 1)[jj].2.contains(t);
                        assert(vs.take(j as int)[jj] == vs.take(j + 1)[jj]);
                    }
                    assert forall|t: Seq<char>| prev_tools.contains(t) implies now.contains(t) by {
                        let jj = choose|jj: int| 0 <= jj < vs.take(j as int).len() && (#[trigger] vs.take(j as int)[jj]).0 == name@ && vs.take(j as int)[jj].2.contains(t);
                        assert(vs.take(j + 1)[jj] == vs.take(j as int)[jj]);
                    }
                }
            }
        }
        j += 1;
    }
    assert(vs.take(ops.len() as int) =~= vs);
    (risk, tools)
}

/// The text of an optional string.
pub open spec fn opt_string_text(o: Option<String>) -> Option<Seq<char>> {
    match o {
        Some(s) => Some(s@),
        None => None,
    }
}


proof fn lemma_risk_of_present(ops: Seq<NamedOperation>, i: int)
    requires
        0 <= i < ops.len(),
    ensures
        operation_risk(ops, ops[i].0) is Some,
    decreases ops.len(),
{
    if ops.last().0 != ops[i].0 {
        assert(i < ops.len() - 1);
        assert(ops.drop_last()[i] == ops[i]);
        lemma_risk_of_present(ops.drop_last(), i);
    }
}

/// The operations that a policy keeps (see `is_kept_operation`): one per
/// name, in the order the names first appear.
fn kept_operations(ops: &Vec<(String, String, Vec<String>)>, allowed: &Vec<String>) -> (r: Vec<AgentOperationPolicy>)
    ensures
        forall|k: int| 0 <= k < r.len() ==> is_kept_operation(#[trigger] r@[k], op_views(ops@), string_texts(allowed@).to_set()),
        forall|k1: int, k2: int| 0 <= k1 < k2 < r.len() ==> (#[trigger] r@[k1]).name@ != (#[trigger] r@[k2]).name@,
        forall|j: int| 0 <= j < ops.len() && !operation_tools(op_views(ops@), (#[trigger] op_views(ops@)[j]).0).intersect(string_texts(allowed@).to_set()).is_empty()
            ==> exists|k: int| 0 <= k < r.len() && (#[trigger] r@[k]).name@ == op_views(ops@)[j].0,
{
    let ghost vs = op_views(ops@);
    let ghost aset = string_texts(allowed@).to_set();
    let mut out: Vec<AgentOperationPolicy> = Vec::new();
    let ghost mut firsts: Seq<int> = Seq::empty();
    let mut i: usize = 0;
    while i < ops.len()
        invariant
            i <= ops.len(),
            vs == op_views(ops@),
            aset == string_texts(allowed@).to_set(),
            firsts.len() == out.len(),
            forall|k: int| 0 <= k < out.len() ==> is_kept_operation(#[trigger] out@[k], vs, aset),
            forall|k: int| 0 <= k < out.len() ==> 0 <= #[trigger] firsts[k] < i && out@[k].name@ == vs[firsts[k]].0,
            forall|k: int, jj: int| 0 <= k < out.len() && 0 <= jj < firsts[k] ==> (#[trigger] vs[jj]).0 != vs[#[trigger] firsts[k]].0,
            forall|k1: int, k2: int| 0 <= k1 < k2 < out.len() ==> #[trigger] firsts[k1] < #[trigger] firsts[k2],
            forall|j: int| 0 <= j < i && !operation_tools(vs, (#[trigger] vs[j]).0).intersect(aset).is_empty()
                ==> exists|k: int| 0 <= k < out.len() && (#[trigger] out@[k]).name@ == vs[j].0,
        decreases ops.len() - i,
    {
        assert(vs[i as int] == op_view(ops@[i as int]));
        let mut seen = false;
        let mut j: usize = 0;
        while j < i
            invariant
                j <= i < ops.len(),
                vs == op_views(ops@),
                seen ==> exists|jj: int| 0 <= jj < i && vs[jj].0 == vs[i as int].0,
                !seen ==> forall|jj: int| 0 <= jj < j ==> vs[jj].0 != vs[i as int].0,
            decreases i - j,
        {
            assert(vs[j as int] == op_view(ops@[j as int]));
            assert(vs[i as int] == op_view(ops@[i as int]));
            if !seen && str_eq(ops[j].0.as_str(), ops[i].0.as_str()) {
                seen = true;
            }
            j += 1;
        }
        if seen {
            proof {
                let jj = choose|jj: int| 0 <= jj < i && vs[jj].0 == vs[i as int].0;
                if !operation_tools(vs, vs[i as int].0).intersect(aset).is_empty() {
                    assert(!operation_tools(vs, vs[jj].0).intersect(aset).is_empty());
                    let k = choose|k: int| 0 <= k < out.len() && (#[trigger] out@[k]).name@ == vs[jj].0;
                    assert(out@[k].name@ == vs[i as int].0);
                }
            }
        } else {
            let (risk, tools) = operation_summary(ops, ops[i].0.as_str(), allowed);
            if tools.len() > 0 {
                proof {
                    lemma_risk_of_present(vs, i as int);
                }
                let risk = match risk {
                    Some(r) => r,
                    None => copy_string(""),
                };
                let ghost before = out@;
                out.push(AgentOperationPolicy { name: copy_string(ops[i].0.as_str()), risk, tools });
                proof {
                    firsts = firsts.push(i as int);
                    assert forall|k: int| 0 <= k < out.len() implies is_kept_operation(#[trigger] out@[k], vs, aset) by {
                        if k < before.len() {
                            assert(out@[k] == before[k]);
                        } else {
                            assert(string_texts(out@[k].tools@).len() == out@[k].tools@.len());
                        }
                    }
                    assert forall|k: int| 0 <= k < out.len() implies 0 <= #[trigger] firsts[k] < i + 1 && out@[k].name@ == vs[firsts[k]].0 by {
                        if k < before.len() {
                            assert(out@[k] == before[k]);
                        }
                    }
                    assert forall|j: int| 0 <= j < i + 1 && !operation_tools(vs, (#[trigger] vs[j]).0).intersect(aset).is_empty()
                        implies exists|k: int| 0 <= k < out.len() && (#[trigger] out@[k]).name@ == vs[j].0 by {
                        if j < i {
                            let k = choose|k: int| 0 <= k < before.len() && (#[trigger] before[k]).name@ == vs[j].0;
                            assert(out@[k] == before[k]);
                        } else {
                            assert(out@[before.len() as int].name@ == vs[j].0);
                        }
                    }
                }
            } else {
                proof {
                    assert(string_texts(tools@).len() == 0);
                    assert(string_texts(tools@).to_set() =~= Set::<Seq<char>>::empty());
                }
            }
        }
        i += 1;
    }
    proof {
        assert forall|k1: int, k2: int| 0 <= k1 < k2 < out.len() implies (#[trigger] out@[k1]).name@ != (#[trigger] out@[k2]).name@ by {
            assert(firsts[k1] < firsts[k2]);
        }
    }
    out
}


fn connector_kind_text(k: AgentConnectorKind) -> (r: String)
    ensures
        r@ == connector_kind_name(k),
{
    match k {
        AgentConnectorKind::ManagedWeb => copy_string("managed-web"),
        AgentConnectorKind::Ssh => copy_string("ssh"),
        AgentConnectorKind::Http => copy_string("http"),
    }
}

fn credential_kind_text(k: AgentCredentialKind) -> (r: String)
    ensures
        r@ == credential_kind_name(k),
{
    match k {
        AgentCredentialKind::Login => copy_string("login"),
        AgentCredentialKind::Email => copy_string("email"),
        AgentCredentialKind::Passkey => copy_string("passkey"),
        AgentCredentialKind::Secret => copy_string("secret"),
        AgentCredentialKind::Ssh => copy_string("ssh"),
    }
}

/// The policy that the broker keeps for a definition with a credential
/// (see `is_account_policy`).
pub fn account_policy(d: &AgentConnectorDefinition) -> (p: AgentAccountPolicy)
    requires
        d.credential_refs@.len() > 0,
    ensures
        is_account_policy(p, *d),
{
    let ops = named_operation_list(&d.target_policy);
    let allowed = allowed_tool_list(d);
    let operations = kept_operations(&ops, &allowed);
    let first = d.credential_refs[0];
    AgentAccountPolicy {
        account_ref: format_uuid(first.item_id),
        definition_id: d.id,
        display_label: copy_string(d.display_label.as_str()),
        environment: copy_string(d.environment.as_str()),
        connector_kind: connector_kind_text(d.connector_kind),
        catalog_kind: credential_kind_text(first.kind),
        allowed_tools: allowed,
        enabled: d.enabled,
        operations,
    }
}

proof fn lemma_fault_free_prefix(ds: Seq<AgentConnectorDefinition>, i: int, j: int)
    requires
        0 <= j < i <= ds.len(),
        definitions_fault(ds.take(i)) is None,
    ensures
        ds[j].credential_refs@.len() > 0,
        forall|a: int, b: int| 0 <= a < b < i ==> (#[trigger] ds[a]).credential_refs@[0].item_id != (#[trigger] ds[b]).credential_refs@[0].item_id,
    decreases i,
{
    let t = ds.take(i);
    assert(t.drop_last() =~= ds.take(i - 1));
    assert(t.last() == ds[i - 1]);
    if j < i - 1 {
        lemma_fault_free_prefix(ds, i - 1, j);
    }
    if i > 1 {
        lemma_fault_free_prefix(ds, i - 1, 0);
    }
    assert forall|a: int, b: int| 0 <= a < b < i implies (#[trigger] ds[a]).credential_refs@[0].item_id != (#[trigger] ds[b]).credential_refs@[0].item_id by {
        if b == i - 1 {
            assert(t[a] == ds[a]);
        }
    }
}

/// The policies that the broker keeps for the connector definitions of the
/// Vault, one per definition in turn (see `is_account_policy`). A
/// definition without a credential is an internal fault
/// (`broker-unavailable`); two definitions for the same Vault account are
/// refused with `connector-definition-conflict`; the first definition at
/// fault decides (see `definitions_fault`).
pub fn connector_account_policies(definitions: &Vec<AgentConnectorDefinition>) -> (r: Result<Vec<AgentAccountPolicy>, AgentBrokerError>)
    ensures
        match definitions_fault(definitions@) {
            None => r matches Ok(ps) && ps.len() == definitions.len()
                && forall|k: int| 0 <= k < ps.len() ==> is_account_policy(#[trigger] ps@[k], definitions@[k]),
            Some(true) => r matches Err(e) && e.code@ == "broker-unavailable"@,
            Some(false) => r matches Err(e) && e.code@ == "connector-definition-conflict"@ && !e.retryable,
        },
{
    let mut out: Vec<AgentAccountPolicy> = Vec::new();
    let mut i: usize = 0;
    while i < definitions.len()
        invariant
            i <= definitions.len(),
            definitions_fault(definitions@.take(i as int)) is None,
            out.len() == i,
            forall|k: int| 0 <= k < i ==> is_account_policy(#[trigger] out@[k], definitions@[k]),
        decreases definitions.len() - i,
    {
        let d = &definitions[i];
        assert(definitions@.take(i + 1).drop_last() =~= definitions@.take(i as int));
        assert(definitions@.take(i + 1).last() == *d);
        if d.credential_refs.len() == 0 {
            proof {
                lemma_fault_monotone(definitions@, i + 1);
            }
            return Err(AgentBrokerError::internal());
        }
        let key = d.credential_refs[0].item_id;
        let mut j: usize = 0;
        while j < i
            invariant
                j <= i < definitions.len(),
                definitions_fault(definitions@.take(i as int)) is None,
                key == definitions@[i as int].credential_refs@[0].item_id,
                definitions@[i as int].credential_refs@.len() > 0,
                forall|jj: int| 0 <= jj < j ==> (#[trigger] definitions@[jj]).credential_refs@[0].item_id != key,
            decreases i - j,
        {
            proof {
                lemma_fault_free_prefix(definitions@, i as int, j as int);
            }
            if definitions[j].credential_refs[0].item_id == key {
                proof {
                    let t = definitions@.take(i + 1);
                    assert(t.drop_last() =~= definitions@.take(i as int));
                    assert(t.last() == definitions@[i as int]);
                    assert(t[j as int] == definitions@[j as int]);
                    assert(definitions_fault(t) == Some(false));
                    lemma_fault_monotone(definitions@, i + 1);
                }
                return Err(AgentBrokerError::new(
                    "connector-definition-conflict",
                    "More than one internal connector definition targets the same Vault account.",
                    false,
                ));
            }
            j += 1;
        }
        proof {
            let t = definitions@.take(i + 1);
            assert forall|jj: int| 0 <= jj < t.len() - 1 implies (#[trigger] t[jj]).credential_refs@[0].item_id != t.last().credential_refs@[0].item_id by {
                assert(t[jj] == definitions@[jj]);
            }
        }
        let p = account_policy(d);
        out.push(p);
        i += 1;
    }
    assert(definitions@.take(definitions.len() as int) =~= definitions@);
    Ok(out)
}

proof fn lemma_fault_monotone(ds: Seq<AgentConnectorDefinition>, i: int)
    requires
        0 <= i <= ds.len(),
    ensures
        definitions_fault(ds.take(i)) is Some ==> definitions_fault(ds) == definitions_fault(ds.take(i)),
    decreases ds.len() - i,
{
    if i < ds.len() {
        lemma_fault_monotone(ds, i + 1);
        assert(ds.take(i + 1).drop_last() =~= ds.take(i));
    } else {
        assert(ds.take(i) =~= ds);
    }
}


/// Reads an account catalog from the Vault: its size
/// (`account-catalog-too-large`), the policies of its connector definitions
/// (see `connector_account_policies`), then its Vault account candidates
/// (`invalid-account-catalog`), in this order.
pub fn read_account_catalog(
    definitions: &Vec<AgentConnectorDefinition>,
    candidates: &Vec<AgentVaultAccountCandidate>,
) -> (r: Result<Vec<AgentAccountPolicy>, AgentBrokerError>)
    ensures
        if definitions.len() > MAX_CONNECTOR_DEFINITIONS || candidates.len() > MAX_ACCOUNT_CANDIDATES {
            r matches Err(e) && is_final_error(e, "account-catalog-too-large"@)
        } else {
            match definitions_fault(definitions@) {
                Some(true) => r matches Err(e) && e.code@ == "broker-unavailable"@,
                Some(false) => r matches Err(e) && is_final_error(e, "connector-definition-conflict"@),
                None => if account_refs_distinct(candidates@)
                    && forall|i: int| 0 <= i < candidates.len() ==> account_candidate_valid(#[trigger] candidates@[i]) {
                    r matches Ok(ps) && ps.len() == definitions.len()
                        && forall|k: int| 0 <= k < ps.len() ==> is_account_policy(#[trigger] ps@[k], definitions@[k])
                } else {
                    r matches Err(e) && is_final_error(e, "invalid-account-catalog"@)
                },
            }
        },
{
    check_account_catalog_size(definitions.len(), candidates.len())?;
    let policies = connector_account_policies(definitions)?;
    check_account_candidates(candidates)?;
    Ok(policies)
}


// ----------------------------------------------------------------------------
// Sessions and grants after the connectors change
// ----------------------------------------------------------------------------

/// An account that a session may keep: no connector stands for it, or the
/// one that does is enabled.
pub open spec fn account_usable(ps: Seq<AgentAccountPolicy>, a: Seq<char>) -> bool {
    match first_account_policy(ps, a) {
        Some(i) => ps[i].enabled,
        None => true,
    }
}

/// A grant that stays: no connector stands for its account, or the one
/// that does is enabled and allows its tool (or the item kind accepts it).
pub open spec fn grant_survives(ps: Seq<AgentAccountPolicy>, g: PermissionGrant) -> bool {
    match first_account_policy(ps, g.account_ref@) {
        Some(i) => ps[i].enabled && (string_texts(ps[i].allowed_tools@).contains(g.tool@)
            || spec_candidate_accepts_tool(ps[i].catalog_kind@, g.tool@)),
        None => true,
    }
}

/// The grants that stay, in their order.
pub open spec fn surviving_grants(ps: Seq<AgentAccountPolicy>, gs: Seq<PermissionGrant>) -> Seq<PermissionGrant>
    decreases gs.len(),
{
    if gs.len() == 0 {
        gs
    } else if grant_survives(ps, gs.last()) {
        surviving_grants(ps, gs.drop_last()).push(gs.last())
    } else {
        surviving_grants(ps, gs.drop_last())
    }
}

/// The accounts of the enabled connectors.
pub open spec fn enabled_accounts(ps: Seq<AgentAccountPolicy>) -> Set<Seq<char>> {
    Set::new(|a: Seq<char>| exists|k: int| 0 <= k < ps.len() && (#[trigger] ps[k]).enabled && ps[k].account_ref@ == a)
}

fn usable(ps: &Vec<AgentAccountPolicy>, a: &str) -> (r: bool)
    ensures
        r == account_usable(ps@, a@),
{
    match find_account_policy(ps, a) {
        Some(i) => ps[i].enabled,
        None => true,
    }
}

fn survives(ps: &Vec<AgentAccountPolicy>, g: &PermissionGrant) -> (r: bool)
    ensures
        r == grant_survives(ps@, *g),
{
    match find_account_policy(ps, g.account_ref.as_str()) {
        Some(i) => ps[i].enabled && (strings_contain(&ps[i].allowed_tools, g.tool.as_str())
            || candidate_accepts_tool(ps[i].catalog_kind.as_str(), g.tool.as_str())),
        None => true,
    }
}

/// Drops the grants of a connection that the connectors no longer back
/// (see `grant_survives`).
pub fn retain_backed_grants(grants: &mut Vec<PermissionGrant>, policies: &Vec<AgentAccountPolicy>)
    ensures
        final(grants)@ == surviving_grants(policies@, old(grants)@),
{
    let ghost orig = grants@;
    let mut rest: Vec<PermissionGrant> = Vec::new();
    std::mem::swap(&mut rest, grants);
    let mut k: usize = 0;
    assert(rest@.len() == rest.len());
    while rest.len() > 0
        invariant
            k + rest@.len() == orig.len(),
            orig.len() <= usize::MAX,
            rest@ == orig.skip(k as int),
            grants@ == surviving_grants(policies@, orig.take(k as int)),
        decreases rest.len(),
    {
        let g = rest.remove(0);
        assert(orig.take(k + 1).drop_last() =~= orig.take(k as int));
        assert(orig.take(k + 1).last() == g);
        if survives(policies, &g) {
            grants.push(g);
        }
        k += 1;
        assert(rest@ =~= orig.skip(k as int));
    }
    assert(orig.take(orig.len() as int) =~= orig);
}

/// `s` is session `o` after the connectors change: the same session; one
/// that the broker keeps for a connection gets every tool of the registry
/// and the accounts it may still use together with those of the enabled
/// connectors; any other keeps its tools and accounts, all still usable.
pub open spec fn is_synced_session(
    s: ConnectionSession,
    o: ConnectionSession,
    policies: Seq<AgentAccountPolicy>,
    registry: AgentRegistry,
) -> bool {
    &&& s.session_id == o.session_id
    &&& s.client_id == o.client_id
    &&& s.connection_managed == o.connection_managed
    &&& s.issued_at == o.issued_at
    &&& s.expires_at == o.expires_at
    &&& s.request_limit == o.request_limit
    &&& s.requests_used == o.requests_used
    &&& if o.connection_managed {
        &&& strictly_sorted(string_texts(s.allowed_tools@))
        &&& string_texts(s.allowed_tools@).to_set() == string_texts(registry_tool_names(registry)).to_set()
        &&& strictly_sorted(string_texts(s.allowed_accounts@))
        &&& string_texts(s.allowed_accounts@).to_set() == string_texts(o.allowed_accounts@).to_set().filter(
            |a: Seq<char>| account_usable(policies, a),
        ).union(enabled_accounts(policies))
    } else {
        &&& s.allowed_tools@ == o.allowed_tools@
        &&& s.allowed_accounts@ == o.allowed_accounts@
        &&& forall|i: int| 0 <= i < o.allowed_accounts@.len() ==> account_usable(policies, (#[trigger] o.allowed_accounts@[i])@)
    }
}

/// Session `o` ends when the connectors change: the client asked for it
/// and it names an account that is no longer usable.
pub open spec fn session_ends(o: ConnectionSession, policies: Seq<AgentAccountPolicy>) -> bool {
    &&& !o.connection_managed
    &&& exists|i: int| 0 <= i < o.allowed_accounts@.len() && !account_usable(policies, (#[trigger] o.allowed_accounts@[i])@)
}

/// The sessions that stay when the connectors change, in their order.
pub open spec fn staying_sessions(orig: Seq<ConnectionSession>, policies: Seq<AgentAccountPolicy>) -> Seq<ConnectionSession>
    decreases orig.len(),
{
    if orig.len() == 0 {
        Seq::empty()
    } else if session_ends(orig.last(), policies) {
        staying_sessions(orig.drop_last(), policies)
    } else {
        staying_sessions(orig.drop_last(), policies).push(orig.last())
    }
}

/// The references of the sessions that end when the connectors change, in
/// their order.
pub open spec fn ending_sessions(orig: Seq<ConnectionSession>, policies: Seq<AgentAccountPolicy>) -> Seq<u128>
    decreases orig.len(),
{
    if orig.len() == 0 {
        Seq::empty()
    } else if session_ends(orig.last(), policies) {
        ending_sessions(orig.drop_last(), policies).push(orig.last().session_id)
    } else {
        ending_sessions(orig.drop_last(), policies)
    }
}

/// The sessions after the connectors change, and the sessions that end. A
/// session that the broker keeps for a connection stays, with every tool of
/// the registry and the accounts it may still use together with those of
/// the enabled connectors; any other session stays only while every account
/// it names is still usable (see `account_usable`).
pub fn sessions_after_connector_change(
    sessions: Vec<ConnectionSession>,
    policies: &Vec<AgentAccountPolicy>,
    registry: &AgentRegistry,
) -> (r: (Vec<ConnectionSession>, Vec<u128>))
    ensures
        r.0.len() == staying_sessions(sessions@, policies@).len(),
        forall|k: int| 0 <= k < r.0.len() ==> is_synced_session(#[trigger] r.0@[k], staying_sessions(sessions@, policies@)[k], policies@, *registry),
        r.1@ == ending_sessions(sessions@, policies@),
{
    let ghost orig = sessions@;
    assert(orig == sessions@);
    let mut rest = sessions;
    let mut kept: Vec<ConnectionSession> = Vec::new();
    let mut ended: Vec<u128> = Vec::new();
    let mut idx: usize = 0;
    assert(rest@.len() == rest.len());
    while rest.len() > 0
        invariant
            idx + rest@.len() == orig.len(),
            orig.len() <= usize::MAX,
            rest@ == orig.skip(idx as int),
            kept.len() == staying_sessions(orig.take(idx as int), policies@).len(),
            forall|k: int| 0 <= k < kept.len() ==> is_synced_session(#[trigger] kept@[k], staying_sessions(orig.take(idx as int), policies@)[k], policies@, *registry),
            ended@ == ending_sessions(orig.take(idx as int), policies@),
        decreases rest.len(),
    {
        let s = rest.remove(0);
        assert(orig[idx as int] == s) by {
            assert(orig.skip(idx as int)[0] == orig[idx as int]);
        }
        let ghost j = idx as int;
        let ghost pre = orig.take(idx as int);
        assert(orig.take(idx + 1).drop_last() =~= pre);
        assert(orig.take(idx + 1).last() == s);
        if s.connection_managed {
            let mut accounts: Vec<String> = Vec::new();
            assert(string_texts(accounts@) =~= Seq::<Seq<char>>::empty());
            let ghost olds = string_texts(s.allowed_accounts@);
            let mut a: usize = 0;
            while a < s.allowed_accounts.len()
                invariant
                    a <= s.allowed_accounts.len(),
                    olds == string_texts(s.allowed_accounts@),
                    strictly_sorted(string_texts(accounts@)),
                    string_texts(accounts@).to_set() == olds.take(a as int).to_set().filter(|x: Seq<char>| account_usable(policies@, x)),
                decreases s.allowed_accounts.len() - a,
            {
                let ghost before = string_texts(accounts@).to_set();
                assert(olds.take(a + 1) =~= olds.take(a as int).push(s.allowed_accounts@[a as int]@));
                proof {
                    olds.take(a as int).lemma_push_to_set_commute(s.allowed_accounts@[a as int]@);
                }
                if usable(policies, s.allowed_accounts[a].as_str()) {
                    insert_sorted_unique(&mut accounts, copy_string(s.allowed_accounts[a].as_str()));
                }
                assert(string_texts(accounts@).to_set() =~= olds.take(a + 1).to_set().filter(|x: Seq<char>| account_usable(policies@, x)));
                a += 1;
            }
            assert(olds.take(s.allowed_accounts.len() as int) =~= olds);
            let ghost filtered = olds.to_set().filter(|x: Seq<char>| account_usable(policies@, x));
            let mut p: usize = 0;
            while p < policies.len()
                invariant
                    p <= policies.len(),
                    strictly_sorted(string_texts(accounts@)),
                    string_texts(accounts@).to_set() == filtered.union(enabled_accounts(policies@.take(p as int))),
                decreases policies.len() - p,
            {
                let ghost before = string_texts(accounts@).to_set();
                if policies[p].enabled {
                    insert_sorted_unique(&mut accounts, copy_string(policies[p].account_ref.as_str()));
                }
                proof {
                    let prev = policies@.take(p as int);
                    let now = policies@.take(p + 1);
                    assert forall|x: Seq<char>| enabled_accounts(now).contains(x) <==> (enabled_accounts(prev).contains(x)
                        || (policies@[p as int].enabled && policies@[p as int].account_ref@ == x)) by {
                        if enabled_accounts(now).contains(x) {
                            let w = choose|w: int| 0 <= w < now.len() && (#[trigger] now[w]).enabled && now[w].account_ref@ == x;
                            if w < p {
                                assert(prev[w] == now[w]);
                            }
                        }
                        if enabled_accounts(prev).contains(x) {
                            let w = choose|w: int| 0 <= w < prev.len() && (#[trigger] prev[w]).enabled && prev[w].account_ref@ == x;
                            assert(now[w] == prev[w]);
                        }
                        if policies@[p as int].enabled && policies@[p as int].account_ref@ == x {
                            assert(now[p as int] == policies@[p as int]);
                        }
                    }
                    assert(string_texts(accounts@).to_set() =~= filtered.union(enabled_accounts(now)));
                }
                p += 1;
            }
            assert(policies@.take(policies.len() as int) =~= policies@);
            let tools = registry_tool_set(registry);
            let updated = ConnectionSession {
                session_id: s.session_id,
                client_id: s.client_id,
                connection_managed: true,
                allowed_accounts: accounts,
                allowed_tools: tools,
                issued_at: s.issued_at,
                expires_at: s.expires_at,
                request_limit: s.request_limit,
                requests_used: s.requests_used,
            };
            let ghost before = kept@;
            kept.push(updated);
            proof {
                let now = staying_sessions(orig.take(idx + 1), policies@);
                assert(now == staying_sessions(pre, policies@).push(s));
                assert forall|k: int| 0 <= k < kept.len() implies is_synced_session(#[trigger] kept@[k], now[k], policies@, *registry) by {
                    if k < before.len() {
                        assert(kept@[k] == before[k]);
                    } else {
                        assert(kept@[k] == updated);
                    }
                }
            }
        } else {
            let mut ok = true;
            let mut a: usize = 0;
            while a < s.allowed_accounts.len()
                invariant
                    a <= s.allowed_accounts.len(),
                    ok ==> forall|i: int| 0 <= i < a ==> account_usable(policies@, (#[trigger] s.allowed_accounts@[i])@),
                    !ok ==> exists|i: int| 0 <= i < s.allowed_accounts@.len() && !account_usable(policies@, (#[trigger] s.allowed_accounts@[i])@),
                decreases s.allowed_accounts.len() - a,
            {
                if !usable(policies, s.allowed_accounts[a].as_str()) {
                    ok = false;
                }
                a += 1;
            }
            if ok {
                let ghost before = kept@;
                let ghost sv = s;
                kept.push(s);
                proof {
                    let now = staying_sessions(orig.take(idx + 1), policies@);
                    assert(!session_ends(sv, policies@));
                    assert(now == staying_sessions(pre, policies@).push(sv));
                    assert forall|k: int| 0 <= k < kept.len() implies is_synced_session(#[trigger] kept@[k], now[k], policies@, *registry) by {
                        if k < before.len() {
                            assert(kept@[k] == before[k]);
                        } else {
                            assert(kept@[k] == sv);
                        }
                    }
                }
            } else {
                let ghost before = ended@;
                ended.push(s.session_id);
                proof {
                    assert(session_ends(s, policies@));
                    assert(ended@ =~= ending_sessions(orig.take(idx + 1), policies@));
                }
            }
        }
        idx += 1;
        assert(rest@ =~= orig.skip(idx as int));
    }
    assert(orig.take(orig.len() as int) =~= orig);
    (kept, ended)
}


/// Takes new connector definitions: the policies they give (see
/// `connector_account_policies`, whose faults leave everything as it was),
/// the sessions that stay, synced to the new policies, with the references
/// of those that end (see `sessions_after_connector_change`), and each
/// connection's grants that the connectors still back (see
/// `retain_backed_grants`).
pub fn sync_connector_definitions(
    definitions: &Vec<AgentConnectorDefinition>,
    sessions: &mut Vec<ConnectionSession>,
    grants: &mut Vec<Vec<PermissionGrant>>,
    registry: &AgentRegistry,
) -> (r: Result<(Vec<AgentAccountPolicy>, Vec<u128>), AgentBrokerError>)
    ensures
        match definitions_fault(definitions@) {
            None => r matches Ok((ps, ended)) && {
                &&& ps.len() == definitions.len()
                &&& forall|k: int| 0 <= k < ps.len() ==> is_account_policy(#[trigger] ps@[k], definitions@[k])
                &&& final(sessions)@.len() == staying_sessions(old(sessions)@, ps@).len()
                &&& forall|k: int| 0 <= k < final(sessions)@.len()
                    ==> is_synced_session(#[trigger] final(sessions)@[k], staying_sessions(old(sessions)@, ps@)[k], ps@, *registry)
                &&& ended@ == ending_sessions(old(sessions)@, ps@)
                &&& final(grants)@.len() == old(grants)@.len()
                &&& forall|i: int| 0 <= i < final(grants)@.len() ==> (#[trigger] final(grants)@[i])@ == surviving_grants(ps@, old(grants)@[i]@)
            },
            Some(internal) => (r matches Err(e) && if internal {
                e.code@ == "broker-unavailable"@
            } else {
                e.code@ == "connector-definition-conflict"@ && !e.retryable
            }) && final(sessions)@ == old(sessions)@ && final(grants)@ == old(grants)@,
        },
{
    let policies = match connector_account_policies(definitions) {
        Ok(ps) => ps,
        Err(e) => return Err(e),
    };
    let mut current: Vec<ConnectionSession> = Vec::new();
    std::mem::swap(&mut current, sessions);
    let (kept, ended) = sessions_after_connector_change(current, &policies, registry);
    *sessions = kept;
    let ghost orig = grants@;
    let mut out: Vec<Vec<PermissionGrant>> = Vec::new();
    let mut k: usize = 0;
    assert(grants@.len() == grants.len());
    while grants.len() > 0
        invariant
            k + grants@.len() == orig.len(),
            orig.len() <= usize::MAX,
            grants@ == orig.skip(k as int),
            out@.len() == k,
            forall|i: int| 0 <= i < k ==> (#[trigger] out@[i])@ == surviving_grants(policies@, orig[i]@),
        decreases grants.len(),
    {
        let mut g = grants.remove(0);
        assert(g == orig[k as int]);
        retain_backed_grants(&mut g, &policies);
        out.push(g);
        assert(grants@ =~= orig.skip(k + 1));
        k += 1;
    }
    *grants = out;
    Ok((policies, ended))
}

} // verus!
