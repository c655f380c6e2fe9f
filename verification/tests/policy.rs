use vaultmesh_agent::authz_rules::{matching_rule, remove_client_rules, upsert_rule, AgentAuthorizationMatch, AgentAuthorizationRule};
use vaultmesh_agent::direct_policy::ssh_account_label;
use vaultmesh_agent::http_path::HTTP_PATH_MATCHER_REVISION;
use vaultmesh_agent::json::JsonValue;
use vaultmesh_agent::model::{PermissionChoice, PermissionDuration, PermissionEffect, PermissionScope};
use vaultmesh_agent::permission_desk::permission_snapshot;
use vaultmesh_agent::policy::{
    matching_permission_grant_index, permission_available_durations, permission_available_scopes,
    permission_grant_matches, permission_recommended_choice, PendingPermission, PermissionGrant,
    SAFE_SSH_CATALOG_REVISION,
};

fn s(text: &str) -> JsonValue {
    JsonValue::String(text.to_owned())
}

fn obj(members: Vec<(&str, JsonValue)>) -> JsonValue {
    JsonValue::Object(members.into_iter().map(|(k, v)| (k.to_owned(), v)).collect())
}

fn command(program: &str, arguments: &[&str]) -> JsonValue {
    obj(vec![("program", s(program)), ("arguments", JsonValue::Array(arguments.iter().map(|a| s(a)).collect()))])
}

fn pending(risk: &str) -> PendingPermission {
    PendingPermission {
        permission_ref: 1,
        client_id: 2,
        session_id: 3,
        account_ref: "00000000-0000-4000-8000-000000000011".to_owned(),
        account_label: "SSH".to_owned(),
        environment: "test".to_owned(),
        tool: "vaultmesh_ssh_exec".to_owned(),
        operation: Some("hostname".to_owned()),
        parameters_digest: Some("sha256:permission-matrix".to_owned()),
        risk: risk.to_owned(),
        approved_display: "root@example.test:22".to_owned(),
        action_display: "hostname".to_owned(),
        target_digest: "sha256:target".to_owned(),
        source_item_ref: Some(4),
        source_item_kind: Some("ssh".to_owned()),
        activation_required: false,
        direct_ssh_policy: None,
        direct_http_policy: None,
        direct_connector_policy: None,
        created_at: 1,
        expires_at: 31_000,
    }
}

fn grant(scope: PermissionScope) -> PermissionGrant {
    PermissionGrant {
        account_ref: "account-1".to_owned(),
        tool: "vaultmesh_ssh_exec".to_owned(),
        operation: (scope == PermissionScope::Exact).then(|| "hostname".to_owned()),
        scope,
        parameters_digest: (scope == PermissionScope::Exact).then(|| "exact-digest".to_owned()),
        catalog_revision: (scope == PermissionScope::Safe).then(|| SAFE_SSH_CATALOG_REVISION.to_owned()),
        effect: PermissionEffect::Allow,
        fresh_confirmation_required: false,
        remaining_uses: None,
    }
}

#[test]
fn ct_agent_authz_scope_predicates_keep_exact_safe_and_all_distinct() {
    let hostname = command("hostname", &[]);
    let whoami = command("whoami", &[]);
    let remove = command("rm", &["-f", "/tmp/x"]);
    // `hostname` and `whoami` are in the safe command catalog, `rm` is not.
    assert!(permission_grant_matches(&grant(PermissionScope::Exact), "account-1", "vaultmesh_ssh_exec", Some("hostname"), "exact-digest", &hostname, true));
    assert!(!permission_grant_matches(&grant(PermissionScope::Exact), "account-1", "vaultmesh_ssh_exec", Some("hostname"), "changed-digest", &hostname, true));
    assert!(permission_grant_matches(&grant(PermissionScope::Safe), "account-1", "vaultmesh_ssh_exec", Some("whoami"), "ignored", &whoami, true));
    assert!(!permission_grant_matches(&grant(PermissionScope::Safe), "account-1", "vaultmesh_ssh_exec", Some("rm"), "ignored", &remove, false));
    assert!(permission_grant_matches(&grant(PermissionScope::All), "account-1", "vaultmesh_ssh_exec", Some("rm"), "ignored", &remove, false));
}

#[test]
fn ct_agent_authz_risk_matrix_bounds_scope_duration_and_recommendation() {
    let r1 = pending("R1");
    assert_eq!(permission_available_scopes(&r1), vec![PermissionScope::Exact, PermissionScope::Safe, PermissionScope::All]);
    assert_eq!(
        permission_recommended_choice(&r1),
        PermissionChoice {
            effect: PermissionEffect::Allow,
            scope: PermissionScope::Safe,
            duration: PermissionDuration::Connection,
            path_pattern: None,
        }
    );
    let r3 = pending("R3");
    assert_eq!(permission_available_scopes(&r3), vec![PermissionScope::Exact]);
    assert!(permission_snapshot(&r3).fresh_confirmation_required);
    let r4 = pending("R4");
    assert_eq!(permission_available_durations(&r4, PermissionEffect::Allow), vec![PermissionDuration::Once]);
    assert_eq!(
        permission_available_durations(&r4, PermissionEffect::Deny),
        vec![PermissionDuration::Once, PermissionDuration::Connection, PermissionDuration::Permanent]
    );
}

#[test]
fn ct_agent_permission_ssh_account_label_falls_back_to_host() {
    assert_eq!(ssh_account_label(&obj(vec![("title", s("unRaid"))]), "unraid.local"), "unRaid");
    assert_eq!(ssh_account_label(&obj(vec![("title", s("  "))]), "unraid.local"), "unraid.local");
    assert_eq!(ssh_account_label(&obj(vec![]), "unraid.local"), "unraid.local");
}

#[test]
fn matching_deny_grant_wins_over_allow() {
    let mut deny = grant(PermissionScope::All);
    deny.effect = PermissionEffect::Deny;
    let grants = vec![grant(PermissionScope::All), deny];
    let remove = command("rm", &[]);
    let index = matching_permission_grant_index(&grants, "account-1", "vaultmesh_ssh_exec", Some("rm"), "d", &remove, false).unwrap();
    assert_eq!(grants[index].effect, PermissionEffect::Deny);
}

#[test]
fn spent_grant_no_longer_matches() {
    let mut once = grant(PermissionScope::All);
    once.remaining_uses = Some(0);
    assert!(!permission_grant_matches(&once, "account-1", "vaultmesh_ssh_exec", None, "d", &command("ls", &[]), false));
}

#[test]
fn high_risk_request_offers_only_exact_scope() {
    assert_eq!(permission_available_scopes(&pending("R4")), vec![PermissionScope::Exact]);
}

fn rule() -> AgentAuthorizationRule {
    AgentAuthorizationRule {
        id: 7,
        client_key: "codex".to_owned(),
        account_ref: "00000000-0000-4000-8000-000000000021".to_owned(),
        target_digest: format!("sha256:{}", "a".repeat(64)),
        tool: "vaultmesh_ssh_exec".to_owned(),
        scope: PermissionScope::Safe,
        effect: PermissionEffect::Allow,
        parameters_digest: None,
        catalog_revision: Some("ssh-safe-v1".to_owned()),
        http_method: None,
        path_pattern: None,
        matcher_revision: None,
        created_at: 1,
        updated_at: 1,
    }
}

#[test]
fn ct_agent_authz_persistent_rule_specificity_deny_and_client_revoke_are_deterministic() {
    let mut rules: Vec<AgentAuthorizationRule> = Vec::new();
    let mut broad = rule();
    broad.scope = PermissionScope::All;
    broad.catalog_revision = None;
    let account_ref = broad.account_ref.clone();
    let target_digest = broad.target_digest.clone();
    upsert_rule(&mut rules, broad).unwrap();
    let mut exact_deny = rule();
    exact_deny.id = 8;
    exact_deny.scope = PermissionScope::Exact;
    exact_deny.effect = PermissionEffect::Deny;
    exact_deny.parameters_digest = Some(format!("sha256:{}", "b".repeat(64)));
    exact_deny.catalog_revision = None;
    upsert_rule(&mut rules, exact_deny).unwrap();
    let digest = format!("sha256:{}", "b".repeat(64));
    let matched = matching_rule(
        &rules,
        &AgentAuthorizationMatch {
            user_id: "501",
            client_key: "codex",
            account_ref: &account_ref,
            target_digest: &target_digest,
            tool: "vaultmesh_ssh_exec",
            parameters_digest: &digest,
            safe: true,
            catalog_revision: "ssh-safe-v1",
            http_method: None,
            http_path: None,
        },
    )
    .unwrap();
    assert_eq!(matched.scope, PermissionScope::Exact);
    assert_eq!(matched.effect, PermissionEffect::Deny);
    assert!(remove_client_rules(&mut rules, "codex"));
    assert!(rules.is_empty());
}

#[test]
fn ct_agent_http_path_001_persistent_rules_bind_method_pattern_and_prioritize_deny() {
    let mut rules: Vec<AgentAuthorizationRule> = Vec::new();
    let mut path_allow = rule();
    path_allow.tool = "vaultmesh_http_request".to_owned();
    path_allow.scope = PermissionScope::Path;
    path_allow.catalog_revision = None;
    path_allow.http_method = Some("GET".to_owned());
    path_allow.path_pattern = Some("/projects/**".to_owned());
    path_allow.matcher_revision = Some(HTTP_PATH_MATCHER_REVISION.to_owned());
    let account_ref = path_allow.account_ref.clone();
    let target_digest = path_allow.target_digest.clone();
    upsert_rule(&mut rules, path_allow).unwrap();
    let parameters_digest = format!("sha256:{}", "b".repeat(64));
    let query = |method: &'static str, path: &'static str| AgentAuthorizationMatch {
        user_id: "501",
        client_key: "codex",
        account_ref: &account_ref,
        target_digest: &target_digest,
        tool: "vaultmesh_http_request",
        parameters_digest: &parameters_digest,
        safe: false,
        catalog_revision: "none",
        http_method: Some(method),
        http_path: Some(path),
    };
    assert!(matching_rule(&rules, &query("GET", "/projects/42")).is_some());
    assert!(matching_rule(&rules, &query("POST", "/projects/42")).is_none());
    assert!(matching_rule(&rules, &query("GET", "/admin/42")).is_none());
    let mut deny = rule();
    deny.id = 9;
    deny.tool = "vaultmesh_http_request".to_owned();
    deny.scope = PermissionScope::All;
    deny.effect = PermissionEffect::Deny;
    deny.catalog_revision = None;
    upsert_rule(&mut rules, deny).unwrap();
    let matched = matching_rule(&rules, &query("GET", "/projects/42")).unwrap();
    assert_eq!(matched.effect, PermissionEffect::Deny);
}

#[test]
fn upserting_an_equivalent_rule_keeps_its_identity() {
    let mut rules: Vec<AgentAuthorizationRule> = Vec::new();
    upsert_rule(&mut rules, rule()).unwrap();
    let mut again = rule();
    again.id = 99;
    again.updated_at = 5;
    upsert_rule(&mut rules, again).unwrap();
    assert_eq!(rules.len(), 1);
    assert_eq!(rules[0].id, 7);
    assert_eq!(rules[0].created_at, 1);
    assert_eq!(rules[0].updated_at, 5);
}

#[test]
fn invalid_rule_is_refused() {
    let mut rules: Vec<AgentAuthorizationRule> = Vec::new();
    let mut bad = rule();
    bad.target_digest = "not-a-digest".to_owned();
    assert!(upsert_rule(&mut rules, bad).is_err());
    assert!(rules.is_empty());
}
