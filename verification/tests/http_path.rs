use vaultmesh_agent::http_path::{canonicalize_exact_path, join_base_path, method_risk, path_matches, validate_pattern, AgentRiskTier};

#[test]
fn ct_agent_http_path_001_canonicalizes_once_and_rejects_separator_or_dot_bypass() {
    assert_eq!(canonicalize_exact_path("/v1/projects/42").unwrap(), "/v1/projects/42");
    assert_eq!(canonicalize_exact_path("/v1/%7euser").unwrap(), "/v1/%7Euser");
    for invalid in [
        "v1/projects",
        "//evil.test/x",
        "/v1/../admin",
        "/v1/%2e%2e/admin",
        "/v1/%2Fadmin",
        "/v1/%5cadmin",
        "/v1/*",
        "/v1/a//b",
        "/v1/x?admin=true",
        "/v1/项目",
    ] {
        assert!(canonicalize_exact_path(invalid).is_err(), "accepted {invalid}");
    }
    assert_eq!(join_base_path("/api/v1", "/projects").unwrap(), "/api/v1/projects");
}

#[test]
fn ct_agent_http_path_001_matches_only_segment_star_and_terminal_double_star() {
    assert!(path_matches("/api/projects/*", "/api/projects/42"));
    assert!(!path_matches("/api/projects/*", "/api/projects/42/members"));
    assert!(path_matches("/api/projects/**", "/api/projects/42/members"));
    assert!(path_matches("/api/projects/**", "/api/projects"));
    assert!(!path_matches("/api/*/admin", "/api/x/admin/extra"));
    for invalid in ["/api/foo*", "/api/**/admin", "/api/{id}", "/api/%2A"] {
        assert!(validate_pattern(invalid).is_err(), "accepted {invalid}");
    }
}

#[test]
fn ct_agent_http_path_001_method_sets_risk_floor() {
    assert_eq!(method_risk("GET").unwrap(), AgentRiskTier::R1);
    assert_eq!(method_risk("POST").unwrap(), AgentRiskTier::R2);
    assert_eq!(method_risk("PATCH").unwrap(), AgentRiskTier::R3);
    assert_eq!(method_risk("DELETE").unwrap(), AgentRiskTier::R4);
    assert!(method_risk("OPTIONS").is_err());
}

#[test]
fn canonical_path_is_a_fixed_point() {
    let once = canonicalize_exact_path("/v1/%7euser/%41").unwrap();
    assert_eq!(canonicalize_exact_path(&once).unwrap(), once);
}

#[test]
fn matched_pattern_is_valid_and_path_is_canonical() {
    assert!(path_matches("/a/*/c", "/a/b/c"));
    assert!(validate_pattern("/a/*/c").is_ok());
    assert_eq!(canonicalize_exact_path("/a/b/c").unwrap(), "/a/b/c");
}
