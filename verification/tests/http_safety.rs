use vaultmesh_agent::http_path::AgentRiskTier;
use vaultmesh_agent::http_safety::{
    certificate_spki, contains_canary, contains_secret_representation, der_tlv,
    is_sensitive_response_key, validate_bound_target, validate_input, verify_tls_pins,
    AgentHttpError, DerTlv,
};
use vaultmesh_agent::json::JsonValue;
use vaultmesh_agent::policy::{AgentHttpBodyMode, AgentHttpOperationPolicy};

fn s(text: &str) -> JsonValue {
    JsonValue::String(text.to_owned())
}

fn n(value: i128) -> JsonValue {
    JsonValue::Integer(value)
}

fn obj(members: Vec<(&str, JsonValue)>) -> JsonValue {
    JsonValue::Object(members.into_iter().map(|(k, v)| (k.to_owned(), v)).collect())
}

fn to_text(value: &JsonValue) -> String {
    match value {
        JsonValue::Null => "null".to_owned(),
        JsonValue::Bool(b) => b.to_string(),
        JsonValue::Integer(i) => i.to_string(),
        JsonValue::Float(t) => t.clone(),
        JsonValue::String(t) => serde_json::to_string(t).unwrap(),
        JsonValue::Array(items) => format!("[{}]", items.iter().map(to_text).collect::<Vec<_>>().join(",")),
        JsonValue::Object(entries) => format!(
            "{{{}}}",
            entries
                .iter()
                .map(|(k, v)| format!("{}:{}", serde_json::to_string(k).unwrap(), to_text(v)))
                .collect::<Vec<_>>()
                .join(",")
        ),
    }
}

fn operation() -> AgentHttpOperationPolicy {
    AgentHttpOperationPolicy {
        name: "read_status".into(),
        method: "GET".into(),
        path: "/v1/status".into(),
        request_fields: vec!["scope".into()],
        response_fields: vec!["status".into(), "items".into(), "token".into()],
        request_mode: AgentHttpBodyMode::Json,
        response_mode: AgentHttpBodyMode::Json,
        risk: AgentRiskTier::R1,
    }
}

fn build_safe_response(
    status: u16,
    body: JsonValue,
    operation_fields: &Vec<String>,
    allowed_fields: &Vec<String>,
    maximum_bytes: usize,
    maximum_items: usize,
    canaries: &Vec<String>,
) -> Result<JsonValue, AgentHttpError> {
    vaultmesh_agent::http_safety::build_safe_response(status, &body, operation_fields, allowed_fields, maximum_bytes, maximum_items, canaries)
}

fn member<'a>(value: &'a JsonValue, key: &str) -> &'a JsonValue {
    value.get(key).unwrap()
}

#[test]
fn named_operation_rejects_agent_selected_fields_and_paths() {
    assert!(validate_input(&operation(), &obj(vec![("scope", s("safe"))])).is_ok());
    assert_eq!(
        validate_input(&operation(), &obj(vec![("scope", s("safe")), ("url", s("https://evil.test"))])).unwrap_err().code,
        "http-request-schema-invalid"
    );
}

#[test]
fn account_bound_target_accepts_http_and_all_literal_address_classes() {
    for origin in [
        "http://127.0.0.1:8080",
        "https://10.0.0.1:8443",
        "http://169.254.169.254",
        "https://100.64.0.1",
        "http://192.168.1.1",
        "https://[::1]:8443",
        "http://[fe80::1]",
        "https://[fc00::1]",
    ] {
        assert!(validate_bound_target(origin, "/v1/status").is_ok(), "{origin}");
    }
    assert_eq!(validate_bound_target("ftp://127.0.0.1", "/v1/status").unwrap_err().code, "http-policy-invalid");
}

#[test]
fn bound_target_strips_brackets_and_lowercases_the_host() {
    let (url, host, port) = validate_bound_target("https://[::1]:8443", "/v1/status").unwrap();
    assert_eq!(host, "::1");
    assert_eq!(port, 8443);
    assert_eq!(url.path, "/v1/status");
    let (_, host, port) = validate_bound_target("http://API.Example.test", "/x").unwrap();
    assert_eq!(host, "api.example.test");
    assert_eq!(port, 80);
    assert!(validate_bound_target("https://example.test/base", "/x").is_err());
    assert!(validate_bound_target("https://example.test", "https://other.test/x").is_err());
    assert!(validate_bound_target("https://user@example.test", "/x").is_err());
    assert!(validate_bound_target("https://example.test", "/a/../b").is_err());
}

#[test]
fn response_is_reconstructed_bounded_and_secret_canary_safe() {
    let safe = build_safe_response(
        200,
        obj(vec![("status", s("ready")), ("items", JsonValue::Array(vec![n(1), n(2), n(3)])), ("ignored", s("private"))]),
        &operation().response_fields,
        &vec!["status".into(), "items".into()],
        256,
        2,
        &vec!["token-canary".into()],
    )
    .unwrap();
    let fields = member(&safe, "fields");
    assert_eq!(member(fields, "status").as_str(), Some("ready"));
    assert_eq!(to_text(member(fields, "items")), "[1,2]");
    assert!(fields.get("ignored").is_none());
    assert!(matches!(member(&safe, "truncated"), JsonValue::Bool(true)));
    assert!(matches!(member(&safe, "status"), JsonValue::Integer(200)));
    assert_eq!(member(&safe, "statusClass").as_str(), Some("2xx"));
    let encoded = base64::Engine::encode(&base64::engine::general_purpose::STANDARD, b"token-canary");
    assert_eq!(
        build_safe_response(
            200,
            obj(vec![("token", s(&encoded))]),
            &operation().response_fields,
            &vec!["token".into()],
            256,
            2,
            &vec!["token-canary".into()],
        )
        .unwrap_err()
        .code,
        "http-response-secret-detected"
    );
}

#[test]
fn direct_json_response_is_recursively_bounded_and_redacts_sensitive_keys() {
    let safe = build_safe_response(
        200,
        obj(vec![
            ("project", obj(vec![("id", n(42)), ("access_token", s("remote-secret"))])),
            (
                "items",
                JsonValue::Array(vec![obj(vec![("name", s("one")), ("password", s("hidden"))]), obj(vec![("name", s("two"))])]),
            ),
        ]),
        &vec!["*".into()],
        &vec!["*".into()],
        1_024,
        1,
        &vec!["local-token-canary".into()],
    )
    .unwrap();
    let fields = member(&safe, "fields");
    assert!(matches!(member(member(fields, "project"), "id"), JsonValue::Integer(42)));
    assert_eq!(member(member(fields, "project"), "access_token").as_str(), Some("[REDACTED]"));
    let JsonValue::Array(items) = member(fields, "items") else { panic!("items") };
    assert_eq!(items.len(), 1);
    assert_eq!(member(&items[0], "password").as_str(), Some("[REDACTED]"));
    assert!(matches!(member(&safe, "truncated"), JsonValue::Bool(true)));
}

#[test]
fn oversized_or_deep_answers_are_refused() {
    let err = build_safe_response(
        200,
        obj(vec![("status", s("ready"))]),
        &operation().response_fields,
        &vec!["status".into()],
        4,
        2,
        &vec![],
    )
    .unwrap_err();
    assert_eq!(err.code, "http-response-too-large");
    let mut deep = n(1);
    for _ in 0..20 {
        deep = obj(vec![("next", deep)]);
    }
    let err = build_safe_response(200, deep, &vec!["*".into()], &vec!["*".into()], 100_000, 10, &vec![]).unwrap_err();
    assert_eq!(err.code, "http-response-schema-invalid");
    let err = build_safe_response(200, JsonValue::Array(vec![]), &operation().response_fields, &vec![], 10, 1, &vec![]).unwrap_err();
    assert_eq!(err.code, "http-response-schema-invalid");
}

#[test]
fn der_spki_parser_rejects_malformed_certificates() {
    assert!(certificate_spki(&[]).is_none());
    assert!(certificate_spki(&[0x30, 0x80]).is_none());
    assert!(certificate_spki(&[0x30, 0x01, 0x00]).is_none());
}

fn tlv(tag: u8, content: &[u8]) -> Vec<u8> {
    let mut out = vec![tag, content.len() as u8];
    out.extend_from_slice(content);
    out
}

fn certificate() -> (Vec<u8>, Vec<u8>) {
    let spki = tlv(0x30, &[0x05, 0x00]);
    let mut tbs_content = tlv(0xa0, &[0x02, 0x01, 0x02]);
    for _ in 0..5 {
        tbs_content.extend(tlv(0x02, &[0x01]));
    }
    tbs_content.extend(spki.clone());
    let tbs = tlv(0x30, &tbs_content);
    (tlv(0x30, &tbs), spki)
}

#[test]
fn der_spki_is_found_after_version_and_five_elements() {
    let (cert, spki) = certificate();
    assert_eq!(certificate_spki(&cert).unwrap(), spki);
    let mut trailing = cert.clone();
    trailing.push(0);
    assert!(certificate_spki(&trailing).is_none());
}

#[test]
fn der_long_form_lengths_are_read_big_endian() {
    let mut input = vec![0x04, 0x82, 0x01, 0x00];
    input.extend(vec![0u8; 256]);
    assert_eq!(der_tlv(&input, 0), Some(DerTlv { tag: 0x04, start: 0, content_start: 4, end: 260 }));
    assert_eq!(der_tlv(&input[..200], 0), None);
    assert_eq!(der_tlv(&[0x04, 0x80], 0), None);
    assert_eq!(der_tlv(&[0x04, 0x02, 0x01], 0), None);
}

#[test]
fn tls_pins_bind_the_subject_public_key_digest() {
    let (cert, spki) = certificate();
    let digest = <sha2::Sha256 as sha2::Digest>::digest(&spki).to_vec();
    let pin = format!("sha256:{}", vaultmesh_agent::authz_envelope::hex_lower(&digest));
    assert!(verify_tls_pins(Some(&cert[..]), &vec![]).is_ok());
    assert!(verify_tls_pins(None, &vec![]).is_ok());
    assert!(verify_tls_pins(Some(&cert[..]), &vec![pin.clone()]).is_ok());
    assert_eq!(verify_tls_pins(Some(&cert[..]), &vec!["sha256:00".into()]).unwrap_err().code, "http-tls-pin-mismatch");
    assert_eq!(verify_tls_pins(None, &vec![pin.clone()]).unwrap_err().code, "http-tls-pin-unavailable");
    assert_eq!(verify_tls_pins(Some(&[0x30u8, 0x00][..]), &vec![pin]).unwrap_err().code, "http-tls-pin-unavailable");
}

#[test]
fn sensitive_keys_are_recognized_after_normalization() {
    for key in ["access_token", "Set-Cookie", "client.secret", "X-Authorization", "otp", "RecoveryCode", "private-key"] {
        assert!(is_sensitive_response_key(key), "{key}");
    }
    for key in ["name", "id", "status", "tokenizer"] {
        assert!(!is_sensitive_response_key(key), "{key}");
    }
}

#[test]
fn secrets_are_found_raw_base64_and_hex() {
    let canaries = vec!["abc".to_owned()];
    assert!(contains_secret_representation(b"xxabcxx", &canaries));
    assert!(contains_secret_representation(b"YWJj", &canaries));
    assert!(contains_secret_representation(b"616263", &canaries));
    assert!(!contains_secret_representation(b"ab", &canaries));
    assert!(contains_canary("..YWJj..", &canaries));
    assert!(!contains_canary("nothing", &canaries));
}
