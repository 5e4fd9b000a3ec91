use bifrost_admin::auth::missing_auth_material;
use bifrost_admin::auth::{
    admin_jwt_claims, admin_password_hash, issue_admin_jwt, validate_admin_jwt, auth_endpoint, bearer_header, check_admin_jwt_claims,
    extract_bearer_token, get_admin_username, has_admin_password, is_remote_access_enabled,
    jwt_secret_value, login_allowed, remote_access_value, remote_toggle_allowed,
    validated_username, verify_admin_credentials, AdminAuthError, AdminJwtClaims, AuthEndpoint,
    JWT_TTL_SECS,
};
use bifrost_admin::router::{AdminRouter, AuthGate};

fn claims(iat: i64, exp: i64) -> AdminJwtClaims {
    AdminJwtClaims { sub: "admin".to_string(), iat, exp, jti: "jti-1".to_string() }
}

fn err_message<T>(r: Result<T, AdminAuthError>) -> String {
    match r {
        Ok(_) => String::new(),
        Err(e) => e.message(),
    }
}

const SECRET: &str = "s3cret-for-tests";

fn encode_with_secret(secret: &str, c: &AdminJwtClaims) -> String {
    let mut payload = serde_json::Map::new();
    payload.insert("sub".to_string(), serde_json::Value::from(c.sub.clone()));
    payload.insert("iat".to_string(), serde_json::Value::from(c.iat));
    payload.insert("exp".to_string(), serde_json::Value::from(c.exp));
    payload.insert("jti".to_string(), serde_json::Value::from(c.jti.clone()));
    let header = jsonwebtoken::Header::new(jsonwebtoken::Algorithm::HS256);
    let key = jsonwebtoken::EncodingKey::from_secret(secret.as_bytes());
    jsonwebtoken::encode(&header, &serde_json::Value::Object(payload), &key).unwrap()
}

#[test]
fn test_issue_admin_jwt_sets_7d_ttl_and_round_trip_validate() {
    let now: i64 = 1_700_000_000;
    let (token, c) = issue_admin_jwt(Some(SECRET), "admin", now, "jti-abc".to_string()).ok().expect("issue token");
    assert!(c.exp > c.iat);
    assert_eq!(c.exp - c.iat, 7 * 24 * 60 * 60);
    assert_eq!(c.exp - c.iat, JWT_TTL_SECS);
    let parsed = validate_admin_jwt(Some(SECRET), None, &token, now).ok().expect("validate token");
    assert_eq!(parsed.sub, "admin");
    assert_eq!(parsed.iat, c.iat);
    assert_eq!(parsed.exp, c.exp);
    assert_eq!(parsed.jti, c.jti);
}

#[test]
fn test_validate_admin_jwt_rejects_invalid_timestamps_and_too_long_ttl() {
    let now: i64 = 1_700_000_000;
    let token = encode_with_secret(SECRET, &claims(now + 120, now + 60));
    let err = err_message(validate_admin_jwt(Some(SECRET), None, &token, now));
    assert!(err.contains("Invalid token timestamps"));
    let token = encode_with_secret(SECRET, &claims(now, now + JWT_TTL_SECS + 60));
    let err = err_message(validate_admin_jwt(Some(SECRET), None, &token, now));
    assert!(err.contains("Token lifetime exceeds 7 days"));
}

#[test]
fn test_validate_admin_jwt_respects_revoke_before() {
    let now: i64 = 1_700_000_000;
    let revoke_before = now.to_string();
    let token = encode_with_secret(SECRET, &claims(now, now + 60));
    let err = err_message(validate_admin_jwt(Some(SECRET), Some(&revoke_before), &token, now));
    assert!(err.contains("Token revoked"));
}

#[test]
fn tokens_are_refused_when_expired_forged_or_unsigned() {
    let now: i64 = 1_700_000_000;
    let token = encode_with_secret(SECRET, &claims(now - 100, now - 10));
    assert_eq!(err_message(validate_admin_jwt(Some(SECRET), None, &token, now)), "Invalid token: ExpiredSignature");
    let token = encode_with_secret(SECRET, &claims(now - 100, now - 5));
    assert!(validate_admin_jwt(Some(SECRET), None, &token, now).is_ok());
    let token = encode_with_secret("other", &claims(now, now + 60));
    assert!(err_message(validate_admin_jwt(Some(SECRET), None, &token, now)).starts_with("Invalid token: "));
    assert!(matches!(validate_admin_jwt(None, None, "x", now), Err(AdminAuthError::SecretNotInitialized)));
    assert!(matches!(validate_admin_jwt(Some(" "), None, "x", now), Err(AdminAuthError::SecretEmpty)));
    assert!(matches!(issue_admin_jwt(Some(""), "admin", now, "j".to_string()), Err(AdminAuthError::SecretEmpty)));
    let c = check_admin_jwt_claims(&claims(now, now + 60), None);
    assert!(c.is_ok());
}

#[test]
fn test_set_admin_password_hash_and_verify_credentials() {
    assert!(!has_admin_password(None));
    let hash = admin_password_hash("testpass123").ok().expect("set password");
    assert!(has_admin_password(Some(&hash)));
    let ok = verify_admin_credentials("admin", "testpass123", None, Some(&hash));
    assert!(matches!(ok, Ok(true)));
    let wrong = verify_admin_credentials("admin", "wrongpass", None, Some(&hash));
    assert!(matches!(wrong, Ok(false)));
}

#[test]
fn test_set_admin_password_rejects_empty() {
    let err = admin_password_hash("");
    assert!(matches!(err, Err(AdminAuthError::EmptyPassword)));
}

#[test]
fn test_set_and_get_admin_username() {
    let stored = validated_username("myuser").ok().expect("set username");
    let username = get_admin_username(Some(Some(&stored)));
    assert_eq!(username, Some("myuser".to_string()));
}

#[test]
fn test_set_admin_username_rejects_empty() {
    let err = validated_username("   ");
    assert!(matches!(err, Err(AdminAuthError::EmptyUsername)));
}

#[test]
fn test_set_remote_access_enabled_toggle() {
    assert!(!is_remote_access_enabled(None));
    assert!(is_remote_access_enabled(Some(remote_access_value(true))));
    assert!(!is_remote_access_enabled(Some(remote_access_value(false))));
}

#[test]
fn test_revoke_all_invalidates_existing_tokens() {
    let issued: i64 = 1_700_000_000;
    let (token, _) = issue_admin_jwt(Some(SECRET), "admin", issued, "jti-1".to_string()).ok().expect("issue token");
    assert!(validate_admin_jwt(Some(SECRET), None, &token, issued).is_ok());
    let revoked_at = (issued + 1).to_string();
    let err = err_message(validate_admin_jwt(Some(SECRET), Some(&revoked_at), &token, issued + 2));
    assert!(err.contains("Token revoked"));
}

#[test]
fn test_has_admin_password_with_custom_username_and_credentials() {
    let stored_user = validated_username("operator").ok().expect("set username");
    let hash = admin_password_hash("securepass").ok().expect("set password");
    assert!(has_admin_password(Some(&hash)));
    let ok = verify_admin_credentials("operator", "securepass", Some(&stored_user), Some(&hash));
    assert!(matches!(ok, Ok(true)));
    let wrong_user = verify_admin_credentials("admin", "securepass", Some(&stored_user), Some(&hash));
    assert!(matches!(wrong_user, Ok(false)));
}

#[test]
fn test_extract_bearer_token_accepts_bearer_and_lowercase() {
    assert_eq!(extract_bearer_token(Some("Bearer abc")), Some("abc".to_string()));
    assert_eq!(extract_bearer_token(Some("bearer def")), Some("def".to_string()));
}

#[test]
fn test_extract_bearer_token_rejects_empty_token() {
    assert_eq!(extract_bearer_token(Some("Bearer   ")), None);
}

#[test]
fn bearer_token_needs_the_scheme() {
    assert_eq!(extract_bearer_token(None), None);
    assert_eq!(extract_bearer_token(Some("Basic abc")), None);
    assert_eq!(extract_bearer_token(Some("  Bearer  tok  ")), Some("tok".to_string()));
    assert_eq!(extract_bearer_token(Some(&bearer_header("xyz"))), Some("xyz".to_string()));
}

#[test]
fn test_check_api_auth_requires_token_when_remote_enabled_for_remote_peer() {
    let gate = AdminRouter::check_api_auth(true, "/api/system/status", Some(false), None);
    assert!(matches!(gate, AuthGate::MissingToken));
}

#[test]
fn test_check_api_auth_skips_for_loopback_when_remote_enabled() {
    let gate = AdminRouter::check_api_auth(true, "/api/system/status", Some(true), None);
    assert!(matches!(gate, AuthGate::Allow));
}

#[test]
fn test_check_api_auth_skips_auth_endpoints() {
    let gate = AdminRouter::check_api_auth(true, "/api/auth/status", Some(false), None);
    assert!(matches!(gate, AuthGate::Allow));
}

#[test]
fn test_check_api_auth_skips_when_peer_addr_none() {
    let gate = AdminRouter::check_api_auth(true, "/api/system/status", None, None);
    assert!(matches!(gate, AuthGate::Allow));
}

#[test]
fn remote_peer_with_token_must_be_validated() {
    let gate = AdminRouter::check_api_auth(true, "/api/rules", Some(false), Some("Bearer t0k"));
    match gate {
        AuthGate::Validate(t) => assert_eq!(t, "t0k"),
        _ => panic!("expected a token to validate"),
    }
    let gate = AdminRouter::check_api_auth(false, "/api/rules", Some(false), None);
    assert!(matches!(gate, AuthGate::Allow));
}

#[test]
fn remote_flag_accepts_common_spellings() {
    assert!(is_remote_access_enabled(Some(" YES ")));
    assert!(is_remote_access_enabled(Some("1")));
    assert!(is_remote_access_enabled(Some("On")));
    assert!(!is_remote_access_enabled(Some("enabled")));
}

#[test]
fn username_defaults_to_admin() {
    assert_eq!(get_admin_username(None), None);
    assert_eq!(get_admin_username(Some(None)), Some("admin".to_string()));
    assert_eq!(get_admin_username(Some(Some("  "))), Some("admin".to_string()));
    assert_eq!(get_admin_username(Some(Some(" root "))), Some("root".to_string()));
}

#[test]
fn secret_must_be_present_and_non_blank() {
    assert!(matches!(jwt_secret_value(None), Err(AdminAuthError::SecretNotInitialized)));
    assert!(matches!(jwt_secret_value(Some("  ")), Err(AdminAuthError::SecretEmpty)));
    assert_eq!(jwt_secret_value(Some(" s3 ")).ok(), Some("s3".to_string()));
}

#[test]
fn malformed_hash_fails_verification() {
    let r = verify_admin_credentials("admin", "pw", None, Some("not-a-hash"));
    match r {
        Err(e) => assert!(e.message().starts_with("Failed to verify password: ")),
        Ok(_) => panic!("a malformed hash cannot verify"),
    }
    assert!(matches!(verify_admin_credentials("admin", "pw", None, None), Ok(false)));
}

#[test]
fn auth_endpoints_by_path_and_method() {
    assert_eq!(auth_endpoint("/api/auth/status", "GET"), AuthEndpoint::Status);
    assert_eq!(auth_endpoint("/api/auth/status", "POST"), AuthEndpoint::MethodNotAllowed);
    assert_eq!(auth_endpoint("/api/auth/login", "POST"), AuthEndpoint::Login);
    assert_eq!(auth_endpoint("/api/auth/anything", "OPTIONS"), AuthEndpoint::Preflight);
    assert_eq!(auth_endpoint("/api/auth/nope", "GET"), AuthEndpoint::NotFound);
    assert!(login_allowed(true).is_ok());
    assert_eq!(login_allowed(false).err().map(|e| e.status), Some(403));
    assert!(remote_toggle_allowed(false, false).is_ok());
    assert_eq!(remote_toggle_allowed(true, false).err().map(|e| e.status), Some(400));
}

#[test]
fn revoke_time_that_does_not_read_is_ignored() {
    let c = claims(100, 200);
    assert!(check_admin_jwt_claims(&c, Some("soon")).is_ok());
    assert!(check_admin_jwt_claims(&c, Some(" 99 ")).is_ok());
    assert!(check_admin_jwt_claims(&c, Some("-5")).is_ok());
    assert!(check_admin_jwt_claims(&c, Some("100")).is_err());
}

#[test]
fn blank_settings_are_created_before_use() {
    assert_eq!(missing_auth_material(None, Some("s3cret")), (true, false));
    assert_eq!(missing_auth_material(Some("  "), None), (true, true));
    assert_eq!(missing_auth_material(Some("root"), Some(" \t")), (false, true));
}
