use class_capacity_truth::auth::{keys_fresh, AuthError, AuthVerifier, Jwk, KeyCache, TokenClaims};

fn school_verifier() -> AuthVerifier {
    AuthVerifier::from_settings(None, None, None, None)
}

#[test]
fn defaults_name_the_school_tenant() {
    let v = school_verifier();
    assert_eq!(v.tenant_id, "35c6fe40-0ec0-46b6-98c6-213ad4de6650");
    assert_eq!(v.client_id, "25c704f4-465a-47af-80ab-2c489466b697");
    assert_eq!(
        v.discovery_url,
        "https://sociobotcustomers.ciamlogin.com/35c6fe40-0ec0-46b6-98c6-213ad4de6650/v2.0/.well-known/openid-configuration"
    );
    assert_eq!(v.test_token, None);
}

#[test]
fn test_tokens_are_accepted_only_when_configured() {
    let v = school_verifier();
    assert_eq!(v.test_subject("test-owner", true), None);
    let t = AuthVerifier::for_tests(school_verifier());
    assert_eq!(t.test_subject("test-owner", false).as_deref(), Some("test-owner-oid"));
    assert_eq!(t.test_subject("test-owner-viewer", true).as_deref(), Some("test-owner-viewer-oid"));
    assert_eq!(t.test_subject("test-owner-viewer", false), None);
    assert_eq!(t.test_subject("someone-else", true), None);
}

#[test]
fn tokens_need_known_rs256_keys_and_matching_claims() {
    let v = school_verifier();
    assert_eq!(v.signing_key("anything", None).unwrap_err(), AuthError::KeysUnavailable);
    let cache = KeyCache {
        issuer: "https://issuer.example/v2.0".to_owned(),
        keys: vec![Jwk { kid: "k1".to_owned(), n: "n".to_owned(), e: "AQAB".to_owned() }],
        loaded_at: 1_000,
    };
    assert_eq!(v.signing_key("not a token", Some(&cache)).unwrap_err(), AuthError::InvalidToken);
    // {"alg":"HS256","typ":"JWT"}
    let hs = "eyJhbGciOiJIUzI1NiIsInR5cCI6IkpXVCJ9.e30.c2ln";
    assert_eq!(v.signing_key(hs, Some(&cache)).unwrap_err(), AuthError::WrongAlgorithm);
    // {"alg":"RS256","kid":"k1"}
    let rs = "eyJhbGciOiJSUzI1NiIsImtpZCI6ImsxIn0.e30.c2ln";
    assert_eq!(v.signing_key(rs, Some(&cache)).unwrap().kid, "k1");
    // {"alg":"RS256","kid":"k2"}
    let unknown = "eyJhbGciOiJSUzI1NiIsImtpZCI6ImsyIn0.e30.c2ln";
    assert_eq!(v.signing_key(unknown, Some(&cache)).unwrap_err(), AuthError::UnknownKey);
    // {"alg":"RS256"}
    let no_kid = "eyJhbGciOiJSUzI1NiJ9.e30.c2ln";
    assert_eq!(v.signing_key(no_kid, Some(&cache)).unwrap_err(), AuthError::MissingKeyId);

    let mut claims = TokenClaims {
        aud: v.client_id.clone(),
        tid: v.tenant_id.clone(),
        iss: cache.issuer.clone(),
        oid: "staff-oid".to_owned(),
    };
    assert_eq!(v.accept_claims(&cache, &claims).unwrap(), "staff-oid");
    claims.iss = "other".to_owned();
    assert_eq!(v.accept_claims(&cache, &claims).unwrap_err(), AuthError::WrongIssuer);
    claims.tid = "other".to_owned();
    assert_eq!(v.accept_claims(&cache, &claims).unwrap_err(), AuthError::WrongTenant);
    claims.aud = "other".to_owned();
    assert_eq!(v.accept_claims(&cache, &claims).unwrap_err(), AuthError::WrongAudience);
    assert_eq!(AuthError::WrongAudience.message(), "wrong token audience");
}

#[test]
fn signing_keys_are_fresh_for_an_hour() {
    let cache = KeyCache { issuer: String::new(), keys: Vec::new(), loaded_at: 1_000 };
    assert!(keys_fresh(Some(&cache), 4_599));
    assert!(!keys_fresh(Some(&cache), 4_600));
    assert!(keys_fresh(Some(&cache), 10));
    assert!(!keys_fresh(None, 0));
}

#[test]
fn verify_honours_test_tokens_before_keys() {
    let t = AuthVerifier::for_tests(school_verifier());
    assert_eq!(t.verify("test-owner", false, None).unwrap(), "test-owner-oid");
    assert_eq!(t.verify("test-owner-extra", true, None).unwrap(), "test-owner-extra-oid");
    assert_eq!(t.verify("test-owner-extra", false, None).unwrap_err(), AuthError::KeysUnavailable);
}

#[test]
fn verify_refuses_tokens_that_fail_the_signature_check() {
    let v = school_verifier();
    let mut cache = KeyCache {
        issuer: "https://issuer.example/v2.0".to_owned(),
        keys: vec![Jwk { kid: "k1".to_owned(), n: "not base64!".to_owned(), e: "AQAB".to_owned() }],
        loaded_at: 1_000,
    };
    // {"alg":"RS256","kid":"k1"}
    let rs = "eyJhbGciOiJSUzI1NiIsImtpZCI6ImsxIn0.e30.c2ln";
    assert_eq!(v.verify(rs, false, Some(&cache)).unwrap_err(), AuthError::BadKey);
    cache.keys[0].n = "AQAB".to_owned();
    assert_eq!(v.verify(rs, false, Some(&cache)).unwrap_err(), AuthError::Rejected);
    assert_eq!(v.verify("not a token", false, Some(&cache)).unwrap_err(), AuthError::InvalidToken);
    assert_eq!(v.verify("test-owner", false, None).unwrap_err(), AuthError::KeysUnavailable);
    assert_eq!(AuthError::Rejected.message(), "bearer token signature or lifetime rejected");
}
