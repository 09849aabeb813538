use netqmon_collector::access::{
    admit_telemetry, authenticate, bearer_token, enrollment_precheck, hash_password, hash_token,
    login_input_present, new_enrollment, random_hex, session_expiry, token_matches,
    validate_credentials, verify_password, Credentials, GatewayCredential, Rejection,
    PASSWORD_RULE, SESSION_LIFETIME_MS, USERNAME_RULE,
};

fn creds(username: &str, password: &str) -> Credentials {
    Credentials { username: username.to_owned(), password: password.to_owned() }
}

#[test]
fn passwords_use_argon2id_and_verify() {
    let hash = hash_password(b"correct horse battery staple").unwrap();
    assert!(hash.starts_with("$argon2id$"));
    assert!(verify_password(b"correct horse battery staple", &hash));
    assert!(!verify_password(b"incorrect", &hash));
    assert!(!verify_password(b"correct horse battery staple", "not a phc string"));
}

#[test]
fn credential_rules() {
    assert_eq!(validate_credentials(&creds("admin", "123456789012")), Ok(()));
    assert_eq!(validate_credentials(&creds("ad", "123456789012")), Err(USERNAME_RULE));
    assert_eq!(validate_credentials(&creds(&"a".repeat(33), "123456789012")), Err(USERNAME_RULE));
    assert_eq!(validate_credentials(&creds("adm in", "123456789012")), Err(USERNAME_RULE));
    assert_eq!(validate_credentials(&creds("adé", "123456789012")), Err(USERNAME_RULE));
    assert_eq!(validate_credentials(&creds("a.b-c_d", "12345678901")), Err(PASSWORD_RULE));
    assert_eq!(validate_credentials(&creds("a.b-c_d", &"x".repeat(129))), Err(PASSWORD_RULE));
    assert_eq!(validate_credentials(&creds("a.b-c_d", "ééééééé")), Ok(()));
    assert!(login_input_present(&creds("a", "b")));
    assert!(!login_input_present(&creds("", "b")));
}

#[test]
fn bearer_tokens_and_hashes() {
    assert_eq!(bearer_token("Bearer abc").as_deref(), Some("abc"));
    assert_eq!(bearer_token("Bearer "), None);
    assert_eq!(bearer_token("bearer abc"), None);
    let hash = hash_token("secret");
    assert_eq!(hash.len(), 32);
    assert_eq!(hash[0], 0x2b);
    assert!(token_matches(&hash, "secret"));
    assert!(!token_matches(&hash, "Secret"));
    let gateway = Some(GatewayCredential { gateway_id: "gw".to_owned(), agent_token_hash: hash });
    assert_eq!(authenticate(&gateway, "secret").as_deref(), Some("gw"));
    assert_eq!(authenticate(&gateway, "other"), None);
    assert_eq!(authenticate(&None, "secret"), None);
    assert_eq!(session_expiry(1), 1 + SESSION_LIFETIME_MS);
    assert_eq!(session_expiry(u64::MAX), u64::MAX);
}

#[test]
fn random_tokens_are_hex() {
    let a = random_hex(16).unwrap();
    assert_eq!(a.len(), 32);
    assert!(a.chars().all(|c| c.is_ascii_hexdigit() && !c.is_ascii_uppercase()));
    let e = new_enrollment().unwrap();
    assert_eq!(e.gateway_id.len(), 32);
    assert_eq!(e.agent_token.len(), 64);
    assert_eq!(e.agent_token_hash, hash_token(&e.agent_token));
}

#[test]
fn enrollment_and_batch_admission() {
    assert_eq!(
        enrollment_precheck(false, 1, 1, false),
        Err(Rejection { status: 401, message: "invalid enrollment token" })
    );
    assert_eq!(enrollment_precheck(true, 2, 1, false).unwrap_err().status, 422);
    assert_eq!(enrollment_precheck(true, 1, 1, true).unwrap_err().status, 409);
    assert_eq!(enrollment_precheck(true, 1, 1, false), Ok(()));
    let none: Vec<Vec<usize>> = Vec::new();
    assert_eq!(admit_telemetry("a", "b", 0, 0, &none).unwrap_err().status, 403);
    assert_eq!(
        admit_telemetry("a", "a", 10_001, 0, &none).unwrap_err().message,
        "too many flows in telemetry batch"
    );
    assert_eq!(admit_telemetry("a", "a", 10_000, 10_001, &none).unwrap_err().status, 413);
    assert_eq!(admit_telemetry("a", "a", 0, 0, &vec![vec![32; 8]]), Ok(()));
    assert_eq!(
        admit_telemetry("a", "a", 0, 0, &vec![vec![32; 9]]).unwrap_err().message,
        "invalid probe results"
    );
    assert!(admit_telemetry("a", "a", 0, 0, &vec![vec![31]]).is_err());
    assert!(admit_telemetry("a", "a", 0, 0, &vec![vec![]; 65]).is_err());
}

#[test]
fn hashing_with_a_given_salt_is_repeatable_and_verifies() {
    let salt = [7u8; 16];
    let a = netqmon_collector::access::hash_password_with_salt(b"correct horse", &salt).unwrap();
    let b = netqmon_collector::access::hash_password_with_salt(b"correct horse", &salt).unwrap();
    assert_eq!(a, b);
    assert!(a.starts_with("$argon2id$"));
    assert!(netqmon_collector::access::verify_password(b"correct horse", &a));
    assert!(!netqmon_collector::access::verify_password(b"wrong horse", &a));
    let other = netqmon_collector::access::hash_password_with_salt(b"correct horse", &[8u8; 16]).unwrap();
    assert_ne!(a, other);
}
