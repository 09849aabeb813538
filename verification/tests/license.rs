use netqmon_collector::license::{
    classifier_identity_usable, cloud_error_message, cloud_local_status, community_lease,
    current_entitlement, fresh_identity, grace_expired, license_status, next_check, plan_check,
    plain_error_message, truncate_body, CheckPlan, CheckReply, ClassifierEntitlement,
    NO_COMPATIBLE_RULE,
};

#[test]
fn fresh_identity_is_community_and_unlicensed() {
    let id = fresh_identity("abc".to_owned());
    assert_eq!(id.edition, "community");
    assert_eq!(id.license_status, "unlicensed");
    let status = license_status(&id, None, None);
    assert!(!status.activated);
    assert_eq!(status.edition, "community");
    let c = ClassifierEntitlement {
        edition: "pro".into(),
        license_status: "active".into(),
        lease_valid_until: Some(9),
        rule_version: Some("r1".into()),
    };
    let status = license_status(&id, Some(c.clone()), Some("oops".into()));
    assert_eq!((status.edition.as_str(), status.rule_version.as_deref()), ("pro", Some("r1")));
    assert_eq!(status.last_error.as_deref(), Some("oops"));
    assert_eq!(current_entitlement(Some(c.clone()), &id, None), c);
    assert_eq!(current_entitlement(None, &id, None).license_status, "unlicensed");
}

#[test]
fn check_transport_failure_and_offline_grace_period() {
    assert!(grace_expired(None, 0));
    assert!(!grace_expired(Some(1_000), 1_000 + 86_400));
    assert!(grace_expired(Some(1_000), 1_000 + 86_401));
    let mut id = fresh_identity("x".into());
    id.last_success_at = Some(100);
    match plan_check(id.clone(), "cred".into(), CheckReply::Unreachable { message: "down".into() }, 200, "u") {
        CheckPlan::Fail { lease, error } => {
            assert!(lease.is_none());
            assert_eq!(error, "down");
        }
        other => panic!("{other:?}"),
    }
    match plan_check(id, "cred".into(), CheckReply::Unreachable { message: "down".into() }, 100 + 86_401, "u") {
        CheckPlan::Fail { lease: Some(l), .. } => {
            assert_eq!(l.license_status, "offline_grace_expired");
            assert_eq!(l.edition, "community");
        }
        other => panic!("{other:?}"),
    }
}

#[test]
fn check_immediate_downgrade_on_revocation_401_403() {
    assert_eq!(cloud_local_status(403, "LICENSE_REVOKED by admin"), "revoked");
    assert_eq!(cloud_local_status(401, "License expired yesterday"), "expired");
    assert_eq!(cloud_local_status(403, "account disabled"), "disabled");
    assert_eq!(cloud_local_status(401, "nope"), "credential_invalid");
    assert_eq!(cloud_local_status(403, "nope"), "access_denied");
    let reply = CheckReply::Refused {
        status: 403,
        status_text: "403 Forbidden".into(),
        message: "license_revoked".into(),
    };
    match plan_check(fresh_identity("x".into()), "c".into(), reply, 5, "https://cloud") {
        CheckPlan::Downgrade { lease, error } => {
            assert_eq!(lease.license_status, "revoked");
            assert_eq!(lease.lease_valid_until, 5);
            assert_eq!(error, "Cloud rejected device credential (403 Forbidden): license_revoked");
        }
        other => panic!("{other:?}"),
    }
}

#[test]
fn granted_checks_store_the_lease() {
    let reply = CheckReply::Granted {
        edition: "pro".into(),
        license_status: "active".into(),
        lease_valid_until: 77,
        allowed_rule: None,
        sealed_rule_key: None,
    };
    match plan_check(fresh_identity("x".into()), "cred".into(), reply, 10, "https://cloud") {
        CheckPlan::Apply { lease, identity, notice } => {
            assert_eq!(lease.installation_credential.as_deref(), Some("cred"));
            assert_eq!(identity.last_success_at, Some(10));
            assert_eq!(identity.lease_valid_until, Some(77));
            assert_eq!(notice.as_deref(), Some(NO_COMPATIBLE_RULE));
        }
        other => panic!("{other:?}"),
    }
    let reply = CheckReply::Granted {
        edition: "pro".into(),
        license_status: "active".into(),
        lease_valid_until: 77,
        allowed_rule: Some(("art".into(), "v2".into())),
        sealed_rule_key: Some("k".into()),
    };
    match plan_check(fresh_identity("x".into()), "cred".into(), reply, 10, "u") {
        CheckPlan::Apply { lease, notice, .. } => {
            let rule = lease.allowed_rule.unwrap();
            assert_eq!((rule.artifact_id.as_str(), rule.rule_version.as_str(), rule.edition.as_str()), ("art", "v2", "pro"));
            assert!(notice.is_none());
        }
        other => panic!("{other:?}"),
    }
    assert_eq!(community_lease("x", 3, "u").edition, "community");
}

#[test]
fn messages_and_truncation() {
    assert_eq!(truncate_body("hello", 10), "hello");
    assert_eq!(truncate_body("héllo", 2), "h");
    assert_eq!(truncate_body("héllo", 3), "hé");
    assert_eq!(truncate_body("日本", 5), "日");
    assert_eq!(
        cloud_error_message("check", "400 Bad Request", "bad", "no", Some("input"), Some("retry"), Some("{}")),
        "Cloud check failed (400 Bad Request, code=bad): no [category=input] Action: retry. Details: {}"
    );
    assert_eq!(plain_error_message("activation", "502 Bad Gateway", "   "), "Cloud activation failed (502 Bad Gateway)");
    assert_eq!(plain_error_message("activation", "502", " oops "), "Cloud activation failed (502): oops");
    let long = "x".repeat(2000);
    assert_eq!(plain_error_message("a", "1", &long).len(), "Cloud a failed (1): ".len() + 1024);
    assert!(classifier_identity_usable("key", "kid"));
    assert!(!classifier_identity_usable("  ", "kid"));
    assert!(!classifier_identity_usable("key", "unknown"));
    assert!(!classifier_identity_usable("key", " "));
}

#[test]
fn retry_schedule() {
    assert_eq!(next_check(true, 240, 3), (900, 15));
    assert_eq!(next_check(false, 15, 14), (16, 30));
    assert_eq!(next_check(false, 15, -1), (15 + 6 + 1, 30));
    assert_eq!(next_check(false, 600, 0), (601, 900));
}

#[test]
fn a_failed_check_names_the_status_code_first() {
    let m = plain_error_message("check", "500 Internal Server Error", r#"{"error":"gateway timeout"}"#);
    assert!(m.contains("Cloud check failed (500"));
    assert_eq!(m, r#"Cloud check failed (500 Internal Server Error): {"error":"gateway timeout"}"#);
}
