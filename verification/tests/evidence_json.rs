use netqmon_collector::evidence_json::{attribution_has_evidence, binds_endpoint, evidence_fields};

#[test]
fn evidence_fields_read_each_item_in_order() {
    let items = evidence_fields(
        r#"[{"type":"sni","value":"jellyfin.lan"},{"type":"favicon","value":7},{"value":"x"}]"#,
        "type",
        "value",
    );
    assert_eq!(
        items,
        vec![
            (Some("sni".to_owned()), Some("jellyfin.lan".to_owned())),
            (Some("favicon".to_owned()), None),
            (None, Some("x".to_owned())),
        ]
    );
}

#[test]
fn unreadable_evidence_has_no_items() {
    assert!(evidence_fields("{}", "type", "value").is_empty());
    assert!(evidence_fields("not json", "type", "value").is_empty());
    assert!(evidence_fields("", "source", "source").is_empty());
}

#[test]
fn attribution_evidence_is_found_by_type() {
    let json = r#"[{"type":"sni","value":"a"},{"type":"self_host_application","value":"jellyfin"}]"#;
    assert!(attribution_has_evidence(json, "self_host_application"));
    assert!(attribution_has_evidence(json, "sni"));
    assert!(!attribution_has_evidence(json, "favicon"));
    assert!(!attribution_has_evidence(r#"{"type":"sni"}"#, "sni"));
    assert!(!attribution_has_evidence("[", "sni"));
}

#[test]
fn only_confident_self_hosted_applications_bind_their_endpoint() {
    let json = r#"[{"type":"self_host_application","value":"jellyfin"}]"#;
    assert!(binds_endpoint("jellyfin", true, json));
    assert!(!binds_endpoint("jellyfin", false, json));
    assert!(!binds_endpoint("unknown", true, json));
    assert!(!binds_endpoint("jellyfin", true, r#"[{"type":"sni","value":"a"}]"#));
}
