use netqmon_collector::classifier::{
    application_candidates, fallback_application_org_id, fallback_metadata, flow_protocol,
    hex_digest, normalize_icon_hostname, organization_candidates, resolve_metadata,
    valid_icon_hostname_for_metadata, Availability, AvailabilityState, EntityKind,
    EntityMetadata, IconMetadata, CIRCUIT_OPEN_ERROR,
};

#[test]
fn repository_xiaohongshu_icon_metadata_keeps_remote_candidate() {
    let application = fallback_metadata(EntityKind::Application, "xiaohongshu")
        .expect("xiaohongshu application metadata");
    let organization = fallback_metadata(EntityKind::Organization, "xingyin")
        .expect("xingyin organization metadata");

    assert_eq!(
        application.icon.local_fallback.as_deref(),
        Some("xiaohongshu")
    );
    assert_eq!(
        application_candidates(&application, Some(&organization)),
        vec!["xiaohongshu.com".to_owned()]
    );
}

#[test]
fn fallback_metadata_keeps_requested_alias_id() {
    let m = fallback_metadata(EntityKind::Application, "playstation").unwrap();
    assert_eq!(m.id, "playstation");
    assert_eq!(m.name, "PlayStation Network");
    assert_eq!(m.icon.domain.as_deref(), Some("playstation.com"));
    assert_eq!(m.icon.fallback_domains, vec!["playstation.net".to_owned()]);
    assert!(fallback_metadata(EntityKind::Organization, "youtube").is_none());
    assert!(fallback_metadata(EntityKind::Application, "unknown-app").is_none());
}

#[test]
fn application_organization_ids() {
    assert_eq!(fallback_application_org_id("steam").as_deref(), Some("valve"));
    assert_eq!(fallback_application_org_id("google-dns").as_deref(), Some("google"));
    assert_eq!(fallback_application_org_id("nope"), None);
}

#[test]
fn remote_metadata_wins_over_builtin_rows() {
    let remote = EntityMetadata {
        id: "youtube".to_owned(),
        name: "Remote".to_owned(),
        icon: IconMetadata::default(),
    };
    let r = resolve_metadata(Some(remote.clone()), EntityKind::Application, "youtube");
    assert_eq!(r, Some(remote));
    let r = resolve_metadata(None, EntityKind::Application, "youtube").unwrap();
    assert_eq!(r.name, "YouTube");
}

#[test]
fn candidates_are_deduplicated_in_order() {
    let app = fallback_metadata(EntityKind::Application, "icloud").unwrap();
    let org = fallback_metadata(EntityKind::Organization, "apple").unwrap();
    let c = application_candidates(&app, Some(&org));
    assert_eq!(c[0], "icloud.com");
    assert_eq!(c[1], "apple.com");
    let mut sorted = c.clone();
    sorted.sort();
    sorted.dedup();
    assert_eq!(sorted.len(), c.len());
    assert_eq!(organization_candidates(&org)[0], "apple.com");
}

#[test]
fn icon_hostname_rules() {
    assert!(valid_icon_hostname_for_metadata("example.com"));
    assert!(valid_icon_hostname_for_metadata("a-b.c9.example"));
    assert!(!valid_icon_hostname_for_metadata("localhost"));
    assert!(!valid_icon_hostname_for_metadata("192.168.1.1"));
    assert!(valid_icon_hostname_for_metadata("192.168.1.01"));
    assert!(valid_icon_hostname_for_metadata("1.2.3.4.5"));
    assert!(!valid_icon_hostname_for_metadata("Example.com"));
    assert!(!valid_icon_hostname_for_metadata("-a.com"));
    assert!(!valid_icon_hostname_for_metadata("a..com"));
    assert!(!valid_icon_hostname_for_metadata("a.com."));
    assert!(!valid_icon_hostname_for_metadata("*.a.com"));
    assert!(!valid_icon_hostname_for_metadata(""));
    let long_label = format!("{}.com", "a".repeat(64));
    assert!(!valid_icon_hostname_for_metadata(&long_label));
    assert_eq!(normalize_icon_hostname("  WWW.Example.COM.. "), "www.example.com");
}

#[test]
fn protocol_names_and_digests() {
    assert_eq!(flow_protocol(6), "tcp");
    assert_eq!(flow_protocol(17), "udp");
    assert_eq!(flow_protocol(47), "47");
    assert_eq!(hex_digest(&[0x00, 0xab, 0x10]), "00ab10");
}

#[test]
fn circuit_breaker_backs_off_and_recovers() {
    let mut s = AvailabilityState::new(0);
    assert!(s.begin_request(0).is_ok());
    assert_eq!(s.availability(), "connecting");
    assert_eq!(s.begin_request(0), Err(CIRCUIT_OPEN_ERROR.to_owned()));
    s.mark_unavailable("boom", 0);
    assert_eq!(s.state, Availability::Unavailable);
    assert_eq!(s.next_probe_ms, 1000);
    assert_eq!(s.failure_delay_ms, 2000);
    assert_eq!(s.last_error().as_deref(), Some("boom"));
    assert!(s.begin_request(999).is_err());
    assert!(s.begin_request(1000).is_ok());
    for _ in 0..10 {
        s.mark_unavailable("again", 5000);
    }
    assert_eq!(s.failure_delay_ms, 30_000);
    assert_eq!(s.next_probe_ms, 35_000);
    s.mark_ready();
    assert_eq!(s.availability(), "ready");
    assert_eq!(s.failure_delay_ms, 1000);
    assert!(s.last_error().is_none());
    assert!(s.begin_request(0).is_ok());
}

#[test]
fn finished_requests_settle_the_circuit() {
    let mut s = AvailabilityState::new(0);
    assert!(s.begin_request(0).is_ok());
    let failed: Result<u32, String> = s.finish_request(Err("refused".to_owned()), 100);
    assert_eq!(failed, Err("refused".to_owned()));
    assert_eq!(s.state, Availability::Unavailable);
    assert_eq!(s.next_probe_ms, 1_100);
    assert_eq!(s.failure_delay_ms, 2_000);
    assert_eq!(s.last_error().as_deref(), Some("refused"));
    assert_eq!(s.begin_request(500), Err(CIRCUIT_OPEN_ERROR.to_owned()));
    assert!(s.begin_request(1_100).is_ok());
    assert_eq!(s.finish_request(Ok(7u32), 1_200), Ok(7));
    assert_eq!(s.state, Availability::Ready);
    assert_eq!(s.failure_delay_ms, 1_000);
    assert_eq!(s.last_error(), None);
}

#[test]
fn every_built_in_application_organization_has_metadata() {
    for app in ["youtube", "google-dns", "steam", "slack", "twitch", "xiaohongshu", "cloudflare-backup"] {
        let org = fallback_application_org_id(app).unwrap();
        assert!(fallback_metadata(EntityKind::Application, app).is_some(), "{app}");
        assert!(fallback_metadata(EntityKind::Organization, &org).is_some(), "{org}");
    }
}
