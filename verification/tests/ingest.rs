use netqmon_collector::device::{DeviceObservation, DhcpMetadata, DiscoveryObservation};
use netqmon_collector::favicon_probe::{
    sole_favicon_match, EndpointKey, FaviconEndpointCache, FaviconMatch, FaviconOutcome,
    ProbeResult,
};
use netqmon_collector::ingest::{
    add_implied_sightings, add_traffic_bytes, attribution_domain, attribution_reason,
    flow_observed_at, is_private_endpoint, resolve_batch_domain, DnsAnswer, TelemetryFlow,
    attribution_labels, favicon_identity_applies, host_classification_wins, host_to_reclassify,
    observed_macs, BatchCounters, BatchDisposition, ConfidenceSource,
};
use netqmon_collector::realtime::FlowAttribution;

fn answer(domain: &str, answer_ip: [u8; 4], ttl: u32, at: u64) -> DnsAnswer {
    DnsAnswer {
        client_ip: vec![192, 0, 2, 10],
        domain: domain.to_owned(),
        answer_ip: answer_ip.to_vec(),
        ttl_seconds: ttl,
        observed_at_unix_ms: at,
    }
}

fn flow(remote_ip: Vec<u8>, remote_port: u32, protocol: u32) -> TelemetryFlow {
    TelemetryFlow {
        client_ip: vec![192, 0, 2, 10],
        client_port: 50_000,
        remote_ip,
        remote_port,
        protocol,
        client_mac: vec![2, 0, 0, 0, 0x16, 1],
        upload_bytes: 10,
        download_bytes: 20,
        last_seen_unix_ms: 5_000,
    }
}

fn unknown() -> FlowAttribution {
    FlowAttribution::unknown()
}

#[test]
fn batch_dns_answer_names_the_flow_while_live() {
    let answers = vec![
        answer("old.example", [203, 0, 113, 10], 300, 1_000),
        answer("www.youtube.com", [203, 0, 113, 10], 300, 2_000),
        answer("other.example", [203, 0, 113, 20], 300, 3_000),
    ];
    let client = [192, 0, 2, 10];
    let remote = [203, 0, 113, 10];
    assert_eq!(
        resolve_batch_domain(&answers, &client, &remote, 2_500).as_deref(),
        Some("www.youtube.com")
    );
    assert_eq!(
        resolve_batch_domain(&answers, &client, &remote, 1_500).as_deref(),
        Some("old.example")
    );
    // Not yet observed, then expired after its 300 s lifetime.
    assert_eq!(resolve_batch_domain(&answers, &client, &remote, 999), None);
    assert_eq!(resolve_batch_domain(&answers, &client, &remote, 302_000), None);
    assert_eq!(resolve_batch_domain(&answers, &[10, 0, 0, 1], &remote, 2_500), None);
}

#[test]
fn equally_recent_dns_answers_resolve_to_the_last_listed() {
    let answers = vec![
        answer("first.example", [203, 0, 113, 10], 60, 1_000),
        answer("second.example", [203, 0, 113, 10], 60, 1_000),
    ];
    assert_eq!(
        resolve_batch_domain(&answers, &[192, 0, 2, 10], &[203, 0, 113, 10], 1_000).as_deref(),
        Some("second.example")
    );
}

#[test]
fn attribution_domain_prefers_batch_then_stored_then_inspected_host() {
    let s = |v: &str| Some(v.to_owned());
    assert_eq!(attribution_domain(s("a"), s("b"), s("c")), s("a"));
    assert_eq!(attribution_domain(None, s("b"), s("c")), s("b"));
    assert_eq!(attribution_domain(None, None, s("c")), s("c"));
    assert_eq!(attribution_domain(None, None, s("")), None);
    assert_eq!(attribution_domain(None, None, None), None);
}

#[test]
fn observed_time_falls_back_to_send_time() {
    assert_eq!(flow_observed_at(0, 9_000), 9_000);
    assert_eq!(flow_observed_at(7_000, 9_000), 7_000);
}

#[test]
fn reason_names_first_evidence_or_no_rule() {
    assert_eq!(attribution_reason(&vec![]), "no matching rule");
    let evidence = vec![
        ("domain_application".to_owned(), "youtube".to_owned()),
        ("port".to_owned(), "443".to_owned()),
    ];
    assert_eq!(attribution_reason(&evidence), "domain_application:youtube");
}

#[test]
fn traffic_total_saturates() {
    let flows = vec![flow(vec![1, 1, 1, 1], 443, 6), flow(vec![1, 1, 1, 1], 443, 6)];
    assert_eq!(add_traffic_bytes(100, &flows), 160);
    assert_eq!(add_traffic_bytes(u64::MAX - 5, &flows), u64::MAX);
}

#[test]
fn private_endpoints_follow_address_ranges() {
    assert!(is_private_endpoint(&[10, 1, 2, 3]));
    assert!(is_private_endpoint(&[172, 16, 0, 1]));
    assert!(is_private_endpoint(&[172, 31, 255, 255]));
    assert!(!is_private_endpoint(&[172, 32, 0, 1]));
    assert!(is_private_endpoint(&[192, 168, 1, 1]));
    assert!(is_private_endpoint(&[169, 254, 3, 4]));
    assert!(is_private_endpoint(&[127, 0, 0, 1]));
    assert!(!is_private_endpoint(&[8, 8, 8, 8]));
    let mut loopback = [0u8; 16];
    loopback[15] = 1;
    assert!(is_private_endpoint(&loopback));
    let mut link_local = [0u8; 16];
    link_local[0] = 0xfe;
    link_local[1] = 0x80;
    assert!(is_private_endpoint(&link_local));
    let mut ula = [0u8; 16];
    ula[0] = 0xfd;
    assert!(is_private_endpoint(&ula));
    let mut global = [0u8; 16];
    global[0] = 0x20;
    global[1] = 0x01;
    assert!(!is_private_endpoint(&global));
    assert!(!is_private_endpoint(&[1, 2, 3]));
}

#[test]
fn implied_sightings_add_evidence_clients_and_discoveries_once() {
    let mut observations = vec![DeviceObservation {
        mac: vec![2, 0, 0, 0, 0x16, 9],
        ip: vec![192, 0, 2, 9],
        hostname: "known".to_owned(),
        last_seen_unix_ms: 1,
        dhcp: Some(DhcpMetadata {
            vendor_class: String::new(),
            client_identifier: vec![],
            parameter_request_list: vec![],
        }),
    }];
    let flows = vec![flow(vec![203, 0, 113, 1], 443, 6), flow(vec![203, 0, 113, 2], 443, 6)];
    let evidence_macs = vec![vec![2, 0, 0, 0, 0x16, 1]];
    let discovery = DiscoveryObservation {
        mac: vec![2, 0, 0, 0, 0x16, 1],
        ip: vec![192, 0, 2, 99],
        protocol: "mdns".to_owned(),
        service: String::new(),
        instance: String::new(),
        hostname: "printer".to_owned(),
        port: 0,
        attributes: vec![],
        observed_at_unix_ms: 77,
    };
    let mut short_mac = discovery.clone();
    short_mac.mac = vec![1, 2];
    add_implied_sightings(&mut observations, &flows, &vec![discovery, short_mac], &evidence_macs);
    assert_eq!(observations.len(), 3);
    assert_eq!(observations[0].hostname, "known");
    assert_eq!(observations[1].mac, vec![2, 0, 0, 0, 0x16, 1]);
    assert_eq!(observations[1].ip, vec![192, 0, 2, 10]);
    assert_eq!(observations[1].last_seen_unix_ms, 5_000);
    assert_eq!(observations[1].dhcp, None);
    assert_eq!(observations[2].ip, vec![192, 0, 2, 99]);
    assert_eq!(observations[2].hostname, "printer");
    assert_eq!(observations[2].last_seen_unix_ms, 77);
}

fn favicon_match(app: &str) -> Option<FaviconMatch> {
    Some(FaviconMatch {
        application_id: app.to_owned(),
        organization_id: format!("{app}-org"),
        traffic_class: "self_hosted".to_owned(),
        evidence_json: "[]".to_owned(),
    })
}

#[test]
fn favicon_digests_settle_only_on_one_application() {
    let one = vec![None, favicon_match("jellyfin"), favicon_match("jellyfin")];
    assert_eq!(sole_favicon_match(&one).map(|m| m.application_id.as_str()), Some("jellyfin"));
    let two = vec![favicon_match("jellyfin"), favicon_match("plex")];
    assert!(sole_favicon_match(&two).is_none());
    assert!(sole_favicon_match(&vec![None]).is_none());
}

#[test]
fn private_tcp_endpoints_are_probed_once_and_identified() {
    let mut cache = FaviconEndpointCache::new();
    let flows = vec![
        flow(vec![192, 168, 1, 20], 8096, 6),
        flow(vec![192, 168, 1, 20], 8096, 6),
        flow(vec![8, 8, 8, 8], 443, 6),
        flow(vec![192, 168, 1, 21], 53, 17),
    ];
    let attributions = vec![unknown(), unknown(), unknown(), unknown()];
    let requests = cache.schedule(7, &flows, &attributions, 1_000);
    assert_eq!(requests.len(), 1);
    assert_eq!(requests[0].request_id, "7-1");
    assert_eq!(requests[0].target_ip, vec![192, 168, 1, 20]);
    assert_eq!(requests[0].port, 8096);
    // Within the retry interval the endpoint is not asked for again.
    assert!(cache.schedule(8, &flows, &attributions, 2_000).is_empty());

    let result = ProbeResult {
        request_id: "7-1".to_owned(),
        status: "ok".to_owned(),
        favicon: Some(FaviconOutcome {
            target_ip: vec![192, 168, 1, 20],
            port: 8096,
            matches: vec![favicon_match("jellyfin")],
        }),
    };
    assert_eq!(cache.observe_results(3_000, &vec![result.clone()]), 3_000);
    let key = EndpointKey { ip: vec![192, 168, 1, 20], protocol: 6, port: 8096 };
    let identity = cache.identity(&key, 3_000).expect("identity learned");
    assert_eq!(identity.application_id, "jellyfin");
    assert_eq!(identity.organization_id, "jellyfin-org");
    assert_eq!(identity.expires_at, 3_000 + 86_400_000);
    assert!(cache.identity(&key, 3_000 + 86_400_000).is_none());
    // The request is closed: the same result again changes nothing.
    cache.observe_results(4_000, &vec![result]);
    assert!(cache.identity(&key, 4_000).is_some());
}

#[test]
fn known_application_flows_and_wrong_endpoints_are_not_identified() {
    let mut cache = FaviconEndpointCache::new();
    let mut known = unknown();
    known.application_id = "plex".to_owned();
    let flows = vec![flow(vec![10, 0, 0, 5], 32_400, 6)];
    assert!(cache.schedule(1, &flows, &vec![known], 1_000).is_empty());
    let requests = cache.schedule(1, &flows, &vec![unknown()], 1_000);
    assert_eq!(requests.len(), 1);
    let result = ProbeResult {
        request_id: requests[0].request_id.clone(),
        status: "ok".to_owned(),
        favicon: Some(FaviconOutcome {
            target_ip: vec![10, 0, 0, 6],
            port: 32_400,
            matches: vec![favicon_match("plex")],
        }),
    };
    cache.observe_results(2_000, &vec![result]);
    let key = EndpointKey { ip: vec![10, 0, 0, 5], protocol: 6, port: 32_400 };
    assert!(cache.identity(&key, 2_000).is_none());
}

#[test]
fn at_most_eight_probes_per_batch() {
    let mut cache = FaviconEndpointCache::new();
    let flows: Vec<TelemetryFlow> = (0..12u32).map(|p| flow(vec![10, 0, 0, 1], 8_000 + p, 6)).collect();
    let attributions = vec![unknown(); 12];
    let requests = cache.schedule(3, &flows, &attributions, 10);
    assert_eq!(requests.len(), 8);
    assert_eq!(requests[7].request_id, "3-8");
}

fn ev(kind: &str, value: &str) -> (String, String) {
    (kind.to_owned(), value.to_owned())
}

#[test]
fn packet_host_names_get_a_second_classification_only_without_a_domain_rule() {
    let dns_rule = vec![ev("domain_application", "youtube.com")];
    let other = vec![ev("ndpi_application", "tls")];
    let host = Some("www.netflix.com".to_owned());
    let domain = Some("cdn.example".to_owned());
    assert_eq!(host_to_reclassify(&dns_rule, &host, &domain), None);
    assert_eq!(host_to_reclassify(&other, &host, &domain), Some("www.netflix.com".to_owned()));
    assert_eq!(host_to_reclassify(&other, &host, &host.clone()), None);
    assert_eq!(host_to_reclassify(&other, &Some(String::new()), &None), None);
    assert_eq!(host_to_reclassify(&Vec::new(), &None, &domain), None);
    assert!(host_classification_wins(&vec![ev("port", "443"), ev("domain_application", "netflix.com")]));
    assert!(!host_classification_wins(&other));
}

#[test]
fn missing_labels_read_unknown_and_pick_the_confidence_source() {
    let labels = attribution_labels(&None, &Some("youtube".into()), &None, &None, &Some("quic".into()));
    assert_eq!(labels.organization_id, "unknown");
    assert_eq!(labels.application_id, "youtube");
    assert_eq!(labels.category_id, "unknown");
    assert_eq!(labels.traffic_role, "unknown");
    assert_eq!(labels.confidence_from, ConfidenceSource::Application);
    let protocol_only = attribution_labels(&Some("google".into()), &None, &None, &None, &Some("quic".into()));
    assert_eq!(protocol_only.confidence_from, ConfidenceSource::Protocol);
    let nothing = attribution_labels(&Some("google".into()), &None, &None, &None, &None);
    assert_eq!(nothing.protocol_id, "unknown");
    assert_eq!(nothing.confidence_from, ConfidenceSource::Organization);
    assert!(favicon_identity_applies("unknown"));
    assert!(!favicon_identity_applies("youtube"));
}

#[test]
fn batches_are_counted_by_what_storage_made_of_them() {
    let mut counters = BatchCounters::new();
    let flows = vec![flow(vec![1, 1, 1, 1], 443, 6), flow(vec![1, 1, 1, 2], 443, 6)];
    counters.record(BatchDisposition::Accepted, &flows);
    counters.record(BatchDisposition::Duplicate, &flows);
    assert_eq!(counters, BatchCounters { accepted_batches: 1, dedupe_hits: 1, traffic_bytes: 60 });
    let seen = |mac: u8| DeviceObservation {
        mac: vec![2, 0, 0, 0, 0, mac],
        ip: vec![10, 0, 0, mac],
        hostname: String::new(),
        last_seen_unix_ms: 0,
        dhcp: None,
    };
    assert_eq!(
        observed_macs(&vec![seen(3), seen(1), seen(3), seen(2)]),
        vec![vec![2, 0, 0, 0, 0, 3], vec![2, 0, 0, 0, 0, 1], vec![2, 0, 0, 0, 0, 2]]
    );
}
