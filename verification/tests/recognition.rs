use netqmon_collector::recognition::{
    count_devices, count_flows, summarize, top, DeviceRecord, FlowGroup,
};

fn device(device_type: Option<&str>, vendor: Option<&str>, private_mac: u64, sources: &[&str]) -> DeviceRecord {
    DeviceRecord {
        device_type: device_type.map(str::to_owned),
        vendor: vendor.map(str::to_owned),
        private_mac,
        evidence_sources: sources.iter().map(|s| (*s).to_owned()).collect(),
    }
}

fn flow(
    application: Option<&str>,
    protocol: Option<&str>,
    domain: Option<&str>,
    evidence: &[(Option<&str>, Option<&str>)],
    count: u64,
) -> FlowGroup {
    FlowGroup {
        application_id: application.map(str::to_owned),
        protocol_id: protocol.map(str::to_owned),
        domain: domain.map(str::to_owned),
        evidence: evidence
            .iter()
            .map(|(t, v)| (t.map(str::to_owned), v.map(str::to_owned)))
            .collect(),
        count,
    }
}

fn rate(n: u64, total: u64) -> f64 {
    if total == 0 {
        0.0
    } else {
        n as f64 / total as f64
    }
}

fn count_for(tally: &[(String, u64)], name: &str) -> Option<u64> {
    tally.iter().find(|(k, _)| k == name).map(|(_, v)| *v)
}

#[test]
fn separates_missing_evidence_and_rules_and_uses_flows_as_denominator() {
    let devices = vec![
        device(None, None, 0, &[]),
        device(None, None, 0, &["mdns", "mdns"]),
        device(Some("printer"), Some("HP"), 1, &["mdns"]),
    ];
    let flows = vec![
        flow(Some("youtube"), Some("tls"), None, &[(Some("domain_application"), None)], 2),
        flow(
            None,
            Some("quic"),
            Some("unmatched.test"),
            &[(Some("unmatched_ndpi_application"), Some("MissingApp"))],
            2,
        ),
    ];
    let value = summarize(&devices, &flows, 0);
    assert_eq!(value.devices.unknown_without_evidence, 1);
    assert_eq!(value.devices.unknown_with_evidence, 1);
    assert_eq!(count_for(&value.devices.coverage, "mdns"), Some(2));
    assert_eq!(rate(value.traffic.domain_rules, value.traffic.total), 0.5);
    assert_eq!(rate(value.traffic.tls_quic_only, value.traffic.total), 0.5);
    assert_eq!(value.traffic.top_unmatched_inspection[0].1, 2);
}

#[test]
fn clients_split_by_type_and_evidence_and_skip_random_mac_evidence() {
    let devices = vec![
        device(Some("unknown"), Some(""), 0, &["mac_random"]),
        device(Some("phone"), Some("Apple"), 2, &["dhcp", "mdns", "dhcp"]),
        device(Some(""), Some("unknown"), 0, &["mac_random", "ssdp"]),
    ];
    let d = count_devices(&devices);
    assert_eq!(d.total, 3);
    assert_eq!(d.typed, 1);
    assert_eq!(d.vendors, 1);
    assert_eq!(d.private_macs, 1);
    assert_eq!(d.unknown_without_evidence, 1);
    assert_eq!(d.unknown_with_evidence, 1);
    assert_eq!(d.typed + d.unknown_with_evidence + d.unknown_without_evidence, d.total);
    assert_eq!(
        d.coverage,
        vec![("dhcp".to_owned(), 1), ("mdns".to_owned(), 1), ("ssdp".to_owned(), 1)]
    );
    assert_eq!(count_for(&d.coverage, "mac_random"), None);
}

#[test]
fn sessions_split_into_applications_protocols_and_unknown() {
    let flows = vec![
        flow(Some("netflix"), Some("tls"), Some("nflx.test"), &[(Some("ndpi_application"), None)], 5),
        flow(None, Some("dns"), Some("a.test"), &[], 3),
        flow(Some("unknown"), None, Some("a.test"), &[], 4),
        flow(
            None,
            Some("tls"),
            None,
            &[
                (Some("unmatched_ndpi_application"), Some("X")),
                (Some("unmatched_ndpi_application"), Some("X")),
                (Some("unmatched_ndpi_application"), None),
            ],
            6,
        ),
    ];
    let f = count_flows(&flows);
    assert_eq!(f.total, 18);
    assert_eq!(f.applications, 5);
    assert_eq!(f.inspection_rules, 5);
    assert_eq!(f.domain_rules, 0);
    assert_eq!(f.protocol_only, 9);
    assert_eq!(f.tls_quic_only, 6);
    assert_eq!(f.unknown, 4);
    assert_eq!(f.applications + f.protocol_only + f.unknown, f.total);
    assert_eq!(
        f.unmatched_domains,
        vec![("nflx.test".to_owned(), 5), ("a.test".to_owned(), 7)]
    );
    assert_eq!(f.unmatched_inspection, vec![("X".to_owned(), 12)]);
}

#[test]
fn top_lists_highest_counts_first_then_names_and_keeps_twenty() {
    let ranked = top(vec![("b".to_owned(), 3), ("c".to_owned(), 5), ("a".to_owned(), 3)]);
    assert_eq!(
        ranked,
        vec![("c".to_owned(), 5), ("a".to_owned(), 3), ("b".to_owned(), 3)]
    );
    let many: Vec<(String, u64)> = (0..25u64).map(|i| (format!("n{i:02}"), i)).collect();
    let ranked = top(many);
    assert_eq!(ranked.len(), 20);
    assert_eq!(ranked[0], ("n24".to_owned(), 24));
    assert_eq!(ranked[19], ("n05".to_owned(), 5));
    assert!(top(Vec::new()).is_empty());
}

#[test]
fn empty_inputs_give_zero_counts() {
    let value = summarize(&Vec::new(), &Vec::new(), 77);
    assert_eq!(value.traffic.since_unix_ms, 77);
    assert_eq!(value.traffic.total, 0);
    assert_eq!(value.devices.total, 0);
    assert!(value.traffic.top_unmatched_domains.is_empty());
    assert_eq!(rate(value.traffic.unknown, value.traffic.total), 0.0);
}
