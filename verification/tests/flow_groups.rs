use netqmon_collector::flow_groups::{
    affected_client, client_profile, encrypted_dns_rule, fanout_findings, first_seen_in,
    mostly_unknown_clients, new_protocols, unknown_share, UnknownShare,
};
use netqmon_collector::insight_rules::AnalyticsFlow;
use netqmon_collector::insights_model::{InsightSeverity, InsightWindow};

fn flow(device: u64, client: u8, remote: [u8; 4], app: &str, protocol: &str, at: u64, up: u64, down: u64) -> AnalyticsFlow {
    AnalyticsFlow {
        flow_id: format!("{device}-{client}-{remote:?}-{at}"),
        device_id: device,
        client_ip: vec![192, 168, 1, client],
        remote_ip: remote.to_vec(),
        protocol: 6,
        remote_port: 443,
        application_id: app.into(),
        protocol_id: protocol.into(),
        traffic_role: "unknown".into(),
        category_id: "unknown".into(),
        last_seen_at: at,
        upload_bytes: up,
        download_bytes: down,
    }
}

#[test]
fn unknown_share_sums_unknown_and_all_bytes() {
    assert_eq!(unknown_share(&Vec::new(), 500), None);
    let idle = vec![flow(1, 2, [1, 1, 1, 1], "unknown", "tls", 7, 0, 0)];
    assert_eq!(unknown_share(&idle, 500), None);
    let flows = vec![
        flow(1, 2, [1, 1, 1, 1], "unknown", "tls", 7, 10, 20),
        flow(1, 2, [1, 1, 1, 2], "youtube", "quic", 9, 50, 20),
        flow(2, 3, [1, 1, 1, 3], "unknown", "dns", 4, u64::MAX, 1),
    ];
    assert_eq!(
        unknown_share(&flows, 500),
        Some(UnknownShare { unknown_bytes: u64::MAX, total_bytes: u64::MAX, time: 9 })
    );
    let small = vec![flow(1, 2, [1, 1, 1, 1], "unknown", "tls", 7, 10, 20), flow(1, 2, [1, 1, 1, 2], "web", "tls", 3, 70, 0)];
    assert_eq!(
        unknown_share(&small, 500),
        Some(UnknownShare { unknown_bytes: 30, total_bytes: 100, time: 7 })
    );
}

#[test]
fn clients_with_mostly_unknown_traffic_are_kept_in_first_seen_order() {
    let mib = 1_048_576;
    let flows = vec![
        flow(1, 2, [1, 1, 1, 1], "unknown", "tls", 7, mib, 0),
        flow(2, 3, [1, 1, 1, 1], "unknown", "tls", 8, mib, 0),
        flow(2, 3, [1, 1, 1, 2], "web", "tls", 12, mib, mib),
        flow(3, 4, [1, 1, 1, 1], "unknown", "tls", 9, 10, 0),
        flow(1, 2, [1, 1, 1, 3], "web", "tls", 11, mib, 0),
        flow(1, 5, [1, 1, 1, 3], "unknown", "tls", 2, 2 * mib, 0),
    ];
    let heavy = mostly_unknown_clients(&flows);
    assert_eq!(heavy.len(), 2);
    assert_eq!((heavy[0].device_id, heavy[0].client_ip.clone()), (1, vec![192, 168, 1, 2]));
    assert_eq!((heavy[0].unknown_bytes, heavy[0].total_bytes, heavy[0].last_seen_at), (mib, 2 * mib, 11));
    assert_eq!((heavy[1].device_id, heavy[1].client_ip.clone()), (1, vec![192, 168, 1, 5]));
    assert_eq!(heavy[1].unknown_bytes, 2 * mib);
}

#[test]
fn clients_reaching_many_destinations_are_reported_once_each() {
    let mut flows = Vec::new();
    for i in 0..60u8 {
        flows.push(flow(1, 2, [10, 0, 0, i], "web", "tls", u64::from(i), 1, 1));
        flows.push(flow(1, 2, [10, 0, 0, i], "web", "tls", 3, 1, 1));
    }
    for i in 0..120u8 {
        flows.push(flow(2, 3, [10, 0, 1, i], "web", "tls", 5, 1, 1));
    }
    for i in 0..49u8 {
        flows.push(flow(3, 4, [10, 0, 2, i], "web", "tls", 5, 1, 1));
    }
    let found = fanout_findings(&flows);
    assert_eq!(found.len(), 2);
    assert_eq!(found[0].device_id, 1);
    assert_eq!(found[0].destination_count, 60);
    assert_eq!(found[0].last_seen_at, 59);
    assert_eq!(found[0].severity, InsightSeverity::Notice);
    assert_eq!(found[1].device_id, 2);
    assert_eq!(found[1].destination_count, 120);
    assert_eq!(found[1].severity, InsightSeverity::Warning);
}

#[test]
fn protocols_absent_before_the_window_are_new() {
    let baseline = vec![flow(1, 2, [1, 1, 1, 1], "web", "dns", 1, 1, 1)];
    let flows = vec![
        flow(1, 2, [1, 1, 1, 1], "web", "quic", 5, 1, 1),
        flow(1, 2, [1, 1, 1, 1], "web", "dns", 6, 1, 1),
        flow(1, 2, [1, 1, 1, 1], "web", "unknown", 7, 1, 1),
        flow(1, 2, [1, 1, 1, 1], "web", "", 8, 1, 1),
        flow(1, 2, [1, 1, 1, 1], "web", "wireguard", 4, 1, 1),
        flow(1, 2, [1, 1, 1, 1], "web", "quic", 9, 1, 1),
        flow(1, 2, [1, 1, 1, 1], "web", "quic", 2, 1, 1),
    ];
    assert_eq!(
        new_protocols(&baseline, &flows, 100),
        vec![("quic".to_owned(), 9), ("wireguard".to_owned(), 4)]
    );
    assert!(new_protocols(&baseline, &flows, 0).is_empty());
}

#[test]
fn encrypted_dns_rules_follow_port_and_resolver() {
    assert_eq!(encrypted_dns_rule(853, false), Some(("dot_port_853", "DoT")));
    assert_eq!(encrypted_dns_rule(853, true), Some(("dot_port_853", "DoT")));
    assert_eq!(encrypted_dns_rule(443, true), Some(("known_doh_provider", "DoH")));
    assert_eq!(encrypted_dns_rule(443, false), None);
    assert_eq!(encrypted_dns_rule(53, true), None);
}

#[test]
fn captures_unknown_ratio_from_flow_bytes() {
    let flow = AnalyticsFlow {
        flow_id: "unknown".into(),
        device_id: 1,
        client_ip: vec![192, 0, 2, 1],
        remote_ip: vec![203, 0, 113, 1],
        protocol: 6,
        remote_port: 443,
        application_id: "unknown".into(),
        protocol_id: "unknown".into(),
        traffic_role: "unknown".into(),
        category_id: "unknown".into(),
        last_seen_at: 2,
        upload_bytes: 100,
        download_bytes: 50,
    };
    let share = unknown_share(&vec![flow], 3).unwrap();
    assert_eq!(share.unknown_bytes, 150);
    assert_eq!(share.total_bytes, 150);
}

#[test]
fn clients_are_named_by_display_name_then_host_name() {
    let mac = [0xaa, 0xbb, 0xcc, 0x01, 0x02, 0x03];
    let named = client_profile(7, &Some("Living room TV".into()), &Some("tv".into()), &mac, Some("192.168.1.9".into()));
    assert_eq!(named.name, "Living room TV");
    assert_eq!(named.mac, "aa:bb:cc:01:02:03");
    let host = client_profile(8, &None, &Some("laptop".into()), &mac, None);
    assert_eq!(host.name, "laptop");
    let anonymous = client_profile(9, &None, &None, &[1, 2], None);
    assert_eq!(anonymous.name, "Unknown client");
    assert_eq!(anonymous.mac, "unknown");

    let known = affected_client(7, Some(&named), "192.168.1.9".into());
    assert_eq!(known.id, Some(7));
    assert_eq!(known.name, "Living room TV");
    assert_eq!(known.mac.as_deref(), Some("aa:bb:cc:01:02:03"));
    let unknown = affected_client(0, None, "10.0.0.2".into());
    assert_eq!((unknown.id, unknown.name.as_str(), unknown.mac.clone(), unknown.ip.as_deref()), (None, "Unknown client", None, Some("10.0.0.2")));
    assert_eq!(affected_client(5, None, "10.0.0.3".into()).id, Some(5));

    let window = InsightWindow { from: 100, to: 200, limit: 10 };
    assert!(first_seen_in(100, &window));
    assert!(!first_seen_in(200, &window));
    assert!(!first_seen_in(99, &window));
}
