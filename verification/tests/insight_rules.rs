use netqmon_collector::insight_rules::{
    baseline_range, capture_findings, collector_lag, encrypted_dns_provider, high_upload_rows,
    insight_listing, high_upload_threshold_bytes, collector_lag_threshold_ms,
    pair_correlations, tracker_correlations, traffic_spikes, AnalyticsFlow, CaptureFinding,
    PairKind, Spike, TrafficRow,
};
use netqmon_collector::insights_model::InsightWindow;
use netqmon_collector::realtime::{GatewayHealthSnapshot, TopologySummarySnapshot};

fn health(observed_at: u64) -> GatewayHealthSnapshot {
    GatewayHealthSnapshot {
        observed_at,
        uptime_seconds: 0,
        dropped_batches: 0,
        dns_dropped_events: 0,
        protocol_probe_dropped_events: 0,
        tracked_flows: 0,
        agent_version: String::new(),
        kernel_version: String::new(),
        openwrt_version: String::new(),
        hardware_flow_offload: "disabled".into(),
        capture_interface: "br-lan".into(),
        capture_interfaces: Vec::new(),
        interface_rx_bytes: 0,
        interface_tx_bytes: 0,
        interface_rx_packets: 0,
        interface_tx_packets: 0,
        interface_delta_bytes: 0,
        interface_delta_packets: 0,
        flow_delta_bytes: 0,
        flow_delta_packets: 0,
        interface_counter_sanity: "ok".into(),
        topology: None,
    }
}

fn topology() -> TopologySummarySnapshot {
    TopologySummarySnapshot {
        topology_mode: "router".into(),
        agent_addresses: Vec::new(),
        upstream_gateway: String::new(),
        segments: Vec::new(),
        nat_status: String::new(),
        attach_backend: String::new(),
        attach_order: String::new(),
        ipv4_coverage: "full".into(),
        ipv6_coverage: "partial".into(),
        icmp_redirect: "disabled".into(),
        software_flow_offload: "disabled".into(),
        hardware_flow_offload: "disabled".into(),
        topology_warnings: vec!["Asymmetric routing suspected".into()],
        confidence: 90,
        capture_interface: String::new(),
    }
}

#[test]
fn capture_findings_follow_health() {
    let window = InsightWindow { from: 100, to: 200, limit: 50 };
    assert!(capture_findings(&health(99), window).is_empty());
    assert!(capture_findings(&health(200), window).is_empty());
    assert!(capture_findings(&health(150), window).is_empty());
    let mut h = health(150);
    h.hardware_flow_offload = "enabled".into();
    h.topology = Some(topology());
    h.interface_counter_sanity = "degraded".into();
    h.dns_dropped_events = 3;
    h.dropped_batches = 1;
    let f = capture_findings(&h, window);
    assert_eq!(f[0], CaptureFinding::HardwareFlowOffload);
    assert_eq!(
        f[1],
        CaptureFinding::Topology { code: "capture.ipv6_coverage", message: "IPv6 capture coverage is incomplete." }
    );
    assert!(matches!(f[2], CaptureFinding::Topology { code: "capture.asymmetric_routing", .. }));
    assert_eq!(f[3], CaptureFinding::InterfaceCounterGap);
    assert_eq!(f[4], CaptureFinding::DnsEventDrops { count: 3 });
    assert_eq!(f[5], CaptureFinding::QueueDrops { count: 1 });
    assert_eq!(f.len(), 6);
}

#[test]
fn lag_and_resolvers() {
    assert_eq!(collector_lag(Some(40_000), 10_000, 30_000), Some(30_000));
    assert_eq!(collector_lag(Some(39_999), 10_000, 30_000), None);
    assert_eq!(collector_lag(None, 10_000, 0), Some(0));
    assert_eq!(collector_lag(Some(-1), 10_000, 1), None);
    assert_eq!(encrypted_dns_provider("1.0.0.1"), Some("Cloudflare"));
    assert_eq!(encrypted_dns_provider("2001:4860:4860::8844"), Some("Google"));
    assert_eq!(encrypted_dns_provider("2620:fe::9"), Some("Quad9"));
    assert_eq!(encrypted_dns_provider("10.0.0.1"), None);
}

fn flow(id: &str, protocol_id: &str, last_seen: u64) -> AnalyticsFlow {
    AnalyticsFlow {
        flow_id: id.into(),
        device_id: 1,
        client_ip: vec![192, 168, 1, 2],
        remote_ip: vec![1, 2, 3, 4],
        protocol: 17,
        remote_port: 500,
        application_id: "unknown".into(),
        protocol_id: protocol_id.into(),
        traffic_role: "unknown".into(),
        category_id: "unknown".into(),
        last_seen_at: last_seen,
        upload_bytes: 10,
        download_bytes: 5,
    }
}

#[test]
fn trackers_pair_with_nearby_bittorrent_peers() {
    let mut tracker = flow("t", "http", 1_000);
    tracker.traffic_role = "tracker_service".into();
    tracker.category_id = "p2p".into();
    let near = flow("p1", "bittorrent", 1_000 + 1_800_000);
    let far = flow("p2", "bittorrent", 1_000 + 1_800_001);
    let mut other_client = flow("p3", "bittorrent", 1_000);
    other_client.device_id = 2;
    let found = tracker_correlations(&vec![tracker, near, far, other_client]);
    assert_eq!(found.len(), 1);
    assert_eq!(found[0].tracker, 0);
    assert_eq!(found[0].peers, vec![1]);
    assert_eq!(found[0].peer_bytes, 15);
    assert_eq!(found[0].time, 1_801_000);
}

#[test]
fn tunnel_pairs_are_reported_once() {
    let ike = flow("a", "ike", 10);
    let mut esp = flow("b", "unknown", 20);
    esp.protocol = 50;
    let found = pair_correlations(&vec![ike.clone(), esp.clone()]);
    assert_eq!(found, vec![(PairKind::IkeEsp, 0, 1)]);
    let mut l2tp = flow("z", "l2tp", 10);
    l2tp.protocol = 17;
    let found = pair_correlations(&vec![esp.clone(), l2tp]);
    assert_eq!(found, vec![(PairKind::L2tpIpsec, 1, 0)]);
    let mut pptp = flow("a", "pptp", 10);
    pptp.protocol = 6;
    let gre = flow("c", "gre", 10);
    let found = pair_correlations(&vec![gre, pptp]);
    assert_eq!(found, vec![(PairKind::PptpGre, 1, 0)]);
}

fn row(key: &str, up: u64, down: u64) -> TrafficRow {
    TrafficRow { key: key.to_owned(), upload_bytes: up, download_bytes: down, last_seen_at: 9 }
}

#[test]
fn baseline_window_precedes_the_current_one() {
    assert_eq!(baseline_range(100, 160), Some((40, 100)));
    assert_eq!(baseline_range(30, 100), Some((0, 30)));
    assert_eq!(baseline_range(0, 100), None);
    assert_eq!(baseline_range(50, 50), None);
}

#[test]
fn high_upload_needs_a_client_id_and_the_threshold() {
    let rows = vec![row("7", 500, 0), row("8", 499, 0), row("laptop", 900, 0), row("+9", 600, 0)];
    assert_eq!(high_upload_rows(&rows, 500), vec![(0, 7), (3, 9)]);
}

#[test]
fn spikes_need_ten_mebibytes_and_three_times_the_baseline() {
    let mib = 1024 * 1024;
    let current = vec![
        row("1", 10 * mib, 0),
        row("2", 9 * mib, 0),
        row("3", 10 * mib, 0),
        row("unknown", 40 * mib, 0),
        row("youtube", 30 * mib, 0),
        row("4", 50 * mib, 0),
    ];
    let baseline = vec![
        row("1", mib, 0),
        row("2", mib, 0),
        row("3", 4 * mib, 0),
        row("unknown", mib, 0),
        row("youtube", 5 * mib, 0),
        row("youtube", 2 * mib, 0),
        row("4", 0, 0),
    ];
    let spikes = traffic_spikes(&current, &baseline, true);
    assert_eq!(
        spikes,
        vec![
            Spike { row: 0, current: 10 * mib, baseline: mib, key_number: 1 },
            Spike { row: 4, current: 30 * mib, baseline: 2 * mib, key_number: 0 },
        ]
    );
    let with_unknown = traffic_spikes(&current, &baseline, false);
    assert_eq!(with_unknown.len(), 3);
    assert_eq!(with_unknown[1].row, 3);
}

#[test]
fn insights_list_latest_first_keeping_raise_order_on_ties() {
    let times = vec![5, 9, 5, 7, 9, 1];
    assert_eq!(insight_listing(&times, 50), vec![1, 4, 3, 0, 2, 5]);
    assert_eq!(insight_listing(&times, 3), vec![1, 4, 3]);
    assert!(insight_listing(&times, 0).is_empty());
    assert!(insight_listing(&Vec::new(), 10).is_empty());
}

#[test]
fn thresholds_take_positive_settings_else_defaults() {
    assert_eq!(high_upload_threshold_bytes(None), 1024 * 1024 * 1024);
    assert_eq!(high_upload_threshold_bytes(Some("5000")), 5000);
    assert_eq!(high_upload_threshold_bytes(Some("0")), 1024 * 1024 * 1024);
    assert_eq!(high_upload_threshold_bytes(Some("lots")), 1024 * 1024 * 1024);
    assert_eq!(collector_lag_threshold_ms(None), 30_000);
    assert_eq!(collector_lag_threshold_ms(Some("90000")), 90_000);
    assert_eq!(collector_lag_threshold_ms(Some("-5")), 30_000);
}

#[test]
fn an_ike_esp_pair_is_reported_whatever_the_id_order() {
    let ike = flow("z", "ike", 10);
    let mut esp = flow("b", "unknown", 20);
    esp.protocol = 50;
    assert_eq!(pair_correlations(&vec![ike.clone(), esp.clone()]), vec![(PairKind::IkeEsp, 0, 1)]);
    assert_eq!(pair_correlations(&vec![esp, ike]), vec![(PairKind::IkeEsp, 1, 0)]);
}
