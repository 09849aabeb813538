use netqmon_collector::realtime::{
    add_rate, client_id, flow_id, rate, update_interval, AgentHealthReport, CounterSanity,
    DeviceObservationInput, FlowAttribution, FlowLifecycle, FlowScope, NatType, OffloadStatus,
    PathType, RealtimeEngine, RealtimeEvent, RealtimeFlow, Throughput, MAX_HISTORY_POINTS,
};

fn flow(sequence: u64, lifecycle: FlowLifecycle) -> RealtimeFlow {
    RealtimeFlow {
        client_ip: "192.0.2.10".to_owned(),
        client_port: 50_000,
        remote_ip: "198.51.100.2".to_owned(),
        remote_port: 443,
        protocol: 6,
        direction: 0,
        client_mac: vec![2, 0, 0, 0, 0, 1],
        upload_bytes: 100,
        download_bytes: 200,
        packets: 3,
        last_seen_unix_ms: 1_000 + sequence * 1_000,
        lifecycle,
        scope: FlowScope::Internet,
        path_type: PathType::Forwarded,
        nat: NatType::Snat,
        source_segment: "192.0.2.0/24".to_owned(),
        destination_segment: "internet".to_owned(),
    }
}

fn device(sequence: u64) -> DeviceObservationInput {
    DeviceObservationInput {
        ip: "192.0.2.10".to_owned(),
        mac: vec![2, 0, 0, 0, 0, 1],
        hostname: "laptop".to_owned(),
        last_seen_unix_ms: 1_000 + sequence * 1_000,
    }
}

fn health(sequence: u64) -> AgentHealthReport {
    AgentHealthReport {
        observed_at_unix_ms: 1_000 + sequence * 1_000,
        uptime_seconds: sequence,
        dropped_batches: 0,
        dns_dropped_events: 0,
        protocol_probe_dropped_events: 0,
        tracked_flows: 0,
        kernel_version: "6.6.73".to_owned(),
        openwrt_version: "24.10.0".to_owned(),
        hardware_flow_offload: OffloadStatus::Unknown,
        capture_interface: String::new(),
        capture_interfaces: Vec::new(),
        interface_rx_bytes: 0,
        interface_tx_bytes: 0,
        interface_rx_packets: 0,
        interface_tx_packets: 0,
        interface_delta_bytes: 0,
        interface_delta_packets: 0,
        flow_delta_bytes: 0,
        flow_delta_packets: 0,
        interface_counter_sanity: CounterSanity::Unknown,
        topology: None,
    }
}

fn attribution() -> FlowAttribution {
    FlowAttribution {
        domain: Some("api.openai.com".to_owned()),
        application_id: "openai".to_owned(),
        category_id: "ai".to_owned(),
        confidence_bits: 0.98f64.to_bits(),
    }
}

fn lookup<T: Copy>(entries: &[(String, T)], key: &str) -> T {
    entries.iter().find(|(k, _)| k == key).map(|(_, v)| *v).expect("entry")
}

fn update(
    engine: &mut RealtimeEngine,
    flows: Vec<RealtimeFlow>,
    attributions: Vec<FlowAttribution>,
    sequence: u64,
    observed_at: u64,
) -> Vec<RealtimeEvent> {
    engine.update(
        "gateway-1",
        "",
        &flows,
        &attributions,
        &vec![device(sequence)],
        Some(health(sequence)),
        observed_at,
    )
}

#[test]
fn tracks_one_second_rates_and_active_flow_lifecycle() {
    let mut engine = RealtimeEngine::new();
    update(&mut engine, vec![flow(1, FlowLifecycle::Active)], vec![attribution()], 1, 2_000);
    let first = engine.snapshot();
    assert_eq!(first.total.upload_bytes_per_second, 100);
    assert_eq!(first.total.download_bytes_per_second, 200);
    assert_eq!(first.internet.download_bytes_per_second, 200);
    assert_eq!(first.internal.download_bytes_per_second, 0);
    assert_eq!(
        lookup(&first.clients, "02:00:00:00:00:01").upload_bytes_per_second,
        100
    );
    assert_eq!(lookup(&first.applications, "openai").download_bytes_per_second, 200);
    assert_eq!(
        lookup(&first.client_scopes, "02:00:00:00:00:01")
            .internet
            .download_bytes_per_second,
        200
    );
    assert_eq!(first.active_flows.len(), 1);
    assert_eq!(first.active_flows[0].scope, "internet");
    assert_eq!(first.active_flows[0].nat, "snat");
    let health = first.gateway_health.as_ref().unwrap();
    assert_eq!(health.kernel_version, "6.6.73");
    assert_eq!(health.openwrt_version, "24.10.0");

    update(&mut engine, vec![flow(2, FlowLifecycle::Active)], vec![attribution()], 2, 3_000);
    assert_eq!(engine.snapshot().active_flows[0].upload_bytes, 200);

    update(&mut engine, vec![flow(3, FlowLifecycle::Ended)], vec![attribution()], 3, 4_000);
    let ended = engine.snapshot();
    assert!(ended.active_flows.is_empty());
    assert_eq!(ended.history.len(), 3);
}

#[test]
fn partitions_total_throughput_by_scope() {
    let mut internal = flow(1, FlowLifecycle::Active);
    internal.scope = FlowScope::Internal;
    internal.path_type = PathType::Internal;
    internal.upload_bytes = 40;
    internal.download_bytes = 60;
    internal.remote_ip = "192.0.2.20".to_owned();
    let mut engine = RealtimeEngine::new();
    update(
        &mut engine,
        vec![flow(1, FlowLifecycle::Active), internal],
        vec![attribution(), attribution()],
        1,
        2_000,
    );
    let snapshot = engine.snapshot();
    assert_eq!(snapshot.total.upload_bytes_per_second, 140);
    assert_eq!(snapshot.internet.upload_bytes_per_second, 100);
    assert_eq!(snapshot.internal.upload_bytes_per_second, 40);
    assert_eq!(snapshot.tunnel.upload_bytes_per_second, 0);
    assert_eq!(snapshot.unknown.upload_bytes_per_second, 0);
    assert_eq!(snapshot.history[0].upload_bytes_per_second, 100);
}

#[test]
fn publishes_all_realtime_event_types() {
    let mut engine = RealtimeEngine::new();
    let events = update(
        &mut engine,
        vec![flow(1, FlowLifecycle::Active)],
        vec![FlowAttribution::unknown()],
        1,
        2_000,
    );
    let names: Vec<&str> = events.iter().map(|e| e.name()).collect();
    assert_eq!(names, vec!["gateway_status", "device_seen", "warning", "snapshot"]);
    match &events[2] {
        RealtimeEvent::Warning(w) => {
            assert_eq!(w.code, "unclassified_flows");
            assert_eq!(w.message, "1 flows had no matching application rule");
        }
        other => panic!("unexpected event {other:?}"),
    }
    match &events[1] {
        RealtimeEvent::DeviceSeen(d) => {
            assert_eq!(d.mac, "02:00:00:00:00:01");
            assert_eq!(d.hostname.as_deref(), Some("laptop"));
        }
        other => panic!("unexpected event {other:?}"),
    }
}

#[test]
fn history_is_bounded_to_fifteen_minutes() {
    let mut engine = RealtimeEngine::new();
    for sequence in 1..=905 {
        update(
            &mut engine,
            vec![flow(sequence, FlowLifecycle::Active)],
            vec![attribution()],
            sequence,
            sequence * 1_000,
        );
    }
    assert_eq!(engine.snapshot().history.len(), MAX_HISTORY_POINTS);
    assert_eq!(engine.snapshot().history.last().unwrap().timestamp, 905_000);
}

#[test]
fn rates_intervals_and_ids() {
    assert_eq!(rate(100, 1_000), 100);
    assert_eq!(rate(100, 500), 200);
    assert_eq!(rate(u64::MAX, 1_000), u64::MAX / 1_000);
    assert_eq!(update_interval(None, 5), 1_000);
    assert_eq!(update_interval(Some(5), 5), 1_000);
    assert_eq!(update_interval(Some(1_000), 3_000), 2_000);
    let mut t = Throughput { upload_bytes_per_second: u64::MAX - 1, download_bytes_per_second: 0 };
    add_rate(&mut t, 5, 7);
    assert_eq!(t, Throughput { upload_bytes_per_second: u64::MAX, download_bytes_per_second: 7 });
    let mut f = flow(1, FlowLifecycle::Active);
    f.direction = -1;
    assert_eq!(flow_id(&f), "192.0.2.10:50000-198.51.100.2:443-6--1");
    assert_eq!(client_id(&f), "02:00:00:00:00:01");
    f.client_mac = vec![1, 2];
    assert_eq!(client_id(&f), "192.0.2.10");
}

#[test]
fn lower_confidence_keeps_previous_attribution() {
    let mut engine = RealtimeEngine::new();
    update(&mut engine, vec![flow(1, FlowLifecycle::Active)], vec![attribution()], 1, 1_000);
    let mut weak = attribution();
    weak.application_id = "other".to_owned();
    weak.confidence_bits = 0.5f64.to_bits();
    update(&mut engine, vec![flow(2, FlowLifecycle::Idle)], vec![weak], 2, 2_000);
    let s = engine.snapshot();
    assert_eq!(s.active_flows[0].application, "openai");
    assert_eq!(s.active_flows[0].lifecycle, "idle");
    assert_eq!(s.active_flows[0].last_seen, 3_000);
    assert_eq!(lookup(&s.applications, "other").upload_bytes_per_second, 100);
}

#[test]
fn active_flows_are_listed_newest_first_and_capped() {
    let mut engine = RealtimeEngine::new();
    let mut flows = Vec::new();
    for i in 0..10_005u32 {
        let mut f = flow(1, FlowLifecycle::Active);
        f.client_port = i;
        f.last_seen_unix_ms = u64::from(i);
        flows.push(f);
    }
    let attrs = vec![attribution(); 10_005];
    update(&mut engine, flows, attrs, 1, 1_000);
    let s = engine.snapshot();
    assert_eq!(s.active_flows.len(), 10_000);
    assert_eq!(s.active_flows[0].last_seen, 10_004);
    assert_eq!(s.active_flows.last().unwrap().last_seen, 5);
}
