use netqmon_collector::classifier::{EntityMetadata, IconMetadata};
use netqmon_collector::query::{
    capture_warning, flow_cursor_for, flow_query_error, gateway_status, metadata_name, non_empty,
    offline_after_ms, parse_flow_cursor, parse_flow_page_options, parse_i64, parse_insight_window,
    parse_u64, query_direction_name, query_scope_name, traffic_breakdown_query, traffic_direction,
    traffic_scope, valid_identifier, ApiError, Page, TrafficDirection, BREAKDOWN_BY_CLIENT_SQL,
    BREAKDOWN_TOTAL_SQL, DAY_MS, transport_filters, FilterArg, TransportQuery, finish_flow_page,
};
use netqmon_collector::realtime::{FlowScope, GatewayHealthSnapshot, NatType, PathType};

#[test]
fn pages_and_windows() {
    assert_eq!(Page::parse(None, None), Ok(Page { limit: 50, offset: 0 }));
    assert_eq!(Page::parse(Some(0), None).unwrap_err().message, "limit must be between 1 and 200");
    assert_eq!(Page::parse(Some(201), None).unwrap_err().code, "invalid_pagination");
    assert_eq!(
        Page::parse(Some(200), Some(1_000_001)).unwrap_err().message,
        "offset must not exceed 1000000"
    );
    assert_eq!(Page::parse(Some(200), Some(1_000_000)), Ok(Page { limit: 200, offset: 1_000_000 }));
    let w = parse_insight_window(None, None, None, 5 * DAY_MS).unwrap();
    assert_eq!((w.from, w.to, w.limit), (4 * DAY_MS, 5 * DAY_MS, 50));
    assert_eq!(parse_insight_window(Some(10), Some(10), None, 0).unwrap_err().code, "invalid_time_range");
    assert!(parse_insight_window(Some(0), Some(30 * DAY_MS), None, 0).is_ok());
    assert!(parse_insight_window(Some(0), Some(30 * DAY_MS + 1), None, 0).is_err());
    assert_eq!(parse_insight_window(None, Some(5), Some(0), 0).unwrap_err().code, "invalid_pagination");
    assert_eq!(parse_insight_window(None, Some(0), Some(0), 0).unwrap_err().code, "invalid_time_range");
    assert_eq!(parse_insight_window(None, Some(DAY_MS), Some(0), 0).unwrap_err().code, "invalid_pagination");
}

#[test]
fn traffic_filters() {
    assert_eq!(traffic_scope("ALL"), Ok(None));
    assert_eq!(traffic_scope("Internet"), Ok(Some(FlowScope::Internet)));
    assert!(traffic_scope("nowhere").is_err());
    assert_eq!(traffic_direction("UPLOAD"), Ok(Some(TrafficDirection::Upload)));
    assert_eq!(traffic_direction("both"), Ok(None));
    assert!(traffic_direction("sideways").is_err());
    assert_eq!(query_scope_name(Some(FlowScope::Tunnel)), "tunnel");
    assert_eq!(query_scope_name(Some(FlowScope::Unknown)), "all");
    assert_eq!(query_direction_name(None), "both");
    assert_eq!(traffic_breakdown_query("client"), (BREAKDOWN_BY_CLIENT_SQL, true));
    assert_eq!(traffic_breakdown_query("whatever"), (BREAKDOWN_TOTAL_SQL, false));
    assert!(traffic_breakdown_query("protocol").0.contains("protocol_id"));
}

#[test]
fn numbers_and_cursors() {
    assert_eq!(parse_i64("-9223372036854775808"), Some(i64::MIN));
    assert_eq!(parse_i64("9223372036854775807"), Some(i64::MAX));
    assert_eq!(parse_i64("9223372036854775808"), None);
    assert_eq!(parse_i64("+12"), Some(12));
    assert_eq!(parse_i64("-"), None);
    assert_eq!(parse_i64(" 1"), None);
    assert_eq!(parse_u64("+7"), Some(7));
    assert_eq!(parse_u64("-7"), None);
    assert_eq!(parse_u64("18446744073709551616"), None);
    let c = parse_flow_cursor("123|abc|d").unwrap();
    assert_eq!((c.sort_value, c.id.as_str()), (123, "abc|d"));
    assert!(parse_flow_cursor("x|abc").is_err());
    assert!(parse_flow_cursor("1|").is_err());
    assert!(parse_flow_cursor("1").is_err());
    assert_eq!(flow_cursor_for(-5, "id"), "-5|id");
    assert_eq!(flow_cursor_for(i64::MIN, "x"), "-9223372036854775808|x");
    let back = parse_flow_cursor(&flow_cursor_for(42, "f-1")).unwrap();
    assert_eq!((back.sort_value, back.id.as_str()), (42, "f-1"));
}

#[test]
fn flow_page_options() {
    let o = parse_flow_page_options(None, None, None, None).unwrap();
    assert_eq!((o.limit, o.sort_column, o.sort_name, o.descending), (50, "f.last_seen_at", "last_seen", true));
    let o = parse_flow_page_options(Some(10), Some("duration"), Some("asc"), Some("5|x")).unwrap();
    assert!(!o.descending);
    assert_eq!(o.cursor.unwrap().sort_value, 5);
    assert_eq!(parse_flow_page_options(Some(0), Some("bad"), None, None).unwrap_err().code, "invalid_pagination");
    assert_eq!(parse_flow_page_options(None, Some("bad"), None, None).unwrap_err().code, "invalid_sort");
    assert_eq!(
        parse_flow_page_options(None, None, Some("up"), None).unwrap_err().message,
        "order must be asc or desc"
    );
    assert_eq!(parse_flow_page_options(None, None, None, Some("bad")).unwrap_err().code, "invalid_cursor");
    assert_eq!(
        flow_query_error("invalid_nat"),
        ApiError { status: 400, code: "invalid_nat", message: "nat must be none, snat, dnat, both, or unknown" }
    );
    assert_eq!(flow_query_error("other").code, "invalid_query");
}

#[test]
fn small_helpers() {
    assert_eq!(non_empty(Some("  a b ")).as_deref(), Some("a b"));
    assert_eq!(non_empty(Some("   ")), None);
    assert_eq!(non_empty(None), None);
    assert!(valid_identifier("abc-1_2"));
    assert!(!valid_identifier("ABC"));
    assert!(!valid_identifier(""));
    assert!(!valid_identifier(&"a".repeat(129)));
    let m = EntityMetadata { id: "x".into(), name: "Name".into(), icon: IconMetadata::default() };
    assert_eq!(metadata_name(Some(&m), "fb"), "Name");
    assert_eq!(metadata_name(None, "fb"), "fb");
    assert_eq!(offline_after_ms(Some("5000")), 5000);
    assert_eq!(offline_after_ms(Some("0")), 30_000);
    assert_eq!(offline_after_ms(Some("x")), 30_000);
    assert_eq!(offline_after_ms(None), 30_000);
}

fn health() -> GatewayHealthSnapshot {
    GatewayHealthSnapshot {
        observed_at: 0,
        uptime_seconds: 0,
        dropped_batches: 0,
        dns_dropped_events: 0,
        protocol_probe_dropped_events: 0,
        tracked_flows: 0,
        agent_version: String::new(),
        kernel_version: String::new(),
        openwrt_version: String::new(),
        hardware_flow_offload: "disabled".into(),
        capture_interface: String::new(),
        capture_interfaces: Vec::new(),
        interface_rx_bytes: 0,
        interface_tx_bytes: 0,
        interface_rx_packets: 0,
        interface_tx_packets: 0,
        interface_delta_bytes: 0,
        interface_delta_packets: 0,
        flow_delta_bytes: 0,
        flow_delta_packets: 0,
        interface_counter_sanity: "ok".into(),
        topology: None,
    }
}

#[test]
fn overview_status_and_warning() {
    assert_eq!(gateway_status(true, None, 0, 30_000), "online");
    assert_eq!(gateway_status(false, None, 0, 30_000), "unenrolled");
    assert_eq!(gateway_status(false, Some(1_000), 31_000, 30_000), "online");
    assert_eq!(gateway_status(false, Some(1_000), 31_001, 30_000), "offline");
    assert_eq!(gateway_status(false, Some(-5), 10, 30_000), "online");
    assert_eq!(capture_warning(true, "offline", None), None);
    assert_eq!(
        capture_warning(false, "offline", None).as_deref(),
        Some("No gateway telemetry has arrived within the offline threshold")
    );
    assert_eq!(
        capture_warning(false, "online", None).as_deref(),
        Some("Capture health telemetry has not been reported")
    );
    let mut h = health();
    assert_eq!(capture_warning(false, "online", Some(&h)), None);
    h.hardware_flow_offload = "enabled".into();
    h.dropped_batches = 2;
    h.interface_counter_sanity = "degraded".into();
    h.interface_delta_bytes = 10;
    h.flow_delta_bytes = 4;
    assert_eq!(
        capture_warning(false, "online", Some(&h)).as_deref(),
        Some("Capture degraded: hardware flow offloading is enabled; 2 dropped telemetry batches; interface counters exceeded captured flow deltas (10B interface, 4B flows)")
    );
}

fn transport() -> TransportQuery {
    TransportQuery {
        protocol: None,
        port: None,
        direction: None,
        scope: None,
        path_type: None,
        nat: None,
        from: None,
        to: None,
    }
}

#[test]
fn transport_filters_build_clauses_in_order() {
    let mut q = transport();
    q.protocol = Some(" TCP ".to_owned());
    q.port = Some(443);
    q.direction = Some("Upload".to_owned());
    q.scope = Some("internet".to_owned());
    q.path_type = Some("forwarded".to_owned());
    q.nat = Some("none".to_owned());
    q.from = Some(10);
    let clauses = transport_filters(&q, 20).expect("valid filters");
    let sql: Vec<&str> = clauses.iter().map(|c| c.sql).collect();
    assert_eq!(
        sql,
        vec![
            "f.protocol = ?",
            "(f.client_port = ? OR f.remote_port = ?)",
            "f.direction = ?",
            "f.scope = ?",
            "f.path_type = ?",
            "f.nat = ?",
            "f.last_seen_at >= ? AND f.last_seen_at < ?",
        ]
    );
    assert_eq!(clauses[0].args, vec![FilterArg::Integer(6)]);
    assert_eq!(clauses[1].args, vec![FilterArg::Integer(443), FilterArg::Integer(443)]);
    assert_eq!(clauses[2].args, vec![FilterArg::Integer(1)]);
    assert_eq!(clauses[3].args, vec![FilterArg::Scope(FlowScope::Internet)]);
    assert_eq!(clauses[4].args, vec![FilterArg::Path(PathType::Forwarded)]);
    assert_eq!(clauses[5].args, vec![FilterArg::Nat(NatType::NoTranslation)]);
    assert_eq!(clauses[6].args, vec![FilterArg::Integer(10), FilterArg::Integer(20)]);
}

#[test]
fn transport_filters_refuse_unknown_names() {
    let mut q = transport();
    q.protocol = Some("47".to_owned());
    assert_eq!(transport_filters(&q, 0).unwrap()[0].args, vec![FilterArg::Integer(47)]);
    q.protocol = Some("256".to_owned());
    assert_eq!(transport_filters(&q, 0).unwrap_err(), "invalid_protocol");
    let mut q = transport();
    q.direction = Some("sideways".to_owned());
    q.scope = Some("mars".to_owned());
    assert_eq!(transport_filters(&q, 0).unwrap_err(), "invalid_direction");
    let mut q = transport();
    q.nat = Some("full-cone".to_owned());
    assert_eq!(transport_filters(&q, 0).unwrap_err(), "invalid_nat");
    let mut q = transport();
    q.to = Some(5);
    assert_eq!(transport_filters(&q, 100).unwrap()[0].args, vec![FilterArg::Integer(0), FilterArg::Integer(5)]);
    q.from = Some(5);
    assert_eq!(transport_filters(&q, 100).unwrap_err(), "invalid_time_range");
    let mut q = transport();
    q.from = Some(5);
    assert_eq!(transport_filters(&q, 5).unwrap_err(), "invalid_time_range");
    q.scope = Some("  ".to_owned());
    q.from = None;
    assert!(transport_filters(&q, 5).unwrap().is_empty());
}

#[test]
fn a_full_page_hands_out_the_cursor_of_its_last_row() {
    let rows = vec![(30, "c".to_owned()), (-20, "b".to_owned()), (10, "a".to_owned())];
    let (shown, next) = finish_flow_page(&rows, 2);
    assert_eq!(shown, 2);
    assert_eq!(next.as_deref(), Some("-20|b"));
    let cursor = parse_flow_cursor(next.as_deref().unwrap()).unwrap();
    assert_eq!((cursor.sort_value, cursor.id.as_str()), (-20, "b"));
    assert_eq!(finish_flow_page(&rows, 3), (3, None));
    assert_eq!(finish_flow_page(&Vec::new(), 0), (0, None));
}
