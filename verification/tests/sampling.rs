use netqmon_collector::sampling::{
    available, best_cached_match, cache_admits, drop_delta, flow_has_ended, keeps_engine,
    matches_flow, native_available, note_seen_flow, p95_sample_bytes, prune_endings,
    record_ending, BatchSequences, CachedSample, FlowBudget, FlowEnding, FlowSampleKey,
    FlowSpan, NdpiEngine, SampleCounts, SampleLimits, SampleWindow, CACHE_CAPACITY,
    admit_sample, engine_action, EngineAction, SampleAdmission, submission_enqueued,
    configured_flow_budget, classify_detection, detection_report, finish_detection, FlowDetection,
};

fn key(first_seen: u64) -> FlowSampleKey {
    FlowSampleKey {
        ip_version: 4,
        protocol: 6,
        client_ip: vec![192, 168, 1, 10],
        client_port: 50000,
        remote_ip: vec![1, 1, 1, 1],
        remote_port: 443,
        first_seen_unix_ms: first_seen,
    }
}

fn span(first: u64, last: u64) -> FlowSpan {
    FlowSpan {
        protocol: 6,
        client_ip: vec![192, 168, 1, 10],
        client_port: 50000,
        remote_ip: vec![1, 1, 1, 1],
        remote_port: 443,
        first_seen_unix_ms: first,
        last_seen_unix_ms: last,
    }
}

#[test]
fn duplicate_and_replayed_batches_are_skipped() {
    let mut s = BatchSequences::new();
    assert!(s.accept("gw", "boot", 1, 0));
    assert!(!s.accept("gw", "boot", 1, 0));
    assert!(!s.accept("gw", "boot", 0, 0));
    assert!(s.accept("gw", "boot", 2, 0));
    assert!(s.accept("gw", "boot2", 1, 0));
    s.expire(300_000);
    assert!(s.accept("gw", "boot", 1, 300_000));
}

#[test]
fn sequence_store_is_bounded() {
    let mut s = BatchSequences::new();
    for i in 0..CACHE_CAPACITY {
        assert!(s.accept("gw", &format!("boot{i}"), 1, 0));
    }
    assert!(!s.accept("gw", "another", 1, 0));
    assert!(s.accept("gw", "boot0", 2, 0));
}

#[test]
fn cumulative_direction_limit_drops_sample() {
    let limits = SampleLimits { max_bytes_per_flow: 1000, max_packets_per_direction: 2 };
    let mut b = FlowBudget::new();
    assert!(b.absorb(true, 100, &[1, 2], &[5, 9], limits));
    assert_eq!((b.bytes, b.upload_packets, b.download_packets, b.last_packet_ms), (100, 1, 1, 9));
    assert!(b.absorb(true, 100, &[1], &[7], limits));
    assert_eq!(b.last_packet_ms, 9);
    let before = b;
    assert!(!b.absorb(true, 10, &[1], &[20], limits));
    assert_eq!(b, before);
    assert!(!b.absorb(false, 10, &[2], &[20], limits));
    assert!(!b.absorb(true, 801, &[2], &[20], limits));
    assert!(b.absorb(true, 800, &[2], &[20], limits));
    assert!(b.exhausted(1000, 64));
    assert!(b.exhausted(5000, 2));
    assert!(!b.exhausted(5000, 3));
}

#[test]
fn engine_continuation_rules() {
    assert!(keeps_engine("ndpi", "bittorrent"));
    assert!(keeps_engine("native", "tls"));
    assert!(!keeps_engine("native", "dns"));
    assert!(cache_admits(0, false));
    assert!(!cache_admits(CACHE_CAPACITY, false));
    assert!(cache_admits(CACHE_CAPACITY, true));
}

#[test]
fn flow_end_notices_wait_a_second_and_match_endpoints() {
    let mut endings = Vec::new();
    assert!(record_ending(
        &mut endings,
        FlowEnding { gateway: "gw".into(), boot: "b".into(), flow: span(100, 200), at_ms: 1000 }
    ));
    assert!(!flow_has_ended(&endings, "gw", "b", &key(100), 150, 1500));
    assert!(flow_has_ended(&endings, "gw", "b", &key(100), 150, 2000));
    assert!(!flow_has_ended(&endings, "gw", "other", &key(100), 150, 2000));
    assert!(!flow_has_ended(&endings, "gw", "b", &key(300), 350, 2000));
    prune_endings(&mut endings, 301_000);
    assert!(endings.is_empty());
}

#[test]
fn time_spans_must_touch() {
    assert!(matches_flow(&key(100), 200, &span(201, 300)));
    assert!(!matches_flow(&key(100), 199, &span(201, 300)));
    assert!(matches_flow(&key(301), 400, &span(0, 300)));
    assert!(!matches_flow(&key(302), 400, &span(0, 300)));
}

#[test]
fn newest_cached_sample_answers() {
    let c = |first: u64, gw: &str| CachedSample {
        gateway: gw.into(),
        boot: "b".into(),
        key: key(first),
        last_packet_ms: 500,
        expires_ms: 10_000,
    };
    let results = vec![c(100, "gw"), c(300, "gw"), c(400, "other"), c(300, "gw")];
    assert_eq!(best_cached_match(&results, "gw", "b", &span(50, 600), 0), Some(3));
    assert_eq!(best_cached_match(&results, "gw", "b", &span(50, 600), 10_000), None);
}

#[test]
fn p95_and_drop_deltas() {
    let h = vec![(10u32, 50u64), (20, 44), (30, 5), (40, 1)];
    assert_eq!(p95_sample_bytes(&h), 30);
    assert_eq!(p95_sample_bytes(&vec![]), 0);
    assert_eq!(p95_sample_bytes(&vec![(7, 1)]), 7);
    assert_eq!(drop_delta(None, 5), 5);
    assert_eq!(drop_delta(Some(5), 8), 3);
    assert_eq!(drop_delta(Some(8), 8), 0);
    assert_eq!(drop_delta(Some(9), 3), 0);
    assert_eq!(note_seen_flow(false, 0), (true, true));
    assert_eq!(note_seen_flow(true, 65536), (false, true));
    assert_eq!(note_seen_flow(false, 65536), (false, false));
}

#[test]
fn native_engine_is_not_linked() {
    assert!(!available());
    assert!(!native_available());
    assert_eq!(NdpiEngine.name(), "ndpi");
    assert!(NdpiEngine.start(&key(0)).is_err());
}

fn counts(samples: u64) -> SampleCounts {
    let mut c = SampleCounts::zero();
    c.samples = samples;
    c.bytes = samples * 100;
    c
}

#[test]
fn sample_window_rolls_minute_buckets_over_an_hour() {
    let mut window = SampleWindow::new();
    window.record(0, &counts(1));
    window.record(30_000, &counts(2));
    window.record(60_000, &counts(4));
    assert_eq!(window.totals(60_000).samples, 7);
    // The first bucket falls out of the hour window at 3 600 000 ms.
    assert_eq!(window.totals(3_600_000).samples, 4);
    assert_eq!(window.totals(3_660_000).samples, 0);
    window.record(u64::MAX, &counts(1));
    let mut big = SampleCounts::zero();
    big.bytes = u64::MAX;
    window.record(u64::MAX, &big);
    assert_eq!(window.totals(u64::MAX).bytes, u64::MAX);
}

#[test]
fn worker_admits_counts_and_decides_detection_per_sample() {
    let limits = SampleLimits { max_bytes_per_flow: 1000, max_packets_per_direction: 2 };
    assert_eq!(
        admit_sample(None, CACHE_CAPACITY, true, 10, &[1], &[5], limits),
        (None, SampleAdmission::DropNoRoom)
    );
    let (b, a) = admit_sample(None, 0, true, 64, &[1, 2], &[5, 9], limits);
    assert_eq!(a, SampleAdmission::Absorbed { started: true });
    let b = b.unwrap();
    assert_eq!((b.bytes, b.upload_packets, b.download_packets, b.last_packet_ms), (64, 1, 1, 9));
    let (b2, a2) = admit_sample(Some(b), 1, true, 10, &[2, 2], &[3, 4], limits);
    assert_eq!(a2, SampleAdmission::DropOverBudget { started: false });
    assert_eq!(b2, Some(b));
    let (_, a3) = admit_sample(None, 0, false, 10, &[1], &[1], limits);
    assert_eq!(a3, SampleAdmission::DropOverBudget { started: true });

    let spent = FlowBudget { bytes: 2048, upload_packets: 0, download_packets: 0, last_packet_ms: 0 };
    assert_eq!(engine_action(&spent, 2048, 8, None), EngineAction::Finish);
    assert_eq!(engine_action(&b, 2048, 8, Some(("fixture", "bittorrent"))), EngineAction::Stop);
    assert_eq!(engine_action(&b, 2048, 8, Some(("fixture", "tls"))), EngineAction::Continue);
    assert_eq!(engine_action(&b, 2048, 8, Some(("ndpi", "dns"))), EngineAction::Continue);
    assert_eq!(engine_action(&b, 2048, 8, None), EngineAction::Continue);
}

fn wire_span() -> FlowSpan {
    FlowSpan {
        protocol: 17,
        client_ip: vec![192, 0, 2, 1],
        client_port: 50000,
        remote_ip: vec![198, 51, 100, 1],
        remote_port: 443,
        first_seen_unix_ms: 1000,
        last_seen_unix_ms: 1000,
    }
}

#[test]
fn full_direction_and_duplicate_batches_run_detection_once() {
    // A batch whose one sample fills the upload direction with 32 packets.
    let limits = SampleLimits { max_bytes_per_flow: 65_536, max_packets_per_direction: 32 };
    let mut sequences = BatchSequences::new();
    assert!(sequences.accept("a", "boot", 1, 0));
    let (flow, first) = admit_sample(None, 0, true, 64 * 32, &[1; 32], &[1000; 32], limits);
    assert_eq!(first, SampleAdmission::Absorbed { started: true });
    let flow = flow.unwrap();
    assert_eq!(engine_action(&flow, 65_536, 32, None), EngineAction::Continue);
    assert_eq!(flow.upload_packets, 32);
    assert_eq!(engine_action(&flow, 2048, 32, None), EngineAction::Finish);
    // The same batch again is ignored before any sample is looked at.
    assert!(!sequences.accept("a", "boot", 1, 0));
    // The next batch's packet for the same flow is over the direction limit.
    assert!(sequences.accept("a", "boot", 2, 0));
    let (kept, second) = admit_sample(Some(flow), 1, true, 64, &[1], &[1000], limits);
    assert_eq!(second, SampleAdmission::DropOverBudget { started: false });
    assert_eq!(kept, Some(flow));
    // A marker flow is new and is taken in.
    assert!(sequences.accept("a", "boot", 3, 0));
    let (_, marker) = admit_sample(None, 1, true, 128, &[1, 1], &[1000, 1000], limits);
    assert_eq!(marker, SampleAdmission::Absorbed { started: true });
}

#[test]
fn gateway_budgets_and_agent_drops_count_once_per_gateway_boot() {
    // Gateway "one" with sampling on at 4096 bytes per flow, seen twice.
    let (new_first, remember_first) = note_seen_flow(false, 0);
    assert!(new_first && remember_first);
    let (new_again, _) = note_seen_flow(true, 1);
    assert!(!new_again);
    // Gateway "two" reports the same flow with sampling off.
    let (new_two, _) = note_seen_flow(false, 1);
    assert!(new_two);
    let theoretical = configured_flow_budget(Some((true, 4096))) + configured_flow_budget(Some((false, 4096)));
    assert_eq!(theoretical, 4096);
    let drops = drop_delta(None, 3) + drop_delta(Some(3), 3) + drop_delta(None, 0);
    let drop_bytes = drop_delta(None, 120) + drop_delta(Some(120), 120) + drop_delta(None, 0);
    assert_eq!((drops, drop_bytes), (3, 120));
}

#[test]
fn generic_protocol_results_keep_detection_until_the_flow_ends() {
    let limits = SampleLimits { max_bytes_per_flow: 65_536, max_packets_per_direction: 32 };
    let (flow, _) = admit_sample(None, 0, true, 64, &[1], &[1000], limits);
    let flow = flow.unwrap();
    assert_eq!(engine_action(&flow, 4096, 8, Some(("ndpi", "quic"))), EngineAction::Continue);
    let mut endings = Vec::new();
    assert!(record_ending(
        &mut endings,
        FlowEnding { gateway: "a".into(), boot: "boot".into(), flow: wire_span(), at_ms: 2000 },
    ));
    let sampled = FlowSampleKey {
        ip_version: 4,
        protocol: 17,
        client_ip: vec![192, 0, 2, 1],
        client_port: 50000,
        remote_ip: vec![198, 51, 100, 1],
        remote_port: 443,
        first_seen_unix_ms: 1000,
    };
    assert!(!flow_has_ended(&endings, "a", "boot", &sampled, flow.last_packet_ms, 2500));
    assert!(flow_has_ended(&endings, "a", "boot", &sampled, flow.last_packet_ms, 3000));
}

#[test]
fn a_disabled_service_takes_no_samples() {
    assert!(!submission_enqueued(false, true));
    assert!(!submission_enqueued(false, false));
    assert!(submission_enqueued(true, true));
    assert!(!submission_enqueued(true, false));
}

fn detected(source: &str, protocol: &str) -> Option<netqmon_collector::sampling::DetectedProtocol> {
    Some(netqmon_collector::sampling::DetectedProtocol {
        source: source.to_owned(),
        protocol: protocol.to_owned(),
    })
}

#[test]
fn detection_stops_after_a_final_kind_of_answer() {
    let budget = FlowBudget { bytes: 100, upload_packets: 1, download_packets: 1, last_packet_ms: 5 };
    let mut d = FlowDetection { running: true, result: None, signatures: false };
    let action = classify_detection(&mut d, detected("signature", "ssh"), false, &budget, 4096, 8);
    assert_eq!(action, EngineAction::Stop);
    assert!(!d.running);
    assert_eq!(d.result.as_ref().map(|r| r.protocol.as_str()), Some("ssh"));
    assert_eq!(detection_report(false, &d), (true, true));
    // A stopped engine's later answers are ignored and the answer stays.
    let action = classify_detection(&mut d, detected("ndpi", "dns"), true, &budget, 4096, 8);
    assert_eq!(action, EngineAction::Stop);
    assert_eq!(d.result.as_ref().map(|r| r.protocol.as_str()), Some("ssh"));
    assert!(d.signatures);
    assert_eq!(detection_report(true, &d), (false, true));
}

#[test]
fn detection_goes_on_for_tls_and_finishes_on_a_spent_budget() {
    let mut d = FlowDetection { running: true, result: None, signatures: false };
    let budget = FlowBudget { bytes: 100, upload_packets: 1, download_packets: 0, last_packet_ms: 5 };
    assert_eq!(classify_detection(&mut d, None, false, &budget, 4096, 8), EngineAction::Continue);
    assert_eq!(detection_report(false, &d), (false, false));
    assert_eq!(
        classify_detection(&mut d, detected("heuristic", "tls"), false, &budget, 4096, 8),
        EngineAction::Continue
    );
    assert!(d.running);
    let spent = FlowBudget { bytes: 4096, upload_packets: 3, download_packets: 2, last_packet_ms: 9 };
    assert_eq!(classify_detection(&mut d, None, false, &spent, 4096, 8), EngineAction::Finish);
    assert!(d.running);
    finish_detection(&mut d, detected("ndpi", "tls.youtube"));
    assert!(!d.running);
    assert_eq!(d.result.as_ref().map(|r| r.protocol.as_str()), Some("tls.youtube"));
    finish_detection(&mut d, detected("ndpi", "quic"));
    assert_eq!(d.result.as_ref().map(|r| r.protocol.as_str()), Some("tls.youtube"));
}
