use netqmon_collector::insights_model::{format_mac, to_i64, to_u64, InsightCategory, InsightSeverity};
use netqmon_collector::sampling::{same_sample_key, FlowSampleKey};

#[test]
fn macs_format_as_colon_hex() {
    assert_eq!(format_mac(&[0x02, 0xab, 0, 0x10, 0xff, 9]), "02:ab:00:10:ff:09");
    assert_eq!(format_mac(&[1, 2, 3]), "unknown");
}

#[test]
fn storage_integers_convert_with_clamping() {
    assert_eq!(to_i64(5), 5);
    assert_eq!(to_i64(u64::MAX), i64::MAX);
    assert_eq!(to_u64(-3), 0);
    assert_eq!(to_u64(42), 42);
}

#[test]
fn insight_names_are_snake_case() {
    assert_eq!(InsightCategory::NetworkQuality.as_str(), "network_quality");
    assert_eq!(InsightCategory::Dns.as_str(), "dns");
    assert_eq!(InsightSeverity::Warning.as_str(), "warning");
    assert_eq!(InsightSeverity::Info.as_str(), "info");
}

#[test]
fn sample_keys_compare_every_field() {
    let key = FlowSampleKey {
        ip_version: 4,
        protocol: 6,
        client_ip: vec![10, 0, 0, 1],
        client_port: 5000,
        remote_ip: vec![10, 0, 0, 2],
        remote_port: 443,
        first_seen_unix_ms: 7,
    };
    let mut other = key.clone();
    assert!(same_sample_key(&key, &other));
    other.first_seen_unix_ms = 8;
    assert!(!same_sample_key(&key, &other));
}
