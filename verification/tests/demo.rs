use netqmon_collector::demo::{demo_base_rates, demo_shift, is_demo_mode_val};

#[test]
fn test_demo_mode_detection() {
    assert!(is_demo_mode_val("true"));
    assert!(is_demo_mode_val("1"));
    assert!(is_demo_mode_val("TRUE"));
    assert!(is_demo_mode_val("  true  "));
    assert!(!is_demo_mode_val("false"));
    assert!(!is_demo_mode_val("0"));
    assert!(!is_demo_mode_val(""));
    assert!(!is_demo_mode_val("anything_else"));
}

#[test]
fn stale_demo_data_is_shifted_to_the_last_full_minute() {
    let now = 1_800_000_000_000_i64;
    let latest = 1_704_240_000_000_i64;
    let delta = demo_shift(Some(latest), now).unwrap();
    let target = ((now - 30_000) / 60_000) * 60_000;
    assert_eq!(latest + delta, target);
    assert_eq!(demo_shift(Some(target - 10_000), now), None);
    assert_eq!(demo_shift(None, now), None);
    assert_eq!(demo_shift(Some(0), now), None);
}

#[test]
fn demo_base_rates_average_recent_minutes_with_floors() {
    assert_eq!(demo_base_rates(&Vec::new()), (250_000, 1_800_000));
    let rows = vec![(1, 6_000_000, 60_000_000), (2, 6_000_000, 60_000_000)];
    assert_eq!(demo_base_rates(&rows), (100_000, 1_000_000));
    let quiet = vec![(1, 600, 6_000)];
    assert_eq!(demo_base_rates(&quiet), (50_000, 300_000));
    let negative = vec![(1, -6_000_000, -60)];
    assert_eq!(demo_base_rates(&negative), (50_000, 300_000));
}
