use netqmon_collector::icon_settings::IconCacheConfig;

#[test]
fn icon_settings_default_and_parse() {
    let defaults = IconCacheConfig::from_settings(None, None, None, None, None);
    assert_eq!(defaults.max_bytes, 32 * 1024 * 1024);
    assert_eq!(defaults.positive_ttl_s, 24 * 60 * 60);
    assert_eq!(defaults.negative_ttl_s, 60 * 60);
    assert_eq!(defaults.fetch_timeout_ms, 3_000);
    assert_eq!(defaults.max_object_bytes, 512 * 1024);
    let set = IconCacheConfig::from_settings(Some("1024"), Some("60"), Some("x"), Some("+250"), Some("4096"));
    assert_eq!(set.max_bytes, 1024);
    assert_eq!(set.positive_ttl_s, 60);
    assert_eq!(set.negative_ttl_s, 3_600);
    assert_eq!(set.fetch_timeout_ms, 250);
    assert_eq!(set.max_object_bytes, 4096);
}

#[test]
fn found_and_missing_icons_are_remembered_for_their_own_lifetimes() {
    let config = IconCacheConfig::default();
    assert_eq!(config, IconCacheConfig::from_settings(None, None, None, None, None));
    assert_eq!(config.lifetime_s(true), 86_400);
    assert_eq!(config.lifetime_s(false), 3_600);
}
