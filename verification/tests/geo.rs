use netqmon_collector::geo::{
    build_item, days_to_date, download_url, extract_mmdb_download_link, fallback_predicted_url,
    format_epoch, geo_status, has_mmdb_extension, is_custom_database, is_direct_download, is_gzip,
    GeoDatabaseMetadata, ASN_FILENAME, CITY_FILENAME, DEFAULT_ASN_SOURCE, DEFAULT_CITY_SOURCE,
};

#[test]
fn test_extract_mmdb_download_link() {
    let sample_html = r#"
        <div class="card">
            <a href='https://download.db-ip.com/free/dbip-country-lite-2026-09.csv.gz'>CSV</a>
            <a href='https://download.db-ip.com/free/dbip-country-lite-2026-09.mmdb.gz' class='btn'>MMDB</a>
        </div>
        "#;
    let link = extract_mmdb_download_link(sample_html, "country");
    assert_eq!(
        link.as_deref(),
        Some("https://download.db-ip.com/free/dbip-country-lite-2026-09.mmdb.gz")
    );
}

#[test]
fn test_days_to_date() {
    let epoch = 1_788_307_200; // approx 2026-09-02
    let days = epoch / 86_400;
    let (y, m, _d) = days_to_date(days);
    assert_eq!(y, 2026);
    assert_eq!(m, 9);
}

#[test]
fn days_to_date_known_dates() {
    assert_eq!(days_to_date(0), (1970, 1, 1));
    assert_eq!(days_to_date(-1), (1969, 12, 31));
    assert_eq!(days_to_date(59), (1970, 3, 1));
    assert_eq!(days_to_date(11_016), (2000, 2, 29));
    assert_eq!(days_to_date(19_782), (2024, 2, 29));
    assert_eq!(days_to_date(-719_468), (0, 3, 1));
}

#[test]
fn days_to_date_clamps_far_years() {
    let (y, _, _) = days_to_date(i64::MAX - 719_468);
    assert_eq!(y, i32::MAX);
}

#[test]
fn format_epoch_renders_padded_dates() {
    assert_eq!(format_epoch(0).as_deref(), Some("1970-01-01"));
    assert_eq!(format_epoch(1_788_307_200).as_deref(), Some("2026-09-02"));
    assert_eq!(format_epoch(u64::MAX), None);
}

#[test]
fn gzip_magic_is_detected() {
    assert!(is_gzip(&[0x1f, 0x8b, 0x08]));
    assert!(!is_gzip(&[0x1f]));
    assert!(!is_gzip(b"MMDB"));
}

#[test]
fn mmdb_extension_is_case_insensitive() {
    assert!(has_mmdb_extension("https://x/GeoLite2-City.MMDB"));
    assert!(!has_mmdb_extension("https://x/GeoLite2-City.mmdb.gz"));
    assert!(!has_mmdb_extension("https://x/page"));
}

#[test]
fn site_relative_links_are_completed_and_missing_quotes_stop_the_search() {
    let html = "<a href=\"/free/dbip-asn-lite-2026-09.mmdb.gz\">x</a>";
    assert_eq!(
        extract_mmdb_download_link(html, "asn").as_deref(),
        Some("https://db-ip.com/free/dbip-asn-lite-2026-09.mmdb.gz")
    );
    assert_eq!(extract_mmdb_download_link("dbip-asn-lite-2026.mmdb.gz", "asn"), None);
    assert_eq!(extract_mmdb_download_link("<p>nothing</p>", "asn"), None);
}

#[test]
fn download_url_prefers_direct_sources_then_page_links_then_mirrors() {
    assert_eq!(download_url("https://x/a.mmdb", "city", None), "https://x/a.mmdb");
    assert_eq!(download_url("https://x/page", "city", None), DEFAULT_CITY_SOURCE);
    assert_eq!(download_url("https://x/page", "asn", Some("<p></p>")), DEFAULT_ASN_SOURCE);
    assert_eq!(
        download_url("https://x/page", "asn", Some("<a href='https://d/dbip-asn-lite-1.mmdb.gz'>")),
        "https://d/dbip-asn-lite-1.mmdb.gz"
    );
    assert!(is_direct_download("https://x/A.MMDB.GZ"));
}

#[test]
fn predicted_url_uses_current_month() {
    assert_eq!(
        fallback_predicted_url("country", 1_788_307_200),
        "https://download.db-ip.com/free/dbip-country-lite-2026-09.mmdb.gz"
    );
}

#[test]
fn inventory_lists_standard_databases_then_custom_ones() {
    let meta = GeoDatabaseMetadata {
        database_type: Some("GeoLite2-City".to_owned()),
        build_epoch: Some(0),
        file_size_bytes: 10,
        last_modified_unix_s: Some(5),
        record_count: Some(3),
    };
    let item = build_item(CITY_FILENAME, "src", Some(&meta));
    assert!(item.installed);
    assert_eq!(item.build_date.as_deref(), Some("1970-01-01"));
    let missing = build_item(ASN_FILENAME, "src", None);
    assert!(!missing.installed);
    assert_eq!(missing.file_size_bytes, 0);
    assert!(is_custom_database("extra.MMDB"));
    assert!(!is_custom_database(CITY_FILENAME));
    let others = vec![
        ("extra.mmdb".to_owned(), None),
        ("notes.txt".to_owned(), None),
    ];
    let status = geo_status("/geo".to_owned(), true, "a", "b", Some(&meta), None, &others);
    assert_eq!(status.databases.len(), 3);
    assert_eq!(status.databases[2].filename, "extra.mmdb");
    assert_eq!(status.databases[2].source_url, "custom");
}

#[test]
fn mmdb_extension_follows_the_file_name() {
    assert!(has_mmdb_extension("db/city.mmdb"));
    assert!(has_mmdb_extension("city.tar.Mmdb"));
    assert!(!has_mmdb_extension(".mmdb"));
    assert!(!has_mmdb_extension("https://x/mmdb"));
    assert!(!has_mmdb_extension("https://x/city.mmdb."));
    assert!(has_mmdb_extension("https://x/city.mmdb/"));
}
