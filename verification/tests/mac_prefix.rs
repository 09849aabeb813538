use netqmon_collector::mac_prefix::{
    is_locally_administered, parse_ieee_oui_line, parse_prefix, prefix_matches, MacPrefixDataset,
};

#[test]
fn parses_ieee_entries_and_uses_longest_prefix_match() {
    let raw = "A0-B2-C3   (hex)\t\tMA-L Vendor\nA0B2C3D (base 16)\t\tMA-M Vendor\nA0B2C3D4E (base 16)\t\tMA-S Vendor\n";
    let dataset = MacPrefixDataset::from_ieee_oui(raw, "http://example.test/oui.txt").unwrap();

    assert_eq!(
        dataset.lookup(&[0xa0, 0xb2, 0xc3, 0xd4, 0xe5, 0xff]),
        Some("MA-S Vendor")
    );
    assert_eq!(
        dataset.lookup(&[0xa0, 0xb2, 0xc3, 0xdf, 0x00, 0x01]),
        Some("MA-M Vendor")
    );
    assert_eq!(
        dataset.lookup(&[0xa0, 0xb2, 0xc3, 0x01, 0x00, 0x01]),
        Some("MA-L Vendor")
    );
}

#[test]
fn prefixes_drop_separators_and_pad_odd_digits() {
    assert_eq!(parse_prefix("A0-B2-C3"), Some((vec![0xa0, 0xb2, 0xc3], 24)));
    assert_eq!(parse_prefix("A0B2C3D"), Some((vec![0xa0, 0xb2, 0xc3, 0xd0], 28)));
    assert_eq!(parse_prefix(""), None);
    assert_eq!(parse_prefix("0123456789ABC"), None);
    assert_eq!(parse_prefix("GG"), None);
}

#[test]
fn oui_lines_need_a_marker_and_a_vendor() {
    let entry = parse_ieee_oui_line("24-0A-C4 (hex)\t\tEspressif Inc.\r").unwrap();
    assert_eq!(entry.prefix, vec![0x24, 0x0a, 0xc4]);
    assert_eq!(entry.prefix_bits, 24);
    assert_eq!(entry.vendor, "Espressif Inc.");
    assert!(parse_ieee_oui_line("24-0A-C4 (hex)   ").is_none());
    assert!(parse_ieee_oui_line("no marker here").is_none());
}

#[test]
fn partial_byte_prefixes_compare_the_top_bits() {
    assert!(prefix_matches(&[0xa0, 0xb2, 0xc3, 0xd4], &[0xa0, 0xb2, 0xc3, 0xd0], 28));
    assert!(!prefix_matches(&[0xa0, 0xb2, 0xc3, 0xe4], &[0xa0, 0xb2, 0xc3, 0xd0], 28));
    assert!(prefix_matches(&[1, 2, 3, 4, 5, 6], &[1, 2, 3], 24));
}

#[test]
fn locally_administered_bit_is_detected() {
    assert!(is_locally_administered(&[0x02, 0, 0, 0, 0, 1]));
    assert!(!is_locally_administered(&[0x24, 0x0a, 0xc4, 1, 2, 3]));
    assert!(!is_locally_administered(&[0x02, 0, 0]));
}

#[test]
fn empty_registry_text_is_rejected() {
    assert!(MacPrefixDataset::from_ieee_oui("nothing useful\n", "u").is_err());
}

#[test]
fn dataset_records_checksum_and_count() {
    let dataset = MacPrefixDataset::from_ieee_oui_at("AA-BB-CC (hex)\tV\n", "u", 42).unwrap();
    let meta = dataset.metadata();
    assert_eq!(meta.entry_count, 1);
    assert_eq!(meta.checksum.len(), 64);
    assert_eq!(meta.source_version, meta.checksum[..12]);
    assert_eq!(meta.updated_at, "42");
    assert_eq!(meta.source, "IEEE");
    assert_eq!(dataset.lookup(&[0xaa, 0xbb, 0xcc, 0, 0, 1]), Some("V"));
    assert_eq!(dataset.lookup(&[0xaa, 0xbb, 0xcd, 0, 0, 1]), None);
    assert_eq!(dataset.lookup(&[0xaa, 0xbb, 0xcc]), None);
}
