use netqmon_collector::device::{
    discovery_device_inputs, discovery_model, discovery_observation_value,
    keeps_historical_evidence, mac_evidence, metadata_is_empty, observation_device_inputs,
    parse_matter_id, DeviceObservation, DhcpMetadata, DiscoveryObservation, MacEvidence,
    destination_candidates, latest_observations,
};
use netqmon_collector::ingest::TelemetryFlow;
use netqmon_collector::mac_prefix::MacPrefixDataset;

fn discovery(protocol: &str, attributes: &[(&str, &str)]) -> DiscoveryObservation {
    DiscoveryObservation {
        mac: vec![0, 1, 2, 3, 4, 5],
        ip: vec![192, 0, 2, 10],
        protocol: protocol.to_owned(),
        service: String::new(),
        instance: String::new(),
        hostname: String::new(),
        port: 0,
        attributes: attributes.iter().map(|(k, v)| (k.to_string(), v.to_string())).collect(),
        observed_at_unix_ms: 0,
    }
}

#[test]
fn collector_normalizes_device_observations_without_loading_rules() {
    let observation = DeviceObservation {
        mac: Vec::new(),
        ip: Vec::new(),
        hostname: "Example.local".to_owned(),
        last_seen_unix_ms: 0,
        dhcp: Some(DhcpMetadata {
            vendor_class: "vendor".to_owned(),
            client_identifier: vec![0xab, 0xcd],
            parameter_request_list: vec![1, 3, 6],
        }),
    };
    let inputs = observation_device_inputs(&observation);
    assert!(inputs.iter().any(|input| {
        input.field == "client_identifier" && input.text.as_deref() == Some("abcd")
    }));
    assert!(inputs.iter().any(|input| {
        input.field == "prl" && input.sequence.as_deref() == Some(&[1, 3, 6][..])
    }));
    assert_eq!(inputs[0].field, "hostname");
}

#[test]
fn collector_forwards_matter_ids_as_basic_classifier_evidence() {
    let observation = discovery("matter", &[("vp", "65521+32768"), ("dt", "769")]);
    let inputs = discovery_device_inputs(&observation);
    assert!(inputs.iter().any(|input| {
        input.field == "matter_vendor_product"
            && input.sequence.as_deref() == Some(&[65_521, 32_768][..])
    }));
    assert!(inputs.iter().any(|input| {
        input.field == "matter_device_type" && input.text.as_deref() == Some("769")
    }));
}

#[test]
fn collector_maps_http_user_agent_to_device_evidence() {
    let observation = discovery(
        "http",
        &[("user-agent", "Mozilla/5.0 (iPad2,1; CPU OS 7_1 like Mac OS X)")],
    );
    let inputs = discovery_device_inputs(&observation);
    assert_eq!(inputs.len(), 1);
    assert_eq!(inputs[0].field, "http_user_agent");
    assert_eq!(
        inputs[0].text.as_deref(),
        Some("Mozilla/5.0 (iPad2,1; CPU OS 7_1 like Mac OS X)")
    );
}

#[test]
fn collector_skips_http_observations_without_user_agent() {
    let observation = discovery("http", &[]);
    assert!(discovery_device_inputs(&observation).is_empty());
}

#[test]
fn locally_administered_mac_skips_vendor_lookup() {
    let dataset = MacPrefixDataset::from_ieee_oui(
        "02-00-00 (hex)\t\tIncorrect Vendor\n",
        "http://example.test/oui.txt",
    )
    .unwrap();
    assert_eq!(mac_evidence(&[0x02, 0, 0, 0, 0, 1], &dataset), MacEvidence::PrivateAddress);
    assert!(!keeps_historical_evidence(&[0x02, 0, 0, 0, 0, 1], "mac_oui"));
    assert!(keeps_historical_evidence(&[0x02, 0, 0, 0, 0, 1], "dhcp"));
    let dataset = MacPrefixDataset::from_ieee_oui("00-11-22 (hex)\t\tAcme\n", "u").unwrap();
    assert_eq!(mac_evidence(&[0, 0x11, 0x22, 1, 2, 3], &dataset), MacEvidence::Vendor("Acme".into()));
    assert_eq!(mac_evidence(&[0, 0x11, 0x23, 1, 2, 3], &dataset), MacEvidence::Unknown);
}

#[test]
fn matter_ids_and_metadata() {
    assert_eq!(parse_matter_id(" 0x1F "), Some(31));
    assert_eq!(parse_matter_id("0XfFfF"), Some(65_535));
    assert_eq!(parse_matter_id("0x10000"), None);
    assert_eq!(parse_matter_id("65535"), Some(65_535));
    assert_eq!(parse_matter_id("65536"), None);
    assert_eq!(parse_matter_id("+7"), Some(7));
    assert_eq!(parse_matter_id("0x"), None);
    assert_eq!(parse_matter_id("abc"), None);
    assert!(metadata_is_empty("{}"));
    assert!(!metadata_is_empty("{\"a\":1}"));
}

#[test]
fn ssdp_dhcp6_and_mdns_rules() {
    let mut search = discovery(
        "ssdp",
        &[("message_kind", "M-SEARCH"), ("user-agent", "UA"), ("server", "S")],
    );
    search.service = "svc".into();
    let inputs = discovery_device_inputs(&search);
    let fields: Vec<&str> = inputs.iter().map(|i| i.field.as_str()).collect();
    assert_eq!(fields, vec!["ssdp_user_agent"]);
    let mut notify = discovery("ssdp", &[("server", "S"), ("st", "T"), ("usn", "U")]);
    notify.service = "svc".into();
    let fields: Vec<String> = discovery_device_inputs(&notify).into_iter().map(|i| i.field).collect();
    assert_eq!(fields, vec!["service", "ssdp_type", "ssdp_server", "ssdp_type", "ssdp_usn"]);
    let dhcp6 = discovery("dhcp6", &[("oro", "1, 23,x,+24"), ("duid", "d")]);
    let inputs = discovery_device_inputs(&dhcp6);
    assert_eq!(inputs[0].field, "dhcp6_duid");
    assert_eq!(inputs[1].sequence.as_deref(), Some(&[1, 24][..]));
    let mut mdns = discovery("mdns", &[("md", "Model X"), ("id", "7")]);
    mdns.instance = "inst".into();
    let fields: Vec<(String, Option<String>)> =
        discovery_device_inputs(&mdns).into_iter().map(|i| (i.field, i.text)).collect();
    assert_eq!(
        fields,
        vec![
            ("mdns_instance".to_string(), Some("inst".to_string())),
            ("mdns_hostname".to_string(), Some(String::new())),
            ("mdns_txt".to_string(), Some("md=Model X".to_string())),
            ("mdns_model".to_string(), Some("Model X".to_string())),
            ("mdns_txt".to_string(), Some("id=7".to_string())),
        ]
    );
    assert_eq!(discovery_model(&mdns).as_deref(), Some("Model X"));
    assert_eq!(discovery_model(&discovery("http", &[("md", "x")])), None);
    assert_eq!(discovery_observation_value(&mdns), "mdns");
    let matter = discovery("matter", &[("vp", "bad"), ("vid", "0x10"), ("pid", "2")]);
    assert!(discovery_device_inputs(&matter).iter().any(|i| i.sequence.as_deref() == Some(&[16, 2][..])));
}

fn sighting(mac: u8, last_seen: u64, hostname: &str) -> DeviceObservation {
    DeviceObservation {
        mac: vec![2, 0, 0, 0, 0, mac],
        ip: vec![192, 0, 2, mac],
        hostname: hostname.to_owned(),
        last_seen_unix_ms: last_seen,
        dhcp: None,
    }
}

#[test]
fn latest_observation_per_mac_is_kept() {
    let batch = vec![
        sighting(1, 10, "a-old"),
        sighting(2, 50, "b"),
        sighting(1, 30, "a-new"),
        sighting(1, 30, "a-same-time"),
        sighting(3, 5, "c"),
    ];
    assert_eq!(latest_observations(&batch), vec![2, 1, 4]);
    assert!(latest_observations(&Vec::new()).is_empty());
}

#[test]
fn destination_evidence_needs_a_mac_and_a_domain() {
    let flow = |mac: Vec<u8>| TelemetryFlow {
        client_ip: vec![192, 0, 2, 10],
        client_port: 1,
        remote_ip: vec![1, 1, 1, 1],
        remote_port: 443,
        protocol: 6,
        client_mac: mac,
        upload_bytes: 0,
        download_bytes: 0,
        last_seen_unix_ms: 0,
    };
    let flows = vec![flow(vec![2, 0, 0, 0, 0, 1]), flow(vec![]), flow(vec![2, 0, 0, 0, 0, 3]), flow(vec![2, 0, 0, 0, 0, 4])];
    let domains = vec![Some("github.com".to_owned()), Some("x".to_owned()), None];
    assert_eq!(destination_candidates(&flows, &domains), vec![0]);
}
