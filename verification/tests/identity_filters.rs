use netqmon_collector::identity_filters::{
    identity_filters, BoundValue, IdentityQuery, ParameterAddresses, APPLICATION_SQL,
    CLIENT_ADDRESS_SQL, CLIENT_ID_SQL, CLIENT_NAME_SQL, DOMAIN_SQL, ORGANIZATION_SQL, PROTOCOL_SQL,
    REMOTE_ADDRESS_SQL, SEARCH_ADDRESS_SQL, SEARCH_TEXT_SQL,
};

fn query() -> IdentityQuery {
    IdentityQuery {
        search: None,
        client: None,
        application: None,
        organization: None,
        detected_protocol: None,
        domain: None,
        ip: None,
    }
}

fn no_addresses() -> ParameterAddresses {
    ParameterAddresses { search: None, client: None, ip: None }
}

fn text(s: &str) -> BoundValue {
    BoundValue::Text(s.to_owned())
}

fn shape(q: &IdentityQuery, a: &ParameterAddresses) -> Vec<(&'static str, Vec<BoundValue>)> {
    identity_filters(q, a)
        .unwrap()
        .into_iter()
        .map(|c| (c.sql, c.values))
        .collect()
}

#[test]
fn search_matches_addresses_or_text_fields() {
    let mut q = query();
    q.search = Some("  10.0.0.1 ".into());
    let a = ParameterAddresses { search: Some(vec![10, 0, 0, 1]), client: None, ip: None };
    assert_eq!(
        shape(&q, &a),
        vec![(SEARCH_ADDRESS_SQL, vec![BoundValue::Blob(vec![10, 0, 0, 1]), BoundValue::Blob(vec![10, 0, 0, 1])])]
    );
    q.search = Some("YouTube".into());
    assert_eq!(
        shape(&q, &no_addresses()),
        vec![(SEARCH_TEXT_SQL, vec![text("%youtube%"), text("%youtube%"), text("%youtube%"), text("%youtube%")])]
    );
}

#[test]
fn client_is_a_device_id_an_address_or_a_name() {
    let mut q = query();
    q.client = Some("42".into());
    assert_eq!(shape(&q, &no_addresses()), vec![(CLIENT_ID_SQL, vec![BoundValue::Integer(42)])]);
    q.client = Some("192.168.1.5".into());
    let a = ParameterAddresses { search: None, client: Some(vec![192, 168, 1, 5]), ip: None };
    assert_eq!(shape(&q, &a), vec![(CLIENT_ADDRESS_SQL, vec![BoundValue::Blob(vec![192, 168, 1, 5])])]);
    q.client = Some("AA:BB-CC".into());
    assert_eq!(shape(&q, &no_addresses()), vec![(CLIENT_NAME_SQL, vec![text("%aabbcc%"), text("%aabbcc%")])]);
}

#[test]
fn entity_and_domain_parameters_compare_in_lower_case() {
    let mut q = query();
    q.application = Some(" Netflix ".into());
    q.organization = Some("ÄPFEL".into());
    q.detected_protocol = Some("QUIC".into());
    q.domain = Some("Example.COM".into());
    q.ip = Some("1.2.3.4".into());
    let a = ParameterAddresses { search: None, client: None, ip: Some(vec![1, 2, 3, 4]) };
    assert_eq!(
        shape(&q, &a),
        vec![
            (APPLICATION_SQL, vec![text("netflix")]),
            (ORGANIZATION_SQL, vec![text("äpfel")]),
            (PROTOCOL_SQL, vec![text("quic")]),
            (DOMAIN_SQL, vec![text("%example.com%")]),
            (REMOTE_ADDRESS_SQL, vec![BoundValue::Blob(vec![1, 2, 3, 4])]),
        ]
    );
}

#[test]
fn blank_parameters_add_nothing_and_a_bad_address_is_refused() {
    let mut q = query();
    q.search = Some("   ".into());
    q.client = Some(String::new());
    assert!(shape(&q, &no_addresses()).is_empty());
    q.ip = Some("not-an-address".into());
    assert_eq!(identity_filters(&q, &no_addresses()).err(), Some("invalid_ip"));
}
