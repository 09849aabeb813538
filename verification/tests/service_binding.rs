use netqmon_collector::favicon_probe::EndpointKey;
use netqmon_collector::service_binding::{binding_source, BindingOutcome, ServiceBindings};

fn key(port: u16) -> EndpointKey {
    EndpointKey { ip: vec![192, 168, 1, 20], protocol: 6, port }
}

#[test]
fn binding_source_is_the_reason_prefix() {
    assert_eq!(binding_source("self_host_application:jellyfin"), "self_host_application");
    assert_eq!(binding_source("no matching rule"), "classifier");
}

#[test]
fn strong_self_hosted_flows_bind_and_lend_their_endpoint() {
    let mut bindings: ServiceBindings<&str> = ServiceBindings::new(900_000, 4096);
    let (outcome, lent) = bindings.apply(key(8096), 1_000, "jellyfin", true, true, "self_host_application:x", "jellyfin attribution");
    assert!(matches!(outcome, BindingOutcome::Bound));
    assert!(lent.is_none());
    let (outcome, lent) = bindings.apply(key(8096), 2_000, "unknown", false, false, "no matching rule", "weak");
    assert!(matches!(outcome, BindingOutcome::Lent));
    let lent = lent.expect("lent binding");
    assert_eq!(lent.source, "self_host_application");
    assert_eq!(lent.last_seen, 1_000);
    assert_eq!(lent.expires_at, 901_000);
    assert_eq!(bindings.bound_attribution(&key(8096)), Some(&"jellyfin attribution"));
    // Confident flows keep their own attribution.
    let (outcome, _) = bindings.apply(key(8096), 3_000, "plex", false, true, "domain:plex", "plex");
    assert!(matches!(outcome, BindingOutcome::Kept));
    // A strong identification of another application drops the binding.
    let (outcome, _) = bindings.apply(key(8096), 4_000, "plex", true, true, "self_host_application:plex", "plex");
    assert!(matches!(outcome, BindingOutcome::Unbound));
    assert!(bindings.bound_attribution(&key(8096)).is_none());
}

#[test]
fn bindings_expire_and_skip_web_ports() {
    let mut bindings: ServiceBindings<u32> = ServiceBindings::new(100, 4096);
    let (outcome, _) = bindings.apply(key(443), 0, "nextcloud", true, true, "r", 1);
    assert!(matches!(outcome, BindingOutcome::Kept));
    assert!(bindings.bound_attribution(&key(443)).is_none());
    bindings.apply(key(9000), 0, "portainer", true, true, "r", 2);
    let (outcome, _) = bindings.apply(key(9000), 100, "unknown", false, false, "r", 3);
    assert!(matches!(outcome, BindingOutcome::Kept));
    assert!(bindings.bound_attribution(&key(9000)).is_none());
}

#[test]
fn least_recently_used_binding_makes_room() {
    let mut bindings: ServiceBindings<u32> = ServiceBindings::new(1_000_000, 2);
    bindings.apply(key(1), 10, "a", true, true, "r", 1);
    bindings.apply(key(2), 20, "b", true, true, "r", 2);
    bindings.apply(key(1), 30, "unknown", false, false, "r", 0);
    bindings.apply(key(3), 40, "c", true, true, "r", 3);
    assert!(bindings.bound_attribution(&key(2)).is_none());
    assert_eq!(bindings.bound_attribution(&key(1)), Some(&1));
    assert_eq!(bindings.bound_attribution(&key(3)), Some(&3));
}

#[test]
fn lent_reason_names_the_endpoint_and_transport() {
    assert_eq!(
        netqmon_collector::service_binding::lent_reason("192.168.1.20", 17, 5353),
        "service_binding:192.168.1.20:udp/5353"
    );
    assert_eq!(
        netqmon_collector::service_binding::lent_reason("fd00::7", 6, 8096),
        "service_binding:fd00::7:tcp/8096"
    );
}
