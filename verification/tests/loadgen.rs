use netqmon_collector::ingest::TelemetryFlow;
use netqmon_collector::loadgen::{
    bittorrent_flow, bittorrent_probe_packet, parse_response, Config, ConfigError, Invocation,
    ResponseError, Scenario, ValueOption,
};
use netqmon_collector::text::{parse_count, NumberError};

fn args(list: &[&str]) -> Vec<String> {
    list.iter().map(|s| s.to_string()).collect()
}

fn run(list: &[&str]) -> Config {
    match Config::parse(&args(list), 1_700_000_000_000) {
        Ok(Invocation::Run(config)) => config,
        other => panic!("expected a run, got {other:?}"),
    }
}

#[test]
fn scenarios_parse_and_select_traffic() {
    assert_eq!(Scenario::parse("basic"), Ok(Scenario::Basic));
    assert_eq!(Scenario::parse("all"), Ok(Scenario::All));
    assert_eq!(
        Scenario::parse("video"),
        Err("unknown scenario 'video', expected basic, pipeline, ipv6, dns, or all".to_owned())
    );
    assert!(Scenario::Basic.includes_pipeline());
    assert!(!Scenario::Basic.includes_dns());
    assert!(!Scenario::Basic.includes_ipv6());
    assert!(Scenario::Ipv6.includes_ipv6());
    assert!(!Scenario::Ipv6.includes_pipeline());
    assert!(Scenario::Dns.includes_dns());
    assert!(Scenario::All.includes_pipeline() && Scenario::All.includes_ipv6() && Scenario::All.includes_dns());
}

#[test]
fn counts_parse_like_from_str() {
    assert_eq!(parse_count("42", u64::MAX), Ok(42));
    assert_eq!(parse_count("+7", u64::MAX), Ok(7));
    assert_eq!(parse_count("", u64::MAX), Err(NumberError::Empty));
    assert_eq!(parse_count("+", u64::MAX), Err(NumberError::InvalidDigit));
    assert_eq!(parse_count("-3", u64::MAX), Err(NumberError::InvalidDigit));
    assert_eq!(parse_count("1x", u64::MAX), Err(NumberError::InvalidDigit));
    assert_eq!(parse_count("18446744073709551615", u64::MAX), Ok(u64::MAX));
    assert_eq!(parse_count("18446744073709551616", u64::MAX), Err(NumberError::TooLarge));
    assert_eq!(parse_count("65536", 65535), Err(NumberError::TooLarge));
    for text in ["0", "12", "+9", "", "a", "-1", "99999999999999999999"] {
        assert_eq!(parse_count(text, u64::MAX).ok(), text.parse::<u64>().ok());
    }
}

#[test]
fn command_line_defaults_and_options() {
    let config = run(&["127.0.0.1:9000", "token"]);
    assert_eq!(config.address, "127.0.0.1:9000");
    assert_eq!(config.enrollment_token, "token");
    assert_eq!(config.batches, 3);
    assert_eq!(config.scenario, Scenario::All);
    assert_eq!(config.boot_id, "loadgen-boot-1700000000000");
    assert_eq!(config.gateway_name, "netqmon-loadgen");
    assert_eq!(config.start_ms, 1_700_000_000_000);

    let config = run(&[
        "--scenario", "dns", "addr", "--boot-id", "b1", "tok", "5", "--gateway-name", "gw",
        "--start-ms", "1000",
    ]);
    assert_eq!(config.address, "addr");
    assert_eq!(config.enrollment_token, "tok");
    assert_eq!(config.batches, 5);
    assert_eq!(config.scenario, Scenario::Dns);
    assert_eq!(config.boot_id, "b1");
    assert_eq!(config.gateway_name, "gw");
    assert_eq!(config.start_ms, 1_000);
}

#[test]
fn command_line_errors_and_help() {
    let parse = |list: &[&str]| Config::parse(&args(list), 5);
    assert!(matches!(parse(&["a", "t", "--help", "--bogus"]), Ok(Invocation::Help)));
    assert!(matches!(parse(&["-h"]), Ok(Invocation::Help)));
    assert!(matches!(
        parse(&["a", "t", "--scenario"]),
        Err(ConfigError::MissingValue(ValueOption::Scenario))
    ));
    assert!(matches!(
        parse(&["a", "t", "--start-ms"]),
        Err(ConfigError::MissingValue(ValueOption::StartMs))
    ));
    match parse(&["--scenario", "x"]) {
        Err(ConfigError::UnknownScenario(message)) => assert_eq!(
            message,
            "unknown scenario 'x', expected basic, pipeline, ipv6, dns, or all"
        ),
        other => panic!("unexpected {other:?}"),
    }
    match parse(&["a", "t", "--verbose"]) {
        Err(ConfigError::UnknownOption(option)) => assert_eq!(option, "--verbose"),
        other => panic!("unexpected {other:?}"),
    }
    assert!(matches!(parse(&["a", "t", "many"]), Err(ConfigError::BadNumber(NumberError::InvalidDigit))));
    assert!(matches!(parse(&["--start-ms", ""]), Err(ConfigError::BadNumber(NumberError::Empty))));
    assert!(matches!(parse(&[]), Err(ConfigError::MissingAddress)));
    assert!(matches!(parse(&["a"]), Err(ConfigError::MissingToken)));
}

#[test]
fn http_responses_give_status_and_body() {
    assert_eq!(
        parse_response(b"HTTP/1.1 204 No Content\r\nServer: x\r\n\r\n"),
        Ok((204, Vec::new()))
    );
    assert_eq!(
        parse_response(b"HTTP/1.1 200 OK\r\n\r\nbody\r\n\r\nmore"),
        Ok((200, b"body\r\n\r\nmore".to_vec()))
    );
    assert_eq!(parse_response(b"HTTP/1.1  \t 404\r\n\r\n"), Ok((404, Vec::new())));
    assert_eq!(parse_response(b"HTTP/1.1 200 OK\r\n"), Err(ResponseError::NoHeaderTerminator));
    assert_eq!(parse_response(b"\r\n\r\n"), Err(ResponseError::NoStatus));
    assert_eq!(parse_response(b"HTTP/1.1\r\n\r\n"), Err(ResponseError::NoStatus));
    assert_eq!(
        parse_response(b"HTTP/1.1 abc\r\n\r\n"),
        Err(ResponseError::BadStatus(NumberError::InvalidDigit))
    );
    assert_eq!(
        parse_response(b"HTTP/1.1 70000\r\n\r\n"),
        Err(ResponseError::BadStatus(NumberError::TooLarge))
    );
    assert_eq!(parse_response(b"HTTP/1.1 \xff\r\n\r\n"), Err(ResponseError::HeaderNotUtf8));
}

#[test]
fn synthetic_packet_carries_a_bittorrent_handshake() {
    let packet = bittorrent_probe_packet(&[192, 0, 2, 10], &[198, 51, 100, 77]);
    assert_eq!(packet.len(), 108);
    assert_eq!(packet[0], 0x45);
    assert_eq!(&packet[2..4], &108u16.to_be_bytes());
    assert_eq!(packet[8], 64);
    assert_eq!(packet[9], 6);
    assert_eq!(&packet[12..16], &[192, 0, 2, 10]);
    assert_eq!(&packet[16..20], &[198, 51, 100, 77]);
    assert_eq!(&packet[20..22], &51_000u16.to_be_bytes());
    assert_eq!(&packet[22..24], &51_413u16.to_be_bytes());
    assert_eq!(packet[32], 0x50);
    assert_eq!(packet[33], 0x18);
    assert_eq!(packet[40], 19);
    assert_eq!(&packet[41..60], b"BitTorrent protocol");
    assert!(packet[60..].iter().all(|b| *b == 0));
}

#[test]
fn sample_flow_is_the_first_to_the_bittorrent_port() {
    let flow = |port: u32| TelemetryFlow {
        client_ip: vec![192, 0, 2, 10],
        client_port: 51_000,
        remote_ip: vec![198, 51, 100, 77],
        remote_port: port,
        protocol: 6,
        client_mac: vec![],
        upload_bytes: 0,
        download_bytes: 0,
        last_seen_unix_ms: 0,
    };
    assert_eq!(bittorrent_flow(&vec![flow(443), flow(51_413), flow(51_413)]), Some(1));
    assert_eq!(bittorrent_flow(&vec![flow(443)]), None);
}
