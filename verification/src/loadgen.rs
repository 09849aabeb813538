//! The load generator's own logic: the traffic scenarios, its command line,
//! the decimal counts on it, and the synthetic BitTorrent handshake packet
//! it sends for packet inspection to find.

use vstd::prelude::*;

use crate::classifier::strings_view;
use crate::ingest::TelemetryFlow;
use crate::text::{
    chars_of, count_parse, decimal, is_ws, is_ws_exec, parse_count, push_decimal, push_str,
    skip_ws_from, slice_range, str_eq, string_from_chars, NumberError,
};
use vstd::utf8::{decode_utf8, valid_utf8};

verus! {

/// Which synthetic traffic a run sends.
#[derive(Clone, Copy, Debug, PartialEq, Eq, Structural)]
pub enum Scenario {
    Basic,
    Pipeline,
    Ipv6,
    Dns,
    All,
}

pub open spec fn scenario_named(value: Seq<char>) -> Option<Scenario> {
    if value == "basic"@ {
        Some(Scenario::Basic)
    } else if value == "pipeline"@ {
        Some(Scenario::Pipeline)
    } else if value == "ipv6"@ {
        Some(Scenario::Ipv6)
    } else if value == "dns"@ {
        Some(Scenario::Dns)
    } else if value == "all"@ {
        Some(Scenario::All)
    } else {
        None
    }
}

pub open spec fn unknown_scenario_text(value: Seq<char>) -> Seq<char> {
    "unknown scenario '"@ + value + "', expected basic, pipeline, ipv6, dns, or all"@
}

impl Scenario {
    /// The scenario a command-line value names.
    pub fn parse(value: &str) -> (r: Result<Scenario, String>)
        ensures
            match r {
                Ok(s) => scenario_named(value@) == Some(s),
                Err(message) => scenario_named(value@) is None && message@
                    == unknown_scenario_text(value@),
            },
    {
        if str_eq(value, "basic") {
            Ok(Scenario::Basic)
        } else if str_eq(value, "pipeline") {
            Ok(Scenario::Pipeline)
        } else if str_eq(value, "ipv6") {
            Ok(Scenario::Ipv6)
        } else if str_eq(value, "dns") {
            Ok(Scenario::Dns)
        } else if str_eq(value, "all") {
            Ok(Scenario::All)
        } else {
            let mut text: Vec<char> = Vec::new();
            push_str(&mut text, "unknown scenario '");
            push_str(&mut text, value);
            push_str(&mut text, "', expected basic, pipeline, ipv6, dns, or all");
            Err(string_from_chars(text.as_slice()))
        }
    }

    /// Basic, pipeline and all runs send the web and peer-to-peer flows.
    pub fn includes_pipeline(self) -> (r: bool)
        ensures
            r == (self == Scenario::Basic || self == Scenario::Pipeline || self == Scenario::All),
    {
        match self {
            Scenario::Basic | Scenario::Pipeline | Scenario::All => true,
            _ => false,
        }
    }

    /// IPv6 and all runs send the IPv6 flow.
    pub fn includes_ipv6(self) -> (r: bool)
        ensures
            r == (self == Scenario::Ipv6 || self == Scenario::All),
    {
        match self {
            Scenario::Ipv6 | Scenario::All => true,
            _ => false,
        }
    }

    /// DNS and all runs send the DNS-classified flow.
    pub fn includes_dns(self) -> (r: bool)
        ensures
            r == (self == Scenario::Dns || self == Scenario::All),
    {
        match self {
            Scenario::Dns | Scenario::All => true,
            _ => false,
        }
    }
}

/// An option that takes a value.
#[derive(Clone, Copy, Debug, PartialEq, Eq, Structural)]
pub enum ValueOption {
    Scenario,
    BootId,
    GatewayName,
    StartMs,
}

/// Why a command line was refused.
#[derive(Clone, Debug)]
pub enum ConfigError {
    /// The option came last, without its value.
    MissingValue(ValueOption),
    /// The scenario value, with the message `Scenario::parse` gave.
    UnknownScenario(String),
    /// A count that did not parse.
    BadNumber(NumberError),
    UnknownOption(String),
    MissingAddress,
    MissingToken,
}

pub enum ConfigErrorView {
    MissingValue(ValueOption),
    UnknownScenario(Seq<char>),
    BadNumber(NumberError),
    UnknownOption(Seq<char>),
    MissingAddress,
    MissingToken,
}

pub open spec fn config_error_view(e: ConfigError) -> ConfigErrorView {
    match e {
        ConfigError::MissingValue(o) => ConfigErrorView::MissingValue(o),
        ConfigError::UnknownScenario(m) => ConfigErrorView::UnknownScenario(m@),
        ConfigError::BadNumber(k) => ConfigErrorView::BadNumber(k),
        ConfigError::UnknownOption(v) => ConfigErrorView::UnknownOption(v@),
        ConfigError::MissingAddress => ConfigErrorView::MissingAddress,
        ConfigError::MissingToken => ConfigErrorView::MissingToken,
    }
}

/// A run's settings.
#[derive(Clone, Debug)]
pub struct Config {
    pub address: String,
    pub enrollment_token: String,
    pub batches: u64,
    pub scenario: Scenario,
    pub boot_id: String,
    pub gateway_name: String,
    pub start_ms: u64,
}

/// What a command line asks for: a run, or the usage text.
#[derive(Clone, Debug)]
pub enum Invocation {
    Run(Config),
    Help,
}

/// The settings gathered while reading options: scenario, boot id, gateway
/// name, start time, and the positional arguments in order.
pub struct ArgState {
    pub scenario: Scenario,
    pub boot_id: Seq<char>,
    pub gateway_name: Seq<char>,
    pub start_ms: u64,
    pub positional: Seq<Seq<char>>,
}

pub enum ArgScan {
    Done(ArgState),
    Help,
    Failed(ConfigErrorView),
}

/// Reads the arguments from position `i` on: an option that takes a value
/// consumes the next argument; `--help` or `-h` stops with the usage; any
/// other argument starting with `-` is refused; the rest are positional.
pub open spec fn scan_args(args: Seq<Seq<char>>, i: int, st: ArgState) -> ArgScan
    decreases args.len() - i,
{
    if i >= args.len() || i < 0 {
        ArgScan::Done(st)
    } else {
        let a = args[i];
        let has_value = i + 1 < args.len();
        if a == "--scenario"@ {
            if !has_value {
                ArgScan::Failed(ConfigErrorView::MissingValue(ValueOption::Scenario))
            } else {
                match scenario_named(args[i + 1]) {
                    Some(s) => scan_args(args, i + 2, ArgState { scenario: s, ..st }),
                    None => ArgScan::Failed(
                        ConfigErrorView::UnknownScenario(unknown_scenario_text(args[i + 1])),
                    ),
                }
            }
        } else if a == "--boot-id"@ {
            if !has_value {
                ArgScan::Failed(ConfigErrorView::MissingValue(ValueOption::BootId))
            } else {
                scan_args(args, i + 2, ArgState { boot_id: args[i + 1], ..st })
            }
        } else if a == "--gateway-name"@ {
            if !has_value {
                ArgScan::Failed(ConfigErrorView::MissingValue(ValueOption::GatewayName))
            } else {
                scan_args(args, i + 2, ArgState { gateway_name: args[i + 1], ..st })
            }
        } else if a == "--start-ms"@ {
            if !has_value {
                ArgScan::Failed(ConfigErrorView::MissingValue(ValueOption::StartMs))
            } else {
                match count_parse(args[i + 1], u64::MAX as int) {
                    Ok(v) => scan_args(args, i + 2, ArgState { start_ms: v, ..st }),
                    Err(k) => ArgScan::Failed(ConfigErrorView::BadNumber(k)),
                }
            }
        } else if a == "--help"@ || a == "-h"@ {
            ArgScan::Help
        } else if a.len() > 0 && a[0] == '-' {
            ArgScan::Failed(ConfigErrorView::UnknownOption(a))
        } else {
            scan_args(args, i + 1, ArgState { positional: st.positional.push(a), ..st })
        }
    }
}

/// Address, token, batches, scenario, boot id, gateway name, start time.
pub type ConfigView = (Seq<char>, Seq<char>, u64, Scenario, Seq<char>, Seq<char>, u64);

pub open spec fn config_view(c: Config) -> ConfigView {
    (
        c.address@,
        c.enrollment_token@,
        c.batches,
        c.scenario,
        c.boot_id@,
        c.gateway_name@,
        c.start_ms,
    )
}

pub enum InvocationView {
    Run(ConfigView),
    Help,
}

/// The settings before any option: all scenarios, a boot id and start time
/// from the clock reading `now_ms`, the default gateway name.
pub open spec fn initial_args(now_ms: u64) -> ArgState {
    ArgState {
        scenario: Scenario::All,
        boot_id: "loadgen-boot-"@ + decimal(now_ms as nat),
        gateway_name: "netqmon-loadgen"@,
        start_ms: now_ms,
        positional: Seq::empty(),
    }
}

/// A command line's meaning: the first positional argument is the
/// collector address, the second the enrollment token, the third the
/// number of batches (three by default).
pub open spec fn config_spec(args: Seq<Seq<char>>, now_ms: u64) -> Result<InvocationView, ConfigErrorView> {
    match scan_args(args, 0, initial_args(now_ms)) {
        ArgScan::Help => Ok(InvocationView::Help),
        ArgScan::Failed(e) => Err(e),
        ArgScan::Done(st) => {
            let p = st.positional;
            let batches = if p.len() > 2 {
                count_parse(p[2], u64::MAX as int)
            } else {
                Ok(3u64)
            };
            match batches {
                Err(k) => Err(ConfigErrorView::BadNumber(k)),
                Ok(b) => if p.len() < 1 {
                    Err(ConfigErrorView::MissingAddress)
                } else if p.len() < 2 {
                    Err(ConfigErrorView::MissingToken)
                } else {
                    Ok(
                        InvocationView::Run(
                            (p[0], p[1], b, st.scenario, st.boot_id, st.gateway_name, st.start_ms),
                        ),
                    )
                },
            }
        },
    }
}

impl Config {
    /// Reads the command line (program name left out); `now_ms` is the
    /// clock reading the default boot id and start time come from.
    pub fn parse(arguments: &Vec<String>, now_ms: u64) -> (r: Result<Invocation, ConfigError>)
        ensures
            match r {
                Ok(Invocation::Run(c)) => config_spec(strings_view(arguments@), now_ms) == Ok::<
                    InvocationView,
                    ConfigErrorView,
                >(InvocationView::Run(config_view(c))),
                Ok(Invocation::Help) => config_spec(strings_view(arguments@), now_ms) == Ok::<
                    InvocationView,
                    ConfigErrorView,
                >(InvocationView::Help),
                Err(e) => config_spec(strings_view(arguments@), now_ms) == Err::<
                    InvocationView,
                    ConfigErrorView,
                >(config_error_view(e)),
            },
    {
        let ghost args = strings_view(arguments@);
        let mut scenario = Scenario::All;
        let mut boot: Vec<char> = Vec::new();
        push_str(&mut boot, "loadgen-boot-");
        push_decimal(&mut boot, now_ms);
        let mut boot_id = string_from_chars(boot.as_slice());
        let mut gateway_name = "netqmon-loadgen".to_owned();
        let mut start_ms = now_ms;
        let mut positional: Vec<String> = Vec::new();
        let n = arguments.len();
        let mut i: usize = 0;
        assert(strings_view(positional@) =~= Seq::<Seq<char>>::empty());
        while i < n
            invariant
                n == arguments@.len(),
                args == strings_view(arguments@),
                i <= n,
                scan_args(args, 0, initial_args(now_ms)) == scan_args(
                    args,
                    i as int,
                    ArgState {
                        scenario,
                        boot_id: boot_id@,
                        gateway_name: gateway_name@,
                        start_ms,
                        positional: strings_view(positional@),
                    },
                ),
            decreases n - i,
        {
            let a = arguments[i].as_str();
            let has_value = i + 1 < n;
            if str_eq(a, "--scenario") {
                if !has_value {
                    return Err(ConfigError::MissingValue(ValueOption::Scenario));
                }
                match Scenario::parse(arguments[i + 1].as_str()) {
                    Ok(s) => {
                        scenario = s;
                    },
                    Err(message) => {
                        return Err(ConfigError::UnknownScenario(message));
                    },
                }
                i = i + 2;
            } else if str_eq(a, "--boot-id") {
                if !has_value {
                    return Err(ConfigError::MissingValue(ValueOption::BootId));
                }
                boot_id = arguments[i + 1].clone();
                i = i + 2;
            } else if str_eq(a, "--gateway-name") {
                if !has_value {
                    return Err(ConfigError::MissingValue(ValueOption::GatewayName));
                }
                gateway_name = arguments[i + 1].clone();
                i = i + 2;
            } else if str_eq(a, "--start-ms") {
                if !has_value {
                    return Err(ConfigError::MissingValue(ValueOption::StartMs));
                }
                match parse_count(arguments[i + 1].as_str(), u64::MAX) {
                    Ok(v) => {
                        start_ms = v;
                    },
                    Err(k) => {
                        return Err(ConfigError::BadNumber(k));
                    },
                }
                i = i + 2;
            } else if str_eq(a, "--help") || str_eq(a, "-h") {
                return Ok(Invocation::Help);
            } else {
                let c = chars_of(a);
                if c.len() > 0 && c[0] == '-' {
                    return Err(ConfigError::UnknownOption(arguments[i].clone()));
                }
                let ghost before = positional@;
                positional.push(arguments[i].clone());
                assert(strings_view(positional@) =~= strings_view(before).push(args[i as int]));
                i = i + 1;
            }
        }
        let batches = if positional.len() > 2 {
            match parse_count(positional[2].as_str(), u64::MAX) {
                Ok(b) => b,
                Err(k) => {
                    return Err(ConfigError::BadNumber(k));
                },
            }
        } else {
            3
        };
        if positional.len() < 1 {
            return Err(ConfigError::MissingAddress);
        }
        if positional.len() < 2 {
            return Err(ConfigError::MissingToken);
        }
        let address = positional[0].clone();
        let enrollment_token = positional[1].clone();
        Ok(
            Invocation::Run(
                Config {
                    address,
                    enrollment_token,
                    batches,
                    scenario,
                    boot_id,
                    gateway_name,
                    start_ms,
                },
            ),
        )
    }
}

/// Why an HTTP response could not be read.
#[derive(Clone, Copy, Debug, PartialEq, Eq, Structural)]
pub enum ResponseError {
    NoHeaderTerminator,
    HeaderNotUtf8,
    NoStatus,
    BadStatus(NumberError),
}

/// The first position at or after `i` where `\r\n\r\n` starts.
pub open spec fn terminator_from(r: Seq<u8>, i: int) -> Option<int>
    decreases r.len() - i,
{
    if i < 0 || i + 4 > r.len() {
        None
    } else if r[i] == 13 && r[i + 1] == 10 && r[i + 2] == 13 && r[i + 3] == 10 {
        Some(i)
    } else {
        terminator_from(r, i + 1)
    }
}

/// The first line of a text, as `str::lines` yields it: up to the first
/// `\n`, without it and without one `\r` before it; the whole text where
/// there is no `\n`; nothing for an empty text.
pub open spec fn first_line(t: Seq<char>) -> Option<Seq<char>> {
    if t.len() == 0 {
        None
    } else {
        match first_char_from(t, '\n', 0) {
            Some(k) => {
                let l = t.take(k);
                if l.len() > 0 && l[l.len() - 1] == '\r' {
                    Some(l.drop_last())
                } else {
                    Some(l)
                }
            },
            None => Some(t),
        }
    }
}

/// The first position at or after `i` holding `c`.
pub open spec fn first_char_from(t: Seq<char>, c: char, i: int) -> Option<int>
    decreases t.len() - i,
{
    if i < 0 || i >= t.len() {
        None
    } else if t[i] == c {
        Some(i)
    } else {
        first_char_from(t, c, i + 1)
    }
}

/// The end of the word starting at `i`: the first whitespace at or after
/// it, or the end.
pub open spec fn word_end(t: Seq<char>, i: int) -> int
    decreases t.len() - i,
{
    if i < 0 || i >= t.len() || is_ws(t[i]) {
        i
    } else {
        word_end(t, i + 1)
    }
}

/// The second whitespace-separated word of a line.
pub open spec fn second_word(t: Seq<char>) -> Option<Seq<char>> {
    let a0 = skip_ws_from(t, 0);
    let e0 = word_end(t, a0);
    let a1 = skip_ws_from(t, e0);
    if a0 >= t.len() || a1 >= t.len() {
        None
    } else {
        Some(t.subrange(a1, word_end(t, a1)))
    }
}

/// An HTTP response's status code and body: the status is the second word
/// of the first header line, the body everything after the blank line that
/// ends the headers.
pub open spec fn response_spec(r: Seq<u8>) -> Result<(u16, Seq<u8>), ResponseError> {
    match terminator_from(r, 0) {
        None => Err(ResponseError::NoHeaderTerminator),
        Some(p) => {
            let h = r.take(p);
            if !valid_utf8(h) {
                Err(ResponseError::HeaderNotUtf8)
            } else {
                match first_line(decode_utf8(h)) {
                    None => Err(ResponseError::NoStatus),
                    Some(line) => match second_word(line) {
                        None => Err(ResponseError::NoStatus),
                        Some(w) => match count_parse(w, 65535) {
                            Ok(v) => Ok((v as u16, r.skip(p + 4))),
                            Err(k) => Err(ResponseError::BadStatus(k)),
                        },
                    },
                }
            }
        },
    }
}

/// Calls `std::str::from_utf8`: the text the bytes encode when they are
/// well-formed UTF-8, and nothing when they are not.
#[verifier::external_body]
fn utf8_text(bytes: &[u8]) -> (r: Option<String>)
    ensures
        match r {
            Some(t) => valid_utf8(bytes@) && t@ == decode_utf8(bytes@),
            None => !valid_utf8(bytes@),
        },
{
    match std::str::from_utf8(bytes) {
        Ok(t) => Some(t.to_owned()),
        Err(_) => None,
    }
}

fn find_terminator(r: &[u8]) -> (k: Option<usize>)
    ensures
        match k {
            Some(p) => terminator_from(r@, 0) == Some(p as int),
            None => terminator_from(r@, 0) is None,
        },
{
    let n = r.len();
    if n < 4 {
        return None;
    }
    let mut i: usize = 0;
    while i <= n - 4
        invariant
            n == r@.len(),
            n >= 4,
            terminator_from(r@, 0) == terminator_from(r@, i as int),
        decreases n - i,
    {
        if r[i] == 13 && r[i + 1] == 10 && r[i + 2] == 13 && r[i + 3] == 10 {
            return Some(i);
        }
        i = i + 1;
    }
    None
}

fn char_position(t: &[char], c: char) -> (k: Option<usize>)
    ensures
        match k {
            Some(p) => first_char_from(t@, c, 0) == Some(p as int) && p < t@.len(),
            None => first_char_from(t@, c, 0) is None,
        },
{
    let mut i: usize = 0;
    while i < t.len()
        invariant
            i <= t@.len(),
            first_char_from(t@, c, 0) == first_char_from(t@, c, i as int),
        decreases t@.len() - i,
    {
        if t[i] == c {
            return Some(i);
        }
        i = i + 1;
    }
    None
}

fn skip_spaces(t: &[char], i: usize) -> (j: usize)
    requires
        i <= t@.len(),
    ensures
        j == skip_ws_from(t@, i as int),
        i <= j <= t@.len(),
{
    let mut j = i;
    while j < t.len() && is_ws_exec(t[j])
        invariant
            i <= j <= t@.len(),
            skip_ws_from(t@, i as int) == skip_ws_from(t@, j as int),
        decreases t@.len() - j,
    {
        j = j + 1;
    }
    j
}

fn skip_word(t: &[char], i: usize) -> (j: usize)
    requires
        i <= t@.len(),
    ensures
        j == word_end(t@, i as int),
        i <= j <= t@.len(),
{
    let mut j = i;
    while j < t.len() && !is_ws_exec(t[j])
        invariant
            i <= j <= t@.len(),
            word_end(t@, i as int) == word_end(t@, j as int),
        decreases t@.len() - j,
    {
        j = j + 1;
    }
    j
}

/// Reads an HTTP response: its status code and its body.
pub fn parse_response(response: &[u8]) -> (r: Result<(u16, Vec<u8>), ResponseError>)
    ensures
        match r {
            Ok((status, body)) => response_spec(response@) == Ok::<
                (u16, Seq<u8>),
                ResponseError,
            >((status, body@)),
            Err(e) => response_spec(response@) == Err::<(u16, Seq<u8>), ResponseError>(e),
        },
{
    let p = match find_terminator(response) {
        Some(p) => p,
        None => {
            return Err(ResponseError::NoHeaderTerminator);
        },
    };
    proof {
        assert(p + 4 <= response@.len()) by {
            lemma_terminator_in_range(response@, 0);
        }
    }
    let total = response.len();
    let body_start = p + 4;
    let head = slice_bytes(response, 0, p);
    assert(head@ =~= response@.take(p as int));
    let text = match utf8_text(head.as_slice()) {
        Some(t) => t,
        None => {
            return Err(ResponseError::HeaderNotUtf8);
        },
    };
    let t = chars_of(text.as_str());
    if t.len() == 0 {
        return Err(ResponseError::NoStatus);
    }
    let line = match char_position(t.as_slice(), '\n') {
        Some(k) => {
            let l = slice_range(t.as_slice(), 0, k);
            assert(l@ =~= t@.take(k as int));
            if l.len() > 0 && l[l.len() - 1] == '\r' {
                let m = slice_range(l.as_slice(), 0, l.len() - 1);
                assert(m@ =~= l@.drop_last());
                m
            } else {
                l
            }
        },
        None => t,
    };
    let a0 = skip_spaces(line.as_slice(), 0);
    let e0 = skip_word(line.as_slice(), a0);
    let a1 = skip_spaces(line.as_slice(), e0);
    if a0 >= line.len() || a1 >= line.len() {
        return Err(ResponseError::NoStatus);
    }
    let e1 = skip_word(line.as_slice(), a1);
    let word = string_from_chars(slice_range(line.as_slice(), a1, e1).as_slice());
    match parse_count(word.as_str(), 65535) {
        Ok(v) => {
            let body = slice_bytes(response, body_start, total);
            assert(body@ =~= response@.skip(p as int + 4));
            Ok((v as u16, body))
        },
        Err(k) => Err(ResponseError::BadStatus(k)),
    }
}

proof fn lemma_terminator_in_range(r: Seq<u8>, i: int)
    ensures
        match terminator_from(r, i) {
            Some(p) => i <= p && p + 4 <= r.len(),
            None => true,
        },
    decreases r.len() - i,
{
    if !(i < 0 || i + 4 > r.len()) {
        lemma_terminator_in_range(r, i + 1);
    }
}

/// The bytes of `r` from `a` up to `b`.
pub fn slice_bytes(r: &[u8], a: usize, b: usize) -> (out: Vec<u8>)
    requires
        a <= b <= r@.len(),
    ensures
        out@ == r@.subrange(a as int, b as int),
{
    let mut out: Vec<u8> = Vec::new();
    let mut i = a;
    while i < b
        invariant
            a <= i <= b <= r@.len(),
            out@ == r@.subrange(a as int, i as int),
        decreases b - i,
    {
        out.push(r[i]);
        i = i + 1;
        assert(out@ =~= r@.subrange(a as int, i as int));
    }
    out
}

/// The BitTorrent handshake's protocol name, in ASCII.
pub open spec fn handshake_name() -> Seq<u8> {
    seq![66u8, 105, 116, 84, 111, 114, 114, 101, 110, 116, 32, 112, 114, 111, 116, 111, 99, 111, 108]
}

/// Byte `i` of the synthetic packet: an IPv4 header (length 108, TTL 64,
/// TCP) from `client` to `remote`, a TCP header from port 51000 to port
/// 51413 (data offset 5, PSH and ACK), and the start of a BitTorrent
/// handshake; every other byte zero.
pub open spec fn probe_packet_byte(client: Seq<u8>, remote: Seq<u8>, i: int) -> u8 {
    if i == 0 {
        0x45
    } else if i == 3 {
        108
    } else if i == 8 {
        64
    } else if i == 9 {
        6
    } else if 12 <= i < 16 {
        client[i - 12]
    } else if 16 <= i < 20 {
        remote[i - 16]
    } else if i == 20 {
        0xc7
    } else if i == 21 {
        0x38
    } else if i == 22 {
        0xc8
    } else if i == 23 {
        0xd5
    } else if i == 32 {
        0x50
    } else if i == 33 {
        0x18
    } else if i == 40 {
        19
    } else if 41 <= i < 60 {
        handshake_name()[i - 41]
    } else {
        0
    }
}

/// The 108-byte packet the load generator samples so that packet
/// inspection finds a BitTorrent handshake between two IPv4 addresses.
pub fn bittorrent_probe_packet(client_ip: &[u8], remote_ip: &[u8]) -> (r: Vec<u8>)
    requires
        client_ip@.len() == 4,
        remote_ip@.len() == 4,
    ensures
        r@.len() == 108,
        forall|i: int| 0 <= i < 108 ==> r@[i] == probe_packet_byte(client_ip@, remote_ip@, i),
{
    let name: [u8; 19] = [66, 105, 116, 84, 111, 114, 114, 101, 110, 116, 32, 112, 114, 111, 116, 111, 99, 111, 108];
    assert(name@ =~= handshake_name());
    let mut r: Vec<u8> = Vec::new();
    let mut i: usize = 0;
    while i < 108
        invariant
            i <= 108,
            name@ == handshake_name(),
            client_ip@.len() == 4,
            remote_ip@.len() == 4,
            r@.len() == i,
            forall|k: int| 0 <= k < i ==> r@[k] == probe_packet_byte(client_ip@, remote_ip@, k),
        decreases 108 - i,
    {
        let b: u8 = if i == 0 {
            0x45
        } else if i == 3 {
            108
        } else if i == 8 {
            64
        } else if i == 9 {
            6
        } else if 12 <= i && i < 16 {
            client_ip[i - 12]
        } else if 16 <= i && i < 20 {
            remote_ip[i - 16]
        } else if i == 20 {
            0xc7
        } else if i == 21 {
            0x38
        } else if i == 22 {
            0xc8
        } else if i == 23 {
            0xd5
        } else if i == 32 {
            0x50
        } else if i == 33 {
            0x18
        } else if i == 40 {
            19
        } else if 41 <= i && i < 60 {
            name[i - 41]
        } else {
            0
        };
        r.push(b);
        i = i + 1;
    }
    r
}

/// The flow the synthetic sample is taken from: the first one to the
/// BitTorrent port 51413.
pub fn bittorrent_flow(flows: &Vec<TelemetryFlow>) -> (r: Option<usize>)
    ensures
        match r {
            Some(k) => k < flows@.len() && flows@[k as int].remote_port == 51_413 && forall|j: int|
                0 <= j < k ==> flows@[j].remote_port != 51_413,
            None => forall|j: int| 0 <= j < flows@.len() ==> flows@[j].remote_port != 51_413,
        },
{
    let mut i: usize = 0;
    while i < flows.len()
        invariant
            i <= flows@.len(),
            forall|j: int| 0 <= j < i ==> flows@[j].remote_port != 51_413,
        decreases flows@.len() - i,
    {
        if flows[i].remote_port == 51_413 {
            return Some(i);
        }
        i = i + 1;
    }
    None
}

} // verus!
