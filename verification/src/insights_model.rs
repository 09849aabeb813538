//! Shared vocabulary of the insight detectors.

use vstd::prelude::*;

use crate::text::{hex_byte, push_hex_byte, string_from_chars};

verus! {

/// The area an insight belongs to.
#[derive(Clone, Copy, Debug, PartialEq, Eq)]
pub enum InsightCategory {
    Device,
    Traffic,
    Classification,
    Dns,
    Protocol,
    Capture,
    Destination,
    NetworkQuality,
    Connectivity,
    Routing,
}

pub open spec fn insight_category_name(c: InsightCategory) -> Seq<char> {
    match c {
        InsightCategory::Device => "device"@,
        InsightCategory::Traffic => "traffic"@,
        InsightCategory::Classification => "classification"@,
        InsightCategory::Dns => "dns"@,
        InsightCategory::Protocol => "protocol"@,
        InsightCategory::Capture => "capture"@,
        InsightCategory::Destination => "destination"@,
        InsightCategory::NetworkQuality => "network_quality"@,
        InsightCategory::Connectivity => "connectivity"@,
        InsightCategory::Routing => "routing"@,
    }
}

/// The length and first letter of a category's name, which no two names
/// share.
pub open spec fn category_name_mark(c: InsightCategory) -> (int, char) {
    match c {
        InsightCategory::Device => (6, 'd'),
        InsightCategory::Traffic => (7, 't'),
        InsightCategory::Classification => (14, 'c'),
        InsightCategory::Dns => (3, 'd'),
        InsightCategory::Protocol => (8, 'p'),
        InsightCategory::Capture => (7, 'c'),
        InsightCategory::Destination => (11, 'd'),
        InsightCategory::NetworkQuality => (15, 'n'),
        InsightCategory::Connectivity => (12, 'c'),
        InsightCategory::Routing => (7, 'r'),
    }
}

proof fn lemma_category_name_mark(c: InsightCategory)
    ensures
        insight_category_name(c).len() == category_name_mark(c).0,
        insight_category_name(c)[0] == category_name_mark(c).1,
{
    reveal_strlit("device");
    reveal_strlit("traffic");
    reveal_strlit("classification");
    reveal_strlit("dns");
    reveal_strlit("protocol");
    reveal_strlit("capture");
    reveal_strlit("destination");
    reveal_strlit("network_quality");
    reveal_strlit("connectivity");
    reveal_strlit("routing");
}

/// No two categories share a name: the wire name tells the category.
pub proof fn lemma_category_names_distinct(a: InsightCategory, b: InsightCategory)
    ensures
        insight_category_name(a) == insight_category_name(b) ==> a == b,
{
    lemma_category_name_mark(a);
    lemma_category_name_mark(b);
    if insight_category_name(a) == insight_category_name(b) {
        assert(category_name_mark(a) == category_name_mark(b));
    }
}

impl InsightCategory {
    /// The snake-case wire name of the category.
    pub fn as_str(&self) -> (s: &'static str)
        ensures
            s@ == insight_category_name(*self),
    {
        match self {
            InsightCategory::Device => "device",
            InsightCategory::Traffic => "traffic",
            InsightCategory::Classification => "classification",
            InsightCategory::Dns => "dns",
            InsightCategory::Protocol => "protocol",
            InsightCategory::Capture => "capture",
            InsightCategory::Destination => "destination",
            InsightCategory::NetworkQuality => "network_quality",
            InsightCategory::Connectivity => "connectivity",
            InsightCategory::Routing => "routing",
        }
    }
}


/// How urgent an insight is.
#[derive(Clone, Copy, Debug, PartialEq, Eq)]
pub enum InsightSeverity {
    Info,
    Notice,
    Warning,
}

pub open spec fn insight_severity_name(s: InsightSeverity) -> Seq<char> {
    match s {
        InsightSeverity::Info => "info"@,
        InsightSeverity::Notice => "notice"@,
        InsightSeverity::Warning => "warning"@,
    }
}

impl InsightSeverity {
    /// The snake-case wire name of the severity.
    pub fn as_str(&self) -> (s: &'static str)
        ensures
            s@ == insight_severity_name(*self),
    {
        match self {
            InsightSeverity::Info => "info",
            InsightSeverity::Notice => "notice",
            InsightSeverity::Warning => "warning",
        }
    }
}

/// The client an insight is about, when there is one.
#[derive(Clone, Debug, PartialEq, Eq)]
pub struct AffectedClient {
    pub id: Option<i64>,
    pub name: String,
    pub mac: Option<String>,
    pub ip: Option<String>,
}

/// Time range and size limit of an insight query.
#[derive(Clone, Copy, Debug)]
pub struct InsightWindow {
    pub from: u64,
    pub to: u64,
    pub limit: u32,
}

/// Colon-separated lower-case hexadecimal form of a six-byte MAC address.
pub open spec fn mac_text(bytes: Seq<u8>) -> Seq<char>
    recommends
        bytes.len() == 6,
{
    hex_byte(bytes[0]) + seq![':'] + hex_byte(bytes[1]) + seq![':'] + hex_byte(bytes[2]) + seq![
        ':',
    ] + hex_byte(bytes[3]) + seq![':'] + hex_byte(bytes[4]) + seq![':'] + hex_byte(bytes[5])
}

/// What `format_mac` prints: the MAC text for six bytes, `unknown` otherwise.
pub open spec fn format_mac_spec(bytes: Seq<u8>) -> Seq<char> {
    if bytes.len() == 6 {
        mac_text(bytes)
    } else {
        "unknown"@
    }
}

/// Formats a hardware address as `aa:bb:cc:dd:ee:ff`, or `unknown` when it is
/// not six bytes long.
pub fn format_mac(bytes: &[u8]) -> (s: String)
    ensures
        s@ == format_mac_spec(bytes@),
{
    if bytes.len() != 6 {
        return "unknown".to_owned();
    }
    let mut out: Vec<char> = Vec::new();
    push_hex_byte(&mut out, bytes[0]);
    let mut i: usize = 1;
    while i < 6
        invariant
            1 <= i <= 6,
            bytes@.len() == 6,
            out@ == mac_prefix_text(bytes@, i as int),
        decreases 6 - i,
    {
        out.push(':');
        push_hex_byte(&mut out, bytes[i]);
        i = i + 1;
    }
    proof {
        lemma_mac_prefix_text_full(bytes@);
    }
    string_from_chars(out.as_slice())
}

/// The text of the first `n` bytes of a MAC address.
pub open spec fn mac_prefix_text(bytes: Seq<u8>, n: int) -> Seq<char>
    decreases n,
{
    if n <= 1 {
        hex_byte(bytes[0])
    } else {
        mac_prefix_text(bytes, n - 1) + seq![':'] + hex_byte(bytes[n - 1])
    }
}

proof fn lemma_mac_prefix_text_full(bytes: Seq<u8>)
    requires
        bytes.len() == 6,
    ensures
        mac_prefix_text(bytes, 6) == mac_text(bytes),
{
    reveal_with_fuel(mac_prefix_text, 6);
    assert(mac_prefix_text(bytes, 6) =~= mac_text(bytes));
}

/// Converts an unsigned counter to a signed one, saturating at `i64::MAX`.
pub fn to_i64(value: u64) -> (r: i64)
    ensures
        r == (if value <= i64::MAX { value as int } else { i64::MAX as int }),
{
    if value <= i64::MAX as u64 {
        value as i64
    } else {
        i64::MAX
    }
}

/// Converts a signed counter to an unsigned one, clamping negatives to zero.
pub fn to_u64(value: i64) -> (r: u64)
    ensures
        r == (if value < 0 { 0 } else { value as int }),
{
    if value < 0 {
        0
    } else {
        value as u64
    }
}

} // verus!
