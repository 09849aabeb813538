//! Reading the query API's parameters: pages, time windows, traffic
//! filters, flow sorting and cursors, and the overview's gateway status and
//! capture warning.

use vstd::prelude::*;

use crate::classifier::EntityMetadata;
use crate::insights_model::InsightWindow;
use crate::realtime::{FlowScope, GatewayHealthSnapshot, NatType, PathType};
use crate::text::{
    push_str, count_parse, parse_count, opt_string_view, digit_char, first_match_from,
    chars_of, decimal, lower_chars, lower_seq, push_decimal, slice_range, split_once_chars,
    split_once_spec, str_eq, string_from_chars, trim_chars, trim_seq,
};

verus! {

/// Default page size.
pub const DEFAULT_PAGE_SIZE: u32 = 50;

/// Largest page size.
pub const MAX_PAGE_SIZE: u32 = 200;

/// Largest page offset.
pub const MAX_OFFSET: u64 = 1_000_000;

/// One day in milliseconds.
pub const DAY_MS: u64 = 86_400_000;

/// Longest insight window: thirty days.
pub const MAX_INSIGHT_WINDOW_MS: u64 = 2_592_000_000;

/// How long a gateway may stay silent before it counts as offline.
pub const DEFAULT_GATEWAY_OFFLINE_AFTER_MS: u64 = 30_000;

/// A refused query: HTTP status, error code and message.
#[derive(Clone, Copy, Debug, PartialEq, Eq)]
pub struct ApiError {
    pub status: u16,
    pub code: &'static str,
    pub message: &'static str,
}

pub open spec fn bad_request(code: &'static str, message: &'static str) -> ApiError {
    ApiError { status: 400, code, message }
}

pub const LIMIT_RULE: &'static str = "limit must be between 1 and 200";

pub const OFFSET_RULE: &'static str = "offset must not exceed 1000000";

pub const RANGE_RULE: &'static str = "insight range must be ordered and no longer than 30 days";

/// One page of a listing.
#[derive(Clone, Copy, Debug, PartialEq, Eq)]
pub struct Page {
    pub limit: u32,
    pub offset: u64,
}

impl Page {
    /// Reads `limit` (default 50, 1 to 200) and `offset` (default 0, at most
    /// one million).
    pub fn parse(limit: Option<u32>, offset: Option<u64>) -> (r: Result<Page, ApiError>)
        ensures
            ({
                let l = match limit {
                    Some(l) => l,
                    None => DEFAULT_PAGE_SIZE,
                };
                let o = match offset {
                    Some(o) => o,
                    None => 0,
                };
                &&& (l == 0 || l > MAX_PAGE_SIZE) ==> r == Err::<Page, ApiError>(
                    bad_request("invalid_pagination", LIMIT_RULE),
                )
                &&& (1 <= l <= MAX_PAGE_SIZE && o > MAX_OFFSET) ==> r == Err::<Page, ApiError>(
                    bad_request("invalid_pagination", OFFSET_RULE),
                )
                &&& (1 <= l <= MAX_PAGE_SIZE && o <= MAX_OFFSET) ==> r == Ok::<Page, ApiError>(
                    Page { limit: l, offset: o },
                )
            }),
    {
        let limit = match limit {
            Some(l) => l,
            None => DEFAULT_PAGE_SIZE,
        };
        let offset = match offset {
            Some(o) => o,
            None => 0,
        };
        if limit == 0 || limit > MAX_PAGE_SIZE {
            return Err(ApiError { status: 400, code: "invalid_pagination", message: LIMIT_RULE });
        }
        if offset > MAX_OFFSET {
            return Err(ApiError { status: 400, code: "invalid_pagination", message: OFFSET_RULE });
        }
        Ok(Page { limit, offset })
    }
}

/// Reads an insight window: `to` defaults to now, `from` to a day before
/// `to`, `limit` to 50; the window must be ordered and at most thirty days,
/// and the limit between 1 and 200.
pub fn parse_insight_window(from: Option<u64>, to: Option<u64>, limit: Option<u32>, now_ms: u64) -> (r:
    Result<InsightWindow, ApiError>)
    ensures
        ({
            let t = match to {
                Some(t) => t,
                None => now_ms,
            };
            let f = match from {
                Some(f) => f as int,
                None => if t >= DAY_MS {
                    t - DAY_MS
                } else {
                    0
                },
            };
            let l = match limit {
                Some(l) => l,
                None => DEFAULT_PAGE_SIZE,
            };
            &&& (f >= t || t - f > MAX_INSIGHT_WINDOW_MS) ==> r == Err::<InsightWindow, ApiError>(
                bad_request("invalid_time_range", RANGE_RULE),
            )
            &&& (f < t && t - f <= MAX_INSIGHT_WINDOW_MS && (l == 0 || l > MAX_PAGE_SIZE)) ==> r
                == Err::<InsightWindow, ApiError>(bad_request("invalid_pagination", LIMIT_RULE))
            &&& (f < t && t - f <= MAX_INSIGHT_WINDOW_MS && 1 <= l <= MAX_PAGE_SIZE) ==> (r matches Ok(
                w,
            ) && w.from == f && w.to == t && w.limit == l)
        }),
{
    let to = match to {
        Some(t) => t,
        None => now_ms,
    };
    let from = match from {
        Some(f) => f,
        None => to.saturating_sub(DAY_MS),
    };
    let limit = match limit {
        Some(l) => l,
        None => DEFAULT_PAGE_SIZE,
    };
    if from >= to || to - from > MAX_INSIGHT_WINDOW_MS {
        return Err(ApiError { status: 400, code: "invalid_time_range", message: RANGE_RULE });
    }
    if limit == 0 || limit > MAX_PAGE_SIZE {
        return Err(ApiError { status: 400, code: "invalid_pagination", message: LIMIT_RULE });
    }
    Ok(InsightWindow { from, to, limit })
}

/// Direction a traffic query selects.
#[derive(Clone, Copy, Debug, PartialEq, Eq, Structural)]
pub enum TrafficDirection {
    Upload,
    Download,
}

pub const SCOPE_RULE: &'static str = "scope must be one of internet, internal, tunnel, or all";

pub const DIRECTION_RULE: &'static str = "direction must be one of both, upload, or download";

/// The scope a `scope` parameter selects, case-insensitively: `all` for
/// every scope.
pub open spec fn traffic_scope_spec(value: Seq<char>) -> Result<Option<FlowScope>, &'static str> {
    let v = lower_seq(value);
    if v == "all"@ {
        Ok(None)
    } else if v == "internet"@ {
        Ok(Some(FlowScope::Internet))
    } else if v == "internal"@ {
        Ok(Some(FlowScope::Internal))
    } else if v == "tunnel"@ {
        Ok(Some(FlowScope::Tunnel))
    } else {
        Err(SCOPE_RULE)
    }
}

fn lowered(value: &str) -> (r: String)
    ensures
        r@ == lower_seq(value@),
{
    let chars = chars_of(value);
    let low = lower_chars(chars.as_slice());
    string_from_chars(low.as_slice())
}

pub fn traffic_scope(value: &str) -> (r: Result<Option<FlowScope>, &'static str>)
    ensures
        r == traffic_scope_spec(value@),
{
    let v = lowered(value);
    if str_eq(v.as_str(), "all") {
        Ok(None)
    } else if str_eq(v.as_str(), "internet") {
        Ok(Some(FlowScope::Internet))
    } else if str_eq(v.as_str(), "internal") {
        Ok(Some(FlowScope::Internal))
    } else if str_eq(v.as_str(), "tunnel") {
        Ok(Some(FlowScope::Tunnel))
    } else {
        Err(SCOPE_RULE)
    }
}

/// The direction a `direction` parameter selects, case-insensitively:
/// `both` for either.
pub open spec fn traffic_direction_spec(value: Seq<char>) -> Result<Option<TrafficDirection>, &'static str> {
    let v = lower_seq(value);
    if v == "both"@ {
        Ok(None)
    } else if v == "upload"@ {
        Ok(Some(TrafficDirection::Upload))
    } else if v == "download"@ {
        Ok(Some(TrafficDirection::Download))
    } else {
        Err(DIRECTION_RULE)
    }
}

pub fn traffic_direction(value: &str) -> (r: Result<Option<TrafficDirection>, &'static str>)
    ensures
        r == traffic_direction_spec(value@),
{
    let v = lowered(value);
    if str_eq(v.as_str(), "both") {
        Ok(None)
    } else if str_eq(v.as_str(), "upload") {
        Ok(Some(TrafficDirection::Upload))
    } else if str_eq(v.as_str(), "download") {
        Ok(Some(TrafficDirection::Download))
    } else {
        Err(DIRECTION_RULE)
    }
}

/// Name of a selected scope; `all` when none is selected (or the scope is
/// unknown).
pub fn query_scope_name(value: Option<FlowScope>) -> (r: &'static str)
    ensures
        r@ == match value {
            Some(FlowScope::Internet) => "internet"@,
            Some(FlowScope::Internal) => "internal"@,
            Some(FlowScope::Tunnel) => "tunnel"@,
            _ => "all"@,
        },
{
    match value {
        Some(FlowScope::Internet) => "internet",
        Some(FlowScope::Internal) => "internal",
        Some(FlowScope::Tunnel) => "tunnel",
        _ => "all",
    }
}

/// Name of a selected direction; `both` when none is selected.
pub fn query_direction_name(value: Option<TrafficDirection>) -> (r: &'static str)
    ensures
        r@ == match value {
            Some(TrafficDirection::Upload) => "upload"@,
            Some(TrafficDirection::Download) => "download"@,
            None => "both"@,
        },
{
    match value {
        Some(TrafficDirection::Upload) => "upload",
        Some(TrafficDirection::Download) => "download",
        None => "both",
    }
}

/// An optional text parameter, trimmed; absent when nothing is left.
pub fn non_empty(value: Option<&str>) -> (r: Option<String>)
    ensures
        match value {
            Some(v) => if trim_seq(v@).len() > 0 {
                r matches Some(t) && t@ == trim_seq(v@)
            } else {
                r is None
            },
            None => r is None,
        },
{
    match value {
        Some(v) => {
            let chars = chars_of(v);
            let t = trim_chars(chars.as_slice());
            if t.len() == 0 {
                None
            } else {
                Some(string_from_chars(t.as_slice()))
            }
        },
        None => None,
    }
}

pub open spec fn identifier_byte(b: u8) -> bool {
    (97 <= b <= 122) || (48 <= b <= 57) || b == 45 || b == 95
}

/// An identifier of 1 to 128 bytes: lower-case ASCII letters, digits, `-`
/// and `_`.
pub open spec fn valid_identifier_spec(value: Seq<u8>) -> bool {
    &&& 0 < value.len() <= 128
    &&& forall|i: int| 0 <= i < value.len() ==> identifier_byte(#[trigger] value[i])
}

pub fn valid_identifier(value: &str) -> (r: bool)
    ensures
        r == valid_identifier_spec(vstd::utf8::encode_utf8(value@)),
{
    let bytes = value.as_bytes();
    if bytes.len() == 0 || bytes.len() > 128 {
        return false;
    }
    let mut i: usize = 0;
    while i < bytes.len()
        invariant
            i <= bytes@.len(),
            bytes@ == vstd::utf8::encode_utf8(value@),
            forall|k: int| 0 <= k < i ==> identifier_byte(#[trigger] bytes@[k]),
        decreases bytes@.len() - i,
    {
        let b = bytes[i];
        if !((97 <= b && b <= 122) || (48 <= b && b <= 57) || b == 45 || b == 95) {
            assert(!identifier_byte(bytes@[i as int]));
            return false;
        }
        i = i + 1;
    }
    true
}

/// The display name of an entity, or the fallback when there is no metadata.
pub fn metadata_name(metadata: Option<&EntityMetadata>, fallback: &str) -> (r: String)
    ensures
        r@ == match metadata {
            Some(m) => m.name@,
            None => fallback@,
        },
{
    match metadata {
        Some(m) => m.name.clone(),
        None => fallback.to_owned(),
    }
}
/// Traffic breakdown query per client.
pub const BREAKDOWN_BY_CLIENT_SQL: &'static str = "SELECT CAST(d.id AS TEXT), COALESCE(d.display_name, d.hostname, ''), d.mac,
                    SUM(t.upload_bytes), SUM(t.download_bytes), SUM(t.packets), SUM(t.flow_count),
                    MAX(t.timestamp)
             FROM traffic_scope_minute t JOIN devices d ON d.id = t.device_id
             WHERE t.timestamp >= ?1 AND t.timestamp < ?2
               AND (?3 IS NULL OR t.scope = ?3) AND (?4 IS NULL OR t.direction = ?4)
             GROUP BY d.id ORDER BY SUM(t.upload_bytes + t.download_bytes) DESC
             LIMIT ?5 OFFSET ?6";

/// Traffic breakdown query per application.
pub const BREAKDOWN_BY_APPLICATION_SQL: &'static str = "SELECT t.application_id, t.application_id, NULL,
                    SUM(upload_bytes), SUM(download_bytes), SUM(packets), SUM(flow_count),
                    MAX(timestamp)
             FROM traffic_scope_minute t WHERE timestamp >= ?1 AND timestamp < ?2
               AND (?3 IS NULL OR t.scope = ?3) AND (?4 IS NULL OR t.direction = ?4)
             GROUP BY t.application_id ORDER BY SUM(upload_bytes + download_bytes) DESC
             LIMIT ?5 OFFSET ?6";

/// Traffic breakdown query per category.
pub const BREAKDOWN_BY_CATEGORY_SQL: &'static str = "SELECT t.category_id, t.category_id, NULL,
                    SUM(upload_bytes), SUM(download_bytes), SUM(packets), SUM(flow_count),
                    MAX(timestamp)
             FROM traffic_scope_minute t WHERE timestamp >= ?1 AND timestamp < ?2
               AND (?3 IS NULL OR t.scope = ?3) AND (?4 IS NULL OR t.direction = ?4)
             GROUP BY t.category_id ORDER BY SUM(upload_bytes + download_bytes) DESC
             LIMIT ?5 OFFSET ?6";

/// Traffic breakdown query per application-layer protocol.
pub const BREAKDOWN_BY_L7_PROTOCOL_SQL: &'static str = "SELECT COALESCE(t.protocol_id, 'unknown'), COALESCE(t.protocol_id, 'unknown'), NULL,
                    SUM(upload_bytes), SUM(download_bytes), SUM(packets), SUM(flow_count),
                    MAX(timestamp)
             FROM traffic_scope_minute t WHERE timestamp >= ?1 AND timestamp < ?2
               AND (?3 IS NULL OR t.scope = ?3) AND (?4 IS NULL OR t.direction = ?4)
             GROUP BY COALESCE(t.protocol_id, 'unknown') ORDER BY SUM(upload_bytes + download_bytes) DESC
             LIMIT ?5 OFFSET ?6";

/// Traffic breakdown query per transport protocol.
pub const BREAKDOWN_BY_L4_PROTOCOL_SQL: &'static str = "SELECT CASE t.protocol WHEN 6 THEN 'tcp' WHEN 17 THEN 'udp' WHEN 1 THEN 'icmp' WHEN 58 THEN 'icmpv6' ELSE CAST(t.protocol AS TEXT) END,
                    CASE t.protocol WHEN 6 THEN 'TCP' WHEN 17 THEN 'UDP' WHEN 1 THEN 'ICMP' WHEN 58 THEN 'ICMPv6' ELSE 'IP ' || CAST(t.protocol AS TEXT) END,
                    NULL,
                    SUM(upload_bytes), SUM(download_bytes), SUM(packets), SUM(flow_count),
                    MAX(timestamp)
             FROM traffic_scope_minute t WHERE timestamp >= ?1 AND timestamp < ?2
               AND (?3 IS NULL OR t.scope = ?3) AND (?4 IS NULL OR t.direction = ?4)
             GROUP BY t.protocol ORDER BY SUM(upload_bytes + download_bytes) DESC
             LIMIT ?5 OFFSET ?6";

/// Traffic breakdown query for all traffic together.
pub const BREAKDOWN_TOTAL_SQL: &'static str = "SELECT 'total', 'All traffic', NULL,
                    COALESCE(SUM(upload_bytes), 0), COALESCE(SUM(download_bytes), 0),
                    COALESCE(SUM(packets), 0), COALESCE(SUM(flow_count), 0), MAX(timestamp)
             FROM traffic_scope_minute WHERE timestamp >= ?1 AND timestamp < ?2
               AND (?3 IS NULL OR scope = ?3) AND (?4 IS NULL OR direction = ?4)";

/// The breakdown query for a `group_by` value, and whether it groups rows:
/// by client, application, category, application-layer protocol
/// (`protocol_l7` or `protocol`), transport protocol, or else all traffic
/// together.
pub open spec fn traffic_breakdown_spec(group_by: Seq<char>) -> (Seq<char>, bool) {
    if group_by == "client"@ {
        (BREAKDOWN_BY_CLIENT_SQL@, true)
    } else if group_by == "application"@ {
        (BREAKDOWN_BY_APPLICATION_SQL@, true)
    } else if group_by == "category"@ {
        (BREAKDOWN_BY_CATEGORY_SQL@, true)
    } else if group_by == "protocol_l7"@ || group_by == "protocol"@ {
        (BREAKDOWN_BY_L7_PROTOCOL_SQL@, true)
    } else if group_by == "protocol_l4"@ {
        (BREAKDOWN_BY_L4_PROTOCOL_SQL@, true)
    } else {
        (BREAKDOWN_TOTAL_SQL@, false)
    }
}

pub fn traffic_breakdown_query(group_by: &str) -> (r: (&'static str, bool))
    ensures
        (r.0@, r.1) == traffic_breakdown_spec(group_by@),
{
    if str_eq(group_by, "client") {
        (BREAKDOWN_BY_CLIENT_SQL, true)
    } else if str_eq(group_by, "application") {
        (BREAKDOWN_BY_APPLICATION_SQL, true)
    } else if str_eq(group_by, "category") {
        (BREAKDOWN_BY_CATEGORY_SQL, true)
    } else if str_eq(group_by, "protocol_l7") || str_eq(group_by, "protocol") {
        (BREAKDOWN_BY_L7_PROTOCOL_SQL, true)
    } else if str_eq(group_by, "protocol_l4") {
        (BREAKDOWN_BY_L4_PROTOCOL_SQL, true)
    } else {
        (BREAKDOWN_TOTAL_SQL, false)
    }
}

pub open spec fn is_digit_char(c: char) -> bool {
    '0' <= c && c <= '9'
}

pub open spec fn all_digits(s: Seq<char>) -> bool {
    forall|i: int| 0 <= i < s.len() ==> is_digit_char(#[trigger] s[i])
}

/// Value of a string of decimal digits.
pub open spec fn digits_value(s: Seq<char>) -> nat
    decreases s.len(),
{
    if s.len() == 0 {
        0
    } else {
        digits_value(s.drop_last()) * 10 + (s.last() as nat - 48) as nat
    }
}

/// A signed decimal integer as `str::parse::<i64>` reads it: an optional
/// `+` or `-`, then one or more ASCII digits, within range.
pub open spec fn parse_i64_spec(s: Seq<char>) -> Option<i64> {
    let signed = s.len() > 0 && (s[0] == '+' || s[0] == '-');
    let body = if signed {
        s.skip(1)
    } else {
        s
    };
    let v: int = if signed && s[0] == '-' {
        -digits_value(body)
    } else {
        digits_value(body) as int
    };
    if body.len() > 0 && all_digits(body) && i64::MIN <= v <= i64::MAX {
        Some(v as i64)
    } else {
        None
    }
}

/// An unsigned decimal integer as `str::parse::<u64>` reads it: an optional
/// `+`, then one or more ASCII digits, within range.
pub open spec fn parse_u64_spec(s: Seq<char>) -> Option<u64> {
    let body = if s.len() > 0 && s[0] == '+' {
        s.skip(1)
    } else {
        s
    };
    if body.len() > 0 && all_digits(body) && digits_value(body) <= u64::MAX {
        Some(digits_value(body) as u64)
    } else {
        None
    }
}

pub proof fn lemma_digits_value_prefix(s: Seq<char>, i: int)
    requires
        0 <= i <= s.len(),
        all_digits(s),
    ensures
        digits_value(s.take(i)) <= digits_value(s),
    decreases s.len() - i,
{
    if i < s.len() {
        lemma_digits_value_prefix(s, i + 1);
        assert(s.take(i + 1).drop_last() =~= s.take(i));
        assert(is_digit_char(s[i]));
    } else {
        assert(s.take(i) =~= s);
    }
}

/// Value of the digits of `s`, or `None` when `s` is empty, holds a
/// non-digit, or exceeds `bound`.
pub(crate) fn digits_up_to(s: &[char], bound: u64) -> (r: Option<u64>)
    requires
        bound >= 9,
    ensures
        match r {
            Some(v) => s@.len() > 0 && all_digits(s@) && v == digits_value(s@) && v <= bound,
            None => !(s@.len() > 0 && all_digits(s@) && digits_value(s@) <= bound),
        },
{
    if s.len() == 0 {
        return None;
    }
    let mut v: u64 = 0;
    let mut i: usize = 0;
    while i < s.len()
        invariant
            i <= s@.len(),
            forall|k: int| 0 <= k < i ==> is_digit_char(#[trigger] s@[k]),
            v == digits_value(s@.take(i as int)),
            v <= bound,
            bound >= 9,
        decreases s@.len() - i,
    {
        let c = s[i];
        if !('0' <= c && c <= '9') {
            assert(!is_digit_char(s@[i as int]));
            return None;
        }
        assert(s@.take(i as int + 1).drop_last() =~= s@.take(i as int));
        let d = (c as u32 - 48) as u64;
        if v > (bound - d) / 10 {
            proof {
                assert(digits_value(s@.take(i as int + 1)) == v * 10 + d) by {
                    assert(s@.take(i as int + 1).last() == c);
                }
                assert(v * 10 + d > bound) by (nonlinear_arith)
                    requires
                        v > (bound - d) / 10,
                        d <= 9,
                        d <= bound || true,
                ;
                if all_digits(s@) {
                    lemma_digits_value_prefix(s@, i as int + 1);
                }
            }
            return None;
        }
        proof {
            assert(v * 10 + d <= bound) by (nonlinear_arith)
                requires
                    v <= (bound - d) / 10,
                    d <= 9,
            ;
        }
        v = v * 10 + d;
        i = i + 1;
    }
    assert(s@.take(s@.len() as int) =~= s@);
    Some(v)
}

/// Reads a signed decimal integer.
pub fn parse_i64(s: &str) -> (r: Option<i64>)
    ensures
        r == parse_i64_spec(s@),
{
    let chars = chars_of(s);
    let signed = chars.len() > 0 && (chars[0] == '+' || chars[0] == '-');
    let negative = signed && chars[0] == '-';
    let body = if signed {
        slice_range(chars.as_slice(), 1, chars.len())
    } else {
        slice_range(chars.as_slice(), 0, chars.len())
    };
    assert(body@ =~= if signed { s@.skip(1) } else { s@ });
    let bound: u64 = if negative { 9_223_372_036_854_775_808u64 } else { 9_223_372_036_854_775_807u64 };
    match digits_up_to(body.as_slice(), bound) {
        Some(v) => {
            if negative {
                if v == 9_223_372_036_854_775_808u64 {
                    Some(i64::MIN)
                } else {
                    Some(0i64 - v as i64)
                }
            } else {
                Some(v as i64)
            }
        },
        None => None,
    }
}

/// Reads an unsigned decimal integer.
pub fn parse_u64(s: &str) -> (r: Option<u64>)
    ensures
        r == parse_u64_spec(s@),
{
    let chars = chars_of(s);
    let body = if chars.len() > 0 && chars[0] == '+' {
        slice_range(chars.as_slice(), 1, chars.len())
    } else {
        slice_range(chars.as_slice(), 0, chars.len())
    };
    assert(body@ =~= if s@.len() > 0 && s@[0] == '+' { s@.skip(1) } else { s@ });
    digits_up_to(body.as_slice(), u64::MAX)
}

/// Where a page of flows continues: the sort value and id of the last flow
/// shown.
#[derive(Clone, Debug, PartialEq, Eq)]
pub struct FlowCursor {
    pub sort_value: i64,
    pub id: String,
}

pub const CURSOR_RULE: &'static str = "cursor is malformed";

/// A cursor `<sort value>|<id>` with a decimal sort value and a non-empty id.
pub open spec fn parse_flow_cursor_spec(value: Seq<char>) -> Option<(i64, Seq<char>)> {
    match split_once_spec(value, "|"@) {
        Some((a, b)) => match parse_i64_spec(a) {
            Some(v) => if b.len() > 0 {
                Some((v, b))
            } else {
                None
            },
            None => None,
        },
        None => None,
    }
}

pub fn parse_flow_cursor(value: &str) -> (r: Result<FlowCursor, &'static str>)
    ensures
        match r {
            Ok(c) => parse_flow_cursor_spec(value@) == Some((c.sort_value, c.id@)),
            Err(e) => e == CURSOR_RULE && parse_flow_cursor_spec(value@) is None,
        },
{
    let chars = chars_of(value);
    let bar = chars_of("|");
    proof {
        reveal_strlit("|");
    }
    match split_once_chars(chars.as_slice(), bar.as_slice()) {
        Some((a, b)) => {
            let a_text = string_from_chars(a.as_slice());
            match parse_i64(a_text.as_str()) {
                Some(v) => {
                    if b.len() == 0 {
                        return Err(CURSOR_RULE);
                    }
                    Ok(FlowCursor { sort_value: v, id: string_from_chars(b.as_slice()) })
                },
                None => Err(CURSOR_RULE),
            }
        },
        None => Err(CURSOR_RULE),
    }
}

/// Decimal text of a signed 64-bit number.
pub open spec fn decimal_i64(n: i64) -> Seq<char> {
    if n < 0 {
        seq!['-'] + decimal((-n) as nat)
    } else {
        decimal(n as nat)
    }
}

/// The cursor that continues after a flow: `<sort value>|<id>`.
pub fn flow_cursor_for(sort_value: i64, id: &str) -> (r: String)
    ensures
        r@ == decimal_i64(sort_value) + seq!['|'] + id@,
{
    let mut out: Vec<char> = Vec::new();
    if sort_value < 0 {
        out.push('-');
        let magnitude: u64 = (0i128 - sort_value as i128) as u64;
        push_decimal(&mut out, magnitude);
    } else {
        push_decimal(&mut out, sort_value as u64);
    }
    out.push('|');
    let idc = chars_of(id);
    let ghost start = out@;
    let mut i: usize = 0;
    while i < idc.len()
        invariant
            i <= idc@.len(),
            out@ == start + idc@.take(i as int),
        decreases idc@.len() - i,
    {
        out.push(idc[i]);
        i = i + 1;
        assert(out@ =~= start + idc@.take(i as int));
    }
    assert(idc@.take(idc@.len() as int) =~= idc@);
    assert(out@ =~= decimal_i64(sort_value) + seq!['|'] + id@);
    string_from_chars(out.as_slice())
}

/// How a page of flows is sorted and where it starts.
#[derive(Clone, Debug, PartialEq, Eq)]
pub struct FlowPageOptions {
    pub limit: u32,
    pub sort_column: &'static str,
    pub sort_name: &'static str,
    pub descending: bool,
    pub cursor: Option<FlowCursor>,
}

pub const SORT_RULE: &'static str = "sort must be one of last_seen, started, download, upload, or duration";

pub const ORDER_RULE: &'static str = "order must be asc or desc";

pub const DURATION_COLUMN: &'static str = "(COALESCE(f.ended_at, f.last_seen_at) - f.started_at)";

/// The column and name a `sort` value (default `last_seen`) selects.
pub open spec fn sort_spec(sort: Seq<char>) -> Option<(Seq<char>, Seq<char>)> {
    if sort == "last_seen"@ {
        Some(("f.last_seen_at"@, "last_seen"@))
    } else if sort == "started"@ {
        Some(("f.started_at"@, "started"@))
    } else if sort == "download"@ {
        Some(("f.download_bytes"@, "download"@))
    } else if sort == "upload"@ {
        Some(("f.upload_bytes"@, "upload"@))
    } else if sort == "duration"@ {
        Some((DURATION_COLUMN@, "duration"@))
    } else {
        None
    }
}

/// Law: a sort value is accepted exactly when it names one of the five
/// orders, the chosen name is the value itself, and the column is the
/// quantity of the same name: transfers (`download`, `upload`) order by the
/// flow's `<name>_bytes` column, times (`started`, `last_seen`) by its
/// `<name>_at` column, and `duration` by the flow's elapsed time.
pub proof fn lemma_sort_column_matches_name(sort: Seq<char>)
    ensures
        sort_spec(sort) is Some <==> (sort == "last_seen"@ || sort == "started"@ || sort
            == "download"@ || sort == "upload"@ || sort == "duration"@),
        sort_spec(sort) matches Some((column, name)) ==> {
            &&& name == sort
            &&& (name == "download"@ || name == "upload"@) ==> column == "f."@ + name + "_bytes"@
            &&& (name == "started"@ || name == "last_seen"@) ==> column == "f."@ + name + "_at"@
            &&& name == "duration"@ ==> column == DURATION_COLUMN@
        },
{
    reveal_strlit("last_seen");
    reveal_strlit("started");
    reveal_strlit("download");
    reveal_strlit("upload");
    reveal_strlit("duration");
    reveal_strlit("f.last_seen_at");
    reveal_strlit("f.started_at");
    reveal_strlit("f.download_bytes");
    reveal_strlit("f.upload_bytes");
    reveal_strlit("f.");
    reveal_strlit("_bytes");
    reveal_strlit("_at");
    assert("f."@ + "download"@ + "_bytes"@ =~= "f.download_bytes"@);
    assert("f."@ + "upload"@ + "_bytes"@ =~= "f.upload_bytes"@);
    assert("f."@ + "started"@ + "_at"@ =~= "f.started_at"@);
    assert("f."@ + "last_seen"@ + "_at"@ =~= "f.last_seen_at"@);
    if sort == "duration"@ {
        assert(sort[1] != "download"@[1]);
    }
}

fn sort_choice(sort: &str) -> (r: Option<(&'static str, &'static str)>)
    ensures
        match r {
            Some((c, n)) => sort_spec(sort@) == Some((c@, n@)),
            None => sort_spec(sort@) is None,
        },
{
    if str_eq(sort, "last_seen") {
        Some(("f.last_seen_at", "last_seen"))
    } else if str_eq(sort, "started") {
        Some(("f.started_at", "started"))
    } else if str_eq(sort, "download") {
        Some(("f.download_bytes", "download"))
    } else if str_eq(sort, "upload") {
        Some(("f.upload_bytes", "upload"))
    } else if str_eq(sort, "duration") {
        Some((DURATION_COLUMN, "duration"))
    } else {
        None
    }
}

/// Reads the paging parameters of the flow list, in order: the limit
/// (default 50, 1 to 200), the sort (default `last_seen`), the order
/// (default `desc`), then the cursor.
pub fn parse_flow_page_options(
    limit: Option<u32>,
    sort: Option<&str>,
    order: Option<&str>,
    cursor: Option<&str>,
) -> (r: Result<FlowPageOptions, ApiError>)
    ensures
        ({
            let l = match limit {
                Some(l) => l,
                None => DEFAULT_PAGE_SIZE,
            };
            let s = match sort {
                Some(s) => s@,
                None => "last_seen"@,
            };
            let o = match order {
                Some(o) => o@,
                None => "desc"@,
            };
            let limit_ok = 1 <= l <= MAX_PAGE_SIZE;
            let sort_ok = sort_spec(s) is Some;
            let order_ok = o == "desc"@ || o == "asc"@;
            let cursor_ok = match cursor {
                Some(c) => parse_flow_cursor_spec(c@) is Some,
                None => true,
            };
            &&& !limit_ok ==> r == Err::<FlowPageOptions, ApiError>(
                bad_request("invalid_pagination", LIMIT_RULE),
            )
            &&& limit_ok && !sort_ok ==> r == Err::<FlowPageOptions, ApiError>(
                bad_request("invalid_sort", SORT_RULE),
            )
            &&& limit_ok && sort_ok && !order_ok ==> r == Err::<FlowPageOptions, ApiError>(
                bad_request("invalid_sort", ORDER_RULE),
            )
            &&& limit_ok && sort_ok && order_ok && !cursor_ok ==> r == Err::<
                FlowPageOptions,
                ApiError,
            >(bad_request("invalid_cursor", CURSOR_RULE))
            &&& limit_ok && sort_ok && order_ok && cursor_ok ==> (r matches Ok(p) && {
                &&& p.limit == l
                &&& sort_spec(s) == Some((p.sort_column@, p.sort_name@))
                &&& p.descending == (o == "desc"@)
                &&& match (cursor, p.cursor) {
                    (Some(c), Some(pc)) => parse_flow_cursor_spec(c@) == Some((pc.sort_value, pc.id@)),
                    (None, None) => true,
                    _ => false,
                }
            })
        }),
{
    let limit = match limit {
        Some(l) => l,
        None => DEFAULT_PAGE_SIZE,
    };
    if limit == 0 || limit > MAX_PAGE_SIZE {
        return Err(ApiError { status: 400, code: "invalid_pagination", message: LIMIT_RULE });
    }
    let sort_text = match sort {
        Some(s) => s,
        None => "last_seen",
    };
    let (sort_column, sort_name) = match sort_choice(sort_text) {
        Some(choice) => choice,
        None => {
            return Err(ApiError { status: 400, code: "invalid_sort", message: SORT_RULE });
        },
    };
    let order_text = match order {
        Some(o) => o,
        None => "desc",
    };
    let descending = if str_eq(order_text, "desc") {
        true
    } else if str_eq(order_text, "asc") {
        false
    } else {
        return Err(ApiError { status: 400, code: "invalid_sort", message: ORDER_RULE });
    };
    let cursor = match cursor {
        Some(c) => match parse_flow_cursor(c) {
            Ok(parsed) => Some(parsed),
            Err(_) => {
                return Err(ApiError { status: 400, code: "invalid_cursor", message: CURSOR_RULE });
            },
        },
        None => None,
    };
    Ok(FlowPageOptions { limit, sort_column, sort_name, descending, cursor })
}

/// The error a failed flow filter is answered with.
pub open spec fn flow_query_error_spec(name: Seq<char>) -> ApiError {
    if name == "invalid_ip"@ {
        bad_request("invalid_ip", "ip must be a valid IPv4 or IPv6 address")
    } else if name == "invalid_protocol"@ {
        bad_request("invalid_protocol", "protocol must be tcp, udp, or an IP protocol number")
    } else if name == "invalid_direction"@ {
        bad_request("invalid_direction", "direction must be upload, download, or unknown")
    } else if name == "invalid_scope"@ {
        bad_request("invalid_scope", "scope must be internet, internal, tunnel, or unknown")
    } else if name == "invalid_path_type"@ {
        bad_request("invalid_path_type", "path_type must be forwarded, internal, tunnel, or unknown")
    } else if name == "invalid_nat"@ {
        bad_request("invalid_nat", "nat must be none, snat, dnat, both, or unknown")
    } else if name == "invalid_time_range"@ {
        bad_request("invalid_time_range", "from must be less than to")
    } else {
        bad_request("invalid_query", "Flow query is invalid")
    }
}

pub fn flow_query_error(name: &str) -> (r: ApiError)
    ensures
        r == flow_query_error_spec(name@),
{
    if str_eq(name, "invalid_ip") {
        ApiError { status: 400, code: "invalid_ip", message: "ip must be a valid IPv4 or IPv6 address" }
    } else if str_eq(name, "invalid_protocol") {
        ApiError {
            status: 400,
            code: "invalid_protocol",
            message: "protocol must be tcp, udp, or an IP protocol number",
        }
    } else if str_eq(name, "invalid_direction") {
        ApiError {
            status: 400,
            code: "invalid_direction",
            message: "direction must be upload, download, or unknown",
        }
    } else if str_eq(name, "invalid_scope") {
        ApiError {
            status: 400,
            code: "invalid_scope",
            message: "scope must be internet, internal, tunnel, or unknown",
        }
    } else if str_eq(name, "invalid_path_type") {
        ApiError {
            status: 400,
            code: "invalid_path_type",
            message: "path_type must be forwarded, internal, tunnel, or unknown",
        }
    } else if str_eq(name, "invalid_nat") {
        ApiError {
            status: 400,
            code: "invalid_nat",
            message: "nat must be none, snat, dnat, both, or unknown",
        }
    } else if str_eq(name, "invalid_time_range") {
        ApiError { status: 400, code: "invalid_time_range", message: "from must be less than to" }
    } else {
        ApiError { status: 400, code: "invalid_query", message: "Flow query is invalid" }
    }
}

/// How long a gateway may stay silent, from its setting: a positive
/// decimal number of milliseconds, else the default.
pub fn offline_after_ms(setting: Option<&str>) -> (r: u64)
    ensures
        r == match setting {
            Some(s) => match parse_u64_spec(s@) {
                Some(v) => if v > 0 {
                    v
                } else {
                    DEFAULT_GATEWAY_OFFLINE_AFTER_MS
                },
                None => DEFAULT_GATEWAY_OFFLINE_AFTER_MS,
            },
            None => DEFAULT_GATEWAY_OFFLINE_AFTER_MS,
        },
{
    match setting {
        Some(s) => match parse_u64(s) {
            Some(v) => if v > 0 {
                v
            } else {
                DEFAULT_GATEWAY_OFFLINE_AFTER_MS
            },
            None => DEFAULT_GATEWAY_OFFLINE_AFTER_MS,
        },
        None => DEFAULT_GATEWAY_OFFLINE_AFTER_MS,
    }
}

/// The overview's gateway status: `online` in demo mode, `unenrolled`
/// without a gateway, else `online` when it was heard from within the
/// offline threshold and `offline` otherwise.
pub open spec fn gateway_status_spec(is_demo: bool, last_seen_ms: Option<i64>, now_ms: u64, offline_after_ms: u64) -> Seq<char> {
    if is_demo {
        "online"@
    } else {
        match last_seen_ms {
            None => "unenrolled"@,
            Some(seen) => {
                let seen_u = if seen < 0 { 0 } else { seen as int };
                let silence = if now_ms >= seen_u { now_ms - seen_u } else { 0 };
                if silence <= offline_after_ms {
                    "online"@
                } else {
                    "offline"@
                }
            },
        }
    }
}

pub fn gateway_status(is_demo: bool, last_seen_ms: Option<i64>, now_ms: u64, offline_after_ms: u64) -> (r: &'static str)
    ensures
        r@ == gateway_status_spec(is_demo, last_seen_ms, now_ms, offline_after_ms),
{
    if is_demo {
        return "online";
    }
    match last_seen_ms {
        None => "unenrolled",
        Some(seen) => {
            let seen_u = crate::insights_model::to_u64(seen);
            if now_ms.saturating_sub(seen_u) <= offline_after_ms {
                "online"
            } else {
                "offline"
            }
        },
    }
}

/// Why capture is degraded, as far as a health report shows it, in the
/// order the overview lists the reasons.
pub open spec fn capture_reasons(h: GatewayHealthSnapshot) -> Seq<Seq<char>> {
    (if h.hardware_flow_offload@ == "enabled"@ {
        seq!["hardware flow offloading is enabled"@]
    } else {
        Seq::<Seq<char>>::empty()
    }) + (if h.dropped_batches > 0 {
        seq![decimal(h.dropped_batches as nat) + " dropped telemetry batches"@]
    } else {
        Seq::<Seq<char>>::empty()
    }) + (if h.dns_dropped_events > 0 {
        seq![decimal(h.dns_dropped_events as nat) + " dropped DNS events"@]
    } else {
        Seq::<Seq<char>>::empty()
    }) + (if h.protocol_probe_dropped_events > 0 {
        seq![decimal(h.protocol_probe_dropped_events as nat) + " dropped protocol probe events"@]
    } else {
        Seq::<Seq<char>>::empty()
    }) + (if h.interface_counter_sanity@ == "degraded"@ {
        seq![
            "interface counters exceeded captured flow deltas ("@ + decimal(
                h.interface_delta_bytes as nat,
            ) + "B interface, "@ + decimal(h.flow_delta_bytes as nat) + "B flows)"@,
        ]
    } else {
        Seq::<Seq<char>>::empty()
    })
}

/// The parts joined with a separator between them.
pub open spec fn join_with(parts: Seq<Seq<char>>, sep: Seq<char>) -> Seq<char>
    decreases parts.len(),
{
    if parts.len() == 0 {
        Seq::empty()
    } else if parts.len() == 1 {
        parts[0]
    } else {
        join_with(parts.drop_last(), sep) + sep + parts.last()
    }
}

/// The overview's capture warning: none in demo mode; for an offline
/// gateway, that no telemetry arrived; else the reasons capture is
/// degraded, if any, or that no health was reported.
pub open spec fn capture_warning_spec(
    is_demo: bool,
    status: Seq<char>,
    health: Option<GatewayHealthSnapshot>,
) -> Option<Seq<char>> {
    if is_demo {
        None
    } else if status == "offline"@ {
        Some("No gateway telemetry has arrived within the offline threshold"@)
    } else {
        match health {
            Some(h) => {
                let reasons = capture_reasons(h);
                if reasons.len() == 0 {
                    None
                } else {
                    Some("Capture degraded: "@ + join_with(reasons, "; "@))
                }
            },
            None => Some("Capture health telemetry has not been reported"@),
        }
    }
}

fn push_reason(parts: &mut Vec<Vec<char>>, part: Vec<char>)
    ensures
        final(parts)@.map_values(|p: Vec<char>| p@) == old(parts)@.map_values(|p: Vec<char>| p@)
            + seq![part@],
{
    let ghost before = parts@;
    parts.push(part);
    assert(parts@.map_values(|p: Vec<char>| p@) =~= before.map_values(|p: Vec<char>| p@) + seq![part@]);
}

fn counted_reason(n: u64, text: &str) -> (r: Vec<char>)
    ensures
        r@ == decimal(n as nat) + text@,
{
    let mut out: Vec<char> = Vec::new();
    push_decimal(&mut out, n);
    push_str(&mut out, text);
    out
}

pub fn capture_warning(is_demo: bool, status: &str, health: Option<&GatewayHealthSnapshot>) -> (r:
    Option<String>)
    ensures
        match r {
            Some(w) => capture_warning_spec(is_demo, status@, match health {
                Some(h) => Some(*h),
                None => None,
            }) == Some(w@),
            None => capture_warning_spec(is_demo, status@, match health {
                Some(h) => Some(*h),
                None => None,
            }) is None,
        },
{
    if is_demo {
        return None;
    }
    if str_eq(status, "offline") {
        return Some("No gateway telemetry has arrived within the offline threshold".to_owned());
    }
    let h = match health {
        Some(h) => h,
        None => {
            return Some("Capture health telemetry has not been reported".to_owned());
        },
    };
    let ghost e = Seq::<Seq<char>>::empty();
    let mut parts: Vec<Vec<char>> = Vec::new();
    let ghost v0 = parts@.map_values(|p: Vec<char>| p@);
    if str_eq(h.hardware_flow_offload.as_str(), "enabled") {
        push_reason(&mut parts, chars_of("hardware flow offloading is enabled"));
    }
    let ghost v1 = parts@.map_values(|p: Vec<char>| p@);
    if h.dropped_batches > 0 {
        push_reason(&mut parts, counted_reason(h.dropped_batches, " dropped telemetry batches"));
    }
    let ghost v2 = parts@.map_values(|p: Vec<char>| p@);
    if h.dns_dropped_events > 0 {
        push_reason(&mut parts, counted_reason(h.dns_dropped_events, " dropped DNS events"));
    }
    let ghost v3 = parts@.map_values(|p: Vec<char>| p@);
    if h.protocol_probe_dropped_events > 0 {
        push_reason(
            &mut parts,
            counted_reason(h.protocol_probe_dropped_events, " dropped protocol probe events"),
        );
    }
    let ghost v4 = parts@.map_values(|p: Vec<char>| p@);
    if str_eq(h.interface_counter_sanity.as_str(), "degraded") {
        let mut text: Vec<char> = Vec::new();
        push_str(&mut text, "interface counters exceeded captured flow deltas (");
        push_decimal(&mut text, h.interface_delta_bytes);
        push_str(&mut text, "B interface, ");
        push_decimal(&mut text, h.flow_delta_bytes);
        push_str(&mut text, "B flows)");
        push_reason(&mut parts, text);
    }
    let ghost views = parts@.map_values(|p: Vec<char>| p@);
    proof {
        assert(v0 =~= e);
        assert(views =~= capture_reasons(*h));
    }
    if parts.len() == 0 {
        return None;
    }
    let mut out: Vec<char> = Vec::new();
    push_str(&mut out, "Capture degraded: ");
    let ghost start = out@;
    let mut i: usize = 0;
    while i < parts.len()
        invariant
            i <= parts@.len(),
            views == parts@.map_values(|p: Vec<char>| p@),
            out@ == start + join_with(views.take(i as int), "; "@),
        decreases parts@.len() - i,
    {
        let ghost prev = out@;
        if i > 0 {
            push_str(&mut out, "; ");
        }
        let part = &parts[i];
        let mut j: usize = 0;
        let ghost mid = out@;
        while j < part.len()
            invariant
                j <= part@.len(),
                out@ == mid + part@.take(j as int),
            decreases part@.len() - j,
        {
            out.push(part[j]);
            j = j + 1;
            assert(out@ =~= mid + part@.take(j as int));
        }
        proof {
            assert(part@.take(part@.len() as int) =~= part@);
            assert(views[i as int] == part@);
            let t = views.take(i as int + 1);
            assert(t.drop_last() =~= views.take(i as int));
            assert(t.last() == part@);
            if i == 0 {
                assert(views.take(0) =~= Seq::<Seq<char>>::empty());
                assert(out@ =~= start + join_with(t, "; "@));
            } else {
                assert(out@ =~= start + join_with(t, "; "@));
            }
        }
        i = i + 1;
    }
    assert(views.take(views.len() as int) =~= views);
    Some(string_from_chars(out.as_slice()))
}

/// A flow filter's argument as the query binds it.
#[derive(Clone, Copy, Debug, PartialEq, Eq, Structural)]
pub enum FilterArg {
    Integer(i64),
    Scope(FlowScope),
    Path(PathType),
    Nat(NatType),
}

/// One `WHERE` condition of a flow query and the arguments it binds.
#[derive(Clone, Debug)]
pub struct FilterClause {
    pub sql: &'static str,
    pub args: Vec<FilterArg>,
}

pub type ClauseView = (Seq<char>, Seq<FilterArg>);

pub open spec fn clauses_view(c: Seq<FilterClause>) -> Seq<ClauseView> {
    c.map_values(|x: FilterClause| (x.sql@, x.args@))
}

/// The transport parameters of a flow query.
#[derive(Clone, Debug)]
pub struct TransportQuery {
    pub protocol: Option<String>,
    pub port: Option<u16>,
    pub direction: Option<String>,
    pub scope: Option<String>,
    pub path_type: Option<String>,
    pub nat: Option<String>,
    pub from: Option<u64>,
    pub to: Option<u64>,
}

/// A text parameter trimmed, when anything is left of it.
pub open spec fn param(v: Option<String>) -> Option<Seq<char>> {
    match v {
        Some(s) => if trim_seq(s@).len() > 0 {
            Some(trim_seq(s@))
        } else {
            None
        },
        None => None,
    }
}

pub open spec fn protocol_number(v: Seq<char>) -> Option<i64> {
    let l = lower_seq(v);
    if l == "tcp"@ {
        Some(6)
    } else if l == "udp"@ {
        Some(17)
    } else {
        match count_parse(l, 255) {
            Ok(n) => Some(n as i64),
            Err(_) => None,
        }
    }
}

pub open spec fn direction_number(v: Seq<char>) -> Option<i64> {
    let l = lower_seq(v);
    if l == "unknown"@ {
        Some(0)
    } else if l == "upload"@ {
        Some(1)
    } else if l == "download"@ {
        Some(2)
    } else {
        None
    }
}

pub open spec fn scope_named(v: Seq<char>) -> Option<FlowScope> {
    let l = lower_seq(v);
    if l == "internet"@ {
        Some(FlowScope::Internet)
    } else if l == "internal"@ {
        Some(FlowScope::Internal)
    } else if l == "tunnel"@ {
        Some(FlowScope::Tunnel)
    } else if l == "unknown"@ {
        Some(FlowScope::Unknown)
    } else {
        None
    }
}

pub open spec fn path_named(v: Seq<char>) -> Option<PathType> {
    let l = lower_seq(v);
    if l == "forwarded"@ {
        Some(PathType::Forwarded)
    } else if l == "internal"@ {
        Some(PathType::Internal)
    } else if l == "tunnel"@ {
        Some(PathType::Tunnel)
    } else if l == "unknown"@ {
        Some(PathType::Unknown)
    } else {
        None
    }
}

pub open spec fn nat_named(v: Seq<char>) -> Option<NatType> {
    let l = lower_seq(v);
    if l == "none"@ {
        Some(NatType::NoTranslation)
    } else if l == "snat"@ {
        Some(NatType::Snat)
    } else if l == "dnat"@ {
        Some(NatType::Dnat)
    } else if l == "both"@ {
        Some(NatType::Both)
    } else if l == "unknown"@ {
        Some(NatType::Unknown)
    } else {
        None
    }
}

/// Each parameter's clause: none when the parameter is absent, the clause
/// when its value is recognized, else the error naming the parameter.
#[verifier::opaque]
pub open spec fn protocol_clause(v: Option<Seq<char>>) -> Result<Seq<ClauseView>, Seq<char>> {
    match v {
        None => Ok(Seq::empty()),
        Some(t) => match protocol_number(t) {
            Some(n) => Ok(seq![("f.protocol = ?"@, seq![FilterArg::Integer(n)])]),
            None => Err("invalid_protocol"@),
        },
    }
}

#[verifier::opaque]
pub open spec fn port_clause(port: Option<u16>) -> Result<Seq<ClauseView>, Seq<char>> {
    match port {
        Some(p) => Ok(
            seq![
                (
                    "(f.client_port = ? OR f.remote_port = ?)"@,
                    seq![FilterArg::Integer(p as i64), FilterArg::Integer(p as i64)],
                ),
            ],
        ),
        None => Ok(Seq::empty()),
    }
}

#[verifier::opaque]
pub open spec fn direction_clause(v: Option<Seq<char>>) -> Result<Seq<ClauseView>, Seq<char>> {
    match v {
        None => Ok(Seq::empty()),
        Some(t) => match direction_number(t) {
            Some(n) => Ok(seq![("f.direction = ?"@, seq![FilterArg::Integer(n)])]),
            None => Err("invalid_direction"@),
        },
    }
}

#[verifier::opaque]
pub open spec fn scope_clause(v: Option<Seq<char>>) -> Result<Seq<ClauseView>, Seq<char>> {
    match v {
        None => Ok(Seq::empty()),
        Some(t) => match scope_named(t) {
            Some(x) => Ok(seq![("f.scope = ?"@, seq![FilterArg::Scope(x)])]),
            None => Err("invalid_scope"@),
        },
    }
}

#[verifier::opaque]
pub open spec fn path_clause(v: Option<Seq<char>>) -> Result<Seq<ClauseView>, Seq<char>> {
    match v {
        None => Ok(Seq::empty()),
        Some(t) => match path_named(t) {
            Some(x) => Ok(seq![("f.path_type = ?"@, seq![FilterArg::Path(x)])]),
            None => Err("invalid_path_type"@),
        },
    }
}

#[verifier::opaque]
pub open spec fn nat_clause(v: Option<Seq<char>>) -> Result<Seq<ClauseView>, Seq<char>> {
    match v {
        None => Ok(Seq::empty()),
        Some(t) => match nat_named(t) {
            Some(x) => Ok(seq![("f.nat = ?"@, seq![FilterArg::Nat(x)])]),
            None => Err("invalid_nat"@),
        },
    }
}

pub open spec fn then_clauses(
    a: Result<Seq<ClauseView>, Seq<char>>,
    b: Result<Seq<ClauseView>, Seq<char>>,
) -> Result<Seq<ClauseView>, Seq<char>> {
    match a {
        Err(e) => Err(e),
        Ok(x) => match b {
            Err(e) => Err(e),
            Ok(y) => Ok(x + y),
        },
    }
}

/// The time-range clause: from `from` (0 by default) up to `to` (`now_ms`
/// by default), when either is given; a range that is empty or ends past
/// `i64::MAX` is refused.
#[verifier::opaque]
pub open spec fn time_clause(from: Option<u64>, to: Option<u64>, now_ms: u64) -> Result<Seq<ClauseView>, Seq<char>> {
    if from is None && to is None {
        Ok(Seq::empty())
    } else {
        let f = match from {
            Some(x) => x,
            None => 0,
        };
        let t = match to {
            Some(x) => x,
            None => now_ms,
        };
        if f >= t || t > i64::MAX {
            Err("invalid_time_range"@)
        } else {
            Ok(
                seq![
                    (
                        "f.last_seen_at >= ? AND f.last_seen_at < ?"@,
                        seq![FilterArg::Integer(f as i64), FilterArg::Integer(t as i64)],
                    ),
                ],
            )
        }
    }
}

/// The transport conditions of a flow query, in order: protocol (`tcp`,
/// `udp` or a number), port on either side, direction, scope, path type,
/// address translation, time range. Names are matched case-insensitively;
/// the first unrecognized one is refused by name.
pub open spec fn transport_filters_spec(q: TransportQuery, now_ms: u64) -> Result<Seq<ClauseView>, Seq<char>> {
    then_clauses(
        protocol_clause(param(q.protocol)),
        then_clauses(
            port_clause(q.port),
            then_clauses(
                direction_clause(param(q.direction)),
                then_clauses(
                    scope_clause(param(q.scope)),
                    then_clauses(
                        path_clause(param(q.path_type)),
                        then_clauses(nat_clause(param(q.nat)), time_clause(q.from, q.to, now_ms)),
                    ),
                ),
            ),
        ),
    )
}

fn args_of(a: FilterArg, b: Option<FilterArg>) -> (r: Vec<FilterArg>)
    ensures
        r@ == match b {
            Some(x) => seq![a, x],
            None => seq![a],
        },
{
    let mut r: Vec<FilterArg> = Vec::new();
    r.push(a);
    match b {
        Some(x) => {
            r.push(x);
        },
        None => {},
    }
    assert(r@ =~= match b {
        Some(x) => seq![a, x],
        None => seq![a],
    });
    r
}

fn push_clause(out: &mut Vec<FilterClause>, sql: &'static str, args: Vec<FilterArg>)
    ensures
        clauses_view(final(out)@) == clauses_view(old(out)@) + seq![(sql@, args@)],
{
    let ghost before = out@;
    out.push(FilterClause { sql, args });
    assert(clauses_view(out@) =~= clauses_view(before) + seq![(sql@, args@)]);
}

pub(crate) fn param_text(v: &Option<String>) -> (r: Option<String>)
    ensures
        opt_string_view(r) == param(*v),
{
    match v {
        Some(s) => non_empty(Some(s.as_str())),
        None => None,
    }
}

/// Appends a parameter's clauses, as `expected` gives them, or reports its
/// error.
pub open spec fn appended(
    before: Seq<ClauseView>,
    after: Seq<ClauseView>,
    expected: Result<Seq<ClauseView>, Seq<char>>,
    r: Result<(), &'static str>,
) -> bool {
    match r {
        Ok(_) => expected is Ok && after == before + expected->Ok_0,
        Err(e) => expected == Err::<Seq<ClauseView>, Seq<char>>(e@),
    }
}

fn add_protocol(out: &mut Vec<FilterClause>, v: &Option<String>) -> (r: Result<(), &'static str>)
    ensures
        appended(clauses_view(old(out)@), clauses_view(final(out)@), protocol_clause(param(*v)), r),
{
    reveal(protocol_clause);
    match param_text(v) {
        Some(p) => {
            let l = lowered(p.as_str());
            let n: i64 = if str_eq(l.as_str(), "tcp") {
                6
            } else if str_eq(l.as_str(), "udp") {
                17
            } else {
                match parse_count(l.as_str(), 255) {
                    Ok(n) => n as i64,
                    Err(_) => {
                        return Err("invalid_protocol");
                    },
                }
            };
            push_clause(out, "f.protocol = ?", args_of(FilterArg::Integer(n), None));
            Ok(())
        },
        None => {
            assert(clauses_view(out@) =~= clauses_view(out@) + Seq::<ClauseView>::empty());
            Ok(())
        },
    }
}

fn add_port(out: &mut Vec<FilterClause>, port: Option<u16>) -> (r: Result<(), &'static str>)
    ensures
        appended(clauses_view(old(out)@), clauses_view(final(out)@), port_clause(port), r),
        r is Ok,
{
    reveal(port_clause);
    match port {
        Some(p) => {
            push_clause(
                out,
                "(f.client_port = ? OR f.remote_port = ?)",
                args_of(FilterArg::Integer(p as i64), Some(FilterArg::Integer(p as i64))),
            );
        },
        None => {
            assert(clauses_view(out@) =~= clauses_view(out@) + Seq::<ClauseView>::empty());
        },
    }
    Ok(())
}

fn add_direction(out: &mut Vec<FilterClause>, v: &Option<String>) -> (r: Result<(), &'static str>)
    ensures
        appended(clauses_view(old(out)@), clauses_view(final(out)@), direction_clause(param(*v)), r),
{
    reveal(direction_clause);
    match param_text(v) {
        Some(d) => {
            let l = lowered(d.as_str());
            let n: i64 = if str_eq(l.as_str(), "unknown") {
                0
            } else if str_eq(l.as_str(), "upload") {
                1
            } else if str_eq(l.as_str(), "download") {
                2
            } else {
                return Err("invalid_direction");
            };
            push_clause(out, "f.direction = ?", args_of(FilterArg::Integer(n), None));
            Ok(())
        },
        None => {
            assert(clauses_view(out@) =~= clauses_view(out@) + Seq::<ClauseView>::empty());
            Ok(())
        },
    }
}

fn add_scope(out: &mut Vec<FilterClause>, v: &Option<String>) -> (r: Result<(), &'static str>)
    ensures
        appended(clauses_view(old(out)@), clauses_view(final(out)@), scope_clause(param(*v)), r),
{
    reveal(scope_clause);
    match param_text(v) {
        Some(t) => {
            let l = lowered(t.as_str());
            let x = if str_eq(l.as_str(), "internet") {
                FlowScope::Internet
            } else if str_eq(l.as_str(), "internal") {
                FlowScope::Internal
            } else if str_eq(l.as_str(), "tunnel") {
                FlowScope::Tunnel
            } else if str_eq(l.as_str(), "unknown") {
                FlowScope::Unknown
            } else {
                return Err("invalid_scope");
            };
            push_clause(out, "f.scope = ?", args_of(FilterArg::Scope(x), None));
            Ok(())
        },
        None => {
            assert(clauses_view(out@) =~= clauses_view(out@) + Seq::<ClauseView>::empty());
            Ok(())
        },
    }
}

fn add_path(out: &mut Vec<FilterClause>, v: &Option<String>) -> (r: Result<(), &'static str>)
    ensures
        appended(clauses_view(old(out)@), clauses_view(final(out)@), path_clause(param(*v)), r),
{
    reveal(path_clause);
    match param_text(v) {
        Some(t) => {
            let l = lowered(t.as_str());
            let x = if str_eq(l.as_str(), "forwarded") {
                PathType::Forwarded
            } else if str_eq(l.as_str(), "internal") {
                PathType::Internal
            } else if str_eq(l.as_str(), "tunnel") {
                PathType::Tunnel
            } else if str_eq(l.as_str(), "unknown") {
                PathType::Unknown
            } else {
                return Err("invalid_path_type");
            };
            push_clause(out, "f.path_type = ?", args_of(FilterArg::Path(x), None));
            Ok(())
        },
        None => {
            assert(clauses_view(out@) =~= clauses_view(out@) + Seq::<ClauseView>::empty());
            Ok(())
        },
    }
}

fn add_nat(out: &mut Vec<FilterClause>, v: &Option<String>) -> (r: Result<(), &'static str>)
    ensures
        appended(clauses_view(old(out)@), clauses_view(final(out)@), nat_clause(param(*v)), r),
{
    reveal(nat_clause);
    match param_text(v) {
        Some(t) => {
            let l = lowered(t.as_str());
            let x = if str_eq(l.as_str(), "none") {
                NatType::NoTranslation
            } else if str_eq(l.as_str(), "snat") {
                NatType::Snat
            } else if str_eq(l.as_str(), "dnat") {
                NatType::Dnat
            } else if str_eq(l.as_str(), "both") {
                NatType::Both
            } else if str_eq(l.as_str(), "unknown") {
                NatType::Unknown
            } else {
                return Err("invalid_nat");
            };
            push_clause(out, "f.nat = ?", args_of(FilterArg::Nat(x), None));
            Ok(())
        },
        None => {
            assert(clauses_view(out@) =~= clauses_view(out@) + Seq::<ClauseView>::empty());
            Ok(())
        },
    }
}

fn add_time(out: &mut Vec<FilterClause>, from: Option<u64>, to: Option<u64>, now_ms: u64) -> (r: Result<(), &'static str>)
    ensures
        appended(clauses_view(old(out)@), clauses_view(final(out)@), time_clause(from, to, now_ms), r),
{
    reveal(time_clause);
    if from.is_some() || to.is_some() {
        let f = match from {
            Some(x) => x,
            None => 0,
        };
        let t = match to {
            Some(x) => x,
            None => now_ms,
        };
        if f >= t || t > i64::MAX as u64 {
            return Err("invalid_time_range");
        }
        push_clause(
            out,
            "f.last_seen_at >= ? AND f.last_seen_at < ?",
            args_of(FilterArg::Integer(f as i64), Some(FilterArg::Integer(t as i64))),
        );
    } else {
        assert(clauses_view(out@) =~= clauses_view(out@) + Seq::<ClauseView>::empty());
    }
    Ok(())
}

/// Builds the transport conditions of a flow query; `now_ms` ends a time
/// range given only its start.
pub fn transport_filters(q: &TransportQuery, now_ms: u64) -> (r: Result<Vec<FilterClause>, &'static str>)
    ensures
        match r {
            Ok(c) => transport_filters_spec(*q, now_ms) == Ok::<Seq<ClauseView>, Seq<char>>(
                clauses_view(c@),
            ),
            Err(e) => transport_filters_spec(*q, now_ms) == Err::<Seq<ClauseView>, Seq<char>>(
                e@,
            ),
        },
{
    let mut out: Vec<FilterClause> = Vec::new();
    let ghost c0 = clauses_view(out@);
    assert(c0 =~= Seq::<ClauseView>::empty());
    let r1 = add_protocol(&mut out, &q.protocol);
    if let Err(e) = r1 {
        return Err(e);
    }
    let ghost c1 = clauses_view(out@);
    let r2 = add_port(&mut out, q.port);
    let ghost c2 = clauses_view(out@);
    let r3 = add_direction(&mut out, &q.direction);
    if let Err(e) = r3 {
        return Err(e);
    }
    let ghost c3 = clauses_view(out@);
    let r4 = add_scope(&mut out, &q.scope);
    if let Err(e) = r4 {
        return Err(e);
    }
    let ghost c4 = clauses_view(out@);
    let r5 = add_path(&mut out, &q.path_type);
    if let Err(e) = r5 {
        return Err(e);
    }
    let ghost c5 = clauses_view(out@);
    let r6 = add_nat(&mut out, &q.nat);
    if let Err(e) = r6 {
        return Err(e);
    }
    let ghost c6 = clauses_view(out@);
    let r7 = add_time(&mut out, q.from, q.to, now_ms);
    if let Err(e) = r7 {
        return Err(e);
    }
    let ghost c7 = clauses_view(out@);
    proof {
        let d1 = protocol_clause(param(q.protocol))->Ok_0;
        let d2 = port_clause(q.port)->Ok_0;
        let d3 = direction_clause(param(q.direction))->Ok_0;
        let d4 = scope_clause(param(q.scope))->Ok_0;
        let d5 = path_clause(param(q.path_type))->Ok_0;
        let d6 = nat_clause(param(q.nat))->Ok_0;
        let d7 = time_clause(q.from, q.to, now_ms)->Ok_0;
        assert(c7 =~= d1 + (d2 + (d3 + (d4 + (d5 + (d6 + d7))))));
    }
    Ok(out)
}
/// How many days each kind of stored data is kept; 0 keeps it forever.
#[derive(Clone, Copy, Debug, PartialEq, Eq, Structural)]
pub struct RetentionPolicy {
    pub flow_sessions_days: u32,
    pub dns_days: u32,
    pub minute_days: u32,
    pub hour_days: u32,
    pub day_days: u32,
}

pub const MINUTE_DAYS_RULE: &'static str = "minute_days must be at least 1";

pub const HOUR_DAYS_RULE: &'static str = "hour_days must be 0 (forever) or >= minute_days";

pub const DAY_DAYS_RULE: &'static str = "day_days must be 0 (forever) or >= hour_days";

/// A retention policy can be saved when minute rollups are kept at least a
/// day, hour rollups (unless kept forever) no shorter than minute rollups,
/// and day rollups (unless either is kept forever) no shorter than hour
/// rollups.
pub open spec fn retention_error(p: RetentionPolicy) -> Option<ApiError> {
    if p.minute_days == 0 {
        Some(bad_request("invalid_retention", MINUTE_DAYS_RULE))
    } else if p.hour_days != 0 && p.hour_days < p.minute_days {
        Some(bad_request("invalid_retention", HOUR_DAYS_RULE))
    } else if p.day_days != 0 && p.hour_days != 0 && p.day_days < p.hour_days {
        Some(bad_request("invalid_retention", DAY_DAYS_RULE))
    } else {
        None
    }
}

/// Checks a retention update before it is saved.
pub fn validate_retention(p: RetentionPolicy) -> (r: Result<RetentionPolicy, ApiError>)
    ensures
        match retention_error(p) {
            Some(e) => r == Err::<RetentionPolicy, ApiError>(e),
            None => r == Ok::<RetentionPolicy, ApiError>(p),
        },
        r is Ok ==> p.minute_days >= 1 && (p.hour_days == 0 || p.hour_days >= p.minute_days),
{
    if p.minute_days == 0 {
        return Err(ApiError { status: 400, code: "invalid_retention", message: MINUTE_DAYS_RULE });
    }
    if p.hour_days != 0 && p.hour_days < p.minute_days {
        return Err(ApiError { status: 400, code: "invalid_retention", message: HOUR_DAYS_RULE });
    }
    if p.day_days != 0 && p.hour_days != 0 && p.day_days < p.hour_days {
        return Err(ApiError { status: 400, code: "invalid_retention", message: DAY_DAYS_RULE });
    }
    Ok(p)
}

proof fn lemma_decimal_digits(n: nat)
    ensures
        all_digits(decimal(n)),
        digits_value(decimal(n)) == n,
        decimal(n).len() > 0,
    decreases n,
{
    if n >= 10 {
        lemma_decimal_digits(n / 10);
        let d = decimal(n / 10);
        let s = decimal(n);
        assert(s == d + seq![digit_char((n % 10) as int)]);
        assert(s.drop_last() =~= d);
        let k = (n % 10) as int;
        assert(digit_char(k) as nat == 48 + k);
        assert(s.last() == digit_char(k));
        assert(digits_value(s) == digits_value(d) * 10 + (s.last() as nat - 48) as nat);
        assert(digits_value(d) * 10 + k == n) by (nonlinear_arith)
            requires
                digits_value(d) == n / 10,
                k == n % 10,
        ;
        assert forall|i: int| 0 <= i < s.len() implies is_digit_char(#[trigger] s[i]) by {
            if i < d.len() {
                assert(s[i] == d[i]);
            }
        }
    } else {
        let s = decimal(n);
        assert(digit_char(n as int) as nat == 48 + n);
        assert(s.drop_last() =~= Seq::<char>::empty());
        assert(digits_value(Seq::<char>::empty()) == 0);
        assert(digits_value(s) == digits_value(s.drop_last()) * 10 + (s.last() as nat - 48) as nat);
    }
}

proof fn lemma_no_bar_before(s: Seq<char>, end: int, start: int)
    requires
        0 <= start <= end < s.len(),
        s[end] == '|',
        forall|i: int| 0 <= i < end ==> s[i] != '|',
    ensures
        first_match_from(s, "|"@, start) == Some(end),
    decreases end - start,
{
    reveal_strlit("|");
    if start < end {
        assert(s.subrange(start, start + 1) != "|"@) by {
            assert(s.subrange(start, start + 1)[0] == s[start]);
        }
        lemma_no_bar_before(s, end, start + 1);
    } else {
        assert(s.subrange(start, start + 1) =~= "|"@);
    }
}

proof fn lemma_parse_decimal_i64(v: i64)
    ensures
        parse_i64_spec(decimal_i64(v)) == Some(v),
        forall|i: int| 0 <= i < decimal_i64(v).len() ==> #[trigger] decimal_i64(v)[i] != '|',
        decimal_i64(v).len() > 0,
{
    let d = decimal_i64(v);
    let m: nat = if v < 0 {
        (-v) as nat
    } else {
        v as nat
    };
    lemma_decimal_digits(m);
    if v < 0 {
        assert(d.skip(1) =~= decimal(m));
        assert forall|i: int| 0 <= i < d.len() implies #[trigger] d[i] != '|' by {
            if i > 0 {
                assert(d[i] == decimal(m)[i - 1]);
                assert(is_digit_char(decimal(m)[i - 1]));
            }
        }
    } else {
        assert(is_digit_char(d[0]));
        assert forall|i: int| 0 <= i < d.len() implies #[trigger] d[i] != '|' by {
            assert(is_digit_char(decimal(m)[i]));
        }
    }
}

/// The cursor made for a flow reads back as that flow's sort value and id:
/// a page continues exactly after the flow it ended with.
pub proof fn lemma_cursor_round_trip(v: i64, id: Seq<char>)
    requires
        id.len() > 0,
    ensures
        parse_flow_cursor_spec(decimal_i64(v) + seq!['|'] + id) == Some((v, id)),
{
    reveal_strlit("|");
    let d = decimal_i64(v);
    let s = d + seq!['|'] + id;
    lemma_parse_decimal_i64(v);
    assert forall|i: int| 0 <= i < d.len() implies s[i] != '|' by {
        assert(s[i] == d[i]);
    }
    lemma_no_bar_before(s, d.len() as int, 0);
    assert(s.subrange(0, d.len() as int) =~= d);
    assert(s.subrange(d.len() as int + 1, s.len() as int) =~= id);
}

/// How a page of flows ends, from the (sort value, id) of the rows fetched,
/// one more than the limit at most: how many rows the page shows, and the
/// cursor of its last row when further rows follow.
pub open spec fn flow_page_end(keys: Seq<(i64, Seq<char>)>, limit: u32) -> (int, Option<Seq<char>>) {
    if keys.len() > limit {
        let last = keys[limit - 1];
        (limit as int, Some(decimal_i64(last.0) + seq!['|'] + last.1))
    } else {
        (keys.len() as int, None)
    }
}

/// Ends a page of flows: the rows to show and the cursor that continues
/// after them, when more rows were fetched than the page holds.
pub fn finish_flow_page(keys: &Vec<(i64, String)>, limit: u32) -> (r: (usize, Option<String>))
    requires
        keys@.len() > limit ==> limit > 0,
    ensures
        ({
            let e = flow_page_end(keys@.map_values(|k: (i64, String)| (k.0, k.1@)), limit);
            &&& r.0 == e.0
            &&& match r.1 {
                Some(c) => e.1 == Some(c@),
                None => e.1 is None,
            }
        }),
{
    let ghost kv = keys@.map_values(|k: (i64, String)| (k.0, k.1@));
    let lim = limit as usize;
    if keys.len() > lim {
        let last = &keys[lim - 1];
        assert(kv[lim as int - 1] == (last.0, last.1@));
        let cursor = flow_cursor_for(last.0, last.1.as_str());
        (lim, Some(cursor))
    } else {
        (keys.len(), None)
    }
}


/// A page that stops short of the rows fetched hands out a cursor that
/// reads back as its last row's sort value and id, so the next page starts
/// right after that row.
pub proof fn lemma_page_continues_after_last_row(keys: Seq<(i64, Seq<char>)>, limit: u32)
    requires
        keys.len() > limit > 0,
        keys[limit - 1].1.len() > 0,
    ensures
        flow_page_end(keys, limit).1 matches Some(c) && parse_flow_cursor_spec(c) == Some(keys[limit - 1]),
{
    lemma_cursor_round_trip(keys[limit - 1].0, keys[limit - 1].1);
}

} // verus!
