//! What the collector tells the classifier about a device: evidence drawn
//! from DHCP and host names, from discovery protocols (SSDP, DHCPv6, HTTP,
//! mDNS, Matter), and from its hardware address.

use vstd::prelude::*;

use crate::mac_prefix::{is_locally_administered, is_locally_administered_spec, MacPrefixDataset};
use crate::query::{all_digits, digits_up_to, digits_value, is_digit_char};
use crate::text::{
    chars_of, decimal, hex_bytes, hex_encode, slice_range, split_once_chars, split_once_spec,
    str_eq, string_from_chars, trim_chars, trim_seq,
};

verus! {

/// One piece of evidence for the classifier: a field with text or with a
/// number sequence.
#[derive(Clone, Debug, PartialEq, Eq)]
pub struct DeviceEvidenceInput {
    pub field: String,
    pub text: Option<String>,
    pub sequence: Option<Vec<u32>>,
}

/// Field, text and number sequence.
pub type InputView = (Seq<char>, Option<Seq<char>>, Option<Seq<u32>>);

pub open spec fn input_view(i: DeviceEvidenceInput) -> InputView {
    (
        i.field@,
        match i.text {
            Some(t) => Some(t@),
            None => None,
        },
        match i.sequence {
            Some(s) => Some(s@),
            None => None,
        },
    )
}

pub open spec fn inputs_view(v: Seq<DeviceEvidenceInput>) -> Seq<InputView> {
    v.map_values(|i: DeviceEvidenceInput| input_view(i))
}

pub open spec fn text_item(field: Seq<char>, text: Seq<char>) -> InputView {
    (field, Some(text), None)
}

pub open spec fn sequence_item(field: Seq<char>, values: Seq<u32>) -> InputView {
    (field, None, Some(values))
}

fn push_text_input(out: &mut Vec<DeviceEvidenceInput>, field: &str, text: &str)
    ensures
        inputs_view(final(out)@) == inputs_view(old(out)@).push(text_item(field@, text@)),
{
    let ghost before = out@;
    out.push(DeviceEvidenceInput { field: field.to_owned(), text: Some(text.to_owned()), sequence: None });
    assert(inputs_view(out@) =~= inputs_view(before).push(text_item(field@, text@)));
}

fn push_sequence_input(out: &mut Vec<DeviceEvidenceInput>, field: &str, values: Vec<u32>)
    ensures
        inputs_view(final(out)@) == inputs_view(old(out)@).push(sequence_item(field@, values@)),
{
    let ghost before = out@;
    let ghost vals = values@;
    out.push(DeviceEvidenceInput { field: field.to_owned(), text: None, sequence: Some(values) });
    assert(inputs_view(out@) =~= inputs_view(before).push(sequence_item(field@, vals)));
}

/// Whether an evidence item's metadata is empty (`{}`).
pub fn metadata_is_empty(value: &str) -> (r: bool)
    ensures
        r == (value@ == "{}"@),
{
    str_eq(value, "{}")
}

pub open spec fn hex_digit_value(c: char) -> int {
    if '0' <= c && c <= '9' {
        c as int - 48
    } else if 'a' <= c && c <= 'f' {
        c as int - 87
    } else {
        c as int - 55
    }
}

pub open spec fn is_hex_char(c: char) -> bool {
    ('0' <= c && c <= '9') || ('a' <= c && c <= 'f') || ('A' <= c && c <= 'F')
}

/// Value of a string of hexadecimal digits.
pub open spec fn hex_value(s: Seq<char>) -> nat
    decreases s.len(),
{
    if s.len() == 0 {
        0
    } else {
        (hex_value(s.drop_last()) * 16 + hex_digit_value(s.last())) as nat
    }
}

/// `s` without a leading `+`.
pub open spec fn unsigned_body(s: Seq<char>) -> Seq<char> {
    if s.len() > 0 && s[0] == '+' {
        s.skip(1)
    } else {
        s
    }
}

/// A number as `u16::from_str_radix(_, 16)` reads it: an optional `+`, then
/// one or more hexadecimal digits, at most `0xFFFF`.
pub open spec fn parse_hex_u16_spec(s: Seq<char>) -> Option<u16> {
    let body = unsigned_body(s);
    if body.len() > 0 && (forall|i: int| 0 <= i < body.len() ==> is_hex_char(#[trigger] body[i]))
        && hex_value(body) <= 0xFFFF {
        Some(hex_value(body) as u16)
    } else {
        None
    }
}

/// A number as `str::parse::<u16>` (or `::<u32>` with a larger bound) reads
/// it: an optional `+`, then one or more decimal digits, within the bound.
pub open spec fn parse_unsigned_spec(s: Seq<char>, bound: nat) -> Option<nat> {
    let body = unsigned_body(s);
    if body.len() > 0 && all_digits(body) && digits_value(body) <= bound {
        Some(digits_value(body))
    } else {
        None
    }
}

fn parse_unsigned(s: &[char], bound: u64) -> (r: Option<u64>)
    requires
        bound >= 9,
    ensures
        match r {
            Some(v) => parse_unsigned_spec(s@, bound as nat) == Some(v as nat),
            None => parse_unsigned_spec(s@, bound as nat) is None,
        },
{
    let body = if s.len() > 0 && s[0] == '+' {
        slice_range(s, 1, s.len())
    } else {
        slice_range(s, 0, s.len())
    };
    assert(body@ =~= unsigned_body(s@));
    digits_up_to(body.as_slice(), bound)
}

pub proof fn lemma_hex_value_prefix(s: Seq<char>, i: int)
    requires
        0 <= i <= s.len(),
        forall|k: int| 0 <= k < s.len() ==> is_hex_char(#[trigger] s[k]),
    ensures
        hex_value(s.take(i)) <= hex_value(s),
    decreases s.len() - i,
{
    if i < s.len() {
        lemma_hex_value_prefix(s, i + 1);
        assert(s.take(i + 1).drop_last() =~= s.take(i));
        assert(is_hex_char(s[i]));
    } else {
        assert(s.take(i) =~= s);
    }
}

fn parse_hex_u16(s: &[char]) -> (r: Option<u16>)
    ensures
        r == parse_hex_u16_spec(s@),
{
    let body = if s.len() > 0 && s[0] == '+' {
        slice_range(s, 1, s.len())
    } else {
        slice_range(s, 0, s.len())
    };
    assert(body@ =~= unsigned_body(s@));
    if body.len() == 0 {
        return None;
    }
    let mut v: u32 = 0;
    let mut i: usize = 0;
    while i < body.len()
        invariant
            i <= body@.len(),
            body@ == unsigned_body(s@),
            forall|k: int| 0 <= k < i ==> is_hex_char(#[trigger] body@[k]),
            v == hex_value(body@.take(i as int)),
            v <= 0xFFFF,
        decreases body@.len() - i,
    {
        let c = body[i];
        let d: u32 = if '0' <= c && c <= '9' {
            c as u32 - 48
        } else if 'a' <= c && c <= 'f' {
            c as u32 - 87
        } else if 'A' <= c && c <= 'F' {
            c as u32 - 55
        } else {
            assert(!is_hex_char(body@[i as int]));
            return None;
        };
        assert(body@.take(i as int + 1).drop_last() =~= body@.take(i as int));
        assert(body@.take(i as int + 1).last() == c);
        assert(hex_value(body@.take(i as int + 1)) == v * 16 + d);
        if v * 16 + d > 0xFFFF {
            proof {
                if forall|k: int| 0 <= k < body@.len() ==> is_hex_char(#[trigger] body@[k]) {
                    lemma_hex_value_prefix(body@, i as int + 1);
                }
            }
            return None;
        }
        v = v * 16 + d;
        i = i + 1;
    }
    assert(body@.take(body@.len() as int) =~= body@);
    Some(v as u16)
}

/// A Matter vendor, product or device-type id: trimmed, hexadecimal after
/// `0x` or `0X`, else decimal; 16 bits.
pub open spec fn parse_matter_id_spec(value: Seq<char>) -> Option<u16> {
    let t = trim_seq(value);
    if t.len() >= 2 && t[0] == '0' && (t[1] == 'x' || t[1] == 'X') {
        parse_hex_u16_spec(t.skip(2))
    } else {
        match parse_unsigned_spec(t, 0xFFFF) {
            Some(v) => Some(v as u16),
            None => None,
        }
    }
}

pub fn parse_matter_id(value: &str) -> (r: Option<u16>)
    ensures
        r == parse_matter_id_spec(value@),
{
    let chars = chars_of(value);
    let t = trim_chars(chars.as_slice());
    if t.len() >= 2 && t[0] == '0' && (t[1] == 'x' || t[1] == 'X') {
        let hex = slice_range(t.as_slice(), 2, t.len());
        assert(hex@ =~= t@.skip(2));
        parse_hex_u16(hex.as_slice())
    } else {
        match parse_unsigned(t.as_slice(), 0xFFFF) {
            Some(v) => Some(v as u16),
            None => None,
        }
    }
}

/// DHCP details of a device observation.
#[derive(Clone, Debug, PartialEq, Eq)]
pub struct DhcpMetadata {
    pub vendor_class: String,
    pub client_identifier: Vec<u8>,
    pub parameter_request_list: Vec<u32>,
}

/// A device the agent saw.
#[derive(Clone, Debug, PartialEq, Eq)]
pub struct DeviceObservation {
    pub mac: Vec<u8>,
    pub ip: Vec<u8>,
    pub hostname: String,
    pub last_seen_unix_ms: u64,
    pub dhcp: Option<DhcpMetadata>,
}

/// Evidence an observation gives: the host name when there is one; with
/// DHCP, the vendor class, the client identifier in hexadecimal, and the
/// parameter request list.
pub open spec fn observation_inputs_spec(o: DeviceObservation) -> Seq<InputView> {
    (if o.hostname@.len() > 0 {
        seq![text_item("hostname"@, o.hostname@)]
    } else {
        Seq::<InputView>::empty()
    }) + match o.dhcp {
        Some(d) => seq![
            text_item("vendor_class"@, d.vendor_class@),
            text_item("client_identifier"@, hex_bytes(d.client_identifier@)),
            sequence_item("prl"@, d.parameter_request_list@),
        ],
        None => Seq::<InputView>::empty(),
    }
}

pub fn observation_device_inputs(observation: &DeviceObservation) -> (r: Vec<DeviceEvidenceInput>)
    ensures
        inputs_view(r@) == observation_inputs_spec(*observation),
{
    let mut inputs: Vec<DeviceEvidenceInput> = Vec::new();
    let ghost e = inputs_view(inputs@);
    if !observation.hostname.as_str().is_empty() {
        push_text_input(&mut inputs, "hostname", observation.hostname.as_str());
    }
    let ghost first = inputs_view(inputs@);
    match &observation.dhcp {
        Some(d) => {
            push_text_input(&mut inputs, "vendor_class", d.vendor_class.as_str());
            let digits = hex_encode(d.client_identifier.as_slice());
            let identifier = string_from_chars(digits.as_slice());
            push_text_input(&mut inputs, "client_identifier", identifier.as_str());
            push_sequence_input(&mut inputs, "prl", d.parameter_request_list.clone());
        },
        None => {},
    }
    assert(e =~= Seq::<InputView>::empty());
    assert(inputs_view(inputs@) =~= observation_inputs_spec(*observation));
    inputs
}

/// A discovery-protocol sighting of a device. Attributes keep the order
/// they arrived in.
#[derive(Clone, Debug, PartialEq, Eq)]
pub struct DiscoveryObservation {
    pub mac: Vec<u8>,
    pub ip: Vec<u8>,
    pub protocol: String,
    pub service: String,
    pub instance: String,
    pub hostname: String,
    pub port: u32,
    pub attributes: Vec<(String, String)>,
    pub observed_at_unix_ms: u64,
}

pub open spec fn attrs_view(v: Seq<(String, String)>) -> Seq<(Seq<char>, Seq<char>)> {
    v.map_values(|p: (String, String)| (p.0@, p.1@))
}

/// The value of the first attribute with the key.
pub open spec fn attr_lookup(attrs: Seq<(Seq<char>, Seq<char>)>, key: Seq<char>) -> Option<Seq<char>>
    decreases attrs.len(),
{
    if attrs.len() == 0 {
        None
    } else if attrs[0].0 == key {
        Some(attrs[0].1)
    } else {
        attr_lookup(attrs.drop_first(), key)
    }
}

fn attribute<'a>(attrs: &'a Vec<(String, String)>, key: &str) -> (r: Option<&'a String>)
    ensures
        match r {
            Some(v) => attr_lookup(attrs_view(attrs@), key@) == Some(v@),
            None => attr_lookup(attrs_view(attrs@), key@) is None,
        },
{
    let ghost a = attrs_view(attrs@);
    let mut i: usize = 0;
    assert(a.skip(0) =~= a);
    while i < attrs.len()
        invariant
            i <= attrs@.len(),
            a == attrs_view(attrs@),
            attr_lookup(a, key@) == attr_lookup(a.skip(i as int), key@),
        decreases attrs@.len() - i,
    {
        assert(a.skip(i as int)[0] == (attrs@[i as int].0@, attrs@[i as int].1@));
        if str_eq(attrs[i].0.as_str(), key) {
            return Some(&attrs[i].1);
        }
        assert(a.skip(i as int).drop_first() =~= a.skip(i as int + 1));
        i = i + 1;
    }
    None
}

/// One text item when there is a value.
pub open spec fn opt_item(field: Seq<char>, value: Option<Seq<char>>) -> Seq<InputView> {
    match value {
        Some(v) => seq![text_item(field, v)],
        None => Seq::empty(),
    }
}

/// `s` cut at every occurrence of `sep`, as `str::split` cuts it.
pub open spec fn split_char(s: Seq<char>, sep: char) -> Seq<Seq<char>>
    decreases s.len(),
{
    if s.len() == 0 {
        seq![Seq::empty()]
    } else {
        let init = split_char(s.drop_last(), sep);
        if s.last() == sep {
            init.push(Seq::empty())
        } else {
            init.update(init.len() - 1, init.last().push(s.last()))
        }
    }
}

pub proof fn lemma_split_char_nonempty(s: Seq<char>, sep: char)
    ensures
        split_char(s, sep).len() >= 1,
    decreases s.len(),
{
    if s.len() > 0 {
        lemma_split_char_nonempty(s.drop_last(), sep);
    }
}

/// The pieces that read as 32-bit numbers, in order.
pub open spec fn parsed_u32s(parts: Seq<Seq<char>>) -> Seq<u32>
    decreases parts.len(),
{
    if parts.len() == 0 {
        Seq::empty()
    } else {
        parsed_u32s(parts.drop_last()) + match parse_unsigned_spec(parts.last(), u32::MAX as nat) {
            Some(v) => seq![v as u32],
            None => Seq::empty(),
        }
    }
}

fn split_on(s: &[char], sep: char) -> (r: Vec<Vec<char>>)
    ensures
        r@.map_values(|x: Vec<char>| x@) == split_char(s@, sep),
{
    let mut parts: Vec<Vec<char>> = Vec::new();
    parts.push(Vec::new());
    assert(parts@.map_values(|x: Vec<char>| x@) =~= split_char(s@.take(0), sep));
    let mut i: usize = 0;
    while i < s.len()
        invariant
            i <= s@.len(),
            parts@.len() >= 1,
            parts@.map_values(|x: Vec<char>| x@) == split_char(s@.take(i as int), sep),
        decreases s@.len() - i,
    {
        let c = s[i];
        assert(s@.take(i as int + 1).drop_last() =~= s@.take(i as int));
        assert(s@.take(i as int + 1).last() == c);
        if c == sep {
            parts.push(Vec::new());
            assert(parts@.map_values(|x: Vec<char>| x@) =~= split_char(s@.take(i as int + 1), sep));
        } else {
            let last = parts.len() - 1;
            let ghost before = parts@;
            let mut piece = parts.pop().unwrap();
            piece.push(c);
            parts.push(piece);
            assert(parts@.map_values(|x: Vec<char>| x@) =~= before.map_values(|x: Vec<char>| x@).update(
                last as int,
                before.map_values(|x: Vec<char>| x@).last().push(c),
            ));
        }
        i = i + 1;
    }
    assert(s@.take(s@.len() as int) =~= s@);
    parts
}

fn parse_u32_list(value: &str) -> (r: Vec<u32>)
    ensures
        r@ == parsed_u32s(split_char(value@, ',')),
{
    let chars = chars_of(value);
    let parts = split_on(chars.as_slice(), ',');
    let ghost pv = parts@.map_values(|x: Vec<char>| x@);
    let mut out: Vec<u32> = Vec::new();
    let mut i: usize = 0;
    while i < parts.len()
        invariant
            i <= parts@.len(),
            pv == parts@.map_values(|x: Vec<char>| x@),
            out@ == parsed_u32s(pv.take(i as int)),
        decreases parts@.len() - i,
    {
        assert(pv.take(i as int + 1).drop_last() =~= pv.take(i as int));
        assert(pv.take(i as int + 1).last() == parts@[i as int]@);
        match parse_unsigned(parts[i].as_slice(), 4_294_967_295u64) {
            Some(v) => {
                out.push(v as u32);
            },
            None => {},
        }
        i = i + 1;
    }
    assert(pv.take(pv.len() as int) =~= pv);
    out
}

/// Whether an SSDP sighting is a search request (`M-SEARCH`), which says
/// little about the searching device.
pub open spec fn is_ssdp_search(o: DiscoveryObservation) -> bool {
    o.protocol@ == "ssdp"@ && attr_lookup(attrs_view(o.attributes@), "message_kind"@) == Some(
        "M-SEARCH"@,
    )
}

/// SSDP evidence: the service as type (not for searches), then server,
/// user agent, search and notification types and unique service name (a
/// search only gives its user agent).
pub open spec fn ssdp_inputs(o: DiscoveryObservation) -> Seq<InputView> {
    let a = attrs_view(o.attributes@);
    let search = is_ssdp_search(o);
    (if !search {
        seq![text_item("ssdp_type"@, o.service@)]
    } else {
        Seq::<InputView>::empty()
    }) + (if !search {
        opt_item("ssdp_server"@, attr_lookup(a, "server"@))
    } else {
        Seq::<InputView>::empty()
    }) + opt_item("ssdp_user_agent"@, attr_lookup(a, "user-agent"@)) + (if !search {
        opt_item("ssdp_type"@, attr_lookup(a, "st"@)) + opt_item("ssdp_type"@, attr_lookup(a, "nt"@))
            + opt_item("ssdp_usn"@, attr_lookup(a, "usn"@))
    } else {
        Seq::<InputView>::empty()
    })
}

/// DHCPv6 evidence: DUID, vendor-specific data, client FQDN, vendor class,
/// and the option request list as numbers.
pub open spec fn dhcp6_inputs(o: DiscoveryObservation) -> Seq<InputView> {
    let a = attrs_view(o.attributes@);
    opt_item("dhcp6_duid"@, attr_lookup(a, "duid"@)) + opt_item(
        "dhcp6_vendor_specific"@,
        attr_lookup(a, "vendor_specific"@),
    ) + opt_item("dhcp6_client_fqdn"@, attr_lookup(a, "client_fqdn"@)) + opt_item(
        "dhcp6_vendor_class"@,
        attr_lookup(a, "vendor_class"@),
    ) + match attr_lookup(a, "oro"@) {
        Some(v) => seq![sequence_item("oro"@, parsed_u32s(split_char(v, ',')))],
        None => Seq::<InputView>::empty(),
    }
}

/// HTTP evidence: a non-empty user agent.
pub open spec fn http_inputs(o: DiscoveryObservation) -> Seq<InputView> {
    match attr_lookup(attrs_view(o.attributes@), "user-agent"@) {
        Some(v) => if v.len() > 0 {
            seq![text_item("http_user_agent"@, v)]
        } else {
            Seq::<InputView>::empty()
        },
        None => Seq::<InputView>::empty(),
    }
}

/// The vendor and product ids of a Matter sighting: from `vp`
/// (`<vendor>+<product>`) when both read, else from `vid` and `pid`.
pub open spec fn matter_pair(a: Seq<(Seq<char>, Seq<char>)>) -> Option<(u16, u16)> {
    let from_vp = match attr_lookup(a, "vp"@) {
        Some(vp) => match split_once_spec(vp, "+"@) {
            Some((v, p)) => match (parse_matter_id_spec(v), parse_matter_id_spec(p)) {
                (Some(x), Some(y)) => Some((x, y)),
                _ => None,
            },
            None => None,
        },
        None => None,
    };
    match from_vp {
        Some(pair) => Some(pair),
        None => match (attr_lookup(a, "vid"@), attr_lookup(a, "pid"@)) {
            (Some(v), Some(p)) => match (parse_matter_id_spec(v), parse_matter_id_spec(p)) {
                (Some(x), Some(y)) => Some((x, y)),
                _ => None,
            },
            _ => None,
        },
    }
}

/// Matter evidence: the device type in decimal, and the vendor and
/// product ids.
pub open spec fn matter_inputs(o: DiscoveryObservation) -> Seq<InputView> {
    let a = attrs_view(o.attributes@);
    (match attr_lookup(a, "dt"@) {
        Some(v) => match parse_matter_id_spec(v) {
            Some(dt) => seq![text_item("matter_device_type"@, decimal(dt as nat))],
            None => Seq::<InputView>::empty(),
        },
        None => Seq::<InputView>::empty(),
    }) + match matter_pair(a) {
        Some((vid, pid)) => seq![sequence_item("matter_vendor_product"@, seq![vid as u32, pid as u32])],
        None => Seq::<InputView>::empty(),
    }
}

/// mDNS TXT evidence: each attribute as `key=value`, and the model keys
/// (`md`, `model`) again as model evidence.
pub open spec fn txt_inputs(a: Seq<(Seq<char>, Seq<char>)>) -> Seq<InputView>
    decreases a.len(),
{
    if a.len() == 0 {
        Seq::empty()
    } else {
        let (k, v) = a.last();
        txt_inputs(a.drop_last()) + seq![text_item("mdns_txt"@, k + "="@ + v)] + if k == "md"@
            || k == "model"@ {
            seq![text_item("mdns_model"@, v)]
        } else {
            Seq::<InputView>::empty()
        }
    }
}

/// The evidence a discovery sighting gives: its service (unless it is an
/// SSDP search), the protocol's own evidence, and for mDNS and Matter the
/// instance, host name and TXT attributes.
pub open spec fn discovery_inputs_spec(o: DiscoveryObservation) -> Seq<InputView> {
    let p = o.protocol@;
    (if !is_ssdp_search(o) && o.service@.len() > 0 {
        seq![text_item("service"@, o.service@)]
    } else {
        Seq::<InputView>::empty()
    }) + (if p == "ssdp"@ {
        ssdp_inputs(o)
    } else if p == "dhcp6"@ {
        dhcp6_inputs(o)
    } else if p == "http"@ {
        http_inputs(o)
    } else if p == "matter"@ {
        matter_inputs(o)
    } else {
        Seq::<InputView>::empty()
    }) + (if p == "mdns"@ || p == "matter"@ {
        seq![text_item("mdns_instance"@, o.instance@), text_item("mdns_hostname"@, o.hostname@)]
            + txt_inputs(attrs_view(o.attributes@))
    } else {
        Seq::<InputView>::empty()
    })
}

fn push_opt_input(out: &mut Vec<DeviceEvidenceInput>, field: &str, attrs: &Vec<(String, String)>, key: &str)
    ensures
        inputs_view(final(out)@) == inputs_view(old(out)@) + opt_item(
            field@,
            attr_lookup(attrs_view(attrs@), key@),
        ),
{
    match attribute(attrs, key) {
        Some(v) => {
            push_text_input(out, field, v.as_str());
            assert(seq![text_item(field@, v@)] =~= opt_item(field@, attr_lookup(attrs_view(attrs@), key@)));
        },
        None => {
            assert(inputs_view(out@) =~= inputs_view(old(out)@) + opt_item(
                field@,
                attr_lookup(attrs_view(attrs@), key@),
            ));
        },
    }
}

fn ssdp_search(o: &DiscoveryObservation) -> (r: bool)
    ensures
        r == is_ssdp_search(*o),
{
    if !str_eq(o.protocol.as_str(), "ssdp") {
        return false;
    }
    match attribute(&o.attributes, "message_kind") {
        Some(v) => str_eq(v.as_str(), "M-SEARCH"),
        None => false,
    }
}

fn push_ssdp(out: &mut Vec<DeviceEvidenceInput>, o: &DiscoveryObservation, search: bool)
    requires
        search == is_ssdp_search(*o),
    ensures
        inputs_view(final(out)@) == inputs_view(old(out)@) + ssdp_inputs(*o),
{
    let ghost start = inputs_view(out@);
    let ghost e = Seq::<InputView>::empty();
    if !search {
        push_text_input(out, "ssdp_type", o.service.as_str());
    }
    let ghost a1 = inputs_view(out@);
    if !search {
        push_opt_input(out, "ssdp_server", &o.attributes, "server");
    }
    let ghost a2 = inputs_view(out@);
    push_opt_input(out, "ssdp_user_agent", &o.attributes, "user-agent");
    let ghost a3 = inputs_view(out@);
    if !search {
        push_opt_input(out, "ssdp_type", &o.attributes, "st");
        push_opt_input(out, "ssdp_type", &o.attributes, "nt");
        push_opt_input(out, "ssdp_usn", &o.attributes, "usn");
    }
    proof {
        if search {
            assert(a1 =~= start + e);
            assert(a2 =~= a1 + e);
        } else {
            assert(a1 =~= start + seq![text_item("ssdp_type"@, o.service@)]);
        }
        assert(inputs_view(out@) =~= inputs_view(old(out)@) + ssdp_inputs(*o));
    }
}

fn push_dhcp6(out: &mut Vec<DeviceEvidenceInput>, o: &DiscoveryObservation)
    ensures
        inputs_view(final(out)@) == inputs_view(old(out)@) + dhcp6_inputs(*o),
{
    push_opt_input(out, "dhcp6_duid", &o.attributes, "duid");
    push_opt_input(out, "dhcp6_vendor_specific", &o.attributes, "vendor_specific");
    push_opt_input(out, "dhcp6_client_fqdn", &o.attributes, "client_fqdn");
    push_opt_input(out, "dhcp6_vendor_class", &o.attributes, "vendor_class");
    let ghost before = inputs_view(out@);
    match attribute(&o.attributes, "oro") {
        Some(v) => {
            let values = parse_u32_list(v.as_str());
            push_sequence_input(out, "oro", values);
        },
        None => {},
    }
    assert(inputs_view(out@) =~= inputs_view(old(out)@) + dhcp6_inputs(*o));
}

fn push_http(out: &mut Vec<DeviceEvidenceInput>, o: &DiscoveryObservation)
    ensures
        inputs_view(final(out)@) == inputs_view(old(out)@) + http_inputs(*o),
{
    match attribute(&o.attributes, "user-agent") {
        Some(v) => {
            if !v.as_str().is_empty() {
                push_text_input(out, "http_user_agent", v.as_str());
            }
        },
        None => {},
    }
    assert(inputs_view(out@) =~= inputs_view(old(out)@) + http_inputs(*o));
}

fn matter_pair_exec(attrs: &Vec<(String, String)>) -> (r: Option<(u16, u16)>)
    ensures
        r == matter_pair(attrs_view(attrs@)),
{
    let plus = chars_of("+");
    proof {
        reveal_strlit("+");
    }
    let mut from_vp: Option<(u16, u16)> = None;
    match attribute(attrs, "vp") {
        Some(vp) => {
            let chars = chars_of(vp.as_str());
            match split_once_chars(chars.as_slice(), plus.as_slice()) {
                Some((v, p)) => {
                    let vt = string_from_chars(v.as_slice());
                    let pt = string_from_chars(p.as_slice());
                    match (parse_matter_id(vt.as_str()), parse_matter_id(pt.as_str())) {
                        (Some(x), Some(y)) => {
                            from_vp = Some((x, y));
                        },
                        _ => {},
                    }
                },
                None => {},
            }
        },
        None => {},
    }
    match from_vp {
        Some(pair) => Some(pair),
        None => match (attribute(attrs, "vid"), attribute(attrs, "pid")) {
            (Some(v), Some(p)) => match (parse_matter_id(v.as_str()), parse_matter_id(p.as_str())) {
                (Some(x), Some(y)) => Some((x, y)),
                _ => None,
            },
            _ => None,
        },
    }
}

fn push_matter(out: &mut Vec<DeviceEvidenceInput>, o: &DiscoveryObservation)
    ensures
        inputs_view(final(out)@) == inputs_view(old(out)@) + matter_inputs(*o),
{
    let ghost start = inputs_view(out@);
    match attribute(&o.attributes, "dt") {
        Some(v) => match parse_matter_id(v.as_str()) {
            Some(dt) => {
                let mut digits: Vec<char> = Vec::new();
                crate::text::push_decimal(&mut digits, dt as u64);
                assert(digits@ =~= decimal(dt as nat));
                let text = string_from_chars(digits.as_slice());
                push_text_input(out, "matter_device_type", text.as_str());
            },
            None => {},
        },
        None => {},
    }
    let ghost mid = inputs_view(out@);
    match matter_pair_exec(&o.attributes) {
        Some((vid, pid)) => {
            let mut values: Vec<u32> = Vec::new();
            values.push(vid as u32);
            values.push(pid as u32);
            assert(values@ =~= seq![vid as u32, pid as u32]);
            push_sequence_input(out, "matter_vendor_product", values);
        },
        None => {},
    }
    assert(inputs_view(out@) =~= inputs_view(old(out)@) + matter_inputs(*o));
}

fn push_txt(out: &mut Vec<DeviceEvidenceInput>, attrs: &Vec<(String, String)>)
    ensures
        inputs_view(final(out)@) == inputs_view(old(out)@) + txt_inputs(attrs_view(attrs@)),
{
    let ghost a = attrs_view(attrs@);
    let ghost start = inputs_view(out@);
    let mut i: usize = 0;
    while i < attrs.len()
        invariant
            i <= attrs@.len(),
            a == attrs_view(attrs@),
            inputs_view(out@) == start + txt_inputs(a.take(i as int)),
        decreases attrs@.len() - i,
    {
        let k = &attrs[i].0;
        let v = &attrs[i].1;
        let ghost before = inputs_view(out@);
        let mut pair: Vec<char> = chars_of(k.as_str());
        pair.push('=');
        let vc = chars_of(v.as_str());
        let mut j: usize = 0;
        let ghost head = pair@;
        while j < vc.len()
            invariant
                j <= vc@.len(),
                pair@ == head + vc@.take(j as int),
            decreases vc@.len() - j,
        {
            pair.push(vc[j]);
            j = j + 1;
            assert(pair@ =~= head + vc@.take(j as int));
        }
        assert(vc@.take(vc@.len() as int) =~= vc@);
        let pair_text = string_from_chars(pair.as_slice());
        push_text_input(out, "mdns_txt", pair_text.as_str());
        let ghost after_txt = inputs_view(out@);
        if str_eq(k.as_str(), "md") || str_eq(k.as_str(), "model") {
            push_text_input(out, "mdns_model", v.as_str());
        }
        proof {
            let t = a.take(i as int + 1);
            assert(t.drop_last() =~= a.take(i as int));
            assert(t.last() == (k@, v@));
            assert(pair_text@ =~= k@ + "="@ + v@) by {
                reveal_strlit("=");
            }
            assert(inputs_view(out@) =~= start + txt_inputs(t));
        }
        i = i + 1;
    }
    assert(a.take(a.len() as int) =~= a);
}

/// The evidence a discovery sighting gives the classifier.
pub fn discovery_device_inputs(observation: &DiscoveryObservation) -> (r: Vec<DeviceEvidenceInput>)
    ensures
        inputs_view(r@) == discovery_inputs_spec(*observation),
{
    let o = observation;
    let mut inputs: Vec<DeviceEvidenceInput> = Vec::new();
    let ghost e = inputs_view(inputs@);
    let search = ssdp_search(o);
    if !search && !o.service.as_str().is_empty() {
        push_text_input(&mut inputs, "service", o.service.as_str());
    }
    let ghost first = inputs_view(inputs@);
    let p = o.protocol.as_str();
    if str_eq(p, "ssdp") {
        push_ssdp(&mut inputs, o, search);
    } else if str_eq(p, "dhcp6") {
        push_dhcp6(&mut inputs, o);
    } else if str_eq(p, "http") {
        push_http(&mut inputs, o);
    } else if str_eq(p, "matter") {
        push_matter(&mut inputs, o);
    }
    let ghost second = inputs_view(inputs@);
    if str_eq(p, "mdns") || str_eq(p, "matter") {
        push_text_input(&mut inputs, "mdns_instance", o.instance.as_str());
        push_text_input(&mut inputs, "mdns_hostname", o.hostname.as_str());
        push_txt(&mut inputs, &o.attributes);
    }
    proof {
        assert(e =~= Seq::<InputView>::empty());
        assert(inputs_view(inputs@) =~= discovery_inputs_spec(*o));
    }
    inputs
}

/// The observation value a discovery sighting records: its service, or
/// its protocol when there is no service.
pub fn discovery_observation_value(observation: &DiscoveryObservation) -> (r: String)
    ensures
        r@ == if observation.service@.len() == 0 {
            observation.protocol@
        } else {
            observation.service@
        },
{
    if observation.service.as_str().is_empty() {
        observation.protocol.clone()
    } else {
        observation.service.clone()
    }
}

/// The model an mDNS or Matter sighting names: its non-empty `md`
/// attribute, or else its `model` attribute.
pub open spec fn discovery_model_spec(o: DiscoveryObservation) -> Option<Seq<char>> {
    let a = attrs_view(o.attributes@);
    if o.protocol@ == "mdns"@ || o.protocol@ == "matter"@ {
        let chosen = match attr_lookup(a, "md"@) {
            Some(v) => Some(v),
            None => attr_lookup(a, "model"@),
        };
        match chosen {
            Some(v) => if v.len() > 0 {
                Some(v)
            } else {
                None
            },
            None => None,
        }
    } else {
        None
    }
}

pub fn discovery_model(observation: &DiscoveryObservation) -> (r: Option<String>)
    ensures
        match r {
            Some(m) => discovery_model_spec(*observation) == Some(m@),
            None => discovery_model_spec(*observation) is None,
        },
{
    let p = observation.protocol.as_str();
    if !(str_eq(p, "mdns") || str_eq(p, "matter")) {
        return None;
    }
    let chosen = match attribute(&observation.attributes, "md") {
        Some(v) => Some(v),
        None => attribute(&observation.attributes, "model"),
    };
    match chosen {
        Some(v) => if v.as_str().is_empty() {
            None
        } else {
            Some(v.clone())
        },
        None => None,
    }
}

/// What a device's hardware address says about it.
#[derive(Clone, Debug, PartialEq, Eq)]
pub enum MacEvidence {
    /// A locally administered (randomized) address: a private address, and
    /// no vendor.
    PrivateAddress,
    /// The vendor the registry lists for the address.
    Vendor(String),
    /// Nothing.
    Unknown,
}

/// The hardware-address evidence for a device: a private address when it
/// is locally administered (the registry is not consulted), else the
/// registry's vendor when there is one.
pub fn mac_evidence(mac: &[u8], dataset: &MacPrefixDataset) -> (r: MacEvidence)
    requires
        dataset.well_formed(),
    ensures
        is_locally_administered_spec(mac@) ==> r == MacEvidence::PrivateAddress,
        !is_locally_administered_spec(mac@) ==> match r {
            MacEvidence::Vendor(v) => crate::mac_prefix::lookup_spec(
                dataset.entries_spec(),
                mac@,
            ) == Some(v@),
            MacEvidence::Unknown => crate::mac_prefix::lookup_spec(
                dataset.entries_spec(),
                mac@,
            ) is None,
            MacEvidence::PrivateAddress => false,
        },
{
    if is_locally_administered(mac) {
        return MacEvidence::PrivateAddress;
    }
    match dataset.lookup(mac) {
        Some(v) => MacEvidence::Vendor(v.to_owned()),
        None => MacEvidence::Unknown,
    }
}

/// Whether stored evidence still counts for a device: evidence from the
/// vendor registry is dropped for locally administered addresses.
pub fn keeps_historical_evidence(mac: &[u8], source: &str) -> (r: bool)
    ensures
        r == !(is_locally_administered_spec(mac@) && source@ == "mac_oui"@),
{
    !(is_locally_administered(mac) && str_eq(source, "mac_oui"))
}

/// Whether observation `i` is the one kept for its MAC among the first `n`:
/// no observation of the same MAC was seen later, and none before it was
/// seen as late.
pub open spec fn latest_in_prefix(obs: Seq<DeviceObservation>, n: int, i: int) -> bool {
    &&& 0 <= i < n
    &&& forall|j: int|
        0 <= j < n && (#[trigger] obs[j]).mac@ == obs[i].mac@ ==> obs[j].last_seen_unix_ms
            <= obs[i].last_seen_unix_ms
    &&& forall|j: int|
        0 <= j < i && (#[trigger] obs[j]).mac@ == obs[i].mac@ ==> obs[j].last_seen_unix_ms
            < obs[i].last_seen_unix_ms
}

/// Whether observation `i` is the one kept for its MAC in the batch.
pub open spec fn latest_for_mac(obs: Seq<DeviceObservation>, i: int) -> bool {
    latest_in_prefix(obs, obs.len() as int, i)
}

/// `r` holds, for each MAC among the first `n` observations, the one kept.
pub open spec fn kept_for_prefix(o: Seq<DeviceObservation>, n: int, r: Seq<usize>) -> bool {
    &&& 0 <= n <= o.len()
    &&& forall|k: int| 0 <= k < r.len() ==> latest_in_prefix(o, n, #[trigger] r[k] as int)
    &&& forall|a: int, b: int|
        0 <= a < b < r.len() ==> o[#[trigger] r[a] as int].mac@ != o[#[trigger] r[b] as int].mac@
    &&& forall|j: int|
        0 <= j < n ==> exists|k: int| 0 <= k < r.len() && o[#[trigger] r[k] as int].mac@ == (#[trigger] o[j]).mac@
}

proof fn lemma_kept_replace(o: Seq<DeviceObservation>, i: int, r: Seq<usize>, p: int)
    requires
        kept_for_prefix(o, i, r),
        i < o.len(),
        i <= usize::MAX,
        0 <= p < r.len(),
        o[r[p] as int].mac@ == o[i].mac@,
    ensures
        kept_for_prefix(
            o,
            i + 1,
            if o[i].last_seen_unix_ms > o[r[p] as int].last_seen_unix_ms {
                r.update(p, i as usize)
            } else {
                r
            },
        ),
{
    let q = r[p] as int;
    assert(latest_in_prefix(o, i, q));
    assert forall|k: int| 0 <= k < r.len() && k != p implies o[#[trigger] r[k] as int].mac@ != o[i].mac@ by {
        if k < p {
            assert(o[r[k] as int].mac@ != o[r[p] as int].mac@);
        } else {
            assert(o[r[p] as int].mac@ != o[r[k] as int].mac@);
        }
    }
    if o[i].last_seen_unix_ms > o[q].last_seen_unix_ms {
        let t = r.update(p, i as usize);
        assert(t[p] as int == i);
        assert forall|k: int| 0 <= k < t.len() implies latest_in_prefix(o, i + 1, #[trigger] t[k] as int) by {
            if k != p {
                assert(t[k] == r[k]);
                assert(latest_in_prefix(o, i, r[k] as int));
            } else {
                assert forall|j: int| 0 <= j < i + 1 && (#[trigger] o[j]).mac@ == o[i].mac@ implies o[j].last_seen_unix_ms <= o[i].last_seen_unix_ms by {
                    if j < i {
                        assert(o[j].last_seen_unix_ms <= o[q].last_seen_unix_ms);
                    }
                }
                assert forall|j: int| 0 <= j < i && (#[trigger] o[j]).mac@ == o[i].mac@ implies o[j].last_seen_unix_ms < o[i].last_seen_unix_ms by {
                    assert(o[j].last_seen_unix_ms <= o[q].last_seen_unix_ms);
                }
            }
        }
        assert forall|a: int, b: int| 0 <= a < b < t.len() implies o[#[trigger] t[a] as int].mac@ != o[#[trigger] t[b] as int].mac@ by {
            if a == p {
                assert(t[b] == r[b]);
                assert(o[r[p] as int].mac@ != o[r[b] as int].mac@);
            } else if b == p {
                assert(t[a] == r[a]);
                assert(o[r[a] as int].mac@ != o[r[p] as int].mac@);
            } else {
                assert(t[a] == r[a] && t[b] == r[b]);
            }
        }
        assert forall|j: int| 0 <= j < i + 1 implies exists|k: int| 0 <= k < t.len() && o[#[trigger] t[k] as int].mac@ == (#[trigger] o[j]).mac@ by {
            if j < i {
                let k = choose|k: int| 0 <= k < r.len() && o[#[trigger] r[k] as int].mac@ == o[j].mac@;
                if k == p {
                    assert(o[t[p] as int].mac@ == o[j].mac@);
                } else {
                    assert(t[k] == r[k]);
                }
            } else {
                assert(o[t[p] as int].mac@ == o[i].mac@);
            }
        }
    } else {
        assert forall|k: int| 0 <= k < r.len() implies latest_in_prefix(o, i + 1, #[trigger] r[k] as int) by {
            assert(latest_in_prefix(o, i, r[k] as int));
        }
        assert forall|j: int| 0 <= j < i + 1 implies exists|k: int| 0 <= k < r.len() && o[#[trigger] r[k] as int].mac@ == (#[trigger] o[j]).mac@ by {
            if j == i {
                assert(o[r[p] as int].mac@ == o[i].mac@);
            }
        }
    }
}

proof fn lemma_kept_push(o: Seq<DeviceObservation>, i: int, r: Seq<usize>)
    requires
        kept_for_prefix(o, i, r),
        i < o.len(),
        i <= usize::MAX,
        forall|k: int| 0 <= k < r.len() ==> o[#[trigger] r[k] as int].mac@ != o[i].mac@,
    ensures
        kept_for_prefix(o, i + 1, r.push(i as usize)),
{
    let t = r.push(i as usize);
    assert(t[r.len() as int] as int == i);
    assert forall|k: int| 0 <= k < t.len() implies latest_in_prefix(o, i + 1, #[trigger] t[k] as int) by {
        if k < r.len() {
            assert(t[k] == r[k]);
            assert(latest_in_prefix(o, i, r[k] as int));
        } else {
            assert forall|j: int| 0 <= j < i + 1 && (#[trigger] o[j]).mac@ == o[i].mac@ implies o[j].last_seen_unix_ms <= o[i].last_seen_unix_ms by {
                if j < i {
                    let k2 = choose|k2: int| 0 <= k2 < r.len() && o[#[trigger] r[k2] as int].mac@ == o[j].mac@;
                    assert(o[r[k2] as int].mac@ != o[i].mac@);
                }
            }
            assert forall|j: int| 0 <= j < i && (#[trigger] o[j]).mac@ == o[i].mac@ implies o[j].last_seen_unix_ms < o[i].last_seen_unix_ms by {
                let k2 = choose|k2: int| 0 <= k2 < r.len() && o[#[trigger] r[k2] as int].mac@ == o[j].mac@;
                assert(o[r[k2] as int].mac@ != o[i].mac@);
            }
        }
    }
    assert forall|a: int, b: int| 0 <= a < b < t.len() implies o[#[trigger] t[a] as int].mac@ != o[#[trigger] t[b] as int].mac@ by {
        assert(t[a] == r[a]);
        if b < r.len() {
            assert(t[b] == r[b]);
        } else {
            assert(o[r[a] as int].mac@ != o[i].mac@);
        }
    }
    assert forall|j: int| 0 <= j < i + 1 implies exists|k: int| 0 <= k < t.len() && o[#[trigger] t[k] as int].mac@ == (#[trigger] o[j]).mac@ by {
        if j < i {
            let k = choose|k: int| 0 <= k < r.len() && o[#[trigger] r[k] as int].mac@ == o[j].mac@;
            assert(t[k] == r[k]);
        } else {
            assert(o[t[r.len() as int] as int].mac@ == o[i].mac@);
        }
    }
}

/// The observation kept for each MAC of a batch (its index), MACs in the
/// order they first appear.
pub fn latest_observations(obs: &Vec<DeviceObservation>) -> (r: Vec<usize>)
    ensures
        kept_for_prefix(obs@, obs@.len() as int, r@),
{
    let ghost o = obs@;
    let mut r: Vec<usize> = Vec::new();
    let mut i: usize = 0;
    while i < obs.len()
        invariant
            o == obs@,
            i <= o.len(),
            kept_for_prefix(o, i as int, r@),
        decreases o.len() - i,
    {
        let mut p: usize = 0;
        while p < r.len() && !crate::sampling::bytes_eq(obs[r[p]].mac.as_slice(), obs[i].mac.as_slice())
            invariant
                p <= r@.len(),
                i < o.len(),
                o == obs@,
                kept_for_prefix(o, i as int, r@),
                forall|k: int| 0 <= k < p ==> o[#[trigger] r@[k] as int].mac@ != o[i as int].mac@,
            decreases r@.len() - p,
        {
            proof {
                assert(latest_in_prefix(o, i as int, r@[p as int] as int));
            }
            p = p + 1;
        }
        if p < r.len() {
            proof {
                lemma_kept_replace(o, i as int, r@, p as int);
            }
            let q = r[p];
            if obs[i].last_seen_unix_ms > obs[q].last_seen_unix_ms {
                r.set(p, i);
            }
        } else {
            proof {
                lemma_kept_push(o, i as int, r@);
            }
            r.push(i);
        }
        i = i + 1;
    }
    r
}
/// The flows whose destination domain is evidence about their client: a
/// six-byte client MAC and a domain attributed to the flow (domains taken
/// flow by flow, the `i`th for the `i`th flow).
pub open spec fn destination_spec(
    flows: Seq<crate::ingest::TelemetryFlow>,
    domains: Seq<Option<String>>,
    n: int,
) -> Seq<usize>
    decreases n,
{
    if n <= 0 {
        Seq::empty()
    } else {
        let prev = destination_spec(flows, domains, n - 1);
        let i = n - 1;
        if flows[i].client_mac@.len() == 6 && i < domains.len() && domains[i] is Some {
            prev.push(i as usize)
        } else {
            prev
        }
    }
}

pub fn destination_candidates(
    flows: &Vec<crate::ingest::TelemetryFlow>,
    domains: &Vec<Option<String>>,
) -> (r: Vec<usize>)
    ensures
        r@ == destination_spec(flows@, domains@, flows@.len() as int),
{
    let mut r: Vec<usize> = Vec::new();
    let mut i: usize = 0;
    while i < flows.len()
        invariant
            i <= flows@.len(),
            r@ == destination_spec(flows@, domains@, i as int),
        decreases flows@.len() - i,
    {
        if flows[i].client_mac.len() == 6 && i < domains.len() && domains[i].is_some() {
            r.push(i);
        }
        i = i + 1;
    }
    r
}

} // verus!
