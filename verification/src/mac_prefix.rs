//! Hardware-address vendor prefixes from the IEEE registry and their
//! longest-prefix lookup.

use std::collections::HashMap;

use sha2::Digest;
use vstd::prelude::*;
use vstd::string::StringSliceAdditionalSpecFns;

use crate::text::{
    chars_of, find_from, first_match_from, hex_bytes, hex_encode, is_ws, lemma_hex_bytes_len, lemma_first_match_props,
    slice_range, split_once_chars, split_once_spec, string_from_chars, trim_chars, trim_seq,
};

verus! {

/// Name of the registry the dataset comes from.
pub const DEFAULT_SOURCE: &'static str = "IEEE";

/// Licence note of the registry data.
pub const DEFAULT_LICENSE: &'static str = "IEEE Registration Authority public registry";

/// Longest prefix, in bits, that a lookup considers.
pub const MAX_PREFIX_BITS: u8 = 48;

pub open spec fn is_separator(c: char) -> bool {
    c == '-' || c == ':' || c == '.'
}

pub open spec fn is_hex_char(c: char) -> bool {
    ('0' <= c && c <= '9') || ('a' <= c && c <= 'f') || ('A' <= c && c <= 'F')
}

pub open spec fn hex_value(c: char) -> int {
    if '0' <= c && c <= '9' {
        c as int - 48
    } else if 'a' <= c && c <= 'f' {
        c as int - 87
    } else {
        c as int - 55
    }
}

/// The prefix text without separators.
pub open spec fn clean_hex(v: Seq<char>) -> Seq<char> {
    v.filter(|c: char| !is_separator(c))
}

/// Hex digits padded with a trailing `0` to a whole number of bytes.
pub open spec fn padded_hex(h: Seq<char>) -> Seq<char> {
    if h.len() % 2 != 0 {
        h.push('0')
    } else {
        h
    }
}

/// Bytes of an even-length run of hex digits.
pub open spec fn hex_pairs(p: Seq<char>) -> Seq<u8> {
    Seq::new(p.len() / 2, |k: int| (hex_value(p[2 * k]) * 16 + hex_value(p[2 * k + 1])) as u8)
}

/// The bytes and bit length of a written prefix such as `A0-B2-C3` or
/// `A0B2C3D`: one to twelve hex digits once `-`, `:` and `.` are removed.
pub open spec fn parse_prefix_spec(v: Seq<char>) -> Option<(Seq<u8>, u8)> {
    let h = clean_hex(v);
    if h.len() == 0 || h.len() > 12 || !(forall|i: int| 0 <= i < h.len() ==> is_hex_char(h[i])) {
        None
    } else {
        Some((hex_pairs(padded_hex(h)), (h.len() * 4) as u8))
    }
}

fn hex_value_exec(c: char) -> (r: u8)
    requires
        is_hex_char(c),
    ensures
        r == hex_value(c),
{
    if '0' <= c && c <= '9' {
        (c as u8) - 48
    } else if 'a' <= c && c <= 'f' {
        (c as u8) - 87
    } else {
        (c as u8) - 55
    }
}

fn parse_prefix_chars(v: &[char]) -> (r: Option<(Vec<u8>, u8)>)
    ensures
        match r {
            Some((bytes, bits)) => parse_prefix_spec(v@) == Some((bytes@, bits)),
            None => parse_prefix_spec(v@) is None,
        },
{
    let ghost pred = |c: char| !is_separator(c);
    let mut h: Vec<char> = Vec::new();
    let mut i: usize = 0;
    while i < v.len()
        invariant
            i <= v@.len(),
            pred == (|c: char| !is_separator(c)),
            h@ == v@.take(i as int).filter(pred),
        decreases v@.len() - i,
    {
        proof {
            assert(v@.take(i as int + 1) =~= v@.take(i as int).push(v@[i as int]));
            v@.take(i as int).lemma_filter_push(v@[i as int], pred);
        }
        let c = v[i];
        if !(c == '-' || c == ':' || c == '.') {
            h.push(c);
        }
        i = i + 1;
    }
    assert(v@.take(v@.len() as int) =~= v@);
    assert(h@ == clean_hex(v@));
    if h.len() == 0 || h.len() > 12 {
        return None;
    }
    let mut k: usize = 0;
    while k < h.len()
        invariant
            k <= h@.len(),
            h@ == clean_hex(v@),
            forall|j: int| 0 <= j < k ==> is_hex_char(h@[j]),
        decreases h@.len() - k,
    {
        let c = h[k];
        if !(('0' <= c && c <= '9') || ('a' <= c && c <= 'f') || ('A' <= c && c <= 'F')) {
            assert(!is_hex_char(h@[k as int]));
            return None;
        }
        k = k + 1;
    }
    let bits: u8 = (h.len() * 4) as u8;
    let ghost hh = h@;
    if h.len() % 2 != 0 {
        h.push('0');
    }
    assert(h@ == padded_hex(hh));
    assert(forall|j: int| 0 <= j < h@.len() ==> is_hex_char(h@[j]));
    let mut bytes: Vec<u8> = Vec::new();
    let mut p: usize = 0;
    while p < h.len() / 2
        invariant
            p <= h@.len() / 2,
            h@.len() <= 13,
            forall|j: int| 0 <= j < h@.len() ==> is_hex_char(h@[j]),
            bytes@ == hex_pairs(h@).take(p as int),
        decreases h@.len() / 2 - p,
    {
        let hi = hex_value_exec(h[2 * p]);
        let lo = hex_value_exec(h[2 * p + 1]);
        bytes.push(hi * 16 + lo);
        p = p + 1;
        assert(bytes@ =~= hex_pairs(h@).take(p as int));
    }
    assert(hex_pairs(h@).take(p as int) =~= hex_pairs(h@));
    Some((bytes, bits))
}

/// Parses a written MAC prefix into its bytes and its length in bits.
pub fn parse_prefix(value: &str) -> (r: Option<(Vec<u8>, u8)>)
    ensures
        match r {
            Some((bytes, bits)) => parse_prefix_spec(value@) == Some((bytes@, bits)),
            None => parse_prefix_spec(value@) is None,
        },
{
    let v = chars_of(value);
    parse_prefix_chars(v.as_slice())
}

/// Mask of the top `rem` bits of a byte.
pub open spec fn top_mask(rem: u8) -> u8 {
    (0xffu8 << ((8 - rem) as u8)) as u8
}

pub open spec fn take_opt(s: Seq<u8>, n: int) -> Option<Seq<u8>> {
    if n <= s.len() {
        Some(s.take(n))
    } else {
        None
    }
}

/// Whether the first `bits` bits of `mac` equal those of `prefix`. When
/// either side is too short to hold them, only whole-byte prefixes can
/// match, and then only if both sides are equally short or equal.
pub open spec fn prefix_matches_spec(mac: Seq<u8>, prefix: Seq<u8>, bits: u8) -> bool {
    let full = (bits / 8) as int;
    let rem = bits % 8;
    if mac.len() < full + (if rem != 0 {
        1int
    } else {
        0
    }) || prefix.len() <= full {
        rem == 0 && take_opt(mac, full) == take_opt(prefix, full)
    } else {
        mac.take(full) == prefix.take(full) && (rem == 0 || (mac[full] & top_mask(rem)) == (
        prefix[full] & top_mask(rem)))
    }
}

fn bytes_eq_prefix(a: &[u8], b: &[u8], n: usize) -> (r: bool)
    requires
        n <= a@.len(),
        n <= b@.len(),
    ensures
        r == (a@.take(n as int) == b@.take(n as int)),
{
    let mut i: usize = 0;
    while i < n
        invariant
            i <= n,
            n <= a@.len(),
            n <= b@.len(),
            forall|j: int| 0 <= j < i ==> a@[j] == b@[j],
        decreases n - i,
    {
        if a[i] != b[i] {
            assert(a@.take(n as int)[i as int] != b@.take(n as int)[i as int]);
            return false;
        }
        i = i + 1;
    }
    assert(a@.take(n as int) =~= b@.take(n as int));
    true
}

/// Whether the first `bits` bits of a hardware address match a prefix.
pub fn prefix_matches(mac: &[u8], prefix: &[u8], bits: u8) -> (r: bool)
    ensures
        r == prefix_matches_spec(mac@, prefix@, bits),
{
    let full: usize = (bits / 8) as usize;
    let rem: u8 = bits % 8;
    let extra: usize = if rem != 0 {
        1
    } else {
        0
    };
    if mac.len() < full + extra || prefix.len() <= full {
        if rem != 0 {
            return false;
        }
        let mac_short = mac.len() < full;
        let prefix_short = prefix.len() < full;
        if mac_short || prefix_short {
            proof {
                if mac_short != prefix_short {
                    assert(take_opt(mac@, full as int) != take_opt(prefix@, full as int));
                }
            }
            return mac_short && prefix_short;
        }
        return bytes_eq_prefix(mac, prefix, full);
    }
    if !bytes_eq_prefix(mac, prefix, full) {
        return false;
    }
    if rem == 0 {
        return true;
    }
    let mask: u8 = 0xffu8 << (8 - rem);
    mac[full] & mask == prefix[full] & mask
}

/// Whether a hardware address is locally administered (randomised).
pub open spec fn is_locally_administered_spec(mac: Seq<u8>) -> bool {
    mac.len() == 6 && mac[0] & 0x02 != 0
}

/// Whether a six-byte hardware address has the locally-administered bit set.
pub fn is_locally_administered(mac: &[u8]) -> (r: bool)
    ensures
        r == is_locally_administered_spec(mac@),
{
    mac.len() == 6 && mac[0] & 0x02 != 0
}

/// Law: a hardware address is locally administered exactly when it has six
/// bytes and the second-lowest bit of its first byte (the U/L bit, worth 2)
/// is set, that is when the first byte divided by two is odd.
pub proof fn lemma_locally_administered_bit(mac: Seq<u8>)
    ensures
        is_locally_administered_spec(mac) <==> (mac.len() == 6 && (mac[0] / 2) % 2 == 1),
{
    if mac.len() == 6 {
        let b = mac[0];
        assert((b & 0x02 != 0) == ((b / 2) % 2 == 1)) by (bit_vector);
    }
}

/// One registry entry: a prefix, its length in bits and its vendor.
#[derive(Debug)]
pub struct MacPrefixEntry {
    pub prefix: Vec<u8>,
    pub prefix_bits: u8,
    pub vendor: String,
}

/// Abstract view of an entry.
pub type EntryView = (Seq<u8>, u8, Seq<char>);

impl View for MacPrefixEntry {
    type V = EntryView;

    open spec fn view(&self) -> EntryView {
        (self.prefix@, self.prefix_bits, self.vendor@)
    }
}

/// The entry a registry line describes: `<prefix> (hex) <vendor>` or
/// `<prefix> (base 16) <vendor>`, with a non-empty vendor.
pub open spec fn oui_line_spec(line: Seq<char>) -> Option<EntryView> {
    let sp = match split_once_spec(line, "(hex)"@) {
        Some(x) => Some(x),
        None => split_once_spec(line, "(base 16)"@),
    };
    match sp {
        None => None,
        Some((p, v)) => match parse_prefix_spec(trim_seq(p)) {
            None => None,
            Some((bytes, bits)) => if trim_seq(v).len() == 0 {
                None
            } else {
                Some((bytes, bits, trim_seq(v)))
            },
        },
    }
}

fn parse_oui_line_chars(line: &[char]) -> (r: Option<MacPrefixEntry>)
    ensures
        match r {
            Some(e) => oui_line_spec(line@) == Some(e@),
            None => oui_line_spec(line@) is None,
        },
{
    let hex = chars_of("(hex)");
    let base = chars_of("(base 16)");
    let sp = match split_once_chars(line, hex.as_slice()) {
        Some(x) => Some(x),
        None => split_once_chars(line, base.as_slice()),
    };
    let (p, v) = match sp {
        Some(x) => x,
        None => return None,
    };
    let p = trim_chars(p.as_slice());
    let (prefix, prefix_bits) = match parse_prefix_chars(p.as_slice()) {
        Some(x) => x,
        None => return None,
    };
    let v = trim_chars(v.as_slice());
    if v.len() == 0 {
        return None;
    }
    Some(MacPrefixEntry { prefix, prefix_bits, vendor: string_from_chars(v.as_slice()) })
}

/// Parses one line of the IEEE registry text.
pub fn parse_ieee_oui_line(line: &str) -> (r: Option<MacPrefixEntry>)
    ensures
        match r {
            Some(e) => oui_line_spec(line@) == Some(e@),
            None => oui_line_spec(line@) is None,
        },
{
    let chars = chars_of(line);
    parse_oui_line_chars(chars.as_slice())
}

/// The entries of the registry text from position `pos` on: each line, split
/// at `\n`, that parses. Lines parse the same with or without a trailing
/// `\r`, since prefix and vendor are trimmed.
pub open spec fn oui_entries_from(raw: Seq<char>, pos: int) -> Seq<EntryView>
    decreases raw.len() - pos,
{
    if pos < 0 || pos > raw.len() {
        Seq::empty()
    } else {
        let end = match first_match_from(raw, seq!['\n'], pos) {
            Some(i) => i,
            None => raw.len() as int,
        };
        let here = match oui_line_spec(raw.subrange(pos, end)) {
            Some(e) => seq![e],
            None => Seq::empty(),
        };
        if end < raw.len() {
            proof {
                lemma_first_match_props(raw, seq!['\n'], pos);
            }
            here + oui_entries_from(raw, end + 1)
        } else {
            here
        }
    }
}

/// All entries of a registry text.
pub open spec fn oui_entries(raw: Seq<char>) -> Seq<EntryView> {
    oui_entries_from(raw, 0)
}

pub open spec fn entries_view(v: Seq<MacPrefixEntry>) -> Seq<EntryView> {
    Seq::new(v.len(), |i: int| v[i]@)
}

fn parse_oui_entries(raw: &[char]) -> (r: Vec<MacPrefixEntry>)
    ensures
        entries_view(r@) == oui_entries(raw@),
{
    let nl = chars_of("\n");
    proof {
        reveal_strlit("\n");
        assert(nl@ =~= seq!['\n']);
    }
    let mut out: Vec<MacPrefixEntry> = Vec::new();
    let mut pos: usize = 0;
    loop
        invariant
            pos <= raw@.len(),
            nl@ == seq!['\n'],
            entries_view(out@) + oui_entries_from(raw@, pos as int) == oui_entries(raw@),
        decreases raw@.len() - pos,
    {
        proof {
            lemma_first_match_props(raw@, nl@, pos as int);
        }
        let found = find_from(raw, nl.as_slice(), pos);
        let end = match found {
            Some(i) => i,
            None => raw.len(),
        };
        let line = slice_range(raw, pos, end);
        let ghost before = entries_view(out@);
        match parse_oui_line_chars(line.as_slice()) {
            Some(e) => {
                out.push(e);
            },
            None => {},
        }
        proof {
            let here = match oui_line_spec(raw@.subrange(pos as int, end as int)) {
                Some(e) => seq![e],
                None => Seq::<EntryView>::empty(),
            };
            assert(entries_view(out@) =~= before + here);
        }
        if end >= raw.len() {
            proof {
                assert(oui_entries_from(raw@, end as int + 1) =~= Seq::<EntryView>::empty()) by {
                    if (end as int) < raw@.len() {
                    }
                };
            }
            return out;
        }
        pos = end + 1;
    }
}


/// What a SHA-256 digest of the given bytes is.
pub uninterp spec fn sha256_spec(data: Seq<u8>) -> Seq<u8>;

/// Calls `sha2::Sha256::digest`; the digest is named `sha256_spec` and is 32
/// bytes long.
#[verifier::external_body]
pub(crate) fn sha256(data: &[u8]) -> (r: Vec<u8>)
    ensures
        r@ == sha256_spec(data@),
        r@.len() == 32,
{
    sha2::Sha256::digest(data).to_vec()
}

/// Lower-case hexadecimal SHA-256 digest of a byte string.
pub fn hex_digest(bytes: &[u8]) -> (r: String)
    ensures
        r@ == hex_bytes(sha256_spec(bytes@)),
        r@.len() == 64,
{
    let digest = sha256(bytes);
    let text = hex_encode(digest.as_slice());
    proof {
        lemma_hex_bytes_len(digest@);
    }
    string_from_chars(text.as_slice())
}


/// Decimal seconds text of a Unix time, as the dataset records it.
pub fn iso_time(unix_s: u64) -> (r: String)
    ensures
        r@ == crate::text::decimal(unix_s as nat),
{
    let mut out: Vec<char> = Vec::new();
    crate::text::push_decimal(&mut out, unix_s);
    string_from_chars(out.as_slice())
}

/// Provenance of a prefix dataset.
#[derive(Debug)]
pub struct MacDatasetMetadata {
    pub source: String,
    pub source_url: String,
    pub source_version: String,
    pub updated_at: String,
    pub license: String,
    pub checksum: String,
    pub entry_count: usize,
}

/// The vendor prefixes of the registry, indexed by prefix length.
#[derive(Debug)]
pub struct MacPrefixDataset {
    metadata: MacDatasetMetadata,
    entries: Vec<MacPrefixEntry>,
    by_length: HashMap<u8, Vec<usize>>,
}

/// The entry indices the index lists under a prefix length; none where the
/// length has no bucket.
pub open spec fn bucket_at(m: Map<u8, Vec<usize>>, bits: u8) -> Seq<usize> {
    if m.contains_key(bits) {
        m[bits]@
    } else {
        Seq::empty()
    }
}

/// The bit length an entry is indexed under: as stored, or the whole-byte
/// length of its prefix when stored as 0 (and 0 again when that overflows a
/// byte).
pub open spec fn effective_bits(e: EntryView) -> u8 {
    if e.1 == 0 {
        if e.0.len() * 8 <= 255 {
            (e.0.len() * 8) as u8
        } else {
            0
        }
    } else {
        e.1
    }
}

pub open spec fn with_effective_bits(es: Seq<EntryView>) -> Seq<EntryView> {
    Seq::new(es.len(), |i: int| (es[i].0, effective_bits(es[i]), es[i].2))
}

impl MacPrefixDataset {
    /// The provenance record.
    pub closed spec fn metadata_spec(&self) -> MacDatasetMetadata {
        self.metadata
    }

    /// The provenance record.
    pub fn metadata(&self) -> (r: &MacDatasetMetadata)
        ensures
            *r == self.metadata_spec(),
    {
        &self.metadata
    }

    /// The entries in registry order.
    pub closed spec fn entries_spec(&self) -> Seq<EntryView> {
        entries_view(self.entries@)
    }

    /// Each bucket lists, in increasing order, exactly the indices of the
    /// entries of that prefix length.
    pub closed spec fn well_formed(&self) -> bool {
        forall|b: u8|
            bucket_ok(
                #[trigger] bucket_at(self.by_length@, b),
                self.entries@,
                b as int,
                self.entries@.len() as int,
            )
    }

    /// An empty dataset.
    pub fn new() -> (r: Self)
        ensures
            r.well_formed(),
            r.entries_spec() == Seq::<EntryView>::empty(),
            r.metadata_spec().entry_count == 0,
    {
        let mut r = MacPrefixDataset {
            metadata: MacDatasetMetadata {
                source: String::new(),
                source_url: String::new(),
                source_version: String::new(),
                updated_at: String::new(),
                license: String::new(),
                checksum: String::new(),
                entry_count: 0,
            },
            entries: Vec::new(),
            by_length: HashMap::new(),
        };
        r.rebuild_index();
        assert(r.entries_spec() =~= Seq::<EntryView>::empty());
        r
    }

    /// A dataset from stored metadata and entries, with its index rebuilt.
    pub fn from_parts(metadata: MacDatasetMetadata, entries: Vec<MacPrefixEntry>) -> (r: Self)
        ensures
            r.well_formed(),
            r.entries_spec() == with_effective_bits(entries_view(entries@)),
            r.metadata_spec() == metadata,
    {
        let mut r = MacPrefixDataset { metadata, entries, by_length: HashMap::new() };
        r.rebuild_index();
        r
    }

    /// Number of entries the provenance record counts.
    pub fn entry_count(&self) -> (r: usize)
        ensures
            r == self.metadata_spec().entry_count,
    {
        self.metadata.entry_count
    }

    /// Gives entries stored without a length the whole-byte length of their
    /// prefix and rebuilds the per-length index.
    pub fn rebuild_index(&mut self)
        ensures
            final(self).well_formed(),
            final(self).entries_spec() == with_effective_bits(old(self).entries_spec()),
            final(self).metadata_spec() == old(self).metadata_spec(),
    {
        let mut buckets: HashMap<u8, Vec<usize>> = HashMap::new();
        let n = self.entries.len();
        let ghost old_entries = entries_view(self.entries@);
        let ghost meta0 = self.metadata;
        let mut k: usize = 0;
        while k < n
            invariant
                k <= n,
                n == self.entries@.len(),
                self.metadata == meta0,
                old_entries.len() == n,
                forall|i: int|
                    0 <= i < k ==> entries_view(self.entries@)[i] == with_effective_bits(
                        old_entries,
                    )[i],
                forall|i: int| k <= i < n ==> entries_view(self.entries@)[i] == old_entries[i],
                forall|bb: u8| bucket_ok(#[trigger] bucket_at(buckets@, bb), self.entries@, bb as int, k as int),
            decreases n - k,
        {
            let ghost before_entries = self.entries@;
            if self.entries[k].prefix_bits == 0 {
                let l = self.entries[k].prefix.len();
                let bits: u8 = if l <= 31 {
                    (l * 8) as u8
                } else {
                    0
                };
                self.entries[k].prefix_bits = bits;
            }
            let bits = self.entries[k].prefix_bits;
            proof {
                assert forall|i: int| 0 <= i < n && i != k implies self.entries@[i]
                    == before_entries[i] by {}
                assert forall|bb: u8| bucket_ok(
                    #[trigger] bucket_at(buckets@, bb),
                    self.entries@,
                    bb as int,
                    k as int,
                ) by {
                    lemma_bucket_frame(bucket_at(buckets@, bb), before_entries, self.entries@, bb as int, k as int);
                }
            }
            let ghost before = buckets@;
            let mut bucket: Vec<usize> = match buckets.remove(&bits) {
                Some(v) => v,
                None => Vec::new(),
            };
            assert(bucket@ == bucket_at(before, bits));
            bucket.push(k);
            buckets.insert(bits, bucket);
            proof {
                assert forall|bb: u8| bucket_ok(
                    #[trigger] bucket_at(buckets@, bb),
                    self.entries@,
                    bb as int,
                    k + 1,
                ) by {
                    if bb == bits {
                        lemma_bucket_push(bucket_at(before, bb), self.entries@, bb as int, k);
                    } else {
                        assert(bucket_at(buckets@, bb) == bucket_at(before, bb));
                        lemma_bucket_skip(bucket_at(buckets@, bb), self.entries@, bb as int, k as int);
                    }
                }
            }
            k = k + 1;
        }
        self.by_length = buckets;
        assert(entries_view(self.entries@) =~= with_effective_bits(old_entries));
    }
}

/// Whether entry `e` has length `b` and its prefix covers `mac`.
pub open spec fn entry_matches(e: EntryView, mac: Seq<u8>, b: int) -> bool {
    e.1 == b && prefix_matches_spec(mac, e.0, b as u8)
}

/// The first entry at or after `k` of length `b` that covers `mac`.
pub open spec fn first_entry(es: Seq<EntryView>, mac: Seq<u8>, b: int, k: int) -> Option<int>
    decreases es.len() - k,
{
    if k < 0 || k >= es.len() {
        None
    } else if entry_matches(es[k], mac, b) {
        Some(k)
    } else {
        first_entry(es, mac, b, k + 1)
    }
}

/// The vendor of the longest covering prefix of length at most `b`; among
/// entries of that length the first one wins.
pub open spec fn best_from(es: Seq<EntryView>, mac: Seq<u8>, b: int) -> Option<Seq<char>>
    decreases b,
{
    if b <= 0 {
        None
    } else {
        match first_entry(es, mac, b, 0) {
            Some(k) => Some(es[k].2),
            None => best_from(es, mac, b - 1),
        }
    }
}

/// What a lookup returns: the vendor of the longest prefix (up to 48 bits)
/// that covers a six-byte address.
pub open spec fn lookup_spec(es: Seq<EntryView>, mac: Seq<u8>) -> Option<Seq<char>> {
    if mac.len() != 6 {
        None
    } else {
        best_from(es, mac, 48)
    }
}

proof fn lemma_first_entry_found(es: Seq<EntryView>, mac: Seq<u8>, b: int, start: int, k: int)
    requires
        0 <= start <= k < es.len(),
        entry_matches(es[k], mac, b),
        forall|i: int| start <= i < k ==> !entry_matches(#[trigger] es[i], mac, b),
    ensures
        first_entry(es, mac, b, start) == Some(k),
    decreases k - start,
{
    if start < k {
        lemma_first_entry_found(es, mac, b, start + 1, k);
    }
}

proof fn lemma_first_entry_none(es: Seq<EntryView>, mac: Seq<u8>, b: int, start: int)
    requires
        0 <= start,
        forall|i: int| start <= i < es.len() ==> !entry_matches(#[trigger] es[i], mac, b),
    ensures
        first_entry(es, mac, b, start) is None,
    decreases es.len() - start,
{
    if start < es.len() {
        lemma_first_entry_none(es, mac, b, start + 1);
    }
}

impl MacPrefixDataset {
    /// The vendor registered for the longest prefix that covers a six-byte
    /// hardware address.
    pub fn lookup(&self, mac: &[u8]) -> (r: Option<&str>)
        requires
            self.well_formed(),
        ensures
            match r {
                Some(v) => lookup_spec(self.entries_spec(), mac@) == Some(v@),
                None => lookup_spec(self.entries_spec(), mac@) is None,
            },
    {
        if mac.len() != 6 {
            return None;
        }
        let ghost es = self.entries_spec();
        let mut bits: u8 = 48;
        while bits >= 1
            invariant
                bits <= 48,
                mac@.len() == 6,
                es == self.entries_spec(),
                self.well_formed(),
                best_from(es, mac@, 48) == best_from(es, mac@, bits as int),
            decreases bits,
        {
            let empty: Vec<usize> = Vec::new();
            let bucket: &Vec<usize> = match self.by_length.get(&bits) {
                Some(v) => v,
                None => &empty,
            };
            assert(bucket@ == bucket_at(self.by_length@, bits));
            let mut j: usize = 0;
            while j < bucket.len()
                invariant
                    j <= bucket@.len(),
                    1 <= bits <= 48,
                    mac@.len() == 6,
                    best_from(es, mac@, 48) == best_from(es, mac@, bits as int),
                    es == self.entries_spec(),
                    self.well_formed(),
                    bucket@ == bucket_at(self.by_length@, bits),
                    forall|jj: int|
                        0 <= jj < j ==> !entry_matches(
                            #[trigger] es[bucket@[jj] as int],
                            mac@,
                            bits as int,
                        ),
                decreases bucket@.len() - j,
            {
                let k = bucket[j];
                let e = &self.entries[k];
                if prefix_matches(mac, e.prefix.as_slice(), bits) {
                    proof {
                        assert forall|i: int| 0 <= i < k implies !entry_matches(
                            #[trigger] es[i],
                            mac@,
                            bits as int,
                        ) by {
                            if entry_matches(es[i], mac@, bits as int) {
                                let jj = choose|jj: int|
                                    0 <= jj < bucket@.len() && bucket@[jj] == i;
                                if jj >= j {
                                    if jj > j {
                                        assert(bucket@[j as int] < bucket@[jj]);
                                    }
                                }
                            }
                        }
                        lemma_first_entry_found(es, mac@, bits as int, 0, k as int);
                        assert(es[k as int].2 == e.vendor@);
                    }
                    return Some(e.vendor.as_str());
                }
                j = j + 1;
            }
            proof {
                assert forall|i: int| 0 <= i < es.len() implies !entry_matches(
                    #[trigger] es[i],
                    mac@,
                    bits as int,
                ) by {
                    if entry_matches(es[i], mac@, bits as int) {
                        let jj = choose|jj: int| 0 <= jj < bucket@.len() && bucket@[jj] == i;
                        assert(!entry_matches(es[bucket@[jj] as int], mac@, bits as int));
                    }
                }
                lemma_first_entry_none(es, mac@, bits as int, 0);
            }
            bits = bits - 1;
        }
        None
    }
}

/// A bucket that indexes, in increasing order, exactly the entries below `k`
/// of length `bb`.
pub open spec fn bucket_ok(bucket: Seq<usize>, entries: Seq<MacPrefixEntry>, bb: int, k: int) -> bool {
    &&& forall|j: int|
        0 <= j < bucket.len() ==> bucket[j] < k && entries[bucket[j] as int].prefix_bits == bb
    &&& forall|j1: int, j2: int| 0 <= j1 < j2 < bucket.len() ==> bucket[j1] < bucket[j2]
    &&& forall|i: int|
        0 <= i < k && entries[i].prefix_bits == bb ==> exists|j: int|
            0 <= j < bucket.len() && bucket[j] == i
}

proof fn lemma_bucket_frame(
    bucket: Seq<usize>,
    e1: Seq<MacPrefixEntry>,
    e2: Seq<MacPrefixEntry>,
    bb: int,
    k: int,
)
    requires
        bucket_ok(bucket, e1, bb, k),
        0 <= k < e1.len(),
        e1.len() == e2.len(),
        forall|i: int| 0 <= i < e1.len() && i != k ==> e2[i] == e1[i],
    ensures
        bucket_ok(bucket, e2, bb, k),
{
    assert forall|i: int| 0 <= i < k && e2[i].prefix_bits == bb implies exists|j: int|
        0 <= j < bucket.len() && bucket[j] == i by {
        assert(e1[i] == e2[i]);
    }
}

proof fn lemma_bucket_push(bucket: Seq<usize>, entries: Seq<MacPrefixEntry>, bb: int, k: usize)
    requires
        bucket_ok(bucket, entries, bb, k as int),
        0 <= k < entries.len(),
        entries[k as int].prefix_bits == bb,
    ensures
        bucket_ok(bucket.push(k), entries, bb, k + 1),
{
    let nb = bucket.push(k);
    assert forall|i: int| 0 <= i < k + 1 && entries[i].prefix_bits == bb implies exists|j: int|
        0 <= j < nb.len() && nb[j] == i by {
        if i < k {
            let j = choose|j: int| 0 <= j < bucket.len() && bucket[j] == i;
            assert(nb[j] == i);
        } else {
            assert(nb[bucket.len() as int] == i);
        }
    }
}

proof fn lemma_bucket_skip(bucket: Seq<usize>, entries: Seq<MacPrefixEntry>, bb: int, k: int)
    requires
        bucket_ok(bucket, entries, bb, k),
        0 <= k < entries.len(),
        entries[k].prefix_bits != bb,
    ensures
        bucket_ok(bucket, entries, bb, k + 1),
{
}


/// The entry count, checksum and provenance `from_ieee_oui_at` records.
pub open spec fn dataset_from_ok(
    d: MacPrefixDataset,
    raw: Seq<char>,
    bytes: Seq<u8>,
    source_url: Seq<char>,
    now_unix_s: u64,
) -> bool {
    let checksum = hex_bytes(sha256_spec(bytes));
    &&& d.well_formed()
    &&& d.entries_spec() == with_effective_bits(oui_entries(raw))
    &&& d.metadata_spec().source@ == DEFAULT_SOURCE@
    &&& d.metadata_spec().source_url@ == source_url
    &&& d.metadata_spec().checksum@ == checksum
    &&& d.metadata_spec().source_version@ == checksum.take(12)
    &&& d.metadata_spec().updated_at@ == crate::text::decimal(now_unix_s as nat)
    &&& d.metadata_spec().license@ == DEFAULT_LICENSE@
    &&& d.metadata_spec().entry_count == oui_entries(raw).len()
}

impl MacPrefixDataset {
    /// Builds the dataset from the registry text, recording `now_unix_s` as
    /// its update time. Fails when no line parses.
    pub fn from_ieee_oui_at(raw: &str, source_url: &str, now_unix_s: u64) -> (r: Result<
        Self,
        String,
    >)
        ensures
            match r {
                Ok(d) => oui_entries(raw@).len() > 0 && dataset_from_ok(
                    d,
                    raw@,
                    raw.spec_bytes(),
                    source_url@,
                    now_unix_s,
                ),
                Err(e) => oui_entries(raw@).len() == 0 && e@
                    == "IEEE OUI source did not contain any parseable entries"@,
            },
    {
        let chars = chars_of(raw);
        let entries = parse_oui_entries(chars.as_slice());
        if entries.len() == 0 {
            return Err("IEEE OUI source did not contain any parseable entries".to_owned());
        }
        let checksum = hex_digest(raw.as_bytes());
        let cs = chars_of(checksum.as_str());
        let version = slice_range(cs.as_slice(), 0, 12);
        let count = entries.len();
        let metadata = MacDatasetMetadata {
            source: DEFAULT_SOURCE.to_owned(),
            source_url: source_url.to_owned(),
            source_version: string_from_chars(version.as_slice()),
            updated_at: iso_time(now_unix_s),
            license: DEFAULT_LICENSE.to_owned(),
            checksum,
            entry_count: count,
        };
        assert(cs@.subrange(0, 12) =~= cs@.take(12));
        Ok(MacPrefixDataset::from_parts(metadata, entries))
    }

    /// Builds the dataset from the registry text at the current time.
    pub fn from_ieee_oui(raw: &str, source_url: &str) -> (r: Result<Self, String>)
        ensures
            match r {
                Ok(d) => oui_entries(raw@).len() > 0 && exists|t: u64|
                    dataset_from_ok(d, raw@, raw.spec_bytes(), source_url@, t),
                Err(e) => oui_entries(raw@).len() == 0 && e@
                    == "IEEE OUI source did not contain any parseable entries"@,
            },
    {
        let now = crate::clock::unix_time_s();
        Self::from_ieee_oui_at(raw, source_url, now)
    }
}

} // verus!
