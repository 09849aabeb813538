//! Character-level helpers shared by the parsers and formatters.

use vstd::prelude::*;

verus! {

/// Lower-case hexadecimal digit for a nibble.
pub open spec fn hex_digit(n: int) -> char {
    if n < 10 {
        (48 + n) as char
    } else {
        (87 + n) as char
    }
}

/// The two lower-case hexadecimal digits of a byte.
pub open spec fn hex_byte(b: u8) -> Seq<char> {
    seq![hex_digit(b as int / 16), hex_digit(b as int % 16)]
}

/// Concatenated lower-case hexadecimal digits of a byte sequence.
pub open spec fn hex_bytes(bytes: Seq<u8>) -> Seq<char>
    decreases bytes.len(),
{
    if bytes.len() == 0 {
        Seq::empty()
    } else {
        hex_bytes(bytes.drop_last()) + hex_byte(bytes.last())
    }
}

pub fn hex_digit_exec(n: u8) -> (c: char)
    requires
        n < 16,
    ensures
        c == hex_digit(n as int),
{
    if n < 10 {
        (48u8 + n) as char
    } else {
        (87u8 + n) as char
    }
}

/// Appends the two hexadecimal digits of `b`.
pub fn push_hex_byte(out: &mut Vec<char>, b: u8)
    ensures
        final(out)@ == old(out)@ + hex_byte(b),
{
    out.push(hex_digit_exec(b / 16));
    out.push(hex_digit_exec(b % 16));
}

/// Lower-case hexadecimal encoding of a byte slice.
pub fn hex_encode(bytes: &[u8]) -> (out: Vec<char>)
    ensures
        out@ == hex_bytes(bytes@),
{
    let mut out: Vec<char> = Vec::new();
    let mut i: usize = 0;
    while i < bytes.len()
        invariant
            i <= bytes@.len(),
            out@ == hex_bytes(bytes@.take(i as int)),
        decreases bytes@.len() - i,
    {
        let b = bytes[i];
        push_hex_byte(&mut out, b);
        assert(bytes@.take(i as int + 1).drop_last() == bytes@.take(i as int));
        i = i + 1;
    }
    assert(bytes@.take(bytes@.len() as int) == bytes@);
    out
}

/// Hexadecimal text has two digits per byte.
pub proof fn lemma_hex_bytes_len(b: Seq<u8>)
    ensures
        hex_bytes(b).len() == 2 * b.len(),
    decreases b.len(),
{
    if b.len() > 0 {
        lemma_hex_bytes_len(b.drop_last());
    }
}

/// Decimal digit character.
pub open spec fn digit_char(n: int) -> char {
    (48 + n) as char
}

/// Decimal representation of a natural number, without leading zeros.
pub open spec fn decimal(n: nat) -> Seq<char>
    decreases n,
{
    if n < 10 {
        seq![digit_char(n as int)]
    } else {
        decimal(n / 10) + seq![digit_char((n % 10) as int)]
    }
}

/// `s` left-padded with `0` up to `width` characters.
pub open spec fn zero_pad(s: Seq<char>, width: nat) -> Seq<char> {
    if s.len() >= width {
        s
    } else {
        Seq::new((width - s.len()) as nat, |i: int| '0') + s
    }
}

/// Appends the decimal digits of `n`.
pub fn push_decimal(out: &mut Vec<char>, n: u64)
    ensures
        final(out)@ == old(out)@ + decimal(n as nat),
    decreases n,
{
    if n >= 10 {
        push_decimal(out, n / 10);
    }
    out.push(((n % 10) as u8 + 48u8) as char);
}

/// Appends the decimal digits of `n`, left-padded with zeros to `width`.
pub fn push_decimal_padded(out: &mut Vec<char>, n: u64, width: usize)
    ensures
        final(out)@ == old(out)@ + zero_pad(decimal(n as nat), width as nat),
{
    let mut digits: Vec<char> = Vec::new();
    push_decimal(&mut digits, n);
    assert(digits@ == decimal(n as nat));
    let ghost start = out@;
    if digits.len() < width {
        let pad = width - digits.len();
        let mut i: usize = 0;
        while i < pad
            invariant
                i <= pad,
                out@ == start + Seq::new(i as nat, |k: int| '0'),
            decreases pad - i,
        {
            out.push('0');
            i = i + 1;
            assert(out@ =~= start + Seq::new(i as nat, |k: int| '0'));
        }
    }
    let ghost mid = out@;
    let mut j: usize = 0;
    while j < digits.len()
        invariant
            j <= digits@.len(),
            out@ == mid + digits@.take(j as int),
        decreases digits@.len() - j,
    {
        out.push(digits[j]);
        j = j + 1;
        assert(out@ =~= mid + digits@.take(j as int));
    }
    assert(digits@.take(digits@.len() as int) =~= digits@);
    assert(out@ =~= old(out)@ + zero_pad(decimal(n as nat), width as nat));
}

/// ASCII lower-casing of one character; other characters are unchanged.
pub open spec fn ascii_lower(c: char) -> char {
    if 'A' <= c && c <= 'Z' {
        ((c as u32) + 32) as char
    } else {
        c
    }
}

/// ASCII lower-casing of a character sequence.
pub open spec fn lower_seq(s: Seq<char>) -> Seq<char> {
    Seq::new(s.len(), |i: int| ascii_lower(s[i]))
}

pub open spec fn seq_starts_with(s: Seq<char>, p: Seq<char>) -> bool {
    p.len() <= s.len() && s.subrange(0, p.len() as int) == p
}

pub open spec fn seq_ends_with(s: Seq<char>, p: Seq<char>) -> bool {
    p.len() <= s.len() && s.subrange(s.len() - p.len(), s.len() as int) == p
}

pub fn ascii_lower_char(c: char) -> (r: char)
    ensures
        r == ascii_lower(c),
{
    if 'A' <= c && c <= 'Z' {
        ((c as u8) + 32) as char
    } else {
        c
    }
}

/// ASCII lower-cased copy of a character slice.
pub fn lower_chars(s: &[char]) -> (r: Vec<char>)
    ensures
        r@ == lower_seq(s@),
{
    let mut r: Vec<char> = Vec::new();
    let mut i: usize = 0;
    while i < s.len()
        invariant
            i <= s@.len(),
            r@ =~= lower_seq(s@.take(i as int)),
        decreases s@.len() - i,
    {
        r.push(ascii_lower_char(s[i]));
        i = i + 1;
    }
    assert(s@.take(s@.len() as int) =~= s@);
    r
}

/// Whether `s[start..start + p.len()]` equals `p`.
pub fn chars_match_at(s: &[char], start: usize, p: &[char]) -> (r: bool)
    ensures
        r == (start + p@.len() <= s@.len() && s@.subrange(start as int, start + p@.len()) == p@),
{
    if start > s.len() || p.len() > s.len() - start {
        return false;
    }
    let mut i: usize = 0;
    while i < p.len()
        invariant
            i <= p@.len(),
            start + p@.len() <= s@.len(),
            s@.len() <= usize::MAX,
            forall|k: int| 0 <= k < i ==> s@[start + k] == p@[k],
        decreases p@.len() - i,
    {
        if s[start + i] != p[i] {
            assert(s@.subrange(start as int, start + p@.len())[i as int] != p@[i as int]);
            return false;
        }
        i = i + 1;
    }
    assert(s@.subrange(start as int, start + p@.len()) =~= p@);
    true
}

pub fn chars_starts_with(s: &[char], p: &[char]) -> (r: bool)
    ensures
        r == seq_starts_with(s@, p@),
{
    chars_match_at(s, 0, p)
}

pub fn chars_ends_with(s: &[char], p: &[char]) -> (r: bool)
    ensures
        r == seq_ends_with(s@, p@),
{
    if p.len() > s.len() {
        return false;
    }
    chars_match_at(s, s.len() - p.len(), p)
}

/// First position at or after `start` where `pat` occurs in `s`.
pub open spec fn first_match_from(s: Seq<char>, pat: Seq<char>, start: int) -> Option<int>
    decreases s.len() - start,
{
    if start < 0 || start + pat.len() > s.len() {
        None
    } else if s.subrange(start, start + pat.len()) == pat {
        Some(start)
    } else if start < s.len() {
        first_match_from(s, pat, start + 1)
    } else {
        None
    }
}

pub proof fn lemma_first_match_props(s: Seq<char>, pat: Seq<char>, start: int)
    requires
        0 <= start,
    ensures
        first_match_from(s, pat, start) matches Some(i) ==> start <= i && i + pat.len() <= s.len(),
    decreases s.len() - start,
{
    if start + pat.len() <= s.len() && s.subrange(start, start + pat.len()) != pat && start
        < s.len() {
        lemma_first_match_props(s, pat, start + 1);
    }
}

/// Whether `pat` occurs somewhere in `s`.
pub open spec fn occurs_in(s: Seq<char>, pat: Seq<char>) -> bool {
    exists|i: int| 0 <= i && i + pat.len() <= s.len() && #[trigger] s.subrange(i, i + pat.len()) == pat
}

/// The first-match search from the start finds a position exactly when the
/// pattern occurs.
pub proof fn lemma_first_match_occurs(s: Seq<char>, pat: Seq<char>)
    ensures
        first_match_from(s, pat, 0) is Some <==> occurs_in(s, pat),
{
    if occurs_in(s, pat) {
        let i = choose|i: int| 0 <= i && i + pat.len() <= s.len() && #[trigger] s.subrange(i, i + pat.len()) == pat;
        lemma_first_match_reaches(s, pat, 0, i);
    }
    if first_match_from(s, pat, 0) is Some {
        lemma_first_match_found(s, pat, 0);
    }
}

proof fn lemma_first_match_reaches(s: Seq<char>, pat: Seq<char>, start: int, i: int)
    requires
        0 <= start <= i,
        i + pat.len() <= s.len(),
        s.subrange(i, i + pat.len()) == pat,
    ensures
        first_match_from(s, pat, start) is Some,
    decreases i - start,
{
    if start < i && s.subrange(start, start + pat.len()) != pat {
        lemma_first_match_reaches(s, pat, start + 1, i);
    }
}

proof fn lemma_first_match_found(s: Seq<char>, pat: Seq<char>, start: int)
    requires
        0 <= start,
        first_match_from(s, pat, start) is Some,
    ensures
        occurs_in(s, pat),
    decreases s.len() - start,
{
    if start + pat.len() <= s.len() && s.subrange(start, start + pat.len()) == pat {
        assert(s.subrange(start, start + pat.len()) == pat);
    } else {
        lemma_first_match_found(s, pat, start + 1);
    }
}

/// First position at or after `start` where `pat` occurs.
pub fn find_from(s: &[char], pat: &[char], start: usize) -> (r: Option<usize>)
    ensures
        r matches Some(i) ==> first_match_from(s@, pat@, start as int) == Some(i as int),
        r is None ==> first_match_from(s@, pat@, start as int) is None,
{
    let mut i = start;
    if i > s.len() {
        return None;
    }
    if pat.len() == 0 {
        assert(s@.subrange(i as int, i as int) =~= pat@);
        return Some(i);
    }
    while i < s.len() && pat.len() <= s.len() - i
        invariant
            pat@.len() > 0,
            start <= i <= s@.len(),
            first_match_from(s@, pat@, start as int) == first_match_from(s@, pat@, i as int),
        decreases s@.len() - i,
    {
        if chars_match_at(s, i, pat) {
            return Some(i);
        }
        i = i + 1;
    }
    None
}

/// The Unicode `White_Space` characters, which `char::is_whitespace` accepts
/// and `str::trim` strips.
pub open spec fn is_ws(c: char) -> bool {
    ('\u{9}' <= c && c <= '\u{d}') || c == ' ' || c == '\u{85}' || c == '\u{a0}' || c
        == '\u{1680}' || ('\u{2000}' <= c && c <= '\u{200a}') || c == '\u{2028}' || c
        == '\u{2029}' || c == '\u{202f}' || c == '\u{205f}' || c == '\u{3000}'
}

pub fn is_ws_exec(c: char) -> (r: bool)
    ensures
        r == is_ws(c),
{
    ('\u{9}' <= c && c <= '\u{d}') || c == ' ' || c == '\u{85}' || c == '\u{a0}' || c
        == '\u{1680}' || ('\u{2000}' <= c && c <= '\u{200a}') || c == '\u{2028}' || c
        == '\u{2029}' || c == '\u{202f}' || c == '\u{205f}' || c == '\u{3000}'
}

/// Index of the first non-whitespace character at or after `i`.
pub open spec fn skip_ws_from(s: Seq<char>, i: int) -> int
    decreases s.len() - i,
{
    if i < 0 || i >= s.len() || !is_ws(s[i]) {
        i
    } else {
        skip_ws_from(s, i + 1)
    }
}

/// One past the last non-whitespace character at or before `j - 1`, not
/// going below `lo`.
pub open spec fn skip_ws_back(s: Seq<char>, lo: int, j: int) -> int
    decreases j - lo,
{
    if j <= lo || j > s.len() || !is_ws(s[j - 1]) {
        j
    } else {
        skip_ws_back(s, lo, j - 1)
    }
}

/// `s` without leading and trailing whitespace, as `str::trim` gives it.
pub open spec fn trim_seq(s: Seq<char>) -> Seq<char> {
    let a = skip_ws_from(s, 0);
    s.subrange(a, skip_ws_back(s, a, s.len() as int))
}

pub proof fn lemma_skip_ws_bounds(s: Seq<char>, i: int)
    requires
        0 <= i <= s.len(),
    ensures
        i <= skip_ws_from(s, i) <= s.len(),
    decreases s.len() - i,
{
    if i < s.len() && is_ws(s[i]) {
        lemma_skip_ws_bounds(s, i + 1);
    }
}

pub proof fn lemma_skip_ws_back_bounds(s: Seq<char>, lo: int, j: int)
    requires
        0 <= lo <= j <= s.len(),
    ensures
        lo <= skip_ws_back(s, lo, j) <= j,
    decreases j - lo,
{
    if j > lo && is_ws(s[j - 1]) {
        lemma_skip_ws_back_bounds(s, lo, j - 1);
    }
}

/// Whitespace-trimmed copy of a character slice.
pub fn trim_chars(s: &[char]) -> (r: Vec<char>)
    ensures
        r@ == trim_seq(s@),
{
    let mut a: usize = 0;
    while a < s.len() && is_ws_exec(s[a])
        invariant
            a <= s@.len(),
            skip_ws_from(s@, 0) == skip_ws_from(s@, a as int),
        decreases s@.len() - a,
    {
        a = a + 1;
    }
    let mut b: usize = s.len();
    while b > a && is_ws_exec(s[b - 1])
        invariant
            a <= b <= s@.len(),
            skip_ws_back(s@, a as int, s@.len() as int) == skip_ws_back(s@, a as int, b as int),
        decreases b - a,
    {
        b = b - 1;
    }
    slice_range(s, a, b)
}

/// Copy of `s[a..b]`.
pub fn slice_range(s: &[char], a: usize, b: usize) -> (r: Vec<char>)
    requires
        a <= b <= s@.len(),
    ensures
        r@ == s@.subrange(a as int, b as int),
{
    let mut r: Vec<char> = Vec::new();
    let mut i = a;
    while i < b
        invariant
            a <= i <= b,
            b <= s@.len(),
            r@ == s@.subrange(a as int, i as int),
        decreases b - i,
    {
        r.push(s[i]);
        i = i + 1;
        assert(r@ =~= s@.subrange(a as int, i as int));
    }
    r
}

/// `s` split around the first occurrence of `pat`, as `str::split_once` does.
pub open spec fn split_once_spec(s: Seq<char>, pat: Seq<char>) -> Option<(Seq<char>, Seq<char>)> {
    match first_match_from(s, pat, 0) {
        Some(i) => Some((s.subrange(0, i), s.subrange(i + pat.len(), s.len() as int))),
        None => None,
    }
}

pub fn split_once_chars(s: &[char], pat: &[char]) -> (r: Option<(Vec<char>, Vec<char>)>)
    ensures
        match r {
            Some((a, b)) => split_once_spec(s@, pat@) == Some((a@, b@)),
            None => split_once_spec(s@, pat@) is None,
        },
{
    proof {
        lemma_first_match_props(s@, pat@, 0);
    }
    let n = s.len();
    match find_from(s, pat, 0) {
        Some(i) => {
            assert(i + pat@.len() <= n);
            Some((slice_range(s, 0, i), slice_range(s, i + pat.len(), n)))
        },
        None => None,
    }
}

/// The characters of a string slice, in order.
pub fn chars_of(s: &str) -> (v: Vec<char>)
    ensures
        v@ == s@,
{
    let mut v: Vec<char> = Vec::new();
    for c in it: s.chars()
        invariant
            v@ == it.seq().take(it.index()),
    {
        v.push(c);
    }
    v
}

/// Appends the characters of a string slice.
pub fn push_str(out: &mut Vec<char>, s: &str)
    ensures
        final(out)@ == old(out)@ + s@,
{
    let chars = chars_of(s);
    let ghost start = out@;
    let mut i: usize = 0;
    while i < chars.len()
        invariant
            i <= chars@.len(),
            out@ == start + chars@.take(i as int),
        decreases chars@.len() - i,
    {
        out.push(chars[i]);
        i = i + 1;
        assert(out@ =~= start + chars@.take(i as int));
    }
    assert(chars@.take(i as int) =~= chars@);
}

/// Builds an owned string from its characters.
#[verifier::external_body]
pub(crate) fn string_from_chars(chars: &[char]) -> (s: String)
    ensures
        s@ == chars@,
{
    chars.iter().collect()
}

/// The characters of an optional string.
pub open spec fn opt_string_view(o: Option<String>) -> Option<Seq<char>> {
    match o {
        Some(s) => Some(s@),
        None => None,
    }
}

/// Clones an optional string.
pub fn clone_opt_string(o: &Option<String>) -> (r: Option<String>)
    ensures
        opt_string_view(r) == opt_string_view(*o),
{
    match o {
        Some(s) => Some(s.clone()),
        None => None,
    }
}

/// Whether two string slices hold the same characters.
pub fn str_eq(a: &str, b: &str) -> (r: bool)
    ensures
        r == (a@ == b@),
{
    let x = chars_of(a);
    let y = chars_of(b);
    if x.len() != y.len() {
        return false;
    }
    let r = chars_match_at(x.as_slice(), 0, y.as_slice());
    proof {
        if r {
            assert(x@ =~= x@.subrange(0, y@.len() as int));
        } else if a@ == b@ {
            assert(x@.subrange(0, y@.len() as int) =~= x@);
        }
    }
    r
}

/// Why a decimal count did not parse.
#[derive(Clone, Copy, Debug, PartialEq, Eq, Structural)]
pub enum NumberError {
    Empty,
    InvalidDigit,
    TooLarge,
}

pub open spec fn digit_of(c: char) -> int {
    c as int - '0' as int
}

/// Reads digits left to right onto `acc`: the first non-digit fails, and
/// so does the first digit that takes the value past `max`.
pub open spec fn scan_digits(d: Seq<char>, acc: int, max: int) -> Result<u64, NumberError>
    decreases d.len(),
{
    if d.len() == 0 {
        Ok(acc as u64)
    } else if !('0' <= d[0] && d[0] <= '9') {
        Err(NumberError::InvalidDigit)
    } else if acc * 10 + digit_of(d[0]) > max {
        Err(NumberError::TooLarge)
    } else {
        scan_digits(d.drop_first(), acc * 10 + digit_of(d[0]), max)
    }
}

/// An unsigned decimal number up to `max`: an optional `+`, then digits.
pub open spec fn count_parse(s: Seq<char>, max: int) -> Result<u64, NumberError> {
    if s.len() == 0 {
        Err(NumberError::Empty)
    } else if s.len() == 1 && (s[0] == '+' || s[0] == '-') {
        Err(NumberError::InvalidDigit)
    } else if s[0] == '+' {
        scan_digits(s.drop_first(), 0, max)
    } else {
        scan_digits(s, 0, max)
    }
}

/// Parses an unsigned decimal number no greater than `max`, as the
/// unsigned integer types' `from_str` does for their own maximum.
pub fn parse_count(s: &str, max: u64) -> (r: Result<u64, NumberError>)
    ensures
        r == count_parse(s@, max as int),
        r is Ok ==> r->Ok_0 <= max,
{
    let c = chars_of(s);
    let n = c.len();
    if n == 0 {
        return Err(NumberError::Empty);
    }
    if n == 1 && (c[0] == '+' || c[0] == '-') {
        return Err(NumberError::InvalidDigit);
    }
    let start: usize = if c[0] == '+' {
        1
    } else {
        0
    };
    let ghost d = if c@[0] == '+' {
        c@.drop_first()
    } else {
        c@
    };
    assert(d =~= c@.skip(start as int));
    assert(count_parse(s@, max as int) == scan_digits(d, 0, max as int));
    let mut acc: u64 = 0;
    let mut i: usize = start;
    while i < n
        invariant
            start <= i <= n == c@.len(),
            d == c@.skip(start as int),
            c@ == s@,
            count_parse(s@, max as int) == scan_digits(d, 0, max as int),
            scan_digits(d, 0, max as int) == scan_digits(c@.skip(i as int), acc as int, max as int),
            acc <= max,
        decreases n - i,
    {
        proof {
            assert(c@.skip(i as int).drop_first() =~= c@.skip(i as int + 1));
            assert(c@.skip(i as int)[0] == c@[i as int]);
        }
        let ch = c[i];
        if !('0' <= ch && ch <= '9') {
            return Err(NumberError::InvalidDigit);
        }
        let digit = (ch as u32 - '0' as u32) as u64;
        assert(digit == digit_of(ch));
        match acc.checked_mul(10) {
            Some(m) => match m.checked_add(digit) {
                Some(v) => {
                    if v > max {
                        return Err(NumberError::TooLarge);
                    }
                    acc = v;
                },
                None => {
                    return Err(NumberError::TooLarge);
                },
            },
            None => {
                assert(acc * 10 + digit > u64::MAX);
                return Err(NumberError::TooLarge);
            },
        }
        i = i + 1;
    }
    assert(c@.skip(i as int).len() == 0);
    Ok(acc)
}

} // verus!
