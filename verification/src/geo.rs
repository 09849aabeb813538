//! Geo database inventory and update planning.

use vstd::prelude::*;
use vstd::arithmetic::div_mod::lemma_mod_multiples_vanish;

use crate::text::{
    push_str,
    clone_opt_string, opt_string_view, str_eq,
    chars_ends_with, chars_match_at, chars_of, find_from, first_match_from, lemma_first_match_props, chars_starts_with, decimal, lower_chars, lower_seq,
    push_decimal_padded, seq_ends_with, seq_starts_with, string_from_chars, zero_pad,
};

verus! {

pub open spec fn is_leap_year(y: int) -> bool {
    (y % 4 == 0 && y % 100 != 0) || y % 400 == 0
}

/// Number of days in month `m` (1-12) of year `y` in the proleptic Gregorian calendar.
pub open spec fn days_in_month(y: int, m: int) -> int {
    if m == 2 {
        if is_leap_year(y) {
            29
        } else {
            28
        }
    } else if m == 4 || m == 6 || m == 9 || m == 11 {
        30
    } else {
        31
    }
}

/// Days from 1970-01-01 to the given civil date (negative before it).
#[verifier::opaque]
pub open spec fn days_from_civil(y: int, m: int, d: int) -> int {
    let yp = if m <= 2 {
        y - 1
    } else {
        y
    };
    let era = yp / 400;
    let yoe = yp - era * 400;
    let mp = if m > 2 {
        m - 3
    } else {
        m + 9
    };
    let doy = (153 * mp + 2) / 5 + d - 1;
    let doe = yoe * 365 + yoe / 4 - yoe / 100 + doy;
    era * 146097 + doe - 719468
}

/// A valid civil date.
pub open spec fn valid_date(y: int, m: int, d: int) -> bool {
    1 <= m <= 12 && 1 <= d <= days_in_month(y, m)
}

/// Largest day count that `days_to_date` accepts without overflowing.
pub open spec fn max_day_count() -> int {
    i64::MAX - 719_468
}

pub open spec fn era_year_start(yoe: int) -> int {
    365 * yoe + yoe / 4 - yoe / 100
}

pub open spec fn era_year_len(yoe: int) -> int {
    if yoe == 399 {
        366
    } else {
        era_year_start(yoe + 1) - era_year_start(yoe)
    }
}

#[verifier::rlimit(50)]
proof fn lemma_year_of_era(doe: int)
    requires
        0 <= doe <= 146096,
    ensures
        ({
            let yoe = (doe - doe / 1460 + doe / 36524 - doe / 146096) / 365;
            &&& 0 <= yoe <= 399
            &&& era_year_start(yoe) <= doe
            &&& doe < era_year_start(yoe) + era_year_len(yoe)
        }),
{
}


pub open spec fn clamp_i32(y: int) -> int {
    if y < i32::MIN {
        i32::MIN as int
    } else if y > i32::MAX {
        i32::MAX as int
    } else {
        y
    }
}

proof fn lemma_month_of_year(doy: int, len: int)
    requires
        0 <= doy < len,
        365 <= len <= 366,
    ensures
        ({
            let mp = (5 * doy + 2) / 153;
            let d = doy - (153 * mp + 2) / 5 + 1;
            &&& 0 <= mp <= 11
            &&& 1 <= d
            &&& mp < 11 ==> d <= (153 * (mp + 1) + 2) / 5 - (153 * mp + 2) / 5
            &&& mp == 11 ==> d <= len - 306
        }),
{
}

proof fn lemma_floor_div_era(days: int, era: int)
    requires
        days >= 0 ==> era == days / 146_097,
        days < 0 ==> era == -((-days + 146_096) / 146_097),
    ensures
        era == days / 146_097,
        0 <= days - era * 146_097 <= 146_096,
{
}

proof fn lemma_month_lengths(mp: int)
    requires
        0 <= mp < 11,
    ensures
        (153 * (mp + 1) + 2) / 5 - (153 * mp + 2) / 5 == days_in_month(
            0,
            if mp < 10 {
                mp + 3
            } else {
                mp - 9
            },
        ),
{
    if mp == 0 {
    } else if mp == 1 {
    } else if mp == 2 {
    } else if mp == 3 {
    } else if mp == 4 {
    } else if mp == 5 {
    } else if mp == 6 {
    } else if mp == 7 {
    } else if mp == 8 {
    } else if mp == 9 {
    } else {
    }
}

proof fn lemma_leap_of_era_year(era: int, yoe: int)
    requires
        0 <= yoe <= 399,
    ensures
        is_leap_year(yoe + 1 + era * 400) <==> era_year_len(yoe) == 366,
        365 <= era_year_len(yoe) <= 366,
{
    let y = yoe + 1 + era * 400;
    lemma_mod_multiples_vanish(era * 100, yoe + 1, 4);
    lemma_mod_multiples_vanish(era * 4, yoe + 1, 100);
    lemma_mod_multiples_vanish(era, yoe + 1, 400);
    assert(4 * (era * 100) == era * 400);
    assert(100 * (era * 4) == era * 400);
    assert(y % 4 == (yoe + 1) % 4);
    assert(y % 100 == (yoe + 1) % 100);
    assert(y % 400 == (yoe + 1) % 400);
    assert(era_year_start(yoe + 1) - era_year_start(yoe) == 365 + (yoe + 1) / 4 - yoe / 4 - ((yoe
        + 1) / 100 - yoe / 100));
}

proof fn lemma_era_split(era: int, yoe: int)
    requires
        0 <= yoe <= 399,
    ensures
        (yoe + era * 400) / 400 == era,
        (yoe + era * 400) - ((yoe + era * 400) / 400) * 400 == yoe,
{
}

proof fn lemma_civil_round_trip(z: int, era: int, doe: int, yoe: int, doy: int, mp: int)
    requires
        0 <= doe <= 146096,
        doe == z + 719_468 - era * 146_097,
        yoe == (doe - doe / 1460 + doe / 36524 - doe / 146096) / 365,
        doy == doe - (365 * yoe + yoe / 4 - yoe / 100),
        mp == (5 * doy + 2) / 153,
    ensures
        ({
            let d = doy - (153 * mp + 2) / 5 + 1;
            let m = if mp < 10 {
                mp + 3
            } else {
                mp - 9
            };
            let y = if m <= 2 {
                yoe + era * 400 + 1
            } else {
                yoe + era * 400
            };
            &&& valid_date(y, m, d)
            &&& days_from_civil(y, m, d) == z
        }),
{
    reveal(days_from_civil);
    lemma_year_of_era(doe);
    lemma_leap_of_era_year(era, yoe);
    lemma_month_of_year(doy, era_year_len(yoe));
    lemma_era_split(era, yoe);
    let d = doy - (153 * mp + 2) / 5 + 1;
    let m = if mp < 10 {
        mp + 3
    } else {
        mp - 9
    };
    if mp < 11 {
        lemma_month_lengths(mp);
    }
    assert(valid_date(if m <= 2 { yoe + era * 400 + 1 } else { yoe + era * 400 }, m, d));
}

/// Converts a count of days since 1970-01-01 into a civil date whose year
/// keeps its full range.
#[verifier::rlimit(30)]
pub fn civil_from_days(days_since_epoch: i64) -> (r: (i64, u32, u32))
    requires
        days_since_epoch <= max_day_count(),
    ensures
        valid_date(r.0 as int, r.1 as int, r.2 as int),
        days_from_civil(r.0 as int, r.1 as int, r.2 as int) == days_since_epoch,
        days_since_epoch >= 0 ==> r.0 >= 0,
{
    let days: i64 = days_since_epoch + 719_468;
    let era: i64 = if days >= 0 {
        days / 146_097
    } else {
        -((-days + 146_096) / 146_097)
    };
    proof {
        lemma_floor_div_era(days as int, era as int);
    }
    let doe: u32 = (days - era * 146_097) as u32;
    let yoe: u32 = (doe - doe / 1460 + doe / 36524 - doe / 146_096) / 365;
    proof {
        lemma_year_of_era(doe as int);
    }
    let doy: u32 = doe - (365 * yoe + yoe / 4 - yoe / 100);
    proof {
        lemma_month_of_year(doy as int, era_year_len(yoe as int));
    }
    let mp: u32 = (5 * doy + 2) / 153;
    let d: u32 = doy - (153 * mp + 2) / 5 + 1;
    let m: u32 = if mp < 10 {
        mp + 3
    } else {
        mp - 9
    };
    let y: i64 = yoe as i64 + era * 400;
    let y: i64 = if m <= 2 {
        y + 1
    } else {
        y
    };
    proof {
        lemma_civil_round_trip(
            days_since_epoch as int,
            era as int,
            doe as int,
            yoe as int,
            doy as int,
            mp as int,
        );
    }
    (y, m, d)
}


/// The calendar day after a date.
pub open spec fn next_date(y: int, m: int, d: int) -> (int, int, int) {
    if d < days_in_month(y, m) {
        (y, m, d + 1)
    } else if m < 12 {
        (y, m + 1, 1)
    } else {
        (y + 1, 1, 1)
    }
}

/// Days from 1970-01-01 to the first of March of year `yp + 1`'s
/// computational year, which starts on the first of March of `yp`.
spec fn march_start(yp: int) -> int {
    let era = yp / 400;
    let yoe = yp - era * 400;
    era * 146097 + yoe * 365 + yoe / 4 - yoe / 100 - 719468
}

proof fn lemma_march_start_next(yp: int)
    ensures
        march_start(yp + 1) == march_start(yp) + 365 + if is_leap_year(yp + 1) { 1int } else { 0int },
{
    let era = yp / 400;
    let yoe = yp - era * 400;
    assert(0 <= yoe <= 399);
    lemma_leap_of_era_year(era, yoe);
    if yoe < 399 {
        lemma_era_split(era, yoe + 1);
        assert(yp + 1 == yoe + 1 + era * 400);
        assert(era_year_len(yoe) == era_year_start(yoe + 1) - era_year_start(yoe));
    } else {
        lemma_era_split(era + 1, 0);
        assert(yp + 1 == 0 + (era + 1) * 400);
    }
}

/// Law: the day after a valid date is a valid date, one day later.
pub proof fn lemma_next_date(y: int, m: int, d: int)
    requires
        valid_date(y, m, d),
    ensures
        valid_date(next_date(y, m, d).0, next_date(y, m, d).1, next_date(y, m, d).2),
        days_from_civil(next_date(y, m, d).0, next_date(y, m, d).1, next_date(y, m, d).2)
            == days_from_civil(y, m, d) + 1,
{
    reveal(days_from_civil);
    let mp = if m > 2 { m - 3 } else { m + 9 };
    if d == days_in_month(y, m) && m != 2 && m != 12 {
        assert(0 <= mp < 11);
        lemma_month_lengths(mp);
        assert(days_in_month(0, if mp < 10 { mp + 3 } else { mp - 9 }) == days_in_month(y, m));
    } else if d == days_in_month(y, m) && m == 12 {
        lemma_month_lengths(9);
    } else if d == days_in_month(y, m) && m == 2 {
        lemma_march_start_next(y - 1);
        assert(days_from_civil(y, 2, d) == march_start(y - 1) + (153 * 11 + 2) / 5 + d - 1);
        assert(days_from_civil(y, 3, 1) == march_start(y) + (153 * 0 + 2) / 5);
    }
}

spec fn month_offset(mp: int) -> int {
    (153 * mp + 2) / 5
}

spec fn march_year(y: int, m: int) -> int {
    if m <= 2 {
        y - 1
    } else {
        y
    }
}

spec fn march_month(m: int) -> int {
    if m > 2 {
        m - 3
    } else {
        m + 9
    }
}

/// A valid date lies within its computational year: its count is the
/// year's start plus an offset below 365.
proof fn lemma_date_offset(y: int, m: int, d: int)
    requires
        valid_date(y, m, d),
    ensures
        days_from_civil(y, m, d) == march_start(march_year(y, m)) + month_offset(march_month(m)) + d - 1,
        0 <= month_offset(march_month(m)) + d - 1 < 365 + if is_leap_year(march_year(y, m) + 1) {
            1int
        } else {
            0int
        },
        march_month(m) < 11 ==> month_offset(march_month(m)) + d <= month_offset(march_month(m) + 1),
{
    reveal(days_from_civil);
    let mp = march_month(m);
    if mp < 11 {
        lemma_month_lengths(mp);
        assert(days_in_month(0, if mp < 10 { mp + 3 } else { mp - 9 }) == days_in_month(y, m));
    }
}

proof fn lemma_march_start_gap(a: int, b: int)
    requires
        a < b,
    ensures
        march_start(a) + 365 + (if is_leap_year(a + 1) { 1int } else { 0int }) <= march_start(b),
    decreases b - a,
{
    lemma_march_start_next(a);
    if b > a + 1 {
        lemma_march_start_gap(a + 1, b);
        lemma_march_start_next(a + 1);
    }
}

proof fn lemma_month_offset_mono(a: int, b: int)
    requires
        0 <= a <= b,
    ensures
        month_offset(a) <= month_offset(b),
{
}

/// Law: two valid dates with the same day count are the same date.
pub proof fn lemma_days_from_civil_injective(y1: int, m1: int, d1: int, y2: int, m2: int, d2: int)
    requires
        valid_date(y1, m1, d1),
        valid_date(y2, m2, d2),
        days_from_civil(y1, m1, d1) == days_from_civil(y2, m2, d2),
    ensures
        y1 == y2 && m1 == m2 && d1 == d2,
{
    lemma_date_offset(y1, m1, d1);
    lemma_date_offset(y2, m2, d2);
    let a = march_year(y1, m1);
    let b = march_year(y2, m2);
    if a < b {
        lemma_march_start_gap(a, b);
    } else if b < a {
        lemma_march_start_gap(b, a);
    }
    let p = march_month(m1);
    let q = march_month(m2);
    if p < q {
        lemma_month_offset_mono(p + 1, q);
    } else if q < p {
        lemma_month_offset_mono(q + 1, p);
    }
}

/// The year, month and day `days_to_date` gives for a day count: the
/// year clamped to `i32` of a valid date that many days after 1970-01-01.
pub open spec fn date_of(r: (i32, u32, u32), days: int) -> bool {
    exists|y: int|
        #[trigger] clamp_i32(y) == r.0 && valid_date(y, r.1 as int, r.2 as int) && days_from_civil(
            y,
            r.1 as int,
            r.2 as int,
        ) == days
}

/// Law: the date of the next day count is the calendar day after the date
/// of a day count, while the year stays inside the `i32` range.
pub proof fn lemma_next_day_count(r1: (i32, u32, u32), r2: (i32, u32, u32), n: int)
    requires
        date_of(r1, n),
        date_of(r2, n + 1),
        i32::MIN < r1.0 < i32::MAX,
    ensures
        (r2.0 as int, r2.1 as int, r2.2 as int) == next_date(r1.0 as int, r1.1 as int, r1.2 as int),
{
    let y1 = choose|y: int|
        #[trigger] clamp_i32(y) == r1.0 && valid_date(y, r1.1 as int, r1.2 as int) && days_from_civil(
            y,
            r1.1 as int,
            r1.2 as int,
        ) == n;
    let y2 = choose|y: int|
        #[trigger] clamp_i32(y) == r2.0 && valid_date(y, r2.1 as int, r2.2 as int) && days_from_civil(
            y,
            r2.1 as int,
            r2.2 as int,
        ) == n + 1;
    assert(y1 == r1.0);
    lemma_next_date(y1, r1.1 as int, r1.2 as int);
    let nx = next_date(y1, r1.1 as int, r1.2 as int);
    lemma_days_from_civil_injective(nx.0, nx.1, nx.2, y2, r2.1 as int, r2.2 as int);
}

/// Converts days since 1970-01-01 into `(year, month, day)`, the year clamped
/// to the `i32` range.
pub fn days_to_date(days_since_epoch: i64) -> (r: (i32, u32, u32))
    requires
        days_since_epoch <= max_day_count(),
    ensures
        date_of(r, days_since_epoch as int),
{
    let (y, m, d) = civil_from_days(days_since_epoch);
    assert(days_from_civil(y as int, m as int, d as int) == days_since_epoch);
    let year: i32 = if y < i32::MIN as i64 {
        i32::MIN
    } else if y > i32::MAX as i64 {
        i32::MAX
    } else {
        y as i32
    };
    assert(year as int == clamp_i32(y as int));
    assert(valid_date(y as int, m as int, d as int));
    assert(exists|yy: int|
        {
            &&& year == clamp_i32(yy)
            &&& valid_date(yy, m as int, d as int)
            &&& #[trigger] days_from_civil(yy, m as int, d as int) == days_since_epoch
        });
    (year, m, d)
}

/// `YYYY-MM-DD` text of a date.
pub open spec fn date_text(y: nat, m: nat, d: nat) -> Seq<char> {
    zero_pad(decimal(y), 4) + seq!['-'] + zero_pad(decimal(m), 2) + seq!['-'] + zero_pad(
        decimal(d),
        2,
    )
}

/// The date text `format_epoch` gives for a build epoch that the system clock
/// can represent: a Unix time holds its seconds in an `i64`.
pub open spec fn epoch_date_ok(epoch: u64, text: Seq<char>) -> bool {
    exists|y: int, m: int, d: int|
        {
            &&& valid_date(y, m, d)
            &&& #[trigger] days_from_civil(y, m, d) == epoch as int / 86400
            &&& y >= 0
            &&& text == date_text(clamp_i32(y) as nat, m as nat, d as nat)
        }
}

/// Formats a database build epoch (seconds) as a `YYYY-MM-DD` date.
pub fn format_epoch(epoch: u64) -> (r: Option<String>)
    ensures
        r is None <==> epoch > i64::MAX,
        r matches Some(text) ==> epoch_date_ok(epoch, text@),
{
    if epoch > i64::MAX as u64 {
        return None;
    }
    let days: i64 = (epoch / 86400) as i64;
    let (y, m, d) = civil_from_days(days);
    let year: u64 = if y > i32::MAX as i64 {
        i32::MAX as u64
    } else {
        y as u64
    };
    let mut out: Vec<char> = Vec::new();
    push_decimal_padded(&mut out, year, 4);
    out.push('-');
    push_decimal_padded(&mut out, m as u64, 2);
    out.push('-');
    push_decimal_padded(&mut out, d as u64, 2);
    assert(out@ =~= date_text(year as nat, m as nat, d as nat));
    assert(days_from_civil(y as int, m as int, d as int) == epoch as int / 86400);
    Some(string_from_chars(out.as_slice()))
}

/// Whether the bytes start with the gzip magic number.
pub fn is_gzip(bytes: &[u8]) -> (r: bool)
    ensures
        r == (bytes@.len() >= 2 && bytes@[0] == 0x1f && bytes@[1] == 0x8b),
{
    bytes.len() >= 2 && bytes[0] == 0x1f && bytes[1] == 0x8b
}

/// The extension `std::path::Path::extension` finds in a path given as text.
pub uninterp spec fn path_extension(path: Seq<char>) -> Option<Seq<char>>;

/// Where the last `/`-separated component of `s[..end]` starts.
pub open spec fn component_start(s: Seq<char>, end: int) -> int
    decreases end,
{
    if end <= 0 {
        0
    } else if s[end - 1] == '/' {
        end
    } else {
        component_start(s, end - 1)
    }
}

/// The text after the last `/` of a path.
pub open spec fn last_component(path: Seq<char>) -> Seq<char> {
    path.subrange(component_start(path, path.len() as int), path.len() as int)
}

/// Position of the last `.` in `s[..end]`.
pub open spec fn last_dot_before(s: Seq<char>, end: int) -> Option<int>
    decreases end,
{
    if end <= 0 {
        None
    } else if s[end - 1] == '.' {
        Some(end - 1)
    } else {
        last_dot_before(s, end - 1)
    }
}

/// The extension of a file name: the text after its last `.`, unless it
/// has none or its only `.` is its first character.
pub open spec fn name_extension(name: Seq<char>) -> Option<Seq<char>> {
    match last_dot_before(name, name.len() as int) {
        Some(k) => if k > 0 {
            Some(name.subrange(k + 1, name.len() as int))
        } else {
            None
        },
        None => None,
    }
}

/// A path whose file name is plainly its text after the last `/` on every
/// platform: no backslash separators, no leading `//` (a network share on
/// Windows), and a last component that is non-empty, neither `.` nor `..`,
/// and holds no `:` (a drive on Windows).
pub open spec fn plain_file_path(path: Seq<char>) -> bool {
    let name = last_component(path);
    &&& !path.contains('\\')
    &&& !(path.len() >= 2 && path[0] == '/' && path[1] == '/')
    &&& name.len() > 0
    &&& name != "."@
    &&& name != ".."@
    &&& !name.contains(':')
}

/// Calls `std::path::Path::extension` on `path` and returns the extension as
/// text; what it returns is named `path_extension`. Its documentation
/// defines it from the file name, the path's final component: none where
/// the name has no `.` or only a leading one, else the text after the last
/// `.`. For a plain path that component is the text after the last `/`;
/// for other paths (trailing `/`, `.`, `..`, Windows prefixes) the result
/// is left to the name.
#[verifier::external_body]
fn path_extension_of(path: &str) -> (r: Option<String>)
    ensures
        match r {
            Some(e) => path_extension(path@) == Some(e@),
            None => path_extension(path@) is None,
        },
        plain_file_path(path@) ==> opt_string_view(r) == name_extension(last_component(path@)),
{
    std::path::Path::new(path).extension().map(|e| e.to_string_lossy().into_owned())
}

/// The extension of a path: as its text reads for a plain path, else as
/// `std::path::Path::extension` finds it.
pub open spec fn file_extension(path: Seq<char>) -> Option<Seq<char>> {
    if plain_file_path(path) {
        name_extension(last_component(path))
    } else {
        path_extension(path)
    }
}

/// Whether `path` has the extension `mmdb`, in any ASCII case.
pub open spec fn has_mmdb_extension_spec(path: Seq<char>) -> bool {
    file_extension(path) matches Some(e) && lower_seq(e) == "mmdb"@
}

/// Whether the last path component of `url` has the extension `mmdb`
/// (ASCII case-insensitive).
pub fn has_mmdb_extension(url: &str) -> (r: bool)
    ensures
        r == has_mmdb_extension_spec(url@),
{
    match path_extension_of(url) {
        Some(e) => {
            let chars = chars_of(e.as_str());
            let lowered = lower_chars(chars.as_slice());
            let expected = chars_of("mmdb");
            proof {
                reveal_strlit("mmdb");
            }
            let same = lowered.len() == expected.len() && chars_match_at(
                lowered.as_slice(),
                0,
                expected.as_slice(),
            );
            proof {
                if same {
                    assert(lowered@ =~= lowered@.subrange(0, expected@.len() as int));
                } else if lowered@ == "mmdb"@ {
                    assert(lowered@.subrange(0, expected@.len() as int) =~= lowered@);
                }
            }
            same
        },
        None => false,
    }
}

/// Whether a character is a single or double quote.
pub open spec fn is_quote(c: char) -> bool {
    c == '\'' || c == '"'
}

/// Last quote strictly before position `end`.
pub open spec fn last_quote_before(s: Seq<char>, end: int) -> Option<int>
    decreases end,
{
    if end <= 0 {
        None
    } else if is_quote(s[end - 1]) {
        Some(end - 1)
    } else {
        last_quote_before(s, end - 1)
    }
}

/// First quote at or after position `start`.
pub open spec fn first_quote_from(s: Seq<char>, start: int) -> Option<int>
    decreases s.len() - start,
{
    if start < 0 || start >= s.len() {
        None
    } else if is_quote(s[start]) {
        Some(start)
    } else {
        first_quote_from(s, start + 1)
    }
}

/// Whether a link candidate names an MMDB download.
pub open spec fn is_mmdb_candidate(c: Seq<char>) -> bool {
    seq_ends_with(lower_seq(c), ".mmdb.gz"@) || has_mmdb_extension_spec(c)
}

/// The link a candidate yields, when it is absolute or site-relative.
pub open spec fn candidate_link(c: Seq<char>) -> Option<Seq<char>> {
    if seq_starts_with(c, "http"@) {
        Some(c)
    } else if seq_starts_with(c, "/"@) {
        Some("https://db-ip.com"@ + c)
    } else {
        None
    }
}

/// The download link found in `html` when searching from `start` for the
/// pattern `pat`: each occurrence is taken between the quotes around it; the
/// search stops with no link when a quote is missing.
pub open spec fn link_search(html: Seq<char>, pat: Seq<char>, start: int) -> Option<Seq<char>>
    decreases html.len() - start,
{
    if pat.len() == 0 || start < 0 {
        None
    } else {
        match first_match_from(html, pat, start) {
            None => None,
            Some(idx) => match (last_quote_before(html, idx), first_quote_from(html, idx)) {
                (Some(hs), Some(he)) => {
                    proof {
                        lemma_first_match_props(html, pat, start);
                        lemma_last_quote_props(html, idx);
                        lemma_first_quote_props(html, idx);
                    }
                    let c = html.subrange(hs + 1, he);
                    if is_mmdb_candidate(c) && candidate_link(c) is Some {
                        candidate_link(c)
                    } else {
                        link_search(html, pat, idx + pat.len())
                    }
                },
                _ => None,
            },
        }
    }
}

/// The pattern that identifies the download links of a database kind.
pub open spec fn link_pattern(kind: Seq<char>) -> Seq<char> {
    "dbip-"@ + kind + "-lite-"@
}

pub proof fn lemma_last_quote_props(s: Seq<char>, end: int)
    ensures
        last_quote_before(s, end) matches Some(i) ==> 0 <= i < end,
    decreases end,
{
    if end > 0 && !is_quote(s[end - 1]) {
        lemma_last_quote_props(s, end - 1);
    }
}

pub proof fn lemma_first_quote_props(s: Seq<char>, start: int)
    ensures
        first_quote_from(s, start) matches Some(i) ==> start <= i < s.len(),
    decreases s.len() - start,
{
    if 0 <= start < s.len() && !is_quote(s[start]) {
        lemma_first_quote_props(s, start + 1);
    }
}

fn last_quote(s: &[char], end: usize) -> (r: Option<usize>)
    requires
        end <= s@.len(),
    ensures
        r matches Some(i) ==> last_quote_before(s@, end as int) == Some(i as int),
        r is None ==> last_quote_before(s@, end as int) is None,
{
    let mut i = end;
    while i > 0
        invariant
            i <= end,
            end <= s@.len(),
            last_quote_before(s@, end as int) == last_quote_before(s@, i as int),
        decreases i,
    {
        if s[i - 1] == '\'' || s[i - 1] == '"' {
            return Some(i - 1);
        }
        i = i - 1;
    }
    None
}

fn first_quote(s: &[char], start: usize) -> (r: Option<usize>)
    ensures
        r matches Some(i) ==> first_quote_from(s@, start as int) == Some(i as int),
        r is None ==> first_quote_from(s@, start as int) is None,
{
    let mut i = start;
    while i < s.len()
        invariant
            start <= i,
            first_quote_from(s@, start as int) == first_quote_from(s@, i as int),
        decreases s@.len() - i,
    {
        if s[i] == '\'' || s[i] == '"' {
            return Some(i);
        }
        i = i + 1;
    }
    None
}

fn is_mmdb_candidate_exec(c: &[char]) -> (r: bool)
    ensures
        r == is_mmdb_candidate(c@),
{
    let lowered = lower_chars(c);
    let suffix = chars_of(".mmdb.gz");
    if chars_ends_with(lowered.as_slice(), suffix.as_slice()) {
        return true;
    }
    let text = string_from_chars(c);
    has_mmdb_extension(text.as_str())
}

fn candidate_link_exec(c: &[char]) -> (r: Option<String>)
    ensures
        match r {
            Some(link) => candidate_link(c@) == Some(link@),
            None => candidate_link(c@) is None,
        },
{
    let http = chars_of("http");
    let slash = chars_of("/");
    if chars_starts_with(c, http.as_slice()) {
        Some(string_from_chars(c))
    } else if chars_starts_with(c, slash.as_slice()) {
        let mut link = chars_of("https://db-ip.com");
        let ghost prefix = link@;
        let mut i: usize = 0;
        while i < c.len()
            invariant
                i <= c@.len(),
                link@ == prefix + c@.take(i as int),
            decreases c@.len() - i,
        {
            link.push(c[i]);
            i = i + 1;
            assert(link@ =~= prefix + c@.take(i as int));
        }
        assert(c@.take(c@.len() as int) =~= c@);
        Some(string_from_chars(link.as_slice()))
    } else {
        None
    }
}

/// Finds the MMDB download link for a database `kind` in a download page.
pub fn extract_mmdb_download_link(html: &str, kind: &str) -> (r: Option<String>)
    ensures
        match r {
            Some(link) => link_search(html@, link_pattern(kind@), 0) == Some(link@),
            None => link_search(html@, link_pattern(kind@), 0) is None,
        },
{
    let text = chars_of(html);
    let mut pattern = chars_of("dbip-");
    let kind_chars = chars_of(kind);
    let mut k: usize = 0;
    let ghost p0 = pattern@;
    while k < kind_chars.len()
        invariant
            k <= kind_chars@.len(),
            pattern@ == p0 + kind_chars@.take(k as int),
        decreases kind_chars@.len() - k,
    {
        pattern.push(kind_chars[k]);
        k = k + 1;
        assert(pattern@ =~= p0 + kind_chars@.take(k as int));
    }
    let tail = chars_of("-lite-");
    let ghost p1 = pattern@;
    let mut k: usize = 0;
    while k < tail.len()
        invariant
            k <= tail@.len(),
            pattern@ == p1 + tail@.take(k as int),
        decreases tail@.len() - k,
    {
        pattern.push(tail[k]);
        k = k + 1;
        assert(pattern@ =~= p1 + tail@.take(k as int));
    }
    proof {
        assert(kind_chars@.take(kind_chars@.len() as int) =~= kind_chars@);
        assert(tail@.take(tail@.len() as int) =~= tail@);
        reveal_strlit("dbip-");
        reveal_strlit("-lite-");
        assert(pattern@ =~= link_pattern(kind@));
        assert(pattern@.len() > 0);
    }
    let mut search: usize = 0;
    while search <= text.len()
        invariant
            text@ == html@,
            pattern@ == link_pattern(kind@),
            pattern@.len() > 0,
            link_search(text@, pattern@, 0) == link_search(text@, pattern@, search as int),
        decreases text@.len() + 1 - search,
    {
        let found = find_from(text.as_slice(), pattern.as_slice(), search);
        proof {
            lemma_first_match_props(text@, pattern@, search as int);
        }
        let idx = match found {
            Some(idx) => idx,
            None => {
                assert(link_search(text@, pattern@, search as int) is None);
                return None;
            },
        };
        let hs = match last_quote(text.as_slice(), idx) {
            Some(hs) => hs,
            None => {
                assert(link_search(text@, pattern@, search as int) is None);
                return None;
            },
        };
        let he = match first_quote(text.as_slice(), idx) {
            Some(he) => he,
            None => {
                assert(link_search(text@, pattern@, search as int) is None);
                return None;
            },
        };
        proof {
            lemma_last_quote_props(text@, idx as int);
            lemma_first_quote_props(text@, idx as int);
        }
        let mut candidate: Vec<char> = Vec::new();
        let mut j: usize = hs + 1;
        while j < he
            invariant
                hs + 1 <= j <= he,
                he <= text@.len(),
                candidate@ == text@.subrange(hs + 1, j as int),
            decreases he - j,
        {
            candidate.push(text[j]);
            j = j + 1;
            assert(candidate@ =~= text@.subrange(hs + 1, j as int));
        }
        assert(link_search(text@, pattern@, search as int) == (if is_mmdb_candidate(candidate@)
            && candidate_link(candidate@) is Some {
            candidate_link(candidate@)
        } else {
            link_search(text@, pattern@, idx + pattern@.len())
        }));
        if is_mmdb_candidate_exec(candidate.as_slice()) {
            let link = candidate_link_exec(candidate.as_slice());
            if link.is_some() {
                return link;
            }
        }
        search = idx + pattern.len();
    }
    None
}


/// Default download source of the city database.
pub const DEFAULT_CITY_SOURCE: &'static str =
    "https://raw.githubusercontent.com/P3TERX/GeoLite.mmdb/download/GeoLite2-City.mmdb";

/// Default download source of the ASN database.
pub const DEFAULT_ASN_SOURCE: &'static str =
    "https://raw.githubusercontent.com/P3TERX/GeoLite.mmdb/download/GeoLite2-ASN.mmdb";

/// Attribution shown with the Geo data.
pub const GEOLITE_ATTRIBUTION: &'static str =
    "GeoLite2 data created by MaxMind / P3TERX mirror (https://github.com/P3TERX/GeoLite.mmdb)";

/// File name of the city database.
pub const CITY_FILENAME: &'static str = "GeoLite2-City.mmdb";

/// File name of the ASN database.
pub const ASN_FILENAME: &'static str = "GeoLite2-ASN.mmdb";

/// What inspecting an installed MMDB file reports.
#[derive(Clone, Debug, PartialEq, Eq)]
pub struct GeoDatabaseMetadata {
    pub database_type: Option<String>,
    pub build_epoch: Option<u64>,
    pub file_size_bytes: u64,
    pub last_modified_unix_s: Option<u64>,
    pub record_count: Option<u32>,
}

/// One database in the Geo inventory.
#[derive(Clone, Debug, PartialEq, Eq)]
pub struct GeoDatabaseItem {
    pub filename: String,
    pub installed: bool,
    pub database_type: Option<String>,
    pub build_epoch: Option<u64>,
    pub build_date: Option<String>,
    pub file_size_bytes: u64,
    pub last_modified_unix_s: Option<u64>,
    pub record_count: Option<u32>,
    pub source_url: String,
}

/// The Geo status and database inventory of a directory.
#[derive(Clone, Debug, PartialEq, Eq)]
pub struct GeoStatusResponse {
    pub enabled: bool,
    pub directory: String,
    pub databases: Vec<GeoDatabaseItem>,
    pub attribution: String,
}

/// The outcome of a Geo database update.
#[derive(Clone, Debug, PartialEq, Eq)]
pub struct GeoUpdateResult {
    pub success: bool,
    pub message: String,
    pub updated_files: Vec<String>,
    pub status: GeoStatusResponse,
}


/// The inventory entry `build_item` makes for a file: installed with the
/// inspected metadata, or absent with empty metadata.
pub open spec fn item_matches(
    item: GeoDatabaseItem,
    filename: Seq<char>,
    source_url: Seq<char>,
    meta: Option<GeoDatabaseMetadata>,
) -> bool {
    &&& item.filename@ == filename
    &&& item.source_url@ == source_url
    &&& match meta {
        Some(meta) => {
            &&& item.installed
            &&& opt_string_view(item.database_type) == opt_string_view(meta.database_type)
            &&& item.build_epoch == meta.build_epoch
            &&& match meta.build_epoch {
                Some(epoch) => {
                    &&& (item.build_date is None <==> epoch > i64::MAX)
                    &&& (item.build_date matches Some(d) ==> epoch_date_ok(epoch, d@))
                },
                None => item.build_date is None,
            }
            &&& item.file_size_bytes == meta.file_size_bytes
            &&& item.last_modified_unix_s == meta.last_modified_unix_s
            &&& item.record_count == meta.record_count
        },
        None => {
            &&& !item.installed
            &&& item.database_type is None
            &&& item.build_epoch is None
            &&& item.build_date is None
            &&& item.file_size_bytes == 0
            &&& item.last_modified_unix_s is None
            &&& item.record_count is None
        },
    }
}


/// Builds the inventory entry of one database file.
pub fn build_item(
    filename: &str,
    source_url: &str,
    meta: Option<&GeoDatabaseMetadata>,
) -> (item: GeoDatabaseItem)
    ensures
        item_matches(
            item,
            filename@,
            source_url@,
            match meta {
                Some(m) => Some(*m),
                None => None,
            },
        ),
{
    match meta {
        Some(meta) => {
            let build_date = match meta.build_epoch {
                Some(epoch) => format_epoch(epoch),
                None => None,
            };
            GeoDatabaseItem {
                filename: filename.to_owned(),
                installed: true,
                database_type: clone_opt_string(&meta.database_type),
                build_epoch: meta.build_epoch,
                build_date,
                file_size_bytes: meta.file_size_bytes,
                last_modified_unix_s: meta.last_modified_unix_s,
                record_count: meta.record_count,
                source_url: source_url.to_owned(),
            }
        },
        None => GeoDatabaseItem {
            filename: filename.to_owned(),
            installed: false,
            database_type: None,
            build_epoch: None,
            build_date: None,
            file_size_bytes: 0,
            last_modified_unix_s: None,
            record_count: None,
            source_url: source_url.to_owned(),
        },
    }
}

/// Whether a file in the Geo directory is an extra database to list: an MMDB
/// file other than the two standard ones.
pub open spec fn is_custom_database_spec(name: Seq<char>) -> bool {
    has_mmdb_extension_spec(name) && name != CITY_FILENAME@ && name != ASN_FILENAME@
}


/// Whether a file name names an extra database to list.
pub fn is_custom_database(name: &str) -> (r: bool)
    ensures
        r == is_custom_database_spec(name@),
{
    has_mmdb_extension(name) && !str_eq(name, CITY_FILENAME) && !str_eq(name, ASN_FILENAME)
}

/// Assembles the Geo status of a directory from what inspecting it found:
/// the two standard databases first, then each listed extra MMDB file in the
/// order given; other files are skipped.
pub fn geo_status(
    directory: String,
    enabled: bool,
    city_source: &str,
    asn_source: &str,
    city_meta: Option<&GeoDatabaseMetadata>,
    asn_meta: Option<&GeoDatabaseMetadata>,
    others: &Vec<(String, Option<GeoDatabaseMetadata>)>,
) -> (r: GeoStatusResponse)
    ensures
        r.enabled == enabled,
        r.directory == directory,
        r.attribution@ == GEOLITE_ATTRIBUTION@,
        r.databases@.len() >= 2,
        item_matches(
            r.databases@[0],
            CITY_FILENAME@,
            city_source@,
            match city_meta {
                Some(m) => Some(*m),
                None => None,
            },
        ),
        item_matches(
            r.databases@[1],
            ASN_FILENAME@,
            asn_source@,
            match asn_meta {
                Some(m) => Some(*m),
                None => None,
            },
        ),
        r.databases@.len() - 2 == others@.filter(|o: (String, Option<GeoDatabaseMetadata>)| is_custom_database_spec(o.0@)).len(),
        forall|k: int|
            #![trigger r.databases@[k]]
            2 <= k < r.databases@.len() ==> {
                let o = others@.filter(
                    |o: (String, Option<GeoDatabaseMetadata>)| is_custom_database_spec(o.0@),
                )[k - 2];
                item_matches(r.databases@[k], o.0@, "custom"@, o.1)
            },
{
    let mut databases: Vec<GeoDatabaseItem> = Vec::new();
    databases.push(build_item(CITY_FILENAME, city_source, city_meta));
    databases.push(build_item(ASN_FILENAME, asn_source, asn_meta));
    let ghost pred = |o: (String, Option<GeoDatabaseMetadata>)| is_custom_database_spec(o.0@);
    let mut i: usize = 0;
    while i < others.len()
        invariant
            i <= others@.len(),
            pred == (|o: (String, Option<GeoDatabaseMetadata>)| is_custom_database_spec(o.0@)),
            databases@.len() == 2 + others@.take(i as int).filter(pred).len(),
            item_matches(
                databases@[0],
                CITY_FILENAME@,
                city_source@,
                match city_meta {
                    Some(m) => Some(*m),
                    None => None,
                },
            ),
            item_matches(
                databases@[1],
                ASN_FILENAME@,
                asn_source@,
                match asn_meta {
                    Some(m) => Some(*m),
                    None => None,
                },
            ),
            forall|k: int|
                #![trigger databases@[k]]
                2 <= k < databases@.len() ==> {
                    let o = others@.take(i as int).filter(pred)[k - 2];
                    item_matches(databases@[k], o.0@, "custom"@, o.1)
                },
        decreases others@.len() - i,
    {
        let entry = &others[i];
        proof {
            assert(others@.take(i as int + 1) =~= others@.take(i as int).push(others@[i as int]));
            others@.take(i as int).lemma_filter_push(others@[i as int], pred);
        }
        if is_custom_database(entry.0.as_str()) {
            let meta = match &entry.1 {
                Some(m) => Some(m),
                None => None,
            };
            databases.push(build_item(entry.0.as_str(), "custom", meta));
        }
        i = i + 1;
    }
    assert(others@.take(others@.len() as int) =~= others@);
    GeoStatusResponse {
        enabled,
        directory,
        databases,
        attribution: GEOLITE_ATTRIBUTION.to_owned(),
    }
}

/// Whether a source URL points at an MMDB file or a gzip of one, so that no
/// download page has to be read.
pub open spec fn is_direct_download_spec(url: Seq<char>) -> bool {
    has_mmdb_extension_spec(url) || seq_ends_with(lower_seq(url), ".mmdb.gz"@)
}

pub fn is_direct_download(url: &str) -> (r: bool)
    ensures
        r == is_direct_download_spec(url@),
{
    if has_mmdb_extension(url) {
        return true;
    }
    let lowered = lower_chars(chars_of(url).as_slice());
    let suffix = chars_of(".mmdb.gz");
    chars_ends_with(lowered.as_slice(), suffix.as_slice())
}

/// The mirror used for a database kind when no download page yields a link.
pub open spec fn mirror_spec(kind: Seq<char>) -> Seq<char> {
    if kind == "city"@ || kind == "country"@ {
        DEFAULT_CITY_SOURCE@
    } else {
        DEFAULT_ASN_SOURCE@
    }
}

pub fn mirror_for(kind: &str) -> (r: &'static str)
    ensures
        r@ == mirror_spec(kind@),
{
    if str_eq(kind, "city") || str_eq(kind, "country") {
        DEFAULT_CITY_SOURCE
    } else {
        DEFAULT_ASN_SOURCE
    }
}

/// The URL to download from, given the source and, when the source is not a
/// direct download, the page read from it (`None` when reading it failed).
pub open spec fn download_url_spec(
    source: Seq<char>,
    kind: Seq<char>,
    page: Option<Seq<char>>,
) -> Seq<char> {
    if is_direct_download_spec(source) {
        source
    } else {
        match page {
            Some(html) => match link_search(html, link_pattern(kind), 0) {
                Some(link) => link,
                None => mirror_spec(kind),
            },
            None => mirror_spec(kind),
        }
    }
}

/// Chooses the download URL of a database from its source and the page the
/// source served.
pub fn download_url(source_url: &str, kind: &str, page: Option<&str>) -> (r: String)
    ensures
        r@ == download_url_spec(
            source_url@,
            kind@,
            match page {
                Some(p) => Some(p@),
                None => None,
            },
        ),
{
    if is_direct_download(source_url) {
        return source_url.to_owned();
    }
    match page {
        Some(html) => match extract_mmdb_download_link(html, kind) {
            Some(link) => link,
            None => mirror_for(kind).to_owned(),
        },
        None => mirror_for(kind).to_owned(),
    }
}

/// The URL of this month's db-ip lite download for a database kind, at the
/// given Unix time (seconds).
pub open spec fn predicted_url_ok(kind: Seq<char>, now_unix_s: u64, url: Seq<char>) -> bool {
    exists|y: int, m: int, d: int|
        {
            &&& valid_date(y, m, d)
            &&& #[trigger] days_from_civil(y, m, d) == now_unix_s as int / 86400
            &&& url == "https://download.db-ip.com/free/dbip-"@ + kind + "-lite-"@ + zero_pad(
                decimal(clamp_i32(y) as nat),
                4,
            ) + "-"@ + zero_pad(decimal(m as nat), 2) + ".mmdb.gz"@
        }
}

/// Predicts this month's download URL of a database kind.
pub fn fallback_predicted_url(kind: &str, now_unix_s: u64) -> (r: String)
    requires
        now_unix_s <= i64::MAX,
    ensures
        predicted_url_ok(kind@, now_unix_s, r@),
{
    let days: i64 = (now_unix_s / 86400) as i64;
    let (y, m, d) = civil_from_days(days);
    let year: u64 = if y > i32::MAX as i64 {
        i32::MAX as u64
    } else {
        y as u64
    };
    let mut out: Vec<char> = Vec::new();
    push_str(&mut out, "https://download.db-ip.com/free/dbip-");
    push_str(&mut out, kind);
    push_str(&mut out, "-lite-");
    push_decimal_padded(&mut out, year, 4);
    push_str(&mut out, "-");
    push_decimal_padded(&mut out, m as u64, 2);
    push_str(&mut out, ".mmdb.gz");
    assert(days_from_civil(y as int, m as int, d as int) == now_unix_s as int / 86400);
    assert(year as int == clamp_i32(y as int));
    string_from_chars(out.as_slice())
}

} // verus!
