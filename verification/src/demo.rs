//! Demo-mode switch and the plan that keeps demo data in the present.

use vstd::prelude::*;

use crate::text::{chars_of, lower_chars, lower_seq, trim_chars, trim_seq};

verus! {

/// Whether a `NETQMON_DEMO_MODE` value turns demo mode on: `true` in any
/// ASCII case, or `1`, ignoring surrounding whitespace.
pub open spec fn is_demo_mode_spec(val: Seq<char>) -> bool {
    let s = trim_seq(val);
    lower_seq(s) == "true"@ || s == "1"@
}

fn chars_eq(a: &[char], b: &[char]) -> (r: bool)
    ensures
        r == (a@ == b@),
{
    if a.len() != b.len() {
        return false;
    }
    let mut i: usize = 0;
    while i < a.len()
        invariant
            i <= a@.len(),
            a@.len() == b@.len(),
            forall|j: int| 0 <= j < i ==> a@[j] == b@[j],
        decreases a@.len() - i,
    {
        if a[i] != b[i] {
            return false;
        }
        i = i + 1;
    }
    assert(a@ =~= b@);
    true
}

/// Whether a demo-mode setting value enables demo mode.
pub fn is_demo_mode_val(val: &str) -> (r: bool)
    ensures
        r == is_demo_mode_spec(val@),
{
    let s = trim_chars(chars_of(val).as_slice());
    let lowered = lower_chars(s.as_slice());
    let t = chars_of("true");
    let one = chars_of("1");
    chars_eq(lowered.as_slice(), t.as_slice()) || chars_eq(s.as_slice(), one.as_slice())
}

/// Rust's `/` on integers: the quotient rounded toward zero.
pub open spec fn trunc_div(a: int, b: int) -> int {
    if a >= 0 {
        a / b
    } else {
        -((-a) / b)
    }
}

/// The minute, 30 s before `now_ms`, that the newest demo data point is moved to.
pub open spec fn demo_target_ms(now_ms: int) -> int {
    trunc_div(now_ms - 30_000, 60_000) * 60_000
}

/// By how much to shift all demo timestamps: nothing without data or when the
/// newest point is already within a minute of the target.
pub open spec fn demo_shift_spec(latest: Option<i64>, now_ms: i64) -> Option<i64> {
    match latest {
        None => None,
        Some(latest) => if latest <= 0 {
            None
        } else {
            let delta = demo_target_ms(now_ms as int) - latest;
            if -60_000 < delta < 60_000 {
                None
            } else {
                Some(delta as i64)
            }
        },
    }
}

/// Plans the timestamp shift that moves the newest demo data point (`latest`,
/// in ms) to the present.
pub fn demo_shift(latest: Option<i64>, now_ms: i64) -> (r: Option<i64>)
    requires
        latest matches Some(l) ==> (l > 0 ==> now_ms - 30_000 - l > i64::MIN),
    ensures
        r == demo_shift_spec(latest, now_ms),
{
    let latest = match latest {
        None => return None,
        Some(l) => l,
    };
    if latest <= 0 {
        return None;
    }
    let a: i64 = now_ms - 30_000;
    let q: i64 = if a >= 0 {
        a / 60_000
    } else {
        -((-a) / 60_000)
    };
    assert(a >= 0 ==> a - 60_000 < q * 60_000 <= a);
    assert(a < 0 ==> a <= q * 60_000 <= 0);
    let target: i64 = q * 60_000;
    let delta: i64 = target - latest;
    if delta > -60_000 && delta < 60_000 {
        None
    } else {
        Some(delta)
    }
}


/// Sum of the upload (`up`) or download column over the first `n` recent
/// minutes.
pub open spec fn minute_sum(rows: Seq<(i64, i64, i64)>, n: int, up: bool) -> int
    decreases n,
{
    if n <= 0 {
        0
    } else {
        minute_sum(rows, n - 1, up) + if up { rows[n - 1].1 as int } else { rows[n - 1].2 as int }
    }
}

/// Every running sum of either column fits in an `i64`.
pub open spec fn minute_sums_fit(rows: Seq<(i64, i64, i64)>) -> bool {
    forall|k: int, up: bool|
        0 <= k <= rows.len() ==> i64::MIN <= #[trigger] minute_sum(rows, k, up) <= i64::MAX
}

/// The demo's base upload and download rates (bytes per second) from the
/// recent per-minute totals (timestamp, upload, download): the average
/// rate over the rows' minutes, at least 50 000 up and 300 000 down, or
/// 250 000 up and 1 800 000 down without rows.
pub open spec fn demo_base_rates_spec(rows: Seq<(i64, i64, i64)>) -> (int, int) {
    if rows.len() == 0 {
        (250_000, 1_800_000)
    } else {
        let secs = rows.len() as int * 60;
        let up = trunc_div(minute_sum(rows, rows.len() as int, true), secs);
        let down = trunc_div(minute_sum(rows, rows.len() as int, false), secs);
        (if up < 50_000 { 50_000 } else { up }, if down < 300_000 { 300_000 } else { down })
    }
}

fn column_sum(rows: &Vec<(i64, i64, i64)>, up: bool) -> (r: i64)
    requires
        minute_sums_fit(rows@),
    ensures
        r == minute_sum(rows@, rows@.len() as int, up),
{
    let mut sum: i64 = 0;
    let mut i: usize = 0;
    while i < rows.len()
        invariant
            i <= rows@.len(),
            minute_sums_fit(rows@),
            sum == minute_sum(rows@, i as int, up),
        decreases rows@.len() - i,
    {
        proof {
            assert(i64::MIN <= minute_sum(rows@, i as int + 1, up) <= i64::MAX);
        }
        let v = if up { rows[i].1 } else { rows[i].2 };
        sum = sum + v;
        i = i + 1;
    }
    sum
}

fn average_at_least(sum: i64, secs: i64, floor: i64) -> (r: u64)
    requires
        secs > 0,
        floor >= 0,
    ensures
        r == (if trunc_div(sum as int, secs as int) < floor { floor as int } else {
            trunc_div(sum as int, secs as int)
        }),
{
    if sum < 0 {
        assert((-(sum as int)) / (secs as int) >= 0) by (nonlinear_arith)
            requires
                sum < 0,
                secs > 0,
        ;
        return floor as u64;
    }
    let q: i64 = sum / secs;
    if q < floor {
        floor as u64
    } else {
        q as u64
    }
}

/// The demo's base rates from recent per-minute totals, as
/// `demo_base_rates_spec` gives them.
pub fn demo_base_rates(rows: &Vec<(i64, i64, i64)>) -> (r: (u64, u64))
    requires
        minute_sums_fit(rows@),
        rows@.len() * 60 <= i64::MAX,
    ensures
        r.0 == demo_base_rates_spec(rows@).0,
        r.1 == demo_base_rates_spec(rows@).1,
{
    if rows.len() == 0 {
        return (250_000, 1_800_000);
    }
    let secs: i64 = rows.len() as i64 * 60;
    let up = column_sum(rows, true);
    let down = column_sum(rows, false);
    (average_at_least(up, secs, 50_000), average_at_least(down, secs, 300_000))
}

} // verus!
