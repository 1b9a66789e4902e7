use chrono::{TimeZone, Utc};
use vstd::prelude::*;
use crate::text::{dec, int_str, pad2, push_char, push_dec, push_int, push_pad2, int_to_string};

verus! {

/// Gregorian leap-year rule.
pub open spec fn is_leap(y: int) -> bool {
    (y % 4 == 0 && y % 100 != 0) || y % 400 == 0
}

/// Number of days in month `m` (1-based) of year `y`.
pub open spec fn days_in_month(y: int, m: int) -> int {
    if m == 2 {
        if is_leap(y) { 29 } else { 28 }
    } else if m == 4 || m == 6 || m == 9 || m == 11 {
        30
    } else {
        31
    }
}

/// Days of the year `y` that precede the first day of month `m`.
pub open spec fn days_before_month(y: int, m: int) -> int {
    let base: int = if m == 1 { 0 } else if m == 2 { 31 } else if m == 3 { 59 } else if m == 4 { 90 }
        else if m == 5 { 120 } else if m == 6 { 151 } else if m == 7 { 181 } else if m == 8 { 212 }
        else if m == 9 { 243 } else if m == 10 { 273 } else if m == 11 { 304 } else { 334 };
    if m > 2 && is_leap(y) { base + 1 } else { base }
}

/// Leap-year count function: `leaps_before(y + 1) - leaps_before(y)` is 1 exactly when
/// `y` is a leap year.
pub open spec fn leaps_before(y: int) -> int {
    (y - 1) / 4 - (y - 1) / 100 + (y - 1) / 400
}

/// Days from 1970-01-01 to January 1st of year `y` (negative before 1970).
pub open spec fn days_before_year(y: int) -> int {
    365 * (y - 1970) + leaps_before(y) - leaps_before(1970)
}

/// Day number (days since 1970-01-01) of the proleptic Gregorian date `y-m-d`.
pub open spec fn days_from_civil(y: int, m: int, d: int) -> int {
    days_before_year(y) + days_before_month(y, m) + d - 1
}

/// A valid proleptic Gregorian calendar date.
pub open spec fn valid_date(y: int, m: int, d: int) -> bool {
    1 <= m <= 12 && 1 <= d <= days_in_month(y, m)
}

/// Year-of-era and day-of-year of an offset into a 400-year era (March-based years).
proof fn lemma_year_of_era(doe: int)
    requires
        0 <= doe <= 146096,
    ensures
        ({
            let yoe: int = (doe - doe / 1460 + doe / 36524 - doe / 146096) / 365;
            let doy: int = doe - (365 * yoe + yoe / 4 - yoe / 100);
            &&& 0 <= yoe <= 399
            &&& 0 <= doy <= 365
            &&& doy == 365 ==> is_leap(yoe + 1)
        }),
{
}

/// Day number of March 1st of year `yoe` of the era that starts at year 0.
proof fn lemma_march_first(yoe: int)
    requires
        0 <= yoe <= 399,
    ensures
        days_before_year(yoe) + 59 + (if is_leap(yoe) { 1int } else { 0int })
            == 365 * yoe + yoe / 4 - yoe / 100 - 719468,
        days_before_year(yoe + 1) == days_before_year(yoe) + 365 + (if is_leap(yoe) { 1int } else { 0int }),
{
}

/// Month and day of a March-based day-of-year.
proof fn lemma_month_of_year(doy: int, y: int)
    requires
        0 <= doy <= 365,
        doy == 365 ==> is_leap(y),
    ensures
        ({
            let mp: int = (5 * doy + 2) / 153;
            let d: int = doy - (153 * mp + 2) / 5 + 1;
            let m: int = if mp < 10 { mp + 3 } else { mp - 9 };
            &&& 0 <= mp <= 11
            &&& 1 <= m <= 12
            &&& 1 <= d <= days_in_month(y, m)
            &&& mp < 10 ==> (153 * mp + 2) / 5 == days_before_month(y - 1, m) - 59
                - (if is_leap(y - 1) { 1int } else { 0int })
            &&& mp >= 10 ==> (153 * mp + 2) / 5 == 306 + days_before_month(y, m)
        }),
{
    let mp: int = (5 * doy + 2) / 153;
    assert(0 <= mp <= 11);
    if mp == 0 {} else if mp == 1 {} else if mp == 2 {} else if mp == 3 {} else if mp == 4 {}
    else if mp == 5 {} else if mp == 6 {} else if mp == 7 {} else if mp == 8 {} else if mp == 9 {}
    else if mp == 10 {} else {}
}

/// Within one 400-year era starting on March 1st of year 0: the offset `doe` decomposes
/// into a valid date whose day number is `doe` days after 0000-03-01.
proof fn lemma_era_zero(doe: int)
    requires
        0 <= doe <= 146096,
    ensures
        ({
            let yoe: int = (doe - doe / 1460 + doe / 36524 - doe / 146096) / 365;
            let doy: int = doe - (365 * yoe + yoe / 4 - yoe / 100);
            let mp: int = (5 * doy + 2) / 153;
            let d: int = doy - (153 * mp + 2) / 5 + 1;
            let m: int = if mp < 10 { mp + 3 } else { mp - 9 };
            let y: int = if m <= 2 { yoe + 1 } else { yoe };
            &&& 0 <= yoe <= 399
            &&& 0 <= doy <= 365
            &&& 0 <= mp <= 11
            &&& valid_date(y, m, d)
            &&& days_from_civil(y, m, d) == doe - 719468
        }),
{
    lemma_year_of_era(doe);
    let yoe: int = (doe - doe / 1460 + doe / 36524 - doe / 146096) / 365;
    let doy: int = doe - (365 * yoe + yoe / 4 - yoe / 100);
    lemma_march_first(yoe);
    lemma_month_of_year(doy, yoe + 1);
}

/// Adding `k` multiples of `d` adds `k` to the quotient and keeps the remainder.
proof fn lemma_div_add_multiple(x: int, k: int, d: int)
    requires
        d > 0,
    ensures
        (x + k * d) / d == x / d + k,
        (x + k * d) % d == x % d,
{
    vstd::arithmetic::div_mod::lemma_fundamental_div_mod(x, d);
    assert(x + k * d == (x / d + k) * d + x % d) by (nonlinear_arith)
        requires
            x == d * (x / d) + x % d,
    ;
    vstd::arithmetic::div_mod::lemma_fundamental_div_mod_converse(x + k * d, d, x / d + k, x % d);
}

/// The quotient by `d` steps up exactly at multiples of `d`.
proof fn lemma_div_step(x: int, d: int)
    requires
        d > 0,
    ensures
        x / d == (x - 1) / d + (if x % d == 0 { 1int } else { 0int }),
{
    vstd::arithmetic::div_mod::lemma_fundamental_div_mod(x - 1, d);
    let q: int = (x - 1) / d;
    let r: int = (x - 1) % d;
    if r == d - 1 {
        assert(x == (q + 1) * d + 0) by (nonlinear_arith)
            requires
                x - 1 == d * q + r,
                r == d - 1,
        ;
        vstd::arithmetic::div_mod::lemma_fundamental_div_mod_converse(x, d, q + 1, 0);
    } else {
        assert(x == q * d + (r + 1)) by (nonlinear_arith)
            requires
                x - 1 == d * q + r,
        ;
        vstd::arithmetic::div_mod::lemma_fundamental_div_mod_converse(x, d, q, r + 1);
    }
}

/// One 400-year era later, the same date has a day number larger by 146097.
#[verifier::spinoff_prover]
proof fn lemma_shift_one_era(y: int, m: int, d: int)
    ensures
        days_from_civil(y + 400, m, d) == days_from_civil(y, m, d) + 146097,
        valid_date(y + 400, m, d) == valid_date(y, m, d),
{
    lemma_div_add_multiple(y - 1, 100, 4);
    lemma_div_add_multiple(y - 1, 4, 100);
    lemma_div_add_multiple(y - 1, 1, 400);
    lemma_div_add_multiple(y, 100, 4);
    lemma_div_add_multiple(y, 4, 100);
    lemma_div_add_multiple(y, 1, 400);
    assert(leaps_before(y + 400) == leaps_before(y) + 97);
    assert(is_leap(y + 400) == is_leap(y));
    assert(days_before_year(y + 400) == days_before_year(y) + 146097);
    assert(days_before_month(y + 400, m) == days_before_month(y, m));
    assert(days_in_month(y + 400, m) == days_in_month(y, m));
}

/// Shifting a date by `e` whole 400-year eras shifts its day number by `e * 146097`
/// and keeps it valid.
proof fn lemma_shift_eras(y: int, m: int, d: int, e: int)
    ensures
        days_from_civil(y + 400 * e, m, d) == days_from_civil(y, m, d) + 146097 * e,
        valid_date(y + 400 * e, m, d) == valid_date(y, m, d),
    decreases (if e >= 0 { e } else { -e }),
{
    if e > 0 {
        lemma_shift_eras(y, m, d, e - 1);
        lemma_shift_one_era(y + 400 * (e - 1), m, d);
        assert(y + 400 * (e - 1) + 400 == y + 400 * e);
    } else if e < 0 {
        lemma_shift_eras(y, m, d, e + 1);
        lemma_shift_one_era(y + 400 * e, m, d);
        assert(y + 400 * e + 400 == y + 400 * (e + 1));
    }
}

/// Consecutive years are 365 or 366 days apart.
#[verifier::spinoff_prover]
proof fn lemma_year_step(y: int)
    ensures
        days_before_year(y + 1) == days_before_year(y) + 365 + (if is_leap(y) { 1int } else { 0int }),
{
    lemma_div_step(y, 4);
    lemma_div_step(y, 100);
    lemma_div_step(y, 400);
}

/// `days_before_year` grows by at least 365 per year.
proof fn lemma_year_monotone(a: int, b: int)
    requires
        a <= b,
    ensures
        days_before_year(a) + 365 * (b - a) <= days_before_year(b),
    decreases b - a,
{
    if a < b {
        lemma_year_monotone(a, b - 1);
        lemma_year_step(b - 1);
    }
}

/// A valid date lies inside its year, and its month inside the year's month layout.
proof fn lemma_date_in_year(y: int, m: int, d: int)
    requires
        valid_date(y, m, d),
    ensures
        days_before_year(y) <= days_from_civil(y, m, d) < days_before_year(y + 1),
        days_before_month(y, m) <= days_from_civil(y, m, d) - days_before_year(y)
            < days_before_month(y, m) + days_in_month(y, m),
        forall|m2: int| m < m2 <= 12 ==> days_before_month(y, m) + days_in_month(y, m)
            <= #[trigger] days_before_month(y, m2),
{
    lemma_year_step(y);
}

/// Distinct valid dates have distinct day numbers: the day number of a valid date
/// determines the date.
pub proof fn lemma_civil_unique(y1: int, m1: int, d1: int, y2: int, m2: int, d2: int)
    requires
        valid_date(y1, m1, d1),
        valid_date(y2, m2, d2),
        days_from_civil(y1, m1, d1) == days_from_civil(y2, m2, d2),
    ensures
        y1 == y2 && m1 == m2 && d1 == d2,
{
    lemma_date_in_year(y1, m1, d1);
    lemma_date_in_year(y2, m2, d2);
    if y1 < y2 {
        lemma_year_monotone(y1 + 1, y2);
    } else if y2 < y1 {
        lemma_year_monotone(y2 + 1, y1);
    }
    assert(y1 == y2);
    if m1 < m2 {
        assert(days_before_month(y1, m1) + days_in_month(y1, m1) <= days_before_month(y1, m2));
    } else if m2 < m1 {
        assert(days_before_month(y1, m2) + days_in_month(y1, m2) <= days_before_month(y1, m1));
    }
}

/// The date `(year, month, day)` whose day number is `days`.
pub open spec fn ymd_of(days: int) -> (int, int, int) {
    choose|t: (int, int, int)| valid_date(t.0, t.1, t.2) && days_from_civil(t.0, t.1, t.2) == days
}

/// Converts a Unix-epoch day count to `(year, month, day)` of the proleptic Gregorian
/// calendar (Howard Hinnant's civil-calendar algorithm).
pub fn days_to_ymd(days: i64) -> (res: (i64, i64, i64))
    requires
        days <= i64::MAX - 719_468,
    ensures
        (res.0 as int, res.1 as int, res.2 as int) == ymd_of(days as int),
        valid_date(res.0 as int, res.1 as int, res.2 as int),
        days_from_civil(res.0 as int, res.1 as int, res.2 as int) == days,
{
    let z: i64 = days + 719_468;
    let era: i64 = if z >= 0 { z } else { z - 146_096 } / 146_097;
    assert(era == z as int / 146_097);
    let doe: i64 = z - era * 146_097;
    assert(0 <= doe <= 146_096);
    let yoe: i64 = (doe - doe / 1_460 + doe / 36_524 - doe / 146_096) / 365;
    proof { lemma_era_zero(doe as int); }
    let y: i64 = yoe + era * 400;
    let doy: i64 = doe - (365 * yoe + yoe / 4 - yoe / 100);
    let mp: i64 = (5 * doy + 2) / 153;
    let d: i64 = doy - (153 * mp + 2) / 5 + 1;
    let m: i64 = if mp < 10 { mp + 3 } else { mp - 9 };
    let y: i64 = if m <= 2 { y + 1 } else { y };
    proof {
        let y0: int = if m <= 2 { yoe + 1 } else { yoe as int };
        lemma_shift_eras(y0, m as int, d as int, era as int);
        assert(y0 + 400 * era == y);
        let t: (int, int, int) = (y as int, m as int, d as int);
        assert(valid_date(t.0, t.1, t.2) && days_from_civil(t.0, t.1, t.2) == days);
        let c: (int, int, int) = ymd_of(days as int);
        lemma_civil_unique(t.0, t.1, t.2, c.0, c.1, c.2);
    }
    (y, m, d)
}

/// `x` divided by `d`, rounded towards negative infinity (`div_euclid` for `d > 0`).
pub fn floor_div(x: i64, d: i64) -> (q: i64)
    requires
        d > 0,
    ensures
        q == x as int / d as int,
{
    if x >= 0 {
        x / d
    } else {
        let nx: i64 = -(x + 1);
        let q0: i64 = nx / d;
        proof { lemma_floor_div_negative(x as int, d as int, q0 as int); }
        -q0 - 1
    }
}

/// The non-negative remainder of `x` modulo `d` (`rem_euclid` for `d > 0`).
pub fn floor_mod(x: i64, d: i64) -> (r: i64)
    requires
        d > 0,
    ensures
        r == x as int % d as int,
{
    if x >= 0 {
        x % d
    } else {
        let nx: i64 = -(x + 1);
        let q0: i64 = nx / d;
        let r0: i64 = nx % d;
        proof { lemma_floor_div_negative(x as int, d as int, q0 as int); }
        d - 1 - r0
    }
}

proof fn lemma_floor_div_negative(x: int, d: int, q0: int)
    requires
        x < 0,
        d > 0,
        q0 == (-(x + 1)) / d,
    ensures
        x / d == -q0 - 1,
        x % d == d - 1 - (-(x + 1)) % d,
{
    let nx: int = -(x + 1);
    let r0: int = nx % d;
    assert(nx == q0 * d + r0 && 0 <= r0 < d) by (nonlinear_arith)
        requires
            d > 0,
            nx >= 0,
            q0 == nx / d,
            r0 == nx % d,
    ;
    assert(x == (-q0 - 1) * d + (d - 1 - r0)) by (nonlinear_arith)
        requires
            nx == q0 * d + r0,
            x == -(nx + 1),
    ;
    vstd::arithmetic::div_mod::lemma_fundamental_div_mod_converse(x, d, -q0 - 1, d - 1 - r0);
}

/// `hh:mm:ss` (UTC time of day) of a Unix-millisecond timestamp.
pub open spec fn hms_str(unix_ms: int) -> Seq<char> {
    let sod: int = (unix_ms / 1000) % 86400;
    pad2((sod / 3600) as nat) + seq![':'] + pad2((sod % 3600 / 60) as nat) + seq![':']
        + pad2((sod % 60) as nat)
}

/// `hh:mm:ss dd.mm.yyyy` rendering of a Unix-millisecond timestamp (UTC).
pub open spec fn civil_time_str(unix_ms: int) -> Seq<char> {
    let ymd: (int, int, int) = ymd_of((unix_ms / 1000) / 86400);
    hms_str(unix_ms) + seq![' '] + pad2(ymd.2 as nat) + seq!['.'] + pad2(ymd.1 as nat)
        + seq!['.'] + int_str(ymd.0)
}

/// Formats a Unix-millisecond timestamp as either a raw integer or `hh:mm:ss dd.mm.yyyy`.
pub fn format_unix_ms(unix_ms: i64, as_unix: bool) -> (res: String)
    ensures
        res@ == if as_unix { int_str(unix_ms as int) } else { civil_time_str(unix_ms as int) },
{
    if as_unix {
        return int_to_string(unix_ms);
    }
    let unix_secs: i64 = floor_div(unix_ms, 1000);
    let secs_in_day: i64 = floor_mod(unix_secs, 86_400);
    let h: i64 = secs_in_day / 3_600;
    let m: i64 = (secs_in_day % 3_600) / 60;
    let s: i64 = secs_in_day % 60;
    let ymd: (i64, i64, i64) = days_to_ymd(floor_div(unix_secs, 86_400));
    let (yr, mo, d) = ymd;
    let mut out: String = String::new();
    push_pad2(&mut out, h as u64);
    push_char(&mut out, ':');
    push_pad2(&mut out, m as u64);
    push_char(&mut out, ':');
    push_pad2(&mut out, s as u64);
    push_char(&mut out, ' ');
    push_pad2(&mut out, d as u64);
    push_char(&mut out, '.');
    push_pad2(&mut out, mo as u64);
    push_char(&mut out, '.');
    push_int(&mut out, yr);
    assert(out@ =~= civil_time_str(unix_ms as int));
    out
}

/// 2004-01-01T00:00:00Z expressed as Unix milliseconds (ETSI EN 302 636-4-1, clause 6.4).
pub const ITS_EPOCH_MS: i64 = 1_072_915_200_000;

/// The GNW LPV timestamp wraps every 2^32 ms.
pub const TST_WRAP_MS: i64 = 4_294_967_296;

/// `unix_ms` is the unwrapping of the TAI-since-2004 timestamp `gnw_tst` next to the anchor
/// `approx_unix_ms`: it agrees with `gnw_tst` modulo 2^32 and lies in
/// `[approx_unix_ms - 2^31, approx_unix_ms + 2^31)`.
pub open spec fn is_tst_unwrapping(gnw_tst: int, approx_unix_ms: int, unix_ms: int) -> bool {
    &&& (unix_ms - ITS_EPOCH_MS - gnw_tst) % (TST_WRAP_MS as int) == 0
    &&& -(TST_WRAP_MS / 2) <= unix_ms - approx_unix_ms < TST_WRAP_MS / 2
}

/// Unwraps a GNW LPV TST value to a Unix-millisecond timestamp.
///
/// TST is a u32 counting TAI milliseconds since 2004-01-01 00:00:00 UTC, wrapping every
/// 2^32 ms (~49.7 days). `approx_unix_ms` (the capture timestamp) selects which period the
/// timestamp belongs to: the candidate closer to it wins, the earlier one on a tie.
pub fn gnw_tst_to_unix_ms(gnw_tst: u32, approx_unix_ms: i64) -> (res: i64)
    requires
        i64::MIN + ITS_EPOCH_MS + TST_WRAP_MS <= approx_unix_ms <= i64::MAX - TST_WRAP_MS,
    ensures
        is_tst_unwrapping(gnw_tst as int, approx_unix_ms as int, res as int),
{
    let tst_ms: i64 = gnw_tst as i64;
    let its_ms: i64 = approx_unix_ms - ITS_EPOCH_MS;
    let period_n: i64 = floor_div(its_ms - tst_ms, TST_WRAP_MS);
    proof {
        assert(0 <= (its_ms - tst_ms) - period_n * TST_WRAP_MS < TST_WRAP_MS) by (nonlinear_arith)
            requires
                period_n == (its_ms - tst_ms) as int / TST_WRAP_MS as int,
                TST_WRAP_MS > 0,
        ;
    }
    let c1: i64 = tst_ms + period_n * TST_WRAP_MS;
    let c2: i64 = tst_ms + (period_n + 1) * TST_WRAP_MS;
    let dist1: i64 = if c1 >= its_ms { c1 - its_ms } else { its_ms - c1 };
    let dist2: i64 = if c2 >= its_ms { c2 - its_ms } else { its_ms - c2 };
    let unwrapped: i64 = if dist1 <= dist2 { c1 } else { c2 };
    proof {
        vstd::arithmetic::div_mod::lemma_mod_multiples_basic(period_n as int, TST_WRAP_MS as int);
        vstd::arithmetic::div_mod::lemma_mod_multiples_basic(period_n + 1, TST_WRAP_MS as int);
    }
    unwrapped + ITS_EPOCH_MS
}

/// Two unwrappings of the same timestamp around the same anchor coincide: the unwrapped
/// time is determined by the TST value and the anchor.
pub proof fn lemma_tst_unwrapping_unique(gnw_tst: int, approx_unix_ms: int, a: int, b: int)
    requires
        is_tst_unwrapping(gnw_tst, approx_unix_ms, a),
        is_tst_unwrapping(gnw_tst, approx_unix_ms, b),
    ensures
        a == b,
{
    let w: int = TST_WRAP_MS as int;
    let ka: int = (a - ITS_EPOCH_MS - gnw_tst) / w;
    let kb: int = (b - ITS_EPOCH_MS - gnw_tst) / w;
    vstd::arithmetic::div_mod::lemma_fundamental_div_mod(a - ITS_EPOCH_MS - gnw_tst, w);
    vstd::arithmetic::div_mod::lemma_fundamental_div_mod(b - ITS_EPOCH_MS - gnw_tst, w);
    assert(a - b == (ka - kb) * w) by (nonlinear_arith)
        requires
            a - ITS_EPOCH_MS - gnw_tst == w * ka,
            b - ITS_EPOCH_MS - gnw_tst == w * kb,
    ;
    assert(ka == kb) by (nonlinear_arith)
        requires
            a - b == (ka - kb) * w,
            -w < a - b < w,
            w > 0,
    ;
}

/// A capture less than 2^31 ms away from the true time recovers the true time from its
/// wrapped TST value.
pub proof fn lemma_tst_unwrapping_recovers(unix_ms: int, approx_unix_ms: int, r: int)
    requires
        -(TST_WRAP_MS / 2) <= unix_ms - approx_unix_ms < TST_WRAP_MS / 2,
        is_tst_unwrapping((unix_ms - ITS_EPOCH_MS) % (TST_WRAP_MS as int), approx_unix_ms, r),
    ensures
        r == unix_ms,
{
    let w: int = TST_WRAP_MS as int;
    let tst: int = (unix_ms - ITS_EPOCH_MS) % w;
    vstd::arithmetic::div_mod::lemma_fundamental_div_mod(unix_ms - ITS_EPOCH_MS, w);
    let k: int = (unix_ms - ITS_EPOCH_MS) / w;
    assert(unix_ms - ITS_EPOCH_MS - tst == k * w) by (nonlinear_arith)
        requires
            unix_ms - ITS_EPOCH_MS == w * k + tst,
    ;
    vstd::arithmetic::div_mod::lemma_mod_multiples_basic(k, w);
    assert(is_tst_unwrapping(tst, approx_unix_ms, unix_ms));
    lemma_tst_unwrapping_unique(tst, approx_unix_ms, unix_ms, r);
}

/// Timestamps (Unix ms) that chrono's `Utc` represents: from the first millisecond of year
/// -262143 to the last of year 262142 (chrono's `MIN_YEAR` and `MAX_YEAR`).
pub open spec fn chrono_ms_in_range(unix_ms: int) -> bool {
    days_from_civil(-262143, 1, 1) * 86_400_000 <= unix_ms < (days_from_civil(262142, 12, 31) + 1) * 86_400_000
}

/// chrono: `Utc.timestamp_millis_opt(ms).unwrap().format("%H:%M:%S").to_string()`.
/// The contract claims that chrono renders the zero-padded UTC hour, minute and second of the
/// timestamp (whole seconds rounded towards negative infinity, as `from_timestamp_millis`
/// splits them). It admits only timestamps of chrono's year range, where
/// `timestamp_millis_opt` gives a value and `unwrap` cannot panic.
#[verifier::external_body]
fn chrono_utc_hms(unix_ms: i64) -> (res: String)
    requires
        chrono_ms_in_range(unix_ms as int),
    ensures
        res@ == hms_str(unix_ms as int),
{
    Utc.timestamp_millis_opt(unix_ms).unwrap().format("%H:%M:%S").to_string()
}

/// `hh:mm:ss` of a Unix-millisecond timestamp in UTC, as rendered by chrono.
pub fn fmt_hms(ms: i64) -> (res: String)
    requires
        chrono_ms_in_range(ms as int),
    ensures
        res@ == hms_str(ms as int),
{
    chrono_utc_hms(ms)
}

/// A number written with two digits is two characters long.
proof fn lemma_pad2_len(n: nat)
    requires
        n < 100,
    ensures
        pad2(n).len() == 2,
{
    reveal_with_fuel(dec, 2);
}

/// The offline timestamp (`hh:mm:ss dd.mm.yyyy`) starts with the same time of day that the
/// chart axes print for that instant.
pub proof fn lemma_civil_time_starts_with_hms(unix_ms: int)
    ensures
        civil_time_str(unix_ms).take(8) == hms_str(unix_ms),
{
    let sod: int = (unix_ms / 1000) % 86400;
    lemma_pad2_len((sod / 3600) as nat);
    lemma_pad2_len((sod % 3600 / 60) as nat);
    lemma_pad2_len((sod % 60) as nat);
    assert(hms_str(unix_ms).len() == 8);
    assert(civil_time_str(unix_ms).take(8) =~= hms_str(unix_ms));
}

/// Whole seconds between two millisecond timestamps, as the summary bar counts them
/// (truncated, never negative).
pub open spec fn span_secs(min_ms: int, max_ms: int) -> int {
    if max_ms - min_ms >= 0 { (max_ms - min_ms) / 1000 } else { 0 }
}

/// Summary-bar rendering of a capture duration: `Hh MMm`, `Mm SSs` or `Ss`.
pub open spec fn duration_str(secs: nat) -> Seq<char> {
    if secs >= 3600 {
        dec(secs / 3600) + seq!['h', ' '] + pad2(secs % 3600 / 60) + seq!['m']
    } else if secs >= 60 {
        dec(secs / 60) + seq!['m', ' '] + pad2(secs % 60) + seq!['s']
    } else {
        dec(secs) + seq!['s']
    }
}

/// Human-readable duration between the first and the last packet.
pub fn fmt_duration(min_ms: i64, max_ms: i64) -> (res: String)
    requires
        i64::MIN <= max_ms - min_ms <= i64::MAX,
    ensures
        res@ == duration_str(span_secs(min_ms as int, max_ms as int) as nat),
{
    let diff: i64 = max_ms - min_ms;
    let q: i64 = diff / 1000;
    let secs: u64 = if q > 0 { q as u64 } else { 0 };
    assert(secs == span_secs(min_ms as int, max_ms as int));
    let mut out: String = String::new();
    if secs >= 3600 {
        push_dec(&mut out, secs / 3600);
        push_char(&mut out, 'h');
        push_char(&mut out, ' ');
        push_pad2(&mut out, (secs % 3600) / 60);
        push_char(&mut out, 'm');
    } else if secs >= 60 {
        push_dec(&mut out, secs / 60);
        push_char(&mut out, 'm');
        push_char(&mut out, ' ');
        push_pad2(&mut out, secs % 60);
        push_char(&mut out, 's');
    } else {
        push_dec(&mut out, secs);
        push_char(&mut out, 's');
    }
    assert(out@ =~= duration_str(secs as nat));
    out
}

/// `MM:SS` rendering of an elapsed time (minutes keep counting past 99).
pub open spec fn elapsed_str(ms: nat) -> Seq<char> {
    pad2(ms / 1000 / 60) + seq![':'] + pad2(ms / 1000 % 60)
}

/// Elapsed time of an injection run as `MM:SS`.
pub fn format_elapsed(ms: u64) -> (res: String)
    ensures
        res@ == elapsed_str(ms as nat),
{
    let total_s: u64 = ms / 1000;
    let mut out: String = String::new();
    push_pad2(&mut out, total_s / 60);
    push_char(&mut out, ':');
    push_pad2(&mut out, total_s % 60);
    assert(out@ =~= elapsed_str(ms as nat));
    out
}

} // verus!
