//! Proleptic Gregorian calendar arithmetic (days since 1970-01-01) and date text.

use vstd::prelude::*;
use crate::fmt::{int_text_padded, push_int_padded};
use crate::text::push_char;

verus! {

// ------------------------------------------------------------------ calendar model

pub open spec fn is_leap_year(y: int) -> bool {
    (y % 4 == 0 && y % 100 != 0) || y % 400 == 0
}

pub open spec fn days_in_month(y: int, m: int) -> int {
    if m == 2 {
        if is_leap_year(y) { 29 } else { 28 }
    } else if m == 4 || m == 6 || m == 9 || m == 11 {
        30
    } else {
        31
    }
}

/// A real calendar date: month 1..=12, day within that month.
pub open spec fn is_valid_date(y: int, m: int, d: int) -> bool {
    1 <= m <= 12 && 1 <= d <= days_in_month(y, m)
}

/// Leap years among 1..=n (a signed count when n < 1).
pub open spec fn leap_years_through(n: int) -> int {
    n / 4 - n / 100 + n / 400
}

/// Days of the months before `m` in year `y`.
pub open spec fn days_before_month(y: int, m: int) -> int {
    let base: int = if m <= 1 { 0 }
        else if m == 2 { 31 }
        else if m == 3 { 59 }
        else if m == 4 { 90 }
        else if m == 5 { 120 }
        else if m == 6 { 151 }
        else if m == 7 { 181 }
        else if m == 8 { 212 }
        else if m == 9 { 243 }
        else if m == 10 { 273 }
        else if m == 11 { 304 }
        else { 334 };
    base + if m > 2 && is_leap_year(y) { 1int } else { 0int }
}

/// Number of the day (y, m, d), counting 1970-01-01 as 0.
pub open spec fn epoch_day(y: int, m: int, d: int) -> int {
    365 * (y - 1970) + leap_years_through(y - 1) - leap_years_through(1969)
        + days_before_month(y, m) + d - 1
}

// ------------------------------------------------------------------ the era form

/// The era/day-of-era formula that `days_from_civil` evaluates, for any month number.
pub open spec fn era_days(y: int, m: int, d: int) -> int {
    let y2 = if m <= 2 { y - 1 } else { y };
    let era = y2 / 400;
    let yoe = y2 - era * 400;
    let mp = (m + 9) % 12;
    let doy = (153 * mp + 2) / 5 + d - 1;
    let doe = yoe * 365 + yoe / 4 - yoe / 100 + doy;
    era * 146097 + doe - 719468
}

/// For a real month the era formula counts exactly the calendar days.
#[verifier::spinoff_prover]
#[verifier::rlimit(40)]
pub proof fn lemma_era_days_is_epoch_day(y: int, m: int, d: int)
    requires
        1 <= m <= 12,
    ensures
        era_days(y, m, d) == epoch_day(y, m, d),
{
    let y2 = if m <= 2 { y - 1 } else { y };
    let era = y2 / 400;
    let yoe = y2 - era * 400;
    let c = yoe / 100;
    let q = (yoe % 100) / 4;
    let r = yoe % 4;
    assert(yoe == 100 * c + 4 * q + r);
    assert(yoe / 4 == 25 * c + q);
    assert(yoe / 100 == c);
    assert(0 <= c <= 3 && 0 <= q <= 24 && 0 <= r <= 3);
    let mp = (m + 9) % 12;
    if m <= 2 {
        assert(y - 1 == 400 * era + 100 * c + 4 * q + r);
        assert(leap_years_through(y - 1) == 97 * era + 24 * c + q);
    } else {
        assert(mp == m - 3);
        assert(y == 400 * era + 100 * c + 4 * q + r);
        if r >= 1 {
            assert((y - 1) / 4 == 100 * era + 25 * c + q);
            assert((y - 1) / 100 == 4 * era + c);
            assert((y - 1) / 400 == era);
            assert(!is_leap_year(y));
        } else if q >= 1 {
            assert((y - 1) / 4 == 100 * era + 25 * c + q - 1);
            assert((y - 1) / 100 == 4 * era + c);
            assert((y - 1) / 400 == era);
            assert(is_leap_year(y));
        } else if c >= 1 {
            assert((y - 1) / 4 == 100 * era + 25 * c - 1);
            assert((y - 1) / 100 == 4 * era + c - 1);
            assert((y - 1) / 400 == era);
            assert(!is_leap_year(y));
        } else {
            assert((y - 1) / 4 == 100 * era - 1);
            assert((y - 1) / 100 == 4 * era - 1);
            assert((y - 1) / 400 == era - 1);
            assert(is_leap_year(y));
        }
    }
}


/// The inverse of the era formula: day number → (year, month, day).
pub open spec fn civil_of_day(z: int) -> (int, int, int) {
    let z2 = z + 719468;
    let era = z2 / 146097;
    let doe = z2 - era * 146097;
    let yoe = (doe - doe / 1460 + doe / 36524 - doe / 146096) / 365;
    let y = yoe + era * 400;
    let doy = doe - (365 * yoe + yoe / 4 - yoe / 100);
    let mp = (5 * doy + 2) / 153;
    let d = doy - (153 * mp + 2) / 5 + 1;
    let m = if mp < 10 { mp + 3 } else { mp - 9 };
    (if m <= 2 { y + 1 } else { y }, m, d)
}

/// Days of the year of the era whose index is `yoe`; the year runs from March on,
/// so its leap day belongs to calendar year `yoe + 1`.
pub open spec fn doe_of(yoe: int, doy: int) -> int {
    365 * yoe + yoe / 4 - yoe / 100 + doy
}

/// Length of the month with March-based index `mp`; February is taken as 29.
pub open spec fn mp_len(mp: int) -> int {
    if mp == 11 { 29 }
    else if mp == 1 || mp == 3 || mp == 6 || mp == 8 { 30 }
    else { 31 }
}

proof fn lemma_leap_period(k: int, e: int)
    ensures
        is_leap_year(k + 400 * e) == is_leap_year(k),
{
    vstd::arithmetic::div_mod::lemma_mod_multiples_vanish(100 * e, k, 4);
    vstd::arithmetic::div_mod::lemma_mod_multiples_vanish(4 * e, k, 100);
    vstd::arithmetic::div_mod::lemma_mod_multiples_vanish(e, k, 400);
    assert(4 * (100 * e) + k == k + 400 * e);
    assert(100 * (4 * e) + k == k + 400 * e);
    assert(400 * e + k == k + 400 * e);
}

/// Splitting a day of the era into the year of the era and the day of that year.
proof fn lemma_doe_split(doe: int)
    requires
        0 <= doe <= 146096,
    ensures
        ({
            let yoe = (doe - doe / 1460 + doe / 36524 - doe / 146096) / 365;
            let doy = doe - (365 * yoe + yoe / 4 - yoe / 100);
            &&& 0 <= yoe <= 399
            &&& 0 <= doy <= 365
            &&& doy == 365 ==> is_leap_year(yoe + 1)
        }),
{
    if doe == 146096 {
        assert(doe / 1460 == 100);
        assert(doe / 36524 == 4);
        assert(doe / 146096 == 1);
        assert((doe - doe / 1460 + doe / 36524 - doe / 146096) / 365 == 399);
    } else {
        let c = doe / 36524;
        let rr = doe % 36524;
        let q = rr / 1461;
        let s = rr % 1461;
        assert(doe == 36524 * c + rr);
        assert(rr == 1461 * q + s);
        assert(0 <= c <= 3);
        assert(0 <= q <= 24);
        let delta: int = if 24 * c + q + s >= 1460 { 1 } else { 0 };
        assert(doe == 1460 * (25 * c + q) + (24 * c + q + s));
        assert(doe / 1460 == 25 * c + q + delta);
        assert(doe / 146096 == 0);
        let n = doe - doe / 1460 + doe / 36524 - doe / 146096;
        assert(n == 365 * (100 * c + 4 * q) + s - delta);
        let r = (s - delta) / 365;
        assert(0 <= s - delta <= 1459);
        assert(0 <= r <= 3);
        assert(n / 365 == 100 * c + 4 * q + r);
        let yoe = 100 * c + 4 * q + r;
        assert(yoe / 4 == 25 * c + q);
        assert(yoe / 100 == c);
        let doy = doe - (365 * yoe + yoe / 4 - yoe / 100);
        assert(doy == s - 365 * r);
        if doy == 365 {
            assert(s == 1460);
            assert(r == 3);
            assert(q < 24);
            assert((yoe + 1) % 4 == 0);
            assert((yoe + 1) % 100 != 0);
        }
    }
}

/// A year of the era and a day inside it give back that year.
proof fn lemma_yoe_recover(yoe: int, doy: int)
    requires
        0 <= yoe <= 399,
        0 <= doy <= 364 || (doy == 365 && is_leap_year(yoe + 1)),
    ensures
        0 <= doe_of(yoe, doy) <= 146096,
        ({
            let doe = doe_of(yoe, doy);
            (doe - doe / 1460 + doe / 36524 - doe / 146096) / 365 == yoe
        }),
{
    let c = yoe / 100;
    let q = (yoe % 100) / 4;
    let r = yoe % 4;
    assert(yoe == 100 * c + 4 * q + r);
    assert(yoe / 4 == 25 * c + q);
    assert(yoe / 100 == c);
    let doe = doe_of(yoe, doy);
    assert(doe == 36524 * c + 1461 * q + 365 * r + doy);
    if doy == 365 {
        assert(r == 3);
        if q == 24 {
            assert(c == 3);
        }
    }
    if doe == 146096 {
        assert(doe / 1460 == 100);
        assert(doe / 36524 == 4);
        assert(doe / 146096 == 1);
    } else {
        let s = 365 * r + doy;
        assert(0 <= s <= 1460);
        let delta: int = if 24 * c + q + s >= 1460 { 1 } else { 0 };
        assert(doe == 1460 * (25 * c + q) + (24 * c + q + s));
        assert(doe / 1460 == 25 * c + q + delta);
        assert(doe == 36524 * c + (1461 * q + s));
        assert(doe / 36524 == c);
        assert(doe / 146096 == 0);
        let n = doe - doe / 1460 + doe / 36524 - doe / 146096;
        assert(n == 365 * (100 * c + 4 * q) + s - delta);
        assert((s - delta) / 365 == r);
    }
}

/// Splitting a day of the (March-based) year into month index and day.
proof fn lemma_doy_split(doy: int)
    requires
        0 <= doy <= 365,
    ensures
        ({
            let mp = (5 * doy + 2) / 153;
            let d = doy - (153 * mp + 2) / 5 + 1;
            &&& 0 <= mp <= 11
            &&& 1 <= d <= mp_len(mp)
            &&& (mp == 11 && d == 29) <==> doy == 365
        }),
{
    let mp = (5 * doy + 2) / 153;
    assert(0 <= mp <= 11);
    if mp == 0 { assert(doy <= 30); }
    else if mp == 1 { assert(31 <= doy <= 60); }
    else if mp == 2 { assert(61 <= doy <= 91); }
    else if mp == 3 { assert(92 <= doy <= 121); }
    else if mp == 4 { assert(122 <= doy <= 152); }
    else if mp == 5 { assert(153 <= doy <= 183); }
    else if mp == 6 { assert(184 <= doy <= 213); }
    else if mp == 7 { assert(214 <= doy <= 244); }
    else if mp == 8 { assert(245 <= doy <= 274); }
    else if mp == 9 { assert(275 <= doy <= 305); }
    else if mp == 10 { assert(306 <= doy <= 336); }
    else { assert(337 <= doy <= 365); }
}

/// A month index and a day inside that month give back the month index.
proof fn lemma_mp_recover(mp: int, d: int)
    requires
        0 <= mp <= 11,
        1 <= d <= mp_len(mp),
    ensures
        ({
            let doy = (153 * mp + 2) / 5 + d - 1;
            &&& 0 <= doy <= 365
            &&& (5 * doy + 2) / 153 == mp
            &&& doy == 365 <==> (mp == 11 && d == 29)
        }),
{
    if mp == 0 { assert((153 * mp + 2) / 5 == 0); }
    else if mp == 1 { assert((153 * mp + 2) / 5 == 31); }
    else if mp == 2 { assert((153 * mp + 2) / 5 == 61); }
    else if mp == 3 { assert((153 * mp + 2) / 5 == 92); }
    else if mp == 4 { assert((153 * mp + 2) / 5 == 122); }
    else if mp == 5 { assert((153 * mp + 2) / 5 == 153); }
    else if mp == 6 { assert((153 * mp + 2) / 5 == 184); }
    else if mp == 7 { assert((153 * mp + 2) / 5 == 214); }
    else if mp == 8 { assert((153 * mp + 2) / 5 == 245); }
    else if mp == 9 { assert((153 * mp + 2) / 5 == 275); }
    else if mp == 10 { assert((153 * mp + 2) / 5 == 306); }
    else { assert((153 * mp + 2) / 5 == 337); }
}

/// Every day number names a real date, and that date counts back to the same number.
pub proof fn lemma_civil_of_day(z: int)
    ensures
        ({
            let (y, m, d) = civil_of_day(z);
            is_valid_date(y, m, d) && epoch_day(y, m, d) == z
        }),
{
    let z2 = z + 719468;
    let era = z2 / 146097;
    let doe = z2 - era * 146097;
    lemma_doe_split(doe);
    let yoe = (doe - doe / 1460 + doe / 36524 - doe / 146096) / 365;
    let doy = doe - (365 * yoe + yoe / 4 - yoe / 100);
    lemma_doy_split(doy);
    let mp = (5 * doy + 2) / 153;
    let d = doy - (153 * mp + 2) / 5 + 1;
    let m = if mp < 10 { mp + 3 } else { mp - 9 };
    let y = if m <= 2 { yoe + era * 400 + 1 } else { yoe + era * 400 };
    assert(civil_of_day(z) == (y, m, d));
    if m == 2 && d == 29 {
        lemma_leap_period(yoe + 1, era);
        assert(yoe + 1 + 400 * era == y);
    }
    assert(is_valid_date(y, m, d));
    lemma_era_days_is_epoch_day(y, m, d);
    let y2 = if m <= 2 { y - 1 } else { y };
    assert(y2 == 400 * era + yoe);
    vstd::arithmetic::div_mod::lemma_div_multiples_vanish_fancy(era, yoe, 400);
    assert(y2 / 400 == era);
    assert((m + 9) % 12 == mp);
}

/// A real date, counted to its day number and converted back, is the same date.
pub proof fn lemma_civil_round_trip(y: int, m: int, d: int)
    requires
        is_valid_date(y, m, d),
    ensures
        civil_of_day(epoch_day(y, m, d)) == (y, m, d),
{
    lemma_era_days_is_epoch_day(y, m, d);
    let y2 = if m <= 2 { y - 1 } else { y };
    let era = y2 / 400;
    let yoe = y2 - era * 400;
    let mp = (m + 9) % 12;
    assert(0 <= mp <= 11);
    assert(mp == if m >= 3 { m - 3 } else { m + 9 });
    assert(d <= mp_len(mp));
    lemma_mp_recover(mp, d);
    let doy = (153 * mp + 2) / 5 + d - 1;
    if doy == 365 {
        lemma_leap_period(yoe + 1, era);
        assert(y == yoe + 1 + 400 * era);
    }
    lemma_yoe_recover(yoe, doy);
    let doe = doe_of(yoe, doy);
    let z2 = epoch_day(y, m, d) + 719468;
    assert(z2 == era * 146097 + doe);
    vstd::arithmetic::div_mod::lemma_div_multiples_vanish_fancy(era, doe, 146097);
    assert(z2 / 146097 == era);
}

// ------------------------------------------------------------------ executable

/// Gregorian (y, m, d) → days since 1970-01-01 (Howard Hinnant's algorithm),
/// evaluated without intermediate overflow; the day number must fit an `i64`.
#[verifier::spinoff_prover]
#[verifier::rlimit(40)]
pub fn days_from_civil(y: i64, m: u32, d: u32) -> (r: i64)
    requires
        i64::MIN <= era_days(y as int, m as int, d as int) <= i64::MAX,
    ensures
        r == era_days(y as int, m as int, d as int),
        1 <= m <= 12 ==> r == epoch_day(y as int, m as int, d as int),
{
    proof {
        if 1 <= m <= 12 {
            lemma_era_days_is_epoch_day(y as int, m as int, d as int);
        }
    }
    let y_in = y;
    let y: i128 = if m <= 2 { y as i128 - 1 } else { y as i128 };
    let ghost y2: int = y as int;
    let era: i128 = (if y >= 0 { y } else { y - 399 }) / 400;
    assert(era == y2 / 400);
    assert(-23_058_430_092_136_940 <= era <= 23_058_430_092_136_940);
    let yoe: i128 = y - era * 400;
    assert(0 <= yoe < 400);
    let mp: i128 = ((m as u64 + 9) % 12) as i128;
    assert(0 <= mp < 12);
    let doy: i128 = (153 * mp + 2) / 5 + d as i128 - 1;
    let doe: i128 = yoe * 365 + yoe / 4 - yoe / 100 + doy;
    let r: i128 = era * 146097 + doe - 719468;
    assert(r == era_days(y_in as int, m as int, d as int));
    r as i64
}

} // verus!

verus! {

/// Days since 1970-01-01 → Gregorian (y, m, d).
#[verifier::spinoff_prover]
#[verifier::rlimit(40)]
pub fn civil_from_days(z: i64) -> (r: (i64, u32, u32))
    requires
        z <= i64::MAX - 719468,
    ensures
        (r.0 as int, r.1 as int, r.2 as int) == civil_of_day(z as int),
        is_valid_date(r.0 as int, r.1 as int, r.2 as int),
        epoch_day(r.0 as int, r.1 as int, r.2 as int) == z as int,
{
    proof {
        lemma_civil_of_day(z as int);
    }
    let z1 = z + 719468;
    let era = (if z1 >= 0 { z1 } else { z1 - 146096 }) / 146097;
    assert(era == (z1 as int) / 146097);
    let doe = z1 - era * 146097;
    assert(0 <= doe < 146097);
    proof {
        lemma_doe_split(doe as int);
    }
    let yoe = (doe - doe / 1460 + doe / 36524 - doe / 146096) / 365;
    assert(0 <= yoe <= 399);
    let y = yoe + era * 400;
    let doy = doe - (365 * yoe + yoe / 4 - yoe / 100);
    assert(0 <= doy <= 365);
    proof {
        lemma_doy_split(doy as int);
    }
    let mp = (5 * doy + 2) / 153;
    assert(0 <= mp <= 11);
    let d = (doy - (153 * mp + 2) / 5 + 1) as u32;
    let m = (if mp < 10 { mp + 3 } else { mp - 9 }) as u32;
    (if m <= 2 { y + 1 } else { y }, m, d)
}

/// `UNIX_EPOCH.elapsed()` of std: the whole seconds from 1970-01-01 UTC to the
/// system clock's present reading, `None` when the clock reads earlier.
/// Nothing is stated of the value: it is whatever the clock reads.
#[verifier::external_body]
fn seconds_since_epoch() -> Option<u64> {
    match std::time::UNIX_EPOCH.elapsed() {
        Ok(d) => Some(d.as_secs()),
        Err(_) => None,
    }
}

/// Unix seconds of a clock reading (whole seconds since 1970, `None` before
/// 1970): 0 before 1970; a reading past `i64::MAX` wraps, as an `as` cast does.
pub open spec fn epoch_seconds_of(reading: Option<u64>) -> i64 {
    match reading {
        Some(s) => s as i64,
        None => 0,
    }
}

pub fn epoch_seconds(reading: Option<u64>) -> (r: i64)
    ensures
        r == epoch_seconds_of(reading),
{
    match reading {
        Some(s) => s as i64,
        None => 0,
    }
}

/// Unix seconds (UTC) from the system clock, as `epoch_seconds` makes them of the
/// clock's reading. Nothing is stated of the result: it is whatever the clock reads.
pub fn unix_now() -> i64 {
    epoch_seconds(seconds_since_epoch())
}

/// `YYYY-MM-DD` as `{y:04}-{m:02}-{d:02}` prints it.
pub open spec fn date_text(y: int, m: int, d: int) -> Seq<char> {
    int_text_padded(y, 4) + seq!['-'] + int_text_padded(m, 2) + seq!['-'] + int_text_padded(d, 2)
}

/// The date text of day number `z`.
pub open spec fn day_text(z: int) -> Seq<char> {
    let (y, m, d) = civil_of_day(z);
    date_text(y, m, d)
}

/// The local day number of Unix time `t` at `offset_min` minutes east of UTC.
pub open spec fn local_day(t: int, offset_min: int) -> int {
    (t + offset_min * 60) / 86400
}

/// Appends the `YYYY-MM-DD` text of day number `z`.
pub fn push_day_text(s: &mut String, z: i64)
    requires
        z <= i64::MAX - 719468,
    ensures
        final(s)@ == old(s)@ + day_text(z as int),
{
    let (y, m, d) = civil_from_days(z);
    push_int_padded(s, y, 4);
    push_char(s, '-');
    push_int_padded(s, m as i64, 2);
    push_char(s, '-');
    push_int_padded(s, d as i64, 2);
    assert(final(s)@ =~= old(s)@ + day_text(z as int)) by {
        assert(final(s)@ =~= old(s)@ + int_text_padded(y as int, 4) + seq!['-'] + int_text_padded(m as int, 2) + seq!['-'] + int_text_padded(d as int, 2));
    }
}

/// The local date `YYYY-MM-DD` of Unix time `now` at `offset_min` minutes east of UTC.
pub fn local_date_at(now: i64, offset_min: i32) -> (s: String)
    ensures
        s@ == day_text(local_day(now as int, offset_min as int)),
{
    let t: i128 = now as i128 + offset_min as i128 * 60;
    let q = t / 86400;
    let days: i128 = if t % 86400 < 0 { q - 1 } else { q };
    assert(days == local_day(now as int, offset_min as int));
    assert(-200_000_000_000_000 <= days <= 200_000_000_000_000) by (nonlinear_arith)
        requires
            days == t / 86400,
            -10_000_000_000_000_000_000 <= t <= 10_000_000_000_000_000_000,
    ;
    let mut s = String::new();
    push_day_text(&mut s, days as i64);
    s
}

/// Today's local date `YYYY-MM-DD` (offset_min: host time zone, minutes east of UTC):
/// the local date of the clock's present reading.
pub fn today_local(offset_min: i32) -> (s: String)
    ensures
        exists|t: i64| s@ == day_text(local_day(t as int, offset_min as int)),
{
    let now = unix_now();
    local_date_at(now, offset_min)
}

} // verus!
