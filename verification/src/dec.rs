//! Decoding of the data types that MS Project stores in its blocks:
//! day counts since 1983-12-31, times of day in units of six seconds,
//! duration units and percentages.

use vstd::prelude::*;

use crate::text::{decimal, padded_decimal, push_chars, push_padded, string_from_chars};
use crate::util::{get_u16, spec_get_u16};

verus! {

/// Days between 1970-01-01 and the MS Project epoch 1983-12-31.
pub const MS_EPOCH_DAYS: i64 = 5112;

/// Quotient of integer division rounding toward zero (`b > 0`).
pub open spec fn tdiv(a: int, b: int) -> int {
    if a >= 0 {
        a / b
    } else {
        -((-a) / b)
    }
}

/// Days from 1970-01-01 to the proleptic Gregorian date `y-m-d`, computed by
/// the era/year-of-era/day-of-year decomposition with years starting on
/// March 1st (month and day-of-year arithmetic rounds toward zero, as the
/// machine integers do; for months 1 to 12 it is ordinary arithmetic).
pub open spec fn spec_days_from_civil(y: int, m: int, d: int) -> int {
    let y = if m <= 2 {
        y - 1
    } else {
        y
    };
    let era = y / 400;
    let yoe = y - era * 400;
    let mp = trem(m + 9, 12);
    let doy = tdiv(153 * mp + 2, 5) + d - 1;
    let doe = yoe * 365 + yoe / 4 - yoe / 100 + doy;
    era * 146097 + doe - 719468
}

/// Remainder of integer division rounding toward zero (`b > 0`).
pub open spec fn trem(a: int, b: int) -> int {
    a - tdiv(a, b) * b
}

/// The date `(year, month, day)` that lies `z` days after 1970-01-01.
pub open spec fn spec_civil_from_days(z: int) -> (int, int, int) {
    let z = z + 719468;
    let era = z / 146097;
    let doe = z - era * 146097;
    let yoe = (doe - doe / 1460 + doe / 36524 - doe / 146096) / 365;
    let y = yoe + era * 400;
    let doy = doe - (365 * yoe + yoe / 4 - yoe / 100);
    let mp = (5 * doy + 2) / 153;
    let d = doy - (153 * mp + 2) / 5 + 1;
    let m = if mp < 10 {
        mp + 3
    } else {
        mp - 9
    };
    (
        if m <= 2 {
            y + 1
        } else {
            y
        },
        m,
        d,
    )
}

proof fn lemma_floor_div_negative(a: int, b: int)
    requires
        a < 0,
        b > 0,
    ensures
        tdiv(a - (b - 1), b) == a / b,
{
    let q = a / b;
    let r = a % b;
    assert(a == q * b + r && 0 <= r < b) by {
        vstd::arithmetic::div_mod::lemma_fundamental_div_mod(a, b);
    }
    let n = -(a - (b - 1));
    assert(n == (-q) * b + (b - 1 - r)) by (nonlinear_arith)
        requires
            n == -(a - (b - 1)),
            a == q * b + r,
    ;
    assert(n / b == -q) by {
        vstd::arithmetic::div_mod::lemma_fundamental_div_mod_converse(n, b, -q, b - 1 - r);
    }
}

/// Days from 1970-01-01 to `y-m-d`.
pub fn days_from_civil(y: i64, m: i64, d: i64) -> (r: i64)
    requires
        -20_000_000_000_000_000 <= y <= 20_000_000_000_000_000,
        m <= i64::MAX - 9,
        -20_000_000_000_000_000 <= d <= 20_000_000_000_000_000,
    ensures
        r == spec_days_from_civil(y as int, m as int, d as int),
{
    let y = if m <= 2 {
        y - 1
    } else {
        y
    };
    let era = if y >= 0 {
        y
    } else {
        y - 399
    } / 400;
    proof {
        if y < 0 {
            lemma_floor_div_negative(y as int, 400);
        }
        assert(era == y / 400);
        vstd::arithmetic::div_mod::lemma_fundamental_div_mod(y as int, 400);
    }
    let yoe = y - era * 400;
    let mp = (m + 9) % 12;
    let doy = (153 * mp + 2) / 5 + d - 1;
    let doe = yoe * 365 + yoe / 4 - yoe / 100 + doy;
    era * 146097 + doe - 719468
}

/// The date that lies `z` days after 1970-01-01.
pub fn civil_from_days(z: i64) -> (r: (i64, u32, u32))
    requires
        z <= i64::MAX - 719468,
    ensures
        r.0 as int == spec_civil_from_days(z as int).0,
        r.1 as int == spec_civil_from_days(z as int).1,
        r.2 as int == spec_civil_from_days(z as int).2,
        1 <= r.1 <= 12,
        1 <= r.2 <= 31,
        r.0 > i64::MIN,
{
    let z = z + 719468;
    let era = if z >= 0 {
        z
    } else {
        z - 146096
    } / 146097;
    proof {
        if z < 0 {
            lemma_floor_div_negative(z as int, 146097);
        }
        assert(era == z / 146097);
        vstd::arithmetic::div_mod::lemma_fundamental_div_mod(z as int, 146097);
    }
    let doe = z - era * 146097;
    assert(0 <= doe < 146097);
    let yoe = (doe - doe / 1460 + doe / 36524 - doe / 146096) / 365;
    assert(0 <= yoe <= 399);
    let y = yoe + era * 400;
    let doy = doe - (365 * yoe + yoe / 4 - yoe / 100);
    assert(0 <= doy <= 365) by {
        lemma_doy_range(doe as int);
    }
    let mp = (5 * doy + 2) / 153;
    let d = doy - (153 * mp + 2) / 5 + 1;
    assert(1 <= d <= 31) by {
        lemma_day_range(doy as int);
    }
    let m = if mp < 10 {
        mp + 3
    } else {
        mp - 9
    };
    (
        if m <= 2 {
            y + 1
        } else {
            y
        },
        m as u32,
        d as u32,
    )
}

/// `YYYY-MM-DD` of the date `days` days after 1983-12-31.
pub open spec fn spec_iso_date(days: int) -> Seq<char> {
    let (y, m, d) = spec_civil_from_days(MS_EPOCH_DAYS + days);
    padded_decimal(y, 4) + seq!['-'] + padded_decimal(m, 2) + seq!['-'] + padded_decimal(d, 2)
}

/// `YYYY-MM-DD` of the date `days_since_ms_epoch` days after 1983-12-31.
pub fn iso_date(days_since_ms_epoch: i64) -> (r: String)
    requires
        MS_EPOCH_DAYS + days_since_ms_epoch <= i64::MAX - 719468,
    ensures
        r@ == spec_iso_date(days_since_ms_epoch as int),
{
    let (y, m, d) = civil_from_days(MS_EPOCH_DAYS + days_since_ms_epoch);
    let mut out: Vec<char> = Vec::new();
    push_padded(&mut out, y, 4);
    out.push('-');
    push_padded(&mut out, m as i64, 2);
    out.push('-');
    push_padded(&mut out, d as i64, 2);
    assert(out@ =~= spec_iso_date(days_since_ms_epoch as int));
    string_from_chars(out.as_slice())
}

/// Timestamp stored as `time: u16` (units of six seconds since midnight)
/// followed by `date: u16` (days since 1983-12-31), rendered as
/// `YYYY-MM-DDTHH:MM:SS`. The time is added to the date: whole days of it
/// move the date forward, so the clock always reads 00:00:00 to 23:59:59.
/// Day counts 0, 1 and 65535 mean "not available"; so does a day count
/// below 100 with a time that is not a whole minute. A time of 65535
/// stands for midnight.
pub open spec fn spec_timestamp(s: Seq<u8>, off: int) -> Option<Seq<char>> {
    match spec_timestamp_parts(s, off) {
        Some((days, seconds)) => Some(spec_iso_date(days) + spec_clock(seconds)),
        None => None,
    }
}

/// The date of a timestamp (`YYYY-MM-DD`), with the whole days of its time
/// added; `None` exactly when the timestamp is not available.
pub open spec fn spec_timestamp_date(s: Seq<u8>, off: int) -> Option<Seq<char>> {
    match spec_timestamp_parts(s, off) {
        Some((days, _)) => Some(spec_iso_date(days)),
        None => None,
    }
}

/// Day count (whole days of the time included) and second of the day of
/// the timestamp at `off`, under the rules of `spec_timestamp`.
pub open spec fn spec_timestamp_parts(s: Seq<u8>, off: int) -> Option<(int, int)> {
    match spec_get_u16(s, off + 2) {
        None => None,
        Some(days) => {
            if days <= 1 || days == 65535 {
                None
            } else {
                match spec_get_u16(s, off) {
                    None => None,
                    Some(raw) => {
                        let time: int = if raw == 65535 {
                            0
                        } else {
                            raw as int
                        };
                        let seconds = time * 6;
                        if days < 100 && seconds % 60 != 0 {
                            None
                        } else {
                            Some((days as int + seconds / 86400, seconds % 86400))
                        }
                    },
                }
            }
        },
    }
}

/// `THH:MM:SS` of a time of day given in seconds.
pub open spec fn spec_clock(seconds: int) -> Seq<char> {
    seq!['T'] + padded_decimal(seconds / 3600, 2) + seq![':'] + padded_decimal(
        (seconds % 3600) / 60,
        2,
    ) + seq![':'] + padded_decimal(seconds % 60, 2)
}

fn clock_chars(seconds: i64) -> (r: Vec<char>)
    requires
        0 <= seconds <= 1_000_000,
    ensures
        r@ == spec_clock(seconds as int),
{
    let mut out: Vec<char> = Vec::new();
    out.push('T');
    push_padded(&mut out, seconds / 3600, 2);
    out.push(':');
    push_padded(&mut out, (seconds % 3600) / 60, 2);
    out.push(':');
    push_padded(&mut out, seconds % 60, 2);
    assert(out@ =~= spec_clock(seconds as int));
    out
}

fn timestamp_parts(data: &[u8], offset: usize) -> (r: Option<(i64, i64)>)
    ensures
        match r {
            Some((d, t)) => spec_timestamp_parts(data@, offset as int) == Some(
                (d as int, t as int),
            ) && 0 <= d <= 70000 && 0 <= t < 86400,
            None => spec_timestamp_parts(data@, offset as int) is None,
        },
{
    if offset > data.len() || data.len() - offset < 4 {
        return None;
    }
    let days = match get_u16(data, offset + 2) {
        Some(v) => v as i64,
        None => return None,
    };
    if days <= 1 || days == 65535 {
        return None;
    }
    let mut time = match get_u16(data, offset) {
        Some(v) => v as i64,
        None => return None,
    };
    if time == 65535 {
        time = 0;
    }
    let seconds = time * 6;
    if days < 100 && seconds % 60 != 0 {
        return None;
    }
    Some((days + seconds / 86400, seconds % 86400))
}

/// Decodes the timestamp at `offset`.
pub fn get_timestamp(data: &[u8], offset: usize) -> (r: Option<String>)
    ensures
        r matches Some(s) ==> spec_timestamp(data@, offset as int) == Some(s@),
        r is None ==> spec_timestamp(data@, offset as int) is None,
{
    match timestamp_parts(data, offset) {
        Some((days, seconds)) => {
            let mut text = iso_date(days);
            let clock = clock_chars(seconds);
            push_chars(&mut text, clock.as_slice());
            Some(text)
        },
        None => None,
    }
}

/// Decodes the date of the timestamp at `offset` (`YYYY-MM-DD`).
pub fn get_timestamp_date(data: &[u8], offset: usize) -> (r: Option<String>)
    ensures
        r matches Some(s) ==> spec_timestamp_date(data@, offset as int) == Some(s@),
        r is None ==> spec_timestamp_date(data@, offset as int) is None,
{
    match timestamp_parts(data, offset) {
        Some((days, _)) => Some(iso_date(days)),
        None => None,
    }
}

/// A timestamp is the date of `spec_timestamp_date` followed by its clock,
/// a time of day of at most 23:59:59; the one is available exactly when the
/// other is.
pub proof fn timestamp_is_date_and_clock(s: Seq<u8>, off: int)
    ensures
        spec_timestamp(s, off) is Some <==> spec_timestamp_date(s, off) is Some,
        spec_timestamp(s, off) is Some ==> exists|seconds: int|
            #![trigger spec_clock(seconds)]
            0 <= seconds < 86400 && spec_timestamp(s, off)->0 == spec_timestamp_date(s, off)->0
                + spec_clock(seconds),
{
    if spec_timestamp(s, off) is Some {
        let (days, seconds) = spec_timestamp_parts(s, off)->0;
        assert(spec_timestamp(s, off)->0 == spec_timestamp_date(s, off)->0 + spec_clock(seconds));
    }
}

/// Number of decimal digits of small numbers.
proof fn lemma_decimal_len(n: nat)
    ensures
        n < 10 ==> decimal(n).len() == 1,
        10 <= n < 100 ==> decimal(n).len() == 2,
        100 <= n < 1000 ==> decimal(n).len() == 3,
        1000 <= n < 10000 ==> decimal(n).len() == 4,
    decreases n,
{
    if n >= 10 {
        lemma_decimal_len(n / 10);
    }
}

/// The date of any day count that a stored date or timestamp can hold has
/// the ten characters of `YYYY-MM-DD`.
pub proof fn iso_date_has_ten_chars(days: int)
    requires
        0 <= days <= 70000,
    ensures
        spec_iso_date(days).len() == 10,
{
    let z = MS_EPOCH_DAYS + days + 719468;
    let era = z / 146097;
    vstd::arithmetic::div_mod::lemma_fundamental_div_mod(z, 146097);
    assert(4 <= era <= 5);
    let doe = z - era * 146097;
    lemma_doy_range(doe);
    let yoe = (doe - doe / 1460 + doe / 36524 - doe / 146096) / 365;
    let doy = doe - (365 * yoe + yoe / 4 - yoe / 100);
    lemma_day_range(doy);
    let (y, m, d) = spec_civil_from_days(MS_EPOCH_DAYS + days);
    assert(1600 <= y <= 2400);
    lemma_decimal_len(y as nat);
    lemma_decimal_len(m as nat);
    lemma_decimal_len(d as nat);
}

/// The date of a timestamp has the ten characters of `YYYY-MM-DD`.
pub proof fn timestamp_date_has_ten_chars(s: Seq<u8>, off: int)
    ensures
        spec_timestamp_date(s, off) matches Some(t) ==> t.len() == 10,
{
    if let Some((days, _)) = spec_timestamp_parts(s, off) {
        iso_date_has_ten_chars(days);
    }
}

/// `y` is a leap year of the proleptic Gregorian calendar.
pub open spec fn is_leap_year(y: int) -> bool {
    y % 4 == 0 && (y % 100 != 0 || y % 400 == 0)
}

/// Number of days of month `m` (1 to 12) of year `y`.
pub open spec fn days_in_month(y: int, m: int) -> int {
    if m == 2 {
        if is_leap_year(y) {
            29
        } else {
            28
        }
    } else if m == 4 || m == 6 || m == 9 || m == 11 {
        30
    } else {
        31
    }
}

/// Day of a March-based year to month index and day of month.
proof fn lemma_month_of_day(mp: int, d: int)
    requires
        0 <= mp <= 11,
        1 <= d,
        mp == 11 ==> d <= 29,
        mp != 11 ==> d <= (if mp == 1 || mp == 3 || mp == 6 || mp == 8 {
            30int
        } else {
            31int
        }),
    ensures
        ({
            let doy = (153 * mp + 2) / 5 + d - 1;
            &&& (5 * doy + 2) / 153 == mp
            &&& doy - (153 * mp + 2) / 5 + 1 == d
            &&& 0 <= doy <= 365
            &&& doy == 365 ==> mp == 11 && d == 29
        }),
{
    if mp == 0 {
    } else if mp == 1 {
    } else if mp == 2 {
    } else if mp == 3 {
    } else if mp == 4 {
    } else if mp == 5 {
    } else if mp == 6 {
    } else if mp == 7 {
    } else if mp == 8 {
    } else if mp == 9 {
    } else if mp == 10 {
    } else {
    }
}

/// `days_from_civil` inverts `civil_from_days` on valid dates: the date of
/// the day number of a valid date is that date. Together with
/// `civil_from_days_round_trip`, day numbers and valid dates correspond one
/// to one; 1970-01-01 is day 0.
pub proof fn days_from_civil_round_trip(y: int, m: int, d: int)
    requires
        1 <= m <= 12,
        1 <= d <= days_in_month(y, m),
    ensures
        spec_civil_from_days(spec_days_from_civil(y, m, d)) == (y, m, d),
        spec_days_from_civil(1970, 1, 1) == 0,
{
    let yy = if m <= 2 {
        y - 1
    } else {
        y
    };
    let era = yy / 400;
    vstd::arithmetic::div_mod::lemma_fundamental_div_mod(yy, 400);
    let yoe = yy - era * 400;
    assert(0 <= yoe < 400);
    let mp = (m + 9) % 12;
    if m <= 2 {
        lemma_div_is(m + 9, 12, 0, m + 9);
    } else {
        lemma_div_is(m + 9, 12, 1, m - 3);
    }
    let c = yoe / 100;
    let r1 = yoe % 100;
    vstd::arithmetic::div_mod::lemma_fundamental_div_mod(yoe, 100);
    let f = r1 / 4;
    let j = r1 % 4;
    vstd::arithmetic::div_mod::lemma_fundamental_div_mod(r1, 4);
    assert(yoe == 100 * c + 4 * f + j);
    assert(0 <= c <= 3 && 0 <= f <= 24 && 0 <= j <= 3);
    lemma_div_is(yoe, 4, 25 * c + f, j);
    lemma_div_is(yoe, 100, c, 4 * f + j);
    if mp == 11 && d == 29 {
        // February 29 exists only in leap years.
        assert(y == yy + 1);
        assert(y == 4 * (100 * era + 25 * c + f) + (j + 1));
        if j < 3 {
            lemma_div_is(y, 4, 100 * era + 25 * c + f, j + 1);
            assert(false);
        } else if f == 24 && c < 3 {
            assert(y == 100 * (4 * era + c + 1));
            lemma_div_is(y, 100, 4 * era + c + 1, 0);
            lemma_div_is(y, 400, era, 100 * (c + 1));
            lemma_div_is(y, 4, 25 * (4 * era + c + 1), 0);
            assert(false);
        }
    }
    lemma_month_of_day(mp, d);
    let cum = (153 * mp + 2) / 5;
    let doy = cum + d - 1;
    let doe = yoe * 365 + yoe / 4 - yoe / 100 + doy;
    assert(doe == 36524 * c + 1461 * f + 365 * j + doy);
    let z = spec_days_from_civil(y, m, d);
    assert(z == era * 146097 + doe - 719468);
    if doe == 146096 {
        lemma_div_is(z + 719468, 146097, era, doe);
        lemma_div_is(doe, 1460, 100, 96);
        lemma_div_is(doe, 36524, 4, 0);
        lemma_div_is(doe, 146096, 1, 0);
        lemma_div_is(145999, 365, 399, 364);
        assert(yoe == 399);
    } else {
        assert(doe < 146096);
        lemma_div_is(z + 719468, 146097, era, doe);
        let e = 1461 * f + 365 * j + doy;
        assert(e <= 36523);
        lemma_div_is(doe, 36524, c, e);
        lemma_div_is(doe, 146096, 0, doe);
        let t: int = if 24 * c + f + 365 * j + doy >= 1460 {
            1
        } else {
            0
        };
        lemma_div_is(doe, 1460, 25 * c + f + t, 24 * c + f + 365 * j + doy - 1460 * t);
        let x = doe - doe / 1460 + doe / 36524 - doe / 146096;
        assert(x == 365 * yoe + (doy - t));
        lemma_div_is(x, 365, yoe, doy - t);
    }
    assert(spec_days_from_civil(1970, 1, 1) == 0);
}

/// The date of a timestamp is a valid calendar date: the `YYYY-MM-DD`
/// rendering of a month from 1 to 12 and a day within that month.
pub proof fn timestamp_date_is_valid(s: Seq<u8>, off: int)
    ensures
        spec_timestamp_parts(s, off) matches Some((days, _)) ==> {
            let (y, m, d) = spec_civil_from_days(MS_EPOCH_DAYS + days);
            &&& 1 <= m <= 12 && 1 <= d <= days_in_month(y, m)
            &&& spec_timestamp_date(s, off) == Some(
                padded_decimal(y, 4) + seq!['-'] + padded_decimal(m, 2) + seq!['-'] + padded_decimal(
                    d,
                    2,
                ),
            )
        },
{
    if let Some((days, _)) = spec_timestamp_parts(s, off) {
        civil_from_days_is_valid(MS_EPOCH_DAYS + days);
    }
}

/// The day number of a date with a year of at most nine digits stays far
/// inside the range of `i64`, so `civil_from_days` accepts it and, with
/// `days_from_civil_round_trip`, gives the date back.
pub proof fn day_number_in_range(y: int, m: int, d: int)
    requires
        -1_000_000_000 <= y <= 1_000_000_000,
        1 <= m <= 12,
        1 <= d <= 31,
    ensures
        -1_000_000_000_000 <= spec_days_from_civil(y, m, d) <= 1_000_000_000_000,
{
    let yy = if m <= 2 {
        y - 1
    } else {
        y
    };
    let era = yy / 400;
    vstd::arithmetic::div_mod::lemma_fundamental_div_mod(yy, 400);
    assert(-2_600_000 <= era <= 2_600_000);
    let yoe = yy - era * 400;
    let mp = trem(m + 9, 12);
    assert(0 <= mp <= 11);
    let doy = tdiv(153 * mp + 2, 5) + d - 1;
    assert(0 <= doy <= 400);
    let doe = yoe * 365 + yoe / 4 - yoe / 100 + doy;
    assert(0 <= doe <= 400 * 366 + 400);
    assert(-2_600_000 * 146097 <= era * 146097 <= 2_600_000 * 146097) by (nonlinear_arith)
        requires
            -2_600_000 <= era <= 2_600_000,
    ;
}

/// Two-byte date: days since 1983-12-31; 65535 means "not available".
pub open spec fn spec_date(s: Seq<u8>, off: int) -> Option<Seq<char>> {
    match spec_get_u16(s, off) {
        None => None,
        Some(days) => if days == 65535 {
            None
        } else {
            Some(spec_iso_date(days as int))
        },
    }
}

/// Decodes the two-byte date at `offset`.
pub fn get_date(data: &[u8], offset: usize) -> (r: Option<String>)
    ensures
        r matches Some(s) ==> spec_date(data@, offset as int) == Some(s@),
        r is None ==> spec_date(data@, offset as int) is None,
{
    let days = match get_u16(data, offset) {
        Some(v) => v,
        None => return None,
    };
    if days == 65535 {
        return None;
    }
    Some(iso_date(days as i64))
}

/// Duration units, from the five low bits of the stored unit code.
#[derive(Debug, Clone, Copy, PartialEq, Eq, Structural)]
pub enum TimeUnit {
    Minutes,
    Hours,
    Days,
    ElapsedDays,
    Weeks,
    Months,
}

/// Unit of a stored unit code: the code modulo 32 selects minutes (3, 4),
/// hours (5, 6), elapsed days (8), weeks (9, 10), months (11, 12); every
/// other code, 7 included, means days.
pub open spec fn spec_duration_units(raw: u16) -> TimeUnit {
    let c = raw % 32;
    if c == 3 || c == 4 {
        TimeUnit::Minutes
    } else if c == 5 || c == 6 {
        TimeUnit::Hours
    } else if c == 8 {
        TimeUnit::ElapsedDays
    } else if c == 9 || c == 10 {
        TimeUnit::Weeks
    } else if c == 11 || c == 12 {
        TimeUnit::Months
    } else {
        TimeUnit::Days
    }
}

/// Decodes a unit code.
pub fn duration_units(raw: u16) -> (r: TimeUnit)
    ensures
        r == spec_duration_units(raw),
{
    let c = raw & 0x1F;
    assert(c == raw % 32) by (bit_vector)
        requires
            c == raw & 0x1F,
    ;
    match c {
        3 | 4 => TimeUnit::Minutes,
        5 | 6 => TimeUnit::Hours,
        8 => TimeUnit::ElapsedDays,
        9 | 10 => TimeUnit::Weeks,
        11 | 12 => TimeUnit::Months,
        _ => TimeUnit::Days,
    }
}

/// Percentage stored as a `u16` in `0..=100`; larger values mean "not
/// available".
pub open spec fn spec_percentage(s: Seq<u8>, off: int) -> Option<u32> {
    match spec_get_u16(s, off) {
        Some(v) => if v <= 100 {
            Some(v as u32)
        } else {
            None
        },
        None => None,
    }
}

/// Decodes the percentage at `offset`.
pub fn percentage(data: &[u8], offset: usize) -> (r: Option<u32>)
    ensures
        r == spec_percentage(data@, offset as int),
{
    match get_u16(data, offset) {
        Some(v) => if v <= 100 {
            Some(v as u32)
        } else {
            None
        },
        None => None,
    }
}

/// Day zero of the MS Project calendar is 1983-12-31: date values count the
/// days since that day.
pub proof fn ms_epoch_is_1983_12_31()
    ensures
        spec_days_from_civil(1983, 12, 31) == MS_EPOCH_DAYS,
        spec_civil_from_days(MS_EPOCH_DAYS as int) == (1983int, 12int, 31int),
{
    assert(spec_days_from_civil(1983, 12, 31) == MS_EPOCH_DAYS);
    assert(spec_civil_from_days(MS_EPOCH_DAYS as int) == (1983int, 12int, 31int));
}

/// `civil_from_days` inverts `days_from_civil`: the date it returns for a
/// day number has exactly that day number.
pub proof fn civil_from_days_round_trip(z: int)
    ensures
        ({
            let (y, m, d) = spec_civil_from_days(z);
            spec_days_from_civil(y, m, d) == z
        }),
{
    let zz = z + 719468;
    let era = zz / 146097;
    vstd::arithmetic::div_mod::lemma_fundamental_div_mod(zz, 146097);
    let doe = zz - era * 146097;
    lemma_doy_range(doe);
    let yoe = (doe - doe / 1460 + doe / 36524 - doe / 146096) / 365;
    let y = yoe + era * 400;
    let doy = doe - (365 * yoe + yoe / 4 - yoe / 100);
    lemma_day_range(doy);
    let mp = (5 * doy + 2) / 153;
    let d = doy - (153 * mp + 2) / 5 + 1;
    let m = if mp < 10 {
        mp + 3
    } else {
        mp - 9
    };
    lemma_div_is(y, 400, era, yoe);
    if mp < 10 {
        lemma_div_is(m + 9, 12, 1, mp);
    } else {
        lemma_div_is(m + 9, 12, 0, mp);
    }
}

proof fn lemma_div_is(n: int, d: int, q: int, r: int)
    requires
        d > 0,
        0 <= r < d,
        n == q * d + r,
    ensures
        n / d == q,
        n % d == r,
{
    vstd::arithmetic::div_mod::lemma_fundamental_div_mod_converse(n, d, q, r);
}

/// Within an era, the year-of-era and the day-of-year decomposition stay in
/// range: `yoe` in `0..=399` and `doy` in `0..=365`.
proof fn lemma_doy_range(doe: int)
    requires
        0 <= doe < 146097,
    ensures
        ({
            let yoe = (doe - doe / 1460 + doe / 36524 - doe / 146096) / 365;
            let doy = doe - (365 * yoe + yoe / 4 - yoe / 100);
            &&& 0 <= yoe <= 399 && 0 <= doy <= 365
            &&& doy == 365 ==> yoe % 4 == 3 && (yoe % 100 != 99 || yoe == 399)
        }),
{
    if doe == 146096 {
        lemma_div_is(doe, 1460, 100, 96);
        lemma_div_is(doe, 36524, 4, 0);
        lemma_div_is(doe, 146096, 1, 0);
        lemma_div_is(145999, 365, 399, 364);
        lemma_div_is(399, 4, 99, 3);
        lemma_div_is(399, 100, 3, 99);
    } else {
        let c = doe / 36524;
        let e = doe % 36524;
        vstd::arithmetic::div_mod::lemma_fundamental_div_mod(doe, 36524);
        assert(doe == c * 36524 + e);
        assert(0 <= c <= 3);
        let f = e / 1461;
        let g = e % 1461;
        vstd::arithmetic::div_mod::lemma_fundamental_div_mod(e, 1461);
        assert(e == f * 1461 + g);
        assert(0 <= f <= 24);
        assert(c == 3 || f < 24 || g <= 1459);
        lemma_div_is(doe, 146096, 0, doe);
        let t: int = if 24 * c + f + g >= 1460 {
            1
        } else {
            0
        };
        lemma_div_is(doe, 1460, 25 * c + f + t, 24 * c + f + g - 1460 * t);
        let x = doe - doe / 1460 + doe / 36524 - doe / 146096;
        assert(x == 365 * (100 * c + 4 * f) + (g - t));
        assert(0 <= g - t <= 1459);
        let j = (g - t) / 365;
        let k = (g - t) % 365;
        vstd::arithmetic::div_mod::lemma_fundamental_div_mod(g - t, 365);
        assert(g - t == j * 365 + k);
        assert(0 <= j <= 3);
        lemma_div_is(x, 365, 100 * c + 4 * f + j, k);
        let yoe = 100 * c + 4 * f + j;
        lemma_div_is(yoe, 4, 25 * c + f, j);
        lemma_div_is(yoe, 100, c, 4 * f + j);
        let doy = doe - (365 * yoe + yoe / 4 - yoe / 100);
        assert(doy == k + t);
        if doy == 365 {
            assert(j == 3);
            assert(f <= 23);
            lemma_div_is(yoe, 100, c, 4 * f + 3);
        }
    }
}

/// Month and day of a day of a March-based year: within the month's
/// length; the 29th of the last month (February) only as day 365.
proof fn lemma_day_in_month(doy: int)
    requires
        0 <= doy <= 365,
    ensures
        ({
            let mp = (5 * doy + 2) / 153;
            let d = doy - (153 * mp + 2) / 5 + 1;
            &&& 0 <= mp <= 11 && 1 <= d
            &&& mp == 11 ==> d <= 28 || (d == 29 && doy == 365)
            &&& mp != 11 ==> d <= (if mp == 1 || mp == 3 || mp == 6 || mp == 8 {
                30int
            } else {
                31int
            })
        }),
{
    lemma_day_range(doy);
    let mp = (5 * doy + 2) / 153;
    if mp == 0 {
    } else if mp == 1 {
    } else if mp == 2 {
    } else if mp == 3 {
    } else if mp == 4 {
    } else if mp == 5 {
    } else if mp == 6 {
    } else if mp == 7 {
    } else if mp == 8 {
    } else if mp == 9 {
    } else if mp == 10 {
    } else {
    }
}

/// Every day number gives a valid date: a month from 1 to 12 and a day
/// within the length of that month in that year.
pub proof fn civil_from_days_is_valid(z: int)
    ensures
        ({
            let (y, m, d) = spec_civil_from_days(z);
            1 <= m <= 12 && 1 <= d <= days_in_month(y, m)
        }),
{
    let zz = z + 719468;
    let era = zz / 146097;
    vstd::arithmetic::div_mod::lemma_fundamental_div_mod(zz, 146097);
    let doe = zz - era * 146097;
    lemma_doy_range(doe);
    let yoe = (doe - doe / 1460 + doe / 36524 - doe / 146096) / 365;
    let doy = doe - (365 * yoe + yoe / 4 - yoe / 100);
    lemma_day_in_month(doy);
    let mp = (5 * doy + 2) / 153;
    let d = doy - (153 * mp + 2) / 5 + 1;
    let (y, m, dd) = spec_civil_from_days(z);
    assert(dd == d);
    if mp == 11 && d == 29 {
        assert(m == 2);
        assert(y == yoe + era * 400 + 1);
        let q = yoe / 4;
        vstd::arithmetic::div_mod::lemma_fundamental_div_mod(yoe, 4);
        lemma_div_is(y, 4, era * 100 + q + 1, 0);
        if yoe == 399 {
            lemma_div_is(y, 400, era + 1, 0);
        } else {
            let h = yoe / 100;
            vstd::arithmetic::div_mod::lemma_fundamental_div_mod(yoe, 100);
            lemma_div_is(y, 100, era * 4 + h, yoe % 100 + 1);
        }
        assert(is_leap_year(y));
    }
}

/// Within a year, the month index is in `0..=11` and the day in `1..=31`.
proof fn lemma_day_range(doy: int)
    requires
        0 <= doy <= 365,
    ensures
        ({
            let mp = (5 * doy + 2) / 153;
            let d = doy - (153 * mp + 2) / 5 + 1;
            0 <= mp <= 11 && 1 <= d <= 31
        }),
{
    let mp = (5 * doy + 2) / 153;
    vstd::arithmetic::div_mod::lemma_fundamental_div_mod(5 * doy + 2, 153);
    let q = (153 * mp + 2) / 5;
    vstd::arithmetic::div_mod::lemma_fundamental_div_mod(153 * mp + 2, 5);
    assert(0 <= mp <= 11) by (nonlinear_arith)
        requires
            5 * doy + 2 == mp * 153 + (5 * doy + 2) % 153,
            0 <= (5 * doy + 2) % 153 < 153,
            0 <= doy <= 365,
    ;
}

} // verus!
