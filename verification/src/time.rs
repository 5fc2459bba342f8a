//! Proleptic Gregorian calendar arithmetic and ISO-8601 rendering.
use vstd::prelude::*;
use crate::text::{
    decimal, digit_char, push_char, push_range, push_signed_zero_padded, push_str, push_zero_padded,
    signed_zero_padded, zero_pad,
};


verus! {

/// A leap year of the proleptic Gregorian calendar.
pub open spec fn is_leap_year(y: int) -> bool {
    (y % 4 == 0 && y % 100 != 0) || y % 400 == 0
}

/// The number of days of month `m` (1 = January) of year `y`.
pub open spec fn days_in_month(y: int, m: int) -> int {
    if m == 2 {
        if is_leap_year(y) { 29 } else { 28 }
    } else if m == 4 || m == 6 || m == 9 || m == 11 {
        30
    } else {
        31
    }
}

/// A day that exists in the calendar.
pub open spec fn is_valid_date(y: int, m: int, d: int) -> bool {
    1 <= m <= 12 && 1 <= d <= days_in_month(y, m)
}

/// The number of leap years in `[0, y)` (negative for `y < 0`).
pub open spec fn leap_years_before(y: int) -> int {
    (y + 3) / 4 - (y + 99) / 100 + (y + 399) / 400
}

/// The number of days of year `y` before the first of month `m`.
pub open spec fn days_before_month(y: int, m: int) -> int {
    let common: int = if m == 1 {
        0
    } else if m == 2 {
        31
    } else if m == 3 {
        59
    } else if m == 4 {
        90
    } else if m == 5 {
        120
    } else if m == 6 {
        151
    } else if m == 7 {
        181
    } else if m == 8 {
        212
    } else if m == 9 {
        243
    } else if m == 10 {
        273
    } else if m == 11 {
        304
    } else {
        334
    };
    if m > 2 && is_leap_year(y) {
        common + 1
    } else {
        common
    }
}

/// The number of days from 1970-01-01 to the date `y-m-d` (negative before).
pub open spec fn days_from_civil(y: int, m: int, d: int) -> int {
    365 * y + leap_years_before(y) + days_before_month(y, m) + d - 1 - 719528
}

/// Within one 400-year era counted from March 1st of year 0, day `doe`
/// falls in March-based year `yoe`, on day `doy` of that year, and only
/// the last day of a year whose February has 29 days has `doy == 365`.
#[verifier::rlimit(60)]
proof fn lemma_day_of_era(doe: u64)
    requires
        doe <= 146096,
    ensures
        ({
            let yoe = (doe - doe / 1460 + doe / 36524 - doe / 146096) / 365;
            let doy = doe - (365 * yoe + yoe / 4 - yoe / 100);
            &&& doe / 1460 <= doe
            &&& doe / 146096 <= doe - doe / 1460 + doe / 36524
            &&& yoe / 100 <= yoe / 4
            &&& yoe <= 399
            &&& 365 * yoe + yoe / 4 - yoe / 100 <= doe
            &&& doy <= 365
            &&& doy == 365 ==> (yoe % 4 == 3 && ((yoe + 1) % 100 != 0 || yoe == 399))
        }),
{
    assert({
        let yoe = (doe - doe / 1460 + doe / 36524 - doe / 146096) / 365;
        let doy = doe - (365 * yoe + yoe / 4 - yoe / 100);
        &&& doe / 1460 <= doe
        &&& doe / 146096 <= doe - doe / 1460 + doe / 36524
        &&& yoe / 100 <= yoe / 4
        &&& yoe <= 399
        &&& 365 * yoe + yoe / 4 - yoe / 100 <= doe
        &&& doy <= 365
        &&& doy == 365 ==> (yoe % 4 == 3 && ((yoe + 1) % 100 != 0 || yoe == 399))
    }) by (bit_vector)
        requires
            doe <= 146096,
    ;
}

/// The days before month `m` in a year that starts on March 1st.
pub open spec fn march_days_before(m: int) -> int {
    if m == 3 {
        0
    } else if m == 4 {
        31
    } else if m == 5 {
        61
    } else if m == 6 {
        92
    } else if m == 7 {
        122
    } else if m == 8 {
        153
    } else if m == 9 {
        184
    } else if m == 10 {
        214
    } else if m == 11 {
        245
    } else if m == 12 {
        275
    } else if m == 1 {
        306
    } else {
        337
    }
}

/// Month and day of day `doy` of a March-based year.
#[verifier::rlimit(60)]
proof fn lemma_day_of_year(doy: u64)
    requires
        doy <= 365,
    ensures
        ({
            let mp = (5 * doy + 2) / 153;
            let d = doy - (153 * mp + 2) / 5 + 1;
            let m = if mp < 10 { mp + 3 } else { mp - 9 };
            &&& mp <= 11
            &&& (153 * mp + 2) / 5 <= doy
            &&& 1 <= m <= 12
            &&& 1 <= d
            &&& doy == march_days_before(m as int) + d - 1
            &&& (m == 4 || m == 6 || m == 9 || m == 11) ==> d <= 30
            &&& m == 2 ==> (d <= 28 || doy == 365)
            &&& d <= 31
        }),
{
    assert({
        let mp = (5 * doy + 2) / 153;
        let d = doy - (153 * mp + 2) / 5 + 1;
        let m = if mp < 10 { mp + 3 } else { mp - 9 };
        let mb: u64 = if m == 3 {
            0
        } else if m == 4 {
            31
        } else if m == 5 {
            61
        } else if m == 6 {
            92
        } else if m == 7 {
            122
        } else if m == 8 {
            153
        } else if m == 9 {
            184
        } else if m == 10 {
            214
        } else if m == 11 {
            245
        } else if m == 12 {
            275
        } else if m == 1 {
            306
        } else {
            337
        };
        &&& mp <= 11
        &&& (153 * mp + 2) / 5 <= doy
        &&& 1 <= m <= 12
        &&& 1 <= d
        &&& doy == mb + d - 1
        &&& (m == 4 || m == 6 || m == 9 || m == 11) ==> d <= 30
        &&& m == 2 ==> (d <= 28 || doy == 365)
        &&& d <= 31
    }) by (bit_vector)
        requires
            doy <= 365,
    ;
}


/// Leap-year counts near a March-based year `yoe` of an era.
proof fn lemma_year_counts(yoe: u64)
    requires
        yoe <= 399,
    ensures
        (yoe + 4) / 4 - (yoe + 100) / 100 + (yoe + 400) / 400 == yoe / 4 - yoe / 100 + 1,
        (yoe + 3) / 4 - (yoe + 99) / 100 + (yoe + 399) / 400 + (if (yoe % 4 == 0 && yoe % 100 != 0)
            || yoe % 400 == 0 {
            1int
        } else {
            0int
        }) == yoe / 4 - yoe / 100 + 1,
        (((yoe + 1) % 4 == 0 && (yoe + 1) % 100 != 0) || (yoe + 1) % 400 == 0) <==> (yoe % 4 == 3
            && ((yoe + 1) % 100 != 0 || yoe == 399)),
{
    assert({
        &&& (yoe + 4) / 4 - (yoe + 100) / 100 + (yoe + 400) / 400 == yoe / 4 - yoe / 100 + 1
        &&& (yoe + 3) / 4 - (yoe + 99) / 100 + (yoe + 399) / 400 + (if (yoe % 4 == 0 && yoe % 100
            != 0) || yoe % 400 == 0 {
            1u64
        } else {
            0u64
        }) == yoe / 4 - yoe / 100 + 1
        &&& (((yoe + 1) % 4 == 0 && (yoe + 1) % 100 != 0) || (yoe + 1) % 400 == 0) <==> (yoe % 4
            == 3 && ((yoe + 1) % 100 != 0 || yoe == 399))
    }) by (bit_vector)
        requires
            yoe <= 399,
    ;
}

/// Shifting a year by whole 400-year eras keeps its leap status and adds
/// 97 leap years per era.
proof fn lemma_era_shift(y: int, e: int)
    ensures
        leap_years_before(y + 400 * e) == leap_years_before(y) + 97 * e,
        is_leap_year(y + 400 * e) == is_leap_year(y),
{
    vstd::arithmetic::div_mod::lemma_fundamental_div_mod(y + 3, 4);
    vstd::arithmetic::div_mod::lemma_fundamental_div_mod(y + 99, 100);
    vstd::arithmetic::div_mod::lemma_fundamental_div_mod(y + 399, 400);
    vstd::arithmetic::div_mod::lemma_fundamental_div_mod_converse(
        y + 400 * e + 3,
        4,
        (y + 3) / 4 + 100 * e,
        (y + 3) % 4,
    );
    vstd::arithmetic::div_mod::lemma_fundamental_div_mod_converse(
        y + 400 * e + 99,
        100,
        (y + 99) / 100 + 4 * e,
        (y + 99) % 100,
    );
    vstd::arithmetic::div_mod::lemma_fundamental_div_mod_converse(
        y + 400 * e + 399,
        400,
        (y + 399) / 400 + e,
        (y + 399) % 400,
    );
    vstd::arithmetic::div_mod::lemma_mod_multiples_vanish(100 * e, y, 4);
    vstd::arithmetic::div_mod::lemma_mod_multiples_vanish(4 * e, y, 100);
    vstd::arithmetic::div_mod::lemma_mod_multiples_vanish(e, y, 400);
}

/// `(y, m, d)` is a calendar date that lies `days` days after 1970-01-01.
pub open spec fn is_civil_date_of(days: int, y: int, m: int, d: int) -> bool {
    is_valid_date(y, m, d) && days_from_civil(y, m, d) == days
}

/// The calendar date `days` days after 1970-01-01, as (year, month, day).
pub open spec fn civil_date(days: int) -> (int, int, int) {
    choose|ymd: (int, int, int)| is_civil_date_of(days, ymd.0, ymd.1, ymd.2)
}

/// Every day count is the day of some calendar date (and so of exactly one,
/// by `lemma_civil_date_unique`).
pub proof fn lemma_civil_date(days: int)
    ensures
        is_civil_date_of(days, civil_date(days).0, civil_date(days).1, civil_date(days).2),
{
    let z = days + 719468;
    let era = z / 146097;
    let doe = z % 146097;
    vstd::arithmetic::div_mod::lemma_fundamental_div_mod(z, 146097);
    lemma_era_date(doe as u64);
    let (y0, m, d) = era_date(doe);
    lemma_shift_date(y0, m, d, era);
    assert(is_civil_date_of(days, y0 + 400 * era, m, d));
    let w = (y0 + 400 * era, m, d);
    assert(is_civil_date_of(days, w.0, w.1, w.2));
}

/// Euclidean division by the number of days of a 400-year era.
fn div_rem_era(z: i64) -> (r: (i64, u64))
    ensures
        r.0 as int == z as int / 146097,
        r.1 as int == z as int % 146097,
        z as int == 146097 * r.0 + r.1,
        r.1 < 146097,
{
    if z >= 0 {
        let n = z as u64;
        let q = n / 146097;
        let rem = n % 146097;
        proof {
            vstd::arithmetic::div_mod::lemma_fundamental_div_mod(n as int, 146097);
        }
        (q as i64, rem)
    } else {
        let n = (-(z as i128) - 1) as u64;
        let q = n / 146097;
        let rem = n % 146097;
        proof {
            vstd::arithmetic::div_mod::lemma_fundamental_div_mod(n as int, 146097);
            vstd::arithmetic::div_mod::lemma_fundamental_div_mod_converse(
                z as int,
                146097,
                -(q as int) - 1,
                146096 - rem as int,
            );
        }
        (-(q as i64) - 1, 146096 - rem)
    }
}

/// Year (March-based, plus one for January and February), month and day
/// of day `doe` of a 400-year era that starts on March 1st of year 0.
pub open spec fn era_date(doe: int) -> (int, int, int) {
    let yoe = (doe - doe / 1460 + doe / 36524 - doe / 146096) / 365;
    let doy = doe - (365 * yoe + yoe / 4 - yoe / 100);
    let mp = (5 * doy + 2) / 153;
    let d = doy - (153 * mp + 2) / 5 + 1;
    let m = if mp < 10 { mp + 3 } else { mp - 9 };
    (if m <= 2 { yoe + 1 } else { yoe }, m, d)
}

proof fn lemma_era_date(doe: u64)
    requires
        doe <= 146096,
    ensures
        ({
            let (y, m, d) = era_date(doe as int);
            &&& 0 <= y <= 400
            &&& is_valid_date(y, m, d)
            &&& 365 * y + leap_years_before(y) + days_before_month(y, m) + d - 1 == doe + 60
        }),
{
    lemma_day_of_era(doe);
    let yoe: u64 = ((doe - doe / 1460 + doe / 36524 - doe / 146096) / 365) as u64;
    let doy: u64 = (doe - (365 * yoe + yoe / 4 - yoe / 100)) as u64;
    lemma_day_of_year(doy);
    lemma_year_counts(yoe);
    let (y, m, d) = era_date(doe as int);
    if m <= 2 {
        assert(is_leap_year(y) <==> (yoe % 4 == 3 && ((yoe + 1) % 100 != 0 || yoe == 399)));
    }
}

proof fn lemma_shift_date(y: int, m: int, d: int, e: int)
    ensures
        is_valid_date(y + 400 * e, m, d) == is_valid_date(y, m, d),
        days_from_civil(y + 400 * e, m, d) == days_from_civil(y, m, d) + 146097 * e,
{
    lemma_era_shift(y, e);
}

/// The calendar date `days` days after 1970-01-01. The year is reduced to
/// `i32` by truncation, as `as i32` does.
#[verifier::rlimit(40)]
pub fn civil_from_days(days: i64) -> (r: (i32, u32, u32))
    requires
        days <= i64::MAX - 719468,
    ensures
        r.0 == civil_date(days as int).0 as i32,
        r.1 == civil_date(days as int).1,
        r.2 == civil_date(days as int).2,
        1 <= r.1 <= 12,
        1 <= r.2 <= 31,
{
    let z = days + 719468;
    let (era, doe) = div_rem_era(z);
    proof {
        lemma_day_of_era(doe);
        lemma_era_date(doe);
    }
    let yoe: u64 = (doe - doe / 1460 + doe / 36524 - doe / 146096) / 365;
    let doy: u64 = doe - (365 * yoe + yoe / 4 - yoe / 100);
    proof {
        lemma_day_of_year(doy);
    }
    let mp: u64 = (5 * doy + 2) / 153;
    let d: u64 = doy - (153 * mp + 2) / 5 + 1;
    let m: u64 = if mp < 10 { mp + 3 } else { mp - 9 };
    let y0: u64 = if m <= 2 { yoe + 1 } else { yoe };
    assert(era_date(doe as int) == (y0 as int, m as int, d as int));
    let y: i64 = y0 as i64 + era * 400;
    proof {
        lemma_shift_date(y0 as int, m as int, d as int, era as int);
        assert(is_civil_date_of(days as int, y as int, m as int, d as int));
    }
    proof {
        lemma_civil_date(days as int);
        let c = civil_date(days as int);
        lemma_civil_date_unique(days as int, y as int, m as int, d as int, c.0, c.1, c.2);
    }
    (y as i32, m as u32, d as u32)
}


proof fn lemma_leap_step(y: int)
    ensures
        leap_years_before(y + 1) == leap_years_before(y) + if is_leap_year(y) { 1int } else { 0int },
{
    let e = y / 400;
    let r = y % 400;
    vstd::arithmetic::div_mod::lemma_fundamental_div_mod(y, 400);
    assert(y == r + 400 * e);
    lemma_era_shift(r, e);
    lemma_era_shift(r + 1, e);
    lemma_year_counts(r as u64);
}

proof fn lemma_leap_years_monotonic(a: int, b: int)
    requires
        a <= b,
    ensures
        leap_years_before(a) <= leap_years_before(b),
    decreases b - a,
{
    if a < b {
        lemma_leap_step(b - 1);
        lemma_leap_years_monotonic(a, b - 1);
    }
}

/// The day of the year of a valid date lies within that year.
proof fn lemma_day_within_year(y: int, m: int, d: int)
    requires
        is_valid_date(y, m, d),
    ensures
        0 <= days_before_month(y, m) + d - 1 < 365 + if is_leap_year(y) { 1int } else { 0int },
{
}

/// Distinct calendar dates are distinct days: the date that
/// `civil_from_days` returns is the only one for its day count.
pub proof fn lemma_civil_date_unique(days: int, y1: int, m1: int, d1: int, y2: int, m2: int, d2: int)
    requires
        is_civil_date_of(days, y1, m1, d1),
        is_civil_date_of(days, y2, m2, d2),
    ensures
        y1 == y2,
        m1 == m2,
        d1 == d2,
{
    lemma_day_within_year(y1, m1, d1);
    lemma_day_within_year(y2, m2, d2);
    if y1 < y2 {
        lemma_leap_step(y1);
        lemma_leap_years_monotonic(y1 + 1, y2);
    } else if y2 < y1 {
        lemma_leap_step(y2);
        lemma_leap_years_monotonic(y2 + 1, y1);
    }
    assert(y1 == y2);
    assert(days_before_month(y1, m1) + d1 == days_before_month(y2, m2) + d2);
}


/// `format!("{:02}", n)`.
pub open spec fn two_digits(n: int) -> Seq<char> {
    zero_pad(decimal(n as nat), 2)
}

/// `{year:04}-{month:02}-{day:02}T{hour:02}:{min:02}:{sec:02}Z`.
pub open spec fn iso8601(year: int, month: int, day: int, hour: int, min: int, sec: int) -> Seq<
    char,
> {
    iso_date(year, month, day) + seq!['T'] + iso_time(hour, min, sec) + seq!['Z']
}

/// `{year:04}-{month:02}-{day:02}`.
pub open spec fn iso_date(year: int, month: int, day: int) -> Seq<char> {
    signed_zero_padded(year, 4) + seq!['-'] + two_digits(month) + seq!['-'] + two_digits(day)
}

/// `{hour:02}:{min:02}:{sec:02}`.
pub open spec fn iso_time(hour: int, min: int, sec: int) -> Seq<char> {
    two_digits(hour) + seq![':'] + two_digits(min) + seq![':'] + two_digits(sec)
}

/// UNIX time `secs` as an RFC 3339 UTC timestamp: the calendar date of
/// its day (the year reduced to `i32`) and the time of day; instants
/// before the epoch read as the epoch.
pub open spec fn unix_iso8601(secs: int) -> Seq<char> {
    if secs < 0 {
        "1970-01-01T00:00:00Z"@
    } else {
        let (y, m, d) = civil_date(secs / 86400);
        iso8601((y as i32) as int, m, d, (secs % 86400) / 3600, (secs % 3600) / 60, secs % 60)
    }
}

/// UNIX seconds as an RFC 3339 UTC timestamp; negative instants are
/// rendered as the epoch.
pub fn unix_to_iso8601(secs: i64) -> (r: String)
    ensures
        r@ == unix_iso8601(secs as int),
{
    let mut out = String::new();
    if secs < 0 {
        push_str(&mut out, "1970-01-01T00:00:00Z");
        assert(out@ =~= "1970-01-01T00:00:00Z"@);
        return out;
    }
    let days = secs / 86400;
    let (hour, min, sec) = time_of_day(secs);
    let (year, month, day) = civil_from_days(days);
    let ghost o = out@;
    push_iso8601(&mut out, year, month, day, hour, min, sec);
    proof {
        assert(o =~= Seq::<char>::empty());
        assert(out@ =~= iso8601(year as int, month as int, day as int, hour as int, min as int, sec as int));
        assert(out@ == unix_iso8601(secs as int));
    }
    out
}

/// Hour, minute and second of the day of a non-negative UNIX time.
fn time_of_day(secs: i64) -> (r: (u32, u32, u32))
    requires
        secs >= 0,
    ensures
        r.0 as int == (secs % 86400) / 3600,
        r.1 as int == (secs % 3600) / 60,
        r.2 as int == secs % 60,
{
    let rem = (secs % 86400) as u32;
    proof {
        vstd::arithmetic::div_mod::lemma_mod_mod(secs as int, 3600, 24);
        vstd::arithmetic::div_mod::lemma_mod_mod(secs as int, 60, 1440);
    }
    (rem / 3600, (rem % 3600) / 60, rem % 60)
}

fn push_two_digits(out: &mut String, n: u32)
    ensures
        final(out)@ == old(out)@ + two_digits(n as int),
{
    push_zero_padded(out, n as u64, 2);
}

fn push_iso_date(out: &mut String, year: i32, month: u32, day: u32)
    ensures
        final(out)@ == old(out)@ + iso_date(year as int, month as int, day as int),
{
    let ghost o = out@;
    push_signed_zero_padded(out, year as i64, 4);
    push_char(out, '-');
    push_two_digits(out, month);
    push_char(out, '-');
    push_two_digits(out, day);
    assert(out@ =~= o + iso_date(year as int, month as int, day as int));
}

fn push_iso_time(out: &mut String, hour: u32, min: u32, sec: u32)
    ensures
        final(out)@ == old(out)@ + iso_time(hour as int, min as int, sec as int),
{
    let ghost o = out@;
    push_two_digits(out, hour);
    push_char(out, ':');
    push_two_digits(out, min);
    push_char(out, ':');
    push_two_digits(out, sec);
    assert(out@ =~= o + iso_time(hour as int, min as int, sec as int));
}

/// Appends `iso8601(year, month, day, hour, min, sec)`.
fn push_iso8601(out: &mut String, year: i32, month: u32, day: u32, hour: u32, min: u32, sec: u32)
    ensures
        final(out)@ == old(out)@ + iso8601(
            year as int,
            month as int,
            day as int,
            hour as int,
            min as int,
            sec as int,
        ),
{
    let ghost o = out@;
    push_iso_date(out, year, month, day);
    push_char(out, 'T');
    push_iso_time(out, hour, min, sec);
    push_char(out, 'Z');
    assert(out@ =~= o + iso8601(year as int, month as int, day as int, hour as int, min as int, sec as int));
}

/// An ASCII letter or digit.
pub open spec fn is_ascii_alphanumeric(c: char) -> bool {
    ('0' <= c && c <= '9') || ('A' <= c && c <= 'Z') || ('a' <= c && c <= 'z')
}

/// The ASCII letters and digits of `s`, in order.
pub open spec fn alphanumerics(s: Seq<char>) -> Seq<char> {
    s.filter(|c: char| is_ascii_alphanumeric(c))
}

/// An iCalendar `DATE-TIME` (`20261014T155900Z`) or `DATE` (`20261014`),
/// separators ignored, as an RFC 3339 UTC timestamp.
pub open spec fn ics_datetime_iso(raw: Seq<char>) -> Option<Seq<char>> {
    let c = alphanumerics(raw);
    if c.len() >= 15 {
        Some(
            c.subrange(0, 4) + seq!['-'] + c.subrange(4, 6) + seq!['-'] + c.subrange(6, 8) + seq!['T']
                + c.subrange(9, 11) + seq![':'] + c.subrange(11, 13) + seq![':'] + c.subrange(
                13,
                15,
            ) + seq!['Z'],
        )
    } else if c.len() >= 8 {
        Some(
            c.subrange(0, 4) + seq!['-'] + c.subrange(4, 6) + seq!['-'] + c.subrange(6, 8) + seq![
                'T',
                '0',
                '0',
                ':',
                '0',
                '0',
                ':',
                '0',
                '0',
                'Z',
            ],
        )
    } else {
        None
    }
}

/// The ASCII letters and digits of `s`.
pub fn alphanumerics_exec(s: &Vec<char>) -> (r: Vec<char>)
    ensures
        r@ == alphanumerics(s@),
{
    let mut r: Vec<char> = Vec::new();
    let mut i: usize = 0;
    while i < s.len()
        invariant
            i <= s@.len(),
            r@ == alphanumerics(s@.take(i as int)),
        decreases s@.len() - i,
    {
        let c = s[i];
        proof {
            reveal(Seq::filter);
            assert(s@.take(i + 1).drop_last() =~= s@.take(i as int));
            assert(s@.take(i + 1).last() == c);
        }
        if ('0' <= c && c <= '9') || ('A' <= c && c <= 'Z') || ('a' <= c && c <= 'z') {
            r.push(c);
        }
        i += 1;
    }
    assert(s@.take(s@.len() as int) =~= s@);
    r
}

/// `20261014T155900Z` or `20261014` as an RFC 3339 UTC timestamp.
pub fn ics_datetime_to_iso(raw: &str) -> (r: Option<String>)
    ensures
        r matches Some(v) ==> ics_datetime_iso(raw@) == Some(v@),
        r is None ==> ics_datetime_iso(raw@) is None,
{
    let chars = crate::text::chars_of(raw);
    let c = alphanumerics_exec(&chars);
    if c.len() >= 15 {
        let mut out = String::new();
        push_range(&mut out, &c, 0, 4);
        push_char(&mut out, '-');
        push_range(&mut out, &c, 4, 6);
        push_char(&mut out, '-');
        push_range(&mut out, &c, 6, 8);
        push_char(&mut out, 'T');
        push_range(&mut out, &c, 9, 11);
        push_char(&mut out, ':');
        push_range(&mut out, &c, 11, 13);
        push_char(&mut out, ':');
        push_range(&mut out, &c, 13, 15);
        push_char(&mut out, 'Z');
        assert(Some(out@) == ics_datetime_iso(raw@));
        Some(out)
    } else if c.len() >= 8 {
        let mut out = String::new();
        push_range(&mut out, &c, 0, 4);
        push_char(&mut out, '-');
        push_range(&mut out, &c, 4, 6);
        push_char(&mut out, '-');
        push_range(&mut out, &c, 6, 8);
        push_str(&mut out, "T00:00:00Z");
        proof {
            reveal_strlit("T00:00:00Z");
        }
        assert(Some(out@) == ics_datetime_iso(raw@));
        Some(out)
    } else {
        None
    }
}


/// The iCalendar UTC `DATE-TIME` text `YYYYMMDDTHHMMSSZ` of UNIX time
/// `secs` (for years of at most four digits).
pub open spec fn ics_utc_datetime(secs: int) -> Seq<char> {
    let (y, m, d) = civil_date(secs / 86400);
    zero_pad(decimal(y as nat), 4) + two_digits(m) + two_digits(d) + seq!['T'] + two_digits(
        (secs % 86400) / 3600,
    ) + two_digits((secs % 3600) / 60) + two_digits(secs % 60) + seq!['Z']
}

/// The first day of year `y`.
proof fn lemma_year_bounds(days: int, y: int, m: int, d: int)
    requires
        is_civil_date_of(days, y, m, d),
    ensures
        days_from_civil(y, 1, 1) <= days < days_from_civil(y + 1, 1, 1),
{
    lemma_day_within_year(y, m, d);
    lemma_leap_step(y);
}

proof fn lemma_year_start_monotonic(a: int, b: int)
    requires
        a <= b,
    ensures
        days_from_civil(a, 1, 1) <= days_from_civil(b, 1, 1),
{
    lemma_leap_years_monotonic(a, b);
}

/// Instants from 1970 up to the end of year 9999 have four-digit years.
proof fn lemma_four_digit_year(secs: int)
    requires
        0 <= secs < 253402300800,
    ensures
        1970 <= civil_date(secs / 86400).0 <= 9999,
{
    let days = secs / 86400;
    lemma_civil_date(days);
    let (y, m, d) = civil_date(days);
    lemma_year_bounds(days, y, m, d);
    assert(days_from_civil(1970, 1, 1) == 0);
    assert(days_from_civil(10000, 1, 1) == 2932897);
    if y < 1970 {
        lemma_year_start_monotonic(y + 1, 1970);
    }
    if y > 9999 {
        lemma_year_start_monotonic(10000, y);
    }
}

proof fn lemma_decimal_digits(n: nat)
    ensures
        forall|i: int| 0 <= i < decimal(n).len() ==> '0' <= #[trigger] decimal(n)[i] <= '9',
        n < 10 ==> decimal(n).len() == 1,
        n < 100 ==> decimal(n).len() <= 2,
        n < 1000 ==> decimal(n).len() <= 3,
        n < 10000 ==> decimal(n).len() <= 4,
    decreases n,
{
    if n >= 10 {
        lemma_decimal_digits(n / 10);
        let p = decimal(n / 10);
        assert forall|i: int| 0 <= i < decimal(n).len() implies '0' <= #[trigger] decimal(n)[i]
            <= '9' by {
            if i < p.len() {
                assert(decimal(n)[i] == p[i]);
            }
        }
    }
}

proof fn lemma_padded_digits(n: nat, width: nat)
    requires
        width == 2 && n < 100 || width == 4 && n < 10000,
    ensures
        zero_pad(decimal(n), width).len() == width,
        forall|i: int|
            0 <= i < width ==> '0' <= #[trigger] zero_pad(decimal(n), width)[i] <= '9',
{
    lemma_decimal_digits(n);
    let s = decimal(n);
    let z = zero_pad(s, width);
    if s.len() < width {
        let pad = Seq::new((width - s.len()) as nat, |i: int| '0');
        assert forall|i: int| 0 <= i < width implies '0' <= #[trigger] z[i] <= '9' by {
            if i < pad.len() {
                assert(z[i] == pad[i]);
            } else {
                assert(z[i] == s[i - pad.len()]);
            }
        }
    }
}

proof fn lemma_alphanumerics_of_alphanumeric(s: Seq<char>)
    requires
        forall|i: int| 0 <= i < s.len() ==> is_ascii_alphanumeric(#[trigger] s[i]),
    ensures
        alphanumerics(s) == s,
    decreases s.len(),
{
    reveal(Seq::filter);
    if s.len() > 0 {
        lemma_alphanumerics_of_alphanumeric(s.drop_last());
        assert(s.drop_last().push(s.last()) =~= s);
    }
}

/// Every character is an ASCII digit.
pub open spec fn all_digits(s: Seq<char>) -> bool {
    forall|i: int| 0 <= i < s.len() ==> '0' <= #[trigger] s[i] <= '9'
}

/// Every character is an ASCII letter or digit.
pub open spec fn all_alphanumeric(s: Seq<char>) -> bool {
    forall|i: int| 0 <= i < s.len() ==> is_ascii_alphanumeric(#[trigger] s[i])
}

proof fn lemma_concat_alphanumeric(a: Seq<char>, b: Seq<char>)
    requires
        all_digits(a) || all_alphanumeric(a) || a == seq!['T'] || a == seq!['Z'],
        all_digits(b) || all_alphanumeric(b) || b == seq!['T'] || b == seq!['Z'],
    ensures
        all_alphanumeric(a + b),
{
    assert forall|i: int| 0 <= i < (a + b).len() implies is_ascii_alphanumeric(#[trigger] (a + b)[i]) by {
        if i < a.len() {
            assert((a + b)[i] == a[i]);
        } else {
            assert((a + b)[i] == b[i - a.len()]);
        }
    }
}

/// A `DATE-TIME` written with letters and digits is all letters and digits.
proof fn lemma_basic_alphanumeric(
    py: Seq<char>,
    pm: Seq<char>,
    pd: Seq<char>,
    ph: Seq<char>,
    pi: Seq<char>,
    ps: Seq<char>,
)
    requires
        all_alphanumeric(py) && all_alphanumeric(pm) && all_alphanumeric(pd),
        all_alphanumeric(ph) && all_alphanumeric(pi) && all_alphanumeric(ps),
    ensures
        alphanumerics(py + pm + pd + seq!['T'] + ph + pi + ps + seq!['Z']) == py + pm + pd
            + seq!['T'] + ph + pi + ps + seq!['Z'],
{
    lemma_concat_alphanumeric(py, pm);
    lemma_concat_alphanumeric(py + pm, pd);
    lemma_concat_alphanumeric(py + pm + pd, seq!['T']);
    lemma_concat_alphanumeric(py + pm + pd + seq!['T'], ph);
    lemma_concat_alphanumeric(py + pm + pd + seq!['T'] + ph, pi);
    lemma_concat_alphanumeric(py + pm + pd + seq!['T'] + ph + pi, ps);
    lemma_concat_alphanumeric(py + pm + pd + seq!['T'] + ph + pi + ps, seq!['Z']);
    lemma_alphanumerics_of_alphanumeric(py + pm + pd + seq!['T'] + ph + pi + ps + seq!['Z']);
}

/// The windows that `ics_datetime_iso` reads of a `DATE-TIME` text.
proof fn lemma_basic_windows(
    py: Seq<char>,
    pm: Seq<char>,
    pd: Seq<char>,
    ph: Seq<char>,
    pi: Seq<char>,
    ps: Seq<char>,
)
    requires
        py.len() == 4 && pm.len() == 2 && pd.len() == 2,
        ph.len() == 2 && pi.len() == 2 && ps.len() == 2,
    ensures
        ({
            let t = py + pm + pd + seq!['T'] + ph + pi + ps + seq!['Z'];
            &&& t.len() == 16
            &&& t.subrange(0, 4) == py
            &&& t.subrange(4, 6) == pm
            &&& t.subrange(6, 8) == pd
            &&& t.subrange(9, 11) == ph
            &&& t.subrange(11, 13) == pi
            &&& t.subrange(13, 15) == ps
        }),
{
    let t = py + pm + pd + seq!['T'] + ph + pi + ps + seq!['Z'];
    assert forall|k: int| 0 <= k < 4 implies t[k] == py[k] by {}
    assert(t.subrange(0, 4) =~= py);
    assert forall|k: int| 0 <= k < 2 implies t[4 + k] == pm[k] by {}
    assert(t.subrange(4, 6) =~= pm);
    assert forall|k: int| 0 <= k < 2 implies t[6 + k] == pd[k] by {}
    assert(t.subrange(6, 8) =~= pd);
    assert forall|k: int| 0 <= k < 2 implies t[9 + k] == ph[k] by {}
    assert(t.subrange(9, 11) =~= ph);
    assert forall|k: int| 0 <= k < 2 implies t[11 + k] == pi[k] by {}
    assert(t.subrange(11, 13) =~= pi);
    assert forall|k: int| 0 <= k < 2 implies t[13 + k] == ps[k] by {}
    assert(t.subrange(13, 15) =~= ps);
}

/// A `DATE-TIME` written with letters and digits reads as the matching
/// timestamp.
#[verifier::rlimit(60)]
proof fn lemma_basic_datetime(
    py: Seq<char>,
    pm: Seq<char>,
    pd: Seq<char>,
    ph: Seq<char>,
    pi: Seq<char>,
    ps: Seq<char>,
)
    requires
        py.len() == 4 && pm.len() == 2 && pd.len() == 2,
        ph.len() == 2 && pi.len() == 2 && ps.len() == 2,
        all_alphanumeric(py) && all_alphanumeric(pm) && all_alphanumeric(pd),
        all_alphanumeric(ph) && all_alphanumeric(pi) && all_alphanumeric(ps),
    ensures
        ics_datetime_iso(py + pm + pd + seq!['T'] + ph + pi + ps + seq!['Z']) == Some(
            py + seq!['-'] + pm + seq!['-'] + pd + seq!['T'] + ph + seq![':'] + pi + seq![':'] + ps
                + seq!['Z'],
        ),
{
    lemma_basic_alphanumeric(py, pm, pd, ph, pi, ps);
    lemma_basic_windows(py, pm, pd, ph, pi, ps);
    let t = py + pm + pd + seq!['T'] + ph + pi + ps + seq!['Z'];
    let c = alphanumerics(t);
    assert(c == t);
    assert(c.len() >= 15);
    assert(ics_datetime_iso(t) == Some(
        c.subrange(0, 4) + seq!['-'] + c.subrange(4, 6) + seq!['-'] + c.subrange(6, 8) + seq!['T']
            + c.subrange(9, 11) + seq![':'] + c.subrange(11, 13) + seq![':'] + c.subrange(13, 15)
            + seq!['Z'],
    ));
}

/// Both interfaces give the same deadline for the same instant: the
/// iCalendar `DATE-TIME` of a UNIX time from 1970 through year 9999 reads
/// as the timestamp that the AJAX mapping renders for it.
pub proof fn lemma_ics_and_unix_deadlines_agree(secs: int)
    requires
        0 <= secs < 253402300800,
    ensures
        ics_datetime_iso(ics_utc_datetime(secs)) == Some(unix_iso8601(secs)),
{
    let (y, m, d) = civil_date(secs / 86400);
    lemma_four_digit_year(secs);
    lemma_civil_date(secs / 86400);
    let hh = (secs % 86400) / 3600;
    let mi = (secs % 3600) / 60;
    let ss = secs % 60;
    lemma_padded_digits(y as nat, 4);
    lemma_padded_digits(m as nat, 2);
    lemma_padded_digits(d as nat, 2);
    lemma_padded_digits(hh as nat, 2);
    lemma_padded_digits(mi as nat, 2);
    lemma_padded_digits(ss as nat, 2);
    let py = zero_pad(decimal(y as nat), 4);
    lemma_basic_datetime(py, two_digits(m), two_digits(d), two_digits(hh), two_digits(mi), two_digits(ss));
    assert((y as i32) as int == y);
    assert(signed_zero_padded((y as i32) as int, 4) == py);
}


proof fn lemma_alphanumerics_concat(a: Seq<char>, b: Seq<char>)
    ensures
        alphanumerics(a + b) == alphanumerics(a) + alphanumerics(b),
{
    Seq::filter_distributes_over_add(a, b, |c: char| is_ascii_alphanumeric(c));
}

proof fn lemma_alphanumerics_single(c: char)
    ensures
        alphanumerics(seq![c]) == if is_ascii_alphanumeric(c) {
            seq![c]
        } else {
            Seq::<char>::empty()
        },
{
    reveal(Seq::filter);
    let e = Seq::<char>::empty();
    assert(seq![c].drop_last() =~= e);
    assert(seq![c].last() == c);
    assert(alphanumerics(e) == e);
    assert(e.push(c) =~= seq![c]);
}

proof fn lemma_filter_alphanumeric(s: Seq<char>)
    ensures
        all_alphanumeric(alphanumerics(s)),
        alphanumerics(s).len() <= s.len(),
    decreases s.len(),
{
    reveal(Seq::filter);
    if s.len() > 0 {
        lemma_filter_alphanumeric(s.drop_last());
        let p = alphanumerics(s.drop_last());
        assert forall|i: int| 0 <= i < alphanumerics(s).len() implies is_ascii_alphanumeric(
            #[trigger] alphanumerics(s)[i],
        ) by {
            if i < p.len() {
                assert(alphanumerics(s)[i] == p[i]);
            }
        }
    }
}

/// Where each character of the timestamp comes from. Of the value's ASCII
/// letters and digits `c` (separators such as `-`, `:` or a parameter's
/// `:` are ignored): with at least 15 of them (`YYYYMMDDTHHMMSS`, a
/// trailing `Z` or not) the result is `YYYY-MM-DDTHH:MM:SSZ` with the date
/// from `c[0..8]` and the time of day from `c[9..15]`; with 8 to 14 it is
/// that date at midnight; with fewer there is no timestamp.
pub proof fn lemma_ics_datetime_fields(raw: Seq<char>)
    ensures
        ics_datetime_iso(raw) is Some <==> alphanumerics(raw).len() >= 8,
        alphanumerics(raw).len() >= 8 ==> ({
            let c = alphanumerics(raw);
            let r = ics_datetime_iso(raw)->0;
            &&& r.len() == 20
            &&& r[0] == c[0] && r[1] == c[1] && r[2] == c[2] && r[3] == c[3]
            &&& r[4] == '-' && r[5] == c[4] && r[6] == c[5]
            &&& r[7] == '-' && r[8] == c[6] && r[9] == c[7]
            &&& r[10] == 'T' && r[13] == ':' && r[16] == ':' && r[19] == 'Z'
        }),
        alphanumerics(raw).len() >= 15 ==> ({
            let c = alphanumerics(raw);
            let r = ics_datetime_iso(raw)->0;
            &&& r[11] == c[9] && r[12] == c[10]
            &&& r[14] == c[11] && r[15] == c[12]
            &&& r[17] == c[13] && r[18] == c[14]
        }),
        8 <= alphanumerics(raw).len() < 15 ==> ({
            let r = ics_datetime_iso(raw)->0;
            &&& r[11] == '0' && r[12] == '0'
            &&& r[14] == '0' && r[15] == '0'
            &&& r[17] == '0' && r[18] == '0'
        }),
{
    let c = alphanumerics(raw);
    if c.len() >= 15 {
        let r = ics_datetime_iso(raw)->0;
        assert(r =~= seq![c[0], c[1], c[2], c[3], '-', c[4], c[5], '-', c[6], c[7], 'T', c[9], c[10],
            ':', c[11], c[12], ':', c[13], c[14], 'Z']);
    } else if c.len() >= 8 {
        let r = ics_datetime_iso(raw)->0;
        assert(r =~= seq![c[0], c[1], c[2], c[3], '-', c[4], c[5], '-', c[6], c[7], 'T', '0', '0',
            ':', '0', '0', ':', '0', '0', 'Z']);
    }
}

/// An RFC 3339 timestamp that `ics_datetime_to_iso` produced reads back as
/// itself.
pub proof fn lemma_ics_datetime_reread(raw: Seq<char>)
    requires
        ics_datetime_iso(raw) is Some,
    ensures
        ics_datetime_iso(ics_datetime_iso(raw)->0) == ics_datetime_iso(raw),
{
    let c = alphanumerics(raw);
    lemma_filter_alphanumeric(raw);
    let c0 = c.subrange(0, 4);
    let c1 = c.subrange(4, 6);
    let c2 = c.subrange(6, 8);
    assert(all_alphanumeric(c0) && all_alphanumeric(c1) && all_alphanumeric(c2)) by {
        assert forall|i: int| 0 <= i < 4 implies is_ascii_alphanumeric(#[trigger] c0[i]) by {
            assert(c0[i] == c[i]);
        }
        assert forall|i: int| 0 <= i < 2 implies is_ascii_alphanumeric(#[trigger] c1[i]) by {
            assert(c1[i] == c[4 + i]);
        }
        assert forall|i: int| 0 <= i < 2 implies is_ascii_alphanumeric(#[trigger] c2[i]) by {
            assert(c2[i] == c[6 + i]);
        }
    }
    let (c3, c4, c5) = if c.len() >= 15 {
        (c.subrange(9, 11), c.subrange(11, 13), c.subrange(13, 15))
    } else {
        (seq!['0', '0'], seq!['0', '0'], seq!['0', '0'])
    };
    if c.len() >= 15 {
        assert forall|i: int| 0 <= i < 2 implies is_ascii_alphanumeric(#[trigger] c3[i]) by {
            assert(c3[i] == c[9 + i]);
        }
        assert forall|i: int| 0 <= i < 2 implies is_ascii_alphanumeric(#[trigger] c4[i]) by {
            assert(c4[i] == c[11 + i]);
        }
        assert forall|i: int| 0 <= i < 2 implies is_ascii_alphanumeric(#[trigger] c5[i]) by {
            assert(c5[i] == c[13 + i]);
        }
    } else {
        assert(all_alphanumeric(seq!['0', '0']));
    }
    let s = c0 + seq!['-'] + c1 + seq!['-'] + c2 + seq!['T'] + c3 + seq![':'] + c4 + seq![':'] + c5
        + seq!['Z'];
    assert(ics_datetime_iso(raw) == Some(s)) by {
        if c.len() < 15 {
            assert(s =~= c0 + seq!['-'] + c1 + seq!['-'] + c2 + seq![
                'T',
                '0',
                '0',
                ':',
                '0',
                '0',
                ':',
                '0',
                '0',
                'Z',
            ]);
        }
    }
    // The separators drop out when the timestamp is read again.
    lemma_alphanumerics_single('-');
    lemma_alphanumerics_single(':');
    lemma_alphanumerics_single('T');
    lemma_alphanumerics_single('Z');
    lemma_alphanumerics_of_alphanumeric(c0);
    lemma_alphanumerics_of_alphanumeric(c1);
    lemma_alphanumerics_of_alphanumeric(c2);
    lemma_alphanumerics_of_alphanumeric(c3);
    lemma_alphanumerics_of_alphanumeric(c4);
    lemma_alphanumerics_of_alphanumeric(c5);
    let s1 = c0 + seq!['-'];
    let s2 = s1 + c1;
    let s3 = s2 + seq!['-'];
    let s4 = s3 + c2;
    let s5 = s4 + seq!['T'];
    let s6 = s5 + c3;
    let s7 = s6 + seq![':'];
    let s8 = s7 + c4;
    let s9 = s8 + seq![':'];
    let s10 = s9 + c5;
    lemma_alphanumerics_concat(c0, seq!['-']);
    lemma_alphanumerics_concat(s1, c1);
    lemma_alphanumerics_concat(s2, seq!['-']);
    lemma_alphanumerics_concat(s3, c2);
    lemma_alphanumerics_concat(s4, seq!['T']);
    lemma_alphanumerics_concat(s5, c3);
    lemma_alphanumerics_concat(s6, seq![':']);
    lemma_alphanumerics_concat(s7, c4);
    lemma_alphanumerics_concat(s8, seq![':']);
    lemma_alphanumerics_concat(s9, c5);
    lemma_alphanumerics_concat(s10, seq!['Z']);
    assert(alphanumerics(s) =~= c0 + c1 + c2 + seq!['T'] + c3 + c4 + c5 + seq!['Z']);
    lemma_basic_datetime(c0, c1, c2, c3, c4, c5);
}


/// `x` comes strictly before `y` in the order of their characters: they
/// agree up to some position where `x` has the smaller character.
pub open spec fn lex_lt(x: Seq<char>, y: Seq<char>) -> bool {
    exists|k: int| 0 <= k < x.len() && k < y.len() && #[trigger] x.take(k) == y.take(k) && x[k] < y[k]
}

proof fn lemma_lex_at(x: Seq<char>, y: Seq<char>, k: int)
    requires
        0 <= k < x.len(),
        k < y.len(),
        forall|j: int| 0 <= j < k ==> x[j] == y[j],
        x[k] < y[k],
    ensures
        lex_lt(x, y),
{
    assert(x.take(k) =~= y.take(k));
}

proof fn lemma_lex_extend(x1: Seq<char>, x2: Seq<char>, r1: Seq<char>, r2: Seq<char>)
    requires
        lex_lt(x1, x2),
    ensures
        lex_lt(x1 + r1, x2 + r2),
{
    let k = choose|k: int| 0 <= k < x1.len() && k < x2.len() && #[trigger] x1.take(k) == x2.take(k) && x1[k] < x2[k];
    assert((x1 + r1).take(k) =~= x1.take(k));
    assert((x2 + r2).take(k) =~= x2.take(k));
    assert((x1 + r1)[k] == x1[k]);
    assert((x2 + r2)[k] == x2[k]);
}

proof fn lemma_lex_after(x: Seq<char>, r1: Seq<char>, r2: Seq<char>)
    requires
        lex_lt(r1, r2),
    ensures
        lex_lt(x + r1, x + r2),
{
    let k = choose|k: int| 0 <= k < r1.len() && k < r2.len() && #[trigger] r1.take(k) == r2.take(k) && r1[k] < r2[k];
    let k2 = x.len() + k;
    assert((x + r1).take(k2) =~= x + r1.take(k));
    assert((x + r2).take(k2) =~= x + r2.take(k));
    assert((x + r1)[k2] == r1[k]);
    assert((x + r2)[k2] == r2[k]);
}

/// Two digits of `n < 100`.
proof fn lemma_two_digits_form(n: int)
    requires
        0 <= n < 100,
    ensures
        two_digits(n) == seq![digit_char(n / 10), digit_char(n % 10)],
{
    if n < 10 {
        assert(two_digits(n) =~= seq![digit_char(n / 10), digit_char(n % 10)]);
    } else {
        assert(decimal((n / 10) as nat) == seq![digit_char(n / 10)]);
        assert(two_digits(n) =~= seq![digit_char(n / 10), digit_char(n % 10)]);
    }
}

/// Four digits of `n < 10000`.
proof fn lemma_four_digits_form(n: int)
    requires
        0 <= n < 10000,
    ensures
        zero_pad(decimal(n as nat), 4) == seq![
            digit_char(n / 1000),
            digit_char((n / 100) % 10),
            digit_char((n / 10) % 10),
            digit_char(n % 10),
        ],
{
    let q = n / 10;
    let q2 = q / 10;
    vstd::arithmetic::div_mod::lemma_div_denominator(n, 10, 10);
    vstd::arithmetic::div_mod::lemma_div_denominator(n, 100, 10);
    vstd::arithmetic::div_mod::lemma_div_denominator(n, 10, 100);
    let r = seq![
        digit_char(n / 1000),
        digit_char((n / 100) % 10),
        digit_char((n / 10) % 10),
        digit_char(n % 10),
    ];
    if n < 10 {
        assert(zero_pad(decimal(n as nat), 4) =~= r);
    } else if n < 100 {
        assert(decimal(q as nat) == seq![digit_char(q)]);
        assert(zero_pad(decimal(n as nat), 4) =~= r);
    } else if n < 1000 {
        assert(decimal(q2 as nat) == seq![digit_char(q2)]);
        assert(decimal(q as nat) == seq![digit_char(q2), digit_char(q % 10)]);
        assert(zero_pad(decimal(n as nat), 4) =~= r);
    } else {
        let q3 = q2 / 10;
        assert(decimal(q3 as nat) == seq![digit_char(q3)]);
        assert(decimal(q2 as nat) == seq![digit_char(q3), digit_char(q2 % 10)]);
        assert(decimal(q as nat) == seq![digit_char(q3), digit_char(q2 % 10), digit_char(q % 10)]);
        assert(zero_pad(decimal(n as nat), 4) =~= r);
    }
}

proof fn lemma_digit_char_lt(a: int, b: int)
    requires
        0 <= a < b <= 9,
    ensures
        digit_char(a) < digit_char(b),
{
}

/// Zero-padded numbers of the same width sort like the numbers.
proof fn lemma_two_digits_lt(a: int, b: int)
    requires
        0 <= a < b < 100,
    ensures
        lex_lt(two_digits(a), two_digits(b)),
{
    lemma_two_digits_form(a);
    lemma_two_digits_form(b);
    let x = two_digits(a);
    let y = two_digits(b);
    if a / 10 < b / 10 {
        lemma_digit_char_lt(a / 10, b / 10);
        lemma_lex_at(x, y, 0);
    } else {
        lemma_digit_char_lt(a % 10, b % 10);
        lemma_lex_at(x, y, 1);
    }
}

proof fn lemma_four_digit_parts(n: int)
    requires
        0 <= n < 10000,
    ensures
        n == 1000 * (n / 1000) + 100 * ((n / 100) % 10) + 10 * ((n / 10) % 10) + n % 10,
        0 <= n / 1000 <= 9,
        0 <= (n / 100) % 10 <= 9,
        0 <= (n / 10) % 10 <= 9,
        0 <= n % 10 <= 9,
{
    vstd::arithmetic::div_mod::lemma_fundamental_div_mod(n, 10);
    vstd::arithmetic::div_mod::lemma_fundamental_div_mod(n / 10, 10);
    vstd::arithmetic::div_mod::lemma_fundamental_div_mod(n / 100, 10);
    vstd::arithmetic::div_mod::lemma_div_denominator(n, 10, 10);
    vstd::arithmetic::div_mod::lemma_div_denominator(n, 100, 10);
}

proof fn lemma_four_digits_lt(a: int, b: int)
    requires
        0 <= a < b < 10000,
    ensures
        lex_lt(zero_pad(decimal(a as nat), 4), zero_pad(decimal(b as nat), 4)),
{
    lemma_four_digit_parts(a);
    lemma_four_digit_parts(b);
    lemma_four_digits_form(a);
    lemma_four_digits_form(b);
    let x = zero_pad(decimal(a as nat), 4);
    let y = zero_pad(decimal(b as nat), 4);
    if a / 1000 < b / 1000 {
        lemma_digit_char_lt(a / 1000, b / 1000);
        lemma_lex_at(x, y, 0);
    } else if (a / 100) % 10 < (b / 100) % 10 {
        lemma_digit_char_lt((a / 100) % 10, (b / 100) % 10);
        lemma_lex_at(x, y, 1);
    } else if (a / 10) % 10 < (b / 10) % 10 {
        lemma_digit_char_lt((a / 10) % 10, (b / 10) % 10);
        lemma_lex_at(x, y, 2);
    } else {
        lemma_digit_char_lt(a % 10, b % 10);
        lemma_lex_at(x, y, 3);
    }
}


/// `(y1, m1, d1)` comes before `(y2, m2, d2)` in calendar order.
pub open spec fn date_before(y1: int, m1: int, d1: int, y2: int, m2: int, d2: int) -> bool {
    y1 < y2 || (y1 == y2 && (m1 < m2 || (m1 == m2 && d1 < d2)))
}

/// Later days have later dates.
proof fn lemma_dates_ordered(days1: int, days2: int)
    requires
        days1 < days2,
    ensures
        ({
            let (y1, m1, d1) = civil_date(days1);
            let (y2, m2, d2) = civil_date(days2);
            date_before(y1, m1, d1, y2, m2, d2)
        }),
{
    lemma_civil_date(days1);
    lemma_civil_date(days2);
    let (y1, m1, d1) = civil_date(days1);
    let (y2, m2, d2) = civil_date(days2);
    lemma_year_bounds(days1, y1, m1, d1);
    lemma_year_bounds(days2, y2, m2, d2);
    if y1 > y2 {
        lemma_year_start_monotonic(y2 + 1, y1);
    } else if y1 == y2 {
        if m1 > m2 || (m1 == m2 && d1 >= d2) {
            assert(days_before_month(y1, m1) + d1 >= days_before_month(y2, m2) + d2);
        }
    }
}

/// Three fields joined by a separator sort by their first differing field.
proof fn lemma_fields_lt(
    a1: Seq<char>,
    b1: Seq<char>,
    c1: Seq<char>,
    a2: Seq<char>,
    b2: Seq<char>,
    c2: Seq<char>,
    sep: Seq<char>,
)
    requires
        a1.len() == a2.len(),
        b1.len() == b2.len(),
        lex_lt(a1, a2) || (a1 == a2 && (lex_lt(b1, b2) || (b1 == b2 && lex_lt(c1, c2)))),
    ensures
        lex_lt(a1 + sep + b1 + sep + c1, a2 + sep + b2 + sep + c2),
{
    if lex_lt(a1, a2) {
        lemma_lex_extend(a1, a2, sep + b1 + sep + c1, sep + b2 + sep + c2);
        assert(a1 + (sep + b1 + sep + c1) =~= a1 + sep + b1 + sep + c1);
        assert(a2 + (sep + b2 + sep + c2) =~= a2 + sep + b2 + sep + c2);
    } else if lex_lt(b1, b2) {
        lemma_lex_extend(b1, b2, sep + c1, sep + c2);
        lemma_lex_after(a1 + sep, b1 + (sep + c1), b2 + (sep + c2));
        assert(a1 + sep + (b1 + (sep + c1)) =~= a1 + sep + b1 + sep + c1);
        assert(a2 + sep + (b2 + (sep + c2)) =~= a2 + sep + b2 + sep + c2);
    } else {
        lemma_lex_after(a1 + sep + b1 + sep, c1, c2);
    }
}

proof fn lemma_iso_date_lt(y1: int, m1: int, d1: int, y2: int, m2: int, d2: int)
    requires
        date_before(y1, m1, d1, y2, m2, d2),
        0 <= y1 < 10000 && 0 <= y2 < 10000,
        1 <= m1 <= 12 && 1 <= m2 <= 12,
        1 <= d1 <= 31 && 1 <= d2 <= 31,
    ensures
        lex_lt(iso_date(y1, m1, d1), iso_date(y2, m2, d2)),
{
    lemma_four_digits_form(y1);
    lemma_four_digits_form(y2);
    lemma_two_digits_form(m1);
    lemma_two_digits_form(m2);
    if y1 < y2 {
        lemma_four_digits_lt(y1, y2);
    } else if m1 < m2 {
        lemma_two_digits_lt(m1, m2);
    } else {
        lemma_two_digits_lt(d1, d2);
    }
    lemma_fields_lt(
        zero_pad(decimal(y1 as nat), 4),
        two_digits(m1),
        two_digits(d1),
        zero_pad(decimal(y2 as nat), 4),
        two_digits(m2),
        two_digits(d2),
        seq!['-'],
    );
}

proof fn lemma_iso_time_lt(h1: int, n1: int, s1: int, h2: int, n2: int, s2: int)
    requires
        date_before(h1, n1, s1, h2, n2, s2),
        0 <= h1 < 100 && 0 <= h2 < 100,
        0 <= n1 < 100 && 0 <= n2 < 100,
        0 <= s1 < 100 && 0 <= s2 < 100,
    ensures
        lex_lt(iso_time(h1, n1, s1), iso_time(h2, n2, s2)),
{
    lemma_two_digits_form(h1);
    lemma_two_digits_form(h2);
    lemma_two_digits_form(n1);
    lemma_two_digits_form(n2);
    if h1 < h2 {
        lemma_two_digits_lt(h1, h2);
    } else if n1 < n2 {
        lemma_two_digits_lt(n1, n2);
    } else {
        lemma_two_digits_lt(s1, s2);
    }
    lemma_fields_lt(
        two_digits(h1),
        two_digits(n1),
        two_digits(s1),
        two_digits(h2),
        two_digits(n2),
        two_digits(s2),
        seq![':'],
    );
}

proof fn lemma_time_parts(secs: int)
    requires
        0 <= secs,
    ensures
        secs % 86400 == 3600 * ((secs % 86400) / 3600) + 60 * ((secs % 3600) / 60) + secs % 60,
        0 <= (secs % 86400) / 3600 < 24,
        0 <= (secs % 3600) / 60 < 60,
        0 <= secs % 60 < 60,
{
    let r = secs % 86400;
    vstd::arithmetic::div_mod::lemma_mod_mod(secs, 3600, 24);
    vstd::arithmetic::div_mod::lemma_mod_mod(secs, 60, 1440);
    vstd::arithmetic::div_mod::lemma_mod_mod(secs % 3600, 60, 60);
    vstd::arithmetic::div_mod::lemma_fundamental_div_mod(r, 3600);
    vstd::arithmetic::div_mod::lemma_fundamental_div_mod(r % 3600, 60);
}

/// Every instant before the epoch renders as the epoch itself.
pub proof fn lemma_unix_iso8601_before_epoch(secs: int)
    requires
        secs < 0,
    ensures
        unix_iso8601(secs) == unix_iso8601(0),
        unix_iso8601(secs) == "1970-01-01T00:00:00Z"@,
{
    let (y, m, d) = civil_date(0);
    lemma_civil_date(0);
    assert(is_civil_date_of(0, 1970, 1, 1));
    lemma_civil_date_unique(0, y, m, d, 1970, 1, 1);
    reveal_strlit("1970-01-01T00:00:00Z");
    assert(decimal(0) =~= seq!['0']);
    assert(decimal(1) =~= seq!['1']);
    assert(two_digits(0) =~= seq!['0', '0']);
    assert(two_digits(1) =~= seq!['0', '1']);
    assert(decimal(1970) =~= seq!['1', '9', '7', '0']) by {
        reveal_with_fuel(decimal, 5);
    }
    assert(signed_zero_padded(1970, 4) =~= seq!['1', '9', '7', '0']);
    assert((1970i32 as int) == 1970);
    assert(unix_iso8601(0) =~= "1970-01-01T00:00:00Z"@);
}

/// Timestamps sort as the instants do: for instants from 1970 through
/// year 9999, the later one renders as the later text in character order.
pub proof fn lemma_unix_iso8601_ordered(a: int, b: int)
    requires
        0 <= a < b < 253402300800,
    ensures
        lex_lt(unix_iso8601(a), unix_iso8601(b)),
{
    let da = a / 86400;
    let db = b / 86400;
    lemma_four_digit_year(a);
    lemma_four_digit_year(b);
    lemma_civil_date(da);
    lemma_civil_date(db);
    lemma_time_parts(a);
    lemma_time_parts(b);
    vstd::arithmetic::div_mod::lemma_div_is_ordered(a, b, 86400);
    vstd::arithmetic::div_mod::lemma_fundamental_div_mod(a, 86400);
    vstd::arithmetic::div_mod::lemma_fundamental_div_mod(b, 86400);
    let (y1, m1, d1) = civil_date(da);
    let (y2, m2, d2) = civil_date(db);
    let t1 = iso_time((a % 86400) / 3600, (a % 3600) / 60, a % 60);
    let t2 = iso_time((b % 86400) / 3600, (b % 3600) / 60, b % 60);
    let tz = seq!['T'];
    let z = seq!['Z'];
    assert((y1 as i32) as int == y1);
    assert((y2 as i32) as int == y2);
    assert(unix_iso8601(a) == iso_date(y1, m1, d1) + tz + t1 + z);
    assert(unix_iso8601(b) == iso_date(y2, m2, d2) + tz + t2 + z);
    if da < db {
        lemma_dates_ordered(da, db);
        lemma_iso_date_lt(y1, m1, d1, y2, m2, d2);
        lemma_lex_extend(iso_date(y1, m1, d1), iso_date(y2, m2, d2), tz + t1 + z, tz + t2 + z);
        assert(iso_date(y1, m1, d1) + (tz + t1 + z) =~= unix_iso8601(a));
        assert(iso_date(y2, m2, d2) + (tz + t2 + z) =~= unix_iso8601(b));
    } else {
        assert(da == db);
        lemma_iso_time_lt(
            (a % 86400) / 3600,
            (a % 3600) / 60,
            a % 60,
            (b % 86400) / 3600,
            (b % 3600) / 60,
            b % 60,
        );
        lemma_lex_extend(t1, t2, z, z);
        lemma_lex_after(iso_date(y1, m1, d1) + tz, t1 + z, t2 + z);
        assert(iso_date(y1, m1, d1) + tz + (t1 + z) =~= unix_iso8601(a));
        assert(iso_date(y2, m2, d2) + tz + (t2 + z) =~= unix_iso8601(b));
    }
}

} // verus!
