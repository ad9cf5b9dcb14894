//! Dates as the DTU server writes them.
use crate::text::{decimal, u64_to_string};
use vstd::prelude::*;

verus! {

/// The civil date (year, month, day) of a day counted from 1970-01-01, in the proleptic
/// Gregorian calendar: eras of 400 years, years starting in March.
pub open spec fn civil_spec(days: int) -> (int, int, int) {
    let z = days + 719468;
    let era = z / 146097;
    let doe = z - era * 146097;
    let yoe = (doe - doe / 1460 + doe / 36524 - doe / 146096) / 365;
    let y = yoe + era * 400;
    let doy = doe - (365 * yoe + yoe / 4 - yoe / 100);
    let mp = (5 * doy + 2) / 153;
    let d = doy - (153 * mp + 2) / 5 + 1;
    let m = if mp < 10 { mp + 3 } else { mp - 9 };
    (if m <= 2 { y + 1 } else { y }, m, d)
}

proof fn lemma_year_of_era(doe: int)
    requires
        0 <= doe < 146097,
    ensures
        0 <= (doe - doe / 1460 + doe / 36524 - doe / 146096) / 365 <= 399,
        0 <= doe - (365 * ((doe - doe / 1460 + doe / 36524 - doe / 146096) / 365)
            + ((doe - doe / 1460 + doe / 36524 - doe / 146096) / 365) / 4
            - ((doe - doe / 1460 + doe / 36524 - doe / 146096) / 365) / 100) <= 365,
{
    let yoe = (doe - doe / 1460 + doe / 36524 - doe / 146096) / 365;
    assert(0 <= yoe <= 399) by (nonlinear_arith)
        requires
            0 <= doe < 146097,
            yoe == (doe - doe / 1460 + doe / 36524 - doe / 146096) / 365;
    assert(0 <= doe - (365 * yoe + yoe / 4 - yoe / 100) <= 365) by (nonlinear_arith)
        requires
            0 <= doe < 146097,
            0 <= yoe <= 399,
            yoe == (doe - doe / 1460 + doe / 36524 - doe / 146096) / 365;
}

proof fn lemma_month_day(doy: int)
    requires
        0 <= doy <= 365,
    ensures
        0 <= (5 * doy + 2) / 153 <= 11,
        1 <= doy - (153 * ((5 * doy + 2) / 153) + 2) / 5 + 1 <= 31,
{
    let mp = (5 * doy + 2) / 153;
    assert(0 <= mp <= 11) by (nonlinear_arith)
        requires
            0 <= doy <= 365,
            mp == (5 * doy + 2) / 153;
    assert(1 <= doy - (153 * mp + 2) / 5 + 1 <= 31) by (nonlinear_arith)
        requires
            0 <= doy <= 365,
            mp == (5 * doy + 2) / 153,
            0 <= mp <= 11;
}

/// The civil date of a day counted from 1970-01-01.
pub fn civil_from_days(days_since_unix_epoch: i64) -> (r: (i32, u32, u32))
    requires
        days_since_unix_epoch <= i64::MAX - 719_468,
    ensures
        r.0 == civil_spec(days_since_unix_epoch as int).0 as i32,
        r.1 as int == civil_spec(days_since_unix_epoch as int).1,
        r.2 as int == civil_spec(days_since_unix_epoch as int).2,
        1 <= r.1 <= 12,
        1 <= r.2 <= 31,
{
    let z = days_since_unix_epoch + 719_468;
    let era: i64 = if z >= 0 { z / 146_097 } else { -((146_096 - z) / 146_097) };
    assert(era == z / 146097) by (nonlinear_arith)
        requires
            z >= 0 ==> era == z / 146097,
            z < 0 ==> era == -((146096 - z) / 146097),
    {
        if z < 0 {
            let q = (146096 - z) / 146097;
            assert(146097 * q <= 146096 - z < 146097 * q + 146097);
        }
    }
    let day_of_era = z - era * 146_097;
    assert(0 <= day_of_era < 146097) by (nonlinear_arith)
        requires
            era == z / 146097,
            day_of_era == z - era * 146097;
    proof { lemma_year_of_era(day_of_era as int); }
    let year_of_era = (day_of_era - day_of_era / 1_460 + day_of_era / 36_524 - day_of_era / 146_096) / 365;
    let year = year_of_era + era * 400;
    let day_of_year = day_of_era - (365 * year_of_era + year_of_era / 4 - year_of_era / 100);
    proof { lemma_month_day(day_of_year as int); }
    let month_prime = (5 * day_of_year + 2) / 153;
    let day = day_of_year - (153 * month_prime + 2) / 5 + 1;
    let month = if month_prime < 10 { month_prime + 3 } else { month_prime - 9 };
    let year = if month <= 2 { year + 1 } else { year };
    (year as i32, month as u32, day as u32)
}

/// The time of day and civil date of a count of seconds since 1970-01-01T00:00:00Z:
/// (year, month, day, hour, minute, second).
pub open spec fn utc_spec(seconds: nat) -> (int, int, int, int, int, int) {
    let (y, m, d) = civil_spec((seconds / 86400) as int);
    let sod = seconds % 86400;
    (y, m, d, (sod / 3600) as int, ((sod % 3600) / 60) as int, (sod % 60) as int)
}

/// The civil date and time of day of a count of seconds since the Unix epoch.
pub fn unix_seconds_to_utc(seconds: u64) -> (r: (i32, u32, u32, u32, u32, u32))
    ensures
        r.0 == utc_spec(seconds as nat).0 as i32,
        r.1 as int == utc_spec(seconds as nat).1,
        r.2 as int == utc_spec(seconds as nat).2,
        r.3 as int == utc_spec(seconds as nat).3,
        r.4 as int == utc_spec(seconds as nat).4,
        r.5 as int == utc_spec(seconds as nat).5,
{
    let days = (seconds / 86_400) as i64;
    let seconds_of_day = seconds % 86_400;
    let (year, month, day) = civil_from_days(days);
    let hour = (seconds_of_day / 3_600) as u32;
    let minute = ((seconds_of_day % 3_600) / 60) as u32;
    let second = (seconds_of_day % 60) as u32;
    (year, month, day, hour, minute, second)
}

/// A number's decimal digits, left-padded with zeros to `width`.
pub open spec fn zero_padded(n: nat, width: nat) -> Seq<char> {
    let d = decimal(n);
    if d.len() >= width {
        d
    } else {
        Seq::new((width - d.len()) as nat, |i: int| '0') + d
    }
}

fn padded(n: u64, width: usize) -> (r: String)
    ensures
        r@ == zero_padded(n as nat, width as nat),
{
    let digits = u64_to_string(n);
    let len = digits.as_str().unicode_len();
    if len >= width {
        return digits;
    }
    let mut r = String::new();
    let mut i: usize = 0;
    while i < width - len
        invariant
            len < width,
            i <= width - len,
            r@ == Seq::new(i as nat, |j: int| '0'),
        decreases width - len - i,
    {
        crate::text::push_char(&mut r, '0');
        i += 1;
        assert(r@ =~= Seq::new(i as nat, |j: int| '0'));
    }
    r.append(digits.as_str());
    r
}

/// A year of the calendar for a non-negative day count: at least 1970 and far below the
/// range of `i32` for day counts that fit 64-bit milliseconds.
proof fn lemma_civil_year_bounds(days: int)
    requires
        0 <= days <= 300_000_000_000,
    ensures
        0 <= civil_spec(days).0 <= 1_000_000_000,
{
    let z = days + 719468;
    let era = z / 146097;
    assert(0 <= era <= 2_100_000) by (nonlinear_arith)
        requires
            0 <= days <= 300_000_000_000,
            z == days + 719468,
            era == z / 146097;
    let doe = z - era * 146097;
    assert(0 <= doe < 146097) by (nonlinear_arith)
        requires
            z >= 0,
            era == z / 146097,
            doe == z - era * 146097;
    lemma_year_of_era(doe);
}

/// A time as `YYYY-MM-DDTHH:MM:SS.mmmZ`, from milliseconds since the Unix epoch.
pub open spec fn iso_spec(millis: nat) -> Seq<char> {
    let (y, m, d, h, mi, s) = utc_spec(millis / 1000);
    zero_padded(y as nat, 4) + "-"@ + zero_padded(m as nat, 2) + "-"@ + zero_padded(d as nat, 2) + "T"@
        + zero_padded(h as nat, 2) + ":"@ + zero_padded(mi as nat, 2) + ":"@ + zero_padded(s as nat, 2)
        + "."@ + zero_padded(millis % 1000, 3) + "Z"@
}

/// A time as the DTU server writes it: `YYYY-MM-DDTHH:MM:SS.mmmZ`.
pub fn iso_from_millis(millis: u64) -> (r: String)
    ensures
        r@ == iso_spec(millis as nat),
{
    let seconds = millis / 1000;
    proof {
        lemma_civil_year_bounds((seconds / 86400) as int);
    }
    let (year, month, day, hour, minute, second) = unix_seconds_to_utc(seconds);
    assert(year as int == utc_spec(seconds as nat).0);
    let mut r = padded(year as u64, 4);
    r.append("-");
    r.append(padded(month as u64, 2).as_str());
    r.append("-");
    r.append(padded(day as u64, 2).as_str());
    r.append("T");
    r.append(padded(hour as u64, 2).as_str());
    r.append(":");
    r.append(padded(minute as u64, 2).as_str());
    r.append(":");
    r.append(padded(second as u64, 2).as_str());
    r.append(".");
    r.append(padded(millis % 1000, 3).as_str());
    r.append("Z");
    r
}

} // verus!
