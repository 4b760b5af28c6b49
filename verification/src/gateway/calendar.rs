//! Unix-epoch to civil-date conversion for `{{now}}` templates.
use vstd::prelude::*;
use crate::text::{append, decimal, decimal_of};

verus! {

pub open spec fn spec_is_leap_year(year: int) -> bool {
    (year % 4 == 0 && year % 100 != 0) || year % 400 == 0
}

pub open spec fn year_days(year: int) -> int {
    if spec_is_leap_year(year) {
        366
    } else {
        365
    }
}

pub open spec fn month_len(year: int, month: int) -> int {
    if month == 2 {
        if spec_is_leap_year(year) {
            29
        } else {
            28
        }
    } else if month == 4 || month == 6 || month == 9 || month == 11 {
        30
    } else {
        31
    }
}

/// Days from 1970-01-01 to the first day of `year`.
pub open spec fn days_before_year(year: int) -> int
    decreases year - 1970,
{
    if year <= 1970 {
        0
    } else {
        days_before_year(year - 1) + year_days(year - 1)
    }
}

/// Days from the first of January to the first of `month` in `year`.
pub open spec fn days_before_month(year: int, month: int) -> int
    decreases month,
{
    if month <= 1 {
        0
    } else {
        days_before_month(year, month - 1) + month_len(year, month - 1)
    }
}

/// Days from 1970-01-01 to the given date.
pub open spec fn civil_to_days(year: int, month: int, day: int) -> int {
    days_before_year(year) + days_before_month(year, month) + day - 1
}

/// A valid calendar date from 1970 on.
pub open spec fn valid_date(year: int, month: int, day: int) -> bool {
    year >= 1970 && 1 <= month <= 12 && 1 <= day <= month_len(year, month)
}

pub fn is_leap_year(year: u32) -> (r: bool)
    ensures
        r == spec_is_leap_year(year as int),
{
    (year % 4 == 0 && year % 100 != 0) || year % 400 == 0
}

pub fn month_lengths(year: u32) -> (r: [u32; 12])
    ensures
        forall|m: int| 1 <= m <= 12 ==> r@[m - 1] == month_len(year as int, m),
{
    let feb: u32 = if is_leap_year(year) {
        29
    } else {
        28
    };
    [31, feb, 31, 30, 31, 30, 31, 31, 30, 31, 30, 31]
}

proof fn lemma_days_before_year_mono(y: int)
    requires
        y >= 1970,
    ensures
        days_before_year(y) >= y - 1970,
    decreases y - 1970,
{
    if y > 1970 {
        lemma_days_before_year_mono(y - 1);
    }
}

/// Splits seconds since the Unix epoch into UTC year, month, day, hour,
/// minute and second. The day count is taken modulo 2^32.
pub fn epoch_to_civil(secs: u64) -> (r: (u32, u32, u32, u32, u32, u32))
    ensures
        valid_date(r.0 as int, r.1 as int, r.2 as int),
        civil_to_days(r.0 as int, r.1 as int, r.2 as int) == (secs / 86400) as int % 0x1_0000_0000,
        r.3 as int == (secs % 86400) / 3600,
        r.4 as int == (secs % 3600) / 60,
        r.5 as int == secs % 60,
{
    let q: u64 = secs / 86_400;
    let days: u32 = q as u32;
    let remainder = secs % 86_400;
    let hour: u32 = (remainder / 3_600) as u32;
    let minute: u32 = ((remainder % 3_600) / 60) as u32;
    let second: u32 = (remainder % 60) as u32;
    proof {
        assert(days as u64 == q & 0xffff_ffff) by (bit_vector)
            requires
                days == q as u32,
        ;
        assert(q & 0xffff_ffff == q % 0x1_0000_0000) by (bit_vector);
        assert((remainder % 3600) == secs % 3600) by (nonlinear_arith)
            requires
                remainder == secs % 86400,
        ;
        assert(remainder % 60 == secs % 60) by (nonlinear_arith)
            requires
                remainder == secs % 86400,
        ;
    }
    let mut year: u32 = 1970;
    let mut days_left: u32 = days;
    loop
        invariant
            1970 <= year,
            days_before_year(year as int) + days_left == days,
            (year as int - 1970) * 365 <= days as int - days_left as int,
        ensures
            1970 <= year,
            days_before_year(year as int) + days_left == days,
            days_left < year_days(year as int),
        decreases days_left,
    {
        let year_len: u32 = if is_leap_year(year) {
            366
        } else {
            365
        };
        if days_left < year_len {
            break;
        }
        days_left -= year_len;
        year += 1;
    }
    let mdays = month_lengths(year);
    let mut month: u32 = 1;
    let mut i: usize = 0;
    loop
        invariant
            i < 12,
            month == i + 1,
            days_before_month(year as int, month as int) + days_left as int == (days as int
                - days_before_year(year as int)),
            days as int - days_before_year(year as int) < year_days(year as int),
            forall|m: int| 1 <= m <= 12 ==> mdays@[m - 1] == month_len(year as int, m),
        ensures
            1 <= month <= 12,
            days_before_month(year as int, month as int) + days_left as int == (days as int
                - days_before_year(year as int)),
            days_left < month_len(year as int, month as int),
        decreases 12 - i,
    {
        let len = mdays[i];
        proof {
            if i == 11 {
                assert(days_before_month(year as int, 12) + month_len(year as int, 12) == year_days(
                    year as int,
                )) by {
                    reveal_with_fuel(days_before_month, 13);
                }
            }
        }
        if days_left < len {
            break;
        }
        days_left -= len;
        month += 1;
        i += 1;
    }
    let day = days_left + 1;
    (year, month, day, hour, minute, second)
}

/// `n` in decimal, left-padded with zeros to at least `width` digits.
pub open spec fn padded(n: nat, width: nat) -> Seq<char> {
    let d = decimal(n);
    if d.len() >= width {
        d
    } else {
        Seq::new((width - d.len()) as nat, |i: int| '0') + d
    }
}

pub fn padded_of(n: u64, width: usize) -> (r: Vec<char>)
    ensures
        r@ == padded(n as nat, width as nat),
{
    let d = decimal_of(n);
    if d.len() >= width {
        return d;
    }
    let mut r: Vec<char> = Vec::new();
    let pad = width - d.len();
    let mut i: usize = 0;
    while i < pad
        invariant
            i <= pad,
            r@ == Seq::new(i as nat, |k: int| '0'),
        decreases pad - i,
    {
        r.push('0');
        i += 1;
        assert(r@ =~= Seq::new(i as nat, |k: int| '0'));
    }
    append(&mut r, &d);
    r
}

/// `YYYY-MM-DDTHH:MM:SSZ` for the given civil time.
pub open spec fn rfc3339_text(c: (u32, u32, u32, u32, u32, u32)) -> Seq<char> {
    padded(c.0 as nat, 4) + "-"@ + padded(c.1 as nat, 2) + "-"@ + padded(c.2 as nat, 2) + "T"@
        + padded(c.3 as nat, 2) + ":"@ + padded(c.4 as nat, 2) + ":"@ + padded(c.5 as nat, 2) + "Z"@
}

/// The RFC 3339 UTC timestamp of `secs` seconds after the epoch.
pub fn rfc3339_of(secs: u64) -> (r: Vec<char>)
    ensures
        exists|c: (u32, u32, u32, u32, u32, u32)|
            r@ == rfc3339_text(c) && valid_date(c.0 as int, c.1 as int, c.2 as int) && civil_to_days(
                c.0 as int,
                c.1 as int,
                c.2 as int,
            ) == (secs / 86400) as int % 0x1_0000_0000 && c.3 as int == (secs % 86400) / 3600
                && c.4 as int == (secs % 3600) / 60 && c.5 as int == secs % 60,
{
    let c = epoch_to_civil(secs);
    let mut r = padded_of(c.0 as u64, 4);
    crate::text::append_str(&mut r, "-");
    append(&mut r, &padded_of(c.1 as u64, 2));
    crate::text::append_str(&mut r, "-");
    append(&mut r, &padded_of(c.2 as u64, 2));
    crate::text::append_str(&mut r, "T");
    append(&mut r, &padded_of(c.3 as u64, 2));
    crate::text::append_str(&mut r, ":");
    append(&mut r, &padded_of(c.4 as u64, 2));
    crate::text::append_str(&mut r, ":");
    append(&mut r, &padded_of(c.5 as u64, 2));
    crate::text::append_str(&mut r, "Z");
    assert(r@ =~= rfc3339_text(c));
    r
}

} // verus!
