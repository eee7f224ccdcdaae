//! Date-time literals: ISO 8601 text to milliseconds since the Unix epoch.

use vstd::prelude::*;
use vstd::utf8::{encode_utf8, is_ascii_chars, is_ascii_chars_encode_utf8};
use crate::text::{owned, substring};

verus! {

// ---------------------------------------------------------------------------
// Days from a civil date
// ---------------------------------------------------------------------------

/// Division rounding toward zero, as Rust's `/` on signed integers.
pub open spec fn trunc_div(a: int, d: int) -> int
    recommends
        d > 0,
{
    if a >= 0 {
        a / d
    } else {
        -((-a) / d)
    }
}

/// The year counted from March (January and February belong to the year before).
pub open spec fn civil_y(year: int, month: int) -> int {
    if month <= 2 {
        year - 1
    } else {
        year
    }
}

/// The month counted from March (March is 0).
pub open spec fn civil_m(month: int) -> int {
    if month <= 2 {
        month + 9
    } else {
        month - 3
    }
}

/// The 400-year era of the shifted year.
pub open spec fn civil_era(year: int, month: int) -> int {
    let y = civil_y(year, month);
    trunc_div(if y >= 0 { y } else { y - 399 }, 400)
}

/// The year of the era, 0 to 399.
pub open spec fn civil_yoe(year: int, month: int) -> int {
    civil_y(year, month) - civil_era(year, month) * 400
}

/// The day of the shifted year.
pub open spec fn civil_doy(month: int, day: int) -> int {
    (153 * civil_m(month) + 2) / 5 + day - 1
}

/// The day of the era.
pub open spec fn civil_doe(year: int, month: int, day: int) -> int {
    let yoe = civil_yoe(year, month);
    yoe * 365 + yoe / 4 - yoe / 100 + civil_doy(month, day)
}

/// Days since 1970-01-01 of a proleptic Gregorian date.
pub open spec fn civil_days(year: int, month: int, day: int) -> int {
    civil_era(year, month) * 146097 + civil_doe(year, month, day) - 719468
}

/// The dates on which every step of the computation stays within its
/// machine type (`i64` for years and eras, `u32` for months and days).
pub open spec fn civil_in_range(year: i64, month: u32, day: u32) -> bool {
    let y = civil_y(year as int, month as int);
    &&& (month <= 2 ==> year > i64::MIN)
    &&& (y < 0 ==> y - 399 >= i64::MIN)
    &&& 153 * civil_m(month as int) + 2 <= u32::MAX
    &&& (153 * civil_m(month as int) + 2) / 5 + day <= u32::MAX
    &&& (153 * civil_m(month as int) + 2) / 5 + day >= 1
    &&& civil_yoe(year as int, month as int) * 365 + civil_yoe(year as int, month as int) / 4
        + civil_doy(month as int, day as int) <= u32::MAX
    &&& i64::MIN <= civil_era(year as int, month as int) * 146097 <= i64::MAX
    &&& i64::MIN <= civil_era(year as int, month as int) * 146097 + civil_doe(
        year as int,
        month as int,
        day as int,
    ) <= i64::MAX
    &&& i64::MIN <= civil_days(year as int, month as int, day as int) <= i64::MAX
}

/// Every date with a year of at most four digits and an in-range month and
/// day is computed within the machine types, to well under four million days.
proof fn lemma_civil_small(year: i64, month: u32, day: u32)
    requires
        -10000 < year < 10000,
        1 <= month <= 12,
        1 <= day <= 31,
    ensures
        civil_in_range(year, month, day),
        -6000000 < civil_days(year as int, month as int, day as int) < 6000000,
{
    lemma_yoe_range(year as int, month as int);
    let y = civil_y(year as int, month as int);
    let e = civil_era(year as int, month as int);
    assert(-30 < e < 30);
}

/// The year of the era lies in 0..=399.
proof fn lemma_yoe_range(year: int, month: int)
    ensures
        0 <= civil_yoe(year, month) <= 399,
{
}

/// Consecutive days of a month are consecutive day numbers.
pub proof fn lemma_next_day(year: int, month: int, day: int)
    ensures
        civil_days(year, month, day + 1) == civil_days(year, month, day) + 1,
{
}

/// A leap year of the proleptic Gregorian calendar.
pub open spec fn is_leap(year: int) -> bool {
    (year % 4 == 0 && year % 100 != 0) || year % 400 == 0
}

/// The number of days of a month (1 to 12) of a year.
pub open spec fn days_in_month(year: int, month: int) -> int {
    if month == 2 {
        if is_leap(year) {
            29
        } else {
            28
        }
    } else if month == 4 || month == 6 || month == 9 || month == 11 {
        30
    } else {
        31
    }
}

/// A date of the proleptic Gregorian calendar.
pub open spec fn valid_date(year: int, month: int, day: int) -> bool {
    1 <= month <= 12 && 1 <= day <= days_in_month(year, month)
}

/// The calendar day after a date.
pub open spec fn next_date(year: int, month: int, day: int) -> (int, int, int) {
    if day < days_in_month(year, month) {
        (year, month, day + 1)
    } else if month < 12 {
        (year, month + 1, 1)
    } else {
        (year + 1, 1, 1)
    }
}

/// The era is the shifted year divided by 400, rounded down, and the year
/// of the era the remainder.
proof fn lemma_era_floor(year: int, month: int)
    ensures
        civil_era(year, month) == civil_y(year, month) / 400,
        civil_yoe(year, month) == civil_y(year, month) % 400,
{
    let y = civil_y(year, month);
    if y < 0 {
        let q = y / 400;
        let r = y % 400;
        assert(y == 400 * q + r && 0 <= r < 400);
        assert(399 - y == 400 * (-q) + (399 - r));
        assert((399 - y) / 400 == -q);
    }
}

/// The day numbers of the first day of a shifted year and of the last day
/// of the shifted year before it are consecutive: the shifted year before
/// `y` ends on February 29 exactly when calendar year `y` is a leap year.
proof fn lemma_year_step(y: int)
    ensures
        civil_days(y, 3, 1) == civil_days(y, 2, days_in_month(y, 2)) + 1,
{
    lemma_era_floor(y, 2);
    lemma_era_floor(y, 3);
    let p = y - 1;
    let q = p / 400;
    let r = p % 400;
    assert(p == 400 * q + r && 0 <= r < 400);
    if r < 399 {
        assert(y / 400 == q && y % 400 == r + 1);
        assert(y % 4 == (r + 1) % 4 && y % 100 == (r + 1) % 100) by {
            assert(y == 400 * q + (r + 1));
        }
        assert(y % 400 != 0);
    } else {
        assert(y / 400 == q + 1 && y % 400 == 0);
        assert(y % 4 == 0 && y % 100 == 0) by {
            assert(y == 400 * (q + 1));
        }
    }
}

/// The last day of each month but February is followed by the first day of
/// the next month (of the next year after December) at the next day number.
proof fn lemma_month_step(year: int, month: int)
    requires
        1 <= month <= 12,
        month != 2,
    ensures
        ({
            let n = next_date(year, month, days_in_month(year, month));
            civil_days(n.0, n.1, n.2) == civil_days(year, month, days_in_month(year, month)) + 1
        }),
{
    lemma_era_floor(year, month);
    lemma_era_floor(year, month + 1);
    lemma_era_floor(year + 1, 1);
}

/// The calendar day after a date has the next day number, across the ends
/// of months and years.
pub proof fn lemma_next_date(year: int, month: int, day: int)
    requires
        valid_date(year, month, day),
    ensures
        ({
            let n = next_date(year, month, day);
            valid_date(n.0, n.1, n.2) && civil_days(n.0, n.1, n.2) == civil_days(year, month, day) + 1
        }),
{
    if day < days_in_month(year, month) {
        lemma_next_day(year, month, day);
    } else if month == 2 {
        lemma_year_step(year);
    } else {
        lemma_month_step(year, month);
    }
}

/// Day numbers count from 1970-01-01.
pub proof fn lemma_unix_epoch()
    ensures
        civil_days(1970, 1, 1) == 0,
        civil_days(1969, 12, 31) == -1,
{
    lemma_era_floor(1970, 1);
    lemma_era_floor(1969, 12);
}

/// Converts (year, month, day) to days since 1970-01-01 (Howard Hinnant's
/// `days_from_civil`).
pub fn days_from_civil(year: i64, month: u32, day: u32) -> (r: i64)
    requires
        civil_in_range(year, month, day),
    ensures
        r == civil_days(year as int, month as int, day as int),
{
    proof {
        lemma_yoe_range(year as int, month as int);
    }
    let y = if month <= 2 { year - 1 } else { year };
    let m = if month <= 2 { month + 9 } else { month - 3 };
    let era = if y >= 0 { y } else { y - 399 } / 400;
    assert(era == civil_era(year as int, month as int));
    let yoe = (y - era * 400) as u32;
    let doy = (153 * m + 2) / 5 + day - 1;
    let doe = yoe * 365 + yoe / 4 - yoe / 100 + doy;
    era * 146097 + doe as i64 - 719468
}

// ---------------------------------------------------------------------------
// Integers as `str::parse` reads them
// ---------------------------------------------------------------------------

/// An ASCII digit byte.
pub open spec fn is_digit(c: u8) -> bool {
    48 <= c <= 57
}

/// The decimal value of a run of ASCII digits.
pub open spec fn digits_value(d: Seq<u8>) -> int
    decreases d.len(),
{
    if d.len() == 0 {
        0
    } else {
        digits_value(d.drop_last()) * 10 + (d.last() - 48)
    }
}

/// One or more ASCII digits.
pub open spec fn all_digits(d: Seq<u8>) -> bool {
    d.len() > 0 && forall|i: int| 0 <= i < d.len() ==> is_digit(#[trigger] d[i])
}

/// The integer `str::parse` reads from `b`: an optional `+` (or `-` when
/// `signed`) followed by one or more ASCII digits, and nothing else.
pub open spec fn parsed_int(b: Seq<u8>, signed: bool) -> Option<int> {
    if b.len() > 0 && b[0] == 43 {
        if all_digits(b.skip(1)) {
            Some(digits_value(b.skip(1)))
        } else {
            None
        }
    } else if b.len() > 0 && b[0] == 45 && signed {
        if all_digits(b.skip(1)) {
            Some(-digits_value(b.skip(1)))
        } else {
            None
        }
    } else if all_digits(b) {
        Some(digits_value(b))
    } else {
        None
    }
}

/// Powers of ten.
pub open spec fn pow10(n: nat) -> int
    decreases n,
{
    if n == 0 {
        1
    } else {
        10 * pow10((n - 1) as nat)
    }
}

/// The first powers of ten.
proof fn lemma_pow10_small(n: nat)
    requires
        n <= 4,
    ensures
        pow10(n) <= 10000,
        n <= 3 ==> pow10(n) <= 1000,
        pow10(n + 1) == 10 * pow10(n),
{
    reveal_with_fuel(pow10, 6);
    if n == 0 {
    } else if n == 1 {
    } else if n == 2 {
    } else if n == 3 {
    } else {
    }
}

/// The value of the ASCII digits `b[from..to]`, if all are digits (at least one).
fn parse_digits(b: &[u8], from: usize, to: usize) -> (r: Option<i64>)
    requires
        from <= to <= b@.len(),
        to - from <= 4,
    ensures
        match r {
            Some(v) => all_digits(b@.subrange(from as int, to as int)) && v == digits_value(
                b@.subrange(from as int, to as int),
            ) && 0 <= v < pow10((to - from) as nat) && v < 10000,
            None => !all_digits(b@.subrange(from as int, to as int)),
        },
{
    if from == to {
        return None;
    }
    let mut acc: i64 = 0;
    let mut k = from;
    proof {
        reveal_with_fuel(pow10, 2);
    }
    while k < to
        invariant
            from <= k <= to <= b@.len(),
            to - from <= 4,
            from < to,
            forall|i: int| from <= i < k ==> is_digit(#[trigger] b@[i]),
            acc == digits_value(b@.subrange(from as int, k as int)),
            0 <= acc < pow10((k - from) as nat),
        decreases to - k,
    {
        if !(48 <= b[k] && b[k] <= 57) {
            assert(!all_digits(b@.subrange(from as int, to as int))) by {
                assert(b@.subrange(from as int, to as int)[k - from] == b@[k as int]);
            }
            return None;
        }
        proof {
            assert(b@.subrange(from as int, k + 1).drop_last() =~= b@.subrange(from as int, k as int));
            lemma_pow10_small((k - from) as nat);
        }
        acc = acc * 10 + (b[k] - 48) as i64;
        k = k + 1;
    }
    assert(all_digits(b@.subrange(from as int, to as int)));
    proof {
        lemma_pow10_small((to - from) as nat);
    }
    Some(acc)
}

/// The value of a run of at most four digits (with an optional sign) in
/// `b[from..to]`, as `str::parse` reads it.
fn parse_small(b: &[u8], from: usize, to: usize, signed: bool) -> (r: Option<i64>)
    requires
        from <= to <= b@.len(),
        to - from <= 4,
    ensures
        match parsed_int(b@.subrange(from as int, to as int), signed) {
            Some(v) => -pow10((to - from) as nat) < v < pow10((to - from) as nat) && -10000 < v
                < 10000 && r == Some(v as i64),
            None => r is None,
        },
{
    let ghost s = b@.subrange(from as int, to as int);
    if from < to && (b[from] == 43 || (b[from] == 45 && signed)) {
        assert(b@.subrange(from + 1, to as int) =~= s.skip(1));
        proof {
            lemma_pow10_small((to - from - 1) as nat);
        }
        match parse_digits(b, from + 1, to) {
            Some(v) => if b[from] == 43 {
                Some(v)
            } else {
                Some(-v)
            },
            None => None,
        }
    } else {
        parse_digits(b, from, to)
    }
}

// ---------------------------------------------------------------------------
// ISO 8601
// ---------------------------------------------------------------------------

/// Why a date-time text is refused.
#[derive(Debug, Clone, Copy, PartialEq, Eq, Structural)]
pub enum IsoError {
    InvalidDatetime,
    InvalidYear,
    InvalidMonth,
    InvalidDay,
    InvalidDateValues,
    ExpectedT,
    IncompleteTime,
    InvalidHour,
    InvalidTimeFormat,
    InvalidMinute,
    InvalidSecond,
    InvalidTzHour,
    InvalidTzMinute,
    InvalidTimezone,
}

/// Milliseconds of a date, a time of day and a UTC offset in minutes.
pub open spec fn iso_total(year: int, month: int, day: int, h: int, mi: int, sec: int, tz: int) -> int {
    (civil_days(year, month, day) * 86400 + h * 3600 + mi * 60 + sec - tz * 60) * 1000
}

/// The time part and the offset, read from byte 10 on, of a date already read.
pub open spec fn iso_time(b: Seq<u8>, year: int, month: int, day: int) -> Result<int, IsoError> {
    let n = b.len();
    if n == 10 {
        Ok(iso_total(year, month, day, 0, 0, 0, 0))
    } else if b[10] != 84 {
        Err(IsoError::ExpectedT)
    } else if n < 19 {
        Err(IsoError::IncompleteTime)
    } else {
        match parsed_int(b.subrange(11, 13), false) {
            None => Err(IsoError::InvalidHour),
            Some(h) => if b[13] != 58 {
                Err(IsoError::InvalidTimeFormat)
            } else {
                match parsed_int(b.subrange(14, 16), false) {
                    None => Err(IsoError::InvalidMinute),
                    Some(mi) => if b[16] != 58 {
                        Err(IsoError::InvalidTimeFormat)
                    } else {
                        match parsed_int(b.subrange(17, 19), false) {
                            None => Err(IsoError::InvalidSecond),
                            Some(sec) => {
                                let tz = b.subrange(19, n as int);
                                if tz.len() == 0 || tz == seq![90u8] {
                                    Ok(iso_total(year, month, day, h, mi, sec, 0))
                                } else if tz.len() == 6 && (tz[0] == 43 || tz[0] == 45) {
                                    match parsed_int(tz.subrange(1, 3), true) {
                                        None => Err(IsoError::InvalidTzHour),
                                        Some(th) => match parsed_int(tz.subrange(4, 6), true) {
                                            None => Err(IsoError::InvalidTzMinute),
                                            Some(tm) => {
                                                let offset = if tz[0] == 43 {
                                                    th * 60 + tm
                                                } else {
                                                    -(th * 60 + tm)
                                                };
                                                Ok(iso_total(year, month, day, h, mi, sec, offset))
                                            },
                                        },
                                    }
                                } else {
                                    Err(IsoError::InvalidTimezone)
                                }
                            },
                        }
                    },
                }
            },
        }
    }
}

/// The reading of an ISO 8601 text (as bytes, already trimmed):
/// `YYYY-MM-DD`, optionally followed by `THH:MM:SS` and then `Z` or an
/// offset `+HH:MM` / `-HH:MM`.
pub open spec fn iso_parse(b: Seq<u8>) -> Result<int, IsoError> {
    if b.len() < 10 {
        Err(IsoError::InvalidDatetime)
    } else {
        match parsed_int(b.subrange(0, 4), true) {
            None => Err(IsoError::InvalidYear),
            Some(year) => if b[4] != 45 {
                Err(IsoError::InvalidDatetime)
            } else {
                match parsed_int(b.subrange(5, 7), false) {
                    None => Err(IsoError::InvalidMonth),
                    Some(month) => if b[7] != 45 {
                        Err(IsoError::InvalidDatetime)
                    } else {
                        match parsed_int(b.subrange(8, 10), false) {
                            None => Err(IsoError::InvalidDay),
                            Some(day) => if !(1 <= month <= 12) || !(1 <= day <= 31) {
                                Err(IsoError::InvalidDateValues)
                            } else {
                                iso_time(b, year, month, day)
                            },
                        }
                    },
                }
            },
        }
    }
}

/// Two ASCII digits.
pub open spec fn two_digits(x: Seq<u8>) -> bool {
    x.len() == 2 && is_digit(x[0]) && is_digit(x[1])
}

/// The UTC offset suffix `+HH:MM` (when `ahead`) or `-HH:MM`.
pub open spec fn offset_suffix(ahead: bool, hh: Seq<u8>, mm: Seq<u8>) -> Seq<u8> {
    seq![if ahead { 43u8 } else { 45u8 }] + hh + seq![58u8] + mm
}

/// The time of day `T00:00:00`.
pub open spec fn midnight() -> Seq<u8> {
    seq![84u8, 48u8, 48u8, 58u8, 48u8, 48u8, 58u8, 48u8, 48u8]
}

/// Appending to a text keeps the fields read from its first 19 bytes.
proof fn lemma_iso_prefix(b: Seq<u8>, suffix: Seq<u8>)
    requires
        b.len() == 19,
    ensures
        ({
            let c = b + suffix;
            &&& forall|k: int| 0 <= k < 19 ==> #[trigger] c[k] == b[k]
            &&& c.subrange(0, 4) == b.subrange(0, 4)
            &&& c.subrange(5, 7) == b.subrange(5, 7)
            &&& c.subrange(8, 10) == b.subrange(8, 10)
            &&& c.subrange(11, 13) == b.subrange(11, 13)
            &&& c.subrange(14, 16) == b.subrange(14, 16)
            &&& c.subrange(17, 19) == b.subrange(17, 19)
            &&& c.subrange(19, c.len() as int) == suffix
        }),
{
    let c = b + suffix;
    assert(c.subrange(0, 4) =~= b.subrange(0, 4));
    assert(c.subrange(5, 7) =~= b.subrange(5, 7));
    assert(c.subrange(8, 10) =~= b.subrange(8, 10));
    assert(c.subrange(11, 13) =~= b.subrange(11, 13));
    assert(c.subrange(14, 16) =~= b.subrange(14, 16));
    assert(c.subrange(17, 19) =~= b.subrange(17, 19));
    assert(c.subrange(19, c.len() as int) =~= suffix);
}

/// Two ASCII digits read as a signed field give their value.
proof fn lemma_two_digits(x: Seq<u8>)
    requires
        two_digits(x),
    ensures
        parsed_int(x, true) == Some(digits_value(x)),
        digits_value(x) == (x[0] - 48) * 10 + (x[1] - 48),
{
    assert(all_digits(x));
    let first = x.drop_last();
    assert(first.drop_last() =~= Seq::<u8>::empty());
    assert(first.last() == x[0]);
    assert(digits_value(first.drop_last()) == 0);
    assert(digits_value(first) == x[0] - 48);
}

/// The suffixed forms of a date-time are read consistently: `Z` names UTC,
/// `+HH:MM` a zone ahead of UTC (the instant is earlier by the offset),
/// `-HH:MM` a zone behind it (later by the offset), and a date alone is
/// its midnight.
pub proof fn lemma_iso_suffixes(b: Seq<u8>, m: int, hh: Seq<u8>, mm: Seq<u8>)
    requires
        b.len() == 19,
        iso_parse(b) == Ok::<int, IsoError>(m),
        two_digits(hh),
        two_digits(mm),
    ensures
        iso_parse(b + seq![90u8]) == Ok::<int, IsoError>(m),
        iso_parse(b + offset_suffix(true, hh, mm)) == Ok::<int, IsoError>(
            m - (digits_value(hh) * 60 + digits_value(mm)) * 60000,
        ),
        iso_parse(b + offset_suffix(false, hh, mm)) == Ok::<int, IsoError>(
            m + (digits_value(hh) * 60 + digits_value(mm)) * 60000,
        ),
        iso_parse(b.subrange(0, 10)) == iso_parse(b.subrange(0, 10) + midnight()),
{
    lemma_two_digits(hh);
    lemma_two_digits(mm);
    lemma_iso_prefix(b, seq![90u8]);
    let plus = offset_suffix(true, hh, mm);
    let minus = offset_suffix(false, hh, mm);
    lemma_iso_prefix(b, plus);
    lemma_iso_prefix(b, minus);
    assert(plus.subrange(1, 3) =~= hh && plus.subrange(4, 6) =~= mm);
    assert(minus.subrange(1, 3) =~= hh && minus.subrange(4, 6) =~= mm);
    assert(b.subrange(19, 19) =~= Seq::<u8>::empty());
    let d = b.subrange(0, 10);
    let dm = d + midnight();
    assert(dm.subrange(0, 4) =~= d.subrange(0, 4));
    assert(dm.subrange(5, 7) =~= d.subrange(5, 7));
    assert(dm.subrange(8, 10) =~= d.subrange(8, 10));
    assert(dm.subrange(11, 13) =~= seq![48u8, 48u8]);
    assert(dm.subrange(14, 16) =~= seq![48u8, 48u8]);
    assert(dm.subrange(17, 19) =~= seq![48u8, 48u8]);
    assert(dm.subrange(19, 19) =~= Seq::<u8>::empty());
    lemma_two_digits(seq![48u8, 48u8]);
    assert(parsed_int(seq![48u8, 48u8], false) == Some(0int));
}

/// A date `YYYY-MM-DD` reads as the start of that day: the year is read
/// from its first four bytes, the month from bytes 5..7 and the day from
/// bytes 8..10, and the value is that many whole days (of 86 400 000 ms)
/// after 1970-01-01.
pub proof fn lemma_iso_date_fields(b: Seq<u8>, m: int)
    requires
        b.len() == 10,
        iso_parse(b) == Ok::<int, IsoError>(m),
    ensures
        parsed_int(b.subrange(0, 4), true) is Some,
        parsed_int(b.subrange(5, 7), false) is Some,
        parsed_int(b.subrange(8, 10), false) is Some,
        b[4] == 45 && b[7] == 45,
        m == civil_days(
            parsed_int(b.subrange(0, 4), true)->0,
            parsed_int(b.subrange(5, 7), false)->0,
            parsed_int(b.subrange(8, 10), false)->0,
        ) * 86_400_000,
{
}

/// The time of day counts hours, minutes and seconds at their own rates: a
/// date-time `YYYY-MM-DDTHH:MM:SS` reads as its date (at midnight) plus
/// `HH` hours, `MM` minutes and `SS` seconds in milliseconds; in particular
/// it reads `SS` seconds, 1000 ms each, after the same text with `:00`
/// seconds.
pub proof fn lemma_iso_time_fields(b: Seq<u8>, m: int)
    requires
        b.len() == 19,
        iso_parse(b) == Ok::<int, IsoError>(m),
    ensures
        parsed_int(b.subrange(11, 13), false) is Some,
        parsed_int(b.subrange(14, 16), false) is Some,
        parsed_int(b.subrange(17, 19), false) is Some,
        ({
            let h = parsed_int(b.subrange(11, 13), false)->0;
            let mi = parsed_int(b.subrange(14, 16), false)->0;
            let s = parsed_int(b.subrange(17, 19), false)->0;
            &&& iso_parse(b.subrange(0, 10)) == Ok::<int, IsoError>(
                m - (h * 3600 + mi * 60 + s) * 1000,
            )
            &&& iso_parse(b.subrange(0, 17) + seq![48u8, 48u8]) == Ok::<int, IsoError>(m - s * 1000)
        }),
{
    let d = b.subrange(0, 10);
    assert(d.subrange(0, 4) =~= b.subrange(0, 4));
    assert(d.subrange(5, 7) =~= b.subrange(5, 7));
    assert(d.subrange(8, 10) =~= b.subrange(8, 10));
    let c = b.subrange(0, 17) + seq![48u8, 48u8];
    assert(c.subrange(0, 4) =~= b.subrange(0, 4));
    assert(c.subrange(5, 7) =~= b.subrange(5, 7));
    assert(c.subrange(8, 10) =~= b.subrange(8, 10));
    assert(c.subrange(11, 13) =~= b.subrange(11, 13));
    assert(c.subrange(14, 16) =~= b.subrange(14, 16));
    assert(c.subrange(17, 19) =~= seq![48u8, 48u8]);
    assert(c.subrange(19, 19) =~= Seq::<u8>::empty());
    assert(b.subrange(19, 19) =~= Seq::<u8>::empty());
    assert(forall|i: int| 0 <= i < 17 ==> #[trigger] c[i] == b[i]);
    lemma_two_digits(seq![48u8, 48u8]);
    assert(parsed_int(seq![48u8, 48u8], false) == Some(0int));
}

/// The message for a refused text `t`.
pub open spec fn iso_message(k: IsoError, t: Seq<char>) -> Seq<char> {
    let q = "'"@ + t + "'"@;
    match k {
        IsoError::InvalidDatetime => "invalid datetime: "@ + q,
        IsoError::InvalidYear => "invalid year in "@ + q,
        IsoError::InvalidMonth => "invalid month in "@ + q,
        IsoError::InvalidDay => "invalid day in "@ + q,
        IsoError::InvalidDateValues => "invalid date values in "@ + q,
        IsoError::ExpectedT => "expected 'T' separator in "@ + q,
        IsoError::IncompleteTime => "incomplete time in "@ + q,
        IsoError::InvalidHour => "invalid hour in "@ + q,
        IsoError::InvalidTimeFormat => "invalid time format in "@ + q,
        IsoError::InvalidMinute => "invalid minute in "@ + q,
        IsoError::InvalidSecond => "invalid second in "@ + q,
        IsoError::InvalidTzHour => "invalid timezone hour in "@ + q,
        IsoError::InvalidTzMinute => "invalid timezone minute in "@ + q,
        IsoError::InvalidTimezone => "invalid timezone in "@ + q,
    }
}

// ---------------------------------------------------------------------------
// Trimming
// ---------------------------------------------------------------------------

/// Unicode `White_Space`, as `char::is_whitespace` documents it.
pub open spec fn is_ws(c: char) -> bool {
    ||| ('\u{9}' <= c <= '\u{d}')
    ||| c == ' '
    ||| c == '\u{85}'
    ||| c == '\u{a0}'
    ||| c == '\u{1680}'
    ||| ('\u{2000}' <= c <= '\u{200a}')
    ||| c == '\u{2028}'
    ||| c == '\u{2029}'
    ||| c == '\u{202f}'
    ||| c == '\u{205f}'
    ||| c == '\u{3000}'
}

/// `s` without leading and trailing whitespace, as `str::trim` gives it:
/// the part from the first to the last non-whitespace character.
pub open spec fn trimmed(s: Seq<char>) -> Seq<char> {
    if exists|i: int| 0 <= i < s.len() && !is_ws(#[trigger] s[i]) {
        let a = choose|a: int|
            0 <= a < s.len() && !is_ws(#[trigger] s[a]) && forall|j: int|
                0 <= j < a ==> is_ws(#[trigger] s[j]);
        let z = choose|z: int|
            0 <= z < s.len() && !is_ws(#[trigger] s[z]) && forall|j: int|
                z < j < s.len() ==> is_ws(#[trigger] s[j]);
        s.subrange(a, z + 1)
    } else {
        Seq::empty()
    }
}

fn is_ws_char(c: char) -> (r: bool)
    ensures
        r == is_ws(c),
{
    ('\u{9}' <= c && c <= '\u{d}') || c == ' ' || c == '\u{85}' || c == '\u{a0}' || c == '\u{1680}'
        || ('\u{2000}' <= c && c <= '\u{200a}') || c == '\u{2028}' || c == '\u{2029}' || c
        == '\u{202f}' || c == '\u{205f}' || c == '\u{3000}'
}

/// `s` without leading and trailing whitespace.
fn trim(s: &str) -> (r: String)
    ensures
        r@ == trimmed(s@),
{
    let cs = crate::text::chars_of(s);
    let n = cs.len();
    let mut a: usize = 0;
    while a < n && is_ws_char(cs[a])
        invariant
            cs@ == s@,
            n == cs@.len(),
            a <= n,
            forall|j: int| 0 <= j < a ==> is_ws(#[trigger] cs@[j]),
        decreases n - a,
    {
        a = a + 1;
    }
    if a == n {
        assert(!exists|i: int| 0 <= i < s@.len() && !is_ws(#[trigger] s@[i]));
        return String::new();
    }
    let mut z: usize = n - 1;
    while is_ws_char(cs[z])
        invariant
            cs@ == s@,
            n == cs@.len(),
            a < n,
            !is_ws(cs@[a as int]),
            a <= z < n,
            forall|j: int| z < j < n ==> is_ws(#[trigger] cs@[j]),
        decreases z,
    {
        z = z - 1;
    }
    proof {
        let sa = choose|x: int|
            0 <= x < s@.len() && !is_ws(#[trigger] s@[x]) && forall|j: int|
                0 <= j < x ==> is_ws(#[trigger] s@[j]);
        let sz = choose|x: int|
            0 <= x < s@.len() && !is_ws(#[trigger] s@[x]) && forall|j: int|
                x < j < s@.len() ==> is_ws(#[trigger] s@[j]);
        assert(0 <= a < s@.len() && !is_ws(s@[a as int]) && forall|j: int|
            0 <= j < a ==> is_ws(#[trigger] s@[j]));
        assert(0 <= z < s@.len() && !is_ws(s@[z as int]) && forall|j: int|
            z < j < s@.len() ==> is_ws(#[trigger] s@[j]));
        if sa < a {
            assert(is_ws(s@[sa]));
        }
        if a < sa {
            assert(is_ws(s@[a as int]));
        }
        if sz < z {
            assert(is_ws(s@[z as int]));
        }
        if z < sz {
            assert(is_ws(s@[sz]));
        }
    }
    substring(s, a, z + 1)
}

// ---------------------------------------------------------------------------
// The reading of a text
// ---------------------------------------------------------------------------

/// What `parse_iso8601_to_millis` reads from a text: the ISO 8601 reading of
/// its UTF-8 bytes once surrounding whitespace is trimmed.
pub open spec fn iso_reading(s: Seq<char>) -> Result<int, IsoError> {
    iso_parse(encode_utf8(trimmed(s)))
}

/// Two ASCII digit characters.
pub open spec fn digit_chars(x: Seq<char>) -> bool {
    x.len() == 2 && '0' <= x[0] <= '9' && '0' <= x[1] <= '9'
}

/// The value of two ASCII digit characters.
pub open spec fn two_digit_value(x: Seq<char>) -> int {
    (x[0] as int - 48) * 10 + (x[1] as int - 48)
}

/// A text that starts and ends with a non-whitespace character is its own
/// trimming.
proof fn lemma_trimmed_whole(s: Seq<char>)
    requires
        s.len() > 0,
        !is_ws(s[0]),
        !is_ws(s[s.len() - 1]),
    ensures
        trimmed(s) == s,
{
    assert(0 <= 0 < s.len() && !is_ws(s[0]));
    let a = choose|a: int|
        0 <= a < s.len() && !is_ws(#[trigger] s[a]) && forall|j: int|
            0 <= j < a ==> is_ws(#[trigger] s[j]);
    let z = choose|z: int|
        0 <= z < s.len() && !is_ws(#[trigger] s[z]) && forall|j: int|
            z < j < s.len() ==> is_ws(#[trigger] s[j]);
    assert(0 <= 0 < s.len() && !is_ws(s[0]) && forall|j: int| 0 <= j < 0 ==> is_ws(#[trigger] s[j]));
    assert(0 <= s.len() - 1 < s.len() && !is_ws(s[s.len() - 1]) && forall|j: int|
        s.len() - 1 < j < s.len() ==> is_ws(#[trigger] s[j]));
    if a > 0 {
        assert(is_ws(s[0]));
    }
    if z < s.len() - 1 {
        assert(is_ws(s[s.len() - 1]));
    }
    assert(s.subrange(a, z + 1) =~= s);
}

/// The UTF-8 encoding of ASCII texts is one byte per character, and
/// encoding a concatenation concatenates the encodings.
proof fn lemma_ascii_concat(x: Seq<char>, y: Seq<char>)
    requires
        is_ascii_chars(x),
        is_ascii_chars(y),
    ensures
        is_ascii_chars(x + y),
        encode_utf8(x + y) == encode_utf8(x) + encode_utf8(y),
        encode_utf8(x).len() == x.len(),
{
    let xy = x + y;
    assert(is_ascii_chars(xy)) by {
        assert forall|i: int| 0 <= i < xy.len() implies '\0' <= #[trigger] xy[i] <= '\u{7f}' by {
            if i < x.len() {
                assert(xy[i] == x[i]);
            } else {
                assert(xy[i] == y[i - x.len()]);
            }
        }
    }
    is_ascii_chars_encode_utf8(x);
    is_ascii_chars_encode_utf8(y);
    is_ascii_chars_encode_utf8(xy);
    let l = encode_utf8(xy);
    let r = encode_utf8(x) + encode_utf8(y);
    assert forall|i: int| 0 <= i < l.len() implies l[i] == r[i] by {
        if i < x.len() {
            assert(xy[i] == x[i]);
            assert(encode_utf8(x)[i] == x[i] as u8);
        } else {
            assert(xy[i] == y[i - x.len()]);
            assert(encode_utf8(y)[i - x.len()] == y[i - x.len()] as u8);
        }
    }
    assert(l =~= r);
}

/// A two-byte field read by `str::parse` ends with a digit, and starts with
/// a digit or a sign.
proof fn lemma_field_bytes(x: Seq<u8>, signed: bool)
    requires
        x.len() >= 2,
        parsed_int(x, signed) is Some,
    ensures
        is_digit(x[x.len() - 1]),
        is_digit(x[0]) || x[0] == 43 || x[0] == 45,
{
    if x.len() > 0 && x[0] == 43 {
        assert(x.skip(1)[x.len() - 2] == x[x.len() - 1]);
    } else if x.len() > 0 && x[0] == 45 && signed {
        assert(x.skip(1)[x.len() - 2] == x[x.len() - 1]);
    } else {
        assert(is_digit(x[x.len() - 1]));
        assert(is_digit(x[0]));
    }
}

/// An ASCII character that encodes as a byte other than a whitespace byte
/// is not whitespace.
proof fn lemma_ascii_not_ws(c: char, b: u8)
    requires
        '\0' <= c <= '\u{7f}',
        c as u8 == b,
        is_digit(b) || b == 43 || b == 45 || b == 90,
    ensures
        !is_ws(c),
{
    lemma_ascii_byte(c);
}

/// The suffixed forms of a date-time text, as `parse_iso8601_to_millis`
/// reads texts: `Z` names UTC, `+HH:MM` a zone ahead of UTC (the instant is
/// earlier by the offset), `-HH:MM` a zone behind it (later by the offset),
/// and a date alone is its midnight `THH:MM:SS` = `T00:00:00`.
pub proof fn lemma_iso_text_suffixes(t: Seq<char>, m: int, hh: Seq<char>, mm: Seq<char>)
    requires
        t.len() == 19,
        is_ascii_chars(t),
        iso_parse(encode_utf8(t)) == Ok::<int, IsoError>(m),
        digit_chars(hh),
        digit_chars(mm),
    ensures
        iso_reading(t) == Ok::<int, IsoError>(m),
        iso_reading(t + seq!['Z']) == Ok::<int, IsoError>(m),
        iso_reading(t + seq!['+'] + hh + seq![':'] + mm) == Ok::<int, IsoError>(
            m - (two_digit_value(hh) * 60 + two_digit_value(mm)) * 60000,
        ),
        iso_reading(t + seq!['-'] + hh + seq![':'] + mm) == Ok::<int, IsoError>(
            m + (two_digit_value(hh) * 60 + two_digit_value(mm)) * 60000,
        ),
        iso_reading(t.subrange(0, 10)) == iso_reading(
            t.subrange(0, 10) + seq!['T', '0', '0', ':', '0', '0', ':', '0', '0'],
        ),
{
    let b = encode_utf8(t);
    is_ascii_chars_encode_utf8(t);
    lemma_iso_ends(b);
    lemma_ascii_not_ws(t[0], b[0]);
    lemma_ascii_not_ws(t[18], b[18]);
    lemma_trimmed_whole(t);
    lemma_digit_chars(hh);
    lemma_digit_chars(mm);
    lemma_iso_suffixes(b, m, encode_utf8(hh), encode_utf8(mm));
    lemma_zulu_text(t, b);
    lemma_offset_text(t, b, true, hh, mm);
    lemma_offset_text(t, b, false, hh, mm);
    lemma_date_text(t, b);
}

/// What a successful reading of 19 bytes shows of their ends: the first is
/// a digit or a sign, the tenth and the last are digits.
proof fn lemma_iso_ends(b: Seq<u8>)
    requires
        b.len() == 19,
        iso_parse(b) is Ok,
    ensures
        is_digit(b[0]) || b[0] == 43 || b[0] == 45,
        is_digit(b[9]),
        is_digit(b[18]),
{
    assert(parsed_int(b.subrange(0, 4), true) is Some);
    assert(parsed_int(b.subrange(8, 10), false) is Some);
    assert(parsed_int(b.subrange(17, 19), false) is Some);
    lemma_field_bytes(b.subrange(0, 4), true);
    lemma_field_bytes(b.subrange(8, 10), false);
    lemma_field_bytes(b.subrange(17, 19), false);
    assert(b.subrange(0, 4)[0] == b[0]);
    assert(b.subrange(8, 10)[1] == b[9]);
    assert(b.subrange(17, 19)[1] == b[18]);
}

/// A date-time text followed by `Z` reads as its bytes followed by `Z`.
proof fn lemma_zulu_text(t: Seq<char>, b: Seq<u8>)
    requires
        t.len() == 19,
        is_ascii_chars(t),
        b == encode_utf8(t),
        is_digit(b[0]) || b[0] == 43 || b[0] == 45,
    ensures
        iso_reading(t + seq!['Z']) == iso_parse(b + seq![90u8]),
{
    let z = seq!['Z'];
    assert(is_ascii_chars(z));
    lemma_ascii_concat(t, z);
    is_ascii_chars_encode_utf8(t);
    is_ascii_chars_encode_utf8(z);
    lemma_ascii_byte('Z');
    assert(encode_utf8(z) =~= seq![90u8]);
    let tz = t + z;
    lemma_ascii_not_ws(tz[0], b[0]);
    lemma_ascii_not_ws(tz[19], 90);
    lemma_trimmed_whole(tz);
}

/// The date part of a date-time text, alone or followed by `T00:00:00`,
/// reads as the corresponding bytes.
proof fn lemma_date_text(t: Seq<char>, b: Seq<u8>)
    requires
        t.len() == 19,
        is_ascii_chars(t),
        b == encode_utf8(t),
        is_digit(b[0]) || b[0] == 43 || b[0] == 45,
        is_digit(b[9]),
    ensures
        iso_reading(t.subrange(0, 10)) == iso_parse(b.subrange(0, 10)),
        iso_reading(t.subrange(0, 10) + seq!['T', '0', '0', ':', '0', '0', ':', '0', '0'])
            == iso_parse(b.subrange(0, 10) + midnight()),
{
    is_ascii_chars_encode_utf8(t);
    let d = t.subrange(0, 10);
    assert(is_ascii_chars(d));
    is_ascii_chars_encode_utf8(d);
    assert(encode_utf8(d) =~= b.subrange(0, 10));
    lemma_ascii_not_ws(d[0], b[0]);
    lemma_ascii_not_ws(d[9], b[9]);
    lemma_trimmed_whole(d);
    lemma_midnight_text(d, b.subrange(0, 10));
}

/// A date text followed by `T00:00:00` reads as its bytes followed by those
/// of `T00:00:00`.
proof fn lemma_midnight_text(d: Seq<char>, bd: Seq<u8>)
    requires
        d.len() == 10,
        is_ascii_chars(d),
        bd == encode_utf8(d),
        is_digit(bd[0]) || bd[0] == 43 || bd[0] == 45,
    ensures
        iso_reading(d + seq!['T', '0', '0', ':', '0', '0', ':', '0', '0']) == iso_parse(
            bd + midnight(),
        ),
{
    let mid = seq!['T', '0', '0', ':', '0', '0', ':', '0', '0'];
    assert(is_ascii_chars(mid));
    lemma_ascii_concat(d, mid);
    is_ascii_chars_encode_utf8(d);
    is_ascii_chars_encode_utf8(mid);
    lemma_ascii_byte('T');
    lemma_ascii_byte('0');
    lemma_ascii_byte(':');
    assert(encode_utf8(mid) =~= midnight());
    let dm = d + mid;
    assert(dm[0] == d[0]);
    lemma_ascii_not_ws(dm[0], bd[0]);
    lemma_ascii_not_ws(dm[18], 48);
    lemma_trimmed_whole(dm);
}

/// An ASCII character encodes as the byte of its own value.
proof fn lemma_ascii_byte(c: char)
    requires
        '\0' <= c <= '\u{7f}',
    ensures
        c as u8 as int == c as int,
{
    let u = c as u32;
    assert(u <= 127 ==> (u as u8) as u32 == u) by (bit_vector);
}

/// Two ASCII digit characters encode as two ASCII digit bytes of the same
/// value.
proof fn lemma_digit_chars(x: Seq<char>)
    requires
        digit_chars(x),
    ensures
        is_ascii_chars(x),
        two_digits(encode_utf8(x)),
        digits_value(encode_utf8(x)) == two_digit_value(x),
        encode_utf8(x) =~= seq![x[0] as u8, x[1] as u8],
{
    assert(is_ascii_chars(x));
    is_ascii_chars_encode_utf8(x);
    lemma_ascii_byte(x[0]);
    lemma_ascii_byte(x[1]);
    lemma_two_digits(encode_utf8(x));
}

/// A date-time text followed by an offset `+HH:MM` (when `ahead`) or
/// `-HH:MM` reads as its bytes followed by the offset's bytes.
proof fn lemma_offset_text(t: Seq<char>, b: Seq<u8>, ahead: bool, hh: Seq<char>, mm: Seq<char>)
    requires
        t.len() == 19,
        is_ascii_chars(t),
        b == encode_utf8(t),
        digit_chars(hh),
        digit_chars(mm),
        is_digit(b[0]) || b[0] == 43 || b[0] == 45,
    ensures
        iso_reading(t + seq![if ahead { '+' } else { '-' }] + hh + seq![':'] + mm) == iso_parse(
            b + offset_suffix(ahead, encode_utf8(hh), encode_utf8(mm)),
        ),
{
    let sign = if ahead { '+' } else { '-' };
    let x = seq![sign] + hh + seq![':'] + mm;
    lemma_digit_chars(hh);
    lemma_digit_chars(mm);
    assert(x.len() == 6);
    assert(is_ascii_chars(x)) by {
        assert forall|i: int| 0 <= i < x.len() implies '\0' <= #[trigger] x[i] <= '\u{7f}' by {
            if i == 1 || i == 2 {
                assert(x[i] == hh[i - 1]);
            } else if i >= 4 {
                assert(x[i] == mm[i - 4]);
            }
        }
    }
    let whole = t + seq![sign] + hh + seq![':'] + mm;
    assert(whole =~= t + x);
    lemma_ascii_concat(t, x);
    is_ascii_chars_encode_utf8(x);
    lemma_ascii_byte(sign);
    lemma_ascii_byte(':');
    let o = offset_suffix(ahead, encode_utf8(hh), encode_utf8(mm));
    assert forall|i: int| 0 <= i < 6 implies encode_utf8(x)[i] == o[i] by {
        if i == 1 || i == 2 {
            assert(x[i] == hh[i - 1]);
        } else if i >= 4 {
            assert(x[i] == mm[i - 4]);
        }
    }
    assert(encode_utf8(x) =~= o);
    lemma_ascii_byte(mm[1]);
    is_ascii_chars_encode_utf8(t);
    lemma_ascii_not_ws(whole[0], b[0]);
    assert(whole[24] == mm[1]);
    lemma_ascii_not_ws(whole[24], mm[1] as u8);
    lemma_trimmed_whole(whole);
}

// ---------------------------------------------------------------------------
// The parser
// ---------------------------------------------------------------------------

/// `prefix` followed by `'t'`.
fn quoted_message(prefix: &str, t: &str) -> (r: String)
    ensures
        r@ == prefix@ + ("'"@ + t@ + "'"@),
{
    let mut m = owned(prefix);
    m.append("'");
    m.append(t);
    m.append("'");
    proof {
        reveal_strlit("'");
    }
    assert(m@ =~= prefix@ + ("'"@ + t@ + "'"@));
    m
}

/// The model of a reading result.
pub open spec fn res_view(r: Result<i64, IsoError>) -> Result<int, IsoError> {
    match r {
        Ok(v) => Ok(v as int),
        Err(k) => Err(k),
    }
}

/// The message for a refused text.
fn iso_error_message(k: IsoError, t: &str) -> (r: String)
    ensures
        r@ == iso_message(k, t@),
{
    let prefix = match k {
        IsoError::InvalidDatetime => "invalid datetime: ",
        IsoError::InvalidYear => "invalid year in ",
        IsoError::InvalidMonth => "invalid month in ",
        IsoError::InvalidDay => "invalid day in ",
        IsoError::InvalidDateValues => "invalid date values in ",
        IsoError::ExpectedT => "expected 'T' separator in ",
        IsoError::IncompleteTime => "incomplete time in ",
        IsoError::InvalidHour => "invalid hour in ",
        IsoError::InvalidTimeFormat => "invalid time format in ",
        IsoError::InvalidMinute => "invalid minute in ",
        IsoError::InvalidSecond => "invalid second in ",
        IsoError::InvalidTzHour => "invalid timezone hour in ",
        IsoError::InvalidTzMinute => "invalid timezone minute in ",
        IsoError::InvalidTimezone => "invalid timezone in ",
    };
    quoted_message(prefix, t)
}

/// Reads the offset at byte 19 on: nothing, `Z`, or `+HH:MM` / `-HH:MM`
/// (the byte between hours and minutes is not looked at).
fn read_offset(b: &[u8]) -> (r: Result<i64, IsoError>)
    requires
        b@.len() >= 19,
    ensures
        ({
            let tz = b@.subrange(19, b@.len() as int);
            if tz.len() == 0 || tz == seq![90u8] {
                r == Ok::<i64, IsoError>(0)
            } else if tz.len() == 6 && (tz[0] == 43 || tz[0] == 45) {
                match parsed_int(tz.subrange(1, 3), true) {
                    None => r == Err::<i64, IsoError>(IsoError::InvalidTzHour),
                    Some(th) => match parsed_int(tz.subrange(4, 6), true) {
                        None => r == Err::<i64, IsoError>(IsoError::InvalidTzMinute),
                        Some(tm) => r matches Ok(x) && x == (if tz[0] == 43 {
                            th * 60 + tm
                        } else {
                            -(th * 60 + tm)
                        }) && -10000 < x < 10000,
                    },
                }
            } else {
                r == Err::<i64, IsoError>(IsoError::InvalidTimezone)
            }
        }),
{
    let n = b.len();
    assert(pow10(2) == 100) by {
        reveal_with_fuel(pow10, 3);
    }
    let ghost tzb = b@.subrange(19, n as int);
    if n == 20 {
        if b[19] == 90 {
            assert(tzb =~= seq![90u8]);
        } else {
            assert(tzb[0] != seq![90u8][0]);
        }
    }
    assert(tzb.len() == 6 ==> tzb.subrange(1, 3) =~= b@.subrange(20, 22) && tzb.subrange(4, 6)
        =~= b@.subrange(23, 25));
    if n == 19 || (n == 20 && b[19] == 90) {
        Ok(0)
    } else if n == 25 && (b[19] == 43 || b[19] == 45) {
        let th = match parse_small(b, 20, 22, true) {
            Some(v) => v,
            None => {
                return Err(IsoError::InvalidTzHour);
            },
        };
        let tm = match parse_small(b, 23, 25, true) {
            Some(v) => v,
            None => {
                return Err(IsoError::InvalidTzMinute);
            },
        };
        if b[19] == 43 {
            Ok(th * 60 + tm)
        } else {
            Ok(-(th * 60 + tm))
        }
    } else {
        Err(IsoError::InvalidTimezone)
    }
}

/// Reads the time part from byte 10 on, for a date already read.
fn read_time(b: &[u8], year: i64, month: i64, day: i64) -> (r: Result<i64, IsoError>)
    requires
        b@.len() >= 10,
        -10000 < year < 10000,
        1 <= month <= 12,
        1 <= day <= 31,
    ensures
        res_view(r) == iso_time(b@, year as int, month as int, day as int),
{
    let n = b.len();
    let mut hour: i64 = 0;
    let mut minute: i64 = 0;
    let mut second: i64 = 0;
    let mut tz: i64 = 0;
    if n > 10 {
        if b[10] != 84 {
            return Err(IsoError::ExpectedT);
        }
        if n < 19 {
            return Err(IsoError::IncompleteTime);
        }
        hour = match parse_small(b, 11, 13, false) {
            Some(v) => v,
            None => {
                return Err(IsoError::InvalidHour);
            },
        };
        if b[13] != 58 {
            return Err(IsoError::InvalidTimeFormat);
        }
        minute = match parse_small(b, 14, 16, false) {
            Some(v) => v,
            None => {
                return Err(IsoError::InvalidMinute);
            },
        };
        if b[16] != 58 {
            return Err(IsoError::InvalidTimeFormat);
        }
        second = match parse_small(b, 17, 19, false) {
            Some(v) => v,
            None => {
                return Err(IsoError::InvalidSecond);
            },
        };
        tz = match read_offset(b) {
            Ok(v) => v,
            Err(k) => {
                return Err(k);
            },
        };
    }
    proof {
        lemma_civil_small(year, month as u32, day as u32);
    }
    let days = days_from_civil(year, month as u32, day as u32);
    let total = days * 86400 + hour * 3600 + minute * 60 + second - tz * 60;
    Ok(total * 1000)
}

/// Reads an ISO 8601 text, given as bytes.
fn read_iso(b: &[u8]) -> (r: Result<i64, IsoError>)
    ensures
        res_view(r) == iso_parse(b@),
{
    let n = b.len();
    if n < 10 {
        return Err(IsoError::InvalidDatetime);
    }
    let year = match parse_small(b, 0, 4, true) {
        Some(v) => v,
        None => {
            return Err(IsoError::InvalidYear);
        },
    };
    if b[4] != 45 {
        return Err(IsoError::InvalidDatetime);
    }
    let month = match parse_small(b, 5, 7, false) {
        Some(v) => v,
        None => {
            return Err(IsoError::InvalidMonth);
        },
    };
    if b[7] != 45 {
        return Err(IsoError::InvalidDatetime);
    }
    let day = match parse_small(b, 8, 10, false) {
        Some(v) => v,
        None => {
            return Err(IsoError::InvalidDay);
        },
    };
    if !(1 <= month && month <= 12) || !(1 <= day && day <= 31) {
        return Err(IsoError::InvalidDateValues);
    }
    read_time(b, year, month, day)
}

/// Parses an ISO 8601 text to milliseconds since the Unix epoch. Supports
/// `YYYY-MM-DD`, `YYYY-MM-DDTHH:MM:SS`, `YYYY-MM-DDTHH:MM:SSZ` and
/// `YYYY-MM-DDTHH:MM:SS+HH:MM` (or `-HH:MM`), around optional whitespace.
pub fn parse_iso8601_to_millis(s: &str) -> (r: Result<i64, String>)
    ensures
        match iso_reading(s@) {
            Ok(v) => r == Ok::<i64, String>(v as i64),
            Err(k) => r matches Err(m) && m@ == iso_message(k, trimmed(s@)),
        },
{
    let t = trim(s);
    let ts = t.as_str();
    let b = ts.as_bytes();
    match read_iso(b) {
        Ok(v) => Ok(v),
        Err(k) => Err(iso_error_message(k, ts)),
    }
}

} // verus!
