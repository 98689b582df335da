//! Instants: Unix milliseconds and the ISO 8601 text that the session journal
//! carries.
use vstd::prelude::*;
use crate::number::{
    digits_value, in_i64, lemma_padded_ascii, lemma_padded_order, lemma_padded_reads_back, padded, padded_text, pow10, read_digits,
};
use crate::text::{chars_of, joined};

verus! {

/// The days from 1970-01-01 to a date of the proleptic Gregorian calendar.
///
/// Years are counted from March, in eras of 400 years of 146097 days; month
/// `mp` of such a year begins `(153 * mp + 2) / 5` days into it.
pub open spec fn civil_days(year: int, month: int, day: int) -> int {
    let y = if month <= 2 {
        year - 1
    } else {
        year
    };
    let era = y / 400;
    let yoe = y % 400;
    let mp = if month > 2 {
        month - 3
    } else {
        month + 9
    };
    era * 146097 + year_start(yoe) + month_start(mp) + day - 1 - 719468
}

/// The days of an era before its year `yoe`.
pub open spec fn year_start(yoe: int) -> int {
    yoe * 365 + yoe / 4 - yoe / 100
}

/// The days of a year, from March, before its month `mp`; rounded toward zero.
pub open spec fn month_start(mp: int) -> int {
    let n = 153 * mp + 2;
    if n >= 0 {
        n / 5
    } else {
        -((-n) / 5)
    }
}

/// The year, month and day that is `z` days after 1970-01-01.
pub open spec fn civil_date(z: int) -> (int, int, int) {
    let n = z + 719468;
    let era = n / 146097;
    let doe = n % 146097;
    let yoe = (doe - doe / 1460 + doe / 36524 - doe / 146096) / 365;
    let doy = doe - year_start(yoe);
    let mp = (5 * doy + 2) / 153;
    let day = doy - (153 * mp + 2) / 5 + 1;
    let month = if mp < 10 {
        mp + 3
    } else {
        mp - 9
    };
    (if month <= 2 { yoe + era * 400 + 1 } else { yoe + era * 400 }, month, day)
}

/// The days from 1970-01-01 to a date.
pub fn days_from_civil(year: i64, month: i64, day: i64) -> (r: i64)
    requires
        in_i64(civil_days(year as int, month as int, day as int)),
    ensures
        r == civil_days(year as int, month as int, day as int),
{
    days_wide(year, month, day) as i64
}

/// The days from 1970-01-01 to a date, whatever the year.
pub fn days_wide(year: i64, month: i64, day: i64) -> (r: i128)
    ensures
        r == civil_days(year as int, month as int, day as int),
        -0x1_0000_0000_0000_0000_0000 <= r <= 0x1_0000_0000_0000_0000_0000,
{
    let y: i128 = if month <= 2 {
        year as i128 - 1
    } else {
        year as i128
    };
    let era: i128 = if y >= 0 {
        y / 400
    } else {
        (y - 399) / 400
    };
    let yoe: i128 = y - era * 400;
    proof {
        lemma_era(y as int, 400);
        assert(era == y as int / 400);
        assert(yoe == y as int % 400);
    }
    let mp: i128 = if month > 2 {
        month as i128 - 3
    } else {
        month as i128 + 9
    };
    let start: i128 = (153 * mp + 2) / 5;
    let doy: i128 = start + day as i128 - 1;
    let doe: i128 = yoe * 365 + yoe / 4 - yoe / 100 + doy;
    era * 146_097 + doe - 719_468
}

/// Division that rounds down, by one that rounds toward zero.
proof fn lemma_era(y: int, n: int)
    requires
        n == 400 || n == 146097,
    ensures
        y >= 0 ==> y / n >= 0,
        y < 0 ==> -((n - 1 - y) / n) == y / n,
{
}

/// The date that is `z` days after 1970-01-01.
pub fn civil_from_days(z: i64) -> (r: (i64, i64, i64))
    requires
        z <= i64::MAX - 719_468,
        z >= i64::MIN + 719_468,
    ensures
        (r.0 as int, r.1 as int, r.2 as int) == civil_date(z as int),
        1 <= r.1 <= 12,
        1 <= r.2 <= 31,
        civil_date(z as int).0 == r.0,
{
    let n: i128 = z as i128 + 719_468;
    let era: i128 = if n >= 0 {
        n / 146_097
    } else {
        (n - 146_096) / 146_097
    };
    let doe: i128 = n - era * 146_097;
    proof {
        lemma_era(n as int, 146097);
        assert(era == n as int / 146097);
        assert(doe == n as int % 146097);
        lemma_year_of_era(doe as int);
        lemma_month_of_year(doe as int - year_start(year_of_era(doe as int)));
    }
    let yoe: i128 = (doe - doe / 1460 + doe / 36524 - doe / 146_096) / 365;
    let y: i128 = yoe + era * 400;
    let doy: i128 = doe - (365 * yoe + yoe / 4 - yoe / 100);
    let mp: i128 = (5 * doy + 2) / 153;
    let day: i128 = doy - (153 * mp + 2) / 5 + 1;
    let month: i128 = if mp < 10 {
        mp + 3
    } else {
        mp - 9
    };
    let year: i128 = if month <= 2 {
        y + 1
    } else {
        y
    };
    (year as i64, month as i64, day as i64)
}

pub open spec fn year_of_era(doe: int) -> int {
    (doe - doe / 1460 + doe / 36524 - doe / 146096) / 365
}

/// The year of a day of an era is the one in which the day falls.
proof fn lemma_year_of_era(doe: int)
    requires
        0 <= doe <= 146096,
    ensures
        0 <= year_of_era(doe) <= 399,
        year_start(year_of_era(doe)) <= doe,
        doe - year_start(year_of_era(doe)) <= 365,
        year_of_era(doe) < 399 ==> doe < year_start(year_of_era(doe) + 1),
{
    let e = doe / 36524 - doe / 146096;
    assert(0 <= e <= 3);
    if e == 0 {
        lemma_year_of_century(doe, 0);
    } else if e == 1 {
        lemma_year_of_century(doe, 1);
    } else if e == 2 {
        lemma_year_of_century(doe, 2);
    } else {
        lemma_year_of_century(doe, 3);
    }
}

#[verifier::spinoff_prover]
#[verifier::rlimit(80)]
proof fn lemma_year_of_century(doe: int, c: int)
    requires
        c == 0 || c == 1 || c == 2 || c == 3,
        36524 * c <= doe < 36524 * (c + 1) || (c == 3 && doe == 146096),
        doe / 36524 - doe / 146096 == c,
    ensures
        0 <= year_of_era(doe) <= 399,
        year_start(year_of_era(doe)) <= doe,
        doe - year_start(year_of_era(doe)) <= 365,
        year_of_era(doe) < 399 ==> doe < year_start(year_of_era(doe) + 1),
{
    let yoe = year_of_era(doe);
    let q = doe / 1460;
    assert(yoe == (doe - q + c) / 365);
    if c == 0 {
        assert(0 <= yoe <= 99);
    } else if c == 1 {
        assert(100 <= yoe <= 199);
    } else if c == 2 {
        assert(200 <= yoe <= 299);
    } else {
        assert(300 <= yoe <= 399);
    }
}

/// The month of a day of a year is the one in which the day falls.
proof fn lemma_month_of_year(doy: int)
    requires
        0 <= doy <= 365,
    ensures
        ({
            let mp = (5 * doy + 2) / 153;
            &&& 0 <= mp <= 11
            &&& (153 * mp + 2) / 5 <= doy
            &&& doy < (153 * (mp + 1) + 2) / 5
            &&& 0 <= doy - (153 * mp + 2) / 5 <= 30
        }),
{
}

pub open spec fn is_leap(year: int) -> bool {
    year % 4 == 0 && (year % 100 != 0 || year % 400 == 0)
}

pub open spec fn days_in_month(year: int, month: int) -> int {
    if month == 2 {
        if is_leap(year) {
            29
        } else {
            28
        }
    } else if month == 4 || month == 6 || month == 9 || month == 11 {
        30
    } else {
        31
    }
}

pub open spec fn is_date(year: int, month: int, day: int) -> bool {
    1 <= month <= 12 && 1 <= day <= days_in_month(year, month)
}

/// A number of days leads to a date of the calendar, and counting the days up to
/// that date gives back the number.
#[verifier::spinoff_prover]
#[verifier::rlimit(50)]
pub proof fn law_days_of_date(z: int)
    ensures
        civil_days(civil_date(z).0, civil_date(z).1, civil_date(z).2) == z,
        is_date(civil_date(z).0, civil_date(z).1, civil_date(z).2),
{
    let n = z + 719468;
    let era = n / 146097;
    let doe = n % 146097;
    lemma_year_of_era(doe);
    let yoe = year_of_era(doe);
    let doy = doe - year_start(yoe);
    lemma_month_of_year(doy);
    let y = yoe + era * 400;
    assert(y / 400 == era && y % 400 == yoe);
    let mp = (5 * doy + 2) / 153;
    if mp == 11 {
        let year = y + 1;
        lemma_leap(year, era, yoe);
        assert(month_start(11) == 337);
        assert(doy == 365 ==> is_leap(year));
    }
}

/// A year is a leap year by its place in the era, whose years begin in March of
/// the year before.
proof fn lemma_leap(year: int, era: int, yoe: int)
    requires
        year == era * 400 + yoe + 1,
        0 <= yoe <= 399,
    ensures
        is_leap(year) == (yoe == 399 || ((yoe + 1) % 4 == 0 && (yoe + 1) % 100 != 0)),
{
    vstd::arithmetic::div_mod::lemma_mod_multiples_vanish(era * 100, yoe + 1, 4);
    vstd::arithmetic::div_mod::lemma_mod_multiples_vanish(era * 4, yoe + 1, 100);
    vstd::arithmetic::div_mod::lemma_mod_multiples_vanish(era, yoe + 1, 400);
}

/// The date that lies as many days off as a date does is that date.
#[verifier::spinoff_prover]
#[verifier::rlimit(80)]
pub proof fn law_date_of_days(year: int, month: int, day: int)
    requires
        is_date(year, month, day),
    ensures
        civil_date(civil_days(year, month, day)) == (year, month, day),
{
    let y = if month <= 2 {
        year - 1
    } else {
        year
    };
    let era = y / 400;
    let yoe = y % 400;
    let mp = if month > 2 {
        month - 3
    } else {
        month + 9
    };
    let doy = month_start(mp) + day - 1;
    let doe = year_start(yoe) + doy;
    assert(0 <= mp <= 11);
    if mp == 11 {
        assert(month == 2);
        lemma_leap(year, era, yoe);
    }
    assert(0 <= doy <= 365);
    assert(yoe < 399 ==> doe < year_start(yoe + 1));
    assert(0 <= doe <= 146096);
    let z = civil_days(year, month, day);
    let n = z + 719468;
    assert(n == era * 146097 + doe);
    assert(n / 146097 == era && n % 146097 == doe);
    lemma_year_of_era(doe);
    let got = year_of_era(doe);
    if got < yoe {
        lemma_year_start_grows(got + 1, yoe);
    } else if yoe < got {
        lemma_year_start_grows(yoe + 1, got);
    }
    assert(got == yoe);
    lemma_month_of_year(doy);
}

proof fn lemma_year_start_grows(a: int, b: int)
    requires
        0 <= a <= b,
    ensures
        year_start(a) <= year_start(b),
{
}

/// A year with at least four characters.
pub open spec fn year_text(year: int) -> Seq<char> {
    if year >= 0 {
        padded(year as nat, 4)
    } else {
        seq!['-'] + padded((-year) as nat, 3)
    }
}

/// An instant in ISO 8601: UTC, with milliseconds.
pub open spec fn iso_text(ms: int) -> Seq<char> {
    let (year, month, day) = civil_date(ms / 86_400_000);
    let rem = ms % 86_400_000;
    layout(
        year_text(year),
        padded(month as nat, 2),
        padded(day as nat, 2),
        padded((rem / 3_600_000) as nat, 2),
        padded((rem / 60_000 % 60) as nat, 2),
        padded((rem / 1000 % 60) as nat, 2),
        padded((rem % 1000) as nat, 3),
    )
}

/// The instant that a text of the journal's one layout gives; none for another
/// layout.
pub open spec fn iso_instant(s: Seq<char>) -> Option<int> {
    if s.len() == 24 && s[4] == '-' && s[7] == '-' && s[10] == 'T' && s[13] == ':' && s[16] == ':' && s[19]
        == '.' && s[23] == 'Z' {
        match (
            digits_value(s.subrange(0, 4), 10),
            digits_value(s.subrange(5, 7), 10),
            digits_value(s.subrange(8, 10), 10),
            digits_value(s.subrange(11, 13), 10),
            digits_value(s.subrange(14, 16), 10),
            digits_value(s.subrange(17, 19), 10),
            digits_value(s.subrange(20, 23), 10),
        ) {
            (Some(year), Some(month), Some(day), Some(hour), Some(minute), Some(second), Some(millis)) => Some(
                civil_days(year as int, month as int, day as int) * 86_400_000 + hour * 3_600_000 + minute * 60_000
                    + second * 1000 + millis,
            ),
            _ => None,
        }
    } else {
        None
    }
}

/// A text that is no instant in the journal's layout.
#[derive(Debug, Clone, Copy, PartialEq, Eq, Structural)]
pub struct BadTimestamp;

/// A short number is small.
proof fn lemma_digits_bound(s: Seq<char>)
    requires
        digits_value(s, 10) is Some,
    ensures
        s.len() == 0 ==> digits_value(s, 10)->0 == 0,
        s.len() == 1 ==> digits_value(s, 10)->0 <= 9,
        s.len() == 2 ==> digits_value(s, 10)->0 <= 99,
        s.len() == 3 ==> digits_value(s, 10)->0 <= 999,
        s.len() == 4 ==> digits_value(s, 10)->0 <= 9999,
    decreases s.len(),
{
    if s.len() > 0 {
        lemma_digits_bound(s.drop_last());
    }
}

/// The number that the digits `from..to` of a timestamp write.
fn field(v: &Vec<char>, from: usize, to: usize) -> (r: Option<i64>)
    requires
        from <= to <= v.len(),
        to - from <= 4,
    ensures
        match r {
            Some(n) => 0 <= n <= 9999 && digits_value(v@.subrange(from as int, to as int), 10) == Some(n as nat),
            None => digits_value(v@.subrange(from as int, to as int), 10) is None,
        },
{
    proof {
        if digits_value(v@.subrange(from as int, to as int), 10) is Some {
            lemma_digits_bound(v@.subrange(from as int, to as int));
        }
    }
    match read_digits(v, from, to, 10) {
        Some(n) => Some(n as i64),
        None => None,
    }
}

/// The instant that a text gives, in Unix milliseconds.
pub fn iso_to_unix_ms(iso: &str) -> (r: Result<i64, BadTimestamp>)
    ensures
        match r {
            Ok(ms) => iso_instant(iso@) == Some(ms as int),
            Err(_) => iso_instant(iso@) is None,
        },
{
    let v = chars_of(iso);
    if v.len() != 24 {
        return Err(BadTimestamp);
    }
    if v[4] != '-' || v[7] != '-' || v[10] != 'T' || v[13] != ':' || v[16] != ':' || v[19] != '.' || v[23]
        != 'Z' {
        return Err(BadTimestamp);
    }
    match (
        field(&v, 0, 4),
        field(&v, 5, 7),
        field(&v, 8, 10),
        field(&v, 11, 13),
        field(&v, 14, 16),
        field(&v, 17, 19),
        field(&v, 20, 23),
    ) {
        (Some(year), Some(month), Some(day), Some(hour), Some(minute), Some(second), Some(millis)) => {
            let days = days_from_civil(year, month, day);
            Ok(days * 86_400_000 + hour * 3_600_000 + minute * 60_000 + second * 1000 + millis)
        },
        _ => Err(BadTimestamp),
    }
}

fn add_padded(s: &mut String, n: u64, width: u64)
    ensures
        final(s)@ == old(s)@ + padded(n as nat, width as nat),
{
    let t = padded_text(n, width);
    *s = joined(s.as_str(), t.as_str());
}

fn add_char(s: &mut String, c: char)
    ensures
        final(s)@ == old(s)@ + seq![c],
{
    let ghost before = s@;
    s.push(c);
    assert(s@ =~= before + seq![c]);
}

/// The instant in ISO 8601.
pub fn unix_ms_to_iso(ms: i64) -> (r: String)
    ensures
        r@ == iso_text(ms as int),
{
    let wide: i128 = ms as i128;
    let days: i128 = if wide >= 0 {
        wide / 86_400_000
    } else {
        (wide - 86_399_999) / 86_400_000
    };
    let rem: i128 = wide - days * 86_400_000;
    assert(days == ms as int / 86_400_000);
    assert(rem == ms as int % 86_400_000);
    let (year, month, day) = civil_from_days(days as i64);
    let rem: u64 = rem as u64;
    let mut s = String::new();
    if year < 0 {
        s.push('-');
        let magnitude: i128 = -(year as i128);
        add_padded(&mut s, magnitude as u64, 3);
        assert(s@ =~= year_text(year as int));
    } else {
        add_padded(&mut s, year as u64, 4);
        assert(s@ =~= year_text(year as int));
    }
    add_char(&mut s, '-');
    add_padded(&mut s, month as u64, 2);
    add_char(&mut s, '-');
    add_padded(&mut s, day as u64, 2);
    add_char(&mut s, 'T');
    add_padded(&mut s, rem / 3_600_000, 2);
    add_char(&mut s, ':');
    add_padded(&mut s, rem / 60_000 % 60, 2);
    add_char(&mut s, ':');
    add_padded(&mut s, rem / 1000 % 60, 2);
    add_char(&mut s, '.');
    add_padded(&mut s, rem % 1000, 3);
    add_char(&mut s, 'Z');
    s
}

/// The seven fields with their separators.
pub open spec fn layout(
    year: Seq<char>,
    month: Seq<char>,
    day: Seq<char>,
    hour: Seq<char>,
    minute: Seq<char>,
    second: Seq<char>,
    millis: Seq<char>,
) -> Seq<char> {
    year + seq!['-'] + month + seq!['-'] + day + seq!['T'] + hour + seq![':'] + minute + seq![':'] + second
        + seq!['.'] + millis + seq!['Z']
}

#[verifier::rlimit(60)]
proof fn lemma_layout(
    year: Seq<char>,
    month: Seq<char>,
    day: Seq<char>,
    hour: Seq<char>,
    minute: Seq<char>,
    second: Seq<char>,
    millis: Seq<char>,
)
    requires
        year.len() == 4,
        month.len() == 2,
        day.len() == 2,
        hour.len() == 2,
        minute.len() == 2,
        second.len() == 2,
        millis.len() == 3,
    ensures
        ({
            let s = layout(year, month, day, hour, minute, second, millis);
            &&& s.len() == 24
            &&& s[4] == '-' && s[7] == '-' && s[10] == 'T' && s[13] == ':' && s[16] == ':' && s[19] == '.' && s[23]
                == 'Z'
            &&& s.subrange(0, 4) == year
            &&& s.subrange(5, 7) == month
            &&& s.subrange(8, 10) == day
            &&& s.subrange(11, 13) == hour
            &&& s.subrange(14, 16) == minute
            &&& s.subrange(17, 19) == second
            &&& s.subrange(20, 23) == millis
        }),
{
    let s = layout(year, month, day, hour, minute, second, millis);
    assert(s.subrange(0, 4) =~= year);
    assert(s.subrange(5, 7) =~= month);
    assert(s.subrange(8, 10) =~= day);
    assert(s.subrange(11, 13) =~= hour);
    assert(s.subrange(14, 16) =~= minute);
    assert(s.subrange(17, 19) =~= second);
    assert(s.subrange(20, 23) =~= millis);
}

proof fn lemma_field(n: int, width: nat)
    requires
        width == 2 && 0 <= n < 100 || width == 3 && 0 <= n < 1000 || width == 4 && 0 <= n < 10000,
    ensures
        padded(n as nat, width).len() == width,
        digits_value(padded(n as nat, width), 10) == Some(n as nat),
{
    reveal_with_fuel(pow10, 5);
    lemma_padded_reads_back(n as nat, width);
}

proof fn lemma_clock(rem: int)
    requires
        0 <= rem < 86_400_000,
    ensures
        0 <= rem / 3_600_000 < 24,
        0 <= rem / 60_000 % 60 < 60,
        0 <= rem / 1000 % 60 < 60,
        0 <= rem % 1000 < 1000,
        rem == (rem / 3_600_000) * 3_600_000 + (rem / 60_000 % 60) * 60_000 + (rem / 1000 % 60) * 1000 + rem
            % 1000,
{
}

/// The text of an instant of the years 0 to 9999 reads as that instant.
pub proof fn law_iso_round_trip(ms: int)
    requires
        0 <= civil_date(ms / 86_400_000).0 <= 9999,
    ensures
        iso_instant(iso_text(ms)) == Some(ms),
{
    let days = ms / 86_400_000;
    let rem = ms % 86_400_000;
    let (year, month, day) = civil_date(days);
    law_days_of_date(days);
    assert(civil_days(year, month, day) == days);
    assert(ms == days * 86_400_000 + rem);
    lemma_clock(rem);
    lemma_field(year, 4);
    lemma_field(month, 2);
    lemma_field(day, 2);
    lemma_field(rem / 3_600_000, 2);
    lemma_field(rem / 60_000 % 60, 2);
    lemma_field(rem / 1000 % 60, 2);
    lemma_field(rem % 1000, 3);
    lemma_composed(
        ms,
        year as nat,
        month as nat,
        day as nat,
        (rem / 3_600_000) as nat,
        (rem / 60_000 % 60) as nat,
        (rem / 1000 % 60) as nat,
        (rem % 1000) as nat,
        padded(year as nat, 4),
        padded(month as nat, 2),
        padded(day as nat, 2),
        padded((rem / 3_600_000) as nat, 2),
        padded((rem / 60_000 % 60) as nat, 2),
        padded((rem / 1000 % 60) as nat, 2),
        padded((rem % 1000) as nat, 3),
    );
}

proof fn lemma_composed(
    ms: int,
    year: nat,
    month: nat,
    day: nat,
    hour: nat,
    minute: nat,
    second: nat,
    millis: nat,
    ty: Seq<char>,
    tm: Seq<char>,
    td: Seq<char>,
    th: Seq<char>,
    tn: Seq<char>,
    ts: Seq<char>,
    tl: Seq<char>,
)
    requires
        ms == civil_days(year as int, month as int, day as int) * 86_400_000 + hour * 3_600_000 + minute * 60_000 + second * 1000
            + millis,
        ty.len() == 4 && digits_value(ty, 10) == Some(year),
        tm.len() == 2 && digits_value(tm, 10) == Some(month),
        td.len() == 2 && digits_value(td, 10) == Some(day),
        th.len() == 2 && digits_value(th, 10) == Some(hour),
        tn.len() == 2 && digits_value(tn, 10) == Some(minute),
        ts.len() == 2 && digits_value(ts, 10) == Some(second),
        tl.len() == 3 && digits_value(tl, 10) == Some(millis),
    ensures
        iso_instant(layout(ty, tm, td, th, tn, ts, tl)) == Some(ms),
{
    lemma_layout(ty, tm, td, th, tn, ts, tl);
}

/// Whether some bytes sort before others: the first byte that differs decides, and
/// a beginning of others comes before them.
pub open spec fn sorts_before(a: Seq<u8>, b: Seq<u8>) -> bool {
    ||| a.len() < b.len() && b.take(a.len() as int) == a
    ||| exists|k: int|
        0 <= k < a.len() && k < b.len() && a.take(k) == b.take(k) && #[trigger] a[k] < b[k]
}

/// A later day has a later date.
proof fn lemma_dates_grow(z: int, w: int)
    requires
        z < w,
    ensures
        ({
            let (y1, m1, d1) = civil_date(z);
            let (y2, m2, d2) = civil_date(w);
            y1 < y2 || y1 == y2 && (m1 < m2 || m1 == m2 && d1 < d2)
        }),
{
    let era1 = (z + 719468) / 146097;
    let era2 = (w + 719468) / 146097;
    let doe1 = (z + 719468) % 146097;
    let doe2 = (w + 719468) % 146097;
    assert(era1 < era2 || era1 == era2 && doe1 < doe2);
    lemma_year_of_era(doe1);
    lemma_year_of_era(doe2);
    let yoe1 = year_of_era(doe1);
    let yoe2 = year_of_era(doe2);
    if era1 == era2 && yoe2 < yoe1 {
        lemma_year_start_grows(yoe2 + 1, yoe1);
    }
    assert(era1 < era2 || yoe1 <= yoe2);
    let doy1 = doe1 - year_start(yoe1);
    let doy2 = doe2 - year_start(yoe2);
    lemma_month_of_year(doy1);
    lemma_month_of_year(doy2);
    let mp1 = (5 * doy1 + 2) / 153;
    let mp2 = (5 * doy2 + 2) / 153;
    if era1 == era2 && yoe1 == yoe2 {
        assert(doy1 < doy2);
        assert(mp1 <= mp2);
    }
}

/// A later time of the day has a later clock.
proof fn lemma_clocks_grow(a: int, b: int)
    requires
        0 <= a < b < 86_400_000,
    ensures
        a / 3_600_000 < b / 3_600_000 || a / 3_600_000 == b / 3_600_000 && (a / 60_000 % 60 < b / 60_000 % 60 || a
            / 60_000 % 60 == b / 60_000 % 60 && (a / 1000 % 60 < b / 1000 % 60 || a / 1000 % 60 == b / 1000 % 60 && a
            % 1000 < b % 1000)),
{
    lemma_clock(a);
    lemma_clock(b);
}

/// The years that four digits write.
proof fn lemma_four_digit_years(ms: int)
    requires
        -62_167_219_200_000 <= ms <= 253_402_300_799_999,
    ensures
        0 <= civil_date(ms / 86_400_000).0 <= 9999,
{
    let z = ms / 86_400_000;
    assert(-719_528 <= z <= 2_932_896);
    assert(civil_days(0, 1, 1) == -719_528);
    assert(civil_days(9999, 12, 31) == 2_932_896);
    law_date_of_days(0, 1, 1);
    law_date_of_days(9999, 12, 31);
    if z > -719_528 {
        lemma_dates_grow(-719_528, z);
    }
    if z < 2_932_896 {
        lemma_dates_grow(z, 2_932_896);
    }
}

/// The texts of two instants sort by the field in which they first differ.
proof fn lemma_field_decides(s: Seq<char>, t: Seq<char>, from: int, to: int, n: nat, m: nat)
    requires
        s.len() == 24,
        t.len() == 24,
        vstd::utf8::is_ascii_chars(s),
        vstd::utf8::is_ascii_chars(t),
        0 <= from < to <= 24,
        s.take(from) == t.take(from),
        n < m < pow10((to - from) as nat),
        s.subrange(from, to) == padded(n, (to - from) as nat),
        t.subrange(from, to) == padded(m, (to - from) as nat),
    ensures
        sorts_before(vstd::utf8::encode_utf8(s), vstd::utf8::encode_utf8(t)),
{
    let f = s.subrange(from, to);
    let g = t.subrange(from, to);
    let k = lemma_padded_order(n, m, (to - from) as nat);
    let a = vstd::utf8::encode_utf8(s);
    let b = vstd::utf8::encode_utf8(t);
    vstd::utf8::is_ascii_chars_encode_utf8(s);
    vstd::utf8::is_ascii_chars_encode_utf8(t);
    let at = from + k;
    assert forall|i: int| 0 <= i < at implies a[i] == b[i] by {
        if i < from {
            assert(s.take(from)[i] == s[i] && t.take(from)[i] == t[i]);
        } else {
            assert(f.take(k)[i - from] == f[i - from] && g.take(k)[i - from] == g[i - from]);
            assert(f[i - from] == s[i] && g[i - from] == t[i]);
        }
        assert(s[i] == t[i]);
    }
    assert(a.take(at) =~= b.take(at));
    assert(s[at] == f[k] && t[at] == g[k]);
    assert(a[at] == s[at] as u8 && b[at] == t[at] as u8);
    assert((s[at] as nat) < 128 && (t[at] as nat) < 128);
    assert(a[at] < b[at]);
}

/// The fields of an instant's text, in the years 0 to 9999.
proof fn lemma_iso_fields(ms: int)
    requires
        0 <= civil_date(ms / 86_400_000).0 <= 9999,
    ensures
        ({
            let s = iso_text(ms);
            let (year, month, day) = civil_date(ms / 86_400_000);
            let rem = ms % 86_400_000;
            &&& s.len() == 24
            &&& vstd::utf8::is_ascii_chars(s)
            &&& s[4] == '-' && s[7] == '-' && s[10] == 'T' && s[13] == ':' && s[16] == ':' && s[19] == '.' && s[23]
                == 'Z'
            &&& 0 <= year < pow10(4) && s.subrange(0, 4) == padded(year as nat, 4)
            &&& 0 <= month < pow10(2) && s.subrange(5, 7) == padded(month as nat, 2)
            &&& 0 <= day < pow10(2) && s.subrange(8, 10) == padded(day as nat, 2)
            &&& rem / 3_600_000 < pow10(2) && s.subrange(11, 13) == padded((rem / 3_600_000) as nat, 2)
            &&& rem / 60_000 % 60 < pow10(2) && s.subrange(14, 16) == padded((rem / 60_000 % 60) as nat, 2)
            &&& rem / 1000 % 60 < pow10(2) && s.subrange(17, 19) == padded((rem / 1000 % 60) as nat, 2)
            &&& rem % 1000 < pow10(3) && s.subrange(20, 23) == padded((rem % 1000) as nat, 3)
        }),
{
    let (year, month, day) = civil_date(ms / 86_400_000);
    let rem = ms % 86_400_000;
    law_days_of_date(ms / 86_400_000);
    lemma_clock(rem);
    reveal_with_fuel(pow10, 5);
    lemma_field(year, 4);
    lemma_field(month, 2);
    lemma_field(day, 2);
    lemma_field(rem / 3_600_000, 2);
    lemma_field(rem / 60_000 % 60, 2);
    lemma_field(rem / 1000 % 60, 2);
    lemma_field(rem % 1000, 3);
    let ty = padded(year as nat, 4);
    let tm = padded(month as nat, 2);
    let td = padded(day as nat, 2);
    let th = padded((rem / 3_600_000) as nat, 2);
    let tn = padded((rem / 60_000 % 60) as nat, 2);
    let ts = padded((rem / 1000 % 60) as nat, 2);
    let tl = padded((rem % 1000) as nat, 3);
    lemma_layout(ty, tm, td, th, tn, ts, tl);
    lemma_padded_ascii(year as nat, 4);
    lemma_padded_ascii(month as nat, 2);
    lemma_padded_ascii(day as nat, 2);
    lemma_padded_ascii((rem / 3_600_000) as nat, 2);
    lemma_padded_ascii((rem / 60_000 % 60) as nat, 2);
    lemma_padded_ascii((rem / 1000 % 60) as nat, 2);
    lemma_padded_ascii((rem % 1000) as nat, 3);
    lemma_layout_ascii(ty, tm, td, th, tn, ts, tl);
}

proof fn lemma_ascii_joined(a: Seq<char>, c: char, b: Seq<char>)
    requires
        vstd::utf8::is_ascii_chars(a),
        '\0' <= c <= '\u{7f}',
        vstd::utf8::is_ascii_chars(b),
    ensures
        vstd::utf8::is_ascii_chars(a + seq![c] + b),
{
}

proof fn lemma_layout_ascii(
    year: Seq<char>,
    month: Seq<char>,
    day: Seq<char>,
    hour: Seq<char>,
    minute: Seq<char>,
    second: Seq<char>,
    millis: Seq<char>,
)
    requires
        vstd::utf8::is_ascii_chars(year),
        vstd::utf8::is_ascii_chars(month),
        vstd::utf8::is_ascii_chars(day),
        vstd::utf8::is_ascii_chars(hour),
        vstd::utf8::is_ascii_chars(minute),
        vstd::utf8::is_ascii_chars(second),
        vstd::utf8::is_ascii_chars(millis),
    ensures
        vstd::utf8::is_ascii_chars(layout(year, month, day, hour, minute, second, millis)),
{
    let s1 = year + seq!['-'] + month;
    lemma_ascii_joined(year, '-', month);
    let s2 = s1 + seq!['-'] + day;
    lemma_ascii_joined(s1, '-', day);
    let s3 = s2 + seq!['T'] + hour;
    lemma_ascii_joined(s2, 'T', hour);
    let s4 = s3 + seq![':'] + minute;
    lemma_ascii_joined(s3, ':', minute);
    let s5 = s4 + seq![':'] + second;
    lemma_ascii_joined(s4, ':', second);
    let s6 = s5 + seq!['.'] + millis;
    lemma_ascii_joined(s5, '.', millis);
    lemma_ascii_joined(s6, 'Z', Seq::empty());
    assert(s6 + seq!['Z'] + Seq::<char>::empty() =~= layout(year, month, day, hour, minute, second, millis));
}

/// Two texts that agree before a field, in it and in the separator behind it agree
/// before the next field.
proof fn lemma_agree_on(s: Seq<char>, t: Seq<char>, from: int, to: int)
    requires
        s.len() == 24,
        t.len() == 24,
        0 <= from <= to < 24,
        s.take(from) == t.take(from),
        s.subrange(from, to) == t.subrange(from, to),
        s[to] == t[to],
    ensures
        s.take(to + 1) == t.take(to + 1),
{
    assert forall|i: int| 0 <= i < to + 1 implies s[i] == t[i] by {
        if i < from {
            assert(s.take(from)[i] == s[i] && t.take(from)[i] == t[i]);
        } else if i < to {
            assert(s.subrange(from, to)[i - from] == s[i] && t.subrange(from, to)[i - from] == t[i]);
        }
    }
    assert(s.take(to + 1) =~= t.take(to + 1));
}

/// In the years 0 to 9999 the text of an instant is 24 bytes long, and the texts of
/// two instants sort, byte by byte, as the instants do.
pub proof fn law_iso_texts_sort(a: int, b: int)
    requires
        -62_167_219_200_000 <= a < b <= 253_402_300_799_999,
    ensures
        vstd::utf8::encode_utf8(iso_text(a)).len() == 24,
        vstd::utf8::encode_utf8(iso_text(b)).len() == 24,
        sorts_before(vstd::utf8::encode_utf8(iso_text(a)), vstd::utf8::encode_utf8(iso_text(b))),
{
    let s = iso_text(a);
    let t = iso_text(b);
    lemma_four_digit_years(a);
    lemma_four_digit_years(b);
    lemma_iso_fields(a);
    lemma_iso_fields(b);
    vstd::utf8::is_ascii_chars_encode_utf8(s);
    vstd::utf8::is_ascii_chars_encode_utf8(t);
    let za = a / 86_400_000;
    let zb = b / 86_400_000;
    let ra = a % 86_400_000;
    let rb = b % 86_400_000;
    let (y1, m1, d1) = civil_date(za);
    let (y2, m2, d2) = civil_date(zb);
    if za < zb {
        lemma_dates_grow(za, zb);
    } else {
        assert(za == zb && ra < rb);
        lemma_clocks_grow(ra, rb);
    }
    assert(s.take(0) =~= t.take(0));
    if y1 < y2 {
        lemma_field_decides(s, t, 0, 4, y1 as nat, y2 as nat);
    } else {
        lemma_agree_on(s, t, 0, 4);
        if m1 < m2 {
            lemma_field_decides(s, t, 5, 7, m1 as nat, m2 as nat);
        } else {
            lemma_agree_on(s, t, 5, 7);
            if d1 < d2 {
                lemma_field_decides(s, t, 8, 10, d1 as nat, d2 as nat);
            } else {
                lemma_agree_on(s, t, 8, 10);
                lemma_same_day(s, t, ra, rb);
            }
        }
    }
}

/// The texts of two instants of a day sort by their clocks.
proof fn lemma_same_day(s: Seq<char>, t: Seq<char>, a: int, b: int)
    requires
        0 <= a < b < 86_400_000,
        s.len() == 24,
        t.len() == 24,
        vstd::utf8::is_ascii_chars(s),
        vstd::utf8::is_ascii_chars(t),
        s.take(11) == t.take(11),
        s[13] == t[13] && s[16] == t[16] && s[19] == t[19],
        s.subrange(11, 13) == padded((a / 3_600_000) as nat, 2),
        t.subrange(11, 13) == padded((b / 3_600_000) as nat, 2),
        s.subrange(14, 16) == padded((a / 60_000 % 60) as nat, 2),
        t.subrange(14, 16) == padded((b / 60_000 % 60) as nat, 2),
        s.subrange(17, 19) == padded((a / 1000 % 60) as nat, 2),
        t.subrange(17, 19) == padded((b / 1000 % 60) as nat, 2),
        s.subrange(20, 23) == padded((a % 1000) as nat, 3),
        t.subrange(20, 23) == padded((b % 1000) as nat, 3),
    ensures
        sorts_before(vstd::utf8::encode_utf8(s), vstd::utf8::encode_utf8(t)),
{
    lemma_clocks_grow(a, b);
    lemma_clock(a);
    lemma_clock(b);
    reveal_with_fuel(pow10, 5);
    if a / 3_600_000 < b / 3_600_000 {
        lemma_field_decides(s, t, 11, 13, (a / 3_600_000) as nat, (b / 3_600_000) as nat);
    } else {
        lemma_agree_on(s, t, 11, 13);
        if a / 60_000 % 60 < b / 60_000 % 60 {
            lemma_field_decides(s, t, 14, 16, (a / 60_000 % 60) as nat, (b / 60_000 % 60) as nat);
        } else {
            lemma_agree_on(s, t, 14, 16);
            if a / 1000 % 60 < b / 1000 % 60 {
                lemma_field_decides(s, t, 17, 19, (a / 1000 % 60) as nat, (b / 1000 % 60) as nat);
            } else {
                lemma_agree_on(s, t, 17, 19);
                lemma_field_decides(s, t, 20, 23, (a % 1000) as nat, (b % 1000) as nat);
            }
        }
    }
}

/// Days are counted from the first of January 1970, and each day is one more than the
/// day before it, over the ends of months and years.
pub proof fn law_days_are_counted(year: int, month: int, day: int)
    requires
        is_date(year, month, day),
    ensures
        civil_days(1970, 1, 1) == 0,
        day < days_in_month(year, month) ==> civil_days(year, month, day + 1) == civil_days(year, month, day) + 1,
        day == days_in_month(year, month) && month < 12 ==> civil_days(year, month + 1, 1) == civil_days(year, month, day)
            + 1,
        day == days_in_month(year, month) && month == 12 ==> civil_days(year + 1, 1, 1) == civil_days(year, month, day)
            + 1,
{
    let y = if month <= 2 {
        year - 1
    } else {
        year
    };
    if month == 2 && day == days_in_month(year, month) {
        let era = y / 400;
        let yoe = y % 400;
        lemma_leap(year, era, yoe);
        if yoe < 399 {
            assert(year / 400 == era && year % 400 == yoe + 1);
        } else {
            assert(year / 400 == era + 1 && year % 400 == 0);
        }
    }
}

/// Years are leap years by the rule of the calendar, and the months have their days.
pub proof fn law_calendar(year: int)
    ensures
        is_leap(year) == (year % 400 == 0 || (year % 4 == 0 && year % 100 != 0)),
        days_in_month(year, 1) == 31 && days_in_month(year, 3) == 31 && days_in_month(year, 4) == 30 && days_in_month(
            year,
            5,
        ) == 31 && days_in_month(year, 6) == 30 && days_in_month(year, 7) == 31 && days_in_month(year, 8) == 31
            && days_in_month(year, 9) == 30 && days_in_month(year, 10) == 31 && days_in_month(year, 11) == 30
            && days_in_month(year, 12) == 31,
        days_in_month(year, 2) == (if is_leap(year) {
            29int
        } else {
            28
        }),
{
    assert(year % 400 == 0 ==> year % 4 == 0) by {
        if year % 400 == 0 {
            let q = year / 400;
            assert(year == 4 * (q * 100));
            vstd::arithmetic::div_mod::lemma_mod_multiples_basic(q * 100, 4);
        }
    }
}

/// An instant is written with its year, month, day, hour, minute, second and millisecond,
/// in that order and each in its place, where the year has four digits.
pub proof fn law_instant_is_written_in_its_fields(ms: int)
    requires
        0 <= civil_date(ms / 86_400_000).0 <= 9999,
    ensures
        ({
            let s = iso_text(ms);
            let (year, month, day) = civil_date(ms / 86_400_000);
            let rem = ms % 86_400_000;
            &&& s.len() == 24
            &&& s[4] == '-' && s[7] == '-' && s[10] == 'T' && s[13] == ':' && s[16] == ':' && s[19] == '.' && s[23]
                == 'Z'
            &&& s.subrange(0, 4) == padded(year as nat, 4)
            &&& s.subrange(5, 7) == padded(month as nat, 2)
            &&& s.subrange(8, 10) == padded(day as nat, 2)
            &&& s.subrange(11, 13) == padded((rem / 3_600_000) as nat, 2)
            &&& s.subrange(14, 16) == padded((rem / 60_000 % 60) as nat, 2)
            &&& s.subrange(17, 19) == padded((rem / 1000 % 60) as nat, 2)
            &&& s.subrange(20, 23) == padded((rem % 1000) as nat, 3)
        }),
{
    lemma_iso_fields(ms);
}

} // verus!
