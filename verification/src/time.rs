//! RFC 3339 (UTC, `Z` suffix) conversion helpers on the proleptic
//! Gregorian calendar.

use vstd::prelude::*;

use crate::fmt::{all_digits, decimal, digits_value, is_digit, lemma_decimal_digits, lemma_zero_pad_value, padded_i64, padded_int, parse_int};
use crate::text::{chars_of, is_ascii_char, is_ws, lemma_trim_noop, push_all, string_from_chars, trim, trim_chars};

verus! {

/// Gregorian leap year.
pub open spec fn is_leap(y: int) -> bool {
    y % 4 == 0 && (y % 100 != 0 || y % 400 == 0)
}

/// Number of days of month `m` (1..=12) in year `y`.
pub open spec fn days_in_month(y: int, m: int) -> int {
    if m == 2 {
        if is_leap(y) {
            29
        } else {
            28
        }
    } else if m == 4 || m == 6 || m == 9 || m == 11 {
        30
    } else {
        31
    }
}

/// Days from 0000-01-01 to `y`-01-01.
pub open spec fn days_before_year(y: int) -> int {
    365 * y + (y + 3) / 4 - (y + 99) / 100 + (y + 399) / 400
}

/// Days of the months before month `m` in a common year.
pub open spec fn cumulative_days(m: int) -> int {
    if m <= 1 {
        0
    } else if m == 2 {
        31
    } else if m == 3 {
        59
    } else if m == 4 {
        90
    } else if m == 5 {
        120
    } else if m == 6 {
        151
    } else if m == 7 {
        181
    } else if m == 8 {
        212
    } else if m == 9 {
        243
    } else if m == 10 {
        273
    } else if m == 11 {
        304
    } else {
        334
    }
}

/// Days from `y`-01-01 to the first of month `m`.
pub open spec fn days_before_month(y: int, m: int) -> int {
    cumulative_days(m) + if m > 2 && is_leap(y) {
        1int
    } else {
        0int
    }
}

/// Days from 1970-01-01 to `y`-`m`-`d`; linear in `d`, so a day beyond
/// the end of the month counts on into the next one.
pub open spec fn civil_days(y: int, m: int, d: int) -> int {
    days_before_year(y) + days_before_month(y, m) + d - 1 - 719528
}

/// A real calendar date.
pub open spec fn valid_date(y: int, m: int, d: int) -> bool {
    1 <= m <= 12 && 1 <= d <= days_in_month(y, m)
}

/// The date of day number `days` (days since 1970-01-01).
pub open spec fn date_of_day(days: int) -> (int, int, int) {
    choose|t: (int, int, int)| valid_date(t.0, t.1, t.2) && civil_days(t.0, t.1, t.2) == days
}

/// Days from 0000-03-01 to `y`-03-01.
pub open spec fn march_days(y: int) -> int {
    365 * y + y / 4 - y / 100 + y / 400
}

proof fn lemma_round_up(y: int, k: int)
    requires
        k == 4 || k == 100 || k == 400,
    ensures
        (y + k - 1) / k == (y - 1) / k + 1,
        (y + k - 1) / k == if y % k == 0 {
            y / k
        } else {
            y / k + 1
        },
{
}

proof fn lemma_dby_march(y: int)
    ensures
        days_before_year(y) + 59 + (if is_leap(y) {
            1int
        } else {
            0int
        }) == 60 + march_days(y),
        days_before_year(y) == march_days(y - 1) + 366,
{
    lemma_round_up(y, 4);
    lemma_round_up(y, 100);
    lemma_round_up(y, 400);
    if y % 400 == 0 {
        assert(y % 100 == 0 && y % 4 == 0);
    }
    if y % 100 == 0 {
        assert(y % 4 == 0);
    }
}

proof fn lemma_march_era(e: int, c: int, q: int, a: int)
    requires
        0 <= c <= 3,
        0 <= q <= 24,
        0 <= a <= 3,
    ensures
        march_days(400 * e + 100 * c + 4 * q + a) == 146097 * e + 36524 * c + 1461 * q + 365 * a,
{
    let y = 400 * e + 100 * c + 4 * q + a;
    assert(y / 4 == 100 * e + 25 * c + q);
    assert(y / 100 == 4 * e + c);
    assert(y / 400 == e);
}

proof fn lemma_dby_monotone(a: int, b: int)
    requires
        a <= b,
    ensures
        days_before_year(a) + 365 * (b - a) <= days_before_year(b),
    decreases b - a,
{
    if a < b {
        lemma_dby_monotone(a + 1, b);
        lemma_dby_march(a + 1);
        lemma_dby_march(a);
        assert(march_days(a) - march_days(a - 1) >= 365) by {
            assert(a / 4 >= (a - 1) / 4);
            assert(a / 100 <= (a - 1) / 100 + 1);
            assert(a / 400 >= (a - 1) / 400);
        }
    }
}

proof fn lemma_year_bounds(y: int, m: int, d: int)
    requires
        valid_date(y, m, d),
    ensures
        days_before_year(y) - 719528 <= civil_days(y, m, d) < days_before_year(y + 1) - 719528,
{
    lemma_dby_march(y);
    lemma_dby_march(y + 1);
}

/// Two valid dates with the same day number are the same date.
pub proof fn lemma_civil_days_injective(y1: int, m1: int, d1: int, y2: int, m2: int, d2: int)
    requires
        valid_date(y1, m1, d1),
        valid_date(y2, m2, d2),
        civil_days(y1, m1, d1) == civil_days(y2, m2, d2),
    ensures
        y1 == y2 && m1 == m2 && d1 == d2,
{
    lemma_year_bounds(y1, m1, d1);
    lemma_year_bounds(y2, m2, d2);
    if y1 < y2 {
        lemma_dby_monotone(y1 + 1, y2);
    } else if y2 < y1 {
        lemma_dby_monotone(y2 + 1, y1);
    }
    assert(y1 == y2);
    if m1 < m2 {
        assert(days_before_month(y1, m1) + d1 - 1 < days_before_month(y1, m2));
    } else if m2 < m1 {
        assert(days_before_month(y1, m2) + d2 - 1 < days_before_month(y1, m1));
    }
}

/// Floor division (`i64::div_euclid` for a positive divisor).
fn floor_div(a: i64, b: i64) -> (q: i64)
    requires
        b > 0,
    ensures
        q == a / b,
        a - q * b >= 0,
        a - q * b < b,
{
    if a >= 0 {
        let q = a / b;
        assert(a - q * b >= 0 && a - q * b < b) by (nonlinear_arith)
            requires
                a >= 0,
                b > 0,
                q == a / b,
        ;
        q
    } else {
        let t: i64 = -(a + 1);
        let u: i64 = t / b;
        let q = -u - 1;
        assert(a - q * b >= 0 && a - q * b < b) by (nonlinear_arith)
            requires
                a < 0,
                b > 0,
                t == -(a + 1),
                u == t / b,
                t >= 0,
                q == -u - 1,
        ;
        proof {
            vstd::arithmetic::div_mod::lemma_fundamental_div_mod_converse(
                a as int,
                b as int,
                q as int,
                (a - q * b) as int,
            );
        }
        q
    }
}

/// Non-negative remainder (`i64::rem_euclid` for a positive divisor).
fn floor_mod(a: i64, b: i64) -> (r: i64)
    requires
        b > 0,
    ensures
        r == a % b,
        0 <= r < b,
{
    if a >= 0 {
        a % b
    } else {
        let t: i64 = -(a + 1);
        let u = t % b;
        let r = b - 1 - u;
        proof {
            let q = -(t / b) - 1;
            assert(t == (t / b) * b + u) by (nonlinear_arith)
                requires
                    t >= 0,
                    b > 0,
                    u == t % b,
            ;
            assert(a == q * b + r) by (nonlinear_arith)
                requires
                    t == -(a + 1),
                    t == (t / b) * b + u,
                    q == -(t / b) - 1,
                    r == b - 1 - u,
            ;
            vstd::arithmetic::div_mod::lemma_fundamental_div_mod_converse(
                a as int,
                b as int,
                q,
                r as int,
            );
        }
        r
    }
}

/// Month and day of the `doy`-th day (0-based) of a year starting on
/// March 1st.
fn month_day_from_march(doy: i64) -> (r: (u32, u32))
    requires
        0 <= doy <= 365,
    ensures
        1 <= r.0 <= 12,
        r.1 >= 1,
        r.0 != 2 ==> r.1 <= days_in_month(1, r.0 as int),
        r.0 == 2 ==> r.1 <= 28 || (doy == 365 && r.1 == 29),
        r.0 >= 3 ==> doy == cumulative_days(r.0 as int) - 59 + r.1 - 1,
        r.0 <= 2 ==> doy == 306 + cumulative_days(r.0 as int) + r.1 - 1,
{
    let d = doy as u32;
    if d < 31 {
        (3, d + 1)
    } else if d < 61 {
        (4, d - 30)
    } else if d < 92 {
        (5, d - 60)
    } else if d < 122 {
        (6, d - 91)
    } else if d < 153 {
        (7, d - 121)
    } else if d < 184 {
        (8, d - 152)
    } else if d < 214 {
        (9, d - 183)
    } else if d < 245 {
        (10, d - 213)
    } else if d < 275 {
        (11, d - 244)
    } else if d < 306 {
        (12, d - 274)
    } else if d < 337 {
        (1, d - 305)
    } else {
        (2, d - 336)
    }
}

proof fn lemma_era_split(doe: int, c: int, r1: int, q: int, r2: int, a: int, doy: int)
    requires
        0 <= doe < 146097,
        c == if doe / 36524 > 3 {
            3
        } else {
            doe / 36524
        },
        r1 == doe - c * 36524,
        q == r1 / 1461,
        r2 == r1 - q * 1461,
        a == if r2 / 365 > 3 {
            3
        } else {
            r2 / 365
        },
        doy == r2 - a * 365,
    ensures
        0 <= c <= 3,
        0 <= q <= 24,
        0 <= a <= 3,
        0 <= doy <= 365,
        doe == 36524 * c + 1461 * q + 365 * a + doy,
        doy == 365 ==> a == 3 && (q == 24 ==> c == 3),
{
}

proof fn lemma_civil_of_era(
    days: int,
    e: int,
    doe: int,
    c: int,
    q: int,
    a: int,
    doy: int,
    y: int,
    m: int,
    d: int,
)
    requires
        days + 719468 == 146097 * e + doe,
        0 <= c <= 3,
        0 <= q <= 24,
        0 <= a <= 3,
        0 <= doy <= 365,
        doe == 36524 * c + 1461 * q + 365 * a + doy,
        doy == 365 ==> a == 3 && (q == 24 ==> c == 3),
        1 <= m <= 12,
        d >= 1,
        m != 2 ==> d <= days_in_month(1, m),
        m == 2 ==> d <= 28 || (doy == 365 && d == 29),
        m >= 3 ==> doy == cumulative_days(m) - 59 + d - 1,
        m <= 2 ==> doy == 306 + cumulative_days(m) + d - 1,
        y == 400 * e + 100 * c + 4 * q + a + if m <= 2 {
            1int
        } else {
            0int
        },
    ensures
        valid_date(y, m, d),
        civil_days(y, m, d) == days,
{
    lemma_march_era(e, c, q, a);
    let ys = 400 * e + 100 * c + 4 * q + a;
    if m >= 3 {
        lemma_civil_late(ys, m, d, march_days(ys), doy);
    } else {
        lemma_civil_early(ys, m, d, march_days(ys), doy);
    }
    if doy == 365 {
        lemma_feb29(e, c, q, y);
    }
}

proof fn lemma_civil_late(ys: int, m: int, d: int, md: int, doy: int)
    requires
        3 <= m <= 12,
        md == march_days(ys),
        doy == cumulative_days(m) - 59 + d - 1,
    ensures
        civil_days(ys, m, d) == md + doy + 60 - 719528,
{
    lemma_dby_march(ys);
}

proof fn lemma_civil_early(ys: int, m: int, d: int, md: int, doy: int)
    requires
        1 <= m <= 2,
        md == march_days(ys),
        doy == 306 + cumulative_days(m) + d - 1,
    ensures
        civil_days(ys + 1, m, d) == md + doy + 60 - 719528,
{
    lemma_dby_march(ys + 1);
}

proof fn lemma_feb29(e: int, c: int, q: int, y: int)
    requires
        0 <= c <= 3,
        0 <= q <= 24,
        q == 24 ==> c == 3,
        y == 400 * e + 100 * c + 4 * q + 4,
    ensures
        is_leap(y),
{
    if q == 24 {
        assert(y == 400 * (e + 1));
    } else {
        assert(y == 400 * e + 100 * c + 4 * (q + 1));
        assert(y % 4 == 0);
        assert(y % 100 != 0);
    }
}

/// The calendar date of a day number (days since 1970-01-01).
fn days_to_civil(days: i64) -> (r: (i64, u32, u32))
    requires
        -1_000_000_000_000_000 <= days <= 1_000_000_000_000_000,
    ensures
        valid_date(r.0 as int, r.1 as int, r.2 as int),
        civil_days(r.0 as int, r.1 as int, r.2 as int) == days,
        (r.0 as int, r.1 as int, r.2 as int) == date_of_day(days as int),
{
    let z = days + 719468;
    let era = floor_div(z, 146097);
    let doe = z - era * 146097;
    let mut c = doe / 36524;
    if c > 3 {
        c = 3;
    }
    let r1 = doe - c * 36524;
    let q = r1 / 1461;
    let r2 = r1 - q * 1461;
    let mut a = r2 / 365;
    if a > 3 {
        a = 3;
    }
    let doy = r2 - a * 365;
    proof {
        lemma_era_split(doe as int, c as int, r1 as int, q as int, r2 as int, a as int, doy as int);
    }
    let yoe = c * 100 + q * 4 + a;
    let (m, d) = month_day_from_march(doy);
    let y = era * 400 + yoe + if m <= 2 {
        1
    } else {
        0
    };
    proof {
        lemma_civil_of_era(
            days as int,
            era as int,
            doe as int,
            c as int,
            q as int,
            a as int,
            doy as int,
            y as int,
            m as int,
            d as int,
        );
        let t = (y as int, m as int, d as int);
        let w = date_of_day(days as int);
        lemma_civil_days_injective(t.0, t.1, t.2, w.0, w.1, w.2);
    }
    (y, m, d)
}

/// Day number of `y`-`m`-`d` (linear in `d`).
fn civil_to_days(y: i64, m: u32, d: u32) -> (r: i64)
    requires
        1 <= m <= 12,
        -1_000_000_000 <= y <= 1_000_000_000,
    ensures
        r == civil_days(y as int, m as int, d as int),
{
    let c4 = floor_div(y + 3, 4);
    let c100 = floor_div(y + 99, 100);
    let c400 = floor_div(y + 399, 400);
    let dby = 365 * y + c4 - c100 + c400;
    let leap = floor_div(y, 4) * 4 == y && (floor_div(y, 100) * 100 != y || floor_div(y, 400)
        * 400 == y);
    let cum: i64 = if m <= 1 {
        0
    } else if m == 2 {
        31
    } else if m == 3 {
        59
    } else if m == 4 {
        90
    } else if m == 5 {
        120
    } else if m == 6 {
        151
    } else if m == 7 {
        181
    } else if m == 8 {
        212
    } else if m == 9 {
        243
    } else if m == 10 {
        273
    } else if m == 11 {
        304
    } else {
        334
    };
    let extra: i64 = if m > 2 && leap {
        1
    } else {
        0
    };
    dby + cum + extra + (d as i64) - 1 - 719528
}

/// `format!("{y:04}-{m:02}-{d:02}")` of the date.
pub open spec fn date_text(y: int, m: int, d: int) -> Seq<char> {
    padded_int(y, 4) + seq!['-'] + padded_int(m, 2) + seq!['-'] + padded_int(d, 2)
}

/// The RFC 3339 text of an epoch second count, as `epoch_to_rfc3339`
/// renders it.
pub open spec fn rfc3339_text(secs: int) -> Seq<char> {
    let days = secs / 86400;
    let rem = secs % 86400;
    let t = date_of_day(days);
    date_text(t.0, t.1, t.2) + seq!['T'] + padded_int(rem / 3600, 2) + seq![':'] + padded_int(
        (rem % 3600) / 60,
        2,
    ) + seq![':'] + padded_int(rem % 60, 2) + seq!['Z']
}

/// The date part (`YYYY-MM-DD`) of an epoch second count.
pub open spec fn date_text_of(secs: int) -> Seq<char> {
    let t = date_of_day(secs / 86400);
    date_text(t.0, t.1, t.2)
}

/// What `rfc3339_to_epoch` reads from `s`: after trimming, at least 20
/// characters; fields at 0..4 (signed year), 5..7 (month), 8..10 (day),
/// 11..13, 14..16, 17..19 (signed hour, minute, second); the separator
/// positions must hold ASCII characters; month in 1..=12, day in 1..=31,
/// hour <= 23, minute <= 59, second <= 60.
#[verifier::opaque]
pub open spec fn rfc3339_value(s: Seq<char>) -> Option<int> {
    let t = trim(s);
    if t.len() < 20 {
        None
    } else if !(is_ascii_char(t[4]) && is_ascii_char(t[7]) && is_ascii_char(t[10]) && is_ascii_char(
        t[13],
    ) && is_ascii_char(t[16])) {
        None
    } else {
        match (
            parse_int(t.subrange(0, 4), true),
            parse_int(t.subrange(5, 7), false),
            parse_int(t.subrange(8, 10), false),
            parse_int(t.subrange(11, 13), true),
            parse_int(t.subrange(14, 16), true),
            parse_int(t.subrange(17, 19), true),
        ) {
            (Some(year), Some(month), Some(day), Some(hour), Some(min), Some(sec)) => {
                if 1 <= month <= 12 && 1 <= day <= 31 && hour <= 23 && min <= 59 && sec <= 60 {
                    Some(civil_days(year, month, day) * 86400 + hour * 3600 + min * 60 + sec)
                } else {
                    None
                }
            },
            _ => None,
        }
    }
}

proof fn lemma_day_range(secs: int, days: int)
    requires
        i64::MIN <= secs <= i64::MAX,
        days == secs / 86400,
    ensures
        -1_000_000_000_000_000 <= days <= 1_000_000_000_000_000,
{
}

fn push_padded(out: &mut Vec<char>, n: i64, width: usize)
    requires
        width >= 1,
    ensures
        final(out)@ == old(out)@ + padded_int(n as int, width as nat),
{
    let p = padded_i64(n, width);
    push_all(out, &p);
}

/// `YYYY-MM-DDTHH:MM:SSZ` for an epoch second count.
pub fn epoch_to_rfc3339(secs: i64) -> (r: String)
    ensures
        r@ == rfc3339_text(secs as int),
{
    let days = floor_div(secs, 86400);
    let rem = floor_mod(secs, 86400);
    proof {
        lemma_day_range(secs as int, days as int);
    }
    let (y, m, d) = days_to_civil(days);
    let mut out: Vec<char> = Vec::new();
    push_padded(&mut out, y, 4);
    out.push('-');
    push_padded(&mut out, m as i64, 2);
    out.push('-');
    push_padded(&mut out, d as i64, 2);
    out.push('T');
    push_padded(&mut out, rem / 3600, 2);
    out.push(':');
    push_padded(&mut out, (rem % 3600) / 60, 2);
    out.push(':');
    push_padded(&mut out, rem % 60, 2);
    out.push('Z');
    assert(out@ =~= rfc3339_text(secs as int));
    string_from_chars(&out)
}

/// `YYYY-MM-DD` for an epoch second count.
pub fn epoch_to_date(secs: i64) -> (r: String)
    ensures
        r@ == date_text_of(secs as int),
{
    let days = floor_div(secs, 86400);
    proof {
        lemma_day_range(secs as int, days as int);
    }
    let (y, m, d) = days_to_civil(days);
    let mut out: Vec<char> = Vec::new();
    push_padded(&mut out, y, 4);
    out.push('-');
    push_padded(&mut out, m as i64, 2);
    out.push('-');
    push_padded(&mut out, d as i64, 2);
    assert(out@ =~= date_text_of(secs as int));
    string_from_chars(&out)
}

spec fn small_pow10(k: int) -> int {
    if k <= 0 {
        1
    } else if k == 1 {
        10
    } else if k == 2 {
        100
    } else if k == 3 {
        1000
    } else {
        10000
    }
}

fn digits_value_exec(t: &Vec<char>, from: usize, to: usize) -> (r: Option<i64>)
    requires
        from <= to <= t.len(),
        to - from <= 4,
    ensures
        r is Some <==> all_digits(t@.subrange(from as int, to as int)),
        r matches Some(v) ==> v == digits_value(t@.subrange(from as int, to as int)) && 0 <= v
            < 10000,
{
    let mut acc: i64 = 0;
    let mut i = from;
    while i < to
        invariant
            from <= i <= to <= t.len(),
            to - from <= 4,
            all_digits(t@.subrange(from as int, i as int)),
            acc == digits_value(t@.subrange(from as int, i as int)),
            0 <= acc < 10000,
            acc < small_pow10(i - from),
        decreases to - i,
    {
        let c = t[i];
        if !('0' <= c && c <= '9') {
            assert(t@.subrange(from as int, to as int)[i - from] == c);
            return None;
        }
        let ghost prev = t@.subrange(from as int, i as int);
        let ghost next = t@.subrange(from as int, i + 1);
        assert(next.drop_last() =~= prev);
        assert(next.last() == c);
        acc = acc * 10 + ((c as u32) - 48) as i64;
        i = i + 1;
        assert(all_digits(t@.subrange(from as int, i as int)));
    }
    Some(acc)
}

/// `str::parse` of a short integer field `t[from..to]`.
fn parse_field(t: &Vec<char>, from: usize, to: usize, signed: bool) -> (r: Option<i64>)
    requires
        from <= to <= t.len(),
        to - from <= 4,
    ensures
        r is Some <==> parse_int(t@.subrange(from as int, to as int), signed) is Some,
        r matches Some(v) ==> v == parse_int(t@.subrange(from as int, to as int), signed)->0
            && -10000 < v < 10000,
{
    let ghost s = t@.subrange(from as int, to as int);
    if from == to {
        return None;
    }
    let c = t[from];
    assert(s[0] == c);
    if (c == '+' || c == '-') && to - from == 1 {
        return None;
    }
    if c == '+' || (c == '-' && signed) {
        assert(s.drop_first() =~= t@.subrange(from + 1, to as int));
        match digits_value_exec(t, from + 1, to) {
            Some(v) => {
                if c == '+' {
                    Some(v)
                } else {
                    Some(-v)
                }
            },
            None => None,
        }
    } else {
        digits_value_exec(t, from, to)
    }
}

/// Parses `YYYY-MM-DDTHH:MM:SSZ` (UTC); `None` on anything malformed.
pub fn rfc3339_to_epoch(s: &str) -> (r: Option<i64>)
    ensures
        r is Some <==> rfc3339_value(s@) is Some,
        r matches Some(v) ==> v == rfc3339_value(s@)->0,
{
    reveal(rfc3339_value);
    let all = chars_of(s);
    let t = trim_chars(&all);
    if t.len() < 20 {
        return None;
    }
    if !((t[4] as u32) < 128 && (t[7] as u32) < 128 && (t[10] as u32) < 128 && (t[13] as u32) < 128
        && (t[16] as u32) < 128) {
        return None;
    }
    let year = match parse_field(&t, 0, 4, true) {
        Some(v) => v,
        None => return None,
    };
    let month = match parse_field(&t, 5, 7, false) {
        Some(v) => v,
        None => return None,
    };
    let day = match parse_field(&t, 8, 10, false) {
        Some(v) => v,
        None => return None,
    };
    let hour = match parse_field(&t, 11, 13, true) {
        Some(v) => v,
        None => return None,
    };
    let min = match parse_field(&t, 14, 16, true) {
        Some(v) => v,
        None => return None,
    };
    let sec = match parse_field(&t, 17, 19, true) {
        Some(v) => v,
        None => return None,
    };
    if !(1 <= month && month <= 12 && 1 <= day && day <= 31 && hour <= 23 && min <= 59 && sec
        <= 60) {
        return None;
    }
    let days = civil_to_days(year, month as u32, day as u32);
    Some(days * 86400 + hour * 3600 + min * 60 + sec)
}

/// Month and day of the `doy`-th day (0-based) of a year starting on
/// March 1st.
spec fn month_day_of_march(doy: int) -> (int, int) {
    if doy < 31 {
        (3, doy + 1)
    } else if doy < 61 {
        (4, doy - 30)
    } else if doy < 92 {
        (5, doy - 60)
    } else if doy < 122 {
        (6, doy - 91)
    } else if doy < 153 {
        (7, doy - 121)
    } else if doy < 184 {
        (8, doy - 152)
    } else if doy < 214 {
        (9, doy - 183)
    } else if doy < 245 {
        (10, doy - 213)
    } else if doy < 275 {
        (11, doy - 244)
    } else if doy < 306 {
        (12, doy - 274)
    } else if doy < 337 {
        (1, doy - 305)
    } else {
        (2, doy - 336)
    }
}

/// Every day number has a date, and `date_of_day` is it.
pub proof fn lemma_date_of_day(days: int)
    ensures
        valid_date(date_of_day(days).0, date_of_day(days).1, date_of_day(days).2),
        civil_days(date_of_day(days).0, date_of_day(days).1, date_of_day(days).2) == days,
{
    let z = days + 719468;
    let e = z / 146097;
    let doe = z - e * 146097;
    let c = if doe / 36524 > 3 {
        3
    } else {
        doe / 36524
    };
    let r1 = doe - c * 36524;
    let q = r1 / 1461;
    let r2 = r1 - q * 1461;
    let a = if r2 / 365 > 3 {
        3
    } else {
        r2 / 365
    };
    let doy = r2 - a * 365;
    lemma_era_split(doe, c, r1, q, r2, a, doy);
    let (m, d) = month_day_of_march(doy);
    let y = 400 * e + 100 * c + 4 * q + a + if m <= 2 {
        1int
    } else {
        0int
    };
    lemma_civil_of_era(days, e, doe, c, q, a, doy, y, m, d);
    let w = (y, m, d);
    assert(valid_date(w.0, w.1, w.2) && civil_days(w.0, w.1, w.2) == days);
}

proof fn lemma_padded_field(n: int, w: nat)
    requires
        0 <= n,
        w >= 1,
        decimal(n as nat).len() <= w,
    ensures
        padded_int(n, w).len() == w,
        all_digits(padded_int(n, w)),
        digits_value(padded_int(n, w)) == n,
        parse_int(padded_int(n, w), true) == Some(n),
        parse_int(padded_int(n, w), false) == Some(n),
        !is_ws(padded_int(n, w)[0]),
{
    lemma_decimal_digits(n as nat);
    lemma_zero_pad_value(decimal(n as nat), w);
    let p = padded_int(n, w);
    assert(is_digit(p[0]));
}

proof fn lemma_year_range(days: int)
    requires
        -719528 <= days < 2932897,
    ensures
        0 <= date_of_day(days).0 <= 9999,
        valid_date(date_of_day(days).0, date_of_day(days).1, date_of_day(days).2),
        civil_days(date_of_day(days).0, date_of_day(days).1, date_of_day(days).2) == days,
{
    let (y, m, d) = date_of_day(days);
    lemma_date_of_day(days);
    lemma_year_bounds(y, m, d);
    if y < 0 {
        lemma_dby_monotone(y + 1, 0);
    }
    if y > 9999 {
        lemma_dby_monotone(10000, y);
    }
}

/// The text of the given fields.
spec fn fields_text(y: int, m: int, d: int, h: int, mi: int, sc: int) -> Seq<char> {
    date_text(y, m, d) + seq!['T'] + padded_int(h, 2) + seq![':'] + padded_int(mi, 2) + seq![
        ':',
    ] + padded_int(sc, 2) + seq!['Z']
}

#[verifier::rlimit(40)]
proof fn lemma_fields_parse(y: int, m: int, d: int, h: int, mi: int, sc: int)
    requires
        0 <= y <= 9999,
        1 <= m <= 12,
        1 <= d <= 31,
        0 <= h <= 23,
        0 <= mi <= 59,
        0 <= sc <= 59,
    ensures
        rfc3339_value(fields_text(y, m, d, h, mi, sc)) == Some(
            civil_days(y, m, d) * 86400 + h * 3600 + mi * 60 + sc,
        ),
{
    reveal(rfc3339_value);
    lemma_decimal_digits(y as nat);
    lemma_decimal_digits(m as nat);
    lemma_decimal_digits(d as nat);
    lemma_decimal_digits(h as nat);
    lemma_decimal_digits(mi as nat);
    lemma_decimal_digits(sc as nat);
    lemma_padded_field(y, 4);
    lemma_padded_field(m, 2);
    lemma_padded_field(d, 2);
    lemma_padded_field(h, 2);
    lemma_padded_field(mi, 2);
    lemma_padded_field(sc, 2);
    let py = padded_int(y, 4);
    let pm = padded_int(m, 2);
    let pd = padded_int(d, 2);
    let ph = padded_int(h, 2);
    let pmi = padded_int(mi, 2);
    let ps = padded_int(sc, 2);
    let text = fields_text(y, m, d, h, mi, sc);
    assert(text =~= py + seq!['-'] + pm + seq!['-'] + pd + seq!['T'] + ph + seq![':'] + pmi
        + seq![':'] + ps + seq!['Z']);
    assert(text.len() == 20);
    assert(text[0] == py[0]);
    assert(text.last() == 'Z');
    lemma_trim_noop(text);
    assert(text.subrange(0, 4) =~= py);
    assert(text.subrange(5, 7) =~= pm);
    assert(text.subrange(8, 10) =~= pd);
    assert(text.subrange(11, 13) =~= ph);
    assert(text.subrange(14, 16) =~= pmi);
    assert(text.subrange(17, 19) =~= ps);
    assert(text[4] == '-' && text[7] == '-' && text[10] == 'T' && text[13] == ':' && text[16]
        == ':');
}

/// Rendering an instant as RFC 3339 and reading it back gives the same
/// instant, for every instant from 0000-01-01T00:00:00Z up to (not
/// including) 10000-01-01T00:00:00Z, where the year has four digits.
pub proof fn lemma_rfc3339_round_trip(secs: int)
    requires
        -62167219200 <= secs < 253402300800,
    ensures
        rfc3339_value(rfc3339_text(secs)) == Some(secs),
{
    let days = secs / 86400;
    let rem = secs % 86400;
    lemma_year_range(days);
    let (y, m, d) = date_of_day(days);
    let h = rem / 3600;
    let mi = (rem % 3600) / 60;
    let sc = rem % 60;
    lemma_fields_parse(y, m, d, h, mi, sc);
    assert(rfc3339_text(secs) == fields_text(y, m, d, h, mi, sc));
    assert(h * 3600 + mi * 60 + sc == rem);
    assert(days * 86400 + rem == secs);
}

} // verus!
