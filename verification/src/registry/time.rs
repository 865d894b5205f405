//! Timestamps in the shapes the registry writes and reads: ISO-8601 with
//! millisecond precision and a `Z` suffix, and wall-clock `HH:MM:SS`.

use crate::text::{
    all_digits, char_is_digit, digit_value, digits_end, digits_value, is_digit,
    lemma_padded, number, padded, padded_string, to_chars,
};
use vstd::arithmetic::div_mod::{lemma_fundamental_div_mod_converse, lemma_mod_multiples_vanish};
use vstd::prelude::*;

verus! {

// ---- the calendar --------------------------------------------------------

/// Leap years of the Gregorian calendar.
pub open spec fn is_leap(y: int) -> bool {
    y % 4 == 0 && (y % 100 != 0 || y % 400 == 0)
}

/// The number of days in a month.
pub open spec fn month_days(y: int, m: int) -> int {
    if m == 2 {
        if is_leap(y) {
            29
        } else {
            28
        }
    } else if m == 4 || m == 6 || m == 9 || m == 11 {
        30
    } else {
        31
    }
}

/// The days of the year that lie before a month.
pub open spec fn days_before_month(y: int, m: int) -> int
    decreases m,
{
    if m <= 1 {
        0
    } else {
        days_before_month(y, m - 1) + month_days(y, m - 1)
    }
}

/// The days before the first of January of a year, counted from the first of
/// January of year 1.
pub open spec fn days_before_year(y: int) -> int {
    365 * (y - 1) + (y - 1) / 4 - (y - 1) / 100 + (y - 1) / 400
}

/// The number of a day, where day 0 is the first of January 1970.
pub open spec fn day_number(y: int, m: int, d: int) -> int {
    days_before_year(y) + days_before_month(y, m) + d - 1 - 719162
}

/// A day that the calendar has.
pub open spec fn valid_date(y: int, m: int, d: int) -> bool {
    1 <= m <= 12 && 1 <= d <= month_days(y, m)
}

/// The date of a day number.
pub open spec fn is_date_of(day: int, y: int, m: int, d: int) -> bool {
    valid_date(y, m, d) && day_number(y, m, d) == day
}

/// The epoch is the first of January 1970.
pub proof fn law_epoch()
    ensures
        day_number(1970, 1, 1) == 0,
{
}

proof fn lemma_div_steps(y: int, k: int)
    requires
        k == 4 || k == 100 || k == 400,
    ensures
        y / k - (y - 1) / k == (if y % k == 0 {
            1int
        } else {
            0
        }),
{
    let q = y / k;
    let r = y % k;
    assert(y == k * q + r && 0 <= r < k);
    if r == 0 {
        assert(y - 1 == (q - 1) * k + (k - 1)) by (nonlinear_arith)
            requires
                y == k * q + r,
                r == 0,
        ;
        lemma_fundamental_div_mod_converse(y - 1, k, q - 1, k - 1);
    } else {
        assert(y - 1 == q * k + (r - 1)) by (nonlinear_arith)
            requires
                y == k * q + r,
        ;
        lemma_fundamental_div_mod_converse(y - 1, k, q, r - 1);
    }
}

proof fn lemma_leap_parts(y: int)
    ensures
        y % 100 == 0 ==> y % 4 == 0,
        y % 400 == 0 ==> y % 100 == 0,
{
    let h = y / 100;
    let t = y % 100;
    assert(y == 100 * h + t);
    if t == 0 {
        lemma_fundamental_div_mod_converse(y, 4, 25 * h, 0);
    }
    let f = y / 400;
    if y % 400 == 0 {
        assert(y == 400 * f);
        lemma_fundamental_div_mod_converse(y, 100, 4 * f, 0);
    }
}

proof fn lemma_year_length(y: int)
    ensures
        days_before_year(y + 1) == days_before_year(y) + (if is_leap(y) {
            366int
        } else {
            365
        }),
{
    lemma_div_steps(y, 4);
    lemma_div_steps(y, 100);
    lemma_div_steps(y, 400);
    lemma_leap_parts(y);
}

/// The days before a year, by its place in the cycle of 400 years.
proof fn lemma_cycle(era: int, century: int, quad: int, single: int)
    requires
        0 <= century <= 3,
        0 <= quad <= 24,
        0 <= single <= 3,
    ensures
        days_before_year(400 * era + 100 * century + 4 * quad + single + 1) == era * 146_097
            + century * 36_524 + quad * 1461 + single * 365,
{
    let year = 400 * era + 100 * century + 4 * quad + single;
    lemma_fundamental_div_mod_converse(year, 4, 100 * era + 25 * century + quad, single);
    lemma_fundamental_div_mod_converse(year, 100, 4 * era + century, 4 * quad + single);
    lemma_fundamental_div_mod_converse(year, 400, era, 100 * century + 4 * quad + single);
}

/// The year that ends with a leap day in February.
proof fn lemma_leap_place(era: int, century: int, quad: int)
    requires
        0 <= century <= 3,
        0 <= quad <= 24,
        quad == 24 ==> century == 3,
    ensures
        is_leap(400 * era + 100 * century + 4 * quad + 4),
{
    let y = 400 * era + 100 * century + 4 * quad + 4;
    lemma_fundamental_div_mod_converse(y, 4, 100 * era + 25 * century + quad + 1, 0);
    if quad == 24 {
        lemma_fundamental_div_mod_converse(y, 400, era + 1, 0);
    } else {
        lemma_fundamental_div_mod_converse(y, 100, 4 * era + century, 4 * quad + 4);
    }
}

/// The days between the first of March and the first of a month.
proof fn lemma_march_offset(m: int)
    requires
        1 <= m <= 12,
    ensures
        ({
            let mp = (m + 9) % 12;
            let f = (153 * mp + 2) / 5;
            &&& m == 1 ==> f == 306
            &&& m == 2 ==> f == 337
            &&& m == 3 ==> f == 0
            &&& m == 4 ==> f == 31
            &&& m == 5 ==> f == 61
            &&& m == 6 ==> f == 92
            &&& m == 7 ==> f == 122
            &&& m == 8 ==> f == 153
            &&& m == 9 ==> f == 184
            &&& m == 10 ==> f == 214
            &&& m == 11 ==> f == 245
            &&& m == 12 ==> f == 275
        }),
{
}

/// The date of the day that comes `doy` days after the first of March of
/// `year`.
proof fn lemma_march_date(year: int, doy: int, mp: int, y: int, m: int, d: int)
    requires
        0 <= doy <= 365,
        doy == 365 ==> is_leap(year + 1),
        mp == (5 * doy + 2) / 153,
        d == doy - (153 * mp + 2) / 5 + 1,
        m == (if mp < 10 {
            mp + 3
        } else {
            mp - 9
        }),
        y == (if m <= 2 {
            year + 1
        } else {
            year
        }),
    ensures
        0 <= mp <= 11,
        valid_date(y, m, d),
        day_number(y, m, d) == days_before_year(year + 1) + doy - 719_468,
{
    lemma_before_month(y);
    lemma_year_length(year);
    assert(mp == 0 || mp == 1 || mp == 2 || mp == 3 || mp == 4 || mp == 5 || mp == 6 || mp == 7
        || mp == 8 || mp == 9 || mp == 10 || mp == 11);
}

proof fn lemma_before_month(y: int)
    ensures
        days_before_month(y, 1) == 0,
        days_before_month(y, 2) == 31,
        ({
            let f = if is_leap(y) {
                29int
            } else {
                28
            };
            &&& days_before_month(y, 3) == 31 + f
            &&& days_before_month(y, 4) == 62 + f
            &&& days_before_month(y, 5) == 92 + f
            &&& days_before_month(y, 6) == 123 + f
            &&& days_before_month(y, 7) == 153 + f
            &&& days_before_month(y, 8) == 184 + f
            &&& days_before_month(y, 9) == 215 + f
            &&& days_before_month(y, 10) == 245 + f
            &&& days_before_month(y, 11) == 276 + f
            &&& days_before_month(y, 12) == 306 + f
            &&& days_before_month(y, 13) == 337 + f
        }),
{
    reveal_with_fuel(days_before_month, 14);
}

proof fn lemma_date_in_year(y: int, m: int, d: int)
    requires
        valid_date(y, m, d),
    ensures
        days_before_year(y) - 719162 <= day_number(y, m, d) < days_before_year(y + 1) - 719162,
{
    lemma_before_month(y);
    lemma_year_length(y);
}

proof fn lemma_years_grow(y: int, z: int)
    requires
        y <= z,
    ensures
        days_before_year(y) <= days_before_year(z),
    decreases z - y,
{
    if y < z {
        lemma_years_grow(y, z - 1);
        lemma_year_length(z - 1);
    }
}

/// A day has one date.
pub proof fn law_date_is_unique(day: int, y: int, m: int, d: int, y2: int, m2: int, d2: int)
    requires
        is_date_of(day, y, m, d),
        is_date_of(day, y2, m2, d2),
    ensures
        y == y2 && m == m2 && d == d2,
{
    lemma_date_in_year(y, m, d);
    lemma_date_in_year(y2, m2, d2);
    if y < y2 {
        lemma_years_grow(y + 1, y2);
    } else if y2 < y {
        lemma_years_grow(y2 + 1, y);
    }
    lemma_before_month(y);
}

/// Every day has a date.
pub proof fn law_every_day_has_a_date(day: int)
    ensures
        is_date_of(day, date_of(day).0, date_of(day).1, date_of(day).2),
{
    let z = day + 719_468;
    let era = z / 146_097;
    let doe = z % 146_097;
    let century = if doe / 36_524 > 3 {
        3
    } else {
        doe / 36_524
    };
    let in_century = doe - century * 36_524;
    let quad = in_century / 1461;
    let in_quad = in_century - quad * 1461;
    let single = if in_quad / 365 > 3 {
        3
    } else {
        in_quad / 365
    };
    let doy = in_quad - single * 365;
    let year = 400 * era + 100 * century + 4 * quad + single;
    assert(0 <= century <= 3 && 0 <= quad <= 24 && 0 <= single <= 3 && 0 <= doy <= 365);
    lemma_cycle(era, century, quad, single);
    assert(day == days_before_year(year + 1) + doy - 719_468);
    if doy == 365 {
        assert(single == 3 && in_quad == 1460);
        lemma_leap_place(era, century, quad);
    }
    let mp = (5 * doy + 2) / 153;
    let d = doy - (153 * mp + 2) / 5 + 1;
    let m = if mp < 10 {
        mp + 3
    } else {
        mp - 9
    };
    let y = if m <= 2 {
        year + 1
    } else {
        year
    };
    lemma_march_date(year, doy, mp, y, m, d);
    lemma_date_of(day, y, m, d);
}

/// The years of four digits hold the days from -719528 to 2932896, and no
/// others.
pub proof fn law_days_of_four_digit_years(day: int)
    ensures
        0 <= date_of(day).0 <= 9999 <==> -719_528 <= day <= 2_932_896,
{
    law_every_day_has_a_date(day);
    let (y, m, d) = date_of(day);
    lemma_date_in_year(y, m, d);
    assert(days_before_year(0) == -366);
    assert(days_before_year(10_000) == 3_652_059);
    if y < 0 {
        lemma_years_grow(y + 1, 0);
    } else if y > 9999 {
        lemma_years_grow(10_000, y);
    } else {
        lemma_years_grow(0, y);
        lemma_years_grow(y + 1, 10_000);
    }
}

// ---- computing with the calendar -----------------------------------------

/// Division that rounds down.
fn floor_div(a: i64, b: i64) -> (q: i64)
    requires
        b > 0,
    ensures
        q == a as int / b as int,
        a >= 0 ==> 0 <= q <= a,
        a < 0 ==> a <= q < 0,
{
    if a >= 0 {
        let q = a / b;
        assert(0 <= q <= a) by (nonlinear_arith)
            requires
                a >= 0,
                b > 0,
                q == a as int / b as int,
        ;
        q
    } else {
        let k: i64 = -(a + 1);
        let t: i64 = k / b;
        assert(0 <= t <= k) by (nonlinear_arith)
            requires
                k >= 0,
                b > 0,
                t == k as int / b as int,
        ;
        let q: i64 = -t - 1;
        proof {
            let r = b - 1 - k as int % b as int;
            assert(a as int == q as int * b as int + r && 0 <= r < b) by (nonlinear_arith)
                requires
                    k == -(a + 1),
                    t == k as int / b as int,
                    q == -t - 1,
                    b > 0,
                    r == b - 1 - k as int % b as int,
            ;
            lemma_fundamental_div_mod_converse(a as int, b as int, q as int, r);
        }
        q
    }
}

/// The number of a day (Gregorian, day 0 is 1970-01-01). The year runs from
/// the first of March, so that the leap day comes last. A day past the end of
/// its month counts on into the next one.
fn days_from_civil(y: i64, m: i64, d: i64) -> (r: i64)
    requires
        0 <= y <= 9999,
        1 <= m <= 12,
        1 <= d <= 31,
    ensures
        r == day_number(y as int, m as int, d as int),
        -719_600 <= r <= 3_000_000,
{
    let year: i64 = if m <= 2 {
        y - 1
    } else {
        y
    };
    let era = floor_div(year, 400);
    assert(era == -1 || (0 <= era <= 24));
    let yoe: i64 = year - era * 400;
    let mp: i64 = (m + 9) % 12;
    let doy: i64 = (153 * mp + 2) / 5 + d - 1;
    let doe: i64 = yoe * 365 + yoe / 4 - yoe / 100 + doy;
    let r: i64 = era * 146_097 + doe - 719_468;
    proof {
        let (y, m, year) = (y as int, m as int, year as int);
        let century = yoe as int / 100;
        let quad = (yoe as int % 100) / 4;
        let single = yoe as int % 4;
        assert(yoe == 100 * century + 4 * quad + single);
        assert(yoe as int / 4 == 25 * century + quad);
        lemma_cycle(era as int, century, quad, single);
        assert(days_before_year(year + 1) == era * 146_097 + yoe * 365 + yoe as int / 4 - century);
        lemma_before_month(y);
        lemma_year_length(y);
        lemma_march_offset(m);
        assert(mp == (m + 9) % 12);
    }
    r
}

/// The date of a day number.
fn civil_from_days(days: i64) -> (r: (i64, i64, i64))
    requires
        -200_000_000_000 <= days <= 200_000_000_000,
    ensures
        is_date_of(days as int, r.0 as int, r.1 as int, r.2 as int),
        -1_000_000_000 <= r.0 <= 1_000_000_000,
{
    let z: i64 = days + 719_468;
    let era = floor_div(z, 146_097);
    assert(-1_400_000 <= era <= 1_400_000);
    let doe: i64 = z - era * 146_097;
    assert(0 <= doe <= 146_096);
    let century: i64 = if doe / 36_524 > 3 {
        3
    } else {
        doe / 36_524
    };
    let in_century: i64 = doe - century * 36_524;
    let quad: i64 = in_century / 1461;
    let in_quad: i64 = in_century - quad * 1461;
    let single: i64 = if in_quad / 365 > 3 {
        3
    } else {
        in_quad / 365
    };
    let doy: i64 = in_quad - single * 365;
    let yoe: i64 = century * 100 + quad * 4 + single;
    let year: i64 = yoe + era * 400;
    assert(0 <= century <= 3 && 0 <= quad <= 24 && 0 <= single <= 3 && 0 <= doy <= 365);
    let mp: i64 = (5 * doy + 2) / 153;
    let d: i64 = doy - (153 * mp + 2) / 5 + 1;
    let m: i64 = if mp < 10 {
        mp + 3
    } else {
        mp - 9
    };
    let y: i64 = if m <= 2 {
        year + 1
    } else {
        year
    };
    proof {
        lemma_cycle(era as int, century as int, quad as int, single as int);
        assert(days == days_before_year(year + 1) + doy - 719_468);
        if doy == 365 {
            assert(single == 3 && in_quad == 1460);
            lemma_leap_place(era as int, century as int, quad as int);
        }
        lemma_march_date(year as int, doy as int, mp as int, y as int, m as int, d as int);
    }
    (y, m, d)
}

// ---- writing -------------------------------------------------------------

/// The date of a day number, as year, month and day.
pub open spec fn date_of(day: int) -> (int, int, int) {
    choose|t: (int, int, int)| #[trigger] is_date_of(day, t.0, t.1, t.2)
}

/// A date that fits is the date.
pub proof fn lemma_date_of(day: int, y: int, m: int, d: int)
    requires
        is_date_of(day, y, m, d),
    ensures
        date_of(day) == (y, m, d),
{
    let t = (y, m, d);
    assert(is_date_of(day, t.0, t.1, t.2));
    let c = date_of(day);
    assert(is_date_of(day, c.0, c.1, c.2));
    law_date_is_unique(day, y, m, d, c.0, c.1, c.2);
}

/// A year in at least four places, the sign included.
pub open spec fn year_text(y: int) -> Seq<char> {
    if y < 0 {
        seq!['-'] + padded((-y) as nat, 3)
    } else {
        padded(y as nat, 4)
    }
}

/// `YYYY-MM-DD`.
pub open spec fn date_text(y: int, m: int, d: int) -> Seq<char> {
    year_text(y) + "-"@ + padded(m as nat, 2) + "-"@ + padded(d as nat, 2)
}

/// `HH:MM:SS.mmm` for a millisecond of the day.
pub open spec fn clock_text(ms: int) -> Seq<char> {
    padded((ms / 3_600_000) as nat, 2) + ":"@ + padded((ms / 60_000 % 60) as nat, 2) + ":"@
        + padded((ms / 1000 % 60) as nat, 2) + "."@ + padded((ms % 1000) as nat, 3)
}

/// `YYYY-MM-DDTHH:MM:SS.mmmZ` for milliseconds since the epoch.
pub open spec fn iso_text(ms: int) -> Seq<char> {
    let (y, m, d) = date_of(ms / 86_400_000);
    date_text(y, m, d) + "T"@ + clock_text(ms % 86_400_000) + "Z"@
}

fn year_string(y: i64) -> (s: String)
    requires
        -1_000_000_000 <= y <= 1_000_000_000,
    ensures
        s@ == year_text(y as int),
{
    if y < 0 {
        let digits = padded_string((-y) as u64, 3);
        let mut s = "-".to_owned();
        s.append(digits.as_str());
        proof {
            reveal_strlit("-");
            assert("-"@ =~= seq!['-']);
        }
        s
    } else {
        padded_string(y as u64, 4)
    }
}

/// Format milliseconds since the epoch as `YYYY-MM-DDTHH:MM:SS.mmmZ`.
pub fn iso8601_from_epoch_ms(ms: i64) -> (s: String)
    ensures
        s@ == iso_text(ms as int),
{
    let days = floor_div(ms, 86_400_000);
    let rem: i64 = (ms as i128 - days as i128 * 86_400_000) as i64;
    assert(rem == ms as int % 86_400_000 && 0 <= rem < 86_400_000);
    let (y, m, d) = civil_from_days(days);
    proof {
        lemma_date_of(days as int, y as int, m as int, d as int);
    }
    let hh = padded_string((rem / 3_600_000) as u64, 2);
    let mm = padded_string((rem / 60_000 % 60) as u64, 2);
    let ss = padded_string((rem / 1000 % 60) as u64, 2);
    let mmm = padded_string((rem % 1000) as u64, 3);
    let month = padded_string(m as u64, 2);
    let day = padded_string(d as u64, 2);
    let mut clock = hh;
    clock.append(":");
    clock.append(mm.as_str());
    clock.append(":");
    clock.append(ss.as_str());
    clock.append(".");
    clock.append(mmm.as_str());
    let mut out = year_string(y);
    out.append("-");
    out.append(month.as_str());
    out.append("-");
    out.append(day.as_str());
    out.append("T");
    out.append(clock.as_str());
    out.append("Z");
    out
}

/// The number that the low 64 bits of `n` write, with a sign.
pub open spec fn low_signed(n: int) -> int {
    (n + 0x8000_0000_0000_0000) % 0x1_0000_0000_0000_0000 - 0x8000_0000_0000_0000
}

/// The milliseconds from the epoch to a point in time that lies so many
/// seconds and milliseconds behind or before it.
pub open spec fn offset_ms(before: bool, secs: int, millis: int) -> int {
    if before {
        -(secs * 1000 + millis)
    } else {
        secs * 1000 + millis
    }
}

/// The milliseconds from the epoch to a point in time, given as its distance
/// from the epoch and the side on which it lies. What does not fit keeps its
/// low 64 bits.
pub fn epoch_ms(before: bool, secs: u64, millis: u32) -> (ms: i64)
    ensures
        ms == low_signed(offset_ms(before, secs as int, millis as int)),
{
    let distance: i128 = secs as i128 * 1000 + millis as i128;
    let offset: i128 = if before {
        -distance
    } else {
        distance
    };
    let shifted: i128 = offset + 0x8000_0000_0000_0000;
    proof {
        lemma_mod_multiples_vanish(2000, shifted as int, 0x1_0000_0000_0000_0000);
    }
    let low: i128 = (shifted + 2000 * 0x1_0000_0000_0000_0000) % 0x1_0000_0000_0000_0000;
    (low - 0x8000_0000_0000_0000) as i64
}

/// Format a point in time as `YYYY-MM-DDTHH:MM:SS.mmmZ`, given as its distance
/// from the epoch and the side on which it lies.
pub fn iso8601(before: bool, secs: u64, millis: u32) -> (s: String)
    ensures
        s@ == iso_text(low_signed(offset_ms(before, secs as int, millis as int))),
{
    iso8601_from_epoch_ms(epoch_ms(before, secs, millis))
}

/// The point in time that many milliseconds from the epoch: whether it lies
/// before the epoch, and its distance from it in milliseconds.
pub fn system_time_from_epoch_ms(ms: i64) -> (r: (bool, u64))
    ensures
        r.0 == (ms < 0),
        r.1 == (if ms < 0 {
            -ms
        } else {
            ms as int
        }),
{
    if ms >= 0 {
        (false, ms as u64)
    } else {
        (true, (-(ms as i128)) as u64)
    }
}

/// A point in time that `system_time_from_epoch_ms` gives lies at the
/// milliseconds it was made of.
pub proof fn law_point_in_time_round_trip(ms: i64)
    ensures
        ({
            let distance = if ms < 0 {
                -ms
            } else {
                ms as int
            };
            low_signed(offset_ms(ms < 0, distance / 1000, distance % 1000)) == ms
        }),
{
}

/// Wall-clock `HH:MM:SS` from the hour, minute and second that the local time
/// zone gives, or `Invalid Date` where it gives none.
pub fn local_hms(local: Option<(u8, u8, u8)>) -> (s: String)
    ensures
        match local {
            Some(t) => s@ == padded(t.0 as nat, 2) + ":"@ + padded(t.1 as nat, 2) + ":"@ + padded(
                t.2 as nat,
                2,
            ),
            None => s@ == "Invalid Date"@,
        },
{
    match local {
        None => "Invalid Date".to_owned(),
        Some((hour, minute, second)) => {
            let mut out = padded_string(hour as u64, 2);
            let mm = padded_string(minute as u64, 2);
            let ss = padded_string(second as u64, 2);
            out.append(":");
            out.append(mm.as_str());
            out.append(":");
            out.append(ss.as_str());
            out
        },
    }
}

// ---- reading -------------------------------------------------------------

/// The number in `len` digits at `from`.
pub open spec fn num(s: Seq<char>, from: int, len: int) -> Option<int> {
    if from + len <= s.len() && all_digits(s.subrange(from, from + len)) {
        Some(number(s.subrange(from, from + len)) as int)
    } else {
        None
    }
}

/// Whether `s[i]` exists and is `c`.
pub open spec fn stands(s: Seq<char>, i: int, c: char) -> bool {
    i < s.len() && s[i] == c
}

/// The milliseconds that the digits of a fraction of a second write; digits
/// beyond the third are dropped.
pub open spec fn fraction_ms(s: Seq<char>, from: int, end: int) -> int {
    digit_value(s[from]) * 100 + (if from + 1 < end {
        digit_value(s[from + 1]) * 10
    } else {
        0
    }) + (if from + 2 < end {
        digit_value(s[from + 2])
    } else {
        0
    })
}

/// The optional seconds behind `THH:MM`, in milliseconds, and where they end.
pub open spec fn seconds_part(s: Seq<char>) -> Option<(int, int)> {
    if !stands(s, 16, ':') {
        Some((0int, 16int))
    } else if num(s, 17, 2) is None || num(s, 17, 2)->0 > 59 {
        None
    } else if !stands(s, 19, '.') {
        Some((num(s, 17, 2)->0 * 1000, 19int))
    } else if digits_end(s, 20) == 20 {
        None
    } else {
        Some(
            (
                num(s, 17, 2)->0 * 1000 + fraction_ms(s, 20, digits_end(s, 20)),
                digits_end(s, 20),
            ),
        )
    }
}

/// The optional time of day, in milliseconds, and where it ends.
pub open spec fn clock_part(s: Seq<char>) -> Option<(int, int)> {
    if !stands(s, 10, 'T') {
        Some((0int, 10int))
    } else if num(s, 11, 2) is None || !stands(s, 13, ':') || num(s, 14, 2) is None || num(
        s,
        11,
        2,
    )->0 > 24 || num(s, 14, 2)->0 > 59 || seconds_part(s) is None {
        None
    } else {
        let (ms, end) = seconds_part(s)->0;
        Some((num(s, 11, 2)->0 * 3_600_000 + num(s, 14, 2)->0 * 60_000 + ms, end))
    }
}

/// The zone at `pos`, as milliseconds to add: nothing and `Z` mean UTC.
pub open spec fn zone_part(s: Seq<char>, pos: int) -> Option<int> {
    if pos >= s.len() {
        Some(0int)
    } else if s[pos] == 'Z' {
        if pos + 1 == s.len() {
            Some(0int)
        } else {
            None
        }
    } else if s[pos] == '+' || s[pos] == '-' {
        if num(s, pos + 1, 2) is None || !stands(s, pos + 3, ':') || num(s, pos + 4, 2) is None
            || pos + 6 != s.len() {
            None
        } else {
            let ms = (num(s, pos + 1, 2)->0 * 60 + num(s, pos + 4, 2)->0) * 60_000;
            Some(
                if s[pos] == '+' {
                    -ms
                } else {
                    ms
                },
            )
        }
    } else {
        None
    }
}

/// The date at the beginning: `YYYY-MM-DD`.
pub open spec fn date_part(s: Seq<char>) -> Option<(int, int, int)> {
    if num(s, 0, 4) is None || !stands(s, 4, '-') || num(s, 5, 2) is None || !stands(s, 7, '-')
        || num(s, 8, 2) is None || !(1 <= num(s, 5, 2)->0 <= 12) || !(1 <= num(s, 8, 2)->0
        <= 31) {
        None
    } else {
        Some((num(s, 0, 4)->0, num(s, 5, 2)->0, num(s, 8, 2)->0))
    }
}

/// The milliseconds since the epoch that a timestamp
/// `YYYY-MM-DD[THH:MM[:SS[.fff]]][Z|+HH:MM|-HH:MM]` writes.
pub open spec fn iso_ms(s: Seq<char>) -> Option<int> {
    if date_part(s) is None || clock_part(s) is None || zone_part(s, (clock_part(s)->0).1)
        is None {
        None
    } else {
        let (y, m, d) = date_part(s)->0;
        let (ms, end) = clock_part(s)->0;
        Some(day_number(y, m, d) * 86_400_000 + ms + zone_part(s, end)->0)
    }
}

fn take_num(s: &[char], from: usize, len: usize) -> (r: Option<i64>)
    requires
        len == 2 || len == 4,
    ensures
        match r {
            Some(n) => num(s@, from as int, len as int) == Some(n as int) && 0 <= n <= 9999 && (
            len == 2 ==> n <= 99),
            None => num(s@, from as int, len as int) is None,
        },
{
    if s.len() < len || from > s.len() - len {
        return None;
    }
    let to: usize = from + len;
    let mut i: usize = from;
    while i < to
        invariant
            from <= i <= to <= s@.len(),
            to == from + len,
            forall|j: int| from <= j < i ==> is_digit(#[trigger] s@[j]),
        decreases to - i,
    {
        if !char_is_digit(s[i]) {
            assert(!is_digit(s@.subrange(from as int, from + len)[i - from]));
            return None;
        }
        i += 1;
    }
    let ghost run = s@.subrange(from as int, from + len);
    assert(all_digits(run)) by {
        assert forall|j: int| 0 <= j < run.len() implies is_digit(#[trigger] run[j]) by {
            assert(run[j] == s@[from + j]);
        }
    }
    let max: u64 = if len == 2 {
        99
    } else {
        9999
    };
    proof {
        lemma_short_number(run);
    }
    match digits_value(s, from, to, max) {
        Some(n) => Some(n as i64),
        None => {
            assert(false);
            None
        },
    }
}

proof fn lemma_short_number(s: Seq<char>)
    requires
        all_digits(s),
    ensures
        s.len() == 2 ==> number(s) <= 99,
        s.len() == 4 ==> number(s) <= 9999,
{
    if s.len() == 2 || s.len() == 4 {
        reveal_with_fuel(number, 5);
        let a = s.drop_last();
        let b = a.drop_last();
        assert(is_digit(s[s.len() - 1]) && is_digit(s[s.len() - 2]));
        if s.len() == 4 {
            let c = b.drop_last();
            assert(is_digit(s[0]) && is_digit(s[1]));
            assert(c.last() == s[0] && b.last() == s[1]);
            assert(c.drop_last().len() == 0);
        } else {
            assert(b.len() == 0);
        }
        assert(a.last() == s[s.len() - 2]);
    }
}

fn char_stands(s: &[char], i: usize, c: char) -> (r: bool)
    ensures
        r == stands(s@, i as int, c),
{
    i < s.len() && s[i] == c
}

fn take_seconds(s: &[char]) -> (r: Option<(i64, usize)>)
    requires
        s@.len() >= 16,
    ensures
        match r {
            Some(t) => seconds_part(s@) == Some((t.0 as int, t.1 as int)) && 0 <= t.0 < 60_000
                && t.1 <= s@.len(),
            None => seconds_part(s@) is None,
        },
{
    if !char_stands(s, 16, ':') {
        return Some((0, 16));
    }
    let second = match take_num(s, 17, 2) {
        Some(n) => n,
        None => {
            return None;
        },
    };
    if second > 59 {
        return None;
    }
    if !char_stands(s, 19, '.') {
        return Some((second * 1000, 19));
    }
    let mut end: usize = 20;
    while end < s.len() && char_is_digit(s[end])
        invariant
            20 <= end <= s@.len(),
            digits_end(s@, 20) == digits_end(s@, end as int),
            forall|j: int| 20 <= j < end ==> is_digit(#[trigger] s@[j]),
        decreases s.len() - end,
    {
        end += 1;
    }
    if end == 20 {
        return None;
    }
    assert(is_digit(s@[20]));
    let mut milli: i64 = (s[20] as u32 - 48) as i64 * 100;
    if 21 < end {
        assert(is_digit(s@[21]));
        milli = milli + (s[21] as u32 - 48) as i64 * 10;
    }
    if 22 < end {
        assert(is_digit(s@[22]));
        milli = milli + (s[22] as u32 - 48) as i64;
    }
    Some((second * 1000 + milli, end))
}

fn take_clock(s: &[char]) -> (r: Option<(i64, usize)>)
    requires
        s@.len() >= 10,
    ensures
        match r {
            Some(t) => clock_part(s@) == Some((t.0 as int, t.1 as int)) && 0 <= t.0
                <= 100_000_000 && t.1 <= s@.len(),
            None => clock_part(s@) is None,
        },
{
    if !char_stands(s, 10, 'T') {
        return Some((0, 10));
    }
    let hour = match take_num(s, 11, 2) {
        Some(n) => n,
        None => {
            return None;
        },
    };
    if !char_stands(s, 13, ':') {
        return None;
    }
    let minute = match take_num(s, 14, 2) {
        Some(n) => n,
        None => {
            return None;
        },
    };
    let (ms, end) = match take_seconds(s) {
        Some(t) => t,
        None => {
            return None;
        },
    };
    if hour > 24 || minute > 59 {
        return None;
    }
    Some((hour * 3_600_000 + minute * 60_000 + ms, end))
}

fn take_zone(s: &[char], pos: usize) -> (r: Option<i64>)
    requires
        pos <= s@.len(),
    ensures
        match r {
            Some(n) => zone_part(s@, pos as int) == Some(n as int) && -400_000_000 <= n
                <= 400_000_000,
            None => zone_part(s@, pos as int) is None,
        },
{
    if pos >= s.len() {
        return Some(0);
    }
    let c = s[pos];
    if c == 'Z' {
        if pos + 1 == s.len() {
            return Some(0);
        }
        return None;
    }
    if c == '+' || c == '-' {
        if s.len() - pos != 6 {
            return None;
        }
        let hours = match take_num(s, pos + 1, 2) {
            Some(n) => n,
            None => {
                return None;
            },
        };
        if !char_stands(s, pos + 3, ':') {
            return None;
        }
        let minutes = match take_num(s, pos + 4, 2) {
            Some(n) => n,
            None => {
                return None;
            },
        };
        let ms: i64 = (hours * 60 + minutes) * 60_000;
        if c == '+' {
            return Some(-ms);
        }
        return Some(ms);
    }
    None
}

fn take_date(s: &[char]) -> (r: Option<(i64, i64, i64)>)
    ensures
        match r {
            Some(t) => date_part(s@) == Some((t.0 as int, t.1 as int, t.2 as int)) && 0 <= t.0
                <= 9999 && 1 <= t.1 <= 12 && 1 <= t.2 <= 31 && s@.len() >= 10,
            None => date_part(s@) is None,
        },
{
    let year = match take_num(s, 0, 4) {
        Some(n) => n,
        None => {
            return None;
        },
    };
    if !char_stands(s, 4, '-') {
        return None;
    }
    let month = match take_num(s, 5, 2) {
        Some(n) => n,
        None => {
            return None;
        },
    };
    if !char_stands(s, 7, '-') {
        return None;
    }
    let day = match take_num(s, 8, 2) {
        Some(n) => n,
        None => {
            return None;
        },
    };
    if month < 1 || month > 12 || day < 1 || day > 31 {
        return None;
    }
    Some((year, month, day))
}

/// Parse an ISO-8601 timestamp into milliseconds since the epoch. `None` for
/// anything else.
pub fn parse_iso8601_ms(s: &str) -> (r: Option<i64>)
    ensures
        match r {
            Some(n) => iso_ms(s@) == Some(n as int) && -100_000_000_000_000 <= n
                <= 300_000_000_000_000,
            None => iso_ms(s@) is None,
        },
{
    let chars = to_chars(s);
    let b = chars.as_slice();
    let (year, month, day) = match take_date(b) {
        Some(t) => t,
        None => {
            return None;
        },
    };
    let (ms, end) = match take_clock(b) {
        Some(t) => t,
        None => {
            return None;
        },
    };
    let offset = match take_zone(b, end) {
        Some(n) => n,
        None => {
            return None;
        },
    };
    let days = days_from_civil(year, month, day);
    Some(days * 86_400_000 + ms + offset)
}

// ---- laws ----------------------------------------------------------------

/// A text of 24 characters with each field of a timestamp in its place.
#[verifier::opaque]
spec fn has_fields(
    s: Seq<char>,
    y: nat,
    m: nat,
    d: nat,
    hh: nat,
    mm: nat,
    ss: nat,
    f: nat,
) -> bool {
    &&& s.len() == 24
    &&& s.subrange(0, 4) == padded(y, 4)
    &&& s[4] == '-'
    &&& s.subrange(5, 7) == padded(m, 2)
    &&& s[7] == '-'
    &&& s.subrange(8, 10) == padded(d, 2)
    &&& s[10] == 'T'
    &&& s.subrange(11, 13) == padded(hh, 2)
    &&& s[13] == ':'
    &&& s.subrange(14, 16) == padded(mm, 2)
    &&& s[16] == ':'
    &&& s.subrange(17, 19) == padded(ss, 2)
    &&& s[19] == '.'
    &&& s.subrange(20, 23) == padded(f, 3)
    &&& s[23] == 'Z'
}

/// Where each field of a timestamp stands.
proof fn lemma_fields(y: nat, m: nat, d: nat, ms: int)
    requires
        y <= 9999,
        m <= 99,
        d <= 99,
        0 <= ms < 86_400_000,
    ensures
        has_fields(
            date_text(y as int, m as int, d as int) + "T"@ + clock_text(ms) + "Z"@,
            y,
            m,
            d,
            (ms / 3_600_000) as nat,
            (ms / 60_000 % 60) as nat,
            (ms / 1000 % 60) as nat,
            (ms % 1000) as nat,
        ),
{
    reveal(has_fields);
    reveal_strlit("-");
    reveal_strlit("T");
    reveal_strlit(":");
    reveal_strlit(".");
    reveal_strlit("Z");
    lemma_padded(y, 4);
    lemma_padded(m, 2);
    lemma_padded(d, 2);
    lemma_padded((ms / 3_600_000) as nat, 2);
    lemma_padded((ms / 60_000 % 60) as nat, 2);
    lemma_padded((ms / 1000 % 60) as nat, 2);
    lemma_padded((ms % 1000) as nat, 3);
    let s = date_text(y as int, m as int, d as int) + "T"@ + clock_text(ms) + "Z"@;
    assert(s.subrange(0, 4) =~= padded(y, 4));
    assert(s.subrange(5, 7) =~= padded(m, 2));
    assert(s.subrange(8, 10) =~= padded(d, 2));
    assert(s.subrange(11, 13) =~= padded((ms / 3_600_000) as nat, 2));
    assert(s.subrange(14, 16) =~= padded((ms / 60_000 % 60) as nat, 2));
    assert(s.subrange(17, 19) =~= padded((ms / 1000 % 60) as nat, 2));
    assert(s.subrange(20, 23) =~= padded((ms % 1000) as nat, 3));
}

proof fn lemma_fraction(s: Seq<char>, n: nat)
    requires
        s.len() == 24,
        n < 1000,
        s.subrange(20, 23) == padded(n, 3),
        s[23] == 'Z',
    ensures
        digits_end(s, 20) == 23,
        fraction_ms(s, 20, 23) == n,
{
    lemma_padded(n, 3);
    let t = s.subrange(20, 23);
    assert(t[0] == s[20] && t[1] == s[21] && t[2] == s[22]);
    assert(is_digit(t[0]) && is_digit(t[1]) && is_digit(t[2]));
    reveal_with_fuel(digits_end, 5);
    reveal_with_fuel(number, 4);
    assert(t.drop_last().last() == t[1]);
    assert(t.drop_last().drop_last().last() == t[0]);
    assert(t.drop_last().drop_last().drop_last().len() == 0);
}

proof fn lemma_clock_sum(ms: int)
    requires
        0 <= ms < 86_400_000,
    ensures
        (ms / 3_600_000) * 3_600_000 + (ms / 60_000 % 60) * 60_000 + (ms / 1000 % 60) * 1000 + ms
            % 1000 == ms,
        0 <= ms / 3_600_000 < 24,
        0 <= ms / 60_000 % 60 < 60,
        0 <= ms / 1000 % 60 < 60,
{
    let a = ms / 1000;
    let b = ms / 60_000;
    assert(a / 60 == b);
    assert(b / 60 == ms / 3_600_000);
}

proof fn lemma_read_fields(s: Seq<char>, y: nat, m: nat, d: nat, hh: nat, mm: nat, ss: nat, f: nat)
    requires
        y <= 9999,
        1 <= m <= 12,
        1 <= d <= 31,
        hh < 24,
        mm < 60,
        ss < 60,
        f < 1000,
        has_fields(s, y, m, d, hh, mm, ss, f),
    ensures
        iso_ms(s) == Some(
            day_number(y as int, m as int, d as int) * 86_400_000 + hh * 3_600_000 + mm * 60_000
                + ss * 1000 + f,
        ),
{
    reveal(has_fields);
    lemma_padded(y, 4);
    lemma_padded(m, 2);
    lemma_padded(d, 2);
    lemma_padded(hh, 2);
    lemma_padded(mm, 2);
    lemma_padded(ss, 2);
    lemma_fraction(s, f);
    assert(num(s, 0, 4) == Some(y as int));
    assert(num(s, 5, 2) == Some(m as int));
    assert(num(s, 8, 2) == Some(d as int));
    assert(num(s, 11, 2) == Some(hh as int));
    assert(num(s, 14, 2) == Some(mm as int));
    assert(num(s, 17, 2) == Some(ss as int));
    assert(date_part(s) == Some((y as int, m as int, d as int)));
    assert(seconds_part(s) == Some(((ss * 1000 + f) as int, 23int)));
    assert(clock_part(s) == Some(((hh * 3_600_000 + mm * 60_000 + (ss * 1000 + f)) as int, 23int)));
    assert(zone_part(s, 23) == Some(0int));
}

proof fn lemma_iso_form(ms: int, y: int, m: int, d: int)
    requires
        is_date_of(ms / 86_400_000, y, m, d),
    ensures
        iso_text(ms) == date_text(y, m, d) + "T"@ + clock_text(ms % 86_400_000) + "Z"@,
        1 <= m <= 12,
        1 <= d <= 31,
{
    lemma_date_of(ms / 86_400_000, y, m, d);
}

proof fn lemma_written_is_read(y: int, m: int, d: int, rem: int)
    requires
        0 <= y <= 9999,
        1 <= m <= 12,
        1 <= d <= 31,
        0 <= rem < 86_400_000,
    ensures
        iso_ms(date_text(y, m, d) + "T"@ + clock_text(rem) + "Z"@) == Some(
            day_number(y, m, d) * 86_400_000 + rem,
        ),
{
    let s = date_text(y, m, d) + "T"@ + clock_text(rem) + "Z"@;
    lemma_fields(y as nat, m as nat, d as nat, rem);
    lemma_clock_sum(rem);
    lemma_read_fields(
        s,
        y as nat,
        m as nat,
        d as nat,
        (rem / 3_600_000) as nat,
        (rem / 60_000 % 60) as nat,
        (rem / 1000 % 60) as nat,
        (rem % 1000) as nat,
    );
}

/// A timestamp that was written is read back, for every year of four digits:
/// from 0000-01-01T00:00:00.000Z to 9999-12-31T23:59:59.999Z.
pub proof fn law_iso_round_trip(ms: int)
    requires
        -62_167_219_200_000 <= ms <= 253_402_300_799_999,
    ensures
        iso_ms(iso_text(ms)) == Some(ms),
{
    let rem = ms % 86_400_000;
    let day = ms / 86_400_000;
    assert(0 <= rem < 86_400_000 && ms == day * 86_400_000 + rem);
    assert(-719_528 <= day <= 2_932_896);
    law_every_day_has_a_date(day);
    law_days_of_four_digit_years(day);
    let (y, m, d) = date_of(day);
    lemma_iso_form(ms, y, m, d);
    let written = date_text(y, m, d) + "T"@ + clock_text(rem) + "Z"@;
    assert(iso_ms(written) == Some(day * 86_400_000 + rem)) by {
        lemma_written_is_read(y, m, d, rem);
    }
}

/// The calendar: the day after a date is the next of the month, the first of
/// the next month, or the first of January; February has 29 days in a leap
/// year, which is every fourth but for the centuries that 400 does not divide.
pub proof fn law_next_day(y: int, m: int, d: int)
    requires
        valid_date(y, m, d),
    ensures
        valid_date(y, m, d + 1) ==> day_number(y, m, d + 1) == day_number(y, m, d) + 1,
        !valid_date(y, m, d + 1) && m < 12 ==> day_number(y, m + 1, 1) == day_number(y, m, d) + 1,
        !valid_date(y, m, d + 1) && m == 12 ==> day_number(y + 1, 1, 1) == day_number(y, m, d) + 1,
        valid_date(y, m, 28),
        valid_date(y, 2, 29) <==> y % 400 == 0 || (y % 4 == 0 && y % 100 != 0),
        valid_date(y, m, 30) <==> m != 2,
        valid_date(y, m, 31) <==> m == 1 || m == 3 || m == 5 || m == 7 || m == 8 || m == 10 || m
            == 12,
        !valid_date(y, m, 32) && !valid_date(y, m, 0) && !valid_date(y, 0, d) && !valid_date(
            y,
            13,
            d,
        ) && !valid_date(y, 2, 30),
{
    lemma_leap_parts(y);
    lemma_before_month(y);
    lemma_before_month(y + 1);
    lemma_year_length(y);
}

/// How a point in time is written: the date, `T`, the time of day to the
/// millisecond and `Z`.
pub proof fn law_written_time(y: int, m: int, d: int, hh: int, mm: int, ss: int, f: int)
    requires
        0 <= y <= 9999,
        valid_date(y, m, d),
        0 <= hh < 24,
        0 <= mm < 60,
        0 <= ss < 60,
        0 <= f < 1000,
    ensures
        iso_text(day_number(y, m, d) * 86_400_000 + hh * 3_600_000 + mm * 60_000 + ss * 1000 + f)
            == padded(y as nat, 4) + "-"@ + padded(m as nat, 2) + "-"@ + padded(d as nat, 2) + "T"@
            + (padded(hh as nat, 2) + ":"@ + padded(mm as nat, 2) + ":"@ + padded(ss as nat, 2)
            + "."@ + padded(f as nat, 3)) + "Z"@,
{
    let day = day_number(y, m, d);
    let rem = hh * 3_600_000 + mm * 60_000 + ss * 1000 + f;
    let ms = day * 86_400_000 + rem;
    lemma_clock_fields(hh, mm, ss, f);
    assert(ms / 86_400_000 == day && ms % 86_400_000 == rem);
    lemma_iso_form(ms, y, m, d);
}

/// How a point in time is read: the fields count as they are written.
pub proof fn law_read_time(y: nat, m: nat, d: nat, hh: nat, mm: nat, ss: nat, f: nat)
    requires
        y <= 9999,
        1 <= m <= 12,
        1 <= d <= 31,
        hh < 24,
        mm < 60,
        ss < 60,
        f < 1000,
    ensures
        iso_ms(
            padded(y, 4) + "-"@ + padded(m, 2) + "-"@ + padded(d, 2) + "T"@ + (padded(hh, 2) + ":"@
                + padded(mm, 2) + ":"@ + padded(ss, 2) + "."@ + padded(f, 3)) + "Z"@,
        ) == Some(
            day_number(y as int, m as int, d as int) * 86_400_000 + hh * 3_600_000 + mm * 60_000
                + ss * 1000 + f,
        ),
{
    let rem = hh * 3_600_000 + mm * 60_000 + ss * 1000 + f;
    lemma_clock_fields(hh as int, mm as int, ss as int, f as int);
    lemma_written_is_read(y as int, m as int, d as int, rem as int);
    assert(date_text(y as int, m as int, d as int) == padded(y, 4) + "-"@ + padded(m, 2) + "-"@
        + padded(d, 2));
}

/// The time of day of so many hours, minutes, seconds and milliseconds.
proof fn lemma_clock_fields(hh: int, mm: int, ss: int, f: int)
    requires
        0 <= hh < 24,
        0 <= mm < 60,
        0 <= ss < 60,
        0 <= f < 1000,
    ensures
        ({
            let rem = hh * 3_600_000 + mm * 60_000 + ss * 1000 + f;
            0 <= rem < 86_400_000 && clock_text(rem) == padded(hh as nat, 2) + ":"@ + padded(
                mm as nat,
                2,
            ) + ":"@ + padded(ss as nat, 2) + "."@ + padded(f as nat, 3)
        }),
{
    let rem = hh * 3_600_000 + mm * 60_000 + ss * 1000 + f;
    assert(rem / 3_600_000 == hh);
    assert(rem / 60_000 == hh * 60 + mm);
    assert(rem / 60_000 % 60 == mm);
    assert(rem / 1000 == (hh * 60 + mm) * 60 + ss);
    assert(rem / 1000 % 60 == ss);
    assert(rem % 1000 == f);
}

/// A date alone is its first millisecond.
pub proof fn law_read_date(y: nat, m: nat, d: nat)
    requires
        y <= 9999,
        1 <= m <= 12,
        1 <= d <= 31,
    ensures
        iso_ms(padded(y, 4) + "-"@ + padded(m, 2) + "-"@ + padded(d, 2)) == Some(
            day_number(y as int, m as int, d as int) * 86_400_000,
        ),
{
    let s = padded(y, 4) + "-"@ + padded(m, 2) + "-"@ + padded(d, 2);
    lemma_padded(y, 4);
    lemma_padded(m, 2);
    lemma_padded(d, 2);
    reveal_strlit("-");
    assert("-"@ =~= seq!['-']);
    assert(s.subrange(0, 4) =~= padded(y, 4));
    assert(s.subrange(5, 7) =~= padded(m, 2));
    assert(s.subrange(8, 10) =~= padded(d, 2));
    assert(s[4] == '-' && s[7] == '-' && s.len() == 10);
}

/// A zone of so many hours and minutes is taken off the time where it is ahead,
/// and put on it where it is behind; `Z` and nothing are no zone.
pub proof fn law_read_zone(t: Seq<char>, hh: nat, mm: nat, rest: Seq<char>)
    requires
        hh < 100,
        mm < 100,
    ensures
        zone_part(t + seq!['+'] + padded(hh, 2) + ":"@ + padded(mm, 2), t.len() as int) == Some(
            -((hh * 60 + mm) * 60_000),
        ),
        zone_part(t + seq!['-'] + padded(hh, 2) + ":"@ + padded(mm, 2), t.len() as int) == Some(
            ((hh * 60 + mm) * 60_000) as int,
        ),
        zone_part(t, t.len() as int) == Some(0int),
        zone_part(t + seq!['Z'], t.len() as int) == Some(0int),
        rest.len() > 0 ==> zone_part(t + seq!['Z'] + rest, t.len() as int) is None,
        rest.len() > 0 && rest[0] != 'Z' && rest[0] != '+' && rest[0] != '-' ==> zone_part(
            t + rest,
            t.len() as int,
        ) is None,
{
    lemma_padded(hh, 2);
    lemma_padded(mm, 2);
    reveal_strlit(":");
    assert(":"@ =~= seq![':']);
    lemma_zone(t, '+', hh, mm);
    lemma_zone(t, '-', hh, mm);
    let n = t.len() as int;
    assert((t + seq!['Z'])[n] == 'Z');
    if rest.len() > 0 {
        assert((t + seq!['Z'] + rest)[n] == 'Z');
        assert((t + rest)[n] == rest[0]);
    }
}

proof fn lemma_zone(t: Seq<char>, sign: char, hh: nat, mm: nat)
    requires
        hh < 100,
        mm < 100,
    ensures
        ({
            let s = t + seq![sign] + padded(hh, 2) + ":"@ + padded(mm, 2);
            let n = t.len() as int;
            &&& s.len() == n + 6 && s[n] == sign && num(s, n + 1, 2) == Some(hh as int)
            &&& stands(s, n + 3, ':') && num(s, n + 4, 2) == Some(mm as int)
        }),
{
    lemma_padded(hh, 2);
    lemma_padded(mm, 2);
    reveal_strlit(":");
    assert(":"@ =~= seq![':']);
    let s = t + seq![sign] + padded(hh, 2) + ":"@ + padded(mm, 2);
    let n = t.len() as int;
    assert(s[n] == sign && s[n + 3] == ':');
    assert(s.subrange(n + 1, n + 3) =~= padded(hh, 2));
    assert(s.subrange(n + 4, n + 6) =~= padded(mm, 2));
}

/// Months, days, hours, minutes and seconds that there are not are refused, and
/// so is a date that does not begin with the three numbers.
pub proof fn law_refused_times(s: Seq<char>)
    ensures
        num(s, 0, 4) is None || num(s, 5, 2) is None || num(s, 8, 2) is None ==> iso_ms(s) is None,
        !stands(s, 4, '-') || !stands(s, 7, '-') ==> iso_ms(s) is None,
        num(s, 5, 2) is Some && (num(s, 5, 2)->0 < 1 || num(s, 5, 2)->0 > 12) ==> iso_ms(s) is None,
        num(s, 8, 2) is Some && (num(s, 8, 2)->0 < 1 || num(s, 8, 2)->0 > 31) ==> iso_ms(s) is None,
        stands(s, 10, 'T') && (num(s, 11, 2) is None || num(s, 11, 2)->0 > 24 || num(s, 14, 2)
            is None || num(s, 14, 2)->0 > 59 || !stands(s, 13, ':')) ==> iso_ms(s) is None,
        stands(s, 10, 'T') && stands(s, 16, ':') && (num(s, 17, 2) is None || num(s, 17, 2)->0
            > 59) ==> iso_ms(s) is None,
        iso_ms(s) is None <==> date_part(s) is None || clock_part(s) is None || zone_part(
            s,
            (clock_part(s)->0).1,
        ) is None,
{
}

/// A number in the text: all its places are digits, and it counts in tens.
pub proof fn law_numbers_in_times(s: Seq<char>, from: int)
    requires
        0 <= from,
        from + 2 <= s.len(),
    ensures
        num(s, from, 2) is Some <==> is_digit(s[from]) && is_digit(s[from + 1]),
        num(s, from, 2) is Some ==> num(s, from, 2)->0 == 10 * (s[from] as int - '0' as int) + (
        s[from + 1] as int - '0' as int),
{
    let t = s.subrange(from, from + 2);
    assert(t[0] == s[from] && t[1] == s[from + 1]);
    assert(t.drop_last() =~= seq![s[from]]);
    assert(seq![s[from]].drop_last() =~= Seq::<char>::empty());
    reveal_with_fuel(number, 3);
    if is_digit(s[from]) && is_digit(s[from + 1]) {
        assert(all_digits(t)) by {
            assert forall|i: int| 0 <= i < t.len() implies is_digit(#[trigger] t[i]) by {
                assert(i == 0 || i == 1);
            }
        }
    }
}

/// Milliseconds before the epoch are negative, and what does not fit in 64 bits
/// wraps.
pub proof fn law_offset_from_the_epoch(secs: int, millis: int, n: int)
    ensures
        offset_ms(false, secs, millis) == secs * 1000 + millis,
        offset_ms(true, secs, millis) == -(secs * 1000 + millis),
        i64::MIN <= n <= i64::MAX ==> low_signed(n) == n,
        low_signed(n + 0x1_0000_0000_0000_0000) == low_signed(n),
        i64::MIN <= low_signed(n) <= i64::MAX,
{
}

/// A fraction counts in tenths, hundredths and thousandths, and its further
/// digits do not count; a year before the first has a sign and three places.
pub proof fn law_fractions(s: Seq<char>, from: int, end: int, y: int)
    requires
        0 <= from < end <= s.len(),
    ensures
        ({
            let d = |i: int| s[i] as int - '0' as int;
            &&& end == from + 1 ==> fraction_ms(s, from, end) == 100 * d(from)
            &&& end == from + 2 ==> fraction_ms(s, from, end) == 100 * d(from) + 10 * d(from + 1)
            &&& end >= from + 3 ==> fraction_ms(s, from, end) == 100 * d(from) + 10 * d(from + 1)
                + d(from + 2)
        }),
        y >= 0 ==> year_text(y) == padded(y as nat, 4),
        y < 0 ==> year_text(y) == seq!['-'] + padded((-y) as nat, 3),
{
}

/// What follows the date: nothing is midnight, and behind the minutes nothing
/// is the full minute.
pub proof fn law_short_times(s: Seq<char>)
    ensures
        !stands(s, 10, 'T') ==> clock_part(s) == Some((0int, 10int)),
        stands(s, 10, 'T') && num(s, 11, 2) is Some && num(s, 11, 2)->0 <= 24 && stands(s, 13, ':')
            && num(s, 14, 2) is Some && num(s, 14, 2)->0 <= 59 && !stands(s, 16, ':') ==> clock_part(
            s,
        ) == Some((num(s, 11, 2)->0 * 3_600_000 + num(s, 14, 2)->0 * 60_000, 16int)),
        stands(s, 16, ':') && num(s, 17, 2) is Some && num(s, 17, 2)->0 <= 59 && !stands(s, 19, '.')
            ==> seconds_part(s) == Some((num(s, 17, 2)->0 * 1000, 19int)),
        stands(s, 16, ':') && num(s, 17, 2) is Some && num(s, 17, 2)->0 <= 59 && stands(s, 19, '.')
            && !(20 < s.len() && is_digit(s[20])) ==> seconds_part(s) is None,
{
}

} // verus!
