//! Proleptic Gregorian calendar arithmetic on Unix day numbers
//! (day 0 is 1970-01-01), with ISO 8601 weeks and weekdays.
use vstd::prelude::*;

verus! {

// ---------------------------------------------------------------------------
// The calendar, stated directly
// ---------------------------------------------------------------------------

/// Gregorian leap-year rule.
pub open spec fn is_leap_year(y: int) -> bool {
    y % 4 == 0 && (y % 100 != 0 || y % 400 == 0)
}

/// Length of month `m` (1 = January) of year `y`.
pub open spec fn days_in_month(y: int, m: int) -> int {
    if m == 2 {
        if is_leap_year(y) { 29 } else { 28 }
    } else if m == 4 || m == 6 || m == 9 || m == 11 {
        30
    } else {
        31
    }
}

/// `(y, m, d)` names a day of the calendar.
pub open spec fn is_valid_date(y: int, m: int, d: int) -> bool {
    1 <= m <= 12 && 1 <= d <= days_in_month(y, m)
}

/// Leap years among `1..=n` (for `n < 0`, minus those among `n+1..=0`),
/// so that `leap_years_through(b) - leap_years_through(a)` counts the leap
/// years in `a+1..=b`.
pub open spec fn leap_years_through(n: int) -> int {
    n / 4 - n / 100 + n / 400
}

/// Days from 1970-01-01 to 1 January of year `y`.
pub open spec fn year_start(y: int) -> int {
    365 * (y - 1970) + leap_years_through(y - 1) - leap_years_through(1969)
}

/// Days from 1 January to the first day of month `m` in year `y`.
pub open spec fn days_before_month(y: int, m: int) -> int {
    let base: int = if m <= 1 {
        0
    } else if m == 2 {
        31
    } else if m == 3 {
        59
    } else if m == 4 {
        90
    } else if m == 5 {
        120
    } else if m == 6 {
        151
    } else if m == 7 {
        181
    } else if m == 8 {
        212
    } else if m == 9 {
        243
    } else if m == 10 {
        273
    } else if m == 11 {
        304
    } else {
        334
    };
    if m > 2 && is_leap_year(y) {
        base + 1
    } else {
        base
    }
}

/// The Unix day number of the date `(y, m, d)`.
pub open spec fn day_number(y: int, m: int, d: int) -> int {
    year_start(y) + days_before_month(y, m) + d - 1
}

/// The date whose Unix day number is `z`.
#[verifier::opaque]
pub open spec fn civil_date(z: int) -> (int, int, int) {
    choose|ymd: (int, int, int)| is_valid_date(ymd.0, ymd.1, ymd.2) && day_number(ymd.0, ymd.1, ymd.2) == z
}

/// ISO weekday of Unix day `z`: 0 = Monday .. 6 = Sunday (1970-01-01 was a Thursday).
pub open spec fn iso_weekday(z: int) -> int {
    (z + 3) % 7
}

/// The Thursday of the ISO week (Monday..Sunday) that holds day `z`.
pub open spec fn week_thursday(z: int) -> int {
    z - iso_weekday(z) + 3
}

/// ISO 8601 week number of Unix day `z`: a week belongs to the year of its
/// Thursday, and week 1 is the one holding that year's first Thursday.
#[verifier::opaque]
pub open spec fn iso_week(z: int) -> int {
    let thu = week_thursday(z);
    (thu - year_start(civil_date(thu).0)) / 7 + 1
}

// ---------------------------------------------------------------------------
// Facts about the calendar
// ---------------------------------------------------------------------------

proof fn lemma_leap_step(y: int)
    ensures
        leap_years_through(y) - leap_years_through(y - 1) == if is_leap_year(y) { 1int } else { 0int },
{
}

proof fn lemma_year_start_step(y: int)
    ensures
        year_start(y + 1) == year_start(y) + 365 + if is_leap_year(y) { 1int } else { 0int },
{
    lemma_leap_step(y);
}

proof fn lemma_year_start_increasing(a: int, b: int)
    requires
        a < b,
    ensures
        year_start(a + 1) <= year_start(b),
    decreases b - a,
{
    lemma_year_start_step(a);
    if a + 1 < b {
        lemma_year_start_increasing(a + 1, b);
        lemma_year_start_step(a + 1);
    }
}

proof fn lemma_date_within_year(y: int, m: int, d: int)
    requires
        is_valid_date(y, m, d),
    ensures
        year_start(y) <= day_number(y, m, d) < year_start(y + 1),
        days_before_month(y, m) <= day_number(y, m, d) - year_start(y),
        m < 12 ==> day_number(y, m, d) - year_start(y) < days_before_month(y, m + 1),
{
    lemma_year_start_step(y);
}

/// Valid dates and day numbers correspond one to one.
pub proof fn lemma_day_number_injective(y1: int, m1: int, d1: int, y2: int, m2: int, d2: int)
    requires
        is_valid_date(y1, m1, d1),
        is_valid_date(y2, m2, d2),
        day_number(y1, m1, d1) == day_number(y2, m2, d2),
    ensures
        y1 == y2 && m1 == m2 && d1 == d2,
{
    lemma_date_within_year(y1, m1, d1);
    lemma_date_within_year(y2, m2, d2);
    if y1 < y2 {
        lemma_year_start_increasing(y1, y2);
    } else if y2 < y1 {
        lemma_year_start_increasing(y2, y1);
    }
    assert(y1 == y2);
    if m1 < m2 {
        lemma_months_ordered(y1, m1 + 1, m2);
    } else if m2 < m1 {
        lemma_months_ordered(y1, m2 + 1, m1);
    }
}

proof fn lemma_months_ordered(y: int, a: int, b: int)
    requires
        1 <= a <= b <= 12,
    ensures
        days_before_month(y, a) <= days_before_month(y, b),
{
}


// ---------------------------------------------------------------------------
// Days counted from 0000-03-01, years starting in March
// ---------------------------------------------------------------------------

/// Days from 1 March to the first day of the `mp`-th month after March
/// (0 = March .. 11 = February).
pub open spec fn days_before_march_month(mp: int) -> int {
    (153 * mp + 2) / 5
}

/// The `mp` index (0 = March) of month `m` (1 = January).
pub open spec fn march_month_index(m: int) -> int {
    if m > 2 { m - 3 } else { m + 9 }
}

/// The year that starts in March and holds month `m` of Jan-based year `y`.
pub open spec fn march_year(y: int, m: int) -> int {
    if m <= 2 { y - 1 } else { y }
}

/// Splitting a March-based year into 400-year eras.
proof fn lemma_era_split(era: int, yoe: int)
    requires
        0 <= yoe < 400,
    ensures
        365 * (400 * era + yoe) + leap_years_through(400 * era + yoe)
            == 146097 * era + 365 * yoe + yoe / 4 - yoe / 100,
{
    assert((400 * era + yoe) / 4 == 100 * era + yoe / 4);
    assert((400 * era + yoe) / 100 == 4 * era + yoe / 100);
    assert((400 * era + yoe) / 400 == era);
}

/// The day number of a date, counted the March-based way.
proof fn lemma_day_number_from_march(y: int, m: int, d: int)
    requires
        1 <= m <= 12,
    ensures
        day_number(y, m, d) == 365 * march_year(y, m) + leap_years_through(march_year(y, m))
            + days_before_march_month(march_month_index(m)) + d - 1 - 719468,
{
    lemma_leap_step(y);
    assert(leap_years_through(1969) == 477);
}


/// Within a 400-year era, `doe` days after its start fall in March-based
/// year `yoe`, on day `doy` of that year.
proof fn lemma_year_of_era(doe: int)
    requires
        0 <= doe <= 146096,
    ensures
        ({
            let yoe = (doe - doe / 1460 + doe / 36524 - doe / 146096) / 365;
            let doy = doe - (365 * yoe + yoe / 4 - yoe / 100);
            &&& 0 <= yoe <= 399
            &&& 0 <= doy
            &&& doy < 365 + if is_leap_year(yoe + 1) { 1int } else { 0int }
        }),
{
    // doe = 36524 a + 1461 b + 365 c + k: centuries, four-year cycles, years, days
    let a: int = if doe / 36524 > 3 { 3 } else { doe / 36524 };
    let r1 = doe - 36524 * a;
    let b: int = r1 / 1461;
    let r2 = r1 - 1461 * b;
    let c: int = if r2 / 365 > 3 { 3 } else { r2 / 365 };
    let k = r2 - 365 * c;
    assert(0 <= b <= 24);
    assert(0 <= k <= 365);
    assert(k == 365 ==> c == 3 && (b != 24 || a == 3));
    let leap_day: int = if 24 * a + b + 365 * c + k >= 1460 { 1 } else { 0 };
    assert(k == 365 ==> leap_day == 1);
    assert(k == 0 ==> leap_day == 0);
    let last: int = if doe == 146096 { 1 } else { 0 };
    assert(doe / 1460 == 25 * a + b + leap_day);
    assert(doe / 36524 == a + last);
    assert(doe / 146096 == last);
    let yoe = (doe - doe / 1460 + doe / 36524 - doe / 146096) / 365;
    assert(doe - doe / 1460 + doe / 36524 - doe / 146096 == 365 * (100 * a + 4 * b + c) + k - leap_day);
    assert(yoe == 100 * a + 4 * b + c);
    assert(yoe / 4 == 25 * a + b);
    assert(yoe / 100 == a);
}

/// Day `doy` of a March-based year is day `d` of month `m`.
proof fn lemma_month_of_year_day(doy: int, y: int)
    requires
        0 <= doy < 365 + if is_leap_year(y) { 1int } else { 0int },
    ensures
        ({
            let mp = (5 * doy + 2) / 153;
            let d = doy - (153 * mp + 2) / 5 + 1;
            let m = if mp < 10 { mp + 3 } else { mp - 9 };
            &&& 0 <= mp <= 11
            &&& 1 <= m <= 12
            &&& march_month_index(m) == mp
            &&& 1 <= d <= days_in_month(y, m)
            &&& days_before_march_month(mp) + d - 1 == doy
        }),
{
    let mp = (5 * doy + 2) / 153;
    assert(0 <= mp <= 11);
    if mp == 11 {
        assert(doy - (153 * mp + 2) / 5 + 1 <= days_in_month(y, 2));
    }
}

/// Splitting a day count into 400-year eras.
proof fn lemma_era_of_day(z: int) -> (ed: (int, int))
    ensures
        0 <= ed.1 <= 146096,
        z + 719468 == 146097 * ed.0 + ed.1,
{
    let zz = z + 719468;
    (zz / 146097, zz % 146097)
}

/// A date with day number `z`, found the way `civil_from_days` finds it.
proof fn lemma_date_of_day_number(z: int) -> (ymd: (int, int, int))
    ensures
        is_valid_date(ymd.0, ymd.1, ymd.2),
        day_number(ymd.0, ymd.1, ymd.2) == z,
{
    let (era, doe) = lemma_era_of_day(z);
    lemma_year_of_era(doe);
    let yoe = (doe - doe / 1460 + doe / 36524 - doe / 146096) / 365;
    let doy = doe - (365 * yoe + yoe / 4 - yoe / 100);
    let yy = yoe + era * 400 + 1;
    lemma_leap_year_mod_400(era, yoe + 1);
    lemma_month_of_year_day(doy, yy);
    let mp = (5 * doy + 2) / 153;
    let d = doy - (153 * mp + 2) / 5 + 1;
    let m = if mp < 10 { mp + 3 } else { mp - 9 };
    let y = if m <= 2 { yy } else { yy - 1 };
    lemma_era_split(era, yoe);
    lemma_day_number_from_march(y, m, d);
    assert(march_year(y, m) == 400 * era + yoe);
    (y, m, d)
}

/// Leap years repeat every 400 years.
proof fn lemma_leap_year_mod_400(era: int, y: int)
    ensures
        is_leap_year(400 * era + y) == is_leap_year(y),
{
    assert((400 * era + y) % 4 == y % 4);
    assert((400 * era + y) % 100 == y % 100);
    assert((400 * era + y) % 400 == y % 400);
}

/// Every Unix day number is the day number of exactly one valid date, so
/// `civil_date` is the inverse of `day_number`.
pub proof fn lemma_civil_date(z: int)
    ensures
        is_valid_date(civil_date(z).0, civil_date(z).1, civil_date(z).2),
        day_number(civil_date(z).0, civil_date(z).1, civil_date(z).2) == z,
{
    reveal(civil_date);
    let w = lemma_date_of_day_number(z);
    assert(is_valid_date(w.0, w.1, w.2) && day_number(w.0, w.1, w.2) == z);
}

/// `civil_date` picks the one valid date with the given day number.
pub proof fn lemma_civil_date_of_day_number(y: int, m: int, d: int)
    requires
        is_valid_date(y, m, d),
    ensures
        civil_date(day_number(y, m, d)) == (y, m, d),
{
    let z = day_number(y, m, d);
    lemma_civil_date(z);
    lemma_day_number_injective(y, m, d, civil_date(z).0, civil_date(z).1, civil_date(z).2);
}

/// The week's Thursday lies in the ISO year, so weeks run from 1 to 53.
pub proof fn lemma_iso_week_range(z: int)
    ensures
        1 <= iso_week(z) <= 53,
        0 <= iso_weekday(z) < 7,
        week_thursday(z) % 7 == 0,
        year_start(civil_date(week_thursday(z)).0) <= week_thursday(z),
        week_thursday(z) - year_start(civil_date(week_thursday(z)).0) <= 365,
{
    reveal(iso_week);
    let thu = week_thursday(z);
    lemma_civil_date(thu);
    let ymd = civil_date(thu);
    lemma_date_within_year(ymd.0, ymd.1, ymd.2);
    lemma_year_start_step(ymd.0);
}

/// Counting weeks from the Monday of the week that holds 4 January gives
/// the ISO week number.
proof fn lemma_iso_week_from_jan4(z: int, jan4: int)
    requires
        jan4 == year_start(civil_date(week_thursday(z)).0) + 3,
    ensures
        week_thursday(z) - (jan4 - (jan4 + 3) % 7) >= 0,
        iso_week(z) == (week_thursday(z) - (jan4 - (jan4 + 3) % 7)) / 7 + 1,
{
    reveal(iso_week);
    lemma_iso_week_range(z);
    let thu = week_thursday(z);
    let jan1 = jan4 - 3;
    let s = (jan4 + 3) % 7;
    let q = thu / 7;
    let p = (jan4 + 3) / 7;
    assert(thu == 7 * q);
    assert(jan4 + 3 == 7 * p + s);
    assert(thu - (jan4 - s) == 7 * (q - p) + 3);
    assert(thu - jan1 == 7 * (q - p) + 6 - s);
    assert((thu - jan1) / 7 == q - p);
    assert((thu - (jan4 - s)) / 7 == q - p);
}

/// The steps of `iso_week_and_day`, on mathematical integers.
proof fn lemma_iso_week_steps(z: int, dow: int, thu: int, jan4: int, jan4_dow: int)
    requires
        dow == (z + 3) % 7,
        thu == z + (3 - dow),
        jan4 == year_start(civil_date(thu).0) + 3,
        jan4_dow == (jan4 + 3) % 7,
    ensures
        0 <= (thu - (jan4 - jan4_dow)) / 7 <= 52,
        thu - (jan4 - jan4_dow) >= 0,
        (thu - (jan4 - jan4_dow)) / 7 + 1 == iso_week(z),
        dow == iso_weekday(z),
        1 <= iso_week(z) <= 53,
{
    lemma_iso_week_range(z);
    lemma_iso_week_from_jan4(z, jan4);
}

// ---------------------------------------------------------------------------
// Executable conversions
// ---------------------------------------------------------------------------

/// Unix day number of the date `(y, m, d)` (Howard Hinnant's
/// `days_from_civil`; O(1), no tables). Days past the month's end count on
/// into the next months; day 0 is the day before day 1 (except in March,
/// where it would underflow).
pub fn days_from_civil(y: i32, m: u32, d: u32) -> (days: i64)
    requires
        1 <= m <= 12,
        !(m == 3 && d == 0),
        d <= 4_294_000_000,
    ensures
        days == day_number(y as int, m as int, d as int),
{
    let y: i64 = if m <= 2 { y as i64 - 1 } else { y as i64 };
    let era: i64 = (if y >= 0 { y } else { y - 399 }) / 400;
    assert(era == y / 400);
    let yoe = (y - era * 400) as u32;
    let doy = (153 * (if m > 2 { m - 3 } else { m + 9 }) + 2) / 5 + d - 1;
    let doe = yoe * 365 + yoe / 4 - yoe / 100 + doy;
    proof {
        lemma_era_split(era as int, yoe as int);
        lemma_day_number_from_march(y as int + if m <= 2 { 1int } else { 0int }, m as int, d as int);
    }
    era * 146_097 + doe as i64 - 719_468
}


/// The date of Unix day `z` (Howard Hinnant's `civil_from_days`; O(1),
/// no tables). The year is returned as `i32`, truncated as `as i32` does;
/// within 400 billion days of 1970 it is exact.
pub fn civil_from_days(z: i64) -> (ymd: (i32, u32, u32))
    requires
        z <= i64::MAX - 719_468,
    ensures
        ymd.0 == civil_date(z as int).0 as i32,
        ymd.1 == civil_date(z as int).1,
        ymd.2 == civil_date(z as int).2,
        -400_000_000_000 <= z <= 400_000_000_000 ==> {
            &&& (ymd.0 as int, ymd.1 as int, ymd.2 as int) == civil_date(z as int)
            &&& is_valid_date(ymd.0 as int, ymd.1 as int, ymd.2 as int)
            &&& day_number(ymd.0 as int, ymd.1 as int, ymd.2 as int) == z
        },
{
    let z0 = z;
    let z = z + 719_468;
    let era: i64 = (if z >= 0 { z } else { z - 146_096 }) / 146_097;
    assert(era == z / 146_097);
    let doe = (z - era * 146_097) as u32;
    proof {
        lemma_year_of_era(doe as int);
    }
    let yoe = (doe - doe / 1460 + doe / 36524 - doe / 146_096) / 365;
    let y = yoe as i64 + era * 400;
    let doy = doe - (365 * yoe + yoe / 4 - yoe / 100);
    proof {
        lemma_leap_year_mod_400(era as int, yoe + 1);
        lemma_month_of_year_day(doy as int, y + 1);
    }
    let mp = (5 * doy + 2) / 153;
    let d = doy - (153 * mp + 2) / 5 + 1;
    let m = if mp < 10 { mp + 3 } else { mp - 9 };
    let y = if m <= 2 { y + 1 } else { y };
    proof {
        lemma_era_split(era as int, yoe as int);
        lemma_day_number_from_march(y as int, m as int, d as int);
        assert(march_year(y as int, m as int) == 400 * era + yoe);
        assert(day_number(y as int, m as int, d as int) == z0);
        lemma_civil_date_of_day_number(y as int, m as int, d as int);
        if -400_000_000_000 <= z0 <= 400_000_000_000 {
            assert(-1_100_000_000 <= y <= 1_100_000_000);
        }
    }
    (y as i32, m, d)
}

/// `x.rem_euclid(7)`.
fn rem_euclid_7(x: i64) -> (r: i64)
    ensures
        r == x % 7,
{
    let r = x % 7;
    if r < 0 {
        r + 7
    } else {
        r
    }
}

/// 4 January of the year that holds Unix day `day`.
fn jan4_of_year_of(day: i64) -> (jan4: i64)
    requires
        -400_000_000_000 <= day <= 400_000_000_000,
    ensures
        jan4 == year_start(civil_date(day as int).0) + 3,
        day - 362 <= jan4 <= day + 3,
{
    let (y, m, d) = civil_from_days(day);
    proof {
        lemma_date_within_year(y as int, m as int, d as int);
        lemma_year_start_step(y as int);
    }
    days_from_civil(y, 1, 4)
}

/// ISO week number (1..=53) and ISO weekday (0 = Monday .. 6 = Sunday) of
/// Unix day `unix_day`.
pub fn iso_week_and_day(unix_day: i64) -> (wd: (u32, u32))
    requires
        -399_999_999_990 <= unix_day <= 399_999_999_990,
    ensures
        wd.0 == iso_week(unix_day as int),
        wd.1 == iso_weekday(unix_day as int),
        1 <= wd.0 <= 53,
        wd.1 < 7,
{
    // Day-of-week: 1970-01-01 was a Thursday (ISO dow = 3); Mon = 0 .. Sun = 6.
    let dow = rem_euclid_7(unix_day + 3);
    // The Thursday of this ISO week decides the ISO year.
    let thursday_day = unix_day + (3 - dow);
    // Week 1 starts on the Monday of the week holding 4 January.
    let jan4 = jan4_of_year_of(thursday_day);
    let jan4_dow = rem_euclid_7(jan4 + 3);
    let week1_mon = jan4 - jan4_dow;
    proof {
        lemma_iso_week_steps(unix_day as int, dow as int, thursday_day as int, jan4 as int, jan4_dow as int);
    }
    let weeks = (thursday_day - week1_mon) / 7;
    ((weeks + 1) as u32, dow as u32)
}

/// Unix day number of a millisecond timestamp.
pub open spec fn unix_day_of(epoch_ms: int) -> int {
    epoch_ms / 86_400_000
}

/// `(month0, iso_week, weekday)` of a millisecond timestamp: the month
/// counted from 0 = January, the ISO week 1..=53, the ISO weekday
/// 0 = Monday .. 6 = Sunday.
pub fn calendar_fields(epoch_ms: i64) -> (f: (u8, u8, u8))
    ensures
        f.0 == civil_date(unix_day_of(epoch_ms as int)).1 - 1,
        f.1 == iso_week(unix_day_of(epoch_ms as int)),
        f.2 == iso_weekday(unix_day_of(epoch_ms as int)),
        f.0 < 12,
        1 <= f.1 <= 53,
        f.2 < 7,
{
    // epoch_ms.div_euclid(86_400_000)
    let q = epoch_ms / 86_400_000;
    let unix_day = if epoch_ms % 86_400_000 < 0 { q - 1 } else { q };
    assert(unix_day == unix_day_of(epoch_ms as int));
    let (_, m, _) = civil_from_days(unix_day);
    let (week, dow) = iso_week_and_day(unix_day);
    // Weeks never exceed 53; the clamp only guards the two-digit field.
    let week = (if week > 53 { 53 } else { week }) as u8;
    ((m - 1) as u8, week, dow as u8)
}


} // verus!
