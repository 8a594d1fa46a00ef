use vstd::prelude::*;

use crate::model::metadata::civil_from_days;

verus! {

/// Whether `y` is a leap year of the Gregorian calendar.
pub open spec fn is_leap(y: int) -> bool {
    y % 4 == 0 && (y % 100 != 0 || y % 400 == 0)
}

/// The number of days of month `m` (1 to 12) of year `y`.
pub open spec fn month_length(y: int, m: int) -> int {
    if m == 2 {
        if is_leap(y) {
            29
        } else {
            28
        }
    } else if m == 4 || m == 6 || m == 9 || m == 11 {
        30
    } else {
        31
    }
}

/// The calendar day after `(y, m, d)`.
pub open spec fn next_day(date: (int, int, int)) -> (int, int, int) {
    let (y, m, d) = date;
    if d < month_length(y, m) {
        (y, m, d + 1)
    } else if m < 12 {
        (y, m + 1, 1)
    } else {
        (y + 1, 1, 1)
    }
}

/// The year, counted from March, of day `doe` of a 400-year era.
pub open spec fn era_year(doe: int) -> int {
    (doe - doe / 1460 + doe / 36524 - doe / 146096) / 365
}

/// The day, counted from March 1st, within its year of day `doe` of an era.
pub open spec fn year_day(doe: int) -> int {
    doe - (365 * era_year(doe) + era_year(doe) / 4 - era_year(doe) / 100)
}

/// The month, counted from March as 0, of day `doy` of a year that starts in March.
pub open spec fn march_month(doy: int) -> int {
    (5 * doy + 2) / 153
}

/// The day of the month of day `doy` of a year that starts in March.
pub open spec fn month_day(doy: int) -> int {
    doy - (153 * march_month(doy) + 2) / 5 + 1
}

/// The length of month `mp` counted from March, for the months other than February.
pub open spec fn march_length(mp: int) -> int {
    if mp == 1 || mp == 3 || mp == 6 || mp == 8 {
        30
    } else {
        31
    }
}

/// 1 when the year that ends with the February of the year after `yoe` is a leap year.
pub open spec fn leap_day(yoe: int) -> int {
    if is_leap(yoe + 1) {
        1
    } else {
        0
    }
}

#[verifier::rlimit(100)]
proof fn lemma_era_year_step(doe: u32)
    by (bit_vector)
    requires
        doe < 146096,
    ensures
        (era_year(doe + 1) == era_year(doe as int) && year_day(doe + 1) == year_day(doe as int)
            + 1) || (era_year(doe + 1) == era_year(doe as int) + 1 && year_day(doe + 1) == 0
            && year_day(doe as int) == 364 + leap_day(era_year(doe as int))),
{
}

proof fn lemma_era_year_bounds(doe: u32)
    by (bit_vector)
    requires
        doe < 146097,
    ensures
        0 <= era_year(doe as int) < 400,
        0 <= year_day(doe as int) <= 364 + leap_day(era_year(doe as int)),
{
}

proof fn lemma_march_month_range(doy: u32)
    by (bit_vector)
    requires
        doy <= 365,
    ensures
        0 <= march_month(doy as int) <= 11,
{
}

proof fn lemma_month_day_positive(doy: u32)
    by (bit_vector)
    requires
        doy <= 365,
    ensures
        1 <= month_day(doy as int),
{
}

proof fn lemma_month_day_bound(doy: u32)
    by (bit_vector)
    requires
        doy <= 365,
    ensures
        march_month(doy as int) < 11 ==> month_day(doy as int) <= march_length(march_month(doy as int)),
{
}

proof fn lemma_february_start(doy: u32)
    by (bit_vector)
    requires
        doy <= 365,
    ensures
        (march_month(doy as int) == 11) == (doy >= 337),
{
}

proof fn lemma_february_day(doy: u32)
    by (bit_vector)
    requires
        doy <= 365,
    ensures
        march_month(doy as int) == 11 ==> month_day(doy as int) == doy - 336,
{
}

proof fn lemma_month_next(doy: u32)
    by (bit_vector)
    requires
        doy <= 365,
    ensures
        doy < 365 ==> (march_month(doy + 1) == march_month(doy as int) && month_day(doy + 1) == month_day(doy as int) + 1) || (march_month(doy + 1) == march_month(doy as int) + 1 && month_day(doy + 1) == 1 && march_month(doy as int) < 11 && month_day(doy as int) == march_length(march_month(doy as int))),
{
}

proof fn lemma_month_step(doy: u32)
    requires
        doy <= 365,
    ensures
        0 <= march_month(doy as int) <= 11,
        1 <= month_day(doy as int),
        march_month(doy as int) < 11 ==> month_day(doy as int) <= march_length(
            march_month(doy as int),
        ),
        (march_month(doy as int) == 11) == (doy >= 337),
        march_month(doy as int) == 11 ==> month_day(doy as int) == doy - 336,
        doy < 365 ==> (march_month(doy + 1) == march_month(doy as int) && month_day(doy + 1)
            == month_day(doy as int) + 1) || (march_month(doy + 1) == march_month(doy as int) + 1
            && month_day(doy + 1) == 1 && march_month(doy as int) < 11 && month_day(doy as int)
            == march_length(march_month(doy as int))),
{
    lemma_march_month_range(doy);
    lemma_month_day_positive(doy);
    lemma_month_day_bound(doy);
    lemma_february_start(doy);
    lemma_february_day(doy);
    lemma_month_next(doy);
}

proof fn lemma_era_ends()
    ensures
        era_year(0) == 0,
        year_day(0) == 0,
        march_month(0) == 0,
        month_day(0) == 1,
        era_year(146096) == 399,
        year_day(146096) == 365,
{
    assert(era_year(0) == 0);
    assert(year_day(0) == 0);
    assert(march_month(0) == 0);
    assert(month_day(0) == 1);
    assert(era_year(146096) == 399);
    assert(year_day(146096) == 365);
}

/// Whether a year is a leap year does not change by whole 400-year eras.
proof fn lemma_leap_by_eras(era: int, x: int)
    ensures
        is_leap(era * 400 + x) == is_leap(x),
{
    vstd::arithmetic::div_mod::lemma_mod_multiples_vanish(era * 100, x, 4);
    vstd::arithmetic::div_mod::lemma_mod_multiples_vanish(era * 4, x, 100);
    vstd::arithmetic::div_mod::lemma_mod_multiples_vanish(era, x, 400);
    assert(4 * (era * 100) == era * 400) by (nonlinear_arith);
    assert(100 * (era * 4) == era * 400) by (nonlinear_arith);
    assert(400 * era == era * 400) by (nonlinear_arith);
}

/// The era and the day within it of day `n` after 1970-01-01.
pub open spec fn era_of(n: int) -> int {
    (n + 719468) / 146097
}

pub open spec fn day_of_era(n: int) -> int {
    (n + 719468) - era_of(n) * 146097
}

proof fn lemma_era_parts(n: int)
    requires
        0 <= n,
    ensures
        0 <= day_of_era(n) < 146097,
        era_of(n) >= 0,
        day_of_era(n) < 146096 ==> era_of(n + 1) == era_of(n) && day_of_era(n + 1) == day_of_era(n)
            + 1,
        day_of_era(n) == 146096 ==> era_of(n + 1) == era_of(n) + 1 && day_of_era(n + 1) == 0,
{
    let z = n + 719468;
    vstd::arithmetic::div_mod::lemma_fundamental_div_mod(z, 146097);
    let era = z / 146097;
    let r = z % 146097;
    assert(z - era * 146097 == r);
    if r < 146096 {
        vstd::arithmetic::div_mod::lemma_fundamental_div_mod_converse(z + 1, 146097, era, r + 1);
    } else {
        assert((era + 1) * 146097 == era * 146097 + 146097) by (nonlinear_arith);
        vstd::arithmetic::div_mod::lemma_fundamental_div_mod_converse(z + 1, 146097, era + 1, 0);
    }
    assert(z / 146097 >= 0) by {
        vstd::arithmetic::div_mod::lemma_div_pos_is_pos(z, 146097);
    }
}

/// `civil_from_days` in terms of the era, the year and day within it, and the month.
proof fn lemma_civil_parts(n: int)
    requires
        0 <= n,
    ensures
        ({
            let era = era_of(n);
            let doe = day_of_era(n);
            let yoe = era_year(doe);
            let doy = year_day(doe);
            let mp = march_month(doy);
            let m = if mp < 10 {
                mp + 3
            } else {
                mp - 9
            };
            civil_from_days(n) == (
                if m <= 2 {
                    era * 400 + yoe + 1
                } else {
                    era * 400 + yoe
                },
                m,
                month_day(doy),
            )
        }),
{
    assert(era_of(n) * 146097 == (n + 719468) / 146097 * 146097);
    assert(era_of(n) * 400 == (n + 719468) / 146097 * 400);
}

/// Every date that `civil_from_days` gives is a real date: the month is between 1 and
/// 12 and the day between 1 and the length of that month, leap years included.
pub proof fn lemma_civil_date_is_valid(n: int)
    requires
        0 <= n,
    ensures
        1 <= civil_from_days(n).1 <= 12,
        1 <= civil_from_days(n).2 <= month_length(civil_from_days(n).0, civil_from_days(n).1),
{
    lemma_era_parts(n);
    lemma_civil_parts(n);
    let era = era_of(n);
    let doe = day_of_era(n);
    lemma_era_year_bounds(doe as u32);
    let yoe = era_year(doe);
    let doy = year_day(doe);
    lemma_month_step(doy as u32);
    lemma_leap_by_eras(era, yoe + 1);
    assert(era * 400 + yoe + 1 == era * 400 + (yoe + 1));
}

/// Day `n + 1` is the calendar day after day `n`: the day after the last of a month is
/// the first of the next, and the day after December 31st is January 1st of the next
/// year.
pub proof fn lemma_civil_next_day(n: int)
    requires
        0 <= n,
    ensures
        civil_from_days(n + 1) == next_day(civil_from_days(n)),
{
    lemma_era_parts(n);
    lemma_civil_parts(n);
    lemma_civil_parts(n + 1);
    lemma_civil_date_is_valid(n);
    lemma_civil_date_is_valid(n + 1);
    let era = era_of(n);
    let doe = day_of_era(n);
    lemma_era_year_bounds(doe as u32);
    let yoe = era_year(doe);
    let doy = year_day(doe);
    lemma_month_step(doy as u32);
    lemma_leap_by_eras(era, yoe + 1);
    assert(era * 400 + yoe + 1 == era * 400 + (yoe + 1));
    lemma_era_ends();
    if doe < 146096 {
        lemma_era_year_step(doe as u32);
        lemma_era_year_bounds((doe + 1) as u32);
        let doy2 = year_day(doe + 1);
        lemma_month_step(doy2 as u32);
        if era_year(doe + 1) == yoe {
            assert(doy < 365);
        } else {
            assert(doy2 == 0);
        }
    } else {
        assert(era_of(n + 1) * 400 == era * 400 + 400);
        lemma_leap_by_eras(era, 400);
        assert(era * 400 + 399 + 1 == era * 400 + 400);
    }
}

/// Day 0 is 1970-01-01.
pub proof fn lemma_civil_epoch()
    ensures
        civil_from_days(0) == (1970int, 1int, 1int),
{
    assert(civil_from_days(0) == (1970int, 1int, 1int));
}

} // verus!
