//! The proleptic Gregorian calendar: leap years, month lengths, day numbers,
//! clamped month arithmetic, weekdays and ISO weeks, over the range of dates
//! that chrono's `NaiveDate` represents.
use vstd::prelude::*;

verus! {

/// The earliest and latest years of the supported range (`NaiveDate::MIN` is
/// 1 January of the first, `NaiveDate::MAX` 31 December of the last).
pub const MIN_YEAR: i32 = -262143;

pub const MAX_YEAR: i32 = 262142;

/// A calendar date.
#[derive(PartialEq, Eq, Structural, Clone, Copy, Debug)]
pub struct CivilDate {
    pub year: i32,
    pub month: u32,
    pub day: u32,
}

pub open spec fn is_leap(y: int) -> bool {
    y % 4 == 0 && (y % 100 != 0 || y % 400 == 0)
}

pub open spec fn month_days(y: int, m: int) -> int {
    if m == 2 {
        if is_leap(y) {
            29
        } else {
            28
        }
    } else if m == 4 || m == 6 || m == 9 || m == 11 {
        30
    } else {
        31
    }
}

pub open spec fn valid_year(y: int) -> bool {
    MIN_YEAR <= y <= MAX_YEAR
}

pub open spec fn valid_date(d: CivilDate) -> bool {
    &&& valid_year(d.year as int)
    &&& 1 <= d.month <= 12
    &&& 1 <= d.day <= month_days(d.year as int, d.month as int)
}

/// Days in the months of year `y` before month `m`.
pub open spec fn days_before_month(y: int, m: int) -> int {
    let base: int = if m <= 1 {
        0
    } else if m == 2 {
        31
    } else if m == 3 {
        59
    } else if m == 4 {
        90
    } else if m == 5 {
        120
    } else if m == 6 {
        151
    } else if m == 7 {
        181
    } else if m == 8 {
        212
    } else if m == 9 {
        243
    } else if m == 10 {
        273
    } else if m == 11 {
        304
    } else {
        334
    };
    if m > 2 && is_leap(y) {
        base + 1
    } else {
        base
    }
}

/// Days in the years before year `y`, counted from 1 January of year 1.
pub open spec fn days_before_year(y: int) -> int {
    365 * (y - 1) + (y - 1) / 4 - (y - 1) / 100 + (y - 1) / 400
}

/// The number of the day: 1 for 1 January of year 1, one more for each day after.
pub open spec fn day_number(d: CivilDate) -> int {
    days_before_year(d.year as int) + days_before_month(d.year as int, d.month as int) + d.day
}

/// The day of the year, from 1.
pub open spec fn ordinal(d: CivilDate) -> int {
    days_before_month(d.year as int, d.month as int) + d.day
}

/// Chronological order of dates.
pub open spec fn date_le(a: CivilDate, b: CivilDate) -> bool {
    ||| a.year < b.year
    ||| a.year == b.year && a.month < b.month
    ||| a.year == b.year && a.month == b.month && a.day <= b.day
}

pub open spec fn date_lt(a: CivilDate, b: CivilDate) -> bool {
    date_le(a, b) && a != b
}

/// The months elapsed since January of year 0.
pub open spec fn month_index(d: CivilDate) -> int {
    d.year * 12 + d.month - 1
}

/// `d` moved by `n` months, its day clamped to the length of the target
/// month; `None` when the target year is outside the supported range.
pub open spec fn add_months_spec(d: CivilDate, n: int) -> Option<CivilDate> {
    let t = month_index(d) + n;
    let y = t / 12;
    let m = t % 12 + 1;
    let last = month_days(y, m);
    let day = if d.day > last {
        last
    } else {
        d.day as int
    };
    if valid_year(y) {
        Some(CivilDate { year: y as i32, month: m as u32, day: day as u32 })
    } else {
        None
    }
}

// ===== Leap years and month lengths =====

proof fn lemma_mod_shift(y: int, k: int, m: int)
    requires
        m > 0,
    ensures
        (y + k * m) % m == y % m,
{
    assert(y + k * m == m * k + y) by (nonlinear_arith);
    vstd::arithmetic::div_mod::lemma_mod_multiples_vanish(k, y, m);
}

/// Whether `year` is a leap year (`days_in_month(year, 2) == 29`).
pub fn is_leap_year(year: i32) -> (b: bool)
    requires
        valid_year(year as int),
    ensures
        b == is_leap(year as int),
{
    let y: i64 = year as i64 + 400000;
    proof {
        lemma_mod_shift(year as int, 100000, 4);
        lemma_mod_shift(year as int, 4000, 100);
        lemma_mod_shift(year as int, 1000, 400);
    }
    y % 4 == 0 && (y % 100 != 0 || y % 400 == 0)
}

/// The number of days in a month of a year.
pub fn days_in_month(year: i32, month: u32) -> (n: u32)
    requires
        valid_year(year as int),
        1 <= month <= 12,
    ensures
        n == month_days(year as int, month as int),
        28 <= n <= 31,
{
    if month == 2 {
        if is_leap_year(year) {
            29
        } else {
            28
        }
    } else if month == 4 || month == 6 || month == 9 || month == 11 {
        30
    } else {
        31
    }
}

// ===== Order and month arithmetic =====

/// `a` is on or before `b`.
pub fn date_on_or_before(a: &CivilDate, b: &CivilDate) -> (r: bool)
    ensures
        r == date_le(*a, *b),
{
    a.year < b.year || (a.year == b.year && a.month < b.month) || (a.year == b.year && a.month
        == b.month && a.day <= b.day)
}

pub proof fn lemma_month_index_order(a: CivilDate, b: CivilDate)
    requires
        1 <= a.month <= 12,
        1 <= b.month <= 12,
        month_index(a) < month_index(b),
    ensures
        date_lt(a, b),
{
    if a.year >= b.year {
        assert(a.year * 12 >= b.year * 12) by (nonlinear_arith)
            requires
                a.year >= b.year,
        ;
    }
}

pub proof fn lemma_date_le_total(a: CivilDate, b: CivilDate)
    ensures
        date_le(a, b) || date_le(b, a),
        date_le(a, b) && date_le(b, a) ==> a == b,
{
}

/// Floor division and remainder by 12 of a month count.
fn div_mod_12(t: i128) -> (r: (i128, i128))
    requires
        -0x1_0000_0000_0000_0000_0000 <= t <= 0x1_0000_0000_0000_0000_0000,
    ensures
        r.0 == t / 12,
        r.1 == t % 12,
{
    let off: i128 = 12 * 0x1_0000_0000_0000_0000_0000;
    let u = t + off;
    proof {
        let c: int = 0x1_0000_0000_0000_0000_0000;
        vstd::arithmetic::div_mod::lemma_fundamental_div_mod(u as int, 12);
        let q = (u as int) / 12;
        let r = (u as int) % 12;
        assert(t as int == (q - c) * 12 + r) by (nonlinear_arith)
            requires
                u as int == 12 * q + r,
                u as int == t as int + 12 * c,
        ;
        vstd::arithmetic::div_mod::lemma_fundamental_div_mod_converse(t as int, 12, q - c, r);
    }
    (u / 12 - 0x1_0000_0000_0000_0000_0000, u % 12)
}

/// Adds `months` to `date`, clamping the day to the last day of the target
/// month (chrono's `checked_add_months`/`checked_sub_months`).
pub fn add_months_clamped(date: &CivilDate, months: i64) -> (r: Option<CivilDate>)
    requires
        valid_date(*date),
        months != i64::MIN,
    ensures
        r == add_months_spec(*date, months as int),
        r matches Some(d) ==> valid_date(d),
{
    let t: i128 = (date.year as i128) * 12 + (date.month as i128) - 1 + (months as i128);
    let (y, rem) = div_mod_12(t);
    if y < MIN_YEAR as i128 || y > MAX_YEAR as i128 {
        return None;
    }
    let year = y as i32;
    let month = (rem + 1) as u32;
    let last = days_in_month(year, month);
    let day = if date.day > last {
        last
    } else {
        date.day
    };
    Some(CivilDate { year, month, day })
}

/// Adding more months never moves the result earlier.
pub proof fn law_add_months_monotone(d: CivilDate, j: int, k: int)
    requires
        valid_date(d),
        j <= k,
        add_months_spec(d, j) is Some,
        add_months_spec(d, k) is Some,
    ensures
        date_le(add_months_spec(d, j)->0, add_months_spec(d, k)->0),
{
    let a = add_months_spec(d, j)->0;
    let b = add_months_spec(d, k)->0;
    vstd::arithmetic::div_mod::lemma_fundamental_div_mod(month_index(d) + j, 12);
    vstd::arithmetic::div_mod::lemma_fundamental_div_mod(month_index(d) + k, 12);
    assert(month_index(a) == month_index(d) + j);
    assert(month_index(b) == month_index(d) + k);
    if j < k {
        lemma_month_index_order(a, b);
    }
}

/// The month of `add_months_spec(d, n)` is `n` months after that of `d`.
pub proof fn lemma_add_months_index(d: CivilDate, n: int)
    requires
        valid_date(d),
        add_months_spec(d, n) is Some,
    ensures
        month_index(add_months_spec(d, n)->0) == month_index(d) + n,
        valid_date(add_months_spec(d, n)->0),
{
    vstd::arithmetic::div_mod::lemma_fundamental_div_mod(month_index(d) + n, 12);
}

/// Zero months leave a date as it is.
pub proof fn lemma_add_zero_months(d: CivilDate)
    requires
        valid_date(d),
    ensures
        add_months_spec(d, 0) == Some(d),
{
    let t = month_index(d);
    assert(t == d.year * 12 + (d.month - 1));
    vstd::arithmetic::div_mod::lemma_fundamental_div_mod(t, 12);
    assert(t / 12 == d.year as int && t % 12 == d.month - 1) by {
        vstd::arithmetic::div_mod::lemma_div_multiples_vanish_fancy(d.year as int, (d.month - 1) as int, 12);
        vstd::arithmetic::div_mod::lemma_mod_multiples_vanish(d.year as int, (d.month - 1) as int, 12);
        vstd::arithmetic::div_mod::lemma_small_mod((d.month - 1) as nat, 12);
        vstd::arithmetic::div_mod::lemma_basic_div((d.month - 1) as int, 12);
        assert(d.year * 12 + (d.month - 1) == 12 * d.year + (d.month - 1));
    }
}


// ===== Complete months and years between two dates =====

/// `n` months after `s` is still on or before `e`.
pub open spec fn months_fit(s: CivilDate, e: CivilDate, n: int) -> bool {
    add_months_spec(s, n) matches Some(d) && date_le(d, e)
}

/// `n` is the number of whole clamped months from `s` to `e` (for `s` on or
/// before `e`): the largest count of months that can be added to `s`
/// without passing `e`.
pub open spec fn is_complete_months(s: CivilDate, e: CivilDate, n: int) -> bool {
    &&& n >= 0
    &&& months_fit(s, e, n)
    &&& forall|k: int| k > n ==> !#[trigger] months_fit(s, e, k)
}

/// The same for whole clamped years (twelve months each).
pub open spec fn is_complete_years(s: CivilDate, e: CivilDate, n: int) -> bool {
    &&& n >= 0
    &&& months_fit(s, e, 12 * n)
    &&& forall|k: int| k > n ==> !#[trigger] months_fit(s, e, 12 * k)
}

/// The signed count of whole months from `start` to `end`: negative when
/// `end` comes first, then counted from `end` to `start`.
pub open spec fn signed_complete_months(start: CivilDate, end: CivilDate, r: int) -> bool {
    if start == end {
        r == 0
    } else if date_le(start, end) {
        is_complete_months(start, end, r)
    } else {
        is_complete_months(end, start, -r)
    }
}

pub open spec fn signed_complete_years(start: CivilDate, end: CivilDate, r: int) -> bool {
    if start == end {
        r == 0
    } else if date_le(start, end) {
        is_complete_years(start, end, r)
    } else {
        is_complete_years(end, start, -r)
    }
}

proof fn lemma_months_past_end(s: CivilDate, e: CivilDate, k: int)
    requires
        valid_date(s),
        valid_date(e),
        month_index(s) + k > month_index(e),
    ensures
        !months_fit(s, e, k),
{
    if add_months_spec(s, k) is Some {
        lemma_add_months_index(s, k);
        lemma_month_index_order(e, add_months_spec(s, k)->0);
    }
}

fn count_complete_months(s: &CivilDate, e: &CivilDate) -> (r: i64)
    requires
        valid_date(*s),
        valid_date(*e),
        date_le(*s, *e),
    ensures
        is_complete_months(*s, *e, r as int),
{
    let mut months: i64 = (e.year as i64 - s.year as i64) * 12 + (e.month as i64 - s.month as i64);
    let ghost m0 = months as int;
    proof {
        assert(m0 == month_index(*e) - month_index(*s));
        if m0 < 0 {
            lemma_month_index_order(*e, *s);
        }
        lemma_add_zero_months(*s);
    }
    while months > 0
        invariant
            valid_date(*s),
            valid_date(*e),
            date_le(*s, *e),
            0 <= months <= m0,
            m0 == month_index(*e) - month_index(*s),
            forall|k: int| months < k <= m0 ==> !#[trigger] months_fit(*s, *e, k),
        ensures
            0 <= months <= m0,
            forall|k: int| months < k <= m0 ==> !#[trigger] months_fit(*s, *e, k),
            months == 0 || months_fit(*s, *e, months as int),
        decreases months,
    {
        match add_months_clamped(s, months) {
            Some(d) => {
                if date_on_or_before(&d, e) {
                    break;
                }
            },
            None => {},
        }
        months = months - 1;
    }
    proof {
        assert forall|k: int| k > months implies !#[trigger] months_fit(*s, *e, k) by {
            if k > m0 {
                lemma_months_past_end(*s, *e, k);
            }
        }
        if months == 0 {
            lemma_add_zero_months(*s);
        }
    }
    months
}

fn count_complete_years(s: &CivilDate, e: &CivilDate) -> (r: i64)
    requires
        valid_date(*s),
        valid_date(*e),
        date_le(*s, *e),
    ensures
        is_complete_years(*s, *e, r as int),
{
    let mut years: i64 = e.year as i64 - s.year as i64;
    let ghost y0 = years as int;
    proof {
        lemma_add_zero_months(*s);
    }
    while years > 0
        invariant
            valid_date(*s),
            valid_date(*e),
            date_le(*s, *e),
            0 <= years <= y0,
            y0 == e.year - s.year,
            forall|k: int| years < k <= y0 ==> !#[trigger] months_fit(*s, *e, 12 * k),
        ensures
            0 <= years <= y0,
            forall|k: int| years < k <= y0 ==> !#[trigger] months_fit(*s, *e, 12 * k),
            years == 0 || months_fit(*s, *e, 12 * years),
        decreases years,
    {
        match add_months_clamped(s, years * 12) {
            Some(d) => {
                if date_on_or_before(&d, e) {
                    assert(years * 12 == 12 * years);
                    break;
                }
            },
            None => {},
        }
        assert(years * 12 == 12 * years);
        years = years - 1;
    }
    proof {
        assert forall|k: int| k > years implies !#[trigger] months_fit(*s, *e, 12 * k) by {
            if k > y0 {
                assert(month_index(*s) + 12 * k > month_index(*e)) by (nonlinear_arith)
                    requires
                        k > y0,
                        y0 == e.year - s.year,
                        1 <= s.month <= 12,
                        1 <= e.month <= 12,
                        month_index(*s) == s.year * 12 + s.month - 1,
                        month_index(*e) == e.year * 12 + e.month - 1,
                ;
                lemma_months_past_end(*s, *e, 12 * k);
            }
        }
        if years == 0 {
            lemma_add_zero_months(*s);
        }
    }
    years
}

/// The number of whole clamped calendar months from `start` to `end`,
/// negative when `end` comes first.
pub fn complete_months_between(start: &CivilDate, end: &CivilDate) -> (r: i64)
    requires
        valid_date(*start),
        valid_date(*end),
    ensures
        signed_complete_months(*start, *end, r as int),
{
    if start.year == end.year && start.month == end.month && start.day == end.day {
        return 0;
    }
    if date_on_or_before(start, end) {
        count_complete_months(start, end)
    } else {
        proof {
            lemma_date_le_total(*start, *end);
        }
        let n = count_complete_months(end, start);
        proof {
            assert(n <= 0x7fff_ffff_ffff);
        }
        -n
    }
}

/// The number of whole clamped calendar years from `start` to `end`,
/// negative when `end` comes first.
pub fn complete_years_between(start: &CivilDate, end: &CivilDate) -> (r: i64)
    requires
        valid_date(*start),
        valid_date(*end),
    ensures
        signed_complete_years(*start, *end, r as int),
{
    if start.year == end.year && start.month == end.month && start.day == end.day {
        return 0;
    }
    if date_on_or_before(start, end) {
        count_complete_years(start, end)
    } else {
        proof {
            lemma_date_le_total(*start, *end);
        }
        let n = count_complete_years(end, start);
        -n
    }
}


// ===== Day numbers =====

proof fn lemma_floor_step(y: int, k: int)
    requires
        k > 0,
    ensures
        y / k - (y - 1) / k == (if y % k == 0 {
            1int
        } else {
            0int
        }),
{
    vstd::arithmetic::div_mod::lemma_fundamental_div_mod(y, k);
    vstd::arithmetic::div_mod::lemma_fundamental_div_mod(y - 1, k);
    vstd::arithmetic::div_mod::lemma_mod_bound(y, k);
    let q = y / k;
    let r = y % k;
    if r == 0 {
        assert(y - 1 == (q - 1) * k + (k - 1)) by (nonlinear_arith)
            requires
                y == k * q + r,
                r == 0,
        ;
        vstd::arithmetic::div_mod::lemma_fundamental_div_mod_converse(y - 1, k, q - 1, k - 1);
    } else {
        assert(y - 1 == q * k + (r - 1)) by (nonlinear_arith)
            requires
                y == k * q + r,
        ;
        vstd::arithmetic::div_mod::lemma_fundamental_div_mod_converse(y - 1, k, q, r - 1);
    }
}

proof fn lemma_divisibility_chain(y: int)
    ensures
        y % 400 == 0 ==> y % 100 == 0,
        y % 100 == 0 ==> y % 4 == 0,
{
    vstd::arithmetic::div_mod::lemma_fundamental_div_mod(y, 400);
    vstd::arithmetic::div_mod::lemma_fundamental_div_mod(y, 100);
    if y % 400 == 0 {
        let q = y / 400;
        vstd::arithmetic::div_mod::lemma_fundamental_div_mod_converse(y, 100, 4 * q, 0);
    }
    if y % 100 == 0 {
        let q = y / 100;
        vstd::arithmetic::div_mod::lemma_fundamental_div_mod_converse(y, 4, 25 * q, 0);
    }
}

/// A year has 366 days when it is a leap year and 365 otherwise.
pub proof fn lemma_year_length(y: int)
    ensures
        days_before_year(y + 1) == days_before_year(y) + 365 + (if is_leap(y) {
            1int
        } else {
            0int
        }),
{
    lemma_floor_step(y, 4);
    lemma_floor_step(y, 100);
    lemma_floor_step(y, 400);
    lemma_divisibility_chain(y);
}

pub proof fn lemma_days_before_year_monotone(a: int, b: int)
    requires
        a <= b,
    ensures
        days_before_year(a) + 365 * (b - a) <= days_before_year(b),
    decreases b - a,
{
    if a < b {
        lemma_days_before_year_monotone(a, b - 1);
        lemma_year_length(b - 1);
    }
}

proof fn lemma_ordinal_bound(d: CivilDate)
    requires
        valid_date(d),
    ensures
        1 <= ordinal(d) <= 365 + (if is_leap(d.year as int) {
            1int
        } else {
            0int
        }),
{
}

/// Day numbers follow the order of dates: a later date has a larger number.
pub proof fn lemma_day_number_order(a: CivilDate, b: CivilDate)
    requires
        valid_date(a),
        valid_date(b),
        date_lt(a, b),
    ensures
        day_number(a) < day_number(b),
{
    if a.year < b.year {
        lemma_ordinal_bound(a);
        lemma_year_length(a.year as int);
        lemma_days_before_year_monotone(a.year + 1, b.year as int);
    }
}

/// Distinct valid dates have distinct day numbers.
pub proof fn lemma_day_number_injective(a: CivilDate, b: CivilDate)
    requires
        valid_date(a),
        valid_date(b),
        day_number(a) == day_number(b),
    ensures
        a == b,
{
    lemma_date_le_total(a, b);
    if a != b {
        if date_le(a, b) {
            lemma_day_number_order(a, b);
        } else {
            lemma_day_number_order(b, a);
        }
    }
}

proof fn lemma_div_shift(x: int, k: int, d: int)
    requires
        d > 0,
    ensures
        (x + k * d) / d == x / d + k,
{
    vstd::arithmetic::div_mod::lemma_fundamental_div_mod(x, d);
    let q = x / d;
    let r = x % d;
    assert(x + k * d == (q + k) * d + r) by (nonlinear_arith)
        requires
            x == d * q + r,
    ;
    vstd::arithmetic::div_mod::lemma_fundamental_div_mod_converse(x + k * d, d, q + k, r);
}

fn days_before_month_of(year: i32, month: u32) -> (n: i64)
    requires
        valid_year(year as int),
        1 <= month <= 12,
    ensures
        n == days_before_month(year as int, month as int),
{
    let table: [i64; 12] = [0, 31, 59, 90, 120, 151, 181, 212, 243, 273, 304, 334];
    let base = table[(month - 1) as usize];
    if month > 2 && is_leap_year(year) {
        base + 1
    } else {
        base
    }
}

/// The day number of a date (1 for 1 January of year 1).
pub fn day_number_of(d: &CivilDate) -> (n: i64)
    requires
        valid_date(*d),
    ensures
        n == day_number(*d),
{
    let y1: i64 = d.year as i64 - 1 + 400000;
    proof {
        lemma_div_shift(d.year - 1, 100000, 4);
        lemma_div_shift(d.year - 1, 4000, 100);
        lemma_div_shift(d.year - 1, 1000, 400);
    }
    let before_year: i64 = 365 * (d.year as i64 - 1) + (y1 / 4 - 100000) - (y1 / 100 - 4000) + (y1
        / 400 - 1000);
    before_year + days_before_month_of(d.year, d.month) + d.day as i64
}

/// The day of the year (1 for 1 January).
pub fn ordinal_of(d: &CivilDate) -> (n: u32)
    requires
        valid_date(*d),
    ensures
        n == ordinal(*d),
        1 <= n <= 366,
{
    (days_before_month_of(d.year, d.month) + d.day as i64) as u32
}

// ===== Weekdays and ISO weeks =====

/// The days of the week.
#[derive(PartialEq, Eq, Structural, Clone, Copy, Debug)]
pub enum Weekday {
    Monday,
    Tuesday,
    Wednesday,
    Thursday,
    Friday,
    Saturday,
    Sunday,
}

/// The weekday as 1 (Monday) to 7 (Sunday); 1 January of year 1 is a Monday.
pub open spec fn iso_weekday(d: CivilDate) -> int {
    (day_number(d) - 1) % 7 + 1
}

pub open spec fn weekday_number(w: Weekday) -> int {
    match w {
        Weekday::Monday => 1,
        Weekday::Tuesday => 2,
        Weekday::Wednesday => 3,
        Weekday::Thursday => 4,
        Weekday::Friday => 5,
        Weekday::Saturday => 6,
        Weekday::Sunday => 7,
    }
}

fn iso_weekday_of(d: &CivilDate) -> (w: i64)
    requires
        valid_date(*d),
    ensures
        w == iso_weekday(*d),
        1 <= w <= 7,
{
    let n = day_number_of(d);
    proof {
        lemma_days_before_year_monotone(MIN_YEAR as int, d.year as int);
        lemma_mod_shift(n - 1, 20_000_000, 7);
    }
    (n - 1 + 140_000_000) % 7 + 1
}

/// The weekday of a date.
pub fn weekday_of(d: &CivilDate) -> (w: Weekday)
    requires
        valid_date(*d),
    ensures
        weekday_number(w) == iso_weekday(*d),
{
    let n = iso_weekday_of(d);
    if n == 1 {
        Weekday::Monday
    } else if n == 2 {
        Weekday::Tuesday
    } else if n == 3 {
        Weekday::Wednesday
    } else if n == 4 {
        Weekday::Thursday
    } else if n == 5 {
        Weekday::Friday
    } else if n == 6 {
        Weekday::Saturday
    } else {
        Weekday::Sunday
    }
}

/// The ISO weekday (1..7) of 1 January of year `y`.
pub open spec fn jan1_weekday(y: int) -> int {
    days_before_year(y) % 7 + 1
}

/// ISO years have 53 weeks when they begin on a Thursday, or on a Wednesday
/// in a leap year; 52 otherwise.
pub open spec fn iso_weeks_in_year(y: int) -> int {
    if jan1_weekday(y) == 4 || (is_leap(y) && jan1_weekday(y) == 3) {
        53
    } else {
        52
    }
}

/// The ISO 8601 week number: weeks start on Monday and week 1 is the one
/// holding the year's first Thursday; early January days may belong to the
/// last week of the year before, late December days to week 1 of the next.
pub open spec fn iso_week_number(d: CivilDate) -> int {
    let w = (ordinal(d) - iso_weekday(d) + 10) / 7;
    if w < 1 {
        iso_weeks_in_year(d.year - 1)
    } else if w > iso_weeks_in_year(d.year as int) {
        1
    } else {
        w
    }
}

fn jan1_weekday_of(y: i64) -> (w: i64)
    requires
        MIN_YEAR - 1 <= y <= MAX_YEAR,
    ensures
        w == jan1_weekday(y as int),
        1 <= w <= 7,
{
    let y1: i64 = y - 1 + 400000;
    proof {
        lemma_div_shift(y - 1, 100000, 4);
        lemma_div_shift(y - 1, 4000, 100);
        lemma_div_shift(y - 1, 1000, 400);
    }
    let before_year: i64 = 365 * (y - 1) + (y1 / 4 - 100000) - (y1 / 100 - 4000) + (y1 / 400
        - 1000);
    proof {
        lemma_mod_shift(before_year as int, 20_000_000, 7);
    }
    (before_year + 140_000_000) % 7 + 1
}

fn is_leap_any(y: i64) -> (b: bool)
    requires
        MIN_YEAR - 1 <= y <= MAX_YEAR,
    ensures
        b == is_leap(y as int),
{
    let z: i64 = y + 400000;
    proof {
        lemma_mod_shift(y as int, 100000, 4);
        lemma_mod_shift(y as int, 4000, 100);
        lemma_mod_shift(y as int, 1000, 400);
    }
    z % 4 == 0 && (z % 100 != 0 || z % 400 == 0)
}

fn iso_weeks_in_year_of(y: i64) -> (n: i64)
    requires
        MIN_YEAR - 1 <= y <= MAX_YEAR,
    ensures
        n == iso_weeks_in_year(y as int),
{
    let j = jan1_weekday_of(y);
    if j == 4 || (is_leap_any(y) && j == 3) {
        53
    } else {
        52
    }
}

/// The ISO week number of a date.
pub fn iso_week_of(d: &CivilDate) -> (w: u32)
    requires
        valid_date(*d),
    ensures
        w == iso_week_number(*d),
{
    let ord = ordinal_of(d) as i64;
    let wd = iso_weekday_of(d);
    let w = (ord - wd + 10) / 7;
    if w < 1 {
        iso_weeks_in_year_of(d.year as i64 - 1) as u32
    } else if w > iso_weeks_in_year_of(d.year as i64) {
        1
    } else {
        w as u32
    }
}

/// Each day has the next day number, the next weekday (Sunday followed by
/// Monday) and the next day of the year (1 after 31 December): the day after
/// `d` is the next day of its month, else the first of the next month, else
/// 1 January of the next year.
pub proof fn law_next_day(d: CivilDate, e: CivilDate)
    requires
        valid_date(d),
        valid_date(e),
        (e.year == d.year && e.month == d.month && e.day == d.day + 1) || (e.year == d.year
            && e.month == d.month + 1 && e.day == 1 && d.day == month_days(
            d.year as int,
            d.month as int,
        )) || (e.year == d.year + 1 && e.month == 1 && e.day == 1 && d.month == 12 && d.day == 31),
    ensures
        day_number(e) == day_number(d) + 1,
        iso_weekday(e) == iso_weekday(d) % 7 + 1,
        ordinal(e) == if e.year == d.year {
            ordinal(d) + 1
        } else {
            1
        },
{
    if e.year != d.year {
        lemma_year_length(d.year as int);
    }
    let n = day_number(d);
    vstd::arithmetic::div_mod::lemma_fundamental_div_mod(n - 1, 7);
    vstd::arithmetic::div_mod::lemma_mod_bound(n - 1, 7);
    let q = (n - 1) / 7;
    let r = (n - 1) % 7;
    if r < 6 {
        vstd::arithmetic::div_mod::lemma_fundamental_div_mod_converse(n, 7, q, r + 1);
    } else {
        vstd::arithmetic::div_mod::lemma_fundamental_div_mod_converse(n, 7, q + 1, 0);
    }
}

/// Where the Thursday of a Monday-to-Sunday week falls in its year: it is at
/// day `o` of a year whose 1 January has day number `first`, and the day
/// number of that Thursday is `7 * j + 4`.
proof fn lemma_thursday_year(first_before: int, o: int, j: int, leap: bool)
    requires
        first_before + o == 7 * j + 4,
        1 <= o <= 365 + (if leap {
            1int
        } else {
            0int
        }),
    ensures
        o >= 365 ==> (first_before % 7 + 1 == 4 || (leap && first_before % 7 + 1 == 3)),
        363 <= o <= 364 ==> !(first_before % 7 + 1 == 4 || first_before % 7 + 1 == 3),
{
    if o >= 363 {
        vstd::arithmetic::div_mod::lemma_fundamental_div_mod_converse(
            first_before,
            7,
            j - 52,
            368 - o,
        );
    }
}

/// ISO 8601 weeks: a date lies in the week numbered by the Thursday of its
/// Monday-to-Sunday week, counted in that Thursday's year: week
/// `1 + (ordinal(T) - 1) / 7` where `T` is that Thursday. So the days of a
/// week whose Thursday falls in January of the next year are in week 1, and
/// those of a week whose Thursday falls in the year before carry that year's
/// last week number.
pub proof fn law_iso_week_of_thursday(d: CivilDate, t: CivilDate)
    requires
        valid_date(d),
        valid_date(t),
        day_number(t) == day_number(d) - iso_weekday(d) + 4,
    ensures
        iso_week_number(d) == (ordinal(t) - 1) / 7 + 1,
{
    let y = d.year as int;
    let yt = t.year as int;
    let o = ordinal(d);
    let ot = ordinal(t);
    let n = day_number(d);
    let b = days_before_year(y);
    let bt = days_before_year(yt);
    let wd = iso_weekday(d);
    vstd::arithmetic::div_mod::lemma_fundamental_div_mod(n - 1, 7);
    vstd::arithmetic::div_mod::lemma_mod_bound(n - 1, 7);
    let j = (n - 1) / 7;
    assert(bt + ot == 7 * j + 4);
    assert(1 <= wd <= 7);
    lemma_ordinal_bound(d);
    lemma_ordinal_bound(t);
    lemma_year_length(y);
    lemma_year_length(y - 1);
    lemma_year_length(yt);
    // the Thursday lies in the year before, the same year or the next
    if yt >= y + 2 {
        lemma_days_before_year_monotone(y + 1, yt);
        assert(365 * (yt - (y + 1)) >= 365) by (nonlinear_arith)
            requires
                yt >= y + 2,
        ;
        assert(false);
    }
    if yt <= y - 2 {
        lemma_days_before_year_monotone(yt + 1, y);
        assert(365 * (y - (yt + 1)) >= 365) by (nonlinear_arith)
            requires
                yt <= y - 2,
        ;
        assert(false);
    }
    let x = o - wd + 10;
    vstd::arithmetic::div_mod::lemma_fundamental_div_mod(x, 7);
    vstd::arithmetic::div_mod::lemma_mod_bound(x, 7);
    vstd::arithmetic::div_mod::lemma_fundamental_div_mod(ot - 1, 7);
    vstd::arithmetic::div_mod::lemma_mod_bound(ot - 1, 7);
    lemma_thursday_year(bt, ot, j, is_leap(yt));
    if yt == y {
        assert(ot == o - wd + 4);
        lemma_div_shift(ot - 1, 1, 7);
        assert(x / 7 == (ot - 1) / 7 + 1);
        if ot >= 365 {
            vstd::arithmetic::div_mod::lemma_fundamental_div_mod_converse(ot - 1, 7, 52, ot - 365);
        }
    } else if yt == y - 1 {
        assert(x <= 6);
        vstd::arithmetic::div_mod::lemma_fundamental_div_mod_converse(x, 7, 0, x);
        if ot >= 365 {
            vstd::arithmetic::div_mod::lemma_fundamental_div_mod_converse(ot - 1, 7, 52, ot - 365);
        } else {
            vstd::arithmetic::div_mod::lemma_fundamental_div_mod_converse(ot - 1, 7, 51, ot - 358);
        }
    } else {
        assert(yt == y + 1);
        assert(1 <= ot <= 3);
        vstd::arithmetic::div_mod::lemma_fundamental_div_mod_converse(ot - 1, 7, 0, ot - 1);
        // the year of d ends before its last Thursday reaches a 53rd week
        if is_leap(y) {
            if ot == 3 {
                vstd::arithmetic::div_mod::lemma_fundamental_div_mod_converse(b, 7, j - 53, 6);
            } else {
                vstd::arithmetic::div_mod::lemma_fundamental_div_mod_converse(b, 7, j - 52, 2 - ot);
            }
        } else {
            vstd::arithmetic::div_mod::lemma_fundamental_div_mod_converse(b, 7, j - 52, 3 - ot);
        }
        assert(iso_weeks_in_year(y) == 52);
        assert(x / 7 >= 53);
    }
}

} // verus!
