//! Date arithmetic, date differences and calendar facts on naive dates and
//! date-times (no time zones). Months and years count whole clamped calendar
//! months: Jan 31 + 1 month is the last day of February, and the complete
//! months from S to E are the largest n with S + n months on or before E.
use crate::calendar::{
    add_months_clamped, add_months_spec, complete_months_between, complete_years_between,
    date_lt, day_number, day_number_of, days_in_month, is_leap, is_leap_year, iso_week_number,
    iso_week_of, iso_weekday, lemma_day_number_injective, month_days, ordinal, ordinal_of,
    signed_complete_months, signed_complete_years, valid_date, weekday_number, weekday_of,
    CivilDate, Weekday, MAX_YEAR, MIN_YEAR,
};
use crate::chrono_api::{
    add_seconds, chrono_date_parse, chrono_datetime_parse, parse_date_only, parse_datetime,
    MAX_DELTA_SECONDS,
};
use crate::text::{
    append_chars, chars_of, contains_char, digit_char, digits_of, digits_vec, equals_text,
    string_from_chars, trim_chars, trimmed, zero_pad, zero_padded,
};
use vstd::prelude::*;

verus! {

// ===== Date-times =====

/// A date with a time of day. `nano` is the fraction of the second in
/// nanoseconds; from 1_000_000_000 on it marks a leap second (second 59).
#[derive(PartialEq, Eq, Structural, Clone, Copy, Debug)]
pub struct CivilDateTime {
    pub date: CivilDate,
    pub hour: u32,
    pub minute: u32,
    pub second: u32,
    pub nano: u32,
}

pub open spec fn valid_time(t: CivilDateTime) -> bool {
    &&& t.hour < 24
    &&& t.minute < 60
    &&& t.second < 60
    &&& t.nano < 2_000_000_000
    &&& t.nano >= 1_000_000_000 ==> t.second == 59
}

pub open spec fn valid_datetime(t: CivilDateTime) -> bool {
    valid_date(t.date) && valid_time(t)
}

/// Seconds since midnight.
pub open spec fn second_of_day(t: CivilDateTime) -> int {
    t.hour * 3600 + t.minute * 60 + t.second
}

/// Whole seconds since midnight of day number 0.
pub open spec fn instant(t: CivilDateTime) -> int {
    day_number(t.date) * 86400 + second_of_day(t)
}

/// The first and last whole-second instants of the supported range.
pub open spec fn first_instant() -> int {
    day_number(CivilDate { year: MIN_YEAR, month: 1, day: 1 }) * 86400
}

pub open spec fn last_instant() -> int {
    day_number(CivilDate { year: MAX_YEAR, month: 12, day: 31 }) * 86400 + 86399
}

pub open spec fn midnight(d: CivilDate) -> CivilDateTime {
    CivilDateTime { date: d, hour: 0, minute: 0, second: 0, nano: 0 }
}

/// Chronological order: by date, then second of the day, then fraction.
pub open spec fn datetime_le(a: CivilDateTime, b: CivilDateTime) -> bool {
    ||| date_lt(a.date, b.date)
    ||| a.date == b.date && second_of_day(a) < second_of_day(b)
    ||| a.date == b.date && second_of_day(a) == second_of_day(b) && a.nano <= b.nano
}

/// The whole-second date-time at instant `n`.
pub open spec fn datetime_at(n: int) -> CivilDateTime {
    choose|x: CivilDateTime| valid_datetime(x) && x.nano == 0 && instant(x) == n
}

/// Two valid whole-second date-times at the same instant are equal.
pub proof fn lemma_instant_injective(a: CivilDateTime, b: CivilDateTime)
    requires
        valid_datetime(a),
        valid_datetime(b),
        a.nano == 0,
        b.nano == 0,
        instant(a) == instant(b),
    ensures
        a == b,
{
    let da = day_number(a.date);
    let db = day_number(b.date);
    assert(da == db) by (nonlinear_arith)
        requires
            da * 86400 + second_of_day(a) == db * 86400 + second_of_day(b),
            0 <= second_of_day(a) < 86400,
            0 <= second_of_day(b) < 86400,
    ;
    lemma_day_number_injective(a.date, b.date);
}

/// A valid whole-second date-time is the one `datetime_at` picks for its instant.
pub proof fn lemma_datetime_at(x: CivilDateTime)
    requires
        valid_datetime(x),
        x.nano == 0,
    ensures
        datetime_at(instant(x)) == x,
{
    let y = datetime_at(instant(x));
    assert(valid_datetime(y) && y.nano == 0 && instant(y) == instant(x));
    lemma_instant_injective(x, y);
}

/// The order of date-times follows their instants: an earlier instant is
/// before, a later one after, and two whole-second date-times at one instant
/// are in order.
pub proof fn lemma_datetime_le_instant(a: CivilDateTime, b: CivilDateTime)
    requires
        valid_datetime(a),
        valid_datetime(b),
    ensures
        instant(a) < instant(b) ==> datetime_le(a, b) && !datetime_le(b, a),
        instant(a) == instant(b) && a.nano == 0 && b.nano == 0 ==> datetime_le(a, b),
{
    let da = day_number(a.date);
    let db = day_number(b.date);
    let sa = second_of_day(a);
    let sb = second_of_day(b);
    crate::calendar::lemma_date_le_total(a.date, b.date);
    if a.date != b.date {
        if crate::calendar::date_le(a.date, b.date) {
            crate::calendar::lemma_day_number_order(a.date, b.date);
            assert(da * 86400 + sa < db * 86400 + sb) by (nonlinear_arith)
                requires
                    da < db,
                    0 <= sa < 86400,
                    0 <= sb < 86400,
            ;
        } else {
            crate::calendar::lemma_day_number_order(b.date, a.date);
            assert(db * 86400 + sb < da * 86400 + sa) by (nonlinear_arith)
                requires
                    db < da,
                    0 <= sa < 86400,
                    0 <= sb < 86400,
            ;
        }
    }
}

// ===== Reading dates =====

/// The three accepted layouts.
pub open spec fn space_layout() -> Seq<char> {
    "%Y-%m-%d %H:%M:%S"@
}

pub open spec fn t_layout() -> Seq<char> {
    "%Y-%m-%dT%H:%M:%S"@
}

pub open spec fn date_layout() -> Seq<char> {
    "%Y-%m-%d"@
}

pub open spec fn timezone_message(s: Seq<char>) -> Seq<char> {
    "Timezone suffixes are not supported. Input: '"@ + s
        + "'. Accepted formats: YYYY-MM-DD, YYYY-MM-DD HH:MM:SS, YYYY-MM-DDTHH:MM:SS"@
}

pub open spec fn unparseable_message(s: Seq<char>) -> Seq<char> {
    "Cannot parse '"@ + s + "' as date. Accepted formats: YYYY-MM-DD, YYYY-MM-DD HH:MM:SS, YYYY-MM-DDTHH:MM:SS"@
}

/// The number of bytes of `c` in UTF-8.
pub open spec fn utf8_width(c: char) -> nat {
    if (c as u32) < 0x80 {
        1
    } else if (c as u32) < 0x800 {
        2
    } else if (c as u32) < 0x10000 {
        3
    } else {
        4
    }
}

/// The number of bytes of `s` in UTF-8 (`str::len`).
pub open spec fn utf8_len(s: Seq<char>) -> nat
    decreases s.len(),
{
    if s.len() == 0 {
        0
    } else {
        utf8_len(s.drop_last()) + utf8_width(s.last())
    }
}

/// Input that carries a time zone: a `+` in a text longer than 19 bytes, or a `Z`.
pub open spec fn has_zone_suffix(t: Seq<char>) -> bool {
    (t.contains('+') && utf8_len(t) > 19) || t.contains('Z')
}

/// What a date input reads as: the date-time and whether it was a bare date
/// (then taken at midnight), or the error text.
pub open spec fn date_input(s: Seq<char>) -> Result<(CivilDateTime, bool), Seq<char>> {
    let t = trimmed(s);
    if has_zone_suffix(t) {
        Err(timezone_message(s))
    } else {
        match chrono_datetime_parse(t, space_layout()) {
            Some(x) => Ok((x, false)),
            None => match chrono_datetime_parse(t, t_layout()) {
                Some(x) => Ok((x, false)),
                None => match chrono_date_parse(t, date_layout()) {
                    Some(d) => Ok((midnight(d), true)),
                    None => Err(unparseable_message(s)),
                },
            },
        }
    }
}

fn utf8_len_exceeds(s: &Vec<char>, limit: usize) -> (r: bool)
    requires
        limit < 0x1000_0000,
    ensures
        r == (utf8_len(s@) > limit),
{
    let mut n: usize = 0;
    let mut i: usize = 0;
    while i < s.len()
        invariant
            i <= s@.len(),
            limit < 0x1000_0000,
            n == utf8_len(s@.subrange(0, i as int)),
            n <= limit,
        decreases s@.len() - i,
    {
        let c = s[i];
        let w: usize = if (c as u32) < 0x80 {
            1
        } else if (c as u32) < 0x800 {
            2
        } else if (c as u32) < 0x10000 {
            3
        } else {
            4
        };
        proof {
            let p = s@.subrange(0, i as int + 1);
            assert(p.drop_last() =~= s@.subrange(0, i as int));
            assert(p.last() == c);
        }
        n = n + w;
        i = i + 1;
        if n > limit {
            proof {
                lemma_utf8_len_prefix(s@, i as int);
            }
            return true;
        }
    }
    assert(s@.subrange(0, s@.len() as int) =~= s@);
    false
}

proof fn lemma_utf8_len_prefix(s: Seq<char>, i: int)
    requires
        0 <= i <= s.len(),
    ensures
        utf8_len(s.subrange(0, i)) <= utf8_len(s),
    decreases s.len() - i,
{
    if i < s.len() {
        lemma_utf8_len_prefix(s, i + 1);
        let p = s.subrange(0, i + 1);
        assert(p.drop_last() =~= s.subrange(0, i));
    } else {
        assert(s.subrange(0, i) =~= s);
    }
}

/// `a`, then `s`, then `b`, as a `String`.
fn framed(a: &str, s: &Vec<char>, b: &str) -> (r: String)
    ensures
        r@ == a@ + s@ + b@,
{
    let mut v = chars_of(a);
    append_chars(&mut v, s);
    let w = chars_of(b);
    append_chars(&mut v, &w);
    string_from_chars(&v)
}

/// Reads a date input: `YYYY-MM-DD HH:MM:SS`, `YYYY-MM-DDTHH:MM:SS` or
/// `YYYY-MM-DD` (then at midnight, and marked as a bare date), after trimming
/// white space; time zone suffixes are refused.
pub fn parse_date(s: &str) -> (r: Result<(CivilDateTime, bool), String>)
    ensures
        match r {
            Ok(v) => date_input(s@) == Ok::<(CivilDateTime, bool), Seq<char>>(v),
            Err(e) => date_input(s@) == Err::<(CivilDateTime, bool), Seq<char>>(e@),
        },
        r matches Ok(v) ==> valid_datetime(v.0),
{
    let raw = chars_of(s);
    let t = trim_chars(&raw);
    let plus = contains_char(&t, '+');
    let long = utf8_len_exceeds(&t, 19);
    let zulu = contains_char(&t, 'Z');
    if (plus && long) || zulu {
        return Err(framed("Timezone suffixes are not supported. Input: '", &raw,
            "'. Accepted formats: YYYY-MM-DD, YYYY-MM-DD HH:MM:SS, YYYY-MM-DDTHH:MM:SS"));
    }
    let text = string_from_chars(&t);
    let ts = text.as_str();
    if let Some(x) = parse_datetime(ts, "%Y-%m-%d %H:%M:%S") {
        return Ok((x, false));
    }
    if let Some(x) = parse_datetime(ts, "%Y-%m-%dT%H:%M:%S") {
        return Ok((x, false));
    }
    if let Some(d) = parse_date_only(ts, "%Y-%m-%d") {
        return Ok((CivilDateTime { date: d, hour: 0, minute: 0, second: 0, nano: 0 }, true));
    }
    Err(framed("Cannot parse '", &raw,
        "' as date. Accepted formats: YYYY-MM-DD, YYYY-MM-DD HH:MM:SS, YYYY-MM-DDTHH:MM:SS"))
}

// ===== Writing dates =====

/// Two decimal digits, zero first (`n` below 100).
pub open spec fn two_digits(n: int) -> Seq<char> {
    seq![digit_char(n / 10), digit_char(n % 10)]
}

/// The year as chrono writes it: four digits from 0 to 9999, otherwise a
/// sign and at least four digits.
pub open spec fn year_text(y: int) -> Seq<char> {
    if 0 <= y <= 9999 {
        zero_padded(digits_of(y as nat, 10), 4)
    } else if y < 0 {
        seq!['-'] + zero_padded(digits_of((-y) as nat, 10), 4)
    } else {
        seq!['+'] + zero_padded(digits_of(y as nat, 10), 4)
    }
}

/// `YYYY-MM-DD` (chrono's `Display` for `NaiveDate`).
pub open spec fn date_text(d: CivilDate) -> Seq<char> {
    year_text(d.year as int) + seq!['-'] + two_digits(d.month as int) + seq!['-'] + two_digits(
        d.day as int,
    )
}

/// `YYYY-MM-DD HH:MM:SS` (chrono's `Display` for a whole-second `NaiveDateTime`).
pub open spec fn datetime_text(t: CivilDateTime) -> Seq<char> {
    date_text(t.date) + seq![' '] + two_digits(t.hour as int) + seq![':'] + two_digits(
        t.minute as int,
    ) + seq![':'] + two_digits(t.second as int)
}

fn push_two_digits(out: &mut Vec<char>, n: u32)
    requires
        n < 100,
    ensures
        final(out)@ == old(out)@ + two_digits(n as int),
{
    out.push(crate::text::digit_char_of((n / 10) as u64));
    out.push(crate::text::digit_char_of((n % 10) as u64));
    assert(final(out)@ =~= old(out)@ + two_digits(n as int));
}

fn push_year(out: &mut Vec<char>, y: i32)
    ensures
        final(out)@ == old(out)@ + year_text(y as int),
{
    if 0 <= y && y <= 9999 {
        let d = digits_vec(y as u64, 10);
        let p = zero_pad(&d, 4);
        append_chars(out, &p);
    } else {
        let m: u64 = if y < 0 {
            out.push('-');
            (0 - (y as i64)) as u64
        } else {
            out.push('+');
            y as u64
        };
        let d = digits_vec(m, 10);
        let p = zero_pad(&d, 4);
        append_chars(out, &p);
        assert(final(out)@ =~= old(out)@ + year_text(y as int));
    }
}

fn push_date(out: &mut Vec<char>, d: &CivilDate)
    requires
        valid_date(*d),
    ensures
        final(out)@ == old(out)@ + date_text(*d),
{
    push_year(out, d.year);
    out.push('-');
    push_two_digits(out, d.month);
    out.push('-');
    push_two_digits(out, d.day);
    assert(final(out)@ =~= old(out)@ + date_text(*d));
}

/// The text of a date.
pub fn format_date(d: &CivilDate) -> (r: String)
    requires
        valid_date(*d),
    ensures
        r@ == date_text(*d),
{
    let mut v: Vec<char> = Vec::new();
    push_date(&mut v, d);
    assert(v@ =~= date_text(*d));
    string_from_chars(&v)
}

/// The text of a whole-second date-time.
pub fn format_datetime(t: &CivilDateTime) -> (r: String)
    requires
        valid_datetime(*t),
    ensures
        r@ == datetime_text(*t),
{
    let mut v: Vec<char> = Vec::new();
    push_date(&mut v, &t.date);
    v.push(' ');
    push_two_digits(&mut v, t.hour);
    v.push(':');
    push_two_digits(&mut v, t.minute);
    v.push(':');
    push_two_digits(&mut v, t.second);
    assert(v@ =~= datetime_text(*t));
    string_from_chars(&v)
}

// ===== Adding to a date =====

/// The months that years and months add up to.
pub open spec fn month_shift(years: int, months: int) -> int {
    years * 12 + months
}

/// The seconds that weeks, days, hours, minutes and seconds add up to.
pub open spec fn second_shift(weeks: int, days: int, hours: int, minutes: int, seconds: int) -> int {
    weeks * 604800 + days * 86400 + hours * 3600 + minutes * 60 + seconds
}

pub open spec fn month_overflow_message() -> Seq<char> {
    "Date overflow: result is out of representable range"@
}

pub open spec fn time_overflow_message() -> Seq<char> {
    "Date/time overflow: result is out of representable range"@
}

/// `dt` moved by whole clamped months first, then by the exact number of
/// seconds (its fraction of a second dropped); written as a bare date when it
/// came from one and no hours, minutes or seconds were given.
pub open spec fn shift_outcome(
    dt: CivilDateTime,
    date_only: bool,
    years: int,
    months: int,
    weeks: int,
    days: int,
    hours: int,
    minutes: int,
    seconds: int,
) -> Result<Seq<char>, Seq<char>> {
    match add_months_spec(dt.date, month_shift(years, months)) {
        None => Err(month_overflow_message()),
        Some(nd) => {
            let moved = CivilDateTime {
                date: nd,
                hour: dt.hour,
                minute: dt.minute,
                second: dt.second,
                nano: 0,
            };
            let n = second_shift(weeks, days, hours, minutes, seconds);
            let target = instant(moved) + n;
            if n != 0 && !(first_instant() <= target <= last_instant()) {
                Err(time_overflow_message())
            } else {
                let result = if n == 0 {
                    moved
                } else {
                    datetime_at(target)
                };
                if date_only && hours == 0 && minutes == 0 && seconds == 0 {
                    Ok(date_text(result.date))
                } else {
                    Ok(datetime_text(result))
                }
            }
        },
    }
}

/// The answer of `date_add`: the input's error, or its date-time shifted.
pub open spec fn date_add_outcome(
    s: Seq<char>,
    years: int,
    months: int,
    weeks: int,
    days: int,
    hours: int,
    minutes: int,
    seconds: int,
) -> Result<Seq<char>, Seq<char>> {
    match date_input(s) {
        Err(e) => Err(e),
        Ok((dt, date_only)) => shift_outcome(
            dt,
            date_only,
            years,
            months,
            weeks,
            days,
            hours,
            minutes,
            seconds,
        ),
    }
}

pub open spec fn text_result(r: Result<String, String>) -> Result<Seq<char>, Seq<char>> {
    match r {
        Ok(v) => Ok(v@),
        Err(e) => Err(e@),
    }
}

/// A shift by more months than `i64` holds leaves the supported years.
proof fn lemma_far_months_out_of_range(d: CivilDate, n: int)
    requires
        valid_date(d),
        n <= i64::MIN || n > i64::MAX,
    ensures
        add_months_spec(d, n) is None,
{
    if add_months_spec(d, n) is Some {
        crate::calendar::lemma_add_months_index(d, n);
    }
}

/// A shift by more seconds than a `TimeDelta` holds leaves the supported
/// date-times.
proof fn lemma_far_seconds_out_of_range(t: CivilDateTime, n: int)
    requires
        valid_datetime(t),
        n < -MAX_DELTA_SECONDS || n > MAX_DELTA_SECONDS,
    ensures
        !(first_instant() <= instant(t) + n <= last_instant()),
{
    lemma_day_number_bounds(t.date);
    lemma_day_number_bounds(CivilDate { year: MIN_YEAR, month: 1, day: 1 });
    lemma_day_number_bounds(CivilDate { year: MAX_YEAR, month: 12, day: 31 });
}

/// Moves a date-time by years and months (clamped calendar arithmetic), then
/// by weeks, days, hours, minutes and seconds (exact time arithmetic), and
/// writes the result.
pub fn shift_datetime(
    dt: &CivilDateTime,
    date_only: bool,
    years: i64,
    months: i64,
    weeks: i64,
    days: i64,
    hours: i64,
    minutes: i64,
    seconds: i64,
) -> (r: Result<String, String>)
    requires
        valid_datetime(*dt),
    ensures
        text_result(r) == shift_outcome(
            *dt,
            date_only,
            years as int,
            months as int,
            weeks as int,
            days as int,
            hours as int,
            minutes as int,
            seconds as int,
        ),
{
    let total_months: i128 = years as i128 * 12 + months as i128;
    if total_months <= i64::MIN as i128 || total_months > i64::MAX as i128 {
        proof {
            lemma_far_months_out_of_range(dt.date, total_months as int);
        }
        return Err("Date overflow: result is out of representable range".to_owned());
    }
    let new_date = match add_months_clamped(&dt.date, total_months as i64) {
        Some(d) => d,
        None => {
            return Err("Date overflow: result is out of representable range".to_owned());
        },
    };
    let moved = CivilDateTime {
        date: new_date,
        hour: dt.hour,
        minute: dt.minute,
        second: dt.second,
        nano: 0,
    };
    let total_seconds: i128 = weeks as i128 * 604800 + days as i128 * 86400 + hours as i128 * 3600
        + minutes as i128 * 60 + seconds as i128;
    let result = if total_seconds != 0 {
        if total_seconds < -(MAX_DELTA_SECONDS as i128) || total_seconds > MAX_DELTA_SECONDS as i128 {
            proof {
                lemma_far_seconds_out_of_range(moved, total_seconds as int);
            }
            return Err("Date/time overflow: result is out of representable range".to_owned());
        }
        match add_seconds(&moved, total_seconds as i64) {
            Some(x) => {
                proof {
                    lemma_datetime_at(x);
                }
                x
            },
            None => {
                return Err(
                    "Date/time overflow: result is out of representable range".to_owned(),
                );
            },
        }
    } else {
        moved
    };
    if date_only && hours == 0 && minutes == 0 && seconds == 0 {
        Ok(format_date(&result.date))
    } else {
        Ok(format_datetime(&result))
    }
}

/// Adds years and months (clamped calendar arithmetic), then weeks, days,
/// hours, minutes and seconds (exact time arithmetic) to a date input.
pub fn date_add(
    date: &str,
    years: i64,
    months: i64,
    weeks: i64,
    days: i64,
    hours: i64,
    minutes: i64,
    seconds: i64,
) -> (r: Result<String, String>)
    ensures
        text_result(r) == date_add_outcome(
            date@,
            years as int,
            months as int,
            weeks as int,
            days as int,
            hours as int,
            minutes as int,
            seconds as int,
        ),
{
    match parse_date(date) {
        Ok((dt, date_only)) => shift_datetime(
            &dt,
            date_only,
            years,
            months,
            weeks,
            days,
            hours,
            minutes,
            seconds,
        ),
        Err(e) => Err(e),
    }
}

// ===== Differences between dates =====

/// Day numbers of the supported dates stay within a hundred million of zero.
proof fn lemma_day_number_bounds(d: CivilDate)
    requires
        valid_date(d),
    ensures
        -100_000_000 < day_number(d) < 100_000_000,
{
    let first = CivilDate { year: MIN_YEAR, month: 1, day: 1 };
    let last = CivilDate { year: MAX_YEAR, month: 12, day: 31 };
    if d != first {
        crate::calendar::lemma_day_number_order(first, d);
    }
    if d != last {
        crate::calendar::lemma_day_number_order(d, last);
    }
}

/// `e - s` as chrono's `TimeDelta` computes it: whole seconds, floored, and
/// the nanoseconds beyond them. A leap second counts only once it is passed.
pub open spec fn time_delta(s: CivilDateTime, e: CivilDateTime) -> (int, int) {
    let ds = second_of_day(e) - second_of_day(s);
    let adj: int = if second_of_day(e) > second_of_day(s) && s.nano >= 1_000_000_000 {
        1
    } else if second_of_day(e) < second_of_day(s) && e.nano >= 1_000_000_000 {
        -1
    } else {
        0
    };
    let f = e.nano - s.nano;
    (
        (day_number(e.date) - day_number(s.date)) * 86400 + ds + adj + f / 1_000_000_000,
        f % 1_000_000_000,
    )
}

/// The whole seconds from `s` to `e`, truncated toward zero (`num_seconds`).
pub open spec fn elapsed_seconds(s: CivilDateTime, e: CivilDateTime) -> int {
    let (secs, nanos) = time_delta(s, e);
    if secs < 0 && nanos > 0 {
        secs + 1
    } else {
        secs
    }
}

/// Division truncated toward zero (Rust's `/` on integers), for `b > 0`.
pub open spec fn trunc_div(a: int, b: int) -> int {
    if a >= 0 {
        a / b
    } else {
        -((-a) / b)
    }
}

fn second_of_day_of(t: &CivilDateTime) -> (r: i64)
    requires
        valid_datetime(*t),
    ensures
        r == second_of_day(*t),
        0 <= r < 86400,
{
    t.hour as i64 * 3600 + t.minute as i64 * 60 + t.second as i64
}

fn elapsed_seconds_of(s: &CivilDateTime, e: &CivilDateTime) -> (r: i64)
    requires
        valid_datetime(*s),
        valid_datetime(*e),
    ensures
        r == elapsed_seconds(*s, *e),
        -20_000_000_000_000 < r < 20_000_000_000_000,
{
    proof {
        lemma_day_number_bounds(s.date);
        lemma_day_number_bounds(e.date);
    }
    let dd = day_number_of(&e.date) - day_number_of(&s.date);
    let ss = second_of_day_of(s);
    let se = second_of_day_of(e);
    let adj: i64 = if se > ss && s.nano >= 1_000_000_000 {
        1
    } else if se < ss && e.nano >= 1_000_000_000 {
        -1
    } else {
        0
    };
    let f: i64 = e.nano as i64 - s.nano as i64;
    let g: i64 = f + 2_000_000_000;
    let q: i64 = g / 1_000_000_000 - 2;
    let rem: i64 = g % 1_000_000_000;
    proof {
        vstd::arithmetic::div_mod::lemma_fundamental_div_mod(g as int, 1_000_000_000);
        vstd::arithmetic::div_mod::lemma_fundamental_div_mod_converse(
            f as int,
            1_000_000_000,
            q as int,
            rem as int,
        );
    }
    let secs = dd * 86400 + (se - ss) + adj + q;
    if secs < 0 && rem > 0 {
        secs + 1
    } else {
        secs
    }
}

fn trunc_div_of(a: i64, b: i64) -> (r: i64)
    requires
        b > 0,
        a > i64::MIN,
    ensures
        r == trunc_div(a as int, b as int),
{
    if a >= 0 {
        a / b
    } else {
        -((-a) / b)
    }
}

/// `a` comes no later than `b`.
pub fn datetime_on_or_before(a: &CivilDateTime, b: &CivilDateTime) -> (r: bool)
    requires
        valid_datetime(*a),
        valid_datetime(*b),
    ensures
        r == datetime_le(*a, *b),
        instant(*a) < instant(*b) ==> r,
        instant(*b) < instant(*a) ==> !r,
        instant(*a) == instant(*b) && a.nano == 0 && b.nano == 0 ==> r,
{
    proof {
        lemma_datetime_le_instant(*a, *b);
        lemma_datetime_le_instant(*b, *a);
    }
    let da = &a.date;
    let db = &b.date;
    if da.year != db.year || da.month != db.month || da.day != db.day {
        return crate::calendar::date_on_or_before(da, db);
    }
    let sa = second_of_day_of(a);
    let sb = second_of_day_of(b);
    sa < sb || (sa == sb && a.nano <= b.nano)
}

/// The units `date_diff` can answer in, besides the breakdown.
#[derive(PartialEq, Eq, Structural, Clone, Copy, Debug)]
pub enum DiffUnit {
    Years,
    Months,
    Weeks,
    Days,
    Hours,
    Minutes,
    Seconds,
}

pub open spec fn unit_name(u: DiffUnit) -> Seq<char> {
    match u {
        DiffUnit::Years => "years"@,
        DiffUnit::Months => "months"@,
        DiffUnit::Weeks => "weeks"@,
        DiffUnit::Days => "days"@,
        DiffUnit::Hours => "hours"@,
        DiffUnit::Minutes => "minutes"@,
        DiffUnit::Seconds => "seconds"@,
    }
}

impl DiffUnit {
    /// The unit's name as `date_diff` takes it.
    pub fn name(&self) -> (r: &'static str)
        ensures
            r@ == unit_name(*self),
    {
        match self {
            DiffUnit::Years => "years",
            DiffUnit::Months => "months",
            DiffUnit::Weeks => "weeks",
            DiffUnit::Days => "days",
            DiffUnit::Hours => "hours",
            DiffUnit::Minutes => "minutes",
            DiffUnit::Seconds => "seconds",
        }
    }
}

/// The difference in years, months and days, with the totals.
#[derive(PartialEq, Eq, Structural, Clone, Copy, Debug)]
pub struct DiffBreakdown {
    pub years: i64,
    pub months: i64,
    pub days: i64,
    pub total_days: i64,
    pub sign: i64,
    /// Present when either input carries a time of day (is not a bare date).
    pub total_seconds: Option<i64>,
}

/// The answer of `date_diff`.
#[derive(PartialEq, Eq, Structural, Clone, Copy, Debug)]
pub enum DateDiff {
    Breakdown(DiffBreakdown),
    InUnit { result: i64, unit: DiffUnit },
}

/// The breakdown from `s` to `e`: whole clamped years from the earlier date
/// to the later, then whole clamped months from there, then the days left;
/// the totals are signed and truncated toward zero; the seconds are left
/// out only where both inputs are bare dates.
pub open spec fn breakdown_matches(
    s: CivilDateTime,
    e: CivilDateTime,
    s_date_only: bool,
    e_date_only: bool,
    b: DiffBreakdown,
) -> bool {
    let forward = datetime_le(s, e);
    let lo = if forward {
        s.date
    } else {
        e.date
    };
    let hi = if forward {
        e.date
    } else {
        s.date
    };
    let secs = elapsed_seconds(s, e);
    &&& b.sign == (if forward {
        1int
    } else {
        -1int
    })
    &&& signed_complete_years(lo, hi, b.years as int)
    &&& match add_months_spec(lo, 12 * b.years) {
        Some(ay) => signed_complete_months(ay, hi, b.months as int) && match add_months_spec(
            ay,
            b.months as int,
        ) {
            Some(am) => b.days == day_number(hi) - day_number(am),
            None => false,
        },
        None => false,
    }
    &&& b.total_days == trunc_div(secs, 86400)
    &&& if s_date_only && e_date_only {
        b.total_seconds is None
    } else {
        b.total_seconds matches Some(x) && x == secs
    }
}

/// The difference from `s` to `e` in a single unit: whole clamped years or
/// months (signed), or whole weeks, days, hours, minutes or seconds,
/// truncated toward zero.
pub open spec fn unit_result(s: CivilDateTime, e: CivilDateTime, u: DiffUnit, result: int) -> bool {
    let secs = elapsed_seconds(s, e);
    match u {
        DiffUnit::Years => signed_complete_years(s.date, e.date, result),
        DiffUnit::Months => signed_complete_months(s.date, e.date, result),
        DiffUnit::Weeks => result == trunc_div(trunc_div(secs, 86400), 7),
        DiffUnit::Days => result == trunc_div(secs, 86400),
        DiffUnit::Hours => result == trunc_div(secs, 3600),
        DiffUnit::Minutes => result == trunc_div(secs, 60),
        DiffUnit::Seconds => result == secs,
    }
}

pub open spec fn unit_named(u: Seq<char>) -> Option<DiffUnit> {
    if u == "years"@ {
        Some(DiffUnit::Years)
    } else if u == "months"@ {
        Some(DiffUnit::Months)
    } else if u == "weeks"@ {
        Some(DiffUnit::Weeks)
    } else if u == "days"@ {
        Some(DiffUnit::Days)
    } else if u == "hours"@ {
        Some(DiffUnit::Hours)
    } else if u == "minutes"@ {
        Some(DiffUnit::Minutes)
    } else if u == "seconds"@ {
        Some(DiffUnit::Seconds)
    } else {
        None
    }
}

pub open spec fn unknown_unit_message(u: Seq<char>) -> Seq<char> {
    "Unknown unit: "@ + u
        + " (expected auto, years, months, weeks, days, hours, minutes, or seconds)"@
}

/// What the difference from `s` to `e` in `unit` is: the breakdown for
/// `auto`, one unit's count for a unit's name, an error otherwise.
pub open spec fn diff_answers(
    s: CivilDateTime,
    e: CivilDateTime,
    s_date_only: bool,
    e_date_only: bool,
    unit: Seq<char>,
    r: Result<DateDiff, String>,
) -> bool {
    if unit == "auto"@ {
        r matches Ok(DateDiff::Breakdown(b)) && breakdown_matches(s, e, s_date_only, e_date_only, b)
    } else {
        match unit_named(unit) {
            Some(u) => r matches Ok(DateDiff::InUnit { result, unit: ru }) && ru == u
                && unit_result(s, e, u, result as int),
            None => r matches Err(x) && x@ == unknown_unit_message(unit),
        }
    }
}

/// What `date_diff` answers: the first input's error, the second's, or the
/// difference between the two date-times.
pub open spec fn date_diff_answers(
    start: Seq<char>,
    end: Seq<char>,
    unit: Seq<char>,
    r: Result<DateDiff, String>,
) -> bool {
    match date_input(start) {
        Err(m) => r matches Err(x) && x@ == m,
        Ok((s, s_date_only)) => match date_input(end) {
            Err(m) => r matches Err(x) && x@ == m,
            Ok((e, e_date_only)) => diff_answers(s, e, s_date_only, e_date_only, unit, r),
        },
    }
}

fn breakdown(s: &CivilDateTime, e: &CivilDateTime, s_date_only: bool, e_date_only: bool) -> (b:
    DiffBreakdown)
    requires
        valid_datetime(*s),
        valid_datetime(*e),
    ensures
        breakdown_matches(*s, *e, s_date_only, e_date_only, b),
{
    let secs = elapsed_seconds_of(s, e);
    let forward = datetime_on_or_before(s, e);
    let sign: i64 = if forward {
        1
    } else {
        -1
    };
    let lo = if forward {
        s.date
    } else {
        e.date
    };
    let hi = if forward {
        e.date
    } else {
        s.date
    };
    proof {
        if !forward {
            crate::calendar::lemma_date_le_total(s.date, e.date);
        }
        assert(crate::calendar::date_le(lo, hi));
    }
    let y = complete_years_between(&lo, &hi);
    proof {
        if lo == hi {
            crate::calendar::lemma_add_zero_months(lo);
        }
        assert(y >= 0);
        assert(y <= 600_000) by {
            if lo != hi && y > 600_000 {
                crate::calendar::lemma_add_months_index(lo, 12 * y);
            }
        }
    }
    let after_years = match add_months_clamped(&lo, y * 12) {
        Some(d) => d,
        None => hi,
    };
    proof {
        assert(add_months_spec(lo, 12 * y) == Some(after_years));
        crate::calendar::lemma_add_months_index(lo, 12 * y);
        if after_years == hi {
            crate::calendar::lemma_add_zero_months(after_years);
        } else {
            crate::calendar::lemma_date_le_total(after_years, hi);
        }
    }
    let m = complete_months_between(&after_years, &hi);
    proof {
        assert(m >= 0);
        assert(m <= 10_000_000) by {
            if after_years != hi && m > 10_000_000 {
                crate::calendar::lemma_add_months_index(after_years, m as int);
            }
        }
    }
    let after_months = match add_months_clamped(&after_years, m) {
        Some(d) => d,
        None => hi,
    };
    proof {
        assert(add_months_spec(after_years, m as int) == Some(after_months));
        crate::calendar::lemma_add_months_index(after_years, m as int);
        lemma_day_number_bounds(hi);
        lemma_day_number_bounds(after_months);
    }
    let days = day_number_of(&hi) - day_number_of(&after_months);
    let total_days = trunc_div_of(secs, 86400);
    let total_seconds = if s_date_only && e_date_only {
        None
    } else {
        Some(secs)
    };
    DiffBreakdown { years: y, months: m, days, total_days, sign, total_seconds }
}

/// The difference from `s` to `e`, as a breakdown (`auto`) or in one unit;
/// the flags tell whether each was given as a bare date.
pub fn diff_datetimes(
    s: &CivilDateTime,
    e: &CivilDateTime,
    s_date_only: bool,
    e_date_only: bool,
    unit: &str,
) -> (r: Result<DateDiff, String>)
    requires
        valid_datetime(*s),
        valid_datetime(*e),
    ensures
        diff_answers(*s, *e, s_date_only, e_date_only, unit@, r),
{
    let u = chars_of(unit);
    if equals_text(&u, "auto") {
        return Ok(DateDiff::Breakdown(breakdown(s, e, s_date_only, e_date_only)));
    }
    let secs = elapsed_seconds_of(s, e);
    let days = trunc_div_of(secs, 86400);
    if equals_text(&u, "years") {
        let n = complete_years_between(&s.date, &e.date);
        Ok(DateDiff::InUnit { result: n, unit: DiffUnit::Years })
    } else if equals_text(&u, "months") {
        let n = complete_months_between(&s.date, &e.date);
        Ok(DateDiff::InUnit { result: n, unit: DiffUnit::Months })
    } else if equals_text(&u, "weeks") {
        Ok(DateDiff::InUnit { result: trunc_div_of(days, 7), unit: DiffUnit::Weeks })
    } else if equals_text(&u, "days") {
        Ok(DateDiff::InUnit { result: days, unit: DiffUnit::Days })
    } else if equals_text(&u, "hours") {
        Ok(DateDiff::InUnit { result: trunc_div_of(secs, 3600), unit: DiffUnit::Hours })
    } else if equals_text(&u, "minutes") {
        Ok(DateDiff::InUnit { result: trunc_div_of(secs, 60), unit: DiffUnit::Minutes })
    } else if equals_text(&u, "seconds") {
        Ok(DateDiff::InUnit { result: secs, unit: DiffUnit::Seconds })
    } else {
        Err(framed("Unknown unit: ", &u,
            " (expected auto, years, months, weeks, days, hours, minutes, or seconds)"))
    }
}

/// The difference between two date inputs, as a breakdown (`auto`) or in
/// one unit.
pub fn date_diff(start: &str, end: &str, unit: &str) -> (r: Result<DateDiff, String>)
    ensures
        date_diff_answers(start@, end@, unit@, r),
{
    let (s, s_date_only) = match parse_date(start) {
        Ok(v) => v,
        Err(x) => {
            return Err(x);
        },
    };
    let (e, e_date_only) = match parse_date(end) {
        Ok(v) => v,
        Err(x) => {
            return Err(x);
        },
    };
    diff_datetimes(&s, &e, s_date_only, e_date_only, unit)
}

// ===== Calendar facts =====

pub open spec fn weekday_name(w: Weekday) -> Seq<char> {
    match w {
        Weekday::Monday => "Monday"@,
        Weekday::Tuesday => "Tuesday"@,
        Weekday::Wednesday => "Wednesday"@,
        Weekday::Thursday => "Thursday"@,
        Weekday::Friday => "Friday"@,
        Weekday::Saturday => "Saturday"@,
        Weekday::Sunday => "Sunday"@,
    }
}

/// The English name of a weekday.
pub fn weekday_text(w: Weekday) -> (r: &'static str)
    ensures
        r@ == weekday_name(w),
{
    match w {
        Weekday::Monday => "Monday",
        Weekday::Tuesday => "Tuesday",
        Weekday::Wednesday => "Wednesday",
        Weekday::Thursday => "Thursday",
        Weekday::Friday => "Friday",
        Weekday::Saturday => "Saturday",
        Weekday::Sunday => "Sunday",
    }
}

/// Calendar facts about a date.
#[derive(PartialEq, Eq, Structural, Clone, Copy, Debug)]
pub struct DateInfo {
    pub weekday: Weekday,
    pub iso_week: u32,
    pub day_of_year: u32,
    pub days_in_month: u32,
    pub is_leap_year: bool,
    pub days_remaining_in_year: u32,
}

pub open spec fn year_days(y: int) -> int {
    if is_leap(y) {
        366
    } else {
        365
    }
}

pub open spec fn info_matches(d: CivilDate, info: DateInfo) -> bool {
    &&& weekday_number(info.weekday) == iso_weekday(d)
    &&& info.iso_week == iso_week_number(d)
    &&& info.day_of_year == ordinal(d)
    &&& info.days_in_month == month_days(d.year as int, d.month as int)
    &&& info.is_leap_year == is_leap(d.year as int)
    &&& info.days_remaining_in_year == year_days(d.year as int) - ordinal(d)
}

/// The weekday, ISO week, day of the year, length of the month, leap year and
/// days left in the year of a date.
pub fn calendar_info(d: &CivilDate) -> (info: DateInfo)
    requires
        valid_date(*d),
    ensures
        info_matches(*d, info),
{
    let day_of_year = ordinal_of(d);
    let leap = is_leap_year(d.year);
    let last: u32 = if leap {
        366
    } else {
        365
    };
    DateInfo {
        weekday: weekday_of(d),
        iso_week: iso_week_of(d),
        day_of_year,
        days_in_month: days_in_month(d.year, d.month),
        is_leap_year: leap,
        days_remaining_in_year: last - day_of_year,
    }
}

pub open spec fn date_info_answers(s: Seq<char>, r: Result<DateInfo, String>) -> bool {
    match date_input(s) {
        Err(m) => r matches Err(x) && x@ == m,
        Ok((t, _)) => r matches Ok(info) && info_matches(t.date, info),
    }
}

/// Calendar facts about the date of a date input.
pub fn date_info(date: &str) -> (r: Result<DateInfo, String>)
    ensures
        date_info_answers(date@, r),
{
    match parse_date(date) {
        Ok((t, _)) => Ok(calendar_info(&t.date)),
        Err(e) => Err(e),
    }
}

// ===== Requests =====

/// A request to add a duration to a date.
#[derive(Debug)]
pub struct DateAddRequest {
    /// `YYYY-MM-DD`, `YYYY-MM-DD HH:MM:SS` or `YYYY-MM-DDTHH:MM:SS`.
    pub date: String,
    pub years: i64,
    pub months: i64,
    pub weeks: i64,
    pub days: i64,
    pub hours: i64,
    pub minutes: i64,
    pub seconds: i64,
}

/// A request for the difference between two dates.
#[derive(Debug)]
pub struct DateDiffRequest {
    pub start: String,
    pub end: String,
    /// `auto` (the default), `years`, `months`, `weeks`, `days`, `hours`,
    /// `minutes` or `seconds`.
    pub unit: String,
}

/// A request for calendar facts about a date.
#[derive(Debug)]
pub struct DateInfoRequest {
    pub date: String,
}

/// The unit of a difference when the request names none.
pub fn default_diff_unit() -> (r: String)
    ensures
        r@ == "auto"@,
{
    "auto".to_owned()
}

// ===== Laws =====

proof fn lemma_complete_months_unique(s: CivilDate, e: CivilDate, n1: int, n2: int)
    requires
        crate::calendar::is_complete_months(s, e, n1),
        crate::calendar::is_complete_months(s, e, n2),
    ensures
        n1 == n2,
{
    if n1 < n2 {
        assert(!crate::calendar::months_fit(s, e, n2));
    } else if n2 < n1 {
        assert(!crate::calendar::months_fit(s, e, n1));
    }
}

proof fn lemma_complete_years_unique(s: CivilDate, e: CivilDate, n1: int, n2: int)
    requires
        crate::calendar::is_complete_years(s, e, n1),
        crate::calendar::is_complete_years(s, e, n2),
    ensures
        n1 == n2,
{
    if n1 < n2 {
        assert(!crate::calendar::months_fit(s, e, 12 * n2));
    } else if n2 < n1 {
        assert(!crate::calendar::months_fit(s, e, 12 * n1));
    }
}

/// Swapping the two dates negates the count of whole months between them.
pub proof fn law_complete_months_swap(a: CivilDate, b: CivilDate, r1: int, r2: int)
    requires
        signed_complete_months(a, b, r1),
        signed_complete_months(b, a, r2),
    ensures
        r1 == -r2,
{
    crate::calendar::lemma_date_le_total(a, b);
    if a != b {
        if crate::calendar::date_le(a, b) {
            lemma_complete_months_unique(a, b, r1, -r2);
        } else {
            lemma_complete_months_unique(b, a, r2, -r1);
        }
    }
}

/// Swapping the two dates negates the count of whole years between them.
pub proof fn law_complete_years_swap(a: CivilDate, b: CivilDate, r1: int, r2: int)
    requires
        signed_complete_years(a, b, r1),
        signed_complete_years(b, a, r2),
    ensures
        r1 == -r2,
{
    crate::calendar::lemma_date_le_total(a, b);
    if a != b {
        if crate::calendar::date_le(a, b) {
            lemma_complete_years_unique(a, b, r1, -r2);
        } else {
            lemma_complete_years_unique(b, a, r2, -r1);
        }
    }
}

/// Between whole-second date-times, the seconds elapsed are the difference
/// of their instants; so measuring from `e` back to `s` gives the negation.
pub proof fn law_elapsed_whole_seconds(s: CivilDateTime, e: CivilDateTime)
    requires
        valid_datetime(s),
        valid_datetime(e),
        s.nano == 0,
        e.nano == 0,
    ensures
        elapsed_seconds(s, e) == instant(e) - instant(s),
        elapsed_seconds(e, s) == -elapsed_seconds(s, e),
{
}

/// The breakdown's sign follows the elapsed time: 1 when the end comes at a
/// later instant, -1 when at an earlier one; for whole seconds, 1 exactly when
/// the end is not before the start, so the sign never disagrees with the
/// total seconds.
pub proof fn law_breakdown_sign(
    s: CivilDateTime,
    e: CivilDateTime,
    s_date_only: bool,
    e_date_only: bool,
    b: DiffBreakdown,
)
    requires
        valid_datetime(s),
        valid_datetime(e),
        breakdown_matches(s, e, s_date_only, e_date_only, b),
    ensures
        instant(s) < instant(e) ==> b.sign == 1,
        instant(e) < instant(s) ==> b.sign == -1,
        s.nano == 0 && e.nano == 0 ==> (b.sign == 1 <==> instant(s) <= instant(e)),
        s.nano == 0 && e.nano == 0 ==> (b.total_seconds matches Some(x) ==> b.sign * x >= 0),
{
    lemma_datetime_le_instant(s, e);
    lemma_datetime_le_instant(e, s);
}

/// Counts in a unit are truncated toward zero: `q = trunc_div(a, b)` is the
/// multiple of `b` nearest to `a` on the side of zero, with the sign of `a`.
pub proof fn law_truncated_count(a: int, b: int)
    requires
        b > 0,
    ensures
        a >= 0 ==> 0 <= trunc_div(a, b) * b <= a < trunc_div(a, b) * b + b,
        a < 0 ==> trunc_div(a, b) * b - b < a <= trunc_div(a, b) * b <= 0,
{
    let x = if a >= 0 {
        a
    } else {
        -a
    };
    vstd::arithmetic::div_mod::lemma_fundamental_div_mod(x, b);
    vstd::arithmetic::div_mod::lemma_mod_bound(x, b);
    let q = x / b;
    assert(q >= 0) by (nonlinear_arith)
        requires
            x == b * q + x % b,
            0 <= x % b < b,
            x >= 0,
            b > 0,
    ;
    assert(q * b == b * q) by (nonlinear_arith);
    assert((-q) * b == -(b * q)) by (nonlinear_arith);
}

/// Moving a date-time by nothing writes it back unchanged (without its
/// fraction of a second).
pub proof fn law_shift_by_nothing(dt: CivilDateTime, date_only: bool)
    requires
        valid_datetime(dt),
    ensures
        shift_outcome(dt, date_only, 0, 0, 0, 0, 0, 0, 0) == (if date_only {
            Ok::<Seq<char>, Seq<char>>(date_text(dt.date))
        } else {
            Ok::<Seq<char>, Seq<char>>(
                datetime_text(CivilDateTime { nano: 0, ..dt }),
            )
        }),
{
    crate::calendar::lemma_add_zero_months(dt.date);
}

/// A shift answers with the date-time at the moved instant: the input's date
/// moved by the whole months, at its time of day, then `n` seconds on. It is
/// written in full whenever hours, minutes or seconds were given or the input
/// had a time, and as the bare date only for a bare date moved by years,
/// months, weeks and days alone; it fails exactly when the months or the
/// seconds carry it out of the supported range.
pub proof fn law_shift_writes_the_instant(
    dt: CivilDateTime,
    date_only: bool,
    years: int,
    months: int,
    weeks: int,
    days: int,
    hours: int,
    minutes: int,
    seconds: int,
)
    requires
        valid_datetime(dt),
    ensures
        ({
            let moved_date = add_months_spec(dt.date, years * 12 + months);
            let start = CivilDateTime {
                date: moved_date->0,
                hour: dt.hour,
                minute: dt.minute,
                second: dt.second,
                nano: 0,
            };
            let n = weeks * 604800 + days * 86400 + hours * 3600 + minutes * 60 + seconds;
            let x = datetime_at(instant(start) + n);
            match shift_outcome(dt, date_only, years, months, weeks, days, hours, minutes, seconds) {
                Ok(text) => {
                    &&& moved_date is Some
                    &&& first_instant() <= instant(start) + n <= last_instant()
                    &&& if hours != 0 || minutes != 0 || seconds != 0 || !date_only {
                        text == datetime_text(x)
                    } else {
                        text == date_text(x.date)
                    }
                },
                Err(_) => moved_date is None || !(first_instant() <= instant(start) + n
                    <= last_instant()),
            }
        }),
{
    let moved_date = add_months_spec(dt.date, years * 12 + months);
    if moved_date is Some {
        crate::calendar::lemma_add_months_index(dt.date, years * 12 + months);
        let start = CivilDateTime {
            date: moved_date->0,
            hour: dt.hour,
            minute: dt.minute,
            second: dt.second,
            nano: 0,
        };
        lemma_datetime_at(start);
        lemma_day_number_bounds(start.date);
        let first = CivilDate { year: MIN_YEAR, month: 1, day: 1 };
        let last = CivilDate { year: MAX_YEAR, month: 12, day: 31 };
        if start.date != first {
            crate::calendar::lemma_day_number_order(first, start.date);
        }
        if start.date != last {
            crate::calendar::lemma_day_number_order(start.date, last);
        }
    }
}

/// The whole-second date-time `n` seconds after `t` is the one a shift by
/// `n` seconds picks, and it is measured `n` seconds away from `t`.
pub proof fn law_shift_elapsed(t: CivilDateTime, n: int, x: CivilDateTime)
    requires
        valid_datetime(t),
        t.nano == 0,
        valid_datetime(x),
        x.nano == 0,
        instant(x) == instant(t) + n,
    ensures
        x == datetime_at(instant(t) + n),
        elapsed_seconds(t, x) == n,
{
    lemma_datetime_at(x);
}

} // verus!
