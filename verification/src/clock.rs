//! Times of day, and how they are shown.
use vstd::prelude::*;

use crate::arith::{byte_of, div_i64, rem_i64};
#[allow(unused_imports)]
use crate::arith::{lemma_trunc_by_positive, low_byte, trunc_div, trunc_rem};

verus! {

/// A time of day.
#[derive(Debug, Clone, Copy, PartialEq, Eq, Structural)]
pub struct ClockTime {
    pub hour: u8,
    pub minute: u8,
    pub second: u8,
}

impl ClockTime {
    /// Whether this is a time that a day has.
    pub open spec fn is_valid(&self) -> bool {
        self.hour < 24 && self.minute < 60 && self.second < 60
    }
}

/// A date and a time of day.
#[derive(Debug, Clone, Copy, PartialEq, Eq, Structural)]
pub struct DateTime {
    pub year: i32,
    pub month: u8,
    pub day: u8,
    pub time: ClockTime,
}

/// Whether a year of the Gregorian calendar has a leap day.
pub open spec fn is_leap(year: int) -> bool {
    year % 4 == 0 && (year % 100 != 0 || year % 400 == 0)
}

/// How many days a month has.
pub open spec fn days_in(year: int, month: int) -> int {
    if month == 2 {
        if is_leap(year) {
            29
        } else {
            28
        }
    } else if month == 4 || month == 6 || month == 9 || month == 11 {
        30
    } else {
        31
    }
}

impl DateTime {
    /// Whether this is a date that the calendar has, in the years that can be shown, with a time
    /// of day.
    pub open spec fn is_valid(&self) -> bool {
        &&& -9999 <= self.year <= 9999
        &&& 1 <= self.month <= 12
        &&& 1 <= self.day <= days_in(self.year as int, self.month as int)
        &&& self.time.is_valid()
    }
}

/// The character of a decimal digit.
pub open spec fn digit(d: int) -> char {
    (48 + d) as char
}

/// A number in two digits.
pub open spec fn two_digits(n: int) -> Seq<char> {
    seq![digit(n / 10), digit(n % 10)]
}

/// A number in four digits.
pub open spec fn four_digits(n: int) -> Seq<char> {
    two_digits(n / 100) + two_digits(n % 100)
}

/// How a time of day is shown: hours, minutes and seconds in two digits each.
pub open spec fn time_text(time: ClockTime) -> Seq<char> {
    two_digits(time.hour as int) + seq![':'] + two_digits(time.minute as int) + seq![':']
        + two_digits(time.second as int)
}

/// How a year is shown: in four digits, with a minus sign where it is negative.
pub open spec fn year_text(year: int) -> Seq<char> {
    if year < 0 {
        seq!['-'] + four_digits(-year)
    } else {
        four_digits(year)
    }
}

/// How a date with a time of day is shown.
pub open spec fn date_time_text(at: DateTime) -> Seq<char> {
    year_text(at.year as int) + seq!['-'] + two_digits(at.month as int) + seq!['-'] + two_digits(
        at.day as int,
    ) + seq![' '] + time_text(at.time)
}

/// Checks a time of day.
///
/// Trusted: `time::Time::from_hms`. It accepts the hours below 24 with the minutes and the seconds
/// below 60, and nothing else; the time it makes has the hour, minute and second it was given.
#[verifier::external_body]
fn checked_time(hour: u8, minute: u8, second: u8) -> (checked: Option<ClockTime>)
    ensures
        checked == (if hour < 24 && minute < 60 && second < 60 {
            Some(ClockTime { hour, minute, second })
        } else {
            None
        }),
{
    match time::Time::from_hms(hour, minute, second) {
        Ok(time) => {
            let (hour, minute, second) = time.as_hms();
            Some(ClockTime { hour, minute, second })
        },
        Err(_) => None,
    }
}

/// Shows a time of day.
///
/// Trusted: `time::Time::format` with the description `[hour]:[minute]:[second]`. It succeeds, and
/// writes each part in two digits, with a zero in front where needed.
#[verifier::external_body]
fn format_time(time: ClockTime, description: &str) -> (text: Option<String>)
    requires
        time.is_valid(),
        description@ == "[hour]:[minute]:[second]"@,
    ensures
        text is Some,
        text.unwrap()@ == time_text(time),
{
    let time = time::Time::from_hms(time.hour, time.minute, time.second).ok()?;
    let items = time::format_description::parse_borrowed::<2>(description).ok()?;
    time.format(&items).ok()
}

/// Shows a date with a time of day.
///
/// Trusted: `time::PrimitiveDateTime::format` with the description
/// `[year]-[month]-[day] [hour]:[minute]:[second]`. It succeeds on a date of the calendar, and
/// writes the year in four digits, with a minus sign where it is negative, and each other part in
/// two digits, with zeros in front where needed.
#[verifier::external_body]
fn format_date_time(at: DateTime, description: &str) -> (text: Option<String>)
    requires
        at.is_valid(),
        description@ == "[year]-[month]-[day] [hour]:[minute]:[second]"@,
    ensures
        text is Some,
        text.unwrap()@ == date_time_text(at),
{
    let month = time::Month::try_from(at.month).ok()?;
    let date = time::Date::from_calendar_date(at.year, month, at.day).ok()?;
    let time = time::Time::from_hms(at.time.hour, at.time.minute, at.time.second).ok()?;
    let items = time::format_description::parse_borrowed::<2>(description).ok()?;
    time::PrimitiveDateTime::new(date, time).format(&items).ok()
}

/// The bytes that hour, minute and second become when seconds are counted in an `i64` and each
/// part is cast to a byte.
pub open spec fn clock_bytes(seconds: int) -> ClockTime {
    let minutes = trunc_div(seconds, 60);
    ClockTime {
        hour: low_byte(trunc_div(minutes, 60)) as u8,
        minute: low_byte(trunc_rem(minutes, 60)) as u8,
        second: low_byte(trunc_rem(seconds, 60)) as u8,
    }
}

/// The time of day after some seconds; there is none when a part of it is out of range.
pub open spec fn clock_of(seconds: int) -> Option<ClockTime> {
    if clock_bytes(seconds).is_valid() {
        Some(clock_bytes(seconds))
    } else {
        None
    }
}

/// Every second of a day has its time of day, from which the seconds can be told again.
pub proof fn law_clock_tells_seconds(seconds: int)
    requires
        0 <= seconds < 86400,
    ensures
        clock_of(seconds) is Some,
        ({
            let time = clock_of(seconds).unwrap();
            time.hour * 3600 + time.minute * 60 + time.second == seconds
        }),
{
    lemma_trunc_by_positive(seconds, 60);
    lemma_trunc_by_positive(seconds / 60, 60);
}

/// A time before the start is not a time of day, unless it is whole hours before.
pub proof fn law_no_time_before_start(seconds: int)
    requires
        i64::MIN <= seconds < 0,
        seconds % 3600 != 0,
    ensures
        clock_of(seconds) is None,
{
    lemma_trunc_by_positive(seconds, 60);
    lemma_trunc_by_positive(trunc_div(seconds, 60), 60);
}

/// Splits seconds into a time of day.
pub fn clock_of_seconds(seconds: i64) -> (time: Option<ClockTime>)
    ensures
        time == clock_of(seconds as int),
{
    let minutes = div_i64(seconds, 60);
    let hours = div_i64(minutes, 60);
    let second = byte_of(rem_i64(seconds, 60));
    let minute = byte_of(rem_i64(minutes, 60));
    let hour = byte_of(hours);
    checked_time(hour, minute, second)
}

/// Shows a time of day, hours first.
pub fn clock_text(time: ClockTime) -> (text: Option<String>)
    requires
        time.is_valid(),
    ensures
        text is Some,
        text.unwrap()@ == time_text(time),
{
    format_time(time, "[hour]:[minute]:[second]")
}

/// Shows a date with a time of day, the year first.
pub fn local_date_time_text(at: DateTime) -> (text: Option<String>)
    requires
        at.is_valid(),
    ensures
        text is Some,
        text.unwrap()@ == date_time_text(at),
{
    format_date_time(at, "[year]-[month]-[day] [hour]:[minute]:[second]")
}

/// Different times of day are shown differently.
pub proof fn law_time_text_tells_time(a: ClockTime, b: ClockTime)
    requires
        a.is_valid(),
        b.is_valid(),
        time_text(a) == time_text(b),
    ensures
        a == b,
{
    let (s, t) = (time_text(a), time_text(b));
    assert(s[0] == digit(a.hour as int / 10) && s[1] == digit(a.hour as int % 10));
    assert(s[3] == digit(a.minute as int / 10) && s[4] == digit(a.minute as int % 10));
    assert(s[6] == digit(a.second as int / 10) && s[7] == digit(a.second as int % 10));
    assert(t[0] == digit(b.hour as int / 10) && t[1] == digit(b.hour as int % 10));
    assert(t[3] == digit(b.minute as int / 10) && t[4] == digit(b.minute as int % 10));
    assert(t[6] == digit(b.second as int / 10) && t[7] == digit(b.second as int % 10));
}

/// A time of day is shown in eight characters.
pub proof fn law_time_text_len(time: ClockTime)
    ensures
        time_text(time).len() == 8,
{
}

/// From the end of the first day on there is no time of day, until the hours no longer fit in a
/// byte and start again.
pub proof fn law_no_time_after_a_day(seconds: int)
    requires
        0 <= seconds,
    ensures
        86400 <= seconds < 256 * 3600 ==> clock_of(seconds) is None,
        clock_of(seconds + 256 * 3600) == clock_of(seconds),
{
    let minutes = seconds / 60;
    let later = seconds + 921600;
    lemma_trunc_by_positive(seconds, 60);
    lemma_trunc_by_positive(minutes, 60);
    assert(later / 60 == minutes + 15360 && later % 60 == seconds % 60);
    lemma_trunc_by_positive(later, 60);
    assert((minutes + 15360) / 60 == minutes / 60 + 256 && (minutes + 15360) % 60 == minutes % 60);
    lemma_trunc_by_positive(minutes + 15360, 60);
    assert((minutes / 60 + 256) % 256 == (minutes / 60) % 256);
    assert(clock_bytes(later) == clock_bytes(seconds));
    if 86400 <= seconds < 256 * 3600 {
        assert(24 <= minutes / 60 < 256);
        assert(low_byte(minutes / 60) == minutes / 60);
    }
}

/// A number below a hundred is read off its two digits.
pub proof fn law_digits_tell_number(n: int)
    requires
        0 <= n < 100,
    ensures
        two_digits(n).len() == 2,
        ((two_digits(n)[0] as int) - 48) * 10 + ((two_digits(n)[1] as int) - 48) == n,
        '0' <= two_digits(n)[0] <= '9',
        '0' <= two_digits(n)[1] <= '9',
{
}

/// The hour, the minute and the second are read off the text of a time in this order, with a colon
/// before the second and the third of them.
pub proof fn law_time_text_reads(time: ClockTime)
    requires
        time.is_valid(),
    ensures
        time_text(time)[2] == ':',
        time_text(time)[5] == ':',
        ((time_text(time)[0] as int) - 48) * 10 + ((time_text(time)[1] as int) - 48) == time.hour,
        ((time_text(time)[3] as int) - 48) * 10 + ((time_text(time)[4] as int) - 48) == time.minute,
        ((time_text(time)[6] as int) - 48) * 10 + ((time_text(time)[7] as int) - 48) == time.second,
{
}

/// The year, the month and the day are read off the text of a date in this order, and the time of
/// day follows them, for the years from zero on.
pub proof fn law_date_text_reads(at: DateTime)
    requires
        at.is_valid(),
        at.year >= 0,
    ensures
        ({
            let text = date_time_text(at);
            &&& text.len() == 19
            &&& ((text[0] as int) - 48) * 1000 + ((text[1] as int) - 48) * 100 + ((text[2] as int)
                - 48) * 10 + ((text[3] as int) - 48) == at.year
            &&& ((text[5] as int) - 48) * 10 + ((text[6] as int) - 48) == at.month
            &&& ((text[8] as int) - 48) * 10 + ((text[9] as int) - 48) == at.day
            &&& text[4] == '-' && text[7] == '-' && text[10] == ' '
            &&& text.subrange(11, 19) == time_text(at.time)
        }),
{
    let text = date_time_text(at);
    assert(text.subrange(11, 19) =~= time_text(at.time));
}

/// A time is one of a day exactly when its seconds, counted from the start of the day, are below
/// those of a day, and no part of it runs over.
pub proof fn law_valid_times(time: ClockTime)
    ensures
        time.is_valid() ==> time.hour * 3600 + time.minute * 60 + time.second < 24 * 3600,
        time.is_valid() ==> clock_of(time.hour * 3600 + time.minute * 60 + time.second) == Some(time),
{
    if time.is_valid() {
        let minutes = time.hour * 60 + time.minute;
        let seconds = minutes * 60 + time.second;
        assert(seconds / 60 == minutes && seconds % 60 == time.second);
        assert(minutes / 60 == time.hour && minutes % 60 == time.minute);
        lemma_trunc_by_positive(seconds, 60);
        lemma_trunc_by_positive(minutes, 60);
        assert(clock_bytes(seconds) == time);
    }
}

/// The months of a year have 365 days, and one more in each fourth year but three of four
/// centuries.
pub proof fn law_days_of_year(year: int)
    ensures
        days_in(year, 1) + days_in(year, 2) + days_in(year, 3) + days_in(year, 4) + days_in(year, 5)
            + days_in(year, 6) + days_in(year, 7) + days_in(year, 8) + days_in(year, 9) + days_in(
            year,
            10,
        ) + days_in(year, 11) + days_in(year, 12) == if year % 400 == 0 || year % 4 == 0 && year % 100
            != 0 {
            366int
        } else {
            365int
        },
{
}

/// A year below zero is shown as the same year above it, with a minus sign in front.
pub proof fn law_years_below_zero(year: int)
    requires
        -9999 <= year < 0,
    ensures
        year_text(year).len() == 5,
        year_text(year)[0] == '-',
        year_text(year).skip(1) == year_text(-year),
{
    assert(year_text(year).skip(1) =~= year_text(-year));
}

/// Nor is a time of whole hours before the start a time of day, until so many that the hours, kept
/// in a byte, are those of a day.
pub proof fn law_no_hours_before_start(hours: int)
    requires
        1 <= hours <= 256,
    ensures
        hours <= 232 ==> clock_of(-3600 * hours) is None,
        hours > 232 ==> clock_of(-3600 * hours) == Some(
            ClockTime { hour: (256 - hours) as u8, minute: 0, second: 0 },
        ),
{
    let minutes = -60 * hours;
    lemma_trunc_by_positive(-3600 * hours, 60);
    assert((3600 * hours) / 60 == 60 * hours && (3600 * hours) % 60 == 0);
    lemma_trunc_by_positive(minutes, 60);
    assert((60 * hours) / 60 == hours && (60 * hours) % 60 == 0);
    assert((-hours) % 256 == (if hours == 256 {
        0
    } else {
        256 - hours
    }));
}

/// But for February, the months have 31 and 30 days by turns, with 31 in July and in August.
pub proof fn law_days_of_months(year: int, month: int)
    requires
        1 <= month <= 12,
    ensures
        month != 2 ==> days_in(year, month) == 30 + (month + month / 8) % 2,
        days_in(year, 2) == 28 || days_in(year, 2) == 29,
{
}

} // verus!
