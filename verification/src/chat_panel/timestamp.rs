//! How the time of a message is shown.

use vstd::prelude::*;
use vstd::arithmetic::div_mod::{
    lemma_fundamental_div_mod, lemma_fundamental_div_mod_converse, lemma_mod_bound,
};
use vstd::string::StringExecFns;
use crate::text::{
    decimal, padded_decimal, push_decimal, push_padded_decimal, push_signed_decimal,
    signed_decimal,
};

verus! {

/// The Julian day of the earliest date.
pub const MIN_JULIAN_DAY: i32 = -1_930_999;

/// The Julian day of the latest date.
pub const MAX_JULIAN_DAY: i32 = 5_373_484;

/// The greatest distance of a time zone from UTC, in seconds.
pub const MAX_OFFSET: i32 = 93_599;

/// A date and time of day, and how many seconds its clock is ahead of UTC.
#[derive(Clone, Copy, Debug)]
pub struct OffsetDateTime {
    pub julian_day: i32,
    pub hour: u8,
    pub minute: u8,
    pub second: u8,
    pub offset: i32,
}

impl OffsetDateTime {
    /// The fields are those of a date, a time of day and a time zone.
    pub open spec fn is_valid(self) -> bool {
        &&& MIN_JULIAN_DAY <= self.julian_day <= MAX_JULIAN_DAY
        &&& self.hour < 24
        &&& self.minute < 60
        &&& self.second < 60
        &&& -MAX_OFFSET <= self.offset <= MAX_OFFSET
    }

    /// The seconds from the start of Julian day 0 until this moment, on a clock that is `offset`
    /// seconds ahead of UTC.
    pub open spec fn seconds_at(self, offset: int) -> int {
        self.julian_day * 86_400 + self.hour * 3_600 + self.minute * 60 + self.second - self.offset
            + offset
    }

    /// The moment has a date on a clock that is `offset` seconds ahead of UTC.
    pub open spec fn has_date_at(self, offset: int) -> bool {
        MIN_JULIAN_DAY <= self.seconds_at(offset) / 86_400 <= MAX_JULIAN_DAY
    }
}

/// A date and time of day on a given clock.
#[derive(Clone, Copy, Debug)]
pub struct LocalTime {
    pub julian_day: i32,
    pub hour: u8,
    pub minute: u8,
}

/// A year with 366 days.
pub open spec fn is_leap_year(year: int) -> bool {
    year % 4 == 0 && (year % 100 != 0 || year % 400 == 0)
}

/// The days of a year before a month.
pub open spec fn days_before_month(year: int, month: int) -> int {
    let leap_day: int = if is_leap_year(year) {
        1
    } else {
        0
    };
    if month <= 1 {
        0
    } else if month == 2 {
        31
    } else if month == 3 {
        59 + leap_day
    } else if month == 4 {
        90 + leap_day
    } else if month == 5 {
        120 + leap_day
    } else if month == 6 {
        151 + leap_day
    } else if month == 7 {
        181 + leap_day
    } else if month == 8 {
        212 + leap_day
    } else if month == 9 {
        243 + leap_day
    } else if month == 10 {
        273 + leap_day
    } else if month == 11 {
        304 + leap_day
    } else if month == 12 {
        334 + leap_day
    } else {
        365 + leap_day
    }
}

/// The Julian day before the first day of a year.
pub open spec fn day_before_year(year: int) -> int {
    365 * (year - 1) + (year - 1) / 4 - (year - 1) / 100 + (year - 1) / 400 + 1_721_425
}

/// `year`, `month` and `day` are the calendar date of a Julian day.
pub open spec fn is_calendar_date(julian_day: int, year: int, month: int, day: int) -> bool {
    &&& 1 <= month <= 12
    &&& 1 <= day <= days_before_month(year, month + 1) - days_before_month(year, month)
    &&& julian_day == day_before_year(year) + days_before_month(year, month) + day
}

/// What `time::OffsetDateTime::to_offset` gives, with `to_julian_day`, `hour` and `minute` of its
/// result: the same moment on a clock that is `offset` seconds ahead of UTC.
#[verifier::external_body]
fn to_offset(moment: OffsetDateTime, offset: i32) -> (local: LocalTime)
    requires
        moment.is_valid(),
        -MAX_OFFSET <= offset <= MAX_OFFSET,
        moment.has_date_at(offset as int),
    ensures
        local.julian_day == moment.seconds_at(offset as int) / 86_400,
        local.hour == moment.seconds_at(offset as int) % 86_400 / 3_600,
        local.minute == moment.seconds_at(offset as int) % 3_600 / 60,
{
    let local = time::Date::from_julian_day(moment.julian_day)
        .unwrap()
        .with_hms(moment.hour, moment.minute, moment.second)
        .unwrap()
        .assume_offset(time::UtcOffset::from_whole_seconds(moment.offset).unwrap())
        .to_offset(time::UtcOffset::from_whole_seconds(offset).unwrap());
    LocalTime { julian_day: local.to_julian_day(), hour: local.hour(), minute: local.minute() }
}

/// What `time::Date::next_day` gives: the day after, where there is one.
#[verifier::external_body]
fn next_day(julian_day: i32) -> (next: Option<i32>)
    requires
        MIN_JULIAN_DAY <= julian_day <= MAX_JULIAN_DAY,
    ensures
        next == if julian_day < MAX_JULIAN_DAY {
            Some((julian_day + 1) as i32)
        } else {
            None
        },
{
    time::Date::from_julian_day(julian_day).unwrap().next_day().map(|date| date.to_julian_day())
}

/// What `time::Date::to_calendar_date` gives: the year, month and day of a date.
#[verifier::external_body]
fn to_calendar_date(julian_day: i32) -> (date: (i32, u8, u8))
    requires
        MIN_JULIAN_DAY <= julian_day <= MAX_JULIAN_DAY,
    ensures
        is_calendar_date(julian_day as int, date.0 as int, date.1 as int, date.2 as int),
{
    let (year, month, day) = time::Date::from_julian_day(julian_day).unwrap().to_calendar_date();
    (year, u8::from(month), day)
}

/// A time of day as it is shown: the hours from 13 on less 12 and marked as `pm`.
pub open spec fn clock_text(hour: int, minute: int) -> Seq<char> {
    padded_decimal(
        (if hour > 12 {
            hour - 12
        } else {
            hour
        }) as nat,
    ) + ":"@ + padded_decimal(minute as nat) + if hour > 12 {
        "pm"@
    } else {
        "am"@
    }
}

/// A date as it is shown.
pub open spec fn date_text(year: int, month: int, day: int) -> Seq<char> {
    padded_decimal(month as nat) + "/"@ + decimal(day as nat) + "/"@ + signed_decimal(year)
}

/// The text for a moment on day `julian_day` at `hour` and `minute`, seen on day `today`, both on
/// the same clock.
pub open spec fn is_timestamp_text(
    text: Seq<char>,
    julian_day: int,
    hour: int,
    minute: int,
    today: int,
) -> bool {
    if julian_day == today {
        text == clock_text(hour, minute)
    } else if julian_day + 1 == today {
        text == "yesterday at "@ + clock_text(hour, minute)
    } else {
        exists|year: int, month: int, day: int| #[trigger]
            is_calendar_date(julian_day, year, month, day) && text == date_text(year, month, day)
    }
}

/// Appends a time of day.
fn push_clock(text: &mut String, hour: u8, minute: u8)
    ensures
        final(text)@ == old(text)@ + clock_text(hour as int, minute as int),
{
    let mut shown_hour: u8 = hour;
    let mut part: &'static str = "am";
    if hour > 12 {
        shown_hour = hour - 12;
        part = "pm";
    }
    push_padded_decimal(text, shown_hour as u64);
    text.append(":");
    push_padded_decimal(text, minute as u64);
    text.append(part);
    assert(text@ =~= old(text)@ + clock_text(hour as int, minute as int));
}

/// Appends a date.
fn push_date(text: &mut String, year: i32, month: u8, day: u8)
    ensures
        final(text)@ == old(text)@ + date_text(year as int, month as int, day as int),
{
    push_padded_decimal(text, month as u64);
    text.append("/");
    push_decimal(text, day as u64);
    text.append("/");
    push_signed_decimal(text, year);
    assert(text@ =~= old(text)@ + date_text(year as int, month as int, day as int));
}

/// The text for the time of a message, on the clock of the local time zone: the time of day for a
/// message of today or yesterday, the date for any other.
pub fn format_timestamp(
    timestamp: OffsetDateTime,
    now: OffsetDateTime,
    local_timezone: i32,
) -> (text: String)
    requires
        timestamp.is_valid(),
        now.is_valid(),
        -MAX_OFFSET <= local_timezone <= MAX_OFFSET,
        timestamp.has_date_at(local_timezone as int),
        now.has_date_at(local_timezone as int),
    ensures
        is_timestamp_text(
            text@,
            timestamp.seconds_at(local_timezone as int) / 86_400,
            timestamp.seconds_at(local_timezone as int) % 86_400 / 3_600,
            timestamp.seconds_at(local_timezone as int) % 3_600 / 60,
            now.seconds_at(local_timezone as int) / 86_400,
        ),
{
    let sent = to_offset(timestamp, local_timezone);
    let today: i32 = to_offset(now, local_timezone).julian_day;
    let mut text = String::new();
    if sent.julian_day == today {
        push_clock(&mut text, sent.hour, sent.minute);
        assert(text@ =~= clock_text(sent.hour as int, sent.minute as int));
        return text;
    }
    let is_yesterday = match next_day(sent.julian_day) {
        Some(next) => next == today,
        None => false,
    };
    if is_yesterday {
        text.append("yesterday at ");
        push_clock(&mut text, sent.hour, sent.minute);
        assert(text@ =~= "yesterday at "@ + clock_text(sent.hour as int, sent.minute as int));
    } else {
        let (year, month, day) = to_calendar_date(sent.julian_day);
        push_date(&mut text, year, month, day);
        assert(text@ =~= date_text(year as int, month as int, day as int));
    }
    text
}

/// One more number counts one more multiple exactly where it is one.
proof fn multiples_count(n: int, divisor: int)
    requires
        divisor > 0,
    ensures
        n / divisor == (n - 1) / divisor + if n % divisor == 0 {
            1int
        } else {
            0int
        },
{
    let quotient = n / divisor;
    let rest = n % divisor;
    lemma_fundamental_div_mod(n, divisor);
    if rest == 0 {
        assert(n - 1 == (quotient - 1) * divisor + (divisor - 1)) by (nonlinear_arith)
            requires
                n == divisor * quotient,
        ;
        lemma_fundamental_div_mod_converse(n - 1, divisor, quotient - 1, divisor - 1);
    } else {
        lemma_mod_bound(n, divisor);
        assert(n - 1 == quotient * divisor + (rest - 1)) by (nonlinear_arith)
            requires
                n == divisor * quotient + rest,
        ;
        lemma_fundamental_div_mod_converse(n - 1, divisor, quotient, rest - 1);
    }
}

/// A year starts right after the one before ends.
pub proof fn year_length(year: int)
    ensures
        day_before_year(year + 1) == day_before_year(year) + days_before_month(year, 13),
{
    multiples_count(year, 4);
    multiples_count(year, 100);
    multiples_count(year, 400);
    assert(year % 400 == 0 ==> year % 100 == 0);
    assert(year % 100 == 0 ==> year % 4 == 0);
}

/// Years start one after the other.
proof fn years_ascend(earlier: int, later: int)
    requires
        earlier < later,
    ensures
        day_before_year(earlier) + days_before_month(earlier, 13) <= day_before_year(later),
    decreases later - earlier,
{
    if earlier + 1 == later {
        year_length(earlier);
    } else {
        years_ascend(earlier, later - 1);
        year_length(later - 1);
    }
}

/// A day has one calendar date, and so one text.
pub proof fn calendar_date_is_unique(
    julian_day: int,
    year: int,
    month: int,
    day: int,
    other_year: int,
    other_month: int,
    other_day: int,
)
    requires
        is_calendar_date(julian_day, year, month, day),
        is_calendar_date(julian_day, other_year, other_month, other_day),
    ensures
        year == other_year,
        month == other_month,
        day == other_day,
{
    if year < other_year {
        years_ascend(year, other_year);
    }
    if other_year < year {
        years_ascend(other_year, year);
    }
}

/// The text for a moment is determined.
pub proof fn timestamp_text_is_determined(
    a: Seq<char>,
    b: Seq<char>,
    julian_day: int,
    hour: int,
    minute: int,
    today: int,
)
    requires
        is_timestamp_text(a, julian_day, hour, minute, today),
        is_timestamp_text(b, julian_day, hour, minute, today),
    ensures
        a == b,
{
    if julian_day != today && julian_day + 1 != today {
        let (y, m, d) = choose|year: int, month: int, day: int| #[trigger]
            is_calendar_date(julian_day, year, month, day) && a == date_text(year, month, day);
        let (z, n, e) = choose|year: int, month: int, day: int| #[trigger]
            is_calendar_date(julian_day, year, month, day) && b == date_text(year, month, day);
        calendar_date_is_unique(julian_day, y, m, d, z, n, e);
    }
}

/// A moment has the same local time whatever clock it is given on: only the moment matters.
pub proof fn clock_of_a_moment_does_not_matter(
    a: OffsetDateTime,
    b: OffsetDateTime,
    local_timezone: int,
)
    requires
        a.seconds_at(0) == b.seconds_at(0),
    ensures
        a.seconds_at(local_timezone) == b.seconds_at(local_timezone),
{
}

} // verus!
