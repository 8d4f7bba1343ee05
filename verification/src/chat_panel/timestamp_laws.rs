//! What the text for the time of a message says, and which day and hour it says it of.

use vstd::prelude::*;
use crate::chat_panel::timestamp::{
    clock_text, date_text, is_calendar_date, is_timestamp_text, year_length, OffsetDateTime,
};
use crate::text::{
    all_digits, decimal, decimal_says_the_number, padded_decimal, signed_decimal,
    signs_and_padding, value_of,
};

verus! {

/// A time of day is shown as the hour and the minute in two digits each and a mark. The hours up to
/// 12 are shown as they are and marked as `am`, the later ones less 12 and marked as `pm`.
pub proof fn clock_shows_hour_and_minute(hour: int, minute: int)
    requires
        0 <= hour < 24,
        0 <= minute < 60,
    ensures
        ({
            let text = clock_text(hour, minute);
            &&& text.len() == 7
            &&& all_digits(text.subrange(0, 2))
            &&& value_of(text.subrange(0, 2)) == if hour > 12 {
                hour - 12
            } else {
                hour
            }
            &&& text[2] == ':'
            &&& all_digits(text.subrange(3, 5))
            &&& value_of(text.subrange(3, 5)) == minute
            &&& text[5] == if hour > 12 {
                'p'
            } else {
                'a'
            }
            &&& text[6] == 'm'
        }),
{
    reveal_strlit(":");
    reveal_strlit("am");
    reveal_strlit("pm");
    let shown = (if hour > 12 {
        hour - 12
    } else {
        hour
    }) as nat;
    let text = clock_text(hour, minute);
    signs_and_padding(0, shown);
    signs_and_padding(0, minute as nat);
    assert(text.subrange(0, 2) =~= padded_decimal(shown));
    assert(text.subrange(3, 5) =~= padded_decimal(minute as nat));
}

/// A date is shown as the month in two digits, the day and the year, with a slash between them.
pub proof fn date_shows_month_day_and_year(year: int, month: int, day: int)
    requires
        1 <= month <= 12,
        1 <= day <= 31,
    ensures
        ({
            let text = date_text(year, month, day);
            let width = if day < 10 {
                1int
            } else {
                2int
            };
            &&& text.len() > width + 4
            &&& all_digits(text.subrange(0, 2))
            &&& value_of(text.subrange(0, 2)) == month
            &&& text[2] == '/'
            &&& all_digits(text.subrange(3, 3 + width))
            &&& value_of(text.subrange(3, 3 + width)) == day
            &&& text[3 + width] == '/'
            &&& year >= 0 ==> all_digits(text.skip(4 + width))
            &&& year >= 0 ==> value_of(text.skip(4 + width)) == year
            &&& year < 0 ==> text[4 + width] == '-'
            &&& year < 0 ==> all_digits(text.skip(5 + width))
            &&& year < 0 ==> value_of(text.skip(5 + width)) == -year
        }),
{
    reveal_strlit("/");
    let text = date_text(year, month, day);
    signs_and_padding(year, month as nat);
    decimal_says_the_number(day as nat);
    decimal_says_the_number(day as nat / 10);
    assert(day >= 10 ==> decimal(day as nat).len() == decimal(day as nat / 10).len() + 1);
    let width = decimal(day as nat).len() as int;
    assert(text.subrange(0, 2) =~= padded_decimal(month as nat));
    assert(text.subrange(3, 3 + width) =~= decimal(day as nat));
    assert(text.skip(4 + width) =~= signed_decimal(year));
    if year >= 0 {
        decimal_says_the_number(year as nat);
    } else {
        decimal_says_the_number((-year) as nat);
        assert(text.skip(5 + width) =~= signed_decimal(year).skip(1));
    }
}

/// A moment of today is shown as its time of day, one of yesterday as its time of day behind the
/// word for that, and any other one, of the future too, as its date.
pub proof fn text_says_today_yesterday_or_the_date(
    text: Seq<char>,
    julian_day: int,
    hour: int,
    minute: int,
    today: int,
)
    requires
        is_timestamp_text(text, julian_day, hour, minute, today),
    ensures
        today == julian_day ==> text == clock_text(hour, minute),
        today == julian_day + 1 ==> text == "yesterday at "@ + clock_text(hour, minute),
        today < julian_day || today > julian_day + 1 ==> exists|year: int, month: int, day: int|
            is_calendar_date(julian_day, year, month, day) && text == #[trigger] date_text(
                year,
                month,
                day,
            ),
{
    if today < julian_day || today > julian_day + 1 {
        let (year, month, day) = choose|year: int, month: int, day: int| #[trigger]
            is_calendar_date(julian_day, year, month, day) && text == date_text(year, month, day);
        assert(text == date_text(year, month, day));
    }
}

/// On its own clock a moment has its own day, hour and minute, and a clock that is ahead of another
/// one shows it as much later.
pub proof fn clocks_show_a_moment(moment: OffsetDateTime, a: int, b: int)
    requires
        moment.is_valid(),
    ensures
        moment.seconds_at(moment.offset as int) / 86_400 == moment.julian_day,
        moment.seconds_at(moment.offset as int) % 86_400 / 3_600 == moment.hour,
        moment.seconds_at(moment.offset as int) % 3_600 / 60 == moment.minute,
        moment.seconds_at(moment.offset as int) % 60 == moment.second,
        moment.seconds_at(a) - moment.seconds_at(b) == a - b,
{
}

/// A moment is valid within the years from 9999 before to 9999 after the start of the count, for a
/// time of day, on a clock less than 26 hours from UTC; a clock shows a date for it within the same
/// years.
pub proof fn validity_of_a_moment(moment: OffsetDateTime, offset: int)
    ensures
        moment.is_valid() == (-1_930_999 <= moment.julian_day <= 5_373_484 && moment.hour <= 23
            && moment.minute <= 59 && moment.second <= 59 && -26 * 3_600 < moment.offset < 26
            * 3_600),
        moment.has_date_at(offset) == (-1_930_999 * 86_400 <= moment.seconds_at(offset) < 5_373_485
            * 86_400),
{
}

/// The number of days of a month.
pub open spec fn month_length(year: int, month: int) -> int {
    if month == 4 || month == 6 || month == 9 || month == 11 {
        30
    } else if month != 2 {
        31
    } else if year % 400 == 0 || (year % 4 == 0 && year % 100 != 0) {
        29
    } else {
        28
    }
}

/// The calendar goes on day by day: after the last day of a month comes the first of the next one,
/// and after December the next year. It is fixed by one day.
pub proof fn days_follow_each_other(julian_day: int, year: int, month: int, day: int)
    ensures
        is_calendar_date(2_440_588, 1_970, 1, 1),
        is_calendar_date(julian_day, year, month, day) ==> {
            &&& 1 <= month <= 12
            &&& 1 <= day <= month_length(year, month)
            &&& day < month_length(year, month) ==> is_calendar_date(
                julian_day + 1,
                year,
                month,
                day + 1,
            )
            &&& day == month_length(year, month) && month < 12 ==> is_calendar_date(
                julian_day + 1,
                year,
                month + 1,
                1,
            )
            &&& day == month_length(year, month) && month == 12 ==> is_calendar_date(
                julian_day + 1,
                year + 1,
                1,
                1,
            )
        },
{
    year_length(year);
}

} // verus!
