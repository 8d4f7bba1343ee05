use collab_core::chat_panel::timestamp::{
    format_timestamp, OffsetDateTime, MAX_JULIAN_DAY, MAX_OFFSET, MIN_JULIAN_DAY,
};
use time::{Date, Month, UtcOffset};

fn plain(moment: time::OffsetDateTime) -> OffsetDateTime {
    OffsetDateTime {
        julian_day: moment.to_julian_day(),
        hour: moment.hour(),
        minute: moment.minute(),
        second: moment.second(),
        offset: moment.offset().whole_seconds(),
    }
}

fn utc(year: i32, month: Month, day: u8, hour: u8, minute: u8) -> time::OffsetDateTime {
    Date::from_calendar_date(year, month, day)
        .unwrap()
        .with_hms(hour, minute, 0)
        .unwrap()
        .assume_utc()
}

fn format(timestamp: time::OffsetDateTime, now: time::OffsetDateTime, offset: i32) -> String {
    format_timestamp(plain(timestamp), plain(now), offset)
}

#[test]
fn limits_are_those_of_dates_and_offsets() {
    assert_eq!(Date::MIN.to_julian_day(), MIN_JULIAN_DAY);
    assert_eq!(Date::MAX.to_julian_day(), MAX_JULIAN_DAY);
    assert!(UtcOffset::from_whole_seconds(MAX_OFFSET).is_ok());
    assert!(UtcOffset::from_whole_seconds(-MAX_OFFSET).is_ok());
    assert!(UtcOffset::from_whole_seconds(MAX_OFFSET + 1).is_err());
    assert!(UtcOffset::from_whole_seconds(-MAX_OFFSET - 1).is_err());
}

#[test]
fn today_shows_the_time_of_day() {
    let now = utc(2023, Month::October, 24, 23, 59);
    assert_eq!(format(utc(2023, Month::October, 24, 0, 5), now, 0), "00:05am");
    assert_eq!(format(utc(2023, Month::October, 24, 9, 30), now, 0), "09:30am");
    assert_eq!(format(utc(2023, Month::October, 24, 12, 0), now, 0), "12:00am");
    assert_eq!(format(utc(2023, Month::October, 24, 13, 7), now, 0), "01:07pm");
    assert_eq!(format(utc(2023, Month::October, 24, 23, 59), now, 0), "11:59pm");
}

#[test]
fn yesterday_says_so() {
    let now = utc(2024, Month::January, 1, 0, 0);
    assert_eq!(
        format(utc(2023, Month::December, 31, 15, 4), now, 0),
        "yesterday at 03:04pm"
    );
}

#[test]
fn other_days_show_the_date() {
    let now = utc(2024, Month::March, 1, 8, 0);
    assert_eq!(format(utc(2024, Month::February, 28, 8, 0), now, 0), "02/28/2024");
    assert_eq!(format(utc(2024, Month::March, 2, 8, 0), now, 0), "03/2/2024");
    assert_eq!(format(utc(1999, Month::December, 9, 8, 0), now, 0), "12/9/1999");
    assert_eq!(format(utc(-44, Month::March, 15, 8, 0), now, 0), "03/15/-44");
    assert_eq!(format(utc(0, Month::July, 1, 8, 0), now, 0), "07/1/0");
}

#[test]
fn local_time_zone_decides_the_day() {
    let now = utc(2023, Month::October, 24, 1, 0);
    let sent = utc(2023, Month::October, 23, 23, 30);
    assert_eq!(format(sent, now, 0), "yesterday at 11:30pm");
    assert_eq!(format(sent, now, 3600), "00:30am");
    assert_eq!(format(sent, now, -7200), "09:30pm");
    assert_eq!(format(sent, now, -3600), "yesterday at 10:30pm");
}

#[test]
fn clock_of_the_sender_does_not_matter() {
    let now = utc(2023, Month::October, 24, 1, 0);
    let sent = utc(2023, Month::October, 23, 23, 30);
    let elsewhere = sent.to_offset(UtcOffset::from_hms(9, 45, 0).unwrap());
    assert_eq!(format(elsewhere, now, 3600), format(sent, now, 3600));
}

#[test]
fn nothing_comes_after_the_last_day() {
    let last = Date::MAX.with_hms(10, 0, 0).unwrap().assume_utc();
    let now = utc(2023, Month::October, 24, 1, 0);
    assert_eq!(format(last, now, 0), "12/31/9999");
    assert_eq!(format(now, last, 0), "10/24/2023");
    let first = Date::MIN.with_hms(10, 0, 0).unwrap().assume_utc();
    assert_eq!(format(first, now, 0), "01/1/-9999");
}

#[test]
fn moments_out_of_reach_in_utc_have_a_local_date() {
    let west = UtcOffset::from_hms(-5, 0, 0).unwrap();
    let last = Date::MAX.with_hms(23, 30, 0).unwrap().assume_offset(west);
    assert_eq!(format(last, last, -5 * 3600), "11:30pm");
}

fn expected(timestamp: time::OffsetDateTime, now: time::OffsetDateTime, zone: UtcOffset) -> String {
    let timestamp = timestamp.to_offset(zone);
    let today = now.to_offset(zone).date();
    let date = timestamp.date();
    let (hour, part) = if timestamp.hour() > 12 {
        (timestamp.hour() - 12, "pm")
    } else {
        (timestamp.hour(), "am")
    };
    if date == today {
        format!("{:02}:{:02}{}", hour, timestamp.minute(), part)
    } else if date.next_day() == Some(today) {
        format!("yesterday at {:02}:{:02}{}", hour, timestamp.minute(), part)
    } else {
        format!("{:02}/{}/{}", date.month() as u32, date.day(), date.year())
    }
}

#[test]
fn texts_agree_with_the_calendar() {
    let zones = [0, 3600, -3600, 20700, -34200, 93599, -93599, 61, -61];
    let mut seconds: i64 = -100_000_000_000;
    while seconds < 100_000_000_000 {
        let sent = time::OffsetDateTime::from_unix_timestamp(seconds).unwrap();
        for zone in zones {
            let offset = UtcOffset::from_whole_seconds(zone).unwrap();
            for later in [0, 40_000, 86_400, 130_000, 400_000] {
                let now = time::OffsetDateTime::from_unix_timestamp(seconds + later).unwrap();
                assert_eq!(format(sent, now, zone), expected(sent, now, offset));
            }
        }
        seconds += 123_456_789;
    }
}
