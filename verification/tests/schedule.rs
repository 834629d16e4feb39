use rollcall::calendar::{CivilDate, CivilTime};
use rollcall::cron::CronSchedule;
use rollcall::error::ScheduleError;
use rollcall::schedule::{first_trigger, judge, next_trigger, validate_schedule, Verdict};

fn at(year: i16, month: i8, day: i8, hour: i8, minute: i8, second: i8) -> CivilTime {
    CivilTime { year, month, day, hour, minute, second }
}

#[test]
fn next_trigger_in_utc() {
    assert_eq!(next_trigger("30 9 * * *", "UTC", 1704067200), Ok(1704101400));
}

#[test]
fn next_trigger_is_after_now_even_when_now_matches() {
    assert_eq!(next_trigger("30 9 * * *", "UTC", 1704101400), Ok(1704101400 + 86400));
    assert_eq!(next_trigger("30 9 * * *", "UTC", 1704101399), Ok(1704101400));
}

#[test]
fn next_trigger_reads_the_wall_clock_of_the_zone() {
    // Monday 09:00 in New York, seen from Sunday evening there.
    assert_eq!(next_trigger("0 9 * * 1", "America/New_York", 1704067200), Ok(1704117600));
    // Saturday 18:00 in Berlin during summer time.
    assert_eq!(next_trigger("0 18 * * 6", "Europe/Berlin", 1718452800), Ok(1718467200));
}

#[test]
fn next_trigger_with_seconds_field() {
    assert_eq!(next_trigger("*/15 * * * * *", "UTC", 1704067207), Ok(1704067215));
}

#[test]
fn next_trigger_crosses_the_year() {
    assert_eq!(next_trigger("0 0 1 1 *", "UTC", 1717200000), Ok(1735689600));
}

#[test]
fn next_trigger_waits_for_a_leap_day() {
    assert_eq!(next_trigger("0 0 29 2 *", "UTC", 1709251200), Ok(1835395200));
}

#[test]
fn next_trigger_where_the_clock_jumps_forward() {
    // 02:30 does not exist in New York on 10 March 2024; the time after the gap is taken.
    assert_eq!(next_trigger("30 2 10 3 *", "America/New_York", 1710050400), Ok(1710055800));
}

#[test]
fn next_trigger_where_the_clock_is_set_back() {
    // Within the first pass through 01:xx the first 01:45 is still ahead.
    assert_eq!(next_trigger("45 1 * * *", "America/New_York", 1730611800), Ok(1730612700));
    // Within the second pass the first 01:45 has gone by: the next day's is taken.
    assert_eq!(next_trigger("45 1 * * *", "America/New_York", 1730615400), Ok(1730702700));
}

#[test]
fn next_trigger_rejects_a_bad_expression() {
    assert_eq!(next_trigger("not-a-cron", "UTC", 0), Err(ScheduleError::InvalidExpression));
    assert_eq!(next_trigger("", "UTC", 0), Err(ScheduleError::InvalidExpression));
    assert_eq!(next_trigger("* * * *", "UTC", 0), Err(ScheduleError::InvalidExpression));
    assert_eq!(next_trigger("* * * * * * *", "UTC", 0), Err(ScheduleError::InvalidExpression));
    assert_eq!(next_trigger("60 * * * *", "UTC", 0), Err(ScheduleError::InvalidExpression));
    assert_eq!(next_trigger("* 24 * * *", "UTC", 0), Err(ScheduleError::InvalidExpression));
    assert_eq!(next_trigger("* * 0 * *", "UTC", 0), Err(ScheduleError::InvalidExpression));
    assert_eq!(next_trigger("* * * 13 *", "UTC", 0), Err(ScheduleError::InvalidExpression));
    assert_eq!(next_trigger("* * * * 8", "UTC", 0), Err(ScheduleError::InvalidExpression));
    assert_eq!(next_trigger("5-1 * * * *", "UTC", 0), Err(ScheduleError::InvalidExpression));
    assert_eq!(next_trigger("*/0 * * * *", "UTC", 0), Err(ScheduleError::InvalidExpression));
    assert_eq!(next_trigger("1,,2 * * * *", "UTC", 0), Err(ScheduleError::InvalidExpression));
    assert_eq!(next_trigger("1-2-3 * * * *", "UTC", 0), Err(ScheduleError::InvalidExpression));
    assert_eq!(next_trigger("1/2/3 * * * *", "UTC", 0), Err(ScheduleError::InvalidExpression));
    assert_eq!(next_trigger("MON * * * *", "UTC", 0), Err(ScheduleError::InvalidExpression));
}

#[test]
fn next_trigger_rejects_an_unknown_zone() {
    assert_eq!(next_trigger("* * * * *", "Mars/Olympus", 0), Err(ScheduleError::InvalidTimezone));
    // The expression is checked first.
    assert_eq!(next_trigger("nope", "Mars/Olympus", 0), Err(ScheduleError::InvalidExpression));
}

#[test]
fn next_trigger_reports_a_schedule_that_never_fires() {
    assert_eq!(next_trigger("0 0 31 2 *", "UTC", 1704067200), Err(ScheduleError::NoOccurrence));
    assert_eq!(next_trigger("* * * * *", "UTC", i64::MAX), Err(ScheduleError::NoOccurrence));
}

#[test]
fn next_trigger_is_after_now_on_many_inputs() {
    let expressions = ["* * * * *", "*/7 3-5 * * 1-5", "0 0 1 * *", "59 23 31 12 *", "30 2 * * 0"];
    let zones = ["UTC", "America/New_York", "Europe/Berlin", "Asia/Kolkata", "Australia/Lord_Howe"];
    let mut now: i64 = 1_600_000_000;
    while now < 1_800_000_000 {
        for e in expressions {
            for z in zones {
                let first = next_trigger(e, z, now).unwrap();
                assert!(first > now);
                assert_eq!(next_trigger(e, z, now), Ok(first));
            }
        }
        now += 7_654_321;
    }
}

#[test]
fn validate_schedule_checks_expression_then_zone() {
    assert_eq!(validate_schedule("0 18 * * 6", "Europe/Berlin"), Ok(()));
    assert_eq!(
        validate_schedule("not-a-cron", "Europe/Berlin"),
        Err(ScheduleError::InvalidExpression)
    );
    assert_eq!(validate_schedule("0 18 * * 6", "Nowhere"), Err(ScheduleError::InvalidTimezone));
    assert_eq!(validate_schedule("bad", "Nowhere"), Err(ScheduleError::InvalidExpression));
}

#[test]
fn judge_fires_only_after_now() {
    assert_eq!(judge(10, Some(11)), Verdict::Fire(11));
    assert_eq!(judge(10, Some(10)), Verdict::Skip);
    assert_eq!(judge(10, Some(-5)), Verdict::Skip);
    assert_eq!(judge(10, None), Verdict::GiveUp);
}

#[test]
fn cron_accepts_listed_times() {
    let cron = CronSchedule::parse("*/20 8-10 1,15 * *").unwrap();
    assert!(cron.accepts(&at(2024, 5, 15, 9, 40, 0)));
    assert!(cron.accepts(&at(2024, 5, 1, 8, 0, 0)));
    assert!(!cron.accepts(&at(2024, 5, 15, 9, 41, 0)));
    assert!(!cron.accepts(&at(2024, 5, 15, 11, 0, 0)));
    assert!(!cron.accepts(&at(2024, 5, 2, 9, 0, 0)));
    assert!(!cron.accepts(&at(2024, 5, 15, 9, 40, 1)));
}

#[test]
fn cron_steps_and_open_ranges() {
    let cron = CronSchedule::parse("5/25 * * * *").unwrap();
    assert!(cron.accepts(&at(2024, 1, 1, 0, 5, 0)));
    assert!(cron.accepts(&at(2024, 1, 1, 0, 30, 0)));
    assert!(cron.accepts(&at(2024, 1, 1, 0, 55, 0)));
    assert!(!cron.accepts(&at(2024, 1, 1, 0, 0, 0)));
    let cron = CronSchedule::parse("10-30/10 * * * *").unwrap();
    assert!(cron.accepts(&at(2024, 1, 1, 0, 10, 0)));
    assert!(cron.accepts(&at(2024, 1, 1, 0, 30, 0)));
    assert!(!cron.accepts(&at(2024, 1, 1, 0, 40, 0)));
    // A step beyond the range leaves the first value only.
    let cron = CronSchedule::parse("*/99999999999 * * * *").unwrap();
    assert!(cron.accepts(&at(2024, 1, 1, 0, 0, 0)));
    assert!(!cron.accepts(&at(2024, 1, 1, 0, 1, 0)));
}

#[test]
fn cron_reads_seven_as_sunday() {
    let seven = CronSchedule::parse("0 0 * * 7").unwrap();
    let zero = CronSchedule::parse("0 0 * * 0").unwrap();
    // 7 January 2024 is a Sunday, 8 January a Monday.
    assert!(seven.accepts(&at(2024, 1, 7, 0, 0, 0)));
    assert!(zero.accepts(&at(2024, 1, 7, 0, 0, 0)));
    assert!(!seven.accepts(&at(2024, 1, 8, 0, 0, 0)));
}

#[test]
fn cron_day_of_month_and_day_of_week_must_both_match() {
    let cron = CronSchedule::parse("0 0 13 * 5").unwrap();
    // 13 September 2024 is a Friday; 13 October 2024 is a Sunday.
    assert!(cron.accepts(&at(2024, 9, 13, 0, 0, 0)));
    assert!(!cron.accepts(&at(2024, 10, 13, 0, 0, 0)));
    assert!(!cron.accepts(&at(2024, 9, 20, 0, 0, 0)));
}

#[test]
fn cron_fields_may_be_separated_by_any_white_space() {
    assert!(CronSchedule::parse("  0\t9  *   * \t 1 ").is_ok());
}

#[test]
fn next_after_finds_the_first_later_match() {
    let cron = CronSchedule::parse("15,45 6 * * *").unwrap();
    assert_eq!(cron.next_after(&at(2024, 2, 28, 6, 15, 0)), Some(at(2024, 2, 28, 6, 45, 0)));
    assert_eq!(cron.next_after(&at(2024, 2, 28, 6, 45, 0)), Some(at(2024, 2, 29, 6, 15, 0)));
    assert_eq!(cron.next_after(&at(2023, 2, 28, 23, 0, 0)), Some(at(2023, 3, 1, 6, 15, 0)));
    assert_eq!(cron.next_after(&at(2023, 12, 31, 6, 45, 0)), Some(at(2024, 1, 1, 6, 15, 0)));
    assert_eq!(cron.next_after(&at(9999, 12, 31, 6, 45, 0)), None);
    assert_eq!(cron.next_after(&at(9999, 12, 31, 6, 44, 59)), Some(at(9999, 12, 31, 6, 45, 0)));
}

#[test]
fn next_after_with_seconds() {
    let cron = CronSchedule::parse("10,50 30 12 * * *").unwrap();
    assert_eq!(cron.next_after(&at(2024, 1, 1, 12, 30, 10)), Some(at(2024, 1, 1, 12, 30, 50)));
    assert_eq!(cron.next_after(&at(2024, 1, 1, 12, 30, 50)), Some(at(2024, 1, 2, 12, 30, 10)));
    assert_eq!(cron.next_after(&at(2024, 1, 1, 12, 29, 59)), Some(at(2024, 1, 1, 12, 30, 10)));
}

#[test]
fn day_of_week_agrees_with_known_dates() {
    // 1 January 1970 was a Thursday, 29 February 2024 a Thursday, 1 January 2000 a Saturday.
    assert_eq!(CivilDate { year: 1970, month: 1, day: 1 }.day_of_week(), 4);
    assert_eq!(CivilDate { year: 2024, month: 2, day: 29 }.day_of_week(), 4);
    assert_eq!(CivilDate { year: 2000, month: 1, day: 1 }.day_of_week(), 6);
    assert_eq!(CivilDate { year: 2024, month: 1, day: 7 }.day_of_week(), 0);
}

#[test]
fn day_of_week_agrees_with_the_time_zone_library() {
    let mut date = CivilDate { year: -9999, month: 1, day: 1 };
    let mut steps = 0;
    loop {
        let theirs = jiff::civil::Date::new(date.year, date.month, date.day).unwrap();
        assert_eq!(date.day_of_week() as i8, theirs.weekday().to_sunday_zero_offset());
        assert!(date.is_valid());
        // Walk in strides of 97 days so that the whole calendar is covered quickly.
        let mut next = Some(date);
        for _ in 0..97 {
            next = match next {
                Some(d) => d.next(),
                None => None,
            };
        }
        match next {
            Some(d) => date = d,
            None => break,
        }
        steps += 1;
    }
    assert!(steps > 70000);
}

#[test]
fn dates_outside_the_calendar_are_invalid() {
    assert!(!CivilDate { year: 2023, month: 2, day: 29 }.is_valid());
    assert!(CivilDate { year: 2024, month: 2, day: 29 }.is_valid());
    assert!(!CivilDate { year: 1900, month: 2, day: 29 }.is_valid());
    assert!(CivilDate { year: 2000, month: 2, day: 29 }.is_valid());
    assert!(!CivilDate { year: 2024, month: 4, day: 31 }.is_valid());
    assert!(!CivilDate { year: 2024, month: 13, day: 1 }.is_valid());
    assert!(!CivilDate { year: 2024, month: 0, day: 1 }.is_valid());
    assert!(!CivilDate { year: 10000, month: 1, day: 1 }.is_valid());
    assert!(!at(2024, 1, 1, 24, 0, 0).is_valid());
    assert!(!at(2024, 1, 1, 0, 60, 0).is_valid());
    assert!(!at(2024, 1, 1, 0, 0, -1).is_valid());
    assert_eq!(CivilDate { year: 9999, month: 12, day: 31 }.next(), None);
    assert_eq!(
        CivilDate { year: 2024, month: 12, day: 31 }.next(),
        Some(CivilDate { year: 2025, month: 1, day: 1 })
    );
}

#[test]
fn first_trigger_takes_the_first_civil_time_that_names_a_later_instant() {
    let cron = CronSchedule::parse("*/10 * * * *").unwrap();
    let shown = at(2024, 1, 1, 0, 0, 0);
    // 00:10 and 00:20 name instants that are not after now; 00:30 names a later one.
    let clock = |c: CivilTime| Some(if c.minute < 30 { 1000 } else { 1000 + c.minute as i64 });
    assert_eq!(first_trigger(&cron, &shown, 1000, clock), Ok(1030));
    // Seen from 00:30 the next is 00:40.
    assert_eq!(first_trigger(&cron, &at(2024, 1, 1, 0, 30, 0), 1000, clock), Ok(1040));
    // With a later now, only the next hour's 00 names a later instant.
    let clock = |c: CivilTime| Some(c.hour as i64 * 100 + c.minute as i64);
    assert_eq!(first_trigger(&cron, &shown, 50, clock), Ok(100));
    assert_eq!(first_trigger(&cron, &shown, 49, clock), Ok(50));
}

#[test]
fn first_trigger_fails_where_a_civil_time_names_no_instant() {
    let cron = CronSchedule::parse("*/10 * * * *").unwrap();
    let shown = at(2024, 1, 1, 0, 0, 0);
    assert_eq!(first_trigger(&cron, &shown, 0, |_| None), Err(ScheduleError::NoOccurrence));
    let clock = |c: CivilTime| if c.minute == 20 { None } else { Some(-1) };
    assert_eq!(first_trigger(&cron, &shown, 0, clock), Err(ScheduleError::NoOccurrence));
}

#[test]
fn first_trigger_fails_when_the_calendar_ends() {
    let cron = CronSchedule::parse("0 0 * * *").unwrap();
    let shown = at(9999, 12, 30, 12, 0, 0);
    // The last midnight names an instant that has passed, and none follows.
    assert_eq!(first_trigger(&cron, &shown, 7, |_| Some(7)), Err(ScheduleError::NoOccurrence));
    assert_eq!(first_trigger(&cron, &shown, 7, |_| Some(8)), Ok(8));
}

#[test]
fn civil_times_that_do_not_exist_are_never_matched() {
    let cron = CronSchedule::parse("* * * * * *").unwrap();
    assert!(cron.accepts(&at(2024, 2, 29, 23, 59, 59)));
    assert!(!cron.accepts(&at(2023, 2, 29, 0, 0, 0)));
    assert!(!cron.accepts(&at(2024, 1, 1, -1, 0, 0)));
    assert!(!cron.accepts(&at(2024, 1, 1, 0, 0, 60)));
    assert!(!cron.accepts(&at(2024, 0, 1, 0, 0, 0)));
    assert!(!cron.accepts(&at(i16::MIN, i8::MIN, i8::MIN, i8::MIN, i8::MIN, i8::MIN)));
    assert_eq!(cron.next_after(&at(2023, 2, 29, 0, 0, 0)), None);
    assert_eq!(cron.next_after(&at(2024, 1, 1, 0, 127, 0)), None);
    assert_eq!(
        first_trigger(&cron, &at(2024, 13, 1, 0, 0, 0), 0, |_| Some(1)),
        Err(ScheduleError::NoOccurrence)
    );
}

#[test]
fn dates_that_do_not_exist_have_no_successor() {
    assert_eq!(CivilDate { year: 2023, month: 2, day: 29 }.next(), None);
    assert_eq!(CivilDate { year: 2024, month: 0, day: 1 }.next(), None);
    assert_eq!(CivilDate { year: i16::MAX, month: i8::MAX, day: i8::MAX }.next(), None);
    // The day of the week of such a date is some number below 7.
    assert!(CivilDate { year: i16::MIN, month: i8::MIN, day: i8::MIN }.day_of_week() < 7);
    assert!(CivilDate { year: i16::MAX, month: i8::MAX, day: i8::MAX }.day_of_week() < 7);
}
