use buisson::schedule::{days_from_level, good_until, Date, LessonStatus, MAX_DAY, MAX_LEVEL, MIN_DAY};
use chrono::{Datelike, Days, NaiveDate};

fn day(days: i32) -> Date {
    Date::from_days(days).unwrap()
}

fn day_of(year: i32, month: u32, day_of_month: u32) -> Date {
    day(NaiveDate::from_ymd_opt(year, month, day_of_month).unwrap().num_days_from_ce())
}

#[test]
fn intervals_of_the_first_levels() {
    assert_eq!(days_from_level(0), 1);
    assert_eq!(days_from_level(1), 5);
    assert_eq!(days_from_level(2), 15);
}

#[test]
fn intervals_double_after_the_third_level() {
    assert_eq!(days_from_level(3), 30);
    assert_eq!(days_from_level(4), 60);
    assert_eq!(days_from_level(10), 15 * 256);
    let mut level: u32 = 3;
    while level <= MAX_LEVEL {
        assert_eq!(days_from_level(level), 2 * days_from_level(level - 1));
        level += 1;
    }
}

#[test]
fn interval_of_the_highest_level() {
    assert_eq!(days_from_level(MAX_LEVEL), 15 * (1u64 << 60));
}

#[test]
fn calendar_limits_are_those_of_chrono() {
    assert_eq!(NaiveDate::MIN.num_days_from_ce(), MIN_DAY);
    assert_eq!(NaiveDate::MAX.num_days_from_ce(), MAX_DAY);
    assert!(NaiveDate::from_num_days_from_ce_opt(MIN_DAY).is_some());
    assert!(NaiveDate::from_num_days_from_ce_opt(MIN_DAY - 1).is_none());
    assert!(NaiveDate::from_num_days_from_ce_opt(MAX_DAY).is_some());
    assert!(NaiveDate::from_num_days_from_ce_opt(MAX_DAY + 1).is_none());
}

#[test]
fn dates_lie_in_the_calendar() {
    assert_eq!(Date::from_days(MIN_DAY).unwrap().days(), MIN_DAY);
    assert_eq!(Date::from_days(MAX_DAY).unwrap().days(), MAX_DAY);
    assert_eq!(Date::from_days(0).unwrap().days(), 0);
    assert_eq!(Date::from_days(MIN_DAY - 1), None);
    assert_eq!(Date::from_days(MAX_DAY + 1), None);
    assert_eq!(Date::from_days(i32::MAX), None);
    assert_eq!(Date::from_days(i32::MIN), None);
}

#[test]
fn good_until_adds_the_interval() {
    let practiced = day_of(2024, 2, 20);
    assert_eq!(good_until(0, practiced), Some(day_of(2024, 2, 21)));
    assert_eq!(good_until(1, practiced), Some(day_of(2024, 2, 25)));
    assert_eq!(good_until(2, practiced), Some(day_of(2024, 3, 6)));
    assert_eq!(good_until(3, practiced), Some(day_of(2024, 3, 21)));
    assert_eq!(good_until(4, day(738_000)), Some(day(738_060)));
}

#[test]
fn good_until_agrees_with_chrono() {
    let start = NaiveDate::from_ymd_opt(2022, 7, 31).unwrap();
    let mut level: u32 = 0;
    while level < 20 {
        let expected = start
            .checked_add_days(Days::new(days_from_level(level)))
            .map(|date| day(date.num_days_from_ce()));
        assert_eq!(good_until(level, day(start.num_days_from_ce())), expected);
        level += 1;
    }
}

#[test]
fn good_until_ends_with_the_calendar() {
    assert_eq!(good_until(0, day(MAX_DAY - 1)), Some(day(MAX_DAY)));
    assert_eq!(good_until(0, day(MAX_DAY)), None);
    assert_eq!(good_until(1, day(MAX_DAY - 5)), Some(day(MAX_DAY)));
    assert_eq!(good_until(1, day(MAX_DAY - 4)), None);
    assert_eq!(good_until(0, day(MIN_DAY)), Some(day(MIN_DAY + 1)));
    assert_eq!(good_until(30, day(0)), None);
    assert_eq!(good_until(MAX_LEVEL, day(0)), None);
    assert_eq!(good_until(MAX_LEVEL + 1, day(0)), None);
    assert_eq!(good_until(u32::MAX, day(MIN_DAY)), None);
}

#[test]
fn a_lesson_never_practiced_needs_work() {
    assert!(LessonStatus::NotPracticed.needs_work(day(MIN_DAY)));
    assert!(LessonStatus::NotPracticed.needs_work(day(739_000)));
    assert!(LessonStatus::NotPracticed.needs_work(day(MAX_DAY)));
}

#[test]
fn a_lesson_good_enough_needs_no_work() {
    assert!(!LessonStatus::GoodEnough.needs_work(day(MIN_DAY)));
    assert!(!LessonStatus::GoodEnough.needs_work(day(739_000)));
    assert!(!LessonStatus::GoodEnough.needs_work(day(MAX_DAY)));
}

#[test]
fn level_zero_is_due_the_next_day() {
    let status = LessonStatus::Practiced { level: 0, date: day(739_000) };
    assert!(!status.needs_work(day(738_000)));
    assert!(!status.needs_work(day(738_999)));
    assert!(!status.needs_work(day(739_000)));
    assert!(status.needs_work(day(739_001)));
    assert!(status.needs_work(day(739_002)));
    assert!(status.needs_work(day(MAX_DAY)));
}

#[test]
fn level_two_is_due_after_fifteen_days() {
    let status = LessonStatus::Practiced { level: 2, date: day(739_000) };
    assert!(!status.needs_work(day(739_000)));
    assert!(!status.needs_work(day(739_014)));
    assert!(status.needs_work(day(739_015)));
    assert!(status.needs_work(day(739_016)));
}

#[test]
fn level_one_is_due_after_five_days() {
    let status = LessonStatus::Practiced { level: 1, date: day(739_000) };
    assert!(!status.needs_work(day(739_004)));
    assert!(status.needs_work(day(739_005)));
}

#[test]
fn a_lesson_due_beyond_the_calendar_is_never_due() {
    let status = LessonStatus::Practiced { level: 40, date: day(739_000) };
    assert!(!status.needs_work(day(MAX_DAY)));
    let status = LessonStatus::Practiced { level: u32::MAX, date: day(MIN_DAY) };
    assert!(!status.needs_work(day(MAX_DAY)));
    let status = LessonStatus::Practiced { level: 0, date: day(MAX_DAY) };
    assert!(!status.needs_work(day(MAX_DAY)));
}

#[test]
fn once_due_a_lesson_stays_due() {
    let status = LessonStatus::Practiced { level: 3, date: day(100) };
    let mut today: i32 = 100;
    let mut was_due = false;
    while today < 200 {
        let due = status.needs_work(day(today));
        assert!(due || !was_due);
        assert_eq!(due, today >= 130);
        was_due = due;
        today += 1;
    }
}

#[test]
fn the_default_status_is_not_practiced() {
    assert_eq!(LessonStatus::default(), LessonStatus::NotPracticed);
}
