use buisson::compat;
use buisson::lesson::LessonInfo;
use buisson::schedule::{Date, LessonStatus, MAX_DAY};

fn day(days: i32) -> Date {
    Date::from_days(days).unwrap()
}

fn lesson(status: LessonStatus) -> LessonInfo {
    LessonInfo {
        name: String::from("Fractions"),
        direct_prerequisites: vec![4, 2],
        status,
        tags: vec![String::from("maths")],
    }
}

#[test]
fn a_lesson_never_practiced_keeps_its_status() {
    let output = compat::lesson_v1_to_v2(lesson(LessonStatus::NotPracticed)).unwrap();
    assert_eq!(output.name, "Fractions");
    assert_eq!(output.direct_prerequisites, vec![4, 2]);
    assert_eq!(output.status, compat::LessonStatus::NotPracticed);
    assert_eq!(output.tags, Vec::<String>::new());
}

#[test]
fn a_lesson_good_enough_keeps_its_status() {
    let output = compat::lesson_v1_to_v2(lesson(LessonStatus::GoodEnough)).unwrap();
    assert_eq!(output.status, compat::LessonStatus::GoodEnough);
}

#[test]
fn a_practiced_lesson_gets_the_date_until_which_it_is_good() {
    let output =
        compat::lesson_v1_to_v2(lesson(LessonStatus::Practiced { level: 3, date: day(739_000) }))
            .unwrap();
    assert_eq!(
        output,
        compat::LessonInfo {
            name: String::from("Fractions"),
            direct_prerequisites: vec![4, 2],
            status: compat::LessonStatus::Practiced {
                level: 3,
                last_practiced: day(739_000),
                good_until: day(739_030),
            },
            tags: vec![],
        }
    );
}

#[test]
fn a_lesson_good_until_beyond_the_calendar_has_no_later_form() {
    assert_eq!(
        compat::lesson_v1_to_v2(lesson(LessonStatus::Practiced { level: 0, date: day(MAX_DAY) })),
        None
    );
    assert_eq!(
        compat::lesson_v1_to_v2(lesson(LessonStatus::Practiced { level: 63, date: day(0) })),
        None
    );
    assert!(
        compat::lesson_v1_to_v2(lesson(LessonStatus::Practiced { level: 0, date: day(MAX_DAY - 1) }))
            .is_some()
    );
}

#[test]
fn the_default_later_status_is_not_practiced() {
    assert_eq!(compat::LessonStatus::default(), compat::LessonStatus::NotPracticed);
}
