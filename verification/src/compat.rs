//! The later layout of the stored lessons, in which a practiced lesson
//! carries the date until which it is good, and the passage to it.

use crate::lesson::Id;
use crate::schedule::{due_day, good_until, Date, MAX_DAY};
use std::collections::HashMap;
use vstd::prelude::*;

verus! {

/// How far a lesson has been practiced, in the later layout.
#[derive(Clone, Copy, Debug, PartialEq, Eq)]
pub enum LessonStatus {
    /// The lesson has never been practiced.
    NotPracticed,
    /// The lesson counts as acquired and is not scheduled.
    GoodEnough,
    /// The lesson was last practiced on `last_practiced`, to the level
    /// `level`, and is good until `good_until`.
    Practiced { level: u32, last_practiced: Date, good_until: Date },
}

impl Default for LessonStatus {
    fn default() -> (status: LessonStatus)
        ensures
            status == LessonStatus::NotPracticed,
    {
        LessonStatus::NotPracticed
    }
}

/// What is known of a lesson, in the later layout.
#[derive(Debug, PartialEq, Eq)]
pub struct LessonInfo {
    pub name: String,
    /// The lessons that this one requires, by identifier.
    pub direct_prerequisites: Vec<Id>,
    pub status: LessonStatus,
    pub tags: Vec<String>,
}

/// A store of lessons in the later layout.
pub trait IOBackend {
    type Error: std::fmt::Debug;

    /// Every lesson of the store.
    fn query_lessons(&self) -> Result<HashMap<Id, LessonInfo>, Self::Error>;

    /// Stores the new lesson `lesson` under `id`.
    fn add_new_lesson(&self, id: Id, lesson: &LessonInfo) -> Result<(), Self::Error>;

    /// Replaces the lesson stored under `id` by `lesson`.
    fn update_existing_lesson(&self, id: Id, lesson: &LessonInfo) -> Result<(), Self::Error>;

    /// Removes the lesson stored under `id`.
    fn remove_lesson(&self, id: Id) -> Result<(), Self::Error>;
}

/// The practice status `status` in the later layout, where it has one.
pub open spec fn upgraded(status: crate::schedule::LessonStatus) -> Option<LessonStatus> {
    match status {
        crate::schedule::LessonStatus::NotPracticed => Some(LessonStatus::NotPracticed),
        crate::schedule::LessonStatus::GoodEnough => Some(LessonStatus::GoodEnough),
        crate::schedule::LessonStatus::Practiced { level, date } => if due_day(level, date)
            <= MAX_DAY {
            Some(
                LessonStatus::Practiced {
                    level,
                    last_practiced: date,
                    good_until: Date::on_day(due_day(level, date)),
                },
            )
        } else {
            None
        },
    }
}

/// The lesson `input_lesson` in the later layout: the same name and
/// prerequisites, no tags, and for a practiced lesson the date until which
/// it is good beside the date of its last practice. `None` where that date
/// lies beyond the calendar.
pub fn lesson_v1_to_v2(input_lesson: crate::lesson::LessonInfo) -> (output: Option<LessonInfo>)
    ensures
        output is Some <==> upgraded(input_lesson.status) is Some,
        output matches Some(lesson) ==> {
            &&& lesson.name@ == input_lesson.name@
            &&& lesson.direct_prerequisites@ == input_lesson.direct_prerequisites@
            &&& Some(lesson.status) == upgraded(input_lesson.status)
            &&& lesson.tags@.len() == 0
        },
{
    let new_status = match input_lesson.status {
        crate::schedule::LessonStatus::NotPracticed => LessonStatus::NotPracticed,
        crate::schedule::LessonStatus::GoodEnough => LessonStatus::GoodEnough,
        crate::schedule::LessonStatus::Practiced { level, date } => {
            match good_until(level, date) {
                Some(good_until) => {
                    proof {
                        Date::lemma_on_day(due_day(level, date));
                        good_until.lemma_same_day(Date::on_day(due_day(level, date)));
                    }
                    LessonStatus::Practiced { level, last_practiced: date, good_until }
                },
                None => {
                    return None;
                },
            }
        },
    };
    Some(
        LessonInfo {
            name: input_lesson.name,
            direct_prerequisites: input_lesson.direct_prerequisites,
            status: new_status,
            tags: Vec::new(),
        },
    )
}

} // verus!
