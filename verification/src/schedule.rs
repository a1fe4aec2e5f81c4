//! The scheduling policy: when a practiced lesson is due again.

use chrono::Datelike;
use vstd::arithmetic::power2::{lemma2_to64, lemma2_to64_rest, lemma_pow2_unfold, pow2};
use vstd::prelude::*;

verus! {

/// Day number of the earliest date of the calendar, January 1 of the year
/// -262143: the day number of `chrono::NaiveDate::MIN`.
pub const MIN_DAY: i32 = -95_746_129;

/// Day number of the latest date of the calendar, December 31 of the year
/// 262142: the day number of `chrono::NaiveDate::MAX`.
pub const MAX_DAY: i32 = 95_745_399;

/// The highest level whose interval fits in 64 bits.
pub const MAX_LEVEL: u32 = 62;

/// A calendar date, held as its day number in the proleptic Gregorian
/// calendar: January 1 of the year 1 is day 1.
#[derive(Clone, Copy, Debug, PartialEq, Eq, PartialOrd, Ord, Hash)]
pub struct Date {
    days: i32,
}

impl View for Date {
    type V = int;

    closed spec fn view(&self) -> int {
        self.days as int
    }
}

impl Date {
    #[verifier::type_invariant]
    spec fn in_calendar(self) -> bool {
        MIN_DAY <= self.days <= MAX_DAY
    }

    /// Whether the day number lies in the calendar. Every `Date` that
    /// executable code holds does.
    pub open spec fn valid(self) -> bool {
        MIN_DAY <= self@ <= MAX_DAY
    }

    /// The date with the day number `day`.
    pub closed spec fn on_day(day: int) -> Date {
        Date { days: day as i32 }
    }

    /// `on_day` gives the date of each day of the calendar.
    pub proof fn lemma_on_day(day: int)
        requires
            MIN_DAY <= day <= MAX_DAY,
        ensures
            Date::on_day(day)@ == day,
    {
    }

    /// The date with the given day number, if the calendar has one.
    pub fn from_days(days: i32) -> (date: Option<Date>)
        ensures
            date is Some <==> MIN_DAY <= days <= MAX_DAY,
            date matches Some(d) ==> d@ == days && d.valid(),
    {
        if MIN_DAY <= days && days <= MAX_DAY {
            Some(Date { days })
        } else {
            None
        }
    }

    /// The day number of the date.
    pub fn days(&self) -> (days: i32)
        ensures
            days == self@,
            self.valid(),
    {
        proof {
            use_type_invariant(self);
        }
        self.days
    }

    /// Two dates with the same day number are the same date.
    pub proof fn lemma_same_day(self, other: Date)
        requires
            self@ == other@,
        ensures
            self == other,
    {
    }
}

/// The number of days after which a lesson practiced to `level` is due again:
/// one, five and fifteen days for the first three levels, and twice the
/// previous interval for each level after them.
pub open spec fn interval(level: nat) -> nat
    decreases level,
{
    if level == 0 {
        1
    } else if level == 1 {
        5
    } else if level == 2 {
        15
    } else {
        2 * interval((level - 1) as nat)
    }
}

/// From the third level on, the interval is fifteen days times a power of two.
pub proof fn lemma_interval_doubles(level: nat)
    requires
        level >= 2,
    ensures
        interval(level) == 15 * pow2((level - 2) as nat),
    decreases level,
{
    if level == 2 {
        assert(pow2(0) == 1) by {
            lemma2_to64();
        }
    } else {
        lemma_interval_doubles((level - 1) as nat);
        lemma_pow2_unfold((level - 2) as nat);
    }
}

/// The interval never shrinks as the level grows.
pub proof fn lemma_interval_monotonic(low: nat, high: nat)
    requires
        low <= high,
    ensures
        interval(low) <= interval(high),
    decreases high,
{
    if low < high {
        lemma_interval_monotonic(low, (high - 1) as nat);
        if high >= 3 {
            assert(interval(high) == 2 * interval((high - 1) as nat));
        }
    }
}

/// Up to `MAX_LEVEL` the interval fits in 64 bits; one level further it is
/// longer than the whole calendar.
pub proof fn lemma_interval_limits()
    ensures
        interval(MAX_LEVEL as nat) == 15 * 0x1000_0000_0000_0000,
        interval(MAX_LEVEL as nat + 1) == 30 * 0x1000_0000_0000_0000,
{
    lemma_interval_doubles(62);
    lemma_interval_doubles(63);
    lemma2_to64_rest();
    lemma_pow2_unfold(61);
}

/// The interval of `level`, in days.
pub fn days_from_level(level: u32) -> (days: u64)
    requires
        level <= MAX_LEVEL,
    ensures
        days == interval(level as nat),
    decreases level,
{
    if level == 0 {
        1
    } else if level == 1 {
        5
    } else if level == 2 {
        15
    } else {
        proof {
            lemma_interval_monotonic(level as nat, MAX_LEVEL as nat);
            lemma_interval_limits();
        }
        2 * days_from_level(level - 1)
    }
}

/// `chrono::NaiveDate::checked_add_days`, on day numbers:
/// `NaiveDate::from_num_days_from_ce_opt` makes the date of day `day`, and
/// `Datelike::num_days_from_ce` gives the day number of the result.
///
/// The contract claims that the date `days` days after day `day` has the
/// day number `day + days`, and that chrono returns it unless it lies after
/// `NaiveDate::MAX`, whose day number is `MAX_DAY`.
#[verifier::external_body]
fn chrono_add_days(day: i32, days: u64) -> (sum: Option<i32>)
    requires
        MIN_DAY <= day <= MAX_DAY,
    ensures
        sum == (if day + days <= MAX_DAY {
            Some((day + days) as i32)
        } else {
            None::<i32>
        }),
{
    chrono::NaiveDate::from_num_days_from_ce_opt(day)
        .and_then(|date| date.checked_add_days(chrono::Days::new(days)))
        .map(|date| date.num_days_from_ce())
}

/// The number of the day on which a lesson practiced on `date` to `level` is
/// due again, whether or not the calendar reaches that far.
pub open spec fn due_day(level: u32, date: Date) -> int {
    date@ + interval(level as nat)
}

/// The date until which a lesson practiced on `date` to `level` counts as
/// known. `None` when that date lies beyond the calendar.
pub fn good_until(level: u32, date: Date) -> (due: Option<Date>)
    ensures
        due is Some <==> due_day(level, date) <= MAX_DAY,
        due matches Some(d) ==> d@ == due_day(level, date) && d.valid(),
{
    proof {
        use_type_invariant(date);
    }
    if level > MAX_LEVEL {
        proof {
            lemma_interval_monotonic(MAX_LEVEL as nat + 1, level as nat);
            lemma_interval_limits();
        }
        return None;
    }
    let days: u64 = days_from_level(level);
    match chrono_add_days(date.days, days) {
        Some(day) => Some(Date { days: day }),
        None => None,
    }
}

/// How far a lesson has been practiced.
#[derive(Clone, Copy, Debug, PartialEq, Eq)]
pub enum LessonStatus {
    /// The lesson has never been practiced.
    NotPracticed,
    /// The lesson counts as acquired and is not scheduled.
    GoodEnough,
    /// The lesson was last practiced on `date`, to the level `level`.
    Practiced { level: u32, date: Date },
}

impl LessonStatus {
    /// Whether the lesson itself is due on `today`, whatever the state of
    /// its prerequisites.
    pub open spec fn is_due(self, today: Date) -> bool {
        match self {
            LessonStatus::NotPracticed => true,
            LessonStatus::GoodEnough => false,
            LessonStatus::Practiced { level, date } => today@ >= due_day(level, date),
        }
    }

    /// Whether every date that the status holds lies in the calendar.
    pub open spec fn valid(self) -> bool {
        self matches LessonStatus::Practiced { date, .. } ==> date.valid()
    }

    /// Whether the lesson needs work on `today`.
    pub fn needs_work(&self, today: Date) -> (due: bool)
        ensures
            due == self.is_due(today),
    {
        match self {
            LessonStatus::GoodEnough => false,
            LessonStatus::NotPracticed => true,
            LessonStatus::Practiced { level, date } => {
                proof {
                    use_type_invariant(today);
                }
                match good_until(*level, *date) {
                    Some(due) => today.days >= due.days,
                    None => false,
                }
            },
        }
    }
}

/// What a study session leaves of a lesson.
#[derive(Clone, Copy, Debug, PartialEq, Eq)]
pub enum StudyChoice {
    /// The lesson counts as acquired.
    GoodEnough,
    /// The lesson counts as never practiced.
    NotPracticed,
    /// The lesson was practiced to the level `level`.
    Practiced { level: u32 },
}

impl StudyChoice {
    /// The practice status that the choice gives a lesson studied on
    /// `today`.
    pub open spec fn status_on(self, today: Date) -> LessonStatus {
        match self {
            StudyChoice::GoodEnough => LessonStatus::GoodEnough,
            StudyChoice::NotPracticed => LessonStatus::NotPracticed,
            StudyChoice::Practiced { level } => LessonStatus::Practiced { level, date: today },
        }
    }

    /// The practice status that the choice gives a lesson studied on
    /// `today`.
    pub fn to_lesson_status(&self, today: Date) -> (status: LessonStatus)
        ensures
            status == self.status_on(today),
    {
        match self {
            StudyChoice::GoodEnough => LessonStatus::GoodEnough,
            StudyChoice::NotPracticed => LessonStatus::NotPracticed,
            StudyChoice::Practiced { level } => LessonStatus::Practiced {
                level: *level,
                date: today,
            },
        }
    }
}

impl Default for LessonStatus {
    fn default() -> (status: LessonStatus)
        ensures
            status == LessonStatus::NotPracticed,
    {
        LessonStatus::NotPracticed
    }
}

/// A lesson practiced on day `last` to level 0 is due from the next day on
/// and not before; one practiced to level 2 is due from the fifteenth day
/// after `last` on and not before.
pub proof fn law_scheduling_boundary(last: Date, today: Date)
    ensures
        (LessonStatus::Practiced { level: 0, date: last }).is_due(today) <==> today@ >= last@ + 1,
        (LessonStatus::Practiced { level: 1, date: last }).is_due(today) <==> today@ >= last@ + 5,
        (LessonStatus::Practiced { level: 2, date: last }).is_due(today) <==> today@ >= last@ + 15,
{
}

/// Once a lesson is due it stays due on every later day, and it is due on the
/// day `due_day` names and on no day before it.
pub proof fn law_due_from_due_day_on(status: LessonStatus, today: Date, later: Date)
    requires
        today@ <= later@,
    ensures
        status.is_due(today) ==> status.is_due(later),
        status matches LessonStatus::Practiced { level, date } ==> (status.is_due(today) <==> today@
            >= due_day(level, date)),
{
}

} // verus!
