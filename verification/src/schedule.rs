//! When the configured work period is in force.
use vstd::prelude::*;
use vstd::string::*;
use crate::clock::{
    hour_minute_fields, hour_minute_seconds, parse_time, time_format_message, LocalDateTime,
    TimeOfDay,
};

verus! {

/// The texts of a list of strings.
pub open spec fn texts(list: Seq<String>) -> Seq<Seq<char>> {
    list.map_values(|s: String| s@)
}

/// Whether `t` falls in the daily work hours from `start` (included) to `end`
/// (excluded). Where `end` comes before `start` the hours run across midnight.
pub open spec fn in_work_hours(start: TimeOfDay, end: TimeOfDay, t: TimeOfDay) -> bool {
    if !end.before(start) {
        !t.before(start) && t.before(end)
    } else {
        !t.before(start) || t.before(end)
    }
}

/// Monday (0) to Friday (4).
pub open spec fn is_monday_to_friday(weekday: int) -> bool {
    0 <= weekday < 5
}

/// The days and hours of work: dates listed as work days or as rest days
/// (written `YYYY-MM-DD`) and the daily start and end of work.
pub struct WorkSchedule {
    pub work_days: Vec<String>,
    pub rest_days: Vec<String>,
    pub work_start: TimeOfDay,
    pub work_end: TimeOfDay,
}

impl WorkSchedule {
    /// Whether `t` falls in the daily work hours of this schedule.
    pub open spec fn hours_contain(self, t: TimeOfDay) -> bool {
        in_work_hours(self.work_start, self.work_end, t)
    }

    /// Whether the moment `now` is work time: on a date listed as a work day, when
    /// its time falls in the work hours; on a date listed (only) as a rest day,
    /// never; on other dates, from Monday to Friday in the work hours.
    pub open spec fn work_time_at(self, now: LocalDateTime) -> bool {
        let date = now.date_text();
        if texts(self.work_days@).contains(date) {
            self.hours_contain(now.time())
        } else if texts(self.rest_days@).contains(date) {
            false
        } else {
            is_monday_to_friday(now.weekday()) && self.hours_contain(now.time())
        }
    }

    /// Makes a schedule from its lists of dates and its start and end of work.
    pub fn new(
        work_days: Vec<String>,
        rest_days: Vec<String>,
        work_start: TimeOfDay,
        work_end: TimeOfDay,
    ) -> (r: WorkSchedule)
        ensures
            r.work_days@ == work_days@,
            r.rest_days@ == rest_days@,
            r.work_start == work_start,
            r.work_end == work_end,
    {
        WorkSchedule { work_days, rest_days, work_start, work_end }
    }

    /// Whether `t` falls in the daily work hours of this schedule.
    pub fn is_within_work_hours(&self, t: &TimeOfDay) -> (r: bool)
        ensures
            r == self.hours_contain(*t),
    {
        if !self.work_end.is_before(&self.work_start) {
            !t.is_before(&self.work_start) && t.is_before(&self.work_end)
        } else {
            !t.is_before(&self.work_start) || t.is_before(&self.work_end)
        }
    }
}

/// The message that reports a start or end of work in a bad format.
pub open spec fn field_message(field: Seq<char>, text: Seq<char>) -> Seq<char> {
    field + " "@ + time_format_message(text)
}

/// Prefixes the name of the configuration field to a message.
fn field_error(field: &str, message: String) -> (r: String)
    ensures
        r@ == field@ + " "@ + message@,
{
    let mut out = String::from_str(field);
    out.append(" ");
    out.append(message.as_str());
    out
}

impl WorkSchedule {
    /// Makes a schedule from the configuration: the lists of dates and the start and
    /// end of work written `HH:MM`. The start is read first; a text that is not a
    /// time gives the message of `parse_time`, behind the name of its field.
    pub fn from_config(
        work_days: Vec<String>,
        rest_days: Vec<String>,
        work_start_time: &str,
        work_end_time: &str,
    ) -> (r: Result<WorkSchedule, String>)
        ensures
            hour_minute_fields(work_start_time@) is None ==> r is Err && r->Err_0@
                == field_message("work_start_time"@, work_start_time@),
            hour_minute_fields(work_start_time@) is Some && hour_minute_fields(work_end_time@) is None
                ==> r is Err && r->Err_0@ == field_message("work_end_time"@, work_end_time@),
            (hour_minute_fields(work_start_time@) is Some && hour_minute_fields(work_end_time@) is Some)
                ==> r is Ok && r->Ok_0.work_days@ == work_days@ && r->Ok_0.rest_days@
                == rest_days@ && r->Ok_0.work_start.seconds() == hour_minute_seconds(
                work_start_time@,
            ) && r->Ok_0.work_start.fraction() == 0 && r->Ok_0.work_end.seconds()
                == hour_minute_seconds(work_end_time@) && r->Ok_0.work_end.fraction() == 0,
    {
        let work_start = match parse_time(work_start_time) {
            Ok(t) => t,
            Err(e) => {
                return Err(field_error("work_start_time", e));
            },
        };
        let work_end = match parse_time(work_end_time) {
            Ok(t) => t,
            Err(e) => {
                return Err(field_error("work_end_time", e));
            },
        };
        Ok(WorkSchedule { work_days, rest_days, work_start, work_end })
    }
}

/// Whether one of the texts of `list` is `date`.
fn lists_date(list: &Vec<String>, date: &String) -> (r: bool)
    ensures
        r == texts(list@).contains(date@),
{
    let n = list.len();
    let mut i: usize = 0;
    while i < n
        invariant
            n == list@.len(),
            i <= n,
            forall|j: int| 0 <= j < i ==> list@[j]@ != date@,
        decreases n - i,
    {
        if list[i] == *date {
            assert(texts(list@)[i as int] == date@);
            return true;
        }
        i = i + 1;
    }
    assert forall|k: int| 0 <= k < texts(list@).len() implies texts(list@)[k] != date@ by {
        assert(texts(list@)[k] == list@[k]@);
    }
    false
}

/// Whether the moment `now` is work time under `schedule` (see
/// `WorkSchedule::work_time_at`).
pub fn is_work_time_at(schedule: &WorkSchedule, now: &LocalDateTime) -> (r: bool)
    ensures
        r == schedule.work_time_at(*now),
{
    let current_time = now.time_of_day();
    let in_time_range = schedule.is_within_work_hours(&current_time);
    let current_date = now.date_string();
    if lists_date(&schedule.work_days, &current_date) {
        return in_time_range;
    }
    if lists_date(&schedule.rest_days, &current_date) {
        return false;
    }
    let weekday = now.weekday_from_monday();
    let is_weekday = weekday < 5;
    is_weekday && in_time_range
}


/// A date listed as a work day is work time exactly within the work hours, whatever
/// its day of the week and even when it is listed as a rest day too.
pub proof fn lemma_listed_work_day_follows_hours(schedule: WorkSchedule, now: LocalDateTime)
    requires
        texts(schedule.work_days@).contains(now.date_text()),
    ensures
        schedule.work_time_at(now) == schedule.hours_contain(now.time()),
{
}

/// A date listed as a rest day, and not as a work day, is never work time.
pub proof fn lemma_listed_rest_day_is_never_work(schedule: WorkSchedule, now: LocalDateTime)
    requires
        texts(schedule.rest_days@).contains(now.date_text()),
        !texts(schedule.work_days@).contains(now.date_text()),
    ensures
        !schedule.work_time_at(now),
{
}

/// An unlisted Saturday or Sunday is never work time.
pub proof fn lemma_unlisted_weekend_is_never_work(schedule: WorkSchedule, now: LocalDateTime)
    requires
        !texts(schedule.work_days@).contains(now.date_text()),
        !texts(schedule.rest_days@).contains(now.date_text()),
        now.weekday() >= 5,
    ensures
        !schedule.work_time_at(now),
{
}

/// An unlisted day from Monday to Friday is work time exactly within the work hours.
pub proof fn lemma_unlisted_weekday_follows_hours(schedule: WorkSchedule, now: LocalDateTime)
    requires
        !texts(schedule.work_days@).contains(now.date_text()),
        !texts(schedule.rest_days@).contains(now.date_text()),
        0 <= now.weekday() < 5,
    ensures
        schedule.work_time_at(now) == schedule.hours_contain(now.time()),
{
}

/// Work time never falls outside the work hours.
pub proof fn lemma_work_time_is_within_hours(schedule: WorkSchedule, now: LocalDateTime)
    requires
        schedule.work_time_at(now),
    ensures
        schedule.hours_contain(now.time()),
{
}

/// Work hours whose end comes before their start run across midnight: they hold
/// every time of day except those from the end (included) to the start (excluded).
pub proof fn lemma_night_hours_are_complement(start: TimeOfDay, end: TimeOfDay, t: TimeOfDay)
    requires
        end.before(start),
    ensures
        in_work_hours(start, end, t) == !(!t.before(end) && t.before(start)),
{
}

/// Work hours that end at their start hold no time of day.
pub proof fn lemma_equal_bounds_hold_nothing(start: TimeOfDay, t: TimeOfDay)
    ensures
        !in_work_hours(start, start, t),
{
}

/// Work hours whose end does not come before their start hold the times from the
/// start (included) to the end (excluded), within one day.
pub proof fn lemma_day_hours_are_interval(start: TimeOfDay, end: TimeOfDay, t: TimeOfDay)
    requires
        !end.before(start),
    ensures
        in_work_hours(start, end, t) == (!t.before(start) && t.before(end)),
{
}

/// The texts of a list are the texts of its strings, one for one and in order.
pub proof fn lemma_texts_of_list(list: Seq<String>)
    ensures
        texts(list).len() == list.len(),
        forall|i: int| 0 <= i < list.len() ==> #[trigger] texts(list)[i] == list[i]@,
{
}

/// A date equal to any string of the rest days, and to none of the work days, is
/// never work time, wherever it stands in the list.
pub proof fn lemma_rest_day_anywhere_in_list(schedule: WorkSchedule, now: LocalDateTime, i: int)
    requires
        0 <= i < schedule.rest_days@.len(),
        schedule.rest_days@[i]@ == now.date_text(),
        forall|j: int| 0 <= j < schedule.work_days@.len() ==> #[trigger] schedule.work_days@[j]@
            != now.date_text(),
    ensures
        !schedule.work_time_at(now),
{
    lemma_texts_of_list(schedule.rest_days@);
    lemma_texts_of_list(schedule.work_days@);
    assert(texts(schedule.rest_days@)[i] == now.date_text());
    assert(!texts(schedule.work_days@).contains(now.date_text())) by {
        if texts(schedule.work_days@).contains(now.date_text()) {
            let k = choose|k: int|
                0 <= k < texts(schedule.work_days@).len() && texts(schedule.work_days@)[k]
                    == now.date_text();
            assert(schedule.work_days@[k]@ == now.date_text());
        }
    }
}

/// A date equal to any string of the work days is work time exactly within the work
/// hours, wherever it stands in the list and whatever the rest days are.
pub proof fn lemma_work_day_anywhere_in_list(schedule: WorkSchedule, now: LocalDateTime, i: int)
    requires
        0 <= i < schedule.work_days@.len(),
        schedule.work_days@[i]@ == now.date_text(),
    ensures
        schedule.work_time_at(now) == schedule.hours_contain(now.time()),
{
    lemma_texts_of_list(schedule.work_days@);
    assert(texts(schedule.work_days@)[i] == now.date_text());
}

/// The work hours, in seconds and fractions: where the end does not come before the
/// start, the times from the start (included) to the end (excluded); otherwise, across
/// midnight, the times from the start on or before the end.
pub proof fn lemma_hours_by_seconds_and_fraction(schedule: WorkSchedule, t: TimeOfDay)
    ensures
        ({
            let (s, sf) = (schedule.work_start.seconds(), schedule.work_start.fraction());
            let (e, ef) = (schedule.work_end.seconds(), schedule.work_end.fraction());
            let (x, xf) = (t.seconds(), t.fraction());
            let from_start = x > s || (x == s && xf >= sf);
            let before_end = x < e || (x == e && xf < ef);
            let day_shift = e > s || (e == s && ef >= sf);
            schedule.hours_contain(t) == if day_shift {
                from_start && before_end
            } else {
                from_start || before_end
            }
        }),
{
}

} // verus!
