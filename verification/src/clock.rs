//! Times of day and local calendar moments, with the parts that chrono computes
//! reached through small trusted wrappers.
use vstd::prelude::*;
use vstd::string::*;
use crate::text::{digit_value, digits_value, is_digit, is_white_space, run_end};
use chrono::Datelike;
use chrono::Timelike;

verus! {

/// Number of seconds in a day without a leap second.
pub const SECONDS_PER_DAY: u32 = 86400;

/// A time of day: whole seconds since midnight and a nanosecond fraction. The
/// fraction reaches one second or more only while a leap second is shown, that is
/// when the seconds end in `:59`. The order is that of the pair (seconds, fraction).
#[derive(Clone, Copy, Debug, PartialEq, Eq, Structural)]
pub struct TimeOfDay {
    secs: u32,
    frac: u32,
}

impl TimeOfDay {
    /// Whole seconds since midnight.
    pub closed spec fn seconds(self) -> nat {
        self.secs as nat
    }

    /// Nanoseconds past the whole second.
    pub closed spec fn fraction(self) -> nat {
        self.frac as nat
    }

    /// The values that a time of day can take.
    pub open spec fn wf(self) -> bool {
        &&& self.seconds() < SECONDS_PER_DAY
        &&& self.fraction() < 2_000_000_000
        &&& self.fraction() >= 1_000_000_000 ==> self.seconds() % 60 == 59
    }

    /// Times with the same seconds and the same fraction are the same time.
    pub proof fn lemma_same_parts_same_time(self, other: TimeOfDay)
        requires
            self.seconds() == other.seconds(),
            self.fraction() == other.fraction(),
        ensures
            self == other,
    {
    }

    /// `self` comes strictly before `other` within the day.
    pub open spec fn before(self, other: TimeOfDay) -> bool {
        ||| self.seconds() < other.seconds()
        ||| (self.seconds() == other.seconds() && self.fraction() < other.fraction())
    }

    /// Makes a time from seconds since midnight and a nanosecond fraction, or
    /// `None` where the pair is no time of day.
    pub fn from_seconds_and_nanos(secs: u32, frac: u32) -> (r: Option<TimeOfDay>)
        ensures
            r.is_some() <==> (secs < SECONDS_PER_DAY && frac < 2_000_000_000 && (frac
                >= 1_000_000_000 ==> secs % 60 == 59)),
            r matches Some(t) ==> t.seconds() == secs && t.fraction() == frac && t.wf(),
    {
        if secs < SECONDS_PER_DAY && frac < 2_000_000_000 && (frac < 1_000_000_000 || secs % 60
            == 59) {
            Some(TimeOfDay { secs, frac })
        } else {
            None
        }
    }

    /// Makes the time `hour:minute:00`, or `None` where the hour or the minute is out
    /// of range.
    pub fn from_hour_minute(hour: u32, minute: u32) -> (r: Option<TimeOfDay>)
        ensures
            r.is_some() <==> (hour < 24 && minute < 60),
            r matches Some(t) ==> t.seconds() == hour * 3600 + minute * 60 && t.fraction() == 0
                && t.wf(),
    {
        if hour < 24 && minute < 60 {
            Some(TimeOfDay { secs: hour * 3600 + minute * 60, frac: 0 })
        } else {
            None
        }
    }

    /// Whole seconds since midnight.
    pub fn seconds_from_midnight(&self) -> (r: u32)
        ensures
            r == self.seconds(),
    {
        self.secs
    }

    /// Nanoseconds past the whole second.
    pub fn nanosecond(&self) -> (r: u32)
        ensures
            r == self.fraction(),
    {
        self.frac
    }

    /// Whether `self` comes strictly before `other`.
    pub fn is_before(&self, other: &TimeOfDay) -> (r: bool)
        ensures
            r == self.before(*other),
    {
        self.secs < other.secs || (self.secs == other.secs && self.frac < other.frac)
    }
}

/// Number of ASCII digits, two at most, from position `i` of `t`.
pub open spec fn digits_at_most_two(t: Seq<char>, i: int) -> int {
    if 0 <= i < t.len() && is_digit(t[i]) {
        if i + 1 < t.len() && is_digit(t[i + 1]) {
            2
        } else {
            1
        }
    } else {
        0
    }
}

/// The hour and minute that chrono's `NaiveTime::parse_from_str` reads with the
/// format `"%H:%M"`: optional white space, an hour of one or two ASCII digits, a
/// colon, optional white space, a minute of one or two digits, and nothing more; the
/// hour below 24 and the minute below 60. `None` where chrono reports an error.
pub open spec fn hour_minute_fields(t: Seq<char>) -> Option<(nat, nat)> {
    let a = run_end(t, 0, t.len() as int, true);
    let b = a + digits_at_most_two(t, a);
    let c = run_end(t, b + 1, t.len() as int, true);
    let d = c + digits_at_most_two(t, c);
    let hour = digits_value(t.subrange(a, b));
    let minute = digits_value(t.subrange(c, d));
    if b > a && b < t.len() && t[b] == ':' && d > c && d == t.len() && hour < 24 && minute < 60 {
        Some((hour, minute))
    } else {
        None
    }
}

/// Seconds since midnight of the time that `hour_minute_fields` reads.
pub open spec fn hour_minute_seconds(t: Seq<char>) -> nat {
    let f = hour_minute_fields(t)->0;
    f.0 * 3600 + f.1 * 60
}

/// Calls chrono's `NaiveTime::parse_from_str(text, "%H:%M")` and converts the
/// `NaiveTime` it gives into a `TimeOfDay` (seconds since midnight and nanoseconds).
/// Trusted, as chrono's `parse_internal`, `scan::number`, `Parsed::set_hour`,
/// `Parsed::set_minute` and `Parsed::to_naive_time` show: a time exactly where
/// `hour_minute_fields` reads one, at that hour and minute with no seconds and no
/// fraction.
#[verifier::external_body]
fn chrono_parse_hour_minute(text: &str) -> (r: Option<TimeOfDay>)
    ensures
        r.is_some() == hour_minute_fields(text@).is_some(),
        r matches Some(t) ==> t.seconds() == hour_minute_seconds(text@) && t.fraction() == 0,
{
    match chrono::NaiveTime::parse_from_str(text, "%H:%M") {
        Ok(t) => Some(TimeOfDay { secs: t.num_seconds_from_midnight(), frac: t.nanosecond() }),
        Err(_) => None,
    }
}

/// The message that reports a time that is not in the `HH:MM` format.
pub open spec fn time_format_message(text: Seq<char>) -> Seq<char> {
    "时间格式错误: '"@ + text + "' (应为 HH:MM 格式)"@
}

/// Turns the outcome of parsing `text` into the time, or into the message that
/// reports the bad format.
pub fn time_or_message(parsed: Option<TimeOfDay>, text: &str) -> (r: Result<TimeOfDay, String>)
    ensures
        match parsed {
            Some(t) => r == Ok::<TimeOfDay, String>(t),
            None => r is Err && r->Err_0@ == time_format_message(text@),
        },
{
    match parsed {
        Some(t) => Ok(t),
        None => {
            let mut msg = String::from_str("时间格式错误: '");
            msg.append(text);
            msg.append("' (应为 HH:MM 格式)");
            Err(msg)
        },
    }
}

/// Parses a time of day written `HH:MM`, as chrono's `%H:%M` format reads it (see
/// `hour_minute_fields`), or gives the message that reports the bad format.
pub fn parse_time(text: &str) -> (r: Result<TimeOfDay, String>)
    ensures
        r is Ok <==> hour_minute_fields(text@) is Some,
        r matches Ok(t) ==> t.seconds() == hour_minute_seconds(text@) && t.fraction() == 0
            && t.wf(),
        r matches Err(e) ==> e@ == time_format_message(text@),
{
    let parsed = chrono_parse_hour_minute(text);
    proof {
        if hour_minute_fields(text@) is Some {
            let f = hour_minute_fields(text@)->0;
            assert(f.0 < 24 && f.1 < 60);
        }
    }
    time_or_message(parsed, text)
}


/// First year that chrono's `NaiveDate` can hold.
pub const MIN_CIVIL_YEAR: i32 = -262143;

/// Last year that chrono's `NaiveDate` can hold.
pub const MAX_CIVIL_YEAR: i32 = 262142;

/// Leap years of the proleptic Gregorian calendar.
pub open spec fn is_leap_year(year: int) -> bool {
    year % 4 == 0 && (year % 100 != 0 || year % 400 == 0)
}

/// Number of days of a month (1 to 12) in a year.
pub open spec fn days_in_month(year: int, month: int) -> int {
    if month == 2 {
        if is_leap_year(year) { 29 } else { 28 }
    } else if month == 4 || month == 6 || month == 9 || month == 11 {
        30
    } else {
        31
    }
}

/// A calendar date that exists and lies in the range of chrono's `NaiveDate`.
pub open spec fn valid_civil_date(year: int, month: int, day: int) -> bool {
    &&& MIN_CIVIL_YEAR <= year <= MAX_CIVIL_YEAR
    &&& 1 <= month <= 12
    &&& 1 <= day <= days_in_month(year, month)
}

/// The day of the week of a date of the proleptic Gregorian calendar, counted from
/// Monday (0) to Sunday (6), by Zeller's congruence (with floor division).
pub open spec fn civil_weekday(year: int, month: int, day: int) -> int {
    let y = if month <= 2 { year - 1 } else { year };
    let m = if month <= 2 { month + 12 } else { month };
    let h = (day + (13 * (m + 1)) / 5 + y + y / 4 - y / 100 + y / 400) % 7;
    (h + 5) % 7
}

/// Calls chrono's `NaiveDate::from_ymd_opt(year, month, day)` and, on a date, its
/// weekday as `num_days_from_monday`. Trusted: `None` exactly where the date does not
/// exist or lies outside chrono's year range (as its documentation and `from_mdf`
/// show), and otherwise the day of the week of that date in the proleptic Gregorian
/// calendar that chrono follows.
#[verifier::external_body]
fn chrono_weekday_of(year: i32, month: u32, day: u32) -> (r: Option<u32>)
    ensures
        r.is_some() <==> valid_civil_date(year as int, month as int, day as int),
        r matches Some(w) ==> w == civil_weekday(year as int, month as int, day as int),
{
    match chrono::NaiveDate::from_ymd_opt(year, month, day) {
        Some(date) => Some(date.weekday().num_days_from_monday()),
        None => None,
    }
}

/// A moment of local time: a calendar date, its day of the week and a time of day.
#[derive(Clone, Copy, Debug)]
pub struct LocalDateTime {
    year: i32,
    month: u32,
    day: u32,
    weekday: u32,
    time: TimeOfDay,
}

impl LocalDateTime {
    pub closed spec fn year(self) -> int {
        self.year as int
    }

    pub closed spec fn month(self) -> int {
        self.month as int
    }

    pub closed spec fn day(self) -> int {
        self.day as int
    }

    /// Day of the week, from Monday (0) to Sunday (6).
    pub closed spec fn weekday(self) -> int {
        self.weekday as int
    }

    pub closed spec fn time(self) -> TimeOfDay {
        self.time
    }

    /// The date exists and the weekday is its day of the week.
    #[verifier::type_invariant]
    pub closed spec fn wf(self) -> bool {
        &&& valid_civil_date(self.year as int, self.month as int, self.day as int)
        &&& self.weekday == civil_weekday(self.year as int, self.month as int, self.day as int)
    }

    /// Makes the moment `time` on the date `year-month-day`, or `None` where the date
    /// does not exist or lies outside chrono's range.
    pub fn new(year: i32, month: u32, day: u32, time: TimeOfDay) -> (r: Option<LocalDateTime>)
        ensures
            r.is_some() <==> valid_civil_date(year as int, month as int, day as int),
            r matches Some(m) ==> {
                &&& m.year() == year && m.month() == month && m.day() == day
                &&& m.weekday() == civil_weekday(year as int, month as int, day as int)
                &&& m.time() == time
            },
    {
        match chrono_weekday_of(year, month, day) {
            Some(weekday) => Some(LocalDateTime { year, month, day, weekday, time }),
            None => None,
        }
    }

    /// Day of the week, from Monday (0) to Sunday (6).
    pub fn weekday_from_monday(&self) -> (r: u32)
        ensures
            r == self.weekday(),
            r < 7,
    {
        proof {
            use_type_invariant(self);
        }
        self.weekday
    }

    pub fn time_of_day(&self) -> (r: TimeOfDay)
        ensures
            r == self.time(),
    {
        self.time
    }
}


/// The character of a decimal digit.
pub open spec fn digit_char(d: int) -> char {
    if d == 0 {
        '0'
    } else if d == 1 {
        '1'
    } else if d == 2 {
        '2'
    } else if d == 3 {
        '3'
    } else if d == 4 {
        '4'
    } else if d == 5 {
        '5'
    } else if d == 6 {
        '6'
    } else if d == 7 {
        '7'
    } else if d == 8 {
        '8'
    } else {
        '9'
    }
}

/// The decimal digits of a number, without leading zeros.
pub open spec fn decimal(n: nat) -> Seq<char>
    decreases n,
{
    if n < 10 {
        seq![digit_char(n as int)]
    } else {
        decimal(n / 10).push(digit_char((n % 10) as int))
    }
}

/// `digits` with zeros in front, up to `width` characters.
pub open spec fn zero_padded(digits: Seq<char>, width: nat) -> Seq<char> {
    if digits.len() < width {
        Seq::new((width - digits.len()) as nat, |i: int| '0') + digits
    } else {
        digits
    }
}

/// The year as chrono's `%Y` writes it: four digits from 0 to 9999, otherwise a
/// sign and at least four digits.
pub open spec fn year_text(year: int) -> Seq<char> {
    if 0 <= year <= 9999 {
        zero_padded(decimal(year as nat), 4)
    } else if year < 0 {
        seq!['-'] + zero_padded(decimal((-year) as nat), 4)
    } else {
        seq!['+'] + zero_padded(decimal(year as nat), 4)
    }
}

/// A number below 100 in two digits, as chrono's `%m` and `%d` write it.
pub open spec fn two_digit_text(n: int) -> Seq<char> {
    seq![digit_char(n / 10), digit_char(n % 10)]
}

/// A date as chrono's `"%Y-%m-%d"` format writes it.
pub open spec fn date_text(year: int, month: int, day: int) -> Seq<char> {
    year_text(year) + seq!['-'] + two_digit_text(month) + seq!['-'] + two_digit_text(day)
}

/// Calls chrono's `NaiveDate::from_ymd_opt(year, month, day)` and, on a date, writes
/// it with `format("%Y-%m-%d")`. Trusted: `None` exactly where the date does not exist
/// or lies outside chrono's year range, and otherwise the text `date_text`, as
/// chrono's `write_year` and `write_two` (format/formatting.rs) show.
#[verifier::external_body]
fn chrono_date_text(year: i32, month: u32, day: u32) -> (r: Option<String>)
    ensures
        r.is_some() <==> valid_civil_date(year as int, month as int, day as int),
        r matches Some(text) ==> text@ == date_text(year as int, month as int, day as int),
{
    match chrono::NaiveDate::from_ymd_opt(year, month, day) {
        Some(date) => Some(date.format("%Y-%m-%d").to_string()),
        None => None,
    }
}

impl LocalDateTime {
    /// The date of this moment as chrono's `"%Y-%m-%d"` writes it.
    pub open spec fn date_text(self) -> Seq<char> {
        date_text(self.year(), self.month(), self.day())
    }

    /// The date of this moment written as `"%Y-%m-%d"`.
    pub fn date_string(&self) -> (r: String)
        ensures
            r@ == self.date_text(),
    {
        proof {
            use_type_invariant(self);
        }
        match chrono_date_text(self.year, self.month, self.day) {
            Some(text) => text,
            None => String::new(),
        }
    }

    /// Whether `text` is the date of this moment written as `"%Y-%m-%d"`.
    pub fn date_is(&self, text: &str) -> (r: bool)
        ensures
            r == (text@ == self.date_text()),
    {
        let expected = self.date_string();
        let given = String::from_str(text);
        given == expected
    }
}

} // verus!

verus! {

/// The digit characters are ASCII digits of their own value, and no white space.
pub proof fn lemma_digit_char(d: int)
    requires
        0 <= d < 10,
    ensures
        is_digit(digit_char(d)),
        digit_value(digit_char(d)) == d,
        !is_white_space(digit_char(d)),
{
}

/// Two digits read back as the number they were written from.
pub proof fn lemma_two_digit_value(n: int)
    requires
        0 <= n < 100,
    ensures
        digits_value(two_digit_text(n)) == n,
{
    let t = two_digit_text(n);
    lemma_digit_char(n / 10);
    lemma_digit_char(n % 10);
    assert(t.drop_last() =~= seq![digit_char(n / 10)]);
    assert(seq![digit_char(n / 10)].drop_last() =~= Seq::<char>::empty());
    assert(digits_value(Seq::<char>::empty()) == 0);
    assert(digits_value(seq![digit_char(n / 10)]) == n / 10);
    assert(t.last() == digit_char(n % 10));
    assert(n == (n / 10) * 10 + n % 10);
}

/// Every time written `HH:MM`, with the hour below 24 and the minute below 60, is
/// read back as that hour and minute.
pub proof fn lemma_hh_mm_reads_back(hour: int, minute: int)
    requires
        0 <= hour < 24,
        0 <= minute < 60,
    ensures
        hour_minute_fields(two_digit_text(hour) + seq![':'] + two_digit_text(minute))
            == Some((hour as nat, minute as nat)),
{
    let t = two_digit_text(hour) + seq![':'] + two_digit_text(minute);
    lemma_digit_char(hour / 10);
    lemma_digit_char(hour % 10);
    lemma_digit_char(minute / 10);
    lemma_digit_char(minute % 10);
    assert(t.len() == 5);
    assert(t[0] == digit_char(hour / 10) && t[1] == digit_char(hour % 10) && t[2] == ':');
    assert(t[3] == digit_char(minute / 10) && t[4] == digit_char(minute % 10));
    assert(run_end(t, 0, 5, true) == 0);
    assert(run_end(t, 3, 5, true) == 3);
    assert(digits_at_most_two(t, 0) == 2);
    assert(digits_at_most_two(t, 3) == 2);
    assert(t.subrange(0, 2) =~= two_digit_text(hour));
    assert(t.subrange(3, 5) =~= two_digit_text(minute));
    lemma_two_digit_value(hour);
    lemma_two_digit_value(minute);
}

/// The decimal digits of a number are ASCII digits, none of them white space, that
/// read back as the number.
pub proof fn lemma_decimal_digits(n: nat)
    ensures
        decimal(n).len() >= 1,
        forall|k: int| 0 <= k < decimal(n).len() ==> is_digit(#[trigger] decimal(n)[k])
            && !is_white_space(decimal(n)[k]),
        digits_value(decimal(n)) == n,
    decreases n,
{
    if n < 10 {
        lemma_digit_char(n as int);
        assert(decimal(n).drop_last() =~= Seq::<char>::empty());
        assert(digits_value(Seq::<char>::empty()) == 0);
        assert(decimal(n).last() == digit_char(n as int));
    } else {
        lemma_decimal_digits(n / 10);
        lemma_digit_char((n % 10) as int);
        let d = decimal(n);
        assert(d.drop_last() =~= decimal(n / 10));
        assert forall|k: int| 0 <= k < d.len() implies is_digit(#[trigger] d[k]) && !is_white_space(
            d[k],
        ) by {
            if k < d.len() - 1 {
                assert(d[k] == decimal(n / 10)[k]);
            }
        }
        assert(d.last() == digit_char((n % 10) as int));
        assert(digits_value(d) == digits_value(decimal(n / 10)) * 10 + digit_value(d.last()));
        assert(n == (n / 10) * 10 + n % 10);
    }
}

/// Zeros in front leave the value of a digit text as it is.
pub proof fn lemma_leading_zeros_value(z: nat, t: Seq<char>)
    ensures
        digits_value(Seq::new(z, |i: int| '0') + t) == digits_value(t),
    decreases t.len() + z,
{
    let zeros = Seq::new(z, |i: int| '0');
    if t.len() == 0 {
        assert(zeros + t =~= zeros);
        if z > 0 {
            assert(zeros.drop_last() =~= Seq::new((z - 1) as nat, |i: int| '0'));
            assert(Seq::new((z - 1) as nat, |i: int| '0') + t =~= Seq::new((z - 1) as nat, |i: int| '0'));
            lemma_leading_zeros_value((z - 1) as nat, t);
            assert(zeros.last() == '0');
        }
    } else {
        assert((zeros + t).drop_last() =~= zeros + t.drop_last());
        assert((zeros + t).last() == t.last());
        lemma_leading_zeros_value(z, t.drop_last());
    }
}

/// Numbers below 10000 have at most four decimal digits.
pub proof fn lemma_decimal_at_most_four(n: nat)
    requires
        n < 10000,
    ensures
        decimal(n).len() <= 4,
{
    if n >= 10 {
        assert(decimal(n).len() == decimal(n / 10).len() + 1);
        if n / 10 >= 10 {
            assert(decimal(n / 10).len() == decimal(n / 100).len() + 1);
            if n / 100 >= 10 {
                assert(decimal(n / 100).len() == decimal(n / 1000).len() + 1);
                assert(n / 1000 < 10);
            }
        }
    }
}

/// The text of a date with a year from 0 to 9999 is `YYYY-MM-DD`: ten characters,
/// dashes at the fifth and the eighth, and the three fields read back as the year,
/// the month and the day.
pub proof fn lemma_date_text_reads_back(year: int, month: int, day: int)
    requires
        0 <= year <= 9999,
        1 <= month <= 12,
        1 <= day <= 31,
    ensures
        date_text(year, month, day).len() == 10,
        date_text(year, month, day)[4] == '-',
        date_text(year, month, day)[7] == '-',
        digits_value(date_text(year, month, day).subrange(0, 4)) == year,
        digits_value(date_text(year, month, day).subrange(5, 7)) == month,
        digits_value(date_text(year, month, day).subrange(8, 10)) == day,
{
    let t = date_text(year, month, day);
    let d = decimal(year as nat);
    lemma_decimal_digits(year as nat);
    lemma_decimal_at_most_four(year as nat);
    let z = (4 - d.len()) as nat;
    assert(year_text(year) == Seq::new(z, |i: int| '0') + d) by {
        if d.len() == 4 {
            assert(Seq::new(z, |i: int| '0') + d =~= d);
        }
    }
    lemma_leading_zeros_value(z, d);
    assert(year_text(year).len() == 4);
    assert(t.subrange(0, 4) =~= year_text(year));
    assert(t.subrange(5, 7) =~= two_digit_text(month));
    assert(t.subrange(8, 10) =~= two_digit_text(day));
    lemma_two_digit_value(month);
    lemma_two_digit_value(day);
}

/// Two days in a row of one month fall on days of the week in a row.
pub proof fn lemma_next_day_next_weekday(year: int, month: int, day: int)
    requires
        1 <= month <= 12,
    ensures
        civil_weekday(year, month, day + 1) == (civil_weekday(year, month, day) + 1) % 7,
{
}

} // verus!
