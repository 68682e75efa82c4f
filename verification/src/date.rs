//! Calendar dates and timestamps held as plain numbers.
//!
//! A [`Date`] is a year, a month and a day of the proleptic Gregorian calendar.
//! Which days exist, and what number each has in the count of the days, is
//! written out here; the counting itself, the day of the week and the step
//! back to a Monday are done by `chrono`. No clock is read here: a timestamp
//! is made of the numbers that it is given.

use chrono::Datelike;
use chrono::Days;
use chrono::NaiveDate;
use vstd::prelude::*;

verus! {

/// The earliest year that a [`Date`] can hold.
pub const MIN_YEAR: i32 = -262143;

/// The latest year that a [`Date`] can hold.
pub const MAX_YEAR: i32 = 262142;

/// Seconds in a day.
pub const SECONDS_PER_DAY: u32 = 86400;

/// Upper bound of the nanosecond part of a timestamp: values from one
/// billion on stand for a leap second.
pub const NANOS_LIMIT: u32 = 2000000000;

/// Whether `year` has a 29th of February.
pub open spec fn is_leap_year(year: int) -> bool {
    year % 4 == 0 && (year % 100 != 0 || year % 400 == 0)
}

/// The number of days of `month` in `year`, for a month from 1 to 12.
pub open spec fn days_in_month(year: int, month: int) -> int {
    if month == 2 {
        if is_leap_year(year) {
            29
        } else {
            28
        }
    } else if month == 4 || month == 6 || month == 9 || month == 11 {
        30
    } else {
        31
    }
}

/// Whether the calendar has the day `year`-`month`-`day`, within the years
/// that a [`Date`] can hold.
pub open spec fn date_exists(year: int, month: int, day: int) -> bool {
    &&& MIN_YEAR <= year <= MAX_YEAR
    &&& 1 <= month <= 12
    &&& 1 <= day <= days_in_month(year, month)
}

/// The number of days of the calendar before the first of January of
/// `year`, counted from the first of January of the year 1: 365 for each
/// year, and one more for each leap year. For a year before the year 1 the
/// number is negative.
pub open spec fn days_before_year(year: int) -> int {
    let past = year - 1;
    365 * past + past / 4 - past / 100 + past / 400
}

/// The number of days of `year` before the first of `month`, for a month
/// from 1 to 12.
pub open spec fn days_before_month(year: int, month: int) -> int
    decreases month,
{
    if month <= 1 {
        0
    } else {
        days_before_month(year, month - 1) + days_in_month(year, month - 1)
    }
}

/// The number of the day `year`-`month`-`day` in the count of the days of
/// the calendar that has the first of January of the year 1 as day 1.
pub open spec fn day_count(year: int, month: int, day: int) -> int {
    days_before_year(year) + days_before_month(year, month) + day
}

/// The number of the earliest day that a [`Date`] can hold.
pub open spec fn first_day_number() -> int {
    day_count(MIN_YEAR as int, 1, 1)
}

/// What `chrono` gives as the day that lies `days` days before
/// `year`-`month`-`day`: none where that day is outside the years it holds.
pub uninterp spec fn chrono_days_before(year: int, month: int, day: int, days: int) -> Option<Date>;

/// A day of the week.
#[derive(Debug, Clone, Copy, PartialEq, Eq, Structural)]
pub enum Weekday {
    Mon,
    Tue,
    Wed,
    Thu,
    Fri,
    Sat,
    Sun,
}

impl Weekday {
    /// The number of days since the latest Monday: 0 for Monday, 6 for Sunday.
    pub open spec fn days_from_monday(self) -> int {
        match self {
            Weekday::Mon => 0,
            Weekday::Tue => 1,
            Weekday::Wed => 2,
            Weekday::Thu => 3,
            Weekday::Fri => 4,
            Weekday::Sat => 5,
            Weekday::Sun => 6,
        }
    }

    /// The day of the week of the day with the number `day_number`. Day 1,
    /// the first of January of the year 1, is a Monday, and the days of the
    /// week follow each other without a gap.
    pub open spec fn of_day_number(day_number: int) -> Weekday {
        let since_monday = (day_number - 1) % 7;
        if since_monday == 0 {
            Weekday::Mon
        } else if since_monday == 1 {
            Weekday::Tue
        } else if since_monday == 2 {
            Weekday::Wed
        } else if since_monday == 3 {
            Weekday::Thu
        } else if since_monday == 4 {
            Weekday::Fri
        } else if since_monday == 5 {
            Weekday::Sat
        } else {
            Weekday::Sun
        }
    }

    /// The number of days since the latest Monday.
    pub fn num_days_from_monday(&self) -> (n: u32)
        ensures
            n == self.days_from_monday(),
            n <= 6,
    {
        match self {
            Weekday::Mon => 0,
            Weekday::Tue => 1,
            Weekday::Wed => 2,
            Weekday::Thu => 3,
            Weekday::Fri => 4,
            Weekday::Sat => 5,
            Weekday::Sun => 6,
        }
    }
}

/// The number of the Monday that starts the week of a day, given the day's
/// number and its day of the week.
pub open spec fn week_start(day_number: int, weekday: Weekday) -> int {
    day_number - weekday.days_from_monday()
}

/// The number of the week that the day with the number `day_number` lies
/// in. Weeks run from Monday to Sunday, and day 1 is a Monday.
pub open spec fn week_number(day_number: int) -> int {
    (day_number - 1) / 7
}

/// The number of the Monday at or before the day with the number
/// `day_number`.
pub open spec fn monday_number(day_number: int) -> int {
    day_number - (day_number - 1) % 7
}

/// Whether the day numbered `day` lies in the Monday-to-Sunday week of the
/// day numbered `anchor`, which falls on `anchor_weekday`.
pub open spec fn in_week_of(anchor: int, anchor_weekday: Weekday, day: int) -> bool {
    week_start(anchor, anchor_weekday) <= day < week_start(anchor, anchor_weekday) + 7
}

/// Tests whether the day numbered `day` lies in the week of the day numbered
/// `anchor`, which falls on `anchor_weekday`.
pub fn week_contains(anchor: i32, anchor_weekday: Weekday, day: i32) -> (r: bool)
    ensures
        r == in_week_of(anchor as int, anchor_weekday, day as int),
{
    let start: i64 = anchor as i64 - anchor_weekday.num_days_from_monday() as i64;
    let day: i64 = day as i64;
    start <= day && day < start + 7
}

/// `chrono::NaiveDate::from_ymd_opt`, asked only whether it finds the day.
/// Its documentation says that it finds none where the calendar has no such
/// day, where the month or the day is out of range, and where the year is
/// outside the years of `NaiveDate`; the contract says so over
/// [`date_exists`].
#[verifier::external_body]
fn calendar_has(year: i32, month: u32, day: u32) -> (found: bool)
    ensures
        found == date_exists(year as int, month as int, day as int),
{
    NaiveDate::from_ymd_opt(year, month, day).is_some()
}

/// `chrono::Datelike::num_days_from_ce` on the `NaiveDate` of an existing
/// day. Its documentation says that it counts the days of the proleptic
/// Gregorian calendar with the first of January of the year 1 as day 1; the
/// contract says so over [`day_count`].
#[verifier::external_body]
fn count_days_from_ce(year: i32, month: u32, day: u32) -> (n: i32)
    requires
        date_exists(year as int, month as int, day as int),
    ensures
        n == day_count(year as int, month as int, day as int),
{
    NaiveDate::from_ymd_opt(year, month, day).unwrap().num_days_from_ce()
}

/// `chrono::Datelike::weekday` on the `NaiveDate` of an existing day, each of
/// chrono's seven variants turned into the variant of the same name. The
/// contract says how the answer goes with the count of the days: day 1 of
/// that count is a Monday, and the day of the week moves on by one with each
/// day.
#[verifier::external_body]
fn find_weekday(year: i32, month: u32, day: u32) -> (w: Weekday)
    requires
        date_exists(year as int, month as int, day as int),
    ensures
        w == Weekday::of_day_number(day_count(year as int, month as int, day as int)),
{
    match NaiveDate::from_ymd_opt(year, month, day).unwrap().weekday() {
        chrono::Weekday::Mon => Weekday::Mon,
        chrono::Weekday::Tue => Weekday::Tue,
        chrono::Weekday::Wed => Weekday::Wed,
        chrono::Weekday::Thu => Weekday::Thu,
        chrono::Weekday::Fri => Weekday::Fri,
        chrono::Weekday::Sat => Weekday::Sat,
        chrono::Weekday::Sun => Weekday::Sun,
    }
}

/// `chrono::NaiveDate::checked_sub_days` on the `NaiveDate` of an existing
/// day, the result read back as year, month and day. Its documentation says
/// that it finds none where the day asked for would be out of range. The
/// contract gives the answer a name, and says of it when there is one, that
/// it is a day of the calendar, as every `NaiveDate` is, and that it has the
/// number `days` below that of the day it was asked about.
#[verifier::external_body]
fn step_back_days(year: i32, month: u32, day: u32, days: u32) -> (r: Option<Date>)
    requires
        date_exists(year as int, month as int, day as int),
    ensures
        r == chrono_days_before(year as int, month as int, day as int, days as int),
        r is Some <==> day_count(year as int, month as int, day as int) - days
            >= first_day_number(),
        r matches Some(d) ==> d.valid() && d.day_number() == day_count(
            year as int,
            month as int,
            day as int,
        ) - days,
{
    let date = NaiveDate::from_ymd_opt(year, month, day).unwrap();
    match date.checked_sub_days(Days::new(days as u64)) {
        Some(d) => Some(Date { year: d.year(), month: d.month(), day: d.day() }),
        None => None,
    }
}

/// A day of the calendar. Every value is a day that exists.
#[derive(Debug, Clone, Copy, PartialEq, Eq, Structural)]
pub struct Date {
    year: i32,
    month: u32,
    day: u32,
}

impl Date {
    #[verifier::type_invariant]
    spec fn exists_in_calendar(self) -> bool {
        date_exists(self.year as int, self.month as int, self.day as int)
    }

    /// The year of this date.
    pub closed spec fn spec_year(&self) -> i32 {
        self.year
    }

    /// The month of this date, from 1.
    pub closed spec fn spec_month(&self) -> u32 {
        self.month
    }

    /// The day of the month of this date, from 1.
    pub closed spec fn spec_day(&self) -> u32 {
        self.day
    }

    /// Whether this value is a day of the calendar. It holds of every date
    /// that a program can hold; a date that only a proof speaks of may lack
    /// it.
    pub open spec fn valid(self) -> bool {
        date_exists(self.spec_year() as int, self.spec_month() as int, self.spec_day() as int)
    }

    /// The number of this day in the count of the days of the calendar.
    pub open spec fn day_number(self) -> int {
        day_count(self.spec_year() as int, self.spec_month() as int, self.spec_day() as int)
    }

    /// The day of the week of this day: the one that goes with its number.
    pub open spec fn day_of_week(self) -> Weekday {
        Weekday::of_day_number(self.day_number())
    }

    /// The Monday that starts the week of this day as `chrono` gives it: the
    /// day as many days back as this day is from Monday.
    pub open spec fn monday(self) -> Option<Date> {
        chrono_days_before(
            self.spec_year() as int,
            self.spec_month() as int,
            self.spec_day() as int,
            self.day_of_week().days_from_monday(),
        )
    }

    /// The first day of the month of this day.
    pub closed spec fn first_of_month(self) -> Date {
        Date { year: self.year, month: self.month, day: 1 }
    }

    /// Whether this day comes before `other`, or is the same day.
    pub open spec fn at_or_before(self, other: Date) -> bool {
        ||| self.spec_year() < other.spec_year()
        ||| self.spec_year() == other.spec_year() && self.spec_month() < other.spec_month()
        ||| self.spec_year() == other.spec_year() && self.spec_month() == other.spec_month()
            && self.spec_day() <= other.spec_day()
    }

    /// Whether `other` lies in the Monday-to-Sunday week of this day: at or
    /// after the Monday at or before this day, and less than seven days
    /// after that Monday.
    pub open spec fn week_has(self, other: Date) -> bool {
        monday_number(self.day_number()) <= other.day_number() < monday_number(self.day_number())
            + 7
    }

    /// Whether `other` lies in the calendar month of this day.
    pub open spec fn month_has(self, other: Date) -> bool {
        other.spec_year() == self.spec_year() && other.spec_month() == self.spec_month()
    }

    /// The date `year`-`month`-`day`, or `None` where there is no such day.
    pub fn from_ymd_opt(year: i32, month: u32, day: u32) -> (r: Option<Date>)
        ensures
            r is Some <==> date_exists(year as int, month as int, day as int),
            r matches Some(d) ==> d.spec_year() == year && d.spec_month() == month && d.spec_day()
                == day && d.valid(),
    {
        if calendar_has(year, month, day) {
            Some(Date { year, month, day })
        } else {
            None
        }
    }

    /// The year, within the years that a date can hold.
    #[verifier::when_used_as_spec(spec_year)]
    pub fn year(&self) -> (y: i32)
        ensures
            y == self.spec_year(),
            MIN_YEAR <= y <= MAX_YEAR,
    {
        proof {
            use_type_invariant(self);
        }
        self.year
    }

    /// The month, from 1 to 12.
    #[verifier::when_used_as_spec(spec_month)]
    pub fn month(&self) -> (m: u32)
        ensures
            m == self.spec_month(),
            1 <= m <= 12,
    {
        proof {
            use_type_invariant(self);
        }
        self.month
    }

    /// The day of the month, from 1 to 31.
    #[verifier::when_used_as_spec(spec_day)]
    pub fn day(&self) -> (d: u32)
        ensures
            d == self.spec_day(),
            1 <= d <= 31,
    {
        proof {
            use_type_invariant(self);
        }
        self.day
    }

    /// The number of this day, counted by `chrono` from the first of January
    /// of the year 1 as day 1.
    pub fn num_days_from_ce(&self) -> (n: i32)
        ensures
            n == self.day_number(),
    {
        proof {
            use_type_invariant(self);
        }
        count_days_from_ce(self.year, self.month, self.day)
    }

    /// The day of the week, found by `chrono`.
    pub fn weekday(&self) -> (w: Weekday)
        ensures
            w == self.day_of_week(),
    {
        proof {
            use_type_invariant(self);
        }
        find_weekday(self.year, self.month, self.day)
    }

    /// The Monday that starts the week of this day, found by `chrono`, or
    /// `None` where that Monday is outside the years that a date can hold.
    pub fn week_start(&self) -> (r: Option<Date>)
        ensures
            r == self.monday(),
            r is Some <==> monday_number(self.day_number()) >= first_day_number(),
            r matches Some(d) ==> {
                &&& d.valid()
                &&& d.day_number() == monday_number(self.day_number())
                &&& d.day_of_week() == Weekday::Mon
                &&& self.week_has(d)
                &&& d.week_has(*self)
            },
    {
        proof {
            use_type_invariant(self);
        }
        let back: u32 = self.weekday().num_days_from_monday();
        step_back_days(self.year, self.month, self.day, back)
    }

    /// The first day of the month of this day.
    pub fn month_start(&self) -> (r: Date)
        ensures
            r == self.first_of_month(),
            r.spec_year() == self.spec_year(),
            r.spec_month() == self.spec_month(),
            r.spec_day() == 1,
    {
        proof {
            use_type_invariant(self);
        }
        Date::from_ymd_opt(self.year, self.month, 1).unwrap()
    }

    /// Whether this day comes before `other`, or is the same day.
    pub fn is_at_or_before(&self, other: &Date) -> (r: bool)
        ensures
            r == self.at_or_before(*other),
    {
        self.year < other.year || (self.year == other.year && (self.month < other.month || (
        self.month == other.month && self.day <= other.day)))
    }

    /// Whether `other` lies in the week of this day, the week running from
    /// Monday to Sunday.
    pub fn same_week(&self, other: &Date) -> (r: bool)
        ensures
            r == self.week_has(*other),
            *other == *self ==> r,
    {
        week_contains(self.num_days_from_ce(), self.weekday(), other.num_days_from_ce())
    }

    /// Whether `other` lies in the calendar month of this day: same year,
    /// same month.
    pub fn same_month(&self, other: &Date) -> (r: bool)
        ensures
            r == self.month_has(*other),
    {
        other.year == self.year && other.month == self.month
    }
}

impl Date {
    /// The first of January 1970, the date that stands where none is known.
    pub closed spec fn epoch() -> Date {
        Date { year: 1970, month: 1, day: 1 }
    }

    /// The parts of the first of January 1970.
    pub proof fn lemma_epoch()
        ensures
            Date::epoch().spec_year() == 1970,
            Date::epoch().spec_month() == 1,
            Date::epoch().spec_day() == 1,
            Date::epoch().valid(),
    {
    }
}

impl Default for Date {
    /// The first of January 1970.
    fn default() -> (d: Date)
        ensures
            d == Date::epoch(),
    {
        Date { year: 1970, month: 1, day: 1 }
    }
}

/// Whether a time of day exists, given as seconds since midnight and
/// nanoseconds within the second. A nanosecond part of a billion or more
/// stands for a leap second, and only the last second of a minute can be one.
pub open spec fn time_exists(secs: int, nano: int) -> bool {
    &&& 0 <= secs < SECONDS_PER_DAY
    &&& 0 <= nano < NANOS_LIMIT
    &&& nano >= 1000000000 ==> secs % 60 == 59
}

/// A date and a time of day, without a time zone.
#[derive(Debug, Clone, Copy, PartialEq, Eq, Structural)]
pub struct DateTime {
    date: Date,
    secs: u32,
    nano: u32,
}

impl DateTime {
    #[verifier::type_invariant]
    spec fn exists_on_clock(self) -> bool {
        &&& date_exists(self.date.year as int, self.date.month as int, self.date.day as int)
        &&& time_exists(self.secs as int, self.nano as int)
    }

    /// The date of this timestamp.
    pub closed spec fn spec_date(&self) -> Date {
        self.date
    }

    /// The seconds since midnight.
    pub closed spec fn spec_secs(&self) -> u32 {
        self.secs
    }

    /// The nanoseconds since the last full second.
    pub closed spec fn spec_nano(&self) -> u32 {
        self.nano
    }

    /// Whether this value is a day of the calendar with a time of day. It
    /// holds of every timestamp that a program can hold; a timestamp that
    /// only a proof speaks of may lack it.
    pub open spec fn valid(self) -> bool {
        self.spec_date().valid() && time_exists(self.spec_secs() as int, self.spec_nano() as int)
    }

    /// Whether this timestamp comes before `other`, or is the same moment:
    /// by date first, then by second, then by nanosecond.
    pub open spec fn at_or_before(self, other: DateTime) -> bool {
        if self.spec_date() != other.spec_date() {
            self.spec_date().at_or_before(other.spec_date())
        } else if self.spec_secs() != other.spec_secs() {
            self.spec_secs() < other.spec_secs()
        } else {
            self.spec_nano() <= other.spec_nano()
        }
    }

    /// The timestamp on `date` at `secs` seconds since midnight and `nano`
    /// nanoseconds, or `None` where there is no such time of day.
    pub fn new(date: Date, secs: u32, nano: u32) -> (r: Option<DateTime>)
        ensures
            r is Some <==> time_exists(secs as int, nano as int),
            r matches Some(t) ==> t.spec_date() == date && t.spec_secs() == secs && t.spec_nano()
                == nano && t.valid(),
    {
        proof {
            use_type_invariant(&date);
        }
        if secs < SECONDS_PER_DAY && nano < NANOS_LIMIT && (nano < 1000000000 || secs % 60 == 59) {
            Some(DateTime { date, secs, nano })
        } else {
            None
        }
    }

    /// The date.
    #[verifier::when_used_as_spec(spec_date)]
    pub fn date(&self) -> (d: Date)
        ensures
            d == self.spec_date(),
    {
        self.date
    }

    /// The seconds since midnight, below 86400.
    #[verifier::when_used_as_spec(spec_secs)]
    pub fn num_seconds_from_midnight(&self) -> (secs: u32)
        ensures
            secs == self.spec_secs(),
            secs < SECONDS_PER_DAY,
    {
        proof {
            use_type_invariant(self);
        }
        self.secs
    }

    /// The nanoseconds since the last full second, below two billion.
    #[verifier::when_used_as_spec(spec_nano)]
    pub fn nanosecond(&self) -> (nano: u32)
        ensures
            nano == self.spec_nano(),
            nano < NANOS_LIMIT,
    {
        proof {
            use_type_invariant(self);
        }
        self.nano
    }

    /// Whether this timestamp comes before `other`, or is the same moment.
    pub fn is_at_or_before(&self, other: &DateTime) -> (r: bool)
        ensures
            r == self.at_or_before(*other),
    {
        if self.date != other.date {
            self.date.is_at_or_before(&other.date)
        } else if self.secs != other.secs {
            self.secs < other.secs
        } else {
            self.nano <= other.nano
        }
    }
}

impl Date {
    /// The timestamp on this date at `hour`:`min`:`sec`, or `None` where the
    /// hour is not below 24 or the minute or the second not below 60.
    pub fn and_hms_opt(&self, hour: u32, min: u32, sec: u32) -> (r: Option<DateTime>)
        ensures
            r is Some <==> hour < 24 && min < 60 && sec < 60,
            r matches Some(t) ==> t.spec_date() == *self && t.spec_secs() == hour * 3600 + min
                * 60 + sec && t.spec_nano() == 0 && t.valid(),
    {
        proof {
            use_type_invariant(self);
        }
        if hour < 24 && min < 60 && sec < 60 {
            Some(DateTime { date: *self, secs: hour * 3600 + min * 60 + sec, nano: 0 })
        } else {
            None
        }
    }
}

/// The order of timestamps is total: of two, one is at or before the other.
pub proof fn lemma_timestamps_comparable(a: DateTime, b: DateTime)
    ensures
        a.at_or_before(b) || b.at_or_before(a),
{
}

/// The order of timestamps is transitive.
pub proof fn lemma_timestamps_transitive(a: DateTime, b: DateTime, c: DateTime)
    requires
        a.at_or_before(b),
        b.at_or_before(c),
    ensures
        a.at_or_before(c),
{
}

/// Two timestamps that are each at or before the other are the same.
pub proof fn lemma_timestamps_antisymmetric(a: DateTime, b: DateTime)
    requires
        a.at_or_before(b),
        b.at_or_before(a),
    ensures
        a == b,
{
}

/// Two dates with the same year, month and day are the same date.
pub proof fn lemma_date_by_parts(a: Date, b: Date)
    requires
        a.spec_year() == b.spec_year(),
        a.spec_month() == b.spec_month(),
        a.spec_day() == b.spec_day(),
    ensures
        a == b,
{
}

/// Every day lies in its own week, and that week starts on a day numbered at
/// most six below it.
pub proof fn lemma_week_has_anchor(anchor: int, weekday: Weekday)
    ensures
        in_week_of(anchor, weekday, anchor),
        anchor - 6 <= week_start(anchor, weekday) <= anchor,
{
}

/// A week holds exactly the seven days from its Monday on, whichever of its
/// days is taken as the anchor: two days of one week have the same week.
pub proof fn lemma_week_shared(a: int, wa: Weekday, b: int, wb: Weekday, day: int)
    requires
        week_start(a, wa) == week_start(b, wb),
    ensures
        in_week_of(a, wa, day) == in_week_of(b, wb, day),
{
}

/// The Monday at or before a day is a Monday, lies at most six days before
/// it, and starts the week that the day has by its number: a day lies in
/// that week exactly when it has the same week number.
pub proof fn lemma_monday_number(day_number: int, other: int)
    ensures
        Weekday::of_day_number(monday_number(day_number)) == Weekday::Mon,
        day_number - 6 <= monday_number(day_number) <= day_number,
        monday_number(day_number) == week_start(day_number, Weekday::of_day_number(day_number)),
        monday_number(day_number) == 7 * week_number(day_number) + 1,
        (monday_number(day_number) <= other < monday_number(day_number) + 7) <==> week_number(
            day_number,
        ) == week_number(other),
{
}

/// Lying in the week of a day goes both ways and carries over: the weeks
/// cut the days into classes. Every day lies in its own week.
pub proof fn lemma_weeks_are_classes(a: Date, b: Date, c: Date)
    ensures
        a.week_has(a),
        a.week_has(b) <==> week_number(a.day_number()) == week_number(b.day_number()),
        a.week_has(b) ==> b.week_has(a),
        a.week_has(b) && b.week_has(c) ==> a.week_has(c),
        a.week_has(b) ==> (a.week_has(c) <==> b.week_has(c)),
{
    lemma_monday_number(a.day_number(), a.day_number());
    lemma_monday_number(a.day_number(), b.day_number());
    lemma_monday_number(a.day_number(), c.day_number());
    lemma_monday_number(b.day_number(), a.day_number());
    lemma_monday_number(b.day_number(), c.day_number());
}

} // verus!
