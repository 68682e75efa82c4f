//! Totals of what the events measure, by day, by week and by month.
//!
//! Every total is an `i32`. Where a sum does not fit, at any point of the
//! adding up, the answer is `None`.

use crate::date::Date;
use crate::models::BabyEvent;
use vstd::prelude::*;

verus! {

/// Whether `value` fits an `i32`.
pub open spec fn fits(value: int) -> bool {
    i32::MIN <= value <= i32::MAX
}

/// The sum of the amounts that `entries` hold for `date`.
pub open spec fn total_for(entries: Seq<(Date, i32)>, date: Date) -> int
    decreases entries.len(),
{
    if entries.len() == 0 {
        0
    } else {
        total_for(entries.drop_last(), date) + if entries.last().0 == date {
            entries.last().1 as int
        } else {
            0
        }
    }
}

/// The dates of `entries`, each once, in the order in which they first
/// occur.
pub open spec fn dates_of(entries: Seq<(Date, i32)>) -> Seq<Date>
    decreases entries.len(),
{
    if entries.len() == 0 {
        Seq::empty()
    } else {
        let before = dates_of(entries.drop_last());
        if before.contains(entries.last().0) {
            before
        } else {
            before.push(entries.last().0)
        }
    }
}

/// Whether `totals` is the tally of `entries`: one line for each date of
/// `entries`, in the order in which the dates first occur, with the sum of
/// the amounts of that date.
pub open spec fn is_tally_of(totals: Seq<(Date, i32)>, entries: Seq<(Date, i32)>) -> bool {
    &&& totals.len() == dates_of(entries).len()
    &&& forall|i: int|
        0 <= i < totals.len() ==> (#[trigger] totals[i]).0 == dates_of(entries)[i] && totals[i].1
            == total_for(entries, totals[i].0)
}

/// Whether the tally of `entries` can be added up in an `i32`: after any
/// number of entries, the sum for each date fits.
pub open spec fn sums_fit(entries: Seq<(Date, i32)>) -> bool {
    forall|n: int, date: Date|
        0 <= n <= entries.len() ==> fits(#[trigger] total_for(entries.take(n), date))
}

/// A date that no entry has sums to nothing, and a date that an entry has
/// is among the dates.
pub proof fn lemma_dates_of(entries: Seq<(Date, i32)>, date: Date)
    ensures
        dates_of(entries).contains(date) <==> exists|i: int|
            0 <= i < entries.len() && (#[trigger] entries[i]).0 == date,
        !dates_of(entries).contains(date) ==> total_for(entries, date) == 0,
    decreases entries.len(),
{
    if entries.len() > 0 {
        let front = entries.drop_last();
        lemma_dates_of(front, date);
        let last = entries.last();
        if dates_of(front).contains(date) {
            let i = choose|i: int| 0 <= i < front.len() && (#[trigger] front[i]).0 == date;
            assert(entries[i].0 == date);
            let at = choose|at: int|
                0 <= at < dates_of(front).len() && dates_of(front)[at] == date;
            if !dates_of(front).contains(last.0) {
                assert(dates_of(front).push(last.0)[at] == date);
            }
        } else if last.0 == date {
            assert(entries[entries.len() - 1].0 == date);
            assert(dates_of(front).push(last.0)[dates_of(front).len() as int] == date);
        } else {
            if exists|i: int| 0 <= i < entries.len() && (#[trigger] entries[i]).0 == date {
                let i = choose|i: int| 0 <= i < entries.len() && (#[trigger] entries[i]).0 == date;
                assert(front[i].0 == date);
            }
            if dates_of(entries).contains(date) {
                let at = choose|at: int|
                    0 <= at < dates_of(entries).len() && dates_of(entries)[at] == date;
                if !dates_of(front).contains(last.0) {
                    assert(dates_of(front)[at] == date);
                }
            }
        }
    }
}

/// No date stands twice among the dates of a list of entries.
pub proof fn lemma_dates_once(entries: Seq<(Date, i32)>)
    ensures
        forall|i: int, j: int|
            0 <= i < j < dates_of(entries).len() ==> dates_of(entries)[i] != dates_of(entries)[j],
    decreases entries.len(),
{
    if entries.len() > 0 {
        let before = dates_of(entries.drop_last());
        lemma_dates_once(entries.drop_last());
        assert forall|i: int, j: int| 0 <= i < j < dates_of(entries).len() implies dates_of(
            entries,
        )[i] != dates_of(entries)[j] by {
            if j == before.len() {
                assert(before.contains(before[i]));
            }
        }
    }
}

/// A tally is settled by its entries: two tallies of one list are equal.
pub proof fn lemma_tally_unique(
    a: Seq<(Date, i32)>,
    b: Seq<(Date, i32)>,
    entries: Seq<(Date, i32)>,
)
    requires
        is_tally_of(a, entries),
        is_tally_of(b, entries),
    ensures
        a == b,
{
    assert(a =~= b);
}

/// The place of `date` among the lines of `totals`.
fn line_of(totals: &Vec<(Date, i32)>, date: Date) -> (r: Option<usize>)
    ensures
        r matches Some(at) ==> at < totals@.len() && totals@[at as int].0 == date,
        r is None ==> forall|i: int| 0 <= i < totals@.len() ==> totals@[i].0 != date,
{
    let mut at: usize = 0;
    while at < totals.len()
        invariant
            at <= totals.len(),
            forall|i: int| 0 <= i < at ==> totals@[i].0 != date,
        decreases totals.len() - at,
    {
        if totals[at].0 == date {
            return Some(at);
        }
        at += 1;
    }
    None
}

/// Adds up `entries` date by date. The result has one line for each date,
/// in the order in which the dates first occur. `None` where a sum does not
/// fit an `i32` at some point of the adding up.
pub fn tally(entries: &Vec<(Date, i32)>) -> (r: Option<Vec<(Date, i32)>>)
    ensures
        r is Some <==> sums_fit(entries@),
        r matches Some(totals) ==> is_tally_of(totals@, entries@),
{
    let mut totals: Vec<(Date, i32)> = Vec::new();
    let mut n: usize = 0;
    proof {
        assert(entries@.take(0) =~= Seq::<(Date, i32)>::empty());
        assert forall|m: int, date: Date| 0 <= m <= 0 implies fits(
            #[trigger] total_for(entries@.take(m), date),
        ) by {
            assert(entries@.take(m) =~= Seq::<(Date, i32)>::empty());
        }
    }
    while n < entries.len()
        invariant
            n <= entries.len(),
            is_tally_of(totals@, entries@.take(n as int)),
            forall|m: int, date: Date|
                0 <= m <= n ==> fits(#[trigger] total_for(entries@.take(m), date)),
        decreases entries.len() - n,
    {
        let date: Date = entries[n].0;
        let amount: i32 = entries[n].1;
        let ghost seen = entries@.take(n as int);
        let ghost next = entries@.take(n + 1);
        proof {
            assert(next.drop_last() =~= seen);
            assert(next.last() == entries@[n as int]);
            lemma_dates_of(seen, date);
            lemma_dates_once(seen);
        }
        match line_of(&totals, date) {
            Some(at) => {
                let sum: Option<i32> = totals[at].1.checked_add(amount);
                match sum {
                    Some(sum) => {
                        let ghost before = totals@;
                        totals[at] = (date, sum);
                        proof {
                            assert(dates_of(seen).contains(date));
                            assert(dates_of(next) == dates_of(seen));
                            assert forall|i: int| 0 <= i < totals@.len() implies (
                            #[trigger] totals@[i]).0 == dates_of(next)[i] && totals@[i].1
                                == total_for(next, totals@[i].0) by {
                                if i != at {
                                    assert(totals@[i] == before[i]);
                                    assert(before[i].0 == dates_of(seen)[i]);
                                    assert(before[at as int].0 == dates_of(seen)[at as int]);
                                }
                            }
                        }
                    },
                    None => {
                        proof {
                            assert(total_for(next, date) == totals@[at as int].1 + amount);
                            assert(!fits(total_for(entries@.take(n + 1), date)));
                        }
                        return None;
                    },
                }
            },
            None => {
                let ghost before = totals@;
                totals.push((date, amount));
                proof {
                    assert(!dates_of(seen).contains(date)) by {
                        if dates_of(seen).contains(date) {
                            let at = choose|at: int|
                                0 <= at < dates_of(seen).len() && dates_of(seen)[at] == date;
                            assert(before[at].0 == date);
                        }
                    }
                    assert(dates_of(next) == dates_of(seen).push(date));
                    assert forall|i: int| 0 <= i < totals@.len() implies (#[trigger] totals@[i]).0
                        == dates_of(next)[i] && totals@[i].1 == total_for(next, totals@[i].0) by {
                        if i < before.len() {
                            assert(totals@[i] == before[i]);
                            assert(before[i].0 == dates_of(seen)[i]);
                            assert(dates_of(seen).contains(before[i].0));
                        }
                    }
                }
            },
        }
        proof {
            assert forall|m: int, day: Date| 0 <= m <= n + 1 implies fits(
                #[trigger] total_for(entries@.take(m), day),
            ) by {
                if m == n + 1 {
                    if day == date {
                        lemma_dates_of(next, date);
                        assert(next[n as int].0 == date);
                        let line = choose|line: int|
                            0 <= line < dates_of(next).len() && dates_of(next)[line] == date;
                        assert(totals@[line].0 == date);
                    } else {
                        assert(total_for(next, day) == total_for(seen, day));
                    }
                }
            }
        }
        n += 1;
    }
    proof {
        assert(entries@.take(entries@.len() as int) =~= entries@);
    }
    Some(totals)
}

/// What is counted of an event.
#[derive(Debug, Clone, Copy, PartialEq, Eq, Structural)]
pub enum Measure {
    /// The food taken: breast milk and formula together.
    Volume,
    /// The milk pumped.
    Pumped,
    /// One for an event with urine.
    WetDiapers,
    /// One for an event with stool.
    PoopyDiapers,
}

impl Measure {
    /// The amount that `event` counts for.
    pub open spec fn amount(self, event: BabyEvent) -> int {
        match self {
            Measure::Volume => event.breastmilk + event.formula,
            Measure::Pumped => event.pump as int,
            Measure::WetDiapers => if event.urine {
                1
            } else {
                0
            },
            Measure::PoopyDiapers => if event.stool {
                1
            } else {
                0
            },
        }
    }

    /// The amount that `event` counts for, or `None` where it does not fit
    /// an `i32`.
    pub fn of(&self, event: &BabyEvent) -> (r: Option<i32>)
        ensures
            r is Some <==> fits(self.amount(*event)),
            r matches Some(amount) ==> amount == self.amount(*event),
    {
        match self {
            Measure::Volume => event.breastmilk.checked_add(event.formula),
            Measure::Pumped => Some(event.pump),
            Measure::WetDiapers => Some(
                if event.urine {
                    1
                } else {
                    0
                },
            ),
            Measure::PoopyDiapers => Some(
                if event.stool {
                    1
                } else {
                    0
                },
            ),
        }
    }
}

/// Whether each of `events` counts for an amount that fits an `i32`.
pub open spec fn amounts_fit(events: Seq<BabyEvent>, measure: Measure) -> bool {
    forall|i: int| 0 <= i < events.len() ==> fits(measure.amount(#[trigger] events[i]))
}

/// The day and the amount of each of `events`, in their order.
pub open spec fn daily_entries(events: Seq<BabyEvent>, measure: Measure) -> Seq<(Date, i32)> {
    Seq::new(
        events.len(),
        |i: int| (events[i].dt.spec_date(), measure.amount(events[i]) as i32),
    )
}

/// Whether the week of each of `entries` starts on a day that a date can
/// hold.
pub open spec fn weeks_exist(entries: Seq<(Date, i32)>) -> bool {
    forall|i: int| 0 <= i < entries.len() ==> (#[trigger] entries[i]).0.monday() is Some
}

/// The entries with each date replaced by the Monday of its week.
pub open spec fn weekly_entries(entries: Seq<(Date, i32)>) -> Seq<(Date, i32)> {
    Seq::new(entries.len(), |i: int| (entries[i].0.monday().unwrap(), entries[i].1))
}

/// The entries with each date replaced by the first day of its month.
pub open spec fn monthly_entries(entries: Seq<(Date, i32)>) -> Seq<(Date, i32)> {
    Seq::new(entries.len(), |i: int| (entries[i].0.first_of_month(), entries[i].1))
}

/// Adds up what `events` count for, day by day, the days in the order in
/// which they first occur. `None` where an amount or a sum does not fit an
/// `i32`.
pub fn daily_totals(events: &Vec<BabyEvent>, measure: Measure) -> (r: Option<Vec<(Date, i32)>>)
    ensures
        r is Some <==> amounts_fit(events@, measure) && sums_fit(daily_entries(events@, measure)),
        r matches Some(totals) ==> is_tally_of(totals@, daily_entries(events@, measure)),
{
    let mut entries: Vec<(Date, i32)> = Vec::new();
    let mut n: usize = 0;
    while n < events.len()
        invariant
            n <= events.len(),
            entries@ == daily_entries(events@.take(n as int), measure),
            amounts_fit(events@.take(n as int), measure),
        decreases events.len() - n,
    {
        match measure.of(&events[n]) {
            Some(amount) => {
                entries.push((events[n].dt.date(), amount));
            },
            None => {
                return None;
            },
        }
        proof {
            assert(entries@ =~= daily_entries(events@.take(n + 1), measure));
        }
        n += 1;
    }
    proof {
        assert(events@.take(events@.len() as int) =~= events@);
    }
    tally(&entries)
}

/// Adds up `daily` week by week. Each line of the result stands under the
/// Monday of a week, the weeks in the order in which they first occur.
/// `None` where a Monday lies outside the years that a date can hold, or a
/// sum does not fit an `i32`.
pub fn weekly_totals(daily: &Vec<(Date, i32)>) -> (r: Option<Vec<(Date, i32)>>)
    ensures
        r is Some <==> weeks_exist(daily@) && sums_fit(weekly_entries(daily@)),
        r matches Some(totals) ==> is_tally_of(totals@, weekly_entries(daily@)),
{
    let mut entries: Vec<(Date, i32)> = Vec::new();
    let mut n: usize = 0;
    while n < daily.len()
        invariant
            n <= daily.len(),
            entries@ == weekly_entries(daily@.take(n as int)),
            weeks_exist(daily@.take(n as int)),
        decreases daily.len() - n,
    {
        match daily[n].0.week_start() {
            Some(monday) => {
                entries.push((monday, daily[n].1));
            },
            None => {
                return None;
            },
        }
        proof {
            assert(entries@ =~= weekly_entries(daily@.take(n + 1)));
        }
        n += 1;
    }
    proof {
        assert(daily@.take(daily@.len() as int) =~= daily@);
    }
    tally(&entries)
}

/// Adds up `daily` month by month. Each line of the result stands under
/// the first day of a month, the months in the order in which they first
/// occur. `None` where a sum does not fit an `i32`.
pub fn monthly_totals(daily: &Vec<(Date, i32)>) -> (r: Option<Vec<(Date, i32)>>)
    ensures
        r is Some <==> sums_fit(monthly_entries(daily@)),
        r matches Some(totals) ==> is_tally_of(totals@, monthly_entries(daily@)),
{
    let mut entries: Vec<(Date, i32)> = Vec::new();
    let mut n: usize = 0;
    while n < daily.len()
        invariant
            n <= daily.len(),
            entries@ == monthly_entries(daily@.take(n as int)),
        decreases daily.len() - n,
    {
        entries.push((daily[n].0.month_start(), daily[n].1));
        proof {
            assert(entries@ =~= monthly_entries(daily@.take(n + 1)));
        }
        n += 1;
    }
    proof {
        assert(daily@.take(daily@.len() as int) =~= daily@);
    }
    tally(&entries)
}

/// The food taken on each day: breast milk and formula together.
pub fn calculate_daily_volume(events: Vec<BabyEvent>) -> (r: Option<Vec<(Date, i32)>>)
    ensures
        r is Some <==> amounts_fit(events@, Measure::Volume) && sums_fit(
            daily_entries(events@, Measure::Volume),
        ),
        r matches Some(totals) ==> is_tally_of(totals@, daily_entries(events@, Measure::Volume)),
{
    daily_totals(&events, Measure::Volume)
}

/// The food taken in each week, from the food taken on each day.
pub fn calculate_weekly_volume(daily_volume: Vec<(Date, i32)>) -> (r: Option<Vec<(Date, i32)>>)
    ensures
        r is Some <==> weeks_exist(daily_volume@) && sums_fit(weekly_entries(daily_volume@)),
        r matches Some(totals) ==> is_tally_of(totals@, weekly_entries(daily_volume@)),
{
    weekly_totals(&daily_volume)
}

/// The food taken in each month, from the food taken on each day.
pub fn calculate_monthly_volume(daily_volume: Vec<(Date, i32)>) -> (r: Option<Vec<(Date, i32)>>)
    ensures
        r is Some <==> sums_fit(monthly_entries(daily_volume@)),
        r matches Some(totals) ==> is_tally_of(totals@, monthly_entries(daily_volume@)),
{
    monthly_totals(&daily_volume)
}

/// The milk pumped on each day.
pub fn calculate_daily_pumped(events: Vec<BabyEvent>) -> (r: Option<Vec<(Date, i32)>>)
    ensures
        r is Some <==> sums_fit(daily_entries(events@, Measure::Pumped)),
        r matches Some(totals) ==> is_tally_of(totals@, daily_entries(events@, Measure::Pumped)),
{
    daily_totals(&events, Measure::Pumped)
}

/// The milk pumped in each week, from the milk pumped on each day.
pub fn calculate_weekly_pumped(daily_pumped: Vec<(Date, i32)>) -> (r: Option<Vec<(Date, i32)>>)
    ensures
        r is Some <==> weeks_exist(daily_pumped@) && sums_fit(weekly_entries(daily_pumped@)),
        r matches Some(totals) ==> is_tally_of(totals@, weekly_entries(daily_pumped@)),
{
    weekly_totals(&daily_pumped)
}

/// The milk pumped in each month, from the milk pumped on each day.
pub fn calculate_monthly_pumped(daily_pumped: Vec<(Date, i32)>) -> (r: Option<Vec<(Date, i32)>>)
    ensures
        r is Some <==> sums_fit(monthly_entries(daily_pumped@)),
        r matches Some(totals) ==> is_tally_of(totals@, monthly_entries(daily_pumped@)),
{
    monthly_totals(&daily_pumped)
}

/// The number of wet diapers on each day.
pub fn calculate_daily_wet_diapers(events: Vec<BabyEvent>) -> (r: Option<Vec<(Date, i32)>>)
    ensures
        r is Some <==> sums_fit(daily_entries(events@, Measure::WetDiapers)),
        r matches Some(totals) ==> is_tally_of(
            totals@,
            daily_entries(events@, Measure::WetDiapers),
        ),
{
    daily_totals(&events, Measure::WetDiapers)
}

/// The number of wet diapers in each week, from the number on each day.
pub fn calculate_weekly_wet_diapers(daily_wet_diapers: Vec<(Date, i32)>) -> (r: Option<
    Vec<(Date, i32)>,
>)
    ensures
        r is Some <==> weeks_exist(daily_wet_diapers@) && sums_fit(
            weekly_entries(daily_wet_diapers@),
        ),
        r matches Some(totals) ==> is_tally_of(totals@, weekly_entries(daily_wet_diapers@)),
{
    weekly_totals(&daily_wet_diapers)
}

/// The number of poopy diapers on each day.
pub fn calculate_daily_poopy_diapers(events: Vec<BabyEvent>) -> (r: Option<Vec<(Date, i32)>>)
    ensures
        r is Some <==> sums_fit(daily_entries(events@, Measure::PoopyDiapers)),
        r matches Some(totals) ==> is_tally_of(
            totals@,
            daily_entries(events@, Measure::PoopyDiapers),
        ),
{
    daily_totals(&events, Measure::PoopyDiapers)
}

/// The number of poopy diapers in each week, from the number on each day.
pub fn calculate_weekly_poopy_diapers(daily_poopy_diapers: Vec<(Date, i32)>) -> (r: Option<
    Vec<(Date, i32)>,
>)
    ensures
        r is Some <==> weeks_exist(daily_poopy_diapers@) && sums_fit(
            weekly_entries(daily_poopy_diapers@),
        ),
        r matches Some(totals) ==> is_tally_of(totals@, weekly_entries(daily_poopy_diapers@)),
{
    weekly_totals(&daily_poopy_diapers)
}

} // verus!
