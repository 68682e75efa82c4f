//! The state of the dashboard: the loaded events, the time window that is
//! shown, the events inside that window, and the cursor on them.

use crate::date::lemma_timestamps_antisymmetric;
use crate::date::lemma_timestamps_comparable;
use crate::date::lemma_timestamps_transitive;
use crate::date::lemma_weeks_are_classes;
use crate::date::Date;
use crate::date::DateTime;
use crate::models::BabyEvent;
use vstd::prelude::*;
use vstd::string::StringExecFns;

verus! {

/// The time window that the event list is cut down to: the day, the week or
/// the month of an anchor date.
#[derive(Debug, PartialEq, Eq, Clone, Copy, Structural)]
pub enum Filter {
    /// The anchor date itself.
    Day(Date),
    /// The week of the anchor date, from Monday to Sunday.
    Week(Date),
    /// The calendar month of the anchor date.
    Month(Date),
}

impl Filter {
    /// The date that the window is laid around.
    pub open spec fn anchor(self) -> Date {
        match self {
            Filter::Day(date) => date,
            Filter::Week(date) => date,
            Filter::Month(date) => date,
        }
    }

    /// The next window in the order day, week, month, day, around the same
    /// anchor.
    pub open spec fn switched(self) -> Filter {
        match self {
            Filter::Day(date) => Filter::Week(date),
            Filter::Week(date) => Filter::Month(date),
            Filter::Month(date) => Filter::Day(date),
        }
    }

    /// The window after `n` switches.
    pub open spec fn switched_times(self, n: nat) -> Filter
        decreases n,
    {
        if n == 0 {
            self
        } else {
            self.switched_times((n - 1) as nat).switched()
        }
    }

    /// Whether `date` lies in the window. A day window holds its anchor and
    /// no other date; a week window holds the seven days from the Monday at
    /// or before its anchor; a month window holds the dates with the year
    /// and the month of its anchor.
    pub open spec fn matches(self, date: Date) -> bool {
        match self {
            Filter::Day(anchor) => date == anchor,
            Filter::Week(anchor) => anchor.week_has(date),
            Filter::Month(anchor) => anchor.month_has(date),
        }
    }

    /// Whether `event` happened inside the window.
    pub open spec fn admits(self, event: BabyEvent) -> bool {
        self.matches(event.dt.spec_date())
    }

    /// The name of the kind of window.
    pub open spec fn label(self) -> Seq<char> {
        match self {
            Filter::Day(_) => "Day"@,
            Filter::Week(_) => "Week"@,
            Filter::Month(_) => "Month"@,
        }
    }

    /// The next window in the order day, week, month, and day again, around
    /// the same anchor date.
    pub fn switch(&self) -> (next: Filter)
        ensures
            next == self.switched(),
            next.anchor() == self.anchor(),
    {
        match self {
            Filter::Day(date) => Filter::Week(*date),
            Filter::Week(date) => Filter::Month(*date),
            Filter::Month(date) => Filter::Day(*date),
        }
    }

    /// Whether `date` lies in the window.
    pub fn contains(&self, date: &Date) -> (r: bool)
        ensures
            r == self.matches(*date),
            *date == self.anchor() ==> r,
    {
        match self {
            Filter::Day(anchor) => *date == *anchor,
            Filter::Week(anchor) => anchor.same_week(date),
            Filter::Month(anchor) => anchor.same_month(date),
        }
    }

    /// The date that the window is laid around.
    pub fn anchor_date(&self) -> (date: Date)
        ensures
            date == self.anchor(),
    {
        match self {
            Filter::Day(date) => *date,
            Filter::Week(date) => *date,
            Filter::Month(date) => *date,
        }
    }

    /// The name of the kind of window: `Day`, `Week` or `Month`.
    pub fn to_string(&self) -> (s: String)
        ensures
            s@ == self.label(),
    {
        match self {
            Filter::Day(_) => String::from_str("Day"),
            Filter::Week(_) => String::from_str("Week"),
            Filter::Month(_) => String::from_str("Month"),
        }
    }
}

impl Default for Filter {
    /// The day window around the first of January 1970.
    fn default() -> (filter: Filter)
        ensures
            filter == Filter::Day(Date::epoch()),
    {
        Filter::Day(Date::default())
    }
}

/// Three switches lead back to the window they started from, and on the way
/// a day window becomes a week window, a week window a month window, and a
/// month window a day window, the anchor staying what it was.
pub proof fn lemma_switch_cycle(filter: Filter)
    ensures
        filter.switched().switched().switched() == filter,
        filter.switched().anchor() == filter.anchor(),
        filter is Day ==> filter.switched() is Week,
        filter is Week ==> filter.switched() is Month,
        filter is Month ==> filter.switched() is Day,
{
}

/// Whatever the number of switches, three more change nothing: the windows
/// come round with period three.
pub proof fn lemma_switch_period(filter: Filter, n: nat)
    ensures
        filter.switched_times(n + 3) == filter.switched_times(n),
        filter.switched_times(n) == filter.switched_times(n % 3),
        filter.switched_times(n).anchor() == filter.anchor(),
    decreases n,
{
    reveal_with_fuel(Filter::switched_times, 4);
    lemma_switch_cycle(filter.switched_times(n));
    if n >= 3 {
        lemma_switch_period(filter, (n - 3) as nat);
        assert((n - 3) % 3 == n % 3);
    } else if n > 0 {
        lemma_switch_period(filter, (n - 1) as nat);
    }
}

/// The day window of a date lies inside the week window and inside the month
/// window of that date.
pub proof fn lemma_day_within_week_and_month(anchor: Date, date: Date)
    requires
        Filter::Day(anchor).matches(date),
    ensures
        Filter::Week(anchor).matches(date),
        Filter::Month(anchor).matches(date),
{
    lemma_weeks_are_classes(anchor, date, date);
}

/// Two week windows whose anchors lie in one week hold the same dates.
pub proof fn lemma_week_of_any_anchor(a: Date, b: Date, date: Date)
    requires
        Filter::Week(a).matches(b),
    ensures
        Filter::Week(b).matches(a),
        Filter::Week(a).matches(date) == Filter::Week(b).matches(date),
{
    lemma_weeks_are_classes(a, b, date);
}

/// The events of `events` that `filter` admits, in their order.
pub open spec fn select_events(events: Seq<BabyEvent>, filter: Filter) -> Seq<BabyEvent> {
    events.filter(|event: BabyEvent| filter.admits(event))
}

/// Selecting from a list that grew by one event at its end: the event is
/// added to the selection if the filter admits it, and left out if not.
pub proof fn lemma_select_push(events: Seq<BabyEvent>, event: BabyEvent, filter: Filter)
    ensures
        select_events(events.push(event), filter) == if filter.admits(event) {
            select_events(events, filter).push(event)
        } else {
            select_events(events, filter)
        },
{
    reveal(Seq::filter);
    assert(events.push(event).drop_last() =~= events);
}

/// The selection keeps the order of the events: selecting from two lists put
/// end to end gives the two selections put end to end.
pub proof fn lemma_select_keeps_order(
    front: Seq<BabyEvent>,
    back: Seq<BabyEvent>,
    filter: Filter,
)
    ensures
        select_events(front + back, filter) == select_events(front, filter) + select_events(
            back,
            filter,
        ),
{
    Seq::filter_distributes_over_add(front, back, |event: BabyEvent| filter.admits(event));
}

/// The selection holds admitted events only, holds every admitted event of
/// the list, and is no longer than the list.
pub proof fn lemma_select_exact(events: Seq<BabyEvent>, filter: Filter)
    ensures
        forall|i: int|
            0 <= i < select_events(events, filter).len() ==> filter.admits(
                #[trigger] select_events(events, filter)[i],
            ),
        forall|i: int|
            0 <= i < select_events(events, filter).len() ==> events.contains(
                #[trigger] select_events(events, filter)[i],
            ),
        forall|i: int|
            0 <= i < events.len() && filter.admits(events[i]) ==> select_events(
                events,
                filter,
            ).contains(#[trigger] events[i]),
        select_events(events, filter).len() <= events.len(),
{
    let pred = |event: BabyEvent| filter.admits(event);
    events.lemma_filter_len(pred);
    assert forall|i: int| 0 <= i < events.filter(pred).len() implies filter.admits(
        #[trigger] events.filter(pred)[i],
    ) && events.contains(events.filter(pred)[i]) by {
        events.lemma_filter_pred(pred, i);
        lemma_select_from(events, filter, i);
    }
    assert forall|i: int| 0 <= i < events.len() && filter.admits(events[i]) implies events.filter(
        pred,
    ).contains(#[trigger] events[i]) by {
        events.lemma_filter_contains(pred, i);
    }
}

/// Each event of the selection is an event of the list.
proof fn lemma_select_from(events: Seq<BabyEvent>, filter: Filter, i: int)
    requires
        0 <= i < select_events(events, filter).len(),
    ensures
        events.contains(select_events(events, filter)[i]),
    decreases events.len(),
{
    reveal(Seq::filter);
    if events.len() > 0 {
        let front = events.drop_last();
        if i < select_events(front, filter).len() {
            lemma_select_from(front, filter, i);
            let j = choose|j: int| 0 <= j < front.len() && front[j] == select_events(front, filter)[i];
            assert(events[j] == select_events(events, filter)[i]);
        } else {
            assert(events[events.len() - 1] == select_events(events, filter)[i]);
        }
    }
}

/// The places in `events` of the events that `filter` admits, in rising
/// order.
pub open spec fn admitted_places(events: Seq<BabyEvent>, filter: Filter) -> Seq<int>
    decreases events.len(),
{
    if events.len() == 0 {
        Seq::empty()
    } else {
        let before = admitted_places(events.drop_last(), filter);
        if filter.admits(events.last()) {
            before.push(events.len() - 1)
        } else {
            before
        }
    }
}

/// The selection is a subsequence of the events: it holds, in rising order
/// of their places, the events at the places that the filter admits, and
/// those places are all the places of admitted events.
pub proof fn lemma_select_is_subsequence(events: Seq<BabyEvent>, filter: Filter)
    ensures
        select_events(events, filter).len() == admitted_places(events, filter).len(),
        forall|k: int|
            0 <= k < admitted_places(events, filter).len() ==> {
                let place = #[trigger] admitted_places(events, filter)[k];
                &&& 0 <= place < events.len()
                &&& filter.admits(events[place])
                &&& select_events(events, filter)[k] == events[place]
            },
        forall|k: int, l: int|
            0 <= k < l < admitted_places(events, filter).len() ==> admitted_places(
                events,
                filter,
            )[k] < admitted_places(events, filter)[l],
        forall|place: int|
            0 <= place < events.len() && filter.admits(#[trigger] events[place])
                ==> admitted_places(events, filter).contains(place),
    decreases events.len(),
{
    reveal(Seq::filter);
    if events.len() > 0 {
        let front = events.drop_last();
        lemma_select_is_subsequence(front, filter);
        let before = admitted_places(front, filter);
        let places = admitted_places(events, filter);
        assert forall|place: int|
            0 <= place < events.len() && filter.admits(
                #[trigger] events[place],
            ) implies places.contains(place) by {
            if place < front.len() {
                assert(filter.admits(front[place]));
                let k = choose|k: int| 0 <= k < before.len() && before[k] == place;
                assert(places[k] == place);
            } else {
                assert(places[places.len() - 1] == place);
            }
        }
    }
}

/// Cuts a list of events down to those that happened inside a window,
/// keeping their order.
pub fn filter_events(events: &Vec<BabyEvent>, filter: &Filter) -> (out: Vec<BabyEvent>)
    ensures
        out@ == select_events(events@, *filter),
{
    let mut out: Vec<BabyEvent> = Vec::new();
    let mut i: usize = 0;
    assert(events@.take(0) =~= Seq::<BabyEvent>::empty());
    proof {
        reveal(Seq::filter);
    }
    while i < events.len()
        invariant
            i <= events.len(),
            out@ == select_events(events@.take(i as int), *filter),
        decreases events.len() - i,
    {
        let event = events[i];
        proof {
            lemma_select_push(events@.take(i as int), event, *filter);
            assert(events@.take(i as int).push(event) =~= events@.take(i + 1));
        }
        let date = event.dt.date();
        if filter.contains(&date) {
            out.push(event);
        }
        i += 1;
    }
    assert(events@.take(events.len() as int) =~= events@);
    out
}

/// Whether `t` is the timestamp of one of `events` and none of them is
/// later.
pub open spec fn is_latest(events: Seq<BabyEvent>, t: DateTime) -> bool {
    &&& exists|i: int| 0 <= i < events.len() && #[trigger] events[i].dt == t
    &&& forall|j: int| 0 <= j < events.len() ==> (#[trigger] events[j]).dt.at_or_before(t)
}

/// The latest timestamp among `events`, where there is an event.
pub open spec fn latest(events: Seq<BabyEvent>) -> DateTime {
    choose|t: DateTime| is_latest(events, t)
}

/// A list of events has one latest timestamp at most.
pub proof fn lemma_latest_unique(events: Seq<BabyEvent>, a: DateTime, b: DateTime)
    requires
        is_latest(events, a),
        is_latest(events, b),
    ensures
        a == b,
        latest(events) == a,
{
    let i = choose|i: int| 0 <= i < events.len() && #[trigger] events[i].dt == a;
    let j = choose|j: int| 0 <= j < events.len() && #[trigger] events[j].dt == b;
    assert(events[i].dt.at_or_before(b));
    assert(events[j].dt.at_or_before(a));
    lemma_timestamps_antisymmetric(a, b);
    let c = latest(events);
    assert(is_latest(events, c));
    let k = choose|k: int| 0 <= k < events.len() && #[trigger] events[k].dt == c;
    assert(events[k].dt.at_or_before(a));
    assert(events[i].dt.at_or_before(c));
    lemma_timestamps_antisymmetric(a, c);
}

/// Finds the latest timestamp among `events`, whatever their order. There
/// is none where there is no event.
pub fn latest_timestamp(events: &Vec<BabyEvent>) -> (r: Option<DateTime>)
    ensures
        r is None <==> events@.len() == 0,
        r matches Some(t) ==> is_latest(events@, t) && t == latest(events@),
{
    if events.len() == 0 {
        return None;
    }
    let mut best: DateTime = events[0].dt;
    let mut i: usize = 1;
    while i < events.len()
        invariant
            1 <= i <= events.len(),
            exists|k: int| 0 <= k < i && #[trigger] events@[k].dt == best,
            forall|j: int| 0 <= j < i ==> (#[trigger] events@[j]).dt.at_or_before(best),
        decreases events.len() - i,
    {
        let candidate = events[i].dt;
        if !candidate.is_at_or_before(&best) {
            proof {
                lemma_timestamps_comparable(candidate, best);
                assert forall|j: int| 0 <= j < i + 1 implies (#[trigger] events@[j]).dt.at_or_before(
                    candidate,
                ) by {
                    if j < i {
                        lemma_timestamps_transitive(events@[j].dt, best, candidate);
                    }
                }
            }
            best = candidate;
        }
        i += 1;
    }
    proof {
        lemma_latest_unique(events@, best, best);
    }
    Some(best)
}

/// The cursor on a list: the index of the entry that is picked out, or none.
#[derive(Debug, Clone, Copy, PartialEq, Eq, Structural)]
pub struct SelectionCursor {
    /// The index of the entry that is picked out.
    pub index: Option<usize>,
}

/// Where the cursor stands after a step forward on a list of `len` entries:
/// nowhere on an empty list, on the first entry where it stood nowhere, else
/// on the next entry, and from the last entry on the first again.
pub open spec fn step_forward(index: Option<usize>, len: int) -> Option<usize> {
    if len <= 0 {
        None
    } else {
        match index {
            None => Some(0),
            Some(i) => Some(((i + 1) % len) as usize),
        }
    }
}

/// Where the cursor stands after a step back on a list of `len` entries:
/// nowhere on an empty list, on the first entry where it stood nowhere, else
/// on the entry before, and from the first entry on the last.
pub open spec fn step_back(index: Option<usize>, len: int) -> Option<usize> {
    if len <= 0 {
        None
    } else {
        match index {
            None => Some(0),
            Some(i) => if i == 0 {
                Some((len - 1) as usize)
            } else {
                Some((i - 1) as usize)
            },
        }
    }
}

/// Whether a cursor position is one of a list of `len` entries, or none.
pub open spec fn index_within(index: Option<usize>, len: int) -> bool {
    index matches Some(i) ==> i < len
}

impl SelectionCursor {
    /// Whether the cursor stands on an entry of a list of `len` entries, or
    /// nowhere.
    pub open spec fn within(self, len: int) -> bool {
        index_within(self.index, len)
    }

    /// Puts the cursor on `index`, or nowhere.
    pub fn select(&mut self, index: Option<usize>)
        ensures
            final(self).index == index,
    {
        self.index = index;
    }

    /// Where the cursor stands.
    pub fn selected(&self) -> (index: Option<usize>)
        ensures
            index == self.index,
    {
        self.index
    }

    /// Moves the cursor one entry forward on a list of `len` entries, from
    /// the last entry to the first.
    pub fn increment(&mut self, len: usize)
        ensures
            final(self).index == step_forward(old(self).index, len as int),
            final(self).within(len as int),
            len == 0 ==> final(self).index is None,
    {
        if len == 0 {
            self.index = None;
        } else {
            let next: usize = match self.index {
                Some(i) => {
                    let at: usize = i % len;
                    assert((i + 1) % (len as int) == if at + 1 == len {
                        0
                    } else {
                        at + 1
                    }) by (nonlinear_arith)
                        requires
                            at == i % len,
                            len > 0,
                    ;
                    if at + 1 == len {
                        0
                    } else {
                        at + 1
                    }
                },
                None => 0,
            };
            self.index = Some(next);
        }
    }

    /// Moves the cursor one entry back on a list of `len` entries, from the
    /// first entry to the last.
    pub fn decrement(&mut self, len: usize)
        ensures
            final(self).index == step_back(old(self).index, len as int),
            old(self).within(len as int) ==> final(self).within(len as int),
            len == 0 ==> final(self).index is None,
    {
        if len == 0 {
            self.index = None;
        } else {
            let next: usize = match self.index {
                Some(i) => {
                    if i == 0 {
                        len - 1
                    } else {
                        i - 1
                    }
                },
                None => 0,
            };
            self.index = Some(next);
        }
    }

    /// Takes the cursor off the list.
    pub fn unselect(&mut self)
        ensures
            final(self).index is None,
    {
        self.index = None;
    }
}

impl Default for SelectionCursor {
    /// The cursor that stands nowhere.
    fn default() -> (cursor: SelectionCursor)
        ensures
            cursor.index is None,
    {
        SelectionCursor { index: None }
    }
}

/// On a list with entries a step forward from nowhere leads to the first
/// entry, a step forward from the last entry leads to the first, and any
/// other step forward leads to the next entry.
pub proof fn lemma_step_forward(index: Option<usize>, len: int)
    requires
        len > 0,
        index_within(index, len),
    ensures
        index is None ==> step_forward(index, len) == Some(0usize),
        index matches Some(i) ==> (i == len - 1 ==> step_forward(index, len) == Some(0usize)),
        index matches Some(i) ==> (i < len - 1 ==> step_forward(index, len) == Some(
            (i + 1) as usize,
        )),
        index_within(step_forward(index, len), len),
{
    if let Some(i) = index {
        if i == len - 1 {
            assert((i + 1) % len == 0) by (nonlinear_arith)
                requires
                    i + 1 == len,
                    len > 0,
            ;
        } else {
            assert((i + 1) % len == i + 1) by (nonlinear_arith)
                requires
                    0 <= i + 1 < len,
            ;
        }
    }
}

/// On a list with entries a step back from nowhere leads to the first entry,
/// a step back from the first entry leads to the last, and any other step
/// back leads to the entry before.
pub proof fn lemma_step_back(index: Option<usize>, len: int)
    requires
        len > 0,
        index_within(index, len),
    ensures
        index is None ==> step_back(index, len) == Some(0usize),
        index == Some(0usize) ==> step_back(index, len) == Some((len - 1) as usize),
        index matches Some(i) ==> (i > 0 ==> step_back(index, len) == Some((i - 1) as usize)),
        index_within(step_back(index, len), len),
{
}

/// On an empty list every step leaves the cursor nowhere.
pub proof fn lemma_step_on_empty(index: Option<usize>)
    ensures
        step_forward(index, 0) is None,
        step_back(index, 0) is None,
{
}

/// On a list with entries a step forward and a step back undo each other,
/// once the cursor stands on an entry.
pub proof fn lemma_steps_undo(i: usize, len: int)
    requires
        0 <= i < len,
        len <= usize::MAX,
    ensures
        step_back(step_forward(Some(i), len), len) == Some(i),
        step_forward(step_back(Some(i), len), len) == Some(i),
{
    lemma_step_forward(Some(i), len);
    lemma_step_back(Some(i), len);
    lemma_step_forward(step_back(Some(i), len), len);
    lemma_step_back(step_forward(Some(i), len), len);
}

/// Why a load was turned down.
#[derive(Debug, Clone, Copy, PartialEq, Eq, Structural)]
pub enum LoadError {
    /// There was no event to load, and so no latest date to start from.
    EmptySource,
}

/// The state of the dashboard.
#[derive(Debug)]
pub enum AppState {
    /// Nothing has been set up yet.
    Init,
    /// The dashboard is running.
    Initialized {
        /// Every event that was loaded, in the order of loading.
        baby_events: Vec<BabyEvent>,
        /// The time window that is shown.
        filter: Filter,
        /// The events inside the window, in the order of loading.
        filtered_events: Vec<BabyEvent>,
        /// The cursor on the events inside the window.
        selection: SelectionCursor,
    },
}

/// The state of the dashboard as a value of mathematics.
pub enum AppStateView {
    /// Nothing has been set up yet.
    Init,
    /// The dashboard is running.
    Initialized {
        events: Seq<BabyEvent>,
        filter: Filter,
        filtered: Seq<BabyEvent>,
        selection: Option<usize>,
    },
}

impl View for AppState {
    type V = AppStateView;

    open spec fn view(&self) -> AppStateView {
        match *self {
            AppState::Init => AppStateView::Init,
            AppState::Initialized { baby_events, filter, filtered_events, selection } => {
                AppStateView::Initialized {
                    events: baby_events@,
                    filter,
                    filtered: filtered_events@,
                    selection: selection.index,
                }
            },
        }
    }
}

impl AppStateView {
    /// Whether the state is consistent: the events inside the window are
    /// those of the loaded events that the filter admits, in their order,
    /// and the cursor stands on one of them or nowhere.
    pub open spec fn wf(self) -> bool {
        match self {
            AppStateView::Init => true,
            AppStateView::Initialized { events, filter, filtered, selection } => {
                &&& filtered == select_events(events, filter)
                &&& index_within(selection, filtered.len() as int)
            },
        }
    }

    /// The running state that shows `events` through `filter`, the cursor
    /// nowhere.
    pub open spec fn showing(events: Seq<BabyEvent>, filter: Filter) -> AppStateView {
        AppStateView::Initialized {
            events,
            filter,
            filtered: select_events(events, filter),
            selection: None,
        }
    }

    /// The running state without events.
    pub open spec fn blank() -> AppStateView {
        AppStateView::showing(Seq::empty(), Filter::Day(Date::epoch()))
    }

    /// The state after `events` were loaded: it shows the day of the latest
    /// of them.
    pub open spec fn loaded(events: Seq<BabyEvent>) -> AppStateView {
        AppStateView::showing(events, Filter::Day(latest(events).spec_date()))
    }

    /// The state after a switch of the filter.
    pub open spec fn switched(self) -> AppStateView {
        match self {
            AppStateView::Init => self,
            AppStateView::Initialized { events, filter, .. } => AppStateView::showing(
                events,
                filter.switched(),
            ),
        }
    }

    /// The state after `n` switches of the filter.
    pub open spec fn switched_times(self, n: nat) -> AppStateView
        decreases n,
    {
        if n == 0 {
            self
        } else {
            self.switched_times((n - 1) as nat).switched()
        }
    }

    /// The state with the cursor put on `index`.
    pub open spec fn with_selection(self, index: Option<usize>) -> AppStateView {
        match self {
            AppStateView::Init => self,
            AppStateView::Initialized { events, filter, filtered, .. } => {
                AppStateView::Initialized { events, filter, filtered, selection: index }
            },
        }
    }

    /// The event that the cursor stands on, if it stands on one.
    pub open spec fn picked(self) -> Option<BabyEvent> {
        match self {
            AppStateView::Init => None,
            AppStateView::Initialized { filtered, selection, .. } => match selection {
                Some(i) => if i < filtered.len() {
                    Some(filtered[i as int])
                } else {
                    None
                },
                None => None,
            },
        }
    }

    /// The state after the cursor moved one entry forward.
    pub open spec fn selected_next(self) -> AppStateView {
        match self {
            AppStateView::Init => self,
            AppStateView::Initialized { filtered, selection, .. } => self.with_selection(
                step_forward(selection, filtered.len() as int),
            ),
        }
    }

    /// The state after the cursor moved one entry back.
    pub open spec fn selected_previous(self) -> AppStateView {
        match self {
            AppStateView::Init => self,
            AppStateView::Initialized { filtered, selection, .. } => self.with_selection(
                step_back(selection, filtered.len() as int),
            ),
        }
    }
}

impl AppState {
    /// The running state without events: it shows the first of January
    /// 1970, and the cursor stands nowhere.
    pub fn initialized() -> (state: AppState)
        ensures
            state@ == AppStateView::blank(),
            state@.wf(),
            state@ matches AppStateView::Initialized { events, filtered, .. } && events.len() == 0
                && filtered.len() == 0,
    {
        let state = AppState::Initialized {
            baby_events: Vec::new(),
            filter: Filter::default(),
            filtered_events: Vec::new(),
            selection: SelectionCursor::default(),
        };
        proof {
            reveal(Seq::filter);
            assert(state@ == AppStateView::blank());
        }
        state
    }

    /// Whether the dashboard is running.
    pub fn is_initialized(&self) -> (r: bool)
        ensures
            r == (self@ is Initialized),
    {
        match self {
            AppState::Initialized { .. } => true,
            AppState::Init => false,
        }
    }

    /// Takes over `events` as the loaded events, whatever the state was, and
    /// shows the day of the latest of them, the cursor nowhere. The events
    /// need not be in order. An empty list is turned down, and the state
    /// stays what it was.
    pub fn load_events(&mut self, events: Vec<BabyEvent>) -> (r: Result<(), LoadError>)
        ensures
            events@.len() == 0 ==> r == Err::<(), LoadError>(LoadError::EmptySource) && *final(self)
                == *old(self),
            events@.len() > 0 ==> r is Ok && final(self)@ == AppStateView::loaded(events@),
            events@.len() > 0 ==> is_latest(events@, latest(events@)),
            old(self)@.wf() ==> final(self)@.wf(),
            r is Ok ==> final(self)@.wf(),
    {
        match latest_timestamp(&events) {
            None => Err(LoadError::EmptySource),
            Some(t) => {
                let filter = Filter::Day(t.date());
                let filtered_events = filter_events(&events, &filter);
                *self = AppState::Initialized {
                    baby_events: events,
                    filter,
                    filtered_events,
                    selection: SelectionCursor::default(),
                };
                Ok(())
            },
        }
    }

    /// The loaded events, once the dashboard is running.
    pub fn get_events(&self) -> (r: Option<&Vec<BabyEvent>>)
        ensures
            match self@ {
                AppStateView::Init => r is None,
                AppStateView::Initialized { events, .. } => r matches Some(v) && v@ == events,
            },
    {
        match self {
            AppState::Initialized { baby_events, .. } => Some(baby_events),
            AppState::Init => None,
        }
    }

    /// The filter, once the dashboard is running.
    pub fn get_filter(&self) -> (r: Option<&Filter>)
        ensures
            match self@ {
                AppStateView::Init => r is None,
                AppStateView::Initialized { filter, .. } => r == Some(&filter),
            },
    {
        match self {
            AppState::Initialized { filter, .. } => Some(filter),
            AppState::Init => None,
        }
    }

    /// Moves the filter on to the next kind of window, selects the loaded
    /// events anew and takes the cursor off the list. Does nothing before
    /// the dashboard is running.
    pub fn switch_filter(&mut self)
        ensures
            final(self)@ == old(self)@.switched(),
            final(self)@.wf(),
            old(self)@ is Init ==> *final(self) == *old(self),
    {
        match self {
            AppState::Initialized { baby_events, filter, filtered_events, selection } => {
                *filter = filter.switch();
                *filtered_events = filter_events(baby_events, filter);
                *selection = SelectionCursor::default();
            },
            AppState::Init => {},
        }
    }

    /// The events inside the window, once the dashboard is running.
    pub fn get_filtered_events(&self) -> (r: Option<&Vec<BabyEvent>>)
        ensures
            match self@ {
                AppStateView::Init => r is None,
                AppStateView::Initialized { filtered, .. } => r matches Some(v) && v@ == filtered,
            },
    {
        match self {
            AppState::Initialized { filtered_events, .. } => Some(filtered_events),
            AppState::Init => None,
        }
    }

    /// The cursor, once the dashboard is running. The state stays what it
    /// is: the cursor is moved by the commands of the state alone.
    pub fn get_selection(&self) -> (r: Option<&SelectionCursor>)
        ensures
            match self@ {
                AppStateView::Init => r is None,
                AppStateView::Initialized { selection, .. } => r matches Some(cursor)
                    && cursor.index == selection,
            },
    {
        match self {
            AppState::Initialized { selection, .. } => Some(selection),
            AppState::Init => None,
        }
    }

    /// Where the cursor stands, once the dashboard is running.
    pub fn selected(&self) -> (r: Option<usize>)
        ensures
            match self@ {
                AppStateView::Init => r is None,
                AppStateView::Initialized { selection, .. } => r == selection,
            },
    {
        match self {
            AppState::Initialized { selection, .. } => selection.selected(),
            AppState::Init => None,
        }
    }

    /// The event that the cursor stands on, where it stands on one of the
    /// events inside the window.
    pub fn selected_event(&self) -> (r: Option<BabyEvent>)
        ensures
            r == self@.picked(),
    {
        match self {
            AppState::Initialized { filtered_events, selection, .. } => {
                match selection.selected() {
                    Some(i) => {
                        if i < filtered_events.len() {
                            Some(filtered_events[i])
                        } else {
                            None
                        }
                    },
                    None => None,
                }
            },
            AppState::Init => None,
        }
    }

    /// Moves the cursor to the next event inside the window, and from the
    /// last to the first. Does nothing before the dashboard is running.
    pub fn increment_selection(&mut self)
        ensures
            final(self)@ == old(self)@.selected_next(),
            old(self)@.wf() ==> final(self)@.wf(),
            old(self)@ is Init ==> *final(self) == *old(self),
    {
        match self {
            AppState::Initialized { filtered_events, selection, .. } => {
                selection.increment(filtered_events.len());
            },
            AppState::Init => {},
        }
    }

    /// Moves the cursor to the event before, and from the first to the
    /// last. Does nothing before the dashboard is running.
    pub fn decrement_selection(&mut self)
        ensures
            final(self)@ == old(self)@.selected_previous(),
            old(self)@.wf() ==> final(self)@.wf(),
            old(self)@ is Init ==> *final(self) == *old(self),
    {
        match self {
            AppState::Initialized { filtered_events, selection, .. } => {
                selection.decrement(filtered_events.len());
            },
            AppState::Init => {},
        }
    }

    /// Takes the cursor off the list. Does nothing before the dashboard is
    /// running.
    pub fn unselect(&mut self)
        ensures
            final(self)@ == old(self)@.with_selection(None),
            old(self)@.wf() ==> final(self)@.wf(),
            old(self)@ is Init ==> *final(self) == *old(self),
    {
        match self {
            AppState::Initialized { selection, .. } => {
                selection.unselect();
            },
            AppState::Init => {},
        }
    }
}

impl Default for AppState {
    /// The state in which nothing has been set up.
    fn default() -> (state: AppState)
        ensures
            state@ is Init,
    {
        AppState::Init
    }
}

/// After any number of switches a running state still holds the events it
/// held, shows them through the filter switched that many times, and is
/// consistent; after one switch or more the cursor stands nowhere.
pub proof fn lemma_switches(state: AppStateView, n: nat)
    requires
        state is Initialized,
    ensures
        state.switched_times(n) is Initialized,
        state.switched_times(n)->events == state->events,
        state.switched_times(n)->filter == state->filter.switched_times(n),
        n > 0 ==> state.switched_times(n) == AppStateView::showing(
            state->events,
            state->filter.switched_times(n),
        ),
        n > 0 ==> state.switched_times(n)->selection is None,
        n > 0 ==> state.switched_times(n).wf(),
    decreases n,
{
    if n > 0 {
        lemma_switches(state, (n - 1) as nat);
    }
}

/// Switching comes round with period three: after three switches a running
/// state shows what it showed, and a state that came out of a switch or a
/// load is the same state again.
pub proof fn lemma_switches_period(state: AppStateView, n: nat)
    requires
        state is Initialized,
    ensures
        state.switched_times(n + 3)->filter == state.switched_times(n)->filter,
        state.switched_times(n + 3)->filtered == select_events(
            state->events,
            state.switched_times(n)->filter,
        ),
        n > 0 ==> state.switched_times(n + 3) == state.switched_times(n),
{
    lemma_switches(state, n);
    lemma_switches(state, n + 3);
    lemma_switch_period(state->filter, n);
}

/// Before the dashboard is running no command but a load changes anything.
pub proof fn lemma_idle_before_load(state: AppStateView)
    requires
        state is Init,
    ensures
        state.switched() == state,
        state.selected_next() == state,
        state.selected_previous() == state,
        state.with_selection(None) == state,
{
}

/// Every command keeps a consistent state consistent, and on an empty
/// window every move of the cursor leaves it nowhere.
pub proof fn lemma_commands_keep_consistency(state: AppStateView)
    requires
        state.wf(),
    ensures
        state.switched().wf(),
        state.selected_next().wf(),
        state.selected_previous().wf(),
        state.with_selection(None).wf(),
        state matches AppStateView::Initialized { filtered, .. } ==> (filtered.len() == 0 ==> {
            &&& state.selected_next()->selection is None
            &&& state.selected_previous()->selection is None
        }),
{
    if let AppStateView::Initialized { filtered, selection, .. } = state {
        if filtered.len() > 0 {
            lemma_step_forward(selection, filtered.len() as int);
            lemma_step_back(selection, filtered.len() as int);
        }
    }
}

} // verus!
