//! Tests of what the screen needs, and of the event under the cursor.

use babyrs::date::Date;
use babyrs::models::BabyEvent;
use babyrs::terminal::state::AppState;
use babyrs::terminal::state::Filter;
use babyrs::terminal::state::SelectionCursor;
use babyrs::terminal::ui::check_size;
use babyrs::terminal::ui::SizeError;
use babyrs::terminal::ui::MIN_HEIGHT;
use babyrs::terminal::ui::MIN_WIDTH;

fn event_on(id: i32, day: u32) -> BabyEvent {
    BabyEvent {
        id,
        dt: Date::from_ymd_opt(2023, 9, day)
            .unwrap()
            .and_hms_opt(8, 0, 0)
            .unwrap(),
        urine: false,
        stool: false,
        skin2skin: 0,
        breastfeed: 0,
        breastmilk: 0,
        formula: 0,
        pump: 0,
    }
}

#[test]
fn least_size_of_the_terminal() {
    assert_eq!(MIN_WIDTH, 80);
    assert_eq!(MIN_HEIGHT, 24);
    assert_eq!(check_size(80, 24), Ok(()));
    assert_eq!(check_size(200, 60), Ok(()));
    assert_eq!(check_size(u16::MAX, u16::MAX), Ok(()));
}

#[test]
fn a_narrow_terminal_is_turned_down() {
    assert_eq!(check_size(79, 24), Err(SizeError::TooNarrow(79)));
    assert_eq!(check_size(0, 100), Err(SizeError::TooNarrow(0)));
    // the width is looked at first
    assert_eq!(check_size(52, 10), Err(SizeError::TooNarrow(52)));
}

#[test]
fn a_low_terminal_is_turned_down() {
    assert_eq!(check_size(80, 23), Err(SizeError::TooLow(23)));
    assert_eq!(check_size(300, 0), Err(SizeError::TooLow(0)));
}

#[test]
fn the_event_under_the_cursor() {
    let mut state = AppState::default();
    assert_eq!(state.selected_event(), None);

    state
        .load_events(vec![event_on(1, 4), event_on(2, 11), event_on(3, 11)])
        .unwrap();
    assert_eq!(state.selected_event(), None);

    state.increment_selection();
    assert_eq!(state.selected_event(), Some(event_on(2, 11)));
    state.increment_selection();
    assert_eq!(state.selected_event(), Some(event_on(3, 11)));
    state.increment_selection();
    assert_eq!(state.selected_event(), Some(event_on(2, 11)));
    state.unselect();
    assert_eq!(state.selected_event(), None);
}

#[test]
fn a_cursor_beyond_the_list_picks_nothing() {
    let mut state = AppState::Initialized {
        baby_events: vec![event_on(1, 4)],
        filter: Filter::Day(Date::from_ymd_opt(2023, 9, 4).unwrap()),
        filtered_events: vec![event_on(1, 4)],
        selection: SelectionCursor { index: Some(1) },
    };
    assert_eq!(state.selected_event(), None);
    state.decrement_selection();
    assert_eq!(state.selected_event(), Some(event_on(1, 4)));
}
