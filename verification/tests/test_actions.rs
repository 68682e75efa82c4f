//! Tests of the actions, the action table and the application.

use babyrs::date::Date;
use babyrs::models::BabyEvent;
use babyrs::terminal::app::common_key;
use babyrs::terminal::app::find_conflict;
use babyrs::terminal::app::Action;
use babyrs::terminal::app::Actions;
use babyrs::terminal::app::App;
use babyrs::terminal::app::AppReturn;
use babyrs::terminal::app::KeyConflict;
use babyrs::terminal::events::InputEvent;
use babyrs::terminal::events::Key;
use babyrs::terminal::state::Filter;

fn all_actions() -> Vec<Action> {
    vec![
        Action::AddEvent,
        Action::DeleteEvent,
        Action::UpdateEvent,
        Action::NextEvent,
        Action::PreviousEvent,
        Action::SwitchFilter,
        Action::LoadCSV,
        Action::Quit,
    ]
}

fn event_on(id: i32, year: i32, month: u32, day: u32) -> BabyEvent {
    BabyEvent {
        id,
        dt: Date::from_ymd_opt(year, month, day)
            .unwrap()
            .and_hms_opt(8, 0, 0)
            .unwrap(),
        urine: false,
        stool: false,
        skin2skin: 0,
        breastfeed: 0,
        breastmilk: 0,
        formula: 0,
        pump: 0,
    }
}

fn september_events() -> Vec<BabyEvent> {
    vec![
        event_on(1, 2023, 9, 4),
        event_on(2, 2023, 9, 5),
        event_on(3, 2023, 9, 6),
        event_on(4, 2023, 9, 11),
    ]
}

#[test]
fn find_quit_by_either_key() {
    let actions = Actions::from(vec![Action::Quit]).unwrap();
    assert_eq!(actions.find(Key::Char('q')), Some(&Action::Quit));
    assert_eq!(actions.find(Key::Ctrl('c')), Some(&Action::Quit));
    assert_eq!(actions.find(Key::Char('x')), None);
    assert_eq!(actions.find(Key::Esc), None);
    assert_eq!(actions.find(Key::Alt('q')), None);
}

#[test]
fn iterator_gives_every_action_in_menu_order() {
    let all: Vec<Action> = Action::iterator().copied().collect();
    assert_eq!(all, all_actions());
    assert_eq!(Action::list(), all_actions().as_slice());
    assert_eq!(Action::iterator().count(), 8);
}

#[test]
fn keys_of_each_action() {
    assert_eq!(Action::AddEvent.keys(), &[Key::Char('a')]);
    assert_eq!(Action::DeleteEvent.keys(), &[Key::Char('d')]);
    assert_eq!(Action::NextEvent.keys(), &[Key::Down]);
    assert_eq!(Action::PreviousEvent.keys(), &[Key::Up]);
    assert_eq!(Action::SwitchFilter.keys(), &[Key::Char('f')]);
    assert_eq!(Action::LoadCSV.keys(), &[Key::Char('l')]);
    assert_eq!(Action::UpdateEvent.keys(), &[Key::Char('u')]);
    assert_eq!(Action::Quit.keys(), &[Key::Char('q'), Key::Ctrl('c')]);
}

#[test]
fn names_of_each_action() {
    assert_eq!(Action::AddEvent.to_string(), "add");
    assert_eq!(Action::DeleteEvent.to_string(), "delete");
    assert_eq!(Action::NextEvent.to_string(), "next");
    assert_eq!(Action::PreviousEvent.to_string(), "prev");
    assert_eq!(Action::SwitchFilter.to_string(), "switch filter");
    assert_eq!(Action::LoadCSV.to_string(), "load csv");
    assert_eq!(Action::UpdateEvent.to_string(), "update");
    assert_eq!(Action::Quit.to_string(), "quit");
}

#[test]
fn every_key_finds_its_action() {
    let actions = Actions::from(all_actions()).unwrap();
    for action in Action::iterator() {
        for key in action.keys() {
            assert_eq!(actions.find(*key), Some(action));
        }
    }
    assert_eq!(actions.find(Key::Enter), None);
    assert_eq!(actions.find(Key::Char('z')), None);
    assert_eq!(actions.find(Key::Ctrl('q')), None);
    assert_eq!(actions.find(Key::Unknown), None);
}

#[test]
fn a_key_of_a_disabled_action_finds_nothing() {
    let actions = Actions::from(vec![Action::Quit, Action::NextEvent]).unwrap();
    assert_eq!(actions.find(Key::Down), Some(&Action::NextEvent));
    assert_eq!(actions.find(Key::Up), None);
    assert_eq!(actions.find(Key::Char('f')), None);
    let none = Actions::default();
    assert_eq!(none.find(Key::Char('q')), None);
    assert!(none.actions().is_empty());
}

#[test]
fn actions_keep_their_order() {
    let list = vec![Action::Quit, Action::SwitchFilter, Action::AddEvent];
    let actions = Actions::from(list.clone()).unwrap();
    assert_eq!(actions.actions(), list.as_slice());
    assert_eq!(actions.clone().actions(), list.as_slice());
    assert_eq!(Actions::all().actions(), all_actions().as_slice());
    assert!(Actions::from(Vec::new()).unwrap().actions().is_empty());
}

#[test]
fn shared_trigger_key_is_turned_down() {
    // two different actions that one key would trigger
    let quit: &[Key] = &[Key::Char('q'), Key::Ctrl('c')];
    let add: &[Key] = &[Key::Char('a'), Key::Ctrl('c')];
    let next: &[Key] = &[Key::Down];
    let table = vec![(Action::Quit, quit), (Action::NextEvent, next), (Action::AddEvent, add)];
    let conflict = find_conflict(&table).unwrap();
    assert_eq!(
        conflict,
        KeyConflict {
            key: Key::Ctrl('c'),
            first: Action::Quit,
            second: Action::AddEvent
        }
    );
    assert_eq!(
        conflict.to_string(),
        "Conflict key <Ctrl+c> with actions quit, add"
    );
}

#[test]
fn the_first_conflict_is_named() {
    let a: &[Key] = &[Key::Char('a'), Key::Char('x')];
    let b: &[Key] = &[Key::Char('b')];
    let c: &[Key] = &[Key::Char('b'), Key::Char('x'), Key::Char('a')];
    let d: &[Key] = &[Key::Char('x')];
    // the later entry that comes first decides, then the earlier entry,
    // then the order of the earlier entry's keys
    let table = vec![
        (Action::AddEvent, a),
        (Action::DeleteEvent, b),
        (Action::UpdateEvent, c),
        (Action::Quit, d),
    ];
    assert_eq!(
        find_conflict(&table),
        Some(KeyConflict {
            key: Key::Char('a'),
            first: Action::AddEvent,
            second: Action::UpdateEvent
        })
    );
    let table = vec![(Action::DeleteEvent, b), (Action::Quit, d), (Action::UpdateEvent, c)];
    assert_eq!(
        find_conflict(&table),
        Some(KeyConflict {
            key: Key::Char('b'),
            first: Action::DeleteEvent,
            second: Action::UpdateEvent
        })
    );
}

#[test]
fn a_table_without_a_shared_key_has_no_conflict() {
    let a: &[Key] = &[Key::Char('a'), Key::Char('x')];
    let b: &[Key] = &[Key::Char('b')];
    let none: &[Key] = &[];
    assert_eq!(find_conflict(&Vec::new()), None);
    assert_eq!(find_conflict(&vec![(Action::AddEvent, a)]), None);
    assert_eq!(
        find_conflict(&vec![(Action::AddEvent, a), (Action::Quit, b), (Action::NextEvent, none)]),
        None
    );
    // an action that stands twice is in no conflict with itself
    assert_eq!(
        find_conflict(&vec![(Action::AddEvent, a), (Action::Quit, b), (Action::AddEvent, a)]),
        None
    );
}

#[test]
fn the_first_common_key_of_two_key_sets() {
    let mine = [Key::Char('q'), Key::Ctrl('c'), Key::Esc];
    assert_eq!(common_key(&mine, &[Key::Esc, Key::Ctrl('c')]), Some(Key::Ctrl('c')));
    assert_eq!(common_key(&mine, &[Key::Esc]), Some(Key::Esc));
    assert_eq!(common_key(&mine, &[Key::Char('c'), Key::Ctrl('q')]), None);
    assert_eq!(common_key(&mine, &[]), None);
    assert_eq!(common_key(&[], &mine), None);
}

#[test]
fn every_list_of_actions_makes_a_table() {
    // no key is bound to two different actions, so no list is ambiguous
    assert!(Actions::from(all_actions()).is_ok());
    assert!(Actions::from(Vec::new()).is_ok());
    let twice = vec![Action::Quit, Action::SwitchFilter, Action::Quit];
    let actions = Actions::from(twice.clone()).unwrap();
    assert_eq!(actions.actions(), twice.as_slice());
    assert_eq!(actions.find(Key::Char('q')), Some(&Action::Quit));
    assert_eq!(actions.find(Key::Char('f')), Some(&Action::SwitchFilter));
    for first in Action::iterator() {
        for second in Action::iterator() {
            if first != second {
                assert_eq!(common_key(first.keys(), second.keys()), None);
            }
        }
    }
}

#[test]
fn a_new_app_has_every_action_and_no_state() {
    let app = App::new();
    assert_eq!(app.actions().actions(), all_actions().as_slice());
    assert!(!app.state().is_initialized());
    assert!(!app.state.is_initialized());
}

#[test]
fn quit_keys_end_the_run() {
    let mut app = App::new();
    assert_eq!(app.do_action(Key::Char('q')), AppReturn::Exit);
    assert_eq!(app.do_action(Key::Ctrl('c')), AppReturn::Exit);
    assert_eq!(app.do_action(Key::Esc), AppReturn::Continue);
    assert_eq!(app.do_action(Key::Char('x')), AppReturn::Continue);
    assert_eq!(app.handle_event(InputEvent::Input(Key::Char('q'))), AppReturn::Exit);
    assert_eq!(app.handle_event(InputEvent::Tick), AppReturn::Continue);
    assert_eq!(app.update_tick(), AppReturn::Continue);

    let mut quiet = App {
        actions: Actions::from(vec![Action::NextEvent]).unwrap(),
        state: Default::default(),
    };
    assert_eq!(quiet.do_action(Key::Char('q')), AppReturn::Continue);
}

#[test]
fn keys_before_setup_change_nothing() {
    let mut app = App::new();
    for key in [Key::Down, Key::Up, Key::Char('f'), Key::Char('a'), Key::Char('q')] {
        app.do_action(key);
        assert!(!app.state.is_initialized());
    }
    assert_eq!(app.initialize(), AppReturn::Continue);
    assert!(app.state.is_initialized());
    assert!(app.state.get_events().unwrap().is_empty());
    assert_eq!(app.load_events(Vec::new()), AppReturn::Continue);
    assert!(app.state.get_events().unwrap().is_empty());
}

#[test]
fn keys_move_the_cursor_and_the_filter() {
    let mut app = App::new();
    assert_eq!(app.load_events(september_events()), AppReturn::Continue);
    let anchor = Date::from_ymd_opt(2023, 9, 11).unwrap();
    assert_eq!(app.state.get_filter(), Some(&Filter::Day(anchor)));

    assert_eq!(app.do_action(Key::Down), AppReturn::Continue);
    assert_eq!(app.state.selected(), Some(0));
    assert_eq!(app.do_action(Key::Down), AppReturn::Continue);
    assert_eq!(app.state.selected(), Some(0));

    assert_eq!(app.do_action(Key::Char('f')), AppReturn::Continue);
    assert_eq!(app.state.get_filter(), Some(&Filter::Week(anchor)));
    assert_eq!(app.state.selected(), None);
    assert_eq!(app.do_action(Key::Char('f')), AppReturn::Continue);
    assert_eq!(app.state.get_filter(), Some(&Filter::Month(anchor)));
    assert_eq!(app.state.get_filtered_events().unwrap().len(), 4);

    assert_eq!(app.do_action(Key::Up), AppReturn::Continue);
    assert_eq!(app.state.selected(), Some(0));
    assert_eq!(app.do_action(Key::Up), AppReturn::Continue);
    assert_eq!(app.state.selected(), Some(3));
    assert_eq!(app.handle_event(InputEvent::Input(Key::Down)), AppReturn::Continue);
    assert_eq!(app.state.selected(), Some(0));
    assert_eq!(app.handle_event(InputEvent::Tick), AppReturn::Continue);
    assert_eq!(app.state.selected(), Some(0));

    // keys of the actions that touch the store, and unbound keys
    for key in [Key::Char('a'), Key::Char('d'), Key::Char('u'), Key::Char('l'), Key::Tab] {
        assert_eq!(app.do_action(key), AppReturn::Continue);
        assert_eq!(app.state.selected(), Some(0));
        assert_eq!(app.state.get_filter(), Some(&Filter::Month(anchor)));
    }
    assert_eq!(app.do_action(Key::Char('q')), AppReturn::Exit);
    assert_eq!(app.state.selected(), Some(0));

    assert_eq!(app.next_event(), AppReturn::Continue);
    assert_eq!(app.state.selected(), Some(1));
    assert_eq!(app.previous_event(), AppReturn::Continue);
    assert_eq!(app.state.selected(), Some(0));
    assert_eq!(app.switch_filter(), AppReturn::Continue);
    assert_eq!(app.state.get_filter(), Some(&Filter::Day(anchor)));
}

#[test]
fn a_run_of_events_stops_at_quit() {
    let mut app = App::new();
    app.load_events(september_events());
    let stream = [
        InputEvent::Tick,
        InputEvent::Input(Key::Char('f')),
        InputEvent::Tick,
        InputEvent::Input(Key::Down),
        InputEvent::Input(Key::Char('q')),
        InputEvent::Input(Key::Down),
    ];
    let mut handled = 0;
    for event in stream.iter() {
        handled += 1;
        if app.handle_event(*event) == AppReturn::Exit {
            break;
        }
    }
    assert_eq!(handled, 5);
    assert_eq!(app.state.selected(), Some(0));
}
