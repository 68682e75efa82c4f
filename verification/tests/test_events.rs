//! Tests of keys and of the stream of input events.

use babyrs::terminal::events::cycle_events;
use babyrs::terminal::events::ChannelClosed;
use babyrs::terminal::events::Event;
use babyrs::terminal::events::Events;
use babyrs::terminal::events::InputEvent;
use babyrs::terminal::events::Key;
use babyrs::terminal::events::KeyCode;
use babyrs::terminal::events::KeyEvent;
use babyrs::terminal::events::MouseEvent;
use babyrs::terminal::events::MODIFIERS_ALT;
use babyrs::terminal::events::MODIFIERS_CONTROL;
use babyrs::terminal::events::MODIFIERS_NONE;
use babyrs::terminal::events::MODIFIERS_SHIFT;
use std::sync::mpsc::channel;
use std::sync::mpsc::RecvError;

fn press(code: KeyCode, modifiers: u8) -> KeyEvent {
    KeyEvent { code, modifiers }
}

#[test]
fn keys_without_a_character() {
    assert_eq!(Key::from(press(KeyCode::Enter, MODIFIERS_NONE)), Key::Enter);
    assert_eq!(Key::from(press(KeyCode::Tab, MODIFIERS_NONE)), Key::Tab);
    assert_eq!(Key::from(press(KeyCode::Backspace, MODIFIERS_NONE)), Key::Backspace);
    assert_eq!(Key::from(press(KeyCode::Esc, MODIFIERS_NONE)), Key::Esc);
    assert_eq!(Key::from(press(KeyCode::Left, MODIFIERS_NONE)), Key::Left);
    assert_eq!(Key::from(press(KeyCode::Right, MODIFIERS_NONE)), Key::Right);
    assert_eq!(Key::from(press(KeyCode::Up, MODIFIERS_NONE)), Key::Up);
    assert_eq!(Key::from(press(KeyCode::Down, MODIFIERS_NONE)), Key::Down);
    assert_eq!(Key::from(press(KeyCode::Other, MODIFIERS_NONE)), Key::Unknown);
    // modifiers make no difference to them
    assert_eq!(Key::from(press(KeyCode::Enter, MODIFIERS_ALT)), Key::Enter);
    assert_eq!(Key::from(press(KeyCode::Up, MODIFIERS_CONTROL)), Key::Up);
    assert_eq!(Key::from(press(KeyCode::Other, MODIFIERS_ALT)), Key::Unknown);
}

#[test]
fn character_keys_and_their_modifiers() {
    assert_eq!(Key::from(press(KeyCode::Char('a'), MODIFIERS_NONE)), Key::Char('a'));
    assert_eq!(Key::from(press(KeyCode::Char('a'), MODIFIERS_ALT)), Key::Alt('a'));
    assert_eq!(Key::from(press(KeyCode::Char('c'), MODIFIERS_CONTROL)), Key::Ctrl('c'));
    assert_eq!(Key::from(press(KeyCode::Char('A'), MODIFIERS_SHIFT)), Key::Char('A'));
    // more than one modifier: the plain character
    assert_eq!(
        Key::from(press(KeyCode::Char('a'), MODIFIERS_ALT | MODIFIERS_CONTROL)),
        Key::Char('a')
    );
    assert_eq!(
        Key::from(press(KeyCode::Char('a'), MODIFIERS_ALT | MODIFIERS_SHIFT)),
        Key::Char('a')
    );
    assert_eq!(Key::from(press(KeyCode::Char('a'), 0b0010_0000)), Key::Char('a'));
    let into: Key = press(KeyCode::Char('q'), MODIFIERS_NONE).into();
    assert_eq!(into, Key::Char('q'));
}

#[test]
fn modifier_bits() {
    assert_eq!(MODIFIERS_NONE, 0);
    assert_eq!(MODIFIERS_SHIFT, 1);
    assert_eq!(MODIFIERS_CONTROL, 2);
    assert_eq!(MODIFIERS_ALT, 4);
}

#[test]
fn exit_keys() {
    assert!(Key::Ctrl('c').is_exit());
    assert!(Key::Char('q').is_exit());
    assert!(Key::Esc.is_exit());
    assert!(!Key::Char('c').is_exit());
    assert!(!Key::Ctrl('q').is_exit());
    assert!(!Key::Alt('q').is_exit());
    assert!(!Key::Alt('c').is_exit());
    assert!(!Key::Enter.is_exit());
    assert!(!Key::Unknown.is_exit());
}

#[test]
fn keys_as_text() {
    assert_eq!(Key::Alt(' ').to_string(), "<Alt+Space>");
    assert_eq!(Key::Ctrl(' ').to_string(), "<Ctrl+Space>");
    assert_eq!(Key::Char(' ').to_string(), "<Space>");
    assert_eq!(Key::Alt('x').to_string(), "<Alt+x>");
    assert_eq!(Key::Ctrl('c').to_string(), "<Ctrl+c>");
    assert_eq!(Key::Char('q').to_string(), "q");
    assert_eq!(Key::Char('é').to_string(), "é");
    assert_eq!(Key::Enter.to_string(), "Enter");
    assert_eq!(Key::Tab.to_string(), "Tab");
    assert_eq!(Key::Backspace.to_string(), "Backspace");
    assert_eq!(Key::Esc.to_string(), "Esc");
    assert_eq!(Key::Left.to_string(), "Left");
    assert_eq!(Key::Right.to_string(), "Right");
    assert_eq!(Key::Up.to_string(), "Up");
    assert_eq!(Key::Down.to_string(), "Down");
    assert_eq!(Key::Unknown.to_string(), "Unknown");
}

#[test]
fn a_cycle_with_a_key_sends_the_key_and_then_a_tick() {
    let polled = Event::Key(press(KeyCode::Char('f'), MODIFIERS_NONE));
    assert_eq!(
        cycle_events(polled),
        vec![InputEvent::Input(Key::Char('f')), InputEvent::Tick]
    );
    let polled = Event::Key(press(KeyCode::Other, MODIFIERS_NONE));
    assert_eq!(
        cycle_events(polled),
        vec![InputEvent::Input(Key::Unknown), InputEvent::Tick]
    );
}

#[test]
fn a_cycle_without_a_key_sends_a_tick() {
    assert_eq!(cycle_events(Event::Tick), vec![InputEvent::Tick]);
    assert_eq!(
        cycle_events(Event::Mouse(MouseEvent { column: 3, row: 4 })),
        vec![InputEvent::Tick]
    );
    assert_eq!(cycle_events(Event::Resize(80, 24)), vec![InputEvent::Tick]);
}

#[test]
fn idle_poller_sends_ticks_only() {
    // a tick interval of 50 ms over 500 ms is ten cycles; none of them sees
    // a key
    let (tx, rx) = channel();
    let events = Events::new(rx);
    for _ in 0..10 {
        for event in cycle_events(Event::Tick) {
            tx.send(event).unwrap();
        }
    }
    drop(tx);
    let mut ticks = 0;
    let mut keys = 0;
    while let Ok(event) = events.next() {
        match event {
            InputEvent::Tick => ticks += 1,
            InputEvent::Input(_) => keys += 1,
        }
    }
    assert!(ticks >= 8);
    assert_eq!(ticks, 10);
    assert_eq!(keys, 0);
}

#[test]
fn events_come_out_in_the_order_sent() {
    let (tx, rx) = channel();
    let events = Events::new(rx);
    let polled = [
        Event::Tick,
        Event::Key(press(KeyCode::Char('q'), MODIFIERS_NONE)),
        Event::Key(press(KeyCode::Char('c'), MODIFIERS_CONTROL)),
        Event::Resize(1, 1),
    ];
    for event in polled.iter() {
        for out in cycle_events(*event) {
            tx.send(out).unwrap();
        }
    }
    assert_eq!(events.next(), Ok(InputEvent::Tick));
    assert_eq!(events.next(), Ok(InputEvent::Input(Key::Char('q'))));
    assert_eq!(events.next(), Ok(InputEvent::Tick));
    assert_eq!(events.next(), Ok(InputEvent::Input(Key::Ctrl('c'))));
    assert_eq!(events.next(), Ok(InputEvent::Tick));
    assert_eq!(events.next(), Ok(InputEvent::Tick));
    drop(tx);
    assert_eq!(events.next(), Err(ChannelClosed));
    assert_eq!(events.next(), Err(ChannelClosed));
}

#[test]
fn a_closed_stream_still_hands_out_what_was_sent() {
    let (tx, rx) = channel();
    let events = Events::new(rx);
    tx.send(InputEvent::Input(Key::Enter)).unwrap();
    drop(tx);
    assert_eq!(events.next(), Ok(InputEvent::Input(Key::Enter)));
    assert_eq!(events.next(), Err(ChannelClosed));
}

#[test]
fn what_the_channel_gave_is_handed_on() {
    assert_eq!(Events::deliver(Ok(InputEvent::Tick)), Ok(InputEvent::Tick));
    assert_eq!(
        Events::deliver(Ok(InputEvent::Input(Key::Alt('x')))),
        Ok(InputEvent::Input(Key::Alt('x')))
    );
    assert_eq!(Events::deliver(Err(RecvError)), Err(ChannelClosed));
}
