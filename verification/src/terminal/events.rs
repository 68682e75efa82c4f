//! Keys, and the stream of key presses and ticks that drives the run loop.
//!
//! A poller waits on the terminal for one tick interval at a time and hands
//! over what it saw as an [`Event`]. What each such cycle puts on the stream
//! is decided here by [`cycle_events`]; the reading end of the stream is
//! [`Events`].

use std::sync::mpsc::Receiver;
use std::sync::mpsc::RecvError;
use vstd::prelude::*;
use vstd::std_specs::convert::FromSpecImpl;
use vstd::string::StringExecFns;

verus! {

/// The modifier set that holds no modifier key.
pub const MODIFIERS_NONE: u8 = 0;

/// The modifier set that holds Shift alone.
pub const MODIFIERS_SHIFT: u8 = 1;

/// The modifier set that holds Control alone.
pub const MODIFIERS_CONTROL: u8 = 2;

/// The modifier set that holds Alt alone.
pub const MODIFIERS_ALT: u8 = 4;

/// Which key of the keyboard a key event is about.
#[derive(PartialEq, Eq, Clone, Copy, Hash, Debug, Structural)]
pub enum KeyCode {
    Backspace,
    Enter,
    Left,
    Right,
    Up,
    Down,
    Tab,
    Esc,
    /// A key that prints a character.
    Char(char),
    /// Any other key.
    Other,
}

/// A key event as the terminal reports it: the key, and the set of modifier
/// keys held with it, one bit for each.
#[derive(PartialEq, Eq, Clone, Copy, Hash, Debug, Structural)]
pub struct KeyEvent {
    pub code: KeyCode,
    pub modifiers: u8,
}

/// A mouse event as the terminal reports it, reduced to where it happened.
#[derive(PartialEq, Eq, Clone, Copy, Hash, Debug, Structural)]
pub struct MouseEvent {
    pub column: u16,
    pub row: u16,
}

/// What one wait on the terminal came back with.
#[derive(PartialEq, Eq, Clone, Copy, Hash, Debug, Structural)]
pub enum Event {
    /// The wait ran out with nothing to report.
    Tick,
    /// A key was pressed.
    Key(KeyEvent),
    /// The mouse did something.
    Mouse(MouseEvent),
    /// The terminal has a new size, in columns and rows.
    Resize(u16, u16),
}

/// A key as the application knows it.
#[derive(PartialEq, Eq, Clone, Copy, Hash, Debug, Structural)]
pub enum Key {
    Enter,
    Tab,
    Backspace,
    Esc,
    Left,
    Right,
    Up,
    Down,
    /// A printable character.
    Char(char),
    /// A character with Control held.
    Ctrl(char),
    /// A character with Alt held.
    Alt(char),
    /// A key that the application has no use for.
    Unknown,
}

/// What the run loop waits for.
#[derive(PartialEq, Eq, Clone, Copy, Hash, Debug, Structural)]
pub enum InputEvent {
    /// A key was pressed.
    Input(Key),
    /// A tick interval has passed.
    Tick,
}

/// The error of a stream whose writing end is gone.
#[derive(PartialEq, Eq, Clone, Copy, Debug, Structural)]
pub struct ChannelClosed;

/// The key that a key event stands for. A character key held with Alt alone
/// or with Control alone is its own key; with any other set of modifiers it
/// is the plain character.
pub open spec fn key_of(key_event: KeyEvent) -> Key {
    match key_event.code {
        KeyCode::Enter => Key::Enter,
        KeyCode::Tab => Key::Tab,
        KeyCode::Backspace => Key::Backspace,
        KeyCode::Esc => Key::Esc,
        KeyCode::Left => Key::Left,
        KeyCode::Right => Key::Right,
        KeyCode::Up => Key::Up,
        KeyCode::Down => Key::Down,
        KeyCode::Char(c) => if key_event.modifiers == MODIFIERS_ALT {
            Key::Alt(c)
        } else if key_event.modifiers == MODIFIERS_CONTROL {
            Key::Ctrl(c)
        } else {
            Key::Char(c)
        },
        KeyCode::Other => Key::Unknown,
    }
}

impl From<KeyEvent> for Key {
    /// The key that `key_event` stands for.
    fn from(key_event: KeyEvent) -> (key: Key) {
        match key_event.code {
            KeyCode::Enter => Key::Enter,
            KeyCode::Tab => Key::Tab,
            KeyCode::Backspace => Key::Backspace,
            KeyCode::Esc => Key::Esc,
            KeyCode::Left => Key::Left,
            KeyCode::Right => Key::Right,
            KeyCode::Up => Key::Up,
            KeyCode::Down => Key::Down,
            KeyCode::Char(c) => {
                if key_event.modifiers == MODIFIERS_ALT {
                    Key::Alt(c)
                } else if key_event.modifiers == MODIFIERS_CONTROL {
                    Key::Ctrl(c)
                } else {
                    Key::Char(c)
                }
            },
            KeyCode::Other => Key::Unknown,
        }
    }
}

impl FromSpecImpl<KeyEvent> for Key {
    open spec fn obeys_from_spec() -> bool {
        true
    }

    open spec fn from_spec(key_event: KeyEvent) -> Key {
        key_of(key_event)
    }
}

/// `String::push` of std: the string grows by the one character at its end.
pub assume_specification[ String::push ](s: &mut String, c: char)
    ensures
        final(s)@ == old(s)@.push(c),
;

/// The text of a key chord: `opening`, the key's character, and `>`.
fn chord(opening: &str, c: char) -> (s: String)
    ensures
        s@ == opening@.push(c) + ">"@,
{
    let mut s = String::from_str(opening);
    s.push(c);
    s.append(">");
    s
}

impl Key {
    /// Whether the key asks to leave: Control with `c`, the letter `q`, or
    /// Escape.
    pub open spec fn exits(self) -> bool {
        self == Key::Ctrl('c') || self == Key::Char('q') || self == Key::Esc
    }

    /// How the key is shown to the user. A space is spelled out; a chord
    /// stands in angle brackets; a character stands for itself; any other
    /// key goes by its name.
    pub open spec fn text(self) -> Seq<char> {
        match self {
            Key::Alt(c) => if c == ' ' {
                "<Alt+Space>"@
            } else {
                "<Alt+"@.push(c) + ">"@
            },
            Key::Ctrl(c) => if c == ' ' {
                "<Ctrl+Space>"@
            } else {
                "<Ctrl+"@.push(c) + ">"@
            },
            Key::Char(c) => if c == ' ' {
                "<Space>"@
            } else {
                seq![c]
            },
            Key::Enter => "Enter"@,
            Key::Tab => "Tab"@,
            Key::Backspace => "Backspace"@,
            Key::Esc => "Esc"@,
            Key::Left => "Left"@,
            Key::Right => "Right"@,
            Key::Up => "Up"@,
            Key::Down => "Down"@,
            Key::Unknown => "Unknown"@,
        }
    }

    /// Whether the key asks to leave the application.
    pub fn is_exit(&self) -> (r: bool)
        ensures
            r == self.exits(),
    {
        match self {
            Key::Ctrl(c) => *c == 'c',
            Key::Char(c) => *c == 'q',
            Key::Esc => true,
            _ => false,
        }
    }

    /// The key as shown to the user.
    pub fn to_string(&self) -> (s: String)
        ensures
            s@ == self.text(),
    {
        match *self {
            Key::Alt(c) => {
                if c == ' ' {
                    String::from_str("<Alt+Space>")
                } else {
                    chord("<Alt+", c)
                }
            },
            Key::Ctrl(c) => {
                if c == ' ' {
                    String::from_str("<Ctrl+Space>")
                } else {
                    chord("<Ctrl+", c)
                }
            },
            Key::Char(c) => {
                if c == ' ' {
                    String::from_str("<Space>")
                } else {
                    let mut s = String::new();
                    s.push(c);
                    s
                }
            },
            Key::Enter => String::from_str("Enter"),
            Key::Tab => String::from_str("Tab"),
            Key::Backspace => String::from_str("Backspace"),
            Key::Esc => String::from_str("Esc"),
            Key::Left => String::from_str("Left"),
            Key::Right => String::from_str("Right"),
            Key::Up => String::from_str("Up"),
            Key::Down => String::from_str("Down"),
            Key::Unknown => String::from_str("Unknown"),
        }
    }
}

/// What one cycle of the poller puts on the stream, in order: the key, where
/// the wait came back with a key press, and then a tick in every case.
pub open spec fn cycle_output(polled: Event) -> Seq<InputEvent> {
    match polled {
        Event::Key(key_event) => seq![InputEvent::Input(key_of(key_event)), InputEvent::Tick],
        _ => seq![InputEvent::Tick],
    }
}

/// What a run of cycles puts on the stream: the output of each cycle, in the
/// order of the cycles.
pub open spec fn stream_of(cycles: Seq<Event>) -> Seq<InputEvent>
    decreases cycles.len(),
{
    if cycles.len() == 0 {
        Seq::empty()
    } else {
        stream_of(cycles.drop_last()) + cycle_output(cycles.last())
    }
}

/// Decides what one cycle of the poller sends, given what its wait on the
/// terminal came back with. The events are to be sent in the order of the
/// result.
pub fn cycle_events(polled: Event) -> (out: Vec<InputEvent>)
    ensures
        out@ == cycle_output(polled),
        out@.last() == InputEvent::Tick,
        1 <= out@.len() <= 2,
{
    let mut out: Vec<InputEvent> = Vec::new();
    match polled {
        Event::Key(key_event) => {
            out.push(InputEvent::Input(Key::from(key_event)));
        },
        _ => {},
    }
    out.push(InputEvent::Tick);
    out
}

/// While no key is pressed the stream holds ticks and nothing else, one for
/// each cycle of the poller.
pub proof fn lemma_idle_stream_is_ticks(cycles: Seq<Event>)
    requires
        forall|i: int| 0 <= i < cycles.len() ==> !(cycles[i] is Key),
    ensures
        stream_of(cycles).len() == cycles.len(),
        forall|i: int| 0 <= i < cycles.len() ==> stream_of(cycles)[i] == InputEvent::Tick,
    decreases cycles.len(),
{
    if cycles.len() > 0 {
        lemma_idle_stream_is_ticks(cycles.drop_last());
    }
}

/// Every cycle sends its tick: the stream of a run of cycles is at least as
/// long as the run, and at most twice as long.
pub proof fn lemma_stream_length(cycles: Seq<Event>)
    ensures
        cycles.len() <= stream_of(cycles).len() <= 2 * cycles.len(),
    decreases cycles.len(),
{
    if cycles.len() > 0 {
        lemma_stream_length(cycles.drop_last());
    }
}

/// `std::sync::mpsc::Receiver`, the reading end of a channel, taken as a
/// value that nothing is known of.
#[verifier::external_type_specification]
#[verifier::external_body]
#[verifier::reject_recursive_types(T)]
pub struct ExReceiver<T>(Receiver<T>);

/// `std::sync::mpsc::RecvError`, the error of a channel without senders.
#[verifier::external_type_specification]
pub struct ExRecvError(RecvError);

/// `Receiver::recv` of std blocks until a value arrives or the last sender is
/// gone. What comes back depends on the senders, so nothing is claimed of it.
pub assume_specification<T>[ Receiver::<T>::recv ](receiver: &Receiver<T>) -> (r: Result<
    T,
    RecvError,
>)
;

/// The reading end of the stream of input events.
pub struct Events {
    rx: Receiver<InputEvent>,
}

/// What the reader of the stream hands on for what its channel gave: the
/// event that arrived, or the news that the stream is closed.
pub open spec fn delivery(received: Result<InputEvent, RecvError>) -> Result<
    InputEvent,
    ChannelClosed,
> {
    match received {
        Ok(event) => Ok(event),
        Err(_) => Err(ChannelClosed),
    }
}

impl Events {
    /// The channel that the events arrive over.
    pub closed spec fn channel(&self) -> Receiver<InputEvent> {
        self.rx
    }

    /// The reading end of the stream that arrives over `rx`.
    pub fn new(rx: Receiver<InputEvent>) -> (events: Events)
        ensures
            events.channel() == rx,
    {
        Events { rx }
    }

    /// Turns what the channel gave into what the reader hands on: an event
    /// that arrived is handed on as it is, and the channel's error becomes
    /// [`ChannelClosed`].
    pub fn deliver(received: Result<InputEvent, RecvError>) -> (r: Result<
        InputEvent,
        ChannelClosed,
    >)
        ensures
            r == delivery(received),
    {
        match received {
            Ok(event) => Ok(event),
            Err(_) => Err(ChannelClosed),
        }
    }

    /// Waits for the next event of the stream and returns it, as
    /// [`Events::deliver`] hands it on. The channel hands its values out in
    /// the order in which they were sent, and fails once every sender is
    /// gone and nothing is left to read.
    pub fn next(&self) -> (r: Result<InputEvent, ChannelClosed>) {
        Events::deliver(self.rx.recv())
    }
}

} // verus!
