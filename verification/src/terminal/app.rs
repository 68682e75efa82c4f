//! The actions of the dashboard, the keys that trigger them, and the
//! application that turns events into changes of state.

use crate::models::BabyEvent;
use crate::terminal::events::InputEvent;
use crate::terminal::events::Key;
use crate::terminal::state::AppState;
use crate::terminal::state::lemma_commands_keep_consistency;
use crate::terminal::state::AppStateView;
use std::slice::Iter;
use vstd::prelude::*;
use vstd::std_specs::slice::into_iter_elts;
use vstd::string::StringExecFns;

verus! {

/// What the run loop is to do after an event has been handled.
#[derive(Debug, PartialEq, Eq, Clone, Copy, Structural)]
pub enum AppReturn {
    /// Leave the run loop.
    Exit,
    /// Go on with the next event.
    Continue,
}

/// Something the user can ask the dashboard to do.
#[derive(Debug, Clone, Copy, Eq, PartialEq, Structural)]
pub enum Action {
    AddEvent,
    DeleteEvent,
    NextEvent,
    PreviousEvent,
    SwitchFilter,
    LoadCSV,
    UpdateEvent,
    Quit,
}

impl Action {
    /// Every action, in the order in which the menu shows them.
    pub open spec fn all() -> Seq<Action> {
        seq![
            Action::AddEvent,
            Action::DeleteEvent,
            Action::UpdateEvent,
            Action::NextEvent,
            Action::PreviousEvent,
            Action::SwitchFilter,
            Action::LoadCSV,
            Action::Quit,
        ]
    }

    /// The place of the action in the order of the menu, from 0.
    pub open spec fn rank(self) -> int {
        match self {
            Action::AddEvent => 0,
            Action::DeleteEvent => 1,
            Action::UpdateEvent => 2,
            Action::NextEvent => 3,
            Action::PreviousEvent => 4,
            Action::SwitchFilter => 5,
            Action::LoadCSV => 6,
            Action::Quit => 7,
        }
    }

    /// The keys that trigger the action, the one that the menu shows first.
    pub open spec fn key_seq(self) -> Seq<Key> {
        match self {
            Action::AddEvent => seq![Key::Char('a')],
            Action::DeleteEvent => seq![Key::Char('d')],
            Action::NextEvent => seq![Key::Down],
            Action::PreviousEvent => seq![Key::Up],
            Action::SwitchFilter => seq![Key::Char('f')],
            Action::LoadCSV => seq![Key::Char('l')],
            Action::UpdateEvent => seq![Key::Char('u')],
            Action::Quit => seq![Key::Char('q'), Key::Ctrl('c')],
        }
    }

    /// Whether `key` triggers the action.
    pub open spec fn triggered_by(self, key: Key) -> bool {
        self.key_seq().contains(key)
    }

    /// The name of the action in the menu.
    pub open spec fn label(self) -> Seq<char> {
        match self {
            Action::AddEvent => "add"@,
            Action::DeleteEvent => "delete"@,
            Action::NextEvent => "next"@,
            Action::PreviousEvent => "prev"@,
            Action::SwitchFilter => "switch filter"@,
            Action::LoadCSV => "load csv"@,
            Action::UpdateEvent => "update"@,
            Action::Quit => "quit"@,
        }
    }

    /// Every action, in the order of the menu.
    pub fn list() -> (all: &'static [Action])
        ensures
            all@ == Action::all(),
    {
        let all: &'static [Action] = &[
            Action::AddEvent,
            Action::DeleteEvent,
            Action::UpdateEvent,
            Action::NextEvent,
            Action::PreviousEvent,
            Action::SwitchFilter,
            Action::LoadCSV,
            Action::Quit,
        ];
        assert(all@ =~= Action::all());
        all
    }

    /// An iterator over every action, in the order of the menu.
    pub fn iterator() -> (iter: Iter<'static, Action>)
        ensures
            into_iter_elts(iter) == Action::all(),
    {
        let all = Action::list();
        let iter = all.iter();
        proof {
            assert(into_iter_elts(iter) =~= Action::all());
        }
        iter
    }

    /// The keys that trigger the action. The first of them is the one that
    /// the menu shows.
    pub fn keys(&self) -> (keys: &[Key])
        ensures
            keys@ == self.key_seq(),
            keys@.len() >= 1,
    {
        match self {
            Action::AddEvent => {
                let keys: &'static [Key] = &[Key::Char('a')];
                assert(keys@ =~= self.key_seq());
                keys
            },
            Action::DeleteEvent => {
                let keys: &'static [Key] = &[Key::Char('d')];
                assert(keys@ =~= self.key_seq());
                keys
            },
            Action::NextEvent => {
                let keys: &'static [Key] = &[Key::Down];
                assert(keys@ =~= self.key_seq());
                keys
            },
            Action::PreviousEvent => {
                let keys: &'static [Key] = &[Key::Up];
                assert(keys@ =~= self.key_seq());
                keys
            },
            Action::SwitchFilter => {
                let keys: &'static [Key] = &[Key::Char('f')];
                assert(keys@ =~= self.key_seq());
                keys
            },
            Action::LoadCSV => {
                let keys: &'static [Key] = &[Key::Char('l')];
                assert(keys@ =~= self.key_seq());
                keys
            },
            Action::UpdateEvent => {
                let keys: &'static [Key] = &[Key::Char('u')];
                assert(keys@ =~= self.key_seq());
                keys
            },
            Action::Quit => {
                let keys: &'static [Key] = &[Key::Char('q'), Key::Ctrl('c')];
                assert(keys@ =~= self.key_seq());
                keys
            },
        }
    }

    /// The name of the action in the menu.
    pub fn to_string(&self) -> (s: String)
        ensures
            s@ == self.label(),
    {
        match self {
            Action::AddEvent => String::from_str("add"),
            Action::DeleteEvent => String::from_str("delete"),
            Action::NextEvent => String::from_str("next"),
            Action::PreviousEvent => String::from_str("prev"),
            Action::SwitchFilter => String::from_str("switch filter"),
            Action::LoadCSV => String::from_str("load csv"),
            Action::UpdateEvent => String::from_str("update"),
            Action::Quit => String::from_str("quit"),
        }
    }
}

/// The action that `key` triggers, if it triggers one.
pub open spec fn bound_action(key: Key) -> Option<Action> {
    match key {
        Key::Char(c) => if c == 'a' {
            Some(Action::AddEvent)
        } else if c == 'd' {
            Some(Action::DeleteEvent)
        } else if c == 'f' {
            Some(Action::SwitchFilter)
        } else if c == 'l' {
            Some(Action::LoadCSV)
        } else if c == 'u' {
            Some(Action::UpdateEvent)
        } else if c == 'q' {
            Some(Action::Quit)
        } else {
            None
        },
        Key::Ctrl(c) => if c == 'c' {
            Some(Action::Quit)
        } else {
            None
        },
        Key::Down => Some(Action::NextEvent),
        Key::Up => Some(Action::PreviousEvent),
        _ => None,
    }
}

/// The action among `enabled` that `key` triggers, if it triggers one of
/// them.
pub open spec fn lookup(enabled: Seq<Action>, key: Key) -> Option<Action> {
    match bound_action(key) {
        Some(action) => if enabled.contains(action) {
            Some(action)
        } else {
            None
        },
        None => None,
    }
}

/// Whether two sets of keys have a key in common.
pub open spec fn keys_meet(mine: Seq<Key>, theirs: Seq<Key>) -> bool {
    exists|key: Key| mine.contains(key) && theirs.contains(key)
}

/// Whether two actions have a trigger key in common.
pub open spec fn share_key(a: Action, b: Action) -> bool {
    keys_meet(a.key_seq(), b.key_seq())
}

/// Whether `p` is the place, among the keys `mine`, of the first key that is
/// also one of `theirs`.
pub open spec fn first_common_at(mine: Seq<Key>, theirs: Seq<Key>, p: int) -> bool {
    &&& 0 <= p < mine.len()
    &&& theirs.contains(mine[p])
    &&& forall|q: int| 0 <= q < p ==> !theirs.contains(#[trigger] mine[q])
}

/// Whether the entries `i` and `j` of a table of actions and their trigger
/// keys, `i` before `j`, are two different actions with a trigger key in
/// common.
pub open spec fn pair_conflicts(table: Seq<(Action, Seq<Key>)>, i: int, j: int) -> bool {
    &&& 0 <= i < j < table.len()
    &&& table[i].0 != table[j].0
    &&& keys_meet(table[i].1, table[j].1)
}

/// Whether a table of actions and their trigger keys is ambiguous: two
/// different actions of it have a trigger key in common. An action that
/// stands in the table twice is in no conflict with itself.
pub open spec fn has_conflict(table: Seq<(Action, Seq<Key>)>) -> bool {
    exists|i: int, j: int| pair_conflicts(table, i, j)
}

/// The table of a list of actions: each with the keys that trigger it.
pub open spec fn bindings(actions: Seq<Action>) -> Seq<(Action, Seq<Key>)> {
    Seq::new(actions.len(), |i: int| (actions[i], actions[i].key_seq()))
}

/// The table that a list of entries holds.
pub open spec fn table_of(entries: Seq<(Action, &[Key])>) -> Seq<(Action, Seq<Key>)> {
    Seq::new(entries.len(), |i: int| (entries[i].0, entries[i].1@))
}

/// Two different actions of a table that one key would trigger.
#[derive(Debug, Clone, Copy, PartialEq, Eq, Structural)]
pub struct KeyConflict {
    /// The key that triggers both.
    pub key: Key,
    /// The action that stands first in the table.
    pub first: Action,
    /// The action that stands later in the table.
    pub second: Action,
}

impl KeyConflict {
    /// Whether the conflict is the one between the entries `i` and `j` of
    /// `table` over the key at place `p` of entry `i`, and the first that a
    /// reader of the table comes to: no two entries before `j` conflict, no
    /// entry before `i` conflicts with `j`, and no key of entry `i` before
    /// place `p` triggers entry `j`.
    pub open spec fn found_at(self, table: Seq<(Action, Seq<Key>)>, i: int, j: int, p: int)
        -> bool {
        &&& 0 <= i < j < table.len()
        &&& self.first == table[i].0
        &&& self.second == table[j].0
        &&& self.first != self.second
        &&& first_common_at(table[i].1, table[j].1, p)
        &&& self.key == table[i].1[p]
        &&& forall|i2: int, j2: int| 0 <= i2 < j2 < j ==> !pair_conflicts(table, i2, j2)
        &&& forall|i2: int| 0 <= i2 < i ==> !pair_conflicts(table, i2, j)
    }

    /// Whether the conflict is the first in `table`.
    pub open spec fn is_first_in(self, table: Seq<(Action, Seq<Key>)>) -> bool {
        exists|i: int, j: int, p: int| self.found_at(table, i, j, p)
    }

    /// The message that tells the user of the conflict.
    pub open spec fn text(self) -> Seq<char> {
        "Conflict key "@ + self.key.text() + " with actions "@ + self.first.label() + ", "@
            + self.second.label()
    }

    /// The message that tells the user of the conflict: the key, and the
    /// names of the two actions.
    pub fn to_string(&self) -> (s: String)
        ensures
            s@ == self.text(),
    {
        let mut s = String::from_str("Conflict key ");
        s.append(self.key.to_string().as_str());
        s.append(" with actions ");
        s.append(self.first.to_string().as_str());
        s.append(", ");
        s.append(self.second.to_string().as_str());
        s
    }
}

/// A key triggers the action that it is bound to and no other.
pub proof fn lemma_bound_action(action: Action, key: Key)
    ensures
        action.triggered_by(key) <==> bound_action(key) == Some(action),
{
    match action {
        Action::AddEvent => {
            assert(action.key_seq()[0] == Key::Char('a'));
        },
        Action::DeleteEvent => {
            assert(action.key_seq()[0] == Key::Char('d'));
        },
        Action::NextEvent => {
            assert(action.key_seq()[0] == Key::Down);
        },
        Action::PreviousEvent => {
            assert(action.key_seq()[0] == Key::Up);
        },
        Action::SwitchFilter => {
            assert(action.key_seq()[0] == Key::Char('f'));
        },
        Action::LoadCSV => {
            assert(action.key_seq()[0] == Key::Char('l'));
        },
        Action::UpdateEvent => {
            assert(action.key_seq()[0] == Key::Char('u'));
        },
        Action::Quit => {
            assert(action.key_seq()[0] == Key::Char('q'));
            assert(action.key_seq()[1] == Key::Ctrl('c'));
        },
    }
}

/// Two actions have a trigger key in common only if they are one action.
pub proof fn lemma_share_key(a: Action, b: Action)
    ensures
        share_key(a, b) <==> a == b,
{
    if share_key(a, b) {
        let key = choose|key: Key| a.triggered_by(key) && b.triggered_by(key);
        lemma_bound_action(a, key);
        lemma_bound_action(b, key);
    }
    if a == b {
        let key = a.key_seq()[0];
        assert(a.triggered_by(key));
    }
}

/// With the keys as they are bound, no list of actions is ambiguous,
/// whatever it names and however often: every list makes a table.
pub proof fn lemma_actions_never_conflict(actions: Seq<Action>)
    ensures
        !has_conflict(bindings(actions)),
{
    if has_conflict(bindings(actions)) {
        let (i, j) = choose|i: int, j: int| pair_conflicts(bindings(actions), i, j);
        lemma_share_key(actions[i], actions[j]);
    }
}

/// A table has one first conflict at most.
pub proof fn lemma_first_conflict_unique(
    table: Seq<(Action, Seq<Key>)>,
    a: KeyConflict,
    b: KeyConflict,
)
    requires
        a.is_first_in(table),
        b.is_first_in(table),
    ensures
        a == b,
{
    let (i, j, p) = choose|i: int, j: int, p: int| a.found_at(table, i, j, p);
    let (k, l, q) = choose|k: int, l: int, q: int| b.found_at(table, k, l, q);
    assert(table[i].1.contains(table[i].1[p]));
    assert(table[k].1.contains(table[k].1[q]));
    assert(pair_conflicts(table, i, j));
    assert(pair_conflicts(table, k, l));
    assert(j == l);
    assert(i == k);
    assert(p == q);
}

/// A table in which some key triggers two different actions is ambiguous,
/// in whichever order the two stand.
pub proof fn lemma_shared_key_is_conflict(
    table: Seq<(Action, Seq<Key>)>,
    i: int,
    j: int,
    key: Key,
)
    ensures
        0 <= i < table.len() && 0 <= j < table.len() && table[i].0 != table[j].0
            && table[i].1.contains(key) && table[j].1.contains(key) ==> has_conflict(table),
{
    if 0 <= i < table.len() && 0 <= j < table.len() && table[i].0 != table[j].0
        && table[i].1.contains(key) && table[j].1.contains(key) {
        if i < j {
            assert(pair_conflicts(table, i, j));
        } else {
            assert(pair_conflicts(table, j, i));
        }
    }
}

/// A table with a first conflict is ambiguous, and the key of the conflict
/// triggers both of its actions, which are two.
pub proof fn lemma_first_conflict_is_conflict(table: Seq<(Action, Seq<Key>)>, c: KeyConflict)
    requires
        c.is_first_in(table),
    ensures
        has_conflict(table),
        c.first != c.second,
        exists|i: int, j: int|
            0 <= i < j < table.len() && (#[trigger] table[i]).0 == c.first && (
            #[trigger] table[j]).0 == c.second && table[i].1.contains(c.key)
                && table[j].1.contains(c.key),
{
    let (i, j, p) = choose|i: int, j: int, p: int| c.found_at(table, i, j, p);
    assert(table[i].1.contains(table[i].1[p]));
    assert(pair_conflicts(table, i, j));
}

/// Whether `key` is one of `keys`.
fn has_key(keys: &[Key], key: Key) -> (r: bool)
    ensures
        r == keys@.contains(key),
{
    let mut p: usize = 0;
    while p < keys.len()
        invariant
            p <= keys.len(),
            forall|q: int| 0 <= q < p ==> keys@[q] != key,
        decreases keys.len() - p,
    {
        if keys[p] == key {
            return true;
        }
        p += 1;
    }
    false
}

/// The first of the keys `mine` that is also one of `theirs`, or `None`
/// where the two have no key in common.
pub fn common_key(mine: &[Key], theirs: &[Key]) -> (r: Option<Key>)
    ensures
        r is None <==> !keys_meet(mine@, theirs@),
        r matches Some(key) ==> exists|p: int|
            first_common_at(mine@, theirs@, p) && key == #[trigger] mine@[p],
{
    let mut p: usize = 0;
    while p < mine.len()
        invariant
            p <= mine.len(),
            forall|q: int| 0 <= q < p ==> !theirs@.contains(#[trigger] mine@[q]),
        decreases mine.len() - p,
    {
        if has_key(theirs, mine[p]) {
            proof {
                assert(first_common_at(mine@, theirs@, p as int));
                assert(mine@.contains(mine@[p as int]));
            }
            return Some(mine[p]);
        }
        p += 1;
    }
    proof {
        if keys_meet(mine@, theirs@) {
            let key = choose|key: Key| mine@.contains(key) && theirs@.contains(key);
            let q = choose|q: int| 0 <= q < mine@.len() && mine@[q] == key;
            assert(!theirs@.contains(mine@[q]));
        }
    }
    None
}

/// Looks for two different actions of a table that have a trigger key in
/// common, and names the first such pair and key that a reader of the table
/// comes to. `None` where the table is not ambiguous.
pub fn find_conflict(entries: &Vec<(Action, &[Key])>) -> (r: Option<KeyConflict>)
    ensures
        r is None <==> !has_conflict(table_of(entries@)),
        r matches Some(conflict) ==> conflict.is_first_in(table_of(entries@)),
{
    let ghost table = table_of(entries@);
    let mut j: usize = 0;
    while j < entries.len()
        invariant
            j <= entries.len(),
            table == table_of(entries@),
            forall|i2: int, j2: int| 0 <= i2 < j2 < j ==> !pair_conflicts(table, i2, j2),
        decreases entries.len() - j,
    {
        let mut i: usize = 0;
        while i < j
            invariant
                i <= j < entries.len(),
                table == table_of(entries@),
                forall|i2: int, j2: int| 0 <= i2 < j2 < j ==> !pair_conflicts(table, i2, j2),
                forall|i2: int| 0 <= i2 < i ==> !pair_conflicts(table, i2, j as int),
            decreases j - i,
        {
            if entries[i].0 != entries[j].0 {
                match common_key(entries[i].1, entries[j].1) {
                    Some(key) => {
                        let conflict = KeyConflict {
                            key,
                            first: entries[i].0,
                            second: entries[j].0,
                        };
                        proof {
                            let p = choose|p: int|
                                first_common_at(table[i as int].1, table[j as int].1, p) && key
                                    == #[trigger] table[i as int].1[p];
                            assert(conflict.found_at(table, i as int, j as int, p));
                            assert(table[i as int].1.contains(table[i as int].1[p]));
                            assert(pair_conflicts(table, i as int, j as int));
                        }
                        return Some(conflict);
                    },
                    None => {},
                }
            }
            i += 1;
        }
        j += 1;
    }
    None
}

/// The place of the first entry of `list` that is `action`.
fn position(list: &Vec<Action>, action: Action) -> (r: Option<usize>)
    ensures
        r matches Some(at) ==> at < list@.len() && list@[at as int] == action,
        r is None ==> !list@.contains(action),
        r is Some <==> list@.contains(action),
{
    let mut at: usize = 0;
    while at < list.len()
        invariant
            at <= list.len(),
            forall|b: int| 0 <= b < at ==> list@[b] != action,
        decreases list.len() - at,
    {
        if list[at] == action {
            return Some(at);
        }
        at += 1;
    }
    None
}

/// The list of the enabled actions. No two different actions of it have a
/// trigger key in common.
#[derive(Debug)]
pub struct Actions(Vec<Action>);

impl View for Actions {
    type V = Seq<Action>;

    closed spec fn view(&self) -> Seq<Action> {
        self.0@
    }
}

impl Actions {
    #[verifier::type_invariant]
    spec fn unambiguous(self) -> bool {
        !has_conflict(bindings(self.0@))
    }

    /// Makes the list of enabled actions from `actions`, in their order,
    /// nothing added, dropped or moved. Turns the list down where two
    /// different actions of it have a trigger key in common, and names the
    /// first such pair and key: no list of enabled actions comes back then,
    /// and so nothing can be looked up in one. A list may name an action
    /// more than once.
    pub fn from(actions: Vec<Action>) -> (r: Result<Actions, KeyConflict>)
        ensures
            r is Ok <==> !has_conflict(bindings(actions@)),
            r matches Ok(enabled) ==> enabled@ == actions@,
            r matches Err(conflict) ==> conflict.is_first_in(bindings(actions@)),
            forall|i: int, j: int, key: Key|
                0 <= i < j < actions@.len() && actions@[i] != actions@[j]
                    && #[trigger] actions@[i].triggered_by(key)
                    && #[trigger] actions@[j].triggered_by(key) ==> r is Err,
    {
        proof {
            assert forall|i: int, j: int, key: Key|
                0 <= i < j < actions@.len() && actions@[i] != actions@[j]
                    && #[trigger] actions@[i].triggered_by(key)
                    && #[trigger] actions@[j].triggered_by(key) implies has_conflict(
                bindings(actions@),
            ) by {
                lemma_shared_key_is_conflict(bindings(actions@), i, j, key);
            }
        }
        let conflict = {
            let mut entries: Vec<(Action, &[Key])> = Vec::new();
            let mut n: usize = 0;
            while n < actions.len()
                invariant
                    n <= actions.len(),
                    entries@.len() == n,
                    table_of(entries@) == bindings(actions@.take(n as int)),
                decreases actions.len() - n,
            {
                let ghost before = entries@;
                let keys = actions[n].keys();
                entries.push((actions[n], keys));
                proof {
                    assert forall|i: int| 0 <= i < n + 1 implies table_of(entries@)[i] == bindings(
                        actions@.take(n + 1),
                    )[i] by {
                        if i < n {
                            assert(entries@[i] == before[i]);
                            assert(table_of(before)[i] == bindings(actions@.take(n as int))[i]);
                        }
                    }
                    assert(table_of(entries@) =~= bindings(actions@.take(n + 1)));
                }
                n += 1;
            }
            proof {
                assert(actions@.take(actions@.len() as int) =~= actions@);
            }
            find_conflict(&entries)
        };
        match conflict {
            Some(conflict) => Err(conflict),
            None => Ok(Actions(actions)),
        }
    }

    /// The list of all actions in the order of the menu. It has no conflict.
    pub fn all() -> (enabled: Actions)
        ensures
            enabled@ == Action::all(),
    {
        let mut actions: Vec<Action> = Vec::new();
        actions.push(Action::AddEvent);
        actions.push(Action::DeleteEvent);
        actions.push(Action::UpdateEvent);
        actions.push(Action::NextEvent);
        actions.push(Action::PreviousEvent);
        actions.push(Action::SwitchFilter);
        actions.push(Action::LoadCSV);
        actions.push(Action::Quit);
        proof {
            assert(actions@ =~= Action::all());
            lemma_actions_never_conflict(actions@);
        }
        Actions(actions)
    }

    /// The enabled action that `key` triggers, or `None` where it triggers
    /// none of them. Of the enabled actions the one that comes first in the
    /// order of the menu is taken.
    pub fn find(&self, key: Key) -> (r: Option<&Action>)
        ensures
            match r {
                Some(action) => lookup(self@, key) == Some(*action),
                None => lookup(self@, key) is None,
            },
            r matches Some(action) ==> self@.contains(*action) && action.triggered_by(key),
            r matches Some(action) ==> forall|other: Action|
                self@.contains(other) && #[trigger] other.triggered_by(key) ==> action.rank()
                    <= other.rank(),
            r is None ==> forall|other: Action|
                self@.contains(other) ==> !#[trigger] other.triggered_by(key),
    {
        let all = Action::list();
        let mut n: usize = 0;
        while n < all.len()
            invariant
                n <= all.len(),
                all@ == Action::all(),
                forall|m: int|
                    0 <= m < n ==> !(self@.contains(#[trigger] all@[m]) && all@[m].triggered_by(
                        key,
                    )),
            decreases all.len() - n,
        {
            let candidate = all[n];
            if has_key(candidate.keys(), key) {
                match position(&self.0, candidate) {
                    Some(at) => {
                        proof {
                            lemma_bound_action(candidate, key);
                            assert forall|other: Action|
                                self@.contains(other) && #[trigger] other.triggered_by(
                                    key,
                                ) implies candidate.rank() <= other.rank() by {
                                lemma_bound_action(other, key);
                            }
                        }
                        return Some(&self.0[at]);
                    },
                    None => {},
                }
            }
            n += 1;
        }
        proof {
            assert forall|other: Action| self@.contains(other) implies !#[trigger] other.triggered_by(
                key,
            ) by {
                assert(Action::all()[other.rank()] == other);
            }
            if let Some(action) = bound_action(key) {
                lemma_bound_action(action, key);
            }
        }
        None
    }

    /// The enabled actions, in their order.
    pub fn actions(&self) -> (enabled: &[Action])
        ensures
            enabled@ == self@,
            !has_conflict(bindings(enabled@)),
    {
        proof {
            use_type_invariant(self);
        }
        self.0.as_slice()
    }
}

impl Clone for Actions {
    fn clone(&self) -> (enabled: Actions)
        ensures
            enabled@ == self@,
    {
        proof {
            use_type_invariant(self);
        }
        let mut actions: Vec<Action> = Vec::new();
        let mut n: usize = 0;
        while n < self.0.len()
            invariant
                n <= self.0.len(),
                actions@ == self.0@.take(n as int),
            decreases self.0.len() - n,
        {
            actions.push(self.0[n]);
            proof {
                assert(self.0@.take(n as int).push(self.0@[n as int]) =~= self.0@.take(n + 1));
            }
            n += 1;
        }
        proof {
            assert(self.0@.take(self.0@.len() as int) =~= self.0@);
        }
        Actions(actions)
    }
}

impl Default for Actions {
    /// The list without actions.
    fn default() -> (enabled: Actions)
        ensures
            enabled@.len() == 0,
    {
        let actions: Vec<Action> = Vec::new();
        proof {
            lemma_actions_never_conflict(actions@);
        }
        Actions(actions)
    }
}

/// The state that an action leaves behind: a move of the cursor, a switch
/// of the filter, or, for the actions that touch the store or end the run,
/// the state as it was.
pub open spec fn state_after(action: Action, state: AppStateView) -> AppStateView {
    match action {
        Action::NextEvent => state.selected_next(),
        Action::PreviousEvent => state.selected_previous(),
        Action::SwitchFilter => state.switched(),
        _ => state,
    }
}

/// The state after a key was pressed: that of the enabled action which the
/// key triggers, or the state as it was where it triggers none.
pub open spec fn state_after_key(enabled: Seq<Action>, state: AppStateView, key: Key)
    -> AppStateView {
    match lookup(enabled, key) {
        Some(action) => state_after(action, state),
        None => state,
    }
}

/// What the run loop is told after a key was pressed: to leave where the
/// key triggers the enabled action to quit, and to go on otherwise.
pub open spec fn return_after_key(enabled: Seq<Action>, key: Key) -> AppReturn {
    if lookup(enabled, key) == Some(Action::Quit) {
        AppReturn::Exit
    } else {
        AppReturn::Continue
    }
}

/// The state after an event of the input stream: a tick changes nothing.
pub open spec fn state_after_event(enabled: Seq<Action>, state: AppStateView, event: InputEvent)
    -> AppStateView {
    match event {
        InputEvent::Input(key) => state_after_key(enabled, state, key),
        InputEvent::Tick => state,
    }
}

/// What the run loop is told after an event of the input stream: a tick
/// never ends the run.
pub open spec fn return_after_event(enabled: Seq<Action>, event: InputEvent) -> AppReturn {
    match event {
        InputEvent::Input(key) => return_after_key(enabled, key),
        InputEvent::Tick => AppReturn::Continue,
    }
}

/// The state after a run of events of the input stream, each handled in
/// its turn. The run ends with the first event that tells the run loop to
/// leave; what follows it on the stream is not looked at.
pub open spec fn state_after_stream(
    enabled: Seq<Action>,
    state: AppStateView,
    stream: Seq<InputEvent>,
) -> AppStateView
    decreases stream.len(),
{
    if stream.len() == 0 {
        state
    } else if return_after_event(enabled, stream.first()) == AppReturn::Exit {
        state
    } else {
        state_after_stream(
            enabled,
            state_after_event(enabled, state, stream.first()),
            stream.drop_first(),
        )
    }
}

/// The application: the enabled actions and the state of the dashboard.
#[derive(Debug)]
pub struct App {
    /// The enabled actions, in the order of the menu.
    pub actions: Actions,
    /// The state of the dashboard.
    pub state: AppState,
}

impl App {
    /// The application with every action enabled and nothing set up.
    pub fn new() -> (app: App)
        ensures
            app.actions@ == Action::all(),
            app.state@ is Init,
    {
        App { actions: Actions::all(), state: AppState::default() }
    }

    /// Handles a key: carries out the enabled action that the key triggers,
    /// if there is one, and tells the run loop to leave if that action is
    /// to quit. A key that triggers nothing changes nothing.
    pub fn do_action(&mut self, key: Key) -> (r: AppReturn)
        ensures
            final(self).actions@ == old(self).actions@,
            final(self).state@ == state_after_key(old(self).actions@, old(self).state@, key),
            r == return_after_key(old(self).actions@, key),
            r == AppReturn::Exit ==> *final(self) == *old(self),
            old(self).state@.wf() ==> final(self).state@.wf(),
    {
        let found: Option<Action> = match self.actions.find(key) {
            Some(action) => Some(*action),
            None => None,
        };
        match found {
            Some(Action::NextEvent) => self.next_event(),
            Some(Action::PreviousEvent) => self.previous_event(),
            Some(Action::SwitchFilter) => self.switch_filter(),
            Some(Action::Quit) => AppReturn::Exit,
            Some(Action::AddEvent) => AppReturn::Continue,
            Some(Action::DeleteEvent) => AppReturn::Continue,
            Some(Action::LoadCSV) => AppReturn::Continue,
            Some(Action::UpdateEvent) => AppReturn::Continue,
            None => AppReturn::Continue,
        }
    }

    /// Handles a tick of the input stream. Nothing is done on a tick yet.
    pub fn update_tick(&mut self) -> (r: AppReturn)
        ensures
            *final(self) == *old(self),
            r == AppReturn::Continue,
    {
        AppReturn::Continue
    }

    /// Handles one event of the input stream, a key or a tick, and tells
    /// the run loop whether to go on.
    pub fn handle_event(&mut self, event: InputEvent) -> (r: AppReturn)
        ensures
            final(self).actions@ == old(self).actions@,
            final(self).state@ == state_after_event(old(self).actions@, old(self).state@, event),
            r == return_after_event(old(self).actions@, event),
            r == AppReturn::Exit ==> *final(self) == *old(self),
            old(self).state@.wf() ==> final(self).state@.wf(),
    {
        match event {
            InputEvent::Input(key) => self.do_action(key),
            InputEvent::Tick => self.update_tick(),
        }
    }

    /// Sets the dashboard up: it runs from now on, without events.
    pub fn initialize(&mut self) -> (r: AppReturn)
        ensures
            final(self).actions@ == old(self).actions@,
            final(self).state@ == AppStateView::blank(),
            final(self).state@.wf(),
            r == AppReturn::Continue,
    {
        self.state = AppState::initialized();
        AppReturn::Continue
    }

    /// Takes over `events` as the loaded events and shows the day of the
    /// latest of them. An empty list changes nothing.
    pub fn load_events(&mut self, events: Vec<BabyEvent>) -> (r: AppReturn)
        ensures
            final(self).actions@ == old(self).actions@,
            events@.len() == 0 ==> *final(self) == *old(self),
            events@.len() > 0 ==> final(self).state@ == AppStateView::loaded(events@),
            old(self).state@.wf() || events@.len() > 0 ==> final(self).state@.wf(),
            r == AppReturn::Continue,
    {
        let _ = self.state.load_events(events);
        AppReturn::Continue
    }

    /// The enabled actions.
    pub fn actions(&self) -> (enabled: &Actions)
        ensures
            *enabled == self.actions,
    {
        &self.actions
    }

    /// The state of the dashboard, to read. The state is changed by the
    /// commands of the application alone.
    pub fn state(&self) -> (state: &AppState)
        ensures
            *state == self.state,
    {
        &self.state
    }

    /// Moves the cursor to the next event.
    pub fn next_event(&mut self) -> (r: AppReturn)
        ensures
            final(self).actions == old(self).actions,
            final(self).state@ == old(self).state@.selected_next(),
            old(self).state@.wf() ==> final(self).state@.wf(),
            r == AppReturn::Continue,
    {
        self.state.increment_selection();
        AppReturn::Continue
    }

    /// Moves the cursor to the event before.
    pub fn previous_event(&mut self) -> (r: AppReturn)
        ensures
            final(self).actions == old(self).actions,
            final(self).state@ == old(self).state@.selected_previous(),
            old(self).state@.wf() ==> final(self).state@.wf(),
            r == AppReturn::Continue,
    {
        self.state.decrement_selection();
        AppReturn::Continue
    }

    /// Moves the filter on: from day to week, from week to month, from
    /// month to day.
    pub fn switch_filter(&mut self) -> (r: AppReturn)
        ensures
            final(self).actions == old(self).actions,
            final(self).state@ == old(self).state@.switched(),
            final(self).state@.wf(),
            r == AppReturn::Continue,
    {
        self.state.switch_filter();
        AppReturn::Continue
    }
}

/// Only the two keys of the action to quit end the run, and only while that
/// action is enabled.
pub proof fn lemma_exit_keys(enabled: Seq<Action>, key: Key)
    ensures
        return_after_key(enabled, key) == AppReturn::Exit <==> enabled.contains(Action::Quit) && (
        key == Key::Char('q') || key == Key::Ctrl('c')),
{
}

/// A key that triggers no enabled action changes nothing and does not end
/// the run.
pub proof fn lemma_unbound_key(enabled: Seq<Action>, state: AppStateView, key: Key)
    requires
        forall|action: Action| enabled.contains(action) ==> !#[trigger] action.triggered_by(key),
    ensures
        state_after_key(enabled, state, key) == state,
        return_after_key(enabled, key) == AppReturn::Continue,
{
    if let Some(action) = bound_action(key) {
        lemma_bound_action(action, key);
    }
}

/// No event of the input stream takes a consistent state out of the
/// consistent states, sets a running dashboard back to the state before
/// setup, or starts a dashboard that was not set up.
pub proof fn lemma_event_keeps_consistency(
    enabled: Seq<Action>,
    state: AppStateView,
    event: InputEvent,
)
    ensures
        state.wf() ==> state_after_event(enabled, state, event).wf(),
        state is Initialized <==> state_after_event(enabled, state, event) is Initialized,
        state is Init ==> state_after_event(enabled, state, event) == state,
{
    if state.wf() {
        lemma_commands_keep_consistency(state);
    }
}

/// A run of events of any length keeps a consistent state consistent and a
/// running dashboard running.
pub proof fn lemma_stream_keeps_consistency(
    enabled: Seq<Action>,
    state: AppStateView,
    stream: Seq<InputEvent>,
)
    ensures
        state.wf() ==> state_after_stream(enabled, state, stream).wf(),
        state is Initialized <==> state_after_stream(enabled, state, stream) is Initialized,
        state is Init ==> state_after_stream(enabled, state, stream) == state,
    decreases stream.len(),
{
    if stream.len() > 0 && return_after_event(enabled, stream.first()) != AppReturn::Exit {
        lemma_event_keeps_consistency(enabled, state, stream.first());
        lemma_stream_keeps_consistency(
            enabled,
            state_after_event(enabled, state, stream.first()),
            stream.drop_first(),
        );
    }
}

/// A run of ticks changes nothing.
pub proof fn lemma_ticks_change_nothing(
    enabled: Seq<Action>,
    state: AppStateView,
    stream: Seq<InputEvent>,
)
    requires
        forall|i: int| 0 <= i < stream.len() ==> stream[i] == InputEvent::Tick,
    ensures
        state_after_stream(enabled, state, stream) == state,
    decreases stream.len(),
{
    if stream.len() > 0 {
        assert(stream.first() == InputEvent::Tick);
        assert forall|i: int| 0 <= i < stream.drop_first().len() implies stream.drop_first()[i]
            == InputEvent::Tick by {
            assert(stream.drop_first()[i] == stream[i + 1]);
        }
        lemma_ticks_change_nothing(enabled, state, stream.drop_first());
    }
}

} // verus!
