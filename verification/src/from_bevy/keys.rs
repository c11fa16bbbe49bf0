//! The standard backend, which translates key combinations into game events, and the button
//! backend, which translates button presses into game events.
//!
//! ## Syntax of key combinations
//! 1. `ii`: the `i` key pressed twice in a row (a double click);
//! 2. `<ctrl>i`: `ctrl` then `i`;
//! 3. `<space>`: the space bar.

use vstd::prelude::*;
use std::collections::HashMap;
use vstd::string::StringExecFns;
use crate::from_bevy::event::{GameEvent, GameEventGroup};

verus! {

broadcast use vstd::std_specs::hash::group_hash_axioms;

/// The bindings of an association list: a later entry overrides an earlier one.
pub open spec fn bindings(s: Seq<(String, GameEvent)>) -> Map<Seq<char>, GameEvent>
    decreases s.len(),
{
    if s.len() == 0 {
        Map::empty()
    } else {
        bindings(s.drop_last()).insert(s.last().0@, s.last().1)
    }
}

/// No entry after index `i` binds `k`.
pub open spec fn last_binding(s: Seq<(String, GameEvent)>, k: Seq<char>, i: int) -> bool {
    &&& 0 <= i < s.len()
    &&& s[i].0@ == k
    &&& forall|j: int| i < j < s.len() ==> (#[trigger] s[j]).0@ != k
}

proof fn lemma_bindings_absent(s: Seq<(String, GameEvent)>, k: Seq<char>)
    requires
        forall|j: int| 0 <= j < s.len() ==> (#[trigger] s[j]).0@ != k,
    ensures
        !bindings(s).contains_key(k),
    decreases s.len(),
{
    if s.len() > 0 {
        lemma_bindings_absent(s.drop_last(), k);
    }
}

proof fn lemma_bindings_last(s: Seq<(String, GameEvent)>, k: Seq<char>, i: int)
    requires
        last_binding(s, k, i),
    ensures
        bindings(s).contains_key(k),
        bindings(s)[k] == s[i].1,
    decreases s.len(),
{
    if i < s.len() - 1 {
        lemma_bindings_last(s.drop_last(), k, i);
    }
}

proof fn lemma_bindings_update(s: Seq<(String, GameEvent)>, k: String, v: GameEvent, i: int)
    requires
        last_binding(s, k@, i),
    ensures
        bindings(s.update(i, (k, v))) == bindings(s).insert(k@, v),
    decreases s.len(),
{
    let u = s.update(i, (k, v));
    if i == s.len() - 1 {
        assert(u.drop_last() =~= s.drop_last());
        assert(bindings(u) =~= bindings(s).insert(k@, v));
    } else {
        lemma_bindings_update(s.drop_last(), k, v, i);
        assert(u.drop_last() =~= s.drop_last().update(i, (k, v)));
        assert(s.last().0@ != k@);
        assert(bindings(u) =~= bindings(s).insert(k@, v));
    }
}

/// A table from key combinations to game events.
pub struct KeyBindings {
    entries: Vec<(String, GameEvent)>,
}

impl View for KeyBindings {
    type V = Map<Seq<char>, GameEvent>;

    closed spec fn view(&self) -> Map<Seq<char>, GameEvent> {
        bindings(self.entries@)
    }
}

impl KeyBindings {
    pub fn new() -> (b: Self)
        ensures
            b@ == Map::<Seq<char>, GameEvent>::empty(),
    {
        KeyBindings { entries: Vec::new() }
    }

    /// The index of the entry that binds `key`, if any.
    fn find(&self, key: &String) -> (i: Option<usize>)
        ensures
            match i {
                Some(i) => last_binding(self.entries@, key@, i as int),
                None => forall|j: int|
                    0 <= j < self.entries@.len() ==> (#[trigger] self.entries@[j]).0@ != key@,
            },
    {
        let mut i = self.entries.len();
        while i > 0
            invariant
                i <= self.entries@.len(),
                forall|j: int| i <= j < self.entries@.len() ==> (#[trigger] self.entries@[j]).0@ != key@,
            decreases i,
        {
            i = i - 1;
            if self.entries[i].0 == *key {
                return Some(i);
            }
        }
        None
    }

    /// Binds `key` to `ge`, replacing any previous binding of `key`.
    pub fn insert(&mut self, key: String, ge: GameEvent)
        ensures
            final(self)@ == old(self)@.insert(key@, ge),
    {
        match self.find(&key) {
            Some(i) => {
                proof {
                    lemma_bindings_update(self.entries@, key, ge, i as int);
                }
                self.entries.set(i, (key, ge));
            },
            None => {
                let ghost before = self.entries@;
                self.entries.push((key, ge));
                assert(self.entries@.drop_last() =~= before);
            },
        }
    }

    /// The game event bound to `key`, if any.
    pub fn get(&self, key: &String) -> (ge: Option<GameEvent>)
        ensures
            ge == (if self@.contains_key(key@) { Some(self@[key@]) } else { None::<GameEvent> }),
    {
        match self.find(key) {
            Some(i) => {
                proof {
                    lemma_bindings_last(self.entries@, key@, i as int);
                }
                Some(self.entries[i].1)
            },
            None => {
                proof {
                    lemma_bindings_absent(self.entries@, key@);
                }
                None
            },
        }
    }
}

/// The bindings of the built-in group `geg`.
pub open spec fn group_bindings(geg: GameEventGroup) -> Map<Seq<char>, GameEvent> {
    match geg {
        GameEventGroup::Move => Map::empty().insert(seq!['s'], GameEvent::MoveDown).insert(
            seq!['w'],
            GameEvent::MoveUp,
        ).insert(seq!['a'], GameEvent::MoveLeft).insert(seq!['d'], GameEvent::MoveRight).insert(
            seq!['<', 's', 'p', 'a', 'c', 'e', '>'],
            GameEvent::Jump,
        ),
    }
}

/// The table of a standard backend, which translates key combinations into game events.
pub struct StdBackend {
    key_to_game_event: KeyBindings,
}

impl View for StdBackend {
    type V = Map<Seq<char>, GameEvent>;

    closed spec fn view(&self) -> Map<Seq<char>, GameEvent> {
        self.key_to_game_event@
    }
}

impl StdBackend {
    pub fn new() -> (b: Self)
        ensures
            b@ == Map::<Seq<char>, GameEvent>::empty(),
    {
        StdBackend { key_to_game_event: KeyBindings::new() }
    }

    /// Binds the keys of the built-in group `geg`, replacing previous bindings of these keys.
    pub fn register_group(&mut self, geg: GameEventGroup)
        ensures
            final(self)@ == old(self)@.union_prefer_right(group_bindings(geg)),
    {
        match geg {
            GameEventGroup::Move => {
                proof {
                    reveal_strlit("s");
                    reveal_strlit("w");
                    reveal_strlit("a");
                    reveal_strlit("d");
                    reveal_strlit("<space>");
                    assert("s"@ =~= seq!['s']);
                    assert("w"@ =~= seq!['w']);
                    assert("a"@ =~= seq!['a']);
                    assert("d"@ =~= seq!['d']);
                    assert("<space>"@ =~= seq!['<', 's', 'p', 'a', 'c', 'e', '>']);
                }
                self.key_to_game_event.insert(String::from_str("s"), GameEvent::MoveDown);
                self.key_to_game_event.insert(String::from_str("w"), GameEvent::MoveUp);
                self.key_to_game_event.insert(String::from_str("a"), GameEvent::MoveLeft);
                self.key_to_game_event.insert(String::from_str("d"), GameEvent::MoveRight);
                self.key_to_game_event.insert(String::from_str("<space>"), GameEvent::Jump);
                assert(self@ =~= old(self)@.union_prefer_right(group_bindings(geg)));
            },
        }
    }

    /// Binds the key combination `key` to `ge`.
    pub fn register(&mut self, key: String, ge: GameEvent)
        ensures
            final(self)@ == old(self)@.insert(key@, ge),
    {
        self.key_to_game_event.insert(key, ge);
    }

    /// The game event to send when the key combination `key` is typed, if it is bound.
    pub fn broadcast(&self, key: &String) -> (ge: Option<GameEvent>)
        ensures
            ge == (if self@.contains_key(key@) { Some(self@[key@]) } else { None::<GameEvent> }),
    {
        self.key_to_game_event.get(key)
    }
}

/// A binding is read back as written: after `register(key, ge)` the combination `key` is
/// translated into `ge`, and every other combination as before.
pub proof fn lemma_register_then_broadcast(
    m: Map<Seq<char>, GameEvent>,
    key: Seq<char>,
    ge: GameEvent,
    other: Seq<char>,
)
    ensures
        m.insert(key, ge).contains_key(key),
        m.insert(key, ge)[key] == ge,
        other != key ==> m.insert(key, ge).contains_key(other) == m.contains_key(other),
        other != key && m.contains_key(other) ==> m.insert(key, ge)[other] == m[other],
{
}

/// A released key, as the key tracker sees it.
pub enum KeyName {
    /// A key that types `c`.
    Character(String),
    Space,
    Control,
    /// Any other key.
    Other,
}

/// The name of a key in key combinations.
pub open spec fn spec_key_name(k: KeyName) -> Seq<char> {
    match k {
        KeyName::Character(c) => c@,
        KeyName::Space => seq!['<', 's', 'p', 'a', 'c', 'e', '>'],
        KeyName::Control => seq!['<', 'c', 't', 'r', 'l', '>'],
        KeyName::Other => Seq::empty(),
    }
}

/// The key combination typed when key `cur` follows key `prev`: after a double click the two
/// keys combine, `<ctrl>` going first.
pub open spec fn spec_combination(prev: Seq<char>, cur: Seq<char>, double_click: bool) -> Seq<char> {
    if !double_click {
        cur
    } else if cur == seq!['<', 'c', 't', 'r', 'l', '>'] {
        cur + prev
    } else {
        prev + cur
    }
}

/// Whether two key releases `elapsed_nanos` nanoseconds apart form a double click: they do
/// within 200 milliseconds.
pub fn is_double_click(elapsed_nanos: u128) -> (b: bool)
    ensures
        b == (elapsed_nanos <= 200_000_000),
{
    elapsed_nanos <= 200_000_000
}

pub fn key_name(k: &KeyName) -> (name: String)
    ensures
        name@ == spec_key_name(*k),
{
    match k {
        KeyName::Character(c) => c.clone(),
        KeyName::Space => {
            proof {
                reveal_strlit("<space>");
                assert("<space>"@ =~= seq!['<', 's', 'p', 'a', 'c', 'e', '>']);
            }
            String::from_str("<space>")
        },
        KeyName::Control => {
            proof {
                reveal_strlit("<ctrl>");
                assert("<ctrl>"@ =~= seq!['<', 'c', 't', 'r', 'l', '>']);
            }
            String::from_str("<ctrl>")
        },
        KeyName::Other => String::new(),
    }
}

/// Tracks the last released key, to recognize key combinations.
pub struct KeyTracker {
    prev: String,
}

impl View for KeyTracker {
    type V = Seq<char>;

    closed spec fn view(&self) -> Seq<char> {
        self.prev@
    }
}

impl KeyTracker {
    /// A tracker that has seen no key.
    pub fn new() -> (t: Self)
        ensures
            t@ == Seq::<char>::empty(),
    {
        KeyTracker { prev: String::new() }
    }

    /// Key `key` was released; `double_click` tells whether it follows the previous release
    /// closely enough. Returns the key combination to broadcast, if it is not empty; the key
    /// becomes the previous one.
    pub fn release(&mut self, key: &KeyName, double_click: bool) -> (combination: Option<String>)
        ensures
            final(self)@ == spec_key_name(*key),
            match combination {
                Some(c) => c@ == spec_combination(old(self)@, spec_key_name(*key), double_click)
                    && c@.len() > 0,
                None => spec_combination(old(self)@, spec_key_name(*key), double_click).len() == 0,
            },
    {
        let cur = key_name(key);
        proof {
            reveal_strlit("<ctrl>");
            assert("<ctrl>"@ =~= seq!['<', 'c', 't', 'r', 'l', '>']);
        }
        let ctrl = String::from_str("<ctrl>");
        let combination = if !double_click {
            cur.clone()
        } else if cur == ctrl {
            cur.clone().concat(self.prev.as_str())
        } else {
            self.prev.clone().concat(cur.as_str())
        };
        self.prev = cur;
        if combination.as_str().is_empty() {
            None
        } else {
            Some(combination)
        }
    }
}

/// The table of a button backend, which translates button presses into game events. Buttons
/// are identified by the bits of their entity.
pub struct ButtonBackend {
    entity_to_game_event: HashMap<u64, GameEvent>,
}

impl View for ButtonBackend {
    type V = Map<u64, GameEvent>;

    closed spec fn view(&self) -> Map<u64, GameEvent> {
        self.entity_to_game_event@
    }
}

impl ButtonBackend {
    pub fn new() -> (b: Self)
        ensures
            b@ == Map::<u64, GameEvent>::empty(),
    {
        ButtonBackend { entity_to_game_event: HashMap::new() }
    }

    /// Binds button `entity` to `ge`.
    pub fn register(&mut self, entity: u64, ge: GameEvent)
        ensures
            final(self)@ == old(self)@.insert(entity, ge),
    {
        self.entity_to_game_event.insert(entity, ge);
    }

    /// The game event to send when button `entity` is pressed, if it is bound.
    pub fn broadcast(&self, entity: u64) -> (ge: Option<GameEvent>)
        ensures
            ge == (if self@.contains_key(entity) { Some(self@[entity]) } else { None::<GameEvent> }),
    {
        match self.entity_to_game_event.get(&entity) {
            Some(ge) => Some(*ge),
            None => None,
        }
    }
}

} // verus!
