//! The game events.

use vstd::prelude::*;

verus! {

/// A logic event sent from a backend to a foreend. Key shortcuts are mapped to game events, so
/// that users can remap them.
///
/// A payload that is a pointer is stored as a `usize`: the backend allocates it and the foreend
/// frees it.
#[derive(Copy, Clone, Debug, PartialEq, Eq, Hash, Structural)]
pub enum GameEvent {
    MoveLeft,
    MoveRight,
    MoveUp,
    MoveDown,
    Jump,
    // System events.
    Load { file_name: usize },
    Save { file_name: usize },
    Pause,
    Resume,
    Exit,
    /// A button was pressed.
    Button { entity: u64 },
    /// An event defined by the game.
    UserDefined { id: u32, payload: usize },
}

/// Built-in groups of key bindings.
#[derive(Copy, Clone, Debug, PartialEq, Eq, Structural)]
pub enum GameEventGroup {
    /// `w`, `a`, `s`, `d` and space move the player.
    Move,
}

} // verus!
