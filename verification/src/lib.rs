//! Monolith: the verified core of a game framework that runs game logic as coroutines and
//! treats the rendering engine as a display and peripheral library.
//!
//! This crate holds the decisions of the framework: the length-prefixed save format, the
//! pause/savegame lock protocol between a referee and its athletes, the routing of game events
//! from backends to foreends, event recording and replay scheduling, the developer console
//! grammar, and the parser of the embedded scripting language.

pub mod from_bevy;
pub mod lock;
pub mod macro_utils;
pub mod rover;
pub mod utils;
