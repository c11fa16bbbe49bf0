//! Game events and the routing of them from backends to foreends.
//!
//! A [GameEvent] is a logic event sent by a backend to a foreend. The backends are:
//! 1. the standard backend, which translates key combinations into game events;
//! 2. the button backend, which sends an event when a button is pressed;
//! 3. the developer backend, where every foreend registers and which reads developer commands;
//! 4. the record and replay backends, which record game events and replay them later.
//!
//! This module holds the tables and decisions of these backends; the channels that carry the
//! events are held by the caller.

pub mod event;
pub mod keys;
pub mod developer;
pub mod console;
pub mod record;
pub mod replay;

pub use event::{GameEvent, GameEventGroup};
pub use record::{RecordBackend, RecordClock, RecordUnit, Tape};
pub use replay::VTape;
pub use keys::{ButtonBackend, KeyBindings, KeyName, KeyTracker, StdBackend};
pub use developer::DeveloperBackend;
pub use console::{ConsoleAction, ConsoleCommand};
