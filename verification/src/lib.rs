//! A keyboard-shortcut matching engine: textual key-combination
//! specifications are parsed into canonical `Hotkey` values, matched against
//! the set of currently pressed keys (with left/right modifier aliasing),
//! and filtered by a set of active scope names before a binding fires.

pub mod strutil;
pub mod hotkey;
pub mod keystate;
pub mod matcher;
pub mod parser;
pub mod scope;
pub mod registry;
pub mod laws;
