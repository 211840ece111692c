//! A compact classification of keypresses: a single optional modifier and a
//! coarse key class, for configuration records that do not need the full
//! key-event model.

use vstd::prelude::*;

verus! {

/// A single modifier key.
#[derive(Debug, Clone, Copy, PartialEq, Eq, Hash, Structural)]
pub enum Modifier {
    Shift,
    Control,
    Meta,
    Super,
}

/// A coarse class of keys: named keys (enter, backspace, ...), printable
/// ASCII, or function keys.
#[derive(Debug, Clone, Copy, PartialEq, Eq, Hash, Structural)]
pub enum Key {
    Meta,
    Ascii,
    F,
}

/// A keypress: an optional modifier together with a key class.
#[derive(Debug, Clone, Copy, PartialEq, Eq, Hash, Structural)]
pub struct Keypress {
    pub modi: Option<Modifier>,
    pub key: Key,
}

} // verus!
