//! Keyboard events as the lock screen sees them.

use vstd::prelude::*;

verus! {

/// The keys that the lock screen treats specially; every other key is
/// `Other` and contributes only the text it produces.
#[derive(Clone, Copy, Debug, PartialEq, Eq, Structural)]
pub enum Key {
    BackSpace,
    Return,
    KpEnter,
    Escape,
    Left,
    Right,
    Home,
    End,
    Delete,
    /// The lower-case `u` key (Ctrl+U clears the password).
    U,
    F1,
    F2,
    F3,
    AudioPlay,
    AudioPause,
    AudioNext,
    AudioPrev,
    Other,
}

/// Modifier state at the time of a key event.
#[derive(Clone, Copy, Debug, Default, PartialEq, Eq, Structural)]
pub struct Modifiers {
    pub ctrl: bool,
    pub alt: bool,
    pub shift: bool,
    pub caps_lock: bool,
    pub logo: bool,
    pub num_lock: bool,
}

} // verus!
