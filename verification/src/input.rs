//! Input vocabulary: engine key codes, mouse buttons, modifier state and
//! interaction ids.

use vstd::prelude::*;

verus! {

/// Engine-level key code (a subset of a full keyboard layout).
#[derive(Debug, Clone, Copy, PartialEq, Eq, Hash, Structural)]
pub enum KeyCode {
    /// Arrow up.
    Up,
    /// Arrow down.
    Down,
    /// Arrow left.
    Left,
    /// Arrow right.
    Right,
    /// Enter / Return.
    Return,
    /// Escape.
    Escape,
    /// Space bar.
    Space,
    /// Tab.
    Tab,
    /// Backspace.
    Backspace,
    /// Delete.
    Delete,
    /// Home.
    Home,
    /// End.
    End,
    /// Page up.
    PageUp,
    /// Page down.
    PageDown,
    /// Digit row key `0`..`9`.
    Digit(u8),
    /// Letter key (lowercase).
    Letter(char),
    /// Function key `F1`..`F24`.
    F(u8),
}

impl KeyCode {
    /// Digits 1–9 select a verb.
    pub fn is_verb_hotkey(self) -> (r: bool)
        ensures
            r == (self matches KeyCode::Digit(d) && 1 <= d <= 9),
    {
        match self {
            KeyCode::Digit(d) => 1 <= d && d <= 9,
            _ => false,
        }
    }
}

/// Mouse buttons.
#[derive(Debug, Clone, Copy, PartialEq, Eq, Hash, Structural)]
pub enum MouseButton {
    /// Left button (primary).
    Left,
    /// Right button (secondary).
    Right,
    /// Middle button (wheel click).
    Middle,
    /// Other button by index (0-based).
    Other(u16),
}

/// Modifier key state at the time of an event.
#[derive(Debug, Clone, Copy, PartialEq, Eq, Structural)]
pub struct Modifiers {
    /// Shift held.
    pub shift: bool,
    /// Ctrl held.
    pub ctrl: bool,
    /// Alt held.
    pub alt: bool,
    /// Logo (Windows/Command) held.
    pub logo: bool,
}

impl Modifiers {
    /// No modifiers held.
    pub fn none() -> (r: Modifiers)
        ensures
            r == (Modifiers { shift: false, ctrl: false, alt: false, logo: false }),
    {
        Modifiers { shift: false, ctrl: false, alt: false, logo: false }
    }

    /// Are no modifiers held?
    pub fn is_empty(self) -> (r: bool)
        ensures
            r == (self == Modifiers { shift: false, ctrl: false, alt: false, logo: false }),
    {
        self == Modifiers::none()
    }
}

impl Default for Modifiers {
    fn default() -> (r: Modifiers)
        ensures
            r == (Modifiers { shift: false, ctrl: false, alt: false, logo: false }),
    {
        Modifiers::none()
    }
}

/// Stable id for an interactive thing (hotspot, UI widget, …). `0` is
/// reserved as "no interaction".
#[derive(Debug, Clone, Copy, PartialEq, Eq, Hash, Structural)]
pub struct InteractionId(pub u64);

impl InteractionId {
    /// Sentinel: no interaction.
    pub fn none() -> (r: InteractionId)
        ensures
            r.0 == 0,
    {
        InteractionId(0)
    }

    /// Construct from a u64.
    pub fn new(v: u64) -> (r: InteractionId)
        ensures
            r.0 == v,
    {
        InteractionId(v)
    }

    /// Is this the "no interaction" sentinel?
    pub fn is_none(self) -> (r: bool)
        ensures
            r == (self.0 == 0),
    {
        self.0 == 0
    }
}

impl Default for InteractionId {
    fn default() -> (r: InteractionId)
        ensures
            r.0 == 0,
    {
        InteractionId(0)
    }
}

} // verus!
