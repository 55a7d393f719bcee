//! Key bindings as plain data: a trigger key with an optional
//! modifier. The mapping from raw terminal events onto these is the
//! surrounding program's business.

use vstd::prelude::*;

verus! {

/// A modifier held together with a trigger key.
#[derive(Clone, Copy, Debug, PartialEq, Eq, Structural)]
pub enum KeybindModifier {
    Shift,
    Alt,
    Ctrl,
    Super,
}

/// A key that can carry an action.
#[derive(Clone, Copy, Debug, PartialEq, Eq, Structural)]
pub enum KeybindTrigger {
    Esc,
    Tab,
    Enter,
    Delete,
}

/// One binding: a trigger, possibly with a modifier.
#[derive(Clone, Copy, Debug, PartialEq, Eq, Structural)]
pub struct Keybind {
    pub modifier: Option<KeybindModifier>,
    pub key: KeybindTrigger,
}

impl Keybind {
    /// A binding on a bare key.
    pub fn new(key: KeybindTrigger) -> (r: Self)
        ensures
            r.modifier is None,
            r.key == key,
    {
        Keybind { modifier: None, key }
    }

    /// A binding on a modified key.
    pub fn new_with_mod(modifier: KeybindModifier, trigger: KeybindTrigger) -> (r: Self)
        ensures
            r.modifier == Some(modifier),
            r.key == trigger,
    {
        Keybind { modifier: Some(modifier), key: trigger }
    }
}

} // verus!
