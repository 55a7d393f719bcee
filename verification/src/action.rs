//! What the interactive loop can be asked to do. Raw terminal events
//! are translated outside; everything past that translation works with
//! these actions.

use vstd::prelude::*;

verus! {

/// One step of the interactive loop.
#[derive(Clone, Copy, Debug, PartialEq, Eq, Structural)]
pub enum Action {
    Noop,
    Exit,
    Launch,
    LaunchKeepAlive,
    EnterChar(char),
    RemovePreviousChar,
    RemoveNextChar,
    MoveCursorLeft,
    MoveCursorRight,
    SelectNextApplication,
    SelectPreviousApplication,
    Blacklist,
}

} // verus!
