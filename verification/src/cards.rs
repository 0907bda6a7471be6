//! The index-card view's answer to the shell.

use vstd::prelude::*;

verus! {

/// What the page asks the shell to do.
pub enum Act {
    /// Open the scene with this id in the editor.
    Open(u64),
    /// Move the scene at one place in the list to another.
    Move(usize, usize),
    /// Give the scene with this id a card colour, or take it away.
    Tint(u64, Option<usize>),
    /// Delete the scene at this place in the list.
    Delete(usize),
    NewScene,
}

/// What a frame of the card view came to.
pub struct Out {
    pub changed: bool,
    pub act: Option<Act>,
}

} // verus!
