//! Castling rights of one side.

use vstd::prelude::*;

verus! {

/// Whether a side may still castle on the king's side (`short`) and on the
/// queen's side (`long`).
#[derive(Clone, Copy, PartialEq, Eq, Structural, Debug)]
pub struct Castle {
    pub short: bool,
    pub long: bool,
}

impl Castle {
    /// Both rights held.
    pub fn new() -> (c: Castle)
        ensures
            c.short,
            c.long,
    {
        Self { short: true, long: true }
    }

    /// Both rights lost.
    pub fn forbid() -> (c: Castle)
        ensures
            !c.short,
            !c.long,
    {
        Self { short: false, long: false }
    }
}

} // verus!
