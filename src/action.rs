//! The purchase kinds and their records.

use vstd::prelude::*;

verus! {

/// One purchase, as recorded in a turn's log entry.
#[derive(Debug, Clone, Copy, PartialEq, Eq, Structural)]
pub enum Action {
    /// Speed units bought.
    Acceleration(u32),
    /// A banana dropped; the index of the car that dropped it.
    Banana(usize),
    /// Shells fired; how many.
    Shell(usize),
}

/// A purchase that a car's script asks for in its turn.
#[derive(Debug, Clone, Copy, PartialEq, Eq, Structural)]
pub enum Request {
    /// Buy this many speed units.
    Acceleration(u32),
    /// Drop a banana where the car stands.
    Banana,
    /// Fire this many shells.
    Shell(u32),
}

/// Index of the sales counter and price slot of acceleration.
pub const ACCELERATION: usize = 0;

/// Index of the sales counter and price slot of bananas.
pub const BANANA: usize = 1;

/// Index of the sales counter and price slot of shells.
pub const SHELL: usize = 2;

/// The number of purchase kinds.
pub const KINDS: usize = 3;

impl Action {
    /// The kind of a purchase as a slot index, ignoring its payload.
    pub open spec fn kind(self) -> usize {
        match self {
            Action::Acceleration(_) => ACCELERATION,
            Action::Banana(_) => BANANA,
            Action::Shell(_) => SHELL,
        }
    }

    /// The slot of this purchase's kind in the sales counters and price lists.
    pub fn into_usize(self) -> (r: usize)
        ensures
            r == self.kind(),
            r < KINDS,
    {
        match self {
            Action::Acceleration(_) => ACCELERATION,
            Action::Banana(_) => BANANA,
            Action::Shell(_) => SHELL,
        }
    }
}

} // verus!
