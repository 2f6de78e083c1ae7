use vstd::prelude::*;
use vstd::std_specs::convert::FromSpecImpl;

verus! {

/// One of the four digit positions, counted from the left.
#[derive(Clone, Copy, Debug, PartialEq, Eq, PartialOrd, Structural)]
pub enum Index {
    /// First digit
    One,
    /// Second digit
    Two,
    /// Third digit
    Three,
    /// Fourth digit
    Four,
}

impl Index {
    /// The position as a number, 0 for the leftmost digit.
    pub open spec fn position(self) -> int {
        match self {
            Index::One => 0,
            Index::Two => 1,
            Index::Three => 2,
            Index::Four => 3,
        }
    }

    /// The position with the given number. There are four positions: a number
    /// above 3 names none of them and is not accepted.
    pub fn from(v: u8) -> (index: Index)
        requires
            v <= 3,
        ensures
            index.position() == v,
    {
        match v {
            0 => Index::One,
            1 => Index::Two,
            2 => Index::Three,
            _ => Index::Four,
        }
    }
}

impl From<Index> for u8 {
    fn from(i: Index) -> (v: u8) {
        match i {
            Index::One => 0,
            Index::Two => 1,
            Index::Three => 2,
            Index::Four => 3,
        }
    }
}

impl FromSpecImpl<Index> for u8 {
    open spec fn obeys_from_spec() -> bool {
        true
    }

    open spec fn from_spec(i: Index) -> u8 {
        i.position() as u8
    }
}

/// The physical slot of the digit at `position`. The display takes up five
/// slots of two rows each; the colon holds slot 2, so the third and fourth digit
/// stand one slot further right than their position says.
pub open spec fn slot_of(position: int) -> int {
    if position < 2 {
        position
    } else {
        position + 1
    }
}

/// The slot that holds the colon.
pub const COLON_SLOT: u8 = 2;

/// Computes the physical slot of a digit position.
pub fn physical_slot(index: Index) -> (slot: u8)
    ensures
        slot == slot_of(index.position()),
        slot <= 4,
        slot != COLON_SLOT,
{
    let position: u8 = u8::from(index);
    if position < 2 {
        position
    } else {
        position + 1
    }
}

} // verus!
