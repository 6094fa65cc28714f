//! Directions of movement.
use vstd::prelude::*;

verus! {

/// Up or down in a list; left or right in a line of text.
#[derive(PartialEq, Eq, Structural, Clone, Copy, Debug)]
pub enum Direction {
    Up,
    Down,
}

} // verus!
