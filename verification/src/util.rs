//! Plain geometry: points and boxes in whole pixels.

use vstd::prelude::*;

verus! {

/// A pair of coordinates, or a displacement along both axes.
#[derive(Clone, Copy, Debug, PartialEq, Eq, Structural)]
pub struct Point {
    pub x: i64,
    pub y: i64,
}

/// A box given by its top left corner and its size.
#[derive(Clone, Copy, Debug, PartialEq, Eq, Structural)]
pub struct Rectangle {
    pub left: i64,
    pub top: i64,
    pub width: i64,
    pub height: i64,
}

} // verus!
