//! The properties that a widget can have, by which its appearance is chosen.

use vstd::prelude::*;

verus! {

/// A property of a widget.
#[derive(Hash, PartialEq, Eq, Clone, Copy, PartialOrd, Ord, Debug, Structural)]
pub enum Property {
    MouseOver,
    Activated,
    Selected,
    Pressed,
    Inactive,
    Focused,
}

impl Property {
    /// The place of the property in the order of declaration, from 0.
    pub open spec fn rank(self) -> nat {
        match self {
            Property::MouseOver => 0,
            Property::Activated => 1,
            Property::Selected => 2,
            Property::Pressed => 3,
            Property::Inactive => 4,
            Property::Focused => 5,
        }
    }

    /// The place of the property in the order of declaration, from 0.
    pub fn index(self) -> (r: u8)
        ensures
            r == self.rank(),
    {
        match self {
            Property::MouseOver => 0,
            Property::Activated => 1,
            Property::Selected => 2,
            Property::Pressed => 3,
            Property::Inactive => 4,
            Property::Focused => 5,
        }
    }
}

} // verus!
