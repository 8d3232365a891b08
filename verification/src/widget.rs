//! What belongs to one widget: its layout node, its scroll state and its
//! properties.

pub mod layout;
pub mod scroll;
pub mod property;
