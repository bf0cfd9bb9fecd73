//! What is kept from one session to the next.

use vstd::prelude::*;

verus! {

/// By what the items of a directory are ordered.
#[derive(Copy, Clone, Debug, PartialEq, Eq, Structural)]
pub enum SortKey {
    /// By name, in natural order.
    Name,
    /// By the time of the last modification, the latest first.
    Time,
}

/// The settings that outlive a session.
#[derive(Copy, Clone, Debug, PartialEq, Eq, Structural)]
pub struct Session {
    pub sort_by: SortKey,
    pub show_hidden: bool,
}

} // verus!
