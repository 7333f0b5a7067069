//! Graph model basics shared by storage and execution.

use vstd::prelude::*;

verus! {

/// Direction of edge traversal.
#[derive(Debug, Clone, Copy, PartialEq, Eq, Hash, Structural)]
pub enum Direction {
    /// Follow outgoing edges (from source to destination).
    Outgoing,
    /// Follow incoming edges (from destination to source).
    Incoming,
    /// Follow edges in either direction.
    Both,
}

impl Direction {
    /// Returns the opposite direction; either direction flips,
    /// `Both` stays itself.
    pub fn reverse(self) -> (r: Direction)
        ensures
            r == (match self {
                Direction::Outgoing => Direction::Incoming,
                Direction::Incoming => Direction::Outgoing,
                Direction::Both => Direction::Both,
            }),
    {
        match self {
            Direction::Outgoing => Direction::Incoming,
            Direction::Incoming => Direction::Outgoing,
            Direction::Both => Direction::Both,
        }
    }
}

} // verus!
