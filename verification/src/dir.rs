//! Cardinal directions and their encoding as wall-mask bit positions.
use vstd::prelude::*;

verus! {

/// One of the four cardinal directions a cell can connect toward.
#[derive(Copy, Clone, PartialEq, Eq, Structural, Debug)]
pub enum Dir {
    Up,
    Right,
    Down,
    Left,
}

impl Dir {
    /// The direction pointing the opposite way.
    pub open spec fn spec_opposite(self) -> Dir {
        match self {
            Dir::Left => Dir::Right,
            Dir::Right => Dir::Left,
            Dir::Up => Dir::Down,
            Dir::Down => Dir::Up,
        }
    }

    pub fn opposite(&self) -> (r: Dir)
        ensures
            r == self.spec_opposite(),
    {
        match self {
            Dir::Left => Dir::Right,
            Dir::Right => Dir::Left,
            Dir::Up => Dir::Down,
            Dir::Down => Dir::Up,
        }
    }

    /// The bit position that stores this direction's open flag in a cell mask.
    pub open spec fn spec_index(self) -> usize {
        match self {
            Dir::Up => 0usize,
            Dir::Right => 1usize,
            Dir::Down => 2usize,
            Dir::Left => 3usize,
        }
    }

    pub fn index(&self) -> (r: usize)
        ensures
            r == self.spec_index(),
    {
        match self {
            Dir::Up => 0usize,
            Dir::Right => 1usize,
            Dir::Down => 2usize,
            Dir::Left => 3usize,
        }
    }
}

} // verus!
