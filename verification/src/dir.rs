//! The automaton's heading: one of four compass directions, rotated by +1
//! (clockwise) or -1 (counter-clockwise) steps of a modulo-4 cycle.

use vstd::prelude::*;

verus! {

/// A compass heading, enumerated in clockwise order.
#[derive(PartialEq, Eq, Structural, Copy, Clone, Debug)]
pub enum Dir {
    Up,
    Right,
    Down,
    Left,
}

impl Dir {
    /// Position of this heading in the clockwise cycle Up, Right, Down, Left.
    pub open spec fn index_spec(self) -> int {
        match self {
            Dir::Up => 0,
            Dir::Right => 1,
            Dir::Down => 2,
            Dir::Left => 3,
        }
    }

    /// The heading at position `n` of the clockwise cycle, taken modulo 4.
    pub open spec fn of_index(n: int) -> Dir {
        if n % 4 == 0 {
            Dir::Up
        } else if n % 4 == 1 {
            Dir::Right
        } else if n % 4 == 2 {
            Dir::Down
        } else {
            Dir::Left
        }
    }

    /// This heading rotated by +90 degrees (one clockwise step).
    pub open spec fn rotate_cw(self) -> Dir {
        Dir::of_index(self.index_spec() + 1)
    }

    /// This heading rotated by -90 degrees (one counter-clockwise step).
    pub open spec fn rotate_ccw(self) -> Dir {
        Dir::of_index(self.index_spec() - 1)
    }
}

impl From<Dir> for i8 {
    /// The position of the heading in the clockwise cycle, as a machine
    /// integer.
    fn from(d: Dir) -> (r: i8) {
        match d {
            Dir::Up => 0,
            Dir::Right => 1,
            Dir::Down => 2,
            Dir::Left => 3,
        }
    }
}

impl vstd::std_specs::convert::FromSpecImpl<Dir> for i8 {
    open spec fn obeys_from_spec() -> bool {
        true
    }

    open spec fn from_spec(d: Dir) -> i8 {
        d.index_spec() as i8
    }
}

impl From<i8> for Dir {
    /// The heading whose cycle position is `a` modulo 4, wrapping negative
    /// values correctly.
    fn from(a: i8) -> (d: Dir) {
        let mut m: i16 = a as i16 + 128;
        while m >= 4
            invariant
                m >= 0,
                (m as int) % 4 == (a as int) % 4,
            decreases m,
        {
            m = m - 4;
        }
        match m {
            0 => Dir::Up,
            1 => Dir::Right,
            2 => Dir::Down,
            _ => Dir::Left,
        }
    }
}

impl vstd::std_specs::convert::FromSpecImpl<i8> for Dir {
    open spec fn obeys_from_spec() -> bool {
        true
    }

    open spec fn from_spec(a: i8) -> Dir {
        Dir::of_index(a as int)
    }
}

/// Heading rotation is a pure modulo-4 cycle: four clockwise (+1) rotations
/// return any heading to itself, and so do four counter-clockwise (-1)
/// rotations.
pub proof fn lemma_rotation_cycle(d: Dir)
    ensures
        d.rotate_cw().rotate_cw().rotate_cw().rotate_cw() == d,
        d.rotate_ccw().rotate_ccw().rotate_ccw().rotate_ccw() == d,
        d.rotate_ccw().rotate_cw() == d,
        d.rotate_cw().rotate_ccw() == d,
{
}

} // verus!
