use vstd::prelude::*;

verus! {

/// What the pointer does to the particles inside its radius.
#[derive(Debug, Copy, Clone, PartialEq, Eq, Structural)]
pub enum CursorForceType {
    /// The pointer leaves the particles alone.
    Idle,
    /// The pointer pulls the particles towards it.
    Attract,
    /// The pointer pushes the particles away.
    Repel,
}

impl CursorForceType {
    /// The sign of the force along the direction from a particle to the
    /// pointer: towards it, away from it, or no force at all.
    pub open spec fn spec_sign(self) -> int {
        match self {
            CursorForceType::Idle => 0,
            CursorForceType::Attract => 1,
            CursorForceType::Repel => -1,
        }
    }

    /// The sign of the force: `1` towards the pointer, `-1` away from it,
    /// `0` for no force.
    pub fn sign(self) -> (s: i32)
        ensures
            s == self.spec_sign(),
    {
        match self {
            CursorForceType::Idle => 0,
            CursorForceType::Attract => 1,
            CursorForceType::Repel => -1,
        }
    }
}

} // verus!
