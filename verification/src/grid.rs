//! Grid coordinates and the bounds of the playing field.

use vstd::prelude::*;

verus! {

/// The integer type of a coordinate.
pub type Int = i16;

/// The playing field spans `-MAX ..= MAX` on both axes.
pub const MAX: u16 = 3;

/// A position on the grid.
#[derive(Clone, Copy, Debug, PartialEq, Eq, Structural, Hash)]
pub struct Pos {
    pub x: Int,
    pub y: Int,
}

/// `v` brought into `-max ..= max`: the nearest value of that range.
pub open spec fn clamp(v: int, max: int) -> int {
    if v < -max {
        -max
    } else if v > max {
        max
    } else {
        v
    }
}

impl Pos {
    /// Whether both coordinates lie in `-max ..= max`.
    pub open spec fn within(self, max: int) -> bool {
        -max <= self.x <= max && -max <= self.y <= max
    }

    /// Brings both coordinates into `-max ..= max`. A `max` beyond the
    /// range of a coordinate leaves the position as it is.
    pub fn bound(&self, max: u16) -> (r: Pos)
        ensures
            r.x == clamp(self.x as int, max as int),
            r.y == clamp(self.y as int, max as int),
    {
        if max > 32767 {
            *self
        } else {
            let m: i16 = max as i16;
            Pos { x: clamp_coord(self.x, m), y: clamp_coord(self.y, m) }
        }
    }
}

fn clamp_coord(v: i16, m: i16) -> (r: i16)
    requires
        0 <= m,
    ensures
        r == clamp(v as int, m as int),
{
    if v < -m {
        -m
    } else if v > m {
        m
    } else {
        v
    }
}

} // verus!
