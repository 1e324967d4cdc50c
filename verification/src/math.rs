//! Lattice coordinates and axes.

pub mod hexadecitree;

use vstd::prelude::*;

verus! {

/// Coordinate of a foxel: four signed lattice indices.
#[derive(Debug, Clone, Copy, PartialEq, Eq, Hash, Structural)]
pub struct BlockPos {
    pub x: i32,
    pub y: i32,
    pub z: i32,
    pub w: i32,
}

impl BlockPos {
    pub fn new(x: i32, y: i32, z: i32, w: i32) -> (pos: BlockPos)
        ensures
            pos == (BlockPos { x, y, z, w }),
    {
        BlockPos { x, y, z, w }
    }

    /// The component along one axis, axes counted x, y, z, w from 0.
    pub open spec fn axis(self, axis: int) -> int {
        if axis == 0 {
            self.x as int
        } else if axis == 1 {
            self.y as int
        } else if axis == 2 {
            self.z as int
        } else {
            self.w as int
        }
    }

    /// The four components in axis order.
    pub fn as_array(&self) -> (a: [i32; 4])
        ensures
            a@[0] == self.x && a@[1] == self.y && a@[2] == self.z && a@[3] == self.w,
            forall|i: int| 0 <= i < 4 ==> #[trigger] a@[i] == self.axis(i),
    {
        [self.x, self.y, self.z, self.w]
    }

    pub fn from_array(a: [i32; 4]) -> (pos: BlockPos)
        ensures
            pos == (BlockPos { x: a@[0], y: a@[1], z: a@[2], w: a@[3] }),
            forall|i: int| 0 <= i < 4 ==> #[trigger] a@[i] == pos.axis(i),
    {
        BlockPos { x: a[0], y: a[1], z: a[2], w: a[3] }
    }
}

/// X is the axis that gravity goes in, with +X being up; the imaginary
/// direction can be Y, Z or W.
#[derive(Debug, Clone, Copy, PartialEq, Eq, Structural)]
pub enum Axis {
    X,
    Y,
    Z,
    W,
}

impl Axis {
    /// The place of this axis in a coordinate.
    pub open spec fn ordinal(self) -> int {
        match self {
            Axis::X => 0,
            Axis::Y => 1,
            Axis::Z => 2,
            Axis::W => 3,
        }
    }

    pub fn index(self) -> (i: usize)
        ensures
            i == self.ordinal(),
    {
        match self {
            Axis::X => 0,
            Axis::Y => 1,
            Axis::Z => 2,
            Axis::W => 3,
        }
    }

    /// The imaginary axis after it is turned on by `d_imag` places. The
    /// imaginary axis goes round Y, Z and W: this skips X.
    pub fn turned(self, d_imag: i8) -> (axis: Axis)
        ensures
            axis.ordinal() == (self.ordinal() - 1 + d_imag) % 3 + 1,
    {
        let current_idx: i16 = self.index() as i16;
        // 129 is a multiple of 3 that lifts every sum to where it is not
        // negative
        let lifted: i16 = current_idx - 1 + d_imag as i16 + 129;
        let idx: i16 = lifted % 3 + 1;
        if idx == 1 {
            Axis::Y
        } else if idx == 2 {
            Axis::Z
        } else {
            Axis::W
        }
    }

    /// The axis at a place, if the place is one of the four.
    pub fn from_index(i: usize) -> (axis: Option<Axis>)
        ensures
            i < 4 <==> axis is Some,
            axis is Some ==> axis->0.ordinal() == i,
    {
        match i {
            0 => Some(Axis::X),
            1 => Some(Axis::Y),
            2 => Some(Axis::Z),
            3 => Some(Axis::W),
            _ => None,
        }
    }
}

/// The lattice unit vector along axis `idx`.
pub open spec fn spec_basis4(idx: int) -> Seq<i32> {
    seq![0i32, 0i32, 0i32, 0i32].update(idx, 1i32)
}

pub fn basis4(idx: usize) -> (v: [i32; 4])
    requires
        idx < 4,
    ensures
        v@ == spec_basis4(idx as int),
{
    let mut v: [i32; 4] = [0, 0, 0, 0];
    v[idx] = 1;
    v
}

} // verus!
