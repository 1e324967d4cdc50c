//! Walking a ray through the lattice, cell by cell.
//!
//! This is the traversal of Amanatides and Woo, "A Fast Voxel Traversal
//! Algorithm for Ray Tracing", taken to four axes and done in whole numbers,
//! so that it is exact. A ray starts at a point given as a cell and an offset
//! into the cell, and runs along a heading given as four integers; only the
//! direction of the heading matters, not its length.
//!
//! On each axis along which the ray moves, the ray reaches the next wall of
//! its cell after travelling some distance along that axis; the time at which
//! it does is that distance over its speed on the axis. A step crosses the
//! wall that is reached first. Times are compared exactly, as fractions.
//! Where the ray reaches several walls at the very same time, it crosses
//! them one per step, the axis that comes first in x, y, z, w order first;
//! so every step crosses one wall, and every normal is a unit vector.
//!
//! A ray that starts on a wall is in the cell it is about to run into: the
//! cell above the wall if it moves to the high side or not at all on that
//! axis, the cell below if it moves to the low side. Either way it has a
//! whole cell before it, and no step is told for the wall it starts on.

use vstd::prelude::*;
use crate::math::BlockPos;

verus! {

/// How many units of distance make the width of one cell.
pub const UNITS_PER_CELL: u32 = 65536;

/// Where a ray starts: a cell, and how far into the cell the point lies on
/// each axis, in units of which `UNITS_PER_CELL` make a cell.
#[derive(Debug, Clone, Copy)]
pub struct RayOrigin {
    pub cell: [i32; 4],
    pub offset: [u16; 4],
}

/// A ray and the cell it has come to.
pub ghost struct Walk {
    /// The cell that holds the ray's origin.
    pub start: Seq<int>,
    /// How far into that cell the origin lies, in units, on each axis.
    pub offset: Seq<int>,
    /// The direction of the ray.
    pub heading: Seq<int>,
    /// The cell that the ray has come to.
    pub cell: Seq<int>,
}

impl Walk {
    /// The cell, on one axis, of a ray at its origin. It is the cell that
    /// holds the origin, but for an origin on the low wall of that cell and
    /// a ray that moves to the low side: such a ray is about to run into the
    /// cell below.
    pub open spec fn first_cell(start: int, offset: int, heading: int) -> int {
        if heading < 0 && offset == 0 {
            start - 1
        } else {
            start
        }
    }

    /// A ray at its origin.
    pub open spec fn begin(start: Seq<int>, offset: Seq<int>, heading: Seq<int>) -> Walk {
        Walk {
            start,
            offset,
            heading,
            cell: Seq::new(4, |a: int| Self::first_cell(start[a], offset[a], heading[a])),
        }
    }

    /// Whether the cell of a ray at its origin has lattice indices that fit
    /// the machine. It has, unless the origin lies on the low wall of the
    /// lowest cell there is and the ray moves to the low side.
    pub open spec fn begins_in_lattice(start: Seq<int>, offset: Seq<int>, heading: Seq<int>) -> bool {
        forall|a: int|
            0 <= a < 4 ==> i32::MIN <= #[trigger] Self::first_cell(start[a], offset[a], heading[a])
    }

    /// Whether the ray moves along an axis at all.
    pub open spec fn moving(self, axis: int) -> bool {
        self.heading[axis] != 0
    }

    /// The way the ray moves along an axis: 1, -1, or 0 if it does not.
    pub open spec fn sign(self, axis: int) -> int {
        if self.heading[axis] > 0 {
            1
        } else if self.heading[axis] < 0 {
            -1
        } else {
            0
        }
    }

    /// How fast the ray moves along an axis, whichever way.
    pub open spec fn speed(self, axis: int) -> int {
        if self.heading[axis] >= 0 {
            self.heading[axis]
        } else {
            -self.heading[axis]
        }
    }

    /// How far, in units, the ray has to travel along an axis from its
    /// origin to reach the wall of its cell that lies ahead.
    pub open spec fn reach(self, axis: int) -> int {
        if self.heading[axis] > 0 {
            (self.cell[axis] + 1 - self.start[axis]) * UNITS_PER_CELL - self.offset[axis]
        } else {
            (self.start[axis] - self.cell[axis]) * UNITS_PER_CELL + self.offset[axis]
        }
    }

    /// Whether the ray reaches the wall ahead on axis `a` strictly before the
    /// one on axis `b`: the time to a wall is the reach over the speed, and
    /// the two fractions are compared crosswise. Both axes have to be moving.
    pub open spec fn crosses_before(self, a: int, b: int) -> bool {
        self.reach(a) * self.speed(b) < self.reach(b) * self.speed(a)
    }

    /// Whether, where both axes are moving, `a` beats `b` to be crossed
    /// next: a wall reached earlier goes first, and of two reached at the
    /// same time the one on the earlier axis.
    pub open spec fn goes_first(self, a: int, b: int) -> bool {
        self.moving(b) ==> if b < a {
            self.crosses_before(a, b)
        } else {
            !self.crosses_before(b, a)
        }
    }

    /// Whether `axis` is the one that the next step crosses.
    pub open spec fn is_next_axis(self, axis: int) -> bool {
        &&& 0 <= axis < 4
        &&& self.moving(axis)
        &&& forall|b: int| 0 <= b < 4 ==> #[trigger] self.goes_first(axis, b)
    }

    /// Whether `axis` is the one to cross next if only the axes below
    /// `bound` are looked at.
    pub open spec fn leads_below(self, axis: int, bound: int) -> bool {
        &&& 0 <= axis < bound
        &&& self.moving(axis)
        &&& forall|b: int| 0 <= b < bound ==> #[trigger] self.goes_first(axis, b)
    }

    /// The axis that the next step crosses; none if the ray does not move.
    pub open spec fn next_axis(self) -> Option<int> {
        if exists|axis: int| self.is_next_axis(axis) {
            Some(choose|axis: int| self.is_next_axis(axis))
        } else {
            None
        }
    }

    /// The walk after the wall ahead on `axis` is crossed.
    pub open spec fn step(self, axis: int) -> Walk {
        Walk { cell: self.cell.update(axis, self.cell[axis] + self.sign(axis)), ..self }
    }

    /// The cell that the ray has come to, as a coordinate.
    pub open spec fn pos(self) -> BlockPos {
        BlockPos {
            x: self.cell[0] as i32,
            y: self.cell[1] as i32,
            z: self.cell[2] as i32,
            w: self.cell[3] as i32,
        }
    }

    /// Whether the ray moves at all.
    pub open spec fn moves(self) -> bool {
        exists|a: int| 0 <= a < 4 && self.moving(a)
    }

    /// The walk after `n` steps. A ray that does not move stays where it is.
    pub open spec fn after(self, n: nat) -> Walk
        decreases n,
    {
        if n == 0 {
            self
        } else {
            let before = self.after((n - 1) as nat);
            match before.next_axis() {
                Some(axis) => before.step(axis),
                None => before,
            }
        }
    }

    /// Whether a step can be taken and told: the ray moves, and the cell it
    /// would enter has lattice indices that fit the machine.
    pub open spec fn can_step(self) -> bool {
        self.next_axis() matches Some(axis) && i32::MIN <= self.cell[axis] + self.sign(axis)
            <= i32::MAX
    }

    /// The outward normal of the face that a step across `axis` enters
    /// through: a unit vector on that axis, against the way of the ray.
    pub open spec fn normal(self, axis: int) -> Seq<i32> {
        seq![0i32, 0i32, 0i32, 0i32].update(axis, (-self.sign(axis)) as i32)
    }

    /// Whether, on one axis, the cell lies where the ray can have come to:
    /// not behind the cell it began in, and in that cell if the ray does not
    /// move.
    pub open spec fn ahead_of_start(self, axis: int) -> bool {
        let first = Self::first_cell(self.start[axis], self.offset[axis], self.heading[axis]);
        &&& 0 <= self.offset[axis] < UNITS_PER_CELL
        &&& self.heading[axis] > 0 ==> self.cell[axis] >= first
        &&& self.heading[axis] < 0 ==> self.cell[axis] <= first
        &&& self.heading[axis] == 0 ==> self.cell[axis] == first
    }

    /// Whether, where both axes are moving, the ray entered its cell on axis
    /// `b` no later than it leaves it on axis `a`. It entered on `b` one
    /// cell's width before the wall ahead.
    pub open spec fn entered_before_leaving(self, a: int, b: int) -> bool {
        self.moving(a) && self.moving(b) ==> (self.reach(b) - UNITS_PER_CELL) * self.speed(a)
            <= self.reach(a) * self.speed(b)
    }

    /// What holds of a walk at every step.
    pub open spec fn inv(self) -> bool {
        &&& self.start.len() == 4
        &&& self.offset.len() == 4
        &&& self.heading.len() == 4
        &&& self.cell.len() == 4
        &&& forall|a: int| 0 <= a < 4 ==> #[trigger] self.ahead_of_start(a)
        &&& forall|a: int, b: int|
            0 <= a < 4 && 0 <= b < 4 ==> #[trigger] self.entered_before_leaving(a, b)
    }
}

/// One step of a walk.
#[derive(Debug, Clone, Copy, PartialEq, Eq)]
pub struct AWFoxelIterElt {
    /// The cell that the ray has entered.
    pub coord: BlockPos,
    /// The outward normal of the face through which it entered: if the ray
    /// travels in the positive direction, it hits the negative face.
    pub normal: [i32; 4],
}

#[derive(Debug, Clone)]
pub struct AWFoxelIter {
    /// Each elt here is +-1, indicating if each axis is incremented or
    /// decremented at foxel boundaries, or 0 if the ray does not move on it.
    steps: [i32; 4],
    /// How fast the ray moves on each axis. One has to step a cell's width
    /// over this in time in order to traverse one cell in that axis.
    speed: [u32; 4],
    /// What the paper just calls X, Y, Z
    cursor: [i32; 4],
    /// How far the ray travels on each axis to the next wall; over the speed
    /// this is the time of the next crossing.
    reach: [u64; 4],
    /// Where the ray started.
    origin: RayOrigin,
}

impl View for AWFoxelIter {
    type V = Walk;

    closed spec fn view(&self) -> Walk {
        Walk {
            start: Seq::new(4, |a: int| self.origin.cell@[a] as int),
            offset: Seq::new(4, |a: int| self.origin.offset@[a] as int),
            heading: Seq::new(4, |a: int| self.steps@[a] * self.speed@[a]),
            cell: Seq::new(4, |a: int| self.cursor@[a] as int),
        }
    }
}

/// The four components of an array of lattice indices as integers.
pub open spec fn ints_of(a: [i32; 4]) -> Seq<int> {
    Seq::new(4, |i: int| a@[i] as int)
}

/// The four offsets of an origin as integers.
pub open spec fn offsets_of(a: [u16; 4]) -> Seq<int> {
    Seq::new(4, |i: int| a@[i] as int)
}

impl AWFoxelIter {
    /// The fields agree with each other and with the walk they stand for.
    pub closed spec fn wf(&self) -> bool {
        &&& self@.inv()
        &&& forall|a: int|
            0 <= a < 4 ==> {
                &&& (#[trigger] self.steps@[a]) == self@.sign(a)
                &&& self.speed@[a] == self@.speed(a)
                &&& self@.moving(a) ==> self.reach@[a] == self@.reach(a)
            }
    }

    /// A walk from `origin` along `heading`. Only the direction of the
    /// heading matters. An axis on which the heading is zero is never
    /// crossed. The walk begins in the cell that the ray is about to run
    /// into, which has to have lattice indices that fit the machine.
    pub fn new(origin: RayOrigin, heading: [i32; 4]) -> (iter: AWFoxelIter)
        requires
            Walk::begins_in_lattice(
                ints_of(origin.cell),
                offsets_of(origin.offset),
                ints_of(heading),
            ),
        ensures
            iter.wf(),
            iter@ == Walk::begin(ints_of(origin.cell), offsets_of(origin.offset), ints_of(heading)),
    {
        let mut steps: [i32; 4] = [0, 0, 0, 0];
        let mut speed: [u32; 4] = [0, 0, 0, 0];
        let mut reach: [u64; 4] = [0, 0, 0, 0];
        let mut cursor: [i32; 4] = origin.cell;
        let mut axis: usize = 0;
        while axis < 4
            invariant
                axis <= 4,
                Walk::begins_in_lattice(
                    ints_of(origin.cell),
                    offsets_of(origin.offset),
                    ints_of(heading),
                ),
                forall|a: int|
                    0 <= a < axis ==> (#[trigger] steps@[a]) == (if heading@[a] > 0 {
                        1int
                    } else if heading@[a] < 0 {
                        -1int
                    } else {
                        0int
                    }),
                forall|a: int|
                    0 <= a < axis ==> (#[trigger] speed@[a]) == (if heading@[a] >= 0 {
                        heading@[a] as int
                    } else {
                        -heading@[a]
                    }),
                forall|a: int|
                    0 <= a < axis ==> (#[trigger] reach@[a]) == (if heading@[a] > 0 {
                        UNITS_PER_CELL - origin.offset@[a]
                    } else if heading@[a] == 0 {
                        0int
                    } else if origin.offset@[a] == 0 {
                        UNITS_PER_CELL as int
                    } else {
                        origin.offset@[a] as int
                    }),
                forall|a: int|
                    0 <= a < axis ==> (#[trigger] cursor@[a]) == Walk::first_cell(
                        origin.cell@[a] as int,
                        origin.offset@[a] as int,
                        heading@[a] as int,
                    ),
                forall|a: int| axis <= a < 4 ==> (#[trigger] cursor@[a]) == origin.cell@[a],
            decreases 4 - axis,
        {
            let head_val: i32 = heading[axis];
            let offset: u64 = origin.offset[axis] as u64;
            if head_val > 0 {
                steps[axis] = 1;
                speed[axis] = head_val as u32;
                reach[axis] = UNITS_PER_CELL as u64 - offset;
            } else if head_val < 0 {
                steps[axis] = -1;
                speed[axis] = (-(head_val as i64)) as u32;
                if offset == 0 {
                    // On the wall and about to leave it downwards: the ray
                    // is in the cell below, with all of it to go.
                    proof {
                        let a = axis as int;
                        assert(i32::MIN <= Walk::first_cell(
                            ints_of(origin.cell)[a],
                            offsets_of(origin.offset)[a],
                            ints_of(heading)[a],
                        ));
                    }
                    cursor[axis] = cursor[axis] - 1;
                    reach[axis] = UNITS_PER_CELL as u64;
                } else {
                    reach[axis] = offset;
                }
            } else {
                steps[axis] = 0;
                speed[axis] = 0;
                reach[axis] = 0;
            }
            axis += 1;
        }
        let iter = AWFoxelIter { steps, speed, cursor, reach, origin };
        proof {
            let walk = Walk::begin(
                ints_of(origin.cell),
                offsets_of(origin.offset),
                ints_of(heading),
            );
            assert(iter@.heading =~= walk.heading);
            assert(iter@.start =~= walk.start);
            assert(iter@.offset =~= walk.offset);
            assert(iter@.cell =~= walk.cell);
            lemma_begin_inv(ints_of(origin.cell), offsets_of(origin.offset), ints_of(heading));
        }
        iter
    }
}

impl AWFoxelIter {
    /// Whether the wall ahead on axis `a` is reached strictly before the one
    /// on axis `b`.
    fn crosses_before(&self, a: usize, b: usize) -> (before: bool)
        requires
            self.wf(),
            a < 4,
            b < 4,
            self@.moving(a as int),
            self@.moving(b as int),
        ensures
            before == self@.crosses_before(a as int, b as int),
    {
        let reach_a: u128 = self.reach[a] as u128;
        let reach_b: u128 = self.reach[b] as u128;
        let speed_a: u128 = self.speed[a] as u128;
        let speed_b: u128 = self.speed[b] as u128;
        assert(reach_a * speed_b <= 0xffff_ffff_ffff_ffff * 0xffff_ffff) by (nonlinear_arith)
            requires
                0 <= reach_a <= 0xffff_ffff_ffff_ffff,
                0 <= speed_b <= 0xffff_ffff,
        ;
        assert(reach_b * speed_a <= 0xffff_ffff_ffff_ffff * 0xffff_ffff) by (nonlinear_arith)
            requires
                0 <= reach_b <= 0xffff_ffff_ffff_ffff,
                0 <= speed_a <= 0xffff_ffff,
        ;
        reach_a * speed_b < reach_b * speed_a
    }

    /// What a well-formed iterator says of its walk: it is a walk, and its
    /// cell has lattice indices that fit the machine.
    pub proof fn lemma_wf(&self)
        requires
            self.wf(),
        ensures
            self@.inv(),
            forall|a: int| 0 <= a < 4 ==> i32::MIN <= #[trigger] self@.cell[a] <= i32::MAX,
    {
    }

    /// The cell that the ray has come to.
    pub fn cursor(&self) -> (cell: BlockPos)
        ensures
            cell == self@.pos(),
            forall|a: int| 0 <= a < 4 ==> cell.axis(a) == self@.cell[a],
    {
        BlockPos::from_array(self.cursor)
    }

    /// The way the ray moves on each axis: 1, -1, or 0 if it does not.
    pub fn steps(&self) -> (steps: [i32; 4])
        requires
            self.wf(),
        ensures
            forall|a: int| 0 <= a < 4 ==> steps@[a] == self@.sign(a),
    {
        self.steps
    }

    /// Takes one step: crosses the wall that the ray reaches first and tells
    /// the cell entered and the face it was entered through. Of walls reached
    /// at the very same time, the one on the earliest axis is crossed.
    ///
    /// The walk never ends by itself. There is no step only where the ray
    /// does not move at all, or where the cell to enter lies beyond the
    /// lattice indices of the machine; the walk then stays as it is.
    pub fn next(&mut self) -> (res: Option<AWFoxelIterElt>)
        requires
            old(self).wf(),
        ensures
            final(self).wf(),
            res is Some <==> old(self)@.can_step(),
            match res {
                Some(hit) => {
                    let axis = old(self)@.next_axis().unwrap();
                    &&& final(self)@ == old(self)@.step(axis)
                    &&& hit.coord == final(self)@.pos()
                    &&& forall|a: int| 0 <= a < 4 ==> hit.coord.axis(a) == final(self)@.cell[a]
                    &&& hit.normal@ == old(self)@.normal(axis)
                },
                None => final(self)@ == old(self)@,
            },
    {
        let mut min_axis: usize = 4;
        let mut axis: usize = 0;
        while axis < 4
            invariant
                self.wf(),
                axis <= 4,
                min_axis == 4 || min_axis < axis,
                min_axis == 4 ==> forall|b: int| 0 <= b < axis ==> !#[trigger] self@.moving(b),
                min_axis < 4 ==> self@.leads_below(min_axis as int, axis as int),
            decreases 4 - axis,
        {
            if self.speed[axis] != 0 {
                if min_axis == 4 {
                    min_axis = axis;
                } else if self.crosses_before(axis, min_axis) {
                    proof {
                        let walk = self@;
                        assert forall|b: int| 0 <= b < axis + 1 implies #[trigger] walk.goes_first(
                            axis as int,
                            b,
                        ) by {
                            if b < axis && walk.moving(b) {
                                assert(walk.goes_first(min_axis as int, b));
                                lemma_earlier_than_first(walk, axis as int, min_axis as int, b);
                            }
                        }
                    }
                    min_axis = axis;
                } else {
                    assert(self@.goes_first(min_axis as int, axis as int));
                }
            } else {
                assert(self@.goes_first(min_axis as int, axis as int));
            }
            axis += 1;
        }
        if min_axis == 4 {
            proof {
                assert forall|a: int| !self@.is_next_axis(a) by {
                    if 0 <= a < 4 {
                        assert(!self@.moving(a));
                    }
                }
            }
            return None;
        }
        proof {
            assert(self@.is_next_axis(min_axis as int));
            lemma_next_axis_is(self@, min_axis as int);
            lemma_step_keeps_inv(self@, min_axis as int);
        }
        let entered: i32 = match self.cursor[min_axis].checked_add(self.steps[min_axis]) {
            Some(cell) => cell,
            None => {
                return None;
            },
        };
        let ghost before = self@;
        self.reach[min_axis] = self.reach[min_axis] + UNITS_PER_CELL as u64;
        self.cursor[min_axis] = entered;
        proof {
            let after = before.step(min_axis as int);
            assert(self@.cell =~= after.cell);
            assert(self@.heading =~= after.heading);
            assert(self@.start =~= after.start);
            assert(self@.offset =~= after.offset);
        }
        // If we are travelling in the positive direction, we are hitting the
        // negative faces

        let mut normal: [i32; 4] = [0, 0, 0, 0];
        normal[min_axis] = -self.steps[min_axis];
        Some(AWFoxelIterElt { coord: BlockPos::from_array(self.cursor), normal })
    }
}

/// A walk from `start` along `heading`.
pub fn foxel_iter(start: RayOrigin, heading: [i32; 4]) -> (iter: AWFoxelIter)
    requires
        Walk::begins_in_lattice(ints_of(start.cell), offsets_of(start.offset), ints_of(heading)),
    ensures
        iter.wf(),
        iter@ == Walk::begin(ints_of(start.cell), offsets_of(start.offset), ints_of(heading)),
{
    AWFoxelIter::new(start, heading)
}

/// Times of crossing are ordered as numbers are: if the wall on `a` is
/// reached strictly before the one on `first`, and `first` beats `b` to be
/// crossed next, then the wall on `a` is reached strictly before the one on
/// `b`.
pub proof fn lemma_earlier_than_first(walk: Walk, a: int, first: int, b: int)
    requires
        walk.moving(a),
        walk.moving(first),
        walk.moving(b),
        walk.crosses_before(a, first),
        walk.goes_first(first, b),
    ensures
        walk.crosses_before(a, b),
{
    let ra = walk.reach(a);
    let rf = walk.reach(first);
    let rb = walk.reach(b);
    let sa = walk.speed(a);
    let sf = walk.speed(first);
    let sb = walk.speed(b);
    assert(rf * sb <= rb * sf);
    assert(ra * sf < rf * sa);
    assert(ra * sb < rb * sa) by (nonlinear_arith)
        requires
            ra * sf < rf * sa,
            rf * sb <= rb * sf,
            sa > 0,
            sf > 0,
            sb > 0,
    {
        assert((ra * sf) * sb < (rf * sa) * sb);
        assert((rf * sb) * sa <= (rb * sf) * sa);
        assert((ra * sb) * sf < (rb * sa) * sf);
    }
}

/// At most one axis is the one to cross next, so where there is one, it is
/// the next axis of the walk.
pub proof fn lemma_next_axis_is(walk: Walk, axis: int)
    requires
        walk.is_next_axis(axis),
    ensures
        walk.next_axis() == Some(axis),
{
    let chosen = choose|a: int| walk.is_next_axis(a);
    assert(walk.is_next_axis(chosen));
    assert(walk.goes_first(axis, chosen));
    assert(walk.goes_first(chosen, axis));
}

/// A step turns a walk into a walk.
pub proof fn lemma_step_keeps_inv(walk: Walk, axis: int)
    requires
        walk.inv(),
        walk.is_next_axis(axis),
    ensures
        walk.step(axis).inv(),
{
    let after = walk.step(axis);
    assert forall|a: int| 0 <= a < 4 implies #[trigger] after.ahead_of_start(a) by {
        assert(walk.ahead_of_start(a));
    }
    assert forall|a: int, b: int| 0 <= a < 4 && 0 <= b < 4 implies #[trigger] after.entered_before_leaving(
        a,
        b,
    ) by {
        if after.moving(a) && after.moving(b) {
            assert(walk.entered_before_leaving(a, b));
            assert(walk.goes_first(axis, a));
            assert(walk.goes_first(axis, b));
            assert(walk.ahead_of_start(a));
            assert(walk.ahead_of_start(b));
            let unit = UNITS_PER_CELL as int;
            let ra = walk.reach(a);
            let rb = walk.reach(b);
            let sa = walk.speed(a);
            let sb = walk.speed(b);
            assert(after.speed(a) == sa && after.speed(b) == sb);
            assert(after.reach(a) == if a == axis {
                ra + unit
            } else {
                ra
            });
            assert(after.reach(b) == if b == axis {
                rb + unit
            } else {
                rb
            });
            if b == axis {
                if a == axis {
                    assert(rb * sa <= (ra + unit) * sb) by (nonlinear_arith)
                        requires
                            a == b,
                            ra == rb,
                            sa == sb,
                            sa > 0,
                            unit > 0,
                    ;
                } else {
                    assert(rb * sa <= ra * sb);
                }
            } else {
                if a == axis {
                    assert((rb - unit) * sa <= (ra + unit) * sb) by (nonlinear_arith)
                        requires
                            (rb - unit) * sa <= ra * sb,
                            sb > 0,
                            unit > 0,
                    ;
                }
            }
        }
    }
}

/// A ray at its origin is a walk, whatever the heading.
pub proof fn lemma_begin_inv(start: Seq<int>, offset: Seq<int>, heading: Seq<int>)
    requires
        start.len() == 4,
        offset.len() == 4,
        heading.len() == 4,
        forall|a: int| 0 <= a < 4 ==> 0 <= #[trigger] offset[a] < UNITS_PER_CELL,
    ensures
        Walk::begin(start, offset, heading).inv(),
{
    let walk = Walk::begin(start, offset, heading);
    assert forall|a: int, b: int| 0 <= a < 4 && 0 <= b < 4 implies #[trigger] walk.entered_before_leaving(
        a,
        b,
    ) by {
        if walk.moving(a) && walk.moving(b) {
            assert(0 <= offset[a] < UNITS_PER_CELL);
            assert(0 <= offset[b] < UNITS_PER_CELL);
            let behind = walk.reach(b) - UNITS_PER_CELL;
            let ahead = walk.reach(a);
            assert(behind <= 0 <= ahead);
            assert(behind * walk.speed(a) <= ahead * walk.speed(b)) by (nonlinear_arith)
                requires
                    behind <= 0 <= ahead,
                    walk.speed(a) >= 0,
                    walk.speed(b) >= 0,
            ;
        }
    }
}

impl Walk {
    /// Where the ray is on an axis, in units from the lattice's zero, after
    /// it has travelled for as long as it takes to cross `crossed`; scaled
    /// by the speed on `crossed`, so that it is a whole number.
    pub open spec fn place_at_crossing(self, axis: int, crossed: int) -> int {
        (self.start[axis] * UNITS_PER_CELL + self.offset[axis]) * self.speed(crossed)
            + self.heading[axis] * self.reach(crossed)
    }
}

/// The cell of a walk is the cell that the ray is in: at the moment at which
/// the ray reaches the wall it crosses next, it lies, on every axis, between
/// the two walls of the cell, walls included.
pub proof fn lemma_ray_is_in_cell(walk: Walk, axis: int, crossed: int)
    requires
        walk.inv(),
        walk.is_next_axis(crossed),
        0 <= axis < 4,
    ensures
        walk.cell[axis] * UNITS_PER_CELL * walk.speed(crossed) <= walk.place_at_crossing(
            axis,
            crossed,
        ),
        walk.place_at_crossing(axis, crossed) <= (walk.cell[axis] + 1) * UNITS_PER_CELL
            * walk.speed(crossed),
{
    let unit = UNITS_PER_CELL as int;
    let s = walk.speed(crossed);
    let n = walk.reach(crossed);
    let c = walk.cell[axis];
    let from = walk.start[axis] * unit + walk.offset[axis];
    assert(walk.ahead_of_start(axis));
    assert(walk.ahead_of_start(crossed));
    assert(walk.goes_first(crossed, axis));
    assert(walk.entered_before_leaving(crossed, axis));
    let r = walk.reach(axis);
    let v = walk.speed(axis);
    if walk.heading[axis] > 0 {
        assert(from + r == (c + 1) * unit);
        assert(v * n <= r * s);
        assert((r - unit) * s <= n * v);
        assert(from * s + v * n <= (c + 1) * unit * s) by (nonlinear_arith)
            requires
                from + r == (c + 1) * unit,
                v * n <= r * s,
        ;
        assert(c * unit * s <= from * s + v * n) by (nonlinear_arith)
            requires
                from + r == (c + 1) * unit,
                (r - unit) * s <= n * v,
        ;
    } else if walk.heading[axis] < 0 {
        assert(from - r == c * unit);
        assert(v * n <= r * s);
        assert((r - unit) * s <= n * v);
        assert(walk.heading[axis] == -v);
        assert(c * unit * s <= from * s + (-v) * n) by (nonlinear_arith)
            requires
                from - r == c * unit,
                v * n <= r * s,
        ;
        assert(from * s + (-v) * n <= (c + 1) * unit * s) by (nonlinear_arith)
            requires
                from - r == c * unit,
                (r - unit) * s <= n * v,
        ;
    } else {
        assert(c == walk.start[axis]);
        assert(walk.heading[axis] * n == 0) by (nonlinear_arith)
            requires
                walk.heading[axis] == 0,
        ;
        assert(c * unit * s <= from * s <= (c + 1) * unit * s) by (nonlinear_arith)
            requires
                c * unit <= from <= (c + 1) * unit,
                s >= 0,
        ;
    }
}

/// Time only runs forward. After a step, the wall ahead on the axis crossed
/// is reached strictly later than the wall just crossed was, and no wall
/// ahead is reached before the wall just crossed was.
pub proof fn lemma_step_runs_forward(walk: Walk, crossed: int, later: int)
    requires
        walk.inv(),
        walk.is_next_axis(crossed),
        walk.step(crossed).is_next_axis(later),
    ensures
        walk.reach(crossed) * walk.step(crossed).speed(crossed) < walk.step(crossed).reach(crossed)
            * walk.speed(crossed),
        walk.reach(crossed) * walk.step(crossed).speed(later) <= walk.step(crossed).reach(later)
            * walk.speed(crossed),
{
    let after = walk.step(crossed);
    let unit = UNITS_PER_CELL as int;
    let n = walk.reach(crossed);
    let s = walk.speed(crossed);
    assert(walk.ahead_of_start(crossed));
    assert(after.reach(crossed) == n + unit);
    assert(n * s < (n + unit) * s) by (nonlinear_arith)
        requires
            s > 0,
            unit > 0,
    ;
    if later == crossed {
    } else {
        assert(walk.goes_first(crossed, later));
        assert(after.reach(later) == walk.reach(later));
        assert(after.speed(later) == walk.speed(later));
    }
}

/// Every wall ahead is some way off: the ray has yet to travel before it
/// reaches it, so no wall is crossed at the moment the ray sets out.
pub proof fn lemma_wall_is_ahead(walk: Walk, axis: int)
    requires
        walk.inv(),
        0 <= axis < 4,
        walk.moving(axis),
    ensures
        walk.reach(axis) > 0,
{
    assert(walk.ahead_of_start(axis));
}

/// A step enters a cell next to the one it leaves: the two differ on the
/// axis crossed, by one, and on no other.
pub proof fn lemma_step_is_to_a_neighbour(walk: Walk, crossed: int)
    requires
        walk.inv(),
        walk.is_next_axis(crossed),
    ensures
        walk.step(crossed).cell[crossed] - walk.cell[crossed] == walk.sign(crossed),
        walk.sign(crossed) == 1 || walk.sign(crossed) == -1,
        forall|a: int| 0 <= a < 4 && a != crossed ==> walk.step(crossed).cell[a] == walk.cell[a],
{
}

/// Among the axes below `bound`, if the ray moves on any, one is the one to
/// cross first.
pub proof fn lemma_leader_below(walk: Walk, bound: int) -> (leader: int)
    requires
        0 <= bound <= 4,
        exists|a: int| 0 <= a < bound && walk.moving(a),
    ensures
        walk.leads_below(leader, bound),
    decreases bound,
{
    let last = bound - 1;
    if exists|a: int| 0 <= a < last && walk.moving(a) {
        let before = lemma_leader_below(walk, last);
        if walk.moving(last) && walk.crosses_before(last, before) {
            assert forall|b: int| 0 <= b < bound implies #[trigger] walk.goes_first(last, b) by {
                if b < last && walk.moving(b) {
                    assert(walk.goes_first(before, b));
                    lemma_earlier_than_first(walk, last, before, b);
                }
            }
            last
        } else {
            assert forall|b: int| 0 <= b < bound implies #[trigger] walk.goes_first(before, b) by {
                if b < last {
                    assert(walk.goes_first(before, b));
                }
            }
            before
        }
    } else {
        assert(walk.moving(last));
        assert forall|b: int| 0 <= b < bound implies #[trigger] walk.goes_first(last, b) by {}
        last
    }
}

/// A ray that moves has a wall to cross next, and a ray that does not has
/// none.
pub proof fn lemma_moves_iff_next_axis(walk: Walk)
    ensures
        walk.moves() <==> walk.next_axis() is Some,
{
    if walk.moves() {
        let leader = lemma_leader_below(walk, 4);
        assert(walk.is_next_axis(leader));
    }
    if walk.next_axis() is Some {
        let axis = choose|axis: int| walk.is_next_axis(axis);
        assert(walk.moving(axis));
    }
}

} // verus!
