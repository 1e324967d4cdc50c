//! Walking a ray through the store to the foxels it hits.

use vstd::prelude::*;
use crate::algos::{
    ints_of, lemma_moves_iff_next_axis, lemma_step_keeps_inv, offsets_of, AWFoxelIter, RayOrigin,
    Walk,
};
use crate::math::hexadecitree::model::{coord_in_range, in_range, TreeModel};
use crate::math::hexadecitree::Hexadecitree;
use crate::math::BlockPos;
use crate::world::foxel::Foxel;

verus! {

impl Walk {
    /// Whether the ray has left the world on an axis for good: it is beyond
    /// the world on the side it moves to, or outside it where it does not
    /// move.
    pub open spec fn gone_on(self, axis: int) -> bool {
        if self.heading[axis] > 0 {
            self.cell[axis] > Hexadecitree::MAX_COORD
        } else if self.heading[axis] < 0 {
            self.cell[axis] < Hexadecitree::MIN_COORD
        } else {
            !coord_in_range(self.cell[axis])
        }
    }

    /// Whether the ray has left the world for good.
    pub open spec fn gone(self) -> bool {
        self.gone_on(0) || self.gone_on(1) || self.gone_on(2) || self.gone_on(3)
    }

    /// How many steps the ray can take on an axis before it has left the
    /// world on it.
    pub open spec fn steps_left_on(self, axis: int) -> nat {
        if self.heading[axis] > 0 && self.cell[axis] <= Hexadecitree::MAX_COORD {
            (Hexadecitree::MAX_COORD + 1 - self.cell[axis]) as nat
        } else if self.heading[axis] < 0 && self.cell[axis] >= Hexadecitree::MIN_COORD {
            (self.cell[axis] - Hexadecitree::MIN_COORD + 1) as nat
        } else {
            0
        }
    }

    /// A bound on the steps that the ray can take before it has left the
    /// world.
    pub open spec fn steps_left(self) -> nat {
        self.steps_left_on(0) + self.steps_left_on(1) + self.steps_left_on(2) + self.steps_left_on(
            3,
        )
    }
}

impl TreeModel {
    /// Whether the cell of a walk lies inside the world and holds something
    /// other than air.
    pub open spec fn hit_by(self, walk: Walk) -> bool {
        &&& coord_in_range(walk.cell[0])
        &&& coord_in_range(walk.cell[1])
        &&& coord_in_range(walk.cell[2])
        &&& coord_in_range(walk.cell[3])
        &&& self.get(walk.pos()) matches Some(foxel) && foxel != Foxel::Air
    }
}

/// A foxel that a ray has hit.
#[derive(Debug, Clone, Copy, PartialEq, Eq)]
pub struct IterItem {
    pub foxel: Foxel,
    pub pos: BlockPos,
    /// The outward normal of the face through which the ray entered.
    pub normal: [i32; 4],
}

/// A ray on its way through a store.
pub struct TreeIter<'a> {
    tree: &'a Hexadecitree,
    walk: AWFoxelIter,
}

impl<'a> TreeIter<'a> {
    /// The ray and the cell it has come to.
    pub closed spec fn walk(&self) -> Walk {
        self.walk@
    }

    /// The store that the ray runs through.
    pub closed spec fn world(&self) -> TreeModel {
        self.tree@
    }

    pub closed spec fn wf(&self) -> bool {
        self.tree.wf() && self.walk.wf()
    }

    /// A ray through `tree` from `start` along `dir`. The cell that the ray
    /// begins in is where the ray is, and is not among the cells it hits.
    pub fn new(tree: &'a Hexadecitree, start: RayOrigin, dir: [i32; 4]) -> (iter: Self)
        requires
            tree.wf(),
            Walk::begins_in_lattice(ints_of(start.cell), offsets_of(start.offset), ints_of(dir)),
        ensures
            iter.wf(),
            iter.world() == tree@,
            iter.walk() == Walk::begin(ints_of(start.cell), offsets_of(start.offset), ints_of(dir)),
    {
        TreeIter { tree, walk: AWFoxelIter::new(start, dir) }
    }

    /// Whether the ray has left the world for good.
    fn is_gone(&self) -> (gone: bool)
        requires
            self.wf(),
        ensures
            gone == self.walk().gone(),
    {
        let cursor = self.walk.cursor();
        let cell = cursor.as_array();
        let steps = self.walk.steps();
        proof {
            self.walk.lemma_wf();
            assert(cursor.axis(0) == self.walk@.cell[0]);
            assert(cursor.axis(1) == self.walk@.cell[1]);
            assert(cursor.axis(2) == self.walk@.cell[2]);
            assert(cursor.axis(3) == self.walk@.cell[3]);
        }
        let mut gone = false;
        let mut axis: usize = 0;
        while axis < 4
            invariant
                axis <= 4,
                self.walk@.inv(),
                forall|a: int| 0 <= a < 4 ==> #[trigger] cell@[a] == self.walk@.cell[a],
                forall|a: int| 0 <= a < 4 ==> #[trigger] steps@[a] == self.walk@.sign(a),
                gone == (exists|a: int| 0 <= a < axis && self.walk@.gone_on(a)),
            decreases 4 - axis,
        {
            let here: i32 = cell[axis];
            let gone_here = if steps[axis] > 0 {
                here > Hexadecitree::MAX_COORD
            } else if steps[axis] < 0 {
                here < Hexadecitree::MIN_COORD
            } else {
                here < Hexadecitree::MIN_COORD || here > Hexadecitree::MAX_COORD
            };
            assert(gone_here == self.walk@.gone_on(axis as int));
            gone = gone || gone_here;
            axis += 1;
        }
        gone
    }

    /// Walks on to the next cell that holds something other than air, and
    /// tells what it holds, where it is and through which face the ray came
    /// in. Every cell passed on the way is air or outside the world.
    ///
    /// There is nothing to tell once no cell further along the ray holds
    /// anything: the ray does not move, or it has left the world for good.
    pub fn next(&mut self) -> (res: Option<IterItem>)
        requires
            old(self).wf(),
        ensures
            final(self).wf(),
            final(self).world() == old(self).world(),
            !old(self).walk().moves() ==> res is None && final(self).walk() == old(self).walk(),
            exists|n: nat|
                {
                    &&& final(self).walk() == #[trigger] old(self).walk().after(n)
                    &&& forall|k: nat|
                        1 <= k < n ==> !old(self).world().hit_by(
                            #[trigger] old(self).walk().after(k),
                        )
                    &&& res is Some ==> n >= 1 && old(self).world().hit_by(final(self).walk())
                    &&& res matches Some(item) ==> item.normal@ == old(self).walk().normal(
                        old(self).walk().after((n - 1) as nat).next_axis().unwrap(),
                    )
                    &&& res is None ==> !old(self).world().hit_by(old(self).walk().after(n))
                        || n == 0
                },
            res matches Some(item) ==> {
                &&& item.pos == final(self).walk().pos()
                &&& Some(item.foxel) == old(self).world().get(item.pos)
                &&& item.foxel != Foxel::Air
            },
            res is None && old(self).walk().moves() ==> forall|k: nat|
                k >= 1 ==> !old(self).world().hit_by(#[trigger] old(self).walk().after(k)),
    {
        let ghost start = self.walk@;
        let ghost world = self.tree@;
        let ghost mut n: nat = 0;
        proof {
            self.walk.lemma_wf();
        }
        loop
            invariant
                self.wf(),
                self.tree@ == world,
                self.walk@ == start.after(n),
                start == old(self).walk(),
                world == old(self).world(),
                forall|k: nat| 1 <= k <= n ==> !world.hit_by(#[trigger] start.after(k)),
                !start.moves() ==> n == 0,
                start.inv(),
            decreases self.walk@.steps_left(), if self.walk@.gone() { 0nat } else { 1nat },
        {
            proof {
                self.walk.lemma_wf();
                lemma_moves_iff_next_axis(self.walk@);
                lemma_moves_after(start, n);
            }
            if self.is_gone() {
                proof {
                    assert forall|k: nat| k >= 1 implies !world.hit_by(#[trigger] start.after(k)) by {
                        if k > n {
                            lemma_gone_stays_gone(start, n, k);
                        }
                        if k <= n {
                            assert(!world.hit_by(start.after(k)));
                        }
                    }
                }
                return None;
            }
            let ghost before = self.walk@;
            let hit = match self.walk.next() {
                Some(hit) => hit,
                None => {
                    proof {
                        lemma_can_step_in_world(before);
                        assert(!start.moves());
                        lemma_still_after(start, n);
                    }
                    return None;
                },
            };
            proof {
                assert(start.after(n + 1) == self.walk@);
                lemma_step_uses_up(before, before.next_axis().unwrap());
                n = n + 1;
            }
            proof {
                self.walk.lemma_wf();
                assert(in_range(hit.coord) <==> coord_in_range(self.walk@.cell[0])
                    && coord_in_range(self.walk@.cell[1]) && coord_in_range(self.walk@.cell[2])
                    && coord_in_range(self.walk@.cell[3]));
            }
            match self.tree.get(hit.coord) {
                Some(foxel) => {
                    if !foxel.transparent() {
                        assert(world.hit_by(self.walk@));
                        return Some(IterItem { foxel, pos: hit.coord, normal: hit.normal });
                    }
                },
                None => {},
            }
            assert(!world.hit_by(self.walk@));
        }
    }
}

/// Whether a ray moves does not change as it goes.
pub proof fn lemma_moves_after(walk: Walk, n: nat)
    ensures
        walk.after(n).heading == walk.heading,
        walk.after(n).moves() == walk.moves(),
    decreases n,
{
    if n > 0 {
        lemma_moves_after(walk, (n - 1) as nat);
    }
    assert forall|a: int| walk.after(n).moving(a) == walk.moving(a) by {}
}

/// A walk is a walk after any number of steps.
pub proof fn lemma_after_keeps_inv(walk: Walk, n: nat)
    requires
        walk.inv(),
    ensures
        walk.after(n).inv(),
    decreases n,
{
    if n > 0 {
        lemma_after_keeps_inv(walk, (n - 1) as nat);
        let before = walk.after((n - 1) as nat);
        match before.next_axis() {
            Some(axis) => {
                assert(before.is_next_axis(axis));
                lemma_step_keeps_inv(before, axis);
            },
            None => {},
        }
    }
}

/// A ray that does not move is where it was after any number of steps.
pub proof fn lemma_still_after(walk: Walk, n: nat)
    requires
        !walk.moves(),
    ensures
        walk.after(n) == walk,
    decreases n,
{
    lemma_moves_iff_next_axis(walk);
    if n > 0 {
        lemma_still_after(walk, (n - 1) as nat);
    }
}

/// A ray that moves and has not left the world can take its next step
/// within the lattice indices of the machine.
pub proof fn lemma_can_step_in_world(walk: Walk)
    requires
        walk.inv(),
        forall|a: int| 0 <= a < 4 ==> i32::MIN <= #[trigger] walk.cell[a] <= i32::MAX,
        !walk.gone(),
    ensures
        walk.moves() <==> walk.can_step(),
{
    lemma_moves_iff_next_axis(walk);
    if walk.moves() {
        let axis = walk.next_axis().unwrap();
        assert(walk.is_next_axis(axis));
        assert(!walk.gone_on(axis));
    }
}

/// Each step uses up one of the steps that are left to a ray inside the
/// world, and a ray that has left the world stays away.
pub proof fn lemma_step_uses_up(walk: Walk, axis: int)
    requires
        walk.inv(),
        walk.is_next_axis(axis),
    ensures
        walk.gone() ==> walk.step(axis).gone(),
        !walk.gone() ==> walk.step(axis).steps_left() + 1 == walk.steps_left(),
        walk.step(axis).steps_left() <= walk.steps_left(),
{
    let after = walk.step(axis);
    assert(after.heading == walk.heading);
    assert(after.cell[axis] == walk.cell[axis] + walk.sign(axis));
    assert forall|a: int| 0 <= a < 4 && a != axis implies {
        &&& after.gone_on(a) == walk.gone_on(a)
        &&& #[trigger] after.steps_left_on(a) == walk.steps_left_on(a)
    } by {
        assert(after.cell[a] == walk.cell[a]);
    }
    assert(walk.gone_on(axis) ==> after.gone_on(axis));
    assert(after.steps_left_on(axis) <= walk.steps_left_on(axis));
    assert(!walk.gone_on(axis) ==> after.steps_left_on(axis) + 1 == walk.steps_left_on(axis));
    assert(after.steps_left_on(0) <= walk.steps_left_on(0));
    assert(after.steps_left_on(1) <= walk.steps_left_on(1));
    assert(after.steps_left_on(2) <= walk.steps_left_on(2));
    assert(after.steps_left_on(3) <= walk.steps_left_on(3));
}

/// Once a ray has left the world for good, no cell further along it lies
/// inside the world, so none holds anything.
pub proof fn lemma_gone_stays_gone(walk: Walk, n: nat, k: nat)
    requires
        walk.inv(),
        walk.after(n).gone(),
        n <= k,
    ensures
        walk.after(k).gone(),
        forall|world: TreeModel| !world.hit_by(walk.after(k)),
    decreases k - n,
{
    lemma_after_keeps_inv(walk, k);
    if k > n {
        lemma_gone_stays_gone(walk, n, (k - 1) as nat);
        lemma_after_keeps_inv(walk, (k - 1) as nat);
        let before = walk.after((k - 1) as nat);
        match before.next_axis() {
            Some(axis) => {
                assert(before.is_next_axis(axis));
                lemma_step_uses_up(before, axis);
            },
            None => {},
        }
    }
}

} // verus!
