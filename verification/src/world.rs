//! What the world is made of.

pub mod foxel;

pub use foxel::Foxel;

use vstd::prelude::*;
use crate::math::hexadecitree::model::{
    brick_index, in_range, lemma_decompose_then_compose, lemma_get_in_range, lemma_set_keeps_inv,
    TreeModel,
};
use crate::math::hexadecitree::reprs::BrickPtr;
use crate::math::hexadecitree::Hexadecitree;
use crate::math::BlockPos;

verus! {

pub struct World {
    pub foxels: Hexadecitree,
}

/// What the sample scene puts at a coordinate, if anything: a white foxel at
/// the origin, and from it an arm of nine foxels along each axis, red along
/// x, green along y, blue along z and red-blue along w.
pub open spec fn sample_scene_at(pos: BlockPos) -> Option<Foxel> {
    sample_scene_below(pos, 10)
}

/// The sample scene with its arms cut off before `len`.
pub open spec fn sample_scene_below(pos: BlockPos, len: int) -> Option<Foxel> {
    if pos.x == 0 && pos.y == 0 && pos.z == 0 && pos.w == 0 {
        Some(Foxel::White)
    } else if 1 <= pos.x < len && pos.y == 0 && pos.z == 0 && pos.w == 0 {
        Some(Foxel::Red)
    } else if pos.x == 0 && 1 <= pos.y < len && pos.z == 0 && pos.w == 0 {
        Some(Foxel::Green)
    } else if pos.x == 0 && pos.y == 0 && 1 <= pos.z < len && pos.w == 0 {
        Some(Foxel::Blue)
    } else if pos.x == 0 && pos.y == 0 && pos.z == 0 && 1 <= pos.w < len {
        Some(Foxel::RB)
    } else {
        None
    }
}

/// Whether a grid slot is one of the five that the sample scene reaches:
/// that of the brick at the origin, and that of the next brick along each
/// axis.
spec fn scene_slot(slot: int) -> bool {
    ||| slot == brick_index(BlockPos { x: 0, y: 0, z: 0, w: 0 })
    ||| slot == brick_index(BlockPos { x: 8, y: 0, z: 0, w: 0 })
    ||| slot == brick_index(BlockPos { x: 0, y: 8, z: 0, w: 0 })
    ||| slot == brick_index(BlockPos { x: 0, y: 0, z: 8, w: 0 })
    ||| slot == brick_index(BlockPos { x: 0, y: 0, z: 0, w: 8 })
}

/// 1 if the brick at a grid slot was solid in `before` and is composite in
/// `now`, 0 if not.
spec fn grown(before: TreeModel, now: TreeModel, slot: int) -> int {
    if before.bricks[slot] is Solid && now.bricks[slot] is Pointer {
        1
    } else {
        0
    }
}

/// How many of the bricks that the sample scene reaches were solid in
/// `before` and are composite in `now`.
spec fn scene_growth(before: TreeModel, now: TreeModel) -> int {
    grown(before, now, brick_index(BlockPos { x: 0, y: 0, z: 0, w: 0 })) + grown(
        before,
        now,
        brick_index(BlockPos { x: 8, y: 0, z: 0, w: 0 }),
    ) + grown(before, now, brick_index(BlockPos { x: 0, y: 8, z: 0, w: 0 })) + grown(
        before,
        now,
        brick_index(BlockPos { x: 0, y: 0, z: 8, w: 0 }),
    ) + grown(before, now, brick_index(BlockPos { x: 0, y: 0, z: 0, w: 8 }))
}

/// Whether `now` can have come from `before` by writes of the sample scene:
/// the only new composite bricks are bricks of the scene that were solid.
spec fn scene_under_way(before: TreeModel, now: TreeModel) -> bool {
    &&& before.inv()
    &&& now.inv()
    &&& now.pool.len() == before.pool.len() + scene_growth(before, now)
    &&& forall|g: int|
        0 <= g < Hexadecitree::TOTAL_BRICK_COUNT ==> (#[trigger] now.bricks[g] is Solid
            ==> before.bricks[g] == now.bricks[g])
}

/// Whether a coordinate is one that the sample scene writes to.
spec fn scene_pos(pos: BlockPos) -> bool {
    sample_scene_at(pos) is Some
}

/// A write of the sample scene is taken as long as five composite bricks
/// were left when the scene was begun, and leaves the scene under way.
proof fn lemma_scene_write(before: TreeModel, now: TreeModel, pos: BlockPos, foxel: Foxel)
    requires
        scene_under_way(before, now),
        scene_pos(pos),
        before.composite_brick_count() + 5 <= Hexadecitree::COMPOSITE_BRICK_COUNT,
    ensures
        in_range(pos),
        now.set(pos, foxel).1 is Ok,
        scene_under_way(before, now.set(pos, foxel).0),
{
    lemma_decompose_then_compose(pos);
    lemma_set_keeps_inv(now, pos, foxel);
    let slot = brick_index(pos);
    assert(scene_slot(slot));
    let after = now.set(pos, foxel).0;
    match now.bricks[slot] {
        BrickPtr::Pointer(_) => {
            assert(after.bricks == now.bricks);
        },
        BrickPtr::Solid(fill) => {
            assert(before.bricks[slot] == now.bricks[slot]);
            assert(grown(before, now, slot) == 0);
            if fill != foxel {
                assert(now.pool.len() < Hexadecitree::COMPOSITE_BRICK_COUNT);
                assert(grown(before, after, slot) == 1);
                assert forall|g: int| 0 <= g < Hexadecitree::TOTAL_BRICK_COUNT && g
                    != slot implies grown(before, after, g) == grown(before, now, g) by {
                    assert(after.bricks[g] == now.bricks[g]);
                }
                assert forall|g: int| 0 <= g < Hexadecitree::TOTAL_BRICK_COUNT implies (
                #[trigger] after.bricks[g] is Solid ==> before.bricks[g] == after.bricks[g]) by {
                    if g != slot {
                        assert(after.bricks[g] == now.bricks[g]);
                    }
                }
            }
        },
    }
}

impl World {
    /// A world of air.
    pub fn new() -> (world: World)
        ensures
            world.foxels.wf(),
            world.foxels@ == TreeModel::empty(),
    {
        World { foxels: Hexadecitree::new() }
    }

    /// Writes `foxel` at `pos`, where the write is known to be taken.
    fn put(&mut self, pos: BlockPos, foxel: Foxel)
        requires
            old(self).foxels.wf(),
            old(self).foxels@.set(pos, foxel).1 is Ok,
        ensures
            final(self).foxels.wf(),
            final(self).foxels@ == old(self).foxels@.set(pos, foxel).0,
            final(self).foxels@.foxels() == old(self).foxels@.foxels().insert(pos, foxel),
    {
        let _ = self.foxels.set(pos, foxel);
    }

    /// Puts the sample scene into the world. Everything else stays as it is.
    /// The scene reaches five bricks, the one at the origin and the next one
    /// along each axis, and any of them may have to be stored in full; so
    /// five composite bricks have to be left.
    pub fn setup_sample_scene(&mut self)
        requires
            old(self).foxels.wf(),
            old(self).foxels@.composite_brick_count() + 5 <= Hexadecitree::COMPOSITE_BRICK_COUNT,
        ensures
            final(self).foxels.wf(),
            forall|pos: BlockPos|
                in_range(pos) ==> #[trigger] final(self).foxels@.get(pos) == (
                match sample_scene_at(pos) {
                    Some(foxel) => Some(foxel),
                    None => old(self).foxels@.get(pos),
                }),
            final(self).foxels@.composite_brick_count() <= old(
                self,
            ).foxels@.composite_brick_count() + 5,
    {
        let ghost before = self.foxels@;
        proof {
            self.foxels.lemma_wf();
            lemma_scene_write(before, before, BlockPos { x: 0, y: 0, z: 0, w: 0 }, Foxel::White);
        }
        self.put(BlockPos::new(0, 0, 0, 0), Foxel::White);
        let mut v: i32 = 1;
        while v < 10
            invariant
                1 <= v <= 10,
                self.foxels.wf(),
                scene_under_way(before, self.foxels@),
                before.composite_brick_count() + 5 <= Hexadecitree::COMPOSITE_BRICK_COUNT,
                forall|pos: BlockPos|
                    in_range(pos) ==> #[trigger] self.foxels@.foxels()[pos] == (
                    match sample_scene_below(pos, v as int) {
                        Some(foxel) => foxel,
                        None => before.foxels()[pos],
                    }),
            decreases 10 - v,
        {
            proof {
                lemma_scene_write(before, self.foxels@, BlockPos { x: v, y: 0, z: 0, w: 0 }, Foxel::Red);
            }
            self.put(BlockPos::new(v, 0, 0, 0), Foxel::Red);
            proof {
                lemma_scene_write(
                    before,
                    self.foxels@,
                    BlockPos { x: 0, y: v, z: 0, w: 0 },
                    Foxel::Green,
                );
            }
            self.put(BlockPos::new(0, v, 0, 0), Foxel::Green);
            proof {
                lemma_scene_write(before, self.foxels@, BlockPos { x: 0, y: 0, z: v, w: 0 }, Foxel::Blue);
            }
            self.put(BlockPos::new(0, 0, v, 0), Foxel::Blue);
            proof {
                lemma_scene_write(before, self.foxels@, BlockPos { x: 0, y: 0, z: 0, w: v }, Foxel::RB);
            }
            self.put(BlockPos::new(0, 0, 0, v), Foxel::RB);
            v += 1;
        }
        proof {
            self.foxels.lemma_wf();
            assert forall|pos: BlockPos| in_range(pos) implies #[trigger] self.foxels@.get(pos) == (
            match sample_scene_at(pos) {
                Some(foxel) => Some(foxel),
                None => before.get(pos),
            }) by {
                lemma_get_in_range(self.foxels@, pos);
                lemma_get_in_range(before, pos);
                assert(self.foxels@.foxels()[pos] == self.foxels@.get(pos).unwrap());
                assert(before.foxels()[pos] == before.get(pos).unwrap());
            }
        }
    }
}

} // verus!
