//! The sparse foxel store.
//!
//! The world is a dense grid of bricks, each brick a cube of foxels. A brick
//! that holds one foxel throughout costs sixteen bits; only a brick that has
//! diverged from uniform fill is stored in full.

pub mod iter;
pub mod model;
pub mod reprs;
pub mod upload;

use vstd::prelude::*;
use crate::math::BlockPos;
use crate::world::foxel::Foxel;
use model::{
    brick_coord, brick_corner, coord_in_range, foxel_coord, in_range, indices_in_range,
    lemma_compose_then_decompose, lemma_decompose_then_compose, lemma_digits_pack,
    lemma_set_keeps_inv, spec_compose_pos, spec_decompose_pos, TreeModel,
};
use reprs::{lemma_brick_ptr_code_round_trip, Brick, BrickPtr, BrickPtrRepr, BrickRef};

verus! {

pub struct Hexadecitree {
    /// One pointer for each brick of the world, in grid order.
    pub(crate) brick_ptrs: Box<[BrickPtrRepr; 1048576]>,
    /// The bricks stored in full. They are only ever added to, and a brick
    /// keeps its place for good.
    pub(crate) composite_bricks: Vec<Brick>,
    /// For each composite brick, the grid slot that points to it.
    pub(crate) owners: Ghost<Seq<int>>,
}

impl View for Hexadecitree {
    type V = TreeModel;

    closed spec fn view(&self) -> TreeModel {
        TreeModel {
            bricks: Seq::new(self.brick_ptrs@.len(), |g: int| self.brick_ptrs@[g].spec_decode()),
            pool: Seq::new(
                self.composite_bricks@.len(),
                |p: int| self.composite_bricks@[p].foxels(),
            ),
            owners: self.owners@,
        }
    }
}

impl Hexadecitree {
    pub const BRICKS_ACROSS_WORLD: u32 = 32;

    pub const FOXELS_ACROSS_BRICK: u32 = 8;

    /// The total number of non-solid bricks allowed. Small enough for a
    /// sixteen-bit brick pointer.
    pub const COMPOSITE_BRICK_COUNT: u32 = 4096;

    pub const FOXELS_PER_BRICK: u32 = 4096;

    pub const TOTAL_BRICK_COUNT: u32 = 1048576;

    pub const FOXELS_ACROSS_WORLD: u32 = 256;

    pub const MIN_COORD: i32 = -128;

    pub const MAX_COORD: i32 = 127;

    /// How the measures of the world hang together: a brick is a cube of
    /// foxels and the world a cube of bricks, in four dimensions; the world
    /// is centred on zero; and a pointer to any composite brick fits into
    /// the fifteen bits it has.
    pub proof fn lemma_measures()
        ensures
            Self::FOXELS_PER_BRICK == Self::FOXELS_ACROSS_BRICK * Self::FOXELS_ACROSS_BRICK
                * Self::FOXELS_ACROSS_BRICK * Self::FOXELS_ACROSS_BRICK,
            Self::TOTAL_BRICK_COUNT == Self::BRICKS_ACROSS_WORLD * Self::BRICKS_ACROSS_WORLD
                * Self::BRICKS_ACROSS_WORLD * Self::BRICKS_ACROSS_WORLD,
            Self::FOXELS_ACROSS_WORLD == Self::BRICKS_ACROSS_WORLD * Self::FOXELS_ACROSS_BRICK,
            Self::MIN_COORD == -(Self::FOXELS_ACROSS_WORLD / 2),
            Self::MAX_COORD == Self::FOXELS_ACROSS_WORLD / 2 - 1,
            Self::COMPOSITE_BRICK_COUNT <= reprs::HIGH_BIT16,
    {
    }

    /// The store holds what a store may hold, and every code in it follows
    /// its format to the letter.
    pub closed spec fn wf(&self) -> bool {
        &&& self@.inv()
        &&& forall|g: int|
            0 <= g < self.brick_ptrs@.len() ==> (#[trigger] self.brick_ptrs@[g]).is_valid()
        &&& forall|p: int, i: int|
            0 <= p < self.composite_bricks@.len() && 0 <= i < 4096 ==> Foxel::is_code(
                #[trigger] self.composite_bricks@[p].0@[i].0,
            )
    }

    /// What a well-formed store holds is what a store may hold.
    pub proof fn lemma_wf(&self)
        requires
            self.wf(),
        ensures
            self@.inv(),
    {
    }

    /// How the fields of a store stand for what it holds.
    pub(crate) proof fn lemma_layout(&self)
        requires
            self.wf(),
        ensures
            self@.inv(),
            self.brick_ptrs@.len() == Self::TOTAL_BRICK_COUNT,
            self.composite_bricks@.len() == self@.pool.len(),
            forall|g: int|
                0 <= g < Self::TOTAL_BRICK_COUNT ==> {
                    &&& (#[trigger] self.brick_ptrs@[g]).is_valid()
                    &&& self.brick_ptrs@[g].spec_decode() == self@.bricks[g]
                },
            forall|p: int|
                0 <= p < self.composite_bricks@.len() ==> (#[trigger] self.composite_bricks@[p]).foxels()
                    == self@.pool[p],
            forall|p: int, i: int|
                0 <= p < self.composite_bricks@.len() && 0 <= i < 4096 ==> Foxel::is_code(
                    #[trigger] self.composite_bricks@[p].0@[i].0,
                ),
    {
    }

    /// A world of air.
    pub fn new() -> (tree: Hexadecitree)
        ensures
            tree.wf(),
            tree@ == TreeModel::empty(),
    {
        let brick_ptrs = Box::new([BrickPtrRepr::entirely_air(); 1048576]);
        let tree = Hexadecitree {
            brick_ptrs,
            composite_bricks: Vec::new(),
            owners: Ghost(Seq::empty()),
        };
        assert(tree@.bricks =~= TreeModel::empty().bricks);
        assert(tree@.pool =~= TreeModel::empty().pool);
        tree
    }

    /// The foxel at a coordinate; nothing outside the world. Should the
    /// grid ever point beyond the composite bricks, there is nothing to give
    /// there either; in a well-formed store it never does.
    pub fn get(&self, pos: BlockPos) -> (res: Option<Foxel>)
        ensures
            res == self@.get(pos),
            self.wf() ==> (res is Some <==> in_range(pos)),
    {
        proof {
            if self.wf() {
                model::lemma_get_in_range(self@, pos);
            }
        }
        let (brick_idx, foxel_idx) = decompose_pos(pos)?;
        proof {
            lemma_decompose_then_compose(pos);
        }
        let brick_ptr_repr = self.brick_ptrs[brick_idx];
        Some(
            match self.brick_repr_to_ref(brick_ptr_repr)? {
                BrickRef::Solid(f) => f,
                BrickRef::Ref(bricc) => bricc.0[foxel_idx].decode(),
            },
        )
    }

    /// Writes a foxel and answers with the one that was there before.
    pub fn set(&mut self, pos: BlockPos, foxel: Foxel) -> (res: Result<Foxel, SetFoxelError>)
        ensures
            old(self).wf() ==> final(self).wf(),
            final(self)@ == old(self)@.set(pos, foxel).0,
            res == old(self)@.set(pos, foxel).1,
            old(self).wf() && res is Ok ==> final(self)@.foxels() == old(self)@.foxels().insert(
                pos,
                foxel,
            ),
    {
        proof {
            if self.wf() {
                lemma_set_keeps_inv(self@, pos, foxel);
                if self@.set(pos, foxel).1 is Ok {
                    model::lemma_set_then_get(self@, pos, foxel);
                }
            }
        }
        let (grid_idx, foxel_idx) = match decompose_pos(pos) {
            Some(found) => found,
            None => {
                return Err(SetFoxelError::OutOfBounds);
            },
        };
        proof {
            lemma_decompose_then_compose(pos);
        }
        match self.brick_ptrs[grid_idx].decode() {
            BrickPtr::Pointer(ptr) => {
                if ptr >= self.composite_bricks.len() {
                    return Err(SetFoxelError::OutOfBounds);
                }
                let extant = self.composite_bricks[ptr].0[foxel_idx];
                let code = foxel.encode();
                self.composite_bricks[ptr].0[foxel_idx] = code;
                proof {
                    crate::world::foxel::lemma_foxel_code_round_trip(foxel);
                    let goal = old(self)@.set(pos, foxel).0;
                    assert(self@.bricks =~= goal.bricks);
                    assert(self@.pool =~~= goal.pool);
                }
                Ok(extant.decode())
            },
            BrickPtr::Solid(fill) => {
                // no change!
                if fill == foxel {
                    return Ok(foxel);
                }
                let new_composite_idx = self.composite_bricks.len();
                if new_composite_idx >= Self::COMPOSITE_BRICK_COUNT as usize {
                    return Err(SetFoxelError::OutOfMemory);
                }
                // Expand the brick

                let mut brick = Brick([fill.encode(); 4096]);
                brick.0[foxel_idx] = foxel.encode();
                self.composite_bricks.push(brick);
                self.brick_ptrs[grid_idx] = BrickPtr::Pointer(new_composite_idx).encode();
                self.owners = Ghost(self.owners@.push(grid_idx as int));
                proof {
                    crate::world::foxel::lemma_foxel_code_round_trip(foxel);
                    crate::world::foxel::lemma_foxel_code_round_trip(fill);
                    reprs::lemma_brick_ptr_round_trip(BrickPtr::Pointer(new_composite_idx));
                    let goal = old(self)@.set(pos, foxel).0;
                    assert(self@.bricks =~= goal.bricks);
                    assert(self@.pool =~~= goal.pool);
                }
                Ok(fill)
            },
        }
    }

    /// The number of bricks stored in full.
    pub fn composite_brick_count(&self) -> (count: usize)
        ensures
            count == self@.composite_brick_count(),
    {
        self.composite_bricks.len()
    }

    /// Every grid slot in grid order: its pointer, and the smallest block
    /// pos of its brick.
    pub fn brick_ptrs(&self) -> (list: Vec<(BlockPos, BrickPtrRepr)>)
        ensures
            list@.len() == Self::TOTAL_BRICK_COUNT,
            forall|g: int|
                0 <= g < Self::TOTAL_BRICK_COUNT ==> {
                    &&& (#[trigger] list@[g]).0 == brick_corner(g)
                    &&& list@[g].1.spec_decode() == self@.bricks[g]
                    &&& self.wf() ==> list@[g].1.0 == self@.bricks[g].code()
                },
    {
        let mut list: Vec<(BlockPos, BrickPtrRepr)> = Vec::new();
        let mut idx: usize = 0;
        while idx < Self::TOTAL_BRICK_COUNT as usize
            invariant
                idx <= Self::TOTAL_BRICK_COUNT,
                list@.len() == idx,
                forall|g: int|
                    0 <= g < idx ==> {
                        &&& (#[trigger] list@[g]).0 == brick_corner(g)
                        &&& list@[g].1.spec_decode() == self@.bricks[g]
                        &&& self.wf() ==> list@[g].1.0 == self@.bricks[g].code()
                    },
            decreases Self::TOTAL_BRICK_COUNT - idx,
        {
            let repr = self.brick_ptrs[idx];
            proof {
                if self.wf() {
                    lemma_brick_ptr_code_round_trip(repr);
                }
            }
            match compose_pos(idx, 0) {
                Some(corner) => {
                    list.push((corner, repr));
                },
                None => {},
            }
            idx += 1;
        }
        list
    }

    /// What a brick pointer leads to in this store: the fill of a solid
    /// brick, or the composite brick at the place it names. A pointer at or
    /// beyond the number of composite bricks leads to nothing.
    pub fn brick_repr_to_ref(&self, ptr: BrickPtrRepr) -> (res: Option<BrickRef<'_>>)
        ensures
            match ptr.spec_decode() {
                BrickPtr::Solid(f) => res == Some(BrickRef::Solid(f)),
                BrickPtr::Pointer(p) => if p < self@.composite_brick_count() {
                    res matches Some(BrickRef::Ref(brick)) && brick.foxels() == self@.pool[p as int]
                } else {
                    res is None
                },
            },
    {
        match ptr.decode() {
            BrickPtr::Solid(f) => Some(BrickRef::Solid(f)),
            BrickPtr::Pointer(ptr) => {
                if ptr >= self.composite_bricks.len() {
                    return None;
                }
                Some(BrickRef::Ref(&self.composite_bricks[ptr]))
            },
        }
    }
}

/// Why a write was turned down.
#[derive(Debug, Clone, Copy, PartialEq, Eq, Structural)]
pub enum SetFoxelError {
    /// The coordinate lies outside the world.
    OutOfBounds,
    /// The write needs a new composite brick and none is left.
    OutOfMemory,
}

/// Whether a coordinate lies inside the world on every axis.
pub fn is_block_in_range(pos: BlockPos) -> (inside: bool)
    ensures
        inside == in_range(pos),
{
    Hexadecitree::MIN_COORD <= pos.x && pos.x <= Hexadecitree::MAX_COORD && Hexadecitree::MIN_COORD
        <= pos.y && pos.y <= Hexadecitree::MAX_COORD && Hexadecitree::MIN_COORD <= pos.z && pos.z
        <= Hexadecitree::MAX_COORD && Hexadecitree::MIN_COORD <= pos.w && pos.w
        <= Hexadecitree::MAX_COORD
}

/// One lattice index inside the world as the coordinate of its brick,
/// counted from the low edge of the world, and its place across the brick.
fn decompose_coord(v: i32) -> (res: (u32, u32))
    requires
        coord_in_range(v as int),
    ensures
        res.0 == brick_coord(v as int),
        res.1 == foxel_coord(v as int),
        res.0 < Hexadecitree::BRICKS_ACROSS_WORLD,
        res.1 < Hexadecitree::FOXELS_ACROSS_BRICK,
{
    // Shift so 0,0 is in the center of the bricks
    let shifted: u32 = (v + (Hexadecitree::FOXELS_ACROSS_WORLD / 2) as i32) as u32;
    (shifted / Hexadecitree::FOXELS_ACROSS_BRICK, shifted % Hexadecitree::FOXELS_ACROSS_BRICK)
}

/// Return the index of the brick it's in, then the index of the position in
/// the brick.
pub fn decompose_pos(pos: BlockPos) -> (res: Option<(usize, usize)>)
    ensures
        res == spec_decompose_pos(pos),
        res is Some <==> in_range(pos),
        res matches Some((brick, foxel)) ==> indices_in_range(brick as int, foxel as int),
{
    if !is_block_in_range(pos) {
        return None;
    }
    proof {
        lemma_decompose_then_compose(pos);
    }
    let (bx, fx) = decompose_coord(pos.x);
    let (by, fy) = decompose_coord(pos.y);
    let (bz, fz) = decompose_coord(pos.z);
    let (bw, fw) = decompose_coord(pos.w);
    let baw: u32 = Hexadecitree::BRICKS_ACROSS_WORLD;
    let fab: u32 = Hexadecitree::FOXELS_ACROSS_BRICK;
    let grid_idx: u32 = ((bx * baw + by) * baw + bz) * baw + bw;
    let foxel_idx: u32 = ((fx * fab + fy) * fab + fz) * fab + fw;
    Some((grid_idx as usize, foxel_idx as usize))
}

/// The coordinate found at a place in the brick of a grid slot; nothing if
/// either is beyond its bound.
pub fn compose_pos(brick: usize, foxel: usize) -> (res: Option<BlockPos>)
    ensures
        res is Some <==> indices_in_range(brick as int, foxel as int),
        res matches Some(pos) ==> pos == spec_compose_pos(brick as int, foxel as int)
            && spec_decompose_pos(pos) == Some((brick, foxel)),
{
    if brick >= Hexadecitree::TOTAL_BRICK_COUNT as usize || foxel
        >= Hexadecitree::FOXELS_PER_BRICK as usize {
        return None;
    }
    proof {
        lemma_compose_then_decompose(brick as int, foxel as int);
        lemma_digits_pack(32, brick as int);
        lemma_digits_pack(8, foxel as int);
    }
    let b: i32 = brick as i32;
    let f: i32 = foxel as i32;
    let baw: i32 = Hexadecitree::BRICKS_ACROSS_WORLD as i32;
    let fab: i32 = Hexadecitree::FOXELS_ACROSS_BRICK as i32;
    let half: i32 = baw / 2;
    Some(
        BlockPos {
            x: (b / (baw * baw * baw) - half) * fab + f / (fab * fab * fab),
            y: (b / (baw * baw) % baw - half) * fab + f / (fab * fab) % fab,
            z: (b / baw % baw - half) * fab + f / fab % fab,
            w: (b % baw - half) * fab + f % fab,
        },
    )
}

} // verus!
