//! The store as mathematics: where a coordinate lives, what the store holds,
//! and what a write does to it.

use vstd::prelude::*;
use crate::math::BlockPos;
use crate::math::hexadecitree::{Hexadecitree, SetFoxelError};
use crate::math::hexadecitree::reprs::BrickPtr;
use crate::world::foxel::Foxel;

verus! {

/// Whether a single lattice index lies inside the world.
pub open spec fn coord_in_range(v: int) -> bool {
    Hexadecitree::MIN_COORD <= v <= Hexadecitree::MAX_COORD
}

/// Whether a coordinate lies inside the world on every axis.
pub open spec fn in_range(pos: BlockPos) -> bool {
    &&& coord_in_range(pos.x as int)
    &&& coord_in_range(pos.y as int)
    &&& coord_in_range(pos.z as int)
    &&& coord_in_range(pos.w as int)
}

/// The brick that holds lattice index `v`, counted from the low edge of the
/// world: the floor of `v` over the brick's width, shifted by half the world.
pub open spec fn brick_coord(v: int) -> int {
    v / (Hexadecitree::FOXELS_ACROSS_BRICK as int) + Hexadecitree::BRICKS_ACROSS_WORLD / 2
}

/// The place of lattice index `v` inside its brick: never negative.
pub open spec fn foxel_coord(v: int) -> int {
    v % (Hexadecitree::FOXELS_ACROSS_BRICK as int)
}

/// Four digits below `radix` as one number, x first.
pub open spec fn pack(radix: int, x: int, y: int, z: int, w: int) -> int {
    ((x * radix + y) * radix + z) * radix + w
}

/// The digit of `n` at `place`, where place 0 is x, the most significant.
pub open spec fn digit(radix: int, n: int, place: int) -> int {
    if place == 0 {
        n / (radix * radix * radix)
    } else if place == 1 {
        n / (radix * radix) % radix
    } else if place == 2 {
        n / radix % radix
    } else {
        n % radix
    }
}

/// The grid slot of the brick that holds `pos`.
pub open spec fn brick_index(pos: BlockPos) -> int {
    pack(
        Hexadecitree::BRICKS_ACROSS_WORLD as int,
        brick_coord(pos.x as int),
        brick_coord(pos.y as int),
        brick_coord(pos.z as int),
        brick_coord(pos.w as int),
    )
}

/// The place of `pos` inside its brick.
pub open spec fn foxel_index(pos: BlockPos) -> int {
    pack(
        Hexadecitree::FOXELS_ACROSS_BRICK as int,
        foxel_coord(pos.x as int),
        foxel_coord(pos.y as int),
        foxel_coord(pos.z as int),
        foxel_coord(pos.w as int),
    )
}

/// A coordinate inside the world as a grid slot and a place in the brick;
/// nothing for a coordinate outside.
pub open spec fn spec_decompose_pos(pos: BlockPos) -> Option<(usize, usize)> {
    if in_range(pos) {
        Some((brick_index(pos) as usize, foxel_index(pos) as usize))
    } else {
        None
    }
}

/// The lattice index that digit `place` of a grid slot and of a place in the
/// brick stand for.
pub open spec fn compose_coord(brick: int, foxel: int, place: int) -> int {
    (digit(Hexadecitree::BRICKS_ACROSS_WORLD as int, brick, place)
        - Hexadecitree::BRICKS_ACROSS_WORLD / 2) * Hexadecitree::FOXELS_ACROSS_BRICK + digit(
        Hexadecitree::FOXELS_ACROSS_BRICK as int,
        foxel,
        place,
    )
}

/// Whether `brick` names a grid slot and `foxel` a place in a brick.
pub open spec fn indices_in_range(brick: int, foxel: int) -> bool {
    0 <= brick < Hexadecitree::TOTAL_BRICK_COUNT && 0 <= foxel < Hexadecitree::FOXELS_PER_BRICK
}

/// The coordinate found at a place in the brick of a grid slot.
pub open spec fn spec_compose_pos(brick: int, foxel: int) -> BlockPos {
    BlockPos {
        x: compose_coord(brick, foxel, 0) as i32,
        y: compose_coord(brick, foxel, 1) as i32,
        z: compose_coord(brick, foxel, 2) as i32,
        w: compose_coord(brick, foxel, 3) as i32,
    }
}

/// The smallest coordinate of the brick at a grid slot.
pub open spec fn brick_corner(brick: int) -> BlockPos {
    spec_compose_pos(brick, 0)
}

/// Four digits, each below the radix, are found again in what they pack to.
pub proof fn lemma_pack_digits(radix: int, x: int, y: int, z: int, w: int)
    requires
        0 < radix,
        0 <= x < radix,
        0 <= y < radix,
        0 <= z < radix,
        0 <= w < radix,
    ensures
        0 <= pack(radix, x, y, z, w) < radix * radix * radix * radix,
        digit(radix, pack(radix, x, y, z, w), 0) == x,
        digit(radix, pack(radix, x, y, z, w), 1) == y,
        digit(radix, pack(radix, x, y, z, w), 2) == z,
        digit(radix, pack(radix, x, y, z, w), 3) == w,
{
    let n = pack(radix, x, y, z, w);
    let xy = x * radix + y;
    let xyz = xy * radix + z;
    vstd::arithmetic::div_mod::lemma_fundamental_div_mod_converse(n, radix, xyz, w);
    vstd::arithmetic::div_mod::lemma_fundamental_div_mod_converse(xyz, radix, xy, z);
    vstd::arithmetic::div_mod::lemma_fundamental_div_mod_converse(xy, radix, x, y);
    assert(0 <= xy < radix * radix) by (nonlinear_arith)
        requires
            xy == x * radix + y,
            0 <= x < radix,
            0 <= y < radix,
    ;
    assert(0 <= xyz < radix * radix * radix) by (nonlinear_arith)
        requires
            xyz == xy * radix + z,
            0 <= xy < radix * radix,
            0 <= z < radix,
            0 < radix,
    ;
    assert(0 <= n < radix * radix * radix * radix) by (nonlinear_arith)
        requires
            n == xyz * radix + w,
            0 <= xyz < radix * radix * radix,
            0 <= w < radix,
            0 < radix,
    ;
    assert(0 < radix * radix) by (nonlinear_arith)
        requires
            0 < radix,
    ;
    vstd::arithmetic::div_mod::lemma_div_denominator(n, radix, radix);
    assert(n / (radix * radix) == xy);
    vstd::arithmetic::div_mod::lemma_div_denominator(n, radix * radix, radix);
    assert(n / (radix * radix * radix) == x);
}

/// A number below the fourth power of the radix is what its digits pack to.
pub proof fn lemma_digits_pack(radix: int, n: int)
    requires
        0 < radix,
        0 <= n < radix * radix * radix * radix,
    ensures
        forall|place: int| 0 <= place < 4 ==> 0 <= #[trigger] digit(radix, n, place) < radix,
        pack(radix, digit(radix, n, 0), digit(radix, n, 1), digit(radix, n, 2), digit(radix, n, 3))
            == n,
{
    let r2 = radix * radix;
    let r3 = radix * radix * radix;
    assert(0 < r2 && 0 < r3) by (nonlinear_arith)
        requires
            0 < radix,
            r2 == radix * radix,
            r3 == radix * radix * radix,
    ;
    let q1 = n / radix;
    let q2 = n / r2;
    let q3 = n / r3;
    vstd::arithmetic::div_mod::lemma_div_denominator(n, radix, radix);
    vstd::arithmetic::div_mod::lemma_div_denominator(n, r2, radix);
    assert(q2 == q1 / radix);
    assert(q3 == q2 / radix);
    vstd::arithmetic::div_mod::lemma_fundamental_div_mod(n, radix);
    vstd::arithmetic::div_mod::lemma_fundamental_div_mod(q1, radix);
    vstd::arithmetic::div_mod::lemma_fundamental_div_mod(q2, radix);
    vstd::arithmetic::div_mod::lemma_mod_bound(n, radix);
    vstd::arithmetic::div_mod::lemma_mod_bound(q1, radix);
    vstd::arithmetic::div_mod::lemma_mod_bound(q2, radix);
    vstd::arithmetic::div_mod::lemma_div_pos_is_pos(n, r3);
    assert(q3 < radix) by {
        if q3 >= radix {
            vstd::arithmetic::div_mod::lemma_fundamental_div_mod(n, r3);
            vstd::arithmetic::div_mod::lemma_mod_bound(n, r3);
            assert(r3 * q3 >= r3 * radix) by (nonlinear_arith)
                requires
                    q3 >= radix,
                    0 < r3,
            ;
            assert(r3 * radix == radix * radix * radix * radix) by (nonlinear_arith)
                requires
                    r3 == radix * radix * radix,
            ;
        }
    }
    assert(n == radix * q1 + n % radix);
    assert(q1 == radix * q2 + q1 % radix);
    assert(q2 == radix * q3 + q2 % radix);
    assert(pack(radix, q3, q2 % radix, q1 % radix, n % radix) == n) by (nonlinear_arith)
        requires
            n == radix * q1 + n % radix,
            q1 == radix * q2 + q1 % radix,
            q2 == radix * q3 + q2 % radix,
    ;
}

/// Addressing loses nothing: a coordinate inside the world is found again
/// from the grid slot and the place in the brick that it decomposes to, and
/// those two are within their bounds.
pub proof fn lemma_decompose_then_compose(pos: BlockPos)
    requires
        in_range(pos),
    ensures
        indices_in_range(brick_index(pos), foxel_index(pos)),
        spec_compose_pos(brick_index(pos), foxel_index(pos)) == pos,
{
    lemma_pack_digits(
        32,
        brick_coord(pos.x as int),
        brick_coord(pos.y as int),
        brick_coord(pos.z as int),
        brick_coord(pos.w as int),
    );
    lemma_pack_digits(
        8,
        foxel_coord(pos.x as int),
        foxel_coord(pos.y as int),
        foxel_coord(pos.z as int),
        foxel_coord(pos.w as int),
    );
}

/// Addressing reaches everything: each place of each brick is the home of a
/// coordinate inside the world, which decomposes to that slot and place.
pub proof fn lemma_compose_then_decompose(brick: int, foxel: int)
    requires
        indices_in_range(brick, foxel),
    ensures
        in_range(spec_compose_pos(brick, foxel)),
        brick_index(spec_compose_pos(brick, foxel)) == brick,
        foxel_index(spec_compose_pos(brick, foxel)) == foxel,
{
    lemma_digits_pack(32, brick);
    lemma_digits_pack(8, foxel);
    assert forall|place: int| 0 <= place < 4 implies {
        let v = #[trigger] compose_coord(brick, foxel, place);
        &&& coord_in_range(v)
        &&& brick_coord(v) == digit(32, brick, place)
        &&& foxel_coord(v) == digit(8, foxel, place)
    } by {
        let b = digit(32, brick, place);
        let f = digit(8, foxel, place);
        assert(0 <= b < 32);
        assert(0 <= f < 8);
    }
    assert(coord_in_range(compose_coord(brick, foxel, 0)));
    assert(coord_in_range(compose_coord(brick, foxel, 1)));
    assert(coord_in_range(compose_coord(brick, foxel, 2)));
    assert(coord_in_range(compose_coord(brick, foxel, 3)));
}

/// Two coordinates inside the world that share a grid slot and a place in
/// the brick are one coordinate.
pub proof fn lemma_decompose_injective(p: BlockPos, q: BlockPos)
    requires
        in_range(p),
        in_range(q),
        brick_index(p) == brick_index(q),
        foxel_index(p) == foxel_index(q),
    ensures
        p == q,
{
    lemma_decompose_then_compose(p);
    lemma_decompose_then_compose(q);
}

/// What a store holds, free of how it is laid out in memory.
pub ghost struct TreeModel {
    /// For each grid slot, what it says about its brick.
    pub bricks: Seq<BrickPtr>,
    /// The composite bricks in the order in which they came to be, each with
    /// its foxels place by place.
    pub pool: Seq<Seq<Foxel>>,
    /// For each composite brick, the grid slot that points to it.
    pub owners: Seq<int>,
}

impl TreeModel {
    /// What holds of every store: the grid covers the world, the composite
    /// bricks stay within their number, and grid pointers and composite
    /// bricks are matched one to one.
    pub open spec fn inv(self) -> bool {
        &&& self.bricks.len() == Hexadecitree::TOTAL_BRICK_COUNT
        &&& self.pool.len() <= Hexadecitree::COMPOSITE_BRICK_COUNT
        &&& self.owners.len() == self.pool.len()
        &&& forall|p: int|
            0 <= p < self.pool.len() ==> (#[trigger] self.pool[p]).len()
                == Hexadecitree::FOXELS_PER_BRICK
        &&& forall|p: int|
            0 <= p < self.pool.len() ==> {
                &&& 0 <= #[trigger] self.owners[p] < Hexadecitree::TOTAL_BRICK_COUNT
                &&& self.bricks[self.owners[p]] == BrickPtr::Pointer(p as usize)
            }
        &&& forall|g: int|
            0 <= g < Hexadecitree::TOTAL_BRICK_COUNT ==> (#[trigger] self.bricks[g]
                matches BrickPtr::Pointer(p) ==> p < self.pool.len() && self.owners[p as int] == g)
    }

    /// A world of air, with no composite brick.
    pub open spec fn empty() -> TreeModel {
        TreeModel {
            bricks: Seq::new(
                Hexadecitree::TOTAL_BRICK_COUNT as nat,
                |g: int| BrickPtr::Solid(Foxel::Air),
            ),
            pool: Seq::empty(),
            owners: Seq::empty(),
        }
    }

    /// The number of bricks stored in full.
    pub open spec fn composite_brick_count(self) -> nat {
        self.pool.len()
    }

    /// The grid slots whose bricks have diverged from uniform fill.
    pub open spec fn composite_slots(self) -> Set<int> {
        Set::new(|g: int| 0 <= g < Hexadecitree::TOTAL_BRICK_COUNT && self.bricks[g] is Pointer)
    }

    /// The foxel that a brick pointer leads to at a place in the brick;
    /// nothing if the pointer leads beyond the composite bricks.
    pub open spec fn resolve(self, ptr: BrickPtr, place: int) -> Option<Foxel> {
        match ptr {
            BrickPtr::Solid(f) => Some(f),
            BrickPtr::Pointer(p) => if p < self.pool.len() {
                Some(self.pool[p as int][place])
            } else {
                None
            },
        }
    }

    /// The foxel at a coordinate; nothing outside the world.
    pub open spec fn get(self, pos: BlockPos) -> Option<Foxel> {
        if in_range(pos) {
            self.resolve(self.bricks[brick_index(pos)], foxel_index(pos))
        } else {
            None
        }
    }

    /// The world as a map from every coordinate inside it to its foxel.
    pub open spec fn foxels(self) -> Map<BlockPos, Foxel> {
        Map::new(|pos: BlockPos| in_range(pos), |pos: BlockPos| self.get(pos).unwrap())
    }

    /// A brick in full that holds `fill` everywhere but at `place`, where it
    /// holds `foxel`.
    pub open spec fn diverged_brick(fill: Foxel, place: int, foxel: Foxel) -> Seq<Foxel> {
        Seq::new(
            Hexadecitree::FOXELS_PER_BRICK as nat,
            |i: int|
                if i == place {
                    foxel
                } else {
                    fill
                },
        )
    }

    /// The store after a write of `foxel` at `pos`, and what the write
    /// answers: the foxel that was there, or why nothing was written.
    ///
    /// Outside the world nothing is written. In a composite brick the one
    /// place changes. In a solid brick, writing its fill changes nothing;
    /// writing anything else stores the brick in full as the next composite
    /// brick, unless their number is used up, in which case nothing changes.
    /// Should the grid point beyond the composite bricks, which it never
    /// does in a store, nothing is written and the write is out of bounds.
    pub open spec fn set(self, pos: BlockPos, foxel: Foxel) -> (TreeModel, Result<
        Foxel,
        SetFoxelError,
    >) {
        if !in_range(pos) {
            (self, Err(SetFoxelError::OutOfBounds))
        } else {
            let slot = brick_index(pos);
            let place = foxel_index(pos);
            match self.bricks[slot] {
                BrickPtr::Pointer(p) => if p < self.pool.len() {
                    (
                        TreeModel {
                            pool: self.pool.update(
                                p as int,
                                self.pool[p as int].update(place, foxel),
                            ),
                            ..self
                        },
                        Ok(self.pool[p as int][place]),
                    )
                } else {
                    (self, Err(SetFoxelError::OutOfBounds))
                },
                BrickPtr::Solid(fill) => if fill == foxel {
                    (self, Ok(foxel))
                } else if self.pool.len() >= Hexadecitree::COMPOSITE_BRICK_COUNT {
                    (self, Err(SetFoxelError::OutOfMemory))
                } else {
                    (
                        TreeModel {
                            bricks: self.bricks.update(
                                slot,
                                BrickPtr::Pointer(self.pool.len() as usize),
                            ),
                            pool: self.pool.push(Self::diverged_brick(fill, place, foxel)),
                            owners: self.owners.push(slot),
                        },
                        Ok(fill),
                    )
                },
            }
        }
    }
}

/// The empty world is a store, and every coordinate inside it holds air.
pub proof fn lemma_empty_is_air(pos: BlockPos)
    ensures
        TreeModel::empty().inv(),
        TreeModel::empty().composite_brick_count() == 0,
        TreeModel::empty().get(pos) == if in_range(pos) {
            Some(Foxel::Air)
        } else {
            None
        },
{
    if in_range(pos) {
        lemma_decompose_then_compose(pos);
    }
}

/// Inside the world a store always has a foxel to give; outside it never has.
pub proof fn lemma_get_in_range(tree: TreeModel, pos: BlockPos)
    requires
        tree.inv(),
    ensures
        tree.get(pos) is Some <==> in_range(pos),
{
    if in_range(pos) {
        lemma_decompose_then_compose(pos);
    }
}

/// A write turns a store into a store.
pub proof fn lemma_set_keeps_inv(tree: TreeModel, pos: BlockPos, foxel: Foxel)
    requires
        tree.inv(),
    ensures
        tree.set(pos, foxel).0.inv(),
{
    if in_range(pos) {
        lemma_decompose_then_compose(pos);
        let after = tree.set(pos, foxel).0;
        let slot = brick_index(pos);
        match tree.bricks[slot] {
            BrickPtr::Pointer(p) => {
                assert forall|q: int| 0 <= q < after.pool.len() implies (#[trigger] after.pool[q]).len()
                    == Hexadecitree::FOXELS_PER_BRICK by {
                    assert(tree.pool[q].len() == Hexadecitree::FOXELS_PER_BRICK);
                }
            },
            BrickPtr::Solid(fill) => {
                if fill != foxel && tree.pool.len() < Hexadecitree::COMPOSITE_BRICK_COUNT {
                    let n = tree.pool.len() as int;
                    assert forall|q: int| 0 <= q < after.pool.len() implies {
                        &&& (#[trigger] after.pool[q]).len() == Hexadecitree::FOXELS_PER_BRICK
                    } by {
                        if q < n {
                            assert(tree.pool[q].len() == Hexadecitree::FOXELS_PER_BRICK);
                        }
                    }
                    assert forall|q: int| 0 <= q < after.pool.len() implies {
                        &&& 0 <= #[trigger] after.owners[q] < Hexadecitree::TOTAL_BRICK_COUNT
                        &&& after.bricks[after.owners[q]] == BrickPtr::Pointer(q as usize)
                    } by {
                        if q < n {
                            assert(tree.owners[q] != slot);
                        }
                    }
                    assert forall|g: int| 0 <= g < Hexadecitree::TOTAL_BRICK_COUNT implies (
                    #[trigger] after.bricks[g] matches BrickPtr::Pointer(p) ==> p
                        < after.pool.len() && after.owners[p as int] == g) by {
                        if g != slot {
                            assert(after.bricks[g] == tree.bricks[g]);
                        }
                    }
                }
            },
        }
    }
}

/// When a write is taken and when it is turned down: a coordinate outside
/// the world is out of bounds; inside it, only a write that would diverge a
/// solid brick while the composite bricks are used up runs out of memory.
pub proof fn lemma_set_outcome(tree: TreeModel, pos: BlockPos, foxel: Foxel)
    requires
        tree.inv(),
    ensures
        !in_range(pos) <==> tree.set(pos, foxel).1 == Err::<Foxel, SetFoxelError>(
            SetFoxelError::OutOfBounds,
        ),
        (in_range(pos) && tree.bricks[brick_index(pos)] is Solid && tree.get(pos) != Some(foxel)
            && tree.composite_brick_count() == Hexadecitree::COMPOSITE_BRICK_COUNT)
            <==> tree.set(pos, foxel).1 == Err::<Foxel, SetFoxelError>(SetFoxelError::OutOfMemory),
        tree.set(pos, foxel).1 is Err ==> tree.set(pos, foxel).0 == tree,
        tree.set(pos, foxel).1 is Ok ==> tree.set(pos, foxel).1 == Ok::<Foxel, SetFoxelError>(
            tree.get(pos).unwrap(),
        ),
{
    if in_range(pos) {
        lemma_decompose_then_compose(pos);
    }
}

/// What is written is read back: after a write that was taken, the
/// coordinate holds the foxel written, every other coordinate holds what it
/// held, and the write has answered with the foxel that was there before.
pub proof fn lemma_set_then_get(tree: TreeModel, pos: BlockPos, foxel: Foxel)
    requires
        tree.inv(),
        tree.set(pos, foxel).1 is Ok,
    ensures
        tree.set(pos, foxel).0.get(pos) == Some(foxel),
        forall|other: BlockPos| other != pos ==> tree.set(pos, foxel).0.get(other) == tree.get(other),
        tree.set(pos, foxel).0.foxels() == tree.foxels().insert(pos, foxel),
        tree.set(pos, foxel).1 == Ok::<Foxel, SetFoxelError>(tree.foxels()[pos]),
{
    let after = tree.set(pos, foxel).0;
    lemma_decompose_then_compose(pos);
    lemma_set_keeps_inv(tree, pos, foxel);
    let slot = brick_index(pos);
    let place = foxel_index(pos);
    assert(after.get(pos) == Some(foxel));
    assert forall|other: BlockPos| other != pos implies after.get(other) == tree.get(other) by {
        if in_range(other) {
            lemma_decompose_then_compose(other);
            if brick_index(other) == slot {
                if foxel_index(other) == place {
                    lemma_decompose_injective(pos, other);
                }
            } else {
                let g = brick_index(other);
                assert(after.bricks[g] == tree.bricks[g]);
                match tree.bricks[g] {
                    BrickPtr::Pointer(q) => {
                        assert(tree.owners[q as int] == g);
                    },
                    BrickPtr::Solid(_) => {},
                }
            }
        }
    }
    assert(after.foxels() =~= tree.foxels().insert(pos, foxel)) by {
        assert forall|q: BlockPos| after.foxels().dom().contains(q) implies #[trigger] after.foxels()[q]
            == tree.foxels().insert(pos, foxel)[q] by {
            if q != pos {
                assert(after.get(q) == tree.get(q));
            }
        }
    }
}

/// Writing into a solid brick the foxel that fills it answers with that
/// foxel and leaves the store as it was, composite bricks included.
pub proof fn lemma_set_fill_changes_nothing(tree: TreeModel, pos: BlockPos, fill: Foxel)
    requires
        tree.inv(),
        in_range(pos),
        tree.bricks[brick_index(pos)] == BrickPtr::Solid(fill),
    ensures
        tree.set(pos, fill) == (tree, Ok::<Foxel, SetFoxelError>(fill)),
        tree.set(pos, fill).0.composite_brick_count() == tree.composite_brick_count(),
{
}

/// The composite bricks grow by one exactly when a write diverges a solid
/// brick, and never otherwise.
pub proof fn lemma_set_counts_bricks(tree: TreeModel, pos: BlockPos, foxel: Foxel)
    requires
        tree.inv(),
    ensures
        tree.set(pos, foxel).0.composite_brick_count() == tree.composite_brick_count() + (if in_range(
            pos,
        ) && tree.bricks[brick_index(pos)] is Solid && tree.get(pos) != Some(foxel)
            && tree.composite_brick_count() < Hexadecitree::COMPOSITE_BRICK_COUNT {
            1nat
        } else {
            0nat
        }),
{
    if in_range(pos) {
        lemma_decompose_then_compose(pos);
    }
}

/// Once as many composite bricks exist as are allowed, a write that would
/// diverge one more solid brick runs out of memory and leaves the store as it
/// was.
pub proof fn lemma_set_at_capacity(tree: TreeModel, pos: BlockPos, foxel: Foxel, fill: Foxel)
    requires
        tree.inv(),
        tree.composite_brick_count() == Hexadecitree::COMPOSITE_BRICK_COUNT,
        in_range(pos),
        tree.bricks[brick_index(pos)] == BrickPtr::Solid(fill),
        fill != foxel,
    ensures
        tree.set(pos, foxel) == (tree, Err::<Foxel, SetFoxelError>(SetFoxelError::OutOfMemory)),
{
}

/// The composite bricks are counted by the bricks that have diverged: there
/// is one composite brick for each grid slot that holds a pointer, and no
/// other.
pub proof fn lemma_composite_bricks_match_slots(tree: TreeModel)
    requires
        tree.inv(),
    ensures
        tree.composite_slots().finite(),
        tree.composite_slots().len() == tree.composite_brick_count(),
{
    let places = vstd::set_lib::set_int_range(0, tree.pool.len() as int);
    let owner = |p: int| tree.owners[p];
    vstd::set_lib::lemma_int_range(0, tree.pool.len() as int);
    assert(vstd::relations::injective_on(owner, places)) by {
        assert forall|p: int, q: int|
            places.contains(p) && places.contains(q) && #[trigger] owner(p) == #[trigger] owner(
                q,
            ) implies p == q by {
            assert(tree.bricks[tree.owners[p]] == BrickPtr::Pointer(p as usize));
            assert(tree.bricks[tree.owners[q]] == BrickPtr::Pointer(q as usize));
        }
    }
    assert(places.map(owner) =~= tree.composite_slots()) by {
        assert forall|g: int| tree.composite_slots().contains(g) implies places.map(owner).contains(
            g,
        ) by {
            let p = tree.bricks[g]->Pointer_0 as int;
            assert(places.contains(p) && owner(p) == g);
        }
        assert forall|g: int| places.map(owner).contains(g) implies tree.composite_slots().contains(
            g,
        ) by {
            let p = choose|p: int| places.contains(p) && owner(p) == g;
            assert(tree.bricks[tree.owners[p]] == BrickPtr::Pointer(p as usize));
        }
    }
    vstd::set_lib::lemma_map_size(places, tree.composite_slots(), owner);
}

} // verus!
