//! The store as one block of bytes for the renderer.
//!
//! The block starts with the brick pointers, two bytes each, in grid order.
//! Then come the composite bricks that are shipped, one byte for each foxel.
//! Zeros fill the rest. Only so many composite bricks fit, so a composite
//! brick that the caller does not hold to be in sight, or that comes after
//! the table is full, travels as a brick of air; the store itself is never
//! changed by this.

use vstd::prelude::*;
use crate::math::hexadecitree::Hexadecitree;
use crate::math::hexadecitree::model::TreeModel;
use crate::math::hexadecitree::reprs::{
    lemma_brick_ptr_code_round_trip, Brick, BrickPtr, BrickPtrRepr,
};
use crate::world::foxel::Foxel;

verus! {

/// The byte of a sixteen-bit code at `place` (0 or 1) in memory, low byte
/// first if `little_endian` and high byte first if not.
pub open spec fn code_byte(code: u16, place: int, little_endian: bool) -> u8 {
    if (place == 0) == little_endian {
        (code % 256) as u8
    } else {
        (code / 256) as u8
    }
}

/// Sixteen-bit codes as bytes, two for each, in one byte order throughout.
pub open spec fn codes_to_bytes(codes: Seq<u16>, little_endian: bool) -> Seq<u8> {
    Seq::new(2 * codes.len(), |i: int| code_byte(codes[i / 2], i % 2, little_endian))
}

/// The memory of a slice of sixteen-bit codes, seen as bytes.
///
/// Calls `bytemuck::cast_slice` from `u16` to `u8`. That cast cannot fail: a
/// byte needs no alignment and two bytes always make a whole code. It hands
/// out the very memory of the codes, so there are twice as many bytes as
/// codes, and each code gives its two bytes in the byte order of the machine,
/// which is the same for all of them. Which order that is, is not claimed.
#[verifier::external_body]
fn codes_as_bytes(codes: &[u16]) -> (bytes: &[u8])
    ensures
        bytes@ == codes_to_bytes(codes@, true) || bytes@ == codes_to_bytes(codes@, false),
{
    bytemuck::cast_slice(codes)
}

impl TreeModel {
    /// Whether the brick at a grid slot is a composite brick that is held to
    /// be in sight. `visible` is asked by the brick's place among the
    /// composite bricks; a brick that it does not reach is not in sight.
    pub open spec fn in_sight(self, visible: Seq<bool>, slot: int) -> bool {
        self.bricks[slot] matches BrickPtr::Pointer(p) && p < visible.len() && visible[p as int]
    }

    /// The composite bricks in sight among the grid slots below `slot`, in
    /// grid order, each named by its place among the composite bricks.
    pub open spec fn sighted_below(self, visible: Seq<bool>, slot: int) -> Seq<usize>
        decreases slot,
    {
        if slot <= 0 {
            Seq::empty()
        } else if self.in_sight(visible, slot - 1) {
            self.sighted_below(visible, slot - 1).push(self.bricks[slot - 1]->Pointer_0)
        } else {
            self.sighted_below(visible, slot - 1)
        }
    }

    /// As many of `sighted`, from its start, as the shipped table has room
    /// for.
    pub open spec fn fitting(sighted: Seq<usize>) -> Seq<usize> {
        if sighted.len() <= Hexadecitree::GPU_COMPOSITE_BRICKS_COUNT {
            sighted
        } else {
            sighted.take(Hexadecitree::GPU_COMPOSITE_BRICKS_COUNT as int)
        }
    }

    /// The composite bricks that are shipped: those in sight, in grid order,
    /// as far as the table has room.
    pub open spec fn shipped(self, visible: Seq<bool>) -> Seq<usize> {
        Self::fitting(self.sighted_below(visible, Hexadecitree::TOTAL_BRICK_COUNT as int))
    }

    /// The pointer that is shipped for a grid slot. A solid brick travels as
    /// it is. A composite brick that is shipped travels as a pointer to its
    /// place in the shipped table; any other composite brick travels as air.
    pub open spec fn shipped_ptr(self, visible: Seq<bool>, slot: int) -> BrickPtr {
        match self.bricks[slot] {
            BrickPtr::Solid(f) => BrickPtr::Solid(f),
            BrickPtr::Pointer(_) => {
                let place = self.sighted_below(visible, slot).len();
                if self.in_sight(visible, slot) && place
                    < Hexadecitree::GPU_COMPOSITE_BRICKS_COUNT {
                    BrickPtr::Pointer(place as usize)
                } else {
                    BrickPtr::Solid(Foxel::Air)
                }
            },
        }
    }

    /// The codes of the pointers that are shipped, in grid order.
    pub open spec fn shipped_codes(self, visible: Seq<bool>) -> Seq<u16> {
        Seq::new(
            Hexadecitree::TOTAL_BRICK_COUNT as nat,
            |slot: int| self.shipped_ptr(visible, slot).code(),
        )
    }

    /// Byte `i` of the block of `len` bytes that is shipped.
    pub open spec fn image_byte(self, visible: Seq<bool>, little_endian: bool, i: int) -> u8 {
        let table = self.shipped(visible);
        let past_ptrs = i - Hexadecitree::GPU_BRICK_PTRS_BYTES;
        if i < Hexadecitree::GPU_BRICK_PTRS_BYTES {
            code_byte(self.shipped_ptr(visible, i / 2).code(), i % 2, little_endian)
        } else if past_ptrs < table.len() * Hexadecitree::FOXELS_PER_BRICK {
            self.pool[table[past_ptrs / (Hexadecitree::FOXELS_PER_BRICK as int)] as int][past_ptrs
                % (Hexadecitree::FOXELS_PER_BRICK as int)].code()
        } else {
            0
        }
    }

    /// The block of `len` bytes that is shipped.
    pub open spec fn image(self, visible: Seq<bool>, little_endian: bool, len: nat) -> Seq<u8> {
        Seq::new(len, |i: int| self.image_byte(visible, little_endian, i))
    }
}

impl Hexadecitree {
    pub const GPU_BRICK_PTRS_COUNT: u32 = 1048576;

    /// How many composite bricks fit into one block.
    pub const GPU_COMPOSITE_BRICKS_COUNT: u32 = 16;

    pub const GPU_BRICK_PTRS_BYTES: usize = 2097152;

    pub const GPU_COMPOSITE_BRICKS_BYTES: usize = 65536;

    pub const GPU_TOTAL_BYTES: usize = 2162688;

    /// One byte equals one foxel, and one pixel of the transfer image holds
    /// four bytes. This is the side length of the image, in pixels: the
    /// least power of two whose square holds the whole block.
    pub const GPU_TRANSFER_IMAGE_SIZE: usize = 1024;

    pub const GPU_TRANSFER_IMAGE_SIZE_SQ: usize = 1048576;

    /// How the measures of the block hang together: every brick has a
    /// pointer of two bytes, every shipped brick a byte for each foxel, the
    /// two tables make the block, and the transfer image, which is square
    /// with four bytes to the pixel, holds it.
    pub proof fn lemma_block_measures()
        ensures
            Self::GPU_BRICK_PTRS_COUNT == Self::TOTAL_BRICK_COUNT,
            Self::GPU_BRICK_PTRS_BYTES == 2 * Self::GPU_BRICK_PTRS_COUNT,
            Self::GPU_COMPOSITE_BRICKS_BYTES == Self::GPU_COMPOSITE_BRICKS_COUNT
                * Self::FOXELS_PER_BRICK,
            Self::GPU_TOTAL_BYTES == Self::GPU_BRICK_PTRS_BYTES + Self::GPU_COMPOSITE_BRICKS_BYTES,
            Self::GPU_TRANSFER_IMAGE_SIZE_SQ == Self::GPU_TRANSFER_IMAGE_SIZE
                * Self::GPU_TRANSFER_IMAGE_SIZE,
            Self::GPU_TOTAL_BYTES <= Self::GPU_TRANSFER_IMAGE_SIZE_SQ * 4,
            Self::GPU_COMPOSITE_BRICKS_COUNT <= Self::COMPOSITE_BRICK_COUNT,
    {
    }

    /// Writes the store into `bytes` as one block for the renderer.
    ///
    /// `visible` says of each composite brick, by its place among the
    /// composite bricks, whether it is held to be in sight; a brick beyond
    /// its end is not. The whole of `bytes` is written, zeros after the two
    /// tables. The codes of the brick pointers are laid down in the byte
    /// order of the machine.
    pub fn upload(&self, bytes: &mut [u8], visible: &[bool])
        requires
            self.wf(),
            old(bytes)@.len() >= Self::GPU_TOTAL_BYTES,
        ensures
            final(bytes)@ == self@.image(visible@, true, old(bytes)@.len()) || final(bytes)@
                == self@.image(visible@, false, old(bytes)@.len()),
    {
        let mut gpu_composite_bricks: Vec<Brick> = Vec::new();
        let mut gpu_brick_ptrs: Vec<u16> = Vec::new();
        let ghost mut table: Seq<usize> = Seq::empty();
        let mut slot: usize = 0;
        while slot < Self::TOTAL_BRICK_COUNT as usize
            invariant
                self.wf(),
                slot <= Self::TOTAL_BRICK_COUNT,
                gpu_brick_ptrs@.len() == slot,
                forall|s: int|
                    0 <= s < slot ==> #[trigger] gpu_brick_ptrs@[s] == self@.shipped_ptr(
                        visible@,
                        s,
                    ).code(),
                table == TreeModel::fitting(self@.sighted_below(visible@, slot as int)),
                gpu_composite_bricks@.len() == table.len(),
                forall|k: int|
                    0 <= k < table.len() ==> {
                        &&& #[trigger] table[k] < self.composite_bricks@.len()
                        &&& gpu_composite_bricks@[k] == self.composite_bricks@[table[k] as int]
                    },
            decreases Self::TOTAL_BRICK_COUNT - slot,
        {
            proof {
                self.lemma_layout();
            }
            let brick_repr = self.brick_ptrs[slot];
            proof {
                lemma_brick_ptr_code_round_trip(brick_repr);
            }
            let ghost before = self@.sighted_below(visible@, slot as int);
            let ghost after = self@.sighted_below(visible@, slot + 1);
            proof {
                assert(after == if self@.in_sight(visible@, slot as int) {
                    before.push(self@.bricks[slot as int]->Pointer_0)
                } else {
                    before
                });
            }
            match brick_repr.decode() {
                BrickPtr::Solid(_) => {
                    gpu_brick_ptrs.push(brick_repr.0);
                },
                BrickPtr::Pointer(p) => {
                    let brick_limit_reached = gpu_composite_bricks.len()
                        >= Self::GPU_COMPOSITE_BRICKS_COUNT as usize;
                    let brick_probably_in_fov = p < visible.len() && visible[p];
                    if brick_limit_reached || !brick_probably_in_fov {
                        gpu_brick_ptrs.push(BrickPtrRepr::entirely_air().0);
                    } else {
                        let composite_idx = gpu_composite_bricks.len();
                        gpu_composite_bricks.push(self.composite_bricks[p]);
                        gpu_brick_ptrs.push(BrickPtr::Pointer(composite_idx).encode().0);
                        proof {
                            table = table.push(p);
                        }
                    }
                },
            }
            assert(table =~= TreeModel::fitting(after));
            slot += 1;
        }
        assert(table == self@.shipped(visible@));
        assert(gpu_brick_ptrs@ =~= self@.shipped_codes(visible@));

        let ptr_bytes = codes_as_bytes(gpu_brick_ptrs.as_slice());
        let ghost little_endian = ptr_bytes@ == codes_to_bytes(gpu_brick_ptrs@, true);
        let ghost goal = self@.image(visible@, little_endian, bytes@.len());
        let mut at: usize = 0;
        while at < Self::GPU_BRICK_PTRS_BYTES
            invariant
                at <= Self::GPU_BRICK_PTRS_BYTES,
                bytes@.len() == goal.len(),
                goal.len() >= Self::GPU_TOTAL_BYTES,
                goal == self@.image(visible@, little_endian, goal.len()),
                ptr_bytes@ == codes_to_bytes(self@.shipped_codes(visible@), little_endian),
                forall|j: int| 0 <= j < at ==> #[trigger] bytes@[j] == goal[j],
            decreases Self::GPU_BRICK_PTRS_BYTES - at,
        {
            bytes[at] = ptr_bytes[at];
            at += 1;
        }
        let mut k: usize = 0;
        while k < gpu_composite_bricks.len()
            invariant
                self.wf(),
                k <= gpu_composite_bricks@.len(),
                gpu_composite_bricks@.len() == table.len(),
                table == self@.shipped(visible@),
                table.len() <= Self::GPU_COMPOSITE_BRICKS_COUNT,
                at == Self::GPU_BRICK_PTRS_BYTES + k * Self::FOXELS_PER_BRICK,
                bytes@.len() == goal.len(),
                goal.len() >= Self::GPU_TOTAL_BYTES,
                goal == self@.image(visible@, little_endian, goal.len()),
                forall|n: int|
                    0 <= n < table.len() ==> {
                        &&& #[trigger] table[n] < self.composite_bricks@.len()
                        &&& gpu_composite_bricks@[n] == self.composite_bricks@[table[n] as int]
                    },
                forall|j: int| 0 <= j < at ==> #[trigger] bytes@[j] == goal[j],
            decreases gpu_composite_bricks@.len() - k,
        {
            let mut place: usize = 0;
            while place < Self::FOXELS_PER_BRICK as usize
                invariant
                    self.wf(),
                    k < gpu_composite_bricks@.len(),
                    gpu_composite_bricks@.len() == table.len(),
                    table == self@.shipped(visible@),
                    table.len() <= Self::GPU_COMPOSITE_BRICKS_COUNT,
                    place <= Self::FOXELS_PER_BRICK,
                    at == Self::GPU_BRICK_PTRS_BYTES + k * Self::FOXELS_PER_BRICK + place,
                    bytes@.len() == goal.len(),
                    goal.len() >= Self::GPU_TOTAL_BYTES,
                    goal == self@.image(visible@, little_endian, goal.len()),
                    table[k as int] < self.composite_bricks@.len(),
                    gpu_composite_bricks@[k as int] == self.composite_bricks@[table[k as int] as int],
                    forall|j: int| 0 <= j < at ==> #[trigger] bytes@[j] == goal[j],
                decreases Self::FOXELS_PER_BRICK - place,
            {
                let byte: u8 = gpu_composite_bricks[k].0[place].0;
                proof {
                    self.lemma_layout();
                    let past_ptrs = at - Self::GPU_BRICK_PTRS_BYTES;
                    assert(past_ptrs == k * 4096 + place);
                    assert(past_ptrs / 4096 == k && past_ptrs % 4096 == place) by {
                        vstd::arithmetic::div_mod::lemma_fundamental_div_mod_converse(
                            past_ptrs,
                            4096,
                            k as int,
                            place as int,
                        );
                    }
                    crate::world::foxel::lemma_foxel_byte_round_trip(byte);
                    assert(goal[at as int] == byte);
                }
                bytes[at] = byte;
                at += 1;
                place += 1;
            }
            k += 1;
        }
        while at < bytes.len()
            invariant
                at >= Self::GPU_BRICK_PTRS_BYTES + table.len() * Self::FOXELS_PER_BRICK,
                table == self@.shipped(visible@),
                bytes@.len() == goal.len(),
                goal == self@.image(visible@, little_endian, goal.len()),
                forall|j: int| 0 <= j < at ==> #[trigger] bytes@[j] == goal[j],
            decreases bytes@.len() - at,
        {
            bytes[at] = 0;
            at += 1;
        }
        assert(bytes@ =~= goal);
    }
}

/// The composite bricks in sight below a grid slot are still there, at the
/// same places, when more of the grid is looked at.
pub proof fn lemma_sighted_below_grows(tree: TreeModel, visible: Seq<bool>, low: int, high: int)
    requires
        0 <= low <= high,
    ensures
        tree.sighted_below(visible, low).len() <= tree.sighted_below(visible, high).len(),
        forall|k: int|
            0 <= k < tree.sighted_below(visible, low).len() ==> tree.sighted_below(visible, high)[k]
                == tree.sighted_below(visible, low)[k],
    decreases high - low,
{
    if low < high {
        lemma_sighted_below_grows(tree, visible, low, high - 1);
    }
}

/// What is shipped hangs together: a pointer that is shipped for a grid slot
/// names a place in the shipped table, and at that place stands the
/// composite brick of that slot.
pub proof fn lemma_shipped_ptr_finds_its_brick(tree: TreeModel, visible: Seq<bool>, slot: int)
    requires
        tree.inv(),
        0 <= slot < Hexadecitree::TOTAL_BRICK_COUNT,
    ensures
        tree.shipped(visible).len() <= Hexadecitree::GPU_COMPOSITE_BRICKS_COUNT,
        tree.shipped_ptr(visible, slot) matches BrickPtr::Pointer(place) ==> {
            &&& place < tree.shipped(visible).len()
            &&& tree.bricks[slot] == BrickPtr::Pointer(tree.shipped(visible)[place as int])
        },
        tree.shipped_ptr(visible, slot) matches BrickPtr::Solid(fill) ==> tree.bricks[slot]
            == BrickPtr::Solid(fill) || (fill == Foxel::Air && tree.bricks[slot] is Pointer),
{
    if tree.shipped_ptr(visible, slot) is Pointer {
        let total = Hexadecitree::TOTAL_BRICK_COUNT as int;
        lemma_sighted_below_grows(tree, visible, slot + 1, total);
        let before = tree.sighted_below(visible, slot);
        assert(tree.sighted_below(visible, slot + 1) == before.push(
            tree.bricks[slot]->Pointer_0,
        ));
    }
}

} // verus!
