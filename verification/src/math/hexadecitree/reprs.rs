//! Transfer-friendly representations of bricks and brick pointers.
//!
//! A brick pointer travels as sixteen bits. If the high bit is set, the
//! remainder is a fifteen-bit index into the composite bricks; if it is not,
//! the low eight bits are a foxel that fills the whole brick. All zero is
//! therefore a brick of air.

use vstd::prelude::*;
use crate::math::hexadecitree::Hexadecitree;
use crate::world::foxel::{Foxel, FoxelRepr};

verus! {

pub const HIGH_BIT16: u16 = 0x8000;

/// What a slot of the brick grid says about its brick.
#[derive(Debug, Clone, Copy, PartialEq, Eq, Structural)]
pub enum BrickPtr {
    /// Every foxel of the brick is this one; nothing is stored for it.
    Solid(Foxel),
    /// The brick is stored in full at this place among the composite bricks.
    Pointer(usize),
}

impl BrickPtr {
    /// A pointer has to stay below the number of composite bricks allowed.
    pub open spec fn wf(self) -> bool {
        self matches BrickPtr::Pointer(p) ==> p < Hexadecitree::COMPOSITE_BRICK_COUNT
    }

    /// The sixteen bits that stand for this pointer.
    pub open spec fn code(self) -> u16 {
        match self {
            BrickPtr::Solid(f) => f.code() as u16,
            BrickPtr::Pointer(p) => (HIGH_BIT16 + p) as u16,
        }
    }

    pub fn encode(&self) -> (repr: BrickPtrRepr)
        requires
            self.wf(),
        ensures
            repr.0 == self.code(),
            repr.is_valid(),
    {
        BrickPtrRepr(
            match *self {
                BrickPtr::Solid(f) => {
                    let byte: u8 = f.encode().0;
                    byte as u16
                },
                BrickPtr::Pointer(ptr) => {
                    let low: u16 = ptr as u16;
                    assert(0x8000u16 | low == 0x8000u16 + low) by (bit_vector)
                        requires
                            low < 4096u16,
                    ;
                    HIGH_BIT16 | low
                },
            },
        )
    }
}

/// A brick pointer as it is stored in the grid and shipped.
#[derive(Debug, Clone, Copy, PartialEq, Eq, Structural)]
pub struct BrickPtrRepr(pub u16);

impl BrickPtrRepr {
    /// Whether the bits follow the format to the letter: a solid code has
    /// nothing but a recognised foxel byte in it, and a pointer code stays
    /// below the number of composite bricks allowed.
    pub open spec fn is_valid(self) -> bool {
        if self.0 >= HIGH_BIT16 {
            self.0 - HIGH_BIT16 < Hexadecitree::COMPOSITE_BRICK_COUNT
        } else {
            self.0 < 256 && Foxel::is_code(self.0 as u8)
        }
    }

    /// What the bits say. Of a solid code only the low byte is read, and a
    /// byte that names no foxel reads as `Invalid`.
    pub open spec fn spec_decode(self) -> BrickPtr {
        if self.0 >= HIGH_BIT16 {
            BrickPtr::Pointer((self.0 - HIGH_BIT16) as usize)
        } else {
            BrickPtr::Solid(Foxel::from_code((self.0 % 256) as u8))
        }
    }

    pub fn entirely_air() -> (repr: BrickPtrRepr)
        ensures
            repr.0 == 0,
            repr.spec_decode() == BrickPtr::Solid(Foxel::Air),
    {
        BrickPtrRepr(0)
    }

    /// Never fails, whatever the bits are.
    pub fn decode(self) -> (ptr: BrickPtr)
        ensures
            ptr == self.spec_decode(),
    {
        let x: u16 = self.0;
        assert((x & 0x8000u16 != 0) <==> x >= 0x8000u16) by (bit_vector);
        assert(x >= 0x8000u16 ==> x & (!0x8000u16) == x - 0x8000u16) by (bit_vector);
        assert(x & 0xffu16 == x % 256u16) by (bit_vector);
        if x & HIGH_BIT16 != 0 {
            let ptr: u16 = x & (!HIGH_BIT16);
            BrickPtr::Pointer(ptr as usize)
        } else {
            let low: u16 = x & 0xff;
            BrickPtr::Solid(FoxelRepr(low as u8).decode())
        }
    }
}

/// A brick stored in full: one foxel code for each of its places.
#[derive(Debug, Clone, Copy)]
pub struct Brick(pub [FoxelRepr; 4096]);

impl Brick {
    /// The foxels of the brick, place by place.
    pub open spec fn foxels(self) -> Seq<Foxel> {
        Seq::new(4096, |i: int| Foxel::from_code(self.0@[i].0))
    }
}

/// What a brick pointer leads to in a given store.
#[derive(Debug, Clone, Copy)]
pub enum BrickRef<'a> {
    Solid(Foxel),
    Ref(&'a Brick),
}

/// Decoding a valid code and encoding the outcome gives the code back.
pub proof fn lemma_brick_ptr_code_round_trip(repr: BrickPtrRepr)
    requires
        repr.is_valid(),
    ensures
        repr.spec_decode().wf(),
        repr.spec_decode().code() == repr.0,
{
}

/// Encoding a well-formed pointer gives a valid code, and decoding that code
/// gives the pointer back.
pub proof fn lemma_brick_ptr_round_trip(ptr: BrickPtr)
    requires
        ptr.wf(),
    ensures
        (BrickPtrRepr(ptr.code())).is_valid(),
        (BrickPtrRepr(ptr.code())).spec_decode() == ptr,
{
    if let BrickPtr::Solid(f) = ptr {
        crate::world::foxel::lemma_foxel_code_round_trip(f);
    }
}

} // verus!
