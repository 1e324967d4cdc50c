//! Foxel values and their one-byte wire codes.

use vstd::prelude::*;

verus! {

/// The elementary addressable unit of the world: air, or one of a handful of
/// fill colours.
#[derive(Debug, Clone, Copy, PartialEq, Eq, Structural)]
pub enum Foxel {
    Air,
    Red,
    Green,
    Blue,
    RG,
    GB,
    RB,
    Black,
    White,
    /// Stands for every byte that names no foxel.
    Invalid,
}

impl Foxel {
    /// The byte that stands for this foxel on the wire.
    pub open spec fn code(self) -> u8 {
        match self {
            Foxel::Air => 0,
            Foxel::Red => 1,
            Foxel::Green => 2,
            Foxel::Blue => 3,
            Foxel::RG => 4,
            Foxel::GB => 5,
            Foxel::RB => 6,
            Foxel::Black => 7,
            Foxel::White => 8,
            Foxel::Invalid => 255,
        }
    }

    /// The foxel that a byte stands for; a byte that names none gives
    /// `Invalid`.
    pub open spec fn from_code(byte: u8) -> Foxel {
        if byte == 0 {
            Foxel::Air
        } else if byte == 1 {
            Foxel::Red
        } else if byte == 2 {
            Foxel::Green
        } else if byte == 3 {
            Foxel::Blue
        } else if byte == 4 {
            Foxel::RG
        } else if byte == 5 {
            Foxel::GB
        } else if byte == 6 {
            Foxel::RB
        } else if byte == 7 {
            Foxel::Black
        } else if byte == 8 {
            Foxel::White
        } else {
            Foxel::Invalid
        }
    }

    /// Whether a byte is the code of some foxel.
    pub open spec fn is_code(byte: u8) -> bool {
        byte <= 8 || byte == 255
    }

    /// Only air lets a ray through.
    pub fn transparent(&self) -> (clear: bool)
        ensures
            clear == (*self == Foxel::Air),
    {
        match self {
            Foxel::Air => true,
            _ => false,
        }
    }

    pub fn encode(self) -> (repr: FoxelRepr)
        ensures
            repr.0 == self.code(),
    {
        FoxelRepr(
            match self {
                Foxel::Air => 0,
                Foxel::Red => 1,
                Foxel::Green => 2,
                Foxel::Blue => 3,
                Foxel::RG => 4,
                Foxel::GB => 5,
                Foxel::RB => 6,
                Foxel::Black => 7,
                Foxel::White => 8,
                Foxel::Invalid => 255,
            },
        )
    }
}

/// A foxel as one byte, as it is stored in a brick and shipped.
#[derive(Debug, Clone, Copy, PartialEq, Eq, Structural)]
pub struct FoxelRepr(pub u8);

impl FoxelRepr {
    /// Never fails: a foreign or stale byte decodes to `Invalid`.
    pub fn decode(self) -> (foxel: Foxel)
        ensures
            foxel == Foxel::from_code(self.0),
    {
        match self.0 {
            0 => Foxel::Air,
            1 => Foxel::Red,
            2 => Foxel::Green,
            3 => Foxel::Blue,
            4 => Foxel::RG,
            5 => Foxel::GB,
            6 => Foxel::RB,
            7 => Foxel::Black,
            8 => Foxel::White,
            _ => Foxel::Invalid,
        }
    }
}

/// Every foxel survives its own encoding: decoding the code of a foxel gives
/// that foxel back, and the code of a foxel is always a recognised byte.
pub proof fn lemma_foxel_code_round_trip(foxel: Foxel)
    ensures
        Foxel::from_code(foxel.code()) == foxel,
        Foxel::is_code(foxel.code()),
{
}

/// A recognised byte survives decoding: the foxel it names has that byte as
/// its code. Any other byte decodes to `Invalid`.
pub proof fn lemma_foxel_byte_round_trip(byte: u8)
    ensures
        Foxel::is_code(byte) ==> Foxel::from_code(byte).code() == byte,
        !Foxel::is_code(byte) ==> Foxel::from_code(byte) == Foxel::Invalid,
{
}

} // verus!
