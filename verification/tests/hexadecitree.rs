use tesseractory::math::hexadecitree::reprs::{BrickPtr, BrickPtrRepr, BrickRef};
use tesseractory::math::hexadecitree::{
    compose_pos, decompose_pos, is_block_in_range, Hexadecitree, SetFoxelError,
};
use tesseractory::math::BlockPos;
use tesseractory::world::Foxel;

#[test]
fn smoke() {
    let palette = [
        Foxel::Red,
        Foxel::Green,
        Foxel::Blue,
        Foxel::RG,
        Foxel::GB,
        Foxel::RB,
        Foxel::White,
        Foxel::Black,
    ];

    let mut h = Hexadecitree::new();
    let len = 10i32;
    for x in -len..len {
        for y in -len..len {
            for z in -len..len {
                for w in -len..len {
                    let foxel = palette[(x + y + z + w).rem_euclid(palette.len() as i32) as usize];
                    let pos = BlockPos::new(x, y, z, w);
                    h.set(pos, foxel).unwrap();
                    let retrieve = h.get(pos);
                    assert_eq!(retrieve, Some(foxel), "{:?}", pos);
                }
            }
        }
    }
}

#[test]
fn new_world_is_air() {
    let h = Hexadecitree::new();
    assert_eq!(h.composite_brick_count(), 0);
    assert_eq!(h.get(BlockPos::new(0, 0, 0, 0)), Some(Foxel::Air));
    assert_eq!(h.get(BlockPos::new(-128, 127, -128, 127)), Some(Foxel::Air));
}

#[test]
fn out_of_range_reads_nothing_and_writes_fail() {
    let mut h = Hexadecitree::new();
    for pos in [
        BlockPos::new(128, 0, 0, 0),
        BlockPos::new(0, -129, 0, 0),
        BlockPos::new(0, 0, i32::MAX, 0),
        BlockPos::new(0, 0, 0, i32::MIN),
    ] {
        assert!(!is_block_in_range(pos));
        assert_eq!(decompose_pos(pos), None);
        assert_eq!(h.get(pos), None);
        assert_eq!(h.set(pos, Foxel::Red), Err(SetFoxelError::OutOfBounds));
    }
    assert_eq!(h.composite_brick_count(), 0);
}

#[test]
fn set_returns_previous_and_get_reads_back() {
    let mut h = Hexadecitree::new();
    let pos = BlockPos::new(3, -4, 5, -6);
    assert_eq!(h.set(pos, Foxel::Red), Ok(Foxel::Air));
    assert_eq!(h.get(pos), Some(Foxel::Red));
    assert_eq!(h.set(pos, Foxel::Blue), Ok(Foxel::Red));
    assert_eq!(h.get(pos), Some(Foxel::Blue));
    // The neighbours in the same brick still hold the fill.
    assert_eq!(h.get(BlockPos::new(4, -4, 5, -6)), Some(Foxel::Air));
    assert_eq!(h.get(BlockPos::new(3, -4, 5, -5)), Some(Foxel::Air));
    assert_eq!(h.composite_brick_count(), 1);
}

#[test]
fn invalid_foxel_can_be_stored() {
    let mut h = Hexadecitree::new();
    let pos = BlockPos::new(1, 1, 1, 1);
    assert_eq!(h.set(pos, Foxel::Invalid), Ok(Foxel::Air));
    assert_eq!(h.get(pos), Some(Foxel::Invalid));
}

#[test]
fn writing_the_fill_allocates_nothing() {
    let mut h = Hexadecitree::new();
    let pos = BlockPos::new(-1, -1, -1, -1);
    assert_eq!(h.set(pos, Foxel::Air), Ok(Foxel::Air));
    assert_eq!(h.composite_brick_count(), 0);
    assert_eq!(h.set(pos, Foxel::Air), Ok(Foxel::Air));
    assert_eq!(h.composite_brick_count(), 0);
    assert_eq!(h.get(pos), Some(Foxel::Air));
}

#[test]
fn one_brick_per_diverged_brick() {
    let mut h = Hexadecitree::new();
    // 0..8 lie in one brick, 8 lies in the next.
    for v in 0..8 {
        h.set(BlockPos::new(v, 0, 0, 0), Foxel::Green).unwrap();
    }
    assert_eq!(h.composite_brick_count(), 1);
    h.set(BlockPos::new(8, 0, 0, 0), Foxel::Green).unwrap();
    assert_eq!(h.composite_brick_count(), 2);
    // -8..0 is one brick, and -8 is its low edge.
    h.set(BlockPos::new(-1, 0, 0, 0), Foxel::Green).unwrap();
    assert_eq!(h.composite_brick_count(), 3);
    h.set(BlockPos::new(-8, 0, 0, 0), Foxel::Green).unwrap();
    assert_eq!(h.composite_brick_count(), 3);
    h.set(BlockPos::new(-9, 0, 0, 0), Foxel::Green).unwrap();
    assert_eq!(h.composite_brick_count(), 4);
}

#[test]
fn pool_runs_out_at_capacity() {
    let mut h = Hexadecitree::new();
    let cap = Hexadecitree::COMPOSITE_BRICK_COUNT as usize;
    let mut made = 0usize;
    // One write into each of 4096 different bricks: 16 * 16 * 16 bricks.
    for bx in 0..16 {
        for by in 0..16 {
            for bz in 0..16 {
                let pos = BlockPos::new(bx * 8 - 64, by * 8 - 64, bz * 8 - 64, 0);
                assert_eq!(h.set(pos, Foxel::Red), Ok(Foxel::Air));
                made += 1;
                assert_eq!(h.composite_brick_count(), made);
            }
        }
    }
    assert_eq!(made, cap);
    let fresh = BlockPos::new(100, 100, 100, 100);
    assert_eq!(h.set(fresh, Foxel::Red), Err(SetFoxelError::OutOfMemory));
    assert_eq!(h.composite_brick_count(), cap);
    assert_eq!(h.get(fresh), Some(Foxel::Air));
    // Writing the fill still works, and so does writing into a stored brick.
    assert_eq!(h.set(fresh, Foxel::Air), Ok(Foxel::Air));
    let stored = BlockPos::new(-63, -64, -64, 0);
    assert_eq!(h.set(stored, Foxel::Blue), Ok(Foxel::Air));
    assert_eq!(h.get(stored), Some(Foxel::Blue));
    assert_eq!(h.get(BlockPos::new(-64, -64, -64, 0)), Some(Foxel::Red));
    assert_eq!(h.composite_brick_count(), cap);
}

#[test]
fn decompose_known_values() {
    // The low corner of the world is the first place of the first brick.
    assert_eq!(decompose_pos(BlockPos::new(-128, -128, -128, -128)), Some((0, 0)));
    // The high corner is the last place of the last brick.
    assert_eq!(
        decompose_pos(BlockPos::new(127, 127, 127, 127)),
        Some((1048575, 4095))
    );
    // The origin: brick 16 on every axis, place 0.
    assert_eq!(
        decompose_pos(BlockPos::new(0, 0, 0, 0)),
        Some((((16 * 32 + 16) * 32 + 16) * 32 + 16, 0))
    );
    // x is the most significant digit, w the least.
    assert_eq!(
        decompose_pos(BlockPos::new(1, 0, 0, 0)),
        Some((((16 * 32 + 16) * 32 + 16) * 32 + 16, 512))
    );
    assert_eq!(
        decompose_pos(BlockPos::new(0, 0, 0, 9)),
        Some((((16 * 32 + 16) * 32 + 16) * 32 + 17, 1))
    );
    // A negative multiple of the brick width is the low edge of its brick.
    assert_eq!(
        decompose_pos(BlockPos::new(0, 0, 0, -8)),
        Some((((16 * 32 + 16) * 32 + 16) * 32 + 15, 0))
    );
    assert_eq!(
        decompose_pos(BlockPos::new(0, 0, 0, -1)),
        Some((((16 * 32 + 16) * 32 + 16) * 32 + 15, 7))
    );
}

#[test]
fn decompose_compose_round_trip() {
    for x in [-128, -65, -9, -8, -1, 0, 7, 8, 63, 127] {
        for y in [-128, -8, -1, 0, 1, 127] {
            for z in [-128, -7, 0, 9, 127] {
                for w in [-128, -1, 0, 8, 127] {
                    let pos = BlockPos::new(x, y, z, w);
                    let (brick, foxel) = decompose_pos(pos).unwrap();
                    assert!(brick < 1048576);
                    assert!(foxel < 4096);
                    assert_eq!(compose_pos(brick, foxel), Some(pos));
                }
            }
        }
    }
}

#[test]
fn compose_decompose_round_trip() {
    for brick in [0usize, 1, 31, 32, 1023, 1024, 32767, 32768, 540688, 1048575] {
        for foxel in [0usize, 1, 7, 8, 63, 64, 511, 512, 4095] {
            let pos = compose_pos(brick, foxel).unwrap();
            assert!(is_block_in_range(pos));
            assert_eq!(decompose_pos(pos), Some((brick, foxel)));
        }
    }
    assert_eq!(compose_pos(1048576, 0), None);
    assert_eq!(compose_pos(0, 4096), None);
}

#[test]
fn brick_ptrs_lists_corners_in_grid_order() {
    let mut h = Hexadecitree::new();
    h.set(BlockPos::new(0, 0, 0, 0), Foxel::White).unwrap();
    let list = h.brick_ptrs();
    assert_eq!(list.len(), 1048576);
    assert_eq!(list[0].0, BlockPos::new(-128, -128, -128, -128));
    assert_eq!(list[1].0, BlockPos::new(-128, -128, -128, -120));
    assert_eq!(list[32].0, BlockPos::new(-128, -128, -120, -128));
    assert_eq!(list[1048575].0, BlockPos::new(120, 120, 120, 120));
    let origin_slot = ((16 * 32 + 16) * 32 + 16) * 32 + 16;
    assert_eq!(list[origin_slot].0, BlockPos::new(0, 0, 0, 0));
    assert_eq!(list[origin_slot].1, BrickPtrRepr(0x8000));
    assert_eq!(list[0].1, BrickPtrRepr(0));
    for (slot, (corner, _)) in list.iter().enumerate().step_by(4099) {
        assert_eq!(decompose_pos(*corner), Some((slot, 0)));
    }
}

#[test]
fn brick_repr_to_ref_resolves_pointers() {
    let mut h = Hexadecitree::new();
    let pos = BlockPos::new(2, 0, 0, 0);
    h.set(pos, Foxel::RB).unwrap();
    match h.brick_repr_to_ref(BrickPtrRepr(3)) {
        Some(BrickRef::Solid(f)) => assert_eq!(f, Foxel::Blue),
        _ => panic!("a solid code leads to its fill"),
    }
    match h.brick_repr_to_ref(BrickPtr::Pointer(0).encode()) {
        Some(BrickRef::Ref(brick)) => {
            let (_, place) = decompose_pos(pos).unwrap();
            assert_eq!(brick.0[place].decode(), Foxel::RB);
            assert_eq!(brick.0[0].decode(), Foxel::Air);
        }
        _ => panic!("a pointer to a stored brick leads to it"),
    }
    // A pointer at or beyond the number of stored bricks leads nowhere.
    assert!(h.brick_repr_to_ref(BrickPtr::Pointer(1).encode()).is_none());
    assert!(h.brick_repr_to_ref(BrickPtrRepr(0xffff)).is_none());
}
