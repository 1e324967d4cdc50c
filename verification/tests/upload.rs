use tesseractory::math::hexadecitree::{decompose_pos, Hexadecitree};
use tesseractory::math::BlockPos;
use tesseractory::world::Foxel;

const PTR_BYTES: usize = 2 * 1048576;
const BRICK_BYTES: usize = 4096;

/// The two bytes of a code as this machine lays them down.
fn code_bytes(code: u16) -> [u8; 2] {
    code.to_ne_bytes()
}

fn ptr_at(bytes: &[u8], slot: usize) -> [u8; 2] {
    [bytes[2 * slot], bytes[2 * slot + 1]]
}

#[test]
fn upload_constants() {
    assert_eq!(Hexadecitree::GPU_BRICK_PTRS_COUNT, Hexadecitree::TOTAL_BRICK_COUNT);
    assert_eq!(Hexadecitree::GPU_BRICK_PTRS_BYTES, PTR_BYTES);
    assert_eq!(Hexadecitree::GPU_COMPOSITE_BRICKS_BYTES, 16 * BRICK_BYTES);
    assert_eq!(
        Hexadecitree::GPU_TOTAL_BYTES,
        Hexadecitree::GPU_BRICK_PTRS_BYTES + Hexadecitree::GPU_COMPOSITE_BRICKS_BYTES
    );
    assert_eq!(Hexadecitree::GPU_TRANSFER_IMAGE_SIZE, 1024);
    assert_eq!(
        Hexadecitree::GPU_TRANSFER_IMAGE_SIZE_SQ,
        Hexadecitree::GPU_TRANSFER_IMAGE_SIZE * Hexadecitree::GPU_TRANSFER_IMAGE_SIZE
    );
    assert!(Hexadecitree::GPU_TOTAL_BYTES <= Hexadecitree::GPU_TRANSFER_IMAGE_SIZE_SQ * 4);
    // No smaller power of two would do.
    assert!((Hexadecitree::GPU_TRANSFER_IMAGE_SIZE / 2).pow(2) * 4 < Hexadecitree::GPU_TOTAL_BYTES);
}

#[test]
fn empty_world_uploads_as_zeros() {
    let h = Hexadecitree::new();
    let mut bytes = vec![0xaau8; Hexadecitree::GPU_TRANSFER_IMAGE_SIZE_SQ * 4];
    h.upload(&mut bytes, &[]);
    assert!(bytes.iter().all(|b| *b == 0));
}

#[test]
fn visible_brick_is_shipped() {
    let mut h = Hexadecitree::new();
    let pos = BlockPos::new(1, 2, 3, 4);
    h.set(pos, Foxel::Red).unwrap();
    h.set(BlockPos::new(1, 2, 3, 5), Foxel::White).unwrap();
    let (slot, place) = decompose_pos(pos).unwrap();

    let mut bytes = vec![0x55u8; Hexadecitree::GPU_TOTAL_BYTES + 100];
    h.upload(&mut bytes, &[true]);

    assert_eq!(ptr_at(&bytes, slot), code_bytes(0x8000));
    assert_eq!(ptr_at(&bytes, slot - 1), [0, 0]);
    assert_eq!(ptr_at(&bytes, slot + 1), [0, 0]);
    assert_eq!(bytes[PTR_BYTES + place], 1);
    assert_eq!(bytes[PTR_BYTES + place + 1], 8);
    let set_bytes = bytes[PTR_BYTES..].iter().filter(|b| **b != 0).count();
    assert_eq!(set_bytes, 2);
    // Zeros to the very end of the buffer.
    assert!(bytes[PTR_BYTES + BRICK_BYTES..].iter().all(|b| *b == 0));
    // The store is as it was.
    assert_eq!(h.get(pos), Some(Foxel::Red));
    assert_eq!(h.composite_brick_count(), 1);
}

#[test]
fn hidden_brick_travels_as_air() {
    let mut h = Hexadecitree::new();
    let pos = BlockPos::new(-5, 0, 0, 0);
    h.set(pos, Foxel::Green).unwrap();
    let (slot, _) = decompose_pos(pos).unwrap();

    let mut bytes = vec![0xffu8; Hexadecitree::GPU_TOTAL_BYTES];
    h.upload(&mut bytes, &[false]);
    assert_eq!(ptr_at(&bytes, slot), [0, 0]);
    assert!(bytes.iter().all(|b| *b == 0));

    // A brick that the verdicts do not reach is not in sight either.
    let mut bytes = vec![0xffu8; Hexadecitree::GPU_TOTAL_BYTES];
    h.upload(&mut bytes, &[]);
    assert!(bytes.iter().all(|b| *b == 0));
    assert_eq!(h.get(pos), Some(Foxel::Green));
}

#[test]
fn solid_bricks_travel_as_they_are() {
    let mut h = Hexadecitree::new();
    h.set(BlockPos::new(0, 0, 0, 0), Foxel::Blue).unwrap();
    let mut bytes = vec![0u8; Hexadecitree::GPU_TOTAL_BYTES];
    h.upload(&mut bytes, &[true]);
    // Every other slot is solid air.
    let origin_slot = decompose_pos(BlockPos::new(0, 0, 0, 0)).unwrap().0;
    for slot in (0..1048576).step_by(977) {
        if slot != origin_slot {
            assert_eq!(ptr_at(&bytes, slot), [0, 0]);
        }
    }
}

#[test]
fn shipped_bricks_are_numbered_in_grid_order() {
    let mut h = Hexadecitree::new();
    // Made in this order, so the brick at w = 16 is composite brick 0 and
    // the one at w = 0 is composite brick 2.
    let a = BlockPos::new(0, 0, 0, 16);
    let b = BlockPos::new(0, 0, 0, 8);
    let c = BlockPos::new(0, 0, 0, 0);
    h.set(a, Foxel::Red).unwrap();
    h.set(b, Foxel::Green).unwrap();
    h.set(c, Foxel::Blue).unwrap();
    let slot_a = decompose_pos(a).unwrap().0;
    let slot_b = decompose_pos(b).unwrap().0;
    let slot_c = decompose_pos(c).unwrap().0;
    assert!(slot_c < slot_b && slot_b < slot_a);

    let mut bytes = vec![0u8; Hexadecitree::GPU_TOTAL_BYTES];
    h.upload(&mut bytes, &[true, false, true]);
    // In grid order c comes first, b is hidden, a comes second.
    assert_eq!(ptr_at(&bytes, slot_c), code_bytes(0x8000));
    assert_eq!(ptr_at(&bytes, slot_b), [0, 0]);
    assert_eq!(ptr_at(&bytes, slot_a), code_bytes(0x8001));
    assert_eq!(bytes[PTR_BYTES], 3);
    assert_eq!(bytes[PTR_BYTES + BRICK_BYTES], 1);
    assert!(bytes[PTR_BYTES + 2 * BRICK_BYTES..].iter().all(|x| *x == 0));
}

#[test]
fn only_sixteen_bricks_are_shipped() {
    let mut h = Hexadecitree::new();
    let mut slots = Vec::new();
    for i in 0..20 {
        let pos = BlockPos::new(0, 0, 0, -80 + 8 * i);
        h.set(pos, Foxel::Black).unwrap();
        slots.push(decompose_pos(pos).unwrap().0);
    }
    let mut bytes = vec![0u8; Hexadecitree::GPU_TRANSFER_IMAGE_SIZE_SQ * 4];
    h.upload(&mut bytes, &[true; 20]);
    for (i, slot) in slots.iter().enumerate() {
        if i < 16 {
            assert_eq!(ptr_at(&bytes, *slot), code_bytes(0x8000 | i as u16));
            assert_eq!(bytes[PTR_BYTES + i * BRICK_BYTES], 7);
        } else {
            assert_eq!(ptr_at(&bytes, *slot), [0, 0]);
        }
    }
    assert!(bytes[Hexadecitree::GPU_TOTAL_BYTES..].iter().all(|x| *x == 0));
    assert_eq!(h.composite_brick_count(), 20);
}

#[test]
fn upload_is_repeatable() {
    let mut h = Hexadecitree::new();
    h.set(BlockPos::new(9, 9, 9, 9), Foxel::GB).unwrap();
    h.set(BlockPos::new(-9, -9, -9, -9), Foxel::RG).unwrap();
    let mut first = vec![1u8; Hexadecitree::GPU_TOTAL_BYTES];
    let mut second = vec![2u8; Hexadecitree::GPU_TOTAL_BYTES];
    h.upload(&mut first, &[true, true]);
    h.upload(&mut second, &[true, true]);
    assert!(first == second);
}
