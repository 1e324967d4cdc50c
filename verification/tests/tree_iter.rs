use tesseractory::algos::{RayOrigin, UNITS_PER_CELL};
use tesseractory::math::hexadecitree::iter::{IterItem, TreeIter};
use tesseractory::math::hexadecitree::Hexadecitree;
use tesseractory::math::{basis4, BlockPos};
use tesseractory::world::{Foxel, World};

/// A point given in cells as the cell that holds it and the offset into it.
fn origin(point: [f32; 4]) -> RayOrigin {
    let mut cell = [0i32; 4];
    let mut offset = [0u16; 4];
    for axis in 0..4 {
        let floor = point[axis].floor();
        cell[axis] = floor as i32;
        let units = ((point[axis] - floor) * UNITS_PER_CELL as f32).round() as u32;
        offset[axis] = units.min(UNITS_PER_CELL - 1) as u16;
    }
    RayOrigin { cell, offset }
}

/// A direction given in real numbers, normalized and then scaled to whole
/// numbers.
fn heading(dir: [f32; 4]) -> [i32; 4] {
    let len = dir.iter().map(|v| v * v).sum::<f32>().sqrt();
    let mut out = [0i32; 4];
    for axis in 0..4 {
        out[axis] = (dir[axis] / len * 1048576.0).round() as i32;
    }
    out
}

/// A world in which every cell of the box from `low` to `high`, both
/// included, is red, so that a ray through the box hits every cell it enters.
fn solid_box(low: [i32; 4], high: [i32; 4]) -> Hexadecitree {
    let mut tree = Hexadecitree::new();
    for x in low[0]..=high[0] {
        for y in low[1]..=high[1] {
            for z in low[2]..=high[2] {
                for w in low[3]..=high[3] {
                    tree.set(BlockPos::new(x, y, z, w), Foxel::Red).unwrap();
                }
            }
        }
    }
    tree
}

fn take(mut iter: TreeIter, len: usize) -> Vec<IterItem> {
    let mut line = Vec::new();
    for _ in 0..len {
        line.push(iter.next().unwrap());
    }
    line
}

/// Make sure that just going along a given axis works
#[test]
fn tree_iter_orthagonal() {
    let len = 100;
    for offset in [0.0, 0.5] {
        for axis in 0usize..=3 {
            let mut high = [1i32; 4];
            high[axis] = 101;
            let tree = solid_box([-1; 4], high);
            let start = origin([offset; 4]);

            let line = take(TreeIter::new(&tree, start, basis4(axis)), len);

            let hopeful_line: Vec<IterItem> = (0..len)
                .map(|n| {
                    let mut v = [0i32; 4];
                    v[axis] = n as i32 + 1;
                    let mut normal = [0i32; 4];
                    normal[axis] = -1;
                    IterItem { foxel: Foxel::Red, pos: BlockPos::from_array(v), normal }
                })
                .collect();
            if line != hopeful_line {
                panic!(
                    "failed on axis {} : \ngot: {:?}\nexpected: {:?}\n",
                    axis, line, hopeful_line
                )
            }
        }
    }
}

/// Make sure each foxel pos is next to the previous
#[test]
fn tree_iter_pbt_no_jumps() {
    let len = 100;

    let tree = solid_box([-1, -2, -40, -2], [16, 28, 1, 50]);
    let start = origin([0.7, -0.6, 0.0, -0.4]);
    // make sure no corners are passed
    let dir = heading([1.1, 2.01, -3.02, 4.03]);
    let line: Vec<BlockPos> =
        take(TreeIter::new(&tree, start, dir), len).into_iter().map(|it| it.pos).collect();

    for window in line.windows(2) {
        let (a, b) = (window[0].as_array(), window[1].as_array());
        let mag_sq: i32 = (0..4).map(|i| (a[i] - b[i]) * (a[i] - b[i])).sum();
        if mag_sq != 1 {
            panic!("{:?} - {:?} = not len 1", a, b);
        }
    }
}

#[test]
fn tree_iter_respect_subfoxel() {
    let tree = solid_box([-1, -1, -1, -1], [2, 2, 1, 1]);
    let dir = heading([1.0, 1.0, 0.0, 0.0]);

    let under_corner = TreeIter::new(&tree, origin([0.1, 0.0, 0.0, 0.0]), dir).next().unwrap();
    let over_corner = TreeIter::new(&tree, origin([0.0, 0.1, 0.0, 0.0]), dir).next().unwrap();

    assert_eq!(
        [under_corner.pos, over_corner.pos],
        [BlockPos::new(1, 0, 0, 0), BlockPos::new(0, 1, 0, 0)]
    );
}

#[test]
fn tree_iter_negative_headings() {
    let tree = solid_box([-9, -5, -1, -1], [1, 1, 1, 1]);
    let line: Vec<BlockPos> = take(
        TreeIter::new(&tree, origin([0.0; 4]), heading([-1.0, -0.49, 0.0, 0.0])),
        10,
    )
    .into_iter()
    .map(|hit| hit.pos)
    .collect();
    assert_eq!(
        line,
        vec![
            BlockPos::new(-2, -1, 0, 0),
            BlockPos::new(-3, -1, 0, 0),
            BlockPos::new(-3, -2, 0, 0),
            BlockPos::new(-4, -2, 0, 0),
            BlockPos::new(-5, -2, 0, 0),
            BlockPos::new(-5, -3, 0, 0),
            BlockPos::new(-6, -3, 0, 0),
            BlockPos::new(-7, -3, 0, 0),
            BlockPos::new(-7, -4, 0, 0),
            BlockPos::new(-8, -4, 0, 0),
        ]
    )
}

#[test]
fn losing_my_mind_over_here() {
    let tree = solid_box([-2, -1, -1, -1], [1, 11, 1, 1]);
    let origin = origin([0.0; 4]);
    let over_heading = heading([0.001, 1.0, 0.0, 0.0]);
    let under_heading = heading([-0.001, 1.0, 0.0, 0.0]);

    let over_line: Vec<BlockPos> =
        take(TreeIter::new(&tree, origin, over_heading), 10).into_iter().map(|it| it.pos).collect();
    let under_line: Vec<BlockPos> =
        take(TreeIter::new(&tree, origin, under_heading), 10).into_iter().map(|it| it.pos).collect();

    let hope_over: Vec<BlockPos> = (1..=10).map(|y| BlockPos::new(0, y, 0, 0)).collect();
    let hope_under: Vec<BlockPos> = (1..=10).map(|y| BlockPos::new(-1, y, 0, 0)).collect();

    assert_eq!(over_line, hope_over);
    assert_eq!(under_line, hope_under);
}

#[test]
fn air_is_passed_over() {
    let mut tree = Hexadecitree::new();
    tree.set(BlockPos::new(5, 0, 0, 0), Foxel::Green).unwrap();
    tree.set(BlockPos::new(40, 0, 0, 0), Foxel::Blue).unwrap();
    tree.set(BlockPos::new(6, 1, 0, 0), Foxel::Red).unwrap();
    let start = RayOrigin { cell: [0; 4], offset: [100, 100, 100, 100] };
    let mut iter = TreeIter::new(&tree, start, [3, 0, 0, 0]);
    assert_eq!(
        iter.next(),
        Some(IterItem { foxel: Foxel::Green, pos: BlockPos::new(5, 0, 0, 0), normal: [-1, 0, 0, 0] })
    );
    assert_eq!(
        iter.next(),
        Some(IterItem { foxel: Foxel::Blue, pos: BlockPos::new(40, 0, 0, 0), normal: [-1, 0, 0, 0] })
    );
    // Nothing else lies on the ray, which leaves the world after cell 127.
    assert_eq!(iter.next(), None);
    assert_eq!(iter.next(), None);
}

#[test]
fn the_starting_cell_is_not_hit() {
    let mut tree = Hexadecitree::new();
    tree.set(BlockPos::new(0, 0, 0, 0), Foxel::White).unwrap();
    tree.set(BlockPos::new(0, -3, 0, 0), Foxel::Black).unwrap();
    let start = RayOrigin { cell: [0; 4], offset: [7, 7, 7, 7] };
    let mut iter = TreeIter::new(&tree, start, [0, -1, 0, 0]);
    assert_eq!(
        iter.next(),
        Some(IterItem { foxel: Foxel::Black, pos: BlockPos::new(0, -3, 0, 0), normal: [0, 1, 0, 0] })
    );
    assert_eq!(iter.next(), None);
}

#[test]
fn a_ray_from_outside_comes_in() {
    let mut tree = Hexadecitree::new();
    tree.set(BlockPos::new(-128, 3, 3, 3), Foxel::RG).unwrap();
    let start = RayOrigin { cell: [-500, 3, 3, 3], offset: [0; 4] };
    let mut iter = TreeIter::new(&tree, start, [1, 0, 0, 0]);
    assert_eq!(iter.next().map(|it| (it.foxel, it.pos)), Some((Foxel::RG, BlockPos::new(-128, 3, 3, 3))));
    assert_eq!(iter.next(), None);
    // Heading away from the world there is nothing to come to.
    let mut away = TreeIter::new(&tree, start, [-1, 0, 0, 0]);
    assert_eq!(away.next(), None);
}

#[test]
fn a_still_ray_hits_nothing() {
    let mut tree = Hexadecitree::new();
    tree.set(BlockPos::new(0, 0, 0, 0), Foxel::White).unwrap();
    let start = RayOrigin { cell: [0; 4], offset: [0; 4] };
    let mut iter = TreeIter::new(&tree, start, [0; 4]);
    assert_eq!(iter.next(), None);
}

#[test]
fn sample_scene() {
    let mut world = World::new();
    world.foxels.set(BlockPos::new(20, 20, 20, 20), Foxel::Black).unwrap();
    world.setup_sample_scene();
    let f = &world.foxels;
    assert_eq!(f.get(BlockPos::new(0, 0, 0, 0)), Some(Foxel::White));
    for v in 1..10 {
        assert_eq!(f.get(BlockPos::new(v, 0, 0, 0)), Some(Foxel::Red));
        assert_eq!(f.get(BlockPos::new(0, v, 0, 0)), Some(Foxel::Green));
        assert_eq!(f.get(BlockPos::new(0, 0, v, 0)), Some(Foxel::Blue));
        assert_eq!(f.get(BlockPos::new(0, 0, 0, v)), Some(Foxel::RB));
    }
    assert_eq!(f.get(BlockPos::new(10, 0, 0, 0)), Some(Foxel::Air));
    assert_eq!(f.get(BlockPos::new(-1, 0, 0, 0)), Some(Foxel::Air));
    assert_eq!(f.get(BlockPos::new(1, 1, 0, 0)), Some(Foxel::Air));
    assert_eq!(f.get(BlockPos::new(20, 20, 20, 20)), Some(Foxel::Black));
    // The origin's brick, one more along each arm, and the one from before.
    assert_eq!(f.composite_brick_count(), 6);

    // From above the scene, looking down the x axis, the ray hits the tip
    // of the red arm first.
    let start = RayOrigin { cell: [30, 0, 0, 0], offset: [0, 1, 1, 1] };
    let mut iter = TreeIter::new(f, start, [-1, 0, 0, 0]);
    let first = iter.next().unwrap();
    assert_eq!((first.foxel, first.pos, first.normal), (Foxel::Red, BlockPos::new(9, 0, 0, 0), [1, 0, 0, 0]));
}

#[test]
fn sample_scene_needs_five_bricks_at_most() {
    let mut world = World::new();
    let cap = Hexadecitree::COMPOSITE_BRICK_COUNT as usize;
    // Use up all but five composite bricks, far from the scene.
    let mut made = 0usize;
    'fill: for bx in 0..16 {
        for by in 0..16 {
            for bz in 0..16 {
                if made == cap - 5 {
                    break 'fill;
                }
                let pos = BlockPos::new(bx * 8 - 128, by * 8 - 128, bz * 8 - 128, -128);
                world.foxels.set(pos, Foxel::Black).unwrap();
                made += 1;
            }
        }
    }
    assert_eq!(world.foxels.composite_brick_count(), cap - 5);
    world.setup_sample_scene();
    assert_eq!(world.foxels.composite_brick_count(), cap);
    assert_eq!(world.foxels.get(BlockPos::new(9, 0, 0, 0)), Some(Foxel::Red));
    assert_eq!(world.foxels.get(BlockPos::new(0, 0, 0, 9)), Some(Foxel::RB));
    assert_eq!(world.foxels.get(BlockPos::new(-128, -128, -128, -128)), Some(Foxel::Black));
}
