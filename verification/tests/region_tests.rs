use netherlink::{Axis, BlockPos, BlockRegion};

fn region(min: (i64, i64, i64), max: (i64, i64, i64)) -> BlockRegion {
    BlockRegion {
        min: BlockPos { x: min.0, y: min.1, z: min.2 },
        max: BlockPos { x: max.0, y: max.1, z: max.2 },
    }
}

#[test]
fn test_split_excluding_corners() {
    let min = BlockPos { x: 1, y: 2, z: 3 };
    let max = BlockPos { x: 10, y: 20, z: 30 };
    let mut block = BlockRegion { min, max };
    let replace_z = |z1, z2| BlockRegion {
        min: BlockPos { z: z1, ..min },
        max: BlockPos { z: z2, ..max },
    };

    assert_eq!(
        block.split_excluding_corners(Axis::Z),
        [Some(replace_z(4, 16)), Some(replace_z(17, 29))],
    );

    block.min.z = 4;
    assert_eq!(
        block.split_excluding_corners(Axis::Z),
        [Some(replace_z(5, 17)), Some(replace_z(18, 29))],
    );

    block.max.z = 29;
    assert_eq!(
        block.split_excluding_corners(Axis::Z),
        [Some(replace_z(5, 16)), Some(replace_z(17, 28))],
    );

    block.min.z = 5;
    assert_eq!(
        block.split_excluding_corners(Axis::Z),
        [Some(replace_z(6, 17)), Some(replace_z(18, 28))],
    );

    block.max.z = 10;
    assert_eq!(
        block.split_excluding_corners(Axis::Z),
        [Some(replace_z(6, 7)), Some(replace_z(8, 9))],
    );

    block.max.z = 9;
    assert_eq!(
        block.split_excluding_corners(Axis::Z),
        [Some(replace_z(6, 7)), Some(replace_z(8, 8))],
    );

    block.max.z = 8;
    assert_eq!(
        block.split_excluding_corners(Axis::Z),
        [Some(replace_z(6, 6)), Some(replace_z(7, 7))],
    );

    block.max.z = 7;
    assert_eq!(
        block.split_excluding_corners(Axis::Z),
        [Some(replace_z(6, 6)), None],
    );

    block.max.z = 6;
    assert_eq!(block.split_excluding_corners(Axis::Z), [None, None],);
}

#[test]
fn test_split_at() {
    let r = region((0, 0, 0), (10, 10, 10));
    let [lo, hi] = r.split_at(Axis::X, 4);
    assert_eq!(lo, Some(region((0, 0, 0), (4, 10, 10))));
    assert_eq!(hi, Some(region((5, 0, 0), (10, 10, 10))));

    let [lo, hi] = r.split_at(Axis::X, 10);
    assert_eq!(lo, Some(r));
    assert_eq!(hi, None);

    let [lo, hi] = r.split_at(Axis::Y, -1);
    assert_eq!(lo, None);
    assert_eq!(hi, Some(r));
}

#[test]
fn test_corners() {
    let r = region((1, 2, 3), (4, 5, 6));
    let corners = r.corners();
    assert_eq!(corners[0], BlockPos { x: 1, y: 2, z: 3 });
    assert_eq!(corners[1], BlockPos { x: 4, y: 2, z: 3 });
    assert_eq!(corners[2], BlockPos { x: 1, y: 5, z: 3 });
    assert_eq!(corners[3], BlockPos { x: 4, y: 5, z: 3 });
    assert_eq!(corners[4], BlockPos { x: 1, y: 2, z: 6 });
    assert_eq!(corners[5], BlockPos { x: 4, y: 2, z: 6 });
    assert_eq!(corners[6], BlockPos { x: 1, y: 5, z: 6 });
    assert_eq!(corners[7], BlockPos { x: 4, y: 5, z: 6 });
}

#[test]
fn test_distances() {
    let a = region((0, 0, 0), (1, 1, 1));
    let b = region((4, 0, 0), (5, 1, 1));
    // Closest points are 3 apart along X only.
    assert_eq!(a.min_euclidean_distance_sq_to(b), 9);
    // The farthest point of `a` (x = 0) is 4 from the closest point of
    // `b` (x = 4).
    assert_eq!(a.max_euclidean_distance_sq_to(b), 16);
    let p = BlockPos { x: 7, y: 3, z: 1 };
    // Gaps from (7,3,1) to `b` are (2,2,0).
    assert_eq!(b.min_euclidean_distance_sq_to_point(p), 8);
    // A point inside scores zero.
    assert_eq!(a.min_euclidean_distance_sq_to_point(BlockPos { x: 1, y: 0, z: 1 }), 0);
}

#[test]
fn test_adjust_min_max() {
    let mut r = region((5, 5, 5), (2, 9, 1));
    r.adjust_max();
    assert_eq!(r, region((5, 5, 5), (5, 9, 5)));
    let mut r2 = region((5, 5, 5), (2, 9, 1));
    r2.adjust_min();
    assert_eq!(r2, region((2, 5, 1), (2, 9, 1)));
}

#[test]
fn test_euclidean_distance_sq() {
    let a = BlockPos { x: 1, y: 2, z: 3 };
    let b = BlockPos { x: 4, y: 6, z: 3 };
    assert_eq!(a.euclidean_distance_sq(&b), 25);
    assert_eq!(b.euclidean_distance_sq(&a), 25);
    assert_eq!(a.euclidean_distance_sq(&a), 0);
}
