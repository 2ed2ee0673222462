use netherlink::{
    Axis, BlockPos, BlockRegion, Dimension, Entity, Portal, PortalAxis, PortalId, WorldPos,
    WorldRegion,
};
use netherlink::pos::UNITS_PER_BLOCK;

fn region(min: (i64, i64, i64), max: (i64, i64, i64)) -> BlockRegion {
    BlockRegion {
        min: BlockPos { x: min.0, y: min.1, z: min.2 },
        max: BlockPos { x: max.0, y: max.1, z: max.2 },
    }
}

fn assert_wf(p: &Portal, dimension: Dimension) {
    let w = p.width_axis();
    let (width, height) = match w {
        Axis::X => (
            p.region.max.x - p.region.min.x + 1,
            p.region.max.y - p.region.min.y + 1,
        ),
        Axis::Z => (
            p.region.max.z - p.region.min.z + 1,
            p.region.max.y - p.region.min.y + 1,
        ),
        Axis::Y => unreachable!(),
    };
    assert!(width >= 2, "portal width {} below minimum", width);
    assert!(height >= 3, "portal height {} below minimum", height);
    assert!(p.region.min.y >= dimension.y_min() + 1);
    assert!(p.region.max.y <= dimension.y_max() - 1);
}

#[test]
fn test_new_minimal() {
    let p = Portal::new_minimal(
        PortalId::new(7),
        BlockPos { x: 10, y: 64, z: -3 },
        PortalAxis::X,
        Dimension::Overworld,
    );
    // Axis X: entered from east/west, so the width runs along Z.
    assert_eq!(p.width_axis(), Axis::Z);
    assert_eq!(p.depth_axis(), Axis::X);
    assert_eq!(p.region, region((10, 64, -3), (10, 66, -2)));
    assert_wf(&p, Dimension::Overworld);

    // Placed at the build limit, the frame is pushed down to fit.
    let high = Portal::new_minimal(
        PortalId::new(8),
        BlockPos { x: 0, y: 400, z: 0 },
        PortalAxis::Z,
        Dimension::Overworld,
    );
    assert_eq!(high.region.max.y, 318);
    assert_wf(&high, Dimension::Overworld);
}

#[test]
fn test_adjusters_preserve_validity() {
    let dim = Dimension::Nether;
    let mut p = Portal::new_minimal(
        PortalId::new(1),
        BlockPos { x: 5, y: 100, z: 5 },
        PortalAxis::Z,
        dim,
    );
    assert_wf(&p, dim);
    p.adjust_width(10);
    assert_wf(&p, dim);
    assert_eq!(p.region.max.x - p.region.min.x + 1, 10);
    p.adjust_height(21, dim);
    assert_wf(&p, dim);
    assert_eq!(p.region.max.y - p.region.min.y + 1, 21);
    // Asking for less than the minimum clamps to the minimum.
    p.adjust_width(-5);
    assert_wf(&p, dim);
    assert_eq!(p.region.max.x - p.region.min.x + 1, 2);
    p.adjust_height(0, dim);
    assert_wf(&p, dim);
    assert_eq!(p.region.max.y - p.region.min.y + 1, 3);
    // A height far beyond the dimension shifts the frame down.
    p.adjust_height(1000, dim);
    assert_wf(&p, dim);
    assert_eq!(p.region.max.y, dim.y_max() - 1);
    // Moving the corners keeps the frame legal, locked or not.
    p.adjust_min(BlockPos { x: -8, y: -50, z: 2 }, false, dim);
    assert_wf(&p, dim);
    p.adjust_max(BlockPos { x: 40, y: 500, z: 9 }, false, dim);
    assert_wf(&p, dim);
    p.adjust_min(BlockPos { x: 0, y: 120, z: 0 }, true, dim);
    assert_wf(&p, dim);
    p.adjust_max(BlockPos { x: 3, y: 140, z: 3 }, true, dim);
    assert_wf(&p, dim);
    // Turning the portal keeps the numeric width and flattens the new
    // depth axis.
    let width_before = p.region.max.x - p.region.min.x;
    p.adjust_axis(PortalAxis::X);
    assert_wf(&p, dim);
    assert_eq!(p.region.max.z - p.region.min.z, width_before);
    assert_eq!(p.region.max.x, p.region.min.x);
}

#[test]
fn test_adjust_min_lock_size_moves_whole_frame() {
    let dim = Dimension::Overworld;
    let mut p = Portal::new_minimal(
        PortalId::new(2),
        BlockPos { x: 0, y: 70, z: 0 },
        PortalAxis::X,
        dim,
    );
    let dx = p.region.max.x - p.region.min.x;
    let dy = p.region.max.y - p.region.min.y;
    let dz = p.region.max.z - p.region.min.z;
    p.adjust_min(BlockPos { x: 100, y: 90, z: -40 }, true, dim);
    assert_eq!(p.region.min, BlockPos { x: 100, y: 90, z: -40 });
    assert_eq!(p.region.max.x - p.region.min.x, dx);
    assert_eq!(p.region.max.y - p.region.min.y, dy);
    assert_eq!(p.region.max.z - p.region.min.z, dz);
    assert_wf(&p, dim);
}

#[test]
fn test_entity_fit_boundary() {
    // A minimal portal's opening is 2 blocks wide.
    let p = Portal::new_minimal(
        PortalId::new(3),
        BlockPos { x: 0, y: 64, z: 0 },
        PortalAxis::X,
        Dimension::Overworld,
    );
    let opening = 2 * UNITS_PER_BLOCK;
    // Wider than the opening: no teleport geometry at all.
    let too_wide = Entity { half_width: opening / 2 + 1, height: 72, is_projectile: false };
    assert_eq!(p.entity_collision_region(too_wide), None);
    // Just narrower: a valid collision volume.
    let fits = Entity { half_width: opening / 2 - 1, height: 72, is_projectile: false };
    let r = p.entity_collision_region(fits).unwrap();
    assert!(r.min.x <= r.max.x && r.min.y <= r.max.y && r.min.z <= r.max.z);
    // A projectile of the same width also fits, entering from below.
    let pearl = Entity { half_width: opening / 2 - 1, height: 10, is_projectile: true };
    assert!(p.entity_collision_region(pearl).is_some());
}

#[test]
fn test_entity_too_tall() {
    let p = Portal::new_minimal(
        PortalId::new(4),
        BlockPos { x: 0, y: 64, z: 0 },
        PortalAxis::X,
        Dimension::Overworld,
    );
    // The opening is 3 blocks tall; a standing entity taller than that
    // cannot fit.
    let too_tall = Entity { half_width: 10, height: 3 * UNITS_PER_BLOCK + 1, is_projectile: false };
    assert_eq!(p.entity_collision_region(too_tall), None);
}

#[test]
fn test_destination_region_scaling() {
    // Nether portal at (0,64,0)-(0,66,1), player entity, destination in
    // the overworld: the expected volume is worked out by hand from the
    // 1:8 scale.
    let p = Portal::new_test(PortalId::new(5), region((0, 64, 0), (0, 66, 1)));
    let dest = p
        .destination_region(Entity::player(), Dimension::Overworld)
        .unwrap();
    assert_eq!(dest, region((-3, 64, 2), (10, 65, 13)));

    // The same portal standing in the overworld maps to an eighth of
    // the coordinates in the nether.
    let dest_nether = p
        .destination_region(Entity::player(), Dimension::Nether)
        .unwrap();
    assert_eq!(dest_nether, region((-1, 64, 0), (0, 65, 0)));
}

#[test]
fn test_in_range_of_point() {
    let p = Portal::new_test(PortalId::new(6), region((0, 64, 0), (0, 66, 1)));
    let dim = Dimension::Overworld;
    assert!(p.is_in_range_of_point(BlockPos { x: 128, y: 0, z: 0 }, dim));
    assert!(!p.is_in_range_of_point(BlockPos { x: 129, y: 0, z: 0 }, dim));
    // The Y axis is ignored entirely.
    assert!(p.is_in_range_of_point(BlockPos { x: 0, y: -60, z: -128 }, dim));
    assert!(!p.is_in_range_of_point(BlockPos { x: 0, y: 64, z: -129 }, dim));
    // The nether searches a much smaller box.
    assert!(p.is_in_range_of_point(BlockPos { x: 16, y: 64, z: 0 }, Dimension::Nether));
    assert!(!p.is_in_range_of_point(BlockPos { x: 17, y: 64, z: 0 }, Dimension::Nether));
}

#[test]
fn test_in_range_of_region() {
    let p = Portal::new_test(PortalId::new(7), region((0, 64, 0), (0, 66, 1)));
    let dim = Dimension::Nether;
    let near = region((10, 64, 0), (30, 66, 0));
    let far = region((17, 64, 30), (30, 66, 40));
    assert!(p.is_in_range_of_region(near, dim));
    assert!(!p.is_in_range_of_region(far, dim));
    assert!(!p.is_always_in_range_of_region(near, dim));
    let inside = region((0, 64, 0), (10, 66, 10));
    assert!(p.is_always_in_range_of_region(inside, dim));
}

#[test]
fn test_world_pos_conversion() {
    // One block east in the nether is eight blocks east in the
    // overworld; the vertical axis never scales.
    let p = WorldPos { x: UNITS_PER_BLOCK, y: 64 * UNITS_PER_BLOCK, z: -3 * UNITS_PER_BLOCK };
    let o = p.nether_to_overworld();
    assert_eq!(o.x, 8 * UNITS_PER_BLOCK);
    assert_eq!(o.y, 64 * UNITS_PER_BLOCK);
    assert_eq!(o.z, -24 * UNITS_PER_BLOCK);
    // Going back lands on the same grid point here.
    let back = o.overworld_to_nether();
    assert_eq!(back, p);
    // The nether-bound division rounds down to the grid.
    let q = WorldPos { x: 9, y: 0, z: -9 };
    let n = q.overworld_to_nether();
    assert_eq!(n.x, 1);
    assert_eq!(n.z, -2);
    // Same-dimension conversion is the identity.
    assert_eq!(p.convert_dimension(Dimension::Nether, Dimension::Nether), p);
}

#[test]
fn test_validity_checkers() {
    let good = region((0, 0, 0), (1, 1, 1));
    assert!(good.is_valid() && good.is_in_bounds());
    let swapped = region((2, 0, 0), (1, 1, 1));
    assert!(!swapped.is_valid());
    let huge = region((0, 0, 0), (100_000_000, 1, 1));
    assert!(huge.is_valid() && !huge.is_in_bounds());
    assert!(Entity::player().is_valid());
    let bad = Entity { half_width: -1, height: 10, is_projectile: false };
    assert!(!bad.is_valid());
}

#[test]
fn test_world_region_round_trip() {
    let r = region((0, 64, 0), (0, 66, 1));
    let w = WorldRegion::from_block_region(r);
    assert_eq!(w.min.x, 0);
    assert_eq!(w.max.x, UNITS_PER_BLOCK);
    assert_eq!(w.max.z, 2 * UNITS_PER_BLOCK);
    assert!(w.is_valid());
    let back = w.block_region_containing();
    assert_eq!(back.min, BlockPos { x: 0, y: 64, z: 0 });
    assert_eq!(back.max, BlockPos { x: 1, y: 67, z: 2 });
}

#[test]
fn test_display_name() {
    let p = Portal::new_test(PortalId::new(8), region((0, 64, 0), (0, 66, 1)));
    assert_eq!(p.display_name(), "<unnamed>");
    let mut named = p;
    named.name = String::from("base");
    assert_eq!(named.display_name(), "base");
}

#[test]
fn test_dimension_constants() {
    assert_eq!(Dimension::Overworld.y_min(), -64);
    assert_eq!(Dimension::Overworld.y_max(), 319);
    assert_eq!(Dimension::Nether.y_min(), 0);
    assert_eq!(Dimension::Nether.y_max(), 255);
    assert_eq!(Dimension::Overworld.portal_search_range(), 128);
    assert_eq!(Dimension::Nether.portal_search_range(), 16);
    assert_eq!(Dimension::Overworld.scale(), 1);
    assert_eq!(Dimension::Nether.scale(), 8);
    assert_eq!(Dimension::Overworld.other(), Dimension::Nether);
    assert_eq!(Dimension::Nether.other(), Dimension::Overworld);
    assert_eq!(Dimension::Nether.y_range(), 0..=255);
}

#[test]
fn test_portal_axis() {
    assert_eq!(PortalAxis::X.other(), PortalAxis::Z);
    assert_eq!(PortalAxis::Z.other(), PortalAxis::X);
}

#[test]
fn test_id_source() {
    let mut source = netherlink::PortalIdSource::new();
    let a = source.fresh();
    let b = source.fresh();
    assert_ne!(a, b);
    assert_eq!(a.value(), 1);
    assert_eq!(b.value(), 2);
    assert_eq!(PortalId::new(1), a);
}
