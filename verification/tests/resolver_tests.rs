use netherlink::{
    minima_by_opt_key, BlockPos, BlockRegion, Dimension, Entity, Portal, PortalId, World,
    WorldPortals,
};

fn region(min: (i64, i64, i64), max: (i64, i64, i64)) -> BlockRegion {
    BlockRegion {
        min: BlockPos { x: min.0, y: min.1, z: min.2 },
        max: BlockPos { x: max.0, y: max.1, z: max.2 },
    }
}

fn portal(id: u64, min: (i64, i64, i64), max: (i64, i64, i64)) -> Portal {
    Portal::new_test(PortalId::new(id), region(min, max))
}

#[test]
fn test_minima_by_opt_key_duplicates_and_order() {
    // Survivors come in input order, duplicates kept.
    let items = vec![7usize, 9, 7, 3];
    let keys = vec![Some(2), Some(5), Some(2), None];
    assert_eq!(minima_by_opt_key(&items, &keys), vec![7, 7]);
    // Nothing keyed: nothing selected.
    let none_keys: Vec<Option<i64>> = vec![None, None];
    let r: Vec<usize> = minima_by_opt_key(&vec![1usize, 2], &none_keys);
    assert!(r.is_empty());
}

#[test]
fn test_minima_by_opt_key() {
    let items = vec!["a", "b", "c", "d", "e", "f", "g", "h", "i"];
    let keys = vec![
        Some(4),
        Some(2),
        Some(1),
        None,
        None,
        Some(3),
        Some(4),
        Some(1),
        Some(6),
    ];
    assert_eq!(
        ["c", "h"].as_slice(),
        minima_by_opt_key(&items, &keys).as_slice(),
    );
}

#[test]
fn test_portal_splitting() {
    let big = portal(1, (8, 64, 5), (8, 66, 18)); // nether
    let a = portal(2, (88, 60, -15), (90, 62, -15)); // overworld
    let b = portal(3, (0, 64, 0), (0, 66, 1)); // overworld
    let destination_region = big
        .destination_region(Entity::player(), Dimension::Overworld)
        .unwrap();
    let world = World {
        portals: WorldPortals {
            overworld: vec![a, b],
            nether: vec![big],
        },
    };
    let expected = world
        .portals
        .portal_destinations_naive(Dimension::Overworld, destination_region);
    let actual = world
        .portals
        .portal_destinations(Dimension::Overworld, destination_region);
    assert_eq!(expected, actual);
}

#[test]
fn test_resolver_no_candidates() {
    let portals = WorldPortals {
        overworld: vec![],
        nether: vec![],
    };
    let r = portals.portal_destinations(Dimension::Overworld, region((0, 60, 0), (5, 62, 5)));
    assert!(r.existing_portals.is_empty());
    assert!(r.new_portal);
    let r = portals.portal_destinations_naive(Dimension::Nether, region((0, 60, 0), (0, 60, 0)));
    assert!(r.existing_portals.is_empty());
    assert!(r.new_portal);
}

#[test]
fn test_resolver_single_candidate() {
    // One overworld portal in range of every point of a small region
    // nearby: it is the only destination and no new portal can appear.
    let portals = WorldPortals {
        overworld: vec![portal(1, (0, 64, 0), (0, 66, 1))],
        nether: vec![],
    };
    let query = region((10, 64, 10), (20, 70, 20));
    let naive = portals.portal_destinations_naive(Dimension::Overworld, query);
    let fast = portals.portal_destinations(Dimension::Overworld, query);
    assert_eq!(naive.existing_portals, vec![0]);
    assert!(!naive.new_portal);
    assert_eq!(fast.existing_portals, vec![0]);
    assert!(!fast.new_portal);
}

#[test]
fn test_resolver_deterministic() {
    let portals = WorldPortals {
        overworld: vec![
            portal(1, (0, 64, 0), (0, 66, 1)),
            portal(2, (40, 64, 7), (42, 66, 7)),
            portal(3, (-90, 70, 55), (-90, 72, 56)),
        ],
        nether: vec![],
    };
    let query = region((-10, 60, -10), (30, 70, 30));
    let first = portals.portal_destinations(Dimension::Overworld, query);
    let second = portals.portal_destinations(Dimension::Overworld, query);
    assert_eq!(first, second);
    let n1 = portals.portal_destinations_naive(Dimension::Overworld, query);
    let n2 = portals.portal_destinations_naive(Dimension::Overworld, query);
    assert_eq!(n1, n2);
}

#[test]
fn test_resolver_prune_monotonic() {
    // The third portal is far outside the search range of every point
    // of the region: dropping it leaves the result unchanged.
    let near1 = portal(1, (0, 64, 0), (0, 66, 1));
    let near2 = portal(2, (30, 64, 5), (32, 66, 5));
    let far = portal(3, (1000, 64, 1000), (1000, 66, 1001));
    let query = region((-5, 60, -5), (25, 70, 25));
    let with_far = WorldPortals {
        overworld: vec![
            portal(1, (0, 64, 0), (0, 66, 1)),
            portal(2, (30, 64, 5), (32, 66, 5)),
            far,
        ],
        nether: vec![],
    };
    let without_far = WorldPortals {
        overworld: vec![near1, near2],
        nether: vec![],
    };
    let a = with_far.portal_destinations_naive(Dimension::Overworld, query);
    let b = without_far.portal_destinations_naive(Dimension::Overworld, query);
    assert_eq!(a, b);
    let c = with_far.portal_destinations(Dimension::Overworld, query);
    let d = without_far.portal_destinations(Dimension::Overworld, query);
    assert_eq!(c, d);
}

#[test]
fn test_resolver_agreement_small_cases() {
    // naive and subdivision resolvers agree on a spread of small
    // hand-made worlds.
    let cases: Vec<(Vec<Portal>, BlockRegion)> = vec![
        (vec![portal(1, (0, 64, 0), (0, 66, 1))], region((3, 64, 3), (9, 66, 9))),
        (
            vec![
                portal(1, (0, 64, 0), (0, 66, 1)),
                portal(2, (12, 64, 12), (14, 66, 12)),
            ],
            region((0, 64, 0), (14, 66, 14)),
        ),
        (
            vec![
                portal(1, (-20, 64, 0), (-20, 66, 1)),
                portal(2, (20, 64, 0), (20, 66, 1)),
                portal(3, (0, 100, 40), (2, 102, 40)),
            ],
            region((-8, 64, -8), (8, 70, 8)),
        ),
    ];
    for (candidates, query) in cases {
        let portals = WorldPortals {
            overworld: candidates,
            nether: vec![],
        };
        let naive = portals.portal_destinations_naive(Dimension::Overworld, query);
        let fast = portals.portal_destinations(Dimension::Overworld, query);
        assert_eq!(naive, fast);
    }
}

#[test]
fn test_entity_destinations_single_point() {
    let portals = WorldPortals {
        overworld: vec![
            portal(1, (0, 64, 0), (0, 66, 1)),
            portal(2, (10, 64, 0), (12, 66, 0)),
        ],
        nether: vec![],
    };
    // A point next to the first portal links only to it.
    let r = portals.entity_destinations(Dimension::Overworld, BlockPos { x: 2, y: 64, z: 0 });
    assert_eq!(r.existing_portals, vec![0]);
    assert!(!r.new_portal);
    // A point equidistant from both portals reports both.
    let r = portals.entity_destinations(Dimension::Overworld, BlockPos { x: 5, y: 64, z: 0 });
    assert_eq!(r.existing_portals, vec![0, 1]);
    assert!(!r.new_portal);
    // A point out of range of everything would generate a new portal.
    let r = portals.entity_destinations(Dimension::Overworld, BlockPos { x: 500, y: 64, z: 0 });
    assert!(r.existing_portals.is_empty());
    assert!(r.new_portal);
    // The single-point query matches the resolver on the one-block
    // region.
    let q = region((5, 64, 0), (5, 64, 0));
    let full = portals.portal_destinations(Dimension::Overworld, q);
    let point = portals.entity_destinations(Dimension::Overworld, BlockPos { x: 5, y: 64, z: 0 });
    assert_eq!(full, point);
}

#[test]
fn test_resolver_across_gap() {
    // Two nether portals whose search boxes cover the two ends of a
    // long region but not its middle. Every corner of the region has a
    // winner, so only subdivision can notice the uncovered middle: the
    // resolver must keep cutting until it does, and agree with the
    // per-point scan.
    let portals = WorldPortals {
        overworld: vec![],
        nether: vec![
            portal(1, (-30, 64, 0), (-30, 66, 1)),
            portal(2, (30, 64, 0), (30, 66, 1)),
        ],
    };
    let query = region((-20, 64, 0), (20, 66, 1));
    let naive = portals.portal_destinations_naive(Dimension::Nether, query);
    let fast = portals.portal_destinations(Dimension::Nether, query);
    assert_eq!(naive, fast);
    // The middle of the region is out of range of both portals.
    assert!(naive.new_portal);
    assert_eq!(naive.existing_portals, vec![0, 1]);
}
