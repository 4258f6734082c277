//! Broad-phase behaviour: insertion, oversized boxes, query soundness
//! and completeness on concrete scenes, removal, and the octant split.

use physcore::aabb::AABB;
use physcore::sas::SpatialAccelerationStructure;
use physcore::transform::Transform;
use physcore::vec3::IVec3;

fn meters(m: i64) -> i64 {
    m * 1000000
}

#[test]
fn empty_query_returns_nothing() {
    let sas = SpatialAccelerationStructure::new();
    let probe = AABB::from_extents(IVec3::new(0, 0, 0), IVec3::new(meters(1), meters(1), meters(1)));
    assert!(sas.query_aabb(&probe).is_empty());
}

#[test]
fn single_object_is_found() {
    let mut sas = SpatialAccelerationStructure::new();
    let t = Transform::new(IVec3::new(0, 0, 0));
    sas.insert(7, &t);
    let probe = AABB::from_extents(IVec3::new(0, 0, 0), IVec3::new(100, 100, 100));
    let found = sas.query_aabb(&probe);
    assert_eq!(found, vec![7u64]);
}

#[test]
fn distant_probe_misses() {
    let mut sas = SpatialAccelerationStructure::new();
    let t = Transform::new(IVec3::new(0, 0, 0));
    sas.insert(7, &t);
    // the stored box is oversized (half-extent = max scale component =
    // 1 m), so only probes beyond that miss
    let probe = AABB::from_extents(
        IVec3::new(meters(5), 0, 0),
        IVec3::new(100000, 100000, 100000),
    );
    assert!(sas.query_aabb(&probe).is_empty());
}

#[test]
fn query_returns_superset_of_touching() {
    // a cluster of objects; every object whose oversized box touches the
    // probe must come back
    let mut sas = SpatialAccelerationStructure::new();
    let mut positions: Vec<(u64, i64, i64, i64)> = Vec::new();
    let mut id: u64 = 0;
    for x in -2i64..3 {
        for y in -2i64..3 {
            let t = Transform::new(IVec3::new(meters(3 * x), meters(3 * y), 0));
            sas.insert(id, &t);
            positions.push((id, meters(3 * x), meters(3 * y), 0));
            id += 1;
        }
    }
    let probe = AABB::from_extents(IVec3::new(0, 0, 0), IVec3::new(meters(2), meters(2), meters(2)));
    let found = sas.query_aabb(&probe);
    for (oid, x, y, z) in positions.iter() {
        let obox = AABB::from_extents(
            IVec3::new(*x, *y, *z),
            IVec3::new(meters(1), meters(1), meters(1)),
        );
        if obox.touches(&probe) {
            assert!(found.contains(oid), "object {} touches but was not returned", oid);
        }
    }
    // and everything returned is a known object
    for f in found.iter() {
        assert!(positions.iter().any(|p| p.0 == *f));
    }
}

#[test]
fn remove_takes_an_object_out() {
    let mut sas = SpatialAccelerationStructure::new();
    let a = Transform::new(IVec3::new(0, 0, 0));
    let b = Transform::new(IVec3::new(500000, 0, 0));
    sas.insert(1, &a);
    sas.insert(2, &b);
    assert!(sas.remove(1));
    assert!(!sas.remove(1));
    let probe = AABB::from_extents(IVec3::new(0, 0, 0), IVec3::new(meters(1), meters(1), meters(1)));
    let found = sas.query_aabb(&probe);
    assert!(!found.contains(&1u64));
    assert!(found.contains(&2u64));
}

#[test]
fn overflowing_leaf_splits_and_still_answers() {
    // spread twelve objects so the root leaf overflows its threshold of
    // ten and redistributes into octant children
    let mut sas = SpatialAccelerationStructure::new();
    let mut id: u64 = 0;
    for x in 0i64..12 {
        let sign: i64 = if x % 2 == 0 { 1 } else { -1 };
        let t = Transform::new(IVec3::new(
            sign * meters(2 + x),
            sign * meters(2),
            -sign * meters(2),
        ));
        sas.insert(id, &t);
        id += 1;
    }
    // every object is still found by a probe over the whole cluster
    let probe = AABB::from_extents(
        IVec3::new(0, 0, 0),
        IVec3::new(meters(20), meters(20), meters(20)),
    );
    let found = sas.query_aabb(&probe);
    for want in 0..12u64 {
        assert!(found.contains(&want), "object {} lost in the split", want);
    }
}

#[test]
fn first_insert_builds_a_single_root_leaf() {
    let mut sas = SpatialAccelerationStructure::new();
    let t = Transform::new(IVec3::new(meters(2), 0, 0));
    sas.insert(9, &t);
    assert_eq!(sas.nodes.len(), 1);
    assert!(sas.nodes[0].children.is_empty());
    assert_eq!(sas.nodes[0].object_ids, vec![9u64]);
    assert!(!sas.nodes[0].cannot_split);
    assert_eq!(sas.locations, vec![(9u64, 0usize)]);
}

#[test]
fn query_is_complete_across_subtrees() {
    // force a split, then probe a box that straddles several octant
    // children: nothing touching the probe may be missed, wherever the
    // descent would have stopped
    let mut sas = SpatialAccelerationStructure::new();
    let mut id: u64 = 0;
    let mut placed: Vec<(u64, i64, i64, i64)> = Vec::new();
    for x in -3i64..3 {
        for y in -1i64..1 {
            let (px, py, pz) = (meters(4 * x), meters(4 * y), 0);
            sas.insert(id, &Transform::new(IVec3::new(px, py, pz)));
            placed.push((id, px, py, pz));
            id += 1;
        }
    }
    // a thin probe crossing the octant boundary near the origin
    let probe = AABB::from_extents(
        IVec3::new(0, 0, 0),
        IVec3::new(meters(5), meters(1), meters(1)),
    );
    let found = sas.query_aabb(&probe);
    for (oid, x, y, z) in placed.iter() {
        let obox = AABB::from_extents(
            IVec3::new(*x, *y, *z),
            IVec3::new(meters(1), meters(1), meters(1)),
        );
        if obox.touches(&probe) {
            assert!(found.contains(oid), "object {} touches but was missed", oid);
        }
    }
}

#[test]
fn node_boxes_never_shrink_across_inserts() {
    let mut sas = SpatialAccelerationStructure::new();
    sas.insert(0, &Transform::new(IVec3::new(0, 0, 0)));
    let before = sas.nodes[0].aabb;
    sas.insert(1, &Transform::new(IVec3::new(meters(10), meters(10), 0)));
    let after = sas.nodes[0].aabb;
    assert!(after.min.x <= before.min.x && after.min.y <= before.min.y);
    assert!(after.max.x >= before.max.x && after.max.y >= before.max.y);
    assert!(after.max.x >= meters(11) - 1);
}

#[test]
fn coincident_objects_do_not_split_forever() {
    // twelve objects at the same position fall into one octant; the
    // structure marks the leaf unsplittable instead of looping
    let mut sas = SpatialAccelerationStructure::new();
    for id in 0..12u64 {
        let t = Transform::new(IVec3::new(100, 100, 100));
        sas.insert(id, &t);
    }
    let probe = AABB::from_extents(IVec3::new(0, 0, 0), IVec3::new(meters(2), meters(2), meters(2)));
    let found = sas.query_aabb(&probe);
    assert_eq!(found.len(), 12);
}
