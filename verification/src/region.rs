//! Axis-aligned cuboids of block coordinates, with the distance and
//! splitting operations the reachability resolver is built on.

use vstd::prelude::*;

use crate::pos::{
    axis_coord, floor_div, lemma_square_bound, lemma_square_monotonic, pos_in_bounds,
    spec_block_of_world, spec_to_nether_coord, spec_to_overworld_coord, with_axis,
    world_pos_in_bounds, Axis, BlockPos, WorldPos, MAX_COORD, UNITS_PER_BLOCK, WORLD_COORD_LIMIT,
};
use crate::world::Dimension;

verus! {

/// Distance from the point `v` to the closed interval `[lo, hi]`.
pub open spec fn gap_to_interval(lo: int, hi: int, v: int) -> int {
    if hi < v {
        v - hi
    } else if v < lo {
        lo - v
    } else {
        0
    }
}

/// Smallest distance between a point of `[lo1, hi1]` and the interval
/// `[lo2, hi2]`.
pub open spec fn min_interval_gap(lo1: int, hi1: int, lo2: int, hi2: int) -> int {
    if hi1 < lo2 {
        lo2 - hi1
    } else if hi2 < lo1 {
        lo1 - hi2
    } else {
        0
    }
}

/// Largest distance from a point of `[lo1, hi1]` to the interval
/// `[lo2, hi2]`; the farthest point of a nonempty `[lo1, hi1]` is one of its
/// two ends.
pub open spec fn max_interval_gap(lo1: int, hi1: int, lo2: int, hi2: int) -> int {
    let a = gap_to_interval(lo2, hi2, lo1);
    let b = gap_to_interval(lo2, hi2, hi1);
    if a >= b {
        a
    } else {
        b
    }
}

/// For a point inside `[lo1, hi1]`, its distance to `[lo2, hi2]` lies
/// between the minimal and the maximal interval gap.
pub proof fn lemma_gap_bounds(lo1: int, hi1: int, lo2: int, hi2: int, v: int)
    requires
        lo1 <= v <= hi1,
        lo2 <= hi2,
    ensures
        min_interval_gap(lo1, hi1, lo2, hi2) <= gap_to_interval(lo2, hi2, v),
        gap_to_interval(lo2, hi2, v) <= max_interval_gap(lo1, hi1, lo2, hi2),
        gap_to_interval(lo2, hi2, v) >= 0,
{
}

/// Cuboid of block coordinates, inclusive on both ends.
#[derive(Debug, Copy, Clone, PartialEq, Eq, Hash, Structural)]
pub struct BlockRegion {
    /// Minimum coordinate (inclusive)
    pub min: BlockPos,
    /// Maximum coordinate (inclusive)
    pub max: BlockPos,
}

impl BlockRegion {
    /// `min <= max` along each axis.
    pub open spec fn valid(self) -> bool {
        &&& self.min.x <= self.max.x
        &&& self.min.y <= self.max.y
        &&& self.min.z <= self.max.z
    }

    /// Every corner coordinate is small enough for distance arithmetic.
    pub open spec fn in_bounds(self) -> bool {
        pos_in_bounds(self.min) && pos_in_bounds(self.max)
    }

    /// Returns whether `min <= max` along each axis.
    pub fn is_valid(&self) -> (r: bool)
        ensures
            r == self.valid(),
    {
        self.min.x <= self.max.x && self.min.y <= self.max.y && self.min.z <= self.max.z
    }

    /// Returns whether every corner coordinate is small enough for
    /// distance arithmetic.
    pub fn is_in_bounds(&self) -> (r: bool)
        ensures
            r == self.in_bounds(),
    {
        -MAX_COORD <= self.min.x && self.min.x <= MAX_COORD && -MAX_COORD <= self.min.y
            && self.min.y <= MAX_COORD && -MAX_COORD <= self.min.z && self.min.z <= MAX_COORD
            && -MAX_COORD <= self.max.x && self.max.x <= MAX_COORD && -MAX_COORD <= self.max.y
            && self.max.y <= MAX_COORD && -MAX_COORD <= self.max.z && self.max.z <= MAX_COORD
    }

    /// Whether the block position `p` lies inside the region.
    pub open spec fn contains_point(self, p: BlockPos) -> bool {
        &&& self.min.x <= p.x <= self.max.x
        &&& self.min.y <= p.y <= self.max.y
        &&& self.min.z <= p.z <= self.max.z
    }

    /// Whether `p` is one of the up-to-eight corner points of the region.
    pub open spec fn is_corner(self, p: BlockPos) -> bool {
        &&& p.x == self.min.x || p.x == self.max.x
        &&& p.y == self.min.y || p.y == self.max.y
        &&& p.z == self.min.z || p.z == self.max.z
    }

    /// Corner number `k` (three bits: X is the least significant, Z the most
    /// significant; a set bit picks the maximum coordinate).
    pub open spec fn spec_corner(self, k: int) -> BlockPos {
        BlockPos {
            x: if k % 2 == 1 { self.max.x } else { self.min.x },
            y: if (k / 2) % 2 == 1 { self.max.y } else { self.min.y },
            z: if (k / 4) % 2 == 1 { self.max.z } else { self.min.z },
        }
    }

    /// Sum of the extents along the three axes; the termination measure of
    /// the resolver's recursive subdivision.
    pub open spec fn extent_sum(self) -> int {
        (self.max.x - self.min.x) + (self.max.y - self.min.y) + (self.max.z - self.min.z)
    }

    /// Whether the region is a subset of `other`, componentwise.
    pub open spec fn subregion_of(self, other: Self) -> bool {
        &&& other.min.x <= self.min.x && self.max.x <= other.max.x
        &&& other.min.y <= self.min.y && self.max.y <= other.max.y
        &&& other.min.z <= self.min.z && self.max.z <= other.max.z
    }

    /// Smallest possible squared Euclidean distance between a point of
    /// `self` and a point of `other`.
    pub open spec fn spec_min_distance_sq_to(self, other: Self) -> int {
        let dx = min_interval_gap(self.min.x as int, self.max.x as int, other.min.x as int, other.max.x as int);
        let dy = min_interval_gap(self.min.y as int, self.max.y as int, other.min.y as int, other.max.y as int);
        let dz = min_interval_gap(self.min.z as int, self.max.z as int, other.min.z as int, other.max.z as int);
        dx * dx + dy * dy + dz * dz
    }

    /// Largest possible squared Euclidean distance from a point of `self`
    /// to the region `other` (farthest point of `self`, closest point of
    /// `other`).
    pub open spec fn spec_max_distance_sq_to(self, other: Self) -> int {
        let dx = max_interval_gap(self.min.x as int, self.max.x as int, other.min.x as int, other.max.x as int);
        let dy = max_interval_gap(self.min.y as int, self.max.y as int, other.min.y as int, other.max.y as int);
        let dz = max_interval_gap(self.min.z as int, self.max.z as int, other.min.z as int, other.max.z as int);
        dx * dx + dy * dy + dz * dz
    }

    /// Squared Euclidean distance from the point `p` to the region.
    pub open spec fn spec_distance_sq_to_point(self, p: BlockPos) -> int {
        let dx = gap_to_interval(self.min.x as int, self.max.x as int, p.x as int);
        let dy = gap_to_interval(self.min.y as int, self.max.y as int, p.y as int);
        let dz = gap_to_interval(self.min.z as int, self.max.z as int, p.z as int);
        dx * dx + dy * dy + dz * dz
    }

    /// Adjusts `max` so that `min <= max` along each axis, raising `max`
    /// where needed.
    pub fn adjust_max(&mut self)
        ensures
            final(self).min == old(self).min,
            final(self).max.x == if old(self).max.x >= old(self).min.x { old(self).max.x } else { old(self).min.x },
            final(self).max.y == if old(self).max.y >= old(self).min.y { old(self).max.y } else { old(self).min.y },
            final(self).max.z == if old(self).max.z >= old(self).min.z { old(self).max.z } else { old(self).min.z },
            final(self).valid(),
    {
        if self.max.x < self.min.x {
            self.max.x = self.min.x;
        }
        if self.max.y < self.min.y {
            self.max.y = self.min.y;
        }
        if self.max.z < self.min.z {
            self.max.z = self.min.z;
        }
    }

    /// Adjusts `min` so that `min <= max` along each axis, lowering `min`
    /// where needed.
    pub fn adjust_min(&mut self)
        ensures
            final(self).max == old(self).max,
            final(self).min.x == if old(self).min.x <= old(self).max.x { old(self).min.x } else { old(self).max.x },
            final(self).min.y == if old(self).min.y <= old(self).max.y { old(self).min.y } else { old(self).max.y },
            final(self).min.z == if old(self).min.z <= old(self).max.z { old(self).min.z } else { old(self).max.z },
            final(self).valid(),
    {
        if self.min.x > self.max.x {
            self.min.x = self.max.x;
        }
        if self.min.y > self.max.y {
            self.min.y = self.max.y;
        }
        if self.min.z > self.max.z {
            self.min.z = self.max.z;
        }
    }

    /// Returns the **minimum** possible squared Euclidean distance between
    /// any point in `self` and the closest point in `other`.
    pub fn min_euclidean_distance_sq_to(self, other: Self) -> (r: i64)
        requires
            self.in_bounds(),
            other.in_bounds(),
        ensures
            r == self.spec_min_distance_sq_to(other),
    {
        let dx = min_range_distance(self.min.x, self.max.x, other.min.x, other.max.x);
        let dy = min_range_distance(self.min.y, self.max.y, other.min.y, other.max.y);
        let dz = min_range_distance(self.min.z, self.max.z, other.min.z, other.max.z);
        proof {
            lemma_square_bound(dx as int, 2 * MAX_COORD as int);
            lemma_square_bound(dy as int, 2 * MAX_COORD as int);
            lemma_square_bound(dz as int, 2 * MAX_COORD as int);
        }
        dx * dx + dy * dy + dz * dz
    }

    /// Returns the **maximum** possible squared Euclidean distance between
    /// any point in `self` and the closest point in `other`.
    pub fn max_euclidean_distance_sq_to(self, other: Self) -> (r: i64)
        requires
            self.in_bounds(),
            other.in_bounds(),
        ensures
            r == self.spec_max_distance_sq_to(other),
    {
        let dx = max_range_distance(self.min.x, self.max.x, other.min.x, other.max.x);
        let dy = max_range_distance(self.min.y, self.max.y, other.min.y, other.max.y);
        let dz = max_range_distance(self.min.z, self.max.z, other.min.z, other.max.z);
        proof {
            lemma_square_bound(dx as int, 2 * MAX_COORD as int);
            lemma_square_bound(dy as int, 2 * MAX_COORD as int);
            lemma_square_bound(dz as int, 2 * MAX_COORD as int);
        }
        dx * dx + dy * dy + dz * dz
    }

    /// Returns the **minimum** possible squared Euclidean distance between
    /// any point in `self` and `pos`.
    pub fn min_euclidean_distance_sq_to_point(self, pos: BlockPos) -> (r: i64)
        requires
            self.in_bounds(),
            pos_in_bounds(pos),
        ensures
            r == self.spec_distance_sq_to_point(pos),
    {
        let dx = min_range_distance_to_pos(self.min.x, self.max.x, pos.x);
        let dy = min_range_distance_to_pos(self.min.y, self.max.y, pos.y);
        let dz = min_range_distance_to_pos(self.min.z, self.max.z, pos.z);
        proof {
            lemma_square_bound(dx as int, 2 * MAX_COORD as int);
            lemma_square_bound(dy as int, 2 * MAX_COORD as int);
            lemma_square_bound(dz as int, 2 * MAX_COORD as int);
        }
        dx * dx + dy * dy + dz * dz
    }

    /// Returns the 8 corners of the region, the X axis choice in the least
    /// significant bit of the index and the Z axis choice in the most
    /// significant one.
    pub fn corners(self) -> (r: [BlockPos; 8])
        ensures
            forall|k: int| 0 <= k < 8 ==> r[k] == self.spec_corner(k),
    {
        let BlockRegion { min, max } = self;
        let r = [
            BlockPos { x: min.x, y: min.y, z: min.z },
            BlockPos { x: max.x, y: min.y, z: min.z },
            BlockPos { x: min.x, y: max.y, z: min.z },
            BlockPos { x: max.x, y: max.y, z: min.z },
            BlockPos { x: min.x, y: min.y, z: max.z },
            BlockPos { x: max.x, y: min.y, z: max.z },
            BlockPos { x: min.x, y: max.y, z: max.z },
            BlockPos { x: max.x, y: max.y, z: max.z },
        ];
        r
    }

    /// The two candidate halves of a middle split along `axis`: the
    /// endpoint layers are shed, and the remainder is cut just above the
    /// midpoint of the original extent. Either half may be empty.
    pub open spec fn spec_split_excluding_corners(self, axis: Axis) -> (BlockRegion, BlockRegion) {
        let halfway = axis_coord(self.min, axis) + (axis_coord(self.max, axis) - axis_coord(
            self.min,
            axis,
        )) / 2;
        (
            BlockRegion {
                min: with_axis(self.min, axis, (axis_coord(self.min, axis) + 1) as i64),
                max: with_axis(self.max, axis, halfway as i64),
            },
            BlockRegion {
                min: with_axis(self.min, axis, (halfway + 1) as i64),
                max: with_axis(self.max, axis, (axis_coord(self.max, axis) - 1) as i64),
            },
        )
    }

    /// Splits the region in half along `axis`, excluding the two endpoint
    /// layers along that axis.
    pub fn split_excluding_corners(self, axis: Axis) -> (r: [Option<BlockRegion>; 2])
        requires
            self.valid(),
            self.in_bounds(),
        ensures
            r[0] == half_or_none(self.spec_split_excluding_corners(axis).0, axis),
            r[1] == half_or_none(self.spec_split_excluding_corners(axis).1, axis),
            split_halves_sound(self, axis, r[0], r[1]),
            r[0] is Some ==> (r[0]->0).extent_sum() < self.extent_sum(),
            r[1] is Some ==> (r[1]->0).extent_sum() < self.extent_sum(),
    {
        let mut lo = self;
        let mut hi = self;
        lo.min.set_on_axis(axis, lo.min.on_axis(axis) + 1);
        hi.max.set_on_axis(axis, hi.max.on_axis(axis) - 1);
        let extent = self.max.on_axis(axis) - self.min.on_axis(axis);
        let half_size = ((extent as u64) / 2) as i64;
        let halfway = self.min.on_axis(axis) + half_size;
        lo.max.set_on_axis(axis, halfway);
        hi.min.set_on_axis(axis, halfway + 1);
        let r0 = if lo.min.on_axis(axis) <= lo.max.on_axis(axis) { Some(lo) } else { None };
        let r1 = if hi.min.on_axis(axis) <= hi.max.on_axis(axis) { Some(hi) } else { None };
        [r0, r1]
    }

    /// The two candidate halves of a cut at `coordinate + 0.5` along
    /// `axis`, after shedding the endpoint layers.
    pub open spec fn spec_split_excluding_corners_at(self, axis: Axis, coordinate: i64) -> (
        BlockRegion,
        BlockRegion,
    ) {
        let lo_min = axis_coord(self.min, axis) + 1;
        let hi_max = axis_coord(self.max, axis) - 1;
        let lo_max = if hi_max > coordinate { coordinate as int } else { hi_max };
        let hi_min = if lo_min < coordinate + 1 { coordinate + 1 } else { lo_min };
        (
            BlockRegion {
                min: with_axis(self.min, axis, lo_min as i64),
                max: with_axis(self.max, axis, lo_max as i64),
            },
            BlockRegion {
                min: with_axis(self.min, axis, hi_min as i64),
                max: with_axis(self.max, axis, hi_max as i64),
            },
        )
    }

    /// Splits the region along `axis`, excluding the two endpoint layers,
    /// at `coordinate + 0.5`.
    pub fn split_excluding_corners_at(self, axis: Axis, coordinate: i64) -> (r: [Option<
        BlockRegion,
    >; 2])
        requires
            self.valid(),
            self.in_bounds(),
            -MAX_COORD <= coordinate <= MAX_COORD,
        ensures
            r[0] == half_or_none(self.spec_split_excluding_corners_at(axis, coordinate).0, axis),
            r[1] == half_or_none(self.spec_split_excluding_corners_at(axis, coordinate).1, axis),
            split_halves_sound(self, axis, r[0], r[1]),
            r[0] is Some ==> (r[0]->0).extent_sum() < self.extent_sum(),
            r[1] is Some ==> (r[1]->0).extent_sum() < self.extent_sum(),
    {
        let mut inner = self;
        inner.min.set_on_axis(axis, inner.min.on_axis(axis) + 1);
        inner.max.set_on_axis(axis, inner.max.on_axis(axis) - 1);
        let mut lo = inner;
        let mut hi = inner;
        if lo.max.on_axis(axis) > coordinate {
            lo.max.set_on_axis(axis, coordinate);
        }
        if hi.min.on_axis(axis) < coordinate + 1 {
            hi.min.set_on_axis(axis, coordinate + 1);
        }
        let r0 = if lo.min.on_axis(axis) <= lo.max.on_axis(axis) { Some(lo) } else { None };
        let r1 = if hi.min.on_axis(axis) <= hi.max.on_axis(axis) { Some(hi) } else { None };
        [r0, r1]
    }

    /// The two candidate halves of a cut at `coordinate + 0.5` along
    /// `axis`.
    pub open spec fn spec_split_at(self, axis: Axis, coordinate: i64) -> (BlockRegion, BlockRegion) {
        let lo_max = if axis_coord(self.max, axis) > coordinate {
            coordinate as int
        } else {
            axis_coord(self.max, axis)
        };
        let hi_min = if axis_coord(self.min, axis) < coordinate + 1 {
            coordinate + 1
        } else {
            axis_coord(self.min, axis)
        };
        (
            BlockRegion { min: self.min, max: with_axis(self.max, axis, lo_max as i64) },
            BlockRegion { min: with_axis(self.min, axis, hi_min as i64), max: self.max },
        )
    }

    /// Splits the region in two at `coordinate + 0.5` along `axis`; the
    /// layer at `coordinate` stays in the lower half.
    pub fn split_at(self, axis: Axis, coordinate: i64) -> (r: [Option<BlockRegion>; 2])
        requires
            self.valid(),
            self.in_bounds(),
            -MAX_COORD <= coordinate <= MAX_COORD,
        ensures
            r[0] == half_or_none(self.spec_split_at(axis, coordinate).0, axis),
            r[1] == half_or_none(self.spec_split_at(axis, coordinate).1, axis),
            split_halves_sound(self, axis, r[0], r[1]),
            axis_coord(self.min, axis) <= coordinate < axis_coord(self.max, axis) ==> r[0] is Some
                && r[1] is Some,
            r[0] is Some && r[1] is Some ==> (r[0]->0).extent_sum() < self.extent_sum()
                && (r[1]->0).extent_sum() < self.extent_sum(),
    {
        let mut lo = self;
        let mut hi = self;
        if lo.max.on_axis(axis) > coordinate {
            lo.max.set_on_axis(axis, coordinate);
        }
        if hi.min.on_axis(axis) < coordinate + 1 {
            hi.min.set_on_axis(axis, coordinate + 1);
        }
        let r0 = if lo.min.on_axis(axis) <= lo.max.on_axis(axis) { Some(lo) } else { None };
        let r1 = if hi.min.on_axis(axis) <= hi.max.on_axis(axis) { Some(hi) } else { None };
        [r0, r1]
    }
}

/// A candidate half as a split returns it: the half itself when it is
/// nonempty along the split axis, nothing otherwise.
pub open spec fn half_or_none(half: BlockRegion, axis: Axis) -> Option<BlockRegion> {
    if axis_coord(half.min, axis) <= axis_coord(half.max, axis) {
        Some(half)
    } else {
        None
    }
}

/// What every split operation guarantees of its two optional halves: each
/// returned half is a valid subregion of the whole.
pub open spec fn split_halves_sound(
    whole: BlockRegion,
    axis: Axis,
    lo: Option<BlockRegion>,
    hi: Option<BlockRegion>,
) -> bool {
    &&& lo is Some ==> (lo->0).valid() && (lo->0).in_bounds() && (lo->0).subregion_of(whole)
    &&& hi is Some ==> (hi->0).valid() && (hi->0).in_bounds() && (hi->0).subregion_of(whole)
}

/// For a point inside `region`, its distance to `other` lies between the
/// minimal and maximal region-to-region distances.
pub proof fn lemma_point_distance_bounds(region: BlockRegion, other: BlockRegion, p: BlockPos)
    requires
        region.valid(),
        other.valid(),
        region.contains_point(p),
    ensures
        other.spec_min_distance_sq_to(region) <= other.spec_distance_sq_to_point(p),
        region.spec_min_distance_sq_to(other) <= other.spec_distance_sq_to_point(p),
        other.spec_distance_sq_to_point(p) <= region.spec_max_distance_sq_to(other),
        other.spec_distance_sq_to_point(p) >= 0,
{
    lemma_axis_distance_bounds(region, other, p, Axis::X);
    lemma_axis_distance_bounds(region, other, p, Axis::Y);
    lemma_axis_distance_bounds(region, other, p, Axis::Z);
}

/// Per-axis step of `lemma_point_distance_bounds`: the squared gap along
/// one axis is bounded by the squared minimal and maximal interval gaps.
proof fn lemma_axis_distance_bounds(region: BlockRegion, other: BlockRegion, p: BlockPos, axis: Axis)
    requires
        region.valid(),
        other.valid(),
        region.contains_point(p),
    ensures
        ({
            let lo1 = axis_coord(region.min, axis);
            let hi1 = axis_coord(region.max, axis);
            let lo2 = axis_coord(other.min, axis);
            let hi2 = axis_coord(other.max, axis);
            let g = gap_to_interval(lo2, hi2, axis_coord(p, axis));
            let mn = min_interval_gap(lo1, hi1, lo2, hi2);
            let mn2 = min_interval_gap(lo2, hi2, lo1, hi1);
            let mx = max_interval_gap(lo1, hi1, lo2, hi2);
            0 <= g && mn * mn <= g * g && mn2 * mn2 <= g * g && g * g <= mx * mx
        }),
{
    let lo1 = axis_coord(region.min, axis);
    let hi1 = axis_coord(region.max, axis);
    let lo2 = axis_coord(other.min, axis);
    let hi2 = axis_coord(other.max, axis);
    let v = axis_coord(p, axis);
    let g = gap_to_interval(lo2, hi2, v);
    let mn = min_interval_gap(lo1, hi1, lo2, hi2);
    let mn2 = min_interval_gap(lo2, hi2, lo1, hi1);
    let mx = max_interval_gap(lo1, hi1, lo2, hi2);
    lemma_gap_bounds(lo1, hi1, lo2, hi2, v);
    assert(mn == mn2);
    assert(0 <= mn <= g);
    assert(g <= mx);
    lemma_square_monotonic(mn, g);
    lemma_square_monotonic(g, mx);
}

/// Smallest distance between a point of the first interval and a point of
/// the second.
pub(crate) fn min_range_distance(lo1: i64, hi1: i64, lo2: i64, hi2: i64) -> (r: i64)
    requires
        -MAX_COORD <= lo1 <= MAX_COORD,
        -MAX_COORD <= hi1 <= MAX_COORD,
        -MAX_COORD <= lo2 <= MAX_COORD,
        -MAX_COORD <= hi2 <= MAX_COORD,
    ensures
        r == min_interval_gap(lo1 as int, hi1 as int, lo2 as int, hi2 as int),
{
    if hi1 < lo2 {
        lo2 - hi1
    } else if hi2 < lo1 {
        lo1 - hi2
    } else {
        0
    }
}

/// Largest distance from a point of the first interval to the second.
pub(crate) fn max_range_distance(lo1: i64, hi1: i64, lo2: i64, hi2: i64) -> (r: i64)
    requires
        -MAX_COORD <= lo1 <= MAX_COORD,
        -MAX_COORD <= hi1 <= MAX_COORD,
        -MAX_COORD <= lo2 <= MAX_COORD,
        -MAX_COORD <= hi2 <= MAX_COORD,
    ensures
        r == max_interval_gap(lo1 as int, hi1 as int, lo2 as int, hi2 as int),
{
    let a = min_range_distance_to_pos(lo2, hi2, lo1);
    let b = min_range_distance_to_pos(lo2, hi2, hi1);
    if a >= b {
        a
    } else {
        b
    }
}

/// Cuboid of fixed-point world coordinates.
#[derive(Debug, Copy, Clone, PartialEq, Eq, Hash, Structural)]
pub struct WorldRegion {
    /// Minimum coordinate (inclusive)
    pub min: WorldPos,
    /// Maximum coordinate (inclusive)
    pub max: WorldPos,
}

/// The world-coordinate cuboid covered by a block region: the minimum
/// corner of `min` and the maximum corner of `max`, since a block at
/// integer coordinate N occupies the half-open interval [N, N+1).
pub open spec fn spec_world_region_of_block(region: BlockRegion) -> WorldRegion {
    WorldRegion {
        min: WorldPos {
            x: (region.min.x * UNITS_PER_BLOCK) as i64,
            y: (region.min.y * UNITS_PER_BLOCK) as i64,
            z: (region.min.z * UNITS_PER_BLOCK) as i64,
        },
        max: WorldPos {
            x: ((region.max.x + 1) * UNITS_PER_BLOCK) as i64,
            y: ((region.max.y + 1) * UNITS_PER_BLOCK) as i64,
            z: ((region.max.z + 1) * UNITS_PER_BLOCK) as i64,
        },
    }
}

impl WorldRegion {
    /// `min <= max` along each axis.
    pub open spec fn spec_valid(self) -> bool {
        &&& self.min.x <= self.max.x
        &&& self.min.y <= self.max.y
        &&& self.min.z <= self.max.z
    }

    /// Both corners lie within the fixed-point arithmetic range.
    pub open spec fn in_bounds(self) -> bool {
        world_pos_in_bounds(self.min) && world_pos_in_bounds(self.max)
    }

    /// The world-coordinate cuboid covered by a block region.
    pub fn from_block_region(region: BlockRegion) -> (r: WorldRegion)
        requires
            region.in_bounds(),
        ensures
            r == spec_world_region_of_block(region),
            r.in_bounds(),
    {
        WorldRegion {
            min: WorldPos {
                x: region.min.x * UNITS_PER_BLOCK,
                y: region.min.y * UNITS_PER_BLOCK,
                z: region.min.z * UNITS_PER_BLOCK,
            },
            max: WorldPos {
                x: (region.max.x + 1) * UNITS_PER_BLOCK,
                y: (region.max.y + 1) * UNITS_PER_BLOCK,
                z: (region.max.z + 1) * UNITS_PER_BLOCK,
            },
        }
    }

    /// Converts from nether coordinates to overworld coordinates: the
    /// horizontal axes are multiplied by the nether's scale factor.
    pub fn nether_to_overworld(self) -> (r: WorldRegion)
        requires
            -WORLD_COORD_LIMIT / 8 <= self.min.x <= WORLD_COORD_LIMIT / 8,
            -WORLD_COORD_LIMIT / 8 <= self.max.x <= WORLD_COORD_LIMIT / 8,
            -WORLD_COORD_LIMIT / 8 <= self.min.z <= WORLD_COORD_LIMIT / 8,
            -WORLD_COORD_LIMIT / 8 <= self.max.z <= WORLD_COORD_LIMIT / 8,
            -WORLD_COORD_LIMIT <= self.min.y <= WORLD_COORD_LIMIT,
            -WORLD_COORD_LIMIT <= self.max.y <= WORLD_COORD_LIMIT,
        ensures
            r.min.x == spec_to_overworld_coord(self.min.x as int),
            r.min.z == spec_to_overworld_coord(self.min.z as int),
            r.max.x == spec_to_overworld_coord(self.max.x as int),
            r.max.z == spec_to_overworld_coord(self.max.z as int),
            r.min.y == self.min.y,
            r.max.y == self.max.y,
            r.in_bounds(),
    {
        WorldRegion {
            min: WorldPos { x: self.min.x * 8, y: self.min.y, z: self.min.z * 8 },
            max: WorldPos { x: self.max.x * 8, y: self.max.y, z: self.max.z * 8 },
        }
    }

    /// Converts from overworld coordinates to nether coordinates: the
    /// horizontal axes are divided by the nether's scale factor, rounding
    /// down to the fixed-point grid.
    pub fn overworld_to_nether(self) -> (r: WorldRegion)
        requires
            self.in_bounds(),
        ensures
            r.min.x == spec_to_nether_coord(self.min.x as int),
            r.min.z == spec_to_nether_coord(self.min.z as int),
            r.max.x == spec_to_nether_coord(self.max.x as int),
            r.max.z == spec_to_nether_coord(self.max.z as int),
            r.min.y == self.min.y,
            r.max.y == self.max.y,
            r.in_bounds(),
    {
        WorldRegion {
            min: WorldPos { x: floor_div(self.min.x, 8), y: self.min.y, z: floor_div(self.min.z, 8) },
            max: WorldPos { x: floor_div(self.max.x, 8), y: self.max.y, z: floor_div(self.max.z, 8) },
        }
    }

    /// Converts coordinates from one dimension to another.
    pub fn convert_dimension(self, from: Dimension, to: Dimension) -> (r: WorldRegion)
        requires
            -WORLD_COORD_LIMIT / 8 <= self.min.x <= WORLD_COORD_LIMIT / 8,
            -WORLD_COORD_LIMIT / 8 <= self.max.x <= WORLD_COORD_LIMIT / 8,
            -WORLD_COORD_LIMIT / 8 <= self.min.z <= WORLD_COORD_LIMIT / 8,
            -WORLD_COORD_LIMIT / 8 <= self.max.z <= WORLD_COORD_LIMIT / 8,
            -WORLD_COORD_LIMIT <= self.min.y <= WORLD_COORD_LIMIT,
            -WORLD_COORD_LIMIT <= self.max.y <= WORLD_COORD_LIMIT,
        ensures
            r == spec_convert_region(self, from, to),
            r.in_bounds(),
    {
        match (from, to) {
            (Dimension::Overworld, Dimension::Overworld) => self,
            (Dimension::Overworld, Dimension::Nether) => self.overworld_to_nether(),
            (Dimension::Nether, Dimension::Overworld) => self.nether_to_overworld(),
            (Dimension::Nether, Dimension::Nether) => self,
        }
    }

    /// Returns the smallest block region that contains `self`: both
    /// corners rounded down to whole blocks.
    pub fn block_region_containing(self) -> (r: BlockRegion)
        requires
            self.in_bounds(),
        ensures
            r.min == spec_block_of_world(self.min),
            r.max == spec_block_of_world(self.max),
    {
        BlockRegion { min: self.min.to_block_pos(), max: self.max.to_block_pos() }
    }

    /// Returns whether the minimum coordinate is less than or equal to
    /// the maximum coordinate along each axis.
    pub fn is_valid(self) -> (r: bool)
        ensures
            r == self.spec_valid(),
    {
        self.min.x <= self.max.x && self.min.y <= self.max.y && self.min.z <= self.max.z
    }
}

/// A world region converted between dimension coordinate scales.
pub open spec fn spec_convert_region(region: WorldRegion, from: Dimension, to: Dimension) -> WorldRegion {
    match (from, to) {
        (Dimension::Overworld, Dimension::Nether) => WorldRegion {
            min: WorldPos {
                x: spec_to_nether_coord(region.min.x as int) as i64,
                y: region.min.y,
                z: spec_to_nether_coord(region.min.z as int) as i64,
            },
            max: WorldPos {
                x: spec_to_nether_coord(region.max.x as int) as i64,
                y: region.max.y,
                z: spec_to_nether_coord(region.max.z as int) as i64,
            },
        },
        (Dimension::Nether, Dimension::Overworld) => WorldRegion {
            min: WorldPos {
                x: spec_to_overworld_coord(region.min.x as int) as i64,
                y: region.min.y,
                z: spec_to_overworld_coord(region.min.z as int) as i64,
            },
            max: WorldPos {
                x: spec_to_overworld_coord(region.max.x as int) as i64,
                y: region.max.y,
                z: spec_to_overworld_coord(region.max.z as int) as i64,
            },
        },
        _ => region,
    }
}

/// Distance from the point `pos` to the interval `[lo, hi]`.
pub(crate) fn min_range_distance_to_pos(lo: i64, hi: i64, pos: i64) -> (r: i64)
    requires
        -MAX_COORD <= lo <= MAX_COORD,
        -MAX_COORD <= hi <= MAX_COORD,
        -MAX_COORD <= pos <= MAX_COORD,
    ensures
        r == gap_to_interval(lo as int, hi as int, pos as int),
{
    if hi < pos {
        pos - hi
    } else if pos < lo {
        lo - pos
    } else {
        0
    }
}

} // verus!
