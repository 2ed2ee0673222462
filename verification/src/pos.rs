//! Axes, block-granularity coordinates, and fixed-point world coordinates.

use vstd::arithmetic::div_mod::{
    lemma_div_by_multiple, lemma_fundamental_div_mod, lemma_hoist_over_denominator,
};
use vstd::prelude::*;

use crate::world::Dimension;

verus! {

/// Largest magnitude a block coordinate may have when it takes part in
/// distance computations. Generous compared to the in-game world border,
/// and small enough that sums of squared coordinate differences fit in
/// an `i64` with a wide margin.
pub const MAX_COORD: i64 = 67108864;

/// How many world-coordinate units make up one block. World coordinates
/// are kept as fixed-point numbers on a grid of `1 / UNITS_PER_BLOCK`
/// blocks, which represents every named entity size exactly.
pub const UNITS_PER_BLOCK: i64 = 40;

/// Largest magnitude a world coordinate may have in the fixed-point
/// arithmetic of this library.
pub const WORLD_COORD_LIMIT: i64 = 100_000_000_000;

/// Axis in the world.
#[derive(Debug, Copy, Clone, PartialEq, Eq, Hash, Structural)]
pub enum Axis {
    /// EAST/WEST
    X,
    /// UP/DOWN
    Y,
    /// NORTH/SOUTH
    Z,
}

/// Block coordinates.
///
/// Block coordinates cannot be converted directly between dimensions; they
/// must be converted to world coordinates first.
#[derive(Debug, Copy, Clone, PartialEq, Eq, Hash, Structural)]
pub struct BlockPos {
    /// EAST/WEST
    pub x: i64,
    /// UP/DOWN
    pub y: i64,
    /// NORTH/SOUTH
    pub z: i64,
}

/// The coordinate of `p` along `axis`, as a mathematical integer.
pub open spec fn axis_coord(p: BlockPos, axis: Axis) -> int {
    match axis {
        Axis::X => p.x as int,
        Axis::Y => p.y as int,
        Axis::Z => p.z as int,
    }
}

/// The position `p` with its coordinate along `axis` replaced by `v`.
pub open spec fn with_axis(p: BlockPos, axis: Axis, v: i64) -> BlockPos {
    match axis {
        Axis::X => BlockPos { x: v, y: p.y, z: p.z },
        Axis::Y => BlockPos { x: p.x, y: v, z: p.z },
        Axis::Z => BlockPos { x: p.x, y: p.y, z: v },
    }
}

/// Whether every coordinate of `p` is small enough for distance arithmetic.
pub open spec fn pos_in_bounds(p: BlockPos) -> bool {
    &&& -MAX_COORD <= p.x <= MAX_COORD
    &&& -MAX_COORD <= p.y <= MAX_COORD
    &&& -MAX_COORD <= p.z <= MAX_COORD
}

impl BlockPos {
    /// Reads the coordinate along `axis`.
    pub fn on_axis(&self, axis: Axis) -> (r: i64)
        ensures
            r == axis_coord(*self, axis),
    {
        match axis {
            Axis::X => self.x,
            Axis::Y => self.y,
            Axis::Z => self.z,
        }
    }

    /// Writes the coordinate along `axis`.
    pub fn set_on_axis(&mut self, axis: Axis, value: i64)
        ensures
            *final(self) == with_axis(*old(self), axis, value),
    {
        match axis {
            Axis::X => self.x = value,
            Axis::Y => self.y = value,
            Axis::Z => self.z = value,
        }
    }

    /// Returns the squared Euclidean distance between `self` and `other`.
    pub fn euclidean_distance_sq(&self, other: &Self) -> (r: i64)
        requires
            pos_in_bounds(*self),
            pos_in_bounds(*other),
        ensures
            r == spec_euclidean_distance_sq(*self, *other),
    {
        let dx = self.x - other.x;
        let dy = self.y - other.y;
        let dz = self.z - other.z;
        proof {
            lemma_square_bound(dx as int, 2 * MAX_COORD as int);
            lemma_square_bound(dy as int, 2 * MAX_COORD as int);
            lemma_square_bound(dz as int, 2 * MAX_COORD as int);
        }
        dx * dx + dy * dy + dz * dz
    }
}

/// For `|a| <= m`, the square of `a` lies between `0` and `m * m`.
pub proof fn lemma_square_bound(a: int, m: int)
    requires
        -m <= a <= m,
    ensures
        0 <= a * a <= m * m,
{
    assert(0 <= a * a <= m * m) by (nonlinear_arith)
        requires
            -m <= a <= m,
    ;
}

/// Squares preserve order on non-negative integers.
pub proof fn lemma_square_monotonic(a: int, b: int)
    requires
        0 <= a <= b,
    ensures
        a * a <= b * b,
{
    assert(a * a <= b * b) by (nonlinear_arith)
        requires
            0 <= a <= b,
    ;
}

/// Squared Euclidean distance between two block positions.
pub open spec fn spec_euclidean_distance_sq(a: BlockPos, b: BlockPos) -> int {
    let dx = a.x - b.x;
    let dy = a.y - b.y;
    let dz = a.z - b.z;
    dx * dx + dy * dy + dz * dz
}

/// Coordinates within a dimension, on a fixed grid of
/// `1 / UNITS_PER_BLOCK` blocks: the field values are the coordinates
/// multiplied by `UNITS_PER_BLOCK`.
#[derive(Debug, Copy, Clone, PartialEq, Eq, Hash, Structural)]
pub struct WorldPos {
    /// EAST/WEST, in fixed-point units
    pub x: i64,
    /// UP/DOWN, in fixed-point units
    pub y: i64,
    /// NORTH/SOUTH, in fixed-point units
    pub z: i64,
}

/// Whether every coordinate of the world position is within the
/// fixed-point arithmetic range.
pub open spec fn world_pos_in_bounds(p: WorldPos) -> bool {
    &&& -WORLD_COORD_LIMIT <= p.x <= WORLD_COORD_LIMIT
    &&& -WORLD_COORD_LIMIT <= p.y <= WORLD_COORD_LIMIT
    &&& -WORLD_COORD_LIMIT <= p.z <= WORLD_COORD_LIMIT
}

/// The world position of a block's minimum corner.
pub open spec fn spec_world_of_block(p: BlockPos) -> WorldPos {
    WorldPos {
        x: (p.x * UNITS_PER_BLOCK) as i64,
        y: (p.y * UNITS_PER_BLOCK) as i64,
        z: (p.z * UNITS_PER_BLOCK) as i64,
    }
}

/// The block containing a world position: each coordinate rounded down to
/// a whole block.
pub open spec fn spec_block_of_world(p: WorldPos) -> BlockPos {
    BlockPos {
        x: (p.x as int / UNITS_PER_BLOCK as int) as i64,
        y: (p.y as int / UNITS_PER_BLOCK as int) as i64,
        z: (p.z as int / UNITS_PER_BLOCK as int) as i64,
    }
}

impl WorldPos {
    /// The world position of the minimum corner of the block `p`.
    pub fn from_block_pos(p: BlockPos) -> (r: WorldPos)
        requires
            pos_in_bounds(p),
        ensures
            r == spec_world_of_block(p),
            world_pos_in_bounds(r),
    {
        WorldPos { x: p.x * UNITS_PER_BLOCK, y: p.y * UNITS_PER_BLOCK, z: p.z * UNITS_PER_BLOCK }
    }

    /// The block containing this world position (coordinates rounded
    /// down).
    pub fn to_block_pos(self) -> (r: BlockPos)
        requires
            world_pos_in_bounds(self),
        ensures
            r == spec_block_of_world(self),
    {
        BlockPos {
            x: floor_div(self.x, UNITS_PER_BLOCK),
            y: floor_div(self.y, UNITS_PER_BLOCK),
            z: floor_div(self.z, UNITS_PER_BLOCK),
        }
    }
}

/// One world coordinate converted from nether scale to overworld scale.
pub open spec fn spec_to_overworld_coord(v: int) -> int {
    v * 8
}

/// One world coordinate converted from overworld scale to nether scale,
/// rounded down to the fixed-point grid. The only consumer of a
/// converted position rounds down to whole blocks, and rounding down to
/// the grid first never changes that result.
pub open spec fn spec_to_nether_coord(v: int) -> int {
    v / 8
}

/// A world position converted between dimension coordinate scales: the
/// horizontal axes scale by the 1:8 factor, the vertical axis is kept.
pub open spec fn spec_convert_pos(p: WorldPos, from: Dimension, to: Dimension) -> WorldPos {
    match (from, to) {
        (Dimension::Overworld, Dimension::Nether) => WorldPos {
            x: spec_to_nether_coord(p.x as int) as i64,
            y: p.y,
            z: spec_to_nether_coord(p.z as int) as i64,
        },
        (Dimension::Nether, Dimension::Overworld) => WorldPos {
            x: spec_to_overworld_coord(p.x as int) as i64,
            y: p.y,
            z: spec_to_overworld_coord(p.z as int) as i64,
        },
        _ => p,
    }
}

impl WorldPos {
    /// Converts from nether coordinates to overworld coordinates: the
    /// horizontal axes are multiplied by the nether's scale factor.
    pub fn nether_to_overworld(self) -> (r: WorldPos)
        requires
            -WORLD_COORD_LIMIT / 8 <= self.x <= WORLD_COORD_LIMIT / 8,
            -WORLD_COORD_LIMIT / 8 <= self.z <= WORLD_COORD_LIMIT / 8,
            -WORLD_COORD_LIMIT <= self.y <= WORLD_COORD_LIMIT,
        ensures
            r == spec_convert_pos(self, Dimension::Nether, Dimension::Overworld),
            world_pos_in_bounds(r),
    {
        WorldPos { x: self.x * 8, y: self.y, z: self.z * 8 }
    }

    /// Converts from overworld coordinates to nether coordinates: the
    /// horizontal axes are divided by the nether's scale factor,
    /// rounding down to the fixed-point grid.
    pub fn overworld_to_nether(self) -> (r: WorldPos)
        requires
            world_pos_in_bounds(self),
        ensures
            r == spec_convert_pos(self, Dimension::Overworld, Dimension::Nether),
            world_pos_in_bounds(r),
    {
        WorldPos { x: floor_div(self.x, 8), y: self.y, z: floor_div(self.z, 8) }
    }

    /// Converts coordinates from one dimension to another.
    pub fn convert_dimension(self, from: Dimension, to: Dimension) -> (r: WorldPos)
        requires
            -WORLD_COORD_LIMIT / 8 <= self.x <= WORLD_COORD_LIMIT / 8,
            -WORLD_COORD_LIMIT / 8 <= self.z <= WORLD_COORD_LIMIT / 8,
            -WORLD_COORD_LIMIT <= self.y <= WORLD_COORD_LIMIT,
        ensures
            r == spec_convert_pos(self, from, to),
            world_pos_in_bounds(r),
    {
        match (from, to) {
            (Dimension::Overworld, Dimension::Overworld) => self,
            (Dimension::Overworld, Dimension::Nether) => self.overworld_to_nether(),
            (Dimension::Nether, Dimension::Overworld) => self.nether_to_overworld(),
            (Dimension::Nether, Dimension::Nether) => self,
        }
    }
}

/// The flooring divisions of this library shift their dividend by this
/// amount to stay non-negative; it is a multiple of every divisor used.
pub const FLOOR_DIV_SHIFT: u64 = 2_000_000_000_000;

/// Floor division of `a` by the small positive divisor `b`, exact on the
/// whole allowed range; the spec-level `/` rounds toward negative
/// infinity for a positive divisor.
pub fn floor_div(a: i64, b: i64) -> (r: i64)
    requires
        1 <= b <= 1000,
        FLOOR_DIV_SHIFT as int % (b as int) == 0,
        -WORLD_COORD_LIMIT * 8 <= a <= WORLD_COORD_LIMIT * 8,
    ensures
        r == a as int / b as int,
{
    let shifted: u64 = (a + (FLOOR_DIV_SHIFT as i64)) as u64;
    let q: u64 = shifted / (b as u64);
    let base: u64 = FLOOR_DIV_SHIFT / (b as u64);
    proof {
        let bi = b as int;
        let k = FLOOR_DIV_SHIFT as int / bi;
        lemma_fundamental_div_mod(FLOOR_DIV_SHIFT as int, bi);
        assert(FLOOR_DIV_SHIFT as int == k * bi);
        lemma_hoist_over_denominator(a as int, k, b as nat);
        assert(a as int / bi + k == (a as int + k * bi) / bi);
        lemma_div_by_multiple(k, bi);
    }
    q as i64 - base as i64
}

} // verus!
