//! Portals: an axis-aligned rectangular opening owning a block region,
//! with the geometry that decides where an entity can trigger
//! teleportation.

use vstd::prelude::*;

use crate::entity::Entity;
use crate::id::PortalId;
use crate::pos::{
    axis_coord, pos_in_bounds, spec_block_of_world, with_axis, Axis, BlockPos, WorldPos, MAX_COORD,
    UNITS_PER_BLOCK,
};
use crate::region::{
    gap_to_interval, lemma_gap_bounds, max_range_distance, spec_convert_region,
    spec_world_region_of_block, BlockRegion, WorldRegion,
};
use crate::world::Dimension;

verus! {

/// Minimum width of a portal, in blocks.
pub const MIN_WIDTH: i64 = 2;

/// Minimum height of a portal, in blocks.
pub const MIN_HEIGHT: i64 = 3;

/// Horizontal axis perpendicular to a portal's surface.
#[derive(Debug, Copy, Clone, PartialEq, Eq, Hash, Structural)]
pub enum PortalAxis {
    /// The portal is entered from east/west; portal width is along
    /// north/south (Z axis).
    X,
    /// The portal is entered from north/south; portal width is along
    /// east/west (X axis).
    Z,
}

impl PortalAxis {
    /// Returns the other horizontal axis.
    pub fn other(self) -> (r: PortalAxis)
        ensures
            r == self.spec_other(),
    {
        match self {
            PortalAxis::X => PortalAxis::Z,
            PortalAxis::Z => PortalAxis::X,
        }
    }

    /// The other horizontal axis.
    pub open spec fn spec_other(self) -> PortalAxis {
        match self {
            PortalAxis::X => PortalAxis::Z,
            PortalAxis::Z => PortalAxis::X,
        }
    }

    /// The world axis this portal axis stands for.
    pub open spec fn spec_axis(self) -> Axis {
        match self {
            PortalAxis::X => Axis::X,
            PortalAxis::Z => Axis::Z,
        }
    }

    /// Returns the world axis this portal axis stands for.
    pub fn axis(self) -> (r: Axis)
        ensures
            r == self.spec_axis(),
    {
        match self {
            PortalAxis::X => Axis::X,
            PortalAxis::Z => Axis::Z,
        }
    }
}

/// Portal in an unspecified dimension.
#[derive(Debug, PartialEq, Eq, Hash)]
pub struct Portal {
    /// Unique ID for the portal.
    pub id: PortalId,
    /// Human-friendly name of the portal.
    pub name: String,
    /// Color used to represent the portal in the UI.
    pub color: [u8; 3],
    /// Region filled with portal blocks in the source dimension.
    pub region: BlockRegion,
    /// Portal axis (opposite from what the game says).
    pub axis: PortalAxis,
}

impl Portal {
    /// The axis of the width of the portal.
    pub open spec fn spec_width_axis(self) -> Axis {
        self.axis.spec_other().spec_axis()
    }

    /// The axis of the depth of the portal.
    pub open spec fn spec_depth_axis(self) -> Axis {
        self.axis.spec_axis()
    }

    /// Horizontal validity: at least the minimal width, a non-empty
    /// depth, and the minimum corner small enough on the horizontal axes
    /// that widening arithmetic cannot wrap.
    pub open spec fn horizontal_ok(self) -> bool {
        &&& axis_coord(self.region.min, self.spec_width_axis()) + (MIN_WIDTH - 1) <= axis_coord(
            self.region.max,
            self.spec_width_axis(),
        )
        &&& axis_coord(self.region.min, self.spec_depth_axis()) <= axis_coord(
            self.region.max,
            self.spec_depth_axis(),
        )
        &&& self.region.min.x < i64::MAX
        &&& self.region.min.z < i64::MAX
    }

    /// Vertical validity in `dimension`: at least the minimal height and
    /// the whole frame within the dimension's vertical placement range
    /// (one block is left above and below for the obsidian frame).
    pub open spec fn vertical_ok(self, dimension: Dimension) -> bool {
        &&& self.region.min.y + (MIN_HEIGHT - 1) <= self.region.max.y
        &&& dimension.spec_y_min() + 1 <= self.region.min.y
        &&& self.region.max.y <= dimension.spec_y_max() - 1
    }

    /// Validity of a portal placed in `dimension`.
    pub open spec fn wf(self, dimension: Dimension) -> bool {
        self.horizontal_ok() && self.vertical_ok(dimension)
    }

    /// Returns the axis of the width of the portal.
    pub fn width_axis(&self) -> (r: Axis)
        ensures
            r == self.spec_width_axis(),
    {
        self.axis.other().axis()
    }

    /// Returns the axis of the depth of the portal.
    pub fn depth_axis(&self) -> (r: Axis)
        ensures
            r == self.spec_depth_axis(),
    {
        self.axis.axis()
    }

    /// Returns a nonempty human-friendly name for the portal.
    pub fn display_name(&self) -> (r: &str)
        ensures
            self.name@.len() == 0 ==> r@ == "<unnamed>"@,
            self.name@.len() != 0 ==> r@ == self.name@,
    {
        if self.name.as_str().is_empty() {
            "<unnamed>"
        } else {
            self.name.as_str()
        }
    }

    /// Constructs a new portal at `pos` of the smallest possible size.
    ///
    /// The bottom of the frame is lowered if needed so that a minimal
    /// portal still fits under the dimension's build height; the result
    /// is a well-formed portal whenever `pos.y` is at least one block
    /// above the dimension's floor.
    pub fn new_minimal(id: PortalId, pos: BlockPos, axis: PortalAxis, dimension: Dimension) -> (r:
        Portal)
        requires
            pos_in_bounds(pos),
        ensures
            r.id == id,
            r.name@.len() == 0,
            r.color == [127u8, 127u8, 127u8],
            r.axis == axis,
            r.region == spec_minimal_region(pos, axis, dimension),
            pos.y >= dimension.spec_y_min() + 1 ==> r.wf(dimension),
    {
        let top_min_y = dimension.y_max() - MIN_HEIGHT;
        let min_y = if pos.y <= top_min_y {
            pos.y
        } else {
            top_min_y
        };
        let dw = MIN_WIDTH - 1;
        let r = Portal {
            id,
            name: String::new(),
            color: [127, 127, 127],
            region: BlockRegion {
                min: BlockPos { x: pos.x, y: min_y, z: pos.z },
                max: BlockPos {
                    x: pos.x + if axis != PortalAxis::X { dw } else { 0 },
                    y: min_y + (MIN_HEIGHT - 1),
                    z: pos.z + if axis != PortalAxis::Z { dw } else { 0 },
                },
            },
            axis,
        };
        r
    }

    /// Constructs a portal from a region for testing. The axis is
    /// inferred from the size, which is assumed to be a valid portal
    /// size: the region must be flat along one horizontal axis.
    pub fn new_test(id: PortalId, region: BlockRegion) -> (r: Portal)
        requires
            region.min.x == region.max.x || region.min.z == region.max.z,
        ensures
            r.id == id,
            r.region == region,
            r.axis == (if region.min.x == region.max.x { PortalAxis::X } else { PortalAxis::Z }),
    {
        let axis = if region.min.x == region.max.x {
            PortalAxis::X
        } else {
            PortalAxis::Z
        };
        Portal { id, name: String::new(), color: [0, 0, 0], region, axis }
    }

    /// The world-coordinate volume in which an entity's position makes it
    /// collide with the portal, before validity is checked.
    ///
    /// Starting from the portal's blocks in world coordinates, the volume
    /// grows by half the entity's width on both horizontal axes (the
    /// entity's position is its hitbox center). A projectile may
    /// additionally enter from below by its own height. Anything else
    /// must stand bodily inside the frame: the volume shrinks by the full
    /// entity width along the width axis and by the entity height at the
    /// top.
    pub open spec fn spec_collision_region(self, entity: Entity) -> WorldRegion {
        let hw = entity.half_width as int;
        let h = entity.height as int;
        let b = spec_world_region_of_block(self.region);
        let min_x = b.min.x - hw;
        let max_x = b.max.x + hw;
        let min_z = b.min.z - hw;
        let max_z = b.max.z + hw;
        if entity.is_projectile {
            WorldRegion {
                min: WorldPos {
                    x: min_x as i64,
                    y: (b.min.y - h) as i64,
                    z: min_z as i64,
                },
                max: WorldPos { x: max_x as i64, y: b.max.y, z: max_z as i64 },
            }
        } else {
            match self.axis {
                PortalAxis::X => WorldRegion {
                    min: WorldPos {
                        x: min_x as i64,
                        y: b.min.y,
                        z: (min_z + 2 * hw) as i64,
                    },
                    max: WorldPos {
                        x: max_x as i64,
                        y: (b.max.y - h) as i64,
                        z: (max_z - 2 * hw) as i64,
                    },
                },
                PortalAxis::Z => WorldRegion {
                    min: WorldPos {
                        x: (min_x + 2 * hw) as i64,
                        y: b.min.y,
                        z: min_z as i64,
                    },
                    max: WorldPos {
                        x: (max_x - 2 * hw) as i64,
                        y: (b.max.y - h) as i64,
                        z: max_z as i64,
                    },
                },
            }
        }
    }

    /// Returns the region where an entity can collide with the portal and
    /// thus be teleported using it.
    ///
    /// Returns `None` if the entity won't fit in the portal.
    pub fn entity_collision_region(&self, entity: Entity) -> (r: Option<WorldRegion>)
        requires
            self.region.in_bounds(),
            entity.valid(),
        ensures
            self.spec_collision_region(entity).spec_valid() ==> r == Some(
                self.spec_collision_region(entity),
            ),
            !self.spec_collision_region(entity).spec_valid() ==> r is None,
            r is Some ==> (r->0).in_bounds(),
    {
        let b = WorldRegion::from_block_region(self.region);
        let hw = entity.half_width;
        let h = entity.height;
        let mut result = b;
        result.min.x = result.min.x - hw;
        result.min.z = result.min.z - hw;
        result.max.x = result.max.x + hw;
        result.max.z = result.max.z + hw;
        if entity.is_projectile {
            result.min.y = result.min.y - h;
        } else {
            match self.width_axis() {
                Axis::X => {
                    result.min.x = result.min.x + 2 * hw;
                    result.max.x = result.max.x - 2 * hw;
                },
                Axis::Y => {
                    // The width axis is always horizontal.
                    assert(false);
                },
                Axis::Z => {
                    result.min.z = result.min.z + 2 * hw;
                    result.max.z = result.max.z - 2 * hw;
                },
            }
            result.max.y = result.max.y - h;
        }
        if result.is_valid() {
            Some(result)
        } else {
            None
        }
    }

    /// The destination search volume: the collision volume converted to
    /// the destination dimension's scale and rounded outward to whole
    /// blocks, or nothing when the entity cannot fit.
    pub open spec fn spec_destination_region(
        self,
        entity: Entity,
        destination_dimension: Dimension,
    ) -> Option<BlockRegion> {
        let c = self.spec_collision_region(entity);
        if c.spec_valid() {
            Some(
                BlockRegion {
                    min: spec_block_of_world(
                        spec_convert_region(
                            c,
                            destination_dimension.spec_other(),
                            destination_dimension,
                        ).min,
                    ),
                    max: spec_block_of_world(
                        spec_convert_region(
                            c,
                            destination_dimension.spec_other(),
                            destination_dimension,
                        ).max,
                    ),
                },
            )
        } else {
            None
        }
    }

    /// Returns the region where an entity may try to arrive.
    /// `destination_dimension` is the dimension the portal leads to,
    /// _not_ the one it is in.
    pub fn destination_region(&self, entity: Entity, destination_dimension: Dimension) -> (r:
        Option<BlockRegion>)
        requires
            self.region.in_bounds(),
            entity.valid(),
        ensures
            r == self.spec_destination_region(entity, destination_dimension),
    {
        match self.entity_collision_region(entity) {
            None => None,
            Some(collision) => {
                let converted = collision.convert_dimension(
                    destination_dimension.other(),
                    destination_dimension,
                );
                Some(converted.block_region_containing())
            },
        }
    }
}

impl Portal {
    /// Moves the minimum corner of the portal to `new_min`, then repairs
    /// the portal so it stays well formed. With `lock_size` the extents
    /// are preserved exactly; otherwise the maximum corner is pushed only
    /// as far as needed.
    pub fn adjust_min(&mut self, new_min: BlockPos, lock_size: bool, dimension: Dimension)
        requires
            old(self).wf(dimension),
            pos_in_bounds(new_min),
        ensures
            final(self).id == old(self).id,
            final(self).name == old(self).name,
            final(self).color == old(self).color,
            final(self).axis == old(self).axis,
            final(self).region == spec_adjusted_min(*old(self), new_min, lock_size, dimension),
            final(self).wf(dimension),
    {
        let w = self.width_axis();
        let d = self.depth_axis();
        let dw = sat_sub_i64(self.region.max.on_axis(w), self.region.min.on_axis(w));
        let dd = sat_sub_i64(self.region.max.on_axis(d), self.region.min.on_axis(d));
        let dh = sat_sub_i64(self.region.max.y, self.region.min.y);

        self.region.min = new_min;

        // Leave enough room for the old height.
        let lowest = dimension.y_min() + 1;
        let mut highest = dimension.y_max() - 1 - dh;
        if highest < lowest {
            highest = lowest;
        }
        let mut my = self.region.min.y;
        if my < lowest {
            my = lowest;
        }
        if my > highest {
            my = highest;
        }
        self.region.min.y = my;

        if lock_size {
            let vw = sat_add_i64(self.region.min.on_axis(w), dw);
            self.region.max.set_on_axis(w, vw);
            let vy = sat_add_i64(self.region.min.y, dh);
            self.region.max.y = vy;
            let vd = sat_add_i64(self.region.min.on_axis(d), dd);
            self.region.max.set_on_axis(d, vd);
        } else {
            let mw = sat_add_i64(self.region.min.on_axis(w), MIN_WIDTH - 1);
            if self.region.max.on_axis(w) < mw {
                self.region.max.set_on_axis(w, mw);
            }
            let mh = sat_add_i64(self.region.min.y, MIN_HEIGHT - 1);
            if self.region.max.y < mh {
                self.region.max.y = mh;
            }
            if self.region.max.on_axis(d) < self.region.min.on_axis(d) {
                let vd = self.region.min.on_axis(d);
                self.region.max.set_on_axis(d, vd);
            }
        }
    }

    /// Moves the maximum corner of the portal to `new_max`, then repairs
    /// the portal so it stays well formed. With `lock_size` the extents
    /// are preserved exactly; otherwise the minimum corner is pulled only
    /// as far as needed.
    pub fn adjust_max(&mut self, new_max: BlockPos, lock_size: bool, dimension: Dimension)
        requires
            old(self).wf(dimension),
            pos_in_bounds(new_max),
        ensures
            final(self).id == old(self).id,
            final(self).name == old(self).name,
            final(self).color == old(self).color,
            final(self).axis == old(self).axis,
            final(self).region == spec_adjusted_max(*old(self), new_max, lock_size, dimension),
            final(self).wf(dimension),
    {
        let w = self.width_axis();
        let d = self.depth_axis();
        let dw = sat_sub_i64(self.region.max.on_axis(w), self.region.min.on_axis(w));
        let dd = sat_sub_i64(self.region.max.on_axis(d), self.region.min.on_axis(d));
        let dh = sat_sub_i64(self.region.max.y, self.region.min.y);

        self.region.max = new_max;

        // Leave enough room for the old height.
        let highest = dimension.y_max() - 1;
        let mut lowest = dimension.y_min() + 1 + dh;
        if lowest > highest {
            lowest = highest;
        }
        let mut my = self.region.max.y;
        if my < lowest {
            my = lowest;
        }
        if my > highest {
            my = highest;
        }
        self.region.max.y = my;

        if lock_size {
            let vw = sat_sub_i64(self.region.max.on_axis(w), dw);
            self.region.min.set_on_axis(w, vw);
            let vd = sat_sub_i64(self.region.max.on_axis(d), dd);
            self.region.min.set_on_axis(d, vd);
            let vy = sat_sub_i64(self.region.max.y, dh);
            self.region.min.y = vy;
        } else {
            let mw = sat_sub_i64(self.region.max.on_axis(w), MIN_WIDTH - 1);
            if self.region.min.on_axis(w) > mw {
                self.region.min.set_on_axis(w, mw);
            }
            if self.region.min.on_axis(d) > self.region.max.on_axis(d) {
                let vd = self.region.max.on_axis(d);
                self.region.min.set_on_axis(d, vd);
            }
            let mh = sat_sub_i64(self.region.max.y, MIN_HEIGHT - 1);
            if self.region.min.y > mh {
                self.region.min.y = mh;
            }
        }
    }

    /// Sets the width of the portal to `new_width` blocks (at least the
    /// minimum width), keeping the minimum corner in place.
    pub fn adjust_width(&mut self, new_width: i64)
        requires
            old(self).horizontal_ok(),
        ensures
            final(self).id == old(self).id,
            final(self).name == old(self).name,
            final(self).color == old(self).color,
            final(self).axis == old(self).axis,
            final(self).region == spec_adjusted_width(*old(self), new_width),
            final(self).horizontal_ok(),
            forall|dim: Dimension| old(self).wf(dim) ==> final(self).wf(dim),
            // Within the coordinate machine limits the saturating
            // arithmetic never bites, and the requested width is taken
            // exactly (clamped up to the minimum).
            -MAX_COORD <= axis_coord(old(self).region.min, old(self).spec_width_axis())
                <= MAX_COORD && new_width <= MAX_COORD ==> axis_coord(
                final(self).region.max,
                final(self).spec_width_axis(),
            ) + 1 - axis_coord(final(self).region.min, final(self).spec_width_axis()) == (
            if new_width < MIN_WIDTH {
                MIN_WIDTH as int
            } else {
                new_width as int
            }),
    {
        let w = self.width_axis();
        let width = if new_width < MIN_WIDTH {
            MIN_WIDTH
        } else {
            new_width
        };
        let vw = sat_add_i64(self.region.min.on_axis(w), width - 1);
        self.region.max.set_on_axis(w, vw);
    }

    /// Sets the height of the portal to `new_height` blocks (at least
    /// the minimum height), keeping the bottom in place where possible;
    /// a portal that would poke above the dimension's build limit is
    /// shifted down instead.
    pub fn adjust_height(&mut self, new_height: i64, dimension: Dimension)
        requires
            old(self).wf(dimension),
        ensures
            final(self).id == old(self).id,
            final(self).name == old(self).name,
            final(self).color == old(self).color,
            final(self).axis == old(self).axis,
            final(self).region == spec_adjusted_height(*old(self), new_height, dimension),
            final(self).wf(dimension),
    {
        let height = if new_height < MIN_HEIGHT {
            MIN_HEIGHT
        } else {
            new_height
        };
        let vy = sat_add_i64(self.region.min.y, height - 1);
        self.region.max.y = vy;
        let top = dimension.y_max() - 1;
        if self.region.max.y > top {
            let excess = self.region.max.y - top;
            self.region.max.y = self.region.max.y - excess;
            self.region.min.y = self.region.min.y - excess;
            let bottom = dimension.y_min() + 1;
            if self.region.min.y < bottom {
                self.region.min.y = bottom;
            }
        }
    }

    /// Turns the portal to face `new_axis`, preserving the numeric width
    /// along the new width axis and flattening the new depth axis.
    pub fn adjust_axis(&mut self, new_axis: PortalAxis)
        requires
            old(self).horizontal_ok(),
        ensures
            final(self).id == old(self).id,
            final(self).name == old(self).name,
            final(self).color == old(self).color,
            final(self).axis == new_axis,
            final(self).region == spec_adjusted_axis(*old(self), new_axis),
            final(self).horizontal_ok(),
            forall|dim: Dimension| old(self).wf(dim) ==> final(self).wf(dim),
    {
        let w_old = self.width_axis();
        let dw = sat_sub_i64(self.region.max.on_axis(w_old), self.region.min.on_axis(w_old));

        self.axis = new_axis;

        let w = self.width_axis();
        let d = self.depth_axis();
        let vw = sat_add_i64(self.region.min.on_axis(w), dw);
        self.region.max.set_on_axis(w, vw);
        let vd = self.region.min.on_axis(d);
        self.region.max.set_on_axis(d, vd);
    }
}

impl Portal {
    /// Whether the game's portal search, started at `pos`, can see this
    /// portal: the horizontal distance from `pos` to the portal's blocks
    /// is at most the dimension's search range. The Y axis is ignored.
    pub open spec fn spec_in_range_of_point(self, pos: BlockPos, dimension: Dimension) -> bool {
        let r = dimension.spec_portal_search_range();
        &&& self.region.min.x - r <= pos.x <= self.region.max.x + r
        &&& self.region.min.z - r <= pos.z <= self.region.max.z + r
    }

    /// Returns whether `self` is within the portal search range for
    /// `pos`.
    pub fn is_in_range_of_point(&self, pos: BlockPos, dimension: Dimension) -> (b: bool)
        requires
            self.region.in_bounds(),
            pos_in_bounds(pos),
        ensures
            b == self.spec_in_range_of_point(pos, dimension),
    {
        // Ignore Y axis
        let r = dimension.portal_search_range();
        self.region.min.x - r <= pos.x && pos.x <= self.region.max.x + r
            && self.region.min.z - r <= pos.z && pos.z <= self.region.max.z + r
    }

    /// Whether some point of `region` is within search range of this
    /// portal.
    pub open spec fn spec_in_range_of_region(self, region: BlockRegion, dimension: Dimension) -> bool {
        exists|p: BlockPos|
            #[trigger] region.contains_point(p) && self.spec_in_range_of_point(p, dimension)
    }

    /// Whether every point of `region` is within search range of this
    /// portal.
    pub open spec fn spec_always_in_range_of_region(
        self,
        region: BlockRegion,
        dimension: Dimension,
    ) -> bool {
        forall|p: BlockPos|
            #[trigger] region.contains_point(p) ==> self.spec_in_range_of_point(p, dimension)
    }

    /// Returns whether `self` is within the portal search range for
    /// **any** point in `region`.
    pub fn is_in_range_of_region(&self, region: BlockRegion, dimension: Dimension) -> (b: bool)
        requires
            self.region.in_bounds(),
            self.region.valid(),
            region.in_bounds(),
            region.valid(),
        ensures
            b == self.spec_in_range_of_region(region, dimension),
    {
        // Ignore Y axis
        let r = dimension.portal_search_range();
        let b = self.region.min.x <= region.max.x + r && self.region.min.z <= region.max.z + r
            && self.region.max.x >= region.min.x - r && self.region.max.z >= region.min.z - r;
        proof {
            if b {
                let wx: i64 = if region.min.x >= self.region.min.x - r {
                    region.min.x
                } else {
                    (self.region.min.x - r) as i64
                };
                let wz: i64 = if region.min.z >= self.region.min.z - r {
                    region.min.z
                } else {
                    (self.region.min.z - r) as i64
                };
                let p = BlockPos { x: wx, y: region.min.y, z: wz };
                assert(region.contains_point(p) && self.spec_in_range_of_point(p, dimension));
            }
        }
        b
    }

    /// Returns whether `self` is within the portal search range for
    /// **all** points in `region`.
    pub fn is_always_in_range_of_region(&self, region: BlockRegion, dimension: Dimension) -> (b:
        bool)
        requires
            self.region.in_bounds(),
            self.region.valid(),
            region.in_bounds(),
            region.valid(),
        ensures
            b == self.spec_always_in_range_of_region(region, dimension),
    {
        // Ignore Y axis
        let r = dimension.portal_search_range();
        let gx = max_range_distance(region.min.x, region.max.x, self.region.min.x, self.region.max.x);
        let gz = max_range_distance(region.min.z, region.max.z, self.region.min.z, self.region.max.z);
        let b = gx <= r && gz <= r;
        proof {
            if b {
                assert forall|p: BlockPos| region.contains_point(p) implies self.spec_in_range_of_point(
                    p,
                    dimension,
                ) by {
                    lemma_gap_bounds(
                        region.min.x as int,
                        region.max.x as int,
                        self.region.min.x as int,
                        self.region.max.x as int,
                        p.x as int,
                    );
                    lemma_gap_bounds(
                        region.min.z as int,
                        region.max.z as int,
                        self.region.min.z as int,
                        self.region.max.z as int,
                        p.z as int,
                    );
                }
            } else {
                let wx: i64 = if gap_to_interval(
                    self.region.min.x as int,
                    self.region.max.x as int,
                    region.min.x as int,
                ) >= gap_to_interval(
                    self.region.min.x as int,
                    self.region.max.x as int,
                    region.max.x as int,
                ) {
                    region.min.x
                } else {
                    region.max.x
                };
                let wz: i64 = if gap_to_interval(
                    self.region.min.z as int,
                    self.region.max.z as int,
                    region.min.z as int,
                ) >= gap_to_interval(
                    self.region.min.z as int,
                    self.region.max.z as int,
                    region.max.z as int,
                ) {
                    region.min.z
                } else {
                    region.max.z
                };
                let p = BlockPos { x: wx, y: region.min.y, z: wz };
                assert(region.contains_point(p) && !self.spec_in_range_of_point(p, dimension));
            }
        }
        b
    }
}

/// The value `v` clipped to the range of `i64`: the result of a
/// saturating operation whose exact result is `v`.
pub open spec fn spec_clip(v: int) -> int {
    if v > i64::MAX as int {
        i64::MAX as int
    } else if v < i64::MIN as int {
        i64::MIN as int
    } else {
        v
    }
}

/// Saturating addition on `i64`.
fn sat_add_i64(a: i64, b: i64) -> (r: i64)
    ensures
        r == spec_clip(a + b),
{
    match a.checked_add(b) {
        Some(v) => v,
        None => if b >= 0 {
            i64::MAX
        } else {
            i64::MIN
        },
    }
}

/// Saturating subtraction on `i64`.
fn sat_sub_i64(a: i64, b: i64) -> (r: i64)
    ensures
        r == spec_clip(a - b),
{
    match a.checked_sub(b) {
        Some(v) => v,
        None => if b >= 0 {
            i64::MIN
        } else {
            i64::MAX
        },
    }
}

/// The region of a portal after `adjust_min` moved its minimum corner to
/// `new_min`.
pub open spec fn spec_adjusted_min(
    p: Portal,
    new_min: BlockPos,
    lock_size: bool,
    dimension: Dimension,
) -> BlockRegion {
    let w = p.spec_width_axis();
    let d = p.spec_depth_axis();
    let dw = spec_clip(axis_coord(p.region.max, w) - axis_coord(p.region.min, w));
    let dd = spec_clip(axis_coord(p.region.max, d) - axis_coord(p.region.min, d));
    let dh = spec_clip(p.region.max.y - p.region.min.y);
    let lowest = dimension.spec_y_min() + 1;
    let highest0 = dimension.spec_y_max() - 1 - dh;
    let highest = if highest0 < lowest {
        lowest
    } else {
        highest0
    };
    let my0 = new_min.y as int;
    let my1 = if my0 < lowest {
        lowest
    } else {
        my0
    };
    let my = if my1 > highest {
        highest
    } else {
        my1
    };
    let min1 = BlockPos { x: new_min.x, y: my as i64, z: new_min.z };
    let max0 = p.region.max;
    if lock_size {
        let max1 = with_axis(max0, w, spec_clip(axis_coord(min1, w) + dw) as i64);
        let max2 = with_axis(max1, Axis::Y, spec_clip(my + dh) as i64);
        let max3 = with_axis(max2, d, spec_clip(axis_coord(min1, d) + dd) as i64);
        BlockRegion { min: min1, max: max3 }
    } else {
        let mw = spec_clip(axis_coord(min1, w) + (MIN_WIDTH - 1));
        let max1 = if axis_coord(max0, w) < mw {
            with_axis(max0, w, mw as i64)
        } else {
            max0
        };
        let mh = spec_clip(my + (MIN_HEIGHT - 1));
        let max2 = if max1.y < mh {
            with_axis(max1, Axis::Y, mh as i64)
        } else {
            max1
        };
        let max3 = if axis_coord(max2, d) < axis_coord(min1, d) {
            with_axis(max2, d, axis_coord(min1, d) as i64)
        } else {
            max2
        };
        BlockRegion { min: min1, max: max3 }
    }
}

/// The region of a portal after `adjust_max` moved its maximum corner to
/// `new_max`.
pub open spec fn spec_adjusted_max(
    p: Portal,
    new_max: BlockPos,
    lock_size: bool,
    dimension: Dimension,
) -> BlockRegion {
    let w = p.spec_width_axis();
    let d = p.spec_depth_axis();
    let dw = spec_clip(axis_coord(p.region.max, w) - axis_coord(p.region.min, w));
    let dd = spec_clip(axis_coord(p.region.max, d) - axis_coord(p.region.min, d));
    let dh = spec_clip(p.region.max.y - p.region.min.y);
    let highest = dimension.spec_y_max() - 1;
    let lowest0 = dimension.spec_y_min() + 1 + dh;
    let lowest = if lowest0 > highest {
        highest
    } else {
        lowest0
    };
    let my0 = new_max.y as int;
    let my1 = if my0 < lowest {
        lowest
    } else {
        my0
    };
    let my = if my1 > highest {
        highest
    } else {
        my1
    };
    let max1 = BlockPos { x: new_max.x, y: my as i64, z: new_max.z };
    let min0 = p.region.min;
    if lock_size {
        let min1 = with_axis(min0, w, spec_clip(axis_coord(max1, w) - dw) as i64);
        let min2 = with_axis(min1, d, spec_clip(axis_coord(max1, d) - dd) as i64);
        let min3 = with_axis(min2, Axis::Y, spec_clip(my - dh) as i64);
        BlockRegion { min: min3, max: max1 }
    } else {
        let mw = spec_clip(axis_coord(max1, w) - (MIN_WIDTH - 1));
        let min1 = if axis_coord(min0, w) > mw {
            with_axis(min0, w, mw as i64)
        } else {
            min0
        };
        let min2 = if axis_coord(min1, d) > axis_coord(max1, d) {
            with_axis(min1, d, axis_coord(max1, d) as i64)
        } else {
            min1
        };
        let mh = spec_clip(my - (MIN_HEIGHT - 1));
        let min3 = if min2.y > mh {
            with_axis(min2, Axis::Y, mh as i64)
        } else {
            min2
        };
        BlockRegion { min: min3, max: max1 }
    }
}

/// The region of a portal after `adjust_width` set its width.
pub open spec fn spec_adjusted_width(p: Portal, new_width: i64) -> BlockRegion {
    let w = p.spec_width_axis();
    let width = if new_width < MIN_WIDTH {
        MIN_WIDTH as int
    } else {
        new_width as int
    };
    BlockRegion {
        min: p.region.min,
        max: with_axis(p.region.max, w, spec_clip(axis_coord(p.region.min, w) + width - 1) as i64),
    }
}

/// The region of a portal after `adjust_height` set its height.
pub open spec fn spec_adjusted_height(p: Portal, new_height: i64, dimension: Dimension) -> BlockRegion {
    let height = if new_height < MIN_HEIGHT {
        MIN_HEIGHT as int
    } else {
        new_height as int
    };
    let vy = spec_clip(p.region.min.y + height - 1);
    let top = dimension.spec_y_max() - 1;
    if vy > top {
        let excess = vy - top;
        let my0 = p.region.min.y - excess;
        let bottom = dimension.spec_y_min() + 1;
        let my = if my0 < bottom {
            bottom
        } else {
            my0
        };
        BlockRegion {
            min: with_axis(p.region.min, Axis::Y, my as i64),
            max: with_axis(p.region.max, Axis::Y, top as i64),
        }
    } else {
        BlockRegion { min: p.region.min, max: with_axis(p.region.max, Axis::Y, vy as i64) }
    }
}

/// The region of a portal after `adjust_axis` turned it to face
/// `new_axis`.
pub open spec fn spec_adjusted_axis(p: Portal, new_axis: PortalAxis) -> BlockRegion {
    let w_old = p.spec_width_axis();
    let dw = spec_clip(axis_coord(p.region.max, w_old) - axis_coord(p.region.min, w_old));
    let turned = Portal { axis: new_axis, ..p };
    let w = turned.spec_width_axis();
    let d = turned.spec_depth_axis();
    let max1 = with_axis(p.region.max, w, spec_clip(axis_coord(p.region.min, w) + dw) as i64);
    let max2 = with_axis(max1, d, axis_coord(p.region.min, d) as i64);
    BlockRegion { min: p.region.min, max: max2 }
}

/// The block region of a freshly created minimal portal at `pos`.

/// The entity-fit boundary for standing entities: the collision volume
/// exists exactly when the entity's full width is at most the portal
/// opening's width and its height at most the opening's height. In
/// particular, an entity wider than the opening has no teleport
/// geometry, and one just narrower (and short enough) does.
pub proof fn lemma_entity_fit(p: Portal, e: Entity)
    requires
        p.region.valid(),
        p.region.in_bounds(),
        e.valid(),
        !e.is_projectile,
    ensures
        p.spec_collision_region(e).spec_valid() <==> (2 * e.half_width <= UNITS_PER_BLOCK * (
        axis_coord(p.region.max, p.spec_width_axis()) + 1 - axis_coord(
            p.region.min,
            p.spec_width_axis(),
        )) && e.height <= UNITS_PER_BLOCK * (p.region.max.y + 1 - p.region.min.y)),
{
    if p.axis == PortalAxis::X {
        assert(p.spec_width_axis() == Axis::Z);
    } else {
        assert(p.spec_width_axis() == Axis::X);
    }
}

/// A projectile always has a collision volume: it only widens the
/// portal's own volume, entering low through the frame if need be.
pub proof fn lemma_projectile_always_fits(p: Portal, e: Entity)
    requires
        p.region.valid(),
        p.region.in_bounds(),
        e.valid(),
        e.is_projectile,
    ensures
        p.spec_collision_region(e).spec_valid(),
{
}

/// The block region of a freshly created minimal portal at `pos`.
pub open spec fn spec_minimal_region(pos: BlockPos, axis: PortalAxis, dimension: Dimension) -> BlockRegion {
    let min_y = if pos.y <= dimension.spec_y_max() - MIN_HEIGHT {
        pos.y as int
    } else {
        dimension.spec_y_max() - MIN_HEIGHT
    };
    BlockRegion {
        min: BlockPos { x: pos.x, y: min_y as i64, z: pos.z },
        max: BlockPos {
            x: (pos.x + if axis != PortalAxis::X { MIN_WIDTH - 1 } else { 0 }) as i64,
            y: (min_y + (MIN_HEIGHT - 1)) as i64,
            z: (pos.z + if axis != PortalAxis::Z { MIN_WIDTH - 1 } else { 0 }) as i64,
        },
    }
}

} // verus!
