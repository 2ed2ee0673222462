//! Entity hitbox descriptions.

use vstd::prelude::*;

verus! {

/// Largest half-width or height an entity may have, in fixed-point world
/// units.
pub const ENTITY_SIZE_LIMIT: i64 = 400_000;

/// Description of an entity's hitbox, in fixed-point world units of
/// `1 / UNITS_PER_BLOCK` blocks.
///
/// An entity's position is at the bottom center of its hitbox.
#[derive(Debug, Copy, Clone, PartialEq, Eq, Hash, Structural)]
pub struct Entity {
    /// Half the width of the entity's hitbox along the X and Z axes.
    pub half_width: i64,
    /// Height of the entity's hitbox along the Y axis.
    pub height: i64,
    /// Whether the entity is a projectile, in which case it is possible to
    /// clip into the portal frame.
    pub is_projectile: bool,
}

impl Entity {
    /// Non-negative and small enough for the fixed-point arithmetic.
    pub open spec fn valid(self) -> bool {
        &&& 0 <= self.half_width <= ENTITY_SIZE_LIMIT
        &&& 0 <= self.height <= ENTITY_SIZE_LIMIT
    }

    /// Returns whether the hitbox is non-negative and small enough for
    /// the fixed-point arithmetic.
    pub fn is_valid(&self) -> (r: bool)
        ensures
            r == self.valid(),
    {
        0 <= self.half_width && self.half_width <= ENTITY_SIZE_LIMIT && 0 <= self.height
            && self.height <= ENTITY_SIZE_LIMIT
    }

    /// Player entity: 0.6 blocks wide, 1.8 blocks tall.
    pub fn player() -> (r: Entity)
        ensures
            r == (Entity { half_width: 12i64, height: 72i64, is_projectile: false }),
            r.valid(),
    {
        Entity { half_width: 12, height: 72, is_projectile: false }
    }

    /// Ender pearl entity: 0.25 blocks wide and tall.
    pub fn ender_pearl() -> (r: Entity)
        ensures
            r == (Entity { half_width: 5i64, height: 10i64, is_projectile: true }),
            r.valid(),
    {
        Entity { half_width: 5, height: 10, is_projectile: true }
    }

    /// Arrow entity: 0.5 blocks wide and tall.
    pub fn arrow() -> (r: Entity)
        ensures
            r == (Entity { half_width: 10i64, height: 20i64, is_projectile: true }),
            r.valid(),
    {
        Entity { half_width: 10, height: 20, is_projectile: true }
    }

    /// Ghast or Happy Ghast: 4 blocks wide and tall.
    pub fn ghast() -> (r: Entity)
        ensures
            r == (Entity { half_width: 80i64, height: 160i64, is_projectile: false }),
            r.valid(),
    {
        Entity { half_width: 80, height: 160, is_projectile: false }
    }

    /// Thrown item: 0.25 blocks wide and tall.
    pub fn item() -> (r: Entity)
        ensures
            r == (Entity { half_width: 5i64, height: 10i64, is_projectile: false }),
            r.valid(),
    {
        Entity { half_width: 5, height: 10, is_projectile: false }
    }
}

} // verus!
