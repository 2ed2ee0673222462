//! Dimensions and the world model holding the portals of both dimensions.

use vstd::prelude::*;

use crate::portal::Portal;

verus! {

/// Overworld or nether.
#[derive(Debug, Copy, Clone, PartialEq, Eq, Hash, Structural)]
pub enum Dimension {
    /// The overworld.
    Overworld,
    /// The nether.
    Nether,
}

impl Dimension {
    /// Coordinate scale of the dimension: how many horizontal blocks of
    /// overworld distance one block of this dimension stands for.
    pub open spec fn spec_scale(self) -> int {
        match self {
            Dimension::Overworld => 1,
            Dimension::Nether => 8,
        }
    }

    /// Lowest Y coordinate at which a block can be placed.
    pub open spec fn spec_y_min(self) -> int {
        match self {
            Dimension::Overworld => -64,
            Dimension::Nether => 0,
        }
    }

    /// Highest Y coordinate at which a block can be placed.
    pub open spec fn spec_y_max(self) -> int {
        match self {
            Dimension::Overworld => 319,
            Dimension::Nether => 255,
        }
    }

    /// Horizontal distance within which the game's portal search finds an
    /// existing portal block.
    pub open spec fn spec_portal_search_range(self) -> int {
        match self {
            Dimension::Overworld => 128,
            Dimension::Nether => 16,
        }
    }

    /// Returns the scale of the dimension, which provides the conversion
    /// rate between dimensions.
    pub fn scale(self) -> (r: i64)
        ensures
            r == self.spec_scale(),
    {
        match self {
            Dimension::Overworld => 1,
            Dimension::Nether => 8,
        }
    }

    /// Returns the lowest Y coordinate at which a block can be placed.
    pub fn y_min(self) -> (r: i64)
        ensures
            r == self.spec_y_min(),
    {
        match self {
            Dimension::Overworld => -64,
            Dimension::Nether => 0,
        }
    }

    /// Returns the highest Y coordinate at which a block can be placed.
    pub fn y_max(self) -> (r: i64)
        ensures
            r == self.spec_y_max(),
    {
        match self {
            Dimension::Overworld => 319,
            Dimension::Nether => 255,
        }
    }

    /// Returns the range of Y coordinates at which blocks can be placed.
    pub fn y_range(self) -> (r: std::ops::RangeInclusive<i64>)
        ensures
            r@.start == self.spec_y_min(),
            r@.end == self.spec_y_max(),
    {
        self.y_min()..=self.y_max()
    }

    /// Returns the other dimension.
    pub fn other(self) -> (r: Dimension)
        ensures
            r == self.spec_other(),
    {
        match self {
            Dimension::Overworld => Dimension::Nether,
            Dimension::Nether => Dimension::Overworld,
        }
    }

    /// The other dimension.
    pub open spec fn spec_other(self) -> Dimension {
        match self {
            Dimension::Overworld => Dimension::Nether,
            Dimension::Nether => Dimension::Overworld,
        }
    }

    /// Returns the number of blocks away from a destination block that a
    /// portal block can be while still being found by the portal search
    /// algorithm.
    ///
    /// - In the overworld, portals are searched within 257x257, so this
    ///   method returns 128.
    /// - In the nether, portals are searched within 33x33, so this method
    ///   returns 16.
    pub fn portal_search_range(self) -> (r: i64)
        ensures
            r == self.spec_portal_search_range(),
    {
        match self {
            Dimension::Overworld => 128,
            Dimension::Nether => 16,
        }
    }
}

/// Minecraft world.
#[derive(Debug, PartialEq, Eq)]
pub struct World {
    /// Portals in each dimension.
    pub portals: WorldPortals,
}

impl Default for World {
    /// A world without any portals.
    fn default() -> (r: Self)
        ensures
            r.portals.overworld@.len() == 0,
            r.portals.nether@.len() == 0,
    {
        World { portals: WorldPortals { overworld: Vec::new(), nether: Vec::new() } }
    }
}

/// Portals in a Minecraft world, one ordered list per dimension. The
/// order only matters for display, never for reachability.
#[derive(Debug, PartialEq, Eq)]
pub struct WorldPortals {
    /// Portals in the overworld.
    pub overworld: Vec<Portal>,
    /// Portals in the nether.
    pub nether: Vec<Portal>,
}

impl Default for WorldPortals {
    /// No portals in either dimension.
    fn default() -> (r: Self)
        ensures
            r.overworld@.len() == 0,
            r.nether@.len() == 0,
    {
        WorldPortals { overworld: Vec::new(), nether: Vec::new() }
    }
}

impl WorldPortals {
    /// The portals of one dimension.
    pub open spec fn spec_portals_in(self, dimension: Dimension) -> Seq<Portal> {
        match dimension {
            Dimension::Overworld => self.overworld@,
            Dimension::Nether => self.nether@,
        }
    }

    /// Returns the portal list of one dimension.
    pub fn portals_in(&self, dimension: Dimension) -> (r: &Vec<Portal>)
        ensures
            r@ == self.spec_portals_in(dimension),
    {
        match dimension {
            Dimension::Overworld => &self.overworld,
            Dimension::Nether => &self.nether,
        }
    }
}

/// The result of a reachability query: which of the candidate portals are
/// teleport targets for some point of the queried region, and whether some
/// point of the region has no target at all.
///
/// `existing_portals` holds indices into the candidate list that the query
/// ran over, in strictly increasing order.
#[derive(Debug, PartialEq, Eq, Hash)]
pub struct PortalDestinations {
    /// Indices of the candidate portals that are reachable teleport
    /// targets, strictly increasing.
    pub existing_portals: Vec<usize>,
    /// Whether entering some point of the region would generate a brand
    /// new portal.
    pub new_portal: bool,
}

} // verus!
