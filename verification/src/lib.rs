//! Planning library for Minecraft nether-portal linkage.
//!
//! The library models block- and world-granularity cuboids, portals with
//! their validity rules, and the reachability resolver that decides, for a
//! destination region in one dimension, which portals in that dimension can
//! be teleport targets and whether the game could generate a new portal.
//!
//! - [`pos`]: axes, block coordinates, and fixed-point world coordinates.
//! - [`region`]: block and world cuboids, their distances and splits.
//! - [`entity`]: entity hitbox descriptions.
//! - [`portal`]: the portal type, its validity-preserving mutators, its
//!   search-range tests, and the teleport-trigger geometry.
//! - [`world`]: dimensions and the two per-dimension portal lists.
//! - [`resolve`]: the per-point teleport semantics, a naive per-point
//!   resolver proved exact against them, and the subdivision resolver
//!   used in production, proved to give the same exact answer without
//!   scanning every block.
//!
//! World coordinates are fixed-point numbers on a grid of
//! `1 / pos::UNITS_PER_BLOCK` blocks, which represents every named
//! entity size and every dimension conversion of interest exactly, so
//! the geometry can be reasoned about in integers throughout.

pub mod entity;
pub mod id;
pub mod portal;
pub mod pos;
pub mod region;
pub mod resolve;
pub mod world;

pub use entity::Entity;
pub use id::PortalId;
pub use id::PortalIdSource;
pub use portal::Portal;
pub use portal::PortalAxis;
pub use pos::Axis;
pub use pos::BlockPos;
pub use pos::WorldPos;
pub use region::BlockRegion;
pub use region::WorldRegion;
pub use world::Dimension;
pub use world::PortalDestinations;
pub use world::World;
pub use world::WorldPortals;
pub use resolve::minima_by_opt_key;
