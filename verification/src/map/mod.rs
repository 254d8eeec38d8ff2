//! Tile maps, fog of war, path following and the map file format.

pub mod fog;
pub mod generator;
pub mod heightmap;
pub mod pathfinding;
pub mod serialization;
pub mod tile;
pub mod tilemap;
