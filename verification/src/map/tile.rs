//! Terrain kinds and single map tiles.

use vstd::prelude::*;

verus! {

/// Bit pattern of the `f32` value `0.5`, the height of a default tile.
pub const DEFAULT_TILE_HEIGHT_BITS: u32 = 0x3F00_0000u32;

/// The kind of ground a tile is made of.
#[derive(Clone, Copy, Debug, PartialEq, Eq, Hash, Structural)]
pub enum TerrainType {
    /// Grass: normal speed.
    Grass,
    /// Desert: slower.
    Desert,
    /// Water: impassable for land units.
    Water,
    /// Mountain: impassable.
    Mountain,
    /// Forest: slow, blocks vision.
    Forest,
}

impl TerrainType {
    /// Whether units can move over this terrain at all (it has a move cost).
    pub open spec fn spec_passable(self) -> bool {
        !(self is Water || self is Mountain)
    }

    /// Whether this terrain has a move cost, i.e. can be walked on.
    pub fn is_passable(&self) -> (r: bool)
        ensures
            r == self.spec_passable(),
    {
        match self {
            TerrainType::Water | TerrainType::Mountain => false,
            _ => true,
        }
    }

    /// Whether buildings may be placed on this terrain.
    pub fn buildable(&self) -> (r: bool)
        ensures
            r == (*self is Grass || *self is Desert),
    {
        match self {
            TerrainType::Grass | TerrainType::Desert => true,
            _ => false,
        }
    }

    /// Whether this terrain blocks line of sight.
    pub fn blocks_vision(&self) -> (r: bool)
        ensures
            r == (*self is Mountain || *self is Forest),
    {
        match self {
            TerrainType::Mountain | TerrainType::Forest => true,
            _ => false,
        }
    }
}

impl Default for TerrainType {
    fn default() -> (r: Self)
        ensures
            r == TerrainType::Grass,
    {
        TerrainType::Grass
    }
}

/// One cell of a tile map.
///
/// The height (0.0 to 1.0 in the engine) is carried by its `f32` bit pattern.
#[derive(Clone, Copy, Debug, PartialEq, Eq, Structural)]
pub struct Tile {
    /// Ground kind.
    pub terrain: TerrainType,
    /// Bit pattern of the tile's `f32` height.
    pub height_bits: u32,
    /// Whether a building or resource sits on the tile.
    pub occupied: bool,
}

impl Tile {
    /// A free tile of the given terrain and height.
    pub fn new(terrain: TerrainType, height_bits: u32) -> (t: Self)
        ensures
            t == (Tile { terrain, height_bits, occupied: false }),
    {
        Tile { terrain, height_bits, occupied: false }
    }

    /// Whether a unit can stand on this tile: it is free and its terrain passable.
    pub open spec fn spec_walkable(self) -> bool {
        !self.occupied && self.terrain.spec_passable()
    }

    /// Whether a unit can stand on this tile: it is free and its terrain passable.
    pub fn walkable(&self) -> (r: bool)
        ensures
            r == self.spec_walkable(),
    {
        !self.occupied && self.terrain.is_passable()
    }
}

impl Default for Tile {
    /// A free grass tile of height 0.5.
    fn default() -> (t: Self)
        ensures
            t == (Tile {
                terrain: TerrainType::Grass,
                height_bits: DEFAULT_TILE_HEIGHT_BITS,
                occupied: false,
            }),
    {
        Tile { terrain: TerrainType::Grass, height_bits: DEFAULT_TILE_HEIGHT_BITS, occupied: false }
    }
}

/// Water and mountains cannot be crossed, while grass, desert and forest
/// can; so a tile is walkable exactly when it is free and its terrain is
/// neither water nor mountain.
pub proof fn law_passable_terrain(tile: Tile)
    ensures
        !TerrainType::Water.spec_passable(),
        !TerrainType::Mountain.spec_passable(),
        TerrainType::Grass.spec_passable(),
        TerrainType::Desert.spec_passable(),
        TerrainType::Forest.spec_passable(),
        tile.spec_walkable() <==> (!tile.occupied && tile.terrain != TerrainType::Water && tile.terrain
            != TerrainType::Mountain),
{
}

} // verus!
