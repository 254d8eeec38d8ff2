//! The map file format: a plain-data image of a tile map.

use vstd::prelude::*;
use vstd::string::StringExecFns;

use crate::map::tile::{TerrainType, Tile};
use crate::map::tilemap::{TileMap, TileMapView, lemma_coords_of_index};

verus! {

/// Version number written into every map file.
pub const MAP_FILE_VERSION: u32 = 1;

/// The resource amount of a resource node whose file entry gives none.
pub fn default_resource_amount() -> (r: u32)
    ensures
        r == 1000,
{
    1000
}

/// Whether every character of `s` is ASCII.
pub open spec fn seq_is_ascii(s: Seq<char>) -> bool {
    forall|i: int| 0 <= i < s.len() ==> (#[trigger] s[i]) as u32 <= 0x7f
}

/// ASCII lowercasing of one character: `A`..`Z` map to `a`..`z`.
pub open spec fn ascii_lower_char(c: char) -> char {
    if 'A' <= c && c <= 'Z' {
        ((c as u32) + 32) as char
    } else {
        c
    }
}

/// ASCII lowercasing of a string.
pub open spec fn ascii_lowercase(s: Seq<char>) -> Seq<char> {
    s.map_values(|c: char| ascii_lower_char(c))
}

/// What `str::to_lowercase` returns for a string (Unicode lowercase mapping).
pub uninterp spec fn spec_to_lowercase(s: Seq<char>) -> Seq<char>;

/// The lowercase form of `s`: on ASCII text it is ASCII lowercasing.
pub open spec fn lowercase_of(s: Seq<char>) -> Seq<char> {
    if seq_is_ascii(s) {
        ascii_lowercase(s)
    } else {
        spec_to_lowercase(s)
    }
}

/// Calls `str::to_lowercase`. The contract names the Unicode lowercase
/// mapping of the argument and states that on ASCII text it maps `A`..`Z`
/// to `a`..`z` and keeps every other character, as the standard library
/// documents for the ASCII range.
#[verifier::external_body]
fn str_to_lowercase(s: &str) -> (r: String)
    ensures
        r@ == spec_to_lowercase(s@),
        seq_is_ascii(s@) ==> r@ == ascii_lowercase(s@),
{
    s.to_lowercase()
}

/// The name under which a terrain kind is written to a map file.
pub open spec fn terrain_name(t: TerrainType) -> Seq<char> {
    match t {
        TerrainType::Grass => "grass"@,
        TerrainType::Desert => "desert"@,
        TerrainType::Water => "water"@,
        TerrainType::Mountain => "mountain"@,
        TerrainType::Forest => "forest"@,
    }
}

/// The terrain kind that a lowercase name stands for; unknown names read as grass.
pub open spec fn terrain_of_lowercase(s: Seq<char>) -> TerrainType {
    if s == "desert"@ {
        TerrainType::Desert
    } else if s == "water"@ {
        TerrainType::Water
    } else if s == "mountain"@ {
        TerrainType::Mountain
    } else if s == "forest"@ {
        TerrainType::Forest
    } else {
        TerrainType::Grass
    }
}

/// The terrain kind that a name stands for, whatever its letter case.
pub open spec fn terrain_of_name(s: Seq<char>) -> TerrainType {
    terrain_of_lowercase(lowercase_of(s))
}

fn terrain_to_string(terrain: TerrainType) -> (r: String)
    ensures
        r@ == terrain_name(terrain),
{
    match terrain {
        TerrainType::Grass => String::from_str("grass"),
        TerrainType::Desert => String::from_str("desert"),
        TerrainType::Water => String::from_str("water"),
        TerrainType::Mountain => String::from_str("mountain"),
        TerrainType::Forest => String::from_str("forest"),
    }
}

/// The terrain kind named by an already lowercased name; names other than
/// `grass`, `desert`, `water`, `mountain` and `forest` read as grass.
pub fn terrain_from_lowercase(name: &str) -> (t: TerrainType)
    ensures
        t == terrain_of_lowercase(name@),
{
    let owned = name.to_owned();
    if owned == String::from_str("desert") {
        TerrainType::Desert
    } else if owned == String::from_str("water") {
        TerrainType::Water
    } else if owned == String::from_str("mountain") {
        TerrainType::Mountain
    } else if owned == String::from_str("forest") {
        TerrainType::Forest
    } else {
        TerrainType::Grass
    }
}

fn string_to_terrain(s: &str) -> (t: TerrainType)
    ensures
        t == terrain_of_name(s@),
{
    let lower = str_to_lowercase(s);
    terrain_from_lowercase(lower.as_str())
}

/// Mathematical model of a [`TileData`].
pub struct TileDataView {
    pub terrain: Seq<char>,
    pub height_bits: u32,
    pub occupied: bool,
}

/// One tile as written in a map file.
#[derive(Clone, Debug)]
pub struct TileData {
    /// Terrain name (`grass`, `desert`, `water`, `mountain`, `forest`).
    pub terrain: String,
    /// Bit pattern of the `f32` height.
    pub height_bits: u32,
    /// Whether the tile is occupied.
    pub occupied: bool,
}

impl View for TileData {
    type V = TileDataView;

    open spec fn view(&self) -> TileDataView {
        TileDataView { terrain: self.terrain@, height_bits: self.height_bits, occupied: self.occupied }
    }
}

/// The file entry of a tile.
pub open spec fn tile_data_of(t: Tile) -> TileDataView {
    TileDataView { terrain: terrain_name(t.terrain), height_bits: t.height_bits, occupied: t.occupied }
}

/// The tile a file entry describes.
pub open spec fn tile_of_data(d: TileDataView) -> Tile {
    Tile { terrain: terrain_of_name(d.terrain), height_bits: d.height_bits, occupied: d.occupied }
}

impl TileData {
    /// The file entry of `tile`.
    pub fn from_tile(tile: &Tile) -> (d: Self)
        ensures
            d@ == tile_data_of(*tile),
    {
        TileData { terrain: terrain_to_string(tile.terrain), height_bits: tile.height_bits, occupied: tile.occupied }
    }

    /// The tile this entry describes; the terrain name is read case-insensitively.
    pub fn to_tile(&self) -> (t: Tile)
        ensures
            t == tile_of_data(self@),
    {
        Tile { terrain: string_to_terrain(self.terrain.as_str()), height_bits: self.height_bits, occupied: self.occupied }
    }
}

/// A team's spawn point.
#[derive(Clone, Debug)]
pub struct SpawnPoint {
    pub x: u32,
    pub y: u32,
    pub team: String,
}

/// A resource node placed on the map.
#[derive(Clone, Debug)]
pub struct ResourceNodeData {
    pub x: u32,
    pub y: u32,
    pub resource_type: String,
    /// Amount of resource; 1000 when the file gives none.
    pub amount: u32,
}

/// The contents of a map file.
#[derive(Clone, Debug)]
pub struct MapFile {
    pub version: u32,
    pub width: u32,
    pub height: u32,
    /// Bit pattern of the `f32` world size of a tile.
    pub tile_size_bits: u32,
    /// Tiles in row-major order.
    pub tiles: Vec<TileData>,
    pub spawn_points: Vec<SpawnPoint>,
    pub resource_nodes: Vec<ResourceNodeData>,
}

/// The tiles of a `w * h`-tile map read from the file entries `ds`: entry
/// `i` fills position `i`, positions without an entry keep the default tile,
/// and entries beyond the map are ignored.
pub open spec fn tiles_from_data(ds: Seq<TileDataView>, n: nat) -> Seq<Tile> {
    Seq::new(n, |i: int| if i < ds.len() { tile_of_data(ds[i]) } else { Tile::default_spec() })
}

/// The views of a sequence of file entries.
pub open spec fn data_views(ds: Seq<TileData>) -> Seq<TileDataView> {
    ds.map_values(|d: TileData| d@)
}

impl MapFile {
    /// The file image of `tilemap`, with no spawn points or resource nodes.
    pub fn from_tilemap(tilemap: &TileMap) -> (f: Self)
        requires
            tilemap@.wf(),
        ensures
            f.version == MAP_FILE_VERSION,
            f.width == tilemap@.width,
            f.height == tilemap@.height,
            f.tile_size_bits == tilemap@.tile_size_bits,
            data_views(f.tiles@) == tilemap@.tiles.map_values(|t: Tile| tile_data_of(t)),
            f.spawn_points@.len() == 0,
            f.resource_nodes@.len() == 0,
    {
        let cells = tilemap.iter();
        let mut tiles: Vec<TileData> = Vec::new();
        let n = cells.len();
        let mut i: usize = 0;
        while i < n
            invariant
                n == cells@.len(),
                n == tilemap@.tiles.len(),
                i <= n,
                forall|j: int| 0 <= j < n ==> (#[trigger] cells@[j]).2 == tilemap@.tiles[j],
                tiles@.len() == i,
                data_views(tiles@) == tilemap@.tiles.take(i as int).map_values(|t: Tile| tile_data_of(t)),
            decreases n - i,
        {
            let d = TileData::from_tile(&cells[i].2);
            let ghost prev = tiles@;
            let ghost dv = d@;
            tiles.push(d);
            proof {
                assert(tiles@ == prev.push(d));
                assert(tilemap@.tiles.take(i + 1) =~= tilemap@.tiles.take(i as int).push(tilemap@.tiles[i as int]));
                assert forall|j: int| 0 <= j < i + 1 implies #[trigger] data_views(tiles@)[j]
                    == tilemap@.tiles.take(i + 1).map_values(|t: Tile| tile_data_of(t))[j] by {
                    if j < i {
                        assert(data_views(prev)[j] == prev[j]@);
                    }
                }
                assert(data_views(tiles@) =~= tilemap@.tiles.take(i + 1).map_values(|t: Tile| tile_data_of(t)));
            }
            i = i + 1;
        }
        assert(tilemap@.tiles.take(n as int) == tilemap@.tiles);
        MapFile {
            version: MAP_FILE_VERSION,
            width: tilemap.width(),
            height: tilemap.height(),
            tile_size_bits: tilemap.tile_size_bits(),
            tiles,
            spawn_points: Vec::new(),
            resource_nodes: Vec::new(),
        }
    }

    /// The tile map this file describes.
    pub fn to_tilemap(&self) -> (m: TileMap)
        requires
            self.width * self.height <= u32::MAX,
            self.tiles@.len() <= u32::MAX,
            self.tiles@.len() > 0 ==> self.width > 0,
        ensures
            m@.wf(),
            m@.width == self.width,
            m@.height == self.height,
            m@.tile_size_bits == self.tile_size_bits,
            m@.tiles == tiles_from_data(data_views(self.tiles@), self.width as nat * self.height as nat),
    {
        let mut tilemap = TileMap::new(self.width, self.height, self.tile_size_bits);
        let ghost total = self.width as nat * self.height as nat;
        let ghost ds = data_views(self.tiles@);
        let n = self.tiles.len();
        let mut idx: usize = 0;
        assert(tilemap@.tiles =~= Seq::new(
            total,
            |i: int| if i < 0 && i < ds.len() { tile_of_data(ds[i]) } else { Tile::default_spec() },
        ));
        while idx < n
            invariant
                n == self.tiles@.len(),
                n <= u32::MAX,
                n > 0 ==> self.width > 0,
                total == self.width * self.height,
                ds == data_views(self.tiles@),
                idx <= n,
                tilemap@.wf(),
                tilemap@.width == self.width,
                tilemap@.height == self.height,
                tilemap@.tile_size_bits == self.tile_size_bits,
                tilemap@.tiles == Seq::new(
                    total,
                    |i: int| if i < idx && i < ds.len() { tile_of_data(ds[i]) } else { Tile::default_spec() },
                ),
            decreases n - idx,
        {
            let i32_idx = idx as u32;
            let x = i32_idx % self.width;
            let y = i32_idx / self.width;
            let t = self.tiles[idx].to_tile();
            proof {
                vstd::arithmetic::div_mod::lemma_fundamental_div_mod(idx as int, self.width as int);
                vstd::arithmetic::div_mod::lemma_mod_pos_bound(idx as int, self.width as int);
                if (idx as int) < total {
                    lemma_coords_of_index(self.width as nat, self.height as nat, idx as int);
                } else {
                    if (y as int) < self.height {
                        assert(y * self.width + x < self.width * self.height) by (nonlinear_arith)
                            requires
                                y < self.height,
                                x < self.width,
                        {
                            assert(y * self.width <= (self.height - 1) * self.width);
                        }
                        assert(y * self.width + x == idx) by (nonlinear_arith)
                            requires
                                idx == self.width * (idx as int / self.width as int) + idx as int % self.width as int,
                                y == idx as int / self.width as int,
                                x == idx as int % self.width as int,
                        ;
                    }
                }
            }
            tilemap.set(x, y, t);
            proof {
                assert(tilemap@.tiles =~= Seq::new(
                    total,
                    |i: int| if i < idx + 1 && i < ds.len() { tile_of_data(ds[i]) } else { Tile::default_spec() },
                ));
            }
            idx = idx + 1;
        }
        assert(tilemap@.tiles =~= tiles_from_data(ds, total));
        tilemap
    }
}

/// Reading the file entry of a tile gives the tile back.
pub proof fn law_tile_data_round_trip(t: Tile)
    ensures
        tile_of_data(tile_data_of(t)) == t,
{
    reveal_strlit("grass");
    reveal_strlit("desert");
    reveal_strlit("water");
    reveal_strlit("mountain");
    reveal_strlit("forest");
    let name = terrain_name(t.terrain);
    assert(seq_is_ascii(name));
    assert(ascii_lowercase(name) =~= name);
    assert(lowercase_of(name) == name);
    match t.terrain {
        TerrainType::Grass => {
            assert(name != "desert"@ && name != "water"@ && name != "mountain"@ && name != "forest"@) by {
                assert(name[0] != "desert"@[0]);
                assert(name[0] != "water"@[0]);
                assert(name[0] != "mountain"@[0]);
                assert(name[0] != "forest"@[0]);
            }
        },
        TerrainType::Desert => {},
        TerrainType::Water => {
            assert(name != "desert"@) by {
                assert(name[0] != "desert"@[0]);
            }
        },
        TerrainType::Mountain => {
            assert(name != "desert"@ && name != "water"@) by {
                assert(name[0] != "desert"@[0]);
                assert(name[0] != "water"@[0]);
            }
        },
        TerrainType::Forest => {
            assert(name != "desert"@ && name != "water"@ && name != "mountain"@) by {
                assert(name[0] != "desert"@[0]);
                assert(name[0] != "water"@[0]);
                assert(name[0] != "mountain"@[0]);
            }
        },
    }
}

/// Writing a well-formed tile map to a map file and reading it back gives
/// the same tiles.
pub proof fn law_map_file_round_trip(m: TileMapView)
    requires
        m.wf(),
    ensures
        tiles_from_data(m.tiles.map_values(|t: Tile| tile_data_of(t)), m.width * m.height) == m.tiles,
{
    assert forall|i: int| 0 <= i < m.tiles.len() implies tiles_from_data(
        m.tiles.map_values(|t: Tile| tile_data_of(t)),
        m.width * m.height,
    )[i] == m.tiles[i] by {
        law_tile_data_round_trip(m.tiles[i]);
    }
    assert(tiles_from_data(m.tiles.map_values(|t: Tile| tile_data_of(t)), m.width * m.height) =~= m.tiles);
}

/// The names written for the terrain kinds are `grass`, `desert`, `water`,
/// `mountain` and `forest`, letter by letter; they are all different and
/// lowercase, so each reads back as its own kind.
pub proof fn law_terrain_names(t: TerrainType, u: TerrainType)
    ensures
        terrain_name(TerrainType::Grass) == seq!['g', 'r', 'a', 's', 's'],
        terrain_name(TerrainType::Desert) == seq!['d', 'e', 's', 'e', 'r', 't'],
        terrain_name(TerrainType::Water) == seq!['w', 'a', 't', 'e', 'r'],
        terrain_name(TerrainType::Mountain) == seq!['m', 'o', 'u', 'n', 't', 'a', 'i', 'n'],
        terrain_name(TerrainType::Forest) == seq!['f', 'o', 'r', 'e', 's', 't'],
        t != u ==> terrain_name(t) != terrain_name(u),
        terrain_of_name(terrain_name(t)) == t,
{
    reveal_strlit("grass");
    reveal_strlit("desert");
    reveal_strlit("water");
    reveal_strlit("mountain");
    reveal_strlit("forest");
    assert("grass"@ =~= seq!['g', 'r', 'a', 's', 's']);
    assert("desert"@ =~= seq!['d', 'e', 's', 'e', 'r', 't']);
    assert("water"@ =~= seq!['w', 'a', 't', 'e', 'r']);
    assert("mountain"@ =~= seq!['m', 'o', 'u', 'n', 't', 'a', 'i', 'n']);
    assert("forest"@ =~= seq!['f', 'o', 'r', 'e', 's', 't']);
    if t != u {
        if terrain_name(t) == terrain_name(u) {
            assert(terrain_name(t).len() == terrain_name(u).len());
            assert(terrain_name(t)[0] == terrain_name(u)[0]);
        }
    }
    law_tile_data_round_trip(Tile { terrain: t, height_bits: 0, occupied: false });
}

} // verus!
