//! Rectangular tile maps stored row by row.

use vstd::prelude::*;

use crate::map::tile::{TerrainType, Tile};

verus! {

/// Mathematical model of a [`TileMap`].
pub struct TileMapView {
    /// Width in tiles.
    pub width: nat,
    /// Height in tiles.
    pub height: nat,
    /// Tiles in row-major order: tile `(x, y)` sits at `y * width + x`.
    pub tiles: Seq<Tile>,
    /// Bit pattern of the `f32` world size of one tile.
    pub tile_size_bits: u32,
}

impl TileMapView {
    /// The tile count fits `u32` and matches the dimensions.
    pub open spec fn wf(self) -> bool {
        &&& self.width * self.height <= u32::MAX
        &&& self.tiles.len() == self.width * self.height
    }

    pub open spec fn in_bounds(self, x: int, y: int) -> bool {
        0 <= x < self.width && 0 <= y < self.height
    }

    /// Row-major position of tile `(x, y)`.
    pub open spec fn index_of(self, x: int, y: int) -> int {
        y * self.width + x
    }

    /// The tile at `(x, y)`, if the coordinates are on the map.
    pub open spec fn tile_at(self, x: int, y: int) -> Option<Tile> {
        if self.in_bounds(x, y) {
            Some(self.tiles[self.index_of(x, y)])
        } else {
            None
        }
    }

    /// The map with tile `(x, y)` replaced, or unchanged off the map.
    pub open spec fn with_tile(self, x: int, y: int, t: Tile) -> TileMapView {
        if self.in_bounds(x, y) {
            TileMapView { tiles: self.tiles.update(self.index_of(x, y), t), ..self }
        } else {
            self
        }
    }
}

/// Proves that an in-bounds position indexes into the tile sequence.
pub proof fn lemma_index_in_range(w: nat, h: nat, x: int, y: int)
    requires
        0 <= x < w,
        0 <= y < h,
    ensures
        0 <= y * w + x < w * h,
        y * w + x <= (h - 1) * w + (w - 1),
{
    assert(0 <= y * w) by (nonlinear_arith)
        requires
            0 <= y,
    ;
    assert(y * w <= (h - 1) * w) by (nonlinear_arith)
        requires
            y <= h - 1,
    ;
    assert((h - 1) * w + w == w * h) by (nonlinear_arith);
}

/// Proves that distinct in-bounds positions have distinct indices.
pub proof fn lemma_index_injective(w: nat, x1: int, y1: int, x2: int, y2: int)
    requires
        0 <= x1 < w,
        0 <= x2 < w,
        0 <= y1,
        0 <= y2,
        y1 * w + x1 == y2 * w + x2,
    ensures
        x1 == x2 && y1 == y2,
{
    if y1 < y2 {
        assert(y1 * w + w <= y2 * w) by (nonlinear_arith)
            requires
                y1 < y2,
                0 <= w,
        ;
    } else if y2 < y1 {
        assert(y2 * w + w <= y1 * w) by (nonlinear_arith)
            requires
                y2 < y1,
                0 <= w,
        ;
    }
}

/// Proves that a position `i` of a map of width `w` lies at `(i % w, i / w)`.
pub proof fn lemma_coords_of_index(w: nat, h: nat, i: int)
    requires
        w > 0,
        0 <= i < w * h,
    ensures
        0 <= i % (w as int) < w,
        0 <= i / (w as int) < h,
        (i / (w as int)) * w + i % (w as int) == i,
{
    vstd::arithmetic::div_mod::lemma_fundamental_div_mod(i, w as int);
    vstd::arithmetic::div_mod::lemma_div_pos_is_pos(i, w as int);
    vstd::arithmetic::div_mod::lemma_mod_pos_bound(i, w as int);
    let q = i / (w as int);
    let r = i % (w as int);
    assert(q * w + r == i) by (nonlinear_arith)
        requires
            i == (w as int) * q + r,
    ;
    if q >= h {
        assert(q * w >= h * w) by (nonlinear_arith)
            requires
                q >= h,
                w > 0,
        ;
        assert(h * w == w * h) by (nonlinear_arith);
    }
}

/// A rectangular map of tiles, stored row by row.
#[derive(Clone, Debug)]
pub struct TileMap {
    width: u32,
    height: u32,
    tiles: Vec<Tile>,
    tile_size_bits: u32,
}

impl View for TileMap {
    type V = TileMapView;

    closed spec fn view(&self) -> TileMapView {
        TileMapView {
            width: self.width as nat,
            height: self.height as nat,
            tiles: self.tiles@,
            tile_size_bits: self.tile_size_bits,
        }
    }
}

/// `n` copies of the default tile.
pub open spec fn default_tiles(n: nat) -> Seq<Tile> {
    Seq::new(n, |i: int| Tile::default_spec())
}

impl Tile {
    /// The default tile: free grass of height 0.5.
    pub open spec fn default_spec() -> Tile {
        Tile {
            terrain: TerrainType::Grass,
            height_bits: crate::map::tile::DEFAULT_TILE_HEIGHT_BITS,
            occupied: false,
        }
    }
}

/// The four orthogonal neighbours of `(x, y)` on a `w` by `h` map, in the
/// order left, right, up, down.
pub open spec fn neighbors4_spec(w: u32, h: u32, x: u32, y: u32) -> Seq<(u32, u32)> {
    let left = if x > 0 { seq![((x - 1) as u32, y)] } else { Seq::empty() };
    let right = if x < w - 1 { seq![((x + 1) as u32, y)] } else { Seq::empty() };
    let up = if y > 0 { seq![(x, (y - 1) as u32)] } else { Seq::empty() };
    let down = if y < h - 1 { seq![(x, (y + 1) as u32)] } else { Seq::empty() };
    left + right + up + down
}

/// The value of `v as i32` for a `u32` value `v`.
pub open spec fn u32_as_i32(v: u32) -> int {
    if v <= 0x7fff_ffff { v as int } else { v as int - 0x1_0000_0000 }
}

/// The cell at offset `(dx, dy)` from `(x, y)`, computed on the signed
/// reading of the coordinates, when it lies on a `w` by `h` map.
pub open spec fn offset_cell(w: u32, h: u32, x: u32, y: u32, dx: int, dy: int) -> Seq<(u32, u32)> {
    let nx = u32_as_i32(x) + dx;
    let ny = u32_as_i32(y) + dy;
    if 0 <= nx && 0 <= ny && nx < w && ny < h {
        seq![(nx as u32, ny as u32)]
    } else {
        Seq::empty()
    }
}

/// The up to eight neighbours of `(x, y)`: rows `dy = -1, 0, 1`, and within
/// a row `dx = -1, 0, 1`, skipping the cell itself.
pub open spec fn neighbors8_spec(w: u32, h: u32, x: u32, y: u32) -> Seq<(u32, u32)> {
    offset_cell(w, h, x, y, -1, -1) + offset_cell(w, h, x, y, 0, -1) + offset_cell(w, h, x, y, 1, -1)
        + offset_cell(w, h, x, y, -1, 0) + offset_cell(w, h, x, y, 1, 0)
        + offset_cell(w, h, x, y, -1, 1) + offset_cell(w, h, x, y, 0, 1) + offset_cell(w, h, x, y, 1, 1)
}

pub proof fn lemma_u32_as_i32(v: u32)
    ensures
        (v as i32) as int == u32_as_i32(v),
{
    assert(v <= 0x7fff_ffff ==> (v as i32) as int == v as int) by (bit_vector);
    assert(v > 0x7fff_ffff ==> (v as i32) as int == v as int - 0x1_0000_0000) by (bit_vector);
}

impl TileMap {
    /// A `width` by `height` map of default tiles (free grass of height 0.5).
    pub fn new(width: u32, height: u32, tile_size_bits: u32) -> (m: Self)
        requires
            width * height <= u32::MAX,
        ensures
            m@.wf(),
            m@.width == width,
            m@.height == height,
            m@.tile_size_bits == tile_size_bits,
            m@.tiles == default_tiles(width as nat * height as nat),
    {
        let n = (width * height) as usize;
        let mut tiles: Vec<Tile> = Vec::new();
        let mut i: usize = 0;
        while i < n
            invariant
                i <= n,
                tiles@ == default_tiles(i as nat),
            decreases n - i,
        {
            tiles.push(Tile::default());
            i = i + 1;
        }
        TileMap { width, height, tiles, tile_size_bits }
    }

    /// Map width in tiles.
    pub fn width(&self) -> (r: u32)
        ensures
            r == self@.width,
    {
        self.width
    }

    /// Map height in tiles.
    pub fn height(&self) -> (r: u32)
        ensures
            r == self@.height,
    {
        self.height
    }

    /// Bit pattern of the `f32` world size of a tile.
    pub fn tile_size_bits(&self) -> (r: u32)
        ensures
            r == self@.tile_size_bits,
    {
        self.tile_size_bits
    }

    /// Whether `(x, y)` lies on the map.
    pub fn in_bounds(&self, x: u32, y: u32) -> (r: bool)
        ensures
            r == self@.in_bounds(x as int, y as int),
    {
        x < self.width && y < self.height
    }

    fn index(&self, x: u32, y: u32) -> (i: usize)
        requires
            self@.wf(),
            self@.in_bounds(x as int, y as int),
        ensures
            i == self@.index_of(x as int, y as int),
            i < self@.tiles.len(),
    {
        proof {
            lemma_index_in_range(self.width as nat, self.height as nat, x as int, y as int);
        }
        (y * self.width + x) as usize
    }

    /// The tile at `(x, y)`, or `None` off the map.
    pub fn get(&self, x: u32, y: u32) -> (r: Option<&Tile>)
        requires
            self@.wf(),
        ensures
            r matches Some(t) ==> self@.tile_at(x as int, y as int) == Some(*t),
            r is None ==> self@.tile_at(x as int, y as int) is None,
    {
        if self.in_bounds(x, y) {
            let i = self.index(x, y);
            Some(&self.tiles[i])
        } else {
            None
        }
    }

    /// Mutable access to the tile at `(x, y)`, or `None` off the map.
    pub fn get_mut(&mut self, x: u32, y: u32) -> (r: Option<&mut Tile>)
        requires
            old(self)@.wf(),
        ensures
            match r {
                Some(t) => {
                    &&& old(self)@.tile_at(x as int, y as int) == Some(*t)
                    &&& final(self)@ == old(self)@.with_tile(x as int, y as int, *final(t))
                },
                None => {
                    &&& old(self)@.tile_at(x as int, y as int) is None
                    &&& final(self)@ == old(self)@
                },
            },
    {
        if self.in_bounds(x, y) {
            let i = self.index(x, y);
            Some(&mut self.tiles[i])
        } else {
            None
        }
    }

    /// Replaces the tile at `(x, y)`; does nothing off the map.
    pub fn set(&mut self, x: u32, y: u32, tile: Tile)
        requires
            old(self)@.wf(),
        ensures
            final(self)@ == old(self)@.with_tile(x as int, y as int, tile),
            final(self)@.wf(),
    {
        if self.in_bounds(x, y) {
            let i = self.index(x, y);
            self.tiles.set(i, tile);
        }
    }

    /// Changes the terrain of the tile at `(x, y)`; does nothing off the map.
    pub fn set_terrain(&mut self, x: u32, y: u32, terrain: TerrainType)
        requires
            old(self)@.wf(),
        ensures
            final(self)@ == (match old(self)@.tile_at(x as int, y as int) {
                Some(t) => old(self)@.with_tile(x as int, y as int, Tile { terrain, ..t }),
                None => old(self)@,
            }),
            final(self)@.wf(),
    {
        if self.in_bounds(x, y) {
            let i = self.index(x, y);
            let mut t = self.tiles[i];
            t.terrain = terrain;
            self.tiles.set(i, t);
        }
    }

    /// The orthogonal neighbours of `(x, y)` that lie on the map.
    pub fn neighbors4(&self, x: u32, y: u32) -> (r: Vec<(u32, u32)>)
        requires
            self@.width >= 1,
            self@.height >= 1,
        ensures
            r@ == neighbors4_spec(self@.width as u32, self@.height as u32, x, y),
    {
        let mut result: Vec<(u32, u32)> = Vec::new();
        if x > 0 {
            result.push((x - 1, y));
        }
        if x < self.width - 1 {
            result.push((x + 1, y));
        }
        if y > 0 {
            result.push((x, y - 1));
        }
        if y < self.height - 1 {
            result.push((x, y + 1));
        }
        result
    }

    fn push_offset(&self, result: &mut Vec<(u32, u32)>, x: u32, y: u32, dx: i32, dy: i32)
        requires
            -1 <= dx <= 1,
            -1 <= dy <= 1,
            x != 0x7fff_ffff && x != 0x8000_0000,
            y != 0x7fff_ffff && y != 0x8000_0000,
        ensures
            final(result)@ == old(result)@ + offset_cell(
                self@.width as u32,
                self@.height as u32,
                x,
                y,
                dx as int,
                dy as int,
            ),
    {
        proof {
            lemma_u32_as_i32(x);
            lemma_u32_as_i32(y);
        }
        let nx = x as i32 + dx;
        let ny = y as i32 + dy;
        if nx >= 0 && ny >= 0 {
            let ux = nx as u32;
            let uy = ny as u32;
            if self.in_bounds(ux, uy) {
                result.push((ux, uy));
            }
        }
    }

    /// The up to eight surrounding cells of `(x, y)` that lie on the map,
    /// diagonals included.
    pub fn neighbors8(&self, x: u32, y: u32) -> (r: Vec<(u32, u32)>)
        requires
            x != 0x7fff_ffff && x != 0x8000_0000,
            y != 0x7fff_ffff && y != 0x8000_0000,
        ensures
            r@ == neighbors8_spec(self@.width as u32, self@.height as u32, x, y),
    {
        let mut result: Vec<(u32, u32)> = Vec::new();
        self.push_offset(&mut result, x, y, -1, -1);
        self.push_offset(&mut result, x, y, 0, -1);
        self.push_offset(&mut result, x, y, 1, -1);
        self.push_offset(&mut result, x, y, -1, 0);
        self.push_offset(&mut result, x, y, 1, 0);
        self.push_offset(&mut result, x, y, -1, 1);
        self.push_offset(&mut result, x, y, 0, 1);
        self.push_offset(&mut result, x, y, 1, 1);
        assert(result@ =~= neighbors8_spec(self.width, self.height, x, y));
        result
    }

    /// Every tile with its coordinates, in storage order.
    pub fn iter(&self) -> (r: Vec<(u32, u32, Tile)>)
        requires
            self@.wf(),
        ensures
            r@.len() == self@.tiles.len(),
            forall|i: int|
                0 <= i < r@.len() ==> #[trigger] r@[i] == (
                    (i % (self@.width as int)) as u32,
                    (i / (self@.width as int)) as u32,
                    self@.tiles[i],
                ),
    {
        let mut result: Vec<(u32, u32, Tile)> = Vec::new();
        let n = self.tiles.len();
        let mut i: usize = 0;
        while i < n
            invariant
                n == self@.tiles.len(),
                self@.wf(),
                i <= n,
                result@.len() == i,
                forall|j: int|
                    0 <= j < i ==> #[trigger] result@[j] == (
                        (j % (self.width as int)) as u32,
                        (j / (self.width as int)) as u32,
                        self@.tiles[j],
                    ),
            decreases n - i,
        {
            proof {
                assert(self.width > 0) by (nonlinear_arith)
                    requires
                        i < self.width * self.height,
                ;
                vstd::arithmetic::div_mod::lemma_div_pos_is_pos(i as int, self.width as int);
                vstd::arithmetic::div_mod::lemma_div_is_ordered_by_denominator(i as int, 1, self.width as int);
                vstd::arithmetic::div_mod::lemma_mod_pos_bound(i as int, self.width as int);
            }
            let idx = i as u32;
            let x = idx % self.width;
            let y = idx / self.width;
            result.push((x, y, self.tiles[i]));
            i = i + 1;
        }
        result
    }
}

/// Writing a tile and reading it back gives the tile written; every other
/// position keeps its tile; writing off the map changes nothing.
pub proof fn law_tile_read_after_write(m: TileMapView, x: int, y: int, t: Tile, x2: int, y2: int)
    requires
        m.wf(),
    ensures
        m.in_bounds(x, y) ==> m.with_tile(x, y, t).tile_at(x, y) == Some(t),
        (x2 != x || y2 != y) ==> m.with_tile(x, y, t).tile_at(x2, y2) == m.tile_at(x2, y2),
        !m.in_bounds(x, y) ==> m.with_tile(x, y, t) == m,
{
    if m.in_bounds(x, y) {
        lemma_index_in_range(m.width, m.height, x, y);
    }
    if m.in_bounds(x, y) && m.in_bounds(x2, y2) && (x2 != x || y2 != y) {
        lemma_index_in_range(m.width, m.height, x2, y2);
        if m.index_of(x2, y2) == m.index_of(x, y) {
            lemma_index_injective(m.width, x, y, x2, y2);
        }
    }
}

/// Whether `c` is one of the four cells next to `(x, y)` (left, right, up, down).
pub open spec fn orthogonally_adjacent(x: u32, y: u32, c: (u32, u32)) -> bool {
    ||| c.1 == y && (c.0 + 1 == x || x + 1 == c.0)
    ||| c.0 == x && (c.1 + 1 == y || y + 1 == c.1)
}

/// The orthogonal neighbours of a cell on the map are exactly the cells
/// next to it (left, right, up, down) that lie on the map.
pub proof fn law_neighbors4_on_map(w: u32, h: u32, x: u32, y: u32, c: (u32, u32))
    requires
        x < w,
        y < h,
    ensures
        neighbors4_spec(w, h, x, y).contains(c) <==> (c.0 < w && c.1 < h && orthogonally_adjacent(x, y, c)),
{
    let left = if x > 0 { seq![((x - 1) as u32, y)] } else { Seq::<(u32, u32)>::empty() };
    let right = if x < w - 1 { seq![((x + 1) as u32, y)] } else { Seq::<(u32, u32)>::empty() };
    let up = if y > 0 { seq![(x, (y - 1) as u32)] } else { Seq::<(u32, u32)>::empty() };
    let down = if y < h - 1 { seq![(x, (y + 1) as u32)] } else { Seq::<(u32, u32)>::empty() };
    let n = neighbors4_spec(w, h, x, y);
    assert(n == left + right + up + down);
    assert(n.contains(c) <==> (left.contains(c) || right.contains(c) || up.contains(c) || down.contains(c))) by {
        if n.contains(c) {
            let k = choose|k: int| 0 <= k < n.len() && n[k] == c;
            if k < left.len() {
                assert(left[k] == c);
            } else if k < left.len() + right.len() {
                assert(right[k - left.len()] == c);
            } else if k < left.len() + right.len() + up.len() {
                assert(up[k - left.len() - right.len()] == c);
            } else {
                assert(down[k - left.len() - right.len() - up.len()] == c);
            }
        }
        if left.contains(c) {
            assert(n[0] == c);
        }
        if right.contains(c) {
            assert(n[left.len() as int] == c);
        }
        if up.contains(c) {
            assert(n[(left.len() + right.len()) as int] == c);
        }
        if down.contains(c) {
            assert(n[(left.len() + right.len() + up.len()) as int] == c);
        }
    }
    if left.contains(c) {
        assert(left[0] == c);
    }
    if right.contains(c) {
        assert(right[0] == c);
    }
    if up.contains(c) {
        assert(up[0] == c);
    }
    if down.contains(c) {
        assert(down[0] == c);
    }
    if c.0 < w && c.1 < h && orthogonally_adjacent(x, y, c) {
        if c.1 == y && c.0 + 1 == x {
            assert(left[0] == c);
        } else if c.1 == y && x + 1 == c.0 {
            assert(right[0] == c);
        } else if c.0 == x && c.1 + 1 == y {
            assert(up[0] == c);
        } else {
            assert(down[0] == c);
        }
    }
}

/// Whether `c` is one of the eight cells around `(x, y)`.
pub open spec fn touching(x: u32, y: u32, c: (u32, u32)) -> bool {
    &&& c != (x, y)
    &&& x <= c.0 + 1 && c.0 <= x + 1
    &&& y <= c.1 + 1 && c.1 <= y + 1
}

proof fn lemma_offset_cell(w: u32, h: u32, x: u32, y: u32, dx: int, dy: int, c: (u32, u32))
    requires
        x < w <= 0x7fff_ffff,
        y < h <= 0x7fff_ffff,
    ensures
        offset_cell(w, h, x, y, dx, dy).contains(c) <==> (c.0 < w && c.1 < h && c.0 == x + dx && c.1 == y
            + dy),
{
    let o = offset_cell(w, h, x, y, dx, dy);
    assert(u32_as_i32(x) == x && u32_as_i32(y) == y);
    if o.contains(c) {
        let k = choose|k: int| 0 <= k < o.len() && o[k] == c;
        assert(o.len() == 1 && k == 0);
    }
    if c.0 < w && c.1 < h && c.0 == x + dx && c.1 == y + dy {
        assert(o[0] == c);
    }
}

/// The neighbours of a cell on a map no wider or taller than `i32::MAX`
/// are exactly the cells around it that lie on the map.
pub proof fn law_neighbors8_on_map(w: u32, h: u32, x: u32, y: u32, c: (u32, u32))
    requires
        x < w <= 0x7fff_ffff,
        y < h <= 0x7fff_ffff,
    ensures
        neighbors8_spec(w, h, x, y).contains(c) <==> (c.0 < w && c.1 < h && touching(x, y, c)),
{
    let parts = seq![
        offset_cell(w, h, x, y, -1, -1),
        offset_cell(w, h, x, y, 0, -1),
        offset_cell(w, h, x, y, 1, -1),
        offset_cell(w, h, x, y, -1, 0),
        offset_cell(w, h, x, y, 1, 0),
        offset_cell(w, h, x, y, -1, 1),
        offset_cell(w, h, x, y, 0, 1),
        offset_cell(w, h, x, y, 1, 1)
    ];
    let ds = seq![(-1int, -1int), (0int, -1int), (1int, -1int), (-1int, 0int), (1int, 0int), (-1int, 1int), (0int, 1int), (1int, 1int)];
    let n = neighbors8_spec(w, h, x, y);
    assert forall|j: int| 0 <= j < 8 implies (#[trigger] parts[j]).contains(c) <==> (c.0 < w && c.1 < h
        && c.0 == x + ds[j].0 && c.1 == y + ds[j].1) by {
        lemma_offset_cell(w, h, x, y, ds[j].0, ds[j].1, c);
    }
    assert forall|j: int| 0 <= j < 8 implies (#[trigger] parts[j]).len() <= 1 by {}
    // the concatenation contains c exactly when one of its parts does
    let p0 = parts[0];
    let p1 = parts[1];
    let p2 = parts[2];
    let p3 = parts[3];
    let p4 = parts[4];
    let p5 = parts[5];
    let p6 = parts[6];
    let p7 = parts[7];
    assert(n == p0 + p1 + p2 + p3 + p4 + p5 + p6 + p7);
    assert(n.contains(c) <==> (p0.contains(c) || p1.contains(c) || p2.contains(c) || p3.contains(c)
        || p4.contains(c) || p5.contains(c) || p6.contains(c) || p7.contains(c))) by {
        lemma_concat_contains(p0, p1, c);
        lemma_concat_contains(p0 + p1, p2, c);
        lemma_concat_contains(p0 + p1 + p2, p3, c);
        lemma_concat_contains(p0 + p1 + p2 + p3, p4, c);
        lemma_concat_contains(p0 + p1 + p2 + p3 + p4, p5, c);
        lemma_concat_contains(p0 + p1 + p2 + p3 + p4 + p5, p6, c);
        lemma_concat_contains(p0 + p1 + p2 + p3 + p4 + p5 + p6, p7, c);
    }
    assert(parts[0] == p0 && parts[1] == p1 && parts[2] == p2 && parts[3] == p3);
    assert(parts[4] == p4 && parts[5] == p5 && parts[6] == p6 && parts[7] == p7);
}

proof fn lemma_concat_contains(a: Seq<(u32, u32)>, b: Seq<(u32, u32)>, c: (u32, u32))
    ensures
        (a + b).contains(c) <==> (a.contains(c) || b.contains(c)),
{
    if (a + b).contains(c) {
        let k = choose|k: int| 0 <= k < (a + b).len() && (a + b)[k] == c;
        if k < a.len() {
            assert(a[k] == c);
        } else {
            assert(b[k - a.len()] == c);
        }
    }
    if a.contains(c) {
        let k = choose|k: int| 0 <= k < a.len() && a[k] == c;
        assert((a + b)[k] == c);
    }
    if b.contains(c) {
        let k = choose|k: int| 0 <= k < b.len() && b[k] == c;
        assert((a + b)[a.len() + k] == c);
    }
}

} // verus!
