//! Fog of war: per-tile exploration state driven by vision counts.

use vstd::prelude::*;

use crate::map::tilemap::{lemma_index_in_range, u32_as_i32};

verus! {

/// What the player knows of a tile.
#[derive(Clone, Copy, Debug, PartialEq, Eq, Hash, Structural)]
pub enum FogState {
    /// Never seen: fully dark.
    Unexplored,
    /// Seen before: terrain shown, units hidden.
    Explored,
    /// In some unit's current vision.
    Visible,
}

impl Default for FogState {
    fn default() -> (r: Self)
        ensures
            r == FogState::Unexplored,
    {
        FogState::Unexplored
    }
}

/// Whether the offset `(dx, dy)` lies in the vision disc of radius `r`:
/// inside the `[-r, r]` square and at squared distance at most `r * r`.
pub open spec fn in_disc(r: int, dx: int, dy: int) -> bool {
    &&& -r <= dx <= r
    &&& -r <= dy <= r
    &&& dx * dx + dy * dy <= r * r
}

/// The new vision count of a tile that one vision disc enters (`add`) or leaves.
pub open spec fn shifted_count(c: u32, add: bool) -> u32 {
    if add {
        (c + 1) as u32
    } else if c > 0 {
        (c - 1) as u32
    } else {
        0
    }
}

/// The state a tile takes when the fog is refreshed with vision count `c`.
pub open spec fn refreshed_state(s: FogState, c: u32) -> FogState {
    if c > 0 {
        FogState::Visible
    } else if s == FogState::Visible {
        FogState::Explored
    } else {
        s
    }
}

/// Mathematical model of a [`FogOfWar`].
pub struct FogView {
    pub width: nat,
    pub height: nat,
    /// Fog state of each tile, row by row.
    pub states: Seq<FogState>,
    /// How many vision discs cover each tile, row by row.
    pub counts: Seq<u32>,
    pub enabled: bool,
}

impl FogView {
    pub open spec fn wf(self) -> bool {
        &&& self.width * self.height <= u32::MAX
        &&& self.states.len() == self.width * self.height
        &&& self.counts.len() == self.width * self.height
    }

    pub open spec fn in_bounds(self, x: int, y: int) -> bool {
        0 <= x < self.width && 0 <= y < self.height
    }

    pub open spec fn index_of(self, x: int, y: int) -> int {
        y * self.width + x
    }

    /// Column of the tile stored at position `i`.
    pub open spec fn cell_x(self, i: int) -> int {
        i % (self.width as int)
    }

    /// Row of the tile stored at position `i`.
    pub open spec fn cell_y(self, i: int) -> int {
        i / (self.width as int)
    }

    /// Whether the disc of radius `r` around `(cx, cy)` reaches the tile at
    /// position `i`. Coordinates are compared as signed 32-bit values, so a
    /// map whose width or height does not fit `i32` is never reached.
    pub open spec fn covers(self, cx: int, cy: int, r: int, i: int) -> bool {
        &&& self.width <= 0x7fff_ffff
        &&& self.height <= 0x7fff_ffff
        &&& in_disc(r, self.cell_x(i) - cx, self.cell_y(i) - cy)
    }

    /// The fog after a disc of radius `r` around `(cx, cy)` is added
    /// (`add`) or removed: each covered count moves by one, saturating at 0.
    pub open spec fn shift_vision(self, cx: int, cy: int, r: int, add: bool) -> FogView {
        FogView {
            counts: Seq::new(
                self.counts.len(),
                |i: int|
                    if self.covers(cx, cy, r, i) {
                        shifted_count(self.counts[i], add)
                    } else {
                        self.counts[i]
                    },
            ),
            ..self
        }
    }

    /// The fog after every tile state is refreshed from its vision count.
    pub open spec fn refreshed(self) -> FogView {
        FogView {
            states: Seq::new(self.states.len(), |i: int| refreshed_state(self.states[i], self.counts[i])),
            ..self
        }
    }

    /// The state reported for `(x, y)`.
    pub open spec fn state_at(self, x: int, y: int) -> FogState {
        if !self.enabled {
            FogState::Visible
        } else if self.in_bounds(x, y) {
            self.states[self.index_of(x, y)]
        } else {
            FogState::Unexplored
        }
    }

    /// The vision count reported for `(x, y)`.
    pub open spec fn count_at(self, x: int, y: int) -> u32 {
        if self.in_bounds(x, y) {
            self.counts[self.index_of(x, y)]
        } else {
            0
        }
    }
}

/// The conditions under which a vision disc can be traced without `i32`
/// overflow: the radius keeps `dx * dx + dy * dy` in range and the centre
/// plus or minus the radius stays in range.
pub open spec fn vision_args_ok(center_x: u32, center_y: u32, range: u32) -> bool {
    &&& range <= 32767
    &&& u32_as_i32(center_x) - range >= -0x8000_0000
    &&& u32_as_i32(center_x) + range <= 0x7fff_ffff
    &&& u32_as_i32(center_y) - range >= -0x8000_0000
    &&& u32_as_i32(center_y) + range <= 0x7fff_ffff
}

/// Whether the offset `(dxi, dyi)` comes before `(dx, dy)` in the row-by-row
/// scan of the disc's square.
pub open spec fn scanned_before(dxi: int, dyi: int, dx: int, dy: int) -> bool {
    dyi < dy || (dyi == dy && dxi < dx)
}

/// The counts of `v` after the scan has passed every offset before `(dx, dy)`.
pub open spec fn partial_counts(v: FogView, cx: int, cy: int, r: int, add: bool, dx: int, dy: int) -> Seq<
    u32,
> {
    Seq::new(
        v.counts.len(),
        |i: int|
            if v.covers(cx, cy, r, i) && scanned_before(v.cell_x(i) - cx, v.cell_y(i) - cy, dx, dy) {
                shifted_count(v.counts[i], add)
            } else {
                v.counts[i]
            },
    )
}

proof fn lemma_cell_of_index(v: FogView, x: int, y: int)
    requires
        v.wf(),
        v.in_bounds(x, y),
    ensures
        0 <= v.index_of(x, y) < v.counts.len(),
        v.cell_x(v.index_of(x, y)) == x,
        v.cell_y(v.index_of(x, y)) == y,
{
    lemma_index_in_range(v.width, v.height, x, y);
    vstd::arithmetic::div_mod::lemma_fundamental_div_mod_converse(
        y * v.width + x,
        v.width as int,
        y,
        x,
    );
}

proof fn lemma_index_of_cell(v: FogView, i: int)
    requires
        v.wf(),
        0 <= i < v.counts.len(),
    ensures
        v.width > 0,
        v.in_bounds(v.cell_x(i), v.cell_y(i)),
        v.index_of(v.cell_x(i), v.cell_y(i)) == i,
{
    assert(v.width > 0) by (nonlinear_arith)
        requires
            0 <= i < v.width * v.height,
    ;
    crate::map::tilemap::lemma_coords_of_index(v.width, v.height, i);
}

/// Advances the scan invariant past offset `(dx, dy)`, in the case where the
/// offset names no tile of the map (outside the disc or off the map).
proof fn lemma_scan_skip(v: FogView, cx: int, cy: int, r: int, add: bool, dx: int, dy: int)
    requires
        v.wf(),
        !(in_disc(r, dx, dy) && v.width <= 0x7fff_ffff && v.height <= 0x7fff_ffff && v.in_bounds(
            cx + dx,
            cy + dy,
        )),
    ensures
        partial_counts(v, cx, cy, r, add, dx + 1, dy) == partial_counts(v, cx, cy, r, add, dx, dy),
{
    assert forall|i: int| 0 <= i < v.counts.len() implies #[trigger] partial_counts(
        v,
        cx,
        cy,
        r,
        add,
        dx + 1,
        dy,
    )[i] == partial_counts(v, cx, cy, r, add, dx, dy)[i] by {
        lemma_index_of_cell(v, i);
    }
    assert(partial_counts(v, cx, cy, r, add, dx + 1, dy) =~= partial_counts(v, cx, cy, r, add, dx, dy));
}

/// Advances the scan invariant past offset `(dx, dy)`, in the case where it
/// names the tile at position `idx`.
proof fn lemma_scan_hit(v: FogView, cx: int, cy: int, r: int, add: bool, dx: int, dy: int, idx: int)
    requires
        v.wf(),
        in_disc(r, dx, dy),
        v.width <= 0x7fff_ffff,
        v.height <= 0x7fff_ffff,
        v.in_bounds(cx + dx, cy + dy),
        idx == v.index_of(cx + dx, cy + dy),
    ensures
        0 <= idx < v.counts.len(),
        v.covers(cx, cy, r, idx),
        partial_counts(v, cx, cy, r, add, dx, dy)[idx] == v.counts[idx],
        partial_counts(v, cx, cy, r, add, dx + 1, dy) == partial_counts(v, cx, cy, r, add, dx, dy).update(
            idx,
            shifted_count(v.counts[idx], add),
        ),
{
    lemma_cell_of_index(v, cx + dx, cy + dy);
    assert forall|i: int| 0 <= i < v.counts.len() && i != idx implies #[trigger] partial_counts(
        v,
        cx,
        cy,
        r,
        add,
        dx + 1,
        dy,
    )[i] == partial_counts(v, cx, cy, r, add, dx, dy)[i] by {
        lemma_index_of_cell(v, i);
        if v.cell_x(i) - cx == dx && v.cell_y(i) - cy == dy {
            assert(i == idx);
        }
    }
    assert(partial_counts(v, cx, cy, r, add, dx + 1, dy) =~= partial_counts(
        v,
        cx,
        cy,
        r,
        add,
        dx,
        dy,
    ).update(idx, shifted_count(v.counts[idx], add)));
}

/// The fog of war of a `width` by `height` tile map.
#[derive(Clone, Debug)]
pub struct FogOfWar {
    width: u32,
    height: u32,
    states: Vec<FogState>,
    vision_count: Vec<u32>,
    /// When false, every tile reads as visible.
    pub enabled: bool,
}

impl View for FogOfWar {
    type V = FogView;

    closed spec fn view(&self) -> FogView {
        FogView {
            width: self.width as nat,
            height: self.height as nat,
            states: self.states@,
            counts: self.vision_count@,
            enabled: self.enabled,
        }
    }
}

impl FogOfWar {
    /// An enabled fog with every tile unexplored and unseen.
    pub fn new(width: u32, height: u32) -> (f: Self)
        requires
            width * height <= u32::MAX,
        ensures
            f@.wf(),
            f@.width == width,
            f@.height == height,
            f@.enabled,
            f@.states == Seq::new(width as nat * height as nat, |i: int| FogState::Unexplored),
            f@.counts == Seq::new(width as nat * height as nat, |i: int| 0u32),
    {
        let size = (width * height) as usize;
        let mut states: Vec<FogState> = Vec::new();
        let mut vision_count: Vec<u32> = Vec::new();
        let mut i: usize = 0;
        while i < size
            invariant
                i <= size,
                states@ == Seq::new(i as nat, |k: int| FogState::Unexplored),
                vision_count@ == Seq::new(i as nat, |k: int| 0u32),
            decreases size - i,
        {
            states.push(FogState::Unexplored);
            vision_count.push(0);
            i = i + 1;
        }
        FogOfWar { width, height, states, vision_count, enabled: true }
    }

    /// Map width in tiles.
    pub fn width(&self) -> (r: u32)
        ensures
            r == self@.width,
    {
        self.width
    }

    /// Map height in tiles.
    pub fn height(&self) -> (r: u32)
        ensures
            r == self@.height,
    {
        self.height
    }

    /// Whether `(x, y)` lies on the map.
    pub fn in_bounds(&self, x: u32, y: u32) -> (r: bool)
        ensures
            r == self@.in_bounds(x as int, y as int),
    {
        x < self.width && y < self.height
    }

    fn index(&self, x: u32, y: u32) -> (i: usize)
        requires
            self@.wf(),
            self@.in_bounds(x as int, y as int),
        ensures
            i == self@.index_of(x as int, y as int),
            i < self@.counts.len(),
    {
        proof {
            lemma_index_in_range(self.width as nat, self.height as nat, x as int, y as int);
        }
        (y * self.width + x) as usize
    }

    /// The fog state of `(x, y)`: always `Visible` when the fog is disabled,
    /// `Unexplored` off the map.
    pub fn get_state(&self, x: u32, y: u32) -> (s: FogState)
        requires
            self@.wf(),
        ensures
            s == self@.state_at(x as int, y as int),
    {
        if !self.enabled {
            return FogState::Visible;
        }
        if self.in_bounds(x, y) {
            self.states[self.index(x, y)]
        } else {
            FogState::Unexplored
        }
    }

    /// How many vision discs cover `(x, y)`; 0 off the map.
    pub fn get_vision_count(&self, x: u32, y: u32) -> (c: u32)
        requires
            self@.wf(),
        ensures
            c == self@.count_at(x as int, y as int),
    {
        if self.in_bounds(x, y) {
            self.vision_count[self.index(x, y)]
        } else {
            0
        }
    }

    fn shift_vision(&mut self, center_x: u32, center_y: u32, range: u32, add: bool)
        requires
            old(self)@.wf(),
            vision_args_ok(center_x, center_y, range),
            add ==> forall|i: int|
                0 <= i < old(self)@.counts.len() && old(self)@.covers(
                    u32_as_i32(center_x),
                    u32_as_i32(center_y),
                    range as int,
                    i,
                ) ==> #[trigger] old(self)@.counts[i] < u32::MAX,
        ensures
            final(self)@ == old(self)@.shift_vision(
                u32_as_i32(center_x),
                u32_as_i32(center_y),
                range as int,
                add,
            ),
    {
        let ghost v0 = self@;
        let ghost cx = u32_as_i32(center_x);
        let ghost cy = u32_as_i32(center_y);
        let ghost r = range as int;
        proof {
            crate::map::tilemap::lemma_u32_as_i32(center_x);
            crate::map::tilemap::lemma_u32_as_i32(center_y);
            crate::map::tilemap::lemma_u32_as_i32(self.width);
            crate::map::tilemap::lemma_u32_as_i32(self.height);
            assert(range * range <= 32767 * 32767) by (nonlinear_arith)
                requires
                    range <= 32767,
            ;
        }
        let ri = range as i32;
        let range_sq = (range * range) as i32;
        let cxi = center_x as i32;
        let cyi = center_y as i32;
        let wi = self.width as i32;
        let hi = self.height as i32;
        let mut dy: i32 = -ri;
        assert(partial_counts(v0, cx, cy, r, add, -r, -r) =~= v0.counts);
        while dy <= ri
            invariant
                v0.wf(),
                vision_args_ok(center_x, center_y, range),
                cx == cxi as int,
                cy == cyi as int,
                cx == u32_as_i32(center_x),
                cy == u32_as_i32(center_y),
                r == ri as int,
                r == range as int,
                range_sq as int == r * r,
                wi as int == u32_as_i32(v0.width as u32),
                hi as int == u32_as_i32(v0.height as u32),
                v0.width == self.width as nat,
                v0.height == self.height as nat,
                -r <= dy <= r + 1,
                self@ == (FogView { counts: partial_counts(v0, cx, cy, r, add, -r, dy as int), ..v0 }),
                add ==> forall|i: int|
                    0 <= i < v0.counts.len() && v0.covers(cx, cy, r, i) ==> #[trigger] v0.counts[i]
                        < u32::MAX,
            decreases r + 1 - dy,
        {
            let mut dx: i32 = -ri;
            while dx <= ri
                invariant
                    v0.wf(),
                    vision_args_ok(center_x, center_y, range),
                    cx == cxi as int,
                    cy == cyi as int,
                    cx == u32_as_i32(center_x),
                    cy == u32_as_i32(center_y),
                    r == ri as int,
                    r == range as int,
                    range_sq as int == r * r,
                    wi as int == u32_as_i32(v0.width as u32),
                    hi as int == u32_as_i32(v0.height as u32),
                    v0.width == self.width as nat,
                    v0.height == self.height as nat,
                    -r <= dy <= r,
                    -r <= dx <= r + 1,
                    self@ == (FogView { counts: partial_counts(v0, cx, cy, r, add, dx as int, dy as int), ..v0 }),
                    add ==> forall|i: int|
                        0 <= i < v0.counts.len() && v0.covers(cx, cy, r, i) ==> #[trigger] v0.counts[i]
                            < u32::MAX,
                decreases r + 1 - dx,
            {
                proof {
                    assert(dx * dx <= r * r) by (nonlinear_arith)
                        requires
                            -r <= dx <= r,
                    ;
                    assert(dy * dy <= r * r) by (nonlinear_arith)
                        requires
                            -r <= dy <= r,
                    ;
                    assert(0 <= dx * dx && 0 <= dy * dy) by (nonlinear_arith);
                    assert(r * r <= 32767 * 32767) by (nonlinear_arith)
                        requires
                            0 <= r <= 32767,
                    ;
                }
                let ghost dxg = dx as int;
                let ghost dyg = dy as int;
                let dist_sq = dx * dx + dy * dy;
                let x = cxi + dx;
                let y = cyi + dy;
                if dist_sq <= range_sq && x >= 0 && y >= 0 && x < wi && y < hi {
                    let ux = x as u32;
                    let uy = y as u32;
                    let idx = self.index(ux, uy);
                    proof {
                        lemma_scan_hit(v0, cx, cy, r, add, dxg, dyg, idx as int);
                    }
                    let c = self.vision_count[idx];
                    if add {
                        self.vision_count.set(idx, c + 1);
                    } else {
                        self.vision_count.set(idx, c.saturating_sub(1));
                    }
                } else {
                    proof {
                        lemma_scan_skip(v0, cx, cy, r, add, dxg, dyg);
                    }
                }
                dx = dx + 1;
            }
            proof {
                assert(partial_counts(v0, cx, cy, r, add, -r, dy + 1) =~= partial_counts(
                    v0,
                    cx,
                    cy,
                    r,
                    add,
                    r + 1,
                    dy as int,
                ));
            }
            dy = dy + 1;
        }
        proof {
            assert(partial_counts(v0, cx, cy, r, add, -r, r + 1) =~= v0.shift_vision(cx, cy, r, add).counts);
        }
    }

    /// Adds one to the vision count of every tile within `range` of
    /// `(center_x, center_y)` (squared Euclidean distance).
    pub fn add_vision(&mut self, center_x: u32, center_y: u32, range: u32)
        requires
            old(self)@.wf(),
            vision_args_ok(center_x, center_y, range),
            forall|i: int|
                0 <= i < old(self)@.counts.len() && old(self)@.covers(
                    u32_as_i32(center_x),
                    u32_as_i32(center_y),
                    range as int,
                    i,
                ) ==> #[trigger] old(self)@.counts[i] < u32::MAX,
        ensures
            final(self)@ == old(self)@.shift_vision(
                u32_as_i32(center_x),
                u32_as_i32(center_y),
                range as int,
                true,
            ),
    {
        self.shift_vision(center_x, center_y, range, true);
    }

    /// Subtracts one (saturating at 0) from the vision count of every tile
    /// within `range` of `(center_x, center_y)`.
    pub fn remove_vision(&mut self, center_x: u32, center_y: u32, range: u32)
        requires
            old(self)@.wf(),
            vision_args_ok(center_x, center_y, range),
        ensures
            final(self)@ == old(self)@.shift_vision(
                u32_as_i32(center_x),
                u32_as_i32(center_y),
                range as int,
                false,
            ),
    {
        self.shift_vision(center_x, center_y, range, false);
    }
}


impl FogOfWar {
    /// Whether every tile that the disc of `range` around
    /// `(center_x, center_y)` covers can still take one more vision count,
    /// that is, whether [`FogOfWar::add_vision`] may be called.
    pub fn vision_has_room(&self, center_x: u32, center_y: u32, range: u32) -> (b: bool)
        requires
            self@.wf(),
        ensures
            b == (forall|i: int|
                0 <= i < self@.counts.len() && self@.covers(
                    u32_as_i32(center_x),
                    u32_as_i32(center_y),
                    range as int,
                    i,
                ) ==> #[trigger] self@.counts[i] < u32::MAX),
    {
        let ghost v = self@;
        let ghost cx = u32_as_i32(center_x);
        let ghost cy = u32_as_i32(center_y);
        let ghost r = range as int;
        proof {
            crate::map::tilemap::lemma_u32_as_i32(center_x);
            crate::map::tilemap::lemma_u32_as_i32(center_y);
        }
        if self.width > 0x7fff_ffff || self.height > 0x7fff_ffff {
            return true;
        }
        let cxl = center_x as i32 as i128;
        let cyl = center_y as i32 as i128;
        let rl = range as i128;
        let n = self.vision_count.len();
        let mut i: usize = 0;
        while i < n
            invariant
                v == self@,
                v.wf(),
                n == v.counts.len(),
                v.width <= 0x7fff_ffff,
                v.height <= 0x7fff_ffff,
                cxl == cx,
                cyl == cy,
                cx == u32_as_i32(center_x),
                cy == u32_as_i32(center_y),
                rl == r,
                r == range as int,
                i <= n,
                forall|j: int| 0 <= j < i && v.covers(cx, cy, r, j) ==> #[trigger] v.counts[j] < u32::MAX,
            decreases n - i,
        {
            proof {
                lemma_index_of_cell(v, i as int);
            }
            let x = (i as u32 % self.width) as i128;
            let y = (i as u32 / self.width) as i128;
            let dx = x - cxl;
            let dy = y - cyl;
            if -rl <= dx && dx <= rl && -rl <= dy && dy <= rl {
                proof {
                    assert(dx * dx <= r * r) by (nonlinear_arith)
                        requires
                            -r <= dx <= r,
                    ;
                    assert(dy * dy <= r * r) by (nonlinear_arith)
                        requires
                            -r <= dy <= r,
                    ;
                    assert(0 <= dx * dx && 0 <= dy * dy) by (nonlinear_arith);
                    assert(r * r <= 0xffff_ffff * 0xffff_ffff) by (nonlinear_arith)
                        requires
                            0 <= r <= 0xffff_ffff,
                    ;
                }
                if dx * dx + dy * dy <= rl * rl && self.vision_count[i] == u32::MAX {
                    assert(v.covers(cx, cy, r, i as int));
                    return false;
                }
            }
            i = i + 1;
        }
        true
    }

    /// Refreshes every tile from its vision count: seen tiles become
    /// `Visible`, tiles no longer seen drop from `Visible` to `Explored`,
    /// and unexplored unseen tiles stay `Unexplored`.
    pub fn update_states(&mut self)
        requires
            old(self)@.wf(),
        ensures
            final(self)@ == old(self)@.refreshed(),
    {
        let ghost v0 = self@;
        let n = self.states.len();
        let mut i: usize = 0;
        assert(self@.states =~= Seq::new(
            n as nat,
            |k: int|
                if k < 0 {
                    refreshed_state(v0.states[k], v0.counts[k])
                } else {
                    v0.states[k]
                },
        ));
        while i < n
            invariant
                v0.wf(),
                n == v0.states.len(),
                i <= n,
                self@ == (FogView {
                    states: Seq::new(
                        n as nat,
                        |k: int|
                            if k < i {
                                refreshed_state(v0.states[k], v0.counts[k])
                            } else {
                                v0.states[k]
                            },
                    ),
                    ..v0
                }),
            decreases n - i,
        {
            if self.vision_count[i] > 0 {
                self.states.set(i, FogState::Visible);
            } else if self.states[i] == FogState::Visible {
                self.states.set(i, FogState::Explored);
            }
            proof {
                assert(self@.states =~= Seq::new(
                    n as nat,
                    |k: int|
                        if k < i + 1 {
                            refreshed_state(v0.states[k], v0.counts[k])
                        } else {
                            v0.states[k]
                        },
                ));
            }
            i = i + 1;
        }
        assert(self@.states =~= v0.refreshed().states);
    }

    /// Makes every tile unexplored and unseen.
    pub fn reset(&mut self)
        requires
            old(self)@.wf(),
        ensures
            final(self)@ == (FogView {
                states: Seq::new(old(self)@.states.len(), |i: int| FogState::Unexplored),
                counts: Seq::new(old(self)@.counts.len(), |i: int| 0u32),
                ..old(self)@
            }),
    {
        let ghost v0 = self@;
        let n = self.states.len();
        let mut i: usize = 0;
        assert(self@.states =~= Seq::new(n as nat, |k: int| if k < 0 { FogState::Unexplored } else { v0.states[k] }));
        assert(self@.counts =~= Seq::new(n as nat, |k: int| if k < 0 { 0u32 } else { v0.counts[k] }));
        while i < n
            invariant
                v0.wf(),
                n == v0.states.len(),
                n == v0.counts.len(),
                i <= n,
                self@ == (FogView {
                    states: Seq::new(n as nat, |k: int| if k < i { FogState::Unexplored } else { v0.states[k] }),
                    counts: Seq::new(n as nat, |k: int| if k < i { 0u32 } else { v0.counts[k] }),
                    ..v0
                }),
            decreases n - i,
        {
            self.states.set(i, FogState::Unexplored);
            self.vision_count.set(i, 0);
            proof {
                assert(self@.states =~= Seq::new(
                    n as nat,
                    |k: int| if k < i + 1 { FogState::Unexplored } else { v0.states[k] },
                ));
                assert(self@.counts =~= Seq::new(
                    n as nat,
                    |k: int| if k < i + 1 { 0u32 } else { v0.counts[k] },
                ));
            }
            i = i + 1;
        }
        assert(self@.states =~= Seq::new(n as nat, |i: int| FogState::Unexplored));
        assert(self@.counts =~= Seq::new(n as nat, |i: int| 0u32));
    }

    /// Marks every tile visible; vision counts are left as they are.
    pub fn reveal_all(&mut self)
        requires
            old(self)@.wf(),
        ensures
            final(self)@ == (FogView {
                states: Seq::new(old(self)@.states.len(), |i: int| FogState::Visible),
                ..old(self)@
            }),
    {
        let ghost v0 = self@;
        let n = self.states.len();
        let mut i: usize = 0;
        assert(self@.states =~= Seq::new(n as nat, |k: int| if k < 0 { FogState::Visible } else { v0.states[k] }));
        while i < n
            invariant
                v0.wf(),
                n == v0.states.len(),
                i <= n,
                self@ == (FogView {
                    states: Seq::new(n as nat, |k: int| if k < i { FogState::Visible } else { v0.states[k] }),
                    ..v0
                }),
            decreases n - i,
        {
            self.states.set(i, FogState::Visible);
            proof {
                assert(self@.states =~= Seq::new(
                    n as nat,
                    |k: int| if k < i + 1 { FogState::Visible } else { v0.states[k] },
                ));
            }
            i = i + 1;
        }
        assert(self@.states =~= Seq::new(n as nat, |i: int| FogState::Visible));
    }
}

/// A unit's sight on the fog map.
#[derive(Clone, Copy, Debug)]
pub struct Vision {
    /// Vision radius in tiles.
    pub range: u32,
    /// The tile the unit's vision was last applied at.
    pub last_tile: Option<(u32, u32)>,
}

impl Vision {
    /// Vision of the given range, not yet applied anywhere.
    pub fn new(range: u32) -> (v: Self)
        ensures
            v == (Vision { range, last_tile: None }),
    {
        Vision { range, last_tile: None }
    }
}

/// The fog with the disc at a unit's last tile lifted (unchanged if it has none).
pub open spec fn lifted_fog(f: FogView, vision: Vision) -> FogView {
    match vision.last_tile {
        Some(old_tile) => f.shift_vision(
            u32_as_i32(old_tile.0),
            u32_as_i32(old_tile.1),
            vision.range as int,
            false,
        ),
        None => f,
    }
}

/// The fog after a unit with `vision` stands on `tile`: if it moved, its old
/// disc is removed and a new one added at `tile`.
pub open spec fn fog_after_move(f: FogView, vision: Vision, tile: (u32, u32)) -> FogView {
    if vision.last_tile == Some(tile) {
        f
    } else {
        lifted_fog(f, vision).shift_vision(u32_as_i32(tile.0), u32_as_i32(tile.1), vision.range as int, true)
    }
}

/// Whether moving `vision` to `tile` can be carried out: nothing is done
/// when the unit has not moved; otherwise both discs can be traced and,
/// once the old disc is lifted, every tile the new disc covers can take one
/// more vision count.
pub open spec fn move_ok(f: FogView, vision: Vision, tile: (u32, u32)) -> bool {
    vision.last_tile != Some(tile) ==> {
        &&& vision_args_ok(tile.0, tile.1, vision.range)
        &&& (vision.last_tile matches Some(t) ==> vision_args_ok(t.0, t.1, vision.range))
        &&& forall|i: int|
            0 <= i < f.counts.len() && f.covers(u32_as_i32(tile.0), u32_as_i32(tile.1), vision.range as int, i)
                ==> #[trigger] lifted_fog(f, vision).counts[i] < u32::MAX
    }
}

/// Removing a disc never raises a count.
proof fn lemma_remove_lowers(f: FogView, cx: int, cy: int, r: int)
    ensures
        f.shift_vision(cx, cy, r, false).counts.len() == f.counts.len(),
        forall|i: int|
            0 <= i < f.counts.len() ==> #[trigger] f.shift_vision(cx, cy, r, false).counts[i]
                <= f.counts[i],
{
}

impl FogOfWar {
    /// Moves a unit's vision to `tile`: when the unit stands on a new tile,
    /// the disc at its last tile is removed, a disc at `tile` is added, and
    /// `tile` becomes its last tile. Nothing changes if it has not moved.
    pub fn move_vision(&mut self, vision: &mut Vision, tile: (u32, u32))
        requires
            old(self)@.wf(),
            move_ok(old(self)@, *old(vision), tile),
        ensures
            final(self)@ == fog_after_move(old(self)@, *old(vision), tile),
            *final(vision) == (Vision { last_tile: Some(tile), ..*old(vision) }),
    {
        let moved = match vision.last_tile {
            Some(t) => t.0 != tile.0 || t.1 != tile.1,
            None => true,
        };
        if moved {
            let ghost f0 = self@;
            match vision.last_tile {
                Some(t) => {
                    self.remove_vision(t.0, t.1, vision.range);
                },
                None => {},
            }
            proof {
                let l = lifted_fog(f0, *vision);
                assert(self@ == l);
                assert forall|i: int|
                    0 <= i < self@.counts.len() && self@.covers(
                        u32_as_i32(tile.0),
                        u32_as_i32(tile.1),
                        vision.range as int,
                        i,
                    ) implies #[trigger] self@.counts[i] < u32::MAX by {
                    assert(f0.covers(u32_as_i32(tile.0), u32_as_i32(tile.1), vision.range as int, i));
                }
            }
            self.add_vision(tile.0, tile.1, vision.range);
            vision.last_tile = Some(tile);
        }
    }

    /// Whether [`FogOfWar::move_vision`] can move `vision` to `tile`, given
    /// that both discs can be traced: true when the unit has not moved, else
    /// whether, with its old disc lifted, every tile of the new disc can take
    /// one more vision count.
    pub fn move_has_room(&self, vision: &Vision, tile: (u32, u32)) -> (b: bool)
        requires
            self@.wf(),
            vision_args_ok(tile.0, tile.1, vision.range),
            vision.last_tile matches Some(t) ==> vision_args_ok(t.0, t.1, vision.range),
        ensures
            b == move_ok(self@, *vision, tile),
    {
        let moved = match vision.last_tile {
            Some(t) => t.0 != tile.0 || t.1 != tile.1,
            None => true,
        };
        if !moved {
            return true;
        }
        let mut lifted = FogOfWar {
            width: self.width,
            height: self.height,
            states: copy_states(&self.states),
            vision_count: copy_counts(&self.vision_count),
            enabled: self.enabled,
        };
        assert(lifted@ == self@);
        match vision.last_tile {
            Some(t) => {
                lifted.remove_vision(t.0, t.1, vision.range);
            },
            None => {},
        }
        proof {
            match vision.last_tile {
                Some(t) => {
                    lemma_remove_lowers(self@, u32_as_i32(t.0), u32_as_i32(t.1), vision.range as int);
                },
                None => {},
            }
            assert(lifted@ == lifted_fog(self@, *vision));
        }
        lifted.vision_has_room(tile.0, tile.1, vision.range)
    }
}

fn copy_states(v: &Vec<FogState>) -> (r: Vec<FogState>)
    ensures
        r@ == v@,
{
    let mut r: Vec<FogState> = Vec::new();
    let mut i: usize = 0;
    while i < v.len()
        invariant
            i <= v@.len(),
            r@ == v@.take(i as int),
        decreases v@.len() - i,
    {
        r.push(v[i]);
        assert(v@.take(i + 1) =~= v@.take(i as int).push(v@[i as int]));
        i = i + 1;
    }
    assert(v@.take(v@.len() as int) =~= v@);
    r
}

fn copy_counts(v: &Vec<u32>) -> (r: Vec<u32>)
    ensures
        r@ == v@,
{
    let mut r: Vec<u32> = Vec::new();
    let mut i: usize = 0;
    while i < v.len()
        invariant
            i <= v@.len(),
            r@ == v@.take(i as int),
        decreases v@.len() - i,
    {
        r.push(v[i]);
        assert(v@.take(i + 1) =~= v@.take(i as int).push(v@[i as int]));
        i = i + 1;
    }
    assert(v@.take(v@.len() as int) =~= v@);
    r
}

/// Whether a vision disc can be traced at `(center_x, center_y)` with
/// `range`, that is, whether `vision_args_ok` holds.
pub fn vision_args_fit(center_x: u32, center_y: u32, range: u32) -> (b: bool)
    ensures
        b == vision_args_ok(center_x, center_y, range),
{
    proof {
        crate::map::tilemap::lemma_u32_as_i32(center_x);
        crate::map::tilemap::lemma_u32_as_i32(center_y);
    }
    let cx = center_x as i32 as i64;
    let cy = center_y as i32 as i64;
    let r = range as i64;
    range <= 32767 && cx - r >= -0x8000_0000 && cx + r <= 0x7fff_ffff && cy - r >= -0x8000_0000
        && cy + r <= 0x7fff_ffff
}

/// Removing a vision disc right after adding the same disc restores every
/// vision count (and the whole fog), provided no covered count was saturated.
pub proof fn law_remove_undoes_add(f: FogView, cx: int, cy: int, r: int)
    requires
        forall|i: int| 0 <= i < f.counts.len() && f.covers(cx, cy, r, i) ==> #[trigger] f.counts[i] < u32::MAX,
    ensures
        f.shift_vision(cx, cy, r, true).shift_vision(cx, cy, r, false) == f,
{
    let g = f.shift_vision(cx, cy, r, true).shift_vision(cx, cy, r, false);
    assert(g.counts =~= f.counts);
}

/// After a refresh a tile is `Visible` exactly when its vision count is positive.
pub proof fn law_refresh_visible_iff_seen(f: FogView, i: int)
    requires
        f.wf(),
        0 <= i < f.states.len(),
    ensures
        (f.refreshed().states[i] == FogState::Visible) <==> f.counts[i] > 0,
{
}

/// A refresh never forgets a tile that has been explored, and never reveals
/// a tile that no vision disc covers.
pub proof fn law_refresh_keeps_exploration(f: FogView, i: int)
    requires
        f.wf(),
        0 <= i < f.states.len(),
    ensures
        f.states[i] != FogState::Unexplored ==> f.refreshed().states[i] != FogState::Unexplored,
        f.counts[i] == 0 && f.states[i] == FogState::Unexplored ==> f.refreshed().states[i]
            == FogState::Unexplored,
{
}

/// Refreshing twice gives the same fog as refreshing once.
pub proof fn law_refresh_idempotent(f: FogView)
    requires
        f.wf(),
    ensures
        f.refreshed().refreshed() == f.refreshed(),
{
    assert(f.refreshed().refreshed().states =~= f.refreshed().states);
}

/// A disabled fog reports every position as visible.
pub proof fn law_disabled_shows_all(f: FogView, x: int, y: int)
    requires
        !f.enabled,
    ensures
        f.state_at(x, y) == FogState::Visible,
{
}

/// The fog after adding the discs of `discs` (centre x, centre y, radius) in order.
pub open spec fn with_discs_added(f: FogView, discs: Seq<(int, int, int)>) -> FogView
    decreases discs.len(),
{
    if discs.len() == 0 {
        f
    } else {
        let d = discs.last();
        with_discs_added(f, discs.drop_last()).shift_vision(d.0, d.1, d.2, true)
    }
}

/// How many of `discs` reach the tile at position `i` of `f`.
pub open spec fn discs_covering(f: FogView, discs: Seq<(int, int, int)>, i: int) -> nat
    decreases discs.len(),
{
    if discs.len() == 0 {
        0
    } else {
        let d = discs.last();
        discs_covering(f, discs.drop_last(), i) + if f.covers(d.0, d.1, d.2, i) {
            1nat
        } else {
            0nat
        }
    }
}

proof fn lemma_discs_added_shape(f: FogView, discs: Seq<(int, int, int)>)
    ensures
        with_discs_added(f, discs).counts.len() == f.counts.len(),
        with_discs_added(f, discs).width == f.width,
        with_discs_added(f, discs).height == f.height,
        with_discs_added(f, discs).states == f.states,
        with_discs_added(f, discs).enabled == f.enabled,
    decreases discs.len(),
{
    if discs.len() > 0 {
        lemma_discs_added_shape(f, discs.drop_last());
    }
}

proof fn lemma_discs_covering_prefix(f: FogView, discs: Seq<(int, int, int)>, i: int)
    requires
        discs.len() > 0,
    ensures
        discs_covering(f, discs.drop_last(), i) <= discs_covering(f, discs, i),
{
}

/// A vision count is the number of vision discs that cover the tile: starting
/// from a fog with all counts zero, adding any list of discs leaves on each
/// tile the number of those discs that reach it (while no count exceeds
/// `u32::MAX`).
pub proof fn law_counts_are_coverage(f: FogView, discs: Seq<(int, int, int)>, i: int)
    requires
        0 <= i < f.counts.len(),
        forall|k: int| 0 <= k < f.counts.len() ==> #[trigger] f.counts[k] == 0,
        forall|k: int| 0 <= k < f.counts.len() ==> #[trigger] discs_covering(f, discs, k) <= u32::MAX,
    ensures
        with_discs_added(f, discs).counts[i] == discs_covering(f, discs, i),
    decreases discs.len(),
{
    lemma_discs_added_shape(f, discs);
    if discs.len() > 0 {
        let rest = discs.drop_last();
        assert forall|k: int| 0 <= k < f.counts.len() implies #[trigger] discs_covering(f, rest, k)
            <= u32::MAX by {
            lemma_discs_covering_prefix(f, discs, k);
        }
        law_counts_are_coverage(f, rest, i);
        lemma_discs_added_shape(f, rest);
    }
}
} // verus!
