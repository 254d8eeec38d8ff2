//! Height maps stored row by row. Heights are `f32` values in `0..=1` in the
//! engine; here each is carried by its bit pattern.

use vstd::prelude::*;

use crate::map::tilemap::lemma_index_in_range;

verus! {

/// Bit pattern of the `f32` height 0.5 that a new height map is filled with.
pub const HALF_HEIGHT_BITS: u32 = 0x3F00_0000u32;

/// Mathematical model of a [`HeightMap`].
pub struct HeightMapView {
    pub width: nat,
    pub height: nat,
    /// Heights in row-major order: `(x, y)` sits at `y * width + x`.
    pub data: Seq<u32>,
}

impl HeightMapView {
    /// The cell count fits `u32` and matches the dimensions.
    pub open spec fn wf(self) -> bool {
        &&& self.width * self.height <= u32::MAX
        &&& self.data.len() == self.width * self.height
    }

    pub open spec fn in_bounds(self, x: int, y: int) -> bool {
        0 <= x < self.width && 0 <= y < self.height
    }

    /// The height at `(x, y)`, and 0 (the bits of `0.0`) off the map.
    pub open spec fn height_at(self, x: int, y: int) -> u32 {
        if self.in_bounds(x, y) {
            self.data[y * self.width + x]
        } else {
            0
        }
    }

    /// The map with the height at `(x, y)` replaced, or unchanged off the map.
    pub open spec fn with_height(self, x: int, y: int, bits: u32) -> HeightMapView {
        if self.in_bounds(x, y) {
            HeightMapView { data: self.data.update(y * self.width + x, bits), ..self }
        } else {
            self
        }
    }
}

/// A rectangular grid of heights.
#[derive(Clone, Debug)]
pub struct HeightMap {
    width: u32,
    height: u32,
    data: Vec<u32>,
}

impl View for HeightMap {
    type V = HeightMapView;

    closed spec fn view(&self) -> HeightMapView {
        HeightMapView { width: self.width as nat, height: self.height as nat, data: self.data@ }
    }
}

impl HeightMap {
    /// A `width` by `height` map with every height 0.5.
    pub fn new(width: u32, height: u32) -> (m: Self)
        requires
            width * height <= u32::MAX,
        ensures
            m@.wf(),
            m@.width == width,
            m@.height == height,
            m@.data == Seq::new(width as nat * height as nat, |i: int| HALF_HEIGHT_BITS),
    {
        let n = (width * height) as usize;
        let mut data: Vec<u32> = Vec::new();
        let mut i: usize = 0;
        while i < n
            invariant
                i <= n,
                data@ == Seq::new(i as nat, |j: int| HALF_HEIGHT_BITS),
            decreases n - i,
        {
            data.push(HALF_HEIGHT_BITS);
            i = i + 1;
        }
        HeightMap { width, height, data }
    }

    /// A map over the given heights, which must number `width * height`.
    pub fn from_data(width: u32, height: u32, data: Vec<u32>) -> (m: Self)
        requires
            width * height <= u32::MAX,
            data@.len() == width * height,
        ensures
            m@.wf(),
            m@.width == width,
            m@.height == height,
            m@.data == data@,
    {
        HeightMap { width, height, data }
    }

    pub fn width(&self) -> (r: u32)
        ensures
            r == self@.width,
    {
        self.width
    }

    pub fn height(&self) -> (r: u32)
        ensures
            r == self@.height,
    {
        self.height
    }

    /// Whether `(x, y)` lies on the map.
    pub fn in_bounds(&self, x: u32, y: u32) -> (r: bool)
        ensures
            r == self@.in_bounds(x as int, y as int),
    {
        x < self.width && y < self.height
    }

    /// The height at `(x, y)`, or the bits of `0.0` off the map.
    pub fn get_bits(&self, x: u32, y: u32) -> (r: u32)
        requires
            self@.wf(),
        ensures
            r == self@.height_at(x as int, y as int),
    {
        if self.in_bounds(x, y) {
            proof {
                lemma_index_in_range(self.width as nat, self.height as nat, x as int, y as int);
            }
            self.data[(y * self.width + x) as usize]
        } else {
            0
        }
    }

    /// Replaces the height at `(x, y)`; does nothing off the map.
    pub fn set_bits(&mut self, x: u32, y: u32, bits: u32)
        requires
            old(self)@.wf(),
        ensures
            final(self)@ == old(self)@.with_height(x as int, y as int, bits),
            final(self)@.wf(),
    {
        if self.in_bounds(x, y) {
            proof {
                lemma_index_in_range(self.width as nat, self.height as nat, x as int, y as int);
            }
            self.data.set((y * self.width + x) as usize, bits);
        }
    }

    /// Every height with its coordinates, in storage order.
    pub fn iter(&self) -> (r: Vec<(u32, u32, u32)>)
        requires
            self@.wf(),
        ensures
            r@.len() == self@.data.len(),
            forall|i: int|
                0 <= i < r@.len() ==> #[trigger] r@[i] == (
                    (i % (self@.width as int)) as u32,
                    (i / (self@.width as int)) as u32,
                    self@.data[i],
                ),
    {
        let mut result: Vec<(u32, u32, u32)> = Vec::new();
        let n = self.data.len();
        let mut i: usize = 0;
        while i < n
            invariant
                n == self@.data.len(),
                self@.wf(),
                i <= n,
                result@.len() == i,
                forall|j: int|
                    0 <= j < i ==> #[trigger] result@[j] == (
                        (j % (self.width as int)) as u32,
                        (j / (self.width as int)) as u32,
                        self@.data[j],
                    ),
            decreases n - i,
        {
            proof {
                assert(self.width > 0) by (nonlinear_arith)
                    requires
                        i < self.width * self.height,
                ;
                vstd::arithmetic::div_mod::lemma_div_pos_is_pos(i as int, self.width as int);
                vstd::arithmetic::div_mod::lemma_div_is_ordered_by_denominator(i as int, 1, self.width as int);
                vstd::arithmetic::div_mod::lemma_mod_pos_bound(i as int, self.width as int);
            }
            let idx = i as u32;
            let x = idx % self.width;
            let y = idx / self.width;
            result.push((x, y, self.data[i]));
            i = i + 1;
        }
        result
    }
}

/// Writing a height and reading it back gives what was written, and other
/// cells keep their heights.
pub proof fn law_height_read_after_write(m: HeightMapView, x: int, y: int, bits: u32, x2: int, y2: int)
    requires
        m.wf(),
    ensures
        m.in_bounds(x, y) ==> m.with_height(x, y, bits).height_at(x, y) == bits,
        (x2 != x || y2 != y) ==> m.with_height(x, y, bits).height_at(x2, y2) == m.height_at(x2, y2),
{
    if m.in_bounds(x, y) {
        lemma_index_in_range(m.width, m.height, x, y);
    }
    if m.in_bounds(x, y) && m.in_bounds(x2, y2) && (x2 != x || y2 != y) {
        lemma_index_in_range(m.width, m.height, x2, y2);
        if y2 * m.width + x2 == y * m.width + x {
            crate::map::tilemap::lemma_index_injective(m.width, x, y, x2, y2);
        }
    }
}

} // verus!
