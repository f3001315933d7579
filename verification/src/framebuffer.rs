use vstd::prelude::*;

verus! {

/// The background color written into every cell by `new` and `clear`.
pub const BACKGROUND: u32 = 0;

/// A row-major grid of 32-bit color values: the cell at `(x, y)` lives at
/// index `y * width + x` of `buffer`.
pub struct Framebuffer {
    pub width: usize,
    pub height: usize,
    pub buffer: Vec<u32>,
}

/// Builds a vector of `n` copies of `value`.
fn filled(value: u32, n: usize) -> (v: Vec<u32>)
    ensures
        v@.len() == n,
        forall|i: int| 0 <= i < n ==> v@[i] == value,
{
    let mut v: Vec<u32> = Vec::new();
    let mut k: usize = 0;
    while k < n
        invariant
            k <= n,
            v@.len() == k,
            forall|i: int| 0 <= i < k ==> v@[i] == value,
        decreases n - k,
    {
        v.push(value);
        k = k + 1;
    }
    v
}

impl Framebuffer {
    /// The structural invariant: the cell sequence covers the whole grid.
    pub open spec fn well_formed(&self) -> bool {
        self.buffer@.len() == self.width * self.height
    }

    /// Allocates a `width * height` grid with every cell set to `BACKGROUND`.
    pub fn new(width: usize, height: usize) -> (fb: Self)
        requires
            0 < width,
            0 < height,
            width * height <= usize::MAX,
        ensures
            fb.well_formed(),
            fb.width == width,
            fb.height == height,
            forall|i: int| 0 <= i < fb.buffer@.len() ==> fb.buffer@[i] == BACKGROUND,
    {
        let n = width * height;
        let buffer = filled(BACKGROUND, n);
        Framebuffer { width, height, buffer }
    }

    /// Writes `value` at `(x, y)` when the coordinates are in bounds;
    /// otherwise leaves the grid untouched.
    pub fn set_pixel(&mut self, x: usize, y: usize, value: u32)
        requires
            old(self).well_formed(),
        ensures
            final(self).well_formed(),
            final(self).width == old(self).width,
            final(self).height == old(self).height,
            x < old(self).width && y < old(self).height ==> final(self).buffer@ == old(
                self,
            ).buffer@.update(y * old(self).width + x, value),
            !(x < old(self).width && y < old(self).height) ==> final(self).buffer@ == old(
                self,
            ).buffer@,
    {
        if x < self.width && y < self.height {
            let _len = self.buffer.len();
            proof {
                assert(y * self.width + x < self.width * self.height) by (nonlinear_arith)
                    requires
                        x < self.width,
                        y < self.height,
                ;
            }
            let index = y * self.width + x;
            self.buffer.set(index, value);
        }
    }

    /// A read-only view of the cell sequence, row major.
    pub fn get_buffer(&self) -> (r: &Vec<u32>)
        ensures
            r@ == self.buffer@,
    {
        &self.buffer
    }

    /// Resets every cell to `BACKGROUND`; the dimensions stay as they are.
    pub fn clear(&mut self)
        requires
            old(self).well_formed(),
        ensures
            final(self).well_formed(),
            final(self).width == old(self).width,
            final(self).height == old(self).height,
            forall|i: int|
                0 <= i < final(self).buffer@.len() ==> final(self).buffer@[i] == BACKGROUND,
    {
        let n = self.buffer.len();
        self.buffer = filled(BACKGROUND, n);
    }
}

} // verus!

