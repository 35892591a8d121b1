use vstd::prelude::*;

verus! {

/// The colour every pixel has after a clear: a dark blue, `rgb(5, 10, 30)`.
pub const BACKGROUND: u32 = 0x050A1E;

/// The depth every pixel has after a clear. It stands for "nothing drawn
/// yet": no depth is strictly greater, so the first write that is nearer than
/// this wins, and a write at exactly this depth loses.
pub const DEPTH_FAR: i32 = 0x7fff_ffff;

/// The packed colour `0x00RRGGBB` as a number.
pub open spec fn packed_rgb(r: u8, g: u8, b: u8) -> int {
    r as int * 65536 + g as int * 256 + b as int
}

/// Packs three 8-bit channels into one pixel, red in bits 16..24, green in
/// bits 8..16 and blue in bits 0..8.
pub fn rgb_to_u32(r: u8, g: u8, b: u8) -> (packed: u32)
    ensures
        packed as int == packed_rgb(r, g, b),
        packed == ((r as u32) << 16) | ((g as u32) << 8) | (b as u32),
{
    let packed: u32 = ((r as u32) << 16) | ((g as u32) << 8) | (b as u32);
    assert((((r as u32) << 16) | ((g as u32) << 8) | (b as u32)) == (r as u32) * 65536 + (g as u32)
        * 256 + (b as u32)) by (bit_vector);
    packed
}

/// What one pixel holds: its packed colour and the depth it was drawn at.
pub struct Pixel {
    pub color: u32,
    pub depth: i32,
}

/// The mathematical content of a framebuffer: two row-major grids of the
/// same size.
pub struct Frame {
    pub width: nat,
    pub height: nat,
    pub color: Seq<u32>,
    pub depth: Seq<i32>,
}

impl Frame {
    /// Both grids hold exactly `width * height` cells.
    pub open spec fn wf(self) -> bool {
        &&& self.color.len() == self.width * self.height
        &&& self.depth.len() == self.width * self.height
    }

    /// `(x, y)` names a pixel of the frame.
    pub open spec fn in_bounds(self, x: int, y: int) -> bool {
        0 <= x < self.width && 0 <= y < self.height
    }

    /// The cell of pixel `(x, y)` in the row-major grids.
    pub open spec fn index(self, x: int, y: int) -> int {
        y * self.width + x
    }

    /// The column of cell `i`.
    pub open spec fn col(self, i: int) -> int {
        i % (self.width as int)
    }

    /// The row of cell `i`.
    pub open spec fn row(self, i: int) -> int {
        i / (self.width as int)
    }

    /// What cell `i` holds.
    pub open spec fn cell(self, i: int) -> Pixel {
        Pixel { color: self.color[i], depth: self.depth[i] }
    }

    /// What pixel `(x, y)` holds.
    pub open spec fn pixel(self, x: int, y: int) -> Pixel {
        self.cell(self.index(x, y))
    }

    /// The frame in which every pixel is background at the far depth.
    pub open spec fn blank(width: nat, height: nat) -> Frame {
        Frame {
            width,
            height,
            color: Seq::new(width * height, |i: int| BACKGROUND),
            depth: Seq::new(width * height, |i: int| DEPTH_FAR),
        }
    }

    /// The frame after an unconditional write of `color` at `(x, y)`; a write
    /// outside the frame changes nothing.
    pub open spec fn with_pixel(self, x: int, y: int, color: u32) -> Frame {
        if self.in_bounds(x, y) {
            Frame { color: self.color.update(self.index(x, y), color), ..self }
        } else {
            self
        }
    }

    /// The frame after a depth-tested write of colour alone at `(x, y)`: the
    /// colour is replaced when `depth` is strictly less than the stored
    /// depth, and the stored depth stays what it was.
    pub open spec fn with_color_if_nearer(self, x: int, y: int, depth: i32, color: u32) -> Frame {
        if self.in_bounds(x, y) && depth < self.depth[self.index(x, y)] {
            Frame { color: self.color.update(self.index(x, y), color), ..self }
        } else {
            self
        }
    }

    /// The frame after a depth-tested write at `(x, y)`: colour and depth are
    /// both replaced when `depth` is strictly less than the stored depth, and
    /// nothing changes otherwise.
    pub open spec fn with_pixel_at_depth(self, x: int, y: int, depth: i32, color: u32) -> Frame {
        if self.in_bounds(x, y) && depth < self.depth[self.index(x, y)] {
            Frame {
                color: self.color.update(self.index(x, y), color),
                depth: self.depth.update(self.index(x, y), depth),
                ..self
            }
        } else {
            self
        }
    }
}

/// A pixel of the frame has a cell inside the grids, and that cell lies in
/// the pixel's own column and row.
pub proof fn lemma_index_in_range(f: Frame, x: int, y: int)
    requires
        f.wf(),
        f.in_bounds(x, y),
    ensures
        0 <= f.index(x, y) < f.width * f.height,
        f.col(f.index(x, y)) == x,
        f.row(f.index(x, y)) == y,
{
    let w = f.width as int;
    let h = f.height as int;
    assert(y * w + x < h * w) by (nonlinear_arith)
        requires
            0 <= x < w,
            0 <= y < h,
    ;
    assert(0 <= y * w + x) by (nonlinear_arith)
        requires
            0 <= x < w,
            0 <= y < h,
    ;
    assert(h * w == w * h) by (nonlinear_arith);
    vstd::arithmetic::div_mod::lemma_fundamental_div_mod_converse(y * w + x, w, y, x);
}

/// Every cell of the grids belongs to exactly one pixel of the frame: the
/// one at the cell's column and row.
pub proof fn lemma_cell_is_pixel(f: Frame, i: int)
    requires
        f.wf(),
        0 <= i < f.width * f.height,
    ensures
        f.in_bounds(f.col(i), f.row(i)),
        f.index(f.col(i), f.row(i)) == i,
{
    let w = f.width as int;
    let h = f.height as int;
    assert(w > 0) by (nonlinear_arith)
        requires
            0 <= i < w * h,
            w >= 0,
    ;
    vstd::arithmetic::div_mod::lemma_fundamental_div_mod(i, w);
    vstd::arithmetic::div_mod::lemma_mod_pos_bound(i, w);
    let q = i / w;
    let r = i % w;
    assert(i == w * q + r);
    assert(0 <= q < h) by (nonlinear_arith)
        requires
            i == w * q + r,
            0 <= r < w,
            0 <= i < w * h,
    ;
    assert(w * q == q * w) by (nonlinear_arith);
}

/// A colour buffer and a depth buffer of the same size, row-major, the cell
/// of pixel `(x, y)` at `y * width + x`.
pub struct Framebuffer {
    pub width: usize,
    pub height: usize,
    pub buffer: Vec<u32>,
    pub depth_buffer: Vec<i32>,
}

impl View for Framebuffer {
    type V = Frame;

    open spec fn view(&self) -> Frame {
        Frame {
            width: self.width as nat,
            height: self.height as nat,
            color: self.buffer@,
            depth: self.depth_buffer@,
        }
    }
}

impl Framebuffer {
    /// The invariant of the type: both buffers hold `width * height` cells.
    pub open spec fn wf(&self) -> bool {
        self@.wf()
    }

    /// A framebuffer of the given size, every pixel background at the far
    /// depth.
    pub fn new(width: usize, height: usize) -> (fb: Framebuffer)
        requires
            width * height <= usize::MAX,
        ensures
            fb.wf(),
            fb@ == Frame::blank(width as nat, height as nat),
    {
        let n: usize = width * height;
        let mut buffer: Vec<u32> = Vec::new();
        let mut depth_buffer: Vec<i32> = Vec::new();
        let mut i: usize = 0;
        while i < n
            invariant
                i <= n,
                buffer@.len() == i,
                depth_buffer@.len() == i,
                forall|k: int| 0 <= k < i ==> buffer@[k] == BACKGROUND,
                forall|k: int| 0 <= k < i ==> depth_buffer@[k] == DEPTH_FAR,
            decreases n - i,
        {
            buffer.push(BACKGROUND);
            depth_buffer.push(DEPTH_FAR);
            i += 1;
        }
        let fb = Framebuffer { width, height, buffer, depth_buffer };
        proof {
            let blank = Frame::blank(width as nat, height as nat);
            assert(fb@.color =~= blank.color);
            assert(fb@.depth =~= blank.depth);
        }
        fb
    }

    /// Resets both buffers, as a pair, to what `new` gave them.
    pub fn clear(&mut self)
        requires
            old(self).wf(),
        ensures
            final(self).wf(),
            final(self)@ == Frame::blank(old(self)@.width, old(self)@.height),
    {
        let n: usize = self.buffer.len();
        let mut i: usize = 0;
        while i < n
            invariant
                i <= n,
                self.width == old(self).width,
                self.height == old(self).height,
                self.buffer@.len() == n,
                self.depth_buffer@.len() == n,
                n == self.width * self.height,
                forall|k: int| 0 <= k < i ==> self.buffer@[k] == BACKGROUND,
                forall|k: int| 0 <= k < i ==> self.depth_buffer@[k] == DEPTH_FAR,
            decreases n - i,
        {
            self.buffer[i] = BACKGROUND;
            self.depth_buffer[i] = DEPTH_FAR;
            i += 1;
        }
        proof {
            let blank = Frame::blank(old(self)@.width, old(self)@.height);
            assert(self@.color =~= blank.color);
            assert(self@.depth =~= blank.depth);
        }
    }

    /// The colour buffer, read-only, for display: row-major, one packed
    /// colour per pixel.
    pub fn get_buffer(&self) -> (pixels: &[u32])
        ensures
            pixels@ == self@.color,
    {
        self.buffer.as_slice()
    }

    /// The cell of pixel `(x, y)`, or `None` where the frame has no such
    /// pixel.
    pub fn cell_at(&self, x: i64, y: i64) -> (cell: Option<usize>)
        requires
            self.wf(),
        ensures
            cell.is_some() == self@.in_bounds(x as int, y as int),
            cell.is_some() ==> cell.unwrap() as int == self@.index(x as int, y as int),
            cell.is_some() ==> cell.unwrap() < self@.width * self@.height,
    {
        if x >= 0 && y >= 0 && (x as u64) < (self.width as u64) && (y as u64) < (
        self.height as u64) {
            let col: usize = x as usize;
            let row: usize = y as usize;
            let cells: usize = self.buffer.len();
            proof {
                assert(cells == self@.width * self@.height);
                lemma_index_in_range(self@, x as int, y as int);
                assert(0 <= row * self.width) by (nonlinear_arith);
                assert(row * self.width + col == self@.index(x as int, y as int));
            }
            Some(row * self.width + col)
        } else {
            None
        }
    }

    /// The cell of pixel `(x, y)`, or `None` where the frame has no such
    /// pixel.
    pub fn cell_of(&self, x: i32, y: i32) -> (cell: Option<usize>)
        requires
            self.wf(),
        ensures
            cell.is_some() == self@.in_bounds(x as int, y as int),
            cell.is_some() ==> cell.unwrap() as int == self@.index(x as int, y as int),
            cell.is_some() ==> cell.unwrap() < self@.width * self@.height,
    {
        self.cell_at(x as i64, y as i64)
    }

    /// Writes `color` at `(x, y)` whatever the depth there; coordinates
    /// outside the frame are ignored.
    pub fn set_pixel(&mut self, x: i32, y: i32, color: u32)
        requires
            old(self).wf(),
        ensures
            final(self).wf(),
            final(self)@ == old(self)@.with_pixel(x as int, y as int, color),
    {
        if let Some(idx) = self.cell_of(x, y) {
            self.buffer[idx] = color;
        }
    }

    /// Writes the colour at `(x, y)` if `depth` is strictly less than the
    /// depth stored there, and leaves the stored depth as it is, so that
    /// what is drawn this way hides nothing drawn later. Coordinates outside
    /// the frame are ignored.
    pub fn set_pixel_if_nearer(&mut self, x: i64, y: i64, depth: i32, color: u32)
        requires
            old(self).wf(),
        ensures
            final(self).wf(),
            final(self)@ == old(self)@.with_color_if_nearer(x as int, y as int, depth, color),
    {
        if let Some(idx) = self.cell_at(x, y) {
            if depth < self.depth_buffer[idx] {
                self.buffer[idx] = color;
            }
        }
    }

    /// Writes colour and depth at `(x, y)` if `depth` is strictly less than
    /// the depth stored there; a tie keeps the pixel as it was. Coordinates
    /// outside the frame are ignored.
    pub fn set_pixel_with_depth(&mut self, x: i32, y: i32, depth: i32, color: u32)
        requires
            old(self).wf(),
        ensures
            final(self).wf(),
            final(self)@ == old(self)@.with_pixel_at_depth(x as int, y as int, depth, color),
    {
        if let Some(idx) = self.cell_of(x, y) {
            if depth < self.depth_buffer[idx] {
                self.depth_buffer[idx] = depth;
                self.buffer[idx] = color;
            }
        }
    }
}

} // verus!
