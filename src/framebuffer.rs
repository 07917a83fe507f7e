//! A color buffer with a parallel depth buffer, written through a
//! nearest-wins depth test.

use vstd::prelude::*;
use crate::fixed::lemma_div_below;

verus! {

/// The depth that a cleared pixel holds: nothing is farther.
pub const FAR_DEPTH: i32 = i32::MAX;

/// What a frame buffer holds, pixel by pixel in row-major order.
pub struct FrameView {
    pub width: nat,
    pub height: nat,
    pub colors: Seq<u32>,
    pub depths: Seq<i32>,
    pub background: u32,
    pub current: u32,
}

impl FrameView {
    pub open spec fn wf(self) -> bool {
        &&& self.width > 0
        &&& self.height > 0
        &&& self.colors.len() == self.width * self.height
        &&& self.depths.len() == self.width * self.height
    }

    pub open spec fn in_bounds(self, x: int, y: int) -> bool {
        0 <= x < self.width && 0 <= y < self.height
    }

    pub open spec fn index(self, x: int, y: int) -> int {
        y * self.width + x
    }

    pub open spec fn color_at(self, x: int, y: int) -> u32 {
        self.colors[self.index(x, y)]
    }

    pub open spec fn depth_at(self, x: int, y: int) -> i32 {
        self.depths[self.index(x, y)]
    }

    /// Every pixel back to the background color and the farthest depth.
    pub open spec fn cleared(self) -> FrameView {
        FrameView {
            colors: Seq::new(self.width * self.height, |i: int| self.background),
            depths: Seq::new(self.width * self.height, |i: int| FAR_DEPTH),
            ..self
        }
    }

    /// The depth-tested write of `color` at `(x, y)`: it takes effect only inside
    /// the buffer and only where `depth` is strictly nearer than what is stored.
    pub open spec fn put(self, x: int, y: int, color: u32, depth: i32) -> FrameView {
        if self.in_bounds(x, y) && depth < self.depth_at(x, y) {
            FrameView {
                colors: self.colors.update(self.index(x, y), color),
                depths: self.depths.update(self.index(x, y), depth),
                ..self
            }
        } else {
            self
        }
    }

    /// The first `k` pixels of the row of a block that starts at `(x, y)`.
    pub open spec fn block_row(self, x: int, y: int, color: u32, depth: i32, k: nat) -> FrameView
        decreases k,
    {
        if k == 0 {
            self
        } else {
            self.block_row(x, y, color, depth, (k - 1) as nat).put(x + k - 1, y, color, depth)
        }
    }

    /// The first `k` rows of the `t`×`t` block whose top-left pixel is `(x, y)`.
    pub open spec fn block(self, x: int, y: int, t: nat, color: u32, depth: i32, k: nat) -> FrameView
        decreases k,
    {
        if k == 0 {
            self
        } else {
            self.block(x, y, t, color, depth, (k - 1) as nat).block_row(
                x,
                y + k - 1,
                color,
                depth,
                t,
            )
        }
    }

    /// The first `k` blocks of the line from `(x0, y0)` to `(x1, y1)`.
    pub open spec fn line(
        self,
        x0: int,
        y0: int,
        x1: int,
        y1: int,
        t: nat,
        color: u32,
        depth: i32,
        k: nat,
    ) -> FrameView
        decreases k,
    {
        if k == 0 {
            self
        } else {
            let n = line_steps(x0, y0, x1, y1) as int;
            let i = k - 1;
            self.line(x0, y0, x1, y1, t, color, depth, (k - 1) as nat).block(
                line_coord(x0, x1, i, n),
                line_coord(y0, y1, i, n),
                t,
                color,
                depth,
                t,
            )
        }
    }
}

pub open spec fn abs_diff(a: int, b: int) -> nat {
    if a >= b {
        (a - b) as nat
    } else {
        (b - a) as nat
    }
}

/// The number of steps of a line: its extent along its major axis.
pub open spec fn line_steps(x0: int, y0: int, x1: int, y1: int) -> nat {
    if abs_diff(x0, x1) >= abs_diff(y0, y1) {
        abs_diff(x0, x1)
    } else {
        abs_diff(y0, y1)
    }
}

/// One coordinate of step `i` of `n` from `a0` to `a1`, rounded to the nearest
/// pixel (halves away from `a0`).
pub open spec fn line_coord(a0: int, a1: int, i: int, n: int) -> int {
    if n == 0 {
        a0
    } else if a1 >= a0 {
        a0 + ((a1 - a0) * i + n / 2) / n
    } else {
        a0 - ((a0 - a1) * i + n / 2) / n
    }
}

#[derive(Clone, Copy, Debug, PartialEq, Eq, Structural)]
pub enum FramebufferError {
    /// A width or a height of zero.
    ZeroSize,
}

pub struct Framebuffer {
    width: usize,
    height: usize,
    buffer: Vec<u32>,
    zbuffer: Vec<i32>,
    background_color: u32,
    current_color: u32,
}

impl View for Framebuffer {
    type V = FrameView;

    closed spec fn view(&self) -> FrameView {
        FrameView {
            width: self.width as nat,
            height: self.height as nat,
            colors: self.buffer@,
            depths: self.zbuffer@,
            background: self.background_color,
            current: self.current_color,
        }
    }
}

/// Step `i` of `n` from `a0` to `a1` along one axis.
fn step_coord(a0: i64, a1: i64, i: u128, n: u128) -> (r: i64)
    requires
        i <= n,
        n >= abs_diff(a0 as int, a1 as int),
        n <= 0xFFFF_FFFF_FFFF_FFFF,
    ensures
        r == line_coord(a0 as int, a1 as int, i as int, n as int),
{
    if n == 0 {
        return a0;
    }
    let diff: i128 = a1 as i128 - a0 as i128;
    let d: u128 = if diff >= 0 { diff as u128 } else { (-diff) as u128 };
    proof {
        assert(d * i <= 0xFFFF_FFFF_FFFF_FFFF * 0xFFFF_FFFF_FFFF_FFFF) by (nonlinear_arith)
            requires
                0 <= d <= 0xFFFF_FFFF_FFFF_FFFF,
                0 <= i <= 0xFFFF_FFFF_FFFF_FFFF,
        ;
        assert(d * i + n / 2 < (d + 1) * n) by (nonlinear_arith)
            requires
                0 <= i <= n,
                0 <= d,
                n > 0,
        ;
        assert(0 <= d * i) by (nonlinear_arith)
            requires
                0 <= i,
                0 <= d,
        ;
        lemma_div_below(d * i + n / 2, n as int, d + 1);
    }
    let q: u128 = (d * i + n / 2) / n;
    if a1 >= a0 {
        (a0 as i128 + q as i128) as i64
    } else {
        (a0 as i128 - q as i128) as i64
    }
}

proof fn lemma_index_in_range(x: int, y: int, w: int, h: int)
    requires
        0 <= x < w,
        0 <= y < h,
    ensures
        0 <= y * w + x < w * h,
{
    assert(y * w + x < w * h) by (nonlinear_arith)
        requires
            0 <= x < w,
            0 <= y < h,
    ;
    assert(0 <= y * w) by (nonlinear_arith)
        requires
            0 <= y,
            0 <= w,
    ;
}

/// Nearest wins at one pixel: once a write of `c1` at depth `d1` has been
/// accepted, a second write of `c2` at depth `d2` leaves `c2` showing exactly
/// when `d2 < d1`, and `c1` otherwise (an equal depth changes nothing); the
/// stored depth is the smaller of the two.
pub proof fn lemma_nearest_wins(v: FrameView, x: int, y: int, c1: u32, d1: i32, c2: u32, d2: i32)
    requires
        v.wf(),
        v.in_bounds(x, y),
        d1 < v.depth_at(x, y),
    ensures
        ({
            let w = v.put(x, y, c1, d1).put(x, y, c2, d2);
            &&& w.color_at(x, y) == (if d2 < d1 { c2 } else { c1 })
            &&& w.depth_at(x, y) == (if d2 < d1 { d2 } else { d1 })
            &&& w.wf()
        }),
{
    lemma_index_in_range(x, y, v.width as int, v.height as int);
}

/// A write keeps the nearest depth at its pixel, with the color that came with
/// it, and leaves every other pixel as it was.
pub proof fn lemma_put_keeps_nearest(v: FrameView, x: int, y: int, c: u32, d: i32, px: int, py: int)
    requires
        v.wf(),
        v.in_bounds(x, y),
        v.in_bounds(px, py),
    ensures
        ({
            let w = v.put(x, y, c, d);
            &&& w.wf()
            &&& (px == x && py == y) ==> w.depth_at(px, py) == (if d < v.depth_at(x, y) {
                d
            } else {
                v.depth_at(x, y)
            })
            &&& (px == x && py == y) ==> w.color_at(px, py) == (if d < v.depth_at(x, y) {
                c
            } else {
                v.color_at(x, y)
            })
            &&& (px != x || py != y) ==> w.depth_at(px, py) == v.depth_at(px, py) && w.color_at(px, py)
                == v.color_at(px, py)
        }),
{
    lemma_index_in_range(x, y, v.width as int, v.height as int);
    lemma_index_in_range(px, py, v.width as int, v.height as int);
    if px != x || py != y {
        lemma_index_distinct(x, y, px, py, v.width as int);
    }
}

proof fn lemma_index_distinct(x: int, y: int, px: int, py: int, w: int)
    requires
        0 <= x < w,
        0 <= px < w,
        0 <= y,
        0 <= py,
        px != x || py != y,
    ensures
        y * w + x != py * w + px,
{
    if y == py {
    } else if y < py {
        assert(y * w + x < py * w + px) by (nonlinear_arith)
            requires
                y < py,
                0 <= x < w,
                0 <= px,
        ;
    } else {
        assert(py * w + px < y * w + x) by (nonlinear_arith)
            requires
                py < y,
                0 <= px < w,
                0 <= x,
        ;
    }
}

/// The first `k` steps of the horizontal line from `(0, 0)` to `(n, 0)`, one
/// pixel thick at depth 0, over pixels that all hold a farther depth.
proof fn lemma_horizontal_prefix(v: FrameView, n: nat, c: u32, k: nat, px: int, py: int)
    requires
        v.wf(),
        k <= n + 1,
        v.in_bounds(px, py),
        forall|i: int| 0 <= i < v.depths.len() ==> #[trigger] v.depths[i] > 0,
    ensures
        ({
            let w = v.line(0, 0, n as int, 0, 1, c, 0, k);
            &&& w.wf()
            &&& w.width == v.width
            &&& w.height == v.height
            &&& w.color_at(px, py) == (if py == 0 && px < k { c } else { v.color_at(px, py) })
            &&& w.depth_at(px, py) == (if py == 0 && px < k { 0 } else { v.depth_at(px, py) })
        }),
    decreases k,
{
    lemma_index_in_range(px, py, v.width as int, v.height as int);
    if k > 0 {
        let i = k - 1;
        lemma_horizontal_prefix(v, n, c, i as nat, px, py);
        let p = v.line(0, 0, n as int, 0, 1, c, 0, i as nat);
        assert(line_steps(0, 0, n as int, 0) == n);
        if n > 0 {
            vstd::arithmetic::div_mod::lemma_fundamental_div_mod_converse(n * i + n / 2, n as int, i, (n / 2) as int);
            assert(n * i == i * n) by (nonlinear_arith);
            vstd::arithmetic::div_mod::lemma_fundamental_div_mod_converse((n / 2) as int, n as int, 0, (n / 2) as int);
            assert((0 - 0) * i == 0);
        }
        assert(line_coord(0, n as int, i, n as int) == i);
        assert(line_coord(0, 0, i, n as int) == 0);
        assert(p.block(i, 0, 1, c, 0, 0) == p);
        assert(p.block_row(i, 0, c, 0, 0) == p);
        assert(p.block(i, 0, 1, c, 0, 1) == p.put(i, 0, c, 0));
        assert(v.line(0, 0, n as int, 0, 1, c, 0, k) == p.put(i, 0, c, 0));
        if p.in_bounds(i, 0) {
            lemma_horizontal_prefix(v, n, c, i as nat, i, 0);
            lemma_index_in_range(i, 0, v.width as int, v.height as int);
            assert(v.depths[v.index(i, 0)] > 0);
            lemma_put_keeps_nearest(p, i, 0, c, 0, px, py);
        }
    }
}

/// A horizontal line from `(0, 0)` to `(n, 0)`, one pixel thick at depth 0,
/// drawn over pixels that all hold a farther depth (as after a clear), colors
/// exactly the pixels `(x, 0)` with `x <= n` and leaves every other one as it was.
pub proof fn lemma_horizontal_line(v: FrameView, n: nat, c: u32, px: int, py: int)
    requires
        v.wf(),
        v.in_bounds(px, py),
        forall|i: int| 0 <= i < v.depths.len() ==> #[trigger] v.depths[i] > 0,
    ensures
        ({
            let w = v.line(0, 0, n as int, 0, 1, c, 0, line_steps(0, 0, n as int, 0) + 1);
            &&& w.color_at(px, py) == (if py == 0 && px <= n { c } else { v.color_at(px, py) })
            &&& w.depth_at(px, py) == (if py == 0 && px <= n { 0 } else { v.depth_at(px, py) })
        }),
{
    assert(line_steps(0, 0, n as int, 0) == n);
    lemma_horizontal_prefix(v, n, c, n + 1, px, py);
}

/// Two writes at one pixel with different depths leave the same buffer in
/// either order: the nearer one wins.
pub proof fn lemma_write_order_irrelevant(v: FrameView, x: int, y: int, c1: u32, d1: i32, c2: u32, d2: i32)
    requires
        v.wf(),
        d1 != d2,
    ensures
        v.put(x, y, c1, d1).put(x, y, c2, d2) == v.put(x, y, c2, d2).put(x, y, c1, d1),
{
    if v.in_bounds(x, y) {
        lemma_index_in_range(x, y, v.width as int, v.height as int);
        let a = v.put(x, y, c1, d1).put(x, y, c2, d2);
        let b = v.put(x, y, c2, d2).put(x, y, c1, d1);
        assert(a.colors =~= b.colors);
        assert(a.depths =~= b.depths);
    }
}

impl Framebuffer {
    pub closed spec fn wf(&self) -> bool {
        &&& self@.wf()
        &&& self.width * self.height <= usize::MAX
    }

    /// A cleared buffer of `width`×`height` pixels, with a black background and
    /// white as the current color; a zero size is refused.
    pub fn new(width: usize, height: usize) -> (r: Result<Framebuffer, FramebufferError>)
        requires
            width * height <= usize::MAX,
        ensures
            r is Err <==> (width == 0 || height == 0),
            r is Err ==> r == Err::<Framebuffer, _>(FramebufferError::ZeroSize),
            r matches Ok(fb) ==> {
                &&& fb.wf()
                &&& fb@.width == width
                &&& fb@.height == height
                &&& fb@.background == 0
                &&& fb@.current == 0xFFFFFF
                &&& fb@ == fb@.cleared()
            },
    {
        if width == 0 || height == 0 {
            return Err(FramebufferError::ZeroSize);
        }
        let n: usize = width * height;
        let mut buffer: Vec<u32> = Vec::with_capacity(n);
        let mut zbuffer: Vec<i32> = Vec::with_capacity(n);
        let mut i: usize = 0;
        while i < n
            invariant
                i <= n,
                buffer@.len() == i,
                zbuffer@.len() == i,
                forall|j: int| 0 <= j < i ==> buffer@[j] == 0,
                forall|j: int| 0 <= j < i ==> zbuffer@[j] == FAR_DEPTH,
            decreases n - i,
        {
            buffer.push(0);
            zbuffer.push(FAR_DEPTH);
            i = i + 1;
        }
        let fb = Framebuffer {
            width,
            height,
            buffer,
            zbuffer,
            background_color: 0,
            current_color: 0xFFFFFF,
        };
        assert(fb@.colors =~= fb@.cleared().colors);
        assert(fb@.depths =~= fb@.cleared().depths);
        Ok(fb)
    }

    pub fn width(&self) -> (w: usize)
        ensures
            w == self@.width,
    {
        self.width
    }

    pub fn height(&self) -> (h: usize)
        ensures
            h == self@.height,
    {
        self.height
    }

    /// The packed colors, row-major.
    pub fn buffer(&self) -> (b: &Vec<u32>)
        ensures
            b@ == self@.colors,
    {
        &self.buffer
    }

    /// Resets every pixel to the background color and the farthest depth.
    pub fn clear(&mut self)
        requires
            old(self).wf(),
        ensures
            final(self).wf(),
            final(self)@ == old(self)@.cleared(),
    {
        let n: usize = self.buffer.len();
        let mut i: usize = 0;
        while i < n
            invariant
                self.wf(),
                n == self@.colors.len(),
                i <= n,
                self@ == (FrameView {
                    colors: self@.colors,
                    depths: self@.depths,
                    ..old(self)@
                }),
                forall|j: int| 0 <= j < i ==> self.buffer@[j] == self.background_color,
                forall|j: int| 0 <= j < i ==> self.zbuffer@[j] == FAR_DEPTH,
            decreases n - i,
        {
            self.buffer[i] = self.background_color;
            self.zbuffer[i] = FAR_DEPTH;
            i = i + 1;
        }
        assert(self@.colors =~= old(self)@.cleared().colors);
        assert(self@.depths =~= old(self)@.cleared().depths);
    }

    pub fn set_background_color(&mut self, color: u32)
        ensures
            final(self)@ == (FrameView { background: color, ..old(self)@ }),
            old(self).wf() ==> final(self).wf(),
    {
        self.background_color = color;
    }

    /// Sets the color that later point and line writes use.
    pub fn set_current_color(&mut self, color: u32)
        ensures
            final(self)@ == (FrameView { current: color, ..old(self)@ }),
            old(self).wf() ==> final(self).wf(),
    {
        self.current_color = color;
    }

    /// The packed color at `(x, y)`.
    pub fn get_pixel(&self, x: usize, y: usize) -> (c: u32)
        requires
            self.wf(),
            x < self@.width,
            y < self@.height,
        ensures
            c == self@.color_at(x as int, y as int),
    {
        proof {
            lemma_index_in_range(x as int, y as int, self.width as int, self.height as int);
        }
        self.buffer[y * self.width + x]
    }

    /// The depth stored at `(x, y)`.
    pub fn get_depth(&self, x: usize, y: usize) -> (d: i32)
        requires
            self.wf(),
            x < self@.width,
            y < self@.height,
        ensures
            d == self@.depth_at(x as int, y as int),
    {
        proof {
            lemma_index_in_range(x as int, y as int, self.width as int, self.height as int);
        }
        self.zbuffer[y * self.width + x]
    }

    /// Writes the current color over the `t`×`t` block whose top-left pixel is
    /// `(x, y)`, row by row, each pixel through the depth test.
    fn fill_block(&mut self, x: i64, y: i64, t: usize, depth: i32)
        requires
            old(self).wf(),
        ensures
            final(self).wf(),
            final(self)@ == old(self)@.block(x as int, y as int, t as nat, old(self)@.current, depth, t as nat),
            final(self)@.current == old(self)@.current,
    {
        let ghost start = self@;
        let ghost c = self@.current;
        let mut j: usize = 0;
        while j < t
            invariant
                self.wf(),
                j <= t,
                c == start.current,
                self@ == start.block(x as int, y as int, t as nat, c, depth, j as nat),
                self@.current == c,
                self@.width == start.width,
                self@.height == start.height,
            decreases t - j,
        {
            let ghost row_start = self@;
            let py: i128 = y as i128 + j as i128;
            let mut i: usize = 0;
            while i < t
                invariant
                    self.wf(),
                    i <= t,
                    j < t,
                    py == y + j,
                    self@ == row_start.block_row(x as int, y + j, c, depth, i as nat),
                    self@.current == c,
                    self@.width == start.width,
                    self@.height == start.height,
                decreases t - i,
            {
                let px: i128 = x as i128 + i as i128;
                if 0 <= px && px < self.width as i128 && 0 <= py && py < self.height as i128 {
                    self.point(px as usize, py as usize, depth);
                }
                i = i + 1;
            }
            j = j + 1;
        }
    }

    /// Draws the line from `(x0, y0)` to `(x1, y1)` in the current color: at each
    /// of its steps along the major axis, one `thickness`×`thickness` block
    /// through the depth test. Endpoints may lie outside the buffer; pixels
    /// there are skipped.
    pub fn draw_line(&mut self, x0: i64, y0: i64, x1: i64, y1: i64, depth: i32, thickness: usize)
        requires
            old(self).wf(),
        ensures
            final(self).wf(),
            final(self)@ == old(self)@.line(
                x0 as int,
                y0 as int,
                x1 as int,
                y1 as int,
                thickness as nat,
                old(self)@.current,
                depth,
                line_steps(x0 as int, y0 as int, x1 as int, y1 as int) + 1,
            ),
    {
        let ghost start = self@;
        let ghost c = self@.current;
        let ddx: i128 = x1 as i128 - x0 as i128;
        let ddy: i128 = y1 as i128 - y0 as i128;
        let dx: u128 = if ddx >= 0 { ddx as u128 } else { (-ddx) as u128 };
        let dy: u128 = if ddy >= 0 { ddy as u128 } else { (-ddy) as u128 };
        let n: u128 = if dx >= dy { dx } else { dy };
        assert(n == line_steps(x0 as int, y0 as int, x1 as int, y1 as int));
        let mut k: u128 = 0;
        while k <= n
            invariant
                self.wf(),
                k <= n + 1,
                n <= 0xFFFF_FFFF_FFFF_FFFF,
                n == line_steps(x0 as int, y0 as int, x1 as int, y1 as int),
                n >= abs_diff(x0 as int, x1 as int),
                n >= abs_diff(y0 as int, y1 as int),
                self@ == start.line(x0 as int, y0 as int, x1 as int, y1 as int, thickness as nat, c, depth, k as nat),
                self@.current == c,
                c == start.current,
            decreases n + 1 - k,
        {
            let px: i64 = step_coord(x0, x1, k, n);
            let py: i64 = step_coord(y0, y1, k, n);
            self.fill_block(px, py, thickness, depth);
            k = k + 1;
        }
    }

    /// Writes `color` at `(x, y)` when `depth` is nearer than the stored depth;
    /// outside the buffer nothing happens. The current color is left as it is.
    pub fn put_pixel(&mut self, x: usize, y: usize, color: u32, depth: i32)
        requires
            old(self).wf(),
        ensures
            final(self).wf(),
            final(self)@ == old(self)@.put(x as int, y as int, color, depth),
    {
        if x < self.width && y < self.height {
            proof {
                lemma_index_in_range(x as int, y as int, self.width as int, self.height as int);
            }
            let idx: usize = y * self.width + x;
            if depth < self.zbuffer[idx] {
                self.buffer[idx] = color;
                self.zbuffer[idx] = depth;
            }
        }
    }

    /// Writes the current color at `(x, y)` when `depth` is nearer than the
    /// stored depth; outside the buffer nothing happens.
    pub fn point(&mut self, x: usize, y: usize, depth: i32)
        requires
            old(self).wf(),
        ensures
            final(self).wf(),
            final(self)@ == old(self)@.put(x as int, y as int, old(self)@.current, depth),
    {
        let c = self.current_color;
        self.put_pixel(x, y, c, depth);
    }
}

} // verus!
