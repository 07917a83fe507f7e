//! The recent positions of a moving body, drawn as a fading polyline.

use vstd::prelude::*;
use crate::color::{lerp_color, pack, Color};
use crate::fixed::{floor_div, mul_vec, Vec3, Vec4, ONE};
use crate::framebuffer::{line_steps, FrameView, Framebuffer};
use crate::vertex::{perspective_divide, Uniforms};

verus! {

/// A bounded history of positions, oldest first.
pub struct PlanetTrail {
    pub positions: Vec<Vec3>,
    pub max_length: usize,
}

impl PlanetTrail {
    pub open spec fn wf(&self) -> bool {
        0 < self.max_length && self.positions@.len() <= self.max_length
    }

    /// An empty trail that keeps at most `max_length` positions.
    pub fn new(max_length: usize) -> (r: PlanetTrail)
        ensures
            r.positions@ == Seq::<Vec3>::empty(),
            r.max_length == max_length,
    {
        PlanetTrail { positions: Vec::with_capacity(max_length), max_length }
    }

    /// Appends `position`, first dropping the oldest one when the trail is full.
    pub fn add_position(&mut self, position: Vec3)
        requires
            old(self).max_length > 0,
        ensures
            final(self).max_length == old(self).max_length,
            final(self).positions@ == (if old(self).positions@.len() >= old(self).max_length {
                old(self).positions@.drop_first()
            } else {
                old(self).positions@
            }).push(position),
            old(self).wf() ==> final(self).wf(),
    {
        if self.positions.len() >= self.max_length {
            self.positions.remove(0);
        }
        self.positions.push(position);
    }
}

/// Where the world-space point `p` lands on screen: viewport · perspectiveDivide(projection · view · p).
pub open spec fn world_to_screen(u: Uniforms, p: Vec3) -> Vec3 {
    let h = Vec4 { x: p.x, y: p.y, z: p.z, w: ONE };
    let s = mul_vec(u.viewport_matrix, perspective_divide(mul_vec(u.projection_matrix, mul_vec(u.view_matrix, h))));
    Vec3 { x: s.x, y: s.y, z: s.z }
}

/// The pixel nearest to a fixed-point screen coordinate (halves round up). It
/// may lie outside the buffer, even at a negative position.
pub open spec fn to_pixel(c: int) -> int {
    (c + ONE / 2) / (ONE as int)
}

/// The fade factor of segment `i` of `segments`.
pub open spec fn fade(i: int, segments: int) -> int {
    (i * ONE) / segments
}

/// The buffer after the first `k` segments of the polyline through the screen
/// points `pts`, segment `i` drawn in the blend of `cs` and `ce` at `i / (pts.len() - 1)`.
pub open spec fn trail_lines(v: FrameView, pts: Seq<Vec3>, cs: Color, ce: Color, thickness: nat, k: nat) -> FrameView
    decreases k,
{
    if k == 0 {
        v
    } else {
        let i = k - 1;
        let prev = trail_lines(v, pts, cs, ce, thickness, (k - 1) as nat);
        let c = lerp_color(cs, ce, fade(i, pts.len() - 1));
        let color = pack(c.r, c.g, c.b) as u32;
        let (x0, y0) = (to_pixel(pts[i].x as int), to_pixel(pts[i].y as int));
        let (x1, y1) = (to_pixel(pts[i + 1].x as int), to_pixel(pts[i + 1].y as int));
        FrameView { current: color, ..prev }.line(x0, y0, x1, y1, thickness, color, 0, line_steps(x0, y0, x1, y1) + 1)
    }
}

fn world_to_screen_exec(u: &Uniforms, p: &Vec3) -> (r: Vec3)
    ensures
        r == world_to_screen(*u, *p),
{
    let h = Vec4 { x: p.x, y: p.y, z: p.z, w: ONE };
    let eye = u.view_matrix.mul_vec(&h);
    let clip = u.projection_matrix.mul_vec(&eye);
    let ndc = crate::vertex::perspective_divide_exec(&clip);
    let s = u.viewport_matrix.mul_vec(&ndc);
    Vec3 { x: s.x, y: s.y, z: s.z }
}

fn to_pixel_exec(c: i32) -> (r: i64)
    ensures
        r == to_pixel(c as int),
{
    let q: i128 = floor_div(c as i128 + (ONE / 2) as i128, ONE as i128);
    proof {
        vstd::arithmetic::div_mod::lemma_div_is_ordered(c + ONE / 2, i32::MAX + ONE / 2, ONE as int);
        vstd::arithmetic::div_mod::lemma_div_is_ordered(i32::MIN + ONE / 2, c + ONE / 2, ONE as int);
        vstd::arithmetic::div_mod::lemma_fundamental_div_mod_converse(
            i32::MAX + ONE / 2,
            ONE as int,
            32768,
            32767,
        );
        vstd::arithmetic::div_mod::lemma_fundamental_div_mod_converse(
            i32::MIN + ONE / 2,
            ONE as int,
            -32768,
            32768,
        );
    }
    q as i64
}

fn fade_exec(i: usize, segments: usize) -> (t: i32)
    requires
        i < segments,
    ensures
        t == fade(i as int, segments as int),
{
    proof {
        assert(i * ONE < segments * ONE) by (nonlinear_arith)
            requires
                i < segments,
        ;
        assert(0 <= i * ONE) by (nonlinear_arith)
            requires
                0 <= i,
        ;
        assert(i * ONE <= 0xFFFF_FFFF_FFFF_FFFF * 65536) by (nonlinear_arith)
            requires
                i <= 0xFFFF_FFFF_FFFF_FFFF,
        ;
        crate::fixed::lemma_div_below(i * ONE, segments as int, ONE as int);
    }
    (((i as u128) * (ONE as u128)) / (segments as u128)) as i32
}

/// Draws the trail as lines between consecutive positions, fading from
/// `color_start` at the oldest to `color_end` towards the newest, at depth 0.
/// Each segment sets the current color before its line; a trail of fewer than
/// two positions draws nothing.
pub fn render_trail(
    framebuffer: &mut Framebuffer,
    uniforms: &Uniforms,
    trail: &PlanetTrail,
    color_start: Color,
    color_end: Color,
    thickness: usize,
)
    requires
        old(framebuffer).wf(),
    ensures
        final(framebuffer).wf(),
        final(framebuffer)@ == (if trail.positions@.len() < 2 {
            old(framebuffer)@
        } else {
            trail_lines(
                old(framebuffer)@,
                Seq::new(trail.positions@.len(), |i: int| world_to_screen(*uniforms, trail.positions@[i])),
                color_start,
                color_end,
                thickness as nat,
                (trail.positions@.len() - 1) as nat,
            )
        }),
{
    let n: usize = trail.positions.len();
    if n < 2 {
        return;
    }
    let ghost pts_spec = Seq::new(trail.positions@.len(), |i: int| world_to_screen(*uniforms, trail.positions@[i]));
    let mut pts: Vec<Vec3> = Vec::with_capacity(n);
    let mut i: usize = 0;
    while i < n
        invariant
            n == trail.positions@.len(),
            pts_spec == Seq::new(trail.positions@.len(), |i: int| world_to_screen(*uniforms, trail.positions@[i])),
            i <= n,
            pts@.len() == i,
            forall|k: int| 0 <= k < i ==> pts@[k] == pts_spec[k],
        decreases n - i,
    {
        pts.push(world_to_screen_exec(uniforms, &trail.positions[i]));
        i = i + 1;
    }
    assert(pts@ =~= pts_spec);
    let ghost start = framebuffer@;
    let mut k: usize = 0;
    while k < n - 1
        invariant
            framebuffer.wf(),
            n == pts@.len(),
            n >= 2,
            k <= n - 1,
            framebuffer@ == trail_lines(start, pts@, color_start, color_end, thickness as nat, k as nat),
        decreases n - 1 - k,
    {
        let t = fade_exec(k, n - 1);
        let color = color_start.lerp(&color_end, t);
        let hex = color.to_hex();
        framebuffer.set_current_color(hex);
        let x0 = to_pixel_exec(pts[k].x);
        let y0 = to_pixel_exec(pts[k].y);
        let x1 = to_pixel_exec(pts[k + 1].x);
        let y1 = to_pixel_exec(pts[k + 1].y);
        framebuffer.draw_line(x0, y0, x1, y1, 0, thickness);
        k = k + 1;
    }
}

} // verus!
