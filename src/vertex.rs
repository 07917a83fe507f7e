//! Mesh vertices and the vertex transform stage.

use vstd::prelude::*;
use crate::color::Color;
use crate::fixed::{
    fdiv, floor_div, identity_entries, mul_vec, product, row_dot, sat, saturate, Mat4, Vec2, Vec3, Vec4,
    ONE,
};

verus! {

/// A mesh vertex. The `transformed_*` fields are meaningful once the vertex
/// has been through the transform stage: `transformed_position` holds the
/// screen-space position (fixed-point pixels, with the depth in `z`).
#[derive(Clone, Copy, Debug, PartialEq, Eq, Structural)]
pub struct Vertex {
    pub position: Vec3,
    pub normal: Vec3,
    pub tex_coords: Vec2,
    pub color: Color,
    pub transformed_position: Vec3,
    pub transformed_normal: Vec3,
}

impl Vertex {
    /// A vertex whose transformed fields start as copies of its own.
    pub fn new(position: Vec3, normal: Vec3, tex_coords: Vec2) -> (v: Vertex)
        ensures
            v == (Vertex {
                position,
                normal,
                tex_coords,
                color: Color { r: 0, g: 0, b: 0 },
                transformed_position: position,
                transformed_normal: normal,
            }),
    {
        Vertex {
            position,
            normal,
            tex_coords,
            color: Color::black(),
            transformed_position: position,
            transformed_normal: normal,
        }
    }
}

/// The read-only inputs of one draw call: the transforms and the elapsed time.
#[derive(Clone, Copy, Debug, PartialEq, Eq)]
pub struct Uniforms {
    pub model_matrix: Mat4,
    pub view_matrix: Mat4,
    pub projection_matrix: Mat4,
    pub viewport_matrix: Mat4,
    pub time: i64,
}

/// Division by the homogeneous coordinate. A point with `w == 0` has no
/// projection; it is passed through undivided.
pub open spec fn perspective_divide(c: Vec4) -> Vec4 {
    if c.w == 0 {
        Vec4 { x: c.x, y: c.y, z: c.z, w: ONE }
    } else {
        Vec4 {
            x: sat(fdiv(c.x * ONE, c.w as int)) as i32,
            y: sat(fdiv(c.y * ONE, c.w as int)) as i32,
            z: sat(fdiv(c.z * ONE, c.w as int)) as i32,
            w: ONE,
        }
    }
}

/// The clip-space position of the object-space point `p`: projection · view · model · p.
pub open spec fn clip_position(u: Uniforms, p: Vec3) -> Vec4 {
    let h = Vec4 { x: p.x, y: p.y, z: p.z, w: ONE };
    mul_vec(u.projection_matrix, mul_vec(u.view_matrix, mul_vec(u.model_matrix, h)))
}

/// The screen-space position of the object-space point `p`:
/// viewport · perspectiveDivide(projection · view · model · p).
pub open spec fn screen_position(u: Uniforms, p: Vec3) -> Vec3 {
    let s = mul_vec(u.viewport_matrix, perspective_divide(clip_position(u, p)));
    Vec3 { x: s.x, y: s.y, z: s.z }
}

/// Entry `(r, c)` of a matrix.
pub open spec fn at(m: Mat4, r: int, c: int) -> int {
    m.m@[4 * r + c] as int
}

/// The signed cofactor of entry `(i, j)` of the upper-left 3×3 block.
pub open spec fn cofactor(m: Mat4, i: int, j: int) -> int {
    at(m, (i + 1) % 3, (j + 1) % 3) * at(m, (i + 2) % 3, (j + 2) % 3)
        - at(m, (i + 1) % 3, (j + 2) % 3) * at(m, (i + 2) % 3, (j + 1) % 3)
}

/// The determinant of the upper-left 3×3 block, in cubed fixed-point units.
pub open spec fn det3(m: Mat4) -> int {
    at(m, 0, 0) * cofactor(m, 0, 0) + at(m, 0, 1) * cofactor(m, 0, 1) + at(m, 0, 2) * cofactor(m, 0, 2)
}

/// Entry `(i, j)` of the inverse transpose of the upper-left 3×3 block (the
/// cofactor over the determinant), or of the identity when that block is singular.
pub open spec fn normal_entry(m: Mat4, i: int, j: int) -> int {
    if det3(m) == 0 {
        if i == j {
            ONE as int
        } else {
            0
        }
    } else {
        sat(fdiv(cofactor(m, i, j) * ONE * ONE, det3(m)))
    }
}

/// Row `i` of the normal matrix applied to `n`.
pub open spec fn normal_row(m: Mat4, i: int, n: Vec3) -> i32 {
    sat((normal_entry(m, i, 0) * n.x + normal_entry(m, i, 1) * n.y + normal_entry(m, i, 2) * n.z) / (ONE as int))
        as i32
}

/// The normal `n` carried by the model matrix `m`.
pub open spec fn transform_normal(m: Mat4, n: Vec3) -> Vec3 {
    Vec3 { x: normal_row(m, 0, n), y: normal_row(m, 1, n), z: normal_row(m, 2, n) }
}

fn div_fixed(a: i32, w: i32) -> (r: i32)
    requires
        w != 0,
    ensures
        r == sat(fdiv(a * ONE, w as int)),
{
    let num: i128 = (a as i128) * (ONE as i128);
    assert(-0x1_0000_0000_0000 <= num <= 0x1_0000_0000_0000) by (nonlinear_arith)
        requires
            num == a * 65536,
            -0x8000_0000 <= a <= 0x8000_0000,
    ;
    if w > 0 {
        saturate(floor_div(num, w as i128))
    } else {
        saturate(floor_div(-num, -(w as i128)))
    }
}

pub(crate) fn perspective_divide_exec(c: &Vec4) -> (r: Vec4)
    ensures
        r == perspective_divide(*c),
{
    if c.w == 0 {
        Vec4 { x: c.x, y: c.y, z: c.z, w: ONE }
    } else {
        Vec4 { x: div_fixed(c.x, c.w), y: div_fixed(c.y, c.w), z: div_fixed(c.z, c.w), w: ONE }
    }
}

fn entry(m: &Mat4, r: usize, c: usize) -> (e: i32)
    requires
        r < 3,
        c < 3,
    ensures
        e == at(*m, r as int, c as int),
{
    m.m[4 * r + c]
}

fn cofactor_exec(m: &Mat4, i: usize, j: usize) -> (r: i128)
    requires
        i < 3,
        j < 3,
    ensures
        r == cofactor(*m, i as int, j as int),
        -0x8000_0000_0000_0000 <= r <= 0x8000_0000_0000_0000,
{
    let a: i32 = entry(m, (i + 1) % 3, (j + 1) % 3);
    let b: i32 = entry(m, (i + 2) % 3, (j + 2) % 3);
    let c: i32 = entry(m, (i + 1) % 3, (j + 2) % 3);
    let d: i32 = entry(m, (i + 2) % 3, (j + 1) % 3);
    proof {
        assert(-0x4000_0000_0000_0000 <= a * b <= 0x4000_0000_0000_0000) by (nonlinear_arith)
            requires
                -0x8000_0000 <= a <= 0x8000_0000,
                -0x8000_0000 <= b <= 0x8000_0000,
        ;
        assert(-0x4000_0000_0000_0000 <= c * d <= 0x4000_0000_0000_0000) by (nonlinear_arith)
            requires
                -0x8000_0000 <= c <= 0x8000_0000,
                -0x8000_0000 <= d <= 0x8000_0000,
        ;
    }
    let p: i128 = (a as i128) * (b as i128);
    let q: i128 = (c as i128) * (d as i128);
    p - q
}

proof fn lemma_term_bound(a: int, c: int)
    requires
        -0x8000_0000 <= a <= 0x8000_0000,
        -0x8000_0000_0000_0000 <= c <= 0x8000_0000_0000_0000,
    ensures
        -0x4000_0000_0000_0000_0000_0000 <= a * c <= 0x4000_0000_0000_0000_0000_0000,
{
    assert(-0x4000_0000_0000_0000_0000_0000 <= a * c <= 0x4000_0000_0000_0000_0000_0000) by (nonlinear_arith)
        requires
            -0x8000_0000 <= a <= 0x8000_0000,
            -0x8000_0000_0000_0000 <= c <= 0x8000_0000_0000_0000,
    ;
}

fn det3_exec(m: &Mat4) -> (d: i128)
    ensures
        d == det3(*m),
        -0x1_0000_0000_0000_0000_0000_0000 <= d <= 0x1_0000_0000_0000_0000_0000_0000,
{
    let c0 = cofactor_exec(m, 0, 0);
    let c1 = cofactor_exec(m, 0, 1);
    let c2 = cofactor_exec(m, 0, 2);
    proof {
        lemma_term_bound(at(*m, 0, 0), c0 as int);
        lemma_term_bound(at(*m, 0, 1), c1 as int);
        lemma_term_bound(at(*m, 0, 2), c2 as int);
    }
    (entry(m, 0, 0) as i128) * c0 + (entry(m, 0, 1) as i128) * c1 + (entry(m, 0, 2) as i128) * c2
}

fn normal_entry_exec(m: &Mat4, det: i128, i: usize, j: usize) -> (e: i32)
    requires
        i < 3,
        j < 3,
        det == det3(*m),
        -0x1_0000_0000_0000_0000_0000_0000 <= det <= 0x1_0000_0000_0000_0000_0000_0000,
    ensures
        e == normal_entry(*m, i as int, j as int),
{
    if det == 0 {
        if i == j {
            ONE
        } else {
            0
        }
    } else {
        let c = cofactor_exec(m, i, j);
        let num: i128 = c * (ONE as i128) * (ONE as i128);
        if det > 0 {
            saturate(floor_div(num, det))
        } else {
            saturate(floor_div(-num, -det))
        }
    }
}

fn normal_row_exec(m: &Mat4, det: i128, i: usize, n: &Vec3) -> (r: i32)
    requires
        i < 3,
        det == det3(*m),
        -0x1_0000_0000_0000_0000_0000_0000 <= det <= 0x1_0000_0000_0000_0000_0000_0000,
    ensures
        r == normal_row(*m, i as int, *n),
{
    let e0 = normal_entry_exec(m, det, i, 0);
    let e1 = normal_entry_exec(m, det, i, 1);
    let e2 = normal_entry_exec(m, det, i, 2);
    proof {
        crate::fixed::lemma_product_bound(e0 as int, n.x as int);
        crate::fixed::lemma_product_bound(e1 as int, n.y as int);
        crate::fixed::lemma_product_bound(e2 as int, n.z as int);
    }
    let s: i128 = (e0 as i128) * (n.x as i128) + (e1 as i128) * (n.y as i128) + (e2 as i128) * (n.z as i128);
    saturate(floor_div(s, ONE as i128))
}

/// The vertex `v` after the transform stage.
pub open spec fn shade_vertex(u: Uniforms, v: Vertex) -> Vertex {
    Vertex {
        transformed_position: screen_position(u, v.position),
        transformed_normal: transform_normal(u.model_matrix, v.normal),
        ..v
    }
}

/// Maps one vertex to screen space and carries its normal through the model
/// transform; the other fields are kept.
pub fn vertex_shader(vertex: &Vertex, uniforms: &Uniforms) -> (r: Vertex)
    ensures
        r == shade_vertex(*uniforms, *vertex),
{
    let p = vertex.position;
    let h = Vec4 { x: p.x, y: p.y, z: p.z, w: ONE };
    let world = uniforms.model_matrix.mul_vec(&h);
    let eye = uniforms.view_matrix.mul_vec(&world);
    let clip = uniforms.projection_matrix.mul_vec(&eye);
    let ndc = perspective_divide_exec(&clip);
    let s = uniforms.viewport_matrix.mul_vec(&ndc);
    let m = &uniforms.model_matrix;
    let det = det3_exec(m);
    let n = Vec3 {
        x: normal_row_exec(m, det, 0, &vertex.normal),
        y: normal_row_exec(m, det, 1, &vertex.normal),
        z: normal_row_exec(m, det, 2, &vertex.normal),
    };
    Vertex {
        transformed_position: Vec3 { x: s.x, y: s.y, z: s.z },
        transformed_normal: n,
        ..*vertex
    }
}

/// Rotations about the x, y and z axes, each given by the fixed-point sine
/// and cosine of its angle.
#[derive(Clone, Copy, Debug, PartialEq, Eq, Structural)]
pub struct Rotation {
    pub sin: Vec3,
    pub cos: Vec3,
}

/// A sine and a cosine of one angle, up to rounding: `s² + c²` lies within
/// `4·ONE` of `ONE²`.
pub open spec fn unit_pair(s: i32, c: i32) -> bool {
    let e = s * s + c * c - ONE * ONE;
    -4 * ONE <= e <= 4 * ONE
}

fn unit_pair_exec(s: i32, c: i32) -> (r: bool)
    ensures
        r == unit_pair(s, c),
{
    proof {
        crate::fixed::lemma_product_bound(s as int, s as int);
        crate::fixed::lemma_product_bound(c as int, c as int);
    }
    let e: i128 = (s as i128) * (s as i128) + (c as i128) * (c as i128) - 0x1_0000_0000;
    assert(ONE * ONE == 0x1_0000_0000);
    -0x4_0000 <= e && e <= 0x4_0000
}

impl Rotation {
    /// Each axis holds the sine and cosine of one angle, so that each factor
    /// of the rotation is a rotation up to rounding.
    pub open spec fn wf(&self) -> bool {
        &&& unit_pair(self.sin.x, self.cos.x)
        &&& unit_pair(self.sin.y, self.cos.y)
        &&& unit_pair(self.sin.z, self.cos.z)
    }

    pub fn is_valid(&self) -> (r: bool)
        ensures
            r == self.wf(),
    {
        unit_pair_exec(self.sin.x, self.cos.x) && unit_pair_exec(self.sin.y, self.cos.y) && unit_pair_exec(
            self.sin.z,
            self.cos.z,
        )
    }
}

/// `-v`, saturated.
pub open spec fn neg(v: i32) -> i32 {
    sat(-v) as i32
}

fn neg_exec(v: i32) -> (r: i32)
    ensures
        r == neg(v),
{
    if v == i32::MIN {
        i32::MAX
    } else {
        -v
    }
}

pub open spec fn rotation_x(s: i32, c: i32) -> Seq<i32> {
    seq![ONE, 0, 0, 0, 0, c, neg(s), 0, 0, s, c, 0, 0, 0, 0, ONE]
}

pub open spec fn rotation_y(s: i32, c: i32) -> Seq<i32> {
    seq![c, 0, s, 0, 0, ONE, 0, 0, neg(s), 0, c, 0, 0, 0, 0, ONE]
}

pub open spec fn rotation_z(s: i32, c: i32) -> Seq<i32> {
    seq![c, neg(s), 0, 0, s, c, 0, 0, 0, 0, ONE, 0, 0, 0, 0, ONE]
}

/// Uniform scale by `k`, then translation by `t`.
pub open spec fn scale_translate(t: Vec3, k: i32) -> Seq<i32> {
    seq![k, 0, 0, t.x, 0, k, 0, t.y, 0, 0, k, t.z, 0, 0, 0, ONE]
}

/// The model matrix: rotation about x, then y, then z, then uniform scale,
/// then translation.
pub open spec fn model_entries(translation: Vec3, scale: i32, rotation: Rotation) -> Seq<i32> {
    let (s, c) = (rotation.sin, rotation.cos);
    let r = product(product(rotation_z(s.z, c.z), rotation_y(s.y, c.y)), rotation_x(s.x, c.x));
    product(scale_translate(translation, scale), r)
}

/// The model matrix of an object placed at `translation`, scaled by `scale`
/// and turned by `rotation` (about x first, then y, then z).
pub fn create_model_matrix(translation: Vec3, scale: i32, rotation: Rotation) -> (r: Mat4)
    requires
        rotation.wf(),
    ensures
        r.m@ == model_entries(translation, scale, rotation),
{
    let (s, c) = (rotation.sin, rotation.cos);
    let rx = Mat4 { m: [ONE, 0, 0, 0, 0, c.x, neg_exec(s.x), 0, 0, s.x, c.x, 0, 0, 0, 0, ONE] };
    let ry = Mat4 { m: [c.y, 0, s.y, 0, 0, ONE, 0, 0, neg_exec(s.y), 0, c.y, 0, 0, 0, 0, ONE] };
    let rz = Mat4 { m: [c.z, neg_exec(s.z), 0, 0, s.z, c.z, 0, 0, 0, 0, ONE, 0, 0, 0, 0, ONE] };
    assert(rx.m@ =~= rotation_x(s.x, c.x));
    assert(ry.m@ =~= rotation_y(s.y, c.y));
    assert(rz.m@ =~= rotation_z(s.z, c.z));
    let t = Mat4 {
        m: [scale, 0, 0, translation.x, 0, scale, 0, translation.y, 0, 0, scale, translation.z, 0, 0, 0, ONE],
    };
    assert(t.m@ =~= scale_translate(translation, scale));
    let rotation_matrix = rz.mul(&ry).mul(&rx);
    t.mul(&rotation_matrix)
}

/// Half of a pixel count, in fixed point.
pub open spec fn half_extent(n: int) -> i32 {
    sat(n * (ONE / 2)) as i32
}

/// The viewport transform of a `width`×`height` buffer: normalized device
/// coordinates in `[-1, 1]` to pixels, with y pointing down.
pub open spec fn viewport_entries(width: int, height: int) -> Seq<i32> {
    let hw = half_extent(width);
    let hh = half_extent(height);
    seq![hw, 0, 0, hw, 0, (-hh) as i32, 0, hh, 0, 0, ONE, 0, 0, 0, 0, ONE]
}

fn half_extent_exec(n: usize) -> (r: i32)
    ensures
        r == half_extent(n as int),
{
    if n > 65535 {
        proof {
            assert(n * 32768 > i32::MAX) by (nonlinear_arith)
                requires
                    n > 65535,
            ;
        }
        i32::MAX
    } else {
        proof {
            assert(0 <= n * 32768 <= i32::MAX) by (nonlinear_arith)
                requires
                    0 <= n <= 65535,
            ;
        }
        (n as i32) * 32768
    }
}

/// The viewport matrix of a `width`×`height` buffer.
pub fn create_viewport_matrix(width: usize, height: usize) -> (r: Mat4)
    ensures
        r.m@ == viewport_entries(width as int, height as int),
{
    let hw = half_extent_exec(width);
    let hh = half_extent_exec(height);
    let r = Mat4 { m: [hw, 0, 0, hw, 0, -hh, 0, hh, 0, 0, ONE, 0, 0, 0, 0, ONE] };
    assert(r.m@ =~= viewport_entries(width as int, height as int));
    r
}

/// A projection matrix of the usual perspective shape: clip-space x depends on
/// eye-space x alone, and clip-space y on eye-space y alone.
pub open spec fn axis_aligned_projection(p: Mat4) -> bool {
    &&& p.m@[1] == 0
    &&& p.m@[2] == 0
    &&& p.m@[3] == 0
    &&& p.m@[4] == 0
    &&& p.m@[6] == 0
    &&& p.m@[7] == 0
}

/// A row with `ONE` at column `r` and zeros elsewhere picks out entry `r`.
proof fn lemma_unit_row(m: Mat4, r: int, v: Vec4)
    requires
        0 <= r < 4,
        m.m@[4 * r] == (if r == 0 { ONE } else { 0i32 }),
        m.m@[4 * r + 1] == (if r == 1 { ONE } else { 0i32 }),
        m.m@[4 * r + 2] == (if r == 2 { ONE } else { 0i32 }),
        m.m@[4 * r + 3] == (if r == 3 { ONE } else { 0i32 }),
    ensures
        row_dot(m, r, v) == ONE * (if r == 0 {
            v.x
        } else if r == 1 {
            v.y
        } else if r == 2 {
            v.z
        } else {
            v.w
        }),
{
}

/// A point on the camera's line of sight (the look-at center lies there: its
/// eye-space x and y are zero), drawn with an identity model matrix, lands on
/// the center of the viewport.
pub proof fn lemma_look_at_center_hits_viewport_center(u: Uniforms, p: Vec3, width: nat, height: nat)
    requires
        u.model_matrix.m@ == identity_entries(),
        u.viewport_matrix.m@ == viewport_entries(width as int, height as int),
        axis_aligned_projection(u.projection_matrix),
        mul_vec(u.view_matrix, Vec4 { x: p.x, y: p.y, z: p.z, w: ONE }).x == 0,
        mul_vec(u.view_matrix, Vec4 { x: p.x, y: p.y, z: p.z, w: ONE }).y == 0,
    ensures
        screen_position(u, p).x == half_extent(width as int),
        screen_position(u, p).y == half_extent(height as int),
{
    let h = Vec4 { x: p.x, y: p.y, z: p.z, w: ONE };
    let m = u.model_matrix;
    let id = identity_entries();
    assert(id[0] == ONE && id[1] == 0 && id[2] == 0 && id[3] == 0);
    assert(id[4] == 0 && id[5] == ONE && id[6] == 0 && id[7] == 0);
    assert(id[8] == 0 && id[9] == 0 && id[10] == ONE && id[11] == 0);
    assert(id[12] == 0 && id[13] == 0 && id[14] == 0 && id[15] == ONE);
    assert(m.m@[0] == ONE && m.m@[1] == 0 && m.m@[2] == 0 && m.m@[3] == 0);
    assert(m.m@[4] == 0 && m.m@[5] == ONE && m.m@[6] == 0 && m.m@[7] == 0);
    assert(m.m@[8] == 0 && m.m@[9] == 0 && m.m@[10] == ONE && m.m@[11] == 0);
    assert(m.m@[12] == 0 && m.m@[13] == 0 && m.m@[14] == 0 && m.m@[15] == ONE);
    lemma_unit_row(m, 0, h);
    lemma_unit_row(m, 1, h);
    lemma_unit_row(m, 2, h);
    lemma_unit_row(m, 3, h);
    vstd::arithmetic::div_mod::lemma_div_multiples_vanish(p.x as int, ONE as int);
    vstd::arithmetic::div_mod::lemma_div_multiples_vanish(p.y as int, ONE as int);
    vstd::arithmetic::div_mod::lemma_div_multiples_vanish(p.z as int, ONE as int);
    vstd::arithmetic::div_mod::lemma_div_multiples_vanish(ONE as int, ONE as int);
    assert(mul_vec(m, h) == h);
    let eye = mul_vec(u.view_matrix, h);
    let clip = mul_vec(u.projection_matrix, eye);
    assert(row_dot(u.projection_matrix, 0, eye) == 0);
    assert(row_dot(u.projection_matrix, 1, eye) == 0);
    assert(clip.x == 0 && clip.y == 0);
    let ndc = perspective_divide(clip);
    assert(ndc.x == 0 && ndc.y == 0);
    let v = u.viewport_matrix;
    let hw = half_extent(width as int);
    let hh = half_extent(height as int);
    let vp = viewport_entries(width as int, height as int);
    assert(vp[0] == hw && vp[1] == 0 && vp[2] == 0 && vp[3] == hw);
    assert(vp[4] == 0 && vp[6] == 0 && vp[7] == hh);
    assert(row_dot(v, 0, ndc) == hw * ONE);
    assert(row_dot(v, 1, ndc) == hh * ONE);
    vstd::arithmetic::div_mod::lemma_div_multiples_vanish(hw as int, ONE as int);
    vstd::arithmetic::div_mod::lemma_div_multiples_vanish(hh as int, ONE as int);
    assert(hw * ONE == ONE * hw) by (nonlinear_arith);
    assert(hh * ONE == ONE * hh) by (nonlinear_arith);
}

} // verus!
