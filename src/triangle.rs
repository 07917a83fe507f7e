//! Scan conversion of one screen-space triangle into fragments.
//!
//! Pixel `(x, y)` is sampled at its center. A pixel is covered when its
//! barycentric weights, taken relative to the signed area of the triangle, all
//! lie in `[0, 1]` (edges included). Depth and the carried attributes are
//! interpolated linearly in screen space with those weights.

use vstd::prelude::*;
use crate::fixed::{floor_div, Vec3, ONE};
use crate::vertex::Vertex;

verus! {

/// One rasterized sample, before shading.
#[derive(Clone, Copy, Debug, PartialEq, Eq, Structural)]
pub struct Fragment {
    pub x: usize,
    pub y: usize,
    pub depth: i32,
    pub vertex_position: Vec3,
    pub normal: Vec3,
    pub intensity: i32,
}

/// Twice the signed area of `(a, b, p)`: positive when `p` lies to the left of `a → b`
/// in a y-up frame.
pub open spec fn edge(ax: int, ay: int, bx: int, by: int, px: int, py: int) -> int {
    (bx - ax) * (py - ay) - (by - ay) * (px - ax)
}

/// The fixed-point coordinate of the center of pixel `p`.
pub open spec fn center(p: int) -> int {
    p * ONE + ONE / 2
}

pub open spec fn signed_area(a: Vec3, b: Vec3, c: Vec3) -> int {
    edge(a.x as int, a.y as int, b.x as int, b.y as int, c.x as int, c.y as int)
}

/// The barycentric weights of `(px, py)`, each scaled by the signed area.
pub open spec fn weights(a: Vec3, b: Vec3, c: Vec3, px: int, py: int) -> (int, int, int) {
    (
        edge(b.x as int, b.y as int, c.x as int, c.y as int, px, py),
        edge(c.x as int, c.y as int, a.x as int, a.y as int, px, py),
        edge(a.x as int, a.y as int, b.x as int, b.y as int, px, py),
    )
}

/// Whether weights scaled by `area` all lie in `[0, 1]` once divided by it.
pub open spec fn inside(area: int, w: (int, int, int)) -> bool {
    if area > 0 {
        w.0 >= 0 && w.1 >= 0 && w.2 >= 0
    } else if area < 0 {
        w.0 <= 0 && w.1 <= 0 && w.2 <= 0
    } else {
        false
    }
}

/// Whether the center of pixel `(x, y)` is covered by the triangle `a, b, c`.
pub open spec fn covers(a: Vec3, b: Vec3, c: Vec3, x: int, y: int) -> bool {
    inside(signed_area(a, b, c), weights(a, b, c, center(x), center(y)))
}

/// `(wa*va + wb*vb + wc*vc) / area`, rounded down.
pub open spec fn blend(area: int, w: (int, int, int), va: int, vb: int, vc: int) -> int {
    let s = w.0 * va + w.1 * vb + w.2 * vc;
    if area > 0 {
        s / area
    } else {
        (-s) / (-area)
    }
}

/// The attribute with values `va, vb, vc` at the three corners, interpolated at pixel `(x, y)`.
pub open spec fn interp_at(a: Vec3, b: Vec3, c: Vec3, x: int, y: int, va: i32, vb: i32, vc: i32) -> i32 {
    blend(signed_area(a, b, c), weights(a, b, c, center(x), center(y)), va as int, vb as int, vc as int) as i32
}

pub open spec fn interp_vec(a: Vec3, b: Vec3, c: Vec3, x: int, y: int, pa: Vec3, pb: Vec3, pc: Vec3) -> Vec3 {
    Vec3 {
        x: interp_at(a, b, c, x, y, pa.x, pb.x, pc.x),
        y: interp_at(a, b, c, x, y, pa.y, pb.y, pc.y),
        z: interp_at(a, b, c, x, y, pa.z, pb.z, pc.z),
    }
}

/// Whether `r` is the integer square root of `n`.
pub open spec fn is_isqrt(n: int, r: int) -> bool {
    0 <= r && r * r <= n < (r + 1) * (r + 1)
}

/// The integer square root of `n`.
pub open spec fn isqrt(n: int) -> int {
    choose|r: int| is_isqrt(n, r)
}

/// The length of `n`, rounded down.
pub open spec fn length(n: Vec3) -> int {
    isqrt(n.x * n.x + n.y * n.y + n.z * n.z)
}

/// The lighting intensity of a surface with normal `n`, lit along the view
/// axis: the cosine between `n` and that axis, in fixed point, and 0 for a
/// surface that faces away.
pub open spec fn light(n: Vec3) -> int {
    if n.z <= 0 {
        0
    } else {
        (n.z * ONE) / length(n)
    }
}

/// The fragment that pixel `(x, y)` yields.
pub open spec fn fragment_at(v1: Vertex, v2: Vertex, v3: Vertex, x: int, y: int) -> Fragment {
    let (a, b, c) = (v1.transformed_position, v2.transformed_position, v3.transformed_position);
    let n = interp_vec(a, b, c, x, y, v1.transformed_normal, v2.transformed_normal, v3.transformed_normal);
    Fragment {
        x: x as usize,
        y: y as usize,
        depth: interp_at(a, b, c, x, y, a.z, b.z, c.z),
        vertex_position: interp_vec(a, b, c, x, y, v1.position, v2.position, v3.position),
        normal: n,
        intensity: light(n) as i32,
    }
}

pub open spec fn min3(a: int, b: int, c: int) -> int {
    if a <= b && a <= c {
        a
    } else if b <= c {
        b
    } else {
        c
    }
}

pub open spec fn max3(a: int, b: int, c: int) -> int {
    if a >= b && a >= c {
        a
    } else if b >= c {
        b
    } else {
        c
    }
}

/// The first pixel of the bounding box along one axis, clamped to the buffer.
pub open spec fn box_lo(lo: int) -> int {
    if lo / (ONE as int) < 0 {
        0
    } else {
        lo / (ONE as int)
    }
}

/// The last pixel of the bounding box along one axis, clamped to the buffer.
pub open spec fn box_hi(hi: int, size: int) -> int {
    if hi / (ONE as int) > size - 1 {
        size - 1
    } else {
        hi / (ONE as int)
    }
}

pub open spec fn span_len(lo: int, hi: int) -> nat {
    if hi >= lo {
        (hi - lo + 1) as nat
    } else {
        0
    }
}

/// The fragments of the first `k` pixels of row `y`, starting at column `x0`.
pub open spec fn row_fragments(v1: Vertex, v2: Vertex, v3: Vertex, y: int, x0: int, k: nat) -> Seq<Fragment>
    decreases k,
{
    if k == 0 {
        Seq::empty()
    } else {
        let x = x0 + k - 1;
        let prev = row_fragments(v1, v2, v3, y, x0, (k - 1) as nat);
        if covers(v1.transformed_position, v2.transformed_position, v3.transformed_position, x, y) {
            prev.push(fragment_at(v1, v2, v3, x, y))
        } else {
            prev
        }
    }
}

/// The fragments of the first `k` rows of the box starting at row `y0`,
/// each row `nx` pixels wide from column `x0`.
pub open spec fn box_fragments(v1: Vertex, v2: Vertex, v3: Vertex, x0: int, nx: nat, y0: int, k: nat) -> Seq<Fragment>
    decreases k,
{
    if k == 0 {
        Seq::empty()
    } else {
        box_fragments(v1, v2, v3, x0, nx, y0, (k - 1) as nat) + row_fragments(v1, v2, v3, y0 + k - 1, x0, nx)
    }
}

/// All fragments of the triangle inside a `width`×`height` buffer, row by row
/// from the top, left to right: none when the triangle is degenerate.
pub open spec fn triangle_fragments(v1: Vertex, v2: Vertex, v3: Vertex, width: int, height: int) -> Seq<Fragment> {
    let (a, b, c) = (v1.transformed_position, v2.transformed_position, v3.transformed_position);
    let x0 = box_lo(min3(a.x as int, b.x as int, c.x as int));
    let x1 = box_hi(max3(a.x as int, b.x as int, c.x as int), width);
    let y0 = box_lo(min3(a.y as int, b.y as int, c.y as int));
    let y1 = box_hi(max3(a.y as int, b.y as int, c.y as int), height);
    if signed_area(a, b, c) == 0 {
        Seq::empty()
    } else {
        box_fragments(v1, v2, v3, x0, span_len(x0, x1), y0, span_len(y0, y1))
    }
}

/// Three points are collinear (or coincide) exactly when their signed area is zero.
pub open spec fn collinear(a: Vec3, b: Vec3, c: Vec3) -> bool {
    signed_area(a, b, c) == 0
}

/// Bound on the magnitude of the coordinates that enter an edge function.
const COORD_BOUND: i128 = 0x4_0000_0000;

/// Bound on the magnitude of an edge function over such coordinates.
const WEIGHT_BOUND: i128 = 0x100_0000_0000_0000_0000;

fn edge_exec(ax: i128, ay: i128, bx: i128, by: i128, px: i128, py: i128) -> (r: i128)
    requires
        -COORD_BOUND <= ax <= COORD_BOUND,
        -COORD_BOUND <= ay <= COORD_BOUND,
        -COORD_BOUND <= bx <= COORD_BOUND,
        -COORD_BOUND <= by <= COORD_BOUND,
        -COORD_BOUND <= px <= COORD_BOUND,
        -COORD_BOUND <= py <= COORD_BOUND,
    ensures
        r == edge(ax as int, ay as int, bx as int, by as int, px as int, py as int),
        -WEIGHT_BOUND <= r <= WEIGHT_BOUND,
{
    let d1: i128 = bx - ax;
    let d2: i128 = py - ay;
    let d3: i128 = by - ay;
    let d4: i128 = px - ax;
    proof {
        assert(-0x40_0000_0000_0000_0000 <= d1 * d2 <= 0x40_0000_0000_0000_0000) by (nonlinear_arith)
            requires
                -0x8_0000_0000 <= d1 <= 0x8_0000_0000,
                -0x8_0000_0000 <= d2 <= 0x8_0000_0000,
        ;
        assert(-0x40_0000_0000_0000_0000 <= d3 * d4 <= 0x40_0000_0000_0000_0000) by (nonlinear_arith)
            requires
                -0x8_0000_0000 <= d3 <= 0x8_0000_0000,
                -0x8_0000_0000 <= d4 <= 0x8_0000_0000,
        ;
    }
    d1 * d2 - d3 * d4
}

proof fn lemma_edge_expand(ax: int, ay: int, bx: int, by: int, px: int, py: int)
    ensures
        edge(ax, ay, bx, by, px, py) == bx * py - bx * ay - ax * py - px * by + ax * by + px * ay,
{
    assert((bx - ax) * (py - ay) == bx * py - bx * ay - ax * py + ax * ay) by (nonlinear_arith);
    assert((by - ay) * (px - ax) == px * by - ax * by - px * ay + ax * ay) by (nonlinear_arith);
}

proof fn lemma_edges_sum(ax: int, ay: int, bx: int, by: int, cx: int, cy: int, px: int, py: int)
    ensures
        edge(bx, by, cx, cy, px, py) + edge(cx, cy, ax, ay, px, py) + edge(ax, ay, bx, by, px, py) == edge(
            ax,
            ay,
            bx,
            by,
            cx,
            cy,
        ),
{
    lemma_edge_expand(ax, ay, bx, by, px, py);
    lemma_edge_expand(bx, by, cx, cy, px, py);
    lemma_edge_expand(cx, cy, ax, ay, px, py);
    lemma_edge_expand(ax, ay, bx, by, cx, cy);
}

/// The three weights always add up to the signed area.
proof fn lemma_weights_sum(a: Vec3, b: Vec3, c: Vec3, px: int, py: int)
    ensures
        ({
            let w = weights(a, b, c, px, py);
            w.0 + w.1 + w.2 == signed_area(a, b, c)
        }),
{
    lemma_edges_sum(a.x as int, a.y as int, b.x as int, b.y as int, c.x as int, c.y as int, px, py);
}

/// An edge function is the cross product of the two corners seen from `p`.
proof fn lemma_edge_relative(bx: int, by: int, cx: int, cy: int, px: int, py: int)
    ensures
        edge(bx, by, cx, cy, px, py) == (bx - px) * (cy - py) - (by - py) * (cx - px),
{
    lemma_edge_expand(bx, by, cx, cy, px, py);
    assert((bx - px) * (cy - py) == bx * cy - bx * py - px * cy + px * py) by (nonlinear_arith);
    assert((by - py) * (cx - px) == cx * by - px * by - cx * py + px * py) by (nonlinear_arith);
}

/// The weights reproduce the point: `wa·ax + wb·bx + wc·cx == area·px`.
proof fn lemma_weights_reproduce(ax: int, ay: int, bx: int, by: int, cx: int, cy: int, px: int, py: int)
    ensures
        edge(bx, by, cx, cy, px, py) * ax + edge(cx, cy, ax, ay, px, py) * bx + edge(ax, ay, bx, by, px, py) * cx
            == edge(ax, ay, bx, by, cx, cy) * px,
{
    let (ua, va, ub, vb, uc, vc) = (ax - px, ay - py, bx - px, by - py, cx - px, cy - py);
    lemma_edge_relative(bx, by, cx, cy, px, py);
    lemma_edge_relative(cx, cy, ax, ay, px, py);
    lemma_edge_relative(ax, ay, bx, by, px, py);
    let wa = ub * vc - vb * uc;
    let wb = uc * va - vc * ua;
    let wc = ua * vb - va * ub;
    assert(wa * ua + wb * ub + wc * uc == 0) by (nonlinear_arith)
        requires
            wa == ub * vc - vb * uc,
            wb == uc * va - vc * ua,
            wc == ua * vb - va * ub,
    ;
    lemma_edges_sum(ax, ay, bx, by, cx, cy, px, py);
    assert(wa * ax + wb * bx + wc * cx == (wa * ua + wb * ub + wc * uc) + (wa + wb + wc) * px) by (nonlinear_arith)
        requires
            ua == ax - px,
            ub == bx - px,
            uc == cx - px,
    ;
}

/// The weights reproduce the point along y as well.
proof fn lemma_weights_reproduce_y(ax: int, ay: int, bx: int, by: int, cx: int, cy: int, px: int, py: int)
    ensures
        edge(bx, by, cx, cy, px, py) * ay + edge(cx, cy, ax, ay, px, py) * by + edge(ax, ay, bx, by, px, py) * cy
            == edge(ax, ay, bx, by, cx, cy) * py,
{
    lemma_weights_reproduce(ay, ax, by, bx, cy, cx, py, px);
    let (wa, wb, wc, area) = (
        edge(bx, by, cx, cy, px, py),
        edge(cx, cy, ax, ay, px, py),
        edge(ax, ay, bx, by, px, py),
        edge(ax, ay, bx, by, cx, cy),
    );
    assert(edge(by, bx, cy, cx, py, px) == -wa);
    assert(edge(cy, cx, ay, ax, py, px) == -wb);
    assert(edge(ay, ax, by, bx, py, px) == -wc);
    assert(edge(ay, ax, by, bx, cy, cx) == -area);
    assert(wa * ay + wb * by + wc * cy == area * py) by (nonlinear_arith)
        requires
            (-wa) * ay + (-wb) * by + (-wc) * cy == (-area) * py,
    ;
}

/// A covered pixel center lies between the smallest and the largest corner
/// coordinate, along each axis.
proof fn lemma_center_between(a: Vec3, b: Vec3, c: Vec3, x: int, y: int)
    requires
        covers(a, b, c, x, y),
    ensures
        min3(a.x as int, b.x as int, c.x as int) <= center(x) <= max3(a.x as int, b.x as int, c.x as int),
        min3(a.y as int, b.y as int, c.y as int) <= center(y) <= max3(a.y as int, b.y as int, c.y as int),
{
    let (ax, ay, bx, by, cx, cy) = (a.x as int, a.y as int, b.x as int, b.y as int, c.x as int, c.y as int);
    let (px, py) = (center(x), center(y));
    lemma_weights_reproduce(ax, ay, bx, by, cx, cy, px, py);
    lemma_weights_reproduce_y(ax, ay, bx, by, cx, cy, px, py);
    lemma_edges_sum(ax, ay, bx, by, cx, cy, px, py);
    let w = weights(a, b, c, px, py);
    let area = signed_area(a, b, c);
    // orient the weights so that they are non-negative
    let (s, wa, wb, wc) = if area > 0 {
        (area, w.0, w.1, w.2)
    } else {
        (-area, -w.0, -w.1, -w.2)
    };
    assert(wa * ax + wb * bx + wc * cx == s * px) by (nonlinear_arith)
        requires
            w.0 * ax + w.1 * bx + w.2 * cx == area * px,
            (s == area && wa == w.0 && wb == w.1 && wc == w.2) || (s == -area && wa == -w.0 && wb == -w.1 && wc
                == -w.2),
    ;
    assert(wa * ay + wb * by + wc * cy == s * py) by (nonlinear_arith)
        requires
            w.0 * ay + w.1 * by + w.2 * cy == area * py,
            (s == area && wa == w.0 && wb == w.1 && wc == w.2) || (s == -area && wa == -w.0 && wb == -w.1 && wc
                == -w.2),
    ;
    lemma_weighted_between(s, wa, wb, wc, ax, bx, cx, px);
    lemma_weighted_between(s, wa, wb, wc, ay, by, cy, py);
}

/// A weighted mean with non-negative weights lies between the smallest and the
/// largest value.
proof fn lemma_weighted_between(s: int, wa: int, wb: int, wc: int, va: int, vb: int, vc: int, p: int)
    requires
        s > 0,
        wa >= 0,
        wb >= 0,
        wc >= 0,
        wa + wb + wc == s,
        wa * va + wb * vb + wc * vc == s * p,
    ensures
        min3(va, vb, vc) <= p <= max3(va, vb, vc),
{
    let m = min3(va, vb, vc);
    let mx = max3(va, vb, vc);
    assert(s * m <= s * p) by (nonlinear_arith)
        requires
            wa >= 0,
            wb >= 0,
            wc >= 0,
            wa + wb + wc == s,
            m <= va,
            m <= vb,
            m <= vc,
            wa * va + wb * vb + wc * vc == s * p,
    ;
    assert(s * p <= s * mx) by (nonlinear_arith)
        requires
            wa >= 0,
            wb >= 0,
            wc >= 0,
            wa + wb + wc == s,
            mx >= va,
            mx >= vb,
            mx >= vc,
            wa * va + wb * vb + wc * vc == s * p,
    ;
    assert(m <= p) by (nonlinear_arith)
        requires
            s > 0,
            s * m <= s * p,
    ;
    assert(p <= mx) by (nonlinear_arith)
        requires
            s > 0,
            s * p <= s * mx,
    ;
}

/// A pixel whose center lies in `[lo, hi]` lies in the clamped span of the bounding box.
proof fn lemma_in_span(lo: int, hi: int, size: int, x: int)
    requires
        0 <= x < size,
        lo <= center(x) <= hi,
    ensures
        box_lo(lo) <= x <= box_hi(hi, size),
{
    let one = ONE as int;
    let q = lo / one;
    vstd::arithmetic::div_mod::lemma_fundamental_div_mod(lo, one);
    assert(q <= x) by (nonlinear_arith)
        requires
            lo == one * q + lo % one,
            0 <= lo % one,
            lo <= x * one + one / 2,
            one == 65536,
    ;
    vstd::arithmetic::div_mod::lemma_div_is_ordered(x * one, hi, one);
    vstd::arithmetic::div_mod::lemma_div_multiples_vanish(x, one);
    assert(x * one == one * x) by (nonlinear_arith);
}

/// A covered pixel in the first `k` columns from `x0` has its fragment in the row.
proof fn lemma_row_has(v1: Vertex, v2: Vertex, v3: Vertex, y: int, x0: int, k: nat, x: int)
    requires
        x0 <= x < x0 + k,
        covers(v1.transformed_position, v2.transformed_position, v3.transformed_position, x, y),
    ensures
        row_fragments(v1, v2, v3, y, x0, k).contains(fragment_at(v1, v2, v3, x, y)),
    decreases k,
{
    let f = fragment_at(v1, v2, v3, x, y);
    let prev = row_fragments(v1, v2, v3, y, x0, (k - 1) as nat);
    if x == x0 + k - 1 {
        assert(row_fragments(v1, v2, v3, y, x0, k) == prev.push(f));
        assert(prev.push(f)[prev.len() as int] == f);
    } else {
        lemma_row_has(v1, v2, v3, y, x0, (k - 1) as nat, x);
        let i = choose|i: int| 0 <= i < prev.len() && prev[i] == f;
        let row = row_fragments(v1, v2, v3, y, x0, k);
        assert(row[i] == f);
    }
}

/// A covered pixel in the first `k` rows of the box has its fragment in the box.
proof fn lemma_box_has(v1: Vertex, v2: Vertex, v3: Vertex, x0: int, nx: nat, y0: int, k: nat, x: int, y: int)
    requires
        x0 <= x < x0 + nx,
        y0 <= y < y0 + k,
        covers(v1.transformed_position, v2.transformed_position, v3.transformed_position, x, y),
    ensures
        box_fragments(v1, v2, v3, x0, nx, y0, k).contains(fragment_at(v1, v2, v3, x, y)),
    decreases k,
{
    let f = fragment_at(v1, v2, v3, x, y);
    let prev = box_fragments(v1, v2, v3, x0, nx, y0, (k - 1) as nat);
    let row = row_fragments(v1, v2, v3, y0 + k - 1, x0, nx);
    let all = box_fragments(v1, v2, v3, x0, nx, y0, k);
    assert(all == prev + row);
    if y == y0 + k - 1 {
        lemma_row_has(v1, v2, v3, y, x0, nx, x);
        let i = choose|i: int| 0 <= i < row.len() && row[i] == f;
        assert(all[prev.len() + i] == f);
    } else {
        lemma_box_has(v1, v2, v3, x0, nx, y0, (k - 1) as nat, x, y);
        let i = choose|i: int| 0 <= i < prev.len() && prev[i] == f;
        assert(all[i] == f);
    }
}

/// Row order: the fragments of a row lie on it, left to right, inside its span.
proof fn lemma_row_ordered(v1: Vertex, v2: Vertex, v3: Vertex, y: int, x0: int, k: nat)
    requires
        0 <= y <= usize::MAX,
        0 <= x0,
        x0 + k <= usize::MAX + 1,
    ensures
        ({
            let r = row_fragments(v1, v2, v3, y, x0, k);
            &&& forall|i: int| 0 <= i < r.len() ==> (#[trigger] r[i]).y == y && x0 <= r[i].x < x0 + k
            &&& forall|i: int|
                0 <= i < r.len() ==> covers(
                    v1.transformed_position,
                    v2.transformed_position,
                    v3.transformed_position,
                    (#[trigger] r[i]).x as int,
                    y,
                ) && r[i] == fragment_at(v1, v2, v3, r[i].x as int, y)
            &&& forall|i: int, j: int| 0 <= i < j < r.len() ==> (#[trigger] r[i]).x < (#[trigger] r[j]).x
        }),
    decreases k,
{
    if k > 0 {
        lemma_row_ordered(v1, v2, v3, y, x0, (k - 1) as nat);
        let prev = row_fragments(v1, v2, v3, y, x0, (k - 1) as nat);
        let r = row_fragments(v1, v2, v3, y, x0, k);
        let x = x0 + k - 1;
        if covers(v1.transformed_position, v2.transformed_position, v3.transformed_position, x, y) {
            let f = fragment_at(v1, v2, v3, x, y);
            assert(r == prev.push(f));
            assert(f.x == x && f.y == y);
            assert forall|i: int| 0 <= i < r.len() implies (#[trigger] r[i]).y == y && x0 <= r[i].x < x0 + k
                && covers(v1.transformed_position, v2.transformed_position, v3.transformed_position, r[i].x as int, y)
                && r[i] == fragment_at(v1, v2, v3, r[i].x as int, y) by {
                if i < prev.len() {
                    assert(r[i] == prev[i]);
                    assert(prev[i].y == y && x0 <= prev[i].x < x0 + k - 1);
                } else {
                    assert(r[i] == f);
                }
            }
            assert forall|i: int, j: int| 0 <= i < j < r.len() implies (#[trigger] r[i]).x < (#[trigger] r[j]).x by {
                assert(r.len() == prev.len() + 1);
                assert(0 <= i < prev.len());
                assert(r[i] == prev[i]);
                assert(prev[i].y == y && x0 <= prev[i].x < x0 + k - 1);
                if j < prev.len() {
                    assert(r[j] == prev[j]);
                    assert(prev[i].x < prev[j].x);
                } else {
                    assert(r[j] == f);
                }
            }
        } else {
            assert(r == prev);
        }
    }
}

/// Box order: row by row from the top, left to right within a row.
proof fn lemma_box_ordered(v1: Vertex, v2: Vertex, v3: Vertex, x0: int, nx: nat, y0: int, k: nat)
    requires
        0 <= y0,
        y0 + k <= usize::MAX + 1,
        0 <= x0,
        x0 + nx <= usize::MAX + 1,
    ensures
        ({
            let r = box_fragments(v1, v2, v3, x0, nx, y0, k);
            &&& forall|i: int| 0 <= i < r.len() ==> y0 <= #[trigger] r[i].y < y0 + k
            &&& forall|i: int|
                0 <= i < r.len() ==> covers(
                    v1.transformed_position,
                    v2.transformed_position,
                    v3.transformed_position,
                    (#[trigger] r[i]).x as int,
                    r[i].y as int,
                ) && r[i] == fragment_at(v1, v2, v3, r[i].x as int, r[i].y as int)
            &&& forall|i: int, j: int|
                0 <= i < j < r.len() ==> #[trigger] r[i].y < #[trigger] r[j].y || (r[i].y == r[j].y && r[i].x
                    < r[j].x)
        }),
    decreases k,
{
    if k > 0 {
        lemma_box_ordered(v1, v2, v3, x0, nx, y0, (k - 1) as nat);
        lemma_row_ordered(v1, v2, v3, y0 + k - 1, x0, nx);
        let prev = box_fragments(v1, v2, v3, x0, nx, y0, (k - 1) as nat);
        let row = row_fragments(v1, v2, v3, y0 + k - 1, x0, nx);
        let r = box_fragments(v1, v2, v3, x0, nx, y0, k);
        assert(r == prev + row);
        assert forall|i: int| 0 <= i < r.len() implies y0 <= #[trigger] r[i].y < y0 + k && covers(
            v1.transformed_position,
            v2.transformed_position,
            v3.transformed_position,
            r[i].x as int,
            r[i].y as int,
        ) && r[i] == fragment_at(v1, v2, v3, r[i].x as int, r[i].y as int) by {
            if i >= prev.len() {
                assert(r[i] == row[i - prev.len()]);
            } else {
                assert(r[i] == prev[i]);
            }
        }
        assert forall|i: int, j: int| 0 <= i < j < r.len() implies #[trigger] r[i].y < #[trigger] r[j].y || (r[i].y
            == r[j].y && r[i].x < r[j].x) by {
            if j < prev.len() {
                assert(r[i] == prev[i] && r[j] == prev[j]);
            } else if i >= prev.len() {
                assert(r[i] == row[i - prev.len()] && r[j] == row[j - prev.len()]);
            } else {
                assert(r[i] == prev[i] && r[j] == row[j - prev.len()]);
            }
        }
    }
}

/// A triangle yields at most one fragment per pixel, and each fragment is the
/// one of a covered pixel.
pub proof fn lemma_triangle_one_per_pixel(v1: Vertex, v2: Vertex, v3: Vertex, width: int, height: int)
    requires
        0 <= width <= usize::MAX,
        0 <= height <= usize::MAX,
    ensures
        ({
            let r = triangle_fragments(v1, v2, v3, width, height);
            &&& forall|i: int, j: int|
                0 <= i < j < r.len() ==> !(#[trigger] r[i].x == #[trigger] r[j].x && r[i].y == r[j].y)
            &&& forall|i: int|
                0 <= i < r.len() ==> covers(
                    v1.transformed_position,
                    v2.transformed_position,
                    v3.transformed_position,
                    (#[trigger] r[i]).x as int,
                    r[i].y as int,
                ) && r[i] == fragment_at(v1, v2, v3, r[i].x as int, r[i].y as int)
        }),
{
    let (a, b, c) = (v1.transformed_position, v2.transformed_position, v3.transformed_position);
    if signed_area(a, b, c) != 0 {
        let x0 = box_lo(min3(a.x as int, b.x as int, c.x as int));
        let x1 = box_hi(max3(a.x as int, b.x as int, c.x as int), width);
        let y0 = box_lo(min3(a.y as int, b.y as int, c.y as int));
        let y1 = box_hi(max3(a.y as int, b.y as int, c.y as int), height);
        lemma_box_ordered(v1, v2, v3, x0, span_len(x0, x1), y0, span_len(y0, y1));
    }
}

/// No covered pixel is missed: every pixel of the buffer whose center the
/// triangle covers yields its fragment.
pub proof fn lemma_triangle_complete(v1: Vertex, v2: Vertex, v3: Vertex, width: int, height: int, x: int, y: int)
    requires
        0 <= x < width,
        0 <= y < height,
        covers(v1.transformed_position, v2.transformed_position, v3.transformed_position, x, y),
    ensures
        triangle_fragments(v1, v2, v3, width, height).contains(fragment_at(v1, v2, v3, x, y)),
{
    let (a, b, c) = (v1.transformed_position, v2.transformed_position, v3.transformed_position);
    lemma_center_between(a, b, c, x, y);
    let x0 = box_lo(min3(a.x as int, b.x as int, c.x as int));
    let x1 = box_hi(max3(a.x as int, b.x as int, c.x as int), width);
    let y0 = box_lo(min3(a.y as int, b.y as int, c.y as int));
    let y1 = box_hi(max3(a.y as int, b.y as int, c.y as int), height);
    lemma_in_span(min3(a.x as int, b.x as int, c.x as int), max3(a.x as int, b.x as int, c.x as int), width, x);
    lemma_in_span(min3(a.y as int, b.y as int, c.y as int), max3(a.y as int, b.y as int, c.y as int), height, y);
    lemma_box_has(v1, v2, v3, x0, span_len(x0, x1), y0, span_len(y0, y1), x, y);
}

/// With non-negative weights that add up to a positive area, the blend lies
/// between the smallest and the largest corner value.
proof fn lemma_blend_between(area: int, wa: int, wb: int, wc: int, va: int, vb: int, vc: int)
    requires
        area > 0,
        wa >= 0,
        wb >= 0,
        wc >= 0,
        wa + wb + wc == area,
    ensures
        min3(va, vb, vc) <= (wa * va + wb * vb + wc * vc) / area <= max3(va, vb, vc),
{
    let m = min3(va, vb, vc);
    let mx = max3(va, vb, vc);
    let s = wa * va + wb * vb + wc * vc;
    assert(m * area <= s) by (nonlinear_arith)
        requires
            wa >= 0,
            wb >= 0,
            wc >= 0,
            wa + wb + wc == area,
            m <= va,
            m <= vb,
            m <= vc,
            s == wa * va + wb * vb + wc * vc,
    ;
    assert(s <= mx * area) by (nonlinear_arith)
        requires
            wa >= 0,
            wb >= 0,
            wc >= 0,
            wa + wb + wc == area,
            mx >= va,
            mx >= vb,
            mx >= vc,
            s == wa * va + wb * vb + wc * vc,
    ;
    vstd::arithmetic::div_mod::lemma_div_is_ordered(m * area, s, area);
    vstd::arithmetic::div_mod::lemma_div_is_ordered(s, mx * area, area);
    vstd::arithmetic::div_mod::lemma_div_multiples_vanish(m, area);
    vstd::arithmetic::div_mod::lemma_div_multiples_vanish(mx, area);
    assert(m * area == area * m) by (nonlinear_arith);
    assert(mx * area == area * mx) by (nonlinear_arith);
}

/// Interpolates one attribute with weights of a covered pixel.
fn blend_exec(area: i128, wa: i128, wb: i128, wc: i128, va: i32, vb: i32, vc: i32) -> (r: i32)
    requires
        inside(area as int, (wa as int, wb as int, wc as int)),
        wa + wb + wc == area,
        -WEIGHT_BOUND <= wa <= WEIGHT_BOUND,
        -WEIGHT_BOUND <= wb <= WEIGHT_BOUND,
        -WEIGHT_BOUND <= wc <= WEIGHT_BOUND,
    ensures
        r == blend(area as int, (wa as int, wb as int, wc as int), va as int, vb as int, vc as int),
{
    proof {
        assert(-0x80_0000_0000_0000_0000_0000_0000 <= wa * va <= 0x80_0000_0000_0000_0000_0000_0000)
            by (nonlinear_arith)
            requires
                -0x100_0000_0000_0000_0000 <= wa <= 0x100_0000_0000_0000_0000,
                -0x8000_0000 <= va <= 0x8000_0000,
        ;
        assert(-0x80_0000_0000_0000_0000_0000_0000 <= wb * vb <= 0x80_0000_0000_0000_0000_0000_0000)
            by (nonlinear_arith)
            requires
                -0x100_0000_0000_0000_0000 <= wb <= 0x100_0000_0000_0000_0000,
                -0x8000_0000 <= vb <= 0x8000_0000,
        ;
        assert(-0x80_0000_0000_0000_0000_0000_0000 <= wc * vc <= 0x80_0000_0000_0000_0000_0000_0000)
            by (nonlinear_arith)
            requires
                -0x100_0000_0000_0000_0000 <= wc <= 0x100_0000_0000_0000_0000,
                -0x8000_0000 <= vc <= 0x8000_0000,
        ;
    }
    let s: i128 = wa * (va as i128) + wb * (vb as i128) + wc * (vc as i128);
    if area > 0 {
        proof {
            lemma_blend_between(area as int, wa as int, wb as int, wc as int, va as int, vb as int, vc as int);
        }
        floor_div(s, area) as i32
    } else {
        proof {
            assert(-s == (-wa) * va + (-wb) * vb + (-wc) * vc) by (nonlinear_arith)
                requires
                    s == wa * va + wb * vb + wc * vc,
            ;
            lemma_blend_between(-area, -wa, -wb, -wc, va as int, vb as int, vc as int);
        }
        floor_div(-s, -area) as i32
    }
}

proof fn lemma_isqrt_unique(n: int, r1: int, r2: int)
    requires
        is_isqrt(n, r1),
        is_isqrt(n, r2),
    ensures
        r1 == r2,
{
    if r1 < r2 {
        assert((r1 + 1) * (r1 + 1) <= r2 * r2) by (nonlinear_arith)
            requires
                0 <= r1 < r2,
        ;
    } else if r2 < r1 {
        assert((r2 + 1) * (r2 + 1) <= r1 * r1) by (nonlinear_arith)
            requires
                0 <= r2 < r1,
        ;
    }
}

/// The integer square root, by bisection.
fn isqrt_exec(n: u128) -> (r: u128)
    requires
        n < 0x1_0000_0000_0000_0000,
    ensures
        r == isqrt(n as int),
        is_isqrt(n as int, r as int),
        r < 0x1_0000_0000,
{
    let mut lo: u128 = 0;
    let mut hi: u128 = 0x1_0000_0000;
    while hi - lo > 1
        invariant
            lo < hi <= 0x1_0000_0000,
            lo * lo <= n,
            n < hi * hi,
            n < 0x1_0000_0000_0000_0000,
        decreases hi - lo,
    {
        let mid: u128 = lo + (hi - lo) / 2;
        proof {
            assert(mid * mid <= 0x1_0000_0000 * 0x1_0000_0000) by (nonlinear_arith)
                requires
                    mid <= 0x1_0000_0000,
            ;
        }
        if mid * mid <= n {
            lo = mid;
        } else {
            hi = mid;
        }
    }
    proof {
        assert(hi == lo + 1);
        assert(is_isqrt(n as int, lo as int));
        lemma_isqrt_unique(n as int, lo as int, isqrt(n as int));
    }
    lo
}

fn light_exec(n: &Vec3) -> (r: i32)
    ensures
        r == light(*n),
{
    if n.z <= 0 {
        return 0;
    }
    let (x, y, z) = (n.x as i128, n.y as i128, n.z as i128);
    proof {
        crate::fixed::lemma_product_bound(x as int, x as int);
        crate::fixed::lemma_product_bound(y as int, y as int);
        crate::fixed::lemma_product_bound(z as int, z as int);
        assert(0 <= x * x && 0 <= y * y && 0 <= z * z) by (nonlinear_arith);
    }
    let s: i128 = x * x + y * y + z * z;
    let len: u128 = isqrt_exec(s as u128);
    proof {
        let l = len as int;
        assert(z <= l) by (nonlinear_arith)
            requires
                z * z <= s,
                s < (l + 1) * (l + 1),
                z > 0,
                l >= 0,
        ;
        assert(z * ONE <= l * ONE) by (nonlinear_arith)
            requires
                z <= l,
        ;
        assert(l * ONE == ONE * l) by (nonlinear_arith);
        vstd::arithmetic::div_mod::lemma_div_is_ordered(z * ONE, l * ONE, l);
        vstd::arithmetic::div_mod::lemma_div_multiples_vanish(ONE as int, l);
        vstd::arithmetic::div_mod::lemma_div_pos_is_pos(z * ONE, l);
    }
    let q: i128 = (z * (ONE as i128)) / (len as i128);
    q as i32
}

/// The fragment of a covered pixel, from its weights.
fn make_fragment(
    v1: &Vertex,
    v2: &Vertex,
    v3: &Vertex,
    area: i128,
    wa: i128,
    wb: i128,
    wc: i128,
    x: usize,
    y: usize,
) -> (f: Fragment)
    requires
        area == signed_area(v1.transformed_position, v2.transformed_position, v3.transformed_position),
        (wa as int, wb as int, wc as int) == weights(
            v1.transformed_position,
            v2.transformed_position,
            v3.transformed_position,
            center(x as int),
            center(y as int),
        ),
        inside(area as int, (wa as int, wb as int, wc as int)),
        -WEIGHT_BOUND <= wa <= WEIGHT_BOUND,
        -WEIGHT_BOUND <= wb <= WEIGHT_BOUND,
        -WEIGHT_BOUND <= wc <= WEIGHT_BOUND,
    ensures
        f == fragment_at(*v1, *v2, *v3, x as int, y as int),
{
    proof {
        lemma_weights_sum(
            v1.transformed_position,
            v2.transformed_position,
            v3.transformed_position,
            center(x as int),
            center(y as int),
        );
    }
    let a = v1.transformed_position;
    let b = v2.transformed_position;
    let c = v3.transformed_position;
    let n1 = v1.transformed_normal;
    let n2 = v2.transformed_normal;
    let n3 = v3.transformed_normal;
    let p1 = v1.position;
    let p2 = v2.position;
    let p3 = v3.position;
    let normal = Vec3 {
        x: blend_exec(area, wa, wb, wc, n1.x, n2.x, n3.x),
        y: blend_exec(area, wa, wb, wc, n1.y, n2.y, n3.y),
        z: blend_exec(area, wa, wb, wc, n1.z, n2.z, n3.z),
    };
    let vertex_position = Vec3 {
        x: blend_exec(area, wa, wb, wc, p1.x, p2.x, p3.x),
        y: blend_exec(area, wa, wb, wc, p1.y, p2.y, p3.y),
        z: blend_exec(area, wa, wb, wc, p1.z, p2.z, p3.z),
    };
    Fragment {
        x,
        y,
        depth: blend_exec(area, wa, wb, wc, a.z, b.z, c.z),
        vertex_position,
        normal,
        intensity: light_exec(&normal),
    }
}

fn min3_exec(a: i32, b: i32, c: i32) -> (r: i32)
    ensures
        r == min3(a as int, b as int, c as int),
{
    if a <= b && a <= c {
        a
    } else if b <= c {
        b
    } else {
        c
    }
}

fn max3_exec(a: i32, b: i32, c: i32) -> (r: i32)
    ensures
        r == max3(a as int, b as int, c as int),
{
    if a >= b && a >= c {
        a
    } else if b >= c {
        b
    } else {
        c
    }
}

fn box_lo_exec(lo: i32) -> (r: i128)
    ensures
        r == box_lo(lo as int),
        r >= 0,
{
    let q: i128 = floor_div(lo as i128, ONE as i128);
    if q < 0 {
        0
    } else {
        q
    }
}

fn box_hi_exec(hi: i32, size: usize) -> (r: i128)
    ensures
        r == box_hi(hi as int, size as int),
        r <= 32767,
        r < size,
{
    let q: i128 = floor_div(hi as i128, ONE as i128);
    proof {
        vstd::arithmetic::div_mod::lemma_div_is_ordered(hi as int, i32::MAX as int, ONE as int);
        vstd::arithmetic::div_mod::lemma_fundamental_div_mod_converse(i32::MAX as int, ONE as int, 32767, 65535);
    }
    if q > size as i128 - 1 {
        size as i128 - 1
    } else {
        q
    }
}

/// Scan-converts the triangle `v1, v2, v3` (by their screen-space positions)
/// inside a `width`×`height` buffer. Pixels of the bounding box, clamped to the
/// buffer, are tested row by row from the top and left to right; each covered
/// one yields a fragment with interpolated depth, position, normal and intensity.
pub fn triangle(v1: &Vertex, v2: &Vertex, v3: &Vertex, width: usize, height: usize) -> (r: Vec<Fragment>)
    ensures
        r@ == triangle_fragments(*v1, *v2, *v3, width as int, height as int),
        forall|i: int| 0 <= i < r@.len() ==> #[trigger] r@[i].x < width && r@[i].y < height,
        collinear(v1.transformed_position, v2.transformed_position, v3.transformed_position) ==> r@.len() == 0,
{
    let a = v1.transformed_position;
    let b = v2.transformed_position;
    let c = v3.transformed_position;
    let area: i128 = edge_exec(a.x as i128, a.y as i128, b.x as i128, b.y as i128, c.x as i128, c.y as i128);
    let mut frags: Vec<Fragment> = Vec::new();
    if area == 0 {
        return frags;
    }
    let x0: i128 = box_lo_exec(min3_exec(a.x, b.x, c.x));
    let x1: i128 = box_hi_exec(max3_exec(a.x, b.x, c.x), width);
    let y0: i128 = box_lo_exec(min3_exec(a.y, b.y, c.y));
    let y1: i128 = box_hi_exec(max3_exec(a.y, b.y, c.y), height);
    let nx: i128 = if x1 >= x0 { x1 - x0 + 1 } else { 0 };
    let ny: i128 = if y1 >= y0 { y1 - y0 + 1 } else { 0 };
    assert(nx == span_len(x0 as int, x1 as int));
    assert(ny == span_len(y0 as int, y1 as int));
    let mut j: i128 = 0;
    while j < ny
        invariant
            0 <= j <= ny,
            ny == span_len(y0 as int, y1 as int),
            nx == span_len(x0 as int, x1 as int),
            0 <= x0,
            0 <= y0,
            x1 <= 32767,
            y1 <= 32767,
            x1 < width,
            y1 < height,
            a == v1.transformed_position,
            b == v2.transformed_position,
            c == v3.transformed_position,
            area == signed_area(a, b, c),
            area != 0,
            frags@ == box_fragments(*v1, *v2, *v3, x0 as int, nx as nat, y0 as int, j as nat),
            forall|k: int| 0 <= k < frags@.len() ==> #[trigger] frags@[k].x < width && frags@[k].y < height,
        decreases ny - j,
    {
        let y: i128 = y0 + j;
        proof {
            assert(0 <= y * 65536 <= 32767 * 65536) by (nonlinear_arith)
                requires
                    0 <= y <= 32767,
            ;
        }
        let cy: i128 = y * (ONE as i128) + (ONE as i128) / 2;
        let ghost before = frags@;
        let mut i: i128 = 0;
        while i < nx
            invariant
                0 <= i <= nx,
                0 <= j < ny,
                ny == span_len(y0 as int, y1 as int),
                nx == span_len(x0 as int, x1 as int),
                0 <= x0,
                0 <= y0,
                x1 <= 32767,
                y1 <= 32767,
                x1 < width,
                y1 < height,
                y == y0 + j,
                cy == center(y as int),
                a == v1.transformed_position,
                b == v2.transformed_position,
                c == v3.transformed_position,
                area == signed_area(a, b, c),
                area != 0,
                frags@ == before + row_fragments(*v1, *v2, *v3, y as int, x0 as int, i as nat),
                forall|k: int| 0 <= k < frags@.len() ==> #[trigger] frags@[k].x < width && frags@[k].y < height,
            decreases nx - i,
        {
            let x: i128 = x0 + i;
            proof {
                assert(0 <= x * 65536 <= 32767 * 65536) by (nonlinear_arith)
                    requires
                        0 <= x <= 32767,
                ;
            }
            let cx: i128 = x * (ONE as i128) + (ONE as i128) / 2;
            let wa: i128 = edge_exec(b.x as i128, b.y as i128, c.x as i128, c.y as i128, cx, cy);
            let wb: i128 = edge_exec(c.x as i128, c.y as i128, a.x as i128, a.y as i128, cx, cy);
            let wc: i128 = edge_exec(a.x as i128, a.y as i128, b.x as i128, b.y as i128, cx, cy);
            let ins: bool = if area > 0 {
                wa >= 0 && wb >= 0 && wc >= 0
            } else {
                wa <= 0 && wb <= 0 && wc <= 0
            };
            if ins {
                let f = make_fragment(v1, v2, v3, area, wa, wb, wc, x as usize, y as usize);
                frags.push(f);
            }
            assert(frags@ =~= before + row_fragments(*v1, *v2, *v3, y as int, x0 as int, (i + 1) as nat));
            i = i + 1;
        }
        assert(frags@ =~= box_fragments(*v1, *v2, *v3, x0 as int, nx as nat, y0 as int, (j + 1) as nat));
        j = j + 1;
    }
    frags
}

} // verus!
