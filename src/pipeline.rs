//! One draw call: transform, assemble, rasterize, shade and write.

use vstd::prelude::*;
use crate::color::{pack, Color};
use crate::framebuffer::{lemma_put_keeps_nearest, FrameView, Framebuffer};
use crate::triangle::{
    covers, fragment_at, lemma_triangle_complete, lemma_triangle_one_per_pixel, triangle, triangle_fragments, Fragment,
};
use crate::vertex::{shade_vertex, vertex_shader, Uniforms, Vertex};

verus! {

/// Every vertex after the transform stage.
pub open spec fn shade_vertices(u: Uniforms, vs: Seq<Vertex>) -> Seq<Vertex> {
    Seq::new(vs.len(), |i: int| shade_vertex(u, vs[i]))
}

/// Consecutive vertices taken three by three; a trailing one or two are dropped.
pub open spec fn assembled(vs: Seq<Vertex>) -> Seq<(Vertex, Vertex, Vertex)> {
    Seq::new(vs.len() / 3, |i: int| (vs[3 * i], vs[3 * i + 1], vs[3 * i + 2]))
}

/// The fragments of the first `k` triangles, in order.
pub open spec fn mesh_fragments(tris: Seq<(Vertex, Vertex, Vertex)>, width: int, height: int, k: nat) -> Seq<
    Fragment,
>
    decreases k,
{
    if k == 0 {
        Seq::empty()
    } else {
        let t = tris[k - 1];
        mesh_fragments(tris, width, height, (k - 1) as nat) + triangle_fragments(t.0, t.1, t.2, width, height)
    }
}

/// All fragments that a draw call of `vs` produces in a `width`×`height` buffer.
pub open spec fn draw_fragments(u: Uniforms, vs: Seq<Vertex>, width: int, height: int) -> Seq<Fragment> {
    let tris = assembled(shade_vertices(u, vs));
    mesh_fragments(tris, width, height, tris.len())
}

/// The buffer after the depth-tested writes of the first `k` fragments, each in its color.
pub open spec fn paint(v: FrameView, frags: Seq<Fragment>, colors: Seq<Color>, k: nat) -> FrameView
    decreases k,
{
    if k == 0 {
        v
    } else {
        let f = frags[k - 1];
        let c = colors[k - 1];
        paint(v, frags, colors, (k - 1) as nat).put(f.x as int, f.y as int, pack(c.r, c.g, c.b) as u32, f.depth)
    }
}

/// `colors` holds, for each fragment, a color that `shader` may return for it.
pub open spec fn shaded_by<F: Fn(Fragment) -> Color>(shader: F, frags: Seq<Fragment>, colors: Seq<Color>) -> bool {
    &&& colors.len() == frags.len()
    &&& forall|i: int| 0 <= i < frags.len() ==> shader.ensures((frags[i],), #[trigger] colors[i])
}

/// Runs the transform stage on every vertex.
pub fn transform_vertices(uniforms: &Uniforms, vertex_array: &Vec<Vertex>) -> (r: Vec<Vertex>)
    ensures
        r@ == shade_vertices(*uniforms, vertex_array@),
{
    let mut r: Vec<Vertex> = Vec::with_capacity(vertex_array.len());
    let mut i: usize = 0;
    while i < vertex_array.len()
        invariant
            i <= vertex_array@.len(),
            r@.len() == i,
            forall|k: int| 0 <= k < i ==> r@[k] == shade_vertex(*uniforms, vertex_array@[k]),
        decreases vertex_array@.len() - i,
    {
        r.push(vertex_shader(&vertex_array[i], uniforms));
        i = i + 1;
    }
    assert(r@ =~= shade_vertices(*uniforms, vertex_array@));
    r
}

/// Groups every three consecutive vertices into a triangle.
pub fn assemble_triangles(vertices: &Vec<Vertex>) -> (r: Vec<(Vertex, Vertex, Vertex)>)
    ensures
        r@ == assembled(vertices@),
{
    let len: usize = vertices.len();
    let n: usize = len / 3;
    proof {
        vstd::arithmetic::div_mod::lemma_fundamental_div_mod(vertices@.len() as int, 3);
    }
    let mut r: Vec<(Vertex, Vertex, Vertex)> = Vec::with_capacity(n);
    let mut i: usize = 0;
    while i < n
        invariant
            n == vertices@.len() / 3,
            3 * n <= len,
            len == vertices@.len(),
            i <= n,
            r@.len() == i,
            forall|k: int| 0 <= k < i ==> r@[k] == assembled(vertices@)[k],
        decreases n - i,
    {
        r.push((vertices[3 * i], vertices[3 * i + 1], vertices[3 * i + 2]));
        i = i + 1;
    }
    assert(r@ =~= assembled(vertices@));
    r
}

/// Rasterizes every triangle in turn and collects the fragments.
pub fn rasterize(triangles: &Vec<(Vertex, Vertex, Vertex)>, width: usize, height: usize) -> (r: Vec<Fragment>)
    ensures
        r@ == mesh_fragments(triangles@, width as int, height as int, triangles@.len()),
{
    let mut r: Vec<Fragment> = Vec::new();
    let mut i: usize = 0;
    while i < triangles.len()
        invariant
            i <= triangles@.len(),
            r@ == mesh_fragments(triangles@, width as int, height as int, i as nat),
        decreases triangles@.len() - i,
    {
        let t = &triangles[i];
        let mut f = triangle(&t.0, &t.1, &t.2, width, height);
        r.append(&mut f);
        i = i + 1;
    }
    r
}

/// Draws one mesh: every vertex through the transform stage, every three into
/// a triangle, every triangle into fragments, and every fragment, in order,
/// shaded by `shader` and written through the depth test. The current color
/// is left as it is.
pub fn render<F: Fn(Fragment) -> Color>(
    framebuffer: &mut Framebuffer,
    uniforms: &Uniforms,
    vertex_array: &Vec<Vertex>,
    shader: F,
)
    requires
        old(framebuffer).wf(),
        forall|f: Fragment| shader.requires((f,)),
    ensures
        final(framebuffer).wf(),
        ({
            let frags = draw_fragments(*uniforms, vertex_array@, old(framebuffer)@.width as int, old(framebuffer)@.height as int);
            exists|colors: Seq<Color>|
                shaded_by(shader, frags, colors) && final(framebuffer)@ == paint(
                    old(framebuffer)@,
                    frags,
                    colors,
                    frags.len(),
                )
        }),
{
    let transformed = transform_vertices(uniforms, vertex_array);
    let triangles = assemble_triangles(&transformed);
    let frags = rasterize(&triangles, framebuffer.width(), framebuffer.height());
    let ghost start = framebuffer@;
    let ghost colors: Seq<Color> = Seq::empty();
    let mut i: usize = 0;
    while i < frags.len()
        invariant
            framebuffer.wf(),
            i <= frags@.len(),
            colors.len() == i,
            forall|k: int| 0 <= k < i ==> shader.ensures((frags@[k],), #[trigger] colors[k]),
            forall|f: Fragment| shader.requires((f,)),
            framebuffer@ == paint(start, frags@, colors, i as nat),
        decreases frags@.len() - i,
    {
        let f = frags[i];
        let c = shader(f);
        let hex = c.to_hex();
        framebuffer.put_pixel(f.x, f.y, hex, f.depth);
        proof {
            let prev = colors;
            colors = colors.push(c);
            lemma_paint_prefix(start, frags@, colors, prev, i as nat);
        }
        i = i + 1;
    }
    assert(start == old(framebuffer)@);
    assert(frags@ == draw_fragments(*uniforms, vertex_array@, start.width as int, start.height as int));
    assert(shaded_by(shader, frags@, colors) && framebuffer@ == paint(start, frags@, colors, frags@.len()));
}

/// Whether fragment `f` lands on pixel `(x, y)`.
pub open spec fn at_pixel(f: Fragment, x: int, y: int) -> bool {
    f.x as int == x && f.y as int == y
}

/// Painting keeps the buffer's shape and registers.
pub proof fn lemma_paint_shape(v: FrameView, frags: Seq<Fragment>, colors: Seq<Color>, k: nat)
    requires
        v.wf(),
        k <= frags.len(),
        k <= colors.len(),
    ensures
        paint(v, frags, colors, k).wf(),
        paint(v, frags, colors, k).width == v.width,
        paint(v, frags, colors, k).height == v.height,
        paint(v, frags, colors, k).current == v.current,
        paint(v, frags, colors, k).background == v.background,
    decreases k,
{
    if k > 0 {
        lemma_paint_shape(v, frags, colors, (k - 1) as nat);
        let p = paint(v, frags, colors, (k - 1) as nat);
        let f = frags[k - 1];
        let c = colors[k - 1];
        if p.in_bounds(f.x as int, f.y as int) {
            lemma_put_keeps_nearest(p, f.x as int, f.y as int, pack(c.r, c.g, c.b) as u32, f.depth, f.x as int, f.y as int);
        }
    }
}

/// A pixel that none of the painted fragments lands on keeps its color and depth.
pub proof fn lemma_paint_untouched(v: FrameView, frags: Seq<Fragment>, colors: Seq<Color>, k: nat, x: int, y: int)
    requires
        v.wf(),
        v.in_bounds(x, y),
        k <= frags.len(),
        k <= colors.len(),
        forall|i: int| 0 <= i < k ==> !at_pixel(#[trigger] frags[i], x, y),
    ensures
        paint(v, frags, colors, k).color_at(x, y) == v.color_at(x, y),
        paint(v, frags, colors, k).depth_at(x, y) == v.depth_at(x, y),
    decreases k,
{
    if k > 0 {
        let i = k - 1;
        lemma_paint_untouched(v, frags, colors, (k - 1) as nat, x, y);
        lemma_paint_shape(v, frags, colors, (k - 1) as nat);
        let p = paint(v, frags, colors, (k - 1) as nat);
        let f = frags[i];
        assert(!at_pixel(frags[i], x, y));
        if p.in_bounds(f.x as int, f.y as int) {
            let c = colors[i];
            lemma_put_keeps_nearest(p, f.x as int, f.y as int, pack(c.r, c.g, c.b) as u32, f.depth, x, y);
        }
    }
}

/// Nearest wins in a draw call: when exactly one of the painted fragments lands
/// on pixel `(x, y)`, the pixel takes that fragment's color and depth if it is
/// strictly nearer than what was stored, and keeps both otherwise.
pub proof fn lemma_paint_single(
    v: FrameView,
    frags: Seq<Fragment>,
    colors: Seq<Color>,
    k: nat,
    m: int,
    x: int,
    y: int,
)
    requires
        v.wf(),
        v.in_bounds(x, y),
        k <= frags.len(),
        k <= colors.len(),
        0 <= m < k,
        at_pixel(frags[m], x, y),
        forall|i: int| 0 <= i < k && i != m ==> !at_pixel(#[trigger] frags[i], x, y),
    ensures
        paint(v, frags, colors, k).depth_at(x, y) == (if frags[m].depth < v.depth_at(x, y) {
            frags[m].depth
        } else {
            v.depth_at(x, y)
        }),
        paint(v, frags, colors, k).color_at(x, y) == (if frags[m].depth < v.depth_at(x, y) {
            pack(colors[m].r, colors[m].g, colors[m].b) as u32
        } else {
            v.color_at(x, y)
        }),
    decreases k,
{
    let i = k - 1;
    lemma_paint_shape(v, frags, colors, (k - 1) as nat);
    let p = paint(v, frags, colors, (k - 1) as nat);
    let f = frags[i];
    let c = colors[i];
    if i == m {
        lemma_paint_untouched(v, frags, colors, (k - 1) as nat, x, y);
        lemma_put_keeps_nearest(p, x, y, pack(c.r, c.g, c.b) as u32, f.depth, x, y);
    } else {
        lemma_paint_single(v, frags, colors, (k - 1) as nat, m, x, y);
        assert(!at_pixel(frags[i], x, y));
        if p.in_bounds(f.x as int, f.y as int) {
            lemma_put_keeps_nearest(p, f.x as int, f.y as int, pack(c.r, c.g, c.b) as u32, f.depth, x, y);
        }
    }
}

/// One triangle drawn: a pixel it does not cover keeps its color and depth; a
/// covered pixel takes the color shaded for its fragment, with that
/// fragment's depth, when the fragment is strictly nearer than what was
/// stored, and keeps both otherwise.
pub proof fn lemma_draw_triangle_pixel(u: Uniforms, vs: Seq<Vertex>, v: FrameView, colors: Seq<Color>, x: int, y: int)
    requires
        vs.len() == 3,
        v.wf(),
        v.width <= usize::MAX,
        v.height <= usize::MAX,
        v.in_bounds(x, y),
        colors.len() == draw_fragments(u, vs, v.width as int, v.height as int).len(),
    ensures
        ({
            let frags = draw_fragments(u, vs, v.width as int, v.height as int);
            let t = shade_vertices(u, vs);
            let after = paint(v, frags, colors, frags.len());
            let f = fragment_at(t[0], t[1], t[2], x, y);
            if covers(t[0].transformed_position, t[1].transformed_position, t[2].transformed_position, x, y) {
                exists|m: int|
                    0 <= m < frags.len() && #[trigger] frags[m] == f && after.depth_at(x, y) == (if f.depth
                        < v.depth_at(x, y) {
                        f.depth
                    } else {
                        v.depth_at(x, y)
                    }) && after.color_at(x, y) == (if f.depth < v.depth_at(x, y) {
                        pack(colors[m].r, colors[m].g, colors[m].b) as u32
                    } else {
                        v.color_at(x, y)
                    })
            } else {
                after.color_at(x, y) == v.color_at(x, y) && after.depth_at(x, y) == v.depth_at(x, y)
            }
        }),
{
    let (w, h) = (v.width as int, v.height as int);
    let t = shade_vertices(u, vs);
    let tris = assembled(t);
    assert(tris.len() == 1);
    assert(tris[0] == (t[0], t[1], t[2]));
    let tf = triangle_fragments(t[0], t[1], t[2], w, h);
    let frags = draw_fragments(u, vs, w, h);
    assert(mesh_fragments(tris, w, h, 0) == Seq::<Fragment>::empty());
    assert(frags =~= tf);
    lemma_triangle_one_per_pixel(t[0], t[1], t[2], w, h);
    let f = fragment_at(t[0], t[1], t[2], x, y);
    if covers(t[0].transformed_position, t[1].transformed_position, t[2].transformed_position, x, y) {
        lemma_triangle_complete(t[0], t[1], t[2], w, h, x, y);
        let m = choose|m: int| 0 <= m < tf.len() && tf[m] == f;
        assert(at_pixel(frags[m], x, y));
        assert forall|i: int| 0 <= i < frags.len() && i != m implies !at_pixel(#[trigger] frags[i], x, y) by {
            if at_pixel(frags[i], x, y) {
                if i < m {
                    assert(!(tf[i].x == tf[m].x && tf[i].y == tf[m].y));
                } else {
                    assert(!(tf[m].x == tf[i].x && tf[m].y == tf[i].y));
                }
            }
        }
        lemma_paint_single(v, frags, colors, frags.len(), m, x, y);
        assert(frags[m] == f);
    } else {
        assert forall|i: int| 0 <= i < frags.len() implies !at_pixel(#[trigger] frags[i], x, y) by {
            assert(tf[i] == frags[i]);
        }
        lemma_paint_untouched(v, frags, colors, frags.len(), x, y);
    }
}

/// Painting `k` fragments reads only the first `k` colors.
proof fn lemma_paint_prefix(v: FrameView, frags: Seq<Fragment>, c1: Seq<Color>, c2: Seq<Color>, k: nat)
    requires
        k <= c1.len(),
        k <= c2.len(),
        forall|i: int| 0 <= i < k ==> c1[i] == c2[i],
    ensures
        paint(v, frags, c1, k) == paint(v, frags, c2, k),
    decreases k,
{
    if k > 0 {
        lemma_paint_prefix(v, frags, c1, c2, (k - 1) as nat);
    }
}

} // verus!
