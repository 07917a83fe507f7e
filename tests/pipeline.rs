use software_renderer::color::Color;
use software_renderer::fixed::{Mat4, Vec2, Vec3, ONE};
use software_renderer::framebuffer::{Framebuffer, FramebufferError, FAR_DEPTH};
use software_renderer::pipeline::{assemble_triangles, render};
use software_renderer::triangle::{triangle, Fragment};
use software_renderer::vertex::{create_viewport_matrix, vertex_shader, Uniforms, Vertex};

const WHITE: u32 = 0xFFFFFF;

fn identity_uniforms() -> Uniforms {
    Uniforms {
        model_matrix: Mat4::identity(),
        view_matrix: Mat4::identity(),
        projection_matrix: Mat4::identity(),
        viewport_matrix: Mat4::identity(),
        time: 0,
    }
}

/// A vertex whose screen position is `(x, y)` pixels at depth `z` (fixed point).
fn screen_vertex(x: i32, y: i32, z: i32) -> Vertex {
    let p = Vec3::new(x * ONE, y * ONE, z);
    let n = Vec3::new(0, 0, ONE);
    Vertex::new(p, n, Vec2::new(0, 0))
}

fn cleared(w: usize, h: usize) -> Framebuffer {
    let mut fb = Framebuffer::new(w, h).unwrap();
    fb.set_background_color(0x000000);
    fb.clear();
    fb
}

#[test]
fn zero_size_framebuffer_is_refused() {
    assert_eq!(Framebuffer::new(0, 4).err(), Some(FramebufferError::ZeroSize));
    assert_eq!(Framebuffer::new(4, 0).err(), Some(FramebufferError::ZeroSize));
    assert!(Framebuffer::new(1, 1).is_ok());
}

#[test]
fn clear_resets_color_and_depth() {
    let mut fb = cleared(4, 3);
    fb.set_current_color(0x123456);
    fb.point(1, 2, 5);
    assert_eq!(fb.get_pixel(1, 2), 0x123456);
    fb.set_background_color(0x0000FF);
    fb.clear();
    for y in 0..3 {
        for x in 0..4 {
            assert_eq!(fb.get_pixel(x, y), 0x0000FF);
            assert_eq!(fb.get_depth(x, y), FAR_DEPTH);
        }
    }
}

#[test]
fn later_write_wins_only_when_strictly_nearer() {
    // nearer second write
    let mut fb = cleared(4, 4);
    fb.set_current_color(0xAA0000);
    fb.point(2, 1, 100);
    fb.set_current_color(0x00BB00);
    fb.point(2, 1, 50);
    assert_eq!(fb.get_pixel(2, 1), 0x00BB00);
    assert_eq!(fb.get_depth(2, 1), 50);
    // farther second write
    let mut fb = cleared(4, 4);
    fb.set_current_color(0xAA0000);
    fb.point(2, 1, 100);
    fb.set_current_color(0x00BB00);
    fb.point(2, 1, 150);
    assert_eq!(fb.get_pixel(2, 1), 0xAA0000);
    assert_eq!(fb.get_depth(2, 1), 100);
    // equal depth changes nothing
    let mut fb = cleared(4, 4);
    fb.set_current_color(0xAA0000);
    fb.point(2, 1, 100);
    fb.set_current_color(0x00BB00);
    fb.point(2, 1, 100);
    assert_eq!(fb.get_pixel(2, 1), 0xAA0000);
}

#[test]
fn point_outside_is_ignored() {
    let mut fb = cleared(3, 3);
    fb.point(3, 0, 0);
    fb.point(0, 3, 0);
    fb.point(usize::MAX, usize::MAX, 0);
    for y in 0..3 {
        for x in 0..3 {
            assert_eq!(fb.get_pixel(x, y), 0);
        }
    }
}

#[test]
fn horizontal_line_colors_eleven_pixels() {
    let mut fb = cleared(16, 4);
    fb.set_current_color(WHITE);
    fb.draw_line(0, 0, 10, 0, 0, 1);
    let mut count = 0;
    for y in 0..4 {
        for x in 0..16 {
            let lit = fb.get_pixel(x, y) == WHITE;
            assert_eq!(lit, y == 0 && x <= 10, "pixel ({}, {})", x, y);
            if lit {
                count += 1;
            }
        }
    }
    assert_eq!(count, 11);
}

#[test]
fn diagonal_and_thick_lines() {
    let mut fb = cleared(8, 8);
    fb.set_current_color(WHITE);
    fb.draw_line(5, 5, 1, 1, 0, 1);
    for i in 1..=5 {
        assert_eq!(fb.get_pixel(i, i), WHITE);
    }
    assert_eq!(fb.get_pixel(0, 0), 0);
    assert_eq!(fb.get_pixel(2, 1), 0);

    let mut fb = cleared(8, 8);
    fb.set_current_color(WHITE);
    fb.draw_line(0, 0, 3, 0, 0, 2);
    for x in 0..8 {
        for y in 0..8 {
            assert_eq!(fb.get_pixel(x, y) == WHITE, x <= 4 && y <= 1, "pixel ({}, {})", x, y);
        }
    }
}

#[test]
fn line_with_off_screen_ends_skips_outside_pixels() {
    let mut fb = cleared(4, 4);
    fb.set_current_color(WHITE);
    fb.draw_line(-3, 1, 6, 1, 0, 1);
    fb.draw_line(-5, -5, -1, -9, 0, 3);
    for y in 0..4 {
        for x in 0..4 {
            assert_eq!(fb.get_pixel(x, y) == WHITE, y == 1, "pixel ({}, {})", x, y);
        }
    }
}

#[test]
fn shallow_line_rounds_to_nearest_row() {
    let mut fb = cleared(8, 4);
    fb.set_current_color(WHITE);
    fb.draw_line(0, 0, 4, 2, 0, 1);
    // steps: (0,0) (1,1) (2,1) (3,2) (4,2), halves rounded away from the start
    let lit: Vec<(usize, usize)> = vec![(0, 0), (1, 1), (2, 1), (3, 2), (4, 2)];
    for y in 0..4 {
        for x in 0..8 {
            assert_eq!(fb.get_pixel(x, y) == WHITE, lit.contains(&(x, y)), "pixel ({}, {})", x, y);
        }
    }
}

#[test]
fn screen_space_triangle_with_white_shader() {
    let (w, h) = (8usize, 8usize);
    let mut fb = cleared(w, h);
    let verts = vec![screen_vertex(0, 0, 0), screen_vertex(w as i32, 0, 0), screen_vertex(0, h as i32, 0)];
    render(&mut fb, &identity_uniforms(), &verts, |_f: Fragment| Color::new(255, 255, 255));
    for y in 0..h {
        for x in 0..w {
            // pixel centers on the hypotenuse count as inside
            let inside = x + y + 1 <= 8;
            let expected = if inside { WHITE } else { 0x000000 };
            assert_eq!(fb.get_pixel(x, y), expected, "pixel ({}, {})", x, y);
        }
    }
    // the current color register is untouched by rendering
    fb.point(7, 7, 0);
    assert_eq!(fb.get_pixel(7, 7), WHITE);
}

fn draw_two(first_near: bool) -> Framebuffer {
    let mut fb = cleared(10, 10);
    let near = ONE / 10;
    let far = ONE * 9 / 10;
    let near_tri = vec![screen_vertex(0, 0, near), screen_vertex(10, 0, near), screen_vertex(0, 10, near)];
    let far_tri = vec![screen_vertex(10, 10, far), screen_vertex(0, 10, far), screen_vertex(10, 0, far)];
    let u = identity_uniforms();
    let red = |_f: Fragment| Color::new(255, 0, 0);
    let blue = |_f: Fragment| Color::new(0, 0, 255);
    if first_near {
        render(&mut fb, &u, &near_tri, red);
        render(&mut fb, &u, &far_tri, blue);
    } else {
        render(&mut fb, &u, &far_tri, blue);
        render(&mut fb, &u, &near_tri, red);
    }
    fb
}

#[test]
fn nearer_triangle_wins_in_either_order() {
    let a = draw_two(true);
    let b = draw_two(false);
    let mut overlapped = 0;
    for y in 0..10 {
        for x in 0..10 {
            // the two triangles share the anti-diagonal x + y + 1 == 10
            if x + y + 1 == 10 {
                assert_eq!(a.get_pixel(x, y), 0xFF0000);
                assert_eq!(b.get_pixel(x, y), 0xFF0000);
                overlapped += 1;
            } else if x + y + 1 < 10 {
                assert_eq!(a.get_pixel(x, y), 0xFF0000);
            } else {
                assert_eq!(a.get_pixel(x, y), 0x0000FF);
            }
            assert_eq!(a.get_pixel(x, y), b.get_pixel(x, y));
        }
    }
    assert_eq!(overlapped, 10);
}

#[test]
fn degenerate_triangles_emit_nothing() {
    let a = screen_vertex(1, 1, 0);
    let b = screen_vertex(3, 3, 0);
    let c = screen_vertex(5, 5, 0);
    assert!(triangle(&a, &b, &c, 8, 8).is_empty());
    assert!(triangle(&a, &a, &c, 8, 8).is_empty());
    assert!(triangle(&a, &a, &a, 8, 8).is_empty());
}

#[test]
fn triangle_partly_off_screen_stays_in_bounds() {
    let a = screen_vertex(-20, -5, 0);
    let b = screen_vertex(30, 2, 0);
    let c = screen_vertex(3, 40, 0);
    let frags = triangle(&a, &b, &c, 6, 5);
    assert!(!frags.is_empty());
    for f in &frags {
        assert!(f.x < 6 && f.y < 5);
    }
    // a triangle entirely off screen yields nothing
    let d = screen_vertex(-10, -10, 0);
    let e = screen_vertex(-2, -10, 0);
    let g = screen_vertex(-10, -2, 0);
    assert!(triangle(&d, &e, &g, 6, 5).is_empty());
}

#[test]
fn fragments_interpolate_depth_and_attributes() {
    // right triangle with depths 0, ONE, 0 at (0,0), (4,0), (0,4)
    let a = screen_vertex(0, 0, 0);
    let mut b = screen_vertex(4, 0, ONE);
    b.transformed_normal = Vec3::new(0, 0, -ONE);
    b.position = Vec3::new(4 * ONE, 0, ONE);
    let c = screen_vertex(0, 4, 0);
    let frags = triangle(&a, &b, &c, 4, 4);
    // row-major order: first fragment is pixel (0,0)
    assert_eq!((frags[0].x, frags[0].y), (0, 0));
    // center (0.5, 0.5): weight of b is 0.5/4 = 1/8
    assert_eq!(frags[0].depth, ONE / 8);
    assert_eq!(frags[0].normal.z, ONE - 2 * (ONE / 8));
    // the normal still points at the viewer: full intensity
    assert_eq!(frags[0].intensity, ONE);
    assert_eq!(frags[0].vertex_position.x, ONE / 2);
    // pixel (2, 1): center (2.5, 1.5), weight of b = 2.5/4
    let f = frags.iter().find(|f| f.x == 2 && f.y == 1).unwrap();
    assert_eq!(f.depth, ONE * 5 / 8);
    // intensity clamps at zero for a normal facing away
    assert_eq!(f.intensity, 0);
    for w in frags.windows(2) {
        assert!((w[0].y, w[0].x) < (w[1].y, w[1].x));
    }
}

#[test]
fn intensity_is_cosine_to_view_axis() {
    let tilt = Vec3::new(39321, 0, 52428);
    let mut a = screen_vertex(0, 0, 0);
    let mut b = screen_vertex(4, 0, 0);
    let mut c = screen_vertex(0, 4, 0);
    a.transformed_normal = tilt;
    b.transformed_normal = tilt;
    c.transformed_normal = tilt;
    let frags = triangle(&a, &b, &c, 4, 4);
    // |tilt| rounds down to 65535, so the cosine 0.8 comes out as 52428
    assert!(frags.iter().all(|f| f.intensity == 52428));
    assert!(frags.iter().all(|f| f.normal == tilt));
}

#[test]
fn assembly_drops_trailing_vertices() {
    let v: Vec<Vertex> = (0..8).map(|i| screen_vertex(i, 0, 0)).collect();
    let tris = assemble_triangles(&v);
    assert_eq!(tris.len(), 2);
    assert_eq!(tris[1].0, v[3]);
    assert_eq!(tris[1].2, v[5]);
    assert!(assemble_triangles(&v[..2].to_vec()).is_empty());
}

#[test]
fn look_at_center_projects_to_viewport_center() {
    let mut u = identity_uniforms();
    u.viewport_matrix = create_viewport_matrix(800, 600);
    // a perspective-shaped projection: x and y scaled, w taken from -z
    let mut p = [0i32; 16];
    p[0] = ONE * 2;
    p[5] = ONE * 2;
    p[10] = -ONE;
    p[11] = -ONE / 5;
    p[14] = -ONE;
    u.projection_matrix = Mat4 { m: p };
    // the camera looks down -z; its center is on that axis
    let v = Vertex::new(Vec3::new(0, 0, -10 * ONE), Vec3::new(0, 0, ONE), Vec2::new(0, 0));
    let s = vertex_shader(&v, &u).transformed_position;
    assert_eq!(s.x, 400 * ONE);
    assert_eq!(s.y, 300 * ONE);
    // a point off the axis does not
    let off = Vertex::new(Vec3::new(ONE, 0, -10 * ONE), Vec3::new(0, 0, ONE), Vec2::new(0, 0));
    assert_ne!(vertex_shader(&off, &u).transformed_position.x, 400 * ONE);
}

#[test]
fn viewport_matrix_entries() {
    let m = create_viewport_matrix(800, 600);
    assert_eq!(m.m[0], 400 * ONE);
    assert_eq!(m.m[3], 400 * ONE);
    assert_eq!(m.m[5], -300 * ONE);
    assert_eq!(m.m[7], 300 * ONE);
    assert_eq!(m.m[10], ONE);
    assert_eq!(m.m[15], ONE);
}

#[test]
fn vertex_shader_projects_and_transforms_normal() {
    let mut u = identity_uniforms();
    // model: uniform scale by 2 and a translation of (1, 0, 0)
    let mut m = [0i32; 16];
    m[0] = 2 * ONE;
    m[5] = 2 * ONE;
    m[10] = 2 * ONE;
    m[3] = ONE;
    m[15] = ONE;
    u.model_matrix = Mat4 { m };
    let v = Vertex::new(Vec3::new(ONE, ONE, 0), Vec3::new(0, 0, ONE), Vec2::new(0, 0));
    let r = vertex_shader(&v, &u);
    assert_eq!(r.transformed_position, Vec3::new(3 * ONE, 2 * ONE, 0));
    // inverse transpose of 2I is I/2
    assert_eq!(r.transformed_normal, Vec3::new(0, 0, ONE / 2));
    assert_eq!(r.position, v.position);
    // a singular model block falls back to the identity for normals
    let mut z = [0i32; 16];
    z[15] = ONE;
    u.model_matrix = Mat4 { m: z };
    let r = vertex_shader(&v, &u);
    assert_eq!(r.transformed_normal, Vec3::new(0, 0, ONE));
    assert_eq!(r.transformed_position, Vec3::new(0, 0, 0));
}

#[test]
fn perspective_divide_by_w() {
    let mut u = identity_uniforms();
    let mut p = [0i32; 16];
    p[0] = ONE;
    p[5] = ONE;
    p[10] = ONE;
    p[15] = 2 * ONE;
    u.projection_matrix = Mat4 { m: p };
    let v = Vertex::new(Vec3::new(4 * ONE, -2 * ONE, ONE), Vec3::new(0, 0, ONE), Vec2::new(0, 0));
    let r = vertex_shader(&v, &u);
    assert_eq!(r.transformed_position, Vec3::new(2 * ONE, -ONE, ONE / 2));
}
