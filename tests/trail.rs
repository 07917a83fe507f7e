use software_renderer::color::Color;
use software_renderer::fixed::{Mat4, Vec3, ONE};
use software_renderer::framebuffer::Framebuffer;
use software_renderer::trail::{render_trail, PlanetTrail};
use software_renderer::vertex::Uniforms;

#[test]
fn trail_keeps_the_newest_positions() {
    let mut t = PlanetTrail::new(3);
    for i in 0..5 {
        t.add_position(Vec3::new(i, 0, 0));
    }
    assert_eq!(t.positions.len(), 3);
    assert_eq!(t.positions[0].x, 2);
    assert_eq!(t.positions[2].x, 4);
    assert_eq!(t.max_length, 3);
}

fn identity_uniforms() -> Uniforms {
    Uniforms {
        model_matrix: Mat4::identity(),
        view_matrix: Mat4::identity(),
        projection_matrix: Mat4::identity(),
        viewport_matrix: Mat4::identity(),
        time: 0,
    }
}

#[test]
fn trail_draws_fading_segments() {
    let mut fb = Framebuffer::new(12, 4).unwrap();
    fb.clear();
    let mut t = PlanetTrail::new(10);
    t.add_position(Vec3::new(0, ONE, 0));
    t.add_position(Vec3::new(4 * ONE, ONE, 0));
    t.add_position(Vec3::new(8 * ONE, ONE, 0));
    let start = Color::new(0, 0, 0);
    let end = Color::new(200, 100, 0);
    render_trail(&mut fb, &identity_uniforms(), &t, start, end, 1);
    // first segment at factor 0, second at 1/2; the second overwrites nothing at equal depth
    assert_eq!(fb.get_pixel(1, 1), 0x000000);
    assert_eq!(fb.get_depth(1, 1), 0);
    assert_eq!(fb.get_pixel(6, 1), Color::new(100, 50, 0).to_hex());
    assert_eq!(fb.get_pixel(8, 1), Color::new(100, 50, 0).to_hex());
    assert_eq!(fb.get_pixel(9, 1), 0);
    assert_eq!(fb.get_depth(9, 1), i32::MAX);
}

#[test]
fn short_trail_draws_nothing() {
    let mut fb = Framebuffer::new(4, 4).unwrap();
    fb.clear();
    let mut t = PlanetTrail::new(2);
    t.add_position(Vec3::new(ONE, ONE, 0));
    render_trail(&mut fb, &identity_uniforms(), &t, Color::new(255, 255, 255), Color::new(255, 255, 255), 1);
    for y in 0..4 {
        for x in 0..4 {
            assert_eq!(fb.get_depth(x, y), i32::MAX);
        }
    }
}

#[test]
fn trail_off_screen_draws_nothing() {
    let mut fb = Framebuffer::new(2, 2).unwrap();
    fb.clear();
    let mut t = PlanetTrail::new(4);
    t.add_position(Vec3::new(-3 * ONE, 0, 0));
    t.add_position(Vec3::new(-3 * ONE, ONE, 0));
    let white = Color::new(255, 255, 255);
    render_trail(&mut fb, &identity_uniforms(), &t, white, white, 1);
    for y in 0..2 {
        for x in 0..2 {
            assert_eq!(fb.get_pixel(x, y), 0);
            assert_eq!(fb.get_depth(x, y), i32::MAX);
        }
    }
}

#[test]
fn trail_entering_from_the_left_keeps_its_slope() {
    let mut fb = Framebuffer::new(4, 4).unwrap();
    fb.clear();
    let mut t = PlanetTrail::new(4);
    t.add_position(Vec3::new(-2 * ONE, -2 * ONE, 0));
    t.add_position(Vec3::new(3 * ONE, 3 * ONE, 0));
    let white = Color::new(255, 255, 255);
    render_trail(&mut fb, &identity_uniforms(), &t, white, white, 1);
    for y in 0..4 {
        for x in 0..4 {
            assert_eq!(fb.get_pixel(x, y) == 0xFFFFFF, x == y, "pixel ({}, {})", x, y);
        }
    }
}
