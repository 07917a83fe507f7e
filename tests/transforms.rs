use software_renderer::color::Color;
use software_renderer::fixed::{Mat4, Vec3, Vec4, ONE};
use software_renderer::shaders::{black_and_white, black_or_white_color, random_color_shader};
use software_renderer::triangle::Fragment;
use software_renderer::vertex::{create_model_matrix, Rotation, Uniforms};

fn no_rotation() -> Rotation {
    Rotation { sin: Vec3::zeros(), cos: Vec3::new(ONE, ONE, ONE) }
}

#[test]
fn model_matrix_scales_then_translates() {
    let m = create_model_matrix(Vec3::new(ONE, 2 * ONE, 3 * ONE), 2 * ONE, no_rotation());
    let expected = [
        2 * ONE, 0, 0, ONE, 0, 2 * ONE, 0, 2 * ONE, 0, 0, 2 * ONE, 3 * ONE, 0, 0, 0, ONE,
    ];
    assert_eq!(m.m, expected);
    let p = m.mul_vec(&Vec4 { x: ONE, y: ONE, z: ONE, w: ONE });
    assert_eq!(p, Vec4 { x: 3 * ONE, y: 4 * ONE, z: 5 * ONE, w: ONE });
}

#[test]
fn model_matrix_quarter_turns() {
    // a quarter turn about z takes x to y
    let r = Rotation { sin: Vec3::new(0, 0, ONE), cos: Vec3::new(ONE, ONE, 0) };
    let m = create_model_matrix(Vec3::zeros(), ONE, r);
    let p = m.mul_vec(&Vec4 { x: ONE, y: 0, z: 0, w: ONE });
    assert_eq!(p, Vec4 { x: 0, y: ONE, z: 0, w: ONE });
    // a quarter turn about x takes y to z, then one about z leaves z alone
    let r = Rotation { sin: Vec3::new(ONE, 0, ONE), cos: Vec3::new(0, ONE, 0) };
    let m = create_model_matrix(Vec3::zeros(), ONE, r);
    let p = m.mul_vec(&Vec4 { x: 0, y: ONE, z: 0, w: ONE });
    assert_eq!(p, Vec4 { x: 0, y: 0, z: ONE, w: ONE });
    // about y: z goes to x
    let r = Rotation { sin: Vec3::new(0, ONE, 0), cos: Vec3::new(ONE, 0, ONE) };
    let m = create_model_matrix(Vec3::zeros(), ONE, r);
    let p = m.mul_vec(&Vec4 { x: 0, y: 0, z: ONE, w: ONE });
    assert_eq!(p, Vec4 { x: ONE, y: 0, z: 0, w: ONE });
}

#[test]
fn matrix_product_in_fixed_point() {
    let mut a = [0i32; 16];
    a[0] = ONE / 2;
    a[5] = 3 * ONE;
    a[10] = ONE;
    a[15] = ONE;
    a[3] = 7;
    let a = Mat4 { m: a };
    let i = Mat4::identity();
    assert_eq!(a.mul(&i).m, a.m);
    assert_eq!(i.mul(&a).m, a.m);
    let sq = a.mul(&a);
    assert_eq!(sq.m[0], ONE / 4);
    assert_eq!(sq.m[5], 9 * ONE);
    assert_eq!(sq.m[3], 3 + 7);
}

fn fragment(intensity: i32, x: i32, y: i32) -> Fragment {
    Fragment {
        x: 0,
        y: 0,
        depth: 0,
        vertex_position: Vec3::new(x, y, 0),
        normal: Vec3::new(0, 0, ONE),
        intensity,
    }
}

fn uniforms(time: i64) -> Uniforms {
    Uniforms {
        model_matrix: Mat4::identity(),
        view_matrix: Mat4::identity(),
        projection_matrix: Mat4::identity(),
        viewport_matrix: Mat4::identity(),
        time,
    }
}

#[test]
fn random_color_depends_on_time_only() {
    let a = random_color_shader(&fragment(ONE, 1, 2), &uniforms(42));
    let b = random_color_shader(&fragment(ONE, 900, -3), &uniforms(42));
    assert_eq!(a, b);
    // intensity scales the drawn color
    let half = random_color_shader(&fragment(ONE / 2, 1, 2), &uniforms(42));
    assert_eq!(half, a.scale(ONE / 2));
    let dark = random_color_shader(&fragment(0, 1, 2), &uniforms(42));
    assert_eq!(dark, Color::new(0, 0, 0));
    // different times give different draws somewhere among a few seeds
    let distinct = (0..8).map(|t| random_color_shader(&fragment(ONE, 0, 0), &uniforms(t)).to_hex());
    let mut seen: Vec<u32> = distinct.collect();
    seen.sort();
    seen.dedup();
    assert!(seen.len() > 1);
}

#[test]
fn black_and_white_picks_one_of_two() {
    let mut blacks = 0;
    let mut whites = 0;
    for i in 0..64 {
        let c = black_and_white(&fragment(ONE, i * ONE, (i + 1) * ONE), &uniforms(7));
        if c == Color::new(0, 0, 0) {
            blacks += 1;
        } else {
            assert_eq!(c, Color::new(255, 255, 255));
            whites += 1;
        }
    }
    assert!(blacks > 0 && whites > 0);
    assert_eq!(black_or_white_color(49, ONE), Color::new(0, 0, 0));
    assert_eq!(black_or_white_color(50, ONE), Color::new(255, 255, 255));
    assert_eq!(black_or_white_color(100, ONE / 2), Color::new(127, 127, 127));
}

#[test]
fn noise_samples_repeat_for_same_coordinates() {
    let mut n = fastnoise_lite::FastNoiseLite::with_seed(1337);
    n.set_noise_type(Some(fastnoise_lite::NoiseType::Perlin));
    n.set_frequency(Some(0.5));
    for &(x, y, z) in &[(0.0f32, 0.0f32, 0.0f32), (1.25, -3.5, 7.0), (100.0, 0.1, -42.0)] {
        let a = n.get_noise_3d(x, y, z);
        let b = n.get_noise_3d(x, y, z);
        assert_eq!(a.to_bits(), b.to_bits());
        assert!((-1.0..=1.0).contains(&a));
        let c = n.get_noise_2d(x, y);
        assert_eq!(c.to_bits(), n.get_noise_2d(x, y).to_bits());
    }
}

#[test]
fn rotation_validity() {
    assert!(no_rotation().is_valid());
    assert!(Rotation { sin: Vec3::new(ONE, 46341, 0), cos: Vec3::new(0, 46341, ONE) }.is_valid());
    assert!(!Rotation { sin: Vec3::zeros(), cos: Vec3::zeros() }.is_valid());
    assert!(!Rotation { sin: Vec3::new(ONE, 0, 0), cos: Vec3::new(ONE, ONE, ONE) }.is_valid());
}
