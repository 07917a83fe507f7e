use software_renderer::color::Color;
use software_renderer::fixed::ONE;

#[test]
fn packing_round_trip() {
    let c = Color::new(0x12, 0x34, 0x56);
    assert_eq!(c.to_hex(), 0x123456);
    assert_eq!(Color::from_hex(0x123456), c);
    assert_eq!(Color::from_hex(0xFF_ABCDEF), Color::new(0xAB, 0xCD, 0xEF));
    assert_eq!(Color::black().to_hex(), 0);
}

#[test]
fn lerp_blends_and_clamps_factor() {
    let a = Color::new(0, 100, 255);
    let b = Color::new(200, 0, 55);
    assert_eq!(a.lerp(&b, 0), a);
    assert_eq!(a.lerp(&b, ONE), b);
    assert_eq!(a.lerp(&b, ONE / 2), Color::new(100, 50, 155));
    assert_eq!(a.lerp(&b, ONE / 4), Color::new(50, 75, 205));
    assert_eq!(a.lerp(&b, -ONE), a);
    assert_eq!(a.lerp(&b, 3 * ONE), b);
}

#[test]
fn scale_multiplies_and_clamps() {
    let c = Color::new(100, 200, 30);
    assert_eq!(c.scale(ONE), c);
    assert_eq!(c.scale(ONE / 2), Color::new(50, 100, 15));
    assert_eq!(c.scale(0), Color::new(0, 0, 0));
    assert_eq!(c.scale(-ONE), Color::new(0, 0, 0));
    assert_eq!(c.scale(2 * ONE), Color::new(200, 255, 60));
    assert_eq!(c.scale(i32::MAX), Color::new(255, 255, 255));
}

#[test]
fn clamped_channels() {
    assert_eq!(Color::clamped(-5, 128, 300), Color::new(0, 128, 255));
    assert_eq!(Color::clamped(0, 255, i64::MIN), Color::new(0, 255, 0));
}
