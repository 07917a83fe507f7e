//! Shading functions that draw their colors from a seeded pseudo-random generator.

use vstd::prelude::*;
use rand::rngs::StdRng;
use rand::Rng;
use rand::SeedableRng;
use crate::color::{scale_color, Color};
use crate::fixed::ONE;
use crate::triangle::Fragment;
use crate::vertex::Uniforms;

verus! {

#[verifier::external_type_specification]
#[verifier::external_body]
pub struct ExStdRng(StdRng);

/// Relies on rand's `SeedableRng::seed_from_u64` for `StdRng`: a generator
/// seeded from `seed`; nothing is assumed of the numbers it yields.
#[verifier::external_body]
fn seeded_rng(seed: u64) -> StdRng {
    StdRng::seed_from_u64(seed)
}

/// Relies on rand's `Rng::gen_range` over the inclusive range `0..=high`,
/// which is never empty here: the value drawn lies in that range.
#[verifier::external_body]
fn draw_up_to(rng: &mut StdRng, high: u8) -> (r: u8)
    ensures
        r <= high,
{
    rng.gen_range(0..=high)
}

/// The seed that a time gives: negative times count as 0.
pub open spec fn time_seed(time: int) -> int {
    if time < 0 {
        0
    } else {
        time
    }
}

fn time_seed_exec(time: i64) -> (s: u64)
    ensures
        s == time_seed(time as int),
{
    if time < 0 {
        0
    } else {
        time as u64
    }
}

/// A color drawn from a generator seeded with the elapsed time, scaled by the
/// fragment's intensity: every fragment of one frame gets the same color.
pub fn random_color_shader(fragment: &Fragment, uniforms: &Uniforms) -> (c: Color)
    ensures
        exists|base: Color| c == scale_color(base, fragment.intensity as int),
{
    let mut rng = seeded_rng(time_seed_exec(uniforms.time));
    let r = draw_up_to(&mut rng, 255);
    let g = draw_up_to(&mut rng, 255);
    let b = draw_up_to(&mut rng, 255);
    let base = Color::new(r, g, b);
    base.scale(fragment.intensity)
}

/// The seed of a fragment: `|time · x · y|` with `x` and `y` its fixed-point
/// object-space coordinates, rounded down and capped at `u64::MAX`.
pub open spec fn position_seed(time: int, x: int, y: int) -> int {
    let p = time * x * y;
    let a = if p < 0 {
        -p
    } else {
        p
    };
    let s = a / (ONE * ONE);
    if s > u64::MAX {
        u64::MAX as int
    } else {
        s
    }
}

fn position_seed_exec(time: i64, x: i32, y: i32) -> (s: u64)
    ensures
        s == position_seed(time as int, x as int, y as int),
{
    proof {
        assert(-0x4000_0000_0000_0000 <= (x as int) * (y as int) <= 0x4000_0000_0000_0000) by (nonlinear_arith)
            requires
                -0x8000_0000 <= x <= 0x8000_0000,
                -0x8000_0000 <= y <= 0x8000_0000,
        ;
        let xy = (x as int) * (y as int);
        assert(-0x2000_0000_0000_0000_0000_0000_0000_0000 <= time * xy <= 0x2000_0000_0000_0000_0000_0000_0000_0000)
            by (nonlinear_arith)
            requires
                -0x8000_0000_0000_0000 <= time <= 0x8000_0000_0000_0000,
                -0x4000_0000_0000_0000 <= xy <= 0x4000_0000_0000_0000,
        ;
        assert(time * x * y == time * xy) by (nonlinear_arith)
            requires
                xy == (x as int) * (y as int),
        ;
    }
    let xy: i128 = (x as i128) * (y as i128);
    let p: i128 = (time as i128) * xy;
    let a: i128 = if p < 0 {
        -p
    } else {
        p
    };
    let s: i128 = a / ((ONE as i128) * (ONE as i128));
    if s > u64::MAX as i128 {
        u64::MAX
    } else {
        s as u64
    }
}

/// Black below the middle of `0..=100`, white from it on.
pub open spec fn black_or_white(n: int) -> Color {
    if n < 50 {
        Color { r: 0, g: 0, b: 0 }
    } else {
        Color { r: 255, g: 255, b: 255 }
    }
}

/// The color that a draw `n` in `0..=100` gives, scaled by `intensity`.
pub fn black_or_white_color(n: u8, intensity: i32) -> (c: Color)
    ensures
        c == scale_color(black_or_white(n as int), intensity as int),
{
    let base = if n < 50 {
        Color::new(0, 0, 0)
    } else {
        Color::new(255, 255, 255)
    };
    base.scale(intensity)
}

/// Black or white at random, from a generator seeded with the time and the
/// fragment's position, scaled by the fragment's intensity.
pub fn black_and_white(fragment: &Fragment, uniforms: &Uniforms) -> (c: Color)
    ensures
        exists|n: int| 0 <= n <= 100 && c == scale_color(black_or_white(n), fragment.intensity as int),
{
    let seed = position_seed_exec(uniforms.time, fragment.vertex_position.x, fragment.vertex_position.y);
    let mut rng = seeded_rng(seed);
    let n = draw_up_to(&mut rng, 100);
    black_or_white_color(n, fragment.intensity)
}

} // verus!
