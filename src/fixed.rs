//! Fixed-point scalars, vectors and 4×4 matrices.
//!
//! A real number `r` is stored as the `i32` nearest below `r * ONE`.
//! Every result that leaves the `i32` range saturates at its bounds.

use vstd::prelude::*;

verus! {

/// The fixed-point representation of 1.
pub const ONE: i32 = 65536;

/// Clamps a mathematical integer into the `i32` range.
pub open spec fn sat(v: int) -> int {
    if v < i32::MIN {
        i32::MIN as int
    } else if v > i32::MAX {
        i32::MAX as int
    } else {
        v
    }
}

/// Saturating conversion of a wide intermediate into `i32`.
pub fn saturate(v: i128) -> (r: i32)
    ensures
        r == sat(v as int),
{
    if v < i32::MIN as i128 {
        i32::MIN
    } else if v > i32::MAX as i128 {
        i32::MAX
    } else {
        v as i32
    }
}

/// Division rounding towards negative infinity (the quotient of `int` division).
pub fn floor_div(a: i128, b: i128) -> (q: i128)
    requires
        b > 0,
    ensures
        q == a / b,
{
    if a >= 0 {
        a / b
    } else {
        let n: i128 = -(a + 1);
        let t: i128 = n / b;
        proof {
            lemma_floor_neg(a as int, b as int, t as int);
        }
        -t - 1
    }
}

proof fn lemma_floor_neg(a: int, b: int, t: int)
    requires
        b > 0,
        a < 0,
        t == (-(a + 1)) / b,
    ensures
        a / b == -t - 1,
{
    let n = -(a + 1);
    let r = n % b;
    assert(n == b * t + r && 0 <= r < b) by {
        vstd::arithmetic::div_mod::lemma_fundamental_div_mod(n, b);
    }
    // a == b * (-t - 1) + (b - 1 - r), with 0 <= b - 1 - r < b
    assert(a == (-t - 1) * b + (b - 1 - r)) by (nonlinear_arith)
        requires
            n == b * t + r,
            n == -(a + 1),
    ;
    vstd::arithmetic::div_mod::lemma_fundamental_div_mod_converse(a, b, -t - 1, b - 1 - r);
}

/// A non-negative quotient stays below `m` when the dividend stays below `m * n`.
pub proof fn lemma_div_below(a: int, n: int, m: int)
    requires
        0 <= a < m * n,
        n > 0,
    ensures
        0 <= a / n < m,
{
    vstd::arithmetic::div_mod::lemma_fundamental_div_mod(a, n);
    vstd::arithmetic::div_mod::lemma_div_pos_is_pos(a, n);
    let q = a / n;
    let r = a % n;
    assert(q < m) by (nonlinear_arith)
        requires
            a == n * q + r,
            0 <= r,
            a < m * n,
            n > 0,
    ;
}

/// A 2-component fixed-point vector.
#[derive(Clone, Copy, Debug, PartialEq, Eq, Structural)]
pub struct Vec2 {
    pub x: i32,
    pub y: i32,
}

impl Vec2 {
    pub fn new(x: i32, y: i32) -> (r: Vec2)
        ensures
            r == (Vec2 { x, y }),
    {
        Vec2 { x, y }
    }
}

/// A 3-component fixed-point vector.
#[derive(Clone, Copy, Debug, PartialEq, Eq, Structural)]
pub struct Vec3 {
    pub x: i32,
    pub y: i32,
    pub z: i32,
}

impl Vec3 {
    pub fn new(x: i32, y: i32, z: i32) -> (r: Vec3)
        ensures
            r == (Vec3 { x, y, z }),
    {
        Vec3 { x, y, z }
    }

    pub fn zeros() -> (r: Vec3)
        ensures
            r == (Vec3 { x: 0, y: 0, z: 0 }),
    {
        Vec3 { x: 0, y: 0, z: 0 }
    }
}

/// A 4-component fixed-point vector (homogeneous coordinates).
#[derive(Clone, Copy, Debug, PartialEq, Eq, Structural)]
pub struct Vec4 {
    pub x: i32,
    pub y: i32,
    pub z: i32,
    pub w: i32,
}

/// A 4×4 fixed-point matrix, row-major: entry `(r, c)` is `m[4 * r + c]`.
#[derive(Clone, Copy, Debug, PartialEq, Eq)]
pub struct Mat4 {
    pub m: [i32; 16],
}

/// Floor division for any non-zero divisor.
pub open spec fn fdiv(a: int, b: int) -> int {
    if b > 0 {
        a / b
    } else {
        (-a) / (-b)
    }
}

/// The exact dot product of row `r` with `v`, before rescaling.
pub open spec fn row_dot(m: Mat4, r: int, v: Vec4) -> int {
    m.m@[4 * r] * v.x + m.m@[4 * r + 1] * v.y + m.m@[4 * r + 2] * v.z + m.m@[4 * r + 3] * v.w
}

/// Entry `r` of the fixed-point product `m · v`.
pub open spec fn row_value(m: Mat4, r: int, v: Vec4) -> i32 {
    sat(row_dot(m, r, v) / (ONE as int)) as i32
}

/// The fixed-point product `m · v`, rounded down and saturated entry by entry.
pub open spec fn mul_vec(m: Mat4, v: Vec4) -> Vec4 {
    Vec4 { x: row_value(m, 0, v), y: row_value(m, 1, v), z: row_value(m, 2, v), w: row_value(m, 3, v) }
}

pub open spec fn identity_entries() -> Seq<i32> {
    seq![ONE, 0, 0, 0, 0, ONE, 0, 0, 0, 0, ONE, 0, 0, 0, 0, ONE]
}

/// `a * b` fits in an `i128` with room for a sum of four.
pub(crate) proof fn lemma_product_bound(a: int, b: int)
    requires
        i32::MIN <= a <= i32::MAX,
        i32::MIN <= b <= i32::MAX,
    ensures
        -0x4000_0000_0000_0000 <= a * b <= 0x4000_0000_0000_0000,
{
    assert(-0x4000_0000_0000_0000 <= a * b <= 0x4000_0000_0000_0000) by (nonlinear_arith)
        requires
            -0x8000_0000 <= a <= 0x8000_0000,
            -0x8000_0000 <= b <= 0x8000_0000,
    ;
}

/// Entry `(r, c)` of a row-major 4×4 matrix given by its entries.
pub open spec fn entry_of(m: Seq<i32>, r: int, c: int) -> int {
    m[4 * r + c] as int
}

/// Entry `(r, c)` of the fixed-point product `a · b`, rounded down and saturated.
pub open spec fn product_entry(a: Seq<i32>, b: Seq<i32>, r: int, c: int) -> i32 {
    sat(
        (entry_of(a, r, 0) * entry_of(b, 0, c) + entry_of(a, r, 1) * entry_of(b, 1, c) + entry_of(a, r, 2)
            * entry_of(b, 2, c) + entry_of(a, r, 3) * entry_of(b, 3, c)) / (ONE as int),
    ) as i32
}

/// The entries of the fixed-point product `a · b`.
pub open spec fn product(a: Seq<i32>, b: Seq<i32>) -> Seq<i32> {
    seq![
        product_entry(a, b, 0, 0), product_entry(a, b, 0, 1), product_entry(a, b, 0, 2), product_entry(a, b, 0, 3),
        product_entry(a, b, 1, 0), product_entry(a, b, 1, 1), product_entry(a, b, 1, 2), product_entry(a, b, 1, 3),
        product_entry(a, b, 2, 0), product_entry(a, b, 2, 1), product_entry(a, b, 2, 2), product_entry(a, b, 2, 3),
        product_entry(a, b, 3, 0), product_entry(a, b, 3, 1), product_entry(a, b, 3, 2), product_entry(a, b, 3, 3),
    ]
}

impl Mat4 {
    pub fn identity() -> (r: Mat4)
        ensures
            r.m@ == identity_entries(),
    {
        let r = Mat4 { m: [ONE, 0, 0, 0, 0, ONE, 0, 0, 0, 0, ONE, 0, 0, 0, 0, ONE] };
        assert(r.m@ =~= identity_entries());
        r
    }

    /// Entry `r` of `self · v`.
    fn row(&self, r: usize, v: &Vec4) -> (e: i32)
        requires
            r < 4,
        ensures
            e == row_value(*self, r as int, *v),
    {
        let b: usize = 4 * r;
        proof {
            lemma_product_bound(self.m@[4 * r] as int, v.x as int);
            lemma_product_bound(self.m@[4 * r + 1] as int, v.y as int);
            lemma_product_bound(self.m@[4 * r + 2] as int, v.z as int);
            lemma_product_bound(self.m@[4 * r + 3] as int, v.w as int);
        }
        let d: i128 = (self.m[b] as i128) * (v.x as i128) + (self.m[b + 1] as i128) * (v.y as i128)
            + (self.m[b + 2] as i128) * (v.z as i128) + (self.m[b + 3] as i128) * (v.w as i128);
        saturate(floor_div(d, ONE as i128))
    }

    /// Entry `(r, c)` of `self · other`.
    fn product_entry(&self, other: &Mat4, r: usize, c: usize) -> (e: i32)
        requires
            r < 4,
            c < 4,
        ensures
            e == product_entry(self.m@, other.m@, r as int, c as int),
    {
        let a = &self.m;
        let b = &other.m;
        proof {
            lemma_product_bound(a@[4 * r] as int, b@[c as int] as int);
            lemma_product_bound(a@[4 * r + 1] as int, b@[4 + c] as int);
            lemma_product_bound(a@[4 * r + 2] as int, b@[8 + c] as int);
            lemma_product_bound(a@[4 * r + 3] as int, b@[12 + c] as int);
        }
        let d: i128 = (a[4 * r] as i128) * (b[c] as i128) + (a[4 * r + 1] as i128) * (b[4 + c] as i128)
            + (a[4 * r + 2] as i128) * (b[8 + c] as i128) + (a[4 * r + 3] as i128) * (b[12 + c] as i128);
        saturate(floor_div(d, ONE as i128))
    }

    /// The fixed-point product `self · other`.
    pub fn mul(&self, other: &Mat4) -> (r: Mat4)
        ensures
            r.m@ == product(self.m@, other.m@),
    {
        let r = Mat4 {
            m: [
                self.product_entry(other, 0, 0),
                self.product_entry(other, 0, 1),
                self.product_entry(other, 0, 2),
                self.product_entry(other, 0, 3),
                self.product_entry(other, 1, 0),
                self.product_entry(other, 1, 1),
                self.product_entry(other, 1, 2),
                self.product_entry(other, 1, 3),
                self.product_entry(other, 2, 0),
                self.product_entry(other, 2, 1),
                self.product_entry(other, 2, 2),
                self.product_entry(other, 2, 3),
                self.product_entry(other, 3, 0),
                self.product_entry(other, 3, 1),
                self.product_entry(other, 3, 2),
                self.product_entry(other, 3, 3),
            ],
        };
        assert(r.m@ =~= product(self.m@, other.m@));
        r
    }

    /// The fixed-point product `self · v`.
    pub fn mul_vec(&self, v: &Vec4) -> (r: Vec4)
        ensures
            r == mul_vec(*self, *v),
    {
        Vec4 { x: self.row(0, v), y: self.row(1, v), z: self.row(2, v), w: self.row(3, v) }
    }
}

} // verus!
