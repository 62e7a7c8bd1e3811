use vstd::prelude::*;
use crate::pixel::Pixel;

verus! {

/// Fixed-point scale of a matrix coefficient: `FRAC` stands for 1.0.
pub const FRAC: i64 = 65536;

/// A 3×3 matrix of fixed-point coefficients over `FRAC`, row by row.
#[derive(Debug, Clone, Copy, PartialEq, Eq, Structural)]
pub struct Matrix3 {
    pub m00: i64,
    pub m01: i64,
    pub m02: i64,
    pub m10: i64,
    pub m11: i64,
    pub m12: i64,
    pub m20: i64,
    pub m21: i64,
    pub m22: i64,
}

/// The two gamut transforms of the hub: DisplayP3 primaries to and from the reference
/// primaries (those of sRGB).
#[derive(Debug, Clone, Copy, PartialEq, Eq, Structural)]
pub enum Gamut {
    P3ToReference,
    ReferenceToP3,
}

/// Linear DisplayP3 to linear sRGB; each row sums to `FRAC`, so white stays white.
pub open spec fn p3_to_reference_matrix() -> Matrix3 {
    Matrix3 {
        m00: 80278,
        m01: -14742i64,
        m02: 0,
        m10: -2756i64,
        m11: 68292,
        m12: 0,
        m20: -1287i64,
        m21: -5154i64,
        m22: 71977,
    }
}

/// Linear sRGB to linear DisplayP3; each row sums to `FRAC`.
pub open spec fn reference_to_p3_matrix() -> Matrix3 {
    Matrix3 {
        m00: 53901,
        m01: 11635,
        m02: 0,
        m10: 2175,
        m11: 63361,
        m12: 0,
        m20: 1120,
        m21: 4745,
        m22: 59671,
    }
}

pub open spec fn matrix_of(g: Gamut) -> Matrix3 {
    match g {
        Gamut::P3ToReference => p3_to_reference_matrix(),
        Gamut::ReferenceToP3 => reference_to_p3_matrix(),
    }
}

/// The coefficients of a gamut transform.
pub fn gamut_matrix(g: Gamut) -> (m: Matrix3)
    ensures
        m == matrix_of(g),
{
    match g {
        Gamut::P3ToReference => Matrix3 {
            m00: 80278,
            m01: -14742,
            m02: 0,
            m10: -2756,
            m11: 68292,
            m12: 0,
            m20: -1287,
            m21: -5154,
            m22: 71977,
        },
        Gamut::ReferenceToP3 => Matrix3 {
            m00: 53901,
            m01: 11635,
            m02: 0,
            m10: 2175,
            m11: 63361,
            m12: 0,
            m20: 1120,
            m21: 4745,
            m22: 59671,
        },
    }
}

/// A value held to the range of a channel.
pub open spec fn saturate(v: int) -> int {
    if v < i32::MIN {
        i32::MIN as int
    } else if v > i32::MAX {
        i32::MAX as int
    } else {
        v
    }
}

/// One row of a matrix applied to (r, g, b), rounded toward negative infinity.
pub open spec fn row(a: i64, b: i64, c: i64, p: Pixel) -> int {
    saturate((a * p.r + b * p.g + c * p.b) / (FRAC as int))
}

/// The pixel whose (R, G, B) is `m` times that of `p`; alpha is kept.
pub open spec fn transformed(m: Matrix3, p: Pixel) -> Pixel {
    Pixel {
        r: row(m.m00, m.m01, m.m02, p) as i32,
        g: row(m.m10, m.m11, m.m12, p) as i32,
        b: row(m.m20, m.m21, m.m22, p) as i32,
        a: p.a,
    }
}

/// Coefficients small enough that a row sum fits in 64 bits.
pub open spec fn small(m: Matrix3) -> bool {
    let lim: int = 0x1000_0000;
    &&& -lim <= m.m00 <= lim
    &&& -lim <= m.m01 <= lim
    &&& -lim <= m.m02 <= lim
    &&& -lim <= m.m10 <= lim
    &&& -lim <= m.m11 <= lim
    &&& -lim <= m.m12 <= lim
    &&& -lim <= m.m20 <= lim
    &&& -lim <= m.m21 <= lim
    &&& -lim <= m.m22 <= lim
}

fn apply_row(a: i64, b: i64, c: i64, p: Pixel) -> (r: i32)
    requires
        -0x1000_0000 <= a <= 0x1000_0000,
        -0x1000_0000 <= b <= 0x1000_0000,
        -0x1000_0000 <= c <= 0x1000_0000,
    ensures
        r == row(a, b, c, p),
{
    let lim: i64 = 0x1000_0000;
    let big: i64 = 0x8000_0000;
    assert(-lim * big <= a * (p.r as i64) <= lim * big) by (nonlinear_arith)
        requires
            -lim <= a <= lim,
            -big <= p.r <= big,
    ;
    assert(-lim * big <= b * (p.g as i64) <= lim * big) by (nonlinear_arith)
        requires
            -lim <= b <= lim,
            -big <= p.g <= big,
    ;
    assert(-lim * big <= c * (p.b as i64) <= lim * big) by (nonlinear_arith)
        requires
            -lim <= c <= lim,
            -big <= p.b <= big,
    ;
    let s = a * (p.r as i64) + b * (p.g as i64) + c * (p.b as i64);
    // Shifting by a multiple of FRAC keeps the division on non-negative values.
    let shift: i64 = 0x2000_0000_0000 * FRAC;
    let q = ((s + shift) as u64 / FRAC as u64) as i64 - 0x2000_0000_0000;
    proof {
        vstd::arithmetic::div_mod::lemma_fundamental_div_mod(s as int, FRAC as int);
        vstd::arithmetic::div_mod::lemma_mod_bound(s as int, FRAC as int);
        vstd::arithmetic::div_mod::lemma_fundamental_div_mod_converse(
            s + shift,
            FRAC as int,
            s as int / FRAC as int + 0x2000_0000_0000,
            s as int % FRAC as int,
        );
    }
    if q < i32::MIN as i64 {
        i32::MIN
    } else if q > i32::MAX as i64 {
        i32::MAX
    } else {
        q as i32
    }
}

/// Applies matrix `m` to the (R, G, B) of `p`, keeping alpha.
pub fn transform_pixel(m: &Matrix3, p: Pixel) -> (r: Pixel)
    requires
        small(*m),
    ensures
        r == transformed(*m, p),
        r.a == p.a,
{
    Pixel {
        r: apply_row(m.m00, m.m01, m.m02, p),
        g: apply_row(m.m10, m.m11, m.m12, p),
        b: apply_row(m.m20, m.m21, m.m22, p),
        a: p.a,
    }
}

/// Both gamut matrices have small coefficients.
pub proof fn lemma_gamut_small(g: Gamut)
    ensures
        small(matrix_of(g)),
{
}

} // verus!
