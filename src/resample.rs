use vstd::prelude::*;
use vstd::arithmetic::div_mod::{lemma_fundamental_div_mod_converse, lemma_mod_bound, lemma_div_is_ordered, lemma_div_multiples_vanish, lemma_div_pos_is_pos, lemma_fundamental_div_mod};
use vstd::arithmetic::mul::{lemma_mul_inequality, lemma_mul_is_distributive_add};
use crate::pixel::{Pixel, chan};

verus! {

/// Numerator of the source coordinate of destination index `d` on an axis that
/// goes from `s` source samples to `n` destination samples.
pub open spec fn axis_num(d: int, n: int, s: int) -> int {
    if n <= 1 {
        0
    } else {
        d * (s - 1)
    }
}

/// Denominator of that source coordinate.
pub open spec fn axis_den(n: int) -> int {
    if n <= 1 {
        1
    } else {
        n - 1
    }
}

/// Integer part of the source coordinate (`floor`).
pub open spec fn axis_lo(d: int, n: int, s: int) -> int {
    axis_num(d, n, s) / axis_den(n)
}

/// Fractional part of the source coordinate, as a numerator over `axis_den(n)`.
pub open spec fn axis_frac(d: int, n: int, s: int) -> int {
    axis_num(d, n, s) % axis_den(n)
}

/// The next source sample on the axis, held at the last one.
pub open spec fn axis_hi(d: int, n: int, s: int) -> int {
    if axis_lo(d, n, s) + 1 < s {
        axis_lo(d, n, s) + 1
    } else {
        s - 1
    }
}

/// Bilinear blend of four samples with weights `rx/dx` across and `ry/dy` down,
/// rounded toward negative infinity.
pub open spec fn blend(p00: int, p10: int, p01: int, p11: int, rx: int, dx: int, ry: int, dy: int) -> int {
    (p00 * (dx - rx) * (dy - ry) + p10 * rx * (dy - ry) + p01 * (dx - rx) * ry + p11 * rx * ry) / (
    dx * dy)
}

/// The sample at column `x` and row `y` of a row-major grid `w` samples wide.
pub open spec fn at(pix: Seq<Pixel>, w: int, x: int, y: int) -> Pixel {
    pix[y * w + x]
}

/// Channel `k` of destination pixel `(x, y)` when a `w` by `h` grid is resampled
/// to `nw` by `nh`.
pub open spec fn resampled_chan(
    pix: Seq<Pixel>,
    w: int,
    h: int,
    nw: int,
    nh: int,
    x: int,
    y: int,
    k: int,
) -> int {
    let x0 = axis_lo(x, nw, w);
    let x1 = axis_hi(x, nw, w);
    let y0 = axis_lo(y, nh, h);
    let y1 = axis_hi(y, nh, h);
    blend(
        chan(at(pix, w, x0, y0), k),
        chan(at(pix, w, x1, y0), k),
        chan(at(pix, w, x0, y1), k),
        chan(at(pix, w, x1, y1), k),
        axis_frac(x, nw, w),
        axis_den(nw),
        axis_frac(y, nh, h),
        axis_den(nh),
    )
}

/// The source coordinate of a destination index stays on the source axis.
pub proof fn lemma_axis_in_range(d: int, n: int, s: int)
    requires
        0 <= d < n,
        1 <= s,
    ensures
        0 <= axis_lo(d, n, s) <= axis_hi(d, n, s) < s,
        0 <= axis_frac(d, n, s) < axis_den(n),
        axis_hi(d, n, s) <= axis_lo(d, n, s) + 1,
{
    if n > 1 {
        let num = d * (s - 1);
        assert(0 <= num) by (nonlinear_arith)
            requires
                0 <= d,
                1 <= s,
                num == d * (s - 1),
        ;
        assert(num <= (n - 1) * (s - 1)) by (nonlinear_arith)
            requires
                d <= n - 1,
                1 <= s,
                num == d * (s - 1),
        ;
        lemma_div_is_ordered(num, (n - 1) * (s - 1), n - 1);
        lemma_div_multiples_vanish(s - 1, n - 1);
        assert((n - 1) * (s - 1) == (s - 1) * (n - 1)) by (nonlinear_arith);
        lemma_div_pos_is_pos(num, n - 1);
        lemma_fundamental_div_mod(num, n - 1);
    }
}

/// A blend lies between the least and the greatest of its four samples.
pub proof fn lemma_blend_range(
    p00: int,
    p10: int,
    p01: int,
    p11: int,
    rx: int,
    dx: int,
    ry: int,
    dy: int,
    lo: int,
    hi: int,
)
    requires
        lo <= p00 <= hi,
        lo <= p10 <= hi,
        lo <= p01 <= hi,
        lo <= p11 <= hi,
        0 <= rx < dx,
        0 <= ry < dy,
    ensures
        lo <= blend(p00, p10, p01, p11, rx, dx, ry, dy) <= hi,
{
    let w00 = (dx - rx) * (dy - ry);
    let w10 = rx * (dy - ry);
    let w01 = (dx - rx) * ry;
    let w11 = rx * ry;
    let d = dx * dy;
    let s = p00 * (dx - rx) * (dy - ry) + p10 * rx * (dy - ry) + p01 * (dx - rx) * ry + p11 * rx
        * ry;
    assert(w00 >= 0 && w10 >= 0 && w01 >= 0 && w11 >= 0 && d > 0) by (nonlinear_arith)
        requires
            0 <= rx < dx,
            0 <= ry < dy,
            w00 == (dx - rx) * (dy - ry),
            w10 == rx * (dy - ry),
            w01 == (dx - rx) * ry,
            w11 == rx * ry,
            d == dx * dy,
    ;
    assert(p00 * (dx - rx) * (dy - ry) == w00 * p00) by (nonlinear_arith)
        requires
            w00 == (dx - rx) * (dy - ry),
    ;
    assert(p10 * rx * (dy - ry) == w10 * p10) by (nonlinear_arith)
        requires
            w10 == rx * (dy - ry),
    ;
    assert(p01 * (dx - rx) * ry == w01 * p01) by (nonlinear_arith)
        requires
            w01 == (dx - rx) * ry,
    ;
    assert(p11 * rx * ry == w11 * p11) by (nonlinear_arith)
        requires
            w11 == rx * ry,
    ;
    assert(s == w00 * p00 + w10 * p10 + w01 * p01 + w11 * p11);
    assert(d == w00 + w10 + w01 + w11) by (nonlinear_arith)
        requires
            w00 == (dx - rx) * (dy - ry),
            w10 == rx * (dy - ry),
            w01 == (dx - rx) * ry,
            w11 == rx * ry,
            d == dx * dy,
    ;
    lemma_mul_inequality(lo, p00, w00);
    lemma_mul_inequality(lo, p10, w10);
    lemma_mul_inequality(lo, p01, w01);
    lemma_mul_inequality(lo, p11, w11);
    lemma_mul_inequality(p00, hi, w00);
    lemma_mul_inequality(p10, hi, w10);
    lemma_mul_inequality(p01, hi, w01);
    lemma_mul_inequality(p11, hi, w11);
    assert(lo * d == lo * w00 + lo * w10 + lo * w01 + lo * w11) by (nonlinear_arith)
        requires
            d == w00 + w10 + w01 + w11,
    ;
    assert(hi * d == hi * w00 + hi * w10 + hi * w01 + hi * w11) by (nonlinear_arith)
        requires
            d == w00 + w10 + w01 + w11,
    ;
    assert(lo * d == d * lo && hi * d == d * hi) by (nonlinear_arith);
    lemma_div_is_ordered(d * lo, s, d);
    lemma_div_is_ordered(s, d * hi, d);
    lemma_div_multiples_vanish(lo, d);
    lemma_div_multiples_vanish(hi, d);
}

/// With no fractional part on either axis the blend is the first sample exactly.
pub proof fn lemma_blend_exact(p00: int, p10: int, p01: int, p11: int, dx: int, dy: int)
    requires
        dx > 0,
        dy > 0,
    ensures
        blend(p00, p10, p01, p11, 0, dx, 0, dy) == p00,
{
    assert(p00 * (dx - 0) * (dy - 0) + p10 * 0 * (dy - 0) + p01 * (dx - 0) * 0 + p11 * 0 * 0 == (dx
        * dy) * p00) by (nonlinear_arith);
    assert(dx * dy > 0) by (nonlinear_arith)
        requires
            dx > 0,
            dy > 0,
    ;
    lemma_div_multiples_vanish(p00, dx * dy);
}

/// The first destination index maps exactly onto the first source sample.
pub proof fn lemma_axis_start(n: int, s: int)
    requires
        1 <= n,
        1 <= s,
    ensures
        axis_lo(0, n, s) == 0,
        axis_frac(0, n, s) == 0,
{
    if n > 1 {
        assert(0 * (s - 1) == 0) by (nonlinear_arith);
        lemma_fundamental_div_mod_converse(0, n - 1, 0, 0);
    }
}

/// With more than one destination sample (or a single source sample), the last
/// destination index maps exactly onto the last source sample.
pub proof fn lemma_axis_end(n: int, s: int)
    requires
        1 <= n,
        1 <= s,
        n > 1 || s == 1,
    ensures
        axis_lo(n - 1, n, s) == s - 1,
        axis_frac(n - 1, n, s) == 0,
{
    if n > 1 {
        assert((n - 1) * (s - 1) == (s - 1) * (n - 1) + 0) by (nonlinear_arith);
        lemma_fundamental_div_mod_converse((n - 1) * (s - 1), n - 1, s - 1, 0);
    }
}

/// On an axis whose length is kept, each index maps exactly onto itself.
pub proof fn lemma_axis_same(d: int, s: int)
    requires
        0 <= d < s,
    ensures
        axis_lo(d, s, s) == d,
        axis_frac(d, s, s) == 0,
{
    if s > 1 {
        assert(d * (s - 1) == d * (s - 1) + 0);
        lemma_fundamental_div_mod_converse(d * (s - 1), s - 1, d, 0);
    }
}

/// Resampling a grid to its own size gives every sample back unchanged.
pub proof fn lemma_resample_same_size(pix: Seq<Pixel>, w: int, h: int, x: int, y: int, k: int)
    requires
        0 <= x < w,
        0 <= y < h,
    ensures
        resampled_chan(pix, w, h, w, h, x, y, k) == chan(at(pix, w, x, y), k),
{
    lemma_axis_same(x, w);
    lemma_axis_same(y, h);
    let x1 = axis_hi(x, w, w);
    let y1 = axis_hi(y, h, h);
    lemma_blend_exact(
        chan(at(pix, w, x, y), k),
        chan(at(pix, w, x1, y), k),
        chan(at(pix, w, x, y1), k),
        chan(at(pix, w, x1, y1), k),
        axis_den(w),
        axis_den(h),
    );
}

/// The four corners of a resampled grid are the four corners of the source, on
/// each axis whose new length is more than one (or whose source length is one).
pub proof fn lemma_resample_corners(
    pix: Seq<Pixel>,
    w: int,
    h: int,
    nw: int,
    nh: int,
    k: int,
)
    requires
        1 <= w,
        1 <= h,
        1 <= nw,
        1 <= nh,
        nw > 1 || w == 1,
        nh > 1 || h == 1,
    ensures
        resampled_chan(pix, w, h, nw, nh, 0, 0, k) == chan(at(pix, w, 0, 0), k),
        resampled_chan(pix, w, h, nw, nh, nw - 1, 0, k) == chan(at(pix, w, w - 1, 0), k),
        resampled_chan(pix, w, h, nw, nh, 0, nh - 1, k) == chan(at(pix, w, 0, h - 1), k),
        resampled_chan(pix, w, h, nw, nh, nw - 1, nh - 1, k) == chan(at(pix, w, w - 1, h - 1), k),
{
    lemma_axis_start(nw, w);
    lemma_axis_start(nh, h);
    lemma_axis_end(nw, w);
    lemma_axis_end(nh, h);
    let dx = axis_den(nw);
    let dy = axis_den(nh);
    assert forall|x: int, y: int|
        (x == 0 || x == nw - 1) && (y == 0 || y == nh - 1) implies resampled_chan(
        pix,
        w,
        h,
        nw,
        nh,
        x,
        y,
        k,
    ) == chan(at(pix, w, axis_lo(x, nw, w), axis_lo(y, nh, h)), k) by {
        let x0 = axis_lo(x, nw, w);
        let x1 = axis_hi(x, nw, w);
        let y0 = axis_lo(y, nh, h);
        let y1 = axis_hi(y, nh, h);
        lemma_blend_exact(
            chan(at(pix, w, x0, y0), k),
            chan(at(pix, w, x1, y0), k),
            chan(at(pix, w, x0, y1), k),
            chan(at(pix, w, x1, y1), k),
            dx,
            dy,
        );
    }
}

/// Bilinear blend of one channel of four samples.
pub fn blend_channel(p00: i32, p10: i32, p01: i32, p11: i32, rx: u32, dx: u32, ry: u32, dy: u32) -> (r: i32)
    requires
        rx < dx,
        ry < dy,
    ensures
        r as int == blend(
            p00 as int,
            p10 as int,
            p01 as int,
            p11 as int,
            rx as int,
            dx as int,
            ry as int,
            dy as int,
        ),
{
    let ax = (dx - rx) as u128;
    let bx = rx as u128;
    let ay = (dy - ry) as u128;
    let by_ = ry as u128;
    let lim: u128 = 0x1_0000_0000;
    assert(ax * ay < lim * lim && bx * ay < lim * lim && ax * by_ < lim * lim && bx * by_ < lim
        * lim && 0 < (dx as u128) * (dy as u128) < lim * lim) by (nonlinear_arith)
        requires
            ax < lim,
            bx < lim,
            ay < lim,
            by_ < lim,
            0 < dx < lim,
            0 < dy < lim,
    ;
    let w00 = ax * ay;
    let w10 = bx * ay;
    let w01 = ax * by_;
    let w11 = bx * by_;
    // Each sample is shifted by 2^31 so that the sum is never negative.
    let q00 = (p00 as i64 + 0x8000_0000) as u128;
    let q10 = (p10 as i64 + 0x8000_0000) as u128;
    let q01 = (p01 as i64 + 0x8000_0000) as u128;
    let q11 = (p11 as i64 + 0x8000_0000) as u128;
    assert(w00 * q00 < lim * lim * lim && w10 * q10 < lim * lim * lim && w01 * q01 < lim * lim
        * lim && w11 * q11 < lim * lim * lim) by (nonlinear_arith)
        requires
            w00 < lim * lim,
            w10 < lim * lim,
            w01 < lim * lim,
            w11 < lim * lim,
            q00 < lim,
            q10 < lim,
            q01 < lim,
            q11 < lim,
    ;
    let s = w00 * q00 + w10 * q10 + w01 * q01 + w11 * q11;
    let d = (dx as u128) * (dy as u128);
    let q = s / d;
    proof {
        let (ip00, ip10, ip01, ip11) = (p00 as int, p10 as int, p01 as int, p11 as int);
        let (irx, idx, iry, idy) = (rx as int, dx as int, ry as int, dy as int);
        let k: int = 0x8000_0000;
        let t = ip00 * (idx - irx) * (idy - iry) + ip10 * irx * (idy - iry) + ip01 * (idx - irx)
            * iry + ip11 * irx * iry;
        assert(s as int == w00 * (ip00 + k) + w10 * (ip10 + k) + w01 * (ip01 + k) + w11 * (ip11
            + k));
        lemma_mul_is_distributive_add(w00 as int, ip00, k);
        lemma_mul_is_distributive_add(w10 as int, ip10, k);
        lemma_mul_is_distributive_add(w01 as int, ip01, k);
        lemma_mul_is_distributive_add(w11 as int, ip11, k);
        assert(k * (w00 + w10 + w01 + w11) == w00 * k + w10 * k + w01 * k + w11 * k) by (nonlinear_arith);
        assert(s as int == w00 * ip00 + w10 * ip10 + w01 * ip01 + w11 * ip11 + k * (w00 + w10 + w01
            + w11));
        assert(w00 + w10 + w01 + w11 == d as int) by (nonlinear_arith)
            requires
                w00 == (idx - irx) * (idy - iry),
                w10 == irx * (idy - iry),
                w01 == (idx - irx) * iry,
                w11 == irx * iry,
                d == idx * idy,
        ;
        assert(w00 * ip00 == ip00 * (idx - irx) * (idy - iry)) by (nonlinear_arith)
            requires
                w00 == (idx - irx) * (idy - iry),
        ;
        assert(w10 * ip10 == ip10 * irx * (idy - iry)) by (nonlinear_arith)
            requires
                w10 == irx * (idy - iry),
        ;
        assert(w01 * ip01 == ip01 * (idx - irx) * iry) by (nonlinear_arith)
            requires
                w01 == (idx - irx) * iry,
        ;
        assert(w11 * ip11 == ip11 * irx * iry) by (nonlinear_arith)
            requires
                w11 == irx * iry,
        ;
        assert(s as int == t + k * (d as int));
        lemma_fundamental_div_mod(t, d as int);
        assert(s as int == (t / (d as int) + k) * (d as int) + t % (d as int)) by (nonlinear_arith)
            requires
                s as int == t + k * (d as int),
                t == (d as int) * (t / (d as int)) + t % (d as int),
        ;
        lemma_mod_bound(t, d as int);
        lemma_fundamental_div_mod_converse(s as int, d as int, t / (d as int) + k, t % (d as int));
        lemma_blend_range(ip00, ip10, ip01, ip11, irx, idx, iry, idy, i32::MIN as int, i32::MAX as int);
    }
    (q as i64 - 0x8000_0000) as i32
}

/// Where destination index `d` of `n` falls on a source axis of `s` samples:
/// `(lo, hi, frac, den)`, with the source coordinate `lo + frac / den`.
pub fn axis_coord(d: u32, n: u32, s: u32) -> (r: (u32, u32, u32, u32))
    requires
        d < n,
        1 <= s,
    ensures
        r.0 == axis_lo(d as int, n as int, s as int),
        r.1 == axis_hi(d as int, n as int, s as int),
        r.2 == axis_frac(d as int, n as int, s as int),
        r.3 == axis_den(n as int),
        r.0 <= r.1 < s,
        r.2 < r.3,
{
    proof {
        lemma_axis_in_range(d as int, n as int, s as int);
    }
    let (num, den): (u64, u64) = if n <= 1 {
        (0, 1)
    } else {
        proof {
            let a = d as int;
            let b = (s - 1) as int;
            assert(a * b <= 0xffff_ffff * 0xffff_ffff) by (nonlinear_arith)
                requires
                    0 <= a <= 0xffff_ffff,
                    0 <= b <= 0xffff_ffff,
            ;
        }
        ((d as u64) * ((s - 1) as u64), (n - 1) as u64)
    };
    let lo = (num / den) as u32;
    let frac = (num % den) as u32;
    let hi = if lo + 1 < s {
        lo + 1
    } else {
        s - 1
    };
    (lo, hi, frac, den as u32)
}

} // verus!
