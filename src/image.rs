use vstd::prelude::*;
use vstd::arithmetic::div_mod::lemma_fundamental_div_mod_converse;
use crate::color::{ColorSpace, Step, conversion_plan, is_passthrough, plan};
use crate::gamut::{Gamut, gamut_matrix, lemma_gamut_small, matrix_of, small, transform_pixel, transformed};
use crate::pixel::{Pixel, chan, decoded, decode_pixel};
use crate::resample::{
    axis_coord, axis_den, axis_frac, axis_hi, axis_lo, blend_channel, lemma_resample_same_size,
    resampled_chan,
};

verus! {

/// A resolution as (width, height).
pub type ResXY = (u32, u32);

/// Why an image operation could not proceed.
#[derive(Debug, Clone, Copy, PartialEq, Eq, Structural)]
pub enum ImageError {
    /// The input bytes are not exactly `width * height * 4` long.
    InvalidLength,
    /// A width or a height of zero was asked for.
    InvalidResolution,
}

/// An RGBA image held as fixed-point working pixels, row-major, in one
/// declared color space.
#[derive(Debug)]
pub struct Image {
    data: Vec<Pixel>,
    res: ResXY,
    color: ColorSpace,
}

/// `q` is `p` with the transfer curve of `step` run over R, G and B, alpha kept.
pub open spec fn curve_maps<F: Fn(Step, i32) -> i32>(curve: F, step: Step, p: Pixel, q: Pixel) -> bool {
    &&& call_ensures(curve, (step, p.r), q.r)
    &&& call_ensures(curve, (step, p.g), q.g)
    &&& call_ensures(curve, (step, p.b), q.b)
    &&& q.a == p.a
}

/// `q` is `p` after one conversion stage: a gamut matrix, or the curve of the
/// stage through `curve`.
pub open spec fn stage_pixel<F: Fn(Step, i32) -> i32>(curve: F, step: Step, p: Pixel, q: Pixel) -> bool {
    match step {
        Step::P3ToReference => q == transformed(matrix_of(Gamut::P3ToReference), p),
        Step::ReferenceToP3 => q == transformed(matrix_of(Gamut::ReferenceToP3), p),
        _ => curve_maps(curve, step, p, q),
    }
}

/// `b` is `a` after one conversion stage, pixel by pixel.
pub open spec fn stage_applied<F: Fn(Step, i32) -> i32>(curve: F, step: Step, a: Seq<Pixel>, b: Seq<Pixel>) -> bool {
    &&& a.len() == b.len()
    &&& forall|i: int| 0 <= i < a.len() ==> stage_pixel(curve, step, a[i], b[i])
}

/// `trace` holds the pixels before each stage of `steps` and after the last.
pub open spec fn runs_plan<F: Fn(Step, i32) -> i32>(curve: F, steps: Seq<Step>, trace: Seq<Seq<Pixel>>) -> bool {
    &&& trace.len() == steps.len() + 1
    &&& forall|k: int| 0 <= k < steps.len() ==> stage_applied(curve, #[trigger] steps[k], trace[k], trace[k + 1])
}

/// The pixel that byte group `i` of `bytes` decodes to.
pub open spec fn decoded_at(bytes: Seq<u8>, i: int) -> Pixel {
    decoded(bytes[4 * i], bytes[4 * i + 1], bytes[4 * i + 2], bytes[4 * i + 3])
}

impl Image {
    /// The pixels, row-major.
    pub closed spec fn spec_pixels(&self) -> Seq<Pixel> {
        self.data@
    }

    /// The width, in pixels.
    pub closed spec fn spec_width(&self) -> nat {
        self.res.0 as nat
    }

    /// The height, in pixels.
    pub closed spec fn spec_height(&self) -> nat {
        self.res.1 as nat
    }

    /// The color space that every sample is declared to be in.
    pub closed spec fn spec_color(&self) -> ColorSpace {
        self.color
    }

    /// Both sides are at least one and there is exactly one pixel per position.
    pub open spec fn wf(&self) -> bool {
        &&& self.spec_width() >= 1
        &&& self.spec_height() >= 1
        &&& self.spec_pixels().len() == self.spec_width() * self.spec_height()
    }

    /// Reads an image from `width * height * 4` bytes, RGBA order, 8 bits per
    /// channel; each level `b` becomes the channel value `b / 255`.
    pub fn from_bytes(data: &[u8], res: ResXY, color: ColorSpace) -> (r: Result<Image, ImageError>)
        ensures
            (res.0 == 0 || res.1 == 0) ==> r == Err::<Image, ImageError>(
                ImageError::InvalidResolution,
            ),
            (res.0 != 0 && res.1 != 0 && data@.len() != res.0 as int * res.1 as int * 4) ==> r
                == Err::<Image, ImageError>(ImageError::InvalidLength),
            (res.0 != 0 && res.1 != 0 && data@.len() == res.0 as int * res.1 as int * 4) ==> r
                is Ok,
            r matches Ok(img) ==> {
                &&& img.wf()
                &&& img.spec_width() == res.0
                &&& img.spec_height() == res.1
                &&& img.spec_color() == color
                &&& forall|i: int|
                    0 <= i < img.spec_pixels().len() ==> img.spec_pixels()[i] == decoded_at(
                        data@,
                        i,
                    )
            },
    {
        let (width, height) = res;
        if width == 0 || height == 0 {
            return Err(ImageError::InvalidResolution);
        }
        let len = data.len();
        if len % 4 != 0 {
            return Err(ImageError::InvalidLength);
        }
        let n = len / 4;
        assert((width as u128) * (height as u128) <= 0xffff_ffff_ffff_ffff) by (nonlinear_arith)
            requires
                width <= 0xffff_ffff,
                height <= 0xffff_ffff,
        ;
        if n as u128 != width as u128 * height as u128 {
            return Err(ImageError::InvalidLength);
        }
        let mut pixels: Vec<Pixel> = Vec::with_capacity(n);
        let mut i: usize = 0;
        while i < n
            invariant
                n == len / 4,
                len == data@.len(),
                len % 4 == 0,
                i <= n,
                pixels@.len() == i,
                forall|j: int| 0 <= j < i ==> pixels@[j] == decoded_at(data@, j),
            decreases n - i,
        {
            let base = 4 * i;
            let p = decode_pixel(data[base], data[base + 1], data[base + 2], data[base + 3]);
            pixels.push(p);
            i = i + 1;
        }
        Ok(Image { data: pixels, res, color })
    }

    pub fn width(&self) -> (r: u32)
        ensures
            r == self.spec_width(),
    {
        self.res.0
    }

    pub fn height(&self) -> (r: u32)
        ensures
            r == self.spec_height(),
    {
        self.res.1
    }

    pub fn color(&self) -> (r: ColorSpace)
        ensures
            r == self.spec_color(),
    {
        self.color
    }

    pub fn pixels(&self) -> (r: &[Pixel])
        ensures
            r@ == self.spec_pixels(),
    {
        self.data.as_slice()
    }

    /// Resamples the image to `new` by bilinear interpolation of every channel,
    /// alpha included. A destination side of one maps onto the first source
    /// sample of that axis.
    pub fn scale(&mut self, new: ResXY) -> (r: Result<(), ImageError>)
        requires
            old(self).wf(),
        ensures
            final(self).wf(),
            (new.0 == 0 || new.1 == 0) <==> r == Err::<(), ImageError>(
                ImageError::InvalidResolution,
            ),
            (new.0 != 0 && new.1 != 0) ==> r is Ok,
            r is Err ==> *final(self) == *old(self),
            r is Ok ==> {
                &&& final(self).spec_width() == new.0
                &&& final(self).spec_height() == new.1
                &&& final(self).spec_color() == old(self).spec_color()
                &&& final(self).spec_pixels().len() == new.0 as int * new.1 as int
                &&& forall|x: int, y: int, k: int|
                    0 <= x < new.0 && 0 <= y < new.1 && 0 <= k < 4 ==> #[trigger] chan(
                        final(self).spec_pixels()[y * new.0 + x],
                        k,
                    ) == resampled_chan(
                        old(self).spec_pixels(),
                        old(self).spec_width() as int,
                        old(self).spec_height() as int,
                        new.0 as int,
                        new.1 as int,
                        x,
                        y,
                        k,
                    )
            },
            (r is Ok && new.0 == old(self).spec_width() && new.1 == old(self).spec_height())
                ==> final(self).spec_pixels() == old(self).spec_pixels(),
    {
        let (new_width, new_height) = new;
        if new_width == 0 || new_height == 0 {
            return Err(ImageError::InvalidResolution);
        }
        let width = self.res.0;
        let height = self.res.1;
        let ghost pix = self.data@;
        if width == new_width && height == new_height {
            assert forall|x: int, y: int, k: int|
                0 <= x < new.0 && 0 <= y < new.1 && 0 <= k < 4 implies #[trigger] chan(
                pix[y * new.0 + x],
                k,
            ) == resampled_chan(pix, width as int, height as int, new.0 as int, new.1 as int, x, y, k) by {
                lemma_resample_same_size(pix, width as int, height as int, x, y, k);
            }
            return Ok(());
        }
        let len = self.data.len();
        let mut out: Vec<Pixel> = Vec::new();
        let mut y: u32 = 0;
        while y < new_height
            invariant
                self.wf(),
                self.data@ == pix,
                len == pix.len(),
                width == self.spec_width(),
                height == self.spec_height(),
                1 <= new_width,
                y <= new_height,
                out@.len() == y as int * new_width as int,
                forall|j: int, k: int|
                    0 <= j < out@.len() && 0 <= k < 4 ==> #[trigger] chan(out@[j], k)
                        == resampled_chan(
                        pix,
                        width as int,
                        height as int,
                        new_width as int,
                        new_height as int,
                        j % (new_width as int),
                        j / (new_width as int),
                        k,
                    ),
            decreases new_height - y,
        {
            let (y0, y1, fy, dy) = axis_coord(y, new_height, height);
            let mut x: u32 = 0;
            while x < new_width
                invariant
                    self.wf(),
                    self.data@ == pix,
                    len == pix.len(),
                    width == self.spec_width(),
                    height == self.spec_height(),
                    y < new_height,
                    x <= new_width,
                    y0 == axis_lo(y as int, new_height as int, height as int),
                    y1 == axis_hi(y as int, new_height as int, height as int),
                    fy == axis_frac(y as int, new_height as int, height as int),
                    dy == axis_den(new_height as int),
                    y0 <= y1 < height,
                    fy < dy,
                    out@.len() == y as int * new_width as int + x,
                    forall|j: int, k: int|
                        0 <= j < out@.len() && 0 <= k < 4 ==> #[trigger] chan(out@[j], k)
                            == resampled_chan(
                            pix,
                            width as int,
                            height as int,
                            new_width as int,
                            new_height as int,
                            j % (new_width as int),
                            j / (new_width as int),
                            k,
                        ),
                decreases new_width - x,
            {
                let (x0, x1, fx, dx) = axis_coord(x, new_width, width);
                proof {
                    lemma_index_in(x0 as int, y0 as int, width as int, height as int);
                    lemma_index_in(x1 as int, y0 as int, width as int, height as int);
                    lemma_index_in(x0 as int, y1 as int, width as int, height as int);
                    lemma_index_in(x1 as int, y1 as int, width as int, height as int);
                }
                let w = width as usize;
                let p00 = self.data[y0 as usize * w + x0 as usize];
                let p10 = self.data[y0 as usize * w + x1 as usize];
                let p01 = self.data[y1 as usize * w + x0 as usize];
                let p11 = self.data[y1 as usize * w + x1 as usize];
                let p = Pixel {
                    r: blend_channel(p00.r, p10.r, p01.r, p11.r, fx, dx, fy, dy),
                    g: blend_channel(p00.g, p10.g, p01.g, p11.g, fx, dx, fy, dy),
                    b: blend_channel(p00.b, p10.b, p01.b, p11.b, fx, dx, fy, dy),
                    a: blend_channel(p00.a, p10.a, p01.a, p11.a, fx, dx, fy, dy),
                };
                proof {
                    let j = y as int * new_width as int + x as int;
                    lemma_fundamental_div_mod_converse(j, new_width as int, y as int, x as int);
                    assert(j % (new_width as int) == x && j / (new_width as int) == y);
                }
                out.push(p);
                x = x + 1;
            }
            proof {
                assert((y + 1) as int * new_width as int == y as int * new_width as int
                    + new_width as int) by (nonlinear_arith);
            }
            y = y + 1;
        }
        proof {
            assert forall|x: int, y: int, k: int|
                0 <= x < new.0 && 0 <= y < new.1 && 0 <= k < 4 implies #[trigger] chan(
                out@[y * new.0 + x],
                k,
            ) == resampled_chan(pix, width as int, height as int, new.0 as int, new.1 as int, x, y, k) by {
                let j = y * new_width as int + x;
                lemma_index_in(x, y, new_width as int, new_height as int);
                assert(y * new_width as int == new_width as int * y) by (nonlinear_arith);
                lemma_fundamental_div_mod_converse(j, new_width as int, y, x);
                assert(chan(out@[j], k) == resampled_chan(pix, width as int, height as int, new_width as int, new_height as int, j % (new_width as int), j / (new_width as int), k));
            }
            assert(new_height as int * new_width as int == new_width as int * new_height as int) by (nonlinear_arith);
        }
        self.data = out;
        self.res = new;
        Ok(())
    }

    /// Declares the samples to be in `color`; no sample changes.
    pub fn set_color(&mut self, color: ColorSpace)
        ensures
            final(self).spec_color() == color,
            final(self).spec_pixels() == old(self).spec_pixels(),
            final(self).spec_width() == old(self).spec_width(),
            final(self).spec_height() == old(self).spec_height(),
    {
        self.color = color;
    }

    /// Multiplies the (R, G, B) of every pixel by the gamut matrix `g`; alpha is
    /// kept and the declared color space is left as it is.
    pub fn apply_gamut(&mut self, g: Gamut)
        requires
            old(self).wf(),
        ensures
            final(self).wf(),
            final(self).spec_color() == old(self).spec_color(),
            final(self).spec_width() == old(self).spec_width(),
            final(self).spec_height() == old(self).spec_height(),
            final(self).spec_pixels().len() == old(self).spec_pixels().len(),
            forall|i: int|
                0 <= i < old(self).spec_pixels().len() ==> final(self).spec_pixels()[i]
                    == transformed(matrix_of(g), old(self).spec_pixels()[i]),
            forall|i: int|
                0 <= i < old(self).spec_pixels().len() ==> (#[trigger] final(self).spec_pixels()[i]).a
                    == old(self).spec_pixels()[i].a,
    {
        let m = gamut_matrix(g);
        proof {
            lemma_gamut_small(g);
        }
        let ghost before = self.data@;
        let n = self.data.len();
        let mut i: usize = 0;
        while i < n
            invariant
                n == before.len(),
                self.data@.len() == n,
                self.res == old(self).res,
                self.color == old(self).color,
                old(self).wf(),
                before == old(self).data@,
                m == matrix_of(g),
                small(m),
                i <= n,
                forall|j: int| 0 <= j < i ==> self.data@[j] == transformed(m, before[j]),
                forall|j: int| i <= j < n ==> self.data@[j] == before[j],
            decreases n - i,
        {
            let p = transform_pixel(&m, self.data[i]);
            self.data.set(i, p);
            i = i + 1;
        }
    }

    /// Runs the transfer curve of stage `step` over the R, G and B of every
    /// pixel; alpha is kept and the declared color space is left as it is.
    pub fn apply_curve<F: Fn(Step, i32) -> i32>(&mut self, step: Step, curve: &F)
        requires
            old(self).wf(),
            forall|v: i32| call_requires(*curve, (step, v)),
        ensures
            final(self).wf(),
            final(self).spec_color() == old(self).spec_color(),
            final(self).spec_width() == old(self).spec_width(),
            final(self).spec_height() == old(self).spec_height(),
            final(self).spec_pixels().len() == old(self).spec_pixels().len(),
            forall|i: int|
                0 <= i < old(self).spec_pixels().len() ==> curve_maps(
                    *curve,
                    step,
                    old(self).spec_pixels()[i],
                    final(self).spec_pixels()[i],
                ),
            forall|i: int|
                0 <= i < old(self).spec_pixels().len() ==> (#[trigger] final(self).spec_pixels()[i]).a
                    == old(self).spec_pixels()[i].a,
    {
        let ghost before = self.data@;
        let n = self.data.len();
        let mut i: usize = 0;
        while i < n
            invariant
                n == before.len(),
                self.data@.len() == n,
                self.res == old(self).res,
                self.color == old(self).color,
                old(self).wf(),
                before == old(self).data@,
                forall|v: i32| call_requires(*curve, (step, v)),
                i <= n,
                forall|j: int| 0 <= j < i ==> curve_maps(*curve, step, before[j], self.data@[j]),
                forall|j: int| i <= j < n ==> self.data@[j] == before[j],
            decreases n - i,
        {
            let p = self.data[i];
            let q = Pixel { r: curve(step, p.r), g: curve(step, p.g), b: curve(step, p.b), a: p.a };
            self.data.set(i, q);
            i = i + 1;
        }
    }

    /// Converts the image in place to `color`: every stage of
    /// `plan(self.color, color)` is run over every pixel in order (transfer
    /// curves through `curve`, gamut matrices here), then the color space is
    /// set. Alpha never changes; a conversion between equal spaces, or to or
    /// from `AsIs`, changes no sample.
    pub fn to_color<F: Fn(Step, i32) -> i32>(&mut self, color: ColorSpace, curve: &F)
        requires
            old(self).wf(),
            forall|s: Step, v: i32| call_requires(*curve, (s, v)),
        ensures
            final(self).wf(),
            final(self).spec_color() == color,
            final(self).spec_width() == old(self).spec_width(),
            final(self).spec_height() == old(self).spec_height(),
            final(self).spec_pixels().len() == old(self).spec_pixels().len(),
            forall|i: int|
                0 <= i < old(self).spec_pixels().len() ==> (#[trigger] final(self).spec_pixels()[i]).a
                    == old(self).spec_pixels()[i].a,
            is_passthrough(old(self).spec_color(), color) ==> final(self).spec_pixels()
                == old(self).spec_pixels(),
            exists|trace: Seq<Seq<Pixel>>|
                #[trigger] runs_plan(*curve, plan(old(self).spec_color(), color), trace)
                    && trace[0] == old(self).spec_pixels() && trace.last()
                    == final(self).spec_pixels(),
    {
        let steps = conversion_plan(self.color, color);
        let ghost before = self.data@;
        let ghost mut trace: Seq<Seq<Pixel>> = seq![before];
        let mut k: usize = 0;
        while k < steps.len()
            invariant
                self.wf(),
                old(self).wf(),
                before == old(self).data@,
                self.res == old(self).res,
                self.color == old(self).color,
                self.data@.len() == before.len(),
                steps@ == plan(old(self).color, color),
                forall|s: Step, v: i32| call_requires(*curve, (s, v)),
                k <= steps@.len(),
                forall|i: int| 0 <= i < before.len() ==> (#[trigger] self.data@[i]).a == before[i].a,
                k == 0 ==> self.data@ == before,
                runs_plan(*curve, steps@.take(k as int), trace),
                trace[0] == before,
                trace.last() == self.data@,
            decreases steps@.len() - k,
        {
            let step = steps[k];
            match step {
                Step::P3ToReference => self.apply_gamut(Gamut::P3ToReference),
                Step::ReferenceToP3 => self.apply_gamut(Gamut::ReferenceToP3),
                _ => self.apply_curve(step, curve),
            }
            proof {
                let t0 = trace;
                trace = trace.push(self.data@);
                let done = steps@.take(k as int);
                let next = steps@.take(k + 1);
                assert forall|j: int| 0 <= j < next.len() implies stage_applied(
                    *curve,
                    #[trigger] next[j],
                    trace[j],
                    trace[j + 1],
                ) by {
                    if j < k {
                        assert(next[j] == done[j]);
                        assert(stage_applied(*curve, done[j], t0[j], t0[j + 1]));
                    } else {
                        assert(next[j] == step);
                        assert(trace[j] == t0.last());
                    }
                }
            }
            k = k + 1;
        }
        proof {
            assert(steps@.take(k as int) =~= steps@);
        }
        self.color = color;
    }
}

/// A position inside a `w` by `h` grid has a row-major index inside it.
proof fn lemma_index_in(x: int, y: int, w: int, h: int)
    requires
        0 <= x < w,
        0 <= y < h,
    ensures
        0 <= y * w <= y * w + x < w * h,
{
    assert(0 <= y * w) by (nonlinear_arith)
        requires
            0 <= y,
            0 <= x < w,
    ;
    assert(y * w + x < w * h) by (nonlinear_arith)
        requires
            0 <= x < w,
            0 <= y < h,
    ;
}

} // verus!
