//! The camera model: projection parameters (aperture, focal length, near and
//! far planes, fit strategy), a placement transform, and the derivation of
//! the virtual canvas extent from those parameters and the output size.
//!
//! All parameters are exact rational numbers, so the canvas extent is
//! computed without rounding and its contracts are exact fraction equalities.

use vstd::prelude::*;

verus! {

use crate::fixed::Mat4x;

/// How an aperture aspect ratio is reconciled with the output aspect ratio:
/// `Fill` crops overscan, `Overscan` expands the canvas to cover the output.
#[derive(Clone, Copy, Debug, PartialEq, Eq, Structural)]
pub enum FitStrategy {
    Fill,
    Overscan,
}

/// An exact rational number; the denominator is kept positive.
#[derive(Clone, Copy, Debug, PartialEq, Eq, Structural)]
pub struct Rat {
    pub num: i128,
    pub den: i128,
}

impl Rat {
    pub open spec fn wf(self) -> bool {
        self.den > 0
    }

    /// A positive camera parameter of moderate size (a machine limit that
    /// keeps all canvas arithmetic exact in 128 bits).
    pub open spec fn param_ok(self) -> bool {
        1 <= self.num <= 65536 && 1 <= self.den <= 65536
    }

    pub fn new(num: i128, den: i128) -> (r: Rat)
        requires
            den > 0,
        ensures
            r == (Rat { num, den }),
            r.wf(),
    {
        Rat { num, den }
    }

    /// Whole number as a rational.
    pub fn from_int(num: i128) -> (r: Rat)
        ensures
            r == (Rat { num, den: 1 }),
            r.wf(),
    {
        Rat { num, den: 1 }
    }

    /// `self < other` as fractions.
    pub open spec fn spec_lt(self, other: Rat) -> bool {
        self.num * other.den < other.num * self.den
    }
}

/// Does the aperture have a wider aspect ratio than the output raster?
pub open spec fn aperture_wide(aperture: (u8, u8), dims: (u32, u32)) -> bool {
    (aperture.0 as int) * (dims.1 as int) > (dims.0 as int) * (aperture.1 as int)
}

/// The x and y canvas scale fractions chosen by a fit strategy, each as a
/// (numerator, denominator) pair.
pub open spec fn fit_scales(aperture: (u8, u8), fit: FitStrategy, dims: (u32, u32)) -> (
    (int, int),
    (int, int),
) {
    let apw = aperture.0 as int;
    let aph = aperture.1 as int;
    let ow = dims.0 as int;
    let oh = dims.1 as int;
    let squeeze_x = (((ow * aph, oh * apw)), ((1int, 1int)));
    let squeeze_y = (((1int, 1int)), ((apw * oh, aph * ow)));
    match fit {
        FitStrategy::Fill => if aperture_wide(aperture, dims) {
            squeeze_x
        } else {
            squeeze_y
        },
        FitStrategy::Overscan => if aperture_wide(aperture, dims) {
            squeeze_y
        } else {
            squeeze_x
        },
    }
}

/// Canvas width in camera-space units, as an exact fraction:
/// `aperture_width / focal_length * near * x_scale`.
pub open spec fn canvas_width_frac(
    aperture: (u8, u8),
    focal: Rat,
    near: Rat,
    fit: FitStrategy,
    dims: (u32, u32),
) -> (int, int) {
    let xs = fit_scales(aperture, fit, dims).0;
    ((aperture.0 as int) * focal.den * near.num * xs.0, focal.num * near.den * xs.1)
}

/// Canvas height: `width / aperture_aspect_ratio * y_scale`, exactly.
pub open spec fn canvas_height_frac(
    aperture: (u8, u8),
    focal: Rat,
    near: Rat,
    fit: FitStrategy,
    dims: (u32, u32),
) -> (int, int) {
    let w = canvas_width_frac(aperture, focal, near, fit, dims);
    let ys = fit_scales(aperture, fit, dims).1;
    (w.0 * (aperture.1 as int) * ys.0, w.1 * (aperture.0 as int) * ys.1)
}

/// The virtual canvas extent at the near plane, derived from the camera
/// parameters; both sides are exact rationals.
#[derive(Clone, Copy, Debug, PartialEq, Eq, Structural)]
pub struct Canvas {
    pub width: Rat,
    pub height: Rat,
}

/// The size range canvas fractions stay in, given the parameter limits; the
/// projection matrix construction relies on these bounds.
pub open spec fn canvas_frac_bounds(c: Canvas) -> bool {
    &&& 1 <= c.width.num <= 0x1_0000_0000_0000_0000_0000
    &&& 1 <= c.width.den <= 0x1_0000_0000_0000_0000_0000
    &&& 1 <= c.height.num <= 0x2000_0000_0000_0000_0000_0000
    &&& 1 <= c.height.den <= 0x2000_0000_0000_0000_0000_0000
}

/// `0 <= a * b <= aa * bb` for factors bounded by `aa` and `bb`.
proof fn lemma_mul_bounds(a: int, b: int, aa: int, bb: int)
    by (nonlinear_arith)
    requires
        0 <= a <= aa,
        0 <= b <= bb,
    ensures
        0 <= a * b <= aa * bb,
        a >= 1 && b >= 1 ==> a * b >= 1,
{
}

impl Canvas {
    pub open spec fn wf(self) -> bool {
        self.width.wf() && self.height.wf()
    }

    /// Derive the canvas extent from camera parameters and the output size.
    pub fn from_camera_parameters(
        aperture: (u8, u8),
        focal_length: Rat,
        near: Rat,
        fit_strategy: FitStrategy,
        output_dimensions: (u32, u32),
    ) -> (r: Canvas)
        requires
            aperture.0 >= 1,
            aperture.1 >= 1,
            1 <= output_dimensions.0 <= 16384,
            1 <= output_dimensions.1 <= 16384,
            focal_length.param_ok(),
            near.param_ok(),
        ensures
            (r.width.num as int, r.width.den as int) == canvas_width_frac(
                aperture,
                focal_length,
                near,
                fit_strategy,
                output_dimensions,
            ),
            (r.height.num as int, r.height.den as int) == canvas_height_frac(
                aperture,
                focal_length,
                near,
                fit_strategy,
                output_dimensions,
            ),
            r.wf(),
            canvas_frac_bounds(r),
    {
        let apw = aperture.0 as i128;
        let aph = aperture.1 as i128;
        let ow = output_dimensions.0 as i128;
        let oh = output_dimensions.1 as i128;
        proof {
            lemma_mul_bounds(apw as int, oh as int, 255, 16384);
            lemma_mul_bounds(ow as int, aph as int, 16384, 255);
        }
        let wide = apw * oh > ow * aph;
        let (xsn, xsd, ysn, ysd): (i128, i128, i128, i128) = match fit_strategy {
            FitStrategy::Fill => if wide {
                (ow * aph, oh * apw, 1, 1)
            } else {
                (1, 1, apw * oh, aph * ow)
            },
            FitStrategy::Overscan => if wide {
                (1, 1, apw * oh, aph * ow)
            } else {
                (ow * aph, oh * apw, 1, 1)
            },
        };
        proof {
            lemma_mul_bounds(apw as int, focal_length.den as int, 255, 65536);
            lemma_mul_bounds((apw * focal_length.den) as int, near.num as int, 0x1000000, 65536);
            lemma_mul_bounds(
                (apw * focal_length.den * near.num) as int,
                xsn as int,
                0x10000000000,
                0x400000,
            );
            lemma_mul_bounds(focal_length.num as int, near.den as int, 65536, 65536);
            lemma_mul_bounds((focal_length.num * near.den) as int, xsd as int, 0x100000000, 0x400000);
        }
        let wn = apw * focal_length.den * near.num * xsn;
        let wd = focal_length.num * near.den * xsd;
        proof {
            lemma_mul_bounds(wn as int, aph as int, 0x4000000000000000, 255);
            lemma_mul_bounds((wn * aph) as int, ysn as int, 0x3FC000000000000000, 0x400000);
            lemma_mul_bounds(wd as int, apw as int, 0x40000000000000, 255);
            lemma_mul_bounds((wd * apw) as int, ysd as int, 0x3FC0000000000000, 0x400000);
        }
        let hn = wn * aph * ysn;
        let hd = wd * apw * ysd;
        Canvas { width: Rat { num: wn, den: wd }, height: Rat { num: hn, den: hd } }
    }
}

/// Two fractions are equal as ratios.
pub open spec fn frac_eq(a: (int, int), b: (int, int)) -> bool {
    a.0 * b.1 == b.0 * a.1
}

/// The fit law: under `Fill` the canvas aspect ratio equals the output aspect
/// ratio exactly when the aperture is not wider than the output, and equals
/// the aperture aspect ratio otherwise; under `Overscan` the two cases trade
/// places. (The scale applied to the width cancels out of the ratio, so each
/// strategy hugs one of the two aspect ratios in each regime.)
pub proof fn lemma_canvas_fit(
    aperture: (u8, u8),
    focal: Rat,
    near: Rat,
    fit: FitStrategy,
    dims: (u32, u32),
)
    requires
        aperture.0 >= 1,
        aperture.1 >= 1,
        dims.0 >= 1,
        dims.1 >= 1,
        focal.param_ok(),
        near.param_ok(),
    ensures
        ({
            let w = canvas_width_frac(aperture, focal, near, fit, dims);
            let h = canvas_height_frac(aperture, focal, near, fit, dims);
            let canvas_ar = (w.0 * h.1, w.1 * h.0);
            let out_ar = (dims.0 as int, dims.1 as int);
            let ap_ar = (aperture.0 as int, aperture.1 as int);
            let wide = aperture_wide(aperture, dims);
            &&& (fit == FitStrategy::Fill && !wide) ==> frac_eq(canvas_ar, out_ar)
            &&& (fit == FitStrategy::Overscan && wide) ==> frac_eq(canvas_ar, out_ar)
            &&& (fit == FitStrategy::Fill && wide) ==> frac_eq(canvas_ar, ap_ar)
            &&& (fit == FitStrategy::Overscan && !wide) ==> frac_eq(canvas_ar, ap_ar)
        }),
{
    let apw = aperture.0 as int;
    let aph = aperture.1 as int;
    let ow = dims.0 as int;
    let oh = dims.1 as int;
    let w = canvas_width_frac(aperture, focal, near, fit, dims);
    let h = canvas_height_frac(aperture, focal, near, fit, dims);
    let ys = fit_scales(aperture, fit, dims).1;
    let w0 = w.0;
    let w1 = w.1;
    assert(h.0 == w0 * aph * ys.0);
    assert(h.1 == w1 * apw * ys.1);
    let wide = aperture_wide(aperture, dims);
    if (fit == FitStrategy::Fill && !wide) || (fit == FitStrategy::Overscan && wide) {
        assert(ys.0 == apw * oh);
        assert(ys.1 == aph * ow);
        assert((w0 * h.1) * oh == ow * (w1 * h.0)) by (nonlinear_arith)
            requires
                h.0 == w0 * aph * (apw * oh),
                h.1 == w1 * apw * (aph * ow),
        ;
    } else {
        assert(ys.0 == 1);
        assert(ys.1 == 1);
        assert((w0 * h.1) * aph == apw * (w1 * h.0)) by (nonlinear_arith)
            requires
                h.0 == w0 * aph * 1,
                h.1 == w1 * apw * 1,
        ;
    }
}

/// A scaled canvas side never exceeds the unscaled one when the scales stay
/// at or below one, with every factor positive.
proof fn lemma_frac_scale_le(
    w0n: int,
    w0d: int,
    apw: int,
    aph: int,
    xsn: int,
    xsd: int,
    ysn: int,
    ysd: int,
)
    by (nonlinear_arith)
    requires
        1 <= w0n,
        1 <= w0d,
        1 <= apw,
        1 <= aph,
        1 <= xsn,
        1 <= xsd,
        1 <= ysn,
        1 <= ysd,
        xsn <= xsd,
        ysn <= ysd,
    ensures
        (w0n * xsn) * w0d <= w0n * (w0d * xsd),
        (w0n * xsn * aph * ysn) * (w0d * apw) <= (w0n * aph) * (w0d * xsd * apw * ysd),
{
}

/// The mirrored direction: scales at or above one expand both sides.
proof fn lemma_frac_scale_ge(
    w0n: int,
    w0d: int,
    apw: int,
    aph: int,
    xsn: int,
    xsd: int,
    ysn: int,
    ysd: int,
)
    by (nonlinear_arith)
    requires
        1 <= w0n,
        1 <= w0d,
        1 <= apw,
        1 <= aph,
        1 <= xsn,
        1 <= xsd,
        1 <= ysn,
        1 <= ysd,
        xsn >= xsd,
        ysn >= ysd,
    ensures
        (w0n * xsn) * w0d >= w0n * (w0d * xsd),
        (w0n * xsn * aph * ysn) * (w0d * apw) >= (w0n * aph) * (w0d * xsd * apw * ysd),
{
}

/// The containment half of the fit law: `Fill` crops, so the canvas never
/// exceeds the unscaled aperture extent (`aperture_width / focal * near`
/// wide, divided by the aperture ratio high) on either side; `Overscan`
/// expands, so the canvas covers at least that extent on both sides. Both
/// statements are exact fraction inequalities.
pub proof fn lemma_canvas_containment(
    aperture: (u8, u8),
    focal: Rat,
    near: Rat,
    fit: FitStrategy,
    dims: (u32, u32),
)
    requires
        aperture.0 >= 1,
        aperture.1 >= 1,
        dims.0 >= 1,
        dims.1 >= 1,
        focal.param_ok(),
        near.param_ok(),
    ensures
        ({
            let w = canvas_width_frac(aperture, focal, near, fit, dims);
            let h = canvas_height_frac(aperture, focal, near, fit, dims);
            let w0 = ((aperture.0 as int) * focal.den * near.num, focal.num * near.den);
            let h0 = (w0.0 * (aperture.1 as int), w0.1 * (aperture.0 as int));
            &&& fit == FitStrategy::Fill ==> w.0 * w0.1 <= w0.0 * w.1 && h.0 * h0.1 <= h0.0 * h.1
            &&& fit == FitStrategy::Overscan ==> w.0 * w0.1 >= w0.0 * w.1 && h.0 * h0.1 >= h0.0
                * h.1
        }),
{
    let apw = aperture.0 as int;
    let aph = aperture.1 as int;
    let ow = dims.0 as int;
    let oh = dims.1 as int;
    let xs = fit_scales(aperture, fit, dims).0;
    let ys = fit_scales(aperture, fit, dims).1;
    let w0n = apw * focal.den * near.num;
    let w0d = focal.num * near.den;
    assert(w0n >= 1) by (nonlinear_arith)
        requires
            apw >= 1,
            focal.den >= 1,
            near.num >= 1,
            w0n == apw * focal.den * near.num,
    ;
    assert(w0d >= 1) by (nonlinear_arith)
        requires
            focal.num >= 1,
            near.den >= 1,
            w0d == focal.num * near.den,
    ;
    assert(ow * aph >= 1 && oh * apw >= 1 && apw * oh >= 1 && aph * ow >= 1) by (nonlinear_arith)
        requires
            apw >= 1,
            aph >= 1,
            ow >= 1,
            oh >= 1,
    ;
    assert(oh * apw == apw * oh && ow * aph == aph * ow) by (nonlinear_arith);
    let wide = aperture_wide(aperture, dims);
    if (fit == FitStrategy::Fill && wide) || (fit == FitStrategy::Overscan && !wide) {
        // the x scale is output ratio over aperture ratio, the y scale is one
        assert(xs.0 == ow * aph && xs.1 == oh * apw && ys.0 == 1 && ys.1 == 1);
    } else {
        assert(xs.0 == 1 && xs.1 == 1 && ys.0 == apw * oh && ys.1 == aph * ow);
    }
    if fit == FitStrategy::Fill {
        assert(xs.0 <= xs.1 && ys.0 <= ys.1);
        lemma_frac_scale_le(w0n, w0d, apw, aph, xs.0, xs.1, ys.0, ys.1);
    } else {
        assert(xs.0 >= xs.1 && ys.0 >= ys.1);
        lemma_frac_scale_ge(w0n, w0d, apw, aph, xs.0, xs.1, ys.0, ys.1);
    }
}

/// Camera parameters: physical aperture, focal length, near and far planes,
/// fit strategy, and the world-to-camera placement transform.
#[derive(Clone, Copy, Debug)]
pub struct Camera {
    pub aperture: (u8, u8),
    pub focal_length: Rat,
    pub near: Rat,
    pub far: Rat,
    pub fit_strategy: FitStrategy,
    pub transform: Mat4x,
}

impl Camera {
    /// The camera invariants: positive focal length, `0 < near < far`, a
    /// nondegenerate aperture, and a well-formed placement.
    pub open spec fn wf(self) -> bool {
        &&& self.aperture.0 >= 1
        &&& self.aperture.1 >= 1
        &&& self.focal_length.param_ok()
        &&& self.near.param_ok()
        &&& self.far.param_ok()
        &&& self.near.spec_lt(self.far)
        &&& self.transform.wf()
    }

    /// The canvas extent for this camera at the given output size.
    pub fn canvas(&self, output_dimensions: (u32, u32)) -> (r: Canvas)
        requires
            self.wf(),
            1 <= output_dimensions.0 <= 16384,
            1 <= output_dimensions.1 <= 16384,
        ensures
            (r.width.num as int, r.width.den as int) == canvas_width_frac(
                self.aperture,
                self.focal_length,
                self.near,
                self.fit_strategy,
                output_dimensions,
            ),
            (r.height.num as int, r.height.den as int) == canvas_height_frac(
                self.aperture,
                self.focal_length,
                self.near,
                self.fit_strategy,
                output_dimensions,
            ),
            r.wf(),
            canvas_frac_bounds(r),
    {
        Canvas::from_camera_parameters(
            self.aperture,
            self.focal_length,
            self.near,
            self.fit_strategy,
            output_dimensions,
        )
    }
}

impl Default for Camera {
    /// A 35mm-style default: 35x24 aperture, focal length 10, near plane
    /// 1/10, far plane 10, overscan fit, identity placement.
    fn default() -> (c: Camera)
        ensures
            c.aperture == (35u8, 24u8),
            c.focal_length == (Rat { num: 10, den: 1 }),
            c.near == (Rat { num: 1, den: 10 }),
            c.far == (Rat { num: 10, den: 1 }),
            c.fit_strategy == FitStrategy::Overscan,
            c.transform == Mat4x::spec_identity(),
            c.wf(),
    {
        Camera {
            aperture: (35, 24),
            focal_length: Rat { num: 10, den: 1 },
            near: Rat { num: 1, den: 10 },
            far: Rat { num: 10, den: 1 },
            fit_strategy: FitStrategy::Overscan,
            transform: Mat4x::identity(),
        }
    }
}

} // verus!
