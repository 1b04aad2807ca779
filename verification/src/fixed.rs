//! Signed fixed-point numbers with 16 fractional bits, and the small vector
//! and matrix types the 3D pipeline computes with. A raw value `q` stands for
//! the real number `q / 65536`.

use vstd::prelude::*;
use vstd::math::abs;
use vstd::arithmetic::div_mod::{
    lemma_fundamental_div_mod,
    lemma_fundamental_div_mod_converse,
    lemma_mod_bound,
};

verus! {

/// The fixed-point scale: one whole unit.
pub const FX_ONE: i64 = 65536;

/// Magnitude bound on every fixed-point value the pipeline handles; results
/// are saturated into this range, mirroring the saturating float-to-integer
/// casts of a floating-point pipeline (a machine limit).
pub const FX_LIMIT: i64 = 0x80_0000_0000;

/// A raw fixed-point value within the pipeline's working range.
pub open spec fn fx_ok(q: i64) -> bool {
    -FX_LIMIT <= q <= FX_LIMIT
}

/// Clamp an unbounded intermediate into the working range.
pub open spec fn spec_fx_sat(q: int) -> int {
    if q > FX_LIMIT as int {
        FX_LIMIT as int
    } else if q < -FX_LIMIT as int {
        -FX_LIMIT as int
    } else {
        q
    }
}

/// Integer division rounded toward zero (the rounding of a float-to-float
/// division followed by a cast), total with a zero divisor mapped to zero.
pub open spec fn spec_trunc_div(n: int, d: int) -> int {
    if d == 0 {
        0
    } else {
        let q = abs(n) as int / abs(d) as int;
        if (n < 0) <==> (d < 0) {
            q
        } else {
            -q
        }
    }
}

/// Division rounded toward zero, for magnitudes that fit comfortably in 128
/// bits.
pub fn trunc_div_i128(n: i128, d: i128) -> (r: i128)
    requires
        d != 0,
        -0x4000_0000_0000_0000_0000_0000_0000_0000 <= n
            <= 0x4000_0000_0000_0000_0000_0000_0000_0000,
        -0x4000_0000_0000_0000_0000_0000_0000_0000 <= d
            <= 0x4000_0000_0000_0000_0000_0000_0000_0000,
    ensures
        r == spec_trunc_div(n as int, d as int),
{
    let nn: u128 = if n >= 0 {
        n as u128
    } else {
        (-n) as u128
    };
    let dd: u128 = if d >= 0 {
        d as u128
    } else {
        (-d) as u128
    };
    let q = nn / dd;
    if (n < 0) == (d < 0) {
        q as i128
    } else {
        -(q as i128)
    }
}

/// Floor division by a positive divisor (the Euclidean quotient).
pub fn floor_div_i128(t: i128, d: i128) -> (r: i128)
    requires
        0 < d <= 0x4000_0000_0000_0000_0000_0000_0000_0000,
        -0x4000_0000_0000_0000_0000_0000_0000_0000 <= t
            <= 0x4000_0000_0000_0000_0000_0000_0000_0000,
    ensures
        r == t as int / d as int,
{
    if t >= 0 {
        (t as u128 / d as u128) as i128
    } else {
        let m = (-t) as u128;
        let du = d as u128;
        let qm = (m + (du - 1)) / du;
        proof {
            lemma_fundamental_div_mod((m + (du - 1)) as int, du as int);
            lemma_mod_bound((m + (du - 1)) as int, du as int);
            let rr = (m + (du - 1)) as int % (du as int);
            assert((du as int) * (qm as int) == (m + (du - 1)) as int - rr);
            assert(t as int == (-(qm as int)) * (du as int) + ((du as int) * (qm as int)
                - m as int)) by (nonlinear_arith)
                requires
                    t == -(m as int),
            ;
            lemma_fundamental_div_mod_converse(
                t as int,
                du as int,
                -(qm as int),
                (du as int) * (qm as int) - m as int,
            );
        }
        -(qm as i128)
    }
}

/// Floor of `t / 65536` (the exact meaning of dropping 16 fraction bits).
pub fn fx_scale_down(t: i128) -> (r: i128)
    requires
        -0x1_0000_0000_0000_0000_0000_0000 <= t <= 0x1_0000_0000_0000_0000_0000_0000,
    ensures
        r == t as int / 65536,
{
    floor_div_i128(t, 65536)
}

/// Integer division rounded to the nearest integer, halves away from zero,
/// total with a zero divisor mapped to zero.
pub open spec fn spec_round_div(n: int, d: int) -> int {
    if d == 0 {
        0
    } else {
        let q = (2 * abs(n) + abs(d)) as int / (2 * abs(d)) as int;
        if (n < 0) <==> (d < 0) {
            q
        } else {
            -q
        }
    }
}

/// Division rounded to nearest, halves away from zero.
pub fn round_div_i128(n: i128, d: i128) -> (r: i128)
    requires
        d != 0,
        -0x1000_0000_0000_0000_0000_0000_0000_0000 <= n <= 0x1000_0000_0000_0000_0000_0000_0000_0000,
        -0x1000_0000_0000_0000_0000_0000_0000_0000 <= d <= 0x1000_0000_0000_0000_0000_0000_0000_0000,
    ensures
        r == spec_round_div(n as int, d as int),
{
    let nn: u128 = if n >= 0 {
        n as u128
    } else {
        (-n) as u128
    };
    let dd: u128 = if d >= 0 {
        d as u128
    } else {
        (-d) as u128
    };
    let q = (2 * nn + dd) / (2 * dd);
    if (n < 0) == (d < 0) {
        q as i128
    } else {
        -(q as i128)
    }
}

/// Bounding a product from bounds on its factors.
pub proof fn lemma_abs_mul_le(a: int, b: int, aa: int, bb: int)
    by (nonlinear_arith)
    requires
        -aa <= a <= aa,
        -bb <= b <= bb,
        0 <= aa,
        0 <= bb,
    ensures
        -(aa * bb) <= a * b <= aa * bb,
        (1 <= a && 1 <= b) ==> 1 <= a * b,
{
}

/// The quotient's magnitude never exceeds the dividend's.
pub proof fn lemma_trunc_div_bound(n: int, d: int)
    requires
        d != 0,
    ensures
        -abs(n) <= spec_trunc_div(n, d) <= abs(n),
{
    let na = abs(n) as int;
    let da = abs(d) as int;
    let q = na / da;
    lemma_fundamental_div_mod(na, da);
    lemma_mod_bound(na, da);
    assert(q >= 0 && q <= na) by (nonlinear_arith)
        requires
            da * q == na - (na % da),
            0 <= na % da < da,
            na >= 0,
            da >= 1,
    ;
}

/// Saturate an unbounded intermediate into the working range, as a runtime
/// value.
pub fn fx_sat(q: i128) -> (r: i64)
    ensures
        r == spec_fx_sat(q as int),
{
    if q > FX_LIMIT as i128 {
        FX_LIMIT
    } else if q < -(FX_LIMIT as i128) {
        -FX_LIMIT
    } else {
        q as i64
    }
}

/// Fixed-point division `a / b` with the quotient rounded toward zero and
/// saturated; a zero divisor yields zero (the pipeline treats such a result
/// as a degenerate coordinate at the origin).
pub open spec fn spec_fx_div(a: int, b: int) -> int {
    if b == 0 {
        0
    } else {
        spec_fx_sat(spec_trunc_div(a * 65536, b))
    }
}

/// Runtime fixed-point division.
pub fn fx_div(a: i64, b: i64) -> (r: i64)
    ensures
        r == spec_fx_div(a as int, b as int),
        fx_ok(r),
{
    if b == 0 {
        0
    } else {
        let t: i128 = (a as i128) * 65536;
        fx_sat(trunc_div_i128(t, b as i128))
    }
}

/// A column vector of four fixed-point coordinates.
#[derive(Clone, Copy, Debug, PartialEq, Eq, Structural)]
pub struct Vec4x {
    pub x: i64,
    pub y: i64,
    pub z: i64,
    pub w: i64,
}

/// A 4x4 fixed-point matrix, stored by columns as the usual math libraries do.
#[derive(Clone, Copy, Debug, PartialEq, Eq, Structural)]
pub struct Mat4x {
    pub x_axis: Vec4x,
    pub y_axis: Vec4x,
    pub z_axis: Vec4x,
    pub w_axis: Vec4x,
}

/// A point in 3D space, fixed point.
#[derive(Clone, Copy, Debug, PartialEq, Eq, Structural)]
pub struct Vec3x {
    pub x: i64,
    pub y: i64,
    pub z: i64,
}

impl Vec3x {
    pub open spec fn wf(self) -> bool {
        fx_ok(self.x) && fx_ok(self.y) && fx_ok(self.z)
    }

    pub fn new(x: i64, y: i64, z: i64) -> (v: Vec3x)
        ensures
            v == (Vec3x { x, y, z }),
    {
        Vec3x { x, y, z }
    }
}

impl Vec4x {
    pub open spec fn wf(self) -> bool {
        fx_ok(self.x) && fx_ok(self.y) && fx_ok(self.z) && fx_ok(self.w)
    }

    pub fn new(x: i64, y: i64, z: i64, w: i64) -> (v: Vec4x)
        ensures
            v == (Vec4x { x, y, z, w }),
    {
        Vec4x { x, y, z, w }
    }
}

impl Mat4x {
    pub open spec fn wf(self) -> bool {
        self.x_axis.wf() && self.y_axis.wf() && self.z_axis.wf() && self.w_axis.wf()
    }

    /// The identity transform.
    pub fn identity() -> (m: Mat4x)
        ensures
            m == Mat4x::spec_identity(),
            m.wf(),
    {
        Mat4x {
            x_axis: Vec4x { x: FX_ONE, y: 0, z: 0, w: 0 },
            y_axis: Vec4x { x: 0, y: FX_ONE, z: 0, w: 0 },
            z_axis: Vec4x { x: 0, y: 0, z: FX_ONE, w: 0 },
            w_axis: Vec4x { x: 0, y: 0, z: 0, w: FX_ONE },
        }
    }

    pub open spec fn spec_identity() -> Mat4x {
        Mat4x {
            x_axis: Vec4x { x: FX_ONE as i64, y: 0, z: 0, w: 0 },
            y_axis: Vec4x { x: 0, y: FX_ONE as i64, z: 0, w: 0 },
            z_axis: Vec4x { x: 0, y: 0, z: FX_ONE as i64, w: 0 },
            w_axis: Vec4x { x: 0, y: 0, z: 0, w: FX_ONE as i64 },
        }
    }
}

/// One component of a matrix-vector product: the four column entries for
/// that component, each scaled by the matching vector coordinate, summed
/// exactly, scaled back down, and saturated.
pub open spec fn spec_dot4(cx: int, cy: int, cz: int, cw: int, v: Vec4x) -> int {
    spec_fx_sat((cx * v.x + cy * v.y + cz * v.z + cw * v.w) / 65536)
}

/// The matrix applied to a homogeneous column vector.
pub open spec fn spec_mat_vec_mul(m: Mat4x, v: Vec4x) -> Vec4x {
    Vec4x {
        x: spec_dot4(m.x_axis.x as int, m.y_axis.x as int, m.z_axis.x as int, m.w_axis.x as int, v) as i64,
        y: spec_dot4(m.x_axis.y as int, m.y_axis.y as int, m.z_axis.y as int, m.w_axis.y as int, v) as i64,
        z: spec_dot4(m.x_axis.z as int, m.y_axis.z as int, m.z_axis.z as int, m.w_axis.z as int, v) as i64,
        w: spec_dot4(m.x_axis.w as int, m.y_axis.w as int, m.z_axis.w as int, m.w_axis.w as int, v) as i64,
    }
}

/// Products of two in-range fixed-point values stay well inside 128 bits.
proof fn lemma_fx_prod_bound(a: int, b: int)
    by (nonlinear_arith)
    requires
        -0x80_0000_0000 <= a <= 0x80_0000_0000,
        -0x80_0000_0000 <= b <= 0x80_0000_0000,
    ensures
        -0x4000_0000_0000_0000_0000 <= a * b <= 0x4000_0000_0000_0000_0000,
{
}

/// One component of the runtime matrix-vector product.
fn dot4(cx: i64, cy: i64, cz: i64, cw: i64, v: Vec4x) -> (r: i64)
    requires
        fx_ok(cx) && fx_ok(cy) && fx_ok(cz) && fx_ok(cw),
        v.wf(),
    ensures
        r == spec_dot4(cx as int, cy as int, cz as int, cw as int, v),
        fx_ok(r),
{
    proof {
        lemma_fx_prod_bound(cx as int, v.x as int);
        lemma_fx_prod_bound(cy as int, v.y as int);
        lemma_fx_prod_bound(cz as int, v.z as int);
        lemma_fx_prod_bound(cw as int, v.w as int);
    }
    let s: i128 = (cx as i128) * (v.x as i128) + (cy as i128) * (v.y as i128) + (cz as i128) * (
    v.z as i128) + (cw as i128) * (v.w as i128);
    fx_sat(fx_scale_down(s))
}

/// Apply the matrix to a homogeneous column vector, saturating each
/// component into the working range.
pub fn mat_vec_mul(m: &Mat4x, v: Vec4x) -> (r: Vec4x)
    requires
        m.wf(),
        v.wf(),
    ensures
        r == spec_mat_vec_mul(*m, v),
        r.wf(),
{
    Vec4x {
        x: dot4(m.x_axis.x, m.y_axis.x, m.z_axis.x, m.w_axis.x, v),
        y: dot4(m.x_axis.y, m.y_axis.y, m.z_axis.y, m.w_axis.y, v),
        z: dot4(m.x_axis.z, m.y_axis.z, m.z_axis.z, m.w_axis.z, v),
        w: dot4(m.x_axis.w, m.y_axis.w, m.z_axis.w, m.w_axis.w, v),
    }
}

} // verus!
