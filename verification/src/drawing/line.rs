//! Line generators: the aliased Bresenham line and (further down) the
//! antialiased Wu line, plus the path builder that chains segments.
//!
//! Both generators work on integer endpoints and compute in exact integer
//! arithmetic, so every emitted pixel is pinned down by a closed-form
//! specification.

use vstd::prelude::*;
use vstd::math::abs;
use vstd::arithmetic::div_mod::{
    lemma_fundamental_div_mod,
    lemma_fundamental_div_mod_converse,
    lemma_mod_bound,
};

verus! {

use crate::drawing::{Color, Pixel, Shape2D};

/// Absolute run of a segment along the x axis.
pub open spec fn delta_x(a: (i32, i32), b: (i32, i32)) -> int {
    abs(b.0 as int - a.0 as int) as int
}

/// Absolute run of a segment along the y axis.
pub open spec fn delta_y(a: (i32, i32), b: (i32, i32)) -> int {
    abs(b.1 as int - a.1 as int) as int
}

/// Direction of travel along x (+1 or -1; the value for a zero run is unused).
pub open spec fn sign_x(a: (i32, i32), b: (i32, i32)) -> int {
    if b.0 >= a.0 {
        1
    } else {
        -1
    }
}

/// Direction of travel along y.
pub open spec fn sign_y(a: (i32, i32), b: (i32, i32)) -> int {
    if b.1 >= a.1 {
        1
    } else {
        -1
    }
}

/// After `i` steps along the major axis (of absolute length `major`), the
/// number of steps taken along the minor axis (of absolute length `minor`):
/// `i * minor / major` rounded to the nearest integer, halves rounding up.
/// This is the rounding rule the integer error accumulator realizes.
pub open spec fn bres_minor(i: int, major: int, minor: int) -> int {
    if major == 0 {
        0
    } else {
        (2 * i * minor + major) / (2 * major)
    }
}

/// Steps taken along x after `i` iterations.
pub open spec fn bres_cx(a: (i32, i32), b: (i32, i32), i: int) -> int {
    if delta_x(a, b) >= delta_y(a, b) {
        i
    } else {
        bres_minor(i, delta_y(a, b), delta_x(a, b))
    }
}

/// Steps taken along y after `i` iterations.
pub open spec fn bres_cy(a: (i32, i32), b: (i32, i32), i: int) -> int {
    if delta_x(a, b) >= delta_y(a, b) {
        bres_minor(i, delta_x(a, b), delta_y(a, b))
    } else {
        i
    }
}

/// The x coordinate of the `i`-th emitted point.
pub open spec fn bres_x(a: (i32, i32), b: (i32, i32), i: int) -> int {
    a.0 as int + sign_x(a, b) * bres_cx(a, b, i)
}

/// The y coordinate of the `i`-th emitted point.
pub open spec fn bres_y(a: (i32, i32), b: (i32, i32), i: int) -> int {
    a.1 as int + sign_y(a, b) * bres_cy(a, b, i)
}

/// Number of points the Bresenham line emits: `max(|dx|, |dy|) + 1`.
pub open spec fn bres_len(a: (i32, i32), b: (i32, i32)) -> int {
    1 + if delta_x(a, b) >= delta_y(a, b) {
        delta_x(a, b)
    } else {
        delta_y(a, b)
    }
}

/// The full pixel sequence of the Bresenham line from `a` to `b`: the `i`-th
/// pixel sits at the closed-form point, and every pixel carries the color's
/// channels at full opacity (an aliased line has no partial coverage).
pub open spec fn bresenham_pixels(a: (i32, i32), b: (i32, i32), color: Color) -> Seq<Pixel> {
    Seq::new(
        bres_len(a, b) as nat,
        |i: int|
            Pixel {
                x: bres_x(a, b, i) as i32,
                y: bres_y(a, b, i) as i32,
                color: Color { r: color.r, g: color.g, b: color.b, a: 255u8 },
            },
    )
}

/// The signed integer error accumulator value at the head of iteration `i`.
spec fn bres_err(a: (i32, i32), b: (i32, i32), i: int) -> int {
    (bres_cx(a, b, i) + 1) * (-delta_y(a, b)) + (bres_cy(a, b, i) + 1) * delta_x(a, b)
}

/// `s * c` when `s` is a sign carrying `c` onto a known difference.
proof fn lemma_mul_unit(s: int, c: int, d: int)
    by (nonlinear_arith)
    requires
        (s == 1 && c == d) || (s == -1 && c == -d),
    ensures
        s * c == d,
{
}

/// Multiplying out one further step along a signed axis.
proof fn lemma_mul_step(s: int, c: int)
    by (nonlinear_arith)
    ensures
        s * (c + 1) == s * c + s,
{
}

/// A point `base + s * c` with `0 <= c <= delta` stays between `base` and
/// the axis target `base + s * delta`.
proof fn lemma_offset_range(base: int, s: int, c: int, delta: int, target: int)
    by (nonlinear_arith)
    requires
        0 <= c <= delta,
        (s == 1 && target == base + delta) || (s == -1 && target == base - delta),
    ensures
        (base <= base + s * c <= target) || (target <= base + s * c <= base),
{
}

/// The minor-axis step count stays between 0 and `minor`, starts at 0, and
/// reaches `minor` exactly when the major axis is exhausted.
proof fn lemma_minor_bounds(i: int, major: int, minor: int)
    requires
        0 <= i <= major,
        0 <= minor <= major,
    ensures
        0 <= bres_minor(i, major, minor) <= minor,
        i == 0 ==> bres_minor(i, major, minor) == 0,
        i == major ==> bres_minor(i, major, minor) == minor,
{
    if major == 0 {
    } else {
        let m = 2 * major;
        let num = 2 * i * minor + major;
        let q = num / m;
        let rem = num % m;
        lemma_fundamental_div_mod(num, m);
        lemma_mod_bound(num, m);
        assert(num >= 0) by (nonlinear_arith)
            requires
                num == 2 * i * minor + major,
                0 <= i,
                0 <= minor,
                0 < major,
        ;
        assert(num <= 2 * major * minor + major) by (nonlinear_arith)
            requires
                num == 2 * i * minor + major,
                i <= major,
                0 <= minor,
                0 < major,
        ;
        assert(m * q == num - rem);
        assert(q >= 0) by (nonlinear_arith)
            requires
                m * q == num - rem,
                num >= 0,
                rem < m,
                m > 0,
        ;
        assert(q <= minor) by (nonlinear_arith)
            requires
                m * q == num - rem,
                num <= 2 * major * minor + major,
                m == 2 * major,
                rem >= 0,
                major > 0,
                minor >= 0,
        ;
        if i == 0 {
            assert(num == 0 * m + major) by (nonlinear_arith)
                requires
                    num == 2 * i * minor + major,
                    i == 0,
            ;
            lemma_fundamental_div_mod_converse(num, m, 0, major);
        }
        if i == major {
            assert(num == minor * m + major) by (nonlinear_arith)
                requires
                    num == 2 * i * minor + major,
                    i == major,
                    m == 2 * major,
            ;
            lemma_fundamental_div_mod_converse(num, m, minor, major);
        }
    }
}

/// One iteration of the error accumulator: whether each axis steps, phrased
/// over the closed form, together with the accumulator's exact update and a
/// bound that keeps the runtime accumulator small.
proof fn lemma_bres_step(a: (i32, i32), b: (i32, i32), i: int)
    requires
        0 <= i,
        i + 1 < bres_len(a, b),
    ensures
        delta_x(a, b) >= delta_y(a, b) ==> 2 * bres_err(a, b, i) >= -delta_y(a, b),
        delta_x(a, b) < delta_y(a, b) ==> 2 * bres_err(a, b, i) <= delta_x(a, b),
        bres_cx(a, b, i + 1) == bres_cx(a, b, i) + if 2 * bres_err(a, b, i) >= -delta_y(a, b) {
            1int
        } else {
            0int
        },
        bres_cy(a, b, i + 1) == bres_cy(a, b, i) + if 2 * bres_err(a, b, i) <= delta_x(a, b) {
            1int
        } else {
            0int
        },
        bres_err(a, b, i + 1) == bres_err(a, b, i) + (if 2 * bres_err(a, b, i) >= -delta_y(a, b) {
            -delta_y(a, b)
        } else {
            0int
        }) + (if 2 * bres_err(a, b, i) <= delta_x(a, b) {
            delta_x(a, b)
        } else {
            0int
        }),
        -2 * (delta_x(a, b) + delta_y(a, b)) <= bres_err(a, b, i)
            <= 2 * (delta_x(a, b) + delta_y(a, b)),
{
    let dx = delta_x(a, b);
    let dy = delta_y(a, b);
    if dx >= dy {
        let major = dx;
        let minor = dy;
        let m = 2 * major;
        let num = 2 * i * minor + major;
        let q = num / m;
        let rem = num % m;
        assert(major > 0);
        lemma_fundamental_div_mod(num, m);
        lemma_mod_bound(num, m);
        assert(m * q == num - rem);
        assert(bres_cy(a, b, i) == q);
        assert(2 * bres_err(a, b, i) == 3 * major - 2 * minor - rem) by (nonlinear_arith)
            requires
                bres_err(a, b, i) == (i + 1) * (-minor) + (q + 1) * major,
                m * q == num - rem,
                num == 2 * i * minor + major,
                m == 2 * major,
        ;
        // the major axis always steps
        assert(2 * bres_err(a, b, i) >= -minor);
        // the minor axis steps exactly when the remainder passes the threshold
        let num2 = 2 * (i + 1) * minor + major;
        assert(num2 == num + 2 * minor) by (nonlinear_arith)
            requires
                num == 2 * i * minor + major,
                num2 == 2 * (i + 1) * minor + major,
        ;
        if rem + 2 * minor >= m {
            assert(num2 == (q + 1) * m + (rem + 2 * minor - m)) by (nonlinear_arith)
                requires
                    num2 == num + 2 * minor,
                    num == m * q + rem,
            ;
            lemma_fundamental_div_mod_converse(num2, m, q + 1, rem + 2 * minor - m);
            assert(bres_minor(i + 1, major, minor) == q + 1);
            assert(2 * bres_err(a, b, i) <= major);
        } else {
            assert(num2 == q * m + (rem + 2 * minor)) by (nonlinear_arith)
                requires
                    num2 == num + 2 * minor,
                    num == m * q + rem,
            ;
            lemma_fundamental_div_mod_converse(num2, m, q, rem + 2 * minor);
            assert(bres_minor(i + 1, major, minor) == q);
            assert(!(2 * bres_err(a, b, i) <= major));
        }
        let q2 = bres_minor(i + 1, major, minor);
        assert(bres_err(a, b, i + 1) == (i + 2) * (-minor) + (q2 + 1) * major);
        if q2 == q + 1 {
            assert(bres_err(a, b, i + 1) == bres_err(a, b, i) - minor + major) by (nonlinear_arith)
                requires
                    bres_err(a, b, i + 1) == (i + 2) * (-minor) + (q + 2) * major,
                    bres_err(a, b, i) == (i + 1) * (-minor) + (q + 1) * major,
            ;
        } else {
            assert(bres_err(a, b, i + 1) == bres_err(a, b, i) - minor) by (nonlinear_arith)
                requires
                    bres_err(a, b, i + 1) == (i + 2) * (-minor) + (q + 1) * major,
                    bres_err(a, b, i) == (i + 1) * (-minor) + (q + 1) * major,
            ;
        }
    } else {
        let major = dy;
        let minor = dx;
        let m = 2 * major;
        let num = 2 * i * minor + major;
        let q = num / m;
        let rem = num % m;
        assert(major > 0);
        lemma_fundamental_div_mod(num, m);
        lemma_mod_bound(num, m);
        assert(m * q == num - rem);
        assert(bres_cx(a, b, i) == q);
        assert(2 * bres_err(a, b, i) == rem + 2 * minor - 3 * major) by (nonlinear_arith)
            requires
                bres_err(a, b, i) == (q + 1) * (-major) + (i + 1) * minor,
                m * q == num - rem,
                num == 2 * i * minor + major,
                m == 2 * major,
        ;
        // the major axis (here y) always steps
        assert(2 * bres_err(a, b, i) <= minor);
        let num2 = 2 * (i + 1) * minor + major;
        assert(num2 == num + 2 * minor) by (nonlinear_arith)
            requires
                num == 2 * i * minor + major,
                num2 == 2 * (i + 1) * minor + major,
        ;
        if rem + 2 * minor >= m {
            assert(num2 == (q + 1) * m + (rem + 2 * minor - m)) by (nonlinear_arith)
                requires
                    num2 == num + 2 * minor,
                    num == m * q + rem,
            ;
            lemma_fundamental_div_mod_converse(num2, m, q + 1, rem + 2 * minor - m);
            assert(bres_minor(i + 1, major, minor) == q + 1);
            assert(2 * bres_err(a, b, i) >= -major);
        } else {
            assert(num2 == q * m + (rem + 2 * minor)) by (nonlinear_arith)
                requires
                    num2 == num + 2 * minor,
                    num == m * q + rem,
            ;
            lemma_fundamental_div_mod_converse(num2, m, q, rem + 2 * minor);
            assert(bres_minor(i + 1, major, minor) == q);
            assert(!(2 * bres_err(a, b, i) >= -major));
        }
        let q2 = bres_minor(i + 1, major, minor);
        assert(bres_err(a, b, i + 1) == (q2 + 1) * (-major) + (i + 2) * minor);
        if q2 == q + 1 {
            assert(bres_err(a, b, i + 1) == bres_err(a, b, i) - major + minor) by (nonlinear_arith)
                requires
                    bres_err(a, b, i + 1) == (q + 2) * (-major) + (i + 2) * minor,
                    bres_err(a, b, i) == (q + 1) * (-major) + (i + 1) * minor,
            ;
        } else {
            assert(bres_err(a, b, i + 1) == bres_err(a, b, i) + minor) by (nonlinear_arith)
                requires
                    bres_err(a, b, i + 1) == (q + 1) * (-major) + (i + 2) * minor,
                    bres_err(a, b, i) == (q + 1) * (-major) + (i + 1) * minor,
            ;
        }
    }
}

/// The Bresenham line starts at `a`, arrives exactly at `b`, and emits
/// `max(|dx|, |dy|) + 1` points in all.
pub proof fn lemma_bresenham_ends(a: (i32, i32), b: (i32, i32), color: Color)
    ensures
        bresenham_pixels(a, b, color).len() == bres_len(a, b),
        bresenham_pixels(a, b, color).first() == (Pixel {
            x: a.0,
            y: a.1,
            color: Color { r: color.r, g: color.g, b: color.b, a: 255u8 },
        }),
        bresenham_pixels(a, b, color).last() == (Pixel {
            x: b.0,
            y: b.1,
            color: Color { r: color.r, g: color.g, b: color.b, a: 255u8 },
        }),
{
    let dx = delta_x(a, b);
    let dy = delta_y(a, b);
    let n = bres_len(a, b) - 1;
    if dx >= dy {
        lemma_minor_bounds(0, dx, dy);
        lemma_minor_bounds(n, dx, dy);
    } else {
        lemma_minor_bounds(0, dy, dx);
        lemma_minor_bounds(n, dy, dx);
    }
    lemma_mul_unit(sign_x(a, b), 0, 0);
    lemma_mul_unit(sign_y(a, b), 0, 0);
    assert(bres_x(a, b, 0) == a.0 as int);
    assert(bres_y(a, b, 0) == a.1 as int);
    assert(bres_cx(a, b, n) == dx);
    assert(bres_cy(a, b, n) == dy);
    lemma_mul_unit(sign_x(a, b), dx, b.0 as int - a.0 as int);
    lemma_mul_unit(sign_y(a, b), dy, b.1 as int - a.1 as int);
    assert(bres_x(a, b, n) == b.0 as int);
    assert(bres_y(a, b, n) == b.1 as int);
}

/// A restartable-per-segment line algorithm: from two integer endpoints and a
/// color it produces the finite pixel sequence covering the segment.
pub trait Line {
    /// Endpoints this algorithm accepts (a machine limit on magnitudes).
    spec fn spec_point_ok(p: (i32, i32)) -> bool;

    /// The exact pixel sequence for the segment from `a` to `b`.
    spec fn spec_pixels(a: (i32, i32), b: (i32, i32), color: Color) -> Seq<Pixel>;

    /// Produce the segment's pixels, in emission order.
    fn pixels(a: (i32, i32), b: (i32, i32), color: Color) -> (r: Vec<Pixel>)
        requires
            Self::spec_point_ok(a),
            Self::spec_point_ok(b),
        ensures
            r@ == Self::spec_pixels(a, b, color),
    ;
}

/// The classic integer-error-accumulator line: every pixel fully opaque, one
/// pixel per major-axis column, exact arrival at the target.
pub struct BresenhamLine;

impl Line for BresenhamLine {
    open spec fn spec_point_ok(p: (i32, i32)) -> bool {
        true
    }

    open spec fn spec_pixels(a: (i32, i32), b: (i32, i32), color: Color) -> Seq<Pixel> {
        bresenham_pixels(a, b, color)
    }

    fn pixels(a: (i32, i32), b: (i32, i32), color: Color) -> (r: Vec<Pixel>) {
        let x0 = a.0 as i64;
        let y0 = a.1 as i64;
        let x1 = b.0 as i64;
        let y1 = b.1 as i64;
        let dxa: i64 = if x1 >= x0 {
            x1 - x0
        } else {
            x0 - x1
        };
        let dya: i64 = if y1 >= y0 {
            y1 - y0
        } else {
            y0 - y1
        };
        let sx: i64 = if x1 >= x0 {
            1
        } else {
            -1
        };
        let sy: i64 = if y1 >= y0 {
            1
        } else {
            -1
        };
        let n: i64 = if dxa >= dya {
            dxa
        } else {
            dya
        };
        let mut err: i64 = dxa - dya;
        let mut x = x0;
        let mut y = y0;
        let mut out: Vec<Pixel> = Vec::new();
        let mut i: i64 = 0;
        proof {
            if dxa >= dya {
                lemma_minor_bounds(0, dxa as int, dya as int);
            } else {
                lemma_minor_bounds(0, dya as int, dxa as int);
            }
            lemma_mul_unit(sign_x(a, b), 0, 0);
            lemma_mul_unit(sign_y(a, b), 0, 0);
            assert(err == bres_err(a, b, 0)) by (nonlinear_arith)
                requires
                    bres_err(a, b, 0) == (0 + 1) * (-delta_y(a, b)) + (0 + 1) * delta_x(a, b),
                    err == delta_x(a, b) - delta_y(a, b),
            ;
        }
        while i < n
            invariant
                0 <= i <= n,
                n + 1 == bres_len(a, b),
                dxa == delta_x(a, b),
                dya == delta_y(a, b),
                sx == sign_x(a, b),
                sy == sign_y(a, b),
                x == bres_x(a, b, i as int),
                y == bres_y(a, b, i as int),
                err == bres_err(a, b, i as int),
                out@ == bresenham_pixels(a, b, color).take(i as int),
            decreases n - i,
        {
            proof {
                if dxa >= dya {
                    lemma_minor_bounds(i as int, dxa as int, dya as int);
                } else {
                    lemma_minor_bounds(i as int, dya as int, dxa as int);
                }
                lemma_offset_range(
                    a.0 as int,
                    sign_x(a, b),
                    bres_cx(a, b, i as int),
                    delta_x(a, b),
                    b.0 as int,
                );
                lemma_offset_range(
                    a.1 as int,
                    sign_y(a, b),
                    bres_cy(a, b, i as int),
                    delta_y(a, b),
                    b.1 as int,
                );
                lemma_bres_step(a, b, i as int);
            }
            out.push(
                Pixel {
                    x: x as i32,
                    y: y as i32,
                    color: Color { r: color.r, g: color.g, b: color.b, a: 255 },
                },
            );
            proof {
                assert(out@ =~= bresenham_pixels(a, b, color).take(i as int + 1));
            }
            let e2 = 2 * err;
            if e2 >= -dya {
                err = err - dya;
                x = x + sx;
                proof {
                    lemma_mul_step(sign_x(a, b), bres_cx(a, b, i as int));
                }
            }
            if e2 <= dxa {
                err = err + dxa;
                y = y + sy;
                proof {
                    lemma_mul_step(sign_y(a, b), bres_cy(a, b, i as int));
                }
            }
            i = i + 1;
        }
        proof {
            if dxa >= dya {
                lemma_minor_bounds(n as int, dxa as int, dya as int);
            } else {
                lemma_minor_bounds(n as int, dya as int, dxa as int);
            }
            lemma_mul_unit(sign_x(a, b), delta_x(a, b), b.0 as int - a.0 as int);
            lemma_mul_unit(sign_y(a, b), delta_y(a, b), b.1 as int - a.1 as int);
            assert(bres_x(a, b, n as int) == b.0 as int);
            assert(bres_y(a, b, n as int) == b.1 as int);
        }
        out.push(
            Pixel {
                x: x as i32,
                y: y as i32,
                color: Color { r: color.r, g: color.g, b: color.b, a: 255 },
            },
        );
        proof {
            assert(out@ =~= bresenham_pixels(a, b, color));
        }
        out
    }
}

/// The largest coordinate magnitude the Wu generator accepts; keeps the
/// column interpolation products inside 64 bits (a machine limit).
pub open spec fn wu_coord_ok(p: (i32, i32)) -> bool {
    &&& -0x4000_0000 <= p.0 <= 0x4000_0000
    &&& -0x4000_0000 <= p.1 <= 0x4000_0000
}

/// The 8-bit opacity of the fraction `m / d` (with `0 <= m <= d`): full
/// opacity at 1, otherwise `round(256 * m / d)` truncated to a byte. The
/// truncation reproduces the slight wrap-around of near-opaque fractions.
pub open spec fn wu_alpha(m: int, d: int) -> int {
    if m >= d {
        255
    } else if m == 0 {
        0
    } else {
        ((512 * m + d) / (2 * d)) % 256
    }
}

/// The two pixels straddling the ideal line at interior column `p.0 + k` of
/// a left-to-right, shallow segment from `p` to `q`: the vertical intercept
/// is `p.1 + k * dy / dx` exactly, the upper pixel carries the remaining
/// coverage, the lower pixel the fractional part.
pub open spec fn wu_pair(p: (i32, i32), q: (i32, i32), color: Color, k: int) -> Seq<Pixel> {
    let dx = q.0 as int - p.0 as int;
    let dy = q.1 as int - p.1 as int;
    let base = p.1 as int + (k * dy) / dx;
    let m = (k * dy) % dx;
    seq![
        Pixel {
            x: (p.0 as int + k) as i32,
            y: base as i32,
            color: Color { r: color.r, g: color.g, b: color.b, a: wu_alpha(dx - m, dx) as u8 },
        },
        Pixel {
            x: (p.0 as int + k) as i32,
            y: (base + 1) as i32,
            color: Color { r: color.r, g: color.g, b: color.b, a: wu_alpha(m, dx) as u8 },
        },
    ]
}

/// The interior pixels of columns `1 .. n` (two per column, in column order).
pub open spec fn wu_interior_upto(p: (i32, i32), q: (i32, i32), color: Color, n: int) -> Seq<Pixel>
    decreases n,
{
    if n <= 1 {
        Seq::empty()
    } else {
        wu_interior_upto(p, q, color, n - 1) + wu_pair(p, q, color, n - 1)
    }
}

/// The four endpoint-coverage pixels of a left-to-right shallow segment:
/// with integer endpoints the horizontal gap at each end is exactly one
/// half, so each endpoint splits into opacity `round(256/2) = 128` on the
/// line and `0` just below it.
pub open spec fn wu_endpoints(p: (i32, i32), q: (i32, i32), color: Color) -> Seq<Pixel> {
    seq![
        Pixel {
            x: p.0,
            y: p.1,
            color: Color { r: color.r, g: color.g, b: color.b, a: 128u8 },
        },
        Pixel {
            x: p.0,
            y: (p.1 as int + 1) as i32,
            color: Color { r: color.r, g: color.g, b: color.b, a: 0u8 },
        },
        Pixel {
            x: q.0,
            y: q.1,
            color: Color { r: color.r, g: color.g, b: color.b, a: 128u8 },
        },
        Pixel {
            x: q.0,
            y: (q.1 as int + 1) as i32,
            color: Color { r: color.r, g: color.g, b: color.b, a: 0u8 },
        },
    ]
}

/// A left-to-right shallow Wu segment: endpoint pixels first (buffered), then
/// the interior columns; a zero-length segment emits nothing.
pub open spec fn wu_norm_pixels(p: (i32, i32), q: (i32, i32), color: Color) -> Seq<Pixel> {
    let dx = q.0 as int - p.0 as int;
    if dx == 0 {
        Seq::empty()
    } else {
        wu_endpoints(p, q, color) + wu_interior_upto(p, q, color, dx)
    }
}

/// The Wu line for arbitrary endpoints: the steep axis is transposed into
/// the shallow one, the segment is run left to right, and the emitted pixels
/// are transposed back.
pub open spec fn wu_pixels(a: (i32, i32), b: (i32, i32), color: Color) -> Seq<Pixel> {
    let steep = delta_y(a, b) > delta_x(a, b);
    let a2 = if steep {
        (a.1, a.0)
    } else {
        a
    };
    let b2 = if steep {
        (b.1, b.0)
    } else {
        b
    };
    let p = if b2.0 >= a2.0 {
        a2
    } else {
        b2
    };
    let q = if b2.0 >= a2.0 {
        b2
    } else {
        a2
    };
    let norm = wu_norm_pixels(p, q, color);
    if steep {
        Seq::new(norm.len(), |i: int| Pixel { x: norm[i].y, y: norm[i].x, color: norm[i].color })
    } else {
        norm
    }
}

/// Position and length of each interior column pair inside the interior
/// sequence.
proof fn lemma_wu_interior_index(p: (i32, i32), q: (i32, i32), color: Color, n: int, k: int)
    requires
        1 <= k < n,
    ensures
        wu_interior_upto(p, q, color, n).len() == 2 * (n - 1),
        wu_interior_upto(p, q, color, n)[2 * (k - 1)] == wu_pair(p, q, color, k)[0],
        wu_interior_upto(p, q, color, n)[2 * (k - 1) + 1] == wu_pair(p, q, color, k)[1],
    decreases n,
{
    if n - 1 == k {
        if n == 2 {
            assert(wu_interior_upto(p, q, color, 1) == Seq::<Pixel>::empty());
        } else {
            lemma_wu_interior_index(p, q, color, n - 1, k - 1);
        }
    } else {
        lemma_wu_interior_index(p, q, color, n - 1, k);
    }
}

/// The vertical intercept offset stays between 0 and `dy` (or `dy` and 0
/// when the segment falls), so interior pixels stay between the endpoints.
proof fn lemma_wu_fy_bounds(k: int, dx: int, dy: int)
    requires
        0 < dx,
        0 <= k <= dx,
        -dx <= dy <= dx,
    ensures
        dy >= 0 ==> 0 <= (k * dy) / dx <= dy,
        dy < 0 ==> dy <= (k * dy) / dx <= 0,
{
    let t = k * dy;
    let qq = t / dx;
    let rr = t % dx;
    lemma_fundamental_div_mod(t, dx);
    lemma_mod_bound(t, dx);
    if dy >= 0 {
        assert(0 <= t <= dx * dy) by (nonlinear_arith)
            requires
                t == k * dy,
                0 <= k <= dx,
                0 <= dy,
        ;
        assert(qq >= 0) by (nonlinear_arith)
            requires
                dx * qq == t - rr,
                t >= 0,
                rr < dx,
                dx > 0,
        ;
        assert(qq <= dy) by (nonlinear_arith)
            requires
                dx * qq == t - rr,
                t <= dx * dy,
                rr >= 0,
                dx > 0,
        ;
    } else {
        assert(dx * dy <= t <= 0) by (nonlinear_arith)
            requires
                t == k * dy,
                0 <= k <= dx,
                dy < 0,
        ;
        assert(qq <= 0) by (nonlinear_arith)
            requires
                dx * qq == t - rr,
                t <= 0,
                rr >= 0,
                dx > 0,
        ;
        assert(qq >= dy) by (nonlinear_arith)
            requires
                dx * qq == t - rr,
                t >= dx * dy,
                rr < dx,
                dx > 0,
        ;
    }
}

/// For a horizontal or vertical Wu line, the two antialiased pixels at any
/// interior column carry opacities that sum to exactly full coverage (255):
/// the on-line pixel gets 255 and its straddling partner 0.
pub proof fn lemma_wu_axis_aligned_coverage(a: (i32, i32), b: (i32, i32), color: Color, k: int)
    requires
        (a.1 == b.1 && a.0 != b.0) || (a.0 == b.0 && a.1 != b.1),
        1 <= k < if delta_x(a, b) >= delta_y(a, b) {
            delta_x(a, b)
        } else {
            delta_y(a, b)
        },
    ensures
        wu_pixels(a, b, color).len() == 4 + 2 * ((if delta_x(a, b) >= delta_y(a, b) {
            delta_x(a, b)
        } else {
            delta_y(a, b)
        }) - 1),
        wu_pixels(a, b, color)[4 + 2 * (k - 1)].color.a + wu_pixels(a, b, color)[4 + 2 * (k - 1)
            + 1].color.a == 255,
{
    let steep = delta_y(a, b) > delta_x(a, b);
    let a2 = if steep {
        (a.1, a.0)
    } else {
        a
    };
    let b2 = if steep {
        (b.1, b.0)
    } else {
        b
    };
    let p = if b2.0 >= a2.0 {
        a2
    } else {
        b2
    };
    let q = if b2.0 >= a2.0 {
        b2
    } else {
        a2
    };
    let dx = q.0 as int - p.0 as int;
    let dy = q.1 as int - p.1 as int;
    assert(dy == 0);
    assert(dx == if delta_x(a, b) >= delta_y(a, b) {
        delta_x(a, b)
    } else {
        delta_y(a, b)
    });
    lemma_wu_interior_index(p, q, color, dx, k);
    assert(k * 0 == 0) by (nonlinear_arith);
    assert((0int) / dx == 0 && (0int) % dx == 0);
    assert(wu_pair(p, q, color, k)[0].color.a == 255);
    assert(wu_alpha(0, dx) == 0);
    assert(wu_pair(p, q, color, k)[1].color.a == 0);
    let norm = wu_norm_pixels(p, q, color);
    assert(norm.len() == 4 + 2 * (dx - 1));
    assert(norm[4 + 2 * (k - 1)] == wu_pair(p, q, color, k)[0]);
    assert(norm[4 + 2 * (k - 1) + 1] == wu_pair(p, q, color, k)[1]);
}

/// The antialiased Wu line generator.
pub struct WuLine;

impl Line for WuLine {
    open spec fn spec_point_ok(p: (i32, i32)) -> bool {
        wu_coord_ok(p)
    }

    open spec fn spec_pixels(a: (i32, i32), b: (i32, i32), color: Color) -> Seq<Pixel> {
        wu_pixels(a, b, color)
    }

    fn pixels(a: (i32, i32), b: (i32, i32), color: Color) -> (r: Vec<Pixel>) {
        let steep = {
            let adx = if b.0 >= a.0 {
                b.0 as i64 - a.0 as i64
            } else {
                a.0 as i64 - b.0 as i64
            };
            let ady = if b.1 >= a.1 {
                b.1 as i64 - a.1 as i64
            } else {
                a.1 as i64 - b.1 as i64
            };
            ady > adx
        };
        let a2: (i32, i32) = if steep {
            (a.1, a.0)
        } else {
            a
        };
        let b2: (i32, i32) = if steep {
            (b.1, b.0)
        } else {
            b
        };
        let (p, q): ((i32, i32), (i32, i32)) = if b2.0 >= a2.0 {
            (a2, b2)
        } else {
            (b2, a2)
        };
        let dx: i64 = q.0 as i64 - p.0 as i64;
        let dy: i64 = q.1 as i64 - p.1 as i64;
        let mut norm: Vec<Pixel> = Vec::new();
        if dx == 0 {
            proof {
                assert(wu_norm_pixels(p, q, color) =~= Seq::<Pixel>::empty());
            }
        } else {
            norm.push(Pixel { x: p.0, y: p.1, color: Color { r: color.r, g: color.g, b: color.b, a: 128 } });
            norm.push(Pixel { x: p.0, y: p.1 + 1, color: Color { r: color.r, g: color.g, b: color.b, a: 0 } });
            norm.push(Pixel { x: q.0, y: q.1, color: Color { r: color.r, g: color.g, b: color.b, a: 128 } });
            norm.push(Pixel { x: q.0, y: q.1 + 1, color: Color { r: color.r, g: color.g, b: color.b, a: 0 } });
            proof {
                assert(norm@ =~= wu_endpoints(p, q, color) + wu_interior_upto(p, q, color, 1));
            }
            let dxu = dx as u64;
            let mut k: i64 = 1;
            while k < dx
                invariant
                    1 <= k <= dx,
                    0 < dx <= 0x8000_0000,
                    -dx <= dy <= dx,
                    dxu == dx,
                    p.0 as int + dx == q.0 as int,
                    p.1 as int + dy == q.1 as int,
                    wu_coord_ok(p),
                    wu_coord_ok(q),
                    norm@ == wu_endpoints(p, q, color) + wu_interior_upto(p, q, color, k as int),
                decreases dx - k,
            {
                proof {
                    assert((k as int) * (dy as int) <= 0x4000_0000_0000_0000 && (k as int) * (-(
                    dy as int)) <= 0x4000_0000_0000_0000) by (nonlinear_arith)
                        requires
                            0 <= k <= 0x8000_0000,
                            -0x8000_0000 <= dy <= 0x8000_0000,
                    ;
                }
                let (fy, m): (i64, u64) = if dy >= 0 {
                    let t: u64 = (k as u64) * (dy as u64);
                    proof {
                        lemma_fundamental_div_mod(t as int, dxu as int);
                        lemma_mod_bound(t as int, dxu as int);
                        assert(t == k as int * dy) by (nonlinear_arith)
                            requires
                                t == (k as int) * (dy as int),
                        ;
                        lemma_wu_fy_bounds(k as int, dx as int, dy as int);
                    }
                    (p.1 as i64 + (t / dxu) as i64, t % dxu)
                } else {
                    let t: u64 = (k as u64) * ((-dy) as u64);
                    let qm: u64 = (t + dxu - 1) / dxu;
                    proof {
                        lemma_fundamental_div_mod((t + dxu - 1) as int, dxu as int);
                        lemma_mod_bound((t + dxu - 1) as int, dxu as int);
                        assert(qm * dxu == dxu * qm) by (nonlinear_arith);
                        assert(dxu * qm <= t + dxu - 1);
                        assert(dxu * qm >= t) by {
                            let rr = (t + dxu - 1) as int % (dxu as int);
                            assert(dxu * qm == (t + dxu - 1) as int - rr);
                        }
                        assert((k as int) * (dy as int) == -(t as int)) by (nonlinear_arith)
                            requires
                                t == (k as int) * (-(dy as int)),
                        ;
                        assert(-(t as int) == (-(qm as int)) * (dxu as int) + (qm * dxu - t))
                            by (nonlinear_arith)
                            requires
                                true,
                        ;
                        lemma_fundamental_div_mod_converse(
                            -(t as int),
                            dxu as int,
                            -(qm as int),
                            qm * dxu - t,
                        );
                        lemma_wu_fy_bounds(k as int, dx as int, dy as int);
                    }
                    (p.1 as i64 - qm as i64, qm * dxu - t)
                };
                let (hi, lo): (u8, u8) = if m == 0 {
                    (255, 0)
                } else {
                    let h = ((512 * (dxu - m) + dxu) / (2 * dxu)) % 256;
                    let l = ((512 * m + dxu) / (2 * dxu)) % 256;
                    (h as u8, l as u8)
                };
                norm.push(Pixel { x: p.0 + k as i32, y: fy as i32, color: Color { r: color.r, g: color.g, b: color.b, a: hi } });
                norm.push(Pixel { x: p.0 + k as i32, y: fy as i32 + 1, color: Color { r: color.r, g: color.g, b: color.b, a: lo } });
                proof {
                    assert(norm@ =~= wu_endpoints(p, q, color) + wu_interior_upto(
                        p,
                        q,
                        color,
                        k as int + 1,
                    ));
                }
                k = k + 1;
            }
        }
        if steep {
            let mut out: Vec<Pixel> = Vec::new();
            let mut i: usize = 0;
            while i < norm.len()
                invariant
                    0 <= i <= norm.len(),
                    norm@ == wu_norm_pixels(p, q, color),
                    out@.len() == i,
                    forall|j: int|
                        0 <= j < i ==> out@[j] == (Pixel {
                            x: norm@[j].y,
                            y: norm@[j].x,
                            color: norm@[j].color,
                        }),
                decreases norm.len() - i,
            {
                let px = norm[i];
                out.push(Pixel { x: px.y, y: px.x, color: px.color });
                i = i + 1;
            }
            proof {
                assert(out@ =~= wu_pixels(a, b, color));
            }
            out
        } else {
            proof {
                assert(norm@ =~= wu_pixels(a, b, color));
            }
            norm
        }
    }
}

/// The pixels of one path segment: nothing for a recorded move, otherwise
/// the line algorithm's pixels for the point pair.
pub open spec fn path_segment_pixels<L: Line>(
    points: Seq<(i32, i32)>,
    skips: Seq<usize>,
    color: Color,
    i: int,
) -> Seq<Pixel> {
    if skips.contains(i as usize) {
        Seq::empty()
    } else {
        L::spec_pixels(points[i], points[i + 1], color)
    }
}

/// The pixels of the first `n` segments of a path, concatenated in order.
pub open spec fn path_pixels_upto<L: Line>(
    points: Seq<(i32, i32)>,
    skips: Seq<usize>,
    color: Color,
    n: int,
) -> Seq<Pixel>
    decreases n,
{
    if n <= 0 {
        Seq::empty()
    } else {
        path_pixels_upto::<L>(points, skips, color, n - 1) + path_segment_pixels::<L>(
            points,
            skips,
            color,
            n - 1,
        )
    }
}

/// The full pixel sequence of a path: every consecutive point pair that is
/// not a recorded move contributes its segment's pixels, in path order.
pub open spec fn path_pixels<L: Line>(
    points: Seq<(i32, i32)>,
    skips: Seq<usize>,
    color: Color,
) -> Seq<Pixel> {
    path_pixels_upto::<L>(points, skips, color, points.len() - 1)
}

/// Closing a triangle path: `from(A).to(B).to(C).close()` accumulates the
/// points `[A, B, C, A]` with no moves recorded, and its pixels are exactly
/// the three segments `(A,B)`, `(B,C)`, `(C,A)` drawn one after the other.
pub proof fn lemma_triangle_path_pixels<L: Line>(
    a: (i32, i32),
    b: (i32, i32),
    c: (i32, i32),
    color: Color,
)
    ensures
        path_pixels::<L>(seq![a, b, c, a], Seq::empty(), color) == L::spec_pixels(a, b, color)
            + L::spec_pixels(b, c, color) + L::spec_pixels(c, a, color),
{
    let points = seq![a, b, c, a];
    let skips = Seq::<usize>::empty();
    assert(forall|i: int| !#[trigger] skips.contains(i as usize));
    assert(path_pixels_upto::<L>(points, skips, color, 0) == Seq::<Pixel>::empty());
    assert(path_pixels_upto::<L>(points, skips, color, 1) == Seq::<Pixel>::empty()
        + L::spec_pixels(a, b, color));
    assert(path_pixels_upto::<L>(points, skips, color, 2) == path_pixels_upto::<L>(
        points,
        skips,
        color,
        1,
    ) + L::spec_pixels(b, c, color));
    assert(path_pixels_upto::<L>(points, skips, color, 3) == path_pixels_upto::<L>(
        points,
        skips,
        color,
        2,
    ) + L::spec_pixels(c, a, color));
    assert(Seq::<Pixel>::empty() + L::spec_pixels(a, b, color) =~= L::spec_pixels(a, b, color));
}

/// Does a vector of indices contain the given index?
fn contains_idx(v: &Vec<usize>, x: usize) -> (r: bool)
    ensures
        r == v@.contains(x),
{
    let mut i: usize = 0;
    while i < v.len()
        invariant
            0 <= i <= v.len(),
            forall|j: int| 0 <= j < i ==> v@[j] != x,
        decreases v.len() - i,
    {
        if v[i] == x {
            return true;
        }
        i = i + 1;
    }
    false
}

/// A builder that accumulates a multi-subpath polyline and lowers it into
/// pixels with a chosen line algorithm. The verifier takes the place of the
/// type-state check: `to`, `close` and `shape` carry preconditions that
/// reject a path too short to draw, so no pixel can be produced from fewer
/// than two points.
#[verifier::reject_recursive_types(L)]
pub struct LineBuilder<L: Line> {
    /// All accumulated points, across every subpath.
    pub points: Vec<(i32, i32)>,
    /// Indices `i` whose segment `(i, i+1)` is a move between subpaths and
    /// must not produce pixels.
    pub skips: Vec<usize>,
    /// Index of the current subpath's origin, the target of `close`.
    pub subpath_start: usize,
    /// The color handed to every line generator instance.
    pub color: Color,
    pub marker: core::marker::PhantomData<L>,
}

impl<L: Line> LineBuilder<L> {
    /// Every accumulated point is acceptable to the line algorithm, and the
    /// recorded subpath origin exists (once any point does).
    pub open spec fn wf(self) -> bool {
        &&& forall|i: int|
            0 <= i < self.points@.len() ==> #[trigger] L::spec_point_ok(self.points@[i])
        &&& self.points@.len() > 0 ==> (self.subpath_start as int) < self.points@.len()
    }

    /// An empty path drawing opaque white.
    pub fn new() -> (r: LineBuilder<L>)
        ensures
            r.points@ == Seq::<(i32, i32)>::empty(),
            r.skips@ == Seq::<usize>::empty(),
            r.subpath_start == 0,
            r.color == (Color { r: 255u8, g: 255u8, b: 255u8, a: 255u8 }),
            r.wf(),
    {
        LineBuilder {
            points: Vec::new(),
            skips: Vec::new(),
            subpath_start: 0,
            color: Color { r: 255, g: 255, b: 255, a: 255 },
            marker: core::marker::PhantomData,
        }
    }

    /// Attach a color to every segment the builder will draw.
    pub fn color(self, color: Color) -> (r: LineBuilder<L>)
        ensures
            r.points@ == self.points@,
            r.skips@ == self.skips@,
            r.subpath_start == self.subpath_start,
            r.color == color,
            self.wf() ==> r.wf(),
    {
        LineBuilder { color, ..self }
    }

    /// Start a subpath at `p`: the first point of an empty path, or a move
    /// that records the just-finished pair as invisible.
    pub fn from(self, p: (i32, i32)) -> (r: LineBuilder<L>)
        requires
            L::spec_point_ok(p),
            self.wf(),
        ensures
            self.points@.len() == 0 ==> r.points@ == seq![p] && r.skips@ == self.skips@
                && r.subpath_start == 0,
            self.points@.len() > 0 ==> r.points@ == self.points@.push(p) && r.skips@
                == self.skips@.push((self.points@.len() - 1) as usize) && r.subpath_start
                == self.points@.len(),
            r.color == self.color,
            r.wf(),
    {
        let mut points = self.points;
        let mut skips = self.skips;
        let start: usize;
        if points.len() == 0 {
            points.push(p);
            start = 0;
            proof {
                assert(points@ =~= seq![p]);
            }
        } else {
            skips.push(points.len() - 1);
            start = points.len();
            points.push(p);
        }
        LineBuilder { points, skips, subpath_start: start, color: self.color, marker: core::marker::PhantomData }
    }

    /// Append `p`, drawing the segment from the previous point.
    pub fn to(self, p: (i32, i32)) -> (r: LineBuilder<L>)
        requires
            L::spec_point_ok(p),
            self.points@.len() >= 1,
            self.wf(),
        ensures
            r.points@ == self.points@.push(p),
            r.skips@ == self.skips@,
            r.subpath_start == self.subpath_start,
            r.color == self.color,
            r.wf(),
    {
        let mut points = self.points;
        points.push(p);
        LineBuilder { points, ..self }
    }

    /// Close the current subpath: append a copy of its origin, drawing the
    /// closing segment (a zero-length segment if already closed).
    pub fn close(self) -> (r: LineBuilder<L>)
        requires
            self.points@.len() >= 1,
            self.wf(),
        ensures
            r.points@ == self.points@.push(self.points@[self.subpath_start as int]),
            r.skips@ == self.skips@,
            r.subpath_start == self.subpath_start,
            r.color == self.color,
            r.wf(),
    {
        let mut points = self.points;
        let origin = points[self.subpath_start];
        points.push(origin);
        LineBuilder { points, ..self }
    }

    /// Lower the path into pixels: every consecutive pair that is not a
    /// recorded move contributes one segment, in path order. At least two
    /// points must have been accumulated.
    pub fn shape(self) -> (r: Shape2D)
        requires
            self.points@.len() >= 2,
            self.wf(),
        ensures
            r.spec_pixels() == path_pixels::<L>(self.points@, self.skips@, self.color),
    {
        let mut acc: Vec<Pixel> = Vec::new();
        let mut i: usize = 0;
        let last = self.points.len() - 1;
        while i < last
            invariant
                0 <= i <= last,
                last == self.points@.len() - 1,
                self.wf(),
                acc@ == path_pixels_upto::<L>(self.points@, self.skips@, self.color, i as int),
            decreases last - i,
        {
            if !contains_idx(&self.skips, i) {
                let mut seg = L::pixels(self.points[i], self.points[i + 1], self.color);
                acc.append(&mut seg);
            }
            i = i + 1;
        }
        Shape2D::from_pixels(acc)
    }
}

} // verus!
