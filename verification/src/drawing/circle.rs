//! The midpoint circle generator: a lazy, one-shot pixel stream using 8-way
//! symmetry and the classic integer decision variable. Every emitted pixel
//! provably lies on the one-pixel-wide ring around the requested radius.

use vstd::prelude::*;

verus! {

use crate::drawing::{Color, Pixel};

/// A pixel lies on the circle ring: the rounded distance from the center is
/// within one of the radius. Written in squared form to stay in integers:
/// `round(sqrt(n)) <= r + 1` is `4n < (2r+3)^2`, and `round(sqrt(n)) >= r - 1`
/// is `(2r-3)^2 <= 4n` (trivially true for radii below 2).
pub open spec fn in_ring(center: (i32, i32), r: int, px: Pixel) -> bool {
    let ddx = px.x as int - center.0 as int;
    let ddy = px.y as int - center.1 as int;
    let n4 = 4 * (ddx * ddx + ddy * ddy);
    &&& n4 < (2 * r + 3) * (2 * r + 3)
    &&& (r <= 1 || (2 * r - 3) * (2 * r - 3) <= n4)
}

/// The eight symmetric candidate pixels around the center for octant point
/// `(x, y)`, in the order the generator computes them.
pub open spec fn spec_put8(center: (i32, i32), color: Color, x: int, y: int) -> Seq<Pixel> {
    let cx = center.0 as int;
    let cy = center.1 as int;
    seq![
        Pixel { x: (cx + x) as i32, y: (cy + y) as i32, color },
        Pixel { x: (cx - x) as i32, y: (cy + y) as i32, color },
        Pixel { x: (cx + x) as i32, y: (cy - y) as i32, color },
        Pixel { x: (cx - x) as i32, y: (cy - y) as i32, color },
        Pixel { x: (cx + y) as i32, y: (cy + x) as i32, color },
        Pixel { x: (cx - y) as i32, y: (cy + x) as i32, color },
        Pixel { x: (cx + y) as i32, y: (cy - x) as i32, color },
        Pixel { x: (cx - y) as i32, y: (cy - x) as i32, color },
    ]
}

/// The generator's invariant, over its raw state: bounded inputs, the closed
/// form of the decision variable, its two linear bounds while the octant is
/// unfinished, and ring membership of everything already buffered.
pub open spec fn ring_state_ok(
    center: (i32, i32),
    r: int,
    x: int,
    y: int,
    d: int,
    buffer: Seq<Pixel>,
) -> bool {
    &&& 0 <= r <= 0x1000_0000
    &&& -0x4000_0000 <= center.0 as int <= 0x4000_0000
    &&& -0x4000_0000 <= center.1 as int <= 0x4000_0000
    &&& 0 <= x <= y + 2
    &&& -1 <= y <= r
    &&& d == 2 * x * x + 2 * y * y - 2 * r * r + 8 * x - 6 * y + 3 + 4 * r
    &&& (y >= x && r >= 1) ==> d >= 8 * x - 6 * y - 2 * r + 8
    &&& (y >= x) ==> d <= 8 * x - 6 * y + 10 * r + 7
    &&& forall|i: int| 0 <= i < buffer.len() ==> in_ring(center, r, #[trigger] buffer[i])
}

/// The measure that shrinks as the generator runs: first the remaining
/// octant span, then the buffered pixels.
pub open spec fn ring_gap(x: int, y: int) -> int {
    if y >= x {
        y - x + 1
    } else {
        0
    }
}

/// Everything the generator will still emit from the given state: buffered
/// pixels first (in reverse buffer order), then, per remaining octant step,
/// the first symmetric pixel immediately and the other seven buffered.
pub open spec fn circle_stream(
    center: (i32, i32),
    color: Color,
    r: int,
    x: int,
    y: int,
    d: int,
    buffer: Seq<Pixel>,
) -> Seq<Pixel>
    decreases ring_gap(x, y), buffer.len(),
{
    if buffer.len() > 0 {
        seq![buffer.last()] + circle_stream(center, color, r, x, y, d, buffer.drop_last())
    } else if y < x {
        Seq::empty()
    } else {
        let pts = spec_put8(center, color, x, y);
        let x2 = x + 1;
        let y2 = if d > 0 {
            y - 1
        } else {
            y
        };
        let d2 = if d > 0 {
            d + 4 * (x2 - y2) + 10
        } else {
            d + 4 * x2 + 6
        };
        seq![pts[0]] + circle_stream(center, color, r, x2, y2, d2, pts.subrange(1, 8))
    }
}

/// The eight symmetric pixels of an emitting octant step all lie on the ring.
proof fn lemma_put8_in_ring(center: (i32, i32), color: Color, r: int, x: int, y: int, d: int)
    requires
        ring_state_ok(center, r, x, y, d, Seq::empty()),
        y >= x,
    ensures
        forall|i: int|
            0 <= i < 8 ==> in_ring(center, r, #[trigger] spec_put8(center, color, x, y)[i]),
{
    let e4 = 4 * (x * x + y * y - r * r);
    assert(e4 == 2 * d - 16 * x + 12 * y - 6 - 8 * r) by (nonlinear_arith)
        requires
            d == 2 * x * x + 2 * y * y - 2 * r * r + 8 * x - 6 * y + 3 + 4 * r,
            e4 == 4 * (x * x + y * y - r * r),
    ;
    if r >= 1 {
        assert(d >= 8 * x - 6 * y - 2 * r + 8);
        assert(e4 >= -12 * r + 10);
    } else {
        // radius zero: the octant point is (0, 0) and the distance is zero
        assert(y == 0 && x == 0);
        assert(e4 == 0);
    }
    assert(d <= 8 * x - 6 * y + 10 * r + 7);
    assert(e4 <= 12 * r + 8);
    let n4 = e4 + 4 * (r * r);
    assert((2 * r + 3) * (2 * r + 3) == 4 * (r * r) + 12 * r + 9) by (nonlinear_arith);
    assert((2 * r - 3) * (2 * r - 3) == 4 * (r * r) - 12 * r + 9) by (nonlinear_arith);
    assert(n4 < (2 * r + 3) * (2 * r + 3));
    assert(r >= 2 ==> (2 * r - 3) * (2 * r - 3) <= n4);
    let cx = center.0 as int;
    let cy = center.1 as int;
    assert forall|i: int| 0 <= i < 8 implies in_ring(
        center,
        r,
        #[trigger] spec_put8(center, color, x, y)[i],
    ) by {
        let px = spec_put8(center, color, x, y)[i];
        let ddx = px.x as int - cx;
        let ddy = px.y as int - cy;
        assert(ddx == x || ddx == -x || ddx == y || ddx == -y);
        assert((-x) * (-x) == x * x && (-y) * (-y) == y * y) by (nonlinear_arith);
        assert(ddx * ddx + ddy * ddy == x * x + y * y);
        assert(4 * (ddx * ddx + ddy * ddy) == n4);
    }
}

/// One octant advance preserves the generator invariant.
proof fn lemma_ring_step(center: (i32, i32), r: int, x: int, y: int, d: int)
    requires
        ring_state_ok(center, r, x, y, d, Seq::empty()),
        y >= x,
    ensures
        ({
            let x2 = x + 1;
            let y2 = if d > 0 {
                y - 1
            } else {
                y
            };
            let d2 = if d > 0 {
                d + 4 * (x2 - y2) + 10
            } else {
                d + 4 * x2 + 6
            };
            ring_state_ok(center, r, x2, y2, d2, Seq::empty())
        }),
{
    let x2 = x + 1;
    let y2 = if d > 0 {
        y - 1
    } else {
        y
    };
    let d2 = if d > 0 {
        d + 4 * (x2 - y2) + 10
    } else {
        d + 4 * x2 + 6
    };
    assert(d2 == 2 * x2 * x2 + 2 * y2 * y2 - 2 * r * r + 8 * x2 - 6 * y2 + 3 + 4 * r)
        by (nonlinear_arith)
        requires
            d == 2 * x * x + 2 * y * y - 2 * r * r + 8 * x - 6 * y + 3 + 4 * r,
            x2 == x + 1,
            y2 == if d > 0 {
                y - 1
            } else {
                y
            },
            d2 == if d > 0 {
                d + 4 * (x2 - y2) + 10
            } else {
                d + 4 * x2 + 6
            },
    ;
}

/// Every pixel the generator will emit from a well-formed state lies on the
/// ring around the requested radius (the heart of the circle contract).
pub proof fn lemma_circle_stream_in_ring(
    center: (i32, i32),
    color: Color,
    r: int,
    x: int,
    y: int,
    d: int,
    buffer: Seq<Pixel>,
)
    requires
        ring_state_ok(center, r, x, y, d, buffer),
    ensures
        forall|i: int|
            0 <= i < circle_stream(center, color, r, x, y, d, buffer).len() ==> in_ring(
                center,
                r,
                #[trigger] circle_stream(center, color, r, x, y, d, buffer)[i],
            ),
    decreases ring_gap(x, y), buffer.len(),
{
    let s = circle_stream(center, color, r, x, y, d, buffer);
    if buffer.len() > 0 {
        assert(ring_state_ok(center, r, x, y, d, buffer.drop_last()));
        lemma_circle_stream_in_ring(center, color, r, x, y, d, buffer.drop_last());
        assert(in_ring(center, r, buffer.last()));
        let sub = circle_stream(center, color, r, x, y, d, buffer.drop_last());
        assert forall|i: int| 0 <= i < s.len() implies in_ring(center, r, #[trigger] s[i]) by {
            if i == 0 {
                assert(s[0] == buffer.last());
            } else {
                assert(s[i] == sub[i - 1]);
                assert(in_ring(center, r, sub[i - 1]));
            }
        }
    } else if y < x {
    } else {
        assert(ring_state_ok(center, r, x, y, d, Seq::empty()));
        lemma_put8_in_ring(center, color, r, x, y, d);
        lemma_ring_step(center, r, x, y, d);
        let pts = spec_put8(center, color, x, y);
        let x2 = x + 1;
        let y2 = if d > 0 {
            y - 1
        } else {
            y
        };
        let d2 = if d > 0 {
            d + 4 * (x2 - y2) + 10
        } else {
            d + 4 * x2 + 6
        };
        assert(forall|i: int|
            0 <= i < pts.subrange(1, 8).len() ==> in_ring(
                center,
                r,
                #[trigger] pts.subrange(1, 8)[i],
            ));
        assert(ring_state_ok(center, r, x2, y2, d2, pts.subrange(1, 8)));
        lemma_circle_stream_in_ring(center, color, r, x2, y2, d2, pts.subrange(1, 8));
        assert(in_ring(center, r, pts[0]));
        let sub = circle_stream(center, color, r, x2, y2, d2, pts.subrange(1, 8));
        assert forall|i: int| 0 <= i < s.len() implies in_ring(center, r, #[trigger] s[i]) by {
            if i == 0 {
                assert(s[0] == pts[0]);
            } else {
                assert(s[i] == sub[i - 1]);
                assert(in_ring(center, r, sub[i - 1]));
            }
        }
    }
}

/// A lazy circle generator: built once from center, radius and color, it
/// emits its boundary pixels one at a time and cannot be restarted.
pub trait Circle: Sized {
    /// The generator invariant, established by `new` and preserved by every
    /// step.
    spec fn wf(self) -> bool;

    /// The pixels the generator will still emit, in emission order.
    spec fn spec_remaining(self) -> Seq<Pixel>;

    /// The center the generator was built around.
    spec fn spec_center(self) -> (i32, i32);

    /// The radius the generator was built with.
    spec fn spec_radius(self) -> int;

    /// The color the generator stamps on every pixel.
    spec fn spec_color(self) -> Color;

    /// Inputs the constructor accepts.
    spec fn spec_new_ok(c: (i32, i32), r: i32) -> bool;

    /// Everything a fresh generator will emit.
    spec fn spec_full(c: (i32, i32), r: i32, color: Color) -> Seq<Pixel>;

    /// A fresh generator for the circle around `c` with radius `r`.
    fn new(c: (i32, i32), r: i32, color: Color) -> (s: Self)
        requires
            Self::spec_new_ok(c, r),
        ensures
            s.wf(),
            s.spec_center() == c,
            s.spec_radius() == r as int,
            s.spec_color() == color,
            s.spec_remaining() == Self::spec_full(c, r, color),
    ;

    /// Emit the next pixel of the stream, or report exhaustion. Center,
    /// radius and color never change; only the stream advances.
    fn next(&mut self) -> (r: Option<Pixel>)
        requires
            old(self).wf(),
        ensures
            final(self).wf(),
            final(self).spec_center() == old(self).spec_center(),
            final(self).spec_radius() == old(self).spec_radius(),
            final(self).spec_color() == old(self).spec_color(),
            match r {
                Some(px) => old(self).spec_remaining() == seq![px]
                    + final(self).spec_remaining(),
                None => old(self).spec_remaining() == Seq::<Pixel>::empty() && *final(self)
                    == *old(self),
            },
    ;
}

/// The midpoint circle generator: a restartable-never, finite, single-pass
/// pixel stream. Center, radius and color are fixed at construction.
pub struct BresenhamCircle {
    pub center: (i32, i32),
    pub color: Color,
    pub x: i64,
    pub y: i64,
    pub d: i64,
    pub buffer: Vec<Pixel>,
    pub radius: Ghost<int>,
}

impl Circle for BresenhamCircle {
    /// The generator invariant.
    open spec fn wf(self) -> bool {
        ring_state_ok(self.center, self.radius@, self.x as int, self.y as int, self.d as int, self.buffer@)
    }

    /// What the generator will emit from here on.
    open spec fn spec_remaining(self) -> Seq<Pixel> {
        circle_stream(
            self.center,
            self.color,
            self.radius@,
            self.x as int,
            self.y as int,
            self.d as int,
            self.buffer@,
        )
    }

    open spec fn spec_center(self) -> (i32, i32) {
        self.center
    }

    open spec fn spec_radius(self) -> int {
        self.radius@
    }

    open spec fn spec_color(self) -> Color {
        self.color
    }

    /// The bounds on center and radius are machine limits that keep the
    /// decision variable inside 64 bits.
    open spec fn spec_new_ok(c: (i32, i32), r: i32) -> bool {
        &&& 0 <= r <= 0x1000_0000
        &&& -0x4000_0000 <= c.0 <= 0x4000_0000
        &&& -0x4000_0000 <= c.1 <= 0x4000_0000
    }

    /// The stream of a fresh midpoint generator: all boundary pixels from
    /// the starting octant state `(x = 0, y = r, d = 3 - 2r)`.
    open spec fn spec_full(c: (i32, i32), r: i32, color: Color) -> Seq<Pixel> {
        circle_stream(c, color, r as int, 0, r as int, 3 - 2 * (r as int), Seq::empty())
    }

    fn new(c: (i32, i32), r: i32, color: Color) -> (s: BresenhamCircle) {
        let s = BresenhamCircle {
            center: c,
            color,
            x: 0,
            y: r as i64,
            d: 3 - 2 * (r as i64),
            buffer: Vec::new(),
            radius: Ghost(r as int),
        };
        proof {
            let ri = r as int;
            assert(s.d == 2 * 0 * 0 + 2 * ri * ri - 2 * ri * ri + 8 * 0 - 6 * ri + 3 + 4 * ri)
                by (nonlinear_arith)
                requires
                    s.d == 3 - 2 * ri,
            ;
        }
        s
    }

    /// Emit the next pixel: pop a buffered symmetric point if any, stop once
    /// the octant is exhausted, otherwise compute the eight symmetric points
    /// of the current step, buffer seven, advance, and emit the first.
    fn next(&mut self) -> (r: Option<Pixel>) {
        if self.buffer.len() > 0 {
            let px = self.buffer.pop().unwrap();
            Some(px)
        } else if self.y < self.x {
            None
        } else {
            let cx = self.center.0;
            let cy = self.center.1;
            let x = self.x as i32;
            let y = self.y as i32;
            let color = self.color;
            let mut pts: Vec<Pixel> = Vec::new();
            pts.push(Pixel { x: cx + x, y: cy + y, color });
            pts.push(Pixel { x: cx - x, y: cy + y, color });
            pts.push(Pixel { x: cx + x, y: cy - y, color });
            pts.push(Pixel { x: cx - x, y: cy - y, color });
            pts.push(Pixel { x: cx + y, y: cy + x, color });
            pts.push(Pixel { x: cx - y, y: cy + x, color });
            pts.push(Pixel { x: cx + y, y: cy - x, color });
            pts.push(Pixel { x: cx - y, y: cy - x, color });
            proof {
                assert(pts@ =~= spec_put8(
                    self.center,
                    color,
                    self.x as int,
                    self.y as int,
                ));
            }
            let ghost x0 = self.x as int;
            let ghost y0 = self.y as int;
            let ghost d0 = self.d as int;
            proof {
                lemma_ring_step(self.center, self.radius@, x0, y0, d0);
                lemma_put8_in_ring(self.center, color, self.radius@, x0, y0, d0);
                let r = self.radius@;
                assert(-0x1000_0000_0000_0000 <= d0 <= 0x1000_0000_0000_0000) by (nonlinear_arith)
                    requires
                        d0 == 2 * x0 * x0 + 2 * y0 * y0 - 2 * r * r + 8 * x0 - 6 * y0 + 3 + 4 * r,
                        0 <= x0 <= y0 + 2,
                        -1 <= y0 <= r,
                        0 <= r <= 0x1000_0000,
                ;
            }
            self.buffer.push(pts[1]);
            self.buffer.push(pts[2]);
            self.buffer.push(pts[3]);
            self.buffer.push(pts[4]);
            self.buffer.push(pts[5]);
            self.buffer.push(pts[6]);
            self.buffer.push(pts[7]);
            self.x = self.x + 1;
            if self.d > 0 {
                self.y = self.y - 1;
                self.d = self.d + 4 * (self.x - self.y) + 10;
            } else {
                self.d = self.d + 4 * self.x + 6;
            }
            proof {
                assert(self.buffer@ =~= spec_put8(self.center, color, x0, y0).subrange(1, 8));
            }
            Some(pts[0])
        }
    }

}

impl BresenhamCircle {
    /// Drain the generator into a vector: the whole circle, in emission
    /// order.
    pub fn pixels(self) -> (out: Vec<Pixel>)
        requires
            self.wf(),
        ensures
            out@ == self.spec_remaining(),
    {
        let mut gen = self;
        let ghost full = gen.spec_remaining();
        let mut out: Vec<Pixel> = Vec::new();
        loop
            invariant
                gen.wf(),
                out@ + gen.spec_remaining() == full,
            ensures
                out@ == full,
            decreases gen.spec_remaining().len(),
        {
            match gen.next() {
                Some(px) => {
                    out.push(px);
                    proof {
                        assert(out@ + gen.spec_remaining() =~= full);
                    }
                },
                None => {
                    proof {
                        assert(out@ + gen.spec_remaining() =~= out@);
                    }
                    break ;
                },
            }
        }
        out
    }
}

/// Every pixel a freshly built circle generator emits lies on the ring:
/// its rounded distance to the center is within one of the radius.
pub proof fn lemma_circle_pixels_in_ring(c: (i32, i32), r: i32, color: Color)
    requires
        0 <= r <= 0x1000_0000,
        -0x4000_0000 <= c.0 <= 0x4000_0000,
        -0x4000_0000 <= c.1 <= 0x4000_0000,
    ensures
        ({
            let s = circle_stream(c, color, r as int, 0, r as int, 3 - 2 * (r as int), Seq::empty());
            forall|i: int| 0 <= i < s.len() ==> in_ring(c, r as int, #[trigger] s[i])
        }),
{
    let ri = r as int;
    let d0 = 3 - 2 * ri;
    assert(d0 == 2 * 0 * 0 + 2 * ri * ri - 2 * ri * ri + 8 * 0 - 6 * ri + 3 + 4 * ri)
        by (nonlinear_arith)
        requires
            d0 == 3 - 2 * ri,
    ;
    assert(ring_state_ok(c, ri, 0, ri, d0, Seq::empty()));
    lemma_circle_stream_in_ring(c, color, ri, 0, ri, d0, Seq::empty());
}

} // verus!
