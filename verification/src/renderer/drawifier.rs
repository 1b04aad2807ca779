//! The compositor: clears the destination buffer to an opaque background and
//! alpha-blends every shape's pixels onto it, clipping anything that falls
//! outside the buffer. Blending is "source over destination", computed
//! directly in the 8-bit encoding the buffer stores.

use vstd::prelude::*;
use vstd::pervasive::VecAdditionalExecFns;
use vstd::arithmetic::div_mod::lemma_fundamental_div_mod_converse;

verus! {

use crate::camera::Camera;
use crate::drawing::{Pixel, Shape2D};
use crate::renderer::Renderer;

/// One blended channel, in 8-bit encoding, rounded to nearest:
/// `src * alpha + dest * (1 - alpha)` with all values scaled by 255.
pub open spec fn blend_byte(s: int, d: int, a: int) -> int {
    (s * a + d * (255 - a) + 127) / 255
}

/// Blend one pixel into the byte buffer. A pixel is dropped when one of its
/// coordinates is negative, when its linear slot does not fit inside the
/// buffer, or when it lies outside the `width x height` rectangle; otherwise
/// its four destination bytes are blended source-over-destination.
pub open spec fn spec_put_pixel(frame: Seq<u8>, width: int, height: int, p: Pixel) -> Seq<u8> {
    if p.x < 0 || p.y < 0 {
        frame
    } else {
        let idx = width * (p.y as int) + (p.x as int);
        if 4 * idx + 4 > frame.len() {
            frame
        } else if p.x as int >= width || p.y as int >= height {
            frame
        } else {
            let c = p.color;
            frame.update(4 * idx + 0, blend_byte(c.r as int, frame[4 * idx + 0] as int, c.a as int) as u8)
                .update(4 * idx + 1, blend_byte(c.g as int, frame[4 * idx + 1] as int, c.a as int) as u8)
                .update(4 * idx + 2, blend_byte(c.b as int, frame[4 * idx + 2] as int, c.a as int) as u8)
                .update(4 * idx + 3, blend_byte(255, frame[4 * idx + 3] as int, c.a as int) as u8)
        }
    }
}

/// Blend a pixel sequence into the buffer, in order.
pub open spec fn spec_put_pixels(frame: Seq<u8>, width: int, height: int, ps: Seq<Pixel>) -> Seq<u8>
    decreases ps.len(),
{
    if ps.len() == 0 {
        frame
    } else {
        spec_put_pixels(spec_put_pixel(frame, width, height, ps[0]), width, height, ps.drop_first())
    }
}

/// All pixels of a shape list, in drawing order.
pub open spec fn spec_shapes_pixels(objects: Seq<Shape2D>) -> Seq<Pixel>
    decreases objects.len(),
{
    if objects.len() == 0 {
        Seq::empty()
    } else {
        objects[0].spec_pixels() + spec_shapes_pixels(objects.drop_first())
    }
}

/// The buffer after the full clear: every complete 4-byte pixel becomes
/// opaque black, a trailing partial pixel is left as it was.
pub open spec fn spec_clear(frame: Seq<u8>) -> Seq<u8> {
    Seq::new(
        frame.len(),
        |i: int|
            if i < 4 * (frame.len() as int / 4) {
                if i % 4 == 3 {
                    255u8
                } else {
                    0u8
                }
            } else {
                frame[i]
            },
    )
}

proof fn lemma_put_pixels_push(frame: Seq<u8>, width: int, height: int, ps: Seq<Pixel>, p: Pixel)
    ensures
        spec_put_pixels(frame, width, height, ps.push(p)) == spec_put_pixel(
            spec_put_pixels(frame, width, height, ps),
            width,
            height,
            p,
        ),
    decreases ps.len(),
{
    if ps.len() == 0 {
        let e = ps.push(p).drop_first();
        assert(ps.push(p)[0] == p);
        assert(e =~= Seq::<Pixel>::empty());
        assert(spec_put_pixels(frame, width, height, ps) == frame);
        assert(spec_put_pixels(spec_put_pixel(frame, width, height, p), width, height, e)
            == spec_put_pixel(frame, width, height, p));
        assert(spec_put_pixels(frame, width, height, ps.push(p)) == spec_put_pixels(
            spec_put_pixel(frame, width, height, p),
            width,
            height,
            e,
        ));
    } else {
        assert(ps.push(p)[0] == ps[0]);
        assert(ps.push(p).drop_first() =~= ps.drop_first().push(p));
        lemma_put_pixels_push(
            spec_put_pixel(frame, width, height, ps[0]),
            width,
            height,
            ps.drop_first(),
            p,
        );
    }
}

proof fn lemma_shapes_pixels_take(objects: Seq<Shape2D>, i: int)
    requires
        0 <= i < objects.len(),
    ensures
        spec_shapes_pixels(objects.take(i + 1)) == spec_shapes_pixels(objects.take(i))
            + objects[i].spec_pixels(),
    decreases i,
{
    if i == 0 {
        let e = objects.take(1).drop_first();
        assert(objects.take(1)[0] == objects[0]);
        assert(e =~= Seq::<Shape2D>::empty());
        assert(objects.take(0) =~= Seq::<Shape2D>::empty());
        assert(spec_shapes_pixels(e) == Seq::<Pixel>::empty());
        assert(spec_shapes_pixels(objects.take(0)) == Seq::<Pixel>::empty());
        assert(spec_shapes_pixels(objects.take(1)) == objects[0].spec_pixels()
            + spec_shapes_pixels(e));
        assert(objects[0].spec_pixels() + Seq::<Pixel>::empty() =~= Seq::<Pixel>::empty()
            + objects[0].spec_pixels());
    } else {
        let rest = objects.drop_first();
        lemma_shapes_pixels_take(rest, i - 1);
        assert(objects.take(i + 1)[0] == objects[0]);
        assert(objects.take(i)[0] == objects[0]);
        assert(objects.take(i + 1).drop_first() =~= rest.take(i));
        assert(objects.take(i).drop_first() =~= rest.take(i - 1));
        assert(rest[i - 1] == objects[i]);
        assert((objects[0].spec_pixels() + (spec_shapes_pixels(rest.take(i - 1))
            + objects[i].spec_pixels())) =~= (objects[0].spec_pixels() + spec_shapes_pixels(
            rest.take(i - 1),
        )) + objects[i].spec_pixels());
    }
}

/// Appending one shape appends exactly its pixels to the flattened stream.
pub proof fn lemma_shapes_pixels_push(objects: Seq<Shape2D>, sh: Shape2D)
    ensures
        spec_shapes_pixels(objects.push(sh)) == spec_shapes_pixels(objects) + sh.spec_pixels(),
    decreases objects.len(),
{
    if objects.len() == 0 {
        let e = objects.push(sh).drop_first();
        assert(objects.push(sh)[0] == sh);
        assert(e =~= Seq::<Shape2D>::empty());
        assert(spec_shapes_pixels(e) == Seq::<Pixel>::empty());
        assert(spec_shapes_pixels(objects) == Seq::<Pixel>::empty());
        assert(spec_shapes_pixels(objects.push(sh)) == sh.spec_pixels() + spec_shapes_pixels(e));
        assert(sh.spec_pixels() + Seq::<Pixel>::empty() =~= Seq::<Pixel>::empty()
            + sh.spec_pixels());
    } else {
        assert(objects.push(sh)[0] == objects[0]);
        assert(objects.push(sh).drop_first() =~= objects.drop_first().push(sh));
        lemma_shapes_pixels_push(objects.drop_first(), sh);
        assert((objects[0].spec_pixels() + (spec_shapes_pixels(objects.drop_first())
            + sh.spec_pixels())) =~= (objects[0].spec_pixels() + spec_shapes_pixels(
            objects.drop_first(),
        )) + sh.spec_pixels());
    }
}

/// The four byte offsets of one cleared pixel, modulo 4.
proof fn lemma_mod4(k: int)
    ensures
        (4 * k) % 4 == 0,
        (4 * k + 1) % 4 == 1,
        (4 * k + 2) % 4 == 2,
        (4 * k + 3) % 4 == 3,
{
    lemma_fundamental_div_mod_converse(4 * k, 4, k, 0);
    lemma_fundamental_div_mod_converse(4 * k + 1, 4, k, 1);
    lemma_fundamental_div_mod_converse(4 * k + 2, 4, k, 2);
    lemma_fundamental_div_mod_converse(4 * k + 3, 4, k, 3);
}

/// `a * b <= c * b` when `a <= c` and `b >= 0`.
proof fn lemma_mul_le(a: int, b: int, c: int)
    by (nonlinear_arith)
    requires
        0 <= a <= c,
        0 <= b,
    ensures
        a * b <= c * b,
        0 <= a * b,
{
}

/// One blended channel; the 8-bit result is exact by construction.
fn blend_one(s: u8, d: u8, a: u8) -> (r: u8)
    ensures
        r as int == blend_byte(s as int, d as int, a as int),
{
    proof {
        lemma_mul_le(s as int, a as int, 255);
        lemma_mul_le(d as int, 255 - a as int, 255);
    }
    let v: u32 = (s as u32) * (a as u32) + (d as u32) * (255 - (a as u32)) + 127;
    assert(v as int <= 255 * (a as int) + 255 * (255 - a as int) + 127);
    let r: u32 = v / 255;
    assert(r <= 255);
    r as u8
}

/// Blend one pixel into the frame at its linear slot, or drop it.
fn put_pixel(frame: &mut Vec<u8>, width: u32, height: u32, p: Pixel)
    ensures
        final(frame)@ == spec_put_pixel(old(frame)@, width as int, height as int, p),
{
    if p.x < 0 || p.y < 0 {
        return ;
    }
    let x = p.x as u64;
    let y = p.y as u64;
    let w = width as u64;
    let h = height as u64;
    proof {
        lemma_mul_le(w as int, y as int, 0x1_0000_0000);
    }
    let idx: u64 = w * y + x;
    let end: u128 = 4 * (idx as u128) + 4;
    if end > frame.len() as u128 {
        return ;
    }
    if x >= w || y >= h {
        return ;
    }
    let base = (4 * idx) as usize;
    let d0 = frame[base];
    let d1 = frame[base + 1];
    let d2 = frame[base + 2];
    let d3 = frame[base + 3];
    let c = p.color;
    let b0 = blend_one(c.r, d0, c.a);
    let b1 = blend_one(c.g, d1, c.a);
    let b2 = blend_one(c.b, d2, c.a);
    let b3 = blend_one(255, d3, c.a);
    frame.set(base, b0);
    frame.set(base + 1, b1);
    frame.set(base + 2, b2);
    frame.set(base + 3, b3);
}

/// A fully opaque source pixel replaces the destination bytes outright.
pub proof fn lemma_blend_opaque(s: int, d: int)
    requires
        0 <= s <= 255,
        0 <= d <= 255,
    ensures
        blend_byte(s, d, 255) == s,
{
    assert(s * 255 + d * (255 - 255) + 127 == s * 255 + 127);
    lemma_fundamental_div_mod_converse(s * 255 + 127, 255, s, 127);
}

/// A fully transparent source pixel leaves the destination bytes unchanged.
pub proof fn lemma_blend_transparent(s: int, d: int)
    requires
        0 <= s <= 255,
        0 <= d <= 255,
    ensures
        blend_byte(s, d, 0) == d,
{
    assert(s * 0 + d * (255 - 0) + 127 == d * 255 + 127);
    lemma_fundamental_div_mod_converse(d * 255 + 127, 255, d, 127);
}

/// Blending an opaque pixel that lands in bounds writes exactly its color;
/// blending a transparent pixel changes nothing, wherever it lands.
pub proof fn lemma_put_pixel_extremes(frame: Seq<u8>, width: int, height: int, p: Pixel)
    ensures
        p.color.a == 0 ==> spec_put_pixel(frame, width, height, p) == frame,
        ({
            let idx = width * (p.y as int) + (p.x as int);
            (p.color.a == 255 && 0 <= p.x && 0 <= p.y && (p.x as int) < width && (p.y as int)
                < height && 4 * idx + 4 <= frame.len()) ==> spec_put_pixel(frame, width, height, p)
                =~= frame.update(4 * idx + 0, p.color.r).update(4 * idx + 1, p.color.g).update(
                4 * idx + 2,
                p.color.b,
            ).update(4 * idx + 3, 255u8)
        }),
{
    let idx = width * (p.y as int) + (p.x as int);
    if p.color.a == 0 && !(p.x < 0 || p.y < 0) && !(4 * idx + 4 > frame.len()) && !(p.x as int
        >= width || p.y as int >= height) {
        lemma_blend_transparent(p.color.r as int, frame[4 * idx + 0] as int);
        lemma_blend_transparent(p.color.g as int, frame[4 * idx + 1] as int);
        lemma_blend_transparent(p.color.b as int, frame[4 * idx + 2] as int);
        lemma_blend_transparent(255, frame[4 * idx + 3] as int);
        assert(spec_put_pixel(frame, width, height, p) =~= frame);
    }
    if p.color.a == 255 && 0 <= p.x && 0 <= p.y && (p.x as int) < width && (p.y as int) < height
        && 4 * idx + 4 <= frame.len() {
        lemma_blend_opaque(p.color.r as int, frame[4 * idx + 0] as int);
        lemma_blend_opaque(p.color.g as int, frame[4 * idx + 1] as int);
        lemma_blend_opaque(p.color.b as int, frame[4 * idx + 2] as int);
        lemma_blend_opaque(255, frame[4 * idx + 3] as int);
    }
}

/// The 2D renderer: a plain compositor. ("If a renderer renders, why doesn't
/// a drawer draw?")
pub struct Drawifier {
    pub output_width: u32,
    pub output_height: u32,
}

impl Renderer for Drawifier {
    type Renderable = Shape2D;

    open spec fn render_req(&self, camera: Camera, objects: Seq<Shape2D>, frame: Seq<u8>) -> bool {
        true
    }

    open spec fn render_ens(
        &self,
        camera: Camera,
        objects: Seq<Shape2D>,
        old_frame: Seq<u8>,
        frame: Seq<u8>,
    ) -> bool {
        frame == spec_put_pixels(
            spec_clear(old_frame),
            self.output_width as int,
            self.output_height as int,
            spec_shapes_pixels(objects),
        )
    }

    open spec fn spec_output_dimensions(&self) -> (u32, u32) {
        (self.output_width, self.output_height)
    }

    fn render(&self, _camera: &Camera, objects: &Vec<Shape2D>, frame: &mut Vec<u8>) {
        let len = frame.len();
        let chunks = len / 4;
        let mut k: usize = 0;
        while k < chunks
            invariant
                chunks == len as int / 4,
                frame@.len() == len,
                old(frame)@.len() == len,
                0 <= k <= chunks,
                forall|j: int| 0 <= j < 4 * k ==> frame@[j] == spec_clear(old(frame)@)[j],
                forall|j: int| 4 * k <= j < len ==> frame@[j] == old(frame)@[j],
            decreases chunks - k,
        {
            let base = 4 * k;
            frame.set(base, 0);
            frame.set(base + 1, 0);
            frame.set(base + 2, 0);
            frame.set(base + 3, 255);
            proof {
                lemma_mod4(k as int);
                assert forall|j: int| 0 <= j < 4 * (k as int + 1) implies frame@[j] == spec_clear(
                    old(frame)@,
                )[j] by {
                    let ki = k as int;
                    assert(4 * ki + 3 < 4 * (len as int / 4));
                    if 4 * ki <= j {
                        assert(j == 4 * ki || j == 4 * ki + 1 || j == 4 * ki + 2 || j == 4 * ki
                            + 3);
                        if j == 4 * ki {
                            assert(frame@[j] == 0u8);
                            assert(j % 4 == 0);
                            assert(spec_clear(old(frame)@)[j] == 0u8);
                        } else if j == 4 * ki + 1 {
                            assert(frame@[j] == 0u8);
                            assert(j % 4 == 1);
                            assert(spec_clear(old(frame)@)[j] == 0u8);
                        } else if j == 4 * ki + 2 {
                            assert(frame@[j] == 0u8);
                            assert(j % 4 == 2);
                            assert(spec_clear(old(frame)@)[j] == 0u8);
                        } else {
                            assert(frame@[j] == 255u8);
                            assert(j % 4 == 3);
                            assert(spec_clear(old(frame)@)[j] == 255u8);
                        }
                    } else {
                        assert(frame@[j] == spec_clear(old(frame)@)[j]);
                    }
                }
            }
            k = k + 1;
        }
        proof {
            assert(frame@ =~= spec_clear(old(frame)@));
        }
        let ghost cleared = frame@;
        let w = self.output_width;
        let h = self.output_height;
        let mut oi: usize = 0;
        while oi < objects.len()
            invariant
                0 <= oi <= objects.len(),
                frame@ == spec_put_pixels(
                    cleared,
                    w as int,
                    h as int,
                    spec_shapes_pixels(objects@.take(oi as int)),
                ),
            decreases objects.len() - oi,
        {
            let pxs = objects[oi].pixels();
            let ghost prefix = spec_shapes_pixels(objects@.take(oi as int));
            let mut pi: usize = 0;
            while pi < pxs.len()
                invariant
                    0 <= pi <= pxs.len(),
                    0 <= oi < objects.len(),
                    pxs@ == objects@[oi as int].spec_pixels(),
                    prefix == spec_shapes_pixels(objects@.take(oi as int)),
                    frame@ == spec_put_pixels(
                        cleared,
                        w as int,
                        h as int,
                        prefix + pxs@.take(pi as int),
                    ),
                decreases pxs.len() - pi,
            {
                put_pixel(frame, w, h, pxs[pi]);
                proof {
                    lemma_put_pixels_push(
                        cleared,
                        w as int,
                        h as int,
                        prefix + pxs@.take(pi as int),
                        pxs@[pi as int],
                    );
                    assert((prefix + pxs@.take(pi as int)).push(pxs@[pi as int]) =~= prefix
                        + pxs@.take(pi as int + 1));
                }
                pi = pi + 1;
            }
            proof {
                assert(prefix + pxs@.take(pxs@.len() as int) =~= prefix + pxs@);
                lemma_shapes_pixels_take(objects@, oi as int);
            }
            oi = oi + 1;
        }
        proof {
            assert(objects@.take(objects@.len() as int) =~= objects@);
        }
    }

    fn set_output_dimensions(&mut self, width: u32, height: u32) {
        self.output_width = width;
        self.output_height = height;
    }
}

} // verus!
