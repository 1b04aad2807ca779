//! The atomic colored-pixel record and the ordered pixel collection that
//! represents a drawable shape.

pub mod circle;
pub mod line;

use vstd::prelude::*;

verus! {

/// An RGBA color with one byte per channel. Channels are stored in the same
/// 8-bit encoding that the output frame buffer uses, so compositing can work
/// directly on these values.
#[derive(Clone, Copy, Debug, PartialEq, Eq, Structural)]
pub struct Color {
    pub r: u8,
    pub g: u8,
    pub b: u8,
    pub a: u8,
}

impl Color {
    /// A fully "normal" (non-antialiased) pixel always carries full opacity.
    pub open spec fn is_opaque(self) -> bool {
        self.a == 255
    }

    pub fn new(r: u8, g: u8, b: u8, a: u8) -> (c: Color)
        ensures
            c == (Color { r, g, b, a }),
    {
        Color { r, g, b, a }
    }

    pub fn opaque(r: u8, g: u8, b: u8) -> (c: Color)
        ensures
            c == (Color { r, g, b, a: 255u8 }),
            c.is_opaque(),
    {
        Color { r, g, b, a: 255 }
    }
}

/// A single colored pixel at integer raster coordinates.
#[derive(Clone, Copy, Debug, PartialEq, Eq, Structural)]
pub struct Pixel {
    pub x: i32,
    pub y: i32,
    pub color: Color,
}

/// An ordered sequence of pixels forming one drawable shape. A single-pixel
/// shape is a valid degenerate case and gets its own lighter variant.
#[derive(Debug, Clone)]
pub enum Shape2D {
    Pixel(Pixel),
    Complex(Vec<Pixel>),
}

impl Shape2D {
    /// The pixels of the shape, in drawing order.
    pub open spec fn spec_pixels(self) -> Seq<Pixel> {
        match self {
            Shape2D::Pixel(p) => seq![p],
            Shape2D::Complex(v) => v@,
        }
    }

    /// Wraps a pixel vector as a shape; exactly a one-pixel vector becomes
    /// the degenerate single-pixel variant, anything else (the empty vector
    /// included) stays a `Complex` shape.
    pub fn from_pixels(v: Vec<Pixel>) -> (s: Shape2D)
        ensures
            s.spec_pixels() == v@,
            v@.len() == 1 ==> s == Shape2D::Pixel(v@[0]),
            v@.len() != 1 ==> s == Shape2D::Complex(v),
    {
        if v.len() == 1 {
            let p = v[0];
            proof {
                assert(seq![p] =~= v@);
            }
            Shape2D::Pixel(p)
        } else {
            Shape2D::Complex(v)
        }
    }

    /// The pixels of the shape as a fresh vector, in drawing order.
    pub fn pixels(&self) -> (r: Vec<Pixel>)
        ensures
            r@ == self.spec_pixels(),
    {
        match self {
            Shape2D::Pixel(p) => {
                let mut v: Vec<Pixel> = Vec::new();
                v.push(*p);
                proof {
                    assert(v@ =~= seq![*p]);
                }
                v
            },
            Shape2D::Complex(pv) => {
                let mut v: Vec<Pixel> = Vec::new();
                let mut i: usize = 0;
                while i < pv.len()
                    invariant
                        i <= pv.len(),
                        v@ == pv@.subrange(0, i as int),
                    decreases pv.len() - i,
                {
                    v.push(pv[i]);
                    i = i + 1;
                    proof {
                        assert(v@ =~= pv@.subrange(0, i as int));
                    }
                }
                proof {
                    assert(pv@.subrange(0, pv@.len() as int) =~= pv@);
                }
                v
            },
        }
    }
}

} // verus!
