//! The canvas: a mutable grid of colours backed by an RGB image buffer of
//! the image crate, drawn on through imageproc. Verus sees the buffer only
//! through three names: its width, its height, and its raw row-major RGB
//! bytes; every operation's contract is stated over those.

use vstd::prelude::*;
use crate::geometry::Point;
use image::{Rgb, RgbImage};
use imageproc::drawing::{draw_antialiased_line_segment_mut, draw_polygon_mut};
use imageproc::pixelops::interpolate;

verus! {

/// A colour: an ordered triple of 8-bit channel values.
#[derive(Clone, Copy, PartialEq, Eq, Structural, Debug)]
pub struct Color {
    pub r: u8,
    pub g: u8,
    pub b: u8,
}

/// A mutable width x height grid of colours, written to by the rasterizer.
/// The wrapped buffer of the image crate is opaque to Verus; the names
/// below stand for what it holds.
#[verifier::external_body]
pub struct Canvas {
    img: RgbImage,
}

/// The width the canvas was made with.
pub uninterp spec fn canvas_width(c: Canvas) -> nat;

/// The height the canvas was made with.
pub uninterp spec fn canvas_height(c: Canvas) -> nat;

/// The raw contents of the canvas: three bytes per pixel, row-major, red
/// then green then blue.
pub uninterp spec fn canvas_raw(c: Canvas) -> Seq<u8>;

/// Every canvas the constructors hand out satisfies this: one byte triple
/// per pixel, backed by a real vector, with dimensions that fit `u32`.
pub open spec fn canvas_wf(c: Canvas) -> bool {
    &&& canvas_raw(c).len() == 3 * canvas_width(c) * canvas_height(c)
    &&& canvas_raw(c).len() <= usize::MAX
    &&& canvas_width(c) <= u32::MAX
    &&& canvas_height(c) <= u32::MAX
}

/// A vertex the drawing calls accept: coordinates at most 2^24. The calls
/// carry coordinates through single-precision floats and 32-bit offsets;
/// within this bound the floats are exact and every intermediate stays far
/// from the 32-bit limits.
pub open spec fn coord_ok(p: Point) -> bool {
    p.x <= 0x100_0000 && p.y <= 0x100_0000
}

/// Every point of the list is within the drawing bound.
pub open spec fn coords_ok(points: Seq<Point>) -> bool {
    forall|i: int| 0 <= i < points.len() ==> coord_ok(#[trigger] points[i])
}

/// The colour of the pixel at `(x, y)`.
pub open spec fn pixel_at(c: Canvas, x: int, y: int) -> Color {
    let i = 3 * (y * canvas_width(c) + x);
    Color { r: canvas_raw(c)[i], g: canvas_raw(c)[i + 1], b: canvas_raw(c)[i + 2] }
}

/// What imageproc's scanline polygon fill leaves in the buffer, for a
/// triangle with the given vertices and fill colour.
pub uninterp spec fn convex_fill(
    raw: Seq<u8>,
    width: nat,
    height: nat,
    ax: int,
    ay: int,
    bx: int,
    by: int,
    cx: int,
    cy: int,
    r: u8,
    g: u8,
    b: u8,
) -> Seq<u8>;

/// What imageproc's antialiased (Wu) line drawing, blending with the linear
/// `interpolate`, leaves in the buffer.
pub uninterp spec fn aa_line(
    raw: Seq<u8>,
    width: nat,
    height: nat,
    x0: int,
    y0: int,
    x1: int,
    y1: int,
    r: u8,
    g: u8,
    b: u8,
) -> Seq<u8>;

impl Canvas {
    /// Relies on `ImageBuffer::new` of the image crate: a width x height
    /// buffer with every byte zeroed. It panics only when the byte count
    /// overflows `usize`, which the precondition excludes.
    #[verifier::external_body]
    pub fn new(width: u32, height: u32) -> (c: Canvas)
        requires
            3 * (width as int) * (height as int) <= usize::MAX,
        ensures
            canvas_width(c) == width,
            canvas_height(c) == height,
            canvas_raw(c) == Seq::<u8>::new((3 * width * height) as nat, |i: int| 0u8),
            canvas_wf(c),
    {
        Canvas { img: RgbImage::new(width, height) }
    }

    /// Relies on `ImageBuffer::from_raw` of the image crate: with a
    /// container of exactly one byte triple per pixel it accepts the
    /// container as the image's contents.
    #[verifier::external_body]
    pub fn from_raw(width: u32, height: u32, data: Vec<u8>) -> (c: Canvas)
        requires
            data@.len() == 3 * width * height,
        ensures
            canvas_width(c) == width,
            canvas_height(c) == height,
            canvas_raw(c) == data@,
            canvas_wf(c),
    {
        Canvas { img: RgbImage::from_raw(width, height, data).unwrap() }
    }

    /// Relies on `ImageBuffer::width`: the stored width field.
    #[verifier::external_body]
    pub fn width(&self) -> (w: u32)
        ensures
            w == canvas_width(*self),
    {
        self.img.width()
    }

    /// Relies on `ImageBuffer::height`: the stored height field.
    #[verifier::external_body]
    pub fn height(&self) -> (h: u32)
        ensures
            h == canvas_height(*self),
    {
        self.img.height()
    }

    /// Relies on `ImageBuffer::get_pixel`: the byte triple at the pixel's
    /// row-major offset. It panics out of bounds, which the precondition
    /// excludes.
    #[verifier::external_body]
    pub fn get_pixel(&self, x: u32, y: u32) -> (c: Color)
        requires
            canvas_wf(*self),
            x < canvas_width(*self),
            y < canvas_height(*self),
        ensures
            c == pixel_at(*self, x as int, y as int),
    {
        let p = self.img.get_pixel(x, y);
        Color { r: p.0[0], g: p.0[1], b: p.0[2] }
    }

    /// Relies on `ImageBuffer::into_raw`: hands back the raw container.
    #[verifier::external_body]
    pub fn into_raw(self) -> (data: Vec<u8>)
        ensures
            data@ == canvas_raw(self),
    {
        self.img.into_raw()
    }

    /// Relies on imageproc's `draw_polygon_mut`: a scanline fill of the
    /// closed triangle (outline included), writing only inside the image
    /// bounds; the result is a function of the buffer, the vertices and the
    /// colour, and the buffer keeps its size. The preconditions exclude its
    /// panics: coinciding first and last vertices; a zero-height canvas,
    /// whose scanline clamp would still write row zero; a dimension of
    /// exactly 2^31, whose signed conversion would overflow; and vertices
    /// beyond the drawing bound, whose 32-bit edge arithmetic could
    /// overflow.
    #[verifier::external_body]
    pub fn fill_triangle(&mut self, a: Point, b: Point, c: Point, color: Color)
        requires
            0 < canvas_height(*old(self)),
            canvas_width(*old(self)) < 0x8000_0000,
            canvas_height(*old(self)) < 0x8000_0000,
            coord_ok(a),
            coord_ok(b),
            coord_ok(c),
            !(a.x == c.x && a.y == c.y),
        ensures
            canvas_width(*final(self)) == canvas_width(*old(self)),
            canvas_height(*final(self)) == canvas_height(*old(self)),
            canvas_raw(*final(self)) == convex_fill(
                canvas_raw(*old(self)),
                canvas_width(*old(self)),
                canvas_height(*old(self)),
                a.x as int,
                a.y as int,
                b.x as int,
                b.y as int,
                c.x as int,
                c.y as int,
                color.r,
                color.g,
                color.b,
            ),
            canvas_raw(*final(self)).len() == canvas_raw(*old(self)).len(),
    {
        let poly = [
            imageproc::point::Point::new(a.x as i32, a.y as i32),
            imageproc::point::Point::new(b.x as i32, b.y as i32),
            imageproc::point::Point::new(c.x as i32, c.y as i32),
        ];
        draw_polygon_mut(&mut self.img, &poly, Rgb([color.r, color.g, color.b]));
    }

    /// Relies on imageproc's `draw_antialiased_line_segment_mut` with the
    /// linear `interpolate` blend: a Wu line from start to end, blended
    /// into the buffer at fractional coverage, every write bounds-checked;
    /// the result is a function of the buffer, the endpoints and the
    /// colour, and the buffer keeps its size. The precondition keeps the
    /// endpoints within the drawing bound, under which the call's
    /// single-precision interpolation and 32-bit steps cannot overflow.
    #[verifier::external_body]
    pub fn draw_aa_line(&mut self, start: Point, end: Point, color: Color)
        requires
            coord_ok(start),
            coord_ok(end),
        ensures
            canvas_width(*final(self)) == canvas_width(*old(self)),
            canvas_height(*final(self)) == canvas_height(*old(self)),
            canvas_raw(*final(self)) == aa_line(
                canvas_raw(*old(self)),
                canvas_width(*old(self)),
                canvas_height(*old(self)),
                start.x as int,
                start.y as int,
                end.x as int,
                end.y as int,
                color.r,
                color.g,
                color.b,
            ),
            canvas_raw(*final(self)).len() == canvas_raw(*old(self)).len(),
    {
        draw_antialiased_line_segment_mut(
            &mut self.img,
            (start.x as i32, start.y as i32),
            (end.x as i32, end.y as i32),
            Rgb([color.r, color.g, color.b]),
            interpolate,
        );
    }
}

} // verus!
