//! What drawing does to a frame, stated on sequences of bytes.

use vstd::prelude::*;
use crate::geometry::DeviceGeometry;
use crate::pixel::{Pixel, Rgb};

verus! {

/// The frame with the colour stored in the three bytes from `at` on, in the
/// device's order: blue, green, red. A fourth byte of the pixel is left as it is.
pub open spec fn store_bgr(frame: Seq<u8>, at: int, color: Rgb) -> Seq<u8> {
    frame.update(at, color.b).update(at + 1, color.g).update(at + 2, color.r)
}

/// The frame after one pixel is drawn: stored at its slot, or dropped.
pub open spec fn frame_after_pixel(geometry: DeviceGeometry, frame: Seq<u8>, pixel: Pixel) -> Seq<u8> {
    match geometry.slot(pixel.x as int, pixel.y as int, frame.len() as int) {
        Some(at) => store_bgr(frame, at, pixel.color),
        None => frame,
    }
}

/// The frame after the pixels are drawn one by one, first to last.
pub open spec fn frame_after_pixels(geometry: DeviceGeometry, frame: Seq<u8>, pixels: Seq<Pixel>) -> Seq<u8>
    decreases pixels.len(),
{
    if pixels.len() == 0 {
        frame
    } else {
        frame_after_pixel(
            geometry,
            frame_after_pixels(geometry, frame, pixels.drop_last()),
            pixels.last(),
        )
    }
}

/// Drawing never changes how long the frame is.
pub proof fn lemma_drawing_keeps_len(geometry: DeviceGeometry, frame: Seq<u8>, pixels: Seq<Pixel>)
    ensures
        frame_after_pixels(geometry, frame, pixels).len() == frame.len(),
    decreases pixels.len(),
{
    if pixels.len() > 0 {
        lemma_drawing_keeps_len(geometry, frame, pixels.drop_last());
    }
}

/// A pixel off the visible surface leaves every byte of the frame as it was.
pub proof fn lemma_pixel_off_surface_is_dropped(geometry: DeviceGeometry, frame: Seq<u8>, pixel: Pixel)
    requires
        pixel.x < 0 || pixel.x >= geometry.width_px || pixel.y < 0 || pixel.y >= geometry.height_px,
    ensures
        frame_after_pixel(geometry, frame, pixel) == frame,
{
}

/// A pixel that changes the frame lies inside the dimensions of the geometry.
pub proof fn lemma_drawn_pixel_is_inside_dimensions(geometry: DeviceGeometry, frame: Seq<u8>, pixel: Pixel)
    requires
        frame_after_pixel(geometry, frame, pixel) != frame,
    ensures
        0 <= pixel.x < geometry.dimensions().0,
        0 <= pixel.y < geometry.dimensions().1,
{
}

/// Pixels that all lie off the visible surface leave the frame as it was.
pub proof fn lemma_pixels_off_surface_are_dropped(geometry: DeviceGeometry, frame: Seq<u8>, pixels: Seq<Pixel>)
    requires
        forall|i: int| 0 <= i < pixels.len() ==> !geometry.contains(#[trigger] pixels[i].x as int, pixels[i].y as int),
    ensures
        frame_after_pixels(geometry, frame, pixels) == frame,
    decreases pixels.len(),
{
    if pixels.len() > 0 {
        lemma_pixels_off_surface_are_dropped(geometry, frame, pixels.drop_last());
    }
}

/// Drawing one run of pixels after another is drawing the two runs joined.
pub proof fn lemma_drawing_in_parts(geometry: DeviceGeometry, frame: Seq<u8>, first: Seq<Pixel>, then: Seq<Pixel>)
    ensures
        frame_after_pixels(geometry, frame_after_pixels(geometry, frame, first), then)
            == frame_after_pixels(geometry, frame, first + then),
    decreases then.len(),
{
    if then.len() == 0 {
        assert(first + then =~= first);
    } else {
        lemma_drawing_in_parts(geometry, frame, first, then.drop_last());
        assert((first + then).drop_last() =~= first + then.drop_last());
        assert((first + then).last() == then.last());
    }
}

/// On a geometry that holds its surface, every pixel of the surface has its
/// three bytes inside the frame.
pub proof fn lemma_surface_fits_frame(geometry: DeviceGeometry, x: int, y: int)
    requires
        geometry.holds_surface(),
        geometry.contains(x, y),
    ensures
        0 <= geometry.offset_of(x, y),
        geometry.offset_of(x, y) + 2 < geometry.frame_len(),
        geometry.slot(x, y, geometry.frame_len()) == Some(geometry.offset_of(x, y)),
{
    let width = geometry.width_px as int;
    let height = geometry.height_px as int;
    let stride = geometry.line_length_bytes as int;
    let depth = geometry.bytes_per_pixel();
    let index = x + y * width;
    assert(0 <= index <= width * height - 1) by (nonlinear_arith)
        requires
            0 <= x < width,
            0 <= y < height,
            index == x + y * width,
    ;
    assert(0 <= index * depth && index * depth + depth <= width * depth * height) by (nonlinear_arith)
        requires
            0 <= index <= width * height - 1,
            depth >= 3,
    ;
    assert(width * depth * height <= stride * height) by (nonlinear_arith)
        requires
            width * depth <= stride,
            0 <= height,
    ;
}

/// Drawing one pixel that has a slot stores blue, green and red, in that
/// order, at the pixel's offset, and changes no other byte.
pub proof fn lemma_single_pixel_lands(geometry: DeviceGeometry, frame: Seq<u8>, pixel: Pixel)
    requires
        geometry.contains(pixel.x as int, pixel.y as int),
        geometry.offset_of(pixel.x as int, pixel.y as int) + 2 < frame.len(),
    ensures
        ({
            let at = geometry.offset_of(pixel.x as int, pixel.y as int);
            let after = frame_after_pixels(geometry, frame, seq![pixel]);
            &&& 0 <= at
            &&& after.len() == frame.len()
            &&& after[at] == pixel.color.b
            &&& after[at + 1] == pixel.color.g
            &&& after[at + 2] == pixel.color.r
            &&& forall|i: int| 0 <= i < frame.len() && !(at <= i <= at + 2) ==> after[i] == frame[i]
        }),
{
    let pixels = seq![pixel];
    let at = geometry.offset_of(pixel.x as int, pixel.y as int);
    assert(0 <= at) by (nonlinear_arith)
        requires
            at == (pixel.x as int + pixel.y as int * geometry.width_px as int) * (geometry.bits_per_pixel as int / 8),
            0 <= pixel.x,
            0 <= pixel.y,
    ;
    assert(pixels.drop_last() =~= Seq::<Pixel>::empty());
    assert(frame_after_pixels(geometry, frame, pixels.drop_last()) == frame);
    assert(pixels.last() == pixel);
}

} // verus!
