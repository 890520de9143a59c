//! The display: a frame in memory, drawn into pixel by pixel and handed out whole.

use vstd::prelude::*;
use crate::frame::{frame_after_pixel, frame_after_pixels, lemma_drawing_keeps_len};
use crate::geometry::DeviceGeometry;
use crate::pixel::Pixel;

verus! {

/// A drawing surface for one framebuffer device.
///
/// It keeps the geometry that the device reported when the display was made,
/// and a frame of its own of the device's frame size. Drawing changes only that
/// frame; nothing reaches the device until the frame is flushed.
pub struct FrameBufferDisplay {
    framebuffer: Vec<u8>,
    geometry: DeviceGeometry,
}

impl View for FrameBufferDisplay {
    type V = Seq<u8>;

    /// The bytes of the frame.
    closed spec fn view(&self) -> Seq<u8> {
        self.framebuffer@
    }
}

impl FrameBufferDisplay {
    /// The geometry that the display was made with.
    pub closed spec fn geometry(&self) -> DeviceGeometry {
        self.geometry
    }

    /// Whether `frame` is what a flush of this display hands out: its whole frame.
    pub open spec fn flushes(&self, frame: Seq<u8>) -> bool {
        frame == self@
    }

    /// The frame is always as long as the geometry says.
    #[verifier::type_invariant]
    spec fn frame_matches_geometry(&self) -> bool {
        self.framebuffer@.len() == self.geometry.frame_len()
    }

    /// Makes a display for a device of the given geometry, with a frame of
    /// zeros as long as the device's: row stride times rows, whatever the
    /// width and the bit depth are.
    pub fn new(geometry: DeviceGeometry) -> (display: FrameBufferDisplay)
        requires
            geometry.frame_len() <= usize::MAX,
        ensures
            display.geometry() == geometry,
            display@.len() == geometry.frame_len(),
            display@ == Seq::new(geometry.frame_len() as nat, |i: int| 0u8),
    {
        let len: usize = geometry.frame_size() as usize;
        let framebuffer: Vec<u8> = vec![0u8; len];
        assert(framebuffer@ =~= Seq::new(geometry.frame_len() as nat, |i: int| 0u8));
        FrameBufferDisplay { framebuffer, geometry }
    }

    /// Width and height of the visible surface, as given when the display was
    /// made: the bounds that drawing checks every pixel against.
    pub fn size(&self) -> (dimensions: (u32, u32))
        ensures
            dimensions == self.geometry().dimensions(),
    {
        (self.geometry.width_px, self.geometry.height_px)
    }

    /// Draws one pixel: stores its colour at its slot in the frame, or drops
    /// it where it has none. Never fails.
    pub fn draw_pixel(&mut self, pixel: Pixel)
        ensures
            final(self).geometry() == old(self).geometry(),
            final(self)@ == frame_after_pixel(old(self).geometry(), old(self)@, pixel),
            final(self)@.len() == old(self)@.len(),
    {
        proof {
            use_type_invariant(&*self);
        }
        let at = self.geometry.locate(pixel.x, pixel.y, self.framebuffer.len());
        if let Some(offset) = at {
            self.framebuffer[offset] = pixel.color.b;
            self.framebuffer[offset + 1] = pixel.color.g;
            self.framebuffer[offset + 2] = pixel.color.r;
        }
    }

    /// Draws the pixels in the order given. Pixels without a slot are dropped
    /// one by one; the others are still drawn. Never fails.
    pub fn draw_iter(&mut self, pixels: &[Pixel])
        ensures
            final(self).geometry() == old(self).geometry(),
            final(self)@ == frame_after_pixels(old(self).geometry(), old(self)@, pixels@),
            final(self)@.len() == old(self)@.len(),
    {
        let mut done: usize = 0;
        while done < pixels.len()
            invariant
                done <= pixels.len(),
                self.geometry() == old(self).geometry(),
                self@ == frame_after_pixels(old(self).geometry(), old(self)@, pixels@.take(done as int)),
            decreases pixels.len() - done,
        {
            let pixel = pixels[done];
            self.draw_pixel(pixel);
            proof {
                let drawn = pixels@.take(done + 1);
                assert(drawn.drop_last() =~= pixels@.take(done as int));
                assert(drawn.last() == pixel);
            }
            done += 1;
        }
        proof {
            assert(pixels@.take(done as int) =~= pixels@);
            lemma_drawing_keeps_len(old(self).geometry(), old(self)@, pixels@);
        }
    }

    /// Hands out what a flush writes to the device: the whole frame, as long
    /// as the device's. The display is left as it is, so flushing again
    /// without drawing in between hands out the same bytes.
    pub fn flush(&self) -> (frame: &[u8])
        ensures
            self.flushes(frame@),
            frame@.len() == self.geometry().frame_len(),
    {
        proof {
            use_type_invariant(self);
        }
        self.framebuffer.as_slice()
    }
}

/// Flushing is repeatable: two flushes of a display with no drawing between
/// them hand out the same bytes.
pub proof fn lemma_flush_is_repeatable(display: FrameBufferDisplay, first: Seq<u8>, second: Seq<u8>)
    requires
        display.flushes(first),
        display.flushes(second),
    ensures
        first == second,
{
}

} // verus!
