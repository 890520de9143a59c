//! The geometry that a framebuffer device reports, and where it puts a pixel.

use vstd::prelude::*;

verus! {

/// Resolution, row stride and bit depth of a device, as queried once.
#[derive(Clone, Copy, Debug, PartialEq, Eq)]
pub struct DeviceGeometry {
    /// Visible pixels in a row.
    pub width_px: u32,
    /// Visible rows.
    pub height_px: u32,
    /// Bytes from the start of one row of the device's frame to the next.
    pub line_length_bytes: u32,
    /// Bits that one pixel takes. Only whole bytes are used.
    pub bits_per_pixel: u32,
}

impl DeviceGeometry {
    /// Bytes that one pixel takes: the bit depth divided by eight, rounded down.
    pub open spec fn bytes_per_pixel(self) -> int {
        self.bits_per_pixel as int / 8
    }

    /// Bytes in one whole frame: the row stride times the number of rows.
    pub open spec fn frame_len(self) -> int {
        self.line_length_bytes as int * self.height_px as int
    }

    /// Width and height of the visible surface, in pixels.
    pub open spec fn dimensions(self) -> (u32, u32) {
        (self.width_px, self.height_px)
    }

    /// Whether the point `(x, y)` lies on the visible surface: inside the
    /// dimensions, counted from zero.
    pub open spec fn contains(self, x: int, y: int) -> bool {
        0 <= x < self.dimensions().0 && 0 <= y < self.dimensions().1
    }

    /// Byte offset of the pixel at `(x, y)`.
    ///
    /// Rows are packed back to back by the visible width, not by the row
    /// stride. Where the device pads its rows (a stride longer than a row of
    /// pixels), every row after the first therefore starts earlier in the
    /// frame than the device reads it; the padding is never skipped.
    pub open spec fn offset_of(self, x: int, y: int) -> int {
        (x + y * self.width_px) * self.bytes_per_pixel()
    }

    /// Where the three colour bytes of a pixel at `(x, y)` start in a frame of
    /// `len` bytes, or `None` where the pixel is dropped: off the surface, or
    /// with a byte that would fall past the frame's end.
    pub open spec fn slot(self, x: int, y: int, len: int) -> Option<int> {
        if self.contains(x, y) && self.offset_of(x, y) + 2 < len {
            Some(self.offset_of(x, y))
        } else {
            None
        }
    }

    /// A geometry whose frame has room for every pixel of the surface: a pixel
    /// takes at least three bytes, and a row of pixels is no longer than the stride.
    pub open spec fn holds_surface(self) -> bool {
        &&& self.bytes_per_pixel() >= 3
        &&& self.width_px * self.bytes_per_pixel() <= self.line_length_bytes
    }

    /// Number of bytes in one whole frame.
    pub fn frame_size(&self) -> (size: u64)
        ensures
            size == self.frame_len(),
    {
        let stride: u64 = self.line_length_bytes as u64;
        let rows: u64 = self.height_px as u64;
        assert(stride * rows <= u64::MAX) by (nonlinear_arith)
            requires
                stride <= u32::MAX,
                rows <= u32::MAX,
        ;
        stride * rows
    }

    /// Finds the slot of the pixel at `(x, y)` in a frame of `len` bytes: the
    /// index of its first byte, with the two bytes after it inside the frame
    /// too, or `None` where the pixel is dropped.
    pub fn locate(&self, x: i32, y: i32, len: usize) -> (at: Option<usize>)
        ensures
            match at {
                Some(first) => self.slot(x as int, y as int, len as int) == Some(first as int),
                None => self.slot(x as int, y as int, len as int) is None,
            },
            at matches Some(first) ==> first + 2 < len,
    {
        if x < 0 || y < 0 {
            return None;
        }
        let column: u32 = x as u32;
        let row: u32 = y as u32;
        if column >= self.width_px || row >= self.height_px {
            return None;
        }
        let width: u64 = self.width_px as u64;
        let depth: u64 = (self.bits_per_pixel / 8) as u64;
        assert(row as u64 * width <= 0x7fff_ffff * 0xffff_ffff) by (nonlinear_arith)
            requires
                row <= 0x7fff_ffff,
                width <= 0xffff_ffff,
        ;
        let index: u64 = column as u64 + row as u64 * width;
        assert(index * depth <= u64::MAX * u32::MAX) by (nonlinear_arith)
            requires
                index <= u64::MAX,
                depth <= u32::MAX,
        ;
        let offset: u128 = index as u128 * depth as u128;
        if offset + 2 < len as u128 {
            Some(offset as usize)
        } else {
            None
        }
    }
}

} // verus!
