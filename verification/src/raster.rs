//! The output raster: viewport dimensions, the intensity buffer and the
//! shading of escape reports into grayscale bytes.

use vstd::prelude::*;

verus! {

/// Pixel dimensions of the output image.
#[derive(Clone, Copy, PartialEq, Eq, Structural, Debug)]
pub struct Viewport {
    pub width: usize,
    pub height: usize,
}

impl Viewport {
    /// A well-formed viewport is nonempty in both directions and its
    /// pixel count fits in `usize`.
    pub open spec fn wf(self) -> bool {
        1 <= self.width && 1 <= self.height && self.width * self.height <= usize::MAX
    }

    /// Number of bytes in the intensity buffer: one per pixel.
    pub open spec fn pixel_count(self) -> int {
        self.width * self.height
    }
}

/// Row-major position of the pixel in column `x` of row `y`.
pub open spec fn pixel_index(width: int, x: int, y: int) -> int {
    y * width + x
}

/// The grayscale byte for one escape report: `0` for a point that stayed
/// bounded, otherwise `255 - min(count, 255)`, so that early escapes are
/// bright and the set itself is black.
pub open spec fn shade_of(escape: Option<usize>) -> int {
    match escape {
        Option::None => 0,
        Option::Some(c) => 255 - (if c < 255 {
            c as int
        } else {
            255
        }),
    }
}

/// Encode one escape report as its intensity byte.
pub fn shade(escape: Option<usize>) -> (b: u8)
    ensures
        b == shade_of(escape),
{
    match escape {
        Option::None => 0,
        Option::Some(c) => {
            if c < 255 {
                255 - (c as u8)
            } else {
                0
            }
        },
    }
}

/// Shade a band's escape reports into its intensity bytes: one byte per
/// report, in the reports' own (row-major) order.
pub fn render_band(counts: &Vec<Option<usize>>) -> (bytes: Vec<u8>)
    ensures
        bytes@.len() == counts@.len(),
        forall|k: int| 0 <= k < counts@.len() ==> bytes@[k] == shade_of(counts@[k]),
{
    let mut bytes: Vec<u8> = Vec::new();
    let mut k: usize = 0;
    while k < counts.len()
        invariant
            k <= counts@.len(),
            bytes@.len() == k,
            forall|j: int| 0 <= j < k ==> bytes@[j] == shade_of(counts@[j]),
        decreases counts@.len() - k,
    {
        let b = shade(counts[k]);
        bytes.push(b);
        k += 1;
    }
    bytes
}

/// A zero-filled intensity buffer for the viewport, one byte per pixel,
/// row-major with the top row first.
pub fn new_buffer(vp: Viewport) -> (buf: Vec<u8>)
    requires
        vp.wf(),
    ensures
        buf@.len() == vp.pixel_count(),
        forall|i: int| 0 <= i < buf@.len() ==> buf@[i] == 0,
{
    let n = vp.width * vp.height;
    let buf: Vec<u8> = vec![0u8; n];
    buf
}

} // verus!
