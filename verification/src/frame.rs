use vstd::prelude::*;

verus! {

/// The mathematical content of a [`Frame`]: its dimensions, capture
/// timestamp, and the sequence of pixel intensity samples in row-major order.
pub ghost struct FrameView {
    pub width: int,
    pub height: int,
    pub timestamp_millis: u64,
    pub pixels: Seq<u8>,
}

impl FrameView {
    /// A frame is well formed when it is non-empty and holds exactly one
    /// sample per pixel.
    pub open spec fn wf(self) -> bool {
        &&& self.width >= 1
        &&& self.height >= 1
        &&& self.pixels.len() == self.width * self.height
    }

    /// The intensity sample of the pixel in column `x` of row `y`.
    pub open spec fn pixel(self, x: int, y: int) -> u8 {
        self.pixels[y * self.width + x]
    }
}

/// An immutable two-dimensional grid of pixel intensity samples together with
/// the capture timestamp, in milliseconds.
///
/// A frame is produced by the platform's frame source from a camera image:
/// one intensity sample per pixel (the first colour channel), stored row by
/// row. All consumers of the core read frames; a consumer that must retain a
/// frame across iterations takes an owned copy via [`Frame::duplicate`].
/// An empty camera read signals end-of-stream and never becomes a `Frame`.
#[derive(Debug)]
pub struct Frame {
    pub width: u32,
    pub height: u32,
    pub timestamp_millis: u64,
    pub pixels: Vec<u8>,
}

impl View for Frame {
    type V = FrameView;

    open spec fn view(&self) -> FrameView {
        FrameView {
            width: self.width as int,
            height: self.height as int,
            timestamp_millis: self.timestamp_millis,
            pixels: self.pixels@,
        }
    }
}

impl DeepView for Frame {
    type V = FrameView;

    open spec fn deep_view(&self) -> FrameView {
        self@
    }
}

impl Frame {
    pub fn new(width: u32, height: u32, timestamp_millis: u64, pixels: Vec<u8>) -> (frame: Frame)
        requires
            width >= 1,
            height >= 1,
            pixels@.len() == width * height,
        ensures
            frame@.wf(),
            frame@ == (FrameView {
                width: width as int,
                height: height as int,
                timestamp_millis,
                pixels: pixels@,
            }),
    {
        Frame { width, height, timestamp_millis, pixels }
    }

    /// Read one pixel sample.
    pub fn at(&self, x: u32, y: u32) -> (sample: u8)
        requires
            self@.wf(),
            x < self@.width,
            y < self@.height,
        ensures
            sample == self@.pixel(x as int, y as int),
    {
        proof {
            lemma_row_major_index_in_range(
                self.width as int,
                self.height as int,
                x as int,
                y as int,
            );
        }
        let count: usize = self.pixels.len();
        let index: usize = (y as usize) * (self.width as usize) + (x as usize);
        self.pixels[index]
    }

    /// An owned copy of the frame.
    pub fn duplicate(&self) -> (copy: Frame)
        ensures
            copy@ == self@,
    {
        let pixels = self.pixels.clone();
        assert(pixels@ =~= self.pixels@);
        let copy = Frame {
            width: self.width,
            height: self.height,
            timestamp_millis: self.timestamp_millis,
            pixels,
        };
        assert(copy@ == self@);
        copy
    }
}

/// In a row-major grid, the flat index of an in-bounds coordinate pair is in
/// bounds.
pub proof fn lemma_row_major_index_in_range(width: int, height: int, x: int, y: int)
    requires
        0 <= x < width,
        0 <= y < height,
    ensures
        0 <= y * width + x < width * height,
{
    assert(0 <= y * width + x < width * height) by (nonlinear_arith)
        requires
            0 <= x < width,
            0 <= y < height,
    ;
}

} // verus!
