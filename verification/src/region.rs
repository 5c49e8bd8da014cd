use vstd::prelude::*;
use crate::frame::{Frame, FrameView};

verus! {

/// An axis-aligned rectangle marking the sub-area of a frame reserved for
/// one LED's observation. Regions are computed once from the first frame's
/// dimensions and reused for the whole session.
#[derive(Clone, Copy, Debug, PartialEq, Eq, Structural)]
pub struct Region {
    pub x: u32,
    pub y: u32,
    pub width: u32,
    pub height: u32,
}

impl Region {
    /// The number of pixels the region encloses.
    pub open spec fn area(self) -> int {
        self.width * self.height
    }

    pub open spec fn wf(self) -> bool {
        &&& self.width >= 1
        &&& self.height >= 1
    }

    /// Whether the region lies entirely inside a frame of the given view.
    pub open spec fn fits(self, frame: FrameView) -> bool {
        &&& self.x + self.width <= frame.width
        &&& self.y + self.height <= frame.height
    }
}

/// Sum of the `len` pixel samples of row `y` starting at column `x0`.
pub open spec fn row_sum(frame: FrameView, y: int, x0: int, len: int) -> int
    decreases len,
{
    if len <= 0 {
        0
    } else {
        row_sum(frame, y, x0, len - 1) + frame.pixel(x0 + len - 1, y)
    }
}

/// Sum of the pixel samples of the first `rows` rows of the rectangle of
/// width `w` whose top-left corner is at `(x0, y0)`.
pub open spec fn rect_sum(frame: FrameView, x0: int, y0: int, w: int, rows: int) -> int
    decreases rows,
{
    if rows <= 0 {
        0
    } else {
        rect_sum(frame, x0, y0, w, rows - 1) + row_sum(frame, y0 + rows - 1, x0, w)
    }
}

/// The mean brightness of a region: the sum of its samples divided by its
/// area, rounded down.
pub open spec fn region_mean(frame: FrameView, region: Region) -> int {
    rect_sum(frame, region.x as int, region.y as int, region.width as int, region.height as int)
        / region.area()
}

proof fn lemma_row_sum_bounds(frame: FrameView, y: int, x0: int, len: int)
    ensures
        0 <= row_sum(frame, y, x0, len),
        len >= 0 ==> row_sum(frame, y, x0, len) <= 255 * len,
    decreases len,
{
    if len > 0 {
        lemma_row_sum_bounds(frame, y, x0, len - 1);
    }
}

proof fn lemma_rect_sum_bounds(frame: FrameView, x0: int, y0: int, w: int, rows: int)
    requires
        w >= 0,
    ensures
        0 <= rect_sum(frame, x0, y0, w, rows),
        rows >= 0 ==> rect_sum(frame, x0, y0, w, rows) <= 255 * w * rows,
    decreases rows,
{
    if rows > 0 {
        lemma_rect_sum_bounds(frame, x0, y0, w, rows - 1);
        lemma_row_sum_bounds(frame, y0 + rows - 1, x0, w);
        assert(255 * w * (rows - 1) + 255 * w == 255 * w * rows) by (nonlinear_arith);
    } else {
        assert(255 * w * 0 == 0) by (nonlinear_arith);
    }
}

/// The two observation regions for a session, derived from the frame
/// dimensions: a band a tenth of the frame wide and high, set in from the
/// top-right corner by a ten-pixel margin, split in half horizontally
/// between the two LEDs.
pub fn led_regions(frame_width: u32, frame_height: u32) -> (regions: (Region, Region))
    requires
        frame_width >= 20,
        frame_height >= 11,
    ensures
        ({
            let band_width = frame_width as int / 10;
            let band_height = frame_height as int / 10;
            let left = frame_width - band_width - 10;
            &&& regions.0.x == left
            &&& regions.0.y == 10
            &&& regions.0.width == band_width / 2
            &&& regions.0.height == band_height
            &&& regions.1.x == left + band_width / 2
            &&& regions.1.y == 10
            &&& regions.1.width == band_width / 2
            &&& regions.1.height == band_height
        }),
        regions.0.wf(),
        regions.1.wf(),
        regions.0.x + regions.0.width <= frame_width,
        regions.0.y + regions.0.height <= frame_height,
        regions.1.x + regions.1.width <= frame_width,
        regions.1.y + regions.1.height <= frame_height,
{
    let band_width = frame_width / 10;
    let band_height = frame_height / 10;
    let half = band_width / 2;
    assert(band_width * 10 <= frame_width && band_width >= 2) by (nonlinear_arith)
        requires
            band_width == frame_width / 10,
            frame_width >= 20,
    ;
    assert(band_height * 10 <= frame_height && band_height >= 1) by (nonlinear_arith)
        requires
            band_height == frame_height / 10,
            frame_height >= 11,
    ;
    assert(10 + band_height <= frame_height) by (nonlinear_arith)
        requires
            band_height * 10 <= frame_height,
            band_height >= 1,
            frame_height >= 11,
    ;
    assert(band_width + 10 <= frame_width) by (nonlinear_arith)
        requires
            band_width * 10 <= frame_width,
            band_width >= 2,
            frame_width >= 20,
    ;
    assert(half * 2 <= band_width && half >= 1) by (nonlinear_arith)
        requires
            half == band_width / 2,
            band_width >= 2,
    ;
    let left = frame_width - band_width - 10;
    let region1 = Region { x: left, y: 10, width: half, height: band_height };
    let region2 = Region { x: left + half, y: 10, width: half, height: band_height };
    (region1, region2)
}

/// The mean intensity over the pixels of `region`, rounded down.
///
/// The region must lie inside the frame and be small enough that the sum of
/// its samples fits the 64-bit accumulator; any camera-sized region is.
pub fn sample_region(frame: &Frame, region: &Region) -> (brightness: u32)
    requires
        frame@.wf(),
        region.wf(),
        region.fits(frame@),
        region.area() <= 0x1_0000_0000,
    ensures
        brightness == region_mean(frame@, *region),
        brightness <= 255,
{
    let ghost x0 = region.x as int;
    let ghost y0 = region.y as int;
    let ghost w = region.width as int;
    let mut sum: u64 = 0;
    let mut row: u32 = 0;
    proof {
        lemma_rect_sum_bounds(frame@, x0, y0, w, region.height as int);
    }
    while row < region.height
        invariant
            frame@.wf(),
            region.wf(),
            region.fits(frame@),
            region.area() <= 0x1_0000_0000,
            x0 == region.x as int,
            y0 == region.y as int,
            w == region.width as int,
            row <= region.height,
            sum == rect_sum(frame@, x0, y0, w, row as int),
        decreases region.height - row,
    {
        let mut col: u32 = 0;
        proof {
            lemma_rect_sum_bounds(frame@, x0, y0, w, row as int);
        }
        while col < region.width
            invariant
                frame@.wf(),
                region.wf(),
                region.fits(frame@),
                region.area() <= 0x1_0000_0000,
                x0 == region.x as int,
                y0 == region.y as int,
                w == region.width as int,
                row < region.height,
                col <= region.width,
                sum == rect_sum(frame@, x0, y0, w, row as int) + row_sum(
                    frame@,
                    y0 + row,
                    x0,
                    col as int,
                ),
                sum <= 255 * w * (row as int) + 255 * (col as int),
            decreases region.width - col,
        {
            proof {
                lemma_rect_sum_bounds(frame@, x0, y0, w, row as int);
                lemma_row_sum_bounds(frame@, y0 + row, x0, col as int);
                assert(255 * w * (row as int) + 255 * w <= 255 * w * (region.height as int))
                    by (nonlinear_arith)
                    requires
                        w >= 1,
                        row as int + 1 <= region.height as int,
                ;
                assert(255 * w * (region.height as int) == 255 * region.area())
                    by (nonlinear_arith)
                    requires
                        w == region.width as int,
                        region.area() == region.width as int * region.height as int,
                ;
            }
            let sample = frame.at(region.x + col, region.y + row);
            sum = sum + sample as u64;
            col = col + 1;
        }
        row = row + 1;
    }
    proof {
        lemma_rect_sum_bounds(frame@, x0, y0, w, region.height as int);
        assert(255 * w * (region.height as int) == 255 * region.area()) by (nonlinear_arith)
            requires
                w == region.width as int,
                region.area() == region.width as int * region.height as int,
        ;
        assert(region.area() >= 1) by (nonlinear_arith)
            requires
                region.width as int >= 1,
                region.height as int >= 1,
                region.area() == region.width as int * region.height as int,
        ;
    }
    let area: u64 = (region.width as u64) * (region.height as u64);
    let mean = sum / area;
    proof {
        assert(sum as int / area as int <= 255) by (nonlinear_arith)
            requires
                area as int >= 1,
                0 <= sum as int <= 255 * area as int,
        ;
    }
    mean as u32
}

} // verus!
