use crate::grid::GridGeometry;
use crate::raster::{Raster16, Rect};
use crate::step_description::StepDescription;
use vstd::pervasive::VecAdditionalExecFns;
use vstd::prelude::*;

verus! {

/// The histogram bucket of a tone: its eight most significant bits.
pub open spec fn bucket_of(p: u16) -> int {
    p as int / 256
}

/// How many of the first `n` pixels of row `y` (starting at `x0`) fall in
/// bucket `b`.
pub open spec fn row_bucket_count(img: Raster16, y: int, x0: int, n: nat, b: int) -> int
    decreases n,
{
    if n == 0 {
        0
    } else {
        row_bucket_count(img, y, x0, (n - 1) as nat, b) + if bucket_of(
            img.pixel(x0 + n - 1, y),
        ) == b {
            1int
        } else {
            0int
        }
    }
}

/// How many pixels of the first `rows` rows of `rect` fall in bucket `b`.
pub open spec fn rect_bucket_count(img: Raster16, rect: Rect, rows: nat, b: int) -> int
    decreases rows,
{
    if rows == 0 {
        0
    } else {
        rect_bucket_count(img, rect, (rows - 1) as nat, b) + row_bucket_count(
            img,
            rect.y + rows - 1,
            rect.x as int,
            rect.width as nat,
            b,
        )
    }
}

/// The number of pixels of `rect` whose tone falls in bucket `b`.
pub open spec fn bucket_count(img: Raster16, rect: Rect, b: int) -> int {
    rect_bucket_count(img, rect, rect.height as nat, b)
}

/// The region covered by all squares of the located grid.
pub open spec fn grid_region(sd: StepDescription, grid: GridGeometry) -> Rect {
    Rect {
        x: grid.origin_x,
        y: grid.origin_y,
        width: (sd.columns * grid.square_size) as u32,
        height: (sd.rows * grid.square_size) as u32,
    }
}

proof fn lemma_row_bucket_count_bounds(img: Raster16, y: int, x0: int, n: nat, b: int)
    ensures
        0 <= row_bucket_count(img, y, x0, n, b) <= n,
    decreases n,
{
    if n > 0 {
        lemma_row_bucket_count_bounds(img, y, x0, (n - 1) as nat, b);
    }
}

proof fn lemma_rect_bucket_count_bounds(img: Raster16, rect: Rect, rows: nat, b: int)
    ensures
        0 <= rect_bucket_count(img, rect, rows, b) <= rows * rect.width,
    decreases rows,
{
    if rows > 0 {
        lemma_rect_bucket_count_bounds(img, rect, (rows - 1) as nat, b);
        lemma_row_bucket_count_bounds(img, rect.y + rows - 1, rect.x as int, rect.width as nat, b);
        assert((rows - 1) * rect.width + rect.width == rows * rect.width) by (nonlinear_arith);
    }
}

/// A 256-bucket histogram of the grid region of the raster: bucket `b`
/// counts the pixels whose tone has `b` as its top eight bits.  The
/// counters increment saturating, though with the raster limits they can
/// never reach the cap.
pub fn create_histogram(image: &Raster16, grid: &GridGeometry, sd: &StepDescription) -> (h: Vec<
    u32,
>)
    requires
        image.wf(),
        sd.wf(),
        grid.fits(*sd, image.width as int, image.height as int),
    ensures
        h@.len() == 256,
        forall|b: int|
            0 <= b < 256 ==> #[trigger] h@[b] == bucket_count(*image, grid_region(*sd, *grid), b),
{
    let region_w: u32 = sd.columns * grid.square_size;
    let region_h: u32 = sd.rows * grid.square_size;
    let ghost region = grid_region(*sd, *grid);

    let mut h: Vec<u32> = Vec::new();
    let mut b: usize = 0;
    while b < 256
        invariant
            b <= 256,
            h@.len() == b,
            forall|k: int| 0 <= k < b ==> h@[k] == 0,
        decreases 256 - b,
    {
        h.push(0);
        b = b + 1;
    }

    let mut y: u32 = 0;
    while y < region_h
        invariant
            image.wf(),
            sd.wf(),
            grid.fits(*sd, image.width as int, image.height as int),
            region == grid_region(*sd, *grid),
            region_w == region.width,
            region_h == region.height,
            y <= region_h,
            h@.len() == 256,
            forall|k: int|
                0 <= k < 256 ==> #[trigger] h@[k] == rect_bucket_count(
                    *image,
                    region,
                    y as nat,
                    k,
                ),
        decreases region_h - y,
    {
        let mut x: u32 = 0;
        while x < region_w
            invariant
                image.wf(),
                sd.wf(),
                grid.fits(*sd, image.width as int, image.height as int),
                region == grid_region(*sd, *grid),
                region_w == region.width,
                region_h == region.height,
                y < region_h,
                x <= region_w,
                h@.len() == 256,
                forall|k: int|
                    0 <= k < 256 ==> #[trigger] h@[k] == rect_bucket_count(
                        *image,
                        region,
                        y as nat,
                        k,
                    ) + row_bucket_count(*image, region.y + y, region.x as int, x as nat, k),
            decreases region_w - x,
        {
            let p: u16 = image.get(grid.origin_x + x, grid.origin_y + y);
            let idx: usize = (p / 256) as usize;
            proof {
                lemma_rect_bucket_count_bounds(*image, region, y as nat, idx as int);
                lemma_row_bucket_count_bounds(
                    *image,
                    region.y + y,
                    region.x as int,
                    x as nat,
                    idx as int,
                );
                assert((y as int) * region.width <= 0xFFFF * 0xFFFF) by (nonlinear_arith)
                    requires
                        0 <= y <= 0xFFFF,
                        0 <= region.width <= 0xFFFF,
                ;
            }
            let c: u32 = h[idx];
            if c < 0xFFFF_FFFF {
                h.set(idx, c + 1);
            }
            x = x + 1;
        }
        y = y + 1;
    }
    proof {
        assert forall|k: int| 0 <= k < 256 implies #[trigger] h@[k] == bucket_count(
            *image,
            region,
            k,
        ) by {
        }
    }
    h
}

} // verus!
