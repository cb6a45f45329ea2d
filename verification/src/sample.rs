use crate::grid::GridGeometry;
use crate::raster::{Raster16, Rect};
use crate::step_description::StepDescription;
use vstd::arithmetic::div_mod::{
    lemma_fundamental_div_mod, lemma_mod_bound, lemma_multiply_divide_le,
    lemma_multiply_divide_lt,
};
use vstd::prelude::*;

verus! {

/// Sum of the tones of the first `n` pixels of row `y`, starting at column `x0`.
pub open spec fn row_sum(img: Raster16, y: int, x0: int, n: nat) -> int
    decreases n,
{
    if n == 0 {
        0
    } else {
        row_sum(img, y, x0, (n - 1) as nat) + img.pixel(x0 + n - 1, y)
    }
}

/// Sum of the tones over the first `rows` rows of `rect`.
pub open spec fn rect_sum_rows(img: Raster16, rect: Rect, rows: nat) -> int
    decreases rows,
{
    if rows == 0 {
        0
    } else {
        rect_sum_rows(img, rect, (rows - 1) as nat) + row_sum(
            img,
            rect.y + rows - 1,
            rect.x as int,
            rect.width as nat,
        )
    }
}

/// Sum of all pixel tones inside `rect`.
pub open spec fn rect_sum(img: Raster16, rect: Rect) -> int {
    rect_sum_rows(img, rect, rect.height as nat)
}

/// The arithmetic mean tone over `rect`, truncated to an integer.
pub open spec fn rect_mean(img: Raster16, rect: Rect) -> int {
    rect_sum(img, rect) / rect.area()
}

proof fn lemma_row_sum_bounds(img: Raster16, y: int, x0: int, n: nat)
    ensures
        0 <= row_sum(img, y, x0, n) <= n * 0xFFFF,
    decreases n,
{
    if n > 0 {
        lemma_row_sum_bounds(img, y, x0, (n - 1) as nat);
        assert((n - 1) * 0xFFFF + 0xFFFF == n * 0xFFFF) by (nonlinear_arith);
    }
}

proof fn lemma_rect_sum_bounds(img: Raster16, rect: Rect, rows: nat)
    ensures
        0 <= rect_sum_rows(img, rect, rows) <= rows * rect.width * 0xFFFF,
    decreases rows,
{
    if rows > 0 {
        lemma_rect_sum_bounds(img, rect, (rows - 1) as nat);
        lemma_row_sum_bounds(img, rect.y + rows - 1, rect.x as int, rect.width as nat);
        assert((rows - 1) * rect.width * 0xFFFF + rect.width * 0xFFFF == rows * rect.width
            * 0xFFFF) by (nonlinear_arith);
    }
}

/// The arithmetic mean of all pixel tones inside `rect`, truncated to an
/// integer.  This is the whole "sampling" of a patch.
pub fn sampled_mean(image: &Raster16, rect: &Rect) -> (m: u16)
    requires
        image.wf(),
        rect.is_nonempty(),
        rect.within(image.width as int, image.height as int),
    ensures
        m == rect_mean(*image, *rect),
{
    let mut total: u64 = 0;
    let mut row: u32 = 0;
    while row < rect.height
        invariant
            image.wf(),
            rect.is_nonempty(),
            rect.within(image.width as int, image.height as int),
            row <= rect.height,
            total == rect_sum_rows(*image, *rect, row as nat),
        decreases rect.height - row,
    {
        let mut col: u32 = 0;
        while col < rect.width
            invariant
                image.wf(),
                rect.is_nonempty(),
                rect.within(image.width as int, image.height as int),
                row < rect.height,
                col <= rect.width,
                total == rect_sum_rows(*image, *rect, row as nat) + row_sum(
                    *image,
                    rect.y + row,
                    rect.x as int,
                    col as nat,
                ),
            decreases rect.width - col,
        {
            let p: u16 = image.get(rect.x + col, rect.y + row);
            proof {
                lemma_rect_sum_bounds(*image, *rect, row as nat);
                lemma_row_sum_bounds(*image, rect.y + row, rect.x as int, col as nat);
                assert(row * rect.width * 0xFFFF + col * 0xFFFF + 0xFFFF
                    < 0x1_0000_0000_0000) by (nonlinear_arith)
                    requires
                        0 <= row <= 0xFFFF,
                        0 <= rect.width <= 0xFFFF,
                        0 <= col <= 0xFFFF,
                ;
            }
            total = total + (p as u64);
            col = col + 1;
        }
        row = row + 1;
    }
    let w64: u64 = rect.width as u64;
    let h64: u64 = rect.height as u64;
    assert(1 <= w64 * h64 <= 0xFFFF * 0xFFFF) by (nonlinear_arith)
        requires
            1 <= w64 <= 0xFFFF,
            1 <= h64 <= 0xFFFF,
    ;
    let area: u64 = w64 * h64;
    proof {
        assert(area == rect.area());
        lemma_rect_sum_bounds(*image, *rect, rect.height as nat);
        assert(rect.height * rect.width * 0xFFFF == area * 0xFFFF) by (nonlinear_arith)
            requires
                area == rect.width * rect.height,
        ;
        lemma_multiply_divide_le(total as int, area as int, 0xFFFF);
        vstd::arithmetic::div_mod::lemma_div_is_ordered(0, total as int, area as int);
    }
    let m: u64 = total / area;
    m as u16
}

/// The least tone in `s`, folded in order starting from full scale.
pub open spec fn min_fold(s: Seq<u16>) -> int
    decreases s.len(),
{
    if s.len() == 0 {
        0xFFFF
    } else {
        let m = min_fold(s.drop_last());
        if s.last() < m {
            s.last() as int
        } else {
            m
        }
    }
}

/// The greatest tone in `s`, folded in order starting from black.
pub open spec fn max_fold(s: Seq<u16>) -> int
    decreases s.len(),
{
    if s.len() == 0 {
        0
    } else {
        let m = max_fold(s.drop_last());
        if s.last() > m {
            s.last() as int
        } else {
            m
        }
    }
}

/// The folded minimum is a lower bound on every element.
pub proof fn lemma_min_fold_le(s: Seq<u16>, i: int)
    requires
        0 <= i < s.len(),
    ensures
        min_fold(s) <= s[i],
    decreases s.len(),
{
    if i < s.len() - 1 {
        lemma_min_fold_le(s.drop_last(), i);
        assert(s.drop_last()[i] == s[i]);
    }
}

/// The folded maximum is an upper bound on every element.
pub proof fn lemma_max_fold_ge(s: Seq<u16>, i: int)
    requires
        0 <= i < s.len(),
    ensures
        max_fold(s) >= s[i],
    decreases s.len(),
{
    if i < s.len() - 1 {
        lemma_max_fold_ge(s.drop_last(), i);
        assert(s.drop_last()[i] == s[i]);
    }
}

/// Both folds stay within the 16-bit tone range.
pub proof fn lemma_fold_range(s: Seq<u16>)
    ensures
        0 <= min_fold(s) <= 0xFFFF,
        0 <= max_fold(s) <= 0xFFFF,
    decreases s.len(),
{
    if s.len() > 0 {
        lemma_fold_range(s.drop_last());
    }
}

/// A nonempty sequence attains its folded minimum.
pub proof fn lemma_min_fold_attained(s: Seq<u16>)
    requires
        s.len() > 0,
    ensures
        exists|i: int| 0 <= i < s.len() && s[i] == min_fold(s),
    decreases s.len(),
{
    if s.last() < min_fold(s.drop_last()) {
        assert(s[s.len() - 1] == min_fold(s));
    } else if s.len() == 1 {
        assert(min_fold(s.drop_last()) == 0xFFFF);
        assert(s[0] == min_fold(s));
    } else {
        lemma_min_fold_attained(s.drop_last());
        let i = choose|i: int| 0 <= i < s.drop_last().len() && s.drop_last()[i] == min_fold(
            s.drop_last(),
        );
        assert(s[i] == min_fold(s));
    }
}

/// A nonempty sequence attains its folded maximum.
pub proof fn lemma_max_fold_attained(s: Seq<u16>)
    requires
        s.len() > 0,
    ensures
        exists|i: int| 0 <= i < s.len() && s[i] == max_fold(s),
    decreases s.len(),
{
    if s.last() > max_fold(s.drop_last()) {
        assert(s[s.len() - 1] == max_fold(s));
    } else if s.len() == 1 {
        assert(max_fold(s.drop_last()) == 0);
        assert(s[0] == max_fold(s));
    } else {
        lemma_max_fold_attained(s.drop_last());
        let i = choose|i: int| 0 <= i < s.drop_last().len() && s.drop_last()[i] == max_fold(
            s.drop_last(),
        );
        assert(s[i] == max_fold(s));
    }
}

/// One mean tone per patch, in row-major patch order, together with the
/// derived extremes of the set.  Produced once per analyzed scan and
/// read-only afterward.
#[derive(Clone, Debug)]
pub struct Samples {
    pub values: Vec<u16>,
    pub min: u16,
    pub max: u16,
}

impl Samples {
    /// `min` and `max` really are the folded extremes of `values`.
    pub open spec fn wf(self) -> bool {
        &&& self.min == min_fold(self.values@)
        &&& self.max == max_fold(self.values@)
    }

    /// Wraps a sample vector, computing its extremes.
    pub fn new(values: Vec<u16>) -> (s: Samples)
        ensures
            s.values == values,
            s.wf(),
    {
        let mut min: u16 = 0xFFFF;
        let mut max: u16 = 0;
        let mut i: usize = 0;
        while i < values.len()
            invariant
                i <= values@.len(),
                min == min_fold(values@.take(i as int)),
                max == max_fold(values@.take(i as int)),
            decreases values@.len() - i,
        {
            let v: u16 = values[i];
            proof {
                assert(values@.take(i + 1).drop_last() =~= values@.take(i as int));
                assert(values@.take(i + 1).last() == values@[i as int]);
            }
            if v < min {
                min = v;
            }
            if v > max {
                max = v;
            }
            i = i + 1;
        }
        proof {
            assert(values@.take(values@.len() as int) =~= values@);
        }
        Samples { values, min, max }
    }
}

/// Samples every given patch window of the raster: entry `i` is the truncated
/// mean tone over `rects[i]`.
pub fn collect_samples(image: &Raster16, rects: &Vec<Rect>) -> (s: Samples)
    requires
        image.wf(),
        forall|i: int|
            0 <= i < rects@.len() ==> (#[trigger] rects@[i]).is_nonempty() && rects@[i].within(
                image.width as int,
                image.height as int,
            ),
    ensures
        s.wf(),
        s.values@.len() == rects@.len(),
        forall|i: int| 0 <= i < rects@.len() ==> s.values@[i] == rect_mean(*image, rects@[i]),
{
    let mut values: Vec<u16> = Vec::new();
    let mut i: usize = 0;
    while i < rects.len()
        invariant
            image.wf(),
            forall|k: int|
                0 <= k < rects@.len() ==> (#[trigger] rects@[k]).is_nonempty() && rects@[k].within(
                    image.width as int,
                    image.height as int,
                ),
            i <= rects@.len(),
            values@.len() == i,
            forall|k: int| 0 <= k < i ==> values@[k] == rect_mean(*image, rects@[k]),
        decreases rects@.len() - i,
    {
        let m: u16 = sampled_mean(image, &rects[i]);
        values.push(m);
        i = i + 1;
    }
    Samples::new(values)
}

/// The sampling margin: a quarter of the square's edge is cut away on every
/// side, to stay clear of the square's border and its printed index label.
pub open spec fn patch_margin(square_size: int) -> int {
    square_size / 4
}

/// The edge length of the sampled window inside one square.
pub open spec fn patch_side(square_size: int) -> int {
    square_size - 2 * patch_margin(square_size)
}

/// The sampled window of patch `n` (row-major): the corner of its square,
/// inset by the margin on all sides.
pub open spec fn patch_rect(sd: StepDescription, grid: GridGeometry, n: int) -> Rect {
    Rect {
        x: (grid.origin_x + (n % (sd.columns as int)) * grid.square_size + patch_margin(
            grid.square_size as int,
        )) as u32,
        y: (grid.origin_y + (n / (sd.columns as int)) * grid.square_size + patch_margin(
            grid.square_size as int,
        )) as u32,
        width: patch_side(grid.square_size as int) as u32,
        height: patch_side(grid.square_size as int) as u32,
    }
}

/// Each patch window is nonempty and stays inside the grid region; all the
/// intermediate coordinates stay within the raster limits.
pub proof fn lemma_patch_rect_in_grid(sd: StepDescription, grid: GridGeometry, n: int)
    requires
        sd.wf(),
        grid.square_size >= 1,
        0 <= n < sd.count,
        grid.origin_x + sd.columns * grid.square_size <= 0xFFFF,
        grid.origin_y + sd.rows * grid.square_size <= 0xFFFF,
    ensures
        1 <= patch_side(grid.square_size as int) <= grid.square_size,
        0 <= patch_margin(grid.square_size as int) <= grid.square_size,
        0 <= (n % (sd.columns as int)) * grid.square_size,
        0 <= (n / (sd.columns as int)) * grid.square_size,
        grid.origin_x + (n % (sd.columns as int)) * grid.square_size + patch_margin(
            grid.square_size as int,
        ) + patch_side(grid.square_size as int) <= grid.origin_x + sd.columns * grid.square_size,
        grid.origin_y + (n / (sd.columns as int)) * grid.square_size + patch_margin(
            grid.square_size as int,
        ) + patch_side(grid.square_size as int) <= grid.origin_y + sd.rows * grid.square_size,
        patch_rect(sd, grid, n).is_nonempty(),
        patch_rect(sd, grid, n).x + patch_rect(sd, grid, n).width <= grid.origin_x + sd.columns
            * grid.square_size,
        patch_rect(sd, grid, n).y + patch_rect(sd, grid, n).height <= grid.origin_y + sd.rows
            * grid.square_size,
{
    let s = grid.square_size as int;
    let c = sd.columns as int;
    let col = n % c;
    let row = n / c;
    let q = patch_margin(s);

    // side = s - 2 * (s / 4) stays in [1, s].
    lemma_fundamental_div_mod(s, 4);
    lemma_mod_bound(s, 4);

    // 0 <= col < columns.
    lemma_mod_bound(n, c);
    // 0 <= row < rows, because count <= rows * columns.
    vstd::arithmetic::div_mod::lemma_div_pos_is_pos(n, c);
    lemma_fundamental_div_mod((sd.count + sd.columns - 1) as int, c);
    lemma_mod_bound((sd.count + sd.columns - 1) as int, c);
    assert(sd.rows * c == sd.count + c - 1 - ((sd.count + sd.columns - 1) as int % c));
    assert(sd.count <= sd.rows * c);
    lemma_multiply_divide_lt(n, c, sd.rows as int);
    assert(row < sd.rows);

    // col * s + s <= columns * s and row * s + s <= rows * s.
    assert(col * s + s <= c * s) by (nonlinear_arith)
        requires
            col + 1 <= c,
            0 <= s,
    ;
    assert(0 <= col * s && 0 <= row * s) by (nonlinear_arith)
        requires
            0 <= col,
            0 <= row,
            0 <= s,
    ;
    assert(row * s + s <= sd.rows * s) by (nonlinear_arith)
        requires
            row + 1 <= sd.rows,
            0 <= s,
    ;
}

/// Computes the sampled window of every patch, in row-major patch order.
pub fn sampled_areas(sd: &StepDescription, grid: &GridGeometry) -> (rects: Vec<Rect>)
    requires
        sd.wf(),
        grid.square_size >= 1,
        grid.origin_x + sd.columns * grid.square_size <= 0xFFFF,
        grid.origin_y + sd.rows * grid.square_size <= 0xFFFF,
    ensures
        rects@.len() == sd.count,
        forall|n: int| 0 <= n < sd.count ==> rects@[n] == patch_rect(*sd, *grid, n),
{
    let margin: u32 = grid.square_size / 4;
    proof {
        lemma_fundamental_div_mod(grid.square_size as int, 4);
        lemma_mod_bound(grid.square_size as int, 4);
    }
    let side: u32 = grid.square_size - 2 * margin;
    let mut rects: Vec<Rect> = Vec::new();
    let mut n: u32 = 0;
    while n < sd.count
        invariant
            sd.wf(),
            grid.square_size >= 1,
            grid.origin_x + sd.columns * grid.square_size <= 0xFFFF,
            grid.origin_y + sd.rows * grid.square_size <= 0xFFFF,
            margin == patch_margin(grid.square_size as int),
            side == patch_side(grid.square_size as int),
            n <= sd.count,
            rects@.len() == n,
            forall|k: int| 0 <= k < n ==> rects@[k] == patch_rect(*sd, *grid, k),
        decreases sd.count - n,
    {
        proof {
            lemma_patch_rect_in_grid(*sd, *grid, n as int);
        }
        let col: u32 = n % sd.columns;
        let row: u32 = n / sd.columns;
        let x: u32 = grid.origin_x + col * grid.square_size + margin;
        let y: u32 = grid.origin_y + row * grid.square_size + margin;
        rects.push(Rect { x, y, width: side, height: side });
        n = n + 1;
    }
    rects
}

/// A patch filled uniformly with tone `v` samples to exactly `v`, whatever
/// the size of the window.
pub proof fn lemma_uniform_rect_mean(img: Raster16, rect: Rect, v: u16)
    requires
        img.wf(),
        rect.is_nonempty(),
        rect.within(img.width as int, img.height as int),
        forall|x: int, y: int|
            rect.x <= x < rect.x + rect.width && rect.y <= y < rect.y + rect.height
                ==> #[trigger] img.pixel(x, y) == v,
    ensures
        rect_mean(img, rect) == v,
{
    lemma_uniform_rect_sum(img, rect, v, rect.height as nat);
    assert(rect_sum(img, rect) == rect.height * rect.width * v);
    assert(rect.area() >= 1) by (nonlinear_arith)
        requires
            rect.area() == rect.width * rect.height,
            1 <= rect.width,
            1 <= rect.height,
    ;
    assert(rect.height * rect.width * v == (v as int) * rect.area()) by (nonlinear_arith)
        requires
            rect.area() == rect.width * rect.height,
    ;
    vstd::arithmetic::div_mod::lemma_div_by_multiple(v as int, rect.area());
}

proof fn lemma_uniform_row_sum(img: Raster16, y: int, x0: int, n: nat, v: u16)
    requires
        forall|x: int| x0 <= x < x0 + n ==> #[trigger] img.pixel(x, y) == v,
    ensures
        row_sum(img, y, x0, n) == n * v,
    decreases n,
{
    if n == 0 {
        assert(0int * v == 0) by (nonlinear_arith);
    } else {
        lemma_uniform_row_sum(img, y, x0, (n - 1) as nat, v);
        assert((n - 1) * v + v == n * v) by (nonlinear_arith);
    }
}

proof fn lemma_uniform_rect_sum(img: Raster16, rect: Rect, v: u16, rows: nat)
    requires
        rows <= rect.height,
        forall|x: int, y: int|
            rect.x <= x < rect.x + rect.width && rect.y <= y < rect.y + rect.height
                ==> #[trigger] img.pixel(x, y) == v,
    ensures
        rect_sum_rows(img, rect, rows) == rows * rect.width * v,
    decreases rows,
{
    if rows == 0 {
        assert(0int * rect.width * v == 0) by (nonlinear_arith);
    } else {
        lemma_uniform_rect_sum(img, rect, v, (rows - 1) as nat);
        lemma_uniform_row_sum(img, rect.y + rows - 1, rect.x as int, rect.width as nat, v);
        assert((rows - 1) * rect.width * v + rect.width * v == rows * rect.width * v)
            by (nonlinear_arith);
    }
}

} // verus!
