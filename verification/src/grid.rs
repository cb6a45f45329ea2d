use crate::error::AnalyzeError;
use crate::raster::Raster8;
use crate::step_description::StepDescription;
use vstd::prelude::*;

verus! {

/// How the locator finds the patch grid in a scan.  Both strategies realise
/// the same capability; the caller picks one.
#[derive(Clone, Copy, Debug, PartialEq, Eq, Structural)]
pub enum GridStrategy {
    /// Assume the scan is already cropped and aligned to the pattern: the
    /// grid starts at the origin and the squares subdivide the width.  Cheap,
    /// but silently wrong on a misaligned scan (a documented limitation).
    FixedSubdivision,
    /// Read the geometry off the grid lines found in an edge map.
    DetectionBased,
}

/// Where the patch grid lies in a scanned raster: the top-left pixel of the
/// first patch and the pixel edge length of one patch.
#[derive(Clone, Copy, Debug, PartialEq, Eq, Structural)]
pub struct GridGeometry {
    pub origin_x: u32,
    pub origin_y: u32,
    pub square_size: u32,
}

impl GridGeometry {
    /// The squares are not degenerate and the full grid region lies inside a
    /// raster of the given dimensions.
    pub open spec fn fits(self, sd: StepDescription, width: int, height: int) -> bool {
        &&& self.square_size >= 1
        &&& self.origin_x + sd.columns * self.square_size <= width
        &&& self.origin_y + sd.rows * self.square_size <= height
    }
}

/// Number of edge pixels among the first `n` rows of column `x`.
pub open spec fn column_edge_count(edges: Raster8, x: int, n: nat) -> int
    decreases n,
{
    if n == 0 {
        0
    } else {
        column_edge_count(edges, x, (n - 1) as nat) + if edges.pixel(x, n - 1) != 0 {
            1int
        } else {
            0int
        }
    }
}

/// Number of edge pixels among the first `n` columns of row `y`.
pub open spec fn row_edge_count(edges: Raster8, y: int, n: nat) -> int
    decreases n,
{
    if n == 0 {
        0
    } else {
        row_edge_count(edges, y, (n - 1) as nat) + if edges.pixel(n - 1, y) != 0 {
            1int
        } else {
            0int
        }
    }
}

/// A column is a vertical grid line when at least half of its pixels are
/// edge pixels.
pub open spec fn is_vertical_line(edges: Raster8, x: int) -> bool {
    edges.height > 0 && 2 * column_edge_count(edges, x, edges.height as nat) >= edges.height
}

/// A row is a horizontal grid line when at least half of its pixels are
/// edge pixels.
pub open spec fn is_horizontal_line(edges: Raster8, y: int) -> bool {
    edges.width > 0 && 2 * row_edge_count(edges, y, edges.width as nat) >= edges.width
}

/// The signed offsets of the vertical lines among the first `n` columns, in
/// ascending order.
pub open spec fn vertical_lines_up_to(edges: Raster8, n: nat) -> Seq<u32>
    decreases n,
{
    if n == 0 {
        Seq::empty()
    } else {
        let s = vertical_lines_up_to(edges, (n - 1) as nat);
        if is_vertical_line(edges, n - 1) {
            s.push((n - 1) as u32)
        } else {
            s
        }
    }
}

/// The offsets of all vertical lines of the edge map, ascending.
pub open spec fn vertical_lines(edges: Raster8) -> Seq<u32> {
    vertical_lines_up_to(edges, edges.width as nat)
}

/// The offsets of the horizontal lines among the first `n` rows, ascending.
pub open spec fn horizontal_lines_up_to(edges: Raster8, n: nat) -> Seq<u32>
    decreases n,
{
    if n == 0 {
        Seq::empty()
    } else {
        let s = horizontal_lines_up_to(edges, (n - 1) as nat);
        if is_horizontal_line(edges, n - 1) {
            s.push((n - 1) as u32)
        } else {
            s
        }
    }
}

/// The offsets of all horizontal lines of the edge map, ascending.
pub open spec fn horizontal_lines(edges: Raster8) -> Seq<u32> {
    horizontal_lines_up_to(edges, edges.height as nat)
}

/// Every line offset lies below `n`, and the offsets ascend strictly.
proof fn lemma_vertical_lines_ordered(edges: Raster8, n: nat)
    requires
        n <= 0xFFFF,
    ensures
        forall|i: int|
            0 <= i < vertical_lines_up_to(edges, n).len()
                ==> #[trigger] vertical_lines_up_to(edges, n)[i] < n,
        forall|i: int, j: int|
            0 <= i < j < vertical_lines_up_to(edges, n).len()
                ==> #[trigger] vertical_lines_up_to(edges, n)[i]
                    < #[trigger] vertical_lines_up_to(edges, n)[j],
    decreases n,
{
    if n > 0 {
        lemma_vertical_lines_ordered(edges, (n - 1) as nat);
        let prev = vertical_lines_up_to(edges, (n - 1) as nat);
        let cur = vertical_lines_up_to(edges, n);
        assert forall|i: int| 0 <= i < cur.len() implies #[trigger] cur[i] < n by {
            if !(is_vertical_line(edges, n - 1) && i == cur.len() - 1) {
                assert(cur[i] == prev[i]);
            }
        }
        assert forall|i: int, j: int| 0 <= i < j < cur.len() implies #[trigger] cur[i]
            < #[trigger] cur[j] by {
            assert(cur[i] == prev[i]);
            if !(is_vertical_line(edges, n - 1) && j == cur.len() - 1) {
                assert(cur[j] == prev[j]);
            }
        }
    }
}

/// What the locator returns on a given scan: for the fixed subdivision, the
/// origin with squares of `width / columns`; for detection, the first line
/// offsets and the gap between the first two vertical lines, provided at
/// least `columns + 1` vertical and `rows + 1` horizontal lines were found.
pub open spec fn located_grid(strategy: GridStrategy, edges: Raster8, sd: StepDescription)
    -> Option<GridGeometry> {
    match strategy {
        GridStrategy::FixedSubdivision => Some(
            GridGeometry {
                origin_x: 0,
                origin_y: 0,
                square_size: (edges.width as int / sd.columns as int) as u32,
            },
        ),
        GridStrategy::DetectionBased => {
            let vs = vertical_lines(edges);
            let hs = horizontal_lines(edges);
            if vs.len() >= sd.columns + 1 && hs.len() >= sd.rows + 1 {
                Some(
                    GridGeometry {
                        origin_x: vs[0],
                        origin_y: hs[0],
                        square_size: (vs[1] - vs[0]) as u32,
                    },
                )
            } else {
                None
            }
        },
    }
}

/// Collects the offsets of all vertical grid lines of the edge map.
fn find_vertical_lines(edges: &Raster8) -> (lines: Vec<u32>)
    requires
        edges.wf(),
    ensures
        lines@ == vertical_lines(*edges),
{
    let mut lines: Vec<u32> = Vec::new();
    let mut x: u32 = 0;
    while x < edges.width
        invariant
            edges.wf(),
            x <= edges.width,
            lines@ == vertical_lines_up_to(*edges, x as nat),
        decreases edges.width - x,
    {
        let mut count: u32 = 0;
        let mut y: u32 = 0;
        while y < edges.height
            invariant
                edges.wf(),
                x < edges.width,
                y <= edges.height,
                count <= y,
                count == column_edge_count(*edges, x as int, y as nat),
            decreases edges.height - y,
        {
            if edges.get(x, y) != 0 {
                count = count + 1;
            }
            y = y + 1;
        }
        if edges.height > 0 && 2 * count >= edges.height {
            lines.push(x);
        }
        x = x + 1;
    }
    lines
}

/// Collects the offsets of all horizontal grid lines of the edge map.
fn find_horizontal_lines(edges: &Raster8) -> (lines: Vec<u32>)
    requires
        edges.wf(),
    ensures
        lines@ == horizontal_lines(*edges),
{
    let mut lines: Vec<u32> = Vec::new();
    let mut y: u32 = 0;
    while y < edges.height
        invariant
            edges.wf(),
            y <= edges.height,
            lines@ == horizontal_lines_up_to(*edges, y as nat),
        decreases edges.height - y,
    {
        let mut count: u32 = 0;
        let mut x: u32 = 0;
        while x < edges.width
            invariant
                edges.wf(),
                y < edges.height,
                x <= edges.width,
                count <= x,
                count == row_edge_count(*edges, y as int, x as nat),
            decreases edges.width - x,
        {
            if edges.get(x, y) != 0 {
                count = count + 1;
            }
            x = x + 1;
        }
        if edges.width > 0 && 2 * count >= edges.width {
            lines.push(y);
        }
        y = y + 1;
    }
    lines
}

/// Finds the patch grid in the scan's edge map, by the chosen strategy.
///
/// Fixed subdivision always yields a geometry (whether it fits the raster is
/// for the caller to check); detection fails with `GridNotFound` unless at
/// least `columns + 1` vertical and `rows + 1` horizontal lines are present.
pub fn locate_grid(strategy: GridStrategy, edges: &Raster8, sd: &StepDescription) -> (r: Result<
    GridGeometry,
    AnalyzeError,
>)
    requires
        edges.wf(),
        sd.wf(),
    ensures
        match r {
            Ok(g) => located_grid(strategy, *edges, *sd) == Some(g),
            Err(e) => {
                &&& e == AnalyzeError::GridNotFound
                &&& located_grid(strategy, *edges, *sd) is None
            },
        },
{
    match strategy {
        GridStrategy::FixedSubdivision => Ok(
            GridGeometry { origin_x: 0, origin_y: 0, square_size: edges.width / sd.columns },
        ),
        GridStrategy::DetectionBased => {
            let vs = find_vertical_lines(edges);
            let hs = find_horizontal_lines(edges);
            let needed_v: u32 = sd.columns + 1;
            proof {
                // rows is a quotient of a small numerator, so rows + 1 fits.
                vstd::arithmetic::div_mod::lemma_div_nonincreasing(
                    (sd.count + sd.columns - 1) as int,
                    sd.columns as int,
                );
            }
            let needed_h: u32 = sd.rows + 1;
            if vs.len() >= needed_v as usize && hs.len() >= needed_h as usize {
                proof {
                    lemma_vertical_lines_ordered(*edges, edges.width as nat);
                }
                Ok(GridGeometry { origin_x: vs[0], origin_y: hs[0], square_size: vs[1] - vs[0] })
            } else {
                Err(AnalyzeError::GridNotFound)
            }
        },
    }
}

} // verus!
