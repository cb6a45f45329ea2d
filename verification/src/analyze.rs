use crate::curve::{eval_spec, strictly_increasing, ToneCurve};
use crate::error::AnalyzeError;
use crate::grid::{locate_grid, located_grid, GridGeometry, GridStrategy};
use crate::histogram::{bucket_count, create_histogram, grid_region};
use crate::linearize::{
    inverted, lemma_invert_identity, linearize_inputs, table_of,
};
use crate::normalize::{norm_pixel, normalize_raster, normalize_samples, normalized_seq};
use crate::raster::{Raster16, Raster8};
use crate::sample::{
    collect_samples, lemma_patch_rect_in_grid, max_fold, min_fold, patch_rect, rect_mean,
    sampled_areas,
};
use crate::step_description::StepDescription;
use vstd::prelude::*;

verus! {

/// Everything an analyze run produces: the normalized preview raster, the
/// fitted correction curve, and the diagnostic histogram of the grid region.
pub struct AnalyzeResults {
    pub normalized_image: Raster16,
    pub curve: ToneCurve,
    pub histogram: Vec<u32>,
}

/// The raw sample sequence of a located grid: the truncated mean tone of
/// every patch window, in row-major patch order.
pub open spec fn samples_of(sd: StepDescription, image: Raster16, grid: GridGeometry) -> Seq<
    u16,
> {
    Seq::new(sd.count as nat, |n: int| rect_mean(image, patch_rect(sd, grid, n)) as u16)
}

/// The calibration lookup table of an analyze run: every target tone paired
/// with the normalized sample at the same patch index.
pub open spec fn analysis_table(
    sd: StepDescription,
    image: Raster16,
    grid: GridGeometry,
    invert: bool,
) -> Seq<(u16, u16)> {
    table_of(
        sd.target_tones(),
        normalized_seq(samples_of(sd, image, grid), invert, sd.max_tone as int),
    )
}

/// Which error an analyze run reports, if any: a grid that cannot be
/// located or whose region leaves the raster counts as not found; then the
/// degenerate-range check; then the inversion of every target tone.
pub open spec fn analyze_error(
    sd: StepDescription,
    image: Raster16,
    edges: Raster8,
    strategy: GridStrategy,
    invert: bool,
) -> Option<AnalyzeError> {
    match located_grid(strategy, edges, sd) {
        None => Some(AnalyzeError::GridNotFound),
        Some(grid) => if !grid.fits(sd, image.width as int, image.height as int) {
            Some(AnalyzeError::GridNotFound)
        } else {
            let vals = samples_of(sd, image, grid);
            if max_fold(vals) == min_fold(vals) {
                Some(AnalyzeError::DegenerateRange)
            } else {
                let t = analysis_table(sd, image, grid, invert);
                if exists|i: int|
                    0 <= i < sd.target_tones().len() && inverted(
                        t,
                        #[trigger] sd.target_tones()[i],
                    ) is None {
                    Some(AnalyzeError::ToneOutOfRange)
                } else {
                    None
                }
            }
        },
    }
}

/// Analyzes a scan of the printed calibration target and derives the tone
/// correction curve.
///
/// The scan is supplied decoded, as the 16-bit working raster together with
/// its 8-bit derivative for grid detection.  The run locates the patch grid,
/// samples the mean tone of every patch window, normalizes the samples to
/// the full tonal range, inverts the normalized response at every target
/// tone, and fits the clamped interpolation curve through the calibration
/// points.  A complete result or a single terminal error is returned; there
/// is no partial output.
pub fn analyze(
    sd: &StepDescription,
    image: &Raster16,
    edges: &Raster8,
    strategy: GridStrategy,
    invert: bool,
) -> (r: Result<AnalyzeResults, AnalyzeError>)
    requires
        sd.wf(),
        image.wf(),
        edges.wf(),
        edges.width == image.width,
        edges.height == image.height,
    ensures
        match r {
            Ok(res) => {
                &&& analyze_error(*sd, *image, *edges, strategy, invert) is None
                &&& located_grid(strategy, *edges, *sd) is Some
                &&& (located_grid(strategy, *edges, *sd) matches Some(grid) ==> {
                    let targets = sd.target_tones();
                    let vals = samples_of(*sd, *image, grid);
                    let t = analysis_table(*sd, *image, grid, invert);
                    &&& grid.fits(*sd, image.width as int, image.height as int)
                    &&& res.curve.wf()
                    &&& res.curve@.len() == sd.count
                    &&& forall|i: int|
                        0 <= i < sd.count ==> (#[trigger] res.curve@[i]).0 == targets[i]
                    &&& forall|i: int|
                        0 <= i < sd.count ==> inverted(t, targets[i]) == Some(
                            (#[trigger] res.curve@[i]).1,
                        )
                    &&& res.normalized_image.wf()
                    &&& res.normalized_image.width == image.width
                    &&& res.normalized_image.height == image.height
                    &&& forall|k: int|
                        0 <= k < image.pixels@.len()
                            ==> res.normalized_image.pixels@[k] == norm_pixel(
                            image.pixels@[k] as int,
                            min_fold(vals),
                            max_fold(vals),
                            sd.max_tone as int,
                        )
                    &&& res.histogram@.len() == 256
                    &&& forall|b: int|
                        0 <= b < 256 ==> #[trigger] res.histogram@[b] == bucket_count(
                            res.normalized_image,
                            grid_region(*sd, grid),
                            b,
                        )
                })
            },
            Err(e) => analyze_error(*sd, *image, *edges, strategy, invert) == Some(e),
        },
{
    let input_values: Vec<u16> = sd.input_values();

    let grid: GridGeometry = match locate_grid(strategy, edges, sd) {
        Ok(g) => g,
        Err(e) => {
            return Err(e);
        },
    };

    // The locator's geometry is only usable when the whole grid region lies
    // inside the scan; a grid placed outside it was not really found.
    let c64: u64 = sd.columns as u64;
    let r64: u64 = sd.rows as u64;
    let s64: u64 = grid.square_size as u64;
    assert(c64 * s64 <= 0xFFFF_FFFF * 0xFFFF_FFFFu64 && r64 * s64 <= 0xFFFF_FFFF
        * 0xFFFF_FFFFu64) by (nonlinear_arith)
        requires
            c64 <= 0xFFFF_FFFF,
            r64 <= 0xFFFF_FFFF,
            s64 <= 0xFFFF_FFFF,
    ;
    let cols_extent: u64 = c64 * s64;
    let rows_extent: u64 = r64 * s64;
    if !(grid.square_size >= 1 && (grid.origin_x as u64) + cols_extent <= (image.width as u64)
        && (grid.origin_y as u64) + rows_extent <= (image.height as u64)) {
        return Err(AnalyzeError::GridNotFound);
    }
    assert(grid.fits(*sd, image.width as int, image.height as int));

    let rects = sampled_areas(sd, &grid);
    proof {
        assert forall|n: int| 0 <= n < rects@.len() implies (#[trigger] rects@[n]).is_nonempty()
            && rects@[n].within(image.width as int, image.height as int) by {
            lemma_patch_rect_in_grid(*sd, grid, n);
        }
    }
    let samples = collect_samples(image, &rects);
    proof {
        assert forall|n: int| 0 <= n < sd.count implies samples.values@[n]
            == #[trigger] samples_of(*sd, *image, grid)[n] by {
            assert(samples.values@[n] == rect_mean(*image, rects@[n]));
        }
        assert(samples.values@ =~= samples_of(*sd, *image, grid));
    }

    let normalized_samples: Vec<u16> = match normalize_samples(sd, &samples, invert) {
        Ok(v) => v,
        Err(e) => {
            // With count >= 2 patches the sample set is never empty, so the
            // only reachable failure here is the degenerate range.
            assert(e == AnalyzeError::DegenerateRange);
            return Err(e);
        },
    };

    let curve_points: Vec<(u16, u16)> = match linearize_inputs(&input_values, &normalized_samples)
        {
        Ok(p) => p,
        Err(e) => {
            return Err(e);
        },
    };

    proof {
        assert forall|k: int| 0 <= k && k + 1 < curve_points@.len() implies (
        #[trigger] curve_points@[k]).0 < curve_points@[k + 1].0 by {
            assert(curve_points@[k].0 == input_values@[k]);
            assert(curve_points@[k + 1].0 == input_values@[k + 1]);
        }
        assert(strictly_increasing(curve_points@));
    }
    let ghost gpoints = curve_points@;
    let curve_opt: Option<ToneCurve> = ToneCurve::new(curve_points);
    let curve: ToneCurve = curve_opt.unwrap();

    let normalized_image: Raster16 = normalize_raster(sd, image, samples.min, samples.max);
    let histogram: Vec<u32> = create_histogram(&normalized_image, &grid, sd);

    proof {
        let targets = sd.target_tones();
        let t = analysis_table(*sd, *image, grid, invert);
        assert(normalized_samples@ == normalized_seq(
            samples_of(*sd, *image, grid),
            invert,
            sd.max_tone as int,
        ));
        assert(t == table_of(input_values@, normalized_samples@));
        assert forall|i: int| 0 <= i < targets.len() implies !(inverted(
            t,
            #[trigger] targets[i],
        ) is None) by {
            assert(inverted(t, input_values@[i]) == Some(gpoints[i].1));
        }
    }

    Ok(AnalyzeResults { normalized_image, curve, histogram })
}

/// Identity response: when the observed (normalized) samples equal the
/// target tones entry for entry, every calibration point lands on the
/// diagonal and the fitted curve maps each tone of the covered range to
/// itself — applying it leaves an image's tones unchanged.  Tones above the
/// last target tone clamp to it and are not covered.
pub proof fn lemma_identity_response(targets: Seq<u16>, points: Seq<(u16, u16)>, x: u16)
    requires
        targets.len() >= 2,
        forall|i: int|
            0 <= i && i + 1 < targets.len() ==> targets[i] < #[trigger] targets[i + 1],
        points.len() == targets.len(),
        forall|i: int| 0 <= i < points.len() ==> (#[trigger] points[i]).0 == targets[i],
        forall|i: int|
            0 <= i < points.len() ==> inverted(table_of(targets, targets), targets[i]) == Some(
                (#[trigger] points[i]).1,
            ),
        targets[0] <= x <= targets.last(),
    ensures
        forall|i: int| 0 <= i < points.len() ==> (#[trigger] points[i]).1 == targets[i],
        eval_spec(points, x) == x,
{
    let t = table_of(targets, targets);
    assert(t.len() == targets.len());
    assert(strictly_increasing(t));
    assert forall|j: int, k: int| 0 <= j < k < t.len() implies (#[trigger] t[j]).0 < (
    #[trigger] t[k]).0 by {
        crate::curve::lemma_increasing_global(t, j, k);
    }
    assert forall|i: int| 0 <= i < points.len() implies (#[trigger] points[i]).1
        == targets[i] by {
        lemma_invert_identity(t, i);
        assert(t[i].0 == targets[i]);
    }
    assert(strictly_increasing(points));
    assert(points[0].0 == targets[0]);
    assert(points.last().0 == targets.last());
    crate::curve::lemma_eval_identity(points, x);
}

} // verus!
