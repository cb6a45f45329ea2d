use crate::error::AnalyzeError;
use crate::raster::Raster16;
use crate::sample::{
    lemma_fold_range, lemma_max_fold_attained, lemma_max_fold_ge, lemma_min_fold_attained,
    lemma_min_fold_le, max_fold, min_fold, Samples,
};
use crate::step_description::StepDescription;
use vstd::arithmetic::div_mod::{
    lemma_div_is_ordered, lemma_div_multiples_vanish, lemma_multiply_divide_le,
};
use vstd::prelude::*;

verus! {

/// The normalized tone for raw sample `s`: its distance above the sample
/// minimum, scaled so the sampled range spans the full output range, and
/// truncated.  The subtraction saturates at zero below the minimum.
pub open spec fn norm_value(s: int, min: int, max: int, max_tone: int) -> int {
    if s <= min {
        0
    } else {
        (s - min) * max_tone / (max - min)
    }
}

/// The whole normalized sample sequence: every value normalized, and the
/// order reversed unless the scan is flagged as already inverted (this
/// reconciles patterns ordered light-to-dark with the dark-to-light target
/// sequence; it changes index correspondence only, not magnitudes).
pub open spec fn normalized_seq(values: Seq<u16>, invert: bool, max_tone: int) -> Seq<u16> {
    Seq::new(
        values.len(),
        |i: int|
            {
                let src = if invert {
                    i
                } else {
                    values.len() - 1 - i
                };
                norm_value(values[src] as int, min_fold(values), max_fold(values), max_tone) as u16
            },
    )
}

/// A normalized value never leaves `[0, max_tone]` as long as the raw value
/// does not exceed the sampled maximum.
proof fn lemma_norm_value_bounds(s: int, min: int, max: int, max_tone: int)
    requires
        min < max,
        s <= max,
        0 <= max_tone,
    ensures
        0 <= norm_value(s, min, max, max_tone) <= max_tone,
{
    if s > min {
        assert((s - min) * max_tone <= (max - min) * max_tone) by (nonlinear_arith)
            requires
                s - min <= max - min,
                0 <= max_tone,
        ;
        assert(0 <= (s - min) * max_tone) by (nonlinear_arith)
            requires
                0 < s - min,
                0 <= max_tone,
        ;
        lemma_multiply_divide_le((s - min) * max_tone, max - min, max_tone);
        lemma_div_is_ordered(0, (s - min) * max_tone, max - min);
    }
}

/// The sampled maximum normalizes to exactly `max_tone`.
proof fn lemma_norm_value_at_max(min: int, max: int, max_tone: int)
    requires
        min < max,
        0 <= max_tone,
    ensures
        norm_value(max, min, max, max_tone) == max_tone,
{
    lemma_div_multiples_vanish(max_tone, max - min);
}

/// Rescales the sampled tones so they span the full output range.  Fails
/// with `EmptySampleSet` when there are no samples and with
/// `DegenerateRange` when all samples share one tone.
pub fn normalize_samples(sd: &StepDescription, samples: &Samples, invert: bool) -> (r: Result<
    Vec<u16>,
    AnalyzeError,
>)
    requires
        sd.wf(),
        samples.wf(),
    ensures
        match r {
            Ok(v) => {
                &&& samples.values@.len() > 0
                &&& samples.min < samples.max
                &&& v@ == normalized_seq(samples.values@, invert, sd.max_tone as int)
            },
            Err(e) => {
                &&& (e == AnalyzeError::EmptySampleSet <==> samples.values@.len() == 0)
                &&& (e == AnalyzeError::DegenerateRange <==> samples.values@.len() > 0
                    && samples.min == samples.max)
                &&& (e == AnalyzeError::EmptySampleSet || e == AnalyzeError::DegenerateRange)
            },
        },
{
    let n: usize = samples.values.len();
    if n == 0 {
        return Err(AnalyzeError::EmptySampleSet);
    }
    proof {
        // With at least one sample, the folded minimum cannot exceed the
        // folded maximum.
        lemma_min_fold_le(samples.values@, 0);
        lemma_max_fold_ge(samples.values@, 0);
    }
    if samples.max == samples.min {
        return Err(AnalyzeError::DegenerateRange);
    }

    let mut out: Vec<u16> = Vec::new();
    let mut i: usize = 0;
    while i < n
        invariant
            sd.wf(),
            samples.wf(),
            n == samples.values@.len(),
            samples.min < samples.max,
            i <= n,
            out@.len() == i,
            forall|k: int|
                0 <= k < i ==> #[trigger] out@[k] == normalized_seq(
                    samples.values@,
                    invert,
                    sd.max_tone as int,
                )[k],
        decreases n - i,
    {
        let src: usize = if invert {
            i
        } else {
            n - 1 - i
        };
        let s: u16 = samples.values[src];
        proof {
            lemma_max_fold_ge(samples.values@, src as int);
            lemma_norm_value_bounds(
                s as int,
                samples.min as int,
                samples.max as int,
                sd.max_tone as int,
            );
        }
        let normalized: u16 = if s <= samples.min {
            0
        } else {
            let diff: u64 = (s - samples.min) as u64;
            let mt: u64 = sd.max_tone as u64;
            assert(diff * mt < 0x1_0000_0000) by (nonlinear_arith)
                requires
                    diff <= 0xFFFF,
                    mt <= 0xFFFF,
            ;
            let num: u64 = diff * mt;
            (num / ((samples.max - samples.min) as u64)) as u16
        };
        out.push(normalized);
        i = i + 1;
    }
    proof {
        assert(out@ =~= normalized_seq(samples.values@, invert, sd.max_tone as int));
    }
    Ok(out)
}

/// The normalized preview pixel: the same affine map applied to a raster
/// pixel, clipped at full scale (a pixel may exceed the sampled maximum).
pub open spec fn norm_pixel(p: int, min: int, max: int, max_tone: int) -> int {
    let v = norm_value(p, min, max, max_tone);
    if v > 0xFFFF {
        0xFFFF
    } else {
        v
    }
}

/// Applies the normalizing affine map to every pixel of the raster, for the
/// diagnostic preview image.
pub fn normalize_raster(sd: &StepDescription, image: &Raster16, sample_min: u16, sample_max: u16)
    -> (out: Raster16)
    requires
        sd.wf(),
        image.wf(),
        sample_min < sample_max,
    ensures
        out.wf(),
        out.width == image.width,
        out.height == image.height,
        forall|i: int|
            0 <= i < image.pixels@.len() ==> out.pixels@[i] == norm_pixel(
                image.pixels@[i] as int,
                sample_min as int,
                sample_max as int,
                sd.max_tone as int,
            ),
{
    let mut pixels: Vec<u16> = Vec::new();
    let mut i: usize = 0;
    while i < image.pixels.len()
        invariant
            sd.wf(),
            sample_min < sample_max,
            i <= image.pixels@.len(),
            pixels@.len() == i,
            forall|k: int|
                0 <= k < i ==> #[trigger] pixels@[k] == norm_pixel(
                    image.pixels@[k] as int,
                    sample_min as int,
                    sample_max as int,
                    sd.max_tone as int,
                ),
        decreases image.pixels@.len() - i,
    {
        let p: u16 = image.pixels[i];
        let normalized: u16 = if p <= sample_min {
            0
        } else {
            let diff: u64 = (p - sample_min) as u64;
            let mt: u64 = sd.max_tone as u64;
            assert(diff * mt < 0x1_0000_0000) by (nonlinear_arith)
                requires
                    diff <= 0xFFFF,
                    mt <= 0xFFFF,
            ;
            let num: u64 = diff * mt;
            let v: u64 = num / ((sample_max - sample_min) as u64);
            proof {
                lemma_div_is_ordered(0, num as int, (sample_max - sample_min) as int);
            }
            if v > 0xFFFF {
                0xFFFF
            } else {
                v as u16
            }
        };
        pixels.push(normalized);
        i = i + 1;
    }
    Raster16::from_pixels(image.width, image.height, pixels)
}

/// With a non-degenerate sampled range, the normalized sequence spans the
/// full output range: every value lies in `[0, max_tone]`, its minimum is
/// `0`, and its maximum is exactly `max_tone`.
pub proof fn lemma_normalized_extremes(values: Seq<u16>, invert: bool, max_tone: int)
    requires
        values.len() > 0,
        min_fold(values) < max_fold(values),
        1 <= max_tone <= 0xFFFF,
    ensures
        forall|i: int|
            0 <= i < values.len() ==> 0 <= #[trigger] normalized_seq(values, invert, max_tone)[i]
                <= max_tone,
        exists|i: int|
            0 <= i < values.len() && normalized_seq(values, invert, max_tone)[i] == 0,
        exists|i: int|
            0 <= i < values.len() && normalized_seq(values, invert, max_tone)[i] == max_tone,
{
    let mn = min_fold(values);
    let mx = max_fold(values);
    let ns = normalized_seq(values, invert, max_tone);
    let len = values.len() as int;

    assert forall|i: int| 0 <= i < values.len() implies 0 <= #[trigger] ns[i] <= max_tone by {
        let src = if invert {
            i
        } else {
            len - 1 - i
        };
        lemma_max_fold_ge(values, src);
        lemma_norm_value_bounds(values[src] as int, mn, mx, max_tone);
    }

    lemma_min_fold_attained(values);
    let j = choose|j: int| 0 <= j < values.len() && values[j] == min_fold(values);
    let i0 = if invert {
        j
    } else {
        len - 1 - j
    };
    lemma_fold_range(values);
    assert(ns[i0] == 0);

    lemma_max_fold_attained(values);
    let k = choose|k: int| 0 <= k < values.len() && values[k] == max_fold(values);
    let i1 = if invert {
        k
    } else {
        len - 1 - k
    };
    lemma_norm_value_at_max(mn, mx, max_tone);
    assert(ns[i1] == max_tone);
}

} // verus!
