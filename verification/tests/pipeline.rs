use curved::analyze::analyze;
use curved::error::AnalyzeError;
use curved::grid::{locate_grid, GridGeometry, GridStrategy};
use curved::histogram::create_histogram;
use curved::normalize::{normalize_raster, normalize_samples};
use curved::raster::{Raster16, Raster8};
use curved::sample::Samples;
use curved::step_description::StepDescription;

#[test]
fn test_step_description_derived_fields() {
    let sd = StepDescription::new(101, 10, 1000, 65535);
    assert_eq!(sd.interval, 649);
    assert_eq!(sd.square_size, 100);
    assert_eq!(sd.rows, 11);
    assert_eq!(sd.height, 1100);
    assert_eq!(sd.expected_interval, 655);
}

#[test]
fn test_input_values_sequence() {
    let sd = StepDescription::new(101, 10, 1000, 65535);
    let values = sd.input_values();
    assert_eq!(values.len(), 101);
    assert_eq!(values[0], 0);
    assert_eq!(values[1], 655);
    assert_eq!(values[100], 65500);
    for i in 1..values.len() {
        assert!(values[i - 1] < values[i]);
    }
}

#[test]
fn test_grid_fixed_subdivision() {
    let sd = StepDescription::new(100, 10, 1000, 65535);
    let edges = Raster8::new(1000, 1000);
    let grid = locate_grid(GridStrategy::FixedSubdivision, &edges, &sd).unwrap();
    assert_eq!(grid, GridGeometry { origin_x: 0, origin_y: 0, square_size: 100 });
}

fn synthetic_edge_map(size: u32, spacing: u32) -> Raster8 {
    let mut pixels: Vec<u8> = Vec::new();
    for y in 0..size {
        for x in 0..size {
            if x % spacing == 0 || y % spacing == 0 {
                pixels.push(255);
            } else {
                pixels.push(0);
            }
        }
    }
    Raster8::from_pixels(size, size, pixels)
}

#[test]
fn test_grid_detection_synthetic_lines() {
    // Eleven evenly spaced vertical lines at x = 0, 100, ..., 1000, and
    // eleven horizontal lines likewise.
    let sd = StepDescription::new(100, 10, 1000, 65535);
    let edges = synthetic_edge_map(1001, 100);
    let grid = locate_grid(GridStrategy::DetectionBased, &edges, &sd).unwrap();
    assert_eq!(grid, GridGeometry { origin_x: 0, origin_y: 0, square_size: 100 });
}

#[test]
fn test_grid_detection_too_few_lines() {
    // Only six lines in each direction: fewer than columns + 1.
    let sd = StepDescription::new(100, 10, 1000, 65535);
    let edges = synthetic_edge_map(501, 100);
    let result = locate_grid(GridStrategy::DetectionBased, &edges, &sd);
    assert_eq!(result, Err(AnalyzeError::GridNotFound));
}

#[test]
fn test_normalize_spans_full_range() {
    // With a non-degenerate range the normalized minimum is 0 and the
    // maximum is exactly max_tone.
    let sd = StepDescription::new(3, 3, 30, 65535);
    let samples = Samples::new(vec![100, 300, 500]);
    let normalized = normalize_samples(&sd, &samples, true).unwrap();
    assert_eq!(normalized, vec![0, 32767, 65535]);
    assert_eq!(*normalized.iter().min().unwrap(), 0);
    assert_eq!(*normalized.iter().max().unwrap(), 65535);
}

#[test]
fn test_normalize_reverses_without_invert() {
    let sd = StepDescription::new(3, 3, 30, 65535);
    let samples = Samples::new(vec![100, 300, 500]);
    let normalized = normalize_samples(&sd, &samples, false).unwrap();
    assert_eq!(normalized, vec![65535, 32767, 0]);
}

#[test]
fn test_normalize_empty_sample_set() {
    let sd = StepDescription::new(3, 3, 30, 65535);
    let samples = Samples::new(vec![]);
    let result = normalize_samples(&sd, &samples, true);
    assert_eq!(result, Err(AnalyzeError::EmptySampleSet));
}

#[test]
fn test_normalize_degenerate_range() {
    let sd = StepDescription::new(3, 3, 30, 65535);
    let samples = Samples::new(vec![42, 42, 42]);
    let result = normalize_samples(&sd, &samples, true);
    assert_eq!(result, Err(AnalyzeError::DegenerateRange));
}

#[test]
fn test_normalize_raster_saturates_subtraction() {
    let sd = StepDescription::new(3, 3, 30, 65535);
    let image = Raster16::from_pixels(4, 1, vec![5, 10, 20, 30]);
    let out = normalize_raster(&sd, &image, 10, 20);
    // 5 saturates to 0; 10 maps to 0; 20 maps to full scale; 30 would map
    // beyond full scale and clips.
    assert_eq!(out.pixels, vec![0, 0, 65535, 65535]);
}

#[test]
fn test_histogram_counts_grid_region() {
    // A 4x4 grid region of a 4x4 raster: one pixel in bucket 1, the rest in
    // bucket 0.
    let sd = StepDescription::new(4, 2, 4, 65535);
    let grid = GridGeometry { origin_x: 0, origin_y: 0, square_size: 2 };
    let mut pixels: Vec<u16> = vec![0; 16];
    pixels[5] = 256;
    let image = Raster16::from_pixels(4, 4, pixels);
    let h = create_histogram(&image, &grid, &sd);
    assert_eq!(h.len(), 256);
    assert_eq!(h[0], 15);
    assert_eq!(h[1], 1);
    for b in 2..256 {
        assert_eq!(h[b], 0);
    }
}

/// A perfect scan: patch `n` is uniformly filled with the nominal target
/// tone of patch `n`.
fn perfect_scan(sd: &StepDescription) -> Raster16 {
    let width = sd.width;
    let height = sd.rows * sd.square_size;
    let targets = sd.input_values();
    let mut pixels: Vec<u16> = Vec::new();
    for y in 0..height {
        for x in 0..width {
            let col = x / sd.square_size;
            let row = y / sd.square_size;
            let n = (row * sd.columns + col) as usize;
            pixels.push(targets[n]);
        }
    }
    Raster16::from_pixels(width, height, pixels)
}

#[test]
fn test_analyze_perfect_scan_gives_identity_curve() {
    // A scan whose normalized samples equal the target tones exactly: the
    // calibration curve is the identity and applying it changes nothing.
    let sd = StepDescription::new(4, 2, 100, 65535);
    let image = perfect_scan(&sd);
    let edges = Raster8::new(image.width, image.height);
    let results = analyze(&sd, &image, &edges, GridStrategy::FixedSubdivision, true).unwrap();

    let targets = sd.input_values();
    let points = results.curve.points();
    assert_eq!(points.len(), 4);
    for (i, point) in points.iter().enumerate() {
        assert_eq!(*point, (targets[i], targets[i]));
    }

    let sample_image = Raster16::from_pixels(3, 1, vec![0, 21845, 65535]);
    let out = curved::curve::apply(&sample_image, &results.curve);
    assert_eq!(out.pixels, vec![0, 21845, 65535]);

    // The preview is normalized over the full range, so it too is unchanged.
    assert_eq!(results.normalized_image.pixels, image.pixels);
    // All of the 100x100 grid region lands in the histogram.
    let total: u64 = results.histogram.iter().map(|c| *c as u64).sum();
    assert_eq!(total, 10000);
}

#[test]
fn test_analyze_grid_outside_scan() {
    // The fixed subdivision expects rows * square_size pixels of height;
    // a shorter scan has no usable grid.
    let sd = StepDescription::new(4, 2, 100, 65535);
    let image = Raster16::from_pixels(100, 40, vec![0; 4000]);
    let edges = Raster8::new(100, 40);
    let result = analyze(&sd, &image, &edges, GridStrategy::FixedSubdivision, true);
    assert!(matches!(result, Err(AnalyzeError::GridNotFound)));
}

#[test]
fn test_analyze_flat_scan_degenerate_range() {
    let sd = StepDescription::new(4, 2, 100, 65535);
    let image = Raster16::from_pixels(100, 100, vec![500; 10000]);
    let edges = Raster8::new(100, 100);
    let result = analyze(&sd, &image, &edges, GridStrategy::FixedSubdivision, true);
    assert!(matches!(result, Err(AnalyzeError::DegenerateRange)));
}
