use curved::raster::{Raster16, Rect};
use curved::sample::{collect_samples, sampled_areas, sampled_mean, Samples};
use curved::step_description::StepDescription;

fn raster_from_fn(width: u32, height: u32, f: impl Fn(u32, u32) -> u16) -> Raster16 {
    let mut pixels: Vec<u16> = Vec::new();
    for y in 0..height {
        for x in 0..width {
            pixels.push(f(x, y));
        }
    }
    Raster16::from_pixels(width, height, pixels)
}

#[test]
fn test_sampled_mean_zero() {
    let buffer = Raster16::new(100, 100);
    let rect = Rect { x: 10, y: 10, width: 10, height: 10 };
    let result = sampled_mean(&buffer, &rect);
    assert_eq!(result, 0);
}

#[test]
fn test_sampled_mean() {
    let buffer = raster_from_fn(100, 100, |x, y| (x * y) as u16);
    let rect = Rect { x: 10, y: 10, width: 10, height: 10 };
    let result = sampled_mean(&buffer, &rect);
    assert_eq!(result, 210);
}

#[test]
fn test_uniform_patch_samples_to_its_tone() {
    // A uniformly filled rectangle samples to exactly its fill value,
    // whatever the window size — a single pixel included.
    let buffer = raster_from_fn(16, 16, |_, _| 777);
    for rect in [
        Rect { x: 0, y: 0, width: 16, height: 16 },
        Rect { x: 3, y: 5, width: 7, height: 2 },
        Rect { x: 9, y: 9, width: 1, height: 1 },
    ] {
        assert_eq!(sampled_mean(&buffer, &rect), 777);
    }
}

#[test]
fn test_sampled_mean_truncates() {
    // Mean of 1 and 2 truncates to 1.
    let buffer = Raster16::from_pixels(2, 1, vec![1, 2]);
    let rect = Rect { x: 0, y: 0, width: 2, height: 1 };
    assert_eq!(sampled_mean(&buffer, &rect), 1);
}

#[test]
fn test_samples_extremes() {
    let s = Samples::new(vec![500, 20, 65000, 31]);
    assert_eq!(s.min, 20);
    assert_eq!(s.max, 65000);
    // An empty set keeps the fold seeds.
    let e = Samples::new(vec![]);
    assert_eq!(e.min, 0xFFFF);
    assert_eq!(e.max, 0);
}

#[test]
fn test_sampled_areas_layout() {
    // Four patches in two columns of 50-pixel squares: margin 12, side 26.
    let sd = StepDescription::new(4, 2, 100, 65535);
    let grid = curved::grid::GridGeometry { origin_x: 0, origin_y: 0, square_size: 50 };
    let rects = sampled_areas(&sd, &grid);
    assert_eq!(rects.len(), 4);
    assert_eq!(rects[0], Rect { x: 12, y: 12, width: 26, height: 26 });
    assert_eq!(rects[1], Rect { x: 62, y: 12, width: 26, height: 26 });
    assert_eq!(rects[2], Rect { x: 12, y: 62, width: 26, height: 26 });
    assert_eq!(rects[3], Rect { x: 62, y: 62, width: 26, height: 26 });
}

#[test]
fn test_collect_samples_means_and_extremes() {
    let buffer = raster_from_fn(4, 2, |x, _| (x * 100) as u16);
    let rects = vec![
        Rect { x: 0, y: 0, width: 2, height: 2 },
        Rect { x: 2, y: 0, width: 2, height: 2 },
    ];
    let samples = collect_samples(&buffer, &rects);
    assert_eq!(samples.values, vec![50, 250]);
    assert_eq!(samples.min, 50);
    assert_eq!(samples.max, 250);
}
