use curved::curve::{apply, ToneCurve};
use curved::raster::Raster16;

#[test]
fn test_curve_rejects_bad_points() {
    assert!(ToneCurve::new(vec![]).is_none());
    assert!(ToneCurve::new(vec![(5, 1), (5, 2)]).is_none());
    assert!(ToneCurve::new(vec![(9, 1), (3, 2)]).is_none());
    assert!(ToneCurve::new(vec![(3, 1), (9, 2)]).is_some());
}

#[test]
fn test_curve_passthrough() {
    // The curve hits every calibration point exactly.
    let points: Vec<(u16, u16)> = vec![(0, 0), (100, 50), (200, 300), (300, 280)];
    let curve = ToneCurve::new(points.clone()).unwrap();
    for (x, y) in points {
        assert_eq!(curve.evaluate_clamped(x), y);
    }
}

#[test]
fn test_clamped_evaluation() {
    // Below the first key: the first point's value.  Above the last key:
    // the last point's value.
    let curve = ToneCurve::new(vec![(10, 5), (20, 9)]).unwrap();
    assert_eq!(curve.evaluate_clamped(0), 5);
    assert_eq!(curve.evaluate_clamped(9), 5);
    assert_eq!(curve.evaluate_clamped(10), 5);
    assert_eq!(curve.evaluate_clamped(20), 9);
    assert_eq!(curve.evaluate_clamped(21), 9);
    assert_eq!(curve.evaluate_clamped(60000), 9);
}

#[test]
fn test_interpolation_rounds_half_up() {
    let curve = ToneCurve::new(vec![(0, 0), (10, 5)]).unwrap();
    // Exact midpoints of the slope 1/2 round up.
    assert_eq!(curve.evaluate_clamped(1), 1);
    assert_eq!(curve.evaluate_clamped(2), 1);
    assert_eq!(curve.evaluate_clamped(3), 2);
    assert_eq!(curve.evaluate_clamped(4), 2);
    assert_eq!(curve.evaluate_clamped(6), 3);
}

#[test]
fn test_interpolation_decreasing_segment() {
    let curve = ToneCurve::new(vec![(0, 100), (10, 0)]).unwrap();
    assert_eq!(curve.evaluate_clamped(0), 100);
    assert_eq!(curve.evaluate_clamped(5), 50);
    assert_eq!(curve.evaluate_clamped(10), 0);
    assert_eq!(curve.evaluate_clamped(1), 90);
}

#[test]
fn test_apply_identity_curve() {
    // An identity curve over the whole range leaves every pixel unchanged.
    let curve = ToneCurve::new(vec![(0, 0), (65535, 65535)]).unwrap();
    let pixels: Vec<u16> = vec![0, 1, 77, 650, 32768, 65534, 65535];
    let image = Raster16::from_pixels(7, 1, pixels.clone());
    let out = apply(&image, &curve);
    assert_eq!(out.width, 7);
    assert_eq!(out.height, 1);
    assert_eq!(out.pixels, pixels);
}

#[test]
fn test_apply_maps_each_pixel() {
    let curve = ToneCurve::new(vec![(10, 20), (20, 40)]).unwrap();
    let image = Raster16::from_pixels(2, 2, vec![0, 10, 15, 30]);
    let out = apply(&image, &curve);
    assert_eq!(out.pixels, vec![20, 20, 30, 40]);
}
