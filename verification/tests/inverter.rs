use curved::error::AnalyzeError;
use curved::linearize::{find_closest_matching_input_density, linearize_inputs};

#[test]
fn test_find_closest_matching_input_density() {
    let haystack: Vec<(u16, u16)> = vec![
        (1, 0),
        (2, 0),
        (3, 0),
        (4, 4),
        (5, 9),
        (6, 16),
        (7, 25),
        (8, 25),
        (9, 25),
        (10, 25),
    ];
    // l_bound = 3
    // u_bound = None
    let mut result = find_closest_matching_input_density(&haystack, 0).unwrap();
    assert_eq!(result, 3);

    // l_bound = 3
    // u_bound = None
    result = find_closest_matching_input_density(&haystack, 1).unwrap();
    assert_eq!(result, 3);

    // l_bound = None
    // u_bound = 7
    result = find_closest_matching_input_density(&haystack, 25).unwrap();
    assert_eq!(result, 7);

    // l_bound = 3
    // u_bound = 4
    result = find_closest_matching_input_density(&haystack, 2).unwrap();
    assert_eq!(result, 3);

    // l_bound = 4
    // u_bound = 5
    result = find_closest_matching_input_density(&haystack, 5).unwrap();
    assert_eq!(result, 4);

    // l_bound = 6
    // u_bound = 7
    result = find_closest_matching_input_density(&haystack, 19).unwrap();
    assert_eq!(result, 6);

    // check an exact match
    result = find_closest_matching_input_density(&haystack, 9).unwrap();
    assert_eq!(result, 5);
}

#[test]
fn test_inversion_out_of_range() {
    // Every observed output equals the needle: neither scan finds a bound.
    let haystack: Vec<(u16, u16)> = vec![(1, 5), (2, 5), (3, 5)];
    let result = find_closest_matching_input_density(&haystack, 5);
    assert_eq!(result, Err(AnalyzeError::ToneOutOfRange));
}

#[test]
fn test_linearize_identity_observation() {
    // Observed outputs equal the targets: every point lands on the diagonal.
    let targets: Vec<u16> = vec![0, 10, 20, 30];
    let samples: Vec<u16> = vec![0, 10, 20, 30];
    let points = linearize_inputs(&targets, &samples).unwrap();
    assert_eq!(points, vec![(0, 0), (10, 10), (20, 20), (30, 30)]);
}

#[test]
fn test_linearize_point_count_and_targets() {
    let targets: Vec<u16> = vec![0, 5, 10];
    let samples: Vec<u16> = vec![2, 4, 9];
    let points = linearize_inputs(&targets, &samples).unwrap();
    // One point per target, first coordinates are the targets themselves.
    assert_eq!(points.len(), targets.len());
    for (i, point) in points.iter().enumerate() {
        assert_eq!(point.0, targets[i]);
    }
    // Worked by hand over the table [(0,2),(5,4),(10,9)].
    assert_eq!(points, vec![(0, 0), (5, 7), (10, 65535)]);
}

#[test]
fn test_linearize_fails_on_flat_observation() {
    // All outputs equal one of the needles, so that needle has no bounds.
    let targets: Vec<u16> = vec![0, 7];
    let samples: Vec<u16> = vec![7, 7];
    let result = linearize_inputs(&targets, &samples);
    assert_eq!(result, Err(AnalyzeError::ToneOutOfRange));
}
