use thumbs::fit::fit_dimensions;
use thumbs::params::ThumbnailParams;
use thumbs::tone::{apply_tone, observed_bounds, tone_map};

#[test]
fn fit_shrinks_preserving_aspect_ratio() {
    assert_eq!(fit_dimensions(4000, 3000, 100, 100), (100, 75));
    assert_eq!(fit_dimensions(3000, 4000, 100, 100), (75, 100));
    assert_eq!(fit_dimensions(200, 100, 100, 100), (100, 50));
}

#[test]
fn fit_fills_the_binding_side_exactly() {
    let (w, h) = fit_dimensions(640, 480, 100, 90);
    assert!(w == 100 || h == 90);
    assert_eq!((w, h), (100, 75));
}

#[test]
fn fit_rounds_the_free_side() {
    // 1000 x 333 into 100 x 100: height becomes round(333 / 10) = 33
    assert_eq!(fit_dimensions(1000, 333, 100, 100), (100, 33));
    // 1000 x 335 into 100 x 100: height becomes round(33.5) = 34
    assert_eq!(fit_dimensions(1000, 335, 100, 100), (100, 34));
}

#[test]
fn fit_never_returns_a_zero_dimension() {
    assert_eq!(fit_dimensions(1, 10000, 100, 100), (1, 100));
    assert_eq!(fit_dimensions(10000, 1, 100, 100), (100, 1));
}

#[test]
fn remap_has_exact_values() {
    let out = tone_map(&vec![0, 50, 100, 150, 200, 255], 50, 150);
    assert_eq!(out, vec![0, 0, 127, 255, 255, 255]);
}

#[test]
fn remap_with_inverted_bounds_saturates() {
    let out = tone_map(&vec![0, 100, 200], 200, 10);
    assert_eq!(out, vec![0, 0, 0]);
}

#[test]
fn observed_bounds_finds_min_and_max() {
    assert_eq!(observed_bounds(&vec![42, 7, 200, 13]), (7, 200));
    assert_eq!(observed_bounds(&vec![]), (255, 0));
}

#[test]
fn autocontrast_stretches_observed_range() {
    let p = ThumbnailParams {
        width: 1,
        height: 1,
        min: None,
        max: None,
        autocontrast: Some(true),
    };
    let out = apply_tone(&vec![100, 150, 200], &p);
    // 100 -> 0, 200 -> 255, 150 -> (50 * 255) / 100 = 127
    assert_eq!(out, vec![0, 127, 255]);
}

#[test]
fn autocontrast_leaves_flat_buffer_unchanged() {
    let p = ThumbnailParams {
        width: 1,
        height: 1,
        min: None,
        max: None,
        autocontrast: Some(true),
    };
    assert_eq!(apply_tone(&vec![80, 80, 80], &p), vec![80, 80, 80]);
}

#[test]
fn tone_pass_applies_bounds_then_autocontrast() {
    let p = ThumbnailParams {
        width: 1,
        height: 1,
        min: Some(50),
        max: Some(150),
        autocontrast: None,
    };
    assert_eq!(apply_tone(&vec![0, 100, 255], &p), vec![0, 127, 255]);
    let no_tone = ThumbnailParams {
        width: 1,
        height: 1,
        min: None,
        max: None,
        autocontrast: Some(false),
    };
    assert_eq!(apply_tone(&vec![3, 4, 5], &no_tone), vec![3, 4, 5]);
}
