use image::GenericImageView;
use thumbs::cache::ResultCache;
use thumbs::dispatch::{begin_request, complete_request, BeginOutcome, InFlight};
use thumbs::engine::{create_thumbnail, EngineError};
use thumbs::params::ThumbnailParams;

fn params(width: u32, height: u32) -> ThumbnailParams {
    ThumbnailParams { width, height, min: None, max: None, autocontrast: None }
}

fn png_of_size(w: u32, h: u32) -> Vec<u8> {
    let img = image::DynamicImage::ImageRgb8(image::RgbImage::from_pixel(
        w,
        h,
        image::Rgb([120, 180, 60]),
    ));
    let mut cursor = std::io::Cursor::new(Vec::new());
    img.write_to(&mut cursor, image::ImageOutputFormat::Png).unwrap();
    cursor.into_inner()
}

#[test]
fn large_image_scales_to_box_preserving_aspect() {
    let source = png_of_size(4000, 3000);
    let out = create_thumbnail(Some(&source), &params(100, 100)).unwrap();
    assert_eq!(&out[..8], &[0x89, b'P', b'N', b'G', 0x0d, 0x0a, 0x1a, 0x0a]);
    let decoded = image::load_from_memory(&out).unwrap();
    let (w, h) = decoded.dimensions();
    assert_eq!((w, h), (100, 75));
    assert_eq!(w.max(h), 100);
    // same aspect ratio as the 4:3 source
    assert_eq!(w * 3, h * 4);
}

#[test]
fn missing_source_is_reported_not_rendered() {
    let r = create_thumbnail(None, &params(100, 100));
    assert_eq!(r, Err(EngineError::SourceNotFound));
}

#[test]
fn corrupt_source_fails_to_decode() {
    let garbage = vec![1, 2, 3, 4, 5];
    let r = create_thumbnail(Some(&garbage), &params(100, 100));
    assert_eq!(r, Err(EngineError::DecodeFailure));
}

#[test]
fn zero_dimension_is_rejected_before_any_decode() {
    // garbage bytes would fail to decode, so an InvalidParameters result
    // shows the decoder was never consulted
    let garbage = vec![1, 2, 3, 4, 5];
    assert_eq!(create_thumbnail(Some(&garbage), &params(0, 100)), Err(EngineError::InvalidParameters));
    assert_eq!(create_thumbnail(Some(&garbage), &params(100, 0)), Err(EngineError::InvalidParameters));
}

#[test]
fn tonal_parameters_change_the_rendered_bytes() {
    let source = png_of_size(40, 30);
    let plain = create_thumbnail(Some(&source), &params(10, 10)).unwrap();
    let toned = ThumbnailParams {
        width: 10,
        height: 10,
        min: Some(100),
        max: Some(140),
        autocontrast: None,
    };
    let adjusted = create_thumbnail(Some(&source), &toned).unwrap();
    assert_ne!(plain, adjusted);
}

#[test]
fn invalid_request_touches_neither_cache_nor_engine() {
    let mut cache = ResultCache::new(4);
    let r = begin_request(&mut cache, "img.png", &params(0, 50));
    assert!(matches!(r, BeginOutcome::Invalid));
    assert_eq!(cache.len(), 0);
}

#[test]
fn failed_render_is_never_cached() {
    let mut cache = ResultCache::new(4);
    let key = match begin_request(&mut cache, "missing.png", &params(10, 10)) {
        BeginOutcome::Miss(k) => k,
        _ => panic!("expected a miss on an empty cache"),
    };
    let rendered = create_thumbnail(None, &params(10, 10));
    let resp = complete_request(&mut cache, key.clone(), rendered);
    assert_eq!(resp.status, 404);
    assert!(!resp.is_png);
    assert_eq!(cache.len(), 0, "a failure must not be cached");
    // the next identical request retries instead of seeing a pinned failure
    assert!(matches!(begin_request(&mut cache, "missing.png", &params(10, 10)), BeginOutcome::Miss(_)));
}

#[test]
fn work_context_failure_maps_to_server_error() {
    let mut cache = ResultCache::new(4);
    let resp = complete_request(&mut cache, "k".to_string(), Err(EngineError::WorkContextFailure));
    assert_eq!(resp.status, 500);
    let resp = complete_request(&mut cache, "k".to_string(), Err(EngineError::EncodeFailure));
    assert_eq!(resp.status, 500);
    let resp = complete_request(&mut cache, "k".to_string(), Err(EngineError::InvalidParameters));
    assert_eq!(resp.status, 400);
    assert_eq!(cache.len(), 0);
}

#[test]
fn idempotent_serving_uses_the_cache_on_the_second_request() {
    let mut cache = ResultCache::new(4);
    let source = png_of_size(80, 60);
    let mut engine_invocations: usize = 0;

    // first request: miss, render, store, serve
    let first = match begin_request(&mut cache, "img.png", &params(20, 20)) {
        BeginOutcome::Miss(k) => {
            engine_invocations += 1;
            let rendered = create_thumbnail(Some(&source), &params(20, 20));
            complete_request(&mut cache, k, rendered)
        },
        _ => panic!("expected a miss on an empty cache"),
    };
    assert_eq!(first.status, 200);
    assert!(first.is_png);

    // second identical request: a hit, no engine invocation
    let second = match begin_request(&mut cache, "img.png", &params(20, 20)) {
        BeginOutcome::Hit(v) => v,
        _ => panic!("expected a hit after a successful render"),
    };
    assert_eq!(engine_invocations, 1);
    assert_eq!(second, first.body, "responses must be byte-identical");
}

#[test]
fn concurrent_identical_requests_render_at_most_once() {
    // two identical requests racing on an empty cache: both miss, but only
    // the first claims the key; the other waits and is then served the
    // claimant's bytes
    let mut cache = ResultCache::new(4);
    let mut inflight = InFlight::new();
    let source = png_of_size(80, 60);
    let mut engine_invocations: usize = 0;

    let key_a = match begin_request(&mut cache, "img.png", &params(20, 20)) {
        BeginOutcome::Miss(k) => k,
        _ => panic!("expected a miss"),
    };
    let key_b = match begin_request(&mut cache, "img.png", &params(20, 20)) {
        BeginOutcome::Miss(k) => k,
        _ => panic!("expected a miss"),
    };
    assert_eq!(key_a, key_b);

    assert!(inflight.try_claim(&key_a), "first request claims the render");
    assert!(!inflight.try_claim(&key_b), "second request must not render too");

    engine_invocations += 1;
    let rendered = create_thumbnail(Some(&source), &params(20, 20));
    let resp_a = complete_request(&mut cache, key_a.clone(), rendered);
    inflight.release(&key_a);

    // the waiting request now finds the result in the cache
    let resp_b = match begin_request(&mut cache, "img.png", &params(20, 20)) {
        BeginOutcome::Hit(v) => v,
        _ => panic!("expected a hit once the claimant finished"),
    };
    assert_eq!(engine_invocations, 1);
    assert_eq!(resp_a.body, resp_b);

    // once released, the key can be claimed again
    assert!(inflight.try_claim(&key_b));
}
