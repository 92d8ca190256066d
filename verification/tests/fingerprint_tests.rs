use thumbs::fingerprint::generate_cache_key;
use thumbs::params::ThumbnailParams;

fn params(width: u32, height: u32) -> ThumbnailParams {
    ThumbnailParams { width, height, min: None, max: None, autocontrast: None }
}

#[test]
fn determinism_same_request_same_key() {
    let p = ThumbnailParams {
        width: 100,
        height: 80,
        min: Some(10),
        max: Some(200),
        autocontrast: Some(true),
    };
    let k1 = generate_cache_key("photos/cat.jpg", &p);
    let k2 = generate_cache_key("photos/cat.jpg", &p);
    assert_eq!(k1, k2);
    assert_eq!(k1.len(), 64);
    assert!(k1.chars().all(|c| c.is_ascii_hexdigit() && !c.is_ascii_uppercase()));
}

#[test]
fn key_is_not_the_input() {
    let p = params(100, 100);
    let k = generate_cache_key("photos/cat.jpg", &p);
    assert_ne!(k.as_str(), "photos/cat.jpg");
    assert_eq!(k.len(), 64);
}

#[test]
fn discrimination_parameter_sweep() {
    // a structured sweep within each presence pattern of the optional
    // fields: any two requests differing in a field value must get
    // different keys
    let paths = ["a.png", "b.png"];
    let widths = [1u32, 2, 100];
    let heights = [1u32, 3, 99];
    for (mins, maxs, autos) in [
        (vec![None], vec![None], vec![None]),
        (vec![Some(0u8), Some(5)], vec![None], vec![None]),
        (vec![None], vec![Some(0u8), Some(255)], vec![Some(false), Some(true)]),
        (vec![Some(0u8), Some(5)], vec![Some(0u8), Some(255)], vec![Some(false), Some(true)]),
    ] {
        let mut keys: Vec<String> = Vec::new();
        for path in &paths {
            for w in widths {
                for h in heights {
                    for min in &mins {
                        for max in &maxs {
                            for autocontrast in &autos {
                                let p = ThumbnailParams {
                                    width: w,
                                    height: h,
                                    min: *min,
                                    max: *max,
                                    autocontrast: *autocontrast,
                                };
                                keys.push(generate_cache_key(path, &p));
                            }
                        }
                    }
                }
            }
        }
        let total = keys.len();
        keys.sort();
        keys.dedup();
        assert_eq!(keys.len(), total, "fingerprint collision in parameter sweep");
    }
}

#[test]
fn absent_and_zero_valued_parameters_differ() {
    let absent = ThumbnailParams { width: 10, height: 10, min: None, max: None, autocontrast: None };
    let zero_min = ThumbnailParams { width: 10, height: 10, min: Some(0), max: None, autocontrast: None };
    let zero_max = ThumbnailParams { width: 10, height: 10, min: None, max: Some(0), autocontrast: None };
    let false_auto =
        ThumbnailParams { width: 10, height: 10, min: None, max: None, autocontrast: Some(false) };
    let ka = generate_cache_key("x", &absent);
    assert_ne!(ka, generate_cache_key("x", &zero_min));
    assert_ne!(ka, generate_cache_key("x", &zero_max));
    assert_ne!(ka, generate_cache_key("x", &false_auto));
}

#[test]
fn different_paths_differ() {
    let p = params(10, 10);
    assert_ne!(generate_cache_key("a", &p), generate_cache_key("b", &p));
}
