use word_match_server::{cache_key, record_to_cache, FetchOutcome, ImageRecord};

#[test]
fn cache_key_is_sha1_of_joined_parts() {
    let k = cache_key(&"en".to_string(), &"Rust".to_string());
    assert_eq!(k, "d5a4b187326fc4ea013c3dab38ed9049682540e0");
    let j = cache_key(&"en".to_string(), &"Page".to_string());
    assert_eq!(j, "d68b03f71c81cdf35eff1f9789422b03ea6026b6");
}

#[test]
fn found_image_is_kept() {
    let rec = ImageRecord {
        data: vec![1, 2, 3],
        headers: vec![("Content-Type".to_string(), "image/jpeg".to_string())],
    };
    let r = record_to_cache(FetchOutcome::Found(rec), vec![9]);
    assert_eq!(r.data, vec![1, 2, 3]);
    assert_eq!(r.headers, vec![("Content-Type".to_string(), "image/jpeg".to_string())]);
}

#[test]
fn missing_or_failed_fetch_gives_placeholder() {
    for outcome in [FetchOutcome::NotFound, FetchOutcome::FetchFailed("timeout".to_string())] {
        let r = record_to_cache(outcome, vec![7, 7]);
        assert_eq!(r.data, vec![7, 7]);
        assert_eq!(r.headers, vec![("Content-Type".to_string(), "image/png".to_string())]);
    }
}
