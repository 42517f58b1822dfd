use framesense::bounds::CaptureBounds;
use framesense::cache::{CacheKey, ScreenshotCache, DEFAULT_CACHE_BUDGET_BYTES};
use framesense::errors::CaptureError;

fn key(n: i32) -> CacheKey {
    CacheKey { screen_id: 0, x: n, y: 0, width: 100, height: 100 }
}

#[test]
fn new_cache_is_empty() {
    let cache = ScreenshotCache::new();
    let (entries, bytes, expired) = cache.stats(0);
    assert_eq!(entries, 0);
    assert_eq!(bytes, 0);
    assert_eq!(expired, 0);
    assert!(DEFAULT_CACHE_BUDGET_BYTES >= 1024 * 1024);
}

#[test]
fn miss_stores_exact_data_url() {
    let mut cache = ScreenshotCache::new();
    let payload = cache.resolve_miss(key(1), 0, Ok(vec![0u8])).expect("grab succeeded");
    assert_eq!(payload, "data:image/png;base64,AA==");
    let payload3 = cache.resolve_miss(key(2), 0, Ok(vec![0u8, 0u8, 0u8])).expect("grab succeeded");
    assert_eq!(payload3, "data:image/png;base64,AAAA");
    let hello = cache.resolve_miss(key(3), 0, Ok(b"hello".to_vec())).expect("grab succeeded");
    assert_eq!(hello, "data:image/png;base64,aGVsbG8=");
}

#[test]
fn second_identical_request_returns_identical_payload() {
    let mut cache = ScreenshotCache::new();
    let first = cache.resolve_miss(key(9), 100, Ok(vec![1u8, 2, 3, 4, 5])).expect("stored");
    let second = cache.lookup(key(9), 110).expect("fresh hit");
    assert_eq!(first, second);
    let (entries, _, _) = cache.stats(110);
    assert_eq!(entries, 1);
}

#[test]
fn failed_grab_stores_nothing() {
    let mut cache = ScreenshotCache::new();
    let grab_error = CaptureError::DeviceFailure { message: "backend unreachable".to_string() };
    match cache.resolve_miss(key(1), 0, Err(grab_error)) {
        Err(CaptureError::DeviceFailure { message }) => {
            assert_eq!(message, "backend unreachable");
        }
        _ => panic!("expected DeviceFailure"),
    }
    let (entries, bytes, _) = cache.stats(0);
    assert_eq!(entries, 0);
    assert_eq!(bytes, 0);
}

#[test]
fn eviction_removes_least_recently_accessed_first() {
    let mut cache = ScreenshotCache::new();
    cache.resize_buffer(150, 0);
    let bytes30 = vec![7u8; 30]; // data URL payload: 22 + 40 = 62 chars
    cache.resolve_miss(key(1), 0, Ok(bytes30.clone())).unwrap();
    cache.resolve_miss(key(2), 1, Ok(bytes30.clone())).unwrap();
    // bump key 1, leaving key 2 the least recently accessed
    assert!(cache.lookup(key(1), 2).is_some());
    // 124 bytes cached is still under budget, so this insert evicts nothing
    cache.resolve_miss(key(3), 3, Ok(bytes30.clone())).unwrap();
    let (entries, total, _) = cache.stats(4);
    assert_eq!(entries, 3);
    assert_eq!(total, 186);
    // now over budget: the next insert first evicts key 2
    cache.resolve_miss(key(4), 4, Ok(bytes30.clone())).unwrap();
    assert!(cache.lookup(key(2), 5).is_none());
    assert!(cache.lookup(key(1), 5).is_some());
    assert!(cache.lookup(key(3), 5).is_some());
    assert!(cache.lookup(key(4), 5).is_some());
    let (entries, total, _) = cache.stats(5);
    assert_eq!(entries, 3);
    assert_eq!(total, 186);
}

#[test]
fn cleanup_brings_total_under_budget() {
    let mut cache = ScreenshotCache::new();
    cache.resolve_miss(key(1), 0, Ok(vec![1u8; 30])).unwrap();
    cache.resolve_miss(key(2), 1, Ok(vec![2u8; 30])).unwrap();
    cache.resize_buffer(100, 1);
    let (_, total, _) = cache.stats(1);
    assert!(total <= 100);
}

#[test]
fn entries_expire_lazily_after_ttl() {
    let mut cache = ScreenshotCache::new();
    cache.resolve_miss(key(1), 0, Ok(vec![1u8; 9])).unwrap();
    // within the TTL the entry is active
    let (entries, _, expired) = cache.stats(30);
    assert_eq!(entries, 1);
    assert_eq!(expired, 0);
    // past the TTL it stops counting as active with no cleanup call
    let (entries, _, expired) = cache.stats(31);
    assert_eq!(entries, 1);
    assert_eq!(expired, 1);
    assert_eq!(entries - expired, 0);
    // and a lookup treats it as a miss
    assert!(cache.lookup(key(1), 31).is_none());
    cache.cleanup_expired(31);
    let (entries, bytes, expired) = cache.stats(31);
    assert_eq!(entries, 0);
    assert_eq!(bytes, 0);
    assert_eq!(expired, 0);
}

#[test]
fn expired_entry_is_replaced_on_insert() {
    let mut cache = ScreenshotCache::new();
    let old = cache.resolve_miss(key(1), 0, Ok(vec![1u8, 2, 3])).unwrap();
    assert!(cache.lookup(key(1), 40).is_none());
    let fresh = cache.resolve_miss(key(1), 40, Ok(vec![9u8, 9, 9])).unwrap();
    assert_ne!(old, fresh);
    let (entries, _, _) = cache.stats(40);
    assert_eq!(entries, 1);
    assert_eq!(cache.lookup(key(1), 41).unwrap(), fresh);
}

#[test]
fn clear_cache_wipes_everything() {
    let mut cache = ScreenshotCache::new();
    cache.resolve_miss(key(1), 0, Ok(vec![1u8; 10])).unwrap();
    cache.resolve_miss(key(2), 0, Ok(vec![2u8; 10])).unwrap();
    cache.clear_cache();
    let (entries, bytes, expired) = cache.stats(0);
    assert_eq!(entries, 0);
    assert_eq!(bytes, 0);
    assert_eq!(expired, 0);
}

#[test]
fn capture_or_fetch_serves_fresh_hit_without_screen() {
    let mut cache = ScreenshotCache::new();
    let bounds = CaptureBounds { x: 1620, y: 50, width: 300, height: 200 };
    let stored = cache
        .resolve_miss(CacheKey::of_bounds(7, bounds), 10, Ok(vec![5u8, 6, 7]))
        .unwrap();
    // no screen is needed: the request is served from the cache
    let fetched = cache
        .capture_or_fetch(None, 7, bounds, 20)
        .expect("fresh hit");
    assert_eq!(stored, fetched);
}

#[test]
fn capture_or_fetch_miss_without_screen_fails() {
    let mut cache = ScreenshotCache::new();
    let bounds = CaptureBounds { x: 0, y: 0, width: 100, height: 100 };
    match cache.capture_or_fetch(None, 7, bounds, 0) {
        Err(CaptureError::DeviceFailure { message }) => {
            assert_eq!(message, "no screens available for capture");
        }
        _ => panic!("expected DeviceFailure"),
    }
    let (entries, _, _) = cache.stats(0);
    assert_eq!(entries, 0);
}

#[test]
fn resize_in_megabytes_sets_the_byte_budget() {
    let mut cache = ScreenshotCache::new();
    cache.resize_buffer_mb(0, 0);
    cache.resolve_miss(key(1), 0, Ok(vec![1u8; 30])).unwrap();
    // a zero budget keeps at most the entry just inserted
    cache.resolve_miss(key(2), 1, Ok(vec![2u8; 30])).unwrap();
    assert!(cache.lookup(key(1), 2).is_none());
    assert!(cache.lookup(key(2), 2).is_some());
    let (entries, _, _) = cache.stats(2);
    assert_eq!(entries, 1);
}

#[test]
fn failed_encode_surfaces_encoding_failure() {
    let mut cache = ScreenshotCache::new();
    let codec_error = CaptureError::EncodingFailure { message: "png writer failed".to_string() };
    match cache.resolve_miss(key(1), 0, Err(codec_error)) {
        Err(CaptureError::EncodingFailure { message }) => {
            assert_eq!(message, "png writer failed");
        }
        _ => panic!("expected EncodingFailure"),
    }
    let (entries, _, _) = cache.stats(0);
    assert_eq!(entries, 0);
}
