use framesense::permission::{Permission, PermissionCache};

#[test]
fn empty_cache_has_no_result() {
    let cache = PermissionCache::new();
    assert_eq!(cache.cached_result(Permission::ScreenRecording, 0), None);
    let (total, stale) = cache.get_cache_stats(0);
    assert_eq!(total, 0);
    assert_eq!(stale, 0);
}

#[test]
fn successful_probe_is_memoized_within_ttl() {
    let mut cache = PermissionCache::new();
    let granted = cache.apply_probe_result(Permission::ScreenRecording, 100, Ok(true));
    assert!(granted);
    assert_eq!(cache.cached_result(Permission::ScreenRecording, 110), Some(true));
    // at exactly the TTL the entry may no longer be trusted
    assert_eq!(cache.cached_result(Permission::ScreenRecording, 130), None);
    // the other permission kind is untouched
    assert_eq!(cache.cached_result(Permission::Accessibility, 110), None);
}

#[test]
fn failed_probe_is_false_and_not_memoized() {
    let mut cache = PermissionCache::new();
    let granted =
        cache.apply_probe_result(Permission::Accessibility, 0, Err("query failed".to_string()));
    assert!(!granted);
    assert_eq!(cache.cached_result(Permission::Accessibility, 1), None);
    let (total, _) = cache.get_cache_stats(1);
    assert_eq!(total, 0);
}

#[test]
fn a_new_probe_replaces_the_old_entry() {
    let mut cache = PermissionCache::new();
    cache.record(Permission::ScreenRecording, true, 0);
    cache.record(Permission::ScreenRecording, false, 5);
    assert_eq!(cache.cached_result(Permission::ScreenRecording, 6), Some(false));
    let (total, _) = cache.get_cache_stats(6);
    assert_eq!(total, 1);
}

#[test]
fn clear_forces_fresh_queries() {
    let mut cache = PermissionCache::new();
    cache.record(Permission::ScreenRecording, true, 0);
    cache.record(Permission::Accessibility, true, 0);
    cache.clear_cache();
    assert_eq!(cache.cached_result(Permission::ScreenRecording, 0), None);
    assert_eq!(cache.cached_result(Permission::Accessibility, 0), None);
}

#[test]
fn stats_count_stale_entries() {
    let mut cache = PermissionCache::new();
    cache.record(Permission::ScreenRecording, true, 0);
    cache.record(Permission::Accessibility, true, 100);
    let (total, stale) = cache.get_cache_stats(100);
    assert_eq!(total, 2);
    assert_eq!(stale, 1);
}

#[test]
fn cleanup_drops_only_stale_entries() {
    let mut cache = PermissionCache::new();
    cache.record(Permission::ScreenRecording, true, 0);
    cache.record(Permission::Accessibility, true, 100);
    cache.cleanup_expired(100);
    let (total, stale) = cache.get_cache_stats(100);
    assert_eq!(total, 1);
    assert_eq!(stale, 0);
    assert_eq!(cache.cached_result(Permission::Accessibility, 100), Some(true));
    assert_eq!(cache.cached_result(Permission::ScreenRecording, 100), None);
}
