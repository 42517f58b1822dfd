use framesense::bounds::CaptureBounds;
use framesense::cache::{CacheKey, ScreenshotCache};
use framesense::coordinator::{capture_screen_area, process_selection};
use framesense::pool::OverlayManager;

#[test]
fn selection_is_clamped_and_served_from_cache() {
    let mut cache = ScreenshotCache::new();
    let mut pool = OverlayManager::new();
    // the pixels for the clamped rectangle are already cached
    let clamped = CaptureBounds { x: 1620, y: 50, width: 300, height: 200 };
    let stored = cache
        .resolve_miss(CacheKey::of_bounds(0, clamped), 10, Ok(vec![1u8, 2, 3]))
        .unwrap();
    let shown = pool.show_selection_overlay(1920, 1080, 10);
    let selection = CaptureBounds { x: 2000, y: 50, width: 300, height: 200 };
    let out = process_selection(&mut cache, &mut pool, None, 0, 1920, 1080, selection, 20);
    assert!(out.result.success);
    assert_eq!(out.result.bounds, Some(clamped));
    assert_eq!(out.result.image_data, Some(stored));
    // the overlay was torn down and the main window restored
    assert_eq!(out.hidden_overlay, Some(shown.handle_id));
    assert_eq!(pool.hide_overlay(), None);
}

#[test]
fn too_small_selection_fails_and_overlay_still_comes_down() {
    let mut cache = ScreenshotCache::new();
    let mut pool = OverlayManager::new();
    let shown = pool.show_selection_overlay(1920, 1080, 0);
    let selection = CaptureBounds { x: 0, y: 0, width: 5, height: 5 };
    let out = process_selection(&mut cache, &mut pool, None, 0, 1920, 1080, selection, 0);
    assert!(!out.result.success);
    assert_eq!(out.result.message, "capture area too small after adjustment");
    assert_eq!(out.result.bounds, None);
    assert_eq!(out.result.image_data, None);
    assert_eq!(out.hidden_overlay, Some(shown.handle_id));
    // nothing was captured or cached
    let (entries, _, _) = cache.stats(0);
    assert_eq!(entries, 0);
    // the teardown already ran: no overlay is active any more
    assert_eq!(pool.hide_overlay(), None);
}

#[test]
fn capture_failure_tears_the_overlay_down_too() {
    let mut cache = ScreenshotCache::new();
    let mut pool = OverlayManager::new();
    let shown = pool.show_selection_overlay(1920, 1080, 0);
    let selection = CaptureBounds { x: 100, y: 100, width: 300, height: 200 };
    // no screen to grab from: the capture fails after the clamp
    let out = process_selection(&mut cache, &mut pool, None, 0, 1920, 1080, selection, 0);
    assert!(!out.result.success);
    assert_eq!(
        out.result.message,
        "screen capture failed: no screens available for capture"
    );
    assert_eq!(out.hidden_overlay, Some(shown.handle_id));
    assert_eq!(pool.hide_overlay(), None);
}

#[test]
fn uncached_capture_rejects_small_region() {
    let bounds = CaptureBounds { x: 0, y: 0, width: 5, height: 5 };
    let r = capture_screen_area(None, 1920, 1080, bounds);
    assert!(!r.success);
    assert_eq!(r.message, "capture area too small after adjustment");
    assert_eq!(r.bounds, None);
    assert_eq!(r.image_data, None);
}

#[test]
fn uncached_capture_needs_a_screen() {
    let bounds = CaptureBounds { x: 100, y: 100, width: 300, height: 200 };
    let r = capture_screen_area(None, 1920, 1080, bounds);
    assert!(!r.success);
    assert_eq!(r.message, "no screens available for capture");
}
