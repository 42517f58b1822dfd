use framesense::pool::{HandleState, OverlayManager};

#[test]
fn hide_with_no_active_overlay_is_a_noop_success() {
    let mut pool = OverlayManager::new();
    assert_eq!(pool.hide_overlay(), None);
    // repeating it changes nothing either
    assert_eq!(pool.hide_overlay(), None);
}

#[test]
fn show_then_hide_then_hide_again() {
    let mut pool = OverlayManager::new();
    let d = pool.show_selection_overlay(1920, 1080, 0);
    assert!(!d.reused);
    assert_eq!(pool.hide_overlay(), Some(d.handle_id));
    // the overlay is already down: idempotent no-op
    assert_eq!(pool.hide_overlay(), None);
}

#[test]
fn two_cycles_reuse_the_same_handle() {
    let mut pool = OverlayManager::new();
    let first = pool.show_selection_overlay(1920, 1080, 0);
    assert!(!first.reused);
    assert_eq!(pool.hide_overlay(), Some(first.handle_id));
    let second = pool.show_selection_overlay(1920, 1080, 10);
    assert!(second.reused);
    assert_eq!(second.handle_id, first.handle_id);
    assert_eq!(pool.hide_overlay(), Some(first.handle_id));
}

#[test]
fn overlay_config_is_fullscreen_transparent_topmost() {
    let mut pool = OverlayManager::new();
    let d = pool.show_selection_overlay(2560, 1440, 0);
    assert_eq!(d.config.x, 0);
    assert_eq!(d.config.y, 0);
    assert_eq!(d.config.width, 2560);
    assert_eq!(d.config.height, 1440);
    assert!(d.config.transparent);
    assert!(d.config.click_through);
    assert!(!d.config.shadow);
    assert!(d.config.always_on_top);
    assert!(!d.config.decorations);
    assert!(d.config.skip_taskbar);
    assert!(!d.config.resizable);
}

#[test]
fn show_while_active_reuses_the_active_handle() {
    let mut pool = OverlayManager::new();
    let first = pool.show_selection_overlay(1920, 1080, 0);
    let second = pool.show_selection_overlay(1920, 1080, 1);
    assert!(second.reused);
    assert_eq!(second.handle_id, first.handle_id);
    assert_eq!(pool.hide_overlay(), Some(first.handle_id));
}

#[test]
fn cleanup_never_destroys_an_active_handle() {
    let mut pool = OverlayManager::new();
    let d = pool.show_selection_overlay(1920, 1080, 0);
    // far past the staleness threshold, but the handle is active
    let closed = pool.cleanup_if_old(100_000);
    assert!(closed.is_empty());
    assert_eq!(pool.hide_overlay(), Some(d.handle_id));
}

#[test]
fn cleanup_destroys_stale_idle_handles() {
    let mut pool = OverlayManager::new();
    let d = pool.show_selection_overlay(1920, 1080, 0);
    pool.hide_overlay();
    let closed = pool.cleanup_if_old(400);
    assert_eq!(closed.len(), 1);
    assert_eq!(closed[0].id, d.handle_id);
    assert_eq!(closed[0].state, HandleState::ClosingStale);
    // the pool is empty again: the next show builds a new handle
    let next = pool.show_selection_overlay(1920, 1080, 400);
    assert!(!next.reused);
    assert_ne!(next.handle_id, d.handle_id);
}

#[test]
fn cleanup_keeps_young_idle_handles() {
    let mut pool = OverlayManager::new();
    let d = pool.show_selection_overlay(1920, 1080, 0);
    pool.hide_overlay();
    let closed = pool.cleanup_if_old(100);
    assert!(closed.is_empty());
    let next = pool.show_selection_overlay(1920, 1080, 100);
    assert!(next.reused);
    assert_eq!(next.handle_id, d.handle_id);
}
