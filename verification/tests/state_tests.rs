use framesense::bounds::CaptureBounds;
use framesense::errors::CaptureError;
use framesense::state::{next_window_cycle, AppState};

#[test]
fn default_state_is_empty() {
    let s = AppState::default();
    assert_eq!(s.screenshot_data, None);
    assert_eq!(s.last_bounds, None);
    assert_eq!(s.last_window_closed_time, None);
}

#[test]
fn closing_the_window_records_the_session() {
    let mut s = AppState::default();
    let bounds = CaptureBounds { x: 10, y: 20, width: 300, height: 200 };
    s.record_window_close(Some("data:image/png;base64,AA==".to_string()), Some(bounds), 1234);
    assert_eq!(s.screenshot_data.as_deref(), Some("data:image/png;base64,AA=="));
    assert_eq!(s.last_bounds, Some(bounds));
    assert_eq!(s.last_window_closed_time, Some(1234));
}

#[test]
fn window_position_cycles_through_three_slots() {
    assert_eq!(next_window_cycle(0), 1);
    assert_eq!(next_window_cycle(1), 2);
    assert_eq!(next_window_cycle(2), 0);
    assert_eq!(next_window_cycle(255), 1);
}

#[test]
fn errors_describe_themselves() {
    let e = CaptureError::RegionTooSmall { width: 5, height: 5 };
    assert_eq!(e.describe(), "capture area too small after adjustment");
    let e = CaptureError::DeviceFailure { message: "boom".to_string() };
    assert_eq!(e.describe(), "screen capture failed: boom");
    let e = CaptureError::PermissionDenied { message: "screen recording".to_string() };
    assert_eq!(e.describe(), "permission denied: screen recording");
    let e = CaptureError::EncodingFailure { message: "png".to_string() };
    assert_eq!(e.describe(), "image encoding failed: png");
    let e = CaptureError::WindowOperationFailure { message: "hide".to_string() };
    assert_eq!(e.describe(), "window operation failed: hide");
}
