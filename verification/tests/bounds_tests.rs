use framesense::bounds::{clamp_bounds, clamp_selection, preview_region, CaptureBounds, MIN_CAPTURE_DIM};
use framesense::errors::CaptureError;

#[test]
fn clamp_inside_is_identity() {
    let b = CaptureBounds { x: 10, y: 20, width: 100, height: 50 };
    let c = clamp_bounds(b, 1920, 1080);
    assert_eq!(c, b);
}

#[test]
fn clamp_at_edges_is_identity() {
    let b = CaptureBounds { x: 0, y: 0, width: 1920, height: 1080 };
    let c = clamp_bounds(b, 1920, 1080);
    assert_eq!(c, b);
}

#[test]
fn clamp_pulls_selection_back_onto_screen() {
    let b = CaptureBounds { x: 2000, y: 50, width: 300, height: 200 };
    let c = clamp_bounds(b, 1920, 1080);
    assert_eq!(c, CaptureBounds { x: 1620, y: 50, width: 300, height: 200 });
}

#[test]
fn clamp_negative_offsets() {
    let b = CaptureBounds { x: -50, y: -10, width: 300, height: 200 };
    let c = clamp_bounds(b, 1920, 1080);
    assert_eq!(c, CaptureBounds { x: 0, y: 0, width: 300, height: 200 });
}

#[test]
fn clamp_oversized_selection() {
    let b = CaptureBounds { x: 100, y: 100, width: 3000, height: 2000 };
    let c = clamp_bounds(b, 1920, 1080);
    assert!(c.x >= 0 && c.y >= 0);
    assert!(c.x as i64 + c.width as i64 <= 1920);
    assert!(c.y as i64 + c.height as i64 <= 1080);
    assert_eq!(c.width, 1920);
    assert_eq!(c.height, 1080);
    assert_eq!(c.x, 0);
    assert_eq!(c.y, 0);
}

#[test]
fn clamp_contains_output_for_far_outside_selection() {
    let b = CaptureBounds { x: 5000, y: -4000, width: 640, height: 480 };
    let c = clamp_bounds(b, 1920, 1080);
    assert!(c.x >= 0 && c.y >= 0);
    assert!(c.x as i64 + c.width as i64 <= 1920);
    assert!(c.y as i64 + c.height as i64 <= 1080);
}

#[test]
fn selection_below_minimum_is_rejected() {
    let b = CaptureBounds { x: 0, y: 0, width: 5, height: 5 };
    match clamp_selection(b, 1920, 1080) {
        Err(CaptureError::RegionTooSmall { width, height }) => {
            assert_eq!(width, 5);
            assert_eq!(height, 5);
        }
        _ => panic!("expected RegionTooSmall"),
    }
}

#[test]
fn selection_at_minimum_is_accepted() {
    let b = CaptureBounds { x: 0, y: 0, width: MIN_CAPTURE_DIM, height: MIN_CAPTURE_DIM };
    let c = clamp_selection(b, 1920, 1080).expect("minimum size must pass");
    assert_eq!(c, b);
}

#[test]
fn selection_collapsed_by_clamping_is_rejected() {
    // a screen only 8 px tall cuts every selection below the minimum height
    let b = CaptureBounds { x: 100, y: 100, width: 300, height: 200 };
    match clamp_selection(b, 1920, 8) {
        Err(CaptureError::RegionTooSmall { width, height }) => {
            assert_eq!(width, 300);
            assert_eq!(height, 8);
        }
        _ => panic!("expected RegionTooSmall"),
    }
}

#[test]
fn preview_region_is_quarter_offset_and_capped() {
    let r = preview_region(1920, 1080);
    assert_eq!(r, CaptureBounds { x: 480, y: 270, width: 400, height: 270 });
    let r = preview_region(800, 600);
    assert_eq!(r, CaptureBounds { x: 200, y: 150, width: 200, height: 150 });
    let r = preview_region(4000, 4000);
    assert_eq!(r, CaptureBounds { x: 1000, y: 1000, width: 400, height: 300 });
}
