//! Selection rectangles and the rules that clamp them to the screen.

use vstd::prelude::*;
use crate::errors::CaptureError;

verus! {

/// A selection rectangle dragged by the user: a pixel offset and an
/// unsigned pixel extent.
#[derive(Clone, Copy, PartialEq, Eq, Structural, Debug)]
pub struct CaptureBounds {
    pub x: i32,
    pub y: i32,
    pub width: u32,
    pub height: u32,
}

/// Smallest usable width or height of a clamped selection, in pixels.
/// A selection that collapses below this is rejected rather than captured.
pub const MIN_CAPTURE_DIM: u32 = 10;

/// The bounds lie fully inside a `screen_width x screen_height` screen
/// whose origin is pixel (0, 0).
pub open spec fn bounds_within(b: CaptureBounds, screen_width: u32, screen_height: u32) -> bool {
    &&& 0 <= b.x
    &&& 0 <= b.y
    &&& b.x + b.width <= screen_width
    &&& b.y + b.height <= screen_height
}

/// Clamped offset along one axis: the offset pulled into
/// `[0, screen_extent - extent]`, or 0 when the extent does not fit at all.
pub open spec fn clamped_offset(offset: int, extent: int, screen_extent: int) -> int {
    vstd::math::max(0, vstd::math::min(offset, screen_extent - extent))
}

/// Clamped extent along one axis: the extent cut down to what still fits
/// between the (already clamped) offset and the screen edge.
pub open spec fn clamped_extent(extent: int, clamped_offset: int, screen_extent: int) -> int {
    vstd::math::min(extent, screen_extent - clamped_offset)
}

/// The rectangle `b` clamped to the screen, as `(x, y, width, height)`.
pub open spec fn clamped_rect(b: CaptureBounds, screen_width: u32, screen_height: u32) -> (
    int,
    int,
    int,
    int,
) {
    let sx = clamped_offset(b.x as int, b.width as int, screen_width as int);
    let sy = clamped_offset(b.y as int, b.height as int, screen_height as int);
    (
        sx,
        sy,
        clamped_extent(b.width as int, sx, screen_width as int),
        clamped_extent(b.height as int, sy, screen_height as int),
    )
}

/// Clamp one axis: returns the clamped offset and extent for a selection
/// starting at `offset` with size `extent` on a screen of size `screen_extent`.
fn clamp_axis(offset: i32, extent: u32, screen_extent: u32) -> (r: (i32, u32))
    ensures
        r.0 as int == clamped_offset(offset as int, extent as int, screen_extent as int),
        r.1 as int == clamped_extent(extent as int, r.0 as int, screen_extent as int),
{
    let limit: i64 = screen_extent as i64 - extent as i64;
    let mut off: i64 = offset as i64;
    if off > limit {
        off = limit;
    }
    if off < 0 {
        off = 0;
    }
    let room: i64 = screen_extent as i64 - off;
    let ext: u32 = if (extent as i64) < room {
        extent
    } else {
        room as u32
    };
    (off as i32, ext)
}

/// Clamp a selection rectangle against the screen rectangle.
///
/// The clamped output always lies fully inside the screen; a selection that
/// already lies fully inside comes back unchanged.
pub fn clamp_bounds(b: CaptureBounds, screen_width: u32, screen_height: u32) -> (r: CaptureBounds)
    ensures
        r.x as int == clamped_rect(b, screen_width, screen_height).0,
        r.y as int == clamped_rect(b, screen_width, screen_height).1,
        r.width as int == clamped_rect(b, screen_width, screen_height).2,
        r.height as int == clamped_rect(b, screen_width, screen_height).3,
        0 <= r.x,
        0 <= r.y,
        r.x + r.width <= screen_width,
        r.y + r.height <= screen_height,
        r.width <= b.width,
        r.height <= b.height,
        bounds_within(b, screen_width, screen_height) ==> r == b,
{
    let (sx, sw) = clamp_axis(b.x, b.width, screen_width);
    let (sy, sh) = clamp_axis(b.y, b.height, screen_height);
    let r = CaptureBounds { x: sx, y: sy, width: sw, height: sh };
    proof {
        assert(r == spec_clamped_bounds(b, screen_width, screen_height));
    }
    r
}

/// The clamped rectangle, as bounds.
pub open spec fn spec_clamped_bounds(b: CaptureBounds, screen_width: u32, screen_height: u32) -> CaptureBounds {
    CaptureBounds {
        x: clamped_rect(b, screen_width, screen_height).0 as i32,
        y: clamped_rect(b, screen_width, screen_height).1 as i32,
        width: clamped_rect(b, screen_width, screen_height).2 as u32,
        height: clamped_rect(b, screen_width, screen_height).3 as u32,
    }
}

/// The selection collapses below the minimum usable size once clamped.
pub open spec fn region_too_small(b: CaptureBounds, screen_width: u32, screen_height: u32) -> bool {
    spec_clamped_bounds(b, screen_width, screen_height).width < MIN_CAPTURE_DIM
        || spec_clamped_bounds(b, screen_width, screen_height).height < MIN_CAPTURE_DIM
}

/// Clamp a selection against the screen and demand the minimum usable
/// size: a selection whose clamped width or height falls under
/// `MIN_CAPTURE_DIM` pixels is rejected and no capture is attempted.
pub fn clamp_selection(b: CaptureBounds, screen_width: u32, screen_height: u32) -> (r: Result<
    CaptureBounds,
    CaptureError,
>)
    ensures
        match r {
            Ok(c) => !region_too_small(b, screen_width, screen_height) && c
                == spec_clamped_bounds(b, screen_width, screen_height) && 0 <= c.x && 0 <= c.y
                && c.x + c.width <= screen_width && c.y + c.height <= screen_height,
            Err(e) => region_too_small(b, screen_width, screen_height) && (e matches CaptureError::RegionTooSmall {
                width,
                height,
            } && width == spec_clamped_bounds(b, screen_width, screen_height).width && height
                == spec_clamped_bounds(b, screen_width, screen_height).height),
        },
{
    let c = clamp_bounds(b, screen_width, screen_height);
    if c.width < MIN_CAPTURE_DIM || c.height < MIN_CAPTURE_DIM {
        Err(CaptureError::RegionTooSmall { width: c.width, height: c.height })
    } else {
        Ok(c)
    }
}

/// The preview rectangle that the fullscreen-capture fallback cuts out of
/// a full-screen image: a quarter of the way into the image on both axes,
/// at most 400 x 300 pixels.
pub fn preview_region(image_width: u32, image_height: u32) -> (r: CaptureBounds)
    ensures
        r.x == image_width / 4,
        r.y == image_height / 4,
        r.width == if image_width / 4 < 400 {
            image_width / 4
        } else {
            400u32
        },
        r.height == if image_height / 4 < 300 {
            image_height / 4
        } else {
            300u32
        },
{
    let qx = image_width / 4;
    let qy = image_height / 4;
    CaptureBounds {
        x: qx as i32,
        y: qy as i32,
        width: if qx < 400 {
            qx
        } else {
            400
        },
        height: if qy < 300 {
            qy
        } else {
            300
        },
    }
}

} // verus!
