//! The capture coordinator: selection rectangle in, structured result out.
//!
//! A request runs clamp → minimum-size gate → cache lookup → (on a miss)
//! grab and store → emit, and the overlay is torn down on every path, so no
//! failure leaves the overlay visible or the main window hidden.

use vstd::prelude::*;
use vstd::string::StringExecFns;
use crate::bounds::{clamp_selection, region_too_small, spec_clamped_bounds, CaptureBounds};
use crate::cache::{has_fresh, key_of, payload_of, png_data_url, encode_png_payload, ScreenshotCache};
use crate::errors::CaptureError;
use crate::platform::{capture_area_png, MAX_GRAB_EXTENT};
use crate::pool::{has_active, OverlayManager};
use crate::state::CaptureResult;

verus! {

/// The full outcome of one selection request: the structured result for
/// the UI layer and, when an overlay was up, the window to hide.
pub struct SelectionOutcome {
    pub result: CaptureResult,
    pub hidden_overlay: Option<u64>,
}

/// Process one user selection end to end: clamp it against the screen,
/// reject a region that collapsed below the minimum size, serve the pixels
/// from the cache or capture and store them, and tear the overlay down —
/// the teardown runs whatever happened, so the overlay never stays up.
pub fn process_selection(
    cache: &mut ScreenshotCache,
    pool: &mut OverlayManager,
    screen: Option<&screenshots::Screen>,
    screen_id: u32,
    screen_width: u32,
    screen_height: u32,
    bounds: CaptureBounds,
    now: u64,
) -> (out: SelectionOutcome)
    requires
        old(cache).wf(),
        old(pool).wf(),
        // machine limit: the screen must fit the grab's pixel range
        screen_width <= MAX_GRAB_EXTENT,
        screen_height <= MAX_GRAB_EXTENT,
    ensures
        final(cache).wf(),
        final(pool).wf(),
        // teardown on every path: no overlay active, main window restored
        !has_active(final(pool)@),
        final(pool).main_visible(),
        final(cache).budget() == old(cache).budget(),
        // a collapsed region is rejected before any capture
        region_too_small(bounds, screen_width, screen_height) ==> !out.result.success && final(cache)@ == old(cache)@ && final(cache).grabs() == old(cache).grabs(),
        // a fresh hit is served from the cache without a grab
        !region_too_small(bounds, screen_width, screen_height) && has_fresh(
            old(cache)@,
            key_of(screen_id, spec_clamped_bounds(bounds, screen_width, screen_height)),
            now,
        ) ==> out.result.success && final(cache).grabs() == old(cache).grabs() && (
        out.result.image_data matches Some(p) && p@ == payload_of(
            old(cache)@,
            key_of(screen_id, spec_clamped_bounds(bounds, screen_width, screen_height)),
        )),
        // without a screen no capture can happen
        !region_too_small(bounds, screen_width, screen_height) && !has_fresh(
            old(cache)@,
            key_of(screen_id, spec_clamped_bounds(bounds, screen_width, screen_height)),
            now,
        ) && screen is None ==> !out.result.success && final(cache)@ == old(cache)@
            && out.result.message@ == "screen capture failed: no screens available for capture"@,
        // what success means
        out.result.success ==> !region_too_small(bounds, screen_width, screen_height)
            && out.result.bounds == Some(
            spec_clamped_bounds(bounds, screen_width, screen_height),
        ) && (out.result.image_data matches Some(p) && has_fresh(
            final(cache)@,
            key_of(screen_id, spec_clamped_bounds(bounds, screen_width, screen_height)),
            now,
        ) && payload_of(
            final(cache)@,
            key_of(screen_id, spec_clamped_bounds(bounds, screen_width, screen_height)),
        ) == p@),
        !out.result.success ==> out.result.bounds is None && out.result.image_data is None,
        out.result.success ==> out.result.message@ == "screen area captured successfully"@,
        region_too_small(bounds, screen_width, screen_height) ==> out.result.message@
            == "capture area too small after adjustment"@,
        // the teardown directive names the overlay that was up, if any
        match out.hidden_overlay {
            Some(id) => exists|i: int|
                0 <= i < old(pool)@.len() && #[trigger] old(pool)@[i].state is Active && id == old(
                    pool,
                )@[i].id,
            None => !has_active(old(pool)@),
        },
{
    match clamp_selection(bounds, screen_width, screen_height) {
        Err(e) => {
            let hidden = pool.hide_overlay();
            SelectionOutcome {
                result: CaptureResult {
                    success: false,
                    message: e.describe(),
                    bounds: None,
                    image_data: None,
                },
                hidden_overlay: hidden,
            }
        },
        Ok(clamped) => {
            match cache.capture_or_fetch(screen, screen_id, clamped, now) {
                Ok(payload) => {
                    let hidden = pool.hide_overlay();
                    SelectionOutcome {
                        result: CaptureResult {
                            success: true,
                            message: String::from_str("screen area captured successfully"),
                            bounds: Some(clamped),
                            image_data: Some(payload),
                        },
                        hidden_overlay: hidden,
                    }
                },
                Err(e) => {
                    let message = e.describe();
                    proof {
                        reveal_strlit("screen capture failed: ");
                        reveal_strlit("no screens available for capture");
                        reveal_strlit("screen capture failed: no screens available for capture");
                        assert("screen capture failed: "@ + "no screens available for capture"@
                            =~= "screen capture failed: no screens available for capture"@);
                    }
                    let hidden = pool.hide_overlay();
                    SelectionOutcome {
                        result: CaptureResult {
                            success: false,
                            message,
                            bounds: None,
                            image_data: None,
                        },
                        hidden_overlay: hidden,
                    }
                },
            }
        },
    }
}

/// Capture a screen area without the cache: clamp the selection, demand
/// the minimum size, grab the pixels and encode them. The uncached path of
/// the capture command layer. Every failure is a structured result whose
/// message names its cause; nothing here panics or aborts.
pub fn capture_screen_area(
    screen: Option<&screenshots::Screen>,
    screen_width: u32,
    screen_height: u32,
    bounds: CaptureBounds,
) -> (r: CaptureResult)
    requires
        // machine limit: the screen must fit the grab's pixel range
        screen_width <= MAX_GRAB_EXTENT,
        screen_height <= MAX_GRAB_EXTENT,
    ensures
        region_too_small(bounds, screen_width, screen_height) ==> !r.success && r.message@
            == "capture area too small after adjustment"@,
        !region_too_small(bounds, screen_width, screen_height) && screen is None ==> !r.success
            && r.message@ == "no screens available for capture"@,
        r.success ==> !region_too_small(bounds, screen_width, screen_height) && r.bounds == Some(
            spec_clamped_bounds(bounds, screen_width, screen_height),
        ) && (r.image_data matches Some(p) && (exists|bytes: Seq<u8>| p@ == png_data_url(bytes)))
            && r.message@ == "screen area captured successfully"@,
        !r.success ==> r.bounds is None && r.image_data is None,
        // a failure after the clamp carries the grab's or the codec's error
        !region_too_small(bounds, screen_width, screen_height) && screen is Some && !r.success
            ==> (exists|m: Seq<char>| r.message@ == "screen capture failed: "@ + m) || (exists|
            m: Seq<char>,
        | r.message@ == "image encoding failed: "@ + m),
{
    let clamped = match clamp_selection(bounds, screen_width, screen_height) {
        Ok(clamped) => clamped,
        Err(e) => {
            return CaptureResult {
                success: false,
                message: e.describe(),
                bounds: None,
                image_data: None,
            };
        },
    };
    let s = match screen {
        Some(s) => s,
        None => {
            return CaptureResult {
                success: false,
                message: String::from_str("no screens available for capture"),
                bounds: None,
                image_data: None,
            };
        },
    };
    let grabbed = capture_area_png(s, clamped.x, clamped.y, clamped.width, clamped.height);
    let bytes = match grabbed {
        Ok(bytes) => bytes,
        Err(e) => {
            return CaptureResult {
                success: false,
                message: e.describe(),
                bounds: None,
                image_data: None,
            };
        },
    };
    match encode_png_payload(&bytes) {
        Ok(payload) => CaptureResult {
            success: true,
            message: String::from_str("screen area captured successfully"),
            bounds: Some(clamped),
            image_data: Some(payload),
        },
        Err(e) => CaptureResult {
            success: false,
            message: e.describe(),
            bounds: None,
            image_data: None,
        },
    }
}

} // verus!
