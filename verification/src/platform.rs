//! Trusted boundary to the platform crates: base64 encoding and the
//! OS screen-pixel grab. Every verified statement about a capture rests on
//! the contracts in this module.

use vstd::prelude::*;
use crate::errors::CaptureError;

verus! {

/// What the standard padded base64 alphabet makes of a byte sequence.
/// Named rather than written out: the encoding is a table plus bit
/// arithmetic, and depends on the input bytes alone.
pub uninterp spec fn base64_of(bytes: Seq<u8>) -> Seq<char>;

/// Largest input this library hands to the base64 encoder, chosen so that
/// the encoded length (four characters for every three bytes) stays far
/// from `usize::MAX` on every target.
pub const MAX_ENCODABLE_BYTES: usize = 0x3FFF_FFFF;

/// Relies on base64's `general_purpose::STANDARD` engine (standard
/// alphabet, padded): the output is a function of the input bytes alone and
/// has exactly `4 * ceil(n / 3)` characters. The engine panics only when
/// that length overflows `usize`, which the input bound rules out.
#[verifier::external_body]
pub(crate) fn base64_encode(bytes: &Vec<u8>) -> (r: String)
    requires
        bytes@.len() <= MAX_ENCODABLE_BYTES,
    ensures
        r@ == base64_of(bytes@),
        r@.len() == 4 * ((bytes@.len() + 2) / 3),
{
    base64::Engine::encode(&base64::engine::general_purpose::STANDARD, bytes)
}

#[verifier::external_type_specification]
#[verifier::external_body]
pub struct ExScreen(screenshots::Screen);

/// Relies on `screenshots::Screen::all`: every available screen, or the
/// platform's error. Which screens exist depends on the machine, so nothing
/// more is stated.
#[verifier::external_body]
pub(crate) fn screens_all() -> (r: Result<Vec<screenshots::Screen>, String>) {
    screenshots::Screen::all().map_err(|e| e.to_string())
}

/// Relies on the public `display_info` field of `screenshots::Screen`:
/// hands out the display's identifier and pixel size as plain values.
#[verifier::external_body]
pub(crate) fn screen_descriptor(s: &screenshots::Screen) -> (r: (u32, u32, u32)) {
    (s.display_info.id, s.display_info.width, s.display_info.height)
}

/// Relies on `screenshots::Screen::capture_area` and the PNG encoder of the
/// Largest pixel coordinate a grab rectangle may reach. The platform's
/// whole coordinate space is `i32`; holding the rectangle a factor of two
/// under that leaves the grab's internal origin-plus-offset additions room
/// for any display origin a machine can hold. Every real screen is far
/// smaller.
pub const MAX_GRAB_EXTENT: u32 = 0x4000_0000;

/// image crate it re-exports: grabs the pixels of the given rectangle of
/// that screen and encodes them as PNG. What comes back depends on what is
/// on the screen, so nothing is stated of the bytes; callers say what holds
/// of every outcome. A failed grab converts to `DeviceFailure`, a failed
/// PNG encode to `EncodingFailure`, each carrying the platform's message.
/// `capture_area` adds the rectangle's coordinates to the display's origin
/// in `i32` with overflow checks on, so the admitted rectangles stay under
/// `MAX_GRAB_EXTENT`: those additions then fit `i32` for every display
/// origin up to a billion pixels, which covers every machine. It also sums
/// the display's own origin and size, which no argument bound can touch;
/// that sum is the display's right edge, an `i32` coordinate by the
/// platform's own construction.
#[verifier::external_body]
pub(crate) fn capture_area_png(
    s: &screenshots::Screen,
    x: i32,
    y: i32,
    width: u32,
    height: u32,
) -> (r: Result<Vec<u8>, CaptureError>)
    requires
        0 <= x,
        0 <= y,
        x + width <= MAX_GRAB_EXTENT,
        y + height <= MAX_GRAB_EXTENT,
    ensures
        r is Err ==> (r->Err_0 matches CaptureError::DeviceFailure { .. } || r->Err_0 matches CaptureError::EncodingFailure {
            ..
        }),
{
    let image = match s.capture_area(x, y, width, height) {
        Ok(image) => image,
        Err(e) => {
            return Err(CaptureError::DeviceFailure { message: e.to_string() });
        },
    };
    let mut buf: Vec<u8> = Vec::new();
    match image.write_to(
        &mut std::io::Cursor::new(&mut buf),
        screenshots::image::ImageOutputFormat::Png,
    ) {
        Ok(()) => Ok(buf),
        Err(e) => Err(CaptureError::EncodingFailure { message: e.to_string() }),
    }
}

} // verus!
