//! The launcher's window icon: an image file decoded into RGBA pixels.

use vstd::prelude::*;

verus! {

/// Whether an RGBA8 buffer of `len` bytes holds every pixel of a `width` x
/// `height` image (4 bytes a pixel, row by row; it may hold more).
pub open spec fn rgba_fits(width: u32, height: u32, len: nat) -> bool {
    4 * (width as int) * (height as int) <= len
}

/// Decodes with `image::load_from_memory` and converts with
/// `DynamicImage::into_rgba8`, handing out the buffer and its dimensions.
///
/// The `image` crate guesses the format and picks the decoder through
/// process-wide hook registries that any code may add to, so what given bytes
/// decode to (and whether they decode at all) is not a function of the bytes
/// and is left unsaid. What holds of every outcome: an `RgbaImage` is only
/// ever built with a buffer that `check_image_fits` accepts (or allocated at
/// exactly that size), so the buffer holds all `w` x `h` pixels.
#[verifier::external_body]
fn decode_rgba8(bytes: &[u8]) -> (r: Option<(Vec<u8>, u32, u32)>)
    ensures
        r matches Some((rgba, w, h)) ==> rgba_fits(w, h, rgba@.len()),
{
    match image::load_from_memory(bytes) {
        Ok(img) => {
            let rgba = img.into_rgba8();
            let (w, h) = rgba.dimensions();
            Some((rgba.into_raw(), w, h))
        },
        Err(_) => None,
    }
}

/// Window icon pixels: RGBA8, row by row.
pub struct Icon {
    pub rgba: Vec<u8>,
    pub width: u32,
    pub height: u32,
}

/// The icon an image file's bytes hold, as the `image` crate decodes them
/// (format guessed from the bytes), or `None` where it can't. Which pixels
/// come out is the `image` crate's decoding; an icon handed out always has
/// all of its `width` x `height` RGBA pixels.
pub fn decode_icon(bytes: &[u8]) -> (r: Option<Icon>)
    ensures
        r matches Some(icon) ==> rgba_fits(icon.width, icon.height, icon.rgba@.len()),
{
    match decode_rgba8(bytes) {
        Some((rgba, width, height)) => Some(Icon { rgba, width, height }),
        None => None,
    }
}

} // verus!
