//! The `image` crate's RGBA8 image buffer, as far as the capture uses it.
use vstd::prelude::*;
use image::{ImageBuffer, Rgba};

verus! {

/// An RGBA8 image of the `image` crate.  Verus does not accept a declaration
/// of `image::ImageBuffer` itself (its `Pixel` bound), so the buffer is held
/// here, opaque to the proofs; `image_samples` and `image_size` name its
/// contents and dimensions.
#[verifier::external_body]
pub struct RgbaImage(pub ImageBuffer<Rgba<u8>, Vec<u8>>);

/// The subpixel bytes that an RGBA8 image holds, row by row.
pub uninterp spec fn image_samples(img: RgbaImage) -> Seq<u8>;

/// The `(width, height)` an RGBA8 image was made with.
pub uninterp spec fn image_size(img: RgbaImage) -> (u32, u32);

/// Calls `image::ImageBuffer::from_raw` for RGBA8 pixels.  As the crate's
/// source shows, it computes `4 * width` and then `* height` with checked
/// `usize` multiplication and returns `Some` exactly when neither overflows
/// and the product is at most `buf.len()`; the image then keeps `buf` as its
/// samples, unchanged, with the given dimensions.
#[verifier::external_body]
pub(crate) fn rgba_image_from_raw(width: u32, height: u32, buf: Vec<u8>) -> (r: Option<RgbaImage>)
    ensures
        r is Some <==> (4 * width <= usize::MAX && 4 * width * height <= usize::MAX && 4 * width
            * height <= buf@.len()),
        r matches Some(img) ==> image_samples(img) == buf@ && image_size(img) == (width, height),
{
    ImageBuffer::from_raw(width, height, buf).map(RgbaImage)
}

} // verus!
