//! Resampling of RGBA pixels. The kernels are those of `fast_image_resize`;
//! of what they compute nothing is stated here but that there is a result
//! and how large it is.

use fast_image_resize::images::{Image, ImageRef};
use fast_image_resize::{FilterType, PixelType, ResizeAlg, ResizeOptions, Resizer};
use vstd::prelude::*;

verus! {

/// The kernel with which pixels are resampled.
#[derive(Debug, Clone, Copy, PartialEq, Eq)]
pub enum ScalingAlgorithm {
    /// The nearest source pixel.
    Nearest,
    /// The mean of the source pixels that a target pixel covers.
    Box,
    /// Linear interpolation.
    Bilinear,
    /// The bicubic filter of Mitchell and Netravali.
    Mitchell,
    /// A Lanczos filter with three lobes.
    Lanczos3,
}

/// Resamples an image of `width` by `height` pixels to `new_width` by
/// `new_height` pixels.
///
/// Calls `Resizer::resize` of `fast_image_resize` on images of the pixel type
/// `U8x4`. Claimed and not proved: on a source buffer of the stated length
/// and positive dimensions the outside crate refuses nothing (it refuses a
/// short or misaligned buffer, and `U8x4` has the alignment of a byte, and
/// images of differing pixel types), and the buffer that comes back holds
/// four bytes for each pixel of the target. Which pixels come back is not
/// stated.
#[verifier::external_body]
pub(crate) fn resample(
    rgba: &[u8],
    width: u32,
    height: u32,
    new_width: u32,
    new_height: u32,
    algorithm: ScalingAlgorithm,
) -> (r: Option<Vec<u8>>)
    requires
        width > 0,
        height > 0,
        new_width > 0,
        new_height > 0,
        rgba@.len() == 4 * width * height,
        4 * new_width * new_height <= usize::MAX,
    ensures
        r is Some,
        r matches Some(pixels) ==> pixels@.len() == 4 * new_width * new_height,
{
    let src = ImageRef::new(width, height, rgba, PixelType::U8x4).ok()?;
    let mut dst = Image::new(new_width, new_height, PixelType::U8x4);
    let kernel = match algorithm {
        ScalingAlgorithm::Nearest => ResizeAlg::Nearest,
        ScalingAlgorithm::Box => ResizeAlg::Convolution(FilterType::Box),
        ScalingAlgorithm::Bilinear => ResizeAlg::Convolution(FilterType::Bilinear),
        ScalingAlgorithm::Mitchell => ResizeAlg::Convolution(FilterType::Mitchell),
        ScalingAlgorithm::Lanczos3 => ResizeAlg::Convolution(FilterType::Lanczos3),
    };
    Resizer::new().resize(&src, &mut dst, &ResizeOptions::new().resize_alg(kernel)).ok()?;
    Some(dst.into_vec())
}

} // verus!
