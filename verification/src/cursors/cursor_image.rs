//! A single RGBA frame of a cursor.

use crate::scaling::{resample, ScalingAlgorithm};
use vstd::prelude::*;

verus! {

/// Why a frame could not be built.
#[derive(Debug, Clone, Copy, PartialEq, Eq)]
pub enum ImageError {
    /// The width or the height is zero.
    ZeroDimension,
    /// A hotspot coordinate lies beyond the matching dimension.
    HotspotOutOfRange,
    /// The pixel buffer does not hold four bytes for each pixel.
    BufferSizeMismatch,
}

/// Why a frame could not be scaled.
#[derive(Debug, Clone, Copy, PartialEq, Eq)]
pub enum ScaleError {
    /// The factor is zero or beyond the largest factor of its direction.
    FactorOutOfRange,
    /// The scaled width or height would be zero, or the scaled image too
    /// large to hold.
    DimensionOutOfRange,
    /// Pixels handed in for a scaled frame are missing or are not four bytes
    /// for each pixel.
    ResampleFailed,
}

/// The direction of a scaling by a whole number `n`: up to `n` times the
/// size, or down to one `n`-th of it.
#[derive(Debug, Clone, Copy, PartialEq, Eq)]
pub enum ScalingType {
    /// Up to `n` times the size.
    Upscale,
    /// Down to one `n`-th of the size.
    Downscale,
}

/// The largest factor by which a frame is scaled up.
pub const MAX_UPSCALE_FACTOR: u32 = 20;

/// The largest factor by which a frame is scaled down.
pub const MAX_DOWNSCALE_FACTOR: u32 = 5;

/// `x` scaled by `factor` in the direction `scale_type`, rounded towards
/// zero.
pub open spec fn spec_scale(x: nat, factor: u32, scale_type: ScalingType) -> nat {
    match scale_type {
        ScalingType::Upscale => (x * factor) as nat,
        ScalingType::Downscale => if factor == 0 {
            0
        } else {
            x / (factor as nat)
        },
    }
}

/// Whether `factor` is a factor of the direction `scale_type`.
pub open spec fn factor_in_range(factor: u32, scale_type: ScalingType) -> bool {
    match scale_type {
        ScalingType::Upscale => 1 <= factor <= MAX_UPSCALE_FACTOR,
        ScalingType::Downscale => 1 <= factor <= MAX_DOWNSCALE_FACTOR,
    }
}

/// The mathematical value of a [`CursorImage`].
pub struct CursorImageView {
    pub width: nat,
    pub height: nat,
    pub hotspot_x: nat,
    pub hotspot_y: nat,
    pub rgba: Seq<u8>,
    pub delay: nat,
}

impl CursorImageView {
    /// What every frame satisfies: positive dimensions, a hotspot inside them
    /// (the far edge included) and four bytes for each pixel.
    pub open spec fn valid(self) -> bool {
        &&& 0 < self.width <= u32::MAX
        &&& 0 < self.height <= u32::MAX
        &&& self.hotspot_x <= self.width
        &&& self.hotspot_y <= self.height
        &&& self.rgba.len() == 4 * self.width * self.height
        &&& self.delay <= u32::MAX
    }

    /// The larger of width and height.
    pub open spec fn nominal_size(self) -> nat {
        if self.width >= self.height {
            self.width
        } else {
            self.height
        }
    }

    /// Why the frame cannot be scaled by `factor`, if it cannot: the factor
    /// is out of range, or the scaled frame would have no pixel, a dimension
    /// beyond 32 bits or more bytes than the machine can address.
    pub open spec fn scale_error(self, factor: u32, scale_type: ScalingType) -> Option<
        ScaleError,
    > {
        if !factor_in_range(factor, scale_type) {
            Some(ScaleError::FactorOutOfRange)
        } else if spec_scale(self.width, factor, scale_type) == 0 || spec_scale(
            self.height,
            factor,
            scale_type,
        ) == 0 || spec_scale(self.width, factor, scale_type) > u32::MAX || spec_scale(
            self.height,
            factor,
            scale_type,
        ) > u32::MAX || 4 * spec_scale(self.width, factor, scale_type) * spec_scale(
            self.height,
            factor,
            scale_type,
        ) > usize::MAX {
            Some(ScaleError::DimensionOutOfRange)
        } else {
            None
        }
    }

    /// The frame scaled by `factor`, with `pixels` as its pixels: width,
    /// height and hotspot are scaled and rounded towards zero, the delay
    /// stays.
    pub open spec fn scaled(self, factor: u32, scale_type: ScalingType, pixels: Seq<u8>)
        -> CursorImageView {
        CursorImageView {
            width: spec_scale(self.width, factor, scale_type),
            height: spec_scale(self.height, factor, scale_type),
            hotspot_x: spec_scale(self.hotspot_x, factor, scale_type),
            hotspot_y: spec_scale(self.hotspot_y, factor, scale_type),
            rgba: pixels,
            delay: self.delay,
        }
    }

    /// What scaling gives once the resampler has answered with `pixels`
    /// (`None` where it refused).
    pub open spec fn scaled_with(
        self,
        factor: u32,
        scale_type: ScalingType,
        pixels: Option<Seq<u8>>,
    ) -> Result<CursorImageView, ScaleError> {
        match self.scale_error(factor, scale_type) {
            Some(e) => Err(e),
            None => match pixels {
                None => Err(ScaleError::ResampleFailed),
                Some(p) => if p.len() != 4 * spec_scale(self.width, factor, scale_type)
                    * spec_scale(self.height, factor, scale_type) {
                    Err(ScaleError::ResampleFailed)
                } else {
                    Ok(self.scaled(factor, scale_type, p))
                },
            },
        }
    }

}

/// The frame that `new_with_delay` builds from its arguments, or the reason
/// it refuses them. The checks are made in this order.
pub open spec fn spec_new_image(
    width: u32,
    height: u32,
    hotspot_x: u32,
    hotspot_y: u32,
    rgba: Seq<u8>,
    delay: u32,
) -> Result<CursorImageView, ImageError> {
    if width == 0 || height == 0 {
        Err(ImageError::ZeroDimension)
    } else if hotspot_x > width || hotspot_y > height {
        Err(ImageError::HotspotOutOfRange)
    } else if rgba.len() != 4 * width * height {
        Err(ImageError::BufferSizeMismatch)
    } else {
        Ok(
            CursorImageView {
                width: width as nat,
                height: height as nat,
                hotspot_x: hotspot_x as nat,
                hotspot_y: hotspot_y as nat,
                rgba,
                delay: delay as nat,
            },
        )
    }
}

/// Scaling keeps the order of two coordinates.
pub proof fn lemma_scale_monotone(a: nat, b: nat, factor: u32, scale_type: ScalingType)
    requires
        a <= b,
        factor >= 1,
    ensures
        spec_scale(a, factor, scale_type) <= spec_scale(b, factor, scale_type),
{
    match scale_type {
        ScalingType::Upscale => {
            assert(a * factor <= b * factor) by (nonlinear_arith)
                requires
                    a <= b,
                    factor >= 1,
            ;
        },
        ScalingType::Downscale => {
            let f = factor as int;
            assert(a as int / f <= b as int / f) by (nonlinear_arith)
                requires
                    a <= b,
                    f >= 1,
            ;
        },
    }
}

/// One frame of a cursor: RGBA pixels in row-major order, the hotspot, and
/// the time in milliseconds for which the frame is shown (zero for a static
/// cursor).
#[derive(Debug, PartialEq, Eq)]
pub struct CursorImage {
    width: u32,
    height: u32,
    hotspot_x: u32,
    hotspot_y: u32,
    rgba: Vec<u8>,
    delay: u32,
}

impl View for CursorImage {
    type V = CursorImageView;

    closed spec fn view(&self) -> CursorImageView {
        CursorImageView {
            width: self.width as nat,
            height: self.height as nat,
            hotspot_x: self.hotspot_x as nat,
            hotspot_y: self.hotspot_y as nat,
            rgba: self.rgba@,
            delay: self.delay as nat,
        }
    }
}

impl Clone for CursorImage {
    fn clone(&self) -> (r: CursorImage)
        ensures
            r@ == self@,
    {
        proof {
            use_type_invariant(self);
        }
        CursorImage {
            width: self.width,
            height: self.height,
            hotspot_x: self.hotspot_x,
            hotspot_y: self.hotspot_y,
            rgba: self.rgba.clone(),
            delay: self.delay,
        }
    }
}

impl CursorImage {
    /// The delay of a frame that is not animated.
    pub const STATIC_DELAY: u32 = 0;

    /// Holds of every frame that exists: the constructors check it.
    #[verifier::type_invariant]
    pub open spec fn well_formed(&self) -> bool {
        self@.valid()
    }

    /// Builds a static frame: its delay is zero.
    pub fn new(width: u32, height: u32, hotspot_x: u32, hotspot_y: u32, rgba: Vec<u8>) -> (r:
        Result<CursorImage, ImageError>)
        ensures
            r is Ok == spec_new_image(width, height, hotspot_x, hotspot_y, rgba@, 0) is Ok,
            r matches Ok(image) ==> Ok::<CursorImageView, ImageError>(image@) == spec_new_image(
                width,
                height,
                hotspot_x,
                hotspot_y,
                rgba@,
                0,
            ),
            r matches Err(e) ==> Err::<CursorImageView, ImageError>(e) == spec_new_image(
                width,
                height,
                hotspot_x,
                hotspot_y,
                rgba@,
                0,
            ),
    {
        CursorImage::new_with_delay(width, height, hotspot_x, hotspot_y, rgba, 0)
    }

    /// Builds a frame that is shown for `delay` milliseconds.
    #[verifier::rlimit(50)]
    pub fn new_with_delay(
        width: u32,
        height: u32,
        hotspot_x: u32,
        hotspot_y: u32,
        rgba: Vec<u8>,
        delay: u32,
    ) -> (r: Result<CursorImage, ImageError>)
        ensures
            r is Ok == spec_new_image(width, height, hotspot_x, hotspot_y, rgba@, delay) is Ok,
            r matches Ok(image) ==> Ok::<CursorImageView, ImageError>(image@) == spec_new_image(
                width,
                height,
                hotspot_x,
                hotspot_y,
                rgba@,
                delay,
            ),
            r matches Err(e) ==> Err::<CursorImageView, ImageError>(e) == spec_new_image(
                width,
                height,
                hotspot_x,
                hotspot_y,
                rgba@,
                delay,
            ),
    {
        if width == 0 || height == 0 {
            return Err(ImageError::ZeroDimension);
        }
        if hotspot_x > width || hotspot_y > height {
            return Err(ImageError::HotspotOutOfRange);
        }
        assert(width * height <= 0xffff_ffff * 0xffff_ffff) by (nonlinear_arith)
            requires
                width <= 0xffff_ffff,
                height <= 0xffff_ffff,
        ;
        let area: u128 = (width as u128) * (height as u128);
        let expected: u128 = 4 * area;
        assert(expected == 4 * width * height) by (nonlinear_arith)
            requires
                expected == 4 * (width * height),
        ;
        if rgba.len() as u128 != expected {
            return Err(ImageError::BufferSizeMismatch);
        }
        Ok(CursorImage { width, height, hotspot_x, hotspot_y, rgba, delay })
    }

    /// Width and height in pixels.
    pub fn dimensions(&self) -> (r: (u32, u32))
        ensures
            r.0 == self@.width,
            r.1 == self@.height,
            self@.valid(),
    {
        proof {
            use_type_invariant(self);
        }
        (self.width, self.height)
    }

    /// The hotspot as `(x, y)`.
    pub fn hotspot(&self) -> (r: (u32, u32))
        ensures
            r.0 == self@.hotspot_x,
            r.1 == self@.hotspot_y,
    {
        (self.hotspot_x, self.hotspot_y)
    }

    /// The time in milliseconds for which the frame is shown.
    pub fn delay(&self) -> (r: u32)
        ensures
            r == self@.delay,
    {
        self.delay
    }

    /// The pixels, four bytes each in the order red, green, blue, alpha.
    pub fn rgba(&self) -> (r: &[u8])
        ensures
            r@ == self@.rgba,
    {
        self.rgba.as_slice()
    }

    /// Scales one coordinate.
    fn scale_value(x: u32, factor: u32, scale_type: ScalingType) -> (r: u64)
        requires
            factor_in_range(factor, scale_type),
        ensures
            r == spec_scale(x as nat, factor, scale_type),
    {
        match scale_type {
            ScalingType::Upscale => {
                assert(x * factor <= 0xffff_ffff * 20) by (nonlinear_arith)
                    requires
                        x <= 0xffff_ffff,
                        factor <= 20,
                ;
                (x as u64) * (factor as u64)
            },
            ScalingType::Downscale => (x / factor) as u64,
        }
    }

    /// Builds the scaled frame from what the resampler handed back for it:
    /// the pixels of the scaled frame, or `None` where it refused.
    #[verifier::rlimit(50)]
    pub fn from_resampled(
        &self,
        scale_factor: u32,
        scale_type: ScalingType,
        pixels: Option<Vec<u8>>,
    ) -> (r: Result<CursorImage, ScaleError>)
        ensures
            r matches Ok(image) ==> self@.scaled_with(
                scale_factor,
                scale_type,
                match pixels {
                    Some(p) => Some(p@),
                    None => None,
                },
            ) == Ok::<CursorImageView, ScaleError>(image@),
            r matches Err(e) ==> self@.scaled_with(
                scale_factor,
                scale_type,
                match pixels {
                    Some(p) => Some(p@),
                    None => None,
                },
            ) == Err::<CursorImageView, ScaleError>(e),
    {
        proof {
            use_type_invariant(self);
        }
        let (width, height) = match self.scaled_dimensions(scale_factor, scale_type) {
            Err(e) => { return Err(e); },
            Ok(d) => d,
        };
        let rgba = match pixels {
            None => { return Err(ScaleError::ResampleFailed); },
            Some(p) => p,
        };
        assert(width * height <= 0xffff_ffff * 0xffff_ffff) by (nonlinear_arith)
            requires
                width <= 0xffff_ffff,
                height <= 0xffff_ffff,
        ;
        let expected: u128 = 4 * ((width as u128) * (height as u128));
        assert(expected == 4 * width * height) by (nonlinear_arith)
            requires
                expected == 4 * (width * height),
        ;
        if rgba.len() as u128 != expected {
            return Err(ScaleError::ResampleFailed);
        }
        let hotspot_x = CursorImage::scale_value(self.hotspot_x, scale_factor, scale_type);
        let hotspot_y = CursorImage::scale_value(self.hotspot_y, scale_factor, scale_type);
        proof {
            lemma_scale_monotone(self@.hotspot_x, self@.width, scale_factor, scale_type);
            lemma_scale_monotone(self@.hotspot_y, self@.height, scale_factor, scale_type);
        }
        Ok(
            CursorImage {
                width,
                height,
                hotspot_x: hotspot_x as u32,
                hotspot_y: hotspot_y as u32,
                rgba,
                delay: self.delay,
            },
        )
    }

    /// The width and height of the frame scaled by `scale_factor`.
    pub fn scaled_dimensions(&self, scale_factor: u32, scale_type: ScalingType) -> (r: Result<
        (u32, u32),
        ScaleError,
    >)
        ensures
            r matches Ok(d) ==> self@.scale_error(scale_factor, scale_type) is None && d.0
                == spec_scale(self@.width, scale_factor, scale_type) && d.1 == spec_scale(
                self@.height,
                scale_factor,
                scale_type,
            ),
            r matches Err(e) ==> self@.scale_error(scale_factor, scale_type) == Some(e),
    {
        let in_range = match scale_type {
            ScalingType::Upscale => 1 <= scale_factor && scale_factor <= MAX_UPSCALE_FACTOR,
            ScalingType::Downscale => 1 <= scale_factor && scale_factor <= MAX_DOWNSCALE_FACTOR,
        };
        if !in_range {
            return Err(ScaleError::FactorOutOfRange);
        }
        let width = CursorImage::scale_value(self.width, scale_factor, scale_type);
        let height = CursorImage::scale_value(self.height, scale_factor, scale_type);
        if width == 0 || height == 0 || width > u32::MAX as u64 || height > u32::MAX as u64 {
            return Err(ScaleError::DimensionOutOfRange);
        }
        assert(width * height <= 0xffff_ffff * 0xffff_ffff) by (nonlinear_arith)
            requires
                width <= 0xffff_ffff,
                height <= 0xffff_ffff,
        ;
        let bytes: u128 = 4 * ((width as u128) * (height as u128));
        assert(bytes == 4 * width * height) by (nonlinear_arith)
            requires
                bytes == 4 * (width * height),
        ;
        if bytes > usize::MAX as u128 {
            return Err(ScaleError::DimensionOutOfRange);
        }
        Ok((width as u32, height as u32))
    }

    /// Scales the frame by the whole number `scale_factor`, up to that many
    /// times its size or down to that fraction of it. Width, height and
    /// hotspot are scaled and rounded towards zero; the delay stays; the
    /// pixels are resampled with `algorithm`.
    ///
    /// Fails exactly where [`CursorImageView::scale_error`] says so; else the
    /// result has the scaled geometry and the pixels that the resampler
    /// handed back.
    pub fn scaled_to(
        &self,
        scale_factor: u32,
        scale_type: ScalingType,
        algorithm: ScalingAlgorithm,
    ) -> (r: Result<CursorImage, ScaleError>)
        ensures
            match self@.scale_error(scale_factor, scale_type) {
                Some(e) => r == Err::<CursorImage, ScaleError>(e),
                None => r matches Ok(image) && image@.valid() && image@ == self@.scaled(
                    scale_factor,
                    scale_type,
                    image@.rgba,
                ),
            },
    {
        proof {
            use_type_invariant(self);
        }
        let (width, height) = match self.scaled_dimensions(scale_factor, scale_type) {
            Err(e) => { return Err(e); },
            Ok(d) => d,
        };
        let pixels = resample(
            self.rgba.as_slice(),
            self.width,
            self.height,
            width,
            height,
            algorithm,
        );
        match self.from_resampled(scale_factor, scale_type, pixels) {
            Err(e) => Err(e),
            Ok(image) => {
                proof {
                    use_type_invariant(&image);
                }
                Ok(image)
            },
        }
    }

    /// Scales the frame up to `scale_factor` times its size, each pixel taken
    /// from the nearest one of the frame.
    pub fn upscaled_to(&self, scale_factor: u32) -> (r: Result<CursorImage, ScaleError>)
        ensures
            match self@.scale_error(scale_factor, ScalingType::Upscale) {
                Some(e) => r == Err::<CursorImage, ScaleError>(e),
                None => r matches Ok(image) && image@.valid() && image@ == self@.scaled(
                    scale_factor,
                    ScalingType::Upscale,
                    image@.rgba,
                ),
            },
    {
        self.scaled_to(scale_factor, ScalingType::Upscale, ScalingAlgorithm::Nearest)
    }

    /// Scales the frame down to one `scale_factor`-th of its size, each pixel
    /// the mean of those it covers.
    pub fn downscaled_to(&self, scale_factor: u32) -> (r: Result<CursorImage, ScaleError>)
        ensures
            match self@.scale_error(scale_factor, ScalingType::Downscale) {
                Some(e) => r == Err::<CursorImage, ScaleError>(e),
                None => r matches Ok(image) && image@.valid() && image@ == self@.scaled(
                    scale_factor,
                    ScalingType::Downscale,
                    image@.rgba,
                ),
            },
    {
        self.scaled_to(scale_factor, ScalingType::Downscale, ScalingAlgorithm::Box)
    }

    /// Tells whether the frame is as wide as it is high. Cursors that are
    /// not may be drawn oddly.
    pub fn is_square(&self) -> (r: bool)
        ensures
            r == (self@.width == self@.height),
    {
        self.width == self.height
    }

    /// The larger of width and height.
    pub fn nominal_size(&self) -> (r: u32)
        ensures
            r == self@.nominal_size(),
    {
        if self.width >= self.height {
            self.width
        } else {
            self.height
        }
    }

}

} // verus!
