//! The frames of one cursor at one size: a single frame for a static
//! cursor, one frame for each step of an animation.

use crate::cursors::cursor_image::{
    CursorImage, CursorImageView, ScaleError, ScalingType, spec_scale,
};
use crate::scaling::ScalingAlgorithm;
use vstd::prelude::*;

verus! {

/// The frames are not the frames of one cursor at one size.
#[derive(Debug, Clone, Copy, PartialEq, Eq)]
pub struct InconsistentFrames;

/// The values of a list of frames.
pub open spec fn images_view(images: Seq<CursorImage>) -> Seq<CursorImageView> {
    Seq::new(images.len(), |i: int| images[i]@)
}

/// Whether `frames` are the frames of one cursor at one size: there is a
/// frame; all frames are valid and as wide and as high as the first; a single
/// frame has the delay zero, and of several frames each has a delay that is
/// not zero.
pub open spec fn valid_frames(frames: Seq<CursorImageView>) -> bool {
    &&& frames.len() >= 1
    &&& forall|i: int| 0 <= i < frames.len() ==> (#[trigger] frames[i]).valid()
    &&& forall|i: int|
        0 <= i < frames.len() ==> (#[trigger] frames[i]).width == frames[0].width
            && frames[i].height == frames[0].height
    &&& frames.len() == 1 ==> frames[0].delay == 0
    &&& frames.len() > 1 ==> forall|i: int|
        0 <= i < frames.len() ==> (#[trigger] frames[i]).delay != 0
}

/// The nominal size of the frames: that of the first.
pub open spec fn frames_nominal(frames: Seq<CursorImageView>) -> nat {
    frames[0].nominal_size()
}

/// A validated sequence of frames.
#[derive(Debug, PartialEq, Eq)]
pub struct CursorImages {
    inner: Vec<CursorImage>,
}

impl View for CursorImages {
    type V = Seq<CursorImageView>;

    closed spec fn view(&self) -> Seq<CursorImageView> {
        images_view(self.inner@)
    }
}

impl Clone for CursorImages {
    fn clone(&self) -> (r: CursorImages)
        ensures
            r@ == self@,
    {
        proof {
            use_type_invariant(self);
        }
        let mut inner: Vec<CursorImage> = Vec::new();
        let mut i: usize = 0;
        while i < self.inner.len()
            invariant
                i <= self.inner.len(),
                inner.len() == i,
                forall|k: int| 0 <= k < i ==> (#[trigger] inner@[k])@ == self.inner@[k]@,
            decreases self.inner.len() - i,
        {
            inner.push(self.inner[i].clone());
            i += 1;
        }
        assert(images_view(inner@) =~= images_view(self.inner@));
        CursorImages { inner }
    }
}

impl CursorImages {
    /// Holds of every value that exists: the constructor checks it.
    #[verifier::type_invariant]
    pub open spec fn well_formed(&self) -> bool {
        valid_frames(self@)
    }

    /// Accepts `images` as the frames of one cursor at one size, or refuses
    /// them.
    #[verifier::loop_isolation(false)]
    pub fn new(images: Vec<CursorImage>) -> (r: Result<CursorImages, InconsistentFrames>)
        ensures
            r is Ok == valid_frames(images_view(images@)),
            r matches Ok(frames) ==> frames@ == images_view(images@),
    {
        let ghost frames = images_view(images@);
        if images.len() == 0 {
            return Err(InconsistentFrames);
        }
        let dims = images[0].dimensions();
        let single = images.len() == 1;
        let mut i: usize = 0;
        while i < images.len()
            invariant
                i <= images.len(),
                forall|k: int| 0 <= k < i ==> (#[trigger] frames[k]).valid(),
                forall|k: int|
                    0 <= k < i ==> (#[trigger] frames[k]).width == frames[0].width
                        && frames[k].height == frames[0].height,
                single ==> forall|k: int| 0 <= k < i ==> (#[trigger] frames[k]).delay == 0,
                !single ==> forall|k: int| 0 <= k < i ==> (#[trigger] frames[k]).delay != 0,
            decreases images.len() - i,
        {
            let d = images[i].dimensions();
            if d.0 != dims.0 || d.1 != dims.1 {
                assert(frames[i as int].width != frames[0].width || frames[i as int].height
                    != frames[0].height);
                return Err(InconsistentFrames);
            }
            let delay = images[i].delay();
            if single != (delay == 0) {
                assert(frames[i as int].delay == delay);
                return Err(InconsistentFrames);
            }
            i += 1;
        }
        Ok(CursorImages { inner: images })
    }

    /// The frames, in order.
    pub fn inner(&self) -> (r: &[CursorImage])
        ensures
            images_view(r@) == self@,
            valid_frames(self@),
    {
        proof {
            use_type_invariant(self);
        }
        self.inner.as_slice()
    }

    /// How many frames there are.
    pub fn len(&self) -> (r: usize)
        ensures
            r == self@.len(),
            r >= 1,
    {
        proof {
            use_type_invariant(self);
        }
        self.inner.len()
    }

    /// The first frame.
    pub fn first(&self) -> (r: &CursorImage)
        ensures
            r@ == self@[0],
            valid_frames(self@),
    {
        proof {
            use_type_invariant(self);
        }
        &self.inner[0]
    }

    /// The width and height that all frames share.
    pub fn dimensions(&self) -> (r: (u32, u32))
        ensures
            r.0 == self@[0].width,
            r.1 == self@[0].height,
            valid_frames(self@),
    {
        self.first().dimensions()
    }

    /// The larger of width and height.
    pub fn nominal_size(&self) -> (r: u32)
        ensures
            r == frames_nominal(self@),
            r >= 1,
            valid_frames(self@),
    {
        let first = self.first();
        first.nominal_size()
    }

    /// Scales every frame by `scale_factor` with `algorithm`. The delays and
    /// the order of the frames stay. Fails exactly where the first frame
    /// cannot be scaled; the frames are alike in this.
    #[verifier::rlimit(50)]
    pub fn scaled_to(
        &self,
        scale_factor: u32,
        scale_type: ScalingType,
        algorithm: ScalingAlgorithm,
    ) -> (r: Result<CursorImages, ScaleError>)
        ensures
            match self@[0].scale_error(scale_factor, scale_type) {
                Some(e) => r == Err::<CursorImages, ScaleError>(e),
                None => r matches Ok(scaled) && valid_frames(scaled@) && scaled@.len()
                    == self@.len() && forall|i: int|
                    0 <= i < self@.len() ==> #[trigger] scaled@[i] == self@[i].scaled(
                        scale_factor,
                        scale_type,
                        scaled@[i].rgba,
                    ),
            },
    {
        proof {
            use_type_invariant(self);
        }
        let ghost frames = self@;
        let mut inner: Vec<CursorImage> = Vec::new();
        let mut i: usize = 0;
        while i < self.inner.len()
            invariant
                i <= self.inner.len(),
                valid_frames(frames),
                frames == images_view(self.inner@),
                inner.len() == i,
                i > 0 ==> frames[0].scale_error(scale_factor, scale_type) is None,
                forall|k: int|
                    0 <= k < i ==> (#[trigger] inner@[k])@.valid() && inner@[k]@
                        == frames[k].scaled(scale_factor, scale_type, inner@[k]@.rgba),
            decreases self.inner.len() - i,
        {
            assert(frames[i as int].scale_error(scale_factor, scale_type) == frames[0].scale_error(
                scale_factor,
                scale_type,
            ));
            match self.inner[i].scaled_to(scale_factor, scale_type, algorithm) {
                Err(e) => { return Err(e); },
                Ok(image) => {
                    inner.push(image);
                },
            }
            i += 1;
        }
        let ghost out = images_view(inner@);
        assert(valid_frames(out)) by {
            assert(out.len() == frames.len());
            assert forall|k: int| 0 <= k < out.len() implies (#[trigger] out[k]).valid()
                && out[k].width == out[0].width && out[k].height == out[0].height && out[k].delay
                == frames[k].delay by {
                assert(out[k] == inner@[k]@);
                assert(out[0] == inner@[0]@);
                assert(frames[k].width == frames[0].width);
                assert(frames[k].height == frames[0].height);
            }
        }
        assert forall|k: int| 0 <= k < frames.len() implies #[trigger] out[k] == frames[k].scaled(
            scale_factor,
            scale_type,
            out[k].rgba,
        ) by {
            assert(out[k] == inner@[k]@);
        }
        Ok(CursorImages { inner })
    }
}


/// The lengths of a list of pixel buffers.
pub open spec fn buffers_view(pixels: Seq<Vec<u8>>) -> Seq<Seq<u8>> {
    Seq::new(pixels.len(), |i: int| pixels[i]@)
}

/// Whether `pixels` holds one buffer for each of the frames, each with four
/// bytes for each pixel of the scaled frame.
pub open spec fn buffers_fit(
    frames: Seq<CursorImageView>,
    factor: u32,
    scale_type: ScalingType,
    pixels: Seq<Seq<u8>>,
) -> bool {
    &&& pixels.len() == frames.len()
    &&& forall|i: int|
        0 <= i < pixels.len() ==> (#[trigger] pixels[i]).len() == 4 * spec_scale(
            frames[i].width,
            factor,
            scale_type,
        ) * spec_scale(frames[i].height, factor, scale_type)
}

/// The frames scaled by `factor`, with the buffers of `pixels` as their
/// pixels, or why they cannot be: the first frame cannot be scaled, or the
/// buffers do not fit.
pub open spec fn spec_frames_resampled(
    frames: Seq<CursorImageView>,
    factor: u32,
    scale_type: ScalingType,
    pixels: Seq<Seq<u8>>,
) -> Result<Seq<CursorImageView>, ScaleError> {
    match frames[0].scale_error(factor, scale_type) {
        Some(e) => Err(e),
        None => if !buffers_fit(frames, factor, scale_type, pixels) {
            Err(ScaleError::ResampleFailed)
        } else {
            Ok(Seq::new(frames.len(), |i: int| frames[i].scaled(factor, scale_type, pixels[i])))
        },
    }
}

impl CursorImages {
    /// Builds the scaled frames from pixels that were resampled elsewhere:
    /// one buffer for each frame, in order.
    #[verifier::loop_isolation(false)]
    #[verifier::rlimit(50)]
    pub fn from_resampled(&self, scale_factor: u32, scale_type: ScalingType, pixels: &Vec<Vec<u8>>) -> (r:
        Result<CursorImages, ScaleError>)
        ensures
            match spec_frames_resampled(self@, scale_factor, scale_type, buffers_view(pixels@)) {
                Err(e) => r == Err::<CursorImages, ScaleError>(e),
                Ok(frames) => r matches Ok(scaled) && scaled@ == frames && valid_frames(scaled@),
            },
    {
        proof {
            use_type_invariant(self);
        }
        let ghost frames = self@;
        let ghost buffers = buffers_view(pixels@);
        if let Err(e) = self.inner[0].scaled_dimensions(scale_factor, scale_type) {
            return Err(e);
        }
        if pixels.len() != self.inner.len() {
            return Err(ScaleError::ResampleFailed);
        }
        let mut inner: Vec<CursorImage> = Vec::new();
        let mut i: usize = 0;
        while i < self.inner.len()
            invariant
                i <= self.inner.len(),
                inner.len() == i,
                forall|k: int|
                    0 <= k < i ==> (#[trigger] buffers[k]).len() == 4 * spec_scale(
                        frames[k].width,
                        scale_factor,
                        scale_type,
                    ) * spec_scale(frames[k].height, scale_factor, scale_type),
                forall|k: int|
                    0 <= k < i ==> (#[trigger] inner@[k])@.valid() && inner@[k]@
                        == frames[k].scaled(scale_factor, scale_type, buffers[k]),
            decreases self.inner.len() - i,
        {
            assert(frames[i as int].scale_error(scale_factor, scale_type) == frames[0].scale_error(
                scale_factor,
                scale_type,
            ));
            assert(frames[i as int].width == frames[0].width);
            assert(frames[i as int].height == frames[0].height);
            let buffer = pixels[i].clone();
            assert(buffer@ == buffers[i as int]);
            match self.inner[i].from_resampled(scale_factor, scale_type, Some(buffer)) {
                Err(e) => {
                    assert(!buffers_fit(frames, scale_factor, scale_type, buffers));
                    return Err(ScaleError::ResampleFailed);
                },
                Ok(image) => {
                    proof {
                        use_type_invariant(&image);
                    }
                    inner.push(image);
                },
            }
            i += 1;
        }
        let ghost out = images_view(inner@);
        let ghost want = spec_frames_resampled(frames, scale_factor, scale_type, buffers)->Ok_0;
        assert(buffers_fit(frames, scale_factor, scale_type, buffers));
        assert(out =~= want) by {
            assert forall|k: int| 0 <= k < out.len() implies out[k] == want[k] by {
                assert(out[k] == inner@[k]@);
            }
        }
        assert(valid_frames(out)) by {
            assert forall|k: int| 0 <= k < out.len() implies (#[trigger] out[k]).valid()
                && out[k].width == out[0].width && out[k].height == out[0].height && out[k].delay
                == frames[k].delay by {
                assert(out[k] == inner@[k]@);
                assert(out[0] == inner@[0]@);
                assert(frames[k].width == frames[0].width);
                assert(frames[k].height == frames[0].height);
            }
        }
        Ok(CursorImages { inner })
    }
}

} // verus!
