//! A cursor at its native size together with its scaled variants.

use crate::cursors::cur::CurError;
use crate::cursors::cursor_image::{
    CursorImage, CursorImageView, ScaleError, ScalingType, spec_scale,
};
use crate::cursors::cursor_images::{
    CursorImages, buffers_view, frames_nominal, images_view, spec_frames_resampled, valid_frames,
};
use crate::formats::ani::AniError;
use crate::scaling::ScalingAlgorithm;
use vstd::prelude::*;

verus! {

/// Why a cursor could not be built or scaled.
#[derive(Debug, Clone, Copy, PartialEq, Eq)]
pub enum CursorError {
    /// The frames of a group are not the frames of one cursor at one size,
    /// or a scaled group has not as many frames as the base.
    InconsistentFrames,
    /// The scale factor is registered already.
    DuplicateScaleFactor,
    /// A group of the nominal size that the scaled frames would have is
    /// there already.
    DuplicateNominalSize,
    /// An animation without a single frame.
    NoFrames,
    /// A `CUR` container gave no frames.
    Cur(CurError),
    /// The `ANI` file was refused.
    Ani(AniError),
    /// The file has not the extension of its kind.
    WrongExtension,
    /// The frames could not be scaled.
    Scale(ScaleError),
}

/// A scale factor: the fraction `num / den`.
#[derive(Debug, Clone, Copy, PartialEq, Eq)]
pub struct ScaleFactor {
    /// The numerator.
    pub num: u32,
    /// The denominator.
    pub den: u32,
}

impl ScaleFactor {
    /// Whether numerator and denominator are positive.
    pub open spec fn positive(self) -> bool {
        self.num > 0 && self.den > 0
    }

    /// Whether two fractions are the same number.
    pub open spec fn same(self, other: ScaleFactor) -> bool {
        self.num * other.den == other.num * self.den
    }

    /// The factor one.
    pub open spec fn one() -> ScaleFactor {
        ScaleFactor { num: 1, den: 1 }
    }

    /// The factor of a scaling by a whole number: the number itself, or one
    /// over it.
    pub open spec fn spec_of(factor: u32, scale_type: ScalingType) -> ScaleFactor {
        match scale_type {
            ScalingType::Upscale => ScaleFactor { num: factor, den: 1 },
            ScalingType::Downscale => ScaleFactor { num: 1, den: factor },
        }
    }

    /// The factor of a scaling by a whole number.
    pub fn of(factor: u32, scale_type: ScalingType) -> (r: ScaleFactor)
        ensures
            r == ScaleFactor::spec_of(factor, scale_type),
    {
        match scale_type {
            ScalingType::Upscale => ScaleFactor { num: factor, den: 1 },
            ScalingType::Downscale => ScaleFactor { num: 1, den: factor },
        }
    }

    /// Tells whether two fractions are the same number.
    pub fn same_as(&self, other: &ScaleFactor) -> (r: bool)
        ensures
            r == self.same(*other),
    {
        assert(self.num * other.den <= 0xffff_ffff * 0xffff_ffff) by (nonlinear_arith)
            requires
                self.num <= 0xffff_ffff,
                other.den <= 0xffff_ffff,
        ;
        assert(other.num * self.den <= 0xffff_ffff * 0xffff_ffff) by (nonlinear_arith)
            requires
                other.num <= 0xffff_ffff,
                self.den <= 0xffff_ffff,
        ;
        (self.num as u64) * (other.den as u64) == (other.num as u64) * (self.den as u64)
    }
}

/// The mathematical value of a [`GenericCursor`].
pub struct GenericCursorView {
    /// The frames at the native size.
    pub base: Seq<CursorImageView>,
    /// The scaled groups, in the order in which they were added.
    pub scaled: Seq<Seq<CursorImageView>>,
    /// The registered factors: one, then the factor of each scaled group.
    pub factors: Seq<ScaleFactor>,
    /// A comment that goes with the cursor.
    pub info: Option<Seq<char>>,
}

impl GenericCursorView {
    /// What holds of every cursor: the base and every scaled group are the
    /// frames of one cursor at one size; every group has as many frames as
    /// the base; there is one factor for the base, which is one, and one for
    /// each group; no two factors are the same number; no two groups, the
    /// base among them, have the same nominal size.
    pub open spec fn wf(self) -> bool {
        &&& valid_frames(self.base)
        &&& self.factors.len() == self.scaled.len() + 1
        &&& self.factors[0] == ScaleFactor::one()
        &&& forall|i: int|
            0 <= i < self.scaled.len() ==> valid_frames(#[trigger] self.scaled[i])
                && self.scaled[i].len() == self.base.len()
        &&& forall|i: int| 0 <= i < self.factors.len() ==> (#[trigger] self.factors[i]).positive()
        &&& forall|i: int, j: int|
            0 <= i < j < self.factors.len() ==> !(#[trigger] self.factors[i]).same(
                #[trigger] self.factors[j],
            )
        &&& forall|i: int, j: int|
            0 <= i < j <= self.scaled.len() ==> #[trigger] self.nominal(i) != #[trigger] self.nominal(
                j,
            )
    }

    /// Whether a group, the base among them, has the nominal size `size`.
    pub open spec fn has_nominal(self, size: nat) -> bool {
        exists|i: int| 0 <= i <= self.scaled.len() && #[trigger] self.nominal(i) == size
    }

    /// Whether the factor of each group is the ratio of the group's nominal
    /// size to that of the base.
    pub open spec fn factors_exact(self) -> bool {
        forall|i: int|
            0 <= i < self.scaled.len() ==> (#[trigger] self.factors[i + 1]).num * frames_nominal(
                self.base,
            ) == frames_nominal(self.scaled[i]) * self.factors[i + 1].den
    }

    /// The cursor with `group` appended under `factor`.
    pub open spec fn with_group(self, group: Seq<CursorImageView>, factor: ScaleFactor)
        -> GenericCursorView {
        GenericCursorView {
            scaled: self.scaled.push(group),
            factors: self.factors.push(factor),
            ..self
        }
    }

    /// Whether `factor` is registered.
    pub open spec fn has_factor(self, factor: ScaleFactor) -> bool {
        exists|i: int| 0 <= i < self.factors.len() && (#[trigger] self.factors[i]).same(factor)
    }

    /// All frames: the base first, then the groups in order.
    pub open spec fn joined(self) -> Seq<CursorImageView> {
        self.base + flat(self.scaled, self.scaled.len() as int)
    }

    /// How many frames the cursor has, base and scaled groups together.
    pub open spec fn num_images(self) -> nat {
        self.joined().len()
    }

    /// The nominal size of the group `i`, where 0 stands for the base and
    /// `i + 1` for the scaled group `i`.
    pub open spec fn nominal(self, i: int) -> nat {
        if i == 0 {
            frames_nominal(self.base)
        } else {
            frames_nominal(self.scaled[i - 1])
        }
    }
}

/// The frames of the first `n` groups, one group after the other.
pub open spec fn flat(groups: Seq<Seq<CursorImageView>>, n: int) -> Seq<CursorImageView>
    decreases n,
{
    if n <= 0 {
        Seq::empty()
    } else {
        flat(groups, n - 1) + groups[n - 1]
    }
}

/// Groups of equal length, laid end to end, have that length times their
/// number.
pub proof fn lemma_flat_len(groups: Seq<Seq<CursorImageView>>, n: int, len: nat)
    requires
        0 <= n <= groups.len(),
        forall|i: int| 0 <= i < groups.len() ==> (#[trigger] groups[i]).len() == len,
    ensures
        flat(groups, n).len() == n * len,
    decreases n,
{
    if n > 0 {
        lemma_flat_len(groups, n - 1, len);
        assert(groups[n - 1].len() == len);
        assert(flat(groups, n).len() == flat(groups, n - 1).len() + len);
        assert((n - 1) * len + len == n * len) by (nonlinear_arith);
    } else {
        assert(n * len == 0) by (nonlinear_arith)
            requires
                n == 0,
        ;
    }
}

/// The frames of groups of valid frames are valid.
pub proof fn lemma_flat_valid(groups: Seq<Seq<CursorImageView>>, n: int)
    requires
        0 <= n <= groups.len(),
        forall|i: int| 0 <= i < groups.len() ==> valid_frames(#[trigger] groups[i]),
    ensures
        forall|j: int| 0 <= j < flat(groups, n).len() ==> (#[trigger] flat(groups, n)[j]).valid(),
    decreases n,
{
    if n > 0 {
        lemma_flat_valid(groups, n - 1);
        let front = flat(groups, n - 1);
        let last = groups[n - 1];
        assert(valid_frames(last));
        assert forall|j: int| 0 <= j < flat(groups, n).len() implies (#[trigger] flat(
            groups,
            n,
        )[j]).valid() by {
            if j < front.len() {
                assert(flat(groups, n)[j] == front[j]);
            } else {
                assert(flat(groups, n)[j] == last[j - front.len()]);
            }
        }
    }
}

/// Every frame of a well-formed cursor is valid.
pub proof fn lemma_joined_valid(cursor: GenericCursorView)
    requires
        cursor.wf(),
    ensures
        forall|i: int| 0 <= i < cursor.joined().len() ==> (#[trigger] cursor.joined()[i]).valid(),
{
    lemma_flat_valid(cursor.scaled, cursor.scaled.len() as int);
    let rest = flat(cursor.scaled, cursor.scaled.len() as int);
    assert forall|i: int| 0 <= i < cursor.joined().len() implies (
    #[trigger] cursor.joined()[i]).valid() by {
        if i < cursor.base.len() {
            assert(cursor.joined()[i] == cursor.base[i]);
        } else {
            assert(cursor.joined()[i] == rest[i - cursor.base.len()]);
        }
    }
}

/// Law: a well-formed cursor has as many frames as its base has, times the
/// number of its groups, the base counted as one.
pub proof fn lemma_num_images(cursor: GenericCursorView)
    requires
        cursor.wf(),
    ensures
        cursor.num_images() == cursor.base.len() * (cursor.scaled.len() + 1),
{
    lemma_flat_len(cursor.scaled, cursor.scaled.len() as int, cursor.base.len());
    assert(cursor.scaled.len() * cursor.base.len() + cursor.base.len() == cursor.base.len() * (
    cursor.scaled.len() + 1)) by (nonlinear_arith);
}

/// Whether scaling the nominal size `nominal` by `factor` loses nothing to
/// rounding.
pub open spec fn scales_exactly(nominal: nat, factor: u32, scale_type: ScalingType) -> bool {
    match scale_type {
        ScalingType::Upscale => true,
        ScalingType::Downscale => factor > 0 && nominal % (factor as nat) == 0,
    }
}

/// The nominal size of a scaled frame is the scaled nominal size.
pub proof fn lemma_scaled_nominal(
    frame: CursorImageView,
    factor: u32,
    scale_type: ScalingType,
    pixels: Seq<u8>,
)
    requires
        factor >= 1,
    ensures
        frame.scaled(factor, scale_type, pixels).nominal_size() == spec_scale(
            frame.nominal_size(),
            factor,
            scale_type,
        ),
{
    if frame.width <= frame.height {
        crate::cursors::cursor_image::lemma_scale_monotone(
            frame.width,
            frame.height,
            factor,
            scale_type,
        );
    } else {
        crate::cursors::cursor_image::lemma_scale_monotone(
            frame.height,
            frame.width,
            factor,
            scale_type,
        );
    }
}

/// Whether `group` is `base` scaled by `factor`, frame by frame: each frame
/// of the group has the scaled width, height and hotspot and the delay of
/// the frame of the base at its place.
pub open spec fn is_scaled_group(
    base: Seq<CursorImageView>,
    group: Seq<CursorImageView>,
    factor: u32,
    scale_type: ScalingType,
) -> bool {
    &&& group.len() == base.len()
    &&& forall|i: int|
        0 <= i < base.len() ==> #[trigger] group[i] == base[i].scaled(
            factor,
            scale_type,
            group[i].rgba,
        )
}

/// Why the base of `cursor` cannot be scaled by `factor` and added, if it
/// cannot: the factor is registered already, or the first frame cannot be
/// scaled, or a group of the scaled nominal size is there already. The
/// tests are made in this order.
pub open spec fn scale_refusal(cursor: GenericCursorView, factor: u32, scale_type: ScalingType)
    -> Option<CursorError> {
    if cursor.has_factor(ScaleFactor::spec_of(factor, scale_type)) {
        Some(CursorError::DuplicateScaleFactor)
    } else {
        match cursor.base[0].scale_error(factor, scale_type) {
            Some(e) => Some(CursorError::Scale(e)),
            None => if cursor.has_nominal(
                spec_scale(frames_nominal(cursor.base), factor, scale_type),
            ) {
                Some(CursorError::DuplicateNominalSize)
            } else {
                None
            },
        }
    }
}

/// What `add_scale` makes of the cursor `before` and what it answers: where
/// there is a reason to refuse, that error, and the cursor is as it was;
/// else success, and the base, scaled by `factor`, is the new last group
/// under its factor.
pub open spec fn scale_added(
    before: GenericCursorView,
    after: GenericCursorView,
    result: Result<(), CursorError>,
    factor: u32,
    scale_type: ScalingType,
) -> bool {
    match scale_refusal(before, factor, scale_type) {
        Some(e) => result == Err::<(), CursorError>(e) && after == before,
        None => {
            &&& result is Ok
            &&& after.scaled.len() == before.scaled.len() + 1
            &&& after == before.with_group(
                after.scaled.last(),
                ScaleFactor::spec_of(factor, scale_type),
            )
            &&& is_scaled_group(before.base, after.scaled.last(), factor, scale_type)
        },
    }
}

/// What `add_resampled` makes of the cursor `before` and what it answers,
/// given the pixels `pixels`: where there is a reason to refuse, that
/// error; where the buffers are not one for each frame of the base, each of
/// the scaled size, the error of a failed resampling; on either the cursor
/// is as it was. Else success, and the base with the scaled geometry and
/// those pixels is the new last group under its factor.
pub open spec fn resampled_added(
    before: GenericCursorView,
    after: GenericCursorView,
    result: Result<(), CursorError>,
    factor: u32,
    scale_type: ScalingType,
    pixels: Seq<Seq<u8>>,
) -> bool {
    match scale_refusal(before, factor, scale_type) {
        Some(e) => result == Err::<(), CursorError>(e) && after == before,
        None => match spec_frames_resampled(before.base, factor, scale_type, pixels) {
            Err(e) => result == Err::<(), CursorError>(CursorError::Scale(e)) && after == before,
            Ok(group) => result is Ok && after == before.with_group(
                group,
                ScaleFactor::spec_of(factor, scale_type),
            ),
        },
    }
}

/// The values of a list of borrowed frames.
pub open spec fn refs_view(images: Seq<&CursorImage>) -> Seq<CursorImageView> {
    Seq::new(images.len(), |i: int| images[i]@)
}

/// The factor that a scaled group has by its size: the ratio of its nominal
/// size to that of the base.
pub open spec fn derived_factor(base: Seq<CursorImageView>, group: Seq<CursorImageView>)
    -> ScaleFactor {
    ScaleFactor { num: frames_nominal(group) as u32, den: frames_nominal(base) as u32 }
}

/// The cursor with `group` added as a scaled group under the factor that
/// the group has by its size.
pub open spec fn spec_add_group(cursor: GenericCursorView, group: Seq<CursorImageView>) -> Result<
    GenericCursorView,
    CursorError,
> {
    if !valid_frames(group) || group.len() != cursor.base.len() {
        Err(CursorError::InconsistentFrames)
    } else if cursor.has_factor(derived_factor(cursor.base, group)) {
        Err(CursorError::DuplicateScaleFactor)
    } else {
        Ok(cursor.with_group(group, derived_factor(cursor.base, group)))
    }
}

/// The cursor with the first `n` of `groups` added one after the other.
pub open spec fn spec_with_groups(
    cursor: GenericCursorView,
    groups: Seq<Seq<CursorImageView>>,
    n: int,
) -> Result<GenericCursorView, CursorError>
    decreases n,
{
    if n <= 0 {
        Ok(cursor)
    } else {
        match spec_with_groups(cursor, groups, n - 1) {
            Err(e) => Err(e),
            Ok(c) => spec_add_group(c, groups[n - 1]),
        }
    }
}

/// The cursor with the frames `base` and no scaled group.
pub open spec fn spec_new(base: Seq<CursorImageView>) -> Result<GenericCursorView, CursorError> {
    if !valid_frames(base) {
        Err(CursorError::InconsistentFrames)
    } else {
        Ok(
            GenericCursorView {
                base,
                scaled: Seq::empty(),
                factors: seq![ScaleFactor::one()],
                info: None,
            },
        )
    }
}

/// The cursor with the frames `base` and the scaled groups `groups`.
pub open spec fn spec_new_with_scaled(
    base: Seq<CursorImageView>,
    groups: Seq<Seq<CursorImageView>>,
) -> Result<GenericCursorView, CursorError> {
    match spec_new(base) {
        Err(e) => Err(e),
        Ok(cursor) => spec_with_groups(cursor, groups, groups.len() as int),
    }
}

/// An error among the first groups is the error of the whole.
pub proof fn lemma_groups_error(
    cursor: GenericCursorView,
    groups: Seq<Seq<CursorImageView>>,
    k: int,
    n: int,
)
    requires
        0 <= k <= n,
        spec_with_groups(cursor, groups, k) is Err,
    ensures
        spec_with_groups(cursor, groups, n) == spec_with_groups(cursor, groups, k),
    decreases n - k,
{
    if k < n {
        lemma_groups_error(cursor, groups, k, n - 1);
    }
}

/// A cursor with one more group of valid frames, as many as the base has,
/// of a nominal size that was not there, under a positive factor that was
/// not registered, is well formed.
#[verifier::rlimit(50)]
pub proof fn lemma_with_group_wf(
    cursor: GenericCursorView,
    group: Seq<CursorImageView>,
    factor: ScaleFactor,
)
    requires
        cursor.wf(),
        valid_frames(group),
        group.len() == cursor.base.len(),
        factor.positive(),
        !cursor.has_factor(factor),
        !cursor.has_nominal(frames_nominal(group)),
    ensures
        cursor.with_group(group, factor).wf(),
{
    let next = cursor.with_group(group, factor);
    assert forall|i: int| 0 <= i <= cursor.scaled.len() implies #[trigger] next.nominal(i)
        == cursor.nominal(i) by {
        if i > 0 {
            assert(next.scaled[i - 1] == cursor.scaled[i - 1]);
        }
    }
    assert(next.nominal(next.scaled.len() as int) == frames_nominal(group));
    assert forall|i: int, j: int| 0 <= i < j <= next.scaled.len() implies #[trigger] next.nominal(
        i,
    ) != #[trigger] next.nominal(j) by {
        assert(next.nominal(i) == cursor.nominal(i));
        if j == next.scaled.len() {
            if next.nominal(i) == frames_nominal(group) {
                assert(cursor.has_nominal(frames_nominal(group)));
            }
        } else {
            assert(next.nominal(j) == cursor.nominal(j));
        }
    }
    assert forall|i: int, j: int| 0 <= i < j < next.factors.len() implies !(
    #[trigger] next.factors[i]).same(#[trigger] next.factors[j]) by {
        assert(next.factors[i] == cursor.factors[i]);
        if j == cursor.factors.len() {
            if next.factors[i].same(factor) {
                assert(cursor.has_factor(factor));
            }
        } else {
            assert(next.factors[j] == cursor.factors[j]);
        }
    }
    assert forall|i: int| 0 <= i < next.scaled.len() implies valid_frames(
        #[trigger] next.scaled[i],
    ) && next.scaled[i].len() == next.base.len() by {
        if i < cursor.scaled.len() {
            assert(next.scaled[i] == cursor.scaled[i]);
        }
    }
    assert forall|i: int| 0 <= i < next.factors.len() implies (
    #[trigger] next.factors[i]).positive() by {
        if i < cursor.factors.len() {
            assert(next.factors[i] == cursor.factors[i]);
        }
    }
    assert(next.factors[0] == cursor.factors[0]);
}

/// Adding a group under the factor that it has by its size keeps a cursor
/// well formed and its factors the ratios of the nominal sizes.
#[verifier::rlimit(50)]
pub proof fn lemma_add_group_wf(cursor: GenericCursorView, group: Seq<CursorImageView>)
    requires
        cursor.wf(),
        cursor.factors_exact(),
        spec_add_group(cursor, group) is Ok,
    ensures
        spec_add_group(cursor, group)->Ok_0.wf(),
        spec_add_group(cursor, group)->Ok_0.factors_exact(),
{
    let next = spec_add_group(cursor, group)->Ok_0;
    let f = derived_factor(cursor.base, group);
    let size = frames_nominal(group);
    assert(group[0].valid());
    assert(cursor.base[0].valid());
    assert(f.positive());
    // A group of the same nominal size would have the same factor.
    assert(!cursor.has_nominal(size)) by {
        if cursor.has_nominal(size) {
            let i = choose|i: int| 0 <= i <= cursor.scaled.len() && #[trigger] cursor.nominal(i)
                == size;
            if i == 0 {
                assert(cursor.factors[0] == ScaleFactor::one());
            } else {
                assert(cursor.factors[(i - 1) + 1].num * frames_nominal(cursor.base)
                    == frames_nominal(cursor.scaled[i - 1]) * cursor.factors[(i - 1) + 1].den);
            }
            assert(cursor.factors[i].same(f));
            assert(cursor.has_factor(f));
        }
    }
    lemma_with_group_wf(cursor, group, f);
    assert forall|i: int| 0 <= i < next.scaled.len() implies (#[trigger] next.factors[i + 1]).num
        * frames_nominal(next.base) == frames_nominal(next.scaled[i]) * next.factors[i + 1].den by {
        if i < cursor.scaled.len() {
            assert(next.scaled[i] == cursor.scaled[i]);
            assert(next.factors[i + 1] == cursor.factors[i + 1]);
        } else {
            assert(next.factors[i + 1] == f);
            assert(next.scaled[i] == group);
            assert(f.num * frames_nominal(cursor.base) == frames_nominal(group) * f.den)
                by (nonlinear_arith)
                requires
                    f.num == frames_nominal(group),
                    f.den == frames_nominal(cursor.base),
            ;
        }
    }
}

/// Adding the base, scaled without loss to rounding, under the factor of
/// the scaling keeps the factors the ratios of the nominal sizes.
pub proof fn lemma_scaled_exact(
    cursor: GenericCursorView,
    group: Seq<CursorImageView>,
    factor: u32,
    scale_type: ScalingType,
)
    requires
        cursor.wf(),
        cursor.factors_exact(),
        factor >= 1,
        is_scaled_group(cursor.base, group, factor, scale_type),
        scales_exactly(frames_nominal(cursor.base), factor, scale_type),
    ensures
        cursor.with_group(group, ScaleFactor::spec_of(factor, scale_type)).factors_exact(),
{
    let registered = ScaleFactor::spec_of(factor, scale_type);
    let next = cursor.with_group(group, registered);
    let b = frames_nominal(cursor.base);
    lemma_scaled_nominal(cursor.base[0], factor, scale_type, group[0].rgba);
    assert(group[0] == cursor.base[0].scaled(factor, scale_type, group[0].rgba));
    assert(frames_nominal(group) == spec_scale(b, factor, scale_type));
    assert forall|i: int| 0 <= i < next.scaled.len() implies (#[trigger] next.factors[i + 1]).num
        * frames_nominal(next.base) == frames_nominal(next.scaled[i]) * next.factors[i + 1].den by {
        if i < cursor.scaled.len() {
            assert(next.scaled[i] == cursor.scaled[i]);
            assert(next.factors[i + 1] == cursor.factors[i + 1]);
        } else {
            assert(next.factors[i + 1] == registered);
            assert(next.scaled[i] == group);
            match scale_type {
                ScalingType::Upscale => {
                    assert(factor * b == (b * factor) * 1) by (nonlinear_arith);
                },
                ScalingType::Downscale => {
                    let f = factor as nat;
                    assert(1 * b == (b / f) * f) by (nonlinear_arith)
                        requires
                            f > 0,
                            b % f == 0,
                    ;
                },
            }
        }
    }
}

/// Law: in a well-formed cursor no two groups, the base among them, have
/// the same nominal size.
pub proof fn lemma_nominal_sizes_distinct(cursor: GenericCursorView, i: int, j: int)
    requires
        cursor.wf(),
        0 <= i < j <= cursor.scaled.len(),
    ensures
        cursor.nominal(i) != cursor.nominal(j),
{
}

/// A scaled group under its factor.
#[derive(Debug, PartialEq, Eq)]
struct ScaledGroup {
    factor: ScaleFactor,
    images: CursorImages,
}

/// A cursor: the frames at the native size, the groups of scaled frames that
/// were derived from them or came with them, and the factor of each group.
#[derive(Debug, PartialEq, Eq)]
pub struct GenericCursor {
    base: CursorImages,
    scaled: Vec<ScaledGroup>,
    info: Option<String>,
}

impl View for GenericCursor {
    type V = GenericCursorView;

    closed spec fn view(&self) -> GenericCursorView {
        GenericCursorView {
            base: self.base@,
            scaled: Seq::new(self.scaled@.len(), |i: int| self.scaled@[i].images@),
            factors: Seq::new(
                self.scaled@.len() + 1,
                |i: int|
                    if i == 0 {
                        ScaleFactor::one()
                    } else {
                        self.scaled@[i - 1].factor
                    },
            ),
            info: info_view(self.info),
        }
    }
}

/// The text of an optional comment.
pub open spec fn info_view(info: Option<String>) -> Option<Seq<char>> {
    match info {
        Some(s) => Some(s@),
        None => None,
    }
}

/// The values of a list of groups of frames.
pub open spec fn groups_view(groups: Seq<Vec<CursorImage>>) -> Seq<Seq<CursorImageView>> {
    Seq::new(groups.len(), |i: int| images_view(groups[i]@))
}

/// Copies a list of frames.
pub fn clone_images(images: &[CursorImage]) -> (r: Vec<CursorImage>)
    ensures
        images_view(r@) == images_view(images@),
{
    let mut r: Vec<CursorImage> = Vec::new();
    let mut i: usize = 0;
    while i < images.len()
        invariant
            i <= images.len(),
            r.len() == i,
            forall|k: int| 0 <= k < i ==> (#[trigger] r@[k])@ == images@[k]@,
        decreases images.len() - i,
    {
        r.push(images[i].clone());
        i += 1;
    }
    assert(images_view(r@) =~= images_view(images@));
    r
}

impl GenericCursor {
    /// Holds of every cursor that exists.
    #[verifier::type_invariant]
    pub open spec fn well_formed(&self) -> bool {
        self@.wf()
    }

    /// Builds a cursor without scaled groups. The only registered factor is
    /// one.
    pub fn new(base_images: Vec<CursorImage>) -> (r: Result<GenericCursor, CursorError>)
        ensures
            r matches Ok(cursor) ==> spec_new(images_view(base_images@)) == Ok::<
                GenericCursorView,
                CursorError,
            >(cursor@) && cursor@.wf() && cursor@.factors_exact(),
            r matches Err(e) ==> spec_new(images_view(base_images@)) == Err::<
                GenericCursorView,
                CursorError,
            >(e),
    {
        match CursorImages::new(base_images) {
            Err(_) => Err(CursorError::InconsistentFrames),
            Ok(base) => {
                let cursor = GenericCursor { base, scaled: Vec::new(), info: None };
                assert(cursor@.scaled =~= Seq::empty());
                assert(cursor@.factors =~= seq![ScaleFactor::one()]);
                Ok(cursor)
            },
        }
    }

    /// Tells whether a factor is registered.
    fn has_factor(&self, factor: &ScaleFactor) -> (r: bool)
        ensures
            r == self@.has_factor(*factor),
    {
        if factor.same_as(&ScaleFactor { num: 1, den: 1 }) {
            assert(self@.factors[0].same(*factor));
            return true;
        }
        let mut i: usize = 0;
        while i < self.scaled.len()
            invariant
                i <= self.scaled.len(),
                !self@.factors[0].same(*factor),
                forall|k: int| 1 <= k < i + 1 ==> !(#[trigger] self@.factors[k]).same(*factor),
            decreases self.scaled.len() - i,
        {
            if self.scaled[i].factor.same_as(factor) {
                assert(self@.factors[i + 1].same(*factor));
                return true;
            }
            i += 1;
        }
        false
    }

    /// Tells whether a group, the base among them, has the nominal size
    /// `size`.
    fn has_nominal(&self, size: u32) -> (r: bool)
        ensures
            r == self@.has_nominal(size as nat),
    {
        if self.base.nominal_size() == size {
            assert(self@.nominal(0) == size);
            return true;
        }
        let mut i: usize = 0;
        while i < self.scaled.len()
            invariant
                i <= self.scaled.len(),
                self@.nominal(0) != size,
                forall|k: int| 1 <= k < i + 1 ==> #[trigger] self@.nominal(k) != size,
            decreases self.scaled.len() - i,
        {
            if self.scaled[i].images.nominal_size() == size {
                assert(self@.nominal(i + 1) == size);
                return true;
            }
            i += 1;
        }
        false
    }

    /// Adds a group under the factor that it has by its size.
    fn add_group(self, group: Vec<CursorImage>) -> (r: Result<GenericCursor, CursorError>)
        requires
            self@.factors_exact(),
        ensures
            r matches Ok(cursor) ==> spec_add_group(self@, images_view(group@)) == Ok::<
                GenericCursorView,
                CursorError,
            >(cursor@),
            r matches Err(e) ==> spec_add_group(self@, images_view(group@)) == Err::<
                GenericCursorView,
                CursorError,
            >(e),
    {
        proof {
            use_type_invariant(&self);
        }
        let images = match CursorImages::new(group) {
            Err(_) => { return Err(CursorError::InconsistentFrames); },
            Ok(images) => images,
        };
        if images.len() != self.base.len() {
            return Err(CursorError::InconsistentFrames);
        }
        let factor = ScaleFactor { num: images.nominal_size(), den: self.base.nominal_size() };
        if self.has_factor(&factor) {
            return Err(CursorError::DuplicateScaleFactor);
        }
        let ghost old_view = self@;
        let mut cursor = self;
        proof {
            lemma_add_group_wf(old_view, images@);
        }
        cursor.push_group(ScaledGroup { factor, images });
        Ok(cursor)
    }

    /// Appends a group.
    fn push_group(&mut self, group: ScaledGroup)
        requires
            old(self)@.with_group(group.images@, group.factor).wf(),
        ensures
            final(self)@ == old(self)@.with_group(group.images@, group.factor),
    {
        let ghost before = self@;
        let ghost want = before.with_group(group.images@, group.factor);
        let mut scaled: Vec<ScaledGroup> = Vec::new();
        std::mem::swap(&mut scaled, &mut self.scaled);
        scaled.push(group);
        let ghost after = GenericCursor { base: self.base, scaled, info: self.info };
        proof {
            assert(after@.scaled =~= want.scaled);
            assert(after@.factors =~= want.factors);
            assert(after@ == want);
        }
        self.scaled = scaled;
    }

    /// Builds a cursor that comes with scaled groups. Each group is
    /// registered under the ratio of its nominal size to that of the base.
    /// A group that is not as long as the base, whose frames do not fit
    /// together, or whose factor is registered already is refused; the first
    /// such group decides the error.
    #[verifier::loop_isolation(false)]
    #[verifier::rlimit(50)]
    pub fn new_with_scaled(base_images: Vec<CursorImage>, scaled_images: Vec<Vec<CursorImage>>) -> (r:
        Result<GenericCursor, CursorError>)
        ensures
            r matches Ok(cursor) ==> spec_new_with_scaled(
                images_view(base_images@),
                groups_view(scaled_images@),
            ) == Ok::<GenericCursorView, CursorError>(cursor@) && cursor@.wf()
                && cursor@.factors_exact(),
            r matches Err(e) ==> spec_new_with_scaled(
                images_view(base_images@),
                groups_view(scaled_images@),
            ) == Err::<GenericCursorView, CursorError>(e),
    {
        let ghost groups = groups_view(scaled_images@);
        let mut cursor = match GenericCursor::new(base_images) {
            Err(e) => { return Err(e); },
            Ok(cursor) => cursor,
        };
        let ghost start = cursor@;
        let n = scaled_images.len();
        let mut i: usize = 0;
        while i < n
            invariant
                i <= n,
                n == scaled_images.len(),
                groups == groups_view(scaled_images@),
                spec_with_groups(start, groups, i as int) == Ok::<GenericCursorView, CursorError>(
                    cursor@,
                ),
                cursor@.wf(),
                cursor@.factors_exact(),
            decreases n - i,
        {
            let group = clone_images(scaled_images[i].as_slice());
            assert(images_view(group@) == groups[i as int]);
            let ghost before = cursor@;
            match cursor.add_group(group) {
                Err(e) => {
                    proof {
                        lemma_groups_error(start, groups, i as int + 1, n as int);
                    }
                    return Err(e);
                },
                Ok(next) => {
                    proof {
                        lemma_add_group_wf(before, groups[i as int]);
                    }
                    cursor = next;
                },
            }
            i += 1;
        }
        Ok(cursor)
    }
}


impl GenericCursor {
    /// Scales the base by the whole number `scale_factor`, up or down, and
    /// appends the scaled frames as a new group under the factor
    /// `scale_factor` or one over it.
    ///
    /// A factor that is registered already is refused before anything else
    /// is tested (one is registered from the start); then the factor and the
    /// scaled dimensions are tested; then a scaling to a nominal size that a
    /// group has already is refused. Where none of these refuses, the call
    /// succeeds. On an error the cursor is as it was. After a success the
    /// factor is registered once, and the factors are still the ratios of
    /// the nominal sizes if they were and the scaling loses nothing to
    /// rounding.
    #[verifier::rlimit(50)]
    pub fn add_scale(
        &mut self,
        scale_factor: u32,
        scale_type: ScalingType,
        algorithm: ScalingAlgorithm,
    ) -> (r: Result<(), CursorError>)
        ensures
            final(self)@.wf(),
            scale_added(old(self)@, final(self)@, r, scale_factor, scale_type),
            r is Ok ==> {
                &&& forall|i: int|
                    0 <= i < old(self)@.factors.len() ==> !(#[trigger] final(self)@.factors[i]).same(
                        ScaleFactor::spec_of(scale_factor, scale_type),
                    )
                &&& old(self)@.factors_exact() && scales_exactly(
                    frames_nominal(old(self)@.base),
                    scale_factor,
                    scale_type,
                ) ==> final(self)@.factors_exact()
            },
    {
        proof {
            use_type_invariant(&*self);
        }
        let ghost before = self@;
        let factor = ScaleFactor::of(scale_factor, scale_type);
        if self.has_factor(&factor) {
            return Err(CursorError::DuplicateScaleFactor);
        }
        if let Err(e) = self.scaled_nominal(scale_factor, scale_type) {
            return Err(e);
        }
        let images = match self.base.scaled_to(scale_factor, scale_type, algorithm) {
            Err(e) => { return Err(CursorError::Scale(e)); },
            Ok(images) => images,
        };
        proof {
            lemma_scaled_nominal(before.base[0], scale_factor, scale_type, images@[0].rgba);
            lemma_with_group_wf(before, images@, factor);
            assert forall|i: int| 0 <= i < before.factors.len() implies !(#[trigger] before.with_group(
                images@,
                factor,
            ).factors[i]).same(factor) by {
                if before.factors[i].same(factor) {
                    assert(before.has_factor(factor));
                }
            }
            if before.factors_exact() && scales_exactly(
                frames_nominal(before.base),
                scale_factor,
                scale_type,
            ) {
                lemma_scaled_exact(before, images@, scale_factor, scale_type);
            }
        }
        self.push_group(ScaledGroup { factor, images });
        Ok(())
    }

    /// The nominal size that the base has when it is scaled by
    /// `scale_factor`, if it can be scaled and no group has that size.
    fn scaled_nominal(&self, scale_factor: u32, scale_type: ScalingType) -> (r: Result<
        u32,
        CursorError,
    >)
        requires
            !self@.has_factor(ScaleFactor::spec_of(scale_factor, scale_type)),
        ensures
            r matches Err(e) ==> scale_refusal(self@, scale_factor, scale_type) == Some(e),
            r matches Ok(size) ==> scale_refusal(self@, scale_factor, scale_type) is None && size
                == spec_scale(frames_nominal(self@.base), scale_factor, scale_type),
    {
        proof {
            use_type_invariant(self);
        }
        let first = self.base.first();
        let (width, height) = match first.scaled_dimensions(scale_factor, scale_type) {
            Err(e) => { return Err(CursorError::Scale(e)); },
            Ok(d) => d,
        };
        let size = if width >= height {
            width
        } else {
            height
        };
        proof {
            lemma_scaled_nominal(self@.base[0], scale_factor, scale_type, Seq::empty());
        }
        if self.has_nominal(size) {
            return Err(CursorError::DuplicateNominalSize);
        }
        Ok(size)
    }

    /// Appends the base, scaled by `scale_factor`, as a new group, with
    /// pixels that were resampled elsewhere: one buffer for each frame of
    /// the base, in order. The tests are those of
    /// [`GenericCursor::add_scale`], and the buffers must fit.
    pub fn add_resampled(
        &mut self,
        scale_factor: u32,
        scale_type: ScalingType,
        pixels: &Vec<Vec<u8>>,
    ) -> (r: Result<(), CursorError>)
        ensures
            final(self)@.wf(),
            resampled_added(
                old(self)@,
                final(self)@,
                r,
                scale_factor,
                scale_type,
                buffers_view(pixels@),
            ),
    {
        proof {
            use_type_invariant(&*self);
        }
        let ghost before = self@;
        let factor = ScaleFactor::of(scale_factor, scale_type);
        if self.has_factor(&factor) {
            return Err(CursorError::DuplicateScaleFactor);
        }
        if let Err(e) = self.scaled_nominal(scale_factor, scale_type) {
            return Err(e);
        }
        let images = match self.base.from_resampled(scale_factor, scale_type, pixels) {
            Err(e) => { return Err(CursorError::Scale(e)); },
            Ok(images) => images,
        };
        proof {
            lemma_scaled_nominal(before.base[0], scale_factor, scale_type, images@[0].rgba);
            lemma_with_group_wf(before, images@, factor);
        }
        self.push_group(ScaledGroup { factor, images });
        Ok(())
    }

    /// Scales the base up to `scale_factor` times its size, each pixel taken
    /// from the nearest one, and appends the group; see
    /// [`GenericCursor::add_scale`].
    pub fn add_upscale(&mut self, scale_factor: u32) -> (r: Result<(), CursorError>)
        ensures
            final(self)@.wf(),
            scale_added(old(self)@, final(self)@, r, scale_factor, ScalingType::Upscale),
            r is Ok && old(self)@.factors_exact() ==> final(self)@.factors_exact(),
    {
        self.add_scale(scale_factor, ScalingType::Upscale, ScalingAlgorithm::Nearest)
    }

    /// Scales the base down to one `scale_factor`-th of its size, each pixel
    /// the mean of those it covers, and appends the group; see
    /// [`GenericCursor::add_scale`].
    pub fn add_downscale(&mut self, scale_factor: u32) -> (r: Result<(), CursorError>)
        ensures
            final(self)@.wf(),
            scale_added(old(self)@, final(self)@, r, scale_factor, ScalingType::Downscale),
    {
        self.add_scale(scale_factor, ScalingType::Downscale, ScalingAlgorithm::Box)
    }

    /// The frames at the native size.
    pub fn base_images(&self) -> (r: &[CursorImage])
        ensures
            images_view(r@) == self@.base,
            self@.wf(),
    {
        proof {
            use_type_invariant(self);
        }
        self.base.inner()
    }

    /// The scaled groups, in the order in which they were added.
    pub fn scaled_images(&self) -> (r: Vec<&[CursorImage]>)
        ensures
            r.len() == self@.scaled.len(),
            forall|i: int| 0 <= i < r.len() ==> images_view((#[trigger] r@[i])@) == self@.scaled[i],
            self@.wf(),
    {
        proof {
            use_type_invariant(self);
        }
        let mut r: Vec<&[CursorImage]> = Vec::new();
        let mut i: usize = 0;
        while i < self.scaled.len()
            invariant
                i <= self.scaled.len(),
                r.len() == i,
                forall|k: int| 0 <= k < i ==> images_view((#[trigger] r@[k])@) == self@.scaled[k],
            decreases self.scaled.len() - i,
        {
            r.push(self.scaled[i].images.inner());
            i += 1;
        }
        r
    }

    /// The frames of the scaled groups, one group after the other.
    pub fn scaled_images_flat(&self) -> (r: Vec<&CursorImage>)
        ensures
            refs_view(r@) == flat(self@.scaled, self@.scaled.len() as int),
            self@.wf(),
    {
        proof {
            use_type_invariant(self);
        }
        let mut r: Vec<&CursorImage> = Vec::new();
        let mut i: usize = 0;
        assert(refs_view(r@) =~= flat(self@.scaled, 0));
        while i < self.scaled.len()
            invariant
                i <= self.scaled.len(),
                refs_view(r@) == flat(self@.scaled, i as int),
            decreases self.scaled.len() - i,
        {
            let group = self.scaled[i].images.inner();
            let ghost start = refs_view(r@);
            let mut k: usize = 0;
            while k < group.len()
                invariant
                    k <= group.len(),
                    refs_view(r@) == start + images_view(group@).take(k as int),
                decreases group.len() - k,
            {
                let ghost before = refs_view(r@);
                r.push(&group[k]);
                assert(refs_view(r@) =~= before.push(group@[k as int]@));
                k += 1;
                assert(refs_view(r@) =~= start + images_view(group@).take(k as int));
            }
            assert(images_view(group@).take(group.len() as int) =~= images_view(group@));
            i += 1;
        }
        r
    }

    /// All frames: the base first, then the scaled groups in the order in
    /// which they were added.
    pub fn joined_images(&self) -> (r: Vec<&CursorImage>)
        ensures
            refs_view(r@) == self@.joined(),
            self@.wf(),
    {
        let base = self.base_images();
        let mut r: Vec<&CursorImage> = Vec::new();
        let mut k: usize = 0;
        while k < base.len()
            invariant
                k <= base.len(),
                refs_view(r@) == images_view(base@).take(k as int),
            decreases base.len() - k,
        {
            let ghost before = refs_view(r@);
            r.push(&base[k]);
            assert(refs_view(r@) =~= before.push(base@[k as int]@));
            k += 1;
            assert(refs_view(r@) =~= images_view(base@).take(k as int));
        }
        assert(images_view(base@).take(base.len() as int) =~= images_view(base@));
        let mut rest = self.scaled_images_flat();
        let ghost head = refs_view(r@);
        let ghost tail = refs_view(rest@);
        r.append(&mut rest);
        assert(refs_view(r@) =~= head + tail);
        r
    }

    /// How many frames the cursor has, base and scaled groups together.
    pub fn num_images(&self) -> (r: usize)
        ensures
            r == self@.num_images(),
    {
        self.joined_images().len()
    }

    /// The registered factors: one, then the factor of each scaled group.
    pub fn scale_factors(&self) -> (r: Vec<ScaleFactor>)
        ensures
            r@ == self@.factors,
            self@.wf(),
    {
        proof {
            use_type_invariant(self);
        }
        let mut r: Vec<ScaleFactor> = Vec::new();
        r.push(ScaleFactor { num: 1, den: 1 });
        let mut i: usize = 0;
        while i < self.scaled.len()
            invariant
                i <= self.scaled.len(),
                r@ == self@.factors.take(i + 1),
            decreases self.scaled.len() - i,
        {
            r.push(self.scaled[i].factor);
            i += 1;
            assert(r@ =~= self@.factors.take(i + 1));
        }
        assert(self@.factors.take(self.scaled.len() + 1) =~= self@.factors);
        r
    }

    /// The comment that goes with the cursor, if it has one.
    pub fn info(&self) -> (r: Option<&String>)
        ensures
            match r {
                Some(s) => self@.info == Some(s@),
                None => self@.info is None,
            },
    {
        self.info.as_ref()
    }

    /// Gives the cursor a comment, or takes it away.
    pub fn set_info(&mut self, info: Option<String>)
        ensures
            final(self)@.base == old(self)@.base,
            final(self)@.scaled == old(self)@.scaled,
            final(self)@.factors == old(self)@.factors,
            final(self)@.info == match info {
                Some(s) => Some(s@),
                None => None,
            },
    {
        proof {
            use_type_invariant(&*self);
            let before = self@;
            let after = GenericCursorView { info: info_view(info), ..before };
            assert forall|i: int, j: int| 0 <= i < j <= after.scaled.len() implies #[trigger] after.nominal(
                i,
            ) != #[trigger] after.nominal(j) by {
                assert(after.nominal(i) == before.nominal(i));
                assert(after.nominal(j) == before.nominal(j));
            }
            assert(after.wf());
        }
        self.info = info;
    }
}

} // verus!
