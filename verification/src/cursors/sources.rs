//! Building cursors from the bytes of `CUR` and `ANI` files.

use crate::cursors::cur::{icon_file_entries, read_cur, read_cur_with_delay, spec_read_cur};
use crate::cursors::cursor_image::{CursorImage, CursorImageView};
use crate::cursors::cursor_images::images_view;
use crate::cursors::generic_cursor::{
    CursorError, GenericCursor, GenericCursorView, groups_view, spec_new_with_scaled,
};
use crate::formats::ani::{
    AniError, AniFile, AniFileView, AniWarning, spec_parse_ani, spec_warnings,
};
use crate::fs_utils::{has_extension, name_has_extension};
use vstd::prelude::*;

verus! {

/// Width and height of a frame.
pub open spec fn dims(frame: CursorImageView) -> (nat, nat) {
    (frame.width, frame.height)
}

/// The frames of `frames` that have the dimensions `d` (where `want` holds)
/// or that have other dimensions (where it does not), in their order.
pub open spec fn keep_dims(frames: Seq<CursorImageView>, d: (nat, nat), want: bool) -> Seq<
    CursorImageView,
>
    decreases frames.len(),
{
    if frames.len() == 0 {
        Seq::empty()
    } else {
        let rest = keep_dims(frames.drop_last(), d, want);
        if (dims(frames.last()) == d) == want {
            rest.push(frames.last())
        } else {
            rest
        }
    }
}

/// Whether some frame has the dimensions `d`.
pub open spec fn has_dims(frames: Seq<CursorImageView>, d: (nat, nat)) -> bool {
    exists|i: int| 0 <= i < frames.len() && dims(#[trigger] frames[i]) == d
}

/// Whether `a` comes before `b`: by width, and by height where the widths
/// are equal.
pub open spec fn dims_less(a: (nat, nat), b: (nat, nat)) -> bool {
    a.0 < b.0 || (a.0 == b.0 && a.1 < b.1)
}

/// The dimensions that come first among those of `frames`.
pub open spec fn min_dims(frames: Seq<CursorImageView>) -> (nat, nat)
    decreases frames.len(),
{
    if frames.len() <= 1 {
        dims(frames[0])
    } else {
        let m = min_dims(frames.drop_last());
        if dims_less(dims(frames.last()), m) {
            dims(frames.last())
        } else {
            m
        }
    }
}

/// The dimensions that come first occur.
pub proof fn lemma_min_dims_occurs(frames: Seq<CursorImageView>)
    requires
        frames.len() >= 1,
    ensures
        has_dims(frames, min_dims(frames)),
    decreases frames.len(),
{
    if frames.len() <= 1 {
        assert(dims(frames[0]) == min_dims(frames));
    } else {
        let front = frames.drop_last();
        lemma_min_dims_occurs(front);
        if dims_less(dims(frames.last()), min_dims(front)) {
            assert(dims(frames[frames.len() - 1]) == min_dims(frames));
        } else {
            let i = choose|i: int| 0 <= i < front.len() && dims(#[trigger] front[i]) == min_dims(front);
            assert(dims(frames[i]) == min_dims(frames));
        }
    }
}

/// Every frame is kept or dropped, and a frame with the dimensions `d` is
/// kept among those that have them.
pub proof fn lemma_keep_dims_len(frames: Seq<CursorImageView>, d: (nat, nat))
    ensures
        keep_dims(frames, d, true).len() + keep_dims(frames, d, false).len() == frames.len(),
        has_dims(frames, d) ==> keep_dims(frames, d, true).len() >= 1,
    decreases frames.len(),
{
    if frames.len() > 0 {
        let front = frames.drop_last();
        lemma_keep_dims_len(front, d);
        if has_dims(frames, d) && dims(frames.last()) != d {
            let i = choose|i: int| 0 <= i < frames.len() && dims(#[trigger] frames[i]) == d;
            assert(dims(front[i]) == d);
        }
    }
}

/// The frames in groups of equal dimensions. The groups are in the order of
/// their dimensions, by width and then by height; within a group the frames
/// keep their order.
pub open spec fn spec_groups(frames: Seq<CursorImageView>) -> Seq<Seq<CursorImageView>>
    decreases frames.len(),
    via spec_groups_terminates
{
    if frames.len() == 0 {
        Seq::empty()
    } else {
        let d = min_dims(frames);
        seq![keep_dims(frames, d, true)] + spec_groups(keep_dims(frames, d, false))
    }
}

#[via_fn]
proof fn spec_groups_terminates(frames: Seq<CursorImageView>) {
    if frames.len() > 0 {
        lemma_min_dims_occurs(frames);
        lemma_keep_dims_len(frames, min_dims(frames));
    }
}

/// The dimensions of the base among the frames of an animation: 32 by 32
/// where a frame has them, else those of the first frame.
pub open spec fn base_dims(frames: Seq<CursorImageView>) -> (nat, nat) {
    if has_dims(frames, (32, 32)) {
        (32, 32)
    } else {
        dims(frames[0])
    }
}

/// The cursor made of the frames of an animation: the frames with the
/// dimensions of the base are the base, the others are the scaled groups.
pub open spec fn spec_from_frames(frames: Seq<CursorImageView>) -> Result<
    GenericCursorView,
    CursorError,
> {
    if frames.len() == 0 {
        Err(CursorError::NoFrames)
    } else {
        spec_new_with_scaled(
            keep_dims(frames, base_dims(frames), true),
            spec_groups(keep_dims(frames, base_dims(frames), false)),
        )
    }
}

/// The cursor made of the frames of a `CUR` container: the frames with the
/// dimensions of the first are the base, the others are one scaled group.
pub open spec fn spec_from_cur_frames(frames: Seq<CursorImageView>) -> Result<
    GenericCursorView,
    CursorError,
> {
    if frames.len() == 0 {
        Err(CursorError::NoFrames)
    } else {
        let rest = keep_dims(frames, dims(frames[0]), false);
        spec_new_with_scaled(
            keep_dims(frames, dims(frames[0]), true),
            if rest.len() == 0 {
                Seq::empty()
            } else {
                seq![rest]
            },
        )
    }
}

/// The cursor that the bytes of a `CUR` file hold.
pub open spec fn spec_from_cur(bytes: Seq<u8>) -> Result<GenericCursorView, CursorError> {
    match spec_read_cur(icon_file_entries(bytes), 0) {
        Err(e) => Err(CursorError::Cur(e)),
        Ok(frames) => spec_from_cur_frames(frames),
    }
}

/// Sixtieths of a second in milliseconds, rounded to the nearest.
pub open spec fn spec_jiffies_to_ms(jiffies: nat) -> nat {
    (jiffies * 1000 + 30) / 60
}

/// The delay of a step of `jiffies` sixtieths of a second: its length in
/// milliseconds, or the largest delay there is where that is less.
pub open spec fn spec_delay(jiffies: u32) -> u32 {
    if spec_jiffies_to_ms(jiffies as nat) > u32::MAX {
        u32::MAX
    } else {
        spec_jiffies_to_ms(jiffies as nat) as u32
    }
}

/// How many steps are played: as many as there are both a frame and a
/// duration for.
pub open spec fn step_count(file: AniFileView) -> nat {
    let order = match file.sequence {
        Some(s) => s.len(),
        None => file.header.num_frames as nat,
    };
    let timings = match file.rate {
        Some(r) => r.len(),
        None => file.header.num_steps as nat,
    };
    if order <= timings {
        order
    } else {
        timings
    }
}

/// The frame that the step `k` shows.
pub open spec fn step_frame(file: AniFileView, k: int) -> int {
    match file.sequence {
        Some(s) => s[k] as int,
        None => k,
    }
}

/// For how many sixtieths of a second the step `k` is shown.
pub open spec fn step_jiffies(file: AniFileView, k: int) -> u32 {
    match file.rate {
        Some(r) => r[k],
        None => file.header.jiffy_rate,
    }
}

/// The frames of the first `n` steps: for each step the frames of the
/// container it shows, each with the delay of the step. A step that shows a
/// frame which the file does not hold is an error.
pub open spec fn spec_steps_upto(file: AniFileView, n: int) -> Result<
    Seq<CursorImageView>,
    CursorError,
>
    decreases n,
{
    if n <= 0 {
        Ok(Seq::empty())
    } else {
        match spec_steps_upto(file, n - 1) {
            Err(e) => Err(e),
            Ok(frames) => if step_frame(file, n - 1) >= file.ico_frames.len() {
                Err(CursorError::Ani(AniError::IndexOutOfRange))
            } else {
                match spec_read_cur(
                    icon_file_entries(file.ico_frames[step_frame(file, n - 1)]),
                    spec_delay(step_jiffies(file, n - 1)),
                ) {
                    Err(e) => Err(CursorError::Cur(e)),
                    Ok(more) => Ok(frames + more),
                }
            },
        }
    }
}

/// An error among the first steps is the error of the whole.
pub proof fn lemma_steps_error(file: AniFileView, k: int, n: int)
    requires
        0 <= k <= n,
        spec_steps_upto(file, k) is Err,
    ensures
        spec_steps_upto(file, n) == spec_steps_upto(file, k),
    decreases n - k,
{
    if k < n {
        lemma_steps_error(file, k, n - 1);
    }
}

/// The cursor that the bytes of an `ANI` file hold.
pub open spec fn spec_from_ani(blob: Seq<u8>) -> Result<GenericCursorView, CursorError> {
    match spec_parse_ani(blob) {
        Err(e) => Err(CursorError::Ani(e)),
        Ok(file) => match spec_steps_upto(file, step_count(file) as int) {
            Err(e) => Err(e),
            Ok(frames) => spec_from_frames(frames),
        },
    }
}

/// Converts sixtieths of a second to milliseconds, rounded to the nearest.
pub fn jiffies_to_ms(jiffies: u32) -> (ms: u64)
    ensures
        ms == spec_jiffies_to_ms(jiffies as nat),
        ms == (jiffies * 1000 + 30) / 60,
        -30 < 1000 * jiffies - 60 * ms < 30,
{
    (jiffies as u64 * 1000 + 30) / 60
}

/// The delay of a step of `jiffies` sixtieths of a second.
pub fn delay_of(jiffies: u32) -> (r: u32)
    ensures
        r == spec_delay(jiffies),
{
    let ms = jiffies_to_ms(jiffies);
    if ms > u32::MAX as u64 {
        u32::MAX
    } else {
        ms as u32
    }
}

/// Copies the frames that have the dimensions `width` by `height` into the
/// first list and the others into the second.
#[verifier::rlimit(50)]
pub fn partition_by_dims(frames: &[CursorImage], width: u32, height: u32) -> (r: (
    Vec<CursorImage>,
    Vec<CursorImage>,
))
    ensures
        images_view(r.0@) == keep_dims(
            images_view(frames@),
            (width as nat, height as nat),
            true,
        ),
        images_view(r.1@) == keep_dims(
            images_view(frames@),
            (width as nat, height as nat),
            false,
        ),
{
    let ghost all = images_view(frames@);
    let ghost d = (width as nat, height as nat);
    let mut same: Vec<CursorImage> = Vec::new();
    let mut other: Vec<CursorImage> = Vec::new();
    let mut i: usize = 0;
    assert(all.take(0) =~= Seq::<CursorImageView>::empty());
    assert(images_view(same@) =~= keep_dims(all.take(0), d, true));
    assert(images_view(other@) =~= keep_dims(all.take(0), d, false));
    while i < frames.len()
        invariant
            i <= frames.len(),
            all == images_view(frames@),
            d == (width as nat, height as nat),
            images_view(same@) == keep_dims(all.take(i as int), d, true),
            images_view(other@) == keep_dims(all.take(i as int), d, false),
        decreases frames.len() - i,
    {
        let frame = frames[i].clone();
        let (w, h) = frame.dimensions();
        proof {
            let next = all.take(i + 1);
            assert(next.drop_last() =~= all.take(i as int));
            assert(next.last() == all[i as int]);
            assert(frame@ == all[i as int]);
        }
        let ghost before_same = images_view(same@);
        let ghost before_other = images_view(other@);
        if w == width && h == height {
            same.push(frame);
            assert(images_view(same@) =~= before_same.push(frame@));
        } else {
            other.push(frame);
            assert(images_view(other@) =~= before_other.push(frame@));
        }
        i += 1;
    }
    assert(all.take(frames.len() as int) =~= all);
    (same, other)
}

/// Tells whether a frame has the dimensions `width` by `height`.
pub fn contains_dims(frames: &[CursorImage], width: u32, height: u32) -> (r: bool)
    ensures
        r == has_dims(images_view(frames@), (width as nat, height as nat)),
{
    let ghost all = images_view(frames@);
    let mut i: usize = 0;
    while i < frames.len()
        invariant
            i <= frames.len(),
            all == images_view(frames@),
            forall|k: int|
                0 <= k < i ==> dims(#[trigger] all[k]) != (width as nat, height as nat),
        decreases frames.len() - i,
    {
        let (w, h) = frames[i].dimensions();
        if w == width && h == height {
            assert(dims(all[i as int]) == (width as nat, height as nat));
            return true;
        }
        i += 1;
    }
    false
}

/// Finds the dimensions that come first among those of the frames.
pub fn smallest_dims(frames: &[CursorImage]) -> (r: (u32, u32))
    requires
        frames.len() >= 1,
    ensures
        (r.0 as nat, r.1 as nat) == min_dims(images_view(frames@)),
{
    let ghost all = images_view(frames@);
    let mut best = frames[0].dimensions();
    let mut i: usize = 1;
    assert(all.take(1).len() == 1);
    assert(all.take(1)[0] == all[0]);
    while i < frames.len()
        invariant
            1 <= i <= frames.len(),
            all == images_view(frames@),
            (best.0 as nat, best.1 as nat) == min_dims(all.take(i as int)),
        decreases frames.len() - i,
    {
        let d = frames[i].dimensions();
        proof {
            let next = all.take(i + 1);
            assert(next.drop_last() =~= all.take(i as int));
            assert(next.last() == all[i as int]);
        }
        if d.0 < best.0 || (d.0 == best.0 && d.1 < best.1) {
            best = d;
        }
        i += 1;
    }
    assert(all.take(frames.len() as int) =~= all);
    best
}

/// Puts the frames into groups of equal dimensions, the groups in the order
/// of their dimensions.
pub fn group_by_dims(frames: Vec<CursorImage>) -> (r: Vec<Vec<CursorImage>>)
    ensures
        groups_view(r@) == spec_groups(images_view(frames@)),
{
    let ghost all = images_view(frames@);
    let mut groups: Vec<Vec<CursorImage>> = Vec::new();
    let mut rest = frames;
    assert(groups_view(groups@) =~= Seq::<Seq<CursorImageView>>::empty());
    while rest.len() > 0
        invariant
            groups_view(groups@) + spec_groups(images_view(rest@)) == spec_groups(all),
        decreases rest.len(),
    {
        let d = smallest_dims(rest.as_slice());
        let (group, others) = partition_by_dims(rest.as_slice(), d.0, d.1);
        proof {
            lemma_min_dims_occurs(images_view(rest@));
            lemma_keep_dims_len(images_view(rest@), min_dims(images_view(rest@)));
            assert(others.len() == images_view(others@).len());
            assert(rest.len() == images_view(rest@).len());
        }
        let ghost before = groups_view(groups@);
        groups.push(group);
        assert(groups_view(groups@) =~= before.push(images_view(group@)));
        assert(groups_view(groups@) + spec_groups(images_view(others@)) =~= before + spec_groups(
            images_view(rest@),
        ));
        rest = others;
    }
    assert(groups_view(groups@) =~= groups_view(groups@) + spec_groups(images_view(rest@)));
    groups
}

impl GenericCursor {
    /// Builds a cursor from the frames of an animation, in play order. The
    /// base is made of the frames of 32 by 32 pixels where there are any,
    /// else of those that have the dimensions of the first frame. The other
    /// frames make the scaled groups, one for each pair of dimensions.
    pub fn from_frames(frames: Vec<CursorImage>) -> (r: Result<GenericCursor, CursorError>)
        ensures
            r matches Ok(cursor) ==> spec_from_frames(images_view(frames@)) == Ok::<
                GenericCursorView,
                CursorError,
            >(cursor@) && cursor@.wf() && cursor@.factors_exact(),
            r matches Err(e) ==> spec_from_frames(images_view(frames@)) == Err::<
                GenericCursorView,
                CursorError,
            >(e),
    {
        if frames.len() == 0 {
            return Err(CursorError::NoFrames);
        }
        let d = if contains_dims(frames.as_slice(), 32, 32) {
            (32u32, 32u32)
        } else {
            frames[0].dimensions()
        };
        let (base, others) = partition_by_dims(frames.as_slice(), d.0, d.1);
        let groups = group_by_dims(others);
        GenericCursor::new_with_scaled(base, groups)
    }

    /// Builds a cursor from the frames of a `CUR` container, in the
    /// container's order. The frames with the dimensions of the first are
    /// the base; the others, if there are any, are one scaled group.
    pub fn from_cur_frames(frames: Vec<CursorImage>) -> (r: Result<GenericCursor, CursorError>)
        ensures
            r matches Ok(cursor) ==> spec_from_cur_frames(images_view(frames@)) == Ok::<
                GenericCursorView,
                CursorError,
            >(cursor@) && cursor@.wf() && cursor@.factors_exact(),
            r matches Err(e) ==> spec_from_cur_frames(images_view(frames@)) == Err::<
                GenericCursorView,
                CursorError,
            >(e),
    {
        if frames.len() == 0 {
            return Err(CursorError::NoFrames);
        }
        let d = frames[0].dimensions();
        let (base, others) = partition_by_dims(frames.as_slice(), d.0, d.1);
        let mut groups: Vec<Vec<CursorImage>> = Vec::new();
        if others.len() > 0 {
            groups.push(others);
            assert(groups_view(groups@) =~= seq![images_view(others@)]);
        } else {
            assert(images_view(others@).len() == 0);
            assert(groups_view(groups@) =~= Seq::<Seq<CursorImageView>>::empty());
        }
        GenericCursor::new_with_scaled(base, groups)
    }

    /// Builds a cursor from the bytes of a `CUR` file.
    pub fn from_cur(bytes: &[u8]) -> (r: Result<GenericCursor, CursorError>)
        ensures
            r matches Ok(cursor) ==> spec_from_cur(bytes@) == Ok::<GenericCursorView, CursorError>(
                cursor@,
            ) && cursor@.wf() && cursor@.factors_exact(),
            r matches Err(e) ==> spec_from_cur(bytes@) == Err::<GenericCursorView, CursorError>(e),
    {
        match read_cur(bytes) {
            Err(e) => Err(CursorError::Cur(e)),
            Ok(frames) => GenericCursor::from_cur_frames(frames),
        }
    }

    /// Builds a cursor from the bytes of the `CUR` file of the name
    /// `file_name`, which must have the extension `cur`.
    pub fn from_cur_path(file_name: &str, bytes: &[u8]) -> (r: Result<GenericCursor, CursorError>)
        ensures
            r matches Ok(cursor) ==> has_extension(file_name@, "cur"@) && spec_from_cur(bytes@)
                == Ok::<GenericCursorView, CursorError>(cursor@) && cursor@.wf()
                && cursor@.factors_exact(),
            r matches Err(e) ==> if has_extension(file_name@, "cur"@) {
                spec_from_cur(bytes@) == Err::<GenericCursorView, CursorError>(e)
            } else {
                e == CursorError::WrongExtension
            },
    {
        if !name_has_extension(file_name, "cur") {
            return Err(CursorError::WrongExtension);
        }
        GenericCursor::from_cur(bytes)
    }

    /// Builds a cursor from the bytes of the `ANI` file of the name
    /// `file_name`, which must have the extension `ani`.
    pub fn from_ani_path(file_name: &str, blob: &[u8]) -> (r: Result<GenericCursor, CursorError>)
        ensures
            r matches Ok(cursor) ==> has_extension(file_name@, "ani"@) && spec_from_ani(blob@)
                == Ok::<GenericCursorView, CursorError>(cursor@) && cursor@.wf()
                && cursor@.factors_exact(),
            r matches Err(e) ==> if has_extension(file_name@, "ani"@) {
                spec_from_ani(blob@) == Err::<GenericCursorView, CursorError>(e)
            } else {
                e == CursorError::WrongExtension
            },
    {
        if !name_has_extension(file_name, "ani") {
            return Err(CursorError::WrongExtension);
        }
        GenericCursor::from_ani(blob)
    }

    /// Builds a cursor from a decoded `ANI` file: the frames of each step,
    /// with the step's delay, are decoded in play order and handed to
    /// [`GenericCursor::from_frames`].
    #[verifier::loop_isolation(false)]
    #[verifier::rlimit(50)]
    pub fn from_ani_file(file: &AniFile) -> (r: Result<GenericCursor, CursorError>)
        ensures
            r matches Ok(cursor) ==> (match spec_steps_upto(file@, step_count(file@) as int) {
                Err(e) => Err(e),
                Ok(frames) => spec_from_frames(frames),
            }) == Ok::<GenericCursorView, CursorError>(cursor@) && cursor@.wf()
                && cursor@.factors_exact(),
            r matches Err(e) ==> (match spec_steps_upto(file@, step_count(file@) as int) {
                Err(e) => Err(e),
                Ok(frames) => spec_from_frames(frames),
            }) == Err::<GenericCursorView, CursorError>(e),
    {
        let order: usize = match &file.sequence {
            Some(s) => s.data.len(),
            None => file.header.num_frames as usize,
        };
        let timings: usize = match &file.rate {
            Some(r) => r.data.len(),
            None => file.header.num_steps as usize,
        };
        let steps: usize = if order <= timings {
            order
        } else {
            timings
        };
        let mut frames: Vec<CursorImage> = Vec::new();
        let mut k: usize = 0;
        assert(images_view(frames@) =~= Seq::<CursorImageView>::empty());
        while k < steps
            invariant
                k <= steps,
                steps == step_count(file@),
                spec_steps_upto(file@, k as int) == Ok::<Seq<CursorImageView>, CursorError>(
                    images_view(frames@),
                ),
            decreases steps - k,
        {
            let index: usize = match &file.sequence {
                Some(s) => s.data[k] as usize,
                None => k,
            };
            let jiffies: u32 = match &file.rate {
                Some(r) => r.data[k],
                None => file.header.jiffy_rate,
            };
            assert(index == step_frame(file@, k as int));
            if index >= file.ico_frames.len() {
                proof {
                    lemma_steps_error(file@, k as int + 1, steps as int);
                }
                return Err(CursorError::Ani(AniError::IndexOutOfRange));
            }
            assert(file@.ico_frames[index as int] == file.ico_frames@[index as int].data@);
            match read_cur_with_delay(file.ico_frames[index].data.as_slice(), delay_of(jiffies)) {
                Err(e) => {
                    proof {
                        lemma_steps_error(file@, k as int + 1, steps as int);
                    }
                    return Err(CursorError::Cur(e));
                },
                Ok(mut more) => {
                    let ghost head = images_view(frames@);
                    let ghost tail = images_view(more@);
                    frames.append(&mut more);
                    assert(images_view(frames@) =~= head + tail);
                },
            }
            k += 1;
        }
        GenericCursor::from_frames(frames)
    }

    /// Builds a cursor from the bytes of an `ANI` file.
    ///
    /// The steps are played in the order of the sequence, or in the order of
    /// the frames where there is none. Each step lasts as long as the rate
    /// table says, or the header's default; sixtieths of a second become
    /// milliseconds.
    pub fn from_ani(blob: &[u8]) -> (r: Result<GenericCursor, CursorError>)
        ensures
            r matches Ok(cursor) ==> spec_from_ani(blob@) == Ok::<GenericCursorView, CursorError>(
                cursor@,
            ) && cursor@.wf() && cursor@.factors_exact(),
            r matches Err(e) ==> spec_from_ani(blob@) == Err::<GenericCursorView, CursorError>(e),
    {
        match AniFile::from_blob(blob) {
            Err(e) => Err(CursorError::Ani(e)),
            Ok(file) => GenericCursor::from_ani_file(&file),
        }
    }
}


/// What is odd about a cursor file that is accepted all the same.
#[derive(Debug, Clone, Copy, PartialEq, Eq)]
pub enum CursorWarning {
    /// Something is odd about the `ANI` container.
    Ani(AniWarning),
    /// A `CUR` container holds more than one image.
    MultipleImages,
    /// The frames of the base are not as wide as they are high.
    NonSquare,
}

/// The warning about a frame that is not square, if it is not.
pub open spec fn square_warning(frame: CursorImageView) -> Seq<CursorWarning> {
    if frame.width != frame.height {
        seq![CursorWarning::NonSquare]
    } else {
        Seq::empty()
    }
}

/// The warnings about the frames of a `CUR` container, in this order: that
/// there are several, and that the first is not square.
pub open spec fn spec_cur_warnings(frames: Seq<CursorImageView>) -> Seq<CursorWarning> {
    (if frames.len() > 1 {
        seq![CursorWarning::MultipleImages]
    } else {
        Seq::empty()
    }) + (if frames.len() >= 1 {
        square_warning(frames[0])
    } else {
        Seq::empty()
    })
}

/// The warnings about an `ANI` file and the cursor made of it: those of the
/// container, then that the base is not square.
pub open spec fn spec_ani_warnings(file: AniFileView, cursor: GenericCursorView) -> Seq<
    CursorWarning,
> {
    Seq::new(spec_warnings(file).len(), |i: int| CursorWarning::Ani(spec_warnings(file)[i]))
        + square_warning(cursor.base[0])
}

/// The cursor that a file of the name `file_name` holds: that of an `ANI`
/// file where the name has the extension `ani`, that of a `CUR` file where
/// it has the extension `cur`.
pub open spec fn spec_from_path(file_name: Seq<char>, bytes: Seq<u8>) -> Result<
    GenericCursorView,
    CursorError,
> {
    if has_extension(file_name, "ani"@) {
        spec_from_ani(bytes)
    } else if has_extension(file_name, "cur"@) {
        spec_from_cur(bytes)
    } else {
        Err(CursorError::WrongExtension)
    }
}

/// The cursor that bytes hold, read as an `ANI` file where `animated`
/// holds and as a `CUR` file where it does not.
pub open spec fn spec_load(animated: bool, bytes: Seq<u8>) -> Result<GenericCursorView, CursorError> {
    if animated {
        spec_from_ani(bytes)
    } else {
        spec_from_cur(bytes)
    }
}

/// The warnings that go with the cursor `cursor` read from `bytes`.
pub open spec fn spec_load_warnings(animated: bool, bytes: Seq<u8>, cursor: GenericCursorView)
    -> Seq<CursorWarning> {
    if animated {
        match spec_parse_ani(bytes) {
            Ok(file) => spec_ani_warnings(file, cursor),
            Err(_) => Seq::empty(),
        }
    } else {
        match spec_read_cur(icon_file_entries(bytes), 0) {
            Ok(frames) => spec_cur_warnings(frames),
            Err(_) => Seq::empty(),
        }
    }
}

/// The warnings that go with the cursor of a file.
pub open spec fn spec_path_warnings(
    file_name: Seq<char>,
    bytes: Seq<u8>,
    cursor: GenericCursorView,
) -> Seq<CursorWarning> {
    spec_load_warnings(has_extension(file_name, "ani"@), bytes, cursor)
}

/// The warnings about the frames of a `CUR` container.
pub fn cur_warnings(frames: &[CursorImage]) -> (r: Vec<CursorWarning>)
    ensures
        r@ == spec_cur_warnings(images_view(frames@)),
{
    let mut found: Vec<CursorWarning> = Vec::new();
    if frames.len() > 1 {
        found.push(CursorWarning::MultipleImages);
    }
    if frames.len() >= 1 && !frames[0].is_square() {
        found.push(CursorWarning::NonSquare);
    }
    assert(found@ =~= spec_cur_warnings(images_view(frames@)));
    found
}

/// The warnings about an `ANI` file and the cursor made of it.
pub fn ani_warnings(file: &AniFile, cursor: &GenericCursor) -> (r: Vec<CursorWarning>)
    ensures
        r@ == spec_ani_warnings(file@, cursor@),
{
    let inner = file.warnings();
    let mut found: Vec<CursorWarning> = Vec::new();
    let mut i: usize = 0;
    while i < inner.len()
        invariant
            i <= inner.len(),
            inner@ == spec_warnings(file@),
            found.len() == i,
            forall|k: int| 0 <= k < i ==> #[trigger] found@[k] == CursorWarning::Ani(inner@[k]),
        decreases inner.len() - i,
    {
        found.push(CursorWarning::Ani(inner[i]));
        i += 1;
    }
    let base = cursor.base_images();
    assert(images_view(base@)[0] == base@[0]@);
    if !base[0].is_square() {
        found.push(CursorWarning::NonSquare);
    }
    assert(found@ =~= spec_ani_warnings(file@, cursor@));
    found
}

impl GenericCursor {
    /// Builds the cursor of a file from the file's name and bytes, and tells
    /// what is odd about the file. The extension of the name decides how the
    /// bytes are read: `ani` or `cur`, in this very case.
    pub fn from_path(file_name: &str, bytes: &[u8]) -> (r: Result<
        (GenericCursor, Vec<CursorWarning>),
        CursorError,
    >)
        ensures
            r matches Ok((cursor, warnings)) ==> spec_from_path(file_name@, bytes@) == Ok::<
                GenericCursorView,
                CursorError,
            >(cursor@) && cursor@.wf() && warnings@ == spec_path_warnings(
                file_name@,
                bytes@,
                cursor@,
            ),
            r matches Err(e) ==> spec_from_path(file_name@, bytes@) == Err::<
                GenericCursorView,
                CursorError,
            >(e),
    {
        if name_has_extension(file_name, "ani") {
            GenericCursor::load(true, bytes)
        } else if name_has_extension(file_name, "cur") {
            GenericCursor::load(false, bytes)
        } else {
            Err(CursorError::WrongExtension)
        }
    }

    /// Builds the cursor that bytes hold, read as an `ANI` file where
    /// `animated` holds and as a `CUR` file where it does not, and tells
    /// what is odd about the file.
    pub fn load(animated: bool, bytes: &[u8]) -> (r: Result<
        (GenericCursor, Vec<CursorWarning>),
        CursorError,
    >)
        ensures
            r matches Ok((cursor, warnings)) ==> spec_load(animated, bytes@) == Ok::<
                GenericCursorView,
                CursorError,
            >(cursor@) && cursor@.wf() && warnings@ == spec_load_warnings(
                animated,
                bytes@,
                cursor@,
            ),
            r matches Err(e) ==> spec_load(animated, bytes@) == Err::<
                GenericCursorView,
                CursorError,
            >(e),
    {
        if animated {
            let file = match AniFile::from_blob(bytes) {
                Err(e) => { return Err(CursorError::Ani(e)); },
                Ok(file) => file,
            };
            let cursor = match GenericCursor::from_ani_file(&file) {
                Err(e) => { return Err(e); },
                Ok(cursor) => cursor,
            };
            let warnings = ani_warnings(&file, &cursor);
            Ok((cursor, warnings))
        } else {
            let frames = match read_cur(bytes) {
                Err(e) => { return Err(CursorError::Cur(e)); },
                Ok(frames) => frames,
            };
            let warnings = cur_warnings(frames.as_slice());
            match GenericCursor::from_cur_frames(frames) {
                Err(e) => Err(e),
                Ok(cursor) => Ok((cursor, warnings)),
            }
        }
    }
}

} // verus!
