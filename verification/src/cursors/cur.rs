//! The Windows `CUR` container, which is an `ICO` container whose entries
//! carry a hotspot. The container and its images are decoded by the crate
//! `ico`; what is made of the decoded images is decided here.

use crate::cursors::bitmap::{pixels_fit, spec_pixels_fit};
use crate::cursors::cursor_image::{CursorImage, CursorImageView, ImageError, spec_new_image};
use crate::cursors::cursor_images::images_view;
use ico::IconDir;
use vstd::prelude::*;

verus! {

/// Why the bytes of a container gave no frames.
#[derive(Debug, Clone, Copy, PartialEq, Eq)]
pub enum CurError {
    /// An entry has no hotspot: the container holds icons, not cursors.
    NotACur,
    /// The container or the image of an entry could not be decoded, or the
    /// image is a bitmap with a pixel value that has no colour in its
    /// colour table.
    DecodeFailure,
    /// The container has no entry.
    EmptyContainer,
    /// A decoded image is no frame.
    Image(ImageError),
}

/// An image as the decoder hands it out: width, height, the hotspot if the
/// entry has one, and the pixels, four bytes each.
#[derive(Debug, Clone, PartialEq, Eq)]
pub struct DecodedImage {
    /// The width in pixels.
    pub width: u32,
    /// The height in pixels.
    pub height: u32,
    /// The hotspot as `(x, y)`; `None` for an icon.
    pub hotspot: Option<(u16, u16)>,
    /// The pixels, four bytes each in the order red, green, blue, alpha.
    pub rgba: Vec<u8>,
}

impl View for DecodedImage {
    type V = (u32, u32, Option<(u16, u16)>, Seq<u8>);

    open spec fn view(&self) -> (u32, u32, Option<(u16, u16)>, Seq<u8>) {
        (self.width, self.height, self.hotspot, self.rgba@)
    }
}

/// The value of an entry that was decoded, or `None` for one that was not.
pub open spec fn decoded_view(entry: Option<DecodedImage>) -> Option<
    (u32, u32, Option<(u16, u16)>, Seq<u8>),
> {
    match entry {
        Some(image) => Some(image@),
        None => None,
    }
}

/// The values of a list of entries.
pub open spec fn entries_view(entries: Seq<Option<DecodedImage>>) -> Seq<
    Option<(u32, u32, Option<(u16, u16)>, Seq<u8>)>,
> {
    Seq::new(entries.len(), |i: int| decoded_view(entries[i]))
}

#[verifier::external_type_specification]
#[verifier::external_body]
pub struct ExIconDir(IconDir);

/// What an `IconDir` holds: for each entry, in the container's order, its
/// raw image data and the image that decoding the entry gives (width,
/// height, hotspot and pixels), or `None` where the entry cannot be decoded.
pub uninterp spec fn icon_dir_entries(dir: IconDir) -> Seq<
    (Seq<u8>, Option<(u32, u32, Option<(u16, u16)>, Seq<u8>)>),
>;

/// What `IconDir::read` makes of the bytes of a container: what the
/// `IconDir` holds, or `None` where the bytes are refused.
pub uninterp spec fn icon_file_entries(bytes: Seq<u8>) -> Option<
    Seq<(Seq<u8>, Option<(u32, u32, Option<(u16, u16)>, Seq<u8>)>)>,
>;

/// Reads the directory of a container.
///
/// Calls `IconDir::read` of `ico` on a cursor over the bytes. Claimed and
/// not proved: the result depends on the bytes alone; it is what
/// [`icon_file_entries`] names.
#[verifier::external_body]
fn read_icon_dir(bytes: &[u8]) -> (r: Option<IconDir>)
    ensures
        r matches Some(dir) ==> icon_file_entries(bytes@) == Some(icon_dir_entries(dir)),
        r is None ==> icon_file_entries(bytes@) is None,
{
    IconDir::read(std::io::Cursor::new(bytes)).ok()
}

/// How many entries a directory has.
///
/// Calls `IconDir::entries` of `ico` and takes the length of the slice.
#[verifier::external_body]
fn icon_dir_len(dir: &IconDir) -> (r: usize)
    ensures
        r == icon_dir_entries(*dir).len(),
{
    dir.entries().len()
}

/// The raw image data of the entry at `index`.
///
/// Calls `IconDirEntry::data` of `ico`, which hands out the entry's encoded
/// image as it stands in the container.
#[verifier::external_body]
fn icon_entry_data(dir: &IconDir, index: usize) -> (r: &[u8])
    requires
        index < icon_dir_entries(*dir).len(),
    ensures
        r@ == icon_dir_entries(*dir)[index as int].0,
{
    dir.entries()[index].data()
}

/// Decodes the entry at `index`.
///
/// Calls `IconDirEntry::decode` of `ico` and copies width, height, hotspot
/// and pixels out of the `IconImage` that comes back. Claimed and not
/// proved: this is the image that [`icon_dir_entries`] names for the entry.
/// The decoder looks every pixel value of an indexed bitmap up in the colour
/// table without a test, so an entry with a pixel value beyond its table is
/// kept from it.
#[verifier::external_body]
fn decode_icon_entry(dir: &IconDir, index: usize) -> (r: Option<DecodedImage>)
    requires
        index < icon_dir_entries(*dir).len(),
        spec_pixels_fit(icon_dir_entries(*dir)[index as int].0),
    ensures
        decoded_view(r) == icon_dir_entries(*dir)[index as int].1,
{
    let image = dir.entries()[index].decode().ok()?;
    Some(
        DecodedImage {
            width: image.width(),
            height: image.height(),
            hotspot: image.cursor_hotspot(),
            rgba: image.into_rgba_data(),
        },
    )
}

/// What is made of the entries of a container: the image of each entry
/// that is decoded, `None` for the others. An entry that is an indexed
/// bitmap with a pixel value beyond its colour table is not decoded.
pub open spec fn usable_images(
    entries: Seq<(Seq<u8>, Option<(u32, u32, Option<(u16, u16)>, Seq<u8>)>)>,
) -> Seq<Option<(u32, u32, Option<(u16, u16)>, Seq<u8>)>> {
    Seq::new(
        entries.len(),
        |i: int|
            if spec_pixels_fit(entries[i].0) {
                entries[i].1
            } else {
                None
            },
    )
}

/// The frame that a decoded entry gives, shown for `delay` milliseconds.
pub open spec fn spec_frame(
    entry: Option<(u32, u32, Option<(u16, u16)>, Seq<u8>)>,
    delay: u32,
) -> Result<CursorImageView, CurError> {
    match entry {
        None => Err(CurError::DecodeFailure),
        Some((width, height, hotspot, rgba)) => match hotspot {
            None => Err(CurError::NotACur),
            Some((x, y)) => match spec_new_image(width, height, x as u32, y as u32, rgba, delay) {
                Err(e) => Err(CurError::Image(e)),
                Ok(frame) => Ok(frame),
            },
        },
    }
}

/// The frames of the first `n` entries, or the error of the first entry
/// that gives none.
pub open spec fn spec_frames_upto(
    entries: Seq<Option<(u32, u32, Option<(u16, u16)>, Seq<u8>)>>,
    delay: u32,
    n: int,
) -> Result<Seq<CursorImageView>, CurError>
    decreases n,
{
    if n <= 0 {
        Ok(Seq::empty())
    } else {
        match spec_frames_upto(entries, delay, n - 1) {
            Err(e) => Err(e),
            Ok(frames) => match spec_frame(entries[n - 1], delay) {
                Err(e) => Err(e),
                Ok(frame) => Ok(frames.push(frame)),
            },
        }
    }
}

/// The frames of a container whose entries were decoded to `entries`: one
/// for each entry, in order.
pub open spec fn spec_frames(
    entries: Seq<Option<(u32, u32, Option<(u16, u16)>, Seq<u8>)>>,
    delay: u32,
) -> Result<Seq<CursorImageView>, CurError> {
    if entries.len() == 0 {
        Err(CurError::EmptyContainer)
    } else {
        spec_frames_upto(entries, delay, entries.len() as int)
    }
}

/// The frames of a container, from what the decoder makes of its bytes.
pub open spec fn spec_read_cur(
    file: Option<Seq<(Seq<u8>, Option<(u32, u32, Option<(u16, u16)>, Seq<u8>)>)>>,
    delay: u32,
) -> Result<Seq<CursorImageView>, CurError> {
    match file {
        None => Err(CurError::DecodeFailure),
        Some(entries) => spec_frames(usable_images(entries), delay),
    }
}

/// Builds the frames of a container from its decoded entries, each shown
/// for `delay` milliseconds. An entry that was not decoded (`None`), one
/// without a hotspot and one whose image is no frame are errors; the first
/// such entry decides which.
#[verifier::loop_isolation(false)]
#[verifier::rlimit(50)]
pub fn frames_from_decoded(entries: Vec<Option<DecodedImage>>, delay: u32) -> (r: Result<
    Vec<CursorImage>,
    CurError,
>)
    ensures
        r matches Ok(frames) ==> spec_frames(entries_view(entries@), delay) == Ok::<
            Seq<CursorImageView>,
            CurError,
        >(images_view(frames@)),
        r matches Err(e) ==> spec_frames(entries_view(entries@), delay) == Err::<
            Seq<CursorImageView>,
            CurError,
        >(e),
{
    let ghost all = entries_view(entries@);
    if entries.len() == 0 {
        return Err(CurError::EmptyContainer);
    }
    let mut stack = entries;
    let n = stack.len();
    let mut frames: Vec<CursorImage> = Vec::new();
    let mut rest: Vec<Option<DecodedImage>> = Vec::new();
    let mut i: usize = 0;
    // The entries are taken from the back of the vector, so the vector is
    // turned over first.
    while stack.len() > 0
        invariant
            stack.len() + rest.len() == n,
            n == all.len(),
            forall|k: int| 0 <= k < stack.len() ==> decoded_view(#[trigger] stack@[k]) == all[k],
            forall|k: int|
                0 <= k < rest.len() ==> decoded_view(#[trigger] rest@[k]) == all[n - 1 - k],
        decreases stack.len(),
    {
        let e = stack.pop().unwrap();
        rest.push(e);
    }
    assert(images_view(frames@) =~= Seq::<CursorImageView>::empty());
    while i < n
        invariant
            i <= n,
            n == all.len(),
            rest.len() == n - i,
            forall|k: int|
                0 <= k < rest.len() ==> decoded_view(#[trigger] rest@[k]) == all[n - 1 - k],
            spec_frames_upto(all, delay, i as int) == Ok::<Seq<CursorImageView>, CurError>(
                images_view(frames@),
            ),
        decreases n - i,
    {
        let entry = rest.pop().unwrap();
        assert(decoded_view(entry) == all[i as int]);
        let image = match entry {
            None => {
                proof {
                    lemma_frames_error(all, delay, i as int + 1, n as int);
                }
                return Err(CurError::DecodeFailure);
            },
            Some(image) => image,
        };
        let (x, y) = match image.hotspot {
            None => {
                proof {
                    lemma_frames_error(all, delay, i as int + 1, n as int);
                }
                return Err(CurError::NotACur);
            },
            Some(h) => h,
        };
        match CursorImage::new_with_delay(
            image.width,
            image.height,
            x as u32,
            y as u32,
            image.rgba,
            delay,
        ) {
            Err(e) => {
                proof {
                    lemma_frames_error(all, delay, i as int + 1, n as int);
                }
                return Err(CurError::Image(e));
            },
            Ok(frame) => {
                let ghost before = images_view(frames@);
                frames.push(frame);
                assert(images_view(frames@) =~= before.push(frame@));
            },
        }
        i += 1;
    }
    Ok(frames)
}

/// An error among the first entries is the error of the whole.
pub proof fn lemma_frames_error(
    entries: Seq<Option<(u32, u32, Option<(u16, u16)>, Seq<u8>)>>,
    delay: u32,
    k: int,
    n: int,
)
    requires
        0 <= k <= n,
        spec_frames_upto(entries, delay, k) is Err,
    ensures
        spec_frames_upto(entries, delay, n) == spec_frames_upto(entries, delay, k),
    decreases n - k,
{
    if k < n {
        lemma_frames_error(entries, delay, k, n - 1);
    }
}

/// Decodes a container and builds a frame from each entry, shown for `delay`
/// milliseconds.
pub fn read_cur_with_delay(bytes: &[u8], delay: u32) -> (r: Result<Vec<CursorImage>, CurError>)
    ensures
        r matches Ok(frames) ==> spec_read_cur(icon_file_entries(bytes@), delay) == Ok::<
            Seq<CursorImageView>,
            CurError,
        >(images_view(frames@)),
        r matches Err(e) ==> spec_read_cur(icon_file_entries(bytes@), delay) == Err::<
            Seq<CursorImageView>,
            CurError,
        >(e),
{
    let dir = match read_icon_dir(bytes) {
        None => { return Err(CurError::DecodeFailure); },
        Some(dir) => dir,
    };
    let n = icon_dir_len(&dir);
    let mut entries: Vec<Option<DecodedImage>> = Vec::new();
    let mut i: usize = 0;
    while i < n
        invariant
            i <= n,
            n == icon_dir_entries(dir).len(),
            entries.len() == i,
            forall|k: int|
                0 <= k < i ==> decoded_view(#[trigger] entries@[k]) == usable_images(
                    icon_dir_entries(dir),
                )[k],
        decreases n - i,
    {
        if pixels_fit(icon_entry_data(&dir, i)) {
            entries.push(decode_icon_entry(&dir, i));
        } else {
            entries.push(None);
        }
        i += 1;
    }
    assert(entries_view(entries@) =~= usable_images(icon_dir_entries(dir)));
    frames_from_decoded(entries, delay)
}

/// Decodes a container and builds a static frame from each entry.
pub fn read_cur(bytes: &[u8]) -> (r: Result<Vec<CursorImage>, CurError>)
    ensures
        r matches Ok(frames) ==> spec_read_cur(icon_file_entries(bytes@), 0) == Ok::<
            Seq<CursorImageView>,
            CurError,
        >(images_view(frames@)),
        r matches Err(e) ==> spec_read_cur(icon_file_entries(bytes@), 0) == Err::<
            Seq<CursorImageView>,
            CurError,
        >(e),
{
    read_cur_with_delay(bytes, 0)
}

} // verus!
