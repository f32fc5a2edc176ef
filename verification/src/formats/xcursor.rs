//! The Xcursor file format, version 1: the magic `Xcur`, a table of contents
//! and the chunks it points to, all integers little-endian.

use crate::bytes::{
    le_bytes, le_u32, lemma_le_round_trip, lemma_word_bytes, push_le_u32, word_of,
};
use crate::cursors::cursor_image::{CursorImage, CursorImageView};
use crate::cursors::generic_cursor::{GenericCursor, GenericCursorView, lemma_joined_valid};
use vstd::prelude::*;
use vstd::slice::slice_to_vec;
use vstd::utf8::encode_utf8;

verus! {

/// The size of the file header in bytes.
pub const FILE_HEADER_SIZE: u32 = 16;

/// The size of an entry of the table of contents in bytes.
pub const TOC_ENTRY_SIZE: u32 = 12;

/// The size of the header of a comment chunk in bytes.
pub const COMMENT_HEADER_SIZE: u32 = 20;

/// The size of the header of an image chunk in bytes.
pub const IMAGE_HEADER_SIZE: u32 = 36;

/// The version of the file format.
pub const FILE_VERSION: u32 = 0x0001_0000;

/// The version of a comment chunk and of an image chunk.
pub const CHUNK_VERSION: u32 = 1;

/// The type of a comment chunk.
pub const COMMENT_TYPE: u32 = 0xfffe_0001;

/// The type of an image chunk.
pub const IMAGE_TYPE: u32 = 0xfffd_0002;

/// The subtype of a comment that is neither copyright nor license.
pub const COMMENT_OTHER: u32 = 3;

/// No image is wider or higher than this.
pub const MAX_DIMENSION: u32 = 2048;

/// No frame is shown for more milliseconds than this.
pub const MAX_DELAY: u32 = 60_000;

/// Why a cursor cannot be written as an Xcursor file.
#[derive(Debug, Clone, Copy, PartialEq, Eq)]
pub enum XcursorError {
    /// An image is wider or higher than 2048 pixels, or has no pixel.
    DimensionOutOfRange,
    /// A hotspot lies beyond the image.
    HotspotOutOfRange,
    /// A frame is shown for more than 60000 milliseconds.
    DelayOutOfRange,
    /// An image has not one word for each pixel.
    PixelCountMismatch,
    /// The comment or the whole file is larger than 32-bit offsets reach.
    FileTooLarge,
}

/// A colour channel multiplied by the alpha channel, rounded to the nearest.
pub open spec fn spec_pre_alpha(c: u8, a: u8) -> u8 {
    ((c as int * a as int + 127) / 255) as u8
}

/// The word of a pixel: its little-endian bytes are blue, green and red,
/// each multiplied by alpha, and alpha. Read as a big-endian word this is
/// alpha, red, green, blue.
pub open spec fn spec_pixel_word(r: u8, g: u8, b: u8, a: u8) -> u32 {
    word_of(spec_pre_alpha(b, a), spec_pre_alpha(g, a), spec_pre_alpha(r, a), a)
}

/// The words of the pixels of `rgba`. Bytes after the last whole pixel are
/// left out.
pub open spec fn spec_pre_argb(rgba: Seq<u8>) -> Seq<u32> {
    Seq::new(
        rgba.len() / 4,
        |i: int| spec_pixel_word(rgba[4 * i], rgba[4 * i + 1], rgba[4 * i + 2], rgba[4 * i + 3]),
    )
}

/// Multiplies a colour channel by the alpha channel.
pub fn pre_alpha_formula(c: u8, a: u8) -> (r: u8)
    ensures
        r == spec_pre_alpha(c, a),
{
    assert(c * a <= 255 * 255) by (nonlinear_arith)
        requires
            c <= 255,
            a <= 255,
    ;
    let prod: u16 = (c as u16) * (a as u16);
    ((prod + 127) / 255) as u8
}

/// Law: an opaque pixel keeps its colours. Its word has the bytes blue,
/// green, red and 255.
pub proof fn lemma_opaque_pixel(r: u8, g: u8, b: u8)
    ensures
        spec_pre_alpha(r, 255) == r,
        spec_pre_alpha(g, 255) == g,
        spec_pre_alpha(b, 255) == b,
        le_bytes(spec_pixel_word(r, g, b, 255)) == seq![b, g, r, 255u8],
{
    lemma_word_bytes(b, g, r, 255);
}

/// Law: the little-endian bytes of the word of a pixel are blue, green and
/// red, each multiplied by alpha, and alpha.
pub proof fn lemma_pixel_bytes(r: u8, g: u8, b: u8, a: u8)
    ensures
        le_bytes(spec_pixel_word(r, g, b, a)) == seq![
            spec_pre_alpha(b, a),
            spec_pre_alpha(g, a),
            spec_pre_alpha(r, a),
            a,
        ],
{
    lemma_word_bytes(spec_pre_alpha(b, a), spec_pre_alpha(g, a), spec_pre_alpha(r, a), a);
}

/// Converts RGBA pixels to the words of an image chunk.
pub fn to_pre_argb(rgba: &[u8]) -> (r: Vec<u32>)
    ensures
        r@ == spec_pre_argb(rgba@),
{
    let n: usize = rgba.len() / 4;
    let mut words: Vec<u32> = Vec::new();
    let mut i: usize = 0;
    while i < n
        invariant
            i <= n,
            n == rgba.len() / 4,
            words.len() == i,
            forall|k: int| 0 <= k < i ==> #[trigger] words@[k] == spec_pre_argb(rgba@)[k],
        decreases n - i,
    {
        let a = rgba[4 * i + 3];
        let red = pre_alpha_formula(rgba[4 * i], a) as u32;
        let green = pre_alpha_formula(rgba[4 * i + 1], a) as u32;
        let blue = pre_alpha_formula(rgba[4 * i + 2], a) as u32;
        words.push(blue + 256 * green + 65536 * red + 16777216 * (a as u32));
        i += 1;
    }
    assert(words@ =~= spec_pre_argb(rgba@));
    words
}

/// The mathematical value of an [`ImageChunk`].
pub struct ImageChunkView {
    pub nominal_size: u32,
    pub width: u32,
    pub height: u32,
    pub hotspot_x: u32,
    pub hotspot_y: u32,
    pub delay: u32,
    pub argb: Seq<u32>,
}

impl ImageChunkView {
    /// What is enforced of every image that is written.
    pub open spec fn valid(self) -> bool {
        &&& 1 <= self.width <= MAX_DIMENSION
        &&& 1 <= self.height <= MAX_DIMENSION
        &&& self.hotspot_x <= self.width
        &&& self.hotspot_y <= self.height
        &&& self.delay <= MAX_DELAY
        &&& self.argb.len() == self.width * self.height
    }

    /// How many bytes the chunk takes.
    pub open spec fn size(self) -> nat {
        (IMAGE_HEADER_SIZE + 4 * self.argb.len()) as nat
    }

    /// The bytes of the chunk: nine words of header, then the pixels.
    pub open spec fn bytes(self) -> Seq<u8> {
        le_bytes(IMAGE_HEADER_SIZE) + le_bytes(IMAGE_TYPE) + le_bytes(self.nominal_size)
            + le_bytes(CHUNK_VERSION) + le_bytes(self.width) + le_bytes(self.height) + le_bytes(
            self.hotspot_x,
        ) + le_bytes(self.hotspot_y) + le_bytes(self.delay) + words_bytes(
            self.argb,
            self.argb.len() as int,
        )
    }
}

/// The bytes of the first `n` words, one word after the other.
pub open spec fn words_bytes(words: Seq<u32>, n: int) -> Seq<u8>
    decreases n,
{
    if n <= 0 {
        Seq::empty()
    } else {
        words_bytes(words, n - 1) + le_bytes(words[n - 1])
    }
}

/// The first `n` words take four bytes each, and the word `k` stands at
/// `4 * k`.
pub proof fn lemma_words_bytes(words: Seq<u32>, n: int)
    requires
        0 <= n <= words.len(),
    ensures
        words_bytes(words, n).len() == 4 * n,
        forall|k: int|
            0 <= k < n ==> words_bytes(words, n).subrange(4 * k, 4 * k + 4) == le_bytes(
                #[trigger] words[k],
            ),
    decreases n,
{
    if n > 0 {
        lemma_words_bytes(words, n - 1);
        let front = words_bytes(words, n - 1);
        let all = words_bytes(words, n);
        assert forall|k: int| 0 <= k < n implies all.subrange(4 * k, 4 * k + 4) == le_bytes(
            #[trigger] words[k],
        ) by {
            if k < n - 1 {
                assert(all.subrange(4 * k, 4 * k + 4) =~= front.subrange(4 * k, 4 * k + 4));
            } else {
                assert(all.subrange(4 * k, 4 * k + 4) =~= le_bytes(words[k]));
            }
        }
    }
}

/// The chunk of a frame.
pub open spec fn spec_chunk_of(frame: CursorImageView) -> ImageChunkView {
    ImageChunkView {
        nominal_size: frame.nominal_size() as u32,
        width: frame.width as u32,
        height: frame.height as u32,
        hotspot_x: frame.hotspot_x as u32,
        hotspot_y: frame.hotspot_y as u32,
        delay: frame.delay as u32,
        argb: spec_pre_argb(frame.rgba),
    }
}

/// Why a frame cannot be written, if it cannot.
pub open spec fn frame_error(frame: CursorImageView) -> Option<XcursorError> {
    if frame.width > MAX_DIMENSION || frame.height > MAX_DIMENSION {
        Some(XcursorError::DimensionOutOfRange)
    } else if frame.delay > MAX_DELAY {
        Some(XcursorError::DelayOutOfRange)
    } else {
        None
    }
}

/// Why an image given by its parts cannot be written, if it cannot. The
/// tests are made in this order.
pub open spec fn parts_error(
    width: u32,
    height: u32,
    hotspot_x: u32,
    hotspot_y: u32,
    delay: u32,
    argb: Seq<u32>,
) -> Option<XcursorError> {
    if width == 0 || width > MAX_DIMENSION || height == 0 || height > MAX_DIMENSION {
        Some(XcursorError::DimensionOutOfRange)
    } else if hotspot_x > width || hotspot_y > height {
        Some(XcursorError::HotspotOutOfRange)
    } else if delay > MAX_DELAY {
        Some(XcursorError::DelayOutOfRange)
    } else if argb.len() != width * height {
        Some(XcursorError::PixelCountMismatch)
    } else {
        None
    }
}

/// An entry of the table of contents.
#[derive(Debug, Clone, Copy, PartialEq, Eq)]
pub struct TableOfContents {
    /// The type of the chunk.
    pub chunk_type: u32,
    /// For an image its nominal size, for a comment its role.
    pub subtype: u32,
    /// Where the chunk begins, counted from the start of the file.
    pub position: u32,
}

/// An image with what a cursor needs to know of it.
#[derive(Debug, PartialEq, Eq)]
pub struct ImageChunk {
    nominal_size: u32,
    width: u32,
    height: u32,
    hotspot_x: u32,
    hotspot_y: u32,
    delay: u32,
    argb: Vec<u32>,
}

impl View for ImageChunk {
    type V = ImageChunkView;

    closed spec fn view(&self) -> ImageChunkView {
        ImageChunkView {
            nominal_size: self.nominal_size,
            width: self.width,
            height: self.height,
            hotspot_x: self.hotspot_x,
            hotspot_y: self.hotspot_y,
            delay: self.delay,
            argb: self.argb@,
        }
    }
}

impl ImageChunk {
    /// Holds of every chunk that exists.
    #[verifier::type_invariant]
    pub open spec fn well_formed(&self) -> bool {
        self@.valid()
    }

    /// Builds the chunk of an image from its parts. The nominal size is the
    /// larger of width and height.
    #[verifier::rlimit(50)]
    pub fn from_parts(
        width: u32,
        height: u32,
        hotspot_x: u32,
        hotspot_y: u32,
        delay: u32,
        argb: Vec<u32>,
    ) -> (r: Result<ImageChunk, XcursorError>)
        ensures
            r matches Err(e) ==> parts_error(width, height, hotspot_x, hotspot_y, delay, argb@)
                == Some(e),
            r matches Ok(chunk) ==> parts_error(width, height, hotspot_x, hotspot_y, delay, argb@)
                is None && chunk@ == (ImageChunkView {
                nominal_size: if width >= height {
                    width
                } else {
                    height
                },
                width,
                height,
                hotspot_x,
                hotspot_y,
                delay,
                argb: argb@,
            }),
    {
        if width == 0 || width > MAX_DIMENSION || height == 0 || height > MAX_DIMENSION {
            return Err(XcursorError::DimensionOutOfRange);
        }
        if hotspot_x > width || hotspot_y > height {
            return Err(XcursorError::HotspotOutOfRange);
        }
        if delay > MAX_DELAY {
            return Err(XcursorError::DelayOutOfRange);
        }
        assert(width * height <= 2048 * 2048) by (nonlinear_arith)
            requires
                width <= 2048,
                height <= 2048,
        ;
        if argb.len() as u64 != (width as u64) * (height as u64) {
            return Err(XcursorError::PixelCountMismatch);
        }
        let nominal_size = if width >= height {
            width
        } else {
            height
        };
        Ok(ImageChunk { nominal_size, width, height, hotspot_x, hotspot_y, delay, argb })
    }

    /// Builds the chunk of a frame and the entry of the table of contents
    /// that points to it at `position`.
    pub fn new(image: &CursorImage, position: u32) -> (r: Result<
        (ImageChunk, TableOfContents),
        XcursorError,
    >)
        ensures
            r matches Err(e) ==> frame_error(image@) == Some(e),
            r matches Ok((chunk, toc)) ==> frame_error(image@) is None && chunk@ == spec_chunk_of(
                image@,
            ) && chunk@.valid() && toc == (TableOfContents {
                chunk_type: IMAGE_TYPE,
                subtype: chunk@.nominal_size,
                position,
            }),
    {
        let (width, height) = image.dimensions();
        let (hotspot_x, hotspot_y) = image.hotspot();
        let argb = to_pre_argb(image.rgba());
        assert(argb@.len() == width * height) by {
            assert(image@.rgba.len() == 4 * (width * height)) by (nonlinear_arith)
                requires
                    image@.rgba.len() == 4 * width * height,
            ;
        }
        match ImageChunk::from_parts(width, height, hotspot_x, hotspot_y, image.delay(), argb) {
            Err(e) => Err(e),
            Ok(chunk) => {
                let toc = TableOfContents {
                    chunk_type: IMAGE_TYPE,
                    subtype: chunk.nominal_size,
                    position,
                };
                proof {
                    use_type_invariant(&chunk);
                }
                Ok((chunk, toc))
            },
        }
    }
}


/// The mathematical value of an [`Xcursor`].
pub struct XcursorView {
    /// The comment, if the file has one.
    pub comment: Option<Seq<u8>>,
    /// The images, in the order of their chunks.
    pub images: Seq<ImageChunkView>,
}

/// The four bytes that every Xcursor file starts with.
pub open spec fn magic() -> Seq<u8> {
    seq![0x58u8, 0x63u8, 0x75u8, 0x72u8]
}

/// How many bytes the first `k` images take.
pub open spec fn images_size(images: Seq<ImageChunkView>, k: int) -> nat
    decreases k,
{
    if k <= 0 {
        0
    } else {
        images_size(images, k - 1) + images[k - 1].size()
    }
}

/// The chunks of the first `n` images, one after the other.
pub open spec fn images_bytes(images: Seq<ImageChunkView>, n: int) -> Seq<u8>
    decreases n,
{
    if n <= 0 {
        Seq::empty()
    } else {
        images_bytes(images, n - 1) + images[n - 1].bytes()
    }
}

/// The bytes of an entry of the table of contents.
pub open spec fn toc_entry_bytes(entry: TableOfContents) -> Seq<u8> {
    le_bytes(entry.chunk_type) + le_bytes(entry.subtype) + le_bytes(entry.position)
}

/// The bytes of the first `n` entries of a table of contents.
pub open spec fn toc_bytes(toc: Seq<TableOfContents>, n: int) -> Seq<u8>
    decreases n,
{
    if n <= 0 {
        Seq::empty()
    } else {
        toc_bytes(toc, n - 1) + toc_entry_bytes(toc[n - 1])
    }
}

impl XcursorView {
    /// One if the file has a comment, else zero.
    pub open spec fn comment_count(self) -> nat {
        if self.comment is Some {
            1
        } else {
            0
        }
    }

    /// How many chunks the file has, and so how many entries its table of
    /// contents.
    pub open spec fn toc_count(self) -> nat {
        self.comment_count() + self.images.len()
    }

    /// How many bytes the comment chunk takes.
    pub open spec fn comment_size(self) -> nat {
        match self.comment {
            Some(c) => COMMENT_HEADER_SIZE as nat + c.len(),
            None => 0,
        }
    }

    /// Where the first chunk begins: after the file header and the table of
    /// contents.
    pub open spec fn chunks_start(self) -> nat {
        FILE_HEADER_SIZE as nat + TOC_ENTRY_SIZE as nat * self.toc_count()
    }

    /// Where the chunk of the image `k` begins. The comment chunk comes
    /// before the first image.
    pub open spec fn image_position(self, k: int) -> nat {
        self.chunks_start() + self.comment_size() + images_size(self.images, k)
    }

    /// How many bytes the file takes.
    pub open spec fn file_size(self) -> nat {
        self.image_position(self.images.len() as int)
    }

    /// What holds of every file that is written: each image is within the
    /// limits, and the file is no larger than 32-bit offsets reach.
    pub open spec fn wf(self) -> bool {
        &&& forall|i: int| 0 <= i < self.images.len() ==> (#[trigger] self.images[i]).valid()
        &&& self.file_size() <= u32::MAX
    }

    /// The table of contents: the entry of the comment, if there is one,
    /// then one entry for each image, in the order of the chunks.
    pub open spec fn toc(self) -> Seq<TableOfContents> {
        Seq::new(
            self.toc_count(),
            |i: int|
                if i < self.comment_count() {
                    TableOfContents {
                        chunk_type: COMMENT_TYPE,
                        subtype: COMMENT_OTHER,
                        position: self.chunks_start() as u32,
                    }
                } else {
                    TableOfContents {
                        chunk_type: IMAGE_TYPE,
                        subtype: self.images[i - self.comment_count()].nominal_size,
                        position: self.image_position(i - self.comment_count()) as u32,
                    }
                },
        )
    }

    /// The file header: the magic, the header's size, the version and the
    /// number of entries of the table of contents.
    pub open spec fn header_bytes(self) -> Seq<u8> {
        magic() + le_bytes(FILE_HEADER_SIZE) + le_bytes(FILE_VERSION) + le_bytes(
            self.toc_count() as u32,
        )
    }

    /// The comment chunk: five words of header, then the text.
    pub open spec fn comment_bytes(self) -> Seq<u8> {
        match self.comment {
            Some(c) => le_bytes(COMMENT_HEADER_SIZE) + le_bytes(COMMENT_TYPE) + le_bytes(
                COMMENT_OTHER,
            ) + le_bytes(CHUNK_VERSION) + le_bytes(c.len() as u32) + c,
            None => Seq::empty(),
        }
    }

    /// The bytes of the file.
    pub open spec fn bytes(self) -> Seq<u8> {
        self.header_bytes() + toc_bytes(self.toc(), self.toc_count() as int) + self.comment_bytes()
            + images_bytes(self.images, self.images.len() as int)
    }
}

/// The first images take no more bytes than all of them.
pub proof fn lemma_images_size_monotone(images: Seq<ImageChunkView>, k: int, n: int)
    requires
        0 <= k <= n,
    ensures
        images_size(images, k) <= images_size(images, n),
    decreases n - k,
{
    if k < n {
        lemma_images_size_monotone(images, k, n - 1);
    }
}

/// The value of a list of chunks.
pub open spec fn chunks_view(chunks: Seq<ImageChunk>) -> Seq<ImageChunkView> {
    Seq::new(chunks.len(), |i: int| chunks[i]@)
}

/// A cursor laid out as an Xcursor file.
#[derive(Debug, PartialEq, Eq)]
pub struct Xcursor {
    toc: Vec<TableOfContents>,
    comment: Option<Vec<u8>>,
    images: Vec<ImageChunk>,
}

impl View for Xcursor {
    type V = XcursorView;

    closed spec fn view(&self) -> XcursorView {
        XcursorView {
            comment: match self.comment {
                Some(c) => Some(c@),
                None => None,
            },
            images: chunks_view(self.images@),
        }
    }
}

/// Appends a slice of bytes.
fn extend_bytes(out: &mut Vec<u8>, src: &[u8])
    ensures
        final(out)@ == old(out)@ + src@,
{
    let mut i: usize = 0;
    while i < src.len()
        invariant
            i <= src.len(),
            out@ == old(out)@ + src@.take(i as int),
        decreases src.len() - i,
    {
        out.push(src[i]);
        i += 1;
        assert(out@ =~= old(out)@ + src@.take(i as int));
    }
    assert(src@.take(src.len() as int) =~= src@);
}

impl ImageChunk {
    /// Appends the bytes of the chunk.
    fn write(&self, out: &mut Vec<u8>)
        ensures
            final(out)@ == old(out)@ + self@.bytes(),
    {
        push_le_u32(out, IMAGE_HEADER_SIZE);
        push_le_u32(out, IMAGE_TYPE);
        push_le_u32(out, self.nominal_size);
        push_le_u32(out, CHUNK_VERSION);
        push_le_u32(out, self.width);
        push_le_u32(out, self.height);
        push_le_u32(out, self.hotspot_x);
        push_le_u32(out, self.hotspot_y);
        push_le_u32(out, self.delay);
        let ghost head = out@;
        let mut i: usize = 0;
        while i < self.argb.len()
            invariant
                i <= self.argb.len(),
                out@ == head + words_bytes(self.argb@, i as int),
            decreases self.argb.len() - i,
        {
            push_le_u32(out, self.argb[i]);
            i += 1;
            assert(out@ =~= head + words_bytes(self.argb@, i as int));
        }
        assert(out@ =~= old(out)@ + self@.bytes());
    }
}

impl Xcursor {
    /// Holds of every value that exists.
    #[verifier::type_invariant]
    pub closed spec fn well_formed(&self) -> bool {
        self@.wf() && self.toc@ == self@.toc()
    }

    /// The bytes of the file.
    #[verifier::rlimit(80)]
    pub fn to_bytes(&self) -> (r: Vec<u8>)
        ensures
            r@ == self@.bytes(),
            self@.wf(),
    {
        proof {
            use_type_invariant(self);
        }
        let ghost x = self@;
        let mut out: Vec<u8> = Vec::new();
        out.push(0x58);
        out.push(0x63);
        out.push(0x75);
        out.push(0x72);
        push_le_u32(&mut out, FILE_HEADER_SIZE);
        push_le_u32(&mut out, FILE_VERSION);
        assert(self.toc.len() == x.toc_count());
        assert(x.toc_count() <= x.file_size()) by {
            assert(x.toc_count() <= 12 * x.toc_count());
        }
        push_le_u32(&mut out, self.toc.len() as u32);
        assert(out@ =~= x.header_bytes());
        let mut i: usize = 0;
        while i < self.toc.len()
            invariant
                i <= self.toc.len(),
                self.toc@ == x.toc(),
                out@ == x.header_bytes() + toc_bytes(x.toc(), i as int),
            decreases self.toc.len() - i,
        {
            let entry = self.toc[i];
            let ghost before = out@;
            push_le_u32(&mut out, entry.chunk_type);
            push_le_u32(&mut out, entry.subtype);
            push_le_u32(&mut out, entry.position);
            assert(out@ =~= before + toc_entry_bytes(entry));
            i += 1;
            assert(out@ =~= x.header_bytes() + toc_bytes(x.toc(), i as int));
        }
        let ghost head = out@;
        if let Some(c) = &self.comment {
            push_le_u32(&mut out, COMMENT_HEADER_SIZE);
            push_le_u32(&mut out, COMMENT_TYPE);
            push_le_u32(&mut out, COMMENT_OTHER);
            push_le_u32(&mut out, CHUNK_VERSION);
            assert(c.len() <= x.file_size());
            push_le_u32(&mut out, c.len() as u32);
            extend_bytes(&mut out, c.as_slice());
        }
        assert(out@ =~= head + x.comment_bytes());
        let ghost head2 = out@;
        let mut k: usize = 0;
        while k < self.images.len()
            invariant
                k <= self.images.len(),
                x == self@,
                out@ == head2 + images_bytes(x.images, k as int),
            decreases self.images.len() - k,
        {
            self.images[k].write(&mut out);
            k += 1;
            assert(out@ =~= head2 + images_bytes(x.images, k as int));
        }
        assert(out@ =~= x.bytes());
        out
    }

    /// The table of contents.
    pub fn toc(&self) -> (r: &[TableOfContents])
        ensures
            r@ == self@.toc(),
            self@.wf(),
    {
        proof {
            use_type_invariant(self);
        }
        self.toc.as_slice()
    }

    /// How many images the file holds.
    pub fn num_images(&self) -> (r: usize)
        ensures
            r == self@.images.len(),
    {
        self.images.len()
    }
}


/// The error of the first of the first `n` frames that cannot be written,
/// if there is one.
pub open spec fn spec_frames_error(frames: Seq<CursorImageView>, n: int) -> Option<XcursorError>
    decreases n,
{
    if n <= 0 {
        None
    } else {
        match spec_frames_error(frames, n - 1) {
            Some(e) => Some(e),
            None => frame_error(frames[n - 1]),
        }
    }
}

/// An error among the first frames is the error of the whole.
pub proof fn lemma_frames_error(frames: Seq<CursorImageView>, k: int, n: int)
    requires
        0 <= k <= n,
        spec_frames_error(frames, k) is Some,
    ensures
        spec_frames_error(frames, n) == spec_frames_error(frames, k),
    decreases n - k,
{
    if k < n {
        lemma_frames_error(frames, k, n - 1);
    }
}

/// Where no frame has an error, each frame has none.
pub proof fn lemma_frames_ok(frames: Seq<CursorImageView>, n: int, i: int)
    requires
        0 <= i < n,
        spec_frames_error(frames, n) is None,
    ensures
        frame_error(frames[i]) is None,
    decreases n,
{
    if i < n - 1 {
        lemma_frames_ok(frames, n - 1, i);
    }
}

/// The file of a cursor before its size is tested: the comment is the
/// cursor's info in UTF-8, the images are the chunks of all frames, the
/// base first and then the scaled groups.
pub open spec fn spec_layout(cursor: GenericCursorView) -> XcursorView {
    XcursorView {
        comment: match cursor.info {
            Some(text) => Some(encode_utf8(text)),
            None => None,
        },
        images: Seq::new(cursor.joined().len(), |i: int| spec_chunk_of(cursor.joined()[i])),
    }
}

/// The file of a cursor, or why the cursor cannot be written: the error of
/// its first frame that is out of range, or that the file would be too
/// large.
pub open spec fn spec_xcursor(cursor: GenericCursorView) -> Result<XcursorView, XcursorError> {
    match spec_frames_error(cursor.joined(), cursor.joined().len() as int) {
        Some(e) => Err(e),
        None => if spec_layout(cursor).file_size() > u32::MAX {
            Err(XcursorError::FileTooLarge)
        } else {
            Ok(spec_layout(cursor))
        },
    }
}

impl Xcursor {
    /// Lays a cursor out as an Xcursor file: the comment, if the cursor has
    /// one, then an image chunk for each frame, the base first and the
    /// scaled groups after it. Each entry of the table of contents holds the
    /// position of its chunk.
    #[verifier::loop_isolation(false)]
    #[verifier::rlimit(100)]
    pub fn new(cursor: &GenericCursor) -> (r: Result<Xcursor, XcursorError>)
        ensures
            r matches Ok(file) ==> spec_xcursor(cursor@) == Ok::<XcursorView, XcursorError>(file@)
                && file@.wf() && file@.images.len() == cursor@.num_images(),
            r matches Err(e) ==> spec_xcursor(cursor@) == Err::<XcursorView, XcursorError>(e),
    {
        let joined = cursor.joined_images();
        let ghost frames = cursor@.joined();
        let ghost layout = spec_layout(cursor@);
        let n = joined.len();
        assert(forall|i: int| 0 <= i < n ==> (#[trigger] joined@[i])@ == frames[i]);
        let comment: Option<Vec<u8>> = match cursor.info() {
            Some(text) => Some(slice_to_vec(text.as_str().as_bytes())),
            None => None,
        };
        let count: u128 = n as u128 + if comment.is_some() {
            1u128
        } else {
            0u128
        };
        let comment_size: u128 = match &comment {
            Some(c) => COMMENT_HEADER_SIZE as u128 + c.len() as u128,
            None => 0,
        };
        let start: u128 = FILE_HEADER_SIZE as u128 + TOC_ENTRY_SIZE as u128 * count;
        assert(count == layout.toc_count());
        assert(comment_size == layout.comment_size());
        assert(start == layout.chunks_start());
        // First pass: every frame is tested, and the size of the file is
        // summed up for as long as 32 bits hold it.
        let mut total: u128 = start + comment_size;
        let mut i: usize = 0;
        while i < n
            invariant
                i <= n,
                spec_frames_error(frames, i as int) is None,
                total <= u32::MAX ==> total == layout.image_position(i as int),
                total > u32::MAX ==> layout.image_position(i as int) > u32::MAX,
                total <= 0x1000_0000_0000_0000_0000,
            decreases n - i,
        {
            let image = joined[i];
            let (width, height) = image.dimensions();
            if width > MAX_DIMENSION || height > MAX_DIMENSION {
                proof {
                    lemma_frames_error(frames, i as int + 1, n as int);
                }
                return Err(XcursorError::DimensionOutOfRange);
            }
            if image.delay() > MAX_DELAY {
                proof {
                    lemma_frames_error(frames, i as int + 1, n as int);
                }
                return Err(XcursorError::DelayOutOfRange);
            }
            assert(width * height <= 2048 * 2048) by (nonlinear_arith)
                requires
                    width <= 2048,
                    height <= 2048,
            ;
            let size: u128 = IMAGE_HEADER_SIZE as u128 + 4 * ((width as u128) * (height as u128));
            proof {
                assert(frames[i as int].rgba.len() == 4 * (width * height)) by (nonlinear_arith)
                    requires
                        frames[i as int].rgba.len() == 4 * width * height,
                ;
                assert(layout.images[i as int] == spec_chunk_of(frames[i as int]));
                assert(layout.images[i as int].size() == size);
            }
            if total <= u32::MAX as u128 {
                total = total + size;
            }
            i += 1;
        }
        if total > u32::MAX as u128 {
            proof {
                lemma_images_size_monotone(layout.images, i as int, n as int);
            }
            return Err(XcursorError::FileTooLarge);
        }
        // Second pass: the chunks are built, each with its position.
        let mut toc: Vec<TableOfContents> = Vec::new();
        if comment.is_some() {
            toc.push(
                TableOfContents {
                    chunk_type: COMMENT_TYPE,
                    subtype: COMMENT_OTHER,
                    position: start as u32,
                },
            );
        }
        let mut images: Vec<ImageChunk> = Vec::new();
        let mut position: u128 = start + comment_size;
        let mut k: usize = 0;
        while k < n
            invariant
                k <= n,
                images.len() == k,
                toc.len() == layout.comment_count() + k,
                position == layout.image_position(k as int),
                forall|j: int|
                    0 <= j < k ==> (#[trigger] images@[j])@ == layout.images[j]
                        && images@[j]@.valid(),
                forall|j: int| 0 <= j < toc.len() ==> #[trigger] toc@[j] == layout.toc()[j],
            decreases n - k,
        {
            proof {
                lemma_images_size_monotone(layout.images, k as int, n as int);
                lemma_images_size_monotone(layout.images, k as int + 1, n as int);
                lemma_frames_ok(frames, n as int, k as int);
            }
            match ImageChunk::new(joined[k], position as u32) {
                Err(e) => {
                    // No frame has an error: the first pass has tested them.
                    return Err(e);
                },
                Ok((chunk, entry)) => {
                    assert(chunk@ == layout.images[k as int]);
                    position = position + IMAGE_HEADER_SIZE as u128 + 4 * (chunk.argb.len() as u128);
                    images.push(chunk);
                    toc.push(entry);
                },
            }
            k += 1;
        }
        proof {
            let ghost file = Xcursor { toc, comment, images };
            assert(file@.images =~= layout.images);
            assert(file@.comment == layout.comment);
            assert(file@ == layout);
            assert(file.toc@ =~= layout.toc());
            assert forall|j: int| 0 <= j < layout.images.len() implies (
            #[trigger] layout.images[j]).valid() by {
                assert(images@[j]@ == layout.images[j]);
            }
        }
        Ok(Xcursor { toc, comment, images })
    }
}

impl GenericCursor {
    /// The bytes of the Xcursor file of the cursor.
    pub fn save_as_xcursor(&self) -> (r: Result<Vec<u8>, XcursorError>)
        ensures
            r matches Ok(bytes) ==> spec_xcursor(self@) matches Ok(file) && bytes@ == file.bytes()
                && file.wf(),
            r matches Err(e) ==> spec_xcursor(self@) == Err::<XcursorView, XcursorError>(e),
    {
        match Xcursor::new(self) {
            Err(e) => Err(e),
            Ok(file) => Ok(file.to_bytes()),
        }
    }
}


/// The first `n` entries of a table of contents take twelve bytes each, and
/// the entry `k` stands at `12 * k`.
pub proof fn lemma_toc_bytes(toc: Seq<TableOfContents>, n: int)
    requires
        0 <= n <= toc.len(),
    ensures
        toc_bytes(toc, n).len() == 12 * n,
        forall|k: int|
            0 <= k < n ==> toc_bytes(toc, n).subrange(12 * k, 12 * k + 12) == toc_entry_bytes(
                #[trigger] toc[k],
            ),
    decreases n,
{
    if n > 0 {
        lemma_toc_bytes(toc, n - 1);
        let front = toc_bytes(toc, n - 1);
        let all = toc_bytes(toc, n);
        assert forall|k: int| 0 <= k < n implies all.subrange(12 * k, 12 * k + 12)
            == toc_entry_bytes(#[trigger] toc[k]) by {
            if k < n - 1 {
                assert(all.subrange(12 * k, 12 * k + 12) =~= front.subrange(12 * k, 12 * k + 12));
            } else {
                assert(all.subrange(12 * k, 12 * k + 12) =~= toc_entry_bytes(toc[k]));
            }
        }
    }
}

/// A chunk takes as many bytes as its size says.
pub proof fn lemma_chunk_len(image: ImageChunkView)
    ensures
        image.bytes().len() == image.size(),
{
    lemma_words_bytes(image.argb, image.argb.len() as int);
}

/// The chunks of the first `n` images take as many bytes as their sizes
/// say, and the chunk of the image `k` stands behind those of the images
/// before it.
pub proof fn lemma_images_bytes(images: Seq<ImageChunkView>, n: int)
    requires
        0 <= n <= images.len(),
    ensures
        images_bytes(images, n).len() == images_size(images, n),
        forall|k: int|
            0 <= k < n ==> images_size(images, k) + (#[trigger] images[k]).size() <= images_size(
                images,
                n,
            ) && images_bytes(images, n).subrange(
                images_size(images, k) as int,
                (images_size(images, k) + images[k].size()) as int,
            ) == images[k].bytes(),
    decreases n,
{
    if n > 0 {
        lemma_images_bytes(images, n - 1);
        lemma_chunk_len(images[n - 1]);
        let front = images_bytes(images, n - 1);
        let all = images_bytes(images, n);
        assert forall|k: int| 0 <= k < n implies images_size(images, k) + (
        #[trigger] images[k]).size() <= images_size(images, n) && all.subrange(
            images_size(images, k) as int,
            (images_size(images, k) + images[k].size()) as int,
        ) == images[k].bytes() by {
            let from = images_size(images, k) as int;
            let to = (images_size(images, k) + images[k].size()) as int;
            if k < n - 1 {
                assert(all.subrange(from, to) =~= front.subrange(from, to));
            } else {
                assert(all.subrange(from, to) =~= images[k].bytes());
            }
        }
    }
}

/// The word that stands at `at` in `whole`, where `part` is the piece of
/// `whole` that begins at `start`, is the word that stands at `at - start`
/// in `part`.
pub proof fn lemma_le_in_part(whole: Seq<u8>, start: int, part: Seq<u8>, at: int)
    requires
        0 <= start,
        start + part.len() <= whole.len(),
        whole.subrange(start, start + part.len()) == part,
        start <= at,
        at + 4 <= start + part.len(),
    ensures
        le_u32(whole, at) == le_u32(part, at - start),
{
    let i = at - start;
    assert(part[i] == whole[at]);
    assert(part[i + 1] == whole[at + 1]);
    assert(part[i + 2] == whole[at + 2]);
    assert(part[i + 3] == whole[at + 3]);
}

/// Law: the header of an image chunk holds, word by word, the size of the
/// header, the type of the chunk, the nominal size, the version, width,
/// height, the hotspot and the delay; the pixels follow, one word each.
#[verifier::rlimit(100)]
pub proof fn lemma_chunk_fields(image: ImageChunkView)
    ensures
        image.bytes().len() == IMAGE_HEADER_SIZE + 4 * image.argb.len(),
        le_u32(image.bytes(), 0) == IMAGE_HEADER_SIZE,
        le_u32(image.bytes(), 4) == IMAGE_TYPE,
        le_u32(image.bytes(), 8) == image.nominal_size,
        le_u32(image.bytes(), 12) == CHUNK_VERSION,
        le_u32(image.bytes(), 16) == image.width,
        le_u32(image.bytes(), 20) == image.height,
        le_u32(image.bytes(), 24) == image.hotspot_x,
        le_u32(image.bytes(), 28) == image.hotspot_y,
        le_u32(image.bytes(), 32) == image.delay,
        forall|j: int|
            0 <= j < image.argb.len() ==> le_u32(image.bytes(), 36 + 4 * j)
                == #[trigger] image.argb[j],
{
    let b = image.bytes();
    let words = words_bytes(image.argb, image.argb.len() as int);
    lemma_words_bytes(image.argb, image.argb.len() as int);
    assert(le_u32(b, 0) == IMAGE_HEADER_SIZE) by {
        assert(b.subrange(0, 4) =~= le_bytes(IMAGE_HEADER_SIZE));
        lemma_le_round_trip(b, 0, IMAGE_HEADER_SIZE);
    }
    assert(le_u32(b, 4) == IMAGE_TYPE) by {
        assert(b.subrange(4, 8) =~= le_bytes(IMAGE_TYPE));
        lemma_le_round_trip(b, 4, IMAGE_TYPE);
    }
    assert(le_u32(b, 8) == image.nominal_size) by {
        assert(b.subrange(8, 12) =~= le_bytes(image.nominal_size));
        lemma_le_round_trip(b, 8, image.nominal_size);
    }
    assert(le_u32(b, 12) == CHUNK_VERSION) by {
        assert(b.subrange(12, 16) =~= le_bytes(CHUNK_VERSION));
        lemma_le_round_trip(b, 12, CHUNK_VERSION);
    }
    assert(le_u32(b, 16) == image.width) by {
        assert(b.subrange(16, 20) =~= le_bytes(image.width));
        lemma_le_round_trip(b, 16, image.width);
    }
    assert(le_u32(b, 20) == image.height) by {
        assert(b.subrange(20, 24) =~= le_bytes(image.height));
        lemma_le_round_trip(b, 20, image.height);
    }
    assert(le_u32(b, 24) == image.hotspot_x) by {
        assert(b.subrange(24, 28) =~= le_bytes(image.hotspot_x));
        lemma_le_round_trip(b, 24, image.hotspot_x);
    }
    assert(le_u32(b, 28) == image.hotspot_y) by {
        assert(b.subrange(28, 32) =~= le_bytes(image.hotspot_y));
        lemma_le_round_trip(b, 28, image.hotspot_y);
    }
    assert(le_u32(b, 32) == image.delay) by {
        assert(b.subrange(32, 36) =~= le_bytes(image.delay));
        lemma_le_round_trip(b, 32, image.delay);
    }
    assert(b.subrange(36, b.len() as int) =~= words);
    assert forall|j: int| 0 <= j < image.argb.len() implies le_u32(b, 36 + 4 * j)
        == #[trigger] image.argb[j] by {
        assert(b.subrange(36 + 4 * j, 36 + 4 * j + 4) =~= words.subrange(4 * j, 4 * j + 4));
        lemma_le_round_trip(b, 36 + 4 * j, image.argb[j]);
    }
}

/// Four sequences laid end to end: each is the piece of the whole that
/// begins where the one before it ends.
pub proof fn lemma_concat4(a: Seq<u8>, b: Seq<u8>, c: Seq<u8>, d: Seq<u8>)
    ensures
        (a + b + c + d).len() == a.len() + b.len() + c.len() + d.len(),
        (a + b + c + d).subrange(0, a.len() as int) == a,
        (a + b + c + d).subrange(a.len() as int, (a.len() + b.len()) as int) == b,
        (a + b + c + d).subrange((a.len() + b.len()) as int, (a.len() + b.len() + c.len()) as int)
            == c,
        (a + b + c + d).subrange(
            (a.len() + b.len() + c.len()) as int,
            (a.len() + b.len() + c.len() + d.len()) as int,
        ) == d,
{
    let w = a + b + c + d;
    assert(w.subrange(0, a.len() as int) =~= a);
    assert(w.subrange(a.len() as int, (a.len() + b.len()) as int) =~= b);
    assert(w.subrange((a.len() + b.len()) as int, (a.len() + b.len() + c.len()) as int) =~= c);
    assert(w.subrange(
        (a.len() + b.len() + c.len()) as int,
        (a.len() + b.len() + c.len() + d.len()) as int,
    ) =~= d);
}

/// A piece of a piece is a piece of the whole.
pub proof fn lemma_piece_of_piece(whole: Seq<u8>, start: int, part: Seq<u8>, from: int, to: int)
    requires
        0 <= start,
        start + part.len() <= whole.len(),
        whole.subrange(start, start + part.len()) == part,
        0 <= from <= to <= part.len(),
    ensures
        whole.subrange(start + from, start + to) == part.subrange(from, to),
{
    let a = whole.subrange(start + from, start + to);
    let b = part.subrange(from, to);
    assert forall|i: int| 0 <= i < to - from implies #[trigger] a[i] == b[i] by {
        assert(part[from + i] == whole.subrange(start, start + part.len())[from + i]);
    }
    assert(a =~= b);
}

/// The file header holds the magic, the size of the header, the version
/// and the number of chunks.
#[verifier::rlimit(80)]
pub proof fn lemma_header_fields(file: XcursorView)
    requires
        file.toc_count() <= u32::MAX,
    ensures
        file.header_bytes().len() == 16,
        file.header_bytes().subrange(0, 4) == magic(),
        le_u32(file.header_bytes(), 4) == FILE_HEADER_SIZE,
        le_u32(file.header_bytes(), 8) == FILE_VERSION,
        le_u32(file.header_bytes(), 12) == file.toc_count(),
{
    let h = file.header_bytes();
    assert(h.subrange(0, 4) =~= magic());
    assert(le_u32(h, 4) == FILE_HEADER_SIZE) by {
        assert(h.subrange(4, 8) =~= le_bytes(FILE_HEADER_SIZE));
        lemma_le_round_trip(h, 4, FILE_HEADER_SIZE);
    }
    assert(le_u32(h, 8) == FILE_VERSION) by {
        assert(h.subrange(8, 12) =~= le_bytes(FILE_VERSION));
        lemma_le_round_trip(h, 8, FILE_VERSION);
    }
    assert(le_u32(h, 12) == file.toc_count() as u32) by {
        assert(h.subrange(12, 16) =~= le_bytes(file.toc_count() as u32));
        lemma_le_round_trip(h, 12, file.toc_count() as u32);
    }
}

/// An entry of the table of contents holds the type, the subtype and the
/// position of its chunk.
pub proof fn lemma_entry_fields(entry: TableOfContents)
    ensures
        toc_entry_bytes(entry).len() == 12,
        le_u32(toc_entry_bytes(entry), 0) == entry.chunk_type,
        le_u32(toc_entry_bytes(entry), 4) == entry.subtype,
        le_u32(toc_entry_bytes(entry), 8) == entry.position,
{
    let e = toc_entry_bytes(entry);
    assert(le_u32(e, 0) == entry.chunk_type) by {
        assert(e.subrange(0, 4) =~= le_bytes(entry.chunk_type));
        lemma_le_round_trip(e, 0, entry.chunk_type);
    }
    assert(le_u32(e, 4) == entry.subtype) by {
        assert(e.subrange(4, 8) =~= le_bytes(entry.subtype));
        lemma_le_round_trip(e, 4, entry.subtype);
    }
    assert(le_u32(e, 8) == entry.position) by {
        assert(e.subrange(8, 12) =~= le_bytes(entry.position));
        lemma_le_round_trip(e, 8, entry.position);
    }
}

/// The header of a comment chunk holds the size of the header, the type of
/// comment chunks, the role, the version and the length of the text; the
/// text follows.
#[verifier::rlimit(80)]
pub proof fn lemma_comment_fields(file: XcursorView)
    requires
        file.comment is Some,
        file.comment->0.len() <= u32::MAX,
    ensures
        file.comment_bytes().len() == 20 + file.comment->0.len(),
        le_u32(file.comment_bytes(), 0) == COMMENT_HEADER_SIZE,
        le_u32(file.comment_bytes(), 4) == COMMENT_TYPE,
        le_u32(file.comment_bytes(), 8) == COMMENT_OTHER,
        le_u32(file.comment_bytes(), 12) == CHUNK_VERSION,
        le_u32(file.comment_bytes(), 16) == file.comment->0.len(),
        file.comment_bytes().subrange(20, 20 + file.comment->0.len() as int) == file.comment->0,
{
    let c = file.comment_bytes();
    let text = file.comment->0;
    assert(le_u32(c, 0) == COMMENT_HEADER_SIZE) by {
        assert(c.subrange(0, 4) =~= le_bytes(COMMENT_HEADER_SIZE));
        lemma_le_round_trip(c, 0, COMMENT_HEADER_SIZE);
    }
    assert(le_u32(c, 4) == COMMENT_TYPE) by {
        assert(c.subrange(4, 8) =~= le_bytes(COMMENT_TYPE));
        lemma_le_round_trip(c, 4, COMMENT_TYPE);
    }
    assert(le_u32(c, 8) == COMMENT_OTHER) by {
        assert(c.subrange(8, 12) =~= le_bytes(COMMENT_OTHER));
        lemma_le_round_trip(c, 8, COMMENT_OTHER);
    }
    assert(le_u32(c, 12) == CHUNK_VERSION) by {
        assert(c.subrange(12, 16) =~= le_bytes(CHUNK_VERSION));
        lemma_le_round_trip(c, 12, CHUNK_VERSION);
    }
    assert(le_u32(c, 16) == text.len() as u32) by {
        assert(c.subrange(16, 20) =~= le_bytes(text.len() as u32));
        lemma_le_round_trip(c, 16, text.len() as u32);
    }
    assert(c.subrange(20, 20 + text.len() as int) =~= text);
}

/// The parts of a file: the header, the table of contents, the comment
/// chunk and the image chunks, each where the one before it ends.
#[verifier::rlimit(80)]
pub proof fn lemma_file_parts(file: XcursorView)
    requires
        file.wf(),
    ensures
        file.bytes().len() == file.file_size(),
        file.chunks_start() == 16 + 12 * file.toc_count(),
        file.bytes().subrange(0, 16) == file.header_bytes(),
        file.bytes().subrange(16, file.chunks_start() as int) == toc_bytes(
            file.toc(),
            file.toc_count() as int,
        ),
        file.bytes().subrange(file.chunks_start() as int, file.image_position(0) as int)
            == file.comment_bytes(),
        file.bytes().subrange(file.image_position(0) as int, file.file_size() as int)
            == images_bytes(file.images, file.images.len() as int),
{
    let h = file.header_bytes();
    let t = toc_bytes(file.toc(), file.toc_count() as int);
    let c = file.comment_bytes();
    let i = images_bytes(file.images, file.images.len() as int);
    assert(h.len() == 16) by {
        lemma_header_fields(file);
    }
    assert(t.len() == 12 * file.toc_count()) by {
        lemma_toc_bytes(file.toc(), file.toc_count() as int);
    }
    assert(c.len() == file.comment_size()) by {
        if file.comment is Some {
            lemma_comment_fields(file);
        }
    }
    assert(i.len() == images_size(file.images, file.images.len() as int)) by {
        lemma_images_bytes(file.images, file.images.len() as int);
    }
    lemma_concat4(h, t, c, i);
}

/// Law: a file starts with the magic, the size of its header, the version
/// and the number of its chunks, and is as long as its size says.
#[verifier::rlimit(80)]
pub proof fn lemma_file_header(file: XcursorView)
    requires
        file.wf(),
    ensures
        file.bytes().len() == file.file_size(),
        file.bytes().subrange(0, 4) == magic(),
        le_u32(file.bytes(), 4) == FILE_HEADER_SIZE,
        le_u32(file.bytes(), 8) == FILE_VERSION,
        le_u32(file.bytes(), 12) == file.toc_count(),
{
    let b = file.bytes();
    let h = file.header_bytes();
    lemma_file_parts(file);
    lemma_header_fields(file);
    lemma_piece_of_piece(b, 0, h, 0, 4);
    lemma_le_in_part(b, 0, h, 4);
    lemma_le_in_part(b, 0, h, 8);
    lemma_le_in_part(b, 0, h, 12);
}

/// Law: the entry `i` of the table of contents stands at `16 + 12 * i` and
/// holds the type, the subtype and the position of its chunk.
#[verifier::rlimit(80)]
pub proof fn lemma_toc_entry(file: XcursorView, i: int)
    requires
        file.wf(),
        0 <= i < file.toc_count(),
    ensures
        16 + 12 * i + 12 <= file.bytes().len(),
        le_u32(file.bytes(), 16 + 12 * i) == file.toc()[i].chunk_type,
        le_u32(file.bytes(), 16 + 12 * i + 4) == file.toc()[i].subtype,
        le_u32(file.bytes(), 16 + 12 * i + 8) == file.toc()[i].position,
{
    let b = file.bytes();
    let entry = file.toc()[i];
    let table = toc_bytes(file.toc(), file.toc_count() as int);
    let e = toc_entry_bytes(entry);
    lemma_file_parts(file);
    lemma_toc_bytes(file.toc(), file.toc_count() as int);
    lemma_entry_fields(entry);
    assert(table.subrange(12 * i, 12 * i + 12) == e);
    lemma_piece_of_piece(b, 16, table, 12 * i, 12 * i + 12);
    let at = 16 + 12 * i;
    lemma_le_in_part(b, at, e, at);
    lemma_le_in_part(b, at, e, at + 4);
    lemma_le_in_part(b, at, e, at + 8);
}

/// Law: the chunk of the image `k` stands in the file at the position that
/// its entry of the table of contents holds, and the entry holds the type
/// of image chunks and the image's nominal size.
#[verifier::rlimit(80)]
pub proof fn lemma_image_chunk_at(file: XcursorView, k: int)
    requires
        file.wf(),
        0 <= k < file.images.len(),
    ensures
        file.toc()[file.comment_count() + k].chunk_type == IMAGE_TYPE,
        file.toc()[file.comment_count() + k].subtype == file.images[k].nominal_size,
        file.toc()[file.comment_count() + k].position == file.image_position(k),
        file.image_position(k) + file.images[k].size() <= file.bytes().len(),
        file.bytes().subrange(
            file.image_position(k) as int,
            (file.image_position(k) + file.images[k].size()) as int,
        ) == file.images[k].bytes(),
{
    let b = file.bytes();
    let n = file.images.len() as int;
    let body = images_bytes(file.images, n);
    lemma_file_parts(file);
    lemma_images_bytes(file.images, n);
    lemma_images_size_monotone(file.images, k, n);
    let start = file.image_position(0) as int;
    let from = images_size(file.images, k) as int;
    let to = from + file.images[k].size() as int;
    lemma_piece_of_piece(b, start, body, from, to);
}

/// Law: the comment chunk, where there is one, is the first chunk; its
/// entry of the table of contents is the first and holds its position. The
/// header of the chunk holds the size of the header, the type of comment
/// chunks, the role, the version and the length of the text; the text
/// follows.
#[verifier::rlimit(80)]
pub proof fn lemma_comment_chunk_at(file: XcursorView)
    requires
        file.wf(),
        file.comment is Some,
    ensures
        file.toc()[0].chunk_type == COMMENT_TYPE,
        file.toc()[0].subtype == COMMENT_OTHER,
        file.toc()[0].position == file.chunks_start(),
        file.chunks_start() + 20 + file.comment->0.len() <= file.bytes().len(),
        le_u32(file.bytes(), file.chunks_start() as int) == COMMENT_HEADER_SIZE,
        le_u32(file.bytes(), file.chunks_start() as int + 4) == COMMENT_TYPE,
        le_u32(file.bytes(), file.chunks_start() as int + 8) == COMMENT_OTHER,
        le_u32(file.bytes(), file.chunks_start() as int + 12) == CHUNK_VERSION,
        le_u32(file.bytes(), file.chunks_start() as int + 16) == file.comment->0.len(),
        file.bytes().subrange(
            file.chunks_start() as int + 20,
            file.chunks_start() as int + 20 + file.comment->0.len() as int,
        ) == file.comment->0,
{
    let b = file.bytes();
    let text = file.comment->0;
    let p = file.chunks_start() as int;
    let c = file.comment_bytes();
    lemma_file_parts(file);
    lemma_comment_fields(file);
    lemma_le_in_part(b, p, c, p);
    lemma_le_in_part(b, p, c, p + 4);
    lemma_le_in_part(b, p, c, p + 8);
    lemma_le_in_part(b, p, c, p + 12);
    lemma_le_in_part(b, p, c, p + 16);
    lemma_piece_of_piece(b, p, c, 20, 20 + text.len() as int);
}

/// Law: a reader that follows the table of contents finds, for the image
/// `k`, a chunk of the type of image chunks at the position that the entry
/// holds, and reads from its header the nominal size, width, height,
/// hotspot and delay of the image, within the limits of the format, and
/// from the words behind the header its pixels.
#[verifier::rlimit(80)]
pub proof fn lemma_image_read_back(file: XcursorView, k: int)
    requires
        file.wf(),
        0 <= k < file.images.len(),
    ensures
        ({
            let b = file.bytes();
            let entry = 16 + 12 * (file.comment_count() + k);
            let p = le_u32(b, entry + 8) as int;
            let image = file.images[k];
            &&& le_u32(b, entry) == IMAGE_TYPE
            &&& le_u32(b, entry + 4) == image.nominal_size
            &&& p == file.image_position(k)
            &&& p + 36 + 4 * image.argb.len() <= b.len()
            &&& le_u32(b, p) == IMAGE_HEADER_SIZE
            &&& le_u32(b, p + 4) == IMAGE_TYPE
            &&& le_u32(b, p + 8) == image.nominal_size
            &&& le_u32(b, p + 12) == CHUNK_VERSION
            &&& le_u32(b, p + 16) == image.width
            &&& le_u32(b, p + 20) == image.height
            &&& le_u32(b, p + 24) == image.hotspot_x
            &&& le_u32(b, p + 28) == image.hotspot_y
            &&& le_u32(b, p + 32) == image.delay
            &&& image.valid()
            &&& forall|j: int|
                0 <= j < image.argb.len() ==> le_u32(b, p + 36 + 4 * j) == #[trigger] image.argb[j]
        }),
{
    let image = file.images[k];
    let p = file.image_position(k) as int;
    lemma_toc_entry(file, file.comment_count() + k);
    lemma_image_chunk_at(file, k);
    lemma_chunk_len(image);
    lemma_chunk_in(file.bytes(), p, image);
}

/// Where the bytes of a chunk stand at `p` in `b`, the fields and pixels of
/// the chunk are read from `b` at `p`.
#[verifier::rlimit(80)]
pub proof fn lemma_chunk_in(b: Seq<u8>, p: int, image: ImageChunkView)
    requires
        0 <= p,
        p + image.bytes().len() <= b.len(),
        b.subrange(p, p + image.bytes().len()) == image.bytes(),
    ensures
        le_u32(b, p) == IMAGE_HEADER_SIZE,
        le_u32(b, p + 4) == IMAGE_TYPE,
        le_u32(b, p + 8) == image.nominal_size,
        le_u32(b, p + 12) == CHUNK_VERSION,
        le_u32(b, p + 16) == image.width,
        le_u32(b, p + 20) == image.height,
        le_u32(b, p + 24) == image.hotspot_x,
        le_u32(b, p + 28) == image.hotspot_y,
        le_u32(b, p + 32) == image.delay,
        forall|j: int|
            0 <= j < image.argb.len() ==> le_u32(b, p + 36 + 4 * j) == #[trigger] image.argb[j],
{
    let part = image.bytes();
    lemma_chunk_fields(image);
    lemma_le_in_part(b, p, part, p);
    lemma_le_in_part(b, p, part, p + 4);
    lemma_le_in_part(b, p, part, p + 8);
    lemma_le_in_part(b, p, part, p + 12);
    lemma_le_in_part(b, p, part, p + 16);
    lemma_le_in_part(b, p, part, p + 20);
    lemma_le_in_part(b, p, part, p + 24);
    lemma_le_in_part(b, p, part, p + 28);
    lemma_le_in_part(b, p, part, p + 32);
    assert forall|j: int| 0 <= j < image.argb.len() implies le_u32(b, p + 36 + 4 * j)
        == #[trigger] image.argb[j] by {
        lemma_le_in_part(b, p, part, p + 36 + 4 * j);
    }
}

/// The chunk of a valid frame that is within the limits is a valid chunk
/// and holds the frame's nominal size, width, height, hotspot and delay.
pub proof fn lemma_chunk_of_frame(frame: CursorImageView)
    requires
        frame.valid(),
        frame_error(frame) is None,
    ensures
        spec_chunk_of(frame).valid(),
        spec_chunk_of(frame).nominal_size == frame.nominal_size(),
        spec_chunk_of(frame).width == frame.width,
        spec_chunk_of(frame).height == frame.height,
        spec_chunk_of(frame).hotspot_x == frame.hotspot_x,
        spec_chunk_of(frame).hotspot_y == frame.hotspot_y,
        spec_chunk_of(frame).delay == frame.delay,
{
    let area = frame.width * frame.height;
    assert(frame.rgba.len() == 4 * area) by (nonlinear_arith)
        requires
            frame.rgba.len() == 4 * frame.width * frame.height,
            area == frame.width * frame.height,
    ;
    assert(spec_pre_argb(frame.rgba).len() == area);
}

/// Law: the file of a cursor has one image chunk for each frame of the
/// cursor, in the order of the frames, and one entry of the table of
/// contents for each chunk, the comment's among them where the cursor has
/// one; every image is within the limits of the format.
pub proof fn lemma_xcursor_of_cursor(cursor: GenericCursorView)
    requires
        cursor.wf(),
        spec_xcursor(cursor) is Ok,
    ensures
        ({
            let file = spec_xcursor(cursor)->Ok_0;
            &&& file.wf()
            &&& file.images.len() == cursor.num_images()
            &&& file.toc_count() == cursor.num_images() + (if cursor.info is Some {
                1nat
            } else {
                0nat
            })
            &&& file.toc().len() == file.toc_count()
            &&& forall|k: int|
                0 <= k < file.images.len() ==> #[trigger] file.images[k] == spec_chunk_of(
                    cursor.joined()[k],
                )
        }),
{
    let file = spec_xcursor(cursor)->Ok_0;
    let frames = cursor.joined();
    lemma_joined_valid(cursor);
    assert forall|k: int| 0 <= k < file.images.len() implies (#[trigger] file.images[k]).valid() by {
        lemma_frames_ok(frames, frames.len() as int, k);
        lemma_chunk_of_frame(frames[k]);
    }
}

} // verus!
