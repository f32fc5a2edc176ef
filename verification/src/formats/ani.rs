//! The `ANI` container: a RIFF form of type `ACON` whose chunks may come in
//! any order.

use crate::bytes::{is_tag, le_u32, le_words, read_le_u32, tag_at};
use vstd::prelude::*;
use vstd::slice::{slice_subrange, slice_to_vec};

verus! {

/// No blob and no list may be larger than this many bytes.
pub const MAX_CHUNK_SIZE: usize = 2_097_152;

/// The list of frames may not be larger than this many bytes.
pub const MAX_FRAMES_SIZE: usize = 1_048_576;

/// The size that the header states of itself.
pub const HEADER_SIZE: u32 = 36;

/// Why a blob is not accepted as an `ANI` file.
#[derive(Debug, Clone, Copy, PartialEq, Eq)]
pub enum AniError {
    /// `RIFF` or `ACON` does not stand where it must.
    InvalidMagic,
    /// A chunk ends after the blob does, or states a size that does.
    TruncatedChunk,
    /// A chunk that may occur once occurs again.
    DuplicateChunk,
    /// A chunk, list or subchunk whose name is not part of the format.
    UnknownChunk,
    /// The blob, a list or the list of frames is over its limit.
    ChunkTooLarge,
    /// A size field contradicts the format: the header is not 36 bytes, a
    /// list is shorter than its own type, or the rate table does not have one
    /// entry for each step.
    BadChunkSize,
    /// The header's flags are neither 1 nor 3.
    InvalidFlags,
    /// There is no `anih` chunk.
    MissingHeader,
    /// The sequence names a frame that does not exist.
    IndexOutOfRange,
    /// The header counts other frames than the list holds, or the list is
    /// empty.
    MissingFrames,
    /// Several frames, and neither a rate table nor a default rate.
    MissingTimings,
}

/// Whether the frames play in a custom order.
#[derive(Debug, Clone, Copy, PartialEq, Eq)]
pub enum AniFlags {
    /// Flags value 1: the frames play in the order in which they are stored.
    Unsequenced,
    /// Flags value 3: a `seq ` chunk gives the order.
    Sequenced,
}

/// The `anih` chunk.
#[derive(Debug, Clone, Copy, PartialEq, Eq)]
pub struct AniHeader {
    /// How many frames the list of frames holds.
    pub num_frames: u32,
    /// How many steps one run of the animation has.
    pub num_steps: u32,
    /// For how many sixtieths of a second a step is shown where no rate table
    /// says otherwise.
    pub jiffy_rate: u32,
    /// Whether a sequence is expected.
    pub flags: AniFlags,
}

/// A chunk of 32-bit words.
#[derive(Debug, Clone, PartialEq, Eq)]
pub struct RiffChunkU32 {
    /// The words, in file order.
    pub data: Vec<u32>,
}

/// A chunk of bytes. On disk a pad byte follows a payload of odd length; it
/// is not part of `data`.
#[derive(Debug, Clone, PartialEq, Eq)]
pub struct RiffChunkU8 {
    /// The payload.
    pub data: Vec<u8>,
}

impl View for RiffChunkU32 {
    type V = Seq<u32>;

    open spec fn view(&self) -> Seq<u32> {
        self.data@
    }
}

impl View for RiffChunkU8 {
    type V = Seq<u8>;

    open spec fn view(&self) -> Seq<u8> {
        self.data@
    }
}

/// A decoded `ANI` file.
#[derive(Debug, Clone, PartialEq, Eq)]
pub struct AniFile {
    /// The header.
    pub header: AniHeader,
    /// The title (`INAM`), without its terminating zero.
    pub title: Option<Vec<u8>>,
    /// The author (`IART`), without its terminating zero.
    pub author: Option<Vec<u8>>,
    /// The duration of each step, in sixtieths of a second.
    pub rate: Option<RiffChunkU32>,
    /// For each step the index of the frame it shows.
    pub sequence: Option<RiffChunkU32>,
    /// The frames, each one an ICO/CUR container.
    pub ico_frames: Vec<RiffChunkU8>,
}

/// The mathematical value of an [`AniFile`].
pub struct AniFileView {
    pub header: AniHeader,
    pub title: Option<Seq<u8>>,
    pub author: Option<Seq<u8>>,
    pub rate: Option<Seq<u32>>,
    pub sequence: Option<Seq<u32>>,
    pub ico_frames: Seq<Seq<u8>>,
}

impl AniFileView {
    /// What holds of every decoded file: the header counts the frames, every
    /// index of the sequence names a frame, and the rate table has one entry
    /// for each step.
    pub open spec fn consistent(self) -> bool {
        &&& self.header.num_frames == self.ico_frames.len()
        &&& self.sequence matches Some(s) ==> forall|i: int|
            0 <= i < s.len() ==> #[trigger] s[i] < self.header.num_frames
        &&& self.rate matches Some(r) ==> r.len() == self.header.num_steps
    }
}

/// The payloads of a vector of byte chunks.
pub open spec fn frames_view(frames: Seq<RiffChunkU8>) -> Seq<Seq<u8>> {
    Seq::new(frames.len(), |i: int| frames[i]@)
}

/// The bytes of an optional string.
pub open spec fn bytes_view(o: Option<Vec<u8>>) -> Option<Seq<u8>> {
    match o {
        Some(v) => Some(v@),
        None => None,
    }
}

/// The words of an optional chunk.
pub open spec fn words_view(o: Option<RiffChunkU32>) -> Option<Seq<u32>> {
    match o {
        Some(c) => Some(c@),
        None => None,
    }
}

impl View for AniFile {
    type V = AniFileView;

    open spec fn view(&self) -> AniFileView {
        AniFileView {
            header: self.header,
            title: bytes_view(self.title),
            author: bytes_view(self.author),
            rate: words_view(self.rate),
            sequence: words_view(self.sequence),
            ico_frames: frames_view(self.ico_frames@),
        }
    }
}

/// What has been read of a file so far.
pub struct AniParts {
    pub header: Option<AniHeader>,
    pub title: Option<Seq<u8>>,
    pub author: Option<Seq<u8>>,
    pub rate: Option<Seq<u32>>,
    pub sequence: Option<Seq<u32>>,
    pub ico_frames: Seq<Seq<u8>>,
}

/// Nothing read yet.
pub open spec fn no_parts() -> AniParts {
    AniParts {
        header: None,
        title: None,
        author: None,
        rate: None,
        sequence: None,
        ico_frames: Seq::empty(),
    }
}

pub open spec fn tag_riff() -> Seq<u8> {
    seq![0x52u8, 0x49u8, 0x46u8, 0x46u8]
}

pub open spec fn tag_acon() -> Seq<u8> {
    seq![0x41u8, 0x43u8, 0x4fu8, 0x4eu8]
}

pub open spec fn tag_list() -> Seq<u8> {
    seq![0x4cu8, 0x49u8, 0x53u8, 0x54u8]
}

pub open spec fn tag_anih() -> Seq<u8> {
    seq![0x61u8, 0x6eu8, 0x69u8, 0x68u8]
}

pub open spec fn tag_rate() -> Seq<u8> {
    seq![0x72u8, 0x61u8, 0x74u8, 0x65u8]
}

pub open spec fn tag_seq() -> Seq<u8> {
    seq![0x73u8, 0x65u8, 0x71u8, 0x20u8]
}

pub open spec fn tag_info() -> Seq<u8> {
    seq![0x49u8, 0x4eu8, 0x46u8, 0x4fu8]
}

pub open spec fn tag_fram() -> Seq<u8> {
    seq![0x66u8, 0x72u8, 0x61u8, 0x6du8]
}

pub open spec fn tag_icon() -> Seq<u8> {
    seq![0x69u8, 0x63u8, 0x6fu8, 0x6eu8]
}

pub open spec fn tag_inam() -> Seq<u8> {
    seq![0x49u8, 0x4eu8, 0x41u8, 0x4du8]
}

pub open spec fn tag_iart() -> Seq<u8> {
    seq![0x49u8, 0x41u8, 0x52u8, 0x54u8]
}

/// How many bytes lie between `pos` and the end of the blob.
pub open spec fn bytes_left(b: Seq<u8>, pos: int) -> nat {
    if pos < b.len() {
        (b.len() - pos) as nat
    } else {
        0
    }
}

/// The header whose size field stands at `at`, right after the name `anih`.
/// The two size fields are read and tested before the rest.
pub open spec fn spec_read_header(b: Seq<u8>, at: int) -> Result<AniHeader, AniError> {
    if at + 8 > b.len() {
        Err(AniError::TruncatedChunk)
    } else if le_u32(b, at) != HEADER_SIZE || le_u32(b, at + 4) != HEADER_SIZE {
        Err(AniError::BadChunkSize)
    } else if at + 40 > b.len() {
        Err(AniError::TruncatedChunk)
    } else if le_u32(b, at + 36) == 1 {
        Ok(
            AniHeader {
                num_frames: le_u32(b, at + 8),
                num_steps: le_u32(b, at + 12),
                jiffy_rate: le_u32(b, at + 32),
                flags: AniFlags::Unsequenced,
            },
        )
    } else if le_u32(b, at + 36) == 3 {
        Ok(
            AniHeader {
                num_frames: le_u32(b, at + 8),
                num_steps: le_u32(b, at + 12),
                jiffy_rate: le_u32(b, at + 32),
                flags: AniFlags::Sequenced,
            },
        )
    } else {
        Err(AniError::InvalidFlags)
    }
}

/// The chunk of words whose size field stands at `at`, and the position
/// after it. The size counts bytes; a remainder of less than four bytes is
/// not read.
pub open spec fn spec_read_words(b: Seq<u8>, at: int) -> Result<(Seq<u32>, int), AniError> {
    if at + 4 > b.len() {
        Err(AniError::TruncatedChunk)
    } else {
        let n = le_u32(b, at) / 4;
        if at + 4 + 4 * n > b.len() {
            Err(AniError::TruncatedChunk)
        } else {
            Ok((le_words(b, at + 4, n as nat), at + 4 + 4 * n))
        }
    }
}

/// The first position from `at` on that holds a zero byte, or the length of
/// the blob if there is none.
pub open spec fn first_zero(b: Seq<u8>, at: int) -> int
    decreases bytes_left(b, at),
{
    if at < 0 || at >= b.len() {
        b.len() as int
    } else if b[at] == 0 {
        at
    } else {
        first_zero(b, at + 1)
    }
}

/// Where the first zero byte from `at` on stands: not before `at`, not after
/// the end of the blob, and behind nothing but bytes that are not zero.
pub proof fn lemma_first_zero(b: Seq<u8>, at: int)
    requires
        0 <= at <= b.len(),
    ensures
        at <= first_zero(b, at) <= b.len(),
        first_zero(b, at) < b.len() ==> b[first_zero(b, at)] == 0,
        forall|k: int| at <= k < first_zero(b, at) ==> b[k] != 0,
    decreases b.len() - at,
{
    if at < b.len() && b[at] != 0 {
        lemma_first_zero(b, at + 1);
    }
}

#[via_fn]
proof fn spec_parse_info_terminates(body: Seq<u8>, pos: int, parts: AniParts) {
    if 0 <= pos && pos + 8 <= body.len() {
        lemma_first_zero(body, pos + 8);
    }
}

/// The subchunks of an `INFO` list from `pos` on, where `body` is what the
/// list holds after its type: each is `INAM` or `IART`, a size field that is
/// passed over, and a string that ends with a zero byte. Nothing outside the
/// list is looked at: a subchunk or a string that the list does not hold to
/// its end is an error.
pub open spec fn spec_parse_info(body: Seq<u8>, pos: int, parts: AniParts) -> Result<
    AniParts,
    AniError,
>
    decreases bytes_left(body, pos),
    via spec_parse_info_terminates
{
    if pos < 0 || pos >= body.len() {
        Ok(parts)
    } else if pos + 4 > body.len() {
        Err(AniError::TruncatedChunk)
    } else {
        let is_title = tag_at(body, pos) == tag_inam();
        let is_author = tag_at(body, pos) == tag_iart();
        if !is_title && !is_author {
            Err(AniError::UnknownChunk)
        } else if is_title && parts.title is Some {
            Err(AniError::DuplicateChunk)
        } else if is_author && parts.author is Some {
            Err(AniError::DuplicateChunk)
        } else if pos + 8 > body.len() {
            Err(AniError::TruncatedChunk)
        } else {
            let z = first_zero(body, pos + 8);
            if z >= body.len() {
                Err(AniError::TruncatedChunk)
            } else {
                let text = body.subrange(pos + 8, z);
                let next = if is_title {
                    AniParts { title: Some(text), ..parts }
                } else {
                    AniParts { author: Some(text), ..parts }
                };
                spec_parse_info(body, z + 1, next)
            }
        }
    }
}

/// The `icon` subchunks of a `fram` list from `pos` on, added to `frames`,
/// where `body` is what the list holds after its type: each is the name, a
/// size and that many bytes, and a pad byte where the size is odd. Nothing
/// outside the list is looked at: a payload that the list does not hold to
/// its end is an error. Only the pad byte of the last subchunk may be
/// missing.
pub open spec fn spec_parse_frames(body: Seq<u8>, pos: int, frames: Seq<Seq<u8>>) -> Result<
    Seq<Seq<u8>>,
    AniError,
>
    decreases bytes_left(body, pos),
{
    if pos < 0 || pos >= body.len() {
        Ok(frames)
    } else if pos + 4 > body.len() {
        Err(AniError::TruncatedChunk)
    } else if tag_at(body, pos) != tag_icon() {
        Err(AniError::UnknownChunk)
    } else if pos + 8 > body.len() {
        Err(AniError::TruncatedChunk)
    } else {
        let size = le_u32(body, pos + 4);
        if pos + 8 + size > body.len() {
            Err(AniError::TruncatedChunk)
        } else {
            let data = body.subrange(pos + 8, pos + 8 + size);
            spec_parse_frames(body, pos + 8 + size + size % 2, frames.push(data))
        }
    }
}

/// The list whose size field stands at `at`, right after the name `LIST`.
/// Gives what has been read and the position after the list, which is where
/// the list ends by its size field, and one byte later where the size is
/// odd.
pub open spec fn spec_parse_list(b: Seq<u8>, at: int, parts: AniParts) -> Result<
    (AniParts, int),
    AniError,
> {
    if at + 8 > b.len() {
        Err(AniError::TruncatedChunk)
    } else if le_u32(b, at) < 4 {
        Err(AniError::BadChunkSize)
    } else {
        let data_size = le_u32(b, at) - 4;
        let end = at + 8 + data_size;
        let next = end + data_size % 2;
        if data_size > MAX_CHUNK_SIZE {
            Err(AniError::ChunkTooLarge)
        } else if end > b.len() {
            Err(AniError::TruncatedChunk)
        } else if tag_at(b, at + 4) == tag_info() {
            match spec_parse_info(b.subrange(at + 8, end), 0, parts) {
                Err(e) => Err(e),
                Ok(read) => Ok((read, next)),
            }
        } else if tag_at(b, at + 4) == tag_fram() {
            if parts.ico_frames.len() > 0 {
                Err(AniError::DuplicateChunk)
            } else if data_size > MAX_FRAMES_SIZE {
                Err(AniError::ChunkTooLarge)
            } else {
                match spec_parse_frames(b.subrange(at + 8, end), 0, Seq::empty()) {
                    Err(e) => Err(e),
                    Ok(frames) => if frames.len() == 0 {
                        Err(AniError::MissingFrames)
                    } else {
                        Ok((AniParts { ico_frames: frames, ..parts }, next))
                    },
                }
            }
        } else {
            Err(AniError::UnknownChunk)
        }
    }
}

/// The chunk whose name stands at `pos`, added to `parts`, and the position
/// after the chunk.
pub open spec fn spec_chunk(b: Seq<u8>, pos: int, parts: AniParts) -> Result<
    (AniParts, int),
    AniError,
> {
    if pos + 4 > b.len() {
        Err(AniError::TruncatedChunk)
    } else if tag_at(b, pos) == tag_list() {
        spec_parse_list(b, pos + 4, parts)
    } else if tag_at(b, pos) == tag_anih() {
        if parts.header is Some {
            Err(AniError::DuplicateChunk)
        } else {
            match spec_read_header(b, pos + 4) {
                Err(e) => Err(e),
                Ok(h) => Ok((AniParts { header: Some(h), ..parts }, pos + 44)),
            }
        }
    } else if tag_at(b, pos) == tag_rate() {
        if parts.rate is Some {
            Err(AniError::DuplicateChunk)
        } else {
            match spec_read_words(b, pos + 4) {
                Err(e) => Err(e),
                Ok((words, next)) => Ok((AniParts { rate: Some(words), ..parts }, next)),
            }
        }
    } else if tag_at(b, pos) == tag_seq() {
        if parts.sequence is Some {
            Err(AniError::DuplicateChunk)
        } else {
            match spec_read_words(b, pos + 4) {
                Err(e) => Err(e),
                Ok((words, next)) => Ok((AniParts { sequence: Some(words), ..parts }, next)),
            }
        }
    } else {
        Err(AniError::UnknownChunk)
    }
}

/// The chunks from `pos` to the end of the blob, added to `parts`.
pub open spec fn spec_parse_chunks(b: Seq<u8>, pos: int, parts: AniParts) -> Result<
    AniParts,
    AniError,
>
    decreases bytes_left(b, pos),
{
    if pos < 0 || pos >= b.len() {
        Ok(parts)
    } else {
        match spec_chunk(b, pos, parts) {
            Err(e) => Err(e),
            Ok((read, next)) => spec_parse_chunks(b, next, read),
        }
    }
}

/// Whether some index of the sequence names no frame.
pub open spec fn index_out_of_range(sequence: Option<Seq<u32>>, num_frames: u32) -> bool {
    sequence matches Some(s) && exists|i: int| 0 <= i < s.len() && #[trigger] s[i] >= num_frames
}

/// The tests made once the whole blob is read, in this order.
pub open spec fn spec_check_invariants(parts: AniParts) -> Result<AniFileView, AniError> {
    match parts.header {
        None => Err(AniError::MissingHeader),
        Some(header) => {
            if header.num_frames != parts.ico_frames.len() {
                Err(AniError::MissingFrames)
            } else if header.jiffy_rate == 0 && parts.rate is None && parts.ico_frames.len() > 1 {
                Err(AniError::MissingTimings)
            } else if index_out_of_range(parts.sequence, header.num_frames) {
                Err(AniError::IndexOutOfRange)
            } else if parts.rate is Some && parts.rate->0.len() != header.num_steps {
                Err(AniError::BadChunkSize)
            } else {
                Ok(
                    AniFileView {
                        header,
                        title: parts.title,
                        author: parts.author,
                        rate: parts.rate,
                        sequence: parts.sequence,
                        ico_frames: parts.ico_frames,
                    },
                )
            }
        },
    }
}

/// The file that a blob holds, or why it holds none.
///
/// The blob starts with `RIFF`, a size that does not exceed the blob's
/// length, and `ACON`. Chunks follow up to the end of the blob, in any order:
/// `anih`, `rate`, `seq `, and the lists `INFO` and `fram`.
pub open spec fn spec_parse_ani(b: Seq<u8>) -> Result<AniFileView, AniError> {
    if b.len() > MAX_CHUNK_SIZE {
        Err(AniError::ChunkTooLarge)
    } else if b.len() < 4 {
        Err(AniError::TruncatedChunk)
    } else if tag_at(b, 0) != tag_riff() {
        Err(AniError::InvalidMagic)
    } else if b.len() < 8 || le_u32(b, 4) > b.len() || b.len() < 12 {
        Err(AniError::TruncatedChunk)
    } else if tag_at(b, 8) != tag_acon() {
        Err(AniError::InvalidMagic)
    } else {
        match spec_parse_chunks(b, 12, no_parts()) {
            Err(e) => Err(e),
            Ok(parts) => spec_check_invariants(parts),
        }
    }
}


/// What the decoder has read so far.
struct Parts {
    header: Option<AniHeader>,
    title: Option<Vec<u8>>,
    author: Option<Vec<u8>>,
    rate: Option<RiffChunkU32>,
    sequence: Option<RiffChunkU32>,
    ico_frames: Vec<RiffChunkU8>,
}

impl View for Parts {
    type V = AniParts;

    closed spec fn view(&self) -> AniParts {
        AniParts {
            header: self.header,
            title: bytes_view(self.title),
            author: bytes_view(self.author),
            rate: words_view(self.rate),
            sequence: words_view(self.sequence),
            ico_frames: frames_view(self.ico_frames@),
        }
    }
}

/// Copies the bytes `from .. to` of `b`.
fn copy_range(b: &[u8], from: usize, to: usize) -> (r: Vec<u8>)
    requires
        from <= to <= b.len(),
    ensures
        r@ == b@.subrange(from as int, to as int),
{
    slice_to_vec(slice_subrange(b, from, to))
}

/// Reads the header whose size field stands at `at`.
fn read_header(b: &[u8], at: usize) -> (r: Result<AniHeader, AniError>)
    requires
        at <= b.len() <= MAX_CHUNK_SIZE,
    ensures
        r == spec_read_header(b@, at as int),
{
    if b.len() - at < 8 {
        return Err(AniError::TruncatedChunk);
    }
    if read_le_u32(b, at) != HEADER_SIZE || read_le_u32(b, at + 4) != HEADER_SIZE {
        return Err(AniError::BadChunkSize);
    }
    if b.len() - at < 40 {
        return Err(AniError::TruncatedChunk);
    }
    let num_frames = read_le_u32(b, at + 8);
    let num_steps = read_le_u32(b, at + 12);
    let jiffy_rate = read_le_u32(b, at + 32);
    let flags = read_le_u32(b, at + 36);
    if flags == 1 {
        Ok(AniHeader { num_frames, num_steps, jiffy_rate, flags: AniFlags::Unsequenced })
    } else if flags == 3 {
        Ok(AniHeader { num_frames, num_steps, jiffy_rate, flags: AniFlags::Sequenced })
    } else {
        Err(AniError::InvalidFlags)
    }
}

/// Reads the chunk of words whose size field stands at `at`.
fn read_words(b: &[u8], at: usize) -> (r: Result<(RiffChunkU32, usize), AniError>)
    requires
        at <= b.len() <= MAX_CHUNK_SIZE,
    ensures
        r matches Ok((chunk, next)) ==> spec_read_words(b@, at as int) == Ok::<
            (Seq<u32>, int),
            AniError,
        >((chunk@, next as int)) && at < next <= b.len(),
        r matches Err(e) ==> spec_read_words(b@, at as int) == Err::<(Seq<u32>, int), AniError>(
            e,
        ),
{
    if b.len() - at < 4 {
        return Err(AniError::TruncatedChunk);
    }
    let n: u32 = read_le_u32(b, at) / 4;
    let room: usize = (b.len() - at - 4) / 4;
    if n as usize > room {
        return Err(AniError::TruncatedChunk);
    }
    let count: usize = n as usize;
    let mut data: Vec<u32> = Vec::new();
    let mut i: usize = 0;
    while i < count
        invariant
            i <= count,
            at + 4 + 4 * count <= b.len(),
            data@ == le_words(b@, at + 4, i as nat),
        decreases count - i,
    {
        let word = read_le_u32(b, at + 4 + 4 * i);
        data.push(word);
        i += 1;
        assert(data@ =~= le_words(b@, at + 4, i as nat));
    }
    Ok((RiffChunkU32 { data }, at + 4 + 4 * count))
}

/// Finds the first zero byte from `at` on.
fn find_zero(b: &[u8], at: usize) -> (r: usize)
    requires
        at <= b.len(),
    ensures
        r == first_zero(b@, at as int),
        at <= r <= b.len(),
{
    let mut z: usize = at;
    while z < b.len() && b[z] != 0
        invariant
            at <= z <= b.len(),
            first_zero(b@, z as int) == first_zero(b@, at as int),
        decreases b.len() - z,
    {
        z += 1;
    }
    z
}

/// Reads the subchunks of an `INFO` list, of which `body` is what it holds
/// after its type.
#[verifier::loop_isolation(false)]
#[verifier::rlimit(50)]
fn parse_info(body: &[u8], parts: Parts) -> (r: Result<Parts, AniError>)
    requires
        body.len() <= MAX_CHUNK_SIZE,
    ensures
        r matches Ok(read) ==> spec_parse_info(body@, 0, parts@) == Ok::<AniParts, AniError>(
            read@,
        ),
        r matches Err(e) ==> spec_parse_info(body@, 0, parts@) == Err::<AniParts, AniError>(e),
{
    let ghost whole = spec_parse_info(body@, 0, parts@);
    let mut cur = parts;
    let mut pos: usize = 0;
    while pos < body.len()
        invariant
            pos <= body.len(),
            spec_parse_info(body@, pos as int, cur@) == whole,
        decreases body.len() - pos,
    {
        if body.len() - pos < 4 {
            return Err(AniError::TruncatedChunk);
        }
        let is_title = is_tag(body, pos, 0x49, 0x4e, 0x41, 0x4d);
        let is_author = is_tag(body, pos, 0x49, 0x41, 0x52, 0x54);
        if !is_title && !is_author {
            return Err(AniError::UnknownChunk);
        }
        if is_title && cur.title.is_some() {
            return Err(AniError::DuplicateChunk);
        }
        if is_author && cur.author.is_some() {
            return Err(AniError::DuplicateChunk);
        }
        if body.len() - pos < 8 {
            return Err(AniError::TruncatedChunk);
        }
        let z = find_zero(body, pos + 8);
        if z >= body.len() {
            return Err(AniError::TruncatedChunk);
        }
        let text = copy_range(body, pos + 8, z);
        if is_title {
            cur.title = Some(text);
        } else {
            cur.author = Some(text);
        }
        pos = z + 1;
    }
    Ok(cur)
}

/// Reads the `icon` subchunks of a `fram` list, of which `body` is what it
/// holds after its type.
#[verifier::loop_isolation(false)]
fn parse_frames(body: &[u8]) -> (r: Result<Vec<RiffChunkU8>, AniError>)
    requires
        body.len() <= MAX_CHUNK_SIZE,
    ensures
        r matches Ok(frames) ==> spec_parse_frames(body@, 0, Seq::empty()) == Ok::<
            Seq<Seq<u8>>,
            AniError,
        >(frames_view(frames@)),
        r matches Err(e) ==> spec_parse_frames(body@, 0, Seq::empty()) == Err::<
            Seq<Seq<u8>>,
            AniError,
        >(e),
{
    let ghost whole = spec_parse_frames(body@, 0, Seq::empty());
    let mut frames: Vec<RiffChunkU8> = Vec::new();
    let mut pos: usize = 0;
    assert(frames_view(frames@) =~= Seq::<Seq<u8>>::empty());
    while pos < body.len()
        invariant
            pos <= body.len() + 1,
            spec_parse_frames(body@, pos as int, frames_view(frames@)) == whole,
        decreases body.len() + 1 - pos,
    {
        if body.len() - pos < 4 {
            return Err(AniError::TruncatedChunk);
        }
        if !is_tag(body, pos, 0x69, 0x63, 0x6f, 0x6e) {
            return Err(AniError::UnknownChunk);
        }
        if body.len() - pos < 8 {
            return Err(AniError::TruncatedChunk);
        }
        let size: u32 = read_le_u32(body, pos + 4);
        if size as usize > body.len() - pos - 8 {
            return Err(AniError::TruncatedChunk);
        }
        let data = copy_range(body, pos + 8, pos + 8 + size as usize);
        let ghost before = frames_view(frames@);
        frames.push(RiffChunkU8 { data });
        assert(frames_view(frames@) =~= before.push(data@));
        pos = pos + 8 + size as usize + (size % 2) as usize;
    }
    Ok(frames)
}

impl AniFile {
    /// Reads the list whose size field stands at `at`, right after the name
    /// `LIST`: an `INFO` list with title and author, or the list of frames.
    #[verifier::rlimit(50)]
    fn parse_list(b: &[u8], at: usize, parts: Parts) -> (r: Result<(Parts, usize), AniError>)
        requires
            at <= b.len() <= MAX_CHUNK_SIZE,
        ensures
            r matches Ok((read, next)) ==> spec_parse_list(b@, at as int, parts@) == Ok::<
                (AniParts, int),
                AniError,
            >((read@, next as int)) && at < next <= b.len() + 1,
            r matches Err(e) ==> spec_parse_list(b@, at as int, parts@) == Err::<
                (AniParts, int),
                AniError,
            >(e),
    {
        if b.len() - at < 8 {
            return Err(AniError::TruncatedChunk);
        }
        let list_size: u32 = read_le_u32(b, at);
        if list_size < 4 {
            return Err(AniError::BadChunkSize);
        }
        let data_size: u32 = list_size - 4;
        if data_size as usize > MAX_CHUNK_SIZE {
            return Err(AniError::ChunkTooLarge);
        }
        if data_size as usize > b.len() - at - 8 {
            return Err(AniError::TruncatedChunk);
        }
        let end: usize = at + 8 + data_size as usize;
        let next: usize = end + (data_size % 2) as usize;
        let body = slice_subrange(b, at + 8, end);
        if is_tag(b, at + 4, 0x49, 0x4e, 0x46, 0x4f) {
            match parse_info(body, parts) {
                Err(e) => Err(e),
                Ok(read) => Ok((read, next)),
            }
        } else if is_tag(b, at + 4, 0x66, 0x72, 0x61, 0x6d) {
            if parts.ico_frames.len() > 0 {
                return Err(AniError::DuplicateChunk);
            }
            if data_size as usize > MAX_FRAMES_SIZE {
                return Err(AniError::ChunkTooLarge);
            }
            match parse_frames(body) {
                Err(e) => Err(e),
                Ok(frames) => {
                    if frames.len() == 0 {
                        return Err(AniError::MissingFrames);
                    }
                    let mut read = parts;
                    read.ico_frames = frames;
                    Ok((read, next))
                },
            }
        } else {
            Err(AniError::UnknownChunk)
        }
    }

    /// Makes the tests that need the whole file.
    #[verifier::loop_isolation(false)]
    #[verifier::rlimit(50)]
    fn check_invariants(parts: Parts) -> (r: Result<AniFile, AniError>)
        ensures
            r matches Ok(file) ==> spec_check_invariants(parts@) == Ok::<AniFileView, AniError>(
                file@,
            ),
            r matches Err(e) ==> spec_check_invariants(parts@) == Err::<AniFileView, AniError>(e),
    {
        let header = match parts.header {
            None => { return Err(AniError::MissingHeader); },
            Some(h) => h,
        };
        if header.num_frames as usize != parts.ico_frames.len() {
            return Err(AniError::MissingFrames);
        }
        if header.jiffy_rate == 0 && parts.rate.is_none() && parts.ico_frames.len() > 1 {
            return Err(AniError::MissingTimings);
        }
        if let Some(seq) = &parts.sequence {
            let mut i: usize = 0;
            while i < seq.data.len()
                invariant
                    i <= seq.data.len(),
                    forall|k: int| 0 <= k < i ==> #[trigger] seq.data@[k] < header.num_frames,
                decreases seq.data.len() - i,
            {
                if seq.data[i] >= header.num_frames {
                    return Err(AniError::IndexOutOfRange);
                }
                i += 1;
            }
        }
        if let Some(rate) = &parts.rate {
            if rate.data.len() != header.num_steps as usize {
                return Err(AniError::BadChunkSize);
            }
        }
        Ok(
            AniFile {
                header,
                title: parts.title,
                author: parts.author,
                rate: parts.rate,
                sequence: parts.sequence,
                ico_frames: parts.ico_frames,
            },
        )
    }

    /// Decodes an `ANI` file.
    ///
    /// The chunks are taken in the order in which they stand. A chunk that
    /// may occur once and occurs twice, a chunk of unknown name and a chunk
    /// that ends after the blob are refused, and so is a file whose header,
    /// sequence, rate table and frames do not fit together.
    #[verifier::rlimit(50)]
    pub fn from_blob(ani_blob: &[u8]) -> (r: Result<AniFile, AniError>)
        ensures
            r matches Ok(file) ==> spec_parse_ani(ani_blob@) == Ok::<AniFileView, AniError>(file@)
                && file@.consistent(),
            r matches Err(e) ==> spec_parse_ani(ani_blob@) == Err::<AniFileView, AniError>(e),
    {
        let b = ani_blob;
        if b.len() > MAX_CHUNK_SIZE {
            return Err(AniError::ChunkTooLarge);
        }
        if b.len() < 4 {
            return Err(AniError::TruncatedChunk);
        }
        if !is_tag(b, 0, 0x52, 0x49, 0x46, 0x46) {
            return Err(AniError::InvalidMagic);
        }
        if b.len() < 8 {
            return Err(AniError::TruncatedChunk);
        }
        let riff_size: u32 = read_le_u32(b, 4);
        if riff_size as usize > b.len() || b.len() < 12 {
            return Err(AniError::TruncatedChunk);
        }
        if !is_tag(b, 8, 0x41, 0x43, 0x4f, 0x4e) {
            return Err(AniError::InvalidMagic);
        }
        let mut parts = Parts {
            header: None,
            title: None,
            author: None,
            rate: None,
            sequence: None,
            ico_frames: Vec::new(),
        };
        assert(parts@ == no_parts()) by {
            assert(frames_view(parts.ico_frames@) =~= Seq::<Seq<u8>>::empty());
        }
        let ghost whole = spec_parse_chunks(b@, 12, no_parts());
        let mut pos: usize = 12;
        while pos < b.len()
            invariant
                12 <= pos <= b.len() + 1,
                b.len() <= MAX_CHUNK_SIZE,
                spec_parse_chunks(b@, pos as int, parts@) == whole,
                whole == spec_parse_chunks(b@, 12, no_parts()),
                b@ == ani_blob@,
                spec_parse_ani(ani_blob@) == match whole {
                    Err(e) => Err(e),
                    Ok(p) => spec_check_invariants(p),
                },
            decreases b.len() + 1 - pos,
        {
            if b.len() - pos < 4 {
                return Err(AniError::TruncatedChunk);
            }
            if is_tag(b, pos, 0x4c, 0x49, 0x53, 0x54) {
                match AniFile::parse_list(b, pos + 4, parts) {
                    Err(e) => { return Err(e); },
                    Ok((read, next)) => {
                        parts = read;
                        pos = next;
                    },
                }
            } else if is_tag(b, pos, 0x61, 0x6e, 0x69, 0x68) {
                if parts.header.is_some() {
                    return Err(AniError::DuplicateChunk);
                }
                match read_header(b, pos + 4) {
                    Err(e) => { return Err(e); },
                    Ok(h) => {
                        parts.header = Some(h);
                        pos = pos + 44;
                    },
                }
            } else if is_tag(b, pos, 0x72, 0x61, 0x74, 0x65) {
                if parts.rate.is_some() {
                    return Err(AniError::DuplicateChunk);
                }
                match read_words(b, pos + 4) {
                    Err(e) => { return Err(e); },
                    Ok((chunk, next)) => {
                        parts.rate = Some(chunk);
                        pos = next;
                    },
                }
            } else if is_tag(b, pos, 0x73, 0x65, 0x71, 0x20) {
                if parts.sequence.is_some() {
                    return Err(AniError::DuplicateChunk);
                }
                match read_words(b, pos + 4) {
                    Err(e) => { return Err(e); },
                    Ok((chunk, next)) => {
                        parts.sequence = Some(chunk);
                        pos = next;
                    },
                }
            } else {
                return Err(AniError::UnknownChunk);
            }
        }
        AniFile::check_invariants(parts)
    }
}


/// What is odd about a file that is accepted all the same.
#[derive(Debug, Clone, Copy, PartialEq, Eq)]
pub enum AniWarning {
    /// The flags promise no sequence, yet there is one, and it does not
    /// play the frames in their order. The sequence is followed.
    NonLinearSequence,
    /// The flags promise a sequence, and there is none.
    MissingSequence,
    /// The rate table has not as many entries as there are frames.
    RateLength,
}

/// Whether a sequence of the length `steps` plays the frames in their
/// order: 0, 1, 2 and so on.
pub open spec fn is_linear(sequence: Seq<u32>, steps: u32) -> bool {
    &&& sequence.len() == steps
    &&& forall|i: int| 0 <= i < sequence.len() ==> #[trigger] sequence[i] == i
}

/// The warnings that a file gives rise to, in this order.
pub open spec fn spec_warnings(file: AniFileView) -> Seq<AniWarning> {
    (if file.header.flags == AniFlags::Unsequenced && file.sequence is Some && !is_linear(
        file.sequence->0,
        file.header.num_steps,
    ) {
        seq![AniWarning::NonLinearSequence]
    } else {
        Seq::empty()
    }) + (if file.header.flags == AniFlags::Sequenced && file.sequence is None {
        seq![AniWarning::MissingSequence]
    } else {
        Seq::empty()
    }) + (if file.rate is Some && file.rate->0.len() != file.header.num_frames {
        seq![AniWarning::RateLength]
    } else {
        Seq::empty()
    })
}

/// Tells whether a sequence plays the frames in their order.
fn linear(sequence: &[u32], steps: u32) -> (r: bool)
    ensures
        r == is_linear(sequence@, steps),
{
    if sequence.len() != steps as usize {
        return false;
    }
    let mut i: usize = 0;
    while i < sequence.len()
        invariant
            i <= sequence.len() == steps,
            forall|k: int| 0 <= k < i ==> #[trigger] sequence@[k] == k,
        decreases sequence.len() - i,
    {
        if sequence[i] != i as u32 {
            return false;
        }
        i += 1;
    }
    true
}

impl AniFile {
    /// What is odd about the file, though it is accepted.
    pub fn warnings(&self) -> (r: Vec<AniWarning>)
        ensures
            r@ == spec_warnings(self@),
    {
        let mut found: Vec<AniWarning> = Vec::new();
        let unsequenced = match self.header.flags {
            AniFlags::Unsequenced => true,
            AniFlags::Sequenced => false,
        };
        match &self.sequence {
            Some(s) => {
                if unsequenced && !linear(s.data.as_slice(), self.header.num_steps) {
                    found.push(AniWarning::NonLinearSequence);
                }
            },
            None => {
                if !unsequenced {
                    found.push(AniWarning::MissingSequence);
                }
            },
        }
        if let Some(rate) = &self.rate {
            if rate.data.len() != self.header.num_frames as usize {
                found.push(AniWarning::RateLength);
            }
        }
        assert(found@ =~= spec_warnings(self@));
        found
    }
}

} // verus!
