//! The order of the chunks of an `ANI` file does not matter: what a chunk
//! adds depends on its own bytes alone, two neighbouring chunks may change
//! places, and so may the chunks of a file be put into any order.

use crate::bytes::{le_u32, le_words, tag_at};
use crate::formats::ani::{
    AniError, AniParts, bytes_left, first_zero, lemma_first_zero, no_parts, spec_chunk,
    spec_parse_ani, spec_parse_chunks, spec_parse_info, tag_anih, tag_iart, tag_inam, tag_info,
    tag_list,
};
use vstd::prelude::*;

verus! {

/// `a` with what `d` holds put in the place of what `a` holds.
pub open spec fn merge(a: AniParts, d: AniParts) -> AniParts {
    AniParts {
        header: if d.header is Some {
            d.header
        } else {
            a.header
        },
        title: if d.title is Some {
            d.title
        } else {
            a.title
        },
        author: if d.author is Some {
            d.author
        } else {
            a.author
        },
        rate: if d.rate is Some {
            d.rate
        } else {
            a.rate
        },
        sequence: if d.sequence is Some {
            d.sequence
        } else {
            a.sequence
        },
        ico_frames: if d.ico_frames.len() > 0 {
            d.ico_frames
        } else {
            a.ico_frames
        },
    }
}

/// Whether `a` and `d` both hold one thing.
pub open spec fn clash(a: AniParts, d: AniParts) -> bool {
    ||| a.header is Some && d.header is Some
    ||| a.title is Some && d.title is Some
    ||| a.author is Some && d.author is Some
    ||| a.rate is Some && d.rate is Some
    ||| a.sequence is Some && d.sequence is Some
    ||| a.ico_frames.len() > 0 && d.ico_frames.len() > 0
}

/// Whether `d2` holds what `d` holds, and differs from it in title and
/// author at most.
pub open spec fn grown(d: AniParts, d2: AniParts) -> bool {
    &&& d2.header == d.header
    &&& d2.rate == d.rate
    &&& d2.sequence == d.sequence
    &&& d2.ico_frames == d.ico_frames
    &&& d.title is Some ==> d2.title == d.title
    &&& d.author is Some ==> d2.author == d.author
}

/// The subchunks of an `INFO` list add to what was read before what they
/// add to nothing, and are refused where they would add what is there.
#[verifier::rlimit(40)]
pub proof fn lemma_info_delta(body: Seq<u8>, pos: int, a: AniParts, d: AniParts)
    requires
        0 <= pos,
        !clash(a, d),
    ensures
        match spec_parse_info(body, pos, d) {
            Err(_) => spec_parse_info(body, pos, merge(a, d)) is Err,
            Ok(d2) => grown(d, d2) && if clash(a, d2) {
                spec_parse_info(body, pos, merge(a, d)) is Err
            } else {
                spec_parse_info(body, pos, merge(a, d)) == Ok::<AniParts, AniError>(merge(a, d2))
            },
        },
    decreases bytes_left(body, pos),
{
    if pos < body.len() && pos + 8 <= body.len() {
        let is_title = tag_at(body, pos) == tag_inam();
        let is_author = tag_at(body, pos) == tag_iart();
        lemma_first_zero(body, pos + 8);
        let z = first_zero(body, pos + 8);
        if z < body.len() {
            let text = body.subrange(pos + 8, z);
            if is_title && d.title is None {
                let d1 = AniParts { title: Some(text), ..d };
                if a.title is None {
                    assert(merge(a, d1) == (AniParts { title: Some(text), ..merge(a, d) }));
                    lemma_info_delta(body, z + 1, a, d1);
                } else {
                    lemma_info_grows(body, z + 1, d1);
                }
            } else if !is_title && is_author && d.author is None {
                let d1 = AniParts { author: Some(text), ..d };
                if a.author is None {
                    assert(merge(a, d1) == (AniParts { author: Some(text), ..merge(a, d) }));
                    lemma_info_delta(body, z + 1, a, d1);
                } else {
                    lemma_info_grows(body, z + 1, d1);
                }
            }
        }
    }
}

/// The subchunks of an `INFO` list keep what was read before.
pub proof fn lemma_info_grows(body: Seq<u8>, pos: int, d: AniParts)
    requires
        0 <= pos,
    ensures
        spec_parse_info(body, pos, d) matches Ok(d2) ==> grown(d, d2),
    decreases bytes_left(body, pos),
{
    if pos < body.len() && pos + 8 <= body.len() {
        let is_title = tag_at(body, pos) == tag_inam();
        let is_author = tag_at(body, pos) == tag_iart();
        lemma_first_zero(body, pos + 8);
        let z = first_zero(body, pos + 8);
        if z < body.len() {
            let text = body.subrange(pos + 8, z);
            if is_title && d.title is None {
                lemma_info_grows(body, z + 1, AniParts { title: Some(text), ..d });
            } else if !is_title && is_author && d.author is None {
                lemma_info_grows(body, z + 1, AniParts { author: Some(text), ..d });
            }
        }
    }
}

/// Law: a chunk adds to what was read before what it adds to nothing, and
/// is refused where it would add what is there.
#[verifier::rlimit(40)]
pub proof fn lemma_chunk_delta(b: Seq<u8>, pos: int, parts: AniParts)
    requires
        0 <= pos,
    ensures
        match spec_chunk(b, pos, no_parts()) {
            Err(_) => spec_chunk(b, pos, parts) is Err,
            Ok((d, next)) => next > pos && if clash(parts, d) {
                spec_chunk(b, pos, parts) is Err
            } else {
                spec_chunk(b, pos, parts) == Ok::<(AniParts, int), AniError>(
                    (merge(parts, d), next),
                )
            },
        },
{
    assert(merge(parts, no_parts()) == parts);
    if pos + 4 <= b.len() && tag_at(b, pos) == tag_list() {
        let at = pos + 4;
        if at + 8 <= b.len() && le_u32(b, at) >= 4 {
            let data_size = le_u32(b, at) - 4;
            let end = at + 8 + data_size;
            if end <= b.len() && tag_at(b, at + 4) == tag_info() {
                lemma_info_delta(b.subrange(at + 8, end), 0, parts, no_parts());
            }
        }
    }
}

/// Two windows that are alike hold the same byte at the same place.
pub proof fn lemma_window(b1: Seq<u8>, from1: int, b2: Seq<u8>, from2: int, n: int, k: int)
    requires
        0 <= from1,
        0 <= from2,
        from1 + n <= b1.len(),
        from2 + n <= b2.len(),
        b1.subrange(from1, from1 + n) == b2.subrange(from2, from2 + n),
        0 <= k < n,
    ensures
        b1[from1 + k] == b2[from2 + k],
{
    assert(b1.subrange(from1, from1 + n)[k] == b1[from1 + k]);
    assert(b2.subrange(from2, from2 + n)[k] == b2[from2 + k]);
}

/// Two windows that are alike hold the same word at the same place.
pub proof fn lemma_window_word(b1: Seq<u8>, from1: int, b2: Seq<u8>, from2: int, n: int, k: int)
    requires
        0 <= from1,
        0 <= from2,
        from1 + n <= b1.len(),
        from2 + n <= b2.len(),
        b1.subrange(from1, from1 + n) == b2.subrange(from2, from2 + n),
        0 <= k,
        k + 4 <= n,
    ensures
        le_u32(b1, from1 + k) == le_u32(b2, from2 + k),
        tag_at(b1, from1 + k) == tag_at(b2, from2 + k),
{
    lemma_window(b1, from1, b2, from2, n, k);
    lemma_window(b1, from1, b2, from2, n, k + 1);
    lemma_window(b1, from1, b2, from2, n, k + 2);
    lemma_window(b1, from1, b2, from2, n, k + 3);
    assert(tag_at(b1, from1 + k) =~= tag_at(b2, from2 + k));
}

/// Two windows that are alike hold the same bytes between the same places.
pub proof fn lemma_window_piece(
    b1: Seq<u8>,
    from1: int,
    b2: Seq<u8>,
    from2: int,
    n: int,
    from: int,
    to: int,
)
    requires
        0 <= from1,
        0 <= from2,
        from1 + n <= b1.len(),
        from2 + n <= b2.len(),
        b1.subrange(from1, from1 + n) == b2.subrange(from2, from2 + n),
        0 <= from <= to <= n,
    ensures
        b1.subrange(from1 + from, from1 + to) == b2.subrange(from2 + from, from2 + to),
{
    let x = b1.subrange(from1 + from, from1 + to);
    let y = b2.subrange(from2 + from, from2 + to);
    assert forall|i: int| 0 <= i < to - from implies #[trigger] x[i] == y[i] by {
        lemma_window(b1, from1, b2, from2, n, from + i);
    }
    assert(x =~= y);
}

/// A chunk that stands whole in a window of `n` bytes adds the same,
/// wherever the window stands.
#[verifier::rlimit(40)]
pub proof fn lemma_chunk_moves(b1: Seq<u8>, from1: int, b2: Seq<u8>, from2: int, n: int)
    requires
        0 <= from1,
        0 <= from2,
        from1 + n <= b1.len(),
        from2 + n <= b2.len(),
        b1.subrange(from1, from1 + n) == b2.subrange(from2, from2 + n),
        spec_chunk(b1, from1, no_parts()) matches Ok((_, next)) && next <= from1 + n,
    ensures
        spec_chunk(b2, from2, no_parts()) == Ok::<(AniParts, int), AniError>(
            (spec_chunk(b1, from1, no_parts())->Ok_0.0, spec_chunk(b1, from1, no_parts())->Ok_0.1 - from1 + from2),
        ),
{
    lemma_window_word(b1, from1, b2, from2, n, 0);
    lemma_window_word(b1, from1, b2, from2, n, 4);
    let a1 = from1 + 4;
    let a2 = from2 + 4;
    if tag_at(b1, from1) == tag_list() {
        let data_size = le_u32(b1, a1) - 4;
        lemma_window_word(b1, from1, b2, from2, n, 8);
        lemma_window_piece(b1, from1, b2, from2, n, 12, 12 + data_size);
    } else if tag_at(b1, from1) == tag_anih() {
        lemma_window_word(b1, from1, b2, from2, n, 8);
        lemma_window_word(b1, from1, b2, from2, n, 12);
        lemma_window_word(b1, from1, b2, from2, n, 16);
        lemma_window_word(b1, from1, b2, from2, n, 36);
        lemma_window_word(b1, from1, b2, from2, n, 40);
    } else {
        let count = le_u32(b1, a1) / 4;
        let w1 = le_words(b1, a1 + 4, count as nat);
        let w2 = le_words(b2, a2 + 4, count as nat);
        assert forall|i: int| 0 <= i < count implies #[trigger] w1[i] == w2[i] by {
            lemma_window_word(b1, from1, b2, from2, n, 8 + 4 * i);
        }
        assert(w1 =~= w2);
    }
}

/// Two blobs that are alike from `pos` on hold the same chunk at `pos`.
#[verifier::rlimit(40)]
pub proof fn lemma_chunk_same(b1: Seq<u8>, b2: Seq<u8>, pos: int, parts: AniParts)
    requires
        0 <= pos,
        b1.len() == b2.len(),
        forall|i: int| pos <= i < b1.len() ==> b1[i] == b2[i],
    ensures
        spec_chunk(b1, pos, parts) == spec_chunk(b2, pos, parts),
{
    if pos + 4 <= b1.len() {
        assert(tag_at(b1, pos) =~= tag_at(b2, pos));
        let at = pos + 4;
        if tag_at(b1, pos) == tag_list() {
            if at + 8 <= b1.len() {
                assert(tag_at(b1, at + 4) =~= tag_at(b2, at + 4));
                if le_u32(b1, at) >= 4 {
                    let end = at + 8 + (le_u32(b1, at) - 4);
                    if end <= b1.len() {
                        assert(b1.subrange(at + 8, end) =~= b2.subrange(at + 8, end));
                    }
                }
            }
        } else if tag_at(b1, pos) == tag_anih() {
        } else if at + 4 <= b1.len() {
            let count = le_u32(b1, at) / 4;
            if at + 4 + 4 * count <= b1.len() {
                assert(le_words(b1, at + 4, count as nat) =~= le_words(b2, at + 4, count as nat));
            }
        }
    }
}

/// Two blobs that are alike from `pos` on hold the same chunks from `pos`
/// on.
#[verifier::rlimit(40)]
pub proof fn lemma_tail_same(b1: Seq<u8>, b2: Seq<u8>, pos: int, parts: AniParts)
    requires
        0 <= pos,
        b1.len() == b2.len(),
        forall|i: int| pos <= i < b1.len() ==> b1[i] == b2[i],
    ensures
        spec_parse_chunks(b1, pos, parts) == spec_parse_chunks(b2, pos, parts),
    decreases bytes_left(b1, pos),
{
    if pos < b1.len() {
        lemma_chunk_same(b1, b2, pos, parts);
        lemma_chunk_delta(b1, pos, parts);
        match spec_chunk(b1, pos, parts) {
            Err(_) => {},
            Ok((read, next)) => {
                lemma_tail_same(b1, b2, next, read);
            },
        }
    }
}

/// Law: two neighbouring chunks may change places. Let the blobs `b1` and
/// `b2` be alike but for two whole chunks of `n1` and `n2` bytes that stand
/// at `p` one after the other, in this order in `b1` and in the other order
/// in `b2`. If `b1` is accepted from `p` on, whatever was read before, then
/// `b2` is accepted too, with the same parts.
#[verifier::rlimit(40)]
pub proof fn lemma_neighbours_change_places(
    b1: Seq<u8>,
    b2: Seq<u8>,
    p: int,
    n1: int,
    n2: int,
    parts: AniParts,
)
    requires
        0 <= p,
        b1.len() == b2.len(),
        p + n1 + n2 <= b1.len(),
        spec_chunk(b1, p, no_parts()) matches Ok((_, next)) && next == p + n1,
        spec_chunk(b1, p + n1, no_parts()) matches Ok((_, next)) && next == p + n1 + n2,
        b1.subrange(p, p + n1) == b2.subrange(p + n2, p + n2 + n1),
        b1.subrange(p + n1, p + n1 + n2) == b2.subrange(p, p + n2),
        forall|i: int| p + n1 + n2 <= i < b1.len() ==> b1[i] == b2[i],
        spec_parse_chunks(b1, p, parts) is Ok,
    ensures
        spec_parse_chunks(b2, p, parts) == spec_parse_chunks(b1, p, parts),
{
    let dx = spec_chunk(b1, p, no_parts())->Ok_0.0;
    let dy = spec_chunk(b1, p + n1, no_parts())->Ok_0.0;
    lemma_chunk_delta(b1, p, no_parts());
    lemma_chunk_delta(b1, p + n1, no_parts());
    assert(n1 > 0 && n2 > 0);
    // In `b1`: first the one chunk, then the other.
    lemma_chunk_delta(b1, p, parts);
    let mid1 = merge(parts, dx);
    assert(spec_chunk(b1, p, parts) == Ok::<(AniParts, int), AniError>((mid1, p + n1)));
    lemma_chunk_delta(b1, p + n1, mid1);
    let end1 = merge(mid1, dy);
    assert(spec_chunk(b1, p + n1, mid1) == Ok::<(AniParts, int), AniError>((end1, p + n1 + n2)));
    assert(spec_parse_chunks(b1, p, parts) == spec_parse_chunks(b1, p + n1 + n2, end1)) by {
        assert(spec_parse_chunks(b1, p, parts) == spec_parse_chunks(b1, p + n1, mid1));
    }
    // In `b2`: the chunks are the same, each in the place of the other.
    lemma_chunk_moves(b1, p, b2, p + n2, n1);
    lemma_chunk_moves(b1, p + n1, b2, p, n2);
    lemma_chunk_delta(b2, p, parts);
    let mid2 = merge(parts, dy);
    assert(spec_chunk(b2, p, parts) == Ok::<(AniParts, int), AniError>((mid2, p + n2)));
    lemma_chunk_delta(b2, p + n2, mid2);
    let end2 = merge(mid2, dx);
    assert(spec_chunk(b2, p + n2, mid2) == Ok::<(AniParts, int), AniError>((end2, p + n1 + n2)));
    assert(end1 == end2);
    assert(spec_parse_chunks(b2, p, parts) == spec_parse_chunks(b2, p + n1 + n2, end2)) by {
        assert(spec_parse_chunks(b2, p, parts) == spec_parse_chunks(b2, p + n2, mid2));
    }
    lemma_tail_same(b1, b2, p + n1 + n2, end1);
}


/// How far it is from `pos` to `p`; nothing where `pos` is behind `p`.
pub open spec fn gap(pos: int, p: int) -> nat {
    if pos <= p {
        (p - pos) as nat
    } else {
        0
    }
}

/// What has been read when the chunks from `pos` on are read up to the
/// position `p`, added to `parts`; `None` where a chunk is refused before
/// `p` or no chunk ends at `p`.
pub open spec fn spec_chunks_upto(b: Seq<u8>, pos: int, p: int, parts: AniParts) -> Option<
    AniParts,
>
    decreases gap(pos, p),
    via spec_chunks_upto_terminates
{
    if pos == p {
        Some(parts)
    } else if pos < 0 || pos > p || pos >= b.len() {
        None
    } else {
        match spec_chunk(b, pos, parts) {
            Err(_) => None,
            Ok((read, next)) => spec_chunks_upto(b, next, p, read),
        }
    }
}

#[via_fn]
proof fn spec_chunks_upto_terminates(b: Seq<u8>, pos: int, p: int, parts: AniParts) {
    if 0 <= pos {
        lemma_chunk_delta(b, pos, parts);
    }
}

/// Reading up to a position where a chunk ends, and on from there, is
/// reading all.
pub proof fn lemma_chunks_split(b: Seq<u8>, pos: int, p: int, parts: AniParts)
    requires
        0 <= pos,
        spec_chunks_upto(b, pos, p, parts) is Some,
    ensures
        spec_parse_chunks(b, pos, parts) == spec_parse_chunks(
            b,
            p,
            spec_chunks_upto(b, pos, p, parts)->0,
        ),
    decreases gap(pos, p),
{
    if pos != p {
        lemma_chunk_delta(b, pos, parts);
        match spec_chunk(b, pos, parts) {
            Err(_) => {},
            Ok((read, next)) => {
                lemma_chunks_split(b, next, p, read);
            },
        }
    }
}

/// Two blobs that are alike between `pos` and `p` hold the same chunks
/// there.
#[verifier::rlimit(40)]
pub proof fn lemma_prefix_same(b1: Seq<u8>, b2: Seq<u8>, pos: int, p: int, parts: AniParts)
    requires
        0 <= pos <= p,
        p <= b1.len(),
        p <= b2.len(),
        b1.subrange(pos, p) == b2.subrange(pos, p),
        spec_chunks_upto(b1, pos, p, parts) is Some,
    ensures
        spec_chunks_upto(b2, pos, p, parts) == spec_chunks_upto(b1, pos, p, parts),
    decreases p - pos,
{
    if pos != p {
        lemma_chunk_delta(b1, pos, parts);
        lemma_chunk_delta(b2, pos, parts);
        match spec_chunk(b1, pos, parts) {
            Err(_) => {},
            Ok((read, next)) => {
                if next <= p {
                    lemma_chunk_moves(b1, pos, b2, pos, p - pos);
                    lemma_window_piece(b1, pos, b2, pos, p - pos, next - pos, p - pos);
                    lemma_prefix_same(b1, b2, next, p, read);
                }
            },
        }
    }
}

/// Law: the order of two neighbouring chunks does not matter to what a file
/// is. Let the blobs `b1` and `b2` be alike but for two whole chunks of `n1`
/// and `n2` bytes that stand one after the other at `p`, where a chunk of
/// `b1` ends, in this order in `b1` and in the other order in `b2`. If `b1`
/// is accepted, then `b2` is accepted and is the same file.
#[verifier::rlimit(40)]
pub proof fn lemma_order_of_chunks(b1: Seq<u8>, b2: Seq<u8>, p: int, n1: int, n2: int)
    requires
        12 <= p,
        b1.len() == b2.len(),
        p + n1 + n2 <= b1.len(),
        b1.subrange(0, p) == b2.subrange(0, p),
        spec_chunks_upto(b1, 12, p, no_parts()) is Some,
        spec_chunk(b1, p, no_parts()) matches Ok((_, next)) && next == p + n1,
        spec_chunk(b1, p + n1, no_parts()) matches Ok((_, next)) && next == p + n1 + n2,
        b1.subrange(p, p + n1) == b2.subrange(p + n2, p + n2 + n1),
        b1.subrange(p + n1, p + n1 + n2) == b2.subrange(p, p + n2),
        forall|i: int| p + n1 + n2 <= i < b1.len() ==> b1[i] == b2[i],
        spec_parse_ani(b1) is Ok,
    ensures
        spec_parse_ani(b2) == spec_parse_ani(b1),
{
    lemma_window_word(b1, 0, b2, 0, p, 0);
    lemma_window_word(b1, 0, b2, 0, p, 4);
    lemma_window_word(b1, 0, b2, 0, p, 8);
    lemma_window_piece(b1, 0, b2, 0, p, 12, p);
    let mid = spec_chunks_upto(b1, 12, p, no_parts())->0;
    lemma_prefix_same(b1, b2, 12, p, no_parts());
    lemma_chunks_split(b1, 12, p, no_parts());
    lemma_chunks_split(b2, 12, p, no_parts());
    lemma_neighbours_change_places(b1, b2, p, n1, n2, mid);
}


/// The chunks of `chunks` laid end to end.
pub open spec fn concat(chunks: Seq<Seq<u8>>) -> Seq<u8>
    decreases chunks.len(),
{
    if chunks.len() == 0 {
        Seq::empty()
    } else {
        chunks[0] + concat(chunks.drop_first())
    }
}

/// Whether the bytes `c` are one chunk from their first byte to their last,
/// pad byte included.
pub open spec fn whole_chunk(c: Seq<u8>) -> bool {
    spec_chunk(c, 0, no_parts()) matches Ok((_, next)) && next == c.len()
}

/// Whether every one of `chunks` is a whole chunk.
pub open spec fn whole_chunks(chunks: Seq<Seq<u8>>) -> bool {
    forall|i: int| 0 <= i < chunks.len() ==> whole_chunk(#[trigger] chunks[i])
}

/// What a whole chunk adds to nothing.
pub open spec fn chunk_adds(c: Seq<u8>) -> AniParts {
    spec_chunk(c, 0, no_parts())->Ok_0.0
}

/// What the chunks add to `parts`, one after the other; `None` where one of
/// them would add what is there.
pub open spec fn all_add(chunks: Seq<Seq<u8>>, parts: AniParts) -> Option<AniParts>
    decreases chunks.len(),
{
    if chunks.len() == 0 {
        Some(parts)
    } else if clash(parts, chunk_adds(chunks[0])) {
        None
    } else {
        all_add(chunks.drop_first(), merge(parts, chunk_adds(chunks[0])))
    }
}

/// `chunks` with the chunks at `k` and `k + 1` in each other's place.
pub open spec fn exchange(chunks: Seq<Seq<u8>>, k: int) -> Seq<Seq<u8>> {
    chunks.update(k, chunks[k + 1]).update(k + 1, chunks[k])
}

/// `chunks` after the exchanges `at`, made one after the other: each
/// exchanges the chunk at the place it names with the next.
pub open spec fn exchange_all(chunks: Seq<Seq<u8>>, at: Seq<int>) -> Seq<Seq<u8>>
    decreases at.len(),
{
    if at.len() == 0 {
        chunks
    } else {
        exchange_all(exchange(chunks, at[0]), at.drop_first())
    }
}

/// Whether every exchange of `at` names a place that has a next one among
/// `n` chunks.
pub open spec fn exchanges_fit(at: Seq<int>, n: nat) -> bool {
    forall|i: int| 0 <= i < at.len() ==> 0 <= #[trigger] at[i] < n - 1
}

/// Reading whole chunks that stand end to end behind `before` is adding
/// what each adds.
#[verifier::rlimit(50)]
pub proof fn lemma_reading_is_adding(before: Seq<u8>, chunks: Seq<Seq<u8>>, parts: AniParts)
    requires
        whole_chunks(chunks),
    ensures
        match all_add(chunks, parts) {
            Some(read) => spec_parse_chunks(before + concat(chunks), before.len() as int, parts)
                == Ok::<AniParts, AniError>(read),
            None => spec_parse_chunks(before + concat(chunks), before.len() as int, parts) is Err,
        },
    decreases chunks.len(),
{
    let blob = before + concat(chunks);
    let pos = before.len() as int;
    if chunks.len() == 0 {
        assert(blob.len() == pos);
    } else {
        let first = chunks[0];
        let rest = chunks.drop_first();
        assert(whole_chunk(first));
        lemma_chunk_delta(first, 0, no_parts());
        assert(first.len() > 0);
        assert(blob.subrange(pos, pos + first.len()) =~= first.subrange(0, first.len() as int));
        lemma_chunk_moves(first, 0, blob, pos, first.len() as int);
        lemma_chunk_delta(blob, pos, parts);
        assert(blob =~= (before + first) + concat(rest));
        assert(whole_chunks(rest)) by {
            assert forall|i: int| 0 <= i < rest.len() implies whole_chunk(#[trigger] rest[i]) by {
                assert(rest[i] == chunks[i + 1]);
            }
        }
        if !clash(parts, chunk_adds(first)) {
            lemma_reading_is_adding(before + first, rest, merge(parts, chunk_adds(first)));
        }
    }
}

/// Two neighbouring chunks add the same in either order.
#[verifier::rlimit(50)]
pub proof fn lemma_exchange_adds(chunks: Seq<Seq<u8>>, k: int, parts: AniParts)
    requires
        0 <= k < chunks.len() - 1,
        all_add(chunks, parts) is Some,
    ensures
        all_add(exchange(chunks, k), parts) == all_add(chunks, parts),
    decreases k,
{
    let other = exchange(chunks, k);
    let front = chunks.drop_first();
    let x = chunk_adds(chunks[0]);
    assert(all_add(chunks, parts) == all_add(front, merge(parts, x)));
    if k == 0 {
        let y = chunk_adds(chunks[1]);
        let tail = front.drop_first();
        let turned = other.drop_first();
        assert(front[0] == chunks[1]);
        assert(other[0] == chunks[1]);
        assert(turned[0] == chunks[0]);
        assert(turned.drop_first() =~= tail);
        assert(all_add(front, merge(parts, x)) == all_add(tail, merge(merge(parts, x), y)));
        assert(!clash(parts, x) && !clash(merge(parts, x), y));
        assert(!clash(parts, y) && !clash(merge(parts, y), x));
        assert(merge(merge(parts, x), y) == merge(merge(parts, y), x));
        assert(all_add(other, parts) == all_add(turned, merge(parts, y)));
        assert(all_add(turned, merge(parts, y)) == all_add(tail, merge(merge(parts, y), x)));
    } else {
        assert(other[0] == chunks[0]);
        assert(other.drop_first() =~= exchange(front, k - 1));
        lemma_exchange_adds(front, k - 1, merge(parts, x));
        assert(all_add(other, parts) == all_add(other.drop_first(), merge(parts, x)));
    }
}

/// An exchange changes neither how many bytes the chunks take nor that they
/// are whole.
pub proof fn lemma_exchange_keeps(chunks: Seq<Seq<u8>>, k: int)
    requires
        0 <= k < chunks.len() - 1,
    ensures
        concat(exchange(chunks, k)).len() == concat(chunks).len(),
        exchange(chunks, k).len() == chunks.len(),
        whole_chunks(chunks) ==> whole_chunks(exchange(chunks, k)),
    decreases k,
{
    let other = exchange(chunks, k);
    let front = chunks.drop_first();
    assert(concat(chunks) == chunks[0] + concat(front));
    if k == 0 {
        let tail = front.drop_first();
        let turned = other.drop_first();
        assert(front[0] == chunks[1]);
        assert(other[0] == chunks[1]);
        assert(turned[0] == chunks[0]);
        assert(turned.drop_first() =~= tail);
        assert(concat(front) == chunks[1] + concat(tail));
        assert(concat(other) == chunks[1] + concat(turned));
        assert(concat(turned) == chunks[0] + concat(tail));
    } else {
        assert(other[0] == chunks[0]);
        assert(other.drop_first() =~= exchange(front, k - 1));
        lemma_exchange_keeps(front, k - 1);
        assert(concat(other) == chunks[0] + concat(other.drop_first()));
    }
    if whole_chunks(chunks) {
        assert forall|i: int| 0 <= i < other.len() implies whole_chunk(#[trigger] other[i]) by {
            if i == k {
                assert(other[i] == chunks[k + 1]);
            } else if i == k + 1 {
                assert(other[i] == chunks[k]);
            } else {
                assert(other[i] == chunks[i]);
            }
        }
    }
}

/// Any number of exchanges changes neither how many bytes the chunks take,
/// nor that they are whole, nor what they add.
pub proof fn lemma_exchanges_keep(chunks: Seq<Seq<u8>>, at: Seq<int>, parts: AniParts)
    requires
        whole_chunks(chunks),
        exchanges_fit(at, chunks.len()),
        all_add(chunks, parts) is Some,
    ensures
        concat(exchange_all(chunks, at)).len() == concat(chunks).len(),
        whole_chunks(exchange_all(chunks, at)),
        all_add(exchange_all(chunks, at), parts) == all_add(chunks, parts),
    decreases at.len(),
{
    if at.len() > 0 {
        let k = at[0];
        lemma_exchange_keeps(chunks, k);
        lemma_exchange_adds(chunks, k, parts);
        let rest = at.drop_first();
        assert(exchanges_fit(rest, exchange(chunks, k).len())) by {
            assert forall|i: int| 0 <= i < rest.len() implies 0 <= #[trigger] rest[i]
                < exchange(chunks, k).len() - 1 by {
                assert(rest[i] == at[i + 1]);
            }
        }
        lemma_exchanges_keep(exchange(chunks, k), rest, parts);
    }
}

/// Law: the order of the chunks does not matter to what a file is. Let a
/// blob be twelve bytes of header and whole chunks end to end, and let
/// another be the same but for the order of the chunks, which is reached by
/// exchanging neighbours any number of times, as every order is. If the
/// first is accepted, then the second is accepted and is the same file.
#[verifier::rlimit(50)]
pub proof fn lemma_any_order(header: Seq<u8>, chunks: Seq<Seq<u8>>, at: Seq<int>)
    requires
        header.len() == 12,
        whole_chunks(chunks),
        exchanges_fit(at, chunks.len()),
        spec_parse_ani(header + concat(chunks)) is Ok,
    ensures
        spec_parse_ani(header + concat(exchange_all(chunks, at))) == spec_parse_ani(
            header + concat(chunks),
        ),
{
    let one = header + concat(chunks);
    let two = header + concat(exchange_all(chunks, at));
    lemma_reading_is_adding(header, chunks, no_parts());
    lemma_exchanges_keep(chunks, at, no_parts());
    lemma_reading_is_adding(header, exchange_all(chunks, at), no_parts());
    assert(one.len() == two.len());
    assert(one.subrange(0, 12) =~= header);
    assert(two.subrange(0, 12) =~= header);
    lemma_window_word(one, 0, two, 0, 12, 0);
    lemma_window_word(one, 0, two, 0, 12, 4);
    lemma_window_word(one, 0, two, 0, 12, 8);
}

} // verus!
