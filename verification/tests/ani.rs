use currust::formats::ani::{AniError, AniFile, AniFlags, AniWarning};

fn le(x: u32) -> Vec<u8> {
    x.to_le_bytes().to_vec()
}

fn anih(num_frames: u32, num_steps: u32, jiffy_rate: u32, flags: u32) -> Vec<u8> {
    let mut out = b"anih".to_vec();
    out.extend(le(36));
    out.extend(le(36));
    out.extend(le(num_frames));
    out.extend(le(num_steps));
    out.extend([0u8; 16]);
    out.extend(le(jiffy_rate));
    out.extend(le(flags));
    out
}

fn words(id: &[u8; 4], data: &[u32]) -> Vec<u8> {
    let mut out = id.to_vec();
    out.extend(le(4 * data.len() as u32));
    for w in data {
        out.extend(le(*w));
    }
    out
}

fn icon(payload: &[u8]) -> Vec<u8> {
    let mut out = b"icon".to_vec();
    out.extend(le(payload.len() as u32));
    out.extend(payload);
    if payload.len() % 2 == 1 {
        out.push(0);
    }
    out
}

fn list(kind: &[u8; 4], body: &[u8]) -> Vec<u8> {
    let mut out = b"LIST".to_vec();
    out.extend(le(4 + body.len() as u32));
    out.extend(kind);
    out.extend(body);
    out
}

fn fram(frames: &[Vec<u8>]) -> Vec<u8> {
    let mut body = Vec::new();
    for f in frames {
        body.extend(icon(f));
    }
    list(b"fram", &body)
}

fn riff(children: &[Vec<u8>]) -> Vec<u8> {
    let mut body = b"ACON".to_vec();
    for c in children {
        body.extend(c);
    }
    let mut out = b"RIFF".to_vec();
    out.extend(le(body.len() as u32));
    out.extend(body);
    out
}

fn frames(n: u8) -> Vec<Vec<u8>> {
    (0..n).map(|i| vec![i, i.wrapping_mul(3), 7, 9]).collect()
}

const SEQUENCE: [u32; 21] = [
    0, 1, 2, 2, 3, 3, 3, 3, 4, 5, 6, 7, 3, 3, 3, 2, 2, 2, 3, 8, 9,
];

#[test]
fn good_ani() {
    let stored = frames(10);
    let blob = riff(&[
        anih(10, 21, 6, 3),
        words(b"seq ", &SEQUENCE),
        fram(&stored),
    ]);

    let ani = AniFile::from_blob(&blob).unwrap();
    let hdr = &ani.header;

    assert_eq!(hdr.num_frames, 10);
    assert_eq!(hdr.num_steps, 21);
    assert_eq!(hdr.jiffy_rate, 6);
    assert_eq!(hdr.flags, AniFlags::Sequenced);

    assert!(ani.rate.is_none());

    assert_eq!(
        ani.sequence.as_ref().unwrap().data,
        &[0, 1, 2, 2, 3, 3, 3, 3, 4, 5, 6, 7, 3, 3, 3, 2, 2, 2, 3, 8, 9]
    );

    assert_eq!(
        usize::try_from(hdr.num_frames).unwrap(),
        ani.ico_frames.len()
    );

    assert_eq!(
        usize::try_from(hdr.num_steps).unwrap(),
        ani.sequence.as_ref().unwrap().data.len()
    );

    let mut ani_frames = String::new();
    for frame in &ani.ico_frames {
        ani_frames.push_str(&format!("{:?}\n", frame.data));
    }
    let mut expected = String::new();
    for frame in &stored {
        expected.push_str(&format!("{:?}\n", frame));
    }
    assert_eq!(ani_frames, expected);
}

#[test]
fn chunks_in_any_order() {
    let stored = frames(2);
    let a = riff(&[anih(2, 2, 6, 1), fram(&stored)]);
    let b = riff(&[fram(&stored), anih(2, 2, 6, 1)]);
    assert_eq!(AniFile::from_blob(&a).unwrap(), AniFile::from_blob(&b).unwrap());
}

#[test]
fn unsequenced_flag_is_one() {
    let blob = riff(&[anih(1, 1, 0, 1), fram(&frames(1))]);
    let ani = AniFile::from_blob(&blob).unwrap();
    assert_eq!(ani.header.flags, AniFlags::Unsequenced);
    assert!(ani.sequence.is_none());
    assert!(ani.title.is_none());
    assert!(ani.author.is_none());
}

#[test]
fn rate_table_is_read() {
    let blob = riff(&[
        anih(2, 3, 0, 1),
        words(b"rate", &[5, 6, 7]),
        fram(&frames(2)),
    ]);
    let ani = AniFile::from_blob(&blob).unwrap();
    assert_eq!(ani.rate.unwrap().data, vec![5, 6, 7]);
}

#[test]
fn info_list_gives_title_and_author() {
    let mut info = b"INAM".to_vec();
    info.extend(le(2));
    info.extend(b"T\0");
    info.extend(b"IART");
    info.extend(le(2));
    info.extend(b"A\0");
    let blob = riff(&[list(b"INFO", &info), anih(1, 1, 0, 1), fram(&frames(1))]);
    let ani = AniFile::from_blob(&blob).unwrap();
    assert_eq!(ani.title, Some(b"T".to_vec()));
    assert_eq!(ani.author, Some(b"A".to_vec()));
}

#[test]
fn info_list_of_odd_size_is_followed_by_a_pad_byte() {
    // "INAM" + size + "Ti\0" is eleven bytes: the list is padded by one.
    let mut info = b"INAM".to_vec();
    info.extend(le(3));
    info.extend(b"Ti\0");
    let mut padded = list(b"INFO", &info);
    padded.push(0);
    let blob = riff(&[padded, anih(1, 1, 0, 1), fram(&frames(1))]);
    let ani = AniFile::from_blob(&blob).unwrap();
    assert_eq!(ani.title, Some(b"Ti".to_vec()));
    assert_eq!(ani.ico_frames.len(), 1);
}

#[test]
fn icon_of_odd_size_is_followed_by_a_pad_byte() {
    let stored = vec![vec![1u8, 2, 3], vec![4u8, 5, 6, 7, 8]];
    let blob = riff(&[anih(2, 2, 1, 1), fram(&stored)]);
    let ani = AniFile::from_blob(&blob).unwrap();
    assert_eq!(ani.ico_frames[0].data, vec![1, 2, 3]);
    assert_eq!(ani.ico_frames[1].data, vec![4, 5, 6, 7, 8]);
}

#[test]
fn riff_size_may_be_smaller_than_the_blob() {
    let mut blob = riff(&[anih(1, 1, 0, 1), fram(&frames(1))]);
    blob[4..8].copy_from_slice(&le(4));
    assert!(AniFile::from_blob(&blob).is_ok());
}

#[test]
fn blob_over_two_mebibytes_is_too_large() {
    let blob = vec![0u8; 2_097_153];
    assert_eq!(AniFile::from_blob(&blob), Err(AniError::ChunkTooLarge));
}

#[test]
fn short_blob_is_truncated() {
    assert_eq!(AniFile::from_blob(b"RI"), Err(AniError::TruncatedChunk));
    assert_eq!(AniFile::from_blob(b"RIFF\x04\0"), Err(AniError::TruncatedChunk));
}

#[test]
fn wrong_magic_is_refused() {
    let mut blob = riff(&[anih(1, 1, 0, 1), fram(&frames(1))]);
    blob[0] = b'X';
    assert_eq!(AniFile::from_blob(&blob), Err(AniError::InvalidMagic));
    let mut blob = riff(&[anih(1, 1, 0, 1), fram(&frames(1))]);
    blob[8] = b'X';
    assert_eq!(AniFile::from_blob(&blob), Err(AniError::InvalidMagic));
}

#[test]
fn riff_size_beyond_the_blob_is_truncated() {
    let mut blob = riff(&[anih(1, 1, 0, 1), fram(&frames(1))]);
    let len = blob.len() as u32;
    blob[4..8].copy_from_slice(&le(len + 1));
    assert_eq!(AniFile::from_blob(&blob), Err(AniError::TruncatedChunk));
}

#[test]
fn duplicate_chunks_are_refused() {
    let two_headers = riff(&[anih(1, 1, 0, 1), anih(1, 1, 0, 1), fram(&frames(1))]);
    assert_eq!(AniFile::from_blob(&two_headers), Err(AniError::DuplicateChunk));
    let two_rates = riff(&[
        anih(1, 1, 0, 1),
        words(b"rate", &[1]),
        words(b"rate", &[1]),
        fram(&frames(1)),
    ]);
    assert_eq!(AniFile::from_blob(&two_rates), Err(AniError::DuplicateChunk));
    let two_seqs = riff(&[
        anih(1, 1, 0, 1),
        words(b"seq ", &[0]),
        words(b"seq ", &[0]),
        fram(&frames(1)),
    ]);
    assert_eq!(AniFile::from_blob(&two_seqs), Err(AniError::DuplicateChunk));
    let two_frams = riff(&[anih(1, 1, 0, 1), fram(&frames(1)), fram(&frames(1))]);
    assert_eq!(AniFile::from_blob(&two_frams), Err(AniError::DuplicateChunk));
}

#[test]
fn unknown_chunk_is_refused() {
    let blob = riff(&[anih(1, 1, 0, 1), words(b"junk", &[1]), fram(&frames(1))]);
    assert_eq!(AniFile::from_blob(&blob), Err(AniError::UnknownChunk));
    let blob = riff(&[anih(1, 1, 0, 1), list(b"what", &[])]);
    assert_eq!(AniFile::from_blob(&blob), Err(AniError::UnknownChunk));
    let blob = riff(&[anih(1, 1, 0, 1), list(b"fram", &words(b"icoX", &[1]))]);
    assert_eq!(AniFile::from_blob(&blob), Err(AniError::UnknownChunk));
}

#[test]
fn header_of_wrong_size_is_refused() {
    let mut header = anih(1, 1, 0, 1);
    header[4..8].copy_from_slice(&le(40));
    let blob = riff(&[header, fram(&frames(1))]);
    assert_eq!(AniFile::from_blob(&blob), Err(AniError::BadChunkSize));
}

#[test]
fn list_shorter_than_its_type_is_refused() {
    let mut bad = b"LIST".to_vec();
    bad.extend(le(3));
    bad.extend(b"fram");
    let blob = riff(&[anih(1, 1, 0, 1), bad]);
    assert_eq!(AniFile::from_blob(&blob), Err(AniError::BadChunkSize));
}

#[test]
fn rate_table_of_wrong_length_is_refused() {
    let blob = riff(&[anih(1, 2, 0, 1), words(b"rate", &[1]), fram(&frames(1))]);
    assert_eq!(AniFile::from_blob(&blob), Err(AniError::BadChunkSize));
}

#[test]
fn flags_other_than_one_and_three_are_refused() {
    let blob = riff(&[anih(1, 1, 0, 2), fram(&frames(1))]);
    assert_eq!(AniFile::from_blob(&blob), Err(AniError::InvalidFlags));
}

#[test]
fn missing_header_is_refused() {
    let blob = riff(&[fram(&frames(1))]);
    assert_eq!(AniFile::from_blob(&blob), Err(AniError::MissingHeader));
}

#[test]
fn sequence_index_out_of_range_is_refused() {
    let blob = riff(&[anih(2, 2, 1, 3), words(b"seq ", &[0, 2]), fram(&frames(2))]);
    assert_eq!(AniFile::from_blob(&blob), Err(AniError::IndexOutOfRange));
}

#[test]
fn frame_count_must_match_the_header() {
    let blob = riff(&[anih(3, 3, 1, 1), fram(&frames(2))]);
    assert_eq!(AniFile::from_blob(&blob), Err(AniError::MissingFrames));
    let blob = riff(&[anih(0, 0, 1, 1), list(b"fram", &[])]);
    assert_eq!(AniFile::from_blob(&blob), Err(AniError::MissingFrames));
}

#[test]
fn several_frames_need_timings() {
    let blob = riff(&[anih(2, 2, 0, 1), fram(&frames(2))]);
    assert_eq!(AniFile::from_blob(&blob), Err(AniError::MissingTimings));
}

#[test]
fn truncated_frame_is_refused() {
    let mut blob = riff(&[anih(1, 1, 0, 1), fram(&frames(1))]);
    blob.truncate(blob.len() - 1);
    assert_eq!(AniFile::from_blob(&blob), Err(AniError::TruncatedChunk));
}

#[test]
fn frame_list_over_one_mebibyte_is_too_large() {
    let big = vec![vec![0u8; 1_048_600]];
    let blob = riff(&[anih(1, 1, 0, 1), fram(&big)]);
    assert_eq!(AniFile::from_blob(&blob), Err(AniError::ChunkTooLarge));
}

#[test]
fn string_without_terminator_is_truncated() {
    let mut info = b"INAM".to_vec();
    info.extend(le(2));
    info.extend(b"Tx");
    // The list is the last chunk, so no zero byte follows the string.
    let blob = riff(&[anih(1, 1, 0, 1), list(b"INFO", &info)]);
    assert_eq!(AniFile::from_blob(&blob), Err(AniError::TruncatedChunk));
}

#[test]
fn odd_files_give_warnings() {
    let plain = riff(&[anih(2, 2, 6, 1), fram(&frames(2))]);
    assert!(AniFile::from_blob(&plain).unwrap().warnings().is_empty());
    let linear = riff(&[anih(2, 2, 6, 1), words(b"seq ", &[0, 1]), fram(&frames(2))]);
    assert!(AniFile::from_blob(&linear).unwrap().warnings().is_empty());
    let shuffled = riff(&[anih(2, 2, 6, 1), words(b"seq ", &[1, 0]), fram(&frames(2))]);
    assert_eq!(
        AniFile::from_blob(&shuffled).unwrap().warnings(),
        vec![AniWarning::NonLinearSequence]
    );
    let promised = riff(&[anih(2, 2, 6, 3), fram(&frames(2))]);
    assert_eq!(
        AniFile::from_blob(&promised).unwrap().warnings(),
        vec![AniWarning::MissingSequence]
    );
    let rated = riff(&[
        anih(2, 3, 6, 3),
        words(b"rate", &[1, 2, 3]),
        fram(&frames(2)),
    ]);
    assert_eq!(
        AniFile::from_blob(&rated).unwrap().warnings(),
        vec![AniWarning::MissingSequence, AniWarning::RateLength]
    );
}

#[test]
fn string_must_end_inside_its_list() {
    // The string "T" has no zero byte inside the list; a zero byte follows
    // the list in both orders.
    let mut info = b"INAM".to_vec();
    info.extend(le(1));
    info.extend(b"T");
    let mut padded = list(b"INFO", &info);
    padded.push(0);
    let last = riff(&[anih(1, 1, 0, 1), fram(&frames(1)), padded.clone()]);
    let first = riff(&[padded, anih(1, 1, 0, 1), fram(&frames(1))]);
    assert_eq!(AniFile::from_blob(&last), Err(AniError::TruncatedChunk));
    assert_eq!(AniFile::from_blob(&first), Err(AniError::TruncatedChunk));
}

#[test]
fn subchunk_must_end_inside_its_list() {
    // The list says that it holds eight bytes, the icon in it says twelve.
    let mut short = b"LIST".to_vec();
    short.extend(le(4 + 8));
    short.extend(b"fram");
    short.extend(b"icon");
    short.extend(le(12));
    short.extend([7u8; 12]);
    let blob = riff(&[anih(1, 1, 0, 1), short]);
    assert_eq!(AniFile::from_blob(&blob), Err(AniError::TruncatedChunk));
}

#[test]
fn every_order_of_the_chunks_gives_the_same_file() {
    let mut info = b"INAM".to_vec();
    info.extend(le(3));
    info.extend(b"Ti\0");
    info.extend(b"IART");
    info.extend(le(2));
    info.extend(b"A\0");
    let mut padded = list(b"INFO", &info);
    padded.push(0);
    let chunks = vec![
        padded,
        anih(3, 4, 6, 3),
        words(b"rate", &[1, 2, 3, 4]),
        words(b"seq ", &[0, 2, 1, 0]),
        fram(&vec![vec![1u8, 2, 3], vec![4u8, 5], vec![6u8]]),
    ];
    let expected = AniFile::from_blob(&riff(&chunks)).unwrap();
    assert_eq!(expected.title, Some(b"Ti".to_vec()));
    assert_eq!(expected.ico_frames.len(), 3);
    // The 120 orders of five chunks, by rotating and swapping.
    let mut orders: Vec<Vec<usize>> = vec![vec![]];
    for n in 0..5 {
        let mut next = Vec::new();
        for order in &orders {
            for at in 0..=order.len() {
                let mut o = order.clone();
                o.insert(at, n);
                next.push(o);
            }
        }
        orders = next;
    }
    assert_eq!(orders.len(), 120);
    for order in orders {
        let blob = riff(&order.iter().map(|i| chunks[*i].clone()).collect::<Vec<_>>());
        assert_eq!(AniFile::from_blob(&blob), Ok(expected.clone()));
    }
}
