use currust::cursors::cur::{frames_from_decoded, read_cur, CurError, DecodedImage};
use currust::cursors::cursor_image::{CursorImage, ImageError, ScaleError, ScalingType};
use currust::cursors::generic_cursor::{CursorError, GenericCursor, ScaleFactor};
use currust::cursors::bitmap::pixels_fit;
use currust::cursors::sources::{
    cur_warnings, delay_of, group_by_dims, jiffies_to_ms, CursorWarning,
};
use currust::formats::ani::AniWarning;
use currust::formats::ani::{AniError, AniFile, AniFlags, AniHeader, RiffChunkU32, RiffChunkU8};
use currust::scaling::ScalingAlgorithm;

fn solid(width: u32, height: u32, pixel: [u8; 4]) -> Vec<u8> {
    let mut rgba = Vec::new();
    for _ in 0..(width * height) {
        rgba.extend(pixel);
    }
    rgba
}

fn frame(width: u32, height: u32, delay: u32) -> CursorImage {
    CursorImage::new_with_delay(width, height, 0, 0, solid(width, height, [1, 2, 3, 255]), delay)
        .unwrap()
}

fn container(kind: ico::ResourceType, images: &[(u32, u32, (u16, u16), [u8; 4])]) -> Vec<u8> {
    let mut dir = ico::IconDir::new(kind);
    for (width, height, hotspot, pixel) in images {
        let mut image = ico::IconImage::from_rgba_data(*width, *height, solid(*width, *height, *pixel));
        if kind == ico::ResourceType::Cursor {
            image.set_cursor_hotspot(Some(*hotspot));
        }
        dir.add_entry(ico::IconDirEntry::encode(&image).unwrap());
    }
    let mut out = Vec::new();
    dir.write(&mut out).unwrap();
    out
}

fn cur(images: &[(u32, u32, (u16, u16), [u8; 4])]) -> Vec<u8> {
    container(ico::ResourceType::Cursor, images)
}

fn le(x: u32) -> Vec<u8> {
    x.to_le_bytes().to_vec()
}

fn ani(num_steps: u32, jiffy_rate: u32, rate: Option<&[u32]>, seq: Option<&[u32]>, frames: &[Vec<u8>]) -> Vec<u8> {
    let mut body = b"ACON".to_vec();
    body.extend(b"anih");
    body.extend(le(36));
    body.extend(le(36));
    body.extend(le(frames.len() as u32));
    body.extend(le(num_steps));
    body.extend([0u8; 16]);
    body.extend(le(jiffy_rate));
    body.extend(le(if seq.is_some() { 3 } else { 1 }));
    for (id, table) in [(b"rate", rate), (b"seq ", seq)] {
        if let Some(table) = table {
            body.extend(id);
            body.extend(le(4 * table.len() as u32));
            for w in table {
                body.extend(le(*w));
            }
        }
    }
    let mut list = b"fram".to_vec();
    for f in frames {
        list.extend(b"icon");
        list.extend(le(f.len() as u32));
        list.extend(f);
        if f.len() % 2 == 1 {
            list.push(0);
        }
    }
    body.extend(b"LIST");
    body.extend(le(list.len() as u32));
    body.extend(list);
    let mut out = b"RIFF".to_vec();
    out.extend(le(body.len() as u32));
    out.extend(body);
    out
}

#[test]
fn read_cur_decodes_every_entry() {
    let bytes = cur(&[(2, 2, (1, 2), [255, 0, 0, 255]), (4, 4, (3, 0), [0, 255, 0, 255])]);
    let frames = read_cur(&bytes).unwrap();
    assert_eq!(frames.len(), 2);
    assert_eq!(frames[0].dimensions(), (2, 2));
    assert_eq!(frames[0].hotspot(), (1, 2));
    assert_eq!(frames[0].delay(), 0);
    assert_eq!(frames[0].rgba(), solid(2, 2, [255, 0, 0, 255]).as_slice());
    assert_eq!(frames[1].dimensions(), (4, 4));
    assert_eq!(frames[1].hotspot(), (3, 0));
    assert_eq!(frames[1].rgba(), solid(4, 4, [0, 255, 0, 255]).as_slice());
}

#[test]
fn read_cur_refuses_icons() {
    let bytes = container(ico::ResourceType::Icon, &[(2, 2, (0, 0), [1, 2, 3, 255])]);
    assert_eq!(read_cur(&bytes), Err(CurError::NotACur));
}

#[test]
fn read_cur_refuses_garbage() {
    assert_eq!(read_cur(b"not a cursor"), Err(CurError::DecodeFailure));
    assert_eq!(read_cur(b""), Err(CurError::DecodeFailure));
}

#[test]
fn read_cur_refuses_an_entry_that_cannot_be_decoded() {
    let mut bytes = cur(&[(2, 2, (0, 0), [1, 2, 3, 255])]);
    // The image data starts after the directory of 6 + 16 bytes.
    for b in bytes.iter_mut().skip(22) {
        *b = 0xff;
    }
    assert_eq!(read_cur(&bytes), Err(CurError::DecodeFailure));
}

#[test]
fn read_cur_refuses_an_empty_container() {
    let bytes = cur(&[]);
    assert_eq!(read_cur(&bytes), Err(CurError::EmptyContainer));
}

#[test]
fn hotspot_beyond_the_image_is_no_frame() {
    let bytes = cur(&[(2, 2, (3, 0), [1, 2, 3, 255])]);
    assert_eq!(
        read_cur(&bytes),
        Err(CurError::Image(ImageError::HotspotOutOfRange))
    );
}

#[test]
fn decoded_entries_become_frames_in_order() {
    let entries = vec![
        Some(DecodedImage { width: 1, height: 1, hotspot: Some((0, 1)), rgba: vec![1, 2, 3, 4] }),
        Some(DecodedImage { width: 1, height: 2, hotspot: Some((1, 0)), rgba: vec![0; 8] }),
    ];
    let frames = frames_from_decoded(entries, 50).unwrap();
    assert_eq!(frames.len(), 2);
    assert_eq!(frames[0].dimensions(), (1, 1));
    assert_eq!(frames[0].hotspot(), (0, 1));
    assert_eq!(frames[0].delay(), 50);
    assert_eq!(frames[1].dimensions(), (1, 2));
    assert_eq!(frames[1].delay(), 50);
}

#[test]
fn first_bad_entry_decides_the_error() {
    let good = Some(DecodedImage { width: 1, height: 1, hotspot: Some((0, 0)), rgba: vec![0; 4] });
    let icon = Some(DecodedImage { width: 1, height: 1, hotspot: None, rgba: vec![0; 4] });
    let short = Some(DecodedImage { width: 1, height: 1, hotspot: Some((0, 0)), rgba: vec![0; 3] });
    assert_eq!(
        frames_from_decoded(vec![good.clone(), None, icon.clone()], 0),
        Err(CurError::DecodeFailure)
    );
    assert_eq!(
        frames_from_decoded(vec![good.clone(), icon, None], 0),
        Err(CurError::NotACur)
    );
    assert_eq!(
        frames_from_decoded(vec![good, short, None], 0),
        Err(CurError::Image(ImageError::BufferSizeMismatch))
    );
    assert_eq!(frames_from_decoded(vec![], 0), Err(CurError::EmptyContainer));
}

#[test]
fn new_cursor_has_factor_one_and_no_groups() {
    let cursor = GenericCursor::new(vec![frame(32, 32, 0)]).unwrap();
    assert_eq!(cursor.base_images().len(), 1);
    assert!(cursor.scaled_images().is_empty());
    assert!(cursor.scaled_images_flat().is_empty());
    assert_eq!(cursor.joined_images().len(), 1);
    assert_eq!(cursor.num_images(), 1);
    assert_eq!(cursor.scale_factors(), vec![ScaleFactor { num: 1, den: 1 }]);
    assert!(cursor.info().is_none());
}

#[test]
fn new_cursor_refuses_bad_frames() {
    assert_eq!(GenericCursor::new(vec![]), Err(CursorError::InconsistentFrames));
    assert_eq!(
        GenericCursor::new(vec![frame(32, 32, 10), frame(16, 16, 10)]),
        Err(CursorError::InconsistentFrames)
    );
    assert_eq!(
        GenericCursor::new(vec![frame(32, 32, 10)]),
        Err(CursorError::InconsistentFrames)
    );
}

#[test]
fn groups_are_registered_by_their_size() {
    let cursor = GenericCursor::new_with_scaled(
        vec![frame(32, 32, 0)],
        vec![vec![frame(64, 64, 0)], vec![frame(16, 16, 0)]],
    )
    .unwrap();
    assert_eq!(
        cursor.scale_factors(),
        vec![
            ScaleFactor { num: 1, den: 1 },
            ScaleFactor { num: 64, den: 32 },
            ScaleFactor { num: 16, den: 32 },
        ]
    );
    assert_eq!(cursor.scaled_images().len(), 2);
    assert_eq!(cursor.num_images(), 3);
    let joined = cursor.joined_images();
    assert_eq!(joined[0].dimensions(), (32, 32));
    assert_eq!(joined[1].dimensions(), (64, 64));
    assert_eq!(joined[2].dimensions(), (16, 16));
    let sizes: Vec<u32> = joined.iter().map(|f| f.nominal_size()).collect();
    assert_eq!(sizes, vec![32, 64, 16]);
}

#[test]
fn group_of_another_length_is_refused() {
    assert_eq!(
        GenericCursor::new_with_scaled(
            vec![frame(32, 32, 10), frame(32, 32, 10)],
            vec![vec![frame(64, 64, 0)]],
        ),
        Err(CursorError::InconsistentFrames)
    );
    assert_eq!(
        GenericCursor::new_with_scaled(vec![frame(32, 32, 0)], vec![vec![]]),
        Err(CursorError::InconsistentFrames)
    );
}

#[test]
fn group_of_a_registered_factor_is_refused() {
    assert_eq!(
        GenericCursor::new_with_scaled(
            vec![frame(32, 32, 0)],
            vec![vec![frame(64, 64, 0)], vec![frame(64, 32, 0)]],
        ),
        Err(CursorError::DuplicateScaleFactor)
    );
    assert_eq!(
        GenericCursor::new_with_scaled(vec![frame(32, 32, 0)], vec![vec![frame(32, 16, 0)]]),
        Err(CursorError::DuplicateScaleFactor)
    );
}

#[test]
fn add_scale_appends_one_group() {
    let mut cursor = GenericCursor::new(vec![frame(8, 8, 10), frame(8, 8, 20)]).unwrap();
    cursor
        .add_scale(2, ScalingType::Upscale, ScalingAlgorithm::Nearest)
        .unwrap();
    assert_eq!(
        cursor.scale_factors(),
        vec![ScaleFactor { num: 1, den: 1 }, ScaleFactor { num: 2, den: 1 }]
    );
    let groups = cursor.scaled_images();
    assert_eq!(groups.len(), 1);
    assert_eq!(groups[0].len(), 2);
    assert_eq!(groups[0][0].dimensions(), (16, 16));
    assert_eq!(groups[0][0].delay(), 10);
    assert_eq!(groups[0][1].delay(), 20);
    cursor
        .add_scale(2, ScalingType::Downscale, ScalingAlgorithm::Box)
        .unwrap();
    assert_eq!(
        cursor.scale_factors(),
        vec![
            ScaleFactor { num: 1, den: 1 },
            ScaleFactor { num: 2, den: 1 },
            ScaleFactor { num: 1, den: 2 },
        ]
    );
    assert_eq!(cursor.num_images(), 6);
    let sizes: Vec<u32> = cursor.joined_images().iter().map(|f| f.nominal_size()).collect();
    assert_eq!(sizes, vec![8, 8, 16, 16, 4, 4]);
}

#[test]
fn add_scale_refuses_a_registered_factor() {
    let mut cursor = GenericCursor::new(vec![frame(8, 8, 0)]).unwrap();
    assert_eq!(
        cursor.add_scale(1, ScalingType::Upscale, ScalingAlgorithm::Nearest),
        Err(CursorError::DuplicateScaleFactor)
    );
    assert_eq!(
        cursor.add_scale(1, ScalingType::Downscale, ScalingAlgorithm::Nearest),
        Err(CursorError::DuplicateScaleFactor)
    );
    cursor
        .add_scale(3, ScalingType::Upscale, ScalingAlgorithm::Nearest)
        .unwrap();
    assert_eq!(
        cursor.add_scale(3, ScalingType::Upscale, ScalingAlgorithm::Box),
        Err(CursorError::DuplicateScaleFactor)
    );
    assert_eq!(cursor.scaled_images().len(), 1);
}

#[test]
fn add_scale_refuses_a_factor_that_came_with_the_cursor() {
    let mut cursor =
        GenericCursor::new_with_scaled(vec![frame(32, 32, 0)], vec![vec![frame(64, 64, 0)]]).unwrap();
    assert_eq!(
        cursor.add_scale(2, ScalingType::Upscale, ScalingAlgorithm::Nearest),
        Err(CursorError::DuplicateScaleFactor)
    );
}

#[test]
fn add_scale_leaves_the_cursor_alone_on_error() {
    let mut cursor = GenericCursor::new(vec![frame(2, 2, 0)]).unwrap();
    assert_eq!(
        cursor.add_scale(0, ScalingType::Upscale, ScalingAlgorithm::Nearest),
        Err(CursorError::Scale(ScaleError::FactorOutOfRange))
    );
    assert_eq!(
        cursor.add_scale(21, ScalingType::Upscale, ScalingAlgorithm::Nearest),
        Err(CursorError::Scale(ScaleError::FactorOutOfRange))
    );
    assert_eq!(
        cursor.add_scale(3, ScalingType::Downscale, ScalingAlgorithm::Box),
        Err(CursorError::Scale(ScaleError::DimensionOutOfRange))
    );
    assert_eq!(cursor.scale_factors(), vec![ScaleFactor { num: 1, den: 1 }]);
    assert_eq!(cursor.num_images(), 1);
}

#[test]
fn scaling_to_a_nominal_size_that_is_there_is_refused() {
    let mut cursor = GenericCursor::new(vec![frame(3, 3, 0)]).unwrap();
    cursor
        .add_scale(2, ScalingType::Downscale, ScalingAlgorithm::Box)
        .unwrap();
    assert_eq!(
        cursor.add_scale(3, ScalingType::Downscale, ScalingAlgorithm::Box),
        Err(CursorError::DuplicateNominalSize)
    );
    assert_eq!(
        cursor.add_resampled(3, ScalingType::Downscale, &vec![vec![0u8; 4]]),
        Err(CursorError::DuplicateNominalSize)
    );
    assert_eq!(
        cursor.add_downscale(3),
        Err(CursorError::DuplicateNominalSize)
    );
    let sizes: Vec<u32> = cursor.joined_images().iter().map(|f| f.nominal_size()).collect();
    assert_eq!(sizes, vec![3, 1]);
    assert_eq!(
        cursor.scale_factors(),
        vec![ScaleFactor { num: 1, den: 1 }, ScaleFactor { num: 1, den: 2 }]
    );
    // A factor or dimensions out of range are found first.
    assert_eq!(
        cursor.add_scale(4, ScalingType::Downscale, ScalingAlgorithm::Box),
        Err(CursorError::Scale(ScaleError::DimensionOutOfRange))
    );
    // The size of a group that came with the cursor counts too.
    let mut cursor =
        GenericCursor::new_with_scaled(vec![frame(7, 7, 0)], vec![vec![frame(2, 1, 0)]]).unwrap();
    assert_eq!(
        cursor.add_downscale(3),
        Err(CursorError::DuplicateNominalSize)
    );
    assert_eq!(cursor.add_downscale(2), Ok(()));
}

#[test]
fn scale_factors_compare_as_fractions() {
    let half = ScaleFactor { num: 1, den: 2 };
    assert!(half.same_as(&ScaleFactor { num: 16, den: 32 }));
    assert!(!half.same_as(&ScaleFactor { num: 2, den: 1 }));
    assert_eq!(ScaleFactor::of(3, ScalingType::Upscale), ScaleFactor { num: 3, den: 1 });
    assert_eq!(ScaleFactor::of(3, ScalingType::Downscale), ScaleFactor { num: 1, den: 3 });
}

#[test]
fn info_can_be_set() {
    let mut cursor = GenericCursor::new(vec![frame(1, 1, 0)]).unwrap();
    cursor.set_info(Some("a comment".to_string()));
    assert_eq!(cursor.info(), Some(&"a comment".to_string()));
    cursor.set_info(None);
    assert!(cursor.info().is_none());
}

#[test]
fn from_cur_builds_a_static_cursor() {
    let bytes = cur(&[(1, 1, (0, 0), [255, 0, 0, 255])]);
    let cursor = GenericCursor::from_cur(&bytes).unwrap();
    assert_eq!(cursor.base_images().len(), 1);
    assert_eq!(cursor.base_images()[0].rgba(), &[255, 0, 0, 255]);
    assert_eq!(cursor.base_images()[0].delay(), 0);
    assert_eq!(cursor.num_images(), 1);
}

#[test]
fn from_cur_puts_other_sizes_into_one_group() {
    let bytes = cur(&[(32, 32, (0, 0), [1, 1, 1, 255]), (48, 48, (0, 0), [2, 2, 2, 255])]);
    let cursor = GenericCursor::from_cur(&bytes).unwrap();
    assert_eq!(cursor.base_images()[0].dimensions(), (32, 32));
    assert_eq!(cursor.scaled_images().len(), 1);
    assert_eq!(cursor.scaled_images()[0][0].dimensions(), (48, 48));
    assert_eq!(
        cursor.scale_factors(),
        vec![ScaleFactor { num: 1, den: 1 }, ScaleFactor { num: 48, den: 32 }]
    );
}

#[test]
fn from_cur_refuses_three_sizes() {
    let bytes = cur(&[
        (32, 32, (0, 0), [1, 1, 1, 255]),
        (48, 48, (0, 0), [2, 2, 2, 255]),
        (64, 64, (0, 0), [3, 3, 3, 255]),
    ]);
    assert_eq!(
        GenericCursor::from_cur(&bytes),
        Err(CursorError::InconsistentFrames)
    );
}

#[test]
fn from_cur_passes_decoder_errors_on() {
    assert_eq!(
        GenericCursor::from_cur(b"junk"),
        Err(CursorError::Cur(CurError::DecodeFailure))
    );
    assert_eq!(
        GenericCursor::from_cur_frames(vec![]),
        Err(CursorError::NoFrames)
    );
}

#[test]
fn jiffies_become_milliseconds() {
    assert_eq!(jiffies_to_ms(0), 0);
    assert_eq!(jiffies_to_ms(1), 17);
    assert_eq!(jiffies_to_ms(2), 33);
    assert_eq!(jiffies_to_ms(3), 50);
    assert_eq!(jiffies_to_ms(6), 100);
    assert_eq!(jiffies_to_ms(60), 1000);
    assert_eq!(jiffies_to_ms(u32::MAX), (u32::MAX as u64 * 1000 + 30) / 60);
    for j in 0..1000u32 {
        assert_eq!(jiffies_to_ms(j), (j as f64 * 1000.0 / 60.0).round() as u64);
    }
}

#[test]
fn delay_stops_at_the_largest() {
    assert_eq!(delay_of(6), 100);
    assert_eq!(delay_of(u32::MAX), u32::MAX);
    assert_eq!(delay_of(257_698_037), 4_294_967_283);
    assert_eq!(delay_of(257_698_038), u32::MAX);
}

#[test]
fn two_frame_animation_has_delays_of_a_hundred() {
    let a = cur(&[(16, 16, (1, 1), [255, 0, 0, 255])]);
    let b = cur(&[(16, 16, (2, 2), [0, 255, 0, 255])]);
    let blob = ani(2, 6, None, None, &[a, b]);
    let cursor = GenericCursor::from_ani(&blob).unwrap();
    let base = cursor.base_images();
    assert_eq!(base.len(), 2);
    assert_eq!(base[0].delay(), 100);
    assert_eq!(base[1].delay(), 100);
    assert_eq!(base[0].nominal_size(), 16);
    assert_eq!(base[0].hotspot(), (1, 1));
    assert_eq!(base[1].hotspot(), (2, 2));
    assert_eq!(base[1].rgba(), solid(16, 16, [0, 255, 0, 255]).as_slice());
    assert!(cursor.scaled_images().is_empty());
}

#[test]
fn sequence_gives_the_play_order() {
    let sequence = [0u32, 1, 2, 2, 3, 3, 3, 3, 4, 5, 6, 7, 3, 3, 3, 2, 2, 2, 3, 8, 9];
    let frames: Vec<Vec<u8>> = (0..10u8)
        .map(|i| cur(&[(4, 4, (0, 0), [i, 0, 0, 255])]))
        .collect();
    let blob = ani(21, 6, None, Some(&sequence), &frames);
    let file = AniFile::from_blob(&blob).unwrap();
    assert_eq!(file.ico_frames.len(), 10);
    let cursor = GenericCursor::from_ani(&blob).unwrap();
    let base = cursor.base_images();
    assert_eq!(base.len(), 21);
    for (k, index) in sequence.iter().enumerate() {
        assert_eq!(base[k].rgba()[0], *index as u8);
        assert_eq!(base[k].delay(), 100);
    }
}

#[test]
fn rate_table_gives_each_step_its_delay() {
    let frames: Vec<Vec<u8>> = (0..2u8)
        .map(|i| cur(&[(4, 4, (0, 0), [i, 0, 0, 255])]))
        .collect();
    let blob = ani(2, 0, Some(&[3, 60]), None, &frames);
    let cursor = GenericCursor::from_ani(&blob).unwrap();
    assert_eq!(cursor.base_images()[0].delay(), 50);
    assert_eq!(cursor.base_images()[1].delay(), 1000);
}

#[test]
fn animation_prefers_thirty_two_pixels_as_base() {
    let one = cur(&[(16, 16, (0, 0), [1, 0, 0, 255]), (32, 32, (0, 0), [1, 0, 0, 255])]);
    let two = cur(&[(16, 16, (0, 0), [2, 0, 0, 255]), (32, 32, (0, 0), [2, 0, 0, 255])]);
    let blob = ani(2, 6, None, None, &[one, two]);
    let cursor = GenericCursor::from_ani(&blob).unwrap();
    let base = cursor.base_images();
    assert_eq!(base.len(), 2);
    assert_eq!(base[0].dimensions(), (32, 32));
    assert_eq!(base[0].rgba()[0], 1);
    assert_eq!(base[1].rgba()[0], 2);
    let groups = cursor.scaled_images();
    assert_eq!(groups.len(), 1);
    assert_eq!(groups[0].len(), 2);
    assert_eq!(groups[0][0].dimensions(), (16, 16));
    assert_eq!(groups[0][0].rgba()[0], 1);
    assert_eq!(groups[0][1].rgba()[0], 2);
    assert_eq!(
        cursor.scale_factors(),
        vec![ScaleFactor { num: 1, den: 1 }, ScaleFactor { num: 16, den: 32 }]
    );
}

#[test]
fn animation_without_thirty_two_pixels_takes_the_first_frame_as_base() {
    let one = cur(&[(48, 48, (0, 0), [1, 0, 0, 255]), (16, 16, (0, 0), [1, 0, 0, 255])]);
    let two = cur(&[(48, 48, (0, 0), [2, 0, 0, 255]), (16, 16, (0, 0), [2, 0, 0, 255])]);
    let blob = ani(2, 6, None, None, &[one, two]);
    let cursor = GenericCursor::from_ani(&blob).unwrap();
    assert_eq!(cursor.base_images()[0].dimensions(), (48, 48));
    assert_eq!(cursor.scaled_images()[0][0].dimensions(), (16, 16));
}

#[test]
fn groups_come_in_the_order_of_their_dimensions() {
    let frames = vec![
        frame(48, 48, 1),
        frame(16, 24, 2),
        frame(16, 16, 3),
        frame(48, 48, 4),
        frame(16, 16, 5),
        frame(16, 24, 6),
    ];
    let groups = group_by_dims(frames);
    let shape: Vec<Vec<(u32, u32, u32)>> = groups
        .iter()
        .map(|g| g.iter().map(|f| (f.dimensions().0, f.dimensions().1, f.delay())).collect())
        .collect();
    assert_eq!(
        shape,
        vec![
            vec![(16, 16, 3), (16, 16, 5)],
            vec![(16, 24, 2), (16, 24, 6)],
            vec![(48, 48, 1), (48, 48, 4)],
        ]
    );
}

#[test]
fn animation_with_a_missing_scaled_frame_is_inconsistent() {
    let one = cur(&[(32, 32, (0, 0), [1, 0, 0, 255]), (16, 16, (0, 0), [1, 0, 0, 255])]);
    let two = cur(&[(32, 32, (0, 0), [2, 0, 0, 255])]);
    let blob = ani(2, 6, None, None, &[one, two]);
    assert_eq!(
        GenericCursor::from_ani(&blob),
        Err(CursorError::InconsistentFrames)
    );
}

#[test]
fn animation_passes_errors_on() {
    assert_eq!(
        GenericCursor::from_ani(b"RIFX"),
        Err(CursorError::Ani(AniError::InvalidMagic))
    );
    let blob = ani(1, 0, None, None, &[b"junk".to_vec()]);
    assert_eq!(
        GenericCursor::from_ani(&blob),
        Err(CursorError::Cur(CurError::DecodeFailure))
    );
    assert_eq!(GenericCursor::from_frames(vec![]), Err(CursorError::NoFrames));
}

#[test]
fn file_built_by_hand_is_checked_again() {
    let file = AniFile {
        header: AniHeader { num_frames: 1, num_steps: 1, jiffy_rate: 0, flags: AniFlags::Sequenced },
        title: None,
        author: None,
        rate: None,
        sequence: Some(RiffChunkU32 { data: vec![4] }),
        ico_frames: vec![RiffChunkU8 { data: cur(&[(1, 1, (0, 0), [0, 0, 0, 255])]) }],
    };
    assert_eq!(
        GenericCursor::from_ani_file(&file),
        Err(CursorError::Ani(AniError::IndexOutOfRange))
    );
}

#[test]
fn upscale_and_downscale_append_groups() {
    let mut cursor = GenericCursor::new(vec![frame(4, 4, 0)]).unwrap();
    cursor.add_upscale(3).unwrap();
    cursor.add_downscale(2).unwrap();
    assert_eq!(
        cursor.scale_factors(),
        vec![
            ScaleFactor { num: 1, den: 1 },
            ScaleFactor { num: 3, den: 1 },
            ScaleFactor { num: 1, den: 2 },
        ]
    );
    let groups = cursor.scaled_images();
    assert_eq!(groups[0][0].dimensions(), (12, 12));
    assert_eq!(groups[1][0].dimensions(), (2, 2));
    assert_eq!(cursor.add_upscale(3), Err(CursorError::DuplicateScaleFactor));
    assert_eq!(
        cursor.add_downscale(6),
        Err(CursorError::Scale(ScaleError::FactorOutOfRange))
    );
}

#[test]
fn file_must_have_the_extension_of_its_kind() {
    let bytes = cur(&[(1, 1, (0, 0), [255, 0, 0, 255])]);
    assert!(GenericCursor::from_cur_path("arrow.cur", &bytes).is_ok());
    assert_eq!(
        GenericCursor::from_cur_path("arrow.ani", &bytes),
        Err(CursorError::WrongExtension)
    );
    assert_eq!(
        GenericCursor::from_cur_path("arrow", &bytes),
        Err(CursorError::WrongExtension)
    );
    let blob = ani(1, 0, None, None, &[bytes.clone()]);
    assert!(GenericCursor::from_ani_path("busy.ani", &blob).is_ok());
    assert_eq!(
        GenericCursor::from_ani_path("busy.cur", &blob),
        Err(CursorError::WrongExtension)
    );
    assert_eq!(
        GenericCursor::from_ani_path("busy.ani", &bytes),
        Err(CursorError::Ani(AniError::InvalidMagic))
    );
}

#[test]
fn single_step_with_a_delay_is_inconsistent() {
    let bytes = cur(&[(1, 1, (0, 0), [255, 0, 0, 255])]);
    let blob = ani(1, 6, None, None, &[bytes]);
    assert_eq!(
        GenericCursor::from_ani(&blob),
        Err(CursorError::InconsistentFrames)
    );
}

#[test]
fn square_frames_are_told_from_others() {
    assert!(frame(4, 4, 0).is_square());
    assert!(!frame(4, 5, 0).is_square());
}

/// The image data of an indexed bitmap: header, colour table, rows of pixel
/// values and rows of the mask, each row padded to four bytes.
fn bitmap(width: u32, height: u32, depth: u16, colours_used: u32, table: usize, rows: &[Vec<u8>]) -> Vec<u8> {
    let mut data = Vec::new();
    data.extend(le(40));
    data.extend(le(width));
    data.extend(le(2 * height));
    data.extend([1, 0]);
    data.extend(depth.to_le_bytes());
    data.extend(le(0));
    data.extend(le(0));
    data.extend(le(0));
    data.extend(le(0));
    data.extend(le(colours_used));
    data.extend(le(0));
    for i in 0..table {
        data.extend([10 * (i as u8 + 1), 20, 30, 0]);
    }
    for row in rows {
        data.extend(row);
        while data.len() % 4 != 0 {
            data.push(0xff);
        }
    }
    for _ in 0..height {
        data.extend(vec![0u8; 4 * (width as usize).div_ceil(32)]);
    }
    data
}

/// A `CUR` container with one entry that holds `data`.
fn cur_of(data: &[u8]) -> Vec<u8> {
    let mut out = vec![0, 0, 2, 0, 1, 0];
    out.extend([1, 1, 0, 0, 0, 0, 0, 0]);
    out.extend(le(data.len() as u32));
    out.extend(le(22));
    out.extend(data);
    out
}

#[test]
fn bitmap_with_a_whole_colour_table_is_decoded() {
    for colours_used in [0, 2] {
        let frames = read_cur(&cur_of(&bitmap(1, 1, 1, colours_used, 2, &[vec![0x80]]))).unwrap();
        assert_eq!(frames.len(), 1);
        assert_eq!(frames[0].dimensions(), (1, 1));
        assert_eq!(frames[0].rgba(), &[30, 20, 20, 255]);
    }
}

#[test]
fn bitmap_with_a_short_colour_table_is_decoded() {
    let data = bitmap(1, 1, 1, 1, 1, &[vec![0x7f]]);
    assert!(pixels_fit(&data));
    let frames = read_cur(&cur_of(&data)).unwrap();
    assert_eq!(frames[0].rgba(), &[30, 20, 10, 255]);

    // Three pixels of four bits, three colours; the low half of the second
    // byte stands for no pixel.
    let data = bitmap(3, 2, 4, 3, 3, &[vec![0x01, 0x2f], vec![0x22, 0x0f]]);
    assert!(pixels_fit(&data));
    let frames = read_cur(&cur_of(&data)).unwrap();
    assert_eq!(frames[0].dimensions(), (3, 2));
    // The rows stand from the bottom up.
    let blue = |i: u8| [30, 20, 10 * (i + 1), 255];
    let expected: Vec<u8> = [blue(2), blue(2), blue(0), blue(0), blue(1), blue(2)].concat();
    assert_eq!(frames[0].rgba(), expected.as_slice());

    let data = bitmap(2, 1, 8, 200, 200, &[vec![199, 0]]);
    assert!(pixels_fit(&data));
    let frames = read_cur(&cur_of(&data)).unwrap();
    assert_eq!(frames[0].rgba()[2], 208);
    let cursor = GenericCursor::from_cur(&cur_of(&data)).unwrap();
    assert_eq!(cursor.base_images()[0].dimensions(), (2, 1));
}

#[test]
fn animation_of_indexed_bitmaps_is_decoded() {
    let one = cur_of(&bitmap(1, 1, 1, 1, 1, &[vec![0x00]]));
    let blob = ani(2, 6, None, None, &[one.clone(), one]);
    let cursor = GenericCursor::from_ani(&blob).unwrap();
    assert_eq!(cursor.base_images().len(), 2);
    assert_eq!(cursor.base_images()[0].delay(), 100);
    assert_eq!(cursor.base_images()[1].rgba(), &[30, 20, 10, 255]);
}

#[test]
fn pixel_value_beyond_the_colour_table_is_refused() {
    let one = bitmap(1, 1, 1, 1, 1, &[vec![0x80]]);
    assert!(!pixels_fit(&one));
    assert_eq!(read_cur(&cur_of(&one)), Err(CurError::DecodeFailure));
    assert_eq!(
        GenericCursor::from_cur(&cur_of(&one)),
        Err(CursorError::Cur(CurError::DecodeFailure))
    );
    let four = bitmap(3, 2, 4, 3, 3, &[vec![0x01, 0x2f], vec![0x22, 0x3f]]);
    assert!(!pixels_fit(&four));
    assert_eq!(read_cur(&cur_of(&four)), Err(CurError::DecodeFailure));
    let eight = bitmap(5, 1, 8, 200, 200, &[vec![0, 1, 2, 3, 200]]);
    assert!(!pixels_fit(&eight));
    assert_eq!(read_cur(&cur_of(&eight)), Err(CurError::DecodeFailure));
}

#[test]
fn only_pixel_values_are_held_against_the_table() {
    // Padding, the mask and bits behind the last pixel of a row are not.
    assert!(pixels_fit(&bitmap(5, 1, 8, 2, 2, &[vec![0, 1, 1, 0, 1, 0xff, 0xff]])));
    assert!(pixels_fit(&bitmap(9, 1, 1, 1, 1, &[vec![0x00, 0x7f]])));
    assert!(!pixels_fit(&bitmap(9, 1, 1, 1, 1, &[vec![0x00, 0x80]])));
    // Data that ends before a pixel holds no value for it.
    let mut short = bitmap(2, 2, 8, 2, 2, &[vec![0, 1], vec![1, 7]]);
    short.truncate(40 + 8 + 4 + 1);
    assert!(pixels_fit(&short));
    short.push(7);
    assert!(!pixels_fit(&short));
    // Data that is no indexed bitmap passes.
    assert!(pixels_fit(&[]));
    assert!(pixels_fit(&[0u8; 39]));
    assert!(pixels_fit(&bitmap(1, 1, 24, 1, 0, &[vec![9, 9, 9]])));
    assert!(pixels_fit(&bitmap(1, 1, 32, 1, 0, &[vec![9, 9, 9, 9]])));
    let mut png = bitmap(1, 1, 1, 1, 1, &[vec![0x80]]);
    png[0..4].copy_from_slice(&[0x89, b'P', b'N', b'G']);
    assert!(pixels_fit(&png));
    let mut wrong_size = bitmap(1, 1, 1, 1, 1, &[vec![0x80]]);
    wrong_size[0] = 41;
    assert!(pixels_fit(&wrong_size));
    assert_eq!(read_cur(&cur_of(&wrong_size)), Err(CurError::DecodeFailure));
}

#[test]
fn file_is_read_by_its_extension() {
    let bytes = cur(&[(2, 2, (0, 0), [255, 0, 0, 255])]);
    let (cursor, warnings) = GenericCursor::from_path("arrow.cur", &bytes).unwrap();
    assert_eq!(cursor.num_images(), 1);
    assert!(warnings.is_empty());
    let blob = ani(2, 6, None, None, &[bytes.clone(), bytes.clone()]);
    let (cursor, warnings) = GenericCursor::from_path("busy.ani", &blob).unwrap();
    assert_eq!(cursor.num_images(), 2);
    assert!(warnings.is_empty());
    assert_eq!(
        GenericCursor::from_path("busy.png", &blob),
        Err(CursorError::WrongExtension)
    );
    assert_eq!(
        GenericCursor::from_path("busy.cur", &blob),
        Err(CursorError::Cur(CurError::DecodeFailure))
    );
    assert_eq!(
        GenericCursor::from_path("busy.ani", &bytes),
        Err(CursorError::Ani(AniError::InvalidMagic))
    );
}

#[test]
fn odd_cursor_files_give_warnings() {
    let bytes = cur(&[(2, 3, (0, 0), [1, 1, 1, 255]), (4, 6, (0, 0), [2, 2, 2, 255])]);
    let (_, warnings) = GenericCursor::from_path("a.cur", &bytes).unwrap();
    assert_eq!(
        warnings,
        vec![CursorWarning::MultipleImages, CursorWarning::NonSquare]
    );
    assert_eq!(
        cur_warnings(&[frame(2, 2, 0), frame(2, 2, 0)]),
        vec![CursorWarning::MultipleImages]
    );
    assert!(cur_warnings(&[]).is_empty());
    let one = cur(&[(2, 3, (0, 0), [1, 1, 1, 255])]);
    let blob = ani(2, 6, None, Some(&[1, 0]), &[one.clone(), one]);
    let mut flagged = blob.clone();
    // The flags are the last word of the header, whose 36 bytes follow
    // "ACON", "anih" and the size of the chunk.
    flagged[12 + 8 + 32..12 + 8 + 36].copy_from_slice(&le(1));
    let (_, warnings) = GenericCursor::from_path("a.ani", &flagged).unwrap();
    assert_eq!(
        warnings,
        vec![
            CursorWarning::Ani(AniWarning::NonLinearSequence),
            CursorWarning::NonSquare,
        ]
    );
}

#[test]
fn pixels_resampled_elsewhere_are_added() {
    let mut cursor = GenericCursor::new(vec![frame(2, 2, 10), frame(2, 2, 20)]).unwrap();
    let pixels = vec![vec![7u8; 64], vec![9u8; 64]];
    cursor.add_resampled(2, ScalingType::Upscale, &pixels).unwrap();
    let groups = cursor.scaled_images();
    assert_eq!(groups.len(), 1);
    assert_eq!(groups[0][0].dimensions(), (4, 4));
    assert_eq!(groups[0][0].rgba(), vec![7u8; 64].as_slice());
    assert_eq!(groups[0][1].rgba(), vec![9u8; 64].as_slice());
    assert_eq!(groups[0][1].delay(), 20);
    assert_eq!(
        cursor.scale_factors(),
        vec![ScaleFactor { num: 1, den: 1 }, ScaleFactor { num: 2, den: 1 }]
    );
    assert_eq!(
        cursor.add_resampled(2, ScalingType::Upscale, &pixels),
        Err(CursorError::DuplicateScaleFactor)
    );
    assert_eq!(
        cursor.add_resampled(3, ScalingType::Upscale, &pixels),
        Err(CursorError::Scale(ScaleError::ResampleFailed))
    );
    assert_eq!(
        cursor.add_resampled(3, ScalingType::Upscale, &vec![vec![0u8; 144]]),
        Err(CursorError::Scale(ScaleError::ResampleFailed))
    );
    assert_eq!(
        cursor.add_resampled(0, ScalingType::Upscale, &pixels),
        Err(CursorError::Scale(ScaleError::FactorOutOfRange))
    );
    assert_eq!(cursor.scaled_images().len(), 1);
}

#[test]
fn scaling_succeeds_wherever_nothing_refuses() {
    for n in 1..=20u32 {
        let mut cursor = GenericCursor::new(vec![frame(3, 5, 0)]).unwrap();
        let expected = if n == 1 { Err(CursorError::DuplicateScaleFactor) } else { Ok(()) };
        assert_eq!(
            cursor.add_scale(n, ScalingType::Upscale, ScalingAlgorithm::Lanczos3),
            expected
        );
    }
    for n in 2..=5u32 {
        let mut cursor = GenericCursor::new(vec![frame(7, 5, 0)]).unwrap();
        assert_eq!(
            cursor.add_scale(n, ScalingType::Downscale, ScalingAlgorithm::Mitchell),
            Ok(())
        );
    }
}

#[test]
fn bytes_are_read_as_the_kind_that_is_asked_for() {
    let bytes = cur(&[(2, 2, (0, 0), [255, 0, 0, 255])]);
    let (cursor, warnings) = GenericCursor::load(false, &bytes).unwrap();
    assert_eq!(cursor.num_images(), 1);
    assert!(warnings.is_empty());
    assert_eq!(
        GenericCursor::load(true, &bytes),
        Err(CursorError::Ani(AniError::InvalidMagic))
    );
}

#[test]
fn decoder_is_never_reached_with_a_value_beyond_the_table() {
    // Many small bitmaps with arbitrary headers, tables and pixels: none
    // makes the decoder fail otherwise than by an error.
    let mut state: u32 = 12345;
    let mut next = move |below: u32| {
        state = state.wrapping_mul(1_664_525).wrapping_add(1_013_904_223);
        (state >> 8) % below
    };
    for _ in 0..4000 {
        let depth = [1u16, 4, 8][next(3) as usize];
        let whole = 1u32 << depth;
        let width = 1 + next(12);
        let height = 1 + next(3);
        let colours_used = match next(3) {
            0 => 0,
            1 => 1 + next(whole),
            _ => whole + next(3),
        };
        let table = if colours_used == 0 || colours_used > whole { whole } else { colours_used } as usize;
        let row_bytes = ((width * depth as u32) as usize).div_ceil(8);
        let rows: Vec<Vec<u8>> = (0..height)
            .map(|_| (0..row_bytes).map(|_| if next(2) == 0 { 0 } else { next(256) as u8 }).collect())
            .collect();
        let mut data = bitmap(width, height, depth, colours_used, table, &rows);
        if next(4) == 0 {
            let keep = next(data.len() as u32 + 1) as usize;
            data.truncate(keep);
        }
        let fits = pixels_fit(&data);
        let decoded = read_cur(&cur_of(&data));
        if !fits {
            assert_eq!(decoded, Err(CurError::DecodeFailure));
        }
    }
}
