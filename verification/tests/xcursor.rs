use currust::cursors::cursor_image::{CursorImage, ScalingType};
use currust::cursors::generic_cursor::GenericCursor;
use currust::formats::xcursor::{
    pre_alpha_formula, to_pre_argb, ImageChunk, TableOfContents, Xcursor, XcursorError,
    COMMENT_TYPE, IMAGE_TYPE,
};
use currust::scaling::ScalingAlgorithm;

fn solid(width: u32, height: u32, pixel: [u8; 4]) -> Vec<u8> {
    let mut rgba = Vec::new();
    for _ in 0..(width * height) {
        rgba.extend(pixel);
    }
    rgba
}

fn frame(width: u32, height: u32, delay: u32) -> CursorImage {
    CursorImage::new_with_delay(width, height, 1, 0, solid(width, height, [1, 2, 3, 255]), delay)
        .unwrap()
}

fn word(bytes: &[u8], at: usize) -> u32 {
    u32::from_le_bytes([bytes[at], bytes[at + 1], bytes[at + 2], bytes[at + 3]])
}

#[test]
fn opaque_red_pixel_is_written_byte_for_byte() {
    let image = CursorImage::new(1, 1, 0, 0, vec![0xff, 0x00, 0x00, 0xff]).unwrap();
    let cursor = GenericCursor::new(vec![image]).unwrap();
    let bytes = cursor.save_as_xcursor().unwrap();
    let mut expected = b"Xcur".to_vec();
    for w in [16u32, 0x0001_0000, 1] {
        expected.extend(w.to_le_bytes());
    }
    for w in [0xfffd_0002u32, 1, 28] {
        expected.extend(w.to_le_bytes());
    }
    for w in [36u32, 0xfffd_0002, 1, 1, 1, 1, 0, 0, 0] {
        expected.extend(w.to_le_bytes());
    }
    expected.extend([0x00, 0x00, 0xff, 0xff]);
    assert_eq!(bytes, expected);
}

#[test]
fn two_frames_make_two_chunks() {
    let cursor = GenericCursor::new(vec![frame(16, 16, 100), frame(16, 16, 100)]).unwrap();
    let file = Xcursor::new(&cursor).unwrap();
    assert_eq!(file.num_images(), 2);
    let toc = file.toc();
    let chunk = 36 + 4 * 16 * 16;
    assert_eq!(
        toc,
        &[
            TableOfContents { chunk_type: IMAGE_TYPE, subtype: 16, position: 16 + 24 },
            TableOfContents { chunk_type: IMAGE_TYPE, subtype: 16, position: 16 + 24 + chunk },
        ]
    );
    let bytes = file.to_bytes();
    assert_eq!(bytes.len() as u32, 16 + 24 + 2 * chunk);
    assert_eq!(word(&bytes, 12), 2);
    for entry in toc {
        let p = entry.position as usize;
        assert_eq!(word(&bytes, p), 36);
        assert_eq!(word(&bytes, p + 4), IMAGE_TYPE);
        assert_eq!(word(&bytes, p + 8), 16);
        assert_eq!(word(&bytes, p + 12), 1);
        assert_eq!(word(&bytes, p + 16), 16);
        assert_eq!(word(&bytes, p + 20), 16);
        assert_eq!(word(&bytes, p + 24), 1);
        assert_eq!(word(&bytes, p + 28), 0);
        assert_eq!(word(&bytes, p + 32), 100);
        assert_eq!(&bytes[p + 36..p + 40], &[3, 2, 1, 255]);
    }
}

#[test]
fn comment_comes_before_the_images() {
    let mut cursor = GenericCursor::new(vec![frame(2, 1, 0)]).unwrap();
    cursor.set_info(Some("héllo".to_string()));
    let file = Xcursor::new(&cursor).unwrap();
    let text = "héllo".as_bytes();
    let toc = file.toc();
    assert_eq!(
        toc,
        &[
            TableOfContents { chunk_type: COMMENT_TYPE, subtype: 3, position: 40 },
            TableOfContents {
                chunk_type: IMAGE_TYPE,
                subtype: 2,
                position: 40 + 20 + text.len() as u32,
            },
        ]
    );
    let bytes = file.to_bytes();
    assert_eq!(word(&bytes, 12), 2);
    assert_eq!(word(&bytes, 16), COMMENT_TYPE);
    assert_eq!(word(&bytes, 20), 3);
    assert_eq!(word(&bytes, 24), 40);
    assert_eq!(word(&bytes, 40), 20);
    assert_eq!(word(&bytes, 44), COMMENT_TYPE);
    assert_eq!(word(&bytes, 48), 3);
    assert_eq!(word(&bytes, 52), 1);
    assert_eq!(word(&bytes, 56), text.len() as u32);
    assert_eq!(&bytes[60..60 + text.len()], text);
    let p = 60 + text.len();
    assert_eq!(word(&bytes, p), 36);
    assert_eq!(bytes.len(), p + 36 + 8);
}

#[test]
fn scaled_groups_follow_the_base() {
    let mut cursor = GenericCursor::new(vec![frame(2, 2, 10), frame(2, 2, 20)]).unwrap();
    cursor
        .add_scale(2, ScalingType::Upscale, ScalingAlgorithm::Nearest)
        .unwrap();
    let file = Xcursor::new(&cursor).unwrap();
    assert_eq!(file.num_images(), cursor.num_images());
    let sizes: Vec<u32> = file.toc().iter().map(|e| e.subtype).collect();
    assert_eq!(sizes, vec![2, 2, 4, 4]);
    let bytes = file.to_bytes();
    let delays: Vec<u32> = file
        .toc()
        .iter()
        .map(|e| word(&bytes, e.position as usize + 32))
        .collect();
    assert_eq!(delays, vec![10, 20, 10, 20]);
    let mut expected = 16 + 12 * 4;
    for entry in file.toc() {
        assert_eq!(entry.position, expected);
        let p = entry.position as usize;
        expected += 36 + 4 * word(&bytes, p + 16) * word(&bytes, p + 20);
    }
    assert_eq!(bytes.len() as u32, expected);
}

#[test]
fn image_over_the_limit_is_refused() {
    let wide = CursorImage::new(2049, 1, 0, 0, solid(2049, 1, [0; 4])).unwrap();
    let cursor = GenericCursor::new(vec![wide]).unwrap();
    assert_eq!(Xcursor::new(&cursor), Err(XcursorError::DimensionOutOfRange));
    assert_eq!(cursor.save_as_xcursor(), Err(XcursorError::DimensionOutOfRange));
    let high = CursorImage::new(1, 2049, 0, 0, solid(1, 2049, [0; 4])).unwrap();
    let cursor = GenericCursor::new(vec![high]).unwrap();
    assert_eq!(Xcursor::new(&cursor), Err(XcursorError::DimensionOutOfRange));
    let widest = CursorImage::new(2048, 1, 0, 0, solid(2048, 1, [0; 4])).unwrap();
    assert!(Xcursor::new(&GenericCursor::new(vec![widest]).unwrap()).is_ok());
}

#[test]
fn delay_over_a_minute_is_refused() {
    let cursor = GenericCursor::new(vec![frame(1, 1, 60_001), frame(1, 1, 1)]).unwrap();
    assert_eq!(Xcursor::new(&cursor), Err(XcursorError::DelayOutOfRange));
    let cursor = GenericCursor::new(vec![frame(1, 1, 60_000), frame(1, 1, 1)]).unwrap();
    assert!(Xcursor::new(&cursor).is_ok());
}

#[test]
fn first_bad_frame_decides_the_error() {
    let wide = |delay| CursorImage::new_with_delay(3000, 1, 0, 0, solid(3000, 1, [0; 4]), delay).unwrap();
    let cursor = GenericCursor::new_with_scaled(
        vec![frame(1, 1, 5), frame(1, 1, 70_000)],
        vec![vec![wide(5), wide(6)]],
    )
    .unwrap();
    assert_eq!(Xcursor::new(&cursor), Err(XcursorError::DelayOutOfRange));
    let cursor = GenericCursor::new_with_scaled(
        vec![wide(5), wide(70_000)],
        vec![vec![frame(1, 1, 5), frame(1, 1, 6)]],
    )
    .unwrap();
    assert_eq!(Xcursor::new(&cursor), Err(XcursorError::DimensionOutOfRange));
}

#[test]
fn largest_frames_fit() {
    let big = solid(2048, 2048, [0; 4]);
    let mut frames = Vec::new();
    for _ in 0..2 {
        frames.push(CursorImage::new_with_delay(2048, 2048, 0, 0, big.clone(), 1).unwrap());
    }
    let cursor = GenericCursor::new(frames).unwrap();
    let file = Xcursor::new(&cursor).unwrap();
    assert_eq!(file.toc()[1].position, 16 + 24 + 36 + 4 * 2048 * 2048);
}

#[test]
fn parts_are_tested_in_order() {
    assert_eq!(
        ImageChunk::from_parts(0, 1, 5, 5, 70_000, vec![]),
        Err(XcursorError::DimensionOutOfRange)
    );
    assert_eq!(
        ImageChunk::from_parts(1, 2049, 5, 5, 70_000, vec![]),
        Err(XcursorError::DimensionOutOfRange)
    );
    assert_eq!(
        ImageChunk::from_parts(1, 1, 2, 0, 70_000, vec![]),
        Err(XcursorError::HotspotOutOfRange)
    );
    assert_eq!(
        ImageChunk::from_parts(1, 1, 0, 2, 70_000, vec![]),
        Err(XcursorError::HotspotOutOfRange)
    );
    assert_eq!(
        ImageChunk::from_parts(1, 1, 1, 1, 60_001, vec![]),
        Err(XcursorError::DelayOutOfRange)
    );
    assert_eq!(
        ImageChunk::from_parts(1, 1, 1, 1, 60_000, vec![]),
        Err(XcursorError::PixelCountMismatch)
    );
    assert!(ImageChunk::from_parts(2, 3, 2, 3, 60_000, vec![0; 6]).is_ok());
}

#[test]
fn chunk_of_a_frame_points_to_its_position() {
    let (_, entry) = ImageChunk::new(&frame(3, 5, 0), 1234).unwrap();
    assert_eq!(
        entry,
        TableOfContents { chunk_type: IMAGE_TYPE, subtype: 5, position: 1234 }
    );
}

#[test]
fn alpha_is_multiplied_in_and_rounded() {
    assert_eq!(pre_alpha_formula(255, 255), 255);
    assert_eq!(pre_alpha_formula(255, 0), 0);
    assert_eq!(pre_alpha_formula(0, 255), 0);
    assert_eq!(pre_alpha_formula(255, 128), 128);
    assert_eq!(pre_alpha_formula(100, 128), 50);
    assert_eq!(pre_alpha_formula(1, 127), 0);
    assert_eq!(pre_alpha_formula(1, 128), 1);
    assert_eq!(pre_alpha_formula(200, 100), 78);
}

#[test]
fn opaque_pixels_keep_their_colours() {
    for c in 0..=255u8 {
        assert_eq!(pre_alpha_formula(c, 255), c);
    }
    let words = to_pre_argb(&[10, 20, 30, 255, 1, 2, 3, 255]);
    assert_eq!(words.len(), 2);
    assert_eq!(words[0].to_le_bytes(), [30, 20, 10, 255]);
    assert_eq!(words[1].to_le_bytes(), [3, 2, 1, 255]);
    assert_eq!(words[0].to_be_bytes(), [255, 10, 20, 30]);
}

#[test]
fn translucent_pixels_are_premultiplied() {
    let words = to_pre_argb(&[255, 100, 0, 128]);
    assert_eq!(words, vec![u32::from_le_bytes([0, 50, 128, 128])]);
}

#[test]
fn bytes_after_the_last_pixel_are_left_out() {
    assert_eq!(to_pre_argb(&[1, 2, 3, 255, 9, 9]).len(), 1);
    assert!(to_pre_argb(&[1, 2, 3]).is_empty());
}

struct Loaded {
    size: u32,
    width: u32,
    height: u32,
    xhot: u32,
    yhot: u32,
    delay: u32,
    pixels: Vec<u32>,
}

/// Reads a file the way a loader of the format does: header, table of
/// contents, then each image chunk at the position its entry gives.
fn load(bytes: &[u8]) -> Option<Vec<Loaded>> {
    if bytes.get(0..4)? != b"Xcur" {
        return None;
    }
    let header = word(bytes, 4) as usize;
    let version = word(bytes, 8);
    let ntoc = word(bytes, 12) as usize;
    if header < 16 || version != 0x0001_0000 {
        return None;
    }
    let mut images = Vec::new();
    for i in 0..ntoc {
        let entry = header + 12 * i;
        if bytes.len() < entry + 12 {
            return None;
        }
        let (kind, subtype, position) =
            (word(bytes, entry), word(bytes, entry + 4), word(bytes, entry + 8) as usize);
        if kind != 0xfffd_0002 {
            continue;
        }
        if bytes.len() < position + 36 {
            return None;
        }
        if word(bytes, position) != 36
            || word(bytes, position + 4) != kind
            || word(bytes, position + 8) != subtype
            || word(bytes, position + 12) != 1
        {
            return None;
        }
        let width = word(bytes, position + 16);
        let height = word(bytes, position + 20);
        let xhot = word(bytes, position + 24);
        let yhot = word(bytes, position + 28);
        if width == 0 || height == 0 || width > 0x7fff || height > 0x7fff {
            return None;
        }
        if xhot > width || yhot > height {
            return None;
        }
        let count = (width * height) as usize;
        if bytes.len() < position + 36 + 4 * count {
            return None;
        }
        let pixels = (0..count).map(|k| word(bytes, position + 36 + 4 * k)).collect();
        images.push(Loaded {
            size: subtype,
            width,
            height,
            xhot,
            yhot,
            delay: word(bytes, position + 32),
            pixels,
        });
    }
    Some(images)
}

#[test]
fn loader_finds_every_frame() {
    let a = CursorImage::new_with_delay(3, 2, 1, 2, solid(3, 2, [10, 20, 30, 128]), 40).unwrap();
    let b = CursorImage::new_with_delay(3, 2, 3, 0, solid(3, 2, [1, 2, 3, 255]), 50).unwrap();
    let mut cursor = GenericCursor::new(vec![a, b]).unwrap();
    cursor.set_info(Some("hello".to_string()));
    cursor
        .add_scale(2, ScalingType::Upscale, ScalingAlgorithm::Nearest)
        .unwrap();
    let bytes = cursor.save_as_xcursor().unwrap();
    let loaded = load(&bytes).unwrap();
    let frames = cursor.joined_images();
    assert_eq!(loaded.len(), cursor.num_images());
    assert_eq!(loaded.len(), 4);
    for (image, frame) in loaded.iter().zip(frames) {
        assert_eq!(image.size, frame.nominal_size());
        assert_eq!((image.width, image.height), frame.dimensions());
        assert_eq!((image.xhot, image.yhot), frame.hotspot());
        assert_eq!(image.delay, frame.delay());
        assert_eq!(image.pixels, to_pre_argb(frame.rgba()));
    }
    assert_eq!(loaded[0].pixels[0].to_be_bytes(), [128, 5, 10, 15]);
    assert_eq!(loaded[2].width, 6);
}
