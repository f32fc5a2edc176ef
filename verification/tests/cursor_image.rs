use currust::cursors::cursor_image::{
    CursorImage, ImageError, ScaleError, ScalingType, MAX_DOWNSCALE_FACTOR, MAX_UPSCALE_FACTOR,
};
use currust::cursors::cursor_images::{CursorImages, InconsistentFrames};
use currust::scaling::ScalingAlgorithm;

fn solid(width: u32, height: u32, pixel: [u8; 4]) -> Vec<u8> {
    let mut rgba = Vec::new();
    for _ in 0..(width * height) {
        rgba.extend(pixel);
    }
    rgba
}

#[test]
fn new_accepts_matching_buffer() {
    let image = CursorImage::new(1, 1, 0, 0, vec![255, 0, 0, 255]).unwrap();
    assert_eq!(image.dimensions(), (1, 1));
    assert_eq!(image.hotspot(), (0, 0));
    assert_eq!(image.delay(), 0);
    assert_eq!(image.rgba(), &[255, 0, 0, 255]);
    assert_eq!(image.nominal_size(), 1);
}

#[test]
fn new_with_delay_keeps_the_delay() {
    let image = CursorImage::new_with_delay(2, 3, 2, 3, solid(2, 3, [1, 2, 3, 4]), 100).unwrap();
    assert_eq!(image.dimensions(), (2, 3));
    assert_eq!(image.hotspot(), (2, 3));
    assert_eq!(image.delay(), 100);
    assert_eq!(image.nominal_size(), 3);
}

#[test]
fn new_rejects_zero_width() {
    assert_eq!(
        CursorImage::new(0, 1, 0, 0, vec![]),
        Err(ImageError::ZeroDimension)
    );
}

#[test]
fn new_rejects_zero_height() {
    assert_eq!(
        CursorImage::new(1, 0, 0, 0, vec![]),
        Err(ImageError::ZeroDimension)
    );
}

#[test]
fn new_rejects_hotspot_beyond_the_image() {
    assert_eq!(
        CursorImage::new(1, 1, 2, 0, vec![0; 4]),
        Err(ImageError::HotspotOutOfRange)
    );
    assert_eq!(
        CursorImage::new(1, 1, 0, 2, vec![0; 4]),
        Err(ImageError::HotspotOutOfRange)
    );
    assert!(CursorImage::new(1, 1, 1, 1, vec![0; 4]).is_ok());
}

#[test]
fn new_rejects_buffer_of_wrong_length() {
    assert_eq!(
        CursorImage::new(2, 2, 0, 0, vec![0; 15]),
        Err(ImageError::BufferSizeMismatch)
    );
    assert_eq!(
        CursorImage::new(2, 2, 0, 0, vec![0; 17]),
        Err(ImageError::BufferSizeMismatch)
    );
}

#[test]
fn huge_dimensions_do_not_overflow() {
    assert_eq!(
        CursorImage::new(u32::MAX, u32::MAX, 0, 0, vec![0; 4]),
        Err(ImageError::BufferSizeMismatch)
    );
}

#[test]
fn clone_is_equal() {
    let image = CursorImage::new_with_delay(1, 1, 1, 0, vec![9, 8, 7, 6], 5).unwrap();
    assert_eq!(image.clone(), image);
}

#[test]
fn upscale_multiplies_size_and_hotspot() {
    let image = CursorImage::new_with_delay(2, 3, 1, 2, solid(2, 3, [10, 20, 30, 255]), 7).unwrap();
    let scaled = image
        .scaled_to(3, ScalingType::Upscale, ScalingAlgorithm::Nearest)
        .unwrap();
    assert_eq!(scaled.dimensions(), (6, 9));
    assert_eq!(scaled.hotspot(), (3, 6));
    assert_eq!(scaled.delay(), 7);
    assert_eq!(scaled.rgba().len(), 4 * 6 * 9);
    assert_eq!(scaled.rgba(), solid(6, 9, [10, 20, 30, 255]).as_slice());
}

#[test]
fn downscale_divides_and_rounds_towards_zero() {
    let image = CursorImage::new(5, 7, 3, 7, solid(5, 7, [10, 20, 30, 255])).unwrap();
    let scaled = image
        .scaled_to(2, ScalingType::Downscale, ScalingAlgorithm::Box)
        .unwrap();
    assert_eq!(scaled.dimensions(), (2, 3));
    assert_eq!(scaled.hotspot(), (1, 3));
    assert_eq!(scaled.rgba().len(), 4 * 2 * 3);
    assert_eq!(scaled.rgba(), solid(2, 3, [10, 20, 30, 255]).as_slice());
}

#[test]
fn every_algorithm_gives_the_scaled_size() {
    let image = CursorImage::new(4, 4, 0, 0, solid(4, 4, [1, 2, 3, 255])).unwrap();
    for algorithm in [
        ScalingAlgorithm::Nearest,
        ScalingAlgorithm::Box,
        ScalingAlgorithm::Bilinear,
        ScalingAlgorithm::Mitchell,
        ScalingAlgorithm::Lanczos3,
    ] {
        let up = image.scaled_to(2, ScalingType::Upscale, algorithm).unwrap();
        assert_eq!(up.dimensions(), (8, 8));
        assert_eq!(up.rgba().len(), 256);
        let down = image.scaled_to(2, ScalingType::Downscale, algorithm).unwrap();
        assert_eq!(down.dimensions(), (2, 2));
        assert_eq!(down.rgba().len(), 16);
    }
}

#[test]
fn nearest_upscale_repeats_pixels() {
    let rgba = vec![255, 0, 0, 255, 0, 255, 0, 255];
    let image = CursorImage::new(2, 1, 0, 0, rgba).unwrap();
    let scaled = image.upscaled_to(2).unwrap();
    assert_eq!(scaled.dimensions(), (4, 2));
    let red = [255, 0, 0, 255];
    let green = [0, 255, 0, 255];
    let row: Vec<u8> = [red, red, green, green].concat();
    let expected: Vec<u8> = [row.clone(), row].concat();
    assert_eq!(scaled.rgba(), expected.as_slice());
}

#[test]
fn downscaled_to_uses_the_box_mean() {
    let image = CursorImage::new(2, 2, 0, 0, solid(2, 2, [40, 80, 120, 255])).unwrap();
    let scaled = image.downscaled_to(2).unwrap();
    assert_eq!(scaled.dimensions(), (1, 1));
    assert_eq!(scaled.rgba(), &[40, 80, 120, 255]);
}

#[test]
fn factor_zero_is_out_of_range() {
    let image = CursorImage::new(1, 1, 0, 0, vec![0; 4]).unwrap();
    assert_eq!(
        image.scaled_to(0, ScalingType::Upscale, ScalingAlgorithm::Nearest),
        Err(ScaleError::FactorOutOfRange)
    );
    assert_eq!(
        image.scaled_to(0, ScalingType::Downscale, ScalingAlgorithm::Box),
        Err(ScaleError::FactorOutOfRange)
    );
}

#[test]
fn factor_beyond_the_largest_is_out_of_range() {
    let image = CursorImage::new(8, 8, 0, 0, solid(8, 8, [0; 4])).unwrap();
    assert_eq!(MAX_UPSCALE_FACTOR, 20);
    assert_eq!(MAX_DOWNSCALE_FACTOR, 5);
    assert_eq!(image.upscaled_to(21), Err(ScaleError::FactorOutOfRange));
    assert_eq!(image.downscaled_to(6), Err(ScaleError::FactorOutOfRange));
    assert!(image.upscaled_to(20).is_ok());
    assert!(image.downscaled_to(5).is_ok());
}

#[test]
fn downscale_to_nothing_is_refused() {
    let image = CursorImage::new(1, 4, 0, 0, solid(1, 4, [0; 4])).unwrap();
    assert_eq!(
        image.downscaled_to(2),
        Err(ScaleError::DimensionOutOfRange)
    );
}

#[test]
fn scaled_dimensions_are_computed_without_resampling() {
    let image = CursorImage::new(3, 9, 0, 0, solid(3, 9, [0; 4])).unwrap();
    assert_eq!(image.scaled_dimensions(4, ScalingType::Upscale), Ok((12, 36)));
    assert_eq!(image.scaled_dimensions(3, ScalingType::Downscale), Ok((1, 3)));
    assert_eq!(
        image.scaled_dimensions(4, ScalingType::Downscale),
        Err(ScaleError::DimensionOutOfRange)
    );
}

#[test]
fn from_resampled_checks_the_pixels() {
    let image = CursorImage::new_with_delay(2, 2, 1, 1, solid(2, 2, [0; 4]), 3).unwrap();
    assert_eq!(
        image.from_resampled(2, ScalingType::Upscale, None),
        Err(ScaleError::ResampleFailed)
    );
    assert_eq!(
        image.from_resampled(2, ScalingType::Upscale, Some(vec![0; 63])),
        Err(ScaleError::ResampleFailed)
    );
    let scaled = image
        .from_resampled(2, ScalingType::Upscale, Some(vec![5; 64]))
        .unwrap();
    assert_eq!(scaled.dimensions(), (4, 4));
    assert_eq!(scaled.hotspot(), (2, 2));
    assert_eq!(scaled.delay(), 3);
    assert_eq!(scaled.rgba(), vec![5u8; 64].as_slice());
}

#[test]
fn frames_must_not_be_empty() {
    assert_eq!(CursorImages::new(vec![]), Err(InconsistentFrames));
}

#[test]
fn single_frame_must_be_static() {
    let still = CursorImage::new(1, 1, 0, 0, vec![0; 4]).unwrap();
    let moving = CursorImage::new_with_delay(1, 1, 0, 0, vec![0; 4], 10).unwrap();
    assert!(CursorImages::new(vec![still]).is_ok());
    assert_eq!(CursorImages::new(vec![moving]), Err(InconsistentFrames));
}

#[test]
fn several_frames_must_all_have_a_delay() {
    let a = CursorImage::new_with_delay(1, 1, 0, 0, vec![0; 4], 10).unwrap();
    let b = CursorImage::new_with_delay(1, 1, 0, 0, vec![1; 4], 20).unwrap();
    let still = CursorImage::new(1, 1, 0, 0, vec![0; 4]).unwrap();
    let frames = CursorImages::new(vec![a.clone(), b.clone()]).unwrap();
    assert_eq!(frames.len(), 2);
    assert_eq!(frames.inner(), &[a.clone(), b]);
    assert_eq!(frames.first(), &a);
    assert_eq!(frames.dimensions(), (1, 1));
    assert_eq!(frames.nominal_size(), 1);
    assert_eq!(CursorImages::new(vec![a, still]), Err(InconsistentFrames));
}

#[test]
fn frames_must_share_their_dimensions() {
    let a = CursorImage::new_with_delay(1, 1, 0, 0, vec![0; 4], 10).unwrap();
    let b = CursorImage::new_with_delay(1, 2, 0, 0, vec![0; 8], 10).unwrap();
    assert_eq!(CursorImages::new(vec![a, b]), Err(InconsistentFrames));
}

#[test]
fn scaling_frames_keeps_count_and_delays() {
    let a = CursorImage::new_with_delay(2, 2, 1, 1, solid(2, 2, [1, 1, 1, 255]), 10).unwrap();
    let b = CursorImage::new_with_delay(2, 2, 0, 2, solid(2, 2, [2, 2, 2, 255]), 20).unwrap();
    let frames = CursorImages::new(vec![a, b]).unwrap();
    let scaled = frames
        .scaled_to(2, ScalingType::Upscale, ScalingAlgorithm::Nearest)
        .unwrap();
    assert_eq!(scaled.len(), 2);
    assert_eq!(scaled.dimensions(), (4, 4));
    assert_eq!(scaled.inner()[0].delay(), 10);
    assert_eq!(scaled.inner()[1].delay(), 20);
    assert_eq!(scaled.inner()[1].hotspot(), (0, 4));
    assert_eq!(scaled.clone(), scaled);
}
