use rustlock::effects::Screenshot;
use rustlock::pixels::{
    convert_xbgr8888_to_argb32, convert_xrgb8888_to_argb32, flip_rows, frame_to_argb, pack_rows,
    write_rows, FrameError, PixelFormat,
};
use rustlock::status::{icon_to_argb, rgba_to_bgra};

#[test]
fn xbgr_to_argb_swaps_and_opaques() {
    let data = [1u8, 2, 3, 4, 10, 20, 30, 40];
    assert_eq!(convert_xbgr8888_to_argb32(&data, 2, 1), vec![3, 2, 1, 255, 30, 20, 10, 255]);
}

#[test]
fn xrgb_to_argb_keeps_order_and_opaques() {
    let data = [1u8, 2, 3, 4, 10, 20, 30, 40];
    assert_eq!(convert_xrgb8888_to_argb32(&data, 1, 2), vec![1, 2, 3, 255, 10, 20, 30, 255]);
}

#[test]
fn pack_flip_write_rows() {
    // Two rows of one pixel, stride 6.
    let data = [1u8, 2, 3, 4, 9, 9, 5, 6, 7, 8, 9, 9];
    let packed = pack_rows(&data, 4, 2, 6);
    assert_eq!(packed, vec![1, 2, 3, 4, 5, 6, 7, 8]);
    let flipped = flip_rows(&packed, 4, 2);
    assert_eq!(flipped, vec![5, 6, 7, 8, 1, 2, 3, 4]);
    assert_eq!(flip_rows(&flipped, 4, 2), packed);
    let mut target = vec![0u8; 12];
    write_rows(&mut target, &flipped, 4, 2, 6);
    assert_eq!(target, vec![5, 6, 7, 8, 0, 0, 1, 2, 3, 4, 0, 0]);
}

#[test]
fn pack_rows_past_the_end_are_zero() {
    let data = [1u8, 2, 3, 4];
    assert_eq!(pack_rows(&data, 4, 2, 4), vec![1, 2, 3, 4, 0, 0, 0, 0]);
}

#[test]
fn frame_stride_too_small_is_refused() {
    let canvas = vec![0u8; 16];
    assert_eq!(frame_to_argb(&canvas, 2, 2, 7, PixelFormat::Argb8888, false), Err(FrameError::StrideTooSmall));
}

#[test]
fn frame_converts_and_inverts() {
    // 1 pixel wide, 2 rows, stride 8 (4 bytes padding), Xbgr.
    let canvas = vec![1u8, 2, 3, 0, 7, 7, 7, 7, 4, 5, 6, 0, 7, 7, 7, 7];
    let out = frame_to_argb(&canvas, 1, 2, 8, PixelFormat::Xbgr8888, true).unwrap();
    assert_eq!(out, vec![6, 5, 4, 255, 3, 2, 1, 255]);
    let out = frame_to_argb(&canvas, 1, 2, 8, PixelFormat::Argb8888, false).unwrap();
    assert_eq!(out, vec![1, 2, 3, 0, 4, 5, 6, 0]);
    let out = frame_to_argb(&canvas, 1, 2, 8, PixelFormat::Other, false).unwrap();
    assert_eq!(out, vec![1, 2, 3, 0, 4, 5, 6, 0]);
}

#[test]
fn screenshot_shape_is_checked() {
    assert!(Screenshot::new(vec![0u8; 16], 2, 2, 8).is_some());
    assert!(Screenshot::new(vec![0u8; 15], 2, 2, 8).is_none());
    assert!(Screenshot::new(vec![0u8; 12], 2, 2, 6).is_none());
    let shot = Screenshot::new(vec![5u8; 8], 1, 2, 4).unwrap();
    assert_eq!(shot.into_inner(), vec![5u8; 8]);
}

#[test]
fn pixelate_averages_each_square() {
    // 3 x 2 image, stride 16 (4 bytes padding per row), squares of 2.
    let mut data = vec![0u8; 32];
    let px = |d: &mut Vec<u8>, x: usize, y: usize, c: [u8; 4]| {
        let at = y * 16 + x * 4;
        d[at..at + 4].copy_from_slice(&c);
    };
    px(&mut data, 0, 0, [10, 20, 30, 1]);
    px(&mut data, 1, 0, [20, 30, 40, 2]);
    px(&mut data, 0, 1, [30, 40, 50, 3]);
    px(&mut data, 1, 1, [41, 50, 60, 4]);
    px(&mut data, 2, 0, [100, 0, 7, 5]);
    px(&mut data, 2, 1, [201, 0, 8, 6]);
    data[12] = 99;
    data[28] = 98;
    let mut shot = Screenshot::new(data, 3, 2, 16).unwrap();
    shot.apply_pixelate(2);
    let out = shot.into_inner();
    // Left square: (10+20+30+41)/4 = 25, (20+30+40+50)/4 = 35, (30+40+50+60)/4 = 45.
    for (x, y, a) in [(0usize, 0usize, 1u8), (1, 0, 2), (0, 1, 3), (1, 1, 4)] {
        let at = y * 16 + x * 4;
        assert_eq!(&out[at..at + 4], &[25, 35, 45, a]);
    }
    // Right square is clipped to one column: (100+201)/2 = 150, 0, 7.
    assert_eq!(&out[8..12], &[150, 0, 7, 5]);
    assert_eq!(&out[24..28], &[150, 0, 7, 6]);
    // Padding is kept.
    assert_eq!(out[12], 99);
    assert_eq!(out[28], 98);
}

#[test]
fn pixelate_size_one_keeps_image() {
    let data: Vec<u8> = (0u8..16).collect();
    let mut shot = Screenshot::new(data.clone(), 2, 2, 8).unwrap();
    shot.apply_pixelate(1);
    assert_eq!(shot.into_inner(), data);
    let mut shot = Screenshot::new(data.clone(), 2, 2, 8).unwrap();
    shot.apply_pixelate(0);
    assert_eq!(shot.into_inner(), data);
}

#[test]
fn pixelate_twice_changes_nothing_more() {
    let data: Vec<u8> = (0u8..64).map(|v| v.wrapping_mul(37)).collect();
    let mut shot = Screenshot::new(data, 4, 4, 16).unwrap();
    shot.apply_pixelate(3);
    let once = shot.into_inner();
    let mut shot = Screenshot::new(once.clone(), 4, 4, 16).unwrap();
    shot.apply_pixelate(3);
    assert_eq!(shot.into_inner(), once);
}

#[test]
fn blur_changes_colours_but_keeps_alpha_and_padding() {
    // 4 x 4 image, stride 20: one bright pixel in the middle of black.
    let mut data = vec![0u8; 80];
    for y in 0..4 {
        for x in 0..4 {
            data[y * 20 + x * 4 + 3] = 200;
        }
        data[y * 20 + 16] = 77;
    }
    data[20 + 4] = 255;
    data[20 + 5] = 255;
    data[20 + 6] = 255;
    let original = data.clone();
    let mut shot = Screenshot::new(data, 4, 4, 20).unwrap();
    shot.apply_blur(2, 1);
    let out = shot.into_inner();
    assert_ne!(out, original);
    for y in 0..4 {
        for x in 0..4 {
            assert_eq!(out[y * 20 + x * 4 + 3], 200);
        }
        assert_eq!(out[y * 20 + 16], 77);
    }
    // The bright pixel has spread to its neighbour.
    assert!(out[20 + 8] > 0);
}

#[test]
fn blur_with_zero_radius_or_passes_keeps_image() {
    let data: Vec<u8> = (0u8..64).collect();
    let mut shot = Screenshot::new(data.clone(), 4, 4, 16).unwrap();
    shot.apply_blur(0, 3);
    assert_eq!(shot.into_inner(), data);
    let mut shot = Screenshot::new(data.clone(), 4, 4, 16).unwrap();
    shot.apply_blur(3, 0);
    assert_eq!(shot.into_inner(), data);
}

#[test]
fn icon_rgba_and_rgb_become_argb() {
    // 2 x 1 RGBA icon with rowstride 8.
    let rgba = [1u8, 2, 3, 4, 5, 6, 7, 8];
    assert_eq!(icon_to_argb(&rgba, 2, 1, 8, 4), vec![3, 2, 1, 4, 7, 6, 5, 8]);
    // 1 x 2 RGB icon with rowstride 4 (one byte of padding per row).
    let rgb = [1u8, 2, 3, 0, 4, 5, 6, 0];
    assert_eq!(icon_to_argb(&rgb, 1, 2, 4, 3), vec![3, 2, 1, 255, 6, 5, 4, 255]);
    // Other channel counts give a blank image.
    assert_eq!(icon_to_argb(&rgb, 1, 2, 4, 2), vec![0u8; 8]);
}

#[test]
fn svg_rgba_to_bgra_swaps_red_and_blue() {
    let data = [1u8, 2, 3, 4, 5, 6, 7, 8];
    let once = rgba_to_bgra(&data);
    assert_eq!(once, vec![3, 2, 1, 4, 7, 6, 5, 8]);
    assert_eq!(rgba_to_bgra(&once), data.to_vec());
}

#[test]
fn encoded_art_becomes_argb() {
    let img = image::RgbaImage::from_raw(2, 1, vec![1, 2, 3, 4, 5, 6, 7, 8]).unwrap();
    let mut bytes = Vec::new();
    img.write_to(&mut std::io::Cursor::new(&mut bytes), image::ImageFormat::Png).unwrap();
    let (px, w, h) = rustlock::status::art_image(&bytes).unwrap();
    assert_eq!((w, h), (2, 1));
    assert_eq!(px, vec![3, 2, 1, 4, 7, 6, 5, 8]);
    assert!(rustlock::status::art_image(b"not an image").is_none());
}

#[test]
fn svg_icon_is_rendered_as_argb() {
    let svg = br##"<svg xmlns="http://www.w3.org/2000/svg" width="2" height="1"><rect width="2" height="1" fill="#ff0000"/></svg>"##;
    let (px, w, h) = rustlock::status::svg_icon(svg).unwrap();
    assert_eq!((w, h), (2, 1));
    assert_eq!(px, vec![0, 0, 255, 255, 0, 0, 255, 255]);
    assert!(rustlock::status::svg_icon(b"<nope").is_none());
}

#[test]
fn frame_small_stride_is_refused_whatever_the_canvas() {
    // The canvas is far too short for the rows; the stride is refused first.
    let canvas = vec![0u8; 3];
    assert_eq!(frame_to_argb(&canvas, 4, 10, 8, PixelFormat::Xrgb8888, true), Err(FrameError::StrideTooSmall));
}

#[test]
fn blur_radius_as_wide_as_a_square_image() {
    // 5 x 5, radius 5: every box reaches past the row, but not past the height
    // while being narrower than it, so the blur runs. A flat image stays flat.
    let mut data = vec![0u8; 100];
    for p in 0..25 {
        data[p * 4] = 40;
        data[p * 4 + 1] = 80;
        data[p * 4 + 2] = 120;
        data[p * 4 + 3] = 9;
    }
    let mut shot = Screenshot::new(data.clone(), 5, 5, 20).unwrap();
    shot.apply_blur(5, 1);
    assert_eq!(shot.into_inner(), data);
}

#[test]
fn blur_of_an_empty_image_is_empty() {
    let mut shot = Screenshot::new(Vec::new(), 0, 0, 0).unwrap();
    shot.apply_blur(3, 2);
    assert!(shot.into_inner().is_empty());
}

#[test]
fn blur_of_a_tall_narrow_image_with_a_large_radius() {
    // 2 x 3 with radius 10: the boxes are wider than the image is tall.
    let mut data = vec![0u8; 24];
    for p in 0..6 {
        data[p * 4 + 3] = 255;
    }
    data[0] = 255;
    let mut shot = Screenshot::new(data, 2, 3, 8).unwrap();
    shot.apply_blur(10, 1);
    let out = shot.into_inner();
    assert_eq!(out.len(), 24);
    for p in 0..6 {
        assert_eq!(out[p * 4 + 3], 255);
    }
}
