use dsh_launcher::icons::{
    crop_middle, crop_size, draw_frame, lamp_alpha, load_tray_icons, Picture, FRAME_COUNT,
};
use image::ImageEncoder;

/// A picture whose pixels tell where they are.
fn numbered(width: u32, height: u32) -> Picture {
    let mut pixels = Vec::new();
    for y in 0..height {
        for x in 0..width {
            pixels.extend_from_slice(&[x as u8, y as u8, 7, 255]);
        }
    }
    Picture { width, height, pixels }
}

fn at(p: &Picture, x: u32, y: u32) -> [u8; 4] {
    let i = 4 * (y * p.width + x) as usize;
    [p.pixels[i], p.pixels[i + 1], p.pixels[i + 2], p.pixels[i + 3]]
}

fn ico(p: &Picture) -> Vec<u8> {
    let mut out = Vec::new();
    image::codecs::ico::IcoEncoder::new(&mut out)
        .write_image(&p.pixels, p.width, p.height, image::ExtendedColorType::Rgba8)
        .unwrap();
    out
}

#[test]
fn crop_is_the_share_of_the_side() {
    assert_eq!(crop_size(984), 760);
    assert_eq!(crop_size(256), 198);
    assert_eq!(crop_size(0), 0);
    assert_eq!(crop_size(1), 1);
    for side in 0..5000u32 {
        let exact = (side as f64 * (760.0 / 984.0)).round() as u32;
        assert_eq!(crop_size(side), exact);
    }
    for side in [u32::MAX, u32::MAX - 1, 123_456_789] {
        let exact = (side as f64 * (760.0 / 984.0)).round() as u32;
        assert_eq!(crop_size(side), exact);
    }
}

#[test]
fn middle_is_cut_out() {
    let p = numbered(20, 10);
    let m = crop_middle(&p);
    assert_eq!((m.width, m.height), (8, 8));
    assert_eq!(at(&m, 0, 0), [6, 1, 7, 255]);
    assert_eq!(at(&m, 7, 7), [13, 8, 7, 255]);
}

/// How opaque the white over a column is, in floating point.
fn float_alpha(i: usize, x: u32) -> u8 {
    let t = i as f32 / FRAME_COUNT as f32;
    let tri = (2.0 * t).fract();
    let wave = 1.0 - (2.0 * tri - 1.0).abs();
    let center = 1.0 + wave * (32.0 - 2.0);
    let dist = (x as f32 + 0.5 - center).abs();
    let alpha: f32 = if dist <= 1.0 {
        255.0
    } else if dist - 1.0 < 6.0 {
        180.0 * (6.0 - (dist - 1.0)) / 6.0
    } else {
        0.0
    };
    alpha.round().clamp(0.0, 255.0) as u8
}

#[test]
fn lamp_as_in_floating_point() {
    for i in 0..FRAME_COUNT {
        for x in 0..32u32 {
            assert_eq!(lamp_alpha(i, x), float_alpha(i, x), "{} {}", i, x);
        }
    }
    assert_eq!(lamp_alpha(0, 0), 255);
    assert_eq!(lamp_alpha(0, 1), 255);
    assert_eq!(lamp_alpha(0, 2), 165);
    assert_eq!(lamp_alpha(0, 7), 15);
    assert_eq!(lamp_alpha(0, 8), 0);
    assert_eq!(lamp_alpha(4, 31), 255);
}

#[test]
fn frame_is_lit_column_by_column() {
    let base = numbered(32, 32);
    let frame = draw_frame(&base, 0);
    let mut expected = image::RgbaImage::from_raw(32, 32, base.pixels.clone()).unwrap();
    for x in 0..32u32 {
        let alpha = lamp_alpha(0, x);
        if alpha > 0 {
            let line = image::RgbaImage::from_pixel(1, 32, image::Rgba([255, 255, 255, alpha]));
            image::imageops::overlay(&mut expected, &line, x as i64, 0);
        }
    }
    assert_eq!(frame.pixels, expected.into_raw());
    assert_eq!(at(&frame, 0, 5), [255, 255, 255, 255]);
    assert_eq!(at(&frame, 31, 5), at(&base, 31, 5));
    assert_ne!(at(&frame, 2, 5), at(&base, 2, 5));
}

#[test]
fn icons_out_of_a_file() {
    let p = numbered(256, 256);
    let icons = load_tray_icons(&ico(&p)).unwrap();
    assert_eq!((icons.default.width, icons.default.height), (32, 32));
    let whole = image::RgbaImage::from_raw(256, 256, p.pixels.clone()).unwrap();
    let part = image::imageops::crop_imm(&whole, 29, 29, 198, 198).to_image();
    let base = image::imageops::resize(&part, 32, 32, image::imageops::FilterType::Lanczos3);
    assert_eq!(icons.default.pixels, base.to_vec());
    assert_eq!(icons.frames.len(), FRAME_COUNT);
    for (i, frame) in icons.frames.iter().enumerate() {
        assert_eq!(frame.pixels, draw_frame(&icons.default, i).pixels);
    }
}

#[test]
fn icons_that_need_no_scaling() {
    // 760 of 984 of 41 pixels are 32 pixels.
    assert_eq!(crop_size(41), 32);
    let p = numbered(41, 41);
    let icons = load_tray_icons(&ico(&p)).unwrap();
    assert_eq!(icons.default.pixels, crop_middle(&p).pixels);
    assert_eq!(at(&icons.default, 0, 0), [4, 4, 7, 255]);
}

#[test]
fn broken_file_is_an_error() {
    assert!(load_tray_icons(b"no icon").is_err());
    let expected = image::load_from_memory_with_format(b"", image::ImageFormat::Ico)
        .err()
        .map(|e| e.to_string());
    assert_eq!(load_tray_icons(b"").err(), expected);
}
