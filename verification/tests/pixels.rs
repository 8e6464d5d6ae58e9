use img2pb2::decode::{
    decode_jpeg, decode_png, icon_image, jpeg_frame_to_rgba, load_image_from_bytes, png_frame_to_rgba, JpegFormat,
    JpegInfo, PngColor, PngFrame,
};
use img2pb2::raster::{
    exceeds_pixel_limit, expand_to_rgba, pixel_total, rgb_matches, same_visible_color, RgbaImage, SampleLayout,
};

fn encode_png(width: u32, height: u32, color: png::ColorType, data: &[u8]) -> Vec<u8> {
    let mut out = Vec::new();
    {
        let mut encoder = png::Encoder::new(&mut out, width, height);
        encoder.set_color(color);
        encoder.set_depth(png::BitDepth::Eight);
        let mut writer = encoder.write_header().unwrap();
        writer.write_image_data(data).unwrap();
    }
    out
}

#[test]
fn from_raw_checks_the_buffer_length() {
    assert!(RgbaImage::from_raw(2, 2, vec![0; 15]).is_none());
    let img = RgbaImage::from_raw(2, 1, vec![1, 2, 3, 4, 5, 6, 7, 8, 9]).unwrap();
    assert_eq!(img.as_raw(), &[1, 2, 3, 4, 5, 6, 7, 8]);
    assert_eq!(img.get_pixel(1, 0), [5, 6, 7, 8]);
    assert_eq!((img.width(), img.height()), (2, 1));
    assert_eq!(img.into_raw(), vec![1, 2, 3, 4, 5, 6, 7, 8]);
}

#[test]
fn expand_every_layout() {
    let rgb = expand_to_rgba(2, 1, SampleLayout::Rgb, &[1, 2, 3, 4, 5, 6]).unwrap();
    assert_eq!(rgb.as_raw(), &[1, 2, 3, 255, 4, 5, 6, 255]);
    let gray = expand_to_rgba(1, 2, SampleLayout::Gray, &[7, 9]).unwrap();
    assert_eq!(gray.as_raw(), &[7, 7, 7, 255, 9, 9, 9, 255]);
    let gray_alpha = expand_to_rgba(1, 1, SampleLayout::GrayAlpha, &[7, 9]).unwrap();
    assert_eq!(gray_alpha.as_raw(), &[7, 7, 7, 9]);
    let gray16 = expand_to_rgba(2, 1, SampleLayout::Gray16, &[0x12, 0x34, 0xab, 0xcd]).unwrap();
    assert_eq!(gray16.as_raw(), &[0x12, 0x12, 0x12, 255, 0xab, 0xab, 0xab, 255]);
    let rgba = expand_to_rgba(1, 1, SampleLayout::Rgba, &[1, 2, 3, 4]).unwrap();
    assert_eq!(rgba.as_raw(), &[1, 2, 3, 4]);
    assert!(expand_to_rgba(2, 2, SampleLayout::Rgb, &[0; 11]).is_none());
    assert!(expand_to_rgba(0, 5, SampleLayout::Rgb, &[]).unwrap().as_raw().is_empty());
}

#[test]
fn cmyk_matches_single_precision_formula() {
    for c in 0..=255u8 {
        for k in 0..=255u8 {
            let img = expand_to_rgba(1, 1, SampleLayout::Cmyk, &[c, 0, 255, k]).unwrap();
            let cf = c as f32 / 255.0;
            let kf = k as f32 / 255.0;
            let r = 255.0 * (1.0 - cf) * (1.0 - kf);
            let g = 255.0 * (1.0 - 0.0f32) * (1.0 - kf);
            assert_eq!(img.as_raw(), &[r.round() as u8, g.round() as u8, 0, 255], "c={c} k={k}");
        }
    }
}

#[test]
fn pixel_limit() {
    assert!(!exceeds_pixel_limit(10_000, 8_000));
    assert!(exceeds_pixel_limit(10_000, 8_001));
    assert!(!exceeds_pixel_limit(u32::MAX, 0));
    assert_eq!(pixel_total(u32::MAX, u32::MAX), (u32::MAX as u64) * (u32::MAX as u64));
}

#[test]
fn color_comparisons() {
    assert!(same_visible_color([1, 2, 3, 4], [1, 2, 3, 255]));
    assert!(!same_visible_color([1, 2, 3, 0], [1, 2, 3, 255]));
    assert!(!same_visible_color([1, 2, 4, 9], [1, 2, 3, 9]));
    assert!(rgb_matches([1, 2, 3, 0], [1, 2, 3, 255]));
    assert!(!rgb_matches([0, 2, 3, 0], [1, 2, 3, 0]));
}

#[test]
fn png_rgb_file_decodes_to_rgba() {
    let file = encode_png(2, 1, png::ColorType::Rgb, &[10, 20, 30, 40, 50, 60]);
    let img = load_image_from_bytes(&file).unwrap();
    assert_eq!((img.width(), img.height()), (2, 1));
    assert_eq!(img.as_raw(), &[10, 20, 30, 255, 40, 50, 60, 255]);
    assert_eq!(decode_png(&file).unwrap().as_raw(), img.as_raw());
}

#[test]
fn png_gray_alpha_and_rgba_files() {
    let file = encode_png(1, 2, png::ColorType::GrayscaleAlpha, &[5, 6, 7, 8]);
    assert_eq!(load_image_from_bytes(&file).unwrap().as_raw(), &[5, 5, 5, 6, 7, 7, 7, 8]);
    let file = encode_png(1, 1, png::ColorType::Rgba, &[1, 2, 3, 4]);
    assert_eq!(load_image_from_bytes(&file).unwrap().as_raw(), &[1, 2, 3, 4]);
    let file = encode_png(2, 1, png::ColorType::Grayscale, &[0, 200]);
    assert_eq!(load_image_from_bytes(&file).unwrap().as_raw(), &[0, 0, 0, 255, 200, 200, 200, 255]);
}

#[test]
fn broken_png_reports_the_decoder_error() {
    let mut file = encode_png(1, 1, png::ColorType::Rgb, &[1, 2, 3]);
    file.truncate(20);
    let err = load_image_from_bytes(&file).err().unwrap();
    assert!(err.starts_with("Could not load PNG: "), "{err}");
    assert!(err.len() > "Could not load PNG: ".len());
}

#[test]
fn png_frames_by_color_type() {
    let frame = PngFrame { width: 1, height: 1, color: PngColor::Indexed, data: vec![0] };
    assert_eq!(png_frame_to_rgba(frame).err(), Some("Unsupported PNG color type: Indexed".to_string()));
    let frame = PngFrame { width: 2, height: 2, color: PngColor::Rgb, data: vec![0; 3] };
    assert_eq!(png_frame_to_rgba(frame).err(), Some("PNG buffer size mismatch".to_string()));
    let frame = PngFrame { width: 1, height: 1, color: PngColor::Rgba, data: vec![9, 8, 7, 6] };
    assert_eq!(png_frame_to_rgba(frame).unwrap().as_raw(), &[9, 8, 7, 6]);
}

#[test]
fn jpeg_frames_by_pixel_format() {
    assert_eq!(jpeg_frame_to_rgba(&[1], None).err(), Some("JPEG decoder returned no info".to_string()));
    let info = JpegInfo { width: 1, height: 1, format: JpegFormat::L16 };
    assert_eq!(jpeg_frame_to_rgba(&[0xaa, 0xbb], Some(info)).unwrap().as_raw(), &[0xaa, 0xaa, 0xaa, 255]);
    let info = JpegInfo { width: 1, height: 1, format: JpegFormat::Cmyk32 };
    assert_eq!(jpeg_frame_to_rgba(&[0, 255, 128, 0], Some(info)).unwrap().as_raw(), &[255, 0, 127, 255]);
    let info = JpegInfo { width: 2, height: 1, format: JpegFormat::Rgb24 };
    assert_eq!(jpeg_frame_to_rgba(&[1, 2, 3], Some(info)).err(), Some("JPEG buffer size mismatch".to_string()));
}

#[test]
fn jpeg_file_decodes_like_jpeg_decoder() {
    let gray = image::GrayImage::from_fn(4, 3, |x, y| image::Luma([(x * 40 + y * 10) as u8]));
    let mut file = Vec::new();
    image::DynamicImage::ImageLuma8(gray)
        .write_to(&mut std::io::Cursor::new(&mut file), image::ImageFormat::Jpeg)
        .unwrap();
    let expected = jpeg_decoder::Decoder::new(&file[..]).decode().unwrap();
    let img = load_image_from_bytes(&file).unwrap();
    assert_eq!((img.width(), img.height()), (4, 3));
    let raw = img.as_raw();
    for (i, v) in expected.iter().enumerate() {
        assert_eq!(&raw[i * 4..i * 4 + 4], &[*v, *v, *v, 255]);
    }
    assert_eq!(decode_jpeg(&file).unwrap().as_raw(), raw);
}

#[test]
fn other_formats_go_through_the_image_crate() {
    let rgb = image::RgbImage::from_fn(2, 2, |x, y| image::Rgb([x as u8, y as u8, 7]));
    let mut file = Vec::new();
    image::DynamicImage::ImageRgb8(rgb)
        .write_to(&mut std::io::Cursor::new(&mut file), image::ImageFormat::Bmp)
        .unwrap();
    let img = load_image_from_bytes(&file).unwrap();
    assert_eq!(img.as_raw(), &[0, 0, 7, 255, 1, 0, 7, 255, 0, 1, 7, 255, 1, 1, 7, 255]);
}

#[test]
fn unknown_bytes_are_refused() {
    let err = load_image_from_bytes(b"not a picture").err().unwrap();
    assert!(err.starts_with("Could not load image: "), "{err}");
    let err = load_image_from_bytes(&[0xFF, 0xD8, 0xFF, 0]).err().unwrap();
    assert!(err.starts_with("Could not load JPEG: "), "{err}");
}

#[test]
fn icon_falls_back_to_one_transparent_pixel() {
    let img = icon_image(b"garbage");
    assert_eq!((img.width(), img.height()), (1, 1));
    assert_eq!(img.as_raw(), &[0, 0, 0, 0]);
}

#[test]
fn icon_decodes_ico_files() {
    let rgba = image::RgbaImage::from_fn(2, 2, |x, y| image::Rgba([x as u8 * 100, y as u8 * 100, 3, 200]));
    let mut file = Vec::new();
    image::DynamicImage::ImageRgba8(rgba.clone())
        .write_to(&mut std::io::Cursor::new(&mut file), image::ImageFormat::Ico)
        .unwrap();
    let img = icon_image(&file);
    assert_eq!((img.width(), img.height()), (2, 2));
    assert_eq!(img.as_raw(), rgba.as_raw().as_slice());
}
