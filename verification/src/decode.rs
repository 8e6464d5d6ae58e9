//! Decoding picture files into RGBA rasters. PNG files go through the `png`
//! crate and JPEG files through `jpeg-decoder`, which hand back the stored
//! sample values without colour-space conversion; every other format goes
//! through the `image` crate.

use vstd::prelude::*;
use vstd::string::*;
use crate::raster::{
    bytes_per_pixel_spec, cmyk_channel, expand_pixel, expand_to_rgba, expanded, expanded_pixels,
    pixel_count, raster_pixel, RgbaImage, SampleLayout,
};

verus! {

/// The colour type of a decoded PNG frame.
#[derive(Clone, Copy, PartialEq, Eq, Debug)]
pub enum PngColor {
    Grayscale,
    Rgb,
    Indexed,
    GrayscaleAlpha,
    Rgba,
}

/// A PNG frame as the `png` crate decodes it, 8 bits per sample.
pub struct PngFrame {
    pub width: u32,
    pub height: u32,
    pub color: PngColor,
    pub data: Vec<u8>,
}

impl View for PngFrame {
    type V = (u32, u32, PngColor, Seq<u8>);

    open spec fn view(&self) -> (u32, u32, PngColor, Seq<u8>) {
        (self.width, self.height, self.color, self.data@)
    }
}

/// The pixel format `jpeg-decoder` reports.
#[derive(Clone, Copy, PartialEq, Eq, Debug)]
pub enum JpegFormat {
    L8,
    L16,
    Rgb24,
    Cmyk32,
}

/// The width, height and pixel format `jpeg-decoder` reports.
#[derive(Clone, Copy, PartialEq, Eq, Debug)]
pub struct JpegInfo {
    pub width: u16,
    pub height: u16,
    pub format: JpegFormat,
}

/// What `png::Reader::next_frame` gives for a PNG file (read with the
/// `EXPAND` and `STRIP_16` transformations): the frame's width, height,
/// colour type and samples, or the decoder's error message.
pub uninterp spec fn png_decoding(bytes: Seq<u8>) -> Result<
    (u32, u32, PngColor, Seq<u8>),
    Seq<char>,
>;

/// What `jpeg_decoder::Decoder::decode` gives for a JPEG file: the samples
/// and the decoder's `info()` afterwards, or the decoder's error message.
pub uninterp spec fn jpeg_decoding(bytes: Seq<u8>) -> Result<
    (Seq<u8>, Option<JpegInfo>),
    Seq<char>,
>;

/// What `image::load_from_memory` followed by `to_rgba8` gives: width,
/// height and RGBA bytes, or the error message.
pub uninterp spec fn image_decoding(bytes: Seq<u8>) -> Result<(u32, u32, Seq<u8>), Seq<char>>;

/// What `image::load_from_memory_with_format(.., ImageFormat::Ico)` followed
/// by `to_rgba8` gives: width, height and RGBA bytes, or nothing on error.
pub uninterp spec fn icon_decoding(bytes: Seq<u8>) -> Option<(u32, u32, Seq<u8>)>;

/// Decodes a PNG file with `png::Decoder` (transformations `EXPAND` and
/// `STRIP_16`, first frame via `Reader::next_frame`). The result is the named
/// `png_decoding` of the bytes; nothing else is claimed of it.
#[verifier::external_body]
fn read_png(bytes: &[u8]) -> (res: Result<PngFrame, String>)
    ensures
        match (res, png_decoding(bytes@)) {
            (Ok(f), Ok(v)) => f@ == v,
            (Err(e), Err(m)) => e@ == m,
            _ => false,
        },
{
    let mut decoder = png::Decoder::new(std::io::Cursor::new(bytes));
    decoder.set_transformations(png::Transformations::EXPAND | png::Transformations::STRIP_16);
    let mut reader = decoder.read_info().map_err(|e| e.to_string())?;
    let mut data = vec![0u8; reader.output_buffer_size().unwrap_or(0)];
    let info = reader.next_frame(&mut data).map_err(|e| e.to_string())?;
    let color = match info.color_type {
        png::ColorType::Grayscale => PngColor::Grayscale,
        png::ColorType::Rgb => PngColor::Rgb,
        png::ColorType::Indexed => PngColor::Indexed,
        png::ColorType::GrayscaleAlpha => PngColor::GrayscaleAlpha,
        png::ColorType::Rgba => PngColor::Rgba,
    };
    Ok(PngFrame { width: info.width, height: info.height, color, data })
}

/// Decodes a JPEG file with `jpeg_decoder::Decoder::decode` and reads its
/// `info()`. The result is the named `jpeg_decoding` of the bytes; nothing
/// else is claimed of it.
#[verifier::external_body]
fn read_jpeg(bytes: &[u8]) -> (res: Result<(Vec<u8>, Option<JpegInfo>), String>)
    ensures
        match (res, jpeg_decoding(bytes@)) {
            (Ok((p, i)), Ok((q, j))) => p@ == q && i == j,
            (Err(e), Err(m)) => e@ == m,
            _ => false,
        },
{
    let mut decoder = jpeg_decoder::Decoder::new(bytes);
    let pixels = decoder.decode().map_err(|e| e.to_string())?;
    let info = decoder.info().map(|i| JpegInfo {
        width: i.width,
        height: i.height,
        format: match i.pixel_format {
            jpeg_decoder::PixelFormat::L8 => JpegFormat::L8,
            jpeg_decoder::PixelFormat::L16 => JpegFormat::L16,
            jpeg_decoder::PixelFormat::RGB24 => JpegFormat::Rgb24,
            jpeg_decoder::PixelFormat::CMYK32 => JpegFormat::Cmyk32,
        },
    });
    Ok((pixels, info))
}

/// Decodes any format the `image` crate knows (`image::load_from_memory`)
/// and converts it with `to_rgba8`. The result is the named
/// `image_decoding` of the bytes; the buffer of an `image::RgbaImage` is
/// always large enough for its dimensions, which is the one fact stated.
#[verifier::external_body]
fn read_any_image(bytes: &[u8]) -> (res: Result<(u32, u32, Vec<u8>), String>)
    ensures
        match (res, image_decoding(bytes@)) {
            (Ok((w, h, d)), Ok((v, u, e))) => w == v && h == u && d@ == e,
            (Err(e), Err(m)) => e@ == m,
            _ => false,
        },
        res matches Ok((w, h, d)) ==> d@.len() >= pixel_count(w, h) * 4,
{
    let rgba = image::load_from_memory(bytes).map_err(|e| e.to_string())?.to_rgba8();
    let (w, h) = rgba.dimensions();
    Ok((w, h, rgba.into_raw()))
}

/// Decodes an `.ico` file (`image::load_from_memory_with_format` with
/// `ImageFormat::Ico`) and converts it with `to_rgba8`. The result is the
/// named `icon_decoding` of the bytes; as above, the buffer is large enough
/// for its dimensions.
#[verifier::external_body]
fn read_icon(bytes: &[u8]) -> (res: Option<(u32, u32, Vec<u8>)>)
    ensures
        match (res, icon_decoding(bytes@)) {
            (Some((w, h, d)), Some((v, u, e))) => w == v && h == u && d@ == e,
            (None, None) => true,
            _ => false,
        },
        res matches Some((w, h, d)) ==> d@.len() >= pixel_count(w, h) * 4,
{
    match image::load_from_memory_with_format(bytes, image::ImageFormat::Ico) {
        Ok(img) => {
            let rgba = img.to_rgba8();
            let (w, h) = rgba.dimensions();
            Some((w, h, rgba.into_raw()))
        },
        Err(_) => None,
    }
}

/// A raster model `(width, height, RGBA bytes)` or an error message.
pub type Decoded = Result<(u32, u32, Seq<u8>), Seq<char>>;

/// `res` is the raster or the message that `spec` describes.
pub open spec fn decoded_as(res: Result<RgbaImage, String>, spec: Decoded) -> bool {
    match (res, spec) {
        (Ok(img), Ok(v)) => img@ == v,
        (Err(e), Err(m)) => e@ == m,
        _ => false,
    }
}

/// The samples of a `width` x `height` frame in `layout` expanded to RGBA,
/// or `short` when the samples do not cover every pixel.
pub open spec fn expanded_or(
    width: u32,
    height: u32,
    layout: SampleLayout,
    data: Seq<u8>,
    short: Seq<char>,
) -> Decoded {
    if data.len() >= pixel_count(width, height) * bytes_per_pixel_spec(layout) {
        Ok((width, height, expanded(layout, data, pixel_count(width, height))))
    } else {
        Err(short)
    }
}

/// The message for PNG samples that do not cover the frame.
pub open spec fn png_size_message() -> Seq<char> {
    "PNG buffer size mismatch"@
}

/// The RGBA raster of a decoded PNG frame.
pub open spec fn png_frame_spec(frame: (u32, u32, PngColor, Seq<u8>)) -> Decoded {
    let (w, h, color, data) = frame;
    match color {
        PngColor::Rgb => expanded_or(w, h, SampleLayout::Rgb, data, png_size_message()),
        PngColor::Rgba => if data.len() >= pixel_count(w, h) * 4 {
            Ok((w, h, data.take((pixel_count(w, h) * 4) as int)))
        } else {
            Err(png_size_message())
        },
        PngColor::Grayscale => expanded_or(w, h, SampleLayout::Gray, data, png_size_message()),
        PngColor::GrayscaleAlpha => expanded_or(
            w,
            h,
            SampleLayout::GrayAlpha,
            data,
            png_size_message(),
        ),
        PngColor::Indexed => Err("Unsupported PNG color type: Indexed"@),
    }
}

fn expand_or(width: u32, height: u32, layout: SampleLayout, data: &[u8], short: &str) -> (res:
    Result<RgbaImage, String>)
    ensures
        decoded_as(res, expanded_or(width, height, layout, data@, short@)),
{
    match expand_to_rgba(width, height, layout, data) {
        Some(img) => Ok(img),
        None => Err(String::from_str(short)),
    }
}

/// Turns a decoded PNG frame into an RGBA raster: grey is copied into the
/// three colour channels, and a missing alpha becomes 255.
pub fn png_frame_to_rgba(frame: PngFrame) -> (res: Result<RgbaImage, String>)
    ensures
        decoded_as(res, png_frame_spec(frame@)),
{
    let PngFrame { width, height, color, data } = frame;
    match color {
        PngColor::Rgb => expand_or(width, height, SampleLayout::Rgb, &data, "PNG buffer size mismatch"),
        PngColor::Rgba => match RgbaImage::from_raw(width, height, data) {
            Some(img) => Ok(img),
            None => Err(String::from_str("PNG buffer size mismatch")),
        },
        PngColor::Grayscale => expand_or(
            width,
            height,
            SampleLayout::Gray,
            &data,
            "PNG buffer size mismatch",
        ),
        PngColor::GrayscaleAlpha => expand_or(
            width,
            height,
            SampleLayout::GrayAlpha,
            &data,
            "PNG buffer size mismatch",
        ),
        PngColor::Indexed => Err(String::from_str("Unsupported PNG color type: Indexed")),
    }
}

/// The result of decoding a PNG file.
pub open spec fn decode_png_spec(bytes: Seq<u8>) -> Decoded {
    match png_decoding(bytes) {
        Ok(frame) => png_frame_spec(frame),
        Err(m) => Err(m),
    }
}

/// Decodes a PNG file into an RGBA raster of its raw sample values.
pub fn decode_png(bytes: &[u8]) -> (res: Result<RgbaImage, String>)
    ensures
        decoded_as(res, decode_png_spec(bytes@)),
{
    match read_png(bytes) {
        Ok(frame) => png_frame_to_rgba(frame),
        Err(e) => Err(e),
    }
}

/// The message for JPEG samples that do not cover the image.
pub open spec fn jpeg_size_message() -> Seq<char> {
    "JPEG buffer size mismatch"@
}

/// The sample layout of a JPEG pixel format.
pub open spec fn jpeg_layout(format: JpegFormat) -> SampleLayout {
    match format {
        JpegFormat::L8 => SampleLayout::Gray,
        JpegFormat::L16 => SampleLayout::Gray16,
        JpegFormat::Rgb24 => SampleLayout::Rgb,
        JpegFormat::Cmyk32 => SampleLayout::Cmyk,
    }
}

/// The RGBA raster of decoded JPEG samples.
pub open spec fn jpeg_frame_spec(pixels: Seq<u8>, info: Option<JpegInfo>) -> Decoded {
    match info {
        None => Err("JPEG decoder returned no info"@),
        Some(i) => expanded_or(
            i.width as u32,
            i.height as u32,
            jpeg_layout(i.format),
            pixels,
            jpeg_size_message(),
        ),
    }
}

/// Turns decoded JPEG samples into an RGBA raster: grey is copied into the
/// three colour channels (16-bit grey keeps its high byte), CMYK becomes RGB
/// by `255 * (1 - c) * (1 - k)`, and alpha is 255.
pub fn jpeg_frame_to_rgba(pixels: &[u8], info: Option<JpegInfo>) -> (res: Result<
    RgbaImage,
    String,
>)
    ensures
        decoded_as(res, jpeg_frame_spec(pixels@, info)),
{
    match info {
        None => Err(String::from_str("JPEG decoder returned no info")),
        Some(i) => {
            let layout = match i.format {
                JpegFormat::L8 => SampleLayout::Gray,
                JpegFormat::L16 => SampleLayout::Gray16,
                JpegFormat::Rgb24 => SampleLayout::Rgb,
                JpegFormat::Cmyk32 => SampleLayout::Cmyk,
            };
            expand_or(i.width as u32, i.height as u32, layout, pixels, "JPEG buffer size mismatch")
        },
    }
}

/// The result of decoding a JPEG file.
pub open spec fn decode_jpeg_spec(bytes: Seq<u8>) -> Decoded {
    match jpeg_decoding(bytes) {
        Ok((pixels, info)) => jpeg_frame_spec(pixels, info),
        Err(m) => Err(m),
    }
}

/// Decodes a JPEG file into an RGBA raster.
pub fn decode_jpeg(bytes: &[u8]) -> (res: Result<RgbaImage, String>)
    ensures
        decoded_as(res, decode_jpeg_spec(bytes@)),
{
    match read_jpeg(bytes) {
        Ok((pixels, info)) => jpeg_frame_to_rgba(&pixels, info),
        Err(e) => Err(e),
    }
}

/// The eight bytes every PNG file starts with.
pub open spec fn png_signature() -> Seq<u8> {
    seq![0x89u8, 0x50u8, 0x4Eu8, 0x47u8, 0x0Du8, 0x0Au8, 0x1Au8, 0x0Au8]
}

/// The three bytes every JPEG file starts with.
pub open spec fn jpeg_signature() -> Seq<u8> {
    seq![0xFFu8, 0xD8u8, 0xFFu8]
}

/// `bytes` starts with `prefix`.
pub open spec fn starts_with(bytes: Seq<u8>, prefix: Seq<u8>) -> bool {
    bytes.len() >= prefix.len() && bytes.take(prefix.len() as int) == prefix
}

/// `m` with a prefix saying what failed to load.
pub open spec fn prefixed(prefix: Seq<char>, r: Decoded) -> Decoded {
    match r {
        Ok(v) => Ok(v),
        Err(m) => Err(prefix + m),
    }
}

/// The result of loading a picture file: PNG and JPEG by their signature,
/// any other format through the `image` crate.
pub open spec fn load_image_spec(bytes: Seq<u8>) -> Decoded {
    if starts_with(bytes, png_signature()) {
        prefixed("Could not load PNG: "@, decode_png_spec(bytes))
    } else if starts_with(bytes, jpeg_signature()) {
        prefixed("Could not load JPEG: "@, decode_jpeg_spec(bytes))
    } else {
        match image_decoding(bytes) {
            Ok((w, h, d)) => Ok((w, h, d.take((pixel_count(w, h) * 4) as int))),
            Err(m) => Err("Could not load image: "@ + m),
        }
    }
}

fn has_prefix(bytes: &[u8], prefix: &[u8]) -> (res: bool)
    ensures
        res == starts_with(bytes@, prefix@),
{
    if bytes.len() < prefix.len() {
        return false;
    }
    let n = prefix.len();
    for i in 0..n
        invariant
            n == prefix@.len(),
            n <= bytes@.len(),
            forall|j: int| 0 <= j < i ==> bytes@[j] == prefix@[j],
    {
        if bytes[i] != prefix[i] {
            return false;
        }
    }
    assert(bytes@.take(n as int) =~= prefix@);
    true
}

fn with_prefix(prefix: &str, r: Result<RgbaImage, String>) -> (res: Result<RgbaImage, String>)
    ensures
        match (res, r) {
            (Ok(a), Ok(b)) => a == b,
            (Err(e), Err(f)) => e@ == prefix@ + f@,
            _ => false,
        },
{
    match r {
        Ok(img) => Ok(img),
        Err(e) => {
            let mut m = String::from_str(prefix);
            m.append(e.as_str());
            Err(m)
        },
    }
}

/// Loads a picture file into an RGBA raster of its stored pixel values.
pub fn load_image_from_bytes(bytes: &[u8]) -> (res: Result<RgbaImage, String>)
    ensures
        decoded_as(res, load_image_spec(bytes@)),
{
    let png_magic: [u8; 8] = [0x89, 0x50, 0x4E, 0x47, 0x0D, 0x0A, 0x1A, 0x0A];
    let jpeg_magic: [u8; 3] = [0xFF, 0xD8, 0xFF];
    assert(png_magic@ =~= png_signature());
    assert(jpeg_magic@ =~= jpeg_signature());
    if has_prefix(bytes, png_magic.as_slice()) {
        return with_prefix("Could not load PNG: ", decode_png(bytes));
    }
    if has_prefix(bytes, jpeg_magic.as_slice()) {
        return with_prefix("Could not load JPEG: ", decode_jpeg(bytes));
    }
    match read_any_image(bytes) {
        Ok((w, h, d)) => match RgbaImage::from_raw(w, h, d) {
            Some(img) => Ok(img),
            None => Err(String::from_str("Could not load image: buffer size mismatch")),
        },
        Err(e) => with_prefix("Could not load image: ", Err(e)),
    }
}

/// The raster used for the window icon: the decoded `.ico`, or a single
/// transparent black pixel when it does not decode.
pub open spec fn icon_spec(bytes: Seq<u8>) -> (u32, u32, Seq<u8>) {
    match icon_decoding(bytes) {
        Some((w, h, d)) => (w, h, d.take((pixel_count(w, h) * 4) as int)),
        None => (1, 1, seq![0u8, 0u8, 0u8, 0u8]),
    }
}

/// Decodes the window icon, falling back to one transparent pixel.
pub fn icon_image(bytes: &[u8]) -> (img: RgbaImage)
    ensures
        img@ == icon_spec(bytes@),
{
    let fallback = RgbaImage::from_raw(1, 1, vec![0u8, 0u8, 0u8, 0u8]);
    match read_icon(bytes) {
        Some((w, h, d)) => match RgbaImage::from_raw(w, h, d) {
            Some(img) => img,
            None => fallback.unwrap(),
        },
        None => {
            proof {
                assert(seq![0u8, 0u8, 0u8, 0u8].take(4) =~= seq![0u8, 0u8, 0u8, 0u8]);
            }
            fallback.unwrap()
        },
    }
}

/// Samples per pixel of each JPEG pixel format.
pub open spec fn jpeg_sample_bytes(format: JpegFormat) -> nat {
    match format {
        JpegFormat::L8 => 1,
        JpegFormat::L16 => 2,
        JpegFormat::Rgb24 => 3,
        JpegFormat::Cmyk32 => 4,
    }
}

/// RGBA pixel `i` of a JPEG image from its samples `s`: grey into the three
/// colour channels (the high byte for 16-bit grey), RGB as it is, CMYK
/// through `255 * (1 - c) * (1 - k)`; alpha 255.
pub open spec fn jpeg_rgba_pixel(format: JpegFormat, s: Seq<u8>, i: int) -> Seq<u8> {
    match format {
        JpegFormat::L8 => seq![s[i], s[i], s[i], 255u8],
        JpegFormat::L16 => seq![s[2 * i], s[2 * i], s[2 * i], 255u8],
        JpegFormat::Rgb24 => seq![s[3 * i], s[3 * i + 1], s[3 * i + 2], 255u8],
        JpegFormat::Cmyk32 => seq![
            (((255 - s[4 * i]) * (255 - s[4 * i + 3]) + 127) / 255) as u8,
            (((255 - s[4 * i + 1]) * (255 - s[4 * i + 3]) + 127) / 255) as u8,
            (((255 - s[4 * i + 2]) * (255 - s[4 * i + 3]) + 127) / 255) as u8,
            255u8,
        ],
    }
}

proof fn lemma_sub_index(data: Seq<u8>, i: int, b: int, k: int)
    requires
        0 <= i,
        0 <= k < b,
        (i + 1) * b <= data.len(),
    ensures
        data.subrange(i * b, (i + 1) * b)[k] == data[b * i + k],
        i * b + k < data.len(),
{
    assert(i * b == b * i) by (nonlinear_arith);
    assert((i + 1) * b == i * b + b) by (nonlinear_arith);
}

proof fn lemma_pixel_fits(n: nat, i: int, b: int)
    requires
        0 <= i < n,
        0 < b,
    ensures
        (i + 1) * b <= n * b,
{
    assert((i + 1) * b <= n * b) by (nonlinear_arith)
        requires
            0 <= i < n,
            0 < b,
    ;
}

/// Decoded JPEG samples that cover the image always give a raster of its
/// size whose pixel `i` is made from the samples of pixel `i` as
/// `jpeg_rgba_pixel` says: three bytes per pixel for RGB, one or two for
/// grey, four for CMYK.
pub proof fn jpeg_frame_pixels(pixels: Seq<u8>, info: JpegInfo)
    requires
        pixels.len() >= (info.width as nat) * (info.height as nat) * jpeg_sample_bytes(
            info.format,
        ),
    ensures
        jpeg_frame_spec(pixels, Some(info)) matches Ok((w, h, out)) && w == info.width as u32 && h
            == info.height as u32 && out.len() == 4 * (info.width as nat) * (info.height as nat)
            && forall|i: int|
            0 <= i < (info.width as nat) * (info.height as nat) ==> #[trigger] raster_pixel(out, i)
                == jpeg_rgba_pixel(info.format, pixels, i),
{
    let w = info.width as u32;
    let h = info.height as u32;
    let n = pixel_count(w, h);
    let layout = jpeg_layout(info.format);
    let b = bytes_per_pixel_spec(layout);
    assert(b == jpeg_sample_bytes(info.format));
    let out = expanded(layout, pixels, n);
    expanded_pixels(layout, pixels, n);
    assert(n == (info.width as nat) * (info.height as nat));
    assert(4 * n == 4 * (info.width as nat) * (info.height as nat)) by (nonlinear_arith)
        requires
            n == (info.width as nat) * (info.height as nat),
    ;
    assert(jpeg_frame_spec(pixels, Some(info)) == Ok::<(u32, u32, Seq<u8>), Seq<char>>((w, h, out)));
    assert forall|i: int| 0 <= i < n implies #[trigger] raster_pixel(out, i) == jpeg_rgba_pixel(
        info.format,
        pixels,
        i,
    ) by {
        lemma_pixel_fits(n, i, b as int);
        let sub = pixels.subrange(i * b, (i + 1) * b);
        assert(raster_pixel(out, i) == expand_pixel(layout, sub));
        lemma_sub_index(pixels, i, b as int, 0);
        if b >= 2 {
            lemma_sub_index(pixels, i, b as int, 1);
        }
        if b >= 3 {
            lemma_sub_index(pixels, i, b as int, 2);
        }
        if b >= 4 {
            lemma_sub_index(pixels, i, b as int, 3);
        }
        assert(raster_pixel(out, i) =~= jpeg_rgba_pixel(info.format, pixels, i));
    }
}

/// Samples per pixel of each PNG colour type after expansion.
pub open spec fn png_sample_bytes(color: PngColor) -> nat {
    match color {
        PngColor::Grayscale => 1,
        PngColor::GrayscaleAlpha => 2,
        PngColor::Rgb => 3,
        PngColor::Rgba => 4,
        PngColor::Indexed => 1,
    }
}

/// RGBA pixel `i` of a PNG frame from its samples `s`: grey into the three
/// colour channels, RGB and RGBA as they are, alpha 255 when absent.
pub open spec fn png_rgba_pixel(color: PngColor, s: Seq<u8>, i: int) -> Seq<u8> {
    match color {
        PngColor::Grayscale => seq![s[i], s[i], s[i], 255u8],
        PngColor::GrayscaleAlpha => seq![s[2 * i], s[2 * i], s[2 * i], s[2 * i + 1]],
        PngColor::Rgb => seq![s[3 * i], s[3 * i + 1], s[3 * i + 2], 255u8],
        PngColor::Rgba => seq![s[4 * i], s[4 * i + 1], s[4 * i + 2], s[4 * i + 3]],
        PngColor::Indexed => seq![],
    }
}

/// A decoded PNG frame whose samples cover it gives a raster of its size
/// whose pixel `i` is made from the samples of pixel `i` as `png_rgba_pixel`
/// says; a palette frame is refused.
pub proof fn png_frame_pixels(w: u32, h: u32, color: PngColor, data: Seq<u8>)
    requires
        data.len() >= (w as nat) * (h as nat) * png_sample_bytes(color),
    ensures
        color == PngColor::Indexed ==> png_frame_spec((w, h, color, data)) is Err,
        color != PngColor::Indexed ==> (png_frame_spec((w, h, color, data)) matches Ok((ww, hh, out))
            && ww == w && hh == h && out.len() == 4 * (w as nat) * (h as nat) && forall|i: int|
            0 <= i < (w as nat) * (h as nat) ==> #[trigger] raster_pixel(out, i) == png_rgba_pixel(
                color,
                data,
                i,
            )),
{
    let n = pixel_count(w, h);
    assert(4 * n == 4 * (w as nat) * (h as nat)) by (nonlinear_arith)
        requires
            n == (w as nat) * (h as nat),
    ;
    if color == PngColor::Rgba {
        let out = data.take((n * 4) as int);
        assert forall|i: int| 0 <= i < n implies #[trigger] raster_pixel(out, i) == png_rgba_pixel(
            color,
            data,
            i,
        ) by {
            lemma_pixel_fits(n, i, 4);
            assert(raster_pixel(out, i) =~= png_rgba_pixel(color, data, i));
        }
    } else if color != PngColor::Indexed {
        let layout = match color {
            PngColor::Rgb => SampleLayout::Rgb,
            PngColor::Grayscale => SampleLayout::Gray,
            _ => SampleLayout::GrayAlpha,
        };
        let b = bytes_per_pixel_spec(layout);
        let out = expanded(layout, data, n);
        expanded_pixels(layout, data, n);
        assert forall|i: int| 0 <= i < n implies #[trigger] raster_pixel(out, i) == png_rgba_pixel(
            color,
            data,
            i,
        ) by {
            lemma_pixel_fits(n, i, b as int);
            let sub = data.subrange(i * b, (i + 1) * b);
            assert(raster_pixel(out, i) == expand_pixel(layout, sub));
            lemma_sub_index(data, i, b as int, 0);
            if b >= 2 {
                lemma_sub_index(data, i, b as int, 1);
            }
            if b >= 3 {
                lemma_sub_index(data, i, b as int, 2);
            }
            assert(raster_pixel(out, i) =~= png_rgba_pixel(color, data, i));
        }
    }
}

} // verus!
