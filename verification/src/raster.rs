//! RGBA rasters and the conversion of decoded sample layouts into them.

use vstd::prelude::*;

verus! {

/// Images larger than this many pixels are refused.
pub const MAX_IMAGE_PIXELS: u64 = 80_000_000;

/// An 8-bit RGBA raster, stored row by row, four bytes per pixel.
pub struct RgbaImage {
    width: u32,
    height: u32,
    data: Vec<u8>,
}

/// Number of pixels of a `width` x `height` raster.
pub open spec fn pixel_count(width: u32, height: u32) -> nat {
    (width as nat) * (height as nat)
}

impl View for RgbaImage {
    /// Width, height and the row-major RGBA bytes.
    type V = (u32, u32, Seq<u8>);

    closed spec fn view(&self) -> (u32, u32, Seq<u8>) {
        (self.width, self.height, self.data@)
    }
}

impl RgbaImage {
    #[verifier::type_invariant]
    spec fn well_formed(self) -> bool {
        self.data@.len() == pixel_count(self.width, self.height) * 4
    }

    /// Takes a row-major RGBA buffer; `None` when it is shorter than
    /// `width * height * 4` bytes. Bytes past that length are dropped.
    pub fn from_raw(width: u32, height: u32, data: Vec<u8>) -> (res: Option<RgbaImage>)
        ensures
            match res {
                Some(img) => data@.len() >= pixel_count(width, height) * 4 && img@ == (
                    width,
                    height,
                    data@.take((pixel_count(width, height) * 4) as int),
                ),
                None => data@.len() < pixel_count(width, height) * 4,
            },
    {
        let n = pixel_total(width, height);
        if n > data.len() as u64 / 4 {
            return None;
        }
        let mut data = data;
        let keep = (n * 4) as usize;
        data.truncate(keep);
        Some(RgbaImage { width, height, data })
    }

    /// The width in pixels.
    pub fn width(&self) -> (w: u32)
        ensures
            w == self@.0,
    {
        self.width
    }

    /// The height in pixels.
    pub fn height(&self) -> (h: u32)
        ensures
            h == self@.1,
    {
        self.height
    }

    /// The row-major RGBA bytes.
    pub fn as_raw(&self) -> (raw: &[u8])
        ensures
            raw@ == self@.2,
            raw@.len() == pixel_count(self@.0, self@.1) * 4,
    {
        proof {
            use_type_invariant(self);
        }
        self.data.as_slice()
    }

    /// The row-major RGBA bytes, taking the raster apart.
    pub fn into_raw(self) -> (raw: Vec<u8>)
        ensures
            raw@ == self@.2,
            raw@.len() == pixel_count(self@.0, self@.1) * 4,
    {
        proof {
            use_type_invariant(&self);
        }
        self.data
    }

    /// The pixel in column `x` of row `y`.
    pub fn get_pixel(&self, x: u32, y: u32) -> (p: [u8; 4])
        requires
            x < self@.0,
            y < self@.1,
        ensures
            p@ == pixel_at(self@, x as nat, y as nat),
    {
        proof {
            use_type_invariant(self);
            assert((y as nat) * (self.width as nat) + (x as nat) + 1 <= pixel_count(
                self.width,
                self.height,
            )) by (nonlinear_arith)
                requires
                    x < self.width,
                    y < self.height,
            ;
            assert((y as nat) * (self.width as nat) <= pixel_count(self.width, self.height))
                by (nonlinear_arith)
                requires
                    y < self.height,
            ;
        }
        let len = self.data.len();
        assert((y as nat) * (self.width as nat) * 4 <= len);
        let row: u64 = y as u64 * self.width as u64;
        let i: usize = ((row + x as u64) * 4) as usize;
        let p = [self.data[i], self.data[i + 1], self.data[i + 2], self.data[i + 3]];
        assert(p@ =~= pixel_at(self@, x as nat, y as nat));
        p
    }
}

/// The four RGBA bytes of pixel (`x`, `y`) of a raster.
pub open spec fn pixel_at(img: (u32, u32, Seq<u8>), x: nat, y: nat) -> Seq<u8> {
    let i = (y * (img.0 as nat) + x) * 4;
    img.2.subrange(i as int, i as int + 4)
}

/// Number of pixels of a `width` x `height` raster.
pub fn pixel_total(width: u32, height: u32) -> (n: u64)
    ensures
        n == pixel_count(width, height),
{
    proof {
        assert((width as nat) * (height as nat) <= 0xffff_ffffnat * 0xffff_ffffnat)
            by (nonlinear_arith)
            requires
                width <= 0xffff_ffffnat,
                height <= 0xffff_ffffnat,
        ;
    }
    width as u64 * height as u64
}

/// More than `MAX_IMAGE_PIXELS` pixels.
pub open spec fn exceeds_pixel_limit_spec(width: u32, height: u32) -> bool {
    pixel_count(width, height) > MAX_IMAGE_PIXELS
}

/// Whether a raster of this size is over the pixel limit.
pub fn exceeds_pixel_limit(width: u32, height: u32) -> (res: bool)
    ensures
        res == exceeds_pixel_limit_spec(width, height),
{
    let n = pixel_total(width, height);
    n > MAX_IMAGE_PIXELS
}

/// The layout of the samples a decoder hands back, eight bits per sample
/// except for `Gray16`, whose samples are two bytes, high byte first.
#[derive(Clone, Copy, PartialEq, Eq, Debug)]
pub enum SampleLayout {
    Rgb,
    Rgba,
    Gray,
    GrayAlpha,
    Gray16,
    Cmyk,
}

/// Bytes per pixel of a layout.
pub open spec fn bytes_per_pixel_spec(layout: SampleLayout) -> nat {
    match layout {
        SampleLayout::Rgb => 3,
        SampleLayout::Rgba => 4,
        SampleLayout::Gray => 1,
        SampleLayout::GrayAlpha => 2,
        SampleLayout::Gray16 => 2,
        SampleLayout::Cmyk => 4,
    }
}

/// Bytes per pixel of a layout.
pub fn bytes_per_pixel(layout: SampleLayout) -> (n: usize)
    ensures
        n == bytes_per_pixel_spec(layout),
{
    match layout {
        SampleLayout::Rgb => 3,
        SampleLayout::Rgba => 4,
        SampleLayout::Gray => 1,
        SampleLayout::GrayAlpha => 2,
        SampleLayout::Gray16 => 2,
        SampleLayout::Cmyk => 4,
    }
}

/// One channel of a CMYK sample in RGB: 255 * (1 - a/255) * (1 - k/255),
/// rounded to the nearest integer (the exact value is never halfway).
pub open spec fn cmyk_channel(a: u8, k: u8) -> u8 {
    (((255 - a) * (255 - k) + 127) / 255) as u8
}

/// The RGBA pixel for the samples `p` of one pixel in `layout`.
pub open spec fn expand_pixel(layout: SampleLayout, p: Seq<u8>) -> Seq<u8> {
    match layout {
        SampleLayout::Rgb => seq![p[0], p[1], p[2], 255u8],
        SampleLayout::Rgba => seq![p[0], p[1], p[2], p[3]],
        SampleLayout::Gray => seq![p[0], p[0], p[0], 255u8],
        SampleLayout::GrayAlpha => seq![p[0], p[0], p[0], p[1]],
        SampleLayout::Gray16 => seq![p[0], p[0], p[0], 255u8],
        SampleLayout::Cmyk => seq![
            cmyk_channel(p[0], p[3]),
            cmyk_channel(p[1], p[3]),
            cmyk_channel(p[2], p[3]),
            255u8,
        ],
    }
}

/// The RGBA bytes of the first `n` pixels of `data` in `layout`.
pub open spec fn expanded(layout: SampleLayout, data: Seq<u8>, n: nat) -> Seq<u8>
    decreases n,
{
    if n == 0 {
        Seq::empty()
    } else {
        let b = bytes_per_pixel_spec(layout);
        expanded(layout, data, (n - 1) as nat) + expand_pixel(
            layout,
            data.subrange(((n - 1) * b) as int, (n * b) as int),
        )
    }
}

proof fn lemma_expanded_len(layout: SampleLayout, data: Seq<u8>, n: nat)
    ensures
        expanded(layout, data, n).len() == n * 4,
    decreases n,
{
    if n > 0 {
        lemma_expanded_len(layout, data, (n - 1) as nat);
    }
}

/// Each pixel is converted on its own from its own samples: RGBA pixel `i`
/// of the expansion is `expand_pixel` of the samples of pixel `i`, so sample
/// values are kept as they are (no colour-space conversion).
pub proof fn expanded_pixel_by_pixel(layout: SampleLayout, data: Seq<u8>, n: nat, i: nat)
    requires
        i < n,
    ensures
        expanded(layout, data, n).subrange(4 * i as int, 4 * i as int + 4) == expand_pixel(
            layout,
            data.subrange(
                (i * bytes_per_pixel_spec(layout)) as int,
                ((i + 1) * bytes_per_pixel_spec(layout)) as int,
            ),
        ),
    decreases n,
{
    let b = bytes_per_pixel_spec(layout);
    let prev = expanded(layout, data, (n - 1) as nat);
    let last = expand_pixel(layout, data.subrange(((n - 1) * b) as int, (n * b) as int));
    lemma_expanded_len(layout, data, (n - 1) as nat);
    assert(expanded(layout, data, n) == prev + last);
    if i < n - 1 {
        expanded_pixel_by_pixel(layout, data, (n - 1) as nat, i);
        assert((prev + last).subrange(4 * i as int, 4 * i as int + 4) =~= prev.subrange(4 * i as int, 4 * i as int + 4));
    } else {
        assert((prev + last).subrange(4 * i as int, 4 * i as int + 4) =~= last);
    }
}

/// The four bytes of pixel `i` of row-major RGBA bytes.
pub open spec fn raster_pixel(data: Seq<u8>, i: int) -> Seq<u8> {
    data.subrange(4 * i, 4 * i + 4)
}

/// Pixels are stored row by row: pixel (`x`, `y`) of a raster `width`
/// pixels wide is its pixel number `y * width + x`.
pub proof fn pixels_are_row_major(img: (u32, u32, Seq<u8>), x: nat, y: nat)
    ensures
        pixel_at(img, x, y) == raster_pixel(img.2, (y * (img.0 as nat) + x) as int),
{
}

/// The expansion of `n` pixels holds four bytes per pixel, and its pixel `i`
/// comes from the samples of pixel `i` alone.
pub proof fn expanded_pixels(layout: SampleLayout, data: Seq<u8>, n: nat)
    ensures
        expanded(layout, data, n).len() == 4 * n,
        forall|i: int|
            0 <= i < n ==> #[trigger] raster_pixel(expanded(layout, data, n), i) == expand_pixel(
                layout,
                data.subrange(
                    i * bytes_per_pixel_spec(layout),
                    (i + 1) * bytes_per_pixel_spec(layout),
                ),
            ),
{
    lemma_expanded_len(layout, data, n);
    assert forall|i: int| 0 <= i < n implies #[trigger] raster_pixel(expanded(layout, data, n), i)
        == expand_pixel(
        layout,
        data.subrange(i * bytes_per_pixel_spec(layout), (i + 1) * bytes_per_pixel_spec(layout)),
    ) by {
        expanded_pixel_by_pixel(layout, data, n, i as nat);
    }
}

/// A CMYK channel in RGB is the nearest integer to
/// `(255 - a) * (255 - k) / 255`.
pub proof fn cmyk_channel_is_nearest(a: u8, k: u8)
    ensures
        255 * (cmyk_channel(a, k) as int) <= (255 - a) * (255 - k) + 127,
        (255 - a) * (255 - k) <= 255 * (cmyk_channel(a, k) as int) + 127,
{
    assert((255 - a) * (255 - k) <= 65025) by (nonlinear_arith)
        requires
            a <= 255,
            k <= 255,
    ;
    assert(0 <= (255 - a) * (255 - k)) by (nonlinear_arith)
        requires
            a <= 255,
            k <= 255,
    ;
}

fn cmyk_to_rgb_channel(a: u8, k: u8) -> (v: u8)
    ensures
        v == cmyk_channel(a, k),
{
    assert((255 - a as u32) * (255 - k as u32) <= 65025) by (nonlinear_arith)
        requires
            a <= 255,
            k <= 255,
    ;
    let p: u32 = (255 - a as u32) * (255 - k as u32);
    ((p + 127) / 255) as u8
}

/// Converts decoded samples into an RGBA raster, pixel by pixel in row-major
/// order. `None` when `data` holds fewer than `width * height` pixels.
pub fn expand_to_rgba(width: u32, height: u32, layout: SampleLayout, data: &[u8]) -> (res: Option<
    RgbaImage,
>)
    ensures
        match res {
            Some(img) => data@.len() >= pixel_count(width, height) * bytes_per_pixel_spec(layout)
                && img@ == (width, height, expanded(layout, data@, pixel_count(width, height))),
            None => data@.len() < pixel_count(width, height) * bytes_per_pixel_spec(layout),
        },
{
    let bpp = bytes_per_pixel(layout);
    let n = pixel_total(width, height);
    if n > (data.len() / bpp) as u64 {
        assert(data@.len() < n * bpp) by (nonlinear_arith)
            requires
                n > data@.len() / (bpp as nat),
                bpp > 0,
        ;
        return None;
    }
    assert(n * bpp <= data@.len()) by (nonlinear_arith)
        requires
            n <= data@.len() / (bpp as nat),
            bpp > 0,
    ;
    let data_len = data.len();
    let count = n as usize;
    let mut out: Vec<u8> = Vec::new();
    let mut i: usize = 0;
    while i < count
        invariant
            count == n,
            n * bpp <= data@.len(),
            data_len == data@.len(),
            bpp == bytes_per_pixel_spec(layout),
            0 <= i <= count,
            out@ == expanded(layout, data@, i as nat),
        decreases count - i,
    {
        assert((i + 1) * bpp <= n * bpp) by (nonlinear_arith)
            requires
                i < n,
        ;
        assert(i * bpp <= (i + 1) * bpp) by (nonlinear_arith);
        assert(i * bpp <= data_len);
        let base = i * bpp;
        assert(base + bpp == (i + 1) * bpp) by (nonlinear_arith)
            requires
                base == i * bpp,
        ;
        let ghost p = data@.subrange(base as int, base + bpp);
        match layout {
            SampleLayout::Rgb => {
                out.push(data[base]);
                out.push(data[base + 1]);
                out.push(data[base + 2]);
                out.push(255);
            },
            SampleLayout::Rgba => {
                out.push(data[base]);
                out.push(data[base + 1]);
                out.push(data[base + 2]);
                out.push(data[base + 3]);
            },
            SampleLayout::Gray => {
                out.push(data[base]);
                out.push(data[base]);
                out.push(data[base]);
                out.push(255);
            },
            SampleLayout::GrayAlpha => {
                out.push(data[base]);
                out.push(data[base]);
                out.push(data[base]);
                out.push(data[base + 1]);
            },
            SampleLayout::Gray16 => {
                out.push(data[base]);
                out.push(data[base]);
                out.push(data[base]);
                out.push(255);
            },
            SampleLayout::Cmyk => {
                let k = data[base + 3];
                out.push(cmyk_to_rgb_channel(data[base], k));
                out.push(cmyk_to_rgb_channel(data[base + 1], k));
                out.push(cmyk_to_rgb_channel(data[base + 2], k));
                out.push(255);
            },
        }
        assert(out@ =~= expanded(layout, data@, (i + 1) as nat));
        i = i + 1;
    }
    proof {
        lemma_expanded_len(layout, data@, n as nat);
    }
    Some(RgbaImage { width, height, data: out })
}

/// Pixel `a` and pixel `b` are both visible (alpha not 0) and share their RGB.
pub open spec fn same_visible_color_spec(a: [u8; 4], b: [u8; 4]) -> bool {
    a[3] != 0 && b[3] != 0 && a[0] == b[0] && a[1] == b[1] && a[2] == b[2]
}

/// Pixel `a` and pixel `b` share their RGB, whatever their alpha.
pub open spec fn rgb_matches_spec(a: [u8; 4], b: [u8; 4]) -> bool {
    a[0] == b[0] && a[1] == b[1] && a[2] == b[2]
}

/// Both pixels are visible and have the same RGB.
pub fn same_visible_color(a: [u8; 4], b: [u8; 4]) -> (res: bool)
    ensures
        res == same_visible_color_spec(a, b),
{
    a[3] != 0 && b[3] != 0 && a[0] == b[0] && a[1] == b[1] && a[2] == b[2]
}

/// Both pixels have the same RGB.
pub fn rgb_matches(a: [u8; 4], b: [u8; 4]) -> (res: bool)
    ensures
        res == rgb_matches_spec(a, b),
{
    a[0] == b[0] && a[1] == b[1] && a[2] == b[2]
}

/// Pixels of one visible colour also match by RGB, and both relations are
/// symmetric.
pub proof fn same_visible_color_matches_rgb(a: [u8; 4], b: [u8; 4])
    ensures
        same_visible_color_spec(a, b) ==> rgb_matches_spec(a, b),
        same_visible_color_spec(a, b) == same_visible_color_spec(b, a),
        rgb_matches_spec(a, b) == rgb_matches_spec(b, a),
{
}

} // verus!
