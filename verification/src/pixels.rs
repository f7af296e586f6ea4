//! PNG files and palette images: a PNG's samples read into an image, each
//! pixel the palette color nearest to it, and an image written as an RGBA
//! PNG.

use vstd::prelude::*;
use crate::image::{blank_image, color_code, rgba_component, rgba_index, Color, Image, ImageView, Palette, Rgba};

verus! {

/// How the samples of a decoded PNG lay out one pixel.
#[derive(Clone, Copy, Debug, PartialEq, Eq, Structural)]
pub enum PixelLayout {
    /// Red, green, blue and alpha bytes.
    Rgba,
    /// Red, green and blue bytes; the pixel is opaque.
    Rgb,
    /// A gray byte and an alpha byte.
    GrayscaleAlpha,
    /// A gray byte; the pixel is opaque.
    Grayscale,
    /// A palette index of the PNG's own, which is not read.
    Indexed,
}

/// The number of bytes that one pixel takes in `layout`.
pub open spec fn bytes_per_pixel(layout: PixelLayout) -> nat {
    match layout {
        PixelLayout::Rgba => 4,
        PixelLayout::Rgb => 3,
        PixelLayout::GrayscaleAlpha => 2,
        _ => 1,
    }
}

/// The number of bytes that one pixel takes in `layout`.
pub fn bytes_per_pixel_of(layout: PixelLayout) -> (n: usize)
    ensures
        n == bytes_per_pixel(layout),
{
    match layout {
        PixelLayout::Rgba => 4,
        PixelLayout::Rgb => 3,
        PixelLayout::GrayscaleAlpha => 2,
        _ => 1,
    }
}

/// The RGBA value of pixel `k` of `samples` laid out as `layout`.
pub open spec fn sample_rgba(layout: PixelLayout, samples: Seq<u8>, k: int) -> Rgba {
    match layout {
        PixelLayout::Rgba => (samples[4 * k], samples[4 * k + 1], samples[4 * k + 2], samples[4 * k + 3]),
        PixelLayout::Rgb => (samples[3 * k], samples[3 * k + 1], samples[3 * k + 2], 255u8),
        PixelLayout::GrayscaleAlpha => (samples[2 * k], samples[2 * k], samples[2 * k], samples[2 * k + 1]),
        _ => (samples[k], samples[k], samples[k], 255u8),
    }
}

/// The RGBA values of the whole pixels in `samples`, or `None` for the
/// indexed layout, which is not supported.
pub fn rgba_pixels(layout: PixelLayout, samples: &Vec<u8>) -> (pixels: Option<Vec<Rgba>>)
    ensures
        pixels is None <==> layout == PixelLayout::Indexed,
        pixels matches Some(p) ==> {
            &&& p@.len() == samples@.len() / bytes_per_pixel(layout)
            &&& forall|k: int| 0 <= k < p@.len() ==> #[trigger] p@[k] == sample_rgba(layout, samples@, k)
        },
{
    if layout == PixelLayout::Indexed {
        return None;
    }
    let per = bytes_per_pixel_of(layout);
    let len = samples.len();
    let n = len / per;
    let mut pixels: Vec<Rgba> = Vec::new();
    for k in 0..n
        invariant
            len == samples@.len(),
            layout != PixelLayout::Indexed,
            per == bytes_per_pixel(layout),
            n == samples@.len() / bytes_per_pixel(layout),
            pixels@.len() == k,
            forall|i: int| 0 <= i < k ==> #[trigger] pixels@[i] == sample_rgba(layout, samples@, i),
    {
        assert(per * k + per <= samples@.len()) by (nonlinear_arith)
            requires
                k < n,
                n == samples@.len() / (per as nat),
                per > 0,
        {
            assert(per * n <= samples@.len());
            assert(per * k + per <= per * n);
        }
        let start = per * k;
        let v: Rgba = match layout {
            PixelLayout::Rgba => (samples[start], samples[start + 1], samples[start + 2], samples[start + 3]),
            PixelLayout::Rgb => (samples[start], samples[start + 1], samples[start + 2], 255u8),
            PixelLayout::GrayscaleAlpha => (samples[start], samples[start], samples[start], samples[start + 1]),
            _ => (samples[start], samples[start], samples[start], 255u8),
        };
        pixels.push(v);
    }
    Some(pixels)
}

/// The square of the distance between two RGBA values, each byte a
/// coordinate.
pub open spec fn rgba_distance(a: Rgba, b: Rgba) -> int {
    (a.0 - b.0) * (a.0 - b.0) + (a.1 - b.1) * (a.1 - b.1) + (a.2 - b.2) * (a.2 - b.2) + (a.3 - b.3) * (a.3 - b.3)
}

/// `c` is the first color of `palette` whose entry lies nearest to `v`.
pub open spec fn is_nearest_color(palette: Seq<Rgba>, v: Rgba, c: Color) -> bool {
    &&& forall|i: int| 0 <= i < 16 ==> rgba_distance(palette[color_code(c) as int], v) <= #[trigger] rgba_distance(palette[i], v)
    &&& forall|i: int| 0 <= i < color_code(c) ==> rgba_distance(palette[color_code(c) as int], v) < #[trigger] rgba_distance(palette[i], v)
}

/// The square of the difference of two bytes.
fn byte_distance(a: u8, b: u8) -> (d: i32)
    ensures
        d == (a - b) * (a - b),
        0 <= d <= 65025,
{
    let delta = (a as i32) - (b as i32);
    assert(0 <= delta * delta <= 65025) by (nonlinear_arith)
        requires
            -255 <= delta <= 255,
    ;
    delta * delta
}

/// The first color of `palette` whose entry lies nearest to `v`.
pub fn nearest_color(palette: &Palette, v: Rgba) -> (c: Color)
    requires
        palette.wf(),
    ensures
        is_nearest_color(palette@, v, c),
{
    let mut best_color = Color::C0;
    let mut best_dist: i32 = i32::MAX;
    for i in 0..16usize
        invariant
            palette.wf(),
            i == 0 ==> best_dist == i32::MAX && best_color == Color::C0,
            i > 0 ==> color_code(best_color) < i,
            i > 0 ==> best_dist == rgba_distance(palette@[color_code(best_color) as int], v),
            forall|j: int| 0 <= j < i ==> best_dist <= #[trigger] rgba_distance(palette@[j], v),
            forall|j: int| 0 <= j < color_code(best_color) ==> best_dist < #[trigger] rgba_distance(palette@[j], v),
    {
        let color = Color::from_index(i);
        let entry = palette.get(color);
        let dist = byte_distance(entry.0, v.0) + byte_distance(entry.1, v.1) + byte_distance(entry.2, v.2)
            + byte_distance(entry.3, v.3);
        if dist < best_dist {
            best_dist = dist;
            best_color = color;
        }
    }
    best_color
}

/// Pixel `(col, row)` of a `width`-wide image stands at this place of a
/// list of pixels in row-major order.
pub open spec fn pixel_index(width: nat, col: int, row: int) -> int {
    row * width + col
}

/// A row-major pixel place lies before the end of the grid.
proof fn lemma_pixel_index_bound(w: int, h: int, col: int, row: int)
    by (nonlinear_arith)
    requires
        0 <= col < w,
        0 <= row < h,
    ensures
        0 <= row * w + col < w * h,
{
    assert(row * w + col < row * w + w);
    assert(row * w + w == (row + 1) * w);
    assert((row + 1) * w <= h * w);
}

/// The image of the given size whose pixel `(col, row)` is the palette
/// color nearest to `pixels[row * width + col]`.
pub fn image_from_rgba(palette: &Palette, width: u32, height: u32, pixels: &Vec<Rgba>) -> (img: Image)
    requires
        palette.wf(),
        width * height <= pixels@.len(),
    ensures
        img.wf(),
        img@.width == width,
        img@.height == height,
        img@.tag == blank_image(width as nat, height as nat).tag,
        img@.metadata == blank_image(width as nat, height as nat).metadata,
        forall|col: int, row: int|
            0 <= col < width && 0 <= row < height ==> is_nearest_color(
                palette@,
                pixels@[pixel_index(width as nat, col, row)],
                #[trigger] img@.at(col, row),
            ),
{
    let len = pixels.len();
    let mut img = Image::new(width, height);
    for row in 0..height
        invariant
            len == pixels@.len(),
            palette.wf(),
            width * height <= pixels@.len(),
            img.wf(),
            img@.width == width,
            img@.height == height,
            img@.tag == blank_image(width as nat, height as nat).tag,
            img@.metadata == blank_image(width as nat, height as nat).metadata,
            forall|c: int, r: int|
                0 <= c < width && 0 <= r < row ==> is_nearest_color(
                    palette@,
                    pixels@[pixel_index(width as nat, c, r)],
                    #[trigger] img@.at(c, r),
                ),
    {
        for col in 0..width
            invariant
                len == pixels@.len(),
                palette.wf(),
                width * height <= pixels@.len(),
                row < height,
                img.wf(),
                img@.width == width,
                img@.height == height,
                img@.tag == blank_image(width as nat, height as nat).tag,
                img@.metadata == blank_image(width as nat, height as nat).metadata,
                forall|c: int, r: int|
                    ((0 <= c < width && 0 <= r < row) || (r == row && 0 <= c < col)) ==> is_nearest_color(
                        palette@,
                        pixels@[pixel_index(width as nat, c, r)],
                        #[trigger] img@.at(c, r),
                    ),
        {
            proof {
                lemma_pixel_index_bound(width as int, height as int, col as int, row as int);
            }
            let k = (row as usize) * (width as usize) + (col as usize);
            let color = nearest_color(palette, pixels[k]);
            let ghost before = img@;
            img.set(col, row, color);
            assert forall|c: int, r: int|
                ((0 <= c < width && 0 <= r < row) || (r == row && 0 <= c < col + 1)) implies is_nearest_color(
                    palette@,
                    pixels@[pixel_index(width as nat, c, r)],
                    #[trigger] img@.at(c, r),
                ) by {
                if !(c == col && r == row) {
                    assert(img@.at(c, r) == before.at(c, r));
                }
            }
        }
    }
    img
}

/// The image that the decoded samples of a PNG of the given size read as,
/// each pixel the palette color nearest to it; `None` when the samples are
/// laid out as indexed colors, which are not read.
pub fn image_from_samples(
    palette: &Palette,
    width: u32,
    height: u32,
    layout: PixelLayout,
    samples: &Vec<u8>,
) -> (img: Option<Image>)
    requires
        palette.wf(),
        layout != PixelLayout::Indexed ==> width * height <= samples@.len() / bytes_per_pixel(layout),
    ensures
        img is None <==> layout == PixelLayout::Indexed,
        img matches Some(im) ==> {
            &&& im.wf()
            &&& im@.width == width
            &&& im@.height == height
            &&& im@.tag == blank_image(width as nat, height as nat).tag
            &&& im@.metadata == blank_image(width as nat, height as nat).metadata
            &&& forall|col: int, row: int|
                0 <= col < width && 0 <= row < height ==> is_nearest_color(
                    palette@,
                    sample_rgba(layout, samples@, pixel_index(width as nat, col, row)),
                    #[trigger] im@.at(col, row),
                )
        },
{
    match rgba_pixels(layout, samples) {
        None => None,
        Some(pixels) => {
            let im = image_from_rgba(palette, width, height, &pixels);
            assert forall|col: int, row: int|
                0 <= col < width && 0 <= row < height implies is_nearest_color(
                    palette@,
                    sample_rgba(layout, samples@, pixel_index(width as nat, col, row)),
                    #[trigger] im@.at(col, row),
                ) by {
                lemma_pixel_index_bound(width as int, height as int, col, row);
                assert(pixels@[pixel_index(width as nat, col, row)] == sample_rgba(
                    layout,
                    samples@,
                    pixel_index(width as nat, col, row),
                ));
            }
            Some(im)
        },
    }
}

/// No two entries of the palette are equal.
pub open spec fn distinct_entries(palette: Seq<Rgba>) -> bool {
    forall|i: int, j: int| 0 <= i < palette.len() && 0 <= j < palette.len() && i != j ==> palette[i] != palette[j]
}

/// An RGBA value is nearest to itself.
proof fn lemma_distance_zero(a: Rgba, b: Rgba)
    ensures
        rgba_distance(a, b) >= 0,
        rgba_distance(a, b) == 0 <==> a == b,
{
    assert((a.0 - b.0) * (a.0 - b.0) >= 0) by (nonlinear_arith);
    assert((a.1 - b.1) * (a.1 - b.1) >= 0) by (nonlinear_arith);
    assert((a.2 - b.2) * (a.2 - b.2) >= 0) by (nonlinear_arith);
    assert((a.3 - b.3) * (a.3 - b.3) >= 0) by (nonlinear_arith);
    if rgba_distance(a, b) == 0 {
        assert((a.0 - b.0) * (a.0 - b.0) == 0);
        assert(a.0 == b.0) by (nonlinear_arith)
            requires
                (a.0 - b.0) * (a.0 - b.0) == 0,
        ;
        assert(a.1 == b.1) by (nonlinear_arith)
            requires
                (a.1 - b.1) * (a.1 - b.1) == 0,
        ;
        assert(a.2 == b.2) by (nonlinear_arith)
            requires
                (a.2 - b.2) * (a.2 - b.2) == 0,
        ;
        assert(a.3 == b.3) by (nonlinear_arith)
            requires
                (a.3 - b.3) * (a.3 - b.3) == 0,
        ;
        assert(a == b);
    }
    if a == b {
        assert((a.0 - b.0) * (a.0 - b.0) == 0) by (nonlinear_arith)
            requires
                a.0 == b.0,
        ;
        assert((a.1 - b.1) * (a.1 - b.1) == 0) by (nonlinear_arith)
            requires
                a.1 == b.1,
        ;
        assert((a.2 - b.2) * (a.2 - b.2) == 0) by (nonlinear_arith)
            requires
                a.2 == b.2,
        ;
        assert((a.3 - b.3) * (a.3 - b.3) == 0) by (nonlinear_arith)
            requires
                a.3 == b.3,
        ;
    }
}

/// An image written as RGBA data under a palette of distinct entries, and
/// read back from that data against the same palette, has its own pixels
/// again.
pub proof fn lemma_rgba_round_trip(img: ImageView, palette: Seq<Rgba>, data: Seq<u8>, col: int, row: int)
    requires
        img.wf(),
        palette.len() == 16,
        distinct_entries(palette),
        img.in_bounds(col, row),
        forall|c: int, r: int, j: int|
            img.in_bounds(c, r) && 0 <= j < 4 ==> data[#[trigger] rgba_index(img.width, c, r, j)]
                == rgba_component(palette[color_code(img.at(c, r)) as int], j),
    ensures
        forall|c: Color|
            is_nearest_color(palette, sample_rgba(PixelLayout::Rgba, data, pixel_index(img.width, col, row)), c)
                <==> c == img.at(col, row),
{
    let k = pixel_index(img.width, col, row);
    let own = img.at(col, row);
    let entry = palette[color_code(own) as int];
    assert(data[rgba_index(img.width, col, row, 0)] == entry.0);
    assert(data[rgba_index(img.width, col, row, 1)] == entry.1);
    assert(data[rgba_index(img.width, col, row, 2)] == entry.2);
    assert(data[rgba_index(img.width, col, row, 3)] == entry.3);
    let v = sample_rgba(PixelLayout::Rgba, data, k);
    assert(v == entry);
    assert forall|i: int| 0 <= i < 16 implies rgba_distance(palette[color_code(own) as int], v) <= #[trigger] rgba_distance(palette[i], v) by {
        lemma_distance_zero(palette[i], v);
        lemma_distance_zero(entry, v);
    }
    assert forall|i: int| 0 <= i < color_code(own) implies rgba_distance(palette[color_code(own) as int], v) < #[trigger] rgba_distance(palette[i], v) by {
        lemma_distance_zero(palette[i], v);
        lemma_distance_zero(entry, v);
    }
    assert(is_nearest_color(palette, v, own));
    assert forall|c: Color| is_nearest_color(palette, v, c) implies c == own by {
        lemma_distance_zero(palette[color_code(c) as int], v);
        lemma_distance_zero(entry, v);
        crate::image::lemma_color_code_roundtrip(c);
        crate::image::lemma_color_code_roundtrip(own);
        assert(rgba_distance(palette[color_code(c) as int], v) <= rgba_distance(palette[color_code(own) as int], v));
        assert(palette[color_code(c) as int] == v);
        if color_code(c) != color_code(own) {
            assert(palette[color_code(c) as int] != palette[color_code(own) as int]);
        }
    }
}

//---------------------------------------------------------------------------//
// PNG files as bytes.

/// What decoding `bytes` as a PNG gives with the png crate's default
/// settings: the width, the height, the layout of the samples and the
/// output buffer the first frame was decoded into; `None` when the bytes
/// are no PNG the crate can decode.
pub uninterp spec fn png_decoded(bytes: Seq<u8>) -> Option<(u32, u32, PixelLayout, Seq<u8>)>;

/// Decodes `bytes` as a PNG with `png::Decoder` (`read_info`, then
/// `next_frame` into a buffer of `output_buffer_size` bytes); the contract
/// claims only that the result is `png_decoded(bytes)`.
#[verifier::external_body]
fn decode_png(bytes: &Vec<u8>) -> (r: Option<(u32, u32, PixelLayout, Vec<u8>)>)
    ensures
        match r {
            Some((w, h, layout, buffer)) => png_decoded(bytes@) == Some((w, h, layout, buffer@)),
            None => png_decoded(bytes@) is None,
        },
{
    let mut reader = png::Decoder::new(std::io::Cursor::new(bytes.as_slice())).read_info().ok()?;
    let mut buffer = vec![0u8; reader.output_buffer_size()?];
    let info = reader.next_frame(&mut buffer).ok()?;
    let layout = match info.color_type {
        png::ColorType::Rgba => PixelLayout::Rgba,
        png::ColorType::Rgb => PixelLayout::Rgb,
        png::ColorType::GrayscaleAlpha => PixelLayout::GrayscaleAlpha,
        png::ColorType::Grayscale => PixelLayout::Grayscale,
        png::ColorType::Indexed => PixelLayout::Indexed,
    };
    Some((info.width, info.height, layout, buffer))
}

/// Why a PNG could not be read as an image.
#[derive(Clone, Copy, Debug, PartialEq, Eq, Structural)]
pub enum PngError {
    /// The bytes are no PNG that can be decoded.
    Undecodable,
    /// The PNG holds indexed colors, which are not read.
    UnsupportedLayout,
    /// The decoded samples are too few for the PNG's size.
    TooShort,
}

/// `img` is the image of the given size read from `samples` laid out as
/// `layout`: each pixel is the palette color nearest to its sample.
pub open spec fn read_from_samples(palette: Seq<Rgba>, width: u32, height: u32, layout: PixelLayout, samples: Seq<u8>, img: ImageView) -> bool {
    &&& img.wf()
    &&& img.width == width
    &&& img.height == height
    &&& img.tag == blank_image(width as nat, height as nat).tag
    &&& img.metadata == blank_image(width as nat, height as nat).metadata
    &&& forall|col: int, row: int|
        0 <= col < width && 0 <= row < height ==> is_nearest_color(
            palette,
            sample_rgba(layout, samples, pixel_index(width as nat, col, row)),
            #[trigger] img.at(col, row),
        )
}

/// Reads the PNG file `bytes` as an image, each pixel the color of
/// `palette` nearest to it.
pub fn load_png(palette: &Palette, bytes: &Vec<u8>) -> (r: Result<Image, PngError>)
    requires
        palette.wf(),
    ensures
        match png_decoded(bytes@) {
            None => r == Err::<Image, PngError>(PngError::Undecodable),
            Some((w, h, layout, samples)) => if layout == PixelLayout::Indexed {
                r == Err::<Image, PngError>(PngError::UnsupportedLayout)
            } else if w * h > samples.len() / bytes_per_pixel(layout) {
                r == Err::<Image, PngError>(PngError::TooShort)
            } else {
                r matches Ok(img) && read_from_samples(palette@, w, h, layout, samples, img@)
            },
        },
{
    match decode_png(bytes) {
        None => Err(PngError::Undecodable),
        Some((width, height, layout, samples)) => {
            if layout == PixelLayout::Indexed {
                return Err(PngError::UnsupportedLayout);
            }
            let per = bytes_per_pixel_of(layout);
            let w = width as u64;
            let h = height as u64;
            assert(w * h <= 0xffff_ffffu64 * 0xffff_ffffu64) by (nonlinear_arith)
                requires
                    w <= 0xffff_ffffu64,
                    h <= 0xffff_ffffu64,
            ;
            if w * h > (samples.len() / per) as u64 {
                return Err(PngError::TooShort);
            }
            match image_from_samples(palette, width, height, layout, &samples) {
                Some(img) => Ok(img),
                None => Err(PngError::UnsupportedLayout),
            }
        },
    }
}

/// What encoding `data`, RGBA bytes of an image of the given size, as an
/// eight-bit RGBA PNG gives with the png crate: the file's bytes, or `None`
/// when the encoder refuses the size or the data.
pub uninterp spec fn png_encoded(width: u32, height: u32, data: Seq<u8>) -> Option<Seq<u8>>;

/// Encodes `data` with `png::Encoder` (RGBA, eight bits per sample,
/// `write_header`, `write_image_data`, `finish`); the contract claims only
/// that the result is `png_encoded(width, height, data)`.
#[verifier::external_body]
fn encode_png(width: u32, height: u32, data: &Vec<u8>) -> (r: Option<Vec<u8>>)
    ensures
        match r {
            Some(bytes) => png_encoded(width, height, data@) == Some(bytes@),
            None => png_encoded(width, height, data@) is None,
        },
{
    let mut out: Vec<u8> = Vec::new();
    let mut encoder = png::Encoder::new(&mut out, width, height);
    encoder.set_color(png::ColorType::Rgba);
    encoder.set_depth(png::BitDepth::Eight);
    let mut writer = encoder.write_header().ok()?;
    writer.write_image_data(data.as_slice()).ok()?;
    writer.finish().ok()?;
    Some(out)
}

/// `data` is the RGBA data of `img` under `palette`, as `Image::rgba_data`
/// gives it.
pub open spec fn is_rgba_data(img: ImageView, palette: Seq<Rgba>, data: Seq<u8>) -> bool {
    &&& data.len() == 4 * (img.height * img.width)
    &&& forall|col: int, row: int, j: int|
        img.in_bounds(col, row) && 0 <= j < 4 ==> data[#[trigger] rgba_index(img.width, col, row, j)]
            == rgba_component(palette[color_code(img.at(col, row)) as int], j)
}

/// The bytes of a PNG file that holds `image` under `palette`, or `None`
/// when the encoder refuses it.
pub fn png_of_image(image: &Image, palette: &Palette) -> (r: Option<Vec<u8>>)
    requires
        image.wf(),
        palette.wf(),
    ensures
        exists|data: Seq<u8>|
            {
                &&& is_rgba_data(image@, palette@, data)
                &&& match r {
                    Some(bytes) => png_encoded(image@.width as u32, image@.height as u32, data) == Some(bytes@),
                    None => png_encoded(image@.width as u32, image@.height as u32, data) is None,
                }
            },
{
    let data = image.rgba_data(palette);
    let r = encode_png(image.width(), image.height(), &data);
    assert(is_rgba_data(image@, palette@, data@));
    r
}

} // verus!
