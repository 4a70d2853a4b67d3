//! Colour conversions, image comparison, and the boundary between images
//! and encoded bytes.
use vstd::prelude::*;
use crate::ops::render;
use crate::raster::{
    flat_samples, lemma_raster_injective, lemma_view_of_flat, raster_view, raster_wf, Channels, Depth, Image,
    ImageView,
};
use image::DynamicImage::{
    ImageLuma16, ImageLuma8, ImageLumaA16, ImageLumaA8, ImageRgb16, ImageRgb32F, ImageRgb8,
    ImageRgba16, ImageRgba32F, ImageRgba8,
};
use image::ImageFormat;
use image::ImageBuffer as B;
use image::ImageOutputFormat::Png;
use std::io::Cursor;
use RawSamples::{L16, L8, La16, La8, Rgb16, Rgb8, Rgba16, Rgba8};

verus! {

/// A sample brought to 8 bits: 16-bit samples are scaled by 255/65535 and
/// rounded to nearest.
pub open spec fn narrow(s: u16, d: Depth) -> u16 {
    match d {
        Depth::Eight => s,
        Depth::Sixteen => ((s + 128) / 257) as u16,
    }
}

/// One pixel as 8-bit RGBA: luma is repeated into the three colours, and a
/// missing alpha is opaque.
pub open spec fn rgba8_pixel(c: Channels, d: Depth, p: Seq<u16>) -> Seq<u16> {
    match c {
        Channels::Luma => seq![narrow(p[0], d), narrow(p[0], d), narrow(p[0], d), 255u16],
        Channels::LumaAlpha => seq![
            narrow(p[0], d),
            narrow(p[0], d),
            narrow(p[0], d),
            narrow(p[1], d),
        ],
        Channels::Rgb => seq![narrow(p[0], d), narrow(p[1], d), narrow(p[2], d), 255u16],
        Channels::Rgba => seq![narrow(p[0], d), narrow(p[1], d), narrow(p[2], d), narrow(p[3], d)],
    }
}

/// One pixel as 8-bit RGB: luma is repeated into the three colours, and
/// alpha is dropped.
pub open spec fn rgb8_pixel(c: Channels, d: Depth, p: Seq<u16>) -> Seq<u16> {
    match c {
        Channels::Luma => seq![narrow(p[0], d), narrow(p[0], d), narrow(p[0], d)],
        Channels::LumaAlpha => seq![narrow(p[0], d), narrow(p[0], d), narrow(p[0], d)],
        Channels::Rgb => seq![narrow(p[0], d), narrow(p[1], d), narrow(p[2], d)],
        Channels::Rgba => seq![narrow(p[0], d), narrow(p[1], d), narrow(p[2], d)],
    }
}

/// The image as 8-bit RGBA.
pub open spec fn to_rgba8_view(v: ImageView) -> ImageView {
    ImageView {
        width: v.width,
        height: v.height,
        channels: Channels::Rgba,
        depth: Depth::Eight,
        rows: v.rows.map_values(
            |row: Seq<Seq<u16>>| row.map_values(|p: Seq<u16>| rgba8_pixel(v.channels, v.depth, p)),
        ),
    }
}

/// The image as 8-bit RGB.
pub open spec fn to_rgb8_view(v: ImageView) -> ImageView {
    ImageView {
        width: v.width,
        height: v.height,
        channels: Channels::Rgb,
        depth: Depth::Eight,
        rows: v.rows.map_values(
            |row: Seq<Seq<u16>>| row.map_values(|p: Seq<u16>| rgb8_pixel(v.channels, v.depth, p)),
        ),
    }
}

/// The samples of an 8-bit image as bytes.
pub open spec fn bytes_of(v: ImageView) -> Seq<u8> {
    flat_samples(v).map_values(|s: u16| s as u8)
}

fn narrow_exec(s: u16, d: Depth) -> (r: u16)
    requires
        s <= d.max_sample(),
    ensures
        r == narrow(s, d),
        r <= 255,
{
    match d {
        Depth::Eight => s,
        Depth::Sixteen => ((s as u32 + 128) / 257) as u16,
    }
}

fn rgba8_pixel_exec(c: Channels, d: Depth, p: &Vec<u16>) -> (q: Vec<u16>)
    requires
        p@.len() == c.count(),
        forall|i: int| 0 <= i < p@.len() ==> #[trigger] p@[i] <= d.max_sample(),
    ensures
        q@ == rgba8_pixel(c, d, p@),
{
    let q = match c {
        Channels::Luma => {
            let l = narrow_exec(p[0], d);
            vec![l, l, l, 255u16]
        },
        Channels::LumaAlpha => {
            let l = narrow_exec(p[0], d);
            vec![l, l, l, narrow_exec(p[1], d)]
        },
        Channels::Rgb => vec![narrow_exec(p[0], d), narrow_exec(p[1], d), narrow_exec(p[2], d), 255u16],
        Channels::Rgba => vec![
            narrow_exec(p[0], d),
            narrow_exec(p[1], d),
            narrow_exec(p[2], d),
            narrow_exec(p[3], d),
        ],
    };
    assert(q@ =~= rgba8_pixel(c, d, p@));
    q
}

fn rgb8_pixel_exec(c: Channels, d: Depth, p: &Vec<u16>) -> (q: Vec<u16>)
    requires
        p@.len() == c.count(),
        forall|i: int| 0 <= i < p@.len() ==> #[trigger] p@[i] <= d.max_sample(),
    ensures
        q@ == rgb8_pixel(c, d, p@),
{
    let q = match c {
        Channels::Luma | Channels::LumaAlpha => {
            let l = narrow_exec(p[0], d);
            vec![l, l, l]
        },
        Channels::Rgb | Channels::Rgba => vec![
            narrow_exec(p[0], d),
            narrow_exec(p[1], d),
            narrow_exec(p[2], d),
        ],
    };
    assert(q@ =~= rgb8_pixel(c, d, p@));
    q
}

/// Converts an image to 8-bit RGBA.
pub fn to_rgba8(img: &Image) -> (out: Image)
    ensures
        out@ == to_rgba8_view(img@),
        out@.wf(),
{
    img.well_formed();
    let c = img.channels();
    let d = img.depth();
    let ghost v = img@;
    let out = render(
        img.width(),
        img.height(),
        Channels::Rgba,
        Depth::Eight,
        Ghost(|x: int, y: int| rgba8_pixel(v.channels, v.depth, v.pixel(x, y))),
        (|x: u32, y: u32| -> (r: Vec<u16>)
            requires
                x < v.width,
                y < v.height,
            ensures
                r@ == rgba8_pixel(v.channels, v.depth, v.pixel(x as int, y as int)),
            {
                let p = img.pixel(x, y);
                assert(forall|i: int| 0 <= i < p@.len() ==> p@[i] == v.pixel(x as int, y as int)[i]);
                rgba8_pixel_exec(c, d, &p)
            }),
    );
    proof {
        let mapped = v.rows.map_values(
            |row: Seq<Seq<u16>>| row.map_values(|p: Seq<u16>| rgba8_pixel(v.channels, v.depth, p)),
        );
        assert forall|yy: int| 0 <= yy < v.height implies #[trigger] out@.rows[yy] =~= mapped[yy] by {}
        assert(out@.rows =~= mapped);
    }
    out
}

/// Converts an image to 8-bit RGB.
pub fn to_rgb8(img: &Image) -> (out: Image)
    ensures
        out@ == to_rgb8_view(img@),
        out@.wf(),
{
    img.well_formed();
    let c = img.channels();
    let d = img.depth();
    let ghost v = img@;
    let out = render(
        img.width(),
        img.height(),
        Channels::Rgb,
        Depth::Eight,
        Ghost(|x: int, y: int| rgb8_pixel(v.channels, v.depth, v.pixel(x, y))),
        (|x: u32, y: u32| -> (r: Vec<u16>)
            requires
                x < v.width,
                y < v.height,
            ensures
                r@ == rgb8_pixel(v.channels, v.depth, v.pixel(x as int, y as int)),
            {
                let p = img.pixel(x, y);
                assert(forall|i: int| 0 <= i < p@.len() ==> p@[i] == v.pixel(x as int, y as int)[i]);
                rgb8_pixel_exec(c, d, &p)
            }),
    );
    proof {
        let mapped = v.rows.map_values(
            |row: Seq<Seq<u16>>| row.map_values(|p: Seq<u16>| rgb8_pixel(v.channels, v.depth, p)),
        );
        assert forall|yy: int| 0 <= yy < v.height implies #[trigger] out@.rows[yy] =~= mapped[yy] by {}
        assert(out@.rows =~= mapped);
    }
    out
}

/// Whether two sample buffers are equal.
fn samples_equal(a: &Vec<u16>, b: &Vec<u16>) -> (r: bool)
    ensures
        r == (a@ == b@),
{
    if a.len() != b.len() {
        return false;
    }
    let mut i: usize = 0;
    while i < a.len()
        invariant
            i <= a.len(),
            a.len() == b.len(),
            forall|j: int| 0 <= j < i ==> a@[j] == b@[j],
        decreases a.len() - i,
    {
        if a[i] != b[i] {
            return false;
        }
        i += 1;
    }
    assert(a@ =~= b@);
    true
}

/// Whether two images are the same picture once both are converted to
/// 8-bit RGBA: same dimensions and the same pixels.
pub fn images_are_equal(img1: &Image, img2: &Image) -> (r: bool)
    ensures
        r == (to_rgba8_view(img1@) == to_rgba8_view(img2@)),
{
    let a = to_rgba8(img1);
    let b = to_rgba8(img2);
    if a.width() != b.width() || a.height() != b.height() {
        return false;
    }
    let sa = a.samples();
    let sb = b.samples();
    let same = samples_equal(sa, sb);
    proof {
        if to_rgba8_view(img1@) == to_rgba8_view(img2@) {
            lemma_raster_injective(
                sa@,
                sb@,
                a@.width,
                a@.height,
                Channels::Rgba,
                Depth::Eight,
            );
        }
    }
    same
}

/// The samples of an 8-bit image as bytes, row-major.
pub fn to_bytes(img: &Image) -> (r: Vec<u8>)
    requires
        img@.depth == Depth::Eight,
    ensures
        r@ == bytes_of(img@),
{
    let s = img.samples();
    let mut out: Vec<u8> = Vec::new();
    let mut i: usize = 0;
    while i < s.len()
        invariant
            i <= s.len(),
            raster_wf(s@, img@.width, img@.height, img@.channels, Depth::Eight),
            out@ == s@.take(i as int).map_values(|x: u16| x as u8),
        decreases s.len() - i,
    {
        assert(s@[i as int] <= 255);
        out.push(s[i] as u8);
        i += 1;
        assert(out@ =~= s@.take(i as int).map_values(|x: u16| x as u8));
    }
    assert(s@.take(i as int) =~= s@);
    out
}

/// Bytes widened to 16-bit samples.
pub open spec fn widen(b: Seq<u8>) -> Seq<u16> {
    b.map_values(|x: u8| x as u16)
}

fn widen_exec(b: &Vec<u8>) -> (r: Vec<u16>)
    ensures
        r@ == widen(b@),
{
    let mut out: Vec<u16> = Vec::new();
    let mut i: usize = 0;
    while i < b.len()
        invariant
            i <= b.len(),
            out@ == widen(b@.take(i as int)),
        decreases b.len() - i,
    {
        out.push(b[i] as u16);
        i += 1;
        assert(out@ =~= widen(b@.take(i as int)));
    }
    assert(b@.take(i as int) =~= b@);
    out
}

/// What decoding `bytes` with the image crate gives: width, height,
/// channels, whether samples are 16-bit, and the samples at 8 or at 16 bits.
pub uninterp spec fn decoded_image(bytes: Seq<u8>) -> Option<
    (u32, u32, Channels, bool, Seq<u8>, Seq<u16>),
>;

/// The samples of a decoded or to-be-encoded raster, by channels and depth.
pub enum RawSamples {
    L8(Vec<u8>),
    La8(Vec<u8>),
    Rgb8(Vec<u8>),
    Rgba8(Vec<u8>),
    L16(Vec<u16>),
    La16(Vec<u16>),
    Rgb16(Vec<u16>),
    Rgba16(Vec<u16>),
}

/// The named form of raw samples: channels, whether 16-bit, and the samples
/// at 8 or at 16 bits.
pub open spec fn raw_form(r: &RawSamples) -> (Channels, bool, Seq<u8>, Seq<u16>) {
    match r {
        RawSamples::L8(a) => (Channels::Luma, false, a@, Seq::empty()),
        RawSamples::La8(a) => (Channels::LumaAlpha, false, a@, Seq::empty()),
        RawSamples::Rgb8(a) => (Channels::Rgb, false, a@, Seq::empty()),
        RawSamples::Rgba8(a) => (Channels::Rgba, false, a@, Seq::empty()),
        RawSamples::L16(b) => (Channels::Luma, true, Seq::empty(), b@),
        RawSamples::La16(b) => (Channels::LumaAlpha, true, Seq::empty(), b@),
        RawSamples::Rgb16(b) => (Channels::Rgb, true, Seq::empty(), b@),
        RawSamples::Rgba16(b) => (Channels::Rgba, true, Seq::empty(), b@),
    }
}

/// Calls `image::load_from_memory`, which guesses the format from the bytes
/// and decodes them, and hands back the buffer of the decoded image. Claimed:
/// the result is the named `decoded_image` of the bytes; `None` when the
/// call fails, or the image has floating-point samples (or is of a kind that
/// later versions of the crate add). Nothing is claimed of
/// what the decoder computes.
#[verifier::external_body]
fn load_from_memory(bytes: &[u8]) -> (r: Option<(u32, u32, RawSamples)>)
    ensures
        match r {
            Some((w, h, raw)) => {
                let (c, s16, a, b) = raw_form(&raw);
                decoded_image(bytes@) == Some((w, h, c, s16, a, b))
            },
            None => decoded_image(bytes@) is None,
        },
{
    let img = image::load_from_memory(bytes).ok()?;
    let (w, h) = (img.width(), img.height());
    let raw = match img {
        ImageLuma8(p) => L8(p.into_raw()),
        ImageLumaA8(p) => La8(p.into_raw()),
        ImageRgb8(p) => Rgb8(p.into_raw()),
        ImageRgba8(p) => Rgba8(p.into_raw()),
        ImageLuma16(p) => L16(p.into_raw()),
        ImageLumaA16(p) => La16(p.into_raw()),
        ImageRgb16(p) => Rgb16(p.into_raw()),
        ImageRgba16(p) => Rgba16(p.into_raw()),
        ImageRgb32F(_) | ImageRgba32F(_) => return None,
        _ => return None,
    };
    Some((w, h, raw))
}

/// The image that a decoder's result stands for: `None` when the decoder
/// failed, or handed back samples that do not fit its own dimensions.
pub open spec fn view_of_decoded(d: Option<(u32, u32, Channels, bool, Seq<u8>, Seq<u16>)>) -> Option<
    ImageView,
> {
    match d {
        Some((w, h, c, sixteen, a, b)) => {
            let d = if sixteen {
                Depth::Sixteen
            } else {
                Depth::Eight
            };
            let s = if sixteen {
                b
            } else {
                widen(a)
            };
            if raster_wf(s, w as nat, h as nat, c, d) {
                Some(raster_view(s, w as nat, h as nat, c, d))
            } else {
                None
            }
        },
        None => None,
    }
}

/// The image that `bytes` decode to, the format guessed from the bytes.
pub open spec fn decode_view(bytes: Seq<u8>) -> Option<ImageView> {
    view_of_decoded(decoded_image(bytes))
}

/// The image made of a decoder's raw samples.
fn image_of_raw(w: u32, h: u32, raw: RawSamples) -> (r: Option<Image>)
    ensures
        ({
            let (c, s16, a, b) = raw_form(&raw);
            match r {
                Some(img) => view_of_decoded(Some((w, h, c, s16, a, b))) == Some(img@),
                None => view_of_decoded(Some((w, h, c, s16, a, b))) is None,
            }
        }),
{
    match raw {
        RawSamples::L8(a) => Image::new(w, h, Channels::Luma, Depth::Eight, widen_exec(&a)),
        RawSamples::La8(a) => Image::new(w, h, Channels::LumaAlpha, Depth::Eight, widen_exec(&a)),
        RawSamples::Rgb8(a) => Image::new(w, h, Channels::Rgb, Depth::Eight, widen_exec(&a)),
        RawSamples::Rgba8(a) => Image::new(w, h, Channels::Rgba, Depth::Eight, widen_exec(&a)),
        RawSamples::L16(b) => Image::new(w, h, Channels::Luma, Depth::Sixteen, b),
        RawSamples::La16(b) => Image::new(w, h, Channels::LumaAlpha, Depth::Sixteen, b),
        RawSamples::Rgb16(b) => Image::new(w, h, Channels::Rgb, Depth::Sixteen, b),
        RawSamples::Rgba16(b) => Image::new(w, h, Channels::Rgba, Depth::Sixteen, b),
    }
}

/// Decodes an encoded image (the format is guessed from the bytes).
pub fn decode_image(bytes: &[u8]) -> (r: Option<Image>)
    ensures
        match r {
            Some(img) => decode_view(bytes@) == Some(img@),
            None => decode_view(bytes@) is None,
        },
{
    match load_from_memory(bytes) {
        Some((w, h, raw)) => image_of_raw(w, h, raw),
        None => None,
    }
}

/// What decoding `bytes` with the image crate gives when the format is the
/// one that the extension of `path` names: width, height, channels, whether
/// samples are 16-bit, and the samples at 8 or at 16 bits.
pub uninterp spec fn decoded_image_by_extension(path: Seq<char>, bytes: Seq<u8>) -> Option<
    (u32, u32, Channels, bool, Seq<u8>, Seq<u16>),
>;

/// Calls `image::ImageFormat::from_path`, which picks the format from the
/// extension of `path`, then `image::load_from_memory_with_format` on the
/// bytes with that format, and hands back the buffer of the decoded image.
/// Claimed: the result is the named `decoded_image_by_extension` of the path
/// and the bytes; `None` when either call fails or the image has
/// floating-point samples. Nothing is claimed of which extension names which
/// format, nor of what the decoder computes.
#[verifier::external_body]
fn load_by_extension(path: &str, bytes: &[u8]) -> (r: Option<(u32, u32, RawSamples)>)
    ensures
        match r {
            Some((w, h, raw)) => {
                let (c, s16, a, b) = raw_form(&raw);
                decoded_image_by_extension(path@, bytes@) == Some((w, h, c, s16, a, b))
            },
            None => decoded_image_by_extension(path@, bytes@) is None,
        },
{
    let img = image::load_from_memory_with_format(bytes, ImageFormat::from_path(path).ok()?).ok()?;
    let (w, h) = (img.width(), img.height());
    let raw = match img {
        ImageLuma8(p) => L8(p.into_raw()),
        ImageLumaA8(p) => La8(p.into_raw()),
        ImageRgb8(p) => Rgb8(p.into_raw()),
        ImageRgba8(p) => Rgba8(p.into_raw()),
        ImageLuma16(p) => L16(p.into_raw()),
        ImageLumaA16(p) => La16(p.into_raw()),
        ImageRgb16(p) => Rgb16(p.into_raw()),
        ImageRgba16(p) => Rgba16(p.into_raw()),
        ImageRgb32F(_) | ImageRgba32F(_) => return None,
        _ => return None,
    };
    Some((w, h, raw))
}

/// The image that `bytes` decode to as the format that the extension of
/// `path` names.
pub open spec fn decode_view_by_extension(path: Seq<char>, bytes: Seq<u8>) -> Option<ImageView> {
    view_of_decoded(decoded_image_by_extension(path, bytes))
}

/// Decodes the contents of the file at `path` as the format that the
/// file's extension names, as opening an image file does.
pub fn decode_image_by_extension(path: &str, bytes: &[u8]) -> (r: Option<Image>)
    ensures
        match r {
            Some(img) => decode_view_by_extension(path@, bytes@) == Some(img@),
            None => decode_view_by_extension(path@, bytes@) is None,
        },
{
    match load_by_extension(path, bytes) {
        Some((w, h, raw)) => image_of_raw(w, h, raw),
        None => None,
    }
}

/// What encoding a raster as PNG with the image crate gives, from width,
/// height, channels, whether samples are 16-bit, and the samples at 8 or at
/// 16 bits.
pub uninterp spec fn png_encoding(
    width: u32,
    height: u32,
    channels: Channels,
    sixteen: bool,
    narrow: Seq<u8>,
    wide: Seq<u16>,
) -> Option<Seq<u8>>;

/// Builds the `image::DynamicImage` of the raster with `ImageBuffer::from_raw`
/// and calls `DynamicImage::write_to` with `ImageOutputFormat::Png`. Claimed:
/// the result is the named `png_encoding` of the dimensions and samples;
/// `None` when either call fails. Nothing is claimed of the bytes the
/// encoder writes.
#[verifier::external_body]
fn write_png(w: u32, h: u32, raw: RawSamples) -> (r: Option<Vec<u8>>)
    ensures
        ({
            let (c, s16, a, b) = raw_form(&raw);
            match r {
                Some(out) => png_encoding(w, h, c, s16, a, b) == Some(out@),
                None => png_encoding(w, h, c, s16, a, b) is None,
            }
        }),
{
    let mut out = Cursor::default();
    match raw {
        L8(a) => ImageLuma8(B::from_raw(w, h, a)?),
        La8(a) => ImageLumaA8(B::from_raw(w, h, a)?),
        Rgb8(a) => ImageRgb8(B::from_raw(w, h, a)?),
        Rgba8(a) => ImageRgba8(B::from_raw(w, h, a)?),
        L16(b) => ImageLuma16(B::from_raw(w, h, b)?),
        La16(b) => ImageLumaA16(B::from_raw(w, h, b)?),
        Rgb16(b) => ImageRgb16(B::from_raw(w, h, b)?),
        Rgba16(b) => ImageRgba16(B::from_raw(w, h, b)?),
    }.write_to(&mut out, Png).ok()?;
    Some(out.into_inner())
}

/// The PNG encoding of an image: 8-bit images hand the encoder their samples
/// as bytes, 16-bit images as 16-bit samples.
pub open spec fn png_of(v: ImageView) -> Option<Seq<u8>> {
    match v.depth {
        Depth::Eight => png_encoding(
            v.width as u32,
            v.height as u32,
            v.channels,
            false,
            bytes_of(v),
            Seq::empty(),
        ),
        Depth::Sixteen => png_encoding(
            v.width as u32,
            v.height as u32,
            v.channels,
            true,
            Seq::empty(),
            flat_samples(v),
        ),
    }
}

/// Encodes an image as PNG.
pub fn encode_png(img: &Image) -> (r: Option<Vec<u8>>)
    ensures
        match r {
            Some(out) => png_of(img@) == Some(out@),
            None => png_of(img@) is None,
        },
{
    let raw = match (img.channels(), img.depth()) {
        (Channels::Luma, Depth::Eight) => L8(to_bytes(img)),
        (Channels::LumaAlpha, Depth::Eight) => La8(to_bytes(img)),
        (Channels::Rgb, Depth::Eight) => Rgb8(to_bytes(img)),
        (Channels::Rgba, Depth::Eight) => Rgba8(to_bytes(img)),
        (Channels::Luma, Depth::Sixteen) => L16(img.samples().clone()),
        (Channels::LumaAlpha, Depth::Sixteen) => La16(img.samples().clone()),
        (Channels::Rgb, Depth::Sixteen) => Rgb16(img.samples().clone()),
        (Channels::Rgba, Depth::Sixteen) => Rgba16(img.samples().clone()),
    };
    write_png(img.width(), img.height(), raw)
}

/// The contents of a file as bytes, `None` when it could not be read.
pub open spec fn file_view(f: &Option<Vec<u8>>) -> Option<Seq<u8>> {
    match f {
        Some(v) => Some(v@),
        None => None,
    }
}

/// Why an image that a receipt records could not be compared with a public
/// image.
#[derive(Clone, Copy, Debug, PartialEq, Eq, Structural)]
pub enum CompareError {
    /// The image that the receipt records does not decode.
    ReceiptImage,
    /// The public image file could not be read.
    PublicFileUnreadable,
    /// The public image does not decode.
    PublicImage,
}

/// The comparison of the image that a receipt records with the public image
/// file: each is decoded in turn (the public file only once it has been
/// read), and they are the same when they are the same picture as 8-bit RGBA.
pub open spec fn image_comparison(receipt_png: Seq<u8>, public_file: Option<Seq<u8>>) -> Result<
    bool,
    CompareError,
> {
    match decode_view(receipt_png) {
        None => Err(CompareError::ReceiptImage),
        Some(a) => match public_file {
            None => Err(CompareError::PublicFileUnreadable),
            Some(f) => match decode_view(f) {
                None => Err(CompareError::PublicImage),
                Some(b) => Ok(to_rgba8_view(a) == to_rgba8_view(b)),
            },
        },
    }
}

/// Decodes the image that a receipt records and the public image (from the
/// contents of its file, `None` when it could not be read), and tells
/// whether they are the same picture as 8-bit RGBA.
pub fn encoded_images_match(receipt_png: &Vec<u8>, public_file: &Option<Vec<u8>>) -> (r: Result<
    bool,
    CompareError,
>)
    ensures
        r == image_comparison(receipt_png@, file_view(public_file)),
{
    let a = match decode_image(receipt_png.as_slice()) {
        Some(a) => a,
        None => {
            return Err(CompareError::ReceiptImage);
        },
    };
    let b = match public_file {
        Some(f) => match decode_image(f.as_slice()) {
            Some(b) => b,
            None => {
                return Err(CompareError::PublicImage);
            },
        },
        None => {
            return Err(CompareError::PublicFileUnreadable);
        },
    };
    Ok(images_are_equal(&a, &b))
}

/// Why raw samples could not be compared with an image.
#[derive(Clone, Copy, Debug, PartialEq, Eq, Structural)]
pub enum RawCompareError {
    /// Fewer samples than `width * height` RGB pixels need.
    RawTooShort,
    /// The expected image file could not be read, or does not decode as the
    /// format its extension names.
    ExpectedImage,
}

/// `width * height` RGB pixels fit in memory and in `len` bytes.
pub open spec fn raw_fits(len: nat, width: u32, height: u32) -> bool {
    3 * width * height <= usize::MAX && 3 * width * height <= len
}

/// The comparison of raw 8-bit RGB samples with the expected image file:
/// the samples must hold `width * height` pixels, then the file (once read)
/// is decoded as the format that the extension of `path` names, and they are
/// the same when the samples are exactly the image's samples as 8-bit RGB.
pub open spec fn raw_comparison(
    raw: Seq<u8>,
    width: u32,
    height: u32,
    path: Seq<char>,
    expected_file: Option<Seq<u8>>,
) -> Result<bool, RawCompareError> {
    if !raw_fits(raw.len(), width, height) {
        Err(RawCompareError::RawTooShort)
    } else {
        match expected_file {
            None => Err(RawCompareError::ExpectedImage),
            Some(f) => match decode_view_by_extension(path, f) {
                None => Err(RawCompareError::ExpectedImage),
                Some(v) => Ok(raw == bytes_of(to_rgb8_view(v))),
            },
        }
    }
}

/// Checks that `raw` holds at least `width * height` RGB pixels, decodes the
/// expected image from the contents of its file (`None` when the file could
/// not be read) as the format that the extension of `expected_path` names,
/// and tells whether `raw` is exactly the expected image's samples as 8-bit
/// RGB.
pub fn raw_rgb_matches(
    raw: &Vec<u8>,
    width: u32,
    height: u32,
    expected_path: &str,
    expected_file: &Option<Vec<u8>>,
) -> (r: Result<bool, RawCompareError>)
    ensures
        r == raw_comparison(raw@, width, height, expected_path@, file_view(expected_file)),
{
    assert((width as u128) * (height as u128) <= 0x1_0000_0000_0000_0000u128) by (nonlinear_arith)
        requires
            width <= u32::MAX,
            height <= u32::MAX,
    ;
    let needed: u128 = 3 * ((width as u128) * (height as u128));
    assert(needed == 3 * width * height) by (nonlinear_arith)
        requires
            needed == 3 * ((width as u128) * (height as u128)),
    ;
    if needed > usize::MAX as u128 || needed > raw.len() as u128 {
        return Err(RawCompareError::RawTooShort);
    }
    let expected = match expected_file {
        Some(f) => match decode_image_by_extension(expected_path, f.as_slice()) {
            Some(img) => img,
            None => {
                return Err(RawCompareError::ExpectedImage);
            },
        },
        None => {
            return Err(RawCompareError::ExpectedImage);
        },
    };
    let rgb = to_rgb8(&expected);
    let bytes = to_bytes(&rgb);
    Ok(crate::chain::bytes_equal(raw, &bytes))
}

/// A 16-bit sample narrowed to 8 bits is `s * 255 / 65535` rounded to the
/// nearest integer: `s` lies within half a step of 257 times it.
pub proof fn lemma_narrow_rounds(s: u16)
    ensures
        narrow(s, Depth::Sixteen) <= 255,
        257 * narrow(s, Depth::Sixteen) <= s + 128 < 257 * narrow(s, Depth::Sixteen) + 257,
        narrow(s, Depth::Eight) == s,
{
}

/// The image with every sample narrowed to 8 bits.
pub open spec fn narrow_view(v: ImageView) -> ImageView {
    ImageView {
        width: v.width,
        height: v.height,
        channels: v.channels,
        depth: Depth::Eight,
        rows: v.rows.map_values(
            |row: Seq<Seq<u16>>| row.map_values(
                |p: Seq<u16>| p.map_values(|s: u16| narrow(s, v.depth)),
            ),
        ),
    }
}

/// Two images have the same dimensions and depth.
pub open spec fn same_frame(v: ImageView, w: ImageView) -> bool {
    v.wf() && w.wf() && v.width == w.width && v.height == w.height && v.depth == w.depth
}

/// Converting an 8-bit RGB image to 8-bit RGB leaves it as it is: the
/// colours keep their order.
pub proof fn lemma_rgb8_of_rgb8(v: ImageView)
    requires
        v.wf(),
        v.channels == Channels::Rgb,
        v.depth == Depth::Eight,
    ensures
        to_rgb8_view(v) == v,
{
    let o = to_rgb8_view(v);
    assert forall|y: int| 0 <= y < v.height implies #[trigger] o.rows[y] =~= v.rows[y] by {
        assert forall|x: int| 0 <= x < v.width implies #[trigger] o.rows[y][x] =~= v.rows[y][x] by {
            assert(v.pixel(x, y).len() == 3);
        }
    }
    assert(o.rows =~= v.rows);
}

/// Converting an 8-bit RGBA image to 8-bit RGBA leaves it as it is.
pub proof fn lemma_rgba8_of_rgba8(v: ImageView)
    requires
        v.wf(),
        v.channels == Channels::Rgba,
        v.depth == Depth::Eight,
    ensures
        to_rgba8_view(v) == v,
{
    let o = to_rgba8_view(v);
    assert forall|y: int| 0 <= y < v.height implies #[trigger] o.rows[y] =~= v.rows[y] by {
        assert forall|x: int| 0 <= x < v.width implies #[trigger] o.rows[y][x] =~= v.rows[y][x] by {
            assert(v.pixel(x, y).len() == 4);
        }
    }
    assert(o.rows =~= v.rows);
}

/// Narrowing the samples to 8 bits first does not change either conversion.
pub proof fn lemma_conversions_narrow_first(v: ImageView)
    requires
        v.wf(),
    ensures
        to_rgb8_view(narrow_view(v)) == to_rgb8_view(v),
        to_rgba8_view(narrow_view(v)) == to_rgba8_view(v),
{
    let nv = narrow_view(v);
    let (a, b) = (to_rgb8_view(nv), to_rgb8_view(v));
    let (c, d) = (to_rgba8_view(nv), to_rgba8_view(v));
    assert forall|x: int, y: int| 0 <= x < v.width && 0 <= y < v.height implies #[trigger] nv.pixel(
        x,
        y,
    ) == v.pixel(x, y).map_values(|s: u16| narrow(s, v.depth)) && nv.pixel(x, y).len() == v.channels.count()
        && forall|k: int| 0 <= k < v.channels.count() ==> narrow(#[trigger] nv.pixel(x, y)[k], Depth::Eight)
        == narrow(v.pixel(x, y)[k], v.depth) by {
        let p = v.pixel(x, y);
        assert(p.len() == v.channels.count());
        assert forall|k: int| 0 <= k < p.len() implies narrow(#[trigger] p[k], v.depth) <= 255 by {
            lemma_narrow_rounds(p[k]);
        }
    }
    assert forall|y: int| 0 <= y < v.height implies #[trigger] a.rows[y] =~= b.rows[y] by {
        assert forall|x: int| 0 <= x < v.width implies #[trigger] a.rows[y][x] =~= b.rows[y][x] by {
            assert(nv.pixel(x, y).len() == v.channels.count());
        }
    }
    assert forall|y: int| 0 <= y < v.height implies #[trigger] c.rows[y] =~= d.rows[y] by {
        assert forall|x: int| 0 <= x < v.width implies #[trigger] c.rows[y][x] =~= d.rows[y][x] by {
            assert(nv.pixel(x, y).len() == v.channels.count());
        }
    }
    assert(a.rows =~= b.rows);
    assert(c.rows =~= d.rows);
}

/// Converting to 8-bit RGB drops alpha and keeps the colours in order: an
/// RGBA image converts as the RGB image of its first three samples does.
pub proof fn lemma_rgb8_drops_alpha(v: ImageView, w: ImageView)
    requires
        same_frame(v, w),
        v.channels == Channels::Rgba,
        w.channels == Channels::Rgb,
        forall|x: int, y: int|
            0 <= x < v.width && 0 <= y < v.height ==> #[trigger] w.pixel(x, y) == v.pixel(
                x,
                y,
            ).take(3),
    ensures
        to_rgb8_view(v) == to_rgb8_view(w),
{
    let (a, b) = (to_rgb8_view(v), to_rgb8_view(w));
    assert forall|y: int| 0 <= y < v.height implies #[trigger] a.rows[y] =~= b.rows[y] by {
        assert forall|x: int| 0 <= x < v.width implies #[trigger] a.rows[y][x] =~= b.rows[y][x] by {
            assert(w.pixel(x, y) == v.pixel(x, y).take(3));
        }
    }
    assert(a.rows =~= b.rows);
}

/// A luma pixel converts to 8-bit RGB as the gray RGB pixel (l, l, l), and
/// a luma-alpha pixel as its luma pixel: alpha is dropped.
pub proof fn lemma_rgb8_of_gray(v: ImageView, w: ImageView)
    requires
        same_frame(v, w),
        v.channels == Channels::Luma || v.channels == Channels::LumaAlpha,
        w.channels == Channels::Rgb,
        forall|x: int, y: int|
            0 <= x < v.width && 0 <= y < v.height ==> #[trigger] w.pixel(x, y) == seq![
                v.pixel(x, y)[0],
                v.pixel(x, y)[0],
                v.pixel(x, y)[0],
            ],
    ensures
        to_rgb8_view(v) == to_rgb8_view(w),
{
    let (a, b) = (to_rgb8_view(v), to_rgb8_view(w));
    assert forall|y: int| 0 <= y < v.height implies #[trigger] a.rows[y] =~= b.rows[y] by {
        assert forall|x: int| 0 <= x < v.width implies #[trigger] a.rows[y][x] =~= b.rows[y][x] by {
            assert(w.pixel(x, y)[0] == v.pixel(x, y)[0]);
        }
    }
    assert(a.rows =~= b.rows);
}

/// An RGB image and the RGBA image with the same colours at full opacity
/// are the same picture as 8-bit RGBA.
pub proof fn lemma_rgba8_opaque(v: ImageView, w: ImageView)
    requires
        same_frame(v, w),
        v.channels == Channels::Rgb,
        w.channels == Channels::Rgba,
        forall|x: int, y: int|
            0 <= x < v.width && 0 <= y < v.height ==> #[trigger] w.pixel(x, y) == v.pixel(
                x,
                y,
            ).push(v.depth.max_sample()),
    ensures
        to_rgba8_view(v) == to_rgba8_view(w),
{
    let (a, b) = (to_rgba8_view(v), to_rgba8_view(w));
    assert forall|y: int| 0 <= y < v.height implies #[trigger] a.rows[y] =~= b.rows[y] by {
        assert forall|x: int| 0 <= x < v.width implies #[trigger] a.rows[y][x] =~= b.rows[y][x] by {
            assert(w.pixel(x, y) == v.pixel(x, y).push(v.depth.max_sample()));
            assert(w.pixel(x, y)[3] == v.depth.max_sample());
        }
    }
    assert(a.rows =~= b.rows);
}

/// A luma image converts to 8-bit RGBA as the opaque gray RGB image, and a
/// luma-alpha image as the gray RGBA image with the same alpha.
pub proof fn lemma_rgba8_of_gray(v: ImageView, w: ImageView)
    requires
        same_frame(v, w),
        (v.channels == Channels::Luma && w.channels == Channels::Rgb && forall|x: int, y: int|
            0 <= x < v.width && 0 <= y < v.height ==> #[trigger] w.pixel(x, y) == seq![
                v.pixel(x, y)[0],
                v.pixel(x, y)[0],
                v.pixel(x, y)[0],
            ]) || (v.channels == Channels::LumaAlpha && w.channels == Channels::Rgba && forall|
            x: int,
            y: int,
        |
            0 <= x < v.width && 0 <= y < v.height ==> #[trigger] w.pixel(x, y) == seq![
                v.pixel(x, y)[0],
                v.pixel(x, y)[0],
                v.pixel(x, y)[0],
                v.pixel(x, y)[1],
            ]),
    ensures
        to_rgba8_view(v) == to_rgba8_view(w),
{
    let (a, b) = (to_rgba8_view(v), to_rgba8_view(w));
    assert forall|y: int| 0 <= y < v.height implies #[trigger] a.rows[y] =~= b.rows[y] by {
        assert forall|x: int| 0 <= x < v.width implies #[trigger] a.rows[y][x] =~= b.rows[y][x] by {
            assert(w.pixel(x, y)[0] == v.pixel(x, y)[0]);
        }
    }
    assert(a.rows =~= b.rows);
}

/// PNG encoding hands the encoder the image itself: its dimensions, its own
/// channels and depth, and its samples, in a form that the decoder's result
/// maps back to exactly this image.
pub proof fn lemma_png_of_hands_over_the_image(v: ImageView)
    requires
        v.wf(),
    ensures
        exists|w: u32, h: u32, c: Channels, sixteen: bool, a: Seq<u8>, b: Seq<u16>|
            png_of(v) == #[trigger] png_encoding(w, h, c, sixteen, a, b) && view_of_decoded(
                Some((w, h, c, sixteen, a, b)),
            ) == Some(v),
{
    lemma_view_of_flat(v);
    let f = flat_samples(v);
    let (w, h) = (v.width as u32, v.height as u32);
    match v.depth {
        Depth::Eight => {
            assert(widen(bytes_of(v)) =~= f);
            assert(png_of(v) == png_encoding(w, h, v.channels, false, bytes_of(v), Seq::empty()));
            assert(view_of_decoded(Some((w, h, v.channels, false, bytes_of(v), Seq::empty())))
                == Some(v));
        },
        Depth::Sixteen => {
            assert(png_of(v) == png_encoding(w, h, v.channels, true, Seq::empty(), f));
            assert(view_of_decoded(Some((w, h, v.channels, true, Seq::<u8>::empty(), f)))
                == Some(v));
        },
    }
}

} // verus!
