//! From the bytes of an image XObject to a raster: samples by color space,
//! CMYK to RGB, the soft mask as alpha, and the PNG encoding.

use vstd::prelude::*;
use image::DynamicImage;
use crate::codec::{
    decode_jpeg, decode_jpx, encode_png, gray8_image, holds_pixels_only, image_png, image_rgb,
    jpeg_image, make_gray8, make_rgb8, make_rgba8, rgb8_image, rgb_pixels, rgb_rendering,
    rgba8_image, to_rgb8,
};
use crate::strings::text_eq;

verus! {

/// What the samples of an image stand for.
#[derive(Debug, Clone, Copy, PartialEq, Eq, Structural)]
pub enum ColorKind {
    Rgb,
    Gray,
    Cmyk,
    Other,
}

/// The kind of a color space, by its name.
pub open spec fn color_kind(color_space: Seq<char>) -> ColorKind {
    if color_space == "DeviceRGB"@ || color_space == "ICCBased3"@ || color_space == "CalRGB"@ {
        ColorKind::Rgb
    } else if color_space == "DeviceGray"@ || color_space == "ICCBased1"@ || color_space
        == "CalGray"@ {
        ColorKind::Gray
    } else if color_space == "DeviceCMYK"@ || color_space == "ICCBased4"@ {
        ColorKind::Cmyk
    } else {
        ColorKind::Other
    }
}

/// The number of samples that make a pixel: a color space that is not known
/// counts as RGB.
pub open spec fn channels_of(kind: ColorKind) -> int {
    match kind {
        ColorKind::Rgb => 3,
        ColorKind::Gray => 1,
        ColorKind::Cmyk => 4,
        ColorKind::Other => 3,
    }
}

/// The number of bytes that hold a sample.
pub open spec fn sample_bytes(bpc: u32) -> int {
    if bpc > 8 {
        2
    } else {
        1
    }
}

/// The first byte of every pair of `data`: samples of sixteen bits, high byte
/// first, brought down to eight.
pub open spec fn high_bytes(data: Seq<u8>) -> Seq<u8> {
    Seq::new(data.len() / 2, |i: int| data[2 * i])
}

/// One color of a pixel from its share of ink `c` and of black `k`, all from
/// 0 to 255: `255 (1 - c/255) (1 - k/255)`, rounded down.
pub open spec fn cmyk_channel(c: u8, k: u8) -> u8 {
    (((255 - c) * (255 - k)) / 255) as u8
}

/// The red, green and blue of the pixels whose cyan, magenta, yellow and
/// black `cmyk` holds. Bytes after the last whole pixel are left out.
pub open spec fn cmyk_rgb(cmyk: Seq<u8>) -> Seq<u8> {
    Seq::new(
        (cmyk.len() / 4) * 3,
        |i: int| cmyk_channel(cmyk[4 * (i / 3) + i % 3], cmyk[4 * (i / 3) + 3]),
    )
}

/// The samples of an image of `width` by `height` pixels as bytes: as many
/// bytes of `content` as the image needs, with samples of more than eight
/// bits brought down to eight. `None` where `content` is too short.
pub open spec fn raw_samples(content: Seq<u8>, width: u32, height: u32, bpc: u32, kind: ColorKind) -> Option<
    Seq<u8>,
> {
    let expected = width * height * channels_of(kind) * sample_bytes(bpc);
    if content.len() < expected {
        None
    } else if bpc > 8 {
        Some(high_bytes(content.take(expected)))
    } else {
        Some(content.take(expected))
    }
}

/// The raster that the samples in `content` give.
pub open spec fn raw_image(
    content: Seq<u8>,
    width: u32,
    height: u32,
    bpc: u32,
    color_space: Seq<char>,
) -> Option<DynamicImage> {
    let kind = color_kind(color_space);
    match raw_samples(content, width, height, bpc, kind) {
        None => None,
        Some(samples) => match kind {
            ColorKind::Rgb => rgb8_image(width, height, samples),
            ColorKind::Gray => gray8_image(width, height, samples),
            ColorKind::Cmyk => rgb8_image(width, height, cmyk_rgb(samples)),
            ColorKind::Other => rgb8_image(width, height, samples),
        },
    }
}

/// Pixels of red, green and blue with the bytes of `mask` as their alpha: as
/// many pixels as both hold, and no more than `limit`.
pub open spec fn with_alpha(rgb: Seq<u8>, mask: Seq<u8>, limit: int) -> Seq<u8> {
    let held = if rgb.len() / 3 < mask.len() {
        (rgb.len() / 3) as int
    } else {
        mask.len() as int
    };
    let pixels = if held < limit {
        held
    } else if limit < 0 {
        0
    } else {
        limit
    };
    Seq::new(
        (4 * pixels) as nat,
        |i: int|
            if i % 4 == 3 {
                mask[i / 4]
            } else {
                rgb[3 * (i / 4) + i % 4]
            },
    )
}

/// `base` with `mask` as its alpha: the first `width * height` pixels of
/// `base`, each with its byte of `mask`. A mask with fewer bytes than that
/// is left out, and `base` stays a raster of red, green and blue; so it does
/// where `base` has fewer pixels than that.
pub open spec fn masked(base: DynamicImage, mask: Seq<u8>, width: u32, height: u32) -> DynamicImage {
    if mask.len() < width * height {
        rgb_rendering(base)
    } else {
        match rgba8_image(width, height, with_alpha(image_rgb(base), mask, width * height)) {
            Some(image) => image,
            None => rgb_rendering(base),
        }
    }
}

/// The raster of an image XObject before its soft mask: what the JPEG
/// decoder reads from `content` where `filter` names it, what the JPEG 2000
/// decoder has given, `jpx`, where `filter` names that, and else the samples
/// in `content`.
pub open spec fn base_image(
    content: Seq<u8>,
    width: u32,
    height: u32,
    bpc: u32,
    color_space: Seq<char>,
    filter: Seq<char>,
    jpx: Option<DynamicImage>,
) -> Option<DynamicImage> {
    if filter == "DCTDecode"@ {
        jpeg_image(content)
    } else if filter == "JPXDecode"@ {
        jpx
    } else {
        raw_image(content, width, height, bpc, color_space)
    }
}

/// A raster with its soft mask, if there is one, as alpha.
pub open spec fn finished_image(
    base: Option<DynamicImage>,
    smask: Option<Seq<u8>>,
    width: u32,
    height: u32,
) -> Option<DynamicImage> {
    match base {
        None => None,
        Some(image) => Some(
            match smask {
                Some(mask) => masked(image, mask, width, height),
                None => image,
            },
        ),
    }
}

/// The raster of an image XObject, where the JPEG 2000 decoder, if it is
/// asked, gives `jpx`.
pub open spec fn decoded_image(
    content: Seq<u8>,
    width: u32,
    height: u32,
    bpc: u32,
    color_space: Seq<char>,
    filter: Seq<char>,
    smask: Option<Seq<u8>>,
    jpx: Option<DynamicImage>,
) -> Option<DynamicImage> {
    finished_image(
        base_image(content, width, height, bpc, color_space, filter, jpx),
        smask,
        width,
        height,
    )
}

/// The PNG encoding of the raster of an image XObject, where the JPEG 2000
/// decoder, if it is asked, gives `jpx`.
pub open spec fn png_of(
    content: Seq<u8>,
    width: u32,
    height: u32,
    bpc: u32,
    color_space: Seq<char>,
    filter: Seq<char>,
    smask: Option<Seq<u8>>,
    jpx: Option<DynamicImage>,
) -> Option<Seq<u8>> {
    match decoded_image(content, width, height, bpc, color_space, filter, smask, jpx) {
        Some(image) => image_png(image),
        None => None,
    }
}

/// The bytes of an optional byte vector.
pub open spec fn data_of(data: Option<Vec<u8>>) -> Option<Seq<u8>> {
    match data {
        Some(d) => Some(d@),
        None => None,
    }
}

/// The bytes of an optional byte string.
pub open spec fn bytes_of(bytes: Option<&[u8]>) -> Option<Seq<u8>> {
    match bytes {
        Some(b) => Some(b@),
        None => None,
    }
}

/// Finds the kind of a color space.
pub fn classify_color_space(color_space: &str) -> (r: ColorKind)
    ensures
        r == color_kind(color_space@),
{
    if text_eq(color_space, "DeviceRGB") || text_eq(color_space, "ICCBased3") || text_eq(
        color_space,
        "CalRGB",
    ) {
        ColorKind::Rgb
    } else if text_eq(color_space, "DeviceGray") || text_eq(color_space, "ICCBased1") || text_eq(
        color_space,
        "CalGray",
    ) {
        ColorKind::Gray
    } else if text_eq(color_space, "DeviceCMYK") || text_eq(color_space, "ICCBased4") {
        ColorKind::Cmyk
    } else {
        ColorKind::Other
    }
}

/// The number of samples that make a pixel.
pub fn channel_count(kind: ColorKind) -> (r: u32)
    ensures
        r == channels_of(kind),
{
    match kind {
        ColorKind::Rgb => 3,
        ColorKind::Gray => 1,
        ColorKind::Cmyk => 4,
        ColorKind::Other => 3,
    }
}

/// Computes one color of a pixel from its share of ink and of black.
fn channel_value(c: u8, k: u8) -> (r: u8)
    ensures
        r == cmyk_channel(c, k),
{
    let a: u32 = 255 - c as u32;
    let b: u32 = 255 - k as u32;
    assert(0 <= a * b <= 255 * 255) by (nonlinear_arith)
        requires
            0 <= a <= 255,
            0 <= b <= 255,
    ;
    ((a * b) / 255) as u8
}

/// Converts pixels of cyan, magenta, yellow and black to red, green and
/// blue.
pub fn cmyk_to_rgb(cmyk: &[u8]) -> (r: Vec<u8>)
    ensures
        r@ == cmyk_rgb(cmyk@),
{
    let pixel_count: usize = cmyk.len() / 4;
    let mut rgb: Vec<u8> = Vec::new();
    let mut p: usize = 0;
    while p < pixel_count
        invariant
            pixel_count == cmyk@.len() / 4,
            cmyk@.len() <= usize::MAX,
            p <= pixel_count,
            rgb@.len() == 3 * p,
            forall|i: int| 0 <= i < 3 * p ==> rgb@[i] == cmyk_rgb(cmyk@)[i],
        decreases pixel_count - p,
    {
        let k: u8 = cmyk[4 * p + 3];
        let red: u8 = channel_value(cmyk[4 * p], k);
        let green: u8 = channel_value(cmyk[4 * p + 1], k);
        let blue: u8 = channel_value(cmyk[4 * p + 2], k);
        rgb.push(red);
        rgb.push(green);
        rgb.push(blue);
        p += 1;
    }
    rgb
}

/// Takes the samples of an image out of `content`.
pub fn take_samples(content: &[u8], width: u32, height: u32, bpc: u32, kind: ColorKind) -> (r:
    Option<Vec<u8>>)
    ensures
        r is Some == raw_samples(content@, width, height, bpc, kind) is Some,
        r is Some ==> r->0@ == raw_samples(content@, width, height, bpc, kind)->0,
{
    let wide: bool = bpc > 8;
    let per_sample: u128 = if wide {
        2
    } else {
        1
    };
    assert(0 <= width * height <= 0xffff_ffff * 0xffff_ffff) by (nonlinear_arith)
        requires
            0 <= width <= 0xffff_ffff,
            0 <= height <= 0xffff_ffff,
    ;
    let pixels: u128 = (width as u128) * (height as u128);
    let per_pixel: u128 = (channel_count(kind) as u128) * per_sample;
    assert(0 <= pixels * per_pixel <= 0xffff_ffff * 0xffff_ffff * 8) by (nonlinear_arith)
        requires
            0 <= pixels <= 0xffff_ffff * 0xffff_ffff,
            0 <= per_pixel <= 8,
    ;
    let expected: u128 = pixels * per_pixel;
    assert(expected == width * height * channels_of(kind) * sample_bytes(bpc)) by (nonlinear_arith)
        requires
            pixels == width * height,
            per_pixel == channels_of(kind) * sample_bytes(bpc),
            expected == pixels * per_pixel,
    ;
    if (content.len() as u128) < expected {
        return None;
    }
    let needed: usize = expected as usize;
    let mut samples: Vec<u8> = Vec::new();
    if wide {
        let count: usize = needed / 2;
        let mut i: usize = 0;
        while i < count
            invariant
                needed <= content@.len(),
                count == needed / 2,
                i <= count,
                samples@.len() == i,
                forall|j: int| 0 <= j < i ==> samples@[j] == content@[2 * j],
            decreases count - i,
        {
            samples.push(content[2 * i]);
            i += 1;
        }
    } else {
        let mut i: usize = 0;
        while i < needed
            invariant
                needed <= content@.len(),
                i <= needed,
                samples@ == content@.take(i as int),
            decreases needed - i,
        {
            samples.push(content[i]);
            i += 1;
        }
    }
    Some(samples)
}

/// The samples of an image are as many as its pixels need.
pub proof fn lemma_samples_len(content: Seq<u8>, width: u32, height: u32, bpc: u32, kind: ColorKind)
    requires
        raw_samples(content, width, height, bpc, kind) is Some,
    ensures
        kind == ColorKind::Gray ==> raw_samples(content, width, height, bpc, kind)->0.len() == width
            * height,
        kind == ColorKind::Rgb || kind == ColorKind::Other ==> raw_samples(
            content,
            width,
            height,
            bpc,
            kind,
        )->0.len() == 3 * width * height,
        kind == ColorKind::Cmyk ==> cmyk_rgb(
            raw_samples(content, width, height, bpc, kind)->0,
        ).len() == 3 * width * height,
{
    let pixels = width * height;
    let samples = pixels * channels_of(kind);
    let expected = width * height * channels_of(kind) * sample_bytes(bpc);
    assert(pixels >= 0 && 3 * width * height == 3 * pixels) by (nonlinear_arith)
        requires
            pixels == width * height,
    ;
    assert(expected == samples * sample_bytes(bpc)) by (nonlinear_arith)
        requires
            samples == width * height * channels_of(kind),
            expected == width * height * channels_of(kind) * sample_bytes(bpc),
    ;
    let found = raw_samples(content, width, height, bpc, kind)->0;
    assert(found.len() == samples);
    if kind == ColorKind::Cmyk {
        assert(found.len() == 4 * pixels);
        assert(cmyk_rgb(found).len() == (found.len() / 4) * 3);
    }
}

/// Makes a raster of the samples in `content`.
pub fn decode_raw_pixels(content: &[u8], width: u32, height: u32, bpc: u32, color_space: &str) -> (r:
    Option<DynamicImage>)
    ensures
        r == raw_image(content@, width, height, bpc, color_space@),
        r is Some ==> holds_pixels_only(r->0),
{
    let kind = classify_color_space(color_space);
    match take_samples(content, width, height, bpc, kind) {
        None => None,
        Some(samples) => {
            proof {
                lemma_samples_len(content@, width, height, bpc, kind);
            }
            match kind {
                ColorKind::Rgb => make_rgb8(width, height, samples),
                ColorKind::Gray => make_gray8(width, height, samples),
                ColorKind::Cmyk => make_rgb8(width, height, cmyk_to_rgb(samples.as_slice())),
                ColorKind::Other => make_rgb8(width, height, samples),
            }
        },
    }
}

/// Puts the bytes of a soft mask to an image as its alpha.
pub fn apply_smask(base: DynamicImage, mask_data: &[u8], width: u32, height: u32) -> (r:
    DynamicImage)
    ensures
        r == masked(base, mask_data@, width, height),
        holds_pixels_only(base) ==> holds_pixels_only(r),
{
    assert(0 <= width * height <= 0xffff_ffff * 0xffff_ffff) by (nonlinear_arith)
        requires
            0 <= width <= 0xffff_ffff,
            0 <= height <= 0xffff_ffff,
    ;
    let needed: u64 = (width as u64) * (height as u64);
    if (mask_data.len() as u64) < needed {
        return to_rgb8(&base);
    }
    let rgb = rgb_pixels(&base);
    let held: usize = if rgb.len() / 3 < mask_data.len() {
        rgb.len() / 3
    } else {
        mask_data.len()
    };
    let pixels: usize = if (held as u64) < needed {
        held
    } else {
        needed as usize
    };
    let mut rgba: Vec<u8> = Vec::new();
    let mut p: usize = 0;
    while p < pixels
        invariant
            pixels <= rgb@.len() / 3,
            pixels <= mask_data@.len(),
            pixels <= width * height,
            pixels == held || pixels == width * height,
            held == if rgb@.len() / 3 < mask_data@.len() {
                (rgb@.len() / 3) as int
            } else {
                mask_data@.len() as int
            },
            (pixels == held) == (held <= width * height),
            rgb@.len() <= usize::MAX,
            p <= pixels,
            rgba@.len() == 4 * p,
            forall|i: int|
                0 <= i < 4 * p ==> rgba@[i] == with_alpha(rgb@, mask_data@, width * height)[i],
        decreases pixels - p,
    {
        rgba.push(rgb[3 * p]);
        rgba.push(rgb[3 * p + 1]);
        rgba.push(rgb[3 * p + 2]);
        rgba.push(mask_data[p]);
        p += 1;
    }
    assert(rgba@ =~= with_alpha(rgb@, mask_data@, width * height));
    assert(4 * width * height == 4 * (width * height)) by (nonlinear_arith);
    match make_rgba8(width, height, rgba) {
        Some(image) => image,
        None => to_rgb8(&base),
    }
}

/// Puts the soft mask, if there is one, to the raster that a decoder has
/// given.
pub fn finish_image(base: Option<DynamicImage>, smask: Option<&[u8]>, width: u32, height: u32) -> (r:
    Option<DynamicImage>)
    ensures
        r == finished_image(base, bytes_of(smask), width, height),
        base is Some && holds_pixels_only(base->0) ==> r is Some && holds_pixels_only(r->0),
{
    match base {
        None => None,
        Some(image) => match smask {
            Some(mask) => Some(apply_smask(image, mask, width, height)),
            None => Some(image),
        },
    }
}

/// Decodes an image XObject to a raster. What the JPEG 2000 decoder gives
/// is taken as it comes; everything else of the raster is fixed by the
/// arguments.
pub fn decode_xobject_to_dynamic_image(
    content: &[u8],
    width: u32,
    height: u32,
    bpc: u32,
    color_space: &str,
    filter: &str,
    smask: Option<&[u8]>,
) -> (r: Option<DynamicImage>)
    ensures
        exists|jpx: Option<DynamicImage>|
            r == #[trigger] decoded_image(
                content@,
                width,
                height,
                bpc,
                color_space@,
                filter@,
                bytes_of(smask),
                jpx,
            ),
        filter@ != "JPXDecode"@ ==> r == decoded_image(
            content@,
            width,
            height,
            bpc,
            color_space@,
            filter@,
            bytes_of(smask),
            None,
        ),
        r is Some ==> holds_pixels_only(r->0),
{
    let ghost mut outcome: Option<DynamicImage> = None;
    let base = if text_eq(filter, "DCTDecode") {
        decode_jpeg(content)
    } else if text_eq(filter, "JPXDecode") {
        let found = decode_jpx(content);
        proof {
            outcome = found;
        }
        found
    } else {
        decode_raw_pixels(content, width, height, bpc, color_space)
    };
    let r = finish_image(base, smask, width, height);
    assert(r == decoded_image(
        content@,
        width,
        height,
        bpc,
        color_space@,
        filter@,
        bytes_of(smask),
        outcome,
    ));
    r
}

/// Decodes an image XObject and encodes the raster as PNG. What the JPEG
/// 2000 decoder gives is taken as it comes; everything else of the result
/// is fixed by the arguments.
pub fn encode_to_png(
    content: &[u8],
    width: u32,
    height: u32,
    bpc: u32,
    color_space: &str,
    filter: &str,
    smask: Option<&[u8]>,
) -> (r: Option<Vec<u8>>)
    ensures
        exists|jpx: Option<DynamicImage>|
            data_of(r) == #[trigger] png_of(
                content@,
                width,
                height,
                bpc,
                color_space@,
                filter@,
                bytes_of(smask),
                jpx,
            ),
        filter@ != "JPXDecode"@ ==> data_of(r) == png_of(
            content@,
            width,
            height,
            bpc,
            color_space@,
            filter@,
            bytes_of(smask),
            None,
        ),
{
    let decoded = decode_xobject_to_dynamic_image(
        content,
        width,
        height,
        bpc,
        color_space,
        filter,
        smask,
    );
    let ghost jpx = choose|jpx: Option<DynamicImage>|
        decoded == #[trigger] decoded_image(
            content@,
            width,
            height,
            bpc,
            color_space@,
            filter@,
            bytes_of(smask),
            jpx,
        );
    let r = match decoded {
        Some(image) => encode_png(&image),
        None => None,
    };
    assert(data_of(r) == png_of(
        content@,
        width,
        height,
        bpc,
        color_space@,
        filter@,
        bytes_of(smask),
        jpx,
    ));
    r
}

} // verus!
