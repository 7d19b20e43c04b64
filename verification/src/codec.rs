//! The calls into the codecs: inflation, the JPEG and JPEG 2000 decoders,
//! rasters and their PNG encoding.

use vstd::prelude::*;
use image::DynamicImage;

verus! {

/// `image::DynamicImage`, a raster. Nothing of its inside is seen here: its
/// pixels and its encoding are asked of it through the calls below.
#[verifier::external_type_specification]
#[verifier::external_body]
pub struct ExDynamicImage(DynamicImage);

/// What a zlib stream inflates to, or `None` where `bytes` are not one.
pub uninterp spec fn zlib_inflated(bytes: Seq<u8>) -> Option<Seq<u8>>;

/// What a deflate stream without the zlib header inflates to, or `None`
/// where `bytes` are not one.
pub uninterp spec fn deflate_inflated(bytes: Seq<u8>) -> Option<Seq<u8>>;

/// The raster that the JPEG decoder reads from `bytes`, if it can.
pub uninterp spec fn jpeg_image(bytes: Seq<u8>) -> Option<DynamicImage>;

/// The buffer of the raster holds the bytes of its pixels and nothing after
/// them. `ImageBuffer::from_raw` takes a longer buffer too, and the PNG
/// encoder refuses a raster made of one.
pub uninterp spec fn holds_pixels_only(image: DynamicImage) -> bool;

/// The raster of `width` by `height` pixels of three bytes each, red, green
/// and blue, taken row by row from `data`; `None` where `data` is too short.
pub uninterp spec fn rgb8_image(width: u32, height: u32, data: Seq<u8>) -> Option<DynamicImage>;

/// The raster of `width` by `height` pixels of one byte each, taken row by
/// row from `data`; `None` where `data` is too short.
pub uninterp spec fn gray8_image(width: u32, height: u32, data: Seq<u8>) -> Option<DynamicImage>;

/// The raster of `width` by `height` pixels of four bytes each, red, green,
/// blue and alpha, taken row by row from `data`; `None` where `data` is too
/// short.
pub uninterp spec fn rgba8_image(width: u32, height: u32, data: Seq<u8>) -> Option<DynamicImage>;

/// The pixels of a raster, row by row, each as three bytes: red, green and
/// blue.
pub uninterp spec fn image_rgb(image: DynamicImage) -> Seq<u8>;

/// The raster with the pixels of `image` as three bytes each: red, green and
/// blue.
pub uninterp spec fn rgb_rendering(image: DynamicImage) -> DynamicImage;

/// The PNG encoding of a raster, or `None` where it has none.
pub uninterp spec fn image_png(image: DynamicImage) -> Option<Seq<u8>>;

/// `flate2::read::ZlibDecoder`, read to its end.
#[verifier::external_body]
pub(crate) fn zlib_inflate(data: &[u8]) -> (r: Option<Vec<u8>>)
    ensures
        r is Some == zlib_inflated(data@) is Some,
        r is Some ==> r->0@ == zlib_inflated(data@)->0,
{
    let mut output = Vec::new();
    std::io::Read::read_to_end(&mut flate2::read::ZlibDecoder::new(data), &mut output).ok()?;
    Some(output)
}

/// `flate2::read::DeflateDecoder`, read to its end.
#[verifier::external_body]
pub(crate) fn deflate_inflate(data: &[u8]) -> (r: Option<Vec<u8>>)
    ensures
        r is Some == deflate_inflated(data@) is Some,
        r is Some ==> r->0@ == deflate_inflated(data@)->0,
{
    let mut output = Vec::new();
    std::io::Read::read_to_end(&mut flate2::read::DeflateDecoder::new(data), &mut output).ok()?;
    Some(output)
}

/// `image::load_from_memory_with_format` for JPEG. The decoder makes the
/// buffer of the raster as long as its pixels need.
#[verifier::external_body]
pub(crate) fn decode_jpeg(content: &[u8]) -> (r: Option<DynamicImage>)
    ensures
        r == jpeg_image(content@),
        r is Some ==> holds_pixels_only(r->0),
{
    image::load_from_memory_with_format(content, image::ImageFormat::Jpeg).ok()
}

/// `hayro_jpeg2000::Image::new` with the default settings, decoded by
/// `DynamicImage::from_decoder`. The decoder computes with the vector
/// instructions of the machine it runs on, and the pixels may differ in the
/// last bit from one machine to another: nothing is said of the raster but
/// that its buffer is as long as its pixels need.
#[verifier::external_body]
pub(crate) fn decode_jpx(content: &[u8]) -> (r: Option<DynamicImage>)
    ensures
        r is Some ==> holds_pixels_only(r->0),
{
    let settings = hayro_jpeg2000::DecodeSettings::default();
    let decoder = hayro_jpeg2000::Image::new(content, &settings).ok()?;
    DynamicImage::from_decoder(decoder).ok()
}

/// `ImageBuffer::from_raw` for pixels of red, green and blue: there is a
/// raster exactly if `data` holds three bytes for every pixel, and then its
/// pixels are the first `width * height` of `data`. The raster keeps all of
/// `data` as its buffer.
#[verifier::external_body]
pub(crate) fn make_rgb8(width: u32, height: u32, data: Vec<u8>) -> (r: Option<DynamicImage>)
    ensures
        r == rgb8_image(width, height, data@),
        r is Some == (3 * width * height <= data@.len()),
        r is Some ==> image_rgb(r->0) == data@.take(3 * width * height),
        r is Some ==> holds_pixels_only(r->0) == (data@.len() == 3 * width * height),
{
    image::RgbImage::from_raw(width, height, data).map(DynamicImage::ImageRgb8)
}

/// `ImageBuffer::from_raw` for pixels of one byte: there is a raster
/// exactly if `data` holds a byte for every pixel. The raster keeps all of
/// `data` as its buffer.
#[verifier::external_body]
pub(crate) fn make_gray8(width: u32, height: u32, data: Vec<u8>) -> (r: Option<DynamicImage>)
    ensures
        r == gray8_image(width, height, data@),
        r is Some == (width * height <= data@.len()),
        r is Some ==> holds_pixels_only(r->0) == (data@.len() == width * height),
{
    image::GrayImage::from_raw(width, height, data).map(DynamicImage::ImageLuma8)
}

/// `ImageBuffer::from_raw` for pixels of red, green, blue and alpha: there
/// is a raster exactly if `data` holds four bytes for every pixel. The
/// raster keeps all of `data` as its buffer.
#[verifier::external_body]
pub(crate) fn make_rgba8(width: u32, height: u32, data: Vec<u8>) -> (r: Option<DynamicImage>)
    ensures
        r == rgba8_image(width, height, data@),
        r is Some == (4 * width * height <= data@.len()),
        r is Some ==> holds_pixels_only(r->0) == (data@.len() == 4 * width * height),
{
    image::RgbaImage::from_raw(width, height, data).map(DynamicImage::ImageRgba8)
}

/// `DynamicImage::to_rgb8`, and the bytes of the pixels of what it gives.
#[verifier::external_body]
pub(crate) fn rgb_pixels(image: &DynamicImage) -> (r: Vec<u8>)
    ensures
        r@ == image_rgb(*image),
{
    image.to_rgb8().pixels().flat_map(|pixel| pixel.0).collect()
}

/// `DynamicImage::to_rgb8`, as a raster. A raster of red, green and blue
/// is copied with its buffer as it is; of any other the pixels are converted
/// into a buffer of their length.
#[verifier::external_body]
pub(crate) fn to_rgb8(image: &DynamicImage) -> (r: DynamicImage)
    ensures
        r == rgb_rendering(*image),
        holds_pixels_only(*image) ==> holds_pixels_only(r),
{
    DynamicImage::ImageRgb8(image.to_rgb8())
}

/// `DynamicImage::write_to` for PNG, into memory. The encoder is handed
/// the whole buffer of the raster and stops the program where that is longer
/// than the pixels: such a raster is not taken.
#[verifier::external_body]
pub(crate) fn encode_png(image: &DynamicImage) -> (r: Option<Vec<u8>>)
    requires
        holds_pixels_only(*image),
    ensures
        r is Some == image_png(*image) is Some,
        r is Some ==> r->0@ == image_png(*image)->0,
{
    let mut buffer = std::io::Cursor::new(Vec::new());
    image.write_to(&mut buffer, image::ImageFormat::Png).ok()?;
    Some(buffer.into_inner())
}

} // verus!
