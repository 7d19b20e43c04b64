//! Reading an image stream: its color space, its filter, and its bytes with
//! the compression and the predictor undone.

use vstd::prelude::*;
use vstd::string::StringSliceAdditionalSpecFns;
use lopdf::Document;
use crate::codec::{deflate_inflate, deflate_inflated, zlib_inflate, zlib_inflated};
use crate::encoding::{lossy_text, push_signed_decimal, signed_decimal, utf8_lossy};
use crate::pdf::{
    bytes_eq, decompress_stream, decompressed_stream, fetch_object, fetch_stream_dict,
    resolved_object, stream_dict_at, PdfDict, PdfObject, PdfStream,
};
use crate::pixels::sample_bytes;
use crate::predictor::{
    apply_png_predictor, apply_tiff_predictor2, lemma_png_unfiltered_empty,
    lemma_png_unfiltered_wide, lemma_tiff_nothing_to_reverse, png_unfiltered, tiff_unpredicted,
};
use crate::resolve::{as_dict, dict_int, get_dict_int, get_dictionary};
use crate::strings::{string_of, to_chars};

verus! {

/// The name of a color space that is given as an array: the name that the
/// array begins with, and for `ICCBased` with a reference to a profile
/// stream the number of components behind it, 3 if the stream states none.
/// An array that begins with no name stands for `DeviceRGB`.
pub open spec fn array_color_space(doc: Document, items: Seq<PdfObject>) -> Seq<char> {
    if items.len() == 0 {
        "DeviceRGB"@
    } else {
        match items[0] {
            PdfObject::Name(name) => {
                let found = utf8_lossy(name@);
                if found == "ICCBased"@ && items.len() > 1 {
                    match items[1] {
                        PdfObject::Reference(id) => match stream_dict_at(doc, id) {
                            Some(profile) => "ICCBased"@ + signed_decimal(
                                match dict_int(profile, "N") {
                                    Some(n) => n as int,
                                    None => 3,
                                },
                            ),
                            None => found,
                        },
                        _ => "ICCBased"@,
                    }
                } else {
                    found
                }
            },
            _ => "DeviceRGB"@,
        }
    }
}

/// The name of the color space of an image: a name, a reference to a name or
/// to an array, or an array. Anything else stands for `DeviceRGB`.
pub open spec fn color_space_of(doc: Document, dict: PdfDict) -> Seq<char> {
    match dict.named("ColorSpace") {
        Some(PdfObject::Name(name)) => utf8_lossy(name@),
        Some(PdfObject::Reference(id)) => match resolved_object(doc, id) {
            Some(PdfObject::Name(name)) => utf8_lossy(name@),
            Some(PdfObject::Array(items)) => array_color_space(doc, items@),
            _ => "DeviceRGB"@,
        },
        Some(PdfObject::Array(items)) => array_color_space(doc, items@),
        _ => "DeviceRGB"@,
    }
}

/// The filter that tells what kind of image a stream holds: the filter
/// itself, or the last of a chain of filters; `None` where there is none.
pub open spec fn filter_of(dict: PdfDict) -> Seq<char> {
    match dict.named("Filter") {
        Some(PdfObject::Name(name)) => utf8_lossy(name@),
        Some(PdfObject::Array(items)) => if items@.len() > 0 {
            match items@.last() {
                PdfObject::Name(name) => utf8_lossy(name@),
                _ => "None"@,
            }
        } else {
            "None"@
        },
        _ => "None"@,
    }
}

/// `object` is the name `FlateDecode`.
pub open spec fn is_flate(object: PdfObject) -> bool {
    match object {
        PdfObject::Name(name) => name@ == "FlateDecode".spec_bytes(),
        _ => false,
    }
}

/// The stream is deflated: its filter, or one of its chain of filters, is
/// `FlateDecode`.
pub open spec fn uses_flate(dict: PdfDict) -> bool {
    match dict.named("Filter") {
        Some(PdfObject::Array(items)) => exists|i: int|
            0 <= i < items@.len() && is_flate(#[trigger] items@[i]),
        Some(object) => is_flate(object),
        None => false,
    }
}

/// The first of `items`, from `from` on, that is a dictionary or refers to
/// one.
pub open spec fn first_parms(doc: Document, items: Seq<PdfObject>, from: int) -> Option<PdfDict>
    decreases items.len() - from,
{
    if from < 0 || from >= items.len() {
        None
    } else {
        match as_dict(doc, items[from]) {
            Some(dict) => Some(dict),
            None => first_parms(doc, items, from + 1),
        }
    }
}

/// The decode parameters of a stream: a dictionary, a reference to one, or
/// the first dictionary of an array.
pub open spec fn decode_parms(doc: Document, dict: PdfDict) -> Option<PdfDict> {
    match dict.named("DecodeParms") {
        Some(PdfObject::Array(items)) => first_parms(doc, items@, 0),
        Some(object) => as_dict(doc, object),
        None => None,
    }
}

/// The predictor that a dictionary of decode parameters names; 1, which is
/// none, where it names none.
pub open spec fn predictor_in(parms: PdfDict) -> i64 {
    match dict_int(parms, "Predictor") {
        Some(p) => p,
        None => 1,
    }
}

/// The predictor of a stream, where it has decode parameters.
pub open spec fn predictor_of(doc: Document, dict: PdfDict) -> Option<i64> {
    match decode_parms(doc, dict) {
        Some(parms) => Some(predictor_in(parms)),
        None => None,
    }
}

/// What `bytes` inflate to: as a zlib stream, or else as a deflate stream
/// without header.
pub open spec fn inflated(bytes: Seq<u8>) -> Option<Seq<u8>> {
    match zlib_inflated(bytes) {
        Some(out) => Some(out),
        None => deflate_inflated(bytes),
    }
}

/// The bytes of the stream under `id` with its compression undone. A
/// deflated stream is inflated; where that fails, the object-model library
/// is asked to undo the filters; where that fails too, and for every other
/// stream, the bytes stay as they are stored.
pub open spec fn plain_content(doc: Document, id: (u32, u16), stream: PdfStream) -> Seq<u8> {
    if uses_flate(stream.dict) {
        match inflated(stream.content@) {
            Some(out) => out,
            None => match decompressed_stream(doc, id) {
                Some(out) => out,
                None => stream.content@,
            },
        }
    } else {
        stream.content@
    }
}

/// The number of bytes from a byte to its left neighbour.
pub open spec fn pixel_bytes(channels: u32, bpc: u32) -> int {
    if channels * bpc / 8 < 1 {
        1
    } else {
        channels * bpc / 8
    }
}

/// `content` with the predictor undone. Predictor 2 is undone where
/// `content` has the length of the image, predictors 10 to 15 where it has
/// the length of the image with one more byte for each row and every row
/// names a filter that is known. In every other case `content` stays as it
/// is.
pub open spec fn unpredicted(
    content: Seq<u8>,
    predictor: Option<i64>,
    width: u32,
    height: u32,
    channels: u32,
    bpc: u32,
) -> Seq<u8> {
    let row_bytes = width * channels * bpc / 8;
    match predictor {
        Some(p) => if p == 2 && content.len() == width * height * channels * sample_bytes(bpc) {
            tiff_unpredicted(content, pixel_bytes(channels, bpc), row_bytes)
        } else if 10 <= p <= 15 && content.len() == height * (row_bytes + 1) {
            match png_unfiltered(content, pixel_bytes(channels, bpc), row_bytes) {
                Some(out) => out,
                None => content,
            }
        } else {
            content
        },
        None => content,
    }
}

/// The samples of the image stream under `id`: its bytes with compression
/// and predictor undone.
pub open spec fn stream_content(
    doc: Document,
    id: (u32, u16),
    stream: PdfStream,
    width: u32,
    height: u32,
    channels: u32,
    bpc: u32,
) -> Seq<u8> {
    unpredicted(
        plain_content(doc, id, stream),
        predictor_of(doc, stream.dict),
        width,
        height,
        channels,
        bpc,
    )
}

/// An integer cut down to its low 32 bits.
pub open spec fn low_32(v: i64) -> u32 {
    (v as int % 0x1_0000_0000) as u32
}

/// The number that a dictionary holds under `name`, cut down to 32 bits, or
/// `default` where it holds none.
pub open spec fn dict_u32(dict: PdfDict, name: &str, default: u32) -> u32 {
    match dict_int(dict, name) {
        Some(v) => low_32(v),
        None => default,
    }
}

/// `dict` is the dictionary of an image: its subtype is the name `Image`.
pub open spec fn is_image(dict: PdfDict) -> bool {
    match dict.named("Subtype") {
        Some(PdfObject::Name(name)) => name@ == "Image".spec_bytes(),
        _ => false,
    }
}

/// The bytes of the soft mask of an image: the samples of the image stream
/// that the image refers to under `SMask`, one sample to the pixel.
pub open spec fn smask_data(doc: Document, dict: PdfDict) -> Option<Seq<u8>> {
    match dict.named("SMask") {
        Some(PdfObject::Reference(id)) => match resolved_object(doc, id) {
            Some(PdfObject::Stream(mask)) => if is_image(mask.dict) {
                Some(
                    stream_content(
                        doc,
                        id,
                        mask,
                        dict_u32(mask.dict, "Width", 0),
                        dict_u32(mask.dict, "Height", 0),
                        1,
                        dict_u32(mask.dict, "BitsPerComponent", 8),
                    ),
                )
            } else {
                None
            },
            _ => None,
        },
        _ => None,
    }
}

/// The text of a name.
pub fn name_text(name: &Vec<u8>) -> (r: String)
    ensures
        r@ == utf8_lossy(name@),
{
    lossy_text(name.as_slice())
}

/// Reads the name of a color space that is given as an array.
pub fn parse_color_space_array(items: &Vec<PdfObject>, doc: &Document) -> (r: String)
    ensures
        r@ == array_color_space(*doc, items@),
{
    if items.len() == 0 {
        return "DeviceRGB".to_owned();
    }
    match &items[0] {
        PdfObject::Name(name) => {
            let found = name_text(name);
            if crate::strings::text_eq(found.as_str(), "ICCBased") && items.len() > 1 {
                match &items[1] {
                    PdfObject::Reference(id) => match fetch_stream_dict(doc, *id) {
                        Some(profile) => {
                            let n: i64 = match get_dict_int(&profile, "N") {
                                Some(n) => n,
                                None => 3,
                            };
                            let mut out = to_chars("ICCBased");
                            push_signed_decimal(&mut out, n);
                            string_of(&out)
                        },
                        None => found,
                    },
                    _ => "ICCBased".to_owned(),
                }
            } else {
                found
            }
        },
        _ => "DeviceRGB".to_owned(),
    }
}

/// Reads the name of the color space of an image.
pub fn resolve_color_space(dict: &PdfDict, doc: &Document) -> (r: String)
    ensures
        r@ == color_space_of(*doc, *dict),
{
    match dict.get_named("ColorSpace") {
        Some(PdfObject::Name(name)) => name_text(name),
        Some(PdfObject::Reference(id)) => match fetch_object(doc, *id) {
            Some(PdfObject::Name(name)) => name_text(&name),
            Some(PdfObject::Array(items)) => parse_color_space_array(&items, doc),
            _ => "DeviceRGB".to_owned(),
        },
        Some(PdfObject::Array(items)) => parse_color_space_array(items, doc),
        _ => "DeviceRGB".to_owned(),
    }
}

/// Reads the filter that tells what kind of image a stream holds.
pub fn resolve_filter(dict: &PdfDict) -> (r: String)
    ensures
        r@ == filter_of(*dict),
{
    match dict.get_named("Filter") {
        Some(PdfObject::Name(name)) => name_text(name),
        Some(PdfObject::Array(items)) => {
            if items.len() > 0 {
                match &items[items.len() - 1] {
                    PdfObject::Name(name) => name_text(name),
                    _ => "None".to_owned(),
                }
            } else {
                "None".to_owned()
            }
        },
        _ => "None".to_owned(),
    }
}

/// Tells whether an object is the name `FlateDecode`.
fn names_flate(object: &PdfObject) -> (r: bool)
    ensures
        r == is_flate(*object),
{
    match object {
        PdfObject::Name(name) => bytes_eq(name.as_slice(), "FlateDecode".as_bytes()),
        _ => false,
    }
}

/// Tells whether a stream is deflated.
pub fn stream_uses_flate(dict: &PdfDict) -> (r: bool)
    ensures
        r == uses_flate(*dict),
{
    match dict.get_named("Filter") {
        Some(PdfObject::Array(items)) => {
            let mut i: usize = 0;
            while i < items.len()
                invariant
                    i <= items@.len(),
                    dict.named("Filter") == Some(PdfObject::Array(*items)),
                    forall|j: int| 0 <= j < i ==> !is_flate(#[trigger] items@[j]),
                decreases items@.len() - i,
            {
                if names_flate(&items[i]) {
                    assert(dict.named("Filter")->0->Array_0 == *items);
                    return true;
                }
                i += 1;
            }
            false
        },
        Some(object) => names_flate(object),
        None => false,
    }
}

/// Reads the predictor from what may be, or refer to, a dictionary of
/// decode parameters.
fn predictor_from(doc: &Document, object: &PdfObject) -> (r: Option<i64>)
    ensures
        r is Some == as_dict(*doc, *object) is Some,
        r is Some ==> r->0 == predictor_in(as_dict(*doc, *object)->0),
{
    match object {
        PdfObject::Dictionary(parms) => Some(
            match get_dict_int(parms, "Predictor") {
                Some(p) => p,
                None => 1,
            },
        ),
        PdfObject::Reference(id) => match get_dictionary(doc, *id) {
            Some(parms) => Some(
                match get_dict_int(&parms, "Predictor") {
                    Some(p) => p,
                    None => 1,
                },
            ),
            None => None,
        },
        _ => None,
    }
}

/// Finds the decode parameters of a stream and reads the predictor from
/// them.
pub fn resolve_predictor(doc: &Document, dict: &PdfDict) -> (r: Option<i64>)
    ensures
        r == predictor_of(*doc, *dict),
{
    match dict.get_named("DecodeParms") {
        Some(PdfObject::Array(items)) => {
            let mut i: usize = 0;
            while i < items.len()
                invariant
                    i <= items@.len(),
                    dict.named("DecodeParms") == Some(PdfObject::Array(*items)),
                    first_parms(*doc, items@, 0) == first_parms(*doc, items@, i as int),
                decreases items@.len() - i,
            {
                let found = predictor_from(doc, &items[i]);
                if found.is_some() {
                    return found;
                }
                i += 1;
            }
            None
        },
        Some(object) => predictor_from(doc, object),
        None => None,
    }
}

/// Inflates a zlib stream, or else a deflate stream without header.
pub fn raw_inflate(data: &[u8]) -> (r: Option<Vec<u8>>)
    ensures
        r is Some == inflated(data@) is Some,
        r is Some ==> r->0@ == inflated(data@)->0,
{
    match zlib_inflate(data) {
        Some(out) => Some(out),
        None => deflate_inflate(data),
    }
}

/// Cuts an integer down to its low 32 bits.
pub fn truncate_u32(v: i64) -> (r: u32)
    ensures
        r == low_32(v),
{
    if v >= 0 {
        (v % 0x1_0000_0000) as u32
    } else {
        let below: i64 = (-(v + 1)) % 0x1_0000_0000;
        (0xffff_ffff - below) as u32
    }
}

/// Reads a number of a dictionary, cut down to 32 bits.
pub fn get_dict_u32(dict: &PdfDict, name: &str, default: u32) -> (r: u32)
    ensures
        r == dict_u32(*dict, name, default),
{
    match get_dict_int(dict, name) {
        Some(v) => truncate_u32(v),
        None => default,
    }
}

/// Tells whether a dictionary is that of an image.
pub fn has_image_subtype(dict: &PdfDict) -> (r: bool)
    ensures
        r == is_image(*dict),
{
    match dict.get_named("Subtype") {
        Some(PdfObject::Name(name)) => bytes_eq(name.as_slice(), "Image".as_bytes()),
        _ => false,
    }
}

/// Undoes the predictor of the bytes of an image.
pub fn reverse_predictor(
    content: Vec<u8>,
    predictor: Option<i64>,
    width: u32,
    height: u32,
    channels: u32,
    bpc: u32,
) -> (r: Vec<u8>)
    ensures
        r@ == unpredicted(content@, predictor, width, height, channels, bpc),
{
    let p: i64 = match predictor {
        Some(p) => p,
        None => {
            return content;
        },
    };
    if p != 2 && !(10 <= p && p <= 15) {
        return content;
    }
    assert(0 <= width * channels <= 0xffff_ffff * 0xffff_ffff) by (nonlinear_arith)
        requires
            0 <= width <= 0xffff_ffff,
            0 <= channels <= 0xffff_ffff,
    ;
    let per_row: u128 = (width as u128) * (channels as u128);
    assert(0 <= per_row * bpc <= 0xffff_ffff * 0xffff_ffff * 0xffff_ffff) by (nonlinear_arith)
        requires
            0 <= per_row <= 0xffff_ffff * 0xffff_ffff,
            0 <= bpc <= 0xffff_ffff,
    ;
    let row: u128 = per_row * (bpc as u128) / 8;
    assert(row == width * channels * bpc / 8) by (nonlinear_arith)
        requires
            per_row == width * channels,
            row == per_row * bpc / 8,
    ;
    assert(0 <= channels * bpc <= 0xffff_ffff * 0xffff_ffff) by (nonlinear_arith)
        requires
            0 <= channels <= 0xffff_ffff,
            0 <= bpc <= 0xffff_ffff,
    ;
    let step: u128 = (channels as u128) * (bpc as u128) / 8;
    let bpp: u128 = if step < 1 {
        1
    } else {
        step
    };
    let length: u128 = content.len() as u128;
    if p == 2 {
        let per_sample: u128 = if bpc > 8 {
            2
        } else {
            1
        };
        assert(0 <= per_row * height <= 0xffff_ffff * 0xffff_ffff * 0xffff_ffff)
            by (nonlinear_arith)
            requires
                0 <= per_row <= 0xffff_ffff * 0xffff_ffff,
                0 <= height <= 0xffff_ffff,
        ;
        let samples: u128 = per_row * (height as u128);
        let expected: u128 = samples * per_sample;
        assert(expected == width * height * channels * sample_bytes(bpc)) by (nonlinear_arith)
            requires
                per_row == width * channels,
                samples == per_row * height,
                expected == samples * sample_bytes(bpc),
        ;
        if length != expected {
            return content;
        }
        if row > length || row == 0 || bpp >= row {
            proof {
                lemma_tiff_nothing_to_reverse(content@, bpp as int, row as int);
            }
            return content;
        }
        let mut data = content;
        apply_tiff_predictor2(&mut data, bpp as usize, row as usize);
        data
    } else {
        assert(0 <= height * (row + 1) <= 0xffff_ffff * (0xffff_ffff * 0xffff_ffff * 0xffff_ffff
            + 1)) by (nonlinear_arith)
            requires
                0 <= height <= 0xffff_ffff,
                0 <= row <= 0xffff_ffff * 0xffff_ffff * 0xffff_ffff,
        ;
        let predicted: u128 = (height as u128) * (row + 1);
        if length != predicted {
            return content;
        }
        if length == 0 {
            proof {
                lemma_png_unfiltered_empty(content@, bpp as int, row as int);
            }
            return content;
        }
        assert(row < length) by (nonlinear_arith)
            requires
                length == height * (row + 1),
                length > 0,
                0 <= row,
                0 <= height,
        ;
        let step: usize = if bpp > row {
            (row + 1) as usize
        } else {
            bpp as usize
        };
        proof {
            if bpp > row {
                lemma_png_unfiltered_wide(content@, bpp as int, step as int, row as int);
            }
        }
        match apply_png_predictor(content.as_slice(), step, row as usize) {
            Some(out) => out,
            None => content,
        }
    }
}

/// Undoes the compression and the predictor of the image stream under `id`.
pub fn decompress_stream_content(
    doc: &Document,
    id: (u32, u16),
    stream: PdfStream,
    width: u32,
    height: u32,
    channels: u32,
    bpc: u32,
) -> (r: Vec<u8>)
    ensures
        r@ == stream_content(*doc, id, stream, width, height, channels, bpc),
{
    let predictor = resolve_predictor(doc, &stream.dict);
    let content: Vec<u8> = if stream_uses_flate(&stream.dict) {
        match raw_inflate(stream.content.as_slice()) {
            Some(out) => out,
            None => match decompress_stream(doc, id) {
                Some(out) => out,
                None => stream.content,
            },
        }
    } else {
        stream.content
    };
    reverse_predictor(content, predictor, width, height, channels, bpc)
}

/// Fetches the soft mask of an image and undoes its compression.
pub fn get_smask_data(doc: &Document, dict: &PdfDict) -> (r: Option<Vec<u8>>)
    ensures
        r is Some == smask_data(*doc, *dict) is Some,
        r is Some ==> r->0@ == smask_data(*doc, *dict)->0,
{
    match dict.get_named("SMask") {
        Some(PdfObject::Reference(id)) => match fetch_object(doc, *id) {
            Some(PdfObject::Stream(mask)) => {
                if !has_image_subtype(&mask.dict) {
                    return None;
                }
                let width = get_dict_u32(&mask.dict, "Width", 0);
                let height = get_dict_u32(&mask.dict, "Height", 0);
                let bpc = get_dict_u32(&mask.dict, "BitsPerComponent", 8);
                Some(decompress_stream_content(doc, *id, mask, width, height, 1, bpc))
            },
            _ => None,
        },
        _ => None,
    }
}

} // verus!
