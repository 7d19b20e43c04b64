//! Finding what a page inherits: resources and boxes are looked for on the
//! page and then on its ancestors in the page tree.

use vstd::prelude::*;
use lopdf::Document;
use crate::ieee::{double_of_int, double_of_single, int_to_double, single_to_double};
use crate::pdf::{fetch_object, resolved_object, PdfDict, PdfObject};

verus! {

/// How many objects a walk from a page towards the root of the page tree
/// looks at before it gives up. A chain of parents that runs in a circle
/// ends here.
pub const PARENT_LIMIT: usize = 512;

/// The dictionary that the document holds under `id`, if that is one.
pub open spec fn dict_at(doc: Document, id: (u32, u16)) -> Option<PdfDict> {
    match resolved_object(doc, id) {
        Some(PdfObject::Dictionary(dict)) => Some(dict),
        _ => None,
    }
}

/// `object` as a dictionary: itself if it is one, or the dictionary that it
/// refers to.
pub open spec fn as_dict(doc: Document, object: PdfObject) -> Option<PdfDict> {
    match object {
        PdfObject::Dictionary(dict) => Some(dict),
        PdfObject::Reference(id) => dict_at(doc, id),
        _ => None,
    }
}

/// The integer that `dict` holds under `name`.
pub open spec fn dict_int(dict: PdfDict, name: &str) -> Option<i64> {
    match dict.named(name) {
        Some(PdfObject::Integer(v)) => Some(v),
        _ => None,
    }
}

/// The object that `dict` names as its parent.
pub open spec fn parent_of(dict: PdfDict) -> Option<(u32, u16)> {
    match dict.named("Parent") {
        Some(PdfObject::Reference(id)) => Some(id),
        _ => None,
    }
}

/// The resources of the object `id`: what its dictionary holds under
/// `Resources`, as a dictionary, or else the resources of its parent. At most
/// `depth` objects are looked at.
pub open spec fn inherited_resources(doc: Document, id: (u32, u16), depth: nat) -> Option<PdfDict>
    decreases depth,
{
    if depth == 0 {
        None
    } else {
        match dict_at(doc, id) {
            None => None,
            Some(dict) => match dict.named("Resources") {
                Some(object) => as_dict(doc, object),
                None => match parent_of(dict) {
                    Some(parent) => inherited_resources(doc, parent, (depth - 1) as nat),
                    None => None,
                },
            },
        }
    }
}

/// The XObject dictionary of the page `page_id`, found in its resources.
pub open spec fn page_xobjects(doc: Document, page_id: (u32, u16)) -> Option<PdfDict> {
    match inherited_resources(doc, page_id, PARENT_LIMIT as nat) {
        Some(resources) => match resources.named("XObject") {
            Some(object) => as_dict(doc, object),
            None => None,
        },
        None => None,
    }
}

/// A number as a binary64 value: an integer converted, a real widened.
pub open spec fn number_bits(object: PdfObject) -> Option<u64> {
    match object {
        PdfObject::Integer(v) => Some(double_of_int(v as int) as u64),
        PdfObject::Real(bits) => Some(double_of_single(bits) as u64),
        _ => None,
    }
}

/// The box that `object` gives: the first four entries of an array, if all
/// four are numbers.
pub open spec fn page_box(object: PdfObject) -> Option<[u64; 4]> {
    match object {
        PdfObject::Array(items) => if items@.len() >= 4 && number_bits(items@[0]) is Some
            && number_bits(items@[1]) is Some && number_bits(items@[2]) is Some && number_bits(
            items@[3],
        ) is Some {
            Some(
                [
                    number_bits(items@[0])->0,
                    number_bits(items@[1])->0,
                    number_bits(items@[2])->0,
                    number_bits(items@[3])->0,
                ],
            )
        } else {
            None
        },
        _ => None,
    }
}

/// The box that a dictionary holds under `key`, directly or through one
/// reference.
pub open spec fn box_in(doc: Document, dict: PdfDict, key: &str) -> Option<[u64; 4]> {
    match dict.named(key) {
        Some(PdfObject::Reference(id)) => match resolved_object(doc, id) {
            Some(object) => page_box(object),
            None => None,
        },
        Some(object) => page_box(object),
        None => None,
    }
}

/// The box `key` of the object `id`: the box in its dictionary, or else the
/// box of its parent. At most `depth` objects are looked at.
pub open spec fn inherited_box(doc: Document, id: (u32, u16), key: &str, depth: nat) -> Option<
    [u64; 4],
>
    decreases depth,
{
    if depth == 0 {
        None
    } else {
        match dict_at(doc, id) {
            None => None,
            Some(dict) => if box_in(doc, dict, key) is Some {
                box_in(doc, dict, key)
            } else {
                match parent_of(dict) {
                    Some(parent) => inherited_box(doc, parent, key, (depth - 1) as nat),
                    None => None,
                }
            },
        }
    }
}

/// Fetches the dictionary under `id`.
pub fn get_dictionary(doc: &Document, id: (u32, u16)) -> (r: Option<PdfDict>)
    ensures
        r == dict_at(*doc, id),
{
    match fetch_object(doc, id) {
        Some(PdfObject::Dictionary(dict)) => Some(dict),
        _ => None,
    }
}

/// Gives `object` as a dictionary, following one reference.
pub fn resolve_to_dict(doc: &Document, object: PdfObject) -> (r: Option<PdfDict>)
    ensures
        r == as_dict(*doc, object),
{
    match object {
        PdfObject::Dictionary(dict) => Some(dict),
        PdfObject::Reference(id) => get_dictionary(doc, id),
        _ => None,
    }
}

/// Reads an integer entry of a dictionary.
pub fn get_dict_int(dict: &PdfDict, name: &str) -> (r: Option<i64>)
    ensures
        r == dict_int(*dict, name),
{
    match dict.get_named(name) {
        Some(PdfObject::Integer(v)) => Some(*v),
        _ => None,
    }
}

/// Reads the reference to the parent.
pub fn get_parent(dict: &PdfDict) -> (r: Option<(u32, u16)>)
    ensures
        r == parent_of(*dict),
{
    match dict.get_named("Parent") {
        Some(PdfObject::Reference(id)) => Some(*id),
        _ => None,
    }
}

/// Finds the resources of a page, on the page or on the nearest ancestor
/// that has any.
pub fn get_inherited_resources(doc: &Document, page_id: (u32, u16)) -> (r: Option<PdfDict>)
    ensures
        r == inherited_resources(*doc, page_id, PARENT_LIMIT as nat),
{
    let mut current: (u32, u16) = page_id;
    let mut left: usize = PARENT_LIMIT;
    while left > 0
        invariant
            inherited_resources(*doc, page_id, PARENT_LIMIT as nat) == inherited_resources(
                *doc,
                current,
                left as nat,
            ),
        decreases left,
    {
        match get_dictionary(doc, current) {
            None => {
                return None;
            },
            Some(dict) => {
                let parent = get_parent(&dict);
                match dict.take_named("Resources") {
                    Some(object) => {
                        return resolve_to_dict(doc, object);
                    },
                    None => {},
                }
                match parent {
                    Some(id) => {
                        current = id;
                        left -= 1;
                    },
                    None => {
                        return None;
                    },
                }
            },
        }
    }
    None
}

/// Finds the XObject dictionary of a page.
pub fn get_page_xobjects(doc: &Document, page_id: (u32, u16)) -> (r: Option<PdfDict>)
    ensures
        r == page_xobjects(*doc, page_id),
{
    match get_inherited_resources(doc, page_id) {
        Some(resources) => match resources.take_named("XObject") {
            Some(object) => resolve_to_dict(doc, object),
            None => None,
        },
        None => None,
    }
}

/// Reads a number as a binary64 value.
pub fn get_number(object: &PdfObject) -> (r: Option<u64>)
    ensures
        r == number_bits(*object),
{
    match object {
        PdfObject::Integer(v) => Some(int_to_double(*v)),
        PdfObject::Real(bits) => Some(single_to_double(*bits)),
        _ => None,
    }
}

/// Reads a box: an array whose first four entries are numbers.
pub fn parse_page_box(object: &PdfObject) -> (r: Option<[u64; 4]>)
    ensures
        r == page_box(*object),
{
    match object {
        PdfObject::Array(items) => {
            if items.len() < 4 {
                return None;
            }
            let a = get_number(&items[0]);
            let b = get_number(&items[1]);
            let c = get_number(&items[2]);
            let d = get_number(&items[3]);
            match (a, b, c, d) {
                (Some(x0), Some(y0), Some(x1), Some(y1)) => Some([x0, y0, x1, y1]),
                _ => None,
            }
        },
        _ => None,
    }
}

/// Reads the box that a dictionary holds under `key`.
pub fn get_box(doc: &Document, dict: &PdfDict, key: &str) -> (r: Option<[u64; 4]>)
    ensures
        r == box_in(*doc, *dict, key),
{
    match dict.get_named(key) {
        Some(PdfObject::Reference(id)) => match fetch_object(doc, *id) {
            Some(object) => parse_page_box(&object),
            None => None,
        },
        Some(object) => parse_page_box(object),
        None => None,
    }
}

/// Finds a box of a page, such as `MediaBox` or `CropBox`, on the page or on
/// the nearest ancestor that has one.
pub fn get_inherited_page_box(doc: &Document, page_id: (u32, u16), key: &str) -> (r: Option<
    [u64; 4],
>)
    ensures
        r == inherited_box(*doc, page_id, key, PARENT_LIMIT as nat),
{
    let mut current: (u32, u16) = page_id;
    let mut left: usize = PARENT_LIMIT;
    while left > 0
        invariant
            inherited_box(*doc, page_id, key, PARENT_LIMIT as nat) == inherited_box(
                *doc,
                current,
                key,
                left as nat,
            ),
        decreases left,
    {
        match get_dictionary(doc, current) {
            None => {
                return None;
            },
            Some(dict) => {
                let found = get_box(doc, &dict, key);
                if found.is_some() {
                    return found;
                }
                match get_parent(&dict) {
                    Some(id) => {
                        current = id;
                        left -= 1;
                    },
                    None => {
                        return None;
                    },
                }
            },
        }
    }
    None
}

} // verus!
