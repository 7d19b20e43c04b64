//! What a document says of itself: version, producer, dates, and the boxes
//! of its pages.

use vstd::prelude::*;
use lopdf::Document;
use crate::boxes::{
    group_keys, group_page_boxes, is_group, page_box_entry, page_entry, BoxEntry,
};
use crate::dates::{iso8601, pdf_date_to_iso8601};
use crate::encoding::{lossy_text, lossy_text_utf16, utf16_lossy, utf8_lossy};
use crate::pdf::{
    document_pages, document_trailer, document_version, page_list, trailer, version, PdfDict,
    PdfObject,
};
use crate::resolve::{dict_at, get_dictionary};
use crate::sorting::{sort_by_key, sorted, Ranked};
use crate::types::{PageBox, PdfMeta};

verus! {

impl Ranked for (u32, (u32, u16)) {
    open spec fn sort_key(&self) -> int {
        self.0 as int
    }

    fn key(&self) -> (k: u64) {
        self.0 as u64
    }
}

/// The UTF-16 code units that `bytes` hold behind a byte order mark of two
/// bytes, the high byte of each unit first. A last byte without a partner is
/// left out.
pub open spec fn utf16_units(bytes: Seq<u8>) -> Seq<u16> {
    Seq::new(
        ((bytes.len() - 2) / 2) as nat,
        |i: int| (bytes[2 + 2 * i] * 256 + bytes[3 + 2 * i]) as u16,
    )
}

/// The text of a string of the document: UTF-16 where the bytes begin with
/// the byte order mark FE FF, and UTF-8 otherwise.
pub open spec fn info_text(bytes: Seq<u8>) -> Seq<char> {
    if bytes.len() >= 2 && bytes[0] == 0xFE && bytes[1] == 0xFF {
        utf16_lossy(utf16_units(bytes))
    } else {
        utf8_lossy(bytes)
    }
}

/// The text that `dict` holds under `key`, if it holds a string there.
pub open spec fn info_string(dict: PdfDict, key: &str) -> Option<Seq<char>> {
    match dict.named(key) {
        Some(PdfObject::Str(bytes)) => Some(info_text(bytes@)),
        _ => None,
    }
}

/// The date that `dict` holds under `key`, in ISO 8601.
pub open spec fn info_date(dict: PdfDict, key: &str) -> Option<Seq<char>> {
    match info_string(dict, key) {
        Some(text) => Some(iso8601(text)),
        None => None,
    }
}

/// The characters of an optional text.
pub open spec fn text_of(text: Option<String>) -> Option<Seq<char>> {
    match text {
        Some(s) => Some(s@),
        None => None,
    }
}

/// The boxes of `pages`, each page given by its number and its object, in
/// ascending order of page number.
pub open spec fn box_entries(doc: Document, pages: Seq<(u32, (u32, u16))>) -> Seq<BoxEntry> {
    Seq::new(pages.len(), |i: int| page_entry(doc, sorted(pages)[i].0, sorted(pages)[i].1))
}

/// `boxes` are the groups of `pages` by their boxes.
pub open spec fn are_page_boxes(
    doc: Document,
    pages: Seq<(u32, (u32, u16))>,
    boxes: Seq<PageBox>,
) -> bool {
    let entries = box_entries(doc, pages);
    &&& boxes.len() == group_keys(entries, entries.len() as int).len()
    &&& forall|g: int| 0 <= g < boxes.len() ==> is_group(entries, g, #[trigger] boxes[g])
}

/// The information dictionary of the document: what the trailer refers to
/// under `Info`.
pub open spec fn info_dict(doc: Document) -> Option<PdfDict> {
    match document_trailer(doc).named("Info") {
        Some(PdfObject::Reference(id)) => dict_at(doc, id),
        _ => None,
    }
}

/// `meta` is what the document says of itself.
pub open spec fn is_metadata(doc: Document, meta: PdfMeta) -> bool {
    &&& meta.page_count == document_pages(doc).len() % 0x1_0000_0000
    &&& meta.version@ == document_version(doc)
    &&& meta.is_linearized == document_trailer(doc).named("Linearized") is Some
    &&& match info_dict(doc) {
        Some(info) => {
            &&& text_of(meta.creator) == info_string(info, "Creator")
            &&& text_of(meta.producer) == info_string(info, "Producer")
            &&& text_of(meta.creation_date) == info_date(info, "CreationDate")
            &&& text_of(meta.modification_date) == info_date(info, "ModDate")
        },
        None => {
            &&& meta.creator is None
            &&& meta.producer is None
            &&& meta.creation_date is None
            &&& meta.modification_date is None
        },
    }
    &&& are_page_boxes(doc, document_pages(doc), meta.page_boxes@)
}

/// Reads a string of the document as text.
pub fn decode_info_text(bytes: &Vec<u8>) -> (r: String)
    ensures
        r@ == info_text(bytes@),
{
    if bytes.len() >= 2 && bytes[0] == 0xFE && bytes[1] == 0xFF {
        let mut units: Vec<u16> = Vec::new();
        let count: usize = (bytes.len() - 2) / 2;
        let mut i: usize = 0;
        while i < count
            invariant
                bytes@.len() >= 2,
                bytes@.len() <= usize::MAX,
                count == (bytes@.len() - 2) / 2,
                i <= count,
                units@.len() == i,
                forall|j: int| 0 <= j < i ==> units@[j] == utf16_units(bytes@)[j],
            decreases count - i,
        {
            let high: u16 = bytes[2 + 2 * i] as u16;
            let low: u16 = bytes[3 + 2 * i] as u16;
            units.push(high * 256 + low);
            i += 1;
        }
        assert(units@ =~= utf16_units(bytes@));
        lossy_text_utf16(units.as_slice())
    } else {
        lossy_text(bytes.as_slice())
    }
}

/// Reads a string entry of a dictionary as text.
pub fn extract_info_string(dict: &PdfDict, key: &str) -> (r: Option<String>)
    ensures
        text_of(r) == info_string(*dict, key),
{
    match dict.get_named(key) {
        Some(PdfObject::Str(bytes)) => Some(decode_info_text(bytes)),
        _ => None,
    }
}

/// Reads a date entry of a dictionary and converts it to ISO 8601.
pub fn extract_info_date(dict: &PdfDict, key: &str) -> (r: Option<String>)
    ensures
        text_of(r) == info_date(*dict, key),
{
    match extract_info_string(dict, key) {
        Some(text) => Some(pdf_date_to_iso8601(text.as_str())),
        None => None,
    }
}

/// Groups the pages of a document by their boxes. The pages are gone through
/// in ascending order of page number.
pub fn extract_page_boxes(doc: &Document, pages: &Vec<(u32, (u32, u16))>) -> (r: Vec<PageBox>)
    ensures
        are_page_boxes(*doc, pages@, r@),
{
    let mut ordered: Vec<(u32, (u32, u16))> = Vec::new();
    let mut i: usize = 0;
    while i < pages.len()
        invariant
            i <= pages@.len(),
            ordered@ == pages@.take(i as int),
        decreases pages@.len() - i,
    {
        ordered.push(pages[i]);
        i += 1;
    }
    assert(pages@.take(pages@.len() as int) == pages@);
    sort_by_key(&mut ordered);
    proof {
        crate::sorting::lemma_stable_sorted(pages@, pages@.len() as int);
    }
    let mut entries: Vec<BoxEntry> = Vec::new();
    i = 0;
    while i < ordered.len()
        invariant
            i <= ordered@.len(),
            ordered@ == sorted(pages@),
            ordered@.len() == pages@.len(),
            entries@.len() == i,
            forall|j: int| 0 <= j < i ==> entries@[j] == box_entries(*doc, pages@)[j],
        decreases ordered@.len() - i,
    {
        let (page, id) = ordered[i];
        entries.push(page_box_entry(doc, page, id));
        i += 1;
    }
    assert(entries@ =~= box_entries(*doc, pages@));
    group_page_boxes(&entries)
}

/// Gathers what the document says of itself.
pub fn extract_metadata(doc: &Document) -> (r: PdfMeta)
    ensures
        is_metadata(*doc, r),
{
    let pages = page_list(doc);
    let page_count: u32 = ((pages.len() as u64) % 0x1_0000_0000) as u32;
    let trailer_dict = trailer(doc);
    let is_linearized: bool = trailer_dict.get_named("Linearized").is_some();
    let info: Option<PdfDict> = match trailer_dict.get_named("Info") {
        Some(PdfObject::Reference(id)) => get_dictionary(doc, *id),
        _ => None,
    };
    let page_boxes = extract_page_boxes(doc, &pages);
    match info {
        Some(dict) => PdfMeta {
            page_count,
            version: version(doc),
            is_linearized,
            creator: extract_info_string(&dict, "Creator"),
            producer: extract_info_string(&dict, "Producer"),
            creation_date: extract_info_date(&dict, "CreationDate"),
            modification_date: extract_info_date(&dict, "ModDate"),
            page_boxes,
        },
        None => PdfMeta {
            page_count,
            version: version(doc),
            is_linearized,
            creator: None,
            producer: None,
            creation_date: None,
            modification_date: None,
            page_boxes,
        },
    }
}

} // verus!
