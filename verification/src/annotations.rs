//! The annotations of a page: kind, place, link target and note.

use vstd::prelude::*;
use lopdf::Document;
use crate::encoding::{lossy_text, utf8_lossy};
use crate::meta::text_of;
use crate::pdf::{document_pages, page_annotation_dicts, page_annotations, page_list, PdfDict, PdfObject};
use crate::resolve::{as_dict, get_dictionary, get_number, number_bits};
use crate::sorting::{is_sorted, lemma_sorted_stays, sort_by_key, Ranked};
use crate::types::PageAnnotation;

verus! {

/// An annotation as contracts speak of it.
pub struct AnnotationView {
    pub page: u32,
    pub subtype: Seq<char>,
    pub rect: Seq<u64>,
    pub uri: Option<Seq<char>>,
    pub dest: Option<Seq<char>>,
    pub content: Option<Seq<char>>,
}

impl View for PageAnnotation {
    type V = AnnotationView;

    open spec fn view(&self) -> AnnotationView {
        AnnotationView {
            page: self.page,
            subtype: self.subtype@,
            rect: self.rect@,
            uri: text_of(self.uri),
            dest: text_of(self.dest),
            content: text_of(self.content),
        }
    }
}

impl Ranked for PageAnnotation {
    open spec fn sort_key(&self) -> int {
        self.page as int
    }

    fn key(&self) -> (k: u64) {
        self.page as u64
    }
}

/// The views of `annotations`, in order.
pub open spec fn annotation_views(annotations: Seq<PageAnnotation>) -> Seq<AnnotationView> {
    Seq::new(annotations.len(), |i: int| annotations[i]@)
}

/// The kind of an annotation: the name under `Subtype`, or nothing.
pub open spec fn subtype_of(dict: PdfDict) -> Seq<char> {
    match dict.named("Subtype") {
        Some(PdfObject::Name(name)) => utf8_lossy(name@),
        _ => Seq::empty(),
    }
}

/// The numbers among the first `n` of `items`, in order, as binary64 values.
pub open spec fn numbers_in(items: Seq<PdfObject>, n: int) -> Seq<u64>
    decreases n,
{
    if n <= 0 {
        Seq::empty()
    } else {
        match number_bits(items[n - 1]) {
            Some(bits) => numbers_in(items, n - 1).push(bits),
            None => numbers_in(items, n - 1),
        }
    }
}

/// The place of an annotation: the numbers of the array under `Rect`, as
/// binary64 values, where they are four. There is none where the entry is
/// missing, is no array, or is an array with more or fewer numbers.
pub open spec fn rect_of(dict: PdfDict) -> Seq<u64> {
    match dict.named("Rect") {
        Some(PdfObject::Array(items)) => {
            let numbers = numbers_in(items@, items@.len() as int);
            if numbers.len() == 4 {
                numbers
            } else {
                Seq::empty()
            }
        },
        _ => Seq::empty(),
    }
}

/// The address that an action leads to: the string under `URI` of the
/// action dictionary, which may be given by reference.
pub open spec fn action_uri(doc: Document, action: PdfObject) -> Option<Seq<char>> {
    match as_dict(doc, action) {
        Some(dict) => match dict.named("URI") {
            Some(PdfObject::Str(bytes)) => Some(utf8_lossy(bytes@)),
            _ => None,
        },
        None => None,
    }
}

/// The address that an annotation links to.
pub open spec fn uri_of(doc: Document, dict: PdfDict) -> Option<Seq<char>> {
    match dict.named("A") {
        Some(action) => action_uri(doc, action),
        None => None,
    }
}

/// The destination of an annotation: a string or a name under `Dest`.
pub open spec fn dest_of(dict: PdfDict) -> Option<Seq<char>> {
    match dict.named("Dest") {
        Some(PdfObject::Str(bytes)) => Some(utf8_lossy(bytes@)),
        Some(PdfObject::Name(name)) => Some(utf8_lossy(name@)),
        _ => None,
    }
}

/// The note of an annotation: the string under `Contents`.
pub open spec fn content_of(dict: PdfDict) -> Option<Seq<char>> {
    match dict.named("Contents") {
        Some(PdfObject::Str(bytes)) => Some(utf8_lossy(bytes@)),
        _ => None,
    }
}

/// The annotation that the dictionary `dict` of page `page` describes.
pub open spec fn annotation_of(doc: Document, page: u32, dict: PdfDict) -> AnnotationView {
    AnnotationView {
        page,
        subtype: subtype_of(dict),
        rect: rect_of(dict),
        uri: uri_of(doc, dict),
        dest: dest_of(dict),
        content: content_of(dict),
    }
}

/// The annotations of a page, in the order of the page; none where the
/// object-model library finds none.
pub open spec fn page_annotations_of(doc: Document, page_id: (u32, u16), page: u32) -> Seq<
    AnnotationView,
> {
    match page_annotation_dicts(doc, page_id) {
        Some(dicts) => Seq::new(dicts.len(), |i: int| annotation_of(doc, page, dicts[i])),
        None => Seq::empty(),
    }
}

/// The annotations of the first `n` of `pages`, page after page.
pub open spec fn annotations_of_pages(doc: Document, pages: Seq<(u32, (u32, u16))>, n: int) -> Seq<
    AnnotationView,
>
    decreases n,
{
    if n <= 0 {
        Seq::empty()
    } else {
        annotations_of_pages(doc, pages, n - 1) + page_annotations_of(
            doc,
            pages[n - 1].1,
            pages[n - 1].0,
        )
    }
}

/// Reads the numbers of an array.
fn read_numbers(items: &Vec<PdfObject>) -> (r: Vec<u64>)
    ensures
        r@ == numbers_in(items@, items@.len() as int),
{
    let mut out: Vec<u64> = Vec::new();
    let mut i: usize = 0;
    while i < items.len()
        invariant
            i <= items@.len(),
            out@ == numbers_in(items@, i as int),
        decreases items@.len() - i,
    {
        match get_number(&items[i]) {
            Some(bits) => {
                out.push(bits);
            },
            None => {},
        }
        i += 1;
    }
    out
}

/// Reads the place of an annotation.
fn read_rect(dict: &PdfDict) -> (r: Vec<u64>)
    ensures
        r@ == rect_of(*dict),
        r@.len() == 0 || r@.len() == 4,
{
    match dict.get_named("Rect") {
        Some(PdfObject::Array(items)) => {
            let numbers = read_numbers(items);
            if numbers.len() == 4 {
                numbers
            } else {
                Vec::new()
            }
        },
        _ => Vec::new(),
    }
}

/// Reads the address under `URI` of an action dictionary.
fn read_uri(dict: &PdfDict) -> (r: Option<String>)
    ensures
        text_of(r) == match dict.named("URI") {
            Some(PdfObject::Str(bytes)) => Some(utf8_lossy(bytes@)),
            _ => None,
        },
{
    match dict.get_named("URI") {
        Some(PdfObject::Str(bytes)) => Some(lossy_text(bytes.as_slice())),
        _ => None,
    }
}

/// Reads the address that an action leads to.
fn read_action_uri(doc: &Document, action: &PdfObject) -> (r: Option<String>)
    ensures
        text_of(r) == action_uri(*doc, *action),
{
    match action {
        PdfObject::Dictionary(dict) => read_uri(dict),
        PdfObject::Reference(id) => match get_dictionary(doc, *id) {
            Some(dict) => read_uri(&dict),
            None => None,
        },
        _ => None,
    }
}

/// Reads one annotation dictionary.
pub fn read_annotation(doc: &Document, page: u32, dict: &PdfDict) -> (r: PageAnnotation)
    ensures
        r@ == annotation_of(*doc, page, *dict),
        r.rect@.len() == 0 || r.rect@.len() == 4,
{
    let subtype = match dict.get_named("Subtype") {
        Some(PdfObject::Name(name)) => lossy_text(name.as_slice()),
        _ => String::new(),
    };
    let rect = read_rect(dict);
    let uri = match dict.get_named("A") {
        Some(action) => read_action_uri(doc, action),
        None => None,
    };
    let dest = match dict.get_named("Dest") {
        Some(PdfObject::Str(bytes)) => Some(lossy_text(bytes.as_slice())),
        Some(PdfObject::Name(name)) => Some(lossy_text(name.as_slice())),
        _ => None,
    };
    let content = match dict.get_named("Contents") {
        Some(PdfObject::Str(bytes)) => Some(lossy_text(bytes.as_slice())),
        _ => None,
    };
    PageAnnotation { page, subtype, rect, uri, dest, content }
}

/// Gathers the annotations of a page.
pub fn collect_page_annotations(doc: &Document, page_id: (u32, u16), page_num: u32) -> (r: Vec<
    PageAnnotation,
>)
    ensures
        annotation_views(r@) == page_annotations_of(*doc, page_id, page_num),
        forall|i: int| 0 <= i < r@.len() ==> (#[trigger] r@[i]).page == page_num,
        forall|i: int|
            0 <= i < r@.len() ==> (#[trigger] r@[i]).rect@.len() == 0 || r@[i].rect@.len() == 4,
{
    let mut results: Vec<PageAnnotation> = Vec::new();
    let dicts = match page_annotations(doc, page_id) {
        Some(dicts) => dicts,
        None => {
            return results;
        },
    };
    let mut i: usize = 0;
    while i < dicts.len()
        invariant
            i <= dicts@.len(),
            results@.len() == i,
            forall|k: int|
                0 <= k < i ==> (#[trigger] results@[k])@ == annotation_of(
                    *doc,
                    page_num,
                    dicts@[k],
                ),
        decreases dicts@.len() - i,
    {
        results.push(read_annotation(doc, page_num, &dicts[i]));
        i += 1;
    }
    results
}

/// Extracts the annotations of all pages, in ascending order of the pages.
pub fn extract_annotations(doc: &Document) -> (r: Vec<PageAnnotation>)
    ensures
        annotation_views(r@) == annotations_of_pages(
            *doc,
            document_pages(*doc),
            document_pages(*doc).len() as int,
        ),
        is_sorted(r@),
        forall|k: int|
            0 <= k < r@.len() ==> exists|p: int|
                0 <= p < document_pages(*doc).len() && document_pages(*doc)[p].0 == (
                #[trigger] r@[k]).page,
        document_pages(*doc).len() <= u32::MAX ==> forall|k: int|
            0 <= k < r@.len() ==> 1 <= (#[trigger] r@[k]).page <= document_pages(*doc).len(),
{
    let pages = page_list(doc);
    let mut all: Vec<PageAnnotation> = Vec::new();
    let mut i: usize = 0;
    while i < pages.len()
        invariant
            i <= pages@.len(),
            pages@ == document_pages(*doc),
            forall|a: int, b: int| 0 <= a < b < pages@.len() ==> pages@[a].0 < pages@[b].0,
            pages@.len() <= u32::MAX ==> forall|p: int|
                0 <= p < pages@.len() ==> (#[trigger] pages@[p]).0 == p + 1,
            annotation_views(all@) == annotations_of_pages(*doc, pages@, i as int),
            is_sorted(all@),
            forall|k: int|
                0 <= k < all@.len() ==> exists|p: int|
                    0 <= p < i && pages@[p].0 == (#[trigger] all@[k]).page,
        decreases pages@.len() - i,
    {
        let (page_num, page_id) = pages[i];
        let mut found = collect_page_annotations(doc, page_id, page_num);
        all.append(&mut found);
        i += 1;
    }
    let ghost gathered = all@;
    sort_by_key(&mut all);
    proof {
        lemma_sorted_stays(gathered, gathered.len() as int);
    }
    all
}

} // verus!
