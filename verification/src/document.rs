//! Everything that extraction finds in a document, and the entry points
//! that take the bytes of a PDF file.

use vstd::prelude::*;
use vstd::string::StringExecFns;
use lopdf::Document;
use crate::annotations::{
    annotation_views, annotations_of_pages, extract_annotations,
};
use crate::images::{are_images_of, extract_images_raw, image_views, numbered_by_page};
use crate::meta::{extract_metadata, is_metadata};
use crate::pdf::{document_pages, error_message, load_document};
use crate::sorting::{is_sorted, lemma_stable_sorted, sort_by_key, Ranked};
use crate::text::{
    are_page_texts, are_structured_texts, detect_headers_footers, extract_structured_text,
    extract_text, is_structured,
};
use crate::ocr::{are_structured_pages, detect_headers_footers_ocr};
use crate::types::{
    OcrPageText, PageAnnotation, PageImage, PageText, PdfDocument, PdfDocumentOcr, PdfMeta,
    RawPageImage, RawPdfDocument, RawPdfDocumentOcr, StructuredPageText,
};

verus! {

impl Ranked for u32 {
    open spec fn sort_key(&self) -> int {
        *self as int
    }

    fn key(&self) -> (k: u64) {
        *self as u64
    }
}

/// Each value of `s` is less than the next.
pub open spec fn strictly_ascending(s: Seq<u32>) -> bool {
    forall|i: int, j: int| 0 <= i < j < s.len() ==> s[i] < s[j]
}

/// Puts page numbers in ascending order and keeps each of them once.
pub fn distinct_pages(pages: Vec<u32>) -> (r: Vec<u32>)
    ensures
        strictly_ascending(r@),
        forall|v: u32| r@.contains(v) <==> pages@.contains(v),
{
    let mut ordered = pages;
    sort_by_key(&mut ordered);
    proof {
        lemma_stable_sorted(pages@, pages@.len() as int);
        assert(pages@.take(pages@.len() as int) =~= pages@);
    }
    let mut out: Vec<u32> = Vec::new();
    let mut i: usize = 0;
    while i < ordered.len()
        invariant
            i <= ordered@.len(),
            is_sorted(ordered@),
            strictly_ascending(out@),
            i == 0 ==> out@.len() == 0,
            i > 0 ==> out@.len() > 0 && out@.last() == ordered@[i - 1],
            forall|k: int| 0 <= k < i ==> out@.contains(#[trigger] ordered@[k]),
            forall|k: int| 0 <= k < out@.len() ==> ordered@.contains(#[trigger] out@[k]),
        decreases ordered@.len() - i,
    {
        let ghost before = out@;
        if i == 0 || ordered[i] != ordered[i - 1] {
            out.push(ordered[i]);
            proof {
                if i > 0 {
                    assert(ordered@[i - 1].sort_key() <= ordered@[i as int].sort_key());
                }
                assert forall|a: int, b: int| 0 <= a < b < out@.len() implies out@[a]
                    < out@[b] by {
                    if b == before.len() {
                        assert(before[a] <= before.last());
                    }
                }
                assert forall|k: int| 0 <= k < i + 1 implies out@.contains(
                    #[trigger] ordered@[k],
                ) by {
                    if k < i {
                        let at = choose|j: int| 0 <= j < before.len() && before[j] == ordered@[k];
                        assert(out@[at] == ordered@[k]);
                    } else {
                        assert(out@[before.len() as int] == ordered@[k]);
                    }
                }
                assert forall|k: int| 0 <= k < out@.len() implies ordered@.contains(
                    #[trigger] out@[k],
                ) by {
                    if k < before.len() {
                        assert(out@[k] == before[k]);
                    } else {
                        assert(ordered@[i as int] == out@[k]);
                    }
                }
            }
        } else {
            assert(out@.contains(ordered@[i as int])) by {
                assert(out@[out@.len() - 1] == ordered@[i as int]);
            }
        }
        i += 1;
    }
    proof {
        pages@.to_multiset_ensures();
        ordered@.to_multiset_ensures();
        assert(ordered@.to_multiset() == pages@.to_multiset());
        assert forall|v: u32| out@.contains(v) <==> pages@.contains(v) by {
            assert(ordered@.contains(v) <==> ordered@.to_multiset().count(v) > 0);
            assert(pages@.contains(v) <==> pages@.to_multiset().count(v) > 0);
            if out@.contains(v) {
                let at = choose|j: int| 0 <= j < out@.len() && out@[j] == v;
                assert(ordered@.contains(out@[at]));
            }
            if pages@.contains(v) {
                assert(ordered@.contains(v));
                let at = choose|j: int| 0 <= j < ordered@.len() && ordered@[j] == v;
                assert(out@.contains(ordered@[at]));
            }
        }
    }
    out
}

/// `listed` are the pages that `of` names, in ascending order and each
/// once.
pub open spec fn lists_pages(listed: Seq<u32>, of: Seq<u32>) -> bool {
    &&& strictly_ascending(listed)
    &&& forall|v: u32| listed.contains(v) <==> of.contains(v)
}

/// The pages of `images`, image by image.
pub open spec fn pages_of_images(images: Seq<RawPageImage>) -> Seq<u32> {
    Seq::new(images.len(), |k: int| images[k].page)
}

/// The pages of `annotations`, annotation by annotation.
pub open spec fn pages_of_annotations(annotations: Seq<PageAnnotation>) -> Seq<u32> {
    Seq::new(annotations.len(), |k: int| annotations[k].page)
}

/// The pages that hold an image, in ascending order, each once.
pub fn image_pages_of(images: &Vec<RawPageImage>) -> (r: Vec<u32>)
    ensures
        lists_pages(r@, pages_of_images(images@)),
{
    let mut pages: Vec<u32> = Vec::new();
    let mut i: usize = 0;
    while i < images.len()
        invariant
            i <= images@.len(),
            pages@.len() == i,
            forall|k: int| 0 <= k < i ==> pages@[k] == (#[trigger] images@[k]).page,
        decreases images@.len() - i,
    {
        pages.push(images[i].page);
        i += 1;
    }
    assert(pages@ =~= pages_of_images(images@));
    distinct_pages(pages)
}

/// The pages that hold an annotation, in ascending order, each once.
pub fn annotation_pages_of(annotations: &Vec<PageAnnotation>) -> (r: Vec<u32>)
    ensures
        lists_pages(r@, pages_of_annotations(annotations@)),
{
    let mut pages: Vec<u32> = Vec::new();
    let mut i: usize = 0;
    while i < annotations.len()
        invariant
            i <= annotations@.len(),
            pages@.len() == i,
            forall|k: int| 0 <= k < i ==> pages@[k] == (#[trigger] annotations@[k]).page,
        decreases annotations@.len() - i,
    {
        pages.push(annotations[i].page);
        i += 1;
    }
    assert(pages@ =~= pages_of_annotations(annotations@));
    distinct_pages(pages)
}

/// `found` holds the parts that it is made of, and what follows from them:
/// the texts parted into header, body and footer, and the pages that hold
/// images and annotations.
pub open spec fn is_assembled(found: RawPdfDocument) -> bool {
    &&& found.structured_text@.len() == found.text@.len()
    &&& forall|i: int|
        0 <= i < found.structured_text@.len() ==> is_structured(
            found.text@,
            i,
            #[trigger] found.structured_text@[i],
        )
    &&& lists_pages(found.image_pages@, pages_of_images(found.images@))
    &&& lists_pages(found.annotation_pages@, pages_of_annotations(found.annotations@))
}

/// Puts together what has been extracted from a document, and adds what
/// follows from it.
pub fn assemble(
    meta: PdfMeta,
    text: Vec<PageText>,
    images: Vec<RawPageImage>,
    annotations: Vec<PageAnnotation>,
) -> (r: RawPdfDocument)
    ensures
        r.meta == meta,
        r.text == text,
        r.images == images,
        r.annotations == annotations,
        is_assembled(r),
{
    let structured_text = detect_headers_footers(&text);
    let image_pages = image_pages_of(&images);
    let annotation_pages = annotation_pages_of(&annotations);
    RawPdfDocument { meta, text, structured_text, images, annotations, image_pages, annotation_pages }
}

/// Every one of `listed` is a page of a document of `count` pages.
pub open spec fn are_pages_of(listed: Seq<u32>, count: int) -> bool {
    forall|i: int| 0 <= i < listed.len() ==> 1 <= #[trigger] listed[i] <= count
}

/// `found` is what extraction finds in the document: what the document says
/// of itself, the text of its pages as it is and parted into header, body
/// and footer, its images and its annotations, and the pages that hold
/// images and annotations, in ascending order and each once. Every such page
/// is one of the pages of the document, unless these are more than can be
/// counted.
pub open spec fn is_extraction(doc: Document, found: RawPdfDocument) -> bool {
    let pages = document_pages(doc);
    &&& is_metadata(doc, found.meta)
    &&& are_page_texts(doc, found.text@)
    &&& are_images_of(doc, image_views(found.images@))
    &&& numbered_by_page(found.images@)
    &&& annotation_views(found.annotations@) == annotations_of_pages(
        doc,
        pages,
        pages.len() as int,
    )
    &&& is_assembled(found)
    &&& pages.len() <= u32::MAX ==> are_pages_of(
        found.image_pages@,
        found.meta.page_count as int,
    ) && are_pages_of(found.annotation_pages@, found.meta.page_count as int)
}

/// Pages that are listed of pages in a range lie in that range.
proof fn lemma_pages_in_range(listed: Seq<u32>, of: Seq<u32>, count: int)
    requires
        lists_pages(listed, of),
        are_pages_of(of, count),
    ensures
        are_pages_of(listed, count),
{
    assert forall|i: int| 0 <= i < listed.len() implies 1 <= #[trigger] listed[i] <= count by {
        assert(listed.contains(listed[i]));
        let k = choose|k: int| 0 <= k < of.len() && of[k] == listed[i];
    }
}

/// Extracts everything from a document.
pub fn extract_all(doc: &Document) -> (r: RawPdfDocument)
    ensures
        is_extraction(*doc, r),
{
    let meta = extract_metadata(doc);
    let text = extract_text(doc);
    let images = extract_images_raw(doc);
    let annotations = extract_annotations(doc);
    let found = assemble(meta, text, images, annotations);
    proof {
        let count = document_pages(*doc).len() as int;
        if count <= u32::MAX {
            assert(are_pages_of(pages_of_images(found.images@), count));
            assert(are_pages_of(pages_of_annotations(found.annotations@), count));
            lemma_pages_in_range(found.image_pages@, pages_of_images(found.images@), count);
            lemma_pages_in_range(
                found.annotation_pages@,
                pages_of_annotations(found.annotations@),
                count,
            );
        }
    }
    found
}

/// Why a document could not be read.
#[derive(Debug)]
pub struct LoadError {
    pub reason: String,
}

/// What every reason of a `LoadError` begins with.
pub open spec fn load_failure() -> Seq<char> {
    "Failed to load PDF: "@
}

/// The error for a document that could not be read, from what the
/// object-model library says of it.
pub fn load_error(message: &str) -> (r: LoadError)
    ensures
        r.reason@ == load_failure() + message@,
{
    let mut reason = String::from_str("Failed to load PDF: ");
    reason.append(message);
    LoadError { reason }
}

/// Reads a document from the bytes of a PDF file. Whether there is one, and
/// which, the object-model library decides.
pub fn load_doc(buf: &[u8]) -> (r: Result<Document, LoadError>)
    ensures
        r is Err ==> load_failure().is_prefix_of(r->Err_0.reason@),
{
    match load_document(buf) {
        Ok(doc) => Ok(doc),
        Err(error) => {
            let message = error_message(&error);
            Err(load_error(message.as_str()))
        },
    }
}

/// `given` is the image `raw` with every part as it is.
pub open spec fn is_same_image(raw: RawPageImage, given: PageImage) -> bool {
    &&& given.page == raw.page
    &&& given.image_index == raw.image_index
    &&& given.width == raw.width
    &&& given.height == raw.height
    &&& given.data == raw.data
    &&& given.color_space == raw.color_space
    &&& given.bits_per_component == raw.bits_per_component
    &&& given.filter == raw.filter
    &&& given.xobject_name == raw.xobject_name
    &&& given.object_id == raw.object_id
}

/// `given` are the images `raw`, one for one.
pub open spec fn are_same_images(raw: Seq<RawPageImage>, given: Seq<PageImage>) -> bool {
    &&& given.len() == raw.len()
    &&& forall|i: int| 0 <= i < given.len() ==> is_same_image(raw[i], #[trigger] given[i])
}

/// `given` are the images of the document as they are handed to the caller.
pub open spec fn are_document_images(doc: Document, given: Seq<PageImage>) -> bool {
    exists|found: Seq<RawPageImage>|
        {
            &&& are_images_of(doc, image_views(found))
            &&& numbered_by_page(found)
            &&& #[trigger] are_same_images(found, given)
        }
}

/// The images `raw` as they are handed to the caller.
pub fn images_from_raw(raw: Vec<RawPageImage>) -> (r: Vec<PageImage>)
    ensures
        are_same_images(raw@, r@),
{
    let mut out: Vec<PageImage> = Vec::new();
    for image in it: raw
        invariant
            it.seq() == raw@,
            out@.len() == it.index(),
            forall|i: int| 0 <= i < out@.len() ==> is_same_image(raw@[i], #[trigger] out@[i]),
    {
        out.push(PageImage::from_raw(image));
    }
    out
}

/// A number of things as a `u32`: its low 32 bits.
pub open spec fn count_of(n: nat) -> u32 {
    (n % 0x1_0000_0000) as u32
}

/// Counts the things of a list as a `u32`.
fn count_u32(n: usize) -> (r: u32)
    ensures
        r == count_of(n as nat),
{
    ((n as u64) % 0x1_0000_0000) as u32
}

/// `given` is `found` as it is handed to the caller: every part as it is,
/// with the parts of the metadata side by side with the rest and the images
/// and annotations counted.
pub open spec fn is_handed_out(found: RawPdfDocument, given: PdfDocument) -> bool {
    &&& given.version == found.meta.version
    &&& given.is_linearized == found.meta.is_linearized
    &&& given.page_count == found.meta.page_count
    &&& given.creator == found.meta.creator
    &&& given.producer == found.meta.producer
    &&& given.creation_date == found.meta.creation_date
    &&& given.modification_date == found.meta.modification_date
    &&& given.page_boxes == found.meta.page_boxes
    &&& given.total_images == count_of(found.images@.len())
    &&& given.total_annotations == count_of(found.annotations@.len())
    &&& given.image_pages == found.image_pages
    &&& given.annotation_pages == found.annotation_pages
    &&& given.text == found.text
    &&& given.structured_text == found.structured_text
    &&& given.annotations == found.annotations
    &&& are_same_images(found.images@, given.images@)
}

/// `given` is what extraction finds in the document, as it is handed to the
/// caller.
pub open spec fn is_document(doc: Document, given: PdfDocument) -> bool {
    exists|found: RawPdfDocument| #[trigger]
        is_extraction(doc, found) && is_handed_out(found, given)
}

impl PdfDocument {
    /// What extraction has found, as it is handed to the caller.
    pub fn from_raw(found: RawPdfDocument) -> (r: PdfDocument)
        ensures
            is_handed_out(found, r),
    {
        let total_images = count_u32(found.images.len());
        let total_annotations = count_u32(found.annotations.len());
        PdfDocument {
            version: found.meta.version,
            is_linearized: found.meta.is_linearized,
            page_count: found.meta.page_count,
            creator: found.meta.creator,
            producer: found.meta.producer,
            creation_date: found.meta.creation_date,
            modification_date: found.meta.modification_date,
            page_boxes: found.meta.page_boxes,
            total_images,
            total_annotations,
            image_pages: found.image_pages,
            annotation_pages: found.annotation_pages,
            text: found.text,
            structured_text: found.structured_text,
            images: images_from_raw(found.images),
            annotations: found.annotations,
        }
    }
}

/// `found` holds the parts that it is made of, and what follows from them.
pub open spec fn is_assembled_with_text(found: RawPdfDocumentOcr) -> bool {
    &&& are_structured_pages(found.text@, found.structured_text@)
    &&& lists_pages(found.image_pages@, pages_of_images(found.images@))
    &&& lists_pages(found.annotation_pages@, pages_of_annotations(found.annotations@))
}

/// Puts together what has been extracted from a document whose pages have
/// been through text recognition, and adds what follows from it.
pub fn assemble_with_ocr(
    meta: PdfMeta,
    text: Vec<OcrPageText>,
    images: Vec<RawPageImage>,
    annotations: Vec<PageAnnotation>,
) -> (r: RawPdfDocumentOcr)
    ensures
        r.meta == meta,
        r.text == text,
        r.images == images,
        r.annotations == annotations,
        is_assembled_with_text(r),
{
    let structured_text = detect_headers_footers_ocr(&text);
    let image_pages = image_pages_of(&images);
    let annotation_pages = annotation_pages_of(&annotations);
    RawPdfDocumentOcr {
        meta,
        text,
        structured_text,
        images,
        annotations,
        image_pages,
        annotation_pages,
    }
}

/// `found` is what extraction with text recognition finds in the document,
/// given the texts `text` of its pages: as `is_extraction` has it, but for
/// the texts, which are taken as they are given.
pub open spec fn is_extraction_with_text(
    doc: Document,
    text: Seq<OcrPageText>,
    found: RawPdfDocumentOcr,
) -> bool {
    let pages = document_pages(doc);
    &&& is_metadata(doc, found.meta)
    &&& found.text@ == text
    &&& are_images_of(doc, image_views(found.images@))
    &&& numbered_by_page(found.images@)
    &&& annotation_views(found.annotations@) == annotations_of_pages(
        doc,
        pages,
        pages.len() as int,
    )
    &&& is_assembled_with_text(found)
    &&& pages.len() <= u32::MAX ==> are_pages_of(
        found.image_pages@,
        found.meta.page_count as int,
    ) && are_pages_of(found.annotation_pages@, found.meta.page_count as int)
}

/// Extracts everything from a document whose pages have been through text
/// recognition: `text` holds the text of each page with its source.
pub fn extract_all_with_ocr(doc: &Document, text: Vec<OcrPageText>) -> (r: RawPdfDocumentOcr)
    ensures
        is_extraction_with_text(*doc, text@, r),
{
    let meta = extract_metadata(doc);
    let images = extract_images_raw(doc);
    let annotations = extract_annotations(doc);
    let found = assemble_with_ocr(meta, text, images, annotations);
    proof {
        let count = document_pages(*doc).len() as int;
        if count <= u32::MAX {
            assert(are_pages_of(pages_of_images(found.images@), count));
            assert(are_pages_of(pages_of_annotations(found.annotations@), count));
            lemma_pages_in_range(found.image_pages@, pages_of_images(found.images@), count);
            lemma_pages_in_range(
                found.annotation_pages@,
                pages_of_annotations(found.annotations@),
                count,
            );
        }
    }
    found
}

/// `given` is `found` as it is handed to the caller.
pub open spec fn is_handed_out_ocr(found: RawPdfDocumentOcr, given: PdfDocumentOcr) -> bool {
    &&& given.version == found.meta.version
    &&& given.is_linearized == found.meta.is_linearized
    &&& given.page_count == found.meta.page_count
    &&& given.creator == found.meta.creator
    &&& given.producer == found.meta.producer
    &&& given.creation_date == found.meta.creation_date
    &&& given.modification_date == found.meta.modification_date
    &&& given.page_boxes == found.meta.page_boxes
    &&& given.total_images == count_of(found.images@.len())
    &&& given.total_annotations == count_of(found.annotations@.len())
    &&& given.image_pages == found.image_pages
    &&& given.annotation_pages == found.annotation_pages
    &&& given.text == found.text
    &&& given.structured_text == found.structured_text
    &&& given.annotations == found.annotations
    &&& are_same_images(found.images@, given.images@)
}

impl PdfDocumentOcr {
    /// What extraction with text recognition has found, as it is handed to
    /// the caller.
    pub fn from_raw(found: RawPdfDocumentOcr) -> (r: PdfDocumentOcr)
        ensures
            is_handed_out_ocr(found, r),
    {
        let total_images = count_u32(found.images.len());
        let total_annotations = count_u32(found.annotations.len());
        PdfDocumentOcr {
            version: found.meta.version,
            is_linearized: found.meta.is_linearized,
            page_count: found.meta.page_count,
            creator: found.meta.creator,
            producer: found.meta.producer,
            creation_date: found.meta.creation_date,
            modification_date: found.meta.modification_date,
            page_boxes: found.meta.page_boxes,
            total_images,
            total_annotations,
            image_pages: found.image_pages,
            annotation_pages: found.annotation_pages,
            text: found.text,
            structured_text: found.structured_text,
            images: images_from_raw(found.images),
            annotations: found.annotations,
        }
    }
}

/// `found` are the annotations of the document, page after page.
pub open spec fn are_annotations_of(doc: Document, found: Seq<PageAnnotation>) -> bool {
    annotation_views(found) == annotations_of_pages(
        doc,
        document_pages(doc),
        document_pages(doc).len() as int,
    )
}

/// Extracts the text of every page of the PDF file `buffer`: where a
/// document is read from it, the texts of that document.
pub fn extract_text_per_page(buffer: &[u8]) -> (r: Result<Vec<PageText>, LoadError>)
    ensures
        r is Ok ==> exists|doc: Document| #[trigger] are_page_texts(doc, r->Ok_0@),
        r is Err ==> load_failure().is_prefix_of(r->Err_0.reason@),
{
    match load_doc(buffer) {
        Ok(doc) => {
            let found = extract_text(&doc);
            assert(are_page_texts(doc, found@));
            assert(exists|d: Document| #[trigger] are_page_texts(d, found@));
            let r = Ok(found);
            assert(r->Ok_0 == found);
            r
        },
        Err(error) => Err(error),
    }
}

/// Gathers what the PDF file `buffer` says of itself: where a document is
/// read from it, the metadata of that document.
pub fn pdf_metadata(buffer: &[u8]) -> (r: Result<PdfMeta, LoadError>)
    ensures
        r is Ok ==> exists|doc: Document| #[trigger] is_metadata(doc, r->Ok_0),
        r is Err ==> load_failure().is_prefix_of(r->Err_0.reason@),
{
    match load_doc(buffer) {
        Ok(doc) => {
            let found = extract_metadata(&doc);
            assert(is_metadata(doc, found));
            assert(exists|d: Document| #[trigger] is_metadata(d, found));
            let r = Ok(found);
            assert(r->Ok_0 == found);
            r
        },
        Err(error) => Err(error),
    }
}

/// Extracts the annotations of every page of the PDF file `buffer`: where
/// a document is read from it, the annotations of that document.
pub fn extract_annotations_per_page(buffer: &[u8]) -> (r: Result<Vec<PageAnnotation>, LoadError>)
    ensures
        r is Ok ==> exists|doc: Document| #[trigger] are_annotations_of(doc, r->Ok_0@),
        r is Err ==> load_failure().is_prefix_of(r->Err_0.reason@),
{
    match load_doc(buffer) {
        Ok(doc) => {
            let found = extract_annotations(&doc);
            assert(are_annotations_of(doc, found@));
            assert(exists|d: Document| #[trigger] are_annotations_of(d, found@));
            let r = Ok(found);
            assert(r->Ok_0 == found);
            r
        },
        Err(error) => Err(error),
    }
}

/// Extracts the images of every page of the PDF file `buffer`: where a
/// document is read from it, the images of that document.
pub fn extract_images_per_page(buffer: &[u8]) -> (r: Result<Vec<PageImage>, LoadError>)
    ensures
        r is Ok ==> exists|doc: Document| #[trigger] are_document_images(doc, r->Ok_0@),
        r is Err ==> load_failure().is_prefix_of(r->Err_0.reason@),
{
    match load_doc(buffer) {
        Ok(doc) => {
            let found = extract_images_raw(&doc);
            let given = images_from_raw(found);
            assert(are_document_images(doc, given@));
            assert(exists|d: Document| #[trigger] are_document_images(d, given@));
            let r = Ok(given);
            assert(r->Ok_0 == given);
            r
        },
        Err(error) => Err(error),
    }
}

/// Extracts everything from the PDF file `buffer`: where a document is read
/// from it, what extraction finds in that document.
pub fn pdf_document(buffer: &[u8]) -> (r: Result<PdfDocument, LoadError>)
    ensures
        r is Ok ==> exists|doc: Document| #[trigger] is_document(doc, r->Ok_0),
        r is Err ==> load_failure().is_prefix_of(r->Err_0.reason@),
{
    match load_doc(buffer) {
        Ok(doc) => {
            let found = extract_all(&doc);
            let given = PdfDocument::from_raw(found);
            assert(is_document(doc, given));
            assert(exists|d: Document| #[trigger] is_document(d, given));
            let r = Ok(given);
            assert(r->Ok_0 == given);
            r
        },
        Err(error) => Err(error),
    }
}

/// Extracts the text of every page of the PDF file `buffer`, parted into
/// header, body and footer: where a document is read from it, the texts of
/// that document.
pub fn extract_structured_text_per_page(buffer: &[u8]) -> (r: Result<
    Vec<StructuredPageText>,
    LoadError,
>)
    ensures
        r is Ok ==> exists|doc: Document| #[trigger] are_structured_texts(doc, r->Ok_0@),
        r is Err ==> load_failure().is_prefix_of(r->Err_0.reason@),
{
    match load_doc(buffer) {
        Ok(doc) => {
            let found = extract_structured_text(&doc);
            assert(are_structured_texts(doc, found@));
            assert(exists|d: Document| #[trigger] are_structured_texts(d, found@));
            let r = Ok(found);
            assert(r->Ok_0 == found);
            r
        },
        Err(error) => Err(error),
    }
}

/// A document that is read once and asked many times.
pub struct PdfDown {
    doc: Document,
}

impl PdfDown {
    /// The document that this value holds.
    pub closed spec fn document_of(&self) -> Document {
        self.doc
    }

    /// Reads the PDF file `buffer`. The document that is read is the one
    /// that every answer of this value speaks of.
    pub fn new(buffer: &[u8]) -> (r: Result<PdfDown, LoadError>)
        ensures
            r is Err ==> load_failure().is_prefix_of(r->Err_0.reason@),
    {
        match load_doc(buffer) {
            Ok(doc) => Ok(PdfDown { doc }),
            Err(error) => Err(error),
        }
    }

    /// The document, for the calls that go by it.
    pub fn as_document(&self) -> (r: &Document)
        ensures
            *r == self.document_of(),
    {
        &self.doc
    }

    /// The text of every page.
    pub fn text_per_page(&self) -> (r: Vec<PageText>)
        ensures
            are_page_texts(self.document_of(), r@),
    {
        extract_text(&self.doc)
    }

    /// The images of every page.
    pub fn images_per_page(&self) -> (r: Vec<PageImage>)
        ensures
            are_document_images(self.document_of(), r@),
    {
        let found = extract_images_raw(&self.doc);
        images_from_raw(found)
    }

    /// The annotations of every page.
    pub fn annotations_per_page(&self) -> (r: Vec<PageAnnotation>)
        ensures
            are_annotations_of(self.document_of(), r@),
    {
        extract_annotations(&self.doc)
    }

    /// What the document says of itself.
    pub fn metadata(&self) -> (r: PdfMeta)
        ensures
            is_metadata(self.document_of(), r),
    {
        extract_metadata(&self.doc)
    }

    /// Everything that extraction finds in the document.
    pub fn document(&self) -> (r: PdfDocument)
        ensures
            is_document(self.document_of(), r),
    {
        let found = extract_all(&self.doc);
        PdfDocument::from_raw(found)
    }

    /// The text of every page, parted into header, body and footer.
    pub fn structured_text(&self) -> (r: Vec<StructuredPageText>)
        ensures
            are_structured_texts(self.document_of(), r@),
    {
        extract_structured_text(&self.doc)
    }
}

} // verus!
