//! The values that extraction hands out.

use vstd::prelude::*;

verus! {

/// The text of one page.
#[derive(Debug)]
pub struct PageText {
    pub page: u32,
    pub text: String,
}

/// The text of one page, parted into the header and footer that repeat across
/// the document and the body between them.
#[derive(Debug)]
pub struct StructuredPageText {
    pub page: u32,
    pub header: String,
    pub body: String,
    pub footer: String,
}

/// Where the text of a page comes from: the page itself, or recognition of
/// the images on it.
#[derive(Debug, Clone, Copy, PartialEq, Eq, Structural)]
pub enum TextSource {
    Native,
    Ocr,
}

/// The text of one page with its source.
#[derive(Debug)]
pub struct OcrPageText {
    pub page: u32,
    pub text: String,
    pub source: TextSource,
}

/// What a caller may set for text recognition.
#[derive(Debug)]
pub struct OcrOptions {
    pub lang: Option<String>,
    pub min_text_length: Option<u32>,
    pub max_threads: Option<u32>,
}

/// The kind of box that gives a page its size. A crop box goes before a
/// media box; a page with neither has an unknown box.
#[derive(Debug, Clone, Copy, PartialEq, Eq, Structural)]
pub enum BoxType {
    CropBox,
    MediaBox,
    Unknown,
}

/// Pages that share one box. The coordinates are binary64 values, held by
/// their bit patterns, with `left <= right` and `bottom <= top`. `pages` lists
/// the pages of the group; on the group that most pages belong to it is
/// `None`, which stands for all pages that no other group lists.
#[derive(Debug)]
pub struct PageBox {
    pub page_count: u32,
    pub left: u64,
    pub bottom: u64,
    pub right: u64,
    pub top: u64,
    pub box_type: BoxType,
    pub pages: Option<Vec<u32>>,
}

/// What the document says of itself.
#[derive(Debug)]
pub struct PdfMeta {
    pub page_count: u32,
    pub version: String,
    pub is_linearized: bool,
    pub creator: Option<String>,
    pub producer: Option<String>,
    pub creation_date: Option<String>,
    pub modification_date: Option<String>,
    pub page_boxes: Vec<PageBox>,
}

/// An image of a page, encoded as PNG.
#[derive(Debug)]
pub struct RawPageImage {
    pub page: u32,
    pub image_index: u32,
    pub width: u32,
    pub height: u32,
    pub data: Vec<u8>,
    pub color_space: String,
    pub bits_per_component: u32,
    pub filter: String,
    pub xobject_name: String,
    pub object_id: String,
}

/// An image of a page as it is handed to the caller.
#[derive(Debug)]
pub struct PageImage {
    pub page: u32,
    pub image_index: u32,
    pub width: u32,
    pub height: u32,
    pub data: Vec<u8>,
    pub color_space: String,
    pub bits_per_component: u32,
    pub filter: String,
    pub xobject_name: String,
    pub object_id: String,
}

impl PageImage {
    /// The image `raw` with every field as it is.
    pub fn from_raw(raw: RawPageImage) -> (r: PageImage)
        ensures
            r.page == raw.page,
            r.image_index == raw.image_index,
            r.width == raw.width,
            r.height == raw.height,
            r.data == raw.data,
            r.color_space == raw.color_space,
            r.bits_per_component == raw.bits_per_component,
            r.filter == raw.filter,
            r.xobject_name == raw.xobject_name,
            r.object_id == raw.object_id,
    {
        PageImage {
            page: raw.page,
            image_index: raw.image_index,
            width: raw.width,
            height: raw.height,
            data: raw.data,
            color_space: raw.color_space,
            bits_per_component: raw.bits_per_component,
            filter: raw.filter,
            xobject_name: raw.xobject_name,
            object_id: raw.object_id,
        }
    }
}

/// An annotation of a page. The numbers of `rect` are binary64 values, held
/// by their bit patterns.
#[derive(Debug)]
pub struct PageAnnotation {
    pub page: u32,
    pub subtype: String,
    pub rect: Vec<u64>,
    pub uri: Option<String>,
    pub dest: Option<String>,
    pub content: Option<String>,
}

/// All that extraction finds in a document.
#[derive(Debug)]
pub struct RawPdfDocument {
    pub meta: PdfMeta,
    pub text: Vec<PageText>,
    pub structured_text: Vec<StructuredPageText>,
    pub images: Vec<RawPageImage>,
    pub annotations: Vec<PageAnnotation>,
    pub image_pages: Vec<u32>,
    pub annotation_pages: Vec<u32>,
}

/// All that extraction finds in a document, as it is handed to the caller.
#[derive(Debug)]
pub struct PdfDocument {
    pub version: String,
    pub is_linearized: bool,
    pub page_count: u32,
    pub creator: Option<String>,
    pub producer: Option<String>,
    pub creation_date: Option<String>,
    pub modification_date: Option<String>,
    pub page_boxes: Vec<PageBox>,
    pub total_images: u32,
    pub total_annotations: u32,
    pub image_pages: Vec<u32>,
    pub annotation_pages: Vec<u32>,
    pub text: Vec<PageText>,
    pub structured_text: Vec<StructuredPageText>,
    pub images: Vec<PageImage>,
    pub annotations: Vec<PageAnnotation>,
}

/// The text of one page, parted into header, body and footer, with its source.
#[derive(Debug)]
pub struct OcrStructuredPageText {
    pub page: u32,
    pub header: String,
    pub body: String,
    pub footer: String,
    pub source: TextSource,
}

/// All that extraction with text recognition finds in a document.
#[derive(Debug)]
pub struct RawPdfDocumentOcr {
    pub meta: PdfMeta,
    pub text: Vec<OcrPageText>,
    pub structured_text: Vec<OcrStructuredPageText>,
    pub images: Vec<RawPageImage>,
    pub annotations: Vec<PageAnnotation>,
    pub image_pages: Vec<u32>,
    pub annotation_pages: Vec<u32>,
}

/// All that extraction with text recognition finds in a document, as it is
/// handed to the caller.
#[derive(Debug)]
pub struct PdfDocumentOcr {
    pub version: String,
    pub is_linearized: bool,
    pub page_count: u32,
    pub creator: Option<String>,
    pub producer: Option<String>,
    pub creation_date: Option<String>,
    pub modification_date: Option<String>,
    pub page_boxes: Vec<PageBox>,
    pub total_images: u32,
    pub total_annotations: u32,
    pub image_pages: Vec<u32>,
    pub annotation_pages: Vec<u32>,
    pub text: Vec<OcrPageText>,
    pub structured_text: Vec<OcrStructuredPageText>,
    pub images: Vec<PageImage>,
    pub annotations: Vec<PageAnnotation>,
}

} // verus!
