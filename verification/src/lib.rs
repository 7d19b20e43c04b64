//! Extraction of text, images, annotations and metadata from PDF documents.
//!
//! A document is read by the object-model library `lopdf`; what is found in
//! it is worked out here. The entry points take the bytes of a PDF file, or
//! a [`PdfDown`] that has read them once. Every function states what it
//! gives, over plain values and over what the libraries that do the reading
//! and the decoding hand back.

pub mod annotations;
pub mod boxes;
pub mod codec;
pub mod dates;
pub mod document;
pub mod encoding;
pub mod ieee;
pub mod images;
pub mod meta;
pub mod ocr;
pub mod pdf;
pub mod pixels;
pub mod predictor;
pub mod resolve;
pub mod scan;
pub mod sorting;
pub mod streams;
pub mod strings;
pub mod text;
pub mod types;

pub use document::{
    extract_annotations_per_page, extract_images_per_page, extract_structured_text_per_page,
    extract_text_per_page, pdf_document, pdf_metadata, LoadError, PdfDown,
};
pub use types::{
    BoxType, OcrOptions, OcrPageText, OcrStructuredPageText, PageAnnotation, PageBox, PageImage,
    PageText, PdfDocument, PdfDocumentOcr, PdfMeta, RawPageImage, RawPdfDocument,
    RawPdfDocumentOcr, StructuredPageText, TextSource,
};
