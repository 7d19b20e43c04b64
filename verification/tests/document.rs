use lopdf::content::{Content, Operation};
use lopdf::{Dictionary, Document, Object, ObjectId, Stream, StringFormat};
use pdfdown::annotations::{collect_page_annotations, extract_annotations};
use pdfdown::document::{
    extract_all, extract_annotations_per_page, extract_images_per_page,
    extract_structured_text_per_page, extract_text_per_page, load_doc, load_error,
    pdf_document, pdf_metadata, PdfDown,
};
use pdfdown::images::{
    collect_page_decoded_images, collect_page_images_raw, extract_images_raw, list_candidates,
};
use pdfdown::meta::{extract_metadata, extract_page_boxes};
use pdfdown::resolve::{
    get_inherited_page_box, get_inherited_resources, get_page_xobjects, PARENT_LIMIT,
};
use pdfdown::scan::get_referenced_xobject_names;
use pdfdown::text::{extract_structured_text, extract_text};
use pdfdown::types::BoxType;
use std::io::Write;

fn name(text: &str) -> Object {
    Object::Name(text.as_bytes().to_vec())
}

fn text(value: &str) -> Object {
    Object::String(value.as_bytes().to_vec(), StringFormat::Literal)
}

fn dict(entries: Vec<(&str, Object)>) -> Dictionary {
    let mut found = Dictionary::new();
    for (key, value) in entries {
        found.set(key, value);
    }
    found
}

fn numbers(values: &[i64]) -> Object {
    Object::Array(values.iter().map(|v| Object::Integer(*v)).collect())
}

fn zlib(data: &[u8]) -> Vec<u8> {
    let mut encoder =
        flate2::write::ZlibEncoder::new(Vec::new(), flate2::Compression::default());
    encoder.write_all(data).unwrap();
    encoder.finish().unwrap()
}

fn deflate(data: &[u8]) -> Vec<u8> {
    let mut encoder =
        flate2::write::DeflateEncoder::new(Vec::new(), flate2::Compression::default());
    encoder.write_all(data).unwrap();
    encoder.finish().unwrap()
}

/// The content of a page that shows `lines` and paints `painted`.
fn page_content(lines: &[&str], painted: &[&str]) -> Vec<u8> {
    let mut operations = vec![
        Operation::new("BT", vec![]),
        Operation::new("Tf", vec![name("F1"), Object::Integer(12)]),
    ];
    for (i, line) in lines.iter().enumerate() {
        if i > 0 {
            operations.push(Operation::new("T*", vec![]));
        }
        operations.push(Operation::new("Tj", vec![text(line)]));
    }
    operations.push(Operation::new("ET", vec![]));
    for image in painted {
        operations.push(Operation::new("Do", vec![name(image)]));
    }
    Content { operations }.encode().unwrap()
}

struct Builder {
    doc: Document,
    pages_id: ObjectId,
    font_id: ObjectId,
    kids: Vec<Object>,
}

impl Builder {
    fn new() -> Builder {
        let mut doc = Document::with_version("1.5");
        let pages_id = doc.new_object_id();
        let font_id = doc.add_object(dict(vec![
            ("Type", name("Font")),
            ("Subtype", name("Type1")),
            ("BaseFont", name("Courier")),
        ]));
        Builder { doc, pages_id, font_id, kids: Vec::new() }
    }

    fn resources(&self, xobjects: Vec<(&str, Object)>) -> Dictionary {
        dict(vec![
            ("Font", Object::Dictionary(dict(vec![("F1", Object::Reference(self.font_id))]))),
            ("XObject", Object::Dictionary(dict(xobjects))),
        ])
    }

    fn add_page(&mut self, content: Vec<u8>, extra: Vec<(&str, Object)>) -> ObjectId {
        let content_id = self.doc.add_object(Stream::new(Dictionary::new(), content));
        let mut page = dict(vec![
            ("Type", name("Page")),
            ("Parent", Object::Reference(self.pages_id)),
            ("Contents", Object::Reference(content_id)),
        ]);
        for (key, value) in extra {
            page.set(key, value);
        }
        let id = self.doc.add_object(page);
        self.kids.push(Object::Reference(id));
        id
    }

    fn finish(mut self, root: Vec<(&str, Object)>) -> Document {
        let mut pages = dict(vec![
            ("Type", name("Pages")),
            ("Kids", Object::Array(self.kids.clone())),
            ("Count", Object::Integer(self.kids.len() as i64)),
        ]);
        for (key, value) in root {
            pages.set(key, value);
        }
        self.doc.objects.insert(self.pages_id, Object::Dictionary(pages));
        let catalog = self.doc.add_object(dict(vec![
            ("Type", name("Catalog")),
            ("Pages", Object::Reference(self.pages_id)),
        ]));
        self.doc.trailer.set("Root", Object::Reference(catalog));
        self.doc
    }
}

fn image_stream(width: i64, height: i64, color_space: &str, filter: Option<&str>, data: Vec<u8>) -> Stream {
    let mut found = dict(vec![
        ("Type", name("XObject")),
        ("Subtype", name("Image")),
        ("Width", Object::Integer(width)),
        ("Height", Object::Integer(height)),
        ("ColorSpace", name(color_space)),
        ("BitsPerComponent", Object::Integer(8)),
    ]);
    if let Some(filter) = filter {
        found.set("Filter", name(filter));
    }
    let mut stream = Stream::new(found, data);
    stream.allows_compression = false;
    stream
}

fn book(count: usize) -> Document {
    let words = ["alpha", "beta", "gamma", "delta", "epsilon", "zeta", "eta"];
    let total = count.to_string();
    let mut builder = Builder::new();
    let resources = builder.resources(vec![]);
    let resources = builder.doc.add_object(resources);
    for i in 0..count {
        let footer = format!("Page {}", i + 1);
        let lines = ["Annual Report", words[i % words.len()], "/", total.as_str(), footer.as_str()];
        builder.add_page(page_content(&lines, &[]), vec![]);
    }
    builder.finish(vec![
        ("Resources", Object::Reference(resources)),
        ("MediaBox", numbers(&[0, 0, 595, 842])),
    ])
}

#[test]
fn text_of_every_page_without_split_footers() {
    let doc = book(5);
    let pages = extract_text(&doc);
    assert_eq!(pages.len(), 5);
    let words = ["alpha", "beta", "gamma", "delta", "epsilon"];
    for (i, page) in pages.iter().enumerate() {
        assert_eq!(page.page, i as u32 + 1);
        assert_eq!(page.text, format!("Annual Report\n{}\nPage {}", words[i], i + 1));
    }
}

#[test]
fn text_keeps_what_is_no_split_footer() {
    // The count on the pages is 5, the document has 3 pages: nothing is a split footer.
    let mut builder = Builder::new();
    let resources = builder.resources(vec![]);
    let resources = builder.doc.add_object(resources);
    for _ in 0..3 {
        builder.add_page(page_content(&["one", "/", "5", "two"], &[]), vec![]);
    }
    let doc = builder.finish(vec![("Resources", Object::Reference(resources))]);
    let pages = extract_text(&doc);
    assert_eq!(pages.len(), 3);
    assert_eq!(pages[0].text, "one\n/\n5\ntwo\n");
    assert_eq!(doc.extract_text(&[1]).unwrap(), "one\n/\n5\ntwo\n");
}

#[test]
fn text_of_a_page_that_cannot_be_read_is_empty() {
    let mut builder = Builder::new();
    builder.add_page(page_content(&["x"], &[]), vec![]);
    // The root of the page tree names itself as its parent: the object-model library gives up
    // on the resources of the page.
    let root = builder.pages_id;
    let doc = builder.finish(vec![("Parent", Object::Reference(root))]);
    assert!(doc.extract_text(&[1]).is_err());
    let pages = extract_text(&doc);
    assert_eq!(pages.len(), 1);
    assert_eq!(pages[0].page, 1);
    assert_eq!(pages[0].text, "");
}

#[test]
fn structured_text_finds_header_and_footer() {
    let doc = book(5);
    let pages = extract_structured_text(&doc);
    assert_eq!(pages.len(), 5);
    let words = ["alpha", "beta", "gamma", "delta", "epsilon"];
    for (i, page) in pages.iter().enumerate() {
        assert_eq!(page.page, i as u32 + 1);
        assert_eq!(page.header, "Annual Report");
        assert_eq!(page.body, words[i]);
        assert_eq!(page.footer, format!("Page {}", i + 1));
    }
}

#[test]
fn entry_points_read_the_bytes_of_a_file() {
    let mut doc = book(3);
    let mut bytes: Vec<u8> = Vec::new();
    doc.save_to(&mut bytes).unwrap();
    let pages = extract_text_per_page(&bytes).unwrap();
    assert_eq!(pages.len(), 3);
    assert_eq!(pages[1].text, "Annual Report\nbeta\nPage 2");
    let parted = extract_structured_text_per_page(&bytes).unwrap();
    assert_eq!(parted.len(), 3);
    assert_eq!(parted[2].header, "Annual Report");
    assert_eq!(parted[2].body, "gamma");
    assert_eq!(parted[2].footer, "Page 3");
    let meta = pdf_metadata(&bytes).unwrap();
    assert_eq!(meta.page_count, 3);
    assert_eq!(meta.version, "1.5");
    assert!(extract_annotations_per_page(&bytes).unwrap().is_empty());
    assert!(extract_images_per_page(&bytes).unwrap().is_empty());
    let whole = pdf_document(&bytes).unwrap();
    assert_eq!(whole.page_count, 3);
    assert_eq!(whole.text.len(), 3);
    assert_eq!(whole.structured_text.len(), 3);
    assert_eq!(whole.total_images, 0);
    assert_eq!(whole.total_annotations, 0);
    let handle = PdfDown::new(&bytes).unwrap();
    assert_eq!(handle.text_per_page().len(), 3);
    assert_eq!(handle.structured_text().len(), 3);
    assert_eq!(handle.metadata().page_count, 3);
    assert!(handle.images_per_page().is_empty());
    assert!(handle.annotations_per_page().is_empty());
    assert_eq!(handle.document().page_count, 3);
    assert_eq!(extract_text(handle.as_document()).len(), 3);
}

#[test]
fn a_load_error_says_what_the_library_said() {
    assert_eq!(load_error("no header").reason, "Failed to load PDF: no header");
    assert_eq!(load_error("").reason, "Failed to load PDF: ");
}

#[test]
fn bytes_that_are_no_file_give_a_load_error() {
    let error = load_doc(b"this is no PDF").unwrap_err();
    assert!(error.reason.starts_with("Failed to load PDF: "));
    assert!(error.reason.len() > "Failed to load PDF: ".len());
    assert!(extract_text_per_page(b"").is_err());
    assert!(pdf_metadata(b"").is_err());
    assert!(extract_annotations_per_page(b"").is_err());
    assert!(extract_images_per_page(b"").is_err());
    assert!(pdf_document(b"").is_err());
    assert!(extract_structured_text_per_page(b"").is_err());
    assert!(PdfDown::new(b"%PDF-1.5 nothing").is_err());
}

#[test]
fn five_pages_with_one_media_box_make_one_group() {
    let doc = book(5);
    let meta = extract_metadata(&doc);
    assert_eq!(meta.page_count, 5);
    assert_eq!(meta.page_boxes.len(), 1);
    let group = &meta.page_boxes[0];
    assert_eq!(group.page_count, 5);
    assert_eq!(group.box_type, BoxType::MediaBox);
    assert_eq!(group.pages, None);
    assert_eq!(f64::from_bits(group.left), 0.0);
    assert_eq!(f64::from_bits(group.bottom), 0.0);
    assert_eq!(f64::from_bits(group.right), 595.0);
    assert_eq!(f64::from_bits(group.top), 842.0);
}

fn boxed_document() -> Document {
    let mut builder = Builder::new();
    let resources = builder.resources(vec![]);
    // Page 1 and 4: the media box of the root. Page 2: a crop box, given upside down and as
    // fractions. Page 3: a media box of its own, by reference. Page 5: the crop box of page 2.
    builder.add_page(page_content(&["a"], &[]), vec![]);
    builder.add_page(
        page_content(&["b"], &[]),
        vec![(
            "CropBox",
            Object::Array(vec![
                Object::Real(500.5),
                Object::Integer(700),
                Object::Integer(10),
                Object::Real(20.25),
            ]),
        )],
    );
    let own = builder.doc.add_object(numbers(&[0, 0, 300, 400]));
    builder.add_page(page_content(&["c"], &[]), vec![("MediaBox", Object::Reference(own))]);
    builder.add_page(page_content(&["d"], &[]), vec![]);
    builder.add_page(
        page_content(&["e"], &[]),
        vec![(
            "CropBox",
            Object::Array(vec![
                Object::Integer(10),
                Object::Real(20.25),
                Object::Real(500.5),
                Object::Integer(700),
            ]),
        )],
    );
    builder.finish(vec![
        ("Resources", Object::Dictionary(resources)),
        ("MediaBox", numbers(&[0, 0, 595, 842])),
    ])
}

#[test]
fn pages_are_grouped_by_their_boxes() {
    let doc = boxed_document();
    let meta = extract_metadata(&doc);
    assert_eq!(meta.page_boxes.len(), 3);
    let first = &meta.page_boxes[0];
    assert_eq!(first.box_type, BoxType::MediaBox);
    assert_eq!(first.page_count, 2);
    assert_eq!(first.pages, Some(vec![1, 4]));
    let second = &meta.page_boxes[1];
    assert_eq!(second.box_type, BoxType::CropBox);
    assert_eq!(second.page_count, 2);
    // Two groups of two pages: the later one is the dominant one.
    assert_eq!(second.pages, None);
    assert_eq!(f64::from_bits(second.left), 10.0);
    assert_eq!(f64::from_bits(second.bottom), 20.25);
    assert_eq!(f64::from_bits(second.right), 500.5);
    assert_eq!(f64::from_bits(second.top), 700.0);
    let third = &meta.page_boxes[2];
    assert_eq!(third.box_type, BoxType::MediaBox);
    assert_eq!(third.page_count, 1);
    assert_eq!(third.pages, Some(vec![3]));
    assert_eq!(f64::from_bits(third.right), 300.0);
    assert_eq!(f64::from_bits(third.top), 400.0);
}

#[test]
fn page_boxes_are_gone_through_in_order_of_page_number() {
    let doc = boxed_document();
    let pages = doc.get_pages();
    let mut listed: Vec<(u32, (u32, u16))> = pages.iter().map(|(k, v)| (*k, *v)).collect();
    listed.reverse();
    let boxes = extract_page_boxes(&doc, &listed);
    assert_eq!(boxes.len(), 3);
    assert_eq!(boxes[0].pages, Some(vec![1, 4]));
    assert_eq!(boxes[1].pages, None);
    assert_eq!(boxes[2].pages, Some(vec![3]));
}

#[test]
fn a_page_without_a_box_has_an_unknown_box() {
    let mut builder = Builder::new();
    builder.add_page(page_content(&["a"], &[]), vec![]);
    builder.add_page(page_content(&["b"], &[]), vec![("MediaBox", name("bad"))]);
    let doc = builder.finish(vec![]);
    let meta = extract_metadata(&doc);
    assert_eq!(meta.page_boxes.len(), 1);
    assert_eq!(meta.page_boxes[0].box_type, BoxType::Unknown);
    assert_eq!(meta.page_boxes[0].page_count, 2);
    assert_eq!(meta.page_boxes[0].pages, None);
    assert_eq!(meta.page_boxes[0].left, 0);
    assert_eq!(meta.page_boxes[0].top, 0);
}

#[test]
fn boxes_are_inherited_from_the_nearest_ancestor() {
    let doc = boxed_document();
    let pages = doc.get_pages();
    let first = pages[&1];
    let third = pages[&3];
    let found = get_inherited_page_box(&doc, first, "MediaBox").unwrap();
    assert_eq!(found.map(f64::from_bits), [0.0, 0.0, 595.0, 842.0]);
    let found = get_inherited_page_box(&doc, third, "MediaBox").unwrap();
    assert_eq!(found.map(f64::from_bits), [0.0, 0.0, 300.0, 400.0]);
    assert_eq!(get_inherited_page_box(&doc, first, "CropBox"), None);
    assert_eq!(get_inherited_page_box(&doc, (999, 0), "MediaBox"), None);
    let second = pages[&2];
    let found = get_inherited_page_box(&doc, second, "CropBox").unwrap();
    assert_eq!(found.map(f64::from_bits), [500.5, 700.0, 10.0, 20.25]);
}

#[test]
fn a_circle_of_parents_ends_the_search() {
    let mut doc = Document::with_version("1.5");
    let a = doc.new_object_id();
    let b = doc.new_object_id();
    doc.objects.insert(a, Object::Dictionary(dict(vec![("Parent", Object::Reference(b))])));
    doc.objects.insert(b, Object::Dictionary(dict(vec![("Parent", Object::Reference(a))])));
    assert_eq!(get_inherited_page_box(&doc, a, "MediaBox"), None);
    assert!(get_inherited_resources(&doc, a).is_none());
    assert!(PARENT_LIMIT >= 256);
}

#[test]
fn metadata_of_the_information_dictionary() {
    let mut doc = book(3);
    let mut producer: Vec<u8> = vec![0xFE, 0xFF];
    for unit in "Prüfer ✓".encode_utf16() {
        producer.extend_from_slice(&unit.to_be_bytes());
    }
    let info = doc.add_object(dict(vec![
        ("Creator", text("A writer")),
        ("Producer", Object::String(producer, StringFormat::Hexadecimal)),
        ("CreationDate", text("D:20230615120000+05'30'")),
        ("ModDate", text("D:20230615120000Z")),
        ("Title", Object::Integer(1)),
    ]));
    doc.trailer.set("Info", Object::Reference(info));
    doc.trailer.set("Linearized", Object::Integer(1));
    let meta = extract_metadata(&doc);
    assert_eq!(meta.page_count, 3);
    assert_eq!(meta.version, "1.5");
    assert!(meta.is_linearized);
    assert_eq!(meta.creator.as_deref(), Some("A writer"));
    assert_eq!(meta.producer.as_deref(), Some("Prüfer ✓"));
    assert_eq!(meta.creation_date.as_deref(), Some("2023-06-15T12:00:00+05:30"));
    assert_eq!(meta.modification_date.as_deref(), Some("2023-06-15T12:00:00Z"));
}

#[test]
fn metadata_without_information_dictionary() {
    let mut doc = book(3);
    let meta = extract_metadata(&doc);
    assert!(!meta.is_linearized);
    assert_eq!(meta.creator, None);
    assert_eq!(meta.producer, None);
    assert_eq!(meta.creation_date, None);
    assert_eq!(meta.modification_date, None);
    // An information dictionary that is written into the trailer is not looked at.
    doc.trailer.set("Info", Object::Dictionary(dict(vec![("Creator", text("x"))])));
    assert_eq!(extract_metadata(&doc).creator, None);
    // Bytes that are no UTF-8 are replaced.
    let info = doc.add_object(dict(vec![(
        "Creator",
        Object::String(vec![b'a', 0xff, b'b'], StringFormat::Literal),
    )]));
    doc.trailer.set("Info", Object::Reference(info));
    assert_eq!(extract_metadata(&doc).creator.as_deref(), Some("a\u{fffd}b"));
}

fn pixels_of(png: &[u8]) -> (u32, u32, image::ColorType, Vec<u8>) {
    let decoded = image::load_from_memory_with_format(png, image::ImageFormat::Png).unwrap();
    (decoded.width(), decoded.height(), decoded.color(), decoded.as_bytes().to_vec())
}

fn rgb_fixture() -> Vec<u8> {
    vec![255, 0, 0, 0, 255, 0, 0, 0, 255, 10, 20, 30]
}

fn document_with_images() -> Document {
    let mut builder = Builder::new();
    let raw = rgb_fixture();
    let flate = builder.doc.add_object(image_stream(2, 2, "DeviceRGB", Some("FlateDecode"), zlib(&raw)));
    let unused = builder.doc.add_object(image_stream(1, 1, "DeviceGray", None, vec![7]));
    let gray = builder.doc.add_object(image_stream(2, 1, "DeviceGray", None, vec![0, 200]));
    let form = builder.doc.add_object(Stream::new(
        dict(vec![("Type", name("XObject")), ("Subtype", name("Form"))]),
        b"q Q".to_vec(),
    ));
    let resources = builder.resources(vec![
        ("Im1", Object::Reference(flate)),
        ("Unused", Object::Reference(unused)),
        ("Fm1", Object::Reference(form)),
        ("Im2", Object::Reference(gray)),
    ]);
    // Page 1 paints Im2 before Im1 and the form; page 2 paints nothing; page 3 has no streams
    // to scan and so counts every image it declares.
    builder.add_page(page_content(&["first"], &["Im2", "Im1", "Fm1", "Im2"]), vec![]);
    builder.add_page(page_content(&["second"], &[]), vec![]);
    let third = builder.add_page(page_content(&["third"], &[]), vec![]);
    builder.doc.get_dictionary_mut(third).unwrap().remove(b"Contents");
    builder.finish(vec![("Resources", Object::Dictionary(resources))])
}

#[test]
fn painted_names_are_found_once() {
    let doc = document_with_images();
    let pages = doc.get_pages();
    let names = get_referenced_xobject_names(&doc, pages[&1]);
    assert_eq!(names, vec![b"Im2".to_vec(), b"Im1".to_vec(), b"Fm1".to_vec()]);
    assert!(get_referenced_xobject_names(&doc, pages[&2]).is_empty());
    assert!(get_referenced_xobject_names(&doc, pages[&3]).is_empty());
    assert!(get_referenced_xobject_names(&doc, (999, 0)).is_empty());
}

#[test]
fn painted_names_of_several_compressed_streams() {
    let mut builder = Builder::new();
    let first = builder.doc.add_object(Stream::new(
        dict(vec![("Filter", name("FlateDecode"))]),
        zlib(b"q /A Do "),
    ));
    let second = builder.doc.add_object(Stream::new(Dictionary::new(), b"/B Do Q /C".to_vec()));
    let page = builder.add_page(Vec::new(), vec![]);
    builder.doc.get_dictionary_mut(page).unwrap().set(
        "Contents",
        Object::Array(vec![
            Object::Reference(first),
            Object::Integer(3),
            Object::Reference(second),
            Object::Reference((999, 0)),
        ]),
    );
    let doc = builder.finish(vec![]);
    let names = get_referenced_xobject_names(&doc, page);
    assert_eq!(names, vec![b"A".to_vec(), b"B".to_vec()]);
}

#[test]
fn resources_and_xobjects_are_inherited() {
    let doc = document_with_images();
    let pages = doc.get_pages();
    let resources = get_inherited_resources(&doc, pages[&1]).unwrap();
    assert!(resources.get(b"Font").is_some());
    assert!(resources.get(b"XObject").is_some());
    assert!(resources.get(b"Nothing").is_none());
    let xobjects = get_page_xobjects(&doc, pages[&1]).unwrap();
    assert_eq!(xobjects.entries.len(), 4);
    assert_eq!(xobjects.entries[0].0, b"Im1".to_vec());
    assert_eq!(xobjects.entries[3].0, b"Im2".to_vec());
    assert!(get_page_xobjects(&doc, (999, 0)).is_none());
}

#[test]
fn images_of_a_page_in_the_order_in_which_it_paints_them() {
    let doc = document_with_images();
    let pages = doc.get_pages();
    let images = collect_page_images_raw(&doc, pages[&1], 1);
    assert_eq!(images.len(), 2);
    assert_eq!(images[0].page, 1);
    assert_eq!(images[0].image_index, 0);
    assert_eq!(images[0].xobject_name, "Im2");
    assert_eq!(images[0].color_space, "DeviceGray");
    assert_eq!(images[0].filter, "None");
    assert_eq!(pixels_of(&images[0].data), (2, 1, image::ColorType::L8, vec![0, 200]));
    assert_eq!(images[1].page, 1);
    assert_eq!(images[1].image_index, 1);
    assert_eq!(images[1].xobject_name, "Im1");
    assert_eq!(images[1].width, 2);
    assert_eq!(images[1].height, 2);
    assert_eq!(images[1].bits_per_component, 8);
    assert_eq!(images[1].color_space, "DeviceRGB");
    assert_eq!(images[1].filter, "FlateDecode");
    assert!(images[1].object_id.ends_with(" 0 obj"));
    assert_eq!(
        pixels_of(&images[1].data),
        (2, 2, image::ColorType::Rgb8, rgb_fixture())
    );
}

#[test]
fn a_painted_name_that_the_page_does_not_declare_gives_no_image() {
    let mut builder = Builder::new();
    let first = builder.doc.add_object(image_stream(1, 1, "DeviceGray", None, vec![1]));
    let second = builder.doc.add_object(image_stream(1, 1, "DeviceGray", None, vec![2]));
    let resources = builder.resources(vec![
        ("A", Object::Reference(first)),
        ("B", Object::Reference(second)),
    ]);
    let page = builder.add_page(page_content(&[], &["Missing", "B", "B", "A", "Missing"]), vec![]);
    let doc = builder.finish(vec![("Resources", Object::Dictionary(resources))]);
    let images = collect_page_images_raw(&doc, page, 1);
    let found: Vec<(u32, &str, Vec<u8>)> = images
        .iter()
        .map(|i| (i.image_index, i.xobject_name.as_str(), pixels_of(&i.data).3))
        .collect();
    assert_eq!(found, vec![(0, "B", vec![2]), (1, "A", vec![1])]);
}

#[test]
fn candidates_are_the_painted_entries_or_all() {
    let doc = document_with_images();
    let pages = doc.get_pages();
    let xobjects = get_page_xobjects(&doc, pages[&1]).unwrap();
    let painted = vec![b"Im2".to_vec(), b"Nothing".to_vec(), b"Im1".to_vec()];
    let listed = list_candidates(&xobjects, &painted);
    let names: Vec<&[u8]> = listed.iter().map(|(name, _)| name.as_slice()).collect();
    assert_eq!(names, vec![&b"Im2"[..], &b"Im1"[..]]);
    assert_eq!(format!("{:?}", listed[0].1), format!("{:?}", xobjects.entries[3].1));
    assert_eq!(format!("{:?}", listed[1].1), format!("{:?}", xobjects.entries[0].1));
    let none: Vec<Vec<u8>> = Vec::new();
    let listed = list_candidates(&xobjects, &none);
    let names: Vec<&[u8]> = listed.iter().map(|(name, _)| name.as_slice()).collect();
    assert_eq!(names, vec![&b"Im1"[..], &b"Unused"[..], &b"Fm1"[..], &b"Im2"[..]]);
}

#[test]
fn a_page_whose_scan_finds_nothing_counts_every_image() {
    let doc = document_with_images();
    let pages = doc.get_pages();
    for page in [2u32, 3] {
        let images = collect_page_images_raw(&doc, pages[&page], page);
        let names: Vec<&str> = images.iter().map(|i| i.xobject_name.as_str()).collect();
        assert_eq!(names, vec!["Im1", "Unused", "Im2"]);
        let indices: Vec<u32> = images.iter().map(|i| i.image_index).collect();
        assert_eq!(indices, vec![0, 1, 2]);
    }
}

#[test]
fn images_of_all_pages_are_numbered_page_by_page() {
    let doc = document_with_images();
    let images = extract_images_raw(&doc);
    let places: Vec<(u32, u32)> = images.iter().map(|i| (i.page, i.image_index)).collect();
    assert_eq!(places, vec![(1, 0), (1, 1), (2, 0), (2, 1), (2, 2), (3, 0), (3, 1), (3, 2)]);
    let whole = extract_all(&doc);
    assert_eq!(whole.image_pages, vec![1, 2, 3]);
    assert_eq!(whole.annotation_pages, Vec::<u32>::new());
    assert_eq!(whole.images.len(), 8);
    assert_eq!(whole.meta.page_count, 3);
}

#[test]
fn rasters_for_recognition() {
    let doc = document_with_images();
    let pages = doc.get_pages();
    let rasters = collect_page_decoded_images(&doc, pages[&1]);
    assert_eq!(rasters.len(), 2);
    assert_eq!(rasters[0].to_rgb8().into_raw(), vec![0, 0, 0, 200, 200, 200]);
    assert_eq!(rasters[1].width(), 2);
    assert_eq!(rasters[1].height(), 2);
    assert_eq!(rasters[1].to_rgb8().into_raw(), rgb_fixture());
    assert!(collect_page_decoded_images(&doc, (999, 0)).is_empty());
}

fn one_image(stream: Stream, others: Vec<(ObjectId, Object)>) -> Vec<pdfdown::types::RawPageImage> {
    let mut builder = Builder::new();
    for (id, object) in others {
        builder.doc.objects.insert(id, object);
        builder.doc.max_id = builder.doc.max_id.max(id.0);
    }
    let image = builder.doc.add_object(stream);
    let resources = builder.resources(vec![("Im1", Object::Reference(image))]);
    let page = builder.add_page(page_content(&[], &["Im1"]), vec![]);
    let doc = builder.finish(vec![("Resources", Object::Dictionary(resources))]);
    collect_page_images_raw(&doc, page, 1)
}

#[test]
fn image_with_png_predictor() {
    // Two rows of two pixels, filtered with Sub and Up.
    let raw = rgb_fixture();
    let mut filtered = vec![1u8];
    filtered.extend_from_slice(&[255, 0, 0, 1, 255, 0]);
    filtered.push(2);
    filtered.extend_from_slice(&[1, 0, 255, 10, 21, 30]);
    let mut stream = image_stream(2, 2, "DeviceRGB", Some("FlateDecode"), zlib(&filtered));
    stream.dict.set(
        "DecodeParms",
        Object::Dictionary(dict(vec![
            ("Predictor", Object::Integer(15)),
            ("Colors", Object::Integer(3)),
            ("Columns", Object::Integer(2)),
        ])),
    );
    let images = one_image(stream, vec![]);
    assert_eq!(images.len(), 1);
    assert_eq!(pixels_of(&images[0].data), (2, 2, image::ColorType::Rgb8, raw));
}

#[test]
fn image_with_tiff_predictor_by_reference_in_an_array() {
    let raw = rgb_fixture();
    let differenced = vec![255u8, 0, 0, 1, 255, 0, 0, 0, 255, 10, 20, 31];
    let mut stream = image_stream(2, 2, "DeviceRGB", None, deflate(&differenced));
    stream.dict.set("Filter", Object::Array(vec![name("FlateDecode")]));
    stream.dict.set(
        "DecodeParms",
        Object::Array(vec![Object::Null, Object::Reference((900, 0))]),
    );
    let parms = Object::Dictionary(dict(vec![("Predictor", Object::Integer(2))]));
    let images = one_image(stream, vec![((900, 0), parms)]);
    assert_eq!(images.len(), 1);
    assert_eq!(images[0].filter, "FlateDecode");
    assert_eq!(pixels_of(&images[0].data), (2, 2, image::ColorType::Rgb8, raw));
}

#[test]
fn image_with_unknown_png_filter_keeps_its_bytes() {
    // The rows name filter 9: the bytes stay as they are, and they are too many for the
    // image, of which the first are taken.
    let filtered = vec![9u8, 1, 2, 3, 4, 5, 6, 9, 7, 8, 9, 10, 11, 12];
    let mut stream = image_stream(2, 2, "DeviceRGB", Some("FlateDecode"), zlib(&filtered));
    stream.dict.set(
        "DecodeParms",
        Object::Dictionary(dict(vec![("Predictor", Object::Integer(12))])),
    );
    let images = one_image(stream, vec![]);
    assert_eq!(images.len(), 1);
    assert_eq!(
        pixels_of(&images[0].data).3,
        vec![9u8, 1, 2, 3, 4, 5, 6, 9, 7, 8, 9, 10]
    );
}

#[test]
fn image_in_cmyk() {
    let cmyk = vec![0u8, 0, 0, 255, 0, 0, 0, 0, 255, 0, 0, 0, 0, 128, 255, 65];
    let images = one_image(image_stream(2, 2, "DeviceCMYK", None, cmyk), vec![]);
    assert_eq!(images.len(), 1);
    assert_eq!(images[0].color_space, "DeviceCMYK");
    assert_eq!(
        pixels_of(&images[0].data),
        (
            2,
            2,
            image::ColorType::Rgb8,
            vec![0, 0, 0, 255, 255, 255, 0, 255, 255, 190, 94, 0]
        )
    );
}

#[test]
fn image_with_samples_of_sixteen_bits() {
    let mut stream = image_stream(2, 1, "DeviceGray", None, vec![0x12, 0x34, 0xab, 0xcd]);
    stream.dict.set("BitsPerComponent", Object::Integer(16));
    let images = one_image(stream, vec![]);
    assert_eq!(images.len(), 1);
    assert_eq!(images[0].bits_per_component, 16);
    assert_eq!(pixels_of(&images[0].data), (2, 1, image::ColorType::L8, vec![0x12, 0xab]));
}

#[test]
fn image_with_soft_mask() {
    let mut stream = image_stream(2, 2, "DeviceRGB", None, rgb_fixture());
    stream.dict.set("SMask", Object::Reference((901, 0)));
    let mask = image_stream(2, 2, "DeviceGray", Some("FlateDecode"), zlib(&[0, 64, 128, 255]));
    let images = one_image(stream, vec![((901, 0), Object::Stream(mask))]);
    assert_eq!(images.len(), 1);
    assert_eq!(
        pixels_of(&images[0].data),
        (
            2,
            2,
            image::ColorType::Rgba8,
            vec![255, 0, 0, 0, 0, 255, 0, 64, 0, 0, 255, 128, 10, 20, 30, 255]
        )
    );
}

#[test]
fn image_with_a_soft_mask_that_is_too_short() {
    let mut stream = image_stream(2, 2, "DeviceRGB", None, rgb_fixture());
    stream.dict.set("SMask", Object::Reference((901, 0)));
    let mask = image_stream(2, 2, "DeviceGray", None, vec![1, 2, 3]);
    let images = one_image(stream, vec![((901, 0), Object::Stream(mask))]);
    assert_eq!(images.len(), 1);
    assert_eq!(pixels_of(&images[0].data), (2, 2, image::ColorType::Rgb8, rgb_fixture()));
}

#[test]
fn image_with_too_few_bytes_is_left_out() {
    let images = one_image(image_stream(2, 2, "DeviceRGB", None, vec![1, 2, 3]), vec![]);
    assert!(images.is_empty());
    let images = one_image(image_stream(0, 2, "DeviceRGB", None, vec![]), vec![]);
    assert!(images.is_empty());
    let images = one_image(image_stream(2, 2, "DeviceRGB", Some("JPXDecode"), vec![1, 2, 3]), vec![]);
    assert!(images.is_empty());
    let images = one_image(image_stream(2, 2, "DeviceRGB", Some("DCTDecode"), vec![1, 2, 3]), vec![]);
    assert!(images.is_empty());
}

#[test]
fn image_in_jpeg() {
    let mut jpeg: Vec<u8> = Vec::new();
    let picture = image::RgbImage::from_pixel(8, 8, image::Rgb([200, 100, 50]));
    image::DynamicImage::ImageRgb8(picture)
        .write_to(&mut std::io::Cursor::new(&mut jpeg), image::ImageFormat::Jpeg)
        .unwrap();
    let images = one_image(image_stream(8, 8, "DeviceRGB", Some("DCTDecode"), jpeg), vec![]);
    assert_eq!(images.len(), 1);
    assert_eq!(images[0].filter, "DCTDecode");
    let (width, height, color, pixels) = pixels_of(&images[0].data);
    assert_eq!((width, height, color), (8, 8, image::ColorType::Rgb8));
    assert!((pixels[0] as i32 - 200).abs() < 8);
    assert!((pixels[1] as i32 - 100).abs() < 8);
    assert!((pixels[2] as i32 - 50).abs() < 8);
}

#[test]
fn image_with_a_profile_color_space() {
    let mut stream = image_stream(2, 1, "DeviceGray", None, vec![5, 6]);
    stream.dict.set(
        "ColorSpace",
        Object::Array(vec![name("ICCBased"), Object::Reference((902, 0))]),
    );
    let profile = Stream::new(dict(vec![("N", Object::Integer(1))]), vec![0; 4]);
    let images = one_image(stream, vec![((902, 0), Object::Stream(profile))]);
    assert_eq!(images.len(), 1);
    assert_eq!(images[0].color_space, "ICCBased1");
    assert_eq!(pixels_of(&images[0].data), (2, 1, image::ColorType::L8, vec![5, 6]));
}

#[test]
fn image_with_color_space_by_reference() {
    let mut stream = image_stream(1, 1, "DeviceGray", None, vec![1, 2, 3, 4]);
    stream.dict.set("ColorSpace", Object::Reference((903, 0)));
    let space = Object::Array(vec![name("ICCBased"), Object::Reference((904, 0))]);
    let profile = Stream::new(Dictionary::new(), vec![0; 4]);
    let images = one_image(
        stream,
        vec![((903, 0), space), ((904, 0), Object::Stream(profile))],
    );
    assert_eq!(images.len(), 1);
    assert_eq!(images[0].color_space, "ICCBased3");
    assert_eq!(pixels_of(&images[0].data), (1, 1, image::ColorType::Rgb8, vec![1, 2, 3]));
}

#[test]
fn image_with_color_space_that_is_not_known() {
    let mut stream = image_stream(1, 1, "DeviceGray", None, vec![1, 2, 3]);
    stream.dict.set("ColorSpace", Object::Array(vec![name("Indexed"), name("DeviceRGB")]));
    let images = one_image(stream, vec![]);
    assert_eq!(images.len(), 1);
    assert_eq!(images[0].color_space, "Indexed");
    assert_eq!(pixels_of(&images[0].data), (1, 1, image::ColorType::Rgb8, vec![1, 2, 3]));
    let mut stream = image_stream(1, 1, "DeviceGray", None, vec![1, 2, 3]);
    stream.dict.remove(b"ColorSpace");
    let images = one_image(stream, vec![]);
    assert_eq!(images[0].color_space, "DeviceRGB");
    let mut stream = image_stream(1, 1, "DeviceGray", None, vec![1, 2, 3]);
    stream.dict.set("ColorSpace", Object::Array(vec![name("ICCBased"), Object::Integer(1)]));
    let images = one_image(stream, vec![]);
    assert_eq!(images[0].color_space, "ICCBased");
}

fn document_with_annotations() -> Document {
    let mut builder = Builder::new();
    let resources = builder.resources(vec![]);
    let action = builder.doc.add_object(dict(vec![
        ("S", name("URI")),
        ("URI", text("https://example.org/by-reference")),
    ]));
    let link = builder.doc.add_object(dict(vec![
        ("Type", name("Annot")),
        ("Subtype", name("Link")),
        (
            "Rect",
            Object::Array(vec![
                Object::Integer(0),
                Object::Real(10.5),
                name("skipped"),
                Object::Integer(100),
                Object::Integer(200),
            ]),
        ),
        ("A", Object::Reference(action)),
    ]));
    let note = dict(vec![
        ("Subtype", name("Text")),
        ("Rect", numbers(&[1, 2, 3, 4])),
        ("Contents", text("A note")),
        ("Dest", name("Chapter1")),
        (
            "A",
            Object::Dictionary(dict(vec![("URI", text("https://example.org/direct"))])),
        ),
    ]);
    let bare = dict(vec![("Dest", text("a string")), ("Rect", name("none"))]);
    builder.add_page(page_content(&["a"], &[]), vec![]);
    builder.add_page(
        page_content(&["b"], &[]),
        vec![(
            "Annots",
            Object::Array(vec![
                Object::Reference(link),
                Object::Dictionary(note),
                Object::Integer(7),
            ]),
        )],
    );
    builder.add_page(
        page_content(&["c"], &[]),
        vec![("Annots", Object::Array(vec![Object::Dictionary(bare)]))],
    );
    builder.finish(vec![("Resources", Object::Dictionary(resources))])
}

#[test]
fn annotations_of_a_page() {
    let doc = document_with_annotations();
    let pages = doc.get_pages();
    assert!(collect_page_annotations(&doc, pages[&1], 1).is_empty());
    let found = collect_page_annotations(&doc, pages[&2], 2);
    assert_eq!(found.len(), 2);
    assert_eq!(found[0].page, 2);
    assert_eq!(found[0].subtype, "Link");
    let rect: Vec<f64> = found[0].rect.iter().map(|b| f64::from_bits(*b)).collect();
    assert_eq!(rect, vec![0.0, 10.5, 100.0, 200.0]);
    assert_eq!(found[0].uri.as_deref(), Some("https://example.org/by-reference"));
    assert_eq!(found[0].dest, None);
    assert_eq!(found[0].content, None);
    assert_eq!(found[1].subtype, "Text");
    let rect: Vec<f64> = found[1].rect.iter().map(|b| f64::from_bits(*b)).collect();
    assert_eq!(rect, vec![1.0, 2.0, 3.0, 4.0]);
    assert_eq!(found[1].uri.as_deref(), Some("https://example.org/direct"));
    assert_eq!(found[1].dest.as_deref(), Some("Chapter1"));
    assert_eq!(found[1].content.as_deref(), Some("A note"));
    let found = collect_page_annotations(&doc, pages[&3], 3);
    assert_eq!(found.len(), 1);
    assert_eq!(found[0].subtype, "");
    assert!(found[0].rect.is_empty());
    assert_eq!(found[0].uri, None);
    assert_eq!(found[0].dest.as_deref(), Some("a string"));
}

fn rect_of_one_annotation(rect: Object) -> Vec<f64> {
    let mut builder = Builder::new();
    let resources = builder.resources(vec![]);
    let annotation = dict(vec![("Subtype", name("Square")), ("Rect", rect)]);
    let page = builder.add_page(
        page_content(&["a"], &[]),
        vec![("Annots", Object::Array(vec![Object::Dictionary(annotation)]))],
    );
    let doc = builder.finish(vec![("Resources", Object::Dictionary(resources))]);
    let found = collect_page_annotations(&doc, page, 1);
    assert_eq!(found.len(), 1);
    assert_eq!(found[0].subtype, "Square");
    found[0].rect.iter().map(|b| f64::from_bits(*b)).collect()
}

#[test]
fn a_rectangle_has_four_numbers_or_none() {
    assert_eq!(rect_of_one_annotation(numbers(&[1, 2, 3, 4])), vec![1.0, 2.0, 3.0, 4.0]);
    assert_eq!(
        rect_of_one_annotation(Object::Array(vec![
            Object::Real(0.5),
            Object::Integer(-2),
            Object::Real(3.25),
            Object::Integer(4),
        ])),
        vec![0.5, -2.0, 3.25, 4.0]
    );
    assert!(rect_of_one_annotation(numbers(&[1, 2, 3, 4, 5])).is_empty());
    assert!(rect_of_one_annotation(numbers(&[1, 2, 3])).is_empty());
    assert!(rect_of_one_annotation(numbers(&[])).is_empty());
    assert!(rect_of_one_annotation(Object::Array(vec![
        Object::Integer(1),
        name("two"),
        Object::Integer(3),
        Object::Integer(4),
    ]))
    .is_empty());
    assert!(rect_of_one_annotation(Object::Integer(4)).is_empty());
}

#[test]
fn annotations_of_all_pages_and_the_pages_that_hold_them() {
    let doc = document_with_annotations();
    let found = extract_annotations(&doc);
    let places: Vec<(u32, &str)> = found.iter().map(|a| (a.page, a.subtype.as_str())).collect();
    assert_eq!(places, vec![(2, "Link"), (2, "Text"), (3, "")]);
    let whole = extract_all(&doc);
    assert_eq!(whole.annotation_pages, vec![2, 3]);
    assert_eq!(whole.image_pages, Vec::<u32>::new());
    assert_eq!(whole.annotations.len(), 3);
    assert_eq!(whole.text.len(), 3);
    assert_eq!(whole.structured_text.len(), 3);
    let handed = pdfdown::types::PdfDocument::from_raw(whole);
    assert_eq!(handed.total_annotations, 3);
    assert_eq!(handed.total_images, 0);
    assert_eq!(handed.annotation_pages, vec![2, 3]);
    assert_eq!(handed.version, "1.5");
}
