use pdfdown::document::extract_all_with_ocr;
use pdfdown::ocr::{
    choose_text_source, count_visible, detect_headers_footers_ocr, finish_page,
    get_tessdata_prefix, join_ocr_texts, normalize_max_threads, ocr_settings,
    parse_tessdata_listing, plan_page, PagePlan, DEFAULT_MIN_TEXT_LENGTH, DEFAULT_THREADS,
};
use pdfdown::types::{OcrOptions, OcrPageText, PdfDocumentOcr, TextSource};

#[test]
fn threads_are_brought_into_range() {
    assert_eq!(DEFAULT_THREADS, 4);
    assert_eq!(normalize_max_threads(None, Some(8)), 4);
    assert_eq!(normalize_max_threads(None, Some(2)), 2);
    assert_eq!(normalize_max_threads(None, None), 4);
    assert_eq!(normalize_max_threads(Some(0), Some(8)), 1);
    assert_eq!(normalize_max_threads(Some(1), Some(8)), 1);
    assert_eq!(normalize_max_threads(Some(8), Some(8)), 8);
    assert_eq!(normalize_max_threads(Some(9), Some(8)), 8);
    assert_eq!(normalize_max_threads(Some(16), None), 4);
    assert_eq!(normalize_max_threads(Some(3), None), 3);
    assert_eq!(normalize_max_threads(Some(u32::MAX), Some(1)), 1);
    assert_eq!(normalize_max_threads(Some(5), Some(0)), 1);
}

#[test]
fn visible_characters_are_counted() {
    assert_eq!(count_visible(""), 0);
    assert_eq!(count_visible(" \t\r\n\u{a0}\u{2003}\u{3000}"), 0);
    assert_eq!(count_visible("a b\nc"), 3);
    assert_eq!(count_visible("ä ✓ \u{200b}"), 3);
    for text in ["", "abc", " a\u{85}b\u{1680}c\u{2028}d\u{2029}e\u{202f}f\u{205f}g\u{feff}"] {
        assert_eq!(count_visible(text), text.chars().filter(|c| !c.is_whitespace()).count());
    }
}

#[test]
fn pages_with_enough_text_keep_it() {
    assert_eq!(DEFAULT_MIN_TEXT_LENGTH, 1);
    assert_eq!(choose_text_source("", 1), TextSource::Ocr);
    assert_eq!(choose_text_source("  \n ", 1), TextSource::Ocr);
    assert_eq!(choose_text_source(" a ", 1), TextSource::Native);
    assert_eq!(choose_text_source("", 0), TextSource::Native);
    assert_eq!(choose_text_source("a b c", 3), TextSource::Native);
    assert_eq!(choose_text_source("a b c", 4), TextSource::Ocr);
}

#[test]
fn answers_of_the_engine_are_joined() {
    let none: Vec<String> = vec![];
    assert_eq!(join_ocr_texts(&none), "");
    let outputs: Vec<String> =
        ["  first image \n", "", " \n\t", "second\nimage", "\u{a0}third"].iter().map(|s| s.to_string()).collect();
    assert_eq!(join_ocr_texts(&outputs), "first image\nsecond\nimage\nthird");
    let page = finish_page(7, &outputs);
    assert_eq!(page.page, 7);
    assert_eq!(page.text, "first image\nsecond\nimage\nthird");
    assert_eq!(page.source, TextSource::Ocr);
}

#[test]
fn data_path_is_read_from_the_listing() {
    let listing = "List of available languages in \"/usr/share/tesseract-ocr/5/tessdata/\" (161):\nafr\neng\n";
    assert_eq!(
        parse_tessdata_listing(listing, "").as_deref(),
        Some("/usr/share/tesseract-ocr/5/tessdata/")
    );
    assert_eq!(
        parse_tessdata_listing("no path here", listing).as_deref(),
        Some("/usr/share/tesseract-ocr/5/tessdata/")
    );
    assert_eq!(parse_tessdata_listing("only \"one mark", listing), None);
    assert_eq!(parse_tessdata_listing("", ""), None);
    assert_eq!(parse_tessdata_listing("", "\"\"").as_deref(), Some(""));
    assert_eq!(parse_tessdata_listing("a \"b\" c \"d\"", "").as_deref(), Some("b"));
    assert_eq!(parse_tessdata_listing("\"ä/ö\"", "").as_deref(), Some("ä/ö"));
}

#[test]
fn data_path_of_the_environment_goes_first() {
    let listing = Some(("in \"/listed\"".to_string(), String::new()));
    assert_eq!(
        get_tessdata_prefix(Some("/from/env".to_string()), listing.clone()).as_deref(),
        Some("/from/env")
    );
    assert_eq!(get_tessdata_prefix(None, listing).as_deref(), Some("/listed"));
    assert_eq!(get_tessdata_prefix(None, None), None);
    assert_eq!(get_tessdata_prefix(None, Some(("x".to_string(), "y".to_string()))), None);
}

fn recognized(texts: &[(&str, TextSource)]) -> Vec<OcrPageText> {
    texts
        .iter()
        .enumerate()
        .map(|(i, (text, source))| OcrPageText {
            page: i as u32 + 1,
            text: text.to_string(),
            source: *source,
        })
        .collect()
}

#[test]
fn recognized_pages_are_parted_and_keep_their_source() {
    let pages = recognized(&[
        ("Title\none\nPage 1", TextSource::Native),
        ("Title\ntwo\nPage 2", TextSource::Ocr),
        ("Title\nthree\nPage 3", TextSource::Native),
    ]);
    let found = detect_headers_footers_ocr(&pages);
    assert_eq!(found.len(), 3);
    assert_eq!(found[1].page, 2);
    assert_eq!(found[1].header, "Title");
    assert_eq!(found[1].body, "two");
    assert_eq!(found[1].footer, "Page 2");
    assert_eq!(found[0].source, TextSource::Native);
    assert_eq!(found[1].source, TextSource::Ocr);
    assert_eq!(found[2].source, TextSource::Native);
    let found = detect_headers_footers_ocr(&recognized(&[("Title\none", TextSource::Ocr)]));
    assert_eq!(found[0].header, "");
    assert_eq!(found[0].body, "Title\none");
    assert_eq!(found[0].source, TextSource::Ocr);
}

#[test]
fn a_document_with_recognized_text() {
    let mut doc = lopdf::Document::with_version("1.7");
    let pages_id = doc.new_object_id();
    let image = lopdf::Stream::new(
        {
            let mut d = lopdf::Dictionary::new();
            d.set("Subtype", lopdf::Object::Name(b"Image".to_vec()));
            d.set("Width", lopdf::Object::Integer(1));
            d.set("Height", lopdf::Object::Integer(1));
            d.set("ColorSpace", lopdf::Object::Name(b"DeviceGray".to_vec()));
            d
        },
        vec![42],
    );
    let image_id = doc.add_object(image);
    let mut xobjects = lopdf::Dictionary::new();
    xobjects.set("Scan", lopdf::Object::Reference(image_id));
    let mut resources = lopdf::Dictionary::new();
    resources.set("XObject", lopdf::Object::Dictionary(xobjects));
    let mut page = lopdf::Dictionary::new();
    page.set("Type", lopdf::Object::Name(b"Page".to_vec()));
    page.set("Parent", lopdf::Object::Reference(pages_id));
    page.set("Resources", lopdf::Object::Dictionary(resources));
    let page_id = doc.add_object(page);
    let mut pages = lopdf::Dictionary::new();
    pages.set("Type", lopdf::Object::Name(b"Pages".to_vec()));
    pages.set("Kids", lopdf::Object::Array(vec![lopdf::Object::Reference(page_id)]));
    pages.set("Count", lopdf::Object::Integer(1));
    doc.objects.insert(pages_id, lopdf::Object::Dictionary(pages));
    let mut catalog = lopdf::Dictionary::new();
    catalog.set("Type", lopdf::Object::Name(b"Catalog".to_vec()));
    catalog.set("Pages", lopdf::Object::Reference(pages_id));
    let catalog_id = doc.add_object(catalog);
    doc.trailer.set("Root", lopdf::Object::Reference(catalog_id));

    // The page has no text: its image goes to recognition.
    let plan = plan_page(&doc, 1, page_id, "1", 1);
    let images = match plan {
        PagePlan::Recognize(images) => images,
        PagePlan::Native(_) => panic!("the page has no text"),
    };
    assert_eq!(images.len(), 1);
    assert_eq!(images[0].to_luma8().into_raw(), vec![42]);
    // Nothing is asked of a page: its text, which is empty, is enough.
    match plan_page(&doc, 1, page_id, "1", 0) {
        PagePlan::Native(found) => {
            assert_eq!(found.page, 1);
            assert_eq!(found.text, "");
            assert_eq!(found.source, TextSource::Native);
        }
        PagePlan::Recognize(_) => panic!("no text is asked for"),
    }
    let text = vec![finish_page(1, &vec!["  read from the scan ".to_string()])];
    let found = extract_all_with_ocr(&doc, text);
    assert_eq!(found.text.len(), 1);
    assert_eq!(found.text[0].text, "read from the scan");
    assert_eq!(found.structured_text.len(), 1);
    assert_eq!(found.structured_text[0].body, "read from the scan");
    assert_eq!(found.structured_text[0].source, TextSource::Ocr);
    assert_eq!(found.images.len(), 1);
    assert_eq!(found.image_pages, vec![1]);
    assert!(found.annotation_pages.is_empty());
    assert_eq!(found.meta.page_count, 1);
    assert_eq!(found.meta.version, "1.7");
    let handed = PdfDocumentOcr::from_raw(found);
    assert_eq!(handed.total_images, 1);
    assert_eq!(handed.total_annotations, 0);
    assert_eq!(handed.text[0].source, TextSource::Ocr);
    assert_eq!(handed.images[0].xobject_name, "Scan");
}

#[test]
fn what_the_caller_leaves_open_is_filled_in() {
    let found = ocr_settings(None, Some(8));
    assert_eq!(found.lang, "eng");
    assert_eq!(found.min_text_length, 1);
    assert_eq!(found.max_threads, 4);
    let found = ocr_settings(
        Some(OcrOptions { lang: None, min_text_length: None, max_threads: None }),
        None,
    );
    assert_eq!((found.lang.as_str(), found.min_text_length, found.max_threads), ("eng", 1, 4));
    let found = ocr_settings(
        Some(OcrOptions {
            lang: Some("deu+fra".to_string()),
            min_text_length: Some(0),
            max_threads: Some(64),
        }),
        Some(16),
    );
    assert_eq!(found.lang, "deu+fra");
    assert_eq!(found.min_text_length, 0);
    assert_eq!(found.max_threads, 16);
}
