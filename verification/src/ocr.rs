//! Text recognition as a fallback: which pages need it, what goes to the
//! recognition engine, and what becomes of its answers. The engine itself
//! is called by the program around this library.

use vstd::prelude::*;
use image::DynamicImage;
use lopdf::Document;
use crate::images::{are_page_rasters, collect_page_decoded_images};
use crate::pdf::native_page_text;
use crate::sorting::Ranked;
use crate::strings::{
    char_is_whitespace, is_whitespace, join_lines, push_range, string_of, to_chars, trim_range,
    trimmed,
};
use crate::text::{detect_headers_footers, extract_page_text, footer_stripped, is_structured};
use crate::types::{OcrOptions, OcrPageText, OcrStructuredPageText, PageText, TextSource};

verus! {

impl Ranked for OcrPageText {
    open spec fn sort_key(&self) -> int {
        self.page as int
    }

    fn key(&self) -> (k: u64) {
        self.page as u64
    }
}

/// The number of worker threads where the caller names none.
pub const DEFAULT_THREADS: u32 = 4;

/// The number of characters that are not whitespace where the caller names
/// none: one such character makes a page a page with text.
pub const DEFAULT_MIN_TEXT_LENGTH: u32 = 1;

/// The number of worker threads for a request: what the caller asks for, 4
/// where the caller asks for nothing, but at least 1 and at most as many as
/// the machine can run at once, 4 where that is not known.
pub open spec fn threads_for(requested: Option<u32>, available: Option<u32>) -> u32 {
    let wanted = match requested {
        Some(n) => n,
        None => DEFAULT_THREADS,
    };
    let most = match available {
        Some(n) => n,
        None => DEFAULT_THREADS,
    };
    if wanted > most && most >= 1 {
        most
    } else if wanted < 1 || most < 1 {
        1
    } else {
        wanted
    }
}

/// Brings the number of worker threads that a caller asks for into the range
/// that the machine allows.
pub fn normalize_max_threads(requested: Option<u32>, available: Option<u32>) -> (r: u32)
    ensures
        r == threads_for(requested, available),
        r >= 1,
        available is Some && available->0 >= 1 ==> r <= available->0,
{
    let wanted: u32 = match requested {
        Some(n) => n,
        None => DEFAULT_THREADS,
    };
    let most: u32 = match available {
        Some(n) => n,
        None => DEFAULT_THREADS,
    };
    if wanted > most && most >= 1 {
        most
    } else if wanted < 1 || most < 1 {
        1
    } else {
        wanted
    }
}

/// What a request for text recognition comes to once what the caller left
/// open is filled in.
#[derive(Debug)]
pub struct OcrSettings {
    pub lang: String,
    pub min_text_length: u32,
    pub max_threads: u32,
}

/// The language that is read where the caller names none.
pub open spec fn default_language() -> Seq<char> {
    "eng"@
}

/// `settings` is what `options` come to on a machine that can run
/// `available` threads at once: the language, or English; the least number
/// of characters that make a page a page with text, or 1; and the number of
/// worker threads, brought into range.
pub open spec fn are_settings(
    options: Option<OcrOptions>,
    available: Option<u32>,
    settings: OcrSettings,
) -> bool {
    let lang = match options {
        Some(given) => given.lang,
        None => None,
    };
    let min_text_length = match options {
        Some(given) => given.min_text_length,
        None => None,
    };
    let max_threads = match options {
        Some(given) => given.max_threads,
        None => None,
    };
    &&& settings.lang@ == match lang {
        Some(name) => name@,
        None => default_language(),
    }
    &&& settings.min_text_length == match min_text_length {
        Some(n) => n,
        None => DEFAULT_MIN_TEXT_LENGTH,
    }
    &&& settings.max_threads == threads_for(max_threads, available)
}

/// Fills in what a caller has left open.
pub fn ocr_settings(options: Option<OcrOptions>, available: Option<u32>) -> (r: OcrSettings)
    ensures
        are_settings(options, available, r),
{
    let (lang, min_text_length, max_threads) = match options {
        Some(given) => (given.lang, given.min_text_length, given.max_threads),
        None => (None, None, None),
    };
    OcrSettings {
        lang: match lang {
            Some(name) => name,
            None => "eng".to_owned(),
        },
        min_text_length: match min_text_length {
            Some(n) => n,
            None => DEFAULT_MIN_TEXT_LENGTH,
        },
        max_threads: normalize_max_threads(max_threads, available),
    }
}

/// How many of the first `n` characters of `text` are not whitespace.
pub open spec fn visible_chars(text: Seq<char>, n: int) -> int
    decreases n,
{
    if n <= 0 {
        0
    } else {
        visible_chars(text, n - 1) + if is_whitespace(text[n - 1]) {
            0int
        } else {
            1int
        }
    }
}

/// Where the text of a page comes from: the page itself where it holds at
/// least `min_len` characters that are not whitespace, and recognition of
/// its images where it holds fewer.
pub open spec fn source_for(text: Seq<char>, min_len: u32) -> TextSource {
    if visible_chars(text, text.len() as int) >= min_len {
        TextSource::Native
    } else {
        TextSource::Ocr
    }
}

/// Counts the characters of `text` that are not whitespace.
pub fn count_visible(text: &str) -> (r: usize)
    ensures
        r == visible_chars(text@, text@.len() as int),
{
    let chars = to_chars(text);
    let mut count: usize = 0;
    let mut i: usize = 0;
    while i < chars.len()
        invariant
            i <= chars@.len(),
            count == visible_chars(chars@, i as int),
            count <= i,
        decreases chars@.len() - i,
    {
        if !char_is_whitespace(chars[i]) {
            count += 1;
        }
        i += 1;
    }
    count
}

/// Decides whether the text of a page is taken as it is or its images are
/// read.
pub fn choose_text_source(text: &str, min_len: u32) -> (r: TextSource)
    ensures
        r == source_for(text@, min_len),
{
    if count_visible(text) >= min_len as usize {
        TextSource::Native
    } else {
        TextSource::Ocr
    }
}

/// What is to be done for a page: its text is handed out as it is, or its
/// images go to the recognition engine.
pub enum PagePlan {
    Native(OcrPageText),
    Recognize(Vec<DynamicImage>),
}

/// The text of a page of a document whose number of pages is written
/// `count`, without the split footers.
pub open spec fn native_text_of(doc: Document, page: u32, count: Seq<char>) -> Seq<char> {
    footer_stripped(
        match native_page_text(doc, page) {
            Some(text) => text,
            None => Seq::empty(),
        },
        count,
    )
}

/// Plans the work for one page: a page with enough text keeps its text, and
/// of any other page the images are decoded for recognition.
pub fn plan_page(
    doc: &Document,
    page_num: u32,
    page_id: (u32, u16),
    page_count_str: &str,
    min_len: u32,
) -> (r: PagePlan)
    ensures
        match r {
            PagePlan::Native(found) => {
                &&& source_for(native_text_of(*doc, page_num, page_count_str@), min_len)
                    == TextSource::Native
                &&& found.page == page_num
                &&& found.text@ == native_text_of(*doc, page_num, page_count_str@)
                &&& found.source == TextSource::Native
            },
            PagePlan::Recognize(images) => {
                &&& source_for(native_text_of(*doc, page_num, page_count_str@), min_len)
                    == TextSource::Ocr
                &&& are_page_rasters(*doc, page_id, images@)
            },
        },
{
    let native = extract_page_text(doc, page_num, page_count_str);
    match choose_text_source(native.as_str(), min_len) {
        TextSource::Native => PagePlan::Native(
            OcrPageText { page: page_num, text: native, source: TextSource::Native },
        ),
        TextSource::Ocr => PagePlan::Recognize(collect_page_decoded_images(doc, page_id)),
    }
}

/// The answers among the first `n` of `outputs` that hold more than
/// whitespace, trimmed, in order.
pub open spec fn recognized_lines(outputs: Seq<String>, n: int) -> Seq<Seq<char>>
    decreases n,
{
    if n <= 0 {
        Seq::empty()
    } else if trimmed(outputs[n - 1]@).len() > 0 {
        recognized_lines(outputs, n - 1).push(trimmed(outputs[n - 1]@))
    } else {
        recognized_lines(outputs, n - 1)
    }
}

/// The text that recognition gives for a page: the answers for its images,
/// trimmed, those that are empty left out, joined by line feeds.
pub open spec fn recognized_text(outputs: Seq<String>) -> Seq<char> {
    join_lines(recognized_lines(outputs, outputs.len() as int))
}

/// Joins the answers of the recognition engine for the images of a page.
pub fn join_ocr_texts(outputs: &Vec<String>) -> (r: String)
    ensures
        r@ == recognized_text(outputs@),
{
    let mut out: Vec<char> = Vec::new();
    let mut first: bool = true;
    let mut i: usize = 0;
    while i < outputs.len()
        invariant
            i <= outputs@.len(),
            first == (recognized_lines(outputs@, i as int).len() == 0),
            out@ == join_lines(recognized_lines(outputs@, i as int)),
        decreases outputs@.len() - i,
    {
        let chars = to_chars(outputs[i].as_str());
        assert(chars@.subrange(0, chars@.len() as int) == chars@);
        let (a, b) = trim_range(&chars, 0, chars.len());
        if b > a {
            let ghost before = recognized_lines(outputs@, i as int);
            if !first {
                out.push('\n');
            }
            push_range(&mut out, &chars, a, b);
            proof {
                let after = before.push(trimmed(outputs@[i as int]@));
                assert(after.drop_last() == before);
            }
            first = false;
        }
        i += 1;
    }
    string_of(&out)
}

/// Makes the text of a page of what recognition has answered for its
/// images.
pub fn finish_page(page_num: u32, outputs: &Vec<String>) -> (r: OcrPageText)
    ensures
        r.page == page_num,
        r.text@ == recognized_text(outputs@),
        r.source == TextSource::Ocr,
{
    OcrPageText { page: page_num, text: join_ocr_texts(outputs), source: TextSource::Ocr }
}

/// The position of the first quotation mark in `text` from `from` on, or
/// the length of `text` if there is none.
pub open spec fn next_quote(text: Seq<char>, from: int) -> int
    decreases text.len() - from,
{
    if from < 0 || from >= text.len() || text[from] == '"' {
        from
    } else {
        next_quote(text, from + 1)
    }
}

/// What stands between the first two quotation marks of `text`.
pub open spec fn quoted(text: Seq<char>) -> Option<Seq<char>> {
    let start = next_quote(text, 0);
    let end = next_quote(text, start + 1);
    if start < text.len() && end < text.len() {
        Some(text.subrange(start + 1, end))
    } else {
        None
    }
}

/// `text` holds a quotation mark.
pub open spec fn has_quote(text: Seq<char>) -> bool {
    next_quote(text, 0) < text.len()
}

/// The directory of the language data as the recognition engine names it
/// when it lists its languages: the path in quotation marks in what it
/// writes to its error stream, or to its output where the error stream
/// holds none.
pub open spec fn listed_data_path(errors: Seq<char>, output: Seq<char>) -> Option<Seq<char>> {
    if has_quote(errors) {
        quoted(errors)
    } else {
        quoted(output)
    }
}

/// The directory of the language data: what the environment names goes
/// before what the engine lists.
pub open spec fn data_path(
    environment: Option<Seq<char>>,
    listing: Option<(Seq<char>, Seq<char>)>,
) -> Option<Seq<char>> {
    match environment {
        Some(path) => Some(path),
        None => match listing {
            Some((errors, output)) => listed_data_path(errors, output),
            None => None,
        },
    }
}

/// Finds the next quotation mark.
fn find_quote(chars: &Vec<char>, from: usize) -> (r: usize)
    requires
        from <= chars@.len(),
    ensures
        r == next_quote(chars@, from as int),
        from <= r <= chars@.len(),
{
    let mut i: usize = from;
    while i < chars.len() && chars[i] != '"'
        invariant
            from <= i <= chars@.len(),
            next_quote(chars@, from as int) == next_quote(chars@, i as int),
        decreases chars@.len() - i,
    {
        i += 1;
    }
    i
}

/// Takes what stands between the first two quotation marks.
fn take_quoted(chars: &Vec<char>) -> (r: Option<String>)
    ensures
        r is Some == quoted(chars@) is Some,
        r is Some ==> r->0@ == quoted(chars@)->0,
{
    let start = find_quote(chars, 0);
    if start >= chars.len() {
        return None;
    }
    let end = find_quote(chars, start + 1);
    if end >= chars.len() {
        return None;
    }
    let mut out: Vec<char> = Vec::new();
    push_range(&mut out, chars, start + 1, end);
    Some(string_of(&out))
}

/// Reads the directory of the language data from what the recognition
/// engine writes when it lists its languages.
pub fn parse_tessdata_listing(errors: &str, output: &str) -> (r: Option<String>)
    ensures
        r is Some == listed_data_path(errors@, output@) is Some,
        r is Some ==> r->0@ == listed_data_path(errors@, output@)->0,
{
    let error_chars = to_chars(errors);
    if find_quote(&error_chars, 0) < error_chars.len() {
        take_quoted(&error_chars)
    } else {
        let output_chars = to_chars(output);
        take_quoted(&output_chars)
    }
}

/// Chooses the directory of the language data. `environment` is what the
/// environment names, `listing` what the engine writes to its error stream
/// and to its output when it lists its languages, if it could be run.
pub fn get_tessdata_prefix(environment: Option<String>, listing: Option<(String, String)>) -> (r:
    Option<String>)
    ensures
        r is Some == data_path(
            match environment {
                Some(path) => Some(path@),
                None => None,
            },
            match listing {
                Some((errors, output)) => Some((errors@, output@)),
                None => None,
            },
        ) is Some,
        r is Some ==> r->0@ == data_path(
            match environment {
                Some(path) => Some(path@),
                None => None,
            },
            match listing {
                Some((errors, output)) => Some((errors@, output@)),
                None => None,
            },
        )->0,
{
    match environment {
        Some(path) => Some(path),
        None => match listing {
            Some((errors, output)) => parse_tessdata_listing(errors.as_str(), output.as_str()),
            None => None,
        },
    }
}

/// The pages `pages` as texts without their sources.
pub open spec fn plain_texts(pages: Seq<OcrPageText>, texts: Seq<PageText>) -> bool {
    &&& texts.len() == pages.len()
    &&& forall|i: int|
        0 <= i < texts.len() ==> (#[trigger] texts[i]).page == pages[i].page && texts[i].text@
            == pages[i].text@
}

/// `parted` are the pages `pages`, each parted into header, body and footer
/// as their texts are by `detect_headers_footers`, and each with its source.
pub open spec fn are_structured_pages(
    pages: Seq<OcrPageText>,
    parted: Seq<OcrStructuredPageText>,
) -> bool {
    &&& parted.len() == pages.len()
    &&& exists|texts: Seq<PageText>|
        {
            &&& #[trigger] plain_texts(pages, texts)
            &&& forall|i: int|
                0 <= i < parted.len() ==> {
                    &&& (#[trigger] parted[i]).source == pages[i].source
                    &&& is_structured(
                        texts,
                        i,
                        crate::types::StructuredPageText {
                            page: parted[i].page,
                            header: parted[i].header,
                            body: parted[i].body,
                            footer: parted[i].footer,
                        },
                    )
                }
        }
}

/// Parts the texts of the pages into header, body and footer as
/// `detect_headers_footers` does, and keeps the source of each page.
pub fn detect_headers_footers_ocr(pages: &Vec<OcrPageText>) -> (r: Vec<OcrStructuredPageText>)
    ensures
        are_structured_pages(pages@, r@),
{
    let mut texts: Vec<PageText> = Vec::new();
    let mut i: usize = 0;
    while i < pages.len()
        invariant
            i <= pages@.len(),
            texts@.len() == i,
            forall|k: int|
                0 <= k < i ==> (#[trigger] texts@[k]).page == pages@[k].page && texts@[k].text@
                    == pages@[k].text@,
        decreases pages@.len() - i,
    {
        texts.push(PageText { page: pages[i].page, text: pages[i].text.clone() });
        i += 1;
    }
    let structured = detect_headers_footers(&texts);
    let ghost parted = structured@;
    let mut out: Vec<OcrStructuredPageText> = Vec::new();
    for page in it: structured
        invariant
            it.seq() == parted,
            parted.len() == pages@.len(),
            out@.len() == it.index(),
            forall|k: int|
                0 <= k < out@.len() ==> {
                    &&& (#[trigger] out@[k]).source == pages@[k].source
                    &&& out@[k].page == parted[k].page
                    &&& out@[k].header == parted[k].header
                    &&& out@[k].body == parted[k].body
                    &&& out@[k].footer == parted[k].footer
                },
    {
        let source = pages[out.len()].source;
        out.push(
            OcrStructuredPageText {
                page: page.page,
                header: page.header,
                body: page.body,
                footer: page.footer,
                source,
            },
        );
    }
    proof {
        assert(plain_texts(pages@, texts@));
    }
    out
}

} // verus!
