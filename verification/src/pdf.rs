//! The parsed document as extraction sees it: objects as plain values, and
//! the calls into the PDF object-model library that hand them out.

use vstd::prelude::*;
use vstd::string::StringSliceAdditionalSpecFns;
use lopdf::{Dictionary, Document, Object};

verus! {

/// A PDF object. A number with a fraction is held by the bit pattern of its
/// IEEE 754 binary32 value.
#[derive(Debug)]
pub enum PdfObject {
    Null,
    Boolean(bool),
    Integer(i64),
    Real(u32),
    Name(Vec<u8>),
    Str(Vec<u8>),
    Array(Vec<PdfObject>),
    Dictionary(PdfDict),
    Stream(PdfStream),
    Reference((u32, u16)),
}

/// A dictionary: keys with their values, in the order of the document.
#[derive(Debug)]
pub struct PdfDict {
    pub entries: Vec<(Vec<u8>, PdfObject)>,
}

/// A stream: its dictionary and its bytes as stored.
#[derive(Debug)]
pub struct PdfStream {
    pub dict: PdfDict,
    pub content: Vec<u8>,
}

/// One operation of a content stream.
#[derive(Debug)]
pub struct Operation {
    pub operator: String,
    pub operands: Vec<PdfObject>,
}

/// The value of the first of `entries`, from position `from` on, whose key is
/// `key`.
pub open spec fn find_entry(entries: Seq<(Vec<u8>, PdfObject)>, key: Seq<u8>, from: int) -> Option<
    PdfObject,
>
    decreases entries.len() - from,
{
    if from < 0 || from >= entries.len() {
        None
    } else if entries[from].0@ == key {
        Some(entries[from].1)
    } else {
        find_entry(entries, key, from + 1)
    }
}

/// Compares two byte strings.
pub fn bytes_eq(a: &[u8], b: &[u8]) -> (r: bool)
    ensures
        r == (a@ == b@),
{
    if a.len() != b.len() {
        return false;
    }
    let mut i: usize = 0;
    while i < a.len()
        invariant
            a@.len() == b@.len(),
            i <= a@.len(),
            forall|j: int| 0 <= j < i ==> a@[j] == b@[j],
        decreases a@.len() - i,
    {
        if a[i] != b[i] {
            return false;
        }
        i += 1;
    }
    assert(a@ =~= b@);
    true
}

impl PdfDict {
    /// The value stored under `key`, if there is one.
    pub open spec fn lookup(self, key: Seq<u8>) -> Option<PdfObject> {
        find_entry(self.entries@, key, 0)
    }

    /// The value stored under the key that `name` spells.
    pub open spec fn named(self, name: &str) -> Option<PdfObject> {
        self.lookup(name.spec_bytes())
    }

    /// Where the first entry with `key` stands.
    fn position(&self, key: &[u8]) -> (r: Option<usize>)
        ensures
            r is Some == self.lookup(key@) is Some,
            r is Some ==> r->0 < self.entries@.len() && self.lookup(key@) == Some(
                self.entries@[r->0 as int].1,
            ),
    {
        let mut i: usize = 0;
        while i < self.entries.len()
            invariant
                i <= self.entries@.len(),
                self.lookup(key@) == find_entry(self.entries@, key@, i as int),
            decreases self.entries@.len() - i,
        {
            if bytes_eq(self.entries[i].0.as_slice(), key) {
                return Some(i);
            }
            i += 1;
        }
        None
    }

    /// Looks `key` up.
    pub fn get(&self, key: &[u8]) -> (r: Option<&PdfObject>)
        ensures
            r is Some == self.lookup(key@) is Some,
            r is Some ==> *r->0 == self.lookup(key@)->0,
    {
        match self.position(key) {
            Some(i) => Some(&self.entries[i].1),
            None => None,
        }
    }

    /// Looks up the key that `name` spells.
    pub fn get_named(&self, name: &str) -> (r: Option<&PdfObject>)
        ensures
            r is Some == self.named(name) is Some,
            r is Some ==> *r->0 == self.named(name)->0,
    {
        self.get(name.as_bytes())
    }

    /// Takes out the value stored under the key that `name` spells.
    pub fn take_named(self, name: &str) -> (r: Option<PdfObject>)
        ensures
            r == self.named(name),
    {
        match self.position(name.as_bytes()) {
            Some(i) => {
                let mut entries = self.entries;
                let entry = entries.swap_remove(i);
                Some(entry.1)
            },
            None => None,
        }
    }
}

/// `lopdf::Document`, a parsed document. Nothing of its inside is seen
/// here: what it holds is asked of it through the calls below.
#[verifier::external_type_specification]
#[verifier::external_body]
pub struct ExDocument(Document);

/// `lopdf::Object`, an object of a parsed document, before it is converted.
#[verifier::external_type_specification]
#[verifier::external_body]
pub struct ExObject(Object);

/// `lopdf::Dictionary`, a dictionary of a parsed document, before it is
/// converted.
#[verifier::external_type_specification]
#[verifier::external_body]
pub struct ExDictionary(Dictionary);

/// `lopdf::Error`, what the object-model library reports when it fails.
#[verifier::external_type_specification]
#[verifier::external_body]
pub struct ExError(lopdf::Error);

/// What `Document::get_object` finds under `id`, as a plain value: the
/// object stored there, with references followed to the object they lead to;
/// `None` where the document has no such object or the references do not end.
pub uninterp spec fn resolved_object(doc: Document, id: (u32, u16)) -> Option<PdfObject>;

/// What `Document::get_pages` gives: the page numbers with the ids of their
/// page objects, in ascending order of page number.
pub uninterp spec fn document_pages(doc: Document) -> Seq<(u32, (u32, u16))>;

/// The trailer dictionary of the document, as a plain value.
pub uninterp spec fn document_trailer(doc: Document) -> PdfDict;

/// The version that the document states.
pub uninterp spec fn document_version(doc: Document) -> Seq<char>;

/// What `Document::get_page_annotations` gives for the page object `page_id`:
/// the annotation dictionaries of the page as plain values, or `None` where
/// the call fails.
pub uninterp spec fn page_annotation_dicts(doc: Document, page_id: (u32, u16)) -> Option<
    Seq<PdfDict>,
>;

/// What `Document::extract_text` gives for the one page `page`, or `None`
/// where the call fails.
pub uninterp spec fn native_page_text(doc: Document, page: u32) -> Option<Seq<char>>;

/// The bytes of the stream under `id` once `Stream::decompress` has undone
/// its filters; `None` where `id` leads to no stream or the call fails.
pub uninterp spec fn decompressed_stream(doc: Document, id: (u32, u16)) -> Option<Seq<u8>>;

/// The operations that `Content::decode` reads from the bytes of a content
/// stream, or `None` where it cannot read them.
pub uninterp spec fn content_operations(bytes: Seq<u8>) -> Option<Vec<Operation>>;

/// The dictionary of the stream that the document holds under `id`.
pub open spec fn stream_dict_at(doc: Document, id: (u32, u16)) -> Option<PdfDict> {
    match resolved_object(doc, id) {
        Some(PdfObject::Stream(stream)) => Some(stream.dict),
        _ => None,
    }
}

/// Converts an object of the document to a plain value. Every variant
/// becomes the variant of the same name with the same contents; of a string
/// only the bytes are kept, of a stream the dictionary and the bytes.
#[verifier::external_body]
pub(crate) fn convert_object(object: &Object) -> PdfObject {
    match object {
        Object::Null => PdfObject::Null,
        Object::Boolean(b) => PdfObject::Boolean(*b),
        Object::Integer(i) => PdfObject::Integer(*i),
        Object::Real(x) => PdfObject::Real(x.to_bits()),
        Object::Name(n) => PdfObject::Name(n.clone()),
        Object::String(s, _) => PdfObject::Str(s.clone()),
        Object::Array(a) => PdfObject::Array(a.iter().map(convert_object).collect()),
        Object::Dictionary(d) => PdfObject::Dictionary(convert_dictionary(d)),
        Object::Stream(s) => PdfObject::Stream(
            PdfStream { dict: convert_dictionary(&s.dict), content: s.content.clone() },
        ),
        Object::Reference(id) => PdfObject::Reference(*id),
    }
}

/// Converts a dictionary of the document to a plain value: its entries in
/// their order, each value converted.
#[verifier::external_body]
pub(crate) fn convert_dictionary(dict: &Dictionary) -> PdfDict {
    PdfDict { entries: dict.iter().map(|(k, v)| (k.clone(), convert_object(v))).collect() }
}

/// `Document::load_mem`: reads a document from the bytes of a PDF file.
/// Large files are read on several threads, and where a file holds an object
/// twice, which copy is kept may depend on their pace: nothing is said of
/// the document that comes back.
#[verifier::external_body]
pub(crate) fn load_document(bytes: &[u8]) -> Result<Document, lopdf::Error> {
    Document::load_mem(bytes)
}

/// The message of an error of the object-model library.
#[verifier::external_body]
pub(crate) fn error_message(error: &lopdf::Error) -> String {
    format!("{error}")
}

/// `Document::get_object`: the object under `id`, references followed.
#[verifier::external_body]
pub(crate) fn fetch_object(doc: &Document, id: (u32, u16)) -> (r: Option<PdfObject>)
    ensures
        r == resolved_object(*doc, id),
{
    doc.get_object(id).ok().map(convert_object)
}

/// `Document::get_object`, and of the stream that it finds the dictionary
/// alone.
#[verifier::external_body]
pub(crate) fn fetch_stream_dict(doc: &Document, id: (u32, u16)) -> (r: Option<PdfDict>)
    ensures
        r == stream_dict_at(*doc, id),
{
    Some(convert_dictionary(&doc.get_object(id).ok()?.as_stream().ok()?.dict))
}

/// `Document::get_pages`: the pages in ascending order of page number. The
/// library numbers the pages from 1 in the order of the page tree, so page
/// `i` of the list has number `i + 1` unless there are more pages than a
/// `u32` can count.
#[verifier::external_body]
pub(crate) fn page_list(doc: &Document) -> (r: Vec<(u32, (u32, u16))>)
    ensures
        r@ == document_pages(*doc),
        forall|i: int, j: int| 0 <= i < j < r@.len() ==> r@[i].0 < r@[j].0,
        r@.len() <= u32::MAX ==> forall|i: int| 0 <= i < r@.len() ==> r@[i].0 == i + 1,
{
    doc.get_pages().into_iter().collect()
}

/// The trailer dictionary of the document.
#[verifier::external_body]
pub(crate) fn trailer(doc: &Document) -> (r: PdfDict)
    ensures
        r == document_trailer(*doc),
{
    convert_dictionary(&doc.trailer)
}

/// The version of the document.
#[verifier::external_body]
pub(crate) fn version(doc: &Document) -> (r: String)
    ensures
        r@ == document_version(*doc),
{
    doc.version.clone()
}

/// `Document::get_page_annotations`: the annotation dictionaries of a page.
#[verifier::external_body]
pub(crate) fn page_annotations(doc: &Document, page_id: (u32, u16)) -> (r: Option<Vec<PdfDict>>)
    ensures
        r is Some == page_annotation_dicts(*doc, page_id) is Some,
        r is Some ==> r->0@ == page_annotation_dicts(*doc, page_id)->0,
{
    let found = doc.get_page_annotations(page_id).ok()?;
    Some(found.into_iter().map(convert_dictionary).collect())
}

/// `Document::extract_text` for one page.
#[verifier::external_body]
pub(crate) fn page_text(doc: &Document, page: u32) -> (r: Option<String>)
    ensures
        r is Some == native_page_text(*doc, page) is Some,
        r is Some ==> r->0@ == native_page_text(*doc, page)->0,
{
    doc.extract_text(&[page]).ok()
}

/// `Stream::decompress` on a copy of the stream under `id`: the bytes with
/// the stream's filters undone. There are none where `id` leads to no stream.
#[verifier::external_body]
pub(crate) fn decompress_stream(doc: &Document, id: (u32, u16)) -> (r: Option<Vec<u8>>)
    ensures
        r is Some == decompressed_stream(*doc, id) is Some,
        r is Some ==> r->0@ == decompressed_stream(*doc, id)->0,
        r is Some ==> stream_dict_at(*doc, id) is Some,
{
    let mut stream = doc.get_object(id).ok()?.as_stream().ok()?.clone();
    stream.decompress().ok()?;
    Some(stream.content)
}

/// `Content::decode`: the operations of a content stream, each with its
/// operator and its operands as plain values.
#[verifier::external_body]
pub(crate) fn decode_content(bytes: &[u8]) -> (r: Option<Vec<Operation>>)
    ensures
        r == content_operations(bytes@),
{
    let content = lopdf::content::Content::decode(bytes).ok()?;
    Some(
        content.operations.iter().map(
            |op|
                Operation {
                    operator: op.operator.clone(),
                    operands: op.operands.iter().map(convert_object).collect(),
                },
        ).collect(),
    )
}

} // verus!
