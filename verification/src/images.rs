//! The images of a page: every image XObject that the page paints, decoded
//! and encoded as PNG.

use vstd::prelude::*;
use image::DynamicImage;
use lopdf::Document;
use crate::encoding::{decimal, lossy_text, push_decimal, utf8_lossy};
use crate::pdf::{
    decompress_stream, decompressed_stream, document_pages, fetch_object, page_list,
    resolved_object, PdfDict, PdfObject, PdfStream,
};
use crate::pixels::{
    channel_count, channels_of, classify_color_space, color_kind, data_of,
    decode_xobject_to_dynamic_image, decoded_image, encode_to_png, png_of,
};
use crate::resolve::{get_page_xobjects, page_xobjects};
use crate::scan::{get_referenced_xobject_names, names_of, page_painted};
use crate::sorting::{is_sorted, is_strictly_sorted, lemma_sorted_stays, sort_by_key, Ranked};
use crate::streams::{
    color_space_of, decompress_stream_content, dict_u32, filter_of, get_dict_u32,
    get_smask_data, has_image_subtype, is_image, resolve_color_space, resolve_filter,
    smask_data, stream_content,
};
use crate::strings::{string_of, text_eq};
use crate::types::RawPageImage;

verus! {

/// An image as contracts speak of it.
pub struct ImageView {
    pub page: u32,
    pub image_index: u32,
    pub width: u32,
    pub height: u32,
    pub data: Seq<u8>,
    pub color_space: Seq<char>,
    pub bits_per_component: u32,
    pub filter: Seq<char>,
    pub xobject_name: Seq<char>,
    pub object_id: Seq<char>,
}

impl View for RawPageImage {
    type V = ImageView;

    open spec fn view(&self) -> ImageView {
        ImageView {
            page: self.page,
            image_index: self.image_index,
            width: self.width,
            height: self.height,
            data: self.data@,
            color_space: self.color_space@,
            bits_per_component: self.bits_per_component,
            filter: self.filter@,
            xobject_name: self.xobject_name@,
            object_id: self.object_id@,
        }
    }
}

impl Ranked for RawPageImage {
    open spec fn sort_key(&self) -> int {
        self.page * 0x1_0000_0000 + self.image_index
    }

    fn key(&self) -> (k: u64) {
        (self.page as u64) * 0x1_0000_0000 + (self.image_index as u64)
    }
}

/// The views of `images`, in order.
pub open spec fn image_views(images: Seq<RawPageImage>) -> Seq<ImageView> {
    Seq::new(images.len(), |i: int| images[i]@)
}

/// How an object is written in the file: number, generation and `obj`.
pub open spec fn object_label(id: (u32, u16)) -> Seq<char> {
    decimal(id.0 as nat) + seq![' '] + decimal(id.1 as nat) + seq![' ', 'o', 'b', 'j']
}

/// The filter names an encoding that a codec reads as it is stored.
pub open spec fn is_encoded(filter: Seq<char>) -> bool {
    filter == "DCTDecode"@ || filter == "JPXDecode"@
}

/// The bytes of an image stream that go to the decoder: as stored for JPEG
/// and JPEG 2000, and else with compression and predictor undone.
pub open spec fn image_content(
    doc: Document,
    id: (u32, u16),
    stream: PdfStream,
    width: u32,
    height: u32,
    bpc: u32,
) -> Seq<u8> {
    let color_space = color_space_of(doc, stream.dict);
    if is_encoded(filter_of(stream.dict)) {
        stream.content@
    } else {
        stream_content(
            doc,
            id,
            stream,
            width,
            height,
            channels_of(color_kind(color_space)) as u32,
            bpc,
        )
    }
}

/// The image stream that an entry of the XObject dictionary refers to: a
/// stream with the subtype `Image` whose width and height are not zero.
pub open spec fn image_stream(doc: Document, object: PdfObject) -> Option<((u32, u16), PdfStream)> {
    match object {
        PdfObject::Reference(id) => match resolved_object(doc, id) {
            Some(PdfObject::Stream(stream)) => if is_image(stream.dict) && dict_u32(
                stream.dict,
                "Width",
                0,
            ) != 0 && dict_u32(stream.dict, "Height", 0) != 0 {
                Some((id, stream))
            } else {
                None
            },
            _ => None,
        },
        _ => None,
    }
}

/// The image that the XObject `name` gives on page `page` as image number
/// `index`, where it is an image that decodes. `jpx` is what the JPEG 2000
/// decoder gives, if it is asked.
pub open spec fn xobject_image(
    doc: Document,
    page: u32,
    index: u32,
    name: Seq<u8>,
    object: PdfObject,
    jpx: Option<DynamicImage>,
) -> Option<ImageView> {
    match image_stream(doc, object) {
        None => None,
        Some((id, stream)) => {
            let width = dict_u32(stream.dict, "Width", 0);
            let height = dict_u32(stream.dict, "Height", 0);
            let bpc = dict_u32(stream.dict, "BitsPerComponent", 8);
            let color_space = color_space_of(doc, stream.dict);
            let filter = filter_of(stream.dict);
            match png_of(
                image_content(doc, id, stream, width, height, bpc),
                width,
                height,
                bpc,
                color_space,
                filter,
                smask_data(doc, stream.dict),
                jpx,
            ) {
                None => None,
                Some(png) => Some(
                    ImageView {
                        page,
                        image_index: index,
                        width,
                        height,
                        data: png,
                        color_space,
                        bits_per_component: bpc,
                        filter,
                        xobject_name: utf8_lossy(name),
                        object_id: object_label(id),
                    },
                ),
            }
        },
    }
}

/// All entries of an XObject dictionary, in the order of the dictionary.
pub open spec fn declared_entries(xobjects: PdfDict) -> Seq<(Seq<u8>, PdfObject)> {
    Seq::new(xobjects.entries@.len(), |i: int| (xobjects.entries@[i].0@, xobjects.entries@[i].1))
}

/// The entries of an XObject dictionary that `names` name, in the order of
/// `names`. A name that the dictionary does not hold gives none.
pub open spec fn painted_entries(xobjects: PdfDict, names: Seq<Seq<u8>>) -> Seq<(Seq<u8>, PdfObject)>
    decreases names.len(),
{
    if names.len() == 0 {
        Seq::empty()
    } else {
        let before = painted_entries(xobjects, names.drop_last());
        match xobjects.lookup(names.last()) {
            Some(object) => before.push((names.last(), object)),
            None => before,
        }
    }
}

/// The XObjects that are looked at, given the names that the page paints:
/// those that it paints, in the order in which it first paints them; or,
/// where the scan of the page has found none painted, all that the
/// dictionary holds, in its order.
pub open spec fn candidates_in(xobjects: PdfDict, names: Seq<Seq<u8>>) -> Seq<(Seq<u8>, PdfObject)> {
    if names.len() == 0 {
        declared_entries(xobjects)
    } else {
        painted_entries(xobjects, names)
    }
}

/// The XObjects of a page that are looked at.
pub open spec fn page_candidates(doc: Document, page_id: (u32, u16)) -> Seq<(Seq<u8>, PdfObject)> {
    match page_xobjects(doc, page_id) {
        Some(xobjects) => candidates_in(xobjects, page_painted(doc, page_id)),
        None => Seq::empty(),
    }
}

/// `before` with the image that the XObject `name` gives, if it gives one.
/// No page has more images than a `u32` can number.
pub open spec fn with_image(
    doc: Document,
    page: u32,
    before: Seq<ImageView>,
    name: Seq<u8>,
    object: PdfObject,
    jpx: Option<DynamicImage>,
) -> Seq<ImageView> {
    if before.len() < u32::MAX {
        match xobject_image(doc, page, before.len() as u32, name, object, jpx) {
            Some(image) => before.push(image),
            None => before,
        }
    } else {
        before
    }
}

/// The images that `candidates` give, in their order, numbered from 0.
/// `jpx` holds, for each of them, what the JPEG 2000 decoder gives if it is
/// asked.
pub open spec fn images_of(
    doc: Document,
    page: u32,
    candidates: Seq<(Seq<u8>, PdfObject)>,
    jpx: Seq<Option<DynamicImage>>,
) -> Seq<ImageView>
    decreases candidates.len(),
{
    if candidates.len() == 0 {
        Seq::empty()
    } else {
        with_image(
            doc,
            page,
            images_of(doc, page, candidates.drop_last(), jpx.drop_last()),
            candidates.last().0,
            candidates.last().1,
            jpx.last(),
        )
    }
}

/// The images of a page, where the JPEG 2000 decoder gives `jpx`.
pub open spec fn page_images(
    doc: Document,
    page_id: (u32, u16),
    page: u32,
    jpx: Seq<Option<DynamicImage>>,
) -> Seq<ImageView> {
    images_of(doc, page, page_candidates(doc, page_id), jpx)
}

/// `images` are the images of a page: in the order in which the page first
/// paints them, each as its stream and the codecs give it. What the JPEG
/// 2000 decoder gives for an image is not fixed by the document.
pub open spec fn are_page_images(
    doc: Document,
    page_id: (u32, u16),
    page: u32,
    images: Seq<ImageView>,
) -> bool {
    exists|jpx: Seq<Option<DynamicImage>>|
        jpx.len() == page_candidates(doc, page_id).len() && images == #[trigger] page_images(
            doc,
            page_id,
            page,
            jpx,
        )
}

/// The images of the first `n` of `pages`, page after page, where the JPEG
/// 2000 decoder gives `jpx[k]` on the page `pages[k]`.
pub open spec fn images_of_pages(
    doc: Document,
    pages: Seq<(u32, (u32, u16))>,
    n: int,
    jpx: Seq<Seq<Option<DynamicImage>>>,
) -> Seq<ImageView>
    decreases n,
{
    if n <= 0 {
        Seq::empty()
    } else {
        images_of_pages(doc, pages, n - 1, jpx) + page_images(
            doc,
            pages[n - 1].1,
            pages[n - 1].0,
            jpx[n - 1],
        )
    }
}

/// `images` are the images of the document, page after page.
pub open spec fn are_images_of(doc: Document, images: Seq<ImageView>) -> bool {
    exists|jpx: Seq<Seq<Option<DynamicImage>>>|
        jpx.len() == document_pages(doc).len() && images == #[trigger] images_of_pages(
            doc,
            document_pages(doc),
            document_pages(doc).len() as int,
            jpx,
        )
}

/// The images of the first pages do not depend on what the decoder gives on
/// the pages that follow.
proof fn lemma_images_of_first_pages(
    doc: Document,
    pages: Seq<(u32, (u32, u16))>,
    n: int,
    jpx: Seq<Seq<Option<DynamicImage>>>,
    next: Seq<Option<DynamicImage>>,
)
    requires
        n <= jpx.len(),
    ensures
        images_of_pages(doc, pages, n, jpx.push(next)) == images_of_pages(doc, pages, n, jpx),
    decreases n,
{
    if n > 0 {
        lemma_images_of_first_pages(doc, pages, n - 1, jpx, next);
        assert(jpx.push(next)[n - 1] == jpx[n - 1]);
    }
}

/// The images that candidates give are numbered from 0 without a gap, and
/// all stand on the page.
pub proof fn lemma_images_numbered(
    doc: Document,
    page: u32,
    candidates: Seq<(Seq<u8>, PdfObject)>,
    jpx: Seq<Option<DynamicImage>>,
)
    ensures
        images_of(doc, page, candidates, jpx).len() <= u32::MAX,
        forall|i: int|
            0 <= i < images_of(doc, page, candidates, jpx).len() ==> {
                &&& (#[trigger] images_of(doc, page, candidates, jpx)[i]).image_index == i
                &&& images_of(doc, page, candidates, jpx)[i].page == page
            },
    decreases candidates.len(),
{
    if candidates.len() > 0 {
        lemma_images_numbered(doc, page, candidates.drop_last(), jpx.drop_last());
    }
}

/// The entries that the first `n` names give stand at the front of the
/// entries that all of them give: a name that stands later gives a later
/// entry.
pub proof fn lemma_entries_follow_names(xobjects: PdfDict, names: Seq<Seq<u8>>, n: int)
    requires
        0 <= n <= names.len(),
    ensures
        painted_entries(xobjects, names.take(n)).is_prefix_of(painted_entries(xobjects, names)),
    decreases names.len(),
{
    if n == names.len() {
        assert(names.take(n) =~= names);
    } else {
        lemma_entries_follow_names(xobjects, names.drop_last(), n);
        assert(names.drop_last().take(n) =~= names.take(n));
    }
}

/// The images that the first `n` candidates give stand at the front of the
/// images that all of them give: a candidate that stands later gives a later
/// image.
pub proof fn lemma_images_follow_candidates(
    doc: Document,
    page: u32,
    candidates: Seq<(Seq<u8>, PdfObject)>,
    jpx: Seq<Option<DynamicImage>>,
    n: int,
)
    requires
        0 <= n <= candidates.len(),
        jpx.len() == candidates.len(),
    ensures
        images_of(doc, page, candidates.take(n), jpx.take(n)).is_prefix_of(
            images_of(doc, page, candidates, jpx),
        ),
    decreases candidates.len(),
{
    if n == candidates.len() {
        assert(candidates.take(n) =~= candidates);
        assert(jpx.take(n) =~= jpx);
    } else {
        lemma_images_follow_candidates(doc, page, candidates.drop_last(), jpx.drop_last(), n);
        assert(candidates.drop_last().take(n) =~= candidates.take(n));
        assert(jpx.drop_last().take(n) =~= jpx.take(n));
    }
}

/// Writes an object as number, generation and `obj`.
fn label_object(id: (u32, u16)) -> (r: String)
    ensures
        r@ == object_label(id),
{
    let mut out: Vec<char> = Vec::new();
    push_decimal(&mut out, id.0 as u64);
    out.push(' ');
    push_decimal(&mut out, id.1 as u64);
    out.push(' ');
    out.push('o');
    out.push('b');
    out.push('j');
    assert(out@ =~= object_label(id));
    string_of(&out)
}

/// Fetches the image stream that an entry of the XObject dictionary refers
/// to.
fn fetch_image_stream(doc: &Document, object: &PdfObject) -> (r: Option<((u32, u16), PdfStream)>)
    ensures
        r == image_stream(*doc, *object),
{
    match object {
        PdfObject::Reference(id) => match fetch_object(doc, *id) {
            Some(PdfObject::Stream(stream)) => {
                if has_image_subtype(&stream.dict) && get_dict_u32(&stream.dict, "Width", 0) != 0
                    && get_dict_u32(&stream.dict, "Height", 0) != 0 {
                    Some((*id, stream))
                } else {
                    None
                }
            },
            _ => None,
        },
        _ => None,
    }
}

/// The view of an image, if there is one.
pub open spec fn image_of(image: Option<RawPageImage>) -> Option<ImageView> {
    match image {
        Some(found) => Some(found@),
        None => None,
    }
}

/// Decodes one XObject, if it is an image. Beside the image stands what the
/// JPEG 2000 decoder has given.
fn extract_xobject_image(
    doc: &Document,
    page: u32,
    index: u32,
    name: &Vec<u8>,
    object: &PdfObject,
) -> (r: (Option<RawPageImage>, Ghost<Option<DynamicImage>>))
    ensures
        image_of(r.0) == xobject_image(*doc, page, index, name@, *object, r.1@),
{
    let (id, stream) = match fetch_image_stream(doc, object) {
        Some(found) => found,
        None => {
            return (None, Ghost(None));
        },
    };
    let width = get_dict_u32(&stream.dict, "Width", 0);
    let height = get_dict_u32(&stream.dict, "Height", 0);
    let bpc = get_dict_u32(&stream.dict, "BitsPerComponent", 8);
    let color_space = resolve_color_space(&stream.dict, doc);
    let filter = resolve_filter(&stream.dict);
    let channels = channel_count(classify_color_space(color_space.as_str()));
    let smask = get_smask_data(doc, &stream.dict);
    let encoded: bool = text_eq(filter.as_str(), "DCTDecode") || text_eq(
        filter.as_str(),
        "JPXDecode",
    );
    let ghost given = stream;
    let content: Vec<u8> = if encoded {
        stream.content
    } else {
        decompress_stream_content(doc, id, stream, width, height, channels, bpc)
    };
    assert(content@ == image_content(*doc, id, given, width, height, bpc));
    let png = match &smask {
        Some(mask) => encode_to_png(
            content.as_slice(),
            width,
            height,
            bpc,
            color_space.as_str(),
            filter.as_str(),
            Some(mask.as_slice()),
        ),
        None => encode_to_png(
            content.as_slice(),
            width,
            height,
            bpc,
            color_space.as_str(),
            filter.as_str(),
            None,
        ),
    };
    let ghost jpx = choose|jpx: Option<DynamicImage>|
        data_of(png) == #[trigger] png_of(
            content@,
            width,
            height,
            bpc,
            color_space@,
            filter@,
            smask_data(*doc, given.dict),
            jpx,
        );
    match png {
        None => (None, Ghost(jpx)),
        Some(data) => (
            Some(
                RawPageImage {
                    page,
                    image_index: index,
                    width,
                    height,
                    data,
                    color_space,
                    bits_per_component: bpc,
                    filter,
                    xobject_name: lossy_text(name.as_slice()),
                    object_id: label_object(id),
                },
            ),
            Ghost(jpx),
        ),
    }
}

/// The names and objects that `list` refers to.
pub open spec fn entries_of(list: Seq<(&Vec<u8>, &PdfObject)>) -> Seq<(Seq<u8>, PdfObject)> {
    Seq::new(list.len(), |k: int| (list[k].0@, *list[k].1))
}

/// Lists the XObjects that are looked at: those that `names` name, in the
/// order of `names`, or all of the dictionary where there are no names.
pub fn list_candidates<'a>(xobjects: &'a PdfDict, names: &'a Vec<Vec<u8>>) -> (r: Vec<
    (&'a Vec<u8>, &'a PdfObject),
>)
    ensures
        entries_of(r@) == candidates_in(*xobjects, names_of(names@)),
{
    let mut list: Vec<(&'a Vec<u8>, &'a PdfObject)> = Vec::new();
    if names.len() == 0 {
        let ghost declared = declared_entries(*xobjects);
        let mut i: usize = 0;
        while i < xobjects.entries.len()
            invariant
                i <= xobjects.entries@.len(),
                declared == declared_entries(*xobjects),
                entries_of(list@) == declared.take(i as int),
            decreases xobjects.entries@.len() - i,
        {
            let ghost before = list@;
            let name = &xobjects.entries[i].0;
            let object = &xobjects.entries[i].1;
            list.push((name, object));
            assert(list@ == before.push((name, object)));
            assert(entries_of(list@) =~= entries_of(before).push((name@, *object)));
            assert(declared[i as int] == (name@, *object));
            assert(entries_of(list@) =~= declared.take(i + 1));
            i += 1;
        }
        assert(declared.take(i as int) =~= declared);
    } else {
        let ghost painted = names_of(names@);
        let mut j: usize = 0;
        assert(painted.take(0) =~= Seq::<Seq<u8>>::empty());
        assert(entries_of(list@) =~= painted_entries(*xobjects, painted.take(0)));
        while j < names.len()
            invariant
                j <= names@.len(),
                painted == names_of(names@),
                entries_of(list@) == painted_entries(*xobjects, painted.take(j as int)),
            decreases names@.len() - j,
        {
            let ghost before = entries_of(list@);
            assert(painted.take(j + 1).drop_last() =~= painted.take(j as int));
            assert(painted.take(j + 1).last() == names@[j as int]@);
            match xobjects.get(names[j].as_slice()) {
                Some(object) => {
                    list.push((&names[j], object));
                    assert(entries_of(list@) =~= before.push((names@[j as int]@, *object)));
                },
                None => {},
            }
            j += 1;
        }
        assert(painted.take(j as int) =~= painted);
    }
    list
}

/// Adds the image that an XObject gives, if it gives one.
fn add_image(
    doc: &Document,
    page: u32,
    images: &mut Vec<RawPageImage>,
    name: &Vec<u8>,
    object: &PdfObject,
) -> (jpx: Ghost<Option<DynamicImage>>)
    ensures
        image_views(final(images)@) == with_image(
            *doc,
            page,
            image_views(old(images)@),
            name@,
            *object,
            jpx@,
        ),
{
    let ghost before = image_views(images@);
    if images.len() < u32::MAX as usize {
        let (found, jpx) = extract_xobject_image(doc, page, images.len() as u32, name, object);
        match found {
            Some(image) => {
                images.push(image);
                assert(image_views(images@) =~= before.push(image@));
            },
            None => {},
        }
        jpx
    } else {
        Ghost(None)
    }
}

/// Gathers the images of a page: the image XObjects that the page paints,
/// in the order in which it first paints them, or all its image XObjects
/// where the scan of the page has found none painted. An image that does not
/// decode is left out.
pub fn collect_page_images_raw(doc: &Document, page_id: (u32, u16), page_num: u32) -> (r: Vec<
    RawPageImage,
>)
    ensures
        are_page_images(*doc, page_id, page_num, image_views(r@)),
        r@.len() <= u32::MAX,
        forall|i: int|
            0 <= i < r@.len() ==> (#[trigger] r@[i]).image_index == i && r@[i].page == page_num,
{
    let mut images: Vec<RawPageImage> = Vec::new();
    let ghost mut jpx: Seq<Option<DynamicImage>> = Seq::empty();
    let xobjects = match get_page_xobjects(doc, page_id) {
        Some(found) => found,
        None => {
            assert(image_views(images@) =~= page_images(*doc, page_id, page_num, jpx));
            return images;
        },
    };
    let referenced = get_referenced_xobject_names(doc, page_id);
    let candidates = list_candidates(&xobjects, &referenced);
    let ghost all = page_candidates(*doc, page_id);
    let mut k: usize = 0;
    assert(image_views(images@) =~= images_of(*doc, page_num, all.take(0), jpx));
    while k < candidates.len()
        invariant
            k <= candidates@.len(),
            entries_of(candidates@) == all,
            jpx.len() == k,
            image_views(images@) == images_of(*doc, page_num, all.take(k as int), jpx),
        decreases candidates@.len() - k,
    {
        let (name, object) = candidates[k];
        let outcome = add_image(doc, page_num, &mut images, name, object);
        proof {
            assert(all.take(k + 1).drop_last() =~= all.take(k as int));
            assert(all.take(k + 1).last() == (name@, *object));
            assert(jpx.push(outcome@).drop_last() =~= jpx);
            jpx = jpx.push(outcome@);
        }
        k += 1;
    }
    proof {
        assert(all.take(k as int) =~= all);
        lemma_images_numbered(*doc, page_num, all, jpx);
        assert(image_views(images@) == page_images(*doc, page_id, page_num, jpx));
        assert forall|i: int| 0 <= i < images@.len() implies (#[trigger] images@[i]).image_index
            == i && images@[i].page == page_num by {
            assert(image_views(images@)[i] == images@[i]@);
        }
    }
    images
}

/// The bytes of an image stream as they go to the decoder where the
/// object-model library undoes the filters: as stored for JPEG and JPEG
/// 2000 and where the library fails, and else as the library gives them.
pub open spec fn library_content(doc: Document, id: (u32, u16), stream: PdfStream) -> Seq<u8> {
    if is_encoded(filter_of(stream.dict)) {
        stream.content@
    } else {
        match decompressed_stream(doc, id) {
            Some(bytes) => bytes,
            None => stream.content@,
        }
    }
}

/// The raster that an XObject gives, without its soft mask. `jpx` is what
/// the JPEG 2000 decoder gives, if it is asked.
pub open spec fn xobject_raster(doc: Document, object: PdfObject, jpx: Option<DynamicImage>) -> Option<
    DynamicImage,
> {
    match image_stream(doc, object) {
        None => None,
        Some((id, stream)) => decoded_image(
            library_content(doc, id, stream),
            dict_u32(stream.dict, "Width", 0),
            dict_u32(stream.dict, "Height", 0),
            dict_u32(stream.dict, "BitsPerComponent", 8),
            color_space_of(doc, stream.dict),
            filter_of(stream.dict),
            None,
            jpx,
        ),
    }
}

/// The rasters that `candidates` give, in their order. `jpx` holds, for
/// each of them, what the JPEG 2000 decoder gives if it is asked.
pub open spec fn rasters_of(
    doc: Document,
    candidates: Seq<(Seq<u8>, PdfObject)>,
    jpx: Seq<Option<DynamicImage>>,
) -> Seq<DynamicImage>
    decreases candidates.len(),
{
    if candidates.len() == 0 {
        Seq::empty()
    } else {
        let before = rasters_of(doc, candidates.drop_last(), jpx.drop_last());
        match xobject_raster(doc, candidates.last().1, jpx.last()) {
            Some(image) => before.push(image),
            None => before,
        }
    }
}

/// `rasters` are the rasters of the images of a page, in the order in which
/// the page first paints them. What the JPEG 2000 decoder gives for an image
/// is not fixed by the document.
pub open spec fn are_page_rasters(doc: Document, page_id: (u32, u16), rasters: Seq<DynamicImage>) -> bool {
    exists|jpx: Seq<Option<DynamicImage>>|
        jpx.len() == page_candidates(doc, page_id).len() && rasters == #[trigger] rasters_of(
            doc,
            page_candidates(doc, page_id),
            jpx,
        )
}

/// Decodes one XObject to a raster, if it is an image. Beside the raster
/// stands what the JPEG 2000 decoder has given.
fn decode_xobject(doc: &Document, object: &PdfObject) -> (r: (
    Option<DynamicImage>,
    Ghost<Option<DynamicImage>>,
))
    ensures
        r.0 == xobject_raster(*doc, *object, r.1@),
{
    let (id, stream) = match fetch_image_stream(doc, object) {
        Some(found) => found,
        None => {
            return (None, Ghost(None));
        },
    };
    let width = get_dict_u32(&stream.dict, "Width", 0);
    let height = get_dict_u32(&stream.dict, "Height", 0);
    let bpc = get_dict_u32(&stream.dict, "BitsPerComponent", 8);
    let color_space = resolve_color_space(&stream.dict, doc);
    let filter = resolve_filter(&stream.dict);
    let encoded: bool = text_eq(filter.as_str(), "DCTDecode") || text_eq(
        filter.as_str(),
        "JPXDecode",
    );
    let content: Vec<u8> = if encoded {
        stream.content
    } else {
        match decompress_stream(doc, id) {
            Some(bytes) => bytes,
            None => stream.content,
        }
    };
    let raster = decode_xobject_to_dynamic_image(
        content.as_slice(),
        width,
        height,
        bpc,
        color_space.as_str(),
        filter.as_str(),
        None,
    );
    let ghost jpx = choose|jpx: Option<DynamicImage>|
        raster == #[trigger] decoded_image(
            content@,
            width,
            height,
            bpc,
            color_space@,
            filter@,
            None,
            jpx,
        );
    (raster, Ghost(jpx))
}

/// Decodes the images of a page to rasters, for text recognition. The soft
/// masks are left out: recognition looks at the colors alone.
pub fn collect_page_decoded_images(doc: &Document, page_id: (u32, u16)) -> (r: Vec<DynamicImage>)
    ensures
        are_page_rasters(*doc, page_id, r@),
{
    let mut decoded: Vec<DynamicImage> = Vec::new();
    let ghost mut jpx: Seq<Option<DynamicImage>> = Seq::empty();
    let xobjects = match get_page_xobjects(doc, page_id) {
        Some(found) => found,
        None => {
            assert(decoded@ =~= rasters_of(*doc, page_candidates(*doc, page_id), jpx));
            return decoded;
        },
    };
    let referenced = get_referenced_xobject_names(doc, page_id);
    let candidates = list_candidates(&xobjects, &referenced);
    let ghost all = page_candidates(*doc, page_id);
    let mut k: usize = 0;
    assert(decoded@ =~= rasters_of(*doc, all.take(0), jpx));
    while k < candidates.len()
        invariant
            k <= candidates@.len(),
            entries_of(candidates@) == all,
            jpx.len() == k,
            decoded@ == rasters_of(*doc, all.take(k as int), jpx),
        decreases candidates@.len() - k,
    {
        let (_, object) = candidates[k];
        let (found, outcome) = decode_xobject(doc, object);
        proof {
            assert(all.take(k + 1).drop_last() =~= all.take(k as int));
            assert(all.take(k + 1).last().1 == *object);
            assert(jpx.push(outcome@).drop_last() =~= jpx);
            jpx = jpx.push(outcome@);
        }
        match found {
            Some(image) => {
                decoded.push(image);
            },
            None => {},
        }
        k += 1;
    }
    proof {
        assert(all.take(k as int) =~= all);
    }
    decoded
}

/// The images stand page after page in ascending order of the pages, and
/// on each page they are numbered from 0 without a gap.
pub open spec fn numbered_by_page(images: Seq<RawPageImage>) -> bool {
    forall|k: int|
        0 <= k < images.len() ==> (#[trigger] images[k]).image_index == if k > 0 && images[k
            - 1].page == images[k].page {
            images[k - 1].image_index + 1
        } else {
            0
        }
}

/// Extracts the images of all pages, in ascending order of the pages and,
/// on a page, in the order of their numbers.
pub fn extract_images_raw(doc: &Document) -> (r: Vec<RawPageImage>)
    ensures
        are_images_of(*doc, image_views(r@)),
        is_strictly_sorted(r@),
        numbered_by_page(r@),
        forall|k: int|
            0 <= k < r@.len() ==> exists|p: int|
                0 <= p < document_pages(*doc).len() && document_pages(*doc)[p].0 == (
                #[trigger] r@[k]).page,
        document_pages(*doc).len() <= u32::MAX ==> forall|k: int|
            0 <= k < r@.len() ==> 1 <= (#[trigger] r@[k]).page <= document_pages(*doc).len(),
{
    let pages = page_list(doc);
    let mut all: Vec<RawPageImage> = Vec::new();
    let ghost mut jpx: Seq<Seq<Option<DynamicImage>>> = Seq::empty();
    let mut i: usize = 0;
    assert(image_views(all@) =~= images_of_pages(*doc, pages@, 0, jpx));
    while i < pages.len()
        invariant
            i <= pages@.len(),
            pages@ == document_pages(*doc),
            forall|a: int, b: int| 0 <= a < b < pages@.len() ==> pages@[a].0 < pages@[b].0,
            pages@.len() <= u32::MAX ==> forall|p: int|
                0 <= p < pages@.len() ==> (#[trigger] pages@[p]).0 == p + 1,
            jpx.len() == i,
            image_views(all@) == images_of_pages(*doc, pages@, i as int, jpx),
            is_strictly_sorted(all@),
            numbered_by_page(all@),
            forall|k: int|
                0 <= k < all@.len() ==> exists|p: int|
                    0 <= p < i && pages@[p].0 == (#[trigger] all@[k]).page,
        decreases pages@.len() - i,
    {
        let (page_num, page_id) = pages[i];
        let mut found = collect_page_images_raw(doc, page_id, page_num);
        let ghost before = all@;
        let ghost block = found@;
        all.append(&mut found);
        proof {
            let next = choose|next: Seq<Option<DynamicImage>>|
                next.len() == page_candidates(*doc, page_id).len() && image_views(block)
                    == #[trigger] page_images(*doc, page_id, page_num, next);
            lemma_images_of_first_pages(*doc, pages@, i as int, jpx, next);
            jpx = jpx.push(next);
            assert(all@ == before + block);
            assert(image_views(all@) =~= image_views(before) + image_views(block));
            assert forall|k: int| 0 <= k < all@.len() implies exists|p: int|
                0 <= p < i + 1 && pages@[p].0 == (#[trigger] all@[k]).page by {
                if k < before.len() {
                    assert(all@[k] == before[k]);
                    let p = choose|p: int| 0 <= p < i && pages@[p].0 == before[k].page;
                    assert(pages@[p].0 == all@[k].page);
                } else {
                    assert(all@[k] == block[k - before.len()]);
                    assert(pages@[i as int].0 == all@[k].page);
                }
            }
            assert forall|k: int| 0 <= k < before.len() implies (#[trigger] before[k]).page
                < page_num by {
                let p = choose|p: int| 0 <= p < i && pages@[p].0 == before[k].page;
            }
            assert forall|a: int, b: int| 0 <= a < b < all@.len() implies all@[a].sort_key()
                < all@[b].sort_key() by {
                if b < before.len() {
                    assert(all@[a] == before[a] && all@[b] == before[b]);
                } else if a < before.len() {
                    assert(all@[a] == before[a]);
                    assert(all@[b] == block[b - before.len()]);
                    assert(before[a].page < page_num);
                } else {
                    assert(all@[a] == block[a - before.len()]);
                    assert(all@[b] == block[b - before.len()]);
                }
            }
            assert forall|k: int| 0 <= k < all@.len() implies (#[trigger] all@[k]).image_index
                == if k > 0 && all@[k - 1].page == all@[k].page {
                all@[k - 1].image_index + 1
            } else {
                0
            } by {
                if k < before.len() {
                    assert(all@[k] == before[k]);
                    if k > 0 {
                        assert(all@[k - 1] == before[k - 1]);
                    }
                } else {
                    assert(all@[k] == block[k - before.len()]);
                    if k > before.len() {
                        assert(all@[k - 1] == block[k - 1 - before.len()]);
                    } else if k > 0 {
                        assert(all@[k - 1] == before[k - 1]);
                        assert(before[k - 1].page < page_num);
                    }
                }
            }
        }
        i += 1;
    }
    let ghost gathered = all@;
    sort_by_key(&mut all);
    proof {
        assert(is_sorted(gathered));
        lemma_sorted_stays(gathered, gathered.len() as int);
        assert(gathered.take(gathered.len() as int) =~= gathered);
        if pages@.len() <= u32::MAX {
            assert forall|k: int| 0 <= k < gathered.len() implies 1 <= (
            #[trigger] gathered[k]).page <= pages@.len() by {
                let p = choose|p: int| 0 <= p < pages@.len() && pages@[p].0 == gathered[k].page;
                assert(pages@[p].0 == p + 1);
            }
        }
    }
    all
}

} // verus!
