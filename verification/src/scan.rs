//! Scanning the content streams of a page for the XObjects that it paints.

use vstd::prelude::*;
use lopdf::Document;
use crate::pdf::{
    bytes_eq, content_operations, decode_content, decompress_stream, decompressed_stream,
    fetch_object, resolved_object, Operation, PdfObject,
};
use crate::resolve::{dict_at, get_dictionary};
use crate::strings::text_eq;

verus! {

/// The references among the first `n` of `items`, in order.
pub open spec fn references_in(items: Seq<PdfObject>, n: int) -> Seq<(u32, u16)>
    decreases n,
{
    if n <= 0 {
        Seq::empty()
    } else {
        match items[n - 1] {
            PdfObject::Reference(id) => references_in(items, n - 1).push(id),
            _ => references_in(items, n - 1),
        }
    }
}

/// The content streams of a page: what its dictionary holds under `Contents`,
/// a reference or an array of references. `None` where the page has no
/// dictionary or no such entry.
pub open spec fn page_contents(doc: Document, page_id: (u32, u16)) -> Option<Seq<(u32, u16)>> {
    match dict_at(doc, page_id) {
        None => None,
        Some(page) => match page.named("Contents") {
            Some(PdfObject::Reference(id)) => Some(seq![id]),
            Some(PdfObject::Array(items)) => Some(references_in(items@, items@.len() as int)),
            _ => None,
        },
    }
}

/// The bytes of a content stream: decompressed where that can be done, as
/// stored where not, and none where `id` leads to no stream.
pub open spec fn stream_bytes(doc: Document, id: (u32, u16)) -> Seq<u8> {
    match resolved_object(doc, id) {
        Some(PdfObject::Stream(stream)) => match decompressed_stream(doc, id) {
            Some(bytes) => bytes,
            None => stream.content@,
        },
        _ => Seq::empty(),
    }
}

/// The bytes of the first `n` of the streams `ids`, one after the other.
pub open spec fn joined_streams(doc: Document, ids: Seq<(u32, u16)>, n: int) -> Seq<u8>
    decreases n,
{
    if n <= 0 {
        Seq::empty()
    } else {
        joined_streams(doc, ids, n - 1) + stream_bytes(doc, ids[n - 1])
    }
}

/// The name that an operation paints: the first operand of a `Do`.
pub open spec fn painted_name(op: Operation) -> Option<Seq<u8>> {
    if op.operator@ == "Do"@ && op.operands@.len() > 0 {
        match op.operands@[0] {
            PdfObject::Name(name) => Some(name@),
            _ => None,
        }
    } else {
        None
    }
}

/// The operations of a page: those of all its content streams, read as one.
/// There are none where the page has no contents or they cannot be read.
pub open spec fn page_operations(doc: Document, page_id: (u32, u16)) -> Seq<Operation> {
    match page_contents(doc, page_id) {
        None => Seq::empty(),
        Some(ids) => match content_operations(joined_streams(doc, ids, ids.len() as int)) {
            Some(ops) => ops@,
            None => Seq::empty(),
        },
    }
}

/// One of the first `n` of `ops` paints `name`.
pub open spec fn paints(ops: Seq<Operation>, name: Seq<u8>, n: int) -> bool {
    exists|i: int| 0 <= i < n && i < ops.len() && painted_name(#[trigger] ops[i]) == Some(name)
}

/// The page paints the XObject `name`.
pub open spec fn is_painted(doc: Document, page_id: (u32, u16), name: Seq<u8>) -> bool {
    let ops = page_operations(doc, page_id);
    paints(ops, name, ops.len() as int)
}

/// The page paints some XObject.
pub open spec fn paints_any(doc: Document, page_id: (u32, u16)) -> bool {
    exists|name: Seq<u8>| is_painted(doc, page_id, name)
}

/// The names that the first `n` of `ops` paint, each once, in the order in
/// which they are first painted.
pub open spec fn painted_names(ops: Seq<Operation>, n: int) -> Seq<Seq<u8>>
    decreases n,
{
    if n <= 0 {
        Seq::empty()
    } else {
        let before = painted_names(ops, n - 1);
        match painted_name(ops[n - 1]) {
            Some(name) => if before.contains(name) {
                before
            } else {
                before.push(name)
            },
            None => before,
        }
    }
}

/// Where `name` is first painted among the first `n` of `ops`: the least
/// position of an operation that paints it, or `n` where there is none.
pub open spec fn first_paint(ops: Seq<Operation>, name: Seq<u8>, n: int) -> int
    decreases n,
{
    if n <= 0 {
        0
    } else {
        let before = first_paint(ops, name, n - 1);
        if before < n - 1 {
            before
        } else if painted_name(ops[n - 1]) == Some(name) {
            n - 1
        } else {
            n
        }
    }
}

/// The painted names stand in the order in which they are first painted:
/// each of them is painted, one that stands before another is first painted
/// before it, and every name that is painted is among them.
pub proof fn lemma_painted_names_in_paint_order(ops: Seq<Operation>, n: int)
    requires
        0 <= n <= ops.len(),
    ensures
        forall|k: int|
            0 <= k < painted_names(ops, n).len() ==> 0 <= first_paint(
                ops,
                #[trigger] painted_names(ops, n)[k],
                n,
            ) < n,
        forall|a: int, b: int|
            0 <= a < b < painted_names(ops, n).len() ==> first_paint(
                ops,
                #[trigger] painted_names(ops, n)[a],
                n,
            ) < first_paint(ops, #[trigger] painted_names(ops, n)[b], n),
        forall|name: Seq<u8>|
            0 <= #[trigger] first_paint(ops, name, n) <= n && (first_paint(ops, name, n) < n
                ==> painted_names(ops, n).contains(name)),
    decreases n,
{
    if n > 0 {
        lemma_painted_names_in_paint_order(ops, n - 1);
        let before = painted_names(ops, n - 1);
        let now = painted_names(ops, n);
        assert forall|k: int| 0 <= k < before.len() implies now[k] == before[k] && first_paint(
            ops,
            #[trigger] before[k],
            n,
        ) == first_paint(ops, before[k], n - 1) by {}
        assert forall|name: Seq<u8>|
            0 <= #[trigger] first_paint(ops, name, n) <= n && (first_paint(ops, name, n) < n
                ==> now.contains(name)) by {
            assert(0 <= first_paint(ops, name, n - 1) <= n - 1);
            if first_paint(ops, name, n) < n {
                if first_paint(ops, name, n - 1) < n - 1 {
                    let at = choose|k: int| 0 <= k < before.len() && before[k] == name;
                    assert(now[at] == name);
                } else {
                    assert(painted_name(ops[n - 1]) == Some(name));
                    if before.contains(name) {
                        let at = choose|k: int| 0 <= k < before.len() && before[k] == name;
                        assert(now[at] == name);
                    } else {
                        assert(now[before.len() as int] == name);
                    }
                }
            }
        }
        assert forall|k: int| 0 <= k < now.len() implies 0 <= first_paint(
            ops,
            #[trigger] now[k],
            n,
        ) < n by {
            if k < before.len() {
                assert(now[k] == before[k]);
            } else {
                assert(0 <= first_paint(ops, now[k], n - 1) <= n - 1);
            }
        }
        assert forall|a: int, b: int| 0 <= a < b < now.len() implies first_paint(
            ops,
            #[trigger] now[a],
            n,
        ) < first_paint(ops, #[trigger] now[b], n) by {
            assert(now[a] == before[a]);
            if b < before.len() {
                assert(now[b] == before[b]);
            } else {
                assert(!before.contains(now[b]));
                assert(0 <= first_paint(ops, now[b], n - 1) <= n - 1);
            }
        }
    }
}

/// The names of the XObjects that the page paints, each once, in the order
/// in which the page first paints them.
pub open spec fn page_painted(doc: Document, page_id: (u32, u16)) -> Seq<Seq<u8>> {
    let ops = page_operations(doc, page_id);
    painted_names(ops, ops.len() as int)
}

/// The byte strings that `names` hold, in order.
pub open spec fn names_of(names: Seq<Vec<u8>>) -> Seq<Seq<u8>> {
    Seq::new(names.len(), |i: int| names[i]@)
}

/// `name` is among `names`.
pub open spec fn has_name(names: Seq<Vec<u8>>, name: Seq<u8>) -> bool {
    exists|i: int| 0 <= i < names.len() && (#[trigger] names[i])@ == name
}

/// A name is among `names` exactly if it is among the byte strings that
/// they hold.
pub proof fn lemma_has_name(names: Seq<Vec<u8>>, name: Seq<u8>)
    ensures
        has_name(names, name) == names_of(names).contains(name),
{
    if has_name(names, name) {
        let at = choose|i: int| 0 <= i < names.len() && (#[trigger] names[i])@ == name;
        assert(names_of(names)[at] == name);
    }
    if names_of(names).contains(name) {
        let at = choose|i: int| 0 <= i < names_of(names).len() && names_of(names)[i] == name;
        assert(names[at]@ == name);
    }
}

/// Tells whether `name` is among `names`.
pub fn contains_name(names: &Vec<Vec<u8>>, name: &[u8]) -> (r: bool)
    ensures
        r == has_name(names@, name@),
{
    let mut i: usize = 0;
    while i < names.len()
        invariant
            i <= names@.len(),
            forall|j: int| 0 <= j < i ==> (#[trigger] names@[j])@ != name@,
        decreases names@.len() - i,
    {
        if bytes_eq(names[i].as_slice(), name) {
            return true;
        }
        i += 1;
    }
    false
}

/// Reads the bytes of a content stream.
fn read_stream(doc: &Document, id: (u32, u16)) -> (r: Vec<u8>)
    ensures
        r@ == stream_bytes(*doc, id),
{
    match decompress_stream(doc, id) {
        Some(bytes) => bytes,
        None => match fetch_object(doc, id) {
            Some(PdfObject::Stream(stream)) => stream.content,
            _ => Vec::new(),
        },
    }
}

/// Gathers the content streams of a page.
fn get_page_contents(doc: &Document, page_id: (u32, u16)) -> (r: Option<Vec<(u32, u16)>>)
    ensures
        r is Some == page_contents(*doc, page_id) is Some,
        r is Some ==> r->0@ == page_contents(*doc, page_id)->0,
{
    let page = match get_dictionary(doc, page_id) {
        Some(page) => page,
        None => {
            return None;
        },
    };
    match page.get_named("Contents") {
        Some(PdfObject::Reference(id)) => {
            let mut ids: Vec<(u32, u16)> = Vec::new();
            ids.push(*id);
            Some(ids)
        },
        Some(PdfObject::Array(items)) => {
            let mut ids: Vec<(u32, u16)> = Vec::new();
            let mut i: usize = 0;
            while i < items.len()
                invariant
                    i <= items@.len(),
                    ids@ == references_in(items@, i as int),
                decreases items@.len() - i,
            {
                match &items[i] {
                    PdfObject::Reference(id) => {
                        ids.push(*id);
                    },
                    _ => {},
                }
                i += 1;
            }
            Some(ids)
        },
        _ => None,
    }
}

/// Finds the names of the XObjects that the page paints, each once, in the
/// order in which the page first paints them. A page whose contents cannot
/// be read paints none.
pub fn get_referenced_xobject_names(doc: &Document, page_id: (u32, u16)) -> (r: Vec<Vec<u8>>)
    ensures
        names_of(r@) == page_painted(*doc, page_id),
        forall|name: Seq<u8>| has_name(r@, name) <==> is_painted(*doc, page_id, name),
        forall|i: int, j: int| 0 <= i < j < r@.len() ==> r@[i]@ != r@[j]@,
        r@.len() == 0 <==> !paints_any(*doc, page_id),
{
    let mut names: Vec<Vec<u8>> = Vec::new();
    assert(names_of(names@) =~= Seq::<Seq<u8>>::empty());
    let ids = match get_page_contents(doc, page_id) {
        Some(ids) => ids,
        None => {
            return names;
        },
    };
    let mut all_bytes: Vec<u8> = Vec::new();
    let mut i: usize = 0;
    while i < ids.len()
        invariant
            i <= ids@.len(),
            all_bytes@ == joined_streams(*doc, ids@, i as int),
        decreases ids@.len() - i,
    {
        let mut bytes = read_stream(doc, ids[i]);
        all_bytes.append(&mut bytes);
        i += 1;
    }
    let ops = match decode_content(all_bytes.as_slice()) {
        Some(ops) => ops,
        None => {
            return names;
        },
    };
    let mut k: usize = 0;
    while k < ops.len()
        invariant
            k <= ops@.len(),
            names_of(names@) == painted_names(ops@, k as int),
            forall|name: Seq<u8>| has_name(names@, name) <==> paints(ops@, name, k as int),
            forall|i: int, j: int| 0 <= i < j < names@.len() ==> names@[i]@ != names@[j]@,
        decreases ops@.len() - k,
    {
        let op = &ops[k];
        let ghost before = names@;
        if text_eq(op.operator.as_str(), "Do") && op.operands.len() > 0 {
            match &op.operands[0] {
                PdfObject::Name(name) => {
                    proof {
                        lemma_has_name(before, name@);
                    }
                    if !contains_name(&names, name.as_slice()) {
                        let mut copy: Vec<u8> = Vec::new();
                        copy.extend_from_slice(name.as_slice());
                        names.push(copy);
                        assert(names@[before.len() as int]@ == name@);
                        assert(names_of(names@) =~= names_of(before).push(name@));
                    }
                    assert(has_name(names@, name@)) by {
                        if has_name(before, name@) {
                            let at = choose|j: int|
                                0 <= j < before.len() && (#[trigger] before[j])@ == name@;
                        }
                    }
                },
                _ => {},
            }
        }
        proof {
            assert forall|name: Seq<u8>| has_name(names@, name) <==> paints(
                ops@,
                name,
                k + 1,
            ) by {
                if has_name(names@, name) {
                    let at = choose|j: int| 0 <= j < names@.len() && (#[trigger] names@[j])@ == name;
                    if at < before.len() {
                        assert(has_name(before, name));
                        let w = choose|j: int|
                            0 <= j < k && j < ops@.len() && painted_name(#[trigger] ops@[j])
                                == Some(name);
                    }
                }
                if paints(ops@, name, k + 1) {
                    let w = choose|j: int|
                        0 <= j < k + 1 && j < ops@.len() && painted_name(#[trigger] ops@[j])
                            == Some(name);
                    if w < k {
                        assert(has_name(before, name));
                        let at = choose|j: int|
                            0 <= j < before.len() && (#[trigger] before[j])@ == name;
                        assert(names@[at]@ == name);
                    }
                }
            }
        }
        k += 1;
    }
    proof {
        if names@.len() > 0 {
            assert(has_name(names@, names@[0]@));
            assert(is_painted(*doc, page_id, names@[0]@));
        }
        if paints_any(*doc, page_id) {
            let name = choose|name: Seq<u8>| is_painted(*doc, page_id, name);
            assert(has_name(names@, name));
        }
    }
    names
}

} // verus!
