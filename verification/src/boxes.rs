//! Grouping of the pages of a document by the box that gives them their
//! size.

use vstd::prelude::*;
use lopdf::Document;
use crate::ieee::{double_le, le};
use crate::resolve::{get_inherited_page_box, inherited_box, PARENT_LIMIT};
use crate::types::{BoxType, PageBox};

verus! {

/// The box of one page: its kind and its coordinates, with `left <= right`
/// and `bottom <= top` wherever the coordinates are numbers.
#[derive(Debug, Clone, Copy)]
pub struct BoxEntry {
    pub page: u32,
    pub box_type: BoxType,
    pub left: u64,
    pub bottom: u64,
    pub right: u64,
    pub top: u64,
}

/// What pages are grouped by: the kind of box and the bit patterns of its
/// four coordinates.
pub struct BoxKey {
    pub box_type: BoxType,
    pub left: u64,
    pub bottom: u64,
    pub right: u64,
    pub top: u64,
}

/// The key of an entry.
pub open spec fn key_of(entry: BoxEntry) -> BoxKey {
    BoxKey {
        box_type: entry.box_type,
        left: entry.left,
        bottom: entry.bottom,
        right: entry.right,
        top: entry.top,
    }
}

/// The box of a page in normal form: the lesser of the two horizontal
/// coordinates is `left`, the lesser of the vertical ones `bottom`.
pub open spec fn normalized_entry(page: u32, box_type: BoxType, rect: [u64; 4]) -> BoxEntry {
    BoxEntry {
        page,
        box_type,
        left: if le(rect[0], rect[2]) {
            rect[0]
        } else {
            rect[2]
        },
        right: if le(rect[0], rect[2]) {
            rect[2]
        } else {
            rect[0]
        },
        bottom: if le(rect[1], rect[3]) {
            rect[1]
        } else {
            rect[3]
        },
        top: if le(rect[1], rect[3]) {
            rect[3]
        } else {
            rect[1]
        },
    }
}

/// The box of the page with number `page` and object `id`: its crop box, or
/// else its media box, or else an unknown box with all coordinates zero.
pub open spec fn page_entry(doc: Document, page: u32, id: (u32, u16)) -> BoxEntry {
    match inherited_box(doc, id, "CropBox", PARENT_LIMIT as nat) {
        Some(rect) => normalized_entry(page, BoxType::CropBox, rect),
        None => match inherited_box(doc, id, "MediaBox", PARENT_LIMIT as nat) {
            Some(rect) => normalized_entry(page, BoxType::MediaBox, rect),
            None => normalized_entry(page, BoxType::Unknown, [0u64, 0u64, 0u64, 0u64]),
        },
    }
}

/// The keys of the first `n` entries, each once, in the order in which they
/// first occur.
pub open spec fn group_keys(entries: Seq<BoxEntry>, n: int) -> Seq<BoxKey>
    decreases n,
{
    if n <= 0 {
        Seq::empty()
    } else {
        let before = group_keys(entries, n - 1);
        if before.contains(key_of(entries[n - 1])) {
            before
        } else {
            before.push(key_of(entries[n - 1]))
        }
    }
}

/// The page numbers of those of the first `n` entries that have the key
/// `key`, in order.
pub open spec fn group_pages(entries: Seq<BoxEntry>, key: BoxKey, n: int) -> Seq<u32>
    decreases n,
{
    if n <= 0 {
        Seq::empty()
    } else if key_of(entries[n - 1]) == key {
        group_pages(entries, key, n - 1).push(entries[n - 1].page)
    } else {
        group_pages(entries, key, n - 1)
    }
}

/// The size of group `g`: the number of entries with its key.
pub open spec fn group_size(entries: Seq<BoxEntry>, g: int) -> int {
    let all = entries.len() as int;
    group_pages(entries, group_keys(entries, all)[g], all).len() as int
}

/// The largest among the first `n` groups, and the last of them where
/// several are equally large.
pub open spec fn dominant_group(entries: Seq<BoxEntry>, n: int) -> int
    decreases n,
{
    if n <= 1 {
        0
    } else {
        let before = dominant_group(entries, n - 1);
        if group_size(entries, n - 1) >= group_size(entries, before) {
            n - 1
        } else {
            before
        }
    }
}

/// `found` describes group `g` of `entries`: its box, the number of its
/// pages, and its pages unless it is the dominant group.
pub open spec fn is_group(entries: Seq<BoxEntry>, g: int, found: PageBox) -> bool {
    let all = entries.len() as int;
    let keys = group_keys(entries, all);
    let pages = group_pages(entries, keys[g], all);
    &&& found.box_type == keys[g].box_type
    &&& found.left == keys[g].left
    &&& found.bottom == keys[g].bottom
    &&& found.right == keys[g].right
    &&& found.top == keys[g].top
    &&& found.page_count == pages.len() % 0x1_0000_0000
    &&& if g == dominant_group(entries, keys.len() as int) {
        found.pages is None
    } else {
        found.pages is Some && found.pages->0@ == pages
    }
}

struct BoxGroup {
    key: BoxEntry,
    page_nums: Vec<u32>,
}

/// Tells whether two entries have the same key.
fn same_key(a: &BoxEntry, b: &BoxEntry) -> (r: bool)
    ensures
        r == (key_of(*a) == key_of(*b)),
{
    a.box_type == b.box_type && a.left == b.left && a.bottom == b.bottom && a.right == b.right
        && a.top == b.top
}

/// If no group has the key, none of the entries so far has it.
proof fn lemma_new_key_has_no_pages(entries: Seq<BoxEntry>, key: BoxKey, n: int)
    requires
        0 <= n <= entries.len(),
        !group_keys(entries, n).contains(key),
    ensures
        group_pages(entries, key, n).len() == 0,
    decreases n,
{
    if n > 0 {
        let before = group_keys(entries, n - 1);
        let last = key_of(entries[n - 1]);
        if before.contains(last) {
            assert(last != key);
        } else {
            assert(before.push(last).last() == last);
            assert(last != key);
            assert forall|i: int| 0 <= i < before.len() implies before[i] != key by {
                assert(before.push(last)[i] == before[i]);
            }
        }
        lemma_new_key_has_no_pages(entries, key, n - 1);
    }
}

/// No key stands twice among the keys of the groups.
pub proof fn lemma_group_keys_distinct(entries: Seq<BoxEntry>, n: int)
    ensures
        forall|a: int, b: int|
            0 <= a < b < group_keys(entries, n).len() ==> group_keys(entries, n)[a] != group_keys(
                entries,
                n,
            )[b],
    decreases n,
{
    if n > 0 {
        lemma_group_keys_distinct(entries, n - 1);
        let before = group_keys(entries, n - 1);
        let last = key_of(entries[n - 1]);
        if !before.contains(last) {
            let now = before.push(last);
            assert forall|a: int, b: int| 0 <= a < b < now.len() implies now[a] != now[b] by {
                if b == before.len() {
                    assert(before[a] != last);
                }
            }
        }
    }
}

/// The key of every entry stands among the keys of the groups.
pub proof fn lemma_group_keys_cover(entries: Seq<BoxEntry>, n: int, m: int)
    requires
        0 <= m < n <= entries.len(),
    ensures
        group_keys(entries, n).contains(key_of(entries[m])),
    decreases n,
{
    let before = group_keys(entries, n - 1);
    let last = key_of(entries[n - 1]);
    if m < n - 1 {
        lemma_group_keys_cover(entries, n - 1, m);
        if !before.contains(last) {
            let at = choose|i: int| 0 <= i < before.len() && before[i] == key_of(entries[m]);
            assert(before.push(last)[at] == key_of(entries[m]));
        }
    } else {
        if !before.contains(last) {
            assert(before.push(last)[before.len() as int] == last);
        }
    }
}

/// A group lists the page of an entry among the first `n` exactly if the
/// entry has the key of the group, provided that no two entries are of the
/// same page.
pub proof fn lemma_group_pages_members(entries: Seq<BoxEntry>, key: BoxKey, n: int, m: int)
    requires
        0 <= m < entries.len(),
        0 <= n <= entries.len(),
        forall|a: int, b: int| 0 <= a < b < entries.len() ==> entries[a].page != entries[b].page,
    ensures
        group_pages(entries, key, n).contains(entries[m].page) <==> (m < n && key_of(entries[m])
            == key),
    decreases n,
{
    if n > 0 {
        lemma_group_pages_members(entries, key, n - 1, m);
        let before = group_pages(entries, key, n - 1);
        if key_of(entries[n - 1]) == key {
            let now = before.push(entries[n - 1].page);
            if now.contains(entries[m].page) {
                let at = choose|i: int| 0 <= i < now.len() && now[i] == entries[m].page;
                if at < before.len() {
                    assert(before[at] == entries[m].page);
                }
            }
            if before.contains(entries[m].page) {
                let at = choose|i: int| 0 <= i < before.len() && before[i] == entries[m].page;
                assert(now[at] == entries[m].page);
            }
            if m == n - 1 {
                assert(now[before.len() as int] == entries[m].page);
            }
        }
    }
}

/// The dominant group among the first `n` is one of them, and none of them
/// is larger.
pub proof fn lemma_dominant_is_largest(entries: Seq<BoxEntry>, n: int)
    requires
        1 <= n,
    ensures
        0 <= dominant_group(entries, n) < n,
        forall|g: int|
            0 <= g < n ==> #[trigger] group_size(entries, g) <= group_size(
                entries,
                dominant_group(entries, n),
            ),
    decreases n,
{
    if n > 1 {
        lemma_dominant_is_largest(entries, n - 1);
    }
}

/// Every page belongs to exactly one group, and the dominant group is a
/// largest one. For pages with distinct numbers: no key of a group stands
/// twice; the key of every page is the key of a group; a group holds the
/// number of a page exactly if it has the page's key; and no group holds
/// more pages than the dominant group, which stands for the pages that no
/// other group lists.
pub proof fn lemma_groups_partition_pages(entries: Seq<BoxEntry>)
    requires
        forall|a: int, b: int| 0 <= a < b < entries.len() ==> entries[a].page != entries[b].page,
    ensures
        ({
            let all = entries.len() as int;
            let keys = group_keys(entries, all);
            &&& forall|a: int, b: int| 0 <= a < b < keys.len() ==> keys[a] != keys[b]
            &&& forall|m: int| 0 <= m < all ==> keys.contains(#[trigger] key_of(entries[m]))
            &&& forall|m: int, g: int|
                0 <= m < all && 0 <= g < keys.len() ==> (#[trigger] group_pages(
                    entries,
                    keys[g],
                    all,
                ).contains(entries[m].page) <==> key_of(entries[m]) == keys[g])
            &&& all > 0 ==> 0 <= dominant_group(entries, keys.len() as int) < keys.len()
            &&& forall|g: int|
                0 <= g < keys.len() ==> #[trigger] group_size(entries, g) <= group_size(
                    entries,
                    dominant_group(entries, keys.len() as int),
                )
        }),
{
    let all = entries.len() as int;
    let keys = group_keys(entries, all);
    lemma_group_keys_distinct(entries, all);
    assert forall|m: int| 0 <= m < all implies keys.contains(#[trigger] key_of(entries[m])) by {
        lemma_group_keys_cover(entries, all, m);
    }
    assert forall|m: int, g: int| 0 <= m < all && 0 <= g < keys.len() implies (#[trigger] group_pages(
        entries,
        keys[g],
        all,
    ).contains(entries[m].page) <==> key_of(entries[m]) == keys[g]) by {
        lemma_group_pages_members(entries, keys[g], all, m);
    }
    if all > 0 {
        lemma_group_keys_cover(entries, all, 0);
        assert(keys.len() >= 1);
        lemma_dominant_is_largest(entries, keys.len() as int);
    }
}

/// Groups the pages by their boxes. The groups stand in the order in which
/// their boxes first occur. The largest group, and the last of the largest
/// where several are equally large, is the dominant one and lists no pages.
pub fn group_page_boxes(entries: &Vec<BoxEntry>) -> (r: Vec<PageBox>)
    ensures
        r@.len() == group_keys(entries@, entries@.len() as int).len(),
        forall|g: int| 0 <= g < r@.len() ==> is_group(entries@, g, #[trigger] r@[g]),
{
    let n: usize = entries.len();
    let mut groups: Vec<BoxGroup> = Vec::new();
    let mut i: usize = 0;
    while i < n
        invariant
            i <= n,
            n == entries@.len(),
            groups@.len() == group_keys(entries@, i as int).len(),
            forall|g: int|
                0 <= g < groups@.len() ==> key_of((#[trigger] groups@[g]).key) == group_keys(
                    entries@,
                    i as int,
                )[g],
            forall|g: int|
                0 <= g < groups@.len() ==> (#[trigger] groups@[g]).page_nums@ == group_pages(
                    entries@,
                    group_keys(entries@, i as int)[g],
                    i as int,
                ),
        decreases n - i,
    {
        let entry = entries[i];
        let ghost keys = group_keys(entries@, i as int);
        let ghost key = key_of(entry);
        let mut found: Option<usize> = None;
        let mut g: usize = 0;
        while g < groups.len()
            invariant_except_break
                found is None,
                forall|h: int| 0 <= h < g ==> keys[h] != key,
            invariant
                g <= groups@.len(),
                groups@.len() == keys.len(),
                key == key_of(entry),
                forall|h: int| 0 <= h < groups@.len() ==> key_of((#[trigger] groups@[h]).key) == keys[h],
            ensures
                found is Some ==> found->0 < keys.len() && keys[found->0 as int] == key,
                found is None ==> forall|h: int| 0 <= h < keys.len() ==> keys[h] != key,
            decreases groups@.len() - g,
        {
            if same_key(&groups[g].key, &entry) {
                found = Some(g);
                break ;
            }
            g += 1;
        }
        match found {
            Some(at) => {
                assert(keys[at as int] == key);
                assert(keys.contains(key));
                proof {
                    lemma_group_keys_distinct(entries@, i as int);
                }
                let ghost before = groups@;
                groups[at].page_nums.push(entry.page);
                assert forall|h: int| 0 <= h < groups@.len() implies key_of(
                    (#[trigger] groups@[h]).key,
                ) == group_keys(entries@, i + 1)[h] by {
                    if h != at {
                        assert(groups@[h] == before[h]);
                    }
                }
                assert forall|h: int| 0 <= h < groups@.len() implies (#[trigger] groups@[h]).page_nums@
                    == group_pages(entries@, group_keys(entries@, i + 1)[h], i + 1) by {
                    if h != at {
                        assert(groups@[h] == before[h]);
                    }
                }
            },
            None => {
                assert(!keys.contains(key));
                proof {
                    lemma_new_key_has_no_pages(entries@, key, i as int);
                }
                let ghost before = groups@;
                let mut page_nums: Vec<u32> = Vec::new();
                page_nums.push(entry.page);
                groups.push(BoxGroup { key: entry, page_nums });
                assert(page_nums@ =~= group_pages(entries@, key, i + 1));
                assert forall|h: int| 0 <= h < groups@.len() implies key_of(
                    (#[trigger] groups@[h]).key,
                ) == group_keys(entries@, i + 1)[h] by {
                    if h < before.len() {
                        assert(groups@[h] == before[h]);
                    }
                }
                assert forall|h: int| 0 <= h < groups@.len() implies (#[trigger] groups@[h]).page_nums@
                    == group_pages(entries@, group_keys(entries@, i + 1)[h], i + 1) by {
                    if h < before.len() {
                        assert(groups@[h] == before[h]);
                        assert(keys[h] != key);
                    }
                }
            },
        }
        i += 1;
    }
    let ghost keys = group_keys(entries@, n as int);
    let count: usize = groups.len();
    let mut dominant: usize = 0;
    let mut g: usize = 1;
    while g < count
        invariant
            1 <= g,
            g <= count || (count == 0 && g == 1),
            count == groups@.len(),
            count == keys.len(),
            keys == group_keys(entries@, n as int),
            n == entries@.len(),
            forall|h: int|
                0 <= h < groups@.len() ==> (#[trigger] groups@[h]).page_nums@ == group_pages(
                    entries@,
                    keys[h],
                    n as int,
                ),
            dominant < g,
            dominant == dominant_group(entries@, g as int),
        decreases count - g,
    {
        if groups[g].page_nums.len() >= groups[dominant].page_nums.len() {
            dominant = g;
        }
        g += 1;
    }
    assert(dominant == dominant_group(entries@, count as int)) by {
        if count == 0 {
            assert(dominant_group(entries@, 0) == 0);
            assert(dominant_group(entries@, 1) == 0);
        }
    }
    let ghost grouped = groups@;
    let mut out: Vec<PageBox> = Vec::new();
    for group in it: groups
        invariant
            it.seq() == grouped,
            grouped.len() == keys.len(),
            keys == group_keys(entries@, n as int),
            n == entries@.len(),
            dominant == dominant_group(entries@, keys.len() as int),
            out@.len() == it.index(),
            forall|h: int| 0 <= h < grouped.len() ==> key_of((#[trigger] grouped[h]).key) == keys[h],
            forall|h: int|
                0 <= h < grouped.len() ==> (#[trigger] grouped[h]).page_nums@ == group_pages(
                    entries@,
                    keys[h],
                    n as int,
                ),
            forall|h: int| 0 <= h < out@.len() ==> is_group(entries@, h, #[trigger] out@[h]),
    {
        let size: u64 = group.page_nums.len() as u64;
        let page_count: u32 = (size % 0x1_0000_0000) as u32;
        let pages: Option<Vec<u32>> = if out.len() == dominant {
            None
        } else {
            Some(group.page_nums)
        };
        let found = PageBox {
            page_count,
            left: group.key.left,
            bottom: group.key.bottom,
            right: group.key.right,
            top: group.key.top,
            box_type: group.key.box_type,
            pages,
        };
        assert(is_group(entries@, out@.len() as int, found));
        out.push(found);
    }
    out
}

/// Brings a box into normal form.
pub fn normalize_box(page: u32, box_type: BoxType, rect: [u64; 4]) -> (r: BoxEntry)
    ensures
        r == normalized_entry(page, box_type, rect),
{
    let horizontal: bool = double_le(rect[0], rect[2]);
    let vertical: bool = double_le(rect[1], rect[3]);
    BoxEntry {
        page,
        box_type,
        left: if horizontal {
            rect[0]
        } else {
            rect[2]
        },
        right: if horizontal {
            rect[2]
        } else {
            rect[0]
        },
        bottom: if vertical {
            rect[1]
        } else {
            rect[3]
        },
        top: if vertical {
            rect[3]
        } else {
            rect[1]
        },
    }
}

/// Finds the box of a page: its crop box, or else its media box.
pub fn page_box_entry(doc: &Document, page: u32, id: (u32, u16)) -> (r: BoxEntry)
    ensures
        r == page_entry(*doc, page, id),
{
    match get_inherited_page_box(doc, id, "CropBox") {
        Some(rect) => normalize_box(page, BoxType::CropBox, rect),
        None => match get_inherited_page_box(doc, id, "MediaBox") {
            Some(rect) => normalize_box(page, BoxType::MediaBox, rect),
            None => normalize_box(page, BoxType::Unknown, [0u64, 0u64, 0u64, 0u64]),
        },
    }
}

} // verus!
