//! Post-processing of extracted page text: removal of split page-number
//! footers, and detection of headers and footers that repeat across pages.

use vstd::prelude::*;
use crate::strings::{
    char_is_digit, is_digit, is_one_line, join_lines, lemma_join_lines_len,
    lemma_rejoined_lines, lemma_rejoined_text_len, lemma_split_lines_are_lines,
    lemma_trimmed_strip_cr, lemma_weight_of_prefix, line_ranges, push_range, range_eq,
    split_lines, string_of, strip_cr, to_chars, trim_range, trimmed, weight,
};
use crate::encoding::{decimal, push_decimal};
use crate::pdf::{document_pages, native_page_text, page_list, page_text};
use crate::sorting::{is_sorted, lemma_sorted_stays, sort_by_key, Ranked};
use crate::types::{PageText, StructuredPageText};
use lopdf::Document;

verus! {

/// A line that holds a slash and nothing else but whitespace.
pub open spec fn is_slash_line(line: Seq<char>) -> bool {
    trimmed(line) == seq!['/']
}

/// A line that holds `count` and nothing else but whitespace around it.
pub open spec fn is_count_line(line: Seq<char>, count: Seq<char>) -> bool {
    trimmed(line) == count
}

/// Lines `i` and `i + 1` are a split footer: a slash line, then the page count.
pub open spec fn artifact_at(lines: Seq<Seq<char>>, count: Seq<char>, i: int) -> bool {
    &&& 0 <= i
    &&& i + 1 < lines.len()
    &&& is_slash_line(lines[i])
    &&& is_count_line(lines[i + 1], count)
}

/// Line `i` belongs to a split footer, as its first or its second line.
pub open spec fn is_artifact_line(lines: Seq<Seq<char>>, count: Seq<char>, i: int) -> bool {
    artifact_at(lines, count, i) || artifact_at(lines, count, i - 1)
}

/// Some two lines are a split footer.
pub open spec fn has_artifact(lines: Seq<Seq<char>>, count: Seq<char>) -> bool {
    exists|i: int| artifact_at(lines, count, i)
}

/// Those of the first `n` lines that belong to no split footer, in order.
pub open spec fn surviving_lines(lines: Seq<Seq<char>>, count: Seq<char>, n: int) -> Seq<
    Seq<char>,
>
    decreases n,
{
    if n <= 0 {
        Seq::empty()
    } else {
        let before = surviving_lines(lines, count, n - 1);
        if is_artifact_line(lines, count, n - 1) {
            before
        } else {
            before.push(lines[n - 1])
        }
    }
}

/// `text` without its split footers: where a slash line is followed by a line
/// that holds `count`, both are left out and the other lines are joined by
/// line feeds. A text without such a pair stays as it is.
pub open spec fn footer_stripped(text: Seq<char>, count: Seq<char>) -> Seq<char> {
    let lines = split_lines(text);
    if has_artifact(lines, count) {
        join_lines(surviving_lines(lines, count, lines.len() as int))
    } else {
        text
    }
}

/// Taking the split footers out brings a slash line that stays to stand
/// directly before a line with the count that stays: the two were parted by
/// nothing but split footers.
pub open spec fn exposes_artifact(lines: Seq<Seq<char>>, count: Seq<char>) -> bool {
    exists|i: int, j: int|
        {
            &&& 0 <= i
            &&& i + 1 < j < lines.len()
            &&& !is_artifact_line(lines, count, i)
            &&& !is_artifact_line(lines, count, j)
            &&& forall|k: int| i < k < j ==> is_artifact_line(lines, count, k)
            &&& is_slash_line(#[trigger] lines[i])
            &&& is_count_line(#[trigger] lines[j], count)
        }
}

/// Among the lines that stay, none is a slash line directly before a line
/// with the count; and the last line that stays is a line of the text that
/// only split footers follow.
proof fn lemma_survivors_hold_no_artifact(lines: Seq<Seq<char>>, count: Seq<char>, n: int)
    requires
        0 <= n <= lines.len(),
        !exposes_artifact(lines, count),
    ensures
        forall|a: int|
            0 <= a && a + 1 < surviving_lines(lines, count, n).len() ==> !(is_slash_line(
                #[trigger] surviving_lines(lines, count, n)[a],
            ) && is_count_line(surviving_lines(lines, count, n)[a + 1], count)),
        surviving_lines(lines, count, n).len() > 0 ==> exists|at: int|
            {
                &&& 0 <= at < n
                &&& surviving_lines(lines, count, n).last() == #[trigger] lines[at]
                &&& !is_artifact_line(lines, count, at)
                &&& forall|k: int| at < k < n ==> is_artifact_line(lines, count, k)
            },
    decreases n,
{
    if n > 0 {
        lemma_survivors_hold_no_artifact(lines, count, n - 1);
        let before = surviving_lines(lines, count, n - 1);
        let now = surviving_lines(lines, count, n);
        if is_artifact_line(lines, count, n - 1) {
            if now.len() > 0 {
                let at = choose|at: int|
                    {
                        &&& 0 <= at < n - 1
                        &&& before.last() == #[trigger] lines[at]
                        &&& !is_artifact_line(lines, count, at)
                        &&& forall|k: int| at < k < n - 1 ==> is_artifact_line(lines, count, k)
                    };
                assert(now.last() == lines[at]);
            }
        } else {
            assert(now == before.push(lines[n - 1]));
            assert(now.last() == lines[n - 1]);
            assert forall|a: int| 0 <= a && a + 1 < now.len() implies !(is_slash_line(
                #[trigger] now[a],
            ) && is_count_line(now[a + 1], count)) by {
                if a + 1 < before.len() {
                    assert(now[a] == before[a]);
                    assert(now[a + 1] == before[a + 1]);
                } else {
                    let at = choose|at: int|
                        {
                            &&& 0 <= at < n - 1
                            &&& before.last() == #[trigger] lines[at]
                            &&& !is_artifact_line(lines, count, at)
                            &&& forall|k: int|
                                at < k < n - 1 ==> is_artifact_line(lines, count, k)
                        };
                    assert(now[a] == lines[at]);
                    assert(now[a + 1] == lines[n - 1]);
                    if is_slash_line(lines[at]) && is_count_line(lines[n - 1], count) {
                        if at + 1 == n - 1 {
                            assert(artifact_at(lines, count, at));
                        } else {
                            assert(exposes_artifact(lines, count));
                        }
                    }
                }
            }
        }
    }
}

/// Taking the split footers out of a text twice gives what taking them out
/// once gives, unless that brings a slash line that stays to stand directly
/// before a line with the count that stays.
pub proof fn lemma_strip_footer_artifacts_idempotent(text: Seq<char>, count: Seq<char>)
    requires
        !exposes_artifact(split_lines(text), count),
    ensures
        footer_stripped(footer_stripped(text, count), count) == footer_stripped(text, count),
{
    let lines = split_lines(text);
    if has_artifact(lines, count) {
        let kept = surviving_lines(lines, count, lines.len() as int);
        let once = join_lines(kept);
        let again = split_lines(once);
        lemma_survivors_hold_no_artifact(lines, count, lines.len() as int);
        lemma_survivors_hold_their_lines(lines, count, lines.len() as int);
        lemma_split_lines_are_lines(text);
        assert forall|a: int| 0 <= a < kept.len() implies is_one_line(#[trigger] kept[a]) by {
            let at = choose|at: int| 0 <= at < lines.len() && kept[a] == lines[at];
            assert(is_one_line(lines[at]));
        }
        lemma_rejoined_lines(kept);
        assert forall|i: int| !artifact_at(again, count, i) by {
            if 0 <= i && i + 1 < again.len() {
                lemma_trimmed_strip_cr(kept[i]);
                lemma_trimmed_strip_cr(kept[i + 1]);
                assert(again[i] == kept[i] || again[i] == strip_cr(kept[i]));
                assert(again[i + 1] == kept[i + 1] || again[i + 1] == strip_cr(kept[i + 1]));
                assert(is_slash_line(again[i]) == is_slash_line(kept[i]));
                assert(is_count_line(again[i + 1], count) == is_count_line(kept[i + 1], count));
                assert(!(is_slash_line(kept[i]) && is_count_line(kept[i + 1], count)));
            }
        }
        assert(!has_artifact(again, count));
    }
}

/// The lines that stay among the first `n` begin with those that stay among
/// the first `m`, for `m` not greater than `n`.
proof fn lemma_survivors_grow(lines: Seq<Seq<char>>, count: Seq<char>, m: int, n: int)
    requires
        0 <= m <= n,
    ensures
        surviving_lines(lines, count, m).len() <= surviving_lines(lines, count, n).len(),
        forall|a: int|
            0 <= a < surviving_lines(lines, count, m).len() ==> #[trigger] surviving_lines(
                lines,
                count,
                n,
            )[a] == surviving_lines(lines, count, m)[a],
    decreases n - m,
{
    if m < n {
        lemma_survivors_grow(lines, count, m, n - 1);
    }
}

/// Where only lines of split footers stand from `a` to `b`, the same lines
/// stay among the first `b` as among the first `a`.
proof fn lemma_removed_run(lines: Seq<Seq<char>>, count: Seq<char>, a: int, b: int)
    requires
        0 <= a <= b,
        forall|k: int| a <= k < b ==> is_artifact_line(lines, count, k),
    ensures
        surviving_lines(lines, count, b) == surviving_lines(lines, count, a),
    decreases b - a,
{
    if a < b {
        lemma_removed_run(lines, count, a, b - 1);
    }
}

/// The lines that stay weigh no more than the lines that they are taken
/// from, and less where a line is taken out.
proof fn lemma_survivors_weigh_less(lines: Seq<Seq<char>>, count: Seq<char>, n: int)
    requires
        0 <= n <= lines.len(),
    ensures
        weight(
            surviving_lines(lines, count, n),
            surviving_lines(lines, count, n).len() as int,
        ) <= weight(lines, n),
        (exists|k: int| 0 <= k < n && is_artifact_line(lines, count, k)) ==> weight(
            surviving_lines(lines, count, n),
            surviving_lines(lines, count, n).len() as int,
        ) < weight(lines, n),
    decreases n,
{
    if n > 0 {
        lemma_survivors_weigh_less(lines, count, n - 1);
        let before = surviving_lines(lines, count, n - 1);
        let now = surviving_lines(lines, count, n);
        if !is_artifact_line(lines, count, n - 1) {
            lemma_weight_of_prefix(now, before, before.len() as int);
            if exists|k: int| 0 <= k < n && is_artifact_line(lines, count, k) {
                let k = choose|k: int| 0 <= k < n && is_artifact_line(lines, count, k);
                assert(0 <= k < n - 1 && is_artifact_line(lines, count, k));
            }
        }
    }
}

/// What the law of idempotence leaves out, it leaves out for a reason:
/// where taking the split footers out brings a slash line that stays to
/// stand directly before a line with the count that stays, taking them out
/// once more takes these two out as well, and so gives another text. The
/// count is not empty, as the count of the pages of a document never is.
pub proof fn lemma_exposed_artifact_is_stripped_again(text: Seq<char>, count: Seq<char>)
    requires
        exposes_artifact(split_lines(text), count),
        count.len() > 0,
    ensures
        footer_stripped(footer_stripped(text, count), count) != footer_stripped(text, count),
{
    let lines = split_lines(text);
    let all = lines.len() as int;
    let (i, j): (int, int) = choose|i: int, j: int|
        {
            &&& 0 <= i
            &&& i + 1 < j < lines.len()
            &&& !is_artifact_line(lines, count, i)
            &&& !is_artifact_line(lines, count, j)
            &&& forall|k: int| i < k < j ==> is_artifact_line(lines, count, k)
            &&& is_slash_line(#[trigger] lines[i])
            &&& is_count_line(#[trigger] lines[j], count)
        };
    assert(is_artifact_line(lines, count, i + 1));
    assert(has_artifact(lines, count)) by {
        if !artifact_at(lines, count, i + 1) {
            assert(artifact_at(lines, count, i));
        }
    }
    let kept = surviving_lines(lines, count, all);
    let once = join_lines(kept);
    assert(footer_stripped(text, count) == once);
    // The two lines stand side by side among the lines that stay.
    let at = surviving_lines(lines, count, i).len() as int;
    lemma_removed_run(lines, count, i + 1, j);
    assert(surviving_lines(lines, count, i + 1) == surviving_lines(lines, count, i).push(
        lines[i],
    ));
    assert(surviving_lines(lines, count, j + 1) == surviving_lines(lines, count, j).push(
        lines[j],
    ));
    lemma_survivors_grow(lines, count, j + 1, all);
    assert(kept[at] == surviving_lines(lines, count, j + 1)[at]);
    assert(kept[at + 1] == surviving_lines(lines, count, j + 1)[at + 1]);
    assert(kept[at] == lines[i]);
    assert(kept[at + 1] == lines[j]);
    // They still do once the lines are joined and split again.
    lemma_survivors_hold_their_lines(lines, count, all);
    lemma_split_lines_are_lines(text);
    assert forall|a: int| 0 <= a < kept.len() implies is_one_line(#[trigger] kept[a]) by {
        let from = choose|from: int| 0 <= from < lines.len() && kept[a] == lines[from];
        assert(is_one_line(lines[from]));
    }
    lemma_rejoined_lines(kept);
    let again = split_lines(once);
    assert(lines[j].len() > 0) by {
        if lines[j].len() == 0 {
            assert(trimmed(lines[j]) =~= Seq::<char>::empty());
        }
    }
    assert(at + 1 < again.len());
    lemma_trimmed_strip_cr(kept[at]);
    lemma_trimmed_strip_cr(kept[at + 1]);
    assert(again[at] == kept[at] || again[at] == strip_cr(kept[at]));
    assert(again[at + 1] == kept[at + 1] || again[at + 1] == strip_cr(kept[at + 1]));
    assert(artifact_at(again, count, at));
    assert(has_artifact(again, count));
    // What stays of them is shorter than they are.
    let rest = surviving_lines(again, count, again.len() as int);
    let twice = join_lines(rest);
    assert(footer_stripped(once, count) == twice);
    lemma_survivors_weigh_less(again, count, again.len() as int);
    assert(is_artifact_line(again, count, at));
    lemma_join_lines_len(rest);
    lemma_join_lines_len(again);
    lemma_rejoined_text_len(once);
    assert(weight(again, again.len() as int) >= 2) by {
        assert(weight(again, 2) >= 2) by {
            assert(weight(again, 0) == 0);
            assert(weight(again, 1) == weight(again, 0) + again[0].len() + 1);
            assert(weight(again, 2) == weight(again, 1) + again[1].len() + 1);
        }
        lemma_weight_grows(again, 2, again.len() as int);
    }
    assert(twice.len() < once.len());
}

/// Every line that stays is a line of the text.
proof fn lemma_survivors_hold_their_lines(lines: Seq<Seq<char>>, count: Seq<char>, n: int)
    requires
        0 <= n <= lines.len(),
    ensures
        forall|a: int|
            0 <= a < surviving_lines(lines, count, n).len() ==> exists|at: int|
                0 <= at < n && #[trigger] surviving_lines(lines, count, n)[a] == lines[at],
    decreases n,
{
    if n > 0 {
        lemma_survivors_hold_their_lines(lines, count, n - 1);
        let before = surviving_lines(lines, count, n - 1);
        let now = surviving_lines(lines, count, n);
        assert forall|a: int| 0 <= a < now.len() implies exists|at: int|
            0 <= at < n && #[trigger] now[a] == lines[at] by {
            if a < before.len() {
                let at = choose|at: int| 0 <= at < n - 1 && before[a] == lines[at];
                assert(now[a] == lines[at]);
            } else {
                assert(now[a] == lines[n - 1]);
            }
        }
    }
}

/// More lines weigh no less.
proof fn lemma_weight_grows(lines: Seq<Seq<char>>, m: int, n: int)
    requires
        0 <= m <= n,
    ensures
        weight(lines, m) <= weight(lines, n),
    decreases n - m,
{
    if m < n {
        lemma_weight_grows(lines, m, n - 1);
    }
}

/// Removes the split page-number footers from the text of a page.
pub fn strip_footer_artifacts(text: &str, page_count_str: &str) -> (r: String)
    ensures
        r@ == footer_stripped(text@, page_count_str@),
{
    let chars = to_chars(text);
    let count = to_chars(page_count_str);
    let lines = line_ranges(&chars);
    let n: usize = lines.len();
    let ghost all = split_lines(chars@);
    let mut slash_chars: Vec<char> = Vec::new();
    slash_chars.push('/');
    assert(slash_chars@ == seq!['/']);
    let mut slash: Vec<bool> = Vec::new();
    let mut counts: Vec<bool> = Vec::new();
    let mut i: usize = 0;
    while i < n
        invariant
            i <= n,
            n == lines@.len(),
            n == all.len(),
            all == split_lines(chars@),
            slash_chars@ == seq!['/'],
            slash@.len() == i,
            counts@.len() == i,
            forall|j: int| 0 <= j < n ==> (#[trigger] lines@[j]).0 <= lines@[j].1 <= chars@.len(),
            forall|j: int|
                0 <= j < n ==> chars@.subrange(lines@[j].0 as int, lines@[j].1 as int)
                    == #[trigger] all[j],
            forall|j: int| 0 <= j < i ==> slash@[j] == is_slash_line(#[trigger] all[j]),
            forall|j: int| 0 <= j < i ==> counts@[j] == is_count_line(#[trigger] all[j], count@),
        decreases n - i,
    {
        let (from, to) = lines[i];
        assert(chars@.subrange(from as int, to as int) == all[i as int]);
        let (a, b) = trim_range(&chars, from, to);
        slash.push(range_eq(&chars, a, b, &slash_chars));
        counts.push(range_eq(&chars, a, b, &count));
        i += 1;
    }
    let mut found: bool = false;
    i = 0;
    while n - i > 1
        invariant
            i <= n,
            n == all.len(),
            slash@.len() == n,
            counts@.len() == n,
            forall|j: int| 0 <= j < n ==> slash@[j] == is_slash_line(#[trigger] all[j]),
            forall|j: int| 0 <= j < n ==> counts@[j] == is_count_line(#[trigger] all[j], count@),
            found == exists|j: int| 0 <= j < i && artifact_at(all, count@, j),
        decreases n - i,
    {
        if slash[i] && counts[i + 1] {
            assert(artifact_at(all, count@, i as int));
            found = true;
        }
        i += 1;
    }
    if !found {
        assert(!has_artifact(all, count@));
        return text.to_owned();
    }
    assert(has_artifact(all, count@));
    let mut out: Vec<char> = Vec::new();
    let mut first: bool = true;
    i = 0;
    while i < n
        invariant
            i <= n,
            n == lines@.len(),
            n == all.len(),
            slash@.len() == n,
            counts@.len() == n,
            forall|j: int| 0 <= j < n ==> (#[trigger] lines@[j]).0 <= lines@[j].1 <= chars@.len(),
            forall|j: int|
                0 <= j < n ==> chars@.subrange(lines@[j].0 as int, lines@[j].1 as int)
                    == #[trigger] all[j],
            forall|j: int| 0 <= j < n ==> slash@[j] == is_slash_line(#[trigger] all[j]),
            forall|j: int| 0 <= j < n ==> counts@[j] == is_count_line(#[trigger] all[j], count@),
            first == (surviving_lines(all, count@, i as int).len() == 0),
            out@ == join_lines(surviving_lines(all, count@, i as int)),
        decreases n - i,
    {
        let opens: bool = n - i > 1 && slash[i] && counts[i + 1];
        let closes: bool = i > 0 && slash[i - 1] && counts[i];
        assert(opens == artifact_at(all, count@, i as int));
        assert(closes == artifact_at(all, count@, i - 1));
        if !(opens || closes) {
            let ghost before = surviving_lines(all, count@, i as int);
            if !first {
                out.push('\n');
            }
            let (from, to) = lines[i];
            push_range(&mut out, &chars, from, to);
            proof {
                let after = before.push(all[i as int]);
                assert(after.drop_last() == before);
                assert(out@ == join_lines(after));
            }
            first = false;
        }
        i += 1;
    }
    string_of(&out)
}

/// What character `i` of `s` contributes once every run of digits has become
/// one placeholder: the placeholder for the first digit of a run, nothing for
/// the digits after it, and any other character itself.
pub open spec fn collapsed_piece(s: Seq<char>, i: int) -> Seq<char> {
    if is_digit(s[i]) {
        if i > 0 && is_digit(s[i - 1]) {
            Seq::empty()
        } else {
            seq!['<', 'N', 'U', 'M', '>']
        }
    } else {
        seq![s[i]]
    }
}

/// The first `n` characters of `s` with every run of digits replaced by the
/// placeholder `<NUM>`.
pub open spec fn collapse_digits(s: Seq<char>, n: int) -> Seq<char>
    decreases n,
{
    if n <= 0 {
        Seq::empty()
    } else {
        collapse_digits(s, n - 1) + collapsed_piece(s, n - 1)
    }
}

/// A line as it is compared across pages: trimmed, and with every run of
/// digits replaced by `<NUM>`, so that `Page 1` matches `Page 42`.
pub open spec fn normalized_line(line: Seq<char>) -> Seq<char> {
    collapse_digits(trimmed(line), trimmed(line).len() as int)
}

/// Normalizes the line `chars[from..to]` for comparison across pages.
pub(crate) fn normalize_range(chars: &Vec<char>, from: usize, to: usize) -> (r: Vec<char>)
    requires
        from <= to <= chars.len(),
    ensures
        r@ == normalized_line(chars@.subrange(from as int, to as int)),
{
    let (a, b) = trim_range(chars, from, to);
    let ghost t = chars@.subrange(a as int, b as int);
    let mut out: Vec<char> = Vec::new();
    let mut in_digits: bool = false;
    let mut i: usize = a;
    while i < b
        invariant
            a <= i <= b <= chars.len(),
            t == chars@.subrange(a as int, b as int),
            in_digits == (i > a && is_digit(chars@[i - 1])),
            out@ == collapse_digits(t, i - a),
        decreases b - i,
    {
        let c: char = chars[i];
        assert(t[i - a] == c);
        assert(i > a ==> t[i - a - 1] == chars@[i - 1]);
        if char_is_digit(c) {
            if !in_digits {
                out.push('<');
                out.push('N');
                out.push('U');
                out.push('M');
                out.push('>');
                in_digits = true;
            }
            assert(out@ == collapse_digits(t, i - a) + collapsed_piece(t, i - a));
        } else {
            in_digits = false;
            out.push(c);
        }
        i += 1;
    }
    out
}

/// Normalizes a line for comparison across pages: trims it and replaces every
/// run of digits by `<NUM>`.
pub fn normalize_header_footer_line(line: &str) -> (r: String)
    ensures
        r@ == normalized_line(line@),
{
    let chars = to_chars(line);
    assert(chars@.subrange(0, chars@.len() as int) == chars@);
    let out = normalize_range(&chars, 0, chars.len());
    string_of(&out)
}

/// The least number of pages on which a line has to repeat to count as a
/// header or footer: six tenths of the pages, rounded up.
pub open spec fn repeat_threshold(pages: int) -> int {
    (3 * pages + 4) / 5
}

/// The line of a page that is compared at distance `pos` from the top, or
/// from the bottom if `bottom`, in normalized form. There is none if the page
/// is too short, if the line is among the first `header` lines when counted
/// from the bottom, or if it is empty once normalized.
pub open spec fn compared_line(lines: Seq<Seq<char>>, pos: int, header: int, bottom: bool) -> Option<
    Seq<char>,
> {
    let idx = if bottom {
        lines.len() - 1 - pos
    } else {
        pos
    };
    if 0 <= idx < lines.len() && (bottom ==> idx >= header) && normalized_line(lines[idx]).len()
        > 0 {
        Some(normalized_line(lines[idx]))
    } else {
        None
    }
}

/// The compared lines of the first `n` pages, in page order.
pub open spec fn candidates(
    texts: Seq<Seq<char>>,
    pos: int,
    header: int,
    bottom: bool,
    n: int,
) -> Seq<Seq<char>>
    decreases n,
{
    if n <= 0 {
        Seq::empty()
    } else {
        let before = candidates(texts, pos, header, bottom, n - 1);
        match compared_line(split_lines(texts[n - 1]), pos, header, bottom) {
            Some(line) => before.push(line),
            None => before,
        }
    }
}

/// How many of the first `n` of `values` equal `v`.
pub open spec fn occurrences(values: Seq<Seq<char>>, v: Seq<char>, n: int) -> int
    decreases n,
{
    if n <= 0 {
        0
    } else {
        occurrences(values, v, n - 1) + if values[n - 1] == v {
            1int
        } else {
            0int
        }
    }
}

/// Some value occurs at least `threshold` times among `values`.
pub open spec fn repeats(values: Seq<Seq<char>>, threshold: int) -> bool {
    exists|j: int|
        0 <= j < values.len() && occurrences(values, #[trigger] values[j], values.len() as int)
            >= threshold
}

/// The line at distance `pos` repeats on enough of the pages.
pub open spec fn position_repeats(texts: Seq<Seq<char>>, pos: int, header: int, bottom: bool) -> bool {
    repeats(
        candidates(texts, pos, header, bottom, texts.len() as int),
        repeat_threshold(texts.len() as int),
    )
}

/// How many of the positions 0, 1, 2 repeat, counted up to the first that
/// does not.
pub open spec fn repeated_positions(texts: Seq<Seq<char>>, header: int, bottom: bool) -> int {
    if !position_repeats(texts, 0, header, bottom) {
        0
    } else if !position_repeats(texts, 1, header, bottom) {
        1
    } else if !position_repeats(texts, 2, header, bottom) {
        2
    } else {
        3
    }
}

/// The number of header lines of a document with these page texts.
pub open spec fn header_count(texts: Seq<Seq<char>>) -> int {
    if texts.len() < 3 {
        0
    } else {
        repeated_positions(texts, 0, false)
    }
}

/// The number of footer lines of a document with these page texts. Lines
/// that the header claims are not looked at.
pub open spec fn footer_count(texts: Seq<Seq<char>>) -> int {
    if texts.len() < 3 {
        0
    } else {
        repeated_positions(texts, header_count(texts), true)
    }
}

/// Where the body begins on a page of `total` lines.
pub open spec fn header_end(texts: Seq<Seq<char>>, total: int) -> int {
    if header_count(texts) < total {
        header_count(texts)
    } else {
        total
    }
}

/// Where the footer begins on a page of `total` lines: never before the end
/// of the header.
pub open spec fn footer_start(texts: Seq<Seq<char>>, total: int) -> int {
    if footer_count(texts) > 0 {
        let start = if total > footer_count(texts) {
            total - footer_count(texts)
        } else {
            0
        };
        if start > header_end(texts, total) {
            start
        } else {
            header_end(texts, total)
        }
    } else {
        total
    }
}

/// The texts of `pages`, in order.
pub open spec fn page_texts(pages: Seq<PageText>) -> Seq<Seq<char>> {
    Seq::new(pages.len(), |i: int| pages[i].text@)
}

/// `page` is page `i` of `pages` parted as the document's header and footer
/// counts say. A document of fewer than three pages has neither.
pub open spec fn is_structured(pages: Seq<PageText>, i: int, page: StructuredPageText) -> bool {
    let texts = page_texts(pages);
    let lines = split_lines(pages[i].text@);
    let total = lines.len() as int;
    &&& page.page == pages[i].page
    &&& pages.len() < 3 ==> page.header@.len() == 0 && page.body@ == pages[i].text@
        && page.footer@.len() == 0
    &&& pages.len() >= 3 ==> {
        &&& page.header@ == join_lines(lines.subrange(0, header_end(texts, total)))
        &&& page.body@ == join_lines(
            lines.subrange(header_end(texts, total), footer_start(texts, total)),
        )
        &&& page.footer@ == join_lines(lines.subrange(footer_start(texts, total), total))
    }
}

/// Header, body and footer of a page hold between them every line of the
/// page once and in order: the three ranges of lines that they are joined
/// from follow one another and make up the page's lines.
pub proof fn lemma_partition_reconstructs(texts: Seq<Seq<char>>, lines: Seq<Seq<char>>)
    ensures
        0 <= header_end(texts, lines.len() as int) <= footer_start(texts, lines.len() as int)
            <= lines.len(),
        lines.subrange(0, header_end(texts, lines.len() as int)) + lines.subrange(
            header_end(texts, lines.len() as int),
            footer_start(texts, lines.len() as int),
        ) + lines.subrange(footer_start(texts, lines.len() as int), lines.len() as int) == lines,
{
    let total = lines.len() as int;
    let h = header_end(texts, total);
    let f = footer_start(texts, total);
    assert(lines.subrange(0, h) + lines.subrange(h, f) + lines.subrange(f, total) =~= lines);
}

/// A document of fewer than three pages has no header and no footer: the
/// body of each page begins at its first line and ends at its last.
pub proof fn lemma_short_document_has_no_header_or_footer(texts: Seq<Seq<char>>, total: int)
    requires
        texts.len() < 3,
        0 <= total,
    ensures
        header_count(texts) == 0,
        footer_count(texts) == 0,
        header_end(texts, total) == 0,
        footer_start(texts, total) == total,
{
}

/// A text together with the bounds of its lines.
struct TextLines {
    chars: Vec<char>,
    ranges: Vec<(usize, usize)>,
}

impl TextLines {
    spec fn wf(&self) -> bool {
        &&& self.ranges@.len() == split_lines(self.chars@).len()
        &&& forall|i: int|
            0 <= i < self.ranges@.len() ==> (#[trigger] self.ranges@[i]).0 <= self.ranges@[i].1
                <= self.chars@.len()
        &&& forall|i: int|
            0 <= i < self.ranges@.len() ==> self.chars@.subrange(
                self.ranges@[i].0 as int,
                self.ranges@[i].1 as int,
            ) == #[trigger] split_lines(self.chars@)[i]
    }

    spec fn lines(&self) -> Seq<Seq<char>> {
        split_lines(self.chars@)
    }

    fn new(text: &str) -> (r: Self)
        ensures
            r.wf(),
            r.chars@ == text@,
    {
        let chars = to_chars(text);
        let ranges = line_ranges(&chars);
        TextLines { chars, ranges }
    }

    /// The lines `from..to`, joined by line feeds.
    fn join(&self, from: usize, to: usize) -> (s: String)
        requires
            self.wf(),
            from <= to <= self.ranges@.len(),
        ensures
            s@ == join_lines(self.lines().subrange(from as int, to as int)),
    {
        let mut out: Vec<char> = Vec::new();
        let mut i: usize = from;
        while i < to
            invariant
                self.wf(),
                from <= i <= to <= self.ranges@.len(),
                out@ == join_lines(self.lines().subrange(from as int, i as int)),
            decreases to - i,
        {
            if i > from {
                out.push('\n');
            }
            let (a, b) = self.ranges[i];
            assert(self.chars@.subrange(a as int, b as int) == self.lines()[i as int]);
            push_range(&mut out, &self.chars, a, b);
            proof {
                let before = self.lines().subrange(from as int, i as int);
                let after = self.lines().subrange(from as int, i + 1);
                assert(after.drop_last() == before);
                assert(after.last() == self.lines()[i as int]);
            }
            i += 1;
        }
        string_of(&out)
    }
}

spec fn texts_of(docs: Seq<TextLines>) -> Seq<Seq<char>> {
    Seq::new(docs.len(), |i: int| docs[i].chars@)
}

spec fn views(values: Seq<Vec<char>>) -> Seq<Seq<char>> {
    Seq::new(values.len(), |i: int| values[i]@)
}

/// Gathers the compared lines of all pages.
fn candidates_of(docs: &Vec<TextLines>, pos: usize, header: usize, bottom: bool) -> (r: Vec<
    Vec<char>,
>)
    requires
        forall|i: int| 0 <= i < docs@.len() ==> (#[trigger] docs@[i]).wf(),
    ensures
        views(r@) == candidates(
            texts_of(docs@),
            pos as int,
            header as int,
            bottom,
            docs@.len() as int,
        ),
{
    let ghost texts = texts_of(docs@);
    let mut found: Vec<Vec<char>> = Vec::new();
    let mut p: usize = 0;
    assert(views(found@) =~= Seq::<Seq<char>>::empty());
    while p < docs.len()
        invariant
            p <= docs@.len(),
            texts == texts_of(docs@),
            forall|i: int| 0 <= i < docs@.len() ==> (#[trigger] docs@[i]).wf(),
            views(found@) == candidates(texts, pos as int, header as int, bottom, p as int),
        decreases docs@.len() - p,
    {
        let doc = &docs[p];
        assert(doc.wf());
        assert(texts[p as int] == doc.chars@);
        let total: usize = doc.ranges.len();
        let ghost lines = split_lines(doc.chars@);
        let mut chosen: Option<usize> = None;
        if bottom {
            if total > pos && total - 1 - pos >= header {
                chosen = Some(total - 1 - pos);
            }
        } else {
            if pos < total {
                chosen = Some(pos);
            }
        }
        let ghost before = views(found@);
        match chosen {
            Some(idx) => {
                let (a, b) = doc.ranges[idx];
                assert(doc.chars@.subrange(a as int, b as int) == lines[idx as int]);
                let norm = normalize_range(&doc.chars, a, b);
                if norm.len() > 0 {
                    assert(compared_line(lines, pos as int, header as int, bottom) == Some(
                        norm@,
                    ));
                    found.push(norm);
                    assert(views(found@) =~= before.push(norm@));
                } else {
                    assert(compared_line(lines, pos as int, header as int, bottom) is None);
                }
            },
            None => {
                assert(compared_line(lines, pos as int, header as int, bottom) is None);
            },
        }
        p += 1;
    }
    found
}

/// Tells whether some value occurs at least `threshold` times.
fn reaches(values: &Vec<Vec<char>>, threshold: usize) -> (r: bool)
    ensures
        r == repeats(views(values@), threshold as int),
{
    let ghost vs = views(values@);
    let n: usize = values.len();
    let mut j: usize = 0;
    while j < n
        invariant
            j <= n,
            n == values@.len(),
            vs == views(values@),
            forall|k: int| 0 <= k < j ==> occurrences(vs, #[trigger] vs[k], n as int) < threshold,
        decreases n - j,
    {
        let mut count: usize = 0;
        let mut k: usize = 0;
        while k < n
            invariant
                j < n,
                k <= n,
                n == values@.len(),
                vs == views(values@),
                count == occurrences(vs, vs[j as int], k as int),
                count <= k,
            decreases n - k,
        {
            let candidate = &values[k];
            assert(candidate@.subrange(0, candidate@.len() as int) == candidate@);
            assert(vs[k as int] == candidate@);
            if range_eq(candidate, 0, candidate.len(), &values[j]) {
                count += 1;
            }
            k += 1;
        }
        if count >= threshold {
            return true;
        }
        j += 1;
    }
    false
}

/// Counts the positions, from the top or from the bottom, at which a line
/// repeats on enough pages.
fn count_repeated(docs: &Vec<TextLines>, header: usize, bottom: bool) -> (r: usize)
    requires
        forall|i: int| 0 <= i < docs@.len() ==> (#[trigger] docs@[i]).wf(),
    ensures
        r == repeated_positions(texts_of(docs@), header as int, bottom),
        r <= 3,
{
    let n: usize = docs.len();
    let threshold: usize = 3 * (n / 5) + (3 * (n % 5) + 4) / 5;
    assert(threshold == repeat_threshold(n as int));
    let ghost texts = texts_of(docs@);
    let mut pos: usize = 0;
    while pos < 3
        invariant
            pos <= 3,
            n == docs@.len(),
            texts == texts_of(docs@),
            threshold == repeat_threshold(n as int),
            forall|i: int| 0 <= i < docs@.len() ==> (#[trigger] docs@[i]).wf(),
            forall|q: int| 0 <= q < pos ==> position_repeats(texts, q, header as int, bottom),
        decreases 3 - pos,
    {
        let found = candidates_of(docs, pos, header, bottom);
        if !reaches(&found, threshold) {
            return pos;
        }
        pos += 1;
    }
    pos
}

/// Finds the lines that repeat at the top and at the bottom of the pages of
/// a document, and parts the text of each page into header, body and footer.
pub fn detect_headers_footers(pages: &Vec<PageText>) -> (r: Vec<StructuredPageText>)
    ensures
        r@.len() == pages@.len(),
        forall|i: int| 0 <= i < r@.len() ==> is_structured(pages@, i, #[trigger] r@[i]),
{
    let n: usize = pages.len();
    let mut out: Vec<StructuredPageText> = Vec::new();
    if n < 3 {
        let mut i: usize = 0;
        while i < n
            invariant
                i <= n,
                n == pages@.len(),
                n < 3,
                out@.len() == i,
                forall|j: int| 0 <= j < i ==> is_structured(pages@, j, #[trigger] out@[j]),
            decreases n - i,
        {
            let page = &pages[i];
            out.push(
                StructuredPageText {
                    page: page.page,
                    header: String::new(),
                    body: page.text.clone(),
                    footer: String::new(),
                },
            );
            i += 1;
        }
        return out;
    }
    let ghost texts = page_texts(pages@);
    let mut docs: Vec<TextLines> = Vec::new();
    let mut i: usize = 0;
    while i < n
        invariant
            i <= n,
            n == pages@.len(),
            docs@.len() == i,
            forall|j: int| 0 <= j < i ==> (#[trigger] docs@[j]).wf(),
            forall|j: int| 0 <= j < i ==> (#[trigger] docs@[j]).chars@ == pages@[j].text@,
        decreases n - i,
    {
        docs.push(TextLines::new(pages[i].text.as_str()));
        i += 1;
    }
    assert(texts_of(docs@) =~= texts);
    let headers: usize = count_repeated(&docs, 0, false);
    let footers: usize = count_repeated(&docs, headers, true);
    assert(headers == header_count(texts));
    assert(footers == footer_count(texts));
    i = 0;
    while i < n
        invariant
            i <= n,
            n == pages@.len(),
            n >= 3,
            docs@.len() == n,
            texts == page_texts(pages@),
            headers == header_count(texts),
            footers == footer_count(texts),
            forall|j: int| 0 <= j < n ==> (#[trigger] docs@[j]).wf(),
            forall|j: int| 0 <= j < n ==> (#[trigger] docs@[j]).chars@ == pages@[j].text@,
            out@.len() == i,
            forall|j: int| 0 <= j < i ==> is_structured(pages@, j, #[trigger] out@[j]),
        decreases n - i,
    {
        let doc = &docs[i];
        assert(doc.wf());
        assert(doc.lines() == split_lines(pages@[i as int].text@));
        let total: usize = doc.ranges.len();
        let h_end: usize = if headers < total {
            headers
        } else {
            total
        };
        let f_start: usize = if footers > 0 {
            let start: usize = if total > footers {
                total - footers
            } else {
                0
            };
            if start > h_end {
                start
            } else {
                h_end
            }
        } else {
            total
        };
        assert(h_end == header_end(texts, total as int));
        assert(f_start == footer_start(texts, total as int));
        let page = StructuredPageText {
            page: pages[i].page,
            header: doc.join(0, h_end),
            body: doc.join(h_end, f_start),
            footer: doc.join(f_start, total),
        };
        out.push(page);
        i += 1;
    }
    out
}

impl Ranked for PageText {
    open spec fn sort_key(&self) -> int {
        self.page as int
    }

    fn key(&self) -> (k: u64) {
        self.page as u64
    }
}

/// The text of a page of a document of `count` pages: what the object-model
/// library reads from the page, or nothing where it fails, without the split
/// footers.
pub open spec fn page_text_of(doc: Document, page: u32, count: nat) -> Seq<char> {
    footer_stripped(
        match native_page_text(doc, page) {
            Some(text) => text,
            None => Seq::empty(),
        },
        decimal(count),
    )
}

/// `texts` are the texts of the pages of the document, page after page.
pub open spec fn are_page_texts(doc: Document, texts: Seq<PageText>) -> bool {
    let pages = document_pages(doc);
    &&& texts.len() == pages.len()
    &&& forall|i: int|
        0 <= i < texts.len() ==> (#[trigger] texts[i]).page == pages[i].0 && texts[i].text@
            == page_text_of(doc, pages[i].0, pages.len())
}

/// Extracts the text of one page of a document whose number of pages is
/// written `page_count_str`.
pub fn extract_page_text(doc: &Document, page: u32, page_count_str: &str) -> (r: String)
    ensures
        r@ == footer_stripped(
            match native_page_text(*doc, page) {
                Some(text) => text,
                None => Seq::empty(),
            },
            page_count_str@,
        ),
{
    let raw = match page_text(doc, page) {
        Some(text) => text,
        None => String::new(),
    };
    strip_footer_artifacts(raw.as_str(), page_count_str)
}

/// Writes the number of pages as the footers of the document write it.
pub fn page_count_text(count: usize) -> (r: String)
    ensures
        r@ == decimal(count as nat),
{
    let mut digits: Vec<char> = Vec::new();
    push_decimal(&mut digits, count as u64);
    string_of(&digits)
}

/// Extracts the text of every page, in ascending order of the pages.
pub fn extract_text(doc: &Document) -> (r: Vec<PageText>)
    ensures
        are_page_texts(*doc, r@),
        is_sorted(r@),
{
    let pages = page_list(doc);
    let count = page_count_text(pages.len());
    let mut all: Vec<PageText> = Vec::new();
    let mut i: usize = 0;
    while i < pages.len()
        invariant
            i <= pages@.len(),
            pages@ == document_pages(*doc),
            count@ == decimal(pages@.len()),
            forall|a: int, b: int| 0 <= a < b < pages@.len() ==> pages@[a].0 < pages@[b].0,
            all@.len() == i,
            forall|k: int|
                0 <= k < i ==> (#[trigger] all@[k]).page == pages@[k].0 && all@[k].text@
                    == page_text_of(*doc, pages@[k].0, pages@.len()),
        decreases pages@.len() - i,
    {
        let page: u32 = pages[i].0;
        let text = extract_page_text(doc, page, count.as_str());
        all.push(PageText { page, text });
        i += 1;
    }
    let ghost gathered = all@;
    assert(is_sorted(gathered)) by {
        assert forall|a: int, b: int| 0 <= a <= b < gathered.len() implies gathered[a].sort_key()
            <= gathered[b].sort_key() by {
            assert(gathered[a].page == pages@[a].0);
            assert(gathered[b].page == pages@[b].0);
        }
    }
    sort_by_key(&mut all);
    proof {
        lemma_sorted_stays(gathered, gathered.len() as int);
        assert(gathered.take(gathered.len() as int) =~= gathered);
    }
    all
}

/// `parted` are the texts of the pages of the document, each parted into
/// header, body and footer.
pub open spec fn are_structured_texts(doc: Document, parted: Seq<StructuredPageText>) -> bool {
    exists|texts: Seq<PageText>|
        are_page_texts(doc, texts) && parted.len() == texts.len() && forall|i: int|
            0 <= i < parted.len() ==> is_structured(texts, i, #[trigger] parted[i])
}

/// Extracts the text of every page and parts it into header, body and
/// footer.
pub fn extract_structured_text(doc: &Document) -> (r: Vec<StructuredPageText>)
    ensures
        are_structured_texts(*doc, r@),
{
    let pages = extract_text(doc);
    detect_headers_footers(&pages)
}

} // verus!
