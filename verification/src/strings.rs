//! Text as sequences of characters: whitespace, trimming, lines and joining.

use vstd::prelude::*;
use vstd::utf8::encode_utf8_decode_utf8;

verus! {

/// Characters with the Unicode property White_Space.
pub open spec fn is_whitespace(c: char) -> bool {
    let u = c as u32;
    ||| 0x09 <= u <= 0x0D
    ||| u == 0x20
    ||| u == 0x85
    ||| u == 0xA0
    ||| u == 0x1680
    ||| 0x2000 <= u <= 0x200A
    ||| u == 0x2028
    ||| u == 0x2029
    ||| u == 0x202F
    ||| u == 0x205F
    ||| u == 0x3000
}

/// The decimal digits `0` to `9`.
pub open spec fn is_digit(c: char) -> bool {
    '0' <= c <= '9'
}

/// `s` without its leading whitespace.
pub open spec fn trim_start(s: Seq<char>) -> Seq<char>
    decreases s.len(),
{
    if s.len() > 0 && is_whitespace(s[0]) {
        trim_start(s.drop_first())
    } else {
        s
    }
}

/// `s` without its trailing whitespace.
pub open spec fn trim_end(s: Seq<char>) -> Seq<char>
    decreases s.len(),
{
    if s.len() > 0 && is_whitespace(s.last()) {
        trim_end(s.drop_last())
    } else {
        s
    }
}

/// `s` without leading and trailing whitespace.
pub open spec fn trimmed(s: Seq<char>) -> Seq<char> {
    trim_end(trim_start(s))
}

/// The position of the first line feed in `s`, or its length if it has none.
pub open spec fn first_newline(s: Seq<char>) -> int
    decreases s.len(),
{
    if s.len() == 0 || s[0] == '\n' {
        0
    } else {
        1 + first_newline(s.drop_first())
    }
}

/// `line` without one trailing carriage return.
pub open spec fn strip_cr(line: Seq<char>) -> Seq<char> {
    if line.len() > 0 && line.last() == '\r' {
        line.drop_last()
    } else {
        line
    }
}

/// The lines of `s`. A line ends at a line feed, which is left out together
/// with a carriage return directly before it; what follows the last line feed
/// is a line too unless it is empty.
pub open spec fn split_lines(s: Seq<char>) -> Seq<Seq<char>>
    decreases s.len(),
    via split_lines_decreases
{
    if s.len() == 0 {
        Seq::empty()
    } else {
        let n = first_newline(s);
        if n >= s.len() {
            seq![s]
        } else {
            seq![strip_cr(s.subrange(0, n))] + split_lines(s.subrange(n + 1, s.len() as int))
        }
    }
}

#[via_fn]
proof fn split_lines_decreases(s: Seq<char>) {
    lemma_first_newline(s);
}

/// `first_newline` gives a position in `s` or its length; a line feed stands
/// there, and none before it.
pub proof fn lemma_first_newline(s: Seq<char>)
    ensures
        0 <= first_newline(s) <= s.len(),
        first_newline(s) < s.len() ==> s[first_newline(s)] == '\n',
        forall|i: int| 0 <= i < first_newline(s) ==> s[i] != '\n',
    decreases s.len(),
{
    if s.len() > 0 && s[0] != '\n' {
        let rest = s.drop_first();
        lemma_first_newline(rest);
        assert forall|i: int| 0 <= i < first_newline(s) implies s[i] != '\n' by {
            if i > 0 {
                assert(rest[i - 1] == s[i]);
            }
        }
    }
}

/// `lines` with a line feed between each two.
pub open spec fn join_lines(lines: Seq<Seq<char>>) -> Seq<char>
    decreases lines.len(),
{
    if lines.len() == 0 {
        Seq::empty()
    } else if lines.len() == 1 {
        lines[0]
    } else {
        join_lines(lines.drop_last()) + seq!['\n'] + lines.last()
    }
}

/// Tells whether `c` is whitespace.
pub fn char_is_whitespace(c: char) -> (r: bool)
    ensures
        r == is_whitespace(c),
{
    let u: u32 = c as u32;
    (0x09 <= u && u <= 0x0D) || u == 0x20 || u == 0x85 || u == 0xA0 || u == 0x1680 || (0x2000 <= u
        && u <= 0x200A) || u == 0x2028 || u == 0x2029 || u == 0x202F || u == 0x205F || u == 0x3000
}

/// Tells whether `c` is a decimal digit.
pub fn char_is_digit(c: char) -> (r: bool)
    ensures
        r == is_digit(c),
{
    '0' <= c && c <= '9'
}

/// The characters of `s`.
pub fn to_chars(s: &str) -> (v: Vec<char>)
    ensures
        v@ == s@,
{
    let mut v: Vec<char> = Vec::new();
    for c in it: s.chars()
        invariant
            it.seq() == s@,
            v@ == it.seq().take(it.index() as int),
    {
        v.push(c);
    }
    v
}

/// A position at which a line feed stands, with none before it, is what
/// `first_newline` gives; so is the length of a text without line feeds.
pub proof fn lemma_first_newline_is(s: Seq<char>, k: int)
    requires
        0 <= k <= s.len(),
        forall|i: int| 0 <= i < k ==> s[i] != '\n',
        k < s.len() ==> s[k] == '\n',
    ensures
        first_newline(s) == k,
{
    lemma_first_newline(s);
}

/// `std`'s `String::push` appends one character.
pub assume_specification[ String::push ](s: &mut String, c: char)
    ensures
        final(s)@ == old(s)@.push(c),
;

/// The text made of `chars`.
pub fn string_of(chars: &Vec<char>) -> (s: String)
    ensures
        s@ == chars@,
{
    let mut s = String::new();
    let mut i: usize = 0;
    while i < chars.len()
        invariant
            i <= chars.len(),
            s@ == chars@.take(i as int),
        decreases chars.len() - i,
    {
        s.push(chars[i]);
        i += 1;
        assert(chars@.take(i as int) == chars@.take(i - 1).push(chars@[i - 1]));
    }
    assert(chars@.take(chars.len() as int) == chars@);
    s
}

/// Compares the characters `chars[from..to]` with `other`.
pub(crate) fn range_eq(chars: &Vec<char>, from: usize, to: usize, other: &Vec<char>) -> (r: bool)
    requires
        from <= to <= chars.len(),
    ensures
        r == (chars@.subrange(from as int, to as int) == other@),
{
    if to - from != other.len() {
        return false;
    }
    let ghost part = chars@.subrange(from as int, to as int);
    let mut i: usize = 0;
    while i < other.len()
        invariant
            from <= to <= chars.len(),
            to - from == other.len(),
            i <= other.len(),
            part == chars@.subrange(from as int, to as int),
            forall|j: int| 0 <= j < i ==> part[j] == other@[j],
        decreases other.len() - i,
    {
        if chars[from + i] != other[i] {
            assert(part[i as int] != other@[i as int]);
            return false;
        }
        i += 1;
    }
    assert(part =~= other@);
    true
}

/// Appends the characters `chars[from..to]` to `out`.
pub(crate) fn push_range(out: &mut Vec<char>, chars: &Vec<char>, from: usize, to: usize)
    requires
        from <= to <= chars.len(),
    ensures
        final(out)@ == old(out)@ + chars@.subrange(from as int, to as int),
{
    let mut i: usize = from;
    while i < to
        invariant
            from <= i <= to <= chars.len(),
            out@ == old(out)@ + chars@.subrange(from as int, i as int),
        decreases to - i,
    {
        out.push(chars[i]);
        i += 1;
        assert(chars@.subrange(from as int, i as int) == chars@.subrange(
            from as int,
            i - 1,
        ).push(chars@[i - 1]));
    }
}

/// The bounds of `chars[from..to]` without leading and trailing whitespace.
pub(crate) fn trim_range(chars: &Vec<char>, from: usize, to: usize) -> (r: (usize, usize))
    requires
        from <= to <= chars.len(),
    ensures
        from <= r.0 <= r.1 <= to,
        chars@.subrange(r.0 as int, r.1 as int) == trimmed(
            chars@.subrange(from as int, to as int),
        ),
{
    let mut a: usize = from;
    while a < to && char_is_whitespace(chars[a])
        invariant
            from <= a <= to <= chars.len(),
            trim_start(chars@.subrange(from as int, to as int)) == trim_start(
                chars@.subrange(a as int, to as int),
            ),
        decreases to - a,
    {
        assert(chars@.subrange(a as int, to as int).drop_first() == chars@.subrange(
            a + 1,
            to as int,
        ));
        a += 1;
    }
    let mut b: usize = to;
    while b > a && char_is_whitespace(chars[b - 1])
        invariant
            a <= b <= to <= chars.len(),
            trim_end(chars@.subrange(a as int, to as int)) == trim_end(
                chars@.subrange(a as int, b as int),
            ),
        decreases b - a,
    {
        assert(chars@.subrange(a as int, b as int).drop_last() == chars@.subrange(
            a as int,
            b - 1,
        ));
        b -= 1;
    }
    (a, b)
}

/// The bounds of each line of `chars`, in order.
pub fn line_ranges(chars: &Vec<char>) -> (r: Vec<(usize, usize)>)
    ensures
        r@.len() == split_lines(chars@).len(),
        forall|i: int| 0 <= i < r@.len() ==> (#[trigger] r@[i]).0 <= r@[i].1 <= chars@.len(),
        forall|i: int|
            0 <= i < r@.len() ==> chars@.subrange(r@[i].0 as int, r@[i].1 as int)
                == #[trigger] split_lines(chars@)[i],
{
    let n: usize = chars.len();
    let mut ranges: Vec<(usize, usize)> = Vec::new();
    let ghost mut done: Seq<Seq<char>> = Seq::empty();
    let mut start: usize = 0;
    let mut i: usize = 0;
    assert(chars@.subrange(0, n as int) == chars@);
    assert(done + split_lines(chars@) == split_lines(chars@));
    while i < n
        invariant
            n == chars@.len(),
            start <= i <= n,
            forall|j: int| start <= j < i ==> chars@[j] != '\n',
            ranges@.len() == done.len(),
            forall|j: int|
                0 <= j < ranges@.len() ==> (#[trigger] ranges@[j]).0 <= ranges@[j].1 <= n,
            forall|j: int|
                0 <= j < ranges@.len() ==> chars@.subrange(
                    ranges@[j].0 as int,
                    ranges@[j].1 as int,
                ) == #[trigger] done[j],
            split_lines(chars@) == done + split_lines(chars@.subrange(start as int, n as int)),
        decreases n - i,
    {
        if chars[i] == '\n' {
            let ghost rest = chars@.subrange(start as int, n as int);
            let end: usize = if i > start && chars[i - 1] == '\r' {
                (i - 1) as usize
            } else {
                i
            };
            proof {
                lemma_first_newline_is(rest, i - start);
                let line = rest.subrange(0, i - start);
                assert(line == chars@.subrange(start as int, i as int));
                assert(strip_cr(line) == chars@.subrange(start as int, end as int));
                assert(rest.subrange(i - start + 1, rest.len() as int) == chars@.subrange(
                    i + 1,
                    n as int,
                ));
                assert(split_lines(rest) == seq![strip_cr(line)] + split_lines(
                    chars@.subrange(i + 1, n as int),
                ));
                assert(done + (seq![strip_cr(line)] + split_lines(
                    chars@.subrange(i + 1, n as int),
                )) == done.push(strip_cr(line)) + split_lines(chars@.subrange(i + 1, n as int)));
                done = done.push(strip_cr(line));
            }
            let ghost before = ranges@;
            ranges.push((start, end));
            assert forall|j: int| 0 <= j < ranges@.len() implies chars@.subrange(
                ranges@[j].0 as int,
                ranges@[j].1 as int,
            ) == #[trigger] done[j] by {
                if j < before.len() {
                    assert(ranges@[j] == before[j]);
                    assert(done[j] == done.drop_last()[j]);
                }
            }
            start = i + 1;
        }
        i += 1;
    }
    let ghost rest = chars@.subrange(start as int, n as int);
    if start < n {
        let ghost before = ranges@;
        ranges.push((start, n));
        proof {
            lemma_first_newline_is(rest, rest.len() as int);
            assert(split_lines(rest) == seq![rest]);
            assert(done + seq![rest] == done.push(rest));
            assert forall|j: int| 0 <= j < ranges@.len() implies chars@.subrange(
                ranges@[j].0 as int,
                ranges@[j].1 as int,
            ) == #[trigger] split_lines(chars@)[j] by {
                if j < before.len() {
                    assert(ranges@[j] == before[j]);
                    assert(done.push(rest)[j] == done[j]);
                }
            }
        }
    } else {
        proof {
            assert(split_lines(rest) == Seq::<Seq<char>>::empty());
            assert(done + Seq::<Seq<char>>::empty() == done);
        }
    }
    ranges
}

/// Compares two texts.
pub fn text_eq(a: &str, b: &str) -> (r: bool)
    ensures
        r == (a@ == b@),
{
    let r = bytes_match(a.as_bytes(), b.as_bytes());
    proof {
        encode_utf8_decode_utf8(a@);
        encode_utf8_decode_utf8(b@);
    }
    r
}

/// Compares two byte strings.
fn bytes_match(a: &[u8], b: &[u8]) -> (r: bool)
    ensures
        r == (a@ == b@),
{
    if a.len() != b.len() {
        return false;
    }
    let mut i: usize = 0;
    while i < a.len()
        invariant
            a@.len() == b@.len(),
            i <= a@.len(),
            forall|j: int| 0 <= j < i ==> a@[j] == b@[j],
        decreases a@.len() - i,
    {
        if a[i] != b[i] {
            return false;
        }
        i += 1;
    }
    assert(a@ =~= b@);
    true
}

/// `line` holds no line feed.
pub open spec fn is_one_line(line: Seq<char>) -> bool {
    forall|i: int| 0 <= i < line.len() ==> line[i] != '\n'
}

/// The lines of a text hold no line feed.
pub proof fn lemma_split_lines_are_lines(s: Seq<char>)
    ensures
        forall|i: int| 0 <= i < split_lines(s).len() ==> is_one_line(#[trigger] split_lines(s)[i]),
    decreases s.len(),
{
    if s.len() > 0 {
        lemma_first_newline(s);
        let n = first_newline(s);
        if n < s.len() {
            let rest = s.subrange(n + 1, s.len() as int);
            lemma_split_lines_are_lines(rest);
            let head = strip_cr(s.subrange(0, n));
            assert(is_one_line(head)) by {
                assert forall|i: int| 0 <= i < head.len() implies head[i] != '\n' by {
                    assert(head[i] == s[i]);
                }
            }
            assert forall|i: int| 0 <= i < split_lines(s).len() implies is_one_line(
                #[trigger] split_lines(s)[i],
            ) by {
                if i > 0 {
                    assert(split_lines(s)[i] == split_lines(rest)[i - 1]);
                }
            }
        }
    }
}

/// Trimming at the front goes on behind one more character as it does
/// without it, as long as anything is left.
pub proof fn lemma_trim_start_push(s: Seq<char>, c: char)
    ensures
        trim_start(s.push(c)) == if trim_start(s).len() > 0 {
            trim_start(s).push(c)
        } else if is_whitespace(c) {
            Seq::<char>::empty()
        } else {
            seq![c]
        },
    decreases s.len(),
{
    let more = s.push(c);
    if s.len() > 0 && is_whitespace(s[0]) {
        lemma_trim_start_push(s.drop_first(), c);
        assert(more[0] == s[0]);
        assert(more.drop_first() == s.drop_first().push(c));
    } else if s.len() == 0 {
        assert(more[0] == c);
        assert(more.drop_first() =~= Seq::<char>::empty());
        assert(more =~= seq![c]);
        assert(trim_start(Seq::<char>::empty()) =~= Seq::<char>::empty());
    } else {
        assert(more[0] == s[0]);
    }
}

/// A carriage return at the end of a line is whitespace: the line trims to
/// the same with it and without it.
pub proof fn lemma_trimmed_strip_cr(line: Seq<char>)
    ensures
        trimmed(strip_cr(line)) == trimmed(line),
{
    if line.len() > 0 && line.last() == '\r' {
        let front = line.drop_last();
        assert(front.push('\r') == line);
        lemma_trim_start_push(front, '\r');
        if trim_start(front).len() > 0 {
            assert(trim_start(front).push('\r').drop_last() == trim_start(front));
        }
    }
}

/// Joined lines begin with the first line; a line feed and the other lines,
/// joined, follow.
pub proof fn lemma_join_lines_front(lines: Seq<Seq<char>>)
    requires
        lines.len() >= 2,
    ensures
        join_lines(lines) == lines[0] + seq!['\n'] + join_lines(lines.drop_first()),
    decreases lines.len(),
{
    let rest = lines.drop_first();
    if lines.len() == 2 {
        assert(lines.drop_last() =~= seq![lines[0]]);
        assert(rest =~= seq![lines[1]]);
        assert(join_lines(lines.drop_last()) == lines[0]);
        assert(join_lines(rest) == lines[1]);
    } else {
        lemma_join_lines_front(lines.drop_last());
        assert(lines.drop_last().drop_first() == rest.drop_last());
        assert(lines.drop_last()[0] == lines[0]);
        assert(rest.last() == lines.last());
        assert(join_lines(lines) == (lines[0] + seq!['\n'] + join_lines(rest.drop_last()))
            + seq!['\n'] + lines.last());
        assert(join_lines(rest) == join_lines(rest.drop_last()) + seq!['\n'] + rest.last());
        assert(join_lines(lines) =~= lines[0] + seq!['\n'] + join_lines(rest));
    }
}

/// Lines that are joined and split again come out as they went in, but for
/// a carriage return at the end of a line, which is lost, and for an empty
/// last line, which is lost too.
pub proof fn lemma_rejoined_lines(lines: Seq<Seq<char>>)
    requires
        forall|i: int| 0 <= i < lines.len() ==> is_one_line(#[trigger] lines[i]),
    ensures
        lines.len() - 1 <= split_lines(join_lines(lines)).len() <= lines.len(),
        lines.len() > 0 && lines.last().len() > 0 ==> split_lines(join_lines(lines)).len()
            == lines.len(),
        forall|i: int|
            0 <= i < split_lines(join_lines(lines)).len() ==> (#[trigger] split_lines(
                join_lines(lines),
            )[i] == lines[i] || split_lines(join_lines(lines))[i] == strip_cr(lines[i])),
    decreases lines.len(),
{
    if lines.len() == 1 {
        let only = lines[0];
        assert(is_one_line(only));
        if only.len() > 0 {
            lemma_first_newline_is(only, only.len() as int);
        }
    } else if lines.len() >= 2 {
        let head = lines[0];
        let rest = lines.drop_first();
        lemma_join_lines_front(lines);
        assert forall|i: int| 0 <= i < rest.len() implies is_one_line(#[trigger] rest[i]) by {
            assert(rest[i] == lines[i + 1]);
        }
        lemma_rejoined_lines(rest);
        assert(rest.last() == lines.last());
        let joined = join_lines(lines);
        let tail = join_lines(rest);
        assert(is_one_line(head));
        assert(joined == head + seq!['\n'] + tail);
        assert(joined.len() > 0);
        assert forall|i: int| 0 <= i < head.len() implies joined[i] != '\n' by {
            assert(joined[i] == head[i]);
        }
        assert(joined[head.len() as int] == '\n');
        lemma_first_newline_is(joined, head.len() as int);
        assert(joined.subrange(0, head.len() as int) =~= head);
        assert(joined.subrange(head.len() as int + 1, joined.len() as int) =~= tail);
        assert(split_lines(joined) == seq![strip_cr(head)] + split_lines(tail));
        assert forall|i: int| 0 <= i < split_lines(joined).len() implies (#[trigger] split_lines(
            joined,
        )[i] == lines[i] || split_lines(joined)[i] == strip_cr(lines[i])) by {
            if i > 0 {
                assert(split_lines(joined)[i] == split_lines(tail)[i - 1]);
                assert(rest[i - 1] == lines[i]);
            }
        }
    }
}

/// The characters of the first `n` of `lines`, with one more for each line.
pub open spec fn weight(lines: Seq<Seq<char>>, n: int) -> int
    decreases n,
{
    if n <= 0 {
        0
    } else {
        weight(lines, n - 1) + lines[n - 1].len() + 1
    }
}

/// Joined lines are as long as the lines together, with one character
/// between each two.
pub proof fn lemma_join_lines_len(lines: Seq<Seq<char>>)
    ensures
        join_lines(lines).len() == if lines.len() == 0 {
            0
        } else {
            weight(lines, lines.len() as int) - 1
        },
    decreases lines.len(),
{
    if lines.len() == 1 {
        assert(weight(lines, 0) == 0);
    } else if lines.len() >= 2 {
        let front = lines.drop_last();
        lemma_join_lines_len(front);
        lemma_weight_of_prefix(lines, front, front.len() as int);
    }
}

/// The weight of the first lines is that of any sequence that begins with
/// them.
pub proof fn lemma_weight_of_prefix(lines: Seq<Seq<char>>, front: Seq<Seq<char>>, n: int)
    requires
        0 <= n <= front.len() <= lines.len(),
        forall|i: int| 0 <= i < n ==> front[i] == lines[i],
    ensures
        weight(lines, n) == weight(front, n),
    decreases n,
{
    if n > 0 {
        lemma_weight_of_prefix(lines, front, n - 1);
    }
}

/// A text that is split into lines and joined again is no longer than it
/// was.
pub proof fn lemma_rejoined_text_len(s: Seq<char>)
    ensures
        join_lines(split_lines(s)).len() <= s.len(),
    decreases s.len(),
{
    if s.len() > 0 {
        lemma_first_newline(s);
        let n = first_newline(s);
        if n < s.len() {
            let rest = s.subrange(n + 1, s.len() as int);
            lemma_rejoined_text_len(rest);
            let head = strip_cr(s.subrange(0, n));
            let tail = split_lines(rest);
            let all = seq![head] + tail;
            assert(split_lines(s) == all);
            if tail.len() == 0 {
                assert(all =~= seq![head]);
            } else {
                lemma_join_lines_front(all);
                assert(all.drop_first() =~= tail);
            }
        } else {
            assert(split_lines(s) == seq![s]);
        }
    }
}

} // verus!
