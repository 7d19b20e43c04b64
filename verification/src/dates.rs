//! Conversion of PDF date strings to ISO 8601.

use vstd::prelude::*;
use crate::strings::{push_range, string_of, to_chars};

verus! {

/// `raw` without the prefix `D:`, if it has one.
pub open spec fn without_date_prefix(raw: Seq<char>) -> Seq<char> {
    if raw.len() >= 2 && raw[0] == 'D' && raw[1] == ':' {
        raw.subrange(2, raw.len() as int)
    } else {
        raw
    }
}

/// The two characters of `s` at `from`, or `default` if `s` ends before them.
pub open spec fn date_field(s: Seq<char>, from: int, default: Seq<char>) -> Seq<char> {
    if from + 2 <= s.len() {
        s.subrange(from, from + 2)
    } else {
        default
    }
}

/// The first `n` characters of `s` without the apostrophes among them.
pub open spec fn without_apostrophes(s: Seq<char>, n: int) -> Seq<char>
    decreases n,
{
    if n <= 0 {
        Seq::empty()
    } else if s[n - 1] == '\'' {
        without_apostrophes(s, n - 1)
    } else {
        without_apostrophes(s, n - 1).push(s[n - 1])
    }
}

/// The time zone of ISO 8601 for what follows the seconds in a PDF date:
/// nothing for nothing, `Z` for anything that starts with `Z`, and else sign,
/// hours, a colon and minutes, read from what is left once the apostrophes
/// are gone. Minutes that are missing are `00`; fewer than three characters
/// give no time zone.
pub open spec fn iso_zone(zone: Seq<char>) -> Seq<char> {
    if zone.len() == 0 {
        Seq::empty()
    } else if zone[0] == 'Z' {
        seq!['Z']
    } else {
        let cleaned = without_apostrophes(zone, zone.len() as int);
        if cleaned.len() >= 3 {
            cleaned.subrange(0, 3) + seq![':'] + date_field(cleaned, 3, seq!['0', '0'])
        } else {
            Seq::empty()
        }
    }
}

/// The ISO 8601 form of the PDF date `raw`. A date of fewer than four
/// characters after the prefix stays as it is. Month and day that are
/// missing are `01`, hour, minute and second `00`.
pub open spec fn iso8601(raw: Seq<char>) -> Seq<char> {
    let s = without_date_prefix(raw);
    if s.len() < 4 {
        raw
    } else {
        let zone = if s.len() > 14 {
            s.subrange(14, s.len() as int)
        } else {
            Seq::empty()
        };
        s.subrange(0, 4) + seq!['-'] + date_field(s, 4, seq!['0', '1']) + seq!['-'] + date_field(
            s,
            6,
            seq!['0', '1'],
        ) + seq!['T'] + date_field(s, 8, seq!['0', '0']) + seq![':'] + date_field(
            s,
            10,
            seq!['0', '0'],
        ) + seq![':'] + date_field(s, 12, seq!['0', '0']) + iso_zone(zone)
    }
}

/// Appends the two characters of `s` at `from`, or `d0` and `d1` if `s` ends
/// before them.
fn push_field(out: &mut Vec<char>, s: &Vec<char>, from: usize, d0: char, d1: char)
    requires
        from <= 1000,
    ensures
        final(out)@ == old(out)@ + date_field(s@, from as int, seq![d0, d1]),
{
    if s.len() >= 2 && from <= s.len() - 2 {
        push_range(out, s, from, from + 2);
    } else {
        out.push(d0);
        out.push(d1);
        assert(out@ == old(out)@ + seq![d0, d1]);
    }
}

/// Appends the time zone of ISO 8601 for `zone`, which is what follows the
/// seconds in a PDF date.
fn push_zone(out: &mut Vec<char>, zone: &Vec<char>)
    ensures
        final(out)@ == old(out)@ + iso_zone(zone@),
{
    if zone.len() == 0 {
        assert(out@ == old(out)@ + iso_zone(zone@));
    } else if zone[0] == 'Z' {
        out.push('Z');
        assert(out@ == old(out)@ + iso_zone(zone@));
    } else {
        let mut cleaned: Vec<char> = Vec::new();
        let mut i: usize = 0;
        while i < zone.len()
            invariant
                i <= zone@.len(),
                cleaned@ == without_apostrophes(zone@, i as int),
            decreases zone@.len() - i,
        {
            if zone[i] != '\'' {
                cleaned.push(zone[i]);
            }
            i += 1;
        }
        if cleaned.len() >= 3 {
            push_range(out, &cleaned, 0, 3);
            out.push(':');
            push_field(out, &cleaned, 3, '0', '0');
        }
        assert(out@ == old(out)@ + iso_zone(zone@));
    }
}

/// Appends the date and the time of ISO 8601 for `s`, a PDF date of at least
/// four characters without its prefix.
fn push_date_and_time(out: &mut Vec<char>, s: &Vec<char>)
    requires
        s@.len() >= 4,
    ensures
        final(out)@ == old(out)@ + (s@.subrange(0, 4) + seq!['-'] + date_field(
            s@,
            4,
            seq!['0', '1'],
        ) + seq!['-'] + date_field(s@, 6, seq!['0', '1']) + seq!['T'] + date_field(
            s@,
            8,
            seq!['0', '0'],
        ) + seq![':'] + date_field(s@, 10, seq!['0', '0']) + seq![':'] + date_field(
            s@,
            12,
            seq!['0', '0'],
        )),
{
    push_range(out, s, 0, 4);
    out.push('-');
    push_field(out, s, 4, '0', '1');
    out.push('-');
    push_field(out, s, 6, '0', '1');
    out.push('T');
    push_field(out, s, 8, '0', '0');
    out.push(':');
    push_field(out, s, 10, '0', '0');
    out.push(':');
    push_field(out, s, 12, '0', '0');
}

/// Converts a PDF date, `D:YYYYMMDDHHmmSS+HH'mm'` with the prefix and
/// everything after the year optional, to ISO 8601.
pub fn pdf_date_to_iso8601(raw: &str) -> (r: String)
    ensures
        r@ == iso8601(raw@),
{
    let all = to_chars(raw);
    let n: usize = all.len();
    let skip: usize = if n >= 2 && all[0] == 'D' && all[1] == ':' {
        2
    } else {
        0
    };
    let mut s: Vec<char> = Vec::new();
    push_range(&mut s, &all, skip, n);
    assert(s@ == without_date_prefix(raw@));
    if s.len() < 4 {
        return raw.to_owned();
    }
    let mut zone: Vec<char> = Vec::new();
    if s.len() > 14 {
        push_range(&mut zone, &s, 14, s.len());
    }
    let mut out: Vec<char> = Vec::new();
    push_date_and_time(&mut out, &s);
    push_zone(&mut out, &zone);
    string_of(&out)
}

} // verus!
