use pdfdown::dates::pdf_date_to_iso8601;
use pdfdown::text::{detect_headers_footers, normalize_header_footer_line, strip_footer_artifacts};
use pdfdown::types::PageText;
use std::collections::HashMap;

/// A small generator of numbers: the same on every run.
struct Numbers(u64);

impl Numbers {
    fn next(&mut self) -> u64 {
        self.0 = self.0.wrapping_mul(6364136223846793005).wrapping_add(1442695040888963407);
        self.0 >> 33
    }

    fn below(&mut self, n: usize) -> usize {
        (self.next() % n as u64) as usize
    }

    fn text(&mut self, alphabet: &[&str], most: usize) -> String {
        let length = self.below(most + 1);
        (0..length).map(|_| alphabet[self.below(alphabet.len())]).collect()
    }
}

/// Stripping with the lines and the trimming of the standard library.
fn strip_by_the_book(text: &str, count: &str) -> String {
    let lines: Vec<&str> = text.lines().collect();
    if lines.len() < 2 {
        return text.to_string();
    }
    let mut skip = vec![false; lines.len()];
    for i in 0..lines.len() - 1 {
        if lines[i].trim() == "/" && lines[i + 1].trim() == count {
            skip[i] = true;
            skip[i + 1] = true;
        }
    }
    if !skip.iter().any(|s| *s) {
        return text.to_string();
    }
    let kept: Vec<&str> =
        lines.iter().zip(skip.iter()).filter(|(_, s)| !**s).map(|(l, _)| *l).collect();
    kept.join("\n")
}

#[test]
fn stripping_agrees_with_the_standard_library_on_every_short_text() {
    let alphabet = ['/', '3', ' ', '\n', '\r', 'a'];
    let mut text = String::new();
    let mut indices = vec![0usize; 0];
    // Every text of up to seven characters over the alphabet.
    for length in 0..=7usize {
        indices.clear();
        indices.resize(length, 0);
        loop {
            text.clear();
            text.extend(indices.iter().map(|i| alphabet[*i]));
            assert_eq!(strip_footer_artifacts(&text, "3"), strip_by_the_book(&text, "3"), "{text:?}");
            let mut place = 0;
            while place < length {
                indices[place] += 1;
                if indices[place] < alphabet.len() {
                    break;
                }
                indices[place] = 0;
                place += 1;
            }
            if place == length {
                break;
            }
        }
    }
}

#[test]
fn stripping_agrees_with_the_standard_library_on_longer_texts() {
    let alphabet = [
        "/", "38", "3", "8", " ", "\n", "\n", "\r\n", "\r", "\t", "x", "\u{a0}", "\u{2003}", "ä",
        "\u{b}", "\u{c}", "\u{85}", "\u{200b}",
    ];
    let mut numbers = Numbers(7);
    for _ in 0..60000 {
        let text = numbers.text(&alphabet, 24);
        for count in ["38", "3", "", "/"] {
            assert_eq!(
                strip_footer_artifacts(&text, count),
                strip_by_the_book(&text, count),
                "{text:?} {count:?}"
            );
        }
    }
}

fn normalize_by_the_book(line: &str) -> String {
    let mut out = String::new();
    let mut in_digits = false;
    for ch in line.trim().chars() {
        if ch.is_ascii_digit() {
            if !in_digits {
                out.push_str("<NUM>");
                in_digits = true;
            }
        } else {
            in_digits = false;
            out.push(ch);
        }
    }
    out
}

#[test]
fn normalizing_agrees_with_the_standard_library() {
    let alphabet = [
        "0", "1", "9", "a", "Page", " ", "\t", "\u{a0}", "\u{3000}", "<", ">", "٣", "²", "\r",
        "\u{1680}", "\u{2028}", "\u{202f}", "\u{205f}", "\u{feff}",
    ];
    let mut numbers = Numbers(11);
    for _ in 0..60000 {
        let line = numbers.text(&alphabet, 12);
        assert_eq!(normalize_header_footer_line(&line), normalize_by_the_book(&line), "{line:?}");
    }
}

/// The conversion of dates by slices of the text, for texts of one byte to the character.
fn date_by_the_book(raw: &str) -> String {
    let s = raw.strip_prefix("D:").unwrap_or(raw);
    if s.len() < 4 {
        return raw.to_string();
    }
    let yyyy = &s[..4];
    let mm = s.get(4..6).unwrap_or("01");
    let dd = s.get(6..8).unwrap_or("01");
    let hh = s.get(8..10).unwrap_or("00");
    let min = s.get(10..12).unwrap_or("00");
    let sec = s.get(12..14).unwrap_or("00");
    let tz_part = &s[14.min(s.len())..];
    let tz = if tz_part.is_empty() {
        String::new()
    } else if tz_part.starts_with('Z') {
        "Z".to_string()
    } else {
        let cleaned = tz_part.replace('\'', "");
        if cleaned.len() >= 3 {
            let sign = &cleaned[..1];
            let tzh = &cleaned[1..3];
            let tzm = if cleaned.len() >= 5 { &cleaned[3..5] } else { "00" };
            format!("{sign}{tzh}:{tzm}")
        } else {
            String::new()
        }
    };
    format!("{yyyy}-{mm}-{dd}T{hh}:{min}:{sec}{tz}")
}

#[test]
fn dates_agree_with_slicing() {
    let alphabet = ["D", ":", "D:", "2", "0", "1", "9", "+", "-", "Z", "'", "5", "3"];
    let mut numbers = Numbers(13);
    for _ in 0..100000 {
        let raw = numbers.text(&alphabet, 26);
        assert_eq!(pdf_date_to_iso8601(&raw), date_by_the_book(&raw), "{raw:?}");
    }
    for length in 0..=24 {
        let digits: String = "202306151200451122334455"[..length].to_string();
        for prefix in ["", "D:"] {
            for zone in ["", "Z", "+05'30'", "-0800", "+1", "+12'", "'+'1'2'3'4'"] {
                let raw = format!("{prefix}{digits}{zone}");
                assert_eq!(pdf_date_to_iso8601(&raw), date_by_the_book(&raw), "{raw:?}");
            }
        }
    }
}

/// Headers and footers by counting in a table, with the least number of pages worked out in
/// floating point.
fn parts_by_the_book(pages: &[PageText]) -> Vec<(String, String, String)> {
    if pages.len() < 3 {
        return pages.iter().map(|p| (String::new(), p.text.clone(), String::new())).collect();
    }
    let threshold = (pages.len() as f64 * 0.6).ceil() as usize;
    let page_lines: Vec<Vec<&str>> = pages.iter().map(|p| p.text.lines().collect()).collect();
    let mut header_count = 0usize;
    for pos in 0..3usize {
        let mut freq = HashMap::<String, usize>::new();
        for lines in &page_lines {
            if let Some(line) = lines.get(pos) {
                let norm = normalize_by_the_book(line);
                if !norm.is_empty() {
                    *freq.entry(norm).or_insert(0) += 1;
                }
            }
        }
        if freq.values().any(|c| *c >= threshold) {
            header_count = pos + 1;
        } else {
            break;
        }
    }
    let mut footer_count = 0usize;
    for pos in 0..3usize {
        let mut freq = HashMap::<String, usize>::new();
        for lines in &page_lines {
            if lines.len() > pos {
                let idx = lines.len() - 1 - pos;
                if idx >= header_count {
                    let norm = normalize_by_the_book(lines[idx]);
                    if !norm.is_empty() {
                        *freq.entry(norm).or_insert(0) += 1;
                    }
                }
            }
        }
        if freq.values().any(|c| *c >= threshold) {
            footer_count = pos + 1;
        } else {
            break;
        }
    }
    page_lines
        .iter()
        .map(|lines| {
            let total = lines.len();
            let h_end = header_count.min(total);
            let f_start = if footer_count > 0 {
                total.saturating_sub(footer_count).max(h_end)
            } else {
                total
            };
            (
                lines[..h_end].join("\n"),
                lines[h_end..f_start].join("\n"),
                lines[f_start..].join("\n"),
            )
        })
        .collect()
}

#[test]
fn headers_and_footers_agree_with_counting_in_a_table() {
    let lines = ["Head", "Head 1", "Foot", "Foot 22", "a", "b", "c", "", " ", "7", "Page 3 of 9"];
    let mut numbers = Numbers(17);
    for _ in 0..20000 {
        let count = numbers.below(13);
        let pages: Vec<PageText> = (0..count)
            .map(|i| {
                let length = numbers.below(8);
                let mut text: Vec<&str> = Vec::new();
                for _ in 0..length {
                    text.push(lines[numbers.below(lines.len())]);
                }
                let mut text = text.join("\n");
                if numbers.below(4) == 0 {
                    text.push('\n');
                }
                PageText { page: i as u32 + 1, text }
            })
            .collect();
        let expected = parts_by_the_book(&pages);
        let found = detect_headers_footers(&pages);
        assert_eq!(found.len(), expected.len());
        for (i, (page, parts)) in found.iter().zip(expected.iter()).enumerate() {
            assert_eq!(page.page, i as u32 + 1);
            assert_eq!(
                (&page.header, &page.body, &page.footer),
                (&parts.0, &parts.1, &parts.2),
                "{:?}",
                pages.iter().map(|p| p.text.as_str()).collect::<Vec<_>>()
            );
        }
    }
}

#[test]
fn the_least_number_of_pages_is_six_tenths_rounded_up() {
    // A line on exactly so many pages of `count` repeats, and on one page fewer it does not.
    for count in 3..60usize {
        let least = (count as f64 * 0.6).ceil() as usize;
        for with in [least - 1, least] {
            let pages: Vec<PageText> = (0..count)
                .map(|i| PageText {
                    page: i as u32 + 1,
                    text: if i < with {
                        format!("Head\nb{}", "o".repeat(i))
                    } else {
                        format!("x{}y\nb{}", "z".repeat(i), "o".repeat(i))
                    },
                })
                .collect();
            let found = detect_headers_footers(&pages);
            let expected = if with >= least { "Head" } else { "" };
            assert_eq!(found[0].header, expected, "{count} pages, {with} with the line");
        }
    }
}
