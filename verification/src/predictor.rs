//! Reversal of the predictors that PDF producers apply to image samples
//! before deflate compression: the PNG per-row filters and TIFF horizontal
//! differencing.

use vstd::prelude::*;
use vstd::arithmetic::div_mod::{
    lemma_div_pos_is_pos, lemma_fundamental_div_mod, lemma_fundamental_div_mod_converse,
    lemma_mod_bound,
};

verus! {

/// Absolute value of an integer.
pub open spec fn abs_diff(x: int) -> int {
    if x < 0 {
        -x
    } else {
        x
    }
}

/// The Paeth predictor: whichever of left (`a`), above (`b`) and above-left
/// (`c`) is nearest to `a + b - c`; ties go to left, then above.
pub open spec fn paeth(a: int, b: int, c: int) -> int {
    let pa = abs_diff(b - c);
    let pb = abs_diff(a - c);
    let pc = abs_diff(a + b - 2 * c);
    if pa <= pb && pa <= pc {
        a
    } else if pb <= pc {
        b
    } else {
        c
    }
}

/// Sum of two bytes modulo 256.
pub open spec fn add_wrap(x: u8, y: int) -> u8 {
    ((x + y) % 256) as u8
}

/// Difference of two bytes modulo 256.
pub open spec fn sub_wrap(x: u8, y: int) -> u8 {
    ((x - y) % 256) as u8
}

/// What a PNG row filter of type `filter` predicts for a byte whose left,
/// above and above-left neighbours are `a`, `b` and `c`.
pub open spec fn png_prediction(filter: u8, a: u8, b: u8, c: u8) -> int {
    if filter == 1 {
        a as int
    } else if filter == 2 {
        b as int
    } else if filter == 3 {
        (a + b) / 2
    } else if filter == 4 {
        paeth(a as int, b as int, c as int)
    } else {
        0
    }
}

/// Byte `k` of the reconstructed image, rows laid end to end, for filtered
/// `data` whose rows each hold a filter-type byte and `row_bytes` samples.
/// Neighbours that fall outside the image count as zero.
pub open spec fn png_recon(data: Seq<u8>, bpp: int, row_bytes: int, k: int) -> u8
    decreases k,
    via png_recon_decreases
{
    if k < 0 || row_bytes <= 0 || bpp <= 0 {
        0
    } else {
        let row = k / row_bytes;
        let col = k % row_bytes;
        let filter = data[row * (row_bytes + 1)];
        let x = data[row * (row_bytes + 1) + 1 + col];
        let a = if col >= bpp {
            png_recon(data, bpp, row_bytes, k - bpp)
        } else {
            0
        };
        let b = if row > 0 {
            png_recon(data, bpp, row_bytes, k - row_bytes)
        } else {
            0
        };
        let c = if row > 0 && col >= bpp {
            png_recon(data, bpp, row_bytes, k - row_bytes - bpp)
        } else {
            0
        };
        add_wrap(x, png_prediction(filter, a, b, c))
    }
}

#[via_fn]
proof fn png_recon_decreases(data: Seq<u8>, bpp: int, row_bytes: int, k: int) {
    if !(k < 0 || row_bytes <= 0 || bpp <= 0) {
        lemma_split(k, row_bytes);
    }
}

/// The number of rows in filtered `data`.
pub open spec fn png_rows(data: Seq<u8>, row_bytes: int) -> int {
    (data.len() as int) / (row_bytes + 1)
}

/// Filtered `data` can be reversed: it is a whole number of rows, and every
/// row starts with one of the five filter types.
pub open spec fn png_reversible(data: Seq<u8>, row_bytes: int) -> bool {
    &&& (data.len() as int) % (row_bytes + 1) == 0
    &&& forall|r: int|
        0 <= r < png_rows(data, row_bytes) ==> #[trigger] data[r * (row_bytes + 1)] <= 4
}

/// The image that reversing the PNG filters of `data` gives, if any.
pub open spec fn png_unfiltered(data: Seq<u8>, bpp: int, row_bytes: int) -> Option<Seq<u8>> {
    if png_reversible(data, row_bytes) {
        Some(
            Seq::new(
                (png_rows(data, row_bytes) * row_bytes) as nat,
                |k: int| png_recon(data, bpp, row_bytes, k),
            ),
        )
    } else {
        None
    }
}

/// Chooses among left (`a`), above (`b`) and above-left (`c`).
pub fn paeth_predictor(a: u8, b: u8, c: u8) -> (r: u8)
    ensures
        r == paeth(a as int, b as int, c as int),
{
    let ai: i16 = a as i16;
    let bi: i16 = b as i16;
    let ci: i16 = c as i16;
    let d1: i16 = bi - ci;
    let d2: i16 = ai - ci;
    let d3: i16 = ai + bi - 2 * ci;
    let pa: i16 = if d1 < 0 { -d1 } else { d1 };
    let pb: i16 = if d2 < 0 { -d2 } else { d2 };
    let pc: i16 = if d3 < 0 { -d3 } else { d3 };
    if pa <= pb && pa <= pc {
        a
    } else if pb <= pc {
        b
    } else {
        c
    }
}

proof fn lemma_split(k: int, width: int)
    requires
        0 <= k,
        0 < width,
    ensures
        0 <= k % width < width,
        0 <= k / width,
        k == (k / width) * width + k % width,
        k / width > 0 ==> k >= width + k % width,
        k % width <= k,
{
    lemma_fundamental_div_mod(k, width);
    lemma_mod_bound(k, width);
    lemma_div_pos_is_pos(k, width);
    let q = k / width;
    assert(width * q == q * width) by (nonlinear_arith);
    assert(q > 0 ==> q * width >= width) by (nonlinear_arith)
        requires
            width > 0,
    ;
    assert(0 <= q * width) by (nonlinear_arith)
        requires
            0 <= q,
            0 < width,
    ;
}

proof fn lemma_row_col(row: int, col: int, row_bytes: int)
    requires
        0 <= row,
        0 <= col < row_bytes,
    ensures
        (row * row_bytes + col) / row_bytes == row,
        (row * row_bytes + col) % row_bytes == col,
        0 <= row * row_bytes,
{
    lemma_fundamental_div_mod_converse(row * row_bytes + col, row_bytes, row, col);
    assert(0 <= row * row_bytes) by (nonlinear_arith)
        requires
            0 <= row,
            0 <= row_bytes,
    ;
}

proof fn lemma_row_start(row: int, rows: int, width: int)
    requires
        0 <= row < rows,
        0 <= width,
    ensures
        0 <= row * width,
        row * width + width <= rows * width,
        (row + 1) * width == row * width + width,
{
    assert(0 <= row * width && row * width + width <= rows * width && (row + 1) * width == row
        * width + width) by (nonlinear_arith)
        requires
            0 <= row < rows,
            0 <= width,
    ;
}

/// The distance from a byte to its left neighbour for pixels of
/// `bytes_per_pixel` bytes: a pixel of less than a byte counts as one byte.
pub open spec fn pixel_step(bytes_per_pixel: int) -> int {
    if bytes_per_pixel < 1 {
        1
    } else {
        bytes_per_pixel
    }
}

/// Reverses PNG row filters. `data` holds rows of one filter-type byte and
/// `row_bytes` filtered bytes each; `bytes_per_pixel` is the distance to the
/// left neighbour, where 0 counts as 1. Gives `None` when `data` is no whole
/// number of rows or a row names a filter type other than 0 to 4.
pub fn apply_png_predictor(data: &[u8], bytes_per_pixel: usize, row_bytes: usize) -> (r: Option<
    Vec<u8>,
>)
    ensures
        r is Some == png_unfiltered(
            data@,
            pixel_step(bytes_per_pixel as int),
            row_bytes as int,
        ) is Some,
        r is Some ==> r->0@ == png_unfiltered(
            data@,
            pixel_step(bytes_per_pixel as int),
            row_bytes as int,
        )->0,
{
    let bytes_per_pixel: usize = if bytes_per_pixel < 1 {
        1
    } else {
        bytes_per_pixel
    };
    if row_bytes == usize::MAX {
        if data.len() == 0 {
            let empty: Vec<u8> = Vec::new();
            assert(png_rows(data@, row_bytes as int) == 0);
            assert(png_reversible(data@, row_bytes as int));
            assert(empty@ =~= png_unfiltered(
                data@,
                bytes_per_pixel as int,
                row_bytes as int,
            )->0);
            return Some(empty);
        }
        assert((data@.len() as int) % (row_bytes + 1) == data@.len()) by (nonlinear_arith)
            requires
                0 < data@.len() < row_bytes + 1,
        ;
        return None;
    }
    let src_row_len: usize = row_bytes + 1;
    if data.len() % src_row_len != 0 {
        return None;
    }
    let num_rows: usize = data.len() / src_row_len;
    let ghost bpp = bytes_per_pixel as int;
    let ghost rb = row_bytes as int;
    proof {
        assert(data@.len() == num_rows * src_row_len) by (nonlinear_arith)
            requires
                (data@.len() as int) % (src_row_len as int) == 0,
                num_rows == (data@.len() as int) / (src_row_len as int),
                src_row_len > 0,
        ;
        assert(num_rows * row_bytes <= num_rows * src_row_len) by (nonlinear_arith)
            requires
                row_bytes <= src_row_len,
        ;
    }
    let mut output: Vec<u8> = Vec::new();
    let mut row: usize = 0;
    let mut src: usize = 0;
    let mut dst: usize = 0;
    while row < num_rows
        invariant
            bytes_per_pixel >= 1,
            src_row_len == row_bytes + 1,
            data@.len() == num_rows * src_row_len,
            num_rows * row_bytes <= data@.len(),
            num_rows == png_rows(data@, rb),
            (data@.len() as int) % (rb + 1) == 0,
            bpp == bytes_per_pixel,
            rb == row_bytes,
            row <= num_rows,
            src == row * src_row_len,
            dst == row * row_bytes,
            output@.len() == dst,
            forall|k: int| 0 <= k < dst ==> output@[k] == png_recon(data@, bpp, rb, k),
            forall|r: int| 0 <= r < row ==> #[trigger] data@[r * (rb + 1)] <= 4,
        decreases num_rows - row,
    {
        proof {
            lemma_row_start(row as int, num_rows as int, src_row_len as int);
            lemma_row_start(row as int, num_rows as int, row_bytes as int);
            assert(row > 0 ==> row * row_bytes >= row_bytes) by (nonlinear_arith);
        }
        let filter: u8 = data[src];
        if filter > 4 {
            assert(data@[(row as int) * (rb + 1)] > 4);
            return None;
        }
        let mut col: usize = 0;
        while col < row_bytes
            invariant
                bytes_per_pixel >= 1,
                src_row_len == row_bytes + 1,
                data@.len() == num_rows * src_row_len,
                bpp == bytes_per_pixel,
                rb == row_bytes,
                row < num_rows,
                src == row * src_row_len,
                src + src_row_len <= data@.len(),
                data@.len() <= usize::MAX,
                row > 0 ==> dst >= row_bytes,
                dst == row * row_bytes,
                dst + row_bytes <= usize::MAX,
                filter == data@[src as int],
                col <= row_bytes,
                output@.len() == dst + col,
                forall|k: int| 0 <= k < dst + col ==> output@[k] == png_recon(data@, bpp, rb, k),
            decreases row_bytes - col,
        {
            let x: u8 = data[src + 1 + col];
            let a: u8 = if col >= bytes_per_pixel {
                output[dst + col - bytes_per_pixel]
            } else {
                0
            };
            let b: u8 = if row > 0 {
                output[dst + col - row_bytes]
            } else {
                0
            };
            let c: u8 = if row > 0 && col >= bytes_per_pixel {
                output[dst + col - row_bytes - bytes_per_pixel]
            } else {
                0
            };
            let p: u8 = if filter == 1 {
                a
            } else if filter == 2 {
                b
            } else if filter == 3 {
                ((a as u16 + b as u16) / 2) as u8
            } else if filter == 4 {
                paeth_predictor(a, b, c)
            } else {
                0
            };
            let value: u8 = x.wrapping_add(p);
            proof {
                lemma_row_col(row as int, col as int, rb);
                assert(p == png_prediction(filter, a, b, c));
                assert(value == add_wrap(x, p as int));
                assert(value == png_recon(data@, bpp, rb, dst + col));
            }
            output.push(value);
            col += 1;
        }
        row += 1;
        src += src_row_len;
        dst += row_bytes;
    }
    proof {
        assert(png_reversible(data@, rb));
        assert(output@ =~= png_unfiltered(data@, bpp, rb)->0);
    }
    Some(output)
}

/// The bytes that PNG filtering gives for image `raw`, whose row `r` is put
/// through the filter of type `filters[r]`: each row is its filter-type byte
/// followed by every byte less what the filter predicts for it.
pub open spec fn png_filtered(raw: Seq<u8>, filters: Seq<u8>, bpp: int, row_bytes: int) -> Seq<
    u8,
> {
    Seq::new(
        (filters.len() * (row_bytes + 1)) as nat,
        |j: int|
            {
                let row = j / (row_bytes + 1);
                let pos = j % (row_bytes + 1);
                if pos == 0 {
                    filters[row]
                } else {
                    let col = pos - 1;
                    let k = row * row_bytes + col;
                    let a = if col >= bpp {
                        raw[k - bpp]
                    } else {
                        0
                    };
                    let b = if row > 0 {
                        raw[k - row_bytes]
                    } else {
                        0
                    };
                    let c = if row > 0 && col >= bpp {
                        raw[k - row_bytes - bpp]
                    } else {
                        0
                    };
                    sub_wrap(raw[k], png_prediction(filters[row], a, b, c))
                }
            },
    )
}

proof fn lemma_filtered_layout(
    raw: Seq<u8>,
    filters: Seq<u8>,
    bpp: int,
    row_bytes: int,
    row: int,
    col: int,
)
    requires
        0 <= row_bytes,
        0 <= row < filters.len(),
        0 <= col <= row_bytes,
    ensures
        0 <= row * (row_bytes + 1) + col < filters.len() * (row_bytes + 1),
        (row * (row_bytes + 1) + col) / (row_bytes + 1) == row,
        (row * (row_bytes + 1) + col) % (row_bytes + 1) == col,
        png_filtered(raw, filters, bpp, row_bytes).len() == filters.len() * (row_bytes + 1),
{
    lemma_row_col(row, col, row_bytes + 1);
    lemma_row_start(row, filters.len() as int, row_bytes + 1);
}

proof fn lemma_recon_of_filtered(
    raw: Seq<u8>,
    filters: Seq<u8>,
    bpp: int,
    row_bytes: int,
    k: int,
)
    requires
        bpp >= 1,
        row_bytes >= 0,
        raw.len() == filters.len() * row_bytes,
        0 <= k < raw.len(),
    ensures
        png_recon(png_filtered(raw, filters, bpp, row_bytes), bpp, row_bytes, k) == raw[k],
    decreases k,
{
    let data = png_filtered(raw, filters, bpp, row_bytes);
    assert(row_bytes > 0) by (nonlinear_arith)
        requires
            raw.len() == filters.len() * row_bytes,
            raw.len() > 0,
            row_bytes >= 0,
    ;
    lemma_split(k, row_bytes);
    let row = k / row_bytes;
    let col = k % row_bytes;
    assert(row < filters.len()) by (nonlinear_arith)
        requires
            k == row * row_bytes + col,
            0 <= col,
            k < filters.len() * row_bytes,
            row_bytes > 0,
    ;
    lemma_filtered_layout(raw, filters, bpp, row_bytes, row, 0);
    lemma_filtered_layout(raw, filters, bpp, row_bytes, row, col + 1);
    assert(row * (row_bytes + 1) + (col + 1) == row * (row_bytes + 1) + 1 + col);
    assert(data[row * (row_bytes + 1)] == filters[row]);
    if col >= bpp {
        lemma_recon_of_filtered(raw, filters, bpp, row_bytes, k - bpp);
    }
    if row > 0 {
        lemma_recon_of_filtered(raw, filters, bpp, row_bytes, k - row_bytes);
    }
    if row > 0 && col >= bpp {
        lemma_recon_of_filtered(raw, filters, bpp, row_bytes, k - row_bytes - bpp);
    }
    let a: u8 = if col >= bpp {
        raw[k - bpp]
    } else {
        0
    };
    let b: u8 = if row > 0 {
        raw[k - row_bytes]
    } else {
        0
    };
    let c: u8 = if row > 0 && col >= bpp {
        raw[k - row_bytes - bpp]
    } else {
        0
    };
    let p = png_prediction(filters[row], a, b, c);
    assert(0 <= p < 256);
    assert(data[row * (row_bytes + 1) + 1 + col] == sub_wrap(raw[k], p));
    assert(add_wrap(sub_wrap(raw[k], p), p) == raw[k]);
}

/// Reversing the PNG filters is a left inverse of applying them: whatever
/// filter type from 0 to 4 each row of an image is put through, reversal
/// gives the image back.
pub proof fn lemma_png_reversal_inverts_filtering(
    raw: Seq<u8>,
    filters: Seq<u8>,
    bpp: int,
    row_bytes: int,
)
    requires
        bpp >= 1,
        row_bytes >= 0,
        raw.len() == filters.len() * row_bytes,
        forall|r: int| 0 <= r < filters.len() ==> filters[r] <= 4,
    ensures
        png_unfiltered(png_filtered(raw, filters, bpp, row_bytes), bpp, row_bytes) == Some(raw),
{
    let data = png_filtered(raw, filters, bpp, row_bytes);
    let n = filters.len() as int;
    lemma_fundamental_div_mod_converse(n * (row_bytes + 1), row_bytes + 1, n, 0);
    assert(png_rows(data, row_bytes) == n);
    assert forall|r: int| 0 <= r < png_rows(data, row_bytes) implies #[trigger] data[r * (row_bytes
        + 1)] <= 4 by {
        lemma_filtered_layout(raw, filters, bpp, row_bytes, r, 0);
    }
    assert(png_reversible(data, row_bytes));
    let out = png_unfiltered(data, bpp, row_bytes)->0;
    assert(out.len() == raw.len());
    assert forall|k: int| 0 <= k < raw.len() implies out[k] == raw[k] by {
        lemma_recon_of_filtered(raw, filters, bpp, row_bytes, k);
    }
    assert(out =~= raw);
}

/// Where a pixel is at least as wide as a row, no byte has a left
/// neighbour, and the width of the pixel makes no difference.
pub proof fn lemma_png_wide_pixels(data: Seq<u8>, wide: int, wider: int, row_bytes: int, k: int)
    requires
        1 <= wide,
        1 <= wider,
        row_bytes <= wide,
        row_bytes <= wider,
    ensures
        png_recon(data, wide, row_bytes, k) == png_recon(data, wider, row_bytes, k),
    decreases k,
{
    if k >= 0 && row_bytes > 0 {
        lemma_split(k, row_bytes);
        if k / row_bytes > 0 {
            lemma_png_wide_pixels(data, wide, wider, row_bytes, k - row_bytes);
        }
    }
}

/// Where a pixel is at least as wide as a row, reversal gives the same for
/// every width of the pixel.
pub proof fn lemma_png_unfiltered_wide(data: Seq<u8>, wide: int, wider: int, row_bytes: int)
    requires
        1 <= wide,
        1 <= wider,
        row_bytes <= wide,
        row_bytes <= wider,
    ensures
        png_unfiltered(data, wide, row_bytes) == png_unfiltered(data, wider, row_bytes),
{
    if png_reversible(data, row_bytes) {
        let a = png_unfiltered(data, wide, row_bytes)->0;
        let b = png_unfiltered(data, wider, row_bytes)->0;
        assert forall|k: int| 0 <= k < a.len() implies a[k] == b[k] by {
            lemma_png_wide_pixels(data, wide, wider, row_bytes, k);
        }
        assert(a =~= b);
    }
}

/// Data without bytes has no filters to reverse.
pub proof fn lemma_png_unfiltered_empty(data: Seq<u8>, bpp: int, row_bytes: int)
    requires
        data.len() == 0,
        0 <= row_bytes,
    ensures
        png_unfiltered(data, bpp, row_bytes) == Some(data),
{
    assert(png_rows(data, row_bytes) == 0);
    assert(png_unfiltered(data, bpp, row_bytes)->0 =~= data);
}

/// Byte `k` of `data` after TIFF horizontal differencing is reversed: within
/// each row of `row_bytes` bytes, every byte but the first `bpp` has the
/// reconstructed byte `bpp` places before it added to it.
pub open spec fn tiff_recon(data: Seq<u8>, bpp: int, row_bytes: int, k: int) -> u8
    decreases k,
    via tiff_recon_decreases
{
    if k < 0 || row_bytes <= 0 || bpp <= 0 {
        0
    } else if k % row_bytes >= bpp {
        add_wrap(data[k], tiff_recon(data, bpp, row_bytes, k - bpp) as int)
    } else {
        data[k]
    }
}

#[via_fn]
proof fn tiff_recon_decreases(data: Seq<u8>, bpp: int, row_bytes: int, k: int) {
    if !(k < 0 || row_bytes <= 0 || bpp <= 0) {
        lemma_split(k, row_bytes);
    }
}

/// `data` with TIFF horizontal differencing reversed in each whole row; bytes
/// after the last whole row stay as they are.
pub open spec fn tiff_unpredicted(data: Seq<u8>, bpp: int, row_bytes: int) -> Seq<u8> {
    if row_bytes <= 0 {
        data
    } else {
        Seq::new(
            data.len(),
            |k: int|
                if k < ((data.len() as int) / row_bytes) * row_bytes {
                    tiff_recon(data, bpp, row_bytes, k)
                } else {
                    data[k]
                },
        )
    }
}

/// Where a pixel is at least as wide as a row, or the data is shorter than a
/// row, TIFF differencing leaves nothing to reverse.
pub proof fn lemma_tiff_nothing_to_reverse(data: Seq<u8>, bpp: int, row_bytes: int)
    requires
        bpp >= row_bytes || data.len() < row_bytes,
    ensures
        tiff_unpredicted(data, bpp, row_bytes) == data,
{
    if row_bytes > 0 {
        let out = tiff_unpredicted(data, bpp, row_bytes);
        assert forall|k: int| 0 <= k < data.len() implies out[k] == data[k] by {
            lemma_split(k, row_bytes);
            if data.len() < row_bytes {
                lemma_split(data.len() as int, row_bytes);
                assert((data.len() as int) / row_bytes == 0);
            }
        }
        assert(out =~= data);
    }
}

/// Reverses TIFF predictor 2 (horizontal differencing) in place. `bpp` is
/// the distance from a byte to its left neighbour, where 0 counts as 1.
pub fn apply_tiff_predictor2(data: &mut Vec<u8>, bpp: usize, row_bytes: usize)
    ensures
        final(data)@ == tiff_unpredicted(old(data)@, pixel_step(bpp as int), row_bytes as int),
{
    let bpp: usize = if bpp < 1 {
        1
    } else {
        bpp
    };
    if row_bytes == 0 {
        return ;
    }
    let num_rows: usize = data.len() / row_bytes;
    let ghost before = data@;
    let ghost rb = row_bytes as int;
    proof {
        assert(num_rows * row_bytes <= data@.len()) by (nonlinear_arith)
            requires
                num_rows == (data@.len() as int) / (row_bytes as int),
                row_bytes > 0,
        ;
    }
    let mut row: usize = 0;
    let mut start: usize = 0;
    while row < num_rows
        invariant
            bpp >= 1,
            row_bytes > 0,
            rb == row_bytes,
            num_rows * row_bytes <= before.len(),
            before.len() <= usize::MAX,
            data@.len() == before.len(),
            row <= num_rows,
            start == row * row_bytes,
            forall|k: int| 0 <= k < start ==> data@[k] == tiff_recon(before, bpp as int, rb, k),
            forall|k: int| start <= k < before.len() ==> data@[k] == before[k],
        decreases num_rows - row,
    {
        proof {
            lemma_row_start(row as int, num_rows as int, rb);
        }
        let mut col: usize = 0;
        while col < row_bytes
            invariant
                bpp >= 1,
                row_bytes > 0,
                rb == row_bytes,
                num_rows * row_bytes <= before.len(),
                before.len() <= usize::MAX,
                data@.len() == before.len(),
                row < num_rows,
                start == row * row_bytes,
                start + row_bytes <= num_rows * row_bytes,
                col <= row_bytes,
                forall|k: int|
                    0 <= k < start + col ==> data@[k] == tiff_recon(before, bpp as int, rb, k),
                forall|k: int| start + col <= k < before.len() ==> data@[k] == before[k],
            decreases row_bytes - col,
        {
            proof {
                lemma_row_col(row as int, col as int, rb);
            }
            if col >= bpp {
                let value: u8 = data[start + col].wrapping_add(data[start + col - bpp]);
                data[start + col] = value;
            }
            col += 1;
        }
        row += 1;
        start += row_bytes;
    }
    proof {
        assert(data@ =~= tiff_unpredicted(before, bpp as int, rb));
    }
}

} // verus!
