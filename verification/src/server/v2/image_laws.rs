//! What the answers about an image say of its pixels and of its header.

use vstd::prelude::*;
use vstd::string::*;
use crate::fits::mef_writer::stored_int;
use crate::server::v2::histogram::is_mode;
use crate::server::v2::inspect::{dtype_of, shape_of};
use crate::server::v2::pixel::{high, low, values_from, Window};
use crate::server::v2::region::{
    is_cut, region_fits, region_meets, rows_from, Region, ResolvedRegion,
};
use crate::server::v2::values::{finite_values, is_finite_pattern, is_nan_pattern, nan_values, rank};

verus! {

/// The neighbourhood of a pixel is made of the pixels of the image that lie at most half a box from
/// it, in columns and in rows; where the box meets no edge it reaches from half a box before the
/// pixel to half a box behind it, and a box of an odd side has as many columns and rows as its side
/// says.
pub proof fn a_box_reaches_half_its_side(
    cx: int,
    cy: int,
    box_size: int,
    cols: int,
    rows: int,
    x: int,
    y: int,
)
    requires
        0 <= cx < cols,
        0 <= cy < rows,
        0 <= box_size,
    ensures
        low(cx, box_size / 2) <= x <= high(cx, box_size / 2, cols) <==> 0 <= x < cols && cx
            - box_size / 2 <= x <= cx + box_size / 2,
        low(cy, box_size / 2) <= y <= high(cy, box_size / 2, rows) <==> 0 <= y < rows && cy
            - box_size / 2 <= y <= cy + box_size / 2,
        box_size / 2 <= cx && cx + box_size / 2 < cols ==> low(cx, box_size / 2) == cx - box_size
            / 2 && high(cx, box_size / 2, cols) == cx + box_size / 2,
        box_size / 2 <= cy && cy + box_size / 2 < rows ==> low(cy, box_size / 2) == cy - box_size
            / 2 && high(cy, box_size / 2, rows) == cy + box_size / 2,
        box_size % 2 == 1 && box_size / 2 <= cx && cx + box_size / 2 < cols ==> high(
            cx,
            box_size / 2,
            cols,
        ) - low(cx, box_size / 2) + 1 == box_size,
        box_size % 2 == 1 && box_size / 2 <= cy && cy + box_size / 2 < rows ==> high(
            cy,
            box_size / 2,
            rows,
        ) - low(cy, box_size / 2) + 1 == box_size,
{
}

proof fn lemma_values(pixels: Seq<u32>, cols: int, w: Window, from: int, y: int, x: int)
    requires
        0 <= from <= y <= w.y1,
        w.x0 <= x <= w.x1 < cols,
        (w.y1 + 1) * cols <= pixels.len(),
    ensures
        ({
            let n = w.x1 - w.x0 + 1;
            let at = (y - from) * n + (x - w.x0);
            &&& 0 <= at < values_from(pixels, cols, w, from).len()
            &&& values_from(pixels, cols, w, from)[at] == pixels[y * cols + x]
            &&& values_from(pixels, cols, w, from).len() == (w.y1 + 1 - from) * n
        }),
    decreases w.y1 - from,
{
    let n = w.x1 - w.x0 + 1;
    let start = from * cols + w.x0;
    let last = w.y1 as int;
    assert(0 <= from * cols && from * cols + cols <= (last + 1) * cols) by (nonlinear_arith)
        requires
            0 <= from <= last,
            cols >= 0,
    ;
    let row = pixels.subrange(start, from * cols + w.x1 + 1);
    let more = values_from(pixels, cols, w, from + 1);
    let all = values_from(pixels, cols, w, from);
    assert(all == row + more);
    assert(row.len() == n);
    if from == w.y1 {
        assert(more =~= Seq::<u32>::empty());
        assert((y - from) * n == 0) by (nonlinear_arith)
            requires
                y == from,
        ;
        assert((last + 1 - from) * n == n) by (nonlinear_arith)
            requires
                last == from,
        ;
    } else {
        let next = if y == from {
            from + 1
        } else {
            y
        };
        lemma_values(pixels, cols, w, from + 1, next, x);
        assert((last + 1 - from) * n == n + (last + 1 - (from + 1)) * n) by (nonlinear_arith);
        if y == from {
            assert((y - from) * n == 0) by (nonlinear_arith)
                requires
                    y == from,
            ;
        } else {
            assert((y - from) * n == n + (y - (from + 1)) * n) by (nonlinear_arith);
            let at = (y - from) * n + (x - w.x0);
            assert((y - (from + 1)) * n >= 0) by (nonlinear_arith)
                requires
                    y >= from + 1,
                    n >= 0,
            ;
            assert(all[at] == more[at - n]);
        }
    }
}

/// The values of a neighbourhood are those of its pixels, each once, row by row and column by
/// column.
pub proof fn a_neighbourhood_has_the_values_of_its_pixels(
    pixels: Seq<u32>,
    cols: int,
    w: Window,
    x: int,
    y: int,
)
    requires
        w.x0 <= x <= w.x1 < cols,
        w.y0 <= y <= w.y1,
        (w.y1 + 1) * cols <= pixels.len(),
    ensures
        ({
            let values = values_from(pixels, cols, w, w.y0 as int);
            let columns = w.x1 - w.x0 + 1;
            &&& values.len() == columns * (w.y1 - w.y0 + 1)
            &&& values[(y - w.y0) * columns + (x - w.x0)] == pixels[y * cols + x]
        }),
{
    let columns = w.x1 - w.x0 + 1;
    let lines = w.y1 - w.y0 + 1;
    lemma_values(pixels, cols, w, w.y0 as int, y, x);
    assert(lines * columns == columns * lines) by (nonlinear_arith);
}

/// A region keeps the pixels of the image that lie in it, and no others: column by column and row
/// by row, a place is in what is left of it if and only if it is in the region and in the image.
pub proof fn a_region_keeps_what_lies_in_the_image(
    s: ResolvedRegion,
    r: Region,
    cols: usize,
    rows: usize,
    x: int,
    y: int,
)
    requires
        is_cut(s, r, cols, rows),
        region_meets(r, cols, rows),
    ensures
        s.x <= x < s.x + s.width <==> 0 <= x < cols && r.x <= x < r.x + r.width,
        s.y <= y < s.y + s.height <==> 0 <= y < rows && r.y <= y < r.y + r.height,
{
}

/// A region fits where all its pixels lie in the image and it has one; it meets the image where one
/// of them does.
pub proof fn regions_fit_or_meet(r: Region, cols: usize, rows: usize)
    ensures
        region_fits(r, cols, rows) <==> 0 <= r.x && 0 < r.width && r.x + r.width <= cols && 0 <= r.y
            && 0 < r.height && r.y + r.height <= rows,
        region_meets(r, cols, rows) <==> 0 < r.width && r.x < cols && 0 < r.x + r.width && 0 < cols
            && 0 < r.height && r.y < rows && 0 < r.y + r.height && 0 < rows,
        region_fits(r, cols, rows) ==> region_meets(r, cols, rows),
{
}

proof fn lemma_region_rows(
    pixels: Seq<u32>,
    cols: int,
    r: ResolvedRegion,
    from: int,
    y: int,
    x: int,
)
    requires
        0 <= from <= y < r.y + r.height,
        r.x <= x < r.x + r.width <= cols,
        (r.y + r.height) * cols <= pixels.len(),
    ensures
        ({
            let n = r.width as int;
            let at = (y - from) * n + (x - r.x);
            &&& 0 <= at < rows_from(pixels, cols, r, from).len()
            &&& rows_from(pixels, cols, r, from)[at] == pixels[y * cols + x]
            &&& rows_from(pixels, cols, r, from).len() == (r.y + r.height - from) * n
        }),
    decreases r.y + r.height - from,
{
    let n = r.width as int;
    let end = r.y + r.height;
    let start = from * cols + r.x;
    assert(0 <= from * cols && from * cols + cols <= end * cols) by (nonlinear_arith)
        requires
            0 <= from < end,
            cols >= 0,
    ;
    let row = pixels.subrange(start, start + r.width);
    let more = rows_from(pixels, cols, r, from + 1);
    let all = rows_from(pixels, cols, r, from);
    assert(all == row + more);
    assert(row.len() == n);
    if from == end - 1 {
        assert(more =~= Seq::<u32>::empty());
        assert((y - from) * n == 0) by (nonlinear_arith)
            requires
                y == from,
        ;
        assert((end - from) * n == n) by (nonlinear_arith)
            requires
                end - from == 1,
        ;
    } else {
        let next = if y == from {
            from + 1
        } else {
            y
        };
        lemma_region_rows(pixels, cols, r, from + 1, next, x);
        assert((end - from) * n == n + (end - (from + 1)) * n) by (nonlinear_arith);
        if y == from {
            assert((y - from) * n == 0) by (nonlinear_arith)
                requires
                    y == from,
            ;
        } else {
            assert((y - from) * n == n + (y - (from + 1)) * n) by (nonlinear_arith);
            let at = (y - from) * n + (x - r.x);
            assert((y - (from + 1)) * n >= 0) by (nonlinear_arith)
                requires
                    y >= from + 1,
                    n >= 0,
            ;
            assert(all[at] == more[at - n]);
        }
    }
}

/// The values of a region are those of its pixels, each once, row by row and column by column.
pub proof fn a_region_has_the_values_of_its_pixels(
    pixels: Seq<u32>,
    cols: int,
    r: ResolvedRegion,
    x: int,
    y: int,
)
    requires
        r.x <= x < r.x + r.width <= cols,
        r.y <= y < r.y + r.height,
        (r.y + r.height) * cols <= pixels.len(),
    ensures
        ({
            let values = rows_from(pixels, cols, r, r.y as int);
            &&& values.len() == r.width * r.height
            &&& values[(y - r.y) * r.width + (x - r.x)] == pixels[y * cols + x]
        }),
{
    let w = r.width as int;
    let h = r.height as int;
    lemma_region_rows(pixels, cols, r, r.y as int, y, x);
    assert(h * w == w * h) by (nonlinear_arith);
}

/// A bit pattern of a floating point number of four bytes is finite if and only if its exponent,
/// the eight bits behind the sign, is not all ones, and no number at all if and only if the
/// exponent is all ones and a bit behind it is set.
pub proof fn exponents_tell_the_kind(bits: u32)
    ensures
        is_finite_pattern(bits) <==> bits & 0x7f80_0000 != 0x7f80_0000,
        is_nan_pattern(bits) <==> bits & 0x7f80_0000 == 0x7f80_0000 && bits & 0x007f_ffff != 0,
{
    let e = bits & 0x7f80_0000;
    let f = bits & 0x007f_ffff;
    assert((bits / 0x80_0000u32) % 256 != 255 <==> bits & 0x7f80_0000 != 0x7f80_0000)
        by (bit_vector);
    assert((bits % 0x80_0000u32 != 0) <==> (bits & 0x007f_ffff != 0)) by (bit_vector);
}

/// Patterns are ranked as the numbers that they stand for: a sign turns the rank round, the two
/// zeros rank the same, and of two numbers above zero the greater pattern ranks higher.
pub proof fn ranks_order_as_numbers(a: u32, b: u32)
    ensures
        rank(0) == 0 && rank(0x8000_0000) == 0,
        a < 0x8000_0000 ==> rank((a + 0x8000_0000) as u32) == -rank(a),
        a < b < 0x8000_0000 ==> 0 <= rank(a) < rank(b),
{
}

/// The finite values are all values but those with an exponent of ones, and the values that are no
/// numbers are those with an exponent of ones and more; both in their order.
pub proof fn values_are_sorted_by_kind(values: Seq<u32>)
    ensures
        finite_values(values) == values.filter(|v: u32| v & 0x7f80_0000 != 0x7f80_0000),
        nan_values(values) == values.filter(
            |v: u32| v & 0x7f80_0000 == 0x7f80_0000 && v & 0x007f_ffff != 0,
        ),
    decreases values.len(),
{
    reveal(Seq::filter);
    if values.len() > 0 {
        values_are_sorted_by_kind(values.drop_last());
        exponents_tell_the_kind(values.last());
    }
}

/// The type of each `BITPIX` of the standard: eight bits are unsigned, all wider integers are
/// signed, and the negative ones are floating point numbers of as many bits.
pub proof fn bitpix_names_its_type(bitpix: i64)
    ensures
        bitpix == 8 ==> dtype_of(bitpix) == "uint8"@,
        bitpix == 16 ==> dtype_of(bitpix) == "int16"@,
        bitpix == 32 ==> dtype_of(bitpix) == "int32"@,
        bitpix == 64 ==> dtype_of(bitpix) == "int64"@,
        bitpix == -32 ==> dtype_of(bitpix) == "float32"@,
        bitpix == -64 ==> dtype_of(bitpix) == "float64"@,
        bitpix != 8 && bitpix != 16 && bitpix != 32 && bitpix != 64 && bitpix != -32 && bitpix
            != -64 ==> dtype_of(bitpix) == "unknown"@,
{
}

/// The type says whether the integers of an image have signs as they are read: where it begins
/// with a `u` they are never negative, and where it does not, the bytes whose first bit is set are
/// read as a negative number.
pub proof fn types_agree_with_what_is_read(bytes: Seq<u8>, at: int, bitpix: i64)
    requires
        bitpix == 8 || bitpix == 16 || bitpix == 32,
        0 <= at && at + 4 <= bytes.len(),
    ensures
        dtype_of(bitpix)[0] == 'u' <==> bitpix == 8,
        dtype_of(bitpix)[0] == 'u' ==> 0 <= stored_int(bytes, at, bitpix as int) < 256,
        dtype_of(bitpix)[0] == 'i' ==> (stored_int(bytes, at, bitpix as int) < 0 <==> bytes[at]
            >= 128),
        dtype_of(bitpix)[0] == 'u' || dtype_of(bitpix)[0] == 'i',
{
    reveal_strlit("uint8");
    reveal_strlit("int16");
    reveal_strlit("int32");
}

/// Integers are stored with the most significant byte first, in two's complement where they have
/// more than one byte.
pub proof fn integers_are_read_big_endian(bytes: Seq<u8>, at: int)
    ensures
        stored_int(bytes, at, 8) == bytes[at],
        (stored_int(bytes, at, 16) - (256 * bytes[at] + bytes[at + 1])) % 65536 == 0,
        -32768 <= stored_int(bytes, at, 16) < 32768,
        (stored_int(bytes, at, 32) - (16777216 * bytes[at] + 65536 * bytes[at + 1] + 256 * bytes[at
            + 2] + bytes[at + 3])) % 4294967296 == 0,
        -2147483648 <= stored_int(bytes, at, 32) < 2147483648,
{
}

/// The shape names the axes from the slowest to the fastest: the last length is that of the first
/// axis, the one before it that of the second; there are as many as axes, up to three.
pub proof fn shapes_name_the_slowest_axis_first(naxis: i64, a: i64, b: i64, c: i64)
    ensures
        shape_of(naxis, a, b, c).len() == if 0 <= naxis < 3 {
            naxis as int
        } else {
            3
        },
        naxis != 0 ==> shape_of(naxis, a, b, c).last() == a,
        naxis != 0 && naxis != 1 ==> shape_of(naxis, a, b, c)[shape_of(naxis, a, b, c).len() - 2]
            == b,
        naxis < 0 || naxis >= 3 ==> shape_of(naxis, a, b, c)[0] == c,
{
}

/// The fullest bin is the last of those with the greatest count.
pub proof fn the_mode_is_the_last_fullest_bin(counts: Seq<u64>, i: int, j: int)
    requires
        is_mode(counts, i),
        0 <= j < counts.len(),
    ensures
        0 <= i < counts.len(),
        counts[j] <= counts[i],
        counts[j] == counts[i] ==> j <= i,
{
}

} // verus!
