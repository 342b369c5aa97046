//! A look at one pixel and its neighbourhood.

use vstd::prelude::*;
use vstd::string::*;
use crate::server::connect::around;
use crate::server::error::AppError;
use crate::server::v2::values::{extent, finite_values, only_finite, rank, Extent};
use crate::text::{decimal, format_unsigned};

verus! {

/// The side of the neighbourhood where a request names none: the pixel alone.
pub fn default_box() -> (n: u32)
    ensures
        n == 1,
{
    1
}

/// A neighbourhood, its last column and row included.
#[derive(Debug, Clone, Copy, PartialEq, Eq)]
pub struct Window {
    pub x0: usize,
    pub x1: usize,
    pub y0: usize,
    pub y1: usize,
}

/// The first place of a side around `c`.
pub open spec fn low(c: int, half: int) -> int {
    if c - half > 0 {
        c - half
    } else {
        0
    }
}

/// The last place of a side around `c`, within `len` places.
pub open spec fn high(c: int, half: int, len: int) -> int {
    if c + half < len - 1 {
        c + half
    } else {
        len - 1
    }
}

/// The neighbourhood of the pixel in column `cx` and row `cy`: half a box to every side, within an
/// image of `cols` by `rows`. `x` and `y` are the place asked for, as it was written.
pub fn pixel_window(
    cx: i64,
    cy: i64,
    box_size: u32,
    cols: usize,
    rows: usize,
    x: &str,
    y: &str,
) -> (r: Result<Window, AppError>)
    ensures
        r is Ok <==> 0 <= cx < cols && 0 <= cy < rows,
        match r {
            Ok(w) => {
                let half = (box_size / 2) as int;
                &&& w.x0 == low(cx as int, half)
                &&& w.x1 == high(cx as int, half, cols as int)
                &&& w.y0 == low(cy as int, half)
                &&& w.y1 == high(cy as int, half, rows as int)
                &&& w.x0 <= cx <= w.x1 < cols
                &&& w.y0 <= cy <= w.y1 < rows
                &&& cx >= box_size / 2 ==> cx - w.x0 == box_size / 2
                &&& cx < box_size / 2 ==> w.x0 == 0
                &&& cols - cx > box_size / 2 ==> w.x1 - cx == box_size / 2
                &&& cols - cx <= box_size / 2 ==> w.x1 == cols - 1
                &&& cy >= box_size / 2 ==> cy - w.y0 == box_size / 2
                &&& cy < box_size / 2 ==> w.y0 == 0
                &&& rows - cy > box_size / 2 ==> w.y1 - cy == box_size / 2
                &&& rows - cy <= box_size / 2 ==> w.y1 == rows - 1
            },
            Err(AppError::BadRequestWithHint { code, message, hint }) => {
                &&& code@ == "pixel_out_of_bounds"@
                &&& message@ == "pixel ("@ + x@ + ", "@ + y@ + ") is outside the image extent "@
                    + decimal(cols as nat) + "×"@ + decimal(rows as nat)
                &&& hint matches Some(h) && h@ == "x must be in [0, "@ + decimal(cols as nat)
                    + ") and y in [0, "@ + decimal(rows as nat) + ")"@
            },
            Err(_) => false,
        },
{
    if cx < 0 || cy < 0 || cx as u64 >= cols as u64 || cy as u64 >= rows as u64 {
        let width = format_unsigned(cols as u64);
        let height = format_unsigned(rows as u64);
        let mut message = around("pixel (", x, ", ");
        message.append(y);
        message.append(") is outside the image extent ");
        message.append(width.as_str());
        message.append("×");
        message.append(height.as_str());
        let mut hint = around("x must be in [0, ", width.as_str(), ") and y in [0, ");
        hint.append(height.as_str());
        hint.append(")");
        return Err(
            AppError::BadRequestWithHint { code: "pixel_out_of_bounds", message, hint: Some(hint) },
        );
    }
    let half: usize = (box_size / 2) as usize;
    let (x0, x1) = side(cx as usize, half, cols);
    let (y0, y1) = side(cy as usize, half, rows);
    Ok(Window { x0, x1, y0, y1 })
}

fn side(c: usize, half: usize, len: usize) -> (r: (usize, usize))
    requires
        c < len,
    ensures
        r.0 == low(c as int, half as int),
        r.1 == high(c as int, half as int, len as int),
        r.0 <= c <= r.1 < len,
{
    let first: usize = if c > half {
        c - half
    } else {
        0
    };
    let last: usize = if half < len - 1 - c {
        c + half
    } else {
        len - 1
    };
    (first, last)
}

/// The values of a neighbourhood from row `y` on, row by row.
pub open spec fn values_from(pixels: Seq<u32>, cols: int, w: Window, y: int) -> Seq<u32>
    decreases w.y1 - y + 1,
{
    if y > w.y1 {
        Seq::empty()
    } else {
        pixels.subrange(y * cols + w.x0, y * cols + w.x1 + 1) + values_from(pixels, cols, w, y + 1)
    }
}

/// The values of a neighbourhood, row by row, of an image whose values follow one another row by
/// row.
pub fn window_values(pixels: &Vec<u32>, cols: usize, w: Window) -> (values: Vec<u32>)
    requires
        w.x0 <= w.x1 < cols,
        w.y0 <= w.y1,
        (w.y1 + 1) * cols <= pixels@.len(),
    ensures
        values@ == values_from(pixels@, cols as int, w, w.y0 as int),
{
    let mut values: Vec<u32> = Vec::new();
    assert(pixels.len() <= usize::MAX);
    proof {
        lemma_row_fits(w.y0 as int, w.y1 as int, cols as int);
    }
    let mut y: usize = w.y0;
    let mut row: usize = w.y0 * cols;
    assert(values@ + values_from(pixels@, cols as int, w, y as int) =~= values_from(
        pixels@,
        cols as int,
        w,
        y as int,
    ));
    while y <= w.y1
        invariant
            w.x0 <= w.x1 < cols,
            w.y0 <= y <= w.y1 + 1,
            row == y * cols,
            (w.y1 + 1) * cols <= pixels.len(),
            values_from(pixels@, cols as int, w, w.y0 as int) == values@ + values_from(
                pixels@,
                cols as int,
                w,
                y as int,
            ),
        decreases w.y1 - y + 1,
    {
        proof {
            lemma_row_fits(y as int, w.y1 as int, cols as int);
        }
        let ghost before = values@;
        let ghost rest = values_from(pixels@, cols as int, w, y + 1);
        let mut x: usize = w.x0;
        assert(values@ =~= before + pixels@.subrange(row + w.x0, row + w.x0));
        while x <= w.x1
            invariant
                w.x0 <= x <= w.x1 + 1,
                w.x1 < cols,
                row + cols <= pixels.len(),
                values@ == before + pixels@.subrange(row + w.x0, row + x),
            decreases w.x1 - x + 1,
        {
            values.push(pixels[row + x]);
            x = x + 1;
            assert(values@ =~= before + pixels@.subrange(row + w.x0, row + x));
        }
        assert(before + (pixels@.subrange(row + w.x0, row + w.x1 + 1) + rest) =~= values@ + rest);
        if y == w.y1 {
            assert(values_from(pixels@, cols as int, w, y + 1) =~= Seq::empty());
            assert(values@ + rest =~= values@);
            return values;
        }
        y = y + 1;
        row = row + cols;
    }
    assert(values@ + values_from(pixels@, cols as int, w, y as int) =~= values@);
    values
}

proof fn lemma_row_fits(y: int, last: int, cols: int)
    requires
        0 <= y <= last,
        cols >= 0,
    ensures
        0 <= y * cols,
        y * cols + cols == (y + 1) * cols,
        (y + 1) * cols <= (last + 1) * cols,
{
    assert(0 <= y * cols && y * cols + cols == (y + 1) * cols && (y + 1) * cols <= (last + 1) * cols)
        by (nonlinear_arith)
        requires
            0 <= y <= last,
            cols >= 0,
    ;
}

/// What is told of a neighbourhood: how many of its values are finite, how many are not, and the
/// least and the greatest of the finite ones.
#[derive(Debug, Clone, Copy, PartialEq, Eq)]
pub struct Neighbourhood {
    pub n_pixels: usize,
    pub n_nan: usize,
    pub extent: Option<Extent>,
}

/// Sums up the values of a neighbourhood.
pub fn neighbourhood(values: &Vec<u32>) -> (n: Neighbourhood)
    ensures
        n.n_pixels == finite_values(values@).len(),
        n.n_pixels + n.n_nan == values@.len(),
        match n.extent {
            Some(e) => {
                &&& finite_values(values@).contains(e.least)
                &&& finite_values(values@).contains(e.greatest)
                &&& forall|i: int|
                    0 <= i < finite_values(values@).len() ==> rank(e.least) <= rank(
                        #[trigger] finite_values(values@)[i],
                    ) <= rank(e.greatest)
            },
            None => finite_values(values@).len() == 0,
        },
{
    let kept = only_finite(values);
    proof {
        lemma_filter_is_no_longer(values@);
    }
    Neighbourhood {
        n_pixels: kept.len(),
        n_nan: values.len() - kept.len(),
        extent: extent(&kept),
    }
}

proof fn lemma_filter_is_no_longer(values: Seq<u32>)
    ensures
        finite_values(values).len() <= values.len(),
    decreases values.len(),
{
    reveal(Seq::filter);
    if values.len() > 0 {
        lemma_filter_is_no_longer(values.drop_last());
    }
}

/// A box of one, or none, is the pixel alone; and far from the edges a box takes as many pixels to
/// one side as to the other.
pub proof fn boxes_are_centred(c: int, half: int, len: int)
    requires
        0 <= c < len,
        half >= 0,
    ensures
        half == 0 ==> low(c, half) == c && high(c, half, len) == c,
        half <= c && c + half < len ==> c - low(c, half) == high(c, half, len) - c,
{
}

} // verus!
