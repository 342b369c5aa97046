//! Regions of an image.

use vstd::prelude::*;
use vstd::string::*;
use crate::server::connect::around;
use crate::server::error::AppError;
use crate::server::v2::pixel::{values_from, window_values, Window};
use crate::text::{decimal, format_unsigned};

verus! {

/// A region as a request names it: a corner, a size, and whether what hangs over the image may be
/// cut off.
#[derive(Debug, Clone, Copy, PartialEq, Eq)]
pub struct Region {
    pub x: i64,
    pub y: i64,
    pub width: u64,
    pub height: u64,
    pub clip: bool,
}

/// A region of an image.
#[derive(Debug, Clone, Copy, PartialEq, Eq)]
pub struct ResolvedRegion {
    pub x: usize,
    pub y: usize,
    pub width: usize,
    pub height: usize,
    pub clipped: bool,
}

/// The first place of a side that lies in the image.
pub open spec fn side_start(start: int) -> int {
    if start < 0 {
        0
    } else {
        start
    }
}

/// Behind the last place of a side that lies in the image.
pub open spec fn side_end(start: int, len: int, limit: int) -> int {
    if start + len < limit {
        start + len
    } else {
        limit
    }
}

/// Whether a side lies in the image as a whole, and has a length.
pub open spec fn side_fits(start: int, len: int, limit: int) -> bool {
    0 <= start && 0 < len && start + len <= limit
}

/// Whether a side has a place in the image.
pub open spec fn side_meets(start: int, len: int, limit: int) -> bool {
    side_start(start) < side_end(start, len, limit)
}

/// Whether a region lies in the image as a whole.
pub open spec fn region_fits(r: Region, cols: usize, rows: usize) -> bool {
    side_fits(r.x as int, r.width as int, cols as int) && side_fits(
        r.y as int,
        r.height as int,
        rows as int,
    )
}

/// Whether a region has a pixel in the image.
pub open spec fn region_meets(r: Region, cols: usize, rows: usize) -> bool {
    side_meets(r.x as int, r.width as int, cols as int) && side_meets(
        r.y as int,
        r.height as int,
        rows as int,
    )
}

/// Whether `s` is what of region `r` lies in the image.
pub open spec fn is_cut(s: ResolvedRegion, r: Region, cols: usize, rows: usize) -> bool {
    &&& s.x == side_start(r.x as int)
    &&& s.x + s.width == side_end(r.x as int, r.width as int, cols as int)
    &&& s.y == side_start(r.y as int)
    &&& s.y + s.height == side_end(r.y as int, r.height as int, rows as int)
}

/// The whole image.
pub fn full_frame(cols: usize, rows: usize) -> (s: ResolvedRegion)
    ensures
        s == (ResolvedRegion { x: 0, y: 0, width: cols, height: rows, clipped: false }),
{
    ResolvedRegion { x: 0, y: 0, width: cols, height: rows, clipped: false }
}

fn cut_side(start: i64, len: u64, limit: usize) -> (r: Option<(usize, usize, bool)>)
    ensures
        match r {
            Some((first, count, whole)) => {
                &&& side_meets(start as int, len as int, limit as int)
                &&& first == side_start(start as int)
                &&& first + count == side_end(start as int, len as int, limit as int)
                &&& whole == side_fits(start as int, len as int, limit as int)
            },
            None => !side_meets(start as int, len as int, limit as int),
        },
{
    let first: i128 = if start < 0 {
        0
    } else {
        start as i128
    };
    let end: i128 = start as i128 + len as i128;
    let cut: i128 = if end < limit as i128 {
        end
    } else {
        limit as i128
    };
    if first < cut {
        Some((first as usize, (cut - first) as usize, start >= 0 && end <= limit as i128))
    } else {
        None
    }
}

/// The region of an image of `cols` by `rows` that a request names. One that does not fit is an
/// error, unless it may be cut off and has a pixel in the image.
pub fn resolve_region(r: Region, cols: usize, rows: usize) -> (s: Result<ResolvedRegion, AppError>)
    ensures
        s is Ok <==> region_fits(r, cols, rows) || (r.clip && region_meets(r, cols, rows)),
        match s {
            Ok(s) => is_cut(s, r, cols, rows) && s.clipped == !region_fits(r, cols, rows),
            Err(AppError::BadRequestWithHint { code, message, hint }) => {
                &&& code@ == "region_out_of_bounds"@
                &&& message@ == "region does not fit the image extent "@ + decimal(cols as nat)
                    + "×"@ + decimal(rows as nat)
                &&& hint matches Some(h) && h@ == "pass clip: true to clamp it to the image"@
            },
            Err(_) => false,
        },
{
    if let Some((x, width, whole_x)) = cut_side(r.x, r.width, cols) {
        if let Some((y, height, whole_y)) = cut_side(r.y, r.height, rows) {
            let whole = whole_x && whole_y;
            if whole || r.clip {
                return Ok(ResolvedRegion { x, y, width, height, clipped: !whole });
            }
        }
    }
    let width = format_unsigned(cols as u64);
    let height = format_unsigned(rows as u64);
    let mut message = around("region does not fit the image extent ", width.as_str(), "×");
    message.append(height.as_str());
    Err(
        AppError::BadRequestWithHint {
            code: "region_out_of_bounds",
            message,
            hint: Some("pass clip: true to clamp it to the image".to_owned()),
        },
    )
}

/// The error for a region in the sky of an image without world coordinates.
pub fn wcs_required() -> (e: AppError)
    ensures
        e matches AppError::BadRequestWithHint { code, message, hint } && code@ == "wcs_required"@
            && message@ == "a region in the sky cannot be resolved on this image"@ && (
        hint matches Some(h) && h@ == "name the region in pixels"@),
{
    AppError::BadRequestWithHint {
        code: "wcs_required",
        message: "a region in the sky cannot be resolved on this image".to_owned(),
        hint: Some("name the region in pixels".to_owned()),
    }
}

/// The values of a region from row `y` on, row by row, of an image whose values follow one another
/// row by row.
pub open spec fn rows_from(pixels: Seq<u32>, cols: int, r: ResolvedRegion, y: int) -> Seq<u32>
    decreases r.y + r.height - y,
{
    if y >= r.y + r.height {
        Seq::empty()
    } else {
        pixels.subrange(y * cols + r.x, y * cols + r.x + r.width) + rows_from(
            pixels,
            cols,
            r,
            y + 1,
        )
    }
}

proof fn lemma_rows_are_a_window(pixels: Seq<u32>, cols: int, r: ResolvedRegion, w: Window, y: int)
    requires
        w.x0 == r.x && w.x1 + 1 == r.x + r.width,
        w.y0 == r.y && w.y1 + 1 == r.y + r.height,
    ensures
        rows_from(pixels, cols, r, y) == values_from(pixels, cols, w, y),
    decreases r.y + r.height - y,
{
    if y < r.y + r.height {
        lemma_rows_are_a_window(pixels, cols, r, w, y + 1);
    }
}

proof fn lemma_no_rows(pixels: Seq<u32>, cols: int, r: ResolvedRegion, y: int)
    requires
        r.width == 0,
        0 <= y,
        0 <= cols,
        r.x <= cols,
        (r.y + r.height) * cols <= pixels.len(),
    ensures
        rows_from(pixels, cols, r, y) == Seq::<u32>::empty(),
    decreases r.y + r.height - y,
{
    if y < r.y + r.height {
        lemma_no_rows(pixels, cols, r, y + 1);
        assert(0 <= y * cols && y * cols + cols <= (r.y + r.height) * cols) by (nonlinear_arith)
            requires
                0 <= y < r.y + r.height,
                0 <= cols,
        ;
        assert(rows_from(pixels, cols, r, y) =~= Seq::empty());
    }
}

/// The values of a region, row by row.
pub fn region_values(pixels: &Vec<u32>, cols: usize, r: ResolvedRegion) -> (v: Vec<u32>)
    requires
        r.x + r.width <= cols,
        (r.y + r.height) * cols <= pixels@.len(),
    ensures
        v@ == rows_from(pixels@, cols as int, r, r.y as int),
{
    if r.width == 0 || r.height == 0 {
        proof {
            if r.height > 0 {
                lemma_no_rows(pixels@, cols as int, r, r.y as int);
            }
        }
        let none: Vec<u32> = Vec::new();
        assert(none@ =~= rows_from(pixels@, cols as int, r, r.y as int));
        return none;
    }
    assert(pixels.len() <= usize::MAX);
    proof {
        assert(r.y + r.height <= (r.y + r.height) * cols) by (nonlinear_arith)
            requires
                cols >= 1,
                r.y + r.height >= 0,
        ;
    }
    let w = Window {
        x0: r.x,
        x1: r.x + (r.width - 1),
        y0: r.y,
        y1: r.y + (r.height - 1),
    };
    proof {
        lemma_rows_are_a_window(pixels@, cols as int, r, w, r.y as int);
    }
    window_values(pixels, cols, w)
}

/// A resolved region has a pixel and lies in the image; one that was not cut is the one asked for.
pub proof fn resolved_regions_lie_in_the_image(
    s: ResolvedRegion,
    r: Region,
    cols: usize,
    rows: usize,
)
    requires
        region_meets(r, cols, rows),
        is_cut(s, r, cols, rows),
    ensures
        0 < s.width && s.x + s.width <= cols,
        0 < s.height && s.y + s.height <= rows,
        region_fits(r, cols, rows) ==> s.x == r.x && s.y == r.y && s.width == r.width && s.height
            == r.height,
{
}

} // verus!
