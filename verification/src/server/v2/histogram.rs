//! Histograms of a region: which requests are refused, and which bin holds the mode.

use vstd::prelude::*;
use vstd::string::*;
use crate::server::error::AppError;

verus! {

/// Bins where a request names none.
pub fn default_bins() -> (n: usize)
    ensures
        n == 256,
{
    256
}

/// Where the range of a histogram comes from: the request, or the values.
pub fn range_source(given: bool) -> (s: &'static str)
    ensures
        s@ == if given {
            "explicit"@
        } else {
            "auto"@
        },
{
    if given {
        "explicit"
    } else {
        "auto"
    }
}

/// Refuses a request for a plot, and one for no bins.
pub fn check_request(render_png: Option<bool>, bins: usize) -> (r: Result<(), AppError>)
    ensures
        r is Ok <==> render_png != Some(true) && bins > 0,
        match r {
            Ok(_) => true,
            Err(AppError::BadRequestWithHint { code, message, hint }) => if render_png == Some(
                true,
            ) {
                &&& code@ == "not_implemented"@
                &&& message@ == "render_png is not implemented for the histogram endpoint yet"@
                &&& hint matches Some(h) && h@
                    == "omit render_png and plot the returned bins/bin_edges yourself"@
            } else {
                &&& code@ == "bad_request"@
                &&& message@ == "bins must be > 0"@
                &&& hint is None
            },
            Err(_) => false,
        },
{
    let plot = match render_png {
        Some(b) => b,
        None => false,
    };
    if plot {
        return Err(
            AppError::BadRequestWithHint {
                code: "not_implemented",
                message: "render_png is not implemented for the histogram endpoint yet".to_owned(),
                hint: Some(
                    "omit render_png and plot the returned bins/bin_edges yourself".to_owned(),
                ),
            },
        );
    }
    if bins == 0 {
        return Err(
            AppError::BadRequestWithHint {
                code: "bad_request",
                message: "bins must be > 0".to_owned(),
                hint: None,
            },
        );
    }
    Ok(())
}

/// Whether bin `i` is the last of those that hold the most.
pub open spec fn is_mode(counts: Seq<u64>, i: int) -> bool {
    &&& 0 <= i < counts.len()
    &&& forall|j: int| 0 <= j < counts.len() ==> #[trigger] counts[j] <= counts[i]
    &&& forall|j: int| i < j < counts.len() ==> #[trigger] counts[j] < counts[i]
}

/// The bin that holds the most, the last one where several do; none where all are empty.
pub fn mode_bin(counts: &Vec<u64>) -> (bin: Option<usize>)
    ensures
        match bin {
            Some(i) => is_mode(counts@, i as int) && counts@[i as int] > 0,
            None => forall|j: int| 0 <= j < counts@.len() ==> #[trigger] counts@[j] == 0,
        },
{
    if counts.len() == 0 {
        return None;
    }
    let mut best: usize = 0;
    let mut i: usize = 1;
    while i < counts.len()
        invariant
            0 < i <= counts@.len(),
            best < i,
            forall|j: int| 0 <= j < i ==> #[trigger] counts@[j] <= counts@[best as int],
            forall|j: int| best < j < i ==> #[trigger] counts@[j] < counts@[best as int],
        decreases counts.len() - i,
    {
        if counts[i] >= counts[best] {
            best = i;
        }
        i = i + 1;
    }
    if counts[best] > 0 {
        Some(best)
    } else {
        None
    }
}

} // verus!
