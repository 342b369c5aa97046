//! What a `Range` header asks for, stated of its text and of what is served.

use vstd::prelude::*;
use vstd::string::*;
use crate::server::v2::fs::{is_plan, range_of, RangeOutcome, RawPlan};
use crate::text::{decimal, first_of, is_space, parsed_unsigned, trimmed};
use crate::text_laws::{
    decimals_spell_their_number, lemma_first_is, lemma_trimmed_whole,
    trimming_gives_back_the_middle, written_numbers_are_read_back,
};

verus! {

/// Whether a text is white space alone.
pub open spec fn is_blank(s: Seq<char>) -> bool {
    forall|i: int| 0 <= i < s.len() ==> is_space(#[trigger] s[i])
}

/// Whether a text is empty or decimal digits alone.
pub open spec fn is_digits(s: Seq<char>) -> bool {
    forall|i: int| 0 <= i < s.len() ==> '0' <= #[trigger] s[i] <= '9'
}

/// A header names two ends, either of which may be empty, whatever white space stands around them.
proof fn lemma_ends(w: Seq<Seq<char>>, first: Seq<char>, last: Seq<char>)
    requires
        w.len() == 5,
        forall|i: int| 0 <= i < 5 ==> is_blank(#[trigger] w[i]),
        is_digits(first),
        is_digits(last),
    ensures
        ({
            let header = trimmed(
                w[0] + "bytes="@ + w[1] + first + w[2] + "-"@ + w[3] + last + w[4],
            );
            let body = trimmed(header.skip(6));
            let i = first_of(body, '-');
            &&& "bytes="@.is_prefix_of(header)
            &&& "bytes="@.len() == 6
            &&& first_of(body, ',') == body.len()
            &&& 0 <= i < body.len()
            &&& trimmed(body.take(i)) == first
            &&& trimmed(body.skip(i + 1)) == last
        }),
{
    reveal_strlit("bytes=");
    reveal_strlit("-");
    let none = Seq::<char>::empty();
    let unit = "bytes="@;
    let all = w[0] + unit + w[1] + first + w[2] + "-"@ + w[3] + last + w[4];
    // The white space that ends the header is what stands behind the last mark.
    let tail = if last.len() > 0 {
        w[4]
    } else {
        w[3] + last + w[4]
    };
    let core = if last.len() > 0 {
        first + w[2] + "-"@ + w[3] + last
    } else {
        first + w[2] + "-"@
    };
    let middle = unit + w[1] + core;
    assert(is_blank(w[0]) && is_blank(w[1]) && is_blank(w[2]) && is_blank(w[3]) && is_blank(w[4]));
    assert(is_blank(tail)) by {
        assert forall|i: int| 0 <= i < tail.len() implies is_space(#[trigger] tail[i]) by {
            if last.len() == 0 {
                assert(tail =~= w[3] + w[4]);
                if i < w[3].len() {
                    assert(tail[i] == w[3][i]);
                } else {
                    assert(tail[i] == w[4][i - w[3].len()]);
                }
            }
        }
    }
    assert(all =~= w[0] + middle + tail);
    assert(core.len() > 0 && !is_space(core.last()));
    assert(middle.last() == core.last());
    assert(middle[0] == 'b');
    trimming_gives_back_the_middle(w[0], middle, tail);
    let header = trimmed(all);
    assert(unit =~= header.subrange(0, 6));
    assert(header.skip(6) =~= w[1] + core + none);
    // The white space that opens the body is what stands before the first mark.
    let lead = if first.len() > 0 {
        w[1]
    } else {
        w[1] + first + w[2]
    };
    let body = if first.len() > 0 {
        core
    } else {
        if last.len() > 0 {
            "-"@ + w[3] + last
        } else {
            "-"@
        }
    };
    assert(is_blank(lead)) by {
        assert forall|i: int| 0 <= i < lead.len() implies is_space(#[trigger] lead[i]) by {
            if first.len() == 0 {
                assert(lead =~= w[1] + w[2]);
                if i < w[1].len() {
                    assert(lead[i] == w[1][i]);
                } else {
                    assert(lead[i] == w[2][i - w[1].len()]);
                }
            }
        }
    }
    assert(header.skip(6) =~= lead + body + none);
    assert(body.len() > 0 && !is_space(body[0]) && !is_space(body.last()));
    trimming_gives_back_the_middle(lead, body, none);
    let at: int = if first.len() > 0 {
        first.len() as int + w[2].len()
    } else {
        0
    };
    assert(body[at] == '-');
    assert forall|j: int| 0 <= j < body.len() && j != at implies #[trigger] body[j] != '-'
        && body[j] != ',' by {
        if j < at {
            if j < first.len() {
                assert(body[j] == first[j]);
            } else {
                assert(body[j] == w[2][j - first.len()]);
            }
        } else if last.len() > 0 {
            let k = j - at - 1;
            if k < w[3].len() {
                assert(body[j] == w[3][k]);
            } else {
                assert(body[j] == last[k - w[3].len()]);
            }
        }
    }
    lemma_first_is(body, '-', at);
    lemma_first_is(body, ',', body.len() as int);
    if first.len() > 0 {
        assert(body.take(at) =~= none + first + w[2]);
    } else {
        assert(body.take(at) =~= none + first + none);
    }
    trimming_gives_back_the_middle(none, first, w[2]);
    trimming_gives_back_the_middle(none, first, none);
    if last.len() > 0 {
        assert(body.skip(at + 1) =~= w[3] + last + none);
    } else {
        assert(body.skip(at + 1) =~= none + last + none);
    }
    trimming_gives_back_the_middle(w[3], last, none);
    trimming_gives_back_the_middle(none, last, none);
}

/// `bytes=S-E` asks for the bytes from `S` to `E`, both included, as far as the file goes: of a
/// file of `total` bytes it is answered with those bytes, however many they are, and with a
/// `Content-Range` that names the first and the last of them. White space does not matter.
pub proof fn a_closed_range_is_served_whole(
    w: Seq<Seq<char>>,
    s: u64,
    e: u64,
    total: u64,
    p: RawPlan,
)
    requires
        w.len() == 5,
        forall|i: int| 0 <= i < 5 ==> is_blank(#[trigger] w[i]),
        s <= e,
        s < total,
    ensures
        ({
            let header = w[0] + "bytes="@ + w[1] + decimal(s as nat) + w[2] + "-"@ + w[3] + decimal(
                e as nat,
            ) + w[4];
            let last = if e < total {
                e as int
            } else {
                total - 1
            };
            &&& range_of(header, total) == RangeOutcome::Satisfiable(s, (last - s + 1) as u64)
            &&& is_plan(p, range_of(header, total), total) ==> {
                &&& p.status == 206
                &&& p.start == s
                &&& p.start + p.len - 1 == last
                &&& p.content_range matches Some(text) && text@ == "bytes "@ + decimal(s as nat)
                    + "-"@ + decimal(last as nat) + "/"@ + decimal(total as nat)
            }
        }),
{
    decimals_spell_their_number(s as nat);
    decimals_spell_their_number(e as nat);
    lemma_ends(w, decimal(s as nat), decimal(e as nat));
    written_numbers_are_read_back(s as nat, u64::MAX as nat);
    written_numbers_are_read_back(e as nat, u64::MAX as nat);
}

/// `bytes=S-` asks for all bytes from `S` to the end of the file.
pub proof fn an_open_range_is_served_to_the_end(w: Seq<Seq<char>>, s: u64, total: u64, p: RawPlan)
    requires
        w.len() == 5,
        forall|i: int| 0 <= i < 5 ==> is_blank(#[trigger] w[i]),
        s < total,
    ensures
        ({
            let header = w[0] + "bytes="@ + w[1] + decimal(s as nat) + w[2] + "-"@ + w[3] + w[4];
            &&& range_of(header, total) == RangeOutcome::Satisfiable(s, (total - s) as u64)
            &&& is_plan(p, range_of(header, total), total) ==> {
                &&& p.status == 206
                &&& p.start == s
                &&& p.start + p.len == total
                &&& p.content_range matches Some(text) && text@ == "bytes "@ + decimal(s as nat)
                    + "-"@ + decimal((total - 1) as nat) + "/"@ + decimal(total as nat)
            }
        }),
{
    let none = Seq::<char>::empty();
    decimals_spell_their_number(s as nat);
    lemma_ends(w, decimal(s as nat), none);
    written_numbers_are_read_back(s as nat, u64::MAX as nat);
    assert(w[0] + "bytes="@ + w[1] + decimal(s as nat) + w[2] + "-"@ + w[3] + none + w[4] =~= w[0]
        + "bytes="@ + w[1] + decimal(s as nat) + w[2] + "-"@ + w[3] + w[4]);
}

/// `bytes=-N` asks for the last `N` bytes of the file, or for all of it where it has fewer.
pub proof fn a_suffix_range_is_served_from_the_end(
    w: Seq<Seq<char>>,
    n: u64,
    total: u64,
    p: RawPlan,
)
    requires
        w.len() == 5,
        forall|i: int| 0 <= i < 5 ==> is_blank(#[trigger] w[i]),
        0 < n,
        0 < total,
    ensures
        ({
            let header = w[0] + "bytes="@ + w[1] + w[2] + "-"@ + w[3] + decimal(n as nat) + w[4];
            let count = if n < total {
                n
            } else {
                total
            };
            &&& range_of(header, total) == RangeOutcome::Satisfiable((total - count) as u64, count)
            &&& is_plan(p, range_of(header, total), total) ==> {
                &&& p.status == 206
                &&& p.len == count
                &&& p.start + p.len == total
                &&& p.content_range matches Some(text) && text@ == "bytes "@ + decimal(
                    (total - count) as nat,
                ) + "-"@ + decimal((total - 1) as nat) + "/"@ + decimal(total as nat)
            }
        }),
{
    let none = Seq::<char>::empty();
    decimals_spell_their_number(n as nat);
    lemma_ends(w, none, decimal(n as nat));
    written_numbers_are_read_back(n as nat, u64::MAX as nat);
    assert(w[0] + "bytes="@ + w[1] + none + w[2] + "-"@ + w[3] + decimal(n as nat) + w[4] =~= w[0]
        + "bytes="@ + w[1] + w[2] + "-"@ + w[3] + decimal(n as nat) + w[4]);
}

/// A range that begins behind the end of the file, and the last no bytes of it, cannot be served:
/// the answer says how long the file is. A range that ends before it begins is no range, nor is
/// one end missing at both sides: the whole file is served.
pub proof fn what_is_not_served_as_a_range(
    w: Seq<Seq<char>>,
    s: u64,
    e: u64,
    total: u64,
    p: RawPlan,
)
    requires
        w.len() == 5,
        forall|i: int| 0 <= i < 5 ==> is_blank(#[trigger] w[i]),
    ensures
        ({
            let closed = w[0] + "bytes="@ + w[1] + decimal(s as nat) + w[2] + "-"@ + w[3] + decimal(
                e as nat,
            ) + w[4];
            let open = w[0] + "bytes="@ + w[1] + decimal(s as nat) + w[2] + "-"@ + w[3] + w[4];
            let suffix = w[0] + "bytes="@ + w[1] + w[2] + "-"@ + w[3] + decimal(e as nat) + w[4];
            let bare = w[0] + "bytes="@ + w[1] + w[2] + "-"@ + w[3] + w[4];
            &&& s <= e && s >= total ==> range_of(closed, total) is Unsatisfiable
            &&& s > e ==> range_of(closed, total) is Ignore
            &&& s >= total ==> range_of(open, total) is Unsatisfiable
            &&& e == 0 || total == 0 ==> range_of(suffix, total) is Unsatisfiable
            &&& range_of(bare, total) is Ignore
        }),
        is_plan(p, RangeOutcome::Unsatisfiable, total) ==> p.status == 416 && p.len == 0 && (
        p.content_range matches Some(text) && text@ == "bytes */"@ + decimal(total as nat)),
        is_plan(p, RangeOutcome::Ignore, total) ==> p.status == 200 && p.start == 0 && p.len
            == total && p.content_range is None,
{
    let none = Seq::<char>::empty();
    decimals_spell_their_number(s as nat);
    decimals_spell_their_number(e as nat);
    lemma_ends(w, decimal(s as nat), decimal(e as nat));
    lemma_ends(w, decimal(s as nat), none);
    lemma_ends(w, none, decimal(e as nat));
    lemma_ends(w, none, none);
    written_numbers_are_read_back(s as nat, u64::MAX as nat);
    written_numbers_are_read_back(e as nat, u64::MAX as nat);
    assert(w[0] + "bytes="@ + w[1] + decimal(s as nat) + w[2] + "-"@ + w[3] + none + w[4] =~= w[0]
        + "bytes="@ + w[1] + decimal(s as nat) + w[2] + "-"@ + w[3] + w[4]);
    assert(w[0] + "bytes="@ + w[1] + none + w[2] + "-"@ + w[3] + decimal(e as nat) + w[4] =~= w[0]
        + "bytes="@ + w[1] + w[2] + "-"@ + w[3] + decimal(e as nat) + w[4]);
    assert(w[0] + "bytes="@ + w[1] + none + w[2] + "-"@ + w[3] + none + w[4] =~= w[0] + "bytes="@
        + w[1] + w[2] + "-"@ + w[3] + w[4]);
}

/// A header of another unit, one that names several ranges, and one without a hyphen are no range
/// that is served in part.
pub proof fn other_headers_are_ignored(header: Seq<char>, total: u64)
    requires
        header.len() > 0 ==> !is_space(header[0]) && !is_space(header.last()),
    ensures
        !"bytes="@.is_prefix_of(header) ==> range_of(header, total) is Ignore,
        header.contains(',') ==> range_of(header, total) is Ignore,
        !header.contains('-') ==> range_of(header, total) is Ignore,
{
    reveal_strlit("bytes=");
    lemma_trimmed_whole(header);
    if "bytes="@.is_prefix_of(header) {
        let rest = header.skip(6);
        let body = trimmed(rest);
        assert("bytes="@ =~= header.subrange(0, 6));
        crate::text_laws::trimming_takes_the_space_around(rest);
        let a = choose|a: int|
            {
                &&& 0 <= a
                &&& a + body.len() <= rest.len()
                &&& body == #[trigger] rest.subrange(a, a + body.len())
                &&& forall|i: int| 0 <= i < a ==> is_space(#[trigger] rest[i])
                &&& forall|i: int| a + body.len() <= i < rest.len() ==> is_space(#[trigger] rest[i])
            };
        crate::text_laws::the_first_place_is_first(body, ',');
        crate::text_laws::the_first_place_is_first(body, '-');
        if header.contains(',') {
            let k = choose|k: int| 0 <= k < header.len() && header[k] == ',';
            assert(header[k] == ',');
            assert(k >= 6) by {
                if k < 6 {
                    assert("bytes="@[k] == header.subrange(0, 6)[k]);
                }
            }
            assert(rest[k - 6] == ',');
            assert(a <= k - 6 < a + body.len());
            assert(body[k - 6 - a] == ',');
        }
        if !header.contains('-') {
            let i = first_of(body, '-');
            if i < body.len() {
                assert(header[6 + a + i] == '-');
            }
        }
    }
}

/// A range whose first or last place is no number is ignored.
pub proof fn ranges_without_numbers_are_ignored(first: Seq<char>, last: Seq<char>, total: u64)
    requires
        forall|i: int|
            0 <= i < first.len() ==> #[trigger] first[i] != '-' && first[i] != ',' && !is_space(
                first[i],
            ),
        forall|i: int|
            0 <= i < last.len() ==> #[trigger] last[i] != ',' && !is_space(last[i]),
        (first.len() > 0 && parsed_unsigned(first, u64::MAX as nat) is None) || (last.len() > 0
            && parsed_unsigned(last, u64::MAX as nat) is None),
    ensures
        range_of("bytes="@ + first + "-"@ + last, total) is Ignore,
{
    reveal_strlit("bytes=");
    reveal_strlit("-");
    let header = "bytes="@ + first + "-"@ + last;
    let body = first + "-"@ + last;
    let at = first.len() as int;
    assert(header[0] == 'b');
    assert(!is_space(body[0])) by {
        if first.len() > 0 {
            assert(body[0] == first[0]);
        }
    }
    assert(!is_space(body.last())) by {
        if last.len() > 0 {
            assert(body.last() == last[last.len() - 1]);
        }
    }
    assert(header.last() == body.last());
    lemma_trimmed_whole(header);
    assert("bytes="@ =~= header.subrange(0, 6));
    assert(header.skip(6) =~= body);
    lemma_trimmed_whole(body);
    assert forall|j: int| 0 <= j < at implies #[trigger] body[j] != '-' by {
        assert(body[j] == first[j]);
    }
    lemma_first_is(body, '-', at);
    assert forall|j: int| 0 <= j < body.len() implies #[trigger] body[j] != ',' by {
        if j < at {
            assert(body[j] == first[j]);
        } else if j > at {
            assert(body[j] == last[j - at - 1]);
        }
    }
    lemma_first_is(body, ',', body.len() as int);
    assert(body.take(at) =~= first);
    assert(body.skip(at + 1) =~= last);
    lemma_trimmed_whole(first);
    lemma_trimmed_whole(last);
}

} // verus!
