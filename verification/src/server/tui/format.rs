//! How the dashboard writes ages, sizes and ids.

use vstd::prelude::*;
use vstd::string::*;
use vstd::utf8::{decode_utf8, is_char_boundary};
use crate::text::{decimal, format_unsigned};

verus! {

/// An age in its largest whole unit.
pub open spec fn age_text(secs: u64) -> Seq<char> {
    if secs < 60 {
        decimal(secs as nat) + "s"@
    } else if secs < 3600 {
        decimal((secs / 60) as nat) + "m"@
    } else if secs < 86_400 {
        decimal((secs / 3600) as nat) + "h"@
    } else {
        decimal((secs / 86_400) as nat) + "d"@
    }
}

/// A number with a unit behind it.
fn with_unit(n: u64, unit: &str) -> (s: String)
    ensures
        s@ == decimal(n as nat) + unit@,
{
    let mut s = format_unsigned(n);
    s.append(unit);
    s
}

/// Writes an age.
pub fn fmt_age(secs: u64) -> (s: String)
    ensures
        s@ == age_text(secs),
{
    if secs < 60 {
        with_unit(secs, "s")
    } else if secs < 3600 {
        with_unit(secs / 60, "m")
    } else if secs < 86_400 {
        with_unit(secs / 3600, "h")
    } else {
        with_unit(secs / 86_400, "d")
    }
}

/// `n / d` to the nearest whole number; from the middle, to the even one.
pub open spec fn nearest(n: nat, d: nat) -> nat {
    let q = n / d;
    let r = n % d;
    if 2 * r < d || (2 * r == d && q % 2 == 0) {
        q
    } else {
        q + 1
    }
}

/// The step between neighbouring binary numbers of 53 digits near `n`.
pub open spec fn step_at(n: nat) -> nat
    decreases n,
{
    if n < 9007199254740992 {
        1
    } else {
        2 * step_at(n / 2)
    }
}

/// `n` to 53 binary digits.
pub open spec fn to_53_digits(n: nat) -> nat {
    nearest(n, step_at(n)) * step_at(n)
}

/// A size in its largest whole unit; from a gibibyte on, with one decimal.
pub open spec fn bytes_text(bytes: u64) -> Seq<char> {
    if bytes < 1024 {
        decimal(bytes as nat) + "B"@
    } else if bytes < 1_048_576 {
        decimal((bytes / 1024) as nat) + "KiB"@
    } else if bytes < 1_073_741_824 {
        decimal((bytes / 1_048_576) as nat) + "MiB"@
    } else {
        let tenths = nearest(to_53_digits(bytes as nat) * 10, 1_073_741_824);
        decimal(tenths / 10) + "."@ + decimal(tenths % 10) + "GiB"@
    }
}

fn to_nearest(n: u128, d: u128) -> (q: u128)
    requires
        0 < d <= 1_073_741_824,
        n <= 0xff_ffff_ffff_ffff_ffff_ffff,
    ensures
        q == nearest(n as nat, d as nat),
{
    let q: u128 = n / d;
    let r: u128 = n % d;
    proof {
        assert(n as nat / d as nat == q && n as nat % d as nat == r);
        vstd::arithmetic::div_mod::lemma_div_is_ordered_by_denominator(n as int, 1, d as int);
    }
    if 2 * r < d || (2 * r == d && q % 2 == 0) {
        q
    } else {
        q + 1
    }
}

fn step_of(n: u64) -> (step: u64)
    ensures
        step == step_at(n as nat),
        0 < step <= 2048,
{
    let mut left: u64 = n;
    let mut step: u64 = 1;
    while left >= 9007199254740992
        invariant
            step_at(n as nat) == step * step_at(left as nat),
            0 < step,
            step * left <= n,
        decreases left,
    {
        proof {
            assert(step <= 2048) by (nonlinear_arith)
                requires
                    step * left <= n,
                    left >= 9007199254740992,
                    n <= 18446744073709551615,
                    step > 0,
            ;
            assert((2 * step) * (left / 2) <= step * left) by (nonlinear_arith)
                requires
                    step > 0,
                    left >= 0,
            ;
            assert(step * (2 * step_at((left / 2) as nat)) == (2 * step) * step_at(
                (left / 2) as nat,
            )) by (nonlinear_arith);
        }
        step = 2 * step;
        left = left / 2;
    }
    proof {
        lemma_step_bound(n as nat);
        assert(step * step_at(left as nat) == step) by (nonlinear_arith)
            requires
                step_at(left as nat) == 1,
        ;
    }
    step
}

proof fn lemma_step_bound(n: nat)
    requires
        n <= 18446744073709551615,
    ensures
        step_at(n) <= 2048,
{
    reveal_with_fuel(step_at, 13);
}

/// Writes a size.
pub fn fmt_bytes(bytes: u64) -> (s: String)
    ensures
        s@ == bytes_text(bytes),
{
    if bytes < 1024 {
        with_unit(bytes, "B")
    } else if bytes < 1_048_576 {
        with_unit(bytes / 1024, "KiB")
    } else if bytes < 1_073_741_824 {
        with_unit(bytes / 1_048_576, "MiB")
    } else {
        let step: u64 = step_of(bytes);
        let steps: u128 = to_nearest(bytes as u128, step as u128);
        proof {
            vstd::arithmetic::div_mod::lemma_div_is_ordered_by_denominator(
                bytes as int,
                1,
                step as int,
            );
            assert(steps * step <= 18446744073709551616 * 2048) by (nonlinear_arith)
                requires
                    0 <= steps <= 18446744073709551616,
                    0 <= step <= 2048,
            ;
        }
        let rounded: u128 = steps * (step as u128);
        let tenths: u128 = to_nearest(rounded * 10, 1_073_741_824);
        proof {
            assert(tenths <= 18446744073709551615);
        }
        let mut s = format_unsigned((tenths / 10) as u64);
        s.append(".");
        let digit = format_unsigned((tenths % 10) as u64);
        s.append(digit.as_str());
        s.append("GiB");
        s
    }
}

/// Whether an id of more than eight bytes can be cut behind the eighth.
pub open spec fn cuts_cleanly(sid: Seq<char>) -> bool {
    vstd::utf8::encode_utf8(sid).len() > 8 ==> is_char_boundary(
        vstd::utf8::encode_utf8(sid),
        8,
    )
}

/// An id as the dashboard shows it: its first eight bytes, with an ellipsis where there are more.
pub open spec fn short_text(sid: Seq<char>) -> Seq<char> {
    let bytes = vstd::utf8::encode_utf8(sid);
    if bytes.len() > 8 {
        decode_utf8(bytes.subrange(0, 8)).push('…')
    } else {
        sid
    }
}

/// Shortens an id.
pub fn short_id(sid: &str) -> (s: String)
    requires
        cuts_cleanly(sid@),
    ensures
        s@ == short_text(sid@),
{
    if sid.as_bytes().len() > 8 {
        let (start, _) = sid.split_at(8);
        proof {
            vstd::utf8::encode_utf8_decode_utf8(start@);
        }
        let mut s = start.to_owned();
        s.push('…');
        s
    } else {
        sid.to_owned()
    }
}

/// Whether `short_id` can shorten an id.
pub fn can_shorten(sid: &str) -> (b: bool)
    ensures
        b == cuts_cleanly(sid@),
{
    sid.as_bytes().len() <= 8 || sid.is_char_boundary(8)
}

} // verus!
