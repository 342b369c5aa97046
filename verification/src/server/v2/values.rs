//! Pixel values as the bit patterns of single precision numbers: which are numbers at all, and
//! which is the greater. Sums and means of them are left to floating point.

use vstd::prelude::*;

verus! {

/// Whether a bit pattern is that of a finite number: its exponent is not all ones.
pub open spec fn is_finite_pattern(bits: u32) -> bool {
    (bits as int / 0x800000) % 256 != 255
}

/// Whether a bit pattern is that of no number: its exponent is all ones, its fraction is not zero.
pub open spec fn is_nan_pattern(bits: u32) -> bool {
    !is_finite_pattern(bits) && bits as int % 0x800000 != 0
}

/// Finite numbers compare as the ranks of their bit patterns do.
pub open spec fn rank(bits: u32) -> int {
    if bits >= 0x80000000 {
        -(bits - 0x80000000)
    } else {
        bits as int
    }
}

/// Whether a bit pattern is that of a finite number.
pub fn finite(bits: u32) -> (b: bool)
    ensures
        b == is_finite_pattern(bits),
{
    (bits / 0x800000) % 256 != 255
}

/// Whether a bit pattern is that of no number.
pub fn nan(bits: u32) -> (b: bool)
    ensures
        b == is_nan_pattern(bits),
{
    !finite(bits) && bits % 0x800000 != 0
}

fn rank_of(bits: u32) -> (r: i64)
    ensures
        r == rank(bits),
{
    if bits >= 0x80000000 {
        -((bits - 0x80000000) as i64)
    } else {
        bits as i64
    }
}

/// The finite values, in their order.
pub open spec fn finite_values(values: Seq<u32>) -> Seq<u32> {
    values.filter(|v: u32| is_finite_pattern(v))
}

/// The values that are no numbers.
pub open spec fn nan_values(values: Seq<u32>) -> Seq<u32> {
    values.filter(|v: u32| is_nan_pattern(v))
}

/// The finite values, in their order.
pub fn only_finite(values: &Vec<u32>) -> (r: Vec<u32>)
    ensures
        r@ == finite_values(values@),
{
    let mut r: Vec<u32> = Vec::new();
    let mut i: usize = 0;
    assert(finite_values(values@.take(0)) =~= Seq::<u32>::empty()) by {
        reveal(Seq::filter);
    }
    while i < values.len()
        invariant
            i <= values@.len(),
            r@ == finite_values(values@.take(i as int)),
        decreases values.len() - i,
    {
        proof {
            lemma_filter_step(values@, i as int, |v: u32| is_finite_pattern(v));
        }
        if finite(values[i]) {
            r.push(values[i]);
        }
        i = i + 1;
    }
    assert(values@.take(i as int) =~= values@);
    r
}

/// How many values are no numbers.
pub fn count_nan(values: &Vec<u32>) -> (n: usize)
    ensures
        n == nan_values(values@).len(),
        n <= values@.len(),
{
    let mut n: usize = 0;
    let mut i: usize = 0;
    assert(nan_values(values@.take(0)) =~= Seq::<u32>::empty()) by {
        reveal(Seq::filter);
    }
    while i < values.len()
        invariant
            n <= i <= values@.len(),
            n == nan_values(values@.take(i as int)).len(),
        decreases values.len() - i,
    {
        proof {
            lemma_filter_step(values@, i as int, |v: u32| is_nan_pattern(v));
        }
        if nan(values[i]) {
            n = n + 1;
        }
        i = i + 1;
    }
    assert(values@.take(i as int) =~= values@);
    n
}

proof fn lemma_filter_step(values: Seq<u32>, i: int, keep: spec_fn(u32) -> bool)
    requires
        0 <= i < values.len(),
    ensures
        values.take(i + 1).filter(keep) == if keep(values[i]) {
            values.take(i).filter(keep).push(values[i])
        } else {
            values.take(i).filter(keep)
        },
{
    reveal(Seq::filter);
    assert(values.take(i + 1).drop_last() =~= values.take(i));
}

/// The least and the greatest of some finite values.
#[derive(Debug, Clone, Copy, PartialEq, Eq)]
pub struct Extent {
    pub least: u32,
    pub greatest: u32,
}

/// The least and the greatest of some values; none where there are none.
pub fn extent(values: &Vec<u32>) -> (r: Option<Extent>)
    ensures
        match r {
            Some(e) => {
                &&& values@.contains(e.least)
                &&& values@.contains(e.greatest)
                &&& forall|i: int|
                    0 <= i < values@.len() ==> rank(e.least) <= rank(#[trigger] values@[i])
                        <= rank(e.greatest)
            },
            None => values@.len() == 0,
        },
{
    if values.len() == 0 {
        return None;
    }
    let mut least: u32 = values[0];
    let mut greatest: u32 = values[0];
    let mut i: usize = 1;
    while i < values.len()
        invariant
            1 <= i <= values@.len(),
            values@.contains(least),
            values@.contains(greatest),
            forall|j: int|
                0 <= j < i ==> rank(least) <= rank(#[trigger] values@[j]) <= rank(greatest),
        decreases values.len() - i,
    {
        let v: u32 = values[i];
        if rank_of(v) < rank_of(least) {
            least = v;
        }
        if rank_of(v) > rank_of(greatest) {
            greatest = v;
        }
        i = i + 1;
    }
    Some(Extent { least, greatest })
}

/// A value that is no number is neither finite nor infinite.
pub proof fn values_are_of_one_kind(bits: u32)
    ensures
        !(is_finite_pattern(bits) && is_nan_pattern(bits)),
        !is_finite_pattern(bits) && !is_nan_pattern(bits) <==> bits == 0x7f800000 || bits
            == 0xff800000,
{
}

} // verus!
