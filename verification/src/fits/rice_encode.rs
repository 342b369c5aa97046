//! The RICE_1 tile encoder, and the law that `rice_decode` undoes it.

use vstd::prelude::*;
use vstd::arithmetic::power2::pow2;
use crate::fits::bits::{
    head, low_bits, number, padding, rest, stream_bits, zero_bits, zero_run, BitWriter,
};
use crate::fits::rice::{
    centered, coding, decode_block, decode_blocks, decode_split, decode_verbatim, decoded,
    sign_extend, step, unzigzag, zigzag, RiceParams,
};

verus! {

/// The bit pattern of the stored integer `v`.
pub open spec fn pattern(v: i64, p: RiceParams) -> int {
    v as int % p.modulus()
}

/// The coded difference of pixel `i` from the one before it; the first pixel differs from itself
/// by nothing.
pub open spec fn coded_difference(pixels: Seq<i64>, i: int, p: RiceParams) -> int {
    let before = if i == 0 {
        pixels[0]
    } else {
        pixels[i - 1]
    };
    let d = (pattern(pixels[i], p) - pattern(before, p)) % p.modulus();
    zigzag(centered(d, p.modulus()))
}

/// The coded differences of all pixels.
pub open spec fn coded_differences(pixels: Seq<i64>, p: RiceParams) -> Seq<u32> {
    Seq::new(pixels.len(), |i: int| coded_difference(pixels, i, p) as u32)
}

/// Bits that the split coding with parameter `fs` takes for a block.
pub open spec fn split_cost(us: Seq<u32>, fs: nat) -> nat
    decreases us.len(),
{
    if us.len() == 0 {
        0
    } else {
        split_cost(us.drop_last(), fs) + (us.last() as nat / pow2(fs) + 1 + fs)
    }
}

/// The least of the cheapest split parameters below `limit`.
pub open spec fn cheapest_split(us: Seq<u32>, limit: nat) -> nat
    decreases limit,
{
    if limit <= 1 {
        0
    } else {
        let best = cheapest_split(us, (limit - 1) as nat);
        if split_cost(us, (limit - 1) as nat) < split_cost(us, best) {
            (limit - 1) as nat
        } else {
            best
        }
    }
}

/// A block's differences at full width.
pub open spec fn verbatim_bits(us: Seq<u32>, width: nat) -> Seq<bool>
    decreases us.len(),
{
    if us.len() == 0 {
        Seq::empty()
    } else {
        low_bits(us[0] as u64, width) + verbatim_bits(us.skip(1), width)
    }
}

/// One split difference: its quotient as zeros, a one, then its remainder.
pub open spec fn split_code(u: u32, fs: nat) -> Seq<bool> {
    zero_bits(u as nat / pow2(fs)) + seq![true] + low_bits(u as u64, fs)
}

/// A block's differences, split.
pub open spec fn split_bits(us: Seq<u32>, fs: nat) -> Seq<bool>
    decreases us.len(),
{
    if us.len() == 0 {
        Seq::empty()
    } else {
        split_code(us[0], fs) + split_bits(us.skip(1), fs)
    }
}

/// Whether the pixels of a block all equal the one before it.
pub open spec fn all_zero(us: Seq<u32>) -> bool {
    forall|i: int| 0 <= i < us.len() ==> us[i] == 0
}

/// One coded block: the cheapest of its codings, behind the field that tells which.
pub open spec fn block_bits(us: Seq<u32>, p: RiceParams) -> Seq<bool> {
    let fs = cheapest_split(us, p.split_limit());
    if all_zero(us) {
        low_bits(0, p.field_bits())
    } else if us.len() * p.width() < split_cost(us, fs) {
        low_bits((p.split_limit() + 1) as u64, p.field_bits()) + verbatim_bits(us, p.width())
    } else {
        low_bits((fs + 1) as u64, p.field_bits()) + split_bits(us, fs)
    }
}

/// All blocks, in order.
pub open spec fn blocks_bits(us: Seq<u32>, p: RiceParams) -> Seq<bool>
    decreases us.len(),
{
    if us.len() == 0 || p.blocksize == 0 {
        Seq::empty()
    } else {
        let count: int = if us.len() < p.blocksize {
            us.len() as int
        } else {
            p.blocksize as int
        };
        block_bits(us.take(count), p) + blocks_bits(us.skip(count), p)
    }
}

/// Whether `bytes` is the tile of `pixels`: the first pixel at full width, the coded blocks, and
/// zeros up to a whole byte.
pub open spec fn is_tile(bytes: Seq<u8>, pixels: Seq<i64>, p: RiceParams) -> bool {
    if pixels.len() == 0 {
        bytes.len() == 0
    } else {
        let blocks = blocks_bits(coded_differences(pixels, p), p);
        stream_bits(bytes) == low_bits(pattern(pixels[0], p) as u64, p.width()) + blocks
            + zero_bits(padding(blocks.len()))
    }
}

proof fn lemma_low_byte(v: i64)
    by (bit_vector)
    ensures
        v == (v >> 8) * 256 + (v & 0xff),
        0 <= (v & 0xff) < 256,
{
}

proof fn lemma_low_half(v: i64)
    by (bit_vector)
    ensures
        v == (v >> 16) * 65536 + (v & 0xffff),
        0 <= (v & 0xffff) < 65536,
{
}

proof fn lemma_low_word(v: i64)
    by (bit_vector)
    ensures
        v == (v >> 32) * 4294967296 + (v & 0xffff_ffff),
        0 <= (v & 0xffff_ffff) < 4294967296,
{
}

/// Truncates a stored integer to its bit pattern.
fn to_pattern(v: i64, params: &RiceParams) -> (x: u32)
    requires
        params.valid(),
    ensures
        x == pattern(v, *params),
        x < params.modulus(),
{
    proof {
        lemma_low_byte(v);
        lemma_low_half(v);
        lemma_low_word(v);
    }
    if params.bytepix == 1 {
        (v & 0xff) as u32
    } else if params.bytepix == 2 {
        (v & 0xffff) as u32
    } else {
        (v & 0xffff_ffff) as u32
    }
}

/// The coded difference between two bit patterns.
fn difference_code(from: u32, to: u32, params: &RiceParams) -> (u: u32)
    requires
        params.valid(),
        from < params.modulus(),
        to < params.modulus(),
    ensures
        u == zigzag(centered((to - from) % params.modulus(), params.modulus())),
        u < params.modulus(),
{
    let (field_bits, split_limit, width, m) = coding(params);
    let d: u64 = if to >= from {
        to as u64 - from as u64
    } else {
        (to as u64 + m) - from as u64
    };
    proof {
        vstd::arithmetic::power2::lemma2_to64();
        assert(d == (to - from) % params.modulus());
    }
    let c: i64 = sign_extend(d as u32, width);
    if c >= 0 {
        (2 * c) as u32
    } else {
        let e: i64 = -c;
        (2 * e - 1) as u32
    }
}

/// The cost of a block under one split parameter.
fn cost_of(us: &Vec<u32>, fs: u32) -> (cost: u128)
    requires
        fs < 32,
    ensures
        cost == split_cost(us@, fs as nat),
{
    let mut cost: u128 = 0;
    let mut i: usize = 0;
    while i < us.len()
        invariant
            i <= us@.len(),
            fs < 32,
            cost == split_cost(us@.take(i as int), fs as nat),
            cost <= i * 4294967328,
        decreases us.len() - i,
    {
        let u: u32 = us[i];
        proof {
            vstd::bits::lemma_u32_shr_is_div(u, fs);
            assert(us@.take(i + 1).drop_last() =~= us@.take(i as int));
        }
        cost = cost + ((u >> fs) as u128 + 1 + fs as u128);
        i = i + 1;
    }
    assert(us@.take(i as int) =~= us@);
    cost
}

/// The split parameter of a block, and its cost.
fn choose_split(us: &Vec<u32>, limit: u32) -> (best: (u32, u128))
    requires
        0 < limit < 32,
    ensures
        best.0 == cheapest_split(us@, limit as nat),
        best.0 < limit,
        best.1 == split_cost(us@, best.0 as nat),
{
    let mut best_fs: u32 = 0;
    let mut best_cost: u128 = cost_of(us, 0);
    let mut fs: u32 = 1;
    while fs < limit
        invariant
            1 <= fs <= limit < 32,
            best_fs < fs,
            best_fs == cheapest_split(us@, fs as nat),
            best_cost == split_cost(us@, best_fs as nat),
        decreases limit - fs,
    {
        let cost: u128 = cost_of(us, fs);
        if cost < best_cost {
            best_cost = cost;
            best_fs = fs;
        }
        fs = fs + 1;
    }
    (best_fs, best_cost)
}

/// Whether every difference of a block is zero.
fn is_all_zero(us: &Vec<u32>) -> (b: bool)
    ensures
        b == all_zero(us@),
{
    let mut i: usize = 0;
    while i < us.len()
        invariant
            i <= us@.len(),
            forall|j: int| 0 <= j < i ==> us@[j] == 0,
        decreases us.len() - i,
    {
        if us[i] != 0 {
            return false;
        }
        i = i + 1;
    }
    true
}

/// Appends one coded block.
fn write_block(writer: &mut BitWriter, us: &Vec<u32>, params: &RiceParams)
    requires
        old(writer).wf(),
        params.valid(),
    ensures
        final(writer).wf(),
        final(writer)@ == old(writer)@ + block_bits(us@, *params),
{
    let (field_bits, split_limit, width, m) = coding(params);
    if is_all_zero(us) {
        writer.push_bits(0, field_bits);
        return ;
    }
    let (best_fs, best_cost) = choose_split(us, split_limit);
    let ghost start = writer@;
    let mut i: usize = 0;
    proof {
        assert(us@.len() * params.width() <= us@.len() * 32) by (nonlinear_arith)
            requires
                params.width() <= 32,
                us@.len() >= 0,
        ;
        assert(us.len() <= usize::MAX);
        assert(us@.len() as u128 * width as u128 == us@.len() * params.width());
    }
    if (us.len() as u128) * (width as u128) < best_cost {
        writer.push_bits(split_limit + 1, field_bits);
        let ghost opened = writer@;
        let ghost body = verbatim_bits(us@, width as nat);
        assert(us@.skip(0) =~= us@);
        assert(opened + body == writer@ + verbatim_bits(us@.skip(0), width as nat));
        while i < us.len()
            invariant
                i <= us@.len(),
                width <= 32,
                writer.wf(),
                opened + body == writer@ + verbatim_bits(us@.skip(i as int), width as nat),
            decreases us.len() - i,
        {
            let ghost here = writer@;
            writer.push_bits(us[i], width);
            assert(us@.skip(i as int).skip(1) =~= us@.skip(i + 1));
            i = i + 1;
            assert(opened + body =~= writer@ + verbatim_bits(us@.skip(i as int), width as nat));
        }
        assert(writer@ =~= opened + body);
        assert(writer@ =~= start + block_bits(us@, *params));
    } else {
        writer.push_bits(best_fs + 1, field_bits);
        let ghost opened = writer@;
        let ghost body = split_bits(us@, best_fs as nat);
        assert(us@.skip(0) =~= us@);
        assert(opened + body == writer@ + split_bits(us@.skip(0), best_fs as nat));
        while i < us.len()
            invariant
                i <= us@.len(),
                best_fs < 32,
                writer.wf(),
                opened + body == writer@ + split_bits(us@.skip(i as int), best_fs as nat),
            decreases us.len() - i,
        {
            let ghost here = writer@;
            let u: u32 = us[i];
            proof {
                vstd::bits::lemma_u32_shr_is_div(u, best_fs);
                assert((1u64 >> 0u64) & 1 == 1) by (bit_vector);
                assert(low_bits(1, 1) =~= seq![true]);
            }
            writer.push_zero_bits((u >> best_fs) as u64);
            writer.push_bits(1, 1);
            writer.push_bits(u, best_fs);
            assert(writer@ =~= here + split_code(u, best_fs as nat));
            assert(us@.skip(i as int).skip(1) =~= us@.skip(i + 1));
            i = i + 1;
            assert(opened + body =~= writer@ + split_bits(us@.skip(i as int), best_fs as nat));
        }
        assert(writer@ =~= opened + body);
        assert(writer@ =~= start + block_bits(us@, *params));
    }
}

/// The coded differences of the pixels from `i` to `imax`, where `before` is the bit pattern of
/// the pixel before them.
fn differences(pixels: &[i64], i: usize, imax: usize, before: u32, params: &RiceParams) -> (us: Vec<
    u32,
>)
    requires
        params.valid(),
        i < imax <= pixels@.len(),
        before == pattern(pixels@[if i == 0 { 0 } else { i - 1 }], *params),
    ensures
        us@ == coded_differences(pixels@, *params).subrange(i as int, imax as int),
{
    let ghost us_all = coded_differences(pixels@, *params);
    let mut us: Vec<u32> = Vec::with_capacity(imax - i);
    let mut lastpix: u32 = before;
    let mut j: usize = i;
    while j < imax
        invariant
            i <= j <= imax <= pixels@.len(),
            params.valid(),
            us_all == coded_differences(pixels@, *params),
            lastpix == pattern(pixels@[if j == 0 { 0 } else { j - 1 }], *params),
            us@ == us_all.subrange(i as int, j as int),
        decreases imax - j,
    {
        let pu: u32 = to_pattern(pixels[j], params);
        let u: u32 = difference_code(lastpix, pu, params);
        us.push(u);
        lastpix = pu;
        j = j + 1;
        assert(us@ =~= us_all.subrange(i as int, j as int));
    }
    us
}

proof fn lemma_concat_associates(a: Seq<bool>, b: Seq<bool>, c: Seq<bool>)
    ensures
        a + (b + c) == (a + b) + c,
{
    assert(a + (b + c) =~= (a + b) + c);
}

proof fn lemma_blocks_step(us: Seq<u32>, i: int, imax: int, p: RiceParams)
    requires
        p.blocksize > 0,
        0 <= i < us.len(),
        imax == if us.len() - i < p.blocksize {
            us.len() as int
        } else {
            i + p.blocksize
        },
    ensures
        blocks_bits(us.skip(i), p) == block_bits(us.subrange(i, imax), p) + blocks_bits(
            us.skip(imax),
            p,
        ),
{
    let left = us.skip(i);
    assert(left.take(imax - i) =~= us.subrange(i, imax));
    assert(left.skip(imax - i) =~= us.skip(imax));
}

proof fn lemma_padding_ignores_whole_bytes(width: nat, len: nat)
    requires
        width == 8 || width == 16 || width == 32,
    ensures
        padding(width + len) == padding(len),
{
}

/// Encodes `pixels` (stored integers, as `rice_decode` returns them) into a RICE_1 tile.
pub fn rice_encode(pixels: &[i64], params: &RiceParams) -> (bytes: Vec<u8>)
    requires
        params.valid(),
    ensures
        is_tile(bytes@, pixels@, *params),
{
    let nx: usize = pixels.len();
    if nx == 0 {
        return Vec::new();
    }
    let (field_bits, split_limit, width, m) = coding(params);
    let ghost us_all = coded_differences(pixels@, *params);
    let ghost blocks = blocks_bits(us_all, *params);
    let mut writer = BitWriter::new();
    let mut lastpix: u32 = to_pattern(pixels[0], params);
    let ghost first = low_bits(lastpix as u64, width as nat);
    writer.push_bits(lastpix, width);
    let mut i: usize = 0;
    assert(us_all.skip(0) =~= us_all);
    assert(first + blocks =~= writer@ + blocks_bits(us_all.skip(0), *params));
    while i < nx
        invariant
            0 < nx == pixels@.len(),
            i <= nx,
            params.valid(),
            us_all == coded_differences(pixels@, *params),
            writer.wf(),
            lastpix == pattern(pixels@[if i == 0 { 0 } else { i - 1 }], *params),
            lastpix < params.modulus(),
            first + blocks == writer@ + blocks_bits(us_all.skip(i as int), *params),
        decreases nx - i,
    {
        let imax: usize = if nx - i < params.blocksize as usize {
            nx
        } else {
            i + params.blocksize as usize
        };
        let us = differences(pixels, i, imax, lastpix, params);
        lastpix = to_pattern(pixels[imax - 1], params);
        let ghost here = writer@;
        write_block(&mut writer, &us, params);
        proof {
            lemma_blocks_step(us_all, i as int, imax as int, *params);
            lemma_concat_associates(
                here,
                block_bits(us@, *params),
                blocks_bits(us_all.skip(imax as int), *params),
            );
        }
        i = imax;
    }
    proof {
        assert(us_all.skip(nx as int).len() == 0);
        assert(writer@ + Seq::<bool>::empty() =~= writer@);
    }
    let bytes = writer.finish();
    proof {
        lemma_padding_ignores_whole_bytes(width as nat, blocks.len());
        assert(stream_bits(bytes@) =~= first + blocks + zero_bits(padding(blocks.len())));
    }
    bytes
}

/// The low bits of a number spell its remainder by the power of two.
pub(crate) proof fn lemma_number_of_low_bits(v: u64, width: nat)
    requires
        width <= 64,
    ensures
        number(low_bits(v, width)) == v as nat % pow2(width),
    decreases width,
{
    vstd::arithmetic::power2::lemma2_to64();
    if width > 0 {
        let bits = low_bits(v, width);
        let half = v >> 1;
        assert(half == v / 2) by (bit_vector)
            requires
                half == v >> 1,
        ;
        assert(bits.drop_last() =~= low_bits(half, (width - 1) as nat)) by {
            assert forall|i: int| 0 <= i < width - 1 implies bits.drop_last()[i] == low_bits(
                half,
                (width - 1) as nat,
            )[i] by {
                let k = (width - 2 - i) as u64;
                let k1 = (width - 1 - i) as u64;
                assert((v >> k1) & 1 == ((v >> 1) >> k) & 1) by (bit_vector)
                    requires
                        k1 == k + 1,
                        k < 63,
                ;
            }
        }
        assert(bits.last() == (v % 2 == 1)) by {
            assert(((v >> 0u64) & 1 == 1) == (v % 2 == 1)) by (bit_vector);
        }
        lemma_number_of_low_bits(half, (width - 1) as nat);
        vstd::arithmetic::power2::lemma_pow2_unfold(width);
        vstd::arithmetic::power2::lemma_pow2_pos((width - 1) as nat);
        vstd::arithmetic::div_mod::lemma_mod_breakdown(
            v as int,
            2,
            pow2((width - 1) as nat) as int,
        );
    }
}

/// A field that opens a stream is read back.
proof fn lemma_read_field(v: u64, width: nat, tail: Seq<bool>)
    requires
        width <= 64,
        v < pow2(width),
    ensures
        number(head(low_bits(v, width) + tail, width)) == v,
        rest(low_bits(v, width) + tail, width) == tail,
{
    let bits = low_bits(v, width) + tail;
    assert(head(bits, width) =~= low_bits(v, width));
    assert(rest(bits, width) =~= tail);
    lemma_number_of_low_bits(v, width);
    vstd::arithmetic::div_mod::lemma_small_mod(v as nat, pow2(width));
}

/// A run of zeros that a one ends is counted, and read past.
proof fn lemma_read_run(n: nat, tail: Seq<bool>)
    ensures
        zero_run(zero_bits(n) + seq![true] + tail) == n,
        rest(zero_bits(n) + seq![true] + tail, n + 1) == tail,
    decreases n,
{
    let bits = zero_bits(n) + seq![true] + tail;
    assert(rest(bits, n + 1) =~= tail);
    if n > 0 {
        lemma_read_run((n - 1) as nat, tail);
        assert(bits.skip(1) =~= zero_bits((n - 1) as nat) + seq![true] + tail);
    }
}

/// Whether the coded differences `us` lead from `prev` through the bit patterns `xs`.
pub open spec fn leads(us: Seq<u32>, prev: int, xs: Seq<int>, m: int) -> bool {
    &&& us.len() == xs.len()
    &&& forall|i: int|
        0 <= i < us.len() ==> {
            &&& 0 <= #[trigger] xs[i] < m
            &&& us[i] as int == zigzag(
                centered((xs[i] - if i == 0 {
                    prev
                } else {
                    xs[i - 1]
                }) % m, m),
            )
        }
}

proof fn lemma_step_back(prev: int, x: int, m: int)
    requires
        0 <= prev < m,
        0 <= x < m,
        m == 256 || m == 65536 || m == 4294967296,
    ensures
        0 <= zigzag(centered((x - prev) % m, m)) < m,
        step(prev, zigzag(centered((x - prev) % m, m)), m) == x,
        zigzag(centered((x - prev) % m, m)) == 0 ==> x == prev,
{
    let d = centered((x - prev) % m, m);
    assert(unzigzag(zigzag(d)) == d);
}

proof fn lemma_leads_tail(us: Seq<u32>, prev: int, xs: Seq<int>, m: int)
    requires
        leads(us, prev, xs, m),
        us.len() > 0,
    ensures
        leads(us.skip(1), xs[0], xs.skip(1), m),
{
    assert forall|i: int| 0 <= i < us.len() - 1 implies {
        &&& 0 <= #[trigger] xs.skip(1)[i] < m
        &&& us.skip(1)[i] as int == zigzag(
            centered((xs.skip(1)[i] - if i == 0 {
                xs[0]
            } else {
                xs.skip(1)[i - 1]
            }) % m, m),
        )
    } by {
        assert(0 <= xs[i + 1] < m);
    }
}

proof fn lemma_verbatim_back(us: Seq<u32>, prev: int, xs: Seq<int>, p: RiceParams, tail: Seq<bool>)
    requires
        p.valid(),
        0 <= prev < p.modulus(),
        leads(us, prev, xs, p.modulus()),
    ensures
        decode_verbatim(verbatim_bits(us, p.width()) + tail, prev, us.len(), p) == (xs, tail),
    decreases us.len(),
{
    let bits = verbatim_bits(us, p.width()) + tail;
    if us.len() == 0 {
        assert(xs =~= Seq::<int>::empty());
        assert(bits =~= tail);
    } else {
        let more = verbatim_bits(us.skip(1), p.width()) + tail;
        assert(bits =~= low_bits(us[0] as u64, p.width()) + more);
        vstd::arithmetic::power2::lemma2_to64();
        assert(0 <= xs[0] < p.modulus());
        lemma_step_back(prev, xs[0], p.modulus());
        lemma_read_field(us[0] as u64, p.width(), more);
        lemma_leads_tail(us, prev, xs, p.modulus());
        lemma_verbatim_back(us.skip(1), xs[0], xs.skip(1), p, tail);
        assert(seq![xs[0]] + xs.skip(1) =~= xs);
    }
}

proof fn lemma_split_back(
    us: Seq<u32>,
    prev: int,
    xs: Seq<int>,
    fs: nat,
    p: RiceParams,
    tail: Seq<bool>,
)
    requires
        p.valid(),
        fs <= 32,
        0 <= prev < p.modulus(),
        leads(us, prev, xs, p.modulus()),
    ensures
        decode_split(split_bits(us, fs) + tail, prev, us.len(), fs, p) == (xs, tail),
    decreases us.len(),
{
    let bits = split_bits(us, fs) + tail;
    if us.len() == 0 {
        assert(xs =~= Seq::<int>::empty());
        assert(bits =~= tail);
    } else {
        let more = split_bits(us.skip(1), fs) + tail;
        let u = us[0];
        let quotient = u as nat / pow2(fs);
        let behind = low_bits(u as u64, fs) + more;
        assert(bits =~= zero_bits(quotient) + seq![true] + behind);
        lemma_read_run(quotient, behind);
        assert(head(behind, fs) =~= low_bits(u as u64, fs));
        assert(rest(behind, fs) =~= more);
        lemma_number_of_low_bits(u as u64, fs);
        vstd::arithmetic::power2::lemma_pow2_pos(fs);
        vstd::arithmetic::div_mod::lemma_fundamental_div_mod(u as int, pow2(fs) as int);
        vstd::arithmetic::mul::lemma_mul_is_commutative(quotient as int, pow2(fs) as int);
        assert(0 <= xs[0] < p.modulus());
        lemma_step_back(prev, xs[0], p.modulus());
        lemma_leads_tail(us, prev, xs, p.modulus());
        lemma_split_back(us.skip(1), xs[0], xs.skip(1), fs, p, tail);
        assert(seq![xs[0]] + xs.skip(1) =~= xs);
    }
}

/// The split parameter of a block is a least one, below the limit.
pub proof fn cheapest_split_is_cheapest(us: Seq<u32>, limit: nat)
    requires
        limit > 0,
    ensures
        cheapest_split(us, limit) < limit,
        forall|fs: nat|
            fs < limit ==> split_cost(us, cheapest_split(us, limit)) <= #[trigger] split_cost(
                us,
                fs,
            ),
        forall|fs: nat|
            fs < cheapest_split(us, limit) ==> split_cost(us, cheapest_split(us, limit))
                < #[trigger] split_cost(us, fs),
    decreases limit,
{
    if limit > 1 {
        cheapest_split_is_cheapest(us, (limit - 1) as nat);
    }
}

proof fn lemma_block_back(us: Seq<u32>, prev: int, xs: Seq<int>, p: RiceParams, tail: Seq<bool>)
    requires
        p.valid(),
        0 <= prev < p.modulus(),
        leads(us, prev, xs, p.modulus()),
    ensures
        decode_block(block_bits(us, p) + tail, prev, us.len(), p) == (xs, tail),
{
    vstd::arithmetic::power2::lemma2_to64();
    let fs = cheapest_split(us, p.split_limit());
    cheapest_split_is_cheapest(us, p.split_limit());
    let bits = block_bits(us, p) + tail;
    if all_zero(us) {
        lemma_read_field(0, p.field_bits(), tail);
        lemma_constant(us, prev, xs, p.modulus());
        assert(xs =~= Seq::new(us.len(), |i: int| prev));
    } else if us.len() * p.width() < split_cost(us, fs) {
        let body = verbatim_bits(us, p.width()) + tail;
        assert(bits =~= low_bits((p.split_limit() + 1) as u64, p.field_bits()) + body);
        lemma_read_field((p.split_limit() + 1) as u64, p.field_bits(), body);
        lemma_verbatim_back(us, prev, xs, p, tail);
    } else {
        let body = split_bits(us, fs) + tail;
        assert(bits =~= low_bits((fs + 1) as u64, p.field_bits()) + body);
        lemma_read_field((fs + 1) as u64, p.field_bits(), body);
        lemma_split_back(us, prev, xs, fs, p, tail);
    }
}

proof fn lemma_constant(us: Seq<u32>, prev: int, xs: Seq<int>, m: int)
    requires
        0 <= prev < m,
        m == 256 || m == 65536 || m == 4294967296,
        leads(us, prev, xs, m),
        all_zero(us),
    ensures
        forall|i: int| 0 <= i < xs.len() ==> xs[i] == prev,
    decreases us.len(),
{
    if us.len() > 0 {
        assert(0 <= xs[0] < m);
        lemma_step_back(prev, xs[0], m);
        lemma_leads_tail(us, prev, xs, m);
        lemma_constant(us.skip(1), xs[0], xs.skip(1), m);
        assert forall|i: int| 0 <= i < xs.len() implies xs[i] == prev by {
            if i > 0 {
                assert(xs.skip(1)[i - 1] == xs[i]);
            }
        }
    }
}

proof fn lemma_leads_split(us: Seq<u32>, prev: int, xs: Seq<int>, m: int, n: int)
    requires
        leads(us, prev, xs, m),
        0 < n <= us.len(),
    ensures
        leads(us.take(n), prev, xs.take(n), m),
        leads(us.skip(n), xs[n - 1], xs.skip(n), m),
{
    assert forall|i: int| 0 <= i < n implies {
        &&& 0 <= #[trigger] xs.take(n)[i] < m
        &&& us.take(n)[i] as int == zigzag(
            centered((xs.take(n)[i] - if i == 0 {
                prev
            } else {
                xs.take(n)[i - 1]
            }) % m, m),
        )
    } by {
        assert(0 <= xs[i] < m);
    }
    assert forall|i: int| 0 <= i < us.len() - n implies {
        &&& 0 <= #[trigger] xs.skip(n)[i] < m
        &&& us.skip(n)[i] as int == zigzag(
            centered((xs.skip(n)[i] - if i == 0 {
                xs[n - 1]
            } else {
                xs.skip(n)[i - 1]
            }) % m, m),
        )
    } by {
        assert(0 <= xs[i + n] < m);
    }
}

proof fn lemma_blocks_back(us: Seq<u32>, prev: int, xs: Seq<int>, p: RiceParams, tail: Seq<bool>)
    requires
        p.valid(),
        0 <= prev < p.modulus(),
        leads(us, prev, xs, p.modulus()),
    ensures
        decode_blocks(blocks_bits(us, p) + tail, prev, us.len(), p) == xs,
    decreases us.len(),
{
    if us.len() == 0 {
        assert(xs =~= Seq::<int>::empty());
    } else {
        let n: int = if us.len() < p.blocksize {
            us.len() as int
        } else {
            p.blocksize as int
        };
        let more = blocks_bits(us.skip(n), p) + tail;
        let bits = blocks_bits(us, p) + tail;
        assert(bits =~= block_bits(us.take(n), p) + more);
        lemma_leads_split(us, prev, xs, p.modulus(), n);
        assert(0 <= xs[n - 1] < p.modulus());
        lemma_block_back(us.take(n), prev, xs.take(n), p, more);
        lemma_blocks_back(us.skip(n), xs[n - 1], xs.skip(n), p, tail);
        assert(xs.take(n) + xs.skip(n) =~= xs);
    }
}

proof fn lemma_stored_pattern(v: i64, p: RiceParams)
    requires
        p.valid(),
        p.representable(v as int),
    ensures
        p.stored(pattern(v, p)) == v,
{
    let m = p.modulus();
    if v >= 0 {
        vstd::arithmetic::div_mod::lemma_small_mod(v as nat, m as nat);
    } else {
        vstd::arithmetic::div_mod::lemma_mod_add_multiples_vanish(v as int, m);
        vstd::arithmetic::div_mod::lemma_small_mod((m + v) as nat, m as nat);
    }
}

/// Whatever `rice_encode` emits for pixels that fit the pixel width, `rice_decode` turns back
/// into the same pixels.
pub proof fn rice_round_trip(bytes: Seq<u8>, pixels: Seq<i64>, p: RiceParams)
    requires
        p.valid(),
        forall|i: int| 0 <= i < pixels.len() ==> p.representable(#[trigger] pixels[i] as int),
        is_tile(bytes, pixels, p),
    ensures
        decoded(bytes, pixels.len(), p) == pixels.map_values(|v: i64| v as int),
{
    let m = p.modulus();
    let xs = pixels.map_values(|v: i64| pattern(v, p));
    assert forall|i: int| 0 <= i < pixels.len() implies p.stored(#[trigger] xs[i]) == pixels[i] by {
        lemma_stored_pattern(pixels[i], p);
    }
    if pixels.len() == 0 {
        assert(decoded(bytes, 0, p) =~= pixels.map_values(|v: i64| v as int));
    } else {
        let us = coded_differences(pixels, p);
        let first = pattern(pixels[0], p);
        assert(leads(us, first, xs, m)) by {
            assert forall|i: int| 0 <= i < us.len() implies {
                &&& 0 <= #[trigger] xs[i] < m
                &&& us[i] as int == zigzag(
                    centered((xs[i] - if i == 0 {
                        first
                    } else {
                        xs[i - 1]
                    }) % m, m),
                )
            } by {
                let before = if i == 0 {
                    first
                } else {
                    xs[i - 1]
                };
                lemma_step_back(before, xs[i], m);
            }
        }
        let tail = zero_bits(padding(blocks_bits(us, p).len()));
        let coded = blocks_bits(us, p) + tail;
        vstd::arithmetic::power2::lemma2_to64();
        assert(stream_bits(bytes) =~= low_bits(first as u64, p.width()) + coded);
        lemma_read_field(first as u64, p.width(), coded);
        lemma_blocks_back(us, first, xs, p, tail);
        assert(decoded(bytes, pixels.len(), p) =~= pixels.map_values(|v: i64| v as int));
    }
}

/// However far apart two pixels are, their coded difference fits the pixel width.
pub proof fn coded_difference_fits(pixels: Seq<i64>, i: int, p: RiceParams)
    requires
        p.valid(),
        0 <= i < pixels.len(),
    ensures
        0 <= coded_difference(pixels, i, p) < p.modulus(),
{
    let before = if i == 0 {
        pixels[0]
    } else {
        pixels[i - 1]
    };
    lemma_step_back(pattern(before, p), pattern(pixels[i], p), p.modulus());
}

/// The choice of the split parameter does not matter to the decoder: a block under any of them
/// decodes to the same pixels.
pub proof fn any_split_decodes(
    us: Seq<u32>,
    prev: int,
    xs: Seq<int>,
    fs: nat,
    p: RiceParams,
    tail: Seq<bool>,
)
    requires
        p.valid(),
        fs < p.split_limit(),
        0 <= prev < p.modulus(),
        leads(us, prev, xs, p.modulus()),
    ensures
        decode_block(
            low_bits((fs + 1) as u64, p.field_bits()) + split_bits(us, fs) + tail,
            prev,
            us.len(),
            p,
        ) == (xs, tail),
{
    vstd::arithmetic::power2::lemma2_to64();
    let body = split_bits(us, fs) + tail;
    assert(low_bits((fs + 1) as u64, p.field_bits()) + split_bits(us, fs) + tail =~= low_bits(
        (fs + 1) as u64,
        p.field_bits(),
    ) + body);
    lemma_read_field((fs + 1) as u64, p.field_bits(), body);
    lemma_split_back(us, prev, xs, fs, p, tail);
}

pub(crate) proof fn lemma_cost_from_front(us: Seq<u32>, fs: nat)
    requires
        us.len() > 0,
    ensures
        split_cost(us, fs) == us[0] as nat / pow2(fs) + 1 + fs + split_cost(us.skip(1), fs),
    decreases us.len(),
{
    if us.len() == 1 {
        assert(us.drop_last() =~= Seq::<u32>::empty());
        assert(us.skip(1) =~= Seq::<u32>::empty());
    } else {
        lemma_cost_from_front(us.drop_last(), fs);
        assert(us.drop_last().skip(1) =~= us.skip(1).drop_last());
    }
}

pub(crate) proof fn lemma_split_len(us: Seq<u32>, fs: nat)
    ensures
        split_bits(us, fs).len() == split_cost(us, fs),
    decreases us.len(),
{
    if us.len() > 0 {
        lemma_cost_from_front(us, fs);
        lemma_split_len(us.skip(1), fs);
        vstd::arithmetic::power2::lemma_pow2_pos(fs);
        assert(split_code(us[0], fs).len() == us[0] as nat / pow2(fs) + 1 + fs);
    }
}

proof fn lemma_verbatim_len(us: Seq<u32>, width: nat)
    ensures
        verbatim_bits(us, width).len() == us.len() * width,
    decreases us.len(),
{
    if us.len() > 0 {
        lemma_verbatim_len(us.skip(1), width);
        vstd::arithmetic::mul::lemma_mul_is_distributive_add_other_way(
            width as int,
            (us.len() - 1) as int,
            1,
        );
    }
}

/// A block never takes more than its field and its pixels at full width, nor more than under any
/// split parameter.
pub proof fn block_is_no_longer_than_any_coding(us: Seq<u32>, p: RiceParams, fs: nat)
    requires
        p.valid(),
        us.len() > 0,
        fs < p.split_limit(),
    ensures
        block_bits(us, p).len() <= p.field_bits() + us.len() * p.width(),
        block_bits(us, p).len() <= p.field_bits() + split_bits(us, fs).len(),
{
    let best = cheapest_split(us, p.split_limit());
    cheapest_split_is_cheapest(us, p.split_limit());
    lemma_split_len(us, best);
    lemma_split_len(us, fs);
    lemma_verbatim_len(us, p.width());
    assert(us.len() * p.width() >= 0);
}

} // verus!
