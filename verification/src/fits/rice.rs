//! RICE_1 tiles: the parameters, the meaning of a coded bit stream, and the decoder.

use vstd::prelude::*;
use vstd::arithmetic::power2::pow2;
use crate::fits::bits::{head, number, rest, stream_bits, zero_run, BitReader};

verus! {

/// How a tile is coded: pixels per block, bytes per pixel, and whether the stored integers are
/// sign-extended.
#[derive(Clone, Copy, Debug, PartialEq, Eq)]
pub struct RiceParams {
    pub blocksize: u32,
    pub bytepix: u32,
    pub signed: bool,
}

impl RiceParams {
    /// Blocks are not empty, and a pixel has one, two or four bytes.
    pub open spec fn valid(&self) -> bool {
        &&& self.blocksize > 0
        &&& (self.bytepix == 1 || self.bytepix == 2 || self.bytepix == 4)
    }

    /// Bits per pixel.
    pub open spec fn width(&self) -> nat {
        if self.bytepix == 1 {
            8
        } else if self.bytepix == 2 {
            16
        } else {
            32
        }
    }

    /// The number of values that a pixel can take.
    pub open spec fn modulus(&self) -> int {
        if self.bytepix == 1 {
            256
        } else if self.bytepix == 2 {
            65536
        } else {
            4294967296
        }
    }

    /// Bits of the field that opens a block.
    pub open spec fn field_bits(&self) -> nat {
        if self.bytepix == 1 {
            3
        } else if self.bytepix == 2 {
            4
        } else {
            5
        }
    }

    /// The split parameter above those of a split block; its field marks a verbatim block.
    pub open spec fn split_limit(&self) -> nat {
        if self.bytepix == 1 {
            6
        } else if self.bytepix == 2 {
            14
        } else {
            25
        }
    }

    /// Whether the stored integer `v` fits the pixel width.
    pub open spec fn representable(&self, v: int) -> bool {
        if self.signed {
            -self.modulus() <= 2 * v < self.modulus()
        } else {
            0 <= v < self.modulus()
        }
    }

    /// The stored integer of the bit pattern `x`.
    pub open spec fn stored(&self, x: int) -> int {
        if self.signed {
            centered(x, self.modulus())
        } else {
            x
        }
    }
}

/// The representative of `x` modulo `m` that lies nearest to zero.
pub open spec fn centered(x: int, m: int) -> int {
    if 2 * x < m {
        x
    } else {
        x - m
    }
}

/// Non-negative differences go to even numbers, negative ones to odd numbers.
pub open spec fn zigzag(d: int) -> int {
    if d >= 0 {
        2 * d
    } else {
        -2 * d - 1
    }
}

/// The difference that `zigzag` sends to `u`.
pub open spec fn unzigzag(u: int) -> int {
    if u % 2 == 0 {
        u / 2
    } else {
        -(u / 2) - 1
    }
}

/// The bit pattern that follows `prev` when the coded difference is `u`.
pub open spec fn step(prev: int, u: int, m: int) -> int {
    (prev + unzigzag(u)) % m
}

/// Decodes `n` pixels that are coded as differences of full width.
pub open spec fn decode_verbatim(bits: Seq<bool>, prev: int, n: nat, p: RiceParams) -> (
    Seq<int>,
    Seq<bool>,
)
    decreases n,
{
    if n == 0 {
        (Seq::empty(), bits)
    } else {
        let x = step(prev, number(head(bits, p.width())) as int, p.modulus());
        let (xs, left) = decode_verbatim(rest(bits, p.width()), x, (n - 1) as nat, p);
        (seq![x] + xs, left)
    }
}

/// Decodes `n` pixels whose coded differences are split: the quotient by `2^fs` as a run of
/// zeros ended by a one, then the `fs` bits of the remainder.
pub open spec fn decode_split(bits: Seq<bool>, prev: int, n: nat, fs: nat, p: RiceParams) -> (
    Seq<int>,
    Seq<bool>,
)
    decreases n,
{
    if n == 0 {
        (Seq::empty(), bits)
    } else {
        let quotient = zero_run(bits);
        let behind = rest(bits, quotient + 1);
        let u = quotient * pow2(fs) + number(head(behind, fs));
        let x = step(prev, u as int, p.modulus());
        let (xs, left) = decode_split(rest(behind, fs), x, (n - 1) as nat, fs, p);
        (seq![x] + xs, left)
    }
}

/// Decodes one block of `n` pixels: its field, then its pixels.
pub open spec fn decode_block(bits: Seq<bool>, prev: int, n: nat, p: RiceParams) -> (
    Seq<int>,
    Seq<bool>,
) {
    let field = number(head(bits, p.field_bits()));
    let body = rest(bits, p.field_bits());
    if field == 0 {
        (Seq::new(n, |i: int| prev), body)
    } else if field == p.split_limit() + 1 {
        decode_verbatim(body, prev, n, p)
    } else {
        decode_split(body, prev, n, (field - 1) as nat, p)
    }
}

/// Decodes `n` pixels, block by block.
pub open spec fn decode_blocks(bits: Seq<bool>, prev: int, n: nat, p: RiceParams) -> Seq<int>
    decreases n,
{
    if n == 0 || p.blocksize == 0 {
        Seq::empty()
    } else {
        let count = if n < p.blocksize {
            n
        } else {
            p.blocksize as nat
        };
        let (xs, left) = decode_block(bits, prev, count, p);
        xs + decode_blocks(left, xs.last(), (n - count) as nat, p)
    }
}

/// The `n` pixels of a tile.
pub open spec fn decoded(bytes: Seq<u8>, n: nat, p: RiceParams) -> Seq<int> {
    let bits = stream_bits(bytes);
    let first = number(head(bits, p.width())) as int;
    decode_blocks(rest(bits, p.width()), first, n, p).map_values(|x: int| p.stored(x))
}

/// The split parameter and its bit widths for a pixel size.
pub(crate) fn coding(p: &RiceParams) -> (c: (u32, u32, u32, u64))
    requires
        p.valid(),
    ensures
        c.0 == p.field_bits(),
        c.1 == p.split_limit(),
        c.2 == p.width(),
        c.3 == p.modulus(),
{
    if p.bytepix == 1 {
        (3, 6, 8, 256)
    } else if p.bytepix == 2 {
        (4, 14, 16, 65536)
    } else {
        (5, 25, 32, 4294967296)
    }
}

/// The bit pattern after `prev` for the coded difference `u`.
fn advance(prev: u64, u: u128, m: u64) -> (x: u64)
    requires
        prev < m,
        m <= 4294967296,
    ensures
        x == step(prev as int, u as int, m as int),
        x < m,
{
    let k: u64 = ((u / 2) % (m as u128)) as u64;
    proof {
        let kk = (u / 2) as int;
        lemma_mod_of_sum(prev as int, kk, m as int);
        lemma_mod_of_difference(prev as int, kk, m as int);
    }
    if u % 2 == 0 {
        (prev + k) % m
    } else {
        (prev + (m - 1 - k)) % m
    }
}

proof fn lemma_mod_of_sum(a: int, k: int, m: int)
    requires
        m > 0,
    ensures
        (a + k % m) % m == (a + k) % m,
{
    vstd::arithmetic::div_mod::lemma_add_mod_noop_right(a, k, m);
}

proof fn lemma_mod_of_difference(a: int, k: int, m: int)
    requires
        m > 0,
    ensures
        (a + (m - 1 - k % m)) % m == (a - k - 1) % m,
{
    vstd::arithmetic::div_mod::lemma_sub_mod_noop_right(a - 1, k, m);
    vstd::arithmetic::div_mod::lemma_mod_add_multiples_vanish(a - 1 - k % m, m);
}

/// The value of the low `width` bits of `v` as a two's complement number.
pub fn sign_extend(v: u32, width: u32) -> (d: i64)
    requires
        width == 8 || width == 16 || width == 32,
        v < pow2(width as nat),
    ensures
        d == centered(v as int, pow2(width as nat) as int),
{
    proof {
        vstd::arithmetic::power2::lemma2_to64();
    }
    let m: i64 = if width == 8 {
        256
    } else if width == 16 {
        65536
    } else {
        4294967296
    };
    if 2 * (v as i64) < m {
        v as i64
    } else {
        v as i64 - m
    }
}

/// Decodes the `nx` pixels of a RICE_1 tile. Where the stream ends early, the missing bits count
/// as zeros.
pub fn rice_decode(bytes: &[u8], nx: usize, params: &RiceParams) -> (pixels: Vec<i64>)
    requires
        params.valid(),
    ensures
        pixels@.map_values(|v: i64| v as int) == decoded(bytes@, nx as nat, *params),
{
    let (field_bits, split_limit, width, m) = coding(params);
    let ghost p = *params;
    let mut reader = BitReader::new(bytes);
    proof {
        vstd::arithmetic::power2::lemma2_to64();
    }
    let mut prev: u64 = reader.read_bits(width) as u64;
    let mut patterns: Vec<u64> = Vec::new();
    let ghost first = prev as int;
    let ghost coded = reader@;
    while patterns.len() < nx
        invariant
            patterns@.len() <= nx,
            p == *params,
            p.valid(),
            field_bits == p.field_bits(),
            split_limit == p.split_limit(),
            width == p.width(),
            m == p.modulus(),
            prev < m,
            reader.wf(),
            forall|i: int| 0 <= i < patterns@.len() ==> patterns@[i] < m,
            decode_blocks(coded, first, nx as nat, p) == patterns@.map_values(|x: u64| x as int)
                + decode_blocks(reader@, prev as int, (nx - patterns@.len()) as nat, p),
        decreases nx - patterns.len(),
    {
        let left: usize = nx - patterns.len();
        let count: usize = if left < params.blocksize as usize {
            left
        } else {
            params.blocksize as usize
        };
        let ghost before = patterns@;
        let ghost block = decode_block(reader@, prev as int, count as nat, p);
        decode_block_into(&mut reader, &mut patterns, &mut prev, count, params);
        assert(decode_blocks(coded, first, nx as nat, p) =~= patterns@.map_values(|x: u64| x as int)
            + decode_blocks(reader@, prev as int, (nx - patterns@.len()) as nat, p));
    }
    let mut pixels: Vec<i64> = Vec::with_capacity(nx);
    let ghost all = decode_blocks(coded, first, nx as nat, p);
    assert(all =~= patterns@.map_values(|x: u64| x as int));
    let mut i: usize = 0;
    while i < nx
        invariant
            i <= nx,
            p == *params,
            p.valid(),
            width == p.width(),
            m == p.modulus(),
            patterns@.len() == nx,
            forall|j: int| 0 <= j < patterns@.len() ==> patterns@[j] < m,
            pixels@.len() == i,
            forall|j: int| 0 <= j < i ==> pixels@[j] == p.stored(patterns@[j] as int),
        decreases nx - i,
    {
        proof {
            vstd::arithmetic::power2::lemma2_to64();
        }
        let x: u64 = patterns[i];
        let v: i64 = if params.signed {
            sign_extend(x as u32, width)
        } else {
            x as i64
        };
        pixels.push(v);
        i = i + 1;
    }
    assert(pixels@.map_values(|v: i64| v as int) =~= decoded(bytes@, nx as nat, p));
    pixels
}

/// Decodes one block of `count` pixels behind those already there.
fn decode_block_into(
    reader: &mut BitReader<'_>,
    patterns: &mut Vec<u64>,
    prev: &mut u64,
    count: usize,
    params: &RiceParams,
)
    requires
        old(reader).wf(),
        params.valid(),
        *old(prev) < params.modulus(),
        count > 0,
        forall|i: int|
            0 <= i < old(patterns)@.len() ==> old(patterns)@[i] < params.modulus(),
    ensures
        final(reader).wf(),
        ({
            let block = decode_block(old(reader)@, *old(prev) as int, count as nat, *params);
            &&& final(patterns)@.map_values(|x: u64| x as int) == old(patterns)@.map_values(
                |x: u64| x as int,
            ) + block.0
            &&& block.0.len() == count
            &&& final(reader)@ == block.1
            &&& *final(prev) as int == block.0.last()
        }),
        *final(prev) < params.modulus(),
        final(patterns)@.len() == old(patterns)@.len() + count,
        forall|i: int|
            0 <= i < final(patterns)@.len() ==> final(patterns)@[i] < params.modulus(),
{
    let (field_bits, split_limit, width, m) = coding(params);
    let ghost p = *params;
    let ghost start = *prev as int;
    proof {
        vstd::arithmetic::power2::lemma2_to64();
    }
    let field: u32 = reader.read_bits(field_bits);
    let ghost body = reader@;
    let ghost before = patterns@;
    let ghost whole = decode_block(old(reader)@, start, count as nat, p);
    let mut done: usize = 0;
    if field == 0 {
        while done < count
            invariant
                done <= count,
                m == p.modulus(),
                *prev < m,
                *prev == start,
                patterns@.len() == before.len() + done,
                forall|i: int| 0 <= i < patterns@.len() ==> patterns@[i] < m,
                forall|i: int| 0 <= i < before.len() ==> patterns@[i] == before[i],
                forall|i: int| before.len() <= i < patterns@.len() ==> patterns@[i] == start,
            decreases count - done,
        {
            patterns.push(*prev);
            done = done + 1;
        }
        assert(patterns@.map_values(|x: u64| x as int) =~= before.map_values(|x: u64| x as int)
            + whole.0);
    } else if field == split_limit + 1 {
        assert(whole == decode_verbatim(body, start, count as nat, p));
        assert(before.map_values(|x: u64| x as int) =~= patterns@.map_values(|x: u64| x as int));
        while done < count
            invariant
                done <= count,
                m == p.modulus(),
                p.valid(),
                width == p.width(),
                *prev < m,
                reader.wf(),
                patterns@.len() == before.len() + done,
                done > 0 ==> *prev == patterns@.last(),
                forall|i: int| 0 <= i < patterns@.len() ==> patterns@[i] < m,
                ({
                    let tail = decode_verbatim(reader@, *prev as int, (count - done) as nat, p);
                    &&& before.map_values(|x: u64| x as int) + whole.0 == patterns@.map_values(
                        |x: u64| x as int,
                    ) + tail.0
                    &&& whole.1 == tail.1
                }),
            decreases count - done,
        {
            let ghost held = patterns@.map_values(|x: u64| x as int);
            let ghost tail = decode_verbatim(reader@, *prev as int, (count - done) as nat, p);
            let u: u32 = reader.read_bits(width);
            *prev = advance(*prev, u as u128, m);
            patterns.push(*prev);
            done = done + 1;
            let ghost shorter = decode_verbatim(reader@, *prev as int, (count - done) as nat, p);
            assert(tail.0 == seq![*prev as int] + shorter.0);
            assert(held + tail.0 =~= patterns@.map_values(|x: u64| x as int) + shorter.0);
        }
        assert(decode_verbatim(reader@, *prev as int, 0, p).0 =~= Seq::<int>::empty());
        assert(patterns@.map_values(|x: u64| x as int) =~= before.map_values(|x: u64| x as int)
            + whole.0);
    } else {
        let fs: u32 = field - 1;
        assert(whole == decode_split(body, start, count as nat, fs as nat, p));
        assert(before.map_values(|x: u64| x as int) =~= patterns@.map_values(|x: u64| x as int));
        while done < count
            invariant
                done <= count,
                m == p.modulus(),
                p.valid(),
                fs < 31,
                *prev < m,
                reader.wf(),
                patterns@.len() == before.len() + done,
                done > 0 ==> *prev == patterns@.last(),
                forall|i: int| 0 <= i < patterns@.len() ==> patterns@[i] < m,
                ({
                    let tail = decode_split(
                        reader@,
                        *prev as int,
                        (count - done) as nat,
                        fs as nat,
                        p,
                    );
                    &&& before.map_values(|x: u64| x as int) + whole.0 == patterns@.map_values(
                        |x: u64| x as int,
                    ) + tail.0
                    &&& whole.1 == tail.1
                }),
            decreases count - done,
        {
            let ghost held = patterns@.map_values(|x: u64| x as int);
            let ghost tail = decode_split(
                reader@,
                *prev as int,
                (count - done) as nat,
                fs as nat,
                p,
            );
            let quotient: u128 = reader.read_run();
            let remainder: u32 = reader.read_bits(fs);
            proof {
                lemma_split_fits(quotient, fs as nat);
            }
            let scale: u128 = power_of_two(fs);
            let u: u128 = quotient * scale + remainder as u128;
            *prev = advance(*prev, u, m);
            patterns.push(*prev);
            done = done + 1;
            let ghost shorter = decode_split(
                reader@,
                *prev as int,
                (count - done) as nat,
                fs as nat,
                p,
            );
            assert(tail.0 == seq![*prev as int] + shorter.0);
            assert(held + tail.0 =~= patterns@.map_values(|x: u64| x as int) + shorter.0);
        }
        assert(decode_split(reader@, *prev as int, 0, fs as nat, p).0 =~= Seq::<int>::empty());
        assert(patterns@.map_values(|x: u64| x as int) =~= before.map_values(|x: u64| x as int)
            + whole.0);
    }
    proof {
        let now = patterns@.map_values(|x: u64| x as int);
        assert(whole.0 =~= now.subrange(before.len() as int, now.len() as int));
    }
}

/// `2^fs`.
fn power_of_two(fs: u32) -> (v: u128)
    requires
        fs < 31,
    ensures
        v == pow2(fs as nat),
{
    let mut v: u128 = 1;
    let mut i: u32 = 0;
    proof {
        vstd::arithmetic::power2::lemma2_to64();
    }
    while i < fs
        invariant
            i <= fs < 31,
            v == pow2(i as nat),
        decreases fs - i,
    {
        proof {
            vstd::arithmetic::power2::lemma_pow2_unfold((i + 1) as nat);
            vstd::arithmetic::power2::lemma2_to64();
            vstd::arithmetic::power2::lemma_pow2_strictly_increases(i as nat, 31);
        }
        v = v * 2;
        i = i + 1;
    }
    v
}

proof fn lemma_split_fits(quotient: u128, fs: nat)
    requires
        quotient <= 8 * usize::MAX,
        fs < 31,
    ensures
        0 <= quotient * pow2(fs) <= 8 * usize::MAX * 2147483648,
{
    vstd::arithmetic::power2::lemma2_to64();
    vstd::arithmetic::power2::lemma_pow2_strictly_increases(fs, 31);
    assert(0 <= quotient * pow2(fs) <= 8 * usize::MAX * 2147483648) by (nonlinear_arith)
        requires
            0 <= quotient <= 8 * usize::MAX,
            0 <= pow2(fs) <= 2147483648,
    ;
}

} // verus!
