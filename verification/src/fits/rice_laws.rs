//! What a RICE_1 tile is, bit by bit, and that the coder writes such tiles and the decoder reads
//! them: with one, two or four bytes per pixel a block opens with a field of 3, 4 or 5 bits, in
//! which 0 marks a block of repeated pixels and 7, 15 or 26 a block of differences at full width.

use vstd::prelude::*;
use vstd::arithmetic::div_mod::{lemma_fundamental_div_mod, lemma_small_mod};
use vstd::arithmetic::power2::{lemma2_to64, lemma_pow2_adds, lemma_pow2_pos, pow2};
use crate::fits::bits::{
    bit_at, head, low_bits, number, padding, rest, stream_bits, zero_bits, zero_run,
};
use crate::fits::rice::{
    decode_block, decode_blocks, decode_split, decode_verbatim, decoded, step, unzigzag, RiceParams,
};
use crate::fits::rice_encode::{
    all_zero, block_bits, block_is_no_longer_than_any_coding, blocks_bits, cheapest_split,
    cheapest_split_is_cheapest, coded_difference, coded_difference_fits, is_tile,
    lemma_number_of_low_bits, lemma_split_len, pattern, split_bits, split_code, split_cost,
    verbatim_bits,
};

verus! {

/// Whether bits are the numbers `us`, each in `width` bits.
pub open spec fn are_full_width(bits: Seq<bool>, us: Seq<u32>, width: nat) -> bool
    decreases us.len(),
{
    if us.len() == 0 {
        bits.len() == 0
    } else {
        &&& bits.len() >= width
        &&& number(bits.take(width as int)) == us[0]
        &&& are_full_width(bits.skip(width as int), us.skip(1), width)
    }
}

/// Whether bits are the numbers `us`, each split: as many zeros as `2^fs` goes into it, a one, and
/// what is left of it in `fs` bits.
pub open spec fn are_split(bits: Seq<bool>, us: Seq<u32>, fs: nat) -> bool
    decreases us.len(),
{
    if us.len() == 0 {
        bits.len() == 0
    } else {
        let zeros = us[0] as nat / pow2(fs);
        let end = (zeros + 1 + fs) as int;
        &&& bits.len() >= end
        &&& forall|k: int| 0 <= k < zeros ==> !#[trigger] bits[k]
        &&& bits[zeros as int]
        &&& number(bits.subrange(zeros as int + 1, end)) == us[0] as nat % pow2(fs)
        &&& are_split(bits.skip(end), us.skip(1), fs)
    }
}

/// Whether bits are a block of the coded differences `us`: a field of `field_len` bits, which is
/// nothing where all of them are zero, `mark` before differences of `width` bits each, and one more
/// than the bits of their remainders before split ones.
pub open spec fn is_block(
    bits: Seq<bool>,
    us: Seq<u32>,
    field_len: nat,
    mark: nat,
    width: nat,
) -> bool {
    let field = number(bits.take(field_len as int));
    let body = bits.skip(field_len as int);
    &&& bits.len() >= field_len
    &&& field <= mark
    &&& field == 0 ==> body.len() == 0 && forall|i: int| 0 <= i < us.len() ==> #[trigger] us[i] == 0
    &&& field == mark ==> are_full_width(body, us, width)
    &&& 0 < field < mark ==> are_split(body, us, (field - 1) as nat)
}

/// Whether the coded differences `us` lead from `prev` through `xs`, numbers below `m`: an even
/// one half of it up, an odd one half of the next even number down, round the end of the numbers.
pub open spec fn leads_through(us: Seq<u32>, prev: int, xs: Seq<int>, m: int) -> bool {
    &&& us.len() == xs.len()
    &&& forall|i: int|
        0 <= i < us.len() ==> {
            let before = if i == 0 {
                prev
            } else {
                xs[i - 1]
            };
            let change = if us[i] % 2 == 0 {
                us[i] as int / 2
            } else {
                -((us[i] + 1) / 2)
            };
            &&& 0 <= #[trigger] xs[i] < m
            &&& (xs[i] - before - change) % m == 0
        }
}

/// Bits count by their place, the first most.
pub proof fn bits_count_by_their_place(a: Seq<bool>, b: Seq<bool>)
    ensures
        number(a + b) == number(a) * pow2(b.len()) + number(b),
        number(Seq::empty()) == 0,
        number(seq![false]) == 0,
        number(seq![true]) == 1,
    decreases b.len(),
{
    lemma2_to64();
    assert(seq![false].drop_last() =~= Seq::<bool>::empty());
    assert(seq![true].drop_last() =~= Seq::<bool>::empty());
    assert(number(Seq::<bool>::empty()) == 0);
    if b.len() == 0 {
        assert(a + b =~= a);
    } else {
        let front = b.drop_last();
        assert((a + b).drop_last() =~= a + front);
        bits_count_by_their_place(a, front);
        lemma_pow2_adds(front.len(), 1);
        let va = number(a) as int;
        let p = pow2(front.len()) as int;
        assert(va * (p * 2) == 2 * (va * p)) by (nonlinear_arith);
        assert(pow2(b.len()) == p * 2);
        assert(number(a + b) == 2 * (va * p + number(front)) + if b.last() {
            1int
        } else {
            0int
        });
    }
}

proof fn lemma_bit_is(v: u64, k: u64)
    requires
        k < 64,
    ensures
        bit_at(v, k as int) == ((v as nat / pow2(k as nat)) % 2 == 1),
{
    vstd::bits::lemma_u64_shr_is_div(v, k);
    let w = v >> k;
    assert((w & 1 == 1) == (w % 2 == 1)) by (bit_vector);
}

/// The bits of a byte string are those of its bytes in their order, the most significant first.
pub proof fn bytes_give_their_bits(bytes: Seq<u8>, i: int)
    requires
        0 <= i < 8 * bytes.len(),
    ensures
        stream_bits(bytes).len() == 8 * bytes.len(),
        stream_bits(bytes)[i] == ((bytes[i / 8] as nat / pow2((7 - i % 8) as nat)) % 2 == 1),
{
    lemma_bit_is(bytes[i / 8] as u64, (7 - i % 8) as u64);
}

proof fn lemma_are_full_width(us: Seq<u32>, width: nat)
    requires
        width <= 32,
        forall|i: int| 0 <= i < us.len() ==> #[trigger] us[i] < pow2(width),
    ensures
        are_full_width(verbatim_bits(us, width), us, width),
    decreases us.len(),
{
    if us.len() > 0 {
        let bits = verbatim_bits(us, width);
        let tail = us.skip(1);
        assert(us[0] < pow2(width));
        assert forall|i: int| 0 <= i < tail.len() implies #[trigger] tail[i] < pow2(width) by {
            assert(tail[i] == us[i + 1]);
        }
        lemma_are_full_width(tail, width);
        assert(bits.take(width as int) =~= low_bits(us[0] as u64, width));
        assert(bits.skip(width as int) =~= verbatim_bits(tail, width));
        lemma_number_of_low_bits(us[0] as u64, width);
        lemma_small_mod(us[0] as nat, pow2(width));
    }
}

proof fn lemma_are_split(us: Seq<u32>, fs: nat)
    requires
        fs <= 32,
    ensures
        are_split(split_bits(us, fs), us, fs),
    decreases us.len(),
{
    if us.len() > 0 {
        let bits = split_bits(us, fs);
        let zeros = us[0] as nat / pow2(fs);
        let end = (zeros + 1 + fs) as int;
        lemma_pow2_pos(fs);
        vstd::arithmetic::div_mod::lemma_div_pos_is_pos(us[0] as int, pow2(fs) as int);
        lemma_are_split(us.skip(1), fs);
        assert(split_code(us[0], fs).len() == end);
        assert(bits.subrange(zeros as int + 1, end) =~= low_bits(us[0] as u64, fs));
        assert(bits.skip(end) =~= split_bits(us.skip(1), fs));
        lemma_number_of_low_bits(us[0] as u64, fs);
        assert forall|k: int| 0 <= k < zeros implies !#[trigger] bits[k] by {
            assert(bits[k] == split_code(us[0], fs)[k]);
        }
        assert(bits[zeros as int] == split_code(us[0], fs)[zeros as int]);
    }
}

proof fn lemma_opened(v: u64, field_len: nat, body: Seq<bool>)
    requires
        field_len <= 32,
        v < pow2(field_len),
    ensures
        number((low_bits(v, field_len) + body).take(field_len as int)) == v,
        (low_bits(v, field_len) + body).skip(field_len as int) == body,
{
    let bits = low_bits(v, field_len) + body;
    assert(bits.take(field_len as int) =~= low_bits(v, field_len));
    assert(bits.skip(field_len as int) =~= body);
    lemma_number_of_low_bits(v, field_len);
    lemma_small_mod(v as nat, pow2(field_len));
}

/// The blocks that are written are those of the format: with one byte per pixel the field has
/// three bits and 7 marks differences of eight bits; with two bytes, four bits, 15 and sixteen
/// bits; with four bytes, five bits, 26 and thirty-two bits. The field is nothing if and only if
/// all differences are, and no coding that the format has is shorter; of codings of one length a split
/// one is taken, with the least remainder.
pub proof fn written_blocks_are_blocks(
    us: Seq<u32>,
    p: RiceParams,
    field_len: nat,
    mark: nat,
    width: nat,
)
    requires
        p.valid(),
        us.len() > 0,
        forall|i: int| 0 <= i < us.len() ==> #[trigger] us[i] < pow2(width),
        (p.bytepix == 1 && field_len == 3 && mark == 7 && width == 8) || (p.bytepix == 2
            && field_len == 4 && mark == 15 && width == 16) || (p.bytepix == 4 && field_len == 5
            && mark == 26 && width == 32),
    ensures
        is_block(block_bits(us, p), us, field_len, mark, width),
        number(block_bits(us, p).take(field_len as int)) == 0 <==> forall|i: int|
            0 <= i < us.len() ==> #[trigger] us[i] == 0,
        block_bits(us, p).len() <= field_len + us.len() * width,
        forall|fs: nat|
            fs + 1 < mark ==> block_bits(us, p).len() <= field_len + #[trigger] split_cost(us, fs),
        number(block_bits(us, p).take(field_len as int)) == mark ==> forall|fs: nat|
            fs + 1 < mark ==> us.len() * width < #[trigger] split_cost(us, fs),
        0 < number(block_bits(us, p).take(field_len as int)) < mark ==> {
            let best = (number(block_bits(us, p).take(field_len as int)) - 1) as nat;
            &&& split_cost(us, best) <= us.len() * width
            &&& forall|fs: nat| fs < best ==> split_cost(us, best) < #[trigger] split_cost(us, fs)
        },
{
    lemma2_to64();
    let fs = cheapest_split(us, p.split_limit());
    cheapest_split_is_cheapest(us, p.split_limit());
    let bits = block_bits(us, p);
    assert(0 <= us.len() * width) by (nonlinear_arith);
    if all_zero(us) {
        let none = Seq::<bool>::empty();
        assert(bits =~= low_bits(0, field_len) + none);
        lemma_opened(0, field_len, none);
        assert(forall|i: int| 0 <= i < us.len() ==> #[trigger] us[i] == 0);
    } else {
        let k = choose|k: int| 0 <= k < us.len() && us[k] != 0;
        assert(us[k] != 0);
        assert forall|f: nat| f + 1 < mark implies bits.len() <= field_len + #[trigger] split_cost(
            us,
            f,
        ) by {
            block_is_no_longer_than_any_coding(us, p, f);
            lemma_split_len(us, f);
        }
        block_is_no_longer_than_any_coding(us, p, 0);
        if us.len() * p.width() < split_cost(us, fs) {
            lemma_opened(mark as u64, field_len, verbatim_bits(us, width));
            lemma_are_full_width(us, width);
        } else {
            lemma_opened((fs + 1) as u64, field_len, split_bits(us, fs));
            lemma_are_split(us, fs);
        }
    }
}

/// The bits that the split coding takes are those of its numbers: of each, as many as `2^fs` goes
/// into it, one more, and `fs`.
pub proof fn split_numbers_cost_their_bits(bits: Seq<bool>, us: Seq<u32>, fs: nat)
    requires
        are_split(bits, us, fs),
    ensures
        bits.len() == split_cost(us, fs),
    decreases us.len(),
{
    if us.len() > 0 {
        let end = (us[0] as nat / pow2(fs) + 1 + fs) as int;
        split_numbers_cost_their_bits(bits.skip(end), us.skip(1), fs);
        crate::fits::rice_encode::lemma_cost_from_front(us, fs);
    }
}

/// The differences that are coded lead from each pixel to the next: the coded difference is a
/// number of the pixel's width, twice the difference where that is not negative, and one less than
/// twice its amount where it is; differences wrap round at `2^8`, `2^16` or `2^32`. The first
/// pixel differs by nothing.
pub proof fn differences_lead_to_the_next_pixel(pixels: Seq<i64>, i: int, p: RiceParams, m: int)
    requires
        p.valid(),
        0 <= i < pixels.len(),
        (p.bytepix == 1 && m == 256) || (p.bytepix == 2 && m == 65536) || (p.bytepix == 4 && m
            == 4294967296),
    ensures
        0 <= coded_difference(pixels, i, p) < m,
        i == 0 ==> coded_difference(pixels, i, p) == 0,
        i > 0 ==> ({
            let u = coded_difference(pixels, i, p);
            let change = if u % 2 == 0 {
                u / 2
            } else {
                -((u + 1) / 2)
            };
            (pixels[i] - pixels[i - 1] - change) % m == 0
        }),
{
    coded_difference_fits(pixels, i, p);
    if i == 0 {
        assert((pattern(pixels[0], p) - pattern(pixels[0], p)) % m == 0);
    } else {
        let a = pixels[i] as int;
        let b = pixels[i - 1] as int;
        let pa = a % m;
        let pb = b % m;
        let d = (pa - pb) % m;
        let u = coded_difference(pixels, i, p);
        let change = if u % 2 == 0 {
            u / 2
        } else {
            -((u + 1) / 2)
        };
        assert(change == d || change == d - m);
        lemma_fundamental_div_mod(a, m);
        lemma_fundamental_div_mod(b, m);
        lemma_fundamental_div_mod(pa - pb, m);
        let q = a / m - b / m + (pa - pb) / m;
        let e = if change == d {
            q
        } else {
            q + 1
        };
        assert(a - b - change == m * e) by (nonlinear_arith)
            requires
                a == m * (a / m) + pa,
                b == m * (b / m) + pb,
                pa - pb == m * ((pa - pb) / m) + d,
                q == a / m - b / m + (pa - pb) / m,
                (change == d && e == q) || (change == d - m && e == q + 1),
        ;
        vstd::arithmetic::div_mod::lemma_mod_multiples_basic(e, m);
        vstd::arithmetic::mul::lemma_mul_is_commutative(e, m);
    }
}

/// A tile opens with its first pixel at full width; then come the blocks, and fewer than eight
/// zeros to the end of a byte.
pub proof fn tiles_open_with_the_first_pixel(
    bytes: Seq<u8>,
    pixels: Seq<i64>,
    p: RiceParams,
    width: nat,
    blocks: Seq<bool>,
)
    requires
        p.valid(),
        pixels.len() > 0,
        is_tile(bytes, pixels, p),
        blocks == blocks_bits(
            Seq::new(pixels.len(), |i: int| coded_difference(pixels, i, p) as u32),
            p,
        ),
        width == 8 * p.bytepix,
    ensures
        width + blocks.len() <= 8 * bytes.len() < width + blocks.len() + 8,
        number(stream_bits(bytes).take(width as int)) == pixels[0] as int % pow2(width) as int,
        stream_bits(bytes).subrange(width as int, (width + blocks.len()) as int) == blocks,
        forall|i: int|
            width + blocks.len() <= i < 8 * bytes.len() ==> !#[trigger] stream_bits(bytes)[i],
{
    lemma2_to64();
    let bits = stream_bits(bytes);
    let first = pattern(pixels[0], p);
    let us = crate::fits::rice_encode::coded_differences(pixels, p);
    assert(us =~= Seq::new(pixels.len(), |i: int| coded_difference(pixels, i, p) as u32));
    assert(bits.len() == 8 * bytes.len());
    assert(bits == low_bits(first as u64, width) + blocks + zero_bits(padding(blocks.len())));
    assert(bits.take(width as int) =~= low_bits(first as u64, width));
    lemma_number_of_low_bits(first as u64, width);
    lemma_small_mod(first as nat, pow2(width));
    assert(bits.subrange(width as int, (width + blocks.len()) as int) =~= blocks);
}

/// The blocks of a tile follow one another, each of as many differences as a block has, but for
/// the last, which has those that are left.
pub proof fn blocks_follow_one_another(us: Seq<u32>, p: RiceParams)
    requires
        p.valid(),
    ensures
        us.len() == 0 ==> blocks_bits(us, p).len() == 0,
        0 < us.len() <= p.blocksize ==> blocks_bits(us, p) == block_bits(us, p),
        us.len() > p.blocksize ==> blocks_bits(us, p) == block_bits(
            us.take(p.blocksize as int),
            p,
        ) + blocks_bits(us.skip(p.blocksize as int), p),
{
    if 0 < us.len() <= p.blocksize {
        assert(us.take(us.len() as int) =~= us);
        assert(us.skip(us.len() as int) =~= Seq::<u32>::empty());
        assert(blocks_bits(us.skip(us.len() as int), p) =~= Seq::<bool>::empty());
        assert(block_bits(us, p) + Seq::<bool>::empty() =~= block_bits(us, p));
    }
}

proof fn lemma_step_is(prev: int, u: u32, x: int, m: int)
    requires
        0 <= x < m,
        (x - prev - (if u % 2 == 0 {
            u as int / 2
        } else {
            -((u + 1) / 2)
        })) % m == 0,
    ensures
        step(prev, u as int, m) == x,
{
    let y = prev + unzigzag(u as int);
    assert((x - y) % m == 0);
    lemma_fundamental_div_mod(x - y, m);
    let q = (x - y) / m;
    assert(y == x + m * (-q)) by (nonlinear_arith)
        requires
            x - y == m * q + 0,
    ;
    vstd::arithmetic::div_mod::lemma_mod_multiples_vanish(-q, x, m);
    lemma_small_mod(x as nat, m as nat);
}

proof fn lemma_leads_on(us: Seq<u32>, prev: int, xs: Seq<int>, m: int)
    requires
        leads_through(us, prev, xs, m),
        us.len() > 0,
    ensures
        leads_through(us.skip(1), xs[0], xs.skip(1), m),
        step(prev, us[0] as int, m) == xs[0],
{
    let vs = us.skip(1);
    let ys = xs.skip(1);
    assert(0 <= xs[0] < m);
    lemma_step_is(prev, us[0], xs[0], m);
    assert forall|i: int| 0 <= i < vs.len() implies {
        let before = if i == 0 {
            xs[0]
        } else {
            ys[i - 1]
        };
        let change = if vs[i] % 2 == 0 {
            vs[i] as int / 2
        } else {
            -((vs[i] + 1) / 2)
        };
        &&& 0 <= #[trigger] ys[i] < m
        &&& (ys[i] - before - change) % m == 0
    } by {
        assert(0 <= xs[i + 1] < m);
        assert(vs[i] == us[i + 1]);
    }
}

proof fn lemma_full_width_read(
    body: Seq<bool>,
    us: Seq<u32>,
    prev: int,
    xs: Seq<int>,
    p: RiceParams,
    tail: Seq<bool>,
)
    requires
        p.valid(),
        are_full_width(body, us, p.width()),
        leads_through(us, prev, xs, p.modulus()),
    ensures
        decode_verbatim(body + tail, prev, us.len(), p) == (xs, tail),
    decreases us.len(),
{
    let w = p.width();
    let bits = body + tail;
    if us.len() == 0 {
        assert(xs =~= Seq::<int>::empty());
        assert(bits =~= tail);
    } else {
        let more = body.skip(w as int);
        assert(head(bits, w) =~= body.take(w as int));
        assert(rest(bits, w) =~= more + tail);
        lemma_leads_on(us, prev, xs, p.modulus());
        lemma_full_width_read(more, us.skip(1), xs[0], xs.skip(1), p, tail);
        assert(seq![xs[0]] + xs.skip(1) =~= xs);
    }
}

proof fn lemma_run_is(bits: Seq<bool>, n: nat)
    requires
        n < bits.len(),
        bits[n as int],
        forall|k: int| 0 <= k < n ==> !#[trigger] bits[k],
    ensures
        zero_run(bits) == n,
    decreases n,
{
    if n > 0 {
        let more = bits.skip(1);
        assert(!bits[0]);
        assert forall|k: int| 0 <= k < n - 1 implies !#[trigger] more[k] by {
            assert(more[k] == bits[k + 1]);
        }
        lemma_run_is(more, (n - 1) as nat);
    }
}

proof fn lemma_split_read(
    body: Seq<bool>,
    us: Seq<u32>,
    fs: nat,
    prev: int,
    xs: Seq<int>,
    p: RiceParams,
    tail: Seq<bool>,
)
    requires
        p.valid(),
        are_split(body, us, fs),
        leads_through(us, prev, xs, p.modulus()),
    ensures
        decode_split(body + tail, prev, us.len(), fs, p) == (xs, tail),
    decreases us.len(),
{
    let bits = body + tail;
    if us.len() == 0 {
        assert(xs =~= Seq::<int>::empty());
        assert(bits =~= tail);
    } else {
        let zeros = us[0] as nat / pow2(fs);
        let end = (zeros + 1 + fs) as int;
        let more = body.skip(end);
        lemma_pow2_pos(fs);
        vstd::arithmetic::div_mod::lemma_div_pos_is_pos(us[0] as int, pow2(fs) as int);
        assert(bits[zeros as int] == body[zeros as int]);
        assert forall|k: int| 0 <= k < zeros implies !#[trigger] bits[k] by {
            assert(bits[k] == body[k]);
        }
        lemma_run_is(bits, zeros);
        let behind = rest(bits, zeros + 1);
        assert(behind =~= bits.skip(zeros as int + 1));
        assert(head(behind, fs) =~= body.subrange(zeros as int + 1, end));
        assert(rest(behind, fs) =~= more + tail);
        lemma_fundamental_div_mod(us[0] as int, pow2(fs) as int);
        vstd::arithmetic::mul::lemma_mul_is_commutative(zeros as int, pow2(fs) as int);
        lemma_leads_on(us, prev, xs, p.modulus());
        lemma_split_read(more, us.skip(1), fs, xs[0], xs.skip(1), p, tail);
        assert(seq![xs[0]] + xs.skip(1) =~= xs);
    }
}

/// Whatever coder wrote it, a block of the format is read as the pixels to which its differences
/// lead, and nothing behind it is touched.
pub proof fn blocks_of_the_format_are_read(
    bits: Seq<bool>,
    us: Seq<u32>,
    prev: int,
    xs: Seq<int>,
    p: RiceParams,
    field_len: nat,
    mark: nat,
    width: nat,
    tail: Seq<bool>,
)
    requires
        p.valid(),
        (p.bytepix == 1 && field_len == 3 && mark == 7 && width == 8) || (p.bytepix == 2
            && field_len == 4 && mark == 15 && width == 16) || (p.bytepix == 4 && field_len == 5
            && mark == 26 && width == 32),
        is_block(bits, us, field_len, mark, width),
        0 <= prev < pow2(width),
        leads_through(us, prev, xs, pow2(width) as int),
    ensures
        decode_block(bits + tail, prev, us.len(), p) == (xs, tail),
{
    lemma2_to64();
    let all = bits + tail;
    let body = bits.skip(field_len as int);
    let field = number(bits.take(field_len as int));
    assert(head(all, field_len) =~= bits.take(field_len as int));
    assert(rest(all, field_len) =~= body + tail);
    if field == 0 {
        assert(body + tail =~= tail);
        assert(all_zero(us));
        assert forall|i: int| 0 <= i < xs.len() implies #[trigger] xs[i] == prev by {
            lemma_repeated(us, prev, xs, p.modulus(), i);
        }
        assert(xs =~= Seq::new(us.len(), |i: int| prev));
    } else if field == mark {
        lemma_full_width_read(body, us, prev, xs, p, tail);
    } else {
        lemma_split_read(body, us, (field - 1) as nat, prev, xs, p, tail);
    }
}

proof fn lemma_repeated(us: Seq<u32>, prev: int, xs: Seq<int>, m: int, i: int)
    requires
        0 <= prev < m,
        leads_through(us, prev, xs, m),
        all_zero(us),
        0 <= i < us.len(),
    ensures
        xs[i] == prev,
    decreases i,
{
    let before = if i == 0 {
        prev
    } else {
        xs[i - 1]
    };
    assert(us[i] == 0);
    assert(0 <= xs[i] < m);
    if i > 0 {
        lemma_repeated(us, prev, xs, m, i - 1);
    }
    lemma_step_is(before, us[i], xs[i], m);
    lemma_small_mod(prev as nat, m as nat);
}

/// A bit pattern of eight, sixteen or thirty-two bits stands for itself, or where pixels have
/// signs for the number from `-2^(width - 1)` to `2^(width - 1) - 1` that it differs from by
/// `2^width` or by nothing; and these are the numbers that fit.
pub proof fn patterns_stand_for_numbers(p: RiceParams, x: int, v: int, width: nat)
    requires
        p.valid(),
        width == 8 * p.bytepix,
        0 <= x < pow2(width),
    ensures
        !p.signed ==> p.stored(x) == x,
        p.signed ==> -(pow2((width - 1) as nat) as int) <= p.stored(x) < pow2((width - 1) as nat) && (
        p.stored(x) == x || p.stored(x) == x - pow2(width)),
        !p.signed ==> (p.representable(v) <==> 0 <= v < pow2(width)),
        p.signed ==> (p.representable(v) <==> -(pow2((width - 1) as nat) as int) <= v < pow2(
            (width - 1) as nat,
        )),
{
    lemma2_to64();
}

/// Where a stream ends early, the bits that are missing are zeros, and nothing is left behind them.
pub proof fn missing_bits_are_zeros(bits: Seq<bool>, width: nat, i: int)
    ensures
        head(bits, width).len() == width,
        0 <= i < width && i < bits.len() ==> head(bits, width)[i] == bits[i],
        bits.len() <= i < width ==> !head(bits, width)[i],
        width <= bits.len() ==> head(bits, width) + rest(bits, width) == bits,
        width > bits.len() ==> rest(bits, width).len() == 0,
{
    if width <= bits.len() {
        assert(head(bits, width) + rest(bits, width) =~= bits);
    }
}

/// No pixels make no bytes.
pub proof fn no_pixels_make_no_bytes(bytes: Seq<u8>, p: RiceParams)
    ensures
        is_tile(bytes, Seq::empty(), p) <==> bytes.len() == 0,
{
}

proof fn lemma_verbatim_count(bits: Seq<bool>, prev: int, n: nat, p: RiceParams)
    ensures
        decode_verbatim(bits, prev, n, p).0.len() == n,
    decreases n,
{
    if n > 0 {
        let x = step(prev, number(head(bits, p.width())) as int, p.modulus());
        lemma_verbatim_count(rest(bits, p.width()), x, (n - 1) as nat, p);
    }
}

proof fn lemma_split_count(bits: Seq<bool>, prev: int, n: nat, fs: nat, p: RiceParams)
    ensures
        decode_split(bits, prev, n, fs, p).0.len() == n,
    decreases n,
{
    if n > 0 {
        let quotient = zero_run(bits);
        let behind = rest(bits, quotient + 1);
        let u = quotient * pow2(fs) + number(head(behind, fs));
        let x = step(prev, u as int, p.modulus());
        lemma_split_count(rest(behind, fs), x, (n - 1) as nat, fs, p);
    }
}

proof fn lemma_blocks_count(bits: Seq<bool>, prev: int, n: nat, p: RiceParams)
    requires
        p.valid(),
    ensures
        decode_blocks(bits, prev, n, p).len() == n,
    decreases n,
{
    if n > 0 {
        let count = if n < p.blocksize {
            n
        } else {
            p.blocksize as nat
        };
        let field = number(head(bits, p.field_bits()));
        let body = rest(bits, p.field_bits());
        lemma_verbatim_count(body, prev, count, p);
        if field > 0 {
            lemma_split_count(body, prev, count, (field - 1) as nat, p);
        }
        let (xs, left) = decode_block(bits, prev, count, p);
        lemma_blocks_count(left, xs.last(), (n - count) as nat, p);
    }
}

/// As many pixels are decoded as are asked for, whatever the bytes are.
pub proof fn as_many_pixels_come_out_as_are_asked_for(bytes: Seq<u8>, n: nat, p: RiceParams)
    requires
        p.valid(),
    ensures
        decoded(bytes, n, p).len() == n,
{
    let bits = stream_bits(bytes);
    let first = number(head(bits, p.width())) as int;
    lemma_blocks_count(rest(bits, p.width()), first, n, p);
}

/// A run is all the zeros up to the first one bit, or up to the end where there is none.
pub proof fn runs_count_the_zeros(bits: Seq<bool>)
    ensures
        zero_run(bits) <= bits.len(),
        zero_run(bits) < bits.len() ==> bits[zero_run(bits) as int],
        forall|k: int| 0 <= k < zero_run(bits) ==> !#[trigger] bits[k],
    decreases bits.len(),
{
    if bits.len() > 0 && !bits[0] {
        let behind = bits.skip(1);
        runs_count_the_zeros(behind);
        assert forall|k: int| 0 <= k < zero_run(bits) implies !#[trigger] bits[k] by {
            if k > 0 {
                assert(bits[k] == behind[k - 1]);
            }
        }
        if zero_run(bits) < bits.len() {
            assert(bits[zero_run(bits) as int] == behind[zero_run(behind) as int]);
        }
    }
}

} // verus!
