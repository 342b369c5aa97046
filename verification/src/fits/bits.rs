//! Bit streams, most significant bit first.

use vstd::prelude::*;

verus! {

/// Bit `k` of `v`, bit 0 being the least significant.
pub open spec fn bit_at(v: u64, k: int) -> bool {
    (v >> (k as u64)) & 1 == 1
}

/// The low `width` bits of `v`, most significant first.
pub open spec fn low_bits(v: u64, width: nat) -> Seq<bool> {
    Seq::new(width, |i: int| bit_at(v, width - 1 - i))
}

/// A byte string as a bit string, most significant bit of each byte first.
pub open spec fn stream_bits(bytes: Seq<u8>) -> Seq<bool> {
    Seq::new(8 * bytes.len(), |i: int| bit_at(bytes[i / 8] as u64, 7 - i % 8))
}

/// `n` zero bits.
pub open spec fn zero_bits(n: nat) -> Seq<bool> {
    Seq::new(n, |i: int| false)
}

/// The number of zero bits that fill a stream of `len` bits up to a whole byte.
pub open spec fn padding(len: nat) -> nat {
    ((8 - len % 8) % 8) as nat
}

/// The number that a bit string spells, most significant bit first.
pub open spec fn number(bits: Seq<bool>) -> nat
    decreases bits.len(),
{
    if bits.len() == 0 {
        0
    } else {
        2 * number(bits.drop_last()) + if bits.last() {
            1nat
        } else {
            0nat
        }
    }
}

/// The first `width` bits, with zeros beyond the end of the stream.
pub open spec fn head(bits: Seq<bool>, width: nat) -> Seq<bool> {
    Seq::new(width, |i: int| i < bits.len() && bits[i])
}

/// What is left of the stream behind its first `width` bits.
pub open spec fn rest(bits: Seq<bool>, width: nat) -> Seq<bool> {
    if width <= bits.len() {
        bits.skip(width as int)
    } else {
        Seq::empty()
    }
}

/// The number of zeros before the first one bit, or before the end.
pub open spec fn zero_run(bits: Seq<bool>) -> nat
    decreases bits.len(),
{
    if bits.len() == 0 || bits[0] {
        0
    } else {
        1 + zero_run(bits.skip(1))
    }
}

/// MSB-first bit writer: `push_bits` appends the low `width` bits of `value` to the stream,
/// most significant bit first, flushing whole bytes as they accumulate.
pub struct BitWriter {
    out: Vec<u8>,
    buf: u64,
    nbits: u32,
}

impl View for BitWriter {
    type V = Seq<bool>;

    closed spec fn view(&self) -> Seq<bool> {
        stream_bits(self.out@) + low_bits(self.buf, self.nbits as nat)
    }
}

proof fn lemma_append_bit(buf: u64, value: u64, width: u64, k: u64)
    by (bit_vector)
    requires
        0 < width <= 56,
        k < 64,
    ensures
        k < width ==> (((buf << width) | (value & (((1u64 << width) - 1) as u64))) >> k) & 1 == (
        value >> k) & 1,
        k >= width ==> (((buf << width) | (value & (((1u64 << width) - 1) as u64))) >> k) & 1 == (
        buf >> ((k - width) as u64)) & 1,
{
}

proof fn lemma_byte_bit(buf: u64, n: u64, j: u64)
    by (bit_vector)
    requires
        j < 8,
        n <= 56,
    ensures
        ((((buf >> n) & 0xFF) as u8 as u64) >> j) & 1 == (buf >> ((n + j) as u64)) & 1,
{
}

proof fn lemma_pad_bit(buf: u64, pad: u64, j: u64)
    by (bit_vector)
    requires
        j < 8,
        pad < 8,
    ensures
        j < pad ==> ((((buf << pad) & 0xFF) as u8 as u64) >> j) & 1 == 0,
        j >= pad ==> ((((buf << pad) & 0xFF) as u8 as u64) >> j) & 1 == (buf >> ((j - pad) as u64))
            & 1,
{
}

proof fn lemma_mask_ok(width: u64)
    by (bit_vector)
    requires
        0 < width <= 56,
    ensures
        (1u64 << width) >= 1,
{
}

impl BitWriter {
    /// Fewer than eight bits wait to be flushed.
    pub closed spec fn wf(&self) -> bool {
        self.nbits < 8
    }

    /// An empty stream.
    pub fn new() -> (w: Self)
        ensures
            w.wf(),
            w@ == Seq::<bool>::empty(),
    {
        let w = BitWriter { out: Vec::new(), buf: 0, nbits: 0 };
        assert(w@ =~= Seq::<bool>::empty());
        w
    }

    /// Appends the low `width` bits of `value`.
    pub fn push_bits(&mut self, value: u32, width: u32)
        requires
            old(self).wf(),
            width <= 56,
        ensures
            final(self).wf(),
            final(self)@ == old(self)@ + low_bits(value as u64, width as nat),
    {
        if width == 0 {
            assert(self@ =~= old(self)@ + low_bits(value as u64, 0));
            return ;
        }
        let ghost before = self.buf;
        let ghost waiting = self.nbits;
        proof {
            lemma_mask_ok(width as u64);
        }
        let mask: u64 = (1u64 << (width as u64)) - 1;
        self.buf = (self.buf << (width as u64)) | (value as u64 & mask);
        self.nbits = self.nbits + width;
        assert(low_bits(self.buf, self.nbits as nat) =~= low_bits(before, waiting as nat)
            + low_bits(value as u64, width as nat)) by {
            assert forall|i: int| 0 <= i < self.nbits implies #[trigger] low_bits(
                self.buf,
                self.nbits as nat,
            )[i] == (low_bits(before, waiting as nat) + low_bits(value as u64, width as nat))[i] by {
                lemma_append_bit(before, value as u64, width as u64, (self.nbits - 1 - i) as u64);
            }
        }
        assert(self@ =~= old(self)@ + low_bits(value as u64, width as nat));
        while self.nbits >= 8
            invariant
                self.nbits < 64,
                self@ == old(self)@ + low_bits(value as u64, width as nat),
            decreases self.nbits,
        {
            let ghost prev_out = self.out@;
            let ghost prev_bits = self.nbits;
            let ghost prev_view = self@;
            self.nbits = self.nbits - 8;
            self.out.push(((self.buf >> (self.nbits as u64)) & 0xFF) as u8);
            assert(self@ =~= prev_view) by {
                let n = 8 * prev_out.len();
                assert forall|i: int| 0 <= i < prev_view.len() implies self@[i] == prev_view[i] by {
                    if i < n {
                        assert(self.out@[i / 8] == prev_out[i / 8]);
                    } else if i < n + 8 {
                        assert(i / 8 == prev_out.len() && i % 8 == i - n);
                        lemma_byte_bit(self.buf, self.nbits as u64, (7 - (i - n)) as u64);
                    }
                }
            }
        }
    }

    /// Appends `n` zero bits, in chunks, so that `n` need not fit one `push_bits` call.
    pub fn push_zero_bits(&mut self, n: u64)
        requires
            old(self).wf(),
        ensures
            final(self).wf(),
            final(self)@ == old(self)@ + zero_bits(n as nat),
    {
        let mut left: u64 = n;
        assert(self@ =~= old(self)@ + zero_bits(0));
        while left >= 24
            invariant
                left <= n,
                self.wf(),
                self@ == old(self)@ + zero_bits((n - left) as nat),
            decreases left,
        {
            proof {
                lemma_zero_value(24);
            }
            self.push_bits(0, 24);
            left = left - 24;
            assert(self@ =~= old(self)@ + zero_bits((n - left) as nat));
        }
        if left > 0 {
            proof {
                lemma_zero_value(left as nat);
            }
            self.push_bits(0, left as u32);
        }
        assert(self@ =~= old(self)@ + zero_bits(n as nat));
    }

    /// The bytes of the stream, the last one filled up with zero bits.
    pub fn finish(self) -> (bytes: Vec<u8>)
        requires
            self.wf(),
        ensures
            stream_bits(bytes@) == self@ + zero_bits(padding(self@.len())),
    {
        let nbits: u32 = self.nbits;
        let buf: u64 = self.buf;
        let mut out = self.out;
        let ghost whole = out@;
        if nbits > 0 {
            let pad: u32 = 8 - nbits;
            out.push(((buf << (pad as u64)) & 0xFF) as u8);
            assert(stream_bits(out@) =~= self@ + zero_bits(pad as nat)) by {
                let n = 8 * whole.len();
                assert forall|i: int| 0 <= i < n + 8 implies stream_bits(out@)[i] == (self@
                    + zero_bits(pad as nat))[i] by {
                    if i < n {
                        assert(out@[i / 8] == whole[i / 8]);
                    } else {
                        assert(i / 8 == whole.len() && i % 8 == i - n);
                        lemma_pad_bit(buf, pad as u64, (7 - (i - n)) as u64);
                    }
                }
            }
        } else {
            assert(stream_bits(out@) =~= self@ + zero_bits(0));
        }
        out
    }
}

/// The bits of zero are zero.
proof fn lemma_zero_value(width: nat)
    requires
        width <= 64,
    ensures
        low_bits(0, width) == zero_bits(width),
{
    assert forall|i: int| 0 <= i < width implies !(#[trigger] low_bits(0, width)[i]) by {
        let k = (width - 1 - i) as u64;
        assert((0u64 >> k) & 1 == 0) by (bit_vector);
    }
    assert(low_bits(0, width) =~= zero_bits(width));
}

/// Reads a byte string bit by bit, most significant bit first. Its view is what is left to read.
pub struct BitReader<'a> {
    bytes: &'a [u8],
    at: usize,
    used: u32,
}

impl<'a> View for BitReader<'a> {
    type V = Seq<bool>;

    closed spec fn view(&self) -> Seq<bool> {
        stream_bits(self.bytes@).skip(8 * self.at + self.used)
    }
}

impl<'a> BitReader<'a> {
    /// The reader stands at a bit of the stream, or at its end.
    pub closed spec fn wf(&self) -> bool {
        &&& self.used < 8
        &&& self.at <= self.bytes@.len()
        &&& self.at == self.bytes@.len() ==> self.used == 0
    }

    /// A reader at the start of `bytes`.
    pub fn new(bytes: &'a [u8]) -> (r: Self)
        ensures
            r.wf(),
            r@ == stream_bits(bytes@),
    {
        let r = BitReader { bytes, at: 0, used: 0 };
        assert(r@ =~= stream_bits(bytes@));
        r
    }

    /// The next bit, if there is one.
    fn next_bit(&mut self) -> (b: Option<bool>)
        requires
            old(self).wf(),
        ensures
            final(self).wf(),
            old(self)@.len() <= 8 * usize::MAX,
            match b {
                Some(b) => {
                    &&& old(self)@.len() > 0
                    &&& b == old(self)@[0]
                    &&& final(self)@ == old(self)@.skip(1)
                },
                None => old(self)@.len() == 0 && final(self)@ == old(self)@,
            },
    {
        if self.at >= self.bytes.len() {
            return None;
        }
        let byte: u8 = self.bytes[self.at];
        let k: u32 = 7 - self.used;
        let b: bool = ((byte as u64) >> (k as u64)) & 1 == 1;
        proof {
            let i: int = 8 * self.at + self.used;
            assert(i / 8 == self.at && i % 8 == self.used);
            assert(b == stream_bits(self.bytes@)[i]);
        }
        if self.used == 7 {
            self.at = self.at + 1;
            self.used = 0;
        } else {
            self.used = self.used + 1;
        }
        assert(self@ =~= old(self)@.skip(1));
        Some(b)
    }

    /// The number that the next `width` bits spell, with zeros beyond the end.
    pub fn read_bits(&mut self, width: u32) -> (v: u32)
        requires
            old(self).wf(),
            width <= 32,
        ensures
            final(self).wf(),
            v == number(head(old(self)@, width as nat)),
            v < vstd::arithmetic::power2::pow2(width as nat),
            final(self)@ == rest(old(self)@, width as nat),
    {
        let ghost start = self@;
        let mut v: u64 = 0;
        let mut i: u32 = 0;
        assert(self@ =~= rest(start, 0));
        while i < width
            invariant
                i <= width <= 32,
                self.wf(),
                self@ == rest(start, i as nat),
                v == number(head(start, i as nat)),
            decreases width - i,
        {
            let ghost here = self@;
            let next = self.next_bit();
            let b: u64 = match next {
                Some(true) => 1,
                _ => 0,
            };
            proof {
                let longer = head(start, (i + 1) as nat);
                assert(longer.drop_last() =~= head(start, i as nat));
                assert(longer.last() == (b == 1));
                lemma_number_bound(head(start, i as nat));
                vstd::arithmetic::power2::lemma2_to64();
                vstd::arithmetic::power2::lemma_pow2_strictly_increases(i as nat, 32);
            }
            v = 2 * v + b;
            i = i + 1;
            assert(self@ =~= rest(start, i as nat));
        }
        proof {
            lemma_number_bound(head(start, width as nat));
            vstd::arithmetic::power2::lemma2_to64();
            if width < 32 {
                vstd::arithmetic::power2::lemma_pow2_strictly_increases(width as nat, 32);
            }
        }
        v as u32
    }

    /// Counts the zeros before the next one bit, and reads past that one bit.
    pub fn read_run(&mut self) -> (n: u128)
        requires
            old(self).wf(),
        ensures
            final(self).wf(),
            n == zero_run(old(self)@),
            n <= 8 * usize::MAX,
            final(self)@ == rest(old(self)@, n as nat + 1),
    {
        let ghost start = self@;
        let mut n: u128 = 0;
        assert(self@ =~= start.skip(0));
        assert(self.bytes.len() <= usize::MAX);
        loop
            invariant_except_break
                self.wf(),
                n <= start.len(),
                start.len() <= 8 * usize::MAX,
                self@ == start.skip(n as int),
                n + zero_run(self@) == zero_run(start),
            ensures
                self.wf(),
                n == zero_run(start),
                n <= 8 * usize::MAX,
                self@ == rest(start, n as nat + 1),
            decreases start.len() - n,
        {
            let ghost here = self@;
            match self.next_bit() {
                Some(b) => {
                    if b {
                        assert(self@ =~= rest(start, n as nat + 1));
                        break ;
                    }
                    n = n + 1;
                    assert(self@ =~= start.skip(n as int));
                },
                None => {
                    assert(self@ =~= rest(start, n as nat + 1));
                    break ;
                },
            }
        }
        n
    }
}

/// A number of `n` bits is below `2^n`.
pub proof fn lemma_number_bound(bits: Seq<bool>)
    ensures
        number(bits) < vstd::arithmetic::power2::pow2(bits.len()),
    decreases bits.len(),
{
    vstd::arithmetic::power2::lemma2_to64();
    if bits.len() > 0 {
        lemma_number_bound(bits.drop_last());
        vstd::arithmetic::power2::lemma_pow2_unfold(bits.len());
    }
}

} // verus!
