//! Header units: the cards of a header, and where its data lies.

use vstd::prelude::*;
use vstd::string::*;
use crate::text::{
    chars_of, decimal, first_of, format_unsigned, parse_signed, parsed_signed, same, split_once,
    trim, trim_end, trim_start, trimmed, trimmed_end, trimmed_start,
};

verus! {

/// Headers and data fill whole blocks of this many bytes.
pub const BLOCK_SIZE: usize = 2880;

/// Bytes of a card.
pub const CARD_SIZE: usize = 80;

/// Axes that a unit can have.
pub const MAX_NAXIS: i64 = 999;

/// Bytes as characters.
pub open spec fn as_text(bytes: Seq<u8>) -> Seq<char> {
    Seq::new(bytes.len(), |i: int| bytes[i] as char)
}

/// Card `i` of the header that starts at `start`.
pub open spec fn card_at(bytes: Seq<u8>, start: int, i: int) -> Seq<u8> {
    bytes.subrange(start + 80 * i, start + 80 * i + 80)
}

/// The card that ends a header.
pub open spec fn is_end(card: Seq<u8>) -> bool {
    &&& card[0] == 0x45 && card[1] == 0x4e && card[2] == 0x44
    &&& forall|i: int| 3 <= i < 8 ==> #[trigger] card[i] == 0x20
}

/// The number of cards before the one that ends the header, looked for from card `i` on.
pub open spec fn cards_before_end(bytes: Seq<u8>, start: int, i: int) -> Option<int>
    decreases bytes.len() - start - 80 * i,
{
    if start < 0 || i < 0 || start + 80 * i + 80 > bytes.len() {
        None
    } else if is_end(card_at(bytes, start, i)) {
        Some(i)
    } else {
        cards_before_end(bytes, start, i + 1)
    }
}

/// The text between quotes, from behind the first one: a doubled quote stands for one.
pub open spec fn unquoted(s: Seq<char>) -> Seq<char>
    decreases s.len(),
{
    if s.len() == 0 {
        Seq::empty()
    } else if s[0] == '\'' {
        if s.len() > 1 && s[1] == '\'' {
            seq!['\''] + unquoted(s.skip(2))
        } else {
            Seq::empty()
        }
    } else {
        seq![s[0]] + unquoted(s.skip(1))
    }
}

/// The value in a value field: a quoted text without the white space at its end, or what stands
/// before the comment.
pub open spec fn value_in(field: Seq<char>) -> Seq<char> {
    let f = trimmed_start(field);
    if f.len() > 0 && f[0] == '\'' {
        trimmed_end(unquoted(f.skip(1)))
    } else {
        trimmed(f.take(first_of(f, '/')))
    }
}

/// Whether a card holds a value.
pub open spec fn has_value(card: Seq<u8>) -> bool {
    card[8] == 0x3d && card[9] == 0x20
}

/// A key and its value.
pub struct CardView {
    pub key: Seq<char>,
    pub value: Seq<char>,
}

/// The key and the value of a card.
pub open spec fn card_view(card: Seq<u8>) -> CardView {
    CardView {
        key: trimmed(as_text(card.subrange(0, 8))),
        value: value_in(as_text(card.subrange(10, 80))),
    }
}

/// The cards with values among the first `n`.
pub open spec fn first_cards(bytes: Seq<u8>, start: int, n: int) -> Seq<CardView>
    decreases n,
{
    if n <= 0 {
        Seq::empty()
    } else {
        let before = first_cards(bytes, start, n - 1);
        let card = card_at(bytes, start, n - 1);
        if has_value(card) {
            before.push(card_view(card))
        } else {
            before
        }
    }
}

/// The value of the first card of a key.
pub open spec fn lookup(cards: Seq<CardView>, key: Seq<char>) -> Option<Seq<char>>
    decreases cards.len(),
{
    if cards.len() == 0 {
        None
    } else if cards[0].key == key {
        Some(cards[0].value)
    } else {
        lookup(cards.skip(1), key)
    }
}

/// The number of the first card of a key.
pub open spec fn lookup_number(cards: Seq<CardView>, key: Seq<char>) -> Option<int> {
    match lookup(cards, key) {
        Some(value) => parsed_signed(trimmed(value)),
        None => None,
    }
}

/// A card of a header.
#[derive(Debug)]
pub struct HeaderCard {
    pub key: String,
    pub value: String,
}

impl View for HeaderCard {
    type V = CardView;

    open spec fn view(&self) -> CardView {
        CardView { key: self.key@, value: self.value@ }
    }
}

/// The cards of a header that hold values, in order.
#[derive(Debug)]
pub struct HduHeader {
    pub cards: Vec<HeaderCard>,
}

impl View for HduHeader {
    type V = Seq<CardView>;

    open spec fn view(&self) -> Seq<CardView> {
        Seq::new(self.cards@.len(), |i: int| self.cards@[i]@)
    }
}

impl HduHeader {
    /// The value of the first card of a key.
    pub fn get(&self, key: &str) -> (v: Option<&str>)
        ensures
            match v {
                Some(text) => lookup(self@, key@) == Some(text@),
                None => lookup(self@, key@) is None,
            },
    {
        let mut i: usize = 0;
        assert(self@.skip(0) =~= self@);
        while i < self.cards.len()
            invariant
                i <= self.cards@.len(),
                lookup(self@, key@) == lookup(self@.skip(i as int), key@),
            decreases self.cards.len() - i,
        {
            assert(self@.skip(i as int)[0] == self.cards@[i as int]@);
            if same(self.cards[i].key.as_str(), key) {
                return Some(self.cards[i].value.as_str());
            }
            assert(self@.skip(i as int).skip(1) =~= self@.skip(i + 1));
            i = i + 1;
        }
        None
    }

    /// The number of the first card of a key.
    pub fn get_i64(&self, key: &str) -> (v: Option<i64>)
        ensures
            match v {
                Some(n) => lookup_number(self@, key@) == Some(n as int),
                None => lookup_number(self@, key@) is None,
            },
    {
        match self.get(key) {
            Some(text) => parse_signed(trim(text)),
            None => None,
        }
    }
}

/// A number, or another where there is none.
pub open spec fn number_or(n: Option<int>, default: int) -> int {
    match n {
        Some(v) => v,
        None => default,
    }
}

/// The length of axis `n`.
pub open spec fn axis_of(cards: Seq<CardView>, n: nat) -> int {
    number_or(lookup_number(cards, "NAXIS"@ + decimal(n)), 0)
}

/// The product of the first `n` axes; none where an axis is negative or the product does not fit
/// 63 bits.
pub open spec fn axes_product(cards: Seq<CardView>, n: nat) -> Option<nat>
    decreases n,
{
    if n == 0 {
        Some(1)
    } else {
        match axes_product(cards, (n - 1) as nat) {
            None => None,
            Some(p) => {
                let axis = axis_of(cards, n);
                if axis < 0 || p * axis > i64::MAX {
                    None
                } else {
                    Some((p * axis) as nat)
                }
            },
        }
    }
}

/// The bytes of a pixel.
pub open spec fn pixel_bytes(bitpix: int) -> int {
    if bitpix < 0 {
        -bitpix / 8
    } else {
        bitpix / 8
    }
}

/// The bytes of a unit's data; none where the header's numbers make no size.
pub open spec fn data_bytes(cards: Seq<CardView>) -> Option<nat> {
    let naxis = number_or(lookup_number(cards, "NAXIS"@), 0);
    if naxis <= 0 {
        Some(0)
    } else if naxis > MAX_NAXIS {
        None
    } else {
        let bitpix = number_or(lookup_number(cards, "BITPIX"@), 0);
        let gcount = number_or(lookup_number(cards, "GCOUNT"@), 1);
        let pcount = number_or(lookup_number(cards, "PCOUNT"@), 0);
        match axes_product(cards, naxis as nat) {
            None => None,
            Some(p) => if gcount < 0 || pcount < 0 {
                None
            } else {
                Some((pixel_bytes(bitpix) * (gcount * (pcount + p))) as nat)
            },
        }
    }
}

/// `n` bytes in whole blocks.
pub open spec fn in_blocks(n: nat) -> nat {
    ((n + 2879) / 2880) * 2880
}

/// Where a unit lies, and its cards.
pub struct HduView {
    pub cards: Seq<CardView>,
    pub header_start: nat,
    pub data_start: nat,
    pub next_hdu_offset: nat,
}

/// The unit that starts at `start`, or why there is none.
pub open spec fn hdu_at(bytes: Seq<u8>, start: nat) -> Result<HduView, Seq<char>> {
    match cards_before_end(bytes, start as int, 0) {
        None => Err("no END card in FITS header"@),
        Some(n) => {
            let cards = first_cards(bytes, start as int, n);
            let data_start = start + in_blocks((80 * (n + 1)) as nat);
            match data_bytes(cards) {
                None => Err("invalid data size in FITS header"@),
                Some(size) => if data_start + in_blocks(size) > usize::MAX {
                    Err("invalid data size in FITS header"@)
                } else {
                    Ok(
                        HduView {
                            cards,
                            header_start: start,
                            data_start,
                            next_hdu_offset: data_start + in_blocks(size),
                        },
                    )
                },
            }
        },
    }
}

/// A header unit of a file.
#[derive(Debug)]
pub struct SourceHdu {
    pub header: HduHeader,
    pub header_start: usize,
    pub data_start: usize,
    pub next_hdu_offset: usize,
}

impl View for SourceHdu {
    type V = HduView;

    open spec fn view(&self) -> HduView {
        HduView {
            cards: self.header@,
            header_start: self.header_start as nat,
            data_start: self.data_start as nat,
            next_hdu_offset: self.next_hdu_offset as nat,
        }
    }
}

/// The characters of some bytes.
pub(crate) fn text_from(bytes: &[u8], from: usize, to: usize) -> (s: String)
    requires
        from <= to <= bytes@.len(),
    ensures
        s@ == as_text(bytes@.subrange(from as int, to as int)),
{
    let mut s = String::new();
    let mut i: usize = from;
    while i < to
        invariant
            from <= i <= to <= bytes@.len(),
            s@ == as_text(bytes@.subrange(from as int, i as int)),
        decreases to - i,
    {
        s.push(bytes[i] as char);
        i = i + 1;
        assert(s@ =~= as_text(bytes@.subrange(from as int, i as int)));
    }
    s
}

/// The text between quotes, from behind the first one.
fn unquote(s: &str) -> (r: String)
    ensures
        r@ == unquoted(s@),
{
    let v = chars_of(s);
    let mut r = String::new();
    let mut i: usize = 0;
    assert(s@.skip(0) =~= s@);
    assert(r@ + unquoted(s@) =~= unquoted(s@));
    while i < v.len()
        invariant
            i <= v@.len(),
            v@ == s@,
            unquoted(s@) == r@ + unquoted(s@.skip(i as int)),
        decreases v.len() - i,
    {
        let ghost left = s@.skip(i as int);
        let ghost before = r@;
        if v[i] == '\'' {
            if v.len() - i > 1 && v[i + 1] == '\'' {
                assert(left[0] == '\'' && left[1] == '\'');
                r.push('\'');
                assert(left.skip(2) =~= s@.skip(i + 2));
                assert(before + unquoted(left) =~= r@ + unquoted(left.skip(2)));
                i = i + 2;
            } else {
                assert(left[0] == '\'');
                assert(unquoted(left) =~= Seq::<char>::empty());
                assert(r@ + Seq::<char>::empty() =~= r@);
                return r;
            }
        } else {
            r.push(v[i]);
            assert(left.skip(1) =~= s@.skip(i + 1));
            assert(before + unquoted(left) =~= r@ + unquoted(left.skip(1)));
            i = i + 1;
        }
    }
    assert(unquoted(s@.skip(i as int)) =~= Seq::<char>::empty());
    assert(r@ + Seq::<char>::empty() =~= r@);
    r
}

/// The value in a value field.
fn read_value(field: &str) -> (r: String)
    ensures
        r@ == value_in(field@),
{
    let f = trim_start(field);
    let n: usize = f.unicode_len();
    if n > 0 && f.get_char(0) == '\'' {
        let body = f.substring_char(1, n);
        assert(body@ =~= f@.skip(1));
        let text = unquote(body);
        trim_end(text.as_str()).to_owned()
    } else {
        match split_once(f, '/') {
            Some((value, _)) => trim(value).to_owned(),
            None => {
                assert(f@.take(f@.len() as int) =~= f@);
                trim(f).to_owned()
            },
        }
    }
}

/// Whether the card at `at` ends a header.
pub(crate) fn ends_header(bytes: &[u8], at: usize) -> (b: bool)
    requires
        at + 80 <= bytes@.len(),
    ensures
        b == is_end(bytes@.subrange(at as int, at + 80)),
{
    let ghost card = bytes@.subrange(at as int, at + 80);
    let bytes_len: usize = bytes.len();
    if bytes[at] != 0x45 || bytes[at + 1] != 0x4e || bytes[at + 2] != 0x44 {
        return false;
    }
    let mut i: usize = 3;
    while i < 8
        invariant
            at + 80 <= bytes_len == bytes@.len(),
            card == bytes@.subrange(at as int, at + 80),
            3 <= i <= 8,
            forall|j: int| 3 <= j < i ==> #[trigger] card[j] == 0x20,
        decreases 8 - i,
    {
        if bytes[at + i] != 0x20 {
            assert(card[i as int] != 0x20);
            return false;
        }
        i = i + 1;
    }
    true
}

/// The cards of the header that starts at `start`, with the number of cards before the last one.
fn read_cards(bytes: &[u8], start: usize) -> (r: Option<(HduHeader, usize)>)
    requires
        start <= bytes@.len(),
    ensures
        match r {
            Some((header, n)) => {
                &&& cards_before_end(bytes@, start as int, 0) == Some(n as int)
                &&& header@ == first_cards(bytes@, start as int, n as int)
                &&& start + 80 * n + 80 <= bytes@.len()
            },
            None => cards_before_end(bytes@, start as int, 0) is None,
        },
{
    let mut header = HduHeader { cards: Vec::new() };
    let mut n: usize = 0;
    let mut at: usize = start;
    let len: usize = bytes.len();
    assert(header@ =~= first_cards(bytes@, start as int, 0));
    loop
        invariant
            len == bytes@.len(),
            start <= at <= len,
            at == start + 80 * n,
            cards_before_end(bytes@, start as int, 0) == cards_before_end(
                bytes@,
                start as int,
                n as int,
            ),
            header@ == first_cards(bytes@, start as int, n as int),
        decreases len - at,
    {
        if len - at < 80 {
            return None;
        }
        if ends_header(bytes, at) {
            return Some((header, n));
        }
        let ghost card = card_at(bytes@, start as int, n as int);
        let ghost before = header@;
        if bytes[at + 8] == 0x3d && bytes[at + 9] == 0x20 {
            let name = text_from(bytes, at, at + 8);
            let field = text_from(bytes, at + 10, at + 80);
            assert(bytes@.subrange(at as int, at + 8) =~= card.subrange(0, 8));
            assert(bytes@.subrange(at + 10, at + 80) =~= card.subrange(10, 80));
            let key = trim(name.as_str()).to_owned();
            let value = read_value(field.as_str());
            header.cards.push(HeaderCard { key, value });
            assert(header@ =~= before.push(card_view(card)));
        }
        at = at + 80;
        n = n + 1;
    }
}

/// The product of the axes.
fn product_of_axes(header: &HduHeader, naxis: u64) -> (r: Option<u64>)
    requires
        naxis <= MAX_NAXIS,
    ensures
        match r {
            Some(p) => axes_product(header@, naxis as nat) == Some(p as nat) && p <= i64::MAX,
            None => axes_product(header@, naxis as nat) is None,
        },
{
    let mut p: u64 = 1;
    let mut i: u64 = 0;
    while i < naxis
        invariant
            i <= naxis <= MAX_NAXIS,
            p <= i64::MAX,
            axes_product(header@, i as nat) == Some(p as nat),
        decreases naxis - i,
    {
        let mut key = "NAXIS".to_owned();
        let digits = format_unsigned(i + 1);
        key.append(digits.as_str());
        let axis: i64 = match header.get_i64(key.as_str()) {
            Some(v) => v,
            None => 0,
        };
        assert(axis == axis_of(header@, (i + 1) as nat));
        proof {
            assert(axis >= 0 ==> 0 <= p * axis <= 9223372036854775807 * 9223372036854775807)
                by (nonlinear_arith)
                requires
                    0 <= p <= 9223372036854775807,
                    axis <= 9223372036854775807,
            ;
        }
        if axis < 0 || (p as u128) * (axis as u128) > i64::MAX as u128 {
            proof {
                lemma_no_product(header@, (i + 1) as nat, naxis as nat);
            }
            return None;
        }
        p = p * (axis as u64);
        i = i + 1;
    }
    Some(p)
}

proof fn lemma_no_product(cards: Seq<CardView>, i: nat, n: nat)
    requires
        i <= n,
        axes_product(cards, i) is None,
    ensures
        axes_product(cards, n) is None,
    decreases n - i,
{
    if i < n {
        lemma_no_product(cards, i + 1, n);
    }
}

/// The bytes of a unit's data, in whole blocks.
fn blocks_of_data(header: &HduHeader) -> (r: Option<u64>)
    ensures
        match r {
            Some(n) => data_bytes(header@) is Some && n == in_blocks(data_bytes(header@)->0),
            None => data_bytes(header@) is None || in_blocks(data_bytes(header@)->0) > usize::MAX,
        },
{
    let naxis: i64 = match header.get_i64("NAXIS") {
        Some(n) => n,
        None => 0,
    };
    if naxis <= 0 {
        return Some(0);
    }
    if naxis > MAX_NAXIS {
        return None;
    }
    let bitpix: i64 = match header.get_i64("BITPIX") {
        Some(n) => n,
        None => 0,
    };
    let gcount: i64 = match header.get_i64("GCOUNT") {
        Some(n) => n,
        None => 1,
    };
    let pcount: i64 = match header.get_i64("PCOUNT") {
        Some(n) => n,
        None => 0,
    };
    let p: u64 = match product_of_axes(header, naxis as u64) {
        Some(p) => p,
        None => {
            return None;
        },
    };
    if gcount < 0 || pcount < 0 {
        return None;
    }
    let width: u64 = if bitpix >= 0 {
        bitpix as u64 / 8
    } else if bitpix == i64::MIN {
        9223372036854775808u64 / 8
    } else {
        (-bitpix) as u64 / 8
    };
    assert(width == pixel_bytes(bitpix as int));
    let items: u128 = pcount as u128 + p as u128;
    proof {
        assert(0 <= gcount * items <= 9223372036854775807 * 18446744073709551616) by (nonlinear_arith)
            requires
                0 <= gcount <= 9223372036854775807,
                0 <= items <= 18446744073709551616,
        ;
    }
    let cells: u128 = (gcount as u128) * items;
    assert(cells == gcount * (pcount + p));
    if width == 0 {
        assert(width * cells == 0);
        return Some(0);
    }
    if cells > 18446744073709551615 {
        proof {
            assert(width * cells >= cells) by (nonlinear_arith)
                requires
                    width >= 1,
                    cells >= 0,
            ;
            lemma_blocks_cover((width * cells) as nat);
        }
        return None;
    }
    proof {
        assert(0 <= width * cells <= 1152921504606846976 * 18446744073709551615) by (nonlinear_arith)
            requires
                0 <= width <= 1152921504606846976,
                0 <= cells <= 18446744073709551615,
        ;
    }
    let size: u128 = (width as u128) * cells;
    block_end(size)
}

/// A size in whole blocks, where that fits 64 bits.
fn block_end(size: u128) -> (r: Option<u64>)
    requires
        size <= 1152921504606846976 * 18446744073709551615,
    ensures
        match r {
            Some(n) => n == in_blocks(size as nat),
            None => in_blocks(size as nat) > u64::MAX,
        },
{
    let end: u128 = ((size + 2879) / 2880) * 2880;
    if end > u64::MAX as u128 {
        None
    } else {
        Some(end as u64)
    }
}

proof fn lemma_blocks_cover(n: nat)
    ensures
        n <= in_blocks(n) < n + 2880,
{
}

/// Reads the header unit that starts at `start`: its cards, and where its data and the next unit
/// lie.
pub fn parse_header_at(bytes: &[u8], start: usize) -> (r: Result<SourceHdu, String>)
    requires
        start <= bytes@.len(),
    ensures
        match (r, hdu_at(bytes@, start as nat)) {
            (Ok(hdu), Ok(want)) => hdu@ == want,
            (Err(e), Err(want)) => e@ == want,
            _ => false,
        },
        r matches Ok(hdu) ==> start < hdu.next_hdu_offset,
{
    match read_cards(bytes, start) {
        None => Err("no END card in FITS header".to_owned()),
        Some((header, n)) => {
            let end: u128 = ((((n as u128) + 1) * 80 + 2879) / 2880) * 2880;
            assert(end == in_blocks((80 * (n + 1)) as nat));
            let data_start: u128 = start as u128 + end;
            match blocks_of_data(&header) {
                None => Err("invalid data size in FITS header".to_owned()),
                Some(size) => {
                    let next: u128 = data_start + size as u128;
                    if next > usize::MAX as u128 {
                        return Err("invalid data size in FITS header".to_owned());
                    }
                    Ok(
                        SourceHdu {
                            header,
                            header_start: start,
                            data_start: data_start as usize,
                            next_hdu_offset: next as usize,
                        },
                    )
                },
            }
        },
    }
}

/// A number in a header is one of 64 bits.
pub(crate) proof fn lemma_numbers_fit(cards: Seq<CardView>, key: Seq<char>)
    ensures
        lookup_number(cards, key) matches Some(n) ==> i64::MIN <= n <= i64::MAX,
{
}

} // verus!
