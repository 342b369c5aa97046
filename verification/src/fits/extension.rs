//! The extension that holds a compressed image: a table of one tile for each row of pixels, behind
//! a header that says how the image was compressed and what its own header said.

use vstd::prelude::*;
use vstd::string::*;
use crate::fits::cards::{
    are_cards, card_bytes, card_seqs, fill_block, has_no_space, header_bytes, header_reads_back,
    is_ascii_text, is_key, is_plain, is_quotable, lemma_decimal, lemma_lookup_at,
    lemma_lookup_concat, lemma_lookup_none, lemma_lookup_push, lemma_number_in_card,
    lemma_values_concat, plain_card, plain_card_reads_back, plain_field,
    quoted_card, quoted_card_reads_back, quoted_field, values_of, write_header,
};
use crate::fits::header::{
    as_text, axes_product, axis_of, card_at, card_view, cards_before_end, data_bytes, ends_header,
    first_cards, hdu_at, has_value, in_blocks, is_end, lookup, lookup_number, number_or,
    pixel_bytes, text_from, CardView, HduView, CARD_SIZE,
};
use crate::text::{decimal, format_unsigned, is_space, same, starts_with, trim, trimmed};

verus! {

/// The key of a card.
pub open spec fn key_of(card: Seq<u8>) -> Seq<char> {
    trimmed(as_text(card.subrange(0, 8)))
}

/// Whether a key says how the data of a unit is stored, which the compressed copy says anew.
pub open spec fn says_how_stored(key: Seq<char>) -> bool {
    ||| key == "SIMPLE"@
    ||| key == "XTENSION"@
    ||| key == "BITPIX"@
    ||| key == "PCOUNT"@
    ||| key == "GCOUNT"@
    ||| key == "EXTEND"@
    ||| key == "TFIELDS"@
    ||| key == "THEAP"@
    ||| key == "CHECKSUM"@
    ||| key == "DATASUM"@
    ||| key == "ZIMAGE"@
    ||| key == "ZCMPTYPE"@
    ||| key == "ZBITPIX"@
    ||| key == "ZQUANTIZ"@
    ||| key == "ZDITHER0"@
    ||| key == "ZBLANK"@
    ||| "NAXIS"@.is_prefix_of(key)
    ||| "TTYPE"@.is_prefix_of(key)
    ||| "TFORM"@.is_prefix_of(key)
    ||| "ZNAXIS"@.is_prefix_of(key)
    ||| "ZTILE"@.is_prefix_of(key)
    ||| "ZNAME"@.is_prefix_of(key)
    ||| "ZVAL"@.is_prefix_of(key)
}

/// Whether a key scales the stored numbers. Quantized numbers are scaled already.
pub open spec fn says_how_scaled(key: Seq<char>) -> bool {
    key == "BSCALE"@ || key == "BZERO"@ || key == "BLANK"@
}

/// Whether a card is not carried over.
pub open spec fn is_dropped(key: Seq<char>, quantized: bool) -> bool {
    says_how_stored(key) || (quantized && says_how_scaled(key))
}

fn drops(key: &str, quantized: bool) -> (b: bool)
    ensures
        b == is_dropped(key@, quantized),
{
    let stored = same(key, "SIMPLE") || same(key, "XTENSION") || same(key, "BITPIX") || same(
        key,
        "PCOUNT",
    ) || same(key, "GCOUNT") || same(key, "EXTEND") || same(key, "TFIELDS") || same(key, "THEAP")
        || same(key, "CHECKSUM") || same(key, "DATASUM") || same(key, "ZIMAGE") || same(
        key,
        "ZCMPTYPE",
    ) || same(key, "ZBITPIX") || same(key, "ZQUANTIZ") || same(key, "ZDITHER0") || same(
        key,
        "ZBLANK",
    ) || starts_with(key, "NAXIS") || starts_with(key, "TTYPE") || starts_with(key, "TFORM")
        || starts_with(key, "ZNAXIS") || starts_with(key, "ZTILE") || starts_with(key, "ZNAME")
        || starts_with(key, "ZVAL");
    stored || (quantized && (same(key, "BSCALE") || same(key, "BZERO") || same(key, "BLANK")))
}

/// The cards among the first `n` of a header that are carried over.
pub open spec fn kept_of(bytes: Seq<u8>, start: int, n: int, quantized: bool) -> Seq<Seq<u8>>
    decreases n,
{
    if n <= 0 {
        Seq::empty()
    } else {
        let before = kept_of(bytes, start, n - 1, quantized);
        let card = card_at(bytes, start, n - 1);
        if is_dropped(key_of(card), quantized) {
            before
        } else {
            before.push(card)
        }
    }
}

/// The cards of the header at `start` that are carried over.
pub open spec fn kept_cards(bytes: Seq<u8>, start: int, quantized: bool) -> Seq<Seq<u8>> {
    match cards_before_end(bytes, start, 0) {
        Some(n) => kept_of(bytes, start, n, quantized),
        None => Seq::empty(),
    }
}

/// Collects the cards that are carried over.
pub fn keep_cards(bytes: &[u8], start: usize, quantized: bool) -> (kept: Vec<Vec<u8>>)
    requires
        start <= bytes@.len(),
    ensures
        card_seqs(kept@) == kept_cards(bytes@, start as int, quantized),
{
    let mut kept: Vec<Vec<u8>> = Vec::new();
    let mut at: usize = start;
    let len: usize = bytes.len();
    let ghost mut n: int = 0;
    assert(card_seqs(kept@) =~= kept_of(bytes@, start as int, 0, quantized));
    loop
        invariant
            len == bytes@.len(),
            start <= at <= len,
            n >= 0,
            at == start + 80 * n,
            cards_before_end(bytes@, start as int, 0) == cards_before_end(bytes@, start as int, n),
            card_seqs(kept@) == kept_of(bytes@, start as int, n, quantized),
        decreases len - at,
    {
        if len - at < 80 {
            let none: Vec<Vec<u8>> = Vec::new();
            assert(card_seqs(none@) =~= Seq::<Seq<u8>>::empty());
            return none;
        }
        if ends_header(bytes, at) {
            return kept;
        }
        let ghost card = card_at(bytes@, start as int, n);
        let ghost before = card_seqs(kept@);
        let name = text_from(bytes, at, at + 8);
        assert(bytes@.subrange(at as int, at + 8) =~= card.subrange(0, 8));
        if !drops(trim(name.as_str()), quantized) {
            let copy = vstd::slice::slice_to_vec(
                vstd::slice::slice_subrange(bytes, at, at + CARD_SIZE),
            );
            assert(copy@ =~= card);
            kept.push(copy);
            assert(card_seqs(kept@) =~= before.push(card));
        }
        at = at + CARD_SIZE;
        proof {
            n = n + 1;
        }
    }
}

pub(crate) proof fn lemma_before_end(bytes: Seq<u8>, start: int, i: int, n: int)
    requires
        cards_before_end(bytes, start, i) == Some(n),
    ensures
        0 <= start,
        0 <= i <= n,
        start + 80 * (n + 1) <= bytes.len(),
        is_end(card_at(bytes, start, n)),
        forall|j: int| i <= j < n ==> !is_end(#[trigger] card_at(bytes, start, j)),
    decreases n - i, bytes.len() - start - 80 * i,
{
    if !is_end(card_at(bytes, start, i)) {
        lemma_before_end_bound(bytes, start, i + 1);
        lemma_before_end(bytes, start, i + 1, n);
    }
}

proof fn lemma_before_end_bound(bytes: Seq<u8>, start: int, i: int)
    ensures
        cards_before_end(bytes, start, i) matches Some(n) ==> i <= n,
    decreases bytes.len() - start - 80 * i,
{
    if start >= 0 && i >= 0 && start + 80 * i + 80 <= bytes.len() {
        lemma_before_end_bound(bytes, start, i + 1);
    }
}

proof fn lemma_kept(bytes: Seq<u8>, start: int, n: int, quantized: bool, key: Seq<char>)
    requires
        0 <= n,
        0 <= start,
        start + 80 * n <= bytes.len(),
        forall|j: int| 0 <= j < n ==> !is_end(#[trigger] card_at(bytes, start, j)),
    ensures
        are_cards(kept_of(bytes, start, n, quantized)),
        lookup(values_of(kept_of(bytes, start, n, quantized)), key) == if is_dropped(
            key,
            quantized,
        ) {
            None
        } else {
            lookup(first_cards(bytes, start, n), key)
        },
    decreases n,
{
    if n > 0 {
        lemma_kept(bytes, start, n - 1, quantized, key);
        let before = kept_of(bytes, start, n - 1, quantized);
        let kept = kept_of(bytes, start, n, quantized);
        let card = card_at(bytes, start, n - 1);
        let c = card_view(card);
        if has_value(card) {
            lemma_lookup_push(first_cards(bytes, start, n - 1), c, key);
        }
        if !is_dropped(key_of(card), quantized) {
            assert(kept.drop_last() =~= before);
            assert forall|i: int| 0 <= i < kept.len() implies (#[trigger] kept[i]).len() == 80
                && !is_end(kept[i]) by {
                if i < before.len() {
                    assert(kept[i] == before[i]);
                }
            }
            if has_value(card) {
                lemma_lookup_push(values_of(before), c, key);
            }
        }
    }
}

/// What is carried over from a header says the same as the header, of every key that is not
/// written anew; of those it says nothing.
pub proof fn carried_cards_say_the_same(
    bytes: Seq<u8>,
    start: nat,
    quantized: bool,
    key: Seq<char>,
)
    ensures
        hdu_at(bytes, start) matches Ok(hdu) ==> {
            &&& are_cards(kept_cards(bytes, start as int, quantized))
            &&& lookup(values_of(kept_cards(bytes, start as int, quantized)), key)
                == if is_dropped(key, quantized) {
                None
            } else {
                lookup(hdu.cards, key)
            }
        },
{
    if let Some(n) = cards_before_end(bytes, start as int, 0) {
        lemma_before_end(bytes, start as int, 0, n);
        lemma_kept(bytes, start as int, n, quantized, key);
    }
}

/// A number as `d` bytes, most significant first.
pub open spec fn big_endian(n: nat, d: nat) -> Seq<u8>
    decreases d,
{
    if d == 0 {
        Seq::empty()
    } else {
        big_endian(n / 256, (d - 1) as nat).push((n % 256) as u8)
    }
}

/// The number in some bytes, most significant first.
pub open spec fn from_big_endian(s: Seq<u8>) -> nat
    decreases s.len(),
{
    if s.len() == 0 {
        0
    } else {
        from_big_endian(s.drop_last()) * 256 + s.last() as nat
    }
}

fn be_bytes(n: u64, d: usize) -> (v: Vec<u8>)
    ensures
        v@ == big_endian(n as nat, d as nat),
    decreases d,
{
    if d == 0 {
        let v: Vec<u8> = Vec::new();
        assert(v@ =~= big_endian(n as nat, 0));
        v
    } else {
        let mut v = be_bytes(n / 256, d - 1);
        v.push((n % 256) as u8);
        v
    }
}

spec fn fits(n: nat, d: nat) -> bool
    decreases d,
{
    if d == 0 {
        n == 0
    } else {
        fits(n / 256, (d - 1) as nat)
    }
}

proof fn lemma_big_endian_len(n: nat, d: nat)
    ensures
        big_endian(n, d).len() == d,
    decreases d,
{
    if d > 0 {
        lemma_big_endian_len(n / 256, (d - 1) as nat);
    }
}

proof fn lemma_big_endian(n: nat, d: nat)
    requires
        fits(n, d),
    ensures
        big_endian(n, d).len() == d,
        from_big_endian(big_endian(n, d)) == n,
    decreases d,
{
    if d > 0 {
        lemma_big_endian(n / 256, (d - 1) as nat);
        assert(big_endian(n, d).drop_last() =~= big_endian(n / 256, (d - 1) as nat));
    }
}

proof fn lemma_fits(n: nat)
    ensures
        n <= u32::MAX ==> fits(n, 4),
        n <= u64::MAX ==> fits(n, 8),
{
    reveal_with_fuel(fits, 9);
}

/// Parts one behind the other.
pub open spec fn joined(parts: Seq<Seq<u8>>) -> Seq<u8>
    decreases parts.len(),
{
    if parts.len() == 0 {
        Seq::empty()
    } else {
        joined(parts.drop_last()) + parts.last()
    }
}

pub(crate) proof fn lemma_part_of_joined(parts: Seq<Seq<u8>>, i: int)
    requires
        0 <= i < parts.len(),
    ensures
        joined(parts.take(i)).len() + parts[i].len() <= joined(parts).len(),
        joined(parts).subrange(
            joined(parts.take(i)).len() as int,
            (joined(parts.take(i)).len() + parts[i].len()) as int,
        ) == parts[i],
    decreases parts.len(),
{
    let all = joined(parts);
    let front = joined(parts.drop_last());
    let from = joined(parts.take(i)).len() as int;
    if i == parts.len() - 1 {
        assert(parts.take(i) =~= parts.drop_last());
        assert(all.subrange(from, from + parts[i].len()) =~= parts[i]);
    } else {
        lemma_part_of_joined(parts.drop_last(), i);
        assert(parts.drop_last().take(i) =~= parts.take(i));
        assert(all.subrange(from, from + parts[i].len()) =~= front.subrange(
            from,
            from + parts[i].len(),
        ));
    }
}

proof fn lemma_equal_parts(parts: Seq<Seq<u8>>, width: nat)
    requires
        forall|i: int| 0 <= i < parts.len() ==> (#[trigger] parts[i]).len() == width,
    ensures
        joined(parts).len() == parts.len() * width,
    decreases parts.len(),
{
    let n = parts.len() as int;
    if n > 0 {
        let front = parts.drop_last();
        assert forall|i: int| 0 <= i < front.len() implies (#[trigger] front[i]).len() == width by {
            assert(front[i] == parts[i]);
        }
        lemma_equal_parts(front, width);
        assert(n * width == (n - 1) * width + width) by (nonlinear_arith);
    } else {
        assert(0 * width == 0) by (nonlinear_arith);
    }
}

/// Where tile `i` starts in the heap.
pub open spec fn tile_start(tiles: Seq<Seq<u8>>, i: int) -> nat {
    joined(tiles.take(i)).len()
}

/// The scale and the zero point of a quantized row, as the bits of two floating point numbers.
#[derive(Debug, Clone, Copy, PartialEq, Eq)]
pub struct RowScale {
    pub scale: u64,
    pub zero: u64,
}

/// The bytes of each of the two numbers of a descriptor: eight where the heap is too long for
/// four.
pub open spec fn descriptor_width(heap: nat) -> nat {
    if heap > i32::MAX {
        8
    } else {
        4
    }
}

/// Row `i` of the table: how long its tile is and where it starts, and for a quantized image its
/// scale and zero point.
pub open spec fn table_row(
    tiles: Seq<Seq<u8>>,
    scales: Option<Seq<RowScale>>,
    i: int,
) -> Seq<u8> {
    let d = descriptor_width(joined(tiles).len());
    big_endian(tiles[i].len(), d) + big_endian(tile_start(tiles, i), d) + (match scales {
        Some(s) => big_endian(s[i].scale as nat, 8) + big_endian(s[i].zero as nat, 8),
        None => Seq::empty(),
    })
}

/// The bytes of a row of the table.
pub open spec fn row_width(heap: nat, quantized: bool) -> nat {
    2 * descriptor_width(heap) + if quantized {
        16nat
    } else {
        0
    }
}

/// The rows of the table.
pub open spec fn table_rows(tiles: Seq<Seq<u8>>, scales: Option<Seq<RowScale>>) -> Seq<Seq<u8>> {
    Seq::new(tiles.len(), |i: int| table_row(tiles, scales, i))
}

/// The table and its heap.
pub open spec fn table_data(tiles: Seq<Seq<u8>>, scales: Option<Seq<RowScale>>) -> Seq<u8> {
    joined(table_rows(tiles, scales)) + joined(tiles)
}

/// The bytes of the table and its heap.
pub open spec fn table_size(tiles: Seq<Seq<u8>>, quantized: bool) -> nat {
    tiles.len() * row_width(joined(tiles).len(), quantized) + joined(tiles).len()
}

proof fn lemma_row_len(tiles: Seq<Seq<u8>>, scales: Option<Seq<RowScale>>, i: int)
    ensures
        table_row(tiles, scales, i).len() == row_width(joined(tiles).len(), scales is Some),
{
    let d = descriptor_width(joined(tiles).len());
    lemma_big_endian_len(tiles[i].len(), d);
    lemma_big_endian_len(tile_start(tiles, i), d);
    if let Some(s) = scales {
        lemma_big_endian_len(s[i].scale as nat, 8);
        lemma_big_endian_len(s[i].zero as nat, 8);
    }
}

pub(crate) proof fn lemma_table_size(tiles: Seq<Seq<u8>>, scales: Option<Seq<RowScale>>)
    ensures
        joined(table_rows(tiles, scales)).len() == tiles.len() * row_width(
            joined(tiles).len(),
            scales is Some,
        ),
        table_data(tiles, scales).len() == table_size(tiles, scales is Some),
{
    let rows = table_rows(tiles, scales);
    let width = row_width(joined(tiles).len(), scales is Some);
    assert forall|i: int| 0 <= i < rows.len() implies (#[trigger] rows[i]).len() == width by {
        lemma_row_len(tiles, scales, i);
    }
    lemma_equal_parts(rows, width);
}

/// Row `i` of a table whose rows have `width` bytes.
pub open spec fn row_in(data: Seq<u8>, width: int, i: int) -> Seq<u8> {
    data.subrange(i * width, i * width + width)
}

/// The number of `d` bytes at `at` in a row.
pub open spec fn number_in(row: Seq<u8>, at: int, d: int) -> int {
    from_big_endian(row.subrange(at, at + d)) as int
}

/// What the descriptor of row `i` leads to, in a table of `rows` rows of `width` bytes whose
/// descriptors are numbers of `d` bytes.
pub open spec fn tile_found(data: Seq<u8>, rows: int, width: int, d: int, i: int) -> Seq<u8> {
    let row = row_in(data, width, i);
    let len = number_in(row, 0, d);
    let start = rows * width + number_in(row, d, d);
    data.subrange(start, start + len)
}

/// Every tile is found through its descriptor: row `i` of the table says how long tile `i` is and
/// where in the heap it starts, and there it lies; behind the descriptor of a quantized row stand
/// its scale and its zero point.
pub proof fn tiles_are_found(tiles: Seq<Seq<u8>>, scales: Option<Seq<RowScale>>, i: int)
    requires
        0 <= i < tiles.len(),
        joined(tiles).len() <= i64::MAX,
    ensures
        ({
            let data = table_data(tiles, scales);
            let d = descriptor_width(joined(tiles).len()) as int;
            let width = row_width(joined(tiles).len(), scales is Some) as int;
            let row = row_in(data, width, i);
            &&& 0 <= i * width
            &&& i * width + width <= tiles.len() * width
            &&& tiles.len() * width + number_in(row, d, d) + number_in(row, 0, d) <= data.len()
            &&& tile_found(data, tiles.len() as int, width, d, i) == tiles[i]
            &&& scales matches Some(s) ==> {
                &&& number_in(row, 2 * d, 8) == s[i].scale
                &&& number_in(row, 2 * d + 8, 8) == s[i].zero
            }
        }),
{
    let rows = table_rows(tiles, scales);
    let data = table_data(tiles, scales);
    let heap = joined(tiles).len();
    let dn = descriptor_width(heap);
    let d = dn as int;
    let wn = row_width(heap, scales is Some);
    let width = wn as int;
    let front = joined(rows);
    lemma_table_size(tiles, scales);
    assert forall|k: int| 0 <= k < rows.len() implies (#[trigger] rows[k]).len() == wn by {
        lemma_row_len(tiles, scales, k);
    }
    let before = rows.take(i);
    assert forall|k: int| 0 <= k < before.len() implies (#[trigger] before[k]).len() == wn by {
        assert(before[k] == rows[k]);
    }
    lemma_equal_parts(before, wn);
    lemma_part_of_joined(rows, i);
    lemma_part_of_joined(tiles, i);
    let from = i * width;
    assert(joined(before).len() == from);
    let row = row_in(data, width, i);
    assert(row =~= front.subrange(from, from + width));
    assert(row == table_row(tiles, scales, i));
    let start = tile_start(tiles, i);
    let len = tiles[i].len();
    lemma_fits(len);
    lemma_fits(start);
    lemma_big_endian(len, dn);
    lemma_big_endian(start, dn);
    assert(row.subrange(0, d) =~= big_endian(len, dn));
    assert(row.subrange(d, d + d) =~= big_endian(start, dn));
    let rows_len = tiles.len() * width;
    assert(data.subrange(rows_len + start, rows_len + start + len) =~= joined(tiles).subrange(
        start as int,
        (start + len) as int,
    ));
    if let Some(s) = scales {
        lemma_fits(s[i].scale as nat);
        lemma_fits(s[i].zero as nat);
        lemma_big_endian(s[i].scale as nat, 8);
        lemma_big_endian(s[i].zero as nat, 8);
        assert(row.subrange(2 * d, 2 * d + 8) =~= big_endian(s[i].scale as nat, 8));
        assert(row.subrange(2 * d + 8, 2 * d + 8 + 8) =~= big_endian(s[i].zero as nat, 8));
    }
}

/// The image that an extension holds: its axes, and how its pixels are stored uncompressed. A
/// negative `bitpix` stands for floating point numbers, which are quantized.
#[derive(Debug, Clone, Copy, PartialEq, Eq)]
pub struct ImageShape {
    pub width: usize,
    pub height: usize,
    pub planes: usize,
    pub bitpix: i64,
}

impl ImageShape {
    /// Whether the pixels are quantized.
    pub open spec fn quantized(&self) -> bool {
        self.bitpix < 0
    }

    /// The bytes of a pixel that is coded.
    pub open spec fn coded_bytes(&self) -> nat {
        if self.bitpix < 0 {
            4
        } else {
            (self.bitpix / 8) as nat
        }
    }

    /// The rows of pixels of all planes.
    pub open spec fn rows(&self) -> nat {
        if self.width == 0 {
            0
        } else {
            (self.planes * self.height) as nat
        }
    }
}

/// The length of the longest tile.
pub open spec fn longest(tiles: Seq<Seq<u8>>) -> nat
    decreases tiles.len(),
{
    if tiles.len() == 0 {
        0
    } else {
        let before = longest(tiles.drop_last());
        if tiles.last().len() > before {
            tiles.last().len()
        } else {
            before
        }
    }
}

/// The numbers of a table: its rows, their width, the bytes of its heap, and the longest tile.
#[derive(Debug, Clone, Copy, PartialEq, Eq)]
pub struct TableNumbers {
    pub rows: u64,
    pub width: u64,
    pub heap: u64,
    pub widest: u64,
}

/// The numbers of the table of some tiles.
pub open spec fn are_numbers_of(n: TableNumbers, tiles: Seq<Seq<u8>>, quantized: bool) -> bool {
    &&& n.rows == tiles.len()
    &&& n.width == row_width(joined(tiles).len(), quantized)
    &&& n.heap == joined(tiles).len()
    &&& n.widest == longest(tiles)
}

/// A card that an extension writes itself.
pub struct OwnCard {
    pub key: Seq<char>,
    pub text: Seq<char>,
    pub quoted: bool,
}

/// The card as bytes.
pub open spec fn own_bytes(c: OwnCard) -> Seq<u8> {
    card_bytes(
        c.key,
        if c.quoted {
            quoted_field(c.text)
        } else {
            plain_field(c.text)
        },
    )
}

/// A card of a text.
pub open spec fn word(key: Seq<char>, text: Seq<char>) -> OwnCard {
    OwnCard { key, text, quoted: true }
}

/// A card of a number or a flag.
pub open spec fn plain(key: Seq<char>, text: Seq<char>) -> OwnCard {
    OwnCard { key, text, quoted: false }
}

/// The format of the column of tiles.
pub open spec fn tile_format(n: TableNumbers) -> Seq<char> {
    (if n.heap > i32::MAX {
        "1QB("@
    } else {
        "1PB("@
    }) + decimal(n.widest as nat) + ")"@
}

/// Card `i` of those that every extension has.
pub open spec fn common_card(image: ImageShape, n: TableNumbers, i: int) -> OwnCard {
    if i == 0 {
        word("XTENSION"@, "BINTABLE"@)
    } else if i == 1 {
        plain("BITPIX"@, "8"@)
    } else if i == 2 {
        plain("NAXIS"@, "2"@)
    } else if i == 3 {
        plain("NAXIS1"@, decimal(n.width as nat))
    } else if i == 4 {
        plain("NAXIS2"@, decimal(n.rows as nat))
    } else if i == 5 {
        plain("PCOUNT"@, decimal(n.heap as nat))
    } else if i == 6 {
        plain("GCOUNT"@, "1"@)
    } else if i == 7 {
        plain(
            "TFIELDS"@,
            if image.quantized() {
                "3"@
            } else {
                "1"@
            },
        )
    } else if i == 8 {
        word("TTYPE1"@, "COMPRESSED_DATA"@)
    } else if i == 9 {
        word("TFORM1"@, tile_format(n))
    } else if i == 10 {
        plain("ZIMAGE"@, "T"@)
    } else if i == 11 {
        word("ZCMPTYPE"@, "RICE_1"@)
    } else if i == 12 {
        plain(
            "ZBITPIX"@,
            if image.quantized() {
                "-32"@
            } else {
                decimal(image.bitpix as nat)
            },
        )
    } else if i == 13 {
        plain(
            "ZNAXIS"@,
            if image.planes == 1 {
                "2"@
            } else {
                "3"@
            },
        )
    } else if i == 14 {
        plain("ZNAXIS1"@, decimal(image.width as nat))
    } else if i == 15 {
        plain("ZNAXIS2"@, decimal(image.height as nat))
    } else if i == 16 {
        plain("ZTILE1"@, decimal(image.width as nat))
    } else if i == 17 {
        plain("ZTILE2"@, "1"@)
    } else if i == 18 {
        word("ZNAME1"@, "BLOCKSIZE"@)
    } else if i == 19 {
        plain("ZVAL1"@, "32"@)
    } else if i == 20 {
        word("ZNAME2"@, "BYTEPIX"@)
    } else {
        plain("ZVAL2"@, decimal(image.coded_bytes()))
    }
}

/// The cards that every extension has.
pub open spec fn common_cards(image: ImageShape, n: TableNumbers) -> Seq<OwnCard> {
    Seq::new(22, |i: int| common_card(image, n, i))
}

/// The cards of an image that is not one plane.
pub open spec fn cube_cards(image: ImageShape) -> Seq<OwnCard> {
    if image.planes == 1 {
        Seq::empty()
    } else {
        seq![plain("ZNAXIS3"@, decimal(image.planes as nat)), plain("ZTILE3"@, "1"@)]
    }
}

/// The cards of a quantized image.
pub open spec fn quantized_cards(image: ImageShape) -> Seq<OwnCard> {
    if image.quantized() {
        seq![
            word("TTYPE2"@, "ZSCALE"@),
            word("TFORM2"@, "1D"@),
            word("TTYPE3"@, "ZZERO"@),
            word("TFORM3"@, "1D"@),
            word("ZQUANTIZ"@, "SUBTRACTIVE_DITHER_1"@),
            plain("ZDITHER0"@, "1"@),
            plain("ZBLANK"@, "-2147483648"@),
        ]
    } else {
        Seq::empty()
    }
}

/// The cards that an extension writes itself.
pub open spec fn own_cards(image: ImageShape, n: TableNumbers) -> Seq<OwnCard> {
    common_cards(image, n) + cube_cards(image) + quantized_cards(image)
}

/// Cards as bytes.
pub open spec fn all_own_bytes(cards: Seq<OwnCard>) -> Seq<Seq<u8>> {
    Seq::new(cards.len(), |i: int| own_bytes(cards[i]))
}

fn make_common(image: &ImageShape, n: &TableNumbers) -> (v: Vec<Vec<u8>>)
    requires
        image.bitpix < 0 || image.bitpix == 8 || image.bitpix == 16 || image.bitpix == 32,
    ensures
        card_seqs(v@) == all_own_bytes(common_cards(*image, *n)),
{
    let quantized = image.bitpix < 0;
    let mut format = if n.heap > 2147483647 {
        "1QB(".to_owned()
    } else {
        "1PB(".to_owned()
    };
    let widest = format_unsigned(n.widest);
    format.append(widest.as_str());
    format.append(")");
    let width = format_unsigned(image.width as u64);
    let height = format_unsigned(image.height as u64);
    let row = format_unsigned(n.width);
    let rows = format_unsigned(n.rows);
    let heap = format_unsigned(n.heap);
    let bytepix: u64 = if quantized {
        4
    } else {
        (image.bitpix / 8) as u64
    };
    let coded = format_unsigned(bytepix);
    let mut v: Vec<Vec<u8>> = Vec::new();
    v.push(quoted_card("XTENSION", "BINTABLE"));
    v.push(plain_card("BITPIX", "8"));
    v.push(plain_card("NAXIS", "2"));
    v.push(plain_card("NAXIS1", row.as_str()));
    v.push(plain_card("NAXIS2", rows.as_str()));
    v.push(plain_card("PCOUNT", heap.as_str()));
    v.push(plain_card("GCOUNT", "1"));
    v.push(
        if quantized {
            plain_card("TFIELDS", "3")
        } else {
            plain_card("TFIELDS", "1")
        },
    );
    v.push(quoted_card("TTYPE1", "COMPRESSED_DATA"));
    v.push(quoted_card("TFORM1", format.as_str()));
    v.push(plain_card("ZIMAGE", "T"));
    v.push(quoted_card("ZCMPTYPE", "RICE_1"));
    v.push(
        if quantized {
            plain_card("ZBITPIX", "-32")
        } else {
            let bits = format_unsigned(image.bitpix as u64);
            plain_card("ZBITPIX", bits.as_str())
        },
    );
    v.push(
        if image.planes == 1 {
            plain_card("ZNAXIS", "2")
        } else {
            plain_card("ZNAXIS", "3")
        },
    );
    v.push(plain_card("ZNAXIS1", width.as_str()));
    v.push(plain_card("ZNAXIS2", height.as_str()));
    v.push(plain_card("ZTILE1", width.as_str()));
    v.push(plain_card("ZTILE2", "1"));
    v.push(quoted_card("ZNAME1", "BLOCKSIZE"));
    v.push(plain_card("ZVAL1", "32"));
    v.push(quoted_card("ZNAME2", "BYTEPIX"));
    v.push(plain_card("ZVAL2", coded.as_str()));
    assert(card_seqs(v@) =~= all_own_bytes(common_cards(*image, *n)));
    v
}

fn make_cube(image: &ImageShape) -> (v: Vec<Vec<u8>>)
    ensures
        card_seqs(v@) == all_own_bytes(cube_cards(*image)),
{
    let mut v: Vec<Vec<u8>> = Vec::new();
    if image.planes != 1 {
        let planes = format_unsigned(image.planes as u64);
        v.push(plain_card("ZNAXIS3", planes.as_str()));
        v.push(plain_card("ZTILE3", "1"));
    }
    assert(card_seqs(v@) =~= all_own_bytes(cube_cards(*image)));
    v
}

fn make_quantized(image: &ImageShape) -> (v: Vec<Vec<u8>>)
    ensures
        card_seqs(v@) == all_own_bytes(quantized_cards(*image)),
{
    let mut v: Vec<Vec<u8>> = Vec::new();
    if image.bitpix < 0 {
        v.push(quoted_card("TTYPE2", "ZSCALE"));
        v.push(quoted_card("TFORM2", "1D"));
        v.push(quoted_card("TTYPE3", "ZZERO"));
        v.push(quoted_card("TFORM3", "1D"));
        v.push(quoted_card("ZQUANTIZ", "SUBTRACTIVE_DITHER_1"));
        v.push(plain_card("ZDITHER0", "1"));
        v.push(plain_card("ZBLANK", "-2147483648"));
    }
    assert(card_seqs(v@) =~= all_own_bytes(quantized_cards(*image)));
    v
}

/// The cards of an extension: its own, and those carried over from the header at `start`.
pub open spec fn extension_cards(
    bytes: Seq<u8>,
    start: int,
    image: ImageShape,
    n: TableNumbers,
) -> Seq<Seq<u8>> {
    all_own_bytes(own_cards(image, n)) + kept_cards(bytes, start, image.quantized())
}

/// The table and its heap, with zeros to the end of the block.
pub open spec fn data_blocks(tiles: Seq<Seq<u8>>, scales: Option<Seq<RowScale>>) -> Seq<u8> {
    let data = table_data(tiles, scales);
    Seq::new(
        in_blocks(data.len()),
        |i: int|
            if i < data.len() {
                data[i]
            } else {
                0
            },
    )
}

/// Whether `piece` is the extension of some tiles: a header and the blocks of the table.
pub open spec fn is_extension(
    piece: Seq<u8>,
    bytes: Seq<u8>,
    start: int,
    image: ImageShape,
    tiles: Seq<Seq<u8>>,
    scales: Option<Seq<RowScale>>,
) -> bool {
    exists|n: TableNumbers| #[trigger]
        are_numbers_of(n, tiles, image.quantized()) && piece == header_bytes(
            extension_cards(bytes, start, image, n),
        ) + data_blocks(tiles, scales)
}

pub(crate) proof fn lemma_joined_prefix(parts: Seq<Seq<u8>>, i: int)
    requires
        0 <= i <= parts.len(),
    ensures
        joined(parts.take(i)).len() <= joined(parts).len(),
        i < parts.len() ==> joined(parts.take(i + 1)) == joined(parts.take(i)) + parts[i],
    decreases parts.len() - i,
{
    if i < parts.len() {
        lemma_joined_prefix(parts, i + 1);
        assert(parts.take(i + 1).drop_last() =~= parts.take(i));
    } else {
        assert(parts.take(i) =~= parts);
    }
}

/// Counts what the table of some tiles needs; nothing where it is too large.
fn numbers_of(tiles: &Vec<Vec<u8>>, quantized: bool) -> (r: Option<TableNumbers>)
    ensures
        match r {
            Some(n) => are_numbers_of(n, card_seqs(tiles@), quantized) && table_size(
                card_seqs(tiles@),
                quantized,
            ) <= i64::MAX,
            None => table_size(card_seqs(tiles@), quantized) > i64::MAX,
        },
{
    let ghost all = card_seqs(tiles@);
    let mut heap: u64 = 0;
    let mut widest: usize = 0;
    let mut i: usize = 0;
    assert(all.take(0) =~= Seq::<Seq<u8>>::empty());
    while i < tiles.len()
        invariant
            i <= tiles@.len(),
            all == card_seqs(tiles@),
            heap == joined(all.take(i as int)).len(),
            heap <= i64::MAX,
            widest == longest(all.take(i as int)),
        decreases tiles.len() - i,
    {
        proof {
            lemma_joined_prefix(all, i as int);
            lemma_joined_prefix(all, i + 1);
            assert(all.take(i + 1).drop_last() =~= all.take(i as int));
            assert(all.take(i + 1).last() == tiles@[i as int]@);
        }
        let len: usize = tiles[i].len();
        if len as u64 > i64::MAX as u64 - heap {
            assert(0 <= all.len() * row_width(joined(all).len(), quantized)) by (nonlinear_arith);
            return None;
        }
        heap = heap + len as u64;
        if len > widest {
            widest = len;
        }
        i = i + 1;
    }
    assert(all.take(i as int) =~= all);
    let d: u64 = if heap > 2147483647 {
        8
    } else {
        4
    };
    let width: u64 = if quantized {
        2 * d + 16
    } else {
        2 * d
    };
    let rows: u64 = tiles.len() as u64;
    assert(0 <= rows * width <= 18446744073709551615 * 32) by (nonlinear_arith)
        requires
            0 <= rows <= 18446744073709551615,
            0 <= width <= 32,
    ;
    let size: u128 = (rows as u128) * (width as u128) + heap as u128;
    if size > i64::MAX as u128 {
        return None;
    }
    Some(TableNumbers { rows, width, heap, widest: widest as u64 })
}

pub(crate) fn push_all(out: &mut Vec<u8>, part: &Vec<u8>)
    ensures
        final(out)@ == old(out)@ + part@,
{
    let ghost before = out@;
    let mut i: usize = 0;
    assert(out@ =~= before + part@.take(0));
    while i < part.len()
        invariant
            i <= part@.len(),
            out@ == before + part@.take(i as int),
        decreases part.len() - i,
    {
        out.push(part[i]);
        i = i + 1;
        assert(out@ =~= before + part@.take(i as int));
    }
    assert(part@.take(i as int) =~= part@);
}

/// The scales of the rows of a quantized image.
pub open spec fn scale_seq(scales: Option<&Vec<RowScale>>) -> Option<Seq<RowScale>> {
    match scales {
        Some(s) => Some(s@),
        None => None,
    }
}

fn write_data(tiles: &Vec<Vec<u8>>, scales: Option<&Vec<RowScale>>, n: &TableNumbers) -> (out: Vec<
    u8,
>)
    requires
        are_numbers_of(*n, card_seqs(tiles@), scales is Some),
        n.heap <= i64::MAX,
        scales matches Some(s) ==> s@.len() == tiles@.len(),
    ensures
        out@ == data_blocks(card_seqs(tiles@), scale_seq(scales)),
{
    let ghost all = card_seqs(tiles@);
    let ghost sc = scale_seq(scales);
    let ghost rows = table_rows(all, sc);
    let d: usize = if n.heap > 2147483647 {
        8
    } else {
        4
    };
    let mut out: Vec<u8> = Vec::new();
    let mut start: u64 = 0;
    let mut i: usize = 0;
    assert(all.take(0) =~= Seq::<Seq<u8>>::empty());
    assert(rows.take(0) =~= Seq::<Seq<u8>>::empty());
    assert(out@ =~= joined(rows.take(0)));
    while i < tiles.len()
        invariant
            i <= tiles@.len(),
            all == card_seqs(tiles@),
            sc == scale_seq(scales),
            rows == table_rows(all, sc),
            d == descriptor_width(joined(all).len()),
            n.heap == joined(all).len(),
            n.heap <= i64::MAX,
            scales matches Some(s) ==> s@.len() == tiles@.len(),
            start == tile_start(all, i as int),
            out@ == joined(rows.take(i as int)),
        decreases tiles.len() - i,
    {
        proof {
            lemma_joined_prefix(all, i as int);
            lemma_joined_prefix(all, i + 1);
            lemma_joined_prefix(rows, i as int);
        }
        let ghost before = out@;
        let len: usize = tiles[i].len();
        let mut row = be_bytes(len as u64, d);
        let place = be_bytes(start, d);
        push_all(&mut row, &place);
        match scales {
            Some(s) => {
                let scale = be_bytes(s[i].scale, 8);
                let zero = be_bytes(s[i].zero, 8);
                let ghost front = row@;
                push_all(&mut row, &scale);
                push_all(&mut row, &zero);
                assert(row@ =~= front + (scale@ + zero@));
            },
            None => {
                assert(row@ =~= row@ + Seq::<u8>::empty());
            },
        }
        assert(row@ == rows[i as int]);
        push_all(&mut out, &row);
        start = start + len as u64;
        i = i + 1;
    }
    assert(rows.take(i as int) =~= rows);
    let ghost front = out@;
    let mut k: usize = 0;
    assert(out@ =~= front + joined(all.take(0)));
    while k < tiles.len()
        invariant
            k <= tiles@.len(),
            all == card_seqs(tiles@),
            out@ == front + joined(all.take(k as int)),
        decreases tiles.len() - k,
    {
        proof {
            lemma_joined_prefix(all, k as int);
        }
        let ghost before = joined(all.take(k as int));
        push_all(&mut out, &tiles[k]);
        k = k + 1;
        assert(out@ =~= front + (before + all[k - 1]));
    }
    assert(all.take(k as int) =~= all);
    assert(out@ == table_data(all, sc));
    fill_block(&mut out, 0);
    assert(out@ =~= data_blocks(all, sc));
    out
}

/// Writes the extension of some tiles, with what the header at `start` says of the image. Where the
/// table would be longer than `2^63 - 1` bytes, there is no extension.
pub fn write_extension(
    bytes: &[u8],
    start: usize,
    image: &ImageShape,
    tiles: &Vec<Vec<u8>>,
    scales: Option<&Vec<RowScale>>,
) -> (r: Result<Vec<u8>, String>)
    requires
        start <= bytes@.len(),
        image.bitpix < 0 || image.bitpix == 8 || image.bitpix == 16 || image.bitpix == 32,
        image.quantized() == (scales is Some),
        scales matches Some(s) ==> s@.len() == tiles@.len(),
    ensures
        match r {
            Ok(piece) => {
                &&& table_size(card_seqs(tiles@), image.quantized()) <= i64::MAX
                &&& is_extension(
                    piece@,
                    bytes@,
                    start as int,
                    *image,
                    card_seqs(tiles@),
                    scale_seq(scales),
                )
            },
            Err(e) => {
                &&& table_size(card_seqs(tiles@), image.quantized()) > i64::MAX
                &&& e@ == "compressed image exceeds the size of a table"@
            },
        },
{
    let quantized = image.bitpix < 0;
    let n = match numbers_of(tiles, quantized) {
        Some(n) => n,
        None => {
            return Err("compressed image exceeds the size of a table".to_owned());
        },
    };
    let mut cards = make_common(image, &n);
    let mut cube = make_cube(image);
    let mut own = make_quantized(image);
    let mut kept = keep_cards(bytes, start, quantized);
    let ghost all = extension_cards(bytes@, start as int, *image, n);
    let ghost parts = (card_seqs(cards@), card_seqs(cube@), card_seqs(own@), card_seqs(kept@));
    cards.append(&mut cube);
    cards.append(&mut own);
    cards.append(&mut kept);
    proof {
        assert(card_seqs(cards@) =~= parts.0 + parts.1 + parts.2 + parts.3);
        assert(all =~= parts.0 + parts.1 + parts.2 + parts.3);
        lemma_extension_cards(bytes@, start as int, *image, n);
        assert forall|i: int| 0 <= i < cards@.len() implies (#[trigger] cards@[i])@.len() == 80 by {
            assert(all[i] == cards@[i]@);
        }
    }
    let mut piece = write_header(&cards);
    let data = write_data(tiles, scales, &n);
    push_all(&mut piece, &data);
    proof {
        assert(are_numbers_of(n, card_seqs(tiles@), image.quantized()));
    }
    Ok(piece)
}

proof fn lemma_extension_cards(bytes: Seq<u8>, start: int, image: ImageShape, n: TableNumbers)
    ensures
        forall|i: int|
            0 <= i < extension_cards(bytes, start, image, n).len() ==> (
            #[trigger] extension_cards(bytes, start, image, n)[i]).len() == 80,
{
    if let Some(k) = cards_before_end(bytes, start, 0) {
        lemma_before_end(bytes, start, 0, k);
        lemma_kept(bytes, start, k, image.quantized(), Seq::empty());
    }
    let own = all_own_bytes(own_cards(image, n));
    let kept = kept_cards(bytes, start, image.quantized());
    let all = extension_cards(bytes, start, image, n);
    assert forall|i: int| 0 <= i < all.len() implies (#[trigger] all[i]).len() == 80 by {
        if i < own.len() {
            assert(all[i] == own_bytes(own_cards(image, n)[i]));
        } else {
            assert(all[i] == kept[i - own.len()]);
        }
    }
}

/// What a reader finds in a card.
pub open spec fn own_view(c: OwnCard) -> CardView {
    CardView { key: c.key, value: c.text }
}

/// What a reader finds in some cards.
pub open spec fn own_views(cards: Seq<OwnCard>) -> Seq<CardView> {
    Seq::new(cards.len(), |i: int| own_view(cards[i]))
}

/// Whether a card can be written so that it reads back, and says something that is written anew.
spec fn is_written(c: OwnCard) -> bool {
    &&& is_key(c.key)
    &&& says_how_stored(c.key)
    &&& if c.quoted {
        is_quotable(c.text)
    } else {
        is_plain(c.text)
    }
}

proof fn lemma_own_card(c: OwnCard)
    requires
        is_written(c),
    ensures
        own_bytes(c).len() == 80,
        has_value(own_bytes(c)),
        !is_end(own_bytes(c)),
        card_view(own_bytes(c)) == own_view(c),
{
    if c.quoted {
        quoted_card_reads_back(c.key, c.text);
    } else {
        plain_card_reads_back(c.key, c.text);
    }
}

proof fn lemma_own_list(cards: Seq<OwnCard>)
    requires
        forall|i: int| 0 <= i < cards.len() ==> is_written(#[trigger] cards[i]),
    ensures
        are_cards(all_own_bytes(cards)),
        values_of(all_own_bytes(cards)) == own_views(cards),
    decreases cards.len(),
{
    let all = all_own_bytes(cards);
    assert forall|i: int| 0 <= i < all.len() implies (#[trigger] all[i]).len() == 80 && !is_end(
        all[i],
    ) by {
        lemma_own_card(cards[i]);
    }
    if cards.len() > 0 {
        let front = cards.drop_last();
        assert forall|i: int| 0 <= i < front.len() implies is_written(#[trigger] front[i]) by {
            assert(front[i] == cards[i]);
        }
        lemma_own_list(front);
        lemma_own_card(cards.last());
        assert(all.drop_last() =~= all_own_bytes(front));
        assert(own_views(cards) =~= own_views(front).push(own_view(cards.last())));
    } else {
        assert(own_views(cards) =~= Seq::<CardView>::empty());
    }
}

proof fn lemma_begins(s: Seq<char>, start: Seq<char>)
    requires
        start.len() <= s.len(),
        forall|i: int| 0 <= i < start.len() ==> s[i] == #[trigger] start[i],
    ensures
        start.is_prefix_of(s),
{
    assert(start =~= s.subrange(0, start.len() as int));
}

proof fn lemma_common_card(image: ImageShape, n: TableNumbers, i: int)
    requires
        image.bitpix < 0 || image.bitpix == 8 || image.bitpix == 16 || image.bitpix == 32,
        0 <= i < 22,
    ensures
        is_written(common_card(image, n, i)),
{
    reveal_strlit("XTENSION");
    reveal_strlit("BITPIX");
    reveal_strlit("NAXIS");
    reveal_strlit("NAXIS1");
    reveal_strlit("NAXIS2");
    reveal_strlit("PCOUNT");
    reveal_strlit("GCOUNT");
    reveal_strlit("TFIELDS");
    reveal_strlit("TTYPE1");
    reveal_strlit("TFORM1");
    reveal_strlit("ZIMAGE");
    reveal_strlit("ZCMPTYPE");
    reveal_strlit("ZBITPIX");
    reveal_strlit("ZNAXIS");
    reveal_strlit("ZNAXIS1");
    reveal_strlit("ZNAXIS2");
    reveal_strlit("ZTILE1");
    reveal_strlit("ZTILE2");
    reveal_strlit("ZNAME1");
    reveal_strlit("ZVAL1");
    reveal_strlit("ZNAME2");
    reveal_strlit("ZVAL2");
    reveal_strlit("ZNAXIS3");
    reveal_strlit("ZTILE3");
    reveal_strlit("TTYPE2");
    reveal_strlit("TFORM2");
    reveal_strlit("TTYPE3");
    reveal_strlit("TFORM3");
    reveal_strlit("ZQUANTIZ");
    reveal_strlit("ZDITHER0");
    reveal_strlit("ZBLANK");
    reveal_strlit("END");
    reveal_strlit("TTYPE");
    reveal_strlit("TFORM");
    reveal_strlit("ZTILE");
    reveal_strlit("ZNAME");
    reveal_strlit("ZVAL");
    reveal_strlit("BINTABLE");
    reveal_strlit("COMPRESSED_DATA");
    reveal_strlit("RICE_1");
    reveal_strlit("BLOCKSIZE");
    reveal_strlit("BYTEPIX");
    reveal_strlit("1");
    reveal_strlit("2");
    reveal_strlit("3");
    reveal_strlit("8");
    reveal_strlit("32");
    reveal_strlit("-32");
    reveal_strlit("T");
    lemma_begins("NAXIS"@, "NAXIS"@);
    lemma_begins("NAXIS1"@, "NAXIS"@);
    lemma_begins("NAXIS2"@, "NAXIS"@);
    lemma_begins("TTYPE1"@, "TTYPE"@);
    lemma_begins("TFORM1"@, "TFORM"@);
    lemma_begins("ZNAXIS"@, "ZNAXIS"@);
    lemma_begins("ZNAXIS1"@, "ZNAXIS"@);
    lemma_begins("ZNAXIS2"@, "ZNAXIS"@);
    lemma_begins("ZTILE1"@, "ZTILE"@);
    lemma_begins("ZTILE2"@, "ZTILE"@);
    lemma_begins("ZNAME1"@, "ZNAME"@);
    lemma_begins("ZNAME2"@, "ZNAME"@);
    lemma_begins("ZVAL1"@, "ZVAL"@);
    lemma_begins("ZVAL2"@, "ZVAL"@);
    lemma_number_in_card(n.width as nat);
    lemma_number_in_card(n.rows as nat);
    lemma_number_in_card(n.heap as nat);
    lemma_number_in_card(image.width as nat);
    lemma_number_in_card(image.height as nat);
    lemma_number_in_card(image.coded_bytes());
    if image.bitpix >= 0 {
        lemma_number_in_card(image.bitpix as nat);
    }
    lemma_tile_format(n);
    let key = common_card(image, n, i).key;
    assert(0 < key.len() <= 8);
    assert(is_ascii_text(key));
    assert(has_no_space(key));
    assert(is_key(key));
}

proof fn lemma_extra_cards(image: ImageShape)
    ensures
        forall|i: int|
            0 <= i < cube_cards(image).len() ==> is_written(#[trigger] cube_cards(image)[i]),
        forall|i: int|
            0 <= i < quantized_cards(image).len() ==> is_written(#[trigger] quantized_cards(image)[i]),
{
    reveal_strlit("ZNAXIS3");
    reveal_strlit("ZTILE3");
    reveal_strlit("TTYPE2");
    reveal_strlit("TFORM2");
    reveal_strlit("TTYPE3");
    reveal_strlit("TFORM3");
    reveal_strlit("ZQUANTIZ");
    reveal_strlit("ZDITHER0");
    reveal_strlit("ZBLANK");
    reveal_strlit("ZNAXIS");
    reveal_strlit("ZTILE");
    reveal_strlit("TTYPE");
    reveal_strlit("TFORM");
    reveal_strlit("END");
    reveal_strlit("ZSCALE");
    reveal_strlit("ZZERO");
    reveal_strlit("1D");
    reveal_strlit("SUBTRACTIVE_DITHER_1");
    reveal_strlit("1");
    reveal_strlit("-2147483648");
    lemma_number_in_card(image.planes as nat);
    lemma_begins("ZNAXIS3"@, "ZNAXIS"@);
    lemma_begins("ZTILE3"@, "ZTILE"@);
    lemma_begins("TTYPE2"@, "TTYPE"@);
    lemma_begins("TTYPE3"@, "TTYPE"@);
    lemma_begins("TFORM2"@, "TFORM"@);
    lemma_begins("TFORM3"@, "TFORM"@);
    let cube = cube_cards(image);
    let extra = quantized_cards(image);
    assert forall|i: int| 0 <= i < cube.len() implies is_written(#[trigger] cube[i]) by {
        let key = cube[i].key;
        assert(0 < key.len() <= 8);
        assert(is_ascii_text(key));
        assert(has_no_space(key));
        assert(key != "END"@);
    }
    assert forall|i: int| 0 <= i < extra.len() implies is_written(#[trigger] extra[i]) by {
        let key = extra[i].key;
        assert(0 < key.len() <= 8);
        assert(is_ascii_text(key));
        assert(has_no_space(key));
        assert(key != "END"@);
        assert(is_ascii_text(extra[i].text));
        assert(has_no_space(extra[i].text));
    }
}

proof fn lemma_own_cards(image: ImageShape, n: TableNumbers)
    requires
        image.bitpix < 0 || image.bitpix == 8 || image.bitpix == 16 || image.bitpix == 32,
    ensures
        forall|i: int|
            0 <= i < own_cards(image, n).len() ==> is_written(#[trigger] own_cards(image, n)[i]),
        are_cards(all_own_bytes(own_cards(image, n))),
        values_of(all_own_bytes(own_cards(image, n))) == own_views(own_cards(image, n)),
{
    lemma_extra_cards(image);
    let own = own_cards(image, n);
    let cube = cube_cards(image);
    assert forall|i: int| 0 <= i < own.len() implies is_written(#[trigger] own[i]) by {
        if i < 22 {
            lemma_common_card(image, n, i);
            assert(own[i] == common_card(image, n, i));
        } else if i < 22 + cube.len() {
            assert(own[i] == cube[i - 22]);
        } else {
            assert(own[i] == quantized_cards(image)[i - 22 - cube.len()]);
        }
    }
    lemma_own_list(own);
}

proof fn lemma_tile_format(n: TableNumbers)
    ensures
        is_quotable(tile_format(n)),
{
    reveal_strlit("1QB(");
    reveal_strlit("1PB(");
    reveal_strlit(")");
    let digits = decimal(n.widest as nat);
    lemma_number_in_card(n.widest as nat);
    lemma_decimal(n.widest as nat);
    let s = tile_format(n);
    assert(s.len() == digits.len() + 5);
    assert forall|i: int| 0 <= i < s.len() implies {
        &&& (#[trigger] s[i] as u32) < 128
        &&& !is_space(s[i])
        &&& s[i] != '\''
    } by {
        if 4 <= i < 4 + digits.len() {
            assert(s[i] == digits[i - 4]);
            assert(crate::text::is_digit(digits[i - 4]));
        }
    }
}

/// What a reader finds in the header of an extension: its own cards, and behind them those carried
/// over.
pub open spec fn extension_views(
    bytes: Seq<u8>,
    start: int,
    image: ImageShape,
    n: TableNumbers,
) -> Seq<CardView> {
    own_views(own_cards(image, n)) + values_of(kept_cards(bytes, start, image.quantized()))
}

proof fn lemma_common_lookup(bytes: Seq<u8>, start: int, image: ImageShape, n: TableNumbers, i: int)
    requires
        0 <= i < 22,
    ensures
        lookup(extension_views(bytes, start, image, n), common_card(image, n, i).key) == Some(
            common_card(image, n, i).text,
        ),
{
    let views = extension_views(bytes, start, image, n);
    let key = common_card(image, n, i).key;
    assert forall|j: int| 0 <= j < 22 implies #[trigger] views[j] == own_view(
        common_card(image, n, j),
    ) by {
        assert(own_cards(image, n)[j] == common_card(image, n, j));
    }
    lemma_common_keys_differ(image, n, i);
    assert forall|j: int| 0 <= j < i implies (#[trigger] views[j]).key != key by {
        assert(views[j] == own_view(common_card(image, n, j)));
        assert(common_card(image, n, j).key != key);
    }
    assert(views[i] == own_view(common_card(image, n, i)));
    lemma_lookup_at(views, key, i);
}

/// What tells the keys of the common cards apart: their length, their first two characters and
/// their last one.
spec fn mark_of(key: Seq<char>) -> (nat, char, char, char) {
    (key.len(), key[0], key[1], key.last())
}

/// The place among the common cards of the key with a mark.
spec fn place_among(mark: (nat, char, char, char)) -> int {
    if mark == (8nat, 'X', 'T', 'N') {
        0
    } else if mark == (6nat, 'B', 'I', 'X') {
        1
    } else if mark == (5nat, 'N', 'A', 'S') {
        2
    } else if mark == (6nat, 'N', 'A', '1') {
        3
    } else if mark == (6nat, 'N', 'A', '2') {
        4
    } else if mark == (6nat, 'P', 'C', 'T') {
        5
    } else if mark == (6nat, 'G', 'C', 'T') {
        6
    } else if mark == (7nat, 'T', 'F', 'S') {
        7
    } else if mark == (6nat, 'T', 'T', '1') {
        8
    } else if mark == (6nat, 'T', 'F', '1') {
        9
    } else if mark == (6nat, 'Z', 'I', 'E') {
        10
    } else if mark == (8nat, 'Z', 'C', 'E') {
        11
    } else if mark == (7nat, 'Z', 'B', 'X') {
        12
    } else if mark == (6nat, 'Z', 'N', 'S') {
        13
    } else if mark == (7nat, 'Z', 'N', '1') {
        14
    } else if mark == (7nat, 'Z', 'N', '2') {
        15
    } else if mark == (6nat, 'Z', 'T', '1') {
        16
    } else if mark == (6nat, 'Z', 'T', '2') {
        17
    } else if mark == (6nat, 'Z', 'N', '1') {
        18
    } else if mark == (5nat, 'Z', 'V', '1') {
        19
    } else if mark == (6nat, 'Z', 'N', '2') {
        20
    } else if mark == (5nat, 'Z', 'V', '2') {
        21
    } else {
        -1
    }
}

proof fn lemma_place_among(image: ImageShape, n: TableNumbers, i: int)
    requires
        0 <= i < 22,
    ensures
        place_among(mark_of(common_card(image, n, i).key)) == i,
{
    reveal_strlit("XTENSION");
    reveal_strlit("BITPIX");
    reveal_strlit("NAXIS");
    reveal_strlit("NAXIS1");
    reveal_strlit("NAXIS2");
    reveal_strlit("PCOUNT");
    reveal_strlit("GCOUNT");
    reveal_strlit("TFIELDS");
    reveal_strlit("TTYPE1");
    reveal_strlit("TFORM1");
    reveal_strlit("ZIMAGE");
    reveal_strlit("ZCMPTYPE");
    reveal_strlit("ZBITPIX");
    reveal_strlit("ZNAXIS");
    reveal_strlit("ZNAXIS1");
    reveal_strlit("ZNAXIS2");
    reveal_strlit("ZTILE1");
    reveal_strlit("ZTILE2");
    reveal_strlit("ZNAME1");
    reveal_strlit("ZVAL1");
    reveal_strlit("ZNAME2");
    reveal_strlit("ZVAL2");
}

proof fn lemma_common_keys_differ(image: ImageShape, n: TableNumbers, i: int)
    requires
        0 <= i < 22,
    ensures
        forall|j: int|
            0 <= j < i ==> (#[trigger] common_card(image, n, j)).key != common_card(image, n, i).key,
{
    assert forall|j: int| 0 <= j < i implies (#[trigger] common_card(image, n, j)).key
        != common_card(image, n, i).key by {
        lemma_place_among(image, n, i);
        lemma_place_among(image, n, j);
    }
}

proof fn lemma_own_lookups(image: ImageShape, n: TableNumbers)
    ensures
        image.planes != 1 ==> lookup(own_views(own_cards(image, n)), "ZNAXIS3"@) == Some(
            decimal(image.planes as nat),
        ),
        lookup(own_views(own_cards(image, n)), "ZQUANTIZ"@) == if image.quantized() {
            Some("SUBTRACTIVE_DITHER_1"@)
        } else {
            None
        },
{
    reveal_strlit("ZNAXIS3");
    reveal_strlit("ZQUANTIZ");
    reveal_strlit("ZTILE3");
    reveal_strlit("TTYPE2");
    reveal_strlit("TFORM2");
    reveal_strlit("TTYPE3");
    reveal_strlit("TFORM3");
    let common = own_views(common_cards(image, n));
    let cube = own_views(cube_cards(image));
    let extra = own_views(quantized_cards(image));
    assert(own_views(own_cards(image, n)) =~= common + cube + extra);
    assert(place_among(mark_of("ZNAXIS3"@)) == -1);
    assert(place_among(mark_of("ZQUANTIZ"@)) == -1);
    assert forall|i: int| 0 <= i < common.len() implies (#[trigger] common[i]).key != "ZNAXIS3"@
        && common[i].key != "ZQUANTIZ"@ by {
        lemma_place_among(image, n, i);
    }
    lemma_lookup_none(common, "ZNAXIS3"@);
    lemma_lookup_none(common, "ZQUANTIZ"@);
    lemma_lookup_concat(common, cube, "ZNAXIS3"@);
    lemma_lookup_concat(common + cube, extra, "ZNAXIS3"@);
    lemma_lookup_concat(common, cube, "ZQUANTIZ"@);
    lemma_lookup_concat(common + cube, extra, "ZQUANTIZ"@);
    if image.planes != 1 {
        lemma_lookup_at(cube, "ZNAXIS3"@, 0);
    }
    assert forall|i: int| 0 <= i < cube.len() implies (#[trigger] cube[i]).key != "ZQUANTIZ"@ by {
        assert(cube[i].key.len() != "ZQUANTIZ"@.len());
    }
    lemma_lookup_none(cube, "ZQUANTIZ"@);
    if image.quantized() {
        assert forall|i: int| 0 <= i < 4 implies (#[trigger] extra[i]).key != "ZQUANTIZ"@ by {
            assert(extra[i].key.len() != "ZQUANTIZ"@.len());
        }
        lemma_lookup_at(extra, "ZQUANTIZ"@, 4);
    } else {
        lemma_lookup_none(extra, "ZQUANTIZ"@);
    }
}

/// Whether a header tells how to read the table of an image: a binary table of the tiles, one for
/// each row, in blocks of 32 pixels of so many bytes; and for a quantized image the columns of its
/// scales and zero points, and how it was dithered. What was true of the uncompressed unit alone is
/// not said.
pub open spec fn tells_the_coding(cards: Seq<CardView>, image: ImageShape) -> bool {
    &&& lookup(cards, "XTENSION"@) == Some("BINTABLE"@)
    &&& lookup(cards, "BITPIX"@) == Some("8"@)
    &&& lookup(cards, "NAXIS"@) == Some("2"@)
    &&& lookup(cards, "GCOUNT"@) == Some("1"@)
    &&& lookup(cards, "TFIELDS"@) == Some(
        if image.quantized() {
            "3"@
        } else {
            "1"@
        },
    )
    &&& lookup(cards, "TTYPE1"@) == Some("COMPRESSED_DATA"@)
    &&& lookup(cards, "ZTILE1"@) == Some(decimal(image.width as nat))
    &&& lookup(cards, "ZTILE2"@) == Some("1"@)
    &&& lookup(cards, "ZNAME1"@) == Some("BLOCKSIZE"@)
    &&& lookup(cards, "ZVAL1"@) == Some("32"@)
    &&& lookup(cards, "ZNAME2"@) == Some("BYTEPIX"@)
    &&& lookup(cards, "ZVAL2"@) == Some(decimal(image.coded_bytes()))
    &&& image.planes != 1 ==> lookup(cards, "ZTILE3"@) == Some("1"@)
    &&& image.quantized() ==> {
        &&& lookup(cards, "TTYPE2"@) == Some("ZSCALE"@)
        &&& lookup(cards, "TFORM2"@) == Some("1D"@)
        &&& lookup(cards, "TTYPE3"@) == Some("ZZERO"@)
        &&& lookup(cards, "TFORM3"@) == Some("1D"@)
        &&& lookup(cards, "ZDITHER0"@) == Some("1"@)
        &&& lookup(cards, "ZBLANK"@) == Some("-2147483648"@)
        &&& lookup(cards, "BSCALE"@) is None
        &&& lookup(cards, "BZERO"@) is None
        &&& lookup(cards, "BLANK"@) is None
    }
    &&& lookup(cards, "CHECKSUM"@) is None
    &&& lookup(cards, "DATASUM"@) is None
    &&& lookup(cards, "SIMPLE"@) is None
}

/// Whether a header says what the descriptors of the table are: pairs of numbers of four bytes,
/// or of eight where the heap is long, of tiles no longer than the longest.
pub open spec fn tells_the_descriptors(cards: Seq<CardView>, tiles: Seq<Seq<u8>>) -> bool {
    lookup(cards, "TFORM1"@) == Some(
        (if joined(tiles).len() > i32::MAX {
            "1QB("@
        } else {
            "1PB("@
        }) + decimal(longest(tiles)) + ")"@,
    )
}

proof fn lemma_cube_lookup(image: ImageShape, n: TableNumbers)
    requires
        image.planes != 1,
    ensures
        lookup(own_views(own_cards(image, n)), "ZTILE3"@) == Some("1"@),
{
    reveal_strlit("ZNAXIS3");
    reveal_strlit("ZTILE3");
    let key = "ZTILE3"@;
    let own = own_views(own_cards(image, n));
    assert(place_among(mark_of(key)) == -1);
    assert forall|i: int| 0 <= i < 23 implies (#[trigger] own[i]).key != key by {
        if i < 22 {
            assert(own_cards(image, n)[i] == common_card(image, n, i));
            lemma_place_among(image, n, i);
        } else {
            assert(own_cards(image, n)[i] == cube_cards(image)[0]);
        }
    }
    assert(own_cards(image, n)[23] == cube_cards(image)[1]);
    lemma_lookup_at(own, key, 23);
}

proof fn lemma_quantized_lookup(image: ImageShape, n: TableNumbers, k: int)
    requires
        image.quantized(),
        0 <= k < 7,
    ensures
        lookup(own_views(own_cards(image, n)), quantized_cards(image)[k].key) == Some(
            quantized_cards(image)[k].text,
        ),
{
    reveal_strlit("ZNAXIS3");
    reveal_strlit("ZTILE3");
    reveal_strlit("TTYPE2");
    reveal_strlit("TFORM2");
    reveal_strlit("TTYPE3");
    reveal_strlit("TFORM3");
    reveal_strlit("ZQUANTIZ");
    reveal_strlit("ZDITHER0");
    reveal_strlit("ZBLANK");
    let extra = quantized_cards(image);
    let cube = cube_cards(image);
    let key = extra[k].key;
    let own = own_views(own_cards(image, n));
    let from = 22 + cube.len() as int;
    assert(place_among(mark_of(key)) == -1);
    assert forall|i: int| 0 <= i < from + k implies (#[trigger] own[i]).key != key by {
        if i < 22 {
            assert(own_cards(image, n)[i] == common_card(image, n, i));
            lemma_place_among(image, n, i);
        } else if i < from {
            assert(own_cards(image, n)[i] == cube[i - 22]);
            assert(mark_of(cube[i - 22].key) != mark_of(key));
        } else {
            assert(own_cards(image, n)[i] == extra[i - from]);
            assert(mark_of(extra[i - from].key) != mark_of(key));
        }
    }
    assert(own_cards(image, n)[from + k] == extra[k]);
    lemma_lookup_at(own, key, from + k);
}

proof fn lemma_not_said(
    bytes: Seq<u8>,
    hdu: HduView,
    image: ImageShape,
    n: TableNumbers,
    key: Seq<char>,
)
    requires
        hdu_at(bytes, hdu.header_start) == Ok::<HduView, Seq<char>>(hdu),
        is_dropped(key, image.quantized()),
        place_among(mark_of(key)) == -1,
        key.len() > 0,
        key[0] != 'Z',
        key[0] != 'T',
    ensures
        lookup(extension_views(bytes, hdu.header_start as int, image, n), key) is None,
{
    reveal_strlit("ZNAXIS3");
    reveal_strlit("ZTILE3");
    reveal_strlit("TTYPE2");
    reveal_strlit("TFORM2");
    reveal_strlit("TTYPE3");
    reveal_strlit("TFORM3");
    reveal_strlit("ZQUANTIZ");
    reveal_strlit("ZDITHER0");
    reveal_strlit("ZBLANK");
    let cube = cube_cards(image);
    let extra = quantized_cards(image);
    let own = own_views(own_cards(image, n));
    let start = hdu.header_start;
    let from = 22 + cube.len() as int;
    assert forall|i: int| 0 <= i < own.len() implies (#[trigger] own[i]).key != key by {
        if i < 22 {
            assert(own_cards(image, n)[i] == common_card(image, n, i));
            lemma_place_among(image, n, i);
        } else if i < from {
            assert(own_cards(image, n)[i] == cube[i - 22]);
            assert(cube[i - 22].key[0] == 'Z');
        } else {
            assert(own_cards(image, n)[i] == extra[i - from]);
            assert(extra[i - from].key[0] == 'Z' || extra[i - from].key[0] == 'T');
        }
    }
    lemma_lookup_none(own, key);
    carried_cards_say_the_same(bytes, start, image.quantized(), key);
    lemma_lookup_concat(own, values_of(kept_cards(bytes, start as int, image.quantized())), key);
}

proof fn lemma_all_not_said(bytes: Seq<u8>, hdu: HduView, image: ImageShape, n: TableNumbers)
    requires
        hdu_at(bytes, hdu.header_start) == Ok::<HduView, Seq<char>>(hdu),
    ensures
        ({
            let views = extension_views(bytes, hdu.header_start as int, image, n);
            &&& lookup(views, "CHECKSUM"@) is None
            &&& lookup(views, "DATASUM"@) is None
            &&& lookup(views, "SIMPLE"@) is None
            &&& image.quantized() ==> lookup(views, "BSCALE"@) is None && lookup(views, "BZERO"@)
                is None && lookup(views, "BLANK"@) is None
        }),
{
    reveal_strlit("CHECKSUM");
    reveal_strlit("DATASUM");
    reveal_strlit("SIMPLE");
    reveal_strlit("BSCALE");
    reveal_strlit("BZERO");
    reveal_strlit("BLANK");
    lemma_not_said(bytes, hdu, image, n, "CHECKSUM"@);
    lemma_not_said(bytes, hdu, image, n, "DATASUM"@);
    lemma_not_said(bytes, hdu, image, n, "SIMPLE"@);
    if image.quantized() {
        lemma_not_said(bytes, hdu, image, n, "BSCALE"@);
        lemma_not_said(bytes, hdu, image, n, "BZERO"@);
        lemma_not_said(bytes, hdu, image, n, "BLANK"@);
    }
}

proof fn lemma_coding_told(bytes: Seq<u8>, hdu: HduView, image: ImageShape, n: TableNumbers)
    requires
        hdu_at(bytes, hdu.header_start) == Ok::<HduView, Seq<char>>(hdu),
    ensures
        tells_the_coding(extension_views(bytes, hdu.header_start as int, image, n), image),
        lookup(extension_views(bytes, hdu.header_start as int, image, n), "TFORM1"@) == Some(
            tile_format(n),
        ),
{
    let start = hdu.header_start as int;
    lemma_all_not_said(bytes, hdu, image, n);
    let own = own_views(own_cards(image, n));
    let kept = values_of(kept_cards(bytes, start, image.quantized()));
    lemma_common_lookup(bytes, start, image, n, 0);
    lemma_common_lookup(bytes, start, image, n, 1);
    lemma_common_lookup(bytes, start, image, n, 2);
    lemma_common_lookup(bytes, start, image, n, 6);
    lemma_common_lookup(bytes, start, image, n, 7);
    lemma_common_lookup(bytes, start, image, n, 8);
    lemma_common_lookup(bytes, start, image, n, 9);
    lemma_common_lookup(bytes, start, image, n, 16);
    lemma_common_lookup(bytes, start, image, n, 17);
    lemma_common_lookup(bytes, start, image, n, 18);
    lemma_common_lookup(bytes, start, image, n, 19);
    lemma_common_lookup(bytes, start, image, n, 20);
    lemma_common_lookup(bytes, start, image, n, 21);
    if image.planes != 1 {
        lemma_cube_lookup(image, n);
        lemma_lookup_concat(own, kept, "ZTILE3"@);
    }
    if image.quantized() {
        let extra = quantized_cards(image);
        assert forall|k: int| 0 <= k < 7 implies lookup(
            extension_views(bytes, start, image, n),
            (#[trigger] extra[k]).key,
        ) == Some(extra[k].text) by {
            lemma_quantized_lookup(image, n, k);
            lemma_lookup_concat(own, kept, extra[k].key);
        }
        assert(extra[0].key == "TTYPE2"@ && extra[1].key == "TFORM2"@ && extra[2].key == "TTYPE3"@
            && extra[3].key == "TFORM3"@ && extra[5].key == "ZDITHER0"@ && extra[6].key
            == "ZBLANK"@);
    }
}

proof fn lemma_extension_size(
    bytes: Seq<u8>,
    start: int,
    image: ImageShape,
    n: TableNumbers,
    tiles: Seq<Seq<u8>>,
)
    requires
        are_numbers_of(n, tiles, image.quantized()),
        table_size(tiles, image.quantized()) <= i64::MAX,
    ensures
        data_bytes(extension_views(bytes, start, image, n)) == Some(
            table_size(tiles, image.quantized()),
        ),
        lookup_number(extension_views(bytes, start, image, n), "NAXIS1"@) == Some(n.width as int),
        lookup_number(extension_views(bytes, start, image, n), "NAXIS2"@) == Some(n.rows as int),
        lookup_number(extension_views(bytes, start, image, n), "PCOUNT"@) == Some(n.heap as int),
{
    let views = extension_views(bytes, start, image, n);
    lemma_common_lookup(bytes, start, image, n, 1);
    lemma_common_lookup(bytes, start, image, n, 2);
    lemma_common_lookup(bytes, start, image, n, 3);
    lemma_common_lookup(bytes, start, image, n, 4);
    lemma_common_lookup(bytes, start, image, n, 5);
    lemma_common_lookup(bytes, start, image, n, 6);
    reveal_strlit("8");
    reveal_strlit("2");
    reveal_strlit("1");
    reveal_strlit("NAXIS");
    reveal_strlit("NAXIS1");
    reveal_strlit("NAXIS2");
    assert("8"@ =~= decimal(8));
    assert("2"@ =~= decimal(2));
    assert("1"@ =~= decimal(1));
    assert("NAXIS"@ + decimal(1) =~= "NAXIS1"@);
    assert("NAXIS"@ + decimal(2) =~= "NAXIS2"@);
    assert(0 <= n.rows * n.width) by (nonlinear_arith)
        requires
            n.rows >= 0,
            n.width >= 0,
    ;
    assert(n.rows * n.width == n.width * n.rows) by (nonlinear_arith);
    lemma_rows_fit(n.rows as int, n.width as int);
    lemma_number_in_card(8);
    lemma_number_in_card(2);
    lemma_number_in_card(1);
    lemma_number_in_card(n.width as nat);
    lemma_number_in_card(n.rows as nat);
    lemma_number_in_card(n.heap as nat);
    assert(axes_product(views, 0) == Some(1nat));
    assert(axis_of(views, 1) == n.width);
    let one = axes_product(views, 0)->Some_0;
    let axis = axis_of(views, 1);
    assert(one * axis == axis) by (nonlinear_arith)
        requires
            one == 1,
    ;
    assert(axes_product(views, 1) == Some(n.width as nat));
    assert(axis_of(views, 2) == n.rows);
    assert(axes_product(views, 2) == Some((n.width * n.rows) as nat));
    let depth = pixel_bytes(number_or(lookup_number(views, "BITPIX"@), 0));
    let groups = number_or(lookup_number(views, "GCOUNT"@), 1);
    let cells = number_or(lookup_number(views, "PCOUNT"@), 0) + axes_product(views, 2)->Some_0;
    assert(depth * (groups * cells) == cells) by (nonlinear_arith)
        requires
            depth == 1,
            groups == 1,
    ;
}

proof fn lemma_rows_fit(rows: int, width: int)
    requires
        0 <= rows,
        1 <= width,
        rows * width <= i64::MAX,
    ensures
        rows <= i64::MAX,
{
    assert(rows <= rows * width) by (nonlinear_arith)
        requires
            0 <= rows,
            1 <= width,
    ;
}

/// A written extension reads back: wherever it lies in a file, a reader finds a unit there that
/// ends where the extension does, whose data is the table. It says that it is an image compressed
/// by RICE_1, how its pixels were stored and how long its axes are; that it was quantized if and
/// only if it was; and of every key that is not written anew what the image's own header says.
pub proof fn extension_reads_back(
    piece: Seq<u8>,
    bytes: Seq<u8>,
    hdu: HduView,
    image: ImageShape,
    tiles: Seq<Seq<u8>>,
    scales: Option<Seq<RowScale>>,
    out: Seq<u8>,
    at: nat,
)
    requires
        hdu_at(bytes, hdu.header_start) == Ok::<HduView, Seq<char>>(hdu),
        image.bitpix < 0 || image.bitpix == 8 || image.bitpix == 16 || image.bitpix == 32,
        image.quantized() == (scales is Some),
        table_size(tiles, image.quantized()) <= i64::MAX,
        is_extension(piece, bytes, hdu.header_start as int, image, tiles, scales),
        at + piece.len() <= out.len() <= usize::MAX,
        out.subrange(at as int, (at + piece.len()) as int) == piece,
    ensures
        hdu_at(out, at) matches Ok(copy) && {
            let data = table_data(tiles, scales);
            &&& copy.header_start == at
            &&& copy.next_hdu_offset == at + piece.len()
            &&& copy.data_start + data.len() <= copy.next_hdu_offset
            &&& out.subrange(copy.data_start as int, (copy.data_start + data.len()) as int) == data
            &&& lookup_number(copy.cards, "NAXIS1"@) == Some(
                row_width(joined(tiles).len(), image.quantized()) as int,
            )
            &&& lookup_number(copy.cards, "NAXIS2"@) == Some(tiles.len() as int)
            &&& lookup_number(copy.cards, "PCOUNT"@) == Some(joined(tiles).len() as int)
            &&& tells_the_coding(copy.cards, image)
            &&& tells_the_descriptors(copy.cards, tiles)
            &&& lookup(copy.cards, "ZIMAGE"@) == Some("T"@)
            &&& lookup(copy.cards, "ZCMPTYPE"@) == Some("RICE_1"@)
            &&& lookup(copy.cards, "ZBITPIX"@) == Some(
                if image.quantized() {
                    "-32"@
                } else {
                    decimal(image.bitpix as nat)
                },
            )
            &&& lookup(copy.cards, "ZNAXIS"@) == Some(
                if image.planes == 1 {
                    "2"@
                } else {
                    "3"@
                },
            )
            &&& lookup(copy.cards, "ZNAXIS1"@) == Some(decimal(image.width as nat))
            &&& lookup(copy.cards, "ZNAXIS2"@) == Some(decimal(image.height as nat))
            &&& image.planes != 1 ==> lookup(copy.cards, "ZNAXIS3"@) == Some(
                decimal(image.planes as nat),
            )
            &&& lookup(copy.cards, "ZQUANTIZ"@) == if image.quantized() {
                Some("SUBTRACTIVE_DITHER_1"@)
            } else {
                None
            }
            &&& forall|key: Seq<char>|
                !is_dropped(key, image.quantized()) ==> #[trigger] lookup(copy.cards, key)
                    == lookup(hdu.cards, key)
        },
{
    let start = hdu.header_start as int;
    let q = image.quantized();
    let n = choose|n: TableNumbers| #[trigger]
        are_numbers_of(n, tiles, q) && piece == header_bytes(
            extension_cards(bytes, start, image, n),
        ) + data_blocks(tiles, scales);
    let cards = extension_cards(bytes, start, image, n);
    let own = all_own_bytes(own_cards(image, n));
    let kept = kept_cards(bytes, start, q);
    let head = header_bytes(cards);
    let views = extension_views(bytes, start, image, n);
    let data = table_data(tiles, scales);
    lemma_own_cards(image, n);
    carried_cards_say_the_same(bytes, start as nat, q, Seq::empty());
    assert(are_cards(cards)) by {
        assert forall|i: int| 0 <= i < cards.len() implies (#[trigger] cards[i]).len() == 80
            && !is_end(cards[i]) by {
            if i < own.len() {
                assert(cards[i] == own[i]);
            } else {
                assert(cards[i] == kept[i - own.len()]);
            }
        }
    }
    lemma_values_concat(own, kept);
    assert(out.subrange(at as int, at as int + head.len()) =~= head) by {
        assert forall|i: int| 0 <= i < head.len() implies #[trigger] out[at + i] == head[i] by {
            assert(piece[i] == head[i]);
            assert(out.subrange(at as int, (at + piece.len()) as int)[i] == piece[i]);
        }
    }
    header_reads_back(out, at as int, cards);
    lemma_extension_size(bytes, start, image, n, tiles);
    lemma_table_size(tiles, scales);
    assert(head.len() + data_blocks(tiles, scales).len() == piece.len());
    let from = (at + head.len()) as int;
    assert(out.subrange(from, from + data.len()) =~= data) by {
        let found = out.subrange(from, from + data.len());
        assert(from + data.len() <= at + piece.len());
        assert forall|i: int| 0 <= i < data.len() implies #[trigger] found[i] == data[i] by {
            assert(found[i] == out[from + i]);
            assert(piece[head.len() + i] == data_blocks(tiles, scales)[i]);
            assert(out.subrange(at as int, (at + piece.len()) as int)[head.len() + i]
                == piece[head.len() + i]);
        }
    }
    lemma_coding_told(bytes, hdu, image, n);
    lemma_common_lookup(bytes, start, image, n, 10);
    lemma_common_lookup(bytes, start, image, n, 11);
    lemma_common_lookup(bytes, start, image, n, 12);
    lemma_common_lookup(bytes, start, image, n, 13);
    lemma_common_lookup(bytes, start, image, n, 14);
    lemma_common_lookup(bytes, start, image, n, 15);
    lemma_own_lookups(image, n);
    lemma_lookup_concat(own_views(own_cards(image, n)), values_of(kept), "ZNAXIS3"@);
    lemma_lookup_concat(own_views(own_cards(image, n)), values_of(kept), "ZQUANTIZ"@);
    carried_cards_say_the_same(bytes, start as nat, q, "ZQUANTIZ"@);
    assert forall|key: Seq<char>| !is_dropped(key, q) implies #[trigger] lookup(views, key)
        == lookup(hdu.cards, key) by {
        let mine = own_views(own_cards(image, n));
        assert forall|i: int| 0 <= i < mine.len() implies (#[trigger] mine[i]).key != key by {
            assert(is_written(own_cards(image, n)[i]));
        }
        lemma_lookup_none(mine, key);
        lemma_lookup_concat(mine, values_of(kept), key);
        carried_cards_say_the_same(bytes, start as nat, q, key);
    }
}

/// The cards of a first unit without data.
pub open spec fn stub_cards() -> Seq<OwnCard> {
    seq![
        plain("SIMPLE"@, "T"@),
        plain("BITPIX"@, "8"@),
        plain("NAXIS"@, "0"@),
        plain("EXTEND"@, "T"@),
    ]
}

/// A first unit without data, with what the first header of a file says.
pub open spec fn stub_bytes(bytes: Seq<u8>) -> Seq<u8> {
    header_bytes(all_own_bytes(stub_cards()) + kept_cards(bytes, 0, false))
}

/// Writes a first unit without data, with what the first header of a file says.
pub fn write_stub(bytes: &[u8]) -> (piece: Vec<u8>)
    ensures
        piece@ == stub_bytes(bytes@),
{
    let mut cards: Vec<Vec<u8>> = Vec::new();
    cards.push(plain_card("SIMPLE", "T"));
    cards.push(plain_card("BITPIX", "8"));
    cards.push(plain_card("NAXIS", "0"));
    cards.push(plain_card("EXTEND", "T"));
    let mut kept = keep_cards(bytes, 0, false);
    let ghost own = all_own_bytes(stub_cards());
    let ghost carried = card_seqs(kept@);
    assert(card_seqs(cards@) =~= own);
    cards.append(&mut kept);
    assert(card_seqs(cards@) =~= own + carried);
    proof {
        if let Some(k) = cards_before_end(bytes@, 0, 0) {
            lemma_before_end(bytes@, 0, 0, k);
            lemma_kept(bytes@, 0, k, false, Seq::empty());
        }
        assert forall|i: int| 0 <= i < cards@.len() implies (#[trigger] cards@[i])@.len() == 80 by {
            assert((own + carried)[i] == cards@[i]@);
            if i < own.len() {
                assert(own[i] == own_bytes(stub_cards()[i]));
            } else {
                assert((own + carried)[i] == carried[i - own.len()]);
            }
        }
    }
    write_header(&cards)
}

proof fn lemma_stub_cards()
    ensures
        forall|i: int| 0 <= i < 4 ==> is_written(#[trigger] stub_cards()[i]),
{
    reveal_strlit("SIMPLE");
    reveal_strlit("BITPIX");
    reveal_strlit("NAXIS");
    reveal_strlit("EXTEND");
    reveal_strlit("END");
    reveal_strlit("T");
    reveal_strlit("8");
    reveal_strlit("0");
    lemma_begins("NAXIS"@, "NAXIS"@);
    let own = stub_cards();
    assert forall|i: int| 0 <= i < 4 implies is_written(#[trigger] own[i]) by {
        let key = own[i].key;
        assert(0 < key.len() <= 8);
        assert(is_ascii_text(key));
        assert(has_no_space(key));
        assert(key[1] != 'N');
        assert("END"@[1] == 'N');
        assert(is_plain(own[i].text));
    }
}

/// A first unit without data reads back: a reader finds a unit of one header, which says of every
/// key that is not written anew what the first header of the file says.
pub proof fn stub_reads_back(bytes: Seq<u8>, first: HduView, out: Seq<u8>)
    requires
        hdu_at(bytes, 0) == Ok::<HduView, Seq<char>>(first),
        stub_bytes(bytes).len() <= out.len() <= usize::MAX,
        out.take(stub_bytes(bytes).len() as int) == stub_bytes(bytes),
    ensures
        hdu_at(out, 0) matches Ok(copy) && {
            &&& copy.header_start == 0
            &&& copy.next_hdu_offset == stub_bytes(bytes).len()
            &&& copy.data_start == copy.next_hdu_offset
            &&& lookup(copy.cards, "SIMPLE"@) == Some("T"@)
            &&& lookup(copy.cards, "BITPIX"@) == Some("8"@)
            &&& lookup(copy.cards, "NAXIS"@) == Some("0"@)
            &&& lookup(copy.cards, "EXTEND"@) == Some("T"@)
            &&& forall|key: Seq<char>|
                !is_dropped(key, false) ==> #[trigger] lookup(copy.cards, key) == lookup(
                    first.cards,
                    key,
                )
        },
{
    let own = all_own_bytes(stub_cards());
    let kept = kept_cards(bytes, 0, false);
    let cards = own + kept;
    let mine = own_views(stub_cards());
    let views = mine + values_of(kept);
    lemma_stub_cards();
    lemma_own_list(stub_cards());
    carried_cards_say_the_same(bytes, 0, false, Seq::empty());
    assert(are_cards(cards)) by {
        assert forall|i: int| 0 <= i < cards.len() implies (#[trigger] cards[i]).len() == 80
            && !is_end(cards[i]) by {
            if i < own.len() {
                assert(cards[i] == own[i]);
            } else {
                assert(cards[i] == kept[i - own.len()]);
            }
        }
    }
    lemma_values_concat(own, kept);
    assert(out.subrange(0, header_bytes(cards).len() as int) =~= out.take(
        stub_bytes(bytes).len() as int,
    ));
    header_reads_back(out, 0, cards);
    reveal_strlit("SIMPLE");
    reveal_strlit("BITPIX");
    reveal_strlit("NAXIS");
    reveal_strlit("0");
    assert("0"@ =~= decimal(0));
    lemma_number_in_card(0);
    assert(views[0] == mine[0] && views[1] == mine[1] && views[2] == mine[2]);
    lemma_lookup_at(views, "SIMPLE"@, 0);
    assert("SIMPLE"@[0] != "NAXIS"@[0]);
    assert("BITPIX"@[0] != "NAXIS"@[0]);
    assert forall|j: int| 0 <= j < 2 implies (#[trigger] views[j]).key != "NAXIS"@ by {
        assert(j == 0 || j == 1);
    }
    lemma_lookup_at(views, "NAXIS"@, 2);
    reveal_strlit("EXTEND");
    assert(views[3] == mine[3]);
    assert("SIMPLE"@[0] != "BITPIX"@[0]);
    assert("EXTEND"@[0] == 'E' && "SIMPLE"@[0] == 'S' && "BITPIX"@[0] == 'B' && "NAXIS"@[0] == 'N');
    lemma_lookup_at(views, "BITPIX"@, 1);
    assert forall|j: int| 0 <= j < 3 implies (#[trigger] views[j]).key != "EXTEND"@ by {
        assert(j == 0 || j == 1 || j == 2);
    }
    lemma_lookup_at(views, "EXTEND"@, 3);
    assert(data_bytes(views) == Some(0nat));
    assert forall|key: Seq<char>| !is_dropped(key, false) implies #[trigger] lookup(views, key)
        == lookup(first.cards, key) by {
        assert forall|i: int| 0 <= i < mine.len() implies (#[trigger] mine[i]).key != key by {
            assert(is_written(stub_cards()[i]));
        }
        lemma_lookup_none(mine, key);
        lemma_lookup_concat(mine, values_of(kept), key);
        carried_cards_say_the_same(bytes, 0, false, key);
    }
}

} // verus!
