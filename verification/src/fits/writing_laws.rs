//! What is written for a compressed copy, column by column and number by number, and which units
//! are compressed.

use vstd::prelude::*;
use vstd::string::*;
use crate::fits::cards::{card_bytes, header_bytes, plain_field, quoted_field};
use crate::fits::extension::{
    data_blocks, descriptor_width, joined, lemma_before_end, longest, row_width, table_data,
    table_size, RowScale,
};
use crate::fits::header::{
    axes_product, axis_of, cards_before_end, data_bytes, hdu_at, lookup, lookup_number, number_or,
    pixel_bytes, CardView, HduView,
};
use crate::fits::mef_writer::{
    are_tiles_of, bitpix_error, exceeds_a_table, hdus_from, hdus_of, int_place, int_width,
    is_compressed, is_image, is_int_bitpix, planned, HduPlan, QuantizedUnit,
};
use crate::text::decimal;

verus! {

/// A written card has its key in the first eight columns, an equals sign and a blank behind them,
/// its value from the eleventh column on, and blanks to its end.
pub proof fn cards_keep_their_columns(key: Seq<char>, field: Seq<char>, i: int)
    requires
        key.len() <= 8,
        field.len() <= 70,
        0 <= i < 80,
    ensures
        card_bytes(key, field).len() == 80,
        i < key.len() ==> card_bytes(key, field)[i] == key[i] as u8,
        key.len() <= i < 8 ==> card_bytes(key, field)[i] == 0x20,
        card_bytes(key, field)[8] == 0x3d && card_bytes(key, field)[9] == 0x20,
        10 <= i < 10 + field.len() ==> card_bytes(key, field)[i] == field[i - 10] as u8,
        10 + field.len() <= i ==> card_bytes(key, field)[i] == 0x20,
{
}

/// A number or a flag ends in the thirtieth column of its card; a text stands between quotes from
/// the eleventh on.
pub proof fn values_stand_in_fixed_format(text: Seq<char>, i: int)
    ensures
        text.len() <= 20 ==> plain_field(text).len() == 20 && plain_field(text).skip(
            20 - text.len(),
        ) == text,
        0 <= i < 20 - text.len() ==> plain_field(text)[i] == ' ',
        quoted_field(text).len() == text.len() + 2,
        quoted_field(text)[0] == '\'' && quoted_field(text).last() == '\'',
        0 <= i < text.len() ==> quoted_field(text)[i + 1] == text[i],
{
    reveal_strlit("'");
    if text.len() <= 20 {
        assert(plain_field(text).skip(20 - text.len()) =~= text);
    }
}

/// A written header is its cards, one behind the other, a card that ends it, and blanks to the end
/// of its block.
pub proof fn headers_are_cards_and_an_end(cards: Seq<Seq<u8>>, n: int, k: int)
    requires
        forall|i: int| 0 <= i < cards.len() ==> (#[trigger] cards[i]).len() == 80,
        0 <= n < cards.len(),
        0 <= k < 80,
    ensures
        ({
            let h = header_bytes(cards);
            let end = 80 * cards.len() as int;
            &&& h.len() % 2880 == 0
            &&& end + 80 <= h.len() < end + 80 + 2880
            &&& h[80 * n + k] == cards[n][k]
            &&& h[end] == 0x45 && h[end + 1] == 0x4e && h[end + 2] == 0x44
            &&& forall|i: int| end + 3 <= i < h.len() ==> #[trigger] h[i] == 0x20
        }),
{
    let at = 80 * n + k;
    assert(at / 80 == n && at % 80 == k);
}

/// The data of an extension is its table and heap with zeros to the end of the block.
pub proof fn data_is_filled_with_zeros(
    tiles: Seq<Seq<u8>>,
    scales: Option<Seq<RowScale>>,
    i: int,
)
    ensures
        ({
            let data = table_data(tiles, scales);
            let blocks = data_blocks(tiles, scales);
            &&& blocks.len() % 2880 == 0
            &&& data.len() <= blocks.len() < data.len() + 2880
            &&& 0 <= i < data.len() ==> blocks[i] == data[i]
            &&& data.len() <= i < blocks.len() ==> blocks[i] == 0
        }),
{
}

/// The numbers of a descriptor have four bytes where the heap has at most `2^31 - 1`, else eight; a
/// row has one descriptor, and sixteen bytes more where the image was quantized.
pub proof fn descriptors_are_wide_enough(heap: nat)
    ensures
        heap <= 0x7fff_ffff ==> descriptor_width(heap) == 4 && row_width(heap, false) == 8
            && row_width(heap, true) == 24,
        heap > 0x7fff_ffff ==> descriptor_width(heap) == 8 && row_width(heap, false) == 16
            && row_width(heap, true) == 32,
{
}

/// The longest tile is a tile, and no tile is longer.
pub proof fn no_tile_is_longer_than_the_longest(tiles: Seq<Seq<u8>>, i: int)
    ensures
        0 <= i < tiles.len() ==> tiles[i].len() <= longest(tiles),
        tiles.len() == 0 ==> longest(tiles) == 0,
        tiles.len() > 0 ==> exists|j: int|
            0 <= j < tiles.len() && (#[trigger] tiles[j]).len() == longest(tiles),
    decreases tiles.len(),
{
    if tiles.len() > 0 {
        let front = tiles.drop_last();
        no_tile_is_longer_than_the_longest(
            front,
            if i < tiles.len() - 1 {
                i
            } else {
                0
            },
        );
        let last = tiles.len() - 1;
        if tiles[last].len() == longest(tiles) {
        } else {
            let j = choose|j: int|
                0 <= j < front.len() && (#[trigger] front[j]).len() == longest(front);
            assert(tiles[j] == front[j]);
        }
    }
}

/// Tiles one behind the other: what is joined begins with the first parts and ends with the last.
pub proof fn parts_are_joined_in_order(parts: Seq<Seq<u8>>, last: Seq<u8>)
    ensures
        joined(Seq::empty()) == Seq::<u8>::empty(),
        joined(parts.push(last)) == joined(parts) + last,
{
    assert(parts.push(last).drop_last() =~= parts);
}

/// Stored integers have one, two or four bytes, and follow one another without a gap.
pub proof fn integers_follow_one_another(i: int, bitpix: int)
    ensures
        is_int_bitpix(bitpix) <==> bitpix == 8 || bitpix == 16 || bitpix == 32,
        is_int_bitpix(bitpix) ==> int_width(bitpix) == bitpix / 8 && int_place(i, bitpix) == i * (
        bitpix / 8),
{
    if bitpix == 8 || bitpix == 16 || bitpix == 32 {
        assert(bitpix / 8 == 1 || bitpix / 8 == 2 || bitpix / 8 == 4);
    }
}

/// How a unit goes into the copy: tables, other numbers of axes and images compressed before as
/// they are; integers without loss; floating point numbers quantized; with the lengths of the axes,
/// from where the data starts to where it ends.
pub proof fn plans_follow_the_header(hdu: HduView, len: nat, bitpix: int, naxis: int)
    requires
        is_image(hdu.cards),
        !is_compressed(hdu.cards),
        lookup_number(hdu.cards, "NAXIS"@) == Some(naxis),
        naxis == 2 || naxis == 3,
        lookup_number(hdu.cards, "BITPIX"@) == Some(bitpix),
        hdu.data_start <= len <= usize::MAX,
        number_or(lookup_number(hdu.cards, "NAXIS1"@), 0) <= usize::MAX,
        number_or(lookup_number(hdu.cards, "NAXIS2"@), 0) <= usize::MAX,
        number_or(lookup_number(hdu.cards, "NAXIS3"@), 1) <= usize::MAX,
    ensures
        ({
            let w = number_or(lookup_number(hdu.cards, "NAXIS1"@), 0);
            let h = number_or(lookup_number(hdu.cards, "NAXIS2"@), 0);
            let d = if naxis == 3 {
                number_or(lookup_number(hdu.cards, "NAXIS3"@), 1)
            } else {
                1
            };
            let depth = if bitpix < 0 {
                -bitpix / 8
            } else {
                bitpix / 8
            };
            let fits = 0 <= w && 0 <= h && 0 <= d && hdu.data_start + w * h * d * depth <= len;
            let plan = planned(hdu, len);
            &&& !fits ==> plan is Err
            &&& fits && bitpix < 0 ==> (plan matches Ok(
                HduPlan::Quantized { width, height, planes, start, end, .. },
            ) && width == w && height == h && planes == d && start == hdu.data_start && end
                == hdu.data_start + w * h * d * depth)
            &&& fits && (bitpix == 8 || bitpix == 16 || bitpix == 32) ==> (plan matches Ok(
                HduPlan::Lossless { width, height, planes, start, end, .. },
            ) && width == w && height == h && planes == d && start == hdu.data_start && end
                == hdu.data_start + w * h * d * depth)
            &&& fits && bitpix >= 0 && bitpix != 8 && bitpix != 16 && bitpix != 32 ==> plan is Err
        }),
{
    let w = number_or(lookup_number(hdu.cards, "NAXIS1"@), 0);
    let h = number_or(lookup_number(hdu.cards, "NAXIS2"@), 0);
    let d = if naxis == 3 {
        number_or(lookup_number(hdu.cards, "NAXIS3"@), 1)
    } else {
        1
    };
    let depth = pixel_bytes(bitpix);
    if 0 <= w && 0 <= h && 0 <= d {
        let wh = w * h;
        let whd = wh * d;
        assert(0 <= wh) by (nonlinear_arith)
            requires
                wh == w * h,
                0 <= w,
                0 <= h,
        ;
        assert(0 <= whd) by (nonlinear_arith)
            requires
                whd == wh * d,
                0 <= wh,
                0 <= d,
        ;
        assert(0 <= whd * depth) by (nonlinear_arith)
            requires
                0 <= whd,
                0 <= depth,
        ;
    }
}

/// A unit whose header lacks `BITPIX` cannot be planned, nor one whose data the file does not hold;
/// the errors say so.
pub proof fn plans_fail_in_words(hdu: HduView, len: nat, n: nat)
    requires
        is_image(hdu.cards),
        !is_compressed(hdu.cards),
        2 <= number_or(lookup_number(hdu.cards, "NAXIS"@), 0) <= 3,
    ensures
        lookup_number(hdu.cards, "BITPIX"@) is None ==> planned(hdu, len) == Err::<
            HduPlan,
            Seq<char>,
        >("Missing BITPIX"@),
        lookup_number(hdu.cards, "BITPIX"@) is Some && lookup_number(hdu.cards, "NAXIS1"@) is Some
            && lookup_number(hdu.cards, "NAXIS1"@)->0 < 0 && lookup(hdu.cards, "EXTNAME"@) is None
            ==> planned(hdu, len) == Err::<HduPlan, Seq<char>>(
            "HDU data exceeds file size (EXTNAME="@ + "None"@ + ")"@,
        ),
        n <= i64::MAX ==> bitpix_error(n as i64)
            == "read_raw_ints_be: unsupported integer BITPIX "@ + decimal(n),
        0 < n <= i64::MAX ==> bitpix_error((-(n as int)) as i64)
            == "read_raw_ints_be: unsupported integer BITPIX "@ + ("-"@ + decimal(n)),
{
}

/// Data whose size makes no sense is refused: more than 999 axes, a negative axis, or pixels beyond
/// `2^63 - 1`.
pub proof fn absurd_sizes_are_refused(cards: Seq<CardView>, naxis: nat)
    requires
        lookup_number(cards, "NAXIS"@) == Some(naxis as int),
    ensures
        naxis > 999 ==> data_bytes(cards) is None,
        0 < naxis <= 999 && axes_product(cards, naxis) is None ==> data_bytes(cards) is None,
        naxis > 0 && axis_of(cards, naxis) < 0 ==> axes_product(cards, naxis) is None,
        naxis > 0 ==> (axes_product(cards, (naxis - 1) as nat) matches Some(p) ==> (axis_of(
            cards,
            naxis,
        ) >= 0 && p * axis_of(cards, naxis) <= i64::MAX ==> axes_product(cards, naxis) == Some(
            (p * axis_of(cards, naxis)) as nat,
        ))),
        naxis == 0 ==> data_bytes(cards) == Some(0nat),
{
}

/// A file is read unit by unit from its start; what is left over must be less than a block, a unit
/// that cannot be read is an error, and a file without a unit is one too.
pub proof fn files_are_read_unit_by_unit(bytes: Seq<u8>, offset: nat)
    ensures
        offset + 2880 > bytes.len() ==> hdus_from(bytes, offset) == Ok::<Seq<HduView>, Seq<char>>(
            Seq::empty(),
        ),
        offset + 2880 <= bytes.len() && hdu_at(bytes, offset) is Err ==> hdus_from(bytes, offset)
            == Err::<Seq<HduView>, Seq<char>>(hdu_at(bytes, offset)->Err_0),
        offset + 2880 <= bytes.len() ==> (hdu_at(bytes, offset) matches Ok(hdu)
            ==> hdu.next_hdu_offset > offset && hdus_from(bytes, offset) == match hdus_from(
            bytes,
            hdu.next_hdu_offset,
        ) {
            Ok(rest) => Ok::<Seq<HduView>, Seq<char>>(seq![hdu] + rest),
            Err(e) => Err(e),
        }),
        hdus_from(bytes, 0) matches Ok(hdus) ==> hdus.len() > 0 ==> hdus_of(bytes) == Ok::<
            Seq<HduView>,
            Seq<char>,
        >(hdus),
        hdus_from(bytes, 0) matches Err(e) ==> hdus_of(bytes) == Err::<Seq<HduView>, Seq<char>>(e),
        bytes.len() < 2880 ==> hdus_of(bytes) == Err::<Seq<HduView>, Seq<char>>(
            "No HDUs found in source file"@,
        ),
        cards_before_end(bytes, offset as int, 0) is None ==> hdu_at(bytes, offset) == Err::<
            HduView,
            Seq<char>,
        >("no END card in FITS header"@),
{
    if hdu_at(bytes, offset) is Ok {
        let n = cards_before_end(bytes, offset as int, 0)->0;
        lemma_before_end(bytes, offset as int, 0, n);
    }
}

/// A table takes its rows and the tiles behind them, and an image is refused only where its table
/// would take more bytes than `2^63 - 1`.
pub proof fn only_endless_tables_are_refused(
    bytes: Seq<u8>,
    plan: HduPlan,
    unit: QuantizedUnit,
    tiles: Seq<Seq<u8>>,
    quantized: bool,
)
    ensures
        table_size(tiles, quantized) == tiles.len() * row_width(joined(tiles).len(), quantized)
            + joined(tiles).len(),
        exceeds_a_table(bytes, plan, unit) ==> exists|tiles: Seq<Seq<u8>>| #[trigger]
            are_tiles_of(tiles, bytes, plan, unit) && tiles.len() * row_width(
                joined(tiles).len(),
                plan is Quantized,
            ) + joined(tiles).len() > 0x7fff_ffff_ffff_ffff,
{
    if exceeds_a_table(bytes, plan, unit) {
        let found = choose|tiles: Seq<Seq<u8>>| #[trigger]
            are_tiles_of(tiles, bytes, plan, unit) && table_size(tiles, plan is Quantized)
                > i64::MAX;
        assert(are_tiles_of(found, bytes, plan, unit));
    }
}

} // verus!
