//! What a reader finds in the compressed copy of a file: the units of the file, with what they hold.

use vstd::prelude::*;
use crate::fits::extension::{
    descriptor_width, extension_reads_back, is_dropped, is_extension, joined, lemma_before_end,
    lemma_joined_prefix, lemma_part_of_joined, lemma_table_size, longest, number_in, row_in,
    row_width, stub_bytes, stub_reads_back, table_data, table_size, tells_the_coding, tile_found,
    tiles_are_found, ImageShape,
};
use crate::fits::header::{
    card_at, cards_before_end, first_cards, hdu_at, in_blocks, is_end, lookup, lookup_number,
    number_or, CardView, HduView,
};
use crate::fits::mef_writer::{
    all_can_be_copied, are_tiles_of, can_be_copied, coding_of, compressed_pixels_lie_in_the_file,
    hdus_from, hdus_of, image_of, int_place, integers_survive, is_compressed, is_copy_of, is_image,
    is_int_bitpix, is_planned_copy, is_unit_copy, lemma_row_of_plane, planned, scales_of,
    stored_int, stored_row, units_are_read_where_they_start, units_follow_one_another, HduPlan,
    QuantizedUnit,
};
use crate::fits::rice::{decoded, RiceParams};
use crate::fits::rice_encode::{is_tile, rice_round_trip};
use crate::fits::writing_laws::no_tile_is_longer_than_the_longest;
use crate::text::decimal;

verus! {

proof fn lemma_same_cards(a: Seq<u8>, sa: int, b: Seq<u8>, sb: int, len: int, n: int, i: int)
    requires
        0 <= i <= n,
        0 <= sa,
        0 <= sb,
        80 * (n + 1) <= len,
        sa + len <= a.len(),
        sb + len <= b.len(),
        a.subrange(sa, sa + len) == b.subrange(sb, sb + len),
        cards_before_end(a, sa, i) == Some(n),
    ensures
        cards_before_end(b, sb, i) == Some(n),
        first_cards(b, sb, i) == first_cards(a, sa, i),
    decreases n - i,
{
    lemma_same_first(a, sa, b, sb, len, i);
    lemma_same_card(a, sa, b, sb, len, i);
    if !is_end(card_at(a, sa, i)) {
        lemma_before_end(a, sa, i, n);
        lemma_same_cards(a, sa, b, sb, len, n, i + 1);
    }
}

proof fn lemma_same_card(a: Seq<u8>, sa: int, b: Seq<u8>, sb: int, len: int, i: int)
    requires
        0 <= i,
        0 <= sa,
        0 <= sb,
        80 * (i + 1) <= len,
        sa + len <= a.len(),
        sb + len <= b.len(),
        a.subrange(sa, sa + len) == b.subrange(sb, sb + len),
    ensures
        card_at(a, sa, i) == card_at(b, sb, i),
{
    let x = card_at(a, sa, i);
    let y = card_at(b, sb, i);
    assert forall|k: int| 0 <= k < 80 implies #[trigger] x[k] == y[k] by {
        assert(a.subrange(sa, sa + len)[80 * i + k] == x[k]);
        assert(b.subrange(sb, sb + len)[80 * i + k] == y[k]);
    }
    assert(x =~= y);
}

proof fn lemma_same_first(a: Seq<u8>, sa: int, b: Seq<u8>, sb: int, len: int, n: int)
    requires
        0 <= n,
        0 <= sa,
        0 <= sb,
        80 * n <= len,
        sa + len <= a.len(),
        sb + len <= b.len(),
        a.subrange(sa, sa + len) == b.subrange(sb, sb + len),
    ensures
        first_cards(b, sb, n) == first_cards(a, sa, n),
    decreases n,
{
    if n > 0 {
        lemma_same_first(a, sa, b, sb, len, n - 1);
        lemma_same_card(a, sa, b, sb, len, n - 1);
    }
}

/// A unit that is copied as it is reads the same wherever it lies.
pub proof fn copied_units_read_the_same(bytes: Seq<u8>, hdu: HduView, out: Seq<u8>, at: nat)
    requires
        hdu_at(bytes, hdu.header_start) == Ok::<HduView, Seq<char>>(hdu),
        hdu.next_hdu_offset <= bytes.len(),
        at + (hdu.next_hdu_offset - hdu.header_start) <= out.len() <= usize::MAX,
        out.subrange(at as int, at + (hdu.next_hdu_offset - hdu.header_start)) == bytes.subrange(
            hdu.header_start as int,
            hdu.next_hdu_offset as int,
        ),
    ensures
        hdu_at(out, at) matches Ok(copy) && {
            &&& copy.cards == hdu.cards
            &&& copy.header_start == at
            &&& copy.data_start - at == hdu.data_start - hdu.header_start
            &&& copy.next_hdu_offset - at == hdu.next_hdu_offset - hdu.header_start
        },
{
    let start = hdu.header_start as int;
    let len = hdu.next_hdu_offset - hdu.header_start;
    let n = cards_before_end(bytes, start, 0)->Some_0;
    lemma_before_end(bytes, start, 0, n);
    assert(80 * (n + 1) <= in_blocks((80 * (n + 1)) as nat));
    assert(start + len == hdu.next_hdu_offset);
    assert(bytes.subrange(start, start + len) == out.subrange(at as int, at + len));
    lemma_same_cards(bytes, start, out, at as int, len, n, 0);
    lemma_same_first(bytes, start, out, at as int, len, n);
}

/// The table of a compressed unit and its heap, as its header gives their sizes.
pub open spec fn table_in(out: Seq<u8>, copy: HduView) -> Seq<u8> {
    let width = number_or(lookup_number(copy.cards, "NAXIS1"@), 0);
    let rows = number_or(lookup_number(copy.cards, "NAXIS2"@), 0);
    let heap = number_or(lookup_number(copy.cards, "PCOUNT"@), 0);
    out.subrange(copy.data_start as int, copy.data_start + rows * width + heap)
}

/// The bytes of each of the two numbers of a descriptor, as the header of a compressed unit gives
/// the width of a row.
pub open spec fn descriptor_in(copy: HduView, quantized: bool) -> int {
    let width = number_or(lookup_number(copy.cards, "NAXIS1"@), 0);
    if quantized {
        (width - 16) / 2
    } else {
        width / 2
    }
}

/// Row `t` of the table of a compressed unit.
pub open spec fn row_of_copy(out: Seq<u8>, copy: HduView, t: int) -> Seq<u8> {
    row_in(table_in(out, copy), number_or(lookup_number(copy.cards, "NAXIS1"@), 0), t)
}

/// Tile `t` of a compressed unit, as a reader finds it.
pub open spec fn tile_of_copy(out: Seq<u8>, copy: HduView, quantized: bool, t: int) -> Seq<u8> {
    tile_found(
        table_in(out, copy),
        number_or(lookup_number(copy.cards, "NAXIS2"@), 0),
        number_or(lookup_number(copy.cards, "NAXIS1"@), 0),
        descriptor_in(copy, quantized),
        t,
    )
}

/// Whether a header says that its unit is an image compressed by RICE_1 with some axes, and of
/// every key that is not written anew what the image's own header says.
pub open spec fn says_compressed(copy: Seq<CardView>, own: Seq<CardView>, image: ImageShape) -> bool {
    &&& tells_the_coding(copy, image)
    &&& lookup(copy, "TFORM1"@) matches Some(format) && if lookup_number(copy, "NAXIS1"@) == Some(
        if image.quantized() {
            24int
        } else {
            8
        },
    ) {
        "1PB("@.is_prefix_of(format)
    } else {
        &&& "1QB("@.is_prefix_of(format)
        &&& lookup_number(copy, "NAXIS1"@) == Some(
            if image.quantized() {
                32int
            } else {
                16
            },
        )
    }
    &&& lookup(copy, "ZIMAGE"@) == Some("T"@)
    &&& lookup(copy, "ZCMPTYPE"@) == Some("RICE_1"@)
    &&& lookup(copy, "ZBITPIX"@) == Some(
        if image.quantized() {
            "-32"@
        } else {
            decimal(image.bitpix as nat)
        },
    )
    &&& lookup(copy, "ZNAXIS"@) == Some(
        if image.planes == 1 {
            "2"@
        } else {
            "3"@
        },
    )
    &&& lookup(copy, "ZNAXIS1"@) == Some(decimal(image.width as nat))
    &&& lookup(copy, "ZNAXIS2"@) == Some(decimal(image.height as nat))
    &&& image.planes != 1 ==> lookup(copy, "ZNAXIS3"@) == Some(decimal(image.planes as nat))
    &&& forall|key: Seq<char>|
        !is_dropped(key, image.quantized()) ==> #[trigger] lookup(copy, key) == lookup(own, key)
}

/// Whether the table of a compressed image lies in the file, with a row for each row of pixels.
pub open spec fn table_lies_in(copy: HduView, out: Seq<u8>, image: ImageShape) -> bool {
    let width = number_or(lookup_number(copy.cards, "NAXIS1"@), 0);
    &&& lookup_number(copy.cards, "NAXIS2"@) == Some(image.rows() as int)
    &&& lookup_number(copy.cards, "PCOUNT"@) matches Some(heap) && heap >= 0 && copy.data_start
        + image.rows() * width + heap <= out.len()
}

/// Whether no tile of a compressed image is longer than `widest` bytes, and one is as long.
pub open spec fn is_widest(copy: HduView, out: Seq<u8>, image: ImageShape, widest: nat) -> bool {
    &&& forall|t: int|
        0 <= t < image.rows() ==> (#[trigger] tile_of_copy(out, copy, image.quantized(), t)).len()
            <= widest
    &&& image.rows() > 0 ==> exists|t: int|
        0 <= t < image.rows() && (#[trigger] tile_of_copy(
            out,
            copy,
            image.quantized(),
            t,
        )).len() == widest
}

/// Whether the format of the first column of a compressed image tells its longest tile.
pub open spec fn tells_the_longest(copy: HduView, out: Seq<u8>, image: ImageShape) -> bool {
    exists|widest: nat|
        {
            &&& #[trigger] is_widest(copy, out, image, widest)
            &&& lookup(copy.cards, "TFORM1"@) == Some(
                (if descriptor_in(copy, image.quantized()) == 4 {
                    "1PB("@
                } else {
                    "1QB("@
                }) + decimal(widest) + ")"@,
            )
        }
}

/// Whether a unit of the copy holds what a unit of the file does. One that is copied as it is has
/// the same bytes. The tiles of an integer image decode to the stored integers, row by row, and
/// nothing is quantized. The tiles of a quantized image decode to its rows, and with each row
/// stand its scale and its zero point.
pub open spec fn is_faithful(
    copy: HduView,
    out: Seq<u8>,
    bytes: Seq<u8>,
    hdu: HduView,
    plan: HduPlan,
    unit: QuantizedUnit,
) -> bool {
    let image = image_of(plan);
    match plan {
        HduPlan::Verbatim { .. } => {
            &&& copy.cards == hdu.cards
            &&& out.subrange(copy.header_start as int, copy.next_hdu_offset as int)
                == bytes.subrange(hdu.header_start as int, hdu.next_hdu_offset as int)
        },
        HduPlan::Lossless { start, .. } => {
            &&& says_compressed(copy.cards, hdu.cards, image)
            &&& table_lies_in(copy, out, image)
            &&& tells_the_longest(copy, out, image)
            &&& lookup(copy.cards, "ZQUANTIZ"@) is None
            &&& forall|t: int|
                0 <= t < image.rows() ==> decoded(
                    #[trigger] tile_of_copy(out, copy, false, t),
                    image.width as nat,
                    coding_of(image),
                ) == stored_row(bytes, start as int, image, t).map_values(|v: i64| v as int)
        },
        HduPlan::Quantized { .. } => {
            &&& says_compressed(copy.cards, hdu.cards, image)
            &&& table_lies_in(copy, out, image)
            &&& tells_the_longest(copy, out, image)
            &&& lookup(copy.cards, "ZQUANTIZ"@) == Some("SUBTRACTIVE_DITHER_1"@)
            &&& forall|t: int|
                0 <= t < image.rows() && all_representable(unit.rows@[t]@, coding_of(image))
                    ==> decoded(
                    #[trigger] tile_of_copy(out, copy, true, t),
                    image.width as nat,
                    coding_of(image),
                ) == unit.rows@[t]@.map_values(|v: i64| v as int)
            &&& forall|t: int|
                0 <= t < image.rows() ==> {
                    let d = descriptor_in(copy, true);
                    let row = #[trigger] row_of_copy(out, copy, t);
                    &&& number_in(row, 2 * d, 8) == unit.scales@[t].scale
                    &&& number_in(row, 2 * d + 8, 8) == unit.scales@[t].zero
                }
        },
    }
}

/// Whether the pixels of a row fit their coding.
pub open spec fn all_representable(row: Seq<i64>, p: RiceParams) -> bool {
    forall|i: int| 0 <= i < row.len() ==> p.representable(#[trigger] row[i] as int)
}

proof fn lemma_stored_row(bytes: Seq<u8>, start: int, image: ImageShape, t: int, tile: Seq<u8>)
    requires
        is_int_bitpix(image.bitpix as int),
        is_tile(tile, stored_row(bytes, start, image, t), coding_of(image)),
    ensures
        decoded(tile, image.width as nat, coding_of(image)) == stored_row(
            bytes,
            start,
            image,
            t,
        ).map_values(|v: i64| v as int),
{
    let row = stored_row(bytes, start, image, t);
    let places = Seq::new(
        image.width as nat,
        |x: int| start + int_place(t * image.width + x, image.bitpix as int),
    );
    assert forall|i: int| 0 <= i < row.len() implies #[trigger] row[i] == stored_int(
        bytes,
        places[i],
        image.bitpix as int,
    ) by {
        assert(-2147483648 <= stored_int(bytes, places[i], image.bitpix as int) < 4294967296);
    }
    integers_survive(bytes, image.bitpix as int, places, row, tile, coding_of(image));
}

proof fn lemma_format_begins(widest: nat)
    ensures
        "1PB("@.is_prefix_of("1PB("@ + decimal(widest) + ")"@),
        "1QB("@.is_prefix_of("1QB("@ + decimal(widest) + ")"@),
{
    reveal_strlit("1PB(");
    reveal_strlit("1QB(");
    let p = "1PB("@ + decimal(widest) + ")"@;
    let q = "1QB("@ + decimal(widest) + ")"@;
    assert("1PB("@ =~= p.subrange(0, 4));
    assert("1QB("@ =~= q.subrange(0, 4));
}

/// The copy of a unit reads back: wherever it lies in a file, a reader finds a unit there that ends
/// where the copy does, and that holds what the unit of the source does.
pub proof fn unit_copy_reads_back(
    piece: Seq<u8>,
    bytes: Seq<u8>,
    hdu: HduView,
    plan: HduPlan,
    unit: QuantizedUnit,
    out: Seq<u8>,
    at: nat,
)
    requires
        bytes.len() <= usize::MAX,
        hdu_at(bytes, hdu.header_start) == Ok::<HduView, Seq<char>>(hdu),
        planned(hdu, bytes.len()) == Ok::<HduPlan, Seq<char>>(plan),
        can_be_copied(bytes.len(), plan, unit),
        is_unit_copy(piece, bytes, hdu, plan, unit),
        at + piece.len() <= out.len() <= usize::MAX,
        out.subrange(at as int, (at + piece.len()) as int) == piece,
    ensures
        hdu_at(out, at) matches Ok(copy) && {
            &&& copy.header_start == at
            &&& copy.next_hdu_offset == at + piece.len()
            &&& is_faithful(copy, out, bytes, hdu, plan, unit)
        },
{
    if plan is Verbatim {
        copied_units_read_the_same(bytes, hdu, out, at);
    } else {
        let image = image_of(plan);
        let q = plan is Quantized;
        let scales = scales_of(plan, unit);
        let tiles = choose|tiles: Seq<Seq<u8>>|
            {
                &&& #[trigger] are_tiles_of(tiles, bytes, plan, unit)
                &&& table_size(tiles, q) <= i64::MAX
                &&& is_extension(piece, bytes, hdu.header_start as int, image, tiles, scales)
            };
        compressed_pixels_lie_in_the_file(hdu, bytes.len());
        assert(image.quantized() == q);
        extension_reads_back(piece, bytes, hdu, image, tiles, scales, out, at);
        let copy = hdu_at(out, at)->Ok_0;
        lemma_format_begins(longest(tiles));
        let width = row_width(joined(tiles).len(), q) as int;
        assert(0 <= tiles.len() * width) by (nonlinear_arith)
            requires
                width >= 0,
        ;
        assert(table_in(out, copy) == table_data(tiles, scales)) by {
            lemma_table_size(tiles, scales);
        }
        assert(table_lies_in(copy, out, image)) by {
            lemma_table_size(tiles, scales);
        }
        assert(descriptor_in(copy, q) == descriptor_width(joined(tiles).len()));
        assert forall|t: int| 0 <= t < tiles.len() implies #[trigger] tile_of_copy(out, copy, q, t)
            == tiles[t] by {
            tiles_are_found(tiles, scales, t);
        }
        assert(tells_the_longest(copy, out, image)) by {
            let widest = longest(tiles);
            assert forall|t: int| 0 <= t < image.rows() implies (#[trigger] tile_of_copy(
                out,
                copy,
                q,
                t,
            )).len() <= widest by {
                no_tile_is_longer_than_the_longest(tiles, t);
            }
            if image.rows() > 0 {
                no_tile_is_longer_than_the_longest(tiles, 0);
                let j = choose|j: int|
                    0 <= j < tiles.len() && (#[trigger] tiles[j]).len() == widest;
                assert(tile_of_copy(out, copy, q, j).len() == widest);
            }
            assert(is_widest(copy, out, image, widest));
        }
        if plan is Lossless {
            let start = plan->Lossless_start as int;
            assert forall|t: int| 0 <= t < image.rows() implies decoded(
                #[trigger] tile_of_copy(out, copy, false, t),
                image.width as nat,
                coding_of(image),
            ) == stored_row(bytes, start, image, t).map_values(|v: i64| v as int) by {
                assert(tile_of_copy(out, copy, q, t) == tiles[t]);
                lemma_stored_row(bytes, start, image, t, tiles[t]);
            }
        } else {
            assert forall|t: int|
                0 <= t < image.rows() && all_representable(
                    unit.rows@[t]@,
                    coding_of(image),
                ) implies decoded(
                #[trigger] tile_of_copy(out, copy, true, t),
                image.width as nat,
                coding_of(image),
            ) == unit.rows@[t]@.map_values(|v: i64| v as int) by {
                assert(tile_of_copy(out, copy, q, t) == tiles[t]);
                rice_round_trip(tiles[t], unit.rows@[t]@, coding_of(image));
            }
            assert forall|t: int| 0 <= t < image.rows() implies {
                let d = descriptor_in(copy, true);
                let row = #[trigger] row_of_copy(out, copy, t);
                &&& number_in(row, 2 * d, 8) == unit.scales@[t].scale
                &&& number_in(row, 2 * d + 8, 8) == unit.scales@[t].zero
            } by {
                tiles_are_found(tiles, scales, t);
            }
        }
    }
}

/// The name of an extension is carried over.
pub proof fn names_are_carried_over(quantized: bool)
    ensures
        !is_dropped("EXTNAME"@, quantized),
{
    reveal_strlit("EXTNAME");
    reveal_strlit("SIMPLE");
    reveal_strlit("XTENSION");
    reveal_strlit("BITPIX");
    reveal_strlit("PCOUNT");
    reveal_strlit("GCOUNT");
    reveal_strlit("EXTEND");
    reveal_strlit("TFIELDS");
    reveal_strlit("THEAP");
    reveal_strlit("CHECKSUM");
    reveal_strlit("DATASUM");
    reveal_strlit("ZIMAGE");
    reveal_strlit("ZCMPTYPE");
    reveal_strlit("ZBITPIX");
    reveal_strlit("ZQUANTIZ");
    reveal_strlit("ZDITHER0");
    reveal_strlit("ZBLANK");
    reveal_strlit("NAXIS");
    reveal_strlit("TTYPE");
    reveal_strlit("TFORM");
    reveal_strlit("ZNAXIS");
    reveal_strlit("ZTILE");
    reveal_strlit("ZNAME");
    reveal_strlit("ZVAL");
    reveal_strlit("BSCALE");
    reveal_strlit("BZERO");
    reveal_strlit("BLANK");
    let name = "EXTNAME"@;
    assert(name.len() == 7 && name[0] == 'E');
    assert("TFIELDS"@[0] == 'T');
    assert("DATASUM"@[0] == 'D');
    assert("ZBITPIX"@[0] == 'Z');
    if "NAXIS"@.is_prefix_of(name) {
        assert(name.subrange(0, 5)[0] == name[0]);
        assert("NAXIS"@[0] == 'N');
    }
    if "TTYPE"@.is_prefix_of(name) {
        assert(name.subrange(0, 5)[0] == name[0]);
        assert("TTYPE"@[0] == 'T');
    }
    if "TFORM"@.is_prefix_of(name) {
        assert(name.subrange(0, 5)[0] == name[0]);
        assert("TFORM"@[0] == 'T');
    }
    if "ZNAXIS"@.is_prefix_of(name) {
        assert(name.subrange(0, 6)[0] == name[0]);
        assert("ZNAXIS"@[0] == 'Z');
    }
    if "ZTILE"@.is_prefix_of(name) {
        assert(name.subrange(0, 5)[0] == name[0]);
        assert("ZTILE"@[0] == 'Z');
    }
    if "ZNAME"@.is_prefix_of(name) {
        assert(name.subrange(0, 5)[0] == name[0]);
        assert("ZNAME"@[0] == 'Z');
    }
    if "ZVAL"@.is_prefix_of(name) {
        assert(name.subrange(0, 4)[0] == name[0]);
        assert("ZVAL"@[0] == 'Z');
    }
}

/// Where piece `i` of a copy starts.
pub open spec fn piece_start(pieces: Seq<Seq<u8>>, i: int) -> nat {
    joined(pieces.take(i)).len()
}

/// What a reader finds where piece `i` of a copy starts.
pub open spec fn found_at(pieces: Seq<Seq<u8>>, i: int) -> HduView {
    hdu_at(joined(pieces), piece_start(pieces, i))->Ok_0
}

/// Whether a reader finds a unit where piece `i` starts, which ends where the piece does.
pub open spec fn is_found(pieces: Seq<Seq<u8>>, i: int) -> bool {
    hdu_at(joined(pieces), piece_start(pieces, i)) matches Ok(copy) && copy.next_hdu_offset
        == piece_start(pieces, i) + pieces[i].len()
}

proof fn lemma_scan(pieces: Seq<Seq<u8>>, i: int)
    requires
        0 <= i <= pieces.len(),
        forall|j: int| 0 <= j < pieces.len() ==> #[trigger] is_found(pieces, j),
    ensures
        hdus_from(joined(pieces), piece_start(pieces, i)) matches Ok(copies) && {
            &&& copies.len() == pieces.len() - i
            &&& forall|k: int|
                0 <= k < copies.len() ==> #[trigger] copies[k] == found_at(pieces, i + k)
        },
    decreases pieces.len() - i,
{
    let out = joined(pieces);
    let at = piece_start(pieces, i);
    if i == pieces.len() {
        assert(pieces.take(i) =~= pieces);
    } else {
        assert(is_found(pieces, i));
        lemma_joined_prefix(pieces, i);
        lemma_joined_prefix(pieces, i + 1);
        let hdu = hdu_at(out, at)->Ok_0;
        assert(piece_start(pieces, i + 1) == hdu.next_hdu_offset);
        lemma_unit_has_a_block(out, at);
        lemma_scan(pieces, i + 1);
        let rest = hdus_from(out, hdu.next_hdu_offset)->Ok_0;
        let copies = seq![hdu] + rest;
        assert forall|k: int| 0 <= k < copies.len() implies #[trigger] copies[k] == found_at(
            pieces,
            i + k,
        ) by {
            if k > 0 {
                assert(copies[k] == rest[k - 1]);
                assert(rest[k - 1] == found_at(pieces, (i + 1) + (k - 1)));
            }
        }
    }
}

proof fn lemma_unit_has_a_block(bytes: Seq<u8>, start: nat)
    ensures
        hdu_at(bytes, start) matches Ok(hdu) ==> start + 2880 <= hdu.next_hdu_offset,
{
    if let Some(n) = cards_before_end(bytes, start as int, 0) {
        lemma_before_end(bytes, start as int, 0, n);
        assert(in_blocks((80 * (n + 1)) as nat) >= 2880);
    }
}

/// Whether unit `i` of a copy, as a reader finds it, holds what unit `i` of the file does, under
/// the same name.
pub open spec fn holds_unit(
    copy: HduView,
    out: Seq<u8>,
    bytes: Seq<u8>,
    hdu: HduView,
    unit: QuantizedUnit,
) -> bool {
    &&& is_faithful(copy, out, bytes, hdu, planned(hdu, bytes.len())->Ok_0, unit)
    &&& lookup(copy.cards, "EXTNAME"@) == lookup(hdu.cards, "EXTNAME"@)
}

/// Whether the first unit of a copy says what the first header of the file says.
pub open spec fn says_the_same(copy: HduView, first: HduView) -> bool {
    &&& lookup(copy.cards, "SIMPLE"@) == Some("T"@)
    &&& lookup(copy.cards, "BITPIX"@) == Some("8"@)
    &&& lookup(copy.cards, "NAXIS"@) == Some("0"@)
    &&& lookup(copy.cards, "EXTEND"@) == Some("T"@)
    &&& forall|key: Seq<char>|
        !is_dropped(key, false) ==> #[trigger] lookup(copy.cards, key) == lookup(first.cards, key)
}

proof fn lemma_names_match(
    copy: HduView,
    out: Seq<u8>,
    bytes: Seq<u8>,
    hdu: HduView,
    plan: HduPlan,
    unit: QuantizedUnit,
)
    requires
        is_faithful(copy, out, bytes, hdu, plan, unit),
    ensures
        lookup(copy.cards, "EXTNAME"@) == lookup(hdu.cards, "EXTNAME"@),
{
    names_are_carried_over(true);
    names_are_carried_over(false);
}

proof fn lemma_first_found(bytes: Seq<u8>, first: HduView, pieces: Seq<Seq<u8>>)
    requires
        hdu_at(bytes, 0) == Ok::<HduView, Seq<char>>(first),
        pieces.len() > 0,
        pieces[0] == stub_bytes(bytes),
        joined(pieces).len() <= usize::MAX,
    ensures
        is_found(pieces, 0),
        found_at(pieces, 0).data_start == found_at(pieces, 0).next_hdu_offset,
        says_the_same(found_at(pieces, 0), first),
{
    let out = joined(pieces);
    lemma_part_of_joined(pieces, 0);
    assert(pieces.take(0) =~= Seq::<Seq<u8>>::empty());
    assert(out.take(pieces[0].len() as int) =~= out.subrange(0, pieces[0].len() as int));
    stub_reads_back(bytes, first, out);
}

proof fn lemma_unit_found(
    bytes: Seq<u8>,
    hdu: HduView,
    unit: QuantizedUnit,
    pieces: Seq<Seq<u8>>,
    j: int,
)
    requires
        bytes.len() <= usize::MAX,
        hdu_at(bytes, hdu.header_start) == Ok::<HduView, Seq<char>>(hdu),
        0 <= j < pieces.len(),
        is_planned_copy(pieces[j], bytes, hdu, unit),
        can_be_copied(bytes.len(), planned(hdu, bytes.len())->Ok_0, unit),
        joined(pieces).len() <= usize::MAX,
    ensures
        is_found(pieces, j),
        holds_unit(found_at(pieces, j), joined(pieces), bytes, hdu, unit),
{
    let out = joined(pieces);
    let plan = planned(hdu, bytes.len())->Ok_0;
    lemma_part_of_joined(pieces, j);
    unit_copy_reads_back(pieces[j], bytes, hdu, plan, unit, out, piece_start(pieces, j));
    lemma_names_match(found_at(pieces, j), out, bytes, hdu, plan, unit);
}

/// The compressed copy of a file holds what the file does: a reader finds as many units in it as in
/// the file, in the same order and nothing else. The first one has no data and says what the first
/// header says, and every other one holds what the unit of the file does, under the same name.
pub proof fn copy_holds_every_unit(
    bytes: Seq<u8>,
    hdus: Seq<HduView>,
    units: Seq<QuantizedUnit>,
    pieces: Seq<Seq<u8>>,
)
    requires
        bytes.len() <= usize::MAX,
        hdus_of(bytes) == Ok::<Seq<HduView>, Seq<char>>(hdus),
        all_can_be_copied(bytes, hdus, units),
        is_copy_of(pieces, bytes, hdus, units),
        joined(pieces).len() <= usize::MAX,
    ensures
        hdus_of(joined(pieces)) matches Ok(copies) && {
            &&& copies.len() == hdus.len()
            &&& copies.last().next_hdu_offset == joined(pieces).len()
            &&& copies[0].data_start == copies[0].next_hdu_offset
            &&& says_the_same(copies[0], hdus[0])
            &&& forall|i: int|
                1 <= i < copies.len() ==> holds_unit(
                    #[trigger] copies[i],
                    joined(pieces),
                    bytes,
                    hdus[i],
                    units[i - 1],
                )
        },
{
    units_are_read_where_they_start(bytes, 0);
    units_follow_one_another(bytes, 0);
    lemma_first_found(bytes, hdus[0], pieces);
    assert forall|j: int| 0 <= j < pieces.len() implies {
        &&& #[trigger] is_found(pieces, j)
        &&& j > 0 ==> holds_unit(
            found_at(pieces, j),
            joined(pieces),
            bytes,
            hdus[j],
            units[j - 1],
        )
    } by {
        if j > 0 {
            assert(is_planned_copy(pieces[j], bytes, hdus[j], units[j - 1]));
            assert(hdus[j] == hdus[(j - 1) + 1]);
            assert(can_be_copied(
                bytes.len(),
                planned(hdus[j], bytes.len())->Ok_0,
                units[j - 1],
            ));
            lemma_unit_found(bytes, hdus[j], units[j - 1], pieces, j);
        }
    }
    assert(pieces.take(0) =~= Seq::<Seq<u8>>::empty());
    lemma_scan(pieces, 0);
    let copies = hdus_from(joined(pieces), 0)->Ok_0;
    let last = pieces.len() - 1;
    assert(copies[0] == found_at(pieces, 0));
    assert(copies[last] == found_at(pieces, last));
    assert(is_found(pieces, last));
    lemma_joined_prefix(pieces, last);
    assert(pieces.take(last + 1) =~= pieces);
    assert forall|i: int| 1 <= i < copies.len() implies holds_unit(
        #[trigger] copies[i],
        joined(pieces),
        bytes,
        hdus[i],
        units[i - 1],
    ) by {
        assert(copies[i] == found_at(pieces, i));
        assert(is_found(pieces, i));
    }
}

/// Row `y` of plane `k` of the stored integers of an image.
pub open spec fn plane_row(bytes: Seq<u8>, start: int, image: ImageShape, k: int, y: int) -> Seq<
    int,
> {
    Seq::new(
        image.width as nat,
        |x: int|
            stored_int(
                bytes,
                start + int_place(
                    k * (image.width * image.height) + (y * image.width + x),
                    image.bitpix as int,
                ),
                image.bitpix as int,
            ),
    )
}

/// Whether an image came out compressed: its copy says RICE_1, keeps its name, and says the lengths
/// of its axes. Where it holds integers, nothing is quantized, and the tile of row `y` of plane `k`
/// decodes to the integers that are stored there; where it holds floating point numbers, they are
/// quantized by subtractive dithering. Its pixels lie in the file.
pub open spec fn came_out_compressed(copy: HduView, out: Seq<u8>, bytes: Seq<u8>, hdu: HduView) -> bool {
    let plan = planned(hdu, bytes.len())->Ok_0;
    let image = image_of(plan);
    &&& lookup(copy.cards, "ZCMPTYPE"@) == Some("RICE_1"@)
    &&& lookup(copy.cards, "EXTNAME"@) == lookup(hdu.cards, "EXTNAME"@)
    &&& lookup(copy.cards, "ZNAXIS1"@) == Some(decimal(image.width as nat))
    &&& lookup(copy.cards, "ZNAXIS2"@) == Some(decimal(image.height as nat))
    &&& image.planes != 1 ==> lookup(copy.cards, "ZNAXIS3"@) == Some(decimal(image.planes as nat))
    &&& lookup_number(hdu.cards, "BITPIX"@) matches Some(bitpix) && if bitpix < 0 {
        &&& plan is Quantized
        &&& lookup(copy.cards, "ZQUANTIZ"@) == Some("SUBTRACTIVE_DITHER_1"@)
        &&& hdu.data_start <= plan->Quantized_end <= bytes.len()
    } else {
        &&& plan is Lossless
        &&& lookup(copy.cards, "ZQUANTIZ"@) is None
        &&& hdu.data_start <= plan->Lossless_end <= bytes.len()
        &&& decodes_to_planes(copy, out, bytes, hdu.data_start as int, image)
    }
}

/// Whether the tile of row `y` of plane `k` decodes to the integers that are stored there, for each
/// row of each plane.
pub open spec fn decodes_to_planes(
    copy: HduView,
    out: Seq<u8>,
    bytes: Seq<u8>,
    start: int,
    image: ImageShape,
) -> bool {
    forall|k: int, y: int|
        #![trigger plane_row(bytes, start, image, k, y)]
        0 <= k < image.planes && 0 <= y < image.height && image.width > 0 ==> decoded(
            tile_of_copy(out, copy, false, k * image.height + y),
            image.width as nat,
            coding_of(image),
        ) == plane_row(bytes, start, image, k, y)
}

proof fn lemma_decodes_to_planes(
    copy: HduView,
    out: Seq<u8>,
    bytes: Seq<u8>,
    start: int,
    image: ImageShape,
)
    requires
        is_int_bitpix(image.bitpix as int),
        forall|t: int|
            0 <= t < image.rows() ==> decoded(
                #[trigger] tile_of_copy(out, copy, false, t),
                image.width as nat,
                coding_of(image),
            ) == stored_row(bytes, start, image, t).map_values(|v: i64| v as int),
    ensures
        decodes_to_planes(copy, out, bytes, start, image),
{
    assert forall|k: int, y: int|
        #![trigger plane_row(bytes, start, image, k, y)]
        0 <= k < image.planes && 0 <= y < image.height && image.width > 0 implies decoded(
        tile_of_copy(out, copy, false, k * image.height + y),
        image.width as nat,
        coding_of(image),
    ) == plane_row(bytes, start, image, k, y) by {
        let t = k * image.height + y;
        let height = image.height as int;
        let planes = image.planes as int;
        lemma_row_of_plane(k, y, height, image.width as int);
        assert(0 <= t < planes * height) by (nonlinear_arith)
            requires
                t == k * height + y,
                0 <= k < planes,
                0 <= y < height,
        ;
        let row = stored_row(bytes, start, image, t).map_values(|v: i64| v as int);
        let want = plane_row(bytes, start, image, k, y);
        assert(decoded(tile_of_copy(out, copy, false, t), image.width as nat, coding_of(image))
            == row);
        assert forall|x: int| 0 <= x < image.width implies #[trigger] row[x] == want[x] by {
            assert(t * image.width + x == k * (image.width * image.height) + (y * image.width
                + x));
            assert(row[x] == stored_row(bytes, start, image, t)[x]);
        }
        assert(row =~= want);
    }
}

proof fn lemma_image_came_out(
    copy: HduView,
    out: Seq<u8>,
    bytes: Seq<u8>,
    hdu: HduView,
    unit: QuantizedUnit,
)
    requires
        bytes.len() <= usize::MAX,
        planned(hdu, bytes.len()) is Ok,
        holds_unit(copy, out, bytes, hdu, unit),
        is_image(hdu.cards),
        !is_compressed(hdu.cards),
        2 <= number_or(lookup_number(hdu.cards, "NAXIS"@), 0) <= 3,
    ensures
        came_out_compressed(copy, out, bytes, hdu),
{
    let plan = planned(hdu, bytes.len())->Ok_0;
    compressed_pixels_lie_in_the_file(hdu, bytes.len());
    if plan is Lossless {
        lemma_decodes_to_planes(copy, out, bytes, hdu.data_start as int, image_of(plan));
    }
}

/// Every plain image of two or three axes comes out compressed: integers exactly, plane by plane
/// and row by row, and floating point numbers quantized.
pub proof fn images_come_out_compressed(
    bytes: Seq<u8>,
    hdus: Seq<HduView>,
    units: Seq<QuantizedUnit>,
    pieces: Seq<Seq<u8>>,
    i: int,
)
    requires
        bytes.len() <= usize::MAX,
        hdus_of(bytes) == Ok::<Seq<HduView>, Seq<char>>(hdus),
        all_can_be_copied(bytes, hdus, units),
        is_copy_of(pieces, bytes, hdus, units),
        joined(pieces).len() <= usize::MAX,
        1 <= i < hdus.len(),
        is_image(hdus[i].cards),
        !is_compressed(hdus[i].cards),
        2 <= number_or(lookup_number(hdus[i].cards, "NAXIS"@), 0) <= 3,
    ensures
        hdus_of(joined(pieces)) matches Ok(copies) && came_out_compressed(
            copies[i],
            joined(pieces),
            bytes,
            hdus[i],
        ),
{
    copy_holds_every_unit(bytes, hdus, units, pieces);
    let out = joined(pieces);
    let copies = hdus_of(out)->Ok_0;
    assert(is_planned_copy(pieces[i], bytes, hdus[i], units[i - 1]));
    assert(holds_unit(copies[i], out, bytes, hdus[i], units[i - 1]));
    lemma_image_came_out(copies[i], out, bytes, hdus[i], units[i - 1]);
}

} // verus!
