//! What a reader who knows the FITS standard finds in the compressed copy of a file: every card
//! but those of the standard that say how data is stored, and every pixel of its integer images.

use vstd::prelude::*;
use vstd::arithmetic::power::{lemma_pow0, lemma_pow1, lemma_pow_adds, pow};
use vstd::string::*;
use crate::fits::cards::lemma_number_in_card;
use crate::fits::copy_reads_back::{
    all_representable, came_out_compressed, copy_holds_every_unit, descriptor_in, holds_unit,
    images_come_out_compressed, is_faithful, is_widest, plane_row, row_of_copy, says_compressed,
    tile_of_copy,
};
use crate::fits::extension::{from_big_endian, is_dropped, joined, kept_cards, kept_of, number_in};
use crate::fits::header::{
    as_text, card_at, cards_before_end, lemma_numbers_fit, lookup, lookup_number, number_or,
    CardView, HduView,
};
use crate::fits::mef_writer::{
    all_can_be_copied, can_be_copied, coding_of, compressed_pixels_lie_in_the_file, hdus_of,
    image_of, int_place, is_compressed, is_copy_of, is_image, is_planned_copy, planned, stored_int,
    HduPlan, QuantizedUnit,
};
use crate::fits::rice::{decoded, RiceParams};
use crate::text::{decimal, lowered, trimmed};
use crate::text_laws::lemma_trimmed_whole;

verus! {

/// Every card of a header is found in the copy with the same value, but for the keys of the
/// standard that say how the data is stored, those of a compressed image, and the two checksums;
/// of a unit of floating point numbers, which are scaled anew, also but for the three that scale.
pub proof fn other_cards_are_carried_over(
    bytes: Seq<u8>,
    hdus: Seq<HduView>,
    units: Seq<QuantizedUnit>,
    pieces: Seq<Seq<u8>>,
    i: int,
    key: Seq<char>,
)
    requires
        bytes.len() <= usize::MAX,
        hdus_of(bytes) == Ok::<Seq<HduView>, Seq<char>>(hdus),
        all_can_be_copied(bytes, hdus, units),
        is_copy_of(pieces, bytes, hdus, units),
        joined(pieces).len() <= usize::MAX,
        0 <= i < hdus.len(),
        key != "SIMPLE"@ && key != "XTENSION"@ && key != "BITPIX"@ && key != "PCOUNT"@,
        key != "GCOUNT"@ && key != "EXTEND"@ && key != "TFIELDS"@ && key != "THEAP"@,
        key != "CHECKSUM"@ && key != "DATASUM"@ && key != "ZIMAGE"@ && key != "ZCMPTYPE"@,
        key != "ZBITPIX"@ && key != "ZQUANTIZ"@ && key != "ZDITHER0"@ && key != "ZBLANK"@,
        !"NAXIS"@.is_prefix_of(key) && !"TTYPE"@.is_prefix_of(key) && !"TFORM"@.is_prefix_of(key),
        !"ZNAXIS"@.is_prefix_of(key) && !"ZTILE"@.is_prefix_of(key),
        !"ZNAME"@.is_prefix_of(key) && !"ZVAL"@.is_prefix_of(key),
        (key != "BSCALE"@ && key != "BZERO"@ && key != "BLANK"@) || i == 0 || number_or(
            lookup_number(hdus[i].cards, "BITPIX"@),
            0,
        ) >= 0,
    ensures
        hdus_of(joined(pieces)) matches Ok(copies) && lookup(copies[i].cards, key) == lookup(
            hdus[i].cards,
            key,
        ),
{
    copy_holds_every_unit(bytes, hdus, units, pieces);
    let out = joined(pieces);
    let copies = hdus_of(out)->Ok_0;
    if i == 0 {
        assert(!is_dropped(key, false));
    } else {
        let hdu = hdus[i];
        assert(is_planned_copy(pieces[i], bytes, hdu, units[i - 1]));
        assert(holds_unit(copies[i], out, bytes, hdu, units[i - 1]));
        let plan = planned(hdu, bytes.len())->Ok_0;
        compressed_pixels_lie_in_the_file(hdu, bytes.len());
        if !(plan is Verbatim) {
            assert(!is_dropped(key, image_of(plan).quantized()));
        }
    }
}

/// The keys by which an image is placed on the sky come over, with every other key that begins with
/// a `C` or an `E` and is none of the few that say how data is stored.
pub proof fn coordinates_are_carried_over(
    bytes: Seq<u8>,
    hdus: Seq<HduView>,
    units: Seq<QuantizedUnit>,
    pieces: Seq<Seq<u8>>,
    i: int,
    key: Seq<char>,
)
    requires
        bytes.len() <= usize::MAX,
        hdus_of(bytes) == Ok::<Seq<HduView>, Seq<char>>(hdus),
        all_can_be_copied(bytes, hdus, units),
        is_copy_of(pieces, bytes, hdus, units),
        joined(pieces).len() <= usize::MAX,
        0 <= i < hdus.len(),
        key.len() > 1,
        (key[0] == 'C' && key[1] != 'H') || (key[0] == 'E' && key.last() != 'D'),
    ensures
        hdus_of(joined(pieces)) matches Ok(copies) && lookup(copies[i].cards, key) == lookup(
            hdus[i].cards,
            key,
        ),
{
    lemma_no_storage_key(key);
    other_cards_are_carried_over(bytes, hdus, units, pieces, i, key);
}

proof fn lemma_begins_alike(start: Seq<char>, s: Seq<char>)
    requires
        start.is_prefix_of(s),
        start.len() > 0,
    ensures
        s.len() > 0,
        s[0] == start[0],
{
    assert(start == s.subrange(0, start.len() as int));
    assert(s.subrange(0, start.len() as int)[0] == s[0]);
}

proof fn lemma_no_storage_key(key: Seq<char>)
    requires
        key.len() > 1,
        (key[0] == 'C' && key[1] != 'H') || (key[0] == 'E' && key.last() != 'D'),
    ensures
        key != "SIMPLE"@ && key != "XTENSION"@ && key != "BITPIX"@ && key != "PCOUNT"@,
        key != "GCOUNT"@ && key != "EXTEND"@ && key != "TFIELDS"@ && key != "THEAP"@,
        key != "CHECKSUM"@ && key != "DATASUM"@ && key != "ZIMAGE"@ && key != "ZCMPTYPE"@,
        key != "ZBITPIX"@ && key != "ZQUANTIZ"@ && key != "ZDITHER0"@ && key != "ZBLANK"@,
        key != "BSCALE"@ && key != "BZERO"@ && key != "BLANK"@,
        !"NAXIS"@.is_prefix_of(key) && !"TTYPE"@.is_prefix_of(key) && !"TFORM"@.is_prefix_of(key),
        !"ZNAXIS"@.is_prefix_of(key) && !"ZTILE"@.is_prefix_of(key),
        !"ZNAME"@.is_prefix_of(key) && !"ZVAL"@.is_prefix_of(key),
{
    reveal_strlit("SIMPLE");
    reveal_strlit("XTENSION");
    reveal_strlit("BITPIX");
    reveal_strlit("PCOUNT");
    reveal_strlit("GCOUNT");
    reveal_strlit("EXTEND");
    reveal_strlit("TFIELDS");
    reveal_strlit("THEAP");
    reveal_strlit("CHECKSUM");
    reveal_strlit("DATASUM");
    reveal_strlit("ZIMAGE");
    reveal_strlit("ZCMPTYPE");
    reveal_strlit("ZBITPIX");
    reveal_strlit("ZQUANTIZ");
    reveal_strlit("ZDITHER0");
    reveal_strlit("ZBLANK");
    reveal_strlit("NAXIS");
    reveal_strlit("TTYPE");
    reveal_strlit("TFORM");
    reveal_strlit("ZNAXIS");
    reveal_strlit("ZTILE");
    reveal_strlit("ZNAME");
    reveal_strlit("ZVAL");
    reveal_strlit("BSCALE");
    reveal_strlit("BZERO");
    reveal_strlit("BLANK");
    assert("SIMPLE"@[0] == 'S' && "XTENSION"@[0] == 'X' && "BITPIX"@[0] == 'B');
    assert("PCOUNT"@[0] == 'P' && "GCOUNT"@[0] == 'G' && "EXTEND"@.last() == 'D' && "EXTEND"@[0]
        == 'E');
    assert("TFIELDS"@[0] == 'T' && "THEAP"@[0] == 'T' && "CHECKSUM"@[1] == 'H' && "CHECKSUM"@[0]
        == 'C');
    assert("DATASUM"@[0] == 'D' && "ZIMAGE"@[0] == 'Z' && "ZCMPTYPE"@[0] == 'Z');
    assert("ZBITPIX"@[0] == 'Z' && "ZQUANTIZ"@[0] == 'Z' && "ZDITHER0"@[0] == 'Z');
    assert("ZBLANK"@[0] == 'Z' && "BSCALE"@[0] == 'B' && "BZERO"@[0] == 'B' && "BLANK"@[0] == 'B');
    if "NAXIS"@.is_prefix_of(key) {
        lemma_begins_alike("NAXIS"@, key);
        assert("NAXIS"@[0] == 'N');
    }
    if "TTYPE"@.is_prefix_of(key) {
        lemma_begins_alike("TTYPE"@, key);
        assert("TTYPE"@[0] == 'T');
    }
    if "TFORM"@.is_prefix_of(key) {
        lemma_begins_alike("TFORM"@, key);
        assert("TFORM"@[0] == 'T');
    }
    if "ZNAXIS"@.is_prefix_of(key) {
        lemma_begins_alike("ZNAXIS"@, key);
        assert("ZNAXIS"@[0] == 'Z');
    }
    if "ZTILE"@.is_prefix_of(key) {
        lemma_begins_alike("ZTILE"@, key);
        assert("ZTILE"@[0] == 'Z');
    }
    if "ZNAME"@.is_prefix_of(key) {
        lemma_begins_alike("ZNAME"@, key);
        assert("ZNAME"@[0] == 'Z');
    }
    if "ZVAL"@.is_prefix_of(key) {
        lemma_begins_alike("ZVAL"@, key);
        assert("ZVAL"@[0] == 'Z');
    }
}

/// Whether the header `c` of a compressed image tells how its pixels are coded, and what they were
/// in a unit with the header `own`.
pub open spec fn tells_a_reader(c: Seq<CardView>, own: Seq<CardView>, bitpix: int) -> bool {
    &&& lookup(c, "XTENSION"@) == Some("BINTABLE"@)
    &&& lookup(c, "BITPIX"@) == Some("8"@)
    &&& lookup(c, "NAXIS"@) == Some("2"@)
    &&& lookup(c, "GCOUNT"@) == Some("1"@)
    &&& lookup(c, "TTYPE1"@) == Some("COMPRESSED_DATA"@)
    &&& lookup(c, "ZIMAGE"@) == Some("T"@)
    &&& lookup(c, "ZCMPTYPE"@) == Some("RICE_1"@)
    &&& lookup(c, "ZTILE1"@) == lookup(c, "ZNAXIS1"@)
    &&& lookup(c, "ZTILE2"@) == Some("1"@)
    &&& lookup(c, "ZNAME1"@) == Some("BLOCKSIZE"@)
    &&& lookup(c, "ZVAL1"@) == Some("32"@)
    &&& lookup(c, "ZNAME2"@) == Some("BYTEPIX"@)
    &&& lookup(c, "CHECKSUM"@) is None && lookup(c, "DATASUM"@) is None
    &&& bitpix > 0 ==> {
        &&& lookup(c, "TFIELDS"@) == Some("1"@)
        &&& lookup_number(c, "ZBITPIX"@) == Some(bitpix)
        &&& lookup_number(c, "ZVAL2"@) == Some(bitpix / 8)
        &&& lookup(c, "ZQUANTIZ"@) is None
    }
    &&& bitpix < 0 ==> {
        &&& lookup(c, "TFIELDS"@) == Some("3"@)
        &&& lookup(c, "TTYPE2"@) == Some("ZSCALE"@) && lookup(c, "TFORM2"@) == Some("1D"@)
        &&& lookup(c, "TTYPE3"@) == Some("ZZERO"@) && lookup(c, "TFORM3"@) == Some("1D"@)
        &&& lookup(c, "ZBITPIX"@) == Some("-32"@)
        &&& lookup_number(c, "ZVAL2"@) == Some(4int)
        &&& lookup(c, "ZQUANTIZ"@) == Some("SUBTRACTIVE_DITHER_1"@)
        &&& lookup(c, "ZDITHER0"@) == Some("1"@)
        &&& lookup(c, "ZBLANK"@) == Some("-2147483648"@)
        &&& lookup(c, "BSCALE"@) is None && lookup(c, "BZERO"@) is None && lookup(
            c,
            "BLANK"@,
        ) is None
    }
    &&& number_or(lookup_number(own, "NAXIS1"@), 0) <= usize::MAX ==> lookup_number(c, "ZNAXIS1"@)
        == Some(number_or(lookup_number(own, "NAXIS1"@), 0))
    &&& number_or(lookup_number(own, "NAXIS2"@), 0) <= usize::MAX ==> lookup_number(c, "ZNAXIS2"@)
        == Some(number_or(lookup_number(own, "NAXIS2"@), 0))
    &&& lookup_number(own, "NAXIS"@) == Some(2int) ==> lookup_number(c, "ZNAXIS"@) == Some(2int)
    &&& lookup_number(own, "NAXIS"@) == Some(3int) && number_or(lookup_number(own, "NAXIS3"@), 1)
        <= usize::MAX ==> if number_or(lookup_number(own, "NAXIS3"@), 1) == 1 {
        lookup_number(c, "ZNAXIS"@) == Some(2int)
    } else {
        &&& lookup_number(c, "ZNAXIS"@) == Some(3int)
        &&& lookup_number(c, "ZNAXIS3"@) == lookup_number(own, "NAXIS3"@)
        &&& lookup(c, "ZTILE3"@) == Some("1"@)
    }
}

proof fn lemma_told(
    copy: HduView,
    out: Seq<u8>,
    bytes: Seq<u8>,
    hdu: HduView,
    unit: QuantizedUnit,
    bitpix: int,
)
    requires
        bytes.len() <= usize::MAX,
        planned(hdu, bytes.len()) is Ok,
        holds_unit(copy, out, bytes, hdu, unit),
        is_image(hdu.cards),
        !is_compressed(hdu.cards),
        2 <= number_or(lookup_number(hdu.cards, "NAXIS"@), 0) <= 3,
        lookup_number(hdu.cards, "BITPIX"@) == Some(bitpix),
    ensures
        tells_a_reader(copy.cards, hdu.cards, bitpix),
{
    let plan = planned(hdu, bytes.len())->Ok_0;
    let image = image_of(plan);
    compressed_pixels_lie_in_the_file(hdu, bytes.len());
    assert(says_compressed(copy.cards, hdu.cards, image));
    lemma_numbers_fit(hdu.cards, "NAXIS1"@);
    lemma_numbers_fit(hdu.cards, "NAXIS2"@);
    lemma_numbers_fit(hdu.cards, "NAXIS3"@);
    lemma_number_in_card(image.width as nat);
    lemma_number_in_card(image.height as nat);
    lemma_number_in_card(image.planes as nat);
    lemma_number_in_card(image.coded_bytes());
    lemma_number_in_card(2);
    lemma_number_in_card(3);
    reveal_strlit("2");
    reveal_strlit("3");
    assert("2"@ =~= decimal(2));
    assert("3"@ =~= decimal(3));
    if bitpix > 0 {
        lemma_number_in_card(bitpix as nat);
    }
}

/// A reader is told how the pixels of a compressed image are coded, and what they were: a binary
/// table of one tile for each row, RICE_1 in blocks of 32 pixels of as many bytes as the integers
/// had, or of four for numbers that were quantized; and of what was true of the uncompressed unit
/// alone nothing.
pub proof fn a_reader_is_told_the_coding(
    bytes: Seq<u8>,
    hdus: Seq<HduView>,
    units: Seq<QuantizedUnit>,
    pieces: Seq<Seq<u8>>,
    i: int,
    bitpix: int,
)
    requires
        bytes.len() <= usize::MAX,
        hdus_of(bytes) == Ok::<Seq<HduView>, Seq<char>>(hdus),
        all_can_be_copied(bytes, hdus, units),
        is_copy_of(pieces, bytes, hdus, units),
        joined(pieces).len() <= usize::MAX,
        1 <= i < hdus.len(),
        is_image(hdus[i].cards),
        !is_compressed(hdus[i].cards),
        2 <= number_or(lookup_number(hdus[i].cards, "NAXIS"@), 0) <= 3,
        lookup_number(hdus[i].cards, "BITPIX"@) == Some(bitpix),
    ensures
        hdus_of(joined(pieces)) matches Ok(copies) && tells_a_reader(
            copies[i].cards,
            hdus[i].cards,
            bitpix,
        ),
{
    copy_holds_every_unit(bytes, hdus, units, pieces);
    let out = joined(pieces);
    let copies = hdus_of(out)->Ok_0;
    assert(is_planned_copy(pieces[i], bytes, hdus[i], units[i - 1]));
    assert(holds_unit(copies[i], out, bytes, hdus[i], units[i - 1]));
    lemma_told(copies[i], out, bytes, hdus[i], units[i - 1], bitpix);
}

/// Whether pixel `x` of row `y` of plane `k` of an integer image comes out as it was: row `y` of
/// plane `k` is the tile with the number `k * height + y`, and it decodes, in blocks of 32 pixels
/// of as many bytes as the integers have, to the integers that the file stores there.
pub open spec fn pixel_comes_out(
    copy: HduView,
    out: Seq<u8>,
    bytes: Seq<u8>,
    hdu: HduView,
    bitpix: int,
    place: (int, int, int),
) -> bool {
    let width = number_or(lookup_number(hdu.cards, "NAXIS1"@), 0);
    let height = number_or(lookup_number(hdu.cards, "NAXIS2"@), 0);
    let (k, y, x) = place;
    let p = RiceParams { blocksize: 32, bytepix: (bitpix / 8) as u32, signed: bitpix != 8 };
    let row = decoded(tile_of_copy(out, copy, false, k * height + y), width as nat, p);
    &&& bitpix == 8 || bitpix == 16 || bitpix == 32
    &&& row.len() == width
    &&& row[x] == stored_int(
        bytes,
        hdu.data_start + (bitpix / 8) * ((k * height + y) * width + x),
        bitpix,
    )
}

proof fn lemma_pixel(
    copy: HduView,
    out: Seq<u8>,
    bytes: Seq<u8>,
    hdu: HduView,
    bitpix: int,
    place: (int, int, int),
)
    requires
        bytes.len() <= usize::MAX,
        planned(hdu, bytes.len()) is Ok,
        came_out_compressed(copy, out, bytes, hdu),
        lookup_number(hdu.cards, "BITPIX"@) == Some(bitpix),
        bitpix > 0,
        number_or(lookup_number(hdu.cards, "NAXIS1"@), 0) <= usize::MAX,
        number_or(lookup_number(hdu.cards, "NAXIS2"@), 0) <= usize::MAX,
        number_or(lookup_number(hdu.cards, "NAXIS3"@), 1) <= usize::MAX,
        0 <= place.0 < (if lookup_number(hdu.cards, "NAXIS"@) == Some(3int) {
            number_or(lookup_number(hdu.cards, "NAXIS3"@), 1)
        } else {
            1
        }),
        0 <= place.1 < number_or(lookup_number(hdu.cards, "NAXIS2"@), 0),
        0 <= place.2 < number_or(lookup_number(hdu.cards, "NAXIS1"@), 0),
    ensures
        pixel_comes_out(copy, out, bytes, hdu, bitpix, place),
{
    let (k, y, x) = place;
    let plan = planned(hdu, bytes.len())->Ok_0;
    let image = image_of(plan);
    compressed_pixels_lie_in_the_file(hdu, bytes.len());
    let width = number_or(lookup_number(hdu.cards, "NAXIS1"@), 0);
    let height = number_or(lookup_number(hdu.cards, "NAXIS2"@), 0);
    lemma_numbers_fit(hdu.cards, "NAXIS1"@);
    lemma_numbers_fit(hdu.cards, "NAXIS2"@);
    lemma_numbers_fit(hdu.cards, "NAXIS3"@);
    assert(image.width == width && image.height == height && image.bitpix == bitpix);
    let row = plane_row(bytes, hdu.data_start as int, image, k, y);
    assert(k * (width * height) + (y * width + x) == (k * height + y) * width + x)
        by (nonlinear_arith);
    assert(row[x] == stored_int(
        bytes,
        hdu.data_start + int_place(k * (width * height) + (y * width + x), bitpix),
        bitpix,
    ));
}

/// Every pixel of an integer image comes out as it was.
pub proof fn integers_come_out_exactly(
    bytes: Seq<u8>,
    hdus: Seq<HduView>,
    units: Seq<QuantizedUnit>,
    pieces: Seq<Seq<u8>>,
    i: int,
    bitpix: int,
    place: (int, int, int),
)
    requires
        bytes.len() <= usize::MAX,
        hdus_of(bytes) == Ok::<Seq<HduView>, Seq<char>>(hdus),
        all_can_be_copied(bytes, hdus, units),
        is_copy_of(pieces, bytes, hdus, units),
        joined(pieces).len() <= usize::MAX,
        1 <= i < hdus.len(),
        is_image(hdus[i].cards),
        !is_compressed(hdus[i].cards),
        lookup_number(hdus[i].cards, "BITPIX"@) == Some(bitpix),
        bitpix > 0,
        lookup_number(hdus[i].cards, "NAXIS"@) == Some(2int) || lookup_number(
            hdus[i].cards,
            "NAXIS"@,
        ) == Some(3int),
        number_or(lookup_number(hdus[i].cards, "NAXIS1"@), 0) <= usize::MAX,
        number_or(lookup_number(hdus[i].cards, "NAXIS2"@), 0) <= usize::MAX,
        number_or(lookup_number(hdus[i].cards, "NAXIS3"@), 1) <= usize::MAX,
        0 <= place.0 < (if lookup_number(hdus[i].cards, "NAXIS"@) == Some(3int) {
            number_or(lookup_number(hdus[i].cards, "NAXIS3"@), 1)
        } else {
            1
        }),
        0 <= place.1 < number_or(lookup_number(hdus[i].cards, "NAXIS2"@), 0),
        0 <= place.2 < number_or(lookup_number(hdus[i].cards, "NAXIS1"@), 0),
    ensures
        hdus_of(joined(pieces)) matches Ok(copies) && pixel_comes_out(
            copies[i],
            joined(pieces),
            bytes,
            hdus[i],
            bitpix,
            place,
        ),
{
    images_come_out_compressed(bytes, hdus, units, pieces, i);
    assert(is_planned_copy(pieces[i], bytes, hdus[i], units[i - 1]));
    let copies = hdus_of(joined(pieces))->Ok_0;
    lemma_pixel(copies[i], joined(pieces), bytes, hdus[i], bitpix, place);
}

/// Bytes count by their place, the first most.
pub proof fn bytes_count_by_their_place(a: Seq<u8>, b: Seq<u8>)
    ensures
        from_big_endian(a + b) == from_big_endian(a) * pow(256, b.len()) + from_big_endian(b),
        from_big_endian(Seq::empty()) == 0,
        a.len() == 1 ==> from_big_endian(a) == a[0],
    decreases b.len(),
{
    assert(from_big_endian(Seq::<u8>::empty()) == 0);
    if a.len() == 1 {
        assert(a.drop_last() =~= Seq::<u8>::empty());
    }
    if b.len() == 0 {
        assert(a + b =~= a);
        lemma_pow0(256);
    } else {
        let front = b.drop_last();
        assert((a + b).drop_last() =~= a + front);
        bytes_count_by_their_place(a, front);
        lemma_pow_adds(256, front.len(), 1);
        lemma_pow1(256);
        let va = from_big_endian(a) as int;
        let p = pow(256, front.len());
        assert(va * (p * 256) == (va * p) * 256) by (nonlinear_arith);
    }
}

/// The tile of a row lies where its descriptor says: the row begins with two numbers of `d` bytes
/// each, how long the tile is and where it starts behind the rows of the table; a row has nothing
/// more, or sixteen bytes more where the image was quantized.
pub proof fn tiles_lie_where_their_descriptors_say(
    out: Seq<u8>,
    copy: HduView,
    quantized: bool,
    t: int,
    d: int,
    rows: int,
    heap: int,
)
    requires
        d == 4 || d == 8,
        lookup_number(copy.cards, "NAXIS1"@) == Some(
            if quantized {
                2 * d + 16
            } else {
                2 * d
            },
        ),
        lookup_number(copy.cards, "NAXIS2"@) == Some(rows),
        lookup_number(copy.cards, "PCOUNT"@) == Some(heap),
        0 <= t < rows,
        0 <= heap,
        copy.data_start + rows * (if quantized {
            2 * d + 16
        } else {
            2 * d
        }) + heap <= out.len(),
    ensures
        ({
            let width = if quantized {
                2 * d + 16
            } else {
                2 * d
            };
            let row = copy.data_start + t * width;
            let len = from_big_endian(out.subrange(row, row + d)) as int;
            let start = copy.data_start + rows * width + from_big_endian(
                out.subrange(row + d, row + 2 * d),
            );
            start + len <= copy.data_start + rows * width + heap ==> tile_of_copy(
                out,
                copy,
                quantized,
                t,
            ) == out.subrange(start, start + len)
        }),
{
    let width = if quantized {
        2 * d + 16
    } else {
        2 * d
    };
    assert(0 <= t * width && t * width + width <= rows * width) by (nonlinear_arith)
        requires
            0 <= t < rows,
            0 <= width,
    ;
    let table = crate::fits::copy_reads_back::table_in(out, copy);
    let from = copy.data_start as int;
    let line = table.subrange(t * width, t * width + width);
    assert(line.subrange(0, d) =~= out.subrange(from + t * width, from + t * width + d));
    assert(line.subrange(d, d + d) =~= out.subrange(
        from + t * width + d,
        from + t * width + 2 * d,
    ));
    let len = from_big_endian(line.subrange(0, d)) as int;
    let at = rows * width + from_big_endian(line.subrange(d, d + d));
    if at + len <= rows * width + heap {
        assert(table.subrange(at, at + len) =~= out.subrange(from + at, from + at + len));
    }
}

/// The format of the column of tiles tells how long the longest tile is, and by its letter how
/// wide the numbers of a descriptor are: P where the two take 8 bytes of a row, and Q where they
/// take 16.
pub proof fn formats_tell_the_longest_tile(
    copy: HduView,
    out: Seq<u8>,
    bytes: Seq<u8>,
    hdu: HduView,
    plan: HduPlan,
    unit: QuantizedUnit,
    t: int,
)
    requires
        is_faithful(copy, out, bytes, hdu, plan, unit),
        !(plan is Verbatim),
        0 <= t < image_of(plan).rows(),
        forall|s: int|
            0 <= s < image_of(plan).rows() ==> (#[trigger] tile_of_copy(
                out,
                copy,
                image_of(plan).quantized(),
                s,
            )).len() <= tile_of_copy(out, copy, image_of(plan).quantized(), t).len(),
    ensures
        lookup(copy.cards, "TFORM1"@) == Some(
            (if lookup_number(copy.cards, "NAXIS1"@) == Some(
                if image_of(plan).quantized() {
                    24int
                } else {
                    8
                },
            ) {
                "1PB("@
            } else {
                "1QB("@
            }) + decimal(tile_of_copy(out, copy, image_of(plan).quantized(), t).len()) + ")"@,
        ),
{
    let image = image_of(plan);
    let widest = choose|widest: nat|
        {
            &&& #[trigger] is_widest(copy, out, image, widest)
            &&& lookup(copy.cards, "TFORM1"@) == Some(
                (if descriptor_in(copy, image.quantized()) == 4 {
                    "1PB("@
                } else {
                    "1QB("@
                }) + decimal(widest) + ")"@,
            )
        };
    assert(tile_of_copy(out, copy, image_of(plan).quantized(), t).len() == widest);
}

/// A unit that is no plain image of two or three axes comes over as it is, byte for byte: a table,
/// an image of other axes, an image compressed before.
pub proof fn other_units_come_over_as_they_are(
    bytes: Seq<u8>,
    hdus: Seq<HduView>,
    units: Seq<QuantizedUnit>,
    pieces: Seq<Seq<u8>>,
    i: int,
)
    requires
        bytes.len() <= usize::MAX,
        hdus_of(bytes) == Ok::<Seq<HduView>, Seq<char>>(hdus),
        all_can_be_copied(bytes, hdus, units),
        is_copy_of(pieces, bytes, hdus, units),
        joined(pieces).len() <= usize::MAX,
        1 <= i < hdus.len(),
        lookup(hdus[i].cards, "XTENSION"@) == Some("BINTABLE"@) || lookup(
            hdus[i].cards,
            "XTENSION"@,
        ) == Some("TABLE"@) || lookup(hdus[i].cards, "ZIMAGE"@) == Some("T"@) || lookup_number(
            hdus[i].cards,
            "NAXIS"@,
        ) is None || lookup_number(hdus[i].cards, "NAXIS"@)->0 < 2 || lookup_number(
            hdus[i].cards,
            "NAXIS"@,
        )->0 > 3,
    ensures
        hdus_of(joined(pieces)) matches Ok(copies) && {
            &&& copies[i].cards == hdus[i].cards
            &&& joined(pieces).subrange(
                copies[i].header_start as int,
                copies[i].next_hdu_offset as int,
            ) == bytes.subrange(hdus[i].header_start as int, hdus[i].next_hdu_offset as int)
        },
{
    copy_holds_every_unit(bytes, hdus, units, pieces);
    let out = joined(pieces);
    let copies = hdus_of(out)->Ok_0;
    let hdu = hdus[i];
    assert(is_planned_copy(pieces[i], bytes, hdu, units[i - 1]));
    assert(holds_unit(copies[i], out, bytes, hdu, units[i - 1]));
    reveal_strlit("BINTABLE");
    reveal_strlit("TABLE");
    reveal_strlit("image");
    reveal_strlit("T");
    lemma_trimmed_whole("BINTABLE"@);
    lemma_trimmed_whole("TABLE"@);
    lemma_trimmed_whole("T"@);
    assert(lowered("BINTABLE"@).len() == 8 && "image"@.len() == 5);
    assert(lowered("TABLE"@)[0] == 't' && "image"@[0] == 'i');
}

/// Which units hold a plain image: an extension that says it is one, in whatever letters, or a unit
/// without that card that has axes. One was compressed before if it says so.
pub proof fn images_say_what_they_are(cards: Seq<CardView>)
    ensures
        lookup(cards, "XTENSION"@) == Some("IMAGE"@) ==> is_image(cards),
        lookup(cards, "XTENSION"@) == Some("image"@) ==> is_image(cards),
        lookup(cards, "XTENSION"@) == Some("BINTABLE"@) ==> !is_image(cards),
        lookup(cards, "XTENSION"@) matches Some(x) ==> (is_image(cards) <==> lowered(trimmed(x))
            == "image"@),
        lookup(cards, "ZIMAGE"@) matches Some(v) ==> (is_compressed(cards) <==> trimmed(v) == "T"@),
        lookup(cards, "XTENSION"@) is None ==> (is_image(cards) <==> lookup_number(
            cards,
            "NAXIS"@,
        ) is Some && lookup_number(cards, "NAXIS"@)->0 > 0),
        lookup(cards, "ZIMAGE"@) == Some("T"@) ==> is_compressed(cards),
        lookup(cards, "ZIMAGE"@) == Some("F"@) || lookup(cards, "ZIMAGE"@) is None
            ==> !is_compressed(cards),
{
    reveal_strlit("IMAGE");
    reveal_strlit("image");
    reveal_strlit("BINTABLE");
    reveal_strlit("T");
    reveal_strlit("F");
    lemma_trimmed_whole("IMAGE"@);
    lemma_trimmed_whole("image"@);
    lemma_trimmed_whole("BINTABLE"@);
    lemma_trimmed_whole("T"@);
    lemma_trimmed_whole("F"@);
    assert(lowered("IMAGE"@) =~= "image"@);
    assert(lowered("image"@) =~= "image"@);
    assert(lowered("BINTABLE"@).len() == 8 && "image"@.len() == 5);
    assert("T"@[0] == 'T' && "F"@[0] == 'F');
}

/// The cards that are carried over are all cards of a header but those that are not, each as it is
/// and in their order, with or without a value.
pub proof fn cards_are_carried_over_whole(bytes: Seq<u8>, start: int, n: int, quantized: bool)
    requires
        cards_before_end(bytes, start, 0) == Some(n),
    ensures
        kept_cards(bytes, start, quantized) == Seq::new(
            n as nat,
            |i: int| card_at(bytes, start, i),
        ).filter(|card: Seq<u8>| !is_dropped(trimmed(as_text(card.subrange(0, 8))), quantized)),
{
    crate::fits::extension::lemma_before_end(bytes, start, 0, n);
    lemma_kept_are(bytes, start, n, quantized);
}

proof fn lemma_kept_are(bytes: Seq<u8>, start: int, n: int, quantized: bool)
    requires
        0 <= n,
    ensures
        kept_of(bytes, start, n, quantized) == Seq::new(
            n as nat,
            |i: int| card_at(bytes, start, i),
        ).filter(|card: Seq<u8>| !is_dropped(trimmed(as_text(card.subrange(0, 8))), quantized)),
    decreases n,
{
    reveal(Seq::filter);
    let all = Seq::new(n as nat, |i: int| card_at(bytes, start, i));
    if n > 0 {
        lemma_kept_are(bytes, start, n - 1, quantized);
        assert(all.drop_last() =~= Seq::new((n - 1) as nat, |i: int| card_at(bytes, start, i)));
        assert(all.last() == card_at(bytes, start, n - 1));
    }
}

/// Which cards of a header are not carried over: those of the standard that say how data is stored,
/// those of a compressed image, the two checksums, and of a quantized unit the three that scale.
pub proof fn what_is_not_carried_over(key: Seq<char>, quantized: bool)
    ensures
        is_dropped(key, quantized) <==> seq![
            "SIMPLE"@,
            "XTENSION"@,
            "BITPIX"@,
            "PCOUNT"@,
            "GCOUNT"@,
            "EXTEND"@,
            "TFIELDS"@,
            "THEAP"@,
            "CHECKSUM"@,
            "DATASUM"@,
            "ZIMAGE"@,
            "ZCMPTYPE"@,
            "ZBITPIX"@,
            "ZQUANTIZ"@,
            "ZDITHER0"@,
            "ZBLANK"@,
        ].contains(key) || "NAXIS"@.is_prefix_of(key) || "TTYPE"@.is_prefix_of(key)
            || "TFORM"@.is_prefix_of(key) || "ZNAXIS"@.is_prefix_of(key) || "ZTILE"@.is_prefix_of(
            key,
        ) || "ZNAME"@.is_prefix_of(key) || "ZVAL"@.is_prefix_of(key) || (quantized && seq![
            "BSCALE"@,
            "BZERO"@,
            "BLANK"@,
        ].contains(key)),
{
    let names = seq![
        "SIMPLE"@,
        "XTENSION"@,
        "BITPIX"@,
        "PCOUNT"@,
        "GCOUNT"@,
        "EXTEND"@,
        "TFIELDS"@,
        "THEAP"@,
        "CHECKSUM"@,
        "DATASUM"@,
        "ZIMAGE"@,
        "ZCMPTYPE"@,
        "ZBITPIX"@,
        "ZQUANTIZ"@,
        "ZDITHER0"@,
        "ZBLANK"@,
    ];
    let scales = seq!["BSCALE"@, "BZERO"@, "BLANK"@];
    assert(names[0] == "SIMPLE"@ && names[1] == "XTENSION"@ && names[2] == "BITPIX"@ && names[3]
        == "PCOUNT"@ && names[4] == "GCOUNT"@ && names[5] == "EXTEND"@ && names[6] == "TFIELDS"@
        && names[7] == "THEAP"@ && names[8] == "CHECKSUM"@ && names[9] == "DATASUM"@ && names[10]
        == "ZIMAGE"@ && names[11] == "ZCMPTYPE"@ && names[12] == "ZBITPIX"@ && names[13]
        == "ZQUANTIZ"@ && names[14] == "ZDITHER0"@ && names[15] == "ZBLANK"@);
    assert(scales[0] == "BSCALE"@ && scales[1] == "BZERO"@ && scales[2] == "BLANK"@);
}

/// Whether row `t` of a quantized image came out: its tile decodes, in blocks of 32 pixels of four
/// bytes with signs, to the row that was given, where its pixels have four bytes; and behind its
/// descriptor stand its scale and its zero point, eight bytes each, the most significant first.
pub open spec fn quantized_row_comes_out(
    copy: HduView,
    out: Seq<u8>,
    width: nat,
    row: Seq<i64>,
    scale: u64,
    zero: u64,
    t: int,
) -> bool {
    let p = RiceParams { blocksize: 32, bytepix: 4, signed: true };
    let bytes_of_row = number_or(lookup_number(copy.cards, "NAXIS1"@), 0);
    let at = copy.data_start + t * bytes_of_row + (bytes_of_row - 16);
    &&& (forall|x: int| 0 <= x < row.len() ==> -2147483648 <= #[trigger] row[x] < 2147483648)
        ==> decoded(tile_of_copy(out, copy, true, t), width, p) == row.map_values(|v: i64| v as int)
    &&& from_big_endian(out.subrange(at, at + 8)) == scale
    &&& from_big_endian(out.subrange(at + 8, at + 16)) == zero
}

proof fn lemma_quantized_row(
    copy: HduView,
    out: Seq<u8>,
    bytes: Seq<u8>,
    hdu: HduView,
    unit: QuantizedUnit,
    t: int,
)
    requires
        bytes.len() <= usize::MAX,
        planned(hdu, bytes.len()) is Ok,
        planned(hdu, bytes.len())->Ok_0 is Quantized,
        holds_unit(copy, out, bytes, hdu, unit),
        0 <= t < image_of(planned(hdu, bytes.len())->Ok_0).rows(),
    ensures
        quantized_row_comes_out(
            copy,
            out,
            image_of(planned(hdu, bytes.len())->Ok_0).width as nat,
            unit.rows@[t]@,
            unit.scales@[t].scale,
            unit.scales@[t].zero,
            t,
        ),
{
    let plan = planned(hdu, bytes.len())->Ok_0;
    let image = image_of(plan);
    let rows = image.rows() as int;
    let width = number_or(lookup_number(copy.cards, "NAXIS1"@), 0);
    compressed_pixels_lie_in_the_file(hdu, bytes.len());
    assert(says_compressed(copy.cards, hdu.cards, image));
    assert(width == 24 || width == 32);
    assert(0 <= t * width && t * width + width <= rows * width) by (nonlinear_arith)
        requires
            0 <= t < rows,
            0 <= width,
    ;
    let row = unit.rows@[t]@;
    let p = RiceParams { blocksize: 32, bytepix: 4, signed: true };
    assert(coding_of(image) == p);
    if forall|x: int| 0 <= x < row.len() ==> -2147483648 <= #[trigger] row[x] < 2147483648 {
        assert forall|x: int| 0 <= x < row.len() implies p.representable(#[trigger] row[x] as int) by {
            assert(-2147483648 <= row[x] < 2147483648);
        }
        assert(all_representable(row, p));
        assert(decoded(tile_of_copy(out, copy, true, t), image.width as nat, p) == row.map_values(
            |v: i64| v as int,
        ));
    }
    let line = row_of_copy(out, copy, t);
    let d = descriptor_in(copy, true);
    let from = copy.data_start + t * width;
    assert(number_in(line, 2 * d, 8) == unit.scales@[t].scale);
    assert(line.subrange(2 * d, 2 * d + 8) =~= out.subrange(
        from + (width - 16),
        from + (width - 16) + 8,
    ));
    assert(line.subrange(2 * d + 8, 2 * d + 8 + 8) =~= out.subrange(
        from + (width - 16) + 8,
        from + (width - 16) + 16,
    ));
}

/// Every row that was quantized comes out of the copy, with its scale and its zero point.
pub proof fn quantized_rows_come_out(
    bytes: Seq<u8>,
    hdus: Seq<HduView>,
    units: Seq<QuantizedUnit>,
    pieces: Seq<Seq<u8>>,
    i: int,
    t: int,
)
    requires
        bytes.len() <= usize::MAX,
        hdus_of(bytes) == Ok::<Seq<HduView>, Seq<char>>(hdus),
        all_can_be_copied(bytes, hdus, units),
        is_copy_of(pieces, bytes, hdus, units),
        joined(pieces).len() <= usize::MAX,
        1 <= i < hdus.len(),
        is_image(hdus[i].cards),
        !is_compressed(hdus[i].cards),
        2 <= number_or(lookup_number(hdus[i].cards, "NAXIS"@), 0) <= 3,
        number_or(lookup_number(hdus[i].cards, "BITPIX"@), 0) < 0,
        number_or(lookup_number(hdus[i].cards, "NAXIS1"@), 0) <= usize::MAX,
        0 <= t < units[i - 1].rows@.len(),
    ensures
        hdus_of(joined(pieces)) matches Ok(copies) && quantized_row_comes_out(
            copies[i],
            joined(pieces),
            number_or(lookup_number(hdus[i].cards, "NAXIS1"@), 0) as nat,
            units[i - 1].rows@[t]@,
            units[i - 1].scales@[t].scale,
            units[i - 1].scales@[t].zero,
            t,
        ),
{
    copy_holds_every_unit(bytes, hdus, units, pieces);
    let out = joined(pieces);
    let copies = hdus_of(out)->Ok_0;
    assert(is_planned_copy(pieces[i], bytes, hdus[i], units[i - 1]));
    assert(holds_unit(copies[i], out, bytes, hdus[i], units[i - 1]));
    assert(hdus[i] == hdus[(i - 1) + 1]);
    lemma_numbers_fit(hdus[i].cards, "NAXIS1"@);
    let plan = planned(hdus[i], bytes.len())->Ok_0;
    assert(plan is Quantized);
    assert(can_be_copied(bytes.len(), plan, units[i - 1]));
    lemma_quantized_row(copies[i], out, bytes, hdus[i], units[i - 1], t);
}

/// The first unit of a copy is a plain first unit without data, and the copy has as many units as
/// the file, which end where it does.
pub proof fn the_first_unit_has_no_data(
    bytes: Seq<u8>,
    hdus: Seq<HduView>,
    units: Seq<QuantizedUnit>,
    pieces: Seq<Seq<u8>>,
)
    requires
        bytes.len() <= usize::MAX,
        hdus_of(bytes) == Ok::<Seq<HduView>, Seq<char>>(hdus),
        all_can_be_copied(bytes, hdus, units),
        is_copy_of(pieces, bytes, hdus, units),
        joined(pieces).len() <= usize::MAX,
    ensures
        hdus_of(joined(pieces)) matches Ok(copies) && {
            let c = copies[0].cards;
            &&& copies.len() == hdus.len()
            &&& copies.last().next_hdu_offset == joined(pieces).len()
            &&& copies[0].header_start == 0
            &&& copies[0].data_start == copies[0].next_hdu_offset
            &&& lookup(c, "SIMPLE"@) == Some("T"@)
            &&& lookup(c, "BITPIX"@) == Some("8"@)
            &&& lookup(c, "NAXIS"@) == Some("0"@)
            &&& lookup(c, "EXTEND"@) == Some("T"@)
        },
{
    copy_holds_every_unit(bytes, hdus, units, pieces);
    crate::fits::mef_writer::units_follow_one_another(joined(pieces), 0);
}

} // verus!
