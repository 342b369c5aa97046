//! The compressed copy of a file of many units: which units are compressed, how, and the bytes of
//! the copy.
//!
//! Integer images are compressed without loss, from the stored integers themselves; images of
//! floating point numbers are quantized; everything else, such as a table, an image compressed
//! before, or a cube of more than three axes, is copied as it is.

use vstd::prelude::*;
use vstd::string::*;
use crate::fits::cards::card_seqs;
use crate::fits::extension::{
    is_extension, joined, push_all, stub_bytes, table_size, write_extension, write_stub, ImageShape,
    RowScale,
};
use crate::fits::header::{
    hdu_at, lookup, lookup_number, number_or, parse_header_at, pixel_bytes, CardView, HduHeader,
    HduView, SourceHdu, BLOCK_SIZE,
};
use crate::fits::rice::{decoded, RiceParams};
use crate::fits::rice_encode::{is_tile, rice_encode, rice_round_trip};
use crate::text::{decimal, format_unsigned, lowered, same, to_lower, trim, trimmed};

verus! {

/// The units of a file from `offset` on, or why one cannot be read.
pub open spec fn hdus_from(bytes: Seq<u8>, offset: nat) -> Result<Seq<HduView>, Seq<char>>
    decreases
            if offset <= bytes.len() {
                bytes.len() - offset + 1
            } else {
                0
            },
{
    if offset + 2880 > bytes.len() {
        Ok(Seq::empty())
    } else {
        match hdu_at(bytes, offset) {
            Err(e) => Err(e),
            Ok(hdu) => if hdu.next_hdu_offset <= offset {
                Err(Seq::empty())
            } else {
                match hdus_from(bytes, hdu.next_hdu_offset) {
                    Err(e) => Err(e),
                    Ok(rest) => Ok(seq![hdu] + rest),
                }
            },
        }
    }
}

/// The units of a file, or why there are none.
pub open spec fn hdus_of(bytes: Seq<u8>) -> Result<Seq<HduView>, Seq<char>> {
    match hdus_from(bytes, 0) {
        Err(e) => Err(e),
        Ok(hdus) => if hdus.len() == 0 {
            Err("No HDUs found in source file"@)
        } else {
            Ok(hdus)
        },
    }
}

/// What some units say.
pub open spec fn hdu_views(hdus: Seq<SourceHdu>) -> Seq<HduView> {
    Seq::new(hdus.len(), |i: int| hdus[i]@)
}

/// Finds the units of a file.
pub fn scan_source_hdus(bytes: &[u8]) -> (r: Result<Vec<SourceHdu>, String>)
    ensures
        match (r, hdus_of(bytes@)) {
            (Ok(hdus), Ok(want)) => hdu_views(hdus@) == want && hdus@.len() > 0,
            (Err(e), Err(want)) => e@ == want,
            _ => false,
        },
{
    let mut hdus: Vec<SourceHdu> = Vec::new();
    let mut offset: usize = 0;
    let len: usize = bytes.len();
    assert(hdu_views(hdus@) =~= Seq::<HduView>::empty());
    proof {
        if let Ok(all) = hdus_from(bytes@, 0) {
            assert(hdu_views(hdus@) + all =~= all);
        }
    }
    while offset <= len && len - offset >= BLOCK_SIZE
        invariant
            len == bytes@.len(),
            match (hdus_from(bytes@, 0), hdus_from(bytes@, offset as nat)) {
                (Ok(all), Ok(rest)) => all == hdu_views(hdus@) + rest,
                (Err(a), Err(b)) => a == b,
                _ => false,
            },
        decreases
                if offset <= len {
                    len - offset + 1
                } else {
                    0
                },
    {
        let ghost before = hdu_views(hdus@);
        match parse_header_at(bytes, offset) {
            Err(e) => {
                return Err(e);
            },
            Ok(hdu) => {
                let next: usize = hdu.next_hdu_offset;
                hdus.push(hdu);
                proof {
                    assert(hdu_views(hdus@) =~= before.push(hdu@));
                    if let Ok(rest) = hdus_from(bytes@, next as nat) {
                        assert(before + (seq![hdu@] + rest) =~= hdu_views(hdus@) + rest);
                    }
                }
                offset = next;
            },
        }
    }
    assert(hdus_from(bytes@, 0) is Ok ==> hdus_from(bytes@, 0)->Ok_0 =~= hdu_views(hdus@));
    if hdus.len() == 0 {
        return Err("No HDUs found in source file".to_owned());
    }
    Ok(hdus)
}

/// The units of a file follow one another without a gap, from its start on, and what is left behind
/// the last one is less than a block.
pub proof fn units_follow_one_another(bytes: Seq<u8>, offset: nat)
    ensures
        hdus_from(bytes, offset) matches Ok(hdus) ==> {
            &&& hdus.len() > 0 ==> hdus[0].header_start == offset
            &&& forall|i: int|
                0 <= i < hdus.len() - 1 ==> (#[trigger] hdus[i]).next_hdu_offset == hdus[i
                    + 1].header_start
            &&& hdus.len() > 0 ==> hdus.last().next_hdu_offset + 2880 > bytes.len()
            &&& hdus.len() == 0 ==> offset + 2880 > bytes.len()
        },
    decreases
            if offset <= bytes.len() {
                bytes.len() - offset + 1
            } else {
                0
            },
{
    if offset + 2880 <= bytes.len() {
        if let Ok(hdu) = hdu_at(bytes, offset) {
            if hdu.next_hdu_offset > offset {
                units_follow_one_another(bytes, hdu.next_hdu_offset);
                if let Ok(rest) = hdus_from(bytes, hdu.next_hdu_offset) {
                    let hdus = seq![hdu] + rest;
                    assert forall|i: int| 0 <= i < hdus.len() - 1 implies (
                    #[trigger] hdus[i]).next_hdu_offset == hdus[i + 1].header_start by {
                        if i > 0 {
                            assert(hdus[i] == rest[i - 1]);
                            assert(hdus[i + 1] == rest[i]);
                        } else {
                            assert(hdus[1] == rest[0]);
                        }
                    }
                    if rest.len() > 0 {
                        assert(hdus.last() == rest.last());
                    }
                }
            }
        }
    }
}

/// The stored integer at `at` with that many bytes, most significant first; a single byte is
/// unsigned, wider integers are signed.
pub open spec fn stored_int(bytes: Seq<u8>, at: int, bitpix: int) -> int {
    if bitpix == 8 {
        bytes[at] as int
    } else if bitpix == 16 {
        let u = bytes[at] * 256 + bytes[at + 1];
        if u < 32768 {
            u
        } else {
            u - 65536
        }
    } else {
        let u = bytes[at] * 16777216 + bytes[at + 1] * 65536 + bytes[at + 2] * 256 + bytes[at + 3];
        if u < 2147483648 {
            u
        } else {
            u - 4294967296
        }
    }
}

/// The bytes of a stored integer.
pub open spec fn int_width(bitpix: int) -> int {
    if bitpix == 8 {
        1
    } else if bitpix == 16 {
        2
    } else {
        4
    }
}

/// Where the stored integer number `i` lies.
pub open spec fn int_place(i: int, bitpix: int) -> int {
    if bitpix == 8 {
        i
    } else if bitpix == 16 {
        2 * i
    } else {
        4 * i
    }
}

/// Whether integers of that width are read.
pub open spec fn is_int_bitpix(bitpix: int) -> bool {
    bitpix == 8 || bitpix == 16 || bitpix == 32
}

/// The error for integers of another width.
pub open spec fn bitpix_error(bitpix: i64) -> Seq<char> {
    "read_raw_ints_be: unsupported integer BITPIX "@ + signed_text(bitpix as int)
}

/// A signed number in decimal digits.
pub open spec fn signed_text(n: int) -> Seq<char> {
    if n < 0 {
        "-"@ + decimal((-n) as nat)
    } else {
        decimal(n as nat)
    }
}

fn signed_digits(n: i64) -> (s: String)
    ensures
        s@ == signed_text(n as int),
{
    if n >= 0 {
        format_unsigned(n as u64)
    } else {
        let m: u64 = if n == i64::MIN {
            9223372036854775808
        } else {
            (-n) as u64
        };
        let mut s = "-".to_owned();
        let digits = format_unsigned(m);
        s.append(digits.as_str());
        s
    }
}

/// Reads the stored integers of some data, without scaling; bytes that make no whole integer are
/// left out.
pub fn read_raw_ints_be(data: &[u8], bitpix: i64) -> (r: Result<Vec<i64>, String>)
    ensures
        match r {
            Ok(ints) => {
                &&& is_int_bitpix(bitpix as int)
                &&& ints@.len() == data@.len() as int / int_width(bitpix as int)
                &&& forall|i: int|
                    0 <= i < ints@.len() ==> #[trigger] ints@[i] == stored_int(
                        data@,
                        int_place(i, bitpix as int),
                        bitpix as int,
                    )
            },
            Err(e) => !is_int_bitpix(bitpix as int) && e@ == bitpix_error(bitpix),
        },
{
    let mut ints: Vec<i64> = Vec::new();
    let len: usize = data.len();
    let mut at: usize = 0;
    if bitpix == 8 {
        while at < len
            invariant
                at <= len == data@.len(),
                ints@.len() == at,
                forall|i: int|
                    0 <= i < ints@.len() ==> #[trigger] ints@[i] == stored_int(data@, i, 8),
            decreases len - at,
        {
            ints.push(data[at] as i64);
            at = at + 1;
        }
        Ok(ints)
    } else if bitpix == 16 {
        while len - at >= 2
            invariant
                at <= len == data@.len(),
                at == 2 * ints@.len(),
                forall|i: int|
                    0 <= i < ints@.len() ==> #[trigger] ints@[i] == stored_int(data@, 2 * i, 16),
            decreases len - at,
        {
            let u: i64 = (data[at] as i64) * 256 + data[at + 1] as i64;
            if u < 32768 {
                ints.push(u);
            } else {
                ints.push(u - 65536);
            }
            at = at + 2;
        }
        Ok(ints)
    } else if bitpix == 32 {
        while len - at >= 4
            invariant
                at <= len == data@.len(),
                at == 4 * ints@.len(),
                forall|i: int|
                    0 <= i < ints@.len() ==> #[trigger] ints@[i] == stored_int(data@, 4 * i, 32),
            decreases len - at,
        {
            let u: i64 = (data[at] as i64) * 16777216 + (data[at + 1] as i64) * 65536 + (data[at
                + 2] as i64) * 256 + data[at + 3] as i64;
            if u < 2147483648 {
                ints.push(u);
            } else {
                ints.push(u - 4294967296);
            }
            at = at + 4;
        }
        Ok(ints)
    } else {
        let mut e = "read_raw_ints_be: unsupported integer BITPIX ".to_owned();
        let digits = signed_digits(bitpix);
        e.append(digits.as_str());
        Err(e)
    }
}

/// Whether a unit holds a plain image: an image extension, or a first unit with axes.
pub open spec fn is_image(cards: Seq<CardView>) -> bool {
    match lookup(cards, "XTENSION"@) {
        None => number_or(lookup_number(cards, "NAXIS"@), 0) > 0,
        Some(x) => lowered(trimmed(x)) == "image"@,
    }
}

/// Whether a header is that of a plain image.
pub fn is_image_extension(header: &HduHeader) -> (b: bool)
    ensures
        b == is_image(header@),
{
    match header.get("XTENSION") {
        None => match header.get_i64("NAXIS") {
            Some(n) => n > 0,
            None => false,
        },
        Some(x) => {
            let word = to_lower(trim(x));
            same(word.as_str(), "image")
        },
    }
}

/// Whether a unit holds an image compressed before.
pub open spec fn is_compressed(cards: Seq<CardView>) -> bool {
    lookup(cards, "ZIMAGE"@) matches Some(v) && trimmed(v) == "T"@
}

/// Whether a header is that of an image compressed before.
pub fn is_compressed_image_hdu(header: &HduHeader) -> (b: bool)
    ensures
        b == is_compressed(header@),
{
    match header.get("ZIMAGE") {
        Some(v) => same(trim(v), "T"),
        None => false,
    }
}

/// How a unit goes into the compressed copy.
#[derive(Debug, Clone, Copy, PartialEq, Eq)]
pub enum HduPlan {
    /// The bytes from `start` to `end` as they are.
    Verbatim { start: usize, end: usize },
    /// Planes of floating point numbers, quantized.
    Quantized { width: usize, height: usize, planes: usize, start: usize, end: usize, bitpix: i64 },
    /// Planes of integers, without loss.
    Lossless { width: usize, height: usize, planes: usize, start: usize, end: usize, bitpix: i64 },
}

/// A text as `{:?}` writes it.
pub uninterp spec fn debug_of(s: Seq<char>) -> Seq<char>;

/// The `Debug` form of a text: between double quotes, with escapes.
#[verifier::external_body]
fn debug_text(s: &str) -> (r: String)
    ensures
        r@ == debug_of(s@),
{
    format!("{s:?}")
}

/// The error for a unit whose data does not lie in the file.
pub open spec fn exceeds_text(extname: Option<Seq<char>>) -> Seq<char> {
    "HDU data exceeds file size (EXTNAME="@ + (match extname {
        Some(name) => "Some("@ + debug_of(name) + ")"@,
        None => "None"@,
    }) + ")"@
}

/// How a unit goes into the compressed copy of a file of `len` bytes, or why it cannot.
pub open spec fn planned(hdu: HduView, len: nat) -> Result<HduPlan, Seq<char>> {
    let cards = hdu.cards;
    let naxis = number_or(lookup_number(cards, "NAXIS"@), 0);
    if is_compressed(cards) || !is_image(cards) || naxis < 2 || naxis > 3 {
        Ok(
            HduPlan::Verbatim {
                start: hdu.header_start as usize,
                end: hdu.next_hdu_offset as usize,
            },
        )
    } else {
        let width = number_or(lookup_number(cards, "NAXIS1"@), 0);
        let height = number_or(lookup_number(cards, "NAXIS2"@), 0);
        let planes = if naxis == 3 {
            number_or(lookup_number(cards, "NAXIS3"@), 1)
        } else {
            1
        };
        match lookup_number(cards, "BITPIX"@) {
            None => Err("Missing BITPIX"@),
            Some(bitpix) => {
                let end = hdu.data_start + ((width * height) * planes) * pixel_bytes(bitpix);
                if width < 0 || height < 0 || planes < 0 || end > len {
                    Err(exceeds_text(lookup(cards, "EXTNAME"@)))
                } else if bitpix < 0 {
                    Ok(
                        HduPlan::Quantized {
                            width: width as usize,
                            height: height as usize,
                            planes: planes as usize,
                            start: hdu.data_start as usize,
                            end: end as usize,
                            bitpix: bitpix as i64,
                        },
                    )
                } else if is_int_bitpix(bitpix) {
                    Ok(
                        HduPlan::Lossless {
                            width: width as usize,
                            height: height as usize,
                            planes: planes as usize,
                            start: hdu.data_start as usize,
                            end: end as usize,
                            bitpix: bitpix as i64,
                        },
                    )
                } else {
                    Err(bitpix_error(bitpix as i64))
                }
            },
        }
    }
}

/// The error for a unit whose data does not lie in the file.
fn exceeds(extname: Option<&str>) -> (s: String)
    ensures
        s@ == exceeds_text(
            match extname {
                Some(name) => Some(name@),
                None => None,
            },
        ),
{
    let mut s = "HDU data exceeds file size (EXTNAME=".to_owned();
    match extname {
        Some(name) => {
            let quoted = debug_text(name);
            let mut inner = "Some(".to_owned();
            inner.append(quoted.as_str());
            inner.append(")");
            s.append(inner.as_str());
        },
        None => {
            s.append("None");
        },
    }
    s.append(")");
    s
}

/// The bytes of a pixel.
fn bytes_per_pixel(bitpix: i64) -> (n: u64)
    ensures
        n == pixel_bytes(bitpix as int),
        n <= 1152921504606846976,
{
    if bitpix >= 0 {
        bitpix as u64 / 8
    } else if bitpix == i64::MIN {
        9223372036854775808u64 / 8
    } else {
        (-bitpix) as u64 / 8
    }
}

/// `a * b * c * d`, where that is at most `limit`.
fn product_within(a: u64, b: u64, c: u64, d: u64, limit: u64) -> (r: Option<u64>)
    ensures
        match r {
            Some(p) => p == ((a * b) * c) * d && p <= limit,
            None => ((a * b) * c) * d > limit,
        },
{
    if c == 0 || d == 0 {
        assert(((a * b) * c) * d == 0) by (nonlinear_arith)
            requires
                c == 0 || d == 0,
        ;
        return Some(0);
    }
    proof {
        assert(0 <= a * b <= 18446744073709551615 * 18446744073709551615) by (nonlinear_arith)
            requires
                0 <= a <= 18446744073709551615,
                0 <= b <= 18446744073709551615,
        ;
    }
    let ab: u128 = (a as u128) * (b as u128);
    if ab > limit as u128 {
        assert(((a * b) * c) * d >= a * b) by (nonlinear_arith)
            requires
                a * b >= 0,
                c >= 1,
                d >= 1,
        ;
        return None;
    }
    proof {
        assert(0 <= ab * c <= 18446744073709551615 * 18446744073709551615) by (nonlinear_arith)
            requires
                0 <= ab <= 18446744073709551615,
                0 <= c <= 18446744073709551615,
        ;
    }
    let abc: u128 = ab * (c as u128);
    if abc > limit as u128 {
        assert(abc * d >= abc) by (nonlinear_arith)
            requires
                abc >= 0,
                d >= 1,
        ;
        return None;
    }
    proof {
        assert(0 <= abc * d <= 18446744073709551615 * 18446744073709551615) by (nonlinear_arith)
            requires
                0 <= abc <= 18446744073709551615,
                0 <= d <= 18446744073709551615,
        ;
    }
    let all: u128 = abc * (d as u128);
    if all > limit as u128 {
        None
    } else {
        Some(all as u64)
    }
}

/// Decides how a unit goes into the compressed copy of a file of `len` bytes.
pub fn plan_hdu(hdu: &SourceHdu, len: usize) -> (r: Result<HduPlan, String>)
    ensures
        match (r, planned(hdu@, len as nat)) {
            (Ok(plan), Ok(want)) => plan == want,
            (Err(e), Err(want)) => e@ == want,
            _ => false,
        },
{
    let header = &hdu.header;
    let naxis: i64 = match header.get_i64("NAXIS") {
        Some(n) => n,
        None => 0,
    };
    if is_compressed_image_hdu(header) || !is_image_extension(header) || naxis < 2 || naxis > 3 {
        return Ok(HduPlan::Verbatim { start: hdu.header_start, end: hdu.next_hdu_offset });
    }
    let width: i64 = match header.get_i64("NAXIS1") {
        Some(n) => n,
        None => 0,
    };
    let height: i64 = match header.get_i64("NAXIS2") {
        Some(n) => n,
        None => 0,
    };
    let planes: i64 = if naxis == 3 {
        match header.get_i64("NAXIS3") {
            Some(n) => n,
            None => 1,
        }
    } else {
        1
    };
    let bitpix: i64 = match header.get_i64("BITPIX") {
        Some(n) => n,
        None => {
            return Err("Missing BITPIX".to_owned());
        },
    };
    let depth: u64 = bytes_per_pixel(bitpix);
    if width < 0 || height < 0 || planes < 0 || hdu.data_start > len {
        proof {
            if width >= 0 && height >= 0 && planes >= 0 {
                assert(((width * height) * planes) * depth >= 0) by (nonlinear_arith)
                    requires
                        width >= 0,
                        height >= 0,
                        planes >= 0,
                        depth >= 0,
                ;
            }
        }
        return Err(exceeds(header.get("EXTNAME")));
    }
    match product_within(
        width as u64,
        height as u64,
        planes as u64,
        depth,
        (len - hdu.data_start) as u64,
    ) {
        None => Err(exceeds(header.get("EXTNAME"))),
        Some(size) => {
            let end: usize = hdu.data_start + size as usize;
            if bitpix < 0 {
                Ok(
                    HduPlan::Quantized {
                        width: width as usize,
                        height: height as usize,
                        planes: planes as usize,
                        start: hdu.data_start,
                        end,
                        bitpix,
                    },
                )
            } else if bitpix == 8 || bitpix == 16 || bitpix == 32 {
                Ok(
                    HduPlan::Lossless {
                        width: width as usize,
                        height: height as usize,
                        planes: planes as usize,
                        start: hdu.data_start,
                        end,
                        bitpix,
                    },
                )
            } else {
                let mut e = "read_raw_ints_be: unsupported integer BITPIX ".to_owned();
                let digits = signed_digits(bitpix);
                e.append(digits.as_str());
                Err(e)
            }
        },
    }
}

/// How each unit but the first goes into the compressed copy; the first one, whose data is not
/// copied, is not planned.
pub fn plan_mef(hdus: &Vec<SourceHdu>, len: usize) -> (r: Result<Vec<HduPlan>, String>)
    requires
        hdus@.len() > 0,
    ensures
        match r {
            Ok(plans) => {
                &&& plans@.len() == hdus@.len() - 1
                &&& forall|i: int|
                    0 <= i < plans@.len() ==> planned(hdus@[i + 1]@, len as nat) == Ok::<
                        HduPlan,
                        Seq<char>,
                    >(#[trigger] plans@[i])
            },
            Err(e) => exists|i: int|
                1 <= i < hdus@.len() && all_planned_before(hdu_views(hdus@), len as nat, i) && #[trigger] planned(
                    hdus@[i]@,
                    len as nat,
                ) == Err::<HduPlan, Seq<char>>(e@),
        },
{
    let mut plans: Vec<HduPlan> = Vec::new();
    let mut i: usize = 1;
    while i < hdus.len()
        invariant
            1 <= i <= hdus@.len(),
            plans@.len() == i - 1,
            forall|j: int|
                0 <= j < plans@.len() ==> planned(hdus@[j + 1]@, len as nat) == Ok::<
                    HduPlan,
                    Seq<char>,
                >(#[trigger] plans@[j]),
        decreases hdus.len() - i,
    {
        match plan_hdu(&hdus[i], len) {
            Ok(plan) => {
                plans.push(plan);
            },
            Err(e) => {
                proof {
                    assert forall|j: int| 1 <= j < i implies planned(
                        #[trigger] hdus@[j]@,
                        len as nat,
                    ) is Ok by {
                        assert(planned(hdus@[(j - 1) + 1]@, len as nat) == Ok::<
                            HduPlan,
                            Seq<char>,
                        >(plans@[j - 1]));
                    }
                    assert(all_planned_before(hdu_views(hdus@), len as nat, i as int));
                    assert(planned(hdus@[i as int]@, len as nat) == Err::<HduPlan, Seq<char>>(e@));
                }
                return Err(e);
            },
        }
        i = i + 1;
    }
    Ok(plans)
}

/// Whether every unit before number `i`, but for the first one, can be planned.
pub open spec fn all_planned_before(hdus: Seq<HduView>, len: nat, i: int) -> bool {
    forall|j: int| 1 <= j < i ==> planned(#[trigger] hdus[j], len) is Ok
}

/// The integers of each plane of a unit that is compressed without loss.
pub fn int_planes(bytes: &[u8], width: usize, height: usize, planes: usize, start: usize, bitpix: i64)
    -> (r: Vec<Vec<i64>>)
    requires
        is_int_bitpix(bitpix as int),
        start + ((width * height) * planes) * int_width(bitpix as int) <= bytes@.len(),
    ensures
        r@.len() == planes,
        forall|p: int|
            0 <= p < planes ==> {
                &&& (#[trigger] r@[p])@.len() == width * height
                &&& forall|k: int|
                    0 <= k < width * height ==> #[trigger] r@[p]@[k] == stored_int(
                        bytes@,
                        start + int_place(p * (width * height) + k, bitpix as int),
                        bitpix as int,
                    )
            },
{
    let mut out: Vec<Vec<i64>> = Vec::new();
    if planes == 0 {
        return out;
    }
    proof {
        lemma_planes_fit(
            width as int,
            height as int,
            planes as int,
            int_width(bitpix as int),
            bytes@.len() - start,
        );
    }
    assert(bytes.len() <= usize::MAX);
    let plane_len: usize = width * height;
    let data = vstd::slice::slice_subrange(bytes, start, bytes.len());
    let all: Vec<i64> = match read_raw_ints_be(data, bitpix) {
        Ok(ints) => ints,
        Err(_) => Vec::new(),
    };
    let mut p: usize = 0;
    let mut from: usize = 0;
    while p < planes
        invariant
            p <= planes,
            is_int_bitpix(bitpix as int),
            plane_len == width * height,
            plane_len * planes <= all@.len(),
            start <= bytes@.len(),
            data@ == bytes@.subrange(start as int, bytes@.len() as int),
            all@.len() == data@.len() as int / int_width(bitpix as int),
            forall|i: int|
                0 <= i < all@.len() ==> #[trigger] all@[i] == stored_int(
                    data@,
                    int_place(i, bitpix as int),
                    bitpix as int,
                ),
            from == p * plane_len,
            out@.len() == p,
            forall|q: int|
                0 <= q < p ==> {
                    &&& (#[trigger] out@[q])@.len() == plane_len
                    &&& forall|k: int|
                        0 <= k < plane_len ==> #[trigger] out@[q]@[k] == stored_int(
                            bytes@,
                            start + int_place(q * plane_len + k, bitpix as int),
                            bitpix as int,
                        )
                },
        decreases planes - p,
    {
        proof {
            assert((p + 1) * plane_len <= planes * plane_len && (p + 1) * plane_len == p * plane_len
                + plane_len) by (nonlinear_arith)
                requires
                    p + 1 <= planes,
                    plane_len >= 0,
            ;
            assert(plane_len * planes == planes * plane_len) by (nonlinear_arith);
        }
        assert(all.len() <= usize::MAX);
        let mut plane: Vec<i64> = Vec::new();
        let mut k: usize = 0;
        while k < plane_len
            invariant
                k <= plane_len,
                from + plane_len <= all.len(),
                is_int_bitpix(bitpix as int),
                start <= bytes@.len(),
                data@ == bytes@.subrange(start as int, bytes@.len() as int),
                all@.len() == data@.len() as int / int_width(bitpix as int),
                forall|i: int|
                    0 <= i < all@.len() ==> #[trigger] all@[i] == stored_int(
                        data@,
                        int_place(i, bitpix as int),
                        bitpix as int,
                    ),
                plane@.len() == k,
                forall|i: int|
                    0 <= i < k ==> #[trigger] plane@[i] == stored_int(
                        bytes@,
                        start + int_place(from + i, bitpix as int),
                        bitpix as int,
                    ),
            decreases plane_len - k,
        {
            plane.push(all[from + k]);
            k = k + 1;
        }
        out.push(plane);
        p = p + 1;
        from = from + plane_len;
    }
    out
}

proof fn lemma_planes_fit(width: int, height: int, planes: int, depth: int, room: int)
    requires
        width >= 0,
        height >= 0,
        planes >= 1,
        depth == 1 || depth == 2 || depth == 4,
        ((width * height) * planes) * depth <= room,
    ensures
        0 <= width * height <= (width * height) * planes <= room / depth <= room,
{
    assert(0 <= width * height) by (nonlinear_arith)
        requires
            width >= 0,
            height >= 0,
    ;
    let a = width * height;
    assert(a <= a * planes) by (nonlinear_arith)
        requires
            a >= 0,
            planes >= 1,
    ;
}

/// Reads the units of a file and decides how each one but the first goes into the compressed copy.
pub fn plan_file(bytes: &[u8]) -> (r: Result<Vec<HduPlan>, String>)
    ensures
        match hdus_of(bytes@) {
            Err(want) => r matches Err(e) && e@ == want,
            Ok(hdus) => match r {
                Ok(plans) => {
                    &&& plans@.len() == hdus.len() - 1
                    &&& forall|i: int|
                        0 <= i < plans@.len() ==> planned(hdus[i + 1], bytes@.len()) == Ok::<
                            HduPlan,
                            Seq<char>,
                        >(#[trigger] plans@[i])
                },
                Err(e) => exists|i: int|
                    1 <= i < hdus.len() && all_planned_before(hdus, bytes@.len(), i)
                        && #[trigger] planned(hdus[i], bytes@.len()) == Err::<HduPlan, Seq<char>>(
                        e@,
                    ),
            },
        },
{
    match scan_source_hdus(bytes) {
        Err(e) => Err(e),
        Ok(hdus) => {
            let ghost views = hdu_views(hdus@);
            proof {
                assert(forall|i: int| 0 <= i < hdus@.len() ==> views[i] == #[trigger] hdus@[i]@);
            }
            plan_mef(&hdus, bytes.len())
        },
    }
}

/// What is compressed lies in the file: the planes of a unit that is not copied end where its
/// pixels do, at or before the end of the file.
pub proof fn compressed_pixels_lie_in_the_file(hdu: HduView, len: nat)
    requires
        len <= usize::MAX,
    ensures
        planned(hdu, len) matches Ok(HduPlan::Lossless { start, end, bitpix, .. }) ==> start
            == hdu.data_start && start <= end <= len && is_int_bitpix(bitpix as int),
        planned(hdu, len) matches Ok(HduPlan::Quantized { start, end, bitpix, .. }) ==> start
            == hdu.data_start && start <= end <= len && bitpix < 0,
{
    let cards = hdu.cards;
    let width = number_or(lookup_number(cards, "NAXIS1"@), 0);
    let height = number_or(lookup_number(cards, "NAXIS2"@), 0);
    let planes = if number_or(lookup_number(cards, "NAXIS"@), 0) == 3 {
        number_or(lookup_number(cards, "NAXIS3"@), 1)
    } else {
        1
    };
    if let Some(bitpix) = lookup_number(cards, "BITPIX"@) {
        let depth = pixel_bytes(bitpix);
        if width >= 0 && height >= 0 && planes >= 0 {
            assert(((width * height) * planes) * depth >= 0) by (nonlinear_arith)
                requires
                    width >= 0,
                    height >= 0,
                    planes >= 0,
                    depth >= 0,
            ;
        }
    }
}

/// The bytes of a unit that is copied as it is.
pub fn copy_verbatim<'a>(bytes: &'a [u8], hdu: &SourceHdu) -> (r: &'a [u8])
    requires
        hdu.header_start <= hdu.next_hdu_offset <= bytes@.len(),
    ensures
        r@ == bytes@.subrange(hdu.header_start as int, hdu.next_hdu_offset as int),
{
    vstd::slice::slice_subrange(bytes, hdu.header_start, hdu.next_hdu_offset)
}

/// The tiles of a plane of stored integers, one for each row.
pub fn row_tiles(plane: &Vec<i64>, width: usize, params: &RiceParams) -> (tiles: Vec<Vec<u8>>)
    requires
        params.valid(),
        width > 0,
    ensures
        tiles@.len() == plane@.len() / (width as nat),
        forall|r: int|
            0 <= r < tiles@.len() ==> is_tile(
                (#[trigger] tiles@[r])@,
                plane@.subrange(r * width, r * width + width),
                *params,
            ),
{
    let mut tiles: Vec<Vec<u8>> = Vec::new();
    let mut at: usize = 0;
    let len: usize = plane.len();
    assert(0 * width == 0) by (nonlinear_arith);
    while len - at >= width
        invariant
            at <= len == plane@.len(),
            params.valid(),
            width > 0,
            at == tiles@.len() * width,
            forall|r: int|
                0 <= r < tiles@.len() ==> is_tile(
                    (#[trigger] tiles@[r])@,
                    plane@.subrange(r * width, r * width + width),
                    *params,
                ),
        decreases len - at,
    {
        let ghost r = tiles@.len();
        let row = vstd::slice::slice_subrange(plane.as_slice(), at, at + width);
        tiles.push(rice_encode(row, params));
        at = at + width;
        assert((r + 1) * width == r * width + width) by (nonlinear_arith);
    }
    proof {
        let n = tiles@.len() as int;
        vstd::arithmetic::div_mod::lemma_fundamental_div_mod_converse(
            len as int,
            width as int,
            n,
            len - at,
        );
    }
    tiles
}

/// Integer images are compressed without loss: the tile of any row of stored integers decodes to
/// the same integers, with as many bytes per pixel as they were stored in, and signs where they
/// were stored with signs.
pub proof fn integers_survive(
    bytes: Seq<u8>,
    bitpix: int,
    places: Seq<int>,
    row: Seq<i64>,
    tile: Seq<u8>,
    p: RiceParams,
)
    requires
        is_int_bitpix(bitpix),
        p.blocksize > 0,
        p.bytepix == int_width(bitpix),
        p.signed == (bitpix != 8),
        places.len() == row.len(),
        forall|i: int|
            0 <= i < row.len() ==> #[trigger] row[i] == stored_int(bytes, places[i], bitpix),
        is_tile(tile, row, p),
    ensures
        decoded(tile, row.len(), p) == row.map_values(|v: i64| v as int),
{
    assert forall|i: int| 0 <= i < row.len() implies p.representable(#[trigger] row[i] as int) by {
        assert(row[i] == stored_int(bytes, places[i], bitpix));
    }
    rice_round_trip(tile, row, p);
}

/// Only a plain image of two or three axes is compressed; every other unit, and an image compressed
/// before, is copied as it is, from its header to the next one.
pub proof fn other_units_are_copied(hdu: HduView, len: nat)
    ensures
        ({
            let naxis = number_or(lookup_number(hdu.cards, "NAXIS"@), 0);
            let plan = planned(hdu, len);
            let compressible = is_image(hdu.cards) && 2 <= naxis <= 3 && !is_compressed(hdu.cards);
            &&& !compressible ==> plan == Ok::<HduPlan, Seq<char>>(
                HduPlan::Verbatim {
                    start: hdu.header_start as usize,
                    end: hdu.next_hdu_offset as usize,
                },
            )
            &&& compressible ==> !(plan is Ok && plan->Ok_0 is Verbatim)
        }),
{
}

/// How the rows of an image are coded: in blocks of 32 pixels, with as many bytes per pixel as the
/// integers were stored in, and signs where they were stored with signs; quantized pixels are
/// signed integers of four bytes.
pub open spec fn coding_of(image: ImageShape) -> RiceParams {
    RiceParams {
        blocksize: 32,
        bytepix: image.coded_bytes() as u32,
        signed: image.bitpix != 8,
    }
}

fn coding(image: &ImageShape) -> (p: RiceParams)
    requires
        image.bitpix < 0 || is_int_bitpix(image.bitpix as int),
    ensures
        p == coding_of(*image),
        p.valid(),
{
    let bytepix: u32 = if image.bitpix < 0 {
        4
    } else {
        (image.bitpix / 8) as u32
    };
    RiceParams { blocksize: 32, bytepix, signed: image.bitpix != 8 }
}

/// Row `t` of the stored integers of an image, counted through all its planes.
pub open spec fn stored_row(bytes: Seq<u8>, start: int, image: ImageShape, t: int) -> Seq<i64> {
    Seq::new(
        image.width as nat,
        |x: int|
            stored_int(
                bytes,
                start + int_place(t * image.width + x, image.bitpix as int),
                image.bitpix as int,
            ) as i64,
    )
}

/// Whether some tiles are those of the stored integers of an image, one for each row.
pub open spec fn are_stored_tiles(
    tiles: Seq<Seq<u8>>,
    bytes: Seq<u8>,
    start: int,
    image: ImageShape,
) -> bool {
    &&& tiles.len() == image.rows()
    &&& forall|t: int|
        0 <= t < tiles.len() ==> is_tile(
            #[trigger] tiles[t],
            stored_row(bytes, start, image, t),
            coding_of(image),
        )
}

pub(crate) proof fn lemma_row_of_plane(k: int, r: int, height: int, width: int)
    ensures
        k * (width * height) + r * width == (k * height + r) * width,
{
    assert(k * (width * height) + r * width == (k * height + r) * width) by (nonlinear_arith);
}

/// Codes the stored integers of an image, plane by plane and row by row.
pub fn stored_tiles(bytes: &[u8], start: usize, image: &ImageShape) -> (tiles: Vec<Vec<u8>>)
    requires
        is_int_bitpix(image.bitpix as int),
        start + ((image.width * image.height) * image.planes) * int_width(image.bitpix as int)
            <= bytes@.len(),
    ensures
        are_stored_tiles(card_seqs(tiles@), bytes@, start as int, *image),
{
    let params = coding(image);
    let mut tiles: Vec<Vec<u8>> = Vec::new();
    let width: usize = image.width;
    let height: usize = image.height;
    if width == 0 {
        return tiles;
    }
    let planes = int_planes(bytes, width, height, image.planes, start, image.bitpix);
    let mut k: usize = 0;
    assert(0 * height == 0) by (nonlinear_arith);
    while k < planes.len()
        invariant
            k <= planes@.len(),
            planes@.len() == image.planes,
            width == image.width,
            height == image.height,
            width > 0,
            is_int_bitpix(image.bitpix as int),
            params == coding_of(*image),
            params.valid(),
            forall|p: int|
                0 <= p < planes@.len() ==> {
                    &&& (#[trigger] planes@[p])@.len() == width * height
                    &&& forall|i: int|
                        0 <= i < width * height ==> #[trigger] planes@[p]@[i] == stored_int(
                            bytes@,
                            start + int_place(p * (width * height) + i, image.bitpix as int),
                            image.bitpix as int,
                        )
                },
            tiles@.len() == k * height,
            forall|t: int|
                0 <= t < tiles@.len() ==> is_tile(
                    (#[trigger] tiles@[t])@,
                    stored_row(bytes@, start as int, *image, t),
                    params,
                ),
        decreases planes.len() - k,
    {
        let ghost before = tiles@;
        let mut rows = row_tiles(&planes[k], width, &params);
        proof {
            let n = (width * height) as int;
            vstd::arithmetic::div_mod::lemma_fundamental_div_mod_converse(
                n,
                width as int,
                height as int,
                0,
            );
            assert(rows@.len() == height);
            assert((k + 1) * height == k * height + height) by (nonlinear_arith);
            let plane = planes@[k as int]@;
            assert forall|r: int| 0 <= r < height implies is_tile(
                (#[trigger] rows@[r])@,
                stored_row(bytes@, start as int, *image, k * height + r),
                params,
            ) by {
                let row = plane.subrange(r * width, r * width + width);
                let want = stored_row(bytes@, start as int, *image, k * height + r);
                lemma_row_of_plane(k as int, r, height as int, width as int);
                assert(0 <= r * width && r * width + width <= width * height) by (nonlinear_arith)
                    requires
                        0 <= r < height,
                        width > 0,
                ;
                assert forall|x: int| 0 <= x < width implies #[trigger] row[x] == want[x] by {
                    assert(row[x] == plane[r * width + x]);
                    assert(planes@[k as int]@[r * width + x] == stored_int(
                        bytes@,
                        start + int_place(
                            k * (width * height) + (r * width + x),
                            image.bitpix as int,
                        ),
                        image.bitpix as int,
                    ));
                }
                assert(row =~= want);
            }
        }
        let ghost made = rows@;
        tiles.append(&mut rows);
        proof {
            assert forall|t: int| 0 <= t < tiles@.len() implies is_tile(
                (#[trigger] tiles@[t])@,
                stored_row(bytes@, start as int, *image, t),
                params,
            ) by {
                if t < before.len() {
                    assert(tiles@[t] == before[t]);
                } else {
                    let r = t - before.len();
                    assert(tiles@[t] == made[r]);
                    assert(is_tile(
                        made[r]@,
                        stored_row(bytes@, start as int, *image, k * height + r),
                        params,
                    ));
                }
            }
        }
        k = k + 1;
    }
    tiles
}

/// The rows of a quantized unit, and their scales.
#[derive(Debug)]
pub struct QuantizedUnit {
    pub rows: Vec<Vec<i64>>,
    pub scales: Vec<RowScale>,
}

/// Whether some tiles are those of quantized rows.
pub open spec fn are_quantized_tiles(
    tiles: Seq<Seq<u8>>,
    rows: Seq<Vec<i64>>,
    image: ImageShape,
) -> bool {
    &&& tiles.len() == rows.len()
    &&& forall|t: int|
        0 <= t < tiles.len() ==> is_tile(#[trigger] tiles[t], rows[t]@, coding_of(image))
}

/// Codes quantized rows.
pub fn quantized_tiles(rows: &Vec<Vec<i64>>, image: &ImageShape) -> (tiles: Vec<Vec<u8>>)
    requires
        image.bitpix < 0,
    ensures
        are_quantized_tiles(card_seqs(tiles@), rows@, *image),
{
    let params = coding(image);
    let mut tiles: Vec<Vec<u8>> = Vec::new();
    let mut t: usize = 0;
    while t < rows.len()
        invariant
            t <= rows@.len(),
            params == coding_of(*image),
            params.valid(),
            tiles@.len() == t,
            forall|i: int|
                0 <= i < tiles@.len() ==> is_tile((#[trigger] tiles@[i])@, rows@[i]@, params),
        decreases rows.len() - t,
    {
        tiles.push(rice_encode(rows[t].as_slice(), &params));
        t = t + 1;
    }
    tiles
}

/// Whether some tiles are those of a unit with a plan.
pub open spec fn are_tiles_of(
    tiles: Seq<Seq<u8>>,
    bytes: Seq<u8>,
    plan: HduPlan,
    unit: QuantizedUnit,
) -> bool {
    match plan {
        HduPlan::Verbatim { .. } => false,
        HduPlan::Lossless { start, .. } => are_stored_tiles(
            tiles,
            bytes,
            start as int,
            image_of(plan),
        ),
        HduPlan::Quantized { .. } => are_quantized_tiles(tiles, unit.rows@, image_of(plan)),
    }
}

/// The image that a plan compresses.
pub open spec fn image_of(plan: HduPlan) -> ImageShape {
    match plan {
        HduPlan::Lossless { width, height, planes, bitpix, .. } => ImageShape {
            width,
            height,
            planes,
            bitpix,
        },
        HduPlan::Quantized { width, height, planes, bitpix, .. } => ImageShape {
            width,
            height,
            planes,
            bitpix,
        },
        HduPlan::Verbatim { .. } => ImageShape { width: 0, height: 0, planes: 0, bitpix: 0 },
    }
}

/// The scales that an extension holds.
pub open spec fn scales_of(plan: HduPlan, unit: QuantizedUnit) -> Option<Seq<RowScale>> {
    if plan is Quantized {
        Some(unit.scales@)
    } else {
        None
    }
}

/// Whether `piece` is the copy of a unit with a plan: its bytes as they are, or the extension of
/// its tiles.
pub open spec fn is_unit_copy(
    piece: Seq<u8>,
    bytes: Seq<u8>,
    hdu: HduView,
    plan: HduPlan,
    unit: QuantizedUnit,
) -> bool {
    match plan {
        HduPlan::Verbatim { start, end } => piece == bytes.subrange(start as int, end as int),
        _ => exists|tiles: Seq<Seq<u8>>|
            {
                &&& #[trigger] are_tiles_of(tiles, bytes, plan, unit)
                &&& table_size(tiles, plan is Quantized) <= i64::MAX
                &&& is_extension(
                    piece,
                    bytes,
                    hdu.header_start as int,
                    image_of(plan),
                    tiles,
                    scales_of(plan, unit),
                )
            },
    }
}

/// Whether the tiles of a unit make a table that is too large.
pub open spec fn exceeds_a_table(bytes: Seq<u8>, plan: HduPlan, unit: QuantizedUnit) -> bool {
    exists|tiles: Seq<Seq<u8>>| #[trigger]
        are_tiles_of(tiles, bytes, plan, unit) && table_size(tiles, plan is Quantized) > i64::MAX
}

/// Whether a unit can be copied with what is given for it: one that is copied as it is lies in the
/// file, and for a quantized one there is a row, of the image's width, for each row of pixels.
pub open spec fn can_be_copied(len: nat, plan: HduPlan, unit: QuantizedUnit) -> bool {
    match plan {
        HduPlan::Verbatim { start, end } => start <= end <= len,
        HduPlan::Lossless { .. } => true,
        HduPlan::Quantized { width, .. } => {
            &&& unit.rows@.len() == image_of(plan).rows()
            &&& unit.scales@.len() == unit.rows@.len()
            &&& forall|t: int| 0 <= t < unit.rows@.len() ==> (#[trigger] unit.rows@[t])@.len() == width
        },
    }
}

/// Copies a unit with its plan.
fn copy_unit(bytes: &[u8], hdu: &SourceHdu, plan: &HduPlan, unit: &QuantizedUnit) -> (r: Result<
    Vec<u8>,
    String,
>)
    requires
        hdu.header_start <= bytes@.len(),
        planned(hdu@, bytes@.len()) == Ok::<HduPlan, Seq<char>>(*plan),
        can_be_copied(bytes@.len(), *plan, *unit),
    ensures
        match r {
            Ok(piece) => is_unit_copy(piece@, bytes@, hdu@, *plan, *unit),
            Err(e) => exceeds_a_table(bytes@, *plan, *unit) && e@
                == "compressed image exceeds the size of a table"@,
        },
{
    assert(bytes.len() <= usize::MAX);
    match *plan {
        HduPlan::Verbatim { .. } => {
            Ok(vstd::slice::slice_to_vec(copy_verbatim(bytes, hdu)))
        },
        HduPlan::Lossless { width, height, planes, start, end, bitpix } => {
            let image = ImageShape { width, height, planes, bitpix };
            proof {
                lemma_lossless_fits(hdu@, bytes@.len());
            }
            let tiles = stored_tiles(bytes, start, &image);
            let ghost views = card_seqs(tiles@);
            assert(are_tiles_of(views, bytes@, *plan, *unit));
            write_extension(bytes, hdu.header_start, &image, &tiles, None)
        },
        HduPlan::Quantized { width, height, planes, start, end, bitpix } => {
            let image = ImageShape { width, height, planes, bitpix };
            let tiles = quantized_tiles(&unit.rows, &image);
            let ghost views = card_seqs(tiles@);
            assert(are_tiles_of(views, bytes@, *plan, *unit));
            write_extension(bytes, hdu.header_start, &image, &tiles, Some(&unit.scales))
        },
    }
}

/// The pixels of a unit that is compressed without loss lie in the file.
proof fn lemma_lossless_fits(hdu: HduView, len: nat)
    requires
        len <= usize::MAX,
    ensures
        planned(hdu, len) matches Ok(HduPlan::Lossless { width, height, planes, start, bitpix, .. })
            ==> {
            &&& is_int_bitpix(bitpix as int)
            &&& start + ((width * height) * planes) * int_width(bitpix as int) <= len
        },
{
    let cards = hdu.cards;
    let width = number_or(lookup_number(cards, "NAXIS1"@), 0);
    let height = number_or(lookup_number(cards, "NAXIS2"@), 0);
    let planes = if number_or(lookup_number(cards, "NAXIS"@), 0) == 3 {
        number_or(lookup_number(cards, "NAXIS3"@), 1)
    } else {
        1
    };
    if let Ok(HduPlan::Lossless { width: w, height: h, planes: p, .. }) = planned(hdu, len) {
        let bitpix = lookup_number(cards, "BITPIX"@)->Some_0;
        let depth = pixel_bytes(bitpix);
        let max = usize::MAX as int;
        assert(depth == int_width(bitpix));
        if width == 0 || height == 0 || planes == 0 {
            assert(((w * h) * p) * depth == 0) by (nonlinear_arith)
                requires
                    w == 0 || h == 0 || p == 0,
            ;
            assert(((width * height) * planes) * depth == 0) by (nonlinear_arith)
                requires
                    width == 0 || height == 0 || planes == 0,
            ;
        } else {
            assert(((width * height) * planes) * depth >= width && ((width * height) * planes)
                * depth >= height && ((width * height) * planes) * depth >= planes)
                by (nonlinear_arith)
                requires
                    width >= 1,
                    height >= 1,
                    planes >= 1,
                    depth >= 1,
            ;
        }
    }
}

/// Every unit of a file is what is read where it starts, and it starts at least a block before the
/// end of the file.
pub proof fn units_are_read_where_they_start(bytes: Seq<u8>, offset: nat)
    ensures
        hdus_from(bytes, offset) matches Ok(hdus) ==> forall|i: int|
            0 <= i < hdus.len() ==> {
                &&& hdu_at(bytes, (#[trigger] hdus[i]).header_start) == Ok::<HduView, Seq<char>>(
                    hdus[i],
                )
                &&& hdus[i].header_start + 2880 <= bytes.len()
                &&& hdus[i].header_start < hdus[i].next_hdu_offset
            },
    decreases
            if offset <= bytes.len() {
                bytes.len() - offset + 1
            } else {
                0
            },
{
    if offset + 2880 <= bytes.len() {
        if let Ok(hdu) = hdu_at(bytes, offset) {
            if hdu.next_hdu_offset > offset {
                units_are_read_where_they_start(bytes, hdu.next_hdu_offset);
                if let Ok(rest) = hdus_from(bytes, hdu.next_hdu_offset) {
                    let hdus = seq![hdu] + rest;
                    assert forall|i: int| 0 <= i < hdus.len() implies {
                        &&& hdu_at(bytes, (#[trigger] hdus[i]).header_start) == Ok::<
                            HduView,
                            Seq<char>,
                        >(hdus[i])
                        &&& hdus[i].header_start + 2880 <= bytes.len()
                        &&& hdus[i].header_start < hdus[i].next_hdu_offset
                    } by {
                        if i > 0 {
                            assert(hdus[i] == rest[i - 1]);
                        }
                    }
                }
            }
        }
    }
}

/// Whether `pieces` are the copies of the units of a file, in order: a first unit without data,
/// and each other one as planned.
pub open spec fn is_copy_of(
    pieces: Seq<Seq<u8>>,
    bytes: Seq<u8>,
    hdus: Seq<HduView>,
    units: Seq<QuantizedUnit>,
) -> bool {
    &&& pieces.len() == hdus.len()
    &&& pieces.len() > 0
    &&& pieces[0] == stub_bytes(bytes)
    &&& forall|i: int|
        1 <= i < hdus.len() ==> is_planned_copy(#[trigger] pieces[i], bytes, hdus[i], units[i - 1])
}

/// Whether `piece` is the copy of a unit as planned.
pub open spec fn is_planned_copy(
    piece: Seq<u8>,
    bytes: Seq<u8>,
    hdu: HduView,
    unit: QuantizedUnit,
) -> bool {
    planned(hdu, bytes.len()) matches Ok(plan) && is_unit_copy(piece, bytes, hdu, plan, unit)
}

/// Whether every unit but the first can be copied with what is given for it, in the units' order.
pub open spec fn all_can_be_copied(
    bytes: Seq<u8>,
    hdus: Seq<HduView>,
    units: Seq<QuantizedUnit>,
) -> bool {
    &&& units.len() == hdus.len() - 1
    &&& forall|i: int|
        0 <= i < units.len() ==> (planned(hdus[i + 1], bytes.len()) matches Ok(plan)
            ==> can_be_copied(bytes.len(), plan, #[trigger] units[i]))
}

/// The compressed copy of a file: a first unit without data, and every other unit compressed or
/// copied, as planned. For each unit but the first `units` holds the rows of its quantized pixels,
/// which are none for a unit that is not quantized.
pub fn write_compressed_mef(bytes: &[u8], units: &Vec<QuantizedUnit>) -> (r: Result<Vec<u8>, String>)
    requires
        hdus_of(bytes@) matches Ok(hdus) ==> all_can_be_copied(bytes@, hdus, units@),
    ensures
        match hdus_of(bytes@) {
            Err(want) => r matches Err(e) && e@ == want,
            Ok(hdus) => match r {
                Ok(out) => exists|pieces: Seq<Seq<u8>>| #[trigger]
                    is_copy_of(pieces, bytes@, hdus, units@) && out@ == joined(pieces),
                Err(e) => {
                    ||| exists|i: int|
                        1 <= i < hdus.len() && all_planned_before(hdus, bytes@.len(), i)
                            && #[trigger] planned(hdus[i], bytes@.len()) == Err::<
                            HduPlan,
                            Seq<char>,
                        >(e@)
                    ||| {
                        &&& e@ == "compressed image exceeds the size of a table"@
                        &&& all_planned_before(hdus, bytes@.len(), hdus.len() as int)
                        &&& exists|i: int|
                            1 <= i < hdus.len() && exceeds_a_table(
                                bytes@,
                                (#[trigger] planned(hdus[i], bytes@.len()))->Ok_0,
                                units@[i - 1],
                            )
                    }
                },
            },
        },
{
    let hdus = match scan_source_hdus(bytes) {
        Ok(hdus) => hdus,
        Err(e) => {
            return Err(e);
        },
    };
    let ghost views = hdu_views(hdus@);
    let plans = match plan_mef(&hdus, bytes.len()) {
        Ok(plans) => plans,
        Err(e) => {
            proof {
                assert(forall|i: int| 0 <= i < hdus@.len() ==> views[i] == #[trigger] hdus@[i]@);
            }
            return Err(e);
        },
    };
    proof {
        units_are_read_where_they_start(bytes@, 0);
        assert forall|j: int| 1 <= j < views.len() implies planned(
            #[trigger] views[j],
            bytes@.len(),
        ) == Ok::<HduPlan, Seq<char>>(plans@[j - 1]) by {
            assert(views[j] == hdus@[(j - 1) + 1]@);
            assert(planned(hdus@[(j - 1) + 1]@, bytes@.len()) == Ok::<HduPlan, Seq<char>>(
                plans@[j - 1],
            ));
        }
    }
    let mut out = write_stub(bytes);
    let ghost mut pieces = seq![out@];
    proof {
        assert(pieces.drop_last() =~= Seq::<Seq<u8>>::empty());
        assert(joined(pieces.drop_last()) =~= Seq::<u8>::empty());
        assert(joined(pieces) =~= out@);
    }
    let mut i: usize = 1;
    while i < hdus.len()
        invariant
            1 <= i <= hdus@.len(),
            views == hdu_views(hdus@),
            hdus_of(bytes@) == Ok::<Seq<HduView>, Seq<char>>(views),
            all_can_be_copied(bytes@, views, units@),
            plans@.len() == hdus@.len() - 1,
            forall|j: int|
                1 <= j < views.len() ==> planned(#[trigger] views[j], bytes@.len()) == Ok::<
                    HduPlan,
                    Seq<char>,
                >(plans@[j - 1]),
            forall|j: int|
                0 <= j < views.len() ==> (#[trigger] views[j]).header_start + 2880 <= bytes@.len(),
            pieces.len() == i,
            pieces[0] == stub_bytes(bytes@),
            forall|j: int|
                1 <= j < i ==> is_planned_copy(
                    #[trigger] pieces[j],
                    bytes@,
                    views[j],
                    units@[j - 1],
                ),
            out@ == joined(pieces),
        decreases hdus.len() - i,
    {
        proof {
            assert(views[i as int] == hdus@[i as int]@);
            assert(can_be_copied(bytes@.len(), plans@[i - 1], units@[i - 1]));
        }
        match copy_unit(bytes, &hdus[i], &plans[i - 1], &units[i - 1]) {
            Ok(piece) => {
                push_all(&mut out, &piece);
                proof {
                    let longer = pieces.push(piece@);
                    assert(longer.drop_last() =~= pieces);
                    assert forall|j: int| 1 <= j < longer.len() implies is_planned_copy(
                        #[trigger] longer[j],
                        bytes@,
                        views[j],
                        units@[j - 1],
                    ) by {
                        if j < i {
                            assert(longer[j] == pieces[j]);
                        }
                    }
                    pieces = longer;
                }
            },
            Err(e) => {
                proof {
                    assert(planned(views[i as int], bytes@.len())->Ok_0 == plans@[i - 1]);
                }
                return Err(e);
            },
        }
        i = i + 1;
    }
    proof {
        assert(is_copy_of(pieces, bytes@, views, units@));
    }
    Ok(out)
}

} // verus!
