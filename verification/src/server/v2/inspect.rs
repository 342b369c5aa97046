//! What a file holds: its header units, and the cards of a header.

use vstd::prelude::*;
use vstd::string::*;
use crate::fits::header::{lookup, lookup_number, number_or, SourceHdu};
use crate::server::connect::around;
use crate::server::error::AppError;
use crate::server::session::V2SessionState;
use crate::server::v2::export::not_in_session;
use crate::server::v2::glob::{fits, to_upper, uppered, wildcard};
use crate::text::{first_of, opt_text, same, split_once, texts, trim, trimmed};

verus! {

/// Which image to inspect.
#[derive(Debug)]
pub struct RefQuery {
    /// None for the one in use.
    pub image_ref: Option<String>,
}

/// Which cards of which image to return.
#[derive(Debug)]
pub struct HeaderQuery {
    /// None for the one in use.
    pub image_ref: Option<String>,
    /// Keys or patterns between commas; none for all cards.
    pub keys: Option<String>,
}

/// The type that a `BITPIX` stands for.
pub open spec fn dtype_of(bitpix: i64) -> Seq<char> {
    if bitpix == 8 {
        "uint8"@
    } else if bitpix == 16 {
        "int16"@
    } else if bitpix == 32 {
        "int32"@
    } else if bitpix == 64 {
        "int64"@
    } else if bitpix == -32 {
        "float32"@
    } else if bitpix == -64 {
        "float64"@
    } else {
        "unknown"@
    }
}

/// The type that a `BITPIX` stands for.
pub fn dtype_for_bitpix(bitpix: i64) -> (s: &'static str)
    ensures
        s@ == dtype_of(bitpix),
        bitpix == 8 ==> s@ == "uint8"@,
        bitpix == 16 ==> s@ == "int16"@,
        bitpix == 32 ==> s@ == "int32"@,
        bitpix == 64 ==> s@ == "int64"@,
        bitpix == -32 ==> s@ == "float32"@,
        bitpix == -64 ==> s@ == "float64"@,
{
    if bitpix == 8 {
        "uint8"
    } else if bitpix == 16 {
        "int16"
    } else if bitpix == 32 {
        "int32"
    } else if bitpix == 64 {
        "int64"
    } else if bitpix == -32 {
        "float32"
    } else if bitpix == -64 {
        "float64"
    } else {
        "unknown"
    }
}

/// The lengths of the axes, the slowest first, of three axes at most.
pub open spec fn shape_of(naxis: i64, naxis1: i64, naxis2: i64, naxis3: i64) -> Seq<i64> {
    if naxis == 0 {
        Seq::empty()
    } else if naxis == 1 {
        seq![naxis1]
    } else if naxis == 2 {
        seq![naxis2, naxis1]
    } else {
        seq![naxis3, naxis2, naxis1]
    }
}

/// The lengths of the axes, the last one first; of more than three axes, the first three.
pub fn shape_for(naxis: i64, naxis1: i64, naxis2: i64, naxis3: i64) -> (v: Vec<i64>)
    ensures
        v@ == shape_of(naxis, naxis1, naxis2, naxis3),
{
    let mut v: Vec<i64> = Vec::new();
    if naxis == 0 {
        return v;
    }
    if naxis != 1 && naxis != 2 {
        v.push(naxis3);
    }
    if naxis != 1 {
        v.push(naxis2);
    }
    v.push(naxis1);
    v
}

/// Whether a pattern matches a key, the case of ASCII letters not counting.
pub fn glob_match(pattern: &str, text: &str) -> (r: bool)
    ensures
        r == fits(uppered(pattern@), uppered(text@)),
{
    wildcard(&to_upper(pattern), &to_upper(text))
}

/// The parts of a text between commas.
pub open spec fn comma_parts(s: Seq<char>) -> Seq<Seq<char>>
    decreases s.len(),
{
    let i = first_of(s, ',');
    if 0 <= i < s.len() {
        seq![s.take(i)] + comma_parts(s.skip(i + 1))
    } else {
        seq![s]
    }
}

/// The patterns among some parts: each without the white space around it, empty ones left out.
pub open spec fn patterns_among(parts: Seq<Seq<char>>) -> Seq<Seq<char>>
    decreases parts.len(),
{
    if parts.len() == 0 {
        Seq::empty()
    } else if trimmed(parts[0]).len() == 0 {
        patterns_among(parts.skip(1))
    } else {
        seq![trimmed(parts[0])] + patterns_among(parts.skip(1))
    }
}

/// The patterns of a query.
pub open spec fn patterns_of(keys: Seq<char>) -> Seq<Seq<char>> {
    patterns_among(comma_parts(keys))
}

/// Reads the patterns of a query.
pub fn key_patterns(keys: &str) -> (v: Vec<String>)
    ensures
        texts(v@) == patterns_of(keys@),
{
    let mut v: Vec<String> = Vec::new();
    let mut left: &str = keys;
    assert(texts(v@) + patterns_of(keys@) =~= patterns_of(keys@));
    loop
        invariant
            texts(v@) + patterns_among(comma_parts(left@)) == patterns_of(keys@),
        decreases left@.len(),
    {
        let ghost parts = comma_parts(left@);
        let ghost before = texts(v@);
        match split_once(left, ',') {
            Some((part, rest)) => {
                let pattern = trim(part);
                assert(parts[0] == part@);
                assert(parts.skip(1) =~= comma_parts(rest@));
                if pattern.unicode_len() > 0 {
                    v.push(pattern.to_owned());
                    assert(texts(v@) =~= before.push(pattern@));
                }
                assert(texts(v@) + patterns_among(comma_parts(rest@)) =~= before + patterns_among(
                    parts,
                ));
                left = rest;
            },
            None => {
                let pattern = trim(left);
                assert(parts[0] == left@);
                assert(parts.skip(1) =~= Seq::<Seq<char>>::empty());
                assert(patterns_among(parts.skip(1)) =~= Seq::<Seq<char>>::empty());
                if pattern.unicode_len() > 0 {
                    v.push(pattern.to_owned());
                    assert(texts(v@) =~= before.push(pattern@));
                }
                assert(texts(v@) =~= before + patterns_among(parts));
                return v;
            },
        }
    }
}

/// A card of a header.
#[derive(Debug)]
pub struct Card {
    pub key: String,
    pub value: String,
}

impl Clone for Card {
    fn clone(&self) -> (c: Self)
        ensures
            c == *self,
    {
        Card { key: self.key.clone(), value: self.value.clone() }
    }
}

/// Whether a key is asked for.
pub open spec fn is_wanted(key: Seq<char>, keys: Option<Seq<char>>) -> bool {
    match keys {
        None => true,
        Some(k) => exists|i: int|
            0 <= i < patterns_of(k).len() && fits(
                uppered(#[trigger] patterns_of(k)[i]),
                uppered(key),
            ),
    }
}

/// Whether some cards hold one under a key.
pub open spec fn has_key(cards: Seq<Card>, key: Seq<char>) -> bool {
    exists|i: int| 0 <= i < cards.len() && (#[trigger] cards[i]).key@ == key
}

/// The cards asked for, in order, the first of each key.
pub open spec fn chosen_cards(cards: Seq<Card>, keys: Option<Seq<char>>) -> Seq<Card>
    decreases cards.len(),
{
    if cards.len() == 0 {
        Seq::empty()
    } else {
        let before = chosen_cards(cards.drop_last(), keys);
        if is_wanted(cards.last().key@, keys) && !has_key(before, cards.last().key@) {
            before.push(cards.last())
        } else {
            before
        }
    }
}

fn holds(cards: &Vec<Card>, key: &str) -> (b: bool)
    ensures
        b == has_key(cards@, key@),
{
    let mut i: usize = 0;
    while i < cards.len()
        invariant
            i <= cards@.len(),
            forall|j: int| 0 <= j < i ==> (#[trigger] cards@[j]).key@ != key@,
        decreases cards.len() - i,
    {
        if same(cards[i].key.as_str(), key) {
            assert(cards@[i as int].key@ == key@);
            return true;
        }
        i = i + 1;
    }
    false
}

fn any_fits(patterns: &Vec<String>, key: &str) -> (b: bool)
    ensures
        b == exists|i: int|
            0 <= i < texts(patterns@).len() && fits(
                uppered(#[trigger] texts(patterns@)[i]),
                uppered(key@),
            ),
{
    let mut i: usize = 0;
    while i < patterns.len()
        invariant
            i <= patterns@.len(),
            forall|j: int|
                0 <= j < i ==> !fits(uppered(#[trigger] texts(patterns@)[j]), uppered(key@)),
        decreases patterns.len() - i,
    {
        if glob_match(patterns[i].as_str(), key) {
            assert(texts(patterns@)[i as int] == patterns@[i as int]@);
            return true;
        }
        assert(texts(patterns@)[i as int] == patterns@[i as int]@);
        i = i + 1;
    }
    false
}

/// Picks the cards asked for, in order, the first of each key.
pub fn header_cards(cards: &Vec<Card>, keys: Option<&str>) -> (out: Vec<Card>)
    ensures
        out@ == chosen_cards(
            cards@,
            match keys {
                Some(k) => Some(k@),
                None => None,
            },
        ),
{
    let ghost wanted = match keys {
        Some(k) => Some(k@),
        None => None,
    };
    let patterns: Option<Vec<String>> = match keys {
        Some(k) => Some(key_patterns(k)),
        None => None,
    };
    let mut out: Vec<Card> = Vec::new();
    let mut i: usize = 0;
    while i < cards.len()
        invariant
            i <= cards@.len(),
            match (patterns, wanted) {
                (Some(p), Some(k)) => texts(p@) == patterns_of(k),
                (None, None) => true,
                _ => false,
            },
            out@ == chosen_cards(cards@.take(i as int), wanted),
        decreases cards.len() - i,
    {
        assert(cards@.take(i + 1).drop_last() =~= cards@.take(i as int));
        let keep = match &patterns {
            None => true,
            Some(p) => any_fits(p, cards[i].key.as_str()),
        };
        if keep && !holds(&out, cards[i].key.as_str()) {
            out.push(cards[i].clone());
        }
        i = i + 1;
    }
    assert(cards@.take(i as int) =~= cards@);
    out
}

/// No key comes twice among the chosen cards, and every key asked for that the header has is there.
pub proof fn chosen_cards_are_complete(cards: Seq<Card>, keys: Option<Seq<char>>)
    ensures
        forall|i: int, j: int|
            0 <= i < j < chosen_cards(cards, keys).len() ==> (#[trigger] chosen_cards(
                cards,
                keys,
            )[i]).key@ != (#[trigger] chosen_cards(cards, keys)[j]).key@,
        forall|i: int|
            0 <= i < cards.len() && is_wanted((#[trigger] cards[i]).key@, keys) ==> has_key(
                chosen_cards(cards, keys),
                cards[i].key@,
            ),
    decreases cards.len(),
{
    if cards.len() > 0 {
        let shorter = cards.drop_last();
        let before = chosen_cards(shorter, keys);
        let now = chosen_cards(cards, keys);
        chosen_cards_are_complete(shorter, keys);
        assert forall|key: Seq<char>| has_key(before, key) implies #[trigger] has_key(now, key) by {
            let i = choose|i: int| 0 <= i < before.len() && (#[trigger] before[i]).key@ == key;
            assert(now[i].key@ == key);
        }
        assert forall|i: int|
            0 <= i < cards.len() && is_wanted((#[trigger] cards[i]).key@, keys) implies has_key(
            now,
            cards[i].key@,
        ) by {
            if i < cards.len() - 1 {
                assert(shorter[i] == cards[i]);
            } else if !has_key(before, cards[i].key@) {
                assert(now[before.len() as int].key@ == cards[i].key@);
            }
        }
        assert forall|i: int, j: int| 0 <= i < j < now.len() implies (#[trigger] now[i]).key@ != (
        #[trigger] now[j]).key@ by {
            if j < before.len() {
                assert(before[i].key@ != before[j].key@);
            } else {
                assert(before[i] == now[i]);
            }
        }
    }
}

/// Finds the file whose header units are listed, with the image it is for.
pub fn structure_source(state: &V2SessionState, explicit: Option<String>) -> (r: Result<
    (String, String),
    AppError,
>)
    requires
        state.wf(),
    ensures
        ({
            let target = if explicit is Some {
                opt_text(explicit)
            } else {
                opt_text(state.active())
            };
            match r {
                Ok((name, source)) => {
                    &&& target == Some(name@)
                    &&& state.meta().dom().contains(name@)
                    &&& opt_text(state.meta()[name@].source) == Some(source@)
                },
                Err(AppError::BadRequest(m)) => if target is None {
                    m@ == "no active image in this session; open a file first"@
                } else {
                    &&& state.meta().dom().contains(target->0) ==> state.meta()[target->0].source
                        is None
                    &&& m@ == "ref "@ + target->0
                        + " has no source file to inspect (derived product?)"@
                },
                Err(_) => false,
            }
        }),
{
    let target = match state.target_ref(explicit) {
        Ok(name) => name,
        Err(e) => {
            return Err(e);
        },
    };
    if let Some(meta) = state.get(target.as_str()) {
        if let Some(source) = &meta.source {
            return Ok((target, source.clone()));
        }
    }
    Err(
        AppError::BadRequest(
            around(
                "ref ",
                target.as_str(),
                " has no source file to inspect (derived product?)",
            ),
        ),
    )
}

/// The error where an image has no cards to return: it is not registered, or it carries no header.
pub fn header_error(image_ref: &str, registered: bool) -> (e: AppError)
    ensures
        registered ==> e is BadRequest && e->BadRequest_0@ == "image "@ + image_ref@
            + " carries no header"@,
        !registered ==> e is NotFound && e->NotFound_0@ == "image ref "@ + image_ref@
            + " not found in session"@,
{
    if registered {
        AppError::BadRequest(around("image ", image_ref, " carries no header"))
    } else {
        AppError::NotFound(not_in_session(image_ref))
    }
}

/// What is told of a unit of a file.
#[derive(Debug)]
pub struct HduRow {
    pub index: usize,
    pub extname: Option<String>,
    pub extver: i64,
    pub naxis: i64,
    /// The lengths of the axes, the slowest first.
    pub shape: Vec<i64>,
    pub bitpix: i64,
    pub dtype: &'static str,
    pub has_data: bool,
}

/// The name of a unit: the first one is called `PRIMARY` where it does not say otherwise.
pub open spec fn extname_of(hdu: SourceHdu, index: nat) -> Option<Seq<char>> {
    match lookup(hdu@.cards, "EXTNAME"@) {
        Some(name) => Some(trimmed(name)),
        None => if index == 0 {
            Some("PRIMARY"@)
        } else {
            None
        },
    }
}

/// Whether `row` tells of unit number `index`.
pub open spec fn is_row(row: HduRow, hdu: SourceHdu, index: nat) -> bool {
    let cards = hdu@.cards;
    let axis = |key: Seq<char>| number_or(lookup_number(cards, key), 0);
    &&& row.index == index
    &&& opt_text(row.extname) == extname_of(hdu, index)
    &&& row.extver == number_or(lookup_number(cards, "EXTVER"@), 1)
    &&& row.naxis == axis("NAXIS"@)
    &&& row.bitpix == axis("BITPIX"@)
    &&& row.shape@ == shape_of(
        row.naxis,
        axis("NAXIS1"@) as i64,
        axis("NAXIS2"@) as i64,
        axis("NAXIS3"@) as i64,
    )
    &&& row.dtype@ == dtype_of(row.bitpix)
    &&& row.has_data == (hdu.data_start < hdu.next_hdu_offset)
}

fn axis(hdu: &SourceHdu, key: &str, default: i64) -> (n: i64)
    ensures
        n == number_or(lookup_number(hdu@.cards, key@), default as int),
{
    match hdu.header.get_i64(key) {
        Some(n) => n,
        None => default,
    }
}

/// Tells of the units of a file, in their order.
pub fn structure(hdus: &Vec<SourceHdu>) -> (rows: Vec<HduRow>)
    ensures
        rows@.len() == hdus@.len(),
        forall|i: int| 0 <= i < rows@.len() ==> is_row(#[trigger] rows@[i], hdus@[i], i as nat),
{
    let mut rows: Vec<HduRow> = Vec::new();
    let mut i: usize = 0;
    while i < hdus.len()
        invariant
            i <= hdus@.len(),
            rows@.len() == i,
            forall|j: int| 0 <= j < i ==> is_row(#[trigger] rows@[j], hdus@[j], j as nat),
        decreases hdus.len() - i,
    {
        let hdu = &hdus[i];
        let extname = match hdu.header.get("EXTNAME") {
            Some(name) => Some(trim(name).to_owned()),
            None => if i == 0 {
                Some("PRIMARY".to_owned())
            } else {
                None
            },
        };
        let naxis: i64 = axis(hdu, "NAXIS", 0);
        let bitpix: i64 = axis(hdu, "BITPIX", 0);
        let row = HduRow {
            index: i,
            extname,
            extver: axis(hdu, "EXTVER", 1),
            naxis,
            shape: shape_for(
                naxis,
                axis(hdu, "NAXIS1", 0),
                axis(hdu, "NAXIS2", 0),
                axis(hdu, "NAXIS3", 0),
            ),
            bitpix,
            dtype: dtype_for_bitpix(bitpix),
            has_data: hdu.data_start < hdu.next_hdu_offset,
        };
        assert(is_row(row, *hdu, i as nat));
        rows.push(row);
        i = i + 1;
    }
    rows
}

/// Refuses to list the units of a file that has none.
pub fn fits_only(is_asdf: bool) -> (r: Result<(), AppError>)
    ensures
        match r {
            Ok(_) => !is_asdf,
            Err(e) => is_asdf && e is BadRequest && e->BadRequest_0@
                == "structure listing is FITS-only; this ref came from an ASDF file"@,
        },
{
    if is_asdf {
        return Err(
            AppError::BadRequest(
                "structure listing is FITS-only; this ref came from an ASDF file".to_owned(),
            ),
        );
    }
    Ok(())
}

} // verus!
