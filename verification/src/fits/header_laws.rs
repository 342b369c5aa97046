//! What a header says, stated of its bytes: cards of eighty bytes up to the one that ends it, keys
//! and values in their columns, and blocks of 2880 bytes.

use vstd::prelude::*;
use vstd::string::*;
use crate::fits::extension::lemma_before_end;
use crate::fits::header::{
    as_text, axes_product, axis_of, card_at, cards_before_end, data_bytes, first_cards, has_value,
    hdu_at, in_blocks, is_end, lookup, lookup_number, pixel_bytes, unquoted, value_in, CardView,
    HduView,
};
use crate::text::{decimal, is_space, trimmed, trimmed_end, trimmed_start};
use crate::text_laws::{lemma_first_is, trimming_gives_back_the_middle};

verus! {

/// A size in blocks is the least number of whole blocks of 2880 bytes that holds it.
pub proof fn blocks_hold_what_they_must(n: nat)
    ensures
        in_blocks(n) % 2880 == 0,
        n <= in_blocks(n) < n + 2880,
{
}

/// A card has eighty bytes, one behind the other.
pub proof fn cards_have_eighty_bytes(bytes: Seq<u8>, start: int, i: int, k: int)
    requires
        0 <= start,
        0 <= i,
        start + 80 * (i + 1) <= bytes.len(),
        0 <= k < 80,
    ensures
        card_at(bytes, start, i).len() == 80,
        card_at(bytes, start, i)[k] == bytes[start + 80 * i + k],
{
}

/// The card that ends a header has `END` and blanks in the columns of its key; a card with a value
/// has an equals sign and a blank behind them.
pub proof fn marks_stand_in_their_columns(card: Seq<u8>)
    requires
        card.len() == 80,
    ensures
        is_end(card) <==> as_text(card).take(8) == "END     "@,
        has_value(card) <==> as_text(card).subrange(8, 10) == "= "@,
{
    reveal_strlit("END     ");
    reveal_strlit("= ");
    let t = as_text(card).take(8);
    let end = "END     "@;
    if is_end(card) {
        assert forall|i: int| 0 <= i < 8 implies t[i] == end[i] by {
            if i >= 3 {
                assert(card[i] == 0x20);
            }
        }
        assert(t =~= end);
    }
    if t == end {
        assert(t[0] == 'E' && t[1] == 'N' && t[2] == 'D');
        assert(t[0] == card[0] as char && t[1] == card[1] as char && t[2] == card[2] as char);
        assert forall|i: int| 3 <= i < 8 implies #[trigger] card[i] == 0x20 by {
            assert(t[i] == card[i] as char);
            assert(end[i] == ' ');
        }
    }
    let m = as_text(card).subrange(8, 10);
    if has_value(card) {
        assert(m =~= "= "@);
    }
    if m == "= "@ {
        assert(m[0] == card[8] as char && m[1] == card[9] as char);
        assert("= "@[0] == '=' && "= "@[1] == ' ');
    }
}

proof fn lemma_no_end(bytes: Seq<u8>, start: int, i: int, j: int)
    requires
        cards_before_end(bytes, start, i) is None,
        0 <= start,
        0 <= i <= j,
        start + 80 * (j + 1) <= bytes.len(),
    ensures
        !is_end(card_at(bytes, start, j)),
    decreases j - i,
{
    if i < j {
        lemma_no_end(bytes, start, i + 1, j);
    }
}

/// A header ends at the first card that ends one, and there is none where no card does.
pub proof fn a_header_ends_at_its_first_end(bytes: Seq<u8>, start: int, j: int)
    requires
        0 <= start,
        0 <= j,
        start + 80 * (j + 1) <= bytes.len(),
        is_end(card_at(bytes, start, j)),
    ensures
        cards_before_end(bytes, start, 0) matches Some(n) && {
            &&& 0 <= n <= j
            &&& is_end(card_at(bytes, start, n))
            &&& forall|k: int| 0 <= k < n ==> !is_end(#[trigger] card_at(bytes, start, k))
        },
{
    match cards_before_end(bytes, start, 0) {
        None => {
            lemma_no_end(bytes, start, 0, j);
        },
        Some(n) => {
            lemma_before_end(bytes, start, 0, n);
            if j < n {
                assert(!is_end(card_at(bytes, start, j)));
            }
        },
    }
}

/// What is looked up is the value of the first card of its key; nothing is found only where no card
/// has the key.
pub proof fn the_first_card_of_a_key_counts(cards: Seq<CardView>, key: Seq<char>)
    ensures
        match lookup(cards, key) {
            Some(value) => exists|i: int|
                {
                    &&& 0 <= i < cards.len()
                    &&& (#[trigger] cards[i]).key == key
                    &&& cards[i].value == value
                    &&& forall|j: int| 0 <= j < i ==> (#[trigger] cards[j]).key != key
                },
            None => forall|i: int| 0 <= i < cards.len() ==> (#[trigger] cards[i]).key != key,
        },
    decreases cards.len(),
{
    if cards.len() > 0 {
        let tail = cards.skip(1);
        if cards[0].key == key {
            assert(cards[0].value == lookup(cards, key)->0);
        } else {
            the_first_card_of_a_key_counts(tail, key);
            match lookup(cards, key) {
                Some(value) => {
                    let i = choose|i: int|
                        {
                            &&& 0 <= i < tail.len()
                            &&& (#[trigger] tail[i]).key == key
                            &&& tail[i].value == value
                            &&& forall|j: int| 0 <= j < i ==> (#[trigger] tail[j]).key != key
                        };
                    assert(cards[i + 1] == tail[i]);
                    assert forall|j: int| 0 <= j < i + 1 implies (#[trigger] cards[j]).key
                        != key by {
                        if j > 0 {
                            assert(tail[j - 1] == cards[j]);
                        }
                    }
                },
                None => {
                    assert forall|i: int| 0 <= i < cards.len() implies (#[trigger] cards[i]).key
                        != key by {
                        if i > 0 {
                            assert(tail[i - 1] == cards[i]);
                        }
                    }
                },
            }
        }
    }
}

/// The cards with values are read in their order, those without are passed over: a card behind
/// others adds its key, from the first eight columns, and its value, from the columns behind the
/// tenth, to what they say.
pub proof fn cards_are_read_in_order(bytes: Seq<u8>, start: int, n: int)
    requires
        0 <= start,
        0 <= n,
        start + 80 * (n + 1) <= bytes.len(),
    ensures
        first_cards(bytes, start, 0).len() == 0,
        ({
            let text = as_text(bytes.subrange(start + 80 * n, start + 80 * n + 80));
            let before = first_cards(bytes, start, n);
            first_cards(bytes, start, n + 1) == if text.subrange(8, 10) == "= "@ {
                before.push(
                    (CardView {
                        key: trimmed(text.subrange(0, 8)),
                        value: value_in(text.subrange(10, 80)),
                    }),
                )
            } else {
                before
            }
        }),
{
    let card = card_at(bytes, start, n);
    marks_stand_in_their_columns(card);
    let text = as_text(card);
    assert(as_text(card.subrange(0, 8)) =~= text.subrange(0, 8));
    assert(as_text(card.subrange(10, 80)) =~= text.subrange(10, 80));
}

proof fn lemma_start_skips(blank: Seq<char>, s: Seq<char>)
    requires
        forall|i: int| 0 <= i < blank.len() ==> is_space(#[trigger] blank[i]),
        s.len() > 0,
        !is_space(s[0]),
    ensures
        trimmed_start(blank + s) == s,
    decreases blank.len(),
{
    let all = blank + s;
    if blank.len() == 0 {
        assert(all =~= s);
    } else {
        let tail = blank.skip(1);
        assert forall|i: int| 0 <= i < tail.len() implies is_space(#[trigger] tail[i]) by {
            assert(tail[i] == blank[i + 1]);
        }
        lemma_start_skips(tail, s);
        assert(is_space(blank[0]));
        assert(all.skip(1) =~= tail + s);
    }
}

/// A value that is not quoted is what stands before the slash of the comment, without the blanks
/// around it; without a comment it reaches to the end.
pub proof fn plain_values_end_at_the_comment(
    before: Seq<char>,
    value: Seq<char>,
    behind: Seq<char>,
    comment: Seq<char>,
)
    requires
        forall|i: int| 0 <= i < before.len() ==> is_space(#[trigger] before[i]),
        forall|i: int| 0 <= i < behind.len() ==> is_space(#[trigger] behind[i]),
        value.len() > 0,
        !is_space(value[0]) && !is_space(value.last()),
        value[0] != '\'',
        forall|i: int| 0 <= i < value.len() ==> #[trigger] value[i] != '/',
    ensures
        value_in(before + value + behind) == value,
        value_in(before + value + behind + "/"@ + comment) == value,
{
    reveal_strlit("/");
    let none = Seq::<char>::empty();
    let short = value + behind;
    let long = value + behind + "/"@ + comment;
    let end = short.len() as int;
    assert(before + value + behind =~= before + short);
    assert(before + value + behind + "/"@ + comment =~= before + long);
    lemma_start_skips(before, short);
    lemma_start_skips(before, long);
    assert forall|j: int| 0 <= j < end implies #[trigger] long[j] != '/' && short[j] != '/'
        && long[j] == short[j] by {
        if j < value.len() {
            assert(short[j] == value[j]);
        } else {
            assert(short[j] == behind[j - value.len()]);
        }
    }
    assert forall|j: int| 0 <= j < end implies #[trigger] short[j] != '/' by {
        assert(long[j] == short[j]);
    }
    assert(long[end] == '/');
    lemma_first_is(long, '/', end);
    lemma_first_is(short, '/', end);
    assert(long.take(end) =~= none + value + behind);
    assert(short.take(end) =~= none + value + behind);
    trimming_gives_back_the_middle(none, value, behind);
}

/// Between quotes a text ends at its first single quote, whatever follows; two quotes stand for
/// one.
pub proof fn quotes_end_at_a_single_quote(text: Seq<char>, more: Seq<char>)
    requires
        forall|i: int| 0 <= i < text.len() ==> #[trigger] text[i] != '\'',
    ensures
        more.len() == 0 || more[0] != '\'' ==> unquoted(text + "'"@ + more) == text,
        unquoted(text + "''"@ + more) == text + "'"@ + unquoted(more),
        unquoted(text) == text,
    decreases text.len(),
{
    reveal_strlit("'");
    reveal_strlit("''");
    let one = text + "'"@ + more;
    let two = text + "''"@ + more;
    if text.len() == 0 {
        assert(one[0] == '\'');
        assert(two[0] == '\'' && two[1] == '\'');
        assert(two.skip(2) =~= more);
        assert(text + "'"@ + unquoted(more) =~= seq!['\''] + unquoted(more));
        if more.len() == 0 || more[0] != '\'' {
            if more.len() > 0 {
                assert(one[1] == more[0]);
            }
            assert(unquoted(one) =~= text);
        }
        assert(unquoted(text) =~= text);
    } else {
        let tail = text.skip(1);
        assert(text[0] != '\'');
        assert forall|i: int| 0 <= i < tail.len() implies #[trigger] tail[i] != '\'' by {
            assert(tail[i] == text[i + 1]);
        }
        quotes_end_at_a_single_quote(tail, more);
        assert(one.skip(1) =~= tail + "'"@ + more);
        assert(two.skip(1) =~= tail + "''"@ + more);
        assert(seq![text[0]] + tail =~= text);
        assert(seq![text[0]] + (tail + "'"@ + unquoted(more)) =~= text + "'"@ + unquoted(more));
    }
}

/// A quoted value is the text between the quotes, without the blanks at its end; the blanks at its
/// start and a slash in it belong to it.
pub proof fn quoted_values_are_what_stands_between_quotes(
    before: Seq<char>,
    text: Seq<char>,
    blank: Seq<char>,
    more: Seq<char>,
)
    requires
        forall|i: int| 0 <= i < before.len() ==> is_space(#[trigger] before[i]),
        forall|i: int| 0 <= i < blank.len() ==> is_space(#[trigger] blank[i]),
        forall|i: int| 0 <= i < text.len() ==> #[trigger] text[i] != '\'',
        text.len() > 0 ==> !is_space(text.last()),
        more.len() == 0 || more[0] != '\'',
    ensures
        value_in(before + "'"@ + text + blank + "'"@ + more) == text,
{
    reveal_strlit("'");
    let inner = text + blank;
    let body = inner + "'"@ + more;
    let field = "'"@ + body;
    assert(before + "'"@ + text + blank + "'"@ + more =~= before + field);
    lemma_start_skips(before, field);
    assert(field.skip(1) =~= body);
    assert forall|i: int| 0 <= i < inner.len() implies #[trigger] inner[i] != '\'' by {
        if i < text.len() {
            assert(inner[i] == text[i]);
        } else {
            assert(inner[i] == blank[i - text.len()]);
        }
    }
    quotes_end_at_a_single_quote(inner, more);
    lemma_end_skips(text, blank);
}

proof fn lemma_end_skips(s: Seq<char>, blank: Seq<char>)
    requires
        forall|i: int| 0 <= i < blank.len() ==> is_space(#[trigger] blank[i]),
        s.len() > 0 ==> !is_space(s.last()),
    ensures
        trimmed_end(s + blank) == s,
    decreases blank.len(),
{
    let all = s + blank;
    if blank.len() == 0 {
        assert(all =~= s);
    } else {
        let front = blank.drop_last();
        assert forall|i: int| 0 <= i < front.len() implies is_space(#[trigger] front[i]) by {
            assert(front[i] == blank[i]);
        }
        lemma_end_skips(s, front);
        assert(is_space(blank[blank.len() - 1]));
        assert(all.drop_last() =~= s + front);
    }
}

/// The data of a unit has as many bytes as its pixels: the lengths of its axes multiplied, with the
/// bytes of a pixel, a byte for every eight of the bits that `BITPIX` says. A unit without axes has
/// no data.
pub proof fn data_is_as_long_as_the_axes_say(cards: Seq<CardView>, a: int, b: int, bitpix: int)
    requires
        lookup_number(cards, "BITPIX"@) == Some(bitpix),
        bitpix == 8 || bitpix == 16 || bitpix == 32 || bitpix == 64 || bitpix == -32 || bitpix
            == -64,
        lookup_number(cards, "NAXIS1"@) == Some(a),
        lookup_number(cards, "NAXIS2"@) == Some(b),
        lookup(cards, "PCOUNT"@) is None,
        lookup(cards, "GCOUNT"@) is None,
        0 <= a,
        0 <= b,
        a * b <= i64::MAX,
        a <= i64::MAX,
    ensures
        ({
            let depth = if bitpix == 8 {
                1int
            } else if bitpix == 16 {
                2
            } else if bitpix == 32 || bitpix == -32 {
                4
            } else {
                8
            };
            &&& lookup_number(cards, "NAXIS"@) == Some(0int) ==> data_bytes(cards) == Some(0nat)
            &&& lookup_number(cards, "NAXIS"@) == Some(1int) ==> data_bytes(cards) == Some(
                (a * depth) as nat,
            )
            &&& lookup_number(cards, "NAXIS"@) == Some(2int) ==> data_bytes(cards) == Some(
                (a * b * depth) as nat,
            )
        }),
{
    reveal_strlit("NAXIS");
    reveal_strlit("NAXIS1");
    reveal_strlit("NAXIS2");
    assert("NAXIS"@ + decimal(1) =~= "NAXIS1"@);
    assert("NAXIS"@ + decimal(2) =~= "NAXIS2"@);
    let depth = pixel_bytes(bitpix);
    assert(axes_product(cards, 0) == Some(1nat));
    assert(axis_of(cards, 1) == a);
    assert(1nat * a == a) by (nonlinear_arith);
    assert(axes_product(cards, 1) == Some(a as nat));
    assert(axis_of(cards, 2) == b);
    assert(0 <= a * b) by (nonlinear_arith)
        requires
            0 <= a,
            0 <= b,
    ;
    assert(axes_product(cards, 2) == Some((a * b) as nat));
    let ab = a * b;
    assert(depth * (1 * (0 + a)) == a * depth && depth * (1 * (0 + ab)) == ab * depth)
        by (nonlinear_arith);
}

/// Parameters and groups count as the standard says: every group has its pixels and as many more
/// values as parameters; where the header does not say, there is one group without parameters.
pub proof fn groups_have_parameters(cards: Seq<CardView>, naxis: nat, p: nat, b: int)
    requires
        lookup_number(cards, "NAXIS"@) == Some(naxis as int),
        0 < naxis <= 999,
        axes_product(cards, naxis) == Some(p),
        lookup_number(cards, "BITPIX"@) == Some(b),
    ensures
        ({
            let g = match lookup_number(cards, "GCOUNT"@) {
                Some(g) => g,
                None => 1,
            };
            let q = match lookup_number(cards, "PCOUNT"@) {
                Some(q) => q,
                None => 0,
            };
            &&& g >= 0 && q >= 0 ==> data_bytes(cards) == Some(
                ((if b < 0 {
                    -b / 8
                } else {
                    b / 8
                }) * (g * (q + p))) as nat,
            )
            &&& g < 0 || q < 0 ==> data_bytes(cards) is None
        }),
{
}

/// Every axis has its own card, and the pixels are the product of the axes, the first ones and one
/// more at a time; an axis that the header does not give has no pixels.
pub proof fn axes_multiply(cards: Seq<CardView>, n: nat, length: int)
    requires
        n > 0,
    ensures
        lookup_number(cards, "NAXIS"@ + decimal(n)) == Some(length) ==> axis_of(cards, n) == length,
        lookup_number(cards, "NAXIS"@ + decimal(n)) is None ==> axis_of(cards, n) == 0,
        axes_product(cards, 0) == Some(1nat),
        axis_of(cards, n) < 0 ==> axes_product(cards, n) is None,
        axes_product(cards, (n - 1) as nat) is None ==> axes_product(cards, n) is None,
        axes_product(cards, (n - 1) as nat) matches Some(p) ==> (0 <= p * axis_of(cards, n)
            <= i64::MAX && axis_of(cards, n) >= 0 ==> axes_product(cards, n) == Some(
            (p * axis_of(cards, n)) as nat,
        )) && (p * axis_of(cards, n) > i64::MAX ==> axes_product(cards, n) is None),
{
}

/// A unit lies where its header and its data end: the header takes the cards and the one that ends
/// it, the data its bytes, and both fill whole blocks.
pub proof fn units_fill_whole_blocks(bytes: Seq<u8>, start: nat, n: int)
    requires
        cards_before_end(bytes, start as int, 0) == Some(n),
    ensures
        hdu_at(bytes, start) matches Ok(hdu) ==> {
            &&& hdu.header_start == start
            &&& hdu.cards == first_cards(bytes, start as int, n)
            &&& data_bytes(hdu.cards) is Some
            &&& (hdu.data_start - start) % 2880 == 0
            &&& 80 * (n + 1) <= hdu.data_start - start < 80 * (n + 1) + 2880
            &&& (hdu.next_hdu_offset - hdu.data_start) % 2880 == 0
            &&& data_bytes(hdu.cards)->0 <= hdu.next_hdu_offset - hdu.data_start < data_bytes(
                hdu.cards,
            )->0 + 2880
        },
{
    lemma_before_end(bytes, start as int, 0, n);
}

/// The bytes of a header are its characters, one for one.
pub proof fn bytes_are_characters(bytes: Seq<u8>, i: int)
    ensures
        as_text(bytes).len() == bytes.len(),
        0 <= i < bytes.len() ==> as_text(bytes)[i] as u32 == bytes[i],
{
}

/// A header in which no card ends it has no end.
pub proof fn a_header_without_an_end_has_none(bytes: Seq<u8>, start: int, i: int)
    requires
        0 <= i,
        forall|j: int|
            0 <= j && start + 80 * (j + 1) <= bytes.len() ==> !is_end(
                #[trigger] card_at(bytes, start, j),
            ),
    ensures
        cards_before_end(bytes, start, i) is None,
    decreases bytes.len() - start - 80 * i,
{
    if 0 <= start && start + 80 * i + 80 <= bytes.len() {
        assert(!is_end(card_at(bytes, start, i)));
        a_header_without_an_end_has_none(bytes, start, i + 1);
    }
}

/// A unit is read where its header ends and the size of its data makes sense and can be reached;
/// what stands in the way is said.
pub proof fn units_are_read_or_refused(bytes: Seq<u8>, start: nat, n: int, size: nat)
    requires
        cards_before_end(bytes, start as int, 0) == Some(n),
    ensures
        data_bytes(first_cards(bytes, start as int, n)) is None ==> hdu_at(bytes, start) == Err::<
            HduView,
            Seq<char>,
        >("invalid data size in FITS header"@),
        data_bytes(first_cards(bytes, start as int, n)) == Some(size) && start + 80 * (n + 1) + size
            + 5758 <= usize::MAX ==> hdu_at(bytes, start) is Ok,
        data_bytes(first_cards(bytes, start as int, n)) == Some(size) && start + 80 * (n + 1) + size
            > usize::MAX ==> hdu_at(bytes, start) == Err::<HduView, Seq<char>>(
            "invalid data size in FITS header"@,
        ),
{
    lemma_before_end(bytes, start as int, 0, n);
    blocks_hold_what_they_must((80 * (n + 1)) as nat);
    blocks_hold_what_they_must(size);
}

/// A quoted value is what the quotes hold, where two quotes stand for one, without the blanks at
/// its end.
pub proof fn quoted_values_may_hold_quotes(
    before: Seq<char>,
    rest: Seq<char>,
    text: Seq<char>,
    blank: Seq<char>,
)
    requires
        forall|i: int| 0 <= i < before.len() ==> is_space(#[trigger] before[i]),
        forall|i: int| 0 <= i < blank.len() ==> is_space(#[trigger] blank[i]),
        text.len() > 0 ==> !is_space(text.last()),
        unquoted(rest) == text + blank,
    ensures
        value_in(before + "'"@ + rest) == text,
{
    reveal_strlit("'");
    let field = "'"@ + rest;
    assert(before + "'"@ + rest =~= before + field);
    lemma_start_skips(before, field);
    assert(field.skip(1) =~= rest);
    lemma_end_skips(text, blank);
}

/// A value of blanks is empty, with a comment behind it or without one.
pub proof fn blank_values_are_empty(blank: Seq<char>, comment: Seq<char>)
    requires
        forall|i: int| 0 <= i < blank.len() ==> is_space(#[trigger] blank[i]),
    ensures
        value_in(blank).len() == 0,
        value_in(blank + "/"@ + comment).len() == 0,
{
    reveal_strlit("/");
    let none = Seq::<char>::empty();
    let field = "/"@ + comment;
    assert(blank + none =~= blank);
    assert(blank + "/"@ + comment =~= blank + field);
    trimming_gives_back_the_middle(none, none, none);
    assert(none + none + none =~= none);
    lemma_start_all(blank);
    lemma_start_skips(blank, field);
    lemma_first_is(none, '/', 0);
    lemma_first_is(field, '/', 0);
    assert(field.take(0) =~= none);
    assert(none.take(0) =~= none);
}

proof fn lemma_start_all(blank: Seq<char>)
    requires
        forall|i: int| 0 <= i < blank.len() ==> is_space(#[trigger] blank[i]),
    ensures
        trimmed_start(blank) == Seq::<char>::empty(),
    decreases blank.len(),
{
    if blank.len() > 0 {
        assert(is_space(blank[0]));
        let rest = blank.skip(1);
        assert forall|i: int| 0 <= i < rest.len() implies is_space(#[trigger] rest[i]) by {
            assert(rest[i] == blank[i + 1]);
        }
        lemma_start_all(rest);
    }
}

} // verus!
