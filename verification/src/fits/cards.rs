//! Written headers: cards from keys and values, and what a reader finds in them.

use vstd::prelude::*;
use vstd::string::*;
use crate::fits::header::{
    as_text, card_at, card_view, cards_before_end, first_cards, has_value, in_blocks, is_end,
    lookup, unquoted, value_in, CardView, BLOCK_SIZE, CARD_SIZE,
};
use crate::text::{
    all_digits, decimal, digits_value, first_of, is_digit, is_space, parsed_signed, trimmed,
    trimmed_end, trimmed_start,
};

verus! {

/// That many blanks.
pub open spec fn blanks(n: int) -> Seq<char> {
    Seq::new(
        if n < 0 {
            0
        } else {
            n as nat
        },
        |i: int| ' ',
    )
}

/// Byte `i` of a text that blanks follow.
pub open spec fn byte_or_blank(s: Seq<char>, i: int) -> u8 {
    if i < s.len() {
        s[i] as u8
    } else {
        0x20
    }
}

/// The card of a key and the text of its value field.
pub open spec fn card_bytes(key: Seq<char>, field: Seq<char>) -> Seq<u8> {
    Seq::new(
        80,
        |i: int|
            if i < 8 {
                byte_or_blank(key, i)
            } else if i == 8 {
                0x3d
            } else if i == 9 {
                0x20
            } else {
                byte_or_blank(field, i - 10)
            },
    )
}

/// A number or a flag in a value field, at the right of its first twenty columns.
pub open spec fn plain_field(text: Seq<char>) -> Seq<char> {
    blanks(20 - text.len()) + text
}

/// A text in a value field, between quotes.
pub open spec fn quoted_field(text: Seq<char>) -> Seq<char> {
    "'"@ + text + "'"@
}

/// Whether a text is made of ASCII characters.
pub open spec fn is_ascii_text(s: Seq<char>) -> bool {
    forall|i: int| 0 <= i < s.len() ==> (#[trigger] s[i] as u32) < 128
}

/// Whether no white space is in a text.
pub open spec fn has_no_space(s: Seq<char>) -> bool {
    forall|i: int| 0 <= i < s.len() ==> !is_space(#[trigger] s[i])
}

/// Whether a text can be the key of a card.
pub open spec fn is_key(key: Seq<char>) -> bool {
    &&& 0 < key.len() <= 8
    &&& is_ascii_text(key)
    &&& has_no_space(key)
    &&& key != "END"@
}

/// Whether a text can stand in a card without quotes.
pub open spec fn is_plain(text: Seq<char>) -> bool {
    &&& 0 < text.len() <= 20
    &&& is_ascii_text(text)
    &&& has_no_space(text)
    &&& text[0] != '\''
    &&& forall|i: int| 0 <= i < text.len() ==> #[trigger] text[i] != '/'
}

/// Whether a text can stand in a card between quotes as it is.
pub open spec fn is_quotable(text: Seq<char>) -> bool {
    &&& 0 < text.len() <= 60
    &&& is_ascii_text(text)
    &&& has_no_space(text)
    &&& forall|i: int| 0 <= i < text.len() ==> #[trigger] text[i] != '\''
}

/// Writes a card.
pub fn make_card(key: &str, field: &str) -> (card: Vec<u8>)
    ensures
        card@ == card_bytes(key@, field@),
{
    let mut card: Vec<u8> = Vec::new();
    let key_len: usize = key.unicode_len();
    let field_len: usize = field.unicode_len();
    let mut i: usize = 0;
    while i < CARD_SIZE
        invariant
            i <= 80,
            key_len == key@.len(),
            field_len == field@.len(),
            card@.len() == i,
            forall|j: int| 0 <= j < i ==> card@[j] == #[trigger] card_bytes(key@, field@)[j],
        decreases 80 - i,
    {
        let b: u8 = if i < 8 {
            if i < key_len {
                key.get_char(i) as u8
            } else {
                0x20
            }
        } else if i == 8 {
            0x3d
        } else if i == 9 {
            0x20
        } else if i - 10 < field_len {
            field.get_char(i - 10) as u8
        } else {
            0x20
        };
        card.push(b);
        i = i + 1;
    }
    assert(card@ =~= card_bytes(key@, field@));
    card
}

/// Writes a card of a number or a flag.
pub fn plain_card(key: &str, text: &str) -> (card: Vec<u8>)
    ensures
        card@ == card_bytes(key@, plain_field(text@)),
{
    let n: usize = text.unicode_len();
    let mut field = String::new();
    let mut i: usize = n;
    assert(field@ =~= blanks(0));
    while i < 20
        invariant
            n == text@.len(),
            n <= i,
            i <= 20 || i == n,
            field@ == blanks(i - n),
        decreases 20 - i,
    {
        field.push(' ');
        i = i + 1;
        assert(field@ =~= blanks(i - n));
    }
    assert(field@ =~= blanks(20 - n));
    field.append(text);
    make_card(key, field.as_str())
}

/// Writes a card of a text.
pub fn quoted_card(key: &str, text: &str) -> (card: Vec<u8>)
    ensures
        card@ == card_bytes(key@, quoted_field(text@)),
{
    let mut field = "'".to_owned();
    field.append(text);
    field.append("'");
    make_card(key, field.as_str())
}

pub(crate) proof fn lemma_trimmed_is_same(s: Seq<char>)
    requires
        has_no_space(s),
    ensures
        trimmed_start(s) == s,
        trimmed_end(s) == s,
        trimmed(s) == s,
{
}

proof fn lemma_blanks_before(n: nat, s: Seq<char>)
    requires
        s.len() > 0,
        !is_space(s[0]),
    ensures
        trimmed_start(blanks(n as int) + s) == s,
    decreases n,
{
    if n == 0 {
        assert(blanks(0) + s =~= s);
    } else {
        let all = blanks(n as int) + s;
        assert(all.skip(1) =~= blanks(n - 1) + s);
        lemma_blanks_before((n - 1) as nat, s);
    }
}

proof fn lemma_blanks_behind(s: Seq<char>, n: nat)
    requires
        s.len() > 0,
        !is_space(s.last()),
    ensures
        trimmed_end(s + blanks(n as int)) == s,
    decreases n,
{
    if n == 0 {
        assert(s + blanks(0) =~= s);
    } else {
        let all = s + blanks(n as int);
        assert(all.drop_last() =~= s + blanks(n - 1));
        lemma_blanks_behind(s, (n - 1) as nat);
    }
}

proof fn lemma_no_such_char(s: Seq<char>, c: char)
    requires
        forall|i: int| 0 <= i < s.len() ==> #[trigger] s[i] != c,
    ensures
        first_of(s, c) == s.len(),
    decreases s.len(),
{
    if s.len() > 0 {
        let rest = s.skip(1);
        assert forall|i: int| 0 <= i < rest.len() implies #[trigger] rest[i] != c by {
            assert(rest[i] == s[i + 1]);
        }
        lemma_no_such_char(rest, c);
    }
}

proof fn lemma_unquoted(text: Seq<char>, rest: Seq<char>)
    requires
        forall|i: int| 0 <= i < text.len() ==> #[trigger] text[i] != '\'',
        rest.len() > 0,
        rest[0] != '\'',
    ensures
        unquoted(text + seq!['\''] + rest) == text,
    decreases text.len(),
{
    let all = text + seq!['\''] + rest;
    if text.len() == 0 {
        assert(all[0] == '\'' && all[1] == rest[0]);
        assert(unquoted(all) =~= text);
    } else {
        let tail = text.skip(1);
        assert forall|i: int| 0 <= i < tail.len() implies #[trigger] tail[i] != '\'' by {
            assert(tail[i] == text[i + 1]);
        }
        lemma_unquoted(tail, rest);
        assert(all[0] == text[0]);
        assert(all.skip(1) =~= tail + seq!['\''] + rest);
        assert(seq![text[0]] + tail =~= text);
    }
}

proof fn lemma_ascii_byte(c: char)
    requires
        (c as u32) < 128,
    ensures
        (c as u8) as char == c,
{
    assert((c as u8) == (c as u32));
    assert(((c as u8) as char) as u32 == c as u32);
}

/// What a reader finds in a card: its key, and the value in its field.
proof fn lemma_card_reads_back(key: Seq<char>, field: Seq<char>)
    requires
        is_key(key),
        field.len() <= 70,
        is_ascii_text(field),
    ensures
        card_bytes(key, field).len() == 80,
        has_value(card_bytes(key, field)),
        !is_end(card_bytes(key, field)),
        card_view(card_bytes(key, field)).key == key,
        card_view(card_bytes(key, field)).value == value_in(field + blanks(70 - field.len())),
{
    let card = card_bytes(key, field);
    let name = as_text(card.subrange(0, 8));
    let padded = key + blanks(8 - key.len());
    assert forall|i: int| 0 <= i < 8 implies #[trigger] name[i] == padded[i] by {
        if i < key.len() {
            lemma_ascii_byte(key[i]);
            assert(card[i] == key[i] as u8);
        } else {
            assert(card[i] == 0x20);
            assert(0x20u8 as char == ' ');
        }
    }
    assert(name =~= padded);
    assert(trimmed_start(name) == name) by {
        assert(name[0] == key[0]);
    }
    lemma_blanks_behind(key, (8 - key.len()) as nat);
    let written = as_text(card.subrange(10, 80));
    let whole = field + blanks(70 - field.len());
    assert forall|i: int| 0 <= i < 70 implies #[trigger] written[i] == whole[i] by {
        if i < field.len() {
            lemma_ascii_byte(field[i]);
            assert(card[i + 10] == field[i] as u8);
        } else {
            assert(card[i + 10] == 0x20);
            assert(0x20u8 as char == ' ');
        }
    }
    assert(written =~= whole);
    if is_end(card) {
        reveal_strlit("END");
        assert(card[0] == 0x45 && card[1] == 0x4e && card[2] == 0x44);
        assert(key.len() >= 3) by {
            if key.len() == 1 {
                assert(card[1] == 0x20);
            } else if key.len() == 2 {
                assert(card[2] == 0x20);
            }
        }
        assert(key.len() == 3) by {
            if key.len() > 3 {
                assert(card[3] == 0x20);
                assert(card[3] == key[3] as u8);
                lemma_ascii_byte(key[3]);
                assert(is_space(key[3]));
            }
        }
        assert(card[0] == key[0] as u8 && card[1] == key[1] as u8 && card[2] == key[2] as u8);
        lemma_ascii_byte(key[0]);
        lemma_ascii_byte(key[1]);
        lemma_ascii_byte(key[2]);
        assert(key =~= "END"@);
    }
}

/// The card of a number or a flag reads back.
pub proof fn plain_card_reads_back(key: Seq<char>, text: Seq<char>)
    requires
        is_key(key),
        is_plain(text),
    ensures
        ({
            let card = card_bytes(key, plain_field(text));
            &&& card.len() == 80
            &&& has_value(card)
            &&& !is_end(card)
            &&& card_view(card) == (CardView { key, value: text })
        }),
{
    let field = plain_field(text);
    assert(field.len() == 20);
    assert(is_ascii_text(field)) by {
        assert forall|i: int| 0 <= i < field.len() implies (#[trigger] field[i] as u32) < 128 by {
            if i >= 20 - text.len() {
                assert(field[i] == text[i - (20 - text.len())]);
            }
        }
    }
    lemma_card_reads_back(key, field);
    let tail = text + blanks(50);
    assert(field + blanks(50) =~= blanks(20 - text.len()) + tail);
    assert(tail[0] == text[0]);
    lemma_blanks_before((20 - text.len()) as nat, tail);
    assert forall|i: int| 0 <= i < tail.len() implies #[trigger] tail[i] != '/' by {
        if i < text.len() {
            assert(tail[i] == text[i]);
        }
    }
    lemma_no_such_char(tail, '/');
    assert(tail.take(tail.len() as int) =~= tail);
    assert(trimmed_start(tail) == tail);
    lemma_blanks_behind(text, 50);
}

/// The card of a text reads back.
pub proof fn quoted_card_reads_back(key: Seq<char>, text: Seq<char>)
    requires
        is_key(key),
        is_quotable(text),
    ensures
        ({
            let card = card_bytes(key, quoted_field(text));
            &&& card.len() == 80
            &&& has_value(card)
            &&& !is_end(card)
            &&& card_view(card) == (CardView { key, value: text })
        }),
{
    reveal_strlit("'");
    let field = quoted_field(text);
    assert(field =~= seq!['\''] + text + seq!['\'']);
    assert(is_ascii_text(field)) by {
        assert forall|i: int| 0 <= i < field.len() implies (#[trigger] field[i] as u32) < 128 by {
            if 1 <= i <= text.len() {
                assert(field[i] == text[i - 1]);
            }
        }
    }
    lemma_card_reads_back(key, field);
    let room = blanks(70 - field.len());
    let all = field + room;
    assert(all[0] == '\'');
    assert(all.skip(1) =~= text + seq!['\''] + room);
    assert(room[0] == ' ');
    lemma_unquoted(text, room);
    lemma_trimmed_is_same(text);
}

/// The header of some cards: the cards, the card that ends the header, and blanks to the end of
/// the block.
pub open spec fn header_bytes(cards: Seq<Seq<u8>>) -> Seq<u8> {
    Seq::new(
        in_blocks((80 * (cards.len() + 1)) as nat),
        |i: int|
            if i < 80 * cards.len() {
                cards[i / 80][i % 80]
            } else if i == 80 * cards.len() {
                0x45
            } else if i == 80 * cards.len() + 1 {
                0x4e
            } else if i == 80 * cards.len() + 2 {
                0x44
            } else {
                0x20
            },
    )
}

/// Cards as sequences of bytes.
pub open spec fn card_seqs(cards: Seq<Vec<u8>>) -> Seq<Seq<u8>> {
    Seq::new(cards.len(), |i: int| cards[i]@)
}

/// Writes the header of some cards.
pub fn write_header(cards: &Vec<Vec<u8>>) -> (out: Vec<u8>)
    requires
        forall|i: int| 0 <= i < cards@.len() ==> (#[trigger] cards@[i])@.len() == 80,
    ensures
        out@ == header_bytes(card_seqs(cards@)),
{
    let ghost seqs = card_seqs(cards@);
    let ghost want = header_bytes(seqs);
    let mut out: Vec<u8> = Vec::new();
    let mut i: usize = 0;
    while i < cards.len()
        invariant
            i <= cards@.len(),
            seqs == card_seqs(cards@),
            want == header_bytes(seqs),
            forall|k: int| 0 <= k < cards@.len() ==> (#[trigger] cards@[k])@.len() == 80,
            out@.len() == 80 * i,
            forall|j: int| 0 <= j < out@.len() ==> #[trigger] out@[j] == want[j],
        decreases cards.len() - i,
    {
        let mut k: usize = 0;
        while k < CARD_SIZE
            invariant
                i < cards@.len(),
                k <= 80,
                seqs == card_seqs(cards@),
                want == header_bytes(seqs),
                cards@[i as int]@.len() == 80,
                out@.len() == 80 * i + k,
                forall|j: int| 0 <= j < out@.len() ==> #[trigger] out@[j] == want[j],
            decreases 80 - k,
        {
            let ghost at = 80 * i + k;
            assert(at / 80 == i && at % 80 == k);
            assert(want[at] == seqs[i as int][k as int]);
            out.push(cards[i][k]);
            k = k + 1;
        }
        i = i + 1;
    }
    out.push(0x45);
    out.push(0x4e);
    out.push(0x44);
    let ghost n = cards@.len();
    let mut used: usize = 3;
    while used < CARD_SIZE
        invariant
            3 <= used <= 80,
            n == seqs.len(),
            want == header_bytes(seqs),
            out@.len() == 80 * n + used,
            forall|j: int| 0 <= j < out@.len() ==> #[trigger] out@[j] == want[j],
        decreases 80 - used,
    {
        out.push(0x20);
        used = used + 1;
    }
    fill_block(&mut out, 0x20);
    assert(out@ =~= want);
    out
}

/// Fills the last block.
pub fn fill_block(out: &mut Vec<u8>, fill: u8)
    ensures
        final(out)@.len() == in_blocks(old(out)@.len()),
        forall|i: int|
            0 <= i < final(out)@.len() ==> #[trigger] final(out)@[i] == if i < old(out)@.len() {
                old(out)@[i]
            } else {
                fill
            },
{
    let ghost before = out@;
    while out.len() % BLOCK_SIZE != 0
        invariant
            before == old(out)@,
            before.len() <= out@.len() <= in_blocks(before.len()),
            forall|i: int|
                0 <= i < out@.len() ==> #[trigger] out@[i] == if i < before.len() {
                    before[i]
                } else {
                    fill
                },
        decreases in_blocks(before.len()) - out@.len(),
    {
        out.push(fill);
    }
}

/// What the cards with values say.
pub open spec fn values_of(cards: Seq<Seq<u8>>) -> Seq<CardView>
    decreases cards.len(),
{
    if cards.len() == 0 {
        Seq::empty()
    } else {
        let before = values_of(cards.drop_last());
        if has_value(cards.last()) {
            before.push(card_view(cards.last()))
        } else {
            before
        }
    }
}

/// Whether a header can be made of some cards.
pub open spec fn are_cards(cards: Seq<Seq<u8>>) -> bool {
    forall|i: int| 0 <= i < cards.len() ==> (#[trigger] cards[i]).len() == 80 && !is_end(cards[i])
}

proof fn lemma_card_written(bytes: Seq<u8>, start: int, cards: Seq<Seq<u8>>, n: int)
    requires
        0 <= n < cards.len(),
        are_cards(cards),
        0 <= start,
        start + header_bytes(cards).len() <= bytes.len(),
        bytes.subrange(start, start + header_bytes(cards).len()) == header_bytes(cards),
    ensures
        card_at(bytes, start, n) == cards[n],
{
    let h = header_bytes(cards);
    let card = card_at(bytes, start, n);
    assert(card.len() == 80);
    assert forall|k: int| 0 <= k < 80 implies card[k] == cards[n][k] by {
        let at = 80 * n + k;
        assert(at / 80 == n && at % 80 == k);
        assert(bytes.subrange(start, start + h.len())[at] == h[at]);
        assert(h[at] == cards[n][k]);
    }
    assert(card =~= cards[n]);
}

proof fn lemma_first_written(bytes: Seq<u8>, start: int, cards: Seq<Seq<u8>>, n: int)
    requires
        0 <= n <= cards.len(),
        are_cards(cards),
        0 <= start,
        start + header_bytes(cards).len() <= bytes.len(),
        bytes.subrange(start, start + header_bytes(cards).len()) == header_bytes(cards),
    ensures
        first_cards(bytes, start, n) == values_of(cards.take(n)),
    decreases n,
{
    if n > 0 {
        lemma_first_written(bytes, start, cards, n - 1);
        lemma_card_written(bytes, start, cards, n - 1);
        assert(cards.take(n).drop_last() =~= cards.take(n - 1));
    }
}

proof fn lemma_end_written(bytes: Seq<u8>, start: int, cards: Seq<Seq<u8>>, n: int)
    requires
        0 <= n <= cards.len(),
        are_cards(cards),
        0 <= start,
        start + header_bytes(cards).len() <= bytes.len(),
        bytes.subrange(start, start + header_bytes(cards).len()) == header_bytes(cards),
    ensures
        cards_before_end(bytes, start, n) == Some(cards.len() as int),
    decreases cards.len() - n,
{
    let h = header_bytes(cards);
    assert(start + 80 * n + 80 <= bytes.len());
    if n < cards.len() {
        lemma_card_written(bytes, start, cards, n);
        lemma_end_written(bytes, start, cards, n + 1);
    } else {
        let card = card_at(bytes, start, n);
        assert forall|k: int| 0 <= k < 8 implies #[trigger] card[k] == h[80 * n + k] by {
            assert(bytes.subrange(start, start + h.len())[80 * n + k] == h[80 * n + k]);
        }
        assert(is_end(card));
    }
}

/// A written header reads back: a reader finds its cards, those with values, in order.
pub proof fn header_reads_back(bytes: Seq<u8>, start: int, cards: Seq<Seq<u8>>)
    requires
        are_cards(cards),
        0 <= start,
        start + header_bytes(cards).len() <= bytes.len(),
        bytes.subrange(start, start + header_bytes(cards).len()) == header_bytes(cards),
    ensures
        cards_before_end(bytes, start, 0) == Some(cards.len() as int),
        first_cards(bytes, start, cards.len() as int) == values_of(cards),
{
    lemma_end_written(bytes, start, cards, 0);
    lemma_first_written(bytes, start, cards, cards.len() as int);
    assert(cards.take(cards.len() as int) =~= cards);
}

pub(crate) proof fn lemma_values_concat(a: Seq<Seq<u8>>, b: Seq<Seq<u8>>)
    ensures
        values_of(a + b) == values_of(a) + values_of(b),
    decreases b.len(),
{
    if b.len() == 0 {
        assert(a + b =~= a);
        assert(values_of(a) + values_of(b) =~= values_of(a));
    } else {
        assert((a + b).drop_last() =~= a + b.drop_last());
        lemma_values_concat(a, b.drop_last());
        assert(values_of(a + b) =~= values_of(a) + values_of(b));
    }
}

pub(crate) proof fn lemma_lookup_concat(a: Seq<CardView>, b: Seq<CardView>, key: Seq<char>)
    ensures
        lookup(a + b, key) == match lookup(a, key) {
            Some(v) => Some(v),
            None => lookup(b, key),
        },
    decreases a.len(),
{
    if a.len() == 0 {
        assert(a + b =~= b);
    } else {
        assert((a + b)[0] == a[0]);
        assert((a + b).skip(1) =~= a.skip(1) + b);
        lemma_lookup_concat(a.skip(1), b, key);
    }
}

pub(crate) proof fn lemma_lookup_at(cards: Seq<CardView>, key: Seq<char>, i: int)
    requires
        0 <= i < cards.len(),
        cards[i].key == key,
        forall|j: int| 0 <= j < i ==> (#[trigger] cards[j]).key != key,
    ensures
        lookup(cards, key) == Some(cards[i].value),
    decreases i,
{
    if i > 0 {
        let tail = cards.skip(1);
        assert(tail[i - 1] == cards[i]);
        assert forall|j: int| 0 <= j < i - 1 implies (#[trigger] tail[j]).key != key by {
            assert(tail[j] == cards[j + 1]);
        }
        assert(cards[0].key != key);
        lemma_lookup_at(tail, key, i - 1);
    }
}

pub(crate) proof fn lemma_lookup_none(cards: Seq<CardView>, key: Seq<char>)
    requires
        forall|j: int| 0 <= j < cards.len() ==> (#[trigger] cards[j]).key != key,
    ensures
        lookup(cards, key) is None,
    decreases cards.len(),
{
    if cards.len() > 0 {
        let tail = cards.skip(1);
        assert forall|j: int| 0 <= j < tail.len() implies (#[trigger] tail[j]).key != key by {
            assert(tail[j] == cards[j + 1]);
        }
        assert(cards[0].key != key);
        lemma_lookup_none(tail, key);
    }
}

pub(crate) proof fn lemma_lookup_push(cards: Seq<CardView>, c: CardView, key: Seq<char>)
    ensures
        lookup(cards.push(c), key) == match lookup(cards, key) {
            Some(v) => Some(v),
            None => if c.key == key {
                Some(c.value)
            } else {
                None
            },
        },
{
    assert(cards.push(c) =~= cards + seq![c]);
    lemma_lookup_concat(cards, seq![c], key);
    if c.key == key {
        lemma_lookup_at(seq![c], key, 0);
    } else {
        lemma_lookup_none(seq![c], key);
    }
}

pub(crate) proof fn lemma_decimal(n: nat)
    ensures
        decimal(n).len() > 0,
        all_digits(decimal(n)),
        digits_value(decimal(n)) == n,
        is_ascii_text(decimal(n)),
        has_no_space(decimal(n)),
        forall|i: int| 0 <= i < decimal(n).len() ==> #[trigger] decimal(n)[i] != '/',
    decreases n,
{
    let s = decimal(n);
    if n < 10 {
        assert(s.drop_last() =~= Seq::<char>::empty());
        assert(digits_value(s.drop_last()) == 0);
    } else {
        lemma_decimal(n / 10);
        assert(s.drop_last() =~= decimal(n / 10));
        assert forall|i: int| 0 <= i < s.len() implies is_digit(#[trigger] s[i]) by {
            if i < s.len() - 1 {
                assert(s[i] == decimal(n / 10)[i]);
            }
        }
    }
    assert forall|i: int| 0 <= i < s.len() implies {
        &&& (#[trigger] s[i] as u32) < 128
        &&& !is_space(s[i])
        &&& s[i] != '/'
    } by {
        assert(is_digit(s[i]));
    }
}

proof fn lemma_decimal_len(n: nat, k: nat, most: nat)
    requires
        k > 0,
        n <= most,
        most < ten_to(k),
    ensures
        decimal(n).len() <= k,
    decreases k,
{
    if n >= 10 {
        if k == 1 {
            assert(ten_to(0) == 1);
        } else {
            lemma_decimal_len(n / 10, (k - 1) as nat, most / 10);
        }
    }
}

spec fn ten_to(k: nat) -> nat
    decreases k,
{
    if k == 0 {
        1
    } else {
        10 * ten_to((k - 1) as nat)
    }
}

/// A number up to `2^64 - 1` can stand in a card, and one up to `2^63 - 1` reads back.
pub(crate) proof fn lemma_number_in_card(n: nat)
    requires
        n <= u64::MAX,
    ensures
        is_plain(decimal(n)),
        n <= i64::MAX ==> parsed_signed(trimmed(decimal(n))) == Some(n as int),
{
    lemma_decimal(n);
    reveal_with_fuel(ten_to, 21);
    lemma_decimal_len(n, 20, u64::MAX as nat);
    lemma_trimmed_is_same(decimal(n));
    assert(is_digit(decimal(n)[0]));
}

} // verus!
