//! What the queries of the API choose and show: patterns, cards, listings and file names.

use vstd::prelude::*;
use vstd::string::*;
use crate::fits::header::{lookup, lookup_number, number_or, SourceHdu};
use crate::server::order::{is_order, key_le, text_le};
use crate::server::v2::export::sanitized;
use crate::server::v2::fs::{
    is_entry, is_kept, is_listing, kept_of, list_key, list_keys, type_of, Entry, Found,
};
use crate::server::v2::glob::{fits, uppered};
use crate::server::v2::inspect::{
    chosen_cards, comma_parts, has_key, is_row, is_wanted, patterns_among, patterns_of, Card,
    HduRow,
};
use crate::text::{first_of, is_space, opt_text, trimmed};
use crate::text_laws::{lemma_first_is, the_first_place_is_first};

verus! {

/// A pattern is matched from its front: a star takes any number of characters, a question mark one
/// of any kind, and every other character itself.
pub proof fn patterns_are_matched_from_the_front(c: char, p: Seq<char>, t: Seq<char>)
    ensures
        fits(Seq::empty(), t) <==> t.len() == 0,
        fits(seq!['*'] + p, t) <==> exists|k: int| 0 <= k <= t.len() && fits(p, #[trigger] t.skip(k)),
        fits(seq!['?'] + p, t) <==> t.len() > 0 && fits(p, t.skip(1)),
        c != '*' && c != '?' ==> (fits(seq![c] + p, t) <==> t.len() > 0 && t[0] == c && fits(
            p,
            t.skip(1),
        )),
    decreases t.len(),
{
    let star = seq!['*'] + p;
    assert(star[0] == '*' && star.skip(1) =~= p);
    assert((seq!['?'] + p).skip(1) =~= p);
    assert((seq![c] + p).skip(1) =~= p);
    assert(t.skip(0) =~= t);
    if t.len() > 0 {
        let tail = t.skip(1);
        patterns_are_matched_from_the_front(c, p, tail);
        if fits(star, t) && !fits(p, t) {
            let k = choose|k: int| 0 <= k <= tail.len() && fits(p, #[trigger] tail.skip(k));
            assert(t.skip(k + 1) =~= tail.skip(k));
        }
        if exists|k: int| 0 <= k <= t.len() && fits(p, #[trigger] t.skip(k)) {
            let k = choose|k: int| 0 <= k <= t.len() && fits(p, #[trigger] t.skip(k));
            if k > 0 {
                assert(tail.skip(k - 1) =~= t.skip(k));
            }
        }
    } else {
        if exists|k: int| 0 <= k <= t.len() && fits(p, #[trigger] t.skip(k)) {
            let k = choose|k: int| 0 <= k <= t.len() && fits(p, #[trigger] t.skip(k));
            assert(k == 0);
        }
    }
}

/// Capitals stand in place of the small ASCII letters, in their order, and every other character
/// stays.
pub proof fn raising_changes_small_letters_alone(s: Seq<char>)
    ensures
        uppered(s).len() == s.len(),
        forall|i: int|
            0 <= i < s.len() ==> if 'a' <= s[i] <= 'z' {
                (#[trigger] uppered(s)[i]) as int - 'A' as int == s[i] as int - 'a' as int
            } else {
                uppered(s)[i] == s[i]
            },
{
}

proof fn lemma_parts_split(a: Seq<char>, b: Seq<char>)
    ensures
        comma_parts(a + ","@ + b) == comma_parts(a) + comma_parts(b),
    decreases a.len(),
{
    reveal_strlit(",");
    let all = a + ","@ + b;
    let i = first_of(a, ',');
    the_first_place_is_first(a, ',');
    assert forall|j: int| 0 <= j < i implies #[trigger] all[j] != ',' by {
        assert(all[j] == a[j]);
    }
    if i < a.len() {
        assert(all[i] == a[i]);
        lemma_first_is(all, ',', i);
        let tail = a.skip(i + 1);
        lemma_parts_split(tail, b);
        assert(all.take(i) =~= a.take(i));
        assert(all.skip(i + 1) =~= tail + ","@ + b);
        assert(seq![a.take(i)] + (comma_parts(tail) + comma_parts(b)) =~= (seq![a.take(i)]
            + comma_parts(tail)) + comma_parts(b));
    } else {
        assert(all[i] == ',');
        lemma_first_is(all, ',', i);
        assert(all.take(i) =~= a);
        assert(all.skip(i + 1) =~= b);
    }
}

proof fn lemma_patterns_concat(a: Seq<Seq<char>>, b: Seq<Seq<char>>)
    ensures
        patterns_among(a + b) == patterns_among(a) + patterns_among(b),
    decreases a.len(),
{
    if a.len() == 0 {
        assert(a + b =~= b);
        assert(patterns_among(a) + patterns_among(b) =~= patterns_among(b));
    } else {
        lemma_patterns_concat(a.skip(1), b);
        assert((a + b)[0] == a[0]);
        assert((a + b).skip(1) =~= a.skip(1) + b);
        assert(patterns_among(a + b) =~= patterns_among(a) + patterns_among(b));
    }
}

/// The patterns of a query stand between its commas, in their order, each without the white space
/// around it; what is empty or white space alone is none.
pub proof fn patterns_stand_between_commas(a: Seq<char>, b: Seq<char>)
    ensures
        patterns_of(a + ","@ + b) == patterns_of(a) + patterns_of(b),
        (forall|i: int| 0 <= i < a.len() ==> #[trigger] a[i] != ',') ==> patterns_of(a) == if trimmed(
            a,
        ).len() == 0 {
            Seq::<Seq<char>>::empty()
        } else {
            seq![trimmed(a)]
        },
{
    lemma_parts_split(a, b);
    lemma_patterns_concat(comma_parts(a), comma_parts(b));
    if forall|i: int| 0 <= i < a.len() ==> #[trigger] a[i] != ',' {
        lemma_first_is(a, ',', a.len() as int);
        assert(comma_parts(a) =~= seq![a]);
        assert(seq![a].skip(1) =~= Seq::<Seq<char>>::empty());
        reveal_with_fuel(patterns_among, 2);
        if trimmed(a).len() > 0 {
            assert(patterns_of(a) =~= seq![trimmed(a)]);
        }
    }
}

/// What is chosen of a header is some of its cards, as they are: each is asked for, and no card
/// before it has its key. Without a query all keys are asked for.
pub proof fn chosen_cards_are_cards_asked_for(cards: Seq<Card>, keys: Option<Seq<char>>, i: int)
    requires
        0 <= i < chosen_cards(cards, keys).len(),
    ensures
        exists|j: int|
            {
                &&& 0 <= j < cards.len()
                &&& #[trigger] cards[j] == chosen_cards(cards, keys)[i]
                &&& is_wanted(cards[j].key@, keys)
                &&& forall|k: int| 0 <= k < j ==> (#[trigger] cards[k]).key@ != cards[j].key@
            },
        keys is None ==> is_wanted(chosen_cards(cards, keys)[i].key@, keys),
    decreases cards.len(),
{
    let shorter = cards.drop_last();
    let before = chosen_cards(shorter, keys);
    let now = chosen_cards(cards, keys);
    if i < before.len() {
        chosen_cards_are_cards_asked_for(shorter, keys, i);
        let j = choose|j: int|
            {
                &&& 0 <= j < shorter.len()
                &&& #[trigger] shorter[j] == before[i]
                &&& is_wanted(shorter[j].key@, keys)
                &&& forall|k: int| 0 <= k < j ==> (#[trigger] shorter[k]).key@ != shorter[j].key@
            };
        assert(cards[j] == now[i]);
        assert forall|k: int| 0 <= k < j implies (#[trigger] cards[k]).key@ != cards[j].key@ by {
            assert(shorter[k] == cards[k]);
        }
    } else {
        let j = cards.len() - 1;
        assert(cards[j] == now[i]);
        crate::server::v2::inspect::chosen_cards_are_complete(shorter, keys);
        assert forall|k: int| 0 <= k < j implies (#[trigger] cards[k]).key@ != cards[j].key@ by {
            if cards[k].key@ == cards[j].key@ {
                assert(shorter[k] == cards[k]);
                assert(is_wanted(shorter[k].key@, keys));
                assert(has_key(before, cards[j].key@));
            }
        }
    }
}

/// More cards in a header leave what was chosen in its place.
pub proof fn chosen_cards_keep_their_order(
    cards: Seq<Card>,
    more: Seq<Card>,
    keys: Option<Seq<char>>,
)
    ensures
        chosen_cards(cards, keys).is_prefix_of(chosen_cards(cards + more, keys)),
    decreases more.len(),
{
    let a = chosen_cards(cards, keys);
    if more.len() == 0 {
        assert(cards + more =~= cards);
        assert(a =~= a.subrange(0, a.len() as int));
    } else {
        let front = more.drop_last();
        chosen_cards_keep_their_order(cards, front, keys);
        assert((cards + more).drop_last() =~= cards + front);
        let b = chosen_cards(cards + front, keys);
        let c = chosen_cards(cards + more, keys);
        assert(b =~= c.subrange(0, b.len() as int));
        assert(a == b.subrange(0, a.len() as int));
        assert(a =~= c.subrange(0, a.len() as int));
    }
}

/// A row of a file's structure tells its unit's number, name, version, axes and type; the first
/// unit is called `PRIMARY` where it has no name, the version is one where none is given, and a
/// unit has data where there are bytes behind its header.
pub proof fn rows_tell_of_their_units(row: HduRow, hdu: SourceHdu, index: nat)
    requires
        is_row(row, hdu, index),
    ensures
        row.index == index,
        lookup(hdu@.cards, "EXTNAME"@) matches Some(name) ==> opt_text(row.extname) == Some(
            trimmed(name),
        ),
        lookup(hdu@.cards, "EXTNAME"@) is None ==> opt_text(row.extname) == if index == 0 {
            Some("PRIMARY"@)
        } else {
            None
        },
        row.extver == match lookup_number(hdu@.cards, "EXTVER"@) {
            Some(n) => n,
            None => 1,
        },
        row.bitpix == match lookup_number(hdu@.cards, "BITPIX"@) {
            Some(n) => n,
            None => 0,
        },
        row.naxis == match lookup_number(hdu@.cards, "NAXIS"@) {
            Some(n) => n,
            None => 0,
        },
        ({
            let a = number_or(lookup_number(hdu@.cards, "NAXIS1"@), 0);
            let b = number_or(lookup_number(hdu@.cards, "NAXIS2"@), 0);
            let c = number_or(lookup_number(hdu@.cards, "NAXIS3"@), 0);
            &&& row.naxis == 0 ==> row.shape@.len() == 0
            &&& row.naxis == 1 ==> row.shape@ == seq![a as i64]
            &&& row.naxis == 2 ==> row.shape@ == seq![b as i64, a as i64]
            &&& row.naxis == 3 ==> row.shape@ == seq![c as i64, b as i64, a as i64]
        }),
        row.has_data <==> hdu.next_hdu_offset > hdu.data_start,
        row.bitpix == 8 ==> row.dtype@ == "uint8"@,
        row.bitpix == 32 ==> row.dtype@ == "int32"@,
        row.bitpix == 64 ==> row.dtype@ == "int64"@,
        row.bitpix == -64 ==> row.dtype@ == "float64"@,
        row.bitpix == 16 ==> row.dtype@ == "int16"@,
        row.bitpix == -32 ==> row.dtype@ == "float32"@,
{
}

/// What a name leads to is called by one word: a link before all, a directory, a file, or
/// something else.
pub proof fn kinds_have_their_words(link: bool, dir: bool, file: bool)
    ensures
        link ==> type_of(link, dir, file) == "symlink"@,
        !link && dir ==> type_of(link, dir, file) == "dir"@,
        !link && !dir && file ==> type_of(link, dir, file) == "file"@,
        !link && !dir && !file ==> type_of(link, dir, file) == "other"@,
{
}

/// A name is listed unless it begins with a dot and hidden ones are not asked for, or there is a
/// pattern that it does not match.
pub proof fn hidden_and_unmatched_names_are_left_out(
    f: Found,
    glob: Option<String>,
    include_hidden: bool,
)
    ensures
        is_kept(f, glob, include_hidden) <==> (include_hidden || f.name@.len() == 0 || f.name@[0]
            != '.') && (glob is None || fits(glob->0@, f.name@)),
{
    reveal_strlit(".");
    let name = f.name@;
    assert("."@.is_prefix_of(name) <==> name.len() > 0 && name[0] == '.') by {
        if name.len() > 0 && name[0] == '.' {
            assert("."@ =~= name.subrange(0, 1));
        }
        if "."@.is_prefix_of(name) {
            assert(name.subrange(0, 1)[0] == name[0]);
        }
    }
}

/// What is listed of a directory is all that is to be listed, each once.
pub proof fn all_that_is_kept_is_listed(
    found: Seq<Found>,
    glob: Option<String>,
    include_hidden: bool,
)
    ensures
        kept_of(found, glob, include_hidden) == found.filter(
            |f: Found| is_kept(f, glob, include_hidden),
        ),
    decreases found.len(),
{
    reveal(Seq::filter);
    if found.len() > 0 {
        all_that_is_kept_is_listed(found.drop_last(), glob, include_hidden);
    }
}

/// In a listing directories come before everything else, and each of the two groups is sorted by
/// name; an entry has a size if and only if it is a file of known size.
pub proof fn directories_come_first(entries: Seq<Entry>, kept: Seq<Found>, i: int, j: int)
    requires
        is_listing(entries, kept),
        0 <= i < j < entries.len(),
    ensures
        entries.len() == kept.len(),
        entries[j].kind@ == "dir"@ ==> entries[i].kind@ == "dir"@,
        (entries[i].kind@ == "dir"@) == (entries[j].kind@ == "dir"@) ==> text_le(
            entries[i].name@,
            entries[j].name@,
        ),
        entries[i].kind@ != "file"@ ==> entries[i].size is None,
{
    let places = choose|places: Seq<usize>|
        {
            &&& #[trigger] is_order(places, list_keys(kept))
            &&& entries.len() == places.len()
            &&& forall|i: int|
                0 <= i < entries.len() ==> is_entry(
                    #[trigger] entries[i],
                    kept[places[i] as int],
                )
        };
    let a = kept[places[i] as int];
    let b = kept[places[j] as int];
    assert(is_entry(entries[i], a));
    assert(is_entry(entries[j], b));
    assert(places[i] < list_keys(kept).len() && places[j] < list_keys(kept).len());
    assert(list_keys(kept)[places[i] as int] == list_key(a));
    assert(list_keys(kept)[places[j] as int] == list_key(b));
    assert(key_le(list_key(a), list_key(b)));
}

/// An entry shows the name as it was found, its size where it is a file, and when it was modified.
pub proof fn entries_show_what_was_found(e: Entry, f: Found)
    requires
        is_entry(e, f),
    ensures
        e.name == f.name,
        e.modified == f.modified,
        f.file_type == Some((false, false, true)) ==> e.size == f.len && e.kind@ == "file"@,
        f.file_type is Some && !(f.file_type->0).0 && (f.file_type->0).1 ==> e.size is None && e.kind@
            == "dir"@,
        f.file_type matches Some((link, dir, file)) && link ==> e.size is None && e.kind@
            == "symlink"@,
        f.file_type == Some((false, false, false)) ==> e.size is None && e.kind@ == "other"@,
        f.file_type is None ==> e.size is None && e.kind@ == "other"@,
{
    reveal_strlit("file");
    reveal_strlit("dir");
    reveal_strlit("other");
    reveal_strlit("symlink");
    assert("file"@.len() == 4 && "dir"@.len() == 3 && "other"@.len() == 5);
    assert("symlink"@.len() == 7);
}

/// In a file name every character that is no ASCII letter, digit, underscore or hyphen becomes an
/// underscore, and the others stay.
pub proof fn file_names_are_safe(s: Seq<char>)
    ensures
        sanitized(s).len() == s.len(),
        forall|i: int|
            0 <= i < s.len() ==> (#[trigger] sanitized(s)[i]) == if ('a' <= s[i] <= 'z') || ('A'
                <= s[i] <= 'Z') || ('0' <= s[i] <= '9') || s[i] == '-' {
                s[i]
            } else {
                '_'
            },
{
}

/// A key without wild cards asks for the cards of that key, whatever the case of its letters; with
/// no query every key is asked for.
pub proof fn a_key_is_asked_for_in_any_case(key: Seq<char>, query: Seq<char>)
    requires
        query.len() > 0,
        !is_space(query[0]) && !is_space(query.last()),
        forall|i: int|
            0 <= i < query.len() ==> #[trigger] query[i] != ',' && query[i] != '*' && query[i] != '?',
    ensures
        is_wanted(key, Some(query)) <==> uppered(query) == uppered(key),
        is_wanted(key, None),
{
    crate::text_laws::lemma_trimmed_whole(query);
    patterns_stand_between_commas(query, query);
    assert(patterns_of(query) == seq![query]);
    assert forall|i: int| 0 <= i < uppered(query).len() implies #[trigger] uppered(query)[i] != '*'
        && uppered(query)[i] != '?' by {
        assert(query[i] != '*' && query[i] != '?');
    }
    crate::server::v2::glob::a_plain_pattern_matches_itself(uppered(query), uppered(key));
    assert(patterns_of(query)[0] == query);
}

proof fn lemma_wanted(key: Seq<char>, query: Seq<char>, i: int)
    requires
        0 <= i < patterns_of(query).len(),
        fits(uppered(patterns_of(query)[i]), uppered(key)),
    ensures
        is_wanted(key, Some(query)),
{
    let keys = Some(query);
    assert(exists|j: int|
        0 <= j < patterns_of(keys->0).len() && fits(
            uppered(#[trigger] patterns_of(keys->0)[j]),
            uppered(key),
        )) by {
        assert(patterns_of(keys->0)[i] == patterns_of(query)[i]);
    }
    assert(is_wanted(key, keys));
}

/// A key is asked for by a pattern that it fits, whatever the case of either and whatever space
/// stands around the pattern; by several patterns where it fits one of them; and by none where
/// there is none.
pub proof fn keys_are_asked_for_by_patterns(key: Seq<char>, a: Seq<char>, b: Seq<char>)
    ensures
        (forall|i: int| 0 <= i < a.len() ==> #[trigger] a[i] != ',') && trimmed(a).len() > 0 ==> (
        is_wanted(key, Some(a)) <==> fits(uppered(trimmed(a)), uppered(key))),
        (forall|i: int| 0 <= i < a.len() ==> #[trigger] a[i] != ',') && trimmed(a).len() == 0
            ==> !is_wanted(key, Some(a)),
        is_wanted(key, Some(a + ","@ + b)) <==> is_wanted(key, Some(a)) || is_wanted(key, Some(b)),
{
    patterns_stand_between_commas(a, b);
    let pa = patterns_of(a);
    let pb = patterns_of(b);
    let all = patterns_of(a + ","@ + b);
    if is_wanted(key, Some(a + ","@ + b)) {
        let i = choose|i: int|
            0 <= i < all.len() && fits(uppered(#[trigger] all[i]), uppered(key));
        if i < pa.len() {
            assert(pa[i] == all[i]);
            lemma_wanted(key, a, i);
        } else {
            assert(pb[i - pa.len()] == all[i]);
            lemma_wanted(key, b, i - pa.len());
        }
    }
    if is_wanted(key, Some(a)) {
        let i = choose|i: int| 0 <= i < pa.len() && fits(uppered(#[trigger] pa[i]), uppered(key));
        assert(all[i] == pa[i]);
        lemma_wanted(key, a + ","@ + b, i);
    }
    if is_wanted(key, Some(b)) {
        let i = choose|i: int| 0 <= i < pb.len() && fits(uppered(#[trigger] pb[i]), uppered(key));
        let k = pa.len() + i;
        assert(all[k] == pb[i]);
        lemma_wanted(key, a + ","@ + b, k);
    }
    if (forall|i: int| 0 <= i < a.len() ==> #[trigger] a[i] != ',') && trimmed(a).len() > 0 {
        assert(pa[0] == trimmed(a));
        if fits(uppered(trimmed(a)), uppered(key)) {
            lemma_wanted(key, a, 0);
        }
    }
}

} // verus!
