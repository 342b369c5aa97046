//! What the operations on text promise, stated of their arguments and results alone.

use vstd::prelude::*;
use vstd::arithmetic::power::{lemma_pow0, lemma_pow1, lemma_pow_adds, pow};
use vstd::string::*;
use crate::text::{
    all_digits, decimal, digits_value, first_of, is_digit, is_space, last_of, lines_of, lowered,
    occurs_at, parsed_signed, parsed_unsigned, place_of, second_word, trimmed, trimmed_end,
    trimmed_start, up_to_space, without_trailing,
};

verus! {

/// The place of the first `c` holds `c`, and none before it does; where there is none it is the
/// length.
pub proof fn the_first_place_is_first(s: Seq<char>, c: char)
    ensures
        0 <= first_of(s, c) <= s.len(),
        first_of(s, c) < s.len() ==> s[first_of(s, c)] == c,
        forall|i: int| 0 <= i < first_of(s, c) ==> #[trigger] s[i] != c,
    decreases s.len(),
{
    if s.len() > 0 && s[0] != c {
        let tail = s.skip(1);
        the_first_place_is_first(tail, c);
        assert forall|i: int| 0 <= i < first_of(s, c) implies #[trigger] s[i] != c by {
            if i > 0 {
                assert(tail[i - 1] == s[i]);
            }
        }
    }
}

/// The place of the last `c` holds `c`, and none behind it does; where there is none it is minus
/// one.
pub proof fn the_last_place_is_last(s: Seq<char>, c: char)
    ensures
        -1 <= last_of(s, c) < s.len(),
        last_of(s, c) >= 0 ==> s[last_of(s, c)] == c,
        forall|i: int| last_of(s, c) < i < s.len() ==> #[trigger] s[i] != c,
    decreases s.len(),
{
    if s.len() > 0 && s.last() != c {
        let front = s.drop_last();
        the_last_place_is_last(front, c);
        assert forall|i: int| last_of(s, c) < i < s.len() implies #[trigger] s[i] != c by {
            if i < s.len() - 1 {
                assert(front[i] == s[i]);
            }
        }
    }
}

/// A character that nothing before it equals is the first of its kind.
pub(crate) proof fn lemma_first_is(s: Seq<char>, c: char, i: int)
    requires
        0 <= i <= s.len(),
        i < s.len() ==> s[i] == c,
        forall|j: int| 0 <= j < i ==> #[trigger] s[j] != c,
    ensures
        first_of(s, c) == i,
{
    the_first_place_is_first(s, c);
    let k = first_of(s, c);
    if k < i {
        assert(s[k] != c);
    }
}

pub(crate) proof fn lemma_last_is(s: Seq<char>, c: char, i: int)
    requires
        -1 <= i < s.len(),
        i >= 0 ==> s[i] == c,
        forall|j: int| i < j < s.len() ==> #[trigger] s[j] != c,
    ensures
        last_of(s, c) == i,
{
    the_last_place_is_last(s, c);
    let k = last_of(s, c);
    if k > i {
        assert(s[k] != c);
    }
}

proof fn lemma_start(s: Seq<char>)
    ensures
        trimmed_start(s).len() <= s.len(),
        trimmed_start(s) == s.skip(s.len() - trimmed_start(s).len()),
        trimmed_start(s).len() > 0 ==> !is_space(trimmed_start(s)[0]),
        forall|i: int|
            0 <= i < s.len() - trimmed_start(s).len() ==> is_space(#[trigger] s[i]),
    decreases s.len(),
{
    if s.len() > 0 && is_space(s[0]) {
        let tail = s.skip(1);
        let t = trimmed_start(s);
        lemma_start(tail);
        assert(tail.skip(tail.len() - t.len()) =~= s.skip(s.len() - t.len()));
        assert forall|i: int| 0 <= i < s.len() - t.len() implies is_space(#[trigger] s[i]) by {
            if i > 0 {
                assert(tail[i - 1] == s[i]);
            }
        }
    } else {
        assert(s.skip(0) =~= s);
    }
}

proof fn lemma_end(s: Seq<char>)
    ensures
        trimmed_end(s).len() <= s.len(),
        trimmed_end(s) == s.take(trimmed_end(s).len() as int),
        trimmed_end(s).len() > 0 ==> !is_space(trimmed_end(s).last()),
        forall|i: int| trimmed_end(s).len() <= i < s.len() ==> is_space(#[trigger] s[i]),
    decreases s.len(),
{
    if s.len() > 0 && is_space(s.last()) {
        let front = s.drop_last();
        let t = trimmed_end(s);
        lemma_end(front);
        assert(front.take(t.len() as int) =~= s.take(t.len() as int));
        assert forall|i: int| t.len() <= i < s.len() implies is_space(#[trigger] s[i]) by {
            if i < s.len() - 1 {
                assert(front[i] == s[i]);
            }
        }
    } else {
        assert(s.take(s.len() as int) =~= s);
    }
}

/// Trimming takes white space from both ends of a text, all of it, and nothing else: what is left
/// stands in the text with white space alone before and behind it, and neither begins nor ends
/// with white space.
pub proof fn trimming_takes_the_space_around(s: Seq<char>)
    ensures
        exists|a: int|
            {
                &&& 0 <= a
                &&& a + trimmed(s).len() <= s.len()
                &&& trimmed(s) == #[trigger] s.subrange(a, a + trimmed(s).len())
                &&& forall|i: int| 0 <= i < a ==> is_space(#[trigger] s[i])
                &&& forall|i: int|
                    a + trimmed(s).len() <= i < s.len() ==> is_space(#[trigger] s[i])
            },
        trimmed(s).len() > 0 ==> !is_space(trimmed(s)[0]) && !is_space(trimmed(s).last()),
{
    let start = trimmed_start(s);
    let t = trimmed(s);
    lemma_start(s);
    lemma_end(start);
    let a = s.len() - start.len();
    assert(t =~= s.subrange(a, a + t.len()));
    assert forall|i: int| a + t.len() <= i < s.len() implies is_space(#[trigger] s[i]) by {
        assert(start[i - a] == s[i]);
    }
    if t.len() > 0 {
        assert(t[0] == start[0]);
    }
}

/// A text that neither begins nor ends with white space is what is left of it between white space.
pub proof fn trimming_gives_back_the_middle(before: Seq<char>, s: Seq<char>, behind: Seq<char>)
    requires
        forall|i: int| 0 <= i < before.len() ==> is_space(#[trigger] before[i]),
        forall|i: int| 0 <= i < behind.len() ==> is_space(#[trigger] behind[i]),
        s.len() > 0 ==> !is_space(s[0]) && !is_space(s.last()),
    ensures
        trimmed(before + s + behind) == s,
{
    let all = before + s + behind;
    let start = trimmed_start(all);
    lemma_start(all);
    lemma_end(start);
    let a = all.len() - start.len();
    if s.len() == 0 {
        assert(start.len() == 0) by {
            if start.len() > 0 {
                if a < before.len() {
                    assert(is_space(before[a]));
                } else {
                    assert(is_space(behind[a - before.len()]));
                }
            }
        }
        assert(trimmed(all) =~= s);
    } else {
        assert(a == before.len()) by {
            if a < before.len() {
                assert(is_space(before[a]));
                assert(start[0] == all[a]);
            }
            if a > before.len() {
                assert(all[before.len() as int] == s[0]);
            }
        }
        let t = trimmed_end(start);
        let e = t.len();
        assert(e == s.len()) by {
            if e > s.len() {
                assert(is_space(behind[e - 1 - s.len()]));
                assert(t.last() == all[a + e - 1]);
            }
            if e < s.len() {
                assert(start[s.len() - 1] == s.last());
            }
        }
        assert(t =~= s);
    }
}

/// Blanks, tabs and line ends are white space; no visible ASCII character is.
pub proof fn visible_characters_are_no_space(c: char)
    ensures
        is_space(' ') && is_space('\t') && is_space('\n') && is_space('\r'),
        '!' <= c <= '~' ==> !is_space(c),
{
}

/// A text without white space at its ends stays as it is.
pub(crate) proof fn lemma_trimmed_whole(s: Seq<char>)
    requires
        s.len() > 0 ==> !is_space(s[0]) && !is_space(s.last()),
    ensures
        trimmed(s) == s,
{
    let none = Seq::<char>::empty();
    trimming_gives_back_the_middle(none, s, none);
    assert(none + s + none =~= s);
}

/// Small letters stand in place of the ASCII capitals, twenty-six of them in their order, and
/// every other character stays.
pub proof fn lowering_changes_capitals_alone(s: Seq<char>)
    ensures
        lowered(s).len() == s.len(),
        forall|i: int|
            0 <= i < s.len() ==> if 'A' <= s[i] <= 'Z' {
                (#[trigger] lowered(s)[i]) as int - 'a' as int == s[i] as int - 'A' as int
            } else {
                lowered(s)[i] == s[i]
            },
{
}

/// What a text ends with is taken from it as often as it stands there, and no more.
pub proof fn only_the_trailing_characters_go(s: Seq<char>, c: char)
    ensures
        without_trailing(s, c).len() <= s.len(),
        without_trailing(s, c) == s.take(without_trailing(s, c).len() as int),
        without_trailing(s, c).len() > 0 ==> without_trailing(s, c).last() != c,
        forall|i: int| without_trailing(s, c).len() <= i < s.len() ==> #[trigger] s[i] == c,
    decreases s.len(),
{
    if s.len() > 0 && s.last() == c {
        let front = s.drop_last();
        let t = without_trailing(s, c);
        only_the_trailing_characters_go(front, c);
        assert(front.take(t.len() as int) =~= s.take(t.len() as int));
        assert forall|i: int| t.len() <= i < s.len() implies #[trigger] s[i] == c by {
            if i < s.len() - 1 {
                assert(front[i] == s[i]);
            }
        }
    } else {
        assert(s.take(s.len() as int) =~= s);
    }
}

/// The place at which a part is found is the first at which it stands; none is found only where it
/// stands nowhere.
pub proof fn a_part_is_found_where_it_first_stands(s: Seq<char>, part: Seq<char>, from: int)
    requires
        from >= 0,
    ensures
        ({
            let k = place_of(s, part, from);
            if k >= 0 {
                &&& from <= k
                &&& k + part.len() <= s.len()
                &&& s.subrange(k, k + part.len()) == part
                &&& forall|i: int|
                    from <= i < k ==> #[trigger] s.subrange(i, i + part.len()) != part
            } else {
                forall|i: int|
                    from <= i && i + part.len() <= s.len() ==> #[trigger] s.subrange(
                        i,
                        i + part.len(),
                    ) != part
            }
        }),
    decreases s.len() + 1 - from,
{
    if from + part.len() <= s.len() && !occurs_at(s, part, from) {
        a_part_is_found_where_it_first_stands(s, part, from + 1);
    }
}

/// Digits count by their place: those of a front part are worth ten times as much for every digit
/// behind them, and one digit is worth itself.
pub proof fn digits_count_by_their_place(a: Seq<char>, b: Seq<char>)
    ensures
        digits_value(a + b) == digits_value(a) * pow(10, b.len()) + digits_value(b),
        a.len() == 0 ==> digits_value(a) == 0,
        a.len() == 1 && '0' <= a[0] <= '9' ==> digits_value(a) == a[0] as int - '0' as int,
    decreases b.len(),
{
    if a.len() == 1 {
        assert(digits_value(a.drop_last()) == 0);
    }
    if b.len() == 0 {
        assert(a + b =~= a);
        lemma_pow0(10);
    } else {
        let front = b.drop_last();
        assert((a + b).drop_last() =~= a + front);
        digits_count_by_their_place(a, front);
        lemma_pow_adds(10, front.len(), 1);
        lemma_pow1(10);
        let va = digits_value(a) as int;
        let p = pow(10, front.len());
        assert(va * (p * 10) == 10 * (va * p)) by (nonlinear_arith);
    }
}

/// A number is written in decimal digits, the first of which is zero only where the number is, and
/// the digits are worth the number.
pub proof fn decimals_spell_their_number(n: nat)
    ensures
        decimal(n).len() > 0,
        forall|i: int| 0 <= i < decimal(n).len() ==> '0' <= #[trigger] decimal(n)[i] <= '9',
        decimal(n)[0] == '0' ==> n == 0,
        n == 0 ==> decimal(n) == seq!['0'],
        digits_value(decimal(n)) == n,
    decreases n,
{
    if n < 10 {
        let s = decimal(n);
        assert(s.drop_last() =~= Seq::<char>::empty());
        assert(digits_value(s.drop_last()) == 0);
        assert(s.last() as nat == 48 + n);
        if n == 0 {
            assert(s =~= seq!['0']);
        }
    } else {
        decimals_spell_their_number(n / 10);
        let front = decimal(n / 10);
        let s = decimal(n);
        assert(s.drop_last() =~= front);
        assert(s[0] == front[0]);
        assert(s.last() as nat == 48 + n % 10);
        assert forall|i: int| 0 <= i < s.len() implies '0' <= #[trigger] s[i] <= '9' by {
            if i < front.len() {
                assert(s[i] == front[i]);
            }
        }
    }
}

/// The number that decimal digits spell is read up to the greatest that is allowed, with or
/// without a plus sign, however many zeros lead it; nothing else is a number.
pub proof fn numbers_are_read_as_written(digits: Seq<char>, max: nat)
    requires
        digits.len() > 0,
        forall|i: int| 0 <= i < digits.len() ==> '0' <= #[trigger] digits[i] <= '9',
    ensures
        parsed_unsigned(digits, max) == if digits_value(digits) <= max {
            Some(digits_value(digits))
        } else {
            None
        },
        parsed_unsigned("+"@ + digits, max) == parsed_unsigned(digits, max),
        parsed_unsigned("-"@ + digits, max) is None,
        digits_value(digits) <= i64::MAX ==> parsed_signed(digits) == Some(
            digits_value(digits) as int,
        ) && parsed_signed("+"@ + digits) == Some(digits_value(digits) as int),
        digits_value(digits) <= -(i64::MIN as int) ==> parsed_signed("-"@ + digits) == Some(
            -(digits_value(digits) as int),
        ),
        digits_value(digits) > i64::MAX ==> parsed_signed(digits) is None && parsed_signed(
            "+"@ + digits,
        ) is None,
        digits_value(digits) > -(i64::MIN as int) ==> parsed_signed("-"@ + digits) is None,
{
    reveal_strlit("+");
    reveal_strlit("-");
    assert(all_digits(digits));
    assert(digits[0] != '+' && digits[0] != '-');
    let plus = "+"@ + digits;
    let minus = "-"@ + digits;
    assert(plus[0] == '+' && plus.skip(1) =~= digits);
    assert(minus[0] == '-' && minus.skip(1) =~= digits);
    assert(!all_digits(minus)) by {
        assert(!is_digit(minus[0]));
    }
}

/// A text that is read as a number is made of digits, at least one, behind at most one sign.
pub proof fn only_digits_are_numbers(s: Seq<char>, max: nat)
    ensures
        parsed_unsigned(s, max) is Some ==> s.len() > 0 && '0' <= s.last() <= '9' && (forall|i: int|
            0 < i < s.len() ==> '0' <= #[trigger] s[i] <= '9') && ('0' <= s[0] <= '9' || s[0]
            == '+'),
        parsed_signed(s) is Some ==> s.len() > 0 && '0' <= s.last() <= '9' && (forall|i: int|
            0 < i < s.len() ==> '0' <= #[trigger] s[i] <= '9') && ('0' <= s[0] <= '9' || s[0] == '+'
            || s[0] == '-'),
{
    if s.len() > 0 {
        let body = s.skip(1);
        if all_digits(body) {
            assert forall|i: int| 0 < i < s.len() implies '0' <= #[trigger] s[i] <= '9' by {
                assert(is_digit(body[i - 1]));
            }
        }
        if all_digits(s) {
            assert(is_digit(s[0]) && is_digit(s.last()));
            assert forall|i: int| 0 < i < s.len() implies '0' <= #[trigger] s[i] <= '9' by {
                assert(is_digit(s[i]));
            }
        }
    }
}

/// A number written in decimals is read as itself where it is allowed, and not at all above.
pub proof fn written_numbers_are_read_back(n: nat, max: nat)
    ensures
        parsed_unsigned(decimal(n), max) == if n <= max {
            Some(n)
        } else {
            None
        },
        n <= i64::MAX ==> parsed_signed(decimal(n)) == Some(n as int),
        n <= i64::MAX ==> parsed_signed("-"@ + decimal(n)) == Some(-(n as int)),
{
    decimals_spell_their_number(n);
    numbers_are_read_as_written(decimal(n), max);
}

proof fn lemma_no_line_end(s: Seq<char>)
    requires
        forall|i: int| 0 <= i < s.len() ==> #[trigger] s[i] != '\n',
    ensures
        first_of(s, '\n') == s.len(),
{
    lemma_first_is(s, '\n', s.len() as int);
}

/// A line ends at its line feed, without the carriage return before it; the lines of what follows
/// come behind it. What is left behind the last line feed is a line as it stands, and nothing left
/// is none.
pub proof fn lines_end_at_line_feeds(line: Seq<char>, more: Seq<char>)
    requires
        forall|i: int| 0 <= i < line.len() ==> #[trigger] line[i] != '\n',
    ensures
        line.len() > 0 ==> lines_of(line) == seq![line],
        lines_of(Seq::empty()) == Seq::<Seq<char>>::empty(),
        line.len() > 0 && line.last() == '\r' ==> lines_of(line + "\n"@ + more) == seq![
            line.drop_last(),
        ] + lines_of(more),
        !(line.len() > 0 && line.last() == '\r') ==> lines_of(line + "\n"@ + more) == seq![line]
            + lines_of(more),
{
    reveal_strlit("\n");
    lemma_no_line_end(line);
    let all = line + "\n"@ + more;
    assert(all[line.len() as int] == '\n');
    assert forall|j: int| 0 <= j < line.len() implies #[trigger] all[j] != '\n' by {
        assert(all[j] == line[j]);
    }
    lemma_first_is(all, '\n', line.len() as int);
    assert(all.take(line.len() as int) =~= line);
    assert(all.skip(line.len() as int + 1) =~= more);
}

proof fn lemma_up_to_space(word: Seq<char>, behind: Seq<char>)
    requires
        forall|i: int| 0 <= i < word.len() ==> !is_space(#[trigger] word[i]),
        behind.len() > 0 ==> is_space(behind[0]),
    ensures
        up_to_space(word + behind) == word,
    decreases word.len(),
{
    let all = word + behind;
    if word.len() == 0 {
        assert(all =~= behind);
        assert(up_to_space(all) =~= word);
    } else {
        let tail = word.skip(1);
        assert forall|i: int| 0 <= i < tail.len() implies !is_space(#[trigger] tail[i]) by {
            assert(tail[i] == word[i + 1]);
        }
        lemma_up_to_space(tail, behind);
        assert(all.skip(1) =~= tail + behind);
        assert(!is_space(word[0]));
        assert(up_to_space(all) =~= word);
    }
}

proof fn lemma_start_between(space: Seq<char>, s: Seq<char>)
    requires
        forall|i: int| 0 <= i < space.len() ==> is_space(#[trigger] space[i]),
        s.len() > 0 ==> !is_space(s[0]),
    ensures
        trimmed_start(space + s) == s,
    decreases space.len(),
{
    let all = space + s;
    if space.len() == 0 {
        assert(all =~= s);
    } else {
        let tail = space.skip(1);
        assert forall|i: int| 0 <= i < tail.len() implies is_space(#[trigger] tail[i]) by {
            assert(tail[i] == space[i + 1]);
        }
        lemma_start_between(tail, s);
        assert(all.skip(1) =~= tail + s);
        assert(is_space(space[0]));
    }
}

/// The second word is the one behind the first and the white space that ends it, whatever stands
/// before the first and behind the second.
pub proof fn the_second_word_is_found(
    before: Seq<char>,
    first: Seq<char>,
    between: Seq<char>,
    second: Seq<char>,
    behind: Seq<char>,
)
    requires
        forall|i: int| 0 <= i < before.len() ==> is_space(#[trigger] before[i]),
        forall|i: int| 0 <= i < between.len() ==> is_space(#[trigger] between[i]),
        forall|i: int| 0 <= i < first.len() ==> !is_space(#[trigger] first[i]),
        forall|i: int| 0 <= i < second.len() ==> !is_space(#[trigger] second[i]),
        first.len() > 0 && between.len() > 0 && second.len() > 0,
        behind.len() > 0 ==> is_space(behind[0]),
    ensures
        second_word(before + first + between + second + behind) == second,
        second_word(before + first + between) == Seq::<char>::empty(),
        second_word(before + first) == Seq::<char>::empty(),
{
    let none = Seq::<char>::empty();
    let tail = second + behind;
    let rest = between + tail;
    let all = before + first + between + second + behind;
    assert(all =~= before + (first + rest));
    assert(!is_space(first[0]) && !is_space(second[0]) && is_space(between[0]));
    lemma_start_between(before, first + rest);
    lemma_up_to_space(first, rest);
    assert((first + rest).skip(first.len() as int) =~= rest);
    lemma_start_between(between, tail);
    lemma_up_to_space(second, behind);
    let short = before + first + between;
    assert(short =~= before + (first + between));
    lemma_start_between(before, first + between);
    lemma_up_to_space(first, between);
    assert((first + between).skip(first.len() as int) =~= between + none);
    lemma_start_between(between, none);
    lemma_up_to_space(none, none);
    assert(none + none =~= none);
    let one = before + first;
    lemma_start_between(before, first);
    assert(first =~= first + none);
    lemma_up_to_space(first, none);
    assert(first.skip(first.len() as int) =~= none);
    lemma_start_between(none, none);
}

/// White space is what Unicode calls so: tabs and line ends, the blank, the next line, the no-break
/// space, the Ogham space, the eleven spaces from the en quad to the hair space, the line and the
/// paragraph separator, the narrow no-break, the mathematical and the ideographic space.
pub proof fn white_space_is_unicodes(c: char)
    ensures
        is_space(c) <==> c == '\t' || c == '\n' || c == '\u{b}' || c == '\u{c}' || c == '\r' || c == ' '
            || c == '\u{85}' || c == '\u{a0}' || c == '\u{1680}' || ('\u{2000}' <= c <= '\u{200a}')
            || c == '\u{2028}' || c == '\u{2029}' || c == '\u{202f}' || c == '\u{205f}' || c
            == '\u{3000}',
{
}

/// The white space before a text goes, and nothing else, and so does that behind it.
pub proof fn one_end_is_trimmed_alone(space: Seq<char>, s: Seq<char>)
    requires
        forall|i: int| 0 <= i < space.len() ==> is_space(#[trigger] space[i]),
    ensures
        s.len() == 0 || !is_space(s[0]) ==> trimmed_start(space + s) == s,
        s.len() == 0 || !is_space(s.last()) ==> trimmed_end(s + space) == s,
    decreases space.len(),
{
    if s.len() == 0 || !is_space(s[0]) {
        lemma_start_between(space, s);
    }
    if s.len() == 0 || !is_space(s.last()) {
        if space.len() == 0 {
            assert(s + space =~= s);
        } else {
            let front = space.drop_last();
            assert forall|i: int| 0 <= i < front.len() implies is_space(#[trigger] front[i]) by {
                assert(front[i] == space[i]);
            }
            one_end_is_trimmed_alone(front, s);
            assert((s + space).drop_last() =~= s + front);
            assert((s + space).last() == space.last());
            assert(is_space(space[space.len() - 1]));
        }
    }
}

} // verus!
