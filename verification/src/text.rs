//! Text as sequences of characters.

use vstd::prelude::*;
use vstd::string::*;

verus! {

/// `String::push` appends one character at the end.
pub assume_specification[ String::push ](s: &mut String, c: char)
    ensures
        final(s)@ == old(s)@.push(c),
;

/// The text that `String::from_utf8_lossy` makes of some bytes.
pub uninterp spec fn lossy_of(bytes: Seq<u8>) -> Seq<char>;

/// `String::from_utf8_lossy`, into a text of its own: bytes that are UTF-8 give their text. What
/// stands in place of the bytes that are not is not said here.
#[verifier::external_body]
pub(crate) fn lossy(bytes: &[u8]) -> (s: String)
    ensures
        s@ == lossy_of(bytes@),
        vstd::utf8::valid_utf8(bytes@) ==> s@ == vstd::utf8::decode_utf8(bytes@),
{
    String::from_utf8_lossy(bytes).into_owned()
}

/// The Unicode `White_Space` characters.
pub open spec fn is_space(c: char) -> bool {
    let n = c as u32;
    ||| 0x09 <= n <= 0x0d
    ||| n == 0x20
    ||| n == 0x85
    ||| n == 0xa0
    ||| n == 0x1680
    ||| 0x2000 <= n <= 0x200a
    ||| n == 0x2028
    ||| n == 0x2029
    ||| n == 0x202f
    ||| n == 0x205f
    ||| n == 0x3000
}

/// A text without the white space at its start.
pub open spec fn trimmed_start(s: Seq<char>) -> Seq<char>
    decreases s.len(),
{
    if s.len() > 0 && is_space(s[0]) {
        trimmed_start(s.skip(1))
    } else {
        s
    }
}

/// A text without the white space at its end.
pub open spec fn trimmed_end(s: Seq<char>) -> Seq<char>
    decreases s.len(),
{
    if s.len() > 0 && is_space(s.last()) {
        trimmed_end(s.drop_last())
    } else {
        s
    }
}

/// A text without the white space around it.
pub open spec fn trimmed(s: Seq<char>) -> Seq<char> {
    trimmed_end(trimmed_start(s))
}

/// An ASCII capital as a small letter; any other character as it is.
pub open spec fn lower_char(c: char) -> char {
    if 'A' <= c <= 'Z' {
        (c as u32 + 32) as char
    } else {
        c
    }
}

/// A text with its ASCII capitals as small letters.
pub open spec fn lowered(s: Seq<char>) -> Seq<char> {
    Seq::new(s.len(), |i: int| lower_char(s[i]))
}

/// The place of the first `c`, or the length where there is none.
pub open spec fn first_of(s: Seq<char>, c: char) -> int
    decreases s.len(),
{
    if s.len() == 0 || s[0] == c {
        0
    } else {
        1 + first_of(s.skip(1), c)
    }
}

/// The place of the last `c`, or minus one where there is none.
pub open spec fn last_of(s: Seq<char>, c: char) -> int
    decreases s.len(),
{
    if s.len() == 0 {
        -1
    } else if s.last() == c {
        s.len() - 1
    } else {
        last_of(s.drop_last(), c)
    }
}

/// A text without the `c` that it ends with.
pub open spec fn without_trailing(s: Seq<char>, c: char) -> Seq<char>
    decreases s.len(),
{
    if s.len() > 0 && s.last() == c {
        without_trailing(s.drop_last(), c)
    } else {
        s
    }
}

/// The characters of each text.
pub open spec fn texts(v: Seq<String>) -> Seq<Seq<char>> {
    Seq::new(v.len(), |i: int| v[i]@)
}

/// The characters of a text that may be missing.
pub open spec fn opt_text(s: Option<String>) -> Option<Seq<char>> {
    match s {
        Some(t) => Some(t@),
        None => None,
    }
}

/// Whether `part` occurs somewhere in `s`.
pub open spec fn occurs(s: Seq<char>, part: Seq<char>) -> bool {
    exists|i: int| #[trigger] occurs_at(s, part, i)
}

/// Whether `part` stands at place `i` of `s`.
pub open spec fn occurs_at(s: Seq<char>, part: Seq<char>, i: int) -> bool {
    &&& 0 <= i
    &&& i + part.len() <= s.len()
    &&& s.subrange(i, i + part.len()) == part
}

/// The first place from `from` on at which `part` stands in `s`, or minus one.
pub open spec fn place_of(s: Seq<char>, part: Seq<char>, from: int) -> int
    decreases s.len() + 1 - from,
{
    if from + part.len() > s.len() {
        -1
    } else if occurs_at(s, part, from) {
        from
    } else {
        place_of(s, part, from + 1)
    }
}

/// The characters before the first white space.
pub open spec fn up_to_space(s: Seq<char>) -> Seq<char>
    decreases s.len(),
{
    if s.len() == 0 || is_space(s[0]) {
        Seq::empty()
    } else {
        seq![s[0]] + up_to_space(s.skip(1))
    }
}

/// The second of the words between white space; empty where there is none.
pub open spec fn second_word(s: Seq<char>) -> Seq<char> {
    let start = trimmed_start(s);
    up_to_space(trimmed_start(start.skip(up_to_space(start).len() as int)))
}

/// An ASCII digit.
pub open spec fn is_digit(c: char) -> bool {
    '0' <= c <= '9'
}

/// Whether a text is made of decimal digits.
pub open spec fn all_digits(s: Seq<char>) -> bool {
    forall|i: int| 0 <= i < s.len() ==> is_digit(#[trigger] s[i])
}

/// The number that decimal digits spell.
pub open spec fn digits_value(s: Seq<char>) -> nat
    decreases s.len(),
{
    if s.len() == 0 {
        0
    } else {
        10 * digits_value(s.drop_last()) + (s.last() as nat - '0' as nat) as nat
    }
}

/// The unsigned number that a text spells: digits, behind at most one plus sign, up to `max`.
pub open spec fn parsed_unsigned(s: Seq<char>, max: nat) -> Option<nat> {
    let body = if s.len() > 0 && s[0] == '+' {
        s.skip(1)
    } else {
        s
    };
    if body.len() > 0 && all_digits(body) && digits_value(body) <= max {
        Some(digits_value(body))
    } else {
        None
    }
}

/// The signed number that a text spells: digits, behind at most one sign, from `-2^63` to
/// `2^63 - 1`.
pub open spec fn parsed_signed(s: Seq<char>) -> Option<int> {
    if s.len() > 0 && s[0] == '-' {
        let body = s.skip(1);
        if body.len() > 0 && all_digits(body) && digits_value(body) <= 9223372036854775808 {
            Some(-(digits_value(body) as int))
        } else {
            None
        }
    } else {
        match parsed_unsigned(s, 9223372036854775807) {
            Some(n) => Some(n as int),
            None => None,
        }
    }
}

/// A number in decimal digits.
pub open spec fn decimal(n: nat) -> Seq<char>
    decreases n,
{
    if n < 10 {
        seq![(48 + n) as char]
    } else {
        decimal(n / 10).push((48 + n % 10) as char)
    }
}

/// The characters of a text.
pub fn chars_of(s: &str) -> (v: Vec<char>)
    ensures
        v@ == s@,
{
    let mut v: Vec<char> = Vec::new();
    for c in it: s.chars()
        invariant
            v@ == it.seq().take(it.index()),
            it.seq() == s@,
    {
        v.push(c);
    }
    assert(s@.take(s@.len() as int) =~= s@);
    v
}

/// Whether two texts are the same.
pub fn same(a: &str, b: &str) -> (r: bool)
    ensures
        r == (a@ == b@),
{
    let x = chars_of(a);
    let y = chars_of(b);
    if x.len() != y.len() {
        return false;
    }
    let mut i: usize = 0;
    while i < x.len()
        invariant
            x@ == a@,
            y@ == b@,
            x@.len() == y@.len(),
            i <= x@.len(),
            forall|j: int| 0 <= j < i ==> x@[j] == y@[j],
        decreases x.len() - i,
    {
        if x[i] != y[i] {
            return false;
        }
        i = i + 1;
    }
    assert(a@ =~= b@);
    true
}

/// Whether `part` stands at place `i` of `s`.
fn stands_at(s: &Vec<char>, part: &Vec<char>, i: usize) -> (r: bool)
    requires
        i + part@.len() <= s@.len(),
    ensures
        r == occurs_at(s@, part@, i as int),
{
    let mut k: usize = 0;
    while k < part.len()
        invariant
            k <= part@.len(),
            i + part@.len() <= s.len(),
            forall|j: int| 0 <= j < k ==> s@[i + j] == part@[j],
        decreases part.len() - k,
    {
        if s[i + k] != part[k] {
            assert(s@.subrange(i as int, i + part@.len())[k as int] != part@[k as int]);
            return false;
        }
        k = k + 1;
    }
    assert(s@.subrange(i as int, i + part@.len()) =~= part@);
    true
}

/// Whether `s` starts with `start`.
pub fn starts_with(s: &str, start: &str) -> (r: bool)
    ensures
        r == start@.is_prefix_of(s@),
{
    let x = chars_of(s);
    let y = chars_of(start);
    if y.len() > x.len() {
        return false;
    }
    let r = stands_at(&x, &y, 0);
    r
}

/// What follows `start` at the start of `s`.
pub fn strip_prefix<'a>(s: &'a str, start: &str) -> (r: Option<&'a str>)
    ensures
        match r {
            Some(t) => start@.is_prefix_of(s@) && t@ == s@.skip(start@.len() as int),
            None => !start@.is_prefix_of(s@),
        },
{
    if starts_with(s, start) {
        let from: usize = start.unicode_len();
        let to: usize = s.unicode_len();
        Some(s.substring_char(from, to))
    } else {
        None
    }
}

/// Whether `part` occurs in `s`.
pub fn contains(s: &str, part: &str) -> (r: bool)
    ensures
        r == occurs(s@, part@),
{
    let x = chars_of(s);
    let y = chars_of(part);
    if y.len() > x.len() {
        return false;
    }
    let last: usize = x.len() - y.len();
    let mut i: usize = 0;
    loop
        invariant
            x@ == s@,
            y@ == part@,
            i <= last,
            last + y@.len() == x@.len(),
            forall|j: int| 0 <= j < i ==> !occurs_at(s@, part@, j),
        decreases last - i,
    {
        if stands_at(&x, &y, i) {
            return true;
        }
        if i == last {
            return false;
        }
        i = i + 1;
    }
}

/// Whether a character is white space.
pub fn space(c: char) -> (r: bool)
    ensures
        r == is_space(c),
{
    let n: u32 = c as u32;
    (0x09 <= n && n <= 0x0d) || n == 0x20 || n == 0x85 || n == 0xa0 || n == 0x1680 || (0x2000 <= n
        && n <= 0x200a) || n == 0x2028 || n == 0x2029 || n == 0x202f || n == 0x205f || n == 0x3000
}

/// The text without the white space around it.
pub fn trim<'a>(s: &'a str) -> (r: &'a str)
    ensures
        r@ == trimmed(s@),
{
    let v = chars_of(s);
    let mut a: usize = 0;
    let mut b: usize = v.len();
    assert(s@.skip(0) =~= s@);
    while a < b && space(v[a])
        invariant
            a <= b,
            b == v@.len(),
            v@ == s@,
            trimmed_start(s@) == trimmed_start(s@.skip(a as int)),
        decreases b - a,
    {
        assert(s@.skip(a as int).skip(1) =~= s@.skip(a + 1));
        a = a + 1;
    }
    let ghost start = s@.skip(a as int);
    assert(start == trimmed_start(s@));
    assert(s@.subrange(a as int, b as int) =~= start);
    while a < b && space(v[b - 1])
        invariant
            a <= b,
            b <= v@.len(),
            v@ == s@,
            trimmed_end(start) == trimmed_end(s@.subrange(a as int, b as int)),
        decreases b - a,
    {
        assert(s@.subrange(a as int, b as int).drop_last() =~= s@.subrange(a as int, b - 1));
        b = b - 1;
    }
    s.substring_char(a, b)
}

/// An ASCII capital as a small letter.
pub fn lower(c: char) -> (r: char)
    ensures
        r == lower_char(c),
{
    if 'A' <= c && c <= 'Z' {
        ((c as u8) + 32) as char
    } else {
        c
    }
}

/// The text with its ASCII capitals as small letters.
pub fn to_lower(s: &str) -> (r: String)
    ensures
        r@ == lowered(s@),
{
    let v = chars_of(s);
    let mut r = String::new();
    let mut i: usize = 0;
    while i < v.len()
        invariant
            i <= v@.len(),
            v@ == s@,
            r@ == lowered(s@).take(i as int),
        decreases v.len() - i,
    {
        r.push(lower(v[i]));
        i = i + 1;
        assert(r@ =~= lowered(s@).take(i as int));
    }
    assert(lowered(s@).take(i as int) =~= lowered(s@));
    r
}

/// The place of the first `c`, or the length.
pub fn find(s: &str, c: char) -> (i: usize)
    ensures
        i == first_of(s@, c),
        i <= s@.len(),
        i < s@.len() ==> s@[i as int] == c,
{
    let v = chars_of(s);
    let mut i: usize = 0;
    assert(s@.skip(0) =~= s@);
    while i < v.len() && v[i] != c
        invariant
            i <= v@.len(),
            v@ == s@,
            first_of(s@, c) == i + first_of(s@.skip(i as int), c),
        decreases v.len() - i,
    {
        assert(s@.skip(i as int).skip(1) =~= s@.skip(i + 1));
        i = i + 1;
    }
    i
}

/// The two parts of a text around its first `c`.
pub fn split_once<'a>(s: &'a str, c: char) -> (r: Option<(&'a str, &'a str)>)
    ensures
        match r {
            Some(parts) => {
                let i = first_of(s@, c);
                &&& 0 <= i < s@.len()
                &&& parts.0@ == s@.take(i)
                &&& parts.1@ == s@.skip(i + 1)
            },
            None => first_of(s@, c) == s@.len(),
        },
{
    let i: usize = find(s, c);
    let n: usize = s.unicode_len();
    if i < n {
        Some((s.substring_char(0, i), s.substring_char(i + 1, n)))
    } else {
        None
    }
}

proof fn lemma_value_grows(s: Seq<char>, i: int)
    requires
        0 <= i <= s.len(),
    ensures
        digits_value(s.take(i)) <= digits_value(s),
    decreases s.len() - i,
{
    if i == s.len() {
        assert(s.take(i) =~= s);
    } else {
        lemma_value_grows(s, i + 1);
        assert(s.take(i + 1).drop_last() =~= s.take(i));
    }
}

/// Reads an unsigned number of at most `max`.
pub fn parse_unsigned(s: &str, max: u64) -> (r: Option<u64>)
    ensures
        match r {
            Some(n) => parsed_unsigned(s@, max as nat) == Some(n as nat),
            None => parsed_unsigned(s@, max as nat) is None,
        },
{
    let v = chars_of(s);
    let from: usize = if v.len() > 0 && v[0] == '+' {
        1
    } else {
        0
    };
    if from >= v.len() {
        return None;
    }
    let ghost body = s@.skip(from as int);
    assert(from == 0 ==> body =~= s@);
    let mut value: u128 = 0;
    let mut i: usize = from;
    assert(body.take(0) =~= Seq::<char>::empty());
    while i < v.len()
        invariant
            from <= i <= v@.len(),
            v@ == s@,
            body == s@.skip(from as int),
            body.len() > 0,
            from == 0 ==> body == s@,
            from == 1 ==> s@[0] == '+',
            from <= 1,
            from == 0 ==> s@[0] != '+',
            value == digits_value(body.take(i - from)),
            value <= max,
            forall|j: int| 0 <= j < i - from ==> is_digit(#[trigger] body[j]),
        decreases v.len() - i,
    {
        let c: char = v[i];
        assert(body[i - from] == c);
        if c < '0' || c > '9' {
            assert(!is_digit(body[i - from]));
            return None;
        }
        proof {
            assert(body.take(i - from + 1).drop_last() =~= body.take(i - from));
            lemma_value_grows(body, i - from + 1);
        }
        value = 10 * value + (c as u32 - '0' as u32) as u128;
        if value > max as u128 {
            return None;
        }
        i = i + 1;
    }
    assert(body.take(i - from) =~= body);
    Some(value as u64)
}

/// A number in decimal digits.
pub fn format_unsigned(n: u64) -> (s: String)
    ensures
        s@ == decimal(n as nat),
    decreases n,
{
    if n < 10 {
        let mut s = String::new();
        s.push((48u8 + n as u8) as char);
        assert(s@ =~= decimal(n as nat));
        s
    } else {
        let mut s = format_unsigned(n / 10);
        s.push((48u8 + (n % 10) as u8) as char);
        s
    }
}

/// The text without the white space at its start.
pub fn trim_start<'a>(s: &'a str) -> (r: &'a str)
    ensures
        r@ == trimmed_start(s@),
{
    let v = chars_of(s);
    let mut a: usize = 0;
    assert(s@.skip(0) =~= s@);
    while a < v.len() && space(v[a])
        invariant
            a <= v@.len(),
            v@ == s@,
            trimmed_start(s@) == trimmed_start(s@.skip(a as int)),
        decreases v.len() - a,
    {
        assert(s@.skip(a as int).skip(1) =~= s@.skip(a + 1));
        a = a + 1;
    }
    assert(s@.subrange(a as int, v@.len() as int) =~= s@.skip(a as int));
    s.substring_char(a, v.len())
}

/// The text without the `c` that it ends with.
pub fn trim_end_matches<'a>(s: &'a str, c: char) -> (r: &'a str)
    ensures
        r@ == without_trailing(s@, c),
{
    let v = chars_of(s);
    let mut b: usize = v.len();
    assert(s@.take(b as int) =~= s@);
    while b > 0 && v[b - 1] == c
        invariant
            b <= v@.len(),
            v@ == s@,
            without_trailing(s@, c) == without_trailing(s@.take(b as int), c),
        decreases b,
    {
        assert(s@.take(b as int).drop_last() =~= s@.take(b - 1));
        b = b - 1;
    }
    s.substring_char(0, b)
}

/// The two parts of a text around its last `c`.
pub fn rsplit_once<'a>(s: &'a str, c: char) -> (r: Option<(&'a str, &'a str)>)
    ensures
        match r {
            Some(parts) => {
                let i = last_of(s@, c);
                &&& 0 <= i < s@.len()
                &&& parts.0@ == s@.take(i)
                &&& parts.1@ == s@.skip(i + 1)
            },
            None => last_of(s@, c) == -1,
        },
{
    let v = chars_of(s);
    let mut b: usize = v.len();
    assert(s@.take(b as int) =~= s@);
    while b > 0
        invariant
            b <= v@.len(),
            v@ == s@,
            last_of(s@, c) == last_of(s@.take(b as int), c),
        decreases b,
    {
        if v[b - 1] == c {
            return Some((s.substring_char(0, b - 1), s.substring_char(b, v.len())));
        }
        assert(s@.take(b as int).drop_last() =~= s@.take(b - 1));
        b = b - 1;
    }
    None
}

/// Whether a text holds only ASCII digits.
pub fn only_digits(s: &str) -> (r: bool)
    ensures
        r == all_digits(s@),
{
    let v = chars_of(s);
    let mut i: usize = 0;
    while i < v.len()
        invariant
            i <= v@.len(),
            v@ == s@,
            forall|j: int| 0 <= j < i ==> is_digit(#[trigger] s@[j]),
        decreases v.len() - i,
    {
        if v[i] < '0' || v[i] > '9' {
            assert(!is_digit(s@[i as int]));
            return false;
        }
        i = i + 1;
    }
    true
}

/// The same text once more, where there is one.
pub fn copy_opt(s: &Option<String>) -> (r: Option<String>)
    ensures
        r == *s,
{
    match s {
        Some(t) => Some(t.clone()),
        None => None,
    }
}

/// The two parts of a text around the first `part` in it.
pub fn split_once_text<'a>(s: &'a str, part: &str) -> (r: Option<(&'a str, &'a str)>)
    ensures
        match r {
            Some(parts) => {
                let i = place_of(s@, part@, 0);
                &&& 0 <= i <= s@.len() - part@.len()
                &&& parts.0@ == s@.take(i)
                &&& parts.1@ == s@.skip(i + part@.len())
            },
            None => place_of(s@, part@, 0) == -1,
        },
{
    let x = chars_of(s);
    let y = chars_of(part);
    if y.len() > x.len() {
        return None;
    }
    let last: usize = x.len() - y.len();
    let mut i: usize = 0;
    loop
        invariant
            x@ == s@,
            y@ == part@,
            i <= last,
            last + y@.len() == x.len(),
            place_of(s@, part@, 0) == place_of(s@, part@, i as int),
        decreases last - i,
    {
        if stands_at(&x, &y, i) {
            return Some((s.substring_char(0, i), s.substring_char(i + y.len(), x.len())));
        }
        assert(place_of(s@, part@, i as int) == place_of(s@, part@, i + 1));
        if i == last {
            return None;
        }
        i = i + 1;
    }
}

/// What stands before the first white space, and the rest.
fn cut_at_space<'a>(s: &'a str) -> (r: (&'a str, &'a str))
    ensures
        r.0@ == up_to_space(s@),
        r.1@ == s@.skip(up_to_space(s@).len() as int),
{
    let v = chars_of(s);
    let mut i: usize = 0;
    assert(s@.skip(0) =~= s@);
    assert(s@.take(0) + up_to_space(s@) =~= up_to_space(s@));
    while i < v.len() && !space(v[i])
        invariant
            i <= v@.len(),
            v@ == s@,
            up_to_space(s@) == s@.take(i as int) + up_to_space(s@.skip(i as int)),
        decreases v.len() - i,
    {
        let ghost left = s@.skip(i as int);
        assert(left.skip(1) =~= s@.skip(i + 1));
        assert(s@.take(i as int) + up_to_space(left) =~= s@.take(i + 1) + up_to_space(
            left.skip(1),
        ));
        i = i + 1;
    }
    assert(up_to_space(s@) =~= s@.take(i as int));
    assert(s@.subrange(i as int, v@.len() as int) =~= s@.skip(i as int));
    (s.substring_char(0, i), s.substring_char(i, v.len()))
}

/// The second of the words between white space.
pub fn word_two<'a>(s: &'a str) -> (r: &'a str)
    ensures
        r@ == second_word(s@),
{
    let (_, behind) = cut_at_space(trim_start(s));
    let (word, _) = cut_at_space(trim_start(behind));
    word
}

/// Reads a signed number.
pub fn parse_signed(s: &str) -> (r: Option<i64>)
    ensures
        match r {
            Some(n) => parsed_signed(s@) == Some(n as int),
            None => parsed_signed(s@) is None,
        },
{
    let n: usize = s.unicode_len();
    if n > 0 && s.get_char(0) == '-' {
        let body = s.substring_char(1, n);
        assert(body@ =~= s@.skip(1));
        if body.unicode_len() == 0 || !only_digits(body) {
            return None;
        }
        assert(is_digit(body@[0]));
        match parse_unsigned(body, 9223372036854775808) {
            Some(m) => if m == 9223372036854775808 {
                Some(i64::MIN)
            } else {
                Some(-(m as i64))
            },
            None => None,
        }
    } else {
        match parse_unsigned(s, 9223372036854775807) {
            Some(m) => Some(m as i64),
            None => None,
        }
    }
}

/// The text without the white space at its end.
pub fn trim_end<'a>(s: &'a str) -> (r: &'a str)
    ensures
        r@ == trimmed_end(s@),
{
    let v = chars_of(s);
    let mut b: usize = v.len();
    assert(s@.take(b as int) =~= s@);
    while b > 0 && space(v[b - 1])
        invariant
            b <= v@.len(),
            v@ == s@,
            trimmed_end(s@) == trimmed_end(s@.take(b as int)),
        decreases b,
    {
        assert(s@.take(b as int).drop_last() =~= s@.take(b - 1));
        b = b - 1;
    }
    s.substring_char(0, b)
}

/// A line without the carriage return that its end begins with.
pub open spec fn without_return(line: Seq<char>) -> Seq<char> {
    if line.len() > 0 && line.last() == '\r' {
        line.drop_last()
    } else {
        line
    }
}

/// The lines of a text: each ends with a line feed, or a carriage return and a line feed; the last
/// one may end with the text.
pub open spec fn lines_of(s: Seq<char>) -> Seq<Seq<char>>
    decreases s.len(),
{
    let i = first_of(s, '\n');
    if s.len() == 0 {
        Seq::empty()
    } else if 0 <= i < s.len() {
        seq![without_return(s.take(i))] + lines_of(s.skip(i + 1))
    } else {
        seq![s]
    }
}

/// The lines of a text.
pub fn lines(s: &str) -> (v: Vec<String>)
    ensures
        texts(v@) == lines_of(s@),
{
    let mut v: Vec<String> = Vec::new();
    let mut left: &str = s;
    assert(texts(v@) + lines_of(s@) =~= lines_of(s@));
    loop
        invariant
            texts(v@) + lines_of(left@) == lines_of(s@),
        decreases left@.len(),
    {
        let ghost before = texts(v@);
        if left.unicode_len() == 0 {
            assert(texts(v@) =~= lines_of(s@));
            return v;
        }
        match split_once(left, '\n') {
            Some((line, rest)) => {
                let n: usize = line.unicode_len();
                if n > 0 && line.get_char(n - 1) == '\r' {
                    let cut = line.substring_char(0, n - 1);
                    assert(cut@ =~= without_return(line@));
                    v.push(cut.to_owned());
                } else {
                    v.push(line.to_owned());
                }
                assert(texts(v@) =~= before.push(without_return(line@)));
                assert(texts(v@) + lines_of(rest@) =~= before + lines_of(left@));
                left = rest;
            },
            None => {
                v.push(left.to_owned());
                assert(texts(v@) =~= before + lines_of(left@));
                return v;
            },
        }
    }
}

} // verus!
