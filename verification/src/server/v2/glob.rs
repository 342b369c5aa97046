//! Shell-style patterns: `*` stands for any run of characters, `?` for one.

use vstd::prelude::*;
use crate::text::chars_of;

verus! {

/// Whether a pattern matches the whole of a text.
pub open spec fn fits(p: Seq<char>, t: Seq<char>) -> bool
    decreases p.len(), t.len(),
{
    if p.len() == 0 {
        t.len() == 0
    } else if p[0] == '*' {
        fits(p.skip(1), t) || (t.len() > 0 && fits(p, t.skip(1)))
    } else {
        t.len() > 0 && (p[0] == '?' || p[0] == t[0]) && fits(p.skip(1), t.skip(1))
    }
}

/// Whether the pattern from `a` to `b` has no star.
spec fn starless(p: Seq<char>, a: int, b: int) -> bool {
    forall|i: int| a <= i < b ==> #[trigger] p[i] != '*'
}

/// Whether the pattern from `a` to `b` matches the text from `c` character by character.
spec fn aligned(p: Seq<char>, a: int, b: int, t: Seq<char>, c: int) -> bool {
    forall|i: int| a <= i < b ==> #[trigger] p[i] == '?' || p[i] == t[c + i - a]
}

proof fn lemma_starless_consumes(p: Seq<char>, a: int, b: int, t: Seq<char>, c: int)
    requires
        0 <= a <= b <= p.len(),
        0 <= c <= t.len(),
        starless(p, a, b),
        fits(p.skip(a), t.skip(c)),
    ensures
        c + (b - a) <= t.len(),
        fits(p.skip(b), t.skip(c + (b - a))),
    decreases b - a,
{
    if a < b {
        assert(p[a] != '*');
        assert(p.skip(a)[0] == p[a]);
        assert(p.skip(a).skip(1) =~= p.skip(a + 1));
        assert(t.skip(c).skip(1) =~= t.skip(c + 1));
        lemma_starless_consumes(p, a + 1, b, t, c + 1);
    }
}

proof fn lemma_aligned_extends(p: Seq<char>, a: int, b: int, t: Seq<char>, c: int)
    requires
        0 <= a <= b <= p.len(),
        0 <= c,
        c + (b - a) <= t.len(),
        starless(p, a, b),
        aligned(p, a, b, t, c),
        fits(p.skip(b), t.skip(c + (b - a))),
    ensures
        fits(p.skip(a), t.skip(c)),
    decreases b - a,
{
    if a < b {
        assert(p[a] != '*');
        assert(p.skip(a).skip(1) =~= p.skip(a + 1));
        assert(t.skip(c).skip(1) =~= t.skip(c + 1));
        assert(aligned(p, a + 1, b, t, c + 1)) by {
            assert forall|i: int| a + 1 <= i < b implies #[trigger] p[i] == '?' || p[i] == t[c + 1
                + i - (a + 1)] by {}
        }
        lemma_aligned_extends(p, a + 1, b, t, c + 1);
    }
}

proof fn lemma_star_absorbs(p: Seq<char>, t: Seq<char>, from: int, to: int)
    requires
        p.len() > 0,
        p[0] == '*',
        0 <= from <= to <= t.len(),
        fits(p, t.skip(to)),
    ensures
        fits(p, t.skip(from)),
    decreases to - from,
{
    if from < to {
        lemma_star_absorbs(p, t, from + 1, to);
        assert(t.skip(from).skip(1) =~= t.skip(from + 1));
    }
}

/// A star followed by an aligned, starless part: where a second star follows, what the first one
/// can match from `m` on, the second one can match from `ti` on.
proof fn lemma_second_star(
    p: Seq<char>,
    s: int,
    pi: int,
    t: Seq<char>,
    mark: int,
    ti: int,
    m: int,
)
    requires
        0 <= s < pi < p.len(),
        p[s] == '*',
        p[pi] == '*',
        starless(p, s + 1, pi),
        0 <= mark <= m <= t.len(),
        ti == mark + (pi - s - 1),
        ti <= t.len(),
        fits(p.skip(s), t.skip(m)),
    ensures
        fits(p.skip(pi), t.skip(ti)),
    decreases t.len() - m,
{
    assert(p.skip(s).skip(1) =~= p.skip(s + 1));
    if fits(p.skip(s + 1), t.skip(m)) {
        lemma_starless_consumes(p, s + 1, pi, t, m);
        assert(p.skip(pi)[0] == '*');
        lemma_star_absorbs(p.skip(pi), t, ti, m + (pi - s - 1));
    } else {
        assert(t.skip(m).skip(1) =~= t.skip(m + 1));
        lemma_second_star(p, s, pi, t, mark, ti, m + 1);
    }
}

/// A star followed by a starless part that is aligned up to the end of the text: what the star
/// can match from `m` on leaves the rest of the pattern to match nothing.
proof fn lemma_star_to_the_end(p: Seq<char>, s: int, pi: int, t: Seq<char>, mark: int, m: int)
    requires
        0 <= s < pi <= p.len(),
        p[s] == '*',
        starless(p, s + 1, pi),
        0 <= mark <= m <= t.len(),
        mark + (pi - s - 1) == t.len(),
        fits(p.skip(s), t.skip(m)),
    ensures
        fits(p.skip(pi), t.skip(t.len() as int)),
    decreases t.len() - m,
{
    assert(p.skip(s).skip(1) =~= p.skip(s + 1));
    if fits(p.skip(s + 1), t.skip(m)) {
        lemma_starless_consumes(p, s + 1, pi, t, m);
    } else {
        assert(t.skip(m).skip(1) =~= t.skip(m + 1));
        lemma_star_to_the_end(p, s, pi, t, mark, m + 1);
    }
}

/// Matches a pattern against the whole of a text, with two places that go forward and back to
/// the last star.
pub(crate) fn wildcard(p: &Vec<char>, t: &Vec<char>) -> (r: bool)
    ensures
        r == fits(p@, t@),
{
    let mut pi: usize = 0;
    let mut ti: usize = 0;
    let mut star: Option<usize> = None;
    let mut mark: usize = 0;
    assert(p@.skip(0) =~= p@);
    assert(t@.skip(0) =~= t@);
    while ti < t.len()
        invariant
            pi <= p@.len(),
            ti <= t@.len(),
            mark <= ti,
            match star {
                None => fits(p@, t@) == fits(p@.skip(pi as int), t@.skip(ti as int)),
                Some(s) => {
                    &&& s < pi
                    &&& p@[s as int] == '*'
                    &&& ti == mark + (pi - s - 1)
                    &&& starless(p@, s + 1, pi as int)
                    &&& aligned(p@, s + 1, pi as int, t@, mark as int)
                    &&& fits(p@, t@) == fits(p@.skip(s as int), t@.skip(mark as int))
                },
            },
        decreases
                t.len() - (if star is Some {
                    mark as int
                } else {
                    ti as int
                }),
                p.len() - (match star {
                    Some(s) => s as int,
                    None => -1int,
                }),
                t.len() - ti,
    {
        let ghost pp = p@.skip(pi as int);
        let ghost tt = t@.skip(ti as int);
        proof {
            if pi < p@.len() {
                assert(pp.skip(1) =~= p@.skip(pi + 1));
            }
            assert(tt.skip(1) =~= t@.skip(ti + 1));
        }
        if pi < p.len() && p[pi] == '*' {
            proof {
                match star {
                    None => {},
                    Some(s) => {
                        if fits(p@.skip(s as int), t@.skip(mark as int)) {
                            lemma_second_star(
                                p@,
                                s as int,
                                pi as int,
                                t@,
                                mark as int,
                                ti as int,
                                mark as int,
                            );
                        }
                        if fits(p@.skip(pi as int), t@.skip(ti as int)) {
                            lemma_aligned_extends(p@, s + 1, pi as int, t@, mark as int);
                            assert(p@.skip(s as int).skip(1) =~= p@.skip(s + 1));
                        }
                    },
                }
            }
            star = Some(pi);
            mark = ti;
            pi = pi + 1;
        } else if pi < p.len() && (p[pi] == '?' || p[pi] == t[ti]) {
            pi = pi + 1;
            ti = ti + 1;
        } else {
            match star {
                Some(s) => {
                    proof {
                        assert(!fits(pp, tt));
                        assert(p@.skip(s as int).skip(1) =~= p@.skip(s + 1));
                        assert(t@.skip(mark as int).skip(1) =~= t@.skip(mark + 1));
                        if fits(p@.skip(s + 1), t@.skip(mark as int)) {
                            lemma_starless_consumes(p@, s + 1, pi as int, t@, mark as int);
                        }
                    }
                    pi = s + 1;
                    mark = mark + 1;
                    ti = mark;
                },
                None => {
                    return false;
                },
            }
        }
    }
    proof {
        match star {
            None => {},
            Some(s) => {
                assert(p@.skip(s as int).skip(1) =~= p@.skip(s + 1));
                if fits(p@.skip(s as int), t@.skip(mark as int)) {
                    lemma_star_to_the_end(p@, s as int, pi as int, t@, mark as int, mark as int);
                }
                if fits(p@.skip(pi as int), t@.skip(ti as int)) {
                    lemma_aligned_extends(p@, s + 1, pi as int, t@, mark as int);
                }
            },
        }
    }
    assert(fits(p@, t@) == fits(p@.skip(pi as int), t@.skip(t@.len() as int)));
    while pi < p.len() && p[pi] == '*'
        invariant
            pi <= p@.len(),
            fits(p@, t@) == fits(p@.skip(pi as int), t@.skip(t@.len() as int)),
        decreases p.len() - pi,
    {
        assert(p@.skip(pi as int).skip(1) =~= p@.skip(pi + 1));
        pi = pi + 1;
    }
    pi == p.len()
}

/// A small ASCII letter as a capital; any other character as it is.
pub open spec fn upper_char(c: char) -> char {
    if 'a' <= c <= 'z' {
        (c as u32 - 32) as char
    } else {
        c
    }
}

/// A text with its small ASCII letters as capitals.
pub open spec fn uppered(s: Seq<char>) -> Seq<char> {
    Seq::new(s.len(), |i: int| upper_char(s[i]))
}

/// The text's characters, small ASCII letters as capitals.
pub(crate) fn to_upper(s: &str) -> (v: Vec<char>)
    ensures
        v@ == uppered(s@),
{
    let x = chars_of(s);
    let mut v: Vec<char> = Vec::new();
    let mut i: usize = 0;
    while i < x.len()
        invariant
            i <= x@.len(),
            x@ == s@,
            v@ == uppered(s@).take(i as int),
        decreases x.len() - i,
    {
        let c: char = x[i];
        let u: char = if 'a' <= c && c <= 'z' {
            ((c as u8) - 32) as char
        } else {
            c
        };
        v.push(u);
        i = i + 1;
        assert(v@ =~= uppered(s@).take(i as int));
    }
    assert(uppered(s@).take(i as int) =~= uppered(s@));
    v
}

/// A star alone matches every text.
pub proof fn a_star_matches_everything(t: Seq<char>)
    ensures
        fits(seq!['*'], t),
    decreases t.len(),
{
    if t.len() > 0 {
        a_star_matches_everything(t.skip(1));
    } else {
        assert(seq!['*'].skip(1) =~= Seq::<char>::empty());
        assert(fits(seq!['*'].skip(1), t));
    }
}

/// A pattern without stars and question marks matches only itself.
pub proof fn a_plain_pattern_matches_itself(p: Seq<char>, t: Seq<char>)
    requires
        forall|i: int| 0 <= i < p.len() ==> #[trigger] p[i] != '*' && p[i] != '?',
    ensures
        fits(p, t) <==> p == t,
    decreases p.len(),
{
    if p.len() == 0 {
        assert(t.len() == 0 ==> p =~= t);
    } else if t.len() > 0 {
        assert forall|i: int| 0 <= i < p.skip(1).len() implies #[trigger] p.skip(1)[i] != '*'
            && p.skip(1)[i] != '?' by {
            assert(p[i + 1] != '*');
        }
        a_plain_pattern_matches_itself(p.skip(1), t.skip(1));
        assert(p[0] != '*');
        assert(p[0] == t[0] && p.skip(1) == t.skip(1) ==> p =~= t) by {
            if p[0] == t[0] && p.skip(1) == t.skip(1) {
                assert(p =~= seq![p[0]] + p.skip(1));
                assert(t =~= seq![t[0]] + t.skip(1));
            }
        }
    } else {
        assert(p[0] != '*');
    }
}

/// A question mark stands for exactly one character: a pattern of question marks matches exactly
/// the texts of its length.
pub proof fn question_marks_count_characters(p: Seq<char>, t: Seq<char>)
    requires
        forall|i: int| 0 <= i < p.len() ==> #[trigger] p[i] == '?',
    ensures
        fits(p, t) <==> p.len() == t.len(),
    decreases p.len(),
{
    if p.len() > 0 {
        assert(p[0] == '?');
        if t.len() > 0 {
            assert forall|i: int| 0 <= i < p.skip(1).len() implies #[trigger] p.skip(1)[i] == '?' by {
                assert(p[i + 1] == '?');
            }
            question_marks_count_characters(p.skip(1), t.skip(1));
        }
    }
}

} // verus!
