//! Reading line- and word-oriented text (the kernel's statistics files):
//! `str::lines`, `str::split_whitespace` and `u64::from_str`, over a text
//! held as characters.

use crate::text::{all_digits, digits_value, is_digit, is_whitespace, is_whitespace_exec, lemma_digits_value_grows};
use vstd::prelude::*;

verus! {

/// The characters of `s`, in order.
pub fn chars_of(s: &str) -> (v: Vec<char>)
    ensures
        v@ == s@,
{
    let mut v: Vec<char> = Vec::new();
    for c in it: s.chars()
        invariant
            v@ == it.seq().subrange(0, it.index() as int),
            it.seq() == s@,
    {
        v.push(c);
    }
    v
}

/// The pieces of `cs` that the ranges `r` select.
pub open spec fn pieces(cs: Seq<char>, r: Seq<(usize, usize)>) -> Seq<Seq<char>> {
    r.map_values(|p: (usize, usize)| cs.subrange(p.0 as int, p.1 as int))
}

/// Every range of `r` lies within `a..b`.
pub open spec fn ranges_within(r: Seq<(usize, usize)>, a: int, b: int) -> bool {
    forall|k: int| 0 <= k < r.len() ==> a <= #[trigger] r[k].0 <= r[k].1 <= b
}

// ---------------------------------------------------------------------------
// Words

/// The leading run of non-whitespace characters of `s`.
pub open spec fn first_word(s: Seq<char>) -> Seq<char>
    decreases s.len(),
{
    if s.len() == 0 || is_whitespace(s[0]) {
        Seq::empty()
    } else {
        seq![s[0]] + first_word(s.subrange(1, s.len() as int))
    }
}

pub proof fn lemma_first_word_len(s: Seq<char>)
    ensures
        first_word(s).len() <= s.len(),
        s.len() > 0 && !is_whitespace(s[0]) ==> first_word(s).len() >= 1,
    decreases s.len(),
{
    if s.len() > 0 && !is_whitespace(s[0]) {
        lemma_first_word_len(s.subrange(1, s.len() as int));
    }
}

pub proof fn lemma_first_word_at(s: Seq<char>, k: int)
    requires
        0 <= k <= s.len(),
        forall|j: int| 0 <= j < k ==> !is_whitespace(#[trigger] s[j]),
        k == s.len() || is_whitespace(s[k]),
    ensures
        first_word(s) == s.subrange(0, k),
    decreases k,
{
    if k == 0 {
        assert(s.subrange(0, 0) =~= Seq::<char>::empty());
    } else {
        let t = s.subrange(1, s.len() as int);
        assert forall|j: int| 0 <= j < k - 1 implies !is_whitespace(#[trigger] t[j]) by {
            assert(t[j] == s[j + 1]);
        }
        if k < s.len() {
            assert(t[k - 1] == s[k]);
        }
        lemma_first_word_at(t, k - 1);
        assert(seq![s[0]] + t.subrange(0, k - 1) =~= s.subrange(0, k));
    }
}

/// `str::split_whitespace`: the maximal runs of non-whitespace characters.
pub open spec fn words(s: Seq<char>) -> Seq<Seq<char>>
    decreases s.len(),
{
    if s.len() == 0 {
        Seq::empty()
    } else if is_whitespace(s[0]) {
        words(s.subrange(1, s.len() as int))
    } else {
        let w = first_word(s);
        proof {
            lemma_first_word_len(s);
        }
        seq![w] + words(s.subrange(w.len() as int, s.len() as int))
    }
}

/// The ranges of the words of `cs[a..b]`, in order.
pub fn word_ranges(cs: &Vec<char>, a: usize, b: usize) -> (r: Vec<(usize, usize)>)
    requires
        a <= b <= cs@.len(),
    ensures
        pieces(cs@, r@) == words(cs@.subrange(a as int, b as int)),
        ranges_within(r@, a as int, b as int),
{
    let mut r: Vec<(usize, usize)> = Vec::new();
    let mut i: usize = a;
    while i < b
        invariant
            a <= i <= b <= cs@.len(),
            words(cs@.subrange(a as int, b as int)) == pieces(cs@, r@) + words(
                cs@.subrange(i as int, b as int),
            ),
            ranges_within(r@, a as int, b as int),
        decreases b - i,
    {
        let ghost t = cs@.subrange(i as int, b as int);
        if is_whitespace_exec(cs[i]) {
            proof {
                assert(t[0] == cs@[i as int]);
                assert(t.subrange(1, t.len() as int) =~= cs@.subrange(i + 1, b as int));
            }
            i = i + 1;
        } else {
            let mut j: usize = i + 1;
            while j < b && !is_whitespace_exec(cs[j])
                invariant
                    i < j <= b <= cs@.len(),
                    forall|k: int| i <= k < j ==> !is_whitespace(#[trigger] cs@[k]),
                decreases b - j,
            {
                j = j + 1;
            }
            proof {
                assert forall|k: int| 0 <= k < j - i implies !is_whitespace(#[trigger] t[k]) by {
                    assert(t[k] == cs@[i + k]);
                }
                if j < b {
                    assert(t[j - i] == cs@[j as int]);
                }
                lemma_first_word_at(t, j - i);
                assert(t[0] == cs@[i as int]);
                assert(t.subrange(0, j - i) =~= cs@.subrange(i as int, j as int));
                assert(t.subrange(j - i, t.len() as int) =~= cs@.subrange(j as int, b as int));
            }
            let ghost before = r@;
            r.push((i, j));
            proof {
                assert(pieces(cs@, r@) =~= pieces(cs@, before).push(
                    cs@.subrange(i as int, j as int),
                ));
                assert(pieces(cs@, before) + (seq![cs@.subrange(i as int, j as int)] + words(
                    cs@.subrange(j as int, b as int),
                )) =~= pieces(cs@, r@) + words(cs@.subrange(j as int, b as int)));
            }
            i = j;
        }
    }
    proof {
        assert(cs@.subrange(b as int, b as int) =~= Seq::<char>::empty());
        assert(pieces(cs@, r@) + Seq::<Seq<char>>::empty() =~= pieces(cs@, r@));
    }
    r
}

// ---------------------------------------------------------------------------
// Lines

/// The index of the first newline of `s`, or its length when it has none.
pub open spec fn line_end(s: Seq<char>) -> int
    decreases s.len(),
{
    if s.len() == 0 {
        0
    } else if s[0] == '\n' {
        0
    } else {
        1 + line_end(s.subrange(1, s.len() as int))
    }
}

pub proof fn lemma_line_end_at(s: Seq<char>, k: int)
    requires
        0 <= k <= s.len(),
        forall|j: int| 0 <= j < k ==> #[trigger] s[j] != '\n',
        k == s.len() || s[k] == '\n',
    ensures
        line_end(s) == k,
    decreases k,
{
    if k > 0 {
        let t = s.subrange(1, s.len() as int);
        assert forall|j: int| 0 <= j < k - 1 implies #[trigger] t[j] != '\n' by {
            assert(t[j] == s[j + 1]);
        }
        if k < s.len() {
            assert(t[k - 1] == s[k]);
        }
        lemma_line_end_at(t, k - 1);
    }
}

pub proof fn lemma_line_end_bounds(s: Seq<char>)
    ensures
        0 <= line_end(s) <= s.len(),
        line_end(s) < s.len() ==> s[line_end(s)] == '\n',
    decreases s.len(),
{
    if s.len() > 0 && s[0] != '\n' {
        let t = s.subrange(1, s.len() as int);
        lemma_line_end_bounds(t);
        if line_end(t) < t.len() {
            assert(t[line_end(t)] == s[line_end(t) + 1]);
        }
    }
}

/// A line ended by a newline, without the carriage return before it.
pub open spec fn strip_cr(l: Seq<char>) -> Seq<char> {
    if l.len() > 0 && l[l.len() - 1] == '\r' {
        l.subrange(0, l.len() - 1)
    } else {
        l
    }
}

/// `str::lines`: the text split at `\n` (a `\r` just before it dropped); a
/// final newline ends the last line rather than starting an empty one.
pub open spec fn lines(s: Seq<char>) -> Seq<Seq<char>>
    decreases s.len(),
{
    if s.len() == 0 {
        Seq::empty()
    } else {
        let e = line_end(s);
        proof {
            lemma_line_end_bounds(s);
        }
        if e == s.len() {
            seq![s]
        } else {
            seq![strip_cr(s.subrange(0, e))] + lines(s.subrange(e + 1, s.len() as int))
        }
    }
}

/// The ranges of the lines of `cs`, in order.
pub fn line_ranges(cs: &Vec<char>) -> (r: Vec<(usize, usize)>)
    ensures
        pieces(cs@, r@) == lines(cs@),
        ranges_within(r@, 0, cs@.len() as int),
{
    let n = cs.len();
    let mut r: Vec<(usize, usize)> = Vec::new();
    let mut i: usize = 0;
    proof {
        assert(cs@.subrange(0, n as int) =~= cs@);
    }
    while i < n
        invariant
            i <= n == cs@.len(),
            lines(cs@) == pieces(cs@, r@) + lines(cs@.subrange(i as int, n as int)),
            ranges_within(r@, 0, n as int),
        decreases n - i,
    {
        let ghost t = cs@.subrange(i as int, n as int);
        let mut j: usize = i;
        while j < n && cs[j] != '\n'
            invariant
                i <= j <= n == cs@.len(),
                forall|k: int| i <= k < j ==> #[trigger] cs@[k] != '\n',
            decreases n - j,
        {
            j = j + 1;
        }
        proof {
            assert forall|k: int| 0 <= k < j - i implies #[trigger] t[k] != '\n' by {
                assert(t[k] == cs@[i + k]);
            }
            if j < n {
                assert(t[j - i] == cs@[j as int]);
            }
            lemma_line_end_at(t, j - i);
        }
        let ghost before = r@;
        if j == n {
            r.push((i, n));
            proof {
                assert(pieces(cs@, r@) =~= pieces(cs@, before).push(t));
                assert(cs@.subrange(n as int, n as int) =~= Seq::<char>::empty());
                assert(pieces(cs@, before) + seq![t] =~= pieces(cs@, r@) + lines(
                    cs@.subrange(n as int, n as int),
                ));
            }
            i = n;
        } else {
            let end: usize = if j > i && cs[j - 1] == '\r' {
                j - 1
            } else {
                j
            };
            r.push((i, end));
            proof {
                let l = t.subrange(0, j - i);
                assert(l =~= cs@.subrange(i as int, j as int));
                if j > i && cs@[j - 1] == '\r' {
                    assert(l[l.len() - 1] == cs@[j - 1]);
                    assert(strip_cr(l) =~= cs@.subrange(i as int, end as int));
                } else {
                    if l.len() > 0 {
                        assert(l[l.len() - 1] == cs@[j - 1]);
                    }
                    assert(strip_cr(l) =~= cs@.subrange(i as int, end as int));
                }
                assert(t.subrange(j - i + 1, t.len() as int) =~= cs@.subrange(j + 1, n as int));
                assert(pieces(cs@, r@) =~= pieces(cs@, before).push(
                    cs@.subrange(i as int, end as int),
                ));
                assert(pieces(cs@, before) + (seq![cs@.subrange(i as int, end as int)] + lines(
                    cs@.subrange(j + 1, n as int),
                )) =~= pieces(cs@, r@) + lines(cs@.subrange(j + 1, n as int)));
            }
            i = j + 1;
        }
    }
    proof {
        assert(cs@.subrange(n as int, n as int) =~= Seq::<char>::empty());
        assert(pieces(cs@, r@) + Seq::<Seq<char>>::empty() =~= pieces(cs@, r@));
    }
    r
}

// ---------------------------------------------------------------------------
// Numbers and comparisons

/// `u64::from_str`: an optional `+`, then one or more decimal digits whose
/// value fits in a `u64`.
pub open spec fn parse_u64(s: Seq<char>) -> Option<u64> {
    let d = if s.len() > 0 && s[0] == '+' {
        s.subrange(1, s.len() as int)
    } else {
        s
    };
    if d.len() > 0 && all_digits(d) && digits_value(d) <= u64::MAX {
        Some(digits_value(d) as u64)
    } else {
        None
    }
}

/// Parse `cs[a..b]` as `str::parse::<u64>` does.
pub fn parse_u64_at(cs: &Vec<char>, a: usize, b: usize) -> (r: Option<u64>)
    requires
        a <= b <= cs@.len(),
    ensures
        r == parse_u64(cs@.subrange(a as int, b as int)),
{
    let ghost s = cs@.subrange(a as int, b as int);
    let start: usize = if a < b && cs[a] == '+' {
        a + 1
    } else {
        a
    };
    let ghost d = if s.len() > 0 && s[0] == '+' {
        s.subrange(1, s.len() as int)
    } else {
        s
    };
    proof {
        if a < b {
            assert(s[0] == cs@[a as int]);
        }
        assert(d =~= cs@.subrange(start as int, b as int));
    }
    if start == b {
        return None;
    }
    let mut acc: u64 = 0;
    let mut i: usize = start;
    while i < b
        invariant
            a <= start <= i <= b <= cs@.len(),
            start < b,
            d == cs@.subrange(start as int, b as int),
            s == cs@.subrange(a as int, b as int),
            d == (if s.len() > 0 && s[0] == '+' {
                s.subrange(1, s.len() as int)
            } else {
                s
            }),
            forall|j: int| start <= j < i ==> is_digit(#[trigger] cs@[j]),
            acc == digits_value(cs@.subrange(start as int, i as int)),
        decreases b - i,
    {
        let c = cs[i];
        if !('0' <= c && c <= '9') {
            proof {
                assert(d[i - start] == cs@[i as int]);
                assert(!all_digits(d));
            }
            return None;
        }
        proof {
            let p = cs@.subrange(start as int, i + 1);
            assert(p.subrange(0, p.len() - 1) =~= cs@.subrange(start as int, i as int));
            assert(p[p.len() - 1] == c);
        }
        let digit: u64 = (c as u32 - 48) as u64;
        if acc > (u64::MAX - digit) / 10 {
            proof {
                assert(acc * 10 + digit > u64::MAX) by (nonlinear_arith)
                    requires
                        acc > (u64::MAX - digit) / 10,
                        digit <= 9,
                ;
                if all_digits(d) {
                    lemma_digits_value_grows(d, i + 1 - start);
                    assert(d.subrange(0, i + 1 - start) =~= cs@.subrange(start as int, i + 1));
                }
            }
            return None;
        }
        proof {
            assert(acc * 10 + digit <= u64::MAX) by (nonlinear_arith)
                requires
                    acc <= (u64::MAX - digit) / 10,
                    digit <= 9,
            ;
        }
        acc = acc * 10 + digit;
        i = i + 1;
    }
    Some(acc)
}

/// Whether `cs[a..b]` equals `lit`.
pub fn range_eq(cs: &Vec<char>, a: usize, b: usize, lit: &str) -> (r: bool)
    requires
        a <= b <= cs@.len(),
    ensures
        r == (cs@.subrange(a as int, b as int) == lit@),
{
    let n = lit.unicode_len();
    if b - a != n {
        return false;
    }
    let mut i: usize = 0;
    while i < n
        invariant
            b - a == n == lit@.len(),
            a <= b <= cs@.len(),
            i <= n,
            forall|j: int| 0 <= j < i ==> cs@[a + j] == lit@[j],
        decreases n - i,
    {
        if cs[a + i] != lit.get_char(i) {
            proof {
                assert(cs@.subrange(a as int, b as int)[i as int] == cs@[a + i]);
            }
            return false;
        }
        i = i + 1;
    }
    proof {
        assert(cs@.subrange(a as int, b as int) =~= lit@);
    }
    true
}

/// Whether `cs[a..b]` begins with `lit`.
pub fn range_starts_with(cs: &Vec<char>, a: usize, b: usize, lit: &str) -> (r: bool)
    requires
        a <= b <= cs@.len(),
    ensures
        r == (lit@.len() <= b - a && cs@.subrange(a as int, a + lit@.len()) == lit@),
{
    let n = lit.unicode_len();
    if b - a < n {
        return false;
    }
    let r = range_eq(cs, a, a + n, lit);
    r
}

/// The text of `s` between character positions `a` and `b`, as a `String`.
pub fn piece_string(s: &str, a: usize, b: usize) -> (r: String)
    requires
        a <= b <= s@.len(),
    ensures
        r@ == s@.subrange(a as int, b as int),
{
    s.substring_char(a, b).to_owned()
}

// ---------------------------------------------------------------------------
// Fields

/// The index of the first `c` in `s`, or its length when it has none.
pub open spec fn char_index(s: Seq<char>, c: char) -> int
    decreases s.len(),
{
    if s.len() == 0 {
        0
    } else if s[0] == c {
        0
    } else {
        1 + char_index(s.subrange(1, s.len() as int), c)
    }
}

pub proof fn lemma_char_index_at(s: Seq<char>, c: char, k: int)
    requires
        0 <= k <= s.len(),
        forall|j: int| 0 <= j < k ==> #[trigger] s[j] != c,
        k == s.len() || s[k] == c,
    ensures
        char_index(s, c) == k,
    decreases k,
{
    if k > 0 {
        let t = s.subrange(1, s.len() as int);
        assert forall|j: int| 0 <= j < k - 1 implies #[trigger] t[j] != c by {
            assert(t[j] == s[j + 1]);
        }
        if k < s.len() {
            assert(t[k - 1] == s[k]);
        }
        lemma_char_index_at(t, c, k - 1);
    }
}

/// The position of the first `c` in `cs[a..b]`, or `b` when there is none.
pub fn find_char(cs: &Vec<char>, a: usize, b: usize, c: char) -> (r: usize)
    requires
        a <= b <= cs@.len(),
    ensures
        a <= r <= b,
        r - a == char_index(cs@.subrange(a as int, b as int), c),
{
    let mut j: usize = a;
    while j < b && cs[j] != c
        invariant
            a <= j <= b <= cs@.len(),
            forall|k: int| a <= k < j ==> #[trigger] cs@[k] != c,
        decreases b - j,
    {
        j = j + 1;
    }
    proof {
        let t = cs@.subrange(a as int, b as int);
        assert forall|k: int| 0 <= k < j - a implies #[trigger] t[k] != c by {
            assert(t[k] == cs@[a + k]);
        }
        if j < b {
            assert(t[j - a] == cs@[j as int]);
        }
        lemma_char_index_at(t, c, j - a);
    }
    j
}

/// A field read as a number, zero where it is none.
pub open spec fn parse_or_zero(w: Seq<char>) -> u64 {
    match parse_u64(w) {
        Some(v) => v,
        None => 0,
    }
}

pub fn parse_or_zero_at(cs: &Vec<char>, a: usize, b: usize) -> (r: u64)
    requires
        a <= b <= cs@.len(),
    ensures
        r == parse_or_zero(cs@.subrange(a as int, b as int)),
{
    match parse_u64_at(cs, a, b) {
        Some(v) => v,
        None => 0,
    }
}

/// What `f` makes of each line that it accepts, in order.
pub open spec fn filter_map<A>(ls: Seq<Seq<char>>, f: spec_fn(Seq<char>) -> Option<A>) -> Seq<A>
    decreases ls.len(),
{
    if ls.len() == 0 {
        Seq::empty()
    } else {
        let rest = filter_map(ls.drop_last(), f);
        match f(ls.last()) {
            Some(a) => rest.push(a),
            None => rest,
        }
    }
}

} // verus!
