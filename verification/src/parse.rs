//! Character-level scanning of encoder diagnostics and numeric fields.
use crate::text::{digit_char, dec};
use vstd::prelude::*;

verus! {

/// `p` occurs in `s` at position `i`.
pub open spec fn matches_at(s: Seq<char>, p: Seq<char>, i: int) -> bool {
    0 <= i && i + p.len() <= s.len() && s.subrange(i, i + p.len()) == p
}

/// First position at or after `i` where `p` occurs.
pub open spec fn find_from(s: Seq<char>, p: Seq<char>, i: int) -> Option<int>
    decreases s.len() + 1 - i,
{
    if i < 0 || i + p.len() > s.len() {
        None
    } else if matches_at(s, p, i) {
        Some(i)
    } else {
        find_from(s, p, i + 1)
    }
}

/// A found occurrence lies at or after where the search started.
pub proof fn lemma_find_from(s: Seq<char>, p: Seq<char>, i: int)
    ensures
        find_from(s, p, i) matches Some(k) ==> i <= k && matches_at(s, p, k),
    decreases s.len() + 1 - i,
{
    if !(i < 0 || i + p.len() > s.len()) && !matches_at(s, p, i) {
        lemma_find_from(s, p, i + 1);
    }
}

/// `s` without the prefix `p`, when it starts with `p`.
pub open spec fn strip_prefix(s: Seq<char>, p: Seq<char>) -> Option<Seq<char>> {
    if matches_at(s, p, 0) { Some(s.skip(p.len() as int)) } else { None }
}

/// The text after the first occurrence of `p`.
pub open spec fn after_first(s: Seq<char>, p: Seq<char>) -> Option<Seq<char>> {
    match find_from(s, p, 0) {
        Some(i) => Some(s.skip(i + p.len())),
        None => None,
    }
}

/// A line without its `\r` before a removed `\n`.
pub open spec fn strip_cr(l: Seq<char>) -> Seq<char> {
    if l.len() > 0 && l.last() == '\r' { l.drop_last() } else { l }
}

/// Lines of a text as `str::lines` yields them: split after each `\n`, the
/// `\n` and a `\r` before it removed, no empty line after a final `\n`.
pub open spec fn split_lines(s: Seq<char>) -> Seq<Seq<char>>
    decreases s.len(),
{
    if s.len() == 0 {
        Seq::empty()
    } else {
        match find_from(s, seq!['\n'], 0) {
            Some(k) => {
                if 0 <= k < s.len() {
                    seq![strip_cr(s.take(k))] + split_lines(s.skip(k + 1))
                } else {
                    Seq::empty()
                }
            },
            None => seq![s],
        }
    }
}

/// The Unicode `White_Space` characters that `str::trim` removes.
pub open spec fn is_space(c: char) -> bool {
    ||| ('\u{9}' <= c && c <= '\u{d}')
    ||| c == ' '
    ||| c == '\u{85}'
    ||| c == '\u{a0}'
    ||| c == '\u{1680}'
    ||| ('\u{2000}' <= c && c <= '\u{200a}')
    ||| c == '\u{2028}'
    ||| c == '\u{2029}'
    ||| c == '\u{202f}'
    ||| c == '\u{205f}'
    ||| c == '\u{3000}'
}

pub open spec fn trim_start(s: Seq<char>) -> Seq<char>
    decreases s.len(),
{
    if s.len() > 0 && is_space(s[0]) { trim_start(s.drop_first()) } else { s }
}

pub open spec fn trim_end(s: Seq<char>) -> Seq<char>
    decreases s.len(),
{
    if s.len() > 0 && is_space(s.last()) { trim_end(s.drop_last()) } else { s }
}

/// `s` without leading and trailing white space.
pub open spec fn trim(s: Seq<char>) -> Seq<char> {
    trim_end(trim_start(s))
}

pub open spec fn is_digit(c: char) -> bool {
    '0' <= c && c <= '9'
}

pub open spec fn digit_value(c: char) -> nat {
    (c as u32 - '0' as u32) as nat
}

/// Value of a string of decimal digits.
pub open spec fn digits_value(s: Seq<char>) -> nat
    decreases s.len(),
{
    if s.len() == 0 { 0 } else { digits_value(s.drop_last()) * 10 + digit_value(s.last()) }
}

pub open spec fn all_digits(s: Seq<char>) -> bool {
    forall|i: int| 0 <= i < s.len() ==> is_digit(#[trigger] s[i])
}

/// What `str::parse` gives for an unsigned type whose largest value is `max`:
/// an optional `+`, then at least one decimal digit, within range.
pub open spec fn parse_unsigned(s: Seq<char>, max: nat) -> Option<nat> {
    let digits = if s.len() > 0 && s[0] == '+' { s.drop_first() } else { s };
    if digits.len() > 0 && all_digits(digits) && digits_value(digits) <= max {
        Some(digits_value(digits))
    } else {
        None
    }
}

/// Index of the first `\n` at or after `i`, or the end.
fn line_end(s: &Vec<char>, i: usize) -> (r: usize)
    requires
        i <= s@.len(),
    ensures
        i <= r <= s@.len(),
        forall|k: int| i <= k < r ==> s@[k] != '\n',
        r < s@.len() ==> s@[r as int] == '\n',
{
    let mut j = i;
    while j < s.len() && s[j] != '\n'
        invariant
            i <= j <= s@.len(),
            forall|k: int| i <= k < j ==> s@[k] != '\n',
        decreases s@.len() - j,
    {
        j = j + 1;
    }
    j
}

proof fn lemma_find_newline(s: Seq<char>, i: int, r: int)
    requires
        0 <= i <= r <= s.len(),
        forall|k: int| i <= k < r ==> s[k] != '\n',
        r < s.len() ==> s[r] == '\n',
    ensures
        find_from(s, seq!['\n'], i) == if r < s.len() { Some(r) } else { None::<int> },
    decreases s.len() - i,
{
    if i < s.len() {
        if i < r {
            assert(!matches_at(s, seq!['\n'], i)) by {
                if matches_at(s, seq!['\n'], i) {
                    assert(s.subrange(i, i + 1)[0] == s[i]);
                }
            }
            lemma_find_newline(s, i + 1, r);
        } else {
            assert(s.subrange(i, i + 1) =~= seq!['\n']);
        }
    }
}

pub proof fn lemma_find_shift(s: Seq<char>, p: Seq<char>, i: int, d: int)
    requires
        0 <= d <= i,
        d <= s.len(),
        p.len() > 0,
    ensures
        find_from(s.skip(d), p, i - d) == match find_from(s, p, i) { Some(k) => Some(k - d), None => None::<int> },
    decreases s.len() - i,
{
    if i + p.len() <= s.len() {
        assert(matches_at(s.skip(d), p, i - d) == matches_at(s, p, i)) by {
            assert(s.skip(d).subrange(i - d, i - d + p.len()) =~= s.subrange(i, i + p.len()));
        }
        if !matches_at(s, p, i) {
            lemma_find_shift(s, p, i + 1, d);
        }
    }
}

/// The characters of the lines of a text, as (start, end) positions.
pub fn line_bounds(s: &Vec<char>) -> (r: Vec<(usize, usize)>)
    ensures
        r@.len() == split_lines(s@).len(),
        forall|k: int| 0 <= k < r@.len() ==> {
            &&& (#[trigger] r@[k]).0 <= r@[k].1 <= s@.len()
            &&& s@.subrange(r@[k].0 as int, r@[k].1 as int) == split_lines(s@)[k]
        },
{
    let mut r: Vec<(usize, usize)> = Vec::new();
    let mut i: usize = 0;
    let ghost mut done: Seq<Seq<char>> = Seq::empty();
    assert(s@.skip(0) =~= s@);
    assert(Seq::<Seq<char>>::empty() + split_lines(s@) =~= split_lines(s@));
    while i < s.len()
        invariant
            i <= s@.len(),
            split_lines(s@) == done + split_lines(s@.skip(i as int)),
            r@.len() == done.len(),
            forall|k: int| 0 <= k < r@.len() ==> {
                &&& (#[trigger] r@[k]).0 <= r@[k].1 <= s@.len()
                &&& s@.subrange(r@[k].0 as int, r@[k].1 as int) == done[k]
            },
        decreases s@.len() - i,
    {
        let j = line_end(s, i);
        let ghost rest = s@.skip(i as int);
        proof {
            lemma_find_newline(s@, i as int, j as int);
            lemma_find_shift(s@, seq!['\n'], i as int, i as int);
        }
        let mut end = j;
        if j < s.len() && j > i && s[j - 1] == '\r' {
            end = j - 1;
        }
        proof {
            if j < s@.len() {
                assert(rest.take(j - i) =~= s@.subrange(i as int, j as int));
                assert(rest.skip(j - i + 1) =~= s@.skip(j as int + 1));
                assert(s@.subrange(i as int, end as int) =~= strip_cr(rest.take(j - i)));
            } else {
                assert(rest =~= s@.subrange(i as int, j as int));
                assert(s@.skip(j as int) =~= Seq::<char>::empty());
                assert(split_lines(s@.skip(j as int)) =~= Seq::<Seq<char>>::empty());
            }
            done = done.push(s@.subrange(i as int, end as int));
        }
        r.push((i, end));
        i = if j < s.len() { j + 1 } else { j };
        proof {
            assert(split_lines(s@) =~= done + split_lines(s@.skip(i as int)));
        }
    }
    proof {
        assert(s@.skip(i as int) =~= Seq::<char>::empty());
        assert(done + Seq::<Seq<char>>::empty() =~= done);
    }
    r
}

/// Whether `p` occurs in `s` at position `i`.
pub fn matches_here(s: &Vec<char>, p: &Vec<char>, i: usize) -> (r: bool)
    ensures
        r == matches_at(s@, p@, i as int),
{
    if i > s.len() || p.len() > s.len() - i {
        return false;
    }
    let n = s.len();
    let mut k: usize = 0;
    while k < p.len()
        invariant
            n == s@.len(),
            i + p@.len() <= s@.len(),
            k <= p@.len(),
            forall|m: int| 0 <= m < k ==> s@[i + m] == p@[m],
        decreases p@.len() - k,
    {
        if s[i + k] != p[k] {
            assert(s@.subrange(i as int, i + p@.len())[k as int] != p@[k as int]);
            return false;
        }
        k = k + 1;
    }
    assert(s@.subrange(i as int, i + p@.len()) =~= p@);
    true
}

/// First position at or after `i` in `s[..end]` where `p` occurs.
pub fn find_in(s: &Vec<char>, p: &Vec<char>, i: usize) -> (r: Option<usize>)
    ensures
        r matches Some(k) ==> find_from(s@, p@, i as int) == Some(k as int),
        r is None ==> find_from(s@, p@, i as int) is None,
        r matches Some(k) ==> k + p@.len() <= s@.len(),
    decreases s@.len() + 1 - i,
{
    if i > s.len() || p.len() > s.len() - i {
        return None;
    }
    if matches_here(s, p, i) {
        Some(i)
    } else {
        if i >= s.len() {
            assert(s@.subrange(i as int, i as int) =~= p@);
            return None;
        }
        find_in(s, p, i + 1)
    }
}


/// A string holding the given characters.
pub fn string_of(cs: &[char]) -> (r: String)
    ensures
        r@ == cs@,
{
    let mut r = String::new();
    let mut i: usize = 0;
    while i < cs.len()
        invariant
            i <= cs@.len(),
            r@ == cs@.take(i as int),
        decreases cs@.len() - i,
    {
        crate::text::push_char(&mut r, cs[i]);
        assert(r@ =~= cs@.take(i as int + 1));
        i = i + 1;
    }
    assert(cs@.take(cs@.len() as int) =~= cs@);
    r
}

pub fn is_space_char(c: char) -> (r: bool)
    ensures
        r == is_space(c),
{
    ('\u{9}' <= c && c <= '\u{d}') || c == ' ' || c == '\u{85}' || c == '\u{a0}' || c == '\u{1680}'
        || ('\u{2000}' <= c && c <= '\u{200a}') || c == '\u{2028}' || c == '\u{2029}'
        || c == '\u{202f}' || c == '\u{205f}' || c == '\u{3000}'
}

pub proof fn lemma_trim_start(s: Seq<char>, i: int)
    requires
        0 <= i <= s.len(),
        forall|k: int| 0 <= k < i ==> is_space(s[k]),
    ensures
        trim_start(s) == trim_start(s.skip(i)),
    decreases i,
{
    if i > 0 {
        lemma_trim_start(s.drop_first(), i - 1);
        assert(s.drop_first().skip(i - 1) =~= s.skip(i));
    } else {
        assert(s.skip(0) =~= s);
    }
}

pub proof fn lemma_trim_end(s: Seq<char>, j: int)
    requires
        0 <= j <= s.len(),
        forall|k: int| j <= k < s.len() ==> is_space(s[k]),
    ensures
        trim_end(s) == trim_end(s.take(j)),
    decreases s.len() - j,
{
    if j < s.len() {
        lemma_trim_end(s.drop_last(), j);
        assert(s.drop_last().take(j) =~= s.take(j));
    } else {
        assert(s.take(j) =~= s);
    }
}

/// Position range of `s[a..b]` without surrounding white space.
pub fn trim_bounds(s: &Vec<char>, a: usize, b: usize) -> (r: (usize, usize))
    requires
        a <= b <= s@.len(),
    ensures
        a <= r.0 <= r.1 <= b,
        s@.subrange(r.0 as int, r.1 as int) == trim(s@.subrange(a as int, b as int)),
{
    let ghost t = s@.subrange(a as int, b as int);
    let mut i = a;
    while i < b && is_space_char(s[i])
        invariant
            a <= i <= b <= s@.len(),
            t == s@.subrange(a as int, b as int),
            forall|k: int| a <= k < i ==> is_space(s@[k]),
        decreases b - i,
    {
        i = i + 1;
    }
    proof {
        lemma_trim_start(t, i - a);
        assert(t.skip(i - a) =~= s@.subrange(i as int, b as int));
        if i < b {
            assert(!is_space(t.skip(i - a)[0]));
        }
    }
    let ghost u = s@.subrange(i as int, b as int);
    assert(trim_start(t) == u) by {
        if i < b {
            assert(u[0] == s@[i as int]);
        } else {
            assert(u.len() == 0);
        }
    }
    let mut j = b;
    while j > i && is_space_char(s[j - 1])
        invariant
            i <= j <= b,
            b <= s@.len(),
            u == s@.subrange(i as int, b as int),
            forall|k: int| j <= k < b ==> is_space(s@[k]),
        decreases j,
    {
        j = j - 1;
    }
    proof {
        lemma_trim_end(u, j - i);
        assert(u.take(j - i) =~= s@.subrange(i as int, j as int));
        if j > i {
            assert(s@.subrange(i as int, j as int).last() == s@[j - 1]);
        }
    }
    (i, j)
}

proof fn lemma_digits_step(s: Seq<char>, k: int)
    requires
        0 <= k < s.len(),
    ensures
        digits_value(s.take(k + 1)) == digits_value(s.take(k)) * 10 + digit_value(s[k]),
{
    assert(s.take(k + 1).drop_last() =~= s.take(k));
}

proof fn lemma_digits_grow(s: Seq<char>, k: int, j: int)
    requires
        0 <= k <= j <= s.len(),
    ensures
        digits_value(s.take(k)) <= digits_value(s.take(j)),
    decreases j - k,
{
    if k < j {
        lemma_digits_grow(s, k, j - 1);
        lemma_digits_step(s, j - 1);
    }
}

/// Parses `s[a..b]` as an unsigned number of at most `max`.
pub fn parse_in(s: &Vec<char>, a: usize, b: usize, max: u64) -> (r: Option<u64>)
    requires
        a <= b <= s@.len(),
    ensures
        r == match parse_unsigned(s@.subrange(a as int, b as int), max as nat) { Some(v) => Some(v as u64), None => None::<u64> },
{
    let ghost t = s@.subrange(a as int, b as int);
    let start = if a < b && s[a] == '+' { a + 1 } else { a };
    let ghost digits = s@.subrange(start as int, b as int);
    assert(digits == if t.len() > 0 && t[0] == '+' { t.drop_first() } else { t });
    if start == b {
        return None;
    }
    let mut value: u64 = 0;
    let mut i = start;
    while i < b
        invariant
            start <= i <= b <= s@.len(),
            start < b,
            digits == s@.subrange(start as int, b as int),
            t == s@.subrange(a as int, b as int),
            digits == if t.len() > 0 && t[0] == '+' { t.drop_first() } else { t },
            forall|k: int| start <= k < i ==> is_digit(s@[k]),
            value == digits_value(digits.take(i - start)),
            value <= max,
        decreases b - i,
    {
        let c = s[i];
        if !('0' <= c && c <= '9') {
            assert(!all_digits(digits)) by { assert(!is_digit(digits[i - start])); }
            assert(parse_unsigned(t, max as nat) is None);
            return None;
        }
        let d = (c as u32 - '0' as u32) as u64;
        proof { lemma_digits_step(digits, i - start); }
        if d > max || value > (max - d) / 10 {
            proof {
                lemma_digits_grow(digits, i - start + 1, digits.len() as int);
                assert(digits.take(digits.len() as int) =~= digits);
                assert(value * 10 + d > max) by (nonlinear_arith)
                    requires d > max || value > (max - d) / 10, d <= 9;
                assert(digits_value(digits) > max);
                assert(parse_unsigned(t, max as nat) is None);
            }
            return None;
        }
        assert(value * 10 + d <= max) by (nonlinear_arith)
            requires value <= (max - d) / 10, d <= 9, d <= max;
        value = value * 10 + d;
        i = i + 1;
    }
    assert(digits.take(digits.len() as int) =~= digits);
    assert(all_digits(digits));
    Some(value)
}

} // verus!
