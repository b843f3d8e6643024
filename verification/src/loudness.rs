//! Reading a loudness analysis from the encoder's diagnostics: the
//! measurement blocks that the normalizer prints, and the named values in
//! them, as text. Turning that text into numbers is the caller's part.
use crate::audio_options::{statistic_values, statistics_of, sub_chars};
use crate::metadata::strings_view;
use crate::parse::{
    after_first, find_from, find_in, lemma_find_from, lemma_find_shift, lemma_trim_start, matches_at, split_lines, string_of, strip_prefix,
    trim, trim_bounds, trim_start, is_space, is_space_char, line_bounds,
};
use crate::text::chars_of;
use vstd::prelude::*;

verus! {

/// The marker before each measurement block of the normalizer.
pub const MEASUREMENT_MARK: &'static str = "[loudnorm@towavue_loudness @ ";

/// The pieces of `s` between occurrences of `p`, as `str::split` yields them.
pub open spec fn split_pieces(s: Seq<char>, p: Seq<char>) -> Seq<Seq<char>>
    decreases s.len(),
{
    if p.len() == 0 {
        seq![s]
    } else {
        match find_from(s, p, 0) {
            Some(i) => if 0 <= i && i + p.len() <= s.len() {
                seq![s.take(i)] + split_pieces(s.skip(i + p.len()), p)
            } else {
                seq![s]
            },
            None => seq![s],
        }
    }
}

/// The block of a piece after a marker: after the first `]` and any white
/// space, the text between `{` and the first `}`.
pub open spec fn block_of(piece: Seq<char>) -> Option<Seq<char>> {
    match after_first(piece, "]"@) {
        None => None,
        Some(rest) => match strip_prefix(trim_start(rest), "{"@) {
            None => None,
            Some(u) => match find_from(u, "}"@, 0) {
                Some(k) => Some(u.take(k)),
                None => None,
            },
        },
    }
}

/// The blocks of the pieces that have one, in order.
pub open spec fn blocks_of(pieces: Seq<Seq<char>>) -> Seq<Seq<char>>
    decreases pieces.len(),
{
    if pieces.len() == 0 {
        Seq::empty()
    } else {
        (match block_of(pieces[0]) {
            Some(b) => seq![b],
            None => Seq::empty(),
        }) + blocks_of(pieces.drop_first())
    }
}

/// The measurement blocks of a log: one for each marker that a block follows.
pub open spec fn measurement_blocks(log: Seq<char>) -> Seq<Seq<char>> {
    blocks_of(split_pieces(log, MEASUREMENT_MARK@).drop_first())
}

fn block_in(piece: &Vec<char>) -> (r: Option<Vec<char>>)
    ensures
        r matches Some(b) ==> block_of(piece@) == Some(b@),
        r is None ==> block_of(piece@) is None,
{
    let close = chars_of("]");
    let k = match find_in(piece, &close, 0) {
        Some(k) => k,
        None => return None,
    };
    proof {
        reveal_strlit("]");
        assert(close@ == "]"@);
    }
    let n = piece.len();
    let mut i = k + 1;
    while i < n && is_space_char(piece[i])
        invariant
            k + 1 <= i <= n,
            n == piece@.len(),
            forall|m: int| k + 1 <= m < i ==> is_space(piece@[m]),
        decreases n - i,
    {
        i = i + 1;
    }
    let ghost rest = piece@.skip(k + 1);
    proof {
        assert(after_first(piece@, "]"@) == Some(rest));
        lemma_trim_start(rest, i - k - 1);
        assert(rest.skip(i - k - 1) =~= piece@.skip(i as int));
        if i < n {
            assert(piece@.skip(i as int)[0] == piece@[i as int]);
        }
        assert(trim_start(rest) == piece@.skip(i as int));
        reveal_strlit("{");
        reveal_strlit("}");
    }
    if i >= n || piece[i] != '{' {
        proof {
            if i < n {
                assert(!matches_at(piece@.skip(i as int), "{"@, 0)) by {
                    assert(piece@.skip(i as int).subrange(0, 1)[0] == piece@[i as int]);
                }
            }
        }
        return None;
    }
    let u_start = i + 1;
    let ghost u = piece@.skip(u_start as int);
    proof {
        assert(piece@.skip(i as int).subrange(0, 1) =~= "{"@);
        assert(piece@.skip(i as int).skip(1) =~= u);
        assert(strip_prefix(piece@.skip(i as int), "{"@) == Some(u));
    }
    let brace = chars_of("}");
    assert(brace@ == "}"@);
    proof {
        lemma_find_shift(piece@, "}"@, u_start as int, u_start as int);
        lemma_find_from(piece@, "}"@, u_start as int);
    }
    match find_in(piece, &brace, u_start) {
        Some(m) => {
            let b = sub_chars(piece, u_start, m);
            assert(b@ =~= u.take(m - u_start));
            Some(b)
        },
        None => None,
    }
}

/// The measurement blocks that the normalizer printed, in order.
pub fn measurement_texts(log: &str) -> (r: Vec<String>)
    ensures
        strings_view(r@) == measurement_blocks(log@),
{
    let text = chars_of(log);
    let mark = chars_of(MEASUREMENT_MARK);
    proof {
        reveal_strlit("[loudnorm@towavue_loudness @ ");
    }
    let ghost p = MEASUREMENT_MARK@;
    assert(mark@ == p);
    assert(p.len() > 0);
    let mut r: Vec<String> = Vec::new();
    let first = match find_in(&text, &mark, 0) {
        Some(k) => k,
        None => {
            assert(split_pieces(text@, p) == seq![text@]);
            assert(seq![text@].drop_first() =~= Seq::<Seq<char>>::empty());
            return r;
        },
    };
    let n = text.len();
    let mut cur = first + mark.len();
    proof {
        assert(text@.skip(0) =~= text@);
        assert(split_pieces(text@, p).drop_first() =~= split_pieces(text@.skip(cur as int), p));
        assert(Seq::<Seq<char>>::empty() + blocks_of(split_pieces(text@.skip(cur as int), p))
            =~= blocks_of(split_pieces(text@.skip(cur as int), p)));
    }
    loop
        invariant
            n == text@.len(),
            cur <= n,
            mark@ == p,
            p.len() > 0,
            measurement_blocks(log@) == strings_view(r@) + blocks_of(split_pieces(text@.skip(cur as int), p)),
            text@ == log@,
        decreases n - cur,
    {
        let next = find_in(&text, &mark, cur);
        proof {
            lemma_find_shift(text@, p, cur as int, cur as int);
            lemma_find_from(text@, p, cur as int);
            assert(text@.skip(cur as int).skip(0) =~= text@.skip(cur as int));
        }
        let end = match next {
            Some(k) => k,
            None => n,
        };
        let piece = sub_chars(&text, cur, end);
        let ghost rest = text@.skip(cur as int);
        let ghost pieces = split_pieces(rest, p);
        proof {
            match next {
                Some(k) => {
                    assert(piece@ =~= rest.take(k - cur));
                    assert(rest.skip(k - cur + p.len()) =~= text@.skip(k + p.len()));
                    assert(pieces == seq![piece@] + split_pieces(text@.skip(k + p.len()), p));
                },
                None => {
                    assert(piece@ =~= rest);
                    assert(pieces == seq![piece@]);
                },
            }
            assert(pieces[0] == piece@);
            assert(pieces.drop_first() == match next {
                Some(k) => split_pieces(text@.skip(k + p.len()), p),
                None => Seq::<Seq<char>>::empty(),
            }) by {
                match next {
                    Some(k) => { assert((seq![piece@] + split_pieces(text@.skip(k + p.len()), p)).drop_first() =~= split_pieces(text@.skip(k + p.len()), p)); },
                    None => { assert(seq![piece@].drop_first() =~= Seq::<Seq<char>>::empty()); },
                }
            }
        }
        let ghost before = strings_view(r@);
        match block_in(&piece) {
            Some(b) => {
                r.push(string_of(b.as_slice()));
                assert(strings_view(r@) =~= before.push(b@));
                assert(measurement_blocks(log@) == strings_view(r@) + blocks_of(pieces.drop_first())) by {
                    assert(before + (seq![b@] + blocks_of(pieces.drop_first())) =~= before.push(b@) + blocks_of(pieces.drop_first()));
                }
            },
            None => {
                assert(measurement_blocks(log@) == strings_view(r@) + blocks_of(pieces.drop_first())) by {
                    assert(Seq::<Seq<char>>::empty() + blocks_of(pieces.drop_first()) =~= blocks_of(pieces.drop_first()));
                }
            },
        }
        match next {
            Some(k) => {
                cur = k + mark.len();
            },
            None => {
                assert(blocks_of(Seq::<Seq<char>>::empty()) =~= Seq::<Seq<char>>::empty());
                assert(strings_view(r@) + Seq::<Seq<char>>::empty() =~= strings_view(r@));
                return r;
            },
        }
    }
}


/// `s` without leading copies of `c`.
pub open spec fn strip_start_char(s: Seq<char>, c: char) -> Seq<char>
    decreases s.len(),
{
    if s.len() > 0 && s[0] == c { strip_start_char(s.drop_first(), c) } else { s }
}

/// `s` without trailing copies of `c`.
pub open spec fn strip_end_char(s: Seq<char>, c: char) -> Seq<char>
    decreases s.len(),
{
    if s.len() > 0 && s.last() == c { strip_end_char(s.drop_last(), c) } else { s }
}

/// The value of a `"key": value` line of a block: what follows the first
/// colon, without surrounding white space, trailing commas and surrounding
/// quotes, when the text before the colon is the quoted key.
pub open spec fn named_value(line: Seq<char>, key: Seq<char>) -> Option<Seq<char>> {
    let t = trim(line);
    match find_from(t, ":"@, 0) {
        None => None,
        Some(i) => if trim(t.take(i)) == seq!['"'] + key + seq!['"'] {
            Some(strip_end_char(strip_start_char(strip_end_char(trim(t.skip(i + 1)), ','), '"'), '"'))
        } else {
            None
        },
    }
}

/// The values of a key on each line that names it, in order.
pub open spec fn named_values(lines: Seq<Seq<char>>, key: Seq<char>) -> Seq<Seq<char>>
    decreases lines.len(),
{
    if lines.len() == 0 {
        Seq::empty()
    } else {
        let rest = named_values(lines.drop_last(), key);
        match named_value(lines.last(), key) {
            Some(v) => rest.push(v),
            None => rest,
        }
    }
}

proof fn lemma_strip_end(x: Seq<char>, c: char, j: int)
    requires
        0 <= j <= x.len(),
        forall|k: int| j <= k < x.len() ==> x[k] == c,
    ensures
        strip_end_char(x, c) == strip_end_char(x.take(j), c),
    decreases x.len() - j,
{
    if j < x.len() {
        lemma_strip_end(x.drop_last(), c, j);
        assert(x.drop_last().take(j) =~= x.take(j));
    } else {
        assert(x.take(j) =~= x);
    }
}

proof fn lemma_strip_start(x: Seq<char>, c: char, i: int)
    requires
        0 <= i <= x.len(),
        forall|k: int| 0 <= k < i ==> x[k] == c,
    ensures
        strip_start_char(x, c) == strip_start_char(x.skip(i), c),
    decreases i,
{
    if i > 0 {
        lemma_strip_start(x.drop_first(), c, i - 1);
        assert(x.drop_first().skip(i - 1) =~= x.skip(i));
    } else {
        assert(x.skip(0) =~= x);
    }
}

fn same_chars(a: &Vec<char>, b: &Vec<char>) -> (r: bool)
    ensures
        r == (a@ == b@),
{
    if a.len() != b.len() {
        return false;
    }
    let mut i: usize = 0;
    while i < a.len()
        invariant
            i <= a@.len(),
            a@.len() == b@.len(),
            forall|k: int| 0 <= k < i ==> a@[k] == b@[k],
        decreases a@.len() - i,
    {
        if a[i] != b[i] {
            return false;
        }
        i = i + 1;
    }
    assert(a@ =~= b@);
    true
}

fn line_value(line: &Vec<char>, key: &Vec<char>) -> (r: Option<Vec<char>>)
    ensures
        r matches Some(v) ==> named_value(line@, key@) == Some(v@),
        r is None ==> named_value(line@, key@) is None,
{
    let (a, b) = trim_bounds(line, 0, line.len());
    let t = sub_chars(line, a, b);
    assert(line@.subrange(0, line@.len() as int) =~= line@);
    let colon = chars_of(":");
    proof {
        reveal_strlit(":");
    }
    let i = match find_in(&t, &colon, 0) {
        Some(i) => i,
        None => return None,
    };
    proof {
        lemma_find_from(t@, ":"@, 0);
    }
    let (na, nb) = trim_bounds(&t, 0, i);
    let name = sub_chars(&t, na, nb);
    assert(t@.subrange(0, i as int) =~= t@.take(i as int));
    let mut expected: Vec<char> = Vec::new();
    expected.push('"');
    let mut k: usize = 0;
    while k < key.len()
        invariant
            k <= key@.len(),
            expected@ == seq!['"'] + key@.take(k as int),
        decreases key@.len() - k,
    {
        expected.push(key[k]);
        assert(expected@ =~= seq!['"'] + key@.take(k as int + 1));
        k = k + 1;
    }
    expected.push('"');
    assert(expected@ =~= seq!['"'] + key@ + seq!['"']);
    if !same_chars(&name, &expected) {
        return None;
    }
    let (va, vb) = trim_bounds(&t, i + 1, t.len());
    assert(t@.subrange(i as int + 1, t@.len() as int) =~= t@.skip(i as int + 1));
    let ghost x = t@.subrange(va as int, vb as int);
    let mut e = vb;
    while e > va && t[e - 1] == ','
        invariant
            va <= e <= vb <= t@.len(),
            forall|m: int| e <= m < vb ==> t@[m] == ',',
        decreases e,
    {
        e = e - 1;
    }
    proof {
        lemma_strip_end(x, ',', e - va);
        assert(x.take(e - va) =~= t@.subrange(va as int, e as int));
        if e > va {
            assert(t@.subrange(va as int, e as int).last() == t@[e - 1]);
        }
    }
    let ghost y = t@.subrange(va as int, e as int);
    assert(strip_end_char(x, ',') == y);
    let mut s0 = va;
    while s0 < e && t[s0] == '"'
        invariant
            va <= s0 <= e <= t@.len(),
            forall|m: int| va <= m < s0 ==> t@[m] == '"',
        decreases e - s0,
    {
        s0 = s0 + 1;
    }
    proof {
        lemma_strip_start(y, '"', s0 - va);
        assert(y.skip(s0 - va) =~= t@.subrange(s0 as int, e as int));
        if s0 < e {
            assert(t@.subrange(s0 as int, e as int)[0] == t@[s0 as int]);
        }
    }
    let ghost z = t@.subrange(s0 as int, e as int);
    assert(strip_start_char(y, '"') == z);
    let mut e2 = e;
    while e2 > s0 && t[e2 - 1] == '"'
        invariant
            s0 <= e2 <= e <= t@.len(),
            forall|m: int| e2 <= m < e ==> t@[m] == '"',
        decreases e2,
    {
        e2 = e2 - 1;
    }
    proof {
        lemma_strip_end(z, '"', e2 - s0);
        assert(z.take(e2 - s0) =~= t@.subrange(s0 as int, e2 as int));
        if e2 > s0 {
            assert(t@.subrange(s0 as int, e2 as int).last() == t@[e2 - 1]);
        }
    }
    Some(sub_chars(&t, s0, e2))
}

/// The values that a measurement block gives a key, in order.
pub fn measured_values(block: &str, key: &str) -> (r: Vec<String>)
    ensures
        strings_view(r@) == named_values(split_lines(block@), key@),
{
    let text = chars_of(block);
    let key = chars_of(key);
    let bounds = line_bounds(&text);
    let ghost lines = split_lines(text@);
    let mut r: Vec<String> = Vec::new();
    let mut i: usize = 0;
    while i < bounds.len()
        invariant
            i <= bounds@.len(),
            bounds@.len() == lines.len(),
            lines == split_lines(text@),
            forall|k: int| 0 <= k < bounds@.len() ==> {
                &&& (#[trigger] bounds@[k]).0 <= bounds@[k].1 <= text@.len()
                &&& text@.subrange(bounds@[k].0 as int, bounds@[k].1 as int) == lines[k]
            },
            strings_view(r@) == named_values(lines.take(i as int), key@),
        decreases bounds@.len() - i,
    {
        let (a, b) = bounds[i];
        let line = sub_chars(&text, a, b);
        let ghost prev = r@;
        assert(lines.take(i as int + 1).drop_last() =~= lines.take(i as int));
        match line_value(&line, &key) {
            Some(value) => {
                r.push(string_of(value.as_slice()));
                assert(strings_view(r@) =~= strings_view(prev).push(value@));
            },
            None => {},
        }
        i = i + 1;
    }
    assert(lines.take(lines.len() as int) =~= lines);
    r
}


/// The one text of a list, or `None` when it has none or several: a
/// measurement is ambiguous unless each of its pieces appears once.
pub fn only_text(mut values: Vec<String>) -> (r: Option<String>)
    ensures
        r is Some <==> values@.len() == 1,
        r matches Some(t) ==> t@ == values@[0]@,
{
    if values.len() == 1 {
        values.pop()
    } else {
        None
    }
}

/// The single measurement block of a normalizer log, or `None` when it
/// printed none or several.
pub fn single_block(log: &str) -> (r: Option<String>)
    ensures
        r is Some <==> measurement_blocks(log@).len() == 1,
        r matches Some(b) ==> b@ == measurement_blocks(log@)[0],
{
    let blocks = measurement_texts(log);
    only_text(blocks)
}

/// The single value a block gives a key, or `None` when it gives none or
/// several.
pub fn single_value(block: &str, key: &str) -> (r: Option<String>)
    ensures
        r is Some <==> named_values(split_lines(block@), key@).len() == 1,
        r matches Some(v) ==> v@ == named_values(split_lines(block@), key@)[0],
{
    let values = measured_values(block, key);
    only_text(values)
}

/// The single value of a statistic, or `None` when the log gives none or
/// several.
pub fn single_statistic(log: &str, prefix: &str, name: &str) -> (r: Option<String>)
    ensures
        r is Some <==> statistics_of(split_lines(log@), prefix@, name@).len() == 1,
        r matches Some(v) ==> v@ == statistics_of(split_lines(log@), prefix@, name@)[0],
{
    let values = statistic_values(log, prefix, name);
    only_text(values)
}
} // verus!
