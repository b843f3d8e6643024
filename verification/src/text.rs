//! Text building blocks: UTF-8 facts, decimal rendering and string growth.
use vstd::prelude::*;
use vstd::utf8::*;

verus! {

/// Appends `t` to `s`.
pub(crate) fn push_str(s: &mut String, t: &str)
    ensures
        final(s)@ == old(s)@ + t@,
{
    s.append(t)
}

/// Appends one character.
/// Trusted: `String::push` appends `c` at the end.
#[verifier::external_body]
pub(crate) fn push_char(s: &mut String, c: char)
    ensures
        final(s)@ == old(s)@.push(c),
{
    s.push(c)
}

/// Decodes UTF-8 bytes.
/// Trusted: `String::from_utf8` succeeds exactly on valid UTF-8 and then holds
/// the characters those bytes encode.
#[verifier::external_body]
pub(crate) fn string_from_utf8(bytes: Vec<u8>) -> (r: Option<String>)
    ensures
        r is Some <==> valid_utf8(bytes@),
        r matches Some(s) ==> s@ == decode_utf8(bytes@),
{
    String::from_utf8(bytes).ok()
}

/// Copies a string slice into an owned string.
pub fn owned(t: &str) -> (r: String)
    ensures
        r@ == t@,
{
    let mut r = String::new();
    push_str(&mut r, t);
    r
}

/// The character of a decimal digit.
pub open spec fn digit_char(d: nat) -> char {
    if d == 0 { '0' }
    else if d == 1 { '1' }
    else if d == 2 { '2' }
    else if d == 3 { '3' }
    else if d == 4 { '4' }
    else if d == 5 { '5' }
    else if d == 6 { '6' }
    else if d == 7 { '7' }
    else if d == 8 { '8' }
    else { '9' }
}

/// Shortest decimal rendering of a natural number, as `to_string` prints it.
pub open spec fn dec(n: nat) -> Seq<char>
    decreases n,
{
    if n < 10 {
        seq![digit_char(n)]
    } else {
        dec(n / 10).push(digit_char(n % 10))
    }
}

/// Decimal rendering of an integer, with a leading '-' below zero.
pub open spec fn signed_dec(n: int) -> Seq<char> {
    if n < 0 {
        seq!['-'] + dec((-n) as nat)
    } else {
        dec(n as nat)
    }
}

fn digit(d: u64) -> (c: char)
    requires
        d < 10,
    ensures
        c == digit_char(d as nat),
{
    if d == 0 { '0' }
    else if d == 1 { '1' }
    else if d == 2 { '2' }
    else if d == 3 { '3' }
    else if d == 4 { '4' }
    else if d == 5 { '5' }
    else if d == 6 { '6' }
    else if d == 7 { '7' }
    else if d == 8 { '8' }
    else { '9' }
}

/// Appends the decimal digits of `n`.
pub fn push_dec(s: &mut String, n: u64)
    ensures
        final(s)@ == old(s)@ + dec(n as nat),
    decreases n,
{
    if n < 10 {
        push_char(s, digit(n));
    } else {
        push_dec(s, n / 10);
        push_char(s, digit(n % 10));
        assert(old(s)@ + dec((n / 10) as nat) + seq![digit_char((n % 10) as nat)]
            =~= old(s)@ + dec(n as nat));
    }
}

/// Appends the decimal rendering of a signed number.
pub fn push_signed_dec(s: &mut String, n: i64)
    ensures
        final(s)@ == old(s)@ + signed_dec(n as int),
{
    if n < 0 {
        push_char(s, '-');
        let magnitude: u64 = if n == i64::MIN { 9223372036854775808u64 } else { (-n) as u64 };
        push_dec(s, magnitude);
        assert(old(s)@.push('-') + dec(magnitude as nat) =~= old(s)@ + (seq!['-'] + dec(magnitude as nat)));
    } else {
        push_dec(s, n as u64);
    }
}

/// Appends the decimal digits of a 128-bit number.
pub fn push_dec_wide(s: &mut String, n: u128)
    ensures
        final(s)@ == old(s)@ + dec(n as nat),
    decreases n,
{
    if n < 10 {
        push_char(s, digit(n as u64));
    } else {
        push_dec_wide(s, n / 10);
        push_char(s, digit((n % 10) as u64));
        assert(old(s)@ + dec((n / 10) as nat) + seq![digit_char((n % 10) as nat)]
            =~= old(s)@ + dec(n as nat));
    }
}

/// Appends the decimal rendering of a signed 128-bit number.
pub fn push_signed_wide(s: &mut String, n: i128)
    ensures
        final(s)@ == old(s)@ + signed_dec(n as int),
{
    if n < 0 {
        push_char(s, '-');
        let magnitude: u128 = if n == i128::MIN { 170141183460469231731687303715884105728u128 } else { (-n) as u128 };
        push_dec_wide(s, magnitude);
        assert(old(s)@.push('-') + dec(magnitude as nat) =~= old(s)@ + (seq!['-'] + dec(magnitude as nat)));
    } else {
        push_dec_wide(s, n as u128);
    }
}

/// The decimal rendering of `n`.
pub fn decimal(n: u64) -> (r: String)
    ensures
        r@ == dec(n as nat),
{
    let mut r = String::new();
    push_dec(&mut r, n);
    assert(Seq::<char>::empty() + dec(n as nat) =~= dec(n as nat));
    r
}

/// No character of `s` is NUL.
pub open spec fn no_nul(s: Seq<char>) -> bool {
    forall|i: int| 0 <= i < s.len() ==> s[i] != '\0'
}

proof fn lemma_scalar_nul(c: char)
    ensures
        encode_scalar(c as u32).contains(0u8) <==> c == '\0',
{
    broadcast use char_is_scalar;
    let v = c as u32;
    let e = encode_scalar(v);
    if has_width_1_encoding(v) {
        assert(e[0] == (v & 0x7F) as u8);
        assert(v <= 0x7F ==> ((v & 0x7F) as u8 == 0 <==> v == 0)) by (bit_vector);
        if e.contains(0u8) {
            let k = choose|k: int| 0 <= k < e.len() && e[k] == 0u8;
            assert(k == 0);
        }
        if c == '\0' {
            assert(e[0] == 0u8);
        }
    } else {
        assert(0xC0 | ((v >> 6) & 0x1F) as u8 != 0) by (bit_vector);
        assert(0xE0 | ((v >> 12) & 0x0F) as u8 != 0) by (bit_vector);
        assert(0xF0 | ((v >> 18) & 0x7) as u8 != 0) by (bit_vector);
        assert(0x80 | (v & 0x3F) as u8 != 0) by (bit_vector);
        assert(0x80 | ((v >> 6) & 0x3F) as u8 != 0) by (bit_vector);
        assert(0x80 | ((v >> 12) & 0x3F) as u8 != 0) by (bit_vector);
        assert(forall|k: int| 0 <= k < e.len() ==> e[k] != 0u8);
        assert(c != '\0');
    }
}

/// A NUL byte occurs in UTF-8 exactly where a NUL character is encoded.
pub proof fn lemma_nul_bytes(s: Seq<char>)
    ensures
        encode_utf8(s).contains(0u8) <==> !no_nul(s),
    decreases s.len(),
{
    if s.len() == 0 {
        assert(!encode_utf8(s).contains(0u8));
    } else {
        lemma_scalar_nul(s[0]);
        lemma_nul_bytes(s.drop_first());
        let head = encode_scalar(s[0] as u32);
        let tail = encode_utf8(s.drop_first());
        assert(encode_utf8(s) == head + tail);
        if (head + tail).contains(0u8) {
            let k = choose|k: int| 0 <= k < (head + tail).len() && (head + tail)[k] == 0u8;
            if k < head.len() {
                assert(head[k] == 0u8);
                assert(head.contains(0u8));
            } else {
                assert(tail[k - head.len()] == 0u8);
                assert(tail.contains(0u8));
                let j = choose|j: int| 0 <= j < s.drop_first().len() && s.drop_first()[j] == '\0';
                assert(s[j + 1] == '\0');
            }
        }
        if !no_nul(s) {
            let j = choose|j: int| 0 <= j < s.len() && s[j] == '\0';
            if j == 0 {
                let k = choose|k: int| 0 <= k < head.len() && head[k] == 0u8;
                assert((head + tail)[k] == 0u8);
            } else {
                assert(s.drop_first()[j - 1] == '\0');
                let k = choose|k: int| 0 <= k < tail.len() && tail[k] == 0u8;
                assert((head + tail)[k + head.len()] == 0u8);
            }
        }
    }
}

/// Whether the text holds a NUL character.
pub fn contains_nul(t: &str) -> (r: bool)
    ensures
        r == !no_nul(t@),
{
    let bytes = t.as_bytes();
    let mut i: usize = 0;
    while i < bytes.len()
        invariant
            bytes@ == encode_utf8(t@),
            i <= bytes@.len(),
            forall|k: int| 0 <= k < i ==> bytes@[k] != 0u8,
        decreases bytes@.len() - i,
    {
        if bytes[i] == 0 {
            proof {
                lemma_nul_bytes(t@);
                assert(bytes@[i as int] == 0u8);
            }
            return true;
        }
        i = i + 1;
    }
    proof {
        lemma_nul_bytes(t@);
        assert(!bytes@.contains(0u8));
    }
    false
}

} // verus!

verus! {

/// ASCII lowercase of one byte; other bytes are unchanged.
pub open spec fn fold_byte(b: u8) -> u8 {
    if 65 <= b <= 90 { (b + 32) as u8 } else { b }
}

/// Byte sequences equal up to ASCII case, as `eq_ignore_ascii_case` compares them.
pub open spec fn same_ignoring_ascii_case(a: Seq<u8>, b: Seq<u8>) -> bool {
    a.len() == b.len() && forall|i: int| 0 <= i < a.len() ==> fold_byte(#[trigger] a[i]) == fold_byte(b[i])
}

pub fn fold(b: u8) -> (r: u8)
    ensures
        r == fold_byte(b),
{
    if 65 <= b && b <= 90 { b + 32 } else { b }
}

/// Compares two byte strings up to ASCII case.
pub fn bytes_eq_ignore_case(a: &[u8], b: &[u8]) -> (r: bool)
    ensures
        r == same_ignoring_ascii_case(a@, b@),
{
    if a.len() != b.len() {
        return false;
    }
    let mut i: usize = 0;
    while i < a.len()
        invariant
            a@.len() == b@.len(),
            i <= a@.len(),
            forall|k: int| 0 <= k < i ==> fold_byte(#[trigger] a@[k]) == fold_byte(b@[k]),
        decreases a@.len() - i,
    {
        if fold(a[i]) != fold(b[i]) {
            return false;
        }
        i = i + 1;
    }
    true
}

/// Compares two texts up to ASCII case of their UTF-8 bytes.
pub fn eq_ignore_case(a: &str, b: &str) -> (r: bool)
    ensures
        r == same_ignoring_ascii_case(encode_utf8(a@), encode_utf8(b@)),
{
    bytes_eq_ignore_case(a.as_bytes(), b.as_bytes())
}

/// Largest character boundary of `b` at or below `n`.
pub open spec fn floor_boundary(b: Seq<u8>, n: int) -> int
    decreases n,
{
    if n <= 0 {
        0
    } else if n <= b.len() && is_char_boundary(b, n) {
        n
    } else {
        floor_boundary(b, n - 1)
    }
}

/// The longest prefix of at most `limit` UTF-8 bytes that ends between
/// characters, and whether anything was cut.
pub fn bounded_prefix(t: &str, limit: usize) -> (r: (String, bool))
    ensures
        encode_utf8(r.0@) == encode_utf8(t@).take(floor_boundary(encode_utf8(t@), limit as int)),
        r.1 == (encode_utf8(t@).len() > limit),
{
    let bytes = t.as_bytes();
    let mut i: usize = if bytes.len() < limit { bytes.len() } else { limit };
    proof {
        let b = encode_utf8(t@);
        if limit > b.len() {
            lemma_floor_above(b, limit as int);
        }
    }
    while i > 0 && !t.is_char_boundary(i)
        invariant
            bytes@ == encode_utf8(t@),
            i <= bytes@.len(),
            i <= limit,
            floor_boundary(encode_utf8(t@), limit as int) == floor_boundary(encode_utf8(t@), i as int),
        decreases i,
    {
        i = i - 1;
    }
    proof {
        encode_utf8_valid_utf8(t@);
    }
    let (head, _) = t.split_at(i);
    proof {
        encode_utf8_decode_utf8(head@);
    }
    (owned(head), bytes.len() > limit)
}

proof fn lemma_floor_above(b: Seq<u8>, n: int)
    requires
        n > b.len(),
    ensures
        floor_boundary(b, n) == floor_boundary(b, b.len() as int),
    decreases n,
{
    if n - 1 > b.len() {
        lemma_floor_above(b, n - 1);
    }
}

} // verus!

verus! {

/// Byte-wise equality of two slices.
pub fn bytes_equal(a: &[u8], b: &[u8]) -> (r: bool)
    ensures
        r == (a@ == b@),
{
    if a.len() != b.len() {
        return false;
    }
    let mut i: usize = 0;
    while i < a.len()
        invariant
            a@.len() == b@.len(),
            i <= a@.len(),
            forall|k: int| 0 <= k < i ==> a@[k] == b@[k],
        decreases a@.len() - i,
    {
        if a[i] != b[i] {
            return false;
        }
        i = i + 1;
    }
    assert(a@ =~= b@);
    true
}

/// Equality of two texts.
pub fn same_text(a: &str, b: &str) -> (r: bool)
    ensures
        r == (a@ == b@),
{
    let r = bytes_equal(a.as_bytes(), b.as_bytes());
    proof {
        encode_utf8_decode_utf8(a@);
        encode_utf8_decode_utf8(b@);
    }
    r
}

/// Whether a text is empty.
pub fn text_is_empty(a: &str) -> (r: bool)
    ensures
        r == (a@.len() == 0),
{
    proof {
        if a@.len() > 0 {
            encode_utf8_first_scalar(a@);
            assert(encode_utf8(a@) == encode_scalar(a@[0] as u32) + encode_utf8(a@.drop_first()));
        }
    }
    a.as_bytes().len() == 0
}

} // verus!

verus! {

/// The characters of a text.
pub fn chars_of(t: &str) -> (r: Vec<char>)
    ensures
        r@ == t@,
{
    broadcast use vstd::string::group_string_axioms;
    let mut r: Vec<char> = Vec::new();
    for c in it: t.chars()
        invariant
            r@ == it.seq().take(it.index() as int),
    {
        r.push(c);
        assert(r@ =~= it.seq().take(it.index() as int + 1));
    }
    assert(r@ =~= t@);
    r
}

} // verus!
