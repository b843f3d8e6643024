//! Big-endian fields and byte-sequence building blocks shared by the
//! container scanners.
use vstd::prelude::*;

verus! {

/// The big-endian value of two bytes at `off`.
pub open spec fn be16(s: Seq<u8>, off: int) -> int {
    s[off] * 256 + s[off + 1]
}

/// The big-endian value of four bytes at `off`.
pub open spec fn be32(s: Seq<u8>, off: int) -> int {
    s[off] * 16777216 + s[off + 1] * 65536 + s[off + 2] * 256 + s[off + 3]
}

/// The big-endian value of eight bytes at `off`.
pub open spec fn be64(s: Seq<u8>, off: int) -> int {
    be32(s, off) * 4294967296 + be32(s, off + 4)
}

/// The four big-endian bytes of `v`.
pub open spec fn be32_bytes(v: int) -> Seq<u8> {
    seq![(v / 16777216 % 256) as u8, (v / 65536 % 256) as u8, (v / 256 % 256) as u8, (v % 256) as u8]
}

/// The eight big-endian bytes of `v`.
pub open spec fn be64_bytes(v: int) -> Seq<u8> {
    be32_bytes(v / 4294967296) + be32_bytes(v % 4294967296)
}

/// The two big-endian bytes of `v`.
pub open spec fn be16_bytes(v: int) -> Seq<u8> {
    seq![(v / 256 % 256) as u8, (v % 256) as u8]
}

pub proof fn lemma_be32_bytes(v: int)
    requires
        0 <= v < 4294967296,
    ensures
        be32(be32_bytes(v), 0) == v,
        be32_bytes(v).len() == 4,
{
    let b = be32_bytes(v);
    assert(v == (v / 16777216 % 256) * 16777216 + (v / 65536 % 256) * 65536 + (v / 256 % 256) * 256 + v % 256) by (nonlinear_arith)
        requires 0 <= v < 4294967296;
}

pub fn read_u16(s: &[u8], off: usize) -> (r: u16)
    requires
        off + 2 <= s@.len(),
    ensures
        r == be16(s@, off as int),
{
    s[off] as u16 * 256 + s[off + 1] as u16
}

pub fn read_u32(s: &[u8], off: usize) -> (r: u32)
    requires
        off + 4 <= s@.len(),
    ensures
        r == be32(s@, off as int),
{
    s[off] as u32 * 16777216 + s[off + 1] as u32 * 65536 + s[off + 2] as u32 * 256 + s[off + 3] as u32
}

pub fn read_u64(s: &[u8], off: usize) -> (r: u64)
    requires
        off + 8 <= s@.len(),
    ensures
        r == be64(s@, off as int),
{
    let high = read_u32(s, off);
    assert(s@.len() == s.len());
    let low = read_u32(s, off + 4);
    high as u64 * 4294967296 + low as u64
}

pub fn u32_bytes(v: u32) -> (r: Vec<u8>)
    ensures
        r@ == be32_bytes(v as int),
{
    let r = vec![(v / 16777216 % 256) as u8, (v / 65536 % 256) as u8, (v / 256 % 256) as u8, (v % 256) as u8];
    assert(r@ =~= be32_bytes(v as int));
    r
}

pub fn u64_bytes(v: u64) -> (r: Vec<u8>)
    ensures
        r@ == be64_bytes(v as int),
{
    let mut r = u32_bytes((v / 4294967296) as u32);
    let low = u32_bytes((v % 4294967296) as u32);
    extend(&mut r, low.as_slice());
    r
}

pub fn u16_bytes(v: u16) -> (r: Vec<u8>)
    ensures
        r@ == be16_bytes(v as int),
{
    let r = vec![(v / 256 % 256) as u8, (v % 256) as u8];
    assert(r@ =~= be16_bytes(v as int));
    r
}

/// Appends `s` to `out`.
pub fn extend(out: &mut Vec<u8>, s: &[u8])
    ensures
        final(out)@ == old(out)@ + s@,
{
    let ghost start = out@;
    let mut i: usize = 0;
    while i < s.len()
        invariant
            i <= s@.len(),
            out@ == start + s@.take(i as int),
        decreases s@.len() - i,
    {
        out.push(s[i]);
        i = i + 1;
        assert(out@ =~= start + s@.take(i as int));
    }
    assert(s@.take(s@.len() as int) =~= s@);
}

/// Whether `s` begins with `prefix`.
pub fn starts_with(s: &[u8], prefix: &[u8]) -> (r: bool)
    ensures
        r == (prefix@.len() <= s@.len() && s@.take(prefix@.len() as int) == prefix@),
{
    if prefix.len() > s.len() {
        return false;
    }
    let mut i: usize = 0;
    while i < prefix.len()
        invariant
            prefix@.len() <= s@.len(),
            i <= prefix@.len(),
            forall|k: int| 0 <= k < i ==> s@[k] == prefix@[k],
        decreases prefix@.len() - i,
    {
        if s[i] != prefix[i] {
            assert(s@.take(prefix@.len() as int)[i as int] != prefix@[i as int]);
            return false;
        }
        i = i + 1;
    }
    assert(s@.take(prefix@.len() as int) =~= prefix@);
    true
}

/// Whether two byte strings are equal.
pub fn same_bytes(a: &[u8], b: &[u8]) -> (r: bool)
    ensures
        r == (a@ == b@),
{
    if a.len() != b.len() {
        return false;
    }
    let r = starts_with(a, b);
    proof {
        if r {
            assert(a@.take(b@.len() as int) =~= a@);
        } else {
            if a@ == b@ {
                assert(a@.take(b@.len() as int) =~= b@);
            }
        }
    }
    r
}

/// Index of the first byte equal to `b` at or after `from`, if any.
pub open spec fn find_byte(s: Seq<u8>, from: int, b: u8) -> Option<int>
    decreases s.len() - from,
{
    if from < 0 || from >= s.len() {
        None
    } else if s[from] == b {
        Some(from)
    } else {
        find_byte(s, from + 1, b)
    }
}

pub proof fn lemma_find_byte(s: Seq<u8>, from: int, b: u8)
    requires
        0 <= from,
    ensures
        find_byte(s, from, b) matches Some(k) ==> from <= k < s.len() && s[k] == b
            && forall|j: int| from <= j < k ==> s[j] != b,
        find_byte(s, from, b) is None ==> forall|j: int| from <= j < s.len() ==> s[j] != b,
    decreases s.len() - from,
{
    if from < s.len() && s[from] != b {
        lemma_find_byte(s, from + 1, b);
    }
}

pub fn position_of(s: &[u8], from: usize, b: u8) -> (r: Option<usize>)
    ensures
        r matches Some(k) ==> find_byte(s@, from as int, b) == Some(k as int),
        r is None ==> find_byte(s@, from as int, b) is None,
{
    let mut i = from;
    while i < s.len()
        invariant
            from <= i,
            find_byte(s@, from as int, b) == find_byte(s@, i as int, b),
        decreases s@.len() - i,
    {
        if s[i] == b {
            return Some(i);
        }
        i = i + 1;
    }
    None
}

} // verus!
