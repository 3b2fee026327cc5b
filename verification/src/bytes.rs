//! Fixed-width big- and little-endian integers inside byte sequences.

use vstd::prelude::*;

verus! {

/// The 16-bit big-endian integer at `i`.
pub open spec fn be16(s: Seq<u8>, i: int) -> int {
    s[i] * 0x100 + s[i + 1]
}

/// The 24-bit big-endian integer at `i`.
pub open spec fn be24(s: Seq<u8>, i: int) -> int {
    s[i] * 0x1_0000 + s[i + 1] * 0x100 + s[i + 2]
}

/// The 32-bit big-endian integer at `i`.
pub open spec fn be32(s: Seq<u8>, i: int) -> int {
    s[i] * 0x100_0000 + s[i + 1] * 0x1_0000 + s[i + 2] * 0x100 + s[i + 3]
}

/// The 64-bit big-endian integer at `i`.
pub open spec fn be64(s: Seq<u8>, i: int) -> int {
    be32(s, i) * 0x1_0000_0000 + be32(s, i + 4)
}

/// The 32-bit little-endian integer at `i`.
pub open spec fn le32(s: Seq<u8>, i: int) -> int {
    s[i + 3] * 0x100_0000 + s[i + 2] * 0x1_0000 + s[i + 1] * 0x100 + s[i]
}

/// The four big-endian bytes of `n` taken modulo 2^32.
pub open spec fn be32_bytes(n: int) -> Seq<u8> {
    seq![
        (n / 0x100_0000 % 0x100) as u8,
        (n / 0x1_0000 % 0x100) as u8,
        (n / 0x100 % 0x100) as u8,
        (n % 0x100) as u8,
    ]
}

/// Writing a 32-bit integer and reading it back gives the integer modulo 2^32.
pub proof fn be32_round_trip(n: int, rest: Seq<u8>)
    requires
        0 <= n,
    ensures
        be32_bytes(n).len() == 4,
        be32(be32_bytes(n) + rest, 0) == n % 0x1_0000_0000,
{
    let n1 = n / 0x100;
    let n2 = n1 / 0x100;
    let n3 = n2 / 0x100;
    let n4 = n3 / 0x100;
    assert(n2 == n / 0x1_0000 && n3 == n / 0x100_0000 && n4 == n / 0x1_0000_0000);
    assert(n == n4 * 0x1_0000_0000 + n3 % 0x100 * 0x100_0000 + n2 % 0x100 * 0x1_0000 + n1 % 0x100
        * 0x100 + n % 0x100);
    let s = be32_bytes(n) + rest;
    assert(s[0] == n3 % 0x100 && s[1] == n2 % 0x100 && s[2] == n1 % 0x100 && s[3] == n % 0x100);
}

/// Only the value modulo 2^32 counts for the four bytes.
pub proof fn be32_bytes_mod(n: int)
    requires
        0 <= n,
    ensures
        be32_bytes(n) == be32_bytes(n % 0x1_0000_0000),
{
    let m = n % 0x1_0000_0000;
    let q = n / 0x1_0000_0000;
    assert(n == q * 0x1_0000_0000 + m);
    assert(n / 0x100_0000 == q * 0x100 + m / 0x100_0000);
    assert(n / 0x1_0000 == q * 0x1_0000 + m / 0x1_0000);
    assert(n / 0x100 == q * 0x100_0000 + m / 0x100);
    assert(be32_bytes(n) =~= be32_bytes(m));
}

pub fn read_be16(s: &[u8], i: usize) -> (n: u16)
    requires
        i + 2 <= s@.len(),
    ensures
        n == be16(s@, i as int),
{
    s[i] as u16 * 0x100 + s[i + 1] as u16
}

pub fn read_be24(s: &[u8], i: usize) -> (n: u32)
    requires
        i + 3 <= s@.len(),
    ensures
        n == be24(s@, i as int),
        n < 0x100_0000,
{
    s[i] as u32 * 0x1_0000 + s[i + 1] as u32 * 0x100 + s[i + 2] as u32
}

pub fn read_be32(s: &[u8], i: usize) -> (n: u32)
    requires
        i + 4 <= s@.len(),
    ensures
        n == be32(s@, i as int),
{
    s[i] as u32 * 0x100_0000 + s[i + 1] as u32 * 0x1_0000 + s[i + 2] as u32 * 0x100
        + s[i + 3] as u32
}

pub fn read_be64(s: &[u8], i: usize) -> (n: u64)
    requires
        i + 8 <= s@.len(),
    ensures
        n == be64(s@, i as int),
{
    assert(s.len() == s@.len());
    read_be32(s, i) as u64 * 0x1_0000_0000 + read_be32(s, i + 4) as u64
}

pub fn read_le32(s: &[u8], i: usize) -> (n: u32)
    requires
        i + 4 <= s@.len(),
    ensures
        n == le32(s@, i as int),
{
    assert(s.len() == s@.len());
    s[i + 3] as u32 * 0x100_0000 + s[i + 2] as u32 * 0x1_0000 + s[i + 1] as u32 * 0x100
        + s[i] as u32
}

/// Appends the four big-endian bytes of `n`.
pub fn push_be32(out: &mut Vec<u8>, n: u32)
    ensures
        final(out)@ == old(out)@ + be32_bytes(n as int),
{
    out.push((n / 0x100_0000 % 0x100) as u8);
    out.push((n / 0x1_0000 % 0x100) as u8);
    out.push((n / 0x100 % 0x100) as u8);
    out.push((n % 0x100) as u8);
    assert(out@ =~= old(out)@ + be32_bytes(n as int));
}

/// Appends a copy of `more`.
pub fn push_bytes(out: &mut Vec<u8>, more: &[u8])
    ensures
        final(out)@ == old(out)@ + more@,
{
    out.extend_from_slice(more);
    assert(out@ =~= old(out)@ + more@);
}

/// A copy of `s`.
pub fn copy_bytes(s: &[u8]) -> (v: Vec<u8>)
    ensures
        v@ == s@,
{
    let mut v: Vec<u8> = Vec::new();
    push_bytes(&mut v, s);
    assert(v@ =~= s@);
    v
}

/// Whether two byte strings are the same.
pub fn same_bytes(a: &[u8], b: &[u8]) -> (r: bool)
    ensures
        r == (a@ == b@),
{
    if a.len() != b.len() {
        return false;
    }
    let mut i: usize = 0;
    while i < a.len()
        invariant
            i <= a@.len(),
            a@.len() == b@.len(),
            forall|j: int| 0 <= j < i ==> a@[j] == b@[j],
        decreases a@.len() - i,
    {
        if a[i] != b[i] {
            return false;
        }
        i += 1;
    }
    assert(a@ =~= b@);
    true
}

} // verus!
