//! Big-endian integer fields and decimal text, as they appear inside boxes.

use vstd::prelude::*;

verus! {

/// The big-endian `u32` spelled by the four bytes of `s` starting at `i`.
pub open spec fn be_u32_at(s: Seq<u8>, i: int) -> u32
    recommends
        0 <= i,
        i + 4 <= s.len(),
{
    ((s[i] as int) * 0x100_0000 + (s[i + 1] as int) * 0x1_0000 + (s[i + 2] as int) * 0x100 + (
    s[i + 3] as int)) as u32
}

/// The big-endian `u64` spelled by the eight bytes of `s` starting at `i`.
pub open spec fn be_u64_at(s: Seq<u8>, i: int) -> u64
    recommends
        0 <= i,
        i + 8 <= s.len(),
{
    ((be_u32_at(s, i) as int) * 0x1_0000_0000 + (be_u32_at(s, i + 4) as int)) as u64
}

/// The four bytes of `x`, most significant first.
pub open spec fn be_u32_bytes(x: u32) -> Seq<u8> {
    seq![
        (x / 0x100_0000) as u8,
        ((x / 0x1_0000) % 0x100) as u8,
        ((x / 0x100) % 0x100) as u8,
        (x % 0x100) as u8,
    ]
}

/// The eight bytes of `x`, most significant first.
pub open spec fn be_u64_bytes(x: u64) -> Seq<u8> {
    be_u32_bytes((x / 0x1_0000_0000) as u32) + be_u32_bytes((x % 0x1_0000_0000) as u32)
}

/// Reading four bytes that were written with [`be_u32_bytes`] gives the
/// original value back, and writing the value read from a buffer reproduces
/// the buffer: the two directions of the 32-bit field codec.
pub proof fn lemma_be_u32_roundtrip(s: Seq<u8>, i: int)
    requires
        0 <= i,
        i + 4 <= s.len(),
    ensures
        be_u32_bytes(be_u32_at(s, i)) =~= s.subrange(i, i + 4),
{
    let a = s[i];
    let b = s[i + 1];
    let c = s[i + 2];
    let d = s[i + 3];
    let x = be_u32_at(s, i);
    assert(x == (a as u32) * 0x100_0000 + (b as u32) * 0x1_0000 + (c as u32) * 0x100 + (d as u32))
        by (bit_vector)
        requires
            x == ((a as int) * 0x100_0000 + (b as int) * 0x1_0000 + (c as int) * 0x100 + (
            d as int)) as u32,
    ;
    assert(x / 0x100_0000 == a as u32 && (x / 0x1_0000) % 0x100 == b as u32 && (x / 0x100) % 0x100
        == c as u32 && x % 0x100 == d as u32) by (bit_vector)
        requires
            x == (a as u32) * 0x100_0000 + (b as u32) * 0x1_0000 + (c as u32) * 0x100 + (d as u32),
    ;
}

/// The two directions of the 64-bit field codec.
pub proof fn lemma_be_u64_roundtrip(s: Seq<u8>, i: int)
    requires
        0 <= i,
        i + 8 <= s.len(),
    ensures
        be_u64_bytes(be_u64_at(s, i)) =~= s.subrange(i, i + 8),
{
    let hi = be_u32_at(s, i);
    let lo = be_u32_at(s, i + 4);
    let x = be_u64_at(s, i);
    assert(x / 0x1_0000_0000 == hi as u64 && x % 0x1_0000_0000 == lo as u64) by (bit_vector)
        requires
            x == ((hi as int) * 0x1_0000_0000 + (lo as int)) as u64,
    ;
    lemma_be_u32_roundtrip(s, i);
    lemma_be_u32_roundtrip(s, i + 4);
    assert(be_u64_bytes(x) =~= be_u32_bytes(hi) + be_u32_bytes(lo));
}

/// Reads the big-endian `u32` at offset `i`.
pub fn read_be_u32(data: &[u8], i: usize) -> (r: u32)
    requires
        i + 4 <= data@.len(),
    ensures
        r == be_u32_at(data@, i as int),
{
    (data[i] as u32) * 0x100_0000 + (data[i + 1] as u32) * 0x1_0000 + (data[i + 2] as u32) * 0x100
        + (data[i + 3] as u32)
}

/// Reads the big-endian `u64` at offset `i`.
pub fn read_be_u64(data: &[u8], i: usize) -> (r: u64)
    requires
        i + 8 <= data@.len(),
    ensures
        r == be_u64_at(data@, i as int),
{
    proof {
        vstd::slice::axiom_spec_len(data);
        assert(data@.len() <= usize::MAX);
    }
    (read_be_u32(data, i) as u64) * 0x1_0000_0000 + (read_be_u32(data, i + 4) as u64)
}

/// Appends `x` to `out` as four big-endian bytes.
pub fn push_be_u32(out: &mut Vec<u8>, x: u32)
    ensures
        final(out)@ =~= old(out)@ + be_u32_bytes(x),
{
    out.push((x / 0x100_0000) as u8);
    out.push(((x / 0x1_0000) % 0x100) as u8);
    out.push(((x / 0x100) % 0x100) as u8);
    out.push((x % 0x100) as u8);
}

/// Appends `x` to `out` as eight big-endian bytes.
pub fn push_be_u64(out: &mut Vec<u8>, x: u64)
    ensures
        final(out)@ =~= old(out)@ + be_u64_bytes(x),
{
    push_be_u32(out, (x / 0x1_0000_0000) as u32);
    push_be_u32(out, (x % 0x1_0000_0000) as u32);
}

/// The decimal digits of `n`, most significant first, as ASCII bytes.
pub open spec fn dec_digits(n: nat) -> Seq<u8>
    decreases n,
{
    if n < 10 {
        seq![(0x30 + n) as u8]
    } else {
        dec_digits(n / 10).push((0x30 + n % 10) as u8)
    }
}

/// Appends the decimal rendering of `x` to `out`.
pub fn push_decimal(out: &mut Vec<u8>, x: u64)
    ensures
        final(out)@ =~= old(out)@ + dec_digits(x as nat),
    decreases x,
{
    if x >= 10 {
        push_decimal(out, x / 10);
    }
    out.push(0x30 + (x % 10) as u8);
}

/// Appends every byte of `s` to `out`.
pub fn push_slice(out: &mut Vec<u8>, s: &[u8])
    ensures
        final(out)@ =~= old(out)@ + s@,
{
    let mut i: usize = 0;
    while i < s.len()
        invariant
            i <= s@.len(),
            out@ =~= old(out)@ + s@.subrange(0, i as int),
        decreases s@.len() - i,
    {
        out.push(s[i]);
        i = i + 1;
    }
}

/// A run of `n` zero bytes.
pub open spec fn zeros(n: nat) -> Seq<u8> {
    Seq::new(n, |i: int| 0u8)
}

/// A vector of `n` zero bytes.
pub fn zero_vec(n: usize) -> (v: Vec<u8>)
    ensures
        v@ == zeros(n as nat),
{
    let mut v: Vec<u8> = Vec::new();
    let mut i: usize = 0;
    while i < n
        invariant
            i <= n,
            v@ =~= zeros(i as nat),
        decreases n - i,
    {
        v.push(0);
        proof {
            assert(v@ =~= zeros(i as nat + 1));
        }
        i = i + 1;
    }
    v
}

} // verus!
