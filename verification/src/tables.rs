//! Re-deriving sample-table entry counts from observed payload lengths.
//!
//! Corrupted files frequently carry a truncated or padded sample-table tail
//! while the stored entry count stays wrong.  The repair keeps the fixed
//! prefix, counts how many full records actually fit in the payload, writes
//! that count in place of the stored one, and keeps exactly those records.

use vstd::prelude::*;

use crate::bytes::{be_u32_at, be_u32_bytes, push_be_u32, push_slice, read_be_u32};
use crate::error::Mp4Error;

verus! {

/// The repaired payload of a counted table: `pre` extra prefix bytes stand
/// between the 4-byte version/flags field and the 4-byte entry count, and
/// each record takes `esz` bytes.  The count becomes the number of full
/// records the payload really holds, and the tail beyond them is dropped.
pub open spec fn fixed_table(p: Seq<u8>, pre: int, esz: int) -> Seq<u8>
    recommends
        p.len() >= 8 + pre,
        esz >= 1,
{
    let n = (p.len() - (8 + pre)) / esz;
    p.take(4 + pre) + be_u32_bytes(n as u32) + p.subrange(8 + pre, 8 + pre + n * esz)
}

/// The repaired payload of a `stsz` table: when the stored `sample_size` is
/// not zero the table carries no records and the count becomes zero;
/// otherwise the records are 4 bytes each behind a 4-byte `sample_size`.
pub open spec fn fixed_stsz(p: Seq<u8>) -> Seq<u8>
    recommends
        p.len() >= 12,
{
    if be_u32_at(p, 4) == 0 {
        fixed_table(p, 4, 4)
    } else {
        p.take(8) + be_u32_bytes(0)
    }
}

/// Whether a counted table already stores the count its length implies: the
/// repair leaves such a payload unchanged.
pub open spec fn table_consistent(p: Seq<u8>, pre: int, esz: int) -> bool {
    fixed_table(p, pre, esz) == p
}

/// Rewrites a counted table payload per [`fixed_table`].  A payload too
/// short to hold the prefix and the count cannot be read at all.
pub fn fix_table(p: &[u8], pre: usize, esz: usize) -> (r: Result<Vec<u8>, Mp4Error>)
    requires
        1 <= esz <= 16,
        pre <= 4,
    ensures
        match r {
            Ok(v) => p@.len() >= 8 + pre && v@ == fixed_table(p@, pre as int, esz as int),
            Err(e) => p@.len() < 8 + pre && e == Mp4Error::UnexpectedEof,
        },
{
    let len = p.len();
    if len < 8 + pre {
        return Err(Mp4Error::UnexpectedEof);
    }
    let area = len - (8 + pre);
    let n = area / esz;
    proof {
        assert(n * esz <= area) by (nonlinear_arith)
            requires
                esz >= 1,
                n == area / esz,
                area >= 0,
        ;
    }
    let mut out: Vec<u8> = Vec::new();
    push_slice(&mut out, vstd::slice::slice_subrange(p, 0, 4 + pre));
    push_be_u32(&mut out, #[verifier::truncate] (n as u32));
    push_slice(&mut out, vstd::slice::slice_subrange(p, 8 + pre, 8 + pre + n * esz));
    proof {
        assert(out@ =~= fixed_table(p@, pre as int, esz as int));
    }
    Ok(out)
}

/// Rewrites a `stsz` payload per [`fixed_stsz`].
pub fn fix_stsz(p: &[u8]) -> (r: Result<Vec<u8>, Mp4Error>)
    ensures
        match r {
            Ok(v) => p@.len() >= 12 && v@ == fixed_stsz(p@),
            Err(e) => p@.len() < 12 && e == Mp4Error::UnexpectedEof,
        },
{
    if p.len() < 12 {
        return Err(Mp4Error::UnexpectedEof);
    }
    let sample_size = read_be_u32(p, 4);
    if sample_size == 0 {
        fix_table(p, 4, 4)
    } else {
        let mut out: Vec<u8> = Vec::new();
        push_slice(&mut out, vstd::slice::slice_subrange(p, 0, 8));
        push_be_u32(&mut out, 0);
        proof {
            assert(out@ =~= fixed_stsz(p@));
        }
        Ok(out)
    }
}

} // verus!
