//! Which media key blocks can be parsed.
//!
//! A media key block is a row of records, each with a type in its first byte
//! and its length in the next three. Records 0x20 and 0x21 hold lists of
//! revoked devices: a total in four bytes, then groups, each with a count in
//! four bytes, entries of eight bytes, and a signature of forty. The parser of
//! `oxideav_aacs` computes where the entries of a group end in a `usize`, before
//! it holds that place against the end of the record. Where a `usize` has 32
//! bits a count in a block of a few bytes can be too large for that, so blocks
//! are looked through first. A block with such a count is not well formed on
//! any machine: its entries would run past the record that holds them.
use vstd::prelude::*;

use crate::bdmv::common::{be16, be24, be32};

verus! {

/// The largest place that every `usize` can hold.
pub const LAST_PLACE: u64 = 0xFFFF_FFFF;

/// Where the entries of the group at `at` end.
pub open spec fn group_end(p: Seq<u8>, at: int) -> int {
    at + 4 + 8 * be32(p, at)
}

/// Where the group behind one whose entries end at `end` begins: behind the
/// signature, or at the end of a list that is cut off there.
pub open spec fn next_group(p: Seq<u8>, end: int) -> int {
    if end + 40 <= p.len() {
        end + 40
    } else {
        p.len() as int
    }
}

/// Whether from `at` on, up to the first group that runs past the end of the
/// list, every `usize` can hold the place where the entries of a group end.
pub open spec fn list_counts_fit(p: Seq<u8>, at: int) -> bool
    decreases p.len() - at,
{
    if at < 0 || at + 4 > p.len() {
        true
    } else {
        let end = group_end(p, at);
        if end > p.len() {
            end <= LAST_PLACE
        } else {
            list_counts_fit(p, next_group(p, end))
        }
    }
}

/// Whether a record holds a list of revoked devices.
pub open spec fn is_revocation_list(record_type: u8) -> bool {
    record_type == 0x20 || record_type == 0x21
}

/// Whether the lists of revoked devices in the records from `at` on hold no
/// count that is too large, up to the first record that is none.
pub open spec fn counts_fit_from(b: Seq<u8>, at: int) -> bool
    decreases b.len() - at,
{
    if at < 0 || at + 4 > b.len() {
        true
    } else {
        let len = be24(b, at + 1) as int;
        if len < 4 || at + len > b.len() {
            true
        } else {
            &&& is_revocation_list(b[at]) ==> list_counts_fit(b.subrange(at + 4, at + len), 4)
            &&& counts_fit_from(b, at + len)
        }
    }
}

/// Whether the lists of revoked devices in a media key block hold no count that
/// is too large.
pub open spec fn counts_fit(b: Seq<u8>) -> bool {
    counts_fit_from(b, 0)
}

/// The four bytes at `at`, most significant first.
fn count_at(p: &[u8], at: usize) -> (r: u32)
    requires
        at + 4 <= p@.len(),
    ensures
        r == be32(p@, at as int),
{
    proof {
        reveal(be16);
        reveal(be32);
    }
    let hi: u16 = p[at] as u16 * 256 + p[at + 1] as u16;
    let lo: u16 = p[at + 2] as u16 * 256 + p[at + 3] as u16;
    hi as u32 * 65536 + lo as u32
}

/// The three bytes at `at`, most significant first.
fn length_at(b: &[u8], at: usize) -> (r: u32)
    requires
        at + 3 <= b@.len(),
    ensures
        r == be24(b@, at as int),
        r < 0x100_0000,
{
    proof {
        reveal(be16);
        reveal(be24);
    }
    let hi: u8 = b[at];
    let lo: u16 = b[at + 1] as u16 * 256 + b[at + 2] as u16;
    hi as u32 * 65536 + lo as u32
}

fn check_list_counts(p: &[u8]) -> (r: bool)
    requires
        p@.len() < 0x100_0000,
    ensures
        r == list_counts_fit(p@, 4),
{
    let mut at: usize = 4;
    while at < p.len() && p.len() - at >= 4
        invariant
            p@.len() < 0x100_0000,
            4 <= at <= p@.len() || at == 4,
            list_counts_fit(p@, 4) == list_counts_fit(p@, at as int),
        decreases p@.len() - at,
    {
        let end: u64 = at as u64 + 4 + 8 * (count_at(p, at) as u64);
        if end > p.len() as u64 {
            return end <= LAST_PLACE;
        }
        let end: usize = end as usize;
        at = if p.len() - end >= 40 {
            end + 40
        } else {
            p.len()
        };
    }
    true
}

/// Whether the lists of revoked devices in a media key block hold no count that
/// is too large for the parser.
pub fn check_counts(b: &[u8]) -> (r: bool)
    ensures
        r == counts_fit(b@),
{
    let mut at: usize = 0;
    while b.len() - at >= 4
        invariant
            at <= b@.len(),
            counts_fit(b@) == counts_fit_from(b@, at as int),
        decreases b@.len() - at,
    {
        let len: usize = length_at(b, at + 1) as usize;
        if len < 4 || len > b.len() - at {
            return true;
        }
        if b[at] == 0x20 || b[at] == 0x21 {
            if !check_list_counts(vstd::slice::slice_subrange(b, at + 4, at + len)) {
                return false;
            }
        }
        at += len;
    }
    true
}

} // verus!
