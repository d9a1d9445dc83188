//! Clip streams: source packets of 192 bytes, each a four-byte header with
//! the arrival time and a transport packet of 188 bytes.
use vstd::prelude::*;

verus! {

/// Bytes of a source packet.
pub const M2TS_PACKET_LEN: usize = 192;

/// Bytes of a transport packet.
pub const TS_PACKET_LEN: usize = 188;

/// The transport packets of whole source packets: of each 192 bytes the last
/// 188.
pub open spec fn stripped(s: Seq<u8>) -> Seq<u8> {
    Seq::new(
        s.len() / 192 * 188,
        |i: int| s[i / 188 * 192 + 4 + i % 188],
    )
}

/// Take the arrival times out of whole source packets. Bytes behind the last
/// whole packet are left out.
pub fn strip_tp_extra(input: &[u8]) -> (out: Vec<u8>)
    ensures
        out@ == stripped(input@),
{
    let total: usize = input.len();
    let packets: usize = total / M2TS_PACKET_LEN;
    let mut out: Vec<u8> = Vec::new();
    let mut p: usize = 0;
    while p < packets
        invariant
            p <= packets,
            total == input@.len(),
            packets == total / 192,
            out@.len() == p * 188,
            forall|i: int| 0 <= i < out@.len() ==> #[trigger] out@[i] == stripped(input@)[i],
        decreases packets - p,
    {
        let mut k: usize = 0;
        while k < TS_PACKET_LEN
            invariant
                k <= 188,
                p < packets,
                total == input@.len(),
                packets == total / 192,
                out@.len() == p * 188 + k,
                forall|i: int| 0 <= i < out@.len() ==> #[trigger] out@[i] == stripped(input@)[i],
            decreases 188 - k,
        {
            proof {
                let i = p * 188 + k;
                assert(i / 188 == p && i % 188 == k);
            }
            out.push(input[p * M2TS_PACKET_LEN + 4 + k]);
            k += 1;
        }
        p += 1;
    }
    assert(out@ =~= stripped(input@));
    out
}

/// Stripping two runs of whole packets one behind the other strips each.
pub proof fn lemma_stripped_join(a: Seq<u8>, b: Seq<u8>)
    requires
        a.len() % 192 == 0,
    ensures
        stripped(a + b) == stripped(a) + stripped(b),
{
    let n = a.len() / 192;
    assert((a + b).len() / 192 == n + b.len() / 192);
    assert forall|i: int| 0 <= i < stripped(a + b).len() implies #[trigger] stripped(a + b)[i] == (
    stripped(a) + stripped(b))[i] by {
        if i >= n * 188 {
            let j = i - n * 188;
            assert(i / 188 == n + j / 188 && i % 188 == j % 188);
        } else {
            assert(i / 188 < n);
        }
    }
    assert(stripped(a + b) =~= stripped(a) + stripped(b));
}

} // verus!
