//! Where the fields of clip information lie.
//!
//! The laws speak of the bytes of a `.clpi` file as a disc carries it: what is
//! read from a file that can be read, and which files can be read.
use vstd::prelude::*;

use crate::bdmv::clpi::{
    atc_at, atc_reader, clip_of, coarse_reader, covering, cpi_at, ep_header_reader, ep_map_of,
    ep_maps_of, fine_reader, fold_row, program_at, program_info_at, program_reader,
    sequence_info_at, stc_reader, stream_reader, AtcSequenceModel, ClipModel, CoarseRow, EpEntry,
    EpHeader, EpMapModel, FineRow, ProgramEntryModel, StcSequence, StreamCodingInfo,
};
use crate::bdmv::common::{
    array4_at, lemma_list_by_steps, lemma_list_in_steps, lemma_list_of_steps, lemma_stepped,
    list_at, stepped,
};
use crate::bdmv::layout::{lemma_four, lemma_n16, lemma_n32, n16, n32};

verus! {

// ---------------------------------------------------------------------
// Sequences
// ---------------------------------------------------------------------

/// What an STC sequence at `p` says: its stream in two bytes, the packet it
/// begins at in four, the times at which it begins and ends in four each.
pub open spec fn stc_says(s: Seq<u8>, p: int, x: StcSequence) -> bool {
    &&& x.pcr_pid == s[p] * 0x100 + s[p + 1]
    &&& x.spn_stc_start == n32(s, p + 2)
    &&& x.presentation_start_time == n32(s, p + 6)
    &&& x.presentation_end_time == n32(s, p + 10)
}

/// What an ATC sequence at `p` says: the packet it begins at, the number of its
/// STC sequences, the number of the first of them, and then those sequences.
pub open spec fn atc_says(s: Seq<u8>, p: int, x: AtcSequenceModel) -> bool {
    &&& x.spn_atc_start == n32(s, p)
    &&& x.stc_sequences.len() == s[p + 4]
    &&& x.offset_stc_id == s[p + 5]
    &&& forall|i: int|
        0 <= i < x.stc_sequences.len() ==> stc_says(
            s,
            p + 6 + 14 * i,
            #[trigger] x.stc_sequences[i],
        )
}

/// Where the next ATC sequence lies.
pub open spec fn next_atc(s: Seq<u8>) -> spec_fn(int) -> int {
    |p: int| p + 6 + 14 * s[p + 4]
}

pub open spec fn atc_fits(s: Seq<u8>) -> spec_fn(int) -> bool {
    |p: int| p + 6 <= s.len() && next_atc(s)(p) <= s.len()
}

proof fn lemma_atc(s: Seq<u8>, p: int)
    requires
        0 <= p,
    ensures
        atc_at(s, p) is Some <==> atc_fits(s)(p),
        atc_at(s, p) matches Some((x, q)) ==> q == next_atc(s)(p) && atc_says(s, p, x),
{
    lemma_n32(s, p);
    let item = stc_reader(s);
    let n = s[p + 4] as nat;
    lemma_list_in_steps(item, p + 6, n, 14);
    if list_at(item, p + 6, n) is Some {
        let (xs, _) = list_at(item, p + 6, n)->0;
        assert forall|i: int| 0 <= i < n implies stc_says(s, p + 6 + 14 * i, #[trigger] xs[i]) by {
            let q = p + 6 + i * 14;
            assert(item(q) == Some((xs[i], q + 14)));
            lemma_n16(s, q);
            lemma_n32(s, q + 2);
            lemma_n32(s, q + 6);
            lemma_n32(s, q + 10);
        }
        if n > 0 {
            let q = p + 6 + (n - 1) * 14;
            assert(item(q) == Some((xs[n - 1], q + 14)));
        }
    }
    if p + 6 + 14 * n <= s.len() {
        lemma_list_of_steps(item, p + 6, n, 14);
    }
}

proof fn lemma_atcs(s: Seq<u8>, p: int)
    requires
        0 <= p,
    ensures
        sequence_info_at(s, p) is Some <==> p + 6 <= s.len() && forall|i: int|
            0 <= i < s[p + 5] ==> atc_fits(s)(#[trigger] stepped(next_atc(s), p + 6, i)),
        sequence_info_at(s, p) matches Some(xs) ==> xs.len() == s[p + 5] && forall|i: int|
            0 <= i < xs.len() ==> atc_says(s, stepped(next_atc(s), p + 6, i), #[trigger] xs[i]),
{
    let item = atc_reader(s);
    let next = next_atc(s);
    let good = atc_fits(s);
    let b = p + 6;
    let n = s[p + 5] as nat;
    assert forall|q: int| q >= b implies (#[trigger] item(q) is Some <==> good(q)) && (item(
        q,
    ) matches Some((x, e)) ==> e == next(q) && atc_says(s, q, x)) by {
        lemma_atc(s, q);
    }
    assert forall|q: int| q >= b implies #[trigger] next(q) >= q by {}
    lemma_list_by_steps(item, next, good, b, 0, n);
    assert(stepped(next, b, 0) == b);
    if let Some((xs, _)) = list_at(item, b, n) {
        assert forall|i: int| 0 <= i < n implies atc_says(
            s,
            stepped(next, b, i),
            #[trigger] xs[i],
        ) by {
            lemma_stepped(next, b, i);
            assert(item(stepped(next, b, 0 + i)) == Some((xs[i], stepped(next, b, 0 + i + 1))));
        }
    }
}

// ---------------------------------------------------------------------
// Programs
// ---------------------------------------------------------------------

/// What a stream of a program at `p` says: its number in two bytes; behind a
/// length, how it is coded and its format.
pub open spec fn coding_says(s: Seq<u8>, p: int, x: StreamCodingInfo) -> bool {
    &&& x.pid == s[p] * 0x100 + s[p + 1]
    &&& x.stream_coding_type == s[p + 3]
    &&& x.format_info_byte == s[p + 4]
}

/// Where the next stream of a program lies: behind as many bytes as the third
/// byte of this one counts.
pub open spec fn next_coding(s: Seq<u8>) -> spec_fn(int) -> int {
    |p: int| p + 3 + s[p + 2]
}

pub open spec fn coding_fits(s: Seq<u8>) -> spec_fn(int) -> bool {
    |p: int| p + 5 <= s.len() && next_coding(s)(p) <= s.len()
}

/// What a program at `p` says: the packet it begins at, the stream of its map,
/// the number of its streams, and then those streams.
pub open spec fn program_says(s: Seq<u8>, p: int, x: ProgramEntryModel) -> bool {
    &&& x.spn_program_sequence_start == n32(s, p)
    &&& x.program_map_pid == s[p + 4] * 0x100 + s[p + 5]
    &&& x.streams.len() == s[p + 6]
    &&& forall|i: int|
        0 <= i < x.streams.len() ==> coding_says(
            s,
            stepped(next_coding(s), p + 8, i),
            #[trigger] x.streams[i],
        )
}

/// Where the next program lies: behind the streams of this one.
pub open spec fn next_program(s: Seq<u8>) -> spec_fn(int) -> int {
    |p: int| stepped(next_coding(s), p + 8, s[p + 6] as int)
}

pub open spec fn program_fits(s: Seq<u8>) -> spec_fn(int) -> bool {
    |p: int|
        p + 8 <= s.len() && forall|i: int|
            0 <= i < s[p + 6] ==> coding_fits(s)(#[trigger] stepped(next_coding(s), p + 8, i))
}

proof fn lemma_program(s: Seq<u8>, p: int)
    requires
        0 <= p,
    ensures
        next_program(s)(p) >= p,
        program_at(s, p) is Some <==> program_fits(s)(p),
        program_at(s, p) matches Some((x, q)) ==> q == next_program(s)(p) && program_says(s, p, x),
{
    lemma_n32(s, p);
    lemma_n16(s, p + 4);
    let item = stream_reader(s);
    let next = next_coding(s);
    let good = coding_fits(s);
    let b = p + 8;
    let n = s[p + 6] as nat;
    assert forall|q: int| q >= b implies (#[trigger] item(q) is Some <==> good(q)) && (item(
        q,
    ) matches Some((x, e)) ==> e == next(q) && coding_says(s, q, x)) by {
        lemma_n16(s, q);
    }
    assert forall|q: int| q >= b implies #[trigger] next(q) >= q by {}
    lemma_list_by_steps(item, next, good, b, 0, n);
    lemma_stepped(next, b, n as int);
    assert(stepped(next, b, 0) == b);
    if let Some((xs, _)) = list_at(item, b, n) {
        assert forall|i: int| 0 <= i < n implies coding_says(
            s,
            stepped(next, b, i),
            #[trigger] xs[i],
        ) by {
            lemma_stepped(next, b, i);
            assert(item(stepped(next, b, 0 + i)) == Some((xs[i], stepped(next, b, 0 + i + 1))));
        }
    }
}

proof fn lemma_programs(s: Seq<u8>, p: int)
    requires
        0 <= p,
    ensures
        program_info_at(s, p) is Some <==> p + 6 <= s.len() && forall|i: int|
            0 <= i < s[p + 5] ==> program_fits(s)(#[trigger] stepped(next_program(s), p + 6, i)),
        program_info_at(s, p) matches Some(xs) ==> xs.len() == s[p + 5] && forall|i: int|
            0 <= i < xs.len() ==> program_says(
                s,
                stepped(next_program(s), p + 6, i),
                #[trigger] xs[i],
            ),
{
    let item = program_reader(s);
    let next = next_program(s);
    let good = program_fits(s);
    let b = p + 6;
    let n = s[p + 5] as nat;
    assert forall|q: int| q >= b implies (#[trigger] item(q) is Some <==> good(q)) && (item(
        q,
    ) matches Some((x, e)) ==> e == next(q) && program_says(s, q, x)) by {
        lemma_program(s, q);
    }
    assert forall|q: int| q >= b implies #[trigger] next(q) >= q by {
        lemma_program(s, q);
    }
    lemma_list_by_steps(item, next, good, b, 0, n);
    assert(stepped(next, b, 0) == b);
    if let Some((xs, _)) = list_at(item, b, n) {
        assert forall|i: int| 0 <= i < n implies program_says(
            s,
            stepped(next, b, i),
            #[trigger] xs[i],
        ) by {
            lemma_stepped(next, b, i);
            assert(item(stepped(next, b, 0 + i)) == Some((xs[i], stepped(next, b, 0 + i + 1))));
        }
    }
}

// ---------------------------------------------------------------------
// Entry points
// ---------------------------------------------------------------------

/// Where the header of stream `j` lies in the entry-point block at `c`.
pub open spec fn header_place(c: int, j: int) -> int {
    c + 8 + 12 * j
}

/// How many coarse rows a header counts: sixteen bits, of which two stand in
/// its fourth byte, eight in its fifth and six in its sixth.
pub open spec fn coarse_count(s: Seq<u8>, h: int) -> int {
    (s[h + 3] as int % 4) * 0x4000 + s[h + 4] * 0x40 + s[h + 5] as int / 4
}

/// How many fine rows a header counts: eighteen bits, of which two stand in its
/// sixth byte.
pub open spec fn fine_count(s: Seq<u8>, h: int) -> int {
    (s[h + 5] as int % 4) * 0x1_0000 + s[h + 6] * 0x100 + s[h + 7]
}

/// Where the tables of a header lie: its last four bytes count from the seventh
/// byte of the block.
pub open spec fn tables_place(s: Seq<u8>, c: int, h: int) -> int {
    c + 6 + n32(s, h + 8)
}

/// Coarse row `k` of the tables at `b`: which fine row it begins with.
pub open spec fn coarse_ref(s: Seq<u8>, b: int, k: int) -> int {
    n32(s, b + 4 + 8 * k) / 0x4000
}

/// Its time, in units of 2^19 of the clock of 90 kHz.
pub open spec fn coarse_time(s: Seq<u8>, b: int, k: int) -> int {
    n32(s, b + 4 + 8 * k) % 0x4000
}

/// Its packet.
pub open spec fn coarse_packet(s: Seq<u8>, b: int, k: int) -> int {
    n32(s, b + 4 + 8 * k + 4)
}

/// Fine row `i` of the tables at `b`.
pub open spec fn fine_word(s: Seq<u8>, b: int, i: int) -> int {
    n32(s, b + n32(s, b) + 4 * i)
}

/// Its time, in units of 2^9 of the clock of 90 kHz.
pub open spec fn fine_time(s: Seq<u8>, b: int, i: int) -> int {
    (fine_word(s, b, i) / 0x2_0000) % 0x800
}

/// Whether coarse row `k` of `n` covers fine row `i`: every row up to it begins
/// with that fine row or before, and the next one behind.
pub open spec fn covers(s: Seq<u8>, b: int, n: int, k: int, i: int) -> bool {
    &&& 0 <= k < n
    &&& forall|j: int| 1 <= j <= k ==> #[trigger] coarse_ref(s, b, j) <= i
    &&& k + 1 < n ==> i < coarse_ref(s, b, k + 1)
}

/// What entry point `i` of the tables at `b` says under coarse time `t` and
/// coarse packet `q`. Its time is the coarse time and the fine time together,
/// within 32 bits; they share one bit. Its packet is the coarse packet with the low 17 bits of
/// the fine one.
pub open spec fn entry_says(s: Seq<u8>, b: int, i: int, t: int, q: int, e: EpEntry) -> bool {
    let c = t % 0x2000;
    let w = fine_word(s, b, i);
    let f = fine_time(s, b, i);
    &&& e.is_angle_change_point == (w / 0x8000_0000 == 1)
    &&& e.i_end_position_offset == (w / 0x1000_0000) % 8
    &&& f < 0x400 ==> e.pts_ep_start == c * 0x8_0000 + f * 0x200
    &&& f >= 0x400 && c % 2 == 0 ==> e.pts_ep_start == c * 0x8_0000 + f * 0x200
    &&& f >= 0x400 && c % 2 == 1 ==> e.pts_ep_start == c * 0x8_0000 + (f - 0x400) * 0x200
    &&& e.spn_ep_start == (q / 0x2_0000) * 0x2_0000 + w % 0x2_0000
}

proof fn lemma_fold(c: CoarseRow, f: FineRow, t: u8)
    requires
        c.pts < 0x4000,
        f.pts < 0x800,
        f.spn < 0x2_0000,
    ensures
        ({
            let e = fold_row(c, f, t);
            let d = c.pts as int % 0x2000;
            &&& f.pts < 0x400 ==> e.pts_ep_start == d * 0x8_0000 + f.pts * 0x200
            &&& f.pts >= 0x400 && d % 2 == 0 ==> e.pts_ep_start == d * 0x8_0000 + f.pts * 0x200
            &&& f.pts >= 0x400 && d % 2 == 1 ==> e.pts_ep_start == d * 0x8_0000 + (f.pts - 0x400)
                * 0x200
            &&& e.spn_ep_start == (c.spn / 0x2_0000) * 0x2_0000 + f.spn
        }),
{
    let (cp, fp) = (c.pts, f.pts);
    let (cs, fs) = (c.spn, f.spn);
    let d: u32 = cp % 0x2000;
    if fp < 0x400 {
        assert((cp << 19u32) | (fp << 9u32) == d * 0x8_0000u32 + fp * 0x200u32) by (bit_vector)
            requires
                d == cp % 0x2000,
                fp < 0x400,
        ;
    } else if d % 2 == 0 {
        assert((cp << 19u32) | (fp << 9u32) == d * 0x8_0000u32 + fp * 0x200u32) by (bit_vector)
            requires
                d == cp % 0x2000,
                0x400 <= fp,
                fp < 0x800,
                d % 2 == 0,
        ;
    } else {
        assert((cp << 19u32) | (fp << 9u32) == d * 0x8_0000u32 + (fp - 0x400u32) * 0x200u32)
            by (bit_vector)
            requires
                d == cp % 0x2000,
                0x400 <= fp,
                fp < 0x800,
                d % 2 == 1,
        ;
    }
    assert((cs & 0xFFFE_0000u32) | fs == (cs / 0x2_0000u32) * 0x2_0000u32 + fs) by (bit_vector)
        requires
            fs < 0x2_0000,
    ;
}

proof fn lemma_covering(coarses: Seq<CoarseRow>, k: int, fi: int)
    requires
        0 <= k < coarses.len(),
    ensures
        ({
            let r = covering(coarses, k, fi);
            &&& k <= r < coarses.len()
            &&& forall|j: int| k < j <= r ==> (#[trigger] coarses[j]).ref_to_fine <= fi
            &&& r + 1 < coarses.len() ==> coarses[r + 1].ref_to_fine > fi
        }),
    decreases coarses.len() - k,
{
    if k + 1 < coarses.len() && coarses[k + 1].ref_to_fine <= fi {
        lemma_covering(coarses, k + 1, fi);
    }
}

/// What the entry points of a header at `h` say, in the block at `c`: stream
/// and type stand in the header; every fine row is an entry point, under the
/// coarse row that covers it.
pub open spec fn map_says(s: Seq<u8>, c: int, h: int, m: EpMapModel) -> bool {
    let b = tables_place(s, c, h);
    let n = coarse_count(s, h);
    &&& m.stream_pid == s[h] * 0x100 + s[h + 1]
    &&& m.ep_stream_type == (s[h + 3] / 4) % 16
    &&& m.entries.len() == fine_count(s, h)
    &&& forall|i: int|
        0 <= i < m.entries.len() ==> {
            let e = #[trigger] m.entries[i];
            &&& e.ep_stream_type == m.ep_stream_type
            &&& n == 0 ==> entry_says(s, b, i, 0, 0, e)
            &&& n > 0 ==> exists|k: int|
                #[trigger] covers(s, b, n, k, i) && entry_says(
                    s,
                    b,
                    i,
                    coarse_time(s, b, k),
                    coarse_packet(s, b, k),
                    e,
                )
        }
}

/// Where the fine rows of a header end.
pub open spec fn tables_end(s: Seq<u8>, c: int, h: int) -> int {
    let b = tables_place(s, c, h);
    b + n32(s, b) + 4 * fine_count(s, h)
}

/// Whether the tables of a header begin within the block, which ends at `end`,
/// and lie within the file.
pub open spec fn tables_fit(s: Seq<u8>, c: int, end: int, h: int) -> bool {
    let b = tables_place(s, c, h);
    &&& b < end
    &&& b + 4 + 8 * coarse_count(s, h) <= s.len()
    &&& b + n32(s, b) <= end
    &&& fine_count(s, h) > 0 ==> tables_end(s, c, h) <= s.len()
}

/// The header of a stream, as it is read.
spec fn header_read(s: Seq<u8>, h: int, x: EpHeader) -> bool {
    &&& x.stream_pid == n16(s, h)
    &&& x.ep_stream_type == (s[h + 3] / 4) % 16
    &&& x.num_coarse == coarse_count(s, h)
    &&& x.num_fine == fine_count(s, h)
    &&& x.body_addr == n32(s, h + 8)
}

proof fn lemma_header(s: Seq<u8>, h: int)
    requires
        0 <= h,
    ensures
        ep_header_reader(s)(h) is Some <==> h + 12 <= s.len(),
        ep_header_reader(s)(h) matches Some((x, q)) ==> q == h + 12 && header_read(s, h, x),
{
    lemma_n16(s, h);
    lemma_n16(s, h + 2);
    lemma_n32(s, h + 4);
    lemma_n32(s, h + 8);
    let w = n16(s, h + 2);
    assert((w / 4) % 16 == (s[h + 3] as int / 4) % 16 && w % 4 == s[h + 3] as int % 4);
    let v = n32(s, h + 4);
    assert(v / 262144 == s[h + 4] * 0x40 + s[h + 5] as int / 4);
    assert(v % 262144 == (s[h + 5] as int % 4) * 0x1_0000 + s[h + 6] * 0x100 + s[h + 7]);
}

proof fn lemma_coarse_rows(s: Seq<u8>, b: int, n: nat)
    requires
        0 <= b,
    ensures
        list_at(coarse_reader(s), b + 4, n) is Some <==> n == 0 || b + 4 + 8 * n <= s.len(),
        list_at(coarse_reader(s), b + 4, n) matches Some((xs, _)) ==> xs.len() == n && forall|k: int|
            0 <= k < n ==> (#[trigger] xs[k]).ref_to_fine == coarse_ref(s, b, k) && xs[k].pts
                == coarse_time(s, b, k) && xs[k].spn == coarse_packet(s, b, k),
{
    let item = coarse_reader(s);
    lemma_list_in_steps(item, b + 4, n, 8);
    if list_at(item, b + 4, n) is Some {
        let (xs, _) = list_at(item, b + 4, n)->0;
        assert forall|k: int| 0 <= k < n implies (#[trigger] xs[k]).ref_to_fine == coarse_ref(
            s,
            b,
            k,
        ) && xs[k].pts == coarse_time(s, b, k) && xs[k].spn == coarse_packet(s, b, k) by {
            let q = b + 4 + k * 8;
            assert(item(q) == Some((xs[k], q + 8)));
            lemma_n32(s, q);
            lemma_n32(s, q + 4);
        }
        if n > 0 {
            let q = b + 4 + (n - 1) * 8;
            assert(item(q) == Some((xs[n - 1], q + 8)));
        }
    }
    if n == 0 || b + 4 + 8 * n <= s.len() {
        lemma_list_of_steps(item, b + 4, n, 8);
    }
}

proof fn lemma_fine_rows(s: Seq<u8>, b: int, n: nat)
    requires
        0 <= b,
    ensures
        ({
            let p = b + n32(s, b);
            &&& list_at(fine_reader(s), p, n) is Some <==> n == 0 || p + 4 * n <= s.len()
            &&& list_at(fine_reader(s), p, n) matches Some((xs, q)) ==> {
                &&& xs.len() == n
                &&& q == p + 4 * n
                &&& forall|i: int|
                    0 <= i < n ==> {
                        let w = fine_word(s, b, i);
                        &&& (#[trigger] xs[i]).is_angle == (w / 0x8000_0000 == 1)
                        &&& xs[i].i_end == (w / 0x1000_0000) % 8
                        &&& xs[i].pts == fine_time(s, b, i)
                        &&& xs[i].spn == w % 0x2_0000
                    }
            }
        }),
{
    let item = fine_reader(s);
    let p = b + n32(s, b);
    lemma_list_in_steps(item, p, n, 4);
    if list_at(item, p, n) is Some {
        let (xs, _) = list_at(item, p, n)->0;
        assert forall|i: int| 0 <= i < n implies {
            let w = fine_word(s, b, i);
            &&& (#[trigger] xs[i]).is_angle == (w / 0x8000_0000 == 1)
            &&& xs[i].i_end == (w / 0x1000_0000) % 8
            &&& xs[i].pts == fine_time(s, b, i)
            &&& xs[i].spn == w % 0x2_0000
        } by {
            let q = p + i * 4;
            assert(item(q) == Some((xs[i], q + 4)));
            lemma_n32(s, q);
        }
        if n > 0 {
            let q = p + (n - 1) * 4;
            assert(item(q) == Some((xs[n - 1], q + 4)));
        }
    }
    if n == 0 || p + 4 * n <= s.len() {
        lemma_list_of_steps(item, p, n, 4);
    }
}

proof fn lemma_map(s: Seq<u8>, c: int, end: int, h: int, x: EpHeader)
    requires
        0 <= c,
        0 <= h,
        end <= s.len(),
        header_read(s, h, x),
    ensures
        ep_map_of(s, c, end, x) is Some <==> tables_fit(s, c, end, h),
        ep_map_of(s, c, end, x) matches Some((m, q)) ==> q == tables_end(s, c, h) && map_says(
            s,
            c,
            h,
            m,
        ),
{
    let b = tables_place(s, c, h);
    lemma_n32(s, b);
    let nc = x.num_coarse as nat;
    let nf = x.num_fine as nat;
    lemma_coarse_rows(s, b, nc);
    lemma_fine_rows(s, b, nf);
    if let Some((m, _)) = ep_map_of(s, c, end, x) {
        let coarses = (list_at(coarse_reader(s), b + 4, nc)->0).0;
        let fines = (list_at(fine_reader(s), b + n32(s, b), nf)->0).0;
        assert forall|i: int| 0 <= i < m.entries.len() implies {
            let e = #[trigger] m.entries[i];
            &&& e.ep_stream_type == m.ep_stream_type
            &&& nc == 0 ==> entry_says(s, b, i, 0, 0, e)
            &&& nc > 0 ==> exists|k: int|
                #[trigger] covers(s, b, nc as int, k, i) && entry_says(
                    s,
                    b,
                    i,
                    coarse_time(s, b, k),
                    coarse_packet(s, b, k),
                    e,
                )
        } by {
            let e = m.entries[i];
            let f = fines[i];
            if nc == 0 {
                let none = CoarseRow { ref_to_fine: 0, pts: 0, spn: 0 };
                lemma_fold(none, f, x.ep_stream_type);
            } else {
                let k = covering(coarses, 0, i);
                lemma_covering(coarses, 0, i);
                assert forall|j: int| 1 <= j <= k implies #[trigger] coarse_ref(s, b, j) <= i by {
                    assert(coarses[j].ref_to_fine <= i);
                }
                assert(covers(s, b, nc as int, k, i));
                lemma_fold(coarses[k], f, x.ep_stream_type);
                assert(entry_says(s, b, i, coarse_time(s, b, k), coarse_packet(s, b, k), e));
            }
        }
    }
}

/// Where the fine rows that reach furthest end, of the first `n` streams of the
/// block at `c`; behind its length at least.
pub open spec fn reach_of(s: Seq<u8>, c: int, n: int) -> int
    decreases n,
{
    if n <= 0 {
        c + 4
    } else if tables_end(s, c, header_place(c, n - 1)) > reach_of(s, c, n - 1) {
        tables_end(s, c, header_place(c, n - 1))
    } else {
        reach_of(s, c, n - 1)
    }
}

proof fn lemma_maps(s: Seq<u8>, c: int, end: int, hs: Seq<EpHeader>)
    requires
        0 <= c,
        end <= s.len(),
        forall|j: int| 0 <= j < hs.len() ==> header_read(s, header_place(c, j), #[trigger] hs[j]),
    ensures
        ep_maps_of(s, c, end, hs) is Some <==> forall|j: int|
            0 <= j < hs.len() ==> tables_fit(s, c, end, #[trigger] header_place(c, j)),
        ep_maps_of(s, c, end, hs) matches Some((maps, reach)) ==> {
            &&& maps.len() == hs.len()
            &&& reach == reach_of(s, c, hs.len() as int)
            &&& forall|j: int|
                0 <= j < maps.len() ==> map_says(s, c, header_place(c, j), #[trigger] maps[j])
        },
    decreases hs.len(),
{
    if hs.len() > 0 {
        let k = hs.len() - 1;
        let gs = hs.drop_last();
        assert forall|j: int| 0 <= j < gs.len() implies header_read(
            s,
            header_place(c, j),
            #[trigger] gs[j],
        ) by {
            assert(gs[j] == hs[j]);
        }
        lemma_maps(s, c, end, gs);
        assert(header_read(s, header_place(c, k), hs[k]));
        lemma_map(s, c, end, header_place(c, k), hs[k]);
        assert(hs.last() == hs[k]);
    }
}

/// Whether the block at `c` holds entry points: it is long enough to say so,
/// and its sixth byte does.
pub open spec fn has_entry_points(s: Seq<u8>, c: int) -> bool {
    n32(s, c) >= 4 && s[c + 5] % 16 == 1
}

proof fn lemma_cpi(s: Seq<u8>, c: int)
    requires
        0 <= c,
    ensures
        cpi_at(s, c) is Some <==> {
            let end = c + 4 + n32(s, c);
            &&& c + 4 <= s.len()
            &&& end <= s.len()
            &&& has_entry_points(s, c) ==> forall|j: int|
                0 <= j < s[c + 7] ==> #[trigger] header_place(c, j) + 12 <= s.len() && tables_fit(
                    s,
                    c,
                    end,
                    header_place(c, j),
                )
        },
        cpi_at(s, c) matches Some(m) ==> {
            let end = c + 4 + n32(s, c);
            &&& !has_entry_points(s, c) ==> m.ep_map.len() == 0 && m.ts_type_indicators.len() == 0
            &&& has_entry_points(s, c) ==> {
                let n = s[c + 7] as int;
                &&& m.ep_map.len() == n
                &&& forall|j: int|
                    0 <= j < n ==> map_says(s, c, header_place(c, j), #[trigger] m.ep_map[j])
                &&& n > 0 && reach_of(s, c, n) < end ==> m.ts_type_indicators == s.subrange(
                    reach_of(s, c, n),
                    end,
                )
                &&& n == 0 || reach_of(s, c, n) >= end ==> m.ts_type_indicators.len() == 0
            }
        },
{
    lemma_n32(s, c);
    lemma_n16(s, c + 4);
    assert(n16(s, c + 4) % 16 == s[c + 5] as int % 16);
    if c + 4 <= s.len() && c + 4 + n32(s, c) <= s.len() && has_entry_points(s, c) {
        let end = c + 4 + n32(s, c);
        let item = ep_header_reader(s);
        let n = s[c + 7] as nat;
        assert forall|q: int| q >= c + 8 && #[trigger] item(q) is Some implies (item(q)->0).1 == q
            + 12 by {
            lemma_header(s, q);
        }
        lemma_list_in_steps(item, c + 8, n, 12);
        if list_at(item, c + 8, n) is Some {
            let (hs, _) = list_at(item, c + 8, n)->0;
            assert forall|j: int| 0 <= j < hs.len() implies header_read(
                s,
                header_place(c, j),
                #[trigger] hs[j],
            ) && header_place(c, j) + 12 <= s.len() by {
                assert(item(c + 8 + j * 12) == Some((hs[j], c + 8 + j * 12 + 12)));
                lemma_header(s, c + 8 + j * 12);
            }
            lemma_maps(s, c, end, hs);
            assert forall|j: int| 0 <= j < n implies #[trigger] header_place(c, j) + 12
                <= s.len() by {
                assert(header_read(s, header_place(c, j), hs[j]));
            }
        }
        if forall|j: int| 0 <= j < n ==> #[trigger] header_place(c, j) + 12 <= s.len() {
            assert forall|j: int| 0 <= j < n implies #[trigger] item(c + 8 + j * 12) is Some by {
                assert(header_place(c, j) + 12 <= s.len());
                lemma_header(s, c + 8 + j * 12);
            }
            lemma_list_of_steps(item, c + 8, n, 12);
        }
    }
}

// ---------------------------------------------------------------------
// Whole files
// ---------------------------------------------------------------------

/// What is read from a `.clpi` file: the version at 4; the kinds of stream and
/// of application at 46 and 47, the rate at 52, the number of packets at 56,
/// the stream type information at 188; and, from the places that the bytes at
/// 8, 12, 16 and 20 give, the sequences, the programs, the entry points, and
/// the number of marks.
pub proof fn lemma_clip_fields(s: Seq<u8>, m: ClipModel)
    requires
        clip_of(s) == Some(m),
    ensures
        m.version@ == seq![s[4], s[5], s[6], s[7]],
        m.clip_info.clip_stream_type == s[46],
        m.clip_info.application_type == s[47],
        m.clip_info.ts_recording_rate == n32(s, 52),
        m.clip_info.number_of_source_packets == n32(s, 56),
        m.clip_info.ts_type_info_block.validity_flags == s[188],
        m.clip_info.ts_type_info_block.format_id@ == seq![s[190], s[191], s[192], s[193]],
        m.atc_sequences.len() == s[n32(s, 8) + 5],
        forall|i: int|
            0 <= i < m.atc_sequences.len() ==> atc_says(
                s,
                stepped(next_atc(s), n32(s, 8) + 6, i),
                #[trigger] m.atc_sequences[i],
            ),
        m.programs.len() == s[n32(s, 12) + 5],
        forall|i: int|
            0 <= i < m.programs.len() ==> program_says(
                s,
                stepped(next_program(s), n32(s, 12) + 6, i),
                #[trigger] m.programs[i],
            ),
        ({
            let c = n32(s, 16);
            let n = s[c + 7] as int;
            let end = c + 4 + n32(s, c);
            &&& 0 < c < s.len() && has_entry_points(s, c) ==> {
                &&& m.cpi.ep_map.len() == n
                &&& forall|j: int|
                    0 <= j < n ==> map_says(s, c, header_place(c, j), #[trigger] m.cpi.ep_map[j])
                &&& n > 0 && reach_of(s, c, n) < end ==> m.cpi.ts_type_indicators == s.subrange(
                    reach_of(s, c, n),
                    end,
                )
                &&& n == 0 || reach_of(s, c, n) >= end ==> m.cpi.ts_type_indicators.len() == 0
            }
            &&& !(0 < c < s.len() && has_entry_points(s, c)) ==> m.cpi.ep_map.len() == 0
                && m.cpi.ts_type_indicators.len() == 0
        }),
        m.num_marks == if 0 < n32(s, 20) < s.len() {
            n16(s, n32(s, 20) + 4)
        } else {
            0
        },
{
    lemma_four(s, 4);
    lemma_four(s, 190);
    lemma_n32(s, 8);
    lemma_n32(s, 12);
    lemma_n32(s, 16);
    lemma_n32(s, 20);
    lemma_n32(s, 52);
    lemma_n32(s, 56);
    lemma_n16(s, n32(s, 20) + 4);
    lemma_atcs(s, n32(s, 8));
    lemma_programs(s, n32(s, 12));
    lemma_cpi(s, n32(s, 16));
}

/// Which `.clpi` files can be read: those that begin with `HDMV` or `CLPI` and
/// whose parts lie where the file says, each as long as it says. Entry points
/// and marks may be absent.
pub proof fn lemma_clip_readable(s: Seq<u8>)
    ensures
        clip_of(s) is Some <==> {
            let a = n32(s, 8);
            let b = n32(s, 12);
            let c = n32(s, 16);
            let d = n32(s, 20);
            let end = c + 4 + n32(s, c);
            &&& s.len() >= 194
            &&& (s[0] == 0x48 && s[1] == 0x44 && s[2] == 0x4D && s[3] == 0x56) || (s[0] == 0x43
                && s[1] == 0x4C && s[2] == 0x50 && s[3] == 0x49)
            &&& 44 + n32(s, 40) <= s.len()
            &&& a + 6 <= s.len() && forall|i: int|
                0 <= i < s[a + 5] ==> atc_fits(s)(#[trigger] stepped(next_atc(s), a + 6, i))
            &&& b + 6 <= s.len() && forall|i: int|
                0 <= i < s[b + 5] ==> program_fits(s)(
                    #[trigger] stepped(next_program(s), b + 6, i),
                )
            &&& 0 < c < s.len() ==> c + 4 <= s.len() && end <= s.len() && (has_entry_points(s, c)
                ==> forall|j: int|
                0 <= j < s[c + 7] ==> #[trigger] header_place(c, j) + 12 <= s.len() && tables_fit(
                    s,
                    c,
                    end,
                    header_place(c, j),
                ))
            &&& 0 < d < s.len() ==> d + 6 <= s.len()
        },
{
    lemma_four(s, 0);
    lemma_n32(s, 8);
    lemma_n32(s, 12);
    lemma_n32(s, 16);
    lemma_n32(s, 20);
    lemma_n32(s, 40);
    lemma_atcs(s, n32(s, 8));
    lemma_programs(s, n32(s, 12));
    lemma_cpi(s, n32(s, 16));
    let hdmv = [0x48u8, 0x44, 0x4D, 0x56];
    let clpi = [0x43u8, 0x4C, 0x50, 0x49];
    let t = array4_at(s, 0);
    assert(t@[0] == s[0] && t@[1] == s[1] && t@[2] == s[2] && t@[3] == s[3]);
    assert(hdmv@[0] == 0x48 && hdmv@[1] == 0x44 && hdmv@[2] == 0x4D && hdmv@[3] == 0x56);
    assert(clpi@[0] == 0x43 && clpi@[1] == 0x4C && clpi@[2] == 0x50 && clpi@[3] == 0x49);
    if s[0] == 0x48 && s[1] == 0x44 && s[2] == 0x4D && s[3] == 0x56 {
        assert(t =~= hdmv);
    }
    if s[0] == 0x43 && s[1] == 0x4C && s[2] == 0x50 && s[3] == 0x49 {
        assert(t =~= clpi);
    }
}

} // verus!
