//! `CLIPINF/*.clpi`: clip information.
//!
//! Binary outline (big-endian throughout):
//!
//! ```text
//!   0   type_indicator               "HDMV" (or "CLPI")
//!   4   version_number               "0200"
//!   8   sequence_info_start_address  u32
//!  12   program_info_start_address   u32
//!  16   cpi_start_address            u32
//!  20   clip_mark_start_address      u32
//!  24   extension_data_start_address u32
//!  28   12 reserved bytes
//!  40   ClipInfo()
//!  ...  SequenceInfo()
//!  ...  ProgramInfo()
//!  ...  CPI()
//!  ...  ClipMark()
//! ```
//!
//! The `*_at` spec functions say what record stands at an offset of the
//! file, the `enc_*` functions which bytes a record is written as, and
//! [`lemma_clip_round_trip`] that reading gives back what was written.
use vstd::arithmetic::power2::{lemma2_to64, pow2};
use vstd::prelude::*;

use crate::bdmv::bits::{
    bits_at, lemma_bits_be16, lemma_bits_be32, lemma_bits_bound, lemma_bits_split,
    lemma_bits_subrange, BitReader, BitWriter,
};
use crate::bdmv::common::{
    array4_at, bad_type, be16, be32, enc16, enc32, enc8, enc_array4, enc_list, group_has_at, has_at,
    lemma_empty_add, lemma_enc16_be16, lemma_enc16_len, lemma_enc32_be32, lemma_enc32_len,
    lemma_enc8_len, lemma_enc_list_len, lemma_enc_list_push, lemma_has_at_32, lemma_has_at_bounds,
    lemma_has_at_concat, lemma_has_at_self, lemma_has_at_subrange, lemma_list_at_none,
    lemma_list_refusal, lemma_list_round_trip, list_at, list_refusal, low_u32, low_u8,
    past_end_text, put_array4, put_bytes, put_u16, put_u32, put_u8, put_zeros, type_text, zeros,
    BdmvHeader, Reader,
};
use crate::error::BlurayError;

verus! {

// ---------------------------------------------------------------------
// The records of a clip information file
// ---------------------------------------------------------------------

/// ClipInfo section: a single fixed block.
#[derive(Debug, Clone, Copy, PartialEq, Eq)]
pub struct ClipInfo {
    pub clip_stream_type: u8,
    pub application_type: u8,
    /// Bytes per second.
    pub ts_recording_rate: u32,
    pub number_of_source_packets: u32,
    pub ts_type_info_block: TsTypeInfoBlock,
}

#[derive(Debug, Clone, Copy, PartialEq, Eq)]
pub struct TsTypeInfoBlock {
    pub validity_flags: u8,
    pub format_id: [u8; 4],
}

impl Default for TsTypeInfoBlock {
    fn default() -> (r: Self)
        ensures
            r == (TsTypeInfoBlock { validity_flags: 0, format_id: [0, 0, 0, 0] }),
    {
        TsTypeInfoBlock { validity_flags: 0, format_id: [0, 0, 0, 0] }
    }
}

/// One STC sequence inside SequenceInfo.
#[derive(Debug, Clone, Copy, PartialEq, Eq)]
pub struct StcSequence {
    pub pcr_pid: u16,
    pub spn_stc_start: u32,
    /// 45 kHz.
    pub presentation_start_time: u32,
    /// 45 kHz.
    pub presentation_end_time: u32,
}

#[derive(Debug, Clone, PartialEq, Eq)]
pub struct AtcSequence {
    pub spn_atc_start: u32,
    pub stc_sequences: Vec<StcSequence>,
    pub offset_stc_id: u8,
}

#[derive(Debug, Clone, PartialEq, Eq)]
pub struct SequenceInfo {
    pub atc_sequences: Vec<AtcSequence>,
}

/// One elementary stream entry inside ProgramInfo.
#[derive(Debug, Clone, Copy, PartialEq, Eq)]
pub struct StreamCodingInfo {
    pub pid: u16,
    pub stream_coding_type: u8,
    /// For video the video format and the frame rate, for audio the
    /// presentation type and the sampling frequency, four bits each.
    pub format_info_byte: u8,
}

/// One program inside ProgramInfo.
#[derive(Debug, Clone, PartialEq, Eq)]
pub struct ProgramEntry {
    pub spn_program_sequence_start: u32,
    pub program_map_pid: u16,
    pub streams: Vec<StreamCodingInfo>,
}

#[derive(Debug, Clone, PartialEq, Eq)]
pub struct ProgramInfo {
    pub programs: Vec<ProgramEntry>,
}

/// One row of the entry-point map of a stream, its coarse row already
/// folded in: the 14-bit `PTS_EP_coarse` holds the bits from 19 up of the
/// presentation time, the 11-bit `PTS_EP_fine` the bits 9 to 19, and
/// `pts_ep_start = (coarse << 19) | (fine << 9)`. `SPN_EP_coarse` is a whole
/// source packet number and `SPN_EP_fine` the low 17 bits, so
/// `spn_ep_start = (coarse & 0xFFFE_0000) | fine`.
#[derive(Debug, Clone, Copy, PartialEq, Eq)]
pub struct EpEntry {
    /// Set where the stream may change to another angle.
    pub is_angle_change_point: bool,
    /// Three-bit hint on where the I picture ends.
    pub i_end_position_offset: u8,
    /// 90 kHz, in steps of 512.
    pub pts_ep_start: u32,
    /// Source packet number: times 192 it is a byte offset in the stream file.
    pub spn_ep_start: u32,
    /// The four-bit type of the enclosing [`EpMap`].
    pub ep_stream_type: u8,
}

/// Entry-point map of one stream.
#[derive(Debug, Clone, PartialEq, Eq)]
pub struct EpMap {
    pub stream_pid: u16,
    /// Four-bit `EP_stream_type`.
    pub ep_stream_type: u8,
    pub entries: Vec<EpEntry>,
}

/// The `CPI()` block: one [`EpMap`] per stream, and the bytes between the
/// last fine table and the end of the block, kept as they are.
#[derive(Debug, Clone, PartialEq, Eq)]
pub struct Cpi {
    pub ep_map: Vec<EpMap>,
    pub ts_type_indicators: Vec<u8>,
}

/// ClipMark: the number of marks inside a clip.
#[derive(Debug, Clone, Copy, PartialEq, Eq)]
pub struct ClipMark {
    pub num_marks: u16,
}

impl Default for ClipMark {
    fn default() -> (r: Self)
        ensures
            r.num_marks == 0,
    {
        ClipMark { num_marks: 0 }
    }
}

/// A whole `.clpi` file.
#[derive(Debug, Clone)]
pub struct ClipInformation {
    pub version: [u8; 4],
    pub clip_info: ClipInfo,
    pub sequence_info: SequenceInfo,
    pub program_info: ProgramInfo,
    pub cpi: Cpi,
    pub clip_mark: ClipMark,
}

// ---------------------------------------------------------------------
// Models
// ---------------------------------------------------------------------

/// Model of [`AtcSequence`].
#[verifier::ext_equal]
pub struct AtcSequenceModel {
    pub spn_atc_start: u32,
    pub stc_sequences: Seq<StcSequence>,
    pub offset_stc_id: u8,
}

impl View for AtcSequence {
    type V = AtcSequenceModel;

    open spec fn view(&self) -> AtcSequenceModel {
        AtcSequenceModel {
            spn_atc_start: self.spn_atc_start,
            stc_sequences: self.stc_sequences@,
            offset_stc_id: self.offset_stc_id,
        }
    }
}

/// The models of a list of ATC sequences.
pub open spec fn atc_models(v: Seq<AtcSequence>) -> Seq<AtcSequenceModel> {
    Seq::new(v.len(), |i: int| v[i]@)
}

/// Model of [`ProgramEntry`].
#[verifier::ext_equal]
pub struct ProgramEntryModel {
    pub spn_program_sequence_start: u32,
    pub program_map_pid: u16,
    pub streams: Seq<StreamCodingInfo>,
}

impl View for ProgramEntry {
    type V = ProgramEntryModel;

    open spec fn view(&self) -> ProgramEntryModel {
        ProgramEntryModel {
            spn_program_sequence_start: self.spn_program_sequence_start,
            program_map_pid: self.program_map_pid,
            streams: self.streams@,
        }
    }
}

/// The models of a list of programs.
pub open spec fn program_models(v: Seq<ProgramEntry>) -> Seq<ProgramEntryModel> {
    Seq::new(v.len(), |i: int| v[i]@)
}

/// Model of [`EpMap`].
#[verifier::ext_equal]
pub struct EpMapModel {
    pub stream_pid: u16,
    pub ep_stream_type: u8,
    pub entries: Seq<EpEntry>,
}

impl View for EpMap {
    type V = EpMapModel;

    open spec fn view(&self) -> EpMapModel {
        EpMapModel {
            stream_pid: self.stream_pid,
            ep_stream_type: self.ep_stream_type,
            entries: self.entries@,
        }
    }
}

/// The models of a list of entry-point maps.
pub open spec fn ep_map_models(v: Seq<EpMap>) -> Seq<EpMapModel> {
    Seq::new(v.len(), |i: int| v[i]@)
}

/// Model of [`Cpi`].
#[verifier::ext_equal]
pub struct CpiModel {
    pub ep_map: Seq<EpMapModel>,
    pub ts_type_indicators: Seq<u8>,
}

impl View for Cpi {
    type V = CpiModel;

    open spec fn view(&self) -> CpiModel {
        CpiModel {
            ep_map: ep_map_models(self.ep_map@),
            ts_type_indicators: self.ts_type_indicators@,
        }
    }
}

/// A CPI block without entry points.
pub open spec fn empty_cpi() -> CpiModel {
    CpiModel { ep_map: Seq::empty(), ts_type_indicators: Seq::empty() }
}

impl Default for Cpi {
    fn default() -> (r: Self)
        ensures
            r@ == empty_cpi(),
    {
        let r = Cpi { ep_map: Vec::new(), ts_type_indicators: Vec::new() };
        assert(r@ =~= empty_cpi());
        r
    }
}

/// Whether an `EP_stream_type` names a video stream: 1 for MPEG-2, 5 for AVC,
/// 6 for VC-1.
pub open spec fn is_video_type(t: u8) -> bool {
    t == 1 || t == 5 || t == 6
}

/// Whether a map is to be preferred to another one: a video stream to any
/// other, then the lower PID.
pub open spec fn preferred_map(a: EpMapModel, b: EpMapModel) -> bool {
    if is_video_type(a.ep_stream_type) == is_video_type(b.ep_stream_type) {
        a.stream_pid < b.stream_pid
    } else {
        is_video_type(a.ep_stream_type)
    }
}

/// The map of the primary video stream: the first one to which no other is
/// preferred.
pub open spec fn primary_map(maps: Seq<EpMapModel>) -> Option<EpMapModel>
    decreases maps.len(),
{
    if maps.len() == 0 {
        None
    } else {
        match primary_map(maps.drop_last()) {
            Some(best) => if preferred_map(maps.last(), best) {
                Some(maps.last())
            } else {
                Some(best)
            },
            None => Some(maps.last()),
        }
    }
}

fn names_video(t: u8) -> (r: bool)
    ensures
        r == is_video_type(t),
{
    t == 1 || t == 5 || t == 6
}

impl Cpi {
    /// The map of the primary video stream.
    pub fn primary_video_ep_map(&self) -> (r: Option<&EpMap>)
        ensures
            match r {
                Some(ep) => primary_map(self@.ep_map) == Some(ep@),
                None => primary_map(self@.ep_map) is None && self.ep_map@.len() == 0,
            },
    {
        let ghost models = ep_map_models(self.ep_map@);
        let mut best: Option<usize> = None;
        let mut i: usize = 0;
        assert(models.take(0) =~= Seq::empty());
        while i < self.ep_map.len()
            invariant
                i <= self.ep_map@.len(),
                models == ep_map_models(self.ep_map@),
                match best {
                    Some(k) => k < i && primary_map(models.take(i as int)) == Some(
                        self.ep_map@[k as int]@,
                    ),
                    None => i == 0 && primary_map(models.take(i as int)) is None,
                },
            decreases self.ep_map@.len() - i,
        {
            let ep = &self.ep_map[i];
            proof {
                assert(models.take(i + 1).drop_last() =~= models.take(i as int));
                assert(models.take(i + 1).last() == ep@);
            }
            match best {
                Some(k) => {
                    let other = &self.ep_map[k];
                    let a = names_video(ep.ep_stream_type);
                    let b = names_video(other.ep_stream_type);
                    if (a == b && ep.stream_pid < other.stream_pid) || (a && !b) {
                        best = Some(i);
                    }
                },
                None => {
                    best = Some(i);
                },
            }
            i += 1;
        }
        assert(models.take(i as int) =~= models);
        match best {
            Some(k) => Some(&self.ep_map[k]),
            None => None,
        }
    }
}

/// Model of [`ClipInformation`].
#[verifier::ext_equal]
pub struct ClipModel {
    pub version: [u8; 4],
    pub clip_info: ClipInfo,
    pub atc_sequences: Seq<AtcSequenceModel>,
    pub programs: Seq<ProgramEntryModel>,
    pub cpi: CpiModel,
    pub num_marks: u16,
}

impl View for ClipInformation {
    type V = ClipModel;

    open spec fn view(&self) -> ClipModel {
        ClipModel {
            version: self.version,
            clip_info: self.clip_info,
            atc_sequences: atc_models(self.sequence_info.atc_sequences@),
            programs: program_models(self.program_info.programs@),
            cpi: self.cpi@,
            num_marks: self.clip_mark.num_marks,
        }
    }
}

// ---------------------------------------------------------------------
// What stands at an offset
// ---------------------------------------------------------------------

/// The STC sequence at `p`.
pub open spec fn stc_at(s: Seq<u8>, p: int) -> Option<(StcSequence, int)> {
    if p + 14 > s.len() {
        None
    } else {
        Some(
            (
                StcSequence {
                    pcr_pid: be16(s, p),
                    spn_stc_start: be32(s, p + 2),
                    presentation_start_time: be32(s, p + 6),
                    presentation_end_time: be32(s, p + 10),
                },
                p + 14,
            ),
        )
    }
}

pub open spec fn stc_reader(s: Seq<u8>) -> spec_fn(int) -> Option<(StcSequence, int)> {
    |p: int| stc_at(s, p)
}

/// The ATC sequence at `p`.
pub open spec fn atc_at(s: Seq<u8>, p: int) -> Option<(AtcSequenceModel, int)> {
    if p + 6 > s.len() {
        None
    } else {
        match list_at(stc_reader(s), p + 6, s[p + 4] as nat) {
            None => None,
            Some((stcs, q)) => Some(
                (
                    AtcSequenceModel {
                        spn_atc_start: be32(s, p),
                        stc_sequences: stcs,
                        offset_stc_id: s[p + 5],
                    },
                    q,
                ),
            ),
        }
    }
}

pub open spec fn atc_reader(s: Seq<u8>) -> spec_fn(int) -> Option<(AtcSequenceModel, int)> {
    |p: int| atc_at(s, p)
}

/// The SequenceInfo block at `p`.
pub open spec fn sequence_info_at(s: Seq<u8>, p: int) -> Option<Seq<AtcSequenceModel>> {
    if p + 6 > s.len() {
        None
    } else {
        match list_at(atc_reader(s), p + 6, s[p + 5] as nat) {
            None => None,
            Some((atcs, _)) => Some(atcs),
        }
    }
}

/// The stream coding entry at `p`. Its length byte says where the next begins.
pub open spec fn stream_at(s: Seq<u8>, p: int) -> Option<(StreamCodingInfo, int)> {
    if p + 5 > s.len() || p + 3 + s[p + 2] > s.len() {
        None
    } else {
        Some(
            (
                StreamCodingInfo {
                    pid: be16(s, p),
                    stream_coding_type: s[p + 3],
                    format_info_byte: s[p + 4],
                },
                p + 3 + s[p + 2],
            ),
        )
    }
}

pub open spec fn stream_reader(s: Seq<u8>) -> spec_fn(int) -> Option<(StreamCodingInfo, int)> {
    |p: int| stream_at(s, p)
}

/// The program at `p`.
pub open spec fn program_at(s: Seq<u8>, p: int) -> Option<(ProgramEntryModel, int)> {
    if p + 8 > s.len() {
        None
    } else {
        match list_at(stream_reader(s), p + 8, s[p + 6] as nat) {
            None => None,
            Some((streams, q)) => Some(
                (
                    ProgramEntryModel {
                        spn_program_sequence_start: be32(s, p),
                        program_map_pid: be16(s, p + 4),
                        streams,
                    },
                    q,
                ),
            ),
        }
    }
}

pub open spec fn program_reader(s: Seq<u8>) -> spec_fn(int) -> Option<(ProgramEntryModel, int)> {
    |p: int| program_at(s, p)
}

/// The ProgramInfo block at `p`.
pub open spec fn program_info_at(s: Seq<u8>, p: int) -> Option<Seq<ProgramEntryModel>> {
    if p + 6 > s.len() {
        None
    } else {
        match list_at(program_reader(s), p + 6, s[p + 5] as nat) {
            None => None,
            Some((programs, _)) => Some(programs),
        }
    }
}

/// The ClipInfo block, which stands at a fixed place.
pub open spec fn clip_info_of(s: Seq<u8>) -> Option<ClipInfo> {
    if s.len() < 194 || 44 + be32(s, 40) > s.len() {
        None
    } else {
        Some(
            ClipInfo {
                clip_stream_type: s[46],
                application_type: s[47],
                ts_recording_rate: be32(s, 52),
                number_of_source_packets: be32(s, 56),
                ts_type_info_block: TsTypeInfoBlock {
                    validity_flags: s[188],
                    format_id: array4_at(s, 190),
                },
            },
        )
    }
}

// The CPI block, relative to its first byte:
//
//   0   length of what follows              u32
//   4   12 reserved bits, 4-bit CPI_type    u16
//   6   8 reserved bits, number of streams  u8 u8
//   8   per stream, 12 bytes:
//         stream_PID                        u16
//         10 reserved | 4 EP_stream_type | 16 N_coarse | 18 N_fine
//         EP_map start address              u32, from the byte at 6 on
//
// Each EP map:
//
//   0   fine table start address            u32, from the map's first byte on
//   4   N_coarse rows of 8 bytes:
//         18 ref_to_EP_fine_id | 14 PTS_EP_coarse | 32 SPN_EP_coarse
//   ... N_fine rows of 4 bytes:
//         1 is_angle_change_point | 3 I_end_position_offset
//         | 11 PTS_EP_fine | 17 SPN_EP_fine

/// The header of one stream inside a CPI block.
pub struct EpHeader {
    pub stream_pid: u16,
    pub ep_stream_type: u8,
    pub num_coarse: u32,
    pub num_fine: u32,
    pub body_addr: u32,
}

/// The stream header at `p`.
pub open spec fn ep_header_at(s: Seq<u8>, p: int) -> Option<(EpHeader, int)> {
    if p + 12 > s.len() {
        None
    } else {
        Some(
            (
                EpHeader {
                    stream_pid: be16(s, p),
                    ep_stream_type: ((be16(s, p + 2) / 4) % 16) as u8,
                    num_coarse: ((be16(s, p + 2) % 4) * 16384 + be32(s, p + 4) / 262144) as u32,
                    num_fine: be32(s, p + 4) % 262144,
                    body_addr: be32(s, p + 8),
                },
                p + 12,
            ),
        )
    }
}

pub open spec fn ep_header_reader(s: Seq<u8>) -> spec_fn(int) -> Option<(EpHeader, int)> {
    |p: int| ep_header_at(s, p)
}

/// One row of a coarse table.
#[derive(Clone, Copy)]
pub struct CoarseRow {
    pub ref_to_fine: u32,
    pub pts: u32,
    pub spn: u32,
}

/// The coarse row at `p`.
pub open spec fn coarse_at(s: Seq<u8>, p: int) -> Option<(CoarseRow, int)> {
    if p + 8 > s.len() {
        None
    } else {
        Some(
            (
                CoarseRow {
                    ref_to_fine: be32(s, p) / 16384,
                    pts: be32(s, p) % 16384,
                    spn: be32(s, p + 4),
                },
                p + 8,
            ),
        )
    }
}

pub open spec fn coarse_reader(s: Seq<u8>) -> spec_fn(int) -> Option<(CoarseRow, int)> {
    |p: int| coarse_at(s, p)
}

/// One row of a fine table.
#[derive(Clone, Copy)]
pub struct FineRow {
    pub is_angle: bool,
    pub i_end: u8,
    pub pts: u32,
    pub spn: u32,
}

/// The fine row at `p`.
pub open spec fn fine_at(s: Seq<u8>, p: int) -> Option<(FineRow, int)> {
    if p + 4 > s.len() {
        None
    } else {
        let w = be32(s, p);
        Some(
            (
                FineRow {
                    is_angle: w / 0x8000_0000 == 1,
                    i_end: ((w / 0x1000_0000) % 8) as u8,
                    pts: (w / 0x2_0000) % 2048,
                    spn: w % 0x2_0000,
                },
                p + 4,
            ),
        )
    }
}

pub open spec fn fine_reader(s: Seq<u8>) -> spec_fn(int) -> Option<(FineRow, int)> {
    |p: int| fine_at(s, p)
}

/// The coarse row that covers fine row `fi`, looked for from row `k` on: the
/// last row before the first whose `ref_to_fine` lies beyond `fi`.
pub open spec fn covering(coarses: Seq<CoarseRow>, k: int, fi: int) -> int
    decreases coarses.len() - k,
{
    if k + 1 < coarses.len() && coarses[k + 1].ref_to_fine <= fi {
        covering(coarses, k + 1, fi)
    } else {
        k
    }
}

/// A fine row with its coarse row folded in.
pub open spec fn fold_row(coarse: CoarseRow, fine: FineRow, ep_stream_type: u8) -> EpEntry {
    EpEntry {
        is_angle_change_point: fine.is_angle,
        i_end_position_offset: fine.i_end,
        pts_ep_start: (coarse.pts << 19u32) | (fine.pts << 9u32),
        spn_ep_start: (coarse.spn & 0xFFFE_0000u32) | fine.spn,
        ep_stream_type,
    }
}

/// The entry points that the two tables of a stream spell.
pub open spec fn fold_rows(
    coarses: Seq<CoarseRow>,
    fines: Seq<FineRow>,
    ep_stream_type: u8,
) -> Seq<EpEntry> {
    Seq::new(
        fines.len(),
        |i: int|
            fold_row(
                if coarses.len() == 0 {
                    CoarseRow { ref_to_fine: 0, pts: 0, spn: 0 }
                } else {
                    coarses[covering(coarses, 0, i)]
                },
                fines[i],
                ep_stream_type,
            ),
    )
}

/// The EP map that header `h` of the CPI block at `c` names, and where its
/// fine table ends. `end` is the end of the block.
pub open spec fn ep_map_of(s: Seq<u8>, c: int, end: int, h: EpHeader) -> Option<(EpMapModel, int)> {
    let body = c + 6 + h.body_addr;
    if body >= end || body + 4 > s.len() {
        None
    } else {
        let fine = body + be32(s, body);
        match list_at(coarse_reader(s), body + 4, h.num_coarse as nat) {
            None => None,
            Some((coarses, _)) => if fine > end {
                None
            } else {
                match list_at(fine_reader(s), fine, h.num_fine as nat) {
                    None => None,
                    Some((fines, q)) => Some(
                        (
                            EpMapModel {
                                stream_pid: h.stream_pid,
                                ep_stream_type: h.ep_stream_type,
                                entries: fold_rows(coarses, fines, h.ep_stream_type),
                            },
                            q,
                        ),
                    ),
                }
            },
        }
    }
}

/// The EP maps that the headers `hs` name, and the end of the fine table
/// that reaches furthest (`c + 4` at least).
pub open spec fn ep_maps_of(s: Seq<u8>, c: int, end: int, hs: Seq<EpHeader>) -> Option<
    (Seq<EpMapModel>, int),
>
    decreases hs.len(),
{
    if hs.len() == 0 {
        Some((Seq::empty(), c + 4))
    } else {
        match ep_maps_of(s, c, end, hs.drop_last()) {
            None => None,
            Some((maps, reach)) => match ep_map_of(s, c, end, hs.last()) {
                None => None,
                Some((m, q)) => Some(
                    (
                        maps.push(m),
                        if q > reach {
                            q
                        } else {
                            reach
                        },
                    ),
                ),
            },
        }
    }
}

/// The CPI block at `c`. A block that is too short, or whose type is not
/// the entry-point map, holds no entry points.
pub open spec fn cpi_at(s: Seq<u8>, c: int) -> Option<CpiModel> {
    if c + 4 > s.len() || c + 4 + be32(s, c) > s.len() {
        None
    } else if be32(s, c) < 2 || be16(s, c + 4) % 16 != 1 || be32(s, c) < 4 {
        Some(empty_cpi())
    } else {
        let end = c + 4 + be32(s, c);
        match list_at(ep_header_reader(s), c + 8, s[c + 7] as nat) {
            None => None,
            Some((hs, _)) => match ep_maps_of(s, c, end, hs) {
                None => None,
                Some((maps, reach)) => Some(
                    CpiModel {
                        ep_map: maps,
                        ts_type_indicators: if hs.len() > 0 && reach < end {
                            s.subrange(reach, end)
                        } else {
                            Seq::empty()
                        },
                    },
                ),
            },
        }
    }
}

/// `b"HDMV"`, or `b"CLPI"` for files that carry their extension instead.
pub open spec fn is_clpi_type(t: [u8; 4]) -> bool {
    t == [0x48u8, 0x44, 0x4D, 0x56] || t == [0x43u8, 0x4C, 0x50, 0x49]
}

/// The clip information that the bytes of a file spell, or `None` where
/// they follow no valid layout. A section address of zero, or one beyond
/// the file, names an absent CPI or ClipMark section.
pub open spec fn clip_of(s: Seq<u8>) -> Option<ClipModel> {
    if s.len() < 40 || !is_clpi_type(array4_at(s, 0)) {
        None
    } else {
        let cpi_start = be32(s, 16) as int;
        let mark_start = be32(s, 20) as int;
        match clip_info_of(s) {
            None => None,
            Some(clip_info) => match sequence_info_at(s, be32(s, 8) as int) {
                None => None,
                Some(atc_sequences) => match program_info_at(s, be32(s, 12) as int) {
                    None => None,
                    Some(programs) => match if 0 < cpi_start < s.len() {
                        cpi_at(s, cpi_start)
                    } else {
                        Some(empty_cpi())
                    } {
                        None => None,
                        Some(cpi) => if 0 < mark_start < s.len() && mark_start + 6 > s.len() {
                            None
                        } else {
                            Some(
                                ClipModel {
                                    version: array4_at(s, 4),
                                    clip_info,
                                    atc_sequences,
                                    programs,
                                    cpi,
                                    num_marks: if 0 < mark_start < s.len() {
                                        be16(s, mark_start + 4)
                                    } else {
                                        0
                                    },
                                },
                            )
                        },
                    },
                },
            },
        }
    }
}

// ---------------------------------------------------------------------
// What is said of bytes that spell nothing
// ---------------------------------------------------------------------

pub open spec fn clip_info_refusal(s: Seq<u8>) -> Seq<char> {
    if s.len() < 44 {
        "slice past end"@
    } else if s.len() < 46 {
        past_end_text(46, s.len())
    } else if s.len() < 48 {
        "slice past end"@
    } else if s.len() < 52 {
        past_end_text(52, s.len())
    } else if s.len() < 60 {
        "slice past end"@
    } else if s.len() < 188 {
        past_end_text(188, s.len())
    } else if s.len() < 194 {
        "slice past end"@
    } else {
        past_end_text((44 + be32(s, 40)) as nat, s.len())
    }
}

/// Said of a block at `p` that ends before its records: a length, a reserved
/// byte, a count.
pub open spec fn block_refusal(s: Seq<u8>, p: int) -> Seq<char> {
    if p > s.len() {
        past_end_text(p as nat, s.len())
    } else if p + 4 <= s.len() < p + 5 {
        past_end_text((p + 5) as nat, s.len())
    } else {
        "slice past end"@
    }
}

pub open spec fn stream_refusal(s: Seq<u8>, p: int) -> Seq<char> {
    if p + 5 > s.len() {
        "slice past end"@
    } else {
        past_end_text((p + 3 + s[p + 2]) as nat, s.len())
    }
}

pub open spec fn stream_refusals(s: Seq<u8>) -> spec_fn(int) -> Seq<char> {
    |p: int| stream_refusal(s, p)
}

pub open spec fn program_refusal(s: Seq<u8>, p: int) -> Seq<char> {
    if p + 7 > s.len() {
        "slice past end"@
    } else if p + 8 > s.len() {
        past_end_text((p + 8) as nat, s.len())
    } else {
        list_refusal(stream_reader(s), stream_refusals(s), p + 8, s[p + 6] as nat)
    }
}

pub open spec fn program_refusals(s: Seq<u8>) -> spec_fn(int) -> Seq<char> {
    |p: int| program_refusal(s, p)
}

pub open spec fn program_info_refusal(s: Seq<u8>, p: int) -> Seq<char> {
    if p + 6 > s.len() {
        block_refusal(s, p)
    } else {
        list_refusal(program_reader(s), program_refusals(s), p + 6, s[p + 5] as nat)
    }
}

pub open spec fn ep_map_refusal(s: Seq<u8>, c: int, end: int, h: EpHeader) -> Seq<char> {
    let body = c + 6 + h.body_addr;
    if body >= end {
        "EP_map_for_one_stream_PID start address past CPI body end"@
    } else if body + 4 <= s.len() && list_at(coarse_reader(s), body + 4, h.num_coarse as nat) is Some
        && body + be32(s, body) > end {
        "EP_fine table start address past CPI body end"@
    } else {
        "slice past end"@
    }
}

/// Said of maps of which one is broken: what is said of the first that is.
pub open spec fn ep_maps_refusal(s: Seq<u8>, c: int, end: int, hs: Seq<EpHeader>) -> Seq<char>
    decreases hs.len(),
{
    if hs.len() == 0 {
        Seq::empty()
    } else if ep_maps_of(s, c, end, hs.drop_last()) is None {
        ep_maps_refusal(s, c, end, hs.drop_last())
    } else {
        ep_map_refusal(s, c, end, hs.last())
    }
}

pub open spec fn cpi_refusal(s: Seq<u8>, c: int) -> Seq<char> {
    if c > s.len() {
        past_end_text(c as nat, s.len())
    } else if c + 4 > s.len() {
        "slice past end"@
    } else if c + 4 + be32(s, c) > s.len() {
        "CPI length past EOF"@
    } else {
        match list_at(ep_header_reader(s), c + 8, s[c + 7] as nat) {
            None => "slice past end"@,
            Some((hs, _)) => ep_maps_refusal(s, c, c + 4 + be32(s, c), hs),
        }
    }
}

/// Said of the bytes of a file that spell no clip.
pub open spec fn clip_refusal(s: Seq<u8>) -> Seq<char> {
    if s.len() < 8 {
        "BDMV header truncated"@
    } else if !is_clpi_type(array4_at(s, 0)) {
        type_text(".clpi"@, array4_at(s, 0))
    } else if s.len() < 40 {
        ".clpi truncated"@
    } else if clip_info_of(s) is None {
        clip_info_refusal(s)
    } else if sequence_info_at(s, be32(s, 8) as int) is None {
        block_refusal(s, be32(s, 8) as int)
    } else if program_info_at(s, be32(s, 12) as int) is None {
        program_info_refusal(s, be32(s, 12) as int)
    } else if 0 < be32(s, 16) < s.len() && cpi_at(s, be32(s, 16) as int) is None {
        cpi_refusal(s, be32(s, 16) as int)
    } else {
        "slice past end"@
    }
}

// ---------------------------------------------------------------------
// Reading
// ---------------------------------------------------------------------

fn parse_stc(r: &mut Reader<'_>) -> (x: Result<StcSequence, BlurayError>)
    ensures
        final(r).buf@ == old(r).buf@,
        match x {
            Ok(v) => stc_at(old(r).buf@, old(r).pos as int) == Some((v, final(r).pos as int)),
            Err(e) => stc_at(old(r).buf@, old(r).pos as int) is None && e.is_malformed(
                "slice past end"@,
            ),
        },
{
    let pcr_pid: u16 = r.read_u16()?;
    let spn_stc_start: u32 = r.read_u32()?;
    let presentation_start_time: u32 = r.read_u32()?;
    let presentation_end_time: u32 = r.read_u32()?;
    Ok(
        StcSequence {
            pcr_pid,
            spn_stc_start,
            presentation_start_time,
            presentation_end_time,
        },
    )
}

#[verifier::loop_isolation(false)]
fn parse_stcs(r: &mut Reader<'_>, n: usize) -> (x: Result<Vec<StcSequence>, BlurayError>)
    ensures
        final(r).buf@ == old(r).buf@,
        match x {
            Ok(v) => list_at(stc_reader(old(r).buf@), old(r).pos as int, n as nat) == Some(
                (v@, final(r).pos as int),
            ),
            Err(e) => list_at(stc_reader(old(r).buf@), old(r).pos as int, n as nat) is None
                && e.is_malformed("slice past end"@),
        },
{
    proof {
        reveal(list_at);
    }
    let ghost item = stc_reader(r.buf@);
    let ghost start = r.pos as int;
    let mut out: Vec<StcSequence> = Vec::new();
    let mut i: usize = 0;
    while i < n
        invariant
            i <= n,
            r.buf@ == old(r).buf@,
            item == stc_reader(r.buf@),
            list_at(item, start, i as nat) == Some((out@, r.pos as int)),
        decreases n - i,
    {
        match parse_stc(r) {
            Ok(v) => out.push(v),
            Err(e) => {
                proof {
                    lemma_list_at_none(item, start, (i + 1) as nat, n as nat);
                }
                return Err(e);
            },
        }
        i += 1;
    }
    Ok(out)
}

fn parse_atc(r: &mut Reader<'_>) -> (x: Result<AtcSequence, BlurayError>)
    ensures
        final(r).buf@ == old(r).buf@,
        match x {
            Ok(v) => atc_at(old(r).buf@, old(r).pos as int) == Some((v@, final(r).pos as int)),
            Err(e) => atc_at(old(r).buf@, old(r).pos as int) is None && e.is_malformed(
                "slice past end"@,
            ),
        },
{
    let spn_atc_start: u32 = r.read_u32()?;
    let num_stc: u8 = r.read_u8()?;
    let offset_stc_id: u8 = r.read_u8()?;
    let stc_sequences = parse_stcs(r, num_stc as usize)?;
    Ok(AtcSequence { spn_atc_start, stc_sequences, offset_stc_id })
}

#[verifier::loop_isolation(false)]
fn parse_sequence_info(r: &mut Reader<'_>, start: usize) -> (x: Result<SequenceInfo, BlurayError>)
    ensures
        final(r).buf@ == old(r).buf@,
        match x {
            Ok(v) => sequence_info_at(old(r).buf@, start as int) == Some(
                atc_models(v.atc_sequences@),
            ),
            Err(e) => sequence_info_at(old(r).buf@, start as int) is None && e.is_malformed(
                block_refusal(old(r).buf@, start as int),
            ),
        },
{
    proof {
        reveal(list_at);
    }
    r.seek(start)?;
    let _seq_len: u32 = r.read_u32()?;
    r.skip(1)?;
    let num_atc: usize = r.read_u8()? as usize;
    let ghost item = atc_reader(r.buf@);
    let ghost p0 = r.pos as int;
    let mut out: Vec<AtcSequence> = Vec::new();
    assert(atc_models(out@) =~= Seq::empty());
    let mut i: usize = 0;
    while i < num_atc
        invariant
            i <= num_atc,
            r.buf@ == old(r).buf@,
            item == atc_reader(r.buf@),
            list_at(item, p0, i as nat) == Some((atc_models(out@), r.pos as int)),
        decreases num_atc - i,
    {
        let ghost before = atc_models(out@);
        match parse_atc(r) {
            Ok(v) => {
                out.push(v);
                assert(atc_models(out@) =~= before.push(v@));
            },
            Err(e) => {
                proof {
                    lemma_list_at_none(item, p0, (i + 1) as nat, num_atc as nat);
                }
                return Err(e);
            },
        }
        i += 1;
    }
    Ok(SequenceInfo { atc_sequences: out })
}

fn parse_stream(r: &mut Reader<'_>) -> (x: Result<StreamCodingInfo, BlurayError>)
    ensures
        final(r).buf@ == old(r).buf@,
        match x {
            Ok(v) => stream_at(old(r).buf@, old(r).pos as int) == Some((v, final(r).pos as int)),
            Err(e) => stream_at(old(r).buf@, old(r).pos as int) is None && e.is_malformed(
                stream_refusal(old(r).buf@, old(r).pos as int),
            ),
        },
{
    let pid: u16 = r.read_u16()?;
    let sc_len: usize = r.read_u8()? as usize;
    let sc_start: usize = r.pos;
    let stream_coding_type: u8 = r.read_u8()?;
    let format_info_byte: u8 = r.read_u8()?;
    r.seek_from(sc_start, sc_len)?;
    Ok(StreamCodingInfo { pid, stream_coding_type, format_info_byte })
}

#[verifier::loop_isolation(false)]
fn parse_program(r: &mut Reader<'_>) -> (x: Result<ProgramEntry, BlurayError>)
    ensures
        final(r).buf@ == old(r).buf@,
        match x {
            Ok(v) => program_at(old(r).buf@, old(r).pos as int) == Some((v@, final(r).pos as int)),
            Err(e) => program_at(old(r).buf@, old(r).pos as int) is None && e.is_malformed(
                program_refusal(old(r).buf@, old(r).pos as int),
            ),
        },
{
    proof {
        reveal(list_at);
    }
    let spn_program_sequence_start: u32 = r.read_u32()?;
    let program_map_pid: u16 = r.read_u16()?;
    let num_streams: usize = r.read_u8()? as usize;
    r.skip(1)?;
    let ghost item = stream_reader(r.buf@);
    let ghost p0 = r.pos as int;
    let mut streams: Vec<StreamCodingInfo> = Vec::new();
    let mut i: usize = 0;
    while i < num_streams
        invariant
            i <= num_streams,
            r.buf@ == old(r).buf@,
            item == stream_reader(r.buf@),
            list_at(item, p0, i as nat) == Some((streams@, r.pos as int)),
        decreases num_streams - i,
    {
        match parse_stream(r) {
            Ok(v) => streams.push(v),
            Err(e) => {
                proof {
                    lemma_list_refusal(
                        item,
                        stream_refusals(r.buf@),
                        p0,
                        (i + 1) as nat,
                        num_streams as nat,
                    );
                }
                return Err(e);
            },
        }
        i += 1;
    }
    Ok(ProgramEntry { spn_program_sequence_start, program_map_pid, streams })
}

#[verifier::loop_isolation(false)]
fn parse_program_info(r: &mut Reader<'_>, start: usize) -> (x: Result<ProgramInfo, BlurayError>)
    ensures
        final(r).buf@ == old(r).buf@,
        match x {
            Ok(v) => program_info_at(old(r).buf@, start as int) == Some(program_models(v.programs@)),
            Err(e) => program_info_at(old(r).buf@, start as int) is None && e.is_malformed(
                program_info_refusal(old(r).buf@, start as int),
            ),
        },
{
    proof {
        reveal(list_at);
    }
    r.seek(start)?;
    let _prog_len: u32 = r.read_u32()?;
    r.skip(1)?;
    let num_programs: usize = r.read_u8()? as usize;
    let ghost item = program_reader(r.buf@);
    let ghost p0 = r.pos as int;
    let mut out: Vec<ProgramEntry> = Vec::new();
    assert(program_models(out@) =~= Seq::empty());
    let mut i: usize = 0;
    while i < num_programs
        invariant
            i <= num_programs,
            r.buf@ == old(r).buf@,
            item == program_reader(r.buf@),
            list_at(item, p0, i as nat) == Some((program_models(out@), r.pos as int)),
        decreases num_programs - i,
    {
        let ghost before = program_models(out@);
        match parse_program(r) {
            Ok(v) => {
                out.push(v);
                assert(program_models(out@) =~= before.push(v@));
            },
            Err(e) => {
                proof {
                    lemma_list_refusal(
                        item,
                        program_refusals(r.buf@),
                        p0,
                        (i + 1) as nat,
                        num_programs as nat,
                    );
                }
                return Err(e);
            },
        }
        i += 1;
    }
    Ok(ProgramInfo { programs: out })
}

/// The four fields of a stream header's packed bits.
proof fn lemma_ep_header_bits(s: Seq<u8>, q: int)
    requires
        0 <= q,
        q + 6 <= s.len(),
    ensures
        bits_at(s.subrange(q, q + 6), 10, 4) == (be16(s, q) / 4) % 16,
        bits_at(s.subrange(q, q + 6), 14, 16) == (be16(s, q) % 4) * 16384 + be32(s, q + 2) / 262144,
        bits_at(s.subrange(q, q + 6), 30, 18) == be32(s, q + 2) % 262144,
{
    lemma2_to64();
    let k = 8 * q;
    lemma_bits_subrange(s, q, q + 6, 10, 4);
    lemma_bits_subrange(s, q, q + 6, 14, 16);
    lemma_bits_subrange(s, q, q + 6, 30, 18);
    lemma_bits_be16(s, q);
    lemma_bits_be32(s, q + 2);
    lemma_bits_split(s, k, 14, 2);
    lemma_bits_split(s, k, 10, 4);
    lemma_bits_split(s, k + 16, 14, 18);
    lemma_bits_split(s, k + 14, 2, 14);
    lemma_bits_bound(s, k + 10, 4);
    lemma_bits_bound(s, k + 14, 2);
    lemma_bits_bound(s, k + 16, 14);
    lemma_bits_bound(s, k + 30, 18);
    assert(8 * (q + 2) == k + 16);
    assert(k + 16 + 14 == k + 30);
    assert(k + 14 + 2 == k + 16);
}

/// The three fields of a coarse row.
proof fn lemma_coarse_bits(s: Seq<u8>, q: int)
    requires
        0 <= q,
        q + 8 <= s.len(),
    ensures
        bits_at(s.subrange(q, q + 8), 0, 18) == be32(s, q) / 16384,
        bits_at(s.subrange(q, q + 8), 18, 14) == be32(s, q) % 16384,
        bits_at(s.subrange(q, q + 8), 32, 32) == be32(s, q + 4),
{
    lemma2_to64();
    let k = 8 * q;
    lemma_bits_subrange(s, q, q + 8, 0, 18);
    lemma_bits_subrange(s, q, q + 8, 18, 14);
    lemma_bits_subrange(s, q, q + 8, 32, 32);
    lemma_bits_be32(s, q);
    lemma_bits_be32(s, q + 4);
    lemma_bits_split(s, k, 18, 14);
    lemma_bits_bound(s, k + 18, 14);
    assert(8 * (q + 4) == k + 32);
}

/// Four fields of 1, 3, 11 and 17 bits, taken apart again.
proof fn lemma_fine_fields(a: int, b: int, c: int, d: int, w: int)
    requires
        0 <= a < 2,
        0 <= b < 8,
        0 <= c < 2048,
        0 <= d < 0x2_0000,
        w == ((a * 8 + b) * 2048 + c) * 0x2_0000 + d,
    ensures
        w / 0x8000_0000 == a,
        (w / 0x1000_0000) % 8 == b,
        (w / 0x2_0000) % 2048 == c,
        w % 0x2_0000 == d,
{
}

/// The four fields of a fine row.
proof fn lemma_fine_bits(s: Seq<u8>, q: int)
    requires
        0 <= q,
        q + 4 <= s.len(),
    ensures
        bits_at(s.subrange(q, q + 4), 0, 1) == be32(s, q) / 0x8000_0000,
        bits_at(s.subrange(q, q + 4), 1, 3) == (be32(s, q) / 0x1000_0000) % 8,
        bits_at(s.subrange(q, q + 4), 4, 11) == (be32(s, q) / 0x2_0000) % 2048,
        bits_at(s.subrange(q, q + 4), 15, 17) == be32(s, q) % 0x2_0000,
{
    let k = 8 * q;
    let a = bits_at(s, k, 1);
    let b = bits_at(s, k + 1, 3);
    let c = bits_at(s, k + 4, 11);
    let d = bits_at(s, k + 15, 17);
    lemma_bits_subrange(s, q, q + 4, 0, 1);
    lemma_bits_subrange(s, q, q + 4, 1, 3);
    lemma_bits_subrange(s, q, q + 4, 4, 11);
    lemma_bits_subrange(s, q, q + 4, 15, 17);
    lemma_bits_be32(s, q);
    assert(a < 2 && b < 8 && c < 2048 && d < 0x2_0000) by {
        lemma2_to64();
        lemma_bits_bound(s, k + 1, 3);
        lemma_bits_bound(s, k + 4, 11);
        lemma_bits_bound(s, k + 15, 17);
        lemma_bits_bound(s, k, 1);
    }
    assert(bits_at(s, k, 32) == bits_at(s, k, 15) * 0x2_0000 + d) by {
        lemma2_to64();
        lemma_bits_split(s, k, 15, 17);
    }
    assert(bits_at(s, k, 15) == bits_at(s, k, 4) * 2048 + c) by {
        lemma2_to64();
        lemma_bits_split(s, k, 4, 11);
    }
    assert(bits_at(s, k, 4) == a * 8 + b) by {
        lemma2_to64();
        lemma_bits_split(s, k, 1, 3);
    }
    lemma_fine_fields(a as int, b as int, c as int, d as int, be32(s, q) as int);
}

fn parse_ep_header(r: &mut Reader<'_>) -> (x: Result<EpHeader, BlurayError>)
    ensures
        final(r).buf@ == old(r).buf@,
        match x {
            Ok(v) => ep_header_at(old(r).buf@, old(r).pos as int) == Some((v, final(r).pos as int)),
            Err(e) => ep_header_at(old(r).buf@, old(r).pos as int) is None && e.is_malformed(
                "slice past end"@,
            ),
        },
{
    let stream_pid: u16 = r.read_u16()?;
    let ghost q = r.pos as int;
    let packed = r.slice(6)?;
    proof {
        lemma_ep_header_bits(r.buf@, q);
    }
    let mut br = BitReader::new(packed);
    let _reserved: u32 = br.read_bits(10)?;
    let ep_stream_type: u8 = br.read_bits(4)? as u8;
    let num_coarse: u32 = br.read_bits(16)?;
    let num_fine: u32 = br.read_bits(18)?;
    let body_addr: u32 = r.read_u32()?;
    Ok(EpHeader { stream_pid, ep_stream_type, num_coarse, num_fine, body_addr })
}

#[verifier::loop_isolation(false)]
fn parse_ep_headers(r: &mut Reader<'_>, n: usize) -> (x: Result<Vec<EpHeader>, BlurayError>)
    ensures
        final(r).buf@ == old(r).buf@,
        match x {
            Ok(v) => list_at(ep_header_reader(old(r).buf@), old(r).pos as int, n as nat) == Some(
                (v@, final(r).pos as int),
            ),
            Err(e) => list_at(ep_header_reader(old(r).buf@), old(r).pos as int, n as nat) is None
                && e.is_malformed("slice past end"@),
        },
{
    proof {
        reveal(list_at);
    }
    let ghost item = ep_header_reader(r.buf@);
    let ghost start = r.pos as int;
    let mut out: Vec<EpHeader> = Vec::new();
    let mut i: usize = 0;
    while i < n
        invariant
            i <= n,
            r.buf@ == old(r).buf@,
            list_at(item, start, i as nat) == Some((out@, r.pos as int)),
        decreases n - i,
    {
        match parse_ep_header(r) {
            Ok(v) => out.push(v),
            Err(e) => {
                proof {
                    lemma_list_at_none(item, start, (i + 1) as nat, n as nat);
                }
                return Err(e);
            },
        }
        i += 1;
    }
    Ok(out)
}

#[verifier::loop_isolation(false)]
fn parse_coarses(r: &mut Reader<'_>, n: u32) -> (x: Result<Vec<CoarseRow>, BlurayError>)
    ensures
        final(r).buf@ == old(r).buf@,
        match x {
            Ok(v) => list_at(coarse_reader(old(r).buf@), old(r).pos as int, n as nat) == Some(
                (v@, final(r).pos as int),
            ),
            Err(e) => list_at(coarse_reader(old(r).buf@), old(r).pos as int, n as nat) is None
                && e.is_malformed("slice past end"@),
        },
{
    proof {
        reveal(list_at);
    }
    let ghost item = coarse_reader(r.buf@);
    let ghost start = r.pos as int;
    let mut out: Vec<CoarseRow> = Vec::new();
    let mut i: u32 = 0;
    while i < n
        invariant
            i <= n,
            r.buf@ == old(r).buf@,
            list_at(item, start, i as nat) == Some((out@, r.pos as int)),
        decreases n - i,
    {
        let ghost q = r.pos as int;
        match r.slice(8) {
            Ok(bytes) => {
                proof {
                    lemma_coarse_bits(r.buf@, q);
                }
                let mut br = BitReader::new(bytes);
                let ref_to_fine: u32 = br.read_bits(18)?;
                let pts: u32 = br.read_bits(14)?;
                let spn: u32 = br.read_bits(32)?;
                out.push(CoarseRow { ref_to_fine, pts, spn });
            },
            Err(e) => {
                proof {
                    lemma_list_at_none(item, start, (i + 1) as nat, n as nat);
                }
                return Err(e);
            },
        }
        i += 1;
    }
    Ok(out)
}

#[verifier::loop_isolation(false)]
fn parse_fines(r: &mut Reader<'_>, n: u32) -> (x: Result<Vec<FineRow>, BlurayError>)
    ensures
        final(r).buf@ == old(r).buf@,
        match x {
            Ok(v) => list_at(fine_reader(old(r).buf@), old(r).pos as int, n as nat) == Some(
                (v@, final(r).pos as int),
            ),
            Err(e) => list_at(fine_reader(old(r).buf@), old(r).pos as int, n as nat) is None
                && e.is_malformed("slice past end"@),
        },
{
    proof {
        reveal(list_at);
    }
    let ghost item = fine_reader(r.buf@);
    let ghost start = r.pos as int;
    let mut out: Vec<FineRow> = Vec::new();
    let mut i: u32 = 0;
    while i < n
        invariant
            i <= n,
            r.buf@ == old(r).buf@,
            list_at(item, start, i as nat) == Some((out@, r.pos as int)),
        decreases n - i,
    {
        let ghost q = r.pos as int;
        match r.slice(4) {
            Ok(bytes) => {
                proof {
                    lemma_fine_bits(r.buf@, q);
                }
                let mut br = BitReader::new(bytes);
                let is_angle = br.read_bits(1)? != 0;
                let i_end: u8 = br.read_bits(3)? as u8;
                let pts: u32 = br.read_bits(11)?;
                let spn: u32 = br.read_bits(17)?;
                out.push(FineRow { is_angle, i_end, pts, spn });
            },
            Err(e) => {
                proof {
                    lemma_list_at_none(item, start, (i + 1) as nat, n as nat);
                }
                return Err(e);
            },
        }
        i += 1;
    }
    Ok(out)
}

/// The search for the covering row may start at any row that is known to
/// begin no later than the fine row.
proof fn lemma_covering_from(coarses: Seq<CoarseRow>, k: int, fi: int)
    requires
        0 <= k < coarses.len(),
        forall|j: int| 1 <= j <= k ==> (#[trigger] coarses[j]).ref_to_fine <= fi,
    ensures
        covering(coarses, 0, fi) == covering(coarses, k, fi),
    decreases k,
{
    if k > 0 {
        lemma_covering_from(coarses, k - 1, fi);
        assert(coarses[k].ref_to_fine <= fi);
    }
}

/// Fold each fine row with the coarse row that covers it.
fn combine_rows(coarses: &Vec<CoarseRow>, fines: &Vec<FineRow>, ep_stream_type: u8) -> (out: Vec<
    EpEntry,
>)
    ensures
        out@ == fold_rows(coarses@, fines@, ep_stream_type),
{
    let mut out: Vec<EpEntry> = Vec::new();
    let mut coarse_idx: usize = 0;
    let mut fi: usize = 0;
    while fi < fines.len()
        invariant
            fi <= fines@.len(),
            out@.len() == fi,
            forall|i: int| 0 <= i < fi ==> #[trigger] out@[i] == fold_rows(
                coarses@,
                fines@,
                ep_stream_type,
            )[i],
            coarses@.len() > 0 ==> coarse_idx < coarses@.len(),
            forall|j: int| 1 <= j <= coarse_idx ==> (#[trigger] coarses@[j]).ref_to_fine <= fi,
        decreases fines@.len() - fi,
    {
        while coarse_idx < coarses.len() && coarse_idx + 1 < coarses.len() && (coarses[coarse_idx
            + 1].ref_to_fine as u64) <= fi as u64
            invariant
                fi < fines@.len(),
                coarses@.len() > 0 ==> coarse_idx < coarses@.len(),
                forall|j: int| 1 <= j <= coarse_idx ==> (#[trigger] coarses@[j]).ref_to_fine <= fi,
            decreases coarses@.len() - coarse_idx,
        {
            coarse_idx += 1;
        }
        let coarse = if coarses.len() == 0 {
            CoarseRow { ref_to_fine: 0, pts: 0, spn: 0 }
        } else {
            coarses[coarse_idx]
        };
        proof {
            if coarses@.len() > 0 {
                lemma_covering_from(coarses@, coarse_idx as int, fi as int);
            }
        }
        let fine = fines[fi];
        out.push(
            EpEntry {
                is_angle_change_point: fine.is_angle,
                i_end_position_offset: fine.i_end,
                pts_ep_start: (coarse.pts << 19u32) | (fine.pts << 9u32),
                spn_ep_start: (coarse.spn & 0xFFFE_0000u32) | fine.spn,
                ep_stream_type,
            },
        );
        fi += 1;
    }
    assert(out@ =~= fold_rows(coarses@, fines@, ep_stream_type));
    out
}

fn parse_ep_map(r: &mut Reader<'_>, c: usize, end: usize, h: &EpHeader) -> (x: Result<
    EpMap,
    BlurayError,
>)
    requires
        end <= old(r).buf@.len(),
    ensures
        final(r).buf@ == old(r).buf@,
        match x {
            Ok(v) => ep_map_of(old(r).buf@, c as int, end as int, *h) == Some(
                (v@, final(r).pos as int),
            ),
            Err(e) => ep_map_of(old(r).buf@, c as int, end as int, *h) is None && e.is_malformed(
                ep_map_refusal(old(r).buf@, c as int, end as int, *h),
            ),
        },
{
    let body: u128 = c as u128 + 6 + h.body_addr as u128;
    if body >= end as u128 {
        return Err(
            BlurayError::malformed("EP_map_for_one_stream_PID start address past CPI body end"),
        );
    }
    let body: usize = body as usize;
    r.seek(body)?;
    let fine_addr: u32 = r.read_u32()?;
    let coarses = parse_coarses(r, h.num_coarse)?;
    let fine: u128 = body as u128 + fine_addr as u128;
    if fine > end as u128 {
        return Err(BlurayError::malformed("EP_fine table start address past CPI body end"));
    }
    r.seek(fine as usize)?;
    let fines = parse_fines(r, h.num_fine)?;
    let entries = combine_rows(&coarses, &fines, h.ep_stream_type);
    Ok(EpMap { stream_pid: h.stream_pid, ep_stream_type: h.ep_stream_type, entries })
}

/// Headers that name a broken map leave no list of maps.
proof fn lemma_ep_maps_none(s: Seq<u8>, c: int, end: int, hs: Seq<EpHeader>, i: int)
    requires
        0 <= i <= hs.len(),
        ep_maps_of(s, c, end, hs.take(i)) is None,
    ensures
        ep_maps_of(s, c, end, hs) is None,
        ep_maps_refusal(s, c, end, hs) == ep_maps_refusal(s, c, end, hs.take(i)),
    decreases hs.len(),
{
    if i < hs.len() {
        assert(hs.drop_last().take(i) =~= hs.take(i));
        lemma_ep_maps_none(s, c, end, hs.drop_last(), i);
    } else {
        assert(hs.take(i) =~= hs);
    }
}

/// Read the CPI block at `cpi_start`.
#[verifier::loop_isolation(false)]
fn parse_cpi(buf: &[u8], cpi_start: usize) -> (x: Result<Cpi, BlurayError>)
    ensures
        match x {
            Ok(v) => cpi_at(buf@, cpi_start as int) == Some(v@),
            Err(e) => cpi_at(buf@, cpi_start as int) is None && e.is_malformed(
                cpi_refusal(buf@, cpi_start as int),
            ),
        },
{
    let mut r = Reader::new(buf);
    r.seek(cpi_start)?;
    let cpi_len: u32 = r.read_u32()?;
    let body_start: usize = r.pos;
    if !r.fits(cpi_len as usize) {
        return Err(BlurayError::malformed("CPI length past EOF"));
    }
    let end: usize = body_start + cpi_len as usize;
    if cpi_len < 2 {
        return Ok(Cpi::default());
    }
    let head: u16 = r.read_u16()?;
    if head % 16 != 1 || cpi_len < 4 {
        return Ok(Cpi::default());
    }
    let _reserved: u8 = r.read_u8()?;
    let num_streams: usize = r.read_u8()? as usize;
    let headers = parse_ep_headers(&mut r, num_streams)?;
    let ghost s = buf@;
    let ghost c = cpi_start as int;
    let mut maps: Vec<EpMap> = Vec::new();
    let mut reach: usize = body_start;
    let mut i: usize = 0;
    assert(headers@.take(0) =~= Seq::empty());
    assert(ep_map_models(maps@) =~= Seq::empty());
    while i < headers.len()
        invariant
            i <= headers@.len(),
            r.buf@ == s,
            ep_maps_of(s, c, end as int, headers@.take(i as int)) == Some(
                (ep_map_models(maps@), reach as int),
            ),
        decreases headers@.len() - i,
    {
        let ghost before = ep_map_models(maps@);
        proof {
            assert(headers@.take(i + 1).drop_last() =~= headers@.take(i as int));
            assert(headers@.take(i + 1).last() == headers@[i as int]);
        }
        match parse_ep_map(&mut r, cpi_start, end, &headers[i]) {
            Ok(m) => {
                maps.push(m);
                assert(ep_map_models(maps@) =~= before.push(m@));
                if r.pos > reach {
                    reach = r.pos;
                }
            },
            Err(e) => {
                proof {
                    lemma_ep_maps_none(s, c, end as int, headers@, i + 1);
                }
                return Err(e);
            },
        }
        i += 1;
    }
    assert(headers@.take(i as int) =~= headers@);
    let ts_type_indicators = if headers.len() > 0 && reach < end {
        vstd::slice::slice_to_vec(vstd::slice::slice_subrange(buf, reach, end))
    } else {
        Vec::new()
    };
    Ok(Cpi { ep_map: maps, ts_type_indicators })
}

impl ClipInformation {
    /// Read a whole `.clpi` file.
    pub fn parse(buf: &[u8]) -> (x: Result<Self, BlurayError>)
        ensures
            match x {
                Ok(v) => clip_of(buf@) == Some(v@),
                Err(e) => clip_of(buf@) is None && e.is_malformed(
                    clip_refusal(buf@),
                ),
            },
    {
        let header = BdmvHeader::parse(buf)?;
        let t = header.type_indicator;
        let known = (t[0] == 0x48 && t[1] == 0x44 && t[2] == 0x4D && t[3] == 0x56) || (t[0] == 0x43
            && t[1] == 0x4C && t[2] == 0x50 && t[3] == 0x49);
        proof {
            let hdmv = [0x48u8, 0x44, 0x4D, 0x56];
            let clpi = [0x43u8, 0x4C, 0x50, 0x49];
            if known {
                assert(*t =~= hdmv || *t =~= clpi);
            }
            assert(known == is_clpi_type(*t));
        }
        if !known {
            return Err(bad_type(".clpi", t));
        }
        let version = *header.version_number;
        if buf.len() < 40 {
            return Err(BlurayError::malformed(".clpi truncated"));
        }
        let mut r = Reader::new(buf);
        r.seek(8)?;
        let seq_start: usize = r.read_u32()? as usize;
        let prog_start: usize = r.read_u32()? as usize;
        let cpi_start: usize = r.read_u32()? as usize;
        let mark_start: usize = r.read_u32()? as usize;
        r.seek(40)?;
        let clip_info = parse_clip_info(&mut r)?;
        let sequence_info = parse_sequence_info(&mut r, seq_start)?;
        let program_info = parse_program_info(&mut r, prog_start)?;
        let cpi = if cpi_start > 0 && cpi_start < buf.len() {
            parse_cpi(buf, cpi_start)?
        } else {
            Cpi::default()
        };
        let clip_mark = if mark_start > 0 && mark_start < buf.len() {
            r.seek(mark_start)?;
            let _mark_len: u32 = r.read_u32()?;
            let num_marks: u16 = r.read_u16()?;
            ClipMark { num_marks }
        } else {
            ClipMark::default()
        };
        Ok(ClipInformation { version, clip_info, sequence_info, program_info, cpi, clip_mark })
    }
}

fn parse_clip_info(r: &mut Reader<'_>) -> (x: Result<ClipInfo, BlurayError>)
    requires
        old(r).pos == 40,
    ensures
        final(r).buf@ == old(r).buf@,
        match x {
            Ok(v) => clip_info_of(old(r).buf@) == Some(v),
            Err(e) => clip_info_of(old(r).buf@) is None && e.is_malformed(
                clip_info_refusal(old(r).buf@),
            ),
        },
{
    let ci_len: usize = r.read_u32()? as usize;
    let ci_start: usize = r.pos;
    r.skip(2)?;
    let clip_stream_type: u8 = r.read_u8()?;
    let application_type: u8 = r.read_u8()?;
    r.skip(4)?;
    let ts_recording_rate: u32 = r.read_u32()?;
    let number_of_source_packets: u32 = r.read_u32()?;
    r.skip(128)?;
    let validity_flags: u8 = r.read_u8()?;
    let _padding: u8 = r.read_u8()?;
    let format_id = r.read_array4()?;
    r.seek_from(ci_start, ci_len)?;
    Ok(
        ClipInfo {
            clip_stream_type,
            application_type,
            ts_recording_rate,
            number_of_source_packets,
            ts_type_info_block: TsTypeInfoBlock { validity_flags, format_id },
        },
    )
}

// ---------------------------------------------------------------------
// The bytes a record is written as
// ---------------------------------------------------------------------

/// A block behind its own length.
pub open spec fn enc_block(body: Seq<u8>) -> Seq<u8> {
    enc32((body.len() % 0x1_0000_0000) as u32) + body
}

pub open spec fn enc_stc(x: StcSequence) -> Seq<u8> {
    enc16(x.pcr_pid) + enc32(x.spn_stc_start) + enc32(x.presentation_start_time) + enc32(
        x.presentation_end_time,
    )
}

pub open spec fn stc_enc() -> spec_fn(StcSequence) -> Seq<u8> {
    |x: StcSequence| enc_stc(x)
}

pub open spec fn enc_atc(x: AtcSequenceModel) -> Seq<u8> {
    enc32(x.spn_atc_start) + enc8((x.stc_sequences.len() % 256) as u8) + enc8(x.offset_stc_id)
        + enc_list(stc_enc(), x.stc_sequences)
}

pub open spec fn atc_enc() -> spec_fn(AtcSequenceModel) -> Seq<u8> {
    |x: AtcSequenceModel| enc_atc(x)
}

#[verifier::opaque]
pub open spec fn enc_sequence_info(xs: Seq<AtcSequenceModel>) -> Seq<u8> {
    enc_block(enc8(0) + enc8((xs.len() % 256) as u8) + enc_list(atc_enc(), xs))
}

pub open spec fn enc_stream(x: StreamCodingInfo) -> Seq<u8> {
    enc16(x.pid) + enc8(2) + enc8(x.stream_coding_type) + enc8(x.format_info_byte)
}

pub open spec fn stream_enc() -> spec_fn(StreamCodingInfo) -> Seq<u8> {
    |x: StreamCodingInfo| enc_stream(x)
}

pub open spec fn enc_program(x: ProgramEntryModel) -> Seq<u8> {
    enc32(x.spn_program_sequence_start) + enc16(x.program_map_pid) + enc8(
        (x.streams.len() % 256) as u8,
    ) + enc8(0) + enc_list(stream_enc(), x.streams)
}

pub open spec fn program_enc() -> spec_fn(ProgramEntryModel) -> Seq<u8> {
    |x: ProgramEntryModel| enc_program(x)
}

#[verifier::opaque]
pub open spec fn enc_program_info(xs: Seq<ProgramEntryModel>) -> Seq<u8> {
    enc_block(enc8(0) + enc8((xs.len() % 256) as u8) + enc_list(program_enc(), xs))
}

/// Two entry points share a coarse row when they agree on these.
pub open spec fn coarse_key(e: EpEntry) -> (u32, u32) {
    (e.pts_ep_start / 0x8_0000, e.spn_ep_start / 0x2_0000)
}

/// The coarse row that begins with entry point `i`.
pub open spec fn coarse_row(i: int, e: EpEntry) -> CoarseRow {
    CoarseRow {
        ref_to_fine: (i % 0x4_0000) as u32,
        pts: e.pts_ep_start / 0x8_0000,
        spn: e.spn_ep_start,
    }
}

/// The coarse table of a stream: one row for every run of entry points
/// with one key.
pub open spec fn coarse_rows(es: Seq<EpEntry>) -> Seq<CoarseRow>
    decreases es.len(),
{
    if es.len() == 0 {
        Seq::empty()
    } else {
        let rows = coarse_rows(es.drop_last());
        let i = es.len() - 1;
        if i == 0 || coarse_key(es[i]) != coarse_key(es[i - 1]) {
            rows.push(coarse_row(i, es[i]))
        } else {
            rows
        }
    }
}

/// The fine row of an entry point.
pub open spec fn fine_row(e: EpEntry) -> FineRow {
    FineRow {
        is_angle: e.is_angle_change_point,
        i_end: e.i_end_position_offset % 8,
        pts: (e.pts_ep_start / 512) % 2048,
        spn: e.spn_ep_start % 0x2_0000,
    }
}

pub open spec fn fine_rows(es: Seq<EpEntry>) -> Seq<FineRow> {
    Seq::new(es.len(), |i: int| fine_row(es[i]))
}

pub open spec fn enc_coarse(x: CoarseRow) -> Seq<u8> {
    enc32(((x.ref_to_fine % 0x4_0000) * 16384 + x.pts % 16384) as u32) + enc32(x.spn)
}

pub open spec fn coarse_enc() -> spec_fn(CoarseRow) -> Seq<u8> {
    |x: CoarseRow| enc_coarse(x)
}

/// The 32 bits of a fine row.
pub open spec fn fine_word(x: FineRow) -> int {
    (((if x.is_angle {
        1int
    } else {
        0int
    }) * 8 + x.i_end % 8) * 2048 + x.pts % 2048) * 0x2_0000 + x.spn % 0x2_0000
}

pub open spec fn enc_fine(x: FineRow) -> Seq<u8> {
    enc32(fine_word(x) as u32)
}

pub open spec fn fine_enc() -> spec_fn(FineRow) -> Seq<u8> {
    |x: FineRow| enc_fine(x)
}

/// The two tables of a stream.
#[verifier::opaque]
pub open spec fn enc_ep_body(m: EpMapModel) -> Seq<u8> {
    enc32(((4 + 8 * coarse_rows(m.entries).len()) % 0x1_0000_0000) as u32) + enc_list(
        coarse_enc(),
        coarse_rows(m.entries),
    ) + enc_list(fine_enc(), fine_rows(m.entries))
}

pub open spec fn ep_body_enc() -> spec_fn(EpMapModel) -> Seq<u8> {
    |m: EpMapModel| enc_ep_body(m)
}

/// The header of stream `i`: its tables follow the headers and the tables
/// of the streams before it.
pub open spec fn ep_header(maps: Seq<EpMapModel>, i: int) -> EpHeader {
    EpHeader {
        stream_pid: maps[i].stream_pid,
        ep_stream_type: maps[i].ep_stream_type,
        num_coarse: (coarse_rows(maps[i].entries).len() % 0x1_0000_0000) as u32,
        num_fine: (maps[i].entries.len() % 0x1_0000_0000) as u32,
        body_addr: ((2 + 12 * maps.len() + enc_list(ep_body_enc(), maps.take(i)).len())
            % 0x1_0000_0000) as u32,
    }
}

pub open spec fn ep_headers(maps: Seq<EpMapModel>) -> Seq<EpHeader> {
    Seq::new(maps.len(), |i: int| ep_header(maps, i))
}

#[verifier::opaque]
pub open spec fn enc_ep_header(h: EpHeader) -> Seq<u8> {
    enc16(h.stream_pid) + enc16(
        ((h.ep_stream_type % 16) * 4 + (h.num_coarse % 0x1_0000) / 16384) as u16,
    ) + enc32(((h.num_coarse % 16384) * 0x4_0000 + h.num_fine % 0x4_0000) as u32) + enc32(
        h.body_addr,
    )
}

pub open spec fn ep_header_enc() -> spec_fn(EpHeader) -> Seq<u8> {
    |h: EpHeader| enc_ep_header(h)
}

/// A CPI block. Without entry points it is an empty block.
#[verifier::opaque]
pub open spec fn enc_cpi(m: CpiModel) -> Seq<u8> {
    if m.ep_map.len() == 0 {
        enc32(0)
    } else {
        enc_block(
            enc16(1) + enc8(0) + enc8((m.ep_map.len() % 256) as u8) + enc_list(
                ep_header_enc(),
                ep_headers(m.ep_map),
            ) + enc_list(ep_body_enc(), m.ep_map) + m.ts_type_indicators,
        )
    }
}

#[verifier::opaque]
pub open spec fn enc_clip_info(x: ClipInfo) -> Seq<u8> {
    enc32(176) + zeros(2) + enc8(x.clip_stream_type) + enc8(x.application_type) + zeros(4) + enc32(
        x.ts_recording_rate,
    ) + enc32(x.number_of_source_packets) + zeros(128) + enc8(x.ts_type_info_block.validity_flags)
        + enc8(0) + enc_array4(x.ts_type_info_block.format_id) + zeros(26)
}

/// A whole file: the fixed part, then the sections in order. The ClipMark
/// section holds the count of marks and no marks.
pub open spec fn enc_clip(m: ClipModel) -> Seq<u8> {
    let seq = enc_sequence_info(m.atc_sequences);
    let prog = enc_program_info(m.programs);
    let cpi = enc_cpi(m.cpi);
    enc_array4([0x43u8, 0x4C, 0x50, 0x49]) + enc_array4(m.version) + enc32(220) + enc32(
        ((220 + seq.len()) % 0x1_0000_0000) as u32,
    ) + enc32(((220 + seq.len() + prog.len()) % 0x1_0000_0000) as u32) + enc32(
        ((220 + seq.len() + prog.len() + cpi.len()) % 0x1_0000_0000) as u32,
    ) + zeros(16) + enc_clip_info(m.clip_info) + seq + prog + cpi + enc32(2) + enc16(
        m.num_marks,
    )
}

// ---------------------------------------------------------------------
// Writing
// ---------------------------------------------------------------------

/// Put `body` behind its own length.
fn block(body: &Vec<u8>) -> (out: Vec<u8>)
    ensures
        out@ == enc_block(body@),
{
    broadcast use lemma_empty_add;

    let mut out: Vec<u8> = Vec::new();
    put_u32(&mut out, low_u32(body.len()));
    put_bytes(&mut out, body);
    out
}

fn encode_stc(x: &StcSequence) -> (out: Vec<u8>)
    ensures
        out@ == enc_stc(*x),
{
    broadcast use lemma_empty_add;

    let mut out: Vec<u8> = Vec::new();
    put_u16(&mut out, x.pcr_pid);
    put_u32(&mut out, x.spn_stc_start);
    put_u32(&mut out, x.presentation_start_time);
    put_u32(&mut out, x.presentation_end_time);
    out
}

fn encode_stcs(xs: &Vec<StcSequence>) -> (out: Vec<u8>)
    ensures
        out@ == enc_list(stc_enc(), xs@),
{
    proof {
        reveal(enc_list);
    }
    let mut out: Vec<u8> = Vec::new();
    let mut i: usize = 0;
    while i < xs.len()
        invariant
            i <= xs@.len(),
            out@ == enc_list(stc_enc(), xs@.take(i as int)),
        decreases xs@.len() - i,
    {
        let bytes = encode_stc(&xs[i]);
        put_bytes(&mut out, &bytes);
        proof {
            lemma_enc_list_push(stc_enc(), xs@, i as int);
        }
        i += 1;
    }
    assert(xs@.take(i as int) =~= xs@);
    out
}

fn encode_atc(x: &AtcSequence) -> (out: Vec<u8>)
    ensures
        out@ == enc_atc(x@),
{
    broadcast use lemma_empty_add;

    let mut out: Vec<u8> = Vec::new();
    put_u32(&mut out, x.spn_atc_start);
    put_u8(&mut out, low_u8(x.stc_sequences.len()));
    put_u8(&mut out, x.offset_stc_id);
    let stcs = encode_stcs(&x.stc_sequences);
    put_bytes(&mut out, &stcs);
    out
}

fn encode_sequence_info(x: &SequenceInfo) -> (out: Vec<u8>)
    ensures
        out@ == enc_sequence_info(atc_models(x.atc_sequences@)),
{
    proof {
        reveal(enc_list);
    }
    proof {
        reveal(enc_sequence_info);
    }
    broadcast use lemma_empty_add;

    let xs = &x.atc_sequences;
    let ghost models = atc_models(xs@);
    let mut list: Vec<u8> = Vec::new();
    let mut i: usize = 0;
    while i < xs.len()
        invariant
            i <= xs@.len(),
            models == atc_models(xs@),
            list@ == enc_list(atc_enc(), models.take(i as int)),
        decreases xs@.len() - i,
    {
        let bytes = encode_atc(&xs[i]);
        put_bytes(&mut list, &bytes);
        proof {
            lemma_enc_list_push(atc_enc(), models, i as int);
        }
        i += 1;
    }
    assert(models.take(i as int) =~= models);
    let mut body: Vec<u8> = Vec::new();
    put_u8(&mut body, 0);
    put_u8(&mut body, low_u8(xs.len()));
    put_bytes(&mut body, &list);
    block(&body)
}

fn encode_stream(x: &StreamCodingInfo) -> (out: Vec<u8>)
    ensures
        out@ == enc_stream(*x),
{
    broadcast use lemma_empty_add;

    let mut out: Vec<u8> = Vec::new();
    put_u16(&mut out, x.pid);
    put_u8(&mut out, 2);
    put_u8(&mut out, x.stream_coding_type);
    put_u8(&mut out, x.format_info_byte);
    out
}

fn encode_program(x: &ProgramEntry) -> (out: Vec<u8>)
    ensures
        out@ == enc_program(x@),
{
    proof {
        reveal(enc_list);
    }
    broadcast use lemma_empty_add;

    let xs = &x.streams;
    let mut list: Vec<u8> = Vec::new();
    let mut i: usize = 0;
    while i < xs.len()
        invariant
            i <= xs@.len(),
            list@ == enc_list(stream_enc(), xs@.take(i as int)),
        decreases xs@.len() - i,
    {
        let bytes = encode_stream(&xs[i]);
        put_bytes(&mut list, &bytes);
        proof {
            lemma_enc_list_push(stream_enc(), xs@, i as int);
        }
        i += 1;
    }
    assert(xs@.take(i as int) =~= xs@);
    let mut out: Vec<u8> = Vec::new();
    put_u32(&mut out, x.spn_program_sequence_start);
    put_u16(&mut out, x.program_map_pid);
    put_u8(&mut out, low_u8(xs.len()));
    put_u8(&mut out, 0);
    put_bytes(&mut out, &list);
    out
}

fn encode_program_info(x: &ProgramInfo) -> (out: Vec<u8>)
    ensures
        out@ == enc_program_info(program_models(x.programs@)),
{
    proof {
        reveal(enc_list);
    }
    proof {
        reveal(enc_program_info);
    }
    broadcast use lemma_empty_add;

    let xs = &x.programs;
    let ghost models = program_models(xs@);
    let mut list: Vec<u8> = Vec::new();
    let mut i: usize = 0;
    while i < xs.len()
        invariant
            i <= xs@.len(),
            models == program_models(xs@),
            list@ == enc_list(program_enc(), models.take(i as int)),
        decreases xs@.len() - i,
    {
        let bytes = encode_program(&xs[i]);
        put_bytes(&mut list, &bytes);
        proof {
            lemma_enc_list_push(program_enc(), models, i as int);
        }
        i += 1;
    }
    assert(models.take(i as int) =~= models);
    let mut body: Vec<u8> = Vec::new();
    put_u8(&mut body, 0);
    put_u8(&mut body, low_u8(xs.len()));
    put_bytes(&mut body, &list);
    block(&body)
}

/// Group the entry points of a stream into coarse rows.
fn build_coarse(es: &Vec<EpEntry>) -> (rows: Vec<CoarseRow>)
    ensures
        rows@ == coarse_rows(es@),
{
    let mut rows: Vec<CoarseRow> = Vec::new();
    let mut i: usize = 0;
    while i < es.len()
        invariant
            i <= es@.len(),
            rows@ == coarse_rows(es@.take(i as int)),
        decreases es@.len() - i,
    {
        proof {
            let t = es@.take(i + 1);
            assert(t.drop_last() =~= es@.take(i as int));
            assert(t[i as int] == es@[i as int]);
            if i > 0 {
                assert(t[i - 1] == es@[i - 1]);
            }
        }
        let e = es[i];
        if i == 0 || e.pts_ep_start / 0x8_0000 != es[i - 1].pts_ep_start / 0x8_0000
            || e.spn_ep_start / 0x2_0000 != es[i - 1].spn_ep_start / 0x2_0000 {
            rows.push(
                CoarseRow {
                    ref_to_fine: (i % 0x4_0000) as u32,
                    pts: e.pts_ep_start / 0x8_0000,
                    spn: e.spn_ep_start,
                },
            );
        }
        i += 1;
    }
    assert(es@.take(i as int) =~= es@);
    rows
}

fn encode_coarse(x: &CoarseRow) -> (out: Vec<u8>)
    ensures
        out@ == enc_coarse(*x),
{
    let mut bw = BitWriter::new();
    bw.write_bits(x.ref_to_fine, 18);
    let ghost n1 = bw.number();
    bw.write_bits(x.pts, 14);
    let ghost n2 = bw.number();
    bw.write_bits(x.spn, 32);
    let ghost n3 = bw.number();
    let out = bw.into_bytes();
    proof {
        assert(n1 == x.ref_to_fine % 0x4_0000) by {
            lemma2_to64();
        }
        assert(n2 == n1 * 16384 + x.pts % 16384) by {
            lemma2_to64();
        }
        assert(n3 == n2 * 0x1_0000_0000 + x.spn) by {
            lemma2_to64();
        }
        assert(bits_at(out@, 0, 64) == bits_at(out@, 0, 32) * 0x1_0000_0000 + bits_at(
            out@,
            32,
            32,
        )) by {
            lemma2_to64();
            lemma_bits_split(out@, 0, 32, 32);
        }
        lemma_bits_be32(out@, 0);
        lemma_bits_be32(out@, 4);
        assert(be32(out@, 0) == n2 && be32(out@, 4) == x.spn);
        lemma_enc32_be32(out@, 0);
        lemma_enc32_be32(out@, 4);
        assert(out@ =~= out@.subrange(0, 4) + out@.subrange(4, 8));
    }
    out
}

fn encode_fine(x: &FineRow) -> (out: Vec<u8>)
    ensures
        out@ == enc_fine(*x),
{
    let mut bw = BitWriter::new();
    let angle: u32 = if x.is_angle {
        1
    } else {
        0
    };
    bw.write_bits(angle, 1);
    let ghost n1 = bw.number();
    bw.write_bits(x.i_end as u32, 3);
    let ghost n2 = bw.number();
    bw.write_bits(x.pts, 11);
    let ghost n3 = bw.number();
    bw.write_bits(x.spn, 17);
    let ghost n4 = bw.number();
    let out = bw.into_bytes();
    proof {
        assert(n1 == angle) by {
            lemma2_to64();
            assert(angle as nat % 2 == angle);
            assert(pow2(1) == 2);
        }
        assert(n2 == n1 * 8 + x.i_end % 8) by {
            lemma2_to64();
        }
        assert(n3 == n2 * 2048 + x.pts % 2048) by {
            lemma2_to64();
        }
        assert(n4 == n3 * 0x2_0000 + x.spn % 0x2_0000) by {
            lemma2_to64();
        }
        lemma_bits_be32(out@, 0);
        lemma_enc32_be32(out@, 0);
        assert(out@ =~= out@.subrange(0, 4));
    }
    out
}

fn encode_ep_header(h: &EpHeader) -> (out: Vec<u8>)
    ensures
        out@ == enc_ep_header(*h),
{
    proof {
        reveal(enc_ep_header);
    }
    broadcast use lemma_empty_add;

    let mut bw = BitWriter::new();
    bw.write_bits(0, 10);
    let ghost n1 = bw.number();
    bw.write_bits(h.ep_stream_type as u32, 4);
    let ghost n2 = bw.number();
    bw.write_bits(h.num_coarse, 16);
    let ghost n3 = bw.number();
    bw.write_bits(h.num_fine, 18);
    let ghost n4 = bw.number();
    let packed = bw.into_bytes();
    proof {
        let hi = (h.ep_stream_type % 16) * 4 + (h.num_coarse % 0x1_0000) / 16384;
        let lo = (h.num_coarse % 16384) * 0x4_0000 + h.num_fine % 0x4_0000;
        assert(n1 == 0) by {
            lemma2_to64();
        }
        assert(n2 == h.ep_stream_type % 16) by {
            lemma2_to64();
        }
        assert(n3 == n2 * 0x1_0000 + h.num_coarse % 0x1_0000) by {
            lemma2_to64();
        }
        assert(n4 == n3 * 0x4_0000 + h.num_fine % 0x4_0000) by {
            lemma2_to64();
        }
        assert(n4 == hi * 0x1_0000_0000 + lo);
        assert(bits_at(packed@, 0, 48) == bits_at(packed@, 0, 16) * 0x1_0000_0000 + bits_at(
            packed@,
            16,
            32,
        )) by {
            lemma2_to64();
            lemma_bits_split(packed@, 0, 16, 32);
        }
        lemma_bits_be16(packed@, 0);
        lemma_bits_be32(packed@, 2);
        assert(be16(packed@, 0) == hi && be32(packed@, 2) == lo);
        lemma_enc16_be16(packed@, 0);
        lemma_enc32_be32(packed@, 2);
    }
    let mut out: Vec<u8> = Vec::new();
    put_u16(&mut out, h.stream_pid);
    put_bytes(&mut out, &packed);
    put_u32(&mut out, h.body_addr);
    assert(out@ =~= enc_ep_header(*h));
    out
}

/// The two tables of one stream, and the number of coarse rows.
fn encode_ep_body(m: &EpMap) -> (r: (Vec<u8>, usize))
    ensures
        r.0@ == enc_ep_body(m@),
        r.1 == coarse_rows(m.entries@).len(),
{
    proof {
        reveal(enc_list);
    }
    proof {
        reveal(enc_ep_body);
    }
    broadcast use lemma_empty_add;

    let rows = build_coarse(&m.entries);
    let mut out: Vec<u8> = Vec::new();
    put_u32(&mut out, ((4 + 8 * (rows.len() as u128)) % 0x1_0000_0000) as u32);
    let mut coarse: Vec<u8> = Vec::new();
    let mut i: usize = 0;
    while i < rows.len()
        invariant
            i <= rows@.len(),
            coarse@ == enc_list(coarse_enc(), rows@.take(i as int)),
        decreases rows@.len() - i,
    {
        let bytes = encode_coarse(&rows[i]);
        put_bytes(&mut coarse, &bytes);
        proof {
            lemma_enc_list_push(coarse_enc(), rows@, i as int);
        }
        i += 1;
    }
    assert(rows@.take(i as int) =~= rows@);
    put_bytes(&mut out, &coarse);
    let mut fine: Vec<u8> = Vec::new();
    let es = &m.entries;
    let ghost fines = fine_rows(es@);
    let mut j: usize = 0;
    while j < es.len()
        invariant
            j <= es@.len(),
            fines == fine_rows(es@),
            fine@ == enc_list(fine_enc(), fines.take(j as int)),
        decreases es@.len() - j,
    {
        let e = es[j];
        let row = FineRow {
            is_angle: e.is_angle_change_point,
            i_end: e.i_end_position_offset % 8,
            pts: (e.pts_ep_start / 512) % 2048,
            spn: e.spn_ep_start % 0x2_0000,
        };
        assert(row == fines[j as int]);
        let bytes = encode_fine(&row);
        put_bytes(&mut fine, &bytes);
        proof {
            lemma_enc_list_push(fine_enc(), fines, j as int);
        }
        j += 1;
    }
    assert(fines.take(j as int) =~= fines);
    put_bytes(&mut out, &fine);
    (out, rows.len())
}

/// Write the CPI block.
fn encode_cpi(cpi: &Cpi) -> (out: Vec<u8>)
    ensures
        out@ == enc_cpi(cpi@),
{
    proof {
        reveal(enc_list);
    }
    proof {
        reveal(enc_cpi);
    }
    broadcast use lemma_empty_add;

    let mut out: Vec<u8> = Vec::new();
    let xs = &cpi.ep_map;
    if xs.len() == 0 {
        put_u32(&mut out, 0);
        return out;
    }
    let ghost maps = ep_map_models(xs@);
    let ghost hs = ep_headers(maps);
    let mut headers: Vec<u8> = Vec::new();
    let mut bodies: Vec<u8> = Vec::new();
    let mut i: usize = 0;
    while i < xs.len()
        invariant
            i <= xs@.len(),
            maps == ep_map_models(xs@),
            hs == ep_headers(maps),
            headers@ == enc_list(ep_header_enc(), hs.take(i as int)),
            bodies@ == enc_list(ep_body_enc(), maps.take(i as int)),
        decreases xs@.len() - i,
    {
        let m = &xs[i];
        let (body, n_coarse) = encode_ep_body(m);
        let addr: u128 = 2 + 12 * (xs.len() as u128) + bodies.len() as u128;
        let h = EpHeader {
            stream_pid: m.stream_pid,
            ep_stream_type: m.ep_stream_type,
            num_coarse: low_u32(n_coarse),
            num_fine: low_u32(m.entries.len()),
            body_addr: (addr % 0x1_0000_0000) as u32,
        };
        assert(h == hs[i as int]);
        let bytes = encode_ep_header(&h);
        put_bytes(&mut headers, &bytes);
        put_bytes(&mut bodies, &body);
        proof {
            lemma_enc_list_push(ep_header_enc(), hs, i as int);
            lemma_enc_list_push(ep_body_enc(), maps, i as int);
        }
        i += 1;
    }
    assert(hs.take(i as int) =~= hs);
    assert(maps.take(i as int) =~= maps);
    put_u16(&mut out, 1);
    put_u8(&mut out, 0);
    put_u8(&mut out, low_u8(xs.len()));
    put_bytes(&mut out, &headers);
    put_bytes(&mut out, &bodies);
    put_bytes(&mut out, &cpi.ts_type_indicators);
    block(&out)
}

fn encode_clip_info(x: &ClipInfo) -> (out: Vec<u8>)
    ensures
        out@ == enc_clip_info(*x),
{
    proof {
        reveal(enc_clip_info);
    }
    broadcast use lemma_empty_add;

    let mut out: Vec<u8> = Vec::new();
    put_u32(&mut out, 176);
    put_zeros(&mut out, 2);
    put_u8(&mut out, x.clip_stream_type);
    put_u8(&mut out, x.application_type);
    put_zeros(&mut out, 4);
    put_u32(&mut out, x.ts_recording_rate);
    put_u32(&mut out, x.number_of_source_packets);
    put_zeros(&mut out, 128);
    put_u8(&mut out, x.ts_type_info_block.validity_flags);
    put_u8(&mut out, 0);
    put_array4(&mut out, &x.ts_type_info_block.format_id);
    put_zeros(&mut out, 26);
    out
}

impl ClipInformation {
    /// Write a whole `.clpi` file.
    pub fn encode(&self) -> (out: Vec<u8>)
        ensures
            out@ == enc_clip(self@),
    {
        broadcast use lemma_empty_add;

        let seq = encode_sequence_info(&self.sequence_info);
        let prog = encode_program_info(&self.program_info);
        let cpi = encode_cpi(&self.cpi);
        let info = encode_clip_info(&self.clip_info);
        let prog_start: u128 = 220 + seq.len() as u128;
        let cpi_start: u128 = prog_start + prog.len() as u128;
        let mark_start: u128 = cpi_start + cpi.len() as u128;
        let mut out: Vec<u8> = Vec::new();
        put_array4(&mut out, &[0x43, 0x4C, 0x50, 0x49]);
        put_array4(&mut out, &self.version);
        put_u32(&mut out, 220);
        put_u32(&mut out, (prog_start % 0x1_0000_0000) as u32);
        put_u32(&mut out, (cpi_start % 0x1_0000_0000) as u32);
        put_u32(&mut out, (mark_start % 0x1_0000_0000) as u32);
        put_zeros(&mut out, 16);
        put_bytes(&mut out, &info);
        put_bytes(&mut out, &seq);
        put_bytes(&mut out, &prog);
        put_bytes(&mut out, &cpi);
        put_u32(&mut out, 2);
        put_u16(&mut out, self.clip_mark.num_marks);
        out
    }
}

// ---------------------------------------------------------------------
// Reading gives back what was written
// ---------------------------------------------------------------------

/// An entry-point map whose fields have their on-disc widths: a four-bit
/// type that every row repeats, three-bit offsets, presentation times in
/// steps of 512, at most 18 bits of rows and 16 bits of coarse rows.
pub open spec fn valid_ep_map(m: EpMapModel) -> bool {
    &&& m.ep_stream_type < 16
    &&& m.entries.len() < 0x4_0000
    &&& coarse_rows(m.entries).len() < 0x1_0000
    &&& forall|i: int|
        0 <= i < m.entries.len() ==> {
            &&& (#[trigger] m.entries[i]).ep_stream_type == m.ep_stream_type
            &&& m.entries[i].i_end_position_offset < 8
            &&& m.entries[i].pts_ep_start % 512 == 0
        }
}

/// A CPI block that the format can hold. Without entry points the block is
/// empty, so it has no room for other bytes.
pub open spec fn valid_cpi(m: CpiModel) -> bool {
    &&& m.ep_map.len() < 256
    &&& m.ep_map.len() == 0 ==> m.ts_type_indicators.len() == 0
    &&& forall|i: int| 0 <= i < m.ep_map.len() ==> valid_ep_map(#[trigger] m.ep_map[i])
}

/// Clip information that the format can hold: every count fits its byte,
/// every section its 32-bit address.
pub open spec fn valid_clip(m: ClipModel) -> bool {
    &&& m.atc_sequences.len() < 256
    &&& forall|i: int|
        0 <= i < m.atc_sequences.len() ==> (#[trigger] m.atc_sequences[i]).stc_sequences.len()
            < 256
    &&& m.programs.len() < 256
    &&& forall|i: int|
        0 <= i < m.programs.len() ==> (#[trigger] m.programs[i]).streams.len() < 256
    &&& valid_cpi(m.cpi)
    &&& enc_clip(m).len() < 0x1_0000_0000
}

proof fn lemma_atc_round_trip(s: Seq<u8>, p: int, x: AtcSequenceModel)
    requires
        has_at(s, p, enc_atc(x)),
        x.stc_sequences.len() < 256,
    ensures
        atc_at(s, p) == Some((x, p + enc_atc(x).len())),
{
    broadcast use group_has_at;

    let xs = x.stc_sequences;
    assert forall|i: int, q: int|
        0 <= i < xs.len() && #[trigger] has_at(s, q, stc_enc()(xs[i])) implies stc_reader(s)(q)
        == Some((xs[i], q + stc_enc()(xs[i]).len())) by {
        assert(has_at(s, q, enc_stc(xs[i])));
    }
    lemma_list_round_trip(s, stc_reader(s), stc_enc(), p + 6, xs);
}

proof fn lemma_sequence_info_round_trip(s: Seq<u8>, p: int, xs: Seq<AtcSequenceModel>)
    requires
        has_at(s, p, enc_sequence_info(xs)),
        xs.len() < 256,
        forall|i: int| 0 <= i < xs.len() ==> (#[trigger] xs[i]).stc_sequences.len() < 256,
    ensures
        sequence_info_at(s, p) == Some(xs),
{
    reveal(enc_sequence_info);
    broadcast use group_has_at;

    assert forall|i: int, q: int|
        0 <= i < xs.len() && #[trigger] has_at(s, q, atc_enc()(xs[i])) implies atc_reader(s)(q)
        == Some((xs[i], q + atc_enc()(xs[i]).len())) by {
        lemma_atc_round_trip(s, q, xs[i]);
    }
    lemma_list_round_trip(s, atc_reader(s), atc_enc(), p + 6, xs);
}

proof fn lemma_program_round_trip(s: Seq<u8>, p: int, x: ProgramEntryModel)
    requires
        has_at(s, p, enc_program(x)),
        x.streams.len() < 256,
    ensures
        program_at(s, p) == Some((x, p + enc_program(x).len())),
{
    broadcast use group_has_at;

    let xs = x.streams;
    assert forall|i: int, q: int|
        0 <= i < xs.len() && #[trigger] has_at(s, q, stream_enc()(xs[i])) implies stream_reader(s)(
        q,
    ) == Some((xs[i], q + stream_enc()(xs[i]).len())) by {
        assert(has_at(s, q, enc_stream(xs[i])));
    }
    lemma_list_round_trip(s, stream_reader(s), stream_enc(), p + 8, xs);
}

proof fn lemma_program_info_round_trip(s: Seq<u8>, p: int, xs: Seq<ProgramEntryModel>)
    requires
        has_at(s, p, enc_program_info(xs)),
        xs.len() < 256,
        forall|i: int| 0 <= i < xs.len() ==> (#[trigger] xs[i]).streams.len() < 256,
    ensures
        program_info_at(s, p) == Some(xs),
{
    reveal(enc_program_info);
    broadcast use group_has_at;

    assert forall|i: int, q: int|
        0 <= i < xs.len() && #[trigger] has_at(s, q, program_enc()(xs[i])) implies program_reader(
        s,
    )(q) == Some((xs[i], q + program_enc()(xs[i]).len())) by {
        lemma_program_round_trip(s, q, xs[i]);
    }
    lemma_list_round_trip(s, program_reader(s), program_enc(), p + 6, xs);
}

/// `row` carries the high bits of `e`.
pub open spec fn row_fits(row: CoarseRow, e: EpEntry) -> bool {
    row.pts == e.pts_ep_start / 0x8_0000 && row.spn / 0x2_0000 == e.spn_ep_start / 0x2_0000
}

/// A row that begins later does not change which row covers.
proof fn lemma_covering_push(rows: Seq<CoarseRow>, row: CoarseRow, k: int, fi: int)
    requires
        0 <= k < rows.len(),
        row.ref_to_fine > fi,
    ensures
        covering(rows.push(row), k, fi) == covering(rows, k, fi),
        k <= covering(rows, k, fi) < rows.len(),
    decreases rows.len() - k,
{
    if k + 1 < rows.len() && rows[k + 1].ref_to_fine <= fi {
        lemma_covering_push(rows, row, k + 1, fi);
    }
}

/// Where every row begins early enough, the last one covers.
proof fn lemma_covering_last(rows: Seq<CoarseRow>, k: int, fi: int)
    requires
        0 <= k < rows.len(),
        forall|j: int| 0 <= j < rows.len() ==> (#[trigger] rows[j]).ref_to_fine <= fi,
    ensures
        covering(rows, k, fi) == rows.len() - 1,
    decreases rows.len() - k,
{
    if k + 1 < rows.len() {
        lemma_covering_last(rows, k + 1, fi);
    }
}

/// Every entry point is covered by a row that carries its high bits.
proof fn lemma_coarse_rows(es: Seq<EpEntry>)
    requires
        es.len() < 0x4_0000,
    ensures
        es.len() > 0 ==> coarse_rows(es).len() > 0,
        forall|k: int|
            0 <= k < coarse_rows(es).len() ==> (#[trigger] coarse_rows(es)[k]).ref_to_fine
                < es.len() && coarse_rows(es)[k].pts < 8192,
        forall|i: int|
            0 <= i < es.len() ==> row_fits(
                coarse_rows(es)[covering(coarse_rows(es), 0, i)],
                #[trigger] es[i],
            ) && 0 <= covering(coarse_rows(es), 0, i) < coarse_rows(es).len(),
    decreases es.len(),
{
    if es.len() > 0 {
        let es0 = es.drop_last();
        let rows0 = coarse_rows(es0);
        let rows = coarse_rows(es);
        let n = es.len() - 1;
        lemma_coarse_rows(es0);
        assert forall|k: int| 0 <= k < rows.len() implies (#[trigger] rows[k]).ref_to_fine
            < es.len() && rows[k].pts < 8192 by {
            if k < rows0.len() {
                assert(rows[k] == rows0[k]);
            }
        }
        assert forall|i: int| 0 <= i < es.len() implies row_fits(
            rows[covering(rows, 0, i)],
            #[trigger] es[i],
        ) && 0 <= covering(rows, 0, i) < rows.len() by {
            if i < n {
                assert(es0[i] == es[i]);
                if rows.len() > rows0.len() {
                    lemma_covering_push(rows0, rows.last(), 0, i);
                    assert(rows =~= rows0.push(rows.last()));
                    assert(rows[covering(rows, 0, i)] == rows0[covering(rows0, 0, i)]);
                }
            } else {
                lemma_covering_last(rows, 0, i);
                if rows.len() == rows0.len() {
                    assert(es0[n - 1] == es[n - 1]);
                    assert(rows == rows0);
                    lemma_covering_last(rows0, 0, n - 1);
                }
            }
        }
    }
}

/// Folding the two tables gives the entry points back.
proof fn lemma_fold_rows(m: EpMapModel)
    requires
        valid_ep_map(m),
    ensures
        fold_rows(coarse_rows(m.entries), fine_rows(m.entries), m.ep_stream_type) == m.entries,
{
    let es = m.entries;
    let rows = coarse_rows(es);
    let fines = fine_rows(es);
    lemma_coarse_rows(es);
    assert forall|i: int| 0 <= i < es.len() implies fold_rows(rows, fines, m.ep_stream_type)[i]
        == #[trigger] es[i] by {
        let row = rows[covering(rows, 0, i)];
        assert(row_fits(row, es[i]));
        let pts = es[i].pts_ep_start;
        let spn = es[i].spn_ep_start;
        let spn_c = row.spn;
        assert(((pts / 0x8_0000u32) << 19u32) | (((pts / 512u32) % 2048u32) << 9u32) == pts)
            by (bit_vector)
            requires
                pts % 512u32 == 0,
        ;
        assert((spn_c & 0xFFFE_0000u32) | (spn % 0x2_0000u32) == spn) by (bit_vector)
            requires
                spn_c / 0x2_0000u32 == spn / 0x2_0000u32,
        ;
    }
    assert(fold_rows(rows, fines, m.ep_stream_type) =~= es);
}

proof fn lemma_coarse_list(s: Seq<u8>, p: int, rows: Seq<CoarseRow>)
    requires
        has_at(s, p, enc_list(coarse_enc(), rows)),
        forall|k: int|
            0 <= k < rows.len() ==> (#[trigger] rows[k]).ref_to_fine < 0x4_0000 && rows[k].pts
                < 8192,
    ensures
        list_at(coarse_reader(s), p, rows.len()) == Some((rows, p + 8 * rows.len())),
        enc_list(coarse_enc(), rows).len() == 8 * rows.len(),
{
    broadcast use group_has_at;

    assert forall|k: int, q: int|
        0 <= k < rows.len() && #[trigger] has_at(s, q, coarse_enc()(rows[k])) implies coarse_reader(
        s,
    )(q) == Some((rows[k], q + coarse_enc()(rows[k]).len())) by {
        assert(has_at(s, q, enc_coarse(rows[k])));
    }
    lemma_enc_list_len(coarse_enc(), rows, 8);
    lemma_list_round_trip(s, coarse_reader(s), coarse_enc(), p, rows);
}

proof fn lemma_fine_list(s: Seq<u8>, p: int, es: Seq<EpEntry>)
    requires
        has_at(s, p, enc_list(fine_enc(), fine_rows(es))),
    ensures
        list_at(fine_reader(s), p, es.len()) == Some((fine_rows(es), p + 4 * es.len())),
        enc_list(fine_enc(), fine_rows(es)).len() == 4 * es.len(),
{
    broadcast use group_has_at;

    let fines = fine_rows(es);
    assert forall|k: int, q: int|
        0 <= k < fines.len() && #[trigger] has_at(s, q, fine_enc()(fines[k])) implies fine_reader(
        s,
    )(q) == Some((fines[k], q + fine_enc()(fines[k]).len())) by {
        let x = fines[k];
        assert(has_at(s, q, enc_fine(x)));
        lemma_fine_fields(
            if x.is_angle {
                1
            } else {
                0
            },
            x.i_end as int,
            x.pts as int,
            x.spn as int,
            fine_word(x),
        );
    }
    lemma_enc_list_len(fine_enc(), fines, 4);
    lemma_list_round_trip(s, fine_reader(s), fine_enc(), p, fines);
}

proof fn lemma_ep_map_round_trip(s: Seq<u8>, c: int, end: int, maps: Seq<EpMapModel>, i: int)
    requires
        0 <= i < maps.len(),
        0 <= c,
        valid_ep_map(maps[i]),
        has_at(
            s,
            c + 8 + 12 * maps.len() + enc_list(ep_body_enc(), maps.take(i)).len(),
            enc_ep_body(maps[i]),
        ),
        c + 8 + 12 * maps.len() + enc_list(ep_body_enc(), maps.take(i + 1)).len() <= end,
        end <= s.len(),
        end < 0x1_0000_0000,
    ensures
        ep_map_of(s, c, end, ep_header(maps, i)) == Some(
            (
                maps[i],
                c + 8 + 12 * maps.len() + enc_list(ep_body_enc(), maps.take(i + 1)).len(),
            ),
        ),
{
    reveal(enc_ep_body);
    let m = maps[i];
    let h = ep_header(maps, i);
    let rows = coarse_rows(m.entries);
    let before = enc_list(ep_body_enc(), maps.take(i)).len();
    let body = c + 8 + 12 * maps.len() + before;
    lemma_coarse_rows(m.entries);
    assert(has_at(s, body, enc32((4 + 8 * rows.len()) as u32)) && has_at(
        s,
        body + 4,
        enc_list(coarse_enc(), rows),
    ) && has_at(
        s,
        body + 4 + enc_list(coarse_enc(), rows).len(),
        enc_list(fine_enc(), fine_rows(m.entries)),
    ) && be32(s, body) == 4 + 8 * rows.len()) by {
        broadcast use group_has_at;

    }
    lemma_coarse_list(s, body + 4, rows);
    lemma_fine_list(s, body + 4 + 8 * rows.len(), m.entries);
    lemma_fold_rows(m);
    lemma_enc_list_push(ep_body_enc(), maps, i);
    assert(enc_ep_body(m).len() == 4 + 8 * rows.len() + 4 * m.entries.len()) by {
        broadcast use lemma_enc32_len;

    }
    assert(h.body_addr == 2 + 12 * maps.len() + before);
}

proof fn lemma_ep_maps_round_trip(s: Seq<u8>, c: int, end: int, maps: Seq<EpMapModel>, i: int)
    requires
        0 <= i <= maps.len(),
        0 <= c,
        forall|k: int| 0 <= k < maps.len() ==> valid_ep_map(#[trigger] maps[k]),
        has_at(s, c + 8 + 12 * maps.len(), enc_list(ep_body_enc(), maps.take(i))),
        c + 8 + 12 * maps.len() + enc_list(ep_body_enc(), maps.take(i)).len() <= end,
        end <= s.len(),
        end < 0x1_0000_0000,
    ensures
        ep_maps_of(s, c, end, ep_headers(maps).take(i)) == Some(
            (
                maps.take(i),
                if i == 0 {
                    c + 4
                } else {
                    c + 8 + 12 * maps.len() + enc_list(ep_body_enc(), maps.take(i)).len()
                },
            ),
        ),
    decreases i,
{
    reveal(enc_list);
    broadcast use lemma_has_at_concat;

    let hs = ep_headers(maps);
    if i == 0 {
        assert(hs.take(0) =~= Seq::empty());
        assert(maps.take(0) =~= Seq::empty());
    } else {
        lemma_enc_list_push(ep_body_enc(), maps, i - 1);
        assert(maps.take(i - 1 + 1) =~= maps.take(i));
        lemma_ep_maps_round_trip(s, c, end, maps, i - 1);
        lemma_ep_map_round_trip(s, c, end, maps, i - 1);
        assert(hs.take(i).drop_last() =~= hs.take(i - 1));
        assert(hs.take(i).last() == ep_header(maps, i - 1));
        assert(maps.take(i - 1).push(maps[i - 1]) =~= maps.take(i));
    }
}

proof fn lemma_ep_header_round_trip(s: Seq<u8>, p: int, h: EpHeader)
    requires
        has_at(s, p, enc_ep_header(h)),
        h.ep_stream_type < 16,
        h.num_coarse < 0x1_0000,
        h.num_fine < 0x4_0000,
    ensures
        ep_header_at(s, p) == Some((h, p + 12)),
        enc_ep_header(h).len() == 12,
{
    broadcast use group_has_at;

    reveal(enc_ep_header);
}

proof fn lemma_ep_header_list(s: Seq<u8>, p: int, maps: Seq<EpMapModel>)
    requires
        has_at(s, p, enc_list(ep_header_enc(), ep_headers(maps))),
        forall|k: int| 0 <= k < maps.len() ==> valid_ep_map(#[trigger] maps[k]),
    ensures
        list_at(ep_header_reader(s), p, maps.len()) == Some((ep_headers(maps), p + 12 * maps.len())),
        enc_list(ep_header_enc(), ep_headers(maps)).len() == 12 * maps.len(),
{
    let hs = ep_headers(maps);
    assert forall|k: int, q: int|
        0 <= k < hs.len() && #[trigger] has_at(s, q, ep_header_enc()(hs[k])) implies
        ep_header_reader(s)(q) == Some((hs[k], q + ep_header_enc()(hs[k]).len())) by {
        assert(valid_ep_map(maps[k]));
        lemma_ep_header_round_trip(s, q, hs[k]);
    }
    assert forall|k: int| 0 <= k < hs.len() implies (#[trigger] ep_header_enc()(hs[k])).len()
        == 12 by {
        broadcast use group_has_at;

        reveal(enc_ep_header);
    }
    lemma_enc_list_len(ep_header_enc(), hs, 12);
    lemma_list_round_trip(s, ep_header_reader(s), ep_header_enc(), p, hs);
}

/// Where the parts of a CPI block stand.
proof fn lemma_cpi_layout(
    s: Seq<u8>,
    c: int,
    len: u32,
    n: u8,
    headers: Seq<u8>,
    bodies: Seq<u8>,
    tail: Seq<u8>,
)
    requires
        has_at(
            s,
            c,
            enc32(len) + (enc16(1) + enc8(0) + enc8(n) + headers + bodies + tail),
        ),
    ensures
        0 <= c,
        c + 8 + headers.len() + bodies.len() + tail.len() <= s.len(),
        be32(s, c) == len,
        be16(s, c + 4) == 1,
        s[c + 7] == n,
        has_at(s, c + 8, headers),
        has_at(s, c + 8 + headers.len(), bodies),
        has_at(s, c + 8 + headers.len() + bodies.len(), tail),
{
    broadcast use group_has_at;

}

proof fn lemma_cpi_round_trip(s: Seq<u8>, c: int, m: CpiModel)
    requires
        has_at(s, c, enc_cpi(m)),
        valid_cpi(m),
        c + enc_cpi(m).len() < 0x1_0000_0000,
    ensures
        cpi_at(s, c) == Some(m),
{
    reveal(enc_list);
    reveal(enc_cpi);
    broadcast use {
        lemma_enc8_len,
        lemma_enc16_len,
        lemma_enc32_len,
    };

    let maps = m.ep_map;
    if maps.len() == 0 {
        lemma_has_at_32(s, c, 0);
        lemma_has_at_bounds(s, c, enc32(0));
        assert(m =~= empty_cpi());
    } else {
        let hs = ep_headers(maps);
        let n = maps.len();
        let hb = enc_list(ep_header_enc(), hs);
        let bb = enc_list(ep_body_enc(), maps);
        let tail = m.ts_type_indicators;
        let len = 4 + hb.len() + bb.len() + tail.len();
        let end = c + 4 + len;
        lemma_has_at_bounds(s, c, enc_cpi(m));
        lemma_cpi_layout(s, c, len as u32, n as u8, hb, bb, tail);
        lemma_ep_header_list(s, c + 8, maps);
        assert(maps.take(n as int) =~= maps);
        assert(hs.take(n as int) =~= hs);
        lemma_ep_maps_round_trip(s, c, end, maps, n as int);
        let reach = c + 8 + 12 * n + bb.len();
        lemma_has_at_subrange(s, reach, tail);
        assert(tail.len() == 0 ==> tail =~= Seq::empty());
    }
}

proof fn lemma_clip_info_round_trip(s: Seq<u8>, x: ClipInfo)
    requires
        has_at(s, 40, enc_clip_info(x)),
    ensures
        clip_info_of(s) == Some(x),
        enc_clip_info(x).len() == 180,
{
    reveal(enc_clip_info);
    broadcast use group_has_at;

}

/// Where the parts of a file stand.
proof fn lemma_clip_layout(
    s: Seq<u8>,
    version: [u8; 4],
    a: u32,
    b: u32,
    c: u32,
    info: Seq<u8>,
    seq: Seq<u8>,
    prog: Seq<u8>,
    cpi: Seq<u8>,
    marks: u16,
)
    requires
        s == enc_array4([0x43u8, 0x4C, 0x50, 0x49]) + enc_array4(version) + enc32(220) + enc32(a)
            + enc32(b) + enc32(c) + zeros(16) + info + seq + prog + cpi + enc32(2) + enc16(marks),
    ensures
        array4_at(s, 0) == [0x43u8, 0x4C, 0x50, 0x49],
        array4_at(s, 4) == version,
        be32(s, 8) == 220,
        be32(s, 12) == a,
        be32(s, 16) == b,
        be32(s, 20) == c,
        has_at(s, 40, info),
        has_at(s, 40int + info.len(), seq),
        has_at(s, 40int + info.len() + seq.len(), prog),
        has_at(s, 40int + info.len() + seq.len() + prog.len(), cpi),
        be16(s, 44int + info.len() + seq.len() + prog.len() + cpi.len()) == marks,
        s.len() == 46 + info.len() + seq.len() + prog.len() + cpi.len(),
{
    broadcast use group_has_at;

    lemma_has_at_self(s);
}

/// Reading a written `.clpi` file gives back what was written.
pub proof fn lemma_clip_round_trip(m: ClipModel)
    requires
        valid_clip(m),
    ensures
        clip_of(enc_clip(m)) == Some(m),
{
    let s = enc_clip(m);
    let info = enc_clip_info(m.clip_info);
    let seq = enc_sequence_info(m.atc_sequences);
    let prog = enc_program_info(m.programs);
    let cpi = enc_cpi(m.cpi);
    let n1 = seq.len() as int;
    let n2 = prog.len() as int;
    let n3 = cpi.len() as int;
    lemma_clip_layout(
        s,
        m.version,
        ((220 + n1) % 0x1_0000_0000) as u32,
        ((220 + n1 + n2) % 0x1_0000_0000) as u32,
        ((220 + n1 + n2 + n3) % 0x1_0000_0000) as u32,
        info,
        seq,
        prog,
        cpi,
        m.num_marks,
    );
    lemma_clip_info_round_trip(s, m.clip_info);
    lemma_sequence_info_round_trip(s, 220, m.atc_sequences);
    lemma_program_info_round_trip(s, 220 + n1, m.programs);
    lemma_cpi_round_trip(s, 220 + n1 + n2, m.cpi);
}

/// A model holds what the fields hold.
pub proof fn lemma_models_hold_fields(
    atc_sequence: AtcSequence,
    program_entry: ProgramEntry,
    ep_map: EpMap,
    cpi: Cpi,
    clip_information: ClipInformation,
    i: int,
)
    ensures
        atc_sequence@.spn_atc_start == atc_sequence.spn_atc_start,
        atc_sequence@.stc_sequences == atc_sequence.stc_sequences@,
        atc_sequence@.offset_stc_id == atc_sequence.offset_stc_id,
        program_entry@.spn_program_sequence_start == program_entry.spn_program_sequence_start,
        program_entry@.program_map_pid == program_entry.program_map_pid,
        program_entry@.streams == program_entry.streams@,
        ep_map@.stream_pid == ep_map.stream_pid,
        ep_map@.ep_stream_type == ep_map.ep_stream_type,
        ep_map@.entries == ep_map.entries@,
        cpi@.ep_map.len() == cpi.ep_map@.len(),
        0 <= i < cpi.ep_map@.len() ==> cpi@.ep_map[i] == cpi.ep_map@[i]@,
        cpi@.ts_type_indicators == cpi.ts_type_indicators@,
        clip_information@.version == clip_information.version,
        clip_information@.clip_info == clip_information.clip_info,
        clip_information@.atc_sequences.len() == clip_information.sequence_info.atc_sequences@.len(),
        0 <= i < clip_information.sequence_info.atc_sequences@.len() ==> clip_information@.atc_sequences[i] == clip_information.sequence_info.atc_sequences@[i]@,
        clip_information@.programs.len() == clip_information.program_info.programs@.len(),
        0 <= i < clip_information.program_info.programs@.len() ==> clip_information@.programs[i] == clip_information.program_info.programs@[i]@,
        clip_information@.cpi == clip_information.cpi@,
        clip_information@.num_marks == clip_information.clip_mark.num_marks,
{
}

} // verus!
