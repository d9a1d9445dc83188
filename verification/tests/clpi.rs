//! Clip information files.
use bluray::bdmv::clpi::{
    AtcSequence, ClipInfo, ClipInformation, ClipMark, Cpi, EpEntry, EpMap, ProgramEntry,
    ProgramInfo, SequenceInfo, StcSequence, StreamCodingInfo, TsTypeInfoBlock,
};
use bluray::bdmv::bits::{BitReader, BitWriter};

fn sample_clpi() -> ClipInformation {
    ClipInformation {
        version: *b"0200",
        clip_info: ClipInfo {
            clip_stream_type: 1,
            application_type: 1,
            ts_recording_rate: 48_000_000,
            number_of_source_packets: 12_345,
            ts_type_info_block: TsTypeInfoBlock {
                validity_flags: 0x80,
                format_id: *b"HDMV",
            },
        },
        sequence_info: SequenceInfo {
            atc_sequences: vec![AtcSequence {
                spn_atc_start: 0,
                offset_stc_id: 0,
                stc_sequences: vec![StcSequence {
                    pcr_pid: 0x1001,
                    spn_stc_start: 0,
                    presentation_start_time: 0,
                    presentation_end_time: 45_000 * 90,
                }],
            }],
        },
        program_info: ProgramInfo {
            programs: vec![ProgramEntry {
                spn_program_sequence_start: 0,
                program_map_pid: 0x0100,
                streams: vec![
                    StreamCodingInfo {
                        pid: 0x1011,
                        stream_coding_type: 0x1B, // H.264
                        format_info_byte: 0x64,   // 1080p / 29.97
                    },
                    StreamCodingInfo {
                        pid: 0x1100,
                        stream_coding_type: 0x80, // LPCM
                        format_info_byte: 0x33,
                    },
                ],
            }],
        },
        cpi: Cpi::default(),
        clip_mark: ClipMark { num_marks: 0 },
    }
}

#[test]
fn clpi_round_trip() {
    let c = sample_clpi();
    let bytes = c.encode();
    let parsed = ClipInformation::parse(&bytes).unwrap();
    assert_eq!(parsed.version, c.version);
    assert_eq!(parsed.clip_info, c.clip_info);
    assert_eq!(parsed.sequence_info, c.sequence_info);
    assert_eq!(parsed.program_info, c.program_info);
    assert_eq!(parsed.clip_mark, c.clip_mark);
}

#[test]
fn clpi_rejects_wrong_type_indicator() {
    let mut bytes = sample_clpi().encode();
    bytes[0] = b'X';
    assert!(ClipInformation::parse(&bytes).is_err());
}

#[test]
fn bit_reader_msb_first() {
    // 0b10110100_01010010 → reading nibbles MSB-first should yield
    // 0xB, 0x4, 0x5, 0x2.
    let bytes = [0xB4, 0x52];
    let mut br = BitReader::new(&bytes);
    assert_eq!(br.read_bits(4).unwrap(), 0xB);
    assert_eq!(br.read_bits(4).unwrap(), 0x4);
    assert_eq!(br.read_bits(4).unwrap(), 0x5);
    assert_eq!(br.read_bits(4).unwrap(), 0x2);
}

#[test]
fn bit_writer_round_trip() {
    let mut bw = BitWriter::new();
    bw.write_bits(0b1011, 4);
    bw.write_bits(0b0100, 4);
    bw.write_bits(0b0101, 4);
    bw.write_bits(0b0010, 4);
    assert!(bw.byte_aligned());
    let v = bw.into_bytes();
    assert_eq!(v, vec![0xB4, 0x52]);
}

/// Encode a CPI block with two stream PIDs (one PID with multiple
/// coarse buckets and three fines; the second PID single-row) and
/// confirm a decode round-trips every public field.
#[test]
fn cpi_round_trip_two_streams() {
    // Bucket 0 of PID 0x1011: pts_ep_start values share (pts >> 19) == 10.
    // Bucket 1 of PID 0x1011: (pts >> 19) == 11, and the SPN is past
    // the 17-bit fine-only boundary so the coarse mask actually kicks in.
    let pts_a0: u32 = 10u32 << 19; // 5242880  (fine_pts = 0)
    let pts_a1: u32 = (10u32 << 19) | (10u32 << 9); // 5248000  (fine_pts = 10)
    let pts_a2: u32 = (11u32 << 19) | (5u32 << 9); // 5769728  (fine_pts = 5)
    let pts_b0: u32 = 0;

    let spn_a0: u32 = 0;
    let spn_a1: u32 = 192;
    // 0x00020000 → 17-bit fine alone can't reach it, so the coarse
    // SPN must contribute its high bits. Round-trip must preserve.
    let spn_a2: u32 = 0x0002_0000 | 100;
    let spn_b0: u32 = 0;

    let cpi = Cpi {
        ep_map: vec![
            EpMap {
                stream_pid: 0x1011,
                ep_stream_type: 1,
                entries: vec![
                    EpEntry {
                        is_angle_change_point: false,
                        i_end_position_offset: 0,
                        pts_ep_start: pts_a0,
                        spn_ep_start: spn_a0,
                        ep_stream_type: 1,
                    },
                    EpEntry {
                        is_angle_change_point: false,
                        i_end_position_offset: 1,
                        pts_ep_start: pts_a1,
                        spn_ep_start: spn_a1,
                        ep_stream_type: 1,
                    },
                    EpEntry {
                        is_angle_change_point: true,
                        i_end_position_offset: 2,
                        pts_ep_start: pts_a2,
                        spn_ep_start: spn_a2,
                        ep_stream_type: 1,
                    },
                ],
            },
            EpMap {
                stream_pid: 0x1100,
                ep_stream_type: 5,
                entries: vec![EpEntry {
                    is_angle_change_point: false,
                    i_end_position_offset: 0,
                    pts_ep_start: pts_b0,
                    spn_ep_start: spn_b0,
                    ep_stream_type: 5,
                }],
            },
        ],
        ts_type_indicators: Vec::new(),
    };

    // Encode → wrap in a minimal CLPI scaffold → parse → compare.
    let mut clpi = sample_clpi();
    clpi.cpi = cpi.clone();
    let bytes = clpi.encode();
    let parsed = ClipInformation::parse(&bytes).unwrap();
    assert_eq!(parsed.cpi.ep_map.len(), 2);

    assert_eq!(parsed.cpi.ep_map[0].stream_pid, 0x1011);
    assert_eq!(parsed.cpi.ep_map[0].ep_stream_type, 1);
    assert_eq!(parsed.cpi.ep_map[0].entries.len(), 3);
    assert_eq!(parsed.cpi.ep_map[0].entries[0].pts_ep_start, pts_a0);
    assert_eq!(parsed.cpi.ep_map[0].entries[1].pts_ep_start, pts_a1);
    assert_eq!(parsed.cpi.ep_map[0].entries[2].pts_ep_start, pts_a2);
    assert_eq!(parsed.cpi.ep_map[0].entries[0].spn_ep_start, spn_a0);
    assert_eq!(parsed.cpi.ep_map[0].entries[1].spn_ep_start, spn_a1);
    assert_eq!(parsed.cpi.ep_map[0].entries[2].spn_ep_start, spn_a2);
    assert!(!parsed.cpi.ep_map[0].entries[0].is_angle_change_point);
    assert!(parsed.cpi.ep_map[0].entries[2].is_angle_change_point);
    assert_eq!(parsed.cpi.ep_map[0].entries[2].i_end_position_offset, 2);
    assert!(parsed.cpi.ep_map[0]
        .entries
        .iter()
        .all(|e| e.ep_stream_type == 1));

    assert_eq!(parsed.cpi.ep_map[1].stream_pid, 0x1100);
    assert_eq!(parsed.cpi.ep_map[1].ep_stream_type, 5);
    assert_eq!(parsed.cpi.ep_map[1].entries.len(), 1);
    assert_eq!(parsed.cpi.ep_map[1].entries[0].pts_ep_start, pts_b0);
    assert_eq!(parsed.cpi.ep_map[1].entries[0].spn_ep_start, spn_b0);
    assert_eq!(parsed.cpi.ep_map[1].entries[0].ep_stream_type, 5);
}

/// Confirm an empty `Cpi` still encodes to a parseable zero-length
/// CPI block — the common path for homemade discs that ship no
/// EP_map.
#[test]
fn cpi_empty_round_trip() {
    let c = sample_clpi();
    assert!(c.cpi.ep_map.is_empty());
    let bytes = c.encode();
    let parsed = ClipInformation::parse(&bytes).unwrap();
    assert!(parsed.cpi.ep_map.is_empty());
    assert!(parsed.cpi.ts_type_indicators.is_empty());
}

#[test]
fn cpi_unknown_type_yields_empty() {
    let mut clpi = sample_clpi();
    clpi.cpi = Cpi::default();
    let mut bytes = clpi.encode();
    // Find the CPI start (stored at offset 16..20 in the header).
    let cpi_start = u32::from_be_bytes([bytes[16], bytes[17], bytes[18], bytes[19]]) as usize;
    // The CPI block is currently zero-length; rewrite it as a tiny
    // CPI_type=2 block with no payload (length=2, head=0x0002).
    bytes[cpi_start..cpi_start + 4].copy_from_slice(&2u32.to_be_bytes());
    // Splice in 2 head bytes: 12 reserved + 4-bit CPI_type = 2.
    let head = 0x0002u16.to_be_bytes();
    let insert_at = cpi_start + 4;
    bytes.splice(insert_at..insert_at, head);
    let new_mark_start = u32::from_be_bytes([bytes[20], bytes[21], bytes[22], bytes[23]]) + 2;
    bytes[20..24].copy_from_slice(&new_mark_start.to_be_bytes());
    let parsed = ClipInformation::parse(&bytes).unwrap();
    assert!(parsed.cpi.ep_map.is_empty());
}
