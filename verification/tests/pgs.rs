//! Presentation graphics.
use bluray::bdmv::pgs::segment::{
    CompositionObject, CompositionObjectCrop, CompositionState, FragmentFlag, Ods, PaletteEntry,
    Pcs, Pds, Segment, SegmentBody, SegmentHeader, SegmentType, Wds, Window, parse_segments,
};
use bluray::bdmv::pgs::rle::{DecodedObject, decode_rle};
use bluray::bdmv::pgs::display_set::{DisplaySet, group_display_sets, parse_display_sets};
use bluray::bdmv::pgs::render::{Palette, Rgba8, ycbcr709_to_rgb};

fn roundtrip(seg: &Segment) -> Segment {
    let bytes = seg.encode();
    let (parsed, used) = Segment::parse(&bytes).unwrap();
    assert_eq!(used, bytes.len());
    parsed
}

#[test]
fn header_magic_and_fields() {
    let mut buf = Vec::new();
    buf.extend_from_slice(b"PG");
    buf.extend_from_slice(&0x0001_2345u32.to_be_bytes());
    buf.extend_from_slice(&0u32.to_be_bytes());
    buf.push(0x16);
    buf.extend_from_slice(&7u16.to_be_bytes());
    let h = SegmentHeader::parse(&buf).unwrap();
    assert_eq!(h.pts, 0x0001_2345);
    assert_eq!(h.dts, 0);
    assert_eq!(h.kind(), SegmentType::Pcs);
    assert_eq!(h.segment_size, 7);
}

#[test]
fn header_bad_magic_rejected() {
    let mut buf = vec![b'X', b'G'];
    buf.extend_from_slice(&[0u8; 11]);
    assert!(SegmentHeader::parse(&buf).is_err());
}

#[test]
fn segment_type_roundtrip() {
    for raw in [0x14u8, 0x15, 0x16, 0x17, 0x80, 0x00, 0xAB] {
        assert_eq!(SegmentType::from_raw(raw).as_raw(), raw);
    }
    assert_eq!(SegmentType::from_raw(0x16), SegmentType::Pcs);
    assert_eq!(SegmentType::from_raw(0x99), SegmentType::Other(0x99));
}

#[test]
fn pcs_roundtrip_uncropped_and_cropped() {
    let pcs = Pcs {
        width: 1920,
        height: 1080,
        frame_rate: 0x10,
        composition_number: 3,
        composition_state: 0x80,
        palette_update_flag: 0x00,
        palette_id: 1,
        composition_objects: vec![
            CompositionObject {
                object_id: 5,
                window_id: 0,
                object_cropped_flag: 0x00,
                object_horizontal_position: 100,
                object_vertical_position: 900,
                cropping: None,
            },
            CompositionObject {
                object_id: 6,
                window_id: 1,
                object_cropped_flag: CompositionObject::CROPPED_FLAG,
                object_horizontal_position: 10,
                object_vertical_position: 20,
                cropping: Some(CompositionObjectCrop {
                    horizontal_position: 1,
                    vertical_position: 2,
                    width: 30,
                    height: 40,
                }),
            },
        ],
    };
    let seg = Segment {
        header: SegmentHeader {
            pts: 90_000,
            dts: 0,
            segment_type: SegmentType::Pcs.as_raw(),
            segment_size: 0,
        },
        body: SegmentBody::Pcs(pcs.clone()),
    };
    let parsed = roundtrip(&seg);
    assert_eq!(parsed.body, SegmentBody::Pcs(pcs));
    if let SegmentBody::Pcs(p) = parsed.body {
        assert_eq!(p.state(), CompositionState::EpochStart);
        assert!(p.state().is_epoch_start());
        assert!(!p.is_palette_update());
        assert!(p.composition_objects[1].is_cropped());
        assert!(!p.composition_objects[0].is_cropped());
    }
}

#[test]
fn pcs_palette_update_flag() {
    let pcs = Pcs {
        width: 1920,
        height: 1080,
        frame_rate: 0x10,
        composition_number: 0,
        composition_state: 0x00,
        palette_update_flag: Pcs::PALETTE_UPDATE,
        palette_id: 2,
        composition_objects: vec![],
    };
    assert!(pcs.is_palette_update());
    assert_eq!(pcs.state(), CompositionState::Normal);
}

#[test]
fn wds_roundtrip() {
    let wds = Wds {
        windows: vec![
            Window {
                window_id: 0,
                horizontal_position: 10,
                vertical_position: 20,
                width: 300,
                height: 100,
            },
            Window {
                window_id: 1,
                horizontal_position: 0,
                vertical_position: 0,
                width: 1920,
                height: 1080,
            },
        ],
    };
    let seg = Segment {
        header: SegmentHeader {
            pts: 1,
            dts: 0,
            segment_type: SegmentType::Wds.as_raw(),
            segment_size: 0,
        },
        body: SegmentBody::Wds(wds.clone()),
    };
    assert_eq!(roundtrip(&seg).body, SegmentBody::Wds(wds));
}

#[test]
fn pds_roundtrip_and_entry_count() {
    let pds = Pds {
        palette_id: 0,
        palette_version_number: 7,
        entries: vec![
            PaletteEntry {
                palette_entry_id: 1,
                y: 235,
                cr: 128,
                cb: 128,
                alpha: 0xFF,
            },
            PaletteEntry {
                palette_entry_id: 255,
                y: 16,
                cr: 128,
                cb: 128,
                alpha: 0x00,
            },
        ],
    };
    let seg = Segment {
        header: SegmentHeader {
            pts: 1,
            dts: 0,
            segment_type: SegmentType::Pds.as_raw(),
            segment_size: 0,
        },
        body: SegmentBody::Pds(pds.clone()),
    };
    let bytes = seg.encode();
    // body = 2 head + 2 entries × 5 = 12.
    assert_eq!(bytes.len(), SegmentHeader::SIZE + 12);
    assert_eq!(roundtrip(&seg).body, SegmentBody::Pds(pds));
}

#[test]
fn pds_rejects_ragged_body() {
    // 2 head + 6 bytes is not a whole number of 5-byte entries.
    let mut buf = Vec::new();
    buf.extend_from_slice(b"PG");
    buf.extend_from_slice(&0u32.to_be_bytes());
    buf.extend_from_slice(&0u32.to_be_bytes());
    buf.push(0x14);
    buf.extend_from_slice(&8u16.to_be_bytes());
    buf.extend_from_slice(&[0u8; 8]);
    assert!(Segment::parse(&buf).is_err());
}

#[test]
fn ods_roundtrip_first_and_last() {
    let ods = Ods {
        object_id: 9,
        object_version_number: 1,
        last_in_sequence_flag: FragmentFlag::FirstAndLast.as_raw(),
        object_data_length: 4 + 3,
        width: Some(8),
        height: Some(2),
        object_data: vec![0x01, 0x02, 0x03],
    };
    let seg = Segment {
        header: SegmentHeader {
            pts: 1,
            dts: 0,
            segment_type: SegmentType::Ods.as_raw(),
            segment_size: 0,
        },
        body: SegmentBody::Ods(ods.clone()),
    };
    let parsed = roundtrip(&seg);
    assert_eq!(parsed.body, SegmentBody::Ods(ods));
    if let SegmentBody::Ods(o) = parsed.body {
        assert_eq!(o.fragment(), FragmentFlag::FirstAndLast);
        assert!(o.fragment().is_first());
        assert!(o.fragment().is_last());
        assert_eq!(o.width, Some(8));
        assert_eq!(o.rle_data(), &[0x01, 0x02, 0x03]);
    }
}

#[test]
fn ods_continuation_has_no_dimensions() {
    let ods = Ods {
        object_id: 9,
        object_version_number: 1,
        last_in_sequence_flag: FragmentFlag::Last.as_raw(),
        object_data_length: 0,
        width: None,
        height: None,
        object_data: vec![0xAA, 0xBB],
    };
    let seg = Segment {
        header: SegmentHeader {
            pts: 1,
            dts: 0,
            segment_type: SegmentType::Ods.as_raw(),
            segment_size: 0,
        },
        body: SegmentBody::Ods(ods.clone()),
    };
    let parsed = roundtrip(&seg);
    if let SegmentBody::Ods(o) = parsed.body {
        assert!(o.fragment().is_last());
        assert!(!o.fragment().is_first());
        assert_eq!(o.width, None);
        assert_eq!(o.height, None);
        assert_eq!(o.object_data, vec![0xAA, 0xBB]);
    } else {
        panic!("expected ODS");
    }
}

#[test]
fn fragment_flag_roundtrip() {
    for raw in [0x80u8, 0x40, 0xC0, 0x00, 0x12] {
        assert_eq!(FragmentFlag::from_raw(raw).as_raw(), raw);
    }
}

#[test]
fn end_segment_roundtrip_and_nonzero_rejected() {
    let seg = Segment {
        header: SegmentHeader {
            pts: 42,
            dts: 0,
            segment_type: SegmentType::End.as_raw(),
            segment_size: 0,
        },
        body: SegmentBody::End,
    };
    let bytes = seg.encode();
    assert_eq!(bytes.len(), SegmentHeader::SIZE);
    assert_eq!(roundtrip(&seg).body, SegmentBody::End);

    // END with a non-zero body is malformed.
    let mut bad = bytes.clone();
    bad[11..13].copy_from_slice(&2u16.to_be_bytes());
    bad.extend_from_slice(&[0u8; 2]);
    assert!(Segment::parse(&bad).is_err());
}

#[test]
fn parse_full_display_set() {
    // PCS → WDS → PDS → ODS → END
    let segs = vec![
        Segment {
            header: SegmentHeader {
                pts: 100,
                dts: 0,
                segment_type: SegmentType::Pcs.as_raw(),
                segment_size: 0,
            },
            body: SegmentBody::Pcs(Pcs {
                width: 1920,
                height: 1080,
                frame_rate: 0x10,
                composition_number: 1,
                composition_state: 0x80,
                palette_update_flag: 0,
                palette_id: 0,
                composition_objects: vec![CompositionObject {
                    object_id: 0,
                    window_id: 0,
                    object_cropped_flag: 0,
                    object_horizontal_position: 0,
                    object_vertical_position: 0,
                    cropping: None,
                }],
            }),
        },
        Segment {
            header: SegmentHeader {
                pts: 100,
                dts: 0,
                segment_type: SegmentType::Wds.as_raw(),
                segment_size: 0,
            },
            body: SegmentBody::Wds(Wds {
                windows: vec![Window {
                    window_id: 0,
                    horizontal_position: 0,
                    vertical_position: 0,
                    width: 1920,
                    height: 1080,
                }],
            }),
        },
        Segment {
            header: SegmentHeader {
                pts: 100,
                dts: 0,
                segment_type: SegmentType::Pds.as_raw(),
                segment_size: 0,
            },
            body: SegmentBody::Pds(Pds {
                palette_id: 0,
                palette_version_number: 0,
                entries: vec![PaletteEntry {
                    palette_entry_id: 1,
                    y: 128,
                    cr: 128,
                    cb: 128,
                    alpha: 0xFF,
                }],
            }),
        },
        Segment {
            header: SegmentHeader {
                pts: 100,
                dts: 0,
                segment_type: SegmentType::Ods.as_raw(),
                segment_size: 0,
            },
            body: SegmentBody::Ods(Ods {
                object_id: 0,
                object_version_number: 0,
                last_in_sequence_flag: FragmentFlag::FirstAndLast.as_raw(),
                object_data_length: 0,
                width: Some(2),
                height: Some(1),
                object_data: vec![0x01, 0x02],
            }),
        },
        Segment {
            header: SegmentHeader {
                pts: 100,
                dts: 0,
                segment_type: SegmentType::End.as_raw(),
                segment_size: 0,
            },
            body: SegmentBody::End,
        },
    ];
    let mut stream = Vec::new();
    for s in &segs {
        stream.extend_from_slice(&s.encode());
    }
    let parsed = parse_segments(&stream).unwrap();
    assert_eq!(parsed.len(), 5);
    // `encode` recomputes each `segment_size` header field from the
    // body, so compare bodies (and the surviving header fields)
    // rather than the placeholder sizes the `segs` literals carry.
    for (p, s) in parsed.iter().zip(segs.iter()) {
        assert_eq!(p.body, s.body);
        assert_eq!(p.header.pts, s.header.pts);
        assert_eq!(p.header.dts, s.header.dts);
        assert_eq!(p.header.segment_type, s.header.segment_type);
    }
    // The parsed stream re-encodes to the identical bytes.
    let mut reencoded = Vec::new();
    for p in &parsed {
        reencoded.extend_from_slice(&p.encode());
    }
    assert_eq!(reencoded, stream);
}

#[test]
fn rle_literals_and_eol() {
    // Two-pixel line: colour 1, colour 2; end of line.
    let data = [0x01, 0x02, 0x00, 0x00];
    let obj = decode_rle(&data, 2, 1).unwrap();
    assert_eq!(obj.pixels, vec![1, 2]);
}

#[test]
fn rle_short_run_color0() {
    // 00 00 LLLLLL → 5 pixels of colour 0; then EOL.
    let data = [0x00, 0x05, 0x00, 0x00];
    let obj = decode_rle(&data, 5, 1).unwrap();
    assert_eq!(obj.pixels, vec![0, 0, 0, 0, 0]);
}

#[test]
fn rle_long_run_color0() {
    // 00 01LLLLLL LLLLLLLL → 300 pixels of colour 0.
    let len = 300u16;
    let b1 = 0x40 | ((len >> 8) as u8 & 0x3F);
    let b2 = (len & 0xFF) as u8;
    let mut data = vec![0x00, b1, b2];
    data.extend_from_slice(&[0x00, 0x00]); // EOL
    let obj = decode_rle(&data, 300, 1).unwrap();
    assert_eq!(obj.pixels.len(), 300);
    assert!(obj.pixels.iter().all(|&p| p == 0));
}

#[test]
fn rle_short_run_colorc() {
    // 00 10LLLLLL CCCCCCCC → 4 pixels of colour 7.
    let data = [0x00, 0x80 | 4, 7, 0x00, 0x00];
    let obj = decode_rle(&data, 4, 1).unwrap();
    assert_eq!(obj.pixels, vec![7, 7, 7, 7]);
}

#[test]
fn rle_long_run_colorc() {
    // 00 11LLLLLL LLLLLLLL CCCCCCCC → 200 pixels of colour 9.
    let len = 200u16;
    let b1 = 0xC0 | ((len >> 8) as u8 & 0x3F);
    let b2 = (len & 0xFF) as u8;
    let mut data = vec![0x00, b1, b2, 9];
    data.extend_from_slice(&[0x00, 0x00]); // EOL
    let obj = decode_rle(&data, 200, 1).unwrap();
    assert_eq!(obj.pixels.len(), 200);
    assert!(obj.pixels.iter().all(|&p| p == 9));
}

#[test]
fn rle_two_lines() {
    // line 0: colour 1 ×2; line 1: short run colour 0 ×2.
    let data = [0x01, 0x01, 0x00, 0x00, 0x00, 0x02, 0x00, 0x00];
    let obj = decode_rle(&data, 2, 2).unwrap();
    assert_eq!(obj.pixels, vec![1, 1, 0, 0]);
}

#[test]
fn rle_trailing_line_without_eol() {
    // A complete final line without a trailing EOL marker is accepted.
    let data = [0x01, 0x02];
    let obj = decode_rle(&data, 2, 1).unwrap();
    assert_eq!(obj.pixels, vec![1, 2]);
}

#[test]
fn rle_overrun_rejected() {
    // Run longer than width.
    let data = [0x00, 0x80 | 10, 3];
    assert!(decode_rle(&data, 4, 1).is_err());
}

#[test]
fn rle_short_scanline_rejected() {
    // EOL before width is reached.
    let data = [0x01, 0x00, 0x00];
    assert!(decode_rle(&data, 4, 1).is_err());
}

#[test]
fn rle_wrong_line_count_rejected() {
    // One line decoded but height = 2 expected.
    let data = [0x01, 0x01, 0x00, 0x00];
    assert!(decode_rle(&data, 2, 2).is_err());
}

#[test]
fn rle_truncated_after_escape_rejected() {
    let data = [0x00];
    assert!(decode_rle(&data, 4, 1).is_err());
}

#[test]
fn segment_truncated_body_rejected() {
    let mut buf = Vec::new();
    buf.extend_from_slice(b"PG");
    buf.extend_from_slice(&0u32.to_be_bytes());
    buf.extend_from_slice(&0u32.to_be_bytes());
    buf.push(0x14);
    buf.extend_from_slice(&100u16.to_be_bytes()); // claims 100-byte body
    buf.extend_from_slice(&[0u8; 4]); // but only 4 present
    assert!(Segment::parse(&buf).is_err());
}

// --- Display Set grouping + ODS fragment reassembly ---

fn seg(pts: u32, body: SegmentBody) -> Segment {
    Segment {
        header: SegmentHeader {
            pts,
            dts: 0,
            segment_type: 0, // recomputed by encode; ignored by grouping
            segment_size: 0,
        },
        body,
    }
}

fn pcs(state: u8) -> Pcs {
    Pcs {
        width: 1920,
        height: 1080,
        frame_rate: 0x10,
        composition_number: 1,
        composition_state: state,
        palette_update_flag: 0,
        palette_id: 0,
        composition_objects: vec![],
    }
}

fn ods(
    object_id: u16,
    flag: FragmentFlag,
    len: u32,
    wh: Option<(u16, u16)>,
    data: &[u8],
) -> Ods {
    Ods {
        object_id,
        object_version_number: 0,
        last_in_sequence_flag: flag.as_raw(),
        object_data_length: len,
        width: wh.map(|x| x.0),
        height: wh.map(|x| x.1),
        object_data: data.to_vec(),
    }
}

#[test]
fn group_single_display_set() {
    let segs = vec![
        seg(100, SegmentBody::Pcs(pcs(0x80))),
        seg(100, SegmentBody::Wds(Wds { windows: vec![] })),
        seg(
            100,
            SegmentBody::Pds(Pds {
                palette_id: 0,
                palette_version_number: 0,
                entries: vec![],
            }),
        ),
        seg(
            100,
            SegmentBody::Ods(ods(
                0,
                FragmentFlag::FirstAndLast,
                4 + 2,
                Some((2, 1)),
                &[1, 2],
            )),
        ),
        seg(100, SegmentBody::End),
    ];
    let sets = group_display_sets(&segs).unwrap();
    assert_eq!(sets.len(), 1);
    let ds = &sets[0];
    assert_eq!(ds.pts, 100);
    assert!(ds.state().is_epoch_start());
    assert!(ds.wds.is_some());
    assert_eq!(ds.palettes.len(), 1);
    assert_eq!(ds.objects.len(), 1);
}

#[test]
fn group_two_display_sets() {
    let segs = vec![
        seg(100, SegmentBody::Pcs(pcs(0x80))),
        seg(100, SegmentBody::End),
        seg(200, SegmentBody::Pcs(pcs(0x00))),
        seg(200, SegmentBody::End),
    ];
    let sets = group_display_sets(&segs).unwrap();
    assert_eq!(sets.len(), 2);
    assert_eq!(sets[0].pts, 100);
    assert!(sets[0].state().is_epoch_start());
    assert_eq!(sets[1].pts, 200);
    assert_eq!(sets[1].state(), CompositionState::Normal);
}

#[test]
fn group_rejects_segment_before_pcs() {
    let segs = vec![seg(0, SegmentBody::Wds(Wds { windows: vec![] }))];
    assert!(group_display_sets(&segs).is_err());
}

#[test]
fn group_rejects_second_pcs_before_end() {
    let segs = vec![
        seg(0, SegmentBody::Pcs(pcs(0x80))),
        seg(0, SegmentBody::Pcs(pcs(0x00))),
    ];
    assert!(group_display_sets(&segs).is_err());
}

#[test]
fn group_rejects_two_wds() {
    let segs = vec![
        seg(0, SegmentBody::Pcs(pcs(0x80))),
        seg(0, SegmentBody::Wds(Wds { windows: vec![] })),
        seg(0, SegmentBody::Wds(Wds { windows: vec![] })),
        seg(0, SegmentBody::End),
    ];
    assert!(group_display_sets(&segs).is_err());
}

#[test]
fn group_rejects_trailing_set_without_end() {
    let segs = vec![seg(0, SegmentBody::Pcs(pcs(0x80)))];
    assert!(group_display_sets(&segs).is_err());
}

#[test]
fn reassemble_single_fragment_object() {
    // FirstAndLast: object_data_length = 4 (w+h) + 3 (RLE).
    let ds = DisplaySet {
        pcs: pcs(0x80),
        wds: None,
        palettes: vec![],
        objects: vec![ods(
            7,
            FragmentFlag::FirstAndLast,
            4 + 3,
            Some((8, 1)),
            &[0x01, 0x02, 0x03],
        )],
        pts: 0,
    };
    let objs = ds.reassemble_objects().unwrap();
    assert_eq!(objs.len(), 1);
    assert_eq!(objs[0].object_id, 7);
    assert_eq!(objs[0].width, 8);
    assert_eq!(objs[0].height, 1);
    assert_eq!(objs[0].rle_data, vec![0x01, 0x02, 0x03]);
}

#[test]
fn reassemble_multi_fragment_chain() {
    // A 6-byte RLE bitmap split First(3) + middle(2) + Last(1).
    // declared length on the First fragment = 4 + 6 = 10.
    let ds = DisplaySet {
        pcs: pcs(0x80),
        wds: None,
        palettes: vec![],
        objects: vec![
            ods(
                3,
                FragmentFlag::First,
                4 + 6,
                Some((6, 1)),
                &[0x11, 0x22, 0x33],
            ),
            ods(3, FragmentFlag::Other(0x00), 0, None, &[0x44, 0x55]),
            ods(3, FragmentFlag::Last, 0, None, &[0x66]),
        ],
        pts: 0,
    };
    let objs = ds.reassemble_objects().unwrap();
    assert_eq!(objs.len(), 1);
    assert_eq!(objs[0].rle_data, vec![0x11, 0x22, 0x33, 0x44, 0x55, 0x66]);
    assert_eq!(objs[0].width, 6);
}

#[test]
fn reassemble_two_objects_first_seen_order() {
    let ds = DisplaySet {
        pcs: pcs(0x80),
        wds: None,
        palettes: vec![],
        objects: vec![
            ods(9, FragmentFlag::FirstAndLast, 4 + 1, Some((1, 1)), &[0xAA]),
            ods(5, FragmentFlag::FirstAndLast, 4 + 1, Some((1, 1)), &[0xBB]),
        ],
        pts: 0,
    };
    let objs = ds.reassemble_objects().unwrap();
    assert_eq!(objs.iter().map(|o| o.object_id).collect::<Vec<_>>(), [9, 5]);
}

#[test]
fn reassemble_continuation_without_first_rejected() {
    let ds = DisplaySet {
        pcs: pcs(0x80),
        wds: None,
        palettes: vec![],
        objects: vec![ods(1, FragmentFlag::Last, 0, None, &[0xAA])],
        pts: 0,
    };
    assert!(ds.reassemble_objects().is_err());
}

#[test]
fn reassemble_never_closed_rejected() {
    let ds = DisplaySet {
        pcs: pcs(0x80),
        wds: None,
        palettes: vec![],
        objects: vec![ods(1, FragmentFlag::First, 4 + 3, Some((3, 1)), &[0x01])],
        pts: 0,
    };
    // First fragment present, Last never arrives → length never met
    // and chain never closed.
    assert!(ds.reassemble_objects().is_err());
}

#[test]
fn reassemble_length_mismatch_rejected() {
    // declared 4 + 3 = 7 (RLE 3) but only 2 RLE bytes delivered.
    let ds = DisplaySet {
        pcs: pcs(0x80),
        wds: None,
        palettes: vec![],
        objects: vec![ods(
            1,
            FragmentFlag::FirstAndLast,
            4 + 3,
            Some((3, 1)),
            &[0x01, 0x02],
        )],
        pts: 0,
    };
    assert!(ds.reassemble_objects().is_err());
}

#[test]
fn reassemble_then_decode_end_to_end() {
    // First fragment carries the full RLE for a 2x1 bitmap:
    // colours 1, 2, then EOL. declared = 4 + 4.
    let rle = [0x01u8, 0x02, 0x00, 0x00];
    let ds = DisplaySet {
        pcs: pcs(0x80),
        wds: None,
        palettes: vec![],
        objects: vec![ods(
            0,
            FragmentFlag::FirstAndLast,
            4 + rle.len() as u32,
            Some((2, 1)),
            &rle,
        )],
        pts: 0,
    };
    let objs = ds.reassemble_objects().unwrap();
    let bitmap = objs[0].decode().unwrap();
    assert_eq!(bitmap.width, 2);
    assert_eq!(bitmap.pixels, vec![1, 2]);
}

#[test]
fn parse_display_sets_end_to_end() {
    // Build a real byte stream and round-trip it through the
    // top-level parse_display_sets entry point.
    let rle = [0x01u8, 0x02, 0x00, 0x00];
    let segs = vec![
        seg(100, SegmentBody::Pcs(pcs(0x80))),
        seg(100, SegmentBody::Wds(Wds { windows: vec![] })),
        seg(
            100,
            SegmentBody::Ods(ods(
                0,
                FragmentFlag::FirstAndLast,
                4 + rle.len() as u32,
                Some((2, 1)),
                &rle,
            )),
        ),
        seg(100, SegmentBody::End),
    ];
    let mut stream = Vec::new();
    for s in &segs {
        stream.extend_from_slice(&s.encode());
    }
    let sets = parse_display_sets(&stream).unwrap();
    assert_eq!(sets.len(), 1);
    let objs = sets[0].reassemble_objects().unwrap();
    assert_eq!(objs[0].decode().unwrap().pixels, vec![1, 2]);
}

// --- Renderer: palette resolution + compositing ---

fn palette_entry(id: u8, y: u8, cr: u8, cb: u8, a: u8) -> PaletteEntry {
    PaletteEntry {
        palette_entry_id: id,
        y,
        cr,
        cb,
        alpha: a,
    }
}

#[test]
fn ycbcr_white_black_and_neutral() {
    // Studio-white Y=235, neutral chroma → ~full white.
    let (r, g, b) = ycbcr709_to_rgb(235, 128, 128);
    assert!(r >= 254 && g >= 254 && b >= 254, "white = {r},{g},{b}");
    // Studio-black Y=16, neutral chroma → black.
    let (r, g, b) = ycbcr709_to_rgb(16, 128, 128);
    assert_eq!((r, g, b), (0, 0, 0));
    // Mid grey stays grey (r≈g≈b).
    let (r, g, b) = ycbcr709_to_rgb(126, 128, 128);
    assert!(r == g && g == b, "grey {r},{g},{b}");
    assert!((120..=135).contains(&r), "mid grey ~128, got {r}");
}

#[test]
fn palette_entry_alpha_passthrough_and_transparent_default() {
    let e = palette_entry(5, 235, 128, 128, 0x80);
    let px = e.to_rgba();
    assert_eq!(px.a, 0x80);
    assert!(px.r >= 254 && px.g >= 254 && px.b >= 254);

    // A fresh palette is fully transparent everywhere (incl. index 255).
    let p = Palette::new();
    assert_eq!(p.get(0), Rgba8::transparent());
    assert_eq!(p.get(255), Rgba8::transparent());
}

#[test]
fn palette_incremental_update_keeps_untouched() {
    let mut p = Palette::new();
    p.apply(&Pds {
        palette_id: 0,
        palette_version_number: 0,
        entries: vec![palette_entry(1, 235, 128, 128, 0xFF)],
    });
    let one = p.get(1);
    assert_eq!(one.a, 0xFF);
    // A second PDS that only writes index 2 must leave index 1 intact.
    p.apply(&Pds {
        palette_id: 0,
        palette_version_number: 1,
        entries: vec![palette_entry(2, 16, 128, 128, 0xFF)],
    });
    assert_eq!(p.get(1), one);
    assert_eq!(p.get(2).a, 0xFF);
    // Index 2 is studio-black → RGB (0,0,0) opaque.
    assert_eq!(
        p.get(2),
        Rgba8 {
            r: 0,
            g: 0,
            b: 0,
            a: 0xFF
        }
    );
}

#[test]
fn from_palettes_with_id_selects_matching() {
    let pals = vec![
        Pds {
            palette_id: 0,
            palette_version_number: 0,
            entries: vec![palette_entry(1, 235, 128, 128, 0xFF)],
        },
        Pds {
            palette_id: 1,
            palette_version_number: 0,
            entries: vec![palette_entry(1, 16, 128, 128, 0xFF)],
        },
    ];
    // palette_id 1 → index 1 is black-opaque, not white.
    let p = Palette::from_palettes_with_id(&pals, 1);
    assert_eq!(
        p.get(1),
        Rgba8 {
            r: 0,
            g: 0,
            b: 0,
            a: 0xFF
        }
    );
    // A palette_id with no matching PDS → all transparent.
    let none = Palette::from_palettes_with_id(&pals, 7);
    assert_eq!(none.get(1), Rgba8::transparent());
}

#[test]
fn decoded_object_to_rgba_and_bytes() {
    let mut p = Palette::new();
    p.apply(&Pds {
        palette_id: 0,
        palette_version_number: 0,
        entries: vec![
            palette_entry(1, 235, 128, 128, 0xFF), // white opaque
            palette_entry(2, 16, 128, 128, 0xFF),  // black opaque
        ],
    });
    // 2x1 bitmap: index 1 then index 2.
    let obj = DecodedObject {
        width: 2,
        height: 1,
        pixels: vec![1, 2],
    };
    let img = obj.to_rgba(&p);
    assert_eq!(img.width, 2);
    assert_eq!(img.height, 1);
    assert_eq!(img.pixel(0, 0).unwrap().a, 0xFF);
    assert_eq!(
        img.pixel(1, 0).unwrap(),
        Rgba8 {
            r: 0,
            g: 0,
            b: 0,
            a: 0xFF
        }
    );
    assert!(img.pixel(2, 0).is_none());
    // RGBA8888 byte layout: 2 px × 4 = 8 bytes.
    let bytes = img.to_rgba_bytes();
    assert_eq!(bytes.len(), 8);
    assert_eq!(&bytes[4..8], &[0, 0, 0, 0xFF]);
}

/// Build a one-DS PG byte stream with a single 2×2 object placed at
/// `(px, py)` on a `pw × ph` plane, using a PDS that maps index 1 to
/// opaque white and leaves 0 transparent. Returns the parsed DisplaySet.
fn render_fixture(
    pw: u16,
    ph: u16,
    px: u16,
    py: u16,
    crop: Option<CompositionObjectCrop>,
) -> DisplaySet {
    // 2x2 all-index-1 bitmap: each line = [0x00,0x82,0x01] (run of 2 of
    // colour 1) then EOL [0x00,0x00].
    let rle = [0x00u8, 0x82, 0x01, 0x00, 0x00, 0x00, 0x82, 0x01, 0x00, 0x00];
    let pcs = Pcs {
        width: pw,
        height: ph,
        frame_rate: 0x10,
        composition_number: 1,
        composition_state: 0x80,
        palette_update_flag: 0,
        palette_id: 0,
        composition_objects: vec![CompositionObject {
            object_id: 7,
            window_id: 0,
            object_cropped_flag: if crop.is_some() { 0x40 } else { 0x00 },
            object_horizontal_position: px,
            object_vertical_position: py,
            cropping: crop,
        }],
    };
    let pds = Pds {
        palette_id: 0,
        palette_version_number: 0,
        entries: vec![palette_entry(1, 235, 128, 128, 0xFF)],
    };
    let segs = vec![
        seg(500, SegmentBody::Pcs(pcs)),
        seg(500, SegmentBody::Wds(Wds { windows: vec![] })),
        seg(500, SegmentBody::Pds(pds)),
        seg(
            500,
            SegmentBody::Ods(ods(
                7,
                FragmentFlag::FirstAndLast,
                4 + rle.len() as u32,
                Some((2, 2)),
                &rle,
            )),
        ),
        seg(500, SegmentBody::End),
    ];
    group_display_sets(&segs).unwrap().pop().unwrap()
}

#[test]
fn render_places_object_on_plane() {
    let ds = render_fixture(8, 4, 2, 1, None);
    let r = ds.render().unwrap();
    assert_eq!(r.pts, 500);
    assert_eq!(r.plane.width, 8);
    assert_eq!(r.plane.height, 4);
    // Object occupies (2..4, 1..3); white-opaque inside, transparent out.
    for y in 0..4u16 {
        for x in 0..8u16 {
            let px = r.plane.pixel(x, y).unwrap();
            let inside = (2..4).contains(&x) && (1..3).contains(&y);
            if inside {
                assert_eq!(px.a, 0xFF, "({x},{y}) should be opaque");
                assert!(px.r >= 254, "({x},{y}) should be white");
            } else {
                assert_eq!(px, Rgba8::transparent(), "({x},{y}) should be clear");
            }
        }
    }
}

#[test]
fn render_clips_object_overrunning_plane() {
    // Place the 2x2 object so its right/bottom edge falls off a 3x2 plane.
    let ds = render_fixture(3, 2, 2, 1, None);
    let r = ds.render().unwrap();
    // Only the (2,1) pixel of the object lands on the plane.
    assert_eq!(r.plane.pixel(2, 1).unwrap().a, 0xFF);
    assert_eq!(r.plane.pixel(0, 0).unwrap(), Rgba8::transparent());
    assert_eq!(r.plane.pixel(1, 0).unwrap(), Rgba8::transparent());
}

#[test]
fn render_honours_cropping_rectangle() {
    // Crop to a 1x1 sub-rect at object-(1,1); placed at plane-(0,0).
    let crop = CompositionObjectCrop {
        horizontal_position: 1,
        vertical_position: 1,
        width: 1,
        height: 1,
    };
    let ds = render_fixture(4, 4, 0, 0, Some(crop));
    let r = ds.render().unwrap();
    // Exactly one opaque pixel at the plane origin.
    assert_eq!(r.plane.pixel(0, 0).unwrap().a, 0xFF);
    assert_eq!(r.plane.pixel(1, 0).unwrap(), Rgba8::transparent());
    assert_eq!(r.plane.pixel(0, 1).unwrap(), Rgba8::transparent());
}

#[test]
fn render_rejects_missing_object() {
    let mut ds = render_fixture(8, 4, 0, 0, None);
    // Drop the ODS so the composition object dangles.
    ds.objects.clear();
    assert!(ds.render().is_err());
}

#[test]
fn render_palette_only_pcs_with_no_objects() {
    // A composition with zero objects renders an all-transparent plane.
    let pcs = Pcs {
        width: 4,
        height: 2,
        frame_rate: 0x10,
        composition_number: 0,
        composition_state: 0x00,
        palette_update_flag: Pcs::PALETTE_UPDATE,
        palette_id: 0,
        composition_objects: vec![],
    };
    let ds = DisplaySet {
        pcs,
        wds: None,
        palettes: vec![],
        objects: vec![],
        pts: 9,
    };
    let r = ds.render().unwrap();
    assert!(r.plane.pixels.iter().all(|p| *p == Rgba8::transparent()));
    assert_eq!(r.plane.pixels.len(), 8);
}
