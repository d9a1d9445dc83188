//! What holds of the metadata files as a whole, on concrete values.
use bluray::aacs_adapter::key_line::{key_line, line_names_disc};
use bluray::bdmv::clpi::{
    ClipInfo, ClipInformation, ClipMark, Cpi, EpEntry, EpMap, ProgramInfo, SequenceInfo,
    TsTypeInfoBlock,
};
use bluray::bdmv::common::{clpi_path, m2ts_path};
use bluray::bdmv::index_bdmv::{AppInfoBdmv, IndexBdmv, IndexEntry, IndexObjectType, TitleEntry};
use bluray::bdmv::mpls::{
    AppInfoPlayList, ConnectionCondition, PlayItem, PlayItemFlags, PlayList, PlayListMark,
    PlayListMpls, StnTable, SubPath,
};
use bluray::bdmv::stream::{AspectRatio, AudioFormat, FrameRate, SampleRate, StreamCodingType};
use bluray::bdmv::BdmvHeader;
use bluray::date::{civil_from_unix, rfc3339};
use bluray::m2ts::strip_tp_extra;
use bluray::scan::parse_hex16;
use bluray::BlurayError;

fn entry(pts: u32, spn: u32) -> EpEntry {
    EpEntry {
        is_angle_change_point: false,
        i_end_position_offset: 0,
        pts_ep_start: pts,
        spn_ep_start: spn,
        ep_stream_type: 1,
    }
}

fn map(pid: u16, ep_stream_type: u8) -> EpMap {
    EpMap { stream_pid: pid, ep_stream_type, entries: vec![EpEntry { ep_stream_type, ..entry(0, 0) }] }
}

fn clip(cpi: Cpi, num_marks: u16) -> ClipInformation {
    ClipInformation {
        version: *b"0200",
        clip_info: ClipInfo {
            clip_stream_type: 1,
            application_type: 1,
            ts_recording_rate: 48_000_000,
            number_of_source_packets: 10,
            ts_type_info_block: TsTypeInfoBlock { validity_flags: 0x80, format_id: *b"HDMV" },
        },
        sequence_info: SequenceInfo { atc_sequences: vec![] },
        program_info: ProgramInfo { programs: vec![] },
        cpi,
        clip_mark: ClipMark { num_marks },
    }
}

#[test]
fn clip_marks_and_trailing_bytes_survive_a_round_trip() {
    let cpi = Cpi { ep_map: vec![map(0x1011, 1)], ts_type_indicators: vec![7, 0, 9] };
    let c = clip(cpi.clone(), 513);
    let back = ClipInformation::parse(&c.encode()).expect("valid");
    assert_eq!(back.clip_mark.num_marks, 513);
    assert_eq!(back.cpi, cpi);
    assert_eq!(back.clip_info, c.clip_info);
}

#[test]
fn the_primary_map_is_the_first_of_a_video_stream() {
    let none = Cpi { ep_map: vec![], ts_type_indicators: vec![] };
    assert!(none.primary_video_ep_map().is_none());
    let audio_first =
        Cpi { ep_map: vec![map(0x1100, 3), map(0x1011, 1)], ts_type_indicators: vec![] };
    assert_eq!(audio_first.primary_video_ep_map().map(|m| m.stream_pid), Some(0x1011));
    let audio_only = Cpi { ep_map: vec![map(0x1100, 3)], ts_type_indicators: vec![] };
    assert_eq!(audio_only.primary_video_ep_map().map(|m| m.stream_pid), Some(0x1100));
}

fn item(name: &str, in_s: u32, out_s: u32) -> PlayItem {
    PlayItem {
        clip_information_file_name: name.into(),
        clip_codec_identifier: *b"M2TS",
        connection_condition: ConnectionCondition::NonSeamless,
        stc_id_ref: 0,
        in_time_ticks: in_s * 45_000,
        out_time_ticks: out_s * 45_000,
        multi_clip_count: 1,
        angles: vec![],
        stn_table: StnTable::default(),
        flags: PlayItemFlags::default(),
    }
}

fn mark(mark_type: u8, item: u16, secs: u32) -> PlayListMark {
    PlayListMark {
        mark_type,
        ref_play_item_id: item,
        mark_time_ticks: secs * 45_000,
        entry_es_pid: 0xFFFF,
        duration_ticks: 0,
    }
}

fn playlist(play_items: Vec<PlayItem>, marks: Vec<PlayListMark>) -> PlayListMpls {
    PlayListMpls {
        version: *b"0200",
        app_info: AppInfoPlayList {
            playback_type: 1,
            playback_count: 0,
            random_access_flag: 0,
            audio_mix_app_flag: 1,
            lossless_may_bypass_mixer_flag: 1,
            uo_mask: u64::MAX,
        },
        play_list: PlayList {
            play_items,
            sub_paths: vec![SubPath {
                sub_path_type: 5,
                is_repeat_subpath: true,
                num_sub_play_items: 2,
            }],
        },
        marks,
    }
}

#[test]
fn chapters_come_in_playback_order() {
    // Ten seconds, then twenty that start at 100 s of their clip.
    let pl = playlist(
        vec![item("00001", 0, 10), item("00002", 100, 120)],
        vec![
            mark(1, 1, 105), // 15 s into the title
            mark(2, 0, 1),   // a link point
            mark(1, 0, 4),
            mark(1, 1, 99), // before its item starts
            mark(1, 7, 0),  // of no item
            mark(1, 0, 0),
            mark(1, 0, 4), // on the same time as an earlier one
        ],
    );
    let listed: Vec<(usize, u64, u16)> = pl
        .chapters()
        .iter()
        .map(|c| (c.index, c.start_pts_90k / 90_000, c.ref_play_item_id))
        .collect();
    assert_eq!(listed, vec![(0, 0, 0), (1, 4, 0), (2, 4, 0), (3, 15, 1)]);

    let spans: Vec<(u64, u64)> = pl
        .chapters_with_duration()
        .iter()
        .map(|s| (s.start_pts_90k / 90_000, s.end_pts_90k / 90_000))
        .collect();
    assert_eq!(spans, vec![(0, 4), (4, 4), (4, 15), (15, 30)]);

    let back = PlayListMpls::parse(&pl.encode()).expect("valid");
    assert_eq!(back.chapters(), pl.chapters());
    assert_eq!(back.marks, pl.marks);
    assert_eq!(back.app_info, pl.app_info);
    assert_eq!(back.play_list, pl.play_list);
}

#[test]
fn a_chapter_behind_the_end_has_no_length() {
    let pl = playlist(vec![item("00001", 0, 10)], vec![mark(1, 0, 30)]);
    let spans = pl.chapters_with_duration();
    assert_eq!(spans[0].start_pts_90k, 30 * 90_000);
    assert_eq!(spans[0].duration_90k(), 0);
    assert_eq!(spans[0].duration_secs(), 0);
}

#[test]
fn an_item_that_ends_before_it_starts_has_no_length() {
    assert_eq!(item("00001", 20, 10).duration_90k(), 0);
    assert_eq!(item("00001", 10, 20).duration_90k(), 900_000);
}

#[test]
fn clip_names_that_are_no_text_are_refused() {
    let mut bytes = playlist(vec![item("00001", 0, 10)], vec![]).encode();
    let at = bytes.windows(5).position(|w| w == b"00001").expect("the name stands there");
    bytes[at] = 0xFF;
    assert!(matches!(PlayListMpls::parse(&bytes), Err(BlurayError::Malformed(_))));
    for cut in 0..bytes.len() - 8 {
        assert!(PlayListMpls::parse(&bytes[..cut]).is_err());
    }
}

#[test]
fn every_code_survives_a_round_trip() {
    for v in 0u8..=255 {
        assert_eq!(StreamCodingType::from_raw(v).as_raw(), v);
        assert_eq!(FrameRate::from_raw(v).as_raw(), v & 15);
        assert_eq!(AspectRatio::from_raw(v).as_raw(), v & 15);
        assert_eq!(AudioFormat::from_raw(v).as_raw(), v & 15);
        assert_eq!(SampleRate::from_raw(v).as_raw(), v & 15);
        assert_eq!(ConnectionCondition::from_raw(v).as_raw(), v);
    }
}

fn hdmv_title(id: u16) -> IndexEntry {
    IndexEntry { object: IndexObjectType::Hdmv { playback_type: 1, movie_object_id_ref: id } }
}

fn small_index() -> IndexBdmv {
    IndexBdmv {
        version: *b"0300",
        app_info: AppInfoBdmv {
            initial_output_mode_preference: 1,
            content_exist_flag: 0,
            video_format: 8,
            frame_rate: 1,
        },
        first_playback_title: hdmv_title(3),
        menu_title: hdmv_title(4),
        titles: vec![
            hdmv_title(5),
            IndexEntry {
                object: IndexObjectType::BdJ { playback_type: 2, bdjo_file_name: "00009".into() },
            },
        ],
    }
}

#[test]
fn entries_resolve_to_movie_objects() {
    let index = small_index();
    assert_eq!(index.resolve_movie_object(TitleEntry::FirstPlayback), Some(3));
    assert_eq!(index.resolve_movie_object(TitleEntry::TopMenu), Some(4));
    assert_eq!(index.resolve_movie_object(TitleEntry::Title { number: 1 }), Some(5));
    assert_eq!(index.resolve_movie_object(TitleEntry::Title { number: 2 }), None);
    assert_eq!(index.resolve_movie_object(TitleEntry::Title { number: 3 }), None);
    assert_eq!(index.resolve_movie_object(TitleEntry::Title { number: 0 }), None);
}

#[test]
fn an_index_survives_a_round_trip_and_is_refused_when_cut() {
    let index = small_index();
    let bytes = index.encode();
    let back = IndexBdmv::parse(&bytes).expect("valid");
    assert_eq!(back.titles, index.titles);
    assert_eq!(back.menu_title, index.menu_title);
    assert_eq!(back.app_info, index.app_info);
    for cut in 0..bytes.len() {
        assert!(matches!(IndexBdmv::parse(&bytes[..cut]), Err(BlurayError::Malformed(_))));
    }
    let mut stray = bytes.clone();
    let at = stray.windows(5).position(|w| w == b"00009").expect("the name stands there");
    stray[at] = 0xC0;
    assert!(matches!(IndexBdmv::parse(&stray), Err(BlurayError::Malformed(_))));
}

#[test]
fn headers_are_eight_bytes() {
    let h = BdmvHeader::parse(b"MPLS0200 and more").expect("valid");
    assert_eq!(h.type_indicator, b"MPLS");
    assert_eq!(h.version_number, b"0200");
    assert!(BdmvHeader::parse(b"MPLS020").is_err());
}

#[test]
fn clip_paths_name_the_two_files_of_a_clip() {
    assert_eq!(clpi_path("00042", b"M2TS").expect("valid"), "BDMV/CLIPINF/00042.clpi");
    assert_eq!(m2ts_path("00042").expect("valid"), "BDMV/STREAM/00042.m2ts");
}

#[test]
fn stripping_drops_the_head_of_each_packet() {
    let mut packets = Vec::new();
    for k in 0u8..3 {
        packets.extend_from_slice(&[0xEE; 4]);
        packets.extend_from_slice(&[k; 188]);
    }
    let out = strip_tp_extra(&packets);
    assert_eq!(out.len(), 3 * 188);
    for (i, b) in out.iter().enumerate() {
        assert_eq!(*b as usize, i / 188);
    }
}

#[test]
fn leap_days_are_days() {
    assert_eq!(civil_from_unix(951_782_400), (2000, 2, 29, 0, 0, 0));
    assert_eq!(civil_from_unix(951_868_799), (2000, 2, 29, 23, 59, 59));
    assert_eq!(civil_from_unix(951_868_800), (2000, 3, 1, 0, 0, 0));
    // 2100 is no leap year.
    assert_eq!(civil_from_unix(4_107_542_399), (2100, 2, 28, 23, 59, 59));
    assert_eq!(civil_from_unix(4_107_542_400), (2100, 3, 1, 0, 0, 0));
    assert_eq!(rfc3339(951_868_799), "2000-02-29T23:59:59Z");
}

#[test]
fn sixteen_bytes_in_hexadecimal() {
    let bytes: [u8; 16] = [0, 1, 0x2F, 0xF2, 0xAB, 0xBA, 6, 7, 8, 9, 10, 11, 12, 13, 14, 255];
    let text: String = bytes.iter().map(|b| format!("{b:02x}")).collect();
    assert_eq!(parse_hex16(&text), Some(bytes));
    assert_eq!(parse_hex16(&format!("0x{text}")), Some(bytes));
    assert_eq!(parse_hex16(&text.to_uppercase()), Some(bytes));
    assert_eq!(parse_hex16(&text[1..]), None);
    assert_eq!(parse_hex16(&format!("{}g", &text[1..])), None);
}

#[test]
fn a_line_names_one_disc() {
    let line = key_line(&[0xAB; 20], &[0x11; 16], "note", "today");
    assert!(line_names_disc(&line, &[0xAB; 20]));
    assert!(!line_names_disc(&line, &[0xAC; 20]));
    assert!(line_names_disc(&format!("  0X{}", line.to_lowercase()), &[0xAB; 20]));
    assert!(!line_names_disc(&format!("; {line}"), &[0xAB; 20]));
    assert!(!line_names_disc("", &[0xAB; 20]));
}
