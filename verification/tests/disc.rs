//! The disc as a whole.
use bluray::bdmv::clpi::{
    AtcSequence, ClipInfo, ClipInformation, ClipMark, Cpi, EpEntry, EpMap, ProgramInfo,
    SequenceInfo, StcSequence, TsTypeInfoBlock,
};
use bluray::bdmv::index_bdmv::{AppInfoBdmv, IndexBdmv, IndexEntry, IndexObjectType};
use bluray::bdmv::movie_object::{MovieObject, MovieObjects, NavCommand};
use bluray::bdmv::mpls::{
    AngleClip, AppInfoPlayList, Chapter, ConnectionCondition, IgsInteractiveStream,
    PgsSubtitleStream, PlayItem, PlayItemFlags, PlayList, PlayListMark, PlayListMpls,
    PrimaryAudioStream, PrimaryVideoStream, StnTable, StreamCodingType,
};
use bluray::decrypt::{DecryptError, Identity, StreamDecryptor};
use bluray::disc::chapter_segments::{chapter_requests, select_chapters};
use bluray::disc::meta::find_subsequence;
use bluray::disc::{
    build_track_catalogue, class_order, collect_languages, decode_lang_code, extract_di_name,
    is_meta_file, playlist_file_name, title_bytes, title_playlists, ChapterSegments,
    ChapterSelector, ClipFiles, Disc, MetaFile, ReadStep, SeekOrigin, SeekStep, TitleInfo,
    TitleKind, TitleSource, TrackKind, UnitStep,
};
use bluray::error::BlurayError;
use bluray::m2ts::strip_tp_extra;

fn title(id: u16, playlist_id: u16, duration_ticks: u64) -> TitleInfo {
    TitleInfo {
        id,
        kind: TitleKind::Hdmv,
        playlist_id,
        duration_ticks,
        languages: Vec::new(),
    }
}

fn disc(titles: Vec<TitleInfo>) -> Disc {
    Disc { root: "/dev/null".to_string(), titles }
}

#[test]
fn unique_titles_dedup_by_playlist_id() {
    let disc = disc(vec![
        title(1, 100, 90_000 * 60),
        title(2, 100, 90_000 * 60), // same playlist as title 1: dropped
        title(3, 200, 90_000 * 30),
        title(4, 100, 90_000 * 60), // same again: dropped
        title(5, 300, 90_000 * 10),
    ]);
    let unique = disc.unique_titles();
    assert_eq!(unique.len(), 3);
    assert_eq!(unique[0].id, 1);
    assert_eq!(unique[0].playlist_id, 100);
    assert_eq!(unique[1].id, 3);
    assert_eq!(unique[1].playlist_id, 200);
    assert_eq!(unique[2].id, 5);
    assert_eq!(unique[2].playlist_id, 300);
}

#[test]
fn unique_titles_skips_placeholder_4000() {
    let disc = disc(vec![
        title(1, 0x4000, 0),
        title(2, 100, 90_000 * 30),
        title(3, 0x4000, 0),
        title(4, 100, 90_000 * 30),
    ]);
    let unique = disc.unique_titles();
    assert_eq!(unique.len(), 1);
    assert_eq!(unique[0].id, 2);
    assert_eq!(unique[0].playlist_id, 100);
}

#[test]
fn unique_titles_empty_list_yields_empty_result() {
    let disc = disc(vec![]);
    assert!(disc.unique_titles().is_empty());
}

#[test]
fn extract_di_name_handles_namespaced_form() {
    let xml = br#"<?xml version="1.0" encoding="UTF-8"?>
<disclibrary xmlns:di="urn:BDA:bdmv;discinfo">
  <di:discinfo>
    <di:title>
      <di:name>My Movie</di:name>
      <di:numSets>1</di:numSets>
    </di:title>
  </di:discinfo>
</disclibrary>"#;
    assert_eq!(extract_di_name(xml), Some("My Movie".to_string()));
}

#[test]
fn extract_di_name_handles_unqualified_name() {
    let xml = br#"<root><name>Plain</name></root>"#;
    assert_eq!(extract_di_name(xml), Some("Plain".to_string()));
}

#[test]
fn extract_di_name_returns_none_when_absent() {
    let xml = br#"<root><title>Not a name</title></root>"#;
    assert_eq!(extract_di_name(xml), None);
}

#[test]
fn extract_di_name_trims_whitespace() {
    let xml = b"<di:name>   Padded   </di:name>";
    assert_eq!(extract_di_name(xml), Some("Padded".to_string()));
}

#[test]
fn extract_di_name_empty_element_yields_none() {
    let xml = b"<di:name></di:name>";
    assert_eq!(extract_di_name(xml), None);
}

#[test]
fn extract_di_name_skips_attributes_on_start_tag() {
    let xml = br#"<di:name xml:lang="en">Localised</di:name>"#;
    assert_eq!(extract_di_name(xml), Some("Localised".to_string()));
}

#[test]
fn extract_di_name_takes_whole_element_names() {
    assert_eq!(
        extract_di_name(b"<root><names>1</names><name>A</name></root>"),
        Some("A".to_string())
    );
    assert_eq!(
        extract_di_name(b"<di:names>1</di:names><di:name\n x='1'>B</di:name>"),
        Some("B".to_string())
    );
    // Where there is no di:name element, a longer name is none either.
    assert_eq!(
        extract_di_name(b"<di:nameless>1</di:nameless><name>C</name>"),
        Some("C".to_string())
    );
    assert_eq!(extract_di_name(b"<names>1</names>"), None);
    assert_eq!(extract_di_name(b"<name"), None);
    // An element that is closed at once has no text.
    assert_eq!(extract_di_name(b"<name/><b/><name>D</name>"), None);
    assert_eq!(extract_di_name(b"<di:name x='1'/></di:name>"), None);
}

#[test]
fn extract_di_name_rejects_mixed_tags_and_bad_text() {
    assert_eq!(extract_di_name(b"<di:name>x</name>"), None);
    assert_eq!(extract_di_name(b"<name>\xFF\xFE</name>"), None);
    assert_eq!(find_subsequence(b"aabaab", b"ab"), Some(1));
    assert_eq!(find_subsequence(b"ab", b"abc"), None);
    assert_eq!(find_subsequence(b"ab", b""), None);
}

#[test]
fn title_meta_returns_none_when_meta_directory_empty() {
    assert_eq!(disc(vec![]).title_meta(&vec![]), None);
}

#[test]
fn title_meta_reads_bdmt_en_xml_with_language_suffix() {
    let xml = br#"<?xml version="1.0"?>
<disclibrary xmlns:di="urn:BDA:bdmv;discinfo">
  <di:discinfo>
    <di:title>
      <di:name>Kite Uncut</di:name>
    </di:title>
  </di:discinfo>
</disclibrary>"#;
    let files =
        vec![MetaFile { name: Some("bdmt_eng.xml".into()), content: Some(xml.to_vec()) }];
    let meta = disc(vec![]).title_meta(&files).expect("META present");
    assert_eq!(meta.title, "Kite Uncut");
    assert_eq!(meta.language.as_deref(), Some("eng"));
}

#[test]
fn title_meta_ignores_non_matching_filenames() {
    let files = vec![MetaFile {
        name: Some("README.xml".into()),
        content: Some(b"<root><name>nope</name></root>".to_vec()),
    }];
    assert_eq!(disc(vec![]).title_meta(&files), None);
    assert!(is_meta_file("BDMT_Eng.XML"));
    assert!(!is_meta_file("bdmt_eng.txt"));
}

#[test]
fn title_meta_goes_on_to_the_next_file() {
    let files = vec![
        MetaFile { name: Some("bdmt_fra.xml".into()), content: Some(b"<x/>".to_vec()) },
        MetaFile { name: Some("BDMT_.XML".into()), content: Some(b"<name>N</name>".to_vec()) },
    ];
    let meta = disc(vec![]).title_meta(&files).expect("second file");
    assert_eq!((meta.title.as_str(), meta.language), ("N", None));
    let unreadable = vec![
        MetaFile { name: Some("bdmt_fra.xml".into()), content: None },
        MetaFile { name: Some("bdmt_eng.xml".into()), content: Some(b"<name>N</name>".to_vec()) },
    ];
    assert_eq!(disc(vec![]).title_meta(&unreadable), None);
}

#[test]
fn decode_lang_code_rejects_unset_sentinel() {
    assert_eq!(decode_lang_code([0, 0, 0]), None);
}

#[test]
fn decode_lang_code_rejects_non_ascii() {
    assert_eq!(decode_lang_code([0xFF, 0xFE, 0xFD]), None);
    assert_eq!(decode_lang_code([0, b'e', b'n']), None);
}

#[test]
fn decode_lang_code_lowercases_uppercase_authoring() {
    assert_eq!(decode_lang_code(*b"ENG"), Some("eng".into()));
    assert_eq!(decode_lang_code(*b"jpn"), Some("jpn".into()));
    assert_eq!(decode_lang_code(*b"FrA"), Some("fra".into()));
}

#[test]
fn class_order_is_monotonic_and_matches_spec_order() {
    let order = [
        TrackKind::PrimaryVideo,
        TrackKind::PrimaryAudio,
        TrackKind::PgSubtitle,
        TrackKind::IgMenu,
        TrackKind::SecondaryAudio,
        TrackKind::SecondaryVideo,
        TrackKind::PipPgSubtitle,
    ];
    for (i, k) in order.iter().enumerate() {
        assert_eq!(class_order(*k) as usize, i);
    }
}

// --- a disc of two clips ---

fn audio(pid: u16, language_code: [u8; 3]) -> PrimaryAudioStream {
    PrimaryAudioStream {
        elementary_pid: pid,
        coding_type: StreamCodingType::TruehdAudio,
        language_code,
        ..PrimaryAudioStream::default()
    }
}

fn play_item(stem: &str, in_s: u32, out_s: u32, streams: StnTable) -> PlayItem {
    PlayItem {
        clip_information_file_name: stem.into(),
        clip_codec_identifier: *b"M2TS",
        connection_condition: ConnectionCondition::SeamlessNewStc,
        stc_id_ref: 0,
        in_time_ticks: 45_000 * in_s,
        out_time_ticks: 45_000 * out_s,
        multi_clip_count: 1,
        angles: Vec::new(),
        stn_table: streams,
        flags: PlayItemFlags::default(),
    }
}

fn entry_mark(item: u16, seconds: u32) -> PlayListMark {
    PlayListMark {
        mark_type: 1,
        ref_play_item_id: item,
        mark_time_ticks: 45_000 * seconds,
        entry_es_pid: 0xFFFF,
        duration_ticks: 0,
    }
}

fn playlist(play_items: Vec<PlayItem>, marks: Vec<PlayListMark>) -> PlayListMpls {
    PlayListMpls {
        version: *b"0200",
        app_info: AppInfoPlayList {
            playback_type: 1,
            playback_count: 0,
            random_access_flag: 0,
            audio_mix_app_flag: 0,
            lossless_may_bypass_mixer_flag: 0,
            uo_mask: 0,
        },
        play_list: PlayList { play_items, sub_paths: Vec::new() },
        marks,
    }
}

/// Clip one plays seconds 10 to 20, clip two seconds 0 to 5.
fn two_clips() -> PlayListMpls {
    let mut first = StnTable::default();
    first.primary_video = vec![PrimaryVideoStream {
        elementary_pid: 0x1011,
        coding_type: StreamCodingType::AvcVideo,
        ..PrimaryVideoStream::default()
    }];
    first.primary_audio = vec![audio(0x1102, *b"ENG"), audio(0x1100, *b"jpn"), audio(0, *b"deu")];
    first.pg_subtitles = vec![PgsSubtitleStream {
        elementary_pid: 0x1200,
        coding_type: StreamCodingType::PgsSubtitle,
        language_code: *b"eng",
    }];
    first.ig_streams = vec![IgsInteractiveStream {
        elementary_pid: 0x1400,
        coding_type: StreamCodingType::IgsInteractive,
        language_code: *b"fra",
    }];
    let mut second = StnTable::default();
    second.primary_audio = vec![audio(0x1100, *b"jpn"), audio(0x1100, *b"jpn")];
    playlist(
        vec![play_item("00001", 10, 20, first), play_item("00002", 0, 5, second)],
        vec![entry_mark(0, 10), entry_mark(0, 15), entry_mark(1, 0)],
    )
}

fn ep(seconds: u32, spn: u32, angle: bool) -> EpEntry {
    EpEntry {
        is_angle_change_point: angle,
        i_end_position_offset: 0,
        pts_ep_start: (90_000 * seconds) & !511,
        spn_ep_start: spn,
        ep_stream_type: 1,
    }
}

fn clip_info(entries: Vec<EpEntry>) -> Vec<u8> {
    let other = EpMap { stream_pid: 0x0100, ep_stream_type: 3, entries: vec![ep(0, 1, true)] };
    let video = EpMap { stream_pid: 0x1011, ep_stream_type: 1, entries };
    ClipInformation {
        version: *b"0200",
        clip_info: ClipInfo {
            clip_stream_type: 1,
            application_type: 1,
            ts_recording_rate: 48_000_000,
            number_of_source_packets: 0,
            ts_type_info_block: TsTypeInfoBlock { validity_flags: 0x80, format_id: *b"HDMV" },
        },
        sequence_info: SequenceInfo {
            atc_sequences: vec![AtcSequence {
                spn_atc_start: 0,
                offset_stc_id: 0,
                stc_sequences: vec![StcSequence {
                    pcr_pid: 0x1001,
                    spn_stc_start: 0,
                    presentation_start_time: 45_000 * 9,
                    presentation_end_time: 45_000 * 90,
                }],
            }],
        },
        program_info: ProgramInfo { programs: vec![] },
        cpi: Cpi { ep_map: vec![other, video], ts_type_indicators: Vec::new() },
        clip_mark: ClipMark { num_marks: 0 },
    }
    .encode()
}

/// A stream file: packet `i` is filled with `first + i`.
fn clip_content(first: u8, packets: usize, stray: usize) -> Vec<u8> {
    let mut v = Vec::new();
    for i in 0..packets {
        v.extend_from_slice(&[0xEE; 4]);
        v.extend_from_slice(&[first.wrapping_add(i as u8); 188]);
    }
    v.extend_from_slice(&vec![0xDD; stray]);
    v
}

fn contents() -> Vec<Vec<u8>> {
    vec![clip_content(0, 40, 7), clip_content(100, 3, 0)]
}

fn clip_files() -> Vec<ClipFiles> {
    let c = contents();
    vec![
        ClipFiles {
            m2ts_len: Some(c[0].len() as u64),
            clpi: Some(clip_info(vec![
                ep(9, 2, true),
                ep(10, 5, false),
                ep(13, 20, true),
                ep(16, 35, false),
                ep(19, 90, false),
            ])),
        },
        ClipFiles { m2ts_len: Some(c[1].len() as u64), clpi: None },
    ]
}

fn stream() -> Vec<u8> {
    let c = contents();
    let mut v = strip_tp_extra(&c[0]);
    v.extend(strip_tp_extra(&c[1]));
    v
}

fn open(angle: u8) -> TitleSource {
    let bytes = two_clips().encode();
    disc(vec![]).open_title_with_angle(&bytes, angle, &clip_files()).expect("opens")
}

/// Reads from memory as an owner of stream files does.
struct Player {
    source: TitleSource,
    contents: Vec<Vec<u8>>,
    clip: usize,
    at: usize,
}

impl Player {
    fn start() -> Player {
        let mut source = open(0);
        assert_eq!(source.open_next_clip(), Some(0));
        Player { source, contents: contents(), clip: 0, at: 0 }
    }

    fn read(&mut self, out: &mut [u8]) -> usize {
        loop {
            match self.source.read_step(out.len()) {
                ReadStep::End => return 0,
                ReadStep::Deliver => return self.source.deliver(out),
                ReadStep::NextUnit => {
                    let content = &self.contents[self.clip];
                    let end = content.len().min(self.at + 6144);
                    let mut unit = content[self.at..end].to_vec();
                    self.at = end;
                    match self.source.take_unit(&mut Identity, &mut unit) {
                        Ok(UnitStep::Ready) | Ok(UnitStep::End) => {}
                        Ok(UnitStep::Open(k)) => {
                            self.clip = k;
                            self.at = 0;
                        }
                        Err(e) => panic!("{}", e.to_string()),
                    }
                }
            }
        }
    }

    fn rest(&mut self) -> Vec<u8> {
        let mut all = Vec::new();
        let mut buf = [0u8; 1000];
        loop {
            let n = self.read(&mut buf);
            if n == 0 {
                return all;
            }
            all.extend_from_slice(&buf[..n]);
        }
    }

    fn skip(&mut self, n: usize) {
        let mut buf = vec![0u8; n];
        let mut done = 0;
        while done < n {
            let got = self.read(&mut buf[done..]);
            assert!(got > 0);
            done += got;
        }
    }

    fn seek_to(&mut self, pts: u64) -> u64 {
        let plan = self.source.seek_to(pts).expect("the title has clips");
        self.clip = plan.clip_idx;
        self.at = plan.unit_byte_start as usize;
        assert_eq!(plan.unit_byte_start % 6144, 0);
        self.skip(plan.skip as usize);
        self.source.output_pos
    }
}

fn command(first: [u8; 2], operand: u32) -> NavCommand {
    let mut bytes = [0u8; 12];
    bytes[..2].copy_from_slice(&first);
    bytes[4..8].copy_from_slice(&operand.to_be_bytes());
    NavCommand { bytes }
}

/// PlayPL with an immediate operand.
fn play(playlist: u32) -> NavCommand {
    command([0x22, 0x80], playlist)
}

fn movie_objects(objects: Vec<Vec<NavCommand>>) -> Vec<u8> {
    let movie_objects = objects
        .into_iter()
        .map(|commands| MovieObject {
            resume_intention_flag: 0,
            menu_call_mask: 0,
            title_search_mask: 0,
            commands,
        })
        .collect();
    MovieObjects { version: *b"0200", movie_objects }.encode()
}

#[test]
fn a_title_plays_what_its_movie_object_plays_first() {
    let nop = command([0, 0], 0);
    // PlayPL whose operand is a register, PlayPLatMark, and no playlist number.
    let by_register = command([0x22, 0x00], 3);
    let at_mark = command([0x42, 0xC2], 4);
    let too_large = play(0x1_0000);
    let objects = movie_objects(vec![
        vec![nop, play(800), play(801)],
        vec![nop],
        vec![by_register, at_mark, too_large, play(9)],
        vec![],
    ]);
    let hdmv = |id| IndexEntry {
        object: IndexObjectType::Hdmv { playback_type: 0, movie_object_id_ref: id },
    };
    let index = IndexBdmv {
        version: *b"0200",
        app_info: AppInfoBdmv {
            initial_output_mode_preference: 0,
            content_exist_flag: 1,
            video_format: 6,
            frame_rate: 4,
        },
        first_playback_title: hdmv(0),
        menu_title: hdmv(1),
        titles: vec![hdmv(2), hdmv(0), hdmv(1), hdmv(3), hdmv(4)],
    }
    .encode();
    let ids = title_playlists(&index, Some(&objects)).expect("valid");
    assert_eq!(ids, vec![9, 800, 0, 0, 0]);
    let d = Disc::mount("/disc", true, &index, Some(&objects), &vec![]).expect("mounts");
    let found: Vec<u16> = d.titles().iter().map(|t| t.playlist_id).collect();
    assert_eq!(found, ids);

    // Without the file, or with a broken one, no playlist is known.
    assert_eq!(title_playlists(&index, None).expect("valid"), vec![0; 5]);
    assert_eq!(title_playlists(&index, Some(b"MOBJ")).expect("valid"), vec![0; 5]);
}

#[test]
fn mounting_reads_titles_and_playlists() {
    let hdmv = |id| IndexEntry {
        object: IndexObjectType::Hdmv { playback_type: 0, movie_object_id_ref: id },
    };
    let index = IndexBdmv {
        version: *b"0200",
        app_info: AppInfoBdmv {
            initial_output_mode_preference: 0,
            content_exist_flag: 1,
            video_format: 6,
            frame_rate: 4,
        },
        first_playback_title: hdmv(0),
        menu_title: hdmv(1),
        titles: vec![
            hdmv(7),
            IndexEntry {
                object: IndexObjectType::BdJ { playback_type: 0, bdjo_file_name: "00000".into() },
            },
            hdmv(8),
        ],
    }
    .encode();
    let mut lists = vec![vec![]; 9];
    lists[7] = vec![play(70)];
    lists[8] = vec![play(80)];
    let objects = movie_objects(lists);
    assert_eq!(title_playlists(&index, Some(&objects)).expect("valid"), vec![70, 0, 80]);
    assert_eq!(playlist_file_name(7), "00007.mpls");
    assert_eq!(playlist_file_name(65535), "65535.mpls");

    let files = vec![Some(two_clips().encode()), None, Some(vec![1, 2, 3])];
    let d = Disc::mount("/disc", true, &index, Some(&objects), &files).expect("mounts");
    assert_eq!(d.root(), "/disc");
    let t = d.titles();
    assert_eq!(t.len(), 3);
    assert_eq!((t[0].id, t[0].kind, t[0].playlist_id), (1, TitleKind::Hdmv, 70));
    assert_eq!(t[0].duration_ticks, 15 * 90_000);
    assert_eq!(t[0].languages, vec!["deu", "eng", "fra", "jpn"]);
    assert_eq!((t[1].id, t[1].kind, t[1].playlist_id), (2, TitleKind::BdJ, 0));
    assert_eq!((t[2].id, t[2].duration_ticks, t[2].languages.len()), (3, 0, 0));
    assert_eq!(d.longest_title().map(|t| t.id), Some(1));

    assert!(matches!(
        Disc::mount("/disc", false, &index, Some(&objects), &files),
        Err(BlurayError::NotBluray(msg)) if msg == "no BDMV/ subdirectory at /disc"
    ));
    assert!(matches!(
        Disc::mount("/disc", true, b"XXXX0200", Some(&objects), &files),
        Err(BlurayError::Malformed(_))
    ));
}

#[test]
fn longest_title_is_the_last_of_equals() {
    let mut d = disc(vec![title(1, 1, 50), title(2, 2, 90), title(3, 3, 90), title(4, 4, 10)]);
    assert_eq!(d.longest_title().map(|t| t.id), Some(3));
    d.titles[2].kind = TitleKind::BdJ;
    assert_eq!(d.longest_title().map(|t| t.id), Some(2));
    assert!(disc(vec![]).longest_title().is_none());
}

#[test]
fn tracks_are_listed_once_in_the_order_of_the_tables() {
    let pl = two_clips();
    let c = build_track_catalogue(&pl);
    let listed: Vec<(u16, TrackKind, u32)> =
        c.tracks.iter().map(|t| (t.pid, t.kind, t.playitem_count)).collect();
    assert_eq!(
        listed,
        vec![
            (0x1011, TrackKind::PrimaryVideo, 1),
            (0x1102, TrackKind::PrimaryAudio, 1),
            (0x1100, TrackKind::PrimaryAudio, 2),
            (0x1200, TrackKind::PgSubtitle, 1),
            (0x1400, TrackKind::IgMenu, 1),
        ]
    );
    assert_eq!(c.len(), 5);
    assert!(!c.is_empty());
    assert_eq!(c.by_kind(TrackKind::PrimaryAudio).len(), 2);
    let t = c.by_pid(0x1102).expect("listed");
    assert_eq!(t.label(), "Dolby TrueHD (eng)");
    assert_eq!(c.by_pid(0x1400).map(|t| t.language.clone()), Some(None));
    assert!(c.by_pid(0x9999).is_none());
    assert_eq!(collect_languages(&pl), vec!["deu", "eng", "fra", "jpn"]);

    let bytes = pl.encode();
    assert_eq!(disc(vec![]).title_streams(Some(&bytes)), c);
    assert!(disc(vec![]).title_streams(None).is_empty());
}

#[test]
fn segments_lie_end_to_end() {
    let bytes = two_clips().encode();
    let d = disc(vec![]);
    assert_eq!(d.title_clips(Some(&bytes), 0), vec!["00001", "00002"]);
    let s = d.title_pts_continuity_segments(Some(&bytes), &clip_files());
    assert_eq!(s.len(), 2);
    assert_eq!(s[0].clip_stem, *b"00001");
    assert_eq!((s[0].output_byte_start, s[0].output_byte_end), (0, 40 * 188));
    assert_eq!((s[0].title_pts_start, s[0].title_pts_end), (0, 900_000));
    assert_eq!((s[0].clip_in_pts_90k, s[0].clip_out_pts_90k), (900_000, 1_800_000));
    assert_eq!(s[0].stc_origin_pts_90k, 9 * 90_000);
    assert_eq!(s[0].connection_condition, ConnectionCondition::NonSeamless);
    assert_eq!(s[1].play_item_index, 1);
    assert_eq!((s[1].output_byte_start, s[1].output_byte_end), (40 * 188, 43 * 188));
    assert_eq!((s[1].title_pts_start, s[1].title_pts_end), (900_000, 1_350_000));
    assert_eq!(s[1].stc_origin_pts_90k, 0);
    assert_eq!(s[1].connection_condition, ConnectionCondition::SeamlessNewStc);
    assert_eq!(s, open(0).pts_continuity_segments());
    assert!(d.title_pts_continuity_segments_with_angle(Some(&bytes), 1, &clip_files()).is_empty());
}

#[test]
fn time_stamps_are_put_onto_the_title() {
    let s = open(0);
    assert_eq!(s.map_clip_pts_to_title_pts(0, 900_000), Some(0));
    assert_eq!(s.map_clip_pts_to_title_pts(40 * 188 - 1, 990_000), Some(90_000));
    assert_eq!(s.map_clip_pts_to_title_pts(40 * 188, 90_000), Some(990_000));
    // Before the window, and behind the last segment.
    assert_eq!(s.map_clip_pts_to_title_pts(0, 899_999), None);
    assert_eq!(s.map_clip_pts_to_title_pts(43 * 188, 90_000), None);
}

#[test]
fn angle_changes_lie_inside_the_window() {
    let bytes = two_clips().encode();
    let s = open(0);
    let points = s.angle_change_points();
    assert_eq!(points.len(), 1);
    let pts = (90_000 * 13) & !511;
    assert_eq!(points[0].clip_pts_90k, pts);
    assert_eq!(points[0].title_pts_90k, u64::from(pts) - 900_000);
    assert_eq!((points[0].spn, points[0].output_byte), (20, 20 * 188));
    assert_eq!(s.next_angle_change_point(0), Some(points[0]));
    assert_eq!(s.next_angle_change_point(points[0].title_pts_90k + 1), None);
    assert_eq!(s.switch_angle(), Some(points[0].title_pts_90k));
    let d = disc(vec![]);
    assert_eq!(d.title_angle_change_points(Some(&bytes), &clip_files()), points);
    assert!(d.title_angle_change_points_with_angle(Some(&bytes), 1, &clip_files()).is_empty());
}

#[test]
fn a_title_plays_as_its_stripped_clips() {
    let mut p = Player::start();
    assert_eq!(p.source.output_total(), 43 * 188);
    assert_eq!(p.rest(), stream());
    assert_eq!(p.source.output_pos, 43 * 188);
    assert_eq!(title_bytes(&clip_files()), Some(43 * 188));
    let huge = ClipFiles { m2ts_len: Some(u64::MAX), clpi: None };
    assert_eq!(title_bytes(&vec![huge.clone(), huge]), None);
}

#[test]
fn a_seek_lands_on_the_entry_point_at_or_before() {
    let mut p = Player::start();
    // Two seconds in: the entry point of second 10.
    assert_eq!(p.seek_to(2 * 90_000), 5 * 188);
    assert_eq!(p.rest(), &stream()[5 * 188..]);
    // Six and a half seconds in: that of second 16, in the second unit.
    assert_eq!(p.seek_to(585_000), 35 * 188);
    assert_eq!(p.rest(), &stream()[35 * 188..]);
    // An entry point behind the clip's end stands for the last packet.
    assert_eq!(p.seek_to(890_000), 39 * 188);
    // A clip without entry points is entered at its start.
    assert_eq!(p.seek_to(1_000_000), 40 * 188);
    assert_eq!(p.rest(), &stream()[40 * 188..]);
    // Behind the end of the title: the start of the last clip.
    assert_eq!(p.seek_to(99_000_000), 40 * 188);
}

#[test]
fn a_seek_behind_the_end_ignores_entry_points() {
    let mut files = clip_files();
    files.remove(1);
    let bytes = playlist(vec![play_item("00001", 10, 20, StnTable::default())], vec![]).encode();
    let mut s = disc(vec![]).open_title(&bytes, &files).expect("opens");
    assert_eq!(s.seek_to(900_000).map(|p| p.output_at_unit + p.skip), Some(39 * 188));
    assert_eq!(s.seek_to(900_001).map(|p| p.output_at_unit + p.skip), Some(0));
}

#[test]
fn a_seek_to_a_byte() {
    let mut p = Player::start();
    assert_eq!(p.source.seek(SeekOrigin::Start(0)), Ok(SeekStep::Stay));
    assert_eq!(p.source.seek(SeekOrigin::Current(10)), Ok(SeekStep::Forward { cap: 10 }));
    assert_eq!(p.source.seek(SeekOrigin::End(5)), Ok(SeekStep::Forward { cap: 43 * 188 }));
    assert_eq!(
        p.source.seek(SeekOrigin::Current(-1)),
        Err("TitleSource: seek before start".to_string())
    );
    let _ = p.rest();
    assert_eq!(
        p.source.seek(SeekOrigin::End(-200)),
        Ok(SeekStep::Reopen { clip_idx: 1, cap: 43 * 188 - 200 })
    );
    p.clip = 1;
    p.at = 0;
    assert_eq!(p.source.output_pos, 40 * 188);
    assert_eq!(p.rest(), &stream()[40 * 188..]);
}

#[test]
fn angles_are_opened_and_switched() {
    let mut pl = two_clips();
    for pi in pl.play_list.play_items.iter_mut() {
        pi.multi_clip_count = 2;
        pi.angles = vec![AngleClip {
            clip_information_file_name: "00009".into(),
            clip_codec_identifier: *b"M2TS",
            stc_id_ref: 0,
        }];
    }
    let bytes = pl.encode();
    let d = disc(vec![]);
    assert_eq!(d.max_angle(Some(&bytes)), 1);
    assert_eq!(d.max_angle(Some(&two_clips().encode())), 0);
    assert_eq!(d.max_angle(None), 0);
    assert_eq!(d.title_clips(Some(&bytes), 1), vec!["00009", "00009"]);
    let mut s = d.open_title(&bytes, &clip_files()).expect("opens");
    assert_eq!((s.current_angle(), s.num_angles()), (0, 2));
    let at = s.switch_angle().expect("one place");
    let plan = s.switch_angle_at(1, &clip_files(), at).expect("both items have it");
    assert_eq!(plan.map(|p| p.output_at_unit + p.skip), Some(20 * 188));
    assert_eq!(s.current_angle(), 1);
    assert_eq!(
        s.switch_angle_at(2, &clip_files(), at),
        Err("angle 2 unavailable on PlayItem 0 (has 2 angles)".to_string())
    );
    assert_eq!(s.current_angle(), 1);
    assert!(matches!(
        d.open_title_with_angle(&bytes, 2, &clip_files()),
        Err(BlurayError::NotBluray(msg))
            if msg == "angle 2 unavailable on PlayItem 0 (has 2 angles)"
    ));
    let empty = playlist(vec![], vec![]).encode();
    assert!(matches!(
        d.open_title(&empty, &vec![]),
        Err(BlurayError::NotBluray(msg)) if msg == "title has no PlayItems"
    ));
    assert!(matches!(d.open_title(b"nothing", &vec![]), Err(BlurayError::Malformed(_))));
}

#[test]
fn chapters_are_chosen_and_cut() {
    let bytes = two_clips().encode();
    let d = disc(vec![]);
    let chapters = d.chapters(Some(&bytes));
    let starts: Vec<u64> = chapters.iter().map(|c| c.start_pts_90k).collect();
    assert_eq!(starts, vec![0, 450_000, 900_000]);
    assert_eq!(d.chapter_spans(Some(&bytes))[2].end_pts_90k, 1_350_000);
    assert!(d.title_sub_paths(Some(&bytes)).is_empty());

    let t = title(1, 1, 1_350_000);
    let mut segs: ChapterSegments =
        d.open_title_chapters(&t, &ChapterSelector::All, Some(&bytes)).expect("three chapters");
    assert_eq!(segs.remaining(), 3);
    let source = open(0);
    let mut next = 5 * 188;
    while let Some(req) = segs.next_request() {
        let (start, len) = source.chapter_bytes(&req);
        assert_eq!(start, next);
        next = start + len;
        assert_eq!(req.ends_at_title_end, segs.remaining() == 0);
    }
    assert_eq!(next, 43 * 188);

    let picked = d
        .open_title_chapters(&t, &ChapterSelector::List(vec![3, 1]), Some(&bytes))
        .expect("both exist");
    let ids: Vec<u32> = picked.requests.iter().map(|r| r.chapter_id).collect();
    assert_eq!(ids, vec![3, 1]);
    assert!(matches!(
        d.open_title_chapters(&t, &ChapterSelector::All, None),
        Err(BlurayError::NotBluray(msg))
            if msg == "title 1 has no chapters — cannot slice by chapter"
    ));
}

#[test]
fn a_choice_outside_the_chapters_is_refused() {
    let range = |start, end| ChapterSelector::Range { start, end };
    assert_eq!(select_chapters(&range(2, None), 3), Ok(vec![2, 3]));
    assert_eq!(select_chapters(&range(2, Some(2)), 3), Ok(vec![2]));
    assert_eq!(
        select_chapters(&range(0, None), 3),
        Err("chapter range start 0 is outside [1, 3]".to_string())
    );
    assert_eq!(
        select_chapters(&range(2, Some(1)), 3),
        Err("chapter range end 1 is outside [2, 3]".to_string())
    );
    assert_eq!(
        select_chapters(&ChapterSelector::List(vec![1, 9, 7]), 3),
        Err("chapter id 9 is outside [1, 3]".to_string())
    );
    let chapters = vec![Chapter { index: 0, start_pts_90k: 5, ref_play_item_id: 0 }];
    let r = chapter_requests(1, 100, &chapters, &ChapterSelector::All).expect("one chapter");
    assert_eq!((r[0].start_pts_90k, r[0].end_pts_90k, r[0].ends_at_title_end), (5, 100, true));
    assert!(matches!(
        chapter_requests(1, 100, &chapters, &range(1, Some(2))),
        Err(BlurayError::Malformed(msg)) if msg == "chapter range end 2 is outside [1, 1]"
    ));
}

/// Turns over every bit, and remembers where it was called.
struct Flip {
    offsets: Vec<u64>,
    broken: bool,
}

impl StreamDecryptor for Flip {
    fn decrypt_units(&mut self, buf: &mut [u8], clip_offset: u64) -> Result<(), DecryptError> {
        self.offsets.push(clip_offset);
        if self.broken {
            return Err(DecryptError::new("no key"));
        }
        for b in buf.iter_mut() {
            *b = !*b;
        }
        Ok(())
    }
}

#[test]
fn whole_units_go_through_the_decryptor() {
    let clip = &contents()[0];
    let mut source = open(0);
    assert_eq!(source.open_next_clip(), Some(0));

    let mut flip = Flip { offsets: Vec::new(), broken: true };
    let mut unit = clip[..6144].to_vec();
    match source.take_unit(&mut flip, &mut unit) {
        Err(e) => assert_eq!(e.to_string(), "no key"),
        Ok(_) => panic!("not refused"),
    }
    assert_eq!(source.read_step(1), ReadStep::NextUnit);

    flip.broken = false;
    assert_eq!(source.take_unit(&mut flip, &mut unit).ok(), Some(UnitStep::Ready));
    let mut out = vec![0u8; 32 * 188];
    assert_eq!(source.deliver(&mut out), out.len());
    let flipped: Vec<u8> = strip_tp_extra(&clip[..6144]).iter().map(|b| !b).collect();
    assert_eq!(out, flipped);

    // What is less than a unit is not encrypted.
    let mut tail = clip[6144..].to_vec();
    assert_eq!(source.take_unit(&mut flip, &mut tail).ok(), Some(UnitStep::Ready));
    let mut out = vec![0u8; 8 * 188];
    assert_eq!(source.deliver(&mut out), out.len());
    assert_eq!(out, strip_tp_extra(&clip[6144..]));
    assert_eq!(flip.offsets, vec![0, 0]);
}
