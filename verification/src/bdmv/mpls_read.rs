//! Reading `.mpls` files: what record stands at an offset of the file, and
//! the parser that finds it.
use vstd::prelude::*;
use vstd::utf8::{decode_utf8, valid_utf8};

use crate::bdmv::common::{
    array3_at, array4_at, bad_type, be16, be32, be64, lemma_list_at_none, lemma_list_refusal,
    list_at, list_refusal, past_end_text, type_text, utf8_text, BdmvHeader, Reader,
};
use crate::bdmv::mpls::{
    angle_models, empty_stn, item_models, AngleClip, AngleClipModel, AppInfoPlayList,
    ConnectionCondition, IgsInteractiveStream, PgsSubtitleStream, PipPgStream, PlayItem,
    PlayItemFlags, PlayItemModel, PlayList, PlayListMark, PlayListModel, PlayListMpls,
    PrimaryAudioStream, PrimaryVideoStream, SecondaryAudioStream, SecondaryVideoStream, StnTable,
    StnTableModel, StreamCodingType, SubPath,
};
use crate::error::BlurayError;

verus! {

// ---------------------------------------------------------------------
// What stands at an offset
// ---------------------------------------------------------------------

/// The `stream_entry` block at `p`: a length byte and as many bytes. An
/// entry of type 1 carries the stream's PID, any other has none (zero).
pub open spec fn stream_entry_at(s: Seq<u8>, p: int) -> Option<(u16, int)> {
    if p + 1 > s.len() || p + 1 + s[p] > s.len() {
        None
    } else {
        Some(
            (
                if s[p] >= 3 && s[p + 1] == 1 {
                    be16(s, p + 2)
                } else {
                    0
                },
                p + 1 + s[p],
            ),
        )
    }
}

/// Where the `stream_attributes` block at `q` ends: a length byte and as many
/// bytes.
pub open spec fn attributes_end(s: Seq<u8>, q: int) -> Option<int> {
    if q + 1 > s.len() || q + 1 + s[q] > s.len() {
        None
    } else {
        Some(q + 1 + s[q])
    }
}

/// Byte `k` of the attributes at `q`, or zero where the block is shorter.
pub open spec fn attribute(s: Seq<u8>, q: int, k: int) -> u8 {
    if k < s[q] {
        s[q + 1 + k]
    } else {
        0
    }
}

/// The language tag from byte `k` of the attributes on, or zeros where the
/// block is too short to hold it.
pub open spec fn attribute_language(s: Seq<u8>, q: int, k: int) -> [u8; 3] {
    if k + 3 <= s[q] {
        array3_at(s, q + 1 + k)
    } else {
        [0, 0, 0]
    }
}

/// The video stream at `p`.
pub open spec fn video_at(s: Seq<u8>, p: int) -> Option<(PrimaryVideoStream, int)> {
    match stream_entry_at(s, p) {
        None => None,
        Some((pid, q)) => match attributes_end(s, q) {
            None => None,
            Some(end) => Some(
                (
                    PrimaryVideoStream {
                        elementary_pid: pid,
                        coding_type: StreamCodingType::of_raw(attribute(s, q, 0)),
                        video_format: attribute(s, q, 1) / 16,
                        frame_rate: attribute(s, q, 1) % 16,
                        aspect_ratio: attribute(s, q, 2) / 16,
                    },
                    end,
                ),
            ),
        },
    }
}

/// The audio stream at `p`.
pub open spec fn audio_at(s: Seq<u8>, p: int) -> Option<(PrimaryAudioStream, int)> {
    match stream_entry_at(s, p) {
        None => None,
        Some((pid, q)) => match attributes_end(s, q) {
            None => None,
            Some(end) => Some(
                (
                    PrimaryAudioStream {
                        elementary_pid: pid,
                        coding_type: StreamCodingType::of_raw(attribute(s, q, 0)),
                        audio_format: attribute(s, q, 1) / 16,
                        sample_rate: attribute(s, q, 1) % 16,
                        language_code: attribute_language(s, q, 2),
                    },
                    end,
                ),
            ),
        },
    }
}

/// The graphics stream at `p`.
pub open spec fn graphics_at(s: Seq<u8>, p: int) -> Option<(PgsSubtitleStream, int)> {
    match stream_entry_at(s, p) {
        None => None,
        Some((pid, q)) => match attributes_end(s, q) {
            None => None,
            Some(end) => Some(
                (
                    PgsSubtitleStream {
                        elementary_pid: pid,
                        coding_type: StreamCodingType::of_raw(attribute(s, q, 0)),
                        language_code: attribute_language(s, q, 1),
                    },
                    end,
                ),
            ),
        },
    }
}

/// A video stream as a secondary one.
pub open spec fn as_secondary_video(v: PrimaryVideoStream) -> SecondaryVideoStream {
    SecondaryVideoStream {
        elementary_pid: v.elementary_pid,
        coding_type: v.coding_type,
        video_format: v.video_format,
        frame_rate: v.frame_rate,
        aspect_ratio: v.aspect_ratio,
    }
}

/// An audio stream as a secondary one.
pub open spec fn as_secondary_audio(a: PrimaryAudioStream) -> SecondaryAudioStream {
    SecondaryAudioStream {
        elementary_pid: a.elementary_pid,
        coding_type: a.coding_type,
        audio_format: a.audio_format,
        sample_rate: a.sample_rate,
        language_code: a.language_code,
    }
}

/// A graphics stream as a menu overlay.
pub open spec fn as_ig(g: PgsSubtitleStream) -> IgsInteractiveStream {
    IgsInteractiveStream {
        elementary_pid: g.elementary_pid,
        coding_type: g.coding_type,
        language_code: g.language_code,
    }
}

/// A graphics stream as a picture-in-picture one.
pub open spec fn as_pip(g: PgsSubtitleStream) -> PipPgStream {
    PipPgStream {
        elementary_pid: g.elementary_pid,
        coding_type: g.coding_type,
        language_code: g.language_code,
    }
}

pub open spec fn video_reader(s: Seq<u8>) -> spec_fn(int) -> Option<(PrimaryVideoStream, int)> {
    |p: int| video_at(s, p)
}

pub open spec fn audio_reader(s: Seq<u8>) -> spec_fn(int) -> Option<(PrimaryAudioStream, int)> {
    |p: int| audio_at(s, p)
}

pub open spec fn graphics_reader(s: Seq<u8>) -> spec_fn(int) -> Option<(PgsSubtitleStream, int)> {
    |p: int| graphics_at(s, p)
}

pub open spec fn ig_reader(s: Seq<u8>) -> spec_fn(int) -> Option<(IgsInteractiveStream, int)> {
    |p: int|
        match graphics_at(s, p) {
            Some((g, q)) => Some((as_ig(g), q)),
            None => None,
        }
}

pub open spec fn secondary_audio_reader(s: Seq<u8>) -> spec_fn(int) -> Option<
    (SecondaryAudioStream, int),
> {
    |p: int|
        match audio_at(s, p) {
            Some((a, q)) => Some((as_secondary_audio(a), q)),
            None => None,
        }
}

pub open spec fn secondary_video_reader(s: Seq<u8>) -> spec_fn(int) -> Option<
    (SecondaryVideoStream, int),
> {
    |p: int|
        match video_at(s, p) {
            Some((v, q)) => Some((as_secondary_video(v), q)),
            None => None,
        }
}

pub open spec fn pip_reader(s: Seq<u8>) -> spec_fn(int) -> Option<(PipPgStream, int)> {
    |p: int|
        match graphics_at(s, p) {
            Some((g, q)) => Some((as_pip(g), q)),
            None => None,
        }
}

/// The streams of an STN table whose counts stand at `c` and whose streams
/// begin at `p`, class after class.
pub open spec fn stn_streams_at(s: Seq<u8>, c: int, p: int) -> Option<StnTableModel> {
    match list_at(video_reader(s), p, s[c] as nat) {
        None => None,
        Some((primary_video, p1)) => match list_at(audio_reader(s), p1, s[c + 1] as nat) {
            None => None,
            Some((primary_audio, p2)) => match list_at(graphics_reader(s), p2, s[c + 2] as nat) {
                None => None,
                Some((pg_subtitles, p3)) => match list_at(ig_reader(s), p3, s[c + 3] as nat) {
                    None => None,
                    Some((ig_streams, p4)) => match list_at(
                        secondary_audio_reader(s),
                        p4,
                        s[c + 4] as nat,
                    ) {
                        None => None,
                        Some((secondary_audio, p5)) => match list_at(
                            secondary_video_reader(s),
                            p5,
                            s[c + 5] as nat,
                        ) {
                            None => None,
                            Some((secondary_video, p6)) => match list_at(
                                pip_reader(s),
                                p6,
                                s[c + 6] as nat,
                            ) {
                                None => None,
                                Some((pip_pg, _)) => Some(
                                    StnTableModel {
                                        primary_video,
                                        primary_audio,
                                        pg_subtitles,
                                        ig_streams,
                                        secondary_audio,
                                        secondary_video,
                                        pip_pg,
                                    },
                                ),
                            },
                        },
                    },
                },
            },
        },
    }
}

/// The STN table at `p`: a length, 2 reserved bytes, 7 counts, 5 reserved
/// bytes, the streams. A table too short for the counts holds no streams.
pub open spec fn stn_at(s: Seq<u8>, p: int) -> Option<StnTableModel> {
    if p + 2 > s.len() || p + 2 + be16(s, p) > s.len() {
        None
    } else if be16(s, p) < 14 {
        Some(empty_stn())
    } else {
        stn_streams_at(s, p + 4, p + 16)
    }
}

/// The further angle at `p`.
pub open spec fn angle_at(s: Seq<u8>, p: int) -> Option<(AngleClipModel, int)> {
    if p + 11 > s.len() || !valid_utf8(s.subrange(p, p + 5)) {
        None
    } else {
        Some(
            (
                AngleClipModel {
                    clip_information_file_name: decode_utf8(s.subrange(p, p + 5)),
                    clip_codec_identifier: array4_at(s, p + 5),
                    stc_id_ref: s[p + 9],
                },
                p + 11,
            ),
        )
    }
}

pub open spec fn angle_reader(s: Seq<u8>) -> spec_fn(int) -> Option<(AngleClipModel, int)> {
    |p: int| angle_at(s, p)
}

/// The angle block of a PlayItem, at `p`: the number of angles, the flags
/// byte, the further angles, and the end. A single-angle item has no block.
pub open spec fn angles_at(s: Seq<u8>, p: int, multi: bool) -> Option<
    (u8, u8, Seq<AngleClipModel>, int),
> {
    if !multi {
        Some((1, 0, Seq::empty(), p))
    } else if p + 2 > s.len() {
        None
    } else {
        match list_at(
            angle_reader(s),
            p + 2,
            if s[p] == 0 {
                0
            } else {
                (s[p] - 1) as nat
            },
        ) {
            None => None,
            Some((angles, q)) => Some((s[p], s[p + 1], angles, q)),
        }
    }
}

/// The PlayItem at `p`. Its length says where the next one begins.
pub open spec fn item_at(s: Seq<u8>, p: int) -> Option<(PlayItemModel, int)> {
    if p + 34 > s.len() || !valid_utf8(s.subrange(p + 2, p + 7)) || p + 2 + be16(s, p) > s.len() {
        None
    } else {
        match angles_at(s, p + 34, (be16(s, p + 11) / 16) % 2 == 1) {
            None => None,
            Some((multi_clip_count, angle_flags, angles, q)) => match stn_at(s, q) {
                None => None,
                Some(stn_table) => Some(
                    (
                        PlayItemModel {
                            clip_information_file_name: decode_utf8(s.subrange(p + 2, p + 7)),
                            clip_codec_identifier: array4_at(s, p + 7),
                            connection_condition: ConnectionCondition::of_raw(
                                (be16(s, p + 11) % 16) as u8,
                            ),
                            stc_id_ref: s[p + 13],
                            in_time_ticks: be32(s, p + 14),
                            out_time_ticks: be32(s, p + 18),
                            multi_clip_count,
                            angles,
                            stn_table,
                            flags: PlayItemFlags {
                                random_access_flag: s[p + 30] >= 128,
                                still_mode: s[p + 31],
                                still_time: be16(s, p + 32),
                                angle_flags,
                                uo_mask: be64(s, p + 22),
                            },
                        },
                        p + 2 + be16(s, p),
                    ),
                ),
            },
        }
    }
}

pub open spec fn item_reader(s: Seq<u8>) -> spec_fn(int) -> Option<(PlayItemModel, int)> {
    |p: int| item_at(s, p)
}

/// The SubPath at `p`. Its length says where the next one begins.
pub open spec fn sub_path_at(s: Seq<u8>, p: int) -> Option<(SubPath, int)> {
    if p + 10 > s.len() || p + 4 + be32(s, p) > s.len() {
        None
    } else {
        Some(
            (
                SubPath {
                    sub_path_type: s[p + 5],
                    is_repeat_subpath: be16(s, p + 6) % 2 == 1,
                    num_sub_play_items: s[p + 9] as u16,
                },
                p + 4 + be32(s, p),
            ),
        )
    }
}

pub open spec fn sub_path_reader(s: Seq<u8>) -> spec_fn(int) -> Option<(SubPath, int)> {
    |p: int| sub_path_at(s, p)
}

/// The mark at `p`.
pub open spec fn mark_at(s: Seq<u8>, p: int) -> Option<(PlayListMark, int)> {
    if p + 14 > s.len() {
        None
    } else {
        Some(
            (
                PlayListMark {
                    mark_type: s[p + 1],
                    ref_play_item_id: be16(s, p + 2),
                    mark_time_ticks: be32(s, p + 4),
                    entry_es_pid: be16(s, p + 8),
                    duration_ticks: be32(s, p + 10),
                },
                p + 14,
            ),
        )
    }
}

pub open spec fn mark_reader(s: Seq<u8>) -> spec_fn(int) -> Option<(PlayListMark, int)> {
    |p: int| mark_at(s, p)
}

/// The AppInfoPlayList block, which stands at a fixed place.
pub open spec fn app_info_of(s: Seq<u8>) -> Option<AppInfoPlayList> {
    if s.len() < 58 || be32(s, 40) < 14 || 44 + be32(s, 40) > s.len() {
        None
    } else {
        Some(
            AppInfoPlayList {
                playback_type: s[45],
                playback_count: be16(s, 46),
                random_access_flag: s[56] / 128,
                audio_mix_app_flag: (s[56] / 64) % 2,
                lossless_may_bypass_mixer_flag: (s[56] / 32) % 2,
                uo_mask: be64(s, 48),
            },
        )
    }
}

/// The PlayList block at `p`: the PlayItems and the SubPaths.
pub open spec fn play_list_at(s: Seq<u8>, p: int) -> Option<(Seq<PlayItemModel>, Seq<SubPath>)> {
    if p + 10 > s.len() || p + 4 + be32(s, p) > s.len() {
        None
    } else {
        match list_at(item_reader(s), p + 10, be16(s, p + 6) as nat) {
            None => None,
            Some((items, q)) => match list_at(sub_path_reader(s), q, be16(s, p + 8) as nat) {
                None => None,
                Some((subs, _)) => Some((items, subs)),
            },
        }
    }
}

/// The PlayListMark block at `p`. An address of zero, or one beyond the
/// file, names an absent block.
pub open spec fn marks_at(s: Seq<u8>, p: int) -> Option<Seq<PlayListMark>> {
    if p <= 0 || p >= s.len() {
        Some(Seq::empty())
    } else if p + 6 > s.len() {
        None
    } else {
        match list_at(mark_reader(s), p + 6, be16(s, p + 4) as nat) {
            None => None,
            Some((marks, _)) => Some(marks),
        }
    }
}

/// The playlist that the bytes of a file spell, or `None` where they follow
/// no valid layout.
pub open spec fn playlist_of(s: Seq<u8>) -> Option<PlayListModel> {
    if s.len() < 40 || array4_at(s, 0) != [0x4Du8, 0x50, 0x4C, 0x53] {
        None
    } else {
        match app_info_of(s) {
            None => None,
            Some(app_info) => match play_list_at(s, be32(s, 8) as int) {
                None => None,
                Some((play_items, sub_paths)) => match marks_at(s, be32(s, 12) as int) {
                    None => None,
                    Some(marks) => Some(
                        PlayListModel {
                            version: array4_at(s, 4),
                            app_info,
                            play_items,
                            sub_paths,
                            marks,
                        },
                    ),
                },
            },
        }
    }
}

// ---------------------------------------------------------------------
// What is said of bytes that spell nothing
// ---------------------------------------------------------------------

pub open spec fn stream_entry_refusal(s: Seq<u8>, p: int) -> Seq<char> {
    if p + 1 > s.len() {
        "slice past end"@
    } else {
        "stream_entry overruns buffer"@
    }
}

/// Said of a stream at `p`; `overrun` is said of attributes that are too long.
pub open spec fn stream_refusal(s: Seq<u8>, p: int, overrun: Seq<char>) -> Seq<char> {
    match stream_entry_at(s, p) {
        None => stream_entry_refusal(s, p),
        Some((_, q)) => if q + 1 > s.len() {
            "slice past end"@
        } else {
            overrun
        },
    }
}

pub open spec fn video_refusals(s: Seq<u8>) -> spec_fn(int) -> Seq<char> {
    |p: int| stream_refusal(s, p, "video stream_attributes overruns"@)
}

pub open spec fn audio_refusals(s: Seq<u8>) -> spec_fn(int) -> Seq<char> {
    |p: int| stream_refusal(s, p, "audio stream_attributes overruns"@)
}

pub open spec fn graphics_refusals(s: Seq<u8>) -> spec_fn(int) -> Seq<char> {
    |p: int| stream_refusal(s, p, "graphics stream_attributes overruns"@)
}

pub open spec fn stn_streams_refusal(s: Seq<u8>, c: int, p: int) -> Seq<char> {
    match list_at(video_reader(s), p, s[c] as nat) {
        None => list_refusal(video_reader(s), video_refusals(s), p, s[c] as nat),
        Some((_, p1)) => match list_at(audio_reader(s), p1, s[c + 1] as nat) {
            None => list_refusal(audio_reader(s), audio_refusals(s), p1, s[c + 1] as nat),
            Some((_, p2)) => match list_at(graphics_reader(s), p2, s[c + 2] as nat) {
                None => list_refusal(graphics_reader(s), graphics_refusals(s), p2, s[c + 2] as nat),
                Some((_, p3)) => stn_menu_streams_refusal(s, c, p3),
            },
        },
    }
}

/// Said of the streams behind the subtitles.
pub open spec fn stn_menu_streams_refusal(s: Seq<u8>, c: int, p3: int) -> Seq<char> {
    match list_at(ig_reader(s), p3, s[c + 3] as nat) {
        None => list_refusal(ig_reader(s), graphics_refusals(s), p3, s[c + 3] as nat),
        Some((_, p4)) => match list_at(secondary_audio_reader(s), p4, s[c + 4] as nat) {
            None => list_refusal(
                secondary_audio_reader(s),
                audio_refusals(s),
                p4,
                s[c + 4] as nat,
            ),
            Some((_, p5)) => match list_at(secondary_video_reader(s), p5, s[c + 5] as nat) {
                None => list_refusal(
                    secondary_video_reader(s),
                    video_refusals(s),
                    p5,
                    s[c + 5] as nat,
                ),
                Some((_, p6)) => list_refusal(
                    pip_reader(s),
                    graphics_refusals(s),
                    p6,
                    s[c + 6] as nat,
                ),
            },
        },
    }
}

pub open spec fn stn_refusal(s: Seq<u8>, p: int) -> Seq<char> {
    if p + 2 > s.len() {
        "slice past end"@
    } else if be16(s, p) < 14 {
        past_end_text((p + 2 + be16(s, p)) as nat, s.len())
    } else if p + 4 > s.len() {
        past_end_text((p + 4) as nat, s.len())
    } else if p + 11 > s.len() {
        "slice past end"@
    } else if p + 16 > s.len() {
        past_end_text((p + 16) as nat, s.len())
    } else if stn_streams_at(s, p + 4, p + 16) is None {
        stn_streams_refusal(s, p + 4, p + 16)
    } else {
        past_end_text((p + 2 + be16(s, p)) as nat, s.len())
    }
}

pub open spec fn angle_refusal(s: Seq<u8>, p: int) -> Seq<char> {
    if p + 5 > s.len() {
        "slice past end"@
    } else if !valid_utf8(s.subrange(p, p + 5)) {
        "PlayItem angle clip name not ASCII"@
    } else if p + 10 > s.len() {
        "slice past end"@
    } else {
        past_end_text((p + 11) as nat, s.len())
    }
}

pub open spec fn angle_refusals(s: Seq<u8>) -> spec_fn(int) -> Seq<char> {
    |p: int| angle_refusal(s, p)
}

pub open spec fn angles_refusal(s: Seq<u8>, p: int) -> Seq<char> {
    if p + 2 > s.len() {
        "slice past end"@
    } else {
        list_refusal(
            angle_reader(s),
            angle_refusals(s),
            p + 2,
            if s[p] == 0 {
                0
            } else {
                (s[p] - 1) as nat
            },
        )
    }
}

pub open spec fn item_refusal(s: Seq<u8>, p: int) -> Seq<char> {
    if p + 7 > s.len() {
        "slice past end"@
    } else if !valid_utf8(s.subrange(p + 2, p + 7)) {
        "PlayItem clip name not ASCII"@
    } else if p + 34 > s.len() {
        "slice past end"@
    } else {
        match angles_at(s, p + 34, (be16(s, p + 11) / 16) % 2 == 1) {
            None => angles_refusal(s, p + 34),
            Some((_, _, _, q)) => if stn_at(s, q) is None {
                stn_refusal(s, q)
            } else {
                past_end_text((p + 2 + be16(s, p)) as nat, s.len())
            },
        }
    }
}

pub open spec fn item_refusals(s: Seq<u8>) -> spec_fn(int) -> Seq<char> {
    |p: int| item_refusal(s, p)
}

pub open spec fn sub_path_refusal(s: Seq<u8>, p: int) -> Seq<char> {
    if p + 4 > s.len() {
        "slice past end"@
    } else if p + 5 > s.len() {
        past_end_text((p + 5) as nat, s.len())
    } else if p + 8 > s.len() {
        "slice past end"@
    } else if p + 9 > s.len() {
        past_end_text((p + 9) as nat, s.len())
    } else if p + 10 > s.len() {
        "slice past end"@
    } else {
        past_end_text((p + 4 + be32(s, p)) as nat, s.len())
    }
}

pub open spec fn sub_path_refusals(s: Seq<u8>) -> spec_fn(int) -> Seq<char> {
    |p: int| sub_path_refusal(s, p)
}

pub open spec fn app_info_refusal(s: Seq<u8>) -> Seq<char> {
    if s.len() < 44 {
        "slice past end"@
    } else if be32(s, 40) < 14 {
        "AppInfoPlayList shorter than 14 bytes"@
    } else if s.len() < 45 {
        past_end_text(45, s.len())
    } else if s.len() < 58 {
        "slice past end"@
    } else {
        past_end_text((44 + be32(s, 40)) as nat, s.len())
    }
}

pub open spec fn play_list_refusal(s: Seq<u8>, p: int) -> Seq<char> {
    if p > s.len() {
        past_end_text(p as nat, s.len())
    } else if p + 4 > s.len() {
        "slice past end"@
    } else if p + 4 + be32(s, p) > s.len() {
        "PlayList body overruns buffer"@
    } else if p + 6 > s.len() {
        past_end_text((p + 6) as nat, s.len())
    } else if p + 10 > s.len() {
        "slice past end"@
    } else {
        match list_at(item_reader(s), p + 10, be16(s, p + 6) as nat) {
            None => list_refusal(
                item_reader(s),
                item_refusals(s),
                p + 10,
                be16(s, p + 6) as nat,
            ),
            Some((_, q)) => list_refusal(
                sub_path_reader(s),
                sub_path_refusals(s),
                q,
                be16(s, p + 8) as nat,
            ),
        }
    }
}

/// Said of the bytes of a file that spell no playlist.
pub open spec fn playlist_refusal(s: Seq<u8>) -> Seq<char> {
    if s.len() < 8 {
        "BDMV header truncated"@
    } else if array4_at(s, 0) != [0x4Du8, 0x50, 0x4C, 0x53] {
        type_text(".mpls"@, array4_at(s, 0))
    } else if s.len() < 40 {
        ".mpls truncated before AppInfo"@
    } else if app_info_of(s) is None {
        app_info_refusal(s)
    } else if play_list_at(s, be32(s, 8) as int) is None {
        play_list_refusal(s, be32(s, 8) as int)
    } else {
        "slice past end"@
    }
}

// ---------------------------------------------------------------------
// Reading
// ---------------------------------------------------------------------

/// The PID of the `stream_entry` block at the cursor.
fn parse_stream_entry(r: &mut Reader<'_>) -> (x: Result<u16, BlurayError>)
    ensures
        final(r).buf@ == old(r).buf@,
        match x {
            Ok(v) => stream_entry_at(old(r).buf@, old(r).pos as int) == Some(
                (v, final(r).pos as int),
            ),
            Err(e) => stream_entry_at(old(r).buf@, old(r).pos as int) is None && e.is_malformed(
                stream_entry_refusal(old(r).buf@, old(r).pos as int),
            ),
        },
{
    let len: usize = r.read_u8()? as usize;
    if !r.fits(len) {
        return Err(BlurayError::malformed("stream_entry overruns buffer"));
    }
    let end: usize = r.pos + len;
    let mut pid: u16 = 0;
    if len >= 3 {
        let stream_type: u8 = r.read_u8()?;
        if stream_type == 1 {
            pid = r.read_u16()?;
        }
    }
    r.seek(end)?;
    Ok(pid)
}

fn parse_primary_video_stream(r: &mut Reader<'_>) -> (x: Result<PrimaryVideoStream, BlurayError>)
    ensures
        final(r).buf@ == old(r).buf@,
        match x {
            Ok(v) => video_at(old(r).buf@, old(r).pos as int) == Some((v, final(r).pos as int)),
            Err(e) => video_at(old(r).buf@, old(r).pos as int) is None && e.is_malformed(
                stream_refusal(
                    old(r).buf@,
                    old(r).pos as int,
                    "video stream_attributes overruns"@,
                ),
            ),
        },
{
    let elementary_pid: u16 = parse_stream_entry(r)?;
    let len: usize = r.read_u8()? as usize;
    if !r.fits(len) {
        return Err(BlurayError::malformed("video stream_attributes overruns"));
    }
    let end: usize = r.pos + len;
    let coding: u8 = if r.pos < end {
        r.read_u8()?
    } else {
        0
    };
    let format: u8 = if r.pos < end {
        r.read_u8()?
    } else {
        0
    };
    let aspect: u8 = if r.pos < end {
        r.read_u8()?
    } else {
        0
    };
    r.seek(end)?;
    Ok(
        PrimaryVideoStream {
            elementary_pid,
            coding_type: StreamCodingType::from_raw(coding),
            video_format: format / 16,
            frame_rate: format % 16,
            aspect_ratio: aspect / 16,
        },
    )
}

fn parse_primary_audio_stream(r: &mut Reader<'_>) -> (x: Result<PrimaryAudioStream, BlurayError>)
    ensures
        final(r).buf@ == old(r).buf@,
        match x {
            Ok(v) => audio_at(old(r).buf@, old(r).pos as int) == Some((v, final(r).pos as int)),
            Err(e) => audio_at(old(r).buf@, old(r).pos as int) is None && e.is_malformed(
                stream_refusal(
                    old(r).buf@,
                    old(r).pos as int,
                    "audio stream_attributes overruns"@,
                ),
            ),
        },
{
    let elementary_pid: u16 = parse_stream_entry(r)?;
    let len: usize = r.read_u8()? as usize;
    if !r.fits(len) {
        return Err(BlurayError::malformed("audio stream_attributes overruns"));
    }
    let end: usize = r.pos + len;
    let coding: u8 = if r.pos < end {
        r.read_u8()?
    } else {
        0
    };
    let format: u8 = if r.pos < end {
        r.read_u8()?
    } else {
        0
    };
    let mut language_code: [u8; 3] = [0, 0, 0];
    if end - r.pos >= 3 {
        language_code = r.read_array3()?;
    }
    r.seek(end)?;
    Ok(
        PrimaryAudioStream {
            elementary_pid,
            coding_type: StreamCodingType::from_raw(coding),
            audio_format: format / 16,
            sample_rate: format % 16,
            language_code,
        },
    )
}

fn parse_pg_subtitle_stream(r: &mut Reader<'_>) -> (x: Result<PgsSubtitleStream, BlurayError>)
    ensures
        final(r).buf@ == old(r).buf@,
        match x {
            Ok(v) => graphics_at(old(r).buf@, old(r).pos as int) == Some((v, final(r).pos as int)),
            Err(e) => graphics_at(old(r).buf@, old(r).pos as int) is None && e.is_malformed(
                stream_refusal(
                    old(r).buf@,
                    old(r).pos as int,
                    "graphics stream_attributes overruns"@,
                ),
            ),
        },
{
    let elementary_pid: u16 = parse_stream_entry(r)?;
    let len: usize = r.read_u8()? as usize;
    if !r.fits(len) {
        return Err(BlurayError::malformed("graphics stream_attributes overruns"));
    }
    let end: usize = r.pos + len;
    let coding: u8 = if r.pos < end {
        r.read_u8()?
    } else {
        0
    };
    let mut language_code: [u8; 3] = [0, 0, 0];
    if end - r.pos >= 3 {
        language_code = r.read_array3()?;
    }
    r.seek(end)?;
    Ok(
        PgsSubtitleStream {
            elementary_pid,
            coding_type: StreamCodingType::from_raw(coding),
            language_code,
        },
    )
}

#[verifier::loop_isolation(false)]
fn parse_videos(r: &mut Reader<'_>, n: u8) -> (x: Result<Vec<PrimaryVideoStream>, BlurayError>)
    ensures
        final(r).buf@ == old(r).buf@,
        match x {
            Ok(v) => list_at(video_reader(old(r).buf@), old(r).pos as int, n as nat) == Some(
                (v@, final(r).pos as int),
            ),
            Err(e) => list_at(video_reader(old(r).buf@), old(r).pos as int, n as nat) is None
                && e.is_malformed(
                list_refusal(
                    video_reader(old(r).buf@),
                    video_refusals(old(r).buf@),
                    old(r).pos as int,
                    n as nat,
                ),
            ),
        },
{
    proof {
        reveal(list_at);
    }
    let ghost item = video_reader(r.buf@);
    let ghost start = r.pos as int;
    let mut out: Vec<PrimaryVideoStream> = Vec::new();
    let mut i: u8 = 0;
    while i < n
        invariant
            i <= n,
            r.buf@ == old(r).buf@,
            list_at(item, start, i as nat) == Some((out@, r.pos as int)),
        decreases n - i,
    {
        match parse_primary_video_stream(r) {
            Ok(v) => out.push(v),
            Err(e) => {
                proof {
                    lemma_list_refusal(
                        item,
                        video_refusals(r.buf@),
                        start,
                        (i + 1) as nat,
                        n as nat,
                    );
                }
                return Err(e);
            },
        }
        i += 1;
    }
    Ok(out)
}

#[verifier::loop_isolation(false)]
fn parse_audios(r: &mut Reader<'_>, n: u8) -> (x: Result<Vec<PrimaryAudioStream>, BlurayError>)
    ensures
        final(r).buf@ == old(r).buf@,
        match x {
            Ok(v) => list_at(audio_reader(old(r).buf@), old(r).pos as int, n as nat) == Some(
                (v@, final(r).pos as int),
            ),
            Err(e) => list_at(audio_reader(old(r).buf@), old(r).pos as int, n as nat) is None
                && e.is_malformed(
                list_refusal(
                    audio_reader(old(r).buf@),
                    audio_refusals(old(r).buf@),
                    old(r).pos as int,
                    n as nat,
                ),
            ),
        },
{
    proof {
        reveal(list_at);
    }
    let ghost item = audio_reader(r.buf@);
    let ghost start = r.pos as int;
    let mut out: Vec<PrimaryAudioStream> = Vec::new();
    let mut i: u8 = 0;
    while i < n
        invariant
            i <= n,
            r.buf@ == old(r).buf@,
            list_at(item, start, i as nat) == Some((out@, r.pos as int)),
        decreases n - i,
    {
        match parse_primary_audio_stream(r) {
            Ok(v) => out.push(v),
            Err(e) => {
                proof {
                    lemma_list_refusal(
                        item,
                        audio_refusals(r.buf@),
                        start,
                        (i + 1) as nat,
                        n as nat,
                    );
                }
                return Err(e);
            },
        }
        i += 1;
    }
    Ok(out)
}

#[verifier::loop_isolation(false)]
fn parse_graphics(r: &mut Reader<'_>, n: u8) -> (x: Result<Vec<PgsSubtitleStream>, BlurayError>)
    ensures
        final(r).buf@ == old(r).buf@,
        match x {
            Ok(v) => list_at(graphics_reader(old(r).buf@), old(r).pos as int, n as nat) == Some(
                (v@, final(r).pos as int),
            ),
            Err(e) => list_at(graphics_reader(old(r).buf@), old(r).pos as int, n as nat) is None
                && e.is_malformed(
                list_refusal(
                    graphics_reader(old(r).buf@),
                    graphics_refusals(old(r).buf@),
                    old(r).pos as int,
                    n as nat,
                ),
            ),
        },
{
    proof {
        reveal(list_at);
    }
    let ghost item = graphics_reader(r.buf@);
    let ghost start = r.pos as int;
    let mut out: Vec<PgsSubtitleStream> = Vec::new();
    let mut i: u8 = 0;
    while i < n
        invariant
            i <= n,
            r.buf@ == old(r).buf@,
            list_at(item, start, i as nat) == Some((out@, r.pos as int)),
        decreases n - i,
    {
        match parse_pg_subtitle_stream(r) {
            Ok(v) => out.push(v),
            Err(e) => {
                proof {
                    lemma_list_refusal(
                        item,
                        graphics_refusals(r.buf@),
                        start,
                        (i + 1) as nat,
                        n as nat,
                    );
                }
                return Err(e);
            },
        }
        i += 1;
    }
    Ok(out)
}

#[verifier::loop_isolation(false)]
fn parse_igs(r: &mut Reader<'_>, n: u8) -> (x: Result<Vec<IgsInteractiveStream>, BlurayError>)
    ensures
        final(r).buf@ == old(r).buf@,
        match x {
            Ok(v) => list_at(ig_reader(old(r).buf@), old(r).pos as int, n as nat) == Some(
                (v@, final(r).pos as int),
            ),
            Err(e) => list_at(ig_reader(old(r).buf@), old(r).pos as int, n as nat) is None
                && e.is_malformed(
                list_refusal(
                    ig_reader(old(r).buf@),
                    graphics_refusals(old(r).buf@),
                    old(r).pos as int,
                    n as nat,
                ),
            ),
        },
{
    proof {
        reveal(list_at);
    }
    let ghost item = ig_reader(r.buf@);
    let ghost start = r.pos as int;
    let mut out: Vec<IgsInteractiveStream> = Vec::new();
    let mut i: u8 = 0;
    while i < n
        invariant
            i <= n,
            r.buf@ == old(r).buf@,
            list_at(item, start, i as nat) == Some((out@, r.pos as int)),
        decreases n - i,
    {
        match parse_pg_subtitle_stream(r) {
            Ok(v) => out.push(
                IgsInteractiveStream {
                    elementary_pid: v.elementary_pid,
                    coding_type: v.coding_type,
                    language_code: v.language_code,
                },
            ),
            Err(e) => {
                proof {
                    lemma_list_refusal(
                        item,
                        graphics_refusals(r.buf@),
                        start,
                        (i + 1) as nat,
                        n as nat,
                    );
                }
                return Err(e);
            },
        }
        i += 1;
    }
    Ok(out)
}

#[verifier::loop_isolation(false)]
fn parse_secondary_audios(r: &mut Reader<'_>, n: u8) -> (x: Result<Vec<SecondaryAudioStream>, BlurayError>)
    ensures
        final(r).buf@ == old(r).buf@,
        match x {
            Ok(v) => list_at(secondary_audio_reader(old(r).buf@), old(r).pos as int, n as nat) == Some(
                (v@, final(r).pos as int),
            ),
            Err(e) => list_at(secondary_audio_reader(old(r).buf@), old(r).pos as int, n as nat) is None
                && e.is_malformed(
                list_refusal(
                    secondary_audio_reader(old(r).buf@),
                    audio_refusals(old(r).buf@),
                    old(r).pos as int,
                    n as nat,
                ),
            ),
        },
{
    proof {
        reveal(list_at);
    }
    let ghost item = secondary_audio_reader(r.buf@);
    let ghost start = r.pos as int;
    let mut out: Vec<SecondaryAudioStream> = Vec::new();
    let mut i: u8 = 0;
    while i < n
        invariant
            i <= n,
            r.buf@ == old(r).buf@,
            list_at(item, start, i as nat) == Some((out@, r.pos as int)),
        decreases n - i,
    {
        match parse_primary_audio_stream(r) {
            Ok(v) => out.push(
                SecondaryAudioStream {
                    elementary_pid: v.elementary_pid,
                    coding_type: v.coding_type,
                    audio_format: v.audio_format,
                    sample_rate: v.sample_rate,
                    language_code: v.language_code,
                },
            ),
            Err(e) => {
                proof {
                    lemma_list_refusal(
                        item,
                        audio_refusals(r.buf@),
                        start,
                        (i + 1) as nat,
                        n as nat,
                    );
                }
                return Err(e);
            },
        }
        i += 1;
    }
    Ok(out)
}

#[verifier::loop_isolation(false)]
fn parse_secondary_videos(r: &mut Reader<'_>, n: u8) -> (x: Result<Vec<SecondaryVideoStream>, BlurayError>)
    ensures
        final(r).buf@ == old(r).buf@,
        match x {
            Ok(v) => list_at(secondary_video_reader(old(r).buf@), old(r).pos as int, n as nat) == Some(
                (v@, final(r).pos as int),
            ),
            Err(e) => list_at(secondary_video_reader(old(r).buf@), old(r).pos as int, n as nat) is None
                && e.is_malformed(
                list_refusal(
                    secondary_video_reader(old(r).buf@),
                    video_refusals(old(r).buf@),
                    old(r).pos as int,
                    n as nat,
                ),
            ),
        },
{
    proof {
        reveal(list_at);
    }
    let ghost item = secondary_video_reader(r.buf@);
    let ghost start = r.pos as int;
    let mut out: Vec<SecondaryVideoStream> = Vec::new();
    let mut i: u8 = 0;
    while i < n
        invariant
            i <= n,
            r.buf@ == old(r).buf@,
            list_at(item, start, i as nat) == Some((out@, r.pos as int)),
        decreases n - i,
    {
        match parse_primary_video_stream(r) {
            Ok(v) => out.push(
                SecondaryVideoStream {
                    elementary_pid: v.elementary_pid,
                    coding_type: v.coding_type,
                    video_format: v.video_format,
                    frame_rate: v.frame_rate,
                    aspect_ratio: v.aspect_ratio,
                },
            ),
            Err(e) => {
                proof {
                    lemma_list_refusal(
                        item,
                        video_refusals(r.buf@),
                        start,
                        (i + 1) as nat,
                        n as nat,
                    );
                }
                return Err(e);
            },
        }
        i += 1;
    }
    Ok(out)
}

#[verifier::loop_isolation(false)]
fn parse_pips(r: &mut Reader<'_>, n: u8) -> (x: Result<Vec<PipPgStream>, BlurayError>)
    ensures
        final(r).buf@ == old(r).buf@,
        match x {
            Ok(v) => list_at(pip_reader(old(r).buf@), old(r).pos as int, n as nat) == Some(
                (v@, final(r).pos as int),
            ),
            Err(e) => list_at(pip_reader(old(r).buf@), old(r).pos as int, n as nat) is None
                && e.is_malformed(
                list_refusal(
                    pip_reader(old(r).buf@),
                    graphics_refusals(old(r).buf@),
                    old(r).pos as int,
                    n as nat,
                ),
            ),
        },
{
    proof {
        reveal(list_at);
    }
    let ghost item = pip_reader(r.buf@);
    let ghost start = r.pos as int;
    let mut out: Vec<PipPgStream> = Vec::new();
    let mut i: u8 = 0;
    while i < n
        invariant
            i <= n,
            r.buf@ == old(r).buf@,
            list_at(item, start, i as nat) == Some((out@, r.pos as int)),
        decreases n - i,
    {
        match parse_pg_subtitle_stream(r) {
            Ok(v) => out.push(
                PipPgStream {
                    elementary_pid: v.elementary_pid,
                    coding_type: v.coding_type,
                    language_code: v.language_code,
                },
            ),
            Err(e) => {
                proof {
                    lemma_list_refusal(
                        item,
                        graphics_refusals(r.buf@),
                        start,
                        (i + 1) as nat,
                        n as nat,
                    );
                }
                return Err(e);
            },
        }
        i += 1;
    }
    Ok(out)
}

fn parse_stn_table(r: &mut Reader<'_>) -> (x: Result<StnTable, BlurayError>)
    ensures
        final(r).buf@ == old(r).buf@,
        match x {
            Ok(v) => stn_at(old(r).buf@, old(r).pos as int) == Some(v@),
            Err(e) => stn_at(old(r).buf@, old(r).pos as int) is None && e.is_malformed(
                stn_refusal(old(r).buf@, old(r).pos as int),
            ),
        },
{
    let stn_len: usize = r.read_u16()? as usize;
    let body: usize = r.pos;
    if stn_len < 14 {
        r.seek_from(body, stn_len)?;
        return Ok(StnTable::default());
    }
    r.skip(2)?;
    let num_primary_video: u8 = r.read_u8()?;
    let num_primary_audio: u8 = r.read_u8()?;
    let num_pg: u8 = r.read_u8()?;
    let num_ig: u8 = r.read_u8()?;
    let num_secondary_audio: u8 = r.read_u8()?;
    let num_secondary_video: u8 = r.read_u8()?;
    let num_pip_pg: u8 = r.read_u8()?;
    r.skip(5)?;
    let primary_video = parse_videos(r, num_primary_video)?;
    let primary_audio = parse_audios(r, num_primary_audio)?;
    let pg_subtitles = parse_graphics(r, num_pg)?;
    let ig_streams = parse_igs(r, num_ig)?;
    let secondary_audio = parse_secondary_audios(r, num_secondary_audio)?;
    let secondary_video = parse_secondary_videos(r, num_secondary_video)?;
    let pip_pg = parse_pips(r, num_pip_pg)?;
    r.seek_from(body, stn_len)?;
    Ok(
        StnTable {
            primary_video,
            primary_audio,
            pg_subtitles,
            ig_streams,
            secondary_audio,
            secondary_video,
            pip_pg,
        },
    )
}

/// The five bytes of a clip's file name at the cursor, as text; `refusal` is
/// said where they are none.
fn parse_clip_name(r: &mut Reader<'_>, refusal: &str) -> (x: Result<String, BlurayError>)
    ensures
        final(r).buf@ == old(r).buf@,
        match x {
            Ok(v) => old(r).has(5) && valid_utf8(
                old(r).buf@.subrange(old(r).pos as int, old(r).pos + 5),
            ) && v@ == decode_utf8(old(r).buf@.subrange(old(r).pos as int, old(r).pos + 5))
                && final(r).pos == old(r).pos + 5,
            Err(e) => if old(r).has(5) {
                !valid_utf8(old(r).buf@.subrange(old(r).pos as int, old(r).pos + 5))
                    && e.is_malformed(refusal@)
            } else {
                e.is_malformed("slice past end"@)
            },
        },
{
    let bytes = r.slice(5)?;
    match utf8_text(bytes) {
        Some(t) => Ok(t),
        None => Err(BlurayError::malformed(refusal)),
    }
}

fn parse_angle(r: &mut Reader<'_>) -> (x: Result<AngleClip, BlurayError>)
    ensures
        final(r).buf@ == old(r).buf@,
        match x {
            Ok(v) => angle_at(old(r).buf@, old(r).pos as int) == Some((v@, final(r).pos as int)),
            Err(e) => angle_at(old(r).buf@, old(r).pos as int) is None && e.is_malformed(
                angle_refusal(old(r).buf@, old(r).pos as int),
            ),
        },
{
    let clip_information_file_name = parse_clip_name(r, "PlayItem angle clip name not ASCII")?;
    let clip_codec_identifier = r.read_array4()?;
    let stc_id_ref: u8 = r.read_u8()?;
    r.skip(1)?;
    Ok(AngleClip { clip_information_file_name, clip_codec_identifier, stc_id_ref })
}

#[verifier::loop_isolation(false)]
fn parse_angles(r: &mut Reader<'_>, multi: bool) -> (x: Result<
    (u8, u8, Vec<AngleClip>),
    BlurayError,
>)
    ensures
        final(r).buf@ == old(r).buf@,
        match x {
            Ok(v) => angles_at(old(r).buf@, old(r).pos as int, multi) == Some(
                (v.0, v.1, angle_models(v.2@), final(r).pos as int),
            ),
            Err(e) => angles_at(old(r).buf@, old(r).pos as int, multi) is None && e.is_malformed(
                angles_refusal(old(r).buf@, old(r).pos as int),
            ),
        },
{
    proof {
        reveal(list_at);
    }
    let mut out: Vec<AngleClip> = Vec::new();
    assert(angle_models(out@) =~= Seq::empty());
    if !multi {
        return Ok((1, 0, out));
    }
    let num_angles: u8 = r.read_u8()?;
    let angle_flags: u8 = r.read_u8()?;
    let n: u8 = num_angles.saturating_sub(1);
    let ghost item = angle_reader(r.buf@);
    let ghost start = r.pos as int;
    let mut i: u8 = 0;
    while i < n
        invariant
            i <= n,
            r.buf@ == old(r).buf@,
            list_at(item, start, i as nat) == Some((angle_models(out@), r.pos as int)),
        decreases n - i,
    {
        let ghost before = angle_models(out@);
        match parse_angle(r) {
            Ok(v) => {
                out.push(v);
                assert(angle_models(out@) =~= before.push(v@));
            },
            Err(e) => {
                proof {
                    lemma_list_refusal(
                        item,
                        angle_refusals(r.buf@),
                        start,
                        (i + 1) as nat,
                        n as nat,
                    );
                }
                return Err(e);
            },
        }
        i += 1;
    }
    Ok((num_angles, angle_flags, out))
}

fn parse_play_item(r: &mut Reader<'_>) -> (x: Result<PlayItem, BlurayError>)
    ensures
        final(r).buf@ == old(r).buf@,
        match x {
            Ok(v) => item_at(old(r).buf@, old(r).pos as int) == Some((v@, final(r).pos as int)),
            Err(e) => item_at(old(r).buf@, old(r).pos as int) is None && e.is_malformed(
                item_refusal(old(r).buf@, old(r).pos as int),
            ),
        },
{
    let len: usize = r.read_u16()? as usize;
    let body: usize = r.pos;
    let clip_information_file_name = parse_clip_name(r, "PlayItem clip name not ASCII")?;
    let clip_codec_identifier = r.read_array4()?;
    let pack: u16 = r.read_u16()?;
    let stc_id_ref: u8 = r.read_u8()?;
    let in_time_ticks: u32 = r.read_u32()?;
    let out_time_ticks: u32 = r.read_u32()?;
    let uo_mask: u64 = r.read_u64()?;
    let random_access_byte: u8 = r.read_u8()?;
    let still_mode: u8 = r.read_u8()?;
    let still_time: u16 = r.read_u16()?;
    let (multi_clip_count, angle_flags, angles) = parse_angles(r, (pack / 16) % 2 == 1)?;
    let stn_table = parse_stn_table(r)?;
    r.seek_from(body, len)?;
    Ok(
        PlayItem {
            clip_information_file_name,
            clip_codec_identifier,
            connection_condition: ConnectionCondition::from_raw((pack % 16) as u8),
            stc_id_ref,
            in_time_ticks,
            out_time_ticks,
            multi_clip_count,
            angles,
            stn_table,
            flags: PlayItemFlags {
                random_access_flag: random_access_byte >= 128,
                still_mode,
                still_time,
                angle_flags,
                uo_mask,
            },
        },
    )
}

fn parse_sub_path(r: &mut Reader<'_>) -> (x: Result<SubPath, BlurayError>)
    ensures
        final(r).buf@ == old(r).buf@,
        match x {
            Ok(v) => sub_path_at(old(r).buf@, old(r).pos as int) == Some((v, final(r).pos as int)),
            Err(e) => sub_path_at(old(r).buf@, old(r).pos as int) is None && e.is_malformed(
                sub_path_refusal(old(r).buf@, old(r).pos as int),
            ),
        },
{
    let len: usize = r.read_u32()? as usize;
    let body: usize = r.pos;
    r.skip(1)?;
    let sub_path_type: u8 = r.read_u8()?;
    let repeat: u16 = r.read_u16()?;
    r.skip(1)?;
    let num_sub_play_items: u16 = r.read_u8()? as u16;
    r.seek_from(body, len)?;
    Ok(SubPath { sub_path_type, is_repeat_subpath: repeat % 2 == 1, num_sub_play_items })
}

fn parse_mark(r: &mut Reader<'_>) -> (x: Result<PlayListMark, BlurayError>)
    ensures
        final(r).buf@ == old(r).buf@,
        match x {
            Ok(v) => mark_at(old(r).buf@, old(r).pos as int) == Some((v, final(r).pos as int)),
            Err(e) => mark_at(old(r).buf@, old(r).pos as int) is None && e.is_malformed(
                "slice past end"@,
            ),
        },
{
    let _reserved: u8 = r.read_u8()?;
    let mark_type: u8 = r.read_u8()?;
    let ref_play_item_id: u16 = r.read_u16()?;
    let mark_time_ticks: u32 = r.read_u32()?;
    let entry_es_pid: u16 = r.read_u16()?;
    let duration_ticks: u32 = r.read_u32()?;
    Ok(PlayListMark { mark_type, ref_play_item_id, mark_time_ticks, entry_es_pid, duration_ticks })
}

#[verifier::loop_isolation(false)]
fn parse_play_list(r: &mut Reader<'_>, start: usize) -> (x: Result<PlayList, BlurayError>)
    ensures
        final(r).buf@ == old(r).buf@,
        match x {
            Ok(v) => play_list_at(old(r).buf@, start as int) == Some(
                (item_models(v.play_items@), v.sub_paths@),
            ),
            Err(e) => play_list_at(old(r).buf@, start as int) is None && e.is_malformed(
                play_list_refusal(old(r).buf@, start as int),
            ),
        },
{
    proof {
        reveal(list_at);
    }
    r.seek(start)?;
    let pl_len: usize = r.read_u32()? as usize;
    if !r.fits(pl_len) {
        return Err(BlurayError::malformed("PlayList body overruns buffer"));
    }
    r.skip(2)?;
    let n_play_items: u16 = r.read_u16()?;
    let n_sub_paths: u16 = r.read_u16()?;
    let ghost item = item_reader(r.buf@);
    let ghost p0 = r.pos as int;
    let mut play_items: Vec<PlayItem> = Vec::new();
    assert(item_models(play_items@) =~= Seq::empty());
    let mut i: u16 = 0;
    while i < n_play_items
        invariant
            i <= n_play_items,
            r.buf@ == old(r).buf@,
            list_at(item, p0, i as nat) == Some((item_models(play_items@), r.pos as int)),
        decreases n_play_items - i,
    {
        let ghost before = item_models(play_items@);
        match parse_play_item(r) {
            Ok(v) => {
                play_items.push(v);
                assert(item_models(play_items@) =~= before.push(v@));
            },
            Err(e) => {
                proof {
                    lemma_list_refusal(
                        item,
                        item_refusals(r.buf@),
                        p0,
                        (i + 1) as nat,
                        n_play_items as nat,
                    );
                }
                return Err(e);
            },
        }
        i += 1;
    }
    let ghost sub = sub_path_reader(r.buf@);
    let ghost p1 = r.pos as int;
    let mut sub_paths: Vec<SubPath> = Vec::new();
    let mut j: u16 = 0;
    while j < n_sub_paths
        invariant
            j <= n_sub_paths,
            r.buf@ == old(r).buf@,
            list_at(sub, p1, j as nat) == Some((sub_paths@, r.pos as int)),
        decreases n_sub_paths - j,
    {
        match parse_sub_path(r) {
            Ok(v) => sub_paths.push(v),
            Err(e) => {
                proof {
                    lemma_list_refusal(
                        sub,
                        sub_path_refusals(r.buf@),
                        p1,
                        (j + 1) as nat,
                        n_sub_paths as nat,
                    );
                }
                return Err(e);
            },
        }
        j += 1;
    }
    Ok(PlayList { play_items, sub_paths })
}

#[verifier::loop_isolation(false)]
fn parse_marks(r: &mut Reader<'_>, start: usize) -> (x: Result<Vec<PlayListMark>, BlurayError>)
    ensures
        final(r).buf@ == old(r).buf@,
        match x {
            Ok(v) => marks_at(old(r).buf@, start as int) == Some(v@),
            Err(e) => marks_at(old(r).buf@, start as int) is None && e.is_malformed(
                "slice past end"@,
            ),
        },
{
    proof {
        reveal(list_at);
    }
    let mut out: Vec<PlayListMark> = Vec::new();
    if start == 0 || start >= r.buf.len() {
        return Ok(out);
    }
    r.seek(start)?;
    let _mark_len: u32 = r.read_u32()?;
    let n: u16 = r.read_u16()?;
    let ghost item = mark_reader(r.buf@);
    let ghost p0 = r.pos as int;
    let mut i: u16 = 0;
    while i < n
        invariant
            i <= n,
            r.buf@ == old(r).buf@,
            list_at(item, p0, i as nat) == Some((out@, r.pos as int)),
        decreases n - i,
    {
        match parse_mark(r) {
            Ok(v) => out.push(v),
            Err(e) => {
                proof {
                    lemma_list_at_none(item, p0, (i + 1) as nat, n as nat);
                }
                return Err(e);
            },
        }
        i += 1;
    }
    Ok(out)
}

fn parse_app_info(r: &mut Reader<'_>) -> (x: Result<AppInfoPlayList, BlurayError>)
    requires
        old(r).pos == 40,
    ensures
        final(r).buf@ == old(r).buf@,
        match x {
            Ok(v) => app_info_of(old(r).buf@) == Some(v),
            Err(e) => app_info_of(old(r).buf@) is None && e.is_malformed(
                app_info_refusal(old(r).buf@),
            ),
        },
{
    let app_len: usize = r.read_u32()? as usize;
    if app_len < 14 {
        return Err(BlurayError::malformed("AppInfoPlayList shorter than 14 bytes"));
    }
    let app_start: usize = r.pos;
    r.skip(1)?;
    let playback_type: u8 = r.read_u8()?;
    let playback_count: u16 = r.read_u16()?;
    let uo_mask: u64 = r.read_u64()?;
    let flag_bits: u8 = r.read_u8()?;
    let _padding: u8 = r.read_u8()?;
    r.seek_from(app_start, app_len)?;
    Ok(
        AppInfoPlayList {
            playback_type,
            playback_count,
            random_access_flag: flag_bits / 128,
            audio_mix_app_flag: (flag_bits / 64) % 2,
            lossless_may_bypass_mixer_flag: (flag_bits / 32) % 2,
            uo_mask,
        },
    )
}

impl PlayListMpls {
    /// Read a whole `.mpls` file.
    pub fn parse(buf: &[u8]) -> (x: Result<Self, BlurayError>)
        ensures
            match x {
                Ok(v) => playlist_of(buf@) == Some(v@),
                Err(e) => playlist_of(buf@) is None && e.is_malformed(
                    playlist_refusal(buf@),
                ),
            },
    {
        let header = BdmvHeader::parse(buf)?;
        let t = header.type_indicator;
        let known = t[0] == 0x4D && t[1] == 0x50 && t[2] == 0x4C && t[3] == 0x53;
        proof {
            let mpls = [0x4Du8, 0x50, 0x4C, 0x53];
            if known {
                assert(*t =~= mpls);
            }
            assert(known == (*t == mpls));
        }
        if !known {
            return Err(bad_type(".mpls", t));
        }
        let version = *header.version_number;
        if buf.len() < 40 {
            return Err(BlurayError::malformed(".mpls truncated before AppInfo"));
        }
        let mut r = Reader::new(buf);
        r.seek(8)?;
        let playlist_start: usize = r.read_u32()? as usize;
        let marks_start: usize = r.read_u32()? as usize;
        r.seek(40)?;
        let app_info = parse_app_info(&mut r)?;
        let play_list = parse_play_list(&mut r, playlist_start)?;
        let marks = parse_marks(&mut r, marks_start)?;
        Ok(PlayListMpls { version, app_info, play_list, marks })
    }
}

} // verus!
