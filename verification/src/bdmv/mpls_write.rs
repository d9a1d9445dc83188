//! Writing `.mpls` files: the bytes that a record is written as, the
//! encoder, and the law that reading gives back what was written.
use vstd::prelude::*;
use vstd::string::*;
use vstd::utf8::{decode_utf8, encode_utf8, valid_utf8};

use crate::bdmv::common::{
    array4_at, be16, be32, be64, enc16, enc32, enc64, enc8, enc_array3, enc_array4, enc_list,
    group_has_at, has_at, lemma_empty_add, lemma_enc16_len, lemma_enc32_len, lemma_enc64_len,
    lemma_enc8_len, lemma_enc_array3_len, lemma_enc_array4_len, lemma_enc_list_bound,
    lemma_enc_list_len, lemma_enc_list_push, lemma_has_at_16, lemma_has_at_bounds,
    lemma_has_at_concat, lemma_has_at_self, lemma_has_at_subrange, lemma_list_round_trip,
    lemma_zeros_len, list_at, low_u16, low_u32, put_array3, put_array4, put_bytes, put_u16, put_u32,
    put_u64, put_u8, put_zeros, zeros,
};
use crate::bdmv::mpls::{
    item_models, AngleClipModel, AppInfoPlayList, ConnectionCondition, IgsInteractiveStream,
    PgsSubtitleStream, PipPgStream, PlayItem, PlayItemModel, PlayListMark, PlayListModel,
    PlayListMpls, PrimaryAudioStream, PrimaryVideoStream, SecondaryAudioStream,
    SecondaryVideoStream, StnTable, StnTableModel, StreamCodingType, SubPath,
};
use crate::bdmv::mpls_read::{
    angle_at, angle_reader, angles_at, app_info_of, audio_at, audio_reader, graphics_at,
    graphics_reader, ig_reader, item_at, item_reader, mark_reader, marks_at, pip_reader,
    play_list_at, playlist_of, secondary_audio_reader, secondary_video_reader, stn_at,
    stn_streams_at, sub_path_reader, video_at, video_reader,
};

verus! {

// ---------------------------------------------------------------------
// The bytes a record is written as
// ---------------------------------------------------------------------

/// A block behind its 16-bit length.
pub open spec fn enc_block16(body: Seq<u8>) -> Seq<u8> {
    enc16((body.len() % 0x1_0000) as u16) + body
}

/// A block behind its 32-bit length.
pub open spec fn enc_block32(body: Seq<u8>) -> Seq<u8> {
    enc32((body.len() % 0x1_0000_0000) as u32) + body
}

/// The in-mux `stream_entry` of a stream.
pub open spec fn enc_stream_entry(pid: u16) -> Seq<u8> {
    enc8(9) + enc8(1) + enc16(pid) + zeros(6)
}

#[verifier::opaque]
pub open spec fn enc_video(v: PrimaryVideoStream) -> Seq<u8> {
    enc_stream_entry(v.elementary_pid) + enc8(5) + enc8(v.coding_type.raw()) + enc8(
        ((v.video_format % 16) * 16 + v.frame_rate % 16) as u8,
    ) + enc8(((v.aspect_ratio % 16) * 16) as u8) + zeros(2)
}

#[verifier::opaque]
pub open spec fn enc_audio(a: PrimaryAudioStream) -> Seq<u8> {
    enc_stream_entry(a.elementary_pid) + enc8(6) + enc8(a.coding_type.raw()) + enc8(
        ((a.audio_format % 16) * 16 + a.sample_rate % 16) as u8,
    ) + enc_array3(a.language_code) + zeros(1)
}

#[verifier::opaque]
pub open spec fn enc_graphics(g: PgsSubtitleStream) -> Seq<u8> {
    enc_stream_entry(g.elementary_pid) + enc8(4) + enc8(g.coding_type.raw()) + enc_array3(
        g.language_code,
    )
}

/// A secondary video stream as a primary one.
pub open spec fn from_secondary_video(v: SecondaryVideoStream) -> PrimaryVideoStream {
    PrimaryVideoStream {
        elementary_pid: v.elementary_pid,
        coding_type: v.coding_type,
        video_format: v.video_format,
        frame_rate: v.frame_rate,
        aspect_ratio: v.aspect_ratio,
    }
}

/// A secondary audio stream as a primary one.
pub open spec fn from_secondary_audio(a: SecondaryAudioStream) -> PrimaryAudioStream {
    PrimaryAudioStream {
        elementary_pid: a.elementary_pid,
        coding_type: a.coding_type,
        audio_format: a.audio_format,
        sample_rate: a.sample_rate,
        language_code: a.language_code,
    }
}

/// A menu overlay as a graphics stream.
pub open spec fn from_ig(g: IgsInteractiveStream) -> PgsSubtitleStream {
    PgsSubtitleStream {
        elementary_pid: g.elementary_pid,
        coding_type: g.coding_type,
        language_code: g.language_code,
    }
}

/// A picture-in-picture stream as a graphics stream.
pub open spec fn from_pip(g: PipPgStream) -> PgsSubtitleStream {
    PgsSubtitleStream {
        elementary_pid: g.elementary_pid,
        coding_type: g.coding_type,
        language_code: g.language_code,
    }
}

pub open spec fn video_enc() -> spec_fn(PrimaryVideoStream) -> Seq<u8> {
    |x: PrimaryVideoStream| enc_video(x)
}

pub open spec fn audio_enc() -> spec_fn(PrimaryAudioStream) -> Seq<u8> {
    |x: PrimaryAudioStream| enc_audio(x)
}

pub open spec fn graphics_enc() -> spec_fn(PgsSubtitleStream) -> Seq<u8> {
    |x: PgsSubtitleStream| enc_graphics(x)
}

pub open spec fn ig_enc() -> spec_fn(IgsInteractiveStream) -> Seq<u8> {
    |x: IgsInteractiveStream| enc_graphics(from_ig(x))
}

pub open spec fn secondary_audio_enc() -> spec_fn(SecondaryAudioStream) -> Seq<u8> {
    |x: SecondaryAudioStream| enc_audio(from_secondary_audio(x))
}

pub open spec fn secondary_video_enc() -> spec_fn(SecondaryVideoStream) -> Seq<u8> {
    |x: SecondaryVideoStream| enc_video(from_secondary_video(x))
}

pub open spec fn pip_enc() -> spec_fn(PipPgStream) -> Seq<u8> {
    |x: PipPgStream| enc_graphics(from_pip(x))
}

/// The body of an STN table: the counts and the streams, class by class.
#[verifier::opaque]
pub open spec fn enc_stn_body(t: StnTableModel) -> Seq<u8> {
    let n = t.counts();
    zeros(2) + enc8(n.num_primary_video) + enc8(n.num_primary_audio) + enc8(n.num_pg) + enc8(
        n.num_ig,
    ) + enc8(n.num_secondary_audio) + enc8(n.num_secondary_video) + enc8(n.num_pip_pg) + zeros(5)
        + enc_list(video_enc(), t.primary_video) + enc_list(audio_enc(), t.primary_audio) + enc_list(
        graphics_enc(),
        t.pg_subtitles,
    ) + enc_list(ig_enc(), t.ig_streams) + enc_list(secondary_audio_enc(), t.secondary_audio)
        + enc_list(secondary_video_enc(), t.secondary_video) + enc_list(pip_enc(), t.pip_pg)
}

/// A clip's file name in five bytes: cut off after five, filled up with `'0'`.
pub open spec fn enc_name(name: Seq<char>) -> Seq<u8> {
    let bytes = encode_utf8(name);
    Seq::new(
        5,
        |i: int|
            if i < bytes.len() {
                bytes[i]
            } else {
                0x30
            },
    )
}

/// One further angle; an angle that is counted but not given is all zeros.
#[verifier::opaque]
pub open spec fn enc_angle(a: Option<AngleClipModel>) -> Seq<u8> {
    match a {
        Some(c) => enc_name(c.clip_information_file_name) + enc_array4(c.clip_codec_identifier)
            + enc8(c.stc_id_ref) + enc8(0),
        None => zeros(11),
    }
}

pub open spec fn angle_enc() -> spec_fn(Option<AngleClipModel>) -> Seq<u8> {
    |a: Option<AngleClipModel>| enc_angle(a)
}

/// The further angles that a count calls for.
pub open spec fn angle_slots(angles: Seq<AngleClipModel>, count: u8) -> Seq<
    Option<AngleClipModel>,
> {
    Seq::new(
        if count == 0 {
            0
        } else {
            (count - 1) as nat
        },
        |i: int|
            if i < angles.len() {
                Some(angles[i])
            } else {
                None
            },
    )
}

/// The angle block of a PlayItem.
#[verifier::opaque]
pub open spec fn enc_angles(m: PlayItemModel) -> Seq<u8> {
    if m.multi_clip_count > 1 {
        enc8(m.multi_clip_count) + enc8(m.flags.angle_flags) + enc_list(
            angle_enc(),
            angle_slots(m.angles, m.multi_clip_count),
        )
    } else {
        Seq::empty()
    }
}

/// The fixed fields of a PlayItem, which stand behind its length.
#[verifier::opaque]
pub open spec fn enc_item_head(m: PlayItemModel) -> Seq<u8> {
    enc_name(m.clip_information_file_name) + enc_array4(m.clip_codec_identifier) + enc16(
        ((if m.multi_clip_count > 1 {
            16int
        } else {
            0int
        }) + m.connection_condition.raw() % 16) as u16,
    ) + enc8(m.stc_id_ref) + enc32(m.in_time_ticks) + enc32(m.out_time_ticks) + enc64(
        m.flags.uo_mask,
    ) + enc8(
        if m.flags.random_access_flag {
            0x80
        } else {
            0
        },
    ) + enc8(m.flags.still_mode) + enc16(m.flags.still_time)
}

#[verifier::opaque]
pub open spec fn enc_item(m: PlayItemModel) -> Seq<u8> {
    enc_block16(enc_item_head(m) + enc_angles(m) + enc_block16(enc_stn_body(m.stn_table)))
}

pub open spec fn item_enc() -> spec_fn(PlayItemModel) -> Seq<u8> {
    |m: PlayItemModel| enc_item(m)
}

pub open spec fn enc_sub_path(x: SubPath) -> Seq<u8> {
    enc32(6) + enc8(0) + enc8(x.sub_path_type) + enc16(
        if x.is_repeat_subpath {
            1
        } else {
            0
        },
    ) + enc8(0) + enc8((x.num_sub_play_items % 256) as u8)
}

pub open spec fn sub_path_enc() -> spec_fn(SubPath) -> Seq<u8> {
    |x: SubPath| enc_sub_path(x)
}

pub open spec fn enc_mark(x: PlayListMark) -> Seq<u8> {
    enc8(0) + enc8(x.mark_type) + enc16(x.ref_play_item_id) + enc32(x.mark_time_ticks) + enc16(
        x.entry_es_pid,
    ) + enc32(x.duration_ticks)
}

pub open spec fn mark_enc() -> spec_fn(PlayListMark) -> Seq<u8> {
    |x: PlayListMark| enc_mark(x)
}

#[verifier::opaque]
pub open spec fn enc_app_info(x: AppInfoPlayList) -> Seq<u8> {
    enc32(14) + enc8(0) + enc8(x.playback_type) + enc16(x.playback_count) + enc64(x.uo_mask) + enc8(
        ((x.random_access_flag % 2) * 128 + (x.audio_mix_app_flag % 2) * 64 + (
        x.lossless_may_bypass_mixer_flag % 2) * 32) as u8,
    ) + enc8(0)
}

#[verifier::opaque]
pub open spec fn enc_play_list(items: Seq<PlayItemModel>, subs: Seq<SubPath>) -> Seq<u8> {
    enc_block32(
        zeros(2) + enc16((items.len() % 0x1_0000) as u16) + enc16((subs.len() % 0x1_0000) as u16)
            + enc_list(item_enc(), items) + enc_list(sub_path_enc(), subs),
    )
}

#[verifier::opaque]
pub open spec fn enc_marks(marks: Seq<PlayListMark>) -> Seq<u8> {
    enc_block32(enc16((marks.len() % 0x1_0000) as u16) + enc_list(mark_enc(), marks))
}

/// A whole file: the fixed part, the PlayList, the marks.
pub open spec fn enc_playlist(m: PlayListModel) -> Seq<u8> {
    let list = enc_play_list(m.play_items, m.sub_paths);
    enc_array4([0x4Du8, 0x50, 0x4C, 0x53]) + enc_array4(m.version) + enc32(58) + enc32(
        ((58 + list.len()) % 0x1_0000_0000) as u32,
    ) + zeros(24) + enc_app_info(m.app_info) + list + enc_marks(m.marks)
}

// ---------------------------------------------------------------------
// Writing
// ---------------------------------------------------------------------

fn block16(body: &Vec<u8>) -> (out: Vec<u8>)
    ensures
        out@ == enc_block16(body@),
{
    broadcast use lemma_empty_add;

    let mut out: Vec<u8> = Vec::new();
    put_u16(&mut out, low_u16(body.len()));
    put_bytes(&mut out, body);
    out
}

fn block32(body: &Vec<u8>) -> (out: Vec<u8>)
    ensures
        out@ == enc_block32(body@),
{
    broadcast use lemma_empty_add;

    let mut out: Vec<u8> = Vec::new();
    put_u32(&mut out, low_u32(body.len()));
    put_bytes(&mut out, body);
    out
}

fn encode_stream_entry(pid: u16) -> (out: Vec<u8>)
    ensures
        out@ == enc_stream_entry(pid),
{
    broadcast use lemma_empty_add;

    let mut out: Vec<u8> = Vec::new();
    put_u8(&mut out, 9);
    put_u8(&mut out, 1);
    put_u16(&mut out, pid);
    put_zeros(&mut out, 6);
    out
}

fn encode_video_stream(v: &PrimaryVideoStream) -> (out: Vec<u8>)
    ensures
        out@ == enc_video(*v),
{
    proof {
        reveal(enc_video);
    }
    let mut out = encode_stream_entry(v.elementary_pid);
    put_u8(&mut out, 5);
    put_u8(&mut out, v.coding_type.as_raw());
    put_u8(&mut out, (v.video_format % 16) * 16 + v.frame_rate % 16);
    put_u8(&mut out, (v.aspect_ratio % 16) * 16);
    put_zeros(&mut out, 2);
    out
}

fn encode_audio_stream(a: &PrimaryAudioStream) -> (out: Vec<u8>)
    ensures
        out@ == enc_audio(*a),
{
    proof {
        reveal(enc_audio);
    }
    let mut out = encode_stream_entry(a.elementary_pid);
    put_u8(&mut out, 6);
    put_u8(&mut out, a.coding_type.as_raw());
    put_u8(&mut out, (a.audio_format % 16) * 16 + a.sample_rate % 16);
    put_array3(&mut out, &a.language_code);
    put_zeros(&mut out, 1);
    out
}

fn encode_language_stream(g: &PgsSubtitleStream) -> (out: Vec<u8>)
    ensures
        out@ == enc_graphics(*g),
{
    proof {
        reveal(enc_graphics);
    }
    let mut out = encode_stream_entry(g.elementary_pid);
    put_u8(&mut out, 4);
    put_u8(&mut out, g.coding_type.as_raw());
    put_array3(&mut out, &g.language_code);
    out
}

fn encode_videos(xs: &Vec<PrimaryVideoStream>) -> (out: Vec<u8>)
    ensures
        out@ == enc_list(video_enc(), xs@),
{
    proof {
        reveal(enc_list);
    }
    let mut out: Vec<u8> = Vec::new();
    let mut i: usize = 0;
    while i < xs.len()
        invariant
            i <= xs@.len(),
            out@ == enc_list(video_enc(), xs@.take(i as int)),
        decreases xs@.len() - i,
    {
        let x = &xs[i];
        let bytes = encode_video_stream(x);
        put_bytes(&mut out, &bytes);
        proof {
            lemma_enc_list_push(video_enc(), xs@, i as int);
        }
        i += 1;
    }
    assert(xs@.take(i as int) =~= xs@);
    out
}

fn encode_audios(xs: &Vec<PrimaryAudioStream>) -> (out: Vec<u8>)
    ensures
        out@ == enc_list(audio_enc(), xs@),
{
    proof {
        reveal(enc_list);
    }
    let mut out: Vec<u8> = Vec::new();
    let mut i: usize = 0;
    while i < xs.len()
        invariant
            i <= xs@.len(),
            out@ == enc_list(audio_enc(), xs@.take(i as int)),
        decreases xs@.len() - i,
    {
        let x = &xs[i];
        let bytes = encode_audio_stream(x);
        put_bytes(&mut out, &bytes);
        proof {
            lemma_enc_list_push(audio_enc(), xs@, i as int);
        }
        i += 1;
    }
    assert(xs@.take(i as int) =~= xs@);
    out
}

fn encode_graphics(xs: &Vec<PgsSubtitleStream>) -> (out: Vec<u8>)
    ensures
        out@ == enc_list(graphics_enc(), xs@),
{
    proof {
        reveal(enc_list);
    }
    let mut out: Vec<u8> = Vec::new();
    let mut i: usize = 0;
    while i < xs.len()
        invariant
            i <= xs@.len(),
            out@ == enc_list(graphics_enc(), xs@.take(i as int)),
        decreases xs@.len() - i,
    {
        let x = &xs[i];
        let bytes = encode_language_stream(x);
        put_bytes(&mut out, &bytes);
        proof {
            lemma_enc_list_push(graphics_enc(), xs@, i as int);
        }
        i += 1;
    }
    assert(xs@.take(i as int) =~= xs@);
    out
}

fn encode_igs(xs: &Vec<IgsInteractiveStream>) -> (out: Vec<u8>)
    ensures
        out@ == enc_list(ig_enc(), xs@),
{
    proof {
        reveal(enc_list);
    }
    let mut out: Vec<u8> = Vec::new();
    let mut i: usize = 0;
    while i < xs.len()
        invariant
            i <= xs@.len(),
            out@ == enc_list(ig_enc(), xs@.take(i as int)),
        decreases xs@.len() - i,
    {
        let x = &xs[i];
        let bytes = encode_language_stream(
            &PgsSubtitleStream {
                elementary_pid: x.elementary_pid,
                coding_type: x.coding_type,
                language_code: x.language_code,
            },
        );
        put_bytes(&mut out, &bytes);
        proof {
            lemma_enc_list_push(ig_enc(), xs@, i as int);
        }
        i += 1;
    }
    assert(xs@.take(i as int) =~= xs@);
    out
}

fn encode_secondary_audios(xs: &Vec<SecondaryAudioStream>) -> (out: Vec<u8>)
    ensures
        out@ == enc_list(secondary_audio_enc(), xs@),
{
    proof {
        reveal(enc_list);
    }
    let mut out: Vec<u8> = Vec::new();
    let mut i: usize = 0;
    while i < xs.len()
        invariant
            i <= xs@.len(),
            out@ == enc_list(secondary_audio_enc(), xs@.take(i as int)),
        decreases xs@.len() - i,
    {
        let x = &xs[i];
        let bytes = encode_audio_stream(
            &PrimaryAudioStream {
                elementary_pid: x.elementary_pid,
                coding_type: x.coding_type,
                audio_format: x.audio_format,
                sample_rate: x.sample_rate,
                language_code: x.language_code,
            },
        );
        put_bytes(&mut out, &bytes);
        proof {
            lemma_enc_list_push(secondary_audio_enc(), xs@, i as int);
        }
        i += 1;
    }
    assert(xs@.take(i as int) =~= xs@);
    out
}

fn encode_secondary_videos(xs: &Vec<SecondaryVideoStream>) -> (out: Vec<u8>)
    ensures
        out@ == enc_list(secondary_video_enc(), xs@),
{
    proof {
        reveal(enc_list);
    }
    let mut out: Vec<u8> = Vec::new();
    let mut i: usize = 0;
    while i < xs.len()
        invariant
            i <= xs@.len(),
            out@ == enc_list(secondary_video_enc(), xs@.take(i as int)),
        decreases xs@.len() - i,
    {
        let x = &xs[i];
        let bytes = encode_video_stream(
            &PrimaryVideoStream {
                elementary_pid: x.elementary_pid,
                coding_type: x.coding_type,
                video_format: x.video_format,
                frame_rate: x.frame_rate,
                aspect_ratio: x.aspect_ratio,
            },
        );
        put_bytes(&mut out, &bytes);
        proof {
            lemma_enc_list_push(secondary_video_enc(), xs@, i as int);
        }
        i += 1;
    }
    assert(xs@.take(i as int) =~= xs@);
    out
}

fn encode_pips(xs: &Vec<PipPgStream>) -> (out: Vec<u8>)
    ensures
        out@ == enc_list(pip_enc(), xs@),
{
    proof {
        reveal(enc_list);
    }
    let mut out: Vec<u8> = Vec::new();
    let mut i: usize = 0;
    while i < xs.len()
        invariant
            i <= xs@.len(),
            out@ == enc_list(pip_enc(), xs@.take(i as int)),
        decreases xs@.len() - i,
    {
        let x = &xs[i];
        let bytes = encode_language_stream(
            &PgsSubtitleStream {
                elementary_pid: x.elementary_pid,
                coding_type: x.coding_type,
                language_code: x.language_code,
            },
        );
        put_bytes(&mut out, &bytes);
        proof {
            lemma_enc_list_push(pip_enc(), xs@, i as int);
        }
        i += 1;
    }
    assert(xs@.take(i as int) =~= xs@);
    out
}

fn encode_stn_body(t: &StnTable) -> (out: Vec<u8>)
    ensures
        out@ == enc_stn_body(t@),
{
    broadcast use lemma_empty_add;

    proof {
        reveal(enc_stn_body);
    }
    let n = t.summary();
    let mut out: Vec<u8> = Vec::new();
    put_zeros(&mut out, 2);
    put_u8(&mut out, n.num_primary_video);
    put_u8(&mut out, n.num_primary_audio);
    put_u8(&mut out, n.num_pg);
    put_u8(&mut out, n.num_ig);
    put_u8(&mut out, n.num_secondary_audio);
    put_u8(&mut out, n.num_secondary_video);
    put_u8(&mut out, n.num_pip_pg);
    put_zeros(&mut out, 5);
    put_bytes(&mut out, &encode_videos(&t.primary_video));
    put_bytes(&mut out, &encode_audios(&t.primary_audio));
    put_bytes(&mut out, &encode_graphics(&t.pg_subtitles));
    put_bytes(&mut out, &encode_igs(&t.ig_streams));
    put_bytes(&mut out, &encode_secondary_audios(&t.secondary_audio));
    put_bytes(&mut out, &encode_secondary_videos(&t.secondary_video));
    put_bytes(&mut out, &encode_pips(&t.pip_pg));
    out
}

fn encode_name(name: &String) -> (out: Vec<u8>)
    ensures
        out@ == enc_name(name@),
{
    let bytes = name.as_str().as_bytes();
    let mut out: Vec<u8> = Vec::new();
    let mut i: usize = 0;
    while i < 5
        invariant
            i <= 5,
            bytes@ == encode_utf8(name@),
            out@.len() == i,
            forall|k: int| 0 <= k < i ==> out@[k] == #[trigger] enc_name(name@)[k],
        decreases 5 - i,
    {
        if i < bytes.len() {
            out.push(bytes[i]);
        } else {
            out.push(0x30);
        }
        i += 1;
    }
    assert(out@ =~= enc_name(name@));
    out
}

fn encode_angles(pi: &PlayItem) -> (out: Vec<u8>)
    ensures
        out@ == enc_angles(pi@),
{
    proof {
        reveal(enc_list);
    }
    broadcast use lemma_empty_add;

    proof {
        reveal(enc_angles);
        reveal(enc_angle);
    }
    let mut out: Vec<u8> = Vec::new();
    if pi.multi_clip_count > 1 {
        put_u8(&mut out, pi.multi_clip_count);
        put_u8(&mut out, pi.flags.angle_flags);
        let ghost slots = angle_slots(pi@.angles, pi.multi_clip_count);
        let mut list: Vec<u8> = Vec::new();
        let n: usize = pi.multi_clip_count as usize - 1;
        let mut i: usize = 0;
        while i < n
            invariant
                i <= n,
                n == pi.multi_clip_count - 1,
                slots == angle_slots(pi@.angles, pi.multi_clip_count),
                list@ == enc_list(angle_enc(), slots.take(i as int)),
            decreases n - i,
        {
            broadcast use lemma_empty_add;

            proof {
                reveal(enc_angle);
            }
            if i < pi.angles.len() {
                let a = &pi.angles[i];
                assert(pi@.angles[i as int] == a@);
                let mut bytes = encode_name(&a.clip_information_file_name);
                put_array4(&mut bytes, &a.clip_codec_identifier);
                put_u8(&mut bytes, a.stc_id_ref);
                put_u8(&mut bytes, 0);
                put_bytes(&mut list, &bytes);
            } else {
                let mut bytes: Vec<u8> = Vec::new();
                put_zeros(&mut bytes, 11);
                put_bytes(&mut list, &bytes);
            }
            proof {
                lemma_enc_list_push(angle_enc(), slots, i as int);
            }
            i += 1;
        }
        assert(slots.take(i as int) =~= slots);
        put_bytes(&mut out, &list);
    }
    out
}

fn encode_play_item(pi: &PlayItem) -> (out: Vec<u8>)
    ensures
        out@ == enc_item(pi@),
{
    proof {
        reveal(enc_item);
        reveal(enc_item_head);
    }
    let mut out = encode_name(&pi.clip_information_file_name);
    put_array4(&mut out, &pi.clip_codec_identifier);
    let multi: u16 = if pi.multi_clip_count > 1 {
        16
    } else {
        0
    };
    put_u16(&mut out, multi + (pi.connection_condition.as_raw() % 16) as u16);
    put_u8(&mut out, pi.stc_id_ref);
    put_u32(&mut out, pi.in_time_ticks);
    put_u32(&mut out, pi.out_time_ticks);
    put_u64(&mut out, pi.flags.uo_mask);
    put_u8(
        &mut out,
        if pi.flags.random_access_flag {
            0x80
        } else {
            0
        },
    );
    put_u8(&mut out, pi.flags.still_mode);
    put_u16(&mut out, pi.flags.still_time);
    assert(out@ == enc_item_head(pi@));
    put_bytes(&mut out, &encode_angles(pi));
    let stn = encode_stn_body(&pi.stn_table);
    put_bytes(&mut out, &block16(&stn));
    block16(&out)
}

fn encode_sub_path(x: &SubPath) -> (out: Vec<u8>)
    ensures
        out@ == enc_sub_path(*x),
{
    broadcast use lemma_empty_add;

    let mut out: Vec<u8> = Vec::new();
    put_u32(&mut out, 6);
    put_u8(&mut out, 0);
    put_u8(&mut out, x.sub_path_type);
    put_u16(
        &mut out,
        if x.is_repeat_subpath {
            1
        } else {
            0
        },
    );
    put_u8(&mut out, 0);
    put_u8(&mut out, (x.num_sub_play_items % 256) as u8);
    out
}

fn encode_mark(x: &PlayListMark) -> (out: Vec<u8>)
    ensures
        out@ == enc_mark(*x),
{
    broadcast use lemma_empty_add;

    let mut out: Vec<u8> = Vec::new();
    put_u8(&mut out, 0);
    put_u8(&mut out, x.mark_type);
    put_u16(&mut out, x.ref_play_item_id);
    put_u32(&mut out, x.mark_time_ticks);
    put_u16(&mut out, x.entry_es_pid);
    put_u32(&mut out, x.duration_ticks);
    out
}

fn encode_sub_paths(xs: &Vec<SubPath>) -> (out: Vec<u8>)
    ensures
        out@ == enc_list(sub_path_enc(), xs@),
{
    proof {
        reveal(enc_list);
    }
    let mut out: Vec<u8> = Vec::new();
    let mut i: usize = 0;
    while i < xs.len()
        invariant
            i <= xs@.len(),
            out@ == enc_list(sub_path_enc(), xs@.take(i as int)),
        decreases xs@.len() - i,
    {
        let x = &xs[i];
        let bytes = encode_sub_path(x);
        put_bytes(&mut out, &bytes);
        proof {
            lemma_enc_list_push(sub_path_enc(), xs@, i as int);
        }
        i += 1;
    }
    assert(xs@.take(i as int) =~= xs@);
    out
}

fn encode_mark_list(xs: &Vec<PlayListMark>) -> (out: Vec<u8>)
    ensures
        out@ == enc_list(mark_enc(), xs@),
{
    proof {
        reveal(enc_list);
    }
    let mut out: Vec<u8> = Vec::new();
    let mut i: usize = 0;
    while i < xs.len()
        invariant
            i <= xs@.len(),
            out@ == enc_list(mark_enc(), xs@.take(i as int)),
        decreases xs@.len() - i,
    {
        let x = &xs[i];
        let bytes = encode_mark(x);
        put_bytes(&mut out, &bytes);
        proof {
            lemma_enc_list_push(mark_enc(), xs@, i as int);
        }
        i += 1;
    }
    assert(xs@.take(i as int) =~= xs@);
    out
}

fn encode_items(xs: &Vec<PlayItem>) -> (out: Vec<u8>)
    ensures
        out@ == enc_list(item_enc(), item_models(xs@)),
{
    proof {
        reveal(enc_list);
    }
    let ghost models = item_models(xs@);
    let mut out: Vec<u8> = Vec::new();
    let mut i: usize = 0;
    while i < xs.len()
        invariant
            i <= xs@.len(),
            models == item_models(xs@),
            out@ == enc_list(item_enc(), models.take(i as int)),
        decreases xs@.len() - i,
    {
        let bytes = encode_play_item(&xs[i]);
        put_bytes(&mut out, &bytes);
        proof {
            lemma_enc_list_push(item_enc(), models, i as int);
        }
        i += 1;
    }
    assert(models.take(i as int) =~= models);
    out
}

fn encode_app_info(x: &AppInfoPlayList) -> (out: Vec<u8>)
    ensures
        out@ == enc_app_info(*x),
{
    broadcast use lemma_empty_add;

    proof {
        reveal(enc_app_info);
    }
    let mut out: Vec<u8> = Vec::new();
    put_u32(&mut out, 14);
    put_u8(&mut out, 0);
    put_u8(&mut out, x.playback_type);
    put_u16(&mut out, x.playback_count);
    put_u64(&mut out, x.uo_mask);
    put_u8(
        &mut out,
        (x.random_access_flag % 2) * 128 + (x.audio_mix_app_flag % 2) * 64 + (
        x.lossless_may_bypass_mixer_flag % 2) * 32,
    );
    put_u8(&mut out, 0);
    out
}

impl PlayListMpls {
    /// Write a whole `.mpls` file.
    pub fn encode(&self) -> (out: Vec<u8>)
        ensures
            out@ == enc_playlist(self@),
    {
        broadcast use lemma_empty_add;

        proof {
            reveal(enc_play_list);
            reveal(enc_marks);
        }
        let mut body: Vec<u8> = Vec::new();
        put_zeros(&mut body, 2);
        put_u16(&mut body, low_u16(self.play_list.play_items.len()));
        put_u16(&mut body, low_u16(self.play_list.sub_paths.len()));
        put_bytes(&mut body, &encode_items(&self.play_list.play_items));
        put_bytes(&mut body, &encode_sub_paths(&self.play_list.sub_paths));
        let list = block32(&body);
        let mut mark_body: Vec<u8> = Vec::new();
        put_u16(&mut mark_body, low_u16(self.marks.len()));
        put_bytes(&mut mark_body, &encode_mark_list(&self.marks));
        let marks = block32(&mark_body);
        let marks_start: u128 = 58 + list.len() as u128;
        let mut out: Vec<u8> = Vec::new();
        put_array4(&mut out, &[0x4D, 0x50, 0x4C, 0x53]);
        put_array4(&mut out, &self.version);
        put_u32(&mut out, 58);
        put_u32(&mut out, (marks_start % 0x1_0000_0000) as u32);
        put_zeros(&mut out, 24);
        put_bytes(&mut out, &encode_app_info(&self.app_info));
        put_bytes(&mut out, &list);
        put_bytes(&mut out, &marks);
        out
    }
}

// ---------------------------------------------------------------------
// Reading gives back what was written
// ---------------------------------------------------------------------

/// A coding type under its own name: no `Other` holds a value that has one.
pub open spec fn canonical(t: StreamCodingType) -> bool {
    StreamCodingType::of_raw(t.raw()) == t
}

pub open spec fn valid_video(v: PrimaryVideoStream) -> bool {
    canonical(v.coding_type) && v.video_format < 16 && v.frame_rate < 16 && v.aspect_ratio < 16
}

pub open spec fn valid_audio(a: PrimaryAudioStream) -> bool {
    canonical(a.coding_type) && a.audio_format < 16 && a.sample_rate < 16
}

/// A stream table that the format can hold: every count fits its byte and
/// every attribute its four bits.
pub open spec fn valid_stn(t: StnTableModel) -> bool {
    &&& t.primary_video.len() < 256
    &&& t.primary_audio.len() < 256
    &&& t.pg_subtitles.len() < 256
    &&& t.ig_streams.len() < 256
    &&& t.secondary_audio.len() < 256
    &&& t.secondary_video.len() < 256
    &&& t.pip_pg.len() < 256
    &&& forall|i: int|
        0 <= i < t.primary_video.len() ==> valid_video(#[trigger] t.primary_video[i])
    &&& forall|i: int|
        0 <= i < t.primary_audio.len() ==> valid_audio(#[trigger] t.primary_audio[i])
    &&& forall|i: int|
        0 <= i < t.pg_subtitles.len() ==> canonical((#[trigger] t.pg_subtitles[i]).coding_type)
    &&& forall|i: int|
        0 <= i < t.ig_streams.len() ==> canonical((#[trigger] t.ig_streams[i]).coding_type)
    &&& forall|i: int|
        0 <= i < t.secondary_audio.len() ==> valid_audio(
            from_secondary_audio(#[trigger] t.secondary_audio[i]),
        )
    &&& forall|i: int|
        0 <= i < t.secondary_video.len() ==> valid_video(
            from_secondary_video(#[trigger] t.secondary_video[i]),
        )
    &&& forall|i: int|
        0 <= i < t.pip_pg.len() ==> canonical((#[trigger] t.pip_pg[i]).coding_type)
}

/// A name of five bytes.
pub open spec fn valid_name(name: Seq<char>) -> bool {
    encode_utf8(name).len() == 5
}

/// A PlayItem that the format can hold: names of five bytes, a four-bit
/// connection condition under its own name, as many further angles as are
/// counted, the flags byte only with several angles.
pub open spec fn valid_item(m: PlayItemModel) -> bool {
    &&& valid_name(m.clip_information_file_name)
    &&& m.connection_condition.raw() < 16
    &&& ConnectionCondition::of_raw(m.connection_condition.raw()) == m.connection_condition
    &&& m.multi_clip_count >= 1
    &&& m.angles.len() == m.multi_clip_count - 1
    &&& m.multi_clip_count == 1 ==> m.flags.angle_flags == 0
    &&& forall|i: int|
        0 <= i < m.angles.len() ==> valid_name(
            (#[trigger] m.angles[i]).clip_information_file_name,
        )
    &&& valid_stn(m.stn_table)
}

/// A playlist that the format can hold.
pub open spec fn valid_playlist(m: PlayListModel) -> bool {
    &&& m.app_info.random_access_flag < 2
    &&& m.app_info.audio_mix_app_flag < 2
    &&& m.app_info.lossless_may_bypass_mixer_flag < 2
    &&& m.play_items.len() < 0x1_0000
    &&& forall|i: int| 0 <= i < m.play_items.len() ==> valid_item(#[trigger] m.play_items[i])
    &&& m.sub_paths.len() < 0x1_0000
    &&& forall|i: int|
        0 <= i < m.sub_paths.len() ==> (#[trigger] m.sub_paths[i]).num_sub_play_items < 256
    &&& m.marks.len() < 0x1_0000
}

proof fn lemma_video_round_trip(s: Seq<u8>, p: int, v: PrimaryVideoStream)
    requires
        has_at(s, p, enc_video(v)),
        valid_video(v),
    ensures
        video_at(s, p) == Some((v, p + enc_video(v).len())),
{
    broadcast use group_has_at;

    reveal(enc_video);
}

proof fn lemma_audio_round_trip(s: Seq<u8>, p: int, a: PrimaryAudioStream)
    requires
        has_at(s, p, enc_audio(a)),
        valid_audio(a),
    ensures
        audio_at(s, p) == Some((a, p + enc_audio(a).len())),
{
    broadcast use group_has_at;

    reveal(enc_audio);
}

proof fn lemma_graphics_round_trip(s: Seq<u8>, p: int, g: PgsSubtitleStream)
    requires
        has_at(s, p, enc_graphics(g)),
        canonical(g.coding_type),
    ensures
        graphics_at(s, p) == Some((g, p + enc_graphics(g).len())),
{
    broadcast use group_has_at;

    reveal(enc_graphics);
}

proof fn lemma_video_list(s: Seq<u8>, p: int, xs: Seq<PrimaryVideoStream>)
    requires
        has_at(s, p, enc_list(video_enc(), xs)),
        forall|i: int| 0 <= i < xs.len() ==> valid_video(#[trigger] xs[i]),
    ensures
        list_at(video_reader(s), p, xs.len()) == Some((xs, p + enc_list(video_enc(), xs).len())),
{
    assert forall|i: int, q: int|
        0 <= i < xs.len() && #[trigger] has_at(s, q, video_enc()(xs[i])) implies video_reader(s)(q)
        == Some((xs[i], q + video_enc()(xs[i]).len())) by {
        lemma_video_round_trip(s, q, xs[i]);
    }
    lemma_list_round_trip(s, video_reader(s), video_enc(), p, xs);
}

proof fn lemma_audio_list(s: Seq<u8>, p: int, xs: Seq<PrimaryAudioStream>)
    requires
        has_at(s, p, enc_list(audio_enc(), xs)),
        forall|i: int| 0 <= i < xs.len() ==> valid_audio(#[trigger] xs[i]),
    ensures
        list_at(audio_reader(s), p, xs.len()) == Some((xs, p + enc_list(audio_enc(), xs).len())),
{
    assert forall|i: int, q: int|
        0 <= i < xs.len() && #[trigger] has_at(s, q, audio_enc()(xs[i])) implies audio_reader(s)(q)
        == Some((xs[i], q + audio_enc()(xs[i]).len())) by {
        lemma_audio_round_trip(s, q, xs[i]);
    }
    lemma_list_round_trip(s, audio_reader(s), audio_enc(), p, xs);
}

proof fn lemma_graphics_list(s: Seq<u8>, p: int, xs: Seq<PgsSubtitleStream>)
    requires
        has_at(s, p, enc_list(graphics_enc(), xs)),
        forall|i: int| 0 <= i < xs.len() ==> canonical((#[trigger] xs[i]).coding_type),
    ensures
        list_at(graphics_reader(s), p, xs.len()) == Some((xs, p + enc_list(graphics_enc(), xs).len())),
{
    assert forall|i: int, q: int|
        0 <= i < xs.len() && #[trigger] has_at(s, q, graphics_enc()(xs[i])) implies graphics_reader(s)(q)
        == Some((xs[i], q + graphics_enc()(xs[i]).len())) by {
        lemma_graphics_round_trip(s, q, xs[i]);
    }
    lemma_list_round_trip(s, graphics_reader(s), graphics_enc(), p, xs);
}

proof fn lemma_ig_list(s: Seq<u8>, p: int, xs: Seq<IgsInteractiveStream>)
    requires
        has_at(s, p, enc_list(ig_enc(), xs)),
        forall|i: int| 0 <= i < xs.len() ==> canonical((#[trigger] xs[i]).coding_type),
    ensures
        list_at(ig_reader(s), p, xs.len()) == Some((xs, p + enc_list(ig_enc(), xs).len())),
{
    assert forall|i: int, q: int|
        0 <= i < xs.len() && #[trigger] has_at(s, q, ig_enc()(xs[i])) implies ig_reader(s)(q)
        == Some((xs[i], q + ig_enc()(xs[i]).len())) by {
        lemma_graphics_round_trip(s, q, from_ig(xs[i]));
    }
    lemma_list_round_trip(s, ig_reader(s), ig_enc(), p, xs);
}

proof fn lemma_secondary_audio_list(s: Seq<u8>, p: int, xs: Seq<SecondaryAudioStream>)
    requires
        has_at(s, p, enc_list(secondary_audio_enc(), xs)),
        forall|i: int| 0 <= i < xs.len() ==> valid_audio(from_secondary_audio(#[trigger] xs[i])),
    ensures
        list_at(secondary_audio_reader(s), p, xs.len()) == Some(
            (xs, p + enc_list(secondary_audio_enc(), xs).len()),
        ),
{
    assert forall|i: int, q: int|
        0 <= i < xs.len() && #[trigger] has_at(s, q, secondary_audio_enc()(xs[i])) implies
        secondary_audio_reader(s)(q) == Some((xs[i], q + secondary_audio_enc()(xs[i]).len())) by {
        lemma_audio_round_trip(s, q, from_secondary_audio(xs[i]));
    }
    lemma_list_round_trip(s, secondary_audio_reader(s), secondary_audio_enc(), p, xs);
}

proof fn lemma_secondary_video_list(s: Seq<u8>, p: int, xs: Seq<SecondaryVideoStream>)
    requires
        has_at(s, p, enc_list(secondary_video_enc(), xs)),
        forall|i: int| 0 <= i < xs.len() ==> valid_video(from_secondary_video(#[trigger] xs[i])),
    ensures
        list_at(secondary_video_reader(s), p, xs.len()) == Some(
            (xs, p + enc_list(secondary_video_enc(), xs).len()),
        ),
{
    assert forall|i: int, q: int|
        0 <= i < xs.len() && #[trigger] has_at(s, q, secondary_video_enc()(xs[i])) implies
        secondary_video_reader(s)(q) == Some((xs[i], q + secondary_video_enc()(xs[i]).len())) by {
        lemma_video_round_trip(s, q, from_secondary_video(xs[i]));
    }
    lemma_list_round_trip(s, secondary_video_reader(s), secondary_video_enc(), p, xs);
}

proof fn lemma_pip_list(s: Seq<u8>, p: int, xs: Seq<PipPgStream>)
    requires
        has_at(s, p, enc_list(pip_enc(), xs)),
        forall|i: int| 0 <= i < xs.len() ==> canonical((#[trigger] xs[i]).coding_type),
    ensures
        list_at(pip_reader(s), p, xs.len()) == Some((xs, p + enc_list(pip_enc(), xs).len())),
{
    assert forall|i: int, q: int|
        0 <= i < xs.len() && #[trigger] has_at(s, q, pip_enc()(xs[i])) implies pip_reader(s)(q)
        == Some((xs[i], q + pip_enc()(xs[i]).len())) by {
        lemma_graphics_round_trip(s, q, from_pip(xs[i]));
    }
    lemma_list_round_trip(s, pip_reader(s), pip_enc(), p, xs);
}

/// Where the parts of an STN table's body stand.
proof fn lemma_stn_layout(
    s: Seq<u8>,
    p: int,
    n: (u8, u8, u8, u8, u8, u8, u8),
    a: Seq<u8>,
    b: Seq<u8>,
    c: Seq<u8>,
    d: Seq<u8>,
    e: Seq<u8>,
    f: Seq<u8>,
    g: Seq<u8>,
)
    requires
        has_at(
            s,
            p,
            zeros(2) + enc8(n.0) + enc8(n.1) + enc8(n.2) + enc8(n.3) + enc8(n.4) + enc8(n.5) + enc8(
                n.6,
            ) + zeros(5) + a + b + c + d + e + f + g,
        ),
    ensures
        s[p + 2] == n.0,
        s[p + 3] == n.1,
        s[p + 4] == n.2,
        s[p + 5] == n.3,
        s[p + 6] == n.4,
        s[p + 7] == n.5,
        s[p + 8] == n.6,
        has_at(s, p + 14, a),
        has_at(s, p + 14 + a.len(), b),
        has_at(s, p + 14 + a.len() + b.len(), c),
        has_at(s, p + 14 + a.len() + b.len() + c.len(), d),
        has_at(s, p + 14 + a.len() + b.len() + c.len() + d.len(), e),
        has_at(s, p + 14 + a.len() + b.len() + c.len() + d.len() + e.len(), f),
        has_at(s, p + 14 + a.len() + b.len() + c.len() + d.len() + e.len() + f.len(), g),
{
    broadcast use group_has_at;

}

/// The end of each list of streams in a body that begins at `p`.
spec fn stn_ends(p: int, t: StnTableModel) -> (int, int, int, int, int, int) {
    let e0 = p + 14 + enc_list(video_enc(), t.primary_video).len();
    let e1 = e0 + enc_list(audio_enc(), t.primary_audio).len();
    let e2 = e1 + enc_list(graphics_enc(), t.pg_subtitles).len();
    let e3 = e2 + enc_list(ig_enc(), t.ig_streams).len();
    let e4 = e3 + enc_list(secondary_audio_enc(), t.secondary_audio).len();
    let e5 = e4 + enc_list(secondary_video_enc(), t.secondary_video).len();
    (e0, e1, e2, e3, e4, e5)
}

proof fn lemma_stn_parts(s: Seq<u8>, p: int, t: StnTableModel)
    requires
        has_at(s, p, enc_stn_body(t)),
    ensures
        s[p + 2] == t.counts().num_primary_video,
        s[p + 3] == t.counts().num_primary_audio,
        s[p + 4] == t.counts().num_pg,
        s[p + 5] == t.counts().num_ig,
        s[p + 6] == t.counts().num_secondary_audio,
        s[p + 7] == t.counts().num_secondary_video,
        s[p + 8] == t.counts().num_pip_pg,
        has_at(s, p + 14, enc_list(video_enc(), t.primary_video)),
        has_at(s, stn_ends(p, t).0, enc_list(audio_enc(), t.primary_audio)),
        has_at(s, stn_ends(p, t).1, enc_list(graphics_enc(), t.pg_subtitles)),
        has_at(s, stn_ends(p, t).2, enc_list(ig_enc(), t.ig_streams)),
        has_at(s, stn_ends(p, t).3, enc_list(secondary_audio_enc(), t.secondary_audio)),
        has_at(s, stn_ends(p, t).4, enc_list(secondary_video_enc(), t.secondary_video)),
        has_at(s, stn_ends(p, t).5, enc_list(pip_enc(), t.pip_pg)),
{
    reveal(enc_stn_body);
    let n = t.counts();
    lemma_stn_layout(
        s,
        p,
        (
            n.num_primary_video,
            n.num_primary_audio,
            n.num_pg,
            n.num_ig,
            n.num_secondary_audio,
            n.num_secondary_video,
            n.num_pip_pg,
        ),
        enc_list(video_enc(), t.primary_video),
        enc_list(audio_enc(), t.primary_audio),
        enc_list(graphics_enc(), t.pg_subtitles),
        enc_list(ig_enc(), t.ig_streams),
        enc_list(secondary_audio_enc(), t.secondary_audio),
        enc_list(secondary_video_enc(), t.secondary_video),
        enc_list(pip_enc(), t.pip_pg),
    );
}

/// A stream takes at most 17 bytes.
proof fn lemma_stream_lens()
    ensures
        forall|v: PrimaryVideoStream| (#[trigger] enc_video(v)).len() == 16,
        forall|a: PrimaryAudioStream| (#[trigger] enc_audio(a)).len() == 17,
        forall|g: PgsSubtitleStream| (#[trigger] enc_graphics(g)).len() == 15,
{
    broadcast use {lemma_zeros_len, lemma_enc8_len, lemma_enc16_len, lemma_enc_array3_len};

    reveal(enc_video);
    reveal(enc_audio);
    reveal(enc_graphics);
}

/// A stream table fits its 16-bit length.
proof fn lemma_stn_body_len(t: StnTableModel)
    requires
        valid_stn(t),
    ensures
        14 <= enc_stn_body(t).len() < 28_400,
{
    broadcast use {lemma_zeros_len, lemma_enc8_len};

    reveal(enc_stn_body);
    lemma_stream_lens();
    lemma_enc_list_len(video_enc(), t.primary_video, 16);
    lemma_enc_list_len(audio_enc(), t.primary_audio, 17);
    lemma_enc_list_len(graphics_enc(), t.pg_subtitles, 15);
    lemma_enc_list_len(ig_enc(), t.ig_streams, 15);
    lemma_enc_list_len(secondary_audio_enc(), t.secondary_audio, 17);
    lemma_enc_list_len(secondary_video_enc(), t.secondary_video, 16);
    lemma_enc_list_len(pip_enc(), t.pip_pg, 15);
}

/// The classes of streams, read one after the other, make the table.
proof fn lemma_stn_chain(
    s: Seq<u8>,
    c: int,
    p: int,
    ends: (int, int, int, int, int, int),
    last: int,
    t: StnTableModel,
)
    requires
        list_at(video_reader(s), p, s[c] as nat) == Some((t.primary_video, ends.0)),
        list_at(audio_reader(s), ends.0, s[c + 1] as nat) == Some((t.primary_audio, ends.1)),
        list_at(graphics_reader(s), ends.1, s[c + 2] as nat) == Some((t.pg_subtitles, ends.2)),
        list_at(ig_reader(s), ends.2, s[c + 3] as nat) == Some((t.ig_streams, ends.3)),
        list_at(secondary_audio_reader(s), ends.3, s[c + 4] as nat) == Some(
            (t.secondary_audio, ends.4),
        ),
        list_at(secondary_video_reader(s), ends.4, s[c + 5] as nat) == Some(
            (t.secondary_video, ends.5),
        ),
        list_at(pip_reader(s), ends.5, s[c + 6] as nat) == Some((t.pip_pg, last)),
    ensures
        stn_streams_at(s, c, p) == Some(t),
{
}

proof fn lemma_stn_streams(s: Seq<u8>, p: int, t: StnTableModel)
    requires
        has_at(s, p, enc_stn_body(t)),
        valid_stn(t),
    ensures
        stn_streams_at(s, p + 2, p + 14) == Some(t),
{
    lemma_stn_parts(s, p, t);
    let ends = stn_ends(p, t);
    let last = ends.5 + enc_list(pip_enc(), t.pip_pg).len();
    assert(list_at(video_reader(s), p + 14, t.primary_video.len()) == Some(
        (t.primary_video, ends.0),
    )) by {
        lemma_video_list(s, p + 14, t.primary_video);
    }
    assert(list_at(audio_reader(s), ends.0, t.primary_audio.len()) == Some(
        (t.primary_audio, ends.1),
    )) by {
        lemma_audio_list(s, ends.0, t.primary_audio);
    }
    assert(list_at(graphics_reader(s), ends.1, t.pg_subtitles.len()) == Some(
        (t.pg_subtitles, ends.2),
    )) by {
        lemma_graphics_list(s, ends.1, t.pg_subtitles);
    }
    assert(list_at(ig_reader(s), ends.2, t.ig_streams.len()) == Some((t.ig_streams, ends.3))) by {
        lemma_ig_list(s, ends.2, t.ig_streams);
    }
    assert(list_at(secondary_audio_reader(s), ends.3, t.secondary_audio.len()) == Some(
        (t.secondary_audio, ends.4),
    )) by {
        lemma_secondary_audio_list(s, ends.3, t.secondary_audio);
    }
    assert(list_at(secondary_video_reader(s), ends.4, t.secondary_video.len()) == Some(
        (t.secondary_video, ends.5),
    )) by {
        lemma_secondary_video_list(s, ends.4, t.secondary_video);
    }
    assert(list_at(pip_reader(s), ends.5, t.pip_pg.len()) == Some((t.pip_pg, last))) by {
        lemma_pip_list(s, ends.5, t.pip_pg);
    }
    lemma_stn_chain(s, p + 2, p + 14, ends, last, t);
}

proof fn lemma_stn_round_trip(s: Seq<u8>, p: int, t: StnTableModel)
    requires
        has_at(s, p, enc_block16(enc_stn_body(t))),
        valid_stn(t),
    ensures
        stn_at(s, p) == Some(t),
{
    let body = enc_stn_body(t);
    lemma_stn_body_len(t);
    lemma_has_at_concat(s, p, enc16(body.len() as u16), body);
    lemma_has_at_16(s, p, body.len() as u16);
    lemma_enc16_len(body.len() as u16);
    lemma_has_at_bounds(s, p + 2, body);
    lemma_stn_streams(s, p + 2, t);
}

/// A name of five bytes is read back from where it was written.
proof fn lemma_name_round_trip(s: Seq<u8>, p: int, name: Seq<char>)
    requires
        has_at(s, p, enc_name(name)),
        valid_name(name),
    ensures
        valid_utf8(s.subrange(p, p + 5)),
        decode_utf8(s.subrange(p, p + 5)) == name,
{
    lemma_has_at_subrange(s, p, enc_name(name));
    assert(enc_name(name) =~= encode_utf8(name));
    vstd::utf8::encode_utf8_valid_utf8(name);
    vstd::utf8::encode_utf8_decode_utf8(name);
}

proof fn lemma_angle_round_trip(s: Seq<u8>, p: int, a: AngleClipModel)
    requires
        has_at(s, p, enc_angle(Some(a))),
        valid_name(a.clip_information_file_name),
    ensures
        angle_at(s, p) == Some((a, p + 11)),
        enc_angle(Some(a)).len() == 11,
{
    broadcast use group_has_at;

    reveal(enc_angle);
    lemma_name_round_trip(s, p, a.clip_information_file_name);
}

/// The further angles are read back one by one.
proof fn lemma_angle_list(s: Seq<u8>, p: int, angles: Seq<AngleClipModel>, count: u8, n: nat)
    requires
        count >= 1,
        angles.len() == count - 1,
        n <= angles.len(),
        has_at(s, p, enc_list(angle_enc(), angle_slots(angles, count).take(n as int))),
        forall|i: int|
            0 <= i < angles.len() ==> valid_name((#[trigger] angles[i]).clip_information_file_name),
    ensures
        list_at(angle_reader(s), p, n) == Some((angles.take(n as int), p + 11 * n)),
        enc_list(angle_enc(), angle_slots(angles, count).take(n as int)).len() == 11 * n,
    decreases n,
{
    reveal(list_at);
    reveal(enc_list);
    let slots = angle_slots(angles, count);
    if n == 0 {
        assert(angles.take(0) =~= Seq::empty());
        assert(slots.take(0) =~= Seq::empty());
    } else {
        let k = (n - 1) as int;
        lemma_enc_list_push(angle_enc(), slots, k);
        lemma_has_at_concat(
            s,
            p,
            enc_list(angle_enc(), slots.take(k)),
            enc_angle(slots[k]),
        );
        lemma_angle_list(s, p, angles, count, k as nat);
        lemma_angle_round_trip(s, p + 11 * k, angles[k]);
        assert(angles.take(k).push(angles[k]) =~= angles.take(n as int));
    }
}

proof fn lemma_angles_round_trip(s: Seq<u8>, p: int, m: PlayItemModel)
    requires
        has_at(s, p, enc_angles(m)),
        valid_item(m),
    ensures
        angles_at(s, p, m.multi_clip_count > 1) == Some(
            (m.multi_clip_count, m.flags.angle_flags, m.angles, p + enc_angles(m).len()),
        ),
{
    reveal(enc_angles);
    if m.multi_clip_count > 1 {
        let slots = angle_slots(m.angles, m.multi_clip_count);
        assert(slots.take(slots.len() as int) =~= slots);
        assert(m.angles.take(m.angles.len() as int) =~= m.angles);
        assert(s[p] == m.multi_clip_count && s[p + 1] == m.flags.angle_flags && has_at(
            s,
            p + 2,
            enc_list(angle_enc(), slots),
        ) && p + 2 <= s.len()) by {
            broadcast use group_has_at;

        }
        lemma_angle_list(s, p + 2, m.angles, m.multi_clip_count, m.angles.len());
        lemma_enc8_len(m.multi_clip_count);
        lemma_enc8_len(m.flags.angle_flags);
    } else {
        assert(m.angles =~= Seq::empty());
    }
}

proof fn lemma_item_head(s: Seq<u8>, p: int, m: PlayItemModel)
    requires
        has_at(s, p, enc_item_head(m)),
        valid_item(m),
    ensures
        p + 32 <= s.len(),
        enc_item_head(m).len() == 32,
        valid_utf8(s.subrange(p, p + 5)),
        decode_utf8(s.subrange(p, p + 5)) == m.clip_information_file_name,
        array4_at(s, p + 5) == m.clip_codec_identifier,
        (be16(s, p + 9) / 16) % 2 == if m.multi_clip_count > 1 {
            1int
        } else {
            0int
        },
        be16(s, p + 9) % 16 == m.connection_condition.raw(),
        s[p + 11] == m.stc_id_ref,
        be32(s, p + 12) == m.in_time_ticks,
        be32(s, p + 16) == m.out_time_ticks,
        be64(s, p + 20) == m.flags.uo_mask,
        s[p + 28] >= 128 <==> m.flags.random_access_flag,
        s[p + 29] == m.flags.still_mode,
        be16(s, p + 30) == m.flags.still_time,
{
    broadcast use group_has_at;

    reveal(enc_item_head);
    lemma_name_round_trip(s, p, m.clip_information_file_name);
}

/// A PlayItem fits its 16-bit length.
proof fn lemma_item_len(m: PlayItemModel)
    requires
        valid_item(m),
    ensures
        enc_item(m).len() < 32_000,
{
    broadcast use {
        lemma_zeros_len,
        lemma_enc8_len,
        lemma_enc16_len,
        lemma_enc32_len,
        lemma_enc64_len,
        lemma_enc_array4_len,
    };

    reveal(enc_item);
    reveal(enc_item_head);
    reveal(enc_angles);
    reveal(enc_angle);
    lemma_enc_list_len(angle_enc(), angle_slots(m.angles, m.multi_clip_count), 11);
    lemma_stn_body_len(m.stn_table);
}

proof fn lemma_item_round_trip(s: Seq<u8>, p: int, m: PlayItemModel)
    requires
        has_at(s, p, enc_item(m)),
        valid_item(m),
    ensures
        item_at(s, p) == Some((m, p + enc_item(m).len())),
{
    let head = enc_item_head(m);
    let angles = enc_angles(m);
    let stn = enc_block16(enc_stn_body(m.stn_table));
    let body = head + angles + stn;
    let n = body.len();
    assert(enc_item(m) == enc16((n % 0x1_0000) as u16) + body) by {
        reveal(enc_item);
    }
    lemma_enc16_len((n % 0x1_0000) as u16);
    lemma_has_at_concat(s, p, enc16((n % 0x1_0000) as u16), body);
    lemma_has_at_16(s, p, (n % 0x1_0000) as u16);
    lemma_has_at_bounds(s, p, enc_item(m));
    lemma_item_len(m);
    lemma_has_at_concat(s, p + 2, head + angles, stn);
    lemma_has_at_concat(s, p + 2, head, angles);
    lemma_item_head(s, p + 2, m);
    lemma_angles_round_trip(s, p + 34, m);
    lemma_stn_round_trip(s, p + 34 + angles.len(), m.stn_table);
}

proof fn lemma_item_list(s: Seq<u8>, p: int, xs: Seq<PlayItemModel>)
    requires
        has_at(s, p, enc_list(item_enc(), xs)),
        forall|i: int| 0 <= i < xs.len() ==> valid_item(#[trigger] xs[i]),
    ensures
        list_at(item_reader(s), p, xs.len()) == Some((xs, p + enc_list(item_enc(), xs).len())),
{
    assert forall|i: int, q: int|
        0 <= i < xs.len() && #[trigger] has_at(s, q, item_enc()(xs[i])) implies item_reader(s)(q)
        == Some((xs[i], q + item_enc()(xs[i]).len())) by {
        lemma_item_round_trip(s, q, xs[i]);
    }
    lemma_list_round_trip(s, item_reader(s), item_enc(), p, xs);
}

proof fn lemma_sub_path_list(s: Seq<u8>, p: int, xs: Seq<SubPath>)
    requires
        has_at(s, p, enc_list(sub_path_enc(), xs)),
        forall|i: int| 0 <= i < xs.len() ==> (#[trigger] xs[i]).num_sub_play_items < 256,
    ensures
        list_at(sub_path_reader(s), p, xs.len()) == Some(
            (xs, p + enc_list(sub_path_enc(), xs).len()),
        ),
{
    assert forall|i: int, q: int|
        0 <= i < xs.len() && #[trigger] has_at(s, q, sub_path_enc()(xs[i])) implies sub_path_reader(
        s,
    )(q) == Some((xs[i], q + sub_path_enc()(xs[i]).len())) by {
        broadcast use group_has_at;

        assert(has_at(s, q, enc_sub_path(xs[i])));
    }
    lemma_list_round_trip(s, sub_path_reader(s), sub_path_enc(), p, xs);
}

proof fn lemma_mark_list(s: Seq<u8>, p: int, xs: Seq<PlayListMark>)
    requires
        has_at(s, p, enc_list(mark_enc(), xs)),
    ensures
        list_at(mark_reader(s), p, xs.len()) == Some((xs, p + enc_list(mark_enc(), xs).len())),
{
    assert forall|i: int, q: int|
        0 <= i < xs.len() && #[trigger] has_at(s, q, mark_enc()(xs[i])) implies mark_reader(s)(q)
        == Some((xs[i], q + mark_enc()(xs[i]).len())) by {
        broadcast use group_has_at;

        assert(has_at(s, q, enc_mark(xs[i])));
    }
    lemma_list_round_trip(s, mark_reader(s), mark_enc(), p, xs);
}

/// Where the parts of the PlayList block stand.
proof fn lemma_play_list_layout(
    s: Seq<u8>,
    p: int,
    len: u32,
    n: u16,
    k: u16,
    a: Seq<u8>,
    b: Seq<u8>,
)
    requires
        has_at(s, p, enc32(len) + (zeros(2) + enc16(n) + enc16(k) + a + b)),
    ensures
        p + 10 + a.len() + b.len() <= s.len(),
        be32(s, p) == len,
        be16(s, p + 6) == n,
        be16(s, p + 8) == k,
        has_at(s, p + 10, a),
        has_at(s, p + 10 + a.len(), b),
        (zeros(2) + enc16(n) + enc16(k) + a + b).len() == 6 + a.len() + b.len(),
{
    broadcast use group_has_at;

}

proof fn lemma_play_list_round_trip(
    s: Seq<u8>,
    p: int,
    items: Seq<PlayItemModel>,
    subs: Seq<SubPath>,
)
    requires
        has_at(s, p, enc_play_list(items, subs)),
        enc_play_list(items, subs).len() < 0x1_0000_0000,
        items.len() < 0x1_0000,
        forall|i: int| 0 <= i < items.len() ==> valid_item(#[trigger] items[i]),
        subs.len() < 0x1_0000,
        forall|i: int| 0 <= i < subs.len() ==> (#[trigger] subs[i]).num_sub_play_items < 256,
    ensures
        play_list_at(s, p) == Some((items, subs)),
{
    let a = enc_list(item_enc(), items);
    let b = enc_list(sub_path_enc(), subs);
    let n = items.len() as u16;
    let k = subs.len() as u16;
    let body = zeros(2) + enc16(n) + enc16(k) + a + b;
    assert(enc_play_list(items, subs) == enc32((body.len() % 0x1_0000_0000) as u32) + body) by {
        reveal(enc_play_list);
    }
    lemma_play_list_layout(s, p, (body.len() % 0x1_0000_0000) as u32, n, k, a, b);
    lemma_item_list(s, p + 10, items);
    lemma_sub_path_list(s, p + 10 + a.len(), subs);
}

proof fn lemma_marks_round_trip(s: Seq<u8>, p: int, marks: Seq<PlayListMark>)
    requires
        p > 0,
        has_at(s, p, enc_marks(marks)),
        marks.len() < 0x1_0000,
    ensures
        marks_at(s, p) == Some(marks),
        enc_marks(marks).len() >= 6,
{
    let list = enc_list(mark_enc(), marks);
    let n = marks.len() as u16;
    assert(enc_marks(marks) == enc32(((enc16(n) + list).len() % 0x1_0000_0000) as u32) + (enc16(n)
        + list)) by {
        reveal(enc_marks);
    }
    assert(has_at(s, p + 6, list) && be16(s, p + 4) == n && p + 6 <= s.len() && enc_marks(
        marks,
    ).len() >= 6) by {
        broadcast use group_has_at;

    }
    lemma_mark_list(s, p + 6, marks);
}

proof fn lemma_app_info_round_trip(s: Seq<u8>, x: AppInfoPlayList)
    requires
        has_at(s, 40, enc_app_info(x)),
        x.random_access_flag < 2,
        x.audio_mix_app_flag < 2,
        x.lossless_may_bypass_mixer_flag < 2,
    ensures
        app_info_of(s) == Some(x),
        enc_app_info(x).len() == 18,
{
    broadcast use group_has_at;

    reveal(enc_app_info);
}

/// Where the parts of a file stand.
proof fn lemma_playlist_layout(
    s: Seq<u8>,
    version: [u8; 4],
    a: u32,
    info: Seq<u8>,
    list: Seq<u8>,
    marks: Seq<u8>,
)
    requires
        s == enc_array4([0x4Du8, 0x50, 0x4C, 0x53]) + enc_array4(version) + enc32(58) + enc32(a)
            + zeros(24) + info + list + marks,
    ensures
        array4_at(s, 0) == [0x4Du8, 0x50, 0x4C, 0x53],
        array4_at(s, 4) == version,
        be32(s, 8) == 58,
        be32(s, 12) == a,
        has_at(s, 40, info),
        has_at(s, 40int + info.len(), list),
        has_at(s, 40int + info.len() + list.len(), marks),
        s.len() == 40 + info.len() + list.len() + marks.len(),
{
    broadcast use group_has_at;

    lemma_has_at_self(s);
}

/// Every part of a playlist lies where a 32-bit address can reach it.
pub proof fn lemma_playlist_len(m: PlayListModel)
    requires
        valid_playlist(m),
    ensures
        enc_playlist(m).len() < 0x1_0000_0000,
{
    broadcast use {
        lemma_zeros_len,
        lemma_enc8_len,
        lemma_enc16_len,
        lemma_enc32_len,
        lemma_enc64_len,
        lemma_enc_array4_len,
    };

    reveal(enc_app_info);
    reveal(enc_play_list);
    reveal(enc_marks);
    assert forall|i: int| 0 <= i < m.play_items.len() implies (#[trigger] item_enc()(
        m.play_items[i],
    )).len() <= 32_000 by {
        lemma_item_len(m.play_items[i]);
    }
    lemma_enc_list_bound(item_enc(), m.play_items, 32_000);
    lemma_enc_list_len(sub_path_enc(), m.sub_paths, 10);
    lemma_enc_list_len(mark_enc(), m.marks, 14);
}

/// Reading a written `.mpls` file gives back what was written.
pub proof fn lemma_playlist_round_trip(m: PlayListModel)
    requires
        valid_playlist(m),
    ensures
        playlist_of(enc_playlist(m)) == Some(m),
{
    let s = enc_playlist(m);
    let info = enc_app_info(m.app_info);
    let list = enc_play_list(m.play_items, m.sub_paths);
    let marks = enc_marks(m.marks);
    lemma_playlist_len(m);
    lemma_playlist_layout(
        s,
        m.version,
        ((58 + list.len()) % 0x1_0000_0000) as u32,
        info,
        list,
        marks,
    );
    lemma_app_info_round_trip(s, m.app_info);
    lemma_play_list_round_trip(s, 58, m.play_items, m.sub_paths);
    lemma_marks_round_trip(s, 58int + list.len(), m.marks);
}

} // verus!
