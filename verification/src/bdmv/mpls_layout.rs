//! Where the fields of a playlist lie.
//!
//! The laws speak of the bytes of an `.mpls` file as a disc carries it: what is
//! read from a file that can be read, and which files can be read.
use vstd::prelude::*;
use vstd::utf8::{decode_utf8, encode_utf8, valid_utf8};

use crate::bdmv::common::{
    array4_at, be16, be32, be64, lemma_list_by_steps, lemma_list_in_steps, lemma_list_of_steps,
    lemma_stepped, list_at, stepped,
};
use crate::bdmv::layout::{lemma_four, lemma_n16, lemma_n32, lemma_n64, lemma_numbers, n16, n32};
use crate::bdmv::mpls::{
    AngleClipModel, ConnectionCondition, PlayItemModel, PlayListMark, PlayListModel, StnTableModel,
    StreamCodingType, SubPath,
};
use crate::bdmv::mpls_read::{
    angle_at, angle_reader, angles_at, audio_at, audio_reader, graphics_at, graphics_reader,
    ig_reader, item_at, item_reader, mark_reader, marks_at, pip_reader, playlist_of,
    secondary_audio_reader, secondary_video_reader, stn_at, stn_streams_at, sub_path_reader,
    video_at, video_reader,
};

verus! {

// ---------------------------------------------------------------------
// Streams
// ---------------------------------------------------------------------

/// Where the attributes of the stream at `p` lie: behind its entry, which
/// begins with its length.
pub open spec fn attributes_of(s: Seq<u8>, p: int) -> int {
    p + 1 + s[p]
}

/// Where the next stream lies: behind the attributes, which begin with their
/// length.
pub open spec fn next_stream(s: Seq<u8>) -> spec_fn(int) -> int {
    |p: int| attributes_of(s, p) + 1 + s[attributes_of(s, p)]
}

/// Whether a stream at `p` lies within the file.
pub open spec fn stream_fits(s: Seq<u8>) -> spec_fn(int) -> bool {
    |p: int|
        p + 1 <= s.len() && attributes_of(s, p) + 1 <= s.len() && attributes_of(s, p) + 1
            + s[attributes_of(s, p)] <= s.len()
}

/// The number of the stream at `p`: the third and fourth byte of an entry of
/// type 1, else 0.
pub open spec fn stream_pid(s: Seq<u8>, p: int) -> int {
    if s[p] >= 3 && s[p + 1] == 1 {
        s[p + 2] * 0x100 + s[p + 3]
    } else {
        0
    }
}

/// Byte `k` of the attributes of the stream at `p`, or 0 where there are fewer.
pub open spec fn stream_byte(s: Seq<u8>, p: int, k: int) -> u8 {
    if k < s[attributes_of(s, p)] {
        s[attributes_of(s, p) + 1 + k]
    } else {
        0
    }
}

/// The language from byte `k` of the attributes on, or zeros where it is not
/// there in full.
pub open spec fn stream_language(s: Seq<u8>, p: int, k: int) -> Seq<u8> {
    if k + 2 < s[attributes_of(s, p)] {
        seq![stream_byte(s, p, k), stream_byte(s, p, k + 1), stream_byte(s, p, k + 2)]
    } else {
        seq![0u8, 0u8, 0u8]
    }
}

/// What a video stream at `p` says: how it is coded, the format and the rate in
/// the two halves of the second byte, the aspect in the upper half of the third.
pub open spec fn video_says(
    s: Seq<u8>,
    p: int,
    pid: u16,
    coding: StreamCodingType,
    format: u8,
    rate: u8,
    aspect: u8,
) -> bool {
    &&& pid == stream_pid(s, p)
    &&& coding == StreamCodingType::of_raw(stream_byte(s, p, 0))
    &&& format == stream_byte(s, p, 1) / 16
    &&& rate == stream_byte(s, p, 1) % 16
    &&& aspect == stream_byte(s, p, 2) / 16
}

/// What an audio stream at `p` says: how it is coded, the format and the rate
/// in the two halves of the second byte, the language behind it.
pub open spec fn audio_says(
    s: Seq<u8>,
    p: int,
    pid: u16,
    coding: StreamCodingType,
    format: u8,
    rate: u8,
    language: Seq<u8>,
) -> bool {
    &&& pid == stream_pid(s, p)
    &&& coding == StreamCodingType::of_raw(stream_byte(s, p, 0))
    &&& format == stream_byte(s, p, 1) / 16
    &&& rate == stream_byte(s, p, 1) % 16
    &&& language == stream_language(s, p, 2)
}

/// What a graphics stream at `p` says: how it is coded, and the language.
pub open spec fn graphics_says(
    s: Seq<u8>,
    p: int,
    pid: u16,
    coding: StreamCodingType,
    language: Seq<u8>,
) -> bool {
    &&& pid == stream_pid(s, p)
    &&& coding == StreamCodingType::of_raw(stream_byte(s, p, 0))
    &&& language == stream_language(s, p, 1)
}

proof fn lemma_stream(s: Seq<u8>, p: int)
    requires
        0 <= p,
    ensures
        next_stream(s)(p) >= p,
        video_at(s, p) is Some <==> stream_fits(s)(p),
        audio_at(s, p) is Some <==> stream_fits(s)(p),
        graphics_at(s, p) is Some <==> stream_fits(s)(p),
        video_at(s, p) matches Some((v, q)) ==> q == next_stream(s)(p) && video_says(
            s,
            p,
            v.elementary_pid,
            v.coding_type,
            v.video_format,
            v.frame_rate,
            v.aspect_ratio,
        ),
        audio_at(s, p) matches Some((a, q)) ==> q == next_stream(s)(p) && audio_says(
            s,
            p,
            a.elementary_pid,
            a.coding_type,
            a.audio_format,
            a.sample_rate,
            a.language_code@,
        ),
        graphics_at(s, p) matches Some((g, q)) ==> q == next_stream(s)(p) && graphics_says(
            s,
            p,
            g.elementary_pid,
            g.coding_type,
            g.language_code@,
        ),
{
    lemma_numbers(s, p + 2);
    let q = attributes_of(s, p);
    lemma_numbers(s, q + 2);
    lemma_numbers(s, q + 3);
    let none = [0u8, 0, 0];
    assert(none@ =~= seq![0u8, 0u8, 0u8]);
}

/// What a stream table at `p` says. Behind its length and two bytes stand the
/// numbers of its streams: of video, of audio, of subtitles, of menus, of
/// secondary audio and video, of picture-in-picture subtitles. Five bytes on,
/// the streams follow in that order, one behind the other. A table of fewer
/// than 14 bytes has none.
#[verifier::opaque]
pub open spec fn stn_says(s: Seq<u8>, p: int, t: StnTableModel) -> bool {
    let short = s[p] == 0 && s[p + 1] < 14;
    let count = |k: int|
        if short {
            0int
        } else {
            s[p + 4 + k] as int
        };
    let place = |i: int| stepped(next_stream(s), p + 16, i);
    let audio = count(0);
    let pg = audio + count(1);
    let ig = pg + count(2);
    let audio2 = ig + count(3);
    let video2 = audio2 + count(4);
    let pip = video2 + count(5);
    &&& t.primary_video.len() == count(0)
    &&& t.primary_audio.len() == count(1)
    &&& t.pg_subtitles.len() == count(2)
    &&& t.ig_streams.len() == count(3)
    &&& t.secondary_audio.len() == count(4)
    &&& t.secondary_video.len() == count(5)
    &&& t.pip_pg.len() == count(6)
    &&& forall|i: int|
        0 <= i < t.primary_video.len() ==> {
            let v = #[trigger] t.primary_video[i];
            video_says(
                s,
                place(i),
                v.elementary_pid,
                v.coding_type,
                v.video_format,
                v.frame_rate,
                v.aspect_ratio,
            )
        }
    &&& forall|i: int|
        0 <= i < t.primary_audio.len() ==> {
            let a = #[trigger] t.primary_audio[i];
            audio_says(
                s,
                place(audio + i),
                a.elementary_pid,
                a.coding_type,
                a.audio_format,
                a.sample_rate,
                a.language_code@,
            )
        }
    &&& forall|i: int|
        0 <= i < t.pg_subtitles.len() ==> {
            let g = #[trigger] t.pg_subtitles[i];
            graphics_says(s, place(pg + i), g.elementary_pid, g.coding_type, g.language_code@)
        }
    &&& forall|i: int|
        0 <= i < t.ig_streams.len() ==> {
            let g = #[trigger] t.ig_streams[i];
            graphics_says(s, place(ig + i), g.elementary_pid, g.coding_type, g.language_code@)
        }
    &&& forall|i: int|
        0 <= i < t.secondary_audio.len() ==> {
            let a = #[trigger] t.secondary_audio[i];
            audio_says(
                s,
                place(audio2 + i),
                a.elementary_pid,
                a.coding_type,
                a.audio_format,
                a.sample_rate,
                a.language_code@,
            )
        }
    &&& forall|i: int|
        0 <= i < t.secondary_video.len() ==> {
            let v = #[trigger] t.secondary_video[i];
            video_says(
                s,
                place(video2 + i),
                v.elementary_pid,
                v.coding_type,
                v.video_format,
                v.frame_rate,
                v.aspect_ratio,
            )
        }
    &&& forall|i: int|
        0 <= i < t.pip_pg.len() ==> {
            let g = #[trigger] t.pip_pg[i];
            graphics_says(s, place(pip + i), g.elementary_pid, g.coding_type, g.language_code@)
        }
}

/// Whether a stream table at `p` lies within the file, with all its streams.
#[verifier::opaque]
pub open spec fn stn_fits(s: Seq<u8>, p: int) -> bool {
    let n = s[p + 4] + s[p + 5] + s[p + 6] + s[p + 7] + s[p + 8] + s[p + 9] + s[p + 10];
    &&& p + 2 <= s.len()
    &&& p + 2 + n16(s, p) <= s.len()
    &&& n16(s, p) >= 14 ==> forall|i: int|
        0 <= i < n ==> stream_fits(s)(#[trigger] stepped(next_stream(s), p + 16, i))
}

proof fn lemma_classes(s: Seq<u8>, p: int, a: int, n: nat)
    requires
        0 <= p,
        0 <= a,
    ensures
        ({
            let next = next_stream(s);
            let place = stepped(next, p, a);
            let fits = forall|i: int|
                a <= i < a + n ==> stream_fits(s)(#[trigger] stepped(next, p, i));
            &&& list_at(video_reader(s), place, n) is Some <==> fits
            &&& list_at(audio_reader(s), place, n) is Some <==> fits
            &&& list_at(graphics_reader(s), place, n) is Some <==> fits
            &&& list_at(ig_reader(s), place, n) is Some <==> fits
            &&& list_at(secondary_audio_reader(s), place, n) is Some <==> fits
            &&& list_at(secondary_video_reader(s), place, n) is Some <==> fits
            &&& list_at(pip_reader(s), place, n) is Some <==> fits
            &&& list_at(video_reader(s), place, n) matches Some((xs, end)) ==> xs.len() == n && end
                == stepped(next, p, a + n) && forall|i: int|
                0 <= i < n ==> video_reader(s)(stepped(next, p, a + i)) == Some(
                    (#[trigger] xs[i], stepped(next, p, a + i + 1)),
                )
            &&& list_at(audio_reader(s), place, n) matches Some((xs, end)) ==> xs.len() == n && end
                == stepped(next, p, a + n) && forall|i: int|
                0 <= i < n ==> audio_reader(s)(stepped(next, p, a + i)) == Some(
                    (#[trigger] xs[i], stepped(next, p, a + i + 1)),
                )
            &&& list_at(graphics_reader(s), place, n) matches Some((xs, end)) ==> xs.len() == n
                && end == stepped(next, p, a + n) && forall|i: int|
                0 <= i < n ==> graphics_reader(s)(stepped(next, p, a + i)) == Some(
                    (#[trigger] xs[i], stepped(next, p, a + i + 1)),
                )
            &&& list_at(ig_reader(s), place, n) matches Some((xs, end)) ==> xs.len() == n && end
                == stepped(next, p, a + n) && forall|i: int|
                0 <= i < n ==> ig_reader(s)(stepped(next, p, a + i)) == Some(
                    (#[trigger] xs[i], stepped(next, p, a + i + 1)),
                )
            &&& list_at(secondary_audio_reader(s), place, n) matches Some((xs, end)) ==> xs.len()
                == n && end == stepped(next, p, a + n) && forall|i: int|
                0 <= i < n ==> secondary_audio_reader(s)(stepped(next, p, a + i)) == Some(
                    (#[trigger] xs[i], stepped(next, p, a + i + 1)),
                )
            &&& list_at(secondary_video_reader(s), place, n) matches Some((xs, end)) ==> xs.len()
                == n && end == stepped(next, p, a + n) && forall|i: int|
                0 <= i < n ==> secondary_video_reader(s)(stepped(next, p, a + i)) == Some(
                    (#[trigger] xs[i], stepped(next, p, a + i + 1)),
                )
            &&& list_at(pip_reader(s), place, n) matches Some((xs, end)) ==> xs.len() == n && end
                == stepped(next, p, a + n) && forall|i: int|
                0 <= i < n ==> pip_reader(s)(stepped(next, p, a + i)) == Some(
                    (#[trigger] xs[i], stepped(next, p, a + i + 1)),
                )
        }),
{
    let next = next_stream(s);
    let good = stream_fits(s);
    assert forall|q: int| q >= p implies #[trigger] next(q) >= q by {
        lemma_stream(s, q);
    }
    assert forall|q: int| q >= p implies (#[trigger] video_reader(s)(q) is Some <==> good(q)) && (
    video_reader(s)(q) is Some ==> (video_reader(s)(q)->0).1 == next(q)) by {
        lemma_stream(s, q);
    }
    assert forall|q: int| q >= p implies (#[trigger] audio_reader(s)(q) is Some <==> good(q)) && (
    audio_reader(s)(q) is Some ==> (audio_reader(s)(q)->0).1 == next(q)) by {
        lemma_stream(s, q);
    }
    assert forall|q: int| q >= p implies (#[trigger] graphics_reader(s)(q) is Some <==> good(q)) && (
    graphics_reader(s)(q) is Some ==> (graphics_reader(s)(q)->0).1 == next(q)) by {
        lemma_stream(s, q);
    }
    assert forall|q: int| q >= p implies (#[trigger] ig_reader(s)(q) is Some <==> good(q)) && (
    ig_reader(s)(q) is Some ==> (ig_reader(s)(q)->0).1 == next(q)) by {
        lemma_stream(s, q);
    }
    assert forall|q: int| q >= p implies (#[trigger] secondary_audio_reader(s)(q) is Some <==> good(
        q,
    )) && (secondary_audio_reader(s)(q) is Some ==> (secondary_audio_reader(s)(q)->0).1 == next(
        q,
    )) by {
        lemma_stream(s, q);
    }
    assert forall|q: int| q >= p implies (#[trigger] secondary_video_reader(s)(q) is Some <==> good(
        q,
    )) && (secondary_video_reader(s)(q) is Some ==> (secondary_video_reader(s)(q)->0).1 == next(
        q,
    )) by {
        lemma_stream(s, q);
    }
    assert forall|q: int| q >= p implies (#[trigger] pip_reader(s)(q) is Some <==> good(q)) && (
    pip_reader(s)(q) is Some ==> (pip_reader(s)(q)->0).1 == next(q)) by {
        lemma_stream(s, q);
    }
    lemma_list_by_steps(video_reader(s), next, good, p, a, n);
    lemma_list_by_steps(audio_reader(s), next, good, p, a, n);
    lemma_list_by_steps(graphics_reader(s), next, good, p, a, n);
    lemma_list_by_steps(ig_reader(s), next, good, p, a, n);
    lemma_list_by_steps(secondary_audio_reader(s), next, good, p, a, n);
    lemma_list_by_steps(secondary_video_reader(s), next, good, p, a, n);
    lemma_list_by_steps(pip_reader(s), next, good, p, a, n);
}

/// Where the streams of each class begin, counted in streams.
spec fn class_starts(s: Seq<u8>, c: int) -> Seq<int> {
    let audio = s[c] as int;
    let pg = audio + s[c + 1];
    let ig = pg + s[c + 2];
    let audio2 = ig + s[c + 3];
    let video2 = audio2 + s[c + 4];
    let pip = video2 + s[c + 5];
    seq![0, audio, pg, ig, audio2, video2, pip, pip + s[c + 6]]
}

proof fn lemma_stn_fits(s: Seq<u8>, c: int, p: int)
    requires
        0 <= p,
    ensures
        stn_streams_at(s, c, p) is Some <==> forall|i: int|
            0 <= i < class_starts(s, c)[7] ==> stream_fits(s)(
                #[trigger] stepped(next_stream(s), p, i),
            ),
{
    let at = class_starts(s, c);
    lemma_classes(s, p, 0, s[c] as nat);
    lemma_classes(s, p, at[1], s[c + 1] as nat);
    lemma_classes(s, p, at[2], s[c + 2] as nat);
    lemma_classes(s, p, at[3], s[c + 3] as nat);
    lemma_classes(s, p, at[4], s[c + 4] as nat);
    lemma_classes(s, p, at[5], s[c + 5] as nat);
    lemma_classes(s, p, at[6], s[c + 6] as nat);
    assert(stepped(next_stream(s), p, 0) == p);
}

proof fn lemma_stn(s: Seq<u8>, p: int)
    requires
        0 <= p,
    ensures
        stn_at(s, p) is Some <==> stn_fits(s, p),
        stn_at(s, p) matches Some(t) ==> stn_says(s, p, t),
{
    reveal(stn_says);
    reveal(stn_fits);
    lemma_numbers(s, p);
    lemma_stn_fits(s, p + 4, p + 16);
    if stn_at(s, p) is Some && n16(s, p) >= 14 {
        lemma_stn_streams_say(s, p);
    }
}

#[verifier::spinoff_prover]
#[verifier::rlimit(80)]
proof fn lemma_stn_streams_say(s: Seq<u8>, p: int)
    requires
        0 <= p,
        n16(s, p) >= 14,
        stn_streams_at(s, p + 4, p + 16) is Some,
    ensures
        stn_says(s, p, stn_streams_at(s, p + 4, p + 16)->0),
{
    let t = stn_streams_at(s, p + 4, p + 16)->0;
    let c = p + 4;
    let b = p + 16;
    let at = class_starts(s, c);
    let next = next_stream(s);
    assert(stepped(next, b, 0) == b);
    lemma_classes(s, b, 0, s[c] as nat);
    lemma_classes(s, b, at[1], s[c + 1] as nat);
    lemma_classes(s, b, at[2], s[c + 2] as nat);
    lemma_classes(s, b, at[3], s[c + 3] as nat);
    lemma_classes(s, b, at[4], s[c + 4] as nat);
    lemma_classes(s, b, at[5], s[c + 5] as nat);
    lemma_classes(s, b, at[6], s[c + 6] as nat);
    assert forall|i: int| i >= 0 implies #[trigger] stepped(next, b, i) >= 0 by {
        assert forall|q: int| q >= b implies #[trigger] next(q) >= q by {
            lemma_stream(s, q);
        }
        lemma_stepped(next, b, i);
    }
    assert forall|i: int| 0 <= i < t.primary_video.len() implies {
        let v = #[trigger] t.primary_video[i];
        video_says(
            s,
            stepped(next, b, i),
            v.elementary_pid,
            v.coding_type,
            v.video_format,
            v.frame_rate,
            v.aspect_ratio,
        )
    } by {
        let q = stepped(next, b, 0 + i);
        assert(video_reader(s)(q) == Some((t.primary_video[i], stepped(next, b, 0 + i + 1))));
        lemma_stream(s, q);
    }
    assert forall|i: int| 0 <= i < t.primary_audio.len() implies {
        let a = #[trigger] t.primary_audio[i];
        audio_says(
            s,
            stepped(next, b, at[1] + i),
            a.elementary_pid,
            a.coding_type,
            a.audio_format,
            a.sample_rate,
            a.language_code@,
        )
    } by {
        let q = stepped(next, b, at[1] + i);
        assert(audio_reader(s)(q) == Some((t.primary_audio[i], stepped(next, b, at[1] + i + 1))));
        lemma_stream(s, q);
    }
    assert forall|i: int| 0 <= i < t.pg_subtitles.len() implies {
        let g = #[trigger] t.pg_subtitles[i];
        graphics_says(
            s,
            stepped(next, b, at[2] + i),
            g.elementary_pid,
            g.coding_type,
            g.language_code@,
        )
    } by {
        let q = stepped(next, b, at[2] + i);
        assert(graphics_reader(s)(q) == Some((t.pg_subtitles[i], stepped(next, b, at[2] + i + 1))));
        lemma_stream(s, q);
    }
    assert forall|i: int| 0 <= i < t.ig_streams.len() implies {
        let g = #[trigger] t.ig_streams[i];
        graphics_says(
            s,
            stepped(next, b, at[3] + i),
            g.elementary_pid,
            g.coding_type,
            g.language_code@,
        )
    } by {
        let q = stepped(next, b, at[3] + i);
        assert(ig_reader(s)(q) == Some((t.ig_streams[i], stepped(next, b, at[3] + i + 1))));
        lemma_stream(s, q);
    }
    assert forall|i: int| 0 <= i < t.secondary_audio.len() implies {
        let a = #[trigger] t.secondary_audio[i];
        audio_says(
            s,
            stepped(next, b, at[4] + i),
            a.elementary_pid,
            a.coding_type,
            a.audio_format,
            a.sample_rate,
            a.language_code@,
        )
    } by {
        let q = stepped(next, b, at[4] + i);
        assert(secondary_audio_reader(s)(q) == Some(
            (t.secondary_audio[i], stepped(next, b, at[4] + i + 1)),
        ));
        lemma_stream(s, q);
    }
    assert forall|i: int| 0 <= i < t.secondary_video.len() implies {
        let v = #[trigger] t.secondary_video[i];
        video_says(
            s,
            stepped(next, b, at[5] + i),
            v.elementary_pid,
            v.coding_type,
            v.video_format,
            v.frame_rate,
            v.aspect_ratio,
        )
    } by {
        let q = stepped(next, b, at[5] + i);
        assert(secondary_video_reader(s)(q) == Some(
            (t.secondary_video[i], stepped(next, b, at[5] + i + 1)),
        ));
        lemma_stream(s, q);
    }
    assert forall|i: int| 0 <= i < t.pip_pg.len() implies {
        let g = #[trigger] t.pip_pg[i];
        graphics_says(
            s,
            stepped(next, b, at[6] + i),
            g.elementary_pid,
            g.coding_type,
            g.language_code@,
        )
    } by {
        let q = stepped(next, b, at[6] + i);
        assert(pip_reader(s)(q) == Some((t.pip_pg[i], stepped(next, b, at[6] + i + 1))));
        lemma_stream(s, q);
    }
    assert(stn_says(s, p, t)) by {
        reveal(stn_says);
    }
}

// ---------------------------------------------------------------------
// PlayItems
// ---------------------------------------------------------------------

/// The five bytes at `p`.
pub open spec fn five_at(s: Seq<u8>, p: int) -> Seq<u8> {
    seq![s[p], s[p + 1], s[p + 2], s[p + 3], s[p + 4]]
}

/// What a further angle at `p` says: the name of its clip in five bytes, how it
/// is coded in four, its clock in one.
pub open spec fn angle_says(s: Seq<u8>, p: int, a: AngleClipModel) -> bool {
    &&& encode_utf8(a.clip_information_file_name) == five_at(s, p)
    &&& a.clip_codec_identifier@ == seq![s[p + 5], s[p + 6], s[p + 7], s[p + 8]]
    &&& a.stc_id_ref == s[p + 9]
}

/// Whether a PlayItem has several angles.
pub open spec fn has_angles(s: Seq<u8>, p: int) -> bool {
    (s[p + 12] / 16) % 2 == 1
}

/// How many further angles a PlayItem has: one less than it counts.
pub open spec fn further_angles(s: Seq<u8>, p: int) -> int {
    if has_angles(s, p) && s[p + 34] > 0 {
        s[p + 34] - 1
    } else {
        0
    }
}

/// Where the stream table of a PlayItem lies.
pub open spec fn table_of(s: Seq<u8>, p: int) -> int {
    if has_angles(s, p) {
        p + 36 + 11 * further_angles(s, p)
    } else {
        p + 34
    }
}

/// Where the next PlayItem lies: behind as many bytes as this one counts.
pub open spec fn next_item(s: Seq<u8>) -> spec_fn(int) -> int {
    |p: int| p + 2 + (s[p] * 0x100 + s[p + 1])
}

/// Whether a PlayItem at `p` lies within the file, with names that are text.
pub open spec fn item_fits(s: Seq<u8>) -> spec_fn(int) -> bool {
    |p: int|
        {
            &&& p + 34 <= s.len()
            &&& next_item(s)(p) <= s.len()
            &&& valid_utf8(s.subrange(p + 2, p + 7))
            &&& has_angles(s, p) ==> p + 36 <= s.len()
            &&& forall|i: int|
                0 <= i < further_angles(s, p) ==> {
                    let q = #[trigger] (p + 36 + i * 11);
                    q + 11 <= s.len() && valid_utf8(s.subrange(q, q + 5))
                }
            &&& stn_fits(s, table_of(s, p))
        }
}

/// What a PlayItem at `p` says: behind its length the name of its clip, how it
/// is coded, its connection to the one before, its clock, the times at which it
/// begins and ends, the operations it bars, whether it can be entered anywhere,
/// and how it stands still; then its further angles and its streams.
pub open spec fn item_says(s: Seq<u8>, p: int, m: PlayItemModel) -> bool {
    &&& encode_utf8(m.clip_information_file_name) == five_at(s, p + 2)
    &&& m.clip_codec_identifier@ == seq![s[p + 7], s[p + 8], s[p + 9], s[p + 10]]
    &&& m.connection_condition == ConnectionCondition::of_raw((s[p + 12] % 16) as u8)
    &&& m.stc_id_ref == s[p + 13]
    &&& m.in_time_ticks == n32(s, p + 14)
    &&& m.out_time_ticks == n32(s, p + 18)
    &&& m.flags.uo_mask == n32(s, p + 22) * 0x1_0000_0000 + n32(s, p + 26)
    &&& m.flags.random_access_flag == (s[p + 30] / 128 == 1)
    &&& m.flags.still_mode == s[p + 31]
    &&& m.flags.still_time == s[p + 32] * 0x100 + s[p + 33]
    &&& m.multi_clip_count == if has_angles(s, p) {
        s[p + 34]
    } else {
        1
    }
    &&& m.flags.angle_flags == if has_angles(s, p) {
        s[p + 35]
    } else {
        0
    }
    &&& m.angles.len() == further_angles(s, p)
    &&& forall|i: int|
        0 <= i < m.angles.len() ==> angle_says(s, p + 36 + 11 * i, #[trigger] m.angles[i])
    &&& stn_says(s, table_of(s, p), m.stn_table)
}

proof fn lemma_angle(s: Seq<u8>, p: int)
    requires
        0 <= p,
    ensures
        angle_at(s, p) is Some <==> p + 11 <= s.len() && valid_utf8(s.subrange(p, p + 5)),
        angle_at(s, p) matches Some((a, q)) ==> q == p + 11 && angle_says(s, p, a),
{
    lemma_numbers(s, p + 5);
    if p + 11 <= s.len() && valid_utf8(s.subrange(p, p + 5)) {
        assert(s.subrange(p, p + 5) =~= five_at(s, p));
        vstd::utf8::decode_utf8_encode_utf8(s.subrange(p, p + 5));
    }
}

proof fn lemma_angles(s: Seq<u8>, p: int)
    requires
        0 <= p,
        has_angles(s, p),
        p + 36 <= s.len(),
    ensures
        angles_at(s, p + 34, true) is Some <==> forall|i: int|
            0 <= i < further_angles(s, p) ==> {
                let q = #[trigger] (p + 36 + i * 11);
                q + 11 <= s.len() && valid_utf8(s.subrange(q, q + 5))
            },
        angles_at(s, p + 34, true) matches Some((count, flags, angles, q)) ==> {
            &&& count == s[p + 34]
            &&& flags == s[p + 35]
            &&& angles.len() == further_angles(s, p)
            &&& q == table_of(s, p)
            &&& forall|i: int|
                0 <= i < angles.len() ==> angle_says(s, p + 36 + 11 * i, #[trigger] angles[i])
        },
{
    let item = angle_reader(s);
    let n = further_angles(s, p) as nat;
    assert forall|q: int| q >= p + 36 && #[trigger] item(q) is Some implies (item(q)->0).1 == q
        + 11 by {
        lemma_angle(s, q);
    }
    lemma_list_in_steps(item, p + 36, n, 11);
    if list_at(item, p + 36, n) is Some {
        let (xs, end) = list_at(item, p + 36, n)->0;
        assert forall|i: int| 0 <= i < n implies {
            let q = #[trigger] (p + 36 + i * 11);
            q + 11 <= s.len() && valid_utf8(s.subrange(q, q + 5))
        } by {
            assert(item(p + 36 + i * 11) == Some((xs[i], p + 36 + i * 11 + 11)));
            lemma_angle(s, p + 36 + i * 11);
        }
        assert forall|i: int| 0 <= i < n implies angle_says(
            s,
            p + 36 + 11 * i,
            #[trigger] xs[i],
        ) by {
            assert(item(p + 36 + i * 11) == Some((xs[i], p + 36 + i * 11 + 11)));
            lemma_angle(s, p + 36 + i * 11);
        }
    }
    if forall|i: int|
        0 <= i < n ==> {
            let q = #[trigger] (p + 36 + i * 11);
            q + 11 <= s.len() && valid_utf8(s.subrange(q, q + 5))
        } {
        assert forall|i: int| 0 <= i < n implies #[trigger] item(p + 36 + i * 11) is Some by {
            lemma_angle(s, p + 36 + i * 11);
        }
        lemma_list_of_steps(item, p + 36, n, 11);
    }
}

proof fn lemma_item_words(s: Seq<u8>, p: int)
    requires
        0 <= p,
    ensures
        be16(s, p) == n16(s, p),
        (be16(s, p + 11) / 16) % 2 == 1 <==> has_angles(s, p),
        be16(s, p + 11) % 16 == s[p + 12] % 16,
        array4_at(s, p + 7)@ == seq![s[p + 7], s[p + 8], s[p + 9], s[p + 10]],
        be32(s, p + 14) == n32(s, p + 14),
        be32(s, p + 18) == n32(s, p + 18),
        be64(s, p + 22) == n32(s, p + 22) * 0x1_0000_0000 + n32(s, p + 26),
        be16(s, p + 32) == n16(s, p + 32),
{
    lemma_n16(s, p);
    lemma_n16(s, p + 11);
    lemma_four(s, p + 7);
    lemma_n32(s, p + 14);
    lemma_n32(s, p + 18);
    lemma_n64(s, p + 22);
    lemma_n16(s, p + 32);
}

proof fn lemma_item(s: Seq<u8>, p: int)
    requires
        0 <= p,
    ensures
        next_item(s)(p) >= p,
        item_at(s, p) is Some <==> item_fits(s)(p),
        item_at(s, p) matches Some((m, q)) ==> q == next_item(s)(p) && item_says(s, p, m),
{
    lemma_item_words(s, p);
    if p + 34 <= s.len() && valid_utf8(s.subrange(p + 2, p + 7)) {
        assert(s.subrange(p + 2, p + 7) =~= five_at(s, p + 2));
        vstd::utf8::decode_utf8_encode_utf8(s.subrange(p + 2, p + 7));
        lemma_stn(s, table_of(s, p));
        if has_angles(s, p) {
            if p + 36 <= s.len() {
                lemma_angles(s, p);
            }
        } else {
            assert(further_angles(s, p) == 0);
            assert(angles_at(s, p + 34, false) == Some(
                (1u8, 0u8, Seq::<AngleClipModel>::empty(), p + 34),
            ));
        }
    }
}

// ---------------------------------------------------------------------
// Whole files
// ---------------------------------------------------------------------

/// Where the next SubPath lies.
pub open spec fn next_sub_path(s: Seq<u8>) -> spec_fn(int) -> int {
    |p: int| p + 4 + n32(s, p)
}

/// Whether a SubPath at `p` lies within the file.
pub open spec fn sub_path_fits(s: Seq<u8>) -> spec_fn(int) -> bool {
    |p: int| p + 10 <= s.len() && next_sub_path(s)(p) <= s.len()
}

/// What a SubPath at `p` says.
pub open spec fn sub_path_says(s: Seq<u8>, p: int, x: SubPath) -> bool {
    &&& x.sub_path_type == s[p + 5]
    &&& x.is_repeat_subpath == (s[p + 7] % 2 == 1)
    &&& x.num_sub_play_items == s[p + 9]
}

/// What a mark at `p` says: its type in the second byte, the PlayItem it refers
/// to in the third and fourth, then its time, the stream it is for, and how long
/// it lasts.
pub open spec fn mark_says(s: Seq<u8>, p: int, x: PlayListMark) -> bool {
    &&& x.mark_type == s[p + 1]
    &&& x.ref_play_item_id == s[p + 2] * 0x100 + s[p + 3]
    &&& x.mark_time_ticks == n32(s, p + 4)
    &&& x.entry_es_pid == s[p + 8] * 0x100 + s[p + 9]
    &&& x.duration_ticks == n32(s, p + 10)
}

/// Where the PlayItems and SubPaths of a file lie: at the address in its bytes
/// 8 to 11.
pub open spec fn list_address(s: Seq<u8>) -> int {
    n32(s, 8)
}

/// Where the marks of a file lie: at the address in its bytes 12 to 15.
pub open spec fn mark_address(s: Seq<u8>) -> int {
    n32(s, 12)
}

/// Where PlayItem `i` of a file lies.
pub open spec fn item_place(s: Seq<u8>, i: int) -> int {
    stepped(next_item(s), list_address(s) + 10, i)
}

/// How many PlayItems a file counts.
pub open spec fn item_count(s: Seq<u8>) -> int {
    n16(s, list_address(s) + 6)
}

/// Where SubPath `i` of a file lies: the first behind the PlayItems.
pub open spec fn sub_path_place(s: Seq<u8>, i: int) -> int {
    stepped(next_sub_path(s), item_place(s, item_count(s)), i)
}

/// How many SubPaths a file counts.
pub open spec fn sub_path_count(s: Seq<u8>) -> int {
    n16(s, list_address(s) + 8)
}

/// How many marks a file has: none where their address is 0 or past the end.
pub open spec fn mark_count(s: Seq<u8>) -> int {
    if 0 < mark_address(s) < s.len() {
        n16(s, mark_address(s) + 4)
    } else {
        0
    }
}

proof fn lemma_sub_paths(s: Seq<u8>, p: int, n: nat)
    requires
        0 <= p,
    ensures
        list_at(sub_path_reader(s), p, n) is Some <==> forall|i: int|
            0 <= i < n ==> sub_path_fits(s)(#[trigger] stepped(next_sub_path(s), p, i)),
        list_at(sub_path_reader(s), p, n) matches Some((xs, _)) ==> xs.len() == n && forall|i: int|
            0 <= i < n ==> sub_path_says(s, stepped(next_sub_path(s), p, i), #[trigger] xs[i]),
{
    let item = sub_path_reader(s);
    let next = next_sub_path(s);
    let good = sub_path_fits(s);
    assert forall|q: int| q >= p implies (#[trigger] item(q) is Some <==> good(q)) && next(q) >= q
        && (item(q) matches Some((x, e)) ==> e == next(q) && sub_path_says(s, q, x)) by {
        lemma_numbers(s, q);
        lemma_numbers(s, q + 6);
    }
    assert forall|q: int| q >= p implies #[trigger] next(q) >= q by {}
    lemma_list_by_steps(item, next, good, p, 0, n);
    assert(stepped(next, p, 0) == p);
    if let Some((xs, _)) = list_at(item, p, n) {
        assert forall|i: int| 0 <= i < n implies sub_path_says(
            s,
            stepped(next, p, i),
            #[trigger] xs[i],
        ) by {
            lemma_stepped(next, p, i);
            assert(item(stepped(next, p, 0 + i)) == Some((xs[i], stepped(next, p, 0 + i + 1))));
        }
    }
}

proof fn lemma_items(s: Seq<u8>, p: int, n: nat)
    requires
        0 <= p,
    ensures
        list_at(item_reader(s), p, n) is Some <==> forall|i: int|
            0 <= i < n ==> item_fits(s)(#[trigger] stepped(next_item(s), p, i)),
        list_at(item_reader(s), p, n) matches Some((xs, end)) ==> end == stepped(
            next_item(s),
            p,
            n as int,
        ) && xs.len() == n && forall|i: int|
            0 <= i < n ==> item_says(s, stepped(next_item(s), p, i), #[trigger] xs[i]),
        stepped(next_item(s), p, n as int) >= 0,
{
    let item = item_reader(s);
    let next = next_item(s);
    let good = item_fits(s);
    assert forall|q: int| q >= p implies (#[trigger] item(q) is Some <==> good(q)) && (item(
        q,
    ) matches Some((x, e)) ==> e == next(q) && item_says(s, q, x)) by {
        lemma_item(s, q);
    }
    assert forall|q: int| q >= p implies #[trigger] next(q) >= q by {
        lemma_item(s, q);
    }
    lemma_stepped(next, p, n as int);
    lemma_list_by_steps(item, next, good, p, 0, n);
    assert(stepped(next, p, 0) == p);
    if let Some((xs, _)) = list_at(item, p, n) {
        assert forall|i: int| 0 <= i < n implies item_says(
            s,
            stepped(next, p, i),
            #[trigger] xs[i],
        ) by {
            lemma_stepped(next, p, i);
            assert(item(stepped(next, p, 0 + i)) == Some((xs[i], stepped(next, p, 0 + i + 1))));
        }
    }
}

proof fn lemma_marks(s: Seq<u8>, p: int)
    requires
        0 < p < s.len(),
    ensures
        marks_at(s, p) is Some <==> p + 6 <= s.len() && p + 6 + 14 * n16(s, p + 4) <= s.len(),
        marks_at(s, p) matches Some(xs) ==> xs.len() == n16(s, p + 4) && forall|i: int|
            0 <= i < xs.len() ==> mark_says(s, p + 6 + 14 * i, #[trigger] xs[i]),
{
    lemma_numbers(s, p + 4);
    let item = mark_reader(s);
    let n = be16(s, p + 4) as nat;
    lemma_list_in_steps(item, p + 6, n, 14);
    if list_at(item, p + 6, n) is Some {
        let (xs, _) = list_at(item, p + 6, n)->0;
        assert forall|i: int| 0 <= i < n implies mark_says(s, p + 6 + 14 * i, #[trigger] xs[i]) by {
            let q = p + 6 + i * 14;
            assert(item(q) == Some((xs[i], q + 14)));
            lemma_numbers(s, q + 2);
            lemma_numbers(s, q + 4);
            lemma_numbers(s, q + 8);
            lemma_numbers(s, q + 10);
        }
        if n > 0 {
            let q = p + 6 + (n - 1) * 14;
            assert(item(q) == Some((xs[n - 1], q + 14)));
        }
    }
    if p + 6 + 14 * n <= s.len() {
        lemma_list_of_steps(item, p + 6, n, 14);
    }
}

/// What is read from an `.mpls` file: the version at 4; the kind of playback at
/// 45, the count at 46, the operations that are barred at 48, three flags at 56;
/// the PlayItems and SubPaths, and the marks, from their addresses on.
pub proof fn lemma_playlist_fields(s: Seq<u8>, m: PlayListModel)
    requires
        playlist_of(s) == Some(m),
    ensures
        m.version@ == seq![s[4], s[5], s[6], s[7]],
        m.app_info.playback_type == s[45],
        m.app_info.playback_count == s[46] * 0x100 + s[47],
        m.app_info.uo_mask == n32(s, 48) * 0x1_0000_0000 + n32(s, 52),
        m.app_info.random_access_flag == s[56] / 128,
        m.app_info.audio_mix_app_flag == (s[56] / 64) % 2,
        m.app_info.lossless_may_bypass_mixer_flag == (s[56] / 32) % 2,
        m.play_items.len() == item_count(s),
        m.sub_paths.len() == sub_path_count(s),
        m.marks.len() == mark_count(s),
        forall|i: int|
            0 <= i < m.play_items.len() ==> item_says(s, item_place(s, i), #[trigger] m.play_items[i]),
        forall|i: int|
            0 <= i < m.sub_paths.len() ==> sub_path_says(
                s,
                sub_path_place(s, i),
                #[trigger] m.sub_paths[i],
            ),
        forall|i: int|
            0 <= i < m.marks.len() ==> mark_says(
                s,
                mark_address(s) + 6 + 14 * i,
                #[trigger] m.marks[i],
            ),
{
    lemma_numbers(s, 4);
    lemma_numbers(s, 8);
    lemma_numbers(s, 12);
    lemma_numbers(s, 46);
    lemma_numbers(s, 48);
    lemma_numbers(s, 52);
    let p = list_address(s);
    lemma_numbers(s, p + 6);
    lemma_numbers(s, p + 8);
    lemma_items(s, p + 10, be16(s, p + 6) as nat);
    lemma_sub_paths(s, item_place(s, item_count(s)), be16(s, p + 8) as nat);
    if 0 < mark_address(s) < s.len() {
        lemma_marks(s, mark_address(s));
    }
}

/// Which `.mpls` files can be read: those that begin with `MPLS` and whose
/// parts lie where the file says, each as long as it says.
pub proof fn lemma_playlist_readable(s: Seq<u8>)
    ensures
        playlist_of(s) is Some <==> {
            let p = list_address(s);
            let a = mark_address(s);
            &&& s.len() >= 58
            &&& s[0] == 0x4D && s[1] == 0x50 && s[2] == 0x4C && s[3] == 0x53
            &&& 14 <= n32(s, 40) <= s.len() - 44
            &&& p + 10 <= s.len()
            &&& p + 4 + n32(s, p) <= s.len()
            &&& forall|i: int|
                0 <= i < item_count(s) ==> item_fits(s)(
                    #[trigger] stepped(next_item(s), p + 10, i),
                )
            &&& forall|i: int|
                0 <= i < sub_path_count(s) ==> sub_path_fits(s)(
                    #[trigger] stepped(next_sub_path(s), item_place(s, item_count(s)), i),
                )
            &&& 0 < a < s.len() ==> a + 6 <= s.len() && a + 6 + 14 * n16(s, a + 4) <= s.len()
        },
{
    lemma_numbers(s, 0);
    lemma_numbers(s, 8);
    lemma_numbers(s, 12);
    lemma_numbers(s, 40);
    let p = list_address(s);
    lemma_numbers(s, p);
    lemma_numbers(s, p + 6);
    lemma_numbers(s, p + 8);
    let kind = [0x4Du8, 0x50, 0x4C, 0x53];
    assert(array4_at(s, 0) == kind <==> s[0] == 0x4D && s[1] == 0x50 && s[2] == 0x4C && s[3]
        == 0x53) by {
        let a = array4_at(s, 0);
        assert(a@[0] == s[0] && a@[1] == s[1] && a@[2] == s[2] && a@[3] == s[3]);
        assert(kind@[0] == 0x4D && kind@[1] == 0x50 && kind@[2] == 0x4C && kind@[3] == 0x53);
        if s[0] == 0x4D && s[1] == 0x50 && s[2] == 0x4C && s[3] == 0x53 {
            assert(a =~= kind);
        }
    }
    lemma_items(s, p + 10, be16(s, p + 6) as nat);
    lemma_sub_paths(s, item_place(s, item_count(s)), be16(s, p + 8) as nat);
    if 0 < mark_address(s) < s.len() {
        lemma_marks(s, mark_address(s));
    }
}

} // verus!
