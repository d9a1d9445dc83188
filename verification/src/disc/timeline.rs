//! The time axis of a title: the segments that its clips make of it, the
//! places where the angle may change, and where a seek lands.
use vstd::prelude::*;
use vstd::string::*;
use vstd::utf8::encode_utf8;

use crate::bdmv::chapters::{items_fit, lemma_total_bound, lemma_total_push, total_ticks};
use crate::bdmv::mpls::{ConnectionCondition, PlayItemModel};
use crate::disc::clips::{
    angle_entries, clip_models, lemma_stream_monotone, lemma_stream_push, points_of, seek_clip,
    seek_index, stream_bytes, video_entries, ClipFilesModel, ClipSeekInfo, SeekClip,
    MAX_TITLE_BYTES,
};
use crate::sorting::{in_time, lemma_by_time};

verus! {

// ---------------------------------------------------------------------
// Clips in line
// ---------------------------------------------------------------------

/// Where the bytes behind the `k`-th clip begin.
pub open spec fn byte_after(clips: Seq<SeekClip>, k: int, total: u64) -> u64 {
    if k + 1 < clips.len() {
        clips[k + 1].output_start
    } else {
        total
    }
}

/// Where the time behind the `k`-th clip begins.
pub open spec fn time_after(clips: Seq<SeekClip>, k: int, duration: u64) -> u64 {
    if k + 1 < clips.len() {
        clips[k + 1].title_pts_start
    } else {
        duration
    }
}

impl SeekClip {
    /// Length of the window; an inverted window is empty.
    pub open spec fn window(self) -> int {
        if self.out_pts_90k >= self.in_pts_90k {
            self.out_pts_90k - self.in_pts_90k
        } else {
            0
        }
    }

    /// Whether the places on the clip's own axis are those of a PlayItem,
    /// and the entry points are in order.
    pub open spec fn valid(self) -> bool {
        &&& self.in_pts_90k <= 0x1_FFFF_FFFE
        &&& self.out_pts_90k <= 0x1_FFFF_FFFE
        &&& in_time(self.entry_points)
        &&& in_time(self.angle_change_eps)
    }
}

/// Whether clips follow each other without gaps, in bytes and in time, from
/// zero to the given ends.
pub open spec fn in_line(clips: Seq<SeekClip>, total: u64, duration: u64) -> bool {
    &&& total <= MAX_TITLE_BYTES
    &&& duration <= 0x8000_0000_0000_0000
    &&& if clips.len() == 0 {
        total == 0 && duration == 0
    } else {
        clips[0].output_start == 0 && clips[0].title_pts_start == 0
    }
    &&& forall|k: int|
        0 <= k < clips.len() ==> {
            &&& (#[trigger] clips[k]).valid()
            &&& clips[k].output_start + clips[k].packet_count * 188 == byte_after(clips, k, total)
            &&& clips[k].title_pts_start + clips[k].window() == time_after(clips, k, duration)
        }
}

/// The clips of a title follow each other without gaps.
pub proof fn lemma_seek_index_in_line(
    items: Seq<PlayItemModel>,
    angle: u8,
    files: Seq<ClipFilesModel>,
)
    requires
        items_fit(items),
        files.len() == items.len(),
        stream_bytes(files) <= MAX_TITLE_BYTES,
    ensures
        in_line(
            seek_index(items, angle, files),
            stream_bytes(files) as u64,
            total_ticks(items) as u64,
        ),
{
    let clips = seek_index(items, angle, files);
    let total = stream_bytes(files) as u64;
    let duration = total_ticks(items) as u64;
    assert(files.take(0) =~= Seq::empty());
    assert(items.take(0) =~= Seq::empty());
    assert(files.take(files.len() as int) =~= files);
    assert(items.take(items.len() as int) =~= items);
    lemma_stream_monotone(files, 0, files.len() as int);
    lemma_total_bound(items);
    if items.len() == 0 {
        assert(files =~= Seq::empty());
        assert(items =~= Seq::empty());
    }
    assert forall|k: int| 0 <= k < clips.len() implies {
        &&& (#[trigger] clips[k]).valid()
        &&& clips[k].output_start + clips[k].packet_count * 188 == byte_after(clips, k, total)
        &&& clips[k].title_pts_start + clips[k].window() == time_after(clips, k, duration)
    } by {
        assert(clips[k] == seek_clip(items, angle, files, k));
        lemma_stream_push(files, k);
        lemma_stream_monotone(files, 0, k);
        lemma_stream_monotone(files, k + 1, files.len() as int);
        lemma_total_push(items, k);
        lemma_total_bound(items.take(k));
        lemma_total_bound(items.take(k + 1));
        lemma_by_time(
            points_of(video_entries(files[k].clip())),
        );
        lemma_by_time(
            points_of(
                angle_entries(
                    video_entries(files[k].clip()),
                ),
            ),
        );
        if k + 1 < clips.len() {
            assert(clips[k + 1] == seek_clip(items, angle, files, k + 1));
        }
    }
}

/// Clips in line begin one behind the other, all within the title.
pub proof fn lemma_starts_monotone(
    clips: Seq<SeekClip>,
    total: u64,
    duration: u64,
    i: int,
    j: int,
)
    requires
        in_line(clips, total, duration),
        0 <= i <= j < clips.len(),
    ensures
        clips[i].output_start <= clips[j].output_start <= total,
        clips[i].title_pts_start <= clips[j].title_pts_start <= duration,
    decreases clips.len() - i,
{
    if i == j {
        if j + 1 < clips.len() {
            lemma_starts_monotone(clips, total, duration, j + 1, j + 1);
        }
    } else {
        lemma_starts_monotone(clips, total, duration, i + 1, j);
    }
}

/// Whether the starts of clips leave room to add any place within a clip.
pub open spec fn starts_fit(clips: Seq<SeekClip>) -> bool {
    forall|k: int|
        0 <= k < clips.len() ==> (#[trigger] clips[k]).output_start <= MAX_TITLE_BYTES
            && clips[k].title_pts_start <= 0x8000_0000_0000_0000
}

/// The starts of clips in line leave room.
pub proof fn lemma_starts_fit(clips: Seq<SeekClip>, total: u64, duration: u64)
    requires
        in_line(clips, total, duration),
    ensures
        starts_fit(clips),
{
    assert forall|k: int| 0 <= k < clips.len() implies (#[trigger] clips[k]).output_start
        <= MAX_TITLE_BYTES && clips[k].title_pts_start <= 0x8000_0000_0000_0000 by {
        lemma_starts_monotone(clips, total, duration, k, k);
    }
}

// ---------------------------------------------------------------------
// Segments
// ---------------------------------------------------------------------

/// The part of a title that one PlayItem makes, for putting the time stamps
/// of its clip onto the title's time axis: a time stamp `t` in the bytes of
/// the segment stands for `title_pts_start + (t - clip_in_pts_90k)`.
#[derive(Debug, Clone, Copy, PartialEq, Eq)]
pub struct PtsContinuitySegment {
    /// 0-based.
    pub play_item_index: u16,
    /// Stem of the clip's file names.
    pub clip_stem: [u8; 5],
    pub output_byte_start: u64,
    /// Exclusive.
    pub output_byte_end: u64,
    pub title_pts_start: u64,
    pub title_pts_end: u64,
    pub clip_in_pts_90k: u64,
    pub clip_out_pts_90k: u64,
    /// Where the clip's STC sequence begins, 0 where that is not known.
    pub stc_origin_pts_90k: u64,
    pub stc_id_ref: u8,
    /// How the segment continues the one before it; the first one is not
    /// seamless.
    pub connection_condition: ConnectionCondition,
}

/// One of the first five bytes of a stem, zero where the stem is shorter.
pub open spec fn stem_byte(stem: Seq<char>, i: int) -> u8 {
    if i < encode_utf8(stem).len() {
        encode_utf8(stem)[i]
    } else {
        0
    }
}

/// The first five bytes of a stem.
pub open spec fn stem_array(stem: Seq<char>) -> [u8; 5] {
    [
        stem_byte(stem, 0),
        stem_byte(stem, 1),
        stem_byte(stem, 2),
        stem_byte(stem, 3),
        stem_byte(stem, 4),
    ]
}

fn byte_or_zero(bytes: &[u8], i: usize) -> (r: u8)
    ensures
        r == if i < bytes@.len() {
            bytes@[i as int]
        } else {
            0
        },
{
    if i < bytes.len() {
        bytes[i]
    } else {
        0
    }
}

/// The first five bytes of a stem.
pub fn stem_bytes(stem: &String) -> (r: [u8; 5])
    ensures
        r == stem_array(stem@),
{
    let bytes = stem.as_str().as_bytes();
    [
        byte_or_zero(bytes, 0),
        byte_or_zero(bytes, 1),
        byte_or_zero(bytes, 2),
        byte_or_zero(bytes, 3),
        byte_or_zero(bytes, 4),
    ]
}

/// The segment of the `k`-th clip.
pub open spec fn segment_of(
    clips: Seq<SeekClip>,
    total: u64,
    duration: u64,
    k: int,
) -> PtsContinuitySegment {
    PtsContinuitySegment {
        play_item_index: k as u16,
        clip_stem: stem_array(clips[k].stem),
        output_byte_start: clips[k].output_start,
        output_byte_end: byte_after(clips, k, total),
        title_pts_start: clips[k].title_pts_start,
        title_pts_end: time_after(clips, k, duration),
        clip_in_pts_90k: clips[k].in_pts_90k,
        clip_out_pts_90k: clips[k].out_pts_90k,
        stc_origin_pts_90k: clips[k].stc_origin_pts_90k,
        stc_id_ref: clips[k].stc_id_ref,
        connection_condition: if k == 0 {
            ConnectionCondition::NonSeamless
        } else {
            clips[k].connection_condition
        },
    }
}

/// The segments of a title, one for each PlayItem.
pub open spec fn segments_of(
    clips: Seq<SeekClip>,
    total: u64,
    duration: u64,
) -> Seq<PtsContinuitySegment> {
    Seq::new(clips.len(), |k: int| segment_of(clips, total, duration, k))
}

/// List the segments of a title.
pub fn list_segments(clips: &Vec<ClipSeekInfo>, output_total: u64, title_duration_90k: u64) -> (r:
    Vec<PtsContinuitySegment>)
    ensures
        r@ == segments_of(clip_models(clips@), output_total, title_duration_90k),
{
    let ghost models = clip_models(clips@);
    let mut r: Vec<PtsContinuitySegment> = Vec::new();
    let total: usize = clips.len();
    let mut i: usize = 0;
    while i < total
        invariant
            i <= total,
            total == clips@.len(),
            models == clip_models(clips@),
            r@ =~= segments_of(models, output_total, title_duration_90k).take(i as int),
        decreases total - i,
    {
        let c = &clips[i];
        let (byte_end, pts_end): (u64, u64) = if i + 1 < total {
            (clips[i + 1].output_start, clips[i + 1].title_pts_start)
        } else {
            (output_total, title_duration_90k)
        };
        let seg = PtsContinuitySegment {
            play_item_index: i as u16,
            clip_stem: stem_bytes(&c.stem),
            output_byte_start: c.output_start,
            output_byte_end: byte_end,
            title_pts_start: c.title_pts_start,
            title_pts_end: pts_end,
            clip_in_pts_90k: c.in_pts_90k,
            clip_out_pts_90k: c.out_pts_90k,
            stc_origin_pts_90k: c.stc_origin_pts_90k,
            stc_id_ref: c.stc_id_ref,
            connection_condition: if i == 0 {
                ConnectionCondition::NonSeamless
            } else {
                c.connection_condition
            },
        };
        assert(seg == segment_of(models, output_total, title_duration_90k, i as int));
        r.push(seg);
        i += 1;
    }
    assert(r@ =~= segments_of(models, output_total, title_duration_90k));
    r
}

/// The segments of a title lie end to end, in bytes and in time: the first
/// one begins at zero, each ends where the next one begins, the last one ends
/// with the title, and none ends before it begins. Where a window is not
/// inverted, it is as long on the clip's axis as on the title's.
pub proof fn lemma_segments_end_to_end(clips: Seq<SeekClip>, total: u64, duration: u64)
    requires
        in_line(clips, total, duration),
    ensures
        ({
            let segs = segments_of(clips, total, duration);
            &&& segs.len() == clips.len()
            &&& segs.len() > 0 ==> segs[0].output_byte_start == 0 && segs[0].title_pts_start == 0
                && segs.last().output_byte_end == total && segs.last().title_pts_end == duration
                && segs[0].connection_condition is NonSeamless
            &&& forall|k: int|
                0 <= k < segs.len() ==> {
                    &&& (#[trigger] segs[k]).output_byte_start <= segs[k].output_byte_end
                    &&& segs[k].title_pts_start <= segs[k].title_pts_end
                    &&& segs[k].clip_in_pts_90k <= segs[k].clip_out_pts_90k
                        ==> segs[k].title_pts_end - segs[k].title_pts_start
                        == segs[k].clip_out_pts_90k - segs[k].clip_in_pts_90k
                }
            &&& forall|k: int, n: int|
                0 <= k < segs.len() && n == k + 1 && n < segs.len() ==> (
                #[trigger] segs[k]).output_byte_end == (#[trigger] segs[n]).output_byte_start
                    && segs[k].title_pts_end == segs[n].title_pts_start
        }),
{
    let segs = segments_of(clips, total, duration);
    assert forall|k: int| 0 <= k < segs.len() implies {
        &&& (#[trigger] segs[k]).output_byte_start <= segs[k].output_byte_end
        &&& segs[k].title_pts_start <= segs[k].title_pts_end
        &&& segs[k].clip_in_pts_90k <= segs[k].clip_out_pts_90k ==> segs[k].title_pts_end
            - segs[k].title_pts_start == segs[k].clip_out_pts_90k - segs[k].clip_in_pts_90k
    } by {
        assert(clips[k].valid());
    }
}

// ---------------------------------------------------------------------
// From a byte of the stream to the title's time axis
// ---------------------------------------------------------------------

/// The last clip that begins at or before a byte.
pub open spec fn clip_at_byte(clips: Seq<SeekClip>, byte: u64) -> Option<int>
    decreases clips.len(),
{
    if clips.len() == 0 {
        None
    } else if clips.last().output_start <= byte {
        Some(clips.len() - 1)
    } else {
        clip_at_byte(clips.drop_last(), byte)
    }
}

/// The time on the title's axis that a time stamp of a clip stands for, by
/// the segment in which its byte lies. There is none for a byte behind the
/// last segment, nor for a time before the PlayItem's window.
pub open spec fn title_time(clips: Seq<SeekClip>, total: u64, byte: u64, clip_pts: u64) -> Option<
    int,
> {
    if byte >= total {
        None
    } else {
        match clip_at_byte(clips, byte) {
            Some(k) => if clip_pts < clips[k].in_pts_90k {
                None
            } else {
                Some(clips[k].title_pts_start + (clip_pts - clips[k].in_pts_90k))
            },
            None => None,
        }
    }
}

/// The last clip that begins at or before a byte.
pub fn find_clip_at_byte(clips: &Vec<ClipSeekInfo>, byte: u64) -> (r: Option<usize>)
    ensures
        match r {
            Some(k) => k < clips@.len() && clip_at_byte(clip_models(clips@), byte) == Some(
                k as int,
            ),
            None => clip_at_byte(clip_models(clips@), byte) is None,
        },
{
    let ghost models = clip_models(clips@);
    let mut i: usize = clips.len();
    assert(models.take(i as int) =~= models);
    while i > 0
        invariant
            i <= clips@.len(),
            models == clip_models(clips@),
            clip_at_byte(models, byte) == clip_at_byte(models.take(i as int), byte),
        decreases i,
    {
        i -= 1;
        proof {
            assert(models.take(i + 1).last() == clips@[i as int]@);
            assert(models.take(i + 1).drop_last() =~= models.take(i as int));
        }
        if clips[i].output_start <= byte {
            return Some(i);
        }
    }
    None
}

/// The time on the title's axis that a time stamp of a clip stands for.
pub fn map_to_title(clips: &Vec<ClipSeekInfo>, output_total: u64, byte: u64, clip_pts: u64) -> (r:
    Option<u64>)
    requires
        title_time(clip_models(clips@), output_total, byte, clip_pts) matches Some(t) ==> t
            <= u64::MAX,
    ensures
        match r {
            Some(t) => title_time(clip_models(clips@), output_total, byte, clip_pts) == Some(
                t as int,
            ),
            None => title_time(clip_models(clips@), output_total, byte, clip_pts) is None,
        },
{
    if byte >= output_total {
        return None;
    }
    match find_clip_at_byte(clips, byte) {
        Some(k) => {
            let c = &clips[k];
            assert(clip_models(clips@)[k as int] == c@);
            if clip_pts < c.in_pts_90k {
                None
            } else {
                Some(c.title_pts_start + (clip_pts - c.in_pts_90k))
            }
        },
        None => None,
    }
}

/// Every byte of a title lies in one segment, and a time stamp in the window
/// of that segment falls between the segment's start and its end.
pub proof fn lemma_byte_has_segment(
    clips: Seq<SeekClip>,
    total: u64,
    duration: u64,
    byte: u64,
    clip_pts: u64,
)
    requires
        in_line(clips, total, duration),
        byte < total,
    ensures
        clip_at_byte(clips, byte) matches Some(k) && 0 <= k < clips.len()
            && clips[k].output_start <= byte < byte_after(clips, k, total) && (
        clips[k].in_pts_90k <= clip_pts <= clips[k].out_pts_90k ==> (title_time(
            clips,
            total,
            byte,
            clip_pts,
        ) matches Some(t) && clips[k].title_pts_start <= t <= time_after(clips, k, duration))),
{
    lemma_clip_at_byte(clips, byte);
    let k = clip_at_byte(clips, byte)->0;
    assert(clips[k].valid());
}

/// The last clip that begins at or before a byte.
pub proof fn lemma_clip_at_byte(clips: Seq<SeekClip>, byte: u64)
    requires
        clips.len() > 0,
        clips[0].output_start == 0,
    ensures
        clip_at_byte(clips, byte) matches Some(k) && 0 <= k < clips.len()
            && clips[k].output_start <= byte && (k + 1 < clips.len() ==> clips[k
            + 1].output_start > byte),
    decreases clips.len(),
{
    if clips.last().output_start > byte {
        lemma_clip_at_byte(clips.drop_last(), byte);
    }
}

} // verus!
