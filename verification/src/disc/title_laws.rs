//! What the files of a disc mean for its titles: how long they are, where
//! their clips lie in time and in bytes, where their chapters begin, what they
//! play and which tracks they have.
use vstd::prelude::*;
use vstd::string::*;
use vstd::utf8::encode_utf8;

use crate::bdmv::chapters::{
    chapter_spans, chapter_start, chapters_of, items_fit, lemma_chapters_in_order,
    lemma_total_bound, marked_chapters, total_ticks,
};
use crate::bdmv::clpi::{primary_map, ClipModel, EpEntry, EpMapModel};
use crate::bdmv::index_bdmv::ObjectModel;
use crate::bdmv::layout::lemma_n32;
use crate::bdmv::mpls::{Chapter, PlayItemModel, PlayListMark, PlayListModel, StnTableModel};
use crate::bdmv::mpls_read::playlist_of;
use crate::bdmv::movie_object::{MovieObjectModel, NavCommand};
use crate::disc::angles::{
    angle_points, first_point_behind, first_point_from, points_in_clip, points_in_clips,
    AngleChangePoint,
};
use crate::disc::chapter_segments::{
    chapter_range, chosen, first_stray, range_len, request_for, ChapterSelector,
};
use crate::disc::clips::{
    angle_entries, lemma_stream_monotone, lemma_stream_push, points_of, seek_index, stc_origin,
    stream_bytes, video_entries, ClipFilesModel, EntryPoint, SeekClip, MAX_TITLE_BYTES,
};
use crate::disc::seeking::{
    clip_time, entry_at, entry_packet, landing_byte, landing_clip, lemma_clip_at_time,
};
use crate::disc::source::{
    common_angles, fewest_angles, lacking_angle, SeekOrigin, SeekStep, SourceModel,
};
use crate::disc::timeline::{
    clip_at_byte, in_line, lemma_clip_at_byte, lemma_starts_fit, lemma_starts_monotone, segments_of,
    title_time,
};
use crate::disc::titles::{
    first_played, has_playlist, is_longest, is_title, lemma_unique_titles, played_by,
    playlist_name, title_target, unique_among, TitleInfo, TitleKind, PLACEHOLDER_PLAYLIST,
};
use crate::disc::tracks::{
    all_entries, class_entries, codes_hold, first_listed, has_text, items_hold, items_listing,
    language_codes,
    language_of, lists_pid, of_kind, ListedModel, Track, TrackKind,
};
use crate::m2ts::stripped;
use crate::sorting::{by_time, in_time, lemma_by_time, Timed};
use crate::text::{dec_text, padded};
use crate::text_laws::{lemma_decimal, lemma_filled, spelled};

verus! {

// ---------------------------------------------------------------------
// Lengths
// ---------------------------------------------------------------------

/// A PlayItem lasts from its IN time to its OUT time, both on a clock of 45
/// kHz, in ticks of 90 kHz; one that ends before it begins does not last.
pub proof fn lemma_item_length(item: PlayItemModel)
    ensures
        item.out_time_ticks >= item.in_time_ticks ==> item.ticks() == 2 * item.out_time_ticks - 2
            * item.in_time_ticks,
        item.out_time_ticks < item.in_time_ticks ==> item.ticks() == 0,
        total_ticks(seq![item]) == item.ticks(),
        total_ticks(Seq::<PlayItemModel>::empty()) == 0,
{
    assert(seq![item].drop_last() =~= Seq::<PlayItemModel>::empty());
    reveal_with_fuel(total_ticks, 2);
}

/// PlayItems one behind the other last as long as they do on their own.
pub proof fn lemma_lengths_add(a: Seq<PlayItemModel>, b: Seq<PlayItemModel>)
    ensures
        total_ticks(a + b) == total_ticks(a) + total_ticks(b),
    decreases b.len(),
{
    if b.len() == 0 {
        assert(a + b =~= a);
    } else {
        assert((a + b).drop_last() =~= a + b.drop_last());
        lemma_lengths_add(a, b.drop_last());
    }
}

/// A clip has 188 bytes for each whole packet of 192 bytes in its file.
pub proof fn lemma_clip_bytes(f: ClipFilesModel)
    ensures
        f.m2ts_len is None ==> f.packets() == 0,
        f.m2ts_len matches Some(n) ==> f.packets() * 192 <= n < f.packets() * 192 + 192,
        stream_bytes(seq![f]) == f.packets() * 188,
{
    assert(seq![f].drop_last() =~= Seq::<ClipFilesModel>::empty());
    reveal_with_fuel(stream_bytes, 2);
}

/// Clips one behind the other have as many bytes as they have on their own.
pub proof fn lemma_bytes_add(a: Seq<ClipFilesModel>, b: Seq<ClipFilesModel>)
    ensures
        stream_bytes(a + b) == stream_bytes(a) + stream_bytes(b),
    decreases b.len(),
{
    if b.len() == 0 {
        assert(a + b =~= a);
    } else {
        assert((a + b).drop_last() =~= a + b.drop_last());
        lemma_bytes_add(a, b.drop_last());
    }
}

/// Of every packet of 192 bytes the first four are dropped and the others kept.
pub proof fn lemma_packets_stripped(s: Seq<u8>, n: int, j: int)
    requires
        0 <= n,
        192 * n + 192 <= s.len(),
        4 <= j < 192,
    ensures
        stripped(s)[188 * n + (j - 4)] == s[192 * n + j],
        188 * n + (j - 4) < stripped(s).len(),
        stripped(s).len() == s.len() / 192 * 188,
{
    let i = 188 * n + (j - 4);
    assert(i / 188 == n && i % 188 == j - 4);
    assert(s.len() / 192 >= n + 1);
}

// ---------------------------------------------------------------------
// Clips
// ---------------------------------------------------------------------

/// Clip `k` of a title begins where the clips before it end, in time and in
/// bytes; it is played from its IN time to its OUT time, both doubled.
pub proof fn lemma_clip_placed(
    items: Seq<PlayItemModel>,
    angle: u8,
    files: Seq<ClipFilesModel>,
    k: int,
)
    requires
        items_fit(items),
        files.len() == items.len(),
        stream_bytes(files) <= MAX_TITLE_BYTES,
        0 <= k < items.len(),
    ensures
        ({
            let c = seek_index(items, angle, files)[k];
            &&& seek_index(items, angle, files).len() == items.len()
            &&& c.title_pts_start == total_ticks(items.subrange(0, k))
            &&& c.output_start == stream_bytes(files.subrange(0, k))
            &&& c.packet_count == files[k].packets()
            &&& c.in_pts_90k == 2 * items[k].in_time_ticks
            &&& c.out_pts_90k == 2 * items[k].out_time_ticks
            &&& c.connection_condition == items[k].connection_condition
            &&& angle == 0 || angle > items[k].angles.len() ==> c.stem
                == items[k].clip_information_file_name && c.stc_id_ref == items[k].stc_id_ref
            &&& 1 <= angle <= items[k].angles.len() ==> c.stem == items[k].angles[angle
                - 1].clip_information_file_name && c.stc_id_ref == items[k].angles[angle
                - 1].stc_id_ref
        }),
{
    lemma_total_bound(items.take(k));
    lemma_stream_monotone(files, k, files.len() as int);
    lemma_stream_monotone(files, k, k + 1);
    lemma_stream_push(files, k);
    lemma_stream_monotone(files, k + 1, files.len() as int);
    assert(files.take(files.len() as int) =~= files);
    assert(items.take(k) =~= items.subrange(0, k));
    assert(files.take(k) =~= files.subrange(0, k));
}

/// Whether an entry point stands in a list.
pub open spec fn has_point(s: Seq<EntryPoint>, pts: u32, spn: u32) -> bool {
    exists|i: int| 0 <= i < s.len() && (#[trigger] s[i]).pts == pts && s[i].spn == spn
}

/// Whether an entry stands in a map.
pub open spec fn has_entry(s: Seq<EpEntry>, pts: u32, spn: u32, angle_only: bool) -> bool {
    exists|i: int|
        0 <= i < s.len() && (#[trigger] s[i]).pts_ep_start == pts && s[i].spn_ep_start == spn && (
        angle_only ==> s[i].is_angle_change_point)
}

/// Sorting by time keeps what there is.
pub proof fn lemma_sorted_has<T: Timed>(s: Seq<T>, x: T)
    ensures
        by_time(s).contains(x) <==> s.contains(x),
{
    broadcast use vstd::seq_lib::group_to_multiset_ensures;

    lemma_by_time(s);
    assert(by_time(s).to_multiset().count(x) == s.to_multiset().count(x));
}

proof fn lemma_sorted_points(entries: Seq<EpEntry>, pts: u32, spn: u32)
    ensures
        has_point(by_time(points_of(entries)), pts, spn) <==> has_entry(entries, pts, spn, false),
{
    let raw = points_of(entries);
    let sorted = by_time(raw);
    let p = EntryPoint { pts, spn };
    lemma_sorted_has(raw, p);
    if has_point(sorted, pts, spn) {
        assert(sorted.contains(p));
        let i = choose|i: int| 0 <= i < raw.len() && raw[i] == p;
        assert(raw.contains(p));
        assert(entries[i].pts_ep_start == pts);
    }
    if has_entry(entries, pts, spn, false) {
        let i = choose|i: int|
            0 <= i < entries.len() && (#[trigger] entries[i]).pts_ep_start == pts
                && entries[i].spn_ep_start == spn;
        assert(raw[i] == p);
        assert(raw.contains(p));
        assert(sorted.contains(p));
        let j = choose|j: int| 0 <= j < sorted.len() && sorted[j] == p;
        assert(sorted[j].pts == pts);
    }
}

proof fn lemma_angle_entries(entries: Seq<EpEntry>, pts: u32, spn: u32)
    ensures
        has_entry(angle_entries(entries), pts, spn, false) <==> has_entry(entries, pts, spn, true),
    decreases entries.len(),
{
    if entries.len() > 0 {
        let front = entries.drop_last();
        let last = entries.last();
        lemma_angle_entries(front, pts, spn);
        let kept = angle_entries(entries);
        let before = angle_entries(front);
        if has_entry(entries, pts, spn, true) {
            let i = choose|i: int|
                0 <= i < entries.len() && (#[trigger] entries[i]).pts_ep_start == pts
                    && entries[i].spn_ep_start == spn && entries[i].is_angle_change_point;
            if i < front.len() {
                assert(front[i] == entries[i]);
                let j = choose|j: int|
                    0 <= j < before.len() && (#[trigger] before[j]).pts_ep_start == pts
                        && before[j].spn_ep_start == spn;
                assert(kept[j] == before[j]);
            } else {
                assert(kept[before.len() as int] == last);
            }
        }
        if has_entry(kept, pts, spn, false) {
            let j = choose|j: int|
                0 <= j < kept.len() && (#[trigger] kept[j]).pts_ep_start == pts
                    && kept[j].spn_ep_start == spn;
            if j < before.len() {
                assert(before[j] == kept[j]);
                let i = choose|i: int|
                    0 <= i < front.len() && (#[trigger] front[i]).pts_ep_start == pts
                        && front[i].spn_ep_start == spn && front[i].is_angle_change_point;
                assert(entries[i] == front[i]);
            } else {
                assert(entries[front.len() as int] == last);
            }
        }
    }
}

/// The places where a clip can be entered are those of its primary video
/// stream, ordered by time, each with its own packet; those at which the angle
/// may change are those that say so.
pub proof fn lemma_clip_entered(
    items: Seq<PlayItemModel>,
    angle: u8,
    files: Seq<ClipFilesModel>,
    k: int,
    pts: u32,
    spn: u32,
)
    requires
        0 <= k < items.len(),
    ensures
        ({
            let c = seek_index(items, angle, files)[k];
            let entries = video_entries(files[k].clip());
            &&& in_time(c.entry_points)
            &&& in_time(c.angle_change_eps)
            &&& c.entry_points.len() == entries.len()
            &&& has_point(c.entry_points, pts, spn) <==> has_entry(entries, pts, spn, false)
            &&& has_point(c.angle_change_eps, pts, spn) <==> has_entry(entries, pts, spn, true)
        }),
{
    let entries = video_entries(files[k].clip());
    lemma_by_time(points_of(entries));
    lemma_by_time(points_of(angle_entries(entries)));
    lemma_sorted_points(entries, pts, spn);
    lemma_sorted_points(angle_entries(entries), pts, spn);
    lemma_angle_entries(entries, pts, spn);
}

/// Whether an entry-point map is one of a video stream.
pub open spec fn of_video(m: EpMapModel) -> bool {
    m.ep_stream_type == 1 || m.ep_stream_type == 5 || m.ep_stream_type == 6
}

/// Whether a map is the first of its kind and number.
pub open spec fn first_such(maps: Seq<EpMapModel>, m: EpMapModel) -> bool {
    exists|i: int|
        0 <= i < maps.len() && #[trigger] maps[i] == m && forall|j: int|
            0 <= j < i ==> (#[trigger] maps[j]).stream_pid != m.stream_pid || of_video(maps[j])
                != of_video(m)
}

/// The primary video stream of a clip is one of video, where there is one, and
/// has the lowest number of those; where there is none, it is the stream with
/// the lowest number. Of several with its number it is the first.
pub proof fn lemma_primary_video(maps: Seq<EpMapModel>)
    ensures
        maps.len() == 0 <==> primary_map(maps) is None,
        primary_map(maps) matches Some(best) ==> maps.contains(best) && forall|j: int|
            0 <= j < maps.len() ==> {
                &&& of_video(#[trigger] maps[j]) ==> of_video(best)
                &&& of_video(maps[j]) == of_video(best) ==> best.stream_pid <= maps[j].stream_pid
            },
        primary_map(maps) matches Some(best) ==> first_such(maps, best),
    decreases maps.len(),
{
    if maps.len() > 0 {
        let front = maps.drop_last();
        lemma_primary_video(front);
        let best = primary_map(maps)->0;
        if let Some(b) = primary_map(front) {
            assert(first_such(front, b));
            let i = choose|i: int|
                0 <= i < front.len() && #[trigger] front[i] == b && forall|j: int|
                    0 <= j < i ==> (#[trigger] front[j]).stream_pid != b.stream_pid || of_video(
                        front[j],
                    ) != of_video(b);
            assert(maps[i] == b);
            assert forall|j: int| 0 <= j < i implies (#[trigger] maps[j]).stream_pid != b.stream_pid
                || of_video(maps[j]) != of_video(b) by {
                assert(maps[j] == front[j]);
            }
            assert(first_such(maps, b));
        }
        assert(first_such(maps, best)) by {
            if primary_map(front) != Some(best) {
                let n = maps.len() - 1;
                assert(maps[n] == best);
                assert forall|j: int| 0 <= j < n implies (#[trigger] maps[j]).stream_pid
                    != best.stream_pid || of_video(maps[j]) != of_video(best) by {
                    assert(front[j] == maps[j]);
                }
            }
        }
        assert(maps[maps.len() - 1] == maps.last());
        assert forall|j: int| 0 <= j < maps.len() implies {
            &&& of_video(#[trigger] maps[j]) ==> of_video(best)
            &&& of_video(maps[j]) == of_video(best) ==> best.stream_pid <= maps[j].stream_pid
        } by {
            if j < front.len() {
                assert(front[j] == maps[j]);
            }
        }
    }
}

/// A clip's clock begins where the STC sequence begins that the PlayItem names,
/// in ticks of 90 kHz; at 0 where there is none.
pub proof fn lemma_clock_origin(c: ClipModel, id: u8)
    ensures
        c.atc_sequences.len() > 0 && id < c.atc_sequences[0].stc_sequences.len() ==> stc_origin(
            Some(c),
            id,
        ) == 2 * c.atc_sequences[0].stc_sequences[id as int].presentation_start_time,
        c.atc_sequences.len() == 0 || id >= c.atc_sequences[0].stc_sequences.len() ==> stc_origin(
            Some(c),
            id,
        ) == 0,
        stc_origin(None, id) == 0,
{
}

// ---------------------------------------------------------------------
// Times and bytes
// ---------------------------------------------------------------------

#[verifier::spinoff_prover]
#[verifier::rlimit(40)]
proof fn lemma_clip_there(clips: Seq<SeekClip>, total: u64, duration: u64, byte: u64, k: int)
    requires
        in_line(clips, total, duration),
        0 <= k < clips.len(),
        clips[k].output_start <= byte < clips[k].output_start + clips[k].packet_count * 188,
    ensures
        clip_at_byte(clips, byte) == Some(k),
        byte < total,
{
    lemma_starts_monotone(clips, total, duration, 0, k);
    lemma_clip_at_byte(clips, byte);
    let j = clip_at_byte(clips, byte)->0;
    if k + 1 < clips.len() {
        lemma_starts_monotone(clips, total, duration, k + 1, k + 1);
    }
    if j < k {
        lemma_starts_monotone(clips, total, duration, j + 1, k);
    } else if k < j {
        lemma_starts_monotone(clips, total, duration, k + 1, j);
    }
}

/// Time runs on the title as it runs on the clip: within one clip, a stamp that
/// lies behind another by some ticks lies behind it by as many on the title,
/// and the stamp at which the clip begins stands for its beginning there.
pub proof fn lemma_time_runs_alike(
    clips: Seq<SeekClip>,
    total: u64,
    duration: u64,
    byte: u64,
    k: int,
    t: u64,
)
    requires
        in_line(clips, total, duration),
        0 <= k < clips.len(),
        clips[k].output_start <= byte < clips[k].output_start + clips[k].packet_count * 188,
    ensures
        t >= clips[k].in_pts_90k ==> title_time(clips, total, byte, t) == Some(
            clips[k].title_pts_start + t - clips[k].in_pts_90k,
        ),
        t < clips[k].in_pts_90k ==> title_time(clips, total, byte, t) is None,
{
    lemma_clip_there(clips, total, duration, byte, k);
}

/// Behind the last clip there is no time.
pub proof fn lemma_no_time_behind(clips: Seq<SeekClip>, total: u64, byte: u64, t: u64)
    requires
        byte >= total,
    ensures
        title_time(clips, total, byte, t) is None,
{
}

/// A time of the title stands for a time of the clip that is played then, and
/// that time of the clip for it.
#[verifier::spinoff_prover]
#[verifier::rlimit(40)]
pub proof fn lemma_times_inverse(
    clips: Seq<SeekClip>,
    total: u64,
    duration: u64,
    pts: u64,
    byte: u64,
)
    requires
        in_line(clips, total, duration),
        clips.len() > 0,
        pts <= duration,
        ({
            let c = clips[landing_clip(clips, pts)];
            c.output_start <= byte < c.output_start + c.packet_count * 188
        }),
    ensures
        ({
            let c = clips[landing_clip(clips, pts)];
            let t = clip_time(c, pts);
            &&& c.in_pts_90k <= t <= u64::MAX
            &&& t - c.in_pts_90k == pts - c.title_pts_start
            &&& title_time(clips, total, byte, t as u64) == Some(pts as int)
        }),
{
    lemma_clip_at_time(clips, pts);
    let k = landing_clip(clips, pts);
    let c = clips[k];
    assert(c.valid());
    lemma_starts_monotone(clips, total, duration, k, k);
    lemma_time_runs_alike(clips, total, duration, byte, k, clip_time(c, pts) as u64);
}

/// A seek to the time of an entry point lands on its packet, where it is the
/// only one at that time and lies within the clip.
#[verifier::spinoff_prover]
#[verifier::rlimit(40)]
pub proof fn lemma_seek_to_entry(
    clips: Seq<SeekClip>,
    total: u64,
    duration: u64,
    k: int,
    i: int,
    pts: u64,
)
    requires
        in_line(clips, total, duration),
        0 <= k < clips.len(),
        0 <= i < clips[k].entry_points.len(),
        pts <= duration,
        pts >= clips[k].title_pts_start,
        k + 1 < clips.len() ==> pts < clips[k + 1].title_pts_start,
        pts - clips[k].title_pts_start == clips[k].entry_points[i].pts - clips[k].in_pts_90k,
        clips[k].entry_points[i].spn < clips[k].packet_count,
        forall|j: int|
            i < j < clips[k].entry_points.len() ==> (#[trigger] clips[k].entry_points[j]).pts
                > clips[k].entry_points[i].pts,
    ensures
        landing_byte(clips, duration, pts) == clips[k].output_start + 188
            * clips[k].entry_points[i].spn,
{
    lemma_clip_at_time(clips, pts);
    let l = landing_clip(clips, pts);
    lemma_starts_monotone(clips, total, duration, 0, k);
    if l < k {
        lemma_starts_monotone(clips, total, duration, l + 1, k);
    } else if k < l {
        lemma_starts_monotone(clips, total, duration, k + 1, l);
    }
    let eps = clips[k].entry_points;
    lemma_entry_there(eps, eps[i].pts as int, i);
}

proof fn lemma_entry_there(eps: Seq<EntryPoint>, t: int, i: int)
    requires
        0 <= i < eps.len(),
        eps[i].pts <= t,
        forall|j: int| i < j < eps.len() ==> (#[trigger] eps[j]).pts > t,
    ensures
        entry_at(eps, t) == Some(i),
    decreases eps.len(),
{
    if i < eps.len() - 1 {
        assert(eps[eps.len() - 1].pts > t);
        lemma_entry_there(eps.drop_last(), t, i);
    }
}

/// A seek to an entry point that lies behind the end of its clip lands on the
/// clip's last packet.
pub proof fn lemma_seek_clamped(clips: Seq<SeekClip>, duration: u64, pts: u64)
    requires
        clips.len() > 0,
        pts <= duration,
        ({
            let c = clips[landing_clip(clips, pts)];
            c.packet_count > 0 && entry_packet(c.entry_points, clip_time(c, pts)) >= c.packet_count
        }),
    ensures
        ({
            let c = clips[landing_clip(clips, pts)];
            landing_byte(clips, duration, pts) + 188 == c.output_start + 188 * c.packet_count
        }),
{
}

/// A seek to a time behind the end lands at the beginning of the last clip.
#[verifier::spinoff_prover]
#[verifier::rlimit(40)]
pub proof fn lemma_seek_behind_end(clips: Seq<SeekClip>, total: u64, duration: u64, pts: u64)
    requires
        in_line(clips, total, duration),
        clips.len() > 0,
        pts > duration,
    ensures
        landing_byte(clips, duration, pts) == clips.last().output_start,
{
    lemma_clip_at_time(clips, pts);
    let k = landing_clip(clips, pts);
    let n = clips.len() - 1;
    lemma_starts_monotone(clips, total, duration, 0, n);
    if k < n {
        lemma_starts_monotone(clips, total, duration, k + 1, k + 1);
    }
}

/// The segments of a title say of each clip what the title says of it.
pub proof fn lemma_segment_fields(clips: Seq<SeekClip>, total: u64, duration: u64, k: int)
    requires
        0 <= k < clips.len() <= 0x1_0000,
    ensures
        ({
            let g = segments_of(clips, total, duration)[k];
            &&& g.play_item_index == k
            &&& g.output_byte_start == clips[k].output_start
            &&& g.title_pts_start == clips[k].title_pts_start
            &&& g.clip_in_pts_90k == clips[k].in_pts_90k
            &&& g.clip_out_pts_90k == clips[k].out_pts_90k
            &&& g.stc_origin_pts_90k == clips[k].stc_origin_pts_90k
            &&& g.stc_id_ref == clips[k].stc_id_ref
            &&& k > 0 ==> g.connection_condition == clips[k].connection_condition
            &&& k == 0 ==> g.connection_condition is NonSeamless
            &&& forall|i: int|
                0 <= i < 5 && i < encode_utf8(clips[k].stem).len() ==> #[trigger] g.clip_stem@[i]
                    == encode_utf8(clips[k].stem)[i]
        }),
{
}

/// A seek names a place by its distance from the start, from the place where
/// the stream is, or from its end. What lies before the start is refused.
pub proof fn lemma_place_named(m: SourceModel, n: u64, d: i64)
    requires
        0 <= m.output_pos <= u64::MAX,
    ensures
        m.seek_target(SeekOrigin::Start(n)) == Some(n as int),
        m.output_pos + d < 0 ==> m.seek_target(SeekOrigin::Current(d)) is None,
        0 <= m.output_pos + d <= u64::MAX ==> m.seek_target(SeekOrigin::Current(d)) == Some(
            m.output_pos + d,
        ),
        m.output_total + d < 0 ==> m.seek_target(SeekOrigin::End(d)) is None,
        0 <= m.output_total + d <= u64::MAX ==> m.seek_target(SeekOrigin::End(d)) == Some(
            m.output_total + d,
        ),
{
}

/// A seek to the place where the stream is does nothing; one forward reads on;
/// one back opens the clip in which the byte lies. No seek reads past the end.
pub proof fn lemma_seek_steps(
    m: SourceModel,
    duration: u64,
    byte: u64,
    k: int,
)
    requires
        in_line(m.clips, m.output_total, duration),
        0 <= k < m.clips.len() <= 0x1_0000,
        m.clips[k].output_start <= byte < m.clips[k].output_start + m.clips[k].packet_count * 188,
    ensures
        byte == m.output_pos ==> m.seek_step(byte) is Stay,
        byte > m.output_pos ==> m.seek_step(byte) == (SeekStep::Forward { cap: byte }),
        byte < m.output_pos ==> m.seek_step(byte) == (SeekStep::Reopen {
            clip_idx: k as usize,
            cap: byte,
        }),
        forall|b: u64|
            b > m.output_pos && b > m.output_total ==> #[trigger] m.seek_step(b) == (
            SeekStep::Forward { cap: m.output_total }),
{
    lemma_clip_there(m.clips, m.output_total, duration, byte, k);
}

/// What a read does next: bytes that wait are delivered before the file is read
/// on, and nothing is delivered at the end of the stream.
pub proof fn lemma_read_steps(m: SourceModel, want: int)
    requires
        0 <= want,
    ensures
        m.step(want) is Deliver <==> want > 0 && m.output_pos < m.output_total && m.pending.len()
            > 0,
        m.step(want) is NextUnit <==> want > 0 && m.output_pos < m.output_total && m.pending.len()
            == 0 && m.is_open,
{
}

// ---------------------------------------------------------------------
// Chapters
// ---------------------------------------------------------------------

/// Whether a mark begins a chapter: an entry mark (type 1) within an item that
/// there is, not before its IN time.
pub open spec fn begins_chapter(items: Seq<PlayItemModel>, m: PlayListMark) -> bool {
    &&& m.mark_type == 1
    &&& m.ref_play_item_id < items.len()
    &&& items[m.ref_play_item_id as int].in_time_ticks <= m.mark_time_ticks
}

/// Where the chapter of a mark begins: behind the items before its own, as far
/// into its own as the mark lies behind the IN time, in ticks of 90 kHz.
pub open spec fn chapter_place(items: Seq<PlayItemModel>, m: PlayListMark) -> int {
    let k = m.ref_play_item_id as int;
    total_ticks(items.subrange(0, k)) + 2 * m.mark_time_ticks - 2 * items[k].in_time_ticks
}

/// How many marks begin chapters.
pub open spec fn chapter_count(items: Seq<PlayItemModel>, marks: Seq<PlayListMark>) -> nat
    decreases marks.len(),
{
    if marks.len() == 0 {
        0
    } else {
        chapter_count(items, marks.drop_last()) + if begins_chapter(items, marks.last()) {
            1nat
        } else {
            0nat
        }
    }
}

/// Whether a chapter is that of a mark.
pub open spec fn chapter_from(items: Seq<PlayItemModel>, m: PlayListMark, c: Chapter) -> bool {
    &&& begins_chapter(items, m)
    &&& c.start_pts_90k == chapter_place(items, m)
    &&& c.ref_play_item_id == m.ref_play_item_id
}

/// Whether a chapter is that of one of the marks.
pub open spec fn marked_by(items: Seq<PlayItemModel>, marks: Seq<PlayListMark>, c: Chapter) -> bool {
    exists|j: int| 0 <= j < marks.len() && #[trigger] chapter_from(items, marks[j], c)
}

/// Whether one of the chapters is that of a mark.
pub open spec fn among(items: Seq<PlayItemModel>, m: PlayListMark, chapters: Seq<Chapter>) -> bool {
    exists|i: int| 0 <= i < chapters.len() && #[trigger] chapter_from(items, m, chapters[i])
}

proof fn lemma_chapter_place(items: Seq<PlayItemModel>, m: PlayListMark)
    requires
        items_fit(items),
    ensures
        chapter_start(items, m) is Some <==> begins_chapter(items, m),
        chapter_start(items, m) matches Some(t) ==> t == chapter_place(items, m) && 0 <= t
            <= u64::MAX,
{
    let k = m.ref_play_item_id as int;
    if k < items.len() {
        assert(items.take(k) =~= items.subrange(0, k));
        lemma_total_bound(items.take(k));
    }
}

#[verifier::spinoff_prover]
#[verifier::rlimit(40)]
proof fn lemma_marked(items: Seq<PlayItemModel>, marks: Seq<PlayListMark>)
    requires
        items_fit(items),
    ensures
        marked_chapters(items, marks).len() == chapter_count(items, marks),
        forall|i: int|
            0 <= i < marked_chapters(items, marks).len() ==> marked_by(
                items,
                marks,
                #[trigger] marked_chapters(items, marks)[i],
            ),
        forall|j: int|
            0 <= j < marks.len() && begins_chapter(items, #[trigger] marks[j]) ==> among(
                items,
                marks[j],
                marked_chapters(items, marks),
            ),
    decreases marks.len(),
{
    if marks.len() > 0 {
        let front = marks.drop_last();
        let last = marks.last();
        lemma_marked(items, front);
        lemma_chapter_place(items, last);
        let before = marked_chapters(items, front);
        let all = marked_chapters(items, marks);
        assert forall|i: int| 0 <= i < all.len() implies marked_by(
            items,
            marks,
            #[trigger] all[i],
        ) by {
            if i < before.len() {
                assert(all[i] == before[i]);
                assert(marked_by(items, front, before[i]));
                let j = choose|j: int|
                    0 <= j < front.len() && #[trigger] chapter_from(items, front[j], before[i]);
                assert(marks[j] == front[j]);
                assert(chapter_from(items, marks[j], all[i]));
            } else {
                assert(chapter_from(items, marks[marks.len() - 1], all[i]));
            }
        }
        assert forall|j: int|
            0 <= j < marks.len() && begins_chapter(items, #[trigger] marks[j]) implies among(
            items,
            marks[j],
            all,
        ) by {
            if j < front.len() {
                assert(marks[j] == front[j]);
                assert(among(items, front[j], before));
                let i = choose|i: int|
                    0 <= i < before.len() && #[trigger] chapter_from(items, front[j], before[i]);
                assert(all[i] == before[i]);
                assert(chapter_from(items, marks[j], all[i]));
            } else {
                assert(chapter_from(items, marks[j], all[before.len() as int]));
            }
        }
    }
}

/// The chapters of a title are those that its entry marks begin, each at its
/// mark's place in the title; there is one for every such mark.
#[verifier::spinoff_prover]
#[verifier::rlimit(40)]
pub proof fn lemma_chapters_of_marks(m: PlayListModel)
    requires
        items_fit(m.play_items),
    ensures
        chapters_of(m.play_items, m.marks).len() == chapter_count(m.play_items, m.marks),
        forall|i: int|
            0 <= i < chapters_of(m.play_items, m.marks).len() ==> marked_by(
                m.play_items,
                m.marks,
                #[trigger] chapters_of(m.play_items, m.marks)[i],
            ),
        forall|j: int|
            0 <= j < m.marks.len() && begins_chapter(m.play_items, #[trigger] m.marks[j])
                ==> among(m.play_items, m.marks[j], chapters_of(m.play_items, m.marks)),
{
    let items = m.play_items;
    let raw = marked_chapters(items, m.marks);
    let sorted = by_time(raw);
    let all = chapters_of(items, m.marks);
    lemma_marked(items, m.marks);
    lemma_chapters_in_order(m);
    lemma_by_time(raw);
    assert forall|i: int| 0 <= i < all.len() implies marked_by(
        items,
        m.marks,
        #[trigger] all[i],
    ) by {
        lemma_sorted_has(raw, sorted[i]);
        assert(sorted.contains(sorted[i]));
        let l = choose|l: int| 0 <= l < raw.len() && raw[l] == sorted[i];
        assert(marked_by(items, m.marks, raw[l]));
        let j = choose|j: int|
            0 <= j < m.marks.len() && #[trigger] chapter_from(items, m.marks[j], raw[l]);
        assert(chapter_from(items, m.marks[j], all[i]));
    }
    assert forall|j: int|
        0 <= j < m.marks.len() && begins_chapter(items, #[trigger] m.marks[j]) implies among(
        items,
        m.marks[j],
        all,
    ) by {
        assert(among(items, m.marks[j], raw));
        let l = choose|l: int|
            0 <= l < raw.len() && #[trigger] chapter_from(items, m.marks[j], raw[l]);
        lemma_sorted_has(raw, raw[l]);
        assert(raw.contains(raw[l]));
        let i = choose|i: int| 0 <= i < sorted.len() && sorted[i] == raw[l];
        assert(chapter_from(items, m.marks[j], all[i]));
    }
}

/// Which chapters a choice names: all from 1 on; those from one to another, or
/// to the last; or those of a list, in its order. A choice that names a chapter
/// that there is not is refused.
pub proof fn lemma_chapters_chosen(selector: ChapterSelector, count: u32)
    ensures
        selector is All ==> chosen(selector, count) is Ok,
        selector is All ==> (chosen(selector, count) matches Ok(ids) ==> ids.len() == count
            && forall|i: int| 0 <= i < count ==> #[trigger] ids[i] == i + 1),
        selector matches ChapterSelector::Range { start, end } ==> {
            let last = match end {
                Some(e) => e,
                None => count,
            };
            &&& chosen(selector, count) is Ok <==> 1 <= start <= last <= count
            &&& chosen(selector, count) matches Ok(ids) ==> ids.len() == last - start + 1
                && forall|i: int| 0 <= i < ids.len() ==> #[trigger] ids[i] == start + i
        },
        selector matches ChapterSelector::List(v) ==> {
            &&& chosen(selector, count) is Ok <==> forall|i: int|
                0 <= i < v@.len() ==> 1 <= #[trigger] v@[i] <= count
            &&& chosen(selector, count) matches Ok(ids) ==> ids == v@
        },
{
    if let ChapterSelector::List(v) = selector {
        lemma_stray(v@, count);
    }
}

proof fn lemma_stray(ids: Seq<u32>, count: u32)
    ensures
        first_stray(ids, count) is None <==> forall|i: int|
            0 <= i < ids.len() ==> 1 <= #[trigger] ids[i] <= count,
    decreases ids.len(),
{
    if ids.len() > 0 {
        let front = ids.drop_last();
        lemma_stray(front, count);
        if forall|i: int| 0 <= i < ids.len() ==> 1 <= #[trigger] ids[i] <= count {
            assert(1 <= ids[ids.len() - 1] <= count);
            assert forall|i: int| 0 <= i < front.len() implies 1 <= #[trigger] front[i]
                <= count by {
                assert(front[i] == ids[i]);
            }
        }
        if first_stray(ids, count) is None {
            assert forall|i: int| 0 <= i < ids.len() implies 1 <= #[trigger] ids[i] <= count by {
                if i < front.len() {
                    assert(front[i] == ids[i]);
                }
            }
        }
    }
}

/// A chapter is asked for from its start to the start of the next one; the last
/// one to the end of the title.
pub proof fn lemma_chapter_requested(chapters: Seq<Chapter>, duration: u64, id: u32)
    requires
        1 <= id <= chapters.len(),
    ensures
        ({
            let r = request_for(chapters, duration, id);
            &&& r.chapter_id == id
            &&& r.start_pts_90k == chapters[id - 1].start_pts_90k
            &&& id < chapters.len() ==> r.end_pts_90k == chapters[id as int].start_pts_90k
                && !r.ends_at_title_end
            &&& id == chapters.len() ==> r.end_pts_90k == duration && r.ends_at_title_end
        }),
{
}

/// The spans of a title are its chapters: each with its number and its item,
/// and the last one up to the end of the title, where it begins before that.
pub proof fn lemma_span_fields(m: PlayListModel, i: int)
    requires
        items_fit(m.play_items),
        0 <= i < chapter_spans(m).len() <= 0xFFFF,
    ensures
        ({
            let x = chapter_spans(m)[i];
            let c = chapters_of(m.play_items, m.marks)[i];
            let last = i + 1 == chapter_spans(m).len();
            &&& x.index == i
            &&& c.index == i
            &&& x.ref_play_item_id == c.ref_play_item_id
            &&& last && total_ticks(m.play_items) >= c.start_pts_90k ==> x.end_pts_90k
                == total_ticks(m.play_items)
            &&& last && total_ticks(m.play_items) < c.start_pts_90k ==> x.end_pts_90k
                == c.start_pts_90k
        }),
{
    lemma_chapters_in_order(m);
    lemma_total_bound(m.play_items);
}

/// The bytes of a chapter begin where a seek to its start lands; they end where
/// a seek to the next one's start lands, those of the last one with the stream.
pub proof fn lemma_chapter_bytes(
    clips: Seq<SeekClip>,
    total: u64,
    duration: u64,
    chapters: Seq<Chapter>,
    id: u32,
)
    requires
        1 <= id <= chapters.len(),
    ensures
        ({
            let (from, to) = chapter_range(
                clips,
                total,
                duration,
                request_for(chapters, duration, id),
            );
            &&& from == landing_byte(clips, duration, chapters[id - 1].start_pts_90k)
            &&& id < chapters.len() ==> to == landing_byte(
                clips,
                duration,
                chapters[id as int].start_pts_90k,
            )
            &&& id == chapters.len() ==> to == total
            &&& from <= to ==> range_len((from, to)) == to - from
            &&& from > to ==> range_len((from, to)) == 0
        }),
{
}

// ---------------------------------------------------------------------
// Angles
// ---------------------------------------------------------------------

/// The next place where the angle may change lies at the time or the byte that
/// is asked for, or behind it, and no place in between.
pub proof fn lemma_next_place(points: Seq<AngleChangePoint>, at: u64, k: int, j: int)
    requires
        in_time(points),
        0 <= j < points.len(),
    ensures
        first_point_from(points, at, k) && points[j].title_pts_90k >= at ==> points[k].title_pts_90k
            <= points[j].title_pts_90k && k <= j,
        first_point_from(points, at, k) ==> points[k].title_pts_90k >= at,
        first_point_behind(points, at, k) && points[j].output_byte >= at ==> k <= j,
        first_point_behind(points, at, k) ==> points[k].output_byte >= at,
{
    if first_point_from(points, at, k) && points[j].title_pts_90k >= at {
        if k <= j {
            assert(points[k].time() <= points[j].time());
        }
    }
}

/// Whether a place is that of an entry point of clip `k`: as far behind the
/// start of the clip, in time and in bytes, as the entry point is.
pub open spec fn placed_from(c: SeekClip, k: int, ep: EntryPoint, p: AngleChangePoint) -> bool {
    &&& c.in_pts_90k <= ep.pts
    &&& p.play_item_index == k
    &&& p.title_pts_90k - c.title_pts_start == ep.pts - c.in_pts_90k
    &&& p.output_byte - c.output_start == 188 * ep.spn
    &&& p.clip_pts_90k == ep.pts
    &&& p.spn == ep.spn
}

/// Whether a place is that of some entry point of a clip.
pub open spec fn placed(clips: Seq<SeekClip>, p: AngleChangePoint) -> bool {
    exists|k: int, i: int| #[trigger] placed_at(clips, k, i, p)
}

/// Whether a place is that of entry point `i` of clip `k`.
pub open spec fn placed_at(clips: Seq<SeekClip>, k: int, i: int, p: AngleChangePoint) -> bool {
    &&& 0 <= k < clips.len()
    &&& 0 <= i < clips[k].angle_change_eps.len()
    &&& placed_from(clips[k], k, clips[k].angle_change_eps[i], p)
}

/// Whether a place is that of one of some entry points of clip `k`.
pub open spec fn placed_by(c: SeekClip, k: int, eps: Seq<EntryPoint>, p: AngleChangePoint) -> bool {
    exists|i: int| 0 <= i < eps.len() && #[trigger] placed_from(c, k, eps[i], p)
}

/// Whether one of the places is that of an entry point of clip `k`.
pub open spec fn place_among(
    c: SeekClip,
    k: int,
    ep: EntryPoint,
    points: Seq<AngleChangePoint>,
) -> bool {
    exists|j: int| 0 <= j < points.len() && #[trigger] placed_from(c, k, ep, points[j])
}

/// Whether one of the places is that of entry point `i` of clip `k`.
pub open spec fn entry_among(
    clips: Seq<SeekClip>,
    k: int,
    i: int,
    points: Seq<AngleChangePoint>,
) -> bool {
    exists|j: int| 0 <= j < points.len() && #[trigger] placed_at(clips, k, i, points[j])
}

#[verifier::spinoff_prover]
#[verifier::rlimit(40)]
proof fn lemma_points_of_clip(c: SeekClip, k: int, eps: Seq<EntryPoint>)
    requires
        0 <= k < 0x1_0000,
        c.output_start <= MAX_TITLE_BYTES,
        c.title_pts_start <= 0x8000_0000_0000_0000,
    ensures
        forall|j: int|
            0 <= j < points_in_clip(c, k, eps).len() ==> placed_by(
                c,
                k,
                eps,
                #[trigger] points_in_clip(c, k, eps)[j],
            ),
        forall|i: int|
            0 <= i < eps.len() && (#[trigger] eps[i]).pts >= c.in_pts_90k ==> place_among(
                c,
                k,
                eps[i],
                points_in_clip(c, k, eps),
            ),
    decreases eps.len(),
{
    if eps.len() > 0 {
        let front = eps.drop_last();
        lemma_points_of_clip(c, k, front);
        let before = points_in_clip(c, k, front);
        let all = points_in_clip(c, k, eps);
        let last = eps.last();
        assert forall|j: int| 0 <= j < all.len() implies placed_by(
            c,
            k,
            eps,
            #[trigger] all[j],
        ) by {
            if j < before.len() {
                assert(all[j] == before[j]);
                assert(placed_by(c, k, front, before[j]));
                let i = choose|i: int|
                    0 <= i < front.len() && #[trigger] placed_from(c, k, front[i], before[j]);
                assert(eps[i] == front[i]);
                assert(placed_from(c, k, eps[i], all[j]));
            } else {
                assert(placed_from(c, k, eps[eps.len() - 1], all[j]));
            }
        }
        assert forall|i: int|
            0 <= i < eps.len() && (#[trigger] eps[i]).pts >= c.in_pts_90k implies place_among(
            c,
            k,
            eps[i],
            all,
        ) by {
            if i < front.len() {
                assert(eps[i] == front[i]);
                assert(place_among(c, k, front[i], before));
                let j = choose|j: int|
                    0 <= j < before.len() && #[trigger] placed_from(c, k, front[i], before[j]);
                assert(all[j] == before[j]);
                assert(placed_from(c, k, eps[i], all[j]));
            } else {
                assert(placed_from(c, k, eps[i], all[before.len() as int]));
            }
        }
    }
}

#[verifier::spinoff_prover]
#[verifier::rlimit(40)]
proof fn lemma_points_of_clips(clips: Seq<SeekClip>)
    requires
        clips.len() <= 0x1_0000,
        forall|k: int|
            0 <= k < clips.len() ==> (#[trigger] clips[k]).output_start <= MAX_TITLE_BYTES
                && clips[k].title_pts_start <= 0x8000_0000_0000_0000,
    ensures
        forall|j: int|
            0 <= j < points_in_clips(clips).len() ==> placed(
                clips,
                #[trigger] points_in_clips(clips)[j],
            ),
        forall|k: int, i: int|
            0 <= k < clips.len() && 0 <= i < clips[k].angle_change_eps.len() && (
            #[trigger] clips[k].angle_change_eps[i]).pts >= clips[k].in_pts_90k ==> entry_among(
                clips,
                k,
                i,
                points_in_clips(clips),
            ),
    decreases clips.len(),
{
    if clips.len() > 0 {
        let front = clips.drop_last();
        let n = front.len() as int;
        let c = clips[n];
        assert forall|k: int| 0 <= k < front.len() implies (#[trigger] front[k]).output_start
            <= MAX_TITLE_BYTES && front[k].title_pts_start <= 0x8000_0000_0000_0000 by {
            assert(front[k] == clips[k]);
        }
        lemma_points_of_clips(front);
        assert(c.output_start <= MAX_TITLE_BYTES);
        lemma_points_of_clip(c, n, c.angle_change_eps);
        let before = points_in_clips(front);
        let here = points_in_clip(c, n, c.angle_change_eps);
        let all = points_in_clips(clips);
        assert(all == before + here);
        assert forall|j: int| 0 <= j < all.len() implies placed(clips, #[trigger] all[j]) by {
            if j < before.len() {
                assert(all[j] == before[j]);
                assert(placed(front, before[j]));
                let (k, i) = choose|k: int, i: int| #[trigger] placed_at(front, k, i, before[j]);
                assert(front[k] == clips[k]);
                assert(placed_at(clips, k, i, all[j]));
            } else {
                let l = j - before.len();
                assert(all[j] == here[l]);
                assert(placed_by(c, n, c.angle_change_eps, here[l]));
                let i = choose|i: int|
                    0 <= i < c.angle_change_eps.len() && #[trigger] placed_from(
                        c,
                        n,
                        c.angle_change_eps[i],
                        here[l],
                    );
                assert(placed_at(clips, n, i, all[j]));
            }
        }
        assert forall|k: int, i: int|
            0 <= k < clips.len() && 0 <= i < clips[k].angle_change_eps.len() && (
            #[trigger] clips[k].angle_change_eps[i]).pts >= clips[k].in_pts_90k implies entry_among(
            clips,
            k,
            i,
            all,
        ) by {
            if k < n {
                assert(front[k] == clips[k]);
                assert(front[k].angle_change_eps[i].pts >= front[k].in_pts_90k);
                assert(entry_among(front, k, i, before));
                let j = choose|j: int|
                    0 <= j < before.len() && #[trigger] placed_at(front, k, i, before[j]);
                assert(all[j] == before[j]);
                assert(placed_at(clips, k, i, all[j]));
            } else {
                let ep = c.angle_change_eps[i];
                assert(place_among(c, n, ep, here));
                let l = choose|l: int|
                    0 <= l < here.len() && #[trigger] placed_from(c, n, ep, here[l]);
                let j = before.len() + l;
                assert(all[j] == here[l]);
                assert(placed_at(clips, k, i, all[j]));
            }
        }
    }
}

/// The places where the angle may change are those of the entry points that say
/// so and that do not lie before the clip's IN time; each lies on the title as
/// far behind the clip's start as the entry point does on the clip.
#[verifier::spinoff_prover]
#[verifier::rlimit(40)]
pub proof fn lemma_angle_places(clips: Seq<SeekClip>, total: u64, duration: u64)
    requires
        in_line(clips, total, duration),
        clips.len() <= 0x1_0000,
    ensures
        in_time(angle_points(clips)),
        forall|j: int|
            0 <= j < angle_points(clips).len() ==> placed(clips, #[trigger] angle_points(clips)[j]),
        forall|k: int, i: int|
            0 <= k < clips.len() && 0 <= i < clips[k].angle_change_eps.len() && (
            #[trigger] clips[k].angle_change_eps[i]).pts >= clips[k].in_pts_90k ==> entry_among(
                clips,
                k,
                i,
                angle_points(clips),
            ),
{
    lemma_starts_fit(clips, total, duration);
    lemma_points_of_clips(clips);
    let raw = points_in_clips(clips);
    let sorted = angle_points(clips);
    lemma_by_time(raw);
    assert forall|j: int| 0 <= j < sorted.len() implies placed(clips, #[trigger] sorted[j]) by {
        lemma_sorted_has(raw, sorted[j]);
        assert(sorted.contains(sorted[j]));
        let l = choose|l: int| 0 <= l < raw.len() && raw[l] == sorted[j];
        assert(placed(clips, raw[l]));
    }
    assert forall|k: int, i: int|
        0 <= k < clips.len() && 0 <= i < clips[k].angle_change_eps.len() && (
        #[trigger] clips[k].angle_change_eps[i]).pts >= clips[k].in_pts_90k implies entry_among(
        clips,
        k,
        i,
        sorted,
    ) by {
        assert(entry_among(clips, k, i, raw));
        let l = choose|l: int| 0 <= l < raw.len() && #[trigger] placed_at(clips, k, i, raw[l]);
        lemma_sorted_has(raw, raw[l]);
        assert(raw.contains(raw[l]));
        let j = choose|j: int| 0 <= j < sorted.len() && sorted[j] == raw[l];
        assert(placed_at(clips, k, i, sorted[j]));
    }
}

/// A title has as many angles as the item with the fewest; an item that counts
/// none has one.
pub proof fn lemma_fewest(items: Seq<PlayItemModel>)
    ensures
        items.len() == 0 ==> common_angles(items) == 1,
        forall|k: int|
            0 <= k < items.len() ==> {
                let n = (#[trigger] items[k]).multi_clip_count;
                common_angles(items) <= if n == 0 {
                    1
                } else {
                    n
                }
            },
        items.len() > 0 ==> exists|k: int|
            0 <= k < items.len() && {
                let n = (#[trigger] items[k]).multi_clip_count;
                common_angles(items) == if n == 0 {
                    1
                } else {
                    n
                }
            },
{
    lemma_fewest_of(items);
}

proof fn lemma_fewest_of(items: Seq<PlayItemModel>)
    ensures
        fewest_angles(items, 255) <= 255,
        forall|k: int|
            0 <= k < items.len() ==> fewest_angles(items, 255) <= (
            #[trigger] items[k]).angle_count(),
        items.len() > 0 ==> exists|k: int|
            0 <= k < items.len() && fewest_angles(items, 255) == (
            #[trigger] items[k]).angle_count(),
    decreases items.len(),
{
    if items.len() > 0 {
        let front = items.drop_last();
        lemma_fewest_of(front);
        assert forall|k: int| 0 <= k < items.len() implies fewest_angles(items, 255) <= (
        #[trigger] items[k]).angle_count() by {
            if k < front.len() {
                assert(front[k] == items[k]);
            }
        }
        if items.last().angle_count() < fewest_angles(front, 255) || front.len() == 0 {
            assert(items[items.len() - 1].angle_count() == fewest_angles(items, 255) || (
            front.len() == 0 && items.last().angle_count() == 255));
            assert(items[items.len() - 1] == items.last());
        } else {
            let k = choose|k: int|
                0 <= k < front.len() && fewest_angles(front, 255) == (
                #[trigger] front[k]).angle_count();
            assert(items[k] == front[k]);
        }
    }
}

/// A title lacks an angle where some item does: every item has angle 0, and
/// angle `a` where it has as many further angles.
pub proof fn lemma_lacking(items: Seq<PlayItemModel>, angle: u8)
    ensures
        lacking_angle(items, angle, 0) is None <==> angle == 0 || forall|k: int|
            0 <= k < items.len() ==> angle <= (#[trigger] items[k]).angles.len(),
{
    lemma_lacking_from(items, angle, 0);
}

proof fn lemma_lacking_from(items: Seq<PlayItemModel>, angle: u8, from: int)
    requires
        0 <= from,
    ensures
        lacking_angle(items, angle, from) is None <==> angle == 0 || forall|k: int|
            from <= k < items.len() ==> angle <= (#[trigger] items[k]).angles.len(),
    decreases items.len() - from,
{
    if from < items.len() {
        lemma_lacking_from(items, angle, from + 1);
    }
}

// ---------------------------------------------------------------------
// Titles
// ---------------------------------------------------------------------

/// A command plays a playlist where its first byte is that of a play command
/// with an operand, the low half of its second byte is 0, the operand is a
/// number, and that number fits sixteen bits: it stands in the seventh and
/// eighth byte.
pub proof fn lemma_play_command(c: NavCommand)
    ensures
        ({
            let b = c.bytes@;
            &&& played_by(c) is Some <==> b[0] >= 32 && b[0] % 32 == 2 && b[1] % 16 == 0 && b[1]
                >= 128 && b[4] == 0 && b[5] == 0
            &&& played_by(c) matches Some(n) ==> n == b[6] * 0x100 + b[7]
        }),
{
    let b = c.bytes@;
    lemma_n32(b, 4);
}

/// A title of a movie object plays what the object plays first; without such
/// an object, or where it plays nothing, playlist 0. So does an application.
pub proof fn lemma_title_plays(o: ObjectModel, objects: Seq<MovieObjectModel>)
    ensures
        o matches ObjectModel::Hdmv { playback_type: _, movie_object_id_ref } ==> {
            &&& title_target(o, objects).0 is Hdmv
            &&& movie_object_id_ref < objects.len() ==> title_target(o, objects).1 == first_played(
                objects[movie_object_id_ref as int].commands,
                0,
            )
            &&& movie_object_id_ref >= objects.len() ==> title_target(o, objects).1 == 0
        },
        o is BdJ ==> title_target(o, objects) == (TitleKind::BdJ, 0u16),
{
}

/// A title's number is its place, counted from 1; what it says of its playlist
/// is what stands there: how long it is, and which languages it has. Without a
/// playlist it has no length and no languages.
pub proof fn lemma_title_info(
    t: TitleInfo,
    k: int,
    object: ObjectModel,
    objects: Seq<MovieObjectModel>,
    file: Option<Seq<u8>>,
    lang: Seq<char>,
)
    requires
        is_title(t, k, object, objects, file),
    ensures
        t.id == k + 1,
        object is BdJ <==> t.kind is BdJ,
        object is BdJ ==> t.playlist_id == 0,
        file is None ==> t.duration_ticks == 0 && t.languages@.len() == 0,
        file matches Some(s) ==> (playlist_of(s) is None ==> t.duration_ticks == 0
            && t.languages@.len() == 0),
        file matches Some(s) ==> (playlist_of(s) matches Some(m) ==> {
            &&& t.duration_ticks == total_ticks(m.play_items)
            &&& has_text(t.languages@, lang) <==> exists|i: int|
                0 <= i < m.play_items.len() && codes_hold(
                    language_codes((#[trigger] m.play_items[i]).stn_table),
                    lang,
                )
        }),
{
    if let Some(s) = file {
        if let Some(m) = playlist_of(s) {
            assert(has_text(t.languages@, lang) <==> items_hold(m.play_items, lang));
            if items_hold(m.play_items, lang) {
                let i = choose|i: int|
                    0 <= i < m.play_items.len() && codes_hold(
                        language_codes((#[trigger] m.play_items[i]).stn_table),
                        lang,
                    );
                assert(codes_hold(language_codes(m.play_items[i].stn_table), lang));
            }
        }
    }
}

/// An object that plays nothing plays playlist 0.
pub proof fn lemma_plays_nothing(commands: Seq<NavCommand>, k: int)
    requires
        0 <= k,
        forall|j: int| k <= j < commands.len() ==> played_by(#[trigger] commands[j]) is None,
    ensures
        first_played(commands, k) == 0,
    decreases commands.len() - k,
{
    if k < commands.len() {
        lemma_plays_nothing(commands, k + 1);
    }
}

// ---------------------------------------------------------------------
// Tracks
// ---------------------------------------------------------------------

/// A language is three printable characters, in lower case; three bytes that
/// are not all printable are none.
pub proof fn lemma_language(raw: [u8; 3], i: int)
    requires
        0 <= i < 3,
    ensures
        language_of(raw) is Some <==> forall|k: int| 0 <= k < 3 ==> 0x21 <= #[trigger] raw@[k] <= 0x7E,
        language_of(raw) matches Some(t) ==> {
            &&& t.len() == 3
            &&& 0x41 <= raw@[i] <= 0x5A ==> t[i] as int == raw@[i] + 32
            &&& !(0x41 <= raw@[i] <= 0x5A) ==> t[i] as int == raw@[i]
        },
{
    assert(raw@[0] == raw[0] && raw@[1] == raw[1] && raw@[2] == raw[2]);
}

/// The streams of a class are those of the table, each with its number and its
/// coding; audio and subtitles have a language.
pub proof fn lemma_class_streams(t: StnTableModel, i: int)
    requires
        0 <= i,
    ensures
        class_entries(t, TrackKind::PrimaryVideo).len() == t.primary_video.len(),
        class_entries(t, TrackKind::PrimaryAudio).len() == t.primary_audio.len(),
        class_entries(t, TrackKind::PgSubtitle).len() == t.pg_subtitles.len(),
        class_entries(t, TrackKind::IgMenu).len() == t.ig_streams.len(),
        class_entries(t, TrackKind::SecondaryAudio).len() == t.secondary_audio.len(),
        class_entries(t, TrackKind::SecondaryVideo).len() == t.secondary_video.len(),
        class_entries(t, TrackKind::PipPgSubtitle).len() == t.pip_pg.len(),
        i < t.primary_video.len() ==> {
            let e = class_entries(t, TrackKind::PrimaryVideo)[i];
            e.pid == t.primary_video[i].elementary_pid && e.coding_type
                == t.primary_video[i].coding_type && e.language is None
        },
        i < t.primary_audio.len() ==> {
            let e = class_entries(t, TrackKind::PrimaryAudio)[i];
            e.pid == t.primary_audio[i].elementary_pid && e.coding_type
                == t.primary_audio[i].coding_type && e.language == language_of(
                t.primary_audio[i].language_code,
            )
        },
        i < t.pg_subtitles.len() ==> {
            let e = class_entries(t, TrackKind::PgSubtitle)[i];
            e.pid == t.pg_subtitles[i].elementary_pid && e.coding_type
                == t.pg_subtitles[i].coding_type && e.language == language_of(
                t.pg_subtitles[i].language_code,
            )
        },
        i < t.ig_streams.len() ==> {
            let e = class_entries(t, TrackKind::IgMenu)[i];
            e.pid == t.ig_streams[i].elementary_pid && e.coding_type == t.ig_streams[i].coding_type
                && e.language is None
        },
        i < t.secondary_audio.len() ==> {
            let e = class_entries(t, TrackKind::SecondaryAudio)[i];
            e.pid == t.secondary_audio[i].elementary_pid && e.coding_type
                == t.secondary_audio[i].coding_type && e.language == language_of(
                t.secondary_audio[i].language_code,
            )
        },
        i < t.secondary_video.len() ==> {
            let e = class_entries(t, TrackKind::SecondaryVideo)[i];
            e.pid == t.secondary_video[i].elementary_pid && e.coding_type
                == t.secondary_video[i].coding_type && e.language is None
        },
        i < t.pip_pg.len() ==> {
            let e = class_entries(t, TrackKind::PipPgSubtitle)[i];
            e.pid == t.pip_pg[i].elementary_pid && e.coding_type == t.pip_pg[i].coding_type
                && e.language is None
        },
{
}

/// Whether an entry is the first with its PID, and has one.
pub open spec fn is_first_listed(s: Seq<ListedModel>, e: ListedModel) -> bool {
    e.pid != 0 && exists|k: int|
        0 <= k < s.len() && #[trigger] s[k] == e && forall|j: int|
            0 <= j < k ==> (#[trigger] s[j]).pid != e.pid
}

/// A stream that is listed more than once counts as it is listed first; one
/// without a PID does not count.
#[verifier::spinoff_prover]
#[verifier::rlimit(40)]
pub proof fn lemma_first_listing(s: Seq<ListedModel>, pid: u16)
    ensures
        forall|i: int|
            0 <= i < first_listed(s).len() ==> is_first_listed(s, #[trigger] first_listed(s)[i]),
        lists_pid(first_listed(s), pid) <==> pid != 0 && lists_pid(s, pid),
    decreases s.len(),
{
    if s.len() > 0 {
        let front = s.drop_last();
        let last = s.last();
        lemma_first_listing(front, pid);
        lemma_first_listing(front, last.pid);
        let before = first_listed(front);
        let all = first_listed(s);
        assert forall|i: int| 0 <= i < all.len() implies is_first_listed(s, #[trigger] all[i]) by {
            if i < before.len() {
                assert(all[i] == before[i]);
                assert(is_first_listed(front, before[i]));
                let k = choose|k: int|
                    0 <= k < front.len() && #[trigger] front[k] == before[i] && forall|j: int|
                        0 <= j < k ==> (#[trigger] front[j]).pid != before[i].pid;
                assert(s[k] == all[i]);
                assert forall|j: int| 0 <= j < k implies (#[trigger] s[j]).pid != all[i].pid by {
                    assert(s[j] == front[j]);
                }
            } else {
                let k = front.len() as int;
                assert(s[k] == last && all[i] == last);
                assert forall|j: int| 0 <= j < k implies (#[trigger] s[j]).pid != last.pid by {
                    assert(s[j] == front[j]);
                }
            }
        }
        if lists_pid(all, pid) {
            let i = choose|i: int| 0 <= i < all.len() && (#[trigger] all[i]).pid == pid;
            assert(is_first_listed(s, all[i]));
            let k = choose|k: int|
                0 <= k < s.len() && #[trigger] s[k] == all[i] && forall|j: int|
                    0 <= j < k ==> (#[trigger] s[j]).pid != all[i].pid;
            assert(s[k].pid == pid);
        }
        if pid != 0 && lists_pid(s, pid) {
            if lists_pid(before, pid) {
                let i = choose|i: int| 0 <= i < before.len() && (#[trigger] before[i]).pid == pid;
                assert(all[i] == before[i]);
            } else {
                let i = choose|i: int| 0 <= i < s.len() && (#[trigger] s[i]).pid == pid;
                if i < front.len() {
                    assert(front[i] == s[i]);
                }
                assert(all[before.len() as int] == last);
            }
        }
    }
}

/// The streams of a title are those of its items, one item behind the other,
/// and each counts the items that list it.
pub proof fn lemma_streams_add(
    a: Seq<PlayItemModel>,
    b: Seq<PlayItemModel>,
    kind: TrackKind,
    pid: u16,
    item: PlayItemModel,
)
    ensures
        all_entries(a + b, kind) == all_entries(a, kind) + all_entries(b, kind),
        all_entries(seq![item], kind) == class_entries(item.stn_table, kind),
        items_listing(a + b, kind, pid) == items_listing(a, kind, pid) + items_listing(
            b,
            kind,
            pid,
        ),
        lists_pid(class_entries(item.stn_table, kind), pid) ==> items_listing(
            seq![item],
            kind,
            pid,
        ) == 1,
        !lists_pid(class_entries(item.stn_table, kind), pid) ==> items_listing(
            seq![item],
            kind,
            pid,
        ) == 0,
    decreases b.len(),
{
    assert(seq![item].drop_last() =~= Seq::<PlayItemModel>::empty());
    reveal_with_fuel(all_entries, 2);
    reveal_with_fuel(items_listing, 2);
    assert(all_entries(seq![item], kind) =~= class_entries(item.stn_table, kind));
    if b.len() == 0 {
        assert(a + b =~= a);
        assert(all_entries(a, kind) + all_entries(b, kind) =~= all_entries(a, kind));
    } else {
        assert((a + b).drop_last() =~= a + b.drop_last());
        assert((a + b).last() == b.last());
        lemma_streams_add(a, b.drop_last(), kind, pid, item);
        assert(all_entries(a + b, kind) =~= all_entries(a, kind) + all_entries(b, kind));
    }
}

/// A table has the languages of its audio, subtitle and menu streams, the
/// secondary ones among them; video has none.
#[verifier::spinoff_prover]
#[verifier::rlimit(40)]
pub proof fn lemma_table_languages(t: StnTableModel, lang: Seq<char>)
    ensures
        codes_hold(language_codes(t), lang) <==> {
            ||| exists|i: int|
                0 <= i < t.primary_audio.len() && language_of(
                    (#[trigger] t.primary_audio[i]).language_code,
                ) == Some(lang)
            ||| exists|i: int|
                0 <= i < t.pg_subtitles.len() && language_of(
                    (#[trigger] t.pg_subtitles[i]).language_code,
                ) == Some(lang)
            ||| exists|i: int|
                0 <= i < t.ig_streams.len() && language_of(
                    (#[trigger] t.ig_streams[i]).language_code,
                ) == Some(lang)
            ||| exists|i: int|
                0 <= i < t.secondary_audio.len() && language_of(
                    (#[trigger] t.secondary_audio[i]).language_code,
                ) == Some(lang)
            ||| exists|i: int|
                0 <= i < t.pip_pg.len() && language_of((#[trigger] t.pip_pg[i]).language_code)
                    == Some(lang)
        },
{
    let codes = language_codes(t);
    let a = t.primary_audio.len() as int;
    let b = a + t.pg_subtitles.len();
    let c = b + t.ig_streams.len();
    let d = c + t.secondary_audio.len();
    assert forall|i: int| 0 <= i < t.primary_audio.len() implies (
    #[trigger] t.primary_audio[i]).language_code == codes[i] by {}
    assert forall|i: int| 0 <= i < t.pg_subtitles.len() implies (
    #[trigger] t.pg_subtitles[i]).language_code == codes[a + i] by {}
    assert forall|i: int| 0 <= i < t.ig_streams.len() implies (
    #[trigger] t.ig_streams[i]).language_code == codes[b + i] by {}
    assert forall|i: int| 0 <= i < t.secondary_audio.len() implies (
    #[trigger] t.secondary_audio[i]).language_code == codes[c + i] by {}
    assert forall|i: int| 0 <= i < t.pip_pg.len() implies (#[trigger] t.pip_pg[i]).language_code
        == codes[d + i] by {}
    if codes_hold(codes, lang) {
        let k = choose|k: int| 0 <= k < codes.len() && language_of(#[trigger] codes[k]) == Some(lang);
        if k < a {
            assert(t.primary_audio[k].language_code == codes[k]);
        } else if k < b {
            assert(t.pg_subtitles[k - a].language_code == codes[k]);
        } else if k < c {
            assert(t.ig_streams[k - b].language_code == codes[k]);
        } else if k < d {
            assert(t.secondary_audio[k - c].language_code == codes[k]);
        } else {
            assert(t.pip_pg[k - d].language_code == codes[k]);
        }
    }
}

/// The tracks of a class keep their order.
pub proof fn lemma_tracks_of_kind(v: Seq<Track>, kind: TrackKind)
    ensures
        of_kind(v, kind) == v.filter(|t: Track| t.kind == kind),
    decreases v.len(),
{
    reveal(Seq::filter);
    if v.len() > 0 {
        lemma_tracks_of_kind(v.drop_last(), kind);
    }
}

/// The longest title of a disc is no BD-J title; where several are as long, it
/// is the last of them.
pub proof fn lemma_longest(titles: Seq<TitleInfo>, k: int, j: int)
    requires
        is_longest(titles, k),
        0 <= j < titles.len(),
        titles[j].kind is Hdmv,
    ensures
        titles[k].kind is Hdmv,
        titles[j].duration_ticks <= titles[k].duration_ticks,
        titles[j].duration_ticks == titles[k].duration_ticks ==> j <= k,
{
}

/// A playlist lies in the file whose name is its number in five digits.
pub proof fn lemma_playlist_name(id: u16)
    ensures
        playlist_name(id).len() == 10,
        spelled(playlist_name(id).take(5), 10) == id,
        playlist_name(id).skip(5) == ".mpls"@,
{
    reveal_strlit(".mpls");
    reveal_with_fuel(dec_text, 6);
    reveal_with_fuel(spelled, 7);
    let p = padded(dec_text(id as nat), 5, '0');
    lemma_filled(dec_text(id as nat), 5, '0');
    assert(p.len() == 5);
    assert(playlist_name(id).take(5) =~= p);
    assert(playlist_name(id).skip(5) =~= ".mpls"@);
    lemma_padded_spells(id as nat, 5);
}

proof fn lemma_zeros_spell(n: nat, text: Seq<char>)
    ensures
        spelled(Seq::new(n, |i: int| '0') + text, 10) == spelled(text, 10),
    decreases n + text.len(),
{
    let zeros = Seq::new(n, |i: int| '0');
    if text.len() > 0 {
        lemma_zeros_spell(n, text.drop_last());
        assert((zeros + text).drop_last() =~= zeros + text.drop_last());
    } else if n > 0 {
        let fewer = Seq::new((n - 1) as nat, |i: int| '0');
        lemma_zeros_spell((n - 1) as nat, text);
        assert((zeros + text).drop_last() =~= fewer + text);
        assert((zeros + text).last() == '0');
    } else {
        assert(zeros + text =~= text);
    }
}

proof fn lemma_padded_spells(n: nat, width: nat)
    ensures
        spelled(padded(dec_text(n), width, '0'), 10) == n,
{
    lemma_decimal(n);
    let text = dec_text(n);
    if text.len() < width {
        lemma_zeros_spell((width - text.len()) as nat, text);
    }
}

/// An object plays the playlist of the first command that plays one.
pub proof fn lemma_plays_first(commands: Seq<NavCommand>, i: int, k: int)
    requires
        0 <= i <= k < commands.len(),
        played_by(commands[k]) is Some,
        forall|j: int| i <= j < k ==> played_by(#[trigger] commands[j]) is None,
    ensures
        Some(first_played(commands, i)) == played_by(commands[k]),
    decreases k - i,
{
    if i < k {
        lemma_plays_first(commands, i + 1, k);
    }
}

/// The unique titles of a disc leave out the playlist that stands for none,
/// which has bit 14 of its number alone, and no other.
pub proof fn lemma_placeholder(titles: Seq<TitleInfo>, id: u16)
    ensures
        ({
            let u = unique_among(titles, titles.len() as int);
            has_playlist(u, id) <==> id != 1u16 << 14 && has_playlist(titles, id)
        }),
{
    let u = unique_among(titles, titles.len() as int);
    lemma_unique_titles(titles, titles.len() as int);
    assert(titles.take(titles.len() as int) =~= titles);
    assert(1u16 << 14 == 0x4000) by (bit_vector);
    if has_playlist(u, id) {
        let i = choose|i: int| 0 <= i < u.len() && (#[trigger] u[i]).playlist_id == id;
        assert(u[i].playlist_id != PLACEHOLDER_PLAYLIST);
    }
    if id != 0x4000 && has_playlist(titles, id) {
        let k = choose|k: int| 0 <= k < titles.len() && (#[trigger] titles[k]).playlist_id == id;
        assert(titles[k].playlist_id != PLACEHOLDER_PLAYLIST);
    }
}

} // verus!
