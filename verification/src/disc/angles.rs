//! Changing the angle: the places in a title where every angle has a picture
//! to start from.
use vstd::prelude::*;

use crate::disc::clips::{clip_models, ClipSeekInfo, EntryPoint, SeekClip, MAX_TITLE_BYTES};
use crate::disc::timeline::{starts_fit, stem_array, stem_bytes};
use crate::m2ts::TS_PACKET_LEN;
use crate::sorting::{by_time, in_time, lemma_by_time, sort_by_time, Timed};

verus! {

/// A place where the angle may change.
#[derive(Debug, Clone, Copy, PartialEq, Eq)]
pub struct AngleChangePoint {
    /// 0-based.
    pub play_item_index: u16,
    /// Stem of the clip's file names.
    pub clip_stem: [u8; 5],
    /// On the title's time axis.
    pub title_pts_90k: u64,
    /// In the title's transport bytes.
    pub output_byte: u64,
    /// On the clip's time axis.
    pub clip_pts_90k: u32,
    /// Source packet of the clip.
    pub spn: u32,
}

impl Timed for AngleChangePoint {
    open spec fn time(self) -> int {
        self.title_pts_90k as int
    }

    fn ticks(&self) -> (r: u64) {
        self.title_pts_90k
    }
}

/// The place that an entry point of the `k`-th clip makes in a title.
pub open spec fn point_of(c: SeekClip, k: int, ep: EntryPoint) -> AngleChangePoint {
    AngleChangePoint {
        play_item_index: k as u16,
        clip_stem: stem_array(c.stem),
        title_pts_90k: (c.title_pts_start + (ep.pts - c.in_pts_90k)) as u64,
        output_byte: (c.output_start + ep.spn * 188) as u64,
        clip_pts_90k: ep.pts,
        spn: ep.spn,
    }
}

/// The places that entry points of the `k`-th clip make; those before the
/// PlayItem's window make none.
pub open spec fn points_in_clip(c: SeekClip, k: int, eps: Seq<EntryPoint>) -> Seq<AngleChangePoint>
    decreases eps.len(),
{
    if eps.len() == 0 {
        Seq::empty()
    } else if eps.last().pts < c.in_pts_90k {
        points_in_clip(c, k, eps.drop_last())
    } else {
        points_in_clip(c, k, eps.drop_last()).push(point_of(c, k, eps.last()))
    }
}

/// The places that all clips make, clip by clip.
pub open spec fn points_in_clips(clips: Seq<SeekClip>) -> Seq<AngleChangePoint>
    decreases clips.len(),
{
    if clips.len() == 0 {
        Seq::empty()
    } else {
        points_in_clips(clips.drop_last()) + points_in_clip(
            clips.last(),
            clips.len() - 1,
            clips.last().angle_change_eps,
        )
    }
}

/// The places in a title where the angle may change, ordered by time.
pub open spec fn angle_points(clips: Seq<SeekClip>) -> Seq<AngleChangePoint> {
    by_time(points_in_clips(clips))
}

/// The places that the angle entries of one clip make.
fn push_points(out: &mut Vec<AngleChangePoint>, c: &ClipSeekInfo, k: usize)
    requires
        c.output_start <= MAX_TITLE_BYTES,
        c.title_pts_start <= 0x8000_0000_0000_0000,
    ensures
        final(out)@ == old(out)@ + points_in_clip(c@, k as int, c.angle_change_eps@),
{
    let stem = stem_bytes(&c.stem);
    let eps = &c.angle_change_eps;
    let mut i: usize = 0;
    assert(eps@.take(0) =~= Seq::empty());
    assert(out@ =~= old(out)@ + points_in_clip(c@, k as int, eps@.take(0)));
    while i < eps.len()
        invariant
            i <= eps@.len(),
            c.output_start <= MAX_TITLE_BYTES,
            c.title_pts_start <= 0x8000_0000_0000_0000,
            stem == stem_array(c.stem@),
            out@ == old(out)@ + points_in_clip(c@, k as int, eps@.take(i as int)),
        decreases eps@.len() - i,
    {
        let ep = eps[i];
        assert(eps@.take(i + 1).drop_last() =~= eps@.take(i as int));
        if ep.pts as u64 >= c.in_pts_90k {
            let p = AngleChangePoint {
                play_item_index: k as u16,
                clip_stem: stem,
                title_pts_90k: c.title_pts_start + (ep.pts as u64 - c.in_pts_90k),
                output_byte: c.output_start + ep.spn as u64 * TS_PACKET_LEN as u64,
                clip_pts_90k: ep.pts,
                spn: ep.spn,
            };
            assert(p == point_of(c@, k as int, ep));
            out.push(p);
        }
        i += 1;
        assert(out@ =~= old(out)@ + points_in_clip(c@, k as int, eps@.take(i as int)));
    }
    assert(eps@.take(i as int) =~= eps@);
}

/// List the places in a title where the angle may change, ordered by time.
pub fn list_angle_change_points(clips: &Vec<ClipSeekInfo>) -> (r: Vec<AngleChangePoint>)
    requires
        starts_fit(clip_models(clips@)),
    ensures
        r@ == angle_points(clip_models(clips@)),
{
    let ghost models = clip_models(clips@);
    let mut out: Vec<AngleChangePoint> = Vec::new();
    let mut i: usize = 0;
    assert(models.take(0) =~= Seq::empty());
    while i < clips.len()
        invariant
            i <= clips@.len(),
            models == clip_models(clips@),
            starts_fit(models),
            out@ == points_in_clips(models.take(i as int)),
        decreases clips@.len() - i,
    {
        proof {
            assert(models[i as int] == clips@[i as int]@);
            assert(models.take(i + 1).drop_last() =~= models.take(i as int));
            assert(models.take(i + 1).last() == clips@[i as int]@);
        }
        push_points(&mut out, &clips[i], i);
        i += 1;
    }
    assert(models.take(i as int) =~= models);
    sort_by_time(&out)
}

/// The first place at or behind a time.
pub open spec fn first_point_from(points: Seq<AngleChangePoint>, pts: u64, k: int) -> bool {
    &&& 0 <= k < points.len()
    &&& points[k].title_pts_90k >= pts
    &&& forall|j: int| 0 <= j < k ==> (#[trigger] points[j]).title_pts_90k < pts
}

/// The first place at or behind a time.
pub fn next_point_at_time(points: &Vec<AngleChangePoint>, pts: u64) -> (r: Option<AngleChangePoint>)
    ensures
        match r {
            Some(p) => exists|k: int|
                #[trigger] first_point_from(points@, pts, k) && p == points@[k],
            None => forall|j: int|
                0 <= j < points@.len() ==> (#[trigger] points@[j]).title_pts_90k < pts,
        },
{
    let mut i: usize = 0;
    while i < points.len()
        invariant
            i <= points@.len(),
            forall|j: int| 0 <= j < i ==> (#[trigger] points@[j]).title_pts_90k < pts,
        decreases points@.len() - i,
    {
        if points[i].title_pts_90k >= pts {
            assert(first_point_from(points@, pts, i as int));
            return Some(points[i]);
        }
        i += 1;
    }
    None
}

/// The first place, in the order of time, that lies at or behind a byte.
pub open spec fn first_point_behind(points: Seq<AngleChangePoint>, byte: u64, k: int) -> bool {
    &&& 0 <= k < points.len()
    &&& points[k].output_byte >= byte
    &&& forall|j: int| 0 <= j < k ==> (#[trigger] points[j]).output_byte < byte
}

/// The first place, in the order of time, that lies at or behind a byte.
pub fn next_point_at_byte(points: &Vec<AngleChangePoint>, byte: u64) -> (r: Option<
    AngleChangePoint,
>)
    ensures
        match r {
            Some(p) => exists|k: int|
                #[trigger] first_point_behind(points@, byte, k) && p == points@[k],
            None => forall|j: int|
                0 <= j < points@.len() ==> (#[trigger] points@[j]).output_byte < byte,
        },
{
    let mut i: usize = 0;
    while i < points.len()
        invariant
            i <= points@.len(),
            forall|j: int| 0 <= j < i ==> (#[trigger] points@[j]).output_byte < byte,
        decreases points@.len() - i,
    {
        if points[i].output_byte >= byte {
            assert(first_point_behind(points@, byte, i as int));
            return Some(points[i]);
        }
        i += 1;
    }
    None
}

/// Whether a place comes from one of the entry points of the `k`-th clip,
/// inside that PlayItem's window.
pub open spec fn comes_from(
    c: SeekClip,
    k: int,
    eps: Seq<EntryPoint>,
    p: AngleChangePoint,
) -> bool {
    exists|e: int|
        0 <= e < eps.len() && c.in_pts_90k <= (#[trigger] eps[e]).pts && p == point_of(c, k, eps[e])
}

/// Whether a place comes from an entry point of a clip at which the angle
/// may change.
pub open spec fn is_angle_place(clips: Seq<SeekClip>, p: AngleChangePoint) -> bool {
    exists|k: int|
        0 <= k < clips.len() && comes_from(
            #[trigger] clips[k],
            k,
            clips[k].angle_change_eps,
            p,
        )
}

proof fn lemma_points_in_clip(c: SeekClip, k: int, eps: Seq<EntryPoint>)
    ensures
        forall|i: int|
            0 <= i < points_in_clip(c, k, eps).len() ==> comes_from(
                c,
                k,
                eps,
                #[trigger] points_in_clip(c, k, eps)[i],
            ),
    decreases eps.len(),
{
    if eps.len() > 0 {
        let init = eps.drop_last();
        lemma_points_in_clip(c, k, init);
        let before = points_in_clip(c, k, init);
        let now = points_in_clip(c, k, eps);
        assert forall|i: int| 0 <= i < now.len() implies comes_from(
            c,
            k,
            eps,
            #[trigger] now[i],
        ) by {
            if i < before.len() {
                assert(now[i] == before[i]);
                assert(comes_from(c, k, init, before[i]));
                let e = choose|e: int|
                    0 <= e < init.len() && c.in_pts_90k <= (#[trigger] init[e]).pts && before[i]
                        == point_of(c, k, init[e]);
                assert(eps[e] == init[e]);
            } else {
                assert(eps[eps.len() - 1] == eps.last());
            }
        }
    }
}

proof fn lemma_points_in_clips(clips: Seq<SeekClip>)
    ensures
        forall|i: int|
            0 <= i < points_in_clips(clips).len() ==> is_angle_place(
                clips,
                #[trigger] points_in_clips(clips)[i],
            ),
    decreases clips.len(),
{
    if clips.len() > 0 {
        let init = clips.drop_last();
        lemma_points_in_clips(init);
        let before = points_in_clips(init);
        let c = clips.last();
        let n = clips.len() - 1;
        let tail = points_in_clip(c, n, c.angle_change_eps);
        lemma_points_in_clip(c, n, c.angle_change_eps);
        let now = points_in_clips(clips);
        assert forall|i: int| 0 <= i < now.len() implies is_angle_place(clips, #[trigger] now[i]) by {
            if i < before.len() {
                assert(now[i] == before[i]);
                assert(is_angle_place(init, before[i]));
                let k = choose|k: int|
                    0 <= k < init.len() && comes_from(
                        #[trigger] init[k],
                        k,
                        init[k].angle_change_eps,
                        before[i],
                    );
                assert(clips[k] == init[k]);
            } else {
                assert(now[i] == tail[i - before.len()]);
                assert(clips[n] == c);
            }
        }
    }
}

/// The places where the angle may change are ordered by time, and each comes
/// from an entry point of a clip that lies inside its PlayItem's window.
pub proof fn lemma_angle_points(clips: Seq<SeekClip>)
    ensures
        in_time(angle_points(clips)),
        angle_points(clips).to_multiset() == points_in_clips(clips).to_multiset(),
        forall|i: int|
            0 <= i < angle_points(clips).len() ==> is_angle_place(
                clips,
                #[trigger] angle_points(clips)[i],
            ),
{
    broadcast use vstd::seq_lib::group_to_multiset_ensures;

    let raw = points_in_clips(clips);
    let sorted = angle_points(clips);
    lemma_by_time(raw);
    lemma_points_in_clips(clips);
    assert forall|i: int| 0 <= i < sorted.len() implies is_angle_place(
        clips,
        #[trigger] sorted[i],
    ) by {
        assert(sorted.contains(sorted[i]));
        assert(sorted.to_multiset().count(sorted[i]) > 0);
        assert(raw.contains(sorted[i]));
        let j = choose|j: int| 0 <= j < raw.len() && raw[j] == sorted[i];
        assert(is_angle_place(clips, raw[j]));
    }
}

} // verus!
