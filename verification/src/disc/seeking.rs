//! Seeking in a title: to a time, onto the entry point at or before it, and
//! to a byte.
use vstd::prelude::*;

use crate::decrypt::AACS_UNIT_LEN;
use crate::disc::clips::{clip_models, ClipSeekInfo, EntryPoint, SeekClip};
use crate::disc::timeline::{byte_after, in_line, lemma_starts_monotone};
use crate::m2ts::{M2TS_PACKET_LEN, TS_PACKET_LEN};
use crate::sorting::{in_time, Timed};

verus! {

// ---------------------------------------------------------------------
// To a time
// ---------------------------------------------------------------------

/// The last entry point at or before a time.
pub open spec fn entry_at(eps: Seq<EntryPoint>, target: int) -> Option<int>
    decreases eps.len(),
{
    if eps.len() == 0 {
        None
    } else if eps.last().pts <= target {
        Some(eps.len() - 1)
    } else {
        entry_at(eps.drop_last(), target)
    }
}

/// The packet at which to enter a clip for a time on its axis: that of the
/// last entry point at or before the time, or of the first one. Without entry
/// points it is the clip's first packet.
pub open spec fn entry_packet(eps: Seq<EntryPoint>, target: int) -> u32 {
    if eps.len() == 0 {
        0
    } else {
        match entry_at(eps, target) {
            Some(i) => eps[i].spn,
            None => eps[0].spn,
        }
    }
}

/// The last clip that begins at or before a time.
pub open spec fn clip_at_time(clips: Seq<SeekClip>, pts: u64) -> Option<int>
    decreases clips.len(),
{
    if clips.len() == 0 {
        None
    } else if clips.last().title_pts_start <= pts {
        Some(clips.len() - 1)
    } else {
        clip_at_time(clips.drop_last(), pts)
    }
}

/// The clip that a seek to a time lands in.
pub open spec fn landing_clip(clips: Seq<SeekClip>, pts: u64) -> int {
    match clip_at_time(clips, pts) {
        Some(k) => k,
        None => 0,
    }
}

/// The time on a clip's axis that a time of the title stands for.
pub open spec fn clip_time(c: SeekClip, pts: u64) -> int {
    c.in_pts_90k + if pts >= c.title_pts_start {
        pts - c.title_pts_start
    } else {
        0
    }
}

/// A packet number, or the clip's last one where the clip is shorter.
pub open spec fn clamped(c: SeekClip, spn: int) -> int {
    if spn < c.packet_count {
        spn
    } else if c.packet_count > 0 {
        c.packet_count - 1
    } else {
        0
    }
}

/// The packet that a seek to a time lands on. Behind the end of the title it
/// is the first one of the last clip.
pub open spec fn landing_packet(clips: Seq<SeekClip>, duration: u64, pts: u64) -> int {
    let c = clips[landing_clip(clips, pts)];
    if pts > duration {
        0
    } else {
        clamped(c, entry_packet(c.entry_points, clip_time(c, pts)) as int)
    }
}

/// The byte that a seek to a time lands on.
pub open spec fn landing_byte(clips: Seq<SeekClip>, duration: u64, pts: u64) -> int {
    if clips.len() == 0 {
        0
    } else {
        clips[landing_clip(clips, pts)].output_start + landing_packet(clips, duration, pts) * 188
    }
}

proof fn lemma_entry_at(eps: Seq<EntryPoint>, target: int, n: int)
    requires
        0 <= n <= eps.len(),
        n > 0 ==> eps[n - 1].pts <= target,
        forall|i: int| n <= i < eps.len() ==> (#[trigger] eps[i]).pts > target,
    ensures
        entry_at(eps, target) == if n > 0 {
            Some(n - 1)
        } else {
            None
        },
    decreases eps.len(),
{
    if n < eps.len() {
        assert(eps[eps.len() - 1].pts > target);
        lemma_entry_at(eps.drop_last(), target, n);
    }
}

/// The packet at which to enter a clip.
fn find_entry_packet(eps: &Vec<EntryPoint>, target: u32) -> (r: u32)
    requires
        in_time(eps@),
    ensures
        r == entry_packet(eps@, target as int),
{
    if eps.len() == 0 {
        return 0;
    }
    let mut lo: usize = 0;
    let mut hi: usize = eps.len();
    while lo < hi
        invariant
            lo <= hi <= eps@.len(),
            in_time(eps@),
            forall|i: int| 0 <= i < lo ==> (#[trigger] eps@[i]).pts <= target,
            forall|i: int| hi <= i < eps@.len() ==> (#[trigger] eps@[i]).pts > target,
        decreases hi - lo,
    {
        let mid: usize = lo + (hi - lo) / 2;
        if eps[mid].pts <= target {
            assert forall|i: int| 0 <= i < mid + 1 implies (#[trigger] eps@[i]).pts <= target by {
                assert(eps@[i].time() <= eps@[mid as int].time());
            }
            lo = mid + 1;
        } else {
            assert forall|i: int| mid <= i < eps@.len() implies (#[trigger] eps@[i]).pts
                > target by {
                assert(eps@[mid as int].time() <= eps@[i].time());
            }
            hi = mid;
        }
    }
    proof {
        lemma_entry_at(eps@, target as int, lo as int);
    }
    if lo > 0 {
        eps[lo - 1].spn
    } else {
        eps[0].spn
    }
}

/// Beyond the largest time that entry points hold, all times are alike.
proof fn lemma_entry_saturates(eps: Seq<EntryPoint>, target: int)
    requires
        target >= u32::MAX,
    ensures
        entry_at(eps, target) == entry_at(eps, u32::MAX as int),
{
}

/// The last clip that begins at or before a time, or the first one.
fn find_landing_clip(clips: &Vec<ClipSeekInfo>, pts: u64) -> (r: usize)
    requires
        clips@.len() > 0,
    ensures
        r < clips@.len(),
        r == landing_clip(clip_models(clips@), pts),
{
    let ghost models = clip_models(clips@);
    let mut i: usize = clips.len();
    assert(models.take(i as int) =~= models);
    while i > 0
        invariant
            i <= clips@.len(),
            clips@.len() > 0,
            models == clip_models(clips@),
            clip_at_time(models, pts) == clip_at_time(models.take(i as int), pts),
        decreases i,
    {
        i -= 1;
        proof {
            assert(models.take(i + 1).last() == clips@[i as int]@);
            assert(models.take(i + 1).drop_last() =~= models.take(i as int));
        }
        if clips[i].title_pts_start <= pts {
            return i;
        }
    }
    0
}

/// How to get to a packet of a clip, when reading begins at whole units of
/// encryption: where to open the stream file, which byte of the title that
/// is, and how many transport bytes to drop from there.
#[derive(Debug, Clone, Copy, PartialEq, Eq, Structural)]
pub struct SeekPlan {
    pub clip_idx: usize,
    /// A multiple of the unit's length.
    pub unit_byte_start: u64,
    pub output_at_unit: u64,
    /// Less than a unit's worth.
    pub skip: u64,
}

/// The plan for a packet of a clip.
pub open spec fn plan_for(c: SeekClip, k: usize, spn: int) -> SeekPlan {
    let unit_packets = spn / 32 * 32;
    SeekPlan {
        clip_idx: k,
        unit_byte_start: (unit_packets * 192) as u64,
        output_at_unit: (c.output_start + unit_packets * 188) as u64,
        skip: ((spn - unit_packets) * 188) as u64,
    }
}

impl SeekPlan {
    /// The byte of the title that the plan leads to.
    pub open spec fn target(self) -> int {
        self.output_at_unit + self.skip
    }
}

/// The plan for a packet of a clip; a packet beyond the clip's last one is
/// taken for the last one.
fn plan_packet(c: &ClipSeekInfo, clip_idx: usize, spn: u32) -> (r: SeekPlan)
    requires
        c.output_start + c.packet_count * 188 <= u64::MAX,
    ensures
        r == plan_for(c@, clip_idx, clamped(c@, spn as int)),
        clamped(c@, spn as int) <= spn,
{
    let last: u64 = c.packet_count.saturating_sub(1);
    let spn: u64 = if (spn as u64) < last {
        spn as u64
    } else {
        last
    };
    let target_byte: u64 = spn * M2TS_PACKET_LEN as u64;
    let unit_byte_start: u64 = target_byte - target_byte % AACS_UNIT_LEN as u64;
    let unit_packet_start: u64 = unit_byte_start / M2TS_PACKET_LEN as u64;
    proof {
        assert(target_byte == spn * 192);
        assert(target_byte % 6144 == (spn % 32) * 192) by (nonlinear_arith)
            requires
                target_byte == spn * 192,
        ;
        assert(unit_packet_start == spn / 32 * 32);
        assert(unit_byte_start == unit_packet_start * 192);
        assert(unit_packet_start <= spn <= u32::MAX);
        assert(unit_packet_start * (TS_PACKET_LEN as u64) == unit_packet_start * 188);
    }
    SeekPlan {
        clip_idx,
        unit_byte_start,
        output_at_unit: c.output_start + unit_packet_start * TS_PACKET_LEN as u64,
        skip: (spn - unit_packet_start) * TS_PACKET_LEN as u64,
    }
}

/// Plan a seek to a time.
pub fn plan_seek(
    clips: &Vec<ClipSeekInfo>,
    output_total: u64,
    title_duration_90k: u64,
    pts: u64,
) -> (r: Option<SeekPlan>)
    requires
        in_line(clip_models(clips@), output_total, title_duration_90k),
    ensures
        ({
            let models = clip_models(clips@);
            match r {
                Some(plan) => {
                    &&& models.len() > 0
                    &&& plan.clip_idx == landing_clip(models, pts)
                    &&& plan == plan_for(
                        models[landing_clip(models, pts)],
                        plan.clip_idx,
                        landing_packet(models, title_duration_90k, pts),
                    )
                    &&& plan.target() == landing_byte(models, title_duration_90k, pts)
                },
                None => models.len() == 0,
            }
        }),
{
    if clips.len() == 0 {
        return None;
    }
    let ghost models = clip_models(clips@);
    let k: usize = find_landing_clip(clips, pts);
    let c = &clips[k];
    proof {
        assert(models[k as int] == c@);
        assert(models[k as int].valid());
        lemma_starts_monotone(models, output_total, title_duration_90k, k as int, k as int);
        if k + 1 < models.len() {
            lemma_starts_monotone(models, output_total, title_duration_90k, k + 1, k + 1);
        }
    }
    let spn: u32 = if pts > title_duration_90k {
        0
    } else {
        let local: u64 = c.in_pts_90k + pts.saturating_sub(c.title_pts_start);
        proof {
            assert(local == clip_time(c@, pts));
            if local >= u32::MAX {
                lemma_entry_saturates(c.entry_points@, local as int);
            }
        }
        let target: u32 = if local < u32::MAX as u64 {
            local as u32
        } else {
            u32::MAX
        };
        find_entry_packet(&c.entry_points, target)
    };
    let plan = plan_packet(c, k, spn);
    proof {
        let n = clamped(c@, spn as int);
        assert(n == landing_packet(models, title_duration_90k, pts));
        lemma_plan(c@, k, n);
    }
    Some(plan)
}

/// A plan opens the file at a whole unit of encryption, at most one unit
/// before the packet, and leads to the packet.
pub proof fn lemma_plan(c: SeekClip, k: usize, spn: int)
    requires
        0 <= spn,
        spn == 0 || spn < c.packet_count,
        c.output_start + c.packet_count * 188 <= u64::MAX,
        spn <= u32::MAX,
    ensures
        plan_for(c, k, spn).unit_byte_start % 6144 == 0,
        plan_for(c, k, spn).unit_byte_start <= spn * 192 < plan_for(c, k, spn).unit_byte_start
            + 6144,
        plan_for(c, k, spn).target() == c.output_start + spn * 188,
        plan_for(c, k, spn).skip <= 31 * 188,
{
    let unit_packets = spn / 32 * 32;
    assert(unit_packets <= spn < unit_packets + 32);
    assert((spn / 32 * 32) * 192 == spn / 32 * 6144);
    assert(((spn / 32) * 6144) % 6144 == 0) by (nonlinear_arith);
}

// ---------------------------------------------------------------------
// What a seek to a time promises
// ---------------------------------------------------------------------

/// The last clip that begins at or before a time.
pub proof fn lemma_clip_at_time(clips: Seq<SeekClip>, pts: u64)
    ensures
        match clip_at_time(clips, pts) {
            Some(k) => 0 <= k < clips.len() && clips[k].title_pts_start <= pts && (k + 1
                < clips.len() ==> clips[k + 1].title_pts_start > pts),
            None => clips.len() > 0 ==> clips[0].title_pts_start > pts,
        },
    decreases clips.len(),
{
    if clips.len() > 0 && clips.last().title_pts_start > pts {
        lemma_clip_at_time(clips.drop_last(), pts);
    }
}

proof fn lemma_entry_found(eps: Seq<EntryPoint>, target: int)
    ensures
        match entry_at(eps, target) {
            Some(i) => 0 <= i < eps.len() && eps[i].pts <= target && forall|j: int|
                i < j < eps.len() ==> (#[trigger] eps[j]).pts > target,
            None => forall|j: int| 0 <= j < eps.len() ==> (#[trigger] eps[j]).pts > target,
        },
    decreases eps.len(),
{
    if eps.len() > 0 && eps.last().pts > target {
        lemma_entry_found(eps.drop_last(), target);
        assert forall|j: int| 0 <= j < eps.len() && eps.drop_last().len() <= j implies (
        #[trigger] eps[j]).pts > target by {}
        match entry_at(eps, target) {
            Some(i) => {
                assert forall|j: int| i < j < eps.len() implies (#[trigger] eps[j]).pts
                    > target by {
                    if j < eps.len() - 1 {
                        assert(eps.drop_last()[j].pts > target);
                    }
                }
            },
            None => {
                assert forall|j: int| 0 <= j < eps.len() implies (#[trigger] eps[j]).pts
                    > target by {
                    if j < eps.len() - 1 {
                        assert(eps.drop_last()[j].pts > target);
                    }
                }
            },
        }
    }
}

/// A seek to a time within the title lands in the clip that plays then, on
/// the packet of an entry point (the last packet of the clip, should the
/// entry point name one behind it). No entry point at or before the time
/// comes later than that one, and it comes no later than the time unless
/// all of them do.
pub proof fn lemma_seek_at_or_before(
    clips: Seq<SeekClip>,
    total: u64,
    duration: u64,
    pts: u64,
)
    requires
        in_line(clips, total, duration),
        clips.len() > 0,
        pts <= duration,
    ensures
        ({
            let k = landing_clip(clips, pts);
            let c = clips[k];
            &&& 0 <= k < clips.len()
            &&& c.title_pts_start <= pts
            &&& k + 1 < clips.len() ==> pts < clips[k + 1].title_pts_start
            &&& c.output_start <= landing_byte(clips, duration, pts) <= byte_after(clips, k, total)
            &&& c.packet_count > 0 ==> landing_byte(clips, duration, pts) < byte_after(
                clips,
                k,
                total,
            )
            &&& c.entry_points.len() == 0 ==> landing_byte(clips, duration, pts) == c.output_start
            &&& c.entry_points.len() > 0 ==> exists|i: int|
                0 <= i < c.entry_points.len() && {
                    &&& landing_packet(clips, duration, pts) == clamped(
                        c,
                        (#[trigger] c.entry_points[i]).spn as int,
                    )
                    &&& c.entry_points[i].pts <= clip_time(c, pts) || i == 0
                    &&& forall|j: int|
                        0 <= j < c.entry_points.len() && (#[trigger] c.entry_points[j]).pts
                            <= clip_time(c, pts) ==> c.entry_points[j].pts
                            <= c.entry_points[i].pts
                }
        }),
{
    lemma_clip_at_time(clips, pts);
    let k = landing_clip(clips, pts);
    let c = clips[k];
    assert(c.valid());
    let eps = c.entry_points;
    let target = clip_time(c, pts);
    lemma_entry_found(eps, target);
    if eps.len() > 0 {
        let i = match entry_at(eps, target) {
            Some(i) => i,
            None => 0,
        };
        assert(landing_packet(clips, duration, pts) == clamped(c, eps[i].spn as int));
        assert forall|j: int| 0 <= j < eps.len() && (#[trigger] eps[j]).pts <= target implies
            eps[j].pts <= eps[i].pts by {
            assert(j <= i ==> eps[j].time() <= eps[i].time());
        }
    }
}

/// Seeking to a later time of the title lands no earlier.
pub proof fn lemma_seek_monotone(
    clips: Seq<SeekClip>,
    total: u64,
    duration: u64,
    a: u64,
    b: u64,
)
    requires
        in_line(clips, total, duration),
        clips.len() > 0,
        a <= b <= duration,
        forall|k: int, i: int, j: int|
            0 <= k < clips.len() && 0 <= i <= j < clips[k].entry_points.len() ==> (
            #[trigger] clips[k].entry_points[i]).spn <= (#[trigger] clips[k].entry_points[j]).spn,
    ensures
        landing_byte(clips, duration, a) <= landing_byte(clips, duration, b),
{
    lemma_clip_at_time(clips, a);
    lemma_clip_at_time(clips, b);
    let ka = landing_clip(clips, a);
    let kb = landing_clip(clips, b);
    lemma_landing_order(clips, a, b);
    assert(clips[ka].valid() && clips[kb].valid());
    if ka < kb {
        lemma_seek_at_or_before(clips, total, duration, a);
        lemma_seek_at_or_before(clips, total, duration, b);
        lemma_starts_monotone(clips, total, duration, ka + 1, kb);
    } else {
        let c = clips[ka];
        let eps = c.entry_points;
        lemma_entry_found(eps, clip_time(c, a));
        lemma_entry_found(eps, clip_time(c, b));
        if eps.len() > 0 {
            let i = match entry_at(eps, clip_time(c, a)) {
                Some(i) => i,
                None => 0,
            };
            let j = match entry_at(eps, clip_time(c, b)) {
                Some(j) => j,
                None => 0,
            };
            if entry_at(eps, clip_time(c, a)) is Some {
                assert(eps[i].pts <= clip_time(c, b));
            }
            assert(i <= j);
            assert(clips[ka].entry_points[i].spn <= clips[ka].entry_points[j].spn);
        }
    }
}

proof fn lemma_landing_order(clips: Seq<SeekClip>, a: u64, b: u64)
    requires
        a <= b,
        clip_at_time(clips, a) is Some,
    ensures
        clip_at_time(clips, b) is Some,
        clip_at_time(clips, a)->0 <= clip_at_time(clips, b)->0 < clips.len(),
    decreases clips.len(),
{
    if clips.last().title_pts_start <= b {
        lemma_clip_at_time(clips, a);
    } else {
        lemma_landing_order(clips.drop_last(), a, b);
    }
}

} // verus!
