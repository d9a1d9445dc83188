//! The transport stream that a title plays as: its clips one behind the
//! other, decrypted, without the arrival times of the source packets.
//!
//! [`TitleSource`] keeps the place in the stream and decides what is to be
//! done next; opening and reading the stream files is left to its owner. A
//! read asks [`TitleSource::read_step`]: it may take bytes with
//! [`TitleSource::deliver`], or it has to read the next unit of the open file
//! and hand it over with [`TitleSource::take_unit`].
use vstd::prelude::*;
use vstd::string::*;

use crate::bdmv::chapters::{items_fit, total_ticks};
use crate::bdmv::mpls::{item_models, PlayItem, PlayItemModel};
use crate::decrypt::{DecryptError, StreamDecryptor, AACS_UNIT_LEN};
use crate::disc::angles::{
    angle_points, first_point_behind, first_point_from, list_angle_change_points,
    next_point_at_byte, next_point_at_time, AngleChangePoint,
};
use crate::disc::clips::{
    build_clip_seek_index, clip_models, file_models, seek_index, stream_bytes, ClipFiles,
    ClipSeekInfo, SeekClip, MAX_TITLE_BYTES,
};
use crate::disc::seeking::{
    landing_byte, landing_clip, landing_packet, lemma_clip_at_time, plan_for, plan_seek, SeekPlan,
};
use crate::disc::timeline::{
    clip_at_byte, find_clip_at_byte, in_line, lemma_seek_index_in_line, lemma_starts_fit,
    lemma_starts_monotone, list_segments, map_to_title, segments_of, title_time,
    PtsContinuitySegment,
};
use crate::m2ts::{strip_tp_extra, stripped, M2TS_PACKET_LEN};
use crate::text::{dec_text, push_dec};

verus! {

// ---------------------------------------------------------------------
// Angles
// ---------------------------------------------------------------------

/// The first item without a clip for an angle, among the items from `k` on.
pub open spec fn lacking_angle(items: Seq<PlayItemModel>, angle: u8, k: int) -> Option<int>
    decreases items.len() - k,
{
    if k < 0 || k >= items.len() {
        None
    } else if items[k].clip_of_angle(angle as int) is None {
        Some(k)
    } else {
        lacking_angle(items, angle, k + 1)
    }
}

impl PlayItemModel {
    /// The number of angles, at least one.
    pub open spec fn angle_count(self) -> u8 {
        if self.multi_clip_count == 0 {
            1
        } else {
            self.multi_clip_count
        }
    }
}

/// What is said of an item that lacks an angle.
pub open spec fn lacking_text(items: Seq<PlayItemModel>, angle: u8, k: int) -> Seq<char> {
    "angle "@ + dec_text(angle as nat) + " unavailable on PlayItem "@ + dec_text(k as nat)
        + " (has "@ + dec_text(items[k].angle_count() as nat) + " angles)"@
}

/// Say which item lacks an angle; `None` where all have it.
pub fn check_angle(items: &Vec<PlayItem>, angle: u8) -> (r: Option<String>)
    ensures
        match r {
            Some(msg) => lacking_angle(item_models(items@), angle, 0) matches Some(k) && msg@
                == lacking_text(item_models(items@), angle, k),
            None => lacking_angle(item_models(items@), angle, 0) is None,
        },
{
    let ghost models = item_models(items@);
    let mut i: usize = 0;
    while i < items.len()
        invariant
            i <= items@.len(),
            models == item_models(items@),
            lacking_angle(models, angle, 0) == lacking_angle(models, angle, i as int),
        decreases items@.len() - i,
    {
        assert(models[i as int] == items@[i as int]@);
        if items[i].angle_clip(angle).is_none() {
            let mut msg = String::new();
            msg.append("angle ");
            push_dec(&mut msg, angle as u128);
            msg.append(" unavailable on PlayItem ");
            push_dec(&mut msg, i as u128);
            msg.append(" (has ");
            push_dec(&mut msg, items[i].num_angles() as u128);
            msg.append(" angles)");
            assert(msg@ =~= lacking_text(models, angle, i as int));
            return Some(msg);
        }
        i += 1;
    }
    None
}

/// The smallest number of angles among items, `least` at most.
pub open spec fn fewest_angles(items: Seq<PlayItemModel>, least: u8) -> u8
    decreases items.len(),
{
    if items.len() == 0 {
        least
    } else {
        let before = fewest_angles(items.drop_last(), least);
        if items.last().angle_count() < before {
            items.last().angle_count()
        } else {
            before
        }
    }
}

/// The number of angles that all items have.
pub open spec fn common_angles(items: Seq<PlayItemModel>) -> u8 {
    if items.len() == 0 {
        1
    } else {
        fewest_angles(items, 255)
    }
}

/// The number of angles that all items have, at least one.
pub fn count_angles(items: &Vec<PlayItem>) -> (r: u8)
    ensures
        r == common_angles(item_models(items@)),
{
    if items.len() == 0 {
        return 1;
    }
    let ghost models = item_models(items@);
    let mut least: u8 = 255;
    let mut i: usize = 0;
    assert(models.take(0) =~= Seq::empty());
    while i < items.len()
        invariant
            i <= items@.len(),
            models == item_models(items@),
            least == fewest_angles(models.take(i as int), 255),
        decreases items@.len() - i,
    {
        proof {
            assert(models.take(i + 1).drop_last() =~= models.take(i as int));
            assert(models.take(i + 1).last() == items@[i as int]@);
        }
        let n: u8 = items[i].num_angles();
        if n < least {
            least = n;
        }
        i += 1;
    }
    assert(models.take(i as int) =~= models);
    least
}

// ---------------------------------------------------------------------
// The place in the stream
// ---------------------------------------------------------------------

/// The place in a title's stream, and what the title is made of.
#[derive(Debug, Clone)]
pub struct TitleSource {
    pub clips: Vec<ClipSeekInfo>,
    pub clip_idx: usize,
    /// Whether the stream file of the current clip is open.
    pub is_open: bool,
    /// Where the next unit begins in the open file.
    pub clip_offset: u64,
    /// Transport bytes of the last unit, those from `pending_pos` on not yet
    /// delivered.
    pub pending: Vec<u8>,
    pub pending_pos: usize,
    /// Where the next byte to deliver stands in the title.
    pub output_pos: u64,
    pub output_total: u64,
    pub title_duration_90k: u64,
    pub play_items: Vec<PlayItem>,
    pub current_angle: u8,
}

/// Model of [`TitleSource`].
#[verifier::ext_equal]
pub struct SourceModel {
    pub clips: Seq<SeekClip>,
    pub clip_idx: int,
    pub is_open: bool,
    pub clip_offset: int,
    /// What is not yet delivered of the last unit.
    pub pending: Seq<u8>,
    pub output_pos: int,
    pub output_total: u64,
    pub title_duration_90k: u64,
    pub items: Seq<PlayItemModel>,
    pub current_angle: u8,
}

impl View for TitleSource {
    type V = SourceModel;

    open spec fn view(&self) -> SourceModel {
        SourceModel {
            clips: clip_models(self.clips@),
            clip_idx: self.clip_idx as int,
            is_open: self.is_open,
            clip_offset: self.clip_offset as int,
            pending: self.pending@.skip(self.pending_pos as int),
            output_pos: self.output_pos as int,
            output_total: self.output_total,
            title_duration_90k: self.title_duration_90k,
            items: item_models(self.play_items@),
            current_angle: self.current_angle,
        }
    }
}

impl TitleSource {
    /// Whether the clips are in line and the place is one of the stream.
    pub open spec fn wf(&self) -> bool {
        &&& in_line(clip_models(self.clips@), self.output_total, self.title_duration_90k)
        &&& items_fit(item_models(self.play_items@))
        &&& self.play_items@.len() == self.clips@.len()
        &&& self.is_open ==> self.clip_idx < self.clips@.len()
        &&& self.pending_pos <= self.pending@.len() <= 6016
        &&& self.clips@.len() == 0 ==> self.output_pos == 0
    }
}

/// What a read has to do next.
#[derive(Debug, Clone, Copy, PartialEq, Eq, Structural)]
pub enum ReadStep {
    /// Nothing: the stream has ended, or no bytes were asked for.
    End,
    /// Take bytes that are waiting.
    Deliver,
    /// Read the next unit of the open file.
    NextUnit,
}

/// What became of a unit.
#[derive(Debug, Clone, Copy, PartialEq, Eq, Structural)]
pub enum UnitStep {
    /// Its transport bytes are waiting.
    Ready,
    /// The file has ended; open that of the clip with this number.
    Open(usize),
    /// The file has ended, and it was the last one.
    End,
}

impl SourceModel {
    /// The state with the stream file of the current clip open at its start,
    /// if there is such a clip.
    pub open spec fn opened(self) -> SourceModel {
        if self.clip_idx < self.clips.len() {
            SourceModel { is_open: true, clip_offset: 0, ..self }
        } else {
            SourceModel { is_open: false, ..self }
        }
    }

    /// The state behind a unit that has been decrypted. Whole packets of it
    /// wait to be delivered; without any, the next clip's turn has come.
    pub open spec fn after_unit(self, unit: Seq<u8>) -> SourceModel {
        let usable = unit.len() / 192 * 192;
        if usable == 0 {
            SourceModel { clip_idx: self.clip_idx + 1, ..self }.opened()
        } else {
            SourceModel {
                pending: stripped(unit.take(usable as int)),
                clip_offset: self.clip_offset + usable,
                ..self
            }
        }
    }

    /// The state behind `n` delivered bytes.
    pub open spec fn after_delivery(self, n: int) -> SourceModel {
        SourceModel {
            pending: self.pending.skip(n),
            output_pos: self.output_pos + n,
            ..self
        }
    }

    /// The state at the unit that a plan opens.
    pub open spec fn at_plan(self, plan: SeekPlan) -> SourceModel {
        SourceModel {
            clip_idx: plan.clip_idx as int,
            is_open: true,
            clip_offset: plan.unit_byte_start as int,
            pending: Seq::empty(),
            output_pos: plan.output_at_unit as int,
            ..self
        }
    }

    /// What a read for `want` bytes has to do next.
    pub open spec fn step(self, want: int) -> ReadStep {
        if want == 0 || self.output_pos >= self.output_total {
            ReadStep::End
        } else if self.pending.len() > 0 {
            ReadStep::Deliver
        } else if self.is_open {
            ReadStep::NextUnit
        } else {
            ReadStep::End
        }
    }
}

impl TitleSource {
    /// A source for a title, at the beginning, with the first stream file
    /// still to be opened.
    pub fn new(play_items: Vec<PlayItem>, angle: u8, files: &Vec<ClipFiles>) -> (r: Self)
        requires
            items_fit(item_models(play_items@)),
            files@.len() == play_items@.len(),
            stream_bytes(file_models(files@)) <= MAX_TITLE_BYTES,
        ensures
            r.wf(),
            r@ == (SourceModel {
                clips: seek_index(item_models(play_items@), angle, file_models(files@)),
                clip_idx: 0,
                is_open: false,
                clip_offset: 0,
                pending: Seq::empty(),
                output_pos: 0,
                output_total: stream_bytes(file_models(files@)) as u64,
                title_duration_90k: total_ticks(item_models(play_items@)) as u64,
                items: item_models(play_items@),
                current_angle: angle,
            }),
    {
        let (clips, output_total, title_duration_90k) = build_clip_seek_index(
            &play_items,
            angle,
            files,
        );
        proof {
            lemma_seek_index_in_line(item_models(play_items@), angle, file_models(files@));
            assert(clip_models(clips@).len() == clips@.len());
        }
        let r = TitleSource {
            clips,
            clip_idx: 0,
            is_open: false,
            clip_offset: 0,
            pending: Vec::new(),
            pending_pos: 0,
            output_pos: 0,
            output_total,
            title_duration_90k,
            play_items,
            current_angle: angle,
        };
        assert(r.pending@.skip(0) =~= Seq::empty());
        r
    }

    /// The angle that is played.
    pub fn current_angle(&self) -> (r: u8)
        ensures
            r == self.current_angle,
    {
        self.current_angle
    }

    /// The number of angles that the whole title has, at least one.
    pub fn num_angles(&self) -> (r: u8)
        ensures
            r == common_angles(self@.items),
    {
        count_angles(&self.play_items)
    }

    /// The number of transport bytes of the title.
    pub fn output_total(&self) -> (r: u64)
        ensures
            r == self.output_total,
    {
        self.output_total
    }

    /// The segments of the title, one for each PlayItem.
    pub fn pts_continuity_segments(&self) -> (r: Vec<PtsContinuitySegment>)
        ensures
            r@ == segments_of(self@.clips, self.output_total, self.title_duration_90k),
    {
        list_segments(&self.clips, self.output_total, self.title_duration_90k)
    }

    /// The time on the title's axis that a time stamp of a clip stands for,
    /// by the byte of the stream at which it stands.
    pub fn map_clip_pts_to_title_pts(&self, byte_pos: u64, clip_pts_90k: u64) -> (r: Option<u64>)
        requires
            title_time(self@.clips, self.output_total, byte_pos, clip_pts_90k) matches Some(t)
                ==> t <= u64::MAX,
        ensures
            match r {
                Some(t) => title_time(self@.clips, self.output_total, byte_pos, clip_pts_90k)
                    == Some(t as int),
                None => title_time(self@.clips, self.output_total, byte_pos, clip_pts_90k) is None,
            },
    {
        map_to_title(&self.clips, self.output_total, byte_pos, clip_pts_90k)
    }

    /// The places where the angle may change, ordered by time.
    pub fn angle_change_points(&self) -> (r: Vec<AngleChangePoint>)
        requires
            self.wf(),
        ensures
            r@ == angle_points(self@.clips),
    {
        proof {
            lemma_starts_fit(self@.clips, self.output_total, self.title_duration_90k);
        }
        list_angle_change_points(&self.clips)
    }

    /// The first place where the angle may change at or behind a time.
    pub fn next_angle_change_point(&self, pts_90k: u64) -> (r: Option<AngleChangePoint>)
        requires
            self.wf(),
        ensures
            match r {
                Some(p) => exists|k: int| #[trigger]
                    first_point_from(angle_points(self@.clips), pts_90k, k) && p == angle_points(
                        self@.clips,
                    )[k],
                None => forall|j: int|
                    0 <= j < angle_points(self@.clips).len() ==> (#[trigger] angle_points(
                        self@.clips,
                    )[j]).title_pts_90k < pts_90k,
            },
    {
        let points = self.angle_change_points();
        next_point_at_time(&points, pts_90k)
    }

    /// The time at which [`Self::switch_angle_at`] is to change the angle
    /// next: that of the first place at or behind the current one. `None`
    /// where there is no such place any more.
    pub fn switch_angle(&self) -> (r: Option<u64>)
        requires
            self.wf(),
        ensures
            match r {
                Some(t) => exists|k: int| #[trigger]
                    first_point_behind(angle_points(self@.clips), self.output_pos, k) && t
                        == angle_points(self@.clips)[k].title_pts_90k,
                None => forall|j: int|
                    0 <= j < angle_points(self@.clips).len() ==> (#[trigger] angle_points(
                        self@.clips,
                    )[j]).output_byte < self.output_pos,
            },
    {
        let points = self.angle_change_points();
        match next_point_at_byte(&points, self.output_pos) {
            Some(p) => Some(p.title_pts_90k),
            None => None,
        }
    }

    /// Whether a file is to be opened for the current clip, and which.
    pub fn open_next_clip(&mut self) -> (r: Option<usize>)
        requires
            old(self).wf(),
        ensures
            final(self).wf(),
            final(self)@ == old(self)@.opened(),
            r == if old(self).clip_idx < old(self).clips@.len() {
                Some(old(self).clip_idx)
            } else {
                None
            },
    {
        if self.clip_idx >= self.clips.len() {
            self.is_open = false;
            return None;
        }
        self.is_open = true;
        self.clip_offset = 0;
        Some(self.clip_idx)
    }

    /// Go to the entry point at or before a time. The stream file of the
    /// plan's clip is then to be opened at the plan's unit, and the plan's
    /// bytes to be skipped. A title without clips has nowhere to go.
    pub fn seek_to(&mut self, pts_90k: u64) -> (r: Option<SeekPlan>)
        requires
            old(self).wf(),
        ensures
            final(self).wf(),
            match r {
                Some(plan) => {
                    let m = old(self)@;
                    &&& m.clips.len() > 0
                    &&& plan.clip_idx == landing_clip(m.clips, pts_90k)
                    &&& plan == plan_for(
                        m.clips[landing_clip(m.clips, pts_90k)],
                        plan.clip_idx,
                        landing_packet(m.clips, m.title_duration_90k, pts_90k),
                    )
                    &&& plan.target() == landing_byte(m.clips, m.title_duration_90k, pts_90k)
                    &&& final(self)@ == m.at_plan(plan)
                },
                None => old(self)@.clips.len() == 0 && *final(self) == *old(self),
            },
    {
        match plan_seek(&self.clips, self.output_total, self.title_duration_90k, pts_90k) {
            Some(plan) => {
                self.clip_idx = plan.clip_idx;
                self.is_open = true;
                self.clip_offset = plan.unit_byte_start;
                self.pending = Vec::new();
                self.pending_pos = 0;
                self.output_pos = plan.output_at_unit;
                assert(self.pending@.skip(0) =~= Seq::empty());
                assert(self@ =~= old(self)@.at_plan(plan));
                proof {
                    lemma_landing_in_range(old(self)@.clips, pts_90k);
                }
                Some(plan)
            },
            None => None,
        }
    }

    /// Play another angle from a time on. An angle that some PlayItem lacks
    /// is refused with a reason, and nothing changes.
    pub fn switch_angle_at(
        &mut self,
        new_angle: u8,
        files: &Vec<ClipFiles>,
        title_pts_90k: u64,
    ) -> (r: Result<Option<SeekPlan>, String>)
        requires
            old(self).wf(),
            files@.len() == old(self).play_items@.len(),
            stream_bytes(file_models(files@)) <= MAX_TITLE_BYTES,
        ensures
            final(self).wf(),
            match r {
                Ok(plan) => {
                    let items = old(self)@.items;
                    let clips = seek_index(items, new_angle, file_models(files@));
                    let total = stream_bytes(file_models(files@)) as u64;
                    let duration = total_ticks(items) as u64;
                    &&& lacking_angle(items, new_angle, 0) is None
                    &&& final(self)@.clips == clips
                    &&& final(self)@.output_total == total
                    &&& final(self)@.title_duration_90k == duration
                    &&& final(self)@.items == items
                    &&& final(self)@.current_angle == new_angle
                    &&& final(self)@.pending == Seq::<u8>::empty()
                    &&& match plan {
                        Some(plan) => {
                            &&& clips.len() > 0
                            &&& plan == plan_for(
                                clips[landing_clip(clips, title_pts_90k)],
                                landing_clip(clips, title_pts_90k) as usize,
                                landing_packet(clips, duration, title_pts_90k),
                            )
                            &&& plan.target() == landing_byte(clips, duration, title_pts_90k)
                            &&& final(self)@ == final(self)@.at_plan(plan)
                        },
                        None => clips.len() == 0 && final(self)@.output_pos == 0,
                    }
                },
                Err(msg) => lacking_angle(old(self)@.items, new_angle, 0) matches Some(k) && msg@
                    == lacking_text(old(self)@.items, new_angle, k) && *final(self) == *old(self),
            },
    {
        match check_angle(&self.play_items, new_angle) {
            Some(msg) => {
                return Err(msg);
            },
            None => {},
        }
        let (clips, output_total, title_duration_90k) = build_clip_seek_index(
            &self.play_items,
            new_angle,
            files,
        );
        proof {
            lemma_seek_index_in_line(self@.items, new_angle, file_models(files@));
            assert(clip_models(clips@).len() == clips@.len());
        }
        self.clips = clips;
        self.output_total = output_total;
        self.title_duration_90k = title_duration_90k;
        self.current_angle = new_angle;
        self.is_open = false;
        self.pending = Vec::new();
        self.pending_pos = 0;
        self.clip_offset = 0;
        self.output_pos = 0;
        self.clip_idx = 0;
        assert(self.pending@.skip(0) =~= Seq::empty());
        Ok(self.seek_to(title_pts_90k))
    }

    /// What a read for `want` bytes has to do next.
    pub fn read_step(&self, want: usize) -> (r: ReadStep)
        requires
            self.wf(),
        ensures
            r == self@.step(want as int),
    {
        if want == 0 || self.output_pos >= self.output_total {
            ReadStep::End
        } else if self.pending_pos < self.pending.len() {
            ReadStep::Deliver
        } else if self.is_open {
            ReadStep::NextUnit
        } else {
            ReadStep::End
        }
    }

    /// Take over what was read of the open file, a unit at most and less only
    /// at the end of the file. A whole unit is decrypted first. Where the
    /// decryptor gives up, nothing changes but the unit.
    pub fn take_unit<D: StreamDecryptor>(&mut self, decryptor: &mut D, unit: &mut [u8]) -> (r:
        Result<UnitStep, DecryptError>)
        requires
            old(self).wf(),
            old(self).is_open,
            old(unit)@.len() <= 6144,
            old(self).clip_offset + 6144 <= u64::MAX,
        ensures
            final(self).wf(),
            final(unit)@.len() == old(unit)@.len(),
            old(unit)@.len() < 6144 ==> final(unit)@ == old(unit)@ && *final(decryptor)
                == *old(decryptor) && r is Ok,
            old(unit)@.len() == 6144 ==> old(decryptor).turns(
                old(unit)@,
                old(self).clip_offset,
                final(unit)@,
                match r {
                    Ok(_) => None,
                    Err(e) => Some(e),
                },
            ),
            match r {
                Ok(step) => {
                    &&& final(self)@ == old(self)@.after_unit(final(unit)@)
                    &&& step == if old(unit)@.len() >= 192 {
                        UnitStep::Ready
                    } else if old(self).clip_idx + 1 < old(self).clips@.len() {
                        UnitStep::Open((old(self).clip_idx + 1) as usize)
                    } else {
                        UnitStep::End
                    }
                },
                Err(_) => *final(self) == *old(self),
            },
    {
        let filled: usize = unit.len();
        let usable: usize = filled - filled % M2TS_PACKET_LEN;
        if usable == 0 {
            self.is_open = false;
            self.clip_idx += 1;
            return match self.open_next_clip() {
                Some(k) => Ok(UnitStep::Open(k)),
                None => Ok(UnitStep::End),
            };
        }
        if usable == AACS_UNIT_LEN {
            match decryptor.decrypt_units(unit, self.clip_offset) {
                Ok(()) => {},
                Err(e) => {
                    return Err(e);
                },
            }
        }
        self.clip_offset = self.clip_offset + usable as u64;
        let packets = vstd::slice::slice_subrange(unit, 0, usable);
        self.pending = strip_tp_extra(packets);
        self.pending_pos = 0;
        proof {
            assert(unit@.subrange(0, usable as int) =~= unit@.take(usable as int));
            assert(self.pending@.skip(0) =~= self.pending@);
            assert(usable / 192 <= 32);
            assert(self@ =~= old(self)@.after_unit(unit@));
        }
        Ok(UnitStep::Ready)
    }

    /// Take waiting bytes: as many as there are, or as `out` holds.
    pub fn deliver(&mut self, out: &mut [u8]) -> (n: usize)
        requires
            old(self).wf(),
            old(self).output_pos < old(self).output_total,
        ensures
            final(self).wf(),
            n == if old(self)@.pending.len() < old(out)@.len() {
                old(self)@.pending.len()
            } else {
                old(out)@.len()
            },
            final(out)@ == old(self)@.pending.take(n as int) + old(out)@.skip(n as int),
            final(self)@ == old(self)@.after_delivery(n as int),
    {
        let count: usize = self.pending.len();
        let avail: usize = count - self.pending_pos;
        let room: usize = out.len();
        let take: usize = if avail < room {
            avail
        } else {
            room
        };
        let mut i: usize = 0;
        while i < take
            invariant
                i <= take <= room,
                room == out@.len(),
                out@.len() == old(out)@.len(),
                *self == *old(self),
                count == self.pending@.len(),
                self.pending_pos <= count,
                take <= count - self.pending_pos,
                forall|k: int|
                    0 <= k < out@.len() ==> #[trigger] out@[k] == if k < i {
                        self.pending@[self.pending_pos + k]
                    } else {
                        old(out)@[k]
                    },
            decreases take - i,
        {
            out[i] = self.pending[self.pending_pos + i];
            i += 1;
        }
        proof {
            assert(out@ =~= old(self)@.pending.take(take as int) + old(out)@.skip(take as int));
            assert(self.pending@.skip(self.pending_pos as int).skip(take as int)
                =~= self.pending@.skip(self.pending_pos + take));
        }
        self.pending_pos = self.pending_pos + take;
        self.output_pos = self.output_pos + take as u64;
        assert(self@ =~= old(self)@.after_delivery(take as int));
        take
    }
}

// ---------------------------------------------------------------------
// To a byte
// ---------------------------------------------------------------------

/// A place in the stream: from its start, from the current place, or from its
/// end.
#[derive(Debug, Clone, Copy, PartialEq, Eq, Structural)]
pub enum SeekOrigin {
    Start(u64),
    Current(i64),
    End(i64),
}

/// What a seek to a byte has to do.
#[derive(Debug, Clone, Copy, PartialEq, Eq, Structural)]
pub enum SeekStep {
    /// Nothing: the source is there.
    Stay,
    /// Read on up to a byte.
    Forward { cap: u64 },
    /// Open the stream file of a clip at its start, then read on up to a
    /// byte.
    Reopen { clip_idx: usize, cap: u64 },
}

impl SourceModel {
    /// The place that a seek names, which may lie before the start.
    pub open spec fn named_place(self, origin: SeekOrigin) -> int {
        match origin {
            SeekOrigin::Start(n) => n as int,
            SeekOrigin::Current(d) => self.output_pos + d,
            SeekOrigin::End(d) => self.output_total + d,
        }
    }

    /// The byte that a seek goes to: the place that it names, in 64 bits.
    /// There is none before the start.
    pub open spec fn seek_target(self, origin: SeekOrigin) -> Option<int> {
        if self.named_place(origin) < 0 {
            None
        } else {
            Some(self.named_place(origin) % 0x1_0000_0000_0000_0000)
        }
    }

    /// The state with the stream file of a clip open at its start.
    pub open spec fn at_clip(self, k: int) -> SourceModel {
        SourceModel {
            clip_idx: k,
            is_open: true,
            clip_offset: 0,
            pending: Seq::empty(),
            output_pos: self.clips[k].output_start as int,
            ..self
        }
    }
}

/// What is said of a seek to before the start.
pub open spec fn before_start_text() -> Seq<char> {
    "TitleSource: seek before start"@
}

/// `base` and `d` together in 64 bits, or `None` below zero.
fn offset_by(base: u64, d: i64) -> (r: Option<u64>)
    ensures
        match r {
            Some(n) => base + d >= 0 && n == (base + d) % 0x1_0000_0000_0000_0000,
            None => base + d < 0,
        },
{
    if d >= 0 {
        Some(base.wrapping_add(d as u64))
    } else {
        let back: u64 = (-(d + 1)) as u64 + 1;
        if back > base {
            None
        } else {
            Some(base - back)
        }
    }
}

impl SourceModel {
    /// The clip in which a byte lies, the first one if none begins before it.
    pub open spec fn clip_for(self, byte: u64) -> int {
        match clip_at_byte(self.clips, byte) {
            Some(k) => k,
            None => 0,
        }
    }

    /// What a seek to a byte has to do.
    pub open spec fn seek_step(self, target: u64) -> SeekStep {
        let cap = if target < self.output_total {
            target
        } else {
            self.output_total
        };
        if target == self.output_pos {
            SeekStep::Stay
        } else if target > self.output_pos {
            SeekStep::Forward { cap }
        } else {
            SeekStep::Reopen { clip_idx: self.clip_for(target) as usize, cap }
        }
    }
}

impl TitleSource {
    /// The byte that a seek goes to.
    fn seek_byte(&self, origin: SeekOrigin) -> (r: Option<u64>)
        ensures
            match r {
                Some(n) => self@.seek_target(origin) == Some(n as int),
                None => self@.seek_target(origin) is None,
            },
    {
        match origin {
            SeekOrigin::Start(n) => Some(n),
            SeekOrigin::Current(d) => offset_by(self.output_pos, d),
            SeekOrigin::End(d) => offset_by(self.output_total, d),
        }
    }

    /// Go back to the start of the clip in which a byte lies.
    fn back_to(&mut self, target: u64) -> (clip_idx: usize)
        requires
            old(self).wf(),
            old(self).clips@.len() > 0,
        ensures
            final(self).wf(),
            clip_idx == old(self)@.clip_for(target),
            clip_idx < old(self).clips@.len(),
            final(self)@ == old(self)@.at_clip(clip_idx as int),
    {
        let clip_idx: usize = match find_clip_at_byte(&self.clips, target) {
            Some(k) => k,
            None => 0,
        };
        self.clip_idx = clip_idx;
        self.is_open = true;
        self.clip_offset = 0;
        self.pending = Vec::new();
        self.pending_pos = 0;
        self.output_pos = self.clips[clip_idx].output_start;
        proof {
            assert(self.pending@.skip(0) =~= Seq::empty());
            assert(old(self)@.clips[clip_idx as int] == self.clips@[clip_idx as int]@);
            assert(self@ =~= old(self)@.at_clip(clip_idx as int));
        }
        clip_idx
    }

    /// Go to a byte. Going back opens the clip in which the byte lies at its
    /// start; the way from there, like any way forward, is read and dropped,
    /// up to the end of the title at most.
    pub fn seek(&mut self, origin: SeekOrigin) -> (r: Result<SeekStep, String>)
        requires
            old(self).wf(),
        ensures
            final(self).wf(),
            match r {
                Ok(step) => {
                    let m = old(self)@;
                    &&& m.seek_target(origin) is Some
                    &&& step == m.seek_step(m.seek_target(origin)->0 as u64)
                    &&& if step is Reopen {
                        final(self)@ == m.at_clip(m.clip_for(m.seek_target(origin)->0 as u64))
                    } else {
                        *final(self) == *old(self)
                    }
                },
                Err(msg) => old(self)@.seek_target(origin) is None && msg@ == before_start_text()
                    && *final(self) == *old(self),
            },
    {
        let target: u64 = match self.seek_byte(origin) {
            Some(n) => n,
            None => {
                return Err("TitleSource: seek before start".to_owned());
            },
        };
        if target == self.output_pos {
            return Ok(SeekStep::Stay);
        }
        let cap: u64 = if target < self.output_total {
            target
        } else {
            self.output_total
        };
        if target > self.output_pos {
            return Ok(SeekStep::Forward { cap });
        }
        let clip_idx: usize = self.back_to(target);
        Ok(SeekStep::Reopen { clip_idx, cap })
    }
}

proof fn lemma_landing_in_range(clips: Seq<SeekClip>, pts: u64)
    requires
        clips.len() > 0,
    ensures
        0 <= landing_clip(clips, pts) < clips.len(),
{
    lemma_clip_at_time(clips, pts);
}

/// A seek lands within the title.
pub proof fn lemma_landing_fits(clips: Seq<SeekClip>, total: u64, duration: u64, pts: u64)
    requires
        in_line(clips, total, duration),
    ensures
        0 <= landing_byte(clips, duration, pts) <= total,
{
    if clips.len() > 0 {
        lemma_landing_in_range(clips, pts);
        let k = landing_clip(clips, pts);
        let c = clips[k];
        assert(c.valid());
        lemma_starts_monotone(clips, total, duration, k, k);
        if k + 1 < clips.len() {
            lemma_starts_monotone(clips, total, duration, k + 1, k + 1);
        }
        assert(landing_packet(clips, duration, pts) <= c.packet_count);
    }
}

/// A model holds what the fields hold.
pub proof fn lemma_models_hold_fields(title_source: TitleSource, i: int)
    ensures
        title_source@.clips.len() == title_source.clips@.len(),
        0 <= i < title_source.clips@.len() ==> title_source@.clips[i] == title_source.clips@[i]@,
        title_source@.clip_idx == title_source.clip_idx as int,
        title_source@.is_open == title_source.is_open,
        title_source@.clip_offset == title_source.clip_offset as int,
        title_source@.pending == title_source.pending@.skip(title_source.pending_pos as int),
        title_source@.output_pos == title_source.output_pos as int,
        title_source@.output_total == title_source.output_total,
        title_source@.title_duration_90k == title_source.title_duration_90k,
        title_source@.items.len() == title_source.play_items@.len(),
        0 <= i < title_source.play_items@.len() ==> title_source@.items[i] == title_source.play_items@[i]@,
        title_source@.current_angle == title_source.current_angle,
{
}

} // verus!
