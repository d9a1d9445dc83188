//! Chapters of a playlist: where its entry marks lie on the title's time
//! axis, and the spans between them.
use vstd::prelude::*;

use crate::bdmv::common::{be16, be32, lemma_list_at_len};
use crate::bdmv::mpls::{
    item_models, Chapter, ChapterSpan, MarkType, PlayItemModel, PlayListMark, PlayListModel,
    PlayListMpls,
};
use crate::bdmv::mpls_read::{item_reader, mark_reader, playlist_of};
use crate::bdmv::mpls_write::{enc_playlist, lemma_playlist_round_trip, valid_playlist};
use crate::sorting::{by_time, in_time, lemma_by_time, sort_by_time, Timed};

verus! {

/// A PlayList block counts its items in 16 bits; durations are summed in
/// 64 bits, which is enough for far more.
pub open spec fn items_fit(items: Seq<PlayItemModel>) -> bool {
    items.len() <= 0x4000_0000
}

/// The time that the items take together, in 90 kHz ticks.
pub open spec fn total_ticks(items: Seq<PlayItemModel>) -> int
    decreases items.len(),
{
    if items.len() == 0 {
        0
    } else {
        total_ticks(items.drop_last()) + items.last().ticks()
    }
}

/// Where a mark lies on the title's time axis: behind the items before its
/// own, as far into its own as it lies behind that item's start. A mark that
/// is no entry mark, that names no item, or that lies before its item's
/// start, marks no chapter.
pub open spec fn chapter_start(items: Seq<PlayItemModel>, m: PlayListMark) -> Option<int> {
    let k = m.ref_play_item_id as int;
    if MarkType::of_raw(m.mark_type) is EntryMark && k < items.len() && m.mark_time_ticks
        >= items[k].in_time_ticks {
        Some(total_ticks(items.take(k)) + (m.mark_time_ticks - items[k].in_time_ticks) * 2)
    } else {
        None
    }
}

/// The chapters that the marks make, in the order of the marks.
pub open spec fn marked_chapters(items: Seq<PlayItemModel>, marks: Seq<PlayListMark>) -> Seq<
    Chapter,
>
    decreases marks.len(),
{
    if marks.len() == 0 {
        Seq::empty()
    } else {
        let before = marked_chapters(items, marks.drop_last());
        let m = marks.last();
        match chapter_start(items, m) {
            Some(start) => before.push(
                Chapter {
                    index: before.len() as usize,
                    start_pts_90k: start as u64,
                    ref_play_item_id: m.ref_play_item_id,
                },
            ),
            None => before,
        }
    }
}

/// Chapters numbered by their place in the list.
pub open spec fn numbered(s: Seq<Chapter>) -> Seq<Chapter> {
    Seq::new(
        s.len(),
        |i: int|
            Chapter {
                index: i as usize,
                start_pts_90k: s[i].start_pts_90k,
                ref_play_item_id: s[i].ref_play_item_id,
            },
    )
}

/// The chapters of a title in playback order: those that the marks make,
/// ordered by their starts.
pub open spec fn chapters_of(items: Seq<PlayItemModel>, marks: Seq<PlayListMark>) -> Seq<Chapter> {
    numbered(by_time(marked_chapters(items, marks)))
}

impl Timed for Chapter {
    open spec fn time(self) -> int {
        self.start_pts_90k as int
    }

    fn ticks(&self) -> (r: u64) {
        self.start_pts_90k
    }
}

/// The spans of ordered chapters: each ends where the next one starts, the
/// last one with the title (or at once, should it start later).
pub open spec fn spans_of(sorted: Seq<Chapter>, total: int) -> Seq<ChapterSpan> {
    Seq::new(
        sorted.len(),
        |i: int|
            ChapterSpan {
                index: i as usize,
                start_pts_90k: sorted[i].start_pts_90k,
                end_pts_90k: if i + 1 < sorted.len() {
                    sorted[i + 1].start_pts_90k
                } else if total > sorted[i].start_pts_90k {
                    total as u64
                } else {
                    sorted[i].start_pts_90k
                },
                ref_play_item_id: sorted[i].ref_play_item_id,
            },
    )
}

/// The chapter spans of a playlist.
pub open spec fn chapter_spans(m: PlayListModel) -> Seq<ChapterSpan> {
    spans_of(chapters_of(m.play_items, m.marks), total_ticks(m.play_items))
}

/// The sum of durations fits easily.
pub proof fn lemma_total_bound(items: Seq<PlayItemModel>)
    ensures
        0 <= total_ticks(items) <= items.len() * 0x2_0000_0000,
    decreases items.len(),
{
    if items.len() > 0 {
        lemma_total_bound(items.drop_last());
    }
}

/// One more item.
pub proof fn lemma_total_push(items: Seq<PlayItemModel>, i: int)
    requires
        0 <= i < items.len(),
    ensures
        total_ticks(items.take(i + 1)) == total_ticks(items.take(i)) + items[i].ticks(),
{
    assert(items.take(i + 1).drop_last() =~= items.take(i));
}

/// A playlist that was read from a file is short enough for its durations to
/// be summed.
pub proof fn lemma_read_items_fit(s: Seq<u8>)
    ensures
        playlist_of(s) matches Some(m) ==> items_fit(m.play_items) && m.play_items.len() <= 0xFFFF
            && m.marks.len() <= 0xFFFF,
{
    let p = be32(s, 8) as int;
    lemma_list_at_len(item_reader(s), p + 10, be16(s, p + 6) as nat);
    let q = be32(s, 12) as int;
    lemma_list_at_len(mark_reader(s), q + 6, be16(s, q + 4) as nat);
}

impl PlayListMpls {
    /// Length of the title in 90 kHz ticks.
    pub fn duration_90k(&self) -> (r: u64)
        requires
            items_fit(self@.play_items),
        ensures
            r == total_ticks(self@.play_items),
    {
        let items = &self.play_list.play_items;
        let ghost models = item_models(items@);
        let mut total: u64 = 0;
        let mut i: usize = 0;
        while i < items.len()
            invariant
                i <= items@.len(),
                models == item_models(items@),
                items_fit(models),
                total == total_ticks(models.take(i as int)),
            decreases items@.len() - i,
        {
            proof {
                lemma_total_push(models, i as int);
                lemma_total_bound(models.take(i + 1));
            }
            total += items[i].duration_90k();
            i += 1;
        }
        assert(models.take(i as int) =~= models);
        total
    }

    /// The chapters that the marks make, in the order of the marks.
    fn list_marked(&self) -> (out: Vec<Chapter>)
        requires
            items_fit(self@.play_items),
        ensures
            out@ == marked_chapters(self@.play_items, self@.marks),
    {
        let items = &self.play_list.play_items;
        let ghost models = item_models(items@);
        let mut starts: Vec<u64> = Vec::new();
        let mut acc: u64 = 0;
        let mut i: usize = 0;
        while i < items.len()
            invariant
                i <= items@.len(),
                models == item_models(items@),
                items_fit(models),
                acc == total_ticks(models.take(i as int)),
                starts@.len() == i,
                forall|k: int| 0 <= k < i ==> #[trigger] starts@[k] == total_ticks(models.take(k)),
            decreases items@.len() - i,
        {
            starts.push(acc);
            proof {
                lemma_total_push(models, i as int);
                lemma_total_bound(models.take(i + 1));
            }
            acc += items[i].duration_90k();
            i += 1;
        }
        let marks = &self.marks;
        let mut out: Vec<Chapter> = Vec::new();
        let mut j: usize = 0;
        while j < marks.len()
            invariant
                j <= marks@.len(),
                models == item_models(items@),
                items_fit(models),
                starts@.len() == items@.len(),
                forall|k: int|
                    0 <= k < starts@.len() ==> #[trigger] starts@[k] == total_ticks(models.take(k)),
                out@ == marked_chapters(models, marks@.take(j as int)),
            decreases marks@.len() - j,
        {
            let m = &marks[j];
            let ref_id: usize = m.ref_play_item_id as usize;
            proof {
                assert(marks@.take(j + 1).drop_last() =~= marks@.take(j as int));
                assert(marks@.take(j + 1).last() == *m);
                if ref_id < models.len() {
                    lemma_total_bound(models.take(ref_id as int));
                    assert(models[ref_id as int] == items@[ref_id as int]@);
                }
            }
            if m.kind().is_chapter() && ref_id < items.len() && m.mark_time_ticks
                >= items[ref_id].in_time_ticks {
                let offset: u64 = (m.mark_time_ticks - items[ref_id].in_time_ticks) as u64 * 2;
                let start: u64 = starts[ref_id] + offset;
                let index: usize = out.len();
                out.push(
                    Chapter {
                        index,
                        start_pts_90k: start,
                        ref_play_item_id: m.ref_play_item_id,
                    },
                );
            }
            j += 1;
        }
        assert(marks@.take(j as int) =~= marks@);
        out
    }

    /// The chapters on the title's time axis, in playback order.
    pub fn chapters(&self) -> (out: Vec<Chapter>)
        requires
            items_fit(self@.play_items),
        ensures
            out@ == chapters_of(self@.play_items, self@.marks),
    {
        let sorted = sort_by_time(&self.list_marked());
        let mut out: Vec<Chapter> = Vec::new();
        let mut i: usize = 0;
        while i < sorted.len()
            invariant
                i <= sorted@.len(),
                out@ == numbered(sorted@).take(i as int),
            decreases sorted@.len() - i,
        {
            let c = &sorted[i];
            out.push(
                Chapter {
                    index: i,
                    start_pts_90k: c.start_pts_90k,
                    ref_play_item_id: c.ref_play_item_id,
                },
            );
            assert(out@ =~= numbered(sorted@).take(i + 1));
            i += 1;
        }
        assert(out@ =~= numbered(sorted@));
        out
    }

    /// The chapters with their ends.
    pub fn chapters_with_duration(&self) -> (out: Vec<ChapterSpan>)
        requires
            items_fit(self@.play_items),
        ensures
            out@ == chapter_spans(self@),
    {
        let chapters = self.chapters();
        let title_end: u64 = self.duration_90k();
        let ghost spans = chapter_spans(self@);
        let mut out: Vec<ChapterSpan> = Vec::new();
        let mut i: usize = 0;
        while i < chapters.len()
            invariant
                i <= chapters@.len(),
                chapters@ == chapters_of(self@.play_items, self@.marks),
                title_end == total_ticks(self@.play_items),
                spans == chapter_spans(self@),
                out@.len() == i,
                forall|k: int| 0 <= k < i ==> #[trigger] out@[k] == spans[k],
            decreases chapters@.len() - i,
        {
            let c = &chapters[i];
            let end: u64 = if i + 1 < chapters.len() {
                chapters[i + 1].start_pts_90k
            } else if title_end > c.start_pts_90k {
                title_end
            } else {
                c.start_pts_90k
            };
            out.push(
                ChapterSpan {
                    index: i,
                    start_pts_90k: c.start_pts_90k,
                    end_pts_90k: end,
                    ref_play_item_id: c.ref_play_item_id,
                },
            );
            i += 1;
        }
        assert(out@ =~= spans);
        out
    }
}

/// The chapters are in playback order and numbered from 0 in it. They are
/// those that the marks make, none lost and none added.
pub proof fn lemma_chapters_in_order(m: PlayListModel)
    ensures
        in_time(chapters_of(m.play_items, m.marks)),
        forall|i: int|
            0 <= i < chapters_of(m.play_items, m.marks).len() ==> (#[trigger] chapters_of(
                m.play_items,
                m.marks,
            )[i]).index == i as usize,
        by_time(marked_chapters(m.play_items, m.marks)).to_multiset() == marked_chapters(
            m.play_items,
            m.marks,
        ).to_multiset(),
        chapters_of(m.play_items, m.marks).len() == marked_chapters(m.play_items, m.marks).len(),
{
    let sorted = by_time(marked_chapters(m.play_items, m.marks));
    lemma_by_time(marked_chapters(m.play_items, m.marks));
    let list = numbered(sorted);
    assert forall|i: int, j: int| 0 <= i <= j < list.len() implies (#[trigger] list[i]).time() <= (
    #[trigger] list[j]).time() by {
        assert(sorted[i].time() <= sorted[j].time());
    }
}

/// The spans lie end to end: there is one for each chapter, in the same
/// order; each ends where the next one starts, none ends before it starts,
/// and the last one reaches the end of the title.
pub proof fn lemma_chapter_spans(m: PlayListModel)
    requires
        items_fit(m.play_items),
    ensures
        chapter_spans(m).len() == chapters_of(m.play_items, m.marks).len(),
        forall|i: int|
            0 <= i < chapter_spans(m).len() ==> {
                &&& (#[trigger] chapter_spans(m)[i]).start_pts_90k <= chapter_spans(m)[i].end_pts_90k
                &&& chapter_spans(m)[i].start_pts_90k == chapters_of(
                    m.play_items,
                    m.marks,
                )[i].start_pts_90k
            },
        forall|i: int, j: int|
            0 <= i < chapter_spans(m).len() && j == i + 1 && j < chapter_spans(m).len() ==> (
            #[trigger] chapter_spans(m)[i]).end_pts_90k == (
            #[trigger] chapter_spans(m)[j]).start_pts_90k,
        chapter_spans(m).len() > 0 ==> chapter_spans(m).last().end_pts_90k >= total_ticks(
            m.play_items,
        ),
{
    lemma_chapters_in_order(m);
    lemma_total_bound(m.play_items);
    let list = chapters_of(m.play_items, m.marks);
    assert forall|i: int| 0 <= i < chapter_spans(m).len() implies (#[trigger] chapter_spans(
        m,
    )[i]).start_pts_90k <= chapter_spans(m)[i].end_pts_90k by {
        if i + 1 < list.len() {
            assert(list[i].time() <= list[i + 1].time());
        }
    }
}

/// A playlist keeps its chapters when it is written and read again.
pub proof fn lemma_chapters_round_trip(m: PlayListModel)
    requires
        valid_playlist(m),
    ensures
        playlist_of(enc_playlist(m)) matches Some(n) && chapters_of(n.play_items, n.marks)
            == chapters_of(m.play_items, m.marks) && chapter_spans(n) == chapter_spans(m),
{
    lemma_playlist_round_trip(m);
}

} // verus!
