//! A title cut into chapters: which chapters are asked for, and which bytes
//! of the title's stream each of them is.
use vstd::prelude::*;
use vstd::string::*;

use crate::bdmv::mpls::Chapter;
use crate::disc::clips::SeekClip;
use crate::disc::seeking::{landing_byte, lemma_seek_monotone, plan_seek};
use crate::disc::source::{lemma_landing_fits, TitleSource};
use crate::disc::timeline::in_line;
use crate::error::BlurayError;
use crate::sorting::{in_time, Timed};
use crate::text::{dec_text, push_dec};

verus! {

/// A choice of chapters, counted from 1.
#[derive(Debug, Clone, PartialEq, Eq)]
pub enum ChapterSelector {
    All,
    /// From `start` to `end`, both included, or to the last one.
    Range { start: u32, end: Option<u32> },
    /// In the order given.
    List(Vec<u32>),
}

/// One chapter that is asked for.
#[derive(Debug, Clone, Copy, PartialEq, Eq, Structural)]
pub struct ChapterRequest {
    /// Counted from 1.
    pub chapter_id: u32,
    pub start_pts_90k: u64,
    /// Where the next chapter starts; for the last one, the title's length.
    pub end_pts_90k: u64,
    /// Whether it is the last chapter, which goes on to the end of the
    /// stream.
    pub ends_at_title_end: bool,
}

/// One chapter's bytes of a title's stream.
#[derive(Debug, Clone, PartialEq, Eq)]
pub struct ChapterSegment {
    /// Counted from 1.
    pub chapter_id: u32,
    pub start_pts_90k: u64,
    pub end_pts_90k: u64,
    pub bytes: Vec<u8>,
}

// ---------------------------------------------------------------------
// The choice
// ---------------------------------------------------------------------

/// The numbers from `first` to `last`.
pub open spec fn counted(first: u32, last: u32) -> Seq<u32> {
    Seq::new(
        if last >= first {
            (last - first + 1) as nat
        } else {
            0
        },
        |i: int| (first + i) as u32,
    )
}

/// Whether a number is that of a chapter.
pub open spec fn is_chapter_id(id: u32, count: u32) -> bool {
    1 <= id <= count
}

/// The first number of a list that is not that of a chapter.
pub open spec fn first_stray(ids: Seq<u32>, count: u32) -> Option<u32>
    decreases ids.len(),
{
    if ids.len() == 0 {
        None
    } else {
        match first_stray(ids.drop_last(), count) {
            Some(id) => Some(id),
            None => if is_chapter_id(ids.last(), count) {
                None
            } else {
                Some(ids.last())
            },
        }
    }
}

/// What is said of a number that is out of bounds.
pub open spec fn outside_text(what: Seq<char>, n: u32, low: u32, high: u32) -> Seq<char> {
    what + dec_text(n as nat) + " is outside ["@ + dec_text(low as nat) + ", "@ + dec_text(
        high as nat,
    ) + "]"@
}

/// The chapters that are chosen among `count`, or what is wrong with the
/// choice.
pub open spec fn chosen(selector: ChapterSelector, count: u32) -> Result<Seq<u32>, Seq<char>> {
    match selector {
        ChapterSelector::All => Ok(counted(1, count)),
        ChapterSelector::Range { start, end } => {
            let last = match end {
                Some(e) => e,
                None => count,
            };
            if !is_chapter_id(start, count) {
                Err(outside_text("chapter range start "@, start, 1, count))
            } else if last < start || last > count {
                Err(outside_text("chapter range end "@, last, start, count))
            } else {
                Ok(counted(start, last))
            }
        },
        ChapterSelector::List(ids) => match first_stray(ids@, count) {
            Some(id) => Err(outside_text("chapter id "@, id, 1, count)),
            None => Ok(ids@),
        },
    }
}

/// The request for a chapter.
pub open spec fn request_for(chapters: Seq<Chapter>, duration: u64, id: u32) -> ChapterRequest {
    let i = id - 1;
    ChapterRequest {
        chapter_id: id,
        start_pts_90k: chapters[i].start_pts_90k,
        end_pts_90k: if i + 1 < chapters.len() {
            chapters[i + 1].start_pts_90k
        } else {
            duration
        },
        ends_at_title_end: i + 1 >= chapters.len(),
    }
}

/// The requests for some chapters.
pub open spec fn requests_for(chapters: Seq<Chapter>, duration: u64, ids: Seq<u32>) -> Seq<
    ChapterRequest,
> {
    Seq::new(ids.len(), |i: int| request_for(chapters, duration, ids[i]))
}

/// What is said of a title without chapters.
pub open spec fn no_chapters_text(title_id: u16) -> Seq<char> {
    "title "@ + dec_text(title_id as nat) + " has no chapters — cannot slice by chapter"@
}

fn outside(what: &str, n: u32, low: u32, high: u32) -> (r: String)
    ensures
        r@ == outside_text(what@, n, low, high),
{
    let mut s = String::new();
    s.append(what);
    push_dec(&mut s, n as u128);
    s.append(" is outside [");
    push_dec(&mut s, low as u128);
    s.append(", ");
    push_dec(&mut s, high as u128);
    s.append("]");
    assert(s@ =~= outside_text(what@, n, low, high));
    s
}

fn count_up(first: u32, last: u32) -> (r: Vec<u32>)
    ensures
        r@ == counted(first, last),
{
    let mut r: Vec<u32> = Vec::new();
    if last < first {
        assert(r@ =~= counted(first, last));
        return r;
    }
    let n: u64 = (last - first) as u64 + 1;
    let mut i: u64 = 0;
    while i < n
        invariant
            i <= n,
            first <= last,
            n == last - first + 1,
            r@.len() == i,
            forall|k: int| 0 <= k < i ==> #[trigger] r@[k] == first + k,
        decreases n - i,
    {
        r.push(first + i as u32);
        i += 1;
    }
    assert(r@ =~= counted(first, last));
    r
}

fn find_stray(ids: &Vec<u32>, count: u32) -> (r: Option<u32>)
    ensures
        r == first_stray(ids@, count),
{
    let mut i: usize = 0;
    while i < ids.len()
        invariant
            i <= ids@.len(),
            first_stray(ids@.take(i as int), count) is None,
        decreases ids@.len() - i,
    {
        let id: u32 = ids[i];
        assert(ids@.take(i + 1).drop_last() =~= ids@.take(i as int));
        if id < 1 || id > count {
            proof {
                lemma_stray_stays(ids@, count, i + 1);
            }
            return Some(id);
        }
        i += 1;
    }
    assert(ids@.take(i as int) =~= ids@);
    None
}

proof fn lemma_stray_stays(ids: Seq<u32>, count: u32, n: int)
    requires
        0 <= n <= ids.len(),
        first_stray(ids.take(n), count) is Some,
    ensures
        first_stray(ids, count) == first_stray(ids.take(n), count),
    decreases ids.len(),
{
    if n == ids.len() {
        assert(ids.take(n) =~= ids);
    } else {
        assert(ids.drop_last().take(n) =~= ids.take(n));
        lemma_stray_stays(ids.drop_last(), count, n);
    }
}

/// The numbers of the chapters that are chosen.
pub fn select_chapters(selector: &ChapterSelector, count: u32) -> (r: Result<Vec<u32>, String>)
    ensures
        match r {
            Ok(ids) => chosen(*selector, count) == Ok::<Seq<u32>, Seq<char>>(ids@),
            Err(msg) => chosen(*selector, count) == Err::<Seq<u32>, Seq<char>>(msg@),
        },
{
    match selector {
        ChapterSelector::All => Ok(count_up(1, count)),
        ChapterSelector::Range { start, end } => {
            let last: u32 = match end {
                Some(e) => *e,
                None => count,
            };
            if *start < 1 || *start > count {
                Err(outside("chapter range start ", *start, 1, count))
            } else if last < *start || last > count {
                Err(outside("chapter range end ", last, *start, count))
            } else {
                Ok(count_up(*start, last))
            }
        },
        ChapterSelector::List(ids) => match find_stray(ids, count) {
            Some(id) => Err(outside("chapter id ", id, 1, count)),
            None => {
                let copy = ids.clone();
                assert(copy@ =~= ids@);
                Ok(copy)
            },
        },
    }
}

/// Every chosen chapter exists.
pub proof fn lemma_chosen_exist(selector: ChapterSelector, count: u32)
    ensures
        chosen(selector, count) matches Ok(ids) ==> forall|i: int|
            0 <= i < ids.len() ==> is_chapter_id(#[trigger] ids[i], count),
{
    match selector {
        ChapterSelector::List(ids) => {
            lemma_no_stray(ids@, count);
        },
        _ => {},
    }
}

proof fn lemma_no_stray(ids: Seq<u32>, count: u32)
    ensures
        first_stray(ids, count) is None ==> forall|i: int|
            0 <= i < ids.len() ==> is_chapter_id(#[trigger] ids[i], count),
    decreases ids.len(),
{
    if ids.len() > 0 && first_stray(ids, count) is None {
        lemma_no_stray(ids.drop_last(), count);
        assert forall|i: int| 0 <= i < ids.len() implies is_chapter_id(#[trigger] ids[i], count) by {
            if i < ids.len() - 1 {
                assert(ids.drop_last()[i] == ids[i]);
            }
        }
    }
}

/// The requests for the chosen chapters of a title.
pub fn chapter_requests(
    title_id: u16,
    title_duration: u64,
    chapters: &Vec<Chapter>,
    selector: &ChapterSelector,
) -> (r: Result<Vec<ChapterRequest>, BlurayError>)
    requires
        chapters@.len() <= u32::MAX,
    ensures
        match r {
            Ok(requests) => chapters@.len() > 0 && (chosen(
                *selector,
                chapters@.len() as u32,
            ) matches Ok(ids) && requests@ == requests_for(chapters@, title_duration, ids)),
            Err(e) => if chapters@.len() == 0 {
                e is NotBluray && e->NotBluray_0@ == no_chapters_text(title_id)
            } else {
                chosen(*selector, chapters@.len() as u32) matches Err(msg)
                    && e.is_malformed(msg)
            },
        },
{
    if chapters.len() == 0 {
        let mut msg = String::new();
        msg.append("title ");
        push_dec(&mut msg, title_id as u128);
        msg.append(" has no chapters — cannot slice by chapter");
        assert(msg@ =~= no_chapters_text(title_id));
        return Err(BlurayError::NotBluray(msg));
    }
    let count: u32 = chapters.len() as u32;
    let ids = match select_chapters(selector, count) {
        Ok(ids) => ids,
        Err(msg) => {
            return Err(BlurayError::Malformed(msg));
        },
    };
    proof {
        lemma_chosen_exist(*selector, count);
        let all = chosen(*selector, count)->Ok_0;
        assert(all == ids@);
        assert forall|k: int| 0 <= k < ids@.len() implies is_chapter_id(
            #[trigger] ids@[k],
            count,
        ) by {
            assert(is_chapter_id(all[k], count));
        }
    }
    let mut requests: Vec<ChapterRequest> = Vec::new();
    let mut i: usize = 0;
    while i < ids.len()
        invariant
            i <= ids@.len(),
            chapters@.len() <= u32::MAX,
            count == chapters@.len(),
            forall|k: int| 0 <= k < ids@.len() ==> is_chapter_id(#[trigger] ids@[k], count),
            requests@ =~= requests_for(chapters@, title_duration, ids@).take(i as int),
        decreases ids@.len() - i,
    {
        let chapter_id: u32 = ids[i];
        assert(is_chapter_id(ids@[i as int], count));
        let at: usize = chapter_id as usize - 1;
        let last = at + 1 == chapters.len();
        let end_pts_90k: u64 = if last {
            title_duration
        } else {
            chapters[at + 1].start_pts_90k
        };
        requests.push(
            ChapterRequest {
                chapter_id,
                start_pts_90k: chapters[at].start_pts_90k,
                end_pts_90k,
                ends_at_title_end: last,
            },
        );
        i += 1;
    }
    assert(requests@ =~= requests_for(chapters@, title_duration, ids@));
    Ok(requests)
}

// ---------------------------------------------------------------------
// The bytes
// ---------------------------------------------------------------------

/// The bytes of a chapter: from where a seek to its start lands to where a
/// seek to its end lands, for the last chapter to the end of the stream.
pub open spec fn chapter_range(
    clips: Seq<SeekClip>,
    total: u64,
    duration: u64,
    req: ChapterRequest,
) -> (int, int) {
    (
        landing_byte(clips, duration, req.start_pts_90k),
        if req.ends_at_title_end {
            total as int
        } else {
            landing_byte(clips, duration, req.end_pts_90k)
        },
    )
}

/// Length of a range; one that ends before it starts is empty.
pub open spec fn range_len(r: (int, int)) -> int {
    if r.0 >= r.1 {
        0
    } else {
        r.1 - r.0
    }
}

impl TitleSource {
    /// The byte that a seek to a time lands on.
    pub fn landing(&self, pts_90k: u64) -> (r: u64)
        requires
            self.wf(),
        ensures
            r == landing_byte(self@.clips, self.title_duration_90k, pts_90k),
    {
        match plan_seek(&self.clips, self.output_total, self.title_duration_90k, pts_90k) {
            Some(plan) => {
                proof {
                    lemma_landing_fits(
                        self@.clips,
                        self.output_total,
                        self.title_duration_90k,
                        pts_90k,
                    );
                }
                plan.output_at_unit + plan.skip
            },
            None => 0,
        }
    }

    /// Where the bytes of a chapter begin, and how many they are.
    pub fn chapter_bytes(&self, req: &ChapterRequest) -> (r: (u64, u64))
        requires
            self.wf(),
        ensures
            ({
                let range = chapter_range(
                    self@.clips,
                    self.output_total,
                    self.title_duration_90k,
                    *req,
                );
                r.0 == range.0 && r.1 == range_len(range)
            }),
    {
        let end: u64 = if req.ends_at_title_end {
            self.output_total
        } else {
            self.landing(req.end_pts_90k)
        };
        let start: u64 = self.landing(req.start_pts_90k);
        if start >= end {
            (start, 0)
        } else {
            (start, end - start)
        }
    }
}

/// The chapters of a title that are still to be read.
#[derive(Debug, Clone)]
pub struct ChapterSegments {
    pub requests: Vec<ChapterRequest>,
}

impl ChapterSegments {
    /// How many chapters are left.
    pub fn remaining(&self) -> (r: usize)
        ensures
            r == self.requests@.len(),
    {
        self.requests.len()
    }

    /// The next chapter, which is then no longer left.
    pub fn next_request(&mut self) -> (r: Option<ChapterRequest>)
        ensures
            match r {
                Some(req) => old(self).requests@.len() > 0 && req == old(self).requests@[0]
                    && final(self).requests@ == old(self).requests@.skip(1),
                None => old(self).requests@.len() == 0 && *final(self) == *old(self),
            },
    {
        if self.requests.len() == 0 {
            return None;
        }
        let req = self.requests.remove(0);
        assert(self.requests@ =~= old(self).requests@.skip(1));
        Some(req)
    }
}

/// Chapters that follow each other share their seam: one ends on the byte on
/// which the next one begins, and the last one ends with the stream.
pub proof fn lemma_chapter_seams(
    clips: Seq<SeekClip>,
    total: u64,
    duration: u64,
    chapters: Seq<Chapter>,
    id: u32,
)
    requires
        1 <= id <= chapters.len() <= u32::MAX,
    ensures
        id < chapters.len() ==> chapter_range(
            clips,
            total,
            duration,
            request_for(chapters, duration, id),
        ).1 == chapter_range(
            clips,
            total,
            duration,
            request_for(chapters, duration, (id + 1) as u32),
        ).0,
        id == chapters.len() ==> chapter_range(
            clips,
            total,
            duration,
            request_for(chapters, duration, id),
        ).1 == total,
{
}

/// No chapter ends before it begins: together with their shared seams, the
/// chapters of a title lie end to end in its stream. The entry points of each
/// clip have to lie in the order of their packets, and no chapter may begin
/// behind the end of the title.
pub proof fn lemma_chapters_run_forward(
    clips: Seq<SeekClip>,
    total: u64,
    duration: u64,
    chapters: Seq<Chapter>,
    id: u32,
)
    requires
        in_line(clips, total, duration),
        clips.len() > 0,
        in_time(chapters),
        forall|i: int| 0 <= i < chapters.len() ==> (#[trigger] chapters[i]).start_pts_90k <= duration,
        forall|k: int, i: int, j: int|
            0 <= k < clips.len() && 0 <= i <= j < clips[k].entry_points.len() ==> (
            #[trigger] clips[k].entry_points[i]).spn <= (#[trigger] clips[k].entry_points[j]).spn,
        1 <= id <= chapters.len() <= u32::MAX,
    ensures
        ({
            let range = chapter_range(clips, total, duration, request_for(chapters, duration, id));
            0 <= range.0 <= range.1 <= total
        }),
{
    let here = chapters[id - 1];
    lemma_landing_fits(clips, total, duration, here.start_pts_90k);
    if id < chapters.len() {
        let next = chapters[id as int];
        assert(here.time() <= next.time());
        lemma_landing_fits(clips, total, duration, next.start_pts_90k);
        lemma_seek_monotone(clips, total, duration, here.start_pts_90k, next.start_pts_90k);
    }
}

/// Chapters are asked for in the order of the choice.
pub proof fn lemma_requests_in_order(
    chapters: Seq<Chapter>,
    duration: u64,
    ids: Seq<u32>,
    i: int,
)
    requires
        0 <= i < ids.len(),
        1 <= ids[i] <= chapters.len(),
    ensures
        requests_for(chapters, duration, ids).len() == ids.len(),
        requests_for(chapters, duration, ids)[i].chapter_id == ids[i],
        requests_for(chapters, duration, ids)[i].start_pts_90k
            == chapters[ids[i] - 1].start_pts_90k,
{
}

} // verus!
