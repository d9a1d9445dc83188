//! What the playlist of a title says of it: chapters, tracks, angles,
//! segments, and the stream itself.
//!
//! `playlist` is in each case the content of the title's playlist file,
//! `None` where it could not be read. A playlist that is missing or not valid
//! gives empty lists.
use vstd::prelude::*;
use vstd::string::*;

use crate::bdmv::chapters::{
    chapter_spans, chapters_of, lemma_chapters_in_order, lemma_read_items_fit, lemma_total_bound,
    marked_chapters, total_ticks,
};
use crate::bdmv::common::{be16, be32, lemma_list_at_item, lemma_list_at_len, stands};
use crate::bdmv::mpls::{
    item_models, Chapter, ChapterSpan, PlayItemModel, PlayListMark, PlayListModel, PlayListMpls,
    SubPath,
};
use crate::bdmv::mpls_read::{angle_reader, item_at, item_reader, playlist_of, playlist_refusal};
use crate::disc::angles::{angle_points, list_angle_change_points, AngleChangePoint};
use crate::disc::chapter_segments::{
    chapter_requests, chosen, no_chapters_text, requests_for, ChapterSegments, ChapterSelector,
};
use crate::disc::clips::{
    build_clip_seek_index, clip_models, clip_stems, file_models, seek_index, stem_of, stream_bytes,
    ClipFiles, ClipFilesModel, MAX_TITLE_BYTES,
};
use crate::disc::meta::{find_title_meta, language_text, meta_from, DiscTitleMeta, MetaFile};
use crate::disc::source::{
    check_angle, common_angles, count_angles, fewest_angles, lacking_angle, lacking_text,
    SourceModel, TitleSource,
};
use crate::disc::timeline::{
    lemma_seek_index_in_line, lemma_starts_fit, list_segments, segments_of, PtsContinuitySegment,
};
use crate::disc::titles::{option_slice, playlist_in, read_playlist, Disc, TitleInfo};
use crate::disc::tracks::{build_track_catalogue, tracks_of, TrackCatalogue, TrackModel};
use crate::error::BlurayError;

verus! {

/// The chapters of a playlist that may not be there.
pub open spec fn chapters_in(file: Option<Seq<u8>>) -> Seq<Chapter> {
    match playlist_in(file) {
        Some(m) => chapters_of(m.play_items, m.marks),
        None => Seq::empty(),
    }
}

/// The highest angle that all items have.
pub open spec fn highest_angle(items: Seq<PlayItemModel>) -> int {
    common_angles(items) - 1
}

/// Whether a title can be played on an angle.
pub open spec fn playable(m: PlayListModel, angle: u8) -> bool {
    m.play_items.len() > 0 && lacking_angle(m.play_items, angle, 0) is None
}

/// Whether the files of a title's clips were looked for: one for each
/// PlayItem, and not too large together.
pub open spec fn files_fit(file: Option<Seq<u8>>, files: Seq<ClipFiles>) -> bool {
    playlist_in(file) matches Some(m) ==> files.len() == m.play_items.len() && stream_bytes(
        file_models(files),
    ) <= MAX_TITLE_BYTES
}

/// The state in which a title is opened on an angle.
pub open spec fn opened_title(m: PlayListModel, angle: u8, files: Seq<ClipFiles>) -> SourceModel {
    SourceModel {
        clips: seek_index(m.play_items, angle, file_models(files)),
        clip_idx: 0,
        is_open: false,
        clip_offset: 0,
        pending: Seq::empty(),
        output_pos: 0,
        output_total: stream_bytes(file_models(files)) as u64,
        title_duration_90k: total_ticks(m.play_items) as u64,
        items: m.play_items,
        current_angle: angle,
    }
}

proof fn lemma_marked_count(items: Seq<PlayItemModel>, marks: Seq<PlayListMark>)
    ensures
        marked_chapters(items, marks).len() <= marks.len(),
    decreases marks.len(),
{
    if marks.len() > 0 {
        lemma_marked_count(items, marks.drop_last());
    }
}

proof fn lemma_chapter_count(m: PlayListModel)
    ensures
        chapters_of(m.play_items, m.marks).len() <= m.marks.len(),
{
    lemma_marked_count(m.play_items, m.marks);
    lemma_chapters_in_order(m);
}

impl Disc {
    /// What the XML files of the disc say of it as a whole.
    pub fn title_meta(&self, files: &Vec<MetaFile>) -> (r: Option<DiscTitleMeta>)
        ensures
            match r {
                Some(m) => meta_from(files@, 0) == Some((m.title@, language_text(m))),
                None => meta_from(files@, 0) is None,
            },
    {
        find_title_meta(files)
    }

    /// The highest angle that the whole title has.
    pub fn max_angle(&self, playlist: Option<&[u8]>) -> (r: u8)
        ensures
            r == match playlist_in(option_slice(playlist)) {
                Some(m) => highest_angle(m.play_items),
                None => 0,
            },
    {
        match read_playlist(playlist) {
            Some(pl) => {
                proof {
                    lemma_angles_positive(pl@.play_items);
                }
                count_angles(&pl.play_list.play_items) - 1
            },
            None => 0,
        }
    }

    /// The chapters, in playback order.
    pub fn chapters(&self, playlist: Option<&[u8]>) -> (r: Vec<Chapter>)
        ensures
            r@ == chapters_in(option_slice(playlist)),
    {
        match read_playlist(playlist) {
            Some(pl) => pl.chapters(),
            None => Vec::new(),
        }
    }

    /// The chapters with their ends.
    pub fn chapter_spans(&self, playlist: Option<&[u8]>) -> (r: Vec<ChapterSpan>)
        ensures
            r@ == match playlist_in(option_slice(playlist)) {
                Some(m) => chapter_spans(m),
                None => Seq::empty(),
            },
    {
        match read_playlist(playlist) {
            Some(pl) => pl.chapters_with_duration(),
            None => Vec::new(),
        }
    }

    /// The SubPaths.
    pub fn title_sub_paths(&self, playlist: Option<&[u8]>) -> (r: Vec<SubPath>)
        ensures
            r@ == match playlist_in(option_slice(playlist)) {
                Some(m) => m.sub_paths,
                None => Seq::empty(),
            },
    {
        match read_playlist(playlist) {
            Some(pl) => pl.play_list.sub_paths,
            None => Vec::new(),
        }
    }

    /// The tracks.
    pub fn title_streams(&self, playlist: Option<&[u8]>) -> (r: TrackCatalogue)
        ensures
            r@ == match playlist_in(option_slice(playlist)) {
                Some(m) => tracks_of(m.play_items),
                None => Seq::<TrackModel>::empty(),
            },
    {
        match read_playlist(playlist) {
            Some(pl) => build_track_catalogue(&pl),
            None => TrackCatalogue::default(),
        }
    }

    /// The stems of the clips that the title plays on an angle: the files to
    /// look for, one for each PlayItem.
    pub fn title_clips(&self, playlist: Option<&[u8]>, angle: u8) -> (r: Vec<String>)
        ensures
            match playlist_in(option_slice(playlist)) {
                Some(m) => r@.len() == m.play_items.len() && forall|k: int|
                    0 <= k < r@.len() ==> (#[trigger] r@[k])@ == stem_of(m.play_items[k], angle),
                None => r@.len() == 0,
            },
    {
        match read_playlist(playlist) {
            Some(pl) => {
                let r = clip_stems(&pl.play_list.play_items, angle);
                assert forall|k: int| 0 <= k < r@.len() implies (#[trigger] r@[k])@ == stem_of(
                    pl@.play_items[k],
                    angle,
                ) by {
                    assert(pl@.play_items[k] == pl.play_list.play_items@[k]@);
                }
                r
            },
            None => Vec::new(),
        }
    }

    /// The segments of the title on the primary angle.
    pub fn title_pts_continuity_segments(
        &self,
        playlist: Option<&[u8]>,
        files: &Vec<ClipFiles>,
    ) -> (r: Vec<PtsContinuitySegment>)
        requires
            files_fit(option_slice(playlist), files@),
        ensures
            r@ == segments_in(option_slice(playlist), 0, files@),
    {
        self.title_pts_continuity_segments_with_angle(playlist, 0, files)
    }

    /// The segments of the title on an angle; none where some PlayItem lacks
    /// the angle.
    pub fn title_pts_continuity_segments_with_angle(
        &self,
        playlist: Option<&[u8]>,
        angle: u8,
        files: &Vec<ClipFiles>,
    ) -> (r: Vec<PtsContinuitySegment>)
        requires
            files_fit(option_slice(playlist), files@),
        ensures
            r@ == segments_in(option_slice(playlist), angle, files@),
    {
        let pl = match read_playlist(playlist) {
            Some(pl) => pl,
            None => {
                return Vec::new();
            },
        };
        let items = &pl.play_list.play_items;
        if items.len() == 0 || check_angle(items, angle).is_some() {
            return Vec::new();
        }
        let (clips, output_total, duration) = build_clip_seek_index(items, angle, files);
        list_segments(&clips, output_total, duration)
    }

    /// The places where the angle may change, on the primary angle.
    pub fn title_angle_change_points(
        &self,
        playlist: Option<&[u8]>,
        files: &Vec<ClipFiles>,
    ) -> (r: Vec<AngleChangePoint>)
        requires
            files_fit(option_slice(playlist), files@),
        ensures
            r@ == angle_points_in(option_slice(playlist), 0, files@),
    {
        self.title_angle_change_points_with_angle(playlist, 0, files)
    }

    /// The places where the angle may change, on an angle; none where some
    /// PlayItem lacks the angle.
    pub fn title_angle_change_points_with_angle(
        &self,
        playlist: Option<&[u8]>,
        angle: u8,
        files: &Vec<ClipFiles>,
    ) -> (r: Vec<AngleChangePoint>)
        requires
            files_fit(option_slice(playlist), files@),
        ensures
            r@ == angle_points_in(option_slice(playlist), angle, files@),
    {
        let pl = match read_playlist(playlist) {
            Some(pl) => pl,
            None => {
                return Vec::new();
            },
        };
        let items = &pl.play_list.play_items;
        if items.len() == 0 || check_angle(items, angle).is_some() {
            return Vec::new();
        }
        let (clips, output_total, duration) = build_clip_seek_index(items, angle, files);
        proof {
            lemma_seek_index_in_line(pl@.play_items, angle, file_models(files@));
            lemma_starts_fit(clip_models(clips@), output_total, duration);
        }
        list_angle_change_points(&clips)
    }

    /// The stream of the title on the primary angle.
    pub fn open_title(&self, playlist: &[u8], files: &Vec<ClipFiles>) -> (r: Result<
        TitleSource,
        BlurayError,
    >)
        requires
            files_fit(Some(playlist@), files@),
        ensures
            opening(playlist@, 0, files@, r),
    {
        self.open_title_with_angle(playlist, 0, files)
    }

    /// The stream of the title on an angle. A title without PlayItems, and an
    /// angle that some PlayItem lacks, are refused.
    pub fn open_title_with_angle(
        &self,
        playlist: &[u8],
        angle: u8,
        files: &Vec<ClipFiles>,
    ) -> (r: Result<TitleSource, BlurayError>)
        requires
            files_fit(Some(playlist@), files@),
        ensures
            opening(playlist@, angle, files@, r),
    {
        let pl = PlayListMpls::parse(playlist)?;
        proof {
            lemma_read_items_fit(playlist@);
        }
        let ghost m = pl@;
        let items = pl.play_list.play_items;
        assert(item_models(items@) == m.play_items);
        if items.len() == 0 {
            return Err(BlurayError::not_bluray("title has no PlayItems"));
        }
        match check_angle(&items, angle) {
            Some(msg) => {
                return Err(BlurayError::NotBluray(msg));
            },
            None => {},
        }
        Ok(TitleSource::new(items, angle, files))
    }

    /// The requests for the chosen chapters of a title.
    pub fn open_title_chapters(
        &self,
        title: &TitleInfo,
        selector: &ChapterSelector,
        playlist: Option<&[u8]>,
    ) -> (r: Result<ChapterSegments, BlurayError>)
        ensures
            ({
                let chapters = chapters_in(option_slice(playlist));
                let choice = chosen(*selector, chapters.len() as u32);
                match r {
                    Ok(s) => chapters.len() > 0 && (choice matches Ok(ids) && s.requests@
                        == requests_for(chapters, title.duration_ticks, ids)),
                    Err(e) => if chapters.len() == 0 {
                        e is NotBluray && e->NotBluray_0@ == no_chapters_text(title.id)
                    } else {
                        choice matches Err(msg) && e.is_malformed(msg)
                    },
                }
            }),
    {
        let chapters = self.chapters(playlist);
        proof {
            match option_slice(playlist) {
                Some(s) => {
                    lemma_read_items_fit(s);
                    match playlist_of(s) {
                        Some(m) => {
                            lemma_chapter_count(m);
                        },
                        None => {},
                    }
                },
                None => {},
            }
        }
        let requests = chapter_requests(title.id, title.duration_ticks, &chapters, selector)?;
        Ok(ChapterSegments { requests })
    }
}

/// The segments of a title on an angle.
pub open spec fn segments_in(file: Option<Seq<u8>>, angle: u8, files: Seq<ClipFiles>) -> Seq<
    PtsContinuitySegment,
> {
    match playlist_in(file) {
        Some(m) => if playable(m, angle) {
            segments_of(
                seek_index(m.play_items, angle, file_models(files)),
                stream_bytes(file_models(files)) as u64,
                total_ticks(m.play_items) as u64,
            )
        } else {
            Seq::empty()
        },
        None => Seq::empty(),
    }
}

/// The places where the angle of a title may change.
pub open spec fn angle_points_in(file: Option<Seq<u8>>, angle: u8, files: Seq<ClipFiles>) -> Seq<
    AngleChangePoint,
> {
    match playlist_in(file) {
        Some(m) => if playable(m, angle) {
            angle_points(seek_index(m.play_items, angle, file_models(files)))
        } else {
            Seq::empty()
        },
        None => Seq::empty(),
    }
}

/// What comes of opening a title on an angle.
pub open spec fn opening(
    playlist: Seq<u8>,
    angle: u8,
    files: Seq<ClipFiles>,
    r: Result<TitleSource, BlurayError>,
) -> bool {
    match playlist_of(playlist) {
        None => r matches Err(e) && e.is_malformed(playlist_refusal(playlist)),
        Some(m) => if m.play_items.len() == 0 {
            r matches Err(e) && e is NotBluray && e->NotBluray_0@ == "title has no PlayItems"@
        } else {
            match lacking_angle(m.play_items, angle, 0) {
                Some(k) => r matches Err(e) && e is NotBluray && e->NotBluray_0@ == lacking_text(
                    m.play_items,
                    angle,
                    k,
                ),
                None => r matches Ok(source) && source.wf() && source@ == opened_title(
                    m,
                    angle,
                    files,
                ),
            }
        },
    }
}

proof fn lemma_fewest_positive(items: Seq<PlayItemModel>, least: u8)
    requires
        least >= 1,
    ensures
        fewest_angles(items, least) >= 1,
    decreases items.len(),
{
    if items.len() > 0 {
        lemma_fewest_positive(items.drop_last(), least);
    }
}

proof fn lemma_angles_positive(items: Seq<PlayItemModel>)
    ensures
        common_angles(items) >= 1,
{
    lemma_fewest_positive(items, 255);
}

/// Whether an item has as many clips as it says it has angles.
pub open spec fn counts_angles(item: PlayItemModel) -> bool {
    item.angles.len() + 1 == item.angle_count()
}

/// The items of a playlist that was read have as many clips as they say they
/// have angles.
proof fn lemma_read_items_count_angles(s: Seq<u8>)
    ensures
        playlist_of(s) matches Some(m) ==> forall|k: int|
            0 <= k < m.play_items.len() ==> counts_angles(#[trigger] m.play_items[k]),
{
    match playlist_of(s) {
        Some(m) => {
            let p = be32(s, 8) as int;
            let n = be16(s, p + 6) as nat;
            lemma_list_at_len(item_reader(s), p + 10, n);
            assert forall|k: int| 0 <= k < m.play_items.len() implies counts_angles(
                #[trigger] m.play_items[k],
            ) by {
                lemma_list_at_item(item_reader(s), p + 10, n, k);
                let (at, end) = choose|at: int, end: int|
                    stands(item_reader(s), at, m.play_items[k], end);
                assert(item_at(s, at) == Some((m.play_items[k], end)));
                lemma_list_at_len(
                    angle_reader(s),
                    at + 36,
                    if s[at + 34] == 0 {
                        0
                    } else {
                        (s[at + 34] - 1) as nat
                    },
                );
            }
        },
        None => {},
    }
}

proof fn lemma_fewest(items: Seq<PlayItemModel>, least: u8)
    ensures
        fewest_angles(items, least) <= least,
        forall|k: int|
            0 <= k < items.len() ==> fewest_angles(items, least) <= (
            #[trigger] items[k]).angle_count(),
        fewest_angles(items, least) == least || exists|k: int|
            0 <= k < items.len() && fewest_angles(items, least) == (
            #[trigger] items[k]).angle_count(),
    decreases items.len(),
{
    if items.len() > 0 {
        let init = items.drop_last();
        lemma_fewest(init, least);
        let f = fewest_angles(items, least);
        assert forall|k: int| 0 <= k < items.len() implies f <= (
        #[trigger] items[k]).angle_count() by {
            if k < items.len() - 1 {
                assert(init[k] == items[k]);
            }
        }
        if f != least {
            if f == fewest_angles(init, least) {
                let k = choose|k: int| 0 <= k < init.len() && f == (#[trigger] init[k]).angle_count();
                assert(items[k] == init[k]);
            } else {
                assert(items[items.len() - 1] == items.last());
            }
        }
    }
}

proof fn lemma_lacking(items: Seq<PlayItemModel>, angle: u8, from: int)
    requires
        0 <= from <= items.len(),
    ensures
        lacking_angle(items, angle, from) is None <==> forall|k: int|
            from <= k < items.len() ==> (#[trigger] items[k]).clip_of_angle(angle as int) is Some,
    decreases items.len() - from,
{
    if from < items.len() {
        lemma_lacking(items, angle, from + 1);
        if lacking_angle(items, angle, from) is Some {
            if items[from].clip_of_angle(angle as int) is Some {
                let k = choose|k: int|
                    from + 1 <= k < items.len() && (#[trigger] items[k]).clip_of_angle(
                        angle as int,
                    ) is None;
                assert(items[k].clip_of_angle(angle as int) is None);
            }
        }
    }
}

/// The highest angle of a title is the highest one on which it can be opened,
/// and it can be opened on every angle up to that one.
pub proof fn lemma_max_angle(playlist: Seq<u8>, angle: u8)
    ensures
        playlist_of(playlist) matches Some(m) ==> m.play_items.len() > 0 ==> (playable(m, angle)
            <==> angle <= highest_angle(m.play_items)),
{
    match playlist_of(playlist) {
        Some(m) => {
            let items = m.play_items;
            if items.len() > 0 {
                lemma_read_items_count_angles(playlist);
                lemma_fewest(items, 255);
                lemma_lacking(items, angle, 0);
                let f = fewest_angles(items, 255);
                assert forall|k: int| 0 <= k < items.len() implies (
                #[trigger] items[k]).clip_of_angle(angle as int) is Some <==> angle
                    < items[k].angle_count() by {
                    assert(counts_angles(items[k]));
                }
                if angle < f {
                    assert forall|k: int| 0 <= k < items.len() implies (
                    #[trigger] items[k]).clip_of_angle(angle as int) is Some by {
                        assert(f <= items[k].angle_count());
                    }
                } else {
                    if f == 255 {
                        assert(items[0].angle_count() <= 255);
                        assert(items[0].clip_of_angle(angle as int) is None);
                    } else {
                        let k = choose|k: int|
                            0 <= k < items.len() && f == (#[trigger] items[k]).angle_count();
                        assert(items[k].clip_of_angle(angle as int) is None);
                    }
                }
            }
        },
        None => {},
    }
}

/// A title can be opened on an angle where it has items and all of them have
/// the angle. It is opened at the beginning of its stream; the stream has all
/// bytes of its clips, and lasts as long as its items.
pub proof fn lemma_title_opened(
    playlist: Seq<u8>,
    angle: u8,
    files: Seq<ClipFiles>,
    r: Result<TitleSource, BlurayError>,
)
    requires
        opening(playlist, angle, files, r),
    ensures
        r is Ok <==> (playlist_of(playlist) matches Some(m) && m.play_items.len() > 0 && playable(
            m,
            angle,
        )),
        r matches Ok(source) ==> {
            let m = playlist_of(playlist)->0;
            &&& source@.output_pos == 0
            &&& source@.pending.len() == 0
            &&& source@.clip_idx == 0
            &&& source@.current_angle == angle
            &&& source@.items == m.play_items
            &&& source@.clips.len() == m.play_items.len()
            &&& stream_bytes(file_models(files)) <= u64::MAX ==> source@.output_total
                == stream_bytes(file_models(files))
            &&& total_ticks(m.play_items) <= u64::MAX ==> source@.title_duration_90k == total_ticks(
                m.play_items,
            )
        },
{
    if let Some(m) = playlist_of(playlist) {
        lemma_total_bound(m.play_items);
        lemma_bytes_not_negative(file_models(files));
    }
}

proof fn lemma_bytes_not_negative(files: Seq<ClipFilesModel>)
    ensures
        stream_bytes(files) >= 0,
    decreases files.len(),
{
    if files.len() > 0 {
        lemma_bytes_not_negative(files.drop_last());
    }
}

/// What a title's playlist says is read from its file; a title whose playlist
/// is missing or broken has no chapters, segments or places to change the angle,
/// nor has one the segments and places of an angle that it lacks.
pub proof fn lemma_listed_from_file(s: Seq<u8>, angle: u8, files: Seq<ClipFiles>)
    ensures
        chapters_in(None).len() == 0,
        segments_in(None, angle, files).len() == 0,
        angle_points_in(None, angle, files).len() == 0,
        playlist_of(s) is None ==> chapters_in(Some(s)).len() == 0 && segments_in(
            Some(s),
            angle,
            files,
        ).len() == 0 && angle_points_in(Some(s), angle, files).len() == 0,
        playlist_of(s) matches Some(m) ==> {
            &&& chapters_in(Some(s)) == chapters_of(m.play_items, m.marks)
            &&& m.play_items.len() == 0 || lacking_angle(m.play_items, angle, 0) is Some
                ==> segments_in(Some(s), angle, files).len() == 0 && angle_points_in(
                Some(s),
                angle,
                files,
            ).len() == 0
            &&& m.play_items.len() > 0 && lacking_angle(m.play_items, angle, 0) is None ==> {
                let clips = seek_index(m.play_items, angle, file_models(files));
                &&& segments_in(Some(s), angle, files).len() == m.play_items.len()
                &&& angle_points_in(Some(s), angle, files) == angle_points(clips)
            }
        },
{
}

} // verus!
