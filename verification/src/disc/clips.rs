//! The clips that a title plays one behind the other: where each begins in
//! the title's bytes and on its time axis, and where a clip may be entered.
//!
//! Times are in 90 kHz ticks. A clip has a time axis of its own; the window
//! of its PlayItem is laid onto the title's axis.
use vstd::prelude::*;
use vstd::string::*;
use vstd::utf8::encode_utf8;

use crate::bdmv::chapters::{items_fit, lemma_total_bound, lemma_total_push, total_ticks};
use crate::bdmv::clpi::{clip_of, primary_map, ClipInformation, ClipModel, EpEntry};
use crate::bdmv::mpls::{item_models, ConnectionCondition, PlayItem, PlayItemModel};
use crate::m2ts::{M2TS_PACKET_LEN, TS_PACKET_LEN};
use crate::sorting::{by_time, sort_by_time, Timed};

verus! {

// ---------------------------------------------------------------------
// What the files of a clip say
// ---------------------------------------------------------------------

/// A place where a clip may be entered: a time on the clip's axis and a
/// source packet.
#[derive(Debug, Clone, Copy, PartialEq, Eq, Structural)]
pub struct EntryPoint {
    pub pts: u32,
    pub spn: u32,
}

impl Timed for EntryPoint {
    open spec fn time(self) -> int {
        self.pts as int
    }

    fn ticks(&self) -> (r: u64) {
        self.pts as u64
    }
}

/// What was found of a clip on the disc: the length of its stream file and
/// the content of its information file.
#[derive(Debug, Clone)]
pub struct ClipFiles {
    pub m2ts_len: Option<u64>,
    pub clpi: Option<Vec<u8>>,
}

/// Model of [`ClipFiles`].
pub struct ClipFilesModel {
    pub m2ts_len: Option<u64>,
    pub clpi: Option<Seq<u8>>,
}

/// The bytes of an optional list.
pub open spec fn option_bytes(v: Option<Vec<u8>>) -> Option<Seq<u8>> {
    match v {
        Some(b) => Some(b@),
        None => None,
    }
}

impl View for ClipFiles {
    type V = ClipFilesModel;

    open spec fn view(&self) -> ClipFilesModel {
        ClipFilesModel { m2ts_len: self.m2ts_len, clpi: option_bytes(self.clpi) }
    }
}

pub open spec fn file_models(v: Seq<ClipFiles>) -> Seq<ClipFilesModel> {
    Seq::new(v.len(), |i: int| v[i]@)
}

impl ClipFilesModel {
    /// Whole source packets of the stream file; none where there is no file.
    pub open spec fn packets(self) -> int {
        match self.m2ts_len {
            Some(n) => n as int / 192,
            None => 0,
        }
    }

    /// The clip information, where there is a valid file.
    pub open spec fn clip(self) -> Option<ClipModel> {
        clip_in(self.clpi)
    }
}

/// The clip information in the content of a file.
pub open spec fn clip_in(clpi: Option<Seq<u8>>) -> Option<ClipModel> {
    match clpi {
        Some(s) => clip_of(s),
        None => None,
    }
}

/// The transport bytes that clips make together.
pub open spec fn stream_bytes(files: Seq<ClipFilesModel>) -> int
    decreases files.len(),
{
    if files.len() == 0 {
        0
    } else {
        stream_bytes(files.drop_last()) + files.last().packets() * 188
    }
}

/// The most transport bytes that a title may have: a byte position and that
/// of any source packet behind it can then be added in 64 bits.
pub const MAX_TITLE_BYTES: u64 = 0xFFFF_FF43_0000_0000;

/// The transport bytes that clips make together, unless they are too many.
pub fn title_bytes(files: &Vec<ClipFiles>) -> (r: Option<u64>)
    ensures
        match r {
            Some(n) => n == stream_bytes(file_models(files@)) && n <= MAX_TITLE_BYTES,
            None => stream_bytes(file_models(files@)) > MAX_TITLE_BYTES,
        },
{
    let ghost models = file_models(files@);
    let mut total: u64 = 0;
    let mut i: usize = 0;
    while i < files.len()
        invariant
            i <= files@.len(),
            models == file_models(files@),
            total == stream_bytes(models.take(i as int)),
            total <= MAX_TITLE_BYTES,
        decreases files@.len() - i,
    {
        let packets: u64 = packet_count(&files[i]);
        proof {
            lemma_stream_push(models, i as int);
            lemma_stream_monotone(models, i + 1, models.len() as int);
            assert(models.take(models.len() as int) =~= models);
        }
        if packets * 188 > MAX_TITLE_BYTES - total {
            return None;
        }
        total += packets * 188;
        i += 1;
    }
    assert(models.take(i as int) =~= models);
    Some(total)
}

/// Whole source packets of a clip.
fn packet_count(f: &ClipFiles) -> (r: u64)
    ensures
        r == f@.packets(),
        r <= 0x0155_5555_5555_5555,
{
    match f.m2ts_len {
        Some(n) => {
            assert(n / 192 * 192 <= n);
            n / M2TS_PACKET_LEN as u64
        },
        None => 0,
    }
}

/// One more clip.
pub proof fn lemma_stream_push(files: Seq<ClipFilesModel>, i: int)
    requires
        0 <= i < files.len(),
    ensures
        stream_bytes(files.take(i + 1)) == stream_bytes(files.take(i)) + files[i].packets() * 188,
{
    assert(files.take(i + 1).drop_last() =~= files.take(i));
}

/// More clips make no fewer bytes.
pub proof fn lemma_stream_monotone(files: Seq<ClipFilesModel>, i: int, j: int)
    requires
        0 <= i <= j <= files.len(),
    ensures
        0 <= stream_bytes(files.take(i)) <= stream_bytes(files.take(j)),
    decreases j,
{
    if j > 0 {
        lemma_stream_push(files, j - 1);
        if i < j {
            lemma_stream_monotone(files, i, j - 1);
        } else {
            lemma_stream_monotone(files, i - 1, j - 1);
        }
    } else {
        assert(files.take(0) =~= Seq::empty());
    }
}

/// The entry points of a map.
pub open spec fn points_of(entries: Seq<EpEntry>) -> Seq<EntryPoint> {
    Seq::new(
        entries.len(),
        |i: int| EntryPoint { pts: entries[i].pts_ep_start, spn: entries[i].spn_ep_start },
    )
}

/// The entries of a map at which the angle may change.
pub open spec fn angle_entries(entries: Seq<EpEntry>) -> Seq<EpEntry>
    decreases entries.len(),
{
    if entries.len() == 0 {
        Seq::empty()
    } else if entries.last().is_angle_change_point {
        angle_entries(entries.drop_last()).push(entries.last())
    } else {
        angle_entries(entries.drop_last())
    }
}

/// The entries of the primary video stream.
pub open spec fn video_entries(clip: Option<ClipModel>) -> Seq<EpEntry> {
    match clip {
        Some(c) => match primary_map(c.cpi.ep_map) {
            Some(ep) => ep.entries,
            None => Seq::empty(),
        },
        None => Seq::empty(),
    }
}

/// Where an STC sequence of the first ATC sequence begins, 0 where there is
/// none of that number.
pub open spec fn stc_origin(clip: Option<ClipModel>, stc_id: u8) -> int {
    match clip {
        Some(c) => if c.atc_sequences.len() > 0 && stc_id < c.atc_sequences[0].stc_sequences.len() {
            c.atc_sequences[0].stc_sequences[stc_id as int].presentation_start_time * 2
        } else {
            0
        },
        None => 0,
    }
}

/// What the information file of a clip says for playback.
#[derive(Debug, Clone)]
pub struct ClipMeta {
    /// Ordered by time.
    pub entry_points: Vec<EntryPoint>,
    pub stc_origin_pts_90k: u64,
    /// The entry points at which the angle may change, ordered by time.
    pub angle_change_eps: Vec<EntryPoint>,
}

/// Read what the information file of a clip says for playback. Without a
/// valid file there are no entry points, and the origin is 0.
pub fn load_clip_meta(clpi: &Option<Vec<u8>>, stc_id_ref: u8) -> (r: ClipMeta)
    ensures
        ({
            let clip = clip_in(option_bytes(*clpi));
            &&& r.entry_points@ == by_time(points_of(video_entries(clip)))
            &&& r.stc_origin_pts_90k == stc_origin(clip, stc_id_ref)
            &&& r.angle_change_eps@ == by_time(points_of(angle_entries(video_entries(clip))))
        }),
{
    let ghost clip = clip_in(option_bytes(*clpi));
    let mut points: Vec<EntryPoint> = Vec::new();
    let mut angles: Vec<EntryPoint> = Vec::new();
    let mut origin: u64 = 0;
    let ghost entries = video_entries(clip);
    match clpi {
        Some(bytes) => match ClipInformation::parse(bytes.as_slice()) {
            Ok(c) => {
                match c.cpi.primary_video_ep_map() {
                    Some(ep) => {
                        assert(ep.entries@ == entries);
                        points = list_points(&ep.entries);
                        angles = list_angle_points(&ep.entries);
                    },
                    None => {},
                }
                let atc = &c.sequence_info.atc_sequences;
                assert(c@.atc_sequences.len() == atc@.len());
                if atc.len() > 0 {
                    let stc = &atc[0].stc_sequences;
                    assert(c@.atc_sequences[0].stc_sequences == stc@);
                    if (stc_id_ref as usize) < stc.len() {
                        origin = stc[stc_id_ref as usize].presentation_start_time as u64 * 2;
                    }
                }
            },
            Err(_) => {},
        },
        None => {},
    }
    proof {
        if entries.len() == 0 {
            assert(points_of(entries) =~= Seq::empty());
        }
        assert(points@ =~= points_of(entries));
        assert(angles@ =~= points_of(angle_entries(entries)));
    }
    ClipMeta {
        entry_points: sort_by_time(&points),
        stc_origin_pts_90k: origin,
        angle_change_eps: sort_by_time(&angles),
    }
}

fn list_points(entries: &Vec<EpEntry>) -> (r: Vec<EntryPoint>)
    ensures
        r@ == points_of(entries@),
{
    let mut r: Vec<EntryPoint> = Vec::new();
    let mut i: usize = 0;
    while i < entries.len()
        invariant
            i <= entries@.len(),
            r@ =~= points_of(entries@).take(i as int),
        decreases entries@.len() - i,
    {
        r.push(EntryPoint { pts: entries[i].pts_ep_start, spn: entries[i].spn_ep_start });
        i += 1;
    }
    assert(r@ =~= points_of(entries@));
    r
}

fn list_angle_points(entries: &Vec<EpEntry>) -> (r: Vec<EntryPoint>)
    ensures
        r@ == points_of(angle_entries(entries@)),
{
    let mut r: Vec<EntryPoint> = Vec::new();
    let mut i: usize = 0;
    assert(entries@.take(0) =~= Seq::empty());
    while i < entries.len()
        invariant
            i <= entries@.len(),
            r@ =~= points_of(angle_entries(entries@.take(i as int))),
        decreases entries@.len() - i,
    {
        assert(entries@.take(i + 1).drop_last() =~= entries@.take(i as int));
        if entries[i].is_angle_change_point {
            r.push(EntryPoint { pts: entries[i].pts_ep_start, spn: entries[i].spn_ep_start });
        }
        i += 1;
    }
    assert(entries@.take(i as int) =~= entries@);
    r
}

// ---------------------------------------------------------------------
// The clips of a title
// ---------------------------------------------------------------------

/// One clip of a title.
#[derive(Debug, Clone)]
pub struct ClipSeekInfo {
    /// Stem of the clip's file names, such as `"00001"`.
    pub stem: String,
    /// Where the clip's transport bytes begin in those of the title.
    pub output_start: u64,
    /// Whole packets that the clip has.
    pub packet_count: u64,
    /// Where the clip begins on the title's time axis.
    pub title_pts_start: u64,
    /// Where the PlayItem's window begins on the clip's time axis.
    pub in_pts_90k: u64,
    /// Where the PlayItem's window ends on the clip's time axis.
    pub out_pts_90k: u64,
    pub entry_points: Vec<EntryPoint>,
    pub angle_change_eps: Vec<EntryPoint>,
    pub connection_condition: ConnectionCondition,
    pub stc_id_ref: u8,
    pub stc_origin_pts_90k: u64,
}

/// Model of [`ClipSeekInfo`].
#[verifier::ext_equal]
pub struct SeekClip {
    pub stem: Seq<char>,
    pub output_start: u64,
    pub packet_count: u64,
    pub title_pts_start: u64,
    pub in_pts_90k: u64,
    pub out_pts_90k: u64,
    pub entry_points: Seq<EntryPoint>,
    pub angle_change_eps: Seq<EntryPoint>,
    pub connection_condition: ConnectionCondition,
    pub stc_id_ref: u8,
    pub stc_origin_pts_90k: u64,
}

impl View for ClipSeekInfo {
    type V = SeekClip;

    open spec fn view(&self) -> SeekClip {
        SeekClip {
            stem: self.stem@,
            output_start: self.output_start,
            packet_count: self.packet_count,
            title_pts_start: self.title_pts_start,
            in_pts_90k: self.in_pts_90k,
            out_pts_90k: self.out_pts_90k,
            entry_points: self.entry_points@,
            angle_change_eps: self.angle_change_eps@,
            connection_condition: self.connection_condition,
            stc_id_ref: self.stc_id_ref,
            stc_origin_pts_90k: self.stc_origin_pts_90k,
        }
    }
}

pub open spec fn clip_models(v: Seq<ClipSeekInfo>) -> Seq<SeekClip> {
    Seq::new(v.len(), |i: int| v[i]@)
}

/// Stem of the clip that an item plays on an angle; the primary clip where
/// there is no such angle.
pub open spec fn stem_of(item: PlayItemModel, angle: u8) -> Seq<char> {
    match item.clip_of_angle(angle as int) {
        Some(c) => c.clip_information_file_name,
        None => item.clip_information_file_name,
    }
}

/// STC sequence of the clip that an item plays on an angle.
pub open spec fn stc_of(item: PlayItemModel, angle: u8) -> u8 {
    match item.clip_of_angle(angle as int) {
        Some(c) => c.stc_id_ref,
        None => item.stc_id_ref,
    }
}

/// The `k`-th clip of a title.
pub open spec fn seek_clip(
    items: Seq<PlayItemModel>,
    angle: u8,
    files: Seq<ClipFilesModel>,
    k: int,
) -> SeekClip {
    SeekClip {
        stem: stem_of(items[k], angle),
        output_start: stream_bytes(files.take(k)) as u64,
        packet_count: files[k].packets() as u64,
        title_pts_start: total_ticks(items.take(k)) as u64,
        in_pts_90k: (items[k].in_time_ticks * 2) as u64,
        out_pts_90k: (items[k].out_time_ticks * 2) as u64,
        entry_points: by_time(points_of(video_entries(files[k].clip()))),
        angle_change_eps: by_time(points_of(angle_entries(video_entries(files[k].clip())))),
        connection_condition: items[k].connection_condition,
        stc_id_ref: stc_of(items[k], angle),
        stc_origin_pts_90k: stc_origin(files[k].clip(), stc_of(items[k], angle)) as u64,
    }
}

/// The clips of a title.
pub open spec fn seek_index(
    items: Seq<PlayItemModel>,
    angle: u8,
    files: Seq<ClipFilesModel>,
) -> Seq<SeekClip> {
    Seq::new(items.len(), |k: int| seek_clip(items, angle, files, k))
}

/// The stems of the clips that a title plays on an angle: the names of the
/// files to look for, one for each PlayItem.
pub fn clip_stems(items: &Vec<PlayItem>, angle: u8) -> (r: Vec<String>)
    ensures
        r@.len() == items@.len(),
        forall|k: int| 0 <= k < r@.len() ==> (#[trigger] r@[k])@ == stem_of(items@[k]@, angle),
{
    let mut r: Vec<String> = Vec::new();
    let mut i: usize = 0;
    while i < items.len()
        invariant
            i <= items@.len(),
            r@.len() == i,
            forall|k: int| 0 <= k < i ==> (#[trigger] r@[k])@ == stem_of(items@[k]@, angle),
        decreases items@.len() - i,
    {
        r.push(stem_for(&items[i], angle));
        i += 1;
    }
    r
}

fn stem_for(item: &PlayItem, angle: u8) -> (r: String)
    ensures
        r@ == stem_of(item@, angle),
{
    match item.angle_clip(angle) {
        Some(c) => c.clip_information_file_name.to_owned(),
        None => item.clip_information_file_name.clone(),
    }
}

fn stc_for(item: &PlayItem, angle: u8) -> (r: u8)
    ensures
        r == stc_of(item@, angle),
{
    match item.angle_clip(angle) {
        Some(c) => c.stc_id_ref,
        None => item.stc_id_ref,
    }
}

/// The clips of a title, the number of its transport bytes, and its length
/// in time.
pub fn build_clip_seek_index(items: &Vec<PlayItem>, angle: u8, files: &Vec<ClipFiles>) -> (r: (
    Vec<ClipSeekInfo>,
    u64,
    u64,
))
    requires
        items_fit(item_models(items@)),
        files@.len() == items@.len(),
        stream_bytes(file_models(files@)) <= MAX_TITLE_BYTES,
    ensures
        clip_models(r.0@) == seek_index(item_models(items@), angle, file_models(files@)),
        r.1 == stream_bytes(file_models(files@)),
        r.2 == total_ticks(item_models(items@)),
{
    let ghost models = item_models(items@);
    let ghost found = file_models(files@);
    let ghost index = seek_index(models, angle, found);
    let mut clips: Vec<ClipSeekInfo> = Vec::new();
    let mut output_total: u64 = 0;
    let mut title_pts_start: u64 = 0;
    let mut i: usize = 0;
    while i < items.len()
        invariant
            i <= items@.len(),
            files@.len() == items@.len(),
            models == item_models(items@),
            found == file_models(files@),
            index == seek_index(models, angle, found),
            items_fit(models),
            stream_bytes(found) <= MAX_TITLE_BYTES,
            clips@.len() == i,
            forall|k: int| 0 <= k < i ==> (#[trigger] clips@[k])@ == index[k],
            output_total == stream_bytes(found.take(i as int)),
            title_pts_start == total_ticks(models.take(i as int)),
        decreases items@.len() - i,
    {
        let pi = &items[i];
        let stem = stem_for(pi, angle);
        let stc_id_ref: u8 = stc_for(pi, angle);
        let packets: u64 = packet_count(&files[i]);
        let meta = load_clip_meta(&files[i].clpi, stc_id_ref);
        let clip = ClipSeekInfo {
            stem,
            output_start: output_total,
            packet_count: packets,
            title_pts_start,
            in_pts_90k: pi.in_time_ticks as u64 * 2,
            out_pts_90k: pi.out_time_ticks as u64 * 2,
            entry_points: meta.entry_points,
            angle_change_eps: meta.angle_change_eps,
            connection_condition: pi.connection_condition,
            stc_id_ref,
            stc_origin_pts_90k: meta.stc_origin_pts_90k,
        };
        proof {
            assert(models[i as int] == pi@);
            assert(found[i as int] == files@[i as int]@);
            assert(clip@ =~= index[i as int]);
            lemma_stream_push(found, i as int);
            lemma_stream_monotone(found, i + 1, found.len() as int);
            assert(found.take(found.len() as int) =~= found);
            lemma_total_push(models, i as int);
            lemma_total_bound(models.take(i + 1));
        }
        clips.push(clip);
        output_total += packets * TS_PACKET_LEN as u64;
        title_pts_start += pi.duration_90k();
        i += 1;
    }
    proof {
        assert(clip_models(clips@) =~= index);
        assert(found.take(i as int) =~= found);
        assert(models.take(i as int) =~= models);
    }
    (clips, output_total, title_pts_start)
}

/// A model holds what the fields hold.
pub proof fn lemma_models_hold_fields(clip_files: ClipFiles, clip_seek_info: ClipSeekInfo)
    ensures
        clip_files@.m2ts_len == clip_files.m2ts_len,
        clip_files.clpi is None <==> clip_files@.clpi is None,
        clip_files.clpi matches Some(x) ==> clip_files@.clpi == Some(x@),
        clip_seek_info@.stem == clip_seek_info.stem@,
        clip_seek_info@.output_start == clip_seek_info.output_start,
        clip_seek_info@.packet_count == clip_seek_info.packet_count,
        clip_seek_info@.title_pts_start == clip_seek_info.title_pts_start,
        clip_seek_info@.in_pts_90k == clip_seek_info.in_pts_90k,
        clip_seek_info@.out_pts_90k == clip_seek_info.out_pts_90k,
        clip_seek_info@.entry_points == clip_seek_info.entry_points@,
        clip_seek_info@.angle_change_eps == clip_seek_info.angle_change_eps@,
        clip_seek_info@.connection_condition == clip_seek_info.connection_condition,
        clip_seek_info@.stc_id_ref == clip_seek_info.stc_id_ref,
        clip_seek_info@.stc_origin_pts_90k == clip_seek_info.stc_origin_pts_90k,
{
}

} // verus!
