//! `PLAYLIST/*.mpls`: playlists.
//!
//! Binary outline (big-endian throughout):
//!
//! ```text
//!   0  type_indicator               "MPLS"
//!   4  version_number               "0200"
//!   8  playlist_start_address       u32
//!  12  playlist_mark_start_address  u32
//!  16  extension_data_start_address u32
//!  20  20 reserved bytes
//!  40  AppInfoPlayList()
//!  ... PlayList()
//!  ... PlayListMark()
//! ```
//!
//! This module holds the records. [`crate::bdmv::mpls_read`] says how they
//! are read, [`crate::bdmv::mpls_write`] how they are written, and
//! [`crate::bdmv::chapters`] what they mean for chapter navigation.
use vstd::prelude::*;
use vstd::string::*;

use crate::bdmv::common::low_u8;
pub use crate::bdmv::stream::{
    AspectRatio, AudioFormat, FrameRate, SampleRate, StreamCodingType, VideoFormat,
};

verus! {

// ---------------------------------------------------------------------
// The records of a playlist
// ---------------------------------------------------------------------

/// How a PlayItem connects to the one before it.
#[derive(Debug, Clone, Copy, PartialEq, Eq, Structural)]
pub enum ConnectionCondition {
    /// `0x01`: not seamless, a new time origin.
    NonSeamless,
    /// `0x05`: seamless, the same clip goes on.
    SeamlessContinuation,
    /// `0x06`: seamless, a new STC sequence.
    SeamlessNewStc,
    /// Any other value.
    Other(u8),
}

impl ConnectionCondition {
    /// The variant that a recorded value names.
    pub open spec fn of_raw(v: u8) -> Self {
        match v {
            0x01 => ConnectionCondition::NonSeamless,
            0x05 => ConnectionCondition::SeamlessContinuation,
            0x06 => ConnectionCondition::SeamlessNewStc,
            other => ConnectionCondition::Other(other),
        }
    }

    /// The value that a variant is recorded as.
    pub open spec fn raw(self) -> u8 {
        match self {
            ConnectionCondition::NonSeamless => 0x01,
            ConnectionCondition::SeamlessContinuation => 0x05,
            ConnectionCondition::SeamlessNewStc => 0x06,
            ConnectionCondition::Other(v) => v,
        }
    }

    /// Decode a recorded value.
    pub fn from_raw(v: u8) -> (r: Self)
        ensures
            r == Self::of_raw(v),
    {
        match v {
            0x01 => ConnectionCondition::NonSeamless,
            0x05 => ConnectionCondition::SeamlessContinuation,
            0x06 => ConnectionCondition::SeamlessNewStc,
            other => ConnectionCondition::Other(other),
        }
    }

    /// The recorded value of this variant.
    pub fn as_raw(self) -> (r: u8)
        ensures
            r == self.raw(),
    {
        match self {
            ConnectionCondition::NonSeamless => 0x01,
            ConnectionCondition::SeamlessContinuation => 0x05,
            ConnectionCondition::SeamlessNewStc => 0x06,
            ConnectionCondition::Other(v) => v,
        }
    }
}

/// Type of a [`PlayListMark`]. Entry marks delimit chapters; link points are
/// private to the author.
#[derive(Debug, Clone, Copy, PartialEq, Eq, Structural)]
pub enum MarkType {
    /// `0x01`: the start of a chapter.
    EntryMark,
    /// `0x02`: a cue that is no chapter.
    LinkPoint,
    /// Any other value.
    Other(u8),
}

impl MarkType {
    /// The variant that a recorded value names.
    pub open spec fn of_raw(v: u8) -> Self {
        match v {
            0x01 => MarkType::EntryMark,
            0x02 => MarkType::LinkPoint,
            other => MarkType::Other(other),
        }
    }

    /// Decode a recorded value.
    pub fn from_raw(v: u8) -> (r: Self)
        ensures
            r == Self::of_raw(v),
    {
        match v {
            0x01 => MarkType::EntryMark,
            0x02 => MarkType::LinkPoint,
            other => MarkType::Other(other),
        }
    }

    /// True for entry marks.
    pub fn is_chapter(self) -> (r: bool)
        ensures
            r == (self is EntryMark),
    {
        matches!(self, MarkType::EntryMark)
    }
}

/// A primary video stream.
#[derive(Debug, Clone, Copy, PartialEq, Eq)]
pub struct PrimaryVideoStream {
    /// MPEG-TS PID of the stream.
    pub elementary_pid: u16,
    pub coding_type: StreamCodingType,
    /// Four bits.
    pub video_format: u8,
    /// Four bits.
    pub frame_rate: u8,
    /// Four bits.
    pub aspect_ratio: u8,
}

impl PrimaryVideoStream {
    /// Typed view of [`Self::video_format`].
    pub fn video_format_kind(&self) -> (r: VideoFormat)
        ensures
            r == VideoFormat::of_raw(self.video_format),
    {
        VideoFormat::from_raw(self.video_format)
    }

    /// Typed view of [`Self::frame_rate`].
    pub fn frame_rate_kind(&self) -> (r: FrameRate)
        ensures
            r == FrameRate::of_raw(self.frame_rate),
    {
        FrameRate::from_raw(self.frame_rate)
    }

    /// Typed view of [`Self::aspect_ratio`].
    pub fn aspect_ratio_kind(&self) -> (r: AspectRatio)
        ensures
            r == AspectRatio::of_raw(self.aspect_ratio),
    {
        AspectRatio::from_raw(self.aspect_ratio)
    }
}

impl Default for PrimaryVideoStream {
    fn default() -> (r: Self)
        ensures
            r == (PrimaryVideoStream {
                elementary_pid: 0,
                coding_type: StreamCodingType::Other(0),
                video_format: 0,
                frame_rate: 0,
                aspect_ratio: 0,
            }),
    {
        PrimaryVideoStream {
            elementary_pid: 0,
            coding_type: StreamCodingType::default(),
            video_format: 0,
            frame_rate: 0,
            aspect_ratio: 0,
        }
    }
}

/// A primary audio stream.
#[derive(Debug, Clone, Copy, PartialEq, Eq)]
pub struct PrimaryAudioStream {
    /// MPEG-TS PID of the stream.
    pub elementary_pid: u16,
    pub coding_type: StreamCodingType,
    /// Four bits.
    pub audio_format: u8,
    /// Four bits.
    pub sample_rate: u8,
    /// ISO 639-2/T tag.
    pub language_code: [u8; 3],
}

impl PrimaryAudioStream {
    /// Typed view of [`Self::audio_format`].
    pub fn audio_format_kind(&self) -> (r: AudioFormat)
        ensures
            r == AudioFormat::of_raw(self.audio_format),
    {
        AudioFormat::from_raw(self.audio_format)
    }

    /// Typed view of [`Self::sample_rate`].
    pub fn sample_rate_kind(&self) -> (r: SampleRate)
        ensures
            r == SampleRate::of_raw(self.sample_rate),
    {
        SampleRate::from_raw(self.sample_rate)
    }
}

impl Default for PrimaryAudioStream {
    fn default() -> (r: Self)
        ensures
            r == (PrimaryAudioStream {
                elementary_pid: 0,
                coding_type: StreamCodingType::Other(0),
                audio_format: 0,
                sample_rate: 0,
                language_code: [0,
                0,
                0],
            }),
    {
        PrimaryAudioStream {
            elementary_pid: 0,
            coding_type: StreamCodingType::default(),
            audio_format: 0,
            sample_rate: 0,
            language_code: [0,
            0,
            0],
        }
    }
}

/// A presentation graphics (bitmap subtitle) stream.
#[derive(Debug, Clone, Copy, PartialEq, Eq)]
pub struct PgsSubtitleStream {
    /// MPEG-TS PID of the stream.
    pub elementary_pid: u16,
    pub coding_type: StreamCodingType,
    /// ISO 639-2/T tag.
    pub language_code: [u8; 3],
}

impl Default for PgsSubtitleStream {
    fn default() -> (r: Self)
        ensures
            r == (PgsSubtitleStream {
                elementary_pid: 0,
                coding_type: StreamCodingType::Other(0),
                language_code: [0,
                0,
                0],
            }),
    {
        PgsSubtitleStream {
            elementary_pid: 0,
            coding_type: StreamCodingType::default(),
            language_code: [0,
            0,
            0],
        }
    }
}

/// An interactive graphics (menu overlay) stream.
#[derive(Debug, Clone, Copy, PartialEq, Eq)]
pub struct IgsInteractiveStream {
    /// MPEG-TS PID of the stream.
    pub elementary_pid: u16,
    pub coding_type: StreamCodingType,
    /// ISO 639-2/T tag.
    pub language_code: [u8; 3],
}

impl Default for IgsInteractiveStream {
    fn default() -> (r: Self)
        ensures
            r == (IgsInteractiveStream {
                elementary_pid: 0,
                coding_type: StreamCodingType::Other(0),
                language_code: [0,
                0,
                0],
            }),
    {
        IgsInteractiveStream {
            elementary_pid: 0,
            coding_type: StreamCodingType::default(),
            language_code: [0,
            0,
            0],
        }
    }
}

/// A secondary audio stream.
#[derive(Debug, Clone, Copy, PartialEq, Eq)]
pub struct SecondaryAudioStream {
    /// MPEG-TS PID of the stream.
    pub elementary_pid: u16,
    pub coding_type: StreamCodingType,
    /// Four bits.
    pub audio_format: u8,
    /// Four bits.
    pub sample_rate: u8,
    /// ISO 639-2/T tag.
    pub language_code: [u8; 3],
}

impl SecondaryAudioStream {
    /// Typed view of [`Self::audio_format`].
    pub fn audio_format_kind(&self) -> (r: AudioFormat)
        ensures
            r == AudioFormat::of_raw(self.audio_format),
    {
        AudioFormat::from_raw(self.audio_format)
    }

    /// Typed view of [`Self::sample_rate`].
    pub fn sample_rate_kind(&self) -> (r: SampleRate)
        ensures
            r == SampleRate::of_raw(self.sample_rate),
    {
        SampleRate::from_raw(self.sample_rate)
    }
}

impl Default for SecondaryAudioStream {
    fn default() -> (r: Self)
        ensures
            r == (SecondaryAudioStream {
                elementary_pid: 0,
                coding_type: StreamCodingType::Other(0),
                audio_format: 0,
                sample_rate: 0,
                language_code: [0,
                0,
                0],
            }),
    {
        SecondaryAudioStream {
            elementary_pid: 0,
            coding_type: StreamCodingType::default(),
            audio_format: 0,
            sample_rate: 0,
            language_code: [0,
            0,
            0],
        }
    }
}

/// A secondary video (picture-in-picture) stream.
#[derive(Debug, Clone, Copy, PartialEq, Eq)]
pub struct SecondaryVideoStream {
    /// MPEG-TS PID of the stream.
    pub elementary_pid: u16,
    pub coding_type: StreamCodingType,
    /// Four bits.
    pub video_format: u8,
    /// Four bits.
    pub frame_rate: u8,
    /// Four bits.
    pub aspect_ratio: u8,
}

impl SecondaryVideoStream {
    /// Typed view of [`Self::video_format`].
    pub fn video_format_kind(&self) -> (r: VideoFormat)
        ensures
            r == VideoFormat::of_raw(self.video_format),
    {
        VideoFormat::from_raw(self.video_format)
    }

    /// Typed view of [`Self::frame_rate`].
    pub fn frame_rate_kind(&self) -> (r: FrameRate)
        ensures
            r == FrameRate::of_raw(self.frame_rate),
    {
        FrameRate::from_raw(self.frame_rate)
    }

    /// Typed view of [`Self::aspect_ratio`].
    pub fn aspect_ratio_kind(&self) -> (r: AspectRatio)
        ensures
            r == AspectRatio::of_raw(self.aspect_ratio),
    {
        AspectRatio::from_raw(self.aspect_ratio)
    }
}

impl Default for SecondaryVideoStream {
    fn default() -> (r: Self)
        ensures
            r == (SecondaryVideoStream {
                elementary_pid: 0,
                coding_type: StreamCodingType::Other(0),
                video_format: 0,
                frame_rate: 0,
                aspect_ratio: 0,
            }),
    {
        SecondaryVideoStream {
            elementary_pid: 0,
            coding_type: StreamCodingType::default(),
            video_format: 0,
            frame_rate: 0,
            aspect_ratio: 0,
        }
    }
}

/// A picture-in-picture presentation graphics stream.
#[derive(Debug, Clone, Copy, PartialEq, Eq)]
pub struct PipPgStream {
    /// MPEG-TS PID of the stream.
    pub elementary_pid: u16,
    pub coding_type: StreamCodingType,
    /// ISO 639-2/T tag.
    pub language_code: [u8; 3],
}

impl Default for PipPgStream {
    fn default() -> (r: Self)
        ensures
            r == (PipPgStream {
                elementary_pid: 0,
                coding_type: StreamCodingType::Other(0),
                language_code: [0,
                0,
                0],
            }),
    {
        PipPgStream {
            elementary_pid: 0,
            coding_type: StreamCodingType::default(),
            language_code: [0,
            0,
            0],
        }
    }
}

/// A text subtitle stream.
#[derive(Debug, Clone, Copy, PartialEq, Eq)]
pub struct TextSubtitleStream {
    /// MPEG-TS PID of the stream.
    pub elementary_pid: u16,
    pub coding_type: StreamCodingType,
    pub character_code: u8,
    /// ISO 639-2/T tag.
    pub language_code: [u8; 3],
}

impl Default for TextSubtitleStream {
    fn default() -> (r: Self)
        ensures
            r == (TextSubtitleStream {
                elementary_pid: 0,
                coding_type: StreamCodingType::Other(0),
                character_code: 0,
                language_code: [0,
                0,
                0],
            }),
    {
        TextSubtitleStream {
            elementary_pid: 0,
            coding_type: StreamCodingType::default(),
            character_code: 0,
            language_code: [0,
            0,
            0],
        }
    }
}

/// The streams of a PlayItem, class by class.
#[derive(Debug, Clone, PartialEq, Eq)]
pub struct StnTable {
    pub primary_video: Vec<PrimaryVideoStream>,
    pub primary_audio: Vec<PrimaryAudioStream>,
    /// Bitmap subtitles.
    pub pg_subtitles: Vec<PgsSubtitleStream>,
    /// Menu overlays.
    pub ig_streams: Vec<IgsInteractiveStream>,
    pub secondary_audio: Vec<SecondaryAudioStream>,
    pub secondary_video: Vec<SecondaryVideoStream>,
    /// Picture-in-picture bitmap subtitles.
    pub pip_pg: Vec<PipPgStream>,
}

/// Model of [`StnTable`].
#[verifier::ext_equal]
pub struct StnTableModel {
    pub primary_video: Seq<PrimaryVideoStream>,
    pub primary_audio: Seq<PrimaryAudioStream>,
    pub pg_subtitles: Seq<PgsSubtitleStream>,
    pub ig_streams: Seq<IgsInteractiveStream>,
    pub secondary_audio: Seq<SecondaryAudioStream>,
    pub secondary_video: Seq<SecondaryVideoStream>,
    pub pip_pg: Seq<PipPgStream>,
}

impl View for StnTable {
    type V = StnTableModel;

    open spec fn view(&self) -> StnTableModel {
        StnTableModel {
            primary_video: self.primary_video@,
            primary_audio: self.primary_audio@,
            pg_subtitles: self.pg_subtitles@,
            ig_streams: self.ig_streams@,
            secondary_audio: self.secondary_audio@,
            secondary_video: self.secondary_video@,
            pip_pg: self.pip_pg@,
        }
    }
}

/// A table without streams.
pub open spec fn empty_stn() -> StnTableModel {
    StnTableModel {
        primary_video: Seq::empty(),
        primary_audio: Seq::empty(),
        pg_subtitles: Seq::empty(),
        ig_streams: Seq::empty(),
        secondary_audio: Seq::empty(),
        secondary_video: Seq::empty(),
        pip_pg: Seq::empty(),
    }
}

impl Default for StnTable {
    fn default() -> (r: Self)
        ensures
            r@ == empty_stn(),
    {
        StnTable {
            primary_video: Vec::new(),
            primary_audio: Vec::new(),
            pg_subtitles: Vec::new(),
            ig_streams: Vec::new(),
            secondary_audio: Vec::new(),
            secondary_video: Vec::new(),
            pip_pg: Vec::new(),
        }
    }
}

/// How many streams a table has of each class, each count in one byte.
#[derive(Debug, Clone, Copy, PartialEq, Eq, Structural)]
pub struct StnTableSummary {
    pub num_primary_video: u8,
    pub num_primary_audio: u8,
    pub num_pg: u8,
    pub num_ig: u8,
    pub num_secondary_audio: u8,
    pub num_secondary_video: u8,
    pub num_pip_pg: u8,
}

impl StnTableModel {
    /// The stream counts of a table.
    pub open spec fn counts(self) -> StnTableSummary {
        StnTableSummary {
            num_primary_video: (self.primary_video.len() % 256) as u8,
            num_primary_audio: (self.primary_audio.len() % 256) as u8,
            num_pg: (self.pg_subtitles.len() % 256) as u8,
            num_ig: (self.ig_streams.len() % 256) as u8,
            num_secondary_audio: (self.secondary_audio.len() % 256) as u8,
            num_secondary_video: (self.secondary_video.len() % 256) as u8,
            num_pip_pg: (self.pip_pg.len() % 256) as u8,
        }
    }
}

impl Default for StnTableSummary {
    fn default() -> (r: Self)
        ensures
            r == empty_stn().counts(),
    {
        StnTableSummary {
            num_primary_video: 0,
            num_primary_audio: 0,
            num_pg: 0,
            num_ig: 0,
            num_secondary_audio: 0,
            num_secondary_video: 0,
            num_pip_pg: 0,
        }
    }
}

impl StnTable {
    /// The stream counts of this table.
    pub fn summary(&self) -> (r: StnTableSummary)
        ensures
            r == self@.counts(),
    {
        StnTableSummary {
            num_primary_video: low_u8(self.primary_video.len()),
            num_primary_audio: low_u8(self.primary_audio.len()),
            num_pg: low_u8(self.pg_subtitles.len()),
            num_ig: low_u8(self.ig_streams.len()),
            num_secondary_audio: low_u8(self.secondary_audio.len()),
            num_secondary_video: low_u8(self.secondary_video.len()),
            num_pip_pg: low_u8(self.pip_pg.len()),
        }
    }
}

impl<'a> From<&'a StnTable> for StnTableSummary {
    fn from(t: &'a StnTable) -> (r: StnTableSummary) {
        t.summary()
    }
}

impl<'a> vstd::std_specs::convert::FromSpecImpl<&'a StnTable> for StnTableSummary {
    open spec fn obeys_from_spec() -> bool {
        true
    }

    open spec fn from_spec(t: &'a StnTable) -> StnTableSummary {
        t@.counts()
    }
}

/// The clip of one further angle of a multi-angle PlayItem.
#[derive(Debug, Clone, PartialEq, Eq)]
pub struct AngleClip {
    /// Stem of the clip's file names, such as `"00002"`.
    pub clip_information_file_name: String,
    /// Codec identifier, `b"M2TS"` as a rule.
    pub clip_codec_identifier: [u8; 4],
    pub stc_id_ref: u8,
}

/// Model of [`AngleClip`].
#[verifier::ext_equal]
pub struct AngleClipModel {
    pub clip_information_file_name: Seq<char>,
    pub clip_codec_identifier: [u8; 4],
    pub stc_id_ref: u8,
}

impl View for AngleClip {
    type V = AngleClipModel;

    open spec fn view(&self) -> AngleClipModel {
        AngleClipModel {
            clip_information_file_name: self.clip_information_file_name@,
            clip_codec_identifier: self.clip_codec_identifier,
            stc_id_ref: self.stc_id_ref,
        }
    }
}

pub open spec fn angle_models(v: Seq<AngleClip>) -> Seq<AngleClipModel> {
    Seq::new(v.len(), |i: int| v[i]@)
}

/// Playback-control fields of a PlayItem.
#[derive(Debug, Clone, Copy, PartialEq, Eq, Structural)]
pub struct PlayItemFlags {
    /// Random access may land inside the PlayItem.
    pub random_access_flag: bool,
    /// Whether and how the last picture is held.
    pub still_mode: u8,
    /// Seconds that a timed still is held.
    pub still_time: u16,
    /// The flags byte of a multi-angle PlayItem, `0` for the others.
    pub angle_flags: u8,
    /// User operations that are prohibited during the PlayItem.
    pub uo_mask: u64,
}

impl Default for PlayItemFlags {
    fn default() -> (r: Self)
        ensures
            r == (PlayItemFlags {
                random_access_flag: false,
                still_mode: 0,
                still_time: 0,
                angle_flags: 0,
                uo_mask: 0,
            }),
    {
        PlayItemFlags {
            random_access_flag: false,
            still_mode: 0,
            still_time: 0,
            angle_flags: 0,
            uo_mask: 0,
        }
    }
}

/// One PlayItem: a window of a clip. Times are in 45 kHz ticks.
#[derive(Debug, Clone, PartialEq, Eq)]
pub struct PlayItem {
    /// Stem of the clip's file names, such as `"00001"`.
    pub clip_information_file_name: String,
    /// Codec identifier, `b"M2TS"` as a rule.
    pub clip_codec_identifier: [u8; 4],
    pub connection_condition: ConnectionCondition,
    pub stc_id_ref: u8,
    pub in_time_ticks: u32,
    pub out_time_ticks: u32,
    /// Number of angles, the primary one included.
    pub multi_clip_count: u8,
    /// The clips of the angles from the second on.
    pub angles: Vec<AngleClip>,
    pub stn_table: StnTable,
    pub flags: PlayItemFlags,
}

/// Model of [`PlayItem`].
#[verifier::ext_equal]
pub struct PlayItemModel {
    pub clip_information_file_name: Seq<char>,
    pub clip_codec_identifier: [u8; 4],
    pub connection_condition: ConnectionCondition,
    pub stc_id_ref: u8,
    pub in_time_ticks: u32,
    pub out_time_ticks: u32,
    pub multi_clip_count: u8,
    pub angles: Seq<AngleClipModel>,
    pub stn_table: StnTableModel,
    pub flags: PlayItemFlags,
}

impl View for PlayItem {
    type V = PlayItemModel;

    open spec fn view(&self) -> PlayItemModel {
        PlayItemModel {
            clip_information_file_name: self.clip_information_file_name@,
            clip_codec_identifier: self.clip_codec_identifier,
            connection_condition: self.connection_condition,
            stc_id_ref: self.stc_id_ref,
            in_time_ticks: self.in_time_ticks,
            out_time_ticks: self.out_time_ticks,
            multi_clip_count: self.multi_clip_count,
            angles: angle_models(self.angles@),
            stn_table: self.stn_table@,
            flags: self.flags,
        }
    }
}

pub open spec fn item_models(v: Seq<PlayItem>) -> Seq<PlayItemModel> {
    Seq::new(v.len(), |i: int| v[i]@)
}

/// The clip of one angle, as [`PlayItem::angle_clip`] hands it out.
#[derive(Debug, Clone, Copy)]
pub struct AngleClipRef<'a> {
    pub clip_information_file_name: &'a str,
    pub clip_codec_identifier: &'a [u8; 4],
    pub stc_id_ref: u8,
}

impl PlayItemModel {
    /// The clip of angle `k`: angle 0 is the primary clip, angle `k` the entry
    /// `k - 1` of the further angles.
    pub open spec fn clip_of_angle(self, k: int) -> Option<AngleClipModel> {
        if k == 0 {
            Some(
                AngleClipModel {
                    clip_information_file_name: self.clip_information_file_name,
                    clip_codec_identifier: self.clip_codec_identifier,
                    stc_id_ref: self.stc_id_ref,
                },
            )
        } else if 1 <= k <= self.angles.len() {
            Some(self.angles[k - 1])
        } else {
            None
        }
    }

    /// Length of the window in 90 kHz ticks; an inverted window is empty.
    pub open spec fn ticks(self) -> int {
        if self.out_time_ticks >= self.in_time_ticks {
            (self.out_time_ticks - self.in_time_ticks) * 2
        } else {
            0
        }
    }
}

impl PlayItem {
    /// The clip of the 0-based angle `angle`, or `None` where there is no such
    /// angle.
    pub fn angle_clip(&self, angle: u8) -> (r: Option<AngleClipRef<'_>>)
        ensures
            match r {
                Some(c) => self@.clip_of_angle(angle as int) == Some(
                    AngleClipModel {
                        clip_information_file_name: c.clip_information_file_name@,
                        clip_codec_identifier: *c.clip_codec_identifier,
                        stc_id_ref: c.stc_id_ref,
                    },
                ),
                None => self@.clip_of_angle(angle as int) is None,
            },
    {
        if angle == 0 {
            return Some(
                AngleClipRef {
                    clip_information_file_name: self.clip_information_file_name.as_str(),
                    clip_codec_identifier: &self.clip_codec_identifier,
                    stc_id_ref: self.stc_id_ref,
                },
            );
        }
        let idx: usize = angle as usize - 1;
        if idx < self.angles.len() {
            let a = &self.angles[idx];
            assert(self@.angles[idx as int] == a@);
            Some(
                AngleClipRef {
                    clip_information_file_name: a.clip_information_file_name.as_str(),
                    clip_codec_identifier: &a.clip_codec_identifier,
                    stc_id_ref: a.stc_id_ref,
                },
            )
        } else {
            None
        }
    }

    /// The number of angles, at least one.
    pub fn num_angles(&self) -> (r: u8)
        ensures
            r == if self.multi_clip_count == 0 {
                1
            } else {
                self.multi_clip_count
            },
    {
        if self.multi_clip_count == 0 {
            1
        } else {
            self.multi_clip_count
        }
    }

    /// Length in 90 kHz ticks.
    pub fn duration_90k(&self) -> (r: u64)
        ensures
            r == self@.ticks(),
            r < 0x2_0000_0000,
    {
        if self.out_time_ticks >= self.in_time_ticks {
            (self.out_time_ticks - self.in_time_ticks) as u64 * 2
        } else {
            0
        }
    }
}

/// A SubPath: its type and the number of its items.
#[derive(Debug, Clone, Copy, PartialEq, Eq, Structural)]
pub struct SubPath {
    pub sub_path_type: u8,
    /// The path is looped while the main path plays.
    pub is_repeat_subpath: bool,
    pub num_sub_play_items: u16,
}

/// Order in which the PlayItems are played.
#[derive(Debug, Clone, Copy, PartialEq, Eq, Structural, Hash)]
pub enum PlayListPlaybackType {
    /// `0x01`: in the recorded order.
    Sequential,
    /// `0x02`: at random, each at most once.
    Random,
    /// `0x03`: at random, with repetition.
    Shuffle,
    /// Any other value.
    Other(u8),
}

impl PlayListPlaybackType {
    /// The variant that a recorded value names.
    pub open spec fn of_raw(v: u8) -> Self {
        match v {
            0x01 => PlayListPlaybackType::Sequential,
            0x02 => PlayListPlaybackType::Random,
            0x03 => PlayListPlaybackType::Shuffle,
            other => PlayListPlaybackType::Other(other),
        }
    }

    /// The value that a variant is recorded as.
    pub open spec fn raw(self) -> u8 {
        match self {
            PlayListPlaybackType::Sequential => 0x01,
            PlayListPlaybackType::Random => 0x02,
            PlayListPlaybackType::Shuffle => 0x03,
            PlayListPlaybackType::Other(v) => v,
        }
    }

    /// Decode a recorded value.
    pub fn from_raw(v: u8) -> (r: Self)
        ensures
            r == Self::of_raw(v),
            r.raw() == v,
    {
        match v {
            0x01 => PlayListPlaybackType::Sequential,
            0x02 => PlayListPlaybackType::Random,
            0x03 => PlayListPlaybackType::Shuffle,
            other => PlayListPlaybackType::Other(other),
        }
    }

    /// The recorded value of this variant.
    pub fn as_raw(self) -> (r: u8)
        ensures
            r == self.raw(),
            self !is Other ==> Self::of_raw(r) == self,
    {
        match self {
            PlayListPlaybackType::Sequential => 0x01,
            PlayListPlaybackType::Random => 0x02,
            PlayListPlaybackType::Shuffle => 0x03,
            PlayListPlaybackType::Other(v) => v,
        }
    }

    /// True when the items play in the recorded order.
    pub fn is_sequential(self) -> (r: bool)
        ensures
            r == (self is Sequential),
    {
        matches!(self, PlayListPlaybackType::Sequential)
    }

    /// True when the items play in random order.
    pub fn is_randomised(self) -> (r: bool)
        ensures
            r == (self is Random || self is Shuffle),
    {
        matches!(self, PlayListPlaybackType::Random | PlayListPlaybackType::Shuffle)
    }
}

/// Attributes of the whole playlist.
#[derive(Debug, Clone, Copy, PartialEq, Eq, Structural)]
pub struct AppInfoPlayList {
    pub playback_type: u8,
    pub playback_count: u16,
    pub random_access_flag: u8,
    pub audio_mix_app_flag: u8,
    pub lossless_may_bypass_mixer_flag: u8,
    /// User operations that are prohibited during the playlist.
    pub uo_mask: u64,
}

impl AppInfoPlayList {
    /// Typed view of [`Self::playback_type`].
    pub fn playback_kind(&self) -> (r: PlayListPlaybackType)
        ensures
            r == PlayListPlaybackType::of_raw(self.playback_type),
    {
        PlayListPlaybackType::from_raw(self.playback_type)
    }
}

/// The main path and the SubPaths.
#[derive(Debug, Clone, PartialEq, Eq)]
pub struct PlayList {
    pub play_items: Vec<PlayItem>,
    pub sub_paths: Vec<SubPath>,
}

/// A mark on the time axis of a PlayItem, in 45 kHz ticks.
#[derive(Debug, Clone, Copy, PartialEq, Eq, Structural)]
pub struct PlayListMark {
    pub mark_type: u8,
    pub ref_play_item_id: u16,
    pub mark_time_ticks: u32,
    pub entry_es_pid: u16,
    pub duration_ticks: u32,
}

impl PlayListMark {
    /// Typed view of [`Self::mark_type`].
    pub fn kind(&self) -> (r: MarkType)
        ensures
            r == MarkType::of_raw(self.mark_type),
    {
        MarkType::from_raw(self.mark_type)
    }
}

/// A chapter: where it starts on the title's time axis, in 90 kHz ticks.
#[derive(Debug, Clone, Copy, PartialEq, Eq, Structural)]
pub struct Chapter {
    /// 0-based.
    pub index: usize,
    pub start_pts_90k: u64,
    pub ref_play_item_id: u16,
}

/// A chapter with its end: the start of the next one, or the end of the
/// title.
#[derive(Debug, Clone, Copy, PartialEq, Eq, Structural)]
pub struct ChapterSpan {
    /// 0-based, in playback order.
    pub index: usize,
    pub start_pts_90k: u64,
    pub end_pts_90k: u64,
    pub ref_play_item_id: u16,
}

impl ChapterSpan {
    /// Length in 90 kHz ticks.
    pub open spec fn ticks(self) -> int {
        if self.end_pts_90k >= self.start_pts_90k {
            self.end_pts_90k - self.start_pts_90k
        } else {
            0
        }
    }

    /// Length in 90 kHz ticks.
    pub fn duration_90k(&self) -> (r: u64)
        ensures
            r == self.ticks(),
    {
        self.end_pts_90k.saturating_sub(self.start_pts_90k)
    }

    /// Length in whole seconds.
    pub fn duration_secs(&self) -> (r: u64)
        ensures
            r == self.ticks() / 90_000,
    {
        self.duration_90k() / 90_000
    }
}

/// A whole `.mpls` file.
#[derive(Debug, Clone)]
pub struct PlayListMpls {
    pub version: [u8; 4],
    pub app_info: AppInfoPlayList,
    pub play_list: PlayList,
    pub marks: Vec<PlayListMark>,
}

/// Model of [`PlayListMpls`].
#[verifier::ext_equal]
pub struct PlayListModel {
    pub version: [u8; 4],
    pub app_info: AppInfoPlayList,
    pub play_items: Seq<PlayItemModel>,
    pub sub_paths: Seq<SubPath>,
    pub marks: Seq<PlayListMark>,
}

impl View for PlayListMpls {
    type V = PlayListModel;

    open spec fn view(&self) -> PlayListModel {
        PlayListModel {
            version: self.version,
            app_info: self.app_info,
            play_items: item_models(self.play_list.play_items@),
            sub_paths: self.play_list.sub_paths@,
            marks: self.marks@,
        }
    }
}

/// The codes of connections, marks and ways to play.
pub proof fn lemma_playlist_codes(v: u8)
    ensures
        ConnectionCondition::of_raw(v) is NonSeamless <==> v == 1,
        ConnectionCondition::of_raw(v) is SeamlessContinuation <==> v == 5,
        ConnectionCondition::of_raw(v) is SeamlessNewStc <==> v == 6,
        ConnectionCondition::of_raw(v).raw() == v,
        MarkType::of_raw(v) is EntryMark <==> v == 1,
        MarkType::of_raw(v) is LinkPoint <==> v == 2,
        PlayListPlaybackType::of_raw(v) is Sequential <==> v == 1,
        PlayListPlaybackType::of_raw(v) is Random <==> v == 2,
        PlayListPlaybackType::of_raw(v) is Shuffle <==> v == 3,
        PlayListPlaybackType::of_raw(v).raw() == v,
{
}

/// A table counts its streams class by class, as far as a byte can.
pub proof fn lemma_stream_counts(t: StnTableModel)
    ensures
        t.primary_video.len() < 256 ==> t.counts().num_primary_video == t.primary_video.len(),
        t.primary_audio.len() < 256 ==> t.counts().num_primary_audio == t.primary_audio.len(),
        t.pg_subtitles.len() < 256 ==> t.counts().num_pg == t.pg_subtitles.len(),
        t.ig_streams.len() < 256 ==> t.counts().num_ig == t.ig_streams.len(),
        t.secondary_audio.len() < 256 ==> t.counts().num_secondary_audio
            == t.secondary_audio.len(),
        t.secondary_video.len() < 256 ==> t.counts().num_secondary_video
            == t.secondary_video.len(),
        t.pip_pg.len() < 256 ==> t.counts().num_pip_pg == t.pip_pg.len(),
{
}

/// A span of a title lasts from its start to its end.
pub proof fn lemma_span_length(x: ChapterSpan)
    ensures
        x.start_pts_90k <= x.end_pts_90k ==> x.start_pts_90k + x.ticks() == x.end_pts_90k,
        x.start_pts_90k > x.end_pts_90k ==> x.ticks() == 0,
{
}

/// A model holds what the fields hold.
pub proof fn lemma_models_hold_fields(
    stn_table: StnTable,
    angle_clip: AngleClip,
    play_item: PlayItem,
    play_list_mpls: PlayListMpls,
    i: int,
)
    ensures
        stn_table@.primary_video == stn_table.primary_video@,
        stn_table@.primary_audio == stn_table.primary_audio@,
        stn_table@.pg_subtitles == stn_table.pg_subtitles@,
        stn_table@.ig_streams == stn_table.ig_streams@,
        stn_table@.secondary_audio == stn_table.secondary_audio@,
        stn_table@.secondary_video == stn_table.secondary_video@,
        stn_table@.pip_pg == stn_table.pip_pg@,
        angle_clip@.clip_information_file_name == angle_clip.clip_information_file_name@,
        angle_clip@.clip_codec_identifier == angle_clip.clip_codec_identifier,
        angle_clip@.stc_id_ref == angle_clip.stc_id_ref,
        play_item@.clip_information_file_name == play_item.clip_information_file_name@,
        play_item@.clip_codec_identifier == play_item.clip_codec_identifier,
        play_item@.connection_condition == play_item.connection_condition,
        play_item@.stc_id_ref == play_item.stc_id_ref,
        play_item@.in_time_ticks == play_item.in_time_ticks,
        play_item@.out_time_ticks == play_item.out_time_ticks,
        play_item@.multi_clip_count == play_item.multi_clip_count,
        play_item@.angles.len() == play_item.angles@.len(),
        0 <= i < play_item.angles@.len() ==> play_item@.angles[i] == play_item.angles@[i]@,
        play_item@.stn_table == play_item.stn_table@,
        play_item@.flags == play_item.flags,
        play_list_mpls@.version == play_list_mpls.version,
        play_list_mpls@.app_info == play_list_mpls.app_info,
        play_list_mpls@.play_items.len() == play_list_mpls.play_list.play_items@.len(),
        0 <= i < play_list_mpls.play_list.play_items@.len() ==> play_list_mpls@.play_items[i] == play_list_mpls.play_list.play_items@[i]@,
        play_list_mpls@.sub_paths == play_list_mpls.play_list.sub_paths@,
        play_list_mpls@.marks == play_list_mpls.marks@,
{
}

} // verus!
