//! The coding types and attribute codes that stream tables record, each a
//! typed view of a byte or of four bits.
use vstd::prelude::*;
use vstd::string::*;

use crate::text::{hex2, push_hex2};

verus! {

/// Coding type of an elementary stream.
#[derive(Debug, Clone, Copy, PartialEq, Eq, Structural, Hash)]
pub enum StreamCodingType {
    /// `0x02`: MPEG-2 video.
    Mpeg2Video,
    /// `0x1B`: H.264 / MPEG-4 AVC video.
    AvcVideo,
    /// `0x24`: H.265 / HEVC video.
    HevcVideo,
    /// `0xEA`: SMPTE VC-1 video.
    Vc1Video,
    /// `0x80`: linear PCM audio.
    LpcmAudio,
    /// `0x81`: Dolby Digital (AC-3) audio.
    Ac3Audio,
    /// `0x82`: DTS audio.
    DtsAudio,
    /// `0x83`: Dolby TrueHD audio.
    TruehdAudio,
    /// `0x84`: Dolby Digital Plus (E-AC-3) audio.
    EAc3Audio,
    /// `0x85`: DTS-HD High Resolution audio.
    DtsHdAudio,
    /// `0x86`: DTS-HD Master Audio.
    DtsHdMaAudio,
    /// `0xA1`: Dolby Digital Plus secondary audio.
    EAc3SecondaryAudio,
    /// `0xA2`: DTS-HD secondary audio.
    DtsHdSecondaryAudio,
    /// `0x90`: presentation graphics (bitmap subtitles).
    PgsSubtitle,
    /// `0x91`: interactive graphics (menu overlay).
    IgsInteractive,
    /// `0x92`: text subtitles.
    TextSubtitle,
    /// Any other value.
    Other(u8),
}

impl StreamCodingType {
    /// The variant that a recorded value names.
    pub open spec fn of_raw(v: u8) -> Self {
        match v {
            0x02 => StreamCodingType::Mpeg2Video,
            0x1B => StreamCodingType::AvcVideo,
            0x24 => StreamCodingType::HevcVideo,
            0xEA => StreamCodingType::Vc1Video,
            0x80 => StreamCodingType::LpcmAudio,
            0x81 => StreamCodingType::Ac3Audio,
            0x82 => StreamCodingType::DtsAudio,
            0x83 => StreamCodingType::TruehdAudio,
            0x84 => StreamCodingType::EAc3Audio,
            0x85 => StreamCodingType::DtsHdAudio,
            0x86 => StreamCodingType::DtsHdMaAudio,
            0xA1 => StreamCodingType::EAc3SecondaryAudio,
            0xA2 => StreamCodingType::DtsHdSecondaryAudio,
            0x90 => StreamCodingType::PgsSubtitle,
            0x91 => StreamCodingType::IgsInteractive,
            0x92 => StreamCodingType::TextSubtitle,
            other => StreamCodingType::Other(other),
        }
    }

    /// The value that a variant is recorded as.
    pub open spec fn raw(self) -> u8 {
        match self {
            StreamCodingType::Mpeg2Video => 0x02,
            StreamCodingType::AvcVideo => 0x1B,
            StreamCodingType::HevcVideo => 0x24,
            StreamCodingType::Vc1Video => 0xEA,
            StreamCodingType::LpcmAudio => 0x80,
            StreamCodingType::Ac3Audio => 0x81,
            StreamCodingType::DtsAudio => 0x82,
            StreamCodingType::TruehdAudio => 0x83,
            StreamCodingType::EAc3Audio => 0x84,
            StreamCodingType::DtsHdAudio => 0x85,
            StreamCodingType::DtsHdMaAudio => 0x86,
            StreamCodingType::EAc3SecondaryAudio => 0xA1,
            StreamCodingType::DtsHdSecondaryAudio => 0xA2,
            StreamCodingType::PgsSubtitle => 0x90,
            StreamCodingType::IgsInteractive => 0x91,
            StreamCodingType::TextSubtitle => 0x92,
            StreamCodingType::Other(v) => v,
        }
    }

    /// Decode a recorded value.
    pub fn from_raw(v: u8) -> (r: Self)
        ensures
            r == Self::of_raw(v),
    {
        match v {
            0x02 => StreamCodingType::Mpeg2Video,
            0x1B => StreamCodingType::AvcVideo,
            0x24 => StreamCodingType::HevcVideo,
            0xEA => StreamCodingType::Vc1Video,
            0x80 => StreamCodingType::LpcmAudio,
            0x81 => StreamCodingType::Ac3Audio,
            0x82 => StreamCodingType::DtsAudio,
            0x83 => StreamCodingType::TruehdAudio,
            0x84 => StreamCodingType::EAc3Audio,
            0x85 => StreamCodingType::DtsHdAudio,
            0x86 => StreamCodingType::DtsHdMaAudio,
            0xA1 => StreamCodingType::EAc3SecondaryAudio,
            0xA2 => StreamCodingType::DtsHdSecondaryAudio,
            0x90 => StreamCodingType::PgsSubtitle,
            0x91 => StreamCodingType::IgsInteractive,
            0x92 => StreamCodingType::TextSubtitle,
            other => StreamCodingType::Other(other),
        }
    }

    /// The recorded value of this variant.
    pub fn as_raw(self) -> (r: u8)
        ensures
            r == self.raw(),
    {
        match self {
            StreamCodingType::Mpeg2Video => 0x02,
            StreamCodingType::AvcVideo => 0x1B,
            StreamCodingType::HevcVideo => 0x24,
            StreamCodingType::Vc1Video => 0xEA,
            StreamCodingType::LpcmAudio => 0x80,
            StreamCodingType::Ac3Audio => 0x81,
            StreamCodingType::DtsAudio => 0x82,
            StreamCodingType::TruehdAudio => 0x83,
            StreamCodingType::EAc3Audio => 0x84,
            StreamCodingType::DtsHdAudio => 0x85,
            StreamCodingType::DtsHdMaAudio => 0x86,
            StreamCodingType::EAc3SecondaryAudio => 0xA1,
            StreamCodingType::DtsHdSecondaryAudio => 0xA2,
            StreamCodingType::PgsSubtitle => 0x90,
            StreamCodingType::IgsInteractive => 0x91,
            StreamCodingType::TextSubtitle => 0x92,
            StreamCodingType::Other(v) => v,
        }
    }

    /// True for the four video coding types.
    pub fn is_video(self) -> (r: bool)
        ensures
            r == (self is Mpeg2Video || self is AvcVideo || self is HevcVideo || self is Vc1Video),
            r ==> self.raw() < 0x80 || self.raw() > 0xA2,
            self !is Other && (self.raw() < 0x80 || self.raw() > 0xA2) ==> r,
    {
        matches!(
            self,
            StreamCodingType::Mpeg2Video
            | StreamCodingType::AvcVideo
            | StreamCodingType::HevcVideo
            | StreamCodingType::Vc1Video
        )
    }

    /// True for every audio coding type, secondary audio included.
    pub fn is_audio(self) -> (r: bool)
        ensures
            r == (self is LpcmAudio || self is Ac3Audio || self is DtsAudio || self is TruehdAudio
            || self is EAc3Audio || self is DtsHdAudio || self is DtsHdMaAudio
            || self is EAc3SecondaryAudio || self is DtsHdSecondaryAudio),
            r ==> 0x80 <= self.raw() < 0x87 || 0xA1 <= self.raw() < 0xA3,
            self !is Other && (0x80 <= self.raw() < 0x87 || 0xA1 <= self.raw() < 0xA3) ==> r,
    {
        matches!(
            self,
            StreamCodingType::LpcmAudio
            | StreamCodingType::Ac3Audio
            | StreamCodingType::DtsAudio
            | StreamCodingType::TruehdAudio
            | StreamCodingType::EAc3Audio
            | StreamCodingType::DtsHdAudio
            | StreamCodingType::DtsHdMaAudio
            | StreamCodingType::EAc3SecondaryAudio
            | StreamCodingType::DtsHdSecondaryAudio
        )
    }

    /// True for bitmap subtitles, menu overlays and text subtitles.
    pub fn is_graphics(self) -> (r: bool)
        ensures
            r == (self is PgsSubtitle || self is IgsInteractive || self is TextSubtitle),
            r ==> 0x90 <= self.raw() < 0x93,
            self !is Other && 0x90 <= self.raw() < 0x93 ==> r,
    {
        matches!(
            self,
            StreamCodingType::PgsSubtitle
            | StreamCodingType::IgsInteractive
            | StreamCodingType::TextSubtitle
        )
    }

    /// True for the two secondary audio coding types.
    pub fn is_secondary(self) -> (r: bool)
        ensures
            r == (self is EAc3SecondaryAudio || self is DtsHdSecondaryAudio),
            r ==> 0xA1 <= self.raw() < 0xA3,
            self !is Other && 0xA1 <= self.raw() < 0xA3 ==> r,
    {
        matches!(self, StreamCodingType::EAc3SecondaryAudio | StreamCodingType::DtsHdSecondaryAudio)
    }

    /// A short label for a track list.
    pub open spec fn label(self) -> Seq<char> {
        match self {
            StreamCodingType::Mpeg2Video => "MPEG-2 Video"@,
            StreamCodingType::AvcVideo => "H.264/AVC Video"@,
            StreamCodingType::HevcVideo => "H.265/HEVC Video"@,
            StreamCodingType::Vc1Video => "VC-1 Video"@,
            StreamCodingType::LpcmAudio => "LPCM Audio"@,
            StreamCodingType::Ac3Audio => "Dolby Digital (AC-3)"@,
            StreamCodingType::DtsAudio => "DTS Audio"@,
            StreamCodingType::TruehdAudio => "Dolby TrueHD"@,
            StreamCodingType::EAc3Audio => "Dolby Digital Plus (E-AC-3)"@,
            StreamCodingType::DtsHdAudio => "DTS-HD High Resolution"@,
            StreamCodingType::DtsHdMaAudio => "DTS-HD Master Audio"@,
            StreamCodingType::EAc3SecondaryAudio => "Dolby Digital Plus (secondary)"@,
            StreamCodingType::DtsHdSecondaryAudio => "DTS-HD (secondary)"@,
            StreamCodingType::PgsSubtitle => "PGS Subtitle"@,
            StreamCodingType::IgsInteractive => "Interactive Graphics"@,
            StreamCodingType::TextSubtitle => "Text Subtitle"@,
            StreamCodingType::Other(v) => "Unknown(0x"@ + hex2(v) + ")"@,
        }
    }

    /// The label of this coding type; an unknown one shows its byte, as in
    /// `Unknown(0x7F)`.
    pub fn display_name(self) -> (r: String)
        ensures
            r@ == self.label(),
    {
        match self {
            StreamCodingType::Mpeg2Video => "MPEG-2 Video".to_owned(),
            StreamCodingType::AvcVideo => "H.264/AVC Video".to_owned(),
            StreamCodingType::HevcVideo => "H.265/HEVC Video".to_owned(),
            StreamCodingType::Vc1Video => "VC-1 Video".to_owned(),
            StreamCodingType::LpcmAudio => "LPCM Audio".to_owned(),
            StreamCodingType::Ac3Audio => "Dolby Digital (AC-3)".to_owned(),
            StreamCodingType::DtsAudio => "DTS Audio".to_owned(),
            StreamCodingType::TruehdAudio => "Dolby TrueHD".to_owned(),
            StreamCodingType::EAc3Audio => "Dolby Digital Plus (E-AC-3)".to_owned(),
            StreamCodingType::DtsHdAudio => "DTS-HD High Resolution".to_owned(),
            StreamCodingType::DtsHdMaAudio => "DTS-HD Master Audio".to_owned(),
            StreamCodingType::EAc3SecondaryAudio => "Dolby Digital Plus (secondary)".to_owned(),
            StreamCodingType::DtsHdSecondaryAudio => "DTS-HD (secondary)".to_owned(),
            StreamCodingType::PgsSubtitle => "PGS Subtitle".to_owned(),
            StreamCodingType::IgsInteractive => "Interactive Graphics".to_owned(),
            StreamCodingType::TextSubtitle => "Text Subtitle".to_owned(),
            StreamCodingType::Other(v) => {
                let mut s = "Unknown(0x".to_owned();
                push_hex2(&mut s, v);
                s.append(")");
                s
            },
        }
    }
}

impl Default for StreamCodingType {
    fn default() -> (r: Self)
        ensures
            r == StreamCodingType::Other(0),
    {
        StreamCodingType::Other(0)
    }
}

/// Four-bit video format: line count and scan.
#[derive(Debug, Clone, Copy, PartialEq, Eq, Structural, Hash)]
pub enum VideoFormat {
    /// `0x01`: 480i.
    Video480i,
    /// `0x02`: 576i.
    Video576i,
    /// `0x03`: 480p.
    Video480p,
    /// `0x04`: 1080i.
    Video1080i,
    /// `0x05`: 720p.
    Video720p,
    /// `0x06`: 1080p.
    Video1080p,
    /// `0x07`: 576p.
    Video576p,
    /// `0x08`: 2160p.
    Video2160p,
    /// Any other value.
    Other(u8),
}

impl VideoFormat {
    /// The variant that a recorded value names.
    pub open spec fn of_raw(v: u8) -> Self {
        match v % 16 {
            0x01 => VideoFormat::Video480i,
            0x02 => VideoFormat::Video576i,
            0x03 => VideoFormat::Video480p,
            0x04 => VideoFormat::Video1080i,
            0x05 => VideoFormat::Video720p,
            0x06 => VideoFormat::Video1080p,
            0x07 => VideoFormat::Video576p,
            0x08 => VideoFormat::Video2160p,
            other => VideoFormat::Other(other),
        }
    }

    /// The value that a variant is recorded as.
    pub open spec fn raw(self) -> u8 {
        match self {
            VideoFormat::Video480i => 0x01,
            VideoFormat::Video576i => 0x02,
            VideoFormat::Video480p => 0x03,
            VideoFormat::Video1080i => 0x04,
            VideoFormat::Video720p => 0x05,
            VideoFormat::Video1080p => 0x06,
            VideoFormat::Video576p => 0x07,
            VideoFormat::Video2160p => 0x08,
            VideoFormat::Other(v) => v % 16,
        }
    }

    /// Decode a recorded value, of which only the low four bits count.
    pub fn from_raw(v: u8) -> (r: Self)
        ensures
            r == Self::of_raw(v),
    {
        match v % 16 {
            0x01 => VideoFormat::Video480i,
            0x02 => VideoFormat::Video576i,
            0x03 => VideoFormat::Video480p,
            0x04 => VideoFormat::Video1080i,
            0x05 => VideoFormat::Video720p,
            0x06 => VideoFormat::Video1080p,
            0x07 => VideoFormat::Video576p,
            0x08 => VideoFormat::Video2160p,
            other => VideoFormat::Other(other),
        }
    }

    /// The recorded value of this variant.
    pub fn as_raw(self) -> (r: u8)
        ensures
            r == self.raw(),
    {
        match self {
            VideoFormat::Video480i => 0x01,
            VideoFormat::Video576i => 0x02,
            VideoFormat::Video480p => 0x03,
            VideoFormat::Video1080i => 0x04,
            VideoFormat::Video720p => 0x05,
            VideoFormat::Video1080p => 0x06,
            VideoFormat::Video576p => 0x07,
            VideoFormat::Video2160p => 0x08,
            VideoFormat::Other(v) => v % 16,
        }
    }

    /// True for the progressive formats.
    pub fn is_progressive(self) -> (r: bool)
        ensures
            r == (self is Video480p || self is Video576p || self is Video720p
            || self is Video1080p || self is Video2160p),
    {
        matches!(
            self,
            VideoFormat::Video480p
            | VideoFormat::Video576p
            | VideoFormat::Video720p
            | VideoFormat::Video1080p
            | VideoFormat::Video2160p
        )
    }

    /// The number of active lines, or `None` for an unknown format.
    pub fn vertical_lines(self) -> (r: Option<u16>)
        ensures
            r == match self {
                VideoFormat::Video480i | VideoFormat::Video480p => Some(480u16),
                VideoFormat::Video576i | VideoFormat::Video576p => Some(576u16),
                VideoFormat::Video720p => Some(720u16),
                VideoFormat::Video1080i | VideoFormat::Video1080p => Some(1080u16),
                VideoFormat::Video2160p => Some(2160u16),
                VideoFormat::Other(_) => None,
            },
    {
        match self {
            VideoFormat::Video480i | VideoFormat::Video480p => Some(480),
            VideoFormat::Video576i | VideoFormat::Video576p => Some(576),
            VideoFormat::Video720p => Some(720),
            VideoFormat::Video1080i | VideoFormat::Video1080p => Some(1080),
            VideoFormat::Video2160p => Some(2160),
            VideoFormat::Other(_) => None,
        }
    }
}

impl Default for VideoFormat {
    fn default() -> (r: Self)
        ensures
            r == VideoFormat::Other(0),
    {
        VideoFormat::Other(0)
    }
}

/// Four-bit frame rate.
#[derive(Debug, Clone, Copy, PartialEq, Eq, Structural, Hash)]
pub enum FrameRate {
    /// `0x01`: 24000/1001.
    Fps23_976,
    /// `0x02`: 24.
    Fps24,
    /// `0x03`: 25.
    Fps25,
    /// `0x04`: 30000/1001.
    Fps29_97,
    /// `0x06`: 50.
    Fps50,
    /// `0x07`: 60000/1001.
    Fps59_94,
    /// Any other value.
    Other(u8),
}

impl FrameRate {
    /// The variant that a recorded value names.
    pub open spec fn of_raw(v: u8) -> Self {
        match v % 16 {
            0x01 => FrameRate::Fps23_976,
            0x02 => FrameRate::Fps24,
            0x03 => FrameRate::Fps25,
            0x04 => FrameRate::Fps29_97,
            0x06 => FrameRate::Fps50,
            0x07 => FrameRate::Fps59_94,
            other => FrameRate::Other(other),
        }
    }

    /// The value that a variant is recorded as.
    pub open spec fn raw(self) -> u8 {
        match self {
            FrameRate::Fps23_976 => 0x01,
            FrameRate::Fps24 => 0x02,
            FrameRate::Fps25 => 0x03,
            FrameRate::Fps29_97 => 0x04,
            FrameRate::Fps50 => 0x06,
            FrameRate::Fps59_94 => 0x07,
            FrameRate::Other(v) => v % 16,
        }
    }

    /// Decode a recorded value, of which only the low four bits count.
    pub fn from_raw(v: u8) -> (r: Self)
        ensures
            r == Self::of_raw(v),
    {
        match v % 16 {
            0x01 => FrameRate::Fps23_976,
            0x02 => FrameRate::Fps24,
            0x03 => FrameRate::Fps25,
            0x04 => FrameRate::Fps29_97,
            0x06 => FrameRate::Fps50,
            0x07 => FrameRate::Fps59_94,
            other => FrameRate::Other(other),
        }
    }

    /// The recorded value of this variant.
    pub fn as_raw(self) -> (r: u8)
        ensures
            r == self.raw(),
    {
        match self {
            FrameRate::Fps23_976 => 0x01,
            FrameRate::Fps24 => 0x02,
            FrameRate::Fps25 => 0x03,
            FrameRate::Fps29_97 => 0x04,
            FrameRate::Fps50 => 0x06,
            FrameRate::Fps59_94 => 0x07,
            FrameRate::Other(v) => v % 16,
        }
    }

    /// The rate as numerator and denominator, or `None` for an unknown one.
    pub fn fps_q(self) -> (r: Option<(u32, u32)>)
        ensures
            r == match self {
                FrameRate::Fps23_976 => Some((24_000u32, 1_001u32)),
                FrameRate::Fps24 => Some((24u32, 1u32)),
                FrameRate::Fps25 => Some((25u32, 1u32)),
                FrameRate::Fps29_97 => Some((30_000u32, 1_001u32)),
                FrameRate::Fps50 => Some((50u32, 1u32)),
                FrameRate::Fps59_94 => Some((60_000u32, 1_001u32)),
                FrameRate::Other(_) => None,
            },
    {
        match self {
            FrameRate::Fps23_976 => Some((24_000, 1_001)),
            FrameRate::Fps24 => Some((24, 1)),
            FrameRate::Fps25 => Some((25, 1)),
            FrameRate::Fps29_97 => Some((30_000, 1_001)),
            FrameRate::Fps50 => Some((50, 1)),
            FrameRate::Fps59_94 => Some((60_000, 1_001)),
            FrameRate::Other(_) => None,
        }
    }

    /// True for the rates over 1001.
    pub fn is_fractional(self) -> (r: bool)
        ensures
            r == (self is Fps23_976 || self is Fps29_97 || self is Fps59_94),
    {
        matches!(self, FrameRate::Fps23_976 | FrameRate::Fps29_97 | FrameRate::Fps59_94)
    }
}

impl Default for FrameRate {
    fn default() -> (r: Self)
        ensures
            r == FrameRate::Other(0),
    {
        FrameRate::Other(0)
    }
}

/// Four-bit display aspect ratio.
#[derive(Debug, Clone, Copy, PartialEq, Eq, Structural, Hash)]
pub enum AspectRatio {
    /// `0x02`: 4:3.
    Ratio4x3,
    /// `0x03`: 16:9.
    Ratio16x9,
    /// Any other value.
    Other(u8),
}

impl AspectRatio {
    /// The variant that a recorded value names.
    pub open spec fn of_raw(v: u8) -> Self {
        match v % 16 {
            0x02 => AspectRatio::Ratio4x3,
            0x03 => AspectRatio::Ratio16x9,
            other => AspectRatio::Other(other),
        }
    }

    /// The value that a variant is recorded as.
    pub open spec fn raw(self) -> u8 {
        match self {
            AspectRatio::Ratio4x3 => 0x02,
            AspectRatio::Ratio16x9 => 0x03,
            AspectRatio::Other(v) => v % 16,
        }
    }

    /// Decode a recorded value, of which only the low four bits count.
    pub fn from_raw(v: u8) -> (r: Self)
        ensures
            r == Self::of_raw(v),
    {
        match v % 16 {
            0x02 => AspectRatio::Ratio4x3,
            0x03 => AspectRatio::Ratio16x9,
            other => AspectRatio::Other(other),
        }
    }

    /// The recorded value of this variant.
    pub fn as_raw(self) -> (r: u8)
        ensures
            r == self.raw(),
    {
        match self {
            AspectRatio::Ratio4x3 => 0x02,
            AspectRatio::Ratio16x9 => 0x03,
            AspectRatio::Other(v) => v % 16,
        }
    }

    /// The ratio as width and height, or `None` for an unknown one.
    pub fn ratio(self) -> (r: Option<(u8, u8)>)
        ensures
            r == match self {
                AspectRatio::Ratio4x3 => Some((4u8, 3u8)),
                AspectRatio::Ratio16x9 => Some((16u8, 9u8)),
                AspectRatio::Other(_) => None,
            },
    {
        match self {
            AspectRatio::Ratio4x3 => Some((4, 3)),
            AspectRatio::Ratio16x9 => Some((16, 9)),
            AspectRatio::Other(_) => None,
        }
    }

    /// True for 16:9.
    pub fn is_widescreen(self) -> (r: bool)
        ensures
            r == (self is Ratio16x9),
    {
        matches!(self, AspectRatio::Ratio16x9)
    }
}

impl Default for AspectRatio {
    fn default() -> (r: Self)
        ensures
            r == AspectRatio::Other(0),
    {
        AspectRatio::Other(0)
    }
}

/// Four-bit channel layout.
#[derive(Debug, Clone, Copy, PartialEq, Eq, Structural, Hash)]
pub enum AudioFormat {
    /// `0x01`: 1.0.
    Mono,
    /// `0x03`: 2.0.
    Stereo,
    /// `0x06`: 5.1.
    Multi,
    /// `0x0C`: 5.1 with a stereo downmix beside it.
    Combo,
    /// Any other value.
    Other(u8),
}

impl AudioFormat {
    /// The variant that a recorded value names.
    pub open spec fn of_raw(v: u8) -> Self {
        match v % 16 {
            0x01 => AudioFormat::Mono,
            0x03 => AudioFormat::Stereo,
            0x06 => AudioFormat::Multi,
            0x0C => AudioFormat::Combo,
            other => AudioFormat::Other(other),
        }
    }

    /// The value that a variant is recorded as.
    pub open spec fn raw(self) -> u8 {
        match self {
            AudioFormat::Mono => 0x01,
            AudioFormat::Stereo => 0x03,
            AudioFormat::Multi => 0x06,
            AudioFormat::Combo => 0x0C,
            AudioFormat::Other(v) => v % 16,
        }
    }

    /// Decode a recorded value, of which only the low four bits count.
    pub fn from_raw(v: u8) -> (r: Self)
        ensures
            r == Self::of_raw(v),
    {
        match v % 16 {
            0x01 => AudioFormat::Mono,
            0x03 => AudioFormat::Stereo,
            0x06 => AudioFormat::Multi,
            0x0C => AudioFormat::Combo,
            other => AudioFormat::Other(other),
        }
    }

    /// The recorded value of this variant.
    pub fn as_raw(self) -> (r: u8)
        ensures
            r == self.raw(),
    {
        match self {
            AudioFormat::Mono => 0x01,
            AudioFormat::Stereo => 0x03,
            AudioFormat::Multi => 0x06,
            AudioFormat::Combo => 0x0C,
            AudioFormat::Other(v) => v % 16,
        }
    }

    /// The number of channels of the primary mix, or `None` for an unknown
    /// layout.
    pub fn channel_count(self) -> (r: Option<u8>)
        ensures
            r == match self {
                AudioFormat::Mono => Some(1u8),
                AudioFormat::Stereo => Some(2u8),
                AudioFormat::Multi | AudioFormat::Combo => Some(6u8),
                AudioFormat::Other(_) => None,
            },
    {
        match self {
            AudioFormat::Mono => Some(1),
            AudioFormat::Stereo => Some(2),
            AudioFormat::Multi | AudioFormat::Combo => Some(6),
            AudioFormat::Other(_) => None,
        }
    }

    /// True when a stereo downmix is carried too.
    pub fn has_downmix(self) -> (r: bool)
        ensures
            r == (self is Combo),
    {
        matches!(self, AudioFormat::Combo)
    }
}

impl Default for AudioFormat {
    fn default() -> (r: Self)
        ensures
            r == AudioFormat::Other(0),
    {
        AudioFormat::Other(0)
    }
}

/// Four-bit sample rate.
#[derive(Debug, Clone, Copy, PartialEq, Eq, Structural, Hash)]
pub enum SampleRate {
    /// `0x01`: 48 kHz.
    Hz48000,
    /// `0x04`: 96 kHz.
    Hz96000,
    /// `0x05`: 192 kHz.
    Hz192000,
    /// `0x0C`: 48 and 192 kHz.
    Combo48_192,
    /// `0x0E`: 48 and 96 kHz.
    Combo48_96,
    /// Any other value.
    Other(u8),
}

impl SampleRate {
    /// The variant that a recorded value names.
    pub open spec fn of_raw(v: u8) -> Self {
        match v % 16 {
            0x01 => SampleRate::Hz48000,
            0x04 => SampleRate::Hz96000,
            0x05 => SampleRate::Hz192000,
            0x0C => SampleRate::Combo48_192,
            0x0E => SampleRate::Combo48_96,
            other => SampleRate::Other(other),
        }
    }

    /// The value that a variant is recorded as.
    pub open spec fn raw(self) -> u8 {
        match self {
            SampleRate::Hz48000 => 0x01,
            SampleRate::Hz96000 => 0x04,
            SampleRate::Hz192000 => 0x05,
            SampleRate::Combo48_192 => 0x0C,
            SampleRate::Combo48_96 => 0x0E,
            SampleRate::Other(v) => v % 16,
        }
    }

    /// Decode a recorded value, of which only the low four bits count.
    pub fn from_raw(v: u8) -> (r: Self)
        ensures
            r == Self::of_raw(v),
    {
        match v % 16 {
            0x01 => SampleRate::Hz48000,
            0x04 => SampleRate::Hz96000,
            0x05 => SampleRate::Hz192000,
            0x0C => SampleRate::Combo48_192,
            0x0E => SampleRate::Combo48_96,
            other => SampleRate::Other(other),
        }
    }

    /// The recorded value of this variant.
    pub fn as_raw(self) -> (r: u8)
        ensures
            r == self.raw(),
    {
        match self {
            SampleRate::Hz48000 => 0x01,
            SampleRate::Hz96000 => 0x04,
            SampleRate::Hz192000 => 0x05,
            SampleRate::Combo48_192 => 0x0C,
            SampleRate::Combo48_96 => 0x0E,
            SampleRate::Other(v) => v % 16,
        }
    }

    /// The highest rate in Hz, or `None` for an unknown one.
    pub fn primary_hz(self) -> (r: Option<u32>)
        ensures
            r == match self {
                SampleRate::Hz48000 => Some(48_000u32),
                SampleRate::Hz96000 | SampleRate::Combo48_96 => Some(96_000u32),
                SampleRate::Hz192000 | SampleRate::Combo48_192 => Some(192_000u32),
                SampleRate::Other(_) => None,
            },
    {
        match self {
            SampleRate::Hz48000 => Some(48_000),
            SampleRate::Hz96000 | SampleRate::Combo48_96 => Some(96_000),
            SampleRate::Hz192000 | SampleRate::Combo48_192 => Some(192_000),
            SampleRate::Other(_) => None,
        }
    }

    /// True when two rates are carried.
    pub fn is_combo(self) -> (r: bool)
        ensures
            r == (self is Combo48_192 || self is Combo48_96),
    {
        matches!(self, SampleRate::Combo48_192 | SampleRate::Combo48_96)
    }
}

impl Default for SampleRate {
    fn default() -> (r: Self)
        ensures
            r == SampleRate::Other(0),
    {
        SampleRate::Other(0)
    }
}

/// Decoding and encoding a byte or four bits are inverse: the recorded value
/// of what a value names is that value (its low four bits for the attribute
/// codes), and decoding the recorded value of a named variant gives the
/// variant back.
pub proof fn lemma_codes_round_trip(v: u8)
    ensures
        StreamCodingType::of_raw(v).raw() == v,
        VideoFormat::of_raw(v).raw() == v % 16,
        FrameRate::of_raw(v).raw() == v % 16,
        AspectRatio::of_raw(v).raw() == v % 16,
        AudioFormat::of_raw(v).raw() == v % 16,
        SampleRate::of_raw(v).raw() == v % 16,
        forall|x: StreamCodingType|
            x !is Other ==> StreamCodingType::of_raw(#[trigger] x.raw()) == x,
        forall|x: VideoFormat| x !is Other ==> VideoFormat::of_raw(#[trigger] x.raw()) == x,
        forall|x: FrameRate| x !is Other ==> FrameRate::of_raw(#[trigger] x.raw()) == x,
        forall|x: AspectRatio| x !is Other ==> AspectRatio::of_raw(#[trigger] x.raw()) == x,
        forall|x: AudioFormat| x !is Other ==> AudioFormat::of_raw(#[trigger] x.raw()) == x,
        forall|x: SampleRate| x !is Other ==> SampleRate::of_raw(#[trigger] x.raw()) == x,
{
}

/// The codes of the codings: those of video, of audio, and of graphics, each
/// with one byte of its own; any other byte is kept as it is.
pub proof fn lemma_coding_codes(v: u8)
    ensures
        ({
            let c = StreamCodingType::of_raw(v);
            &&& c is Mpeg2Video <==> v == 2
            &&& c is AvcVideo <==> v == 27
            &&& c is HevcVideo <==> v == 36
            &&& c is Vc1Video <==> v == 234
            &&& c is LpcmAudio <==> v == 128
            &&& c is Ac3Audio <==> v == 129
            &&& c is DtsAudio <==> v == 130
            &&& c is TruehdAudio <==> v == 131
            &&& c is EAc3Audio <==> v == 132
            &&& c is DtsHdAudio <==> v == 133
            &&& c is DtsHdMaAudio <==> v == 134
            &&& c is EAc3SecondaryAudio <==> v == 161
            &&& c is DtsHdSecondaryAudio <==> v == 162
            &&& c is PgsSubtitle <==> v == 144
            &&& c is IgsInteractive <==> v == 145
            &&& c is TextSubtitle <==> v == 146
            &&& c matches StreamCodingType::Other(x) ==> x == v
        }),
{
}

/// The codes of pictures and sound, four bits each: the bits above do not
/// count.
pub proof fn lemma_attribute_codes(v: u8, high: u8)
    requires
        v < 16,
        high < 16,
    ensures
        ({
            let c = VideoFormat::of_raw((high * 16 + v) as u8);
            &&& c is Video480i <==> v == 1
            &&& c is Video576i <==> v == 2
            &&& c is Video480p <==> v == 3
            &&& c is Video1080i <==> v == 4
            &&& c is Video720p <==> v == 5
            &&& c is Video1080p <==> v == 6
            &&& c is Video576p <==> v == 7
            &&& c is Video2160p <==> v == 8
            &&& c matches VideoFormat::Other(x) ==> x == v
        }),
        ({
            let c = FrameRate::of_raw((high * 16 + v) as u8);
            &&& c is Fps23_976 <==> v == 1
            &&& c is Fps24 <==> v == 2
            &&& c is Fps25 <==> v == 3
            &&& c is Fps29_97 <==> v == 4
            &&& c is Fps50 <==> v == 6
            &&& c is Fps59_94 <==> v == 7
            &&& c matches FrameRate::Other(x) ==> x == v
        }),
        ({
            let c = AspectRatio::of_raw((high * 16 + v) as u8);
            &&& c is Ratio4x3 <==> v == 2
            &&& c is Ratio16x9 <==> v == 3
            &&& c matches AspectRatio::Other(x) ==> x == v
        }),
        ({
            let c = AudioFormat::of_raw((high * 16 + v) as u8);
            &&& c is Mono <==> v == 1
            &&& c is Stereo <==> v == 3
            &&& c is Multi <==> v == 6
            &&& c is Combo <==> v == 12
            &&& c matches AudioFormat::Other(x) ==> x == v
        }),
        ({
            let c = SampleRate::of_raw((high * 16 + v) as u8);
            &&& c is Hz48000 <==> v == 1
            &&& c is Hz96000 <==> v == 4
            &&& c is Hz192000 <==> v == 5
            &&& c is Combo48_192 <==> v == 12
            &&& c is Combo48_96 <==> v == 14
            &&& c matches SampleRate::Other(x) ==> x == v
        }),
{
    let b = (high * 16 + v) as u8;
    assert(b % 16 == v);
}

} // verus!
