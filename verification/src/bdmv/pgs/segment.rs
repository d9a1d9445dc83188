//! Segments of a presentation graphics stream.
//!
//! ```text
//!   0  magic         "PG"
//!   2  pts           u32, 90 kHz
//!   6  dts           u32, 90 kHz
//!  10  segment_type  u8
//!  11  segment_size  u16, bytes of the body
//!  13  the body
//! ```
use vstd::prelude::*;

use crate::bdmv::common::{be16, be24, be32, lemma_list_at_none, list_at, Reader};
use crate::error::BlurayError;

verus! {

/// The 13 bytes before the body of a segment.
#[derive(Debug, Clone, Copy, PartialEq, Eq, Structural)]
pub struct SegmentHeader {
    /// Presentation time, 90 kHz.
    pub pts: u32,
    /// Decoding time, 90 kHz; mostly 0.
    pub dts: u32,
    pub segment_type: u8,
    /// Bytes of the body.
    pub segment_size: u16,
}

/// Kind of a segment.
#[derive(Debug, Clone, Copy, PartialEq, Eq, Structural)]
pub enum SegmentType {
    /// Palette definition (`0x14`).
    Pds,
    /// Object definition (`0x15`).
    Ods,
    /// Presentation composition (`0x16`).
    Pcs,
    /// Window definition (`0x17`).
    Wds,
    /// End of the display set (`0x80`).
    End,
    Other(u8),
}

impl SegmentType {
    pub open spec fn of_raw(v: u8) -> Self {
        if v == 0x14 {
            SegmentType::Pds
        } else if v == 0x15 {
            SegmentType::Ods
        } else if v == 0x16 {
            SegmentType::Pcs
        } else if v == 0x17 {
            SegmentType::Wds
        } else if v == 0x80 {
            SegmentType::End
        } else {
            SegmentType::Other(v)
        }
    }

    pub open spec fn raw(self) -> u8 {
        match self {
            SegmentType::Pds => 0x14,
            SegmentType::Ods => 0x15,
            SegmentType::Pcs => 0x16,
            SegmentType::Wds => 0x17,
            SegmentType::End => 0x80,
            SegmentType::Other(v) => v,
        }
    }

    pub fn from_raw(v: u8) -> (r: Self)
        ensures
            r == Self::of_raw(v),
            r.raw() == v,
    {
        match v {
            0x14 => SegmentType::Pds,
            0x15 => SegmentType::Ods,
            0x16 => SegmentType::Pcs,
            0x17 => SegmentType::Wds,
            0x80 => SegmentType::End,
            other => SegmentType::Other(other),
        }
    }

    pub fn as_raw(self) -> (r: u8)
        ensures
            r == self.raw(),
    {
        match self {
            SegmentType::Pds => 0x14,
            SegmentType::Ods => 0x15,
            SegmentType::Pcs => 0x16,
            SegmentType::Wds => 0x17,
            SegmentType::End => 0x80,
            SegmentType::Other(v) => v,
        }
    }
}

/// How a display set relates to the one before it.
#[derive(Debug, Clone, Copy, PartialEq, Eq, Structural)]
pub enum CompositionState {
    /// Only what changed (`0x00`).
    Normal,
    /// A full picture in the middle of an epoch (`0x40`).
    AcquisitionPoint,
    /// The start of an epoch (`0x80`).
    EpochStart,
    Other(u8),
}

impl CompositionState {
    pub open spec fn of_raw(v: u8) -> Self {
        if v == 0x00 {
            CompositionState::Normal
        } else if v == 0x40 {
            CompositionState::AcquisitionPoint
        } else if v == 0x80 {
            CompositionState::EpochStart
        } else {
            CompositionState::Other(v)
        }
    }

    pub open spec fn raw(self) -> u8 {
        match self {
            CompositionState::Normal => 0x00,
            CompositionState::AcquisitionPoint => 0x40,
            CompositionState::EpochStart => 0x80,
            CompositionState::Other(v) => v,
        }
    }

    pub fn from_raw(v: u8) -> (r: Self)
        ensures
            r == Self::of_raw(v),
            r.raw() == v,
    {
        match v {
            0x00 => CompositionState::Normal,
            0x40 => CompositionState::AcquisitionPoint,
            0x80 => CompositionState::EpochStart,
            other => CompositionState::Other(other),
        }
    }

    pub fn as_raw(self) -> (r: u8)
        ensures
            r == self.raw(),
    {
        match self {
            CompositionState::Normal => 0x00,
            CompositionState::AcquisitionPoint => 0x40,
            CompositionState::EpochStart => 0x80,
            CompositionState::Other(v) => v,
        }
    }

    /// Whether windows and objects start afresh.
    pub fn is_epoch_start(self) -> (r: bool)
        ensures
            r == (self is EpochStart),
    {
        matches!(self, CompositionState::EpochStart)
    }
}

/// Which part of an object a fragment is.
#[derive(Debug, Clone, Copy, PartialEq, Eq, Structural)]
pub enum FragmentFlag {
    /// `0x80`.
    First,
    /// `0x40`.
    Last,
    /// The whole object (`0xC0`).
    FirstAndLast,
    Other(u8),
}

impl FragmentFlag {
    pub open spec fn of_raw(v: u8) -> Self {
        if v == 0x80 {
            FragmentFlag::First
        } else if v == 0x40 {
            FragmentFlag::Last
        } else if v == 0xC0 {
            FragmentFlag::FirstAndLast
        } else {
            FragmentFlag::Other(v)
        }
    }

    pub open spec fn raw(self) -> u8 {
        match self {
            FragmentFlag::First => 0x80,
            FragmentFlag::Last => 0x40,
            FragmentFlag::FirstAndLast => 0xC0,
            FragmentFlag::Other(v) => v,
        }
    }

    pub open spec fn first(self) -> bool {
        self is First || self is FirstAndLast
    }

    pub open spec fn last(self) -> bool {
        self is Last || self is FirstAndLast
    }

    pub fn from_raw(v: u8) -> (r: Self)
        ensures
            r == Self::of_raw(v),
            r.raw() == v,
    {
        match v {
            0x80 => FragmentFlag::First,
            0x40 => FragmentFlag::Last,
            0xC0 => FragmentFlag::FirstAndLast,
            other => FragmentFlag::Other(other),
        }
    }

    pub fn as_raw(self) -> (r: u8)
        ensures
            r == self.raw(),
    {
        match self {
            FragmentFlag::First => 0x80,
            FragmentFlag::Last => 0x40,
            FragmentFlag::FirstAndLast => 0xC0,
            FragmentFlag::Other(v) => v,
        }
    }

    /// Whether the fragment opens an object; it then gives the size.
    pub fn is_first(self) -> (r: bool)
        ensures
            r == self.first(),
    {
        matches!(self, FragmentFlag::First | FragmentFlag::FirstAndLast)
    }

    /// Whether the fragment closes an object.
    pub fn is_last(self) -> (r: bool)
        ensures
            r == self.last(),
    {
        matches!(self, FragmentFlag::Last | FragmentFlag::FirstAndLast)
    }
}

/// The part of an object that is shown.
#[derive(Debug, Clone, Copy, PartialEq, Eq, Structural)]
pub struct CompositionObjectCrop {
    pub horizontal_position: u16,
    pub vertical_position: u16,
    pub width: u16,
    pub height: u16,
}

/// An object on the screen.
#[derive(Debug, Clone, Copy, PartialEq, Eq, Structural)]
pub struct CompositionObject {
    pub object_id: u16,
    pub window_id: u8,
    /// `0x40` where the object is cropped.
    pub object_cropped_flag: u8,
    pub object_horizontal_position: u16,
    pub object_vertical_position: u16,
    /// There exactly where the object is cropped.
    pub cropping: Option<CompositionObjectCrop>,
}

impl CompositionObject {
    /// The flag of a cropped object.
    pub const CROPPED_FLAG: u8 = 0x40;

    pub fn is_cropped(&self) -> (r: bool)
        ensures
            r == self.cropping is Some,
    {
        self.cropping.is_some()
    }
}

/// Presentation composition: the size of the screen and what is on it.
#[derive(Debug, Clone, PartialEq, Eq)]
pub struct Pcs {
    pub width: u16,
    pub height: u16,
    pub frame_rate: u8,
    pub composition_number: u16,
    pub composition_state: u8,
    /// `0x80` where only the palette changes.
    pub palette_update_flag: u8,
    /// The palette that the composition uses.
    pub palette_id: u8,
    pub composition_objects: Vec<CompositionObject>,
}

/// A window.
#[derive(Debug, Clone, Copy, PartialEq, Eq, Structural)]
pub struct Window {
    pub window_id: u8,
    pub horizontal_position: u16,
    pub vertical_position: u16,
    pub width: u16,
    pub height: u16,
}

/// Window definition.
#[derive(Debug, Clone, PartialEq, Eq)]
pub struct Wds {
    pub windows: Vec<Window>,
}

/// A colour of a palette: luminance, two colour differences, opacity.
#[derive(Debug, Clone, Copy, PartialEq, Eq, Structural)]
pub struct PaletteEntry {
    pub palette_entry_id: u8,
    /// Luminance.
    pub y: u8,
    /// Red difference.
    pub cr: u8,
    /// Blue difference.
    pub cb: u8,
    /// `0x00` is transparent, `0xFF` opaque.
    pub alpha: u8,
}

/// Palette definition. The number of entries follows from the size of the
/// body.
#[derive(Debug, Clone, PartialEq, Eq)]
pub struct Pds {
    pub palette_id: u8,
    pub palette_version_number: u8,
    pub entries: Vec<PaletteEntry>,
}

/// Object definition: a run-length coded bitmap, or a fragment of one.
#[derive(Debug, Clone, PartialEq, Eq)]
pub struct Ods {
    pub object_id: u16,
    pub object_version_number: u8,
    pub last_in_sequence_flag: u8,
    /// In the first fragment: the bytes of the whole bitmap and four more.
    pub object_data_length: u32,
    /// Only in the first fragment.
    pub width: Option<u16>,
    /// Only in the first fragment.
    pub height: Option<u16>,
    /// The run-length coded bytes.
    pub object_data: Vec<u8>,
}

/// The body of a segment.
#[derive(Debug, Clone, PartialEq, Eq)]
pub enum SegmentBody {
    Pcs(Pcs),
    Wds(Wds),
    Pds(Pds),
    Ods(Ods),
    End,
    /// No kind of the format; the bytes are kept.
    Other { segment_type: u8, data: Vec<u8> },
}

/// A segment.
#[derive(Debug, Clone, PartialEq, Eq)]
pub struct Segment {
    pub header: SegmentHeader,
    pub body: SegmentBody,
}

// ---------------------------------------------------------------------
// Models
// ---------------------------------------------------------------------

/// Model of [`Pcs`].
#[verifier::ext_equal]
pub struct PcsModel {
    pub width: u16,
    pub height: u16,
    pub frame_rate: u8,
    pub composition_number: u16,
    pub composition_state: u8,
    pub palette_update_flag: u8,
    pub palette_id: u8,
    pub composition_objects: Seq<CompositionObject>,
}

impl View for Pcs {
    type V = PcsModel;

    open spec fn view(&self) -> PcsModel {
        PcsModel {
            width: self.width,
            height: self.height,
            frame_rate: self.frame_rate,
            composition_number: self.composition_number,
            composition_state: self.composition_state,
            palette_update_flag: self.palette_update_flag,
            palette_id: self.palette_id,
            composition_objects: self.composition_objects@,
        }
    }
}

impl View for Wds {
    type V = Seq<Window>;

    open spec fn view(&self) -> Seq<Window> {
        self.windows@
    }
}

/// Model of [`Pds`].
#[verifier::ext_equal]
pub struct PdsModel {
    pub palette_id: u8,
    pub palette_version_number: u8,
    pub entries: Seq<PaletteEntry>,
}

impl View for Pds {
    type V = PdsModel;

    open spec fn view(&self) -> PdsModel {
        PdsModel {
            palette_id: self.palette_id,
            palette_version_number: self.palette_version_number,
            entries: self.entries@,
        }
    }
}

/// Model of [`Ods`].
#[verifier::ext_equal]
pub struct OdsModel {
    pub object_id: u16,
    pub object_version_number: u8,
    pub last_in_sequence_flag: u8,
    pub object_data_length: u32,
    pub width: Option<u16>,
    pub height: Option<u16>,
    pub object_data: Seq<u8>,
}

impl OdsModel {
    pub open spec fn flag(self) -> FragmentFlag {
        FragmentFlag::of_raw(self.last_in_sequence_flag)
    }
}

impl View for Ods {
    type V = OdsModel;

    open spec fn view(&self) -> OdsModel {
        OdsModel {
            object_id: self.object_id,
            object_version_number: self.object_version_number,
            last_in_sequence_flag: self.last_in_sequence_flag,
            object_data_length: self.object_data_length,
            width: self.width,
            height: self.height,
            object_data: self.object_data@,
        }
    }
}

/// Model of [`SegmentBody`].
#[verifier::ext_equal]
pub enum BodyModel {
    Pcs(PcsModel),
    Wds(Seq<Window>),
    Pds(PdsModel),
    Ods(OdsModel),
    End,
    Other { segment_type: u8, data: Seq<u8> },
}

impl View for SegmentBody {
    type V = BodyModel;

    open spec fn view(&self) -> BodyModel {
        match *self {
            SegmentBody::Pcs(x) => BodyModel::Pcs(x@),
            SegmentBody::Wds(x) => BodyModel::Wds(x@),
            SegmentBody::Pds(x) => BodyModel::Pds(x@),
            SegmentBody::Ods(x) => BodyModel::Ods(x@),
            SegmentBody::End => BodyModel::End,
            SegmentBody::Other { segment_type, data } => BodyModel::Other {
                segment_type,
                data: data@,
            },
        }
    }
}

/// Model of [`Segment`].
#[verifier::ext_equal]
pub struct SegmentModel {
    pub header: SegmentHeader,
    pub body: BodyModel,
}

impl View for Segment {
    type V = SegmentModel;

    open spec fn view(&self) -> SegmentModel {
        SegmentModel { header: self.header, body: self.body@ }
    }
}

pub open spec fn segment_models(v: Seq<Segment>) -> Seq<SegmentModel> {
    Seq::new(v.len(), |i: int| v[i]@)
}

// ---------------------------------------------------------------------
// What the bytes spell
// ---------------------------------------------------------------------

/// The header at `p`.
pub open spec fn header_at(s: Seq<u8>, p: int) -> Option<SegmentHeader> {
    if p + 13 > s.len() || s[p] != 0x50 || s[p + 1] != 0x47 {
        None
    } else {
        Some(
            SegmentHeader {
                pts: be32(s, p + 2),
                dts: be32(s, p + 6),
                segment_type: s[p + 10],
                segment_size: be16(s, p + 11),
            },
        )
    }
}

pub open spec fn crop_at(s: Seq<u8>, p: int) -> CompositionObjectCrop {
    CompositionObjectCrop {
        horizontal_position: be16(s, p),
        vertical_position: be16(s, p + 2),
        width: be16(s, p + 4),
        height: be16(s, p + 6),
    }
}

/// A composition object: 8 bytes, or 16 where it is cropped.
pub open spec fn composition_object_at(s: Seq<u8>, p: int) -> Option<(CompositionObject, int)> {
    if p + 8 > s.len() || (s[p + 3] == 0x40 && p + 16 > s.len()) {
        None
    } else {
        Some(
            (
                CompositionObject {
                    object_id: be16(s, p),
                    window_id: s[p + 2],
                    object_cropped_flag: s[p + 3],
                    object_horizontal_position: be16(s, p + 4),
                    object_vertical_position: be16(s, p + 6),
                    cropping: if s[p + 3] == 0x40 {
                        Some(crop_at(s, p + 8))
                    } else {
                        None
                    },
                },
                if s[p + 3] == 0x40 {
                    p + 16
                } else {
                    p + 8
                },
            ),
        )
    }
}

pub open spec fn composition_object_reader(b: Seq<u8>) -> spec_fn(int) -> Option<
    (CompositionObject, int),
> {
    |p: int| composition_object_at(b, p)
}

/// The composition that a body spells.
pub open spec fn pcs_of(b: Seq<u8>) -> Option<PcsModel> {
    if b.len() < 11 {
        None
    } else {
        match list_at(composition_object_reader(b), 11, b[10] as nat) {
            None => None,
            Some((composition_objects, _)) => Some(
                PcsModel {
                    width: be16(b, 0),
                    height: be16(b, 2),
                    frame_rate: b[4],
                    composition_number: be16(b, 5),
                    composition_state: b[7],
                    palette_update_flag: b[8],
                    palette_id: b[9],
                    composition_objects,
                },
            ),
        }
    }
}

pub open spec fn window_at(s: Seq<u8>, p: int) -> Option<(Window, int)> {
    if p + 9 > s.len() {
        None
    } else {
        Some(
            (
                Window {
                    window_id: s[p],
                    horizontal_position: be16(s, p + 1),
                    vertical_position: be16(s, p + 3),
                    width: be16(s, p + 5),
                    height: be16(s, p + 7),
                },
                p + 9,
            ),
        )
    }
}

pub open spec fn window_reader(b: Seq<u8>) -> spec_fn(int) -> Option<(Window, int)> {
    |p: int| window_at(b, p)
}

/// The windows that a body spells.
pub open spec fn wds_of(b: Seq<u8>) -> Option<Seq<Window>> {
    if b.len() < 1 {
        None
    } else {
        match list_at(window_reader(b), 1, b[0] as nat) {
            None => None,
            Some((windows, _)) => Some(windows),
        }
    }
}

/// The palette entry at `p`.
pub open spec fn entry_at(s: Seq<u8>, p: int) -> PaletteEntry {
    PaletteEntry {
        palette_entry_id: s[p],
        y: s[p + 1],
        cr: s[p + 2],
        cb: s[p + 3],
        alpha: s[p + 4],
    }
}

/// The palette that a body spells: two bytes, then whole entries.
pub open spec fn pds_of(b: Seq<u8>) -> Option<PdsModel> {
    if b.len() < 2 || (b.len() - 2) % 5 != 0 {
        None
    } else {
        Some(
            PdsModel {
                palette_id: b[0],
                palette_version_number: b[1],
                entries: Seq::new(((b.len() - 2) / 5) as nat, |i: int| entry_at(b, 2 + 5 * i)),
            },
        )
    }
}

/// The fragment that a body spells. The first of an object gives the size.
pub open spec fn ods_of(b: Seq<u8>) -> Option<OdsModel> {
    if b.len() < 7 {
        None
    } else {
        let first = FragmentFlag::of_raw(b[3]).first();
        if first && b.len() < 11 {
            None
        } else {
            Some(
                OdsModel {
                    object_id: be16(b, 0),
                    object_version_number: b[2],
                    last_in_sequence_flag: b[3],
                    object_data_length: be24(b, 4),
                    width: if first {
                        Some(be16(b, 7))
                    } else {
                        None
                    },
                    height: if first {
                        Some(be16(b, 9))
                    } else {
                        None
                    },
                    object_data: b.skip(
                        if first {
                            11
                        } else {
                            7
                        },
                    ),
                },
            )
        }
    }
}

/// The body that bytes spell in a segment of a type.
pub open spec fn body_of(segment_type: u8, b: Seq<u8>) -> Option<BodyModel> {
    match SegmentType::of_raw(segment_type) {
        SegmentType::Pcs => match pcs_of(b) {
            Some(x) => Some(BodyModel::Pcs(x)),
            None => None,
        },
        SegmentType::Wds => match wds_of(b) {
            Some(x) => Some(BodyModel::Wds(x)),
            None => None,
        },
        SegmentType::Pds => match pds_of(b) {
            Some(x) => Some(BodyModel::Pds(x)),
            None => None,
        },
        SegmentType::Ods => match ods_of(b) {
            Some(x) => Some(BodyModel::Ods(x)),
            None => None,
        },
        SegmentType::End => if b.len() == 0 {
            Some(BodyModel::End)
        } else {
            None
        },
        SegmentType::Other(t) => Some(BodyModel::Other { segment_type: t, data: b }),
    }
}

/// The segment at `p`, and its end.
pub open spec fn segment_at(s: Seq<u8>, p: int) -> Option<(SegmentModel, int)> {
    match header_at(s, p) {
        None => None,
        Some(header) => {
            let end = p + 13 + header.segment_size;
            if end > s.len() {
                None
            } else {
                match body_of(header.segment_type, s.subrange(p + 13, end)) {
                    None => None,
                    Some(body) => Some((SegmentModel { header, body }, end)),
                }
            }
        },
    }
}

/// The segments from `p` to the end of the stream.
pub open spec fn segments_from(s: Seq<u8>, p: int) -> Option<Seq<SegmentModel>>
    decreases s.len() - p,
{
    if p >= s.len() {
        Some(Seq::empty())
    } else {
        match segment_at(s, p) {
            None => None,
            Some((seg, q)) => match segments_from(s, q) {
                None => None,
                Some(rest) => Some(seq![seg] + rest),
            },
        }
    }
}

// ---------------------------------------------------------------------
// What is said of bytes that spell nothing
// ---------------------------------------------------------------------

/// Said of a body that ends too early.
pub open spec fn short_body_text() -> Seq<char> {
    "PGS segment body read past end"@
}

pub open spec fn header_refusal(s: Seq<u8>) -> Seq<char> {
    if s.len() < 13 {
        "PG segment header truncated"@
    } else {
        "PG segment header bad magic"@
    }
}

pub open spec fn pds_refusal(b: Seq<u8>) -> Seq<char> {
    if b.len() < 2 {
        short_body_text()
    } else {
        "PDS body not a whole number of 5-byte palette entries"@
    }
}

/// Said of a segment at the front of `s`.
pub open spec fn segment_refusal(s: Seq<u8>) -> Seq<char> {
    match header_at(s, 0) {
        None => header_refusal(s),
        Some(header) => if 13 + header.segment_size > s.len() {
            "PG segment body truncated"@
        } else {
            match SegmentType::of_raw(header.segment_type) {
                SegmentType::Pds => pds_refusal(s.subrange(13, 13 + header.segment_size)),
                SegmentType::End => "END segment with non-zero body"@,
                _ => short_body_text(),
            }
        },
    }
}

/// Said of a stream from `p` on: what is said of its first broken segment.
pub open spec fn stream_refusal(s: Seq<u8>, p: int) -> Seq<char>
    decreases s.len() - p,
{
    if p >= s.len() {
        Seq::empty()
    } else {
        match segment_at(s, p) {
            None => segment_refusal(s.skip(p)),
            Some((_, q)) => stream_refusal(s, q),
        }
    }
}

// ---------------------------------------------------------------------
// Reading
// ---------------------------------------------------------------------

/// A cursor over the body of a segment.
struct BodyReader<'a> {
    buf: &'a [u8],
    pos: usize,
}

impl<'a> BodyReader<'a> {
    fn new(buf: &'a [u8]) -> (r: Self)
        ensures
            r.buf@ == buf@,
            r.pos == 0,
    {
        BodyReader { buf, pos: 0 }
    }

    /// The next `n` bytes.
    fn take(&mut self, n: usize) -> (x: Result<&'a [u8], BlurayError>)
        ensures
            final(self).buf@ == old(self).buf@,
            match x {
                Ok(s) => old(self).pos + n <= old(self).buf@.len() && s@
                    == old(self).buf@.subrange(old(self).pos as int, old(self).pos + n)
                    && final(self).pos == old(self).pos + n,
                Err(e) => old(self).pos + n > old(self).buf@.len() && e.is_malformed(
                    short_body_text(),
                ),
            },
    {
        if self.pos > self.buf.len() || n > self.buf.len() - self.pos {
            return Err(BlurayError::malformed("PGS segment body read past end"));
        }
        let s = vstd::slice::slice_subrange(self.buf, self.pos, self.pos + n);
        self.pos += n;
        Ok(s)
    }

    fn u8(&mut self) -> (x: Result<u8, BlurayError>)
        ensures
            final(self).buf@ == old(self).buf@,
            match x {
                Ok(v) => old(self).pos + 1 <= old(self).buf@.len() && v
                    == old(self).buf@[old(self).pos as int] && final(self).pos == old(self).pos + 1,
                Err(e) => old(self).pos + 1 > old(self).buf@.len() && e.is_malformed(
                    short_body_text(),
                ),
            },
    {
        let s = self.take(1)?;
        Ok(s[0])
    }

    fn u16(&mut self) -> (x: Result<u16, BlurayError>)
        ensures
            final(self).buf@ == old(self).buf@,
            match x {
                Ok(v) => old(self).pos + 2 <= old(self).buf@.len() && v == be16(
                    old(self).buf@,
                    old(self).pos as int,
                ) && final(self).pos == old(self).pos + 2,
                Err(e) => old(self).pos + 2 > old(self).buf@.len() && e.is_malformed(
                    short_body_text(),
                ),
            },
    {
        proof {
            reveal(be16);
        }
        let s = self.take(2)?;
        Ok(s[0] as u16 * 256 + s[1] as u16)
    }

    fn u24(&mut self) -> (x: Result<u32, BlurayError>)
        ensures
            final(self).buf@ == old(self).buf@,
            match x {
                Ok(v) => old(self).pos + 3 <= old(self).buf@.len() && v == be24(
                    old(self).buf@,
                    old(self).pos as int,
                ) && final(self).pos == old(self).pos + 3,
                Err(e) => old(self).pos + 3 > old(self).buf@.len() && e.is_malformed(
                    short_body_text(),
                ),
            },
    {
        proof {
            reveal(be24);
            reveal(be16);
        }
        let s = self.take(3)?;
        Ok(s[0] as u32 * 65536 + s[1] as u32 * 256 + s[2] as u32)
    }
}

impl SegmentHeader {
    /// Bytes of a header.
    pub const SIZE: usize = 13;

    /// Read the header at the start of `buf`.
    pub fn parse(buf: &[u8]) -> (r: Result<Self, BlurayError>)
        ensures
            match r {
                Ok(v) => header_at(buf@, 0) == Some(v),
                Err(e) => header_at(buf@, 0) is None && e.is_malformed(header_refusal(buf@)),
            },
    {
        if buf.len() < 13 {
            return Err(BlurayError::malformed("PG segment header truncated"));
        }
        if buf[0] != 0x50 || buf[1] != 0x47 {
            return Err(BlurayError::malformed("PG segment header bad magic"));
        }
        let mut r = Reader::new(buf);
        r.seek(2)?;
        let pts: u32 = r.read_u32()?;
        let dts: u32 = r.read_u32()?;
        let segment_type: u8 = r.read_u8()?;
        let segment_size: u16 = r.read_u16()?;
        Ok(SegmentHeader { pts, dts, segment_type, segment_size })
    }

    /// The kind of the segment.
    pub fn kind(&self) -> (r: SegmentType)
        ensures
            r == SegmentType::of_raw(self.segment_type),
    {
        SegmentType::from_raw(self.segment_type)
    }
}

fn parse_composition_object(r: &mut BodyReader<'_>) -> (x: Result<CompositionObject, BlurayError>)
    ensures
        final(r).buf@ == old(r).buf@,
        match x {
            Ok(v) => composition_object_at(old(r).buf@, old(r).pos as int) == Some(
                (v, final(r).pos as int),
            ),
            Err(e) => composition_object_at(old(r).buf@, old(r).pos as int) is None
                && e.is_malformed(short_body_text()),
        },
{
    let object_id: u16 = r.u16()?;
    let window_id: u8 = r.u8()?;
    let object_cropped_flag: u8 = r.u8()?;
    let object_horizontal_position: u16 = r.u16()?;
    let object_vertical_position: u16 = r.u16()?;
    let cropping = if object_cropped_flag == CompositionObject::CROPPED_FLAG {
        let horizontal_position: u16 = r.u16()?;
        let vertical_position: u16 = r.u16()?;
        let width: u16 = r.u16()?;
        let height: u16 = r.u16()?;
        Some(CompositionObjectCrop { horizontal_position, vertical_position, width, height })
    } else {
        None
    };
    Ok(
        CompositionObject {
            object_id,
            window_id,
            object_cropped_flag,
            object_horizontal_position,
            object_vertical_position,
            cropping,
        },
    )
}

impl Pcs {
    /// The flag of a composition that changes only the palette.
    pub const PALETTE_UPDATE: u8 = 0x80;

    /// How the display set relates to the one before it.
    pub fn state(&self) -> (r: CompositionState)
        ensures
            r == CompositionState::of_raw(self.composition_state),
    {
        CompositionState::from_raw(self.composition_state)
    }

    /// Whether only the palette changes.
    pub fn is_palette_update(&self) -> (r: bool)
        ensures
            r == (self.palette_update_flag == 0x80),
    {
        self.palette_update_flag == Self::PALETTE_UPDATE
    }

    /// Read the body of a composition.
    #[verifier::loop_isolation(false)]
    pub fn parse(body: &[u8]) -> (x: Result<Self, BlurayError>)
        ensures
            match x {
                Ok(v) => pcs_of(body@) == Some(v@),
                Err(e) => pcs_of(body@) is None && e.is_malformed(short_body_text()),
            },
    {
        proof {
            reveal(list_at);
        }
        let mut r = BodyReader::new(body);
        let width: u16 = r.u16()?;
        let height: u16 = r.u16()?;
        let frame_rate: u8 = r.u8()?;
        let composition_number: u16 = r.u16()?;
        let composition_state: u8 = r.u8()?;
        let palette_update_flag: u8 = r.u8()?;
        let palette_id: u8 = r.u8()?;
        let n: u8 = r.u8()?;
        let ghost item = composition_object_reader(body@);
        let mut composition_objects: Vec<CompositionObject> = Vec::new();
        let mut i: u8 = 0;
        while i < n
            invariant
                i <= n,
                r.buf@ == body@,
                list_at(item, 11, i as nat) == Some((composition_objects@, r.pos as int)),
            decreases n - i,
        {
            match parse_composition_object(&mut r) {
                Ok(v) => {
                    composition_objects.push(v);
                },
                Err(e) => {
                    proof {
                        lemma_list_at_none(item, 11, (i + 1) as nat, n as nat);
                    }
                    return Err(e);
                },
            }
            i += 1;
        }
        Ok(
            Pcs {
                width,
                height,
                frame_rate,
                composition_number,
                composition_state,
                palette_update_flag,
                palette_id,
                composition_objects,
            },
        )
    }
}

fn parse_window(r: &mut BodyReader<'_>) -> (x: Result<Window, BlurayError>)
    ensures
        final(r).buf@ == old(r).buf@,
        match x {
            Ok(v) => window_at(old(r).buf@, old(r).pos as int) == Some((v, final(r).pos as int)),
            Err(e) => window_at(old(r).buf@, old(r).pos as int) is None && e.is_malformed(
                short_body_text(),
            ),
        },
{
    let window_id: u8 = r.u8()?;
    let horizontal_position: u16 = r.u16()?;
    let vertical_position: u16 = r.u16()?;
    let width: u16 = r.u16()?;
    let height: u16 = r.u16()?;
    Ok(Window { window_id, horizontal_position, vertical_position, width, height })
}

impl Wds {
    /// Read the body of a window definition.
    #[verifier::loop_isolation(false)]
    pub fn parse(body: &[u8]) -> (x: Result<Self, BlurayError>)
        ensures
            match x {
                Ok(v) => wds_of(body@) == Some(v@),
                Err(e) => wds_of(body@) is None && e.is_malformed(short_body_text()),
            },
    {
        proof {
            reveal(list_at);
        }
        let mut r = BodyReader::new(body);
        let n: u8 = r.u8()?;
        let ghost item = window_reader(body@);
        let mut windows: Vec<Window> = Vec::new();
        let mut i: u8 = 0;
        while i < n
            invariant
                i <= n,
                r.buf@ == body@,
                list_at(item, 1, i as nat) == Some((windows@, r.pos as int)),
            decreases n - i,
        {
            match parse_window(&mut r) {
                Ok(v) => {
                    windows.push(v);
                },
                Err(e) => {
                    proof {
                        lemma_list_at_none(item, 1, (i + 1) as nat, n as nat);
                    }
                    return Err(e);
                },
            }
            i += 1;
        }
        Ok(Wds { windows })
    }
}

impl Pds {
    /// Read the body of a palette definition.
    pub fn parse(body: &[u8]) -> (x: Result<Self, BlurayError>)
        ensures
            match x {
                Ok(v) => pds_of(body@) == Some(v@),
                Err(e) => pds_of(body@) is None && e.is_malformed(pds_refusal(body@)),
            },
    {
        if body.len() < 2 {
            return Err(BlurayError::malformed("PGS segment body read past end"));
        }
        if (body.len() - 2) % 5 != 0 {
            return Err(
                BlurayError::malformed("PDS body not a whole number of 5-byte palette entries"),
            );
        }
        let total: usize = body.len();
        let n: usize = (total - 2) / 5;
        let mut entries: Vec<PaletteEntry> = Vec::new();
        let mut i: usize = 0;
        while i < n
            invariant
                i <= n,
                2 + 5 * n == total,
                total == body@.len(),
                entries@.len() == i,
                forall|k: int| 0 <= k < i ==> entries@[k] == #[trigger] entry_at(body@, 2 + 5 * k),
            decreases n - i,
        {
            let p: usize = 2 + 5 * i;
            entries.push(
                PaletteEntry {
                    palette_entry_id: body[p],
                    y: body[p + 1],
                    cr: body[p + 2],
                    cb: body[p + 3],
                    alpha: body[p + 4],
                },
            );
            i += 1;
        }
        let r = Pds { palette_id: body[0], palette_version_number: body[1], entries };
        proof {
            assert(r.entries@ =~= pds_of(body@)->0.entries);
        }
        Ok(r)
    }
}

impl Ods {
    /// Which part of an object this is.
    pub fn fragment(&self) -> (r: FragmentFlag)
        ensures
            r == self@.flag(),
    {
        FragmentFlag::from_raw(self.last_in_sequence_flag)
    }

    /// The run-length coded bytes.
    pub fn rle_data(&self) -> (r: &[u8])
        ensures
            r@ == self.object_data@,
    {
        self.object_data.as_slice()
    }

    /// Read the body of an object definition.
    pub fn parse(body: &[u8]) -> (x: Result<Self, BlurayError>)
        ensures
            match x {
                Ok(v) => ods_of(body@) == Some(v@),
                Err(e) => ods_of(body@) is None && e.is_malformed(short_body_text()),
            },
    {
        let mut r = BodyReader::new(body);
        let object_id: u16 = r.u16()?;
        let object_version_number: u8 = r.u8()?;
        let last_in_sequence_flag: u8 = r.u8()?;
        let object_data_length: u32 = r.u24()?;
        let flag = FragmentFlag::from_raw(last_in_sequence_flag);
        let (width, height) = if flag.is_first() {
            let w: u16 = r.u16()?;
            let h: u16 = r.u16()?;
            (Some(w), Some(h))
        } else {
            (None, None)
        };
        let object_data = vstd::slice::slice_to_vec(
            vstd::slice::slice_subrange(body, r.pos, body.len()),
        );
        Ok(
            Ods {
                object_id,
                object_version_number,
                last_in_sequence_flag,
                object_data_length,
                width,
                height,
                object_data,
            },
        )
    }
}

impl Segment {
    /// Read the segment at the start of `buf`; also give the number of bytes
    /// that it takes.
    pub fn parse(buf: &[u8]) -> (r: Result<(Self, usize), BlurayError>)
        ensures
            match r {
                Ok((v, used)) => segment_at(buf@, 0) == Some((v@, used as int)),
                Err(e) => segment_at(buf@, 0) is None && e.is_malformed(segment_refusal(buf@)),
            },
    {
        let header = SegmentHeader::parse(buf)?;
        let body_len: usize = header.segment_size as usize;
        let total: usize = 13 + body_len;
        if buf.len() < total {
            return Err(BlurayError::malformed("PG segment body truncated"));
        }
        let bytes = vstd::slice::slice_subrange(buf, 13, total);
        let body = match header.kind() {
            SegmentType::Pcs => SegmentBody::Pcs(Pcs::parse(bytes)?),
            SegmentType::Wds => SegmentBody::Wds(Wds::parse(bytes)?),
            SegmentType::Pds => SegmentBody::Pds(Pds::parse(bytes)?),
            SegmentType::Ods => SegmentBody::Ods(Ods::parse(bytes)?),
            SegmentType::End => {
                if body_len != 0 {
                    return Err(BlurayError::malformed("END segment with non-zero body"));
                }
                SegmentBody::End
            },
            SegmentType::Other(segment_type) => SegmentBody::Other {
                segment_type,
                data: vstd::slice::slice_to_vec(bytes),
            },
        };
        Ok((Segment { header, body }, total))
    }
}

/// A segment does not depend on what stands before or behind it.
proof fn lemma_segment_shift(s: Seq<u8>, p: int)
    requires
        0 <= p <= s.len(),
    ensures
        segment_at(s.skip(p), 0) == (match segment_at(s, p) {
            None => None,
            Some((seg, end)) => Some((seg, end - p)),
        }),
{
    let t = s.skip(p);
    if p + 13 <= s.len() {
        assert forall|i: int| 0 <= i < 13 implies #[trigger] t[i] == s[p + i] by {}
        reveal(be16);
        reveal(be32);
        assert(header_at(t, 0) == header_at(s, p));
        if let Some(h) = header_at(s, p) {
            let end = p + 13 + h.segment_size;
            if end <= s.len() {
                assert(t.subrange(13, 13 + h.segment_size) =~= s.subrange(p + 13, end));
            }
        }
    }
}

/// Read a whole stream of segments.
pub fn parse_segments(buf: &[u8]) -> (r: Result<Vec<Segment>, BlurayError>)
    ensures
        match r {
            Ok(v) => segments_from(buf@, 0) == Some(segment_models(v@)),
            Err(e) => segments_from(buf@, 0) is None && e.is_malformed(stream_refusal(buf@, 0)),
        },
{
    let mut segments: Vec<Segment> = Vec::new();
    let mut pos: usize = 0;
    proof {
        assert(segment_models(segments@) =~= Seq::empty());
        if let Some(all) = segments_from(buf@, 0) {
            assert(Seq::<SegmentModel>::empty() + all =~= all);
        }
    }
    while pos < buf.len()
        invariant
            pos <= buf@.len(),
            stream_refusal(buf@, 0) == stream_refusal(buf@, pos as int),
            segments_from(buf@, 0) == (match segments_from(buf@, pos as int) {
                None => None,
                Some(rest) => Some(segment_models(segments@) + rest),
            }),
        decreases buf@.len() - pos,
    {
        proof {
            lemma_segment_shift(buf@, pos as int);
        }
        let rest = vstd::slice::slice_subrange(buf, pos, buf.len());
        assert(rest@ =~= buf@.skip(pos as int));
        let (seg, used) = Segment::parse(rest)?;
        let ghost before = segment_models(segments@);
        let ghost tail = segments_from(buf@, pos + used);
        segments.push(seg);
        proof {
            assert(segment_models(segments@) =~= before.push(seg@));
            if let Some(t) = tail {
                assert(before + (seq![seg@] + t) =~= before.push(seg@) + t);
            }
        }
        pos += used;
    }
    assert(segment_models(segments@) + Seq::<SegmentModel>::empty() =~= segment_models(segments@));
    Ok(segments)
}

/// A model holds what the fields hold.
pub proof fn lemma_models_hold_fields(pcs: Pcs, pds: Pds, ods: Ods, segment: Segment)
    ensures
        pcs@.width == pcs.width,
        pcs@.height == pcs.height,
        pcs@.frame_rate == pcs.frame_rate,
        pcs@.composition_number == pcs.composition_number,
        pcs@.composition_state == pcs.composition_state,
        pcs@.palette_update_flag == pcs.palette_update_flag,
        pcs@.palette_id == pcs.palette_id,
        pcs@.composition_objects == pcs.composition_objects@,
        pds@.palette_id == pds.palette_id,
        pds@.palette_version_number == pds.palette_version_number,
        pds@.entries == pds.entries@,
        ods@.object_id == ods.object_id,
        ods@.object_version_number == ods.object_version_number,
        ods@.last_in_sequence_flag == ods.last_in_sequence_flag,
        ods@.object_data_length == ods.object_data_length,
        ods@.width == ods.width,
        ods@.height == ods.height,
        ods@.object_data == ods.object_data@,
        segment@.header == segment.header,
        segment@.body == segment.body@,
{
}

/// Models stand in the order of what they model.
pub proof fn lemma_models_in_order(segments: Seq<Segment>, i: int)
    ensures
        segment_models(segments).len() == segments.len(),
        0 <= i < segments.len() ==> segment_models(segments)[i] == segments[i]@,
{
}

/// The codes of segments, of compositions and of fragments.
pub proof fn lemma_segment_codes(v: u8)
    ensures
        SegmentType::of_raw(v) is Pds <==> v == 20,
        SegmentType::of_raw(v) is Ods <==> v == 21,
        SegmentType::of_raw(v) is Pcs <==> v == 22,
        SegmentType::of_raw(v) is Wds <==> v == 23,
        SegmentType::of_raw(v) is End <==> v == 128,
        SegmentType::of_raw(v) matches SegmentType::Other(x) ==> x == v,
        CompositionState::of_raw(v) is Normal <==> v == 0,
        CompositionState::of_raw(v) is AcquisitionPoint <==> v == 64,
        CompositionState::of_raw(v) is EpochStart <==> v == 128,
        CompositionState::of_raw(v).raw() == v,
        FragmentFlag::of_raw(v).first() <==> v == 128 || v == 128 + 64,
        FragmentFlag::of_raw(v).last() <==> v == 64 || v == 128 + 64,
        FragmentFlag::of_raw(v).raw() == v,
{
}

} // verus!
