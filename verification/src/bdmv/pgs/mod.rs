//! Presentation graphics: the bitmap subtitles of a disc.
//!
//! A stream is a row of segments. Five kinds of segment make up a *display
//! set*: a composition (PCS), at most one list of windows (WDS), palettes
//! (PDS), run-length coded bitmaps (ODS), and an end mark (END).
//!
//! - [`segment`] and [`segment_write`] read and write segments;
//! - [`rle`] decodes bitmaps;
//! - [`display_set`] groups segments and joins fragmented bitmaps;
//! - [`render`] looks up colours and composes the picture;
//! - [`layout`] proves byte by byte what the segments say, [`picture`] what is
//!   seen, [`refusal_laws`] what is said of a broken stream.

pub mod display_set;
pub mod layout;
pub mod picture;
pub mod refusal_laws;
pub mod render;
pub mod rle;
pub mod segment;
pub mod segment_write;

pub use crate::bdmv::pgs::display_set::{
    group_display_sets, parse_display_sets, DisplaySet, ReassembledObject,
};
pub use crate::bdmv::pgs::render::{
    ycbcr709_to_rgb, Palette, RenderedDisplaySet, Rgba8, RgbaImage,
};
pub use crate::bdmv::pgs::rle::{decode_rle, DecodedObject};
pub use crate::bdmv::pgs::segment::{
    parse_segments, CompositionObject, CompositionObjectCrop, CompositionState, FragmentFlag, Ods,
    PaletteEntry, Pcs, Pds, Segment, SegmentBody, SegmentHeader, SegmentType, Wds, Window,
};
