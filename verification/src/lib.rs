//! Blu-ray discs: their metadata, their navigation, their graphics and their
//! keys, with proofs.
//!
//! - [`bdmv`] reads and writes the files below `BDMV`: the index, the movie
//!   objects, the playlists and the clip information. It also runs the
//!   navigation commands and draws presentation graphics.
//! - [`disc`] puts those files together: titles, tracks, chapters, angles, and
//!   the transport stream that a title plays as.
//! - [`aacs_adapter`] finds the keys of protected discs; [`decrypt`] is the
//!   interface of a decryptor and [`drive`] the volume identifier.
//! - [`error`], [`m2ts`], [`date`], [`order`], [`scan`], [`sorting`] and
//!   [`text`] are shared by the others; [`text_laws`] proves what digits, white
//!   space and dates stand for.
//!
//! The library reads no files: what lies on the disc, in the environment or on
//! the clock is handed to it.

pub mod aacs_adapter;
pub mod bdmv;
pub mod date;
pub mod decrypt;
pub mod disc;
pub mod drive;
pub mod error;
pub mod m2ts;
pub mod order;
pub mod scan;
pub mod sorting;
pub mod text;
pub mod text_laws;

pub use crate::bdmv::mpls::{Chapter, ChapterSpan, PlayListMpls, SubPath};
pub use crate::decrypt::{DecryptError, Identity, StreamDecryptor, AACS_UNIT_LEN};
pub use crate::disc::{
    AngleChangePoint, ChapterSegment, ChapterSegments, ChapterSelector, Disc, DiscTitleMeta,
    PtsContinuitySegment, TitleInfo, TitleKind, TitleSource, Track, TrackCatalogue, TrackKind,
};
pub use crate::error::BlurayError;
