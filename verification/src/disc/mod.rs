//! The disc as a whole: its titles, their tracks and chapters, and the
//! transport stream that a title plays as.
//!
//! - [`titles`] mounts a disc and chooses among its titles;
//! - [`listing`] says what a title's playlist says of it;
//! - [`tracks`] lists elementary streams and languages;
//! - [`clips`] puts the clips of a title in line, [`timeline`] and [`angles`]
//!   read segments and angle changes off them, [`seeking`] finds entry points;
//! - [`source`] keeps the place in a title's stream, and [`playback`] says
//!   what that stream is;
//! - [`chapter_segments`] cuts a title into chapters;
//! - [`meta`] finds the title of the disc as a whole;
//! - [`title_laws`] proves what the files of a disc mean for its titles.

pub mod angles;
pub mod chapter_segments;
pub mod clips;
pub mod listing;
pub mod meta;
pub mod playback;
pub mod seeking;
pub mod source;
pub mod timeline;
pub mod title_laws;
pub mod titles;
pub mod tracks;

pub use crate::disc::angles::AngleChangePoint;
pub use crate::disc::chapter_segments::{
    ChapterRequest, ChapterSegment, ChapterSegments, ChapterSelector,
};
pub use crate::disc::clips::{title_bytes, ClipFiles, ClipSeekInfo, EntryPoint};
pub use crate::disc::meta::{extract_di_name, is_meta_file, DiscTitleMeta, MetaFile};
pub use crate::disc::seeking::SeekPlan;
pub use crate::disc::source::{ReadStep, SeekOrigin, SeekStep, TitleSource, UnitStep};
pub use crate::disc::timeline::PtsContinuitySegment;
pub use crate::disc::titles::{playlist_file_name, title_playlists, Disc, TitleInfo, TitleKind};
pub use crate::disc::tracks::{
    build_track_catalogue, class_order, collect_languages, decode_lang_code, Track, TrackCatalogue,
    TrackKind,
};
