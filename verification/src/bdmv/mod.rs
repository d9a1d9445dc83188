//! The files below `BDMV`, and what they make a player do.
//!
//! - [`index_bdmv`], [`movie_object`], [`mpls`] and [`clpi`] are the files:
//!   the titles of a disc, its navigation commands, its playlists (read and
//!   written by [`mpls_read`] and [`mpls_write`]) and its clips.
//! - [`stream`] and [`uo_mask`] are codes that occur in playlists, and
//!   [`chapters`] is what their marks amount to.
//! - [`nav_command`] decodes commands and [`register_model`] names the
//!   registers that they work on. [`vm`] runs one list of commands,
//!   [`mobj_runner`] a table of lists, [`nav_driver`] the titles of a disc.
//! - [`pgs`] is presentation graphics.
//! - [`common`] and [`bits`] read and write bytes and bits.
//! - [`layout`], [`mpls_layout`] and [`clpi_layout`] prove byte by byte what the
//!   files say, [`write_laws`] where the parts of a written file lie, [`vm_laws`]
//!   and [`drive_laws`] what commands, objects and titles do, [`refusal_laws`]
//!   what is said of a broken file.

pub mod bits;
pub mod chapters;
pub mod clpi;
pub mod clpi_layout;
pub mod common;
pub mod drive_laws;
pub mod index_bdmv;
pub mod layout;
pub mod mpls;
pub mod mpls_layout;
pub mod mpls_read;
pub mod mpls_write;
pub mod mobj_runner;
pub mod movie_object;
pub mod nav_command;
pub mod nav_driver;
pub mod pgs;
pub mod refusal_laws;
pub mod register_model;
pub mod stream;
pub mod uo_mask;
pub mod vm;
pub mod vm_laws;
pub mod write_laws;

pub use crate::bdmv::common::{BdmvHeader, Reader};
