//! Keys of protected discs: finding them, checking them, decrypting with them.
//!
//! - [`keys`] holds the key material and the cryptography behind it,
//!   [`key_block`] says which media key blocks can be parsed;
//! - [`key_line`] reads and writes lines of the key file, [`key_text`] says
//!   which texts can be read, [`cache`] finds lines and adds to the cache;
//! - [`places`] says where the key file and the cache may lie;
//! - [`cascade`] looks for a key: first what the user supplied, then the key
//!   file, the local cache, and last the disc itself;
//! - [`decryptor`] applies keys to a disc, tries them out, and decrypts;
//! - [`resolve`] does all of it at once;
//! - [`key_laws`] proves which key a disc gets, and where it is looked for.

pub mod cache;
pub mod cascade;
pub mod decryptor;
pub mod key_block;
pub mod key_laws;
pub mod key_line;
pub mod key_text;
pub mod keys;
pub mod places;
pub mod resolve;

pub use crate::aacs_adapter::decryptor::AacsDecryptor;
pub use crate::aacs_adapter::resolve::{try_resolve_aacs, KeyPlaces};
pub use crate::decrypt::AACS_UNIT_LEN;
