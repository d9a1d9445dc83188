//! The search for a volume key.
//!
//! Four places are tried in turn: values that the user supplied, the key file,
//! the local cache, and the disc itself, opened with a device key. The first
//! that yields a key ends the search. Reading the places is up to the caller,
//! who asks [`cascade_step`] what to do next.
use vstd::prelude::*;
use vstd::string::*;

use crate::aacs_adapter::key_block::{check_counts, counts_fit};
use crate::aacs_adapter::key_line::{
    entry_model, line_model, parse_hex16_env, parse_single_keydb_line, record_row, record_rows,
    DeviceKeyRow, EntryModel, KeyDbEntry,
};
use crate::aacs_adapter::keys::{
    aes_g, device_key_from_record, device_key_opens, device_volume_key, volume_key,
    DeviceKeyRecord,
};
use crate::bdmv::common::be32;
use crate::scan::{hex16_bytes, is_hex16, trim, without_0x};

verus! {

/// Where a key was found.
#[derive(Debug, Clone, Copy, PartialEq, Eq, Structural)]
pub enum ResolvedSource {
    /// The user supplied it.
    EnvOverride,
    /// The key file.
    Keydb,
    /// The local cache.
    Cache,
    /// The disc and a device key.
    Online,
}

impl ResolvedSource {
    pub open spec fn name(self) -> Seq<char> {
        match self {
            ResolvedSource::EnvOverride => "env-var override"@,
            ResolvedSource::Keydb => "KEYDB.cfg"@,
            ResolvedSource::Cache => "local VUK cache"@,
            ResolvedSource::Online => "online derivation"@,
        }
    }

    /// The place in words.
    pub fn label(self) -> (r: &'static str)
        ensures
            r@ == self.name(),
    {
        match self {
            ResolvedSource::EnvOverride => "env-var override",
            ResolvedSource::Keydb => "KEYDB.cfg",
            ResolvedSource::Cache => "local VUK cache",
            ResolvedSource::Online => "online derivation",
        }
    }
}

/// A key and where it was found.
#[derive(Debug, Clone, PartialEq, Eq)]
pub struct ResolvedEntry {
    pub entry: KeyDbEntry,
    pub source: ResolvedSource,
}

// ---------------------------------------------------------------------
// Values that the user supplied
// ---------------------------------------------------------------------

/// The 16 bytes of a supplied value, if it is well formed.
pub open spec fn supplied(value: Seq<char>) -> Option<Seq<u8>> {
    let digits = without_0x(trim(value));
    if is_hex16(digits) {
        Some(hex16_bytes(digits))
    } else {
        None
    }
}

/// Values that the user supplied: a volume key, a media key, a volume
/// identifier.
#[derive(Debug, Clone, PartialEq, Eq)]
pub struct EnvValues {
    pub vuk: Option<String>,
    pub media_key: Option<String>,
    pub volume_id: Option<String>,
}

/// Whether the drive has to be asked for the volume identifier: there is a
/// well-formed media key, and neither a volume key nor an identifier.
pub open spec fn drive_needed(v: EnvValues) -> bool {
    v.vuk is None && v.volume_id is None && (v.media_key matches Some(k) && supplied(k@) is Some)
}

/// The entry that supplied values make up. A volume key counts by itself; a
/// media key needs an identifier, from the user or else from the drive. A
/// value that is not well formed ends the matter.
pub open spec fn env_entry(disc_id: Seq<u8>, v: EnvValues, drive_id: Option<Seq<u8>>) -> Option<
    EntryModel,
> {
    match v.vuk {
        Some(k) => match supplied(k@) {
            Some(vuk) => Some(
                EntryModel {
                    disc_id,
                    vuk,
                    label: Some("OXIDEAV_AACS_VUK env override"@),
                    unit_keys: Seq::empty(),
                },
            ),
            None => None,
        },
        None => match v.media_key {
            Some(k) => {
                let id = match v.volume_id {
                    Some(i) => supplied(i@),
                    None => drive_id,
                };
                match (supplied(k@), id) {
                    (Some(km), Some(id)) => Some(
                        EntryModel {
                            disc_id,
                            vuk: aes_g(km, id),
                            label: Some("OXIDEAV_AACS_MEDIA_KEY env override"@),
                            unit_keys: Seq::empty(),
                        },
                    ),
                    _ => None,
                }
            },
            None => None,
        },
    }
}

pub open spec fn bytes_model(id: Option<[u8; 16]>) -> Option<Seq<u8>> {
    match id {
        Some(x) => Some(x@),
        None => None,
    }
}

/// Whether the drive has to be asked before [`entry_from_env`] is called.
pub fn env_needs_drive(v: &EnvValues) -> (r: bool)
    ensures
        r == drive_needed(*v),
{
    match (&v.vuk, &v.media_key, &v.volume_id) {
        (None, Some(k), None) => parse_hex16_env(k.as_str()).is_some(),
        _ => false,
    }
}

/// The entry that supplied values make up; `drive_id` is the identifier that
/// the drive gave, where it was asked.
pub fn entry_from_env(disc_id: &[u8; 20], v: &EnvValues, drive_id: Option<[u8; 16]>) -> (r: Option<
    KeyDbEntry,
>)
    ensures
        entry_model(r) == env_entry(disc_id@, *v, bytes_model(drive_id)),
{
    if let Some(k) = &v.vuk {
        return match parse_hex16_env(k.as_str()) {
            Some(vuk) => {
                let unit_keys: Vec<(u16, [u8; 16])> = Vec::new();
                Some(
                    KeyDbEntry {
                        disc_id: *disc_id,
                        vuk,
                        label: Some("OXIDEAV_AACS_VUK env override".to_owned()),
                        unit_keys,
                    },
                )
            },
            None => None,
        };
    }
    if let Some(k) = &v.media_key {
        let km: [u8; 16] = match parse_hex16_env(k.as_str()) {
            Some(km) => km,
            None => return None,
        };
        let id: [u8; 16] = match &v.volume_id {
            Some(i) => match parse_hex16_env(i.as_str()) {
                Some(id) => id,
                None => return None,
            },
            None => match drive_id {
                Some(id) => id,
                None => return None,
            },
        };
        let unit_keys: Vec<(u16, [u8; 16])> = Vec::new();
        return Some(
            KeyDbEntry {
                disc_id: *disc_id,
                vuk: volume_key(&km, &id),
                label: Some("OXIDEAV_AACS_MEDIA_KEY env override".to_owned()),
                unit_keys,
            },
        );
    }
    None
}

// ---------------------------------------------------------------------
// The disc itself
// ---------------------------------------------------------------------

/// What a device key of the key file opens.
pub open spec fn row_opens(mkb: Seq<u8>, row: DeviceKeyRow, volume_id: Seq<u8>) -> Option<Seq<u8>> {
    let uv = be32(row.2, 0);
    device_volume_key(mkb, row.0, uv, row.3, uv.trailing_zeros() as u8, volume_id)
}

/// What the first device key from `i` on opens that opens anything.
pub open spec fn first_opened(
    mkb: Seq<u8>,
    rows: Seq<DeviceKeyRow>,
    volume_id: Seq<u8>,
    i: int,
) -> Option<Seq<u8>>
    decreases rows.len() - i,
{
    if i >= rows.len() {
        None
    } else {
        match row_opens(mkb, rows[i], volume_id) {
            Some(vuk) => Some(vuk),
            None => first_opened(mkb, rows, volume_id, i + 1),
        }
    }
}

/// The volume key that device keys open with a media key block: none where the
/// block holds a count that is too large.
pub open spec fn opened_with(mkb: Seq<u8>, rows: Seq<DeviceKeyRow>, volume_id: Seq<u8>) -> Option<
    Seq<u8>,
> {
    if counts_fit(mkb) {
        first_opened(mkb, rows, volume_id, 0)
    } else {
        None
    }
}

/// The volume key that the first fitting device key opens.
pub fn try_online_vuk(mkb: &[u8], records: &Vec<DeviceKeyRecord>, volume_id: &[u8; 16]) -> (r:
    Option<[u8; 16]>)
    ensures
        bytes_model(r) == opened_with(mkb@, record_rows(records@), volume_id@),
{
    if !check_counts(mkb) {
        return None;
    }
    let ghost rows = record_rows(records@);
    let mut i: usize = 0;
    while i < records.len()
        invariant
            i <= records@.len(),
            counts_fit(mkb@),
            rows == record_rows(records@),
            first_opened(mkb@, rows, volume_id@, 0) == first_opened(
                mkb@,
                rows,
                volume_id@,
                i as int,
            ),
        decreases records@.len() - i,
    {
        assert(rows[i as int] == record_row(records@[i as int]));
        if let Some(dk) = device_key_from_record(&records[i]) {
            if let Some(vuk) = device_key_opens(mkb, &dk, volume_id) {
                return Some(vuk);
            }
        }
        i += 1;
    }
    None
}

// ---------------------------------------------------------------------
// The order of the places
// ---------------------------------------------------------------------

/// What a place yielded.
#[derive(Debug, Clone, PartialEq, Eq)]
pub enum CascadeEvent {
    /// The entry that supplied values make up.
    Env(Option<KeyDbEntry>),
    /// The line of the key file that names the disc.
    Keydb(Option<String>),
    /// The line of the cache that names the disc.
    Cache(Option<String>),
    /// The key that a device key opened.
    Online(Option<[u8; 16]>),
}

/// What to do next.
#[derive(Debug, Clone, PartialEq, Eq)]
pub enum CascadeAction {
    /// Read this place.
    Try(ResolvedSource),
    /// The search is over.
    Found(ResolvedEntry),
    /// No place has a key.
    Exhausted,
}

/// The entry of a line, if there is one and it is well formed.
pub open spec fn line_entry(line: Option<String>) -> Option<EntryModel> {
    match line {
        Some(l) => line_model(l@),
        None => None,
    }
}

/// The entry of a key that the disc gave.
pub open spec fn online_entry(disc_id: Seq<u8>, vuk: Option<Seq<u8>>) -> Option<EntryModel> {
    match vuk {
        Some(k) => Some(
            EntryModel {
                disc_id,
                vuk: k,
                label: Some("online-derived"@),
                unit_keys: Seq::empty(),
            },
        ),
        None => None,
    }
}

/// The place that an event is about, and the entry that it yielded.
pub open spec fn event_entry(disc_id: Seq<u8>, event: CascadeEvent) -> (
    ResolvedSource,
    Option<EntryModel>,
) {
    match event {
        CascadeEvent::Env(e) => (ResolvedSource::EnvOverride, entry_model(e)),
        CascadeEvent::Keydb(line) => (ResolvedSource::Keydb, line_entry(line)),
        CascadeEvent::Cache(line) => (ResolvedSource::Cache, line_entry(line)),
        CascadeEvent::Online(vuk) => (
            ResolvedSource::Online,
            online_entry(disc_id, bytes_model(vuk)),
        ),
    }
}

/// The place after a place.
pub open spec fn next_source(source: ResolvedSource) -> Option<ResolvedSource> {
    match source {
        ResolvedSource::EnvOverride => Some(ResolvedSource::Keydb),
        ResolvedSource::Keydb => Some(ResolvedSource::Cache),
        ResolvedSource::Cache => Some(ResolvedSource::Online),
        ResolvedSource::Online => None,
    }
}

/// Whether an action follows from an event: an entry ends the search, without
/// one the next place is due.
pub open spec fn follows(disc_id: Seq<u8>, event: CascadeEvent, action: CascadeAction) -> bool {
    let (source, entry) = event_entry(disc_id, event);
    match (entry, next_source(source)) {
        (Some(e), _) => action matches CascadeAction::Found(x) && x.entry@ == e && x.source
            == source,
        (None, Some(next)) => action == CascadeAction::Try(next),
        (None, None) => action is Exhausted,
    }
}

fn entry_of_line(line: Option<String>) -> (r: Option<KeyDbEntry>)
    ensures
        entry_model(r) == line_entry(line),
{
    match line {
        Some(l) => parse_single_keydb_line(l.as_str()),
        None => None,
    }
}

/// What to do after a place has been read.
pub fn cascade_step(disc_id: &[u8; 20], event: CascadeEvent) -> (action: CascadeAction)
    ensures
        follows(disc_id@, event, action),
{
    let (source, entry) = match event {
        CascadeEvent::Env(e) => (ResolvedSource::EnvOverride, e),
        CascadeEvent::Keydb(line) => (ResolvedSource::Keydb, entry_of_line(line)),
        CascadeEvent::Cache(line) => (ResolvedSource::Cache, entry_of_line(line)),
        CascadeEvent::Online(vuk) => (
            ResolvedSource::Online,
            match vuk {
                Some(vuk) => {
                    let unit_keys: Vec<(u16, [u8; 16])> = Vec::new();
                    Some(
                        KeyDbEntry {
                            disc_id: *disc_id,
                            vuk,
                            label: Some("online-derived".to_owned()),
                            unit_keys,
                        },
                    )
                },
                None => None,
            },
        ),
    };
    match entry {
        Some(entry) => CascadeAction::Found(ResolvedEntry { entry, source }),
        None => match source {
            ResolvedSource::EnvOverride => CascadeAction::Try(ResolvedSource::Keydb),
            ResolvedSource::Keydb => CascadeAction::Try(ResolvedSource::Cache),
            ResolvedSource::Cache => CascadeAction::Try(ResolvedSource::Online),
            ResolvedSource::Online => CascadeAction::Exhausted,
        },
    }
}

/// The whole search at once, where all four places have been read already:
/// the first that yields an entry counts.
pub open spec fn search(
    disc_id: Seq<u8>,
    env: Option<EntryModel>,
    keydb_line: Option<String>,
    cache_line: Option<String>,
    online: Option<Seq<u8>>,
) -> Option<(EntryModel, ResolvedSource)> {
    match (env, line_entry(keydb_line), line_entry(cache_line), online_entry(disc_id, online)) {
        (Some(e), _, _, _) => Some((e, ResolvedSource::EnvOverride)),
        (None, Some(e), _, _) => Some((e, ResolvedSource::Keydb)),
        (None, None, Some(e), _) => Some((e, ResolvedSource::Cache)),
        (None, None, None, Some(e)) => Some((e, ResolvedSource::Online)),
        (None, None, None, None) => None,
    }
}

pub open spec fn found_model(r: Option<ResolvedEntry>) -> Option<(EntryModel, ResolvedSource)> {
    match r {
        Some(x) => Some((x.entry@, x.source)),
        None => None,
    }
}

/// The whole search, where all four places have been read already.
pub fn resolve_aacs_entry(
    disc_id: &[u8; 20],
    env: Option<KeyDbEntry>,
    keydb_line: Option<String>,
    cache_line: Option<String>,
    online: Option<[u8; 16]>,
) -> (r: Option<ResolvedEntry>)
    ensures
        found_model(r) == search(
            disc_id@,
            entry_model(env),
            keydb_line,
            cache_line,
            bytes_model(online),
        ),
{
    if let CascadeAction::Found(x) = cascade_step(disc_id, CascadeEvent::Env(env)) {
        return Some(x);
    }
    if let CascadeAction::Found(x) = cascade_step(disc_id, CascadeEvent::Keydb(keydb_line)) {
        return Some(x);
    }
    if let CascadeAction::Found(x) = cascade_step(disc_id, CascadeEvent::Cache(cache_line)) {
        return Some(x);
    }
    if let CascadeAction::Found(x) = cascade_step(disc_id, CascadeEvent::Online(online)) {
        return Some(x);
    }
    None
}

} // verus!
