//! From what lies on a disc and in the places for keys to a decryptor.
use vstd::prelude::*;

use crate::aacs_adapter::cascade::{
    bytes_model, entry_from_env, env_entry, found_model, opened_with, resolve_aacs_entry, search,
    try_online_vuk, EnvValues, ResolvedEntry, ResolvedSource,
};
use crate::aacs_adapter::decryptor::{
    fits, given_key, key_fits, keyed, verified_decryptor, AacsDecryptor,
};
use crate::aacs_adapter::key_block::counts_fit;
use crate::aacs_adapter::key_line::{device_keys_of, keydb_device_keys, EntryModel};
use crate::aacs_adapter::key_text::records_of;
use crate::aacs_adapter::keys::{
    disc_id_of, is_media_key_block, sha1_digest, unit_key_file_keys, units_of_keys, CpsUnit,
    DiscKeys,
};

verus! {

/// What the places for keys hold.
#[derive(Debug, Clone, PartialEq, Eq)]
pub struct KeyPlaces {
    /// What the user supplied.
    pub env: EnvValues,
    /// The volume identifier that the drive gave.
    pub volume_id: Option<[u8; 16]>,
    /// The line of the key file that names the disc.
    pub keydb_line: Option<String>,
    /// The line of the cache that names the disc.
    pub cache_line: Option<String>,
    /// The key file.
    pub keydb: Option<String>,
}

/// The volume key that the device keys of the key file open.
pub open spec fn opened_online(mkb: Seq<u8>, places: KeyPlaces) -> Option<Seq<u8>> {
    match (places.keydb, places.volume_id) {
        (Some(text), Some(id)) => opened_with(
            mkb,
            keydb_device_keys(records_of(text@)),
            id@,
        ),
        _ => None,
    }
}

/// The key that the places hold for a disc.
pub open spec fn key_in(unit_key_file: Seq<u8>, mkb: Seq<u8>, places: KeyPlaces) -> Option<
    (EntryModel, ResolvedSource),
> {
    let id = sha1_digest(unit_key_file);
    search(
        id,
        env_entry(id, places.env, bytes_model(places.volume_id)),
        places.keydb_line,
        places.cache_line,
        opened_online(mkb, places),
    )
}

/// Whether the files of a disc that tell of its keys are well formed.
pub open spec fn readable(unit_key_file: Seq<u8>, mkb: Seq<u8>) -> bool {
    counts_fit(mkb) && is_media_key_block(mkb) && unit_key_file_keys(unit_key_file) is Some
}

/// The units of a disc whose keys stand encrypted in its unit key file.
pub open spec fn encrypted_units(unit_key_file: Seq<u8>) -> Seq<CpsUnit> {
    units_of_keys(unit_key_file_keys(unit_key_file)->0)
}

/// Whether a decryptor holds the units of a disc with the keys that an entry
/// gives them, one of which decrypts `sample`.
pub open spec fn opens(
    d: AacsDecryptor,
    mkb: Seq<u8>,
    units: Seq<CpsUnit>,
    e: EntryModel,
    sample: Seq<u8>,
) -> bool {
    &&& d.volume.mkb@ == mkb
    &&& d.volume.cps_units@.len() == units.len()
    &&& forall|i: int|
        0 <= i < units.len() ==> keyed(units[i], #[trigger] d.volume.cps_units@[i], e)
    &&& exists|k: int|
        0 <= k < d.volume.cps_units@.len() && fits(#[trigger] d.volume.cps_units@[k], sample)
}

/// Whether no key that an entry gives to a unit decrypts `sample`.
pub open spec fn opens_nothing(units: Seq<CpsUnit>, e: EntryModel, sample: Seq<u8>) -> bool {
    forall|i: int|
        0 <= i < units.len() ==> !key_fits(given_key(#[trigger] units[i], e), sample)
}

fn open_online(mkb: &[u8], places: &KeyPlaces) -> (r: Option<[u8; 16]>)
    ensures
        bytes_model(r) == opened_online(mkb@, *places),
{
    match (&places.keydb, &places.volume_id) {
        (Some(text), Some(id)) => {
            let records = device_keys_of(text.as_str());
            try_online_vuk(mkb, &records, id)
        },
        _ => None,
    }
}

/// A decryptor for a disc and the key that it has from the places, if the
/// disc's files are well formed, there is a key for the disc, and that key
/// decrypts `sample`, the first unit of a clip.
pub fn try_resolve_aacs(
    unit_key_file: &[u8],
    mkb: &[u8],
    places: KeyPlaces,
    sample: &[u8],
) -> (r: Option<(AacsDecryptor, ResolvedEntry)>)
    ensures
        match r {
            Some((d, found)) => {
                &&& readable(unit_key_file@, mkb@)
                &&& key_in(unit_key_file@, mkb@, places) == Some((found.entry@, found.source))
                &&& opens(d, mkb@, encrypted_units(unit_key_file@), found.entry@, sample@)
            },
            None => readable(unit_key_file@, mkb@) ==> (key_in(
                unit_key_file@,
                mkb@,
                places,
            ) matches Some((e, _)) ==> opens_nothing(
                encrypted_units(unit_key_file@),
                e,
                sample@,
            )),
        },
{
    let disc_id = disc_id_of(unit_key_file);
    let volume = match DiscKeys::open(mkb, unit_key_file) {
        Some(volume) => volume,
        None => return None,
    };
    let online = open_online(mkb, &places);
    let env = entry_from_env(&disc_id, &places.env, places.volume_id);
    let found = match resolve_aacs_entry(
        &disc_id,
        env,
        places.keydb_line,
        places.cache_line,
        online,
    ) {
        Some(found) => found,
        None => return None,
    };
    let ghost units = volume.cps_units@;
    assert(units == encrypted_units(unit_key_file@));
    assert(found_model(Some(found)) == key_in(unit_key_file@, mkb@, places));
    match verified_decryptor(volume, &found.entry, sample) {
        Some(d) => {
            assert(opens(d, mkb@, units, found.entry@, sample@));
            Some((d, found))
        },
        None => {
            assert(opens_nothing(units, found.entry@, sample@));
            None
        },
    }
}

} // verus!
