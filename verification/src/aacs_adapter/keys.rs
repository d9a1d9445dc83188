//! Key material, and the functions of `oxideav_aacs` that compute with it.
use vstd::prelude::*;

use oxideav_aacs::aes::aes_128_ecb_decrypt;
use oxideav_aacs::content::decrypt_aligned_unit;
use oxideav_aacs::mkb::Mkb;
use oxideav_aacs::unit_key::{UnitKeyFile, UnitKeyFileHeader};
use oxideav_aacs::vuk::{derive_vuk, disc_id_from_unit_key_file_bytes};
use oxideav_aacs::AacsVolume;

use crate::aacs_adapter::key_block::{check_counts, counts_fit};
use crate::bdmv::common::{be16, be32};

verus! {

/// The part of a disc that one key protects.
#[derive(Debug, Clone, Copy, PartialEq, Eq)]
pub struct CpsUnit {
    /// Counted from 1.
    pub id: u16,
    /// The key as it stands on the disc.
    pub encrypted_title_key: [u8; 16],
    /// The key itself, once it is known.
    pub title_key: Option<[u8; 16]>,
}

/// What a disc says of its keys.
#[derive(Debug, Clone)]
pub struct DiscKeys {
    /// The media key block, as it stands on the disc.
    pub mkb: Vec<u8>,
    pub cps_units: Vec<CpsUnit>,
}

/// A device key of the key file.
#[derive(Debug, Clone, PartialEq, Eq)]
pub struct DeviceKeyRecord {
    pub device_key: [u8; 16],
    pub device_node: [u8; 2],
    pub key_uv: [u8; 4],
    pub key_u_mask_shift: u8,
    pub comment: Option<String>,
}

/// A device key with its place in the tree of keys.
#[derive(Debug, Clone, Copy, PartialEq, Eq)]
pub struct DeviceKey {
    pub key: [u8; 16],
    pub uv: u32,
    pub u_mask_zero_bits: u8,
    pub v_mask_zero_bits: u8,
}

// ---------------------------------------------------------------------
// Outside functions
// ---------------------------------------------------------------------

/// What `oxideav_aacs::vuk::disc_id_from_unit_key_file_bytes` returns: the
/// SHA-1 digest of the bytes.
pub uninterp spec fn sha1_digest(bytes: Seq<u8>) -> Seq<u8>;

/// The disc identifier: the SHA-1 digest of the unit key file.
///
/// Calls `oxideav_aacs::vuk::disc_id_from_unit_key_file_bytes`, whose result
/// depends on the bytes alone.
#[verifier::external_body]
pub(crate) fn unit_key_file_digest(bytes: &[u8]) -> (r: [u8; 20])
    ensures
        r@ == sha1_digest(bytes@),
{
    disc_id_from_unit_key_file_bytes(bytes)
}

/// What `oxideav_aacs::aes::aes_128_ecb_decrypt` returns: one block of 16
/// bytes, decrypted with AES-128.
pub uninterp spec fn aes_128d(key: Seq<u8>, block: Seq<u8>) -> Seq<u8>;

/// Decrypt one block.
///
/// Calls `oxideav_aacs::aes::aes_128_ecb_decrypt`, whose result depends on the
/// key and the block alone.
#[verifier::external_body]
pub(crate) fn decrypt_block(key: &[u8; 16], block: &[u8; 16]) -> (r: [u8; 16])
    ensures
        r@ == aes_128d(key@, block@),
{
    aes_128_ecb_decrypt(key, block)
}

/// The one-way function AES-G: the decrypted block, combined bit by bit with
/// the block itself.
pub open spec fn aes_g(key: Seq<u8>, block: Seq<u8>) -> Seq<u8> {
    Seq::new(16, |i: int| aes_128d(key, block)[i] ^ block[i])
}

/// The volume key that follows from a media key and a volume identifier.
///
/// Calls `oxideav_aacs::vuk::derive_vuk`, which is AES-G of the two.
#[verifier::external_body]
pub(crate) fn volume_key(media_key: &[u8; 16], volume_id: &[u8; 16]) -> (r: [u8; 16])
    ensures
        r@ == aes_g(media_key@, volume_id@),
{
    *derive_vuk(media_key, volume_id).as_bytes()
}

/// What `oxideav_aacs::content::decrypt_aligned_unit` makes of a unit of 6144
/// bytes.
pub uninterp spec fn decrypted_unit(key: Seq<u8>, unit: Seq<u8>) -> Seq<u8>;

/// Decrypt one unit of a clip.
///
/// Calls `oxideav_aacs::content::decrypt_aligned_unit`. A unit of any other
/// length than 6144 bytes is refused. The result is as long, depends on the
/// key and the unit alone, and begins with the unit's own first 16 bytes,
/// which are not encrypted.
#[verifier::external_body]
pub(crate) fn decrypt_unit(key: &[u8; 16], unit: &[u8]) -> (r: Option<Vec<u8>>)
    ensures
        match r {
            Some(v) => unit@.len() == 6144 && v@ == decrypted_unit(key@, unit@) && v@.len() == 6144
                && v@.take(16) == unit@.take(16),
            None => unit@.len() != 6144,
        },
{
    match decrypt_aligned_unit(key, unit) {
        Ok(v) => Some(v.to_vec()),
        Err(_) => None,
    }
}

/// The encrypted keys that `oxideav_aacs::unit_key::UnitKeyFile::parse` finds
/// in a unit key file, or `None` where it refuses the file.
pub uninterp spec fn unit_key_file_keys(bytes: Seq<u8>) -> Option<Seq<[u8; 16]>>;

/// The encrypted keys of a unit key file, in order.
///
/// Calls `oxideav_aacs::unit_key::UnitKeyFile::parse`, whose result depends on
/// the bytes alone. The file counts its keys in 16 bits. Why a file is refused
/// is not said.
#[verifier::external_body]
pub(crate) fn read_unit_keys(bytes: &[u8]) -> (r: Option<Vec<[u8; 16]>>)
    ensures
        match r {
            Some(v) => unit_key_file_keys(bytes@) == Some(v@) && v@.len() <= 0xFFFF,
            None => unit_key_file_keys(bytes@) is None,
        },
{
    match UnitKeyFile::parse(bytes) {
        Ok(f) => Some(f.cps_units.iter().map(|u| u.encrypted_cps_unit_key).collect()),
        Err(_) => None,
    }
}

/// Whether `oxideav_aacs::mkb::Mkb::parse` accepts a media key block.
pub uninterp spec fn is_media_key_block(bytes: Seq<u8>) -> bool;

/// Whether bytes are a media key block.
///
/// Calls `oxideav_aacs::mkb::Mkb::parse`, which accepts or refuses by the
/// bytes alone. Why a block is refused is not said. The call multiplies the
/// counts of revoked devices by 8 in `usize`: where `usize` has 32 bits, a count
/// that is too large would overflow there, so it is left out.
#[verifier::external_body]
pub(crate) fn accepts_media_key_block(bytes: &[u8]) -> (r: bool)
    requires
        counts_fit(bytes@),
    ensures
        r == is_media_key_block(bytes@),
{
    Mkb::parse(bytes).is_ok()
}

/// The volume key that `AacsVolume::derive_vuk_from_device_key` of
/// `oxideav_aacs` finds with a media key block, a device key (key, uv number,
/// zero bits of the two masks) and a volume identifier.
pub uninterp spec fn device_volume_key(
    mkb: Seq<u8>,
    key: Seq<u8>,
    uv: u32,
    u_mask_zero_bits: u8,
    v_mask_zero_bits: u8,
    volume_id: Seq<u8>,
) -> Option<Seq<u8>>;

/// The volume key that a device key opens.
///
/// Calls `AacsVolume::derive_vuk_from_device_key` of `oxideav_aacs` on a
/// volume with the given media key block and no unit keys. Its result depends
/// on the arguments alone. The mask of the device key's own node may have at
/// most 32 zero bits; with more the call would shift out of range. Why a key
/// is refused is not said. The block is parsed with
/// `oxideav_aacs::mkb::Mkb::parse`, so what [`accepts_media_key_block`] leaves
/// out is left out here as well.
#[verifier::external_body]
pub(crate) fn device_key_opens(mkb: &[u8], dk: &DeviceKey, volume_id: &[u8; 16]) -> (r: Option<
    [u8; 16],
>)
    requires
        counts_fit(mkb@),
        dk.v_mask_zero_bits <= 32,
    ensures
        match r {
            Some(v) => device_volume_key(
                mkb@,
                dk.key@,
                dk.uv,
                dk.u_mask_zero_bits,
                dk.v_mask_zero_bits,
                volume_id@,
            ) == Some(v@),
            None => device_volume_key(
                mkb@,
                dk.key@,
                dk.uv,
                dk.u_mask_zero_bits,
                dk.v_mask_zero_bits,
                volume_id@,
            ) is None,
        },
{
    let (key, uv, u_mask_zero_bits) = (dk.key, dk.uv, dk.u_mask_zero_bits);
    let (v_mask_zero_bits, device_node) = (dk.v_mask_zero_bits, None);
    let dk = oxideav_aacs::DeviceKey { key, uv, u_mask_zero_bits, v_mask_zero_bits, device_node };
    let (application_type, num_of_bd_directory, use_skb_unified_mkb) = (1, 1, false);
    let bd_directories = Vec::new();
    let header = UnitKeyFileHeader {
        application_type, num_of_bd_directory, use_skb_unified_mkb, bd_directories };
    let unit_key_file = UnitKeyFile {
        unit_key_block_start_address: 0, header, cps_units: Vec::new() };
    let (cps_units, disc_root) = (Vec::new(), std::path::PathBuf::new());
    let mkb = Mkb::parse(mkb).ok()?;
    let volume = AacsVolume { mkb, unit_key_file, cps_units, disc_root };
    volume.derive_vuk_from_device_key(&dk, volume_id).ok().map(|v| *v.as_bytes())
}

// ---------------------------------------------------------------------
// Discs and device keys
// ---------------------------------------------------------------------

/// The units of a disc whose keys stand on it encrypted.
pub open spec fn units_of_keys(keys: Seq<[u8; 16]>) -> Seq<CpsUnit> {
    Seq::new(
        keys.len(),
        |i: int|
            CpsUnit { id: (i + 1) as u16, encrypted_title_key: keys[i], title_key: None },
    )
}

impl DiscKeys {
    /// Read the media key block and the unit key file of a disc. Either may be
    /// refused, the block also for a count of revoked devices that is too large.
    pub fn open(mkb: &[u8], unit_key_file: &[u8]) -> (r: Option<Self>)
        ensures
            match r {
                Some(v) => {
                    &&& counts_fit(mkb@)
                    &&& is_media_key_block(mkb@)
                    &&& v.mkb@ == mkb@
                    &&& unit_key_file_keys(unit_key_file@) matches Some(keys) && v.cps_units@
                        == units_of_keys(keys)
                },
                None => !counts_fit(mkb@) || !is_media_key_block(mkb@) || unit_key_file_keys(
                    unit_key_file@,
                ) is None,
            },
    {
        if !check_counts(mkb) || !accepts_media_key_block(mkb) {
            return None;
        }
        let keys = match read_unit_keys(unit_key_file) {
            Some(keys) => keys,
            None => return None,
        };
        let mut cps_units: Vec<CpsUnit> = Vec::new();
        let mut i: usize = 0;
        while i < keys.len()
            invariant
                i <= keys@.len() <= 0xFFFF,
                cps_units@ == units_of_keys(keys@).take(i as int),
            decreases keys@.len() - i,
        {
            cps_units.push(
                CpsUnit {
                    id: (i + 1) as u16,
                    encrypted_title_key: keys[i],
                    title_key: None,
                },
            );
            i += 1;
            assert(cps_units@ =~= units_of_keys(keys@).take(i as int));
        }
        assert(cps_units@ =~= units_of_keys(keys@));
        let mkb = vstd::slice::slice_to_vec(mkb);
        Some(DiscKeys { mkb, cps_units })
    }
}

/// The disc identifier: the digest of the unit key file, as key files write
/// it.
pub fn disc_id_of(unit_key_file: &[u8]) -> (r: [u8; 20])
    ensures
        r@ == sha1_digest(unit_key_file@),
{
    unit_key_file_digest(unit_key_file)
}

/// The device key of a record of the key file.
pub open spec fn device_key_of(rec: DeviceKeyRecord) -> DeviceKey {
    let uv = be32(rec.key_uv@, 0);
    DeviceKey {
        key: rec.device_key,
        uv,
        u_mask_zero_bits: rec.key_u_mask_shift,
        v_mask_zero_bits: uv.trailing_zeros() as u8,
    }
}

/// The device key of a record of the key file. The zero bits of the mask of
/// its own node are those at the low end of the uv number.
pub fn device_key_from_record(rec: &DeviceKeyRecord) -> (r: Option<DeviceKey>)
    ensures
        r == Some(device_key_of(*rec)),
        r->0.v_mask_zero_bits <= 32,
{
    broadcast use vstd::std_specs::bits::axiom_u32_trailing_zeros;

    proof {
        reveal(be16);
        reveal(be32);
    }
    let b = rec.key_uv;
    let hi: u16 = b[0] as u16 * 256 + b[1] as u16;
    let lo: u16 = b[2] as u16 * 256 + b[3] as u16;
    let uv: u32 = hi as u32 * 65536 + lo as u32;
    let v_mask_zero_bits: u8 = uv.trailing_zeros() as u8;
    Some(
        DeviceKey {
            key: rec.device_key,
            uv,
            u_mask_zero_bits: rec.key_u_mask_shift,
            v_mask_zero_bits,
        },
    )
}

} // verus!
