//! The volume identifier that the user supplies in place of the drive.
use vstd::prelude::*;

use crate::scan::{chars_of, hex16_bytes, is_hex16, parse_hex16, text_of, without_0x};

verus! {

/// Why there is no volume identifier.
#[derive(Debug)]
pub enum DriveError {
    /// What the user supplied is not 32 hexadecimal digits.
    BadEnvOverride(String),
    /// The platform has no way to ask the drive.
    Unimplemented,
    /// The drive refused.
    Mmc(String),
}

/// The volume identifier in a value that the user supplied: 32 hexadecimal
/// digits, with or without `0x` before them.
pub fn volume_id_override(value: &str) -> (r: Result<[u8; 16], DriveError>)
    ensures
        match r {
            Ok(id) => is_hex16(without_0x(value@)) && id@ == hex16_bytes(without_0x(value@)),
            Err(DriveError::BadEnvOverride(s)) => !is_hex16(without_0x(value@)) && s@
                == without_0x(value@),
            Err(_) => false,
        },
{
    match parse_hex16(value) {
        Some(id) => Ok(id),
        None => {
            let chars = chars_of(value);
            let from: usize = if chars.len() >= 2 && chars[0] == '0' && (chars[1] == 'x' || chars[1]
                == 'X') {
                2
            } else {
                0
            };
            let s = text_of(&chars, from, chars.len());
            assert(s@ =~= without_0x(value@));
            Err(DriveError::BadEnvOverride(s))
        },
    }
}

/// The volume identifier of the disc, where there is no way to ask the drive:
/// what the user supplied, if anything.
pub fn read_volume_id(env_override: Option<&str>) -> (r: Result<[u8; 16], DriveError>)
    ensures
        match env_override {
            Some(value) => match r {
                Ok(id) => is_hex16(without_0x(value@)) && id@ == hex16_bytes(without_0x(value@)),
                Err(DriveError::BadEnvOverride(s)) => !is_hex16(without_0x(value@)) && s@
                    == without_0x(value@),
                Err(_) => false,
            },
            None => r matches Err(e) && e is Unimplemented,
        },
{
    match env_override {
        Some(value) => volume_id_override(value),
        None => Err(DriveError::Unimplemented),
    }
}

} // verus!
