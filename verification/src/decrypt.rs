//! Decryption of clip streams.
//!
//! Clips are encrypted in units of 6144 bytes: 32 source packets of 192 bytes,
//! or three sectors of 2048 bytes.
use vstd::prelude::*;
use vstd::string::*;

verus! {

/// Bytes of a unit of encryption.
pub const AACS_UNIT_LEN: usize = 6144;

/// Why a decryptor gave up.
#[derive(Debug)]
#[non_exhaustive]
pub struct DecryptError {
    pub msg: String,
}

impl DecryptError {
    pub fn new(msg: &str) -> (r: Self)
        ensures
            r.msg@ == msg@,
    {
        DecryptError { msg: msg.to_owned() }
    }

    /// The reason, in words.
    pub fn to_string(&self) -> (r: String)
        ensures
            r@ == self.msg@,
    {
        self.msg.clone()
    }
}

/// A cipher for clip streams.
pub trait StreamDecryptor: Send {
    /// Whether the cipher may turn `bytes`, which stand at an offset of a clip,
    /// into `out` and refuse or not. Without a statement it may do anything.
    open spec fn turns(
        &self,
        bytes: Seq<u8>,
        clip_offset: u64,
        out: Seq<u8>,
        refusal: Option<DecryptError>,
    ) -> bool {
        true
    }

    /// Decrypt `buf` in place. Its length is a multiple of [`AACS_UNIT_LEN`];
    /// `clip_offset` is the offset of its first byte in the clip.
    fn decrypt_units(&mut self, buf: &mut [u8], clip_offset: u64) -> (r: Result<(), DecryptError>)
        ensures
            final(buf)@.len() == old(buf)@.len(),
            old(self).turns(
                old(buf)@,
                clip_offset,
                final(buf)@,
                match r {
                    Ok(_) => None,
                    Err(e) => Some(e),
                },
            ),
    ;
}

/// Leaves everything as it is; for discs that are not encrypted.
#[derive(Debug, Clone, Copy)]
pub struct Identity;

impl Default for Identity {
    fn default() -> (r: Self) {
        Identity
    }
}

impl StreamDecryptor for Identity {
    open spec fn turns(
        &self,
        bytes: Seq<u8>,
        clip_offset: u64,
        out: Seq<u8>,
        refusal: Option<DecryptError>,
    ) -> bool {
        refusal is None && out == bytes
    }

    fn decrypt_units(&mut self, buf: &mut [u8], clip_offset: u64) -> (r: Result<(), DecryptError>)
    {
        Ok(())
    }
}

/// Write `bytes` into `buf` from `at` on.
pub fn overwrite(buf: &mut [u8], at: usize, bytes: &Vec<u8>)
    requires
        at + bytes@.len() <= old(buf)@.len(),
    ensures
        final(buf)@ == old(buf)@.take(at as int) + bytes@ + old(buf)@.skip(
            (at + bytes@.len()) as int,
        ),
{
    let total: usize = buf.len();
    let mut i: usize = 0;
    while i < bytes.len()
        invariant
            i <= bytes@.len(),
            total == old(buf)@.len(),
            at + bytes@.len() <= total,
            buf@.len() == old(buf)@.len(),
            forall|k: int|
                0 <= k < buf@.len() ==> #[trigger] buf@[k] == if at <= k < at + i {
                    bytes@[k - at]
                } else {
                    old(buf)@[k]
                },
        decreases bytes@.len() - i,
    {
        buf[at + i] = bytes[i];
        i += 1;
    }
    assert(buf@ =~= old(buf)@.take(at as int) + bytes@ + old(buf)@.skip(
        (at + bytes@.len()) as int,
    ));
}

} // verus!
