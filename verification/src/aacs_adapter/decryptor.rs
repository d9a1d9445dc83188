//! Applying keys to a disc, trying them out, and decrypting with them.
use vstd::prelude::*;
use vstd::string::*;

use crate::aacs_adapter::key_line::{EntryModel, KeyDbEntry};
use crate::aacs_adapter::keys::{
    aes_128d, decrypt_block, decrypt_unit, decrypted_unit, CpsUnit, DiscKeys,
};
use crate::decrypt::{overwrite, DecryptError, StreamDecryptor, AACS_UNIT_LEN};
use crate::m2ts::M2TS_PACKET_LEN;
use crate::order::{
    comes_before, lemma_before_asym, lemma_before_self, lemma_before_trans, text_before,
};
use crate::scan::chars_of;
use crate::text::{dec_text, push_dec};

verus! {

// ---------------------------------------------------------------------
// Applying keys
// ---------------------------------------------------------------------

/// The unit key with a number, the first of several.
pub open spec fn key_for(keys: Seq<(u16, [u8; 16])>, id: u16) -> Option<[u8; 16]>
    decreases keys.len(),
{
    if keys.len() == 0 {
        None
    } else if keys[0].0 == id {
        Some(keys[0].1)
    } else {
        key_for(keys.skip(1), id)
    }
}

/// The key that an entry gives a unit: the entry's own unit key, where the
/// entry has unit keys at all, and else the key on the disc, decrypted with
/// the volume key.
pub open spec fn given_key(cps: CpsUnit, e: EntryModel) -> Option<Seq<u8>> {
    if e.unit_keys.len() > 0 {
        key_bytes(key_for(e.unit_keys, cps.id))
    } else {
        Some(aes_128d(e.vuk, cps.encrypted_title_key@))
    }
}

pub open spec fn key_bytes(key: Option<[u8; 16]>) -> Option<Seq<u8>> {
    match key {
        Some(k) => Some(k@),
        None => None,
    }
}

/// Whether a unit has the key that an entry gives it, and is otherwise the
/// same.
pub open spec fn keyed(before: CpsUnit, after: CpsUnit, e: EntryModel) -> bool {
    &&& after.id == before.id
    &&& after.encrypted_title_key == before.encrypted_title_key
    &&& key_bytes(after.title_key) == given_key(before, e)
}

fn find_key(keys: &Vec<(u16, [u8; 16])>, id: u16) -> (r: Option<[u8; 16]>)
    ensures
        r == key_for(keys@, id),
{
    let mut i: usize = 0;
    assert(keys@.skip(0) =~= keys@);
    while i < keys.len()
        invariant
            i <= keys@.len(),
            key_for(keys@, id) == key_for(keys@.skip(i as int), id),
        decreases keys@.len() - i,
    {
        let (n, key) = keys[i];
        if n == id {
            return Some(key);
        }
        assert(keys@.skip(i as int).skip(1) =~= keys@.skip(i + 1));
        i += 1;
    }
    None
}

/// Give every unit of a disc its key.
pub fn apply_entry_to_volume(entry: &KeyDbEntry, volume: &mut DiscKeys)
    ensures
        final(volume).mkb@ == old(volume).mkb@,
        final(volume).cps_units@.len() == old(volume).cps_units@.len(),
        forall|i: int|
            0 <= i < old(volume).cps_units@.len() ==> keyed(
                old(volume).cps_units@[i],
                #[trigger] final(volume).cps_units@[i],
                entry@,
            ),
{
    let mut i: usize = 0;
    while i < volume.cps_units.len()
        invariant
            i <= volume.cps_units@.len(),
            volume.mkb@ == old(volume).mkb@,
            volume.cps_units@.len() == old(volume).cps_units@.len(),
            forall|k: int|
                0 <= k < i ==> keyed(
                    old(volume).cps_units@[k],
                    #[trigger] volume.cps_units@[k],
                    entry@,
                ),
            forall|k: int|
                i <= k < volume.cps_units@.len() ==> #[trigger] volume.cps_units@[k]
                    == old(volume).cps_units@[k],
        decreases volume.cps_units@.len() - i,
    {
        let cps = volume.cps_units[i];
        let title_key: Option<[u8; 16]> = if entry.unit_keys.len() > 0 {
            find_key(&entry.unit_keys, cps.id)
        } else {
            Some(decrypt_block(&entry.vuk, &cps.encrypted_title_key))
        };
        volume.cps_units.set(
            i,
            CpsUnit { id: cps.id, encrypted_title_key: cps.encrypted_title_key, title_key },
        );
        i += 1;
    }
}

// ---------------------------------------------------------------------
// Trying keys out
// ---------------------------------------------------------------------

/// Whether bytes look like a decrypted unit: every one of its 32 packets has
/// the sync byte in its place.
pub open spec fn is_bdav_ts(unit: Seq<u8>) -> bool {
    unit.len() >= 6144 && forall|i: int| 0 <= i < 32 ==> #[trigger] unit[i * 192 + 4] == 0x47
}

/// Whether bytes look like a decrypted unit.
pub fn looks_like_bdav_ts(unit: &[u8]) -> (r: bool)
    ensures
        r == is_bdav_ts(unit@),
{
    if unit.len() < AACS_UNIT_LEN {
        return false;
    }
    let mut i: usize = 0;
    while i < 32
        invariant
            i <= 32,
            unit@.len() >= 6144,
            forall|k: int| 0 <= k < i ==> #[trigger] unit@[k * 192 + 4] == 0x47,
        decreases 32 - i,
    {
        if unit[i * M2TS_PACKET_LEN + 4] != 0x47 {
            return false;
        }
        i += 1;
    }
    true
}

/// Whether a key decrypts a sample.
pub open spec fn key_fits(key: Option<Seq<u8>>, sample: Seq<u8>) -> bool {
    key matches Some(k) && sample.len() == 6144 && is_bdav_ts(decrypted_unit(k, sample))
}

/// Whether the key of a unit decrypts a sample.
pub open spec fn fits(cps: CpsUnit, sample: Seq<u8>) -> bool {
    key_fits(key_bytes(cps.title_key), sample)
}

/// The first unit whose key decrypts the first unit of a clip.
pub fn trial_decrypt(volume: &DiscKeys, sample: &[u8]) -> (r: Option<usize>)
    ensures
        match r {
            Some(k) => k < volume.cps_units@.len() && fits(volume.cps_units@[k as int], sample@)
                && forall|j: int|
                0 <= j < k ==> !fits(#[trigger] volume.cps_units@[j], sample@),
            None => forall|j: int|
                0 <= j < volume.cps_units@.len() ==> !fits(
                    #[trigger] volume.cps_units@[j],
                    sample@,
                ),
        },
{
    let mut k: usize = 0;
    while k < volume.cps_units.len()
        invariant
            k <= volume.cps_units@.len(),
            forall|j: int| 0 <= j < k ==> !fits(#[trigger] volume.cps_units@[j], sample@),
        decreases volume.cps_units@.len() - k,
    {
        if let Some(key) = volume.cps_units[k].title_key {
            if let Some(plain) = decrypt_unit(&key, sample) {
                if looks_like_bdav_ts(plain.as_slice()) {
                    return Some(k);
                }
            }
        }
        k += 1;
    }
    None
}

/// A decryptor for a disc, if a key of the entry decrypts the first unit of a
/// clip.
pub fn verified_decryptor(volume: DiscKeys, entry: &KeyDbEntry, sample: &[u8]) -> (r: Option<
    AacsDecryptor,
>)
    ensures
        match r {
            Some(d) => {
                &&& d.volume.mkb@ == volume.mkb@
                &&& d.volume.cps_units@.len() == volume.cps_units@.len()
                &&& forall|i: int|
                    0 <= i < volume.cps_units@.len() ==> keyed(
                        volume.cps_units@[i],
                        #[trigger] d.volume.cps_units@[i],
                        entry@,
                    )
                &&& exists|k: int|
                    0 <= k < d.volume.cps_units@.len() && fits(
                        #[trigger] d.volume.cps_units@[k],
                        sample@,
                    )
            },
            None => forall|i: int|
                0 <= i < volume.cps_units@.len() ==> !key_fits(
                    given_key(#[trigger] volume.cps_units@[i], entry@),
                    sample@,
                ),
        },
{
    let mut volume = volume;
    let ghost before = volume.cps_units@;
    apply_entry_to_volume(entry, &mut volume);
    match trial_decrypt(&volume, sample) {
        Some(_) => Some(AacsDecryptor { volume }),
        None => {
            proof {
                assert forall|i: int| 0 <= i < before.len() implies !key_fits(
                    given_key(#[trigger] before[i], entry@),
                    sample@,
                ) by {
                    let ours = volume.cps_units@[i];
                    assert(keyed(before[i], ours, entry@));
                    assert(!fits(ours, sample@));
                }
            }
            None
        },
    }
}

// ---------------------------------------------------------------------
// Decrypting
// ---------------------------------------------------------------------

/// A decryptor with the keys of a disc.
#[derive(Debug, Clone)]
pub struct AacsDecryptor {
    pub volume: DiscKeys,
}

/// The first `n` units of a stream, decrypted.
pub open spec fn decrypted_units(key: Seq<u8>, s: Seq<u8>, n: nat) -> Seq<u8>
    decreases n,
{
    if n == 0 {
        Seq::empty()
    } else {
        decrypted_units(key, s, (n - 1) as nat) + decrypted_unit(
            key,
            s.subrange(6144 * (n - 1), 6144 * n as int),
        )
    }
}

/// Whether a decryptor takes a buffer: it is made of whole units, and there is
/// a key for them.
pub open spec fn can_decrypt(units: Seq<CpsUnit>, len: nat) -> bool {
    &&& len % 6144 == 0
    &&& units.len() > 0
    &&& len == 0 || units[0].title_key is Some
}

/// What is said of a buffer that a decryptor does not take.
pub open spec fn refusal_text(units: Seq<CpsUnit>, len: nat) -> Seq<char> {
    if len % 6144 != 0 {
        "AacsDecryptor: buffer length "@ + dec_text(len) + " is not a multiple of 6144"@
    } else if units.len() == 0 {
        "AACS volume has no CPS Units"@
    } else {
        "invalid CPS Unit title key (not yet unwrapped) value: "@ + dec_text(units[0].id as nat)
    }
}

proof fn lemma_decrypted_units_len(key: Seq<u8>, s: Seq<u8>, n: nat)
    requires
        forall|k: int|
            0 <= k < n ==> decrypted_unit(
                key,
                #[trigger] s.subrange(6144 * k, 6144 * k + 6144),
            ).len() == 6144,
    ensures
        decrypted_units(key, s, n).len() == 6144 * n,
    decreases n,
{
    if n > 0 {
        lemma_decrypted_units_len(key, s, (n - 1) as nat);
        assert(decrypted_unit(key, s.subrange(6144 * (n - 1), 6144 * (n - 1) + 6144)).len()
            == 6144);
    }
}

/// Where units keep their length, decrypting many of them at once is
/// decrypting them one by one.
pub proof fn lemma_units_one_by_one(key: Seq<u8>, s: Seq<u8>, n: nat, k: int)
    requires
        0 <= k < n,
    ensures
        (forall|j: int|
            0 <= j < n ==> decrypted_unit(
                key,
                #[trigger] s.subrange(6144 * j, 6144 * j + 6144),
            ).len() == 6144) ==> decrypted_units(key, s, n).subrange(6144 * k, 6144 * k + 6144)
            == decrypted_unit(key, s.subrange(6144 * k, 6144 * k + 6144)),
    decreases n,
{
    if forall|j: int|
        0 <= j < n ==> decrypted_unit(
            key,
            #[trigger] s.subrange(6144 * j, 6144 * j + 6144),
        ).len() == 6144 {
        let m = (n - 1) as nat;
        let before = decrypted_units(key, s, m);
        let last = decrypted_unit(key, s.subrange(6144 * (n - 1), 6144 * (n - 1) + 6144));
        lemma_decrypted_units_len(key, s, m);
        assert(last.len() == 6144);
        assert(decrypted_units(key, s, n) == before + last);
        if k < m {
            lemma_units_one_by_one(key, s, m, k);
            assert((before + last).subrange(6144 * k, 6144 * k + 6144) =~= before.subrange(
                6144 * k,
                6144 * k + 6144,
            ));
        } else {
            assert((before + last).subrange(6144 * k, 6144 * k + 6144) =~= last);
        }
    }
}

impl StreamDecryptor for AacsDecryptor {
    /// Whole units are decrypted with the key of the disc's first unit; where
    /// that is not possible the bytes stay as they are.
    open spec fn turns(
        &self,
        bytes: Seq<u8>,
        clip_offset: u64,
        out: Seq<u8>,
        refusal: Option<DecryptError>,
    ) -> bool {
        let units = self.volume.cps_units@;
        match refusal {
            None => can_decrypt(units, bytes.len()) && out == if bytes.len() == 0 {
                bytes
            } else {
                decrypted_units(units[0].title_key->0@, bytes, bytes.len() / 6144)
            },
            Some(e) => !can_decrypt(units, bytes.len()) && out == bytes && e.msg@ == refusal_text(
                units,
                bytes.len(),
            ),
        }
    }

    /// Decrypt whole units in place.
    #[verifier::loop_isolation(false)]
    fn decrypt_units(&mut self, buf: &mut [u8], clip_offset: u64) -> (r: Result<(), DecryptError>)
        ensures
            *final(self) == *old(self),
    {
        if buf.len() % AACS_UNIT_LEN != 0 {
            let mut msg = String::new();
            msg.append("AacsDecryptor: buffer length ");
            push_dec(&mut msg, buf.len() as u128);
            msg.append(" is not a multiple of 6144");
            assert(msg@ =~= refusal_text(self.volume.cps_units@, buf@.len()));
            return Err(DecryptError::new(msg.as_str()));
        }
        if self.volume.cps_units.len() == 0 {
            return Err(DecryptError::new("AACS volume has no CPS Units"));
        }
        if buf.len() == 0 {
            return Ok(());
        }
        let key: [u8; 16] = match self.volume.cps_units[0].title_key {
            Some(key) => key,
            None => {
                let mut msg = String::new();
                msg.append("invalid CPS Unit title key (not yet unwrapped) value: ");
                push_dec(&mut msg, self.volume.cps_units[0].id as u128);
                assert(msg@ =~= refusal_text(self.volume.cps_units@, buf@.len()));
                return Err(DecryptError::new(msg.as_str()));
            },
        };
        let ghost s = buf@;
        let total: usize = buf.len();
        let n: usize = total / AACS_UNIT_LEN;
        let mut k: usize = 0;
        assert(buf@ =~= decrypted_units(key@, s, 0) + s.skip(0));
        while k < n
            invariant
                k <= n,
                total == 6144 * n,
                total == s.len(),
                decrypted_units(key@, s, k as nat).len() == 6144 * k,
                buf@ == decrypted_units(key@, s, k as nat) + s.skip(6144 * k),
            decreases n - k,
        {
            let off: usize = 6144 * k;
            let ghost unit = s.subrange(6144 * k, 6144 * k + 6144);
            let bytes = vstd::slice::slice_subrange(buf, off, off + 6144);
            assert(bytes@ =~= unit);
            match decrypt_unit(&key, bytes) {
                Some(plain) => {
                    let ghost done = decrypted_units(key@, s, k as nat);
                    overwrite(buf, off, &plain);
                    assert(decrypted_units(key@, s, (k + 1) as nat) == done + plain@);
                    assert(buf@ =~= (done + plain@) + s.skip(6144 * (k + 1)));
                },
                None => {
                    assert(false);
                },
            }
            k += 1;
        }
        assert(s.skip(6144 * n) =~= Seq::empty());
        assert(buf@ =~= decrypted_units(key@, s, n as nat));
        Ok(())
    }
}

// ---------------------------------------------------------------------
// The clip to try keys on
// ---------------------------------------------------------------------

/// Whether a file name ends in `.m2ts`, with something before it.
pub open spec fn is_clip_name(name: Seq<char>) -> bool {
    name.len() > 5 && name.skip(name.len() - 5) == ".m2ts"@
}

fn ends_in_m2ts(name: &Vec<char>) -> (r: bool)
    ensures
        r == is_clip_name(name@),
{
    proof {
        reveal_strlit(".m2ts");
    }
    let n: usize = name.len();
    if n <= 5 {
        return false;
    }
    let r = name[n - 5] == '.' && name[n - 4] == 'm' && name[n - 3] == '2' && name[n - 2] == 't'
        && name[n - 1] == 's';
    proof {
        let tail = name@.skip(n - 5);
        if r {
            assert(tail =~= ".m2ts"@);
        } else if tail == ".m2ts"@ {
            assert(tail[0] == '.' && tail[1] == 'm' && tail[2] == '2' && tail[3] == 't' && tail[4]
                == 's');
        }
    }
    r
}

/// Of the files of the stream directory, the clip whose name comes first.
pub fn find_first_m2ts(names: &Vec<String>) -> (r: Option<usize>)
    ensures
        match r {
            Some(k) => k < names@.len() && is_clip_name(names@[k as int]@) && forall|j: int|
                0 <= j < names@.len() && is_clip_name((#[trigger] names@[j])@) ==> !text_before(
                    names@[j]@,
                    names@[k as int]@,
                ),
            None => forall|j: int| 0 <= j < names@.len() ==> !is_clip_name((#[trigger] names@[j])@),
        },
{
    let mut best: Option<usize> = None;
    let mut i: usize = 0;
    while i < names.len()
        invariant
            i <= names@.len(),
            match best {
                Some(k) => k < i && is_clip_name(names@[k as int]@) && forall|j: int|
                    0 <= j < i && is_clip_name((#[trigger] names@[j])@) ==> !text_before(
                        names@[j]@,
                        names@[k as int]@,
                    ),
                None => forall|j: int| 0 <= j < i ==> !is_clip_name((#[trigger] names@[j])@),
            },
        decreases names@.len() - i,
    {
        let name = chars_of(names[i].as_str());
        if ends_in_m2ts(&name) {
            match best {
                None => {
                    proof {
                        lemma_before_self(names@[i as int]@);
                    }
                    best = Some(i);
                },
                Some(k) => {
                    let other = chars_of(names[k].as_str());
                    if comes_before(&name, &other) {
                        proof {
                            lemma_before_self(names@[i as int]@);
                            assert forall|j: int|
                                0 <= j < i + 1 && is_clip_name(
                                    (#[trigger] names@[j])@,
                                ) implies !text_before(names@[j]@, names@[i as int]@) by {
                                if j < i {
                                    lemma_before_asym(names@[i as int]@, names@[k as int]@);
                                    lemma_before_trans(
                                        names@[i as int]@,
                                        names@[k as int]@,
                                        names@[j]@,
                                    );
                                }
                            }
                        }
                        best = Some(i);
                    }
                },
            }
        }
        i += 1;
    }
    best
}

/// A decryptor turns every unit of a buffer by itself, each with the key of the
/// disc's first unit; a buffer that it refuses it leaves alone.
pub proof fn lemma_units_turned(
    d: AacsDecryptor,
    bytes: Seq<u8>,
    clip_offset: u64,
    out: Seq<u8>,
    refusal: Option<DecryptError>,
    k: int,
)
    requires
        d.turns(bytes, clip_offset, out, refusal),
        d.volume.cps_units@.len() > 0,
        0 <= k,
        6144 * k + 6144 <= bytes.len(),
        forall|j: int|
            0 <= j < bytes.len() / 6144 ==> decrypted_unit(
                d.volume.cps_units@[0].title_key->0@,
                #[trigger] bytes.subrange(6144 * j, 6144 * j + 6144),
            ).len() == 6144,
    ensures
        refusal is Some ==> out == bytes,
        refusal is None ==> out.subrange(6144 * k, 6144 * k + 6144) == decrypted_unit(
            d.volume.cps_units@[0].title_key->0@,
            bytes.subrange(6144 * k, 6144 * k + 6144),
        ),
        refusal is None <==> bytes.len() % 6144 == 0 && d.volume.cps_units@[0].title_key is Some,
{
    lemma_units_one_by_one(
        d.volume.cps_units@[0].title_key->0@,
        bytes,
        (bytes.len() / 6144) as nat,
        k,
    );
}

} // verus!
