//! Which keys a disc gets, where they are looked for, and which blocks are
//! looked into.
use vstd::prelude::*;
use vstd::string::*;
use vstd::utf8::{encode_scalar, encode_utf8};

use crate::aacs_adapter::cascade::{
    drive_needed, env_entry, first_opened, follows, line_entry, opened_with, row_opens, search,
    supplied, CascadeAction, CascadeEvent, EnvValues, ResolvedSource,
};
use crate::aacs_adapter::decryptor::{
    can_decrypt, given_key, is_bdav_ts, is_clip_name, key_for, refusal_text,
};
use crate::aacs_adapter::key_block::{counts_fit_from, list_counts_fit};
use crate::aacs_adapter::key_line::{
    key_line_text, keydb_device_keys, names_disc, record_row, DeviceKeyRow, EntryModel,
};
use crate::aacs_adapter::key_text::{
    byte_len, cut_by_pairs, flag_of, lemma_place_of, place_of, records_of, value_of, width,
};
use crate::aacs_adapter::keys::{
    aes_128d, device_key_of, device_volume_key, sha1_digest, units_of_keys, CpsUnit,
    DeviceKeyRecord,
};
use crate::aacs_adapter::places::{cache_model, dirs_of, keydb_places, split_dirs, SearchEnv};
use crate::aacs_adapter::resolve::{key_in, opened_online, KeyPlaces};
use crate::bdmv::layout::{lemma_n32, lemma_numbers, n24, n32};
use crate::scan::{hex16_bytes, is_hex, is_hex16, is_space, trim, upper, without_0x};
use crate::text::{dec_text, hex_bytes};
use crate::text_laws::{blank, lemma_trim_start};

verus! {

// ---------------------------------------------------------------------
// The search
// ---------------------------------------------------------------------

/// A key that the user supplied counts before all others; then one of the key
/// file, then one of the cache; what the disc gives comes last. Places behind
/// the first with a key play no part.
pub proof fn lemma_search_order(
    disc_id: Seq<u8>,
    env: Option<EntryModel>,
    keydb_line: Option<String>,
    cache_line: Option<String>,
    online: Option<Seq<u8>>,
)
    ensures
        ({
            let found = search(disc_id, env, keydb_line, cache_line, online);
            let in_keydb = line_entry(keydb_line);
            let in_cache = line_entry(cache_line);
            &&& env matches Some(e) ==> found == Some((e, ResolvedSource::EnvOverride))
            &&& env is None ==> (in_keydb matches Some(e) ==> found == Some(
                (e, ResolvedSource::Keydb),
            ))
            &&& env is None && in_keydb is None ==> (in_cache matches Some(e) ==> found == Some(
                (e, ResolvedSource::Cache),
            ))
            &&& env is None && in_keydb is None && in_cache is None ==> (found is Some
                <==> online is Some)
            &&& env is None && in_keydb is None && in_cache is None ==> (found matches Some(
                (e, source),
            ) ==> source == ResolvedSource::Online && Some(e.vuk) == online && e.disc_id == disc_id
                && e.unit_keys.len() == 0)
        }),
{
}

/// What the user supplies counts as its sixteen bytes in hexadecimal, with or
/// without `0x` and white space around it.
pub proof fn lemma_supplied(value: Seq<char>)
    ensures
        supplied(value) is Some <==> is_hex16(without_0x(trim(value))),
        supplied(value) matches Some(b) ==> b == hex16_bytes(without_0x(trim(value))),
{
}

/// A supplied volume key is the disc's; one that is malformed leaves no key,
/// whatever else is supplied.
pub proof fn lemma_supplied_volume_key(disc_id: Seq<u8>, v: EnvValues, drive_id: Option<Seq<u8>>)
    requires
        v.vuk is Some,
    ensures
        env_entry(disc_id, v, drive_id) is Some <==> supplied(v.vuk->0@) is Some,
        env_entry(disc_id, v, drive_id) matches Some(e) ==> e.disc_id == disc_id && Some(e.vuk)
            == supplied(v.vuk->0@) && e.unit_keys.len() == 0,
        !drive_needed(v),
{
}

/// A supplied media key makes the volume key with an identifier: that of the
/// user, where there is one, else that of the drive, which is asked then. The
/// volume key is the identifier decrypted with the media key, combined with the
/// identifier byte by byte.
pub proof fn lemma_supplied_media_key(
    disc_id: Seq<u8>,
    v: EnvValues,
    drive_id: Option<Seq<u8>>,
    i: int,
)
    requires
        v.vuk is None,
        0 <= i < 16,
    ensures
        ({
            let key = if v.media_key is Some {
                supplied(v.media_key->0@)
            } else {
                None
            };
            let id = if v.volume_id is Some {
                supplied(v.volume_id->0@)
            } else {
                drive_id
            };
            let r = env_entry(disc_id, v, drive_id);
            &&& r is Some <==> key is Some && id is Some
            &&& r matches Some(e) ==> {
                &&& e.disc_id == disc_id
                &&& e.unit_keys.len() == 0
                &&& e.vuk.len() == 16
                &&& e.vuk[i] == aes_128d(key->0, id->0)[i] ^ id->0[i]
            }
            &&& drive_needed(v) <==> key is Some && v.volume_id is None
        }),
{
}

/// The device keys are tried in their order; the first that opens the block
/// gives the volume key.
pub proof fn lemma_first_opened(
    mkb: Seq<u8>,
    rows: Seq<DeviceKeyRow>,
    volume_id: Seq<u8>,
    i: int,
    k: int,
)
    requires
        0 <= i <= k < rows.len(),
        row_opens(mkb, rows[k], volume_id) is Some,
        forall|j: int| i <= j < k ==> row_opens(mkb, #[trigger] rows[j], volume_id) is None,
    ensures
        first_opened(mkb, rows, volume_id, i) == row_opens(mkb, rows[k], volume_id),
    decreases k - i,
{
    if i < k {
        lemma_first_opened(mkb, rows, volume_id, i + 1, k);
    }
}

/// Where no device key opens the block there is no volume key.
pub proof fn lemma_none_opened(mkb: Seq<u8>, rows: Seq<DeviceKeyRow>, volume_id: Seq<u8>, i: int)
    requires
        0 <= i,
        forall|j: int|
            i <= j < rows.len() ==> row_opens(mkb, #[trigger] rows[j], volume_id) is None,
    ensures
        first_opened(mkb, rows, volume_id, i) is None,
    decreases rows.len() - i,
{
    if i < rows.len() {
        lemma_none_opened(mkb, rows, volume_id, i + 1);
    }
}

/// A device key's number is that of its four bytes, the first counting most;
/// the mask of its own node ends where the number's lowest bit is. A record of
/// the key file opens what the device key made of it opens.
pub proof fn lemma_device_key(rec: DeviceKeyRecord, mkb: Seq<u8>, volume_id: Seq<u8>)
    ensures
        ({
            let d = device_key_of(rec);
            let b = rec.key_uv@;
            &&& d.key == rec.device_key
            &&& d.uv == b[0] * 0x100_0000 + b[1] * 0x1_0000 + b[2] * 0x100 + b[3]
            &&& d.u_mask_zero_bits == rec.key_u_mask_shift
            &&& d.v_mask_zero_bits == d.uv.trailing_zeros()
            &&& row_opens(mkb, record_row(rec), volume_id) == device_volume_key(
                mkb,
                d.key@,
                d.uv,
                d.u_mask_zero_bits,
                d.v_mask_zero_bits,
                volume_id,
            )
        }),
{
    broadcast use vstd::std_specs::bits::axiom_u32_trailing_zeros;

    lemma_n32(rec.key_uv@, 0);
}

// ---------------------------------------------------------------------
// The units of a disc
// ---------------------------------------------------------------------

/// The units of a disc are numbered from 1, in the order of their keys.
pub proof fn lemma_units_numbered(keys: Seq<[u8; 16]>, i: int)
    requires
        0 <= i < keys.len() <= 0xFFFF,
    ensures
        units_of_keys(keys).len() == keys.len(),
        units_of_keys(keys)[i].id == i + 1,
        units_of_keys(keys)[i].encrypted_title_key == keys[i],
        units_of_keys(keys)[i].title_key is None,
{
}

/// The key of a unit is the first with its number.
pub proof fn lemma_unit_key(keys: Seq<(u16, [u8; 16])>, id: u16)
    ensures
        key_for(keys, id) is None ==> forall|j: int|
            0 <= j < keys.len() ==> (#[trigger] keys[j]).0 != id,
        key_for(keys, id) matches Some(key) ==> exists|k: int|
            0 <= k < keys.len() && (#[trigger] keys[k]) == (id, key) && forall|j: int|
                0 <= j < k ==> (#[trigger] keys[j]).0 != id,
    decreases keys.len(),
{
    if keys.len() > 0 && keys[0].0 != id {
        let rest = keys.skip(1);
        lemma_unit_key(rest, id);
        match key_for(keys, id) {
            None => {
                assert forall|j: int| 0 <= j < keys.len() implies (#[trigger] keys[j]).0 != id by {
                    if j > 0 {
                        assert(rest[j - 1] == keys[j]);
                    }
                }
            },
            Some(key) => {
                let k = choose|k: int|
                    0 <= k < rest.len() && (#[trigger] rest[k]) == (id, key) && forall|j: int|
                        0 <= j < k ==> (#[trigger] rest[j]).0 != id;
                assert(keys[k + 1] == (id, key));
                assert forall|j: int| 0 <= j < k + 1 implies (#[trigger] keys[j]).0 != id by {
                    if j > 0 {
                        assert(rest[j - 1] == keys[j]);
                    }
                }
            },
        }
    } else if keys.len() > 0 {
        assert(keys[0] == (id, keys[0].1));
    }
}

/// An entry with unit keys gives a unit its own, or none; one without gives it
/// the key on the disc, decrypted with the volume key.
pub proof fn lemma_given_key(cps: CpsUnit, e: EntryModel)
    ensures
        e.unit_keys.len() == 0 ==> given_key(cps, e) == Some(
            aes_128d(e.vuk, cps.encrypted_title_key@),
        ),
        e.unit_keys.len() > 0 ==> (given_key(cps, e) is None <==> key_for(e.unit_keys, cps.id)
            is None),
        e.unit_keys.len() > 0 ==> (key_for(e.unit_keys, cps.id) matches Some(k) ==> given_key(
            cps,
            e,
        ) == Some(k@)),
{
}

/// A decrypted unit is known by its packets: in each of the 32 packets of 192
/// bytes the fifth byte is 0x47.
pub proof fn lemma_unit_known(unit: Seq<u8>)
    requires
        unit.len() == 32 * 192,
    ensures
        is_bdav_ts(unit) <==> forall|n: int|
            0 <= n < 32 ==> #[trigger] unit.subrange(192 * n, 192 * n + 192)[4] == 0x47,
{
    assert forall|n: int| 0 <= n < 32 implies #[trigger] unit.subrange(192 * n, 192 * n + 192)[4]
        == unit[n * 192 + 4] by {}
    if is_bdav_ts(unit) {
        assert forall|n: int| 0 <= n < 32 implies #[trigger] unit.subrange(
            192 * n,
            192 * n + 192,
        )[4] == 0x47 by {
            assert(unit[n * 192 + 4] == 0x47);
        }
    }
    if forall|n: int|
        0 <= n < 32 ==> #[trigger] unit.subrange(192 * n, 192 * n + 192)[4] == 0x47 {
        assert forall|i: int| 0 <= i < 32 implies #[trigger] unit[i * 192 + 4] == 0x47 by {
            assert(unit.subrange(192 * i, 192 * i + 192)[4] == 0x47);
        }
    }
}

/// A decryptor takes whole units of 6144 bytes, with the key of the disc's
/// first unit.
pub proof fn lemma_taken(units: Seq<CpsUnit>, n: nat, r: nat)
    requires
        0 < r < 32 * 192,
    ensures
        !can_decrypt(units, n * 6144 + r),
        units.len() > 0 ==> can_decrypt(units, 0),
        units.len() > 0 && n > 0 ==> (can_decrypt(units, n * 6144) <==> units[0].title_key is Some),
        units.len() == 0 ==> !can_decrypt(units, n * 6144),
{
    assert((n * 6144 + r) % 6144 == r && (n * 6144) % 6144 == 0) by (nonlinear_arith)
        requires
            0 < r < 6144,
    ;
}

// ---------------------------------------------------------------------
// Media key blocks
// ---------------------------------------------------------------------

/// A list of revoked devices is looked through group by group: a count in four
/// bytes, the first counting most, entries of eight bytes, a signature of
/// forty. A group whose entries run past the list ends it, and may end at any
/// place that 32 bits hold.
pub proof fn lemma_group(p: Seq<u8>, at: int)
    requires
        0 <= at,
    ensures
        ({
            let end = at + 4 + 8 * n32(p, at);
            &&& at + 4 > p.len() ==> list_counts_fit(p, at)
            &&& at + 4 <= p.len() && end > p.len() ==> (list_counts_fit(p, at) <==> end
                < 0x1_0000_0000)
            &&& at + 4 <= p.len() && end + 40 <= p.len() ==> (list_counts_fit(p, at)
                <==> list_counts_fit(p, end + 40))
            &&& at + 4 <= p.len() && end <= p.len() < end + 40 ==> list_counts_fit(p, at)
        }),
{
    lemma_n32(p, at);
    reveal_with_fuel(list_counts_fit, 2);
}

/// A block is looked through record by record: a type in its first byte, its
/// length in the next three, the first counting most. Records 0x20 and 0x21 hold
/// a total in four bytes and then groups; others are passed over. What is too
/// short to be a record ends the block.
pub proof fn lemma_record(b: Seq<u8>, at: int)
    requires
        0 <= at,
    ensures
        ({
            let len = n24(b, at + 1);
            &&& at + 4 > b.len() ==> counts_fit_from(b, at)
            &&& at + 4 <= b.len() && (len < 4 || at + len > b.len()) ==> counts_fit_from(b, at)
            &&& at + 4 <= b.len() && 4 <= len && at + len <= b.len() ==> (counts_fit_from(b, at)
                <==> counts_fit_from(b, at + len) && (b[at] == 0x20 || b[at] == 0x21
                ==> list_counts_fit(b.subrange(at + 4, at + len), 4)))
        }),
{
    lemma_numbers(b, at + 1);
}

// ---------------------------------------------------------------------
// Places
// ---------------------------------------------------------------------

/// Directories with colons between them.
pub open spec fn with_colons(dirs: Seq<Seq<char>>) -> Seq<char>
    decreases dirs.len(),
{
    if dirs.len() == 0 {
        Seq::empty()
    } else if dirs.len() == 1 {
        dirs[0]
    } else {
        with_colons(dirs.drop_last()) + seq![':'] + dirs.last()
    }
}

proof fn lemma_split_prefix(a: Seq<char>, b: Seq<char>, n: nat)
    requires
        n <= a.len(),
    ensures
        split_dirs(a + b, n) == split_dirs(a, n),
    decreases n,
{
    if n > 0 {
        lemma_split_prefix(a, b, (n - 1) as nat);
    }
}

proof fn lemma_split_word(a: Seq<char>, b: Seq<char>, n: nat)
    requires
        n <= b.len(),
        forall|i: int| 0 <= i < b.len() ==> #[trigger] b[i] != ':',
    ensures
        split_dirs(a + b, a.len() + n) == (
            split_dirs(a, a.len()).0,
            split_dirs(a, a.len()).1 + b.take(n as int),
        ),
    decreases n,
{
    if n == 0 {
        lemma_split_prefix(a, b, a.len());
        assert(b.take(0) =~= Seq::<char>::empty());
        assert(split_dirs(a, a.len()).1 + b.take(0) =~= split_dirs(a, a.len()).1);
    } else {
        lemma_split_word(a, b, (n - 1) as nat);
        assert((a + b)[a.len() + n - 1] == b[n - 1]);
        assert(split_dirs(a, a.len()).1 + b.take(n as int) =~= (split_dirs(a, a.len()).1 + b.take(
            n - 1,
        )).push(b[n - 1]));
        assert((a.len() + n - 1) as nat == a.len() + (n - 1) as nat);
    }
}

proof fn lemma_split_joined(dirs: Seq<Seq<char>>)
    requires
        dirs.len() > 0,
        forall|k: int| 0 <= k < dirs.len() ==> (#[trigger] dirs[k]).len() > 0,
        forall|k: int, i: int|
            0 <= k < dirs.len() && 0 <= i < dirs[k].len() ==> #[trigger] dirs[k][i] != ':',
    ensures
        split_dirs(with_colons(dirs), with_colons(dirs).len()) == (dirs.drop_last(), dirs.last()),
    decreases dirs.len(),
{
    let last = dirs.last();
    assert(last == dirs[dirs.len() - 1]);
    if dirs.len() == 1 {
        let none = Seq::<char>::empty();
        lemma_split_word(none, last, last.len());
        assert(none + last =~= last);
        assert(none + last.take(last.len() as int) =~= last);
        assert(dirs.drop_last() =~= Seq::<Seq<char>>::empty());
    } else {
        let front = dirs.drop_last();
        assert forall|k: int| 0 <= k < front.len() implies (#[trigger] front[k]).len() > 0 by {
            assert(front[k] == dirs[k]);
        }
        assert forall|k: int, i: int|
            0 <= k < front.len() && 0 <= i < front[k].len() implies #[trigger] front[k][i]
            != ':' by {
            assert(dirs[k][i] != ':');
        }
        lemma_split_joined(front);
        let a = with_colons(front);
        let b = a + seq![':'];
        lemma_split_prefix(a, seq![':'], a.len());
        assert(b[a.len() as int] == ':');
        assert(front.last() == dirs[dirs.len() - 2]);
        assert(split_dirs(b, b.len()) == (front.drop_last().push(front.last()), Seq::<char>::empty()));
        assert(front.drop_last().push(front.last()) =~= front);
        lemma_split_word(b, last, last.len());
        assert(Seq::<char>::empty() + last.take(last.len() as int) =~= last);
    }
}

/// Directories with colons between them are those directories.
pub proof fn lemma_directories(dirs: Seq<Seq<char>>)
    requires
        forall|k: int| 0 <= k < dirs.len() ==> (#[trigger] dirs[k]).len() > 0,
        forall|k: int, i: int|
            0 <= k < dirs.len() && 0 <= i < dirs[k].len() ==> #[trigger] dirs[k][i] != ':',
    ensures
        dirs_of(with_colons(dirs)) == dirs,
{
    if dirs.len() > 0 {
        lemma_split_joined(dirs);
        assert(dirs.last() == dirs[dirs.len() - 1]);
        assert(dirs.drop_last().push(dirs.last()) =~= dirs);
    } else {
        assert(dirs_of(with_colons(dirs)) =~= dirs);
    }
}

/// The key file is looked for where the user says; on a Mac then in the user's
/// library; then below the directory for configuration, below the directories
/// for configuration of the system in their order, and below the home directory
/// at last. What is not known is passed over.
pub proof fn lemma_key_file_places(e: SearchEnv, dirs: Seq<Seq<char>>, k: int)
    requires
        dirs == (if e.config_dirs is Some {
            dirs_of(e.config_dirs->0@)
        } else {
            Seq::empty()
        }),
        0 <= k,
    ensures
        ({
            let p = keydb_places(e);
            let a: int = if e.keydb is Some {
                1
            } else {
                0
            };
            let b: int = if e.macos && e.home is Some {
                a + 1
            } else {
                a
            };
            let c: int = if e.config_home is Some {
                b + 1
            } else {
                b
            };
            let d = c + dirs.len();
            &&& e.keydb is Some ==> p[0] == (e.keydb->0@, ""@)
            &&& e.macos && e.home is Some ==> p[a] == (
                e.home->0@,
                "Library/Preferences/aacs/KEYDB.cfg"@,
            )
            &&& e.config_home is Some ==> p[b] == (e.config_home->0@, "aacs/KEYDB.cfg"@)
            &&& k < dirs.len() ==> p[c + k] == (dirs[k], "aacs/KEYDB.cfg"@)
            &&& e.home is Some ==> p[d] == (e.home->0@, ".config/aacs/KEYDB.cfg"@) && p.len() == d
                + 1
            &&& e.home is None ==> p.len() == d
        }),
{
}

/// The cache lies where the user says, else below the cache directory, else
/// below the home directory.
pub proof fn lemma_cache_lies(e: SearchEnv)
    ensures
        e.cache matches Some(p) ==> cache_model(e) == (p@, ""@),
        e.cache is None ==> (e.cache_home matches Some(p) ==> cache_model(e) == (
            p@,
            "oxideav/vuk-cache.cfg"@,
        )),
        e.cache is None && e.cache_home is None ==> (e.home matches Some(p) ==> cache_model(e) == (
            p@,
            ".cache/oxideav/vuk-cache.cfg"@,
        )),
        e.cache is None && e.cache_home is None && e.home is None ==> cache_model(e) == (
            ".oxideav-cache"@,
            "oxideav/vuk-cache.cfg"@,
        ),
{
}

// ---------------------------------------------------------------------
// Lines
// ---------------------------------------------------------------------

/// A line about a disc: its identifier in 40 digits, its volume key in 32, and
/// a note.
pub proof fn lemma_key_line(disc_id: Seq<u8>, vuk: Seq<u8>, note: Seq<char>)
    requires
        disc_id.len() == 20,
        vuk.len() == 16,
    ensures
        ({
            let t = key_line_text(disc_id, vuk, note);
            &&& t.len() == 80 + note.len()
            &&& t.take(40) == hex_bytes(disc_id)
            &&& t.subrange(40, 45) == " = V "@
            &&& t.subrange(45, 77) == hex_bytes(vuk)
            &&& t.subrange(77, 80) == " | "@
            &&& t.skip(80) == note
        }),
{
    reveal_strlit(" = V ");
    reveal_strlit(" | ");
    lemma_two_a_byte(disc_id);
    lemma_two_a_byte(vuk);
    let t = key_line_text(disc_id, vuk, note);
    assert(t.take(40) =~= hex_bytes(disc_id));
    assert(t.subrange(40, 45) =~= " = V "@);
    assert(t.subrange(45, 77) =~= hex_bytes(vuk));
    assert(t.subrange(77, 80) =~= " | "@);
    assert(t.skip(80) =~= note);
}

proof fn lemma_two_a_byte(s: Seq<u8>)
    ensures
        hex_bytes(s).len() == 2 * s.len(),
    decreases s.len(),
{
    if s.len() > 0 {
        lemma_two_a_byte(s.drop_last());
    }
}

proof fn lemma_width(c: char)
    ensures
        width(c) == encode_scalar(c as u32).len(),
{
}

/// A text takes as many bytes as its encoding has.
pub proof fn lemma_bytes_of_text(s: Seq<char>)
    ensures
        byte_len(s) == encode_utf8(s).len(),
    decreases s.len(),
{
    if s.len() > 0 {
        assert(s.skip(1) =~= s.drop_first());
        lemma_width(s[0]);
        lemma_bytes_of_text(s.skip(1));
    }
}

/// Reading two bytes at a time: two digits are passed over; a character of two
/// bytes, or two of one byte that spell none, end the reading; a longer one, or
/// one behind a single byte, is cut.
pub proof fn lemma_cut(a: char, b: char, t: Seq<char>)
    ensures
        is_hex(a) && is_hex(b) ==> cut_by_pairs(seq![a, b] + t) == cut_by_pairs(t),
        (a as int) < 0x80 && (b as int) < 0x80 && !is_hex(b) ==> !cut_by_pairs(seq![a, b] + t),
        (a as int) < 0x80 && b as int >= 0x80 ==> cut_by_pairs(seq![a, b] + t),
        0x80 <= a as int && (a as int) < 0x800 ==> !cut_by_pairs(seq![a] + t),
        a as int >= 0x800 ==> cut_by_pairs(seq![a] + t),
        !cut_by_pairs(Seq::<char>::empty()),
{
    assert((seq![a, b] + t).skip(2) =~= t);
    assert((seq![a, b] + t)[0] == a && (seq![a, b] + t)[1] == b);
    assert((seq![a] + t)[0] == a);
}

/// The records of a key file are its lines that begin with `|`, behind white
/// space; all other lines are dropped.
pub proof fn lemma_records(l: Seq<char>, rest: Seq<char>, blank_part: Seq<char>, t: Seq<char>)
    requires
        l == blank_part + t,
        blank(blank_part),
        t.len() == 0 || !is_space(t[0]),
        forall|i: int| 0 <= i < l.len() ==> #[trigger] l[i] != '\n',
    ensures
        t.len() > 0 && t[0] == '|' ==> records_of(l + seq!['\n'] + rest) == l + seq!['\n']
            + records_of(rest),
        t.len() == 0 || t[0] != '|' ==> records_of(l + seq!['\n'] + rest) == records_of(rest),
{
    let s = l + seq!['\n'] + rest;
    let n = l.len() as int;
    lemma_place_of(s, '\n');
    assert(s[n] == '\n');
    let p = place_of(s, '\n') as int;
    if p < n {
        assert(s[p] == l[p]);
    }
    assert(p == n);
    assert(s.take(n) =~= l);
    assert(s.skip(n + 1) =~= rest);
    lemma_trim_start(l, blank_part, t);
    assert(l.push('\n') + records_of(rest) =~= l + seq!['\n'] + records_of(rest));
    assert(Seq::<char>::empty() + records_of(rest) =~= records_of(rest));
}

// ---------------------------------------------------------------------
// The steps of the search
// ---------------------------------------------------------------------

/// A place without a key leads to the next one, in the order of the search; the
/// last one ends it. A place with a key ends it there.
pub proof fn lemma_search_steps(disc_id: Seq<u8>, event: CascadeEvent, action: CascadeAction)
    requires
        follows(disc_id, event, action),
    ensures
        event matches CascadeEvent::Env(e) ==> (if e is None {
            action == CascadeAction::Try(ResolvedSource::Keydb)
        } else {
            action matches CascadeAction::Found(x) && x.source == ResolvedSource::EnvOverride
                && x.entry@ == e->0@
        }),
        event matches CascadeEvent::Keydb(line) ==> (if line_entry(line) is None {
            action == CascadeAction::Try(ResolvedSource::Cache)
        } else {
            action matches CascadeAction::Found(x) && x.source == ResolvedSource::Keydb
                && Some(x.entry@) == line_entry(line)
        }),
        event matches CascadeEvent::Cache(line) ==> (if line_entry(line) is None {
            action == CascadeAction::Try(ResolvedSource::Online)
        } else {
            action matches CascadeAction::Found(x) && x.source == ResolvedSource::Cache
                && Some(x.entry@) == line_entry(line)
        }),
        event matches CascadeEvent::Online(vuk) ==> (if vuk is None {
            action is Exhausted
        } else {
            action matches CascadeAction::Found(x) && x.source == ResolvedSource::Online
                && x.entry@.vuk == vuk->0@ && x.entry@.disc_id == disc_id
        }),
{
}

/// No volume key comes of a block with a count that is too large; else it is
/// that of the first device key that opens the block.
pub proof fn lemma_opened_with(mkb: Seq<u8>, rows: Seq<DeviceKeyRow>, volume_id: Seq<u8>)
    ensures
        counts_fit_from(mkb, 0) ==> opened_with(mkb, rows, volume_id) == first_opened(
            mkb,
            rows,
            volume_id,
            0,
        ),
        !counts_fit_from(mkb, 0) ==> opened_with(mkb, rows, volume_id) is None,
{
}

/// The key of a disc is looked for under the digest of its unit key file; the
/// disc itself gives one only with the key file and the drive's identifier.
pub proof fn lemma_key_of_disc(unit_key_file: Seq<u8>, mkb: Seq<u8>, places: KeyPlaces)
    ensures
        places.keydb is None || places.volume_id is None ==> opened_online(mkb, places) is None,
        places.keydb is Some && places.volume_id is Some ==> opened_online(mkb, places)
            == opened_with(
            mkb,
            keydb_device_keys(records_of(places.keydb->0@)),
            places.volume_id->0@,
        ),
        ({
            let id = sha1_digest(unit_key_file);
            let drive_id = if places.volume_id is Some {
                Some(places.volume_id->0@)
            } else {
                None
            };
            key_in(unit_key_file, mkb, places) == search(
                id,
                env_entry(id, places.env, drive_id),
                places.keydb_line,
                places.cache_line,
                opened_online(mkb, places),
            )
        }),
{
}

/// A buffer that is not made of whole units is refused for its length, else a
/// disc without units for that, else a unit without a key for its number.
pub proof fn lemma_buffer_refused(units: Seq<CpsUnit>, len: nat)
    ensures
        len % 6144 != 0 ==> refusal_text(units, len) == "AacsDecryptor: buffer length "@ + dec_text(
            len,
        ) + " is not a multiple of 6144"@,
        len % 6144 == 0 && units.len() == 0 ==> refusal_text(units, len)
            == "AACS volume has no CPS Units"@,
        len % 6144 == 0 && units.len() > 0 ==> refusal_text(units, len)
            == "invalid CPS Unit title key (not yet unwrapped) value: "@ + dec_text(
            units[0].id as nat,
        ),
{
}

/// A clip's file is known by its name: `.m2ts` behind at least one character.
pub proof fn lemma_clip_file(stem: Seq<char>, name: Seq<char>)
    ensures
        stem.len() > 0 ==> is_clip_name(stem + ".m2ts"@),
        is_clip_name(name) ==> name.len() > 5 && name == name.take(name.len() - 5) + ".m2ts"@,
{
    reveal_strlit(".m2ts");
    assert((stem + ".m2ts"@).skip(stem.len() as int) =~= ".m2ts"@);
    if is_clip_name(name) {
        assert(name =~= name.take(name.len() - 5) + name.skip(name.len() - 5));
    }
}

/// A part of a line may begin with a flag, a letter before white space; its
/// value is what follows, without white space around it. Without a flag the
/// part itself is the value, under the flag before it.
pub proof fn lemma_flags(f: char, t: Seq<char>, before: char)
    ensures
        f == 'D' || f == 'I' || f == 'M' || f == 'U' || f == 'V' ==> {
            &&& flag_of(seq![f, ' '] + t, before) == f
            &&& value_of(seq![f, ' '] + t) == trim(seq![' '] + t)
        },
        f == 'd' || f == 'i' || f == 'm' || f == 'u' || f == 'v' ==> value_of(seq![f, ' '] + t)
            == trim(seq![' '] + t),
        t.len() > 1 && !is_space(t[1]) ==> flag_of(t, before) == before && value_of(t) == t,
{
    let s = seq![f, ' '] + t;
    assert(s[0] == f && s[1] == ' ');
    assert(s.skip(1) =~= seq![' '] + t);
}

/// A line names a disc by the digits of its identifier, in either case, behind
/// white space and with or without `0x`; what follows plays no part.
pub proof fn lemma_line_names(
    before: Seq<char>,
    digits: Seq<char>,
    rest: Seq<char>,
    disc_id: Seq<u8>,
)
    requires
        blank(before),
        digits.len() == 40,
        forall|i: int| 0 <= i < 40 ==> is_hex(#[trigger] digits[i]),
    ensures
        ({
            let same = forall|i: int|
                0 <= i < 40 ==> upper(#[trigger] digits[i]) == hex_bytes(disc_id)[i];
            &&& names_disc(before + (digits + rest), disc_id) <==> same
            &&& names_disc(before + (seq!['0', 'x'] + digits + rest), disc_id) <==> same
        }),
{
    let plain = digits + rest;
    let marked = seq!['0', 'x'] + digits + rest;
    assert(is_hex(digits[0]) && is_hex(digits[1]));
    lemma_trim_start(before + plain, before, plain);
    lemma_trim_start(before + marked, before, marked);
    assert(plain[0] == digits[0] && plain[1] == digits[1]);
    assert(marked[0] == '0' && marked[1] == 'x');
    assert(without_0x(plain) == plain);
    assert(marked.skip(2) =~= plain);
    assert forall|i: int| 0 <= i < 40 implies #[trigger] plain[i] == digits[i] by {}
    let same = forall|i: int|
        0 <= i < 40 ==> upper(#[trigger] digits[i]) == hex_bytes(disc_id)[i];
    if names_disc(before + plain, disc_id) {
        assert forall|i: int| 0 <= i < 40 implies upper(#[trigger] digits[i]) == hex_bytes(
            disc_id,
        )[i] by {
            assert(upper(plain[i]) == hex_bytes(disc_id)[i]);
        }
    }
    if names_disc(before + marked, disc_id) {
        assert forall|i: int| 0 <= i < 40 implies upper(#[trigger] digits[i]) == hex_bytes(
            disc_id,
        )[i] by {
            assert(upper(plain[i]) == hex_bytes(disc_id)[i]);
        }
    }
    if same {
        assert forall|i: int| 0 <= i < 40 implies upper(#[trigger] plain[i]) == hex_bytes(
            disc_id,
        )[i] by {
            assert(upper(digits[i]) == hex_bytes(disc_id)[i]);
        }
    }
}

} // verus!
