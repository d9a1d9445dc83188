//! Lines of the key file and of the local cache, which share one form:
//!
//! ```text
//! <disc identifier, 40 digits> = V <volume key, 32 digits> | <note>
//! ```
use vstd::prelude::*;
use vstd::string::*;

use oxideav_aacs::KeyDb;

use crate::aacs_adapter::key_text::{
    is_ascii, is_readable, lemma_ascii_is_readable, lemma_records_only, only_records, readable_text,
    record_lines, records_of,
};
use crate::aacs_adapter::keys::DeviceKeyRecord;
use crate::scan::{
    ascii_upper, chars_of, end_of_text, hex16_bytes, is_hex16, is_space, read_hex16, start_of_text,
    trim, trim_start, upper, without_0x,
};
use crate::text::{hex_bytes, hex_char, push_hex_bytes};

verus! {

/// What a line of the key file says of a disc.
#[derive(Debug, Clone, PartialEq, Eq)]
pub struct KeyDbEntry {
    pub disc_id: [u8; 20],
    /// The volume key.
    pub vuk: [u8; 16],
    pub label: Option<String>,
    /// Unit keys by number, where the line gives them.
    pub unit_keys: Vec<(u16, [u8; 16])>,
}

/// Model of [`KeyDbEntry`].
#[verifier::ext_equal]
pub struct EntryModel {
    pub disc_id: Seq<u8>,
    pub vuk: Seq<u8>,
    pub label: Option<Seq<char>>,
    pub unit_keys: Seq<(u16, [u8; 16])>,
}

pub open spec fn text_model(t: Option<String>) -> Option<Seq<char>> {
    match t {
        Some(s) => Some(s@),
        None => None,
    }
}

impl View for KeyDbEntry {
    type V = EntryModel;

    open spec fn view(&self) -> EntryModel {
        EntryModel {
            disc_id: self.disc_id@,
            vuk: self.vuk@,
            label: text_model(self.label),
            unit_keys: self.unit_keys@,
        }
    }
}

pub open spec fn entry_model(e: Option<KeyDbEntry>) -> Option<EntryModel> {
    match e {
        Some(x) => Some(x@),
        None => None,
    }
}

/// The text of a line.
pub open spec fn key_line_text(disc_id: Seq<u8>, vuk: Seq<u8>, note: Seq<char>) -> Seq<char> {
    hex_bytes(disc_id) + " = V "@ + hex_bytes(vuk) + " | "@ + note
}

/// Whether a note is a single word of printable ASCII characters that mean
/// nothing in the key file.
pub open spec fn is_plain_note(note: Seq<char>) -> bool {
    &&& note.len() >= 2
    &&& forall|i: int|
        0 <= i < note.len() ==> 0x21 <= (#[trigger] note[i]) as u32 <= 0x7E && note[i] != '|'
            && note[i] != ';'
}

// ---------------------------------------------------------------------
// Outside functions
// ---------------------------------------------------------------------

/// The first per-disc entry of what `oxideav_aacs::KeyDb::parse` makes of a
/// text: disc identifier, volume key, label, unit keys.
pub uninterp spec fn keydb_first_entry(text: Seq<char>) -> Option<
    (Seq<u8>, Seq<u8>, Option<Seq<char>>, Seq<(u16, [u8; 16])>),
>;

/// The entry as a model.
pub open spec fn first_entry_model(text: Seq<char>) -> Option<EntryModel> {
    match keydb_first_entry(text) {
        Some((disc_id, vuk, label, unit_keys)) => Some(
            EntryModel { disc_id, vuk, label, unit_keys },
        ),
        None => None,
    }
}

/// The first per-disc entry of a key file's text.
///
/// Calls `KeyDb::parse` and `KeyDb::entries` of `oxideav_aacs`. The entry
/// depends on the text alone. A line of the form above, with a plain note,
/// gives back the identifier and the key that it was written with; the note
/// becomes the label.
///
/// `KeyDb::parse` slices an identifier of 40 bytes and a key of 32 at every
/// second byte and panics where that is inside of a character. Texts on which
/// this happens are left out.
#[verifier::external_body]
pub(crate) fn first_keydb_entry(text: &str) -> (r: Option<KeyDbEntry>)
    requires
        readable_text(text@),
    ensures
        match r {
            Some(e) => keydb_first_entry(text@) == Some(
                (e.disc_id@, e.vuk@, text_model(e.label), e.unit_keys@),
            ),
            None => keydb_first_entry(text@) is None,
        },
        forall|disc_id: Seq<u8>, vuk: Seq<u8>, note: Seq<char>|
            disc_id.len() == 20 && vuk.len() == 16 && is_plain_note(note) && text@
                == #[trigger] key_line_text(disc_id, vuk, note) ==> entry_model(r) == Some(
                EntryModel { disc_id, vuk, label: Some(note), unit_keys: Seq::empty() },
            ),
{
    let keydb = KeyDb::parse(text).ok()?;
    let e = keydb.entries().next()?;
    Some(KeyDbEntry {
        disc_id: e.disc_id,
        vuk: *e.vuk.as_bytes(),
        label: e.label.clone(),
        unit_keys: e.unit_keys.clone(),
    })
}

/// A device key as the key file gives it: key, node, uv number, mask shift,
/// comment.
pub type DeviceKeyRow = (Seq<u8>, Seq<u8>, Seq<u8>, u8, Option<Seq<char>>);

/// The device keys that `oxideav_aacs::KeyDb::parse` finds in a text.
pub uninterp spec fn keydb_device_keys(text: Seq<char>) -> Seq<
    (Seq<u8>, Seq<u8>, Seq<u8>, u8, Option<Seq<char>>),
>;

/// A record as the key file gives it.
pub open spec fn record_row(r: DeviceKeyRecord) -> DeviceKeyRow {
    (r.device_key@, r.device_node@, r.key_uv@, r.key_u_mask_shift, text_model(r.comment))
}

/// Records as the key file gives them.
pub open spec fn record_rows(v: Seq<DeviceKeyRecord>) -> Seq<DeviceKeyRow> {
    v.map_values(|x: DeviceKeyRecord| record_row(x))
}

/// The device keys of a key file's text, in order.
///
/// Calls `KeyDb::parse` and `KeyDb::device_keys` of `oxideav_aacs`. The keys
/// depend on the text alone. The text holds records and comments only:
/// `KeyDb::parse` reads them byte by byte, where it slices other lines and may
/// panic.
#[verifier::external_body]
pub(crate) fn read_device_keys(text: &str) -> (r: Vec<DeviceKeyRecord>)
    requires
        only_records(text@),
    ensures
        record_rows(r@) == keydb_device_keys(text@),
{
    let Ok(keydb) = KeyDb::parse(text) else {
        return Vec::new();
    };
    keydb.device_keys().iter().map(|k| DeviceKeyRecord {
        device_key: k.device_key,
        device_node: k.device_node,
        key_uv: k.key_uv,
        key_u_mask_shift: k.key_u_mask_shift,
        comment: k.comment.clone(),
    }).collect()
}

// ---------------------------------------------------------------------
// Reading
// ---------------------------------------------------------------------

/// What a line says of its disc, or `None` where it is no such line or cannot
/// be taken apart.
pub open spec fn line_model(line: Seq<char>) -> Option<EntryModel> {
    if readable_text(line) {
        first_entry_model(line)
    } else {
        None
    }
}

/// What a line says of its disc, or `None` where it is no such line or cannot
/// be taken apart. A line that [`key_line`] wrote with a plain note reads back.
pub fn parse_single_keydb_line(line: &str) -> (r: Option<KeyDbEntry>)
    ensures
        entry_model(r) == line_model(line@),
        forall|disc_id: Seq<u8>, vuk: Seq<u8>, note: Seq<char>|
            disc_id.len() == 20 && vuk.len() == 16 && is_plain_note(note) && line@
                == #[trigger] key_line_text(disc_id, vuk, note) ==> entry_model(r) == Some(
                EntryModel { disc_id, vuk, label: Some(note), unit_keys: Seq::empty() },
            ),
{
    if !is_readable(line) {
        assert forall|disc_id: Seq<u8>, vuk: Seq<u8>, note: Seq<char>|
            is_plain_note(note) implies line@ != #[trigger] key_line_text(disc_id, vuk, note) by {
            lemma_written_line_is_readable(disc_id, vuk, note);
        }
        return None;
    }
    first_keydb_entry(line)
}

/// The device keys of a key file, which stand in its records.
pub fn device_keys_of(text: &str) -> (r: Vec<DeviceKeyRecord>)
    ensures
        record_rows(r@) == keydb_device_keys(records_of(text@)),
{
    let records = record_lines(text);
    proof {
        lemma_records_only(text@);
    }
    read_device_keys(records.as_str())
}

/// Whether a line begins with the identifier of a disc: after white space and
/// `0x`, its 40 digits in either case.
pub open spec fn names_disc(line: Seq<char>, disc_id: Seq<u8>) -> bool {
    let lead = without_0x(trim_start(line));
    &&& lead.len() >= 40
    &&& forall|i: int| 0 <= i < 40 ==> upper(#[trigger] lead[i]) == hex_bytes(disc_id)[i]
}

/// Whether a line of the key file is about a disc. Blank lines and comments
/// never are.
pub fn line_names_disc(line: &str, disc_id: &[u8; 20]) -> (r: bool)
    ensures
        r == names_disc(line@, disc_id@),
{
    let chars = chars_of(line);
    let target = hex_id(disc_id);
    let digits = chars_of(target.as_str());
    proof {
        lemma_hex_bytes_len(disc_id@);
    }
    let start: usize = start_of_text(&chars);
    let from: usize = if chars.len() - start >= 2 && chars[start] == '0' && (chars[start + 1] == 'x'
        || chars[start + 1] == 'X') {
        start + 2
    } else {
        start
    };
    let ghost lead = without_0x(trim_start(line@));
    assert(lead =~= chars@.skip(from as int));
    let total: usize = chars.len();
    if total - from < 40 {
        return false;
    }
    let mut i: usize = 0;
    while i < 40
        invariant
            i <= 40,
            total == chars@.len(),
            from + 40 <= total,
            lead == chars@.skip(from as int),
            digits@ == hex_bytes(disc_id@),
            digits@.len() == 40,
            lead == without_0x(trim_start(line@)),
            forall|k: int| 0 <= k < i ==> upper(#[trigger] lead[k]) == hex_bytes(disc_id@)[k],
        decreases 40 - i,
    {
        assert(lead[i as int] == chars@[from + i]);
        if ascii_upper(chars[from + i]) != digits[i] {
            return false;
        }
        i += 1;
    }
    true
}

/// The 16 bytes of a value that the user supplied: 32 hexadecimal digits with
/// white space around them and `0x` before them tolerated.
pub fn parse_hex16_env(value: &str) -> (r: Option<[u8; 16]>)
    ensures
        match r {
            Some(v) => is_hex16(without_0x(trim(value@))) && v@ == hex16_bytes(
                without_0x(trim(value@)),
            ),
            None => !is_hex16(without_0x(trim(value@))),
        },
{
    let chars = chars_of(value);
    let from: usize = start_of_text(&chars);
    let to: usize = end_of_text(&chars, from);
    read_hex16(&chars, from, to)
}

// ---------------------------------------------------------------------
// Writing
// ---------------------------------------------------------------------

/// The identifier of a disc in 40 digits.
pub fn hex_id(id: &[u8; 20]) -> (r: String)
    ensures
        r@ == hex_bytes(id@),
{
    let mut s = String::new();
    push_hex_bytes(&mut s, vstd::array::array_as_slice(id));
    assert(s@ =~= hex_bytes(id@));
    s
}

/// A line for the cache: where the key came from and when it was found make
/// up the note.
pub fn key_line(disc_id: &[u8; 20], vuk: &[u8; 16], provenance: &str, stamp: &str) -> (r: String)
    ensures
        r@ == key_line_text(disc_id@, vuk@, provenance@ + "-"@ + stamp@),
{
    let mut s = String::new();
    push_hex_bytes(&mut s, vstd::array::array_as_slice(disc_id));
    s.append(" = V ");
    push_hex_bytes(&mut s, vstd::array::array_as_slice(vuk));
    s.append(" | ");
    s.append(provenance);
    s.append("-");
    s.append(stamp);
    assert(s@ =~= key_line_text(disc_id@, vuk@, provenance@ + "-"@ + stamp@));
    s
}

// ---------------------------------------------------------------------
// Laws
// ---------------------------------------------------------------------

proof fn lemma_hex_bytes_len(s: Seq<u8>)
    ensures
        hex_bytes(s).len() == 2 * s.len(),
    decreases s.len(),
{
    if s.len() > 0 {
        lemma_hex_bytes_len(s.drop_last());
    }
}

proof fn lemma_hex_bytes_upper(s: Seq<u8>, i: int)
    requires
        0 <= i < 2 * s.len(),
    ensures
        hex_bytes(s).len() == 2 * s.len(),
        upper(hex_bytes(s)[i]) == hex_bytes(s)[i],
        !is_space(hex_bytes(s)[i]),
        hex_bytes(s)[i] != 'x',
        hex_bytes(s)[i] != 'X',
    decreases s.len(),
{
    lemma_hex_bytes_len(s);
    let t = s.drop_last();
    lemma_hex_bytes_len(t);
    if i < 2 * t.len() {
        lemma_hex_bytes_upper(t, i);
    }
}

proof fn lemma_hex_bytes_ascii(s: Seq<u8>)
    ensures
        is_ascii(hex_bytes(s)),
    decreases s.len(),
{
    if s.len() > 0 {
        lemma_hex_bytes_ascii(s.drop_last());
    }
}

/// A line that was written with a plain note can be taken apart.
pub proof fn lemma_written_line_is_readable(disc_id: Seq<u8>, vuk: Seq<u8>, note: Seq<char>)
    requires
        is_plain_note(note),
    ensures
        readable_text(key_line_text(disc_id, vuk, note)),
{
    reveal_strlit(" = V ");
    reveal_strlit(" | ");
    lemma_hex_bytes_ascii(disc_id);
    lemma_hex_bytes_ascii(vuk);
    lemma_ascii_is_readable(key_line_text(disc_id, vuk, note));
}

/// A line that was written for a disc is found again under its identifier,
/// whatever the key and the note.
pub proof fn lemma_written_line_is_found(disc_id: Seq<u8>, vuk: Seq<u8>, note: Seq<char>)
    requires
        disc_id.len() == 20,
    ensures
        names_disc(key_line_text(disc_id, vuk, note), disc_id),
{
    let line = key_line_text(disc_id, vuk, note);
    lemma_hex_bytes_upper(disc_id, 0);
    lemma_hex_bytes_upper(disc_id, 1);
    assert(line[0] == hex_bytes(disc_id)[0]);
    assert(line[1] == hex_bytes(disc_id)[1]);
    assert(trim_start(line) == line);
    assert(without_0x(line) == line);
    assert forall|i: int| 0 <= i < 40 implies upper(#[trigger] line[i]) == hex_bytes(
        disc_id,
    )[i] by {
        lemma_hex_bytes_upper(disc_id, i);
        assert(line[i] == hex_bytes(disc_id)[i]);
    }
}

/// A line is about one disc only.
pub proof fn lemma_line_names_one_disc(line: Seq<char>, a: Seq<u8>, b: Seq<u8>)
    requires
        a.len() == 20,
        b.len() == 20,
        names_disc(line, a),
        names_disc(line, b),
    ensures
        a == b,
{
    lemma_hex_bytes_len(a);
    lemma_hex_bytes_len(b);
    let lead = without_0x(trim_start(line));
    assert forall|i: int| 0 <= i < 40 implies #[trigger] hex_bytes(a)[i] == hex_bytes(b)[i] by {
        assert(upper(lead[i]) == hex_bytes(a)[i]);
        assert(upper(lead[i]) == hex_bytes(b)[i]);
    }
    assert(hex_bytes(a) =~= hex_bytes(b));
    lemma_hex_bytes_injective(a, b);
}

proof fn lemma_hex_bytes_injective(a: Seq<u8>, b: Seq<u8>)
    requires
        a.len() == b.len(),
        hex_bytes(a) == hex_bytes(b),
    ensures
        a == b,
    decreases a.len(),
{
    if a.len() == 0 {
        assert(a =~= b);
    } else {
        let s = a.drop_last();
        let t = b.drop_last();
        lemma_hex_bytes_len(s);
        lemma_hex_bytes_len(t);
        let n = 2 * s.len() as int;
        assert(hex_bytes(a).take(n) =~= hex_bytes(s));
        assert(hex_bytes(b).take(n) =~= hex_bytes(t));
        lemma_hex_bytes_injective(s, t);
        let x = a.last();
        let y = b.last();
        assert(hex_bytes(a)[n] == hex_char((x / 16) as int));
        assert(hex_bytes(b)[n] == hex_char((y / 16) as int));
        assert(hex_bytes(a)[n + 1] == hex_char((x % 16) as int));
        assert(hex_bytes(b)[n + 1] == hex_char((y % 16) as int));
        assert(x == y);
        assert(a =~= s.push(x));
        assert(b =~= t.push(y));
    }
}

/// A model holds what the fields hold.
pub proof fn lemma_models_hold_fields(key_db_entry: KeyDbEntry)
    ensures
        key_db_entry@.disc_id == key_db_entry.disc_id@,
        key_db_entry@.vuk == key_db_entry.vuk@,
        key_db_entry.label is None <==> key_db_entry@.label is None,
        key_db_entry.label matches Some(x) ==> key_db_entry@.label == Some(x@),
        key_db_entry@.unit_keys == key_db_entry.unit_keys@,
{
}

} // verus!
