//! Lines about discs: finding them in the key file and in the cache, and
//! adding to the cache.
use vstd::prelude::*;

use crate::aacs_adapter::key_line::{
    is_plain_note, key_line, key_line_text, lemma_line_names_one_disc, lemma_written_line_is_found,
    line_names_disc, names_disc,
};
use crate::aacs_adapter::places::texts;
use crate::date::{rfc3339, rfc3339_text, seconds_to, valid_civil, Civil, LAST_DAY};
use crate::text::{dec_text, padded};

verus! {

/// The first line from `i` on that names a disc.
pub open spec fn naming_from(lines: Seq<Seq<char>>, disc_id: Seq<u8>, i: int) -> Option<int>
    decreases lines.len() - i,
{
    if i >= lines.len() {
        None
    } else if names_disc(lines[i], disc_id) {
        Some(i)
    } else {
        naming_from(lines, disc_id, i + 1)
    }
}

/// The first line that names a disc.
pub fn scan_keydb_for_line(lines: &Vec<String>, disc_id: &[u8; 20]) -> (r: Option<usize>)
    ensures
        match r {
            Some(k) => k < lines@.len() && naming_from(texts(lines@), disc_id@, 0) == Some(
                k as int,
            ),
            None => naming_from(texts(lines@), disc_id@, 0) is None,
        },
{
    let mut i: usize = 0;
    while i < lines.len()
        invariant
            i <= lines@.len(),
            naming_from(texts(lines@), disc_id@, 0) == naming_from(
                texts(lines@),
                disc_id@,
                i as int,
            ),
        decreases lines@.len() - i,
    {
        assert(texts(lines@)[i as int] == lines@[i as int]@);
        if line_names_disc(lines[i].as_str(), disc_id) {
            return Some(i);
        }
        i += 1;
    }
    None
}

/// A line about a disc whose note says where the key came from and when.
pub open spec fn stamped_line(disc_id: Seq<u8>, vuk: Seq<u8>, provenance: Seq<char>, c: Civil) -> Seq<
    char,
> {
    key_line_text(disc_id, vuk, provenance + "-"@ + rfc3339_text(c))
}

/// The cache with a line about a disc, unless there is one.
pub open spec fn written(lines: Seq<Seq<char>>, disc_id: Seq<u8>, line: Seq<char>) -> Seq<
    Seq<char>,
> {
    if naming_from(lines, disc_id, 0) is Some {
        lines
    } else {
        lines.push(line)
    }
}

/// Put a key into the cache that was found at a moment (seconds since the
/// start of 1970), unless the cache has a line about the disc.
pub fn write_vuk_cache_entry(
    lines: &mut Vec<String>,
    disc_id: &[u8; 20],
    vuk: &[u8; 16],
    provenance: &str,
    unix_secs: u64,
)
    requires
        unix_secs / 86_400 <= LAST_DAY,
    ensures
        exists|c: Civil|
            valid_civil(c) && seconds_to(c) == unix_secs && texts(final(lines)@) == written(
                texts(old(lines)@),
                disc_id@,
                #[trigger] stamped_line(disc_id@, vuk@, provenance@, c),
            ),
{
    let stamp = rfc3339(unix_secs);
    let ghost c = choose|c: Civil|
        valid_civil(c) && seconds_to(c) == unix_secs && stamp@ == #[trigger] rfc3339_text(c);
    let ghost line = stamped_line(disc_id@, vuk@, provenance@, c);
    if scan_keydb_for_line(lines, disc_id).is_none() {
        lines.push(key_line(disc_id, vuk, provenance, stamp.as_str()));
        assert(texts(lines@) =~= texts(old(lines)@).push(line));
    }
}

// ---------------------------------------------------------------------
// Laws
// ---------------------------------------------------------------------

proof fn lemma_naming_push(lines: Seq<Seq<char>>, line: Seq<char>, disc_id: Seq<u8>, i: int)
    requires
        0 <= i <= lines.len(),
    ensures
        naming_from(lines.push(line), disc_id, i) == match naming_from(lines, disc_id, i) {
            Some(k) => Some(k),
            None => if names_disc(line, disc_id) {
                Some(lines.len() as int)
            } else {
                None
            },
        },
    decreases lines.len() - i,
{
    if i < lines.len() {
        assert(lines.push(line)[i] == lines[i]);
        lemma_naming_push(lines, line, disc_id, i + 1);
    } else {
        assert(lines.push(line)[i] == line);
        assert(naming_from(lines.push(line), disc_id, i + 1) is None);
    }
}

/// A key that was put into the cache is found there, unless an earlier line
/// was about the disc, which is then still found.
pub proof fn lemma_cache_finds(
    lines: Seq<Seq<char>>,
    disc_id: Seq<u8>,
    vuk: Seq<u8>,
    provenance: Seq<char>,
    c: Civil,
)
    requires
        disc_id.len() == 20,
    ensures
        ({
            let line = stamped_line(disc_id, vuk, provenance, c);
            naming_from(written(lines, disc_id, line), disc_id, 0) == match naming_from(
                lines,
                disc_id,
                0,
            ) {
                Some(k) => Some(k),
                None => Some(lines.len() as int),
            }
        }),
{
    lemma_written_line_is_found(disc_id, vuk, provenance + "-"@ + rfc3339_text(c));
    lemma_naming_push(lines, stamped_line(disc_id, vuk, provenance, c), disc_id, 0);
}

/// Putting a key for the same disc into the cache once more changes nothing,
/// whatever the second line would have been.
pub proof fn lemma_cache_write_once(
    lines: Seq<Seq<char>>,
    disc_id: Seq<u8>,
    line: Seq<char>,
    other: Seq<char>,
)
    requires
        names_disc(line, disc_id),
    ensures
        written(written(lines, disc_id, line), disc_id, other) == written(lines, disc_id, line),
{
    lemma_naming_push(lines, line, disc_id, 0);
}

/// What the cache says of other discs stays as it is.
pub proof fn lemma_cache_other_discs(
    lines: Seq<Seq<char>>,
    disc_id: Seq<u8>,
    line: Seq<char>,
    other: Seq<u8>,
)
    requires
        disc_id.len() == 20,
        other.len() == 20,
        disc_id != other,
        names_disc(line, disc_id),
    ensures
        naming_from(written(lines, disc_id, line), other, 0) == naming_from(lines, other, 0),
{
    lemma_naming_push(lines, line, other, 0);
    if names_disc(line, other) {
        lemma_line_names_one_disc(line, disc_id, other);
    }
}

proof fn lemma_dec_text_plain(n: nat, i: int)
    requires
        0 <= i < dec_text(n).len(),
    ensures
        0x30 <= dec_text(n)[i] as u32 <= 0x39,
    decreases n,
{
    if n >= 10 && i < dec_text(n / 10).len() {
        lemma_dec_text_plain(n / 10, i);
    }
}

proof fn lemma_padded_plain(n: nat, width: nat, i: int)
    requires
        0 <= i < padded(dec_text(n), width, '0').len(),
    ensures
        0x30 <= padded(dec_text(n), width, '0')[i] as u32 <= 0x39,
{
    let t = dec_text(n);
    if t.len() >= width {
        lemma_dec_text_plain(n, i);
    } else if i >= width - t.len() {
        lemma_dec_text_plain(n, i - (width - t.len()));
    }
}

/// Whether all characters are printable and mean nothing in the key file.
spec fn is_plain_text(t: Seq<char>) -> bool {
    forall|i: int|
        0 <= i < t.len() ==> 0x21 <= (#[trigger] t[i]) as u32 <= 0x7E && t[i] != '|' && t[i] != ';'
}

proof fn lemma_plain_sum(a: Seq<char>, b: Seq<char>)
    requires
        is_plain_text(a),
        is_plain_text(b),
    ensures
        is_plain_text(a + b),
{
}

proof fn lemma_number_plain(n: nat, width: nat)
    ensures
        is_plain_text(padded(dec_text(n), width, '0')),
{
    let t = padded(dec_text(n), width, '0');
    assert forall|i: int| 0 <= i < t.len() implies 0x21 <= (#[trigger] t[i]) as u32 <= 0x7E && t[i]
        != '|' && t[i] != ';' by {
        lemma_padded_plain(n, width, i);
    }
}

/// A moment as text means nothing in the key file.
proof fn lemma_stamp_plain(c: Civil)
    ensures
        is_plain_text(rfc3339_text(c)),
{
    reveal_strlit("-");
    reveal_strlit("T");
    reveal_strlit(":");
    reveal_strlit("Z");
    let y = padded(dec_text(c.year as nat), 4, '0');
    let mo = padded(dec_text(c.month as nat), 2, '0');
    let d = padded(dec_text(c.day as nat), 2, '0');
    let h = padded(dec_text(c.hour as nat), 2, '0');
    let mi = padded(dec_text(c.minute as nat), 2, '0');
    let s = padded(dec_text(c.second as nat), 2, '0');
    lemma_number_plain(c.year as nat, 4);
    lemma_number_plain(c.month as nat, 2);
    lemma_number_plain(c.day as nat, 2);
    lemma_number_plain(c.hour as nat, 2);
    lemma_number_plain(c.minute as nat, 2);
    lemma_number_plain(c.second as nat, 2);
    lemma_plain_sum(y, "-"@);
    lemma_plain_sum(y + "-"@, mo);
    lemma_plain_sum(y + "-"@ + mo, "-"@);
    lemma_plain_sum(y + "-"@ + mo + "-"@, d);
    lemma_plain_sum(y + "-"@ + mo + "-"@ + d, "T"@);
    lemma_plain_sum(y + "-"@ + mo + "-"@ + d + "T"@, h);
    lemma_plain_sum(y + "-"@ + mo + "-"@ + d + "T"@ + h, ":"@);
    lemma_plain_sum(y + "-"@ + mo + "-"@ + d + "T"@ + h + ":"@, mi);
    lemma_plain_sum(y + "-"@ + mo + "-"@ + d + "T"@ + h + ":"@ + mi, ":"@);
    lemma_plain_sum(y + "-"@ + mo + "-"@ + d + "T"@ + h + ":"@ + mi + ":"@, s);
    lemma_plain_sum(y + "-"@ + mo + "-"@ + d + "T"@ + h + ":"@ + mi + ":"@ + s, "Z"@);
}

/// The note of a key that the disc itself gave is plain, so its line reads
/// back.
pub proof fn lemma_online_note_is_plain(c: Civil)
    ensures
        is_plain_note("online"@ + "-"@ + rfc3339_text(c)),
{
    reveal_strlit("online");
    reveal_strlit("-");
    lemma_stamp_plain(c);
    lemma_plain_sum("online"@, "-"@);
    lemma_plain_sum("online"@ + "-"@, rfc3339_text(c));
}

} // verus!
