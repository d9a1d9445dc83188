//! What is said of files that cannot be read.
use vstd::prelude::*;
use vstd::string::*;

use crate::bdmv::clpi::{clip_refusal, cpi_refusal, is_clpi_type};
use crate::bdmv::common::{array4_at, past_end_text, type_text};
use crate::bdmv::index_bdmv::{index_refusal, indexes_refusal, object_at, object_refusal};
use crate::bdmv::layout::{lemma_n32, n32};
use crate::bdmv::movie_object::movie_objects_refusal;
use crate::bdmv::mpls_read::{
    angle_refusal, app_info_refusal, item_refusal, play_list_refusal, playlist_refusal,
};
use crate::text::dec_text;

verus! {

/// Whether a file begins with four characters.
pub open spec fn begins(s: Seq<u8>, a: char, b: char, c: char, d: char) -> bool {
    s[0] == a as int && s[1] == b as int && s[2] == c as int && s[3] == d as int
}

proof fn lemma_type_bytes(s: Seq<u8>)
    requires
        s.len() >= 8,
    ensures
        array4_at(s, 0) == [0x49u8, 0x4E, 0x44, 0x58] <==> begins(s, 'I', 'N', 'D', 'X'),
        array4_at(s, 0) == [0x4Du8, 0x4F, 0x42, 0x4A] <==> begins(s, 'M', 'O', 'B', 'J'),
        array4_at(s, 0) == [0x4Du8, 0x50, 0x4C, 0x53] <==> begins(s, 'M', 'P', 'L', 'S'),
        is_clpi_type(array4_at(s, 0)) <==> begins(s, 'H', 'D', 'M', 'V') || begins(
            s,
            'C',
            'L',
            'P',
            'I',
        ),
{
    reveal(array4_at);
    let t = array4_at(s, 0);
    assert(t@[0] == s[0] && t@[1] == s[1] && t@[2] == s[2] && t@[3] == s[3]);
    let index = [0x49u8, 0x4E, 0x44, 0x58];
    let objects = [0x4Du8, 0x4F, 0x42, 0x4A];
    let list = [0x4Du8, 0x50, 0x4C, 0x53];
    assert(index@[0] == 0x49 && index@[1] == 0x4E && index@[2] == 0x44 && index@[3] == 0x58);
    assert(objects@[0] == 0x4D && objects@[1] == 0x4F && objects@[2] == 0x42 && objects@[3]
        == 0x4A);
    assert(list@[0] == 0x4D && list@[1] == 0x50 && list@[2] == 0x4C && list@[3] == 0x53);
    let clip = [0x48u8, 0x44, 0x4D, 0x56];
    let named = [0x43u8, 0x4C, 0x50, 0x49];
    assert(clip@[0] == 0x48 && clip@[1] == 0x44 && clip@[2] == 0x4D && clip@[3] == 0x56);
    assert(named@[0] == 0x43 && named@[1] == 0x4C && named@[2] == 0x50 && named@[3] == 0x49);
    if begins(s, 'H', 'D', 'M', 'V') {
        assert(t =~= clip);
    }
    if begins(s, 'C', 'L', 'P', 'I') {
        assert(t =~= named);
    }
    if begins(s, 'I', 'N', 'D', 'X') {
        assert(t =~= index);
    }
    if begins(s, 'M', 'O', 'B', 'J') {
        assert(t =~= objects);
    }
    if begins(s, 'M', 'P', 'L', 'S') {
        assert(t =~= list);
    }
}

/// A file that ends within its first eight bytes has no header; one of another
/// type is refused with the four bytes of its type, whatever else is wrong.
pub proof fn lemma_wrong_type(s: Seq<u8>, t: [u8; 4])
    requires
        s.len() >= 8 ==> t@ == s.take(4),
    ensures
        s.len() < 8 ==> {
            &&& index_refusal(s) == "BDMV header truncated"@
            &&& movie_objects_refusal(s) == "BDMV header truncated"@
            &&& playlist_refusal(s) == "BDMV header truncated"@
            &&& clip_refusal(s) == "BDMV header truncated"@
        },
        s.len() >= 8 && !begins(s, 'I', 'N', 'D', 'X') ==> index_refusal(s) == type_text(
            "index.bdmv"@,
            t,
        ),
        s.len() >= 8 && !begins(s, 'M', 'O', 'B', 'J') ==> movie_objects_refusal(s) == type_text(
            "MovieObject.bdmv"@,
            t,
        ),
        s.len() >= 8 && !begins(s, 'M', 'P', 'L', 'S') ==> playlist_refusal(s) == type_text(
            ".mpls"@,
            t,
        ),
        s.len() >= 8 && !begins(s, 'H', 'D', 'M', 'V') && !begins(s, 'C', 'L', 'P', 'I')
            ==> clip_refusal(s) == type_text(".clpi"@, t),
{
    if s.len() >= 8 {
        lemma_type_bytes(s);
        reveal(array4_at);
        let u = array4_at(s, 0);
        assert(u@ =~= s.take(4));
        assert(u =~= t);
    }
}

/// A file that ends within its first forty bytes has no body.
pub proof fn lemma_no_body(s: Seq<u8>)
    requires
        8 <= s.len() < 40,
    ensures
        begins(s, 'I', 'N', 'D', 'X') ==> index_refusal(s) == "index.bdmv truncated before AppInfo"@,
        begins(s, 'M', 'O', 'B', 'J') ==> movie_objects_refusal(s) == past_end_text(40, s.len()),
        begins(s, 'M', 'P', 'L', 'S') ==> playlist_refusal(s) == ".mpls truncated before AppInfo"@,
        begins(s, 'H', 'D', 'M', 'V') || begins(s, 'C', 'L', 'P', 'I') ==> clip_refusal(s)
            == ".clpi truncated"@,
{
    lemma_type_bytes(s);
}

/// A part that says that it is longer than the file is refused as that part; a
/// part that is said to lie behind the end is refused with its place.
pub proof fn lemma_part_overruns(s: Seq<u8>, p: int)
    requires
        0 <= p,
    ensures
        p > s.len() ==> {
            &&& indexes_refusal(s, p) == past_end_text(p as nat, s.len())
            &&& play_list_refusal(s, p) == past_end_text(p as nat, s.len())
            &&& cpi_refusal(s, p) == past_end_text(p as nat, s.len())
        },
        p + 4 <= s.len() && p + 4 + n32(s, p) > s.len() ==> {
            &&& indexes_refusal(s, p) == "Indexes overruns buffer"@
            &&& play_list_refusal(s, p) == "PlayList body overruns buffer"@
            &&& cpi_refusal(s, p) == "CPI length past EOF"@
        },
{
    lemma_n32(s, p);
}

/// An object of neither kind is refused with its kind, the two highest bits of
/// its first byte; one of a BD-J title for its name.
pub proof fn lemma_object_refused(s: Seq<u8>, p: int)
    requires
        0 <= p,
        p + 12 <= s.len(),
        object_at(s, p) is None,
    ensures
        s[p] < 64 ==> object_refusal(s, p) == "unknown object_type "@ + dec_text(0)
            + " in index.bdmv"@,
        192 <= s[p] ==> object_refusal(s, p) == "unknown object_type "@ + dec_text(3)
            + " in index.bdmv"@,
        128 <= s[p] < 192 ==> object_refusal(s, p) == "BD-J bdjo_file_name not ASCII"@,
{
}

/// The information about a playlist takes fourteen bytes, that about a disc
/// two; what says that it is shorter is refused for that.
pub proof fn lemma_info_too_short(s: Seq<u8>)
    requires
        s.len() >= 44,
    ensures
        n32(s, 40) < 14 ==> app_info_refusal(s) == "AppInfoPlayList shorter than 14 bytes"@,
        n32(s, 40) < 14 && begins(s, 'M', 'P', 'L', 'S') ==> playlist_refusal(s)
            == "AppInfoPlayList shorter than 14 bytes"@,
        n32(s, 40) < 2 && begins(s, 'I', 'N', 'D', 'X') ==> index_refusal(s)
            == "AppInfoBDMV length < 2"@,
        44 + n32(s, 40) > s.len() && begins(s, 'M', 'O', 'B', 'J') ==> movie_objects_refusal(s)
            == "MovieObjects body overruns buffer"@,
{
    lemma_n32(s, 40);
    lemma_type_bytes(s);
}

/// A clip's name that is no text is refused as that of the item or of the
/// angle.
pub proof fn lemma_name_refused(s: Seq<u8>, p: int)
    requires
        0 <= p,
        p + 7 <= s.len(),
    ensures
        !vstd::utf8::valid_utf8(s.subrange(p + 2, p + 7)) ==> item_refusal(s, p)
            == "PlayItem clip name not ASCII"@,
        !vstd::utf8::valid_utf8(s.subrange(p, p + 5)) ==> angle_refusal(s, p)
            == "PlayItem angle clip name not ASCII"@,
{
}

} // verus!
