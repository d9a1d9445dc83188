//! Where the fields of `index.bdmv` and `MovieObject.bdmv` lie.
//!
//! The laws speak of the bytes of a file as a disc carries it. Each comes in
//! two halves: what is read from a file that can be read, and which files can
//! be read.
use vstd::prelude::*;
use vstd::utf8::{decode_utf8, encode_utf8, valid_utf8};

use crate::bdmv::common::{
    array3_at, array4_at, be16, be24, be32, be64, enc16, enc24, enc32, enc64, enc8, enc_array3,
    enc_array4, in_line, lemma_list_in_line, lemma_list_in_steps, lemma_list_of_line,
    lemma_list_of_steps, list_at, zeros,
};
use crate::bdmv::index_bdmv::{
    index_of, object_at, object_reader, IndexModel, ObjectModel, TitleEntry,
};
use crate::bdmv::movie_object::{
    array12_at, command_reader, movie_object_at, movie_object_reader, movie_objects_of,
    MovieObjectModel, MovieObjectsModel,
};

verus! {

// ---------------------------------------------------------------------
// Numbers
// ---------------------------------------------------------------------

/// The number that two bytes spell, the first counting most.
pub open spec fn n16(s: Seq<u8>, i: int) -> int {
    s[i] * 0x100 + s[i + 1]
}

/// The number that three bytes spell.
pub open spec fn n24(s: Seq<u8>, i: int) -> int {
    s[i] * 0x1_0000 + s[i + 1] * 0x100 + s[i + 2]
}

/// The number that four bytes spell.
pub open spec fn n32(s: Seq<u8>, i: int) -> int {
    s[i] * 0x100_0000 + s[i + 1] * 0x1_0000 + s[i + 2] * 0x100 + s[i + 3]
}

/// Numbers are read with the most significant byte first.
pub proof fn lemma_numbers(s: Seq<u8>, i: int)
    ensures
        be16(s, i) == s[i] * 0x100 + s[i + 1],
        be24(s, i) == s[i] * 0x1_0000 + s[i + 1] * 0x100 + s[i + 2],
        be32(s, i) == s[i] * 0x100_0000 + s[i + 1] * 0x1_0000 + s[i + 2] * 0x100 + s[i + 3],
        be64(s, i) == be32(s, i) * 0x1_0000_0000 + be32(s, i + 4),
        array4_at(s, i)@ == seq![s[i], s[i + 1], s[i + 2], s[i + 3]],
        array3_at(s, i)@ == seq![s[i], s[i + 1], s[i + 2]],
{
    reveal(be16);
    reveal(be24);
    reveal(be32);
    reveal(be64);
    reveal(array4_at);
    reveal(array3_at);
}

/// A number of two bytes.
pub proof fn lemma_n16(s: Seq<u8>, i: int)
    ensures
        be16(s, i) == n16(s, i),
{
    reveal(be16);
}

/// A number of four bytes.
pub proof fn lemma_n32(s: Seq<u8>, i: int)
    ensures
        be32(s, i) == n32(s, i),
{
    reveal(be16);
    reveal(be32);
}

/// A number of eight bytes.
pub proof fn lemma_n64(s: Seq<u8>, i: int)
    ensures
        be64(s, i) == n32(s, i) * 0x1_0000_0000 + n32(s, i + 4),
{
    reveal(be64);
    lemma_n32(s, i);
    lemma_n32(s, i + 4);
}

/// Four bytes.
pub proof fn lemma_four(s: Seq<u8>, i: int)
    ensures
        array4_at(s, i)@ == seq![s[i], s[i + 1], s[i + 2], s[i + 3]],
{
    reveal(array4_at);
}

/// Numbers are written with the most significant byte first.
pub proof fn lemma_written_numbers(a: u8, b: u16, c: u32, d: u64, n: nat)
    ensures
        enc8(a) == seq![a],
        enc16(b).len() == 2 && n16(enc16(b), 0) == b,
        enc24(c).len() == 3 && n24(enc24(c), 0) == c % 0x100_0000,
        enc32(c).len() == 4 && n32(enc32(c), 0) == c,
        enc64(d).len() == 8 && n32(enc64(d), 0) * 0x1_0000_0000 + n32(enc64(d), 4) == d,
        zeros(n).len() == n && forall|i: int| 0 <= i < n ==> zeros(n)[i] == 0,
{
    reveal(enc8);
    reveal(enc16);
    reveal(enc24);
    reveal(enc32);
    reveal(enc64);
    reveal(zeros);
}

/// Arrays are written byte by byte.
pub proof fn lemma_written_arrays(a: [u8; 4], b: [u8; 3])
    ensures
        enc_array4(a) == a@,
        enc_array3(b) == b@,
{
    reveal(enc_array4);
    reveal(enc_array3);
    assert(enc_array4(a) =~= a@);
    assert(enc_array3(b) =~= b@);
}

// ---------------------------------------------------------------------
// index.bdmv
// ---------------------------------------------------------------------

/// Whether the twelve bytes at `p` are an object: its type in the top two bits,
/// 1 for a movie object and 2 for an application, whose name has five bytes.
pub open spec fn object_bytes(s: Seq<u8>, p: int) -> bool {
    &&& p + 12 <= s.len()
    &&& s[p] / 64 == 1 || s[p] / 64 == 2 && valid_utf8(s.subrange(p + 4, p + 9))
}

/// What an object says: the playback type in the top two bits of the third
/// byte; the number of a movie object in the fifth and sixth, or the name of an
/// application from the fifth on.
pub open spec fn object_says(s: Seq<u8>, p: int, o: ObjectModel) -> bool {
    match o {
        ObjectModel::Hdmv { playback_type, movie_object_id_ref } => {
            &&& s[p] / 64 == 1
            &&& playback_type == s[p + 2] / 64
            &&& movie_object_id_ref == s[p + 4] * 0x100 + s[p + 5]
        },
        ObjectModel::BdJ { playback_type, bdjo_file_name } => {
            &&& s[p] / 64 == 2
            &&& playback_type == s[p + 2] / 64
            &&& encode_utf8(bdjo_file_name) == seq![
                s[p + 4],
                s[p + 5],
                s[p + 6],
                s[p + 7],
                s[p + 8],
            ]
        },
    }
}

proof fn lemma_object(s: Seq<u8>, p: int)
    requires
        0 <= p,
    ensures
        object_at(s, p) is Some <==> object_bytes(s, p),
        object_at(s, p) matches Some((o, q)) ==> q == p + 12 && object_says(s, p, o),
{
    lemma_numbers(s, p + 2);
    lemma_numbers(s, p + 4);
    let five = s.subrange(p + 4, p + 9);
    if object_bytes(s, p) {
        assert(five =~= seq![s[p + 4], s[p + 5], s[p + 6], s[p + 7], s[p + 8]]);
        if valid_utf8(five) {
            vstd::utf8::decode_utf8_encode_utf8(five);
        }
    }
}

/// What is read from an `index.bdmv` file: the version at 4; the attributes of
/// the disc at 44 and 45; and, from the place that the bytes at 8 give, a
/// length, the object that runs first, the object of the menu, the number of
/// titles, and the objects of the titles, each of twelve bytes.
pub proof fn lemma_index_fields(s: Seq<u8>, m: IndexModel)
    requires
        index_of(s) == Some(m),
    ensures
        m.version@ == seq![s[4], s[5], s[6], s[7]],
        m.app_info.initial_output_mode_preference == (s[44] / 8) % 2,
        m.app_info.content_exist_flag == (s[44] / 4) % 2,
        m.app_info.video_format * 16 + m.app_info.frame_rate == s[45],
        m.app_info.frame_rate < 16,
        ({
            let p = s[8] * 0x100_0000 + s[9] * 0x1_0000 + s[10] * 0x100 + s[11];
            &&& object_says(s, p + 4, m.first_playback_title)
            &&& object_says(s, p + 16, m.menu_title)
            &&& m.titles.len() == s[p + 28] * 0x100 + s[p + 29]
            &&& forall|i: int|
                0 <= i < m.titles.len() ==> object_says(s, p + 30 + 12 * i, #[trigger] m.titles[i])
        }),
{
    lemma_numbers(s, 8);
    lemma_numbers(s, 4);
    let p = be32(s, 8) as int;
    lemma_numbers(s, p + 28);
    lemma_object(s, p + 4);
    lemma_object(s, p + 16);
    let item = object_reader(s);
    let n = be16(s, p + 28) as nat;
    assert forall|q: int| q >= p + 30 && #[trigger] item(q) is Some implies (item(q)->0).1 == q
        + 12 by {
        lemma_object(s, q);
    }
    lemma_list_in_steps(item, p + 30, n, 12);
    assert forall|i: int| 0 <= i < m.titles.len() implies object_says(
        s,
        p + 30 + 12 * i,
        #[trigger] m.titles[i],
    ) by {
        lemma_object(s, p + 30 + 12 * i);
        assert(item(p + 30 + i * 12) == object_at(s, p + 30 + 12 * i));
    }
}

/// Which `index.bdmv` files can be read: those that begin with `INDX`, hold the
/// attributes of the disc, and hold as many objects as they say.
pub proof fn lemma_index_readable(s: Seq<u8>)
    ensures
        index_of(s) is Some <==> {
            let p = s[8] * 0x100_0000 + s[9] * 0x1_0000 + s[10] * 0x100 + s[11];
            let app = s[40] * 0x100_0000 + s[41] * 0x1_0000 + s[42] * 0x100 + s[43];
            let len = s[p] * 0x100_0000 + s[p + 1] * 0x1_0000 + s[p + 2] * 0x100 + s[p + 3];
            let n = s[p + 28] * 0x100 + s[p + 29];
            &&& s.len() >= 46
            &&& s[0] == 0x49 && s[1] == 0x4E && s[2] == 0x44 && s[3] == 0x58
            &&& 2 <= app <= s.len() - 44
            &&& p + 30 <= s.len()
            &&& p + 4 + len <= s.len()
            &&& object_bytes(s, p + 4)
            &&& object_bytes(s, p + 16)
            &&& forall|i: int| 0 <= i < n ==> object_bytes(s, #[trigger] (p + 30 + i * 12))
        },
{
    lemma_numbers(s, 8);
    lemma_numbers(s, 0);
    lemma_numbers(s, 40);
    let p = be32(s, 8) as int;
    lemma_numbers(s, p);
    lemma_numbers(s, p + 28);
    lemma_object(s, p + 4);
    lemma_object(s, p + 16);
    let indx = [0x49u8, 0x4E, 0x44, 0x58];
    assert(array4_at(s, 0) == indx <==> s[0] == 0x49 && s[1] == 0x4E && s[2] == 0x44 && s[3]
        == 0x58) by {
        let a = array4_at(s, 0);
        assert(a@[0] == s[0] && a@[1] == s[1] && a@[2] == s[2] && a@[3] == s[3]);
        assert(indx@[0] == 0x49 && indx@[1] == 0x4E && indx@[2] == 0x44 && indx@[3] == 0x58);
        if s[0] == 0x49 && s[1] == 0x4E && s[2] == 0x44 && s[3] == 0x58 {
            assert(a =~= indx);
        }
    }
    let item = object_reader(s);
    let n = be16(s, p + 28) as nat;
    assert forall|q: int| q >= p + 30 && #[trigger] item(q) is Some implies (item(q)->0).1 == q
        + 12 by {
        lemma_object(s, q);
    }
    lemma_list_in_steps(item, p + 30, n, 12);
    if list_at(item, p + 30, n) is Some {
        let xs = (list_at(item, p + 30, n)->0).0;
        assert forall|i: int| 0 <= i < n implies object_bytes(s, #[trigger] (p + 30 + i * 12)) by {
            assert(item(p + 30 + i * 12) == Some((xs[i], p + 30 + i * 12 + 12)));
            lemma_object(s, p + 30 + i * 12);
        }
    }
    if forall|i: int| 0 <= i < n ==> object_bytes(s, #[trigger] (p + 30 + i * 12)) {
        assert forall|i: int| 0 <= i < n implies #[trigger] item(p + 30 + i * 12) is Some by {
            lemma_object(s, p + 30 + i * 12);
        }
        lemma_list_of_steps(item, p + 30, n, 12);
    }
}

/// Title 1 is the first in the file; the numbers run on from there, and there
/// is no title 0.
pub proof fn lemma_title_numbers(m: IndexModel, i: int)
    requires
        0 <= i < m.titles.len(),
        m.titles.len() <= 0xFFFF,
    ensures
        m.object_of(TitleEntry::Title { number: (i + 1) as u16 }) == Some(m.titles[i]),
        m.object_of(TitleEntry::Title { number: 0 }) is None,
        m.titles.len() < 0xFFFF ==> m.object_of(
            TitleEntry::Title { number: (m.titles.len() + 1) as u16 },
        ) is None,
        m.object_of(TitleEntry::FirstPlayback) == Some(m.first_playback_title),
        m.object_of(TitleEntry::TopMenu) == Some(m.menu_title),
        m.titles[i] matches ObjectModel::Hdmv { playback_type: _, movie_object_id_ref } ==> m.movie_object_of(
            TitleEntry::Title { number: (i + 1) as u16 },
        ) == Some(movie_object_id_ref),
        m.titles[i] is BdJ ==> m.movie_object_of(TitleEntry::Title { number: (i + 1) as u16 }) is None,
{
}

// ---------------------------------------------------------------------
// MovieObject.bdmv
// ---------------------------------------------------------------------

/// What a movie object at `p` says: three flags in the top bits of its first
/// byte, the number of its commands in the third and fourth, then the commands,
/// each of twelve bytes.
pub open spec fn movie_object_says(s: Seq<u8>, p: int, o: MovieObjectModel) -> bool {
    &&& o.resume_intention_flag == s[p] / 128
    &&& o.menu_call_mask == (s[p] / 64) % 2
    &&& o.title_search_mask == (s[p] / 32) % 2
    &&& o.commands.len() == s[p + 2] * 0x100 + s[p + 3]
    &&& forall|i: int|
        0 <= i < o.commands.len() ==> (#[trigger] o.commands[i]).bytes@ == s.subrange(
            p + 4 + 12 * i,
            p + 16 + 12 * i,
        )
}

proof fn lemma_movie_object(s: Seq<u8>, p: int)
    requires
        0 <= p,
    ensures
        movie_object_at(s, p) is Some <==> p + 4 <= s.len() && p + 4 + 12 * n16(s, p + 2)
            <= s.len(),
        movie_object_at(s, p) matches Some((o, q)) ==> q == p + 4 + 12 * n16(s, p + 2)
            && movie_object_says(s, p, o),
{
    lemma_numbers(s, p + 2);
    let item = command_reader(s);
    let n = be16(s, p + 2) as nat;
    lemma_list_in_steps(item, p + 4, n, 12);
    if list_at(item, p + 4, n) is Some {
        let (xs, end) = list_at(item, p + 4, n)->0;
        reveal(array12_at);
        assert forall|i: int| 0 <= i < n implies (#[trigger] xs[i]).bytes@ == s.subrange(
            p + 4 + 12 * i,
            p + 16 + 12 * i,
        ) by {
            assert(item(p + 4 + i * 12) == Some((xs[i], p + 4 + i * 12 + 12)));
            assert(xs[i].bytes@ =~= s.subrange(p + 4 + 12 * i, p + 16 + 12 * i));
        }
        if n > 0 {
            assert(item(p + 4 + (n - 1) * 12) == Some((xs[n - 1], p + 4 + (n - 1) * 12 + 12)));
        }
    }
    if p + 4 + 12 * n <= s.len() {
        lemma_list_of_steps(item, p + 4, n, 12);
    }
}

/// Whether movie objects lie at the places `ps`, one behind the other.
pub open spec fn movie_objects_lie(s: Seq<u8>, ps: Seq<int>, n: int) -> bool {
    &&& ps.len() == n + 1
    &&& ps[0] == 78
    &&& forall|i: int|
        0 <= i < n ==> ps[i + 1] == #[trigger] ps[i] + 4 + 12 * n16(s, ps[i] + 2)
    &&& forall|i: int| 0 <= i <= n ==> 78 <= #[trigger] ps[i] <= s.len()
}

/// What is read from a `MovieObject.bdmv` file: the version at 4, the number of
/// objects at 76, and the objects from 78 on, one behind the other.
pub proof fn lemma_movie_object_fields(s: Seq<u8>, m: MovieObjectsModel)
    requires
        movie_objects_of(s) == Some(m),
    ensures
        m.version@ == seq![s[4], s[5], s[6], s[7]],
        m.movie_objects.len() == s[76] * 0x100 + s[77],
        exists|ps: Seq<int>|
            {
                &&& #[trigger] movie_objects_lie(s, ps, m.movie_objects.len() as int)
                &&& forall|i: int|
                    0 <= i < m.movie_objects.len() ==> movie_object_says(
                        s,
                        ps[i],
                        #[trigger] m.movie_objects[i],
                    )
            },
{
    lemma_numbers(s, 4);
    lemma_numbers(s, 76);
    let item = movie_object_reader(s);
    let n = be16(s, 76) as nat;
    lemma_list_in_line(item, 78, n);
    let xs = m.movie_objects;
    let ps = choose|ps: Seq<int>| #[trigger] in_line(item, 78, xs, ps);
    lemma_places(s, xs, ps, n as int);
    assert forall|i: int| 0 <= i < n implies ps[i + 1] == #[trigger] ps[i] + 4 + 12 * n16(
        s,
        ps[i] + 2,
    ) by {
        assert(item(ps[i]) == Some((xs[i], ps[i + 1])));
        lemma_movie_object(s, ps[i]);
    }
    assert(movie_objects_lie(s, ps, n as int));
    assert forall|i: int| 0 <= i < n implies movie_object_says(s, ps[i], #[trigger] xs[i]) by {
        assert(ps[i] >= 78);
        lemma_movie_object(s, ps[i]);
    }
}

proof fn lemma_places(s: Seq<u8>, xs: Seq<MovieObjectModel>, ps: Seq<int>, k: int)
    requires
        s.len() >= 78,
        in_line(movie_object_reader(s), 78, xs, ps),
        0 <= k <= xs.len(),
    ensures
        forall|i: int| 0 <= i <= k ==> 78 <= #[trigger] ps[i] <= s.len(),
    decreases k,
{
    if k > 0 {
        lemma_places(s, xs, ps, k - 1);
        assert(ps[k - 1] >= 78);
        assert(movie_object_reader(s)(ps[k - 1]) == Some((xs[k - 1], ps[k - 1 + 1])));
        lemma_movie_object(s, ps[k - 1]);
    }
}

/// Which `MovieObject.bdmv` files can be read: those that begin with `MOBJ`,
/// are as long as they say, and hold as many objects as they say.
pub proof fn lemma_movie_objects_readable(s: Seq<u8>, ps: Seq<int>)
    requires
        s.len() >= 78,
        s[0] == 0x4D && s[1] == 0x4F && s[2] == 0x42 && s[3] == 0x4A,
        s[40] * 0x100_0000 + s[41] * 0x1_0000 + s[42] * 0x100 + s[43] <= s.len() - 44,
        movie_objects_lie(s, ps, s[76] * 0x100 + s[77]),
    ensures
        movie_objects_of(s) is Some,
{
    lemma_numbers(s, 0);
    lemma_numbers(s, 40);
    lemma_numbers(s, 76);
    let mobj = [0x4Du8, 0x4F, 0x42, 0x4A];
    assert(array4_at(s, 0) == mobj) by {
        let a = array4_at(s, 0);
        assert(a@[0] == s[0] && a@[1] == s[1] && a@[2] == s[2] && a@[3] == s[3]);
        assert(a =~= mobj);
    }
    let item = movie_object_reader(s);
    let n = be16(s, 76) as nat;
    let xs = Seq::new(n, |i: int| (item(ps[i])->0).0);
    assert forall|i: int| 0 <= i < xs.len() implies item(ps[i]) == Some(
        (#[trigger] xs[i], ps[i + 1]),
    ) by {
        assert(78 <= ps[i] && ps[i + 1] <= s.len());
        lemma_movie_object(s, ps[i]);
    }
    lemma_list_of_line(item, 78, xs, ps);
}

} // verus!
