//! What stands in written files besides what is read back: the lengths of their
//! parts, the places where the parts begin, and how names fill their bytes.
use vstd::prelude::*;
use vstd::utf8::encode_utf8;

use crate::bdmv::clpi::{
    enc_block, enc_clip, enc_clip_info, enc_cpi, enc_program_info, enc_sequence_info, ClipModel,
};
use crate::bdmv::common::{enc16, enc32, enc_array4, lemma_enc8_len, zeros};
use crate::bdmv::index_bdmv::{enc_bdjo_name, enc_index, enc_indexes, IndexModel, ObjectModel};
use crate::bdmv::layout::{lemma_written_arrays, lemma_written_numbers, n16, n32};
use crate::bdmv::movie_object::{enc_movie_objects, MovieObjectsModel};
use crate::bdmv::mpls::{PlayItemModel, PlayListMark, PlayListModel, SubPath};
use crate::bdmv::mpls_write::{
    enc_app_info, enc_block16, enc_block32, enc_item, enc_marks, enc_name, enc_play_list,
    enc_playlist,
};

verus! {

proof fn lemma_front32(x: u32, rest: Seq<u8>)
    ensures
        n32(enc32(x) + rest, 0) == x,
        (enc32(x) + rest).len() == rest.len() + 4,
        (enc32(x) + rest).skip(4) == rest,
{
    lemma_written_numbers(0, 0, x, 0, 0);
    assert((enc32(x) + rest).skip(4) =~= rest);
}

/// A block says how long it is, in two bytes or in four, and then follows.
pub proof fn lemma_blocks(body: Seq<u8>)
    ensures
        enc_block16(body).len() == body.len() + 2,
        enc_block16(body).skip(2) == body,
        body.len() < 0x1_0000 ==> n16(enc_block16(body), 0) == body.len(),
        enc_block32(body).len() == body.len() + 4,
        enc_block32(body).skip(4) == body,
        body.len() < 0x1_0000_0000 ==> n32(enc_block32(body), 0) == body.len(),
        enc_block(body).len() == body.len() + 4,
        enc_block(body).skip(4) == body,
        body.len() < 0x1_0000_0000 ==> n32(enc_block(body), 0) == body.len(),
{
    let short = (body.len() % 0x1_0000) as u16;
    let long = (body.len() % 0x1_0000_0000) as u32;
    lemma_written_numbers(0, short, long, 0, 0);
    lemma_front32(long, body);
    assert(enc_block16(body).skip(2) =~= body);
    assert(enc_block32(body) =~= enc32(long) + body);
    assert(enc_block(body) =~= enc32(long) + body);
}

/// The parts of a playlist say how long they are.
pub proof fn lemma_playlist_parts(
    items: Seq<PlayItemModel>,
    subs: Seq<SubPath>,
    marks: Seq<PlayListMark>,
    item: PlayItemModel,
)
    ensures
        ({
            let p = enc_play_list(items, subs);
            4 <= p.len() && (p.len() < 0x1_0000_0000 ==> n32(p, 0) + 4 == p.len())
        }),
        ({
            let p = enc_marks(marks);
            4 <= p.len() && (p.len() < 0x1_0000_0000 ==> n32(p, 0) + 4 == p.len())
        }),
        ({
            let p = enc_item(item);
            2 <= p.len() && (p.len() < 0x1_0000 ==> n16(p, 0) + 2 == p.len())
        }),
{
    reveal(enc_play_list);
    reveal(enc_marks);
    reveal(enc_item);
    assert forall|b: Seq<u8>|
        #![trigger enc_block32(b)]
        enc_block32(b).len() == b.len() + 4 && (b.len() < 0x1_0000_0000 ==> n32(enc_block32(b), 0)
            == b.len()) by {
        lemma_blocks(b);
    }
    assert forall|b: Seq<u8>|
        #![trigger enc_block16(b)]
        enc_block16(b).len() == b.len() + 2 && (b.len() < 0x1_0000 ==> n16(enc_block16(b), 0)
            == b.len()) by {
        lemma_blocks(b);
    }
}

/// A playlist's file names the places of its two parts, behind the fixed part.
pub proof fn lemma_playlist_places(m: PlayListModel)
    ensures
        ({
            let s = enc_playlist(m);
            let list = enc_play_list(m.play_items, m.sub_paths);
            let marks = enc_marks(m.marks);
            s.len() < 0x1_0000_0000 ==> {
                &&& n32(s, 8) == 58
                &&& n32(s, 12) == 58 + list.len()
                &&& s.subrange(58, 58 + list.len() as int) == list
                &&& s.skip(58 + list.len() as int) == marks
                &&& s.subrange(4, 8) == m.version@
            }
        }),
{
    let s = enc_playlist(m);
    let list = enc_play_list(m.play_items, m.sub_paths);
    let marks = enc_marks(m.marks);
    let at = ((58 + list.len()) % 0x1_0000_0000) as u32;
    reveal(enc_app_info);
    lemma_written_numbers(0, 0, 58, 0, 24);
    lemma_written_numbers(0, m.app_info.playback_count, at, m.app_info.uo_mask, 24);
    lemma_written_numbers(0, 0, 14, 0, 0);
    lemma_written_numbers(m.app_info.playback_type, 0, 0, 0, 0);
    lemma_written_arrays([0x4Du8, 0x50, 0x4C, 0x53], [0u8, 0, 0]);
    lemma_written_arrays(m.version, [0u8, 0, 0]);
    lemma_enc8_len(
        ((m.app_info.random_access_flag % 2) * 128 + (m.app_info.audio_mix_app_flag % 2) * 64 + (
        m.app_info.lossless_may_bypass_mixer_flag % 2) * 32) as u8,
    );
    assert(enc_app_info(m.app_info).len() == 18);
    assert(s.len() == 58 + list.len() + marks.len());
    assert(s.subrange(4, 8) =~= m.version@);
    assert(s.subrange(8, 12) =~= enc32(58));
    assert(s.subrange(12, 16) =~= enc32(at));
    assert(n32(s, 8) == n32(s.subrange(8, 12), 0));
    assert(n32(s, 12) == n32(s.subrange(12, 16), 0));
    assert(s.subrange(58, 58 + list.len() as int) =~= list);
    assert(s.skip(58 + list.len() as int) =~= marks);
}

/// The name of a clip takes five bytes: a longer one is cut off, a shorter one
/// filled up with the digit 0; that of an application is filled up with zeros.
pub proof fn lemma_names_written(name: Seq<char>, i: int)
    requires
        0 <= i < 5,
    ensures
        enc_name(name).len() == 5,
        enc_bdjo_name(name).len() == 5,
        i < encode_utf8(name).len() ==> enc_name(name)[i] == encode_utf8(name)[i]
            && enc_bdjo_name(name)[i] == encode_utf8(name)[i],
        i >= encode_utf8(name).len() ==> enc_name(name)[i] == '0' as int && enc_bdjo_name(name)[i]
            == 0,
{
}

/// The parts of a disc's index and of its movie objects say how long they are.
pub proof fn lemma_index_parts(first: ObjectModel, menu: ObjectModel, titles: Seq<ObjectModel>)
    ensures
        ({
            let p = enc_indexes(first, menu, titles);
            4 <= p.len() && (p.len() < 0x1_0000_0000 ==> n32(p, 0) + 4 == p.len())
        }),
{
    assert forall|x: u32, rest: Seq<u8>|
        #![trigger enc32(x) + rest]
        n32(enc32(x) + rest, 0) == x && (enc32(x) + rest).len() == rest.len() + 4 by {
        lemma_front32(x, rest);
    }
}

/// The index names the place of its titles, behind the fixed part.
pub proof fn lemma_index_places(m: IndexModel)
    ensures
        ({
            let s = enc_index(m);
            &&& n32(s, 8) == 78
            &&& n32(s, 40) == 34
            &&& s.subrange(4, 8) == m.version@
            &&& s.skip(78) == enc_indexes(m.first_playback_title, m.menu_title, m.titles)
        }),
{
    let s = enc_index(m);
    reveal(crate::bdmv::index_bdmv::enc_app_info);
    lemma_written_numbers(0, 0, 78, 0, 28);
    lemma_written_numbers(0, 0, 34, 0, 32);
    lemma_written_arrays([0x49u8, 0x4E, 0x44, 0x58], [0u8, 0, 0]);
    lemma_written_arrays(m.version, [0u8, 0, 0]);
    lemma_enc8_len(
        ((m.app_info.initial_output_mode_preference % 2) * 8 + (m.app_info.content_exist_flag % 2)
            * 4) as u8,
    );
    lemma_enc8_len(((m.app_info.video_format % 16) * 16 + m.app_info.frame_rate % 16) as u8);
    assert(s.subrange(4, 8) =~= m.version@);
    assert(s.subrange(8, 12) =~= enc32(78));
    assert(s.subrange(40, 44) =~= enc32(34));
    assert(n32(s, 8) == n32(s.subrange(8, 12), 0));
    assert(n32(s, 40) == n32(s.subrange(40, 44), 0));
    assert(s.skip(78) =~= enc_indexes(m.first_playback_title, m.menu_title, m.titles));
}

/// The file of movie objects says how long its objects are together.
pub proof fn lemma_movie_objects_length(m: MovieObjectsModel)
    ensures
        ({
            let s = enc_movie_objects(m);
            &&& s.subrange(4, 8) == m.version@
            &&& 44 <= s.len()
            &&& s.len() < 0x1_0000_0000 ==> n32(s, 40) + 44 == s.len()
        }),
{
    let s = enc_movie_objects(m);
    let n = ((s.len() - 44) % 0x1_0000_0000) as u32;
    lemma_written_numbers(0, 0, n, 0, 32);
    lemma_written_arrays([0x4Du8, 0x4F, 0x42, 0x4A], [0u8, 0, 0]);
    lemma_written_arrays(m.version, [0u8, 0, 0]);
    assert forall|x: u32| #[trigger] enc32(x).len() == 4 by {
        lemma_written_numbers(0, 0, x, 0, 0);
    }
    assert(s.subrange(4, 8) =~= m.version@);
    assert(s.subrange(40, 44) =~= enc32(n));
    assert(n32(s, 40) == n32(s.subrange(40, 44), 0));
}

/// The parts of a clip's file say how long they are; the marks are last, a count
/// alone.
pub proof fn lemma_clip_parts(m: ClipModel)
    ensures
        ({
            let p = enc_sequence_info(m.atc_sequences);
            4 <= p.len() && (p.len() < 0x1_0000_0000 ==> n32(p, 0) + 4 == p.len())
        }),
        ({
            let p = enc_program_info(m.programs);
            4 <= p.len() && (p.len() < 0x1_0000_0000 ==> n32(p, 0) + 4 == p.len())
        }),
        ({
            let p = enc_cpi(m.cpi);
            4 <= p.len() && (p.len() < 0x1_0000_0000 ==> n32(p, 0) + 4 == p.len())
        }),
{
    reveal(enc_sequence_info);
    reveal(enc_program_info);
    reveal(enc_cpi);
    lemma_written_numbers(0, 0, 0, 0, 0);
    assert forall|b: Seq<u8>|
        #![trigger enc_block(b)]
        enc_block(b).len() == b.len() + 4 && (b.len() < 0x1_0000_0000 ==> n32(enc_block(b), 0)
            == b.len()) by {
        lemma_blocks(b);
    }
}

/// A clip's file names the places of its parts, which follow one another; it
/// ends with its marks, a count alone.
pub proof fn lemma_clip_places(m: ClipModel)
    ensures
        ({
            let s = enc_clip(m);
            let a = 220 + enc_sequence_info(m.atc_sequences).len() as int;
            let b = a + enc_program_info(m.programs).len();
            let c = b + enc_cpi(m.cpi).len();
            &&& s.len() == c + 6
            &&& s.len() < 0x1_0000_0000 ==> {
                &&& n32(s, 8) == 220
                &&& n32(s, 12) == a
                &&& n32(s, 16) == b
                &&& n32(s, 20) == c
                &&& n32(s, c) == 2
                &&& n16(s, c + 4) == m.num_marks
                &&& s.subrange(220, a) == enc_sequence_info(m.atc_sequences)
                &&& s.subrange(a, b) == enc_program_info(m.programs)
                &&& s.subrange(b, c) == enc_cpi(m.cpi)
            }
        }),
{
    let s = enc_clip(m);
    let seq = enc_sequence_info(m.atc_sequences);
    let prog = enc_program_info(m.programs);
    let cpi = enc_cpi(m.cpi);
    let a = 220 + seq.len() as int;
    let b = a + prog.len();
    let c = b + cpi.len();
    let head = clip_head(m);
    let tail = enc32(2) + enc16(m.num_marks);
    lemma_clip_head(m);
    lemma_written_numbers(0, m.num_marks, 2, 0, 0);
    assert(tail.subrange(0, 4) =~= enc32(2) && tail.subrange(4, 6) =~= enc16(m.num_marks));
    assert(n32(tail, 0) == n32(tail.subrange(0, 4), 0));
    assert(n16(tail, 4) == n16(tail.subrange(4, 6), 0));
    assert(s =~= head + seq + prog + cpi + tail);
    lemma_five_parts(head, seq, prog, cpi, tail);
    assert(n32(s, 8) == n32(s.take(220), 8));
    assert(n32(s, 12) == n32(s.take(220), 12));
    assert(n32(s, 16) == n32(s.take(220), 16));
    assert(n32(s, 20) == n32(s.take(220), 20));
    assert(n32(s, c) == n32(s.skip(c), 0));
    assert(n16(s, c + 4) == n16(s.skip(c), 4));
}

/// The fixed part of a clip's file.
pub open spec fn clip_head(m: ClipModel) -> Seq<u8> {
    let seq = enc_sequence_info(m.atc_sequences);
    let prog = enc_program_info(m.programs);
    let cpi = enc_cpi(m.cpi);
    enc_array4([0x43u8, 0x4C, 0x50, 0x49]) + enc_array4(m.version) + enc32(220) + enc32(
        ((220 + seq.len()) % 0x1_0000_0000) as u32,
    ) + enc32(((220 + seq.len() + prog.len()) % 0x1_0000_0000) as u32) + enc32(
        ((220 + seq.len() + prog.len() + cpi.len()) % 0x1_0000_0000) as u32,
    ) + zeros(16) + enc_clip_info(m.clip_info)
}

#[verifier::spinoff_prover]
proof fn lemma_clip_head(m: ClipModel)
    ensures
        ({
            let h = clip_head(m);
            let a = 220 + enc_sequence_info(m.atc_sequences).len() as int;
            let b = a + enc_program_info(m.programs).len();
            let c = b + enc_cpi(m.cpi).len();
            &&& h.len() == 220
            &&& n32(h, 8) == 220
            &&& n32(h, 12) == a % 0x1_0000_0000
            &&& n32(h, 16) == b % 0x1_0000_0000
            &&& n32(h, 20) == c % 0x1_0000_0000
        }),
{
    let h = clip_head(m);
    let a = 220 + enc_sequence_info(m.atc_sequences).len() as int;
    let b = a + enc_program_info(m.programs).len();
    let c = b + enc_cpi(m.cpi).len();
    let x = (a % 0x1_0000_0000) as u32;
    let y = (b % 0x1_0000_0000) as u32;
    let z = (c % 0x1_0000_0000) as u32;
    lemma_clip_info_len(m);
    lemma_written_numbers(0, 0, 220, 0, 16);
    lemma_written_numbers(0, 0, x, 0, 0);
    lemma_written_numbers(0, 0, y, 0, 0);
    lemma_written_numbers(0, 0, z, 0, 0);
    lemma_written_arrays([0x43u8, 0x4C, 0x50, 0x49], [0u8, 0, 0]);
    lemma_written_arrays(m.version, [0u8, 0, 0]);
    assert(h.subrange(8, 12) =~= enc32(220));
    assert(h.subrange(12, 16) =~= enc32(x));
    assert(h.subrange(16, 20) =~= enc32(y));
    assert(h.subrange(20, 24) =~= enc32(z));
    assert(n32(h, 8) == n32(h.subrange(8, 12), 0));
    assert(n32(h, 12) == n32(h.subrange(12, 16), 0));
    assert(n32(h, 16) == n32(h.subrange(16, 20), 0));
    assert(n32(h, 20) == n32(h.subrange(20, 24), 0));
}

#[verifier::spinoff_prover]
proof fn lemma_five_parts(h: Seq<u8>, a: Seq<u8>, b: Seq<u8>, c: Seq<u8>, t: Seq<u8>)
    ensures
        ({
            let s = h + a + b + c + t;
            let i = h.len() as int;
            let j = i + a.len();
            let k = j + b.len();
            let l = k + c.len();
            &&& s.take(i) == h
            &&& s.subrange(i, j) == a
            &&& s.subrange(j, k) == b
            &&& s.subrange(k, l) == c
            &&& s.skip(l) == t
            &&& s.len() == l + t.len()
        }),
{
    let s = h + a + b + c + t;
    let i = h.len() as int;
    let j = i + a.len();
    let k = j + b.len();
    let l = k + c.len();
    assert(s.take(i) =~= h);
    assert(s.subrange(i, j) =~= a);
    assert(s.subrange(j, k) =~= b);
    assert(s.subrange(k, l) =~= c);
    assert(s.skip(l) =~= t);
}

proof fn lemma_clip_info_len(m: ClipModel)
    ensures
        enc_clip_info(m.clip_info).len() == 180,
{
    reveal(enc_clip_info);
    let x = m.clip_info;
    lemma_written_numbers(x.clip_stream_type, 0, 176, 0, 2);
    lemma_written_numbers(x.application_type, 0, x.ts_recording_rate, 0, 4);
    lemma_written_numbers(
        x.ts_type_info_block.validity_flags,
        0,
        x.number_of_source_packets,
        0,
        128,
    );
    lemma_written_numbers(0, 0, 0, 0, 26);
    lemma_written_arrays(x.ts_type_info_block.format_id, [0u8, 0, 0]);
}

} // verus!
