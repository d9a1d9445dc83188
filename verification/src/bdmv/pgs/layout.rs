//! Where the fields of segments lie, and what colours are.
//!
//! The laws speak of the bytes of a graphics stream: what is read from a stream
//! that can be read, and which streams can be read.
use vstd::prelude::*;

use crate::bdmv::common::{
    lemma_list_by_steps, lemma_list_in_steps, lemma_list_of_steps, lemma_stepped, list_at, stepped,
};
use crate::bdmv::layout::{lemma_n16, lemma_n32, lemma_numbers, n32};
use crate::bdmv::pgs::render::{channel, entry_color, looked_up, Rgba8};
use crate::bdmv::pgs::segment::{
    body_of, composition_object_at, composition_object_reader, ods_of, pcs_of, segment_at,
    segments_from, wds_of, window_reader, BodyModel, CompositionObject, OdsModel, PaletteEntry,
    PcsModel, PdsModel, SegmentModel, Window,
};

verus! {

/// Where the next object of a composition lies: a cropped one has sixteen
/// bytes, any other eight.
pub open spec fn next_shown(b: Seq<u8>) -> spec_fn(int) -> int {
    |p: int|
        if b[p + 3] == 0x40 {
            p + 16
        } else {
            p + 8
        }
}

pub open spec fn shown_fits(b: Seq<u8>) -> spec_fn(int) -> bool {
    |p: int| p + 8 <= b.len() && next_shown(b)(p) <= b.len()
}

/// What an object of a composition at `p` says: its number, its window, whether
/// it is cropped, its place across and down; then the part that is shown, its
/// place within the object and its size.
pub open spec fn shown_says(b: Seq<u8>, p: int, x: CompositionObject) -> bool {
    &&& x.object_id == b[p] * 0x100 + b[p + 1]
    &&& x.window_id == b[p + 2]
    &&& x.object_cropped_flag == b[p + 3]
    &&& x.object_horizontal_position == b[p + 4] * 0x100 + b[p + 5]
    &&& x.object_vertical_position == b[p + 6] * 0x100 + b[p + 7]
    &&& x.cropping is Some <==> b[p + 3] == 0x40
    &&& x.cropping matches Some(c) ==> {
        &&& c.horizontal_position == b[p + 8] * 0x100 + b[p + 9]
        &&& c.vertical_position == b[p + 10] * 0x100 + b[p + 11]
        &&& c.width == b[p + 12] * 0x100 + b[p + 13]
        &&& c.height == b[p + 14] * 0x100 + b[p + 15]
    }
}

proof fn lemma_shown(b: Seq<u8>, p: int)
    requires
        0 <= p,
    ensures
        composition_object_at(b, p) is Some <==> shown_fits(b)(p),
        composition_object_at(b, p) matches Some((x, q)) ==> q == next_shown(b)(p) && shown_says(
            b,
            p,
            x,
        ),
{
    lemma_n16(b, p);
    lemma_n16(b, p + 4);
    lemma_n16(b, p + 6);
    lemma_n16(b, p + 8);
    lemma_n16(b, p + 10);
    lemma_n16(b, p + 12);
    lemma_n16(b, p + 14);
}

/// Whether bytes are a composition.
pub open spec fn pcs_fits(b: Seq<u8>) -> bool {
    b.len() >= 11 && forall|i: int|
        0 <= i < b[10] ==> shown_fits(b)(#[trigger] stepped(next_shown(b), 11, i))
}

/// What a composition says: the size of the screen, the rate, its number, its
/// state, whether only the palette changes, its palette, and its objects.
pub open spec fn pcs_says(b: Seq<u8>, x: PcsModel) -> bool {
    &&& x.width == b[0] * 0x100 + b[1]
    &&& x.height == b[2] * 0x100 + b[3]
    &&& x.frame_rate == b[4]
    &&& x.composition_number == b[5] * 0x100 + b[6]
    &&& x.composition_state == b[7]
    &&& x.palette_update_flag == b[8]
    &&& x.palette_id == b[9]
    &&& x.composition_objects.len() == b[10]
    &&& forall|i: int|
        0 <= i < x.composition_objects.len() ==> shown_says(
            b,
            stepped(next_shown(b), 11, i),
            #[trigger] x.composition_objects[i],
        )
}

proof fn lemma_pcs(b: Seq<u8>)
    ensures
        pcs_of(b) is Some <==> pcs_fits(b),
        pcs_of(b) matches Some(x) ==> pcs_says(b, x),
{
    lemma_n16(b, 0);
    lemma_n16(b, 2);
    lemma_n16(b, 5);
    let item = composition_object_reader(b);
    let next = next_shown(b);
    let good = shown_fits(b);
    let n = b[10] as nat;
    assert forall|q: int| q >= 11 implies (#[trigger] item(q) is Some <==> good(q)) && (item(
        q,
    ) matches Some((x, e)) ==> e == next(q) && shown_says(b, q, x)) by {
        lemma_shown(b, q);
    }
    assert forall|q: int| q >= 11 implies #[trigger] next(q) >= q by {}
    lemma_list_by_steps(item, next, good, 11, 0, n);
    assert(stepped(next, 11, 0) == 11);
    if let Some((xs, _)) = list_at(item, 11, n) {
        assert forall|i: int| 0 <= i < n implies shown_says(
            b,
            stepped(next, 11, i),
            #[trigger] xs[i],
        ) by {
            lemma_stepped(next, 11, i);
            assert(item(stepped(next, 11, 0 + i)) == Some((xs[i], stepped(next, 11, 0 + i + 1))));
        }
    }
}

/// What a window at `p` says: its number, its place across and down, its size.
pub open spec fn window_says(b: Seq<u8>, p: int, x: Window) -> bool {
    &&& x.window_id == b[p]
    &&& x.horizontal_position == b[p + 1] * 0x100 + b[p + 2]
    &&& x.vertical_position == b[p + 3] * 0x100 + b[p + 4]
    &&& x.width == b[p + 5] * 0x100 + b[p + 6]
    &&& x.height == b[p + 7] * 0x100 + b[p + 8]
}

proof fn lemma_wds(b: Seq<u8>)
    ensures
        wds_of(b) is Some <==> b.len() >= 1 && b.len() >= 1 + 9 * b[0],
        wds_of(b) matches Some(xs) ==> xs.len() == b[0] && forall|i: int|
            0 <= i < xs.len() ==> window_says(b, 1 + 9 * i, #[trigger] xs[i]),
{
    let item = window_reader(b);
    let n = b[0] as nat;
    lemma_list_in_steps(item, 1, n, 9);
    if list_at(item, 1, n) is Some {
        let (xs, _) = list_at(item, 1, n)->0;
        assert forall|i: int| 0 <= i < n implies window_says(b, 1 + 9 * i, #[trigger] xs[i]) by {
            let q = 1 + i * 9;
            assert(item(q) == Some((xs[i], q + 9)));
            lemma_n16(b, q + 1);
            lemma_n16(b, q + 3);
            lemma_n16(b, q + 5);
            lemma_n16(b, q + 7);
        }
        if n > 0 {
            let q = 1 + (n - 1) * 9;
            assert(item(q) == Some((xs[n - 1], q + 9)));
        }
    }
    if b.len() >= 1 + 9 * n {
        lemma_list_of_steps(item, 1, n, 9);
    }
}

/// What a palette says: its number, its version, and entries of five bytes,
/// each the number of a colour, its brightness, its red and blue differences,
/// and how much it covers.
pub open spec fn pds_says(b: Seq<u8>, x: PdsModel) -> bool {
    &&& x.palette_id == b[0]
    &&& x.palette_version_number == b[1]
    &&& b.len() == 2 + 5 * x.entries.len()
    &&& forall|i: int|
        0 <= i < x.entries.len() ==> {
            let e = #[trigger] x.entries[i];
            &&& e.palette_entry_id == b[2 + 5 * i]
            &&& e.y == b[3 + 5 * i]
            &&& e.cr == b[4 + 5 * i]
            &&& e.cb == b[5 + 5 * i]
            &&& e.alpha == b[6 + 5 * i]
        }
}

/// What a part of a bitmap says: the number of the object and its version,
/// which part it is, and the length of the whole; where it is the first part,
/// the size of the bitmap; then the coded bytes.
pub open spec fn ods_says(b: Seq<u8>, x: OdsModel) -> bool {
    let first = b[3] == 0x80 || b[3] == 0xC0;
    &&& x.object_id == b[0] * 0x100 + b[1]
    &&& x.object_version_number == b[2]
    &&& x.last_in_sequence_flag == b[3]
    &&& x.object_data_length == b[4] * 0x1_0000 + b[5] * 0x100 + b[6]
    &&& first ==> x.width is Some && x.height is Some && x.width->0 == b[7] * 0x100 + b[8]
        && x.height->0 == b[9] * 0x100 + b[10] && x.object_data == b.subrange(11, b.len() as int)
    &&& !first ==> x.width is None && x.height is None && x.object_data == b.subrange(
        7,
        b.len() as int,
    )
}

/// Whether bytes are the body of a segment of a type.
pub open spec fn body_fits(t: u8, b: Seq<u8>) -> bool {
    &&& t == 0x14 ==> b.len() >= 2 && (b.len() - 2) % 5 == 0
    &&& t == 0x15 ==> b.len() >= if b[3] == 0x80 || b[3] == 0xC0 {
        11int
    } else {
        7int
    }
    &&& t == 0x16 ==> pcs_fits(b)
    &&& t == 0x17 ==> b.len() >= 1 && b.len() >= 1 + 9 * b[0]
    &&& t == 0x80 ==> b.len() == 0
}

/// What the body of a segment says, by the type of the segment.
pub open spec fn body_says(t: u8, b: Seq<u8>, x: BodyModel) -> bool {
    match x {
        BodyModel::Pds(p) => t == 0x14 && pds_says(b, p),
        BodyModel::Ods(o) => t == 0x15 && ods_says(b, o),
        BodyModel::Pcs(p) => t == 0x16 && pcs_says(b, p),
        BodyModel::Wds(ws) => t == 0x17 && ws.len() == b[0] && forall|i: int|
            0 <= i < ws.len() ==> window_says(b, 1 + 9 * i, #[trigger] ws[i]),
        BodyModel::End => t == 0x80,
        BodyModel::Other { segment_type, data } => segment_type == t && data == b && t != 0x14 && t
            != 0x15 && t != 0x16 && t != 0x17 && t != 0x80,
    }
}

proof fn lemma_body(t: u8, b: Seq<u8>)
    ensures
        body_of(t, b) is Some <==> body_fits(t, b),
        body_of(t, b) matches Some(x) ==> body_says(t, b, x),
{
    lemma_pcs(b);
    lemma_wds(b);
    lemma_n16(b, 0);
    lemma_n16(b, 7);
    lemma_n16(b, 9);
    lemma_numbers(b, 4);
    if let Some(o) = ods_of(b) {
        if b.len() >= 11 {
            assert(b.skip(11) =~= b.subrange(11, b.len() as int));
        }
        assert(b.skip(7) =~= b.subrange(7, b.len() as int));
    }
}

/// Where the next segment lies: behind thirteen bytes and as many as the last
/// two of them count.
pub open spec fn next_segment(s: Seq<u8>) -> spec_fn(int) -> int {
    |p: int| p + 13 + (s[p + 11] * 0x100 + s[p + 12])
}

/// The body of the segment at `p`.
pub open spec fn body_bytes(s: Seq<u8>, p: int) -> Seq<u8> {
    s.subrange(p + 13, next_segment(s)(p))
}

/// Whether a segment lies at `p`: it begins with `PG`, and its body is one of
/// its type.
pub open spec fn segment_fits(s: Seq<u8>, p: int) -> bool {
    &&& p + 13 <= s.len()
    &&& s[p] == 0x50 && s[p + 1] == 0x47
    &&& next_segment(s)(p) <= s.len()
    &&& body_fits(s[p + 10], body_bytes(s, p))
}

/// What a segment at `p` says: when it is shown and when it is decoded, its
/// type, the length of its body, and what the body says.
pub open spec fn segment_says(s: Seq<u8>, p: int, x: SegmentModel) -> bool {
    &&& x.header.pts == n32(s, p + 2)
    &&& x.header.dts == n32(s, p + 6)
    &&& x.header.segment_type == s[p + 10]
    &&& x.header.segment_size == s[p + 11] * 0x100 + s[p + 12]
    &&& body_says(s[p + 10], body_bytes(s, p), x.body)
}

proof fn lemma_segment(s: Seq<u8>, p: int)
    requires
        0 <= p,
    ensures
        segment_at(s, p) is Some <==> segment_fits(s, p),
        segment_at(s, p) matches Some((x, q)) ==> q == next_segment(s)(p) && segment_says(s, p, x),
{
    lemma_n32(s, p + 2);
    lemma_n32(s, p + 6);
    lemma_n16(s, p + 11);
    lemma_body(s[p + 10], body_bytes(s, p));
}

/// What is read from a graphics stream: its segments, one behind the other, up
/// to the end.
pub proof fn lemma_stream_fields(s: Seq<u8>, p: int, v: Seq<SegmentModel>)
    requires
        0 <= p <= s.len(),
        segments_from(s, p) == Some(v),
    ensures
        stepped(next_segment(s), p, v.len() as int) == s.len(),
        forall|i: int|
            0 <= i < v.len() ==> segment_says(s, stepped(next_segment(s), p, i), #[trigger] v[i]),
    decreases s.len() - p,
{
    let next = next_segment(s);
    if p < s.len() {
        lemma_segment(s, p);
        let (seg, q) = segment_at(s, p)->0;
        let rest = segments_from(s, q)->0;
        lemma_stream_fields(s, q, rest);
        assert(v == seq![seg] + rest);
        assert forall|i: int| 0 <= i <= v.len() implies #[trigger] stepped(next, p, i) == if i
            == 0 {
            p
        } else {
            stepped(next, q, i - 1)
        } by {
            lemma_step_ahead(next, p, i);
        }
        assert forall|i: int| 0 <= i < v.len() implies segment_says(
            s,
            stepped(next, p, i),
            #[trigger] v[i],
        ) by {
            if i > 0 {
                assert(v[i] == rest[i - 1]);
            }
        }
    } else {
        assert(v.len() == 0);
    }
}

proof fn lemma_step_ahead(next: spec_fn(int) -> int, p: int, i: int)
    requires
        0 <= i,
    ensures
        stepped(next, p, i) == if i == 0 {
            p
        } else {
            stepped(next, next(p), i - 1)
        },
    decreases i,
{
    if i > 0 {
        lemma_step_ahead(next, p, i - 1);
        if i == 1 {
            assert(stepped(next, p, 0) == p);
            assert(stepped(next, next(p), 0) == next(p));
        }
    }
}

/// Which graphics streams can be read: those that segments fill to the end.
pub proof fn lemma_stream_readable(s: Seq<u8>, p: int, n: nat)
    requires
        0 <= p <= s.len(),
        stepped(next_segment(s), p, n as int) == s.len(),
        forall|i: int| 0 <= i < n ==> segment_fits(s, #[trigger] stepped(next_segment(s), p, i)),
    ensures
        segments_from(s, p) matches Some(v) && v.len() == n,
    decreases n,
{
    let next = next_segment(s);
    if n == 0 {
        assert(stepped(next, p, 0) == p);
    } else {
        assert(stepped(next, p, 0) == p);
        assert(segment_fits(s, p));
        lemma_segment(s, p);
        let q = next(p);
        let k = (n - 1) as nat;
        lemma_step_ahead(next, p, n as int);
        assert forall|i: int| 0 <= i < k implies segment_fits(s, #[trigger] stepped(next, q, i)) by {
            lemma_step_ahead(next, p, i + 1);
            assert(segment_fits(s, stepped(next, p, i + 1)));
        }
        lemma_stream_readable(s, q, k);
    }
}

/// A stream whose next segment cannot be read cannot be read.
pub proof fn lemma_stream_unreadable(s: Seq<u8>, p: int)
    requires
        0 <= p < s.len(),
        !segment_fits(s, p),
    ensures
        segments_from(s, p) is None,
{
    lemma_segment(s, p);
}

// ---------------------------------------------------------------------
// Colours
// ---------------------------------------------------------------------

/// Whether `r` is the whole number from 0 to 255 nearest to `num / den`, the
/// greater of two that are as near.
pub open spec fn nearest(r: u8, num: int, den: int) -> bool {
    &&& r == 0 || (2 * r - 1) * den <= 2 * num
    &&& r == 255 || 2 * num < (2 * r + 1) * den
}

proof fn lemma_channel(num: int, den: int)
    requires
        den > 0,
        den % 2 == 0,
    ensures
        nearest(channel(num, den), num, den),
{
    let r = channel(num, den);
    if num <= 0 {
        assert(r == 0);
        assert((2 * 0 + 1) * den == den) by (nonlinear_arith);
    } else if num >= 255 * den {
        assert(r == 255);
        assert((2 * 255 - 1) * den <= 2 * num) by (nonlinear_arith)
            requires
                num >= 255 * den,
                den > 0,
        ;
    } else {
        let q = (2 * num + den) / (2 * den);
        assert(2 * den * q <= 2 * num + den < 2 * den * q + 2 * den && 0 <= q) by (nonlinear_arith)
            requires
                q == (2 * num + den) / (2 * den),
                den > 0,
                num > 0,
        ;
        assert(q <= 255) by (nonlinear_arith)
            requires
                2 * den * q <= 2 * num + den,
                num < 255 * den,
                den > 0,
        ;
        assert((2 * q - 1) * den <= 2 * num && 2 * num < (2 * q + 1) * den) by (nonlinear_arith)
            requires
                2 * den * q <= 2 * num + den < 2 * den * q + 2 * den,
        ;
        assert(r as int == q);
    }
}

/// Colours are those of BT.709 in the studio range: black is 16 and white 235,
/// no difference is 128 and the greatest 112 from it. Red is the brightness and
/// 1.5748 of the red difference; blue is the brightness and 1.8556 of the blue
/// difference; green is the brightness without 0.1873 of the blue and 0.4681
/// of the red difference; each is rounded to the nearest of 0 to 255. How much
/// a colour covers stays as it is.
pub proof fn lemma_colors(e: PaletteEntry)
    ensures
        ({
            let c = entry_color(e);
            let den = 219int * 224 * 10000;
            let luma = (e.y - 16) * 224 * 10000;
            let blue = (e.cb - 128) * 219;
            let red = (e.cr - 128) * 219;
            &&& nearest(c.r, 255 * (luma + 15748 * red), den)
            &&& nearest(c.g, 255 * (luma - 1873 * blue - 4681 * red), den)
            &&& nearest(c.b, 255 * (luma + 18556 * blue), den)
            &&& c.a == e.alpha
        }),
{
    let den = 219int * 224 * 10000;
    let luma = (e.y - 16) * 224 * 10000;
    let blue = (e.cb - 128) * 219;
    let red = (e.cr - 128) * 219;
    lemma_channel(255 * (luma + 15748 * red), den);
    lemma_channel(255 * (luma - 1873 * blue - 4681 * red), den);
    lemma_channel(255 * (luma + 18556 * blue), den);
    let (y, cb, cr) = (e.y - 16, e.cb - 128, e.cr - 128);
    assert(den == 490_560_000 && luma == 2_240_000 * y && blue == 219 * cb && red == 219 * cr);
    assert(255 * (luma + 15748 * red) == 255 * (2_240_000 * y + 219 * 15748 * cr))
        by (nonlinear_arith)
        requires
            luma == 2_240_000 * y,
            red == 219 * cr,
    ;
    assert(255 * (luma - 1873 * blue - 4681 * red) == 255 * (2_240_000 * y - 219 * 1873 * cb - 219
        * 4681 * cr)) by (nonlinear_arith)
        requires
            luma == 2_240_000 * y,
            blue == 219 * cb,
            red == 219 * cr,
    ;
    assert(255 * (luma + 18556 * blue) == 255 * (2_240_000 * y + 219 * 18556 * cb))
        by (nonlinear_arith)
        requires
            luma == 2_240_000 * y,
            blue == 219 * cb,
    ;
}

/// A bitmap in colours has, at every place, the colour that the palette gives
/// to its pixel there.
pub proof fn lemma_looked_up(indices: Seq<u8>, table: Seq<Rgba8>, i: int)
    requires
        0 <= i < indices.len(),
        table.len() == 256,
    ensures
        looked_up(indices, table).len() == indices.len(),
        looked_up(indices, table)[i] == table[indices[i] as int],
{
}

} // verus!
