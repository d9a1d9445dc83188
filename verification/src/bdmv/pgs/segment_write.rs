//! Writing segments, and reading them back.
use vstd::prelude::*;

use crate::bdmv::common::{
    enc16, enc24, enc32, enc8, enc_list, group_has_at, has_at, lemma_empty_add, lemma_enc_list_len,
    lemma_enc_list_push, lemma_has_at_self, lemma_has_at_subrange, lemma_list_round_trip, low_u16,
    low_u8, put_bytes, put_u16, put_u24, put_u32, put_u8,
};
use crate::bdmv::pgs::segment::{
    body_of, composition_object_at, composition_object_reader, entry_at, header_at, ods_of, pcs_of,
    pds_of, segment_at, segments_from, wds_of, window_at, window_reader, BodyModel,
    CompositionObject, CompositionState, FragmentFlag, Ods, OdsModel, PaletteEntry, Pcs, PcsModel,
    Pds, PdsModel, Segment, SegmentBody, SegmentHeader, SegmentModel, SegmentType, Wds, Window,
};

verus! {

// ---------------------------------------------------------------------
// The bytes
// ---------------------------------------------------------------------

#[verifier::opaque]
pub open spec fn enc_header(h: SegmentHeader) -> Seq<u8> {
    enc8(0x50) + enc8(0x47) + enc32(h.pts) + enc32(h.dts) + enc8(h.segment_type) + enc16(
        h.segment_size,
    )
}

#[verifier::opaque]
pub open spec fn enc_composition_object(o: CompositionObject) -> Seq<u8> {
    let head = enc16(o.object_id) + enc8(o.window_id) + enc8(o.object_cropped_flag) + enc16(
        o.object_horizontal_position,
    ) + enc16(o.object_vertical_position);
    match o.cropping {
        None => head,
        Some(c) => head + enc16(c.horizontal_position) + enc16(c.vertical_position) + enc16(
            c.width,
        ) + enc16(c.height),
    }
}

pub open spec fn composition_object_enc() -> spec_fn(CompositionObject) -> Seq<u8> {
    |o: CompositionObject| enc_composition_object(o)
}

#[verifier::opaque]
pub open spec fn enc_pcs(m: PcsModel) -> Seq<u8> {
    enc16(m.width) + enc16(m.height) + enc8(m.frame_rate) + enc16(m.composition_number) + enc8(
        m.composition_state,
    ) + enc8(m.palette_update_flag) + enc8(m.palette_id) + enc8(
        (m.composition_objects.len() % 256) as u8,
    ) + enc_list(composition_object_enc(), m.composition_objects)
}

#[verifier::opaque]
pub open spec fn enc_window(w: Window) -> Seq<u8> {
    enc8(w.window_id) + enc16(w.horizontal_position) + enc16(w.vertical_position) + enc16(w.width)
        + enc16(w.height)
}

pub open spec fn window_enc() -> spec_fn(Window) -> Seq<u8> {
    |w: Window| enc_window(w)
}

#[verifier::opaque]
pub open spec fn enc_wds(windows: Seq<Window>) -> Seq<u8> {
    enc8((windows.len() % 256) as u8) + enc_list(window_enc(), windows)
}

#[verifier::opaque]
pub open spec fn enc_entry(e: PaletteEntry) -> Seq<u8> {
    enc8(e.palette_entry_id) + enc8(e.y) + enc8(e.cr) + enc8(e.cb) + enc8(e.alpha)
}

pub open spec fn entry_enc() -> spec_fn(PaletteEntry) -> Seq<u8> {
    |e: PaletteEntry| enc_entry(e)
}

#[verifier::opaque]
pub open spec fn enc_pds(m: PdsModel) -> Seq<u8> {
    enc8(m.palette_id) + enc8(m.palette_version_number) + enc_list(entry_enc(), m.entries)
}

pub open spec fn enc_size(x: Option<u16>) -> Seq<u8> {
    match x {
        Some(v) => enc16(v),
        None => Seq::empty(),
    }
}

#[verifier::opaque]
pub open spec fn enc_ods(m: OdsModel) -> Seq<u8> {
    enc16(m.object_id) + enc8(m.object_version_number) + enc8(m.last_in_sequence_flag) + enc24(
        (m.object_data_length % 0x100_0000) as u32,
    ) + enc_size(m.width) + enc_size(m.height) + m.object_data
}

pub open spec fn enc_body(b: BodyModel) -> Seq<u8> {
    match b {
        BodyModel::Pcs(x) => enc_pcs(x),
        BodyModel::Wds(x) => enc_wds(x),
        BodyModel::Pds(x) => enc_pds(x),
        BodyModel::Ods(x) => enc_ods(x),
        BodyModel::End => Seq::empty(),
        BodyModel::Other { segment_type: _, data } => data,
    }
}

/// The type byte of a body.
pub open spec fn body_type(b: BodyModel) -> u8 {
    match b {
        BodyModel::Pcs(_) => 0x16,
        BodyModel::Wds(_) => 0x17,
        BodyModel::Pds(_) => 0x14,
        BodyModel::Ods(_) => 0x15,
        BodyModel::End => 0x80,
        BodyModel::Other { segment_type, data: _ } => segment_type,
    }
}

/// The header that a segment is written with: type and size follow from the
/// body.
pub open spec fn written_header(m: SegmentModel) -> SegmentHeader {
    SegmentHeader {
        pts: m.header.pts,
        dts: m.header.dts,
        segment_type: body_type(m.body),
        segment_size: (enc_body(m.body).len() % 0x1_0000) as u16,
    }
}

/// A whole segment.
pub open spec fn enc_segment(m: SegmentModel) -> Seq<u8> {
    enc_header(written_header(m)) + enc_body(m.body)
}

pub open spec fn segment_enc() -> spec_fn(SegmentModel) -> Seq<u8> {
    |m: SegmentModel| enc_segment(m)
}

// ---------------------------------------------------------------------
// Writing
// ---------------------------------------------------------------------

fn encode_header(h: &SegmentHeader) -> (out: Vec<u8>)
    ensures
        out@ == enc_header(*h),
{
    broadcast use lemma_empty_add;

    proof {
        reveal(enc_header);
    }
    let mut out: Vec<u8> = Vec::new();
    put_u8(&mut out, 0x50);
    put_u8(&mut out, 0x47);
    put_u32(&mut out, h.pts);
    put_u32(&mut out, h.dts);
    put_u8(&mut out, h.segment_type);
    put_u16(&mut out, h.segment_size);
    out
}

fn encode_composition_object(o: &CompositionObject) -> (out: Vec<u8>)
    ensures
        out@ == enc_composition_object(*o),
{
    broadcast use lemma_empty_add;

    proof {
        reveal(enc_composition_object);
    }
    let mut out: Vec<u8> = Vec::new();
    put_u16(&mut out, o.object_id);
    put_u8(&mut out, o.window_id);
    put_u8(&mut out, o.object_cropped_flag);
    put_u16(&mut out, o.object_horizontal_position);
    put_u16(&mut out, o.object_vertical_position);
    if let Some(c) = o.cropping {
        put_u16(&mut out, c.horizontal_position);
        put_u16(&mut out, c.vertical_position);
        put_u16(&mut out, c.width);
        put_u16(&mut out, c.height);
    }
    out
}

impl Pcs {
    /// The body of this composition.
    pub fn encode_body(&self) -> (out: Vec<u8>)
        ensures
            out@ == enc_pcs(self@),
    {
        broadcast use lemma_empty_add;

        proof {
            reveal(enc_pcs);
            reveal(enc_list);
        }
        let mut list: Vec<u8> = Vec::new();
        let mut i: usize = 0;
        while i < self.composition_objects.len()
            invariant
                i <= self.composition_objects@.len(),
                list@ == enc_list(
                    composition_object_enc(),
                    self.composition_objects@.take(i as int),
                ),
            decreases self.composition_objects@.len() - i,
        {
            let bytes = encode_composition_object(&self.composition_objects[i]);
            put_bytes(&mut list, &bytes);
            proof {
                lemma_enc_list_push(
                    composition_object_enc(),
                    self.composition_objects@,
                    i as int,
                );
            }
            i += 1;
        }
        assert(self.composition_objects@.take(i as int) =~= self.composition_objects@);
        let mut out: Vec<u8> = Vec::new();
        put_u16(&mut out, self.width);
        put_u16(&mut out, self.height);
        put_u8(&mut out, self.frame_rate);
        put_u16(&mut out, self.composition_number);
        put_u8(&mut out, self.composition_state);
        put_u8(&mut out, self.palette_update_flag);
        put_u8(&mut out, self.palette_id);
        put_u8(&mut out, low_u8(self.composition_objects.len()));
        put_bytes(&mut out, &list);
        out
    }
}

fn encode_window(w: &Window) -> (out: Vec<u8>)
    ensures
        out@ == enc_window(*w),
{
    broadcast use lemma_empty_add;

    proof {
        reveal(enc_window);
    }
    let mut out: Vec<u8> = Vec::new();
    put_u8(&mut out, w.window_id);
    put_u16(&mut out, w.horizontal_position);
    put_u16(&mut out, w.vertical_position);
    put_u16(&mut out, w.width);
    put_u16(&mut out, w.height);
    out
}

impl Wds {
    /// The body of this window definition.
    pub fn encode_body(&self) -> (out: Vec<u8>)
        ensures
            out@ == enc_wds(self@),
    {
        broadcast use lemma_empty_add;

        proof {
            reveal(enc_wds);
            reveal(enc_list);
        }
        let mut list: Vec<u8> = Vec::new();
        let mut i: usize = 0;
        while i < self.windows.len()
            invariant
                i <= self.windows@.len(),
                list@ == enc_list(window_enc(), self.windows@.take(i as int)),
            decreases self.windows@.len() - i,
        {
            let bytes = encode_window(&self.windows[i]);
            put_bytes(&mut list, &bytes);
            proof {
                lemma_enc_list_push(window_enc(), self.windows@, i as int);
            }
            i += 1;
        }
        assert(self.windows@.take(i as int) =~= self.windows@);
        let mut out: Vec<u8> = Vec::new();
        put_u8(&mut out, low_u8(self.windows.len()));
        put_bytes(&mut out, &list);
        out
    }
}

fn encode_entry(e: &PaletteEntry) -> (out: Vec<u8>)
    ensures
        out@ == enc_entry(*e),
{
    broadcast use lemma_empty_add;

    proof {
        reveal(enc_entry);
    }
    let mut out: Vec<u8> = Vec::new();
    put_u8(&mut out, e.palette_entry_id);
    put_u8(&mut out, e.y);
    put_u8(&mut out, e.cr);
    put_u8(&mut out, e.cb);
    put_u8(&mut out, e.alpha);
    out
}

impl Pds {
    /// The body of this palette definition.
    pub fn encode_body(&self) -> (out: Vec<u8>)
        ensures
            out@ == enc_pds(self@),
    {
        broadcast use lemma_empty_add;

        proof {
            reveal(enc_pds);
            reveal(enc_list);
        }
        let mut list: Vec<u8> = Vec::new();
        let mut i: usize = 0;
        while i < self.entries.len()
            invariant
                i <= self.entries@.len(),
                list@ == enc_list(entry_enc(), self.entries@.take(i as int)),
            decreases self.entries@.len() - i,
        {
            let bytes = encode_entry(&self.entries[i]);
            put_bytes(&mut list, &bytes);
            proof {
                lemma_enc_list_push(entry_enc(), self.entries@, i as int);
            }
            i += 1;
        }
        assert(self.entries@.take(i as int) =~= self.entries@);
        let mut out: Vec<u8> = Vec::new();
        put_u8(&mut out, self.palette_id);
        put_u8(&mut out, self.palette_version_number);
        put_bytes(&mut out, &list);
        out
    }
}

fn put_size(out: &mut Vec<u8>, x: Option<u16>)
    ensures
        final(out)@ == old(out)@ + enc_size(x),
{
    match x {
        Some(v) => put_u16(out, v),
        None => {
            assert(out@ =~= old(out)@ + Seq::<u8>::empty());
        },
    }
}

impl Ods {
    /// The body of this object definition.
    pub fn encode_body(&self) -> (out: Vec<u8>)
        ensures
            out@ == enc_ods(self@),
    {
        broadcast use lemma_empty_add;

        proof {
            reveal(enc_ods);
        }
        let mut out: Vec<u8> = Vec::new();
        put_u16(&mut out, self.object_id);
        put_u8(&mut out, self.object_version_number);
        put_u8(&mut out, self.last_in_sequence_flag);
        put_u24(&mut out, self.object_data_length % 0x100_0000);
        put_size(&mut out, self.width);
        put_size(&mut out, self.height);
        put_bytes(&mut out, &self.object_data);
        out
    }
}

impl Segment {
    /// This segment in bytes. The type and the size in the header follow from
    /// the body.
    pub fn encode(&self) -> (out: Vec<u8>)
        ensures
            out@ == enc_segment(self@),
    {
        broadcast use lemma_empty_add;

        let mut body: Vec<u8> = Vec::new();
        let segment_type: u8 = match &self.body {
            SegmentBody::Pcs(p) => {
                body = p.encode_body();
                SegmentType::Pcs.as_raw()
            },
            SegmentBody::Wds(w) => {
                body = w.encode_body();
                SegmentType::Wds.as_raw()
            },
            SegmentBody::Pds(p) => {
                body = p.encode_body();
                SegmentType::Pds.as_raw()
            },
            SegmentBody::Ods(o) => {
                body = o.encode_body();
                SegmentType::Ods.as_raw()
            },
            SegmentBody::End => SegmentType::End.as_raw(),
            SegmentBody::Other { segment_type, data } => {
                put_bytes(&mut body, data);
                *segment_type
            },
        };
        let header = SegmentHeader {
            pts: self.header.pts,
            dts: self.header.dts,
            segment_type,
            segment_size: low_u16(body.len()),
        };
        let mut out = encode_header(&header);
        put_bytes(&mut out, &body);
        out
    }
}

// ---------------------------------------------------------------------
// Reading gives back what was written
// ---------------------------------------------------------------------

/// A body that the format can hold: counts and sizes fit, cropping and sizes
/// stand where the flags say so.
pub open spec fn valid_body(b: BodyModel) -> bool {
    match b {
        BodyModel::Pcs(x) => {
            &&& x.composition_objects.len() < 256
            &&& forall|i: int|
                0 <= i < x.composition_objects.len() ==> {
                    let o = #[trigger] x.composition_objects[i];
                    o.cropping is Some <==> o.object_cropped_flag == 0x40
                }
        },
        BodyModel::Wds(x) => x.len() < 256,
        BodyModel::Pds(x) => 2 + 5 * x.entries.len() < 0x1_0000,
        BodyModel::Ods(x) => {
            &&& x.object_data_length < 0x100_0000
            &&& (x.width is Some <==> x.flag().first())
            &&& (x.height is Some <==> x.flag().first())
            &&& 7 + x.object_data.len() < 0x1_0000
            &&& x.flag().first() ==> 11 + x.object_data.len() < 0x1_0000
        },
        BodyModel::End => true,
        BodyModel::Other { segment_type, data } => SegmentType::of_raw(segment_type) is Other
            && data.len() < 0x1_0000,
    }
}

/// A segment that the format can hold. Its header says what the body is.
pub open spec fn valid_segment(m: SegmentModel) -> bool {
    valid_body(m.body) && m.header == written_header(m)
}

proof fn lemma_composition_object_round_trip(b: Seq<u8>, p: int, o: CompositionObject)
    requires
        has_at(b, p, enc_composition_object(o)),
        o.cropping is Some <==> o.object_cropped_flag == 0x40,
    ensures
        composition_object_at(b, p) == Some((o, p + enc_composition_object(o).len())),
        enc_composition_object(o).len() <= 16,
{
    broadcast use group_has_at;

    reveal(enc_composition_object);
}

proof fn lemma_objects_len(xs: Seq<CompositionObject>)
    ensures
        enc_list(composition_object_enc(), xs).len() <= 16 * xs.len(),
    decreases xs.len(),
{
    broadcast use group_has_at;

    reveal(enc_list);
    if xs.len() > 0 {
        lemma_objects_len(xs.drop_last());
        assert(enc_composition_object(xs.last()).len() <= 16) by {
            reveal(enc_composition_object);
        }
    }
}

proof fn lemma_pcs_round_trip(m: PcsModel)
    requires
        valid_body(BodyModel::Pcs(m)),
    ensures
        pcs_of(enc_pcs(m)) == Some(m),
        enc_pcs(m).len() < 0x1_0000,
{
    broadcast use group_has_at;

    let b = enc_pcs(m);
    let xs = m.composition_objects;
    lemma_has_at_self(b);
    lemma_objects_len(xs);
    reveal(enc_pcs);
    assert forall|i: int, q: int|
        0 <= i < xs.len() && #[trigger] has_at(
            b,
            q,
            composition_object_enc()(xs[i]),
        ) implies composition_object_reader(b)(q) == Some(
        (xs[i], q + composition_object_enc()(xs[i]).len()),
    ) by {
        lemma_composition_object_round_trip(b, q, xs[i]);
    }
    lemma_list_round_trip(b, composition_object_reader(b), composition_object_enc(), 11, xs);
}

proof fn lemma_window_round_trip(b: Seq<u8>, p: int, w: Window)
    requires
        has_at(b, p, enc_window(w)),
    ensures
        window_at(b, p) == Some((w, p + 9)),
        enc_window(w).len() == 9,
{
    broadcast use group_has_at;

    reveal(enc_window);
}

proof fn lemma_wds_round_trip(xs: Seq<Window>)
    requires
        xs.len() < 256,
    ensures
        wds_of(enc_wds(xs)) == Some(xs),
        enc_wds(xs).len() < 0x1_0000,
{
    broadcast use group_has_at;

    let b = enc_wds(xs);
    lemma_has_at_self(b);
    reveal(enc_wds);
    assert forall|i: int, q: int|
        0 <= i < xs.len() && #[trigger] has_at(b, q, window_enc()(xs[i])) implies window_reader(b)(
        q,
    ) == Some((xs[i], q + window_enc()(xs[i]).len())) by {
        lemma_window_round_trip(b, q, xs[i]);
    }
    assert forall|i: int| 0 <= i < xs.len() implies (#[trigger] window_enc()(xs[i])).len() == 9 by {
        reveal(enc_window);
    }
    lemma_enc_list_len(window_enc(), xs, 9);
    lemma_list_round_trip(b, window_reader(b), window_enc(), 1, xs);
}

/// Where entry `i` of a written palette stands.
proof fn lemma_entry_place(b: Seq<u8>, p: int, xs: Seq<PaletteEntry>, i: int)
    requires
        has_at(b, p, enc_list(entry_enc(), xs)),
        0 <= i < xs.len(),
    ensures
        entry_at(b, p + 5 * i) == xs[i],
        enc_list(entry_enc(), xs).len() == 5 * xs.len(),
    decreases xs.len(),
{
    broadcast use group_has_at;

    reveal(enc_list);
    reveal(enc_entry);
    assert forall|k: int| 0 <= k < xs.len() implies (#[trigger] entry_enc()(xs[k])).len() == 5 by {}
    lemma_enc_list_len(entry_enc(), xs, 5);
    let ys = xs.drop_last();
    assert forall|k: int| 0 <= k < ys.len() implies (#[trigger] entry_enc()(ys[k])).len() == 5 by {}
    lemma_enc_list_len(entry_enc(), ys, 5);
    assert(has_at(b, p, enc_list(entry_enc(), ys) + enc_entry(xs.last())));
    if i < ys.len() {
        lemma_entry_place(b, p, ys, i);
    }
}

proof fn lemma_pds_round_trip(m: PdsModel)
    requires
        2 + 5 * m.entries.len() < 0x1_0000,
    ensures
        pds_of(enc_pds(m)) == Some(m),
        enc_pds(m).len() < 0x1_0000,
{
    broadcast use group_has_at;

    let b = enc_pds(m);
    lemma_has_at_self(b);
    reveal(enc_pds);
    let xs = m.entries;
    assert forall|k: int| 0 <= k < xs.len() implies (#[trigger] entry_enc()(xs[k])).len() == 5 by {
        reveal(enc_entry);
    }
    lemma_enc_list_len(entry_enc(), xs, 5);
    let got = Seq::new(((b.len() - 2) / 5) as nat, |i: int| entry_at(b, 2 + 5 * i));
    assert forall|i: int| 0 <= i < xs.len() implies #[trigger] got[i] == xs[i] by {
        lemma_entry_place(b, 2, xs, i);
    }
    assert(got =~= xs);
}

proof fn lemma_ods_round_trip(m: OdsModel)
    requires
        valid_body(BodyModel::Ods(m)),
    ensures
        ods_of(enc_ods(m)) == Some(m),
        enc_ods(m).len() < 0x1_0000,
{
    broadcast use group_has_at;

    let b = enc_ods(m);
    lemma_has_at_self(b);
    reveal(enc_ods);
    let at: int = if m.flag().first() {
        11
    } else {
        7
    };
    assert(has_at(b, at, m.object_data));
    lemma_has_at_subrange(b, at, m.object_data);
    assert(b.skip(at) =~= m.object_data);
}

proof fn lemma_body_round_trip(x: BodyModel)
    requires
        valid_body(x),
    ensures
        body_of(body_type(x), enc_body(x)) == Some(x),
        enc_body(x).len() < 0x1_0000,
{
    match x {
        BodyModel::Pcs(m) => lemma_pcs_round_trip(m),
        BodyModel::Wds(m) => lemma_wds_round_trip(m),
        BodyModel::Pds(m) => lemma_pds_round_trip(m),
        BodyModel::Ods(m) => lemma_ods_round_trip(m),
        _ => {},
    }
}

proof fn lemma_segment_at_offset(s: Seq<u8>, p: int, m: SegmentModel)
    requires
        has_at(s, p, enc_segment(m)),
        valid_segment(m),
    ensures
        segment_at(s, p) == Some((m, p + enc_segment(m).len())),
        enc_segment(m).len() >= 13,
{
    broadcast use group_has_at;

    lemma_body_round_trip(m.body);
    let h = written_header(m);
    assert(enc_header(h).len() == 13 && header_at(s, p) == Some(h)) by {
        reveal(enc_header);
    }
    assert(has_at(s, p + 13, enc_body(m.body)));
    lemma_has_at_subrange(s, p + 13, enc_body(m.body));
}

/// Reading a written segment gives back what was written, and how long it is.
pub proof fn lemma_segment_round_trip(m: SegmentModel)
    requires
        valid_segment(m),
    ensures
        segment_at(enc_segment(m), 0) == Some((m, enc_segment(m).len() as int)),
{
    lemma_has_at_self(enc_segment(m));
    lemma_segment_at_offset(enc_segment(m), 0, m);
}

proof fn lemma_stream_from(s: Seq<u8>, xs: Seq<SegmentModel>, i: int)
    requires
        s == enc_list(segment_enc(), xs),
        forall|k: int| 0 <= k < xs.len() ==> valid_segment(#[trigger] xs[k]),
        0 <= i <= xs.len(),
    ensures
        segments_from(s, enc_list(segment_enc(), xs.take(i)).len() as int) == Some(xs.skip(i)),
    decreases xs.len() - i,
{
    broadcast use group_has_at;

    lemma_has_at_self(s);
    let p = enc_list(segment_enc(), xs.take(i)).len() as int;
    if i == xs.len() {
        assert(xs.take(i) =~= xs);
        assert(xs.skip(i) =~= Seq::empty());
    } else {
        lemma_stream_prefix(xs, i + 1);
        lemma_enc_list_push(segment_enc(), xs, i);
        let q = enc_list(segment_enc(), xs.take(i + 1)).len() as int;
        let head = enc_list(segment_enc(), xs.take(i)) + enc_segment(xs[i]);
        assert(has_at(s, 0, head)) by {
            reveal(has_at);
            assert(s.subrange(0, head.len() as int) =~= head);
        }
        assert(has_at(s, p, enc_segment(xs[i])));
        lemma_segment_at_offset(s, p, xs[i]);
        lemma_stream_from(s, xs, i + 1);
        assert(seq![xs[i]] + xs.skip(i + 1) =~= xs.skip(i));
    }
}

/// What is written first stands first.
proof fn lemma_stream_prefix(xs: Seq<SegmentModel>, i: int)
    requires
        0 <= i <= xs.len(),
    ensures
        enc_list(segment_enc(), xs).len() >= enc_list(segment_enc(), xs.take(i)).len(),
        enc_list(segment_enc(), xs).take(enc_list(segment_enc(), xs.take(i)).len() as int)
            == enc_list(segment_enc(), xs.take(i)),
    decreases xs.len(),
{
    reveal(enc_list);
    if i == xs.len() {
        assert(xs.take(i) =~= xs);
        let e = enc_list(segment_enc(), xs);
        assert(e.take(e.len() as int) =~= e);
    } else {
        let ys = xs.drop_last();
        lemma_stream_prefix(ys, i);
        assert(ys.take(i) =~= xs.take(i));
        let n = enc_list(segment_enc(), xs.take(i)).len() as int;
        let e = enc_list(segment_enc(), ys);
        let f = enc_list(segment_enc(), xs);
        assert(f == e + enc_segment(xs.last()));
        assert(f.take(n) =~= e.take(n));
    }
}

/// Reading a written stream gives back its segments.
pub proof fn lemma_stream_round_trip(xs: Seq<SegmentModel>)
    requires
        forall|k: int| 0 <= k < xs.len() ==> valid_segment(#[trigger] xs[k]),
    ensures
        segments_from(enc_list(segment_enc(), xs), 0) == Some(xs),
{
    lemma_stream_from(enc_list(segment_enc(), xs), xs, 0);
    reveal(enc_list);
    assert(xs.take(0) =~= Seq::empty());
    assert(xs.skip(0) =~= xs);
}

/// The codes of the three enumerations read back as they were written.
pub proof fn lemma_pgs_codes_round_trip(v: u8)
    ensures
        SegmentType::of_raw(v).raw() == v,
        CompositionState::of_raw(v).raw() == v,
        FragmentFlag::of_raw(v).raw() == v,
{
}

} // verus!
