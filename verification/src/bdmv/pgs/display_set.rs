//! Display sets: the segments of one picture, and bitmaps joined from their
//! fragments.
use vstd::prelude::*;

use crate::bdmv::common::put_bytes;
use crate::bdmv::pgs::rle::{decode_rle, decoded_pixels, rle_refusal, DecodedObject};
use crate::bdmv::pgs::segment::{
    parse_segments, segment_models, segments_from, stream_refusal, BodyModel, CompositionState, Ods,
    OdsModel, Pcs, PcsModel, Pds, PdsModel, Segment, SegmentBody, SegmentModel, Wds, Window,
};
use crate::error::BlurayError;

verus! {

/// The segments of one picture.
#[derive(Debug, Clone, PartialEq, Eq)]
pub struct DisplaySet {
    pub pcs: Pcs,
    pub wds: Option<Wds>,
    pub palettes: Vec<Pds>,
    /// The bitmaps, in fragments.
    pub objects: Vec<Ods>,
    /// Presentation time of the composition, 90 kHz.
    pub pts: u32,
}

/// A bitmap joined from its fragments, still run-length coded.
#[derive(Debug, Clone, PartialEq, Eq)]
pub struct ReassembledObject {
    pub object_id: u16,
    pub object_version_number: u8,
    pub width: u16,
    pub height: u16,
    pub rle_data: Vec<u8>,
}

// ---------------------------------------------------------------------
// Models
// ---------------------------------------------------------------------

pub open spec fn pds_models(v: Seq<Pds>) -> Seq<PdsModel> {
    Seq::new(v.len(), |i: int| v[i]@)
}

pub open spec fn ods_models(v: Seq<Ods>) -> Seq<OdsModel> {
    Seq::new(v.len(), |i: int| v[i]@)
}

pub open spec fn wds_model(w: Option<Wds>) -> Option<Seq<Window>> {
    match w {
        Some(x) => Some(x@),
        None => None,
    }
}

/// Model of [`DisplaySet`].
#[verifier::ext_equal]
pub struct DisplaySetModel {
    pub pcs: PcsModel,
    pub wds: Option<Seq<Window>>,
    pub palettes: Seq<PdsModel>,
    pub objects: Seq<OdsModel>,
    pub pts: u32,
}

impl View for DisplaySet {
    type V = DisplaySetModel;

    open spec fn view(&self) -> DisplaySetModel {
        DisplaySetModel {
            pcs: self.pcs@,
            wds: wds_model(self.wds),
            palettes: pds_models(self.palettes@),
            objects: ods_models(self.objects@),
            pts: self.pts,
        }
    }
}

pub open spec fn display_set_models(v: Seq<DisplaySet>) -> Seq<DisplaySetModel> {
    Seq::new(v.len(), |i: int| v[i]@)
}

/// Model of [`ReassembledObject`].
#[verifier::ext_equal]
pub struct ObjectModel {
    pub object_id: u16,
    pub object_version_number: u8,
    pub width: u16,
    pub height: u16,
    pub rle_data: Seq<u8>,
}

impl View for ReassembledObject {
    type V = ObjectModel;

    open spec fn view(&self) -> ObjectModel {
        ObjectModel {
            object_id: self.object_id,
            object_version_number: self.object_version_number,
            width: self.width,
            height: self.height,
            rle_data: self.rle_data@,
        }
    }
}

pub open spec fn object_models(v: Seq<ReassembledObject>) -> Seq<ObjectModel> {
    Seq::new(v.len(), |i: int| v[i]@)
}

// ---------------------------------------------------------------------
// Grouping
// ---------------------------------------------------------------------

/// Display sets that are complete, and the one that is being read.
#[verifier::ext_equal]
pub struct Grouping {
    pub sets: Seq<DisplaySetModel>,
    pub open: Option<DisplaySetModel>,
}

/// The grouping after one more segment. A composition opens a set and the end
/// mark closes it; everything else stands in between, with at most one list
/// of windows.
pub open spec fn group_step(g: Grouping, seg: SegmentModel) -> Option<Grouping> {
    match (g.open, seg.body) {
        (None, BodyModel::Pcs(pcs)) => Some(
            Grouping {
                open: Some(
                    DisplaySetModel {
                        pcs,
                        wds: None,
                        palettes: Seq::empty(),
                        objects: Seq::empty(),
                        pts: seg.header.pts,
                    },
                ),
                ..g
            },
        ),
        (Some(_), BodyModel::Pcs(_)) => None,
        (None, _) => None,
        (Some(set), BodyModel::Wds(wds)) => if set.wds is Some {
            None
        } else {
            Some(Grouping { open: Some(DisplaySetModel { wds: Some(wds), ..set }), ..g })
        },
        (Some(set), BodyModel::Pds(pds)) => Some(
            Grouping {
                open: Some(DisplaySetModel { palettes: set.palettes.push(pds), ..set }),
                ..g
            },
        ),
        (Some(set), BodyModel::Ods(ods)) => Some(
            Grouping {
                open: Some(DisplaySetModel { objects: set.objects.push(ods), ..set }),
                ..g
            },
        ),
        (Some(set), BodyModel::End) => Some(Grouping { sets: g.sets.push(set), open: None }),
        (Some(_), BodyModel::Other { segment_type: _, data: _ }) => Some(g),
    }
}

/// The grouping after the first `n` segments.
pub open spec fn group_steps(segs: Seq<SegmentModel>, n: nat) -> Option<Grouping>
    decreases n,
{
    if n == 0 {
        Some(Grouping { sets: Seq::empty(), open: None })
    } else {
        match group_steps(segs, (n - 1) as nat) {
            None => None,
            Some(g) => group_step(g, segs[n - 1]),
        }
    }
}

/// The display sets that segments make up, or `None` where a set is broken or
/// the last one has no end.
pub open spec fn display_sets_of(segs: Seq<SegmentModel>) -> Option<Seq<DisplaySetModel>> {
    match group_steps(segs, segs.len()) {
        Some(Grouping { sets, open: None }) => Some(sets),
        _ => None,
    }
}

/// What is said of a segment that does not fit.
pub open spec fn step_refusal(g: Grouping, seg: SegmentModel) -> Seq<char> {
    if g.open is Some {
        if seg.body is Pcs {
            "PGS Display Set opened a second PCS before END"@
        } else {
            "PGS Display Set with more than one WDS"@
        }
    } else {
        match seg.body {
            BodyModel::Wds(_) => "PGS WDS before any PCS"@,
            BodyModel::Pds(_) => "PGS PDS before any PCS"@,
            BodyModel::Ods(_) => "PGS ODS before any PCS"@,
            BodyModel::End => "PGS END before any PCS"@,
            _ => "PGS unknown segment before any PCS"@,
        }
    }
}

/// What is said of the first `n` segments where one of them does not fit: what
/// is said of the first that does not.
pub open spec fn steps_refusal(segs: Seq<SegmentModel>, n: nat) -> Seq<char>
    decreases n,
{
    if n == 0 {
        Seq::empty()
    } else {
        match group_steps(segs, (n - 1) as nat) {
            None => steps_refusal(segs, (n - 1) as nat),
            Some(g) => step_refusal(g, segs[n - 1]),
        }
    }
}

/// What is said of segments that make up no display sets.
pub open spec fn grouping_refusal(segs: Seq<SegmentModel>) -> Seq<char> {
    if group_steps(segs, segs.len()) is Some {
        "PGS trailing Display Set without an END segment"@
    } else {
        steps_refusal(segs, segs.len())
    }
}

proof fn lemma_group_none(segs: Seq<SegmentModel>, i: nat, n: nat)
    requires
        i <= n,
        group_steps(segs, i) is None,
    ensures
        group_steps(segs, n) is None,
        steps_refusal(segs, n) == steps_refusal(segs, i),
    decreases n,
{
    if i < n {
        lemma_group_none(segs, i, (n - 1) as nat);
    }
}

fn copy_pcs(x: &Pcs) -> (r: Pcs)
    ensures
        r@ == x@,
{
    let composition_objects = x.composition_objects.clone();
    assert(composition_objects@ =~= x.composition_objects@);
    Pcs {
        width: x.width,
        height: x.height,
        frame_rate: x.frame_rate,
        composition_number: x.composition_number,
        composition_state: x.composition_state,
        palette_update_flag: x.palette_update_flag,
        palette_id: x.palette_id,
        composition_objects,
    }
}

fn copy_wds(x: &Wds) -> (r: Wds)
    ensures
        r@ == x@,
{
    let windows = x.windows.clone();
    assert(windows@ =~= x.windows@);
    Wds { windows }
}

fn copy_pds(x: &Pds) -> (r: Pds)
    ensures
        r@ == x@,
{
    let entries = x.entries.clone();
    assert(entries@ =~= x.entries@);
    Pds { palette_id: x.palette_id, palette_version_number: x.palette_version_number, entries }
}

fn copy_ods(x: &Ods) -> (r: Ods)
    ensures
        r@ == x@,
{
    let object_data = x.object_data.clone();
    assert(object_data@ =~= x.object_data@);
    Ods {
        object_id: x.object_id,
        object_version_number: x.object_version_number,
        last_in_sequence_flag: x.last_in_sequence_flag,
        object_data_length: x.object_data_length,
        width: x.width,
        height: x.height,
        object_data,
    }
}

pub open spec fn open_model(x: Option<DisplaySet>) -> Option<DisplaySetModel> {
    match x {
        Some(s) => Some(s@),
        None => None,
    }
}

/// What one segment does to the set that is being read: the set afterwards,
/// and the set that it completed.
fn group_one(cur: Option<DisplaySet>, seg: &Segment) -> (r: Result<
    (Option<DisplaySet>, Option<DisplaySet>),
    BlurayError,
>)
    ensures
        match r {
            Ok((open, done)) => forall|sets: Seq<DisplaySetModel>| #[trigger]
                group_step(Grouping { sets, open: open_model(cur) }, seg@) == Some(
                    Grouping {
                        sets: match done {
                            Some(d) => sets.push(d@),
                            None => sets,
                        },
                        open: open_model(open),
                    },
                ),
            Err(e) => forall|sets: Seq<DisplaySetModel>|
                (#[trigger] group_step(Grouping { sets, open: open_model(cur) }, seg@)) is None
                    && e.is_malformed(step_refusal(Grouping { sets, open: open_model(cur) }, seg@)),
        },
{
    match cur {
        None => match &seg.body {
            SegmentBody::Pcs(pcs) => {
                let set = DisplaySet {
                    pcs: copy_pcs(pcs),
                    wds: None,
                    palettes: Vec::new(),
                    objects: Vec::new(),
                    pts: seg.header.pts,
                };
                assert(set@.palettes =~= Seq::empty());
                assert(set@.objects =~= Seq::empty());
                Ok((Some(set), None))
            },
            SegmentBody::Wds(_) => Err(BlurayError::malformed("PGS WDS before any PCS")),
            SegmentBody::Pds(_) => Err(BlurayError::malformed("PGS PDS before any PCS")),
            SegmentBody::Ods(_) => Err(BlurayError::malformed("PGS ODS before any PCS")),
            SegmentBody::End => Err(BlurayError::malformed("PGS END before any PCS")),
            SegmentBody::Other { segment_type: _, data: _ } => Err(
                BlurayError::malformed("PGS unknown segment before any PCS"),
            ),
        },
        Some(mut set) => {
            let ghost before = set@;
            match &seg.body {
                SegmentBody::Pcs(_) => Err(
                    BlurayError::malformed("PGS Display Set opened a second PCS before END"),
                ),
                SegmentBody::Wds(wds) => {
                    if set.wds.is_some() {
                        return Err(
                            BlurayError::malformed("PGS Display Set with more than one WDS"),
                        );
                    }
                    set.wds = Some(copy_wds(wds));
                    Ok((Some(set), None))
                },
                SegmentBody::Pds(pds) => {
                    set.palettes.push(copy_pds(pds));
                    assert(set@.palettes =~= before.palettes.push(pds@));
                    Ok((Some(set), None))
                },
                SegmentBody::Ods(ods) => {
                    set.objects.push(copy_ods(ods));
                    assert(set@.objects =~= before.objects.push(ods@));
                    Ok((Some(set), None))
                },
                SegmentBody::End => Ok((None, Some(set))),
                SegmentBody::Other { segment_type: _, data: _ } => Ok((Some(set), None)),
            }
        },
    }
}

/// Group segments into display sets.
#[verifier::loop_isolation(false)]
pub fn group_display_sets(segments: &[Segment]) -> (r: Result<Vec<DisplaySet>, BlurayError>)
    ensures
        match r {
            Ok(v) => display_sets_of(segment_models(segments@)) == Some(display_set_models(v@)),
            Err(e) => display_sets_of(segment_models(segments@)) is None && e.is_malformed(
                grouping_refusal(segment_models(segments@)),
            ),
        },
{
    let ghost segs = segment_models(segments@);
    let mut sets: Vec<DisplaySet> = Vec::new();
    let mut cur: Option<DisplaySet> = None;
    let mut i: usize = 0;
    assert(display_set_models(sets@) =~= Seq::empty());
    while i < segments.len()
        invariant
            i <= segments@.len(),
            segs == segment_models(segments@),
            group_steps(segs, i as nat) == Some(
                Grouping { sets: display_set_models(sets@), open: open_model(cur) },
            ),
        decreases segments@.len() - i,
    {
        let ghost before = display_set_models(sets@);
        let ghost was = open_model(cur);
        assert(segs[i as int] == segments@[i as int]@);
        match group_one(cur, &segments[i]) {
            Ok((open, done)) => {
                assert(group_step(Grouping { sets: before, open: was }, segs[i as int]) is Some);
                if let Some(d) = done {
                    sets.push(d);
                    assert(display_set_models(sets@) =~= before.push(d@));
                }
                cur = open;
            },
            Err(e) => {
                proof {
                    assert(group_step(
                        Grouping { sets: before, open: was },
                        segs[i as int],
                    ) is None);
                    assert(group_steps(segs, (i + 1) as nat) is None);
                    lemma_group_none(segs, (i + 1) as nat, segs.len());
                }
                return Err(e);
            },
        }
        i += 1;
    }
    if cur.is_some() {
        return Err(BlurayError::malformed("PGS trailing Display Set without an END segment"));
    }
    Ok(sets)
}

/// The display sets of a stream.
pub open spec fn stream_display_sets(s: Seq<u8>) -> Option<Seq<DisplaySetModel>> {
    match segments_from(s, 0) {
        None => None,
        Some(segs) => display_sets_of(segs),
    }
}

/// Read a whole stream and group it into display sets.
pub fn parse_display_sets(buf: &[u8]) -> (r: Result<Vec<DisplaySet>, BlurayError>)
    ensures
        match r {
            Ok(v) => stream_display_sets(buf@) == Some(display_set_models(v@)),
            Err(e) => stream_display_sets(buf@) is None && e.is_malformed(
                match segments_from(buf@, 0) {
                    None => stream_refusal(buf@, 0),
                    Some(segs) => grouping_refusal(segs),
                },
            ),
        },
{
    let segments = parse_segments(buf)?;
    group_display_sets(segments.as_slice())
}

// ---------------------------------------------------------------------
// Joining fragments
// ---------------------------------------------------------------------

/// An object that is being joined.
#[verifier::ext_equal]
pub struct Chain {
    pub object_id: u16,
    pub version: u8,
    pub width: u16,
    pub height: u16,
    pub declared_len: u32,
    pub data: Seq<u8>,
    pub closed: bool,
}

/// Whether there is a chain for an object.
pub open spec fn has_chain(chains: Seq<Chain>, id: u16) -> bool {
    exists|k: int| 0 <= k < chains.len() && (#[trigger] chains[k]).object_id == id
}

/// Whether there is a chain for an object that waits for more fragments.
pub open spec fn has_open_chain(chains: Seq<Chain>, id: u16) -> bool {
    exists|k: int|
        0 <= k < chains.len() && (#[trigger] chains[k]).object_id == id && !chains[k].closed
}

/// A chain with a fragment added.
pub open spec fn extended(c: Chain, ods: OdsModel) -> Chain {
    Chain { data: c.data + ods.object_data, closed: c.closed || ods.flag().last(), ..c }
}

/// The chains after one more fragment. A first fragment opens a chain, once
/// for each object; every other one adds to an open chain.
pub open spec fn chain_step(chains: Seq<Chain>, ods: OdsModel) -> Option<Seq<Chain>> {
    if ods.flag().first() {
        match (ods.width, ods.height) {
            (Some(width), Some(height)) if !has_chain(chains, ods.object_id) => Some(
                chains.push(
                    Chain {
                        object_id: ods.object_id,
                        version: ods.object_version_number,
                        width,
                        height,
                        declared_len: ods.object_data_length,
                        data: ods.object_data,
                        closed: ods.flag().last(),
                    },
                ),
            ),
            _ => None,
        }
    } else if has_open_chain(chains, ods.object_id) {
        Some(
            Seq::new(
                chains.len(),
                |k: int|
                    if chains[k].object_id == ods.object_id {
                        extended(chains[k], ods)
                    } else {
                        chains[k]
                    },
            ),
        )
    } else {
        None
    }
}

/// The chains after the first `n` fragments.
pub open spec fn chain_steps(frags: Seq<OdsModel>, n: nat) -> Option<Seq<Chain>>
    decreases n,
{
    if n == 0 {
        Some(Seq::empty())
    } else {
        match chain_steps(frags, (n - 1) as nat) {
            None => None,
            Some(chains) => chain_step(chains, frags[n - 1]),
        }
    }
}

/// Whether a chain is a whole object: closed, and as long as its first
/// fragment said, which counts four bytes for the size.
pub open spec fn whole(c: Chain) -> bool {
    c.closed && c.declared_len == c.data.len() + 4
}

/// The object that a chain holds.
pub open spec fn chain_object(c: Chain) -> ObjectModel {
    ObjectModel {
        object_id: c.object_id,
        object_version_number: c.version,
        width: c.width,
        height: c.height,
        rle_data: c.data,
    }
}

/// The objects that fragments make up, in the order of their first fragments,
/// or `None` where a chain is broken.
pub open spec fn objects_of(frags: Seq<OdsModel>) -> Option<Seq<ObjectModel>> {
    match chain_steps(frags, frags.len()) {
        None => None,
        Some(chains) => if forall|k: int| 0 <= k < chains.len() ==> whole(#[trigger] chains[k]) {
            Some(Seq::new(chains.len(), |k: int| chain_object(chains[k])))
        } else {
            None
        },
    }
}

/// What is said of a fragment that does not fit.
pub open spec fn fragment_refusal(chains: Seq<Chain>, ods: OdsModel) -> Seq<char> {
    if ods.flag().first() {
        if has_open_chain(chains, ods.object_id) {
            "PGS ODS second First fragment for an open object_id"@
        } else if has_chain(chains, ods.object_id) {
            "PGS ODS duplicate object_id within a Display Set"@
        } else if ods.width is None {
            "PGS ODS First fragment missing width"@
        } else {
            "PGS ODS First fragment missing height"@
        }
    } else if has_chain(chains, ods.object_id) {
        "PGS ODS continuation after the chain was already closed"@
    } else {
        "PGS ODS continuation fragment with no open object_id"@
    }
}

/// What is said of the first `n` fragments where one of them does not fit:
/// what is said of the first that does not.
pub open spec fn fragments_refusal(frags: Seq<OdsModel>, n: nat) -> Seq<char>
    decreases n,
{
    if n == 0 {
        Seq::empty()
    } else {
        match chain_steps(frags, (n - 1) as nat) {
            None => fragments_refusal(frags, (n - 1) as nat),
            Some(chains) => fragment_refusal(chains, frags[n - 1]),
        }
    }
}

/// What is said of a chain that is no whole object.
pub open spec fn chain_refusal(c: Chain) -> Seq<char> {
    if !c.closed {
        "PGS ODS object chain never received a Last fragment"@
    } else if c.declared_len < 4 {
        "PGS ODS object_data_length shorter than the 4 dimension bytes"@
    } else {
        "PGS ODS reassembled RLE length disagrees with object_data_length"@
    }
}

/// What is said of the chains from `k` on where one is no whole object: what is
/// said of the first that is not.
pub open spec fn chains_refusal(chains: Seq<Chain>, k: int) -> Seq<char>
    decreases chains.len() - k,
{
    if k >= chains.len() {
        Seq::empty()
    } else if whole(chains[k]) {
        chains_refusal(chains, k + 1)
    } else {
        chain_refusal(chains[k])
    }
}

/// What is said of fragments that make up no objects.
pub open spec fn joining_refusal(frags: Seq<OdsModel>) -> Seq<char> {
    match chain_steps(frags, frags.len()) {
        None => fragments_refusal(frags, frags.len()),
        Some(chains) => chains_refusal(chains, 0),
    }
}

struct ReassembleAcc {
    object_id: u16,
    version: u8,
    width: u16,
    height: u16,
    declared_len: u32,
    data: Vec<u8>,
    closed: bool,
}

impl View for ReassembleAcc {
    type V = Chain;

    closed spec fn view(&self) -> Chain {
        Chain {
            object_id: self.object_id,
            version: self.version,
            width: self.width,
            height: self.height,
            declared_len: self.declared_len,
            data: self.data@,
            closed: self.closed,
        }
    }
}

spec fn acc_models(v: Seq<ReassembleAcc>) -> Seq<Chain> {
    Seq::new(v.len(), |i: int| v[i]@)
}

/// No two chains are of one object.
pub open spec fn distinct_chains(chains: Seq<Chain>) -> bool {
    forall|i: int, j: int|
        0 <= i < j < chains.len() ==> (#[trigger] chains[i]).object_id != (
        #[trigger] chains[j]).object_id
}

proof fn lemma_chain_step_distinct(chains: Seq<Chain>, ods: OdsModel)
    requires
        distinct_chains(chains),
    ensures
        chain_step(chains, ods) matches Some(next) ==> distinct_chains(next),
{
}

proof fn lemma_chains_none(frags: Seq<OdsModel>, i: nat, n: nat)
    requires
        i <= n,
        chain_steps(frags, i) is None,
    ensures
        chain_steps(frags, n) is None,
        fragments_refusal(frags, n) == fragments_refusal(frags, i),
    decreases n,
{
    if i < n {
        lemma_chains_none(frags, i, (n - 1) as nat);
    }
}

/// The chain for an object.
fn find_chain(acc: &Vec<ReassembleAcc>, id: u16) -> (r: Option<usize>)
    ensures
        match r {
            Some(k) => k < acc@.len() && acc_models(acc@)[k as int].object_id == id && has_chain(
                acc_models(acc@),
                id,
            ),
            None => !has_chain(acc_models(acc@), id),
        },
{
    let mut k: usize = 0;
    while k < acc.len()
        invariant
            k <= acc@.len(),
            forall|j: int| 0 <= j < k ==> (#[trigger] acc_models(acc@)[j]).object_id != id,
        decreases acc@.len() - k,
    {
        if acc[k].object_id == id {
            assert(acc_models(acc@)[k as int].object_id == id);
            return Some(k);
        }
        k += 1;
    }
    None
}

/// Add a fragment to the chains.
fn add_fragment(acc: &mut Vec<ReassembleAcc>, ods: &Ods) -> (r: Result<(), BlurayError>)
    requires
        distinct_chains(acc_models(old(acc)@)),
    ensures
        match r {
            Ok(_) => chain_step(acc_models(old(acc)@), ods@) == Some(acc_models(final(acc)@)),
            Err(e) => chain_step(acc_models(old(acc)@), ods@) is None && e.is_malformed(
                fragment_refusal(acc_models(old(acc)@), ods@),
            ),
        },
{
    let ghost before = acc_models(acc@);
    let flag = ods.fragment();
    let slot = find_chain(acc, ods.object_id);
    if flag.is_first() {
        if let Some(k) = slot {
            if !acc[k].closed {
                proof {
                    assert(!before[k as int].closed);
                    assert(has_open_chain(before, ods.object_id));
                }
                return Err(
                    BlurayError::malformed("PGS ODS second First fragment for an open object_id"),
                );
            }
            proof {
                assert(before[k as int].closed);
                assert(!has_open_chain(before, ods.object_id));
            }
            return Err(
                BlurayError::malformed("PGS ODS duplicate object_id within a Display Set"),
            );
        }
        let width: u16 = match ods.width {
            Some(w) => w,
            None => return Err(
                BlurayError::malformed("PGS ODS First fragment missing width"),
            ),
        };
        let height: u16 = match ods.height {
            Some(h) => h,
            None => return Err(
                BlurayError::malformed("PGS ODS First fragment missing height"),
            ),
        };
        let data = ods.object_data.clone();
        assert(data@ =~= ods.object_data@);
        acc.push(
            ReassembleAcc {
                object_id: ods.object_id,
                version: ods.object_version_number,
                width,
                height,
                declared_len: ods.object_data_length,
                data,
                closed: flag.is_last(),
            },
        );
        assert(acc_models(acc@) =~= chain_step(before, ods@)->0);
        Ok(())
    } else {
        let k: usize = match slot {
            Some(k) => k,
            None => return Err(
                BlurayError::malformed("PGS ODS continuation fragment with no open object_id"),
            ),
        };
        if acc[k].closed {
            proof {
                assert(before[k as int].closed);
                assert(!has_open_chain(before, ods.object_id));
            }
            return Err(
                BlurayError::malformed("PGS ODS continuation after the chain was already closed"),
            );
        }
        proof {
            assert(!before[k as int].closed);
            assert(has_open_chain(before, ods.object_id));
        }
        let mut data = acc[k].data.clone();
        assert(data@ =~= before[k as int].data);
        put_bytes(&mut data, &ods.object_data);
        let last = flag.is_last();
        let next = ReassembleAcc {
            object_id: acc[k].object_id,
            version: acc[k].version,
            width: acc[k].width,
            height: acc[k].height,
            declared_len: acc[k].declared_len,
            data,
            closed: last,
        };
        acc.set(k, next);
        assert(acc_models(acc@) =~= chain_step(before, ods@)->0);
        Ok(())
    }
}

impl DisplaySet {
    /// How this set relates to the one before it.
    pub fn state(&self) -> (r: CompositionState)
        ensures
            r == CompositionState::of_raw(self.pcs.composition_state),
    {
        self.pcs.state()
    }

    /// Join the fragments of every bitmap, in the order of their first
    /// fragments.
    #[verifier::loop_isolation(false)]
    pub fn reassemble_objects(&self) -> (r: Result<Vec<ReassembledObject>, BlurayError>)
        ensures
            match r {
                Ok(v) => objects_of(self@.objects) == Some(object_models(v@)),
                Err(e) => objects_of(self@.objects) is None && e.is_malformed(
                    joining_refusal(self@.objects),
                ),
            },
    {
        let ghost frags = ods_models(self.objects@);
        let mut acc: Vec<ReassembleAcc> = Vec::new();
        let mut i: usize = 0;
        assert(acc_models(acc@) =~= Seq::empty());
        while i < self.objects.len()
            invariant
                i <= self.objects@.len(),
                frags == ods_models(self.objects@),
                distinct_chains(acc_models(acc@)),
                chain_steps(frags, i as nat) == Some(acc_models(acc@)),
            decreases self.objects@.len() - i,
        {
            proof {
                lemma_chain_step_distinct(acc_models(acc@), frags[i as int]);
            }
            match add_fragment(&mut acc, &self.objects[i]) {
                Ok(_) => {},
                Err(e) => {
                    proof {
                        assert(chain_steps(frags, (i + 1) as nat) is None);
                        lemma_chains_none(frags, (i + 1) as nat, frags.len());
                    }
                    return Err(e);
                },
            }
            i += 1;
        }
        let ghost chains = acc_models(acc@);
        let mut out: Vec<ReassembledObject> = Vec::new();
        let mut k: usize = 0;
        while k < acc.len()
            invariant
                k <= acc@.len(),
                chains == acc_models(acc@),
                out@.len() == k,
                forall|j: int| 0 <= j < k ==> whole(#[trigger] chains[j]),
                chains_refusal(chains, 0) == chains_refusal(chains, k as int),
                forall|j: int|
                    0 <= j < k ==> (#[trigger] out@[j])@ == chain_object(chains[j]),
            decreases acc@.len() - k,
        {
            let c = &acc[k];
            assert(chains[k as int] == c@);
            if !c.closed {
                return Err(
                    BlurayError::malformed("PGS ODS object chain never received a Last fragment"),
                );
            }
            let declared: usize = c.declared_len as usize;
            if declared < 4 {
                return Err(
                    BlurayError::malformed(
                        "PGS ODS object_data_length shorter than the 4 dimension bytes",
                    ),
                );
            }
            if c.data.len() != declared - 4 {
                return Err(
                    BlurayError::malformed(
                        "PGS ODS reassembled RLE length disagrees with object_data_length",
                    ),
                );
            }
            let rle_data = c.data.clone();
            assert(rle_data@ =~= c.data@);
            out.push(
                ReassembledObject {
                    object_id: c.object_id,
                    object_version_number: c.version,
                    width: c.width,
                    height: c.height,
                    rle_data,
                },
            );
            k += 1;
        }
        assert(object_models(out@) =~= objects_of(frags)->0);
        Ok(out)
    }
}

impl ReassembledObject {
    /// Decode this bitmap.
    pub fn decode(&self) -> (r: Result<DecodedObject, BlurayError>)
        ensures
            match r {
                Ok(v) => decoded_pixels(self.rle_data@, self.width as nat, self.height as nat)
                    == Some(v.pixels@) && v.width == self.width && v.height == self.height
                    && v.pixels@.len() == self.width * self.height,
                Err(e) => decoded_pixels(
                    self.rle_data@,
                    self.width as nat,
                    self.height as nat,
                ) is None && e.is_malformed(
                    rle_refusal(self.rle_data@, self.width as nat, self.height as nat),
                ),
            },
    {
        decode_rle(self.rle_data.as_slice(), self.width, self.height)
    }
}

// ---------------------------------------------------------------------
// Laws
// ---------------------------------------------------------------------

/// The data of the fragments of an object among the first `n`, in stream
/// order.
pub open spec fn fragment_data(frags: Seq<OdsModel>, id: u16, n: nat) -> Seq<u8>
    decreases n,
{
    if n == 0 {
        Seq::empty()
    } else if frags[n - 1].object_id == id {
        fragment_data(frags, id, (n - 1) as nat) + frags[n - 1].object_data
    } else {
        fragment_data(frags, id, (n - 1) as nat)
    }
}

/// What chains hold after `n` fragments: one chain for each object seen, each
/// with the data of its fragments.
pub open spec fn chains_complete(frags: Seq<OdsModel>, chains: Seq<Chain>, n: nat) -> bool {
    &&& distinct_chains(chains)
    &&& forall|k: int|
        0 <= k < chains.len() ==> (#[trigger] chains[k]).data == fragment_data(
            frags,
            chains[k].object_id,
            n,
        )
    &&& forall|i: int| 0 <= i < n ==> has_chain(chains, (#[trigger] frags[i]).object_id)
    &&& forall|id: u16|
        !has_chain(chains, id) ==> #[trigger] fragment_data(frags, id, n) == Seq::<u8>::empty()
}

proof fn lemma_chain_step_ids(chains: Seq<Chain>, ods: OdsModel, id: u16)
    ensures
        chain_step(chains, ods) matches Some(next) ==> (has_chain(next, id) <==> has_chain(
            chains,
            id,
        ) || ods.object_id == id),
{
    if let Some(next) = chain_step(chains, ods) {
        if has_chain(chains, id) {
            let k = choose|k: int| 0 <= k < chains.len() && (#[trigger] chains[k]).object_id == id;
            assert(next[k].object_id == id);
        }
        if has_chain(next, id) && ods.object_id != id {
            let k = choose|k: int| 0 <= k < next.len() && (#[trigger] next[k]).object_id == id;
            assert(k < chains.len());
            assert(chains[k].object_id == id);
        }
        if ods.object_id == id && ods.flag().first() {
            assert(next[chains.len() as int].object_id == id);
        }
    }
}

proof fn lemma_chains_complete(frags: Seq<OdsModel>, n: nat)
    requires
        n <= frags.len(),
    ensures
        chain_steps(frags, n) matches Some(chains) ==> chains_complete(frags, chains, n),
    decreases n,
{
    if n > 0 {
        let m = (n - 1) as nat;
        lemma_chains_complete(frags, m);
        if let Some(chains) = chain_steps(frags, m) {
            let ods = frags[n - 1];
            if let Some(next) = chain_step(chains, ods) {
                lemma_chain_step_distinct(chains, ods);
                assert forall|k: int| 0 <= k < next.len() implies (#[trigger] next[k]).data
                    == fragment_data(frags, next[k].object_id, n) by {
                    if k < chains.len() {
                        assert(chains[k].data == fragment_data(frags, chains[k].object_id, m));
                        assert(next[k].object_id == chains[k].object_id);
                        if ods.flag().first() {
                            assert(has_chain(chains, chains[k].object_id));
                        }
                    } else {
                        assert(fragment_data(frags, ods.object_id, m) == Seq::<u8>::empty());
                        assert(Seq::<u8>::empty() + ods.object_data =~= ods.object_data);
                    }
                }
                assert forall|i: int| 0 <= i < n implies has_chain(
                    next,
                    (#[trigger] frags[i]).object_id,
                ) by {
                    lemma_chain_step_ids(chains, ods, frags[i].object_id);
                }
                assert forall|id: u16| !has_chain(next, id) implies #[trigger] fragment_data(
                    frags,
                    id,
                    n,
                ) == Seq::<u8>::empty() by {
                    lemma_chain_step_ids(chains, ods, id);
                    assert(fragment_data(frags, id, m) == Seq::<u8>::empty());
                }
            }
        }
    }
}

/// Every joined object holds the data of all fragments with its number, in
/// stream order, and no two objects have one number.
pub proof fn lemma_objects_join_fragments(frags: Seq<OdsModel>)
    ensures
        objects_of(frags) matches Some(objects) ==> {
            &&& forall|k: int|
                0 <= k < objects.len() ==> (#[trigger] objects[k]).rle_data == fragment_data(
                    frags,
                    objects[k].object_id,
                    frags.len(),
                )
            &&& forall|i: int, j: int|
                0 <= i < j < objects.len() ==> (#[trigger] objects[i]).object_id != (
                #[trigger] objects[j]).object_id
            &&& forall|i: int|
                0 <= i < frags.len() ==> exists|k: int|
                    0 <= k < objects.len() && (#[trigger] objects[k]).object_id == (
                    #[trigger] frags[i]).object_id
        },
{
    lemma_chains_complete(frags, frags.len());
    if let Some(objects) = objects_of(frags) {
        let chains = chain_steps(frags, frags.len())->0;
        assert forall|k: int| 0 <= k < objects.len() implies (#[trigger] objects[k]).rle_data
            == fragment_data(frags, objects[k].object_id, frags.len()) by {
            assert(objects[k] == chain_object(chains[k]));
        }
        assert forall|i: int, j: int| 0 <= i < j < objects.len() implies (
        #[trigger] objects[i]).object_id != (#[trigger] objects[j]).object_id by {
            assert(chains[i].object_id != chains[j].object_id);
        }
        assert forall|i: int| 0 <= i < frags.len() implies exists|k: int|
            0 <= k < objects.len() && (#[trigger] objects[k]).object_id == (
            #[trigger] frags[i]).object_id by {
            assert(has_chain(chains, frags[i].object_id));
            let k = choose|k: int|
                0 <= k < chains.len() && (#[trigger] chains[k]).object_id == frags[i].object_id;
            assert(objects[k].object_id == frags[i].object_id);
        }
    }
}

/// The number of end marks among the first `n` segments.
pub open spec fn end_count(segs: Seq<SegmentModel>, n: nat) -> nat
    decreases n,
{
    if n == 0 {
        0
    } else {
        end_count(segs, (n - 1) as nat) + (if segs[n - 1].body is End {
            1nat
        } else {
            0nat
        })
    }
}

proof fn lemma_group_counts(segs: Seq<SegmentModel>, n: nat)
    ensures
        group_steps(segs, n) matches Some(g) ==> g.sets.len() == end_count(segs, n),
    decreases n,
{
    if n > 0 {
        lemma_group_counts(segs, (n - 1) as nat);
    }
}

/// There are as many display sets as end marks.
pub proof fn lemma_one_set_per_end(segs: Seq<SegmentModel>)
    ensures
        display_sets_of(segs) matches Some(sets) ==> sets.len() == end_count(segs, segs.len()),
{
    lemma_group_counts(segs, segs.len());
}

/// A model holds what the fields hold.
pub proof fn lemma_models_hold_fields(
    display_set: DisplaySet,
    reassembled_object: ReassembledObject,
    i: int,
)
    ensures
        display_set@.pcs == display_set.pcs@,
        display_set.wds is None <==> display_set@.wds is None,
        display_set.wds matches Some(x) ==> display_set@.wds == Some(x@),
        display_set@.palettes.len() == display_set.palettes@.len(),
        0 <= i < display_set.palettes@.len() ==> display_set@.palettes[i] == display_set.palettes@[i]@,
        display_set@.objects.len() == display_set.objects@.len(),
        0 <= i < display_set.objects@.len() ==> display_set@.objects[i] == display_set.objects@[i]@,
        display_set@.pts == display_set.pts,
        reassembled_object@.object_id == reassembled_object.object_id,
        reassembled_object@.object_version_number == reassembled_object.object_version_number,
        reassembled_object@.width == reassembled_object.width,
        reassembled_object@.height == reassembled_object.height,
        reassembled_object@.rle_data == reassembled_object.rle_data@,
{
}

/// The display sets of a stream are those of its segments.
pub proof fn lemma_sets_of_stream(s: Seq<u8>)
    ensures
        segments_from(s, 0) matches Some(segs) ==> stream_display_sets(s) == display_sets_of(segs),
        segments_from(s, 0) is None ==> stream_display_sets(s) is None,
{
}

/// Models stand in the order of what they model.
pub proof fn lemma_models_in_order(sets: Seq<DisplaySet>, objects: Seq<ReassembledObject>, i: int)
    ensures
        display_set_models(sets).len() == sets.len(),
        0 <= i < sets.len() ==> display_set_models(sets)[i] == sets[i]@,
        object_models(objects).len() == objects.len(),
        0 <= i < objects.len() ==> object_models(objects)[i] == objects[i]@,
{
}

} // verus!
