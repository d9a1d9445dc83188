//! What is said of subtitles that cannot be read.
use vstd::prelude::*;
use vstd::string::*;

use crate::bdmv::pgs::display_set::{
    chain_refusal, chain_step, chain_steps, chains_refusal, fragment_refusal, fragments_refusal,
    group_step, group_steps, grouping_refusal, has_chain, has_open_chain, joining_refusal,
    objects_of, step_refusal, steps_refusal, Chain, DisplaySetModel, Grouping,
};
use crate::bdmv::pgs::render::{render_refusal, set_images};
use crate::bdmv::pgs::rle::{code_refusal, codes_refusal, fit_refusal, RleCode, RleState};
use crate::bdmv::pgs::segment::{segment_refusal, OdsModel, SegmentModel};

verus! {

/// A segment is refused for a header that is too short or does not begin with
/// `PG`, else for a body that the stream ends within.
pub proof fn lemma_segment_refused(s: Seq<u8>)
    ensures
        s.len() < 13 ==> segment_refusal(s) == "PG segment header truncated"@,
        s.len() >= 13 && (s[0] != 'P' as int || s[1] != 'G' as int) ==> segment_refusal(s)
            == "PG segment header bad magic"@,
        s.len() >= 13 && s[0] == 'P' as int && s[1] == 'G' as int && 13 + s[11] * 0x100 + s[12]
            > s.len() ==> segment_refusal(s) == "PG segment body truncated"@,
        s.len() >= 13 && s[0] == 'P' as int && s[1] == 'G' as int && 13 + s[11] * 0x100 + s[12]
            <= s.len() && s[10] == 0x80 ==> segment_refusal(s) == "END segment with non-zero body"@,
        s.len() >= 13 && s[0] == 'P' as int && s[1] == 'G' as int && 13 + s[11] * 0x100 + s[12]
            <= s.len() && s[10] == 0x14 && s[11] * 0x100 + s[12] >= 2 ==> segment_refusal(s)
            == "PDS body not a whole number of 5-byte palette entries"@,
{
    reveal(crate::bdmv::common::be16);
}

/// A display set is refused for what comes before its composition, for a second
/// composition, or for a second list of windows; sets that end without their
/// end mark are refused for that.
pub proof fn lemma_set_refused(g: Grouping, seg: SegmentModel, segs: Seq<SegmentModel>)
    requires
        group_step(g, seg) is None,
    ensures
        g.open is Some && seg.body is Pcs ==> step_refusal(g, seg)
            == "PGS Display Set opened a second PCS before END"@,
        g.open is Some && seg.body is Wds ==> step_refusal(g, seg)
            == "PGS Display Set with more than one WDS"@,
        g.open is Some ==> seg.body is Pcs || seg.body is Wds,
        g.open is None && seg.body is Wds ==> step_refusal(g, seg) == "PGS WDS before any PCS"@,
        g.open is None && seg.body is Pds ==> step_refusal(g, seg) == "PGS PDS before any PCS"@,
        g.open is None && seg.body is Ods ==> step_refusal(g, seg) == "PGS ODS before any PCS"@,
        g.open is None && seg.body is End ==> step_refusal(g, seg) == "PGS END before any PCS"@,
        g.open is None && seg.body is Other ==> step_refusal(g, seg)
            == "PGS unknown segment before any PCS"@,
        group_steps(segs, segs.len()) is Some ==> grouping_refusal(segs)
            == "PGS trailing Display Set without an END segment"@,
{
}

/// A fragment is refused for opening what is open or was closed, for lacking
/// its size, and for continuing what is closed or was never opened.
pub proof fn lemma_fragment_refused(chains: Seq<Chain>, ods: OdsModel)
    ensures
        ({
            let said = fragment_refusal(chains, ods);
            let first = ods.flag().first();
            let here = has_chain(chains, ods.object_id);
            let open = has_open_chain(chains, ods.object_id);
            &&& first && open ==> said == "PGS ODS second First fragment for an open object_id"@
            &&& first && here && !open ==> said
                == "PGS ODS duplicate object_id within a Display Set"@
            &&& first && !here && !open && ods.width is None ==> said
                == "PGS ODS First fragment missing width"@
            &&& first && !here && !open && ods.width is Some ==> said
                == "PGS ODS First fragment missing height"@
            &&& !first && here ==> said == "PGS ODS continuation after the chain was already closed"@
            &&& !first && !here ==> said == "PGS ODS continuation fragment with no open object_id"@
        }),
{
}

/// A bitmap is refused for lacking its last fragment, else for a length that
/// does not hold its size, else for a length that its fragments do not have.
pub proof fn lemma_bitmap_refused(c: Chain)
    ensures
        !c.closed ==> chain_refusal(c) == "PGS ODS object chain never received a Last fragment"@,
        c.closed && c.declared_len < 4 ==> chain_refusal(c)
            == "PGS ODS object_data_length shorter than the 4 dimension bytes"@,
        c.closed && c.declared_len >= 4 ==> chain_refusal(c)
            == "PGS ODS reassembled RLE length disagrees with object_data_length"@,
{
}

/// A code that the bytes end within is refused by its kind, the two highest
/// bits of its second byte; a run for reaching past the line, the end of a line
/// for coming too early or too often.
pub proof fn lemma_code_refused(s: Seq<u8>, i: int, st: RleState, code: RleCode, width: nat)
    ensures
        i + 1 >= s.len() ==> code_refusal(s, i) == "PGS RLE truncated after escape"@,
        i + 1 < s.len() && s[i + 1] / 128 == 0 ==> code_refusal(s, i)
            == "PGS RLE truncated long run"@,
        i + 1 < s.len() && s[i + 1] / 64 == 2 ==> code_refusal(s, i)
            == "PGS RLE truncated short colour run"@,
        i + 1 < s.len() && s[i + 1] / 64 == 3 ==> code_refusal(s, i)
            == "PGS RLE truncated long colour run"@,
        code is Run ==> fit_refusal(st, code, width) == "PGS RLE run overruns object width"@,
        code is EndOfLine && st.line_len != width ==> fit_refusal(st, code, width)
            == "PGS RLE short scanline"@,
        code is EndOfLine && st.line_len == width ==> fit_refusal(st, code, width)
            == "PGS RLE too many scanlines"@,
{
}

/// Of several broken bitmaps the first is refused.
pub proof fn lemma_first_bitmap_refused(chains: Seq<Chain>, i: int, k: int)
    requires
        0 <= i <= k < chains.len(),
        forall|j: int|
            i <= j < k ==> (#[trigger] chains[j]).closed && chains[j].declared_len
                == chains[j].data.len() + 4,
        !chains[k].closed || chains[k].declared_len != chains[k].data.len() + 4,
    ensures
        chains_refusal(chains, i) == chain_refusal(chains[k]),
    decreases k - i,
{
    if i < k {
        lemma_first_bitmap_refused(chains, i + 1, k);
    }
}

/// Of several fragments that do not fit the first is refused, before any
/// bitmap is.
pub proof fn lemma_first_fragment_refused(frags: Seq<OdsModel>, k: nat, n: nat)
    requires
        k < n <= frags.len(),
        chain_steps(frags, k) is Some,
        chain_step(chain_steps(frags, k)->0, frags[k as int]) is None,
    ensures
        fragments_refusal(frags, n) == fragment_refusal(
            chain_steps(frags, k)->0,
            frags[k as int],
        ),
        chain_steps(frags, n) is None,
        n == frags.len() ==> joining_refusal(frags) == fragments_refusal(frags, n),
    decreases n - k,
{
    if k + 1 < n {
        lemma_first_fragment_refused(frags, k, (n - 1) as nat);
    }
}

/// Of several segments that do not fit the first is refused.
pub proof fn lemma_first_segment_refused(segs: Seq<SegmentModel>, k: nat, n: nat)
    requires
        k < n <= segs.len(),
        group_steps(segs, k) is Some,
        group_step(group_steps(segs, k)->0, segs[k as int]) is None,
    ensures
        steps_refusal(segs, n) == step_refusal(group_steps(segs, k)->0, segs[k as int]),
        group_steps(segs, n) is None,
        n == segs.len() ==> grouping_refusal(segs) == steps_refusal(segs, n),
    decreases n - k,
{
    if k + 1 < n {
        lemma_first_segment_refused(segs, k, (n - 1) as nat);
    }
}

/// A display set is refused for its fragments, else for a bitmap that cannot be
/// decoded, else for showing what it does not hold.
pub proof fn lemma_picture_refused(ds: DisplaySetModel)
    ensures
        objects_of(ds.objects) is None ==> render_refusal(ds) == joining_refusal(ds.objects),
        set_images(ds) is Some ==> render_refusal(ds)
            == "PGS composition object references an object_id absent from the Display Set"@,
{
}

/// A bitmap whose codes end too early is refused for the line that they end
/// within, else for the number of its lines.
pub proof fn lemma_ended_early(s: Seq<u8>, i: int, st: RleState, width: nat, height: nat)
    requires
        i >= s.len(),
    ensures
        0 < st.line_len && st.line_len != width ==> codes_refusal(s, i, st, width, height)
            == "PGS RLE trailing partial scanline"@,
        st.line_len == 0 || (st.line_len == width && width > 0) ==> codes_refusal(
            s,
            i,
            st,
            width,
            height,
        ) == "PGS RLE scanline count mismatch"@,
{
}

} // verus!
