//! What a title's stream is: the transport packets of its clips, one clip
//! behind the other. Wherever a source stands, what it still delivers is the
//! rest of that stream.
//!
//! The content of a clip is here that of its stream file after decryption.
use vstd::prelude::*;

use crate::disc::clips::SeekClip;
use crate::disc::seeking::{lemma_plan, plan_for};
use crate::disc::source::{ReadStep, SourceModel};
use crate::disc::timeline::{byte_after, in_line, lemma_clip_at_byte, lemma_starts_monotone};
use crate::m2ts::{lemma_stripped_join, stripped};

verus! {

/// The transport packets of the clips from the `k`-th on.
pub open spec fn stream_from(contents: Seq<Seq<u8>>, k: int) -> Seq<u8>
    decreases contents.len() - k,
{
    if k >= contents.len() || k < 0 {
        Seq::empty()
    } else {
        stripped(contents[k]) + stream_from(contents, k + 1)
    }
}

/// Whether contents have as many packets as were counted.
pub open spec fn contents_match(clips: Seq<SeekClip>, contents: Seq<Seq<u8>>) -> bool {
    contents.len() == clips.len() && forall|k: int|
        0 <= k < clips.len() ==> (#[trigger] contents[k]).len() / 192 == clips[k].packet_count
}

/// What a source still delivers.
pub open spec fn rest(m: SourceModel, contents: Seq<Seq<u8>>) -> Seq<u8> {
    if m.is_open {
        m.pending + (stripped(contents[m.clip_idx].skip(m.clip_offset)) + stream_from(
            contents,
            m.clip_idx + 1,
        ))
    } else {
        m.pending
    }
}

/// Whether a source stands at a packet of its clip and still delivers what
/// stands in the title's stream from its place on.
pub open spec fn in_place(m: SourceModel, contents: Seq<Seq<u8>>) -> bool {
    &&& in_line(m.clips, m.output_total, m.title_duration_90k)
    &&& contents_match(m.clips, contents)
    &&& m.is_open ==> 0 <= m.clip_idx < m.clips.len() && 0 <= m.clip_offset
        <= contents[m.clip_idx].len() && m.clip_offset % 192 == 0
    &&& 0 <= m.output_pos <= stream_from(contents, 0).len()
    &&& rest(m, contents) == stream_from(contents, 0).skip(m.output_pos)
}

/// Whether a unit is what a file holds from an offset on: a whole unit, or
/// all whole packets that are left.
pub open spec fn is_next_unit(content: Seq<u8>, offset: int, unit: Seq<u8>) -> bool {
    &&& unit.len() <= 6144
    &&& offset + unit.len() <= content.len()
    &&& unit == content.subrange(offset, offset + unit.len())
    &&& unit.len() == 6144 || content.len() - offset - unit.len() / 192 * 192 < 192
}

proof fn lemma_skip_packets(s: Seq<u8>, n: int)
    requires
        0 <= n,
        n * 192 <= s.len(),
    ensures
        stripped(s) == stripped(s.take(n * 192)) + stripped(s.skip(n * 192)),
        stripped(s.take(n * 192)).len() == n * 188,
        stripped(s.skip(n * 192)) == stripped(s).skip(n * 188),
{
    let a = s.take(n * 192);
    let b = s.skip(n * 192);
    assert(a + b =~= s);
    assert((n * 192) % 192 == 0);
    lemma_stripped_join(a, b);
    assert(stripped(s).skip(n * 188) =~= stripped(b));
}

/// The stream up to a clip is as long as the clip's start says.
proof fn lemma_stream_at(
    clips: Seq<SeekClip>,
    total: u64,
    duration: u64,
    contents: Seq<Seq<u8>>,
    k: int,
)
    requires
        in_line(clips, total, duration),
        contents_match(clips, contents),
        0 <= k <= clips.len(),
    ensures
        ({
            let start = if k < clips.len() {
                clips[k].output_start as int
            } else {
                total as int
            };
            &&& stream_from(contents, 0).len() >= start
            &&& stream_from(contents, k) == stream_from(contents, 0).skip(start)
        }),
    decreases k,
{
    let all = stream_from(contents, 0);
    if k == 0 {
        assert(all.skip(0) =~= all);
    } else {
        lemma_stream_at(clips, total, duration, contents, k - 1);
        let before = stream_from(contents, k - 1);
        assert(clips[k - 1].valid());
        assert(stripped(contents[k - 1]).len() == clips[k - 1].packet_count * 188);
        let n = clips[k - 1].packet_count * 188;
        let start = clips[k - 1].output_start;
        assert(start + n == byte_after(clips, k - 1, total));
        assert(before =~= stripped(contents[k - 1]) + stream_from(contents, k));
        assert(before.skip(n) =~= stream_from(contents, k));
        assert(before.skip(n) =~= all.skip(start + n));
    }
}

/// The stream of a title has as many bytes as were counted.
pub proof fn lemma_stream_len(
    clips: Seq<SeekClip>,
    total: u64,
    duration: u64,
    contents: Seq<Seq<u8>>,
)
    requires
        in_line(clips, total, duration),
        contents_match(clips, contents),
    ensures
        stream_from(contents, 0).len() == total,
{
    lemma_stream_at(clips, total, duration, contents, clips.len() as int);
    assert(stream_from(contents, clips.len() as int).len() == 0);
}

/// A source that has just opened its first clip delivers the whole stream.
pub proof fn lemma_start_in_place(m: SourceModel, contents: Seq<Seq<u8>>)
    requires
        in_line(m.clips, m.output_total, m.title_duration_90k),
        contents_match(m.clips, contents),
        m.clip_idx == 0,
        m.output_pos == 0,
        m.pending.len() == 0,
    ensures
        in_place(m.opened(), contents),
        rest(m.opened(), contents) == stream_from(contents, 0),
{
    let o = m.opened();
    if m.clips.len() > 0 {
        assert(contents[0].skip(0) =~= contents[0]);
        assert(rest(o, contents) =~= stream_from(contents, 0));
    } else {
        assert(rest(o, contents) =~= stream_from(contents, 0));
    }
    assert(stream_from(contents, 0).skip(0) =~= stream_from(contents, 0));
}

/// Taking over the next unit keeps what is delivered.
pub proof fn lemma_unit_in_place(m: SourceModel, contents: Seq<Seq<u8>>, unit: Seq<u8>)
    requires
        in_place(m, contents),
        m.is_open,
        m.pending.len() == 0,
        is_next_unit(contents[m.clip_idx], m.clip_offset, unit),
    ensures
        in_place(m.after_unit(unit), contents),
        rest(m.after_unit(unit), contents) == rest(m, contents),
{
    let k = m.clip_idx;
    let content = contents[k];
    let off = m.clip_offset;
    let n = unit.len() as int / 192;
    let after = m.after_unit(unit);
    let left = content.skip(off);
    if n == 0 {
        assert(left.len() < 192);
        assert(stripped(left) =~= Seq::empty());
        if k + 1 < m.clips.len() {
            assert(contents[k + 1].skip(0) =~= contents[k + 1]);
            assert(rest(after, contents) =~= stripped(contents[k + 1]) + stream_from(
                contents,
                k + 2,
            ));
        }
        assert(rest(m, contents) =~= stream_from(contents, k + 1));
        assert(rest(after, contents) =~= rest(m, contents));
    } else {
        assert(left.take(n * 192) =~= unit.take(n * 192));
        lemma_skip_packets(left, n);
        assert(left.skip(n * 192) =~= content.skip(off + n * 192));
        assert(rest(after, contents) =~= rest(m, contents));
        assert((off + n * 192) % 192 == 0);
    }
}

/// Delivered bytes are those of the stream at the source's place, and the
/// rest follows.
pub proof fn lemma_delivery_in_place(m: SourceModel, contents: Seq<Seq<u8>>, n: int)
    requires
        in_place(m, contents),
        0 <= n <= m.pending.len(),
    ensures
        in_place(m.after_delivery(n), contents),
        m.pending.take(n) == stream_from(contents, 0).subrange(m.output_pos, m.output_pos + n),
{
    let all = stream_from(contents, 0);
    let r = rest(m, contents);
    assert(r.take(n) =~= m.pending.take(n));
    assert(rest(m.after_delivery(n), contents) =~= r.skip(n));
    assert(all.skip(m.output_pos).skip(n) =~= all.skip(m.output_pos + n));
    assert(all.skip(m.output_pos).take(n) =~= all.subrange(m.output_pos, m.output_pos + n));
}

/// A source that follows a plan stands at the plan's unit, from where the
/// packet is as many bytes away as the plan says.
pub proof fn lemma_plan_in_place(m: SourceModel, contents: Seq<Seq<u8>>, k: usize, spn: int)
    requires
        in_line(m.clips, m.output_total, m.title_duration_90k),
        contents_match(m.clips, contents),
        k < m.clips.len(),
        0 <= spn <= u32::MAX,
        spn == 0 || spn < m.clips[k as int].packet_count,
    ensures
        ({
            let plan = plan_for(m.clips[k as int], k, spn);
            let at = m.at_plan(plan);
            &&& in_place(at, contents)
            &&& at.output_pos + plan.skip == m.clips[k as int].output_start + spn * 188
            &&& rest(at, contents).skip(plan.skip as int) == stream_from(contents, 0).skip(
                m.clips[k as int].output_start + spn * 188,
            )
        }),
{
    let c = m.clips[k as int];
    let content = contents[k as int];
    let u = spn / 32 * 32;
    let plan = plan_for(c, k, spn);
    let at = m.at_plan(plan);
    let all = stream_from(contents, 0);
    assert(c.valid());
    lemma_starts_monotone(m.clips, m.output_total, m.title_duration_90k, k as int, k as int);
    if k + 1 < m.clips.len() {
        lemma_starts_monotone(m.clips, m.output_total, m.title_duration_90k, k + 1, k + 1);
    }
    lemma_plan(c, k, spn);
    assert(0 <= u <= spn);
    assert(u * 192 <= content.len()) by {
        assert(content.len() / 192 == c.packet_count);
    }
    lemma_skip_packets(content, u);
    lemma_stream_at(m.clips, m.output_total, m.title_duration_90k, contents, k as int);
    let here = stream_from(contents, k as int);
    assert(here =~= stripped(content) + stream_from(contents, k + 1));
    assert(stripped(content).len() >= u * 188);
    assert(rest(at, contents) =~= here.skip(u * 188));
    assert(all.skip(c.output_start as int).skip(u * 188) =~= all.skip(c.output_start + u * 188));
    assert(at.output_pos == c.output_start + u * 188);
    assert((u * 192) % 192 == 0);
    lemma_stream_len(m.clips, m.output_total, m.title_duration_90k, contents);
    assert(rest(at, contents).skip(plan.skip as int) =~= all.skip(c.output_start + spn * 188));
}

/// A source that has gone back for a byte stands at or before that byte.
pub proof fn lemma_clip_in_place(m: SourceModel, contents: Seq<Seq<u8>>, byte: u64)
    requires
        in_line(m.clips, m.output_total, m.title_duration_90k),
        contents_match(m.clips, contents),
        m.clips.len() > 0,
    ensures
        in_place(m.at_clip(m.clip_for(byte)), contents),
        m.at_clip(m.clip_for(byte)).output_pos <= byte,
{
    lemma_clip_at_byte(m.clips, byte);
    let k = m.clip_for(byte);
    let at = m.at_clip(k);
    lemma_stream_at(m.clips, m.output_total, m.title_duration_90k, contents, k);
    assert(contents[k].skip(0) =~= contents[k]);
    assert(rest(at, contents) =~= stream_from(contents, k));
}

/// A read ends the stream only where the title ends.
pub proof fn lemma_end_of_stream(m: SourceModel, contents: Seq<Seq<u8>>, want: int)
    requires
        in_place(m, contents),
        want > 0,
        m.step(want) is End,
    ensures
        m.output_pos == m.output_total,
        m.output_pos == stream_from(contents, 0).len(),
{
    lemma_stream_len(m.clips, m.output_total, m.title_duration_90k, contents);
    let all = stream_from(contents, 0);
    if m.output_pos < m.output_total {
        assert(rest(m, contents).len() == 0);
        assert(all.skip(m.output_pos).len() == all.len() - m.output_pos);
    }
}

/// What a file holds from an offset on, up to a unit.
pub open spec fn next_unit(content: Seq<u8>, offset: int) -> Seq<u8> {
    if content.len() - offset >= 6144 {
        content.subrange(offset, offset + 6144)
    } else {
        content.skip(offset)
    }
}

/// What `n` steps of a read deliver: each takes over the next unit, or
/// delivers all that waits.
pub open spec fn played(m: SourceModel, contents: Seq<Seq<u8>>, n: nat) -> Seq<u8>
    decreases n,
{
    if n == 0 {
        Seq::empty()
    } else {
        match m.step(1) {
            ReadStep::End => Seq::empty(),
            ReadStep::Deliver => m.pending + played(
                m.after_delivery(m.pending.len() as int),
                contents,
                (n - 1) as nat,
            ),
            ReadStep::NextUnit => played(
                m.after_unit(next_unit(contents[m.clip_idx], m.clip_offset)),
                contents,
                (n - 1) as nat,
            ),
        }
    }
}

/// As many steps as a read to the end may need.
pub open spec fn steps_left(m: SourceModel, contents: Seq<Seq<u8>>) -> int {
    2 * (rest(m, contents).len() - m.pending.len()) + (if m.is_open {
        2 * (m.clips.len() - m.clip_idx)
    } else {
        0
    }) + (if m.pending.len() > 0 {
        1
    } else {
        0int
    })
}

/// Reading to the end delivers the stream from the source's place on, without
/// a byte too many or too few.
pub proof fn lemma_played_to_the_end(m: SourceModel, contents: Seq<Seq<u8>>, n: nat)
    requires
        in_place(m, contents),
        n >= steps_left(m, contents),
    ensures
        played(m, contents, n) == stream_from(contents, 0).skip(m.output_pos),
    decreases n,
{
    let all = stream_from(contents, 0);
    let here = all.skip(m.output_pos);
    lemma_stream_len(m.clips, m.output_total, m.title_duration_90k, contents);
    match m.step(1) {
        ReadStep::End => {
            lemma_end_of_stream(m, contents, 1);
            assert(here =~= Seq::empty());
        },
        ReadStep::Deliver => {
            let k = m.pending.len() as int;
            let after = m.after_delivery(k);
            lemma_delivery_in_place(m, contents, k);
            assert(after.pending =~= Seq::empty());
            assert(rest(after, contents) =~= rest(m, contents).skip(k));
            lemma_played_to_the_end(after, contents, (n - 1) as nat);
            assert(m.pending.take(k) =~= m.pending);
            assert(m.pending + all.skip(after.output_pos) =~= here);
        },
        ReadStep::NextUnit => {
            let content = contents[m.clip_idx];
            let unit = next_unit(content, m.clip_offset);
            let after = m.after_unit(unit);
            if content.len() - m.clip_offset < 6144 {
                assert(unit =~= content.subrange(m.clip_offset, m.clip_offset + unit.len()));
            }
            lemma_unit_in_place(m, contents, unit);
            if unit.len() / 192 * 192 > 0 {
                assert(after.pending.len() > 0);
            }
            lemma_played_to_the_end(after, contents, (n - 1) as nat);
        },
    }
}

/// Reading a title from its start to its end delivers the transport packets
/// of its clips, one clip behind the other.
pub proof fn lemma_whole_title(m: SourceModel, contents: Seq<Seq<u8>>, n: nat)
    requires
        in_line(m.clips, m.output_total, m.title_duration_90k),
        contents_match(m.clips, contents),
        m.clip_idx == 0,
        m.output_pos == 0,
        m.pending.len() == 0,
        n >= steps_left(m.opened(), contents),
    ensures
        played(m.opened(), contents, n) == stream_from(contents, 0),
{
    lemma_start_in_place(m, contents);
    lemma_played_to_the_end(m.opened(), contents, n);
    assert(stream_from(contents, 0).skip(0) =~= stream_from(contents, 0));
}

} // verus!
