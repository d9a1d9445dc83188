//! What a display set shows: laws on how segments make up sets, parts make up
//! bitmaps, palettes give colours, and objects lie on the screen.
use vstd::prelude::*;

use crate::bdmv::pgs::display_set::{
    chain_object, chain_steps, display_sets_of, group_step, group_steps, has_chain, has_open_chain,
    objects_of, whole, Chain, DisplaySetModel, Grouping, ObjectModel,
};
use crate::bdmv::pgs::render::{
    composed, entry_color, is_object, lemma_rendered_pixel, lies_at, numbered_applied, object_image,
    object_images, object_place, pixel_of, rendered, set_images, written, ImageModel, Rgba8,
};
use crate::bdmv::pgs::rle::decoded_pixels;
use crate::bdmv::pgs::segment::{
    BodyModel, CompositionObject, OdsModel, PaletteEntry, PcsModel, PdsModel, SegmentModel,
};

verus! {

// ---------------------------------------------------------------------
// Sets
// ---------------------------------------------------------------------

/// The palettes among segments, in order.
pub open spec fn palettes_in(segs: Seq<SegmentModel>) -> Seq<PdsModel>
    decreases segs.len(),
{
    if segs.len() == 0 {
        Seq::empty()
    } else {
        match segs.last().body {
            BodyModel::Pds(p) => palettes_in(segs.drop_last()).push(p),
            _ => palettes_in(segs.drop_last()),
        }
    }
}

/// The parts of bitmaps among segments, in order.
pub open spec fn parts_in(segs: Seq<SegmentModel>) -> Seq<OdsModel>
    decreases segs.len(),
{
    if segs.len() == 0 {
        Seq::empty()
    } else {
        match segs.last().body {
            BodyModel::Ods(o) => parts_in(segs.drop_last()).push(o),
            _ => parts_in(segs.drop_last()),
        }
    }
}

/// Segments between a composition and its end: no composition, no end mark.
pub open spec fn between(segs: Seq<SegmentModel>) -> bool {
    forall|i: int|
        0 <= i < segs.len() ==> !((#[trigger] segs[i]).body is Pcs) && !(segs[i].body is End)
}

/// Whether at most one segment lists windows.
pub open spec fn one_list(segs: Seq<SegmentModel>) -> bool {
    forall|i: int, j: int|
        0 <= i < j < segs.len() ==> !((#[trigger] segs[i]).body is Wds && (
        #[trigger] segs[j]).body is Wds)
}

proof fn lemma_group_prefix(a: Seq<SegmentModel>, b: Seq<SegmentModel>, n: nat)
    requires
        n <= a.len(),
        n <= b.len(),
        forall|i: int| 0 <= i < n ==> a[i] == b[i],
    ensures
        group_steps(a, n) == group_steps(b, n),
    decreases n,
{
    if n > 0 {
        lemma_group_prefix(a, b, (n - 1) as nat);
    }
}

proof fn lemma_group_middle(
    segs: Seq<SegmentModel>,
    k: nat,
    mid: Seq<SegmentModel>,
    sets: Seq<DisplaySetModel>,
    start: DisplaySetModel,
)
    requires
        k + mid.len() <= segs.len(),
        forall|i: int| 0 <= i < mid.len() ==> segs[k + i] == mid[i],
        group_steps(segs, k) == Some(Grouping { sets, open: Some(start) }),
        start.wds is None,
        start.palettes.len() == 0,
        start.objects.len() == 0,
        between(mid),
        one_list(mid),
    ensures
        group_steps(segs, k + mid.len()) matches Some(g) && g.sets == sets && (g.open matches Some(
            set,
        ) && {
            &&& set.pcs == start.pcs
            &&& set.pts == start.pts
            &&& set.palettes == palettes_in(mid)
            &&& set.objects == parts_in(mid)
            &&& set.wds is None ==> forall|i: int|
                0 <= i < mid.len() ==> !((#[trigger] mid[i]).body is Wds)
            &&& set.wds matches Some(w) ==> exists|i: int|
                0 <= i < mid.len() && (#[trigger] mid[i]).body == BodyModel::Wds(w)
        }),
    decreases mid.len(),
{
    if mid.len() == 0 {
        assert(start.palettes =~= palettes_in(mid));
        assert(start.objects =~= parts_in(mid));
    } else {
        let front = mid.drop_last();
        let n = front.len() as int;
        assert forall|i: int| 0 <= i < front.len() implies !((#[trigger] front[i]).body is Pcs)
            && !(front[i].body is End) && segs[k + i] == front[i] by {
            assert(front[i] == mid[i]);
        }
        assert forall|i: int, j: int| 0 <= i < j < front.len() implies !((
        #[trigger] front[i]).body is Wds && (#[trigger] front[j]).body is Wds) by {
            assert(front[i] == mid[i] && front[j] == mid[j]);
        }
        lemma_group_middle(segs, k, front, sets, start);
        assert(!(mid[n].body is Pcs) && !(mid[n].body is End));
        let g = group_steps(segs, k + front.len())->0;
        let set = g.open->0;
        assert(segs[k + n] == mid[n]);
        assert(group_steps(segs, k + mid.len()) == group_step(g, mid[n]));
        if mid[n].body is Wds && set.wds is Some {
            let w = set.wds->0;
            let i = choose|i: int|
                0 <= i < front.len() && (#[trigger] front[i]).body == BodyModel::Wds(w);
            assert(front[i] == mid[i]);
            assert(false);
        }
        let next = (group_step(g, mid[n])->0).open->0;
        if next.wds is None {
            assert forall|i: int| 0 <= i < mid.len() implies !((#[trigger] mid[i]).body is Wds) by {
                if i < n {
                    assert(front[i] == mid[i]);
                }
            }
        } else if mid[n].body is Wds {
            assert(mid[n].body == BodyModel::Wds(next.wds->0));
        } else {
            let w = set.wds->0;
            let i = choose|i: int|
                0 <= i < front.len() && (#[trigger] front[i]).body == BodyModel::Wds(w);
            assert(mid[i] == front[i]);
        }
    }
}

/// A composition, segments between, and an end mark are one more display set,
/// which is shown when the composition says; its palettes and its parts of
/// bitmaps stand in the order in which they came, and its windows are those of
/// the one list among them.
pub proof fn lemma_set_added(
    done: Seq<SegmentModel>,
    sets: Seq<DisplaySetModel>,
    head: SegmentModel,
    pcs: PcsModel,
    mid: Seq<SegmentModel>,
    end: SegmentModel,
)
    requires
        display_sets_of(done) == Some(sets),
        head.body == BodyModel::Pcs(pcs),
        between(mid),
        one_list(mid),
        end.body is End,
    ensures
        display_sets_of(done + seq![head] + mid + seq![end]) matches Some(all) && {
            let set = all.last();
            &&& all.len() == sets.len() + 1
            &&& all.drop_last() == sets
            &&& set.pcs == pcs
            &&& set.pts == head.header.pts
            &&& set.palettes == palettes_in(mid)
            &&& set.objects == parts_in(mid)
            &&& set.wds is None ==> forall|i: int|
                0 <= i < mid.len() ==> !((#[trigger] mid[i]).body is Wds)
            &&& set.wds matches Some(w) ==> exists|i: int|
                0 <= i < mid.len() && (#[trigger] mid[i]).body == BodyModel::Wds(w)
        },
{
    let segs = done + seq![head] + mid + seq![end];
    let k = done.len();
    lemma_group_prefix(done, segs, k);
    assert(segs[k as int] == head);
    let start = DisplaySetModel {
        pcs,
        wds: None,
        palettes: Seq::empty(),
        objects: Seq::empty(),
        pts: head.header.pts,
    };
    assert(group_steps(segs, k + 1) == Some(Grouping { sets, open: Some(start) }));
    assert forall|i: int| 0 <= i < mid.len() implies segs[k + 1 + i] == mid[i] by {}
    lemma_group_middle(segs, k + 1, mid, sets, start);
    let n = k + 1 + mid.len();
    assert(segs[n as int] == end);
    assert(segs.len() == n + 1);
    let set = (group_steps(segs, n)->0).open->0;
    assert(group_steps(segs, n + 1) == Some(Grouping { sets: sets.push(set), open: None }));
    assert(sets.push(set).drop_last() =~= sets);
}

/// No set begins before the one before it has ended, nothing stands between
/// sets, no set lists its windows twice, and the last set has an end.
pub proof fn lemma_sets_in_order(segs: Seq<SegmentModel>, i: int)
    requires
        0 <= i < segs.len(),
        display_sets_of(segs) is Some,
    ensures
        segs[0].body is Pcs,
        segs.last().body is End,
        segs[i].body is End && i + 1 < segs.len() ==> segs[i + 1].body is Pcs,
        segs[i].body is Pcs && i > 0 ==> segs[i - 1].body is End,
{
    lemma_open_sets(segs, segs.len());
    lemma_open_sets(segs, 1);
    lemma_grouped_up_to(segs, 1, segs.len());
    lemma_grouped_up_to(segs, i as nat, segs.len());
    lemma_grouped_up_to(segs, (i + 1) as nat, segs.len());
    lemma_open_sets(segs, (i + 1) as nat);
    if i + 1 < segs.len() {
        lemma_grouped_up_to(segs, (i + 2) as nat, segs.len());
    }
    if i > 0 {
        lemma_open_sets(segs, i as nat);
    }
    assert(group_steps(segs, 0) == Some(Grouping { sets: Seq::empty(), open: None }));
}

proof fn lemma_grouped_up_to(segs: Seq<SegmentModel>, i: nat, n: nat)
    requires
        i <= n,
        group_steps(segs, n) is Some,
    ensures
        group_steps(segs, i) is Some,
    decreases n,
{
    if i < n {
        lemma_grouped_up_to(segs, i, (n - 1) as nat);
    }
}

proof fn lemma_open_sets(segs: Seq<SegmentModel>, n: nat)
    requires
        0 < n <= segs.len(),
    ensures
        group_steps(segs, n) matches Some(g) ==> (g.open is None <==> segs[n - 1].body is End),
{
}

// ---------------------------------------------------------------------
// Bitmaps
// ---------------------------------------------------------------------

/// Whether a part opens a bitmap.
pub open spec fn opens(o: OdsModel) -> bool {
    o.last_in_sequence_flag == 0x80 || o.last_in_sequence_flag == 0xC0
}

/// Whether a part closes a bitmap.
pub open spec fn closes(o: OdsModel) -> bool {
    o.last_in_sequence_flag == 0x40 || o.last_in_sequence_flag == 0xC0
}

/// Whether part `i` of `n` opened a chain.
spec fn opened_by(frags: Seq<OdsModel>, n: nat, i: int, c: Chain) -> bool {
    &&& 0 <= i < n
    &&& opens(frags[i])
    &&& frags[i].object_id == c.object_id
    &&& frags[i].object_version_number == c.version
    &&& frags[i].width == Some(c.width)
    &&& frags[i].height == Some(c.height)
    &&& frags[i].object_data_length == c.declared_len
}

/// Whether part `i` of `n` closed a chain.
spec fn closed_by(frags: Seq<OdsModel>, n: nat, i: int, c: Chain) -> bool {
    &&& 0 <= i < n
    &&& closes(frags[i])
    &&& frags[i].object_id == c.object_id
}

proof fn lemma_chain_ends(frags: Seq<OdsModel>, n: nat)
    requires
        n <= frags.len(),
    ensures
        chain_steps(frags, n) matches Some(chains) ==> forall|k: int|
            0 <= k < chains.len() ==> {
                &&& exists|i: int| #[trigger] opened_by(frags, n, i, #[trigger] chains[k])
                &&& chains[k].closed <==> exists|i: int| #[trigger]
                    closed_by(frags, n, i, chains[k])
            },
    decreases n,
{
    if n > 0 && chain_steps(frags, n) is Some {
        let m = (n - 1) as nat;
        lemma_chain_ends(frags, m);
        let before = chain_steps(frags, m)->0;
        let chains = chain_steps(frags, n)->0;
        let f = frags[n - 1];
        assert forall|k: int| 0 <= k < chains.len() implies {
            &&& exists|i: int| #[trigger] opened_by(frags, n, i, #[trigger] chains[k])
            &&& chains[k].closed <==> exists|i: int| #[trigger] closed_by(frags, n, i, chains[k])
        } by {
            let c = chains[k];
            if k < before.len() {
                let b = before[k];
                let i = choose|i: int| #[trigger] opened_by(frags, m, i, b);
                assert(opened_by(frags, n, i, c));
                if b.closed {
                    let j = choose|j: int| #[trigger] closed_by(frags, m, j, b);
                    assert(closed_by(frags, n, j, c));
                } else if c.closed {
                    assert(closed_by(frags, n, n - 1, c));
                } else {
                    assert forall|j: int| !#[trigger] closed_by(frags, n, j, c) by {
                        if closed_by(frags, n, j, c) {
                            if j < m {
                                assert(closed_by(frags, m, j, b));
                            } else if f.flag().first() {
                                assert(has_chain(before, f.object_id));
                            }
                        }
                    }
                }
            } else {
                assert(opened_by(frags, n, n - 1, c));
                if c.closed {
                    assert(closed_by(frags, n, n - 1, c));
                } else {
                    assert forall|j: int| !#[trigger] closed_by(frags, n, j, c) by {
                        if closed_by(frags, n, j, c) && j < m {
                            lemma_part_has_chain(frags, m, j);
                            assert(has_chain(before, f.object_id));
                        }
                    }
                }
            }
        }
    }
}

proof fn lemma_part_has_chain(frags: Seq<OdsModel>, n: nat, j: int)
    requires
        0 <= j < n <= frags.len(),
        chain_steps(frags, n) is Some,
    ensures
        has_chain(chain_steps(frags, n)->0, frags[j].object_id),
    decreases n,
{
    let m = (n - 1) as nat;
    let before = chain_steps(frags, m)->0;
    let chains = chain_steps(frags, n)->0;
    let id = frags[j].object_id;
    if j < m {
        lemma_part_has_chain(frags, m, j);
        let k = choose|k: int| 0 <= k < before.len() && (#[trigger] before[k]).object_id == id;
        assert(chains[k].object_id == id);
    } else if frags[j].flag().first() {
        assert(chains[before.len() as int].object_id == id);
    } else {
        let k = choose|k: int|
            0 <= k < before.len() && (#[trigger] before[k]).object_id == id && !before[k].closed;
        assert(chains[k].object_id == id);
    }
}

/// Every bitmap has the size and the version that the part says which opens it,
/// some part closes it, and its data is as long as that first part says, which
/// counts four bytes more.
pub proof fn lemma_bitmap_opened(frags: Seq<OdsModel>, k: int)
    requires
        objects_of(frags) matches Some(objects) && 0 <= k < objects.len(),
    ensures
        ({
            let o = (objects_of(frags)->0)[k];
            &&& exists|i: int|
                0 <= i < frags.len() && opens(#[trigger] frags[i]) && frags[i].object_id
                    == o.object_id && frags[i].object_version_number == o.object_version_number
                    && frags[i].width == Some(o.width) && frags[i].height == Some(o.height)
                    && frags[i].object_data_length == o.rle_data.len() + 4
            &&& exists|i: int|
                0 <= i < frags.len() && closes(#[trigger] frags[i]) && frags[i].object_id
                    == o.object_id
        }),
{
    lemma_chain_ends(frags, frags.len());
    let chains = chain_steps(frags, frags.len())->0;
    let c = chains[k];
    assert(whole(c));
    let i = choose|i: int| #[trigger] opened_by(frags, frags.len(), i, c);
    let j = choose|j: int| #[trigger] closed_by(frags, frags.len(), j, c);
    assert(opened_by(frags, frags.len(), i, c));
    assert(closed_by(frags, frags.len(), j, c));
    assert(opens(frags[i]) && closes(frags[j]));
}

/// A bitmap in one part is that bitmap, and one in two parts is their data put
/// together, where the first says how long the whole is.
pub proof fn lemma_bitmap_joined(a: OdsModel, b: OdsModel)
    requires
        a.width is Some,
        a.height is Some,
        b.object_id == a.object_id,
        b.last_in_sequence_flag == 0x40,
    ensures
        a.last_in_sequence_flag == 0xC0 && a.object_data_length == a.object_data.len() + 4
            ==> objects_of(seq![a]) == Some(
            seq![
                ObjectModel {
                    object_id: a.object_id,
                    object_version_number: a.object_version_number,
                    width: a.width->0,
                    height: a.height->0,
                    rle_data: a.object_data,
                },
            ],
        ),
        a.last_in_sequence_flag == 0x80 && a.object_data_length == a.object_data.len()
            + b.object_data.len() + 4 ==> objects_of(seq![a, b]) == Some(
            seq![
                ObjectModel {
                    object_id: a.object_id,
                    object_version_number: a.object_version_number,
                    width: a.width->0,
                    height: a.height->0,
                    rle_data: a.object_data + b.object_data,
                },
            ],
        ),
{
    let c = Chain {
        object_id: a.object_id,
        version: a.object_version_number,
        width: a.width->0,
        height: a.height->0,
        declared_len: a.object_data_length,
        data: a.object_data,
        closed: a.last_in_sequence_flag == 0xC0,
    };
    let none = Seq::<Chain>::empty();
    assert(!has_chain(none, a.object_id));
    reveal_with_fuel(chain_steps, 3);
    if opens(a) {
        let one = none.push(c);
        assert(chain_steps(seq![a], 1) == Some(one));
        assert(chain_steps(seq![a, b], 1) == Some(one));
        if a.last_in_sequence_flag == 0xC0 && a.object_data_length == a.object_data.len() + 4 {
            assert forall|k: int| 0 <= k < one.len() implies whole(#[trigger] one[k]) by {}
            assert((objects_of(seq![a])->0) =~= seq![chain_object(c)]);
        }
        if a.last_in_sequence_flag == 0x80 && a.object_data_length == a.object_data.len()
            + b.object_data.len() + 4 {
            assert(one[0].object_id == b.object_id && !one[0].closed);
            assert(has_open_chain(one, b.object_id));
            let two = chain_steps(seq![a, b], 2)->0;
            assert(two.len() == 1 && two[0].data == a.object_data + b.object_data);
            assert forall|k: int| 0 <= k < two.len() implies whole(#[trigger] two[k]) by {}
            assert((objects_of(seq![a, b])->0) =~= seq![chain_object(two[0])]);
        }
    }
}

// ---------------------------------------------------------------------
// Palettes
// ---------------------------------------------------------------------

/// Whether an entry of the first `n` palettes with a number gives a colour.
pub open spec fn mentions(palettes: Seq<PdsModel>, id: u8, n: int, j: int, k: int, c: int) -> bool {
    &&& 0 <= j < n
    &&& palettes[j].palette_id == id
    &&& 0 <= k < palettes[j].entries.len()
    &&& palettes[j].entries[k].palette_entry_id == c
}

#[verifier::spinoff_prover]
#[verifier::rlimit(40)]
proof fn lemma_written_entry(table: Seq<Rgba8>, entries: Seq<PaletteEntry>, n: nat, c: int)
    requires
        table.len() == 256,
        0 <= c < 256,
        n <= entries.len(),
    ensures
        written(table, entries, n).len() == 256,
        forall|k: int|
            0 <= k < n && (#[trigger] entries[k]).palette_entry_id == c && (forall|l: int|
                k < l < n ==> (#[trigger] entries[l]).palette_entry_id != c) ==> written(
                table,
                entries,
                n,
            )[c] == entry_color(entries[k]),
        (forall|k: int| 0 <= k < n ==> (#[trigger] entries[k]).palette_entry_id != c) ==> written(
            table,
            entries,
            n,
        )[c] == table[c],
    decreases n,
{
    if n > 0 {
        lemma_written_entry(table, entries, (n - 1) as nat, c);
        if forall|k: int| 0 <= k < n ==> (#[trigger] entries[k]).palette_entry_id != c {
            assert(entries[n - 1].palette_entry_id != c);
        }
    }
}

/// The colour that a display set gives to a number is that of the last entry
/// with this number in the last of its palettes that has one, of those that the
/// composition names.
pub proof fn lemma_palette_color(palettes: Seq<PdsModel>, id: u8, n: nat, j: int, k: int, c: int)
    requires
        n <= palettes.len(),
        0 <= c < 256,
        mentions(palettes, id, n as int, j, k, c),
        forall|l: int| #[trigger] mentions(palettes, id, n as int, j, l, c) ==> l <= k,
        forall|i: int, l: int| #[trigger] mentions(palettes, id, n as int, i, l, c) ==> i <= j,
    ensures
        numbered_applied(palettes, id, n)[c] == entry_color(palettes[j].entries[k]),
        numbered_applied(palettes, id, n).len() == 256,
    decreases n,
{
    let m = (n - 1) as nat;
    lemma_palette_size(palettes, id, m);
    let last = palettes[n - 1];
    if j == n - 1 {
        assert forall|l: int| k < l < last.entries.len() implies (
        #[trigger] last.entries[l]).palette_entry_id != c by {
            if last.entries[l].palette_entry_id == c {
                assert(mentions(palettes, id, n as int, j, l, c));
            }
        }
        lemma_written_entry(
            numbered_applied(palettes, id, m),
            last.entries,
            last.entries.len(),
            c,
        );
    } else {
        assert(mentions(palettes, id, m as int, j, k, c));
        assert forall|l: int| #[trigger] mentions(palettes, id, m as int, j, l, c) implies l
            <= k by {
            assert(mentions(palettes, id, n as int, j, l, c));
        }
        assert forall|i: int, l: int| #[trigger] mentions(palettes, id, m as int, i, l, c) implies i
            <= j by {
            assert(mentions(palettes, id, n as int, i, l, c));
        }
        lemma_palette_color(palettes, id, m, j, k, c);
        if last.palette_id == id {
            assert forall|l: int| 0 <= l < last.entries.len() implies (
            #[trigger] last.entries[l]).palette_entry_id != c by {
                if last.entries[l].palette_entry_id == c {
                    assert(mentions(palettes, id, n as int, n - 1, l, c));
                }
            }
            lemma_written_entry(
                numbered_applied(palettes, id, m),
                last.entries,
                last.entries.len(),
                c,
            );
        }
    }
}

/// A colour that no palette gives is transparent.
pub proof fn lemma_palette_clear(palettes: Seq<PdsModel>, id: u8, n: nat, c: int)
    requires
        n <= palettes.len(),
        0 <= c < 256,
        forall|j: int, k: int| !#[trigger] mentions(palettes, id, n as int, j, k, c),
    ensures
        numbered_applied(palettes, id, n)[c] == (Rgba8 { r: 0, g: 0, b: 0, a: 0 }),
    decreases n,
{
    if n > 0 {
        let m = (n - 1) as nat;
        let last = palettes[n - 1];
        assert forall|j: int, k: int| !#[trigger] mentions(palettes, id, m as int, j, k, c) by {
            assert(!mentions(palettes, id, n as int, j, k, c));
        }
        lemma_palette_clear(palettes, id, m, c);
        lemma_palette_size(palettes, id, m);
        if last.palette_id == id {
            assert forall|l: int| 0 <= l < last.entries.len() implies (
            #[trigger] last.entries[l]).palette_entry_id != c by {
                assert(!mentions(palettes, id, n as int, n - 1, l, c));
            }
            lemma_written_entry(
                numbered_applied(palettes, id, m),
                last.entries,
                last.entries.len(),
                c,
            );
        }
    }
}

proof fn lemma_palette_size(palettes: Seq<PdsModel>, id: u8, n: nat)
    requires
        n <= palettes.len(),
    ensures
        numbered_applied(palettes, id, n).len() == 256,
    decreases n,
{
    if n > 0 {
        let m = (n - 1) as nat;
        lemma_palette_size(palettes, id, m);
        let last = palettes[n - 1];
        lemma_written_entry(
            numbered_applied(palettes, id, m),
            last.entries,
            last.entries.len(),
            0,
        );
    }
}

// ---------------------------------------------------------------------
// The screen
// ---------------------------------------------------------------------

/// Where on a bitmap the pixel lies that an object shows at a place of the
/// screen: as far from the corner of the part that is shown as the place is
/// from the corner of the object.
pub open spec fn source_place(co: CompositionObject, x: int, y: int) -> (int, int) {
    match co.cropping {
        Some(c) => (
            x - co.object_horizontal_position + c.horizontal_position,
            y - co.object_vertical_position + c.vertical_position,
        ),
        None => (x - co.object_horizontal_position, y - co.object_vertical_position),
    }
}

/// Whether an object on the screen shows a pixel of a bitmap at a place: the
/// place lies within the object, within the part that is shown, and within the
/// bitmap.
pub open spec fn shows(co: CompositionObject, width: u16, height: u16, x: int, y: int) -> bool {
    let (u, v) = source_place(co, x, y);
    &&& co.object_horizontal_position <= x
    &&& co.object_vertical_position <= y
    &&& u < width
    &&& v < height
    &&& co.cropping matches Some(c) ==> x < co.object_horizontal_position + c.width && y
        < co.object_vertical_position + c.height
}

/// The pictures of a display set are its bitmaps, each pixel in the colour that
/// the palette gives to it.
pub proof fn lemma_set_pictures(ds: DisplaySetModel, k: int)
    requires
        set_images(ds) matches Some((objects, images)) && 0 <= k < objects.len(),
    ensures
        ({
            let (objects, images) = set_images(ds)->0;
            let o = objects[k];
            let table = numbered_applied(ds.palettes, ds.pcs.palette_id, ds.palettes.len());
            &&& images.len() == objects.len()
            &&& images[k].width == o.width
            &&& images[k].height == o.height
            &&& decoded_pixels(o.rle_data, o.width as nat, o.height as nat) matches Some(pixels)
                && images[k].pixels.len() == pixels.len() && forall|i: int|
                0 <= i < pixels.len() ==> #[trigger] images[k].pixels[i] == table[pixels[i] as int]
        }),
{
    let (objects, images) = set_images(ds)->0;
    let table = numbered_applied(ds.palettes, ds.pcs.palette_id, ds.palettes.len());
    lemma_images(objects, table, objects.len(), k);
}

proof fn lemma_images(objects: Seq<ObjectModel>, table: Seq<Rgba8>, n: nat, k: int)
    requires
        0 <= k < n <= objects.len(),
        object_images(objects, table, n) is Some,
    ensures
        (object_images(objects, table, n)->0).len() == n,
        object_image(objects[k], table) == Some((object_images(objects, table, n)->0)[k]),
    decreases n,
{
    let m = (n - 1) as nat;
    if m > 0 {
        lemma_images(objects, table, m, 0);
    }
    if k < m {
        lemma_images(objects, table, m, k);
    } else if m == 0 {
        assert(object_images(objects, table, 0) == Some(Seq::<ImageModel>::empty()));
    }
}

/// Whether bitmap `k` is the one that an object on the screen names, and shows
/// a pixel there.
pub open spec fn shows_bitmap(
    co: CompositionObject,
    objects: Seq<ObjectModel>,
    images: Seq<ImageModel>,
    k: int,
    x: int,
    y: int,
) -> bool {
    &&& is_object(objects, co.object_id, k)
    &&& shows(co, images[k].width, images[k].height, x, y)
}

proof fn lemma_lies(
    co: CompositionObject,
    objects: Seq<ObjectModel>,
    images: Seq<ImageModel>,
    k: int,
    x: int,
    y: int,
)
    requires
        is_object(objects, co.object_id, k),
    ensures
        lies_at(co, objects, images, x, y) <==> shows_bitmap(co, objects, images, k, x, y),
        lies_at(co, objects, images, x, y) ==> pixel_of(co, objects, images, x, y)
            == images[k].pixels[source_place(co, x, y).1 * images[k].width + source_place(
            co,
            x,
            y,
        ).0],
{
    let j = object_place(objects, co.object_id)->0;
    assert(is_object(objects, co.object_id, j));
    if j < k {
        assert(objects[j].object_id != co.object_id);
    }
    if k < j {
        assert(objects[k].object_id != co.object_id);
    }
}

/// What the screen shows at each place: the pixel of the last object that shows
/// one there, taken from its bitmap as far from the corner as the place lies
/// from the corner of the object; and nothing where no object shows one.
pub proof fn lemma_screen(ds: DisplaySetModel, p: ImageModel, x: int, y: int, last: int, k: int)
    requires
        rendered(ds) == Some(p),
        0 <= x < ds.pcs.width,
        0 <= y < ds.pcs.height,
        -1 <= last < ds.pcs.composition_objects.len(),
        ({
            let (objects, images) = set_images(ds)->0;
            let shown = ds.pcs.composition_objects;
            &&& forall|j: int, l: int|
                last < j < shown.len() ==> !#[trigger] shows_bitmap(
                    shown[j],
                    objects,
                    images,
                    l,
                    x,
                    y,
                )
            &&& last >= 0 ==> shows_bitmap(shown[last], objects, images, k, x, y)
        }),
    ensures
        p.width == ds.pcs.width,
        p.height == ds.pcs.height,
        p.pixels.len() == ds.pcs.width * ds.pcs.height,
        last < 0 ==> p.pixels[y * ds.pcs.width + x] == (Rgba8 { r: 0, g: 0, b: 0, a: 0 }),
        last >= 0 ==> {
            let (objects, images) = set_images(ds)->0;
            let (u, v) = source_place(ds.pcs.composition_objects[last], x, y);
            p.pixels[y * ds.pcs.width + x] == images[k].pixels[v * images[k].width + u]
        },
{
    let (objects, images) = set_images(ds)->0;
    let shown = ds.pcs.composition_objects;
    assert forall|j: int| last < j < shown.len() implies !lies_at(
        #[trigger] shown[j],
        objects,
        images,
        x,
        y,
    ) by {
        if lies_at(shown[j], objects, images, x, y) {
            let l = object_place(objects, shown[j].object_id)->0;
            assert(is_object(objects, shown[j].object_id, l));
            lemma_lies(shown[j], objects, images, l, x, y);
            assert(!shows_bitmap(shown[j], objects, images, l, x, y));
        }
    }
    if last >= 0 {
        lemma_lies(shown[last], objects, images, k, x, y);
    }
    lemma_rendered_pixel(ds, x, y, last);
}

/// A display set can be shown exactly where its bitmaps can be decoded and
/// every object on the screen names one of them.
pub proof fn lemma_renderable(ds: DisplaySetModel)
    ensures
        rendered(ds) is Some <==> set_images(ds) is Some && forall|j: int|
            0 <= j < ds.pcs.composition_objects.len() ==> exists|k: int| #[trigger]
                is_object((set_images(ds)->0).0, (#[trigger] ds.pcs.composition_objects[j]).object_id, k),
{
    if let Some((objects, images)) = set_images(ds) {
        let start = crate::bdmv::pgs::render::transparent_image(ds.pcs.width, ds.pcs.height);
        lemma_composable(
            start,
            ds.pcs.composition_objects,
            objects,
            images,
            ds.pcs.composition_objects.len(),
        );
    }
}

proof fn lemma_composable(
    plane: ImageModel,
    shown: Seq<CompositionObject>,
    objects: Seq<ObjectModel>,
    images: Seq<ImageModel>,
    n: nat,
)
    requires
        n <= shown.len(),
    ensures
        composed(plane, shown, objects, images, n) is Some <==> forall|j: int|
            0 <= j < n ==> exists|k: int| #[trigger]
                is_object(objects, (#[trigger] shown[j]).object_id, k),
    decreases n,
{
    if n > 0 {
        lemma_composable(plane, shown, objects, images, (n - 1) as nat);
        if composed(plane, shown, objects, images, n) is Some {
            assert(object_place(objects, shown[n - 1].object_id) is Some);
        }
    }
}

} // verus!
