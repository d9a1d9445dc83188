//! The tracks of a title: one for each elementary stream that the stream
//! tables of its PlayItems list.
use vstd::prelude::*;
use vstd::string::*;

use crate::bdmv::chapters::items_fit;
use crate::bdmv::mpls::{
    item_models, PlayItem, PlayItemModel, PlayListMpls, StnTable, StnTableModel, StreamCodingType,
};
use crate::order::{
    comes_before, lemma_before_asym, lemma_before_total, lemma_before_trans, text_before,
};
use crate::scan::chars_of;

verus! {

/// Class of a track: the seven classes of a stream table.
#[derive(Debug, Clone, Copy, PartialEq, Eq, Structural, Hash)]
pub enum TrackKind {
    /// The main video stream.
    PrimaryVideo,
    /// The main audio mix.
    PrimaryAudio,
    /// Bitmap subtitles.
    PgSubtitle,
    /// Menu overlays.
    IgMenu,
    /// Commentary and picture-in-picture audio.
    SecondaryAudio,
    /// Picture-in-picture video.
    SecondaryVideo,
    /// Picture-in-picture bitmap subtitles.
    PipPgSubtitle,
}

impl TrackKind {
    /// Place of the class in a stream table.
    pub open spec fn rank(self) -> int {
        match self {
            TrackKind::PrimaryVideo => 0,
            TrackKind::PrimaryAudio => 1,
            TrackKind::PgSubtitle => 2,
            TrackKind::IgMenu => 3,
            TrackKind::SecondaryAudio => 4,
            TrackKind::SecondaryVideo => 5,
            TrackKind::PipPgSubtitle => 6,
        }
    }
}

/// Place of a class in a stream table, from 0 on.
pub fn class_order(kind: TrackKind) -> (r: u8)
    ensures
        r == kind.rank(),
{
    match kind {
        TrackKind::PrimaryVideo => 0,
        TrackKind::PrimaryAudio => 1,
        TrackKind::PgSubtitle => 2,
        TrackKind::IgMenu => 3,
        TrackKind::SecondaryAudio => 4,
        TrackKind::SecondaryVideo => 5,
        TrackKind::PipPgSubtitle => 6,
    }
}

// ---------------------------------------------------------------------
// Languages
// ---------------------------------------------------------------------

/// Printable ASCII other than the space.
pub open spec fn is_graphic(b: u8) -> bool {
    0x21 <= b <= 0x7E
}

/// The lower-case character of an ASCII byte.
pub open spec fn lower_char(b: u8) -> char {
    if 0x41 <= b <= 0x5A {
        (b + 0x20) as char
    } else {
        b as char
    }
}

/// The language tag that three bytes hold, in lower case. Three zeros, and
/// anything that is not printable ASCII, hold none.
pub open spec fn language_of(raw: [u8; 3]) -> Option<Seq<char>> {
    if is_graphic(raw[0]) && is_graphic(raw[1]) && is_graphic(raw[2]) {
        Some(seq![lower_char(raw[0]), lower_char(raw[1]), lower_char(raw[2])])
    } else {
        None
    }
}

/// The text of an optional string.
pub open spec fn option_text(s: Option<String>) -> Option<Seq<char>> {
    match s {
        Some(t) => Some(t@),
        None => None,
    }
}

fn to_lower(b: u8) -> (r: char)
    ensures
        r == lower_char(b),
{
    if 0x41 <= b && b <= 0x5A {
        (b + 0x20) as char
    } else {
        b as char
    }
}

/// The language tag that three bytes hold.
pub fn decode_lang_code(raw: [u8; 3]) -> (r: Option<String>)
    ensures
        option_text(r) == language_of(raw),
{
    let mut s = String::new();
    let mut i: usize = 0;
    while i < 3
        invariant
            i <= 3,
            s@.len() == i,
            forall|k: int|
                0 <= k < i ==> is_graphic(#[trigger] raw[k]) && s@[k] == lower_char(raw[k]),
        decreases 3 - i,
    {
        let b: u8 = raw[i];
        if b < 0x21 || b > 0x7E {
            assert(!is_graphic(raw[i as int]));
            return None;
        }
        s.push(to_lower(b));
        i += 1;
    }
    assert(s@ =~= seq![lower_char(raw[0]), lower_char(raw[1]), lower_char(raw[2])]);
    Some(s)
}

// ---------------------------------------------------------------------
// What the stream tables list
// ---------------------------------------------------------------------

/// One entry of a stream table, of whatever class. A PID of zero stands for
/// a stream that is not in the main transport stream.
#[derive(Debug, Clone)]
pub struct ListedStream {
    pub pid: u16,
    pub coding_type: StreamCodingType,
    pub language: Option<String>,
}

/// Model of [`ListedStream`].
pub struct ListedModel {
    pub pid: u16,
    pub coding_type: StreamCodingType,
    pub language: Option<Seq<char>>,
}

impl View for ListedStream {
    type V = ListedModel;

    open spec fn view(&self) -> ListedModel {
        ListedModel {
            pid: self.pid,
            coding_type: self.coding_type,
            language: option_text(self.language),
        }
    }
}

pub open spec fn listed_models(v: Seq<ListedStream>) -> Seq<ListedModel> {
    Seq::new(v.len(), |i: int| v[i]@)
}

/// The entries of one class of a table. Audio and subtitles come with a
/// language, video, menus and picture-in-picture subtitles without.
pub open spec fn class_entries(t: StnTableModel, kind: TrackKind) -> Seq<ListedModel> {
    match kind {
        TrackKind::PrimaryVideo => Seq::new(
            t.primary_video.len(),
            |i: int|
                ListedModel {
                    pid: t.primary_video[i].elementary_pid,
                    coding_type: t.primary_video[i].coding_type,
                    language: None,
                },
        ),
        TrackKind::PrimaryAudio => Seq::new(
            t.primary_audio.len(),
            |i: int|
                ListedModel {
                    pid: t.primary_audio[i].elementary_pid,
                    coding_type: t.primary_audio[i].coding_type,
                    language: language_of(t.primary_audio[i].language_code),
                },
        ),
        TrackKind::PgSubtitle => Seq::new(
            t.pg_subtitles.len(),
            |i: int|
                ListedModel {
                    pid: t.pg_subtitles[i].elementary_pid,
                    coding_type: t.pg_subtitles[i].coding_type,
                    language: language_of(t.pg_subtitles[i].language_code),
                },
        ),
        TrackKind::IgMenu => Seq::new(
            t.ig_streams.len(),
            |i: int|
                ListedModel {
                    pid: t.ig_streams[i].elementary_pid,
                    coding_type: t.ig_streams[i].coding_type,
                    language: None,
                },
        ),
        TrackKind::SecondaryAudio => Seq::new(
            t.secondary_audio.len(),
            |i: int|
                ListedModel {
                    pid: t.secondary_audio[i].elementary_pid,
                    coding_type: t.secondary_audio[i].coding_type,
                    language: language_of(t.secondary_audio[i].language_code),
                },
        ),
        TrackKind::SecondaryVideo => Seq::new(
            t.secondary_video.len(),
            |i: int|
                ListedModel {
                    pid: t.secondary_video[i].elementary_pid,
                    coding_type: t.secondary_video[i].coding_type,
                    language: None,
                },
        ),
        TrackKind::PipPgSubtitle => Seq::new(
            t.pip_pg.len(),
            |i: int|
                ListedModel {
                    pid: t.pip_pg[i].elementary_pid,
                    coding_type: t.pip_pg[i].coding_type,
                    language: None,
                },
        ),
    }
}

/// The entries of one class, item after item.
pub open spec fn all_entries(items: Seq<PlayItemModel>, kind: TrackKind) -> Seq<ListedModel>
    decreases items.len(),
{
    if items.len() == 0 {
        Seq::empty()
    } else {
        all_entries(items.drop_last(), kind) + class_entries(items.last().stn_table, kind)
    }
}

/// Whether an entry has a PID.
pub open spec fn lists_pid(s: Seq<ListedModel>, pid: u16) -> bool {
    exists|i: int| 0 <= i < s.len() && (#[trigger] s[i]).pid == pid
}

/// The entries that are the first with their PID; those without a PID are
/// left out.
pub open spec fn first_listed(s: Seq<ListedModel>) -> Seq<ListedModel>
    decreases s.len(),
{
    if s.len() == 0 {
        Seq::empty()
    } else {
        let before = first_listed(s.drop_last());
        if s.last().pid == 0 || lists_pid(before, s.last().pid) {
            before
        } else {
            before.push(s.last())
        }
    }
}

/// How many items list a PID in a class.
pub open spec fn items_listing(items: Seq<PlayItemModel>, kind: TrackKind, pid: u16) -> int
    decreases items.len(),
{
    if items.len() == 0 {
        0
    } else {
        items_listing(items.drop_last(), kind, pid) + if lists_pid(
            class_entries(items.last().stn_table, kind),
            pid,
        ) {
            1int
        } else {
            0int
        }
    }
}

// ---------------------------------------------------------------------
// Tracks
// ---------------------------------------------------------------------

/// One elementary stream of a title.
#[derive(Debug, Clone, PartialEq, Eq)]
pub struct Track {
    /// PID in the transport stream.
    pub pid: u16,
    pub kind: TrackKind,
    pub coding_type: StreamCodingType,
    /// Three-letter language tag, where the class carries one and it is set.
    pub language: Option<String>,
    /// How many PlayItems of the title list the stream.
    pub playitem_count: u32,
}

/// Model of [`Track`].
pub struct TrackModel {
    pub pid: u16,
    pub kind: TrackKind,
    pub coding_type: StreamCodingType,
    pub language: Option<Seq<char>>,
    pub playitem_count: u32,
}

impl View for Track {
    type V = TrackModel;

    open spec fn view(&self) -> TrackModel {
        TrackModel {
            pid: self.pid,
            kind: self.kind,
            coding_type: self.coding_type,
            language: option_text(self.language),
            playitem_count: self.playitem_count,
        }
    }
}

pub open spec fn track_models(v: Seq<Track>) -> Seq<TrackModel> {
    Seq::new(v.len(), |i: int| v[i]@)
}

impl Track {
    /// The coding type in words, with the language in brackets where it is
    /// known.
    pub fn label(&self) -> (r: String)
        ensures
            r@ == match self.language {
                Some(lang) => self.coding_type.label() + " ("@ + lang@ + ")"@,
                None => self.coding_type.label(),
            },
    {
        let mut s = self.coding_type.display_name();
        match &self.language {
            Some(lang) => {
                s.append(" (");
                s.append(lang.as_str());
                s.append(")");
            },
            None => {},
        }
        s
    }
}

/// The track of an entry that is the first with its PID.
pub open spec fn track_of(
    items: Seq<PlayItemModel>,
    kind: TrackKind,
    e: ListedModel,
) -> TrackModel {
    TrackModel {
        pid: e.pid,
        kind,
        coding_type: e.coding_type,
        language: e.language,
        playitem_count: items_listing(items, kind, e.pid) as u32,
    }
}

/// The tracks of one class, in the order in which they are first listed.
pub open spec fn class_tracks(items: Seq<PlayItemModel>, kind: TrackKind) -> Seq<TrackModel> {
    let firsts = first_listed(all_entries(items, kind));
    Seq::new(firsts.len(), |i: int| track_of(items, kind, firsts[i]))
}

/// The tracks of a title, class by class.
pub open spec fn tracks_of(items: Seq<PlayItemModel>) -> Seq<TrackModel> {
    class_tracks(items, TrackKind::PrimaryVideo) + class_tracks(items, TrackKind::PrimaryAudio)
        + class_tracks(items, TrackKind::PgSubtitle) + class_tracks(items, TrackKind::IgMenu)
        + class_tracks(items, TrackKind::SecondaryAudio) + class_tracks(
        items,
        TrackKind::SecondaryVideo,
    ) + class_tracks(items, TrackKind::PipPgSubtitle)
}

/// The tracks of a title.
#[derive(Debug, Clone, PartialEq, Eq)]
pub struct TrackCatalogue {
    pub tracks: Vec<Track>,
}

impl View for TrackCatalogue {
    type V = Seq<TrackModel>;

    open spec fn view(&self) -> Seq<TrackModel> {
        track_models(self.tracks@)
    }
}

impl Default for TrackCatalogue {
    fn default() -> (r: Self)
        ensures
            r@ == Seq::<TrackModel>::empty(),
    {
        let r = TrackCatalogue { tracks: Vec::new() };
        assert(r@ =~= Seq::<TrackModel>::empty());
        r
    }
}

/// The values that references point at.
pub open spec fn pointed<T>(v: Seq<&T>) -> Seq<T> {
    Seq::new(v.len(), |i: int| *v[i])
}

/// The tracks of one class among others.
pub open spec fn of_kind(v: Seq<Track>, kind: TrackKind) -> Seq<Track>
    decreases v.len(),
{
    if v.len() == 0 {
        Seq::empty()
    } else if v.last().kind == kind {
        of_kind(v.drop_last(), kind).push(v.last())
    } else {
        of_kind(v.drop_last(), kind)
    }
}

impl TrackCatalogue {
    /// Number of tracks.
    pub fn len(&self) -> (r: usize)
        ensures
            r == self.tracks@.len(),
    {
        self.tracks.len()
    }

    /// Whether there are no tracks.
    pub fn is_empty(&self) -> (r: bool)
        ensures
            r == (self.tracks@.len() == 0),
    {
        self.tracks.len() == 0
    }

    /// The tracks of a class, in order.
    pub fn by_kind(&self, kind: TrackKind) -> (r: Vec<&Track>)
        ensures
            pointed(r@) == of_kind(self.tracks@, kind),
    {
        let mut r: Vec<&Track> = Vec::new();
        let mut i: usize = 0;
        assert(pointed(r@) =~= Seq::<Track>::empty());
        while i < self.tracks.len()
            invariant
                i <= self.tracks@.len(),
                pointed(r@) == of_kind(self.tracks@.take(i as int), kind),
            decreases self.tracks@.len() - i,
        {
            let t = &self.tracks[i];
            assert(self.tracks@.take(i + 1).drop_last() =~= self.tracks@.take(i as int));
            let ghost before = pointed(r@);
            if t.kind == kind {
                r.push(t);
                assert(pointed(r@) =~= before.push(*t));
            }
            i += 1;
        }
        assert(self.tracks@.take(i as int) =~= self.tracks@);
        r
    }

    /// The first track with a PID.
    pub fn by_pid(&self, pid: u16) -> (r: Option<&Track>)
        ensures
            match r {
                Some(t) => exists|k: int|
                    0 <= k < self.tracks@.len() && #[trigger] self.tracks@[k] == *t && t.pid == pid
                        && forall|j: int| 0 <= j < k ==> (#[trigger] self.tracks@[j]).pid != pid,
                None => forall|j: int|
                    0 <= j < self.tracks@.len() ==> (#[trigger] self.tracks@[j]).pid != pid,
            },
    {
        let mut i: usize = 0;
        while i < self.tracks.len()
            invariant
                i <= self.tracks@.len(),
                forall|j: int| 0 <= j < i ==> (#[trigger] self.tracks@[j]).pid != pid,
            decreases self.tracks@.len() - i,
        {
            if self.tracks[i].pid == pid {
                return Some(&self.tracks[i]);
            }
            i += 1;
        }
        None
    }
}

// ---------------------------------------------------------------------
// Collecting tracks
// ---------------------------------------------------------------------

/// The entries of one class of a table.
fn list_class(t: &StnTable, kind: TrackKind) -> (r: Vec<ListedStream>)
    ensures
        listed_models(r@) == class_entries(t@, kind),
{
    let total: usize = match kind {
        TrackKind::PrimaryVideo => t.primary_video.len(),
        TrackKind::PrimaryAudio => t.primary_audio.len(),
        TrackKind::PgSubtitle => t.pg_subtitles.len(),
        TrackKind::IgMenu => t.ig_streams.len(),
        TrackKind::SecondaryAudio => t.secondary_audio.len(),
        TrackKind::SecondaryVideo => t.secondary_video.len(),
        TrackKind::PipPgSubtitle => t.pip_pg.len(),
    };
    let mut r: Vec<ListedStream> = Vec::new();
    let mut i: usize = 0;
    while i < total
        invariant
            i <= total,
            total == class_entries(t@, kind).len(),
            r@.len() == i,
            forall|k: int| 0 <= k < i ==> (#[trigger] r@[k])@ == class_entries(t@, kind)[k],
        decreases total - i,
    {
        let e = match kind {
            TrackKind::PrimaryVideo => ListedStream {
                pid: t.primary_video[i].elementary_pid,
                coding_type: t.primary_video[i].coding_type,
                language: None,
            },
            TrackKind::PrimaryAudio => ListedStream {
                pid: t.primary_audio[i].elementary_pid,
                coding_type: t.primary_audio[i].coding_type,
                language: decode_lang_code(t.primary_audio[i].language_code),
            },
            TrackKind::PgSubtitle => ListedStream {
                pid: t.pg_subtitles[i].elementary_pid,
                coding_type: t.pg_subtitles[i].coding_type,
                language: decode_lang_code(t.pg_subtitles[i].language_code),
            },
            TrackKind::IgMenu => ListedStream {
                pid: t.ig_streams[i].elementary_pid,
                coding_type: t.ig_streams[i].coding_type,
                language: None,
            },
            TrackKind::SecondaryAudio => ListedStream {
                pid: t.secondary_audio[i].elementary_pid,
                coding_type: t.secondary_audio[i].coding_type,
                language: decode_lang_code(t.secondary_audio[i].language_code),
            },
            TrackKind::SecondaryVideo => ListedStream {
                pid: t.secondary_video[i].elementary_pid,
                coding_type: t.secondary_video[i].coding_type,
                language: None,
            },
            TrackKind::PipPgSubtitle => ListedStream {
                pid: t.pip_pg[i].elementary_pid,
                coding_type: t.pip_pg[i].coding_type,
                language: None,
            },
        };
        assert(e@ == class_entries(t@, kind)[i as int]);
        r.push(e);
        i += 1;
    }
    assert(listed_models(r@) =~= class_entries(t@, kind));
    r
}

/// Whether an entry has a PID.
fn has_pid(v: &Vec<ListedStream>, pid: u16) -> (r: bool)
    ensures
        r == lists_pid(listed_models(v@), pid),
{
    let mut i: usize = 0;
    while i < v.len()
        invariant
            i <= v@.len(),
            forall|k: int| 0 <= k < i ==> (#[trigger] v@[k]).pid != pid,
        decreases v@.len() - i,
    {
        if v[i].pid == pid {
            assert(listed_models(v@)[i as int].pid == pid);
            return true;
        }
        i += 1;
    }
    proof {
        if lists_pid(listed_models(v@), pid) {
            let k = choose|k: int|
                0 <= k < listed_models(v@).len() && (#[trigger] listed_models(v@)[k]).pid == pid;
            assert(v@[k].pid != pid);
        }
    }
    false
}

fn copy_language(language: &Option<String>) -> (r: Option<String>)
    ensures
        option_text(r) == option_text(*language),
{
    match language {
        Some(t) => Some(t.clone()),
        None => None,
    }
}

/// Add the entries of one table to those that were listed first before.
fn add_firsts(
    firsts: &mut Vec<ListedStream>,
    table: &Vec<ListedStream>,
    Ghost(before): Ghost<Seq<ListedModel>>,
)
    requires
        listed_models(old(firsts)@) == first_listed(before),
    ensures
        listed_models(final(firsts)@) == first_listed(before + listed_models(table@)),
{
    let ghost whole = listed_models(table@);
    let mut i: usize = 0;
    assert(before + whole.take(0) =~= before);
    while i < table.len()
        invariant
            i <= table@.len(),
            whole == listed_models(table@),
            listed_models(firsts@) == first_listed(before + whole.take(i as int)),
        decreases table@.len() - i,
    {
        let e = &table[i];
        proof {
            let s = before + whole.take(i + 1);
            assert(s.drop_last() =~= before + whole.take(i as int));
            assert(s.last() == e@);
        }
        if e.pid != 0 && !has_pid(firsts, e.pid) {
            let ghost earlier = listed_models(firsts@);
            firsts.push(
                ListedStream {
                    pid: e.pid,
                    coding_type: e.coding_type,
                    language: copy_language(&e.language),
                },
            );
            assert(listed_models(firsts@) =~= earlier.push(e@));
        }
        i += 1;
    }
    assert(whole.take(i as int) =~= whole);
}

/// The entries of one class that are the first with their PID.
fn list_firsts(items: &Vec<PlayItem>, kind: TrackKind) -> (r: Vec<ListedStream>)
    ensures
        listed_models(r@) == first_listed(all_entries(item_models(items@), kind)),
{
    let ghost models = item_models(items@);
    let mut r: Vec<ListedStream> = Vec::new();
    let mut i: usize = 0;
    proof {
        assert(models.take(0) =~= Seq::empty());
        assert(listed_models(r@) =~= Seq::empty());
    }
    while i < items.len()
        invariant
            i <= items@.len(),
            models == item_models(items@),
            listed_models(r@) == first_listed(all_entries(models.take(i as int), kind)),
        decreases items@.len() - i,
    {
        let table = list_class(&items[i].stn_table, kind);
        proof {
            assert(models.take(i + 1).drop_last() =~= models.take(i as int));
            assert(models.take(i + 1).last() == items@[i as int]@);
        }
        add_firsts(&mut r, &table, Ghost(all_entries(models.take(i as int), kind)));
        i += 1;
    }
    assert(models.take(i as int) =~= models);
    r
}

/// How many items list a PID in a class.
fn count_items(items: &Vec<PlayItem>, kind: TrackKind, pid: u16) -> (r: u32)
    requires
        items_fit(item_models(items@)),
    ensures
        r == items_listing(item_models(items@), kind, pid),
{
    let ghost models = item_models(items@);
    let mut n: u32 = 0;
    let mut i: usize = 0;
    assert(models.take(0) =~= Seq::empty());
    while i < items.len()
        invariant
            i <= items@.len(),
            models == item_models(items@),
            items_fit(models),
            n <= i,
            n == items_listing(models.take(i as int), kind, pid),
        decreases items@.len() - i,
    {
        let table = list_class(&items[i].stn_table, kind);
        proof {
            assert(models.take(i + 1).drop_last() =~= models.take(i as int));
            assert(models.take(i + 1).last() == items@[i as int]@);
        }
        if has_pid(&table, pid) {
            n += 1;
        }
        i += 1;
    }
    assert(models.take(i as int) =~= models);
    n
}

/// Append the tracks of one class.
fn push_class(out: &mut Vec<Track>, items: &Vec<PlayItem>, kind: TrackKind)
    requires
        items_fit(item_models(items@)),
    ensures
        track_models(final(out)@) == track_models(old(out)@) + class_tracks(
            item_models(items@),
            kind,
        ),
{
    let ghost models = item_models(items@);
    let ghost tracks = class_tracks(models, kind);
    let ghost start = track_models(out@);
    let firsts = list_firsts(items, kind);
    let mut i: usize = 0;
    assert(track_models(out@) =~= start + tracks.take(0));
    while i < firsts.len()
        invariant
            i <= firsts@.len(),
            models == item_models(items@),
            items_fit(models),
            tracks == class_tracks(models, kind),
            listed_models(firsts@) == first_listed(all_entries(models, kind)),
            track_models(out@) == start + tracks.take(i as int),
        decreases firsts@.len() - i,
    {
        let e = &firsts[i];
        let playitem_count: u32 = count_items(items, kind, e.pid);
        let t = Track {
            pid: e.pid,
            kind,
            coding_type: e.coding_type,
            language: copy_language(&e.language),
            playitem_count,
        };
        proof {
            assert(listed_models(firsts@)[i as int] == e@);
            assert(t@ == tracks[i as int]);
        }
        let ghost before = track_models(out@);
        let ghost m = t@;
        out.push(t);
        proof {
            assert(track_models(out@) =~= before.push(m));
            assert(track_models(out@) =~= start + tracks.take(i + 1));
        }
        i += 1;
    }
    proof {
        assert(listed_models(firsts@).len() == firsts@.len());
        assert(tracks.take(i as int) =~= tracks);
    }
}

/// The tracks of a title: one for each PID and class that its PlayItems
/// list, class by class, in each class in the order of the stream tables.
pub fn build_track_catalogue(pl: &PlayListMpls) -> (r: TrackCatalogue)
    requires
        items_fit(pl@.play_items),
    ensures
        r@ == tracks_of(pl@.play_items),
{
    let items = &pl.play_list.play_items;
    let mut tracks: Vec<Track> = Vec::new();
    assert(track_models(tracks@) =~= Seq::empty());
    push_class(&mut tracks, items, TrackKind::PrimaryVideo);
    push_class(&mut tracks, items, TrackKind::PrimaryAudio);
    push_class(&mut tracks, items, TrackKind::PgSubtitle);
    push_class(&mut tracks, items, TrackKind::IgMenu);
    push_class(&mut tracks, items, TrackKind::SecondaryAudio);
    push_class(&mut tracks, items, TrackKind::SecondaryVideo);
    push_class(&mut tracks, items, TrackKind::PipPgSubtitle);
    assert(track_models(tracks@) =~= tracks_of(pl@.play_items));
    TrackCatalogue { tracks }
}

proof fn lemma_first_listed(s: Seq<ListedModel>)
    ensures
        forall|i: int| 0 <= i < first_listed(s).len() ==> (#[trigger] first_listed(s)[i]).pid != 0,
        forall|i: int, j: int|
            0 <= i < j < first_listed(s).len() ==> (#[trigger] first_listed(s)[i]).pid != (
            #[trigger] first_listed(s)[j]).pid,
        forall|i: int|
            0 <= i < first_listed(s).len() ==> lists_pid(s, (#[trigger] first_listed(s)[i]).pid),
        forall|k: int|
            0 <= k < s.len() && (#[trigger] s[k]).pid != 0 ==> lists_pid(first_listed(s), s[k].pid),
    decreases s.len(),
{
    if s.len() > 0 {
        let init = s.drop_last();
        lemma_first_listed(init);
        let before = first_listed(init);
        let now = first_listed(s);
        assert forall|p: u16| lists_pid(init, p) implies lists_pid(s, p) by {
            let k = choose|k: int| 0 <= k < init.len() && (#[trigger] init[k]).pid == p;
            assert(s[k].pid == p);
        }
        assert(s[s.len() - 1].pid == s.last().pid);
        assert forall|p: u16| lists_pid(before, p) implies lists_pid(now, p) by {
            let k = choose|k: int| 0 <= k < before.len() && (#[trigger] before[k]).pid == p;
            assert(now[k].pid == p);
        }
        assert forall|i: int, j: int| 0 <= i < j < now.len() implies (#[trigger] now[i]).pid != (
        #[trigger] now[j]).pid by {
            if j == before.len() {
                assert(before[i].pid == now[i].pid);
            }
        }
        assert forall|k: int| 0 <= k < s.len() && (#[trigger] s[k]).pid != 0 implies lists_pid(
            now,
            s[k].pid,
        ) by {
            if k < init.len() {
                assert(init[k].pid == s[k].pid);
            } else if !lists_pid(before, s[k].pid) {
                assert(now[before.len() as int].pid == s[k].pid);
            }
        }
    }
}

/// A PID that some item lists is counted, at most once for each item.
proof fn lemma_items_listing(items: Seq<PlayItemModel>, kind: TrackKind, pid: u16)
    ensures
        0 <= items_listing(items, kind, pid) <= items.len(),
        lists_pid(all_entries(items, kind), pid) ==> items_listing(items, kind, pid) >= 1,
    decreases items.len(),
{
    if items.len() > 0 {
        lemma_items_listing(items.drop_last(), kind, pid);
        let before = all_entries(items.drop_last(), kind);
        let table = class_entries(items.last().stn_table, kind);
        if lists_pid(before + table, pid) && !lists_pid(before, pid) {
            let k = choose|k: int|
                0 <= k < (before + table).len() && (#[trigger] (before + table)[k]).pid == pid;
            if k < before.len() {
                assert(before[k].pid == pid);
            }
            assert(table[k - before.len()].pid == pid);
        }
    }
}

/// Whether one track may stand before another: a class that comes first, or
/// another PID of the same class.
pub open spec fn track_precedes(a: TrackModel, b: TrackModel) -> bool {
    a.kind.rank() < b.kind.rank() || (a.kind == b.kind && a.pid != b.pid)
}

/// Whether a track stands for a stream that items list.
pub open spec fn is_listed(items: Seq<PlayItemModel>, t: TrackModel) -> bool {
    t.pid != 0 && lists_pid(all_entries(items, t.kind), t.pid) && t.playitem_count
        == items_listing(items, t.kind, t.pid) && 1 <= t.playitem_count <= items.len()
}

/// Whether tracks are in order, all of them listed and none of a class from
/// `limit` on.
spec fn in_order(items: Seq<PlayItemModel>, s: Seq<TrackModel>, limit: int) -> bool {
    &&& forall|i: int, j: int| 0 <= i < j < s.len() ==> #[trigger] track_precedes(s[i], s[j])
    &&& forall|i: int| 0 <= i < s.len() ==> is_listed(items, #[trigger] s[i])
    &&& forall|i: int| 0 <= i < s.len() ==> (#[trigger] s[i]).kind.rank() < limit
}

proof fn lemma_append_class(items: Seq<PlayItemModel>, s: Seq<TrackModel>, kind: TrackKind)
    requires
        items_fit(items),
        in_order(items, s, kind.rank()),
    ensures
        in_order(items, s + class_tracks(items, kind), kind.rank() + 1),
{
    let firsts = first_listed(all_entries(items, kind));
    let tracks = class_tracks(items, kind);
    let all = s + tracks;
    lemma_first_listed(all_entries(items, kind));
    assert forall|i: int| 0 <= i < tracks.len() implies is_listed(items, #[trigger] tracks[i]) by {
        assert(tracks[i] == track_of(items, kind, firsts[i]));
        lemma_items_listing(items, kind, firsts[i].pid);
    }
    assert forall|i: int| 0 <= i < all.len() implies is_listed(items, #[trigger] all[i]) by {
        if i < s.len() {
            assert(all[i] == s[i]);
        } else {
            assert(all[i] == tracks[i - s.len()]);
        }
    }
    assert forall|i: int| 0 <= i < all.len() implies (#[trigger] all[i]).kind.rank() < kind.rank()
        + 1 by {
        if i < s.len() {
            assert(all[i] == s[i]);
        } else {
            assert(all[i] == tracks[i - s.len()]);
        }
    }
    assert forall|i: int, j: int| 0 <= i < j < all.len() implies #[trigger] track_precedes(
        all[i],
        all[j],
    ) by {
        if j < s.len() {
            assert(track_precedes(s[i], s[j]));
        } else if i >= s.len() {
            assert(firsts[i - s.len()].pid != firsts[j - s.len()].pid);
        } else {
            assert(all[i] == s[i]);
            assert(all[j] == tracks[j - s.len()]);
        }
    }
}

/// The tracks of a title stand in the order of the classes, no stream twice,
/// and each is counted once for every PlayItem that lists it.
pub proof fn lemma_tracks_in_order(items: Seq<PlayItemModel>)
    requires
        items_fit(items),
    ensures
        forall|i: int, j: int|
            0 <= i < j < tracks_of(items).len() ==> #[trigger] track_precedes(
                tracks_of(items)[i],
                tracks_of(items)[j],
            ),
        forall|i: int|
            0 <= i < tracks_of(items).len() ==> is_listed(items, #[trigger] tracks_of(items)[i]),
{
    let s0 = Seq::<TrackModel>::empty();
    lemma_append_class(items, s0, TrackKind::PrimaryVideo);
    let s1 = class_tracks(items, TrackKind::PrimaryVideo);
    assert(s0 + s1 =~= s1);
    lemma_append_class(items, s1, TrackKind::PrimaryAudio);
    let s2 = s1 + class_tracks(items, TrackKind::PrimaryAudio);
    lemma_append_class(items, s2, TrackKind::PgSubtitle);
    let s3 = s2 + class_tracks(items, TrackKind::PgSubtitle);
    lemma_append_class(items, s3, TrackKind::IgMenu);
    let s4 = s3 + class_tracks(items, TrackKind::IgMenu);
    lemma_append_class(items, s4, TrackKind::SecondaryAudio);
    let s5 = s4 + class_tracks(items, TrackKind::SecondaryAudio);
    lemma_append_class(items, s5, TrackKind::SecondaryVideo);
    let s6 = s5 + class_tracks(items, TrackKind::SecondaryVideo);
    lemma_append_class(items, s6, TrackKind::PipPgSubtitle);
}

/// Whether a track with a PID and a class is among tracks.
pub open spec fn has_track(s: Seq<TrackModel>, pid: u16, kind: TrackKind) -> bool {
    exists|i: int| 0 <= i < s.len() && (#[trigger] s[i]).pid == pid && s[i].kind == kind
}

proof fn lemma_has_track_join(a: Seq<TrackModel>, b: Seq<TrackModel>, pid: u16, kind: TrackKind)
    ensures
        has_track(a, pid, kind) || has_track(b, pid, kind) ==> has_track(a + b, pid, kind),
{
    if has_track(a, pid, kind) {
        let i = choose|i: int|
            0 <= i < a.len() && (#[trigger] a[i]).pid == pid && a[i].kind == kind;
        assert((a + b)[i] == a[i]);
    } else if has_track(b, pid, kind) {
        let i = choose|i: int|
            0 <= i < b.len() && (#[trigger] b[i]).pid == pid && b[i].kind == kind;
        assert((a + b)[i + a.len()] == b[i]);
    }
}

proof fn lemma_entry_listed(items: Seq<PlayItemModel>, kind: TrackKind, k: int, pid: u16)
    requires
        0 <= k < items.len(),
        lists_pid(class_entries(items[k].stn_table, kind), pid),
    ensures
        lists_pid(all_entries(items, kind), pid),
    decreases items.len(),
{
    let before = all_entries(items.drop_last(), kind);
    let table = class_entries(items.last().stn_table, kind);
    if k == items.len() - 1 {
        let i = choose|i: int| 0 <= i < table.len() && (#[trigger] table[i]).pid == pid;
        assert((before + table)[i + before.len()].pid == pid);
    } else {
        lemma_entry_listed(items.drop_last(), kind, k, pid);
        let i = choose|i: int| 0 <= i < before.len() && (#[trigger] before[i]).pid == pid;
        assert((before + table)[i].pid == pid);
    }
}

/// Every stream with a PID that a PlayItem lists has its track.
pub proof fn lemma_track_for_each_stream(
    items: Seq<PlayItemModel>,
    kind: TrackKind,
    k: int,
    pid: u16,
)
    requires
        0 <= k < items.len(),
        pid != 0,
        lists_pid(class_entries(items[k].stn_table, kind), pid),
    ensures
        has_track(tracks_of(items), pid, kind),
{
    lemma_entry_listed(items, kind, k, pid);
    let entries = all_entries(items, kind);
    let firsts = first_listed(entries);
    lemma_first_listed(entries);
    let e = choose|e: int| 0 <= e < entries.len() && (#[trigger] entries[e]).pid == pid;
    assert(lists_pid(firsts, entries[e].pid));
    let i = choose|i: int| 0 <= i < firsts.len() && (#[trigger] firsts[i]).pid == pid;
    assert(class_tracks(items, kind)[i].pid == pid);
    let s1 = class_tracks(items, TrackKind::PrimaryVideo);
    let c2 = class_tracks(items, TrackKind::PrimaryAudio);
    let c3 = class_tracks(items, TrackKind::PgSubtitle);
    let c4 = class_tracks(items, TrackKind::IgMenu);
    let c5 = class_tracks(items, TrackKind::SecondaryAudio);
    let c6 = class_tracks(items, TrackKind::SecondaryVideo);
    let c7 = class_tracks(items, TrackKind::PipPgSubtitle);
    lemma_has_track_join(s1, c2, pid, kind);
    lemma_has_track_join(s1 + c2, c3, pid, kind);
    lemma_has_track_join(s1 + c2 + c3, c4, pid, kind);
    lemma_has_track_join(s1 + c2 + c3 + c4, c5, pid, kind);
    lemma_has_track_join(s1 + c2 + c3 + c4 + c5, c6, pid, kind);
    lemma_has_track_join(s1 + c2 + c3 + c4 + c5 + c6, c7, pid, kind);
}

// ---------------------------------------------------------------------
// The languages of a title
// ---------------------------------------------------------------------

/// The language codes of a table: audio, subtitles, menus.
pub open spec fn language_codes(t: StnTableModel) -> Seq<[u8; 3]> {
    Seq::new(t.primary_audio.len(), |i: int| t.primary_audio[i].language_code) + Seq::new(
        t.pg_subtitles.len(),
        |i: int| t.pg_subtitles[i].language_code,
    ) + Seq::new(t.ig_streams.len(), |i: int| t.ig_streams[i].language_code) + Seq::new(
        t.secondary_audio.len(),
        |i: int| t.secondary_audio[i].language_code,
    ) + Seq::new(t.pip_pg.len(), |i: int| t.pip_pg[i].language_code)
}

/// Whether a code among some holds a language.
pub open spec fn codes_hold(codes: Seq<[u8; 3]>, lang: Seq<char>) -> bool {
    exists|i: int| 0 <= i < codes.len() && language_of(#[trigger] codes[i]) == Some(lang)
}

/// Whether the table of an item has a language.
pub open spec fn items_hold(items: Seq<PlayItemModel>, lang: Seq<char>) -> bool {
    exists|k: int|
        0 <= k < items.len() && codes_hold(language_codes((#[trigger] items[k]).stn_table), lang)
}

/// Whether texts stand in ascending order, none twice.
pub open spec fn ascending(v: Seq<String>) -> bool {
    forall|i: int, j: int| 0 <= i < j < v.len() ==> text_before((#[trigger] v[i])@, (#[trigger] v[j])@)
}

/// Whether a text is among others.
pub open spec fn has_text(v: Seq<String>, t: Seq<char>) -> bool {
    exists|i: int| 0 <= i < v.len() && (#[trigger] v[i])@ == t
}

/// Put a text into an ascending list, unless it is there.
fn insert_text(v: &mut Vec<String>, t: String)
    requires
        ascending(old(v)@),
    ensures
        ascending(final(v)@),
        forall|x: Seq<char>| has_text(final(v)@, x) <==> has_text(old(v)@, x) || x == t@,
{
    let chars = chars_of(t.as_str());
    let mut k: usize = 0;
    let total: usize = v.len();
    while k < total && comes_before(&chars_of(v[k].as_str()), &chars)
        invariant
            v@ == old(v)@,
            total == v@.len(),
            k <= total,
            chars@ == t@,
            ascending(v@),
            forall|i: int| 0 <= i < k ==> text_before((#[trigger] v@[i])@, t@),
        decreases total - k,
    {
        k += 1;
    }
    let ghost before = v@;
    let ghost text = t@;
    if k < total && !comes_before(&chars, &chars_of(v[k].as_str())) {
        proof {
            if before[k as int]@ != text {
                lemma_before_total(before[k as int]@, text);
            }
            assert(has_text(before, text));
        }
        return;
    }
    v.insert(k, t);
    proof {
        let now = v@;
        assert forall|i: int, j: int| 0 <= i < j < now.len() implies text_before(
            (#[trigger] now[i])@,
            (#[trigger] now[j])@,
        ) by {
            if j < k {
                assert(text_before(before[i]@, before[j]@));
            } else if j == k {
                assert(text_before(before[i]@, text));
            } else if i >= k {
                if i > k {
                    assert(text_before(before[i - 1]@, before[j - 1]@));
                } else {
                    lemma_between(text, before, k as int, j - 1);
                }
            } else {
                assert(text_before(before[i]@, before[j - 1]@));
            }
        }
        assert forall|x: Seq<char>| has_text(now, x) <==> has_text(before, x) || x == text by {
            if has_text(now, x) {
                let i = choose|i: int| 0 <= i < now.len() && (#[trigger] now[i])@ == x;
                if i < k {
                    assert(before[i]@ == x);
                } else if i > k {
                    assert(before[i - 1]@ == x);
                }
            }
            if has_text(before, x) {
                let i = choose|i: int| 0 <= i < before.len() && (#[trigger] before[i])@ == x;
                if i < k {
                    assert(now[i]@ == x);
                } else {
                    assert(now[i + 1]@ == x);
                }
            }
            assert(now[k as int]@ == text);
        }
    }
}

/// What comes before one of an ascending list comes before those behind it.
proof fn lemma_between(t: Seq<char>, v: Seq<String>, k: int, j: int)
    requires
        ascending(v),
        0 <= k <= j < v.len(),
        text_before(t, v[k]@),
    ensures
        text_before(t, v[j]@),
{
    if k < j {
        assert(text_before(v[k]@, v[j]@));
        lemma_before_asym(t, v[k]@);
        lemma_before_asym(v[k]@, v[j]@);
        lemma_before_trans(t, v[k]@, v[j]@);
        if t == v[j]@ {
            assert(text_before(v[k]@, t));
        }
        if !text_before(t, v[j]@) {
            lemma_before_total(t, v[j]@);
        }
    }
}

/// The language codes of a table.
fn list_codes(t: &StnTable) -> (r: Vec<[u8; 3]>)
    ensures
        r@ == language_codes(t@),
{
    let ghost a = Seq::new(t@.primary_audio.len(), |i: int| t@.primary_audio[i].language_code);
    let ghost b = Seq::new(t@.pg_subtitles.len(), |i: int| t@.pg_subtitles[i].language_code);
    let ghost c = Seq::new(t@.ig_streams.len(), |i: int| t@.ig_streams[i].language_code);
    let ghost d = Seq::new(t@.secondary_audio.len(), |i: int| t@.secondary_audio[i].language_code);
    let ghost e = Seq::new(t@.pip_pg.len(), |i: int| t@.pip_pg[i].language_code);
    let mut r: Vec<[u8; 3]> = Vec::new();
    let mut i: usize = 0;
    while i < t.primary_audio.len()
        invariant
            i <= t.primary_audio@.len(),
            a == Seq::new(t@.primary_audio.len(), |i: int| t@.primary_audio[i].language_code),
            r@ =~= a.take(i as int),
        decreases t.primary_audio@.len() - i,
    {
        r.push(t.primary_audio[i].language_code);
        i += 1;
    }
    i = 0;
    assert(a.take(a.len() as int) =~= a);
    while i < t.pg_subtitles.len()
        invariant
            i <= t.pg_subtitles@.len(),
            b == Seq::new(t@.pg_subtitles.len(), |i: int| t@.pg_subtitles[i].language_code),
            r@ =~= a + b.take(i as int),
        decreases t.pg_subtitles@.len() - i,
    {
        r.push(t.pg_subtitles[i].language_code);
        i += 1;
    }
    i = 0;
    assert(b.take(b.len() as int) =~= b);
    while i < t.ig_streams.len()
        invariant
            i <= t.ig_streams@.len(),
            c == Seq::new(t@.ig_streams.len(), |i: int| t@.ig_streams[i].language_code),
            r@ =~= a + b + c.take(i as int),
        decreases t.ig_streams@.len() - i,
    {
        r.push(t.ig_streams[i].language_code);
        i += 1;
    }
    i = 0;
    assert(c.take(c.len() as int) =~= c);
    while i < t.secondary_audio.len()
        invariant
            i <= t.secondary_audio@.len(),
            d == Seq::new(t@.secondary_audio.len(), |i: int| t@.secondary_audio[i].language_code),
            r@ =~= a + b + c + d.take(i as int),
        decreases t.secondary_audio@.len() - i,
    {
        r.push(t.secondary_audio[i].language_code);
        i += 1;
    }
    i = 0;
    assert(d.take(d.len() as int) =~= d);
    while i < t.pip_pg.len()
        invariant
            i <= t.pip_pg@.len(),
            e == Seq::new(t@.pip_pg.len(), |i: int| t@.pip_pg[i].language_code),
            r@ =~= a + b + c + d + e.take(i as int),
        decreases t.pip_pg@.len() - i,
    {
        r.push(t.pip_pg[i].language_code);
        i += 1;
    }
    assert(e.take(e.len() as int) =~= e);
    r
}

/// Put the languages that codes hold into an ascending list.
fn insert_codes(v: &mut Vec<String>, codes: &Vec<[u8; 3]>)
    requires
        ascending(old(v)@),
    ensures
        ascending(final(v)@),
        forall|x: Seq<char>|
            has_text(final(v)@, x) <==> has_text(old(v)@, x) || codes_hold(codes@, x),
{
    let mut i: usize = 0;
    while i < codes.len()
        invariant
            i <= codes@.len(),
            ascending(v@),
            forall|x: Seq<char>|
                has_text(v@, x) <==> has_text(old(v)@, x) || codes_hold(codes@.take(i as int), x),
        decreases codes@.len() - i,
    {
        let ghost earlier = codes@.take(i as int);
        let ghost now = codes@.take(i + 1);
        proof {
            assert forall|x: Seq<char>|
                codes_hold(now, x) <==> codes_hold(earlier, x) || language_of(codes@[i as int])
                    == Some(x) by {
                if codes_hold(now, x) {
                    let k = choose|k: int|
                        0 <= k < now.len() && language_of(#[trigger] now[k]) == Some(x);
                    if k < i {
                        assert(language_of(earlier[k]) == Some(x));
                    }
                }
                if codes_hold(earlier, x) {
                    let k = choose|k: int|
                        0 <= k < earlier.len() && language_of(#[trigger] earlier[k]) == Some(x);
                    assert(language_of(now[k]) == Some(x));
                }
                assert(now[i as int] == codes@[i as int]);
            }
        }
        match decode_lang_code(codes[i]) {
            Some(lang) => {
                insert_text(v, lang);
            },
            None => {},
        }
        i += 1;
    }
    assert(codes@.take(i as int) =~= codes@);
}

/// The languages of a title, in ascending order, none twice.
pub fn collect_languages(pl: &PlayListMpls) -> (r: Vec<String>)
    ensures
        ascending(r@),
        forall|x: Seq<char>| has_text(r@, x) <==> items_hold(pl@.play_items, x),
{
    let items = &pl.play_list.play_items;
    let ghost models = item_models(items@);
    let mut r: Vec<String> = Vec::new();
    let mut i: usize = 0;
    while i < items.len()
        invariant
            i <= items@.len(),
            models == item_models(items@),
            ascending(r@),
            forall|x: Seq<char>| has_text(r@, x) <==> items_hold(models.take(i as int), x),
        decreases items@.len() - i,
    {
        let ghost earlier = models.take(i as int);
        let ghost now = models.take(i + 1);
        let ghost table = items@[i as int].stn_table@;
        let codes = list_codes(&items[i].stn_table);
        proof {
            assert forall|x: Seq<char>|
                items_hold(now, x) <==> items_hold(earlier, x) || codes_hold(
                    language_codes(table),
                    x,
                ) by {
                if items_hold(now, x) {
                    let k = choose|k: int|
                        0 <= k < now.len() && codes_hold(
                            language_codes((#[trigger] now[k]).stn_table),
                            x,
                        );
                    if k < i {
                        assert(codes_hold(language_codes(earlier[k].stn_table), x));
                    }
                }
                if items_hold(earlier, x) {
                    let k = choose|k: int|
                        0 <= k < earlier.len() && codes_hold(
                            language_codes((#[trigger] earlier[k]).stn_table),
                            x,
                        );
                    assert(codes_hold(language_codes(now[k].stn_table), x));
                }
                assert(now[i as int].stn_table == table);
            }
        }
        insert_codes(&mut r, &codes);
        i += 1;
    }
    assert(models.take(i as int) =~= models);
    r
}

/// A model holds what the fields hold.
pub proof fn lemma_models_hold_fields(track: Track)
    ensures
        track@.pid == track.pid,
        track@.kind == track.kind,
        track@.coding_type == track.coding_type,
        track.language is None <==> track@.language is None,
        track.language matches Some(x) ==> track@.language == Some(x@),
        track@.playitem_count == track.playitem_count,
{
}

/// Models stand in the order of what they model.
pub proof fn lemma_models_in_order(tracks: Seq<Track>, streams: Seq<ListedStream>, i: int)
    ensures
        track_models(tracks).len() == tracks.len(),
        0 <= i < tracks.len() ==> track_models(tracks)[i] == tracks[i]@,
        listed_models(streams).len() == streams.len(),
        0 <= i < streams.len() ==> listed_models(streams)[i] == streams[i]@,
{
}

} // verus!
