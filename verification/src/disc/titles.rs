//! The titles of a disc.
//!
//! Reading files is left to the caller: what stands in a file comes in as
//! bytes, `None` where the file could not be read.
use vstd::prelude::*;
use vstd::string::*;

use crate::bdmv::chapters::{items_fit, lemma_read_items_fit, total_ticks};
use crate::bdmv::common::{be16, be32, lemma_list_at_len};
use crate::bdmv::index_bdmv::{
    index_of, index_refusal, object_reader, IndexBdmv, IndexEntry, IndexObjectType, ObjectModel,
};
use crate::bdmv::movie_object::{
    movie_object_models, movie_objects_of, MovieObject, MovieObjectModel, MovieObjects, NavCommand,
};
use crate::bdmv::mpls::{PlayListModel, PlayListMpls};
use crate::bdmv::mpls_read::playlist_of;
use crate::bdmv::nav_command::{decoded, DecodedCommand, Operand, Operation};
use crate::disc::tracks::{ascending, collect_languages, has_text, items_hold};
use crate::error::BlurayError;
use crate::text::{dec_text, padded, push_dec_padded};

verus! {

/// What a title runs.
#[derive(Debug, Clone, Copy, PartialEq, Eq, Structural)]
pub enum TitleKind {
    Hdmv,
    BdJ,
}

/// One title of a disc.
#[derive(Debug, Clone)]
pub struct TitleInfo {
    /// Counted from 1.
    pub id: u16,
    pub kind: TitleKind,
    /// The playlist that the title plays first: the one that the first PlayPL
    /// command of its movie object names. Where there is no such command, and
    /// for BD-J, it is playlist 0.
    pub playlist_id: u16,
    /// In 90 kHz ticks; 0 where there is no valid playlist.
    pub duration_ticks: u64,
    /// The language tags of audio, subtitles and menus, in ascending order, none
    /// twice.
    pub languages: Vec<String>,
}

/// A disc: where it is mounted, and its titles.
#[derive(Debug, Clone)]
pub struct Disc {
    pub root: String,
    pub titles: Vec<TitleInfo>,
}

/// The playlist number of titles that play nothing.
pub const PLACEHOLDER_PLAYLIST: u16 = 0x4000;

// ---------------------------------------------------------------------
// Files
// ---------------------------------------------------------------------

/// The bytes of a file that may not have been read.
pub open spec fn option_slice(p: Option<&[u8]>) -> Option<Seq<u8>> {
    match p {
        Some(s) => Some(s@),
        None => None,
    }
}

/// The playlist in a file, where there is a valid one.
pub open spec fn playlist_in(file: Option<Seq<u8>>) -> Option<PlayListModel> {
    match file {
        Some(s) => playlist_of(s),
        None => None,
    }
}

/// The name of a playlist's file: its number in five digits.
pub open spec fn playlist_name(id: u16) -> Seq<char> {
    padded(dec_text(id as nat), 5, '0') + ".mpls"@
}

/// The name of a playlist's file in `BDMV/PLAYLIST/`.
pub fn playlist_file_name(id: u16) -> (r: String)
    ensures
        r@ == playlist_name(id),
{
    let mut s = String::new();
    push_dec_padded(&mut s, id as u64, 5, '0');
    s.append(".mpls");
    assert(s@ =~= playlist_name(id));
    s
}

/// Read the playlist in a file.
pub fn read_playlist(file: Option<&[u8]>) -> (r: Option<PlayListMpls>)
    ensures
        match r {
            Some(pl) => playlist_in(option_slice(file)) == Some(pl@) && items_fit(pl@.play_items)
                && pl@.marks.len() <= 0xFFFF,
            None => playlist_in(option_slice(file)) is None,
        },
{
    match file {
        Some(bytes) => match PlayListMpls::parse(bytes) {
            Ok(pl) => {
                proof {
                    lemma_read_items_fit(bytes@);
                }
                Some(pl)
            },
            Err(_) => None,
        },
        None => None,
    }
}

// ---------------------------------------------------------------------
// Mounting
// ---------------------------------------------------------------------

/// The playlist that a command plays, if it is a PlayPL command whose operand
/// is the number of a playlist and not a register.
pub open spec fn played_by(c: NavCommand) -> Option<u16> {
    let d = decoded(c.bytes@);
    match d.operand1 {
        Some(Operand::Immediate(n)) if d.operation is PlayPL && n <= 0xFFFF => Some(n as u16),
        _ => None,
    }
}

/// The playlist that the first such command from `k` on plays, or 0 where
/// there is none.
pub open spec fn first_played(commands: Seq<NavCommand>, k: int) -> u16
    decreases commands.len() - k,
{
    if k >= commands.len() {
        0
    } else {
        match played_by(commands[k]) {
            Some(n) => n,
            None => first_played(commands, k + 1),
        }
    }
}

/// The playlist that movie object `id` plays first, or 0 where there is no
/// such object or it plays none.
pub open spec fn first_playlist(objects: Seq<MovieObjectModel>, id: u16) -> u16 {
    if id < objects.len() {
        first_played(objects[id as int].commands, 0)
    } else {
        0
    }
}

/// The movie objects in a file, none where it is missing or not valid.
pub open spec fn objects_in(file: Option<Seq<u8>>) -> Seq<MovieObjectModel> {
    match file {
        Some(s) => match movie_objects_of(s) {
            Some(m) => m.movie_objects,
            None => Seq::empty(),
        },
        None => Seq::empty(),
    }
}

/// The kind and the playlist of a title.
pub open spec fn title_target(object: ObjectModel, objects: Seq<MovieObjectModel>) -> (
    TitleKind,
    u16,
) {
    match object {
        ObjectModel::Hdmv { playback_type: _, movie_object_id_ref } => (
            TitleKind::Hdmv,
            first_playlist(objects, movie_object_id_ref),
        ),
        ObjectModel::BdJ { playback_type: _, bdjo_file_name: _ } => (TitleKind::BdJ, 0),
    }
}

fn find_playlist(commands: &Vec<NavCommand>) -> (r: u16)
    ensures
        r == first_played(commands@, 0),
{
    let mut k: usize = 0;
    while k < commands.len()
        invariant
            k <= commands@.len(),
            first_played(commands@, 0) == first_played(commands@, k as int),
        decreases commands@.len() - k,
    {
        let d = DecodedCommand::decode(&commands[k].bytes);
        if d.operation == Operation::PlayPL {
            if let Some(Operand::Immediate(n)) = d.operand1 {
                if n <= 0xFFFF {
                    return n as u16;
                }
            }
        }
        k += 1;
    }
    0
}

/// The movie objects in a file, none where it is missing or not valid.
pub fn read_movie_objects(file: Option<&[u8]>) -> (r: Vec<MovieObject>)
    ensures
        movie_object_models(r@) == objects_in(option_slice(file)),
{
    if let Some(bytes) = file {
        if let Ok(m) = MovieObjects::parse(bytes) {
            return m.movie_objects;
        }
    }
    let none: Vec<MovieObject> = Vec::new();
    assert(movie_object_models(none@) =~= Seq::empty());
    none
}

/// The kind and the playlist of a title.
pub fn resolve_title_playlist(entry: &IndexEntry, objects: &Vec<MovieObject>) -> (r: (
    TitleKind,
    u16,
))
    ensures
        r == title_target(entry@, movie_object_models(objects@)),
{
    match &entry.object {
        IndexObjectType::Hdmv { playback_type: _, movie_object_id_ref } => {
            let id: usize = *movie_object_id_ref as usize;
            let playlist: u16 = if id < objects.len() {
                find_playlist(&objects[id].commands)
            } else {
                0
            };
            (TitleKind::Hdmv, playlist)
        },
        IndexObjectType::BdJ { playback_type: _, bdjo_file_name: _ } => (TitleKind::BdJ, 0),
    }
}

/// Whether `t` is the title with the 0-based number `k` that runs `object`,
/// one of BD-J or of the movie objects `objects`, and whose playlist's file is
/// `file`.
pub open spec fn is_title(
    t: TitleInfo,
    k: int,
    object: ObjectModel,
    objects: Seq<MovieObjectModel>,
    file: Option<Seq<u8>>,
) -> bool {
    &&& t.id == k + 1
    &&& (t.kind, t.playlist_id) == title_target(object, objects)
    &&& match playlist_in(file) {
        Some(m) => {
            &&& t.duration_ticks == total_ticks(m.play_items)
            &&& ascending(t.languages@)
            &&& forall|x: Seq<char>| has_text(t.languages@, x) <==> items_hold(m.play_items, x)
        },
        None => t.duration_ticks == 0 && t.languages@.len() == 0,
    }
}

/// The `k`-th of some files, not there where they are fewer.
pub open spec fn file_of(files: Seq<Option<Vec<u8>>>, k: int) -> Option<Seq<u8>> {
    if 0 <= k < files.len() {
        match files[k] {
            Some(v) => Some(v@),
            None => None,
        }
    } else {
        None
    }
}

/// The playlists of the titles, in order: the files to read for
/// [`Disc::mount`].
pub fn title_playlists(index_bytes: &[u8], movie_objects: Option<&[u8]>) -> (r: Result<
    Vec<u16>,
    BlurayError,
>)
    ensures
        match r {
            Ok(ids) => index_of(index_bytes@) matches Some(ix) && ids@.len() == ix.titles.len()
                && forall|k: int|
                0 <= k < ids@.len() ==> #[trigger] ids@[k] == title_target(
                    ix.titles[k],
                    objects_in(option_slice(movie_objects)),
                ).1,
            Err(e) => index_of(index_bytes@) is None && e.is_malformed(index_refusal(index_bytes@)),
        },
{
    let index = IndexBdmv::parse(index_bytes)?;
    let objects = read_movie_objects(movie_objects);
    let ghost ix = index@;
    let ghost models = movie_object_models(objects@);
    let mut ids: Vec<u16> = Vec::new();
    let mut i: usize = 0;
    while i < index.titles.len()
        invariant
            i <= index.titles@.len(),
            ix == index@,
            models == movie_object_models(objects@),
            ids@.len() == i,
            forall|k: int|
                0 <= k < i ==> #[trigger] ids@[k] == title_target(ix.titles[k], models).1,
        decreases index.titles@.len() - i,
    {
        let (_, id) = resolve_title_playlist(&index.titles[i], &objects);
        assert(ix.titles[i as int] == index.titles@[i as int]@);
        ids.push(id);
        i += 1;
    }
    Ok(ids)
}

proof fn lemma_title_count(s: Seq<u8>)
    ensures
        index_of(s) matches Some(ix) ==> ix.titles.len() <= 0xFFFF,
{
    let p = be32(s, 8) as int;
    lemma_list_at_len(object_reader(s), p + 30, be16(s, p + 28) as nat);
}

/// What the playlist of a title says: its length and its languages.
fn describe(file: Option<&[u8]>) -> (r: (u64, Vec<String>))
    ensures
        match playlist_in(option_slice(file)) {
            Some(m) => {
                &&& r.0 == total_ticks(m.play_items)
                &&& ascending(r.1@)
                &&& forall|x: Seq<char>| has_text(r.1@, x) <==> items_hold(m.play_items, x)
            },
            None => r.0 == 0 && r.1@.len() == 0,
        },
{
    match read_playlist(file) {
        Some(pl) => {
            let duration: u64 = pl.duration_90k();
            let languages = collect_languages(&pl);
            (duration, languages)
        },
        None => (0, Vec::new()),
    }
}

/// What is said where there is no disc.
pub open spec fn no_bdmv_text(root: Seq<char>) -> Seq<char> {
    "no BDMV/ subdirectory at "@ + root
}

impl Disc {
    /// Mount the disc at `root`: `has_bdmv` tells whether there is a `BDMV`
    /// directory, `index_bytes` is the content of its `index.bdmv`,
    /// `movie_objects` that of its `MovieObject.bdmv`, and `playlists` holds for
    /// each title the content of its playlist's file. A title whose playlist is
    /// missing or not valid is kept, with no length.
    pub fn mount(
        root: &str,
        has_bdmv: bool,
        index_bytes: &[u8],
        movie_objects: Option<&[u8]>,
        playlists: &Vec<Option<Vec<u8>>>,
    ) -> (r: Result<Self, BlurayError>)
        ensures
            match r {
                Ok(d) => {
                    &&& has_bdmv
                    &&& d.root@ == root@
                    &&& index_of(index_bytes@) matches Some(ix)
                    &&& d.titles@.len() == ix.titles.len()
                    &&& forall|k: int|
                        0 <= k < d.titles@.len() ==> is_title(
                            #[trigger] d.titles@[k],
                            k,
                            ix.titles[k],
                            objects_in(option_slice(movie_objects)),
                            file_of(playlists@, k),
                        )
                },
                Err(e) => if !has_bdmv {
                    e is NotBluray && e->NotBluray_0@ == no_bdmv_text(root@)
                } else {
                    index_of(index_bytes@) is None && e.is_malformed(index_refusal(index_bytes@))
                },
            },
    {
        if !has_bdmv {
            let mut msg = String::new();
            msg.append("no BDMV/ subdirectory at ");
            msg.append(root);
            assert(msg@ =~= no_bdmv_text(root@));
            return Err(BlurayError::NotBluray(msg));
        }
        let index = IndexBdmv::parse(index_bytes)?;
        let objects = read_movie_objects(movie_objects);
        let ghost ix = index@;
        let ghost models = movie_object_models(objects@);
        proof {
            lemma_title_count(index_bytes@);
            assert(ix.titles.len() == index.titles@.len());
        }
        let mut titles: Vec<TitleInfo> = Vec::new();
        let mut i: usize = 0;
        while i < index.titles.len()
            invariant
                i <= index.titles@.len() <= 0xFFFF,
                ix == index@,
                models == movie_object_models(objects@),
                titles@.len() == i,
                forall|k: int|
                    0 <= k < i ==> is_title(
                        #[trigger] titles@[k],
                        k,
                        ix.titles[k],
                        models,
                        file_of(playlists@, k),
                    ),
            decreases index.titles@.len() - i,
        {
            let (kind, playlist_id) = resolve_title_playlist(&index.titles[i], &objects);
            let file: Option<&[u8]> = if i < playlists.len() {
                match &playlists[i] {
                    Some(v) => Some(v.as_slice()),
                    None => None,
                }
            } else {
                None
            };
            let (duration_ticks, languages) = describe(file);
            let t = TitleInfo { id: (i + 1) as u16, kind, playlist_id, duration_ticks, languages };
            proof {
                assert(ix.titles[i as int] == index.titles@[i as int]@);
                assert(option_slice(file) == file_of(playlists@, i as int));
                assert(is_title(
                    t,
                    i as int,
                    ix.titles[i as int],
                    models,
                    file_of(playlists@, i as int),
                ));
            }
            titles.push(t);
            i += 1;
        }
        Ok(Disc { root: root.to_owned(), titles })
    }

    /// Where the disc is mounted.
    pub fn root(&self) -> (r: &str)
        ensures
            r@ == self.root@,
    {
        self.root.as_str()
    }

    /// The titles, in order.
    pub fn titles(&self) -> (r: &[TitleInfo])
        ensures
            r@ == self.titles@,
    {
        self.titles.as_slice()
    }
}

// ---------------------------------------------------------------------
// Choosing titles
// ---------------------------------------------------------------------

/// Whether the `k`-th title is the longest that is no BD-J title, the last
/// one where several are equally long.
pub open spec fn is_longest(titles: Seq<TitleInfo>, k: int) -> bool {
    &&& 0 <= k < titles.len()
    &&& titles[k].kind is Hdmv
    &&& forall|j: int|
        0 <= j < titles.len() && (#[trigger] titles[j]).kind is Hdmv ==> titles[j].duration_ticks
            <= titles[k].duration_ticks && (j > k ==> titles[j].duration_ticks
            < titles[k].duration_ticks)
}

/// Whether a title before the `k`-th has the same playlist.
pub open spec fn seen_before(titles: Seq<TitleInfo>, k: int) -> bool {
    exists|j: int| 0 <= j < k && (#[trigger] titles[j]).playlist_id == titles[k].playlist_id
}

/// The titles among the first `n` that play something and are the first to
/// play it.
pub open spec fn unique_among(titles: Seq<TitleInfo>, n: int) -> Seq<TitleInfo>
    decreases n,
{
    if n <= 0 {
        Seq::empty()
    } else if titles[n - 1].playlist_id == PLACEHOLDER_PLAYLIST || seen_before(titles, n - 1) {
        unique_among(titles, n - 1)
    } else {
        unique_among(titles, n - 1).push(titles[n - 1])
    }
}

/// The values that references point at.
pub open spec fn pointed(v: Seq<&TitleInfo>) -> Seq<TitleInfo> {
    Seq::new(v.len(), |i: int| *v[i])
}

impl Disc {
    /// The longest title that is no BD-J title.
    pub fn longest_title(&self) -> (r: Option<&TitleInfo>)
        ensures
            match r {
                Some(t) => exists|k: int| #[trigger]
                    is_longest(self.titles@, k) && *t == self.titles@[k],
                None => forall|j: int|
                    0 <= j < self.titles@.len() ==> (#[trigger] self.titles@[j]).kind is BdJ,
            },
    {
        let mut best: Option<usize> = None;
        let mut i: usize = 0;
        while i < self.titles.len()
            invariant
                i <= self.titles@.len(),
                match best {
                    Some(k) => k < i && is_longest(self.titles@.take(i as int), k as int),
                    None => forall|j: int|
                        0 <= j < i ==> (#[trigger] self.titles@[j]).kind is BdJ,
                },
            decreases self.titles@.len() - i,
        {
            let t = &self.titles[i];
            let ghost before = self.titles@.take(i as int);
            let ghost now = self.titles@.take(i + 1);
            if t.kind == TitleKind::Hdmv {
                match best {
                    Some(k) => {
                        proof {
                            assert forall|j: int|
                                0 <= j < now.len() && (#[trigger] now[j]).kind is Hdmv implies (j < i
                                ==> now[j].duration_ticks <= now[k as int].duration_ticks && (j > k
                                ==> now[j].duration_ticks < now[k as int].duration_ticks)) by {
                                if j < i {
                                    assert(before[j] == now[j]);
                                    assert(before[k as int] == now[k as int]);
                                }
                            }
                        }
                        if t.duration_ticks >= self.titles[k].duration_ticks {
                            best = Some(i);
                        }
                    },
                    None => {
                        best = Some(i);
                    },
                }
            } else {
                proof {
                    if let Some(k) = best {
                        assert forall|j: int|
                            0 <= j < now.len() && (
                            #[trigger] now[j]).kind is Hdmv implies now[j].duration_ticks
                            <= now[k as int].duration_ticks && (j > k ==> now[j].duration_ticks
                            < now[k as int].duration_ticks) by {
                            assert(before[j] == now[j]);
                            assert(before[k as int] == now[k as int]);
                        }
                    }
                }
            }
            i += 1;
        }
        assert(self.titles@.take(i as int) =~= self.titles@);
        match best {
            Some(k) => Some(&self.titles[k]),
            None => None,
        }
    }

    /// The titles that play something, each playlist once: that of the title
    /// with the lowest number.
    pub fn unique_titles(&self) -> (r: Vec<&TitleInfo>)
        ensures
            pointed(r@) == unique_among(self.titles@, self.titles@.len() as int),
    {
        let mut r: Vec<&TitleInfo> = Vec::new();
        let mut i: usize = 0;
        assert(pointed(r@) =~= Seq::empty());
        while i < self.titles.len()
            invariant
                i <= self.titles@.len(),
                pointed(r@) == unique_among(self.titles@, i as int),
            decreases self.titles@.len() - i,
        {
            let t = &self.titles[i];
            if t.playlist_id != PLACEHOLDER_PLAYLIST && !self.playlist_before(i) {
                let ghost before = pointed(r@);
                r.push(t);
                assert(pointed(r@) =~= before.push(*t));
            }
            i += 1;
        }
        r
    }

    /// Whether a title before the `k`-th has the same playlist.
    fn playlist_before(&self, k: usize) -> (r: bool)
        requires
            k < self.titles@.len(),
        ensures
            r == seen_before(self.titles@, k as int),
    {
        let mut j: usize = 0;
        while j < k
            invariant
                j <= k < self.titles@.len(),
                forall|x: int|
                    0 <= x < j ==> (#[trigger] self.titles@[x]).playlist_id
                        != self.titles@[k as int].playlist_id,
            decreases k - j,
        {
            if self.titles[j].playlist_id == self.titles[k].playlist_id {
                return true;
            }
            j += 1;
        }
        false
    }
}

/// Whether a list has a title with a playlist.
pub open spec fn has_playlist(s: Seq<TitleInfo>, id: u16) -> bool {
    exists|i: int| 0 <= i < s.len() && (#[trigger] s[i]).playlist_id == id
}

/// The unique titles of a disc play different playlists, none of them the
/// placeholder, and every other playlist of the disc is among them.
pub proof fn lemma_unique_titles(titles: Seq<TitleInfo>, n: int)
    requires
        0 <= n <= titles.len(),
    ensures
        ({
            let u = unique_among(titles, n);
            &&& forall|i: int, j: int|
                0 <= i < j < u.len() ==> (#[trigger] u[i]).playlist_id != (
                #[trigger] u[j]).playlist_id
            &&& forall|i: int|
                0 <= i < u.len() ==> (#[trigger] u[i]).playlist_id != PLACEHOLDER_PLAYLIST
                    && has_playlist(titles.take(n), u[i].playlist_id)
            &&& forall|k: int|
                0 <= k < n && (#[trigger] titles[k]).playlist_id != PLACEHOLDER_PLAYLIST
                    ==> has_playlist(u, titles[k].playlist_id)
        }),
    decreases n,
{
    if n > 0 {
        lemma_unique_titles(titles, n - 1);
        let before = unique_among(titles, n - 1);
        let u = unique_among(titles, n);
        let head = titles.take(n - 1);
        let now = titles.take(n);
        let last = titles[n - 1];
        assert forall|id: u16| has_playlist(head, id) implies has_playlist(now, id) by {
            let i = choose|i: int| 0 <= i < head.len() && (#[trigger] head[i]).playlist_id == id;
            assert(now[i].playlist_id == id);
        }
        assert(now[n - 1] == last);
        assert forall|id: u16| has_playlist(before, id) implies has_playlist(u, id) by {
            let i = choose|i: int| 0 <= i < before.len() && (#[trigger] before[i]).playlist_id == id;
            assert(u[i].playlist_id == id);
        }
        if u.len() > before.len() {
            assert(u[before.len() as int] == last);
            assert forall|i: int, j: int| 0 <= i < j < u.len() implies (
            #[trigger] u[i]).playlist_id != (#[trigger] u[j]).playlist_id by {
                assert(u[i] == before[i]);
                if j == before.len() {
                    if before[i].playlist_id == last.playlist_id {
                        assert(has_playlist(head, before[i].playlist_id));
                        let x = choose|x: int|
                            0 <= x < head.len() && (#[trigger] head[x]).playlist_id
                                == before[i].playlist_id;
                        assert(titles[x].playlist_id == titles[n - 1].playlist_id);
                        assert(seen_before(titles, n - 1));
                    }
                } else {
                    assert(u[j] == before[j]);
                }
            }
            assert forall|i: int| 0 <= i < u.len() implies (#[trigger] u[i]).playlist_id
                != PLACEHOLDER_PLAYLIST && has_playlist(now, u[i].playlist_id) by {
                if i < before.len() {
                    assert(u[i] == before[i]);
                }
            }
        }
        assert forall|k: int|
            0 <= k < n && (#[trigger] titles[k]).playlist_id
                != PLACEHOLDER_PLAYLIST implies has_playlist(u, titles[k].playlist_id) by {
            if k == n - 1 && u.len() == before.len() {
                assert(seen_before(titles, n - 1));
                let j = choose|j: int|
                    0 <= j < n - 1 && (#[trigger] titles[j]).playlist_id == titles[n
                        - 1].playlist_id;
                assert(has_playlist(before, titles[j].playlist_id));
            }
        }
    }
}

/// A title plays what the first PlayPL command that names a playlist says: no
/// command before it names one.
pub proof fn lemma_first_played(commands: Seq<NavCommand>, k: int)
    requires
        0 <= k < commands.len(),
        played_by(commands[k]) is Some,
        forall|j: int| 0 <= j < k ==> played_by(#[trigger] commands[j]) is None,
    ensures
        first_played(commands, 0) == played_by(commands[k])->0,
{
    lemma_first_played_from(commands, 0, k);
}

proof fn lemma_first_played_from(commands: Seq<NavCommand>, from: int, k: int)
    requires
        0 <= from <= k < commands.len(),
        played_by(commands[k]) is Some,
        forall|j: int| 0 <= j < k ==> played_by(#[trigger] commands[j]) is None,
    ensures
        first_played(commands, from) == played_by(commands[k])->0,
    decreases k - from,
{
    if from < k {
        assert(played_by(commands[from]) is None);
        lemma_first_played_from(commands, from + 1, k);
    }
}

/// A disc without movie objects, or with a file of them that is broken, has
/// none.
pub proof fn lemma_objects_read(s: Seq<u8>)
    ensures
        objects_in(None).len() == 0,
        movie_objects_of(s) is None ==> objects_in(Some(s)).len() == 0,
        movie_objects_of(s) matches Some(m) ==> objects_in(Some(s)) == m.movie_objects,
{
}

} // verus!
