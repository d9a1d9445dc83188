//! `index.bdmv`: the title catalogue.
//!
//! Binary outline (big-endian throughout):
//!
//! ```text
//!   0  type_indicator         "INDX"
//!   4  version_number         "0200"
//!   8  indexes_start_address  u32
//!  12  extension_data_start   u32
//!  16  24 reserved bytes
//!  40  AppInfoBDMV()
//!  ... Indexes()
//! ```
//!
//! `Indexes()` is a length, the First-Playback object, the menu object, the
//! number of titles (16 bits) and that many title objects, 12 bytes each.
use vstd::prelude::*;
use vstd::string::*;
use vstd::utf8::{decode_utf8, encode_utf8, valid_utf8};

use crate::bdmv::common::{
    array4_at, bad_type, be16, be32, enc16, enc32, enc8, enc_array4, enc_list, group_has_at, has_at,
    lemma_empty_add, lemma_enc_list_len, lemma_enc_list_push, lemma_has_at_self,
    lemma_has_at_subrange, lemma_list_refusal, lemma_list_round_trip, list_at, list_refusal,
    low_u16, low_u32, past_end_text, put_array4, put_bytes, put_u16, put_u32, put_u8, put_zeros,
    type_text, utf8_text, zeros, BdmvHeader, Reader,
};
use crate::error::BlurayError;
use crate::text::{dec_text, push_dec};

verus! {

/// Attributes of the whole disc.
#[derive(Debug, Clone, Copy, PartialEq, Eq, Structural)]
pub struct AppInfoBdmv {
    /// One bit.
    pub initial_output_mode_preference: u8,
    /// One bit.
    pub content_exist_flag: u8,
    /// Four bits.
    pub video_format: u8,
    /// Four bits.
    pub frame_rate: u8,
}

/// What a title runs: a movie object, or a BD-J application.
#[derive(Debug, Clone, PartialEq, Eq)]
pub enum IndexObjectType {
    Hdmv { playback_type: u8, movie_object_id_ref: u16 },
    BdJ {
        playback_type: u8,
        /// Five-character stem, such as `"00000"`.
        bdjo_file_name: String,
    },
}

/// One entry of the catalogue.
#[derive(Debug, Clone, PartialEq, Eq)]
pub struct IndexEntry {
    pub object: IndexObjectType,
}

/// A whole `index.bdmv` file. Title 1 is `titles[0]`.
#[derive(Debug, Clone)]
pub struct IndexBdmv {
    pub version: [u8; 4],
    pub app_info: AppInfoBdmv,
    pub first_playback_title: IndexEntry,
    pub menu_title: IndexEntry,
    pub titles: Vec<IndexEntry>,
}

/// A way into the disc's navigation.
#[derive(Debug, Clone, Copy, PartialEq, Eq, Structural)]
pub enum TitleEntry {
    /// What runs when the disc is inserted.
    FirstPlayback,
    /// The top menu.
    TopMenu,
    /// A numbered title, counted from 1.
    Title { number: u16 },
}

/// Model of [`IndexObjectType`].
pub enum ObjectModel {
    Hdmv { playback_type: u8, movie_object_id_ref: u16 },
    BdJ { playback_type: u8, bdjo_file_name: Seq<char> },
}

impl View for IndexEntry {
    type V = ObjectModel;

    open spec fn view(&self) -> ObjectModel {
        match self.object {
            IndexObjectType::Hdmv { playback_type, movie_object_id_ref } => ObjectModel::Hdmv {
                playback_type,
                movie_object_id_ref,
            },
            IndexObjectType::BdJ { playback_type, bdjo_file_name } => ObjectModel::BdJ {
                playback_type,
                bdjo_file_name: bdjo_file_name@,
            },
        }
    }
}

pub open spec fn entry_models(v: Seq<IndexEntry>) -> Seq<ObjectModel> {
    Seq::new(v.len(), |i: int| v[i]@)
}

/// Model of [`IndexBdmv`].
#[verifier::ext_equal]
pub struct IndexModel {
    pub version: [u8; 4],
    pub app_info: AppInfoBdmv,
    pub first_playback_title: ObjectModel,
    pub menu_title: ObjectModel,
    pub titles: Seq<ObjectModel>,
}

impl View for IndexBdmv {
    type V = IndexModel;

    open spec fn view(&self) -> IndexModel {
        IndexModel {
            version: self.version,
            app_info: self.app_info,
            first_playback_title: self.first_playback_title@,
            menu_title: self.menu_title@,
            titles: entry_models(self.titles@),
        }
    }
}

impl IndexModel {
    /// The object that an entry runs, or `None` where there is no such title.
    pub open spec fn object_of(self, entry: TitleEntry) -> Option<ObjectModel> {
        match entry {
            TitleEntry::FirstPlayback => Some(self.first_playback_title),
            TitleEntry::TopMenu => Some(self.menu_title),
            TitleEntry::Title { number } => if 1 <= number <= self.titles.len() {
                Some(self.titles[number - 1])
            } else {
                None
            },
        }
    }

    /// The movie object that an entry runs; BD-J titles have none.
    pub open spec fn movie_object_of(self, entry: TitleEntry) -> Option<u16> {
        match self.object_of(entry) {
            Some(ObjectModel::Hdmv { playback_type: _, movie_object_id_ref }) => Some(
                movie_object_id_ref,
            ),
            _ => None,
        }
    }
}

// ---------------------------------------------------------------------
// What stands at an offset
// ---------------------------------------------------------------------

/// The object at `p`: the type in two bits, the playback type in two bits,
/// then a movie object number or a file name.
pub open spec fn object_at(s: Seq<u8>, p: int) -> Option<(ObjectModel, int)> {
    if p + 12 > s.len() {
        None
    } else if s[p] / 64 == 1 {
        Some(
            (
                ObjectModel::Hdmv {
                    playback_type: (be16(s, p + 2) / 16384) as u8,
                    movie_object_id_ref: be16(s, p + 4),
                },
                p + 12,
            ),
        )
    } else if s[p] / 64 == 2 && valid_utf8(s.subrange(p + 4, p + 9)) {
        Some(
            (
                ObjectModel::BdJ {
                    playback_type: (be16(s, p + 2) / 16384) as u8,
                    bdjo_file_name: decode_utf8(s.subrange(p + 4, p + 9)),
                },
                p + 12,
            ),
        )
    } else {
        None
    }
}

pub open spec fn object_reader(s: Seq<u8>) -> spec_fn(int) -> Option<(ObjectModel, int)> {
    |p: int| object_at(s, p)
}

/// The AppInfoBDMV block, which stands at a fixed place.
pub open spec fn app_info_of(s: Seq<u8>) -> Option<AppInfoBdmv> {
    if s.len() < 46 || be32(s, 40) < 2 || 44 + be32(s, 40) > s.len() {
        None
    } else {
        Some(
            AppInfoBdmv {
                initial_output_mode_preference: (s[44] / 8) % 2,
                content_exist_flag: (s[44] / 4) % 2,
                video_format: s[45] / 16,
                frame_rate: s[45] % 16,
            },
        )
    }
}

/// The Indexes block at `p`: the First-Playback object, the menu object, the
/// titles.
pub open spec fn indexes_at(s: Seq<u8>, p: int) -> Option<
    (ObjectModel, ObjectModel, Seq<ObjectModel>),
> {
    if p + 30 > s.len() || p + 4 + be32(s, p) > s.len() {
        None
    } else {
        match object_at(s, p + 4) {
            None => None,
            Some((first, _)) => match object_at(s, p + 16) {
                None => None,
                Some((menu, _)) => match list_at(
                    object_reader(s),
                    p + 30,
                    be16(s, p + 28) as nat,
                ) {
                    None => None,
                    Some((titles, _)) => Some((first, menu, titles)),
                },
            },
        }
    }
}

/// The catalogue that the bytes of a file spell, or `None` where they follow
/// no valid layout.
pub open spec fn index_of(s: Seq<u8>) -> Option<IndexModel> {
    if s.len() < 40 || array4_at(s, 0) != [0x49u8, 0x4E, 0x44, 0x58] {
        None
    } else {
        match app_info_of(s) {
            None => None,
            Some(app_info) => match indexes_at(s, be32(s, 8) as int) {
                None => None,
                Some((first, menu, titles)) => Some(
                    IndexModel {
                        version: array4_at(s, 4),
                        app_info,
                        first_playback_title: first,
                        menu_title: menu,
                        titles,
                    },
                ),
            },
        }
    }
}

// ---------------------------------------------------------------------
// What is said of bytes that spell nothing
// ---------------------------------------------------------------------

pub open spec fn object_refusal(s: Seq<u8>, p: int) -> Seq<char> {
    if p + 12 > s.len() {
        "slice past end"@
    } else if s[p] / 64 == 2 {
        "BD-J bdjo_file_name not ASCII"@
    } else {
        "unknown object_type "@ + dec_text((s[p] / 64) as nat) + " in index.bdmv"@
    }
}

pub open spec fn object_refusals(s: Seq<u8>) -> spec_fn(int) -> Seq<char> {
    |p: int| object_refusal(s, p)
}

pub open spec fn indexes_refusal(s: Seq<u8>, p: int) -> Seq<char> {
    if p > s.len() {
        past_end_text(p as nat, s.len())
    } else if p + 4 > s.len() {
        "slice past end"@
    } else if p + 4 + be32(s, p) > s.len() {
        "Indexes overruns buffer"@
    } else if object_at(s, p + 4) is None {
        object_refusal(s, p + 4)
    } else if object_at(s, p + 16) is None {
        object_refusal(s, p + 16)
    } else if p + 30 > s.len() {
        "slice past end"@
    } else {
        list_refusal(object_reader(s), object_refusals(s), p + 30, be16(s, p + 28) as nat)
    }
}

pub open spec fn index_refusal(s: Seq<u8>) -> Seq<char> {
    if s.len() < 8 {
        "BDMV header truncated"@
    } else if array4_at(s, 0) != [0x49u8, 0x4E, 0x44, 0x58] {
        type_text("index.bdmv"@, array4_at(s, 0))
    } else if s.len() < 40 {
        "index.bdmv truncated before AppInfo"@
    } else if s.len() < 44 {
        "slice past end"@
    } else if be32(s, 40) < 2 {
        "AppInfoBDMV length < 2"@
    } else if s.len() < 46 {
        "slice past end"@
    } else if 44 + be32(s, 40) > s.len() {
        past_end_text((44 + be32(s, 40)) as nat, s.len())
    } else {
        indexes_refusal(s, be32(s, 8) as int)
    }
}

// ---------------------------------------------------------------------
// Reading
// ---------------------------------------------------------------------

fn parse_object(r: &mut Reader<'_>) -> (x: Result<IndexEntry, BlurayError>)
    ensures
        final(r).buf@ == old(r).buf@,
        match x {
            Ok(v) => object_at(old(r).buf@, old(r).pos as int) == Some((v@, final(r).pos as int)),
            Err(e) => object_at(old(r).buf@, old(r).pos as int) is None && e.is_malformed(
                object_refusal(old(r).buf@, old(r).pos as int),
            ),
        },
{
    let b0: u8 = r.read_u8()?;
    let _reserved: u8 = r.read_u8()?;
    let pb_bits: u16 = r.read_u16()?;
    let playback_type: u8 = (pb_bits / 16384) as u8;
    let start: usize = r.pos;
    let rest = r.slice(8)?;
    let end: usize = r.pos;
    if b0 / 64 == 1 {
        r.seek(start)?;
        let movie_object_id_ref: u16 = r.read_u16()?;
        r.seek(end)?;
        Ok(IndexEntry { object: IndexObjectType::Hdmv { playback_type, movie_object_id_ref } })
    } else if b0 / 64 == 2 {
        let bytes = vstd::slice::slice_subrange(rest, 0, 5);
        assert(bytes@ =~= r.buf@.subrange(start as int, start + 5));
        match utf8_text(bytes) {
            Some(bdjo_file_name) => Ok(
                IndexEntry { object: IndexObjectType::BdJ { playback_type, bdjo_file_name } },
            ),
            None => Err(BlurayError::malformed("BD-J bdjo_file_name not ASCII")),
        }
    } else {
        let mut text = "unknown object_type ".to_owned();
        push_dec(&mut text, (b0 / 64) as u128);
        text.append(" in index.bdmv");
        Err(BlurayError::Malformed(text))
    }
}

#[verifier::loop_isolation(false)]
fn parse_indexes(r: &mut Reader<'_>, start: usize) -> (x: Result<
    (IndexEntry, IndexEntry, Vec<IndexEntry>),
    BlurayError,
>)
    ensures
        final(r).buf@ == old(r).buf@,
        match x {
            Ok(v) => indexes_at(old(r).buf@, start as int) == Some(
                (v.0@, v.1@, entry_models(v.2@)),
            ),
            Err(e) => indexes_at(old(r).buf@, start as int) is None && e.is_malformed(
                indexes_refusal(old(r).buf@, start as int),
            ),
        },
{
    proof {
        reveal(list_at);
    }
    r.seek(start)?;
    let idx_len: usize = r.read_u32()? as usize;
    if !r.fits(idx_len) {
        return Err(BlurayError::malformed("Indexes overruns buffer"));
    }
    let first = parse_object(r)?;
    let menu = parse_object(r)?;
    let n: u16 = r.read_u16()?;
    let ghost item = object_reader(r.buf@);
    let ghost p0 = r.pos as int;
    let mut titles: Vec<IndexEntry> = Vec::new();
    assert(entry_models(titles@) =~= Seq::empty());
    let mut i: u16 = 0;
    while i < n
        invariant
            i <= n,
            r.buf@ == old(r).buf@,
            list_at(item, p0, i as nat) == Some((entry_models(titles@), r.pos as int)),
        decreases n - i,
    {
        let ghost before = entry_models(titles@);
        match parse_object(r) {
            Ok(v) => {
                titles.push(v);
                assert(entry_models(titles@) =~= before.push(v@));
            },
            Err(e) => {
                proof {
                    lemma_list_refusal(
                        item,
                        object_refusals(r.buf@),
                        p0,
                        (i + 1) as nat,
                        n as nat,
                    );
                }
                return Err(e);
            },
        }
        i += 1;
    }
    Ok((first, menu, titles))
}

impl IndexBdmv {
    /// Read a whole `index.bdmv` file.
    pub fn parse(buf: &[u8]) -> (x: Result<Self, BlurayError>)
        ensures
            match x {
                Ok(v) => index_of(buf@) == Some(v@),
                Err(e) => index_of(buf@) is None && e.is_malformed(index_refusal(buf@)),
            },
    {
        let header = BdmvHeader::parse(buf)?;
        let t = header.type_indicator;
        let known = t[0] == 0x49 && t[1] == 0x4E && t[2] == 0x44 && t[3] == 0x58;
        proof {
            let indx = [0x49u8, 0x4E, 0x44, 0x58];
            if known {
                assert(*t =~= indx);
            }
            assert(known == (*t == indx));
        }
        if !known {
            return Err(bad_type("index.bdmv", t));
        }
        let version = *header.version_number;
        if buf.len() < 40 {
            return Err(BlurayError::malformed("index.bdmv truncated before AppInfo"));
        }
        let mut r = Reader::new(buf);
        r.seek(8)?;
        let indexes_start: usize = r.read_u32()? as usize;
        r.seek(40)?;
        let app_len: usize = r.read_u32()? as usize;
        if app_len < 2 {
            return Err(BlurayError::malformed("AppInfoBDMV length < 2"));
        }
        let app_start: usize = r.pos;
        let b0: u8 = r.read_u8()?;
        let b1: u8 = r.read_u8()?;
        let app_info = AppInfoBdmv {
            initial_output_mode_preference: (b0 / 8) % 2,
            content_exist_flag: (b0 / 4) % 2,
            video_format: b1 / 16,
            frame_rate: b1 % 16,
        };
        r.seek_from(app_start, app_len)?;
        let (first_playback_title, menu_title, titles) = parse_indexes(&mut r, indexes_start)?;
        Ok(IndexBdmv { version, app_info, first_playback_title, menu_title, titles })
    }

    /// The movie object that `entry` runs, or `None` where the index names no
    /// such title or the title is a BD-J application.
    pub fn resolve_movie_object(&self, entry: TitleEntry) -> (r: Option<u16>)
        ensures
            r == self@.movie_object_of(entry),
    {
        let e = match entry {
            TitleEntry::FirstPlayback => &self.first_playback_title,
            TitleEntry::TopMenu => &self.menu_title,
            TitleEntry::Title { number } => {
                let n: usize = number as usize;
                if n == 0 || n > self.titles.len() {
                    return None;
                }
                assert(self@.titles[n - 1] == self.titles@[n - 1]@);
                &self.titles[n - 1]
            },
        };
        match &e.object {
            IndexObjectType::Hdmv { playback_type: _, movie_object_id_ref } => Some(
                *movie_object_id_ref,
            ),
            IndexObjectType::BdJ { playback_type: _, bdjo_file_name: _ } => None,
        }
    }
}

// ---------------------------------------------------------------------
// Writing
// ---------------------------------------------------------------------

/// A file name in five bytes: cut off after five, filled up with zeros.
pub open spec fn enc_bdjo_name(name: Seq<char>) -> Seq<u8> {
    let bytes = encode_utf8(name);
    Seq::new(
        5,
        |i: int|
            if i < bytes.len() {
                bytes[i]
            } else {
                0
            },
    )
}

#[verifier::opaque]
pub open spec fn enc_object(o: ObjectModel) -> Seq<u8> {
    match o {
        ObjectModel::Hdmv { playback_type, movie_object_id_ref } => enc8(0x40) + enc8(0) + enc16(
            ((playback_type % 4) * 16384) as u16,
        ) + enc16(movie_object_id_ref) + zeros(6),
        ObjectModel::BdJ { playback_type, bdjo_file_name } => enc8(0x80) + enc8(0) + enc16(
            ((playback_type % 4) * 16384) as u16,
        ) + enc_bdjo_name(bdjo_file_name) + zeros(3),
    }
}

pub open spec fn object_enc() -> spec_fn(ObjectModel) -> Seq<u8> {
    |o: ObjectModel| enc_object(o)
}

#[verifier::opaque]
pub open spec fn enc_app_info(x: AppInfoBdmv) -> Seq<u8> {
    enc32(34) + enc8(
        ((x.initial_output_mode_preference % 2) * 8 + (x.content_exist_flag % 2) * 4) as u8,
    ) + enc8(((x.video_format % 16) * 16 + x.frame_rate % 16) as u8) + zeros(32)
}

pub open spec fn enc_indexes(
    first: ObjectModel,
    menu: ObjectModel,
    titles: Seq<ObjectModel>,
) -> Seq<u8> {
    let body = enc_object(first) + enc_object(menu) + enc16((titles.len() % 0x1_0000) as u16)
        + enc_list(object_enc(), titles);
    enc32((body.len() % 0x1_0000_0000) as u32) + body
}

/// A whole file: the fixed part, then the Indexes block.
pub open spec fn enc_index(m: IndexModel) -> Seq<u8> {
    enc_array4([0x49u8, 0x4E, 0x44, 0x58]) + enc_array4(m.version) + enc32(78) + zeros(28)
        + enc_app_info(m.app_info) + enc_indexes(m.first_playback_title, m.menu_title, m.titles)
}

fn encode_bdjo_name(name: &String) -> (out: Vec<u8>)
    ensures
        out@ == enc_bdjo_name(name@),
{
    let bytes = name.as_str().as_bytes();
    let mut out: Vec<u8> = Vec::new();
    let mut i: usize = 0;
    while i < 5
        invariant
            i <= 5,
            bytes@ == encode_utf8(name@),
            out@.len() == i,
            forall|k: int| 0 <= k < i ==> out@[k] == #[trigger] enc_bdjo_name(name@)[k],
        decreases 5 - i,
    {
        if i < bytes.len() {
            out.push(bytes[i]);
        } else {
            out.push(0);
        }
        i += 1;
    }
    assert(out@ =~= enc_bdjo_name(name@));
    out
}

fn encode_object(e: &IndexEntry) -> (out: Vec<u8>)
    ensures
        out@ == enc_object(e@),
{
    broadcast use lemma_empty_add;

    proof {
        reveal(enc_object);
    }
    let mut out: Vec<u8> = Vec::new();
    match &e.object {
        IndexObjectType::Hdmv { playback_type, movie_object_id_ref } => {
            put_u8(&mut out, 0x40);
            put_u8(&mut out, 0);
            put_u16(&mut out, (*playback_type % 4) as u16 * 16384);
            put_u16(&mut out, *movie_object_id_ref);
            put_zeros(&mut out, 6);
        },
        IndexObjectType::BdJ { playback_type, bdjo_file_name } => {
            put_u8(&mut out, 0x80);
            put_u8(&mut out, 0);
            put_u16(&mut out, (*playback_type % 4) as u16 * 16384);
            put_bytes(&mut out, &encode_bdjo_name(bdjo_file_name));
            put_zeros(&mut out, 3);
        },
    }
    out
}

impl IndexBdmv {
    /// Write a whole `index.bdmv` file.
    pub fn encode(&self) -> (out: Vec<u8>)
        ensures
            out@ == enc_index(self@),
    {
        broadcast use lemma_empty_add;

        proof {
            reveal(enc_list);
            reveal(enc_app_info);
        }
        let ghost models = entry_models(self.titles@);
        let mut list: Vec<u8> = Vec::new();
        let mut i: usize = 0;
        while i < self.titles.len()
            invariant
                i <= self.titles@.len(),
                models == entry_models(self.titles@),
                list@ == enc_list(object_enc(), models.take(i as int)),
            decreases self.titles@.len() - i,
        {
            let bytes = encode_object(&self.titles[i]);
            put_bytes(&mut list, &bytes);
            proof {
                lemma_enc_list_push(object_enc(), models, i as int);
            }
            i += 1;
        }
        assert(models.take(i as int) =~= models);
        let mut body = encode_object(&self.first_playback_title);
        put_bytes(&mut body, &encode_object(&self.menu_title));
        put_u16(&mut body, low_u16(self.titles.len()));
        put_bytes(&mut body, &list);
        let mut indexes: Vec<u8> = Vec::new();
        put_u32(&mut indexes, low_u32(body.len()));
        put_bytes(&mut indexes, &body);
        let mut app: Vec<u8> = Vec::new();
        put_u32(&mut app, 34);
        put_u8(
            &mut app,
            (self.app_info.initial_output_mode_preference % 2) * 8 + (
            self.app_info.content_exist_flag % 2) * 4,
        );
        put_u8(
            &mut app,
            (self.app_info.video_format % 16) * 16 + self.app_info.frame_rate % 16,
        );
        put_zeros(&mut app, 32);
        let mut out: Vec<u8> = Vec::new();
        put_array4(&mut out, &[0x49, 0x4E, 0x44, 0x58]);
        put_array4(&mut out, &self.version);
        put_u32(&mut out, 78);
        put_zeros(&mut out, 28);
        put_bytes(&mut out, &app);
        put_bytes(&mut out, &indexes);
        out
    }
}

// ---------------------------------------------------------------------
// Reading gives back what was written
// ---------------------------------------------------------------------

/// An object that the format can hold: a two-bit playback type, a name of
/// five bytes.
pub open spec fn valid_object(o: ObjectModel) -> bool {
    match o {
        ObjectModel::Hdmv { playback_type, movie_object_id_ref: _ } => playback_type < 4,
        ObjectModel::BdJ { playback_type, bdjo_file_name } => playback_type < 4 && encode_utf8(
            bdjo_file_name,
        ).len() == 5,
    }
}

/// A catalogue that the format can hold.
pub open spec fn valid_index(m: IndexModel) -> bool {
    &&& m.app_info.initial_output_mode_preference < 2
    &&& m.app_info.content_exist_flag < 2
    &&& m.app_info.video_format < 16
    &&& m.app_info.frame_rate < 16
    &&& valid_object(m.first_playback_title)
    &&& valid_object(m.menu_title)
    &&& m.titles.len() < 0x1_0000
    &&& forall|i: int| 0 <= i < m.titles.len() ==> valid_object(#[trigger] m.titles[i])
}

proof fn lemma_object_len(o: ObjectModel)
    ensures
        enc_object(o).len() == 12,
{
    broadcast use group_has_at;

    reveal(enc_object);
}

proof fn lemma_object_round_trip(s: Seq<u8>, p: int, o: ObjectModel)
    requires
        has_at(s, p, enc_object(o)),
        valid_object(o),
    ensures
        object_at(s, p) == Some((o, p + 12)),
        enc_object(o).len() == 12,
{
    broadcast use group_has_at;

    reveal(enc_object);
    match o {
        ObjectModel::Hdmv { playback_type: _, movie_object_id_ref: _ } => {},
        ObjectModel::BdJ { playback_type: _, bdjo_file_name } => {
            lemma_has_at_subrange(s, p + 4, enc_bdjo_name(bdjo_file_name));
            assert(enc_bdjo_name(bdjo_file_name) =~= encode_utf8(bdjo_file_name));
            vstd::utf8::encode_utf8_valid_utf8(bdjo_file_name);
            vstd::utf8::encode_utf8_decode_utf8(bdjo_file_name);
        },
    }
}

proof fn lemma_object_list(s: Seq<u8>, p: int, xs: Seq<ObjectModel>)
    requires
        has_at(s, p, enc_list(object_enc(), xs)),
        forall|i: int| 0 <= i < xs.len() ==> valid_object(#[trigger] xs[i]),
    ensures
        list_at(object_reader(s), p, xs.len()) == Some((xs, p + 12 * xs.len())),
        enc_list(object_enc(), xs).len() == 12 * xs.len(),
{
    assert forall|i: int, q: int|
        0 <= i < xs.len() && #[trigger] has_at(s, q, object_enc()(xs[i])) implies object_reader(s)(
        q,
    ) == Some((xs[i], q + object_enc()(xs[i]).len())) by {
        lemma_object_round_trip(s, q, xs[i]);
    }
    assert forall|i: int| 0 <= i < xs.len() implies (#[trigger] object_enc()(xs[i])).len()
        == 12 by {
        lemma_object_len(xs[i]);
    }
    lemma_enc_list_len(object_enc(), xs, 12);
    lemma_list_round_trip(s, object_reader(s), object_enc(), p, xs);
}

/// Where the parts of a file stand.
proof fn lemma_index_layout(
    s: Seq<u8>,
    version: [u8; 4],
    app: Seq<u8>,
    len: u32,
    first: Seq<u8>,
    menu: Seq<u8>,
    n: u16,
    titles: Seq<u8>,
)
    requires
        app.len() == 38,
        first.len() == 12,
        menu.len() == 12,
        s == enc_array4([0x49u8, 0x4E, 0x44, 0x58]) + enc_array4(version) + enc32(78) + zeros(28)
            + app + (enc32(len) + (first + menu + enc16(n) + titles)),
    ensures
        array4_at(s, 0) == [0x49u8, 0x4E, 0x44, 0x58],
        array4_at(s, 4) == version,
        be32(s, 8) == 78,
        has_at(s, 40, app),
        be32(s, 78) == len,
        has_at(s, 82, first),
        has_at(s, 94, menu),
        be16(s, 106) == n,
        has_at(s, 108, titles),
        s.len() == 108 + titles.len(),
        (first + menu + enc16(n) + titles).len() == 26 + titles.len(),
{
    broadcast use group_has_at;

    lemma_has_at_self(s);
}

proof fn lemma_app_info_round_trip(s: Seq<u8>, x: AppInfoBdmv)
    requires
        has_at(s, 40, enc_app_info(x)),
        x.initial_output_mode_preference < 2,
        x.content_exist_flag < 2,
        x.video_format < 16,
        x.frame_rate < 16,
    ensures
        app_info_of(s) == Some(x),
{
    broadcast use group_has_at;

    reveal(enc_app_info);
}

/// Reading a written `index.bdmv` file gives back what was written.
pub proof fn lemma_index_round_trip(m: IndexModel)
    requires
        valid_index(m),
    ensures
        index_of(enc_index(m)) == Some(m),
{
    let s = enc_index(m);
    let app = enc_app_info(m.app_info);
    let first = enc_object(m.first_playback_title);
    let menu = enc_object(m.menu_title);
    let titles = enc_list(object_enc(), m.titles);
    let n = m.titles.len() as u16;
    lemma_object_len(m.first_playback_title);
    lemma_object_len(m.menu_title);
    assert(app.len() == 38) by {
        broadcast use group_has_at;

        reveal(enc_app_info);
    }
    let len = ((first + menu + enc16(n) + titles).len() % 0x1_0000_0000) as u32;
    lemma_index_layout(s, m.version, app, len, first, menu, n, titles);
    lemma_app_info_round_trip(s, m.app_info);
    lemma_object_round_trip(s, 82, m.first_playback_title);
    lemma_object_round_trip(s, 94, m.menu_title);
    lemma_object_list(s, 108, m.titles);
}

/// A model holds what the fields hold.
pub proof fn lemma_models_hold_fields(index_bdmv: IndexBdmv, i: int)
    ensures
        index_bdmv@.version == index_bdmv.version,
        index_bdmv@.app_info == index_bdmv.app_info,
        index_bdmv@.first_playback_title == index_bdmv.first_playback_title@,
        index_bdmv@.menu_title == index_bdmv.menu_title@,
        index_bdmv@.titles.len() == index_bdmv.titles@.len(),
        0 <= i < index_bdmv.titles@.len() ==> index_bdmv@.titles[i] == index_bdmv.titles@[i]@,
{
}

/// The model of an entry holds what its object does.
pub proof fn lemma_entry_holds_object(x: IndexEntry)
    ensures
        x.object matches IndexObjectType::Hdmv { playback_type, movie_object_id_ref } ==> x@ == (
        ObjectModel::Hdmv { playback_type, movie_object_id_ref }),
        x.object matches IndexObjectType::BdJ { playback_type, bdjo_file_name } ==> x@ == (
        ObjectModel::BdJ { playback_type, bdjo_file_name: bdjo_file_name@ }),
{
}

} // verus!
