//! `MovieObject.bdmv`: the navigation scripts.
//!
//! Binary outline (big-endian throughout):
//!
//! ```text
//!   0  type_indicator        "MOBJ"
//!   4  version_number        "0200"
//!   8  extension_data_start  u32
//!  12  28 reserved bytes
//!  40  length                u32
//!  44  32 reserved bytes
//!  76  number of objects     u16
//!  78  the objects
//! ```
//!
//! An object is three flag bits (resume intention, menu call mask, title
//! search mask), 13 reserved bits, the number of commands (16 bits), and the
//! commands, 12 bytes each.
use vstd::prelude::*;
use vstd::string::*;

use crate::bdmv::common::{
    array4_at, bad_type, be16, be32, enc16, enc32, enc8, enc_array4, enc_list, group_has_at, has_at,
    lemma_empty_add, lemma_enc_list_push, lemma_has_at_self, lemma_list_at_none,
    lemma_list_round_trip, list_at, lossy_text, low_u16, low_u32, past_end_text, put_array4,
    put_bytes, put_u16, put_u32, put_u8, put_zeros, type_text, utf8_lossy, zeros, BdmvHeader,
    Reader,
};
use crate::bdmv::nav_command::{command_text, decoded};
use crate::error::BlurayError;
use crate::text::{dec_text, padded, push_dec, push_dec_padded};

verus! {

/// One navigation command, twelve bytes.
#[derive(Debug, Clone, Copy, PartialEq, Eq)]
pub struct NavCommand {
    pub bytes: [u8; 12],
}

/// A list of commands and three one-bit flags.
#[derive(Debug, Clone, PartialEq, Eq)]
pub struct MovieObject {
    pub resume_intention_flag: u8,
    pub menu_call_mask: u8,
    pub title_search_mask: u8,
    pub commands: Vec<NavCommand>,
}

/// A whole `MovieObject.bdmv` file.
#[derive(Debug, Clone)]
pub struct MovieObjects {
    pub version: [u8; 4],
    pub movie_objects: Vec<MovieObject>,
}

/// Model of [`MovieObject`].
#[verifier::ext_equal]
pub struct MovieObjectModel {
    pub resume_intention_flag: u8,
    pub menu_call_mask: u8,
    pub title_search_mask: u8,
    pub commands: Seq<NavCommand>,
}

impl View for MovieObject {
    type V = MovieObjectModel;

    open spec fn view(&self) -> MovieObjectModel {
        MovieObjectModel {
            resume_intention_flag: self.resume_intention_flag,
            menu_call_mask: self.menu_call_mask,
            title_search_mask: self.title_search_mask,
            commands: self.commands@,
        }
    }
}

pub open spec fn movie_object_models(v: Seq<MovieObject>) -> Seq<MovieObjectModel> {
    Seq::new(v.len(), |i: int| v[i]@)
}

/// Model of [`MovieObjects`].
#[verifier::ext_equal]
pub struct MovieObjectsModel {
    pub version: [u8; 4],
    pub movie_objects: Seq<MovieObjectModel>,
}

impl View for MovieObjects {
    type V = MovieObjectsModel;

    open spec fn view(&self) -> MovieObjectsModel {
        MovieObjectsModel {
            version: self.version,
            movie_objects: movie_object_models(self.movie_objects@),
        }
    }
}

// ---------------------------------------------------------------------
// What stands at an offset
// ---------------------------------------------------------------------

/// The twelve bytes at `p`.
#[verifier::opaque]
pub open spec fn array12_at(s: Seq<u8>, p: int) -> [u8; 12] {
    [
        s[p],
        s[p + 1],
        s[p + 2],
        s[p + 3],
        s[p + 4],
        s[p + 5],
        s[p + 6],
        s[p + 7],
        s[p + 8],
        s[p + 9],
        s[p + 10],
        s[p + 11],
    ]
}

pub open spec fn command_at(s: Seq<u8>, p: int) -> Option<(NavCommand, int)> {
    if p + 12 > s.len() {
        None
    } else {
        Some((NavCommand { bytes: array12_at(s, p) }, p + 12))
    }
}

pub open spec fn command_reader(s: Seq<u8>) -> spec_fn(int) -> Option<(NavCommand, int)> {
    |p: int| command_at(s, p)
}

pub open spec fn movie_object_at(s: Seq<u8>, p: int) -> Option<(MovieObjectModel, int)> {
    if p + 4 > s.len() {
        None
    } else {
        match list_at(command_reader(s), p + 4, be16(s, p + 2) as nat) {
            None => None,
            Some((commands, end)) => Some(
                (
                    MovieObjectModel {
                        resume_intention_flag: s[p] / 128,
                        menu_call_mask: (s[p] / 64) % 2,
                        title_search_mask: (s[p] / 32) % 2,
                        commands,
                    },
                    end,
                ),
            ),
        }
    }
}

pub open spec fn movie_object_reader(s: Seq<u8>) -> spec_fn(int) -> Option<
    (MovieObjectModel, int),
> {
    |p: int| movie_object_at(s, p)
}

/// The table that the bytes of a file spell, or `None` where they follow no
/// valid layout.
pub open spec fn movie_objects_of(s: Seq<u8>) -> Option<MovieObjectsModel> {
    if s.len() < 78 || array4_at(s, 0) != [0x4Du8, 0x4F, 0x42, 0x4A] || 44 + be32(s, 40)
        > s.len() {
        None
    } else {
        match list_at(movie_object_reader(s), 78, be16(s, 76) as nat) {
            None => None,
            Some((movie_objects, _)) => Some(
                MovieObjectsModel { version: array4_at(s, 4), movie_objects },
            ),
        }
    }
}

/// What is said of the bytes of a file that spell no table.
pub open spec fn movie_objects_refusal(s: Seq<u8>) -> Seq<char> {
    if s.len() < 8 {
        "BDMV header truncated"@
    } else if array4_at(s, 0) != [0x4Du8, 0x4F, 0x42, 0x4A] {
        type_text("MovieObject.bdmv"@, array4_at(s, 0))
    } else if s.len() < 40 {
        past_end_text(40, s.len())
    } else if s.len() < 44 {
        "slice past end"@
    } else if 44 + be32(s, 40) > s.len() {
        "MovieObjects body overruns buffer"@
    } else if s.len() < 76 {
        past_end_text(76, s.len())
    } else {
        "slice past end"@
    }
}

// ---------------------------------------------------------------------
// Reading
// ---------------------------------------------------------------------

fn parse_command(r: &mut Reader<'_>) -> (x: Result<NavCommand, BlurayError>)
    ensures
        final(r).buf@ == old(r).buf@,
        match x {
            Ok(v) => command_at(old(r).buf@, old(r).pos as int) == Some((v, final(r).pos as int)),
            Err(e) => command_at(old(r).buf@, old(r).pos as int) is None && e.is_malformed(
                "slice past end"@,
            ),
        },
{
    let s = r.slice(12)?;
    let bytes: [u8; 12] = [
        s[0],
        s[1],
        s[2],
        s[3],
        s[4],
        s[5],
        s[6],
        s[7],
        s[8],
        s[9],
        s[10],
        s[11],
    ];
    proof {
        reveal(array12_at);
        assert(bytes =~= array12_at(old(r).buf@, old(r).pos as int));
    }
    Ok(NavCommand { bytes })
}

#[verifier::loop_isolation(false)]
fn parse_movie_object(r: &mut Reader<'_>) -> (x: Result<MovieObject, BlurayError>)
    ensures
        final(r).buf@ == old(r).buf@,
        match x {
            Ok(v) => movie_object_at(old(r).buf@, old(r).pos as int) == Some(
                (v@, final(r).pos as int),
            ),
            Err(e) => movie_object_at(old(r).buf@, old(r).pos as int) is None && e.is_malformed(
                "slice past end"@,
            ),
        },
{
    proof {
        reveal(list_at);
    }
    let b0: u8 = r.read_u8()?;
    let _reserved: u8 = r.read_u8()?;
    let n: u16 = r.read_u16()?;
    let ghost item = command_reader(r.buf@);
    let ghost p0 = r.pos as int;
    let mut commands: Vec<NavCommand> = Vec::new();
    let mut i: u16 = 0;
    while i < n
        invariant
            i <= n,
            r.buf@ == old(r).buf@,
            list_at(item, p0, i as nat) == Some((commands@, r.pos as int)),
        decreases n - i,
    {
        match parse_command(r) {
            Ok(v) => {
                commands.push(v);
            },
            Err(e) => {
                proof {
                    lemma_list_at_none(item, p0, (i + 1) as nat, n as nat);
                }
                return Err(e);
            },
        }
        i += 1;
    }
    Ok(
        MovieObject {
            resume_intention_flag: b0 / 128,
            menu_call_mask: (b0 / 64) % 2,
            title_search_mask: (b0 / 32) % 2,
            commands,
        },
    )
}

impl MovieObjects {
    /// Read a whole `MovieObject.bdmv` file.
    #[verifier::loop_isolation(false)]
    pub fn parse(buf: &[u8]) -> (x: Result<Self, BlurayError>)
        ensures
            match x {
                Ok(v) => movie_objects_of(buf@) == Some(v@),
                Err(e) => movie_objects_of(buf@) is None && e.is_malformed(
                    movie_objects_refusal(buf@),
                ),
            },
    {
        proof {
            reveal(list_at);
        }
        let header = BdmvHeader::parse(buf)?;
        let t = header.type_indicator;
        let known = t[0] == 0x4D && t[1] == 0x4F && t[2] == 0x42 && t[3] == 0x4A;
        proof {
            let mobj = [0x4Du8, 0x4F, 0x42, 0x4A];
            if known {
                assert(*t =~= mobj);
            }
            assert(known == (*t == mobj));
        }
        if !known {
            return Err(bad_type("MovieObject.bdmv", t));
        }
        let version = *header.version_number;
        let mut r = Reader::new(buf);
        r.seek(40)?;
        let body_len: usize = r.read_u32()? as usize;
        if !r.fits(body_len) {
            return Err(BlurayError::malformed("MovieObjects body overruns buffer"));
        }
        r.skip(32)?;
        let n: u16 = r.read_u16()?;
        let ghost item = movie_object_reader(buf@);
        let mut movie_objects: Vec<MovieObject> = Vec::new();
        assert(movie_object_models(movie_objects@) =~= Seq::empty());
        let mut i: u16 = 0;
        while i < n
            invariant
                i <= n,
                r.buf@ == buf@,
                list_at(item, 78, i as nat) == Some(
                    (movie_object_models(movie_objects@), r.pos as int),
                ),
            decreases n - i,
        {
            let ghost before = movie_object_models(movie_objects@);
            match parse_movie_object(&mut r) {
                Ok(v) => {
                    movie_objects.push(v);
                    assert(movie_object_models(movie_objects@) =~= before.push(v@));
                },
                Err(e) => {
                    proof {
                        lemma_list_at_none(item, 78, (i + 1) as nat, n as nat);
                    }
                    return Err(e);
                },
            }
            i += 1;
        }
        Ok(MovieObjects { version, movie_objects })
    }
}

// ---------------------------------------------------------------------
// Writing
// ---------------------------------------------------------------------

#[verifier::opaque]
pub open spec fn enc_command(c: NavCommand) -> Seq<u8> {
    c.bytes@
}

pub open spec fn command_enc() -> spec_fn(NavCommand) -> Seq<u8> {
    |c: NavCommand| enc_command(c)
}

#[verifier::opaque]
pub open spec fn enc_movie_object(m: MovieObjectModel) -> Seq<u8> {
    enc8(
        ((m.resume_intention_flag % 2) * 128 + (m.menu_call_mask % 2) * 64 + (m.title_search_mask
            % 2) * 32) as u8,
    ) + enc8(0) + enc16((m.commands.len() % 0x1_0000) as u16) + enc_list(
        command_enc(),
        m.commands,
    )
}

pub open spec fn movie_object_enc() -> spec_fn(MovieObjectModel) -> Seq<u8> {
    |m: MovieObjectModel| enc_movie_object(m)
}

/// A whole file.
pub open spec fn enc_movie_objects(m: MovieObjectsModel) -> Seq<u8> {
    let body = zeros(32) + enc16((m.movie_objects.len() % 0x1_0000) as u16) + enc_list(
        movie_object_enc(),
        m.movie_objects,
    );
    enc_array4([0x4Du8, 0x4F, 0x42, 0x4A]) + enc_array4(m.version) + zeros(32) + enc32(
        (body.len() % 0x1_0000_0000) as u32,
    ) + body
}

fn put_command(out: &mut Vec<u8>, c: &NavCommand)
    ensures
        final(out)@ == old(out)@ + enc_command(*c),
{
    proof {
        reveal(enc_command);
    }
    let mut i: usize = 0;
    while i < 12
        invariant
            i <= 12,
            out@ == old(out)@ + c.bytes@.take(i as int),
        decreases 12 - i,
    {
        out.push(c.bytes[i]);
        i += 1;
        assert(out@ =~= old(out)@ + c.bytes@.take(i as int));
    }
    assert(c.bytes@.take(12) =~= c.bytes@);
}

fn encode_movie_object(m: &MovieObject) -> (out: Vec<u8>)
    ensures
        out@ == enc_movie_object(m@),
{
    broadcast use lemma_empty_add;

    proof {
        reveal(enc_movie_object);
        reveal(enc_list);
    }
    let mut list: Vec<u8> = Vec::new();
    let mut i: usize = 0;
    while i < m.commands.len()
        invariant
            i <= m.commands@.len(),
            list@ == enc_list(command_enc(), m.commands@.take(i as int)),
        decreases m.commands@.len() - i,
    {
        put_command(&mut list, &m.commands[i]);
        proof {
            lemma_enc_list_push(command_enc(), m.commands@, i as int);
        }
        i += 1;
    }
    assert(m.commands@.take(i as int) =~= m.commands@);
    let mut out: Vec<u8> = Vec::new();
    put_u8(
        &mut out,
        (m.resume_intention_flag % 2) * 128 + (m.menu_call_mask % 2) * 64 + (m.title_search_mask
            % 2) * 32,
    );
    put_u8(&mut out, 0);
    put_u16(&mut out, low_u16(m.commands.len()));
    put_bytes(&mut out, &list);
    out
}

impl MovieObjects {
    /// Write a whole `MovieObject.bdmv` file.
    pub fn encode(&self) -> (out: Vec<u8>)
        ensures
            out@ == enc_movie_objects(self@),
    {
        broadcast use lemma_empty_add;

        proof {
            reveal(enc_list);
        }
        let ghost models = movie_object_models(self.movie_objects@);
        let mut list: Vec<u8> = Vec::new();
        let mut i: usize = 0;
        while i < self.movie_objects.len()
            invariant
                i <= self.movie_objects@.len(),
                models == movie_object_models(self.movie_objects@),
                list@ == enc_list(movie_object_enc(), models.take(i as int)),
            decreases self.movie_objects@.len() - i,
        {
            let bytes = encode_movie_object(&self.movie_objects[i]);
            put_bytes(&mut list, &bytes);
            proof {
                lemma_enc_list_push(movie_object_enc(), models, i as int);
            }
            i += 1;
        }
        assert(models.take(i as int) =~= models);
        let mut body: Vec<u8> = Vec::new();
        put_zeros(&mut body, 32);
        put_u16(&mut body, low_u16(self.movie_objects.len()));
        put_bytes(&mut body, &list);
        let mut out: Vec<u8> = Vec::new();
        put_array4(&mut out, &[0x4D, 0x4F, 0x42, 0x4A]);
        put_array4(&mut out, &self.version);
        put_zeros(&mut out, 32);
        put_u32(&mut out, low_u32(body.len()));
        put_bytes(&mut out, &body);
        out
    }
}

// ---------------------------------------------------------------------
// Reading gives back what was written
// ---------------------------------------------------------------------

/// An object that the format can hold.
pub open spec fn valid_movie_object(m: MovieObjectModel) -> bool {
    &&& m.resume_intention_flag < 2
    &&& m.menu_call_mask < 2
    &&& m.title_search_mask < 2
    &&& m.commands.len() < 0x1_0000
}

/// A table that the format can hold: counts of 16 bits, and a body whose
/// length fits in 32.
pub open spec fn valid_movie_objects(m: MovieObjectsModel) -> bool {
    &&& m.movie_objects.len() < 0x1_0000
    &&& forall|i: int|
        0 <= i < m.movie_objects.len() ==> valid_movie_object(#[trigger] m.movie_objects[i])
}

proof fn lemma_command_round_trip(s: Seq<u8>, p: int, c: NavCommand)
    requires
        has_at(s, p, enc_command(c)),
    ensures
        command_at(s, p) == Some((c, p + 12)),
        enc_command(c).len() == 12,
{
    reveal(enc_command);
    reveal(array12_at);
    reveal(has_at);
    let t = c.bytes@;
    let u = s.subrange(p, p + 12);
    assert forall|i: int| 0 <= i < 12 implies #[trigger] t[i] == s[p + i] by {
        assert(u[i] == s[p + i]);
    }
    assert(array12_at(s, p) =~= c.bytes);
}

proof fn lemma_movie_object_round_trip(s: Seq<u8>, p: int, m: MovieObjectModel)
    requires
        has_at(s, p, enc_movie_object(m)),
        valid_movie_object(m),
    ensures
        movie_object_at(s, p) == Some((m, p + enc_movie_object(m).len())),
        enc_movie_object(m).len() >= 4,
{
    broadcast use group_has_at;

    reveal(enc_movie_object);
    let xs = m.commands;
    assert forall|i: int, q: int|
        0 <= i < xs.len() && #[trigger] has_at(s, q, command_enc()(xs[i])) implies command_reader(
        s,
    )(q) == Some((xs[i], q + command_enc()(xs[i]).len())) by {
        lemma_command_round_trip(s, q, xs[i]);
    }
    lemma_list_round_trip(s, command_reader(s), command_enc(), p + 4, xs);
}

/// Where the parts of a file stand.
proof fn lemma_table_layout(s: Seq<u8>, version: [u8; 4], len: u32, n: u16, list: Seq<u8>)
    requires
        s == enc_array4([0x4Du8, 0x4F, 0x42, 0x4A]) + enc_array4(version) + zeros(32) + enc32(len)
            + (zeros(32) + enc16(n) + list),
    ensures
        array4_at(s, 0) == [0x4Du8, 0x4F, 0x42, 0x4A],
        array4_at(s, 4) == version,
        be32(s, 40) == len,
        be16(s, 76) == n,
        has_at(s, 78, list),
        s.len() == 78 + list.len(),
        (zeros(32) + enc16(n) + list).len() == 34 + list.len(),
{
    broadcast use group_has_at;

    lemma_has_at_self(s);
}

/// Reading a written `MovieObject.bdmv` file gives back what was written.
pub proof fn lemma_movie_objects_round_trip(m: MovieObjectsModel)
    requires
        valid_movie_objects(m),
    ensures
        movie_objects_of(enc_movie_objects(m)) == Some(m),
{
    let s = enc_movie_objects(m);
    let xs = m.movie_objects;
    let list = enc_list(movie_object_enc(), xs);
    let n = xs.len() as u16;
    let len = ((zeros(32) + enc16(n) + list).len() % 0x1_0000_0000) as u32;
    lemma_table_layout(s, m.version, len, n, list);
    assert forall|i: int, q: int|
        0 <= i < xs.len() && #[trigger] has_at(
            s,
            q,
            movie_object_enc()(xs[i]),
        ) implies movie_object_reader(s)(q) == Some((xs[i], q + movie_object_enc()(xs[i]).len())) by {
        lemma_movie_object_round_trip(s, q, xs[i]);
    }
    lemma_list_round_trip(s, movie_object_reader(s), movie_object_enc(), 78, xs);
}

// ---------------------------------------------------------------------
// Listings
// ---------------------------------------------------------------------

/// The ending of a counted word.
pub open spec fn plural(n: nat) -> Seq<char> {
    if n == 1 {
        ""@
    } else {
        "s"@
    }
}

/// The first line of an object's listing.
pub open spec fn object_head(m: MovieObjectModel, index: nat) -> Seq<char> {
    "MovieObject["@ + dec_text(index) + "] (resume="@ + dec_text(m.resume_intention_flag as nat)
        + ", menu_mask="@ + dec_text(m.menu_call_mask as nat) + ", title_mask="@ + dec_text(
        m.title_search_mask as nat,
    ) + ", "@ + dec_text(m.commands.len()) + " cmd"@ + plural(m.commands.len()) + ")"@
}

/// The lines of the first `n` commands, each with its number in at least three
/// columns.
pub open spec fn command_lines(commands: Seq<NavCommand>, n: nat) -> Seq<char>
    decreases n,
{
    if n == 0 {
        Seq::empty()
    } else {
        command_lines(commands, (n - 1) as nat) + "\n  "@ + padded(
            dec_text((n - 1) as nat),
            3,
            ' ',
        ) + ": "@ + command_text(decoded(commands[n - 1].bytes@))
    }
}

/// The listing of an object.
pub open spec fn object_text(m: MovieObjectModel, index: nat) -> Seq<char> {
    object_head(m, index) + command_lines(m.commands, m.commands.len())
}

/// The listings of the first `n` objects, a blank line before each.
pub open spec fn object_texts(objects: Seq<MovieObjectModel>, n: nat) -> Seq<char>
    decreases n,
{
    if n == 0 {
        Seq::empty()
    } else {
        object_texts(objects, (n - 1) as nat) + "\n\n"@ + object_text(
            objects[n - 1],
            (n - 1) as nat,
        )
    }
}

/// The listing of a table.
pub open spec fn table_text(m: MovieObjectsModel) -> Seq<char> {
    "MovieObject.bdmv version="@ + utf8_lossy(m.version@) + " ("@ + dec_text(
        m.movie_objects.len(),
    ) + " object"@ + plural(m.movie_objects.len()) + ")"@ + object_texts(
        m.movie_objects,
        m.movie_objects.len(),
    )
}

fn plural_of(n: usize) -> (r: &'static str)
    ensures
        r@ == plural(n as nat),
{
    if n == 1 {
        ""
    } else {
        "s"
    }
}

impl NavCommand {
    /// This command on one line, such as `JumpTitle 0x1`.
    pub fn disassemble(&self) -> (r: String)
        ensures
            r@ == command_text(decoded(self.bytes@)),
    {
        self.decode().disassemble()
    }
}

impl MovieObject {
    /// The listing of this object, which is number `index` of its table: a
    /// line with the flags, then one line per command.
    pub fn disassemble(&self, index: usize) -> (r: String)
        ensures
            r@ == object_text(self@, index as nat),
    {
        let mut s = String::new();
        s.append("MovieObject[");
        push_dec(&mut s, index as u128);
        s.append("] (resume=");
        push_dec(&mut s, self.resume_intention_flag as u128);
        s.append(", menu_mask=");
        push_dec(&mut s, self.menu_call_mask as u128);
        s.append(", title_mask=");
        push_dec(&mut s, self.title_search_mask as u128);
        s.append(", ");
        push_dec(&mut s, self.commands.len() as u128);
        s.append(" cmd");
        s.append(plural_of(self.commands.len()));
        s.append(")");
        let ghost head = object_head(self@, index as nat);
        assert(s@ =~= head);
        let mut i: usize = 0;
        while i < self.commands.len()
            invariant
                i <= self.commands@.len(),
                s@ == head + command_lines(self.commands@, i as nat),
            decreases self.commands@.len() - i,
        {
            s.append("\n  ");
            push_dec_padded(&mut s, i as u64, 3, ' ');
            s.append(": ");
            s.append(self.commands[i].disassemble().as_str());
            i += 1;
            assert(s@ =~= head + command_lines(self.commands@, i as nat));
        }
        s
    }
}

impl MovieObjects {
    /// The listing of the table: a line with its version, then every object.
    pub fn disassemble(&self) -> (r: String)
        ensures
            r@ == table_text(self@),
    {
        let mut s = String::new();
        s.append("MovieObject.bdmv version=");
        let version = lossy_text(vstd::array::array_as_slice(&self.version));
        s.append(version.as_str());
        s.append(" (");
        push_dec(&mut s, self.movie_objects.len() as u128);
        s.append(" object");
        s.append(plural_of(self.movie_objects.len()));
        s.append(")");
        let ghost head = s@;
        let ghost models = movie_object_models(self.movie_objects@);
        let mut i: usize = 0;
        while i < self.movie_objects.len()
            invariant
                i <= self.movie_objects@.len(),
                models == movie_object_models(self.movie_objects@),
                s@ == head + object_texts(models, i as nat),
            decreases self.movie_objects@.len() - i,
        {
            s.append("\n\n");
            s.append(self.movie_objects[i].disassemble(i).as_str());
            i += 1;
            assert(s@ =~= head + object_texts(models, i as nat));
        }
        assert(s@ =~= table_text(self@));
        s
    }
}

/// A model holds what the fields hold.
pub proof fn lemma_models_hold_fields(
    movie_object: MovieObject,
    movie_objects: MovieObjects,
    i: int,
)
    ensures
        movie_object@.resume_intention_flag == movie_object.resume_intention_flag,
        movie_object@.menu_call_mask == movie_object.menu_call_mask,
        movie_object@.title_search_mask == movie_object.title_search_mask,
        movie_object@.commands == movie_object.commands@,
        movie_objects@.version == movie_objects.version,
        movie_objects@.movie_objects.len() == movie_objects.movie_objects@.len(),
        0 <= i < movie_objects.movie_objects@.len() ==> movie_objects@.movie_objects[i] == movie_objects.movie_objects@[i]@,
{
}

/// A listing begins with the number of the object, its three flags and the
/// number of its commands, which is a plural but for one; the listings of a
/// table follow one another.
pub proof fn lemma_listing(m: MovieObjectModel, index: nat, objects: Seq<MovieObjectModel>, i: int)
    requires
        0 <= i < objects.len(),
    ensures
        object_text(m, index) == object_head(m, index) + command_lines(
            m.commands,
            m.commands.len(),
        ),
        m.commands.len() == 1 ==> object_head(m, index) == "MovieObject["@ + dec_text(index)
            + "] (resume="@ + dec_text(m.resume_intention_flag as nat) + ", menu_mask="@ + dec_text(
            m.menu_call_mask as nat,
        ) + ", title_mask="@ + dec_text(m.title_search_mask as nat) + ", "@ + dec_text(1) + " cmd"@
            + ""@ + ")"@,
        m.commands.len() != 1 ==> object_head(m, index) == "MovieObject["@ + dec_text(index)
            + "] (resume="@ + dec_text(m.resume_intention_flag as nat) + ", menu_mask="@ + dec_text(
            m.menu_call_mask as nat,
        ) + ", title_mask="@ + dec_text(m.title_search_mask as nat) + ", "@ + dec_text(
            m.commands.len(),
        ) + " cmd"@ + "s"@ + ")"@,
        object_texts(objects, (i + 1) as nat) == object_texts(objects, i as nat) + "\n\n"@
            + object_text(objects[i], i as nat),
{
}

} // verus!
