//! Where the key file and the cache may lie.
use vstd::prelude::*;
use vstd::string::*;

use crate::scan::chars_of;

verus! {

/// A place in the file system: a directory and a path below it. Without a
/// path it is the directory's own name that counts.
#[derive(Debug, Clone, PartialEq, Eq)]
pub struct Place {
    pub base: String,
    pub below: &'static str,
}

/// A place as two texts.
pub open spec fn place_model(p: Place) -> (Seq<char>, Seq<char>) {
    (p.base@, p.below@)
}

pub open spec fn place_models(v: Seq<Place>) -> Seq<(Seq<char>, Seq<char>)> {
    Seq::new(v.len(), |i: int| place_model(v[i]))
}

/// What the environment says.
#[derive(Debug, Clone, PartialEq, Eq)]
pub struct SearchEnv {
    /// The key file itself.
    pub keydb: Option<String>,
    /// The cache file itself.
    pub cache: Option<String>,
    pub home: Option<String>,
    pub config_home: Option<String>,
    /// Directories separated by colons.
    pub config_dirs: Option<String>,
    pub cache_home: Option<String>,
    /// Whether preferences live in the user's library.
    pub macos: bool,
}

// ---------------------------------------------------------------------
// Directories separated by colons
// ---------------------------------------------------------------------

/// The directories in the first `n` characters that a colon ends, and what
/// follows the last colon. Empty ones are left out.
pub open spec fn split_dirs(s: Seq<char>, n: nat) -> (Seq<Seq<char>>, Seq<char>)
    decreases n,
{
    if n == 0 {
        (Seq::empty(), Seq::empty())
    } else {
        let (done, cur) = split_dirs(s, (n - 1) as nat);
        if s[n - 1] != ':' {
            (done, cur.push(s[n - 1]))
        } else if cur.len() > 0 {
            (done.push(cur), Seq::empty())
        } else {
            (done, Seq::empty())
        }
    }
}

/// The directories of a list.
pub open spec fn dirs_of(s: Seq<char>) -> Seq<Seq<char>> {
    let (done, cur) = split_dirs(s, s.len());
    if cur.len() > 0 {
        done.push(cur)
    } else {
        done
    }
}

pub open spec fn texts(v: Seq<String>) -> Seq<Seq<char>> {
    Seq::new(v.len(), |i: int| v[i]@)
}

fn directories(list: &str) -> (r: Vec<String>)
    ensures
        texts(r@) == dirs_of(list@),
{
    let chars = chars_of(list);
    let mut done: Vec<String> = Vec::new();
    let mut cur = String::new();
    let mut len: usize = 0;
    let mut i: usize = 0;
    assert(texts(done@) =~= Seq::empty());
    while i < chars.len()
        invariant
            i <= chars@.len(),
            len <= i,
            len == cur@.len(),
            split_dirs(chars@, i as nat) == (texts(done@), cur@),
        decreases chars@.len() - i,
    {
        let ghost before = texts(done@);
        if chars[i] != ':' {
            cur.push(chars[i]);
            len += 1;
        } else {
            if len > 0 {
                let ghost part = cur@;
                done.push(cur);
                assert(texts(done@) =~= before.push(part));
            }
            cur = String::new();
            len = 0;
        }
        i += 1;
    }
    let ghost before = texts(done@);
    if len > 0 {
        let ghost part = cur@;
        done.push(cur);
        assert(texts(done@) =~= before.push(part));
    }
    done
}

// ---------------------------------------------------------------------
// The places
// ---------------------------------------------------------------------

/// A place below a directory that may not be known.
pub open spec fn one_place(base: Option<String>, below: Seq<char>) -> Seq<(Seq<char>, Seq<char>)> {
    match base {
        Some(b) => seq![(b@, below)],
        None => Seq::empty(),
    }
}

/// A place below every directory of a list.
pub open spec fn places_below(dirs: Seq<Seq<char>>, below: Seq<char>) -> Seq<
    (Seq<char>, Seq<char>),
> {
    Seq::new(dirs.len(), |i: int| (dirs[i], below))
}

/// Where the key file may lie, in the order of the search.
pub open spec fn keydb_places(e: SearchEnv) -> Seq<(Seq<char>, Seq<char>)> {
    one_place(e.keydb, ""@) + (if e.macos {
        one_place(e.home, "Library/Preferences/aacs/KEYDB.cfg"@)
    } else {
        Seq::empty()
    }) + one_place(e.config_home, "aacs/KEYDB.cfg"@) + (match e.config_dirs {
        Some(list) => places_below(dirs_of(list@), "aacs/KEYDB.cfg"@),
        None => Seq::empty(),
    }) + one_place(e.home, ".config/aacs/KEYDB.cfg"@)
}

fn push_place(out: &mut Vec<Place>, base: &Option<String>, below: &'static str)
    ensures
        place_models(final(out)@) == place_models(old(out)@) + one_place(*base, below@),
{
    match base {
        Some(b) => {
            out.push(Place { base: b.clone(), below });
            assert(place_models(out@) =~= place_models(old(out)@) + one_place(*base, below@));
        },
        None => {
            assert(place_models(out@) =~= place_models(old(out)@) + one_place(*base, below@));
        },
    }
}

fn push_places(out: &mut Vec<Place>, dirs: &Vec<String>, below: &'static str)
    ensures
        place_models(final(out)@) == place_models(old(out)@) + places_below(
            texts(dirs@),
            below@,
        ),
{
    let mut i: usize = 0;
    let ghost all = places_below(texts(dirs@), below@);
    assert(place_models(out@) =~= place_models(old(out)@) + all.take(0));
    while i < dirs.len()
        invariant
            i <= dirs@.len(),
            all == places_below(texts(dirs@), below@),
            place_models(out@) == place_models(old(out)@) + all.take(i as int),
        decreases dirs@.len() - i,
    {
        let ghost before = place_models(out@);
        out.push(Place { base: dirs[i].clone(), below });
        assert(place_models(out@) =~= before.push((dirs@[i as int]@, below@)));
        assert(all[i as int] == (dirs@[i as int]@, below@));
        i += 1;
        assert(place_models(out@) =~= place_models(old(out)@) + all.take(i as int));
    }
    assert(all.take(i as int) =~= all);
}

/// Where the key file may lie, in the order of the search.
pub fn keydb_candidates(e: &SearchEnv) -> (out: Vec<Place>)
    ensures
        place_models(out@) == keydb_places(*e),
{
    let mut out: Vec<Place> = Vec::new();
    push_place(&mut out, &e.keydb, "");
    if e.macos {
        push_place(&mut out, &e.home, "Library/Preferences/aacs/KEYDB.cfg");
    }
    push_place(&mut out, &e.config_home, "aacs/KEYDB.cfg");
    if let Some(list) = &e.config_dirs {
        let dirs = directories(list.as_str());
        push_places(&mut out, &dirs, "aacs/KEYDB.cfg");
    }
    push_place(&mut out, &e.home, ".config/aacs/KEYDB.cfg");
    assert(place_models(out@) =~= keydb_places(*e));
    out
}

/// Where the cache lies: where the user says, else below the cache directory,
/// else below the home directory, else below the current one.
pub open spec fn cache_model(e: SearchEnv) -> (Seq<char>, Seq<char>) {
    match (e.cache, e.cache_home, e.home) {
        (Some(p), _, _) => (p@, ""@),
        (None, Some(base), _) => (base@, "oxideav/vuk-cache.cfg"@),
        (None, None, Some(home)) => (home@, ".cache/oxideav/vuk-cache.cfg"@),
        (None, None, None) => (".oxideav-cache"@, "oxideav/vuk-cache.cfg"@),
    }
}

/// Where the cache lies.
pub fn cache_place(e: &SearchEnv) -> (r: Place)
    ensures
        place_model(r) == cache_model(*e),
{
    if let Some(p) = &e.cache {
        Place { base: p.clone(), below: "" }
    } else if let Some(base) = &e.cache_home {
        Place { base: base.clone(), below: "oxideav/vuk-cache.cfg" }
    } else if let Some(home) = &e.home {
        Place { base: home.clone(), below: ".cache/oxideav/vuk-cache.cfg" }
    } else {
        Place { base: ".oxideav-cache".to_owned(), below: "oxideav/vuk-cache.cfg" }
    }
}

/// Models stand in the order of what they model.
pub proof fn lemma_models_in_order(places: Seq<Place>, names: Seq<String>, i: int)
    ensures
        place_models(places).len() == places.len(),
        0 <= i < places.len() ==> place_models(places)[i] == (places[i].base@, places[i].below@),
        texts(names).len() == names.len(),
        0 <= i < names.len() ==> texts(names)[i] == names[i]@,
{
}

} // verus!
