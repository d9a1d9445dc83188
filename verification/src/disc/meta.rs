//! The title of the disc as a whole, out of the XML files that may lie in
//! `BDMV/META/DL/`. The files are not parsed: the first name element is
//! searched for, byte by byte.
use vstd::prelude::*;
use vstd::string::*;
use vstd::utf8::{decode_utf8, valid_utf8};

use crate::bdmv::common::utf8_text;
use crate::scan::{chars_of, end_of_text, start_of_text, text_of, trim};

verus! {

/// What is known of the disc as a whole.
#[derive(Debug, Clone, PartialEq, Eq)]
pub struct DiscTitleMeta {
    pub title: String,
    /// The language in the file's name, such as `"eng"` of `bdmt_eng.xml`.
    pub language: Option<String>,
}

// ---------------------------------------------------------------------
// Searching bytes
// ---------------------------------------------------------------------

/// Whether `needle` stands in `hay` at `i`.
pub open spec fn stands_at(hay: Seq<u8>, needle: Seq<u8>, i: int) -> bool {
    0 <= i && i + needle.len() <= hay.len() && hay.subrange(i, i + needle.len()) == needle
}

/// The first place from `from` on where `needle` stands.
pub open spec fn search(hay: Seq<u8>, needle: Seq<u8>, from: int) -> Option<int>
    decreases hay.len() - from + 1,
{
    if from < 0 || from + needle.len() > hay.len() {
        None
    } else if stands_at(hay, needle, from) {
        Some(from)
    } else {
        search(hay, needle, from + 1)
    }
}

fn matches_at(hay: &[u8], needle: &[u8], at: usize) -> (r: bool)
    requires
        at + needle@.len() <= hay@.len(),
    ensures
        r == stands_at(hay@, needle@, at as int),
{
    let total: usize = hay.len();
    let mut k: usize = 0;
    while k < needle.len()
        invariant
            total == hay@.len(),
            k <= needle@.len(),
            at + needle@.len() <= total,
            forall|j: int| 0 <= j < k ==> #[trigger] needle@[j] == hay@[at + j],
        decreases needle@.len() - k,
    {
        if hay[at + k] != needle[k] {
            assert(hay@.subrange(at as int, at + needle@.len())[k as int] != needle@[k as int]);
            return false;
        }
        k += 1;
    }
    assert(hay@.subrange(at as int, at + needle@.len()) =~= needle@);
    true
}

/// The first place from `from` on where `needle` stands.
fn search_from(hay: &[u8], needle: &[u8], from: usize) -> (r: Option<usize>)
    requires
        needle@.len() > 0,
    ensures
        match r {
            Some(i) => search(hay@, needle@, from as int) == Some(i as int) && from <= i && i
                + needle@.len() <= hay@.len(),
            None => search(hay@, needle@, from as int) is None,
        },
{
    let total: usize = hay.len();
    let size: usize = needle.len();
    let mut i: usize = from;
    while i < total && size <= total - i
        invariant
            total == hay@.len(),
            size == needle@.len(),
            size > 0,
            from <= i,
            search(hay@, needle@, from as int) == search(hay@, needle@, i as int),
        decreases total - i,
    {
        if matches_at(hay, needle, i) {
            return Some(i);
        }
        i += 1;
    }
    None
}

/// The first place where `needle` stands. An empty one stands nowhere.
pub open spec fn first_place(hay: Seq<u8>, needle: Seq<u8>) -> Option<int> {
    if needle.len() == 0 {
        None
    } else {
        search(hay, needle, 0)
    }
}

/// The first place where `needle` stands.
pub fn find_subsequence(haystack: &[u8], needle: &[u8]) -> (r: Option<usize>)
    ensures
        match r {
            Some(i) => first_place(haystack@, needle@) == Some(i as int),
            None => first_place(haystack@, needle@) is None,
        },
{
    if needle.len() == 0 {
        return None;
    }
    search_from(haystack, needle, 0)
}

/// A place that was found is the first one.
pub proof fn lemma_search_first(hay: Seq<u8>, needle: Seq<u8>, from: int)
    requires
        0 <= from,
    ensures
        match search(hay, needle, from) {
            Some(i) => from <= i && stands_at(hay, needle, i) && forall|j: int|
                from <= j < i ==> !#[trigger] stands_at(hay, needle, j),
            None => forall|j: int| from <= j ==> !#[trigger] stands_at(hay, needle, j),
        },
    decreases hay.len() - from + 1,
{
    if from + needle.len() <= hay.len() && !stands_at(hay, needle, from) {
        lemma_search_first(hay, needle, from + 1);
    }
}

// ---------------------------------------------------------------------
// The name element
// ---------------------------------------------------------------------

/// Whether a byte ends the name of an element in its start tag: `>`, `/` or
/// white space.
pub open spec fn ends_name(b: u8) -> bool {
    b == 0x3E || b == 0x2F || b == 0x20 || b == 0x09 || b == 0x0A || b == 0x0D
}

/// Whether a start tag that begins with `open` stands at `i`: `open` is the
/// whole name, not the front of a longer one.
pub open spec fn is_tag(bytes: Seq<u8>, open: Seq<u8>, i: int) -> bool {
    &&& stands_at(bytes, open, i)
    &&& i + open.len() < bytes.len()
    &&& ends_name(bytes[i + open.len()])
}

/// The first start tag from `from` on.
pub open spec fn first_tag(bytes: Seq<u8>, open: Seq<u8>, from: int) -> Option<int>
    decreases bytes.len() - from,
{
    if from >= bytes.len() {
        None
    } else if is_tag(bytes, open, from) {
        Some(from)
    } else {
        first_tag(bytes, open, from + 1)
    }
}

/// Where the text of the first element with a start tag lies: behind the
/// `>` that ends the tag, up to the end tag. An element whose start tag ends
/// in `/>` has no text.
pub open spec fn element_body(bytes: Seq<u8>, open: Seq<u8>, close: Seq<u8>) -> Option<(int, int)> {
    match first_tag(bytes, open, 0) {
        None => None,
        Some(start) => match search(bytes, seq![0x3Eu8], start + open.len()) {
            None => None,
            Some(gt) => if bytes[gt - 1] == 0x2F {
                Some((gt + 1, gt + 1))
            } else {
                match search(bytes, close, gt + 1) {
                    None => None,
                    Some(end) => Some((gt + 1, end)),
                }
            },
        },
    }
}

/// A tag that was found is the first one.
pub proof fn lemma_first_tag(bytes: Seq<u8>, open: Seq<u8>, from: int)
    requires
        0 <= from,
    ensures
        match first_tag(bytes, open, from) {
            Some(i) => from <= i && is_tag(bytes, open, i) && forall|j: int|
                from <= j < i ==> !#[trigger] is_tag(bytes, open, j),
            None => forall|j: int| from <= j ==> !#[trigger] is_tag(bytes, open, j),
        },
    decreases bytes.len() - from,
{
    if from < bytes.len() && !is_tag(bytes, open, from) {
        lemma_first_tag(bytes, open, from + 1);
    }
}

/// The text of an element without the white space around it, unless there is
/// none or it is not valid UTF-8.
pub open spec fn body_text(body: Seq<u8>) -> Option<Seq<char>> {
    if !valid_utf8(body) || trim(decode_utf8(body)).len() == 0 {
        None
    } else {
        Some(trim(decode_utf8(body)))
    }
}

/// `<di:name`.
pub open spec fn di_open() -> Seq<u8> {
    seq![0x3Cu8, 0x64, 0x69, 0x3A, 0x6E, 0x61, 0x6D, 0x65]
}

/// `</di:name>`.
pub open spec fn di_close() -> Seq<u8> {
    seq![0x3Cu8, 0x2F, 0x64, 0x69, 0x3A, 0x6E, 0x61, 0x6D, 0x65, 0x3E]
}

/// `<name`.
pub open spec fn plain_open() -> Seq<u8> {
    seq![0x3Cu8, 0x6E, 0x61, 0x6D, 0x65]
}

/// `</name>`.
pub open spec fn plain_close() -> Seq<u8> {
    seq![0x3Cu8, 0x2F, 0x6E, 0x61, 0x6D, 0x65, 0x3E]
}

/// The name in a file: the text of its first `di:name` element, or of its
/// first `name` element where it has none of the former.
pub open spec fn name_in(bytes: Seq<u8>) -> Option<Seq<char>> {
    match element_body(bytes, di_open(), di_close()) {
        Some((from, to)) => body_text(bytes.subrange(from, to)),
        None => match element_body(bytes, plain_open(), plain_close()) {
            Some((from, to)) => body_text(bytes.subrange(from, to)),
            None => None,
        },
    }
}

fn find_tag(bytes: &[u8], open: &[u8]) -> (r: Option<usize>)
    ensures
        match r {
            Some(i) => first_tag(bytes@, open@, 0) == Some(i as int) && i + open@.len()
                < bytes@.len(),
            None => first_tag(bytes@, open@, 0) is None,
        },
{
    let total: usize = bytes.len();
    let n: usize = open.len();
    let mut i: usize = 0;
    while i < total
        invariant
            total == bytes@.len(),
            n == open@.len(),
            i <= total,
            first_tag(bytes@, open@, 0) == first_tag(bytes@, open@, i as int),
        decreases total - i,
    {
        if n < total - i && matches_at(bytes, open, i) {
            let b: u8 = bytes[i + n];
            if b == 0x3E || b == 0x2F || b == 0x20 || b == 0x09 || b == 0x0A || b == 0x0D {
                return Some(i);
            }
        }
        i += 1;
    }
    None
}

fn find_body(bytes: &[u8], open: &[u8], close: &[u8]) -> (r: Option<(usize, usize)>)
    requires
        open@.len() > 0,
        close@.len() > 0,
    ensures
        match r {
            Some((from, to)) => element_body(bytes@, open@, close@) == Some(
                (from as int, to as int),
            ) && from <= to <= bytes@.len(),
            None => element_body(bytes@, open@, close@) is None,
        },
{
    let total: usize = bytes.len();
    let start: usize = match find_tag(bytes, open) {
        Some(i) => i,
        None => {
            return None;
        },
    };
    let tag_end = [0x3Eu8];
    assert(tag_end@ =~= seq![0x3Eu8]);
    assert(start + open@.len() <= total);
    let gt: usize = match search_from(bytes, &tag_end, start + open.len()) {
        Some(i) => i,
        None => {
            return None;
        },
    };
    assert(gt + 1 <= total);
    if bytes[gt - 1] == 0x2F {
        return Some((gt + 1, gt + 1));
    }
    match search_from(bytes, close, gt + 1) {
        Some(end) => Some((gt + 1, end)),
        None => None,
    }
}

fn text_of_body(bytes: &[u8], from: usize, to: usize) -> (r: Option<String>)
    requires
        from <= to <= bytes@.len(),
    ensures
        match r {
            Some(t) => body_text(bytes@.subrange(from as int, to as int)) == Some(t@),
            None => body_text(bytes@.subrange(from as int, to as int)) is None,
        },
{
    let body = vstd::slice::slice_subrange(bytes, from, to);
    match utf8_text(body) {
        Some(t) => {
            let chars = chars_of(t.as_str());
            let a: usize = start_of_text(&chars);
            let b: usize = end_of_text(&chars, a);
            assert(trim(t@) == chars@.subrange(a as int, b as int));
            if a == b {
                None
            } else {
                Some(text_of(&chars, a, b))
            }
        },
        None => None,
    }
}

/// The name in a file.
pub fn extract_di_name(bytes: &[u8]) -> (r: Option<String>)
    ensures
        match r {
            Some(t) => name_in(bytes@) == Some(t@),
            None => name_in(bytes@) is None,
        },
{
    let open = [0x3Cu8, 0x64, 0x69, 0x3A, 0x6E, 0x61, 0x6D, 0x65];
    let close = [0x3Cu8, 0x2F, 0x64, 0x69, 0x3A, 0x6E, 0x61, 0x6D, 0x65, 0x3E];
    assert(open@ =~= di_open());
    assert(close@ =~= di_close());
    match find_body(bytes, &open, &close) {
        Some((from, to)) => {
            return text_of_body(bytes, from, to);
        },
        None => {},
    }
    let open = [0x3Cu8, 0x6E, 0x61, 0x6D, 0x65];
    let close = [0x3Cu8, 0x2F, 0x6E, 0x61, 0x6D, 0x65, 0x3E];
    assert(open@ =~= plain_open());
    assert(close@ =~= plain_close());
    match find_body(bytes, &open, &close) {
        Some((from, to)) => text_of_body(bytes, from, to),
        None => None,
    }
}

// ---------------------------------------------------------------------
// The files
// ---------------------------------------------------------------------

/// A character in lower case, if it is an ASCII letter.
pub open spec fn lower(c: char) -> char {
    if 'A' <= c <= 'Z' {
        (c as u32 + 32) as char
    } else {
        c
    }
}

/// Text with its ASCII letters in lower case.
pub open spec fn lowered(s: Seq<char>) -> Seq<char> {
    Seq::new(s.len(), |i: int| lower(s[i]))
}

/// Whether a file name is `bdmt_`, a language, and `.xml`, in upper or lower
/// case.
pub open spec fn is_meta_name(name: Seq<char>) -> bool {
    let low = lowered(name);
    low.len() >= 9 && low.take(5) == "bdmt_"@ && low.skip(low.len() - 4) == ".xml"@
}

/// The language in a file name, in lower case.
pub open spec fn language_in(name: Seq<char>) -> Option<Seq<char>> {
    let tag = lowered(name).subrange(5, name.len() - 4);
    if tag.len() == 0 {
        None
    } else {
        Some(tag)
    }
}

fn to_lower(c: char) -> (r: char)
    ensures
        r == lower(c),
{
    if 'A' <= c && c <= 'Z' {
        let n: u8 = c as u8;
        (n + 32) as char
    } else {
        c
    }
}

fn lower_chars(name: &str) -> (r: Vec<char>)
    ensures
        r@ == lowered(name@),
{
    let chars = chars_of(name);
    let mut r: Vec<char> = Vec::new();
    let mut i: usize = 0;
    while i < chars.len()
        invariant
            i <= chars@.len(),
            r@ =~= lowered(chars@).take(i as int),
        decreases chars@.len() - i,
    {
        r.push(to_lower(chars[i]));
        i += 1;
    }
    assert(r@ =~= lowered(name@));
    r
}

/// Whether the name of a file says that it holds the disc's title.
pub fn is_meta_file(name: &str) -> (r: bool)
    ensures
        r == is_meta_name(name@),
{
    let low = lower_chars(name);
    let n: usize = low.len();
    if n < 9 {
        return false;
    }
    proof {
        reveal_strlit("bdmt_");
        reveal_strlit(".xml");
    }
    let r = low[0] == 'b' && low[1] == 'd' && low[2] == 'm' && low[3] == 't' && low[4] == '_'
        && low[n - 4] == '.' && low[n - 3] == 'x' && low[n - 2] == 'm' && low[n - 1] == 'l';
    proof {
        let head = low@.take(5);
        let tail = low@.skip(n - 4);
        if r {
            assert(head =~= "bdmt_"@);
            assert(tail =~= ".xml"@);
        } else if head == "bdmt_"@ && tail == ".xml"@ {
            assert(head[0] == 'b' && head[1] == 'd' && head[2] == 'm' && head[3] == 't' && head[4]
                == '_');
            assert(tail[0] == '.' && tail[1] == 'x' && tail[2] == 'm' && tail[3] == 'l');
        }
    }
    r
}

/// The language in the name of a file that holds the disc's title.
pub fn meta_language(name: &str) -> (r: Option<String>)
    requires
        is_meta_name(name@),
    ensures
        match r {
            Some(t) => language_in(name@) == Some(t@),
            None => language_in(name@) is None,
        },
{
    let low = lower_chars(name);
    if low.len() == 9 {
        None
    } else {
        Some(text_of(&low, 5, low.len() - 4))
    }
}

/// A file of `BDMV/META/DL/`: its name, unless that is not valid UTF-8, and
/// its content, unless it cannot be read.
#[derive(Debug, Clone)]
pub struct MetaFile {
    pub name: Option<String>,
    pub content: Option<Vec<u8>>,
}

/// What the files from `k` on say of the disc: the title and the language of
/// the first that holds a title. A file whose name cannot be read, or one of
/// the right name whose content cannot be read, ends the search.
pub open spec fn meta_from(files: Seq<MetaFile>, k: int) -> Option<(Seq<char>, Option<Seq<char>>)>
    decreases files.len() - k,
{
    if k < 0 || k >= files.len() {
        None
    } else {
        match files[k].name {
            None => None,
            Some(name) => if !is_meta_name(name@) {
                meta_from(files, k + 1)
            } else {
                match files[k].content {
                    None => None,
                    Some(content) => match name_in(content@) {
                        Some(title) => Some((title, language_in(name@))),
                        None => meta_from(files, k + 1),
                    },
                }
            },
        }
    }
}

/// The text of an optional string.
pub open spec fn language_text(m: DiscTitleMeta) -> Option<Seq<char>> {
    match m.language {
        Some(t) => Some(t@),
        None => None,
    }
}

/// What the files of `BDMV/META/DL/`, in the order in which the directory
/// lists them, say of the disc.
pub fn find_title_meta(files: &Vec<MetaFile>) -> (r: Option<DiscTitleMeta>)
    ensures
        match r {
            Some(m) => meta_from(files@, 0) == Some((m.title@, language_text(m))),
            None => meta_from(files@, 0) is None,
        },
{
    let mut i: usize = 0;
    while i < files.len()
        invariant
            i <= files@.len(),
            meta_from(files@, 0) == meta_from(files@, i as int),
        decreases files@.len() - i,
    {
        let f = &files[i];
        match &f.name {
            None => {
                return None;
            },
            Some(name) => {
                if is_meta_file(name.as_str()) {
                    match &f.content {
                        None => {
                            return None;
                        },
                        Some(content) => match extract_di_name(content.as_slice()) {
                            Some(title) => {
                                let language = meta_language(name.as_str());
                                return Some(DiscTitleMeta { title, language });
                            },
                            None => {},
                        },
                    }
                }
            },
        }
        i += 1;
    }
    None
}

// ---------------------------------------------------------------------
// Laws
// ---------------------------------------------------------------------

/// Whether bytes are the characters of an ASCII text.
pub open spec fn spells(bytes: Seq<u8>, text: Seq<char>) -> bool {
    bytes.len() == text.len() && forall|i: int|
        0 <= i < text.len() ==> #[trigger] bytes[i] == text[i] as int
}

/// The tags that hold a name.
pub proof fn lemma_name_tags()
    ensures
        spells(di_open(), "<di:name"@),
        spells(di_close(), "</di:name>"@),
        spells(plain_open(), "<name"@),
        spells(plain_close(), "</name>"@),
{
    reveal_strlit("<di:name");
    reveal_strlit("</di:name>");
    reveal_strlit("<name");
    reveal_strlit("</name>");
}

proof fn lemma_search_at(hay: Seq<u8>, needle: Seq<u8>, from: int, i: int)
    requires
        0 <= from <= i,
        stands_at(hay, needle, i),
        forall|j: int| from <= j < i ==> !#[trigger] stands_at(hay, needle, j),
    ensures
        search(hay, needle, from) == Some(i),
    decreases i - from,
{
    if from < i {
        lemma_search_at(hay, needle, from + 1, i);
    }
}

proof fn lemma_tag_at(bytes: Seq<u8>, open: Seq<u8>, from: int, i: int)
    requires
        0 <= from <= i,
        is_tag(bytes, open, i),
        forall|j: int| from <= j < i ==> !#[trigger] is_tag(bytes, open, j),
    ensures
        first_tag(bytes, open, from) == Some(i),
    decreases i - from,
{
    if from < i {
        lemma_tag_at(bytes, open, from + 1, i);
    }
}

/// The text of an element lies behind the first `>` of its start tag and before
/// its end tag; where that `>` follows a `/`, there is none.
pub proof fn lemma_element(
    bytes: Seq<u8>,
    open: Seq<u8>,
    close: Seq<u8>,
    start: int,
    gt: int,
    end: int,
)
    requires
        0 <= start,
        open.len() > 0,
        is_tag(bytes, open, start),
        forall|j: int| 0 <= j < start ==> !#[trigger] is_tag(bytes, open, j),
        start + open.len() <= gt < bytes.len(),
        bytes[gt] == 0x3E,
        forall|j: int| start + open.len() <= j < gt ==> #[trigger] bytes[j] != 0x3E,
        gt < end,
        stands_at(bytes, close, end),
        forall|j: int| gt < j < end ==> !#[trigger] stands_at(bytes, close, j),
    ensures
        bytes[gt - 1] != 0x2F ==> element_body(bytes, open, close) == Some((gt + 1, end)),
        bytes[gt - 1] == 0x2F ==> element_body(bytes, open, close) == Some((gt + 1, gt + 1)),
{
    let mark = seq![0x3Eu8];
    lemma_tag_at(bytes, open, 0, start);
    assert(bytes.subrange(gt, gt + 1) =~= mark);
    assert forall|j: int| start + open.len() <= j < gt implies !#[trigger] stands_at(
        bytes,
        mark,
        j,
    ) by {
        assert(bytes[j] != 0x3E);
        if stands_at(bytes, mark, j) {
            assert(bytes.subrange(j, j + 1)[0] == mark[0]);
        }
    }
    lemma_search_at(bytes, mark, start + open.len(), gt);
    lemma_search_at(bytes, close, gt + 1, end);
}

/// The name of a disc is that of its first `di:name` element; where there is no
/// such element, that of its first `name` element. White space around it is
/// dropped, and white space alone is no name.
pub proof fn lemma_name(bytes: Seq<u8>, from: int, to: int)
    requires
        0 <= from <= to <= bytes.len(),
    ensures
        ({
            let body = bytes.subrange(from, to);
            let di = element_body(bytes, di_open(), di_close());
            let plain = element_body(bytes, plain_open(), plain_close());
            di == Some((from, to)) || (di is None && plain == Some((from, to))) ==> {
                &&& valid_utf8(body) && trim(decode_utf8(body)).len() > 0 ==> name_in(bytes) == Some(
                    trim(decode_utf8(body)),
                )
                &&& !valid_utf8(body) || trim(decode_utf8(body)).len() == 0 ==> name_in(bytes)
                    is None
            }
        }),
{
}

/// A file tells of the disc where its name is `bdmt_`, a language, and `.xml`,
/// each in either case; the language counts in lower case.
pub proof fn lemma_meta_name(p: Seq<char>, lang: Seq<char>, q: Seq<char>)
    requires
        lowered(p) == "bdmt_"@,
        lowered(q) == ".xml"@,
    ensures
        is_meta_name(p + lang + q),
        lang.len() > 0 ==> language_in(p + lang + q) == Some(lowered(lang)),
        lang.len() == 0 ==> language_in(p + lang + q) is None,
{
    reveal_strlit("bdmt_");
    reveal_strlit(".xml");
    let name = p + lang + q;
    assert(lowered(p).len() == p.len() && lowered(q).len() == q.len());
    assert(lowered(name).take(5) =~= lowered(p));
    assert(lowered(name).skip(name.len() - 4) =~= lowered(q));
    assert(lowered(name).subrange(5, name.len() - 4) =~= lowered(lang));
}

/// The capitals of ASCII become small letters, and nothing else changes.
pub proof fn lemma_lower(c: char)
    ensures
        'A' <= c <= 'Z' ==> 'a' <= lower(c) <= 'z' && lower(c) as int - 'a' as int == c as int
            - 'A' as int,
        !('A' <= c <= 'Z') ==> lower(c) == c,
{
}

/// Of the files that tell of the disc, the first with a name counts.
pub proof fn lemma_first_name(files: Seq<MetaFile>, i: int, k: int)
    requires
        0 <= i <= k < files.len(),
        forall|j: int|
            i <= j < k ==> (#[trigger] files[j]).name is Some && (is_meta_name(
                files[j].name->0@,
            ) ==> files[j].content is Some && name_in(files[j].content->0@) is None),
        files[k].name is Some,
        is_meta_name(files[k].name->0@),
        files[k].content is Some,
        name_in(files[k].content->0@) is Some,
    ensures
        meta_from(files, i) == Some(
            (name_in(files[k].content->0@)->0, language_in(files[k].name->0@)),
        ),
    decreases k - i,
{
    if i < k {
        lemma_first_name(files, i + 1, k);
    }
}

/// A tag is that of an element where the element's name ends behind it: at `>`,
/// at `/`, or at white space.
pub proof fn lemma_tag_ends(bytes: Seq<u8>, open: Seq<u8>, i: int)
    requires
        stands_at(bytes, open, i),
        i + open.len() < bytes.len(),
    ensures
        ({
            let b = bytes[i + open.len()] as int;
            is_tag(bytes, open, i) <==> b == '>' as int || b == '/' as int || b == ' ' as int || b
                == '\t' as int || b == '\n' as int || b == '\r' as int
        }),
{
}

/// What is looked for is found at its first place; nothing is found nowhere.
pub proof fn lemma_found_first(hay: Seq<u8>, needle: Seq<u8>, i: int)
    requires
        0 <= i,
        stands_at(hay, needle, i),
        forall|j: int| 0 <= j < i ==> !#[trigger] stands_at(hay, needle, j),
    ensures
        needle.len() > 0 ==> first_place(hay, needle) == Some(i),
        needle.len() == 0 ==> first_place(hay, needle) is None,
{
    lemma_search_at(hay, needle, 0, i);
}

} // verus!
