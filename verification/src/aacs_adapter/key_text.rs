//! Texts that the reader of key files takes.
//!
//! That reader takes hexadecimal values apart two bytes at a time. Where a
//! value of the right length holds a character that takes more than one byte in
//! UTF-8, the cut may go through the character, and the reader stops the
//! program. Such texts are found here before they get there.
use vstd::prelude::*;
use vstd::string::*;

use crate::scan::{
    ascii_upper, chars_of, end_of_text, hex_digit, is_hex, is_space, is_white_space, start_of_text,
    trim, trim_end, trim_start, upper, without_0x,
};

verus! {

// ---------------------------------------------------------------------
// Parts of a text
// ---------------------------------------------------------------------

/// The first place of a character in a text, or the end of the text.
pub open spec fn place_of(s: Seq<char>, c: char) -> nat
    decreases s.len(),
{
    if s.len() == 0 || s[0] == c {
        0
    } else {
        1 + place_of(s.skip(1), c)
    }
}

pub proof fn lemma_place_of(s: Seq<char>, c: char)
    ensures
        place_of(s, c) <= s.len(),
        place_of(s, c) < s.len() ==> s[place_of(s, c) as int] == c,
        forall|i: int| 0 <= i < place_of(s, c) ==> s[i] != c,
    decreases s.len(),
{
    if s.len() > 0 && s[0] != c {
        lemma_place_of(s.skip(1), c);
        assert forall|i: int| 0 <= i < place_of(s, c) implies s[i] != c by {
            if i > 0 {
                assert(s.skip(1)[i - 1] == s[i]);
            }
        }
    }
}

proof fn lemma_place_is(s: Seq<char>, c: char, n: int)
    requires
        0 <= n <= s.len(),
        n < s.len() ==> s[n] == c,
        forall|i: int| 0 <= i < n ==> s[i] != c,
    ensures
        place_of(s, c) == n,
{
    lemma_place_of(s, c);
    let p = place_of(s, c) as int;
    if p < n {
        assert(s[p] != c);
    }
}

/// The first place of `c` from `from` on, or the end.
fn find_char(chars: &Vec<char>, from: usize, c: char) -> (i: usize)
    requires
        from <= chars@.len(),
    ensures
        from <= i <= chars@.len(),
        i - from == place_of(chars@.skip(from as int), c),
{
    let mut i: usize = from;
    while i < chars.len() && chars[i] != c
        invariant
            from <= i <= chars@.len(),
            forall|k: int| from <= k < i ==> chars@[k] != c,
        decreases chars@.len() - i,
    {
        i += 1;
    }
    proof {
        lemma_place_is(chars@.skip(from as int), c, i - from);
    }
    i
}

fn part(chars: &Vec<char>, from: usize, to: usize) -> (r: Vec<char>)
    requires
        from <= to <= chars@.len(),
    ensures
        r@ == chars@.subrange(from as int, to as int),
{
    let mut r: Vec<char> = Vec::new();
    let mut i: usize = from;
    assert(r@ =~= chars@.subrange(from as int, from as int));
    while i < to
        invariant
            from <= i <= to <= chars@.len(),
            r@ == chars@.subrange(from as int, i as int),
        decreases to - i,
    {
        r.push(chars[i]);
        i += 1;
        assert(r@ =~= chars@.subrange(from as int, i as int));
    }
    r
}

fn trimmed(chars: &Vec<char>) -> (r: Vec<char>)
    ensures
        r@ == trim(chars@),
{
    let from: usize = start_of_text(chars);
    let to: usize = end_of_text(chars, from);
    part(chars, from, to)
}

fn stripped_0x(chars: &Vec<char>) -> (r: Vec<char>)
    ensures
        r@ == without_0x(chars@),
{
    let from: usize = if chars.len() >= 2 && chars[0] == '0' && (chars[1] == 'x' || chars[1]
        == 'X') {
        2
    } else {
        0
    };
    let r = part(chars, from, chars.len());
    assert(r@ =~= without_0x(chars@));
    r
}

// ---------------------------------------------------------------------
// Values that cannot be taken apart
// ---------------------------------------------------------------------

/// How many bytes a character takes in UTF-8.
pub open spec fn width(c: char) -> nat {
    let n = c as u32;
    if n < 0x80 {
        1
    } else if n < 0x800 {
        2
    } else if n < 0x1_0000 {
        3
    } else {
        4
    }
}

/// How many bytes a text takes in UTF-8.
pub open spec fn byte_len(s: Seq<char>) -> nat
    decreases s.len(),
{
    if s.len() == 0 {
        0
    } else {
        width(s[0]) + byte_len(s.skip(1))
    }
}

/// Whether two characters spell a byte in hexadecimal; a plus sign counts as
/// a leading zero.
pub open spec fn is_pair(a: char, b: char) -> bool {
    (is_hex(a) || a == '+') && is_hex(b)
}

/// Whether reading a text two bytes at a time, as long as they spell a byte,
/// cuts a character in two.
pub open spec fn cut_by_pairs(s: Seq<char>) -> bool
    decreases s.len(),
{
    if s.len() == 0 {
        false
    } else if width(s[0]) > 1 {
        width(s[0]) > 2
    } else if s.len() == 1 {
        false
    } else if width(s[1]) > 1 {
        true
    } else {
        is_pair(s[0], s[1]) && cut_by_pairs(s.skip(2))
    }
}

/// Whether a value of `n` bytes is cut within a character.
pub open spec fn is_cut(s: Seq<char>, n: nat) -> bool {
    byte_len(s) == n && cut_by_pairs(s)
}

fn char_width(c: char) -> (r: usize)
    ensures
        r == width(c),
        1 <= r <= 4,
{
    let n: u32 = c as u32;
    if n < 0x80 {
        1
    } else if n < 0x800 {
        2
    } else if n < 0x1_0000 {
        3
    } else {
        4
    }
}

proof fn lemma_byte_len(s: Seq<char>)
    ensures
        s.len() <= byte_len(s) <= 4 * s.len(),
    decreases s.len(),
{
    if s.len() > 0 {
        lemma_byte_len(s.skip(1));
    }
}

/// Whether a text takes `n` bytes.
fn takes_bytes(chars: &Vec<char>, n: usize) -> (r: bool)
    requires
        n <= 1000,
    ensures
        r == (byte_len(chars@) == n),
{
    let total: usize = chars.len();
    proof {
        lemma_byte_len(chars@);
    }
    if total > n {
        return false;
    }
    let mut i: usize = 0;
    let mut sum: usize = 0;
    assert(chars@.skip(0) =~= chars@);
    while i < total
        invariant
            i <= total,
            total == chars@.len(),
            total <= n <= 1000,
            sum <= 4 * i,
            byte_len(chars@) == sum + byte_len(chars@.skip(i as int)),
        decreases total - i,
    {
        assert(chars@.skip(i as int).skip(1) =~= chars@.skip(i + 1));
        sum += char_width(chars[i]);
        i += 1;
    }
    sum == n
}

fn pairs_cut(chars: &Vec<char>) -> (r: bool)
    ensures
        r == cut_by_pairs(chars@),
{
    let total: usize = chars.len();
    let mut i: usize = 0;
    assert(chars@.skip(0) =~= chars@);
    while i < total
        invariant
            i <= total,
            total == chars@.len(),
            cut_by_pairs(chars@) == cut_by_pairs(chars@.skip(i as int)),
        decreases total - i,
    {
        let ghost s = chars@.skip(i as int);
        assert(s[0] == chars@[i as int]);
        let w: usize = char_width(chars[i]);
        if w > 1 {
            return w > 2;
        }
        if total - i == 1 {
            return false;
        }
        assert(s[1] == chars@[i + 1]);
        if char_width(chars[i + 1]) > 1 {
            return true;
        }
        if !((hex_digit(chars[i]).is_some() || chars[i] == '+') && hex_digit(
            chars[i + 1],
        ).is_some()) {
            return false;
        }
        assert(s.skip(2) =~= chars@.skip(i + 2));
        i += 2;
    }
    false
}

fn value_cut(chars: &Vec<char>, n: usize) -> (r: bool)
    requires
        n <= 1000,
    ensures
        r == is_cut(chars@, n as nat),
{
    takes_bytes(chars, n) && pairs_cut(chars)
}

// ---------------------------------------------------------------------
// Lines about discs
// ---------------------------------------------------------------------

/// Whether a part of a line begins with a flag: one of the letters D, I, M, U
/// and V in either case, alone or before white space.
pub open spec fn has_flag(t: Seq<char>) -> bool {
    &&& t.len() > 0
    &&& (upper(t[0]) == 'D' || upper(t[0]) == 'I' || upper(t[0]) == 'M' || upper(t[0]) == 'U'
        || upper(t[0]) == 'V')
    &&& t.len() == 1 || is_space(t[1])
}

/// The flag that a part stands under: its own, or the one before it.
pub open spec fn flag_of(t: Seq<char>, before: char) -> char {
    if has_flag(t) {
        upper(t[0])
    } else {
        before
    }
}

/// A part without its flag.
pub open spec fn value_of(t: Seq<char>) -> Seq<char> {
    if has_flag(t) {
        trim(t.skip(1))
    } else {
        t
    }
}

/// The flag behind a part: a flag lasts until a value was read, U beyond.
pub open spec fn flag_behind(t: Seq<char>, before: char) -> char {
    if value_of(t).len() == 0 || flag_of(t, before) == 'U' {
        flag_of(t, before)
    } else {
        ' '
    }
}

/// The unit key in a value: what follows the first hyphen.
pub open spec fn unit_key_part(v: Seq<char>) -> Seq<char> {
    without_0x(trim(v.skip(place_of(v, '-') as int + 1)))
}

/// Whether the reader can take the value of a part: under V it takes the
/// value apart, under U what follows the first hyphen.
pub open spec fn readable_value(t: Seq<char>, before: char) -> bool {
    let v = value_of(t);
    if flag_of(t, before) == 'V' {
        !is_cut(without_0x(v), 32)
    } else if flag_of(t, before) == 'U' && place_of(v, '-') < v.len() {
        !is_cut(unit_key_part(v), 32)
    } else {
        true
    }
}

/// Whether the reader can take the parts of a line, which `|` separates.
pub open spec fn readable_parts(s: Seq<char>, before: char) -> bool
    decreases s.len(),
{
    let i = place_of(s, '|') as int;
    let t = trim(s.take(i));
    readable_value(t, before) && (i < s.len() ==> readable_parts(
        s.skip(i + 1),
        flag_behind(t, before),
    ))
}

/// Whether the reader can take a line. It leaves out what follows a
/// semicolon. A line that begins with `|` is no line about a disc, and nothing
/// in it is taken apart in that way.
pub open spec fn readable_line(l: Seq<char>) -> bool {
    let body = trim(l.take(place_of(l, ';') as int));
    let i = place_of(body, '=') as int;
    ||| body.len() == 0
    ||| body[0] == '|'
    ||| i == body.len()
    ||| !is_cut(without_0x(trim(body.take(i))), 40) && readable_parts(body.skip(i + 1), ' ')
}

/// Whether the reader can take every line of a text.
pub open spec fn readable_text(s: Seq<char>) -> bool
    decreases s.len(),
{
    let i = place_of(s, '\n') as int;
    readable_line(s.take(i)) && (i < s.len() ==> readable_text(s.skip(i + 1)))
}

fn flagged(t: &Vec<char>) -> (r: bool)
    ensures
        r == has_flag(t@),
{
    if t.len() == 0 {
        return false;
    }
    let c: char = ascii_upper(t[0]);
    (c == 'D' || c == 'I' || c == 'M' || c == 'U' || c == 'V') && (t.len() == 1 || is_white_space(
        t[1],
    ))
}

/// Whether the reader can take a part, and the flag behind it.
fn check_part(t: &Vec<char>, before: char) -> (r: (bool, char))
    ensures
        r.0 == readable_value(t@, before),
        r.1 == flag_behind(t@, before),
{
    let own = flagged(t);
    let flag: char = if own {
        ascii_upper(t[0])
    } else {
        before
    };
    let value = if own {
        let rest = part(t, 1, t.len());
        assert(rest@ =~= t@.skip(1));
        trimmed(&rest)
    } else {
        let whole = part(t, 0, t.len());
        assert(whole@ =~= t@);
        whole
    };
    let behind: char = if value.len() == 0 || flag == 'U' {
        flag
    } else {
        ' '
    };
    if flag == 'V' {
        let key = stripped_0x(&value);
        return (!value_cut(&key, 32), behind);
    }
    if flag == 'U' {
        let i: usize = find_char(&value, 0, '-');
        assert(value@.skip(0) =~= value@);
        if i < value.len() {
            let rest = part(&value, i + 1, value.len());
            assert(rest@ =~= value@.skip(i + 1));
            let key = stripped_0x(&trimmed(&rest));
            return (!value_cut(&key, 32), behind);
        }
    }
    (true, behind)
}

/// Whether the reader can take the parts from `from` on.
fn check_parts(chars: &Vec<char>, from: usize) -> (r: bool)
    requires
        from <= chars@.len(),
    ensures
        r == readable_parts(chars@.skip(from as int), ' '),
{
    let mut at: usize = from;
    let mut flag: char = ' ';
    loop
        invariant
            at <= chars@.len(),
            readable_parts(chars@.skip(from as int), ' ') == readable_parts(
                chars@.skip(at as int),
                flag,
            ),
        decreases chars@.len() - at,
    {
        let ghost s = chars@.skip(at as int);
        let end: usize = find_char(chars, at, '|');
        let raw = part(chars, at, end);
        assert(raw@ =~= s.take(end - at));
        let t = trimmed(&raw);
        let (fine, behind) = check_part(&t, flag);
        if !fine {
            return false;
        }
        if end >= chars.len() {
            return true;
        }
        assert(s.skip(end - at + 1) =~= chars@.skip(end + 1));
        at = end + 1;
        flag = behind;
    }
}

fn check_line(l: &Vec<char>) -> (r: bool)
    ensures
        r == readable_line(l@),
{
    assert(l@.skip(0) =~= l@);
    let end: usize = find_char(l, 0, ';');
    let raw = part(l, 0, end);
    assert(raw@ =~= l@.take(end as int));
    let body = trimmed(&raw);
    if body.len() == 0 || body[0] == '|' {
        return true;
    }
    assert(body@.skip(0) =~= body@);
    let i: usize = find_char(&body, 0, '=');
    if i == body.len() {
        return true;
    }
    let left = part(&body, 0, i);
    assert(left@ =~= body@.take(i as int));
    let id = stripped_0x(&trimmed(&left));
    !value_cut(&id, 40) && check_parts(&body, i + 1)
}

/// Whether the reader can take a text.
pub fn is_readable(text: &str) -> (r: bool)
    ensures
        r == readable_text(text@),
{
    let chars = chars_of(text);
    let mut at: usize = 0;
    assert(chars@.skip(0) =~= chars@);
    loop
        invariant
            at <= chars@.len(),
            chars@ == text@,
            readable_text(text@) == readable_text(chars@.skip(at as int)),
        decreases chars@.len() - at,
    {
        let ghost s = chars@.skip(at as int);
        let end: usize = find_char(&chars, at, '\n');
        let line = part(&chars, at, end);
        assert(line@ =~= s.take(end - at));
        if !check_line(&line) {
            return false;
        }
        if end >= chars.len() {
            return true;
        }
        assert(s.skip(end - at + 1) =~= chars@.skip(end + 1));
        at = end + 1;
    }
}

// ---------------------------------------------------------------------
// Records
// ---------------------------------------------------------------------

/// Whether a line begins with a character behind white space.
pub open spec fn begins_with(l: Seq<char>, c: char) -> bool {
    trim_start(l).len() > 0 && trim_start(l)[0] == c
}

/// Whether every line of a text is blank, a record (which begins with `|`) or
/// a comment. In such a text nothing is taken apart within a character.
pub open spec fn only_records(s: Seq<char>) -> bool
    decreases s.len(),
{
    let i = place_of(s, '\n') as int;
    let l = s.take(i);
    (trim_start(l).len() == 0 || begins_with(l, '|') || begins_with(l, ';')) && (i < s.len()
        ==> only_records(s.skip(i + 1)))
}

/// The records of a text, each on a line of its own.
pub open spec fn records_of(s: Seq<char>) -> Seq<char>
    decreases s.len(),
{
    let i = place_of(s, '\n') as int;
    let l = s.take(i);
    let here = if begins_with(l, '|') {
        l.push('\n')
    } else {
        Seq::empty()
    };
    if i < s.len() {
        here + records_of(s.skip(i + 1))
    } else {
        here
    }
}

/// The records of a text are records only.
pub proof fn lemma_records_only(s: Seq<char>)
    ensures
        only_records(records_of(s)),
    decreases s.len(),
{
    lemma_place_of(s, '\n');
    let i = place_of(s, '\n') as int;
    let l = s.take(i);
    let rest = if i < s.len() {
        records_of(s.skip(i + 1))
    } else {
        Seq::empty()
    };
    if i < s.len() {
        lemma_records_only(s.skip(i + 1));
    } else {
        lemma_place_is(rest, '\n', 0);
        assert(rest.take(0) =~= Seq::empty());
        assert(only_records(rest));
    }
    if begins_with(l, '|') {
        let r = l.push('\n') + rest;
        assert(records_of(s) =~= r);
        assert forall|k: int| 0 <= k < i implies r[k] != '\n' by {
            assert(r[k] == s[k]);
        }
        lemma_place_is(r, '\n', i);
        assert(r.take(i) =~= l);
        assert(r.skip(i + 1) =~= rest);
    } else {
        assert(records_of(s) =~= rest);
    }
}

/// The records of a text.
pub fn record_lines(text: &str) -> (r: String)
    ensures
        r@ == records_of(text@),
{
    let chars = chars_of(text);
    let mut r = String::new();
    let mut at: usize = 0;
    assert(chars@.skip(0) =~= chars@);
    assert(r@ + records_of(text@) =~= records_of(text@));
    loop
        invariant
            at <= chars@.len(),
            chars@ == text@,
            records_of(text@) == r@ + records_of(chars@.skip(at as int)),
        decreases chars@.len() - at,
    {
        let ghost s = chars@.skip(at as int);
        let ghost before = r@;
        let end: usize = find_char(&chars, at, '\n');
        let line = part(&chars, at, end);
        assert(line@ =~= s.take(end - at));
        let start: usize = start_of_text(&line);
        let ghost here = if begins_with(line@, '|') {
            line@.push('\n')
        } else {
            Seq::empty()
        };
        if start < line.len() && line[start] == '|' {
            push_chars(&mut r, &line);
            r.push('\n');
        }
        assert(r@ =~= before + here);
        if end >= chars.len() {
            assert(records_of(s) == here);
            return r;
        }
        assert(s.skip(end - at + 1) =~= chars@.skip(end + 1));
        assert(records_of(s) == here + records_of(chars@.skip(end + 1)));
        assert(before + (here + records_of(chars@.skip(end + 1))) =~= r@ + records_of(
            chars@.skip(end + 1),
        ));
        at = end + 1;
    }
}

fn push_chars(out: &mut String, chars: &Vec<char>)
    ensures
        final(out)@ == old(out)@ + chars@,
{
    let mut i: usize = 0;
    assert(out@ =~= old(out)@ + chars@.take(0));
    while i < chars.len()
        invariant
            i <= chars@.len(),
            out@ == old(out)@ + chars@.take(i as int),
        decreases chars@.len() - i,
    {
        out.push(chars[i]);
        i += 1;
        assert(out@ =~= old(out)@ + chars@.take(i as int));
    }
    assert(chars@.take(i as int) =~= chars@);
}

// ---------------------------------------------------------------------
// Laws
// ---------------------------------------------------------------------

/// Whether all characters of a text are ASCII.
pub open spec fn is_ascii(s: Seq<char>) -> bool {
    forall|i: int| 0 <= i < s.len() ==> (#[trigger] s[i]) as u32 <= 0x7F
}

proof fn lemma_ascii_skip(s: Seq<char>, i: int)
    requires
        is_ascii(s),
        0 <= i <= s.len(),
    ensures
        is_ascii(s.skip(i)),
        is_ascii(s.take(i)),
{
    assert forall|k: int| 0 <= k < s.skip(i).len() implies (#[trigger] s.skip(i)[k]) as u32
        <= 0x7F by {
        assert(s.skip(i)[k] == s[i + k]);
    }
    assert forall|k: int| 0 <= k < s.take(i).len() implies (#[trigger] s.take(i)[k]) as u32
        <= 0x7F by {
        assert(s.take(i)[k] == s[k]);
    }
}

proof fn lemma_ascii_trim_start(s: Seq<char>)
    requires
        is_ascii(s),
    ensures
        is_ascii(trim_start(s)),
    decreases s.len(),
{
    if s.len() > 0 && is_space(s[0]) {
        lemma_ascii_skip(s, 1);
        lemma_ascii_trim_start(s.skip(1));
    }
}

proof fn lemma_ascii_trim_end(s: Seq<char>)
    requires
        is_ascii(s),
    ensures
        is_ascii(trim_end(s)),
    decreases s.len(),
{
    if s.len() > 0 && is_space(s.last()) {
        lemma_ascii_skip(s, s.len() - 1);
        assert(s.drop_last() =~= s.take(s.len() - 1));
        lemma_ascii_trim_end(s.drop_last());
    }
}

proof fn lemma_ascii_trim(s: Seq<char>)
    requires
        is_ascii(s),
    ensures
        is_ascii(trim(s)),
{
    lemma_ascii_trim_start(s);
    lemma_ascii_trim_end(trim_start(s));
}

proof fn lemma_ascii_not_cut(s: Seq<char>)
    requires
        is_ascii(s),
    ensures
        !cut_by_pairs(without_0x(s)),
{
    if s.len() >= 2 {
        lemma_ascii_skip(s, 2);
    }
    lemma_ascii_pairs(without_0x(s));
}

proof fn lemma_ascii_pairs(s: Seq<char>)
    requires
        is_ascii(s),
    ensures
        !cut_by_pairs(s),
    decreases s.len(),
{
    if s.len() >= 2 {
        assert(s[0] as u32 <= 0x7F && s[1] as u32 <= 0x7F);
        lemma_ascii_skip(s, 2);
        lemma_ascii_pairs(s.skip(2));
    } else if s.len() == 1 {
        assert(s[0] as u32 <= 0x7F);
    }
}

proof fn lemma_ascii_parts(s: Seq<char>, before: char)
    requires
        is_ascii(s),
    ensures
        readable_parts(s, before),
    decreases s.len(),
{
    lemma_place_of(s, '|');
    let i = place_of(s, '|') as int;
    lemma_ascii_skip(s, i);
    lemma_ascii_trim(s.take(i));
    let t = trim(s.take(i));
    if has_flag(t) {
        lemma_ascii_skip(t, 1);
        lemma_ascii_trim(t.skip(1));
    }
    let v = value_of(t);
    lemma_ascii_not_cut(v);
    lemma_place_of(v, '-');
    if place_of(v, '-') < v.len() {
        lemma_ascii_skip(v, place_of(v, '-') as int + 1);
        lemma_ascii_trim(v.skip(place_of(v, '-') as int + 1));
        lemma_ascii_not_cut(trim(v.skip(place_of(v, '-') as int + 1)));
    }
    if i < s.len() {
        lemma_ascii_skip(s, i + 1);
        lemma_ascii_parts(s.skip(i + 1), flag_behind(t, before));
    }
}

proof fn lemma_ascii_line(l: Seq<char>)
    requires
        is_ascii(l),
    ensures
        readable_line(l),
{
    lemma_place_of(l, ';');
    lemma_ascii_skip(l, place_of(l, ';') as int);
    lemma_ascii_trim(l.take(place_of(l, ';') as int));
    let body = trim(l.take(place_of(l, ';') as int));
    lemma_place_of(body, '=');
    let i = place_of(body, '=') as int;
    lemma_ascii_skip(body, i);
    lemma_ascii_trim(body.take(i));
    lemma_ascii_not_cut(trim(body.take(i)));
    if i < body.len() {
        lemma_ascii_skip(body, i + 1);
        lemma_ascii_parts(body.skip(i + 1), ' ');
    }
}

/// Every ASCII text can be taken.
pub proof fn lemma_ascii_is_readable(s: Seq<char>)
    requires
        is_ascii(s),
    ensures
        readable_text(s),
    decreases s.len(),
{
    lemma_place_of(s, '\n');
    let i = place_of(s, '\n') as int;
    lemma_ascii_skip(s, i);
    lemma_ascii_line(s.take(i));
    if i < s.len() {
        lemma_ascii_skip(s, i + 1);
        lemma_ascii_is_readable(s.skip(i + 1));
    }
}

} // verus!
