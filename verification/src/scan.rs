//! Reading text: white space, prefixes, hexadecimal numbers.
use vstd::prelude::*;
use vstd::string::*;

use crate::text::{hex_bytes, hex_char};

verus! {

/// The characters of `s`.
pub fn chars_of(s: &str) -> (r: Vec<char>)
    ensures
        r@ == s@,
{
    let mut r: Vec<char> = Vec::new();
    for c in it: s.chars()
        invariant
            r@ == it.seq().take(it.index() as int),
            it.seq() == s@,
    {
        r.push(c);
        assert(r@ =~= it.seq().take(it.index() + 1));
    }
    assert(r@ =~= s@);
    r
}

/// The text of `chars[from..to]`.
pub fn text_of(chars: &Vec<char>, from: usize, to: usize) -> (r: String)
    requires
        from <= to <= chars@.len(),
    ensures
        r@ == chars@.subrange(from as int, to as int),
{
    let mut r = String::new();
    let mut i: usize = from;
    assert(r@ =~= chars@.subrange(from as int, from as int));
    while i < to
        invariant
            from <= i <= to <= chars@.len(),
            r@ == chars@.subrange(from as int, i as int),
        decreases to - i,
    {
        r.push(chars[i]);
        i += 1;
        assert(r@ =~= chars@.subrange(from as int, i as int));
    }
    r
}

// ---------------------------------------------------------------------
// White space
// ---------------------------------------------------------------------

/// The characters with the Unicode property `White_Space`.
pub open spec fn is_space(c: char) -> bool {
    let n = c as u32;
    ||| 0x09 <= n <= 0x0D
    ||| n == 0x20
    ||| n == 0x85
    ||| n == 0xA0
    ||| n == 0x1680
    ||| 0x2000 <= n <= 0x200A
    ||| n == 0x2028
    ||| n == 0x2029
    ||| n == 0x202F
    ||| n == 0x205F
    ||| n == 0x3000
}

pub fn is_white_space(c: char) -> (r: bool)
    ensures
        r == is_space(c),
{
    let n: u32 = c as u32;
    (0x09 <= n && n <= 0x0D) || n == 0x20 || n == 0x85 || n == 0xA0 || n == 0x1680 || (0x2000 <= n
        && n <= 0x200A) || n == 0x2028 || n == 0x2029 || n == 0x202F || n == 0x205F || n == 0x3000
}

/// Text without the white space at its start.
pub open spec fn trim_start(s: Seq<char>) -> Seq<char>
    decreases s.len(),
{
    if s.len() > 0 && is_space(s[0]) {
        trim_start(s.skip(1))
    } else {
        s
    }
}

/// Text without the white space at its end.
pub open spec fn trim_end(s: Seq<char>) -> Seq<char>
    decreases s.len(),
{
    if s.len() > 0 && is_space(s.last()) {
        trim_end(s.drop_last())
    } else {
        s
    }
}

/// Text without the white space around it.
pub open spec fn trim(s: Seq<char>) -> Seq<char> {
    trim_end(trim_start(s))
}

/// Where the text begins behind the white space at its start.
pub fn start_of_text(chars: &Vec<char>) -> (i: usize)
    ensures
        i <= chars@.len(),
        trim_start(chars@) == chars@.skip(i as int),
{
    let mut i: usize = 0;
    assert(chars@.skip(0) =~= chars@);
    while i < chars.len() && is_white_space(chars[i])
        invariant
            i <= chars@.len(),
            trim_start(chars@) == trim_start(chars@.skip(i as int)),
        decreases chars@.len() - i,
    {
        i += 1;
        assert(chars@.skip(i - 1).skip(1) =~= chars@.skip(i as int));
    }
    i
}

/// Where the text from `from` on ends, without the white space at its end.
pub fn end_of_text(chars: &Vec<char>, from: usize) -> (i: usize)
    requires
        from <= chars@.len(),
    ensures
        from <= i <= chars@.len(),
        trim_end(chars@.skip(from as int)) == chars@.subrange(from as int, i as int),
{
    let mut i: usize = chars.len();
    assert(chars@.subrange(from as int, i as int) =~= chars@.skip(from as int));
    while i > from && is_white_space(chars[i - 1])
        invariant
            from <= i <= chars@.len(),
            trim_end(chars@.skip(from as int)) == trim_end(
                chars@.subrange(from as int, i as int),
            ),
        decreases i,
    {
        assert(chars@.subrange(from as int, i as int).drop_last() =~= chars@.subrange(
            from as int,
            i - 1,
        ));
        i -= 1;
    }
    i
}

// ---------------------------------------------------------------------
// Hexadecimal
// ---------------------------------------------------------------------

/// Whether a character is a hexadecimal digit.
pub open spec fn is_hex(c: char) -> bool {
    let n = c as u32;
    0x30 <= n <= 0x39 || 0x41 <= n <= 0x46 || 0x61 <= n <= 0x66
}

/// The value of a hexadecimal digit.
pub open spec fn hex_value(c: char) -> int {
    let n = c as u32;
    if n <= 0x39 {
        n - 0x30
    } else if n <= 0x46 {
        n - 0x37
    } else {
        n - 0x57
    }
}

pub fn hex_digit(c: char) -> (r: Option<u8>)
    ensures
        match r {
            Some(v) => is_hex(c) && v == hex_value(c) && v < 16,
            None => !is_hex(c),
        },
{
    let n: u32 = c as u32;
    if 0x30 <= n && n <= 0x39 {
        Some((n - 0x30) as u8)
    } else if 0x41 <= n && n <= 0x46 {
        Some((n - 0x37) as u8)
    } else if 0x61 <= n && n <= 0x66 {
        Some((n - 0x57) as u8)
    } else {
        None
    }
}

/// Text without a leading `0x` or `0X`.
pub open spec fn without_0x(s: Seq<char>) -> Seq<char> {
    if s.len() >= 2 && s[0] == '0' && (s[1] == 'x' || s[1] == 'X') {
        s.skip(2)
    } else {
        s
    }
}

/// Whether text is 32 hexadecimal digits.
pub open spec fn is_hex16(s: Seq<char>) -> bool {
    s.len() == 32 && forall|i: int| 0 <= i < 32 ==> is_hex(#[trigger] s[i])
}

/// The 16 bytes that 32 hexadecimal digits spell.
pub open spec fn hex16_bytes(s: Seq<char>) -> Seq<u8> {
    Seq::new(16, |i: int| (hex_value(s[2 * i]) * 16 + hex_value(s[2 * i + 1])) as u8)
}

/// The 16 bytes that `chars[from..to]` spell in hexadecimal, with or without
/// `0x` before them.
#[verifier::loop_isolation(false)]
pub fn read_hex16(chars: &Vec<char>, from: usize, to: usize) -> (r: Option<[u8; 16]>)
    requires
        from <= to <= chars@.len(),
    ensures
        ({
            let digits = without_0x(chars@.subrange(from as int, to as int));
            match r {
                Some(v) => is_hex16(digits) && v@ == hex16_bytes(digits),
                None => !is_hex16(digits),
            }
        }),
{
    let ghost whole = chars@.subrange(from as int, to as int);
    let start: usize = if to - from >= 2 && chars[from] == '0' && (chars[from + 1] == 'x'
        || chars[from + 1] == 'X') {
        from + 2
    } else {
        from
    };
    let ghost digits = without_0x(whole);
    assert(digits =~= chars@.subrange(start as int, to as int));
    if to - start != 32 {
        return None;
    }
    let mut out: [u8; 16] = [0u8; 16];
    let mut i: usize = 0;
    while i < 16
        invariant
            i <= 16,
            start + 32 == to,
            to <= chars@.len(),
            digits == chars@.subrange(start as int, to as int),
            forall|k: int| 0 <= k < 2 * i ==> is_hex(#[trigger] digits[k]),
            forall|k: int| 0 <= k < i ==> out@[k] == #[trigger] hex16_bytes(digits)[k],
        decreases 16 - i,
    {
        let hi: u8 = match hex_digit(chars[start + 2 * i]) {
            Some(v) => v,
            None => {
                assert(!is_hex(digits[2 * i]));
                return None;
            },
        };
        let lo: u8 = match hex_digit(chars[start + 2 * i + 1]) {
            Some(v) => v,
            None => {
                assert(!is_hex(digits[2 * i + 1]));
                return None;
            },
        };
        assert(digits[2 * i] == chars@[start + 2 * i]);
        assert(digits[2 * i + 1] == chars@[start + 2 * i + 1]);
        out[i] = hi * 16 + lo;
        i += 1;
    }
    assert(out@ =~= hex16_bytes(digits));
    Some(out)
}

/// The 16 bytes that a text spells in hexadecimal, with or without `0x`
/// before them.
pub fn parse_hex16(s: &str) -> (r: Option<[u8; 16]>)
    ensures
        match r {
            Some(v) => is_hex16(without_0x(s@)) && v@ == hex16_bytes(without_0x(s@)),
            None => !is_hex16(without_0x(s@)),
        },
{
    let chars = chars_of(s);
    assert(chars@.subrange(0, chars@.len() as int) =~= chars@);
    read_hex16(&chars, 0, chars.len())
}

// ---------------------------------------------------------------------
// Comparing
// ---------------------------------------------------------------------

/// A character with ASCII letters made upper case.
pub open spec fn upper(c: char) -> char {
    if 0x61 <= c as u32 <= 0x7A {
        (c as u32 - 0x20) as char
    } else {
        c
    }
}

pub fn ascii_upper(c: char) -> (r: char)
    ensures
        r == upper(c),
{
    let n: u32 = c as u32;
    if 0x61 <= n && n <= 0x7A {
        (n - 0x20) as u8 as char
    } else {
        c
    }
}

// ---------------------------------------------------------------------
// Laws
// ---------------------------------------------------------------------

/// The digits of bytes in hexadecimal.
proof fn lemma_hex_bytes_digits(s: Seq<u8>, i: int)
    requires
        0 <= i < s.len(),
    ensures
        hex_bytes(s).len() == 2 * s.len(),
        hex_bytes(s)[2 * i] == hex_char((s[i] / 16) as int),
        hex_bytes(s)[2 * i + 1] == hex_char((s[i] % 16) as int),
    decreases s.len(),
{
    let t = s.drop_last();
    reveal_with_fuel(hex_bytes, 2);
    if i < t.len() {
        lemma_hex_bytes_digits(t, i);
    } else if t.len() > 0 {
        lemma_hex_bytes_digits(t, 0);
    }
}

/// Bytes that are written in hexadecimal are read back.
pub proof fn lemma_hex16_round_trip(b: Seq<u8>)
    requires
        b.len() == 16,
    ensures
        is_hex16(hex_bytes(b)),
        without_0x(hex_bytes(b)) == hex_bytes(b),
        hex16_bytes(hex_bytes(b)) == b,
{
    let s = hex_bytes(b);
    lemma_hex_bytes_digits(b, 0);
    assert forall|i: int| 0 <= i < 32 implies is_hex(#[trigger] s[i]) by {
        lemma_hex_bytes_digits(b, i / 2);
    }
    assert forall|i: int| 0 <= i < 16 implies #[trigger] hex16_bytes(s)[i] == b[i] by {
        lemma_hex_bytes_digits(b, i);
    }
    assert(hex16_bytes(s) =~= b);
    assert(is_hex(s[1]));
}

} // verus!
