//! Text: numbers written in digits, and the characters of hexadecimal.
use vstd::prelude::*;
use vstd::string::*;

verus! {

/// `String::push` of std appends one character.
pub assume_specification[ String::push ](s: &mut String, c: char)
    ensures
        final(s)@ == old(s)@.push(c),
;

/// The decimal digit for `d`.
pub open spec fn dec_char(d: int) -> char {
    (0x30 + d) as char
}

/// The hexadecimal digit for `d`, in upper case.
pub open spec fn hex_char(d: int) -> char {
    if d < 10 {
        (0x30 + d) as char
    } else {
        (0x37 + d) as char
    }
}

/// The hexadecimal digit for `d`, in lower case.
pub open spec fn hex_char_lower(d: int) -> char {
    if d < 10 {
        (0x30 + d) as char
    } else {
        (0x57 + d) as char
    }
}

/// `n` in decimal, without leading zeros.
pub open spec fn dec_text(n: nat) -> Seq<char>
    decreases n,
{
    if n < 10 {
        seq![dec_char(n as int)]
    } else {
        dec_text(n / 10).push(dec_char((n % 10) as int))
    }
}

/// `n` in hexadecimal, lower case, without leading zeros.
pub open spec fn hex_text(n: nat) -> Seq<char>
    decreases n,
{
    if n < 16 {
        seq![hex_char_lower(n as int)]
    } else {
        hex_text(n / 16).push(hex_char_lower((n % 16) as int))
    }
}

/// `text`, filled up on the left with `fill` to at least `width` characters.
pub open spec fn padded(text: Seq<char>, width: nat, fill: char) -> Seq<char> {
    if text.len() >= width {
        text
    } else {
        Seq::new((width - text.len()) as nat, |i: int| fill) + text
    }
}

/// The two hexadecimal digits of a byte, in upper case.
pub open spec fn hex2(b: u8) -> Seq<char> {
    seq![hex_char((b / 16) as int), hex_char((b % 16) as int)]
}

/// The bytes of `s` in hexadecimal, two upper-case digits each.
pub open spec fn hex_bytes(s: Seq<u8>) -> Seq<char>
    decreases s.len(),
{
    if s.len() == 0 {
        Seq::empty()
    } else {
        hex_bytes(s.drop_last()) + hex2(s.last())
    }
}

/// Numbers in decimal with commas in between.
pub open spec fn comma_list(s: Seq<u8>) -> Seq<char>
    decreases s.len(),
{
    if s.len() == 0 {
        Seq::empty()
    } else if s.len() == 1 {
        dec_text(s[0] as nat)
    } else {
        comma_list(s.drop_last()) + ", "@ + dec_text(s.last() as nat)
    }
}

/// Append `n` in decimal.
pub fn push_dec(out: &mut String, n: u128)
    ensures
        final(out)@ == old(out)@ + dec_text(n as nat),
    decreases n,
{
    if n >= 10 {
        push_dec(out, n / 10);
    }
    let d: u8 = (n % 10) as u8;
    let c: char = (0x30 + d) as char;
    out.push(c);
    assert(out@ =~= old(out)@ + dec_text(n as nat));
}

/// Append `n` in lower-case hexadecimal.
pub fn push_hex(out: &mut String, n: u64)
    ensures
        final(out)@ == old(out)@ + hex_text(n as nat),
    decreases n,
{
    if n >= 16 {
        push_hex(out, n / 16);
    }
    let d: u8 = (n % 16) as u8;
    let c: char = if d < 10 {
        (0x30 + d) as char
    } else {
        (0x57 + d) as char
    };
    out.push(c);
    assert(out@ =~= old(out)@ + hex_text(n as nat));
}

/// Append `text` after filling up with `fill` to at least `width` characters.
pub fn push_padded(out: &mut String, text: &String, width: usize, fill: char)
    ensures
        final(out)@ == old(out)@ + padded(text@, width as nat, fill),
{
    let len: usize = text.as_str().unicode_len();
    let mut i: usize = len;
    while i < width
        invariant
            len == text@.len(),
            len <= i,
            i <= width || i == len,
            out@ == old(out)@ + Seq::new((i - len) as nat, |k: int| fill),
        decreases width - i,
    {
        out.push(fill);
        i += 1;
        assert(out@ =~= old(out)@ + Seq::new((i - len) as nat, |k: int| fill));
    }
    out.append(text.as_str());
    assert(out@ =~= old(out)@ + padded(text@, width as nat, fill));
}

/// Append `n` in decimal, filled up with `fill` to at least `width`.
pub fn push_dec_padded(out: &mut String, n: u64, width: usize, fill: char)
    ensures
        final(out)@ == old(out)@ + padded(dec_text(n as nat), width as nat, fill),
{
    let mut t = String::new();
    push_dec(&mut t, n as u128);
    assert(t@ =~= dec_text(n as nat));
    push_padded(out, &t, width, fill);
}

/// Append the two upper-case hexadecimal digits of `b`.
pub fn push_hex2(out: &mut String, b: u8)
    ensures
        final(out)@ == old(out)@ + hex2(b),
{
    let hi: u8 = b / 16;
    let lo: u8 = b % 16;
    let c1: char = if hi < 10 {
        (0x30 + hi) as char
    } else {
        (0x37 + hi) as char
    };
    let c2: char = if lo < 10 {
        (0x30 + lo) as char
    } else {
        (0x37 + lo) as char
    };
    out.push(c1);
    out.push(c2);
    assert(out@ =~= old(out)@ + hex2(b));
}

/// Append the bytes of `s` in hexadecimal.
pub fn push_hex_bytes(out: &mut String, s: &[u8])
    ensures
        final(out)@ == old(out)@ + hex_bytes(s@),
{
    let mut i: usize = 0;
    assert(s@.take(0) =~= Seq::empty());
    while i < s.len()
        invariant
            i <= s@.len(),
            out@ == old(out)@ + hex_bytes(s@.take(i as int)),
        decreases s@.len() - i,
    {
        push_hex2(out, s[i]);
        proof {
            assert(s@.take(i + 1).drop_last() =~= s@.take(i as int));
            assert(s@.take(i + 1).last() == s@[i as int]);
        }
        i += 1;
        assert(out@ =~= old(out)@ + hex_bytes(s@.take(i as int)));
    }
    assert(s@.take(i as int) =~= s@);
}

/// Append the numbers of `s` in decimal with commas in between.
pub fn push_comma_list(out: &mut String, s: &[u8])
    ensures
        final(out)@ == old(out)@ + comma_list(s@),
{
    let mut i: usize = 0;
    assert(s@.take(0) =~= Seq::empty());
    assert(out@ =~= old(out)@ + comma_list(s@.take(0)));
    while i < s.len()
        invariant
            i <= s@.len(),
            out@ == old(out)@ + comma_list(s@.take(i as int)),
        decreases s@.len() - i,
    {
        proof {
            assert(s@.take(i + 1).drop_last() =~= s@.take(i as int));
            assert(s@.take(i + 1).last() == s@[i as int]);
        }
        if i > 0 {
            out.append(", ");
        }
        push_dec(out, s[i] as u128);
        i += 1;
        assert(out@ =~= old(out)@ + comma_list(s@.take(i as int)));
    }
    assert(s@.take(i as int) =~= s@);
}

} // verus!
