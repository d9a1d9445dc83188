//! What digits, white space and dates stand for.
use vstd::prelude::*;
use vstd::string::*;

use crate::date::{
    days_before_month, days_before_year, days_in_month, days_to, rfc3339_text, seconds_to,
    valid_civil, Civil, LAST_DAY,
};
use crate::scan::{
    hex16_bytes, hex_value, is_hex, is_hex16, is_space, trim, trim_end, trim_start, upper,
    without_0x,
};
use crate::text::{dec_char, dec_text, hex2, hex_char, hex_char_lower, hex_text, padded};

verus! {

// ---------------------------------------------------------------------
// Numbers
// ---------------------------------------------------------------------

/// What a character stands for as a digit: `0` to `9`, then `a` to `f` or `A`
/// to `F`.
pub open spec fn digit(c: char) -> int {
    if '0' <= c <= '9' {
        c as int - '0' as int
    } else if 'a' <= c <= 'f' {
        c as int - 'a' as int + 10
    } else {
        c as int - 'A' as int + 10
    }
}

/// The number that digits spell, the last counting least.
pub open spec fn spelled(s: Seq<char>, base: int) -> int
    decreases s.len(),
{
    if s.len() == 0 {
        0
    } else {
        spelled(s.drop_last(), base) * base + digit(s.last())
    }
}

/// A number in decimal spells that number, in digits alone and with no more of
/// them than it takes.
pub proof fn lemma_decimal(n: nat)
    ensures
        spelled(dec_text(n), 10) == n,
        dec_text(n).len() > 0,
        forall|i: int| 0 <= i < dec_text(n).len() ==> '0' <= #[trigger] dec_text(n)[i] <= '9',
        dec_text(n).len() > 1 ==> dec_text(n)[0] != '0',
    decreases n,
{
    reveal_with_fuel(spelled, 2);
    if n < 10 {
        assert(dec_text(n).drop_last() =~= Seq::<char>::empty());
    } else {
        lemma_decimal(n / 10);
        let front = dec_text(n / 10);
        let last = dec_char((n % 10) as int);
        assert(front.push(last).drop_last() =~= front);
        assert(front.push(last).last() == last);
        if n / 10 < 10 {
            assert(front[0] == dec_char((n / 10) as int));
        } else {
            lemma_many_digits(n / 10);
        }
    }
}

proof fn lemma_many_digits(n: nat)
    requires
        n >= 10,
    ensures
        dec_text(n).len() > 1,
    decreases n,
{
    reveal_with_fuel(dec_text, 2);
    if n / 10 >= 10 {
        lemma_many_digits(n / 10);
    }
}

/// A number in hexadecimal spells that number, in lower case.
pub proof fn lemma_hexadecimal(n: nat)
    ensures
        spelled(hex_text(n), 16) == n,
        hex_text(n).len() > 0,
        forall|i: int|
            0 <= i < hex_text(n).len() ==> '0' <= #[trigger] hex_text(n)[i] <= '9' || 'a'
                <= hex_text(n)[i] <= 'f',
    decreases n,
{
    reveal_with_fuel(spelled, 2);
    if n < 16 {
        assert(hex_text(n).drop_last() =~= Seq::<char>::empty());
    } else {
        lemma_hexadecimal(n / 16);
        let front = hex_text(n / 16);
        let last = hex_char_lower((n % 16) as int);
        assert(front.push(last).drop_last() =~= front);
        assert(front.push(last).last() == last);
    }
}

/// A byte in hexadecimal is two digits in upper case that spell it.
pub proof fn lemma_byte_digits(b: u8)
    ensures
        hex2(b).len() == 2,
        digit(hex2(b)[0]) * 16 + digit(hex2(b)[1]) == b,
        forall|i: int|
            0 <= i < 2 ==> '0' <= #[trigger] hex2(b)[i] <= '9' || 'A' <= hex2(b)[i] <= 'F',
{
    assert forall|i: int| 0 <= i < 2 implies '0' <= #[trigger] hex2(b)[i] <= '9' || 'A' <= hex2(
        b,
    )[i] <= 'F' by {
        if i == 0 {
            assert(hex2(b)[0] == hex_char((b / 16) as int));
        } else {
            assert(hex2(b)[1] == hex_char((b % 16) as int));
        }
    }
}

/// Text that is filled up ends in the text, has the filling before it, and no
/// more of it than the width takes.
pub proof fn lemma_filled(text: Seq<char>, width: nat, fill: char)
    ensures
        ({
            let p = padded(text, width, fill);
            &&& p.len() == if text.len() >= width {
                text.len()
            } else {
                width
            }
            &&& p.skip(p.len() - text.len()) == text
            &&& forall|i: int| 0 <= i < p.len() - text.len() ==> #[trigger] p[i] == fill
        }),
{
    let p = padded(text, width, fill);
    assert(p.skip(p.len() - text.len()) =~= text);
}

proof fn lemma_digit_value(c: char)
    ensures
        is_hex(c) <==> '0' <= c <= '9' || 'a' <= c <= 'f' || 'A' <= c <= 'F',
        is_hex(c) ==> hex_value(c) == digit(c) && 0 <= digit(c) < 16,
{
}

/// What is read as hexadecimal: digits in either case, each with its value; 32
/// of them spell 16 bytes, two digits a byte.
pub proof fn lemma_hex_read(s: Seq<char>, c: char, i: int)
    requires
        is_hex16(s),
        0 <= i < 16,
    ensures
        is_hex(c) <==> '0' <= c <= '9' || 'a' <= c <= 'f' || 'A' <= c <= 'F',
        is_hex(c) ==> hex_value(c) == digit(c) && 0 <= digit(c) < 16,
        s.len() == 32,
        hex16_bytes(s).len() == 16,
        hex16_bytes(s)[i] == digit(s[2 * i]) * 16 + digit(s[2 * i + 1]),
{
    lemma_digit_value(c);
    lemma_digit_value(s[2 * i]);
    lemma_digit_value(s[2 * i + 1]);
    assert(is_hex(s[2 * i]) && is_hex(s[2 * i + 1]));
}

/// A leading `0x` is dropped, once, and nothing else is.
pub proof fn lemma_prefix_dropped(s: Seq<char>)
    ensures
        without_0x(seq!['0', 'x'] + s) == s,
        without_0x(seq!['0', 'X'] + s) == s,
        s.len() < 2 || s[0] != '0' || (s[1] != 'x' && s[1] != 'X') ==> without_0x(s) == s,
{
    assert((seq!['0', 'x'] + s).skip(2) =~= s);
    assert((seq!['0', 'X'] + s).skip(2) =~= s);
}

/// ASCII letters lose their case, and nothing else changes.
pub proof fn lemma_upper(c: char)
    ensures
        'a' <= c <= 'z' ==> 'A' <= upper(c) <= 'Z' && upper(c) as int - 'A' as int == c as int
            - 'a' as int,
        !('a' <= c <= 'z') ==> upper(c) == c,
{
}

// ---------------------------------------------------------------------
// White space
// ---------------------------------------------------------------------

/// Whether text is white space.
pub open spec fn blank(s: Seq<char>) -> bool {
    forall|i: int| 0 <= i < s.len() ==> is_space(#[trigger] s[i])
}

/// White space at the start of text is dropped, and nothing else is.
pub proof fn lemma_trim_start(s: Seq<char>, a: Seq<char>, t: Seq<char>)
    requires
        s == a + t,
        blank(a),
        t.len() == 0 || !is_space(t[0]),
    ensures
        trim_start(s) == t,
    decreases a.len(),
{
    if a.len() == 0 {
        assert(s =~= t);
    } else {
        assert(s[0] == a[0]);
        assert(s.skip(1) =~= a.skip(1) + t);
        assert forall|i: int| 0 <= i < a.skip(1).len() implies is_space(
            #[trigger] a.skip(1)[i],
        ) by {
            assert(a.skip(1)[i] == a[i + 1]);
        }
        lemma_trim_start(s.skip(1), a.skip(1), t);
    }
}

proof fn lemma_trim_end(s: Seq<char>, t: Seq<char>, b: Seq<char>)
    requires
        s == t + b,
        blank(b),
        t.len() == 0 || !is_space(t.last()),
    ensures
        trim_end(s) == t,
    decreases b.len(),
{
    if b.len() == 0 {
        assert(s =~= t);
    } else {
        assert(s.last() == b.last());
        assert(s.drop_last() =~= t + b.drop_last());
        lemma_trim_end(s.drop_last(), t, b.drop_last());
    }
}

/// White space around text is dropped, and the text is left as it is.
pub proof fn lemma_trimmed(a: Seq<char>, t: Seq<char>, b: Seq<char>)
    requires
        blank(a),
        blank(b),
        t.len() > 0,
        !is_space(t[0]),
        !is_space(t.last()),
    ensures
        trim(a + t + b) == t,
        trim_start(a + t + b) == t + b,
{
    assert(a + t + b =~= a + (t + b));
    assert((t + b)[0] == t[0]);
    lemma_trim_start(a + t + b, a, t + b);
    lemma_trim_end(t + b, t, b);
}

/// The white space of ASCII: tab, line feed, vertical tab, form feed, carriage
/// return and space. Beyond ASCII, what is as wide as a dash, a thin or a wide
/// space is white, and so are the separators of lines and paragraphs.
pub proof fn lemma_white_space(c: char)
    ensures
        (c as int) < 0x80 ==> (is_space(c) <==> c == '\t' || c == '\n' || c == '\r' || c == ' '
            || c as int == 0x0B || c as int == 0x0C),
        0x80 <= c as int ==> (is_space(c) <==> c as int == 0x85 || c as int == 0xA0 || c as int
            == 0x1680 || 0x2000 <= c as int && (c as int) < 0x200B || c as int == 0x2028 || c as int
            == 0x2029 || c as int == 0x202F || c as int == 0x205F || c as int == 0x3000),
{
}

// ---------------------------------------------------------------------
// Dates
// ---------------------------------------------------------------------

/// The lengths of months and years: every fourth year has a 29th of February,
/// but of the full centuries only every fourth.
pub proof fn lemma_calendar(y: int)
    ensures
        forall|m: int|
            m == 1 || m == 3 || m == 5 || m == 7 || m == 8 || m == 10 || m == 12
                ==> #[trigger] days_in_month(y, m) == 31,
        forall|m: int|
            m == 4 || m == 6 || m == 9 || m == 11 ==> #[trigger] days_in_month(y, m) == 30,
        y % 4 != 0 ==> days_in_month(y, 2) == 28,
        y % 4 == 0 && y % 100 != 0 ==> days_in_month(y, 2) == 29,
        y % 100 == 0 && y % 400 != 0 ==> days_in_month(y, 2) == 28,
        y % 400 == 0 ==> days_in_month(y, 2) == 29,
{
}

/// The days are counted one by one from the first of January 1970: through the
/// month, on to the next month, and on to the next year.
pub proof fn lemma_days_counted(y: int, m: int, d: int)
    requires
        1 <= m <= 12,
    ensures
        days_to(1970, 1, 1) == 0,
        days_to(y, m, d + 1) == days_to(y, m, d) + 1,
        m < 12 ==> days_to(y, m + 1, 1) == days_to(y, m, days_in_month(y, m)) + 1,
        days_to(y + 1, 1, 1) == days_to(y, 12, 31) + 1,
{
    lemma_year_end(y);
}

#[verifier::spinoff_prover]
proof fn lemma_days_of_year(y: int)
    ensures
        days_before_month(y, 12) == 306 + days_in_month(y, 2),
{
    reveal_with_fuel(days_before_month, 13);
}

#[verifier::spinoff_prover]
proof fn lemma_year_end(y: int)
    ensures
        days_to(y + 1, 1, 1) == days_to(y, 12, 31) + 1,
{
    lemma_days_of_year(y);
    let a = y - 1;
    let leap = days_in_month(y, 2) - 28;
    assert(days_before_year(y + 1) == 365 * (a + 1) + (a + 1) / 4 - (a + 1) / 100 + (a + 1) / 400);
    assert(days_before_year(y) == 365 * a + a / 4 - a / 100 + a / 400);
    assert((a + 1) / 4 - a / 4 == if y % 4 == 0 {
        1int
    } else {
        0
    });
    assert((a + 1) / 100 - a / 100 == if y % 100 == 0 {
        1int
    } else {
        0
    });
    assert((a + 1) / 400 - a / 400 == if y % 400 == 0 {
        1int
    } else {
        0
    });
    assert(days_before_year(y + 1) == days_before_year(y) + 365 + leap);
}

/// A day has 24 hours, an hour 60 minutes, a minute 60 seconds; the seconds are
/// counted from the start of the first day.
pub proof fn lemma_seconds_counted(c: Civil)
    requires
        valid_civil(c),
    ensures
        ({
            let midnight = days_to(c.year as int, c.month as int, c.day as int) * 24 * 60 * 60;
            &&& 0 <= seconds_to(c) - midnight < 24 * 60 * 60
            &&& (seconds_to(c) - midnight) / 3600 == c.hour
            &&& ((seconds_to(c) - midnight) / 60) % 60 == c.minute
            &&& (seconds_to(c) - midnight) % 60 == c.second
            &&& c.day <= days_in_month(c.year as int, c.month as int)
        }),
{
    let x = c.hour * 3600 + c.minute * 60 + c.second;
    let days = days_to(c.year as int, c.month as int, c.day as int);
    assert(days * 24 * 60 * 60 == days * 86_400) by (nonlinear_arith);
}

proof fn lemma_two_digits(n: nat)
    requires
        n < 100,
    ensures
        padded(dec_text(n), 2, '0').len() == 2,
        spelled(padded(dec_text(n), 2, '0'), 10) == n,
{
    reveal_with_fuel(dec_text, 3);
    reveal_with_fuel(spelled, 4);
    let p = padded(dec_text(n), 2, '0');
    if n < 10 {
        assert(p =~= seq!['0', dec_char(n as int)]);
    } else {
        assert(p =~= seq![dec_char((n / 10) as int), dec_char((n % 10) as int)]);
    }
    let q = p.drop_last();
    assert(q.drop_last() =~= Seq::<char>::empty());
}

proof fn lemma_four_digits(n: nat)
    requires
        1000 <= n < 10_000,
    ensures
        padded(dec_text(n), 4, '0').len() == 4,
        spelled(padded(dec_text(n), 4, '0'), 10) == n,
{
    reveal_with_fuel(dec_text, 5);
    lemma_decimal(n);
}

/// A moment in text: year, month and day with dashes between, then `T`, then
/// hour, minute and second with colons between, then `Z`.
pub proof fn lemma_moment_text(c: Civil)
    requires
        valid_civil(c),
        1000 <= c.year < 10_000,
    ensures
        ({
            let t = rfc3339_text(c);
            &&& t.len() == 20
            &&& spelled(t.subrange(0, 4), 10) == c.year
            &&& t[4] == '-'
            &&& spelled(t.subrange(5, 7), 10) == c.month
            &&& t[7] == '-'
            &&& spelled(t.subrange(8, 10), 10) == c.day
            &&& t[10] == 'T'
            &&& spelled(t.subrange(11, 13), 10) == c.hour
            &&& t[13] == ':'
            &&& spelled(t.subrange(14, 16), 10) == c.minute
            &&& t[16] == ':'
            &&& spelled(t.subrange(17, 19), 10) == c.second
            &&& t[19] == 'Z'
        }),
{
    reveal_strlit("-");
    reveal_strlit("T");
    reveal_strlit(":");
    reveal_strlit("Z");
    let t = rfc3339_text(c);
    lemma_four_digits(c.year as nat);
    lemma_two_digits(c.month as nat);
    lemma_two_digits(c.day as nat);
    lemma_two_digits(c.hour as nat);
    lemma_two_digits(c.minute as nat);
    lemma_two_digits(c.second as nat);
    assert(t.subrange(0, 4) =~= padded(dec_text(c.year as nat), 4, '0'));
    assert(t.subrange(5, 7) =~= padded(dec_text(c.month as nat), 2, '0'));
    assert(t.subrange(8, 10) =~= padded(dec_text(c.day as nat), 2, '0'));
    assert(t.subrange(11, 13) =~= padded(dec_text(c.hour as nat), 2, '0'));
    assert(t.subrange(14, 16) =~= padded(dec_text(c.minute as nat), 2, '0'));
    assert(t.subrange(17, 19) =~= padded(dec_text(c.second as nat), 2, '0'));
}

/// The last day with a date is the last one whose year fits in 32 bits.
pub proof fn lemma_last_day()
    ensures
        days_to(0x7FFF_FFFF, 12, 31) == LAST_DAY,
{
    lemma_days_of_year(0x7FFF_FFFF);
}

} // verus!
