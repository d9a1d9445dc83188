//! Run-length coded bitmaps.
//!
//! A bitmap is coded line by line, from these codes:
//!
//! ```text
//!   C (not 0)                           one pixel of colour C
//!   00 00LLLLLL (L not 0)               L pixels of colour 0
//!   00 01LLLLLL LLLLLLLL                L pixels of colour 0
//!   00 10LLLLLL CCCCCCCC                L pixels of colour C
//!   00 11LLLLLL LLLLLLLL CCCCCCCC       L pixels of colour C
//!   00 00                               end of line
//! ```
//!
//! Every line has as many pixels as the bitmap is wide, and there are as many
//! lines as it is high. The last end-of-line code may be missing.
use vstd::prelude::*;

use crate::error::BlurayError;

verus! {

/// A bitmap of palette indices, row by row from the top left.
#[derive(Debug, Clone, PartialEq, Eq)]
pub struct DecodedObject {
    pub width: u16,
    pub height: u16,
    pub pixels: Vec<u8>,
}

/// A code of the coding.
pub enum RleCode {
    Run { color: u8, count: nat },
    EndOfLine,
}

/// The code at `i` and where the next one begins, or `None` where the bytes
/// end within the code.
pub open spec fn code_at(s: Seq<u8>, i: int) -> Option<(RleCode, int)> {
    if s[i] != 0 {
        Some((RleCode::Run { color: s[i], count: 1 }, i + 1))
    } else if i + 1 >= s.len() {
        None
    } else {
        let low = (s[i + 1] % 64) as nat;
        if s[i + 1] == 0 {
            Some((RleCode::EndOfLine, i + 2))
        } else if s[i + 1] < 0x40 {
            Some((RleCode::Run { color: 0, count: low }, i + 2))
        } else if i + 2 >= s.len() {
            None
        } else if s[i + 1] < 0x80 {
            Some((RleCode::Run { color: 0, count: low * 256 + s[i + 2] as nat }, i + 3))
        } else if s[i + 1] < 0xC0 {
            Some((RleCode::Run { color: s[i + 2], count: low }, i + 3))
        } else if i + 3 >= s.len() {
            None
        } else {
            Some((RleCode::Run { color: s[i + 3], count: low * 256 + s[i + 2] as nat }, i + 4))
        }
    }
}

/// A bitmap in the making: its pixels, how many of them are on the line at
/// hand, and how many lines are done.
#[verifier::ext_equal]
pub struct RleState {
    pub pixels: Seq<u8>,
    pub line_len: nat,
    pub lines: nat,
}

/// `count` pixels of a colour.
pub open spec fn run_of(color: u8, count: nat) -> Seq<u8> {
    Seq::new(count, |i: int| color)
}

/// The bitmap after one more code, or `None` where the code does not fit.
pub open spec fn after_code(st: RleState, code: RleCode, width: nat, height: nat) -> Option<
    RleState,
> {
    match code {
        RleCode::Run { color, count } => if st.line_len + count > width {
            None
        } else {
            Some(
                RleState {
                    pixels: st.pixels + run_of(color, count),
                    line_len: st.line_len + count,
                    lines: st.lines,
                },
            )
        },
        RleCode::EndOfLine => if st.line_len != width || st.lines + 1 > height {
            None
        } else {
            Some(RleState { pixels: st.pixels, line_len: 0, lines: st.lines + 1 })
        },
    }
}

/// The bitmap after the codes from `i` on.
pub open spec fn after_codes(
    s: Seq<u8>,
    i: int,
    st: RleState,
    width: nat,
    height: nat,
) -> Option<RleState>
    decreases s.len() - i,
{
    if i >= s.len() {
        Some(st)
    } else {
        match code_at(s, i) {
            None => None,
            Some((code, j)) => match after_code(st, code, width, height) {
                None => None,
                Some(next) => after_codes(s, j, next, width, height),
            },
        }
    }
}

/// The pixels of a complete bitmap. A full last line counts without its
/// end-of-line code.
pub open spec fn completed(st: RleState, width: nat, height: nat) -> Option<Seq<u8>> {
    let full = width != 0 && st.line_len == width;
    let lines = if full {
        st.lines + 1
    } else {
        st.lines
    };
    if (full || st.line_len == 0) && lines == height {
        Some(st.pixels)
    } else {
        None
    }
}

/// Nothing decoded yet.
pub open spec fn blank() -> RleState {
    RleState { pixels: Seq::empty(), line_len: 0, lines: 0 }
}

/// The pixels that coded bytes spell, or `None` where they spell no bitmap of
/// this size.
pub open spec fn decoded_pixels(s: Seq<u8>, width: nat, height: nat) -> Option<Seq<u8>> {
    match after_codes(s, 0, blank(), width, height) {
        None => None,
        Some(st) => completed(st, width, height),
    }
}

/// What is said of a code that the bytes end within.
pub open spec fn code_refusal(s: Seq<u8>, i: int) -> Seq<char> {
    if i + 1 >= s.len() {
        "PGS RLE truncated after escape"@
    } else if s[i + 1] < 0x80 {
        "PGS RLE truncated long run"@
    } else if s[i + 1] < 0xC0 {
        "PGS RLE truncated short colour run"@
    } else {
        "PGS RLE truncated long colour run"@
    }
}

/// What is said of a code that does not fit.
pub open spec fn fit_refusal(st: RleState, code: RleCode, width: nat) -> Seq<char> {
    match code {
        RleCode::Run { color: _, count: _ } => "PGS RLE run overruns object width"@,
        RleCode::EndOfLine => if st.line_len != width {
            "PGS RLE short scanline"@
        } else {
            "PGS RLE too many scanlines"@
        },
    }
}

/// What is said of the codes from `i` on where they spell no bitmap: what is
/// said of the first code that does not do, or of the end.
pub open spec fn codes_refusal(
    s: Seq<u8>,
    i: int,
    st: RleState,
    width: nat,
    height: nat,
) -> Seq<char>
    decreases s.len() - i,
{
    if i >= s.len() {
        if st.line_len != 0 && (st.line_len != width || width == 0) {
            "PGS RLE trailing partial scanline"@
        } else {
            "PGS RLE scanline count mismatch"@
        }
    } else {
        match code_at(s, i) {
            None => code_refusal(s, i),
            Some((code, j)) => match after_code(st, code, width, height) {
                None => fit_refusal(st, code, width),
                Some(next) => codes_refusal(s, j, next, width, height),
            },
        }
    }
}

/// What is said of bytes that spell no bitmap of this size.
pub open spec fn rle_refusal(s: Seq<u8>, width: nat, height: nat) -> Seq<char> {
    codes_refusal(s, 0, blank(), width, height)
}

/// Append a run to the line at hand, if it fits.
fn push_run(pixels: &mut Vec<u8>, line_len: usize, width: usize, color: u8, count: usize) -> (r:
    Result<usize, BlurayError>)
    requires
        line_len <= width <= 0xFFFF,
        count <= 0x3FFF,
    ensures
        match r {
            Ok(n) => n == line_len + count && n <= width && final(pixels)@ == old(pixels)@
                + run_of(color, count as nat),
            Err(e) => line_len + count > width && e.is_malformed(
                "PGS RLE run overruns object width"@,
            ),
        },
{
    if line_len + count > width {
        return Err(BlurayError::malformed("PGS RLE run overruns object width"));
    }
    let mut i: usize = 0;
    assert(pixels@ =~= old(pixels)@ + run_of(color, 0));
    while i < count
        invariant
            i <= count,
            pixels@ == old(pixels)@ + run_of(color, i as nat),
        decreases count - i,
    {
        pixels.push(color);
        i += 1;
        assert(pixels@ =~= old(pixels)@ + run_of(color, i as nat));
    }
    Ok(line_len + count)
}

/// Decode a bitmap of the given size.
#[verifier::loop_isolation(false)]
pub fn decode_rle(data: &[u8], width: u16, height: u16) -> (r: Result<DecodedObject, BlurayError>)
    ensures
        match r {
            Ok(v) => decoded_pixels(data@, width as nat, height as nat) == Some(v.pixels@)
                && v.width == width && v.height == height && v.pixels@.len() == width * height,
            Err(e) => decoded_pixels(data@, width as nat, height as nat) is None && e.is_malformed(
                rle_refusal(data@, width as nat, height as nat),
            ),
        },
{
    proof {
        lemma_decoded_size(data@, width as nat, height as nat);
    }
    let w: usize = width as usize;
    let h: usize = height as usize;
    let ghost wn = width as nat;
    let ghost hn = height as nat;
    let mut pixels: Vec<u8> = Vec::new();
    let mut i: usize = 0;
    let mut line_len: usize = 0;
    let mut lines: usize = 0;
    assert(pixels@ =~= blank().pixels);
    while i < data.len()
        invariant
            i <= data@.len(),
            line_len <= w,
            lines <= h,
            after_codes(data@, 0, blank(), wn, hn) == after_codes(
                data@,
                i as int,
                RleState { pixels: pixels@, line_len: line_len as nat, lines: lines as nat },
                wn,
                hn,
            ),
            rle_refusal(data@, wn, hn) == codes_refusal(
                data@,
                i as int,
                RleState { pixels: pixels@, line_len: line_len as nat, lines: lines as nat },
                wn,
                hn,
            ),
        decreases data@.len() - i,
    {
        let left: usize = data.len() - i;
        let b0: u8 = data[i];
        if b0 != 0 {
            line_len = push_run(&mut pixels, line_len, w, b0, 1)?;
            i += 1;
        } else if left < 2 {
            return Err(BlurayError::malformed("PGS RLE truncated after escape"));
        } else {
            let b1: u8 = data[i + 1];
            let low: usize = (b1 % 64) as usize;
            if b1 == 0 {
                if line_len != w {
                    return Err(BlurayError::malformed("PGS RLE short scanline"));
                }
                if lines + 1 > h {
                    return Err(BlurayError::malformed("PGS RLE too many scanlines"));
                }
                lines += 1;
                line_len = 0;
                i += 2;
            } else if b1 < 0x40 {
                line_len = push_run(&mut pixels, line_len, w, 0, low)?;
                i += 2;
            } else if b1 < 0x80 {
                if left < 3 {
                    return Err(BlurayError::malformed("PGS RLE truncated long run"));
                }
                let count: usize = low * 256 + data[i + 2] as usize;
                line_len = push_run(&mut pixels, line_len, w, 0, count)?;
                i += 3;
            } else if b1 < 0xC0 {
                if left < 3 {
                    return Err(BlurayError::malformed("PGS RLE truncated short colour run"));
                }
                line_len = push_run(&mut pixels, line_len, w, data[i + 2], low)?;
                i += 3;
            } else {
                if left < 4 {
                    return Err(BlurayError::malformed("PGS RLE truncated long colour run"));
                }
                let count: usize = low * 256 + data[i + 2] as usize;
                line_len = push_run(&mut pixels, line_len, w, data[i + 3], count)?;
                i += 4;
            }
        }
    }
    if line_len == w && w != 0 {
        lines += 1;
        line_len = 0;
    }
    if line_len != 0 {
        return Err(BlurayError::malformed("PGS RLE trailing partial scanline"));
    }
    if lines != h {
        return Err(BlurayError::malformed("PGS RLE scanline count mismatch"));
    }
    Ok(DecodedObject { width, height, pixels })
}

// ---------------------------------------------------------------------
// Laws
// ---------------------------------------------------------------------

/// The pixels so far are the full lines and those of the line at hand.
pub open spec fn counted(st: RleState, width: nat) -> bool {
    st.pixels.len() == st.lines * width + st.line_len && st.line_len <= width
}

proof fn lemma_code_counted(st: RleState, code: RleCode, width: nat, height: nat)
    requires
        counted(st, width),
    ensures
        after_code(st, code, width, height) matches Some(next) ==> counted(next, width),
{
    assert((st.lines + 1) * width == st.lines * width + width) by (nonlinear_arith);
}

proof fn lemma_codes_counted(s: Seq<u8>, i: int, st: RleState, width: nat, height: nat)
    requires
        counted(st, width),
    ensures
        after_codes(s, i, st, width, height) matches Some(end) ==> counted(end, width),
    decreases s.len() - i,
{
    if i < s.len() {
        if let Some((code, j)) = code_at(s, i) {
            lemma_code_counted(st, code, width, height);
            if let Some(next) = after_code(st, code, width, height) {
                lemma_codes_counted(s, j, next, width, height);
            }
        }
    }
}

/// A decoded bitmap has exactly as many pixels as its size says.
pub proof fn lemma_decoded_size(s: Seq<u8>, width: nat, height: nat)
    ensures
        decoded_pixels(s, width, height) matches Some(pixels) ==> pixels.len() == width * height,
{
    assert(counted(blank(), width)) by (nonlinear_arith)
        requires
            blank().pixels.len() == 0,
            blank().line_len == 0,
            blank().lines == 0,
    ;
    lemma_codes_counted(s, 0, blank(), width, height);
    if let Some(st) = after_codes(s, 0, blank(), width, height) {
        if completed(st, width, height) is Some {
            assert(st.pixels.len() == width * height) by (nonlinear_arith)
                requires
                    st.pixels.len() == st.lines * width + st.line_len,
                    (st.line_len == 0 && st.lines == height) || (st.line_len == width && st.lines
                        + 1 == height) || (width == 0 && st.line_len == 0 && st.lines == height),
            ;
        }
    }
}

/// The codes of a line of one colour, then an end of line.
pub open spec fn uniform_line(color: u8, width: u8) -> Seq<u8> {
    seq![0u8, (0x80 + width) as u8, color, 0u8, 0u8]
}

/// A line of one colour decodes to that many pixels of the colour, for every
/// colour and every width that the short form holds.
pub proof fn lemma_uniform_line(color: u8, width: u8)
    requires
        0 < width < 64,
    ensures
        decoded_pixels(uniform_line(color, width), width as nat, 1) == Some(
            run_of(color, width as nat),
        ),
{
    let s = uniform_line(color, width);
    let w = width as nat;
    let st = RleState { pixels: run_of(color, w), line_len: w, lines: 0 };
    assert(blank().pixels + run_of(color, w) =~= run_of(color, w));
    assert(code_at(s, 0) == Some((RleCode::Run { color, count: w }, 3int)));
    assert(after_code(blank(), RleCode::Run { color, count: w }, w, 1) == Some(st));
    assert(code_at(s, 3) == Some((RleCode::EndOfLine, 5int)));
    let end = RleState { pixels: run_of(color, w), line_len: 0, lines: 1 };
    assert(after_code(st, RleCode::EndOfLine, w, 1) == Some(end));
    assert(after_codes(s, 5, end, w, 1) == Some(end));
    assert(after_codes(s, 3, st, w, 1) == Some(end));
    assert(after_codes(s, 0, blank(), w, 1) == Some(end));
}

/// A run of pixels, in each of the forms that the coding has for it.
pub enum RleRun {
    /// One pixel of a colour other than 0.
    Pixel { color: u8 },
    /// Up to 63 pixels of colour 0.
    Clear { count: u8 },
    /// Up to 16383 pixels of colour 0.
    LongClear { count: u16 },
    /// Up to 63 pixels of one colour.
    Colored { color: u8, count: u8 },
    /// Up to 16383 pixels of one colour.
    LongColored { color: u8, count: u16 },
}

impl RleRun {
    /// Whether the form can hold the run.
    pub open spec fn fits(self) -> bool {
        match self {
            RleRun::Pixel { color } => color != 0,
            RleRun::Clear { count } => 0 < count < 64,
            RleRun::LongClear { count } => count < 0x4000,
            RleRun::Colored { color: _, count } => count < 64,
            RleRun::LongColored { color: _, count } => count < 0x4000,
        }
    }

    /// The bytes of the run.
    pub open spec fn bytes(self) -> Seq<u8> {
        match self {
            RleRun::Pixel { color } => seq![color],
            RleRun::Clear { count } => seq![0u8, count],
            RleRun::LongClear { count } => seq![
                0u8,
                (0x40 + count / 256) as u8,
                (count % 256) as u8,
            ],
            RleRun::Colored { color, count } => seq![0u8, (0x80 + count) as u8, color],
            RleRun::LongColored { color, count } => seq![
                0u8,
                (0xC0 + count / 256) as u8,
                (count % 256) as u8,
                color,
            ],
        }
    }

    /// The pixels of the run.
    pub open spec fn pixels(self) -> Seq<u8> {
        match self {
            RleRun::Pixel { color } => seq![color],
            RleRun::Clear { count } => Seq::new(count as nat, |i: int| 0u8),
            RleRun::LongClear { count } => Seq::new(count as nat, |i: int| 0u8),
            RleRun::Colored { color, count } => Seq::new(count as nat, |i: int| color),
            RleRun::LongColored { color, count } => Seq::new(count as nat, |i: int| color),
        }
    }
}

/// The bytes of a line: its runs, then two zeros.
pub open spec fn line_bytes(runs: Seq<RleRun>) -> Seq<u8>
    decreases runs.len(),
{
    if runs.len() == 0 {
        seq![0u8, 0u8]
    } else {
        runs[0].bytes() + line_bytes(runs.skip(1))
    }
}

/// The pixels of a line.
pub open spec fn line_pixels(runs: Seq<RleRun>) -> Seq<u8>
    decreases runs.len(),
{
    if runs.len() == 0 {
        Seq::empty()
    } else {
        runs[0].pixels() + line_pixels(runs.skip(1))
    }
}

/// The bytes of lines, one after the other.
pub open spec fn picture_bytes(lines: Seq<Seq<RleRun>>) -> Seq<u8>
    decreases lines.len(),
{
    if lines.len() == 0 {
        Seq::empty()
    } else {
        line_bytes(lines[0]) + picture_bytes(lines.skip(1))
    }
}

/// The pixels of lines, one after the other.
pub open spec fn picture_pixels(lines: Seq<Seq<RleRun>>) -> Seq<u8>
    decreases lines.len(),
{
    if lines.len() == 0 {
        Seq::empty()
    } else {
        line_pixels(lines[0]) + picture_pixels(lines.skip(1))
    }
}

/// Whether the forms of a line can hold its runs.
pub open spec fn line_fits(runs: Seq<RleRun>) -> bool {
    forall|i: int| 0 <= i < runs.len() ==> (#[trigger] runs[i]).fits()
}

proof fn lemma_run_code(s: Seq<u8>, i: int, run: RleRun, rest: Seq<u8>)
    requires
        0 <= i <= s.len(),
        run.fits(),
        s.skip(i) == run.bytes() + rest,
    ensures
        i < s.len(),
        i + run.bytes().len() <= s.len(),
        s.skip(i + run.bytes().len()) == rest,
        code_at(s, i) matches Some((RleCode::Run { color, count }, j)) && j == i
            + run.bytes().len() && count == run.pixels().len() && run_of(color, count)
            == run.pixels(),
{
    let t = run.bytes() + rest;
    let n = run.bytes().len() as int;
    assert(s.skip(i).len() == t.len());
    assert(s.skip(i + n) =~= rest) by {
        assert forall|k: int| 0 <= k < rest.len() implies s.skip(i + n)[k] == rest[k] by {
            assert(s.skip(i)[n + k] == t[n + k]);
        }
    }
    assert forall|k: int| 0 <= k < n implies s[i + k] == #[trigger] run.bytes()[k] by {
        assert(s.skip(i)[k] == t[k]);
    }
    assert(s[i + 0] == run.bytes()[0]);
    match run {
        RleRun::Pixel { color } => {
            assert(run_of(color, 1) =~= run.pixels());
        },
        RleRun::Clear { count } => {
            assert(s[i + 1] == run.bytes()[1]);
            assert(run_of(0, count as nat) =~= run.pixels());
        },
        RleRun::LongClear { count } => {
            assert(s[i + 1] == run.bytes()[1]);
            assert(s[i + 2] == run.bytes()[2]);
            assert(run_of(0, count as nat) =~= run.pixels());
        },
        RleRun::Colored { color, count } => {
            assert(s[i + 1] == run.bytes()[1]);
            assert(s[i + 2] == run.bytes()[2]);
            assert(run_of(color, count as nat) =~= run.pixels());
        },
        RleRun::LongColored { color, count } => {
            assert(s[i + 1] == run.bytes()[1]);
            assert(s[i + 2] == run.bytes()[2]);
            assert(s[i + 3] == run.bytes()[3]);
            assert(run_of(color, count as nat) =~= run.pixels());
        },
    }
}

proof fn lemma_line_codes(
    s: Seq<u8>,
    i: int,
    runs: Seq<RleRun>,
    rest: Seq<u8>,
    st: RleState,
    w: nat,
    h: nat,
)
    requires
        0 <= i <= s.len(),
        line_fits(runs),
        s.skip(i) == line_bytes(runs) + rest,
    ensures
        i + line_bytes(runs).len() <= s.len(),
        s.skip(i + line_bytes(runs).len()) == rest,
        st.line_len + line_pixels(runs).len() == w && st.lines < h ==> after_codes(s, i, st, w, h)
            == after_codes(
            s,
            i + line_bytes(runs).len(),
            RleState {
                pixels: st.pixels + line_pixels(runs),
                line_len: 0,
                lines: st.lines + 1,
            },
            w,
            h,
        ),
        st.line_len + line_pixels(runs).len() != w || st.lines >= h ==> after_codes(
            s,
            i,
            st,
            w,
            h,
        ) is None,
    decreases runs.len(),
{
    let t = line_bytes(runs) + rest;
    assert(s.skip(i).len() == t.len());
    if runs.len() == 0 {
        assert(s.skip(i)[0] == t[0] && s.skip(i)[1] == t[1]);
        assert(s[i] == 0 && s[i + 1] == 0);
        assert(s.skip(i + 2) =~= rest) by {
            assert forall|k: int| 0 <= k < rest.len() implies s.skip(i + 2)[k] == rest[k] by {
                assert(s.skip(i)[2 + k] == t[2 + k]);
            }
        }
        assert(code_at(s, i) == Some((RleCode::EndOfLine, i + 2)));
        assert(st.pixels + line_pixels(runs) =~= st.pixels);
    } else {
        let tail = runs.skip(1);
        let run = runs[0];
        assert(line_bytes(runs) + rest =~= run.bytes() + (line_bytes(tail) + rest));
        lemma_run_code(s, i, run, line_bytes(tail) + rest);
        assert forall|k: int| 0 <= k < tail.len() implies (#[trigger] tail[k]).fits() by {
            assert(tail[k] == runs[k + 1]);
        }
        let n = run.pixels().len();
        let next = RleState {
            pixels: st.pixels + run.pixels(),
            line_len: st.line_len + n,
            lines: st.lines,
        };
        lemma_line_codes(s, i + run.bytes().len(), tail, rest, next, w, h);
        assert(next.pixels + line_pixels(tail) =~= st.pixels + line_pixels(runs));
    }
}

proof fn lemma_picture_codes(
    s: Seq<u8>,
    i: int,
    lines: Seq<Seq<RleRun>>,
    st: RleState,
    w: nat,
    h: nat,
)
    requires
        0 <= i <= s.len(),
        st.line_len == 0,
        forall|k: int| 0 <= k < lines.len() ==> line_fits(#[trigger] lines[k]),
        s.skip(i) == picture_bytes(lines),
    ensures
        (forall|k: int| 0 <= k < lines.len() ==> line_pixels(#[trigger] lines[k]).len() == w)
            && st.lines + lines.len() <= h ==> after_codes(s, i, st, w, h) == Some(
            RleState {
                pixels: st.pixels + picture_pixels(lines),
                line_len: 0,
                lines: st.lines + lines.len(),
            },
        ),
        !(forall|k: int| 0 <= k < lines.len() ==> line_pixels(#[trigger] lines[k]).len() == w)
            ==> after_codes(s, i, st, w, h) is None,
        st.lines + lines.len() > h ==> lines.len() == 0 || after_codes(s, i, st, w, h) is None,
    decreases lines.len(),
{
    assert(s.skip(i).len() == picture_bytes(lines).len());
    if lines.len() == 0 {
        assert(st.pixels + picture_pixels(lines) =~= st.pixels);
        assert(after_codes(s, i, st, w, h) == Some(st));
    } else {
        let tail = lines.skip(1);
        let first = lines[0];
        lemma_line_codes(s, i, first, picture_bytes(tail), st, w, h);
        assert forall|k: int| 0 <= k < tail.len() implies line_fits(#[trigger] tail[k]) by {
            assert(tail[k] == lines[k + 1]);
        }
        let next = RleState {
            pixels: st.pixels + line_pixels(first),
            line_len: 0,
            lines: st.lines + 1,
        };
        lemma_picture_codes(s, i + line_bytes(first).len(), tail, next, w, h);
        assert(next.pixels + picture_pixels(tail) =~= st.pixels + picture_pixels(lines));
        let all = forall|k: int| 0 <= k < lines.len() ==> line_pixels(#[trigger] lines[k]).len() == w;
        if all {
            assert forall|k: int| 0 <= k < tail.len() implies line_pixels(
                #[trigger] tail[k],
            ).len() == w by {
                assert(tail[k] == lines[k + 1]);
            }
        } else if line_pixels(first).len() == w {
            let k = choose|k: int|
                0 <= k < lines.len() && line_pixels(#[trigger] lines[k]).len() != w;
            assert(tail[k - 1] == lines[k]);
        }
    }
}

/// A picture decodes to its pixels, in whatever forms its runs are coded, where
/// every line is as wide as the picture; else it does not decode.
pub proof fn lemma_picture_decodes(lines: Seq<Seq<RleRun>>, width: nat)
    requires
        forall|k: int| 0 <= k < lines.len() ==> line_fits(#[trigger] lines[k]),
    ensures
        decoded_pixels(picture_bytes(lines), width, lines.len()) == if forall|k: int|
            0 <= k < lines.len() ==> line_pixels(#[trigger] lines[k]).len() == width {
            Some(picture_pixels(lines))
        } else {
            None
        },
{
    let s = picture_bytes(lines);
    assert(s.skip(0) =~= s);
    lemma_picture_codes(s, 0, lines, blank(), width, lines.len());
    assert(blank().pixels + picture_pixels(lines) =~= picture_pixels(lines));
}

/// A picture of one line of one run decodes to that run.
pub proof fn lemma_run_decodes(run: RleRun)
    requires
        run.fits(),
    ensures
        decoded_pixels(run.bytes() + seq![0u8, 0u8], run.pixels().len(), 1) == Some(run.pixels()),
{
    let line = seq![run];
    let lines = seq![line];
    assert(line.skip(1) =~= Seq::empty());
    assert(lines.skip(1) =~= Seq::empty());
    assert(line_bytes(line) =~= run.bytes() + seq![0u8, 0u8]) by {
        reveal_with_fuel(line_bytes, 2);
    }
    assert(line_pixels(line) =~= run.pixels()) by {
        reveal_with_fuel(line_pixels, 2);
    }
    assert(picture_bytes(lines) =~= line_bytes(line)) by {
        reveal_with_fuel(picture_bytes, 2);
    }
    assert(picture_pixels(lines) =~= run.pixels()) by {
        reveal_with_fuel(picture_pixels, 2);
    }
    assert(line_fits(line));
    assert forall|k: int| 0 <= k < lines.len() implies line_fits(#[trigger] lines[k]) && line_pixels(
        lines[k],
    ).len() == run.pixels().len() by {
        assert(lines[k] == line);
    }
    lemma_picture_decodes(lines, run.pixels().len());
}

/// A picture has as many lines as it is high.
pub proof fn lemma_lines_counted(lines: Seq<Seq<RleRun>>, width: nat, height: nat)
    requires
        forall|k: int| 0 <= k < lines.len() ==> line_fits(#[trigger] lines[k]),
        height != lines.len(),
    ensures
        decoded_pixels(picture_bytes(lines), width, height) is None,
{
    let s = picture_bytes(lines);
    assert(s.skip(0) =~= s);
    lemma_picture_codes(s, 0, lines, blank(), width, height);
}

/// The bytes of a line that the bytes end behind: its runs alone.
pub open spec fn open_bytes(runs: Seq<RleRun>) -> Seq<u8>
    decreases runs.len(),
{
    if runs.len() == 0 {
        Seq::empty()
    } else {
        runs[0].bytes() + open_bytes(runs.skip(1))
    }
}

proof fn lemma_open_codes(s: Seq<u8>, i: int, runs: Seq<RleRun>, st: RleState, w: nat, h: nat)
    requires
        0 <= i <= s.len(),
        line_fits(runs),
        s.skip(i) == open_bytes(runs),
        st.line_len + line_pixels(runs).len() <= w,
    ensures
        after_codes(s, i, st, w, h) == Some(
            RleState {
                pixels: st.pixels + line_pixels(runs),
                line_len: st.line_len + line_pixels(runs).len(),
                lines: st.lines,
            },
        ),
    decreases runs.len(),
{
    assert(s.skip(i).len() == open_bytes(runs).len());
    if runs.len() == 0 {
        assert(st.pixels + line_pixels(runs) =~= st.pixels);
    } else {
        let tail = runs.skip(1);
        let run = runs[0];
        lemma_run_code(s, i, run, open_bytes(tail));
        assert forall|k: int| 0 <= k < tail.len() implies (#[trigger] tail[k]).fits() by {
            assert(tail[k] == runs[k + 1]);
        }
        let next = RleState {
            pixels: st.pixels + run.pixels(),
            line_len: st.line_len + run.pixels().len(),
            lines: st.lines,
        };
        lemma_open_codes(s, i + run.bytes().len(), tail, next, w, h);
        assert(next.pixels + line_pixels(tail) =~= st.pixels + line_pixels(runs));
    }
}

proof fn lemma_lines_before(
    s: Seq<u8>,
    i: int,
    lines: Seq<Seq<RleRun>>,
    rest: Seq<u8>,
    st: RleState,
    w: nat,
    h: nat,
)
    requires
        0 <= i <= s.len(),
        st.line_len == 0,
        forall|k: int| 0 <= k < lines.len() ==> line_fits(#[trigger] lines[k]),
        forall|k: int| 0 <= k < lines.len() ==> line_pixels(#[trigger] lines[k]).len() == w,
        st.lines + lines.len() <= h,
        s.skip(i) == picture_bytes(lines) + rest,
    ensures
        i + picture_bytes(lines).len() <= s.len(),
        s.skip(i + picture_bytes(lines).len()) == rest,
        after_codes(s, i, st, w, h) == after_codes(
            s,
            i + picture_bytes(lines).len(),
            RleState {
                pixels: st.pixels + picture_pixels(lines),
                line_len: 0,
                lines: st.lines + lines.len(),
            },
            w,
            h,
        ),
    decreases lines.len(),
{
    assert(s.skip(i).len() == (picture_bytes(lines) + rest).len());
    if lines.len() == 0 {
        assert(picture_bytes(lines) + rest =~= rest);
        assert(st.pixels + picture_pixels(lines) =~= st.pixels);
    } else {
        let tail = lines.skip(1);
        let first = lines[0];
        assert(picture_bytes(lines) + rest =~= line_bytes(first) + (picture_bytes(tail) + rest));
        lemma_line_codes(s, i, first, picture_bytes(tail) + rest, st, w, h);
        assert forall|k: int| 0 <= k < tail.len() implies line_fits(#[trigger] tail[k])
            && line_pixels(tail[k]).len() == w by {
            assert(tail[k] == lines[k + 1]);
        }
        let next = RleState {
            pixels: st.pixels + line_pixels(first),
            line_len: 0,
            lines: st.lines + 1,
        };
        lemma_lines_before(s, i + line_bytes(first).len(), tail, rest, next, w, h);
        assert(next.pixels + picture_pixels(tail) =~= st.pixels + picture_pixels(lines));
    }
}

/// The last line of a picture may lack its end: it counts where it is as wide
/// as the picture, and where it is not the picture does not decode.
pub proof fn lemma_last_line_open(lines: Seq<Seq<RleRun>>, last: Seq<RleRun>, width: nat)
    requires
        forall|k: int| 0 <= k < lines.len() ==> line_fits(#[trigger] lines[k]),
        forall|k: int| 0 <= k < lines.len() ==> line_pixels(#[trigger] lines[k]).len() == width,
        line_fits(last),
        0 < line_pixels(last).len() <= width,
    ensures
        decoded_pixels(picture_bytes(lines) + open_bytes(last), width, lines.len() + 1)
            == if line_pixels(last).len() == width {
            Some(picture_pixels(lines) + line_pixels(last))
        } else {
            None
        },
{
    let s = picture_bytes(lines) + open_bytes(last);
    let h = lines.len() + 1;
    assert(s.skip(0) =~= s);
    lemma_lines_before(s, 0, lines, open_bytes(last), blank(), width, h);
    let st = RleState {
        pixels: blank().pixels + picture_pixels(lines),
        line_len: 0,
        lines: lines.len(),
    };
    lemma_open_codes(s, picture_bytes(lines).len() as int, last, st, width, h);
    assert(st.pixels + line_pixels(last) =~= picture_pixels(lines) + line_pixels(last));
}

} // verus!
