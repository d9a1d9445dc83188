//! What navigation commands do, from the bytes of a command to its effect.
//!
//! The laws speak of the twelve bytes of a command as they lie on a disc, of
//! the registers before and after it, and of numbers and bits.
use vstd::prelude::*;
use vstd::string::*;

use crate::bdmv::common::{be16, be32};
use crate::bdmv::mobj_runner::DEFAULT_OBJECT_BUDGET;
use crate::bdmv::movie_object::{command_lines, NavCommand};
use crate::bdmv::nav_command::{
    command_text, decoded, operand_text, operation_text, DecodedCommand, Operand, Operation,
    RegisterBank,
};
use crate::bdmv::nav_driver::DEFAULT_TITLE_BUDGET;
use crate::bdmv::register_model::{psr_class, PsrClass};
use crate::bdmv::vm::{
    computed, one_step, run_steps, NavRequest, Step, VmState, DEFAULT_STEP_BUDGET,
};
use crate::text::{dec_text, hex_text, padded};
use crate::text_laws::{lemma_decimal, lemma_hexadecimal, spelled};

verus! {

/// The number that four bytes spell, the first counting most.
pub open spec fn word_at(b: Seq<u8>, i: int) -> u32 {
    (b[i] * 0x100_0000 + b[i + 1] * 0x1_0000 + b[i + 2] * 0x100 + b[i + 3]) as u32
}

/// Bit `i` of a number, counted from the lowest.
pub open spec fn bit_of(x: u32, i: u32) -> bool {
    (x >> i) & 1 == 1
}

/// What an operand word stands for: itself, a general purpose register, or a
/// player status register.
pub open spec fn meant(st: VmState, word: u32, immediate: bool) -> u32 {
    if immediate {
        word
    } else if word < 0x8000_0000 {
        st.gpr[word as int % 4096]
    } else if word as int % 4096 < 128 {
        st.psr[word as int % 4096]
    } else {
        0
    }
}

/// A register file of full size.
pub open spec fn full_file(st: VmState) -> bool {
    st.gpr.len() == 4096 && st.psr.len() == 128 && st.pc >= 0
}

proof fn lemma_word(b: Seq<u8>, i: int)
    ensures
        be32(b, i) == word_at(b, i),
{
    reveal(be16);
    reveal(be32);
}

proof fn lemma_some_bit(z: u32)
    requires
        z != 0,
    ensures
        exists|i: u32| i < 32 && #[trigger] bit_of(z, i),
    decreases z,
{
    if z % 2 == 1 {
        assert((z >> 0u32) & 1 == 1) by (bit_vector)
            requires
                z % 2 == 1,
        ;
        assert(bit_of(z, 0));
    } else {
        let w: u32 = z / 2;
        lemma_some_bit(w);
        let i = choose|i: u32| i < 32 && #[trigger] bit_of(w, i);
        let j: u32 = (i + 1) as u32;
        assert(i < 31 && (z >> j) & 1 == 1) by (bit_vector)
            requires
                w == z / 2,
                (w >> i) & 1 == 1,
                i < 32,
                j == i + 1,
        ;
        assert(bit_of(z, j));
    }
}

/// Two numbers have a bit in common exactly where there is a place at which
/// both have one.
pub proof fn lemma_common_bit(x: u32, y: u32)
    ensures
        x & y != 0 <==> exists|i: u32| i < 32 && #[trigger] bit_of(x, i) && bit_of(y, i),
{
    if x & y != 0 {
        let z = x & y;
        lemma_some_bit(z);
        let i = choose|i: u32| i < 32 && #[trigger] bit_of(z, i);
        assert((x >> i) & 1 == 1 && (y >> i) & 1 == 1) by (bit_vector)
            requires
                ((x & y) >> i) & 1 == 1,
                i < 32,
        ;
        assert(bit_of(x, i) && bit_of(y, i));
    }
    if exists|i: u32| i < 32 && #[trigger] bit_of(x, i) && bit_of(y, i) {
        let i = choose|i: u32| i < 32 && #[trigger] bit_of(x, i) && bit_of(y, i);
        assert(x & y != 0) by (bit_vector)
            requires
                (x >> i) & 1 == 1,
                (y >> i) & 1 == 1,
                i < 32,
        ;
    }
}

/// A comparison lets the next command run exactly where its condition holds,
/// of unsigned numbers; else that command is passed over. No register changes.
/// The condition stands in the third byte: 1 for a common bit, 2 and 3 for
/// equal and unequal, 4 and 5 for at least and more, 6 and 7 for at most and
/// less. Any other number holds always.
#[verifier::spinoff_prover]
#[verifier::rlimit(60)]
pub proof fn lemma_compare_command(st: VmState, commands: Seq<NavCommand>)
    requires
        full_file(st),
        st.pc < commands.len(),
        64 <= commands[st.pc].bytes@[0],
        (commands[st.pc].bytes@[0] / 8) % 4 == 1,
    ensures
        ({
            let b = commands[st.pc].bytes@;
            let x = meant(st, word_at(b, 4), b[1] / 128 == 1);
            let y = meant(st, word_at(b, 8), (b[1] / 64) % 2 == 1);
            let (next, step) = one_step(st, commands);
            &&& next.gpr == st.gpr
            &&& next.psr == st.psr
            &&& step is Continue || step is Skipped
            &&& step is Continue ==> next.pc == st.pc + 1
            &&& step is Skipped ==> next.pc == if st.pc + 2 <= commands.len() {
                st.pc + 2
            } else {
                commands.len() as int
            }
            &&& b[2] == 1 ==> (step is Continue <==> exists|i: u32|
                i < 32 && #[trigger] bit_of(x, i) && bit_of(y, i))
            &&& b[2] == 2 ==> (step is Continue <==> x as int == y as int)
            &&& b[2] == 3 ==> (step is Skipped <==> x as int == y as int)
            &&& b[2] == 4 ==> (step is Skipped <==> (x as int) < (y as int))
            &&& b[2] == 5 ==> (step is Continue <==> (y as int) < (x as int))
            &&& b[2] == 6 ==> (step is Skipped <==> (y as int) < (x as int))
            &&& b[2] == 7 ==> (step is Continue <==> (x as int) < (y as int))
            &&& b[2] == 0 || b[2] > 7 ==> step is Continue
        }),
{
    let b = commands[st.pc].bytes@;
    lemma_word(b, 4);
    lemma_word(b, 8);
    let x = meant(st, word_at(b, 4), b[1] / 128 == 1);
    let y = meant(st, word_at(b, 8), (b[1] / 64) % 2 == 1);
    lemma_common_bit(x, y);
}

/// Whether `r` is what a register command makes of the destination `x` and the
/// source `y`, by the number in its fourth byte: 1 to move; 3 to 5 to add, take
/// away and multiply within 32 bits; 6 and 7 for the quotient and what is left;
/// 8 for a number up to the source; 9 to 11 for the bits in both, in either,
/// and in one alone; 12 and 13 to set and to clear one bit; 14 and 15 to shift.
pub open spec fn results(k: u8, x: u32, y: u32, r: u32) -> bool {
    &&& k == 1 ==> r == y
    &&& k == 3 ==> r == x + y || r + 0x1_0000_0000 == x + y
    &&& k == 4 ==> r + y == x || r + y == x + 0x1_0000_0000
    &&& k == 5 ==> exists|n: int| x * y == r + #[trigger] (n * 0x1_0000_0000)
    &&& k == 6 && y != 0 ==> r * y <= x && x < r * y + y
    &&& k == 7 && y != 0 ==> r < y && exists|q: int| x == r + #[trigger] (q * y)
    &&& k == 8 && y != 0 ==> r == 1
    &&& (k == 6 || k == 7 || k == 8) && y == 0 ==> r == 0
    &&& forall|i: u32|
        i < 32 ==> {
            &&& k == 9 ==> (#[trigger] bit_of(r, i) <==> bit_of(x, i) && bit_of(y, i))
            &&& k == 10 ==> (bit_of(r, i) <==> bit_of(x, i) || bit_of(y, i))
            &&& k == 11 ==> (bit_of(r, i) <==> bit_of(x, i) != bit_of(y, i))
            &&& k == 12 ==> (bit_of(r, i) <==> bit_of(x, i) || i == y % 32)
            &&& k == 13 ==> (bit_of(r, i) <==> bit_of(x, i) && i != y % 32)
            &&& k == 14 ==> (bit_of(r, i) <==> y <= i && bit_of(x, (i - y) as u32))
            &&& k == 15 ==> (bit_of(r, i) <==> i + y < 32 && bit_of(x, (i + y) as u32))
        }
    &&& k == 0 || k > 15 ==> r == x
}

proof fn lemma_bits_of_results(x: u32, y: u32, i: u32)
    requires
        i < 32,
    ensures
        bit_of(x & y, i) <==> bit_of(x, i) && bit_of(y, i),
        bit_of(x | y, i) <==> bit_of(x, i) || bit_of(y, i),
        bit_of(x ^ y, i) <==> bit_of(x, i) != bit_of(y, i),
        bit_of(x | (1u32 << (y % 32)), i) <==> bit_of(x, i) || i == y % 32,
        bit_of(x & !(1u32 << (y % 32)), i) <==> bit_of(x, i) && i != y % 32,
        y < 32 ==> (bit_of(x << y, i) <==> y <= i && bit_of(x, (i - y) as u32)),
        y < 32 ==> (bit_of(x >> y, i) <==> i + y < 32 && bit_of(x, (i + y) as u32)),
        !bit_of(0, i),
{
    assert(((x & y) >> i) & 1 == 1 <==> (x >> i) & 1 == 1 && (y >> i) & 1 == 1) by (bit_vector);
    assert(((x | y) >> i) & 1 == 1 <==> (x >> i) & 1 == 1 || (y >> i) & 1 == 1) by (bit_vector);
    assert(((x ^ y) >> i) & 1 == 1 <==> ((x >> i) & 1 == 1) != ((y >> i) & 1 == 1)) by (bit_vector);
    let n: u32 = y % 32;
    assert(((x | (1u32 << n)) >> i) & 1 == 1 <==> (x >> i) & 1 == 1 || i == n) by (bit_vector)
        requires
            i < 32,
            n < 32,
    ;
    assert(((x & !(1u32 << n)) >> i) & 1 == 1 <==> (x >> i) & 1 == 1 && i != n) by (bit_vector)
        requires
            i < 32,
            n < 32,
    ;
    if y < 32 {
        if y <= i {
            let j: u32 = (i - y) as u32;
            assert(((x << y) >> i) & 1 == (x >> j) & 1) by (bit_vector)
                requires
                    i < 32,
                    y <= i,
                    j + y == i,
            ;
        } else {
            assert(((x << y) >> i) & 1 == 0) by (bit_vector)
                requires
                    i < y,
                    y < 32,
            ;
        }
        if i + y < 32 {
            let j: u32 = (i + y) as u32;
            assert(((x >> y) >> i) & 1 == (x >> j) & 1) by (bit_vector)
                requires
                    i < 32,
                    y < 32,
                    j < 32,
                    i + y == j,
            ;
        } else {
            assert(((x >> y) >> i) & 1 == 0) by (bit_vector)
                requires
                    i < 32,
                    y < 32,
                    i + y >= 32,
            ;
        }
    }
    assert((0u32 >> i) & 1 == 0) by (bit_vector);
}

/// Register operations by the number that names them.
pub open spec fn set_operation_named(k: u8) -> Operation {
    if k == 1 {
        Operation::Move
    } else if k == 3 {
        Operation::Add
    } else if k == 4 {
        Operation::Sub
    } else if k == 5 {
        Operation::Mul
    } else if k == 6 {
        Operation::Div
    } else if k == 7 {
        Operation::Mod
    } else if k == 8 {
        Operation::Rnd
    } else if k == 9 {
        Operation::And
    } else if k == 10 {
        Operation::Or
    } else if k == 11 {
        Operation::Xor
    } else if k == 12 {
        Operation::BitSet
    } else if k == 13 {
        Operation::BitClear
    } else if k == 14 {
        Operation::ShiftLeft
    } else {
        Operation::ShiftRight
    }
}

proof fn lemma_computed(k: u8, x: u32, y: u32)
    requires
        1 <= k <= 15,
        k != 2,
    ensures
        computed(set_operation_named(k), x, y) matches Some(r) && results(k, x, y, r),
{
    let r = computed(set_operation_named(k), x, y)->0;
    if k == 5 {
        let n = (x * y) / 0x1_0000_0000;
        assert(x * y >= 0) by (nonlinear_arith);
        assert(x * y == r + n * 0x1_0000_0000);
    }
    if k == 6 && y != 0 {
        assert(r * y <= x && x < r * y + y) by (nonlinear_arith)
            requires
                r == x / y,
                y > 0,
        ;
    }
    if k == 7 && y != 0 {
        let q = (x / y) as int;
        assert(x == r + q * y) by (nonlinear_arith)
            requires
                r == x % y,
                q == x / y,
                y > 0,
        ;
    }
    assert forall|i: u32| i < 32 implies {
        &&& k == 9 ==> (#[trigger] bit_of(r, i) <==> bit_of(x, i) && bit_of(y, i))
        &&& k == 10 ==> (bit_of(r, i) <==> bit_of(x, i) || bit_of(y, i))
        &&& k == 11 ==> (bit_of(r, i) <==> bit_of(x, i) != bit_of(y, i))
        &&& k == 12 ==> (bit_of(r, i) <==> bit_of(x, i) || i == y % 32)
        &&& k == 13 ==> (bit_of(r, i) <==> bit_of(x, i) && i != y % 32)
        &&& k == 14 ==> (bit_of(r, i) <==> y <= i && bit_of(x, (i - y) as u32))
        &&& k == 15 ==> (bit_of(r, i) <==> i + y < 32 && bit_of(x, (i + y) as u32))
    } by {
        lemma_bits_of_results(x, y, i);
    }
}

/// A register command with a general purpose register as its destination puts
/// into it what its fourth byte calls for, and changes nothing else.
#[verifier::spinoff_prover]
#[verifier::rlimit(60)]
pub proof fn lemma_register_command(st: VmState, commands: Seq<NavCommand>)
    requires
        full_file(st),
        st.pc < commands.len(),
        64 <= commands[st.pc].bytes@[0],
        commands[st.pc].bytes@[0] % 32 == 16,
        commands[st.pc].bytes@[1] < 128,
        commands[st.pc].bytes@[4] < 128,
        commands[st.pc].bytes@[3] != 2,
    ensures
        ({
            let b = commands[st.pc].bytes@;
            let d = (b[6] as int % 16) * 256 + b[7];
            let y = meant(st, word_at(b, 8), (b[1] / 64) % 2 == 1);
            let (next, step) = one_step(st, commands);
            &&& step is Continue
            &&& next.pc == st.pc + 1
            &&& next.psr == st.psr
            &&& next.gpr.len() == 4096
            &&& forall|j: int| 0 <= j < 4096 && j != d ==> #[trigger] next.gpr[j] == st.gpr[j]
            &&& results(b[3], st.gpr[d], y, next.gpr[d])
        }),
{
    let b = commands[st.pc].bytes@;
    lemma_word(b, 4);
    lemma_word(b, 8);
    let d = (b[6] as int % 16) * 256 + b[7];
    let y = meant(st, word_at(b, 8), (b[1] / 64) % 2 == 1);
    assert(word_at(b, 4) as int % 4096 == d);
    if 1 <= b[3] <= 15 {
        lemma_computed(b[3], st.gpr[d], y);
    }
}

/// A register command with a player status register as its destination does the
/// same, where navigation commands may change that register; else it changes
/// nothing. They may change the numbers of the streams, of the angle, the
/// title, the chapter, the playlist and its item, of the button, the page and
/// the style, and their backups.
#[verifier::spinoff_prover]
#[verifier::rlimit(60)]
pub proof fn lemma_status_register_command(st: VmState, commands: Seq<NavCommand>)
    requires
        full_file(st),
        st.pc < commands.len(),
        64 <= commands[st.pc].bytes@[0],
        commands[st.pc].bytes@[0] % 32 == 16,
        commands[st.pc].bytes@[1] < 128,
        commands[st.pc].bytes@[4] >= 128,
        commands[st.pc].bytes@[3] != 2,
    ensures
        ({
            let b = commands[st.pc].bytes@;
            let d = (b[6] as int % 16) * 256 + b[7];
            let y = meant(st, word_at(b, 8), (b[1] / 64) % 2 == 1);
            let (next, step) = one_step(st, commands);
            &&& step is Continue
            &&& next.pc == st.pc + 1
            &&& next.gpr == st.gpr
            &&& next.psr.len() == 128
            &&& forall|j: int| 0 <= j < 128 && j != d ==> #[trigger] next.psr[j] == st.psr[j]
            &&& d <= 7 || 10 <= d <= 12 || d == 14 || 36 <= d <= 39 || 42 <= d <= 44 ==> results(
                b[3],
                st.psr[d],
                y,
                next.psr[d],
            )
            &&& !(d <= 7 || 10 <= d <= 12 || d == 14 || 36 <= d <= 39 || 42 <= d <= 44)
                ==> next.psr == st.psr
        }),
{
    let b = commands[st.pc].bytes@;
    lemma_word(b, 4);
    lemma_word(b, 8);
    let d = (b[6] as int % 16) * 256 + b[7];
    let y = meant(st, word_at(b, 8), (b[1] / 64) % 2 == 1);
    assert(word_at(b, 4) as int % 4096 == d);
    if 1 <= b[3] <= 15 && d < 128 {
        lemma_computed(b[3], st.psr[d], y);
    }
}

/// A swap of two general purpose registers gives each what the other had, and
/// changes nothing else.
pub proof fn lemma_swap_command(st: VmState, commands: Seq<NavCommand>)
    requires
        full_file(st),
        st.pc < commands.len(),
        64 <= commands[st.pc].bytes@[0],
        commands[st.pc].bytes@[0] % 32 == 16,
        commands[st.pc].bytes@[1] < 64,
        commands[st.pc].bytes@[3] == 2,
        commands[st.pc].bytes@[4] < 128,
        commands[st.pc].bytes@[8] < 128,
    ensures
        ({
            let b = commands[st.pc].bytes@;
            let d = (b[6] as int % 16) * 256 + b[7];
            let e = (b[10] as int % 16) * 256 + b[11];
            let (next, step) = one_step(st, commands);
            &&& step is Continue
            &&& next.pc == st.pc + 1
            &&& next.psr == st.psr
            &&& next.gpr.len() == 4096
            &&& next.gpr[d] == st.gpr[e]
            &&& next.gpr[e] == st.gpr[d]
            &&& forall|j: int|
                0 <= j < 4096 && j != d && j != e ==> #[trigger] next.gpr[j] == st.gpr[j]
        }),
{
    let b = commands[st.pc].bytes@;
    lemma_word(b, 4);
    lemma_word(b, 8);
    assert(word_at(b, 4) as int % 4096 == (b[6] as int % 16) * 256 + b[7]);
    assert(word_at(b, 8) as int % 4096 == (b[10] as int % 16) * 256 + b[11]);
}

/// What a branch command asks for, by its first byte's last three bits and its
/// second byte's last four.
pub open spec fn asked(kind: u8, k: u8, x: u32, y: u32) -> Option<NavRequest> {
    if kind == 1 && k == 0 {
        Some(NavRequest::JumpObject { mobj_id: x })
    } else if kind == 1 && k == 1 {
        Some(NavRequest::JumpTitle { title: x })
    } else if kind == 1 && k == 2 {
        Some(NavRequest::CallObject { mobj_id: x })
    } else if kind == 1 && k == 3 {
        Some(NavRequest::CallTitle { title: x })
    } else if kind == 1 && k == 4 {
        Some(NavRequest::Resume)
    } else if kind == 2 && k == 0 {
        Some(NavRequest::PlayPlayList { playlist: x })
    } else if kind == 2 && k == 1 {
        Some(NavRequest::PlayPlayListAtPlayItem { playlist: x, play_item: y })
    } else if kind == 2 && k == 2 {
        Some(NavRequest::PlayPlayListAtMark { playlist: x, mark: y })
    } else if kind == 2 && k == 3 {
        Some(NavRequest::TerminatePlayList)
    } else if kind == 2 && k == 4 {
        Some(NavRequest::LinkPlayItem { play_item: x })
    } else if kind == 2 && k == 5 {
        Some(NavRequest::LinkMark { mark: x })
    } else {
        None
    }
}

/// A branch command changes no register. It asks the player for what its bytes
/// name, with its operands by value, and the program counter stands behind it;
/// or it goes to another command of the list; or it ends the list; or it does
/// nothing.
#[verifier::spinoff_prover]
#[verifier::rlimit(60)]
pub proof fn lemma_branch_command(st: VmState, commands: Seq<NavCommand>)
    requires
        full_file(st),
        st.pc < commands.len(),
        64 <= commands[st.pc].bytes@[0],
        (commands[st.pc].bytes@[0] / 8) % 4 == 0,
    ensures
        ({
            let b = commands[st.pc].bytes@;
            let x = meant(st, word_at(b, 4), b[1] / 128 == 1);
            let y = meant(st, word_at(b, 8), (b[1] / 64) % 2 == 1);
            let kind = b[0] % 8;
            let k = b[1] % 16;
            let (next, step) = one_step(st, commands);
            &&& next.gpr == st.gpr
            &&& next.psr == st.psr
            &&& asked(kind, k, x, y) matches Some(q) ==> step == Step::Branch(q) && next.pc
                == st.pc + 1
            &&& kind == 0 && k == 1 && x < commands.len() ==> step is Continue && next.pc == x
            &&& kind == 0 && k == 1 && x >= commands.len() ==> step is Halted
            &&& kind == 0 && k == 2 ==> step is Halted
            &&& kind == 0 && k != 1 && k != 2 || kind == 1 && k > 4 || kind == 2 && k > 5 || kind
                > 2 ==> step is Continue && next.pc == st.pc + 1
        }),
{
    let b = commands[st.pc].bytes@;
    lemma_word(b, 4);
    lemma_word(b, 8);
}

/// A system command changes no register and hands its operands to the player.
pub proof fn lemma_system_command(st: VmState, commands: Seq<NavCommand>)
    requires
        full_file(st),
        st.pc < commands.len(),
        64 <= commands[st.pc].bytes@[0],
        commands[st.pc].bytes@[0] % 32 == 17,
    ensures
        ({
            let b = commands[st.pc].bytes@;
            let x = meant(st, word_at(b, 4), b[1] / 128 == 1);
            let y = meant(st, word_at(b, 8), (b[1] / 64) % 2 == 1);
            let k = b[3];
            let (next, step) = one_step(st, commands);
            &&& next.gpr == st.gpr
            &&& next.psr == st.psr
            &&& next.pc == st.pc + 1
            &&& step matches Step::Branch(NavRequest::SetSystem { op, operand1, operand2 })
                && operand1 == x && operand2 == y && op == if k == 1 {
                Operation::SetStream
            } else if k == 2 {
                Operation::SetNvTimer
            } else if k == 3 {
                Operation::SetButtonPage
            } else if k == 4 {
                Operation::EnableButton
            } else if k == 5 {
                Operation::DisableButton
            } else if k == 6 {
                Operation::SetSecondaryStream
            } else if k == 7 {
                Operation::PopUpOff
            } else if k == 8 {
                Operation::StillOn
            } else if k == 9 {
                Operation::StillOff
            } else if k == 10 {
                Operation::SetOutputMode
            } else if k == 11 {
                Operation::SetStreamSS
            } else {
                Operation::Unknown { sub_grp: 1, selector: k }
            }
        }),
{
    let b = commands[st.pc].bytes@;
    lemma_word(b, 4);
    lemma_word(b, 8);
}

/// A run is its first command and the run of what is left, under a budget that
/// is smaller by one; a list that has ended changes nothing.
pub proof fn lemma_run_by_steps(st: VmState, commands: Seq<NavCommand>, budget: nat)
    ensures
        st.pc >= commands.len() ==> run_steps(st, commands, budget) == (st, Step::Halted),
        run_steps(st, commands, 0) == (st, Step::Halted),
        ({
            let (next, step) = one_step(st, commands);
            run_steps(st, commands, budget + 1) == if step is Continue || step is Skipped {
                run_steps(next, commands, budget)
            } else {
                (next, step)
            }
        }),
{
}

/// Taking away undoes adding, and adding undoes taking away; the order of what
/// is added or multiplied does not matter.
pub proof fn lemma_arithmetic(x: u32, y: u32)
    ensures
        computed(Operation::Sub, computed(Operation::Add, x, y)->0, y) == Some(x),
        computed(Operation::Add, computed(Operation::Sub, x, y)->0, y) == Some(x),
        computed(Operation::Add, x, y) == computed(Operation::Add, y, x),
        computed(Operation::Mul, x, y) == computed(Operation::Mul, y, x),
        computed(Operation::Mul, x, 2) == computed(Operation::Add, x, x),
{
    let add = computed(Operation::Add, x, y)->0;
    let sub = computed(Operation::Sub, x, y)->0;
    assert(add == x + y || add == x + y - 0x1_0000_0000);
    assert(sub == x - y || sub == x - y + 0x1_0000_0000);
    assert((add - y) % 0x1_0000_0000 == x);
    assert((sub + y) % 0x1_0000_0000 == x);
    assert(x * y == y * x) by (nonlinear_arith);
}

/// An operand in text: a value in hexadecimal behind `0x`, a general purpose
/// register behind `r`, a player status register behind `PSR`, in decimal.
pub proof fn lemma_operand_text(v: u32, index: u16)
    ensures
        ({
            let t = operand_text(Operand::Immediate(v));
            t.take(2) == "0x"@ && spelled(t.skip(2), 16) == v
        }),
        ({
            let t = operand_text(Operand::Register { bank: RegisterBank::Gpr, index });
            t.take(1) == "r"@ && spelled(t.skip(1), 10) == index
        }),
        ({
            let t = operand_text(Operand::Register { bank: RegisterBank::Psr, index });
            t.take(3) == "PSR"@ && spelled(t.skip(3), 10) == index
        }),
        ({
            let t = operand_text(Operand::Register { bank: RegisterBank::PsrSecondary, index });
            t.take(3) == "PSR"@ && t.last() == '*' && spelled(t.skip(3).drop_last(), 10) == index
        }),
{
    reveal_strlit("0x");
    reveal_strlit("r");
    reveal_strlit("PSR");
    reveal_strlit("*");
    lemma_hexadecimal(v as nat);
    lemma_decimal(index as nat);
    let a = operand_text(Operand::Immediate(v));
    let b = operand_text(Operand::Register { bank: RegisterBank::Gpr, index });
    let c = operand_text(Operand::Register { bank: RegisterBank::Psr, index });
    let d = operand_text(Operand::Register { bank: RegisterBank::PsrSecondary, index });
    assert(a.take(2) =~= "0x"@ && a.skip(2) =~= hex_text(v as nat));
    assert(b.take(1) =~= "r"@ && b.skip(1) =~= dec_text(index as nat));
    assert(c.take(3) =~= "PSR"@ && c.skip(3) =~= dec_text(index as nat));
    assert(d.take(3) =~= "PSR"@ && d.skip(3).drop_last() =~= dec_text(index as nat));
}

/// A command in text is its operation, then its operands, with a comma between
/// them; an object is listed command by command, each on a line of its own
/// behind its number.
pub proof fn lemma_command_text(d: DecodedCommand, commands: Seq<NavCommand>, i: int)
    requires
        0 <= i < commands.len(),
    ensures
        d.operand1 is None && d.operand2 is None ==> command_text(d) == operation_text(d.operation),
        d.operand1 matches Some(x) ==> (d.operand2 is None ==> command_text(d) == operation_text(
            d.operation,
        ) + " "@ + operand_text(x)),
        d.operand1 matches Some(x) ==> (d.operand2 matches Some(y) ==> command_text(d)
            == operation_text(d.operation) + " "@ + operand_text(x) + ", "@ + operand_text(y)),
        command_lines(commands, (i + 1) as nat) == command_lines(commands, i as nat) + "\n  "@
            + padded(dec_text(i as nat), 3, ' ') + ": "@ + command_text(
            decoded(commands[i].bytes@),
        ),
{
}

/// The classes of the player status registers: the times and the timer are read
/// alone; what plays, and its backup, is status; the preferences and the
/// capabilities of the player are settings; the rest is reserved.
pub proof fn lemma_status_classes(i: u8)
    ensures
        psr_class(i) == (PsrClass::PlaybackStatus { read_only: true }) <==> i == 8 || i == 9 || i
            == 40,
        psr_class(i) == (PsrClass::PlaybackStatus { read_only: false }) <==> i < 8 || i == 10 || i
            == 11 || i == 12 || i == 14 || 35 < i < 40 || 41 < i < 45,
        psr_class(i) is PlayerSetting <==> i == 13 || 14 < i < 21 || 28 < i < 32 || 47 < i < 62,
        psr_class(i) is Reserved <==> 20 < i < 29 || 31 < i < 36 || i == 41 || i == 45 || i == 46
            || i == 47 || i >= 62,
{
}

/// The parts of a command: in its first byte the number of operands in three
/// bits, its group in two and its sub-group in three; in the two highest bits of
/// its second byte whether each operand is a value; then the operands, four
/// bytes each, the second behind the first.
pub proof fn lemma_command_parts(b: Seq<u8>)
    requires
        b.len() == 12,
    ensures
        ({
            let d = decoded(b);
            &&& b[0] == d.operand_count * 32 + ((b[0] / 8) % 4) * 8 + d.sub_group
            &&& d.sub_group < 8
            &&& d.group is Branch <==> (b[0] / 8) % 4 == 0
            &&& d.group is Compare <==> (b[0] / 8) % 4 == 1
            &&& d.group is SetOp <==> (b[0] / 8) % 4 == 2
            &&& d.imm_op1 <==> b[1] / 128 == 1
            &&& d.imm_op2 <==> (b[1] / 64) % 2 == 1
            &&& d.operand1 is Some <==> b[0] >= 32
            &&& d.operand2 is Some <==> b[0] >= 64
            &&& d.operand1 matches Some(x) ==> spells_operand(x, word_at(b, 4), b[1] / 128 == 1)
            &&& d.operand2 matches Some(x) ==> spells_operand(
                x,
                word_at(b, 8),
                (b[1] / 64) % 2 == 1,
            )
        }),
{
    lemma_word(b, 4);
    lemma_word(b, 8);
}

/// Whether a word spells an operand: a value, or a register by its bank in the
/// two highest bits and its number in the twelve lowest.
pub open spec fn spells_operand(o: Operand, word: u32, immediate: bool) -> bool {
    match o {
        Operand::Immediate(v) => immediate && v == word,
        Operand::Register { bank, index } => {
            &&& !immediate
            &&& index == word as int % 4096
            &&& bank is Gpr <==> word as int / 0x4000_0000 < 2
            &&& bank is Psr <==> word as int / 0x4000_0000 == 2
            &&& bank is PsrSecondary <==> word as int / 0x4000_0000 == 3
        },
    }
}

/// Unless told otherwise a run executes a million commands, changes the object a
/// hundred thousand times, and the title ten thousand times.
pub proof fn lemma_default_limits()
    ensures
        DEFAULT_STEP_BUDGET == 1000 * 1000,
        DEFAULT_OBJECT_BUDGET == 100 * 1000,
        DEFAULT_TITLE_BUDGET == 10 * 1000,
{
}

} // verus!
