//! Navigation commands: from twelve bytes to an operation and its operands.
//!
//! A command is three big-endian 32-bit words: the operation, the first
//! operand (a destination or a target), the second operand (a source). The
//! operation word, from its most significant bit on:
//!
//! ```text
//!  byte 0   operand count (3 bits), group (2 bits), sub-group (3 bits)
//!  byte 1   operand 1 immediate (1), operand 2 immediate (1), reserved (2),
//!           branch selector (4)
//!  byte 2   compare selector
//!  byte 3   set selector
//! ```
//!
//! The group is 0 for branches, 1 for comparisons, 2 for register and system
//! settings. Comparisons carry their selector in byte 2, settings in byte 3.
//!
//! An operand that is no immediate value names a register: the bank in the
//! top two bits, the number in the low twelve.
use vstd::prelude::*;
use vstd::string::*;

use crate::bdmv::common::{be16, be32};
use crate::bdmv::movie_object::NavCommand;
use crate::bdmv::register_model::{psr_class, psr_info, psr_name, PsrInfo};
use crate::text::{dec_text, hex_text, push_dec, push_hex};

verus! {

/// Group of a command.
#[derive(Debug, Clone, Copy, PartialEq, Eq, Hash, Structural)]
pub enum CommandGroup {
    /// Flow control.
    Branch,
    /// A condition on the next command.
    Compare,
    /// A change of registers, or of the player.
    SetOp,
    /// No group of the format.
    Reserved(u8),
}

impl CommandGroup {
    pub open spec fn of_bits(grp: u8) -> Self {
        if grp == 0 {
            CommandGroup::Branch
        } else if grp == 1 {
            CommandGroup::Compare
        } else if grp == 2 {
            CommandGroup::SetOp
        } else {
            CommandGroup::Reserved(grp)
        }
    }

    pub fn from_bits(grp: u8) -> (r: Self)
        ensures
            r == Self::of_bits(grp),
    {
        match grp {
            0 => CommandGroup::Branch,
            1 => CommandGroup::Compare,
            2 => CommandGroup::SetOp,
            other => CommandGroup::Reserved(other),
        }
    }
}

/// What a command does.
#[derive(Debug, Clone, Copy, PartialEq, Eq, Hash, Structural)]
pub enum Operation {
    Nop,
    GoTo,
    Break,
    JumpObject,
    JumpTitle,
    CallObject,
    CallTitle,
    Resume,
    PlayPL,
    PlayPLatPlayItem,
    PlayPLatMark,
    TerminatePL,
    LinkPI,
    LinkMK,
    Bc,
    Eq,
    Ne,
    Ge,
    Gt,
    Le,
    Lt,
    Move,
    Swap,
    Add,
    Sub,
    Mul,
    Div,
    Mod,
    Rnd,
    And,
    Or,
    Xor,
    BitSet,
    BitClear,
    ShiftLeft,
    ShiftRight,
    SetStream,
    SetNvTimer,
    SetButtonPage,
    EnableButton,
    DisableButton,
    SetSecondaryStream,
    PopUpOff,
    StillOn,
    StillOff,
    SetOutputMode,
    SetStreamSS,
    /// No operation of the format; the selector bits are kept.
    Unknown { sub_grp: u8, selector: u8 },
}

/// Bank of a register operand.
#[derive(Debug, Clone, Copy, PartialEq, Eq, Hash, Structural)]
pub enum RegisterBank {
    /// General purpose registers (top bit clear).
    Gpr,
    /// Player status registers (top bits 10).
    Psr,
    /// Player status registers with the secondary addressing flag (top bits
    /// 11).
    PsrSecondary,
}

/// An operand of a command.
#[derive(Debug, Clone, Copy, PartialEq, Eq, Hash, Structural)]
pub enum Operand {
    Immediate(u32),
    Register { bank: RegisterBank, index: u16 },
}

/// A register operand with what is known of the register.
#[derive(Debug, Clone, Copy, PartialEq, Eq)]
pub struct ResolvedRegister {
    pub bank: RegisterBank,
    pub index: u16,
    /// The player status register, where the operand names one that exists.
    pub psr: Option<PsrInfo>,
}

/// A decoded command.
#[derive(Debug, Clone, Copy, PartialEq, Eq, Structural)]
pub struct DecodedCommand {
    pub operand_count: u8,
    pub group: CommandGroup,
    pub sub_group: u8,
    pub imm_op1: bool,
    pub imm_op2: bool,
    pub operation: Operation,
    /// `None` where the operand count is 0.
    pub operand1: Option<Operand>,
    /// `None` where the operand count is below 2.
    pub operand2: Option<Operand>,
}

// ---------------------------------------------------------------------
// The tables of operations
// ---------------------------------------------------------------------

/// Branch operations of sub-group 0, by selector.
pub open spec fn goto_table() -> Seq<Operation> {
    seq![
        Operation::Nop,
        Operation::GoTo,
        Operation::Break,
    ]
}

/// Branch operations of sub-group 1, by selector.
pub open spec fn jump_table() -> Seq<Operation> {
    seq![
        Operation::JumpObject,
        Operation::JumpTitle,
        Operation::CallObject,
        Operation::CallTitle,
        Operation::Resume,
    ]
}

/// Branch operations of sub-group 2, by selector.
pub open spec fn play_table() -> Seq<Operation> {
    seq![
        Operation::PlayPL,
        Operation::PlayPLatPlayItem,
        Operation::PlayPLatMark,
        Operation::TerminatePL,
        Operation::LinkPI,
        Operation::LinkMK,
    ]
}

/// Compare operations; the first has selector 1.
pub open spec fn compare_table() -> Seq<Operation> {
    seq![
        Operation::Bc,
        Operation::Eq,
        Operation::Ne,
        Operation::Ge,
        Operation::Gt,
        Operation::Le,
        Operation::Lt,
    ]
}

/// Set operations of sub-group 0; the first has selector 1.
pub open spec fn set_table() -> Seq<Operation> {
    seq![
        Operation::Move,
        Operation::Swap,
        Operation::Add,
        Operation::Sub,
        Operation::Mul,
        Operation::Div,
        Operation::Mod,
        Operation::Rnd,
        Operation::And,
        Operation::Or,
        Operation::Xor,
        Operation::BitSet,
        Operation::BitClear,
        Operation::ShiftLeft,
        Operation::ShiftRight,
    ]
}

/// Set operations of sub-group 1; the first has selector 1.
pub open spec fn system_table() -> Seq<Operation> {
    seq![
        Operation::SetStream,
        Operation::SetNvTimer,
        Operation::SetButtonPage,
        Operation::EnableButton,
        Operation::DisableButton,
        Operation::SetSecondaryStream,
        Operation::PopUpOff,
        Operation::StillOn,
        Operation::StillOff,
        Operation::SetOutputMode,
        Operation::SetStreamSS,
    ]
}

/// Entry `i` of a table, or the unknown operation.
pub open spec fn entry_of(table: Seq<Operation>, i: int, sub_grp: u8, selector: u8) -> Operation {
    if 0 <= i < table.len() {
        table[i]
    } else {
        Operation::Unknown { sub_grp, selector }
    }
}

/// The operation that a group, a sub-group and the selectors name.
pub open spec fn operation_of(
    group: CommandGroup,
    sub_grp: u8,
    branch_opt: u8,
    compare_op_code: u8,
    set_op_code: u8,
) -> Operation {
    match group {
        CommandGroup::Branch => entry_of(
            if sub_grp == 0 {
                goto_table()
            } else if sub_grp == 1 {
                jump_table()
            } else if sub_grp == 2 {
                play_table()
            } else {
                Seq::empty()
            },
            branch_opt as int,
            sub_grp,
            branch_opt,
        ),
        CommandGroup::Compare => entry_of(
            compare_table(),
            compare_op_code - 1,
            sub_grp,
            compare_op_code,
        ),
        CommandGroup::SetOp => entry_of(
            if sub_grp == 0 {
                set_table()
            } else if sub_grp == 1 {
                system_table()
            } else {
                Seq::empty()
            },
            set_op_code - 1,
            sub_grp,
            set_op_code,
        ),
        CommandGroup::Reserved(_) => Operation::Unknown { sub_grp, selector: set_op_code },
    }
}

fn branch_operation(sub_grp: u8, branch_opt: u8) -> (r: Operation)
    ensures
        r == operation_of(CommandGroup::Branch, sub_grp, branch_opt, 0, 0),
{
    let unknown = Operation::Unknown { sub_grp, selector: branch_opt };
    match sub_grp {
        0 => match branch_opt {
            0 => Operation::Nop,
            1 => Operation::GoTo,
            2 => Operation::Break,
            _ => unknown,
        },
        1 => match branch_opt {
            0 => Operation::JumpObject,
            1 => Operation::JumpTitle,
            2 => Operation::CallObject,
            3 => Operation::CallTitle,
            4 => Operation::Resume,
            _ => unknown,
        },
        2 => match branch_opt {
            0 => Operation::PlayPL,
            1 => Operation::PlayPLatPlayItem,
            2 => Operation::PlayPLatMark,
            3 => Operation::TerminatePL,
            4 => Operation::LinkPI,
            5 => Operation::LinkMK,
            _ => unknown,
        },
        _ => unknown,
    }
}

fn compare_operation(sub_grp: u8, compare_op_code: u8) -> (r: Operation)
    ensures
        r == operation_of(CommandGroup::Compare, sub_grp, 0, compare_op_code, 0),
{
    match compare_op_code {
        1 => Operation::Bc,
        2 => Operation::Eq,
        3 => Operation::Ne,
        4 => Operation::Ge,
        5 => Operation::Gt,
        6 => Operation::Le,
        7 => Operation::Lt,
        _ => Operation::Unknown { sub_grp, selector: compare_op_code },
    }
}

fn set_operation(sub_grp: u8, set_op_code: u8) -> (r: Operation)
    ensures
        r == operation_of(CommandGroup::SetOp, sub_grp, 0, 0, set_op_code),
{
    let unknown = Operation::Unknown { sub_grp, selector: set_op_code };
    match sub_grp {
        0 => match set_op_code {
            1 => Operation::Move,
            2 => Operation::Swap,
            3 => Operation::Add,
            4 => Operation::Sub,
            5 => Operation::Mul,
            6 => Operation::Div,
            7 => Operation::Mod,
            8 => Operation::Rnd,
            9 => Operation::And,
            10 => Operation::Or,
            11 => Operation::Xor,
            12 => Operation::BitSet,
            13 => Operation::BitClear,
            14 => Operation::ShiftLeft,
            15 => Operation::ShiftRight,
            _ => unknown,
        },
        1 => match set_op_code {
            1 => Operation::SetStream,
            2 => Operation::SetNvTimer,
            3 => Operation::SetButtonPage,
            4 => Operation::EnableButton,
            5 => Operation::DisableButton,
            6 => Operation::SetSecondaryStream,
            7 => Operation::PopUpOff,
            8 => Operation::StillOn,
            9 => Operation::StillOff,
            10 => Operation::SetOutputMode,
            11 => Operation::SetStreamSS,
            _ => unknown,
        },
        _ => unknown,
    }
}

/// The operation that a group, a sub-group and the selectors name. Each group
/// reads its own selector.
pub fn decode_operation(
    group: CommandGroup,
    sub_grp: u8,
    branch_opt: u8,
    compare_op_code: u8,
    set_op_code: u8,
) -> (r: Operation)
    ensures
        r == operation_of(group, sub_grp, branch_opt, compare_op_code, set_op_code),
{
    match group {
        CommandGroup::Branch => branch_operation(sub_grp, branch_opt),
        CommandGroup::Compare => compare_operation(sub_grp, compare_op_code),
        CommandGroup::SetOp => set_operation(sub_grp, set_op_code),
        CommandGroup::Reserved(_) => Operation::Unknown { sub_grp, selector: set_op_code },
    }
}

/// The selector that a group reads.
pub open spec fn selector_of(
    group: CommandGroup,
    branch_opt: u8,
    compare_op_code: u8,
    set_op_code: u8,
) -> u8 {
    match group {
        CommandGroup::Branch => branch_opt,
        CommandGroup::Compare => compare_op_code,
        _ => set_op_code,
    }
}

/// Decoding loses nothing of the selector: within a group and a sub-group,
/// the operation is the same exactly where the selector is, and an operation
/// that the format does not name keeps both.
pub proof fn lemma_selector_kept(
    group: CommandGroup,
    sub_grp: u8,
    b1: u8,
    c1: u8,
    s1: u8,
    b2: u8,
    c2: u8,
    s2: u8,
)
    ensures
        operation_of(group, sub_grp, b1, c1, s1) == operation_of(group, sub_grp, b2, c2, s2)
            <==> selector_of(group, b1, c1, s1) == selector_of(group, b2, c2, s2),
        operation_of(group, sub_grp, b1, c1, s1) matches Operation::Unknown {
            sub_grp: g,
            selector,
        } ==> g == sub_grp && selector == selector_of(group, b1, c1, s1),
{
}

// ---------------------------------------------------------------------
// Operands
// ---------------------------------------------------------------------

impl Operand {
    /// The operand that a word spells.
    pub open spec fn of_word(word: u32, immediate: bool) -> Self {
        if immediate {
            Operand::Immediate(word)
        } else {
            Operand::Register {
                bank: if word < 0x8000_0000 {
                    RegisterBank::Gpr
                } else if word < 0xC000_0000 {
                    RegisterBank::Psr
                } else {
                    RegisterBank::PsrSecondary
                },
                index: (word % 4096) as u16,
            }
        }
    }

    /// Read an operand word.
    pub fn decode(word: u32, immediate: bool) -> (r: Self)
        ensures
            r == Self::of_word(word, immediate),
    {
        if immediate {
            Operand::Immediate(word)
        } else {
            let bank = if word < 0x8000_0000 {
                RegisterBank::Gpr
            } else if word < 0xC000_0000 {
                RegisterBank::Psr
            } else {
                RegisterBank::PsrSecondary
            };
            Operand::Register { bank, index: (word % 4096) as u16 }
        }
    }

    /// The register that an operand names, or `None` for an immediate value.
    pub fn resolve_register(&self) -> (r: Option<ResolvedRegister>)
        ensures
            match *self {
                Operand::Immediate(_) => r is None,
                Operand::Register { bank, index } => {
                    &&& r matches Some(x)
                    &&& x.bank == bank
                    &&& x.index == index
                    &&& (x.psr is Some <==> bank != RegisterBank::Gpr && index < 128)
                    &&& (x.psr matches Some(p) ==> p.index == index && p.name@
                        == psr_name(p.index) && p.class
                        == psr_class(p.index))
                },
            },
    {
        match *self {
            Operand::Immediate(_) => None,
            Operand::Register { bank, index } => {
                let psr = match bank {
                    RegisterBank::Gpr => None,
                    _ => if index < 256 {
                        psr_info(index as u8)
                    } else {
                        None
                    },
                };
                Some(ResolvedRegister { bank, index, psr })
            },
        }
    }
}

// ---------------------------------------------------------------------
// Commands
// ---------------------------------------------------------------------

/// The command that twelve bytes spell.
pub open spec fn decoded(b: Seq<u8>) -> DecodedCommand {
    let count = b[0] / 32;
    let group = CommandGroup::of_bits((b[0] / 8) % 4);
    let imm_op1 = b[1] >= 128;
    let imm_op2 = (b[1] / 64) % 2 == 1;
    DecodedCommand {
        operand_count: count,
        group,
        sub_group: b[0] % 8,
        imm_op1,
        imm_op2,
        operation: operation_of(group, b[0] % 8, b[1] % 16, b[2], b[3]),
        operand1: if count >= 1 {
            Some(Operand::of_word(be32(b, 4), imm_op1))
        } else {
            None
        },
        operand2: if count >= 2 {
            Some(Operand::of_word(be32(b, 8), imm_op2))
        } else {
            None
        },
    }
}

fn word(b: &[u8; 12], i: usize) -> (r: u32)
    requires
        i + 4 <= 12,
    ensures
        r == be32(b@, i as int),
{
    proof {
        reveal(be16);
        reveal(be32);
    }
    let hi: u16 = b[i] as u16 * 256 + b[i + 1] as u16;
    let lo: u16 = b[i + 2] as u16 * 256 + b[i + 3] as u16;
    hi as u32 * 65536 + lo as u32
}

impl DecodedCommand {
    /// Decode a command. Every twelve bytes decode: what is no operation of
    /// the format becomes [`Operation::Unknown`].
    pub fn decode(bytes: &[u8; 12]) -> (r: Self)
        ensures
            r == decoded(bytes@),
    {
        let operand_count: u8 = bytes[0] / 32;
        let group = CommandGroup::from_bits((bytes[0] / 8) % 4);
        let sub_group: u8 = bytes[0] % 8;
        let imm_op1 = bytes[1] >= 128;
        let imm_op2 = (bytes[1] / 64) % 2 == 1;
        let operation = decode_operation(group, sub_group, bytes[1] % 16, bytes[2], bytes[3]);
        let operand1 = if operand_count >= 1 {
            Some(Operand::decode(word(bytes, 4), imm_op1))
        } else {
            None
        };
        let operand2 = if operand_count >= 2 {
            Some(Operand::decode(word(bytes, 8), imm_op2))
        } else {
            None
        };
        DecodedCommand {
            operand_count,
            group,
            sub_group,
            imm_op1,
            imm_op2,
            operation,
            operand1,
            operand2,
        }
    }
}

impl NavCommand {
    /// Decode this command.
    pub fn decode(&self) -> (r: DecodedCommand)
        ensures
            r == decoded(self.bytes@),
    {
        DecodedCommand::decode(&self.bytes)
    }
}

// ---------------------------------------------------------------------
// Text
// ---------------------------------------------------------------------

/// The name of an operation.
pub open spec fn operation_name(op: Operation) -> Seq<char> {
    match op {
        Operation::Nop => "Nop"@,
        Operation::GoTo => "GoTo"@,
        Operation::Break => "Break"@,
        Operation::JumpObject => "JumpObject"@,
        Operation::JumpTitle => "JumpTitle"@,
        Operation::CallObject => "CallObject"@,
        Operation::CallTitle => "CallTitle"@,
        Operation::Resume => "Resume"@,
        Operation::PlayPL => "PlayPL"@,
        Operation::PlayPLatPlayItem => "PlayPLatPlayItem"@,
        Operation::PlayPLatMark => "PlayPLatMark"@,
        Operation::TerminatePL => "TerminatePL"@,
        Operation::LinkPI => "LinkPI"@,
        Operation::LinkMK => "LinkMK"@,
        Operation::Bc => "Bc"@,
        Operation::Eq => "Eq"@,
        Operation::Ne => "Ne"@,
        Operation::Ge => "Ge"@,
        Operation::Gt => "Gt"@,
        Operation::Le => "Le"@,
        Operation::Lt => "Lt"@,
        Operation::Move => "Move"@,
        Operation::Swap => "Swap"@,
        Operation::Add => "Add"@,
        Operation::Sub => "Sub"@,
        Operation::Mul => "Mul"@,
        Operation::Div => "Div"@,
        Operation::Mod => "Mod"@,
        Operation::Rnd => "Rnd"@,
        Operation::And => "And"@,
        Operation::Or => "Or"@,
        Operation::Xor => "Xor"@,
        Operation::BitSet => "BitSet"@,
        Operation::BitClear => "BitClear"@,
        Operation::ShiftLeft => "ShiftLeft"@,
        Operation::ShiftRight => "ShiftRight"@,
        Operation::SetStream => "SetStream"@,
        Operation::SetNvTimer => "SetNvTimer"@,
        Operation::SetButtonPage => "SetButtonPage"@,
        Operation::EnableButton => "EnableButton"@,
        Operation::DisableButton => "DisableButton"@,
        Operation::SetSecondaryStream => "SetSecondaryStream"@,
        Operation::PopUpOff => "PopUpOff"@,
        Operation::StillOn => "StillOn"@,
        Operation::StillOff => "StillOff"@,
        Operation::SetOutputMode => "SetOutputMode"@,
        Operation::SetStreamSS => "SetStreamSS"@,
        Operation::Unknown { sub_grp: _, selector: _ } => "Unknown"@,
    }
}

/// An operation as text; an unknown one shows its selector bits.
pub open spec fn operation_text(op: Operation) -> Seq<char> {
    match op {
        Operation::Unknown { sub_grp, selector } => operation_name(op) + "(0x"@ + hex_text(
            sub_grp as nat,
        ) + ",0x"@ + hex_text(selector as nat) + ")"@,
        _ => operation_name(op),
    }
}

/// An operand as text: `0x1`, `r1`, `PSR4`; the secondary addressing flag
/// shows as a star.
pub open spec fn operand_text(o: Operand) -> Seq<char> {
    match o {
        Operand::Immediate(v) => "0x"@ + hex_text(v as nat),
        Operand::Register { bank: RegisterBank::Gpr, index } => "r"@ + dec_text(index as nat),
        Operand::Register { bank: RegisterBank::Psr, index } => "PSR"@ + dec_text(index as nat),
        Operand::Register { bank: RegisterBank::PsrSecondary, index } => "PSR"@ + dec_text(
            index as nat,
        ) + "*"@,
    }
}

/// A command on one line: the operation, then its operands.
pub open spec fn command_text(d: DecodedCommand) -> Seq<char> {
    let head = operation_text(d.operation);
    let first = match d.operand1 {
        Some(o) => head + " "@ + operand_text(o),
        None => head,
    };
    match d.operand2 {
        Some(o) => first + ", "@ + operand_text(o),
        None => first,
    }
}

fn name_of(op: Operation) -> (r: &'static str)
    ensures
        r@ == operation_name(op),
{
    match op {
        Operation::Nop => "Nop",
        Operation::GoTo => "GoTo",
        Operation::Break => "Break",
        Operation::JumpObject => "JumpObject",
        Operation::JumpTitle => "JumpTitle",
        Operation::CallObject => "CallObject",
        Operation::CallTitle => "CallTitle",
        Operation::Resume => "Resume",
        Operation::PlayPL => "PlayPL",
        Operation::PlayPLatPlayItem => "PlayPLatPlayItem",
        Operation::PlayPLatMark => "PlayPLatMark",
        Operation::TerminatePL => "TerminatePL",
        Operation::LinkPI => "LinkPI",
        Operation::LinkMK => "LinkMK",
        Operation::Bc => "Bc",
        Operation::Eq => "Eq",
        Operation::Ne => "Ne",
        Operation::Ge => "Ge",
        Operation::Gt => "Gt",
        Operation::Le => "Le",
        Operation::Lt => "Lt",
        Operation::Move => "Move",
        Operation::Swap => "Swap",
        Operation::Add => "Add",
        Operation::Sub => "Sub",
        Operation::Mul => "Mul",
        Operation::Div => "Div",
        Operation::Mod => "Mod",
        Operation::Rnd => "Rnd",
        Operation::And => "And",
        Operation::Or => "Or",
        Operation::Xor => "Xor",
        Operation::BitSet => "BitSet",
        Operation::BitClear => "BitClear",
        Operation::ShiftLeft => "ShiftLeft",
        Operation::ShiftRight => "ShiftRight",
        Operation::SetStream => "SetStream",
        Operation::SetNvTimer => "SetNvTimer",
        Operation::SetButtonPage => "SetButtonPage",
        Operation::EnableButton => "EnableButton",
        Operation::DisableButton => "DisableButton",
        Operation::SetSecondaryStream => "SetSecondaryStream",
        Operation::PopUpOff => "PopUpOff",
        Operation::StillOn => "StillOn",
        Operation::StillOff => "StillOff",
        Operation::SetOutputMode => "SetOutputMode",
        Operation::SetStreamSS => "SetStreamSS",
        Operation::Unknown { sub_grp: _, selector: _ } => "Unknown",
    }
}

fn push_operation(out: &mut String, op: Operation)
    ensures
        final(out)@ == old(out)@ + operation_text(op),
{
    out.append(name_of(op));
    if let Operation::Unknown { sub_grp, selector } = op {
        out.append("(0x");
        push_hex(out, sub_grp as u64);
        out.append(",0x");
        push_hex(out, selector as u64);
        out.append(")");
    }
    assert(out@ =~= old(out)@ + operation_text(op));
}

fn push_operand(out: &mut String, o: Operand)
    ensures
        final(out)@ == old(out)@ + operand_text(o),
{
    match o {
        Operand::Immediate(v) => {
            out.append("0x");
            push_hex(out, v as u64);
        },
        Operand::Register { bank: RegisterBank::Gpr, index } => {
            out.append("r");
            push_dec(out, index as u128);
        },
        Operand::Register { bank: RegisterBank::Psr, index } => {
            out.append("PSR");
            push_dec(out, index as u128);
        },
        Operand::Register { bank: RegisterBank::PsrSecondary, index } => {
            out.append("PSR");
            push_dec(out, index as u128);
            out.append("*");
        },
    }
    assert(out@ =~= old(out)@ + operand_text(o));
}

impl DecodedCommand {
    /// This command on one line, such as `Move r1, 0x1`.
    pub fn disassemble(&self) -> (r: String)
        ensures
            r@ == command_text(*self),
    {
        let mut out = String::new();
        push_operation(&mut out, self.operation);
        if let Some(o) = self.operand1 {
            out.append(" ");
            push_operand(&mut out, o);
        }
        if let Some(o) = self.operand2 {
            out.append(", ");
            push_operand(&mut out, o);
        }
        assert(out@ =~= command_text(*self));
        out
    }
}

} // verus!
