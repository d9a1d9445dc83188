//! The navigation machine: a register file, a program counter, and what each
//! command does to them.
//!
//! Register commands change the destination register in place. A comparison
//! that is false skips the next command. `GoTo` moves the program counter and
//! `Break` ends the list. A command that leaves the list (a jump, a call, a
//! play command) or changes the player is not carried out here: the machine
//! stops and hands out a [`NavRequest`].
//!
//! Arithmetic wraps at 32 bits; dividing by zero, with or without remainder,
//! gives 0.
use vstd::prelude::*;

use crate::bdmv::movie_object::NavCommand;
use crate::bdmv::nav_command::{
    decoded, CommandGroup, DecodedCommand, Operand, Operation, RegisterBank,
};
use crate::bdmv::register_model::{psr_class, psr_info, GPR_COUNT, PSR_COUNT};

verus! {

// ---------------------------------------------------------------------
// Registers
// ---------------------------------------------------------------------

/// The register file: 4096 general purpose registers and 128 player status
/// registers of 32 bits.
#[derive(Debug, Clone)]
pub struct Registers {
    pub gpr: [u32; 4096],
    pub psr: [u32; 128],
}

/// Whether navigation commands may change player status register `i`.
pub open spec fn nav_writable(i: int) -> bool {
    0 <= i < PSR_COUNT && !psr_class(i as u8).read_only_to_nav()
}

impl Default for Registers {
    fn default() -> (r: Self)
        ensures
            r.gpr@ == Seq::new(4096, |i: int| 0u32),
            r.psr@ == Seq::new(128, |i: int| 0u32),
    {
        Registers::new()
    }
}

impl Registers {
    /// All registers 0.
    pub fn new() -> (r: Self)
        ensures
            r.gpr@ == Seq::new(4096, |i: int| 0u32),
            r.psr@ == Seq::new(128, |i: int| 0u32),
    {
        let r = Registers { gpr: [0u32; 4096], psr: [0u32; 128] };
        assert(r.gpr@ =~= Seq::new(4096, |i: int| 0u32));
        assert(r.psr@ =~= Seq::new(128, |i: int| 0u32));
        r
    }

    /// The value of a general purpose register, or `None` where there is no
    /// such register.
    pub fn gpr(&self, index: u16) -> (r: Option<u32>)
        ensures
            r == (if index < GPR_COUNT {
                Some(self.gpr@[index as int])
            } else {
                None
            }),
    {
        if index < GPR_COUNT {
            Some(self.gpr[index as usize])
        } else {
            None
        }
    }

    /// The value of a player status register, or `None` where there is no
    /// such register.
    pub fn psr(&self, index: u8) -> (r: Option<u32>)
        ensures
            r == (if index < PSR_COUNT {
                Some(self.psr@[index as int])
            } else {
                None
            }),
    {
        if index < PSR_COUNT {
            Some(self.psr[index as usize])
        } else {
            None
        }
    }

    /// Set a general purpose register; nothing happens where there is no such
    /// register.
    pub fn set_gpr(&mut self, index: u16, value: u32)
        ensures
            final(self).psr == old(self).psr,
            final(self).gpr@ == (if index < GPR_COUNT {
                old(self).gpr@.update(index as int, value)
            } else {
                old(self).gpr@
            }),
    {
        if index < GPR_COUNT {
            self.gpr[index as usize] = value;
        }
    }

    /// Set a player status register as the player does, whatever its class;
    /// nothing happens where there is no such register.
    pub fn set_psr_player(&mut self, index: u8, value: u32)
        ensures
            final(self).gpr == old(self).gpr,
            final(self).psr@ == (if index < PSR_COUNT {
                old(self).psr@.update(index as int, value)
            } else {
                old(self).psr@
            }),
    {
        if index < PSR_COUNT {
            self.psr[index as usize] = value;
        }
    }

    /// Whether navigation commands may change a player status register.
    pub fn psr_nav_writable(index: u8) -> (r: bool)
        ensures
            r == nav_writable(index as int),
    {
        match psr_info(index) {
            Some(info) => !info.class.is_read_only_to_nav(),
            None => false,
        }
    }

    /// Set a player status register as a navigation command does: nothing
    /// happens where the register is read-only to such commands.
    pub fn set_psr_nav(&mut self, index: u8, value: u32)
        ensures
            final(self).gpr == old(self).gpr,
            final(self).psr@ == (if nav_writable(index as int) {
                old(self).psr@.update(index as int, value)
            } else {
                old(self).psr@
            }),
    {
        if Registers::psr_nav_writable(index) {
            self.psr[index as usize] = value;
        }
    }
}

/// A register of the file.
#[derive(Debug, Clone, Copy, PartialEq, Eq, Structural)]
pub enum RegRef {
    Gpr(u16),
    Psr(u8),
}

impl RegRef {
    /// The register that an operand names, or `None` for an immediate value
    /// and for a register that does not exist.
    pub open spec fn of_operand(op: Operand) -> Option<Self> {
        match op {
            Operand::Immediate(_) => None,
            Operand::Register { bank: RegisterBank::Gpr, index } => if index < GPR_COUNT {
                Some(RegRef::Gpr(index))
            } else {
                None
            },
            Operand::Register { bank: _, index } => if index < PSR_COUNT {
                Some(RegRef::Psr(index as u8))
            } else {
                None
            },
        }
    }

    pub open spec fn of_option(op: Option<Operand>) -> Option<Self> {
        match op {
            Some(o) => Self::of_operand(o),
            None => None,
        }
    }

    pub fn from_operand(op: Operand) -> (r: Option<Self>)
        ensures
            r == Self::of_operand(op),
    {
        match op {
            Operand::Immediate(_) => None,
            Operand::Register { bank: RegisterBank::Gpr, index } => if index < GPR_COUNT {
                Some(RegRef::Gpr(index))
            } else {
                None
            },
            Operand::Register { bank: _, index } => if index < PSR_COUNT as u16 {
                Some(RegRef::Psr(index as u8))
            } else {
                None
            },
        }
    }

    fn from_option(op: Option<Operand>) -> (r: Option<Self>)
        ensures
            r == Self::of_option(op),
    {
        match op {
            Some(o) => Self::from_operand(o),
            None => None,
        }
    }

    /// The value of this register; 0 where there is no such register.
    pub fn read(self, regs: &Registers) -> (r: u32)
        ensures
            r == reg_value(regs.gpr@, regs.psr@, self),
    {
        match self {
            RegRef::Gpr(i) => match regs.gpr(i) {
                Some(v) => v,
                None => 0,
            },
            RegRef::Psr(i) => match regs.psr(i) {
                Some(v) => v,
                None => 0,
            },
        }
    }

    /// Set this register as a navigation command does.
    pub fn write(self, regs: &mut Registers, value: u32)
        ensures
            match self {
                RegRef::Gpr(i) => final(regs).psr == old(regs).psr && final(regs).gpr@ == (if i
                    < GPR_COUNT {
                    old(regs).gpr@.update(i as int, value)
                } else {
                    old(regs).gpr@
                }),
                RegRef::Psr(i) => final(regs).gpr == old(regs).gpr && final(regs).psr@ == (
                if nav_writable(i as int) {
                    old(regs).psr@.update(i as int, value)
                } else {
                    old(regs).psr@
                }),
            },
    {
        match self {
            RegRef::Gpr(i) => regs.set_gpr(i, value),
            RegRef::Psr(i) => regs.set_psr_nav(i, value),
        }
    }
}

/// The value of a register; 0 where there is no such register.
pub open spec fn reg_value(gpr: Seq<u32>, psr: Seq<u32>, r: RegRef) -> u32 {
    match r {
        RegRef::Gpr(i) => if i < GPR_COUNT {
            gpr[i as int]
        } else {
            0
        },
        RegRef::Psr(i) => if i < PSR_COUNT {
            psr[i as int]
        } else {
            0
        },
    }
}

// ---------------------------------------------------------------------
// Requests and outcomes
// ---------------------------------------------------------------------

/// What a command asks of the player. Operands are given by value.
#[derive(Debug, Clone, Copy, PartialEq, Eq, Structural)]
pub enum NavRequest {
    JumpObject { mobj_id: u32 },
    JumpTitle { title: u32 },
    CallObject { mobj_id: u32 },
    CallTitle { title: u32 },
    Resume,
    PlayPlayList { playlist: u32 },
    PlayPlayListAtPlayItem { playlist: u32, play_item: u32 },
    PlayPlayListAtMark { playlist: u32, mark: u32 },
    TerminatePlayList,
    LinkPlayItem { play_item: u32 },
    LinkMark { mark: u32 },
    /// A change of player state outside the register file.
    SetSystem { op: Operation, operand1: u32, operand2: u32 },
}

/// What one command did.
#[derive(Debug, Clone, Copy, PartialEq, Eq, Structural)]
pub enum Step {
    /// The next command follows.
    Continue,
    /// A comparison was false; the next command was passed over.
    Skipped,
    /// The list ended.
    Halted,
    /// The player has to act. The program counter stands behind the command.
    Branch(NavRequest),
}

impl Step {
    /// Whether a run goes on after this.
    pub open spec fn goes_on(self) -> bool {
        self is Continue || self is Skipped
    }
}

/// Commands that a run executes before it gives up, unless told otherwise.
pub const DEFAULT_STEP_BUDGET: u64 = 1_000_000;

/// A register file and a program counter.
#[derive(Debug, Clone)]
pub struct HdmvVm {
    pub registers: Registers,
    /// Index of the next command.
    pub pc: usize,
    /// Commands that a run may execute.
    pub step_budget: u64,
}

/// Model of the machine's state.
#[verifier::ext_equal]
pub struct VmState {
    pub gpr: Seq<u32>,
    pub psr: Seq<u32>,
    pub pc: int,
}

impl View for HdmvVm {
    type V = VmState;

    open spec fn view(&self) -> VmState {
        VmState { gpr: self.registers.gpr@, psr: self.registers.psr@, pc: self.pc as int }
    }
}

// ---------------------------------------------------------------------
// What the commands do
// ---------------------------------------------------------------------

impl VmState {
    /// The cleared machine.
    pub open spec fn cleared() -> VmState {
        VmState {
            gpr: Seq::new(4096, |i: int| 0u32),
            psr: Seq::new(128, |i: int| 0u32),
            pc: 0,
        }
    }

    pub open spec fn at(self, pc: int) -> VmState {
        VmState { pc, ..self }
    }

    /// The value of an operand: an immediate value, or what the register
    /// holds; 0 where there is neither.
    pub open spec fn value(self, op: Option<Operand>) -> u32 {
        match op {
            Some(Operand::Immediate(v)) => v,
            _ => match RegRef::of_option(op) {
                Some(r) => reg_value(self.gpr, self.psr, r),
                None => 0,
            },
        }
    }

    /// The state after a navigation command has written a register.
    pub open spec fn with_reg(self, r: RegRef, v: u32) -> VmState {
        match r {
            RegRef::Gpr(i) => if i < GPR_COUNT {
                VmState { gpr: self.gpr.update(i as int, v), ..self }
            } else {
                self
            },
            RegRef::Psr(i) => if nav_writable(i as int) {
                VmState { psr: self.psr.update(i as int, v), ..self }
            } else {
                self
            },
        }
    }
}

/// What a register command computes from the destination and the source, or
/// `None` where it computes nothing.
pub open spec fn computed(op: Operation, cur: u32, src: u32) -> Option<u32> {
    match op {
        Operation::Move => Some(src),
        Operation::Add => Some(((cur + src) % 0x1_0000_0000) as u32),
        Operation::Sub => Some(((cur - src) % 0x1_0000_0000) as u32),
        Operation::Mul => Some(((cur * src) % 0x1_0000_0000) as u32),
        Operation::Div => Some(
            if src == 0 {
                0
            } else {
                cur / src
            },
        ),
        Operation::Mod => Some(
            if src == 0 {
                0
            } else {
                cur % src
            },
        ),
        Operation::Rnd => Some(
            if src == 0 {
                0
            } else {
                1
            },
        ),
        Operation::And => Some(cur & src),
        Operation::Or => Some(cur | src),
        Operation::Xor => Some(cur ^ src),
        Operation::BitSet => Some(cur | (1u32 << (src % 32))),
        Operation::BitClear => Some(cur & !(1u32 << (src % 32))),
        Operation::ShiftLeft => Some(
            if src >= 32 {
                0
            } else {
                cur << src
            },
        ),
        Operation::ShiftRight => Some(
            if src >= 32 {
                0
            } else {
                cur >> src
            },
        ),
        _ => None,
    }
}

/// Whether a comparison holds; one that the format does not know does.
pub open spec fn comparison_holds(op: Operation, a: u32, b: u32) -> bool {
    match op {
        Operation::Bc => a & b != 0,
        Operation::Eq => a == b,
        Operation::Ne => a != b,
        Operation::Ge => a >= b,
        Operation::Gt => a > b,
        Operation::Le => a <= b,
        Operation::Lt => a < b,
        _ => true,
    }
}

/// The request that a branch command makes, or `None` where the machine
/// carries it out itself.
pub open spec fn branch_request(op: Operation, op1: u32, op2: u32) -> Option<NavRequest> {
    match op {
        Operation::JumpObject => Some(NavRequest::JumpObject { mobj_id: op1 }),
        Operation::JumpTitle => Some(NavRequest::JumpTitle { title: op1 }),
        Operation::CallObject => Some(NavRequest::CallObject { mobj_id: op1 }),
        Operation::CallTitle => Some(NavRequest::CallTitle { title: op1 }),
        Operation::Resume => Some(NavRequest::Resume),
        Operation::PlayPL => Some(NavRequest::PlayPlayList { playlist: op1 }),
        Operation::PlayPLatPlayItem => Some(
            NavRequest::PlayPlayListAtPlayItem { playlist: op1, play_item: op2 },
        ),
        Operation::PlayPLatMark => Some(
            NavRequest::PlayPlayListAtMark { playlist: op1, mark: op2 },
        ),
        Operation::TerminatePL => Some(NavRequest::TerminatePlayList),
        Operation::LinkPI => Some(NavRequest::LinkPlayItem { play_item: op1 }),
        Operation::LinkMK => Some(NavRequest::LinkMark { mark: op1 }),
        _ => None,
    }
}

/// A branch command in a list of `len` commands. The program counter stands
/// behind the command already.
pub open spec fn branch_step(st: VmState, cmd: DecodedCommand, len: int) -> (VmState, Step) {
    let op1 = st.value(cmd.operand1);
    let op2 = st.value(cmd.operand2);
    match branch_request(cmd.operation, op1, op2) {
        Some(req) => (st, Step::Branch(req)),
        None => match cmd.operation {
            Operation::GoTo => if op1 < len {
                (st.at(op1 as int), Step::Continue)
            } else {
                (st, Step::Halted)
            },
            Operation::Break => (st, Step::Halted),
            _ => (st, Step::Continue),
        },
    }
}

/// A comparison in a list of `len` commands.
pub open spec fn compare_step(st: VmState, cmd: DecodedCommand, len: int) -> (VmState, Step) {
    if comparison_holds(cmd.operation, st.value(cmd.operand1), st.value(cmd.operand2)) {
        (st, Step::Continue)
    } else {
        (
            st.at(
                if st.pc < len {
                    st.pc + 1
                } else {
                    len
                },
            ),
            Step::Skipped,
        )
    }
}

/// A register or system command.
pub open spec fn set_step(st: VmState, cmd: DecodedCommand) -> (VmState, Step) {
    let src = st.value(cmd.operand2);
    if cmd.sub_group == 1 {
        (
            st,
            Step::Branch(
                NavRequest::SetSystem {
                    op: cmd.operation,
                    operand1: st.value(cmd.operand1),
                    operand2: src,
                },
            ),
        )
    } else {
        match RegRef::of_option(cmd.operand1) {
            None => (st, Step::Continue),
            Some(dst) => {
                let cur = reg_value(st.gpr, st.psr, dst);
                if cmd.operation == Operation::Swap {
                    match RegRef::of_option(cmd.operand2) {
                        Some(other) => (
                            st.with_reg(other, cur).with_reg(dst, src),
                            Step::Continue,
                        ),
                        None => (st.with_reg(dst, src), Step::Continue),
                    }
                } else {
                    match computed(cmd.operation, cur, src) {
                        Some(v) => (st.with_reg(dst, v), Step::Continue),
                        None => (st, Step::Continue),
                    }
                }
            },
        }
    }
}

/// One decoded command in a list of `len` commands.
pub open spec fn exec_step(st: VmState, cmd: DecodedCommand, len: int) -> (VmState, Step) {
    match cmd.group {
        CommandGroup::Branch => branch_step(st, cmd, len),
        CommandGroup::Compare => compare_step(st, cmd, len),
        CommandGroup::SetOp => set_step(st, cmd),
        CommandGroup::Reserved(_) => (st, Step::Continue),
    }
}

/// The command that the program counter points at.
pub open spec fn one_step(st: VmState, commands: Seq<NavCommand>) -> (VmState, Step) {
    if st.pc >= commands.len() {
        (st, Step::Halted)
    } else {
        exec_step(st.at(st.pc + 1), decoded(commands[st.pc].bytes@), commands.len() as int)
    }
}

/// Commands one after another until the list ends, the player has to act or
/// `budget` commands are executed.
pub open spec fn run_steps(st: VmState, commands: Seq<NavCommand>, budget: nat) -> (VmState, Step)
    decreases budget,
{
    if budget == 0 {
        (st, Step::Halted)
    } else {
        let (next, step) = one_step(st, commands);
        if step.goes_on() {
            run_steps(next, commands, (budget - 1) as nat)
        } else {
            (next, step)
        }
    }
}

// ---------------------------------------------------------------------
// The machine
// ---------------------------------------------------------------------

/// The value of an operand.
pub fn operand_value(op: Option<Operand>, regs: &Registers) -> (r: u32)
    ensures
        forall|pc: int| r == (VmState { gpr: regs.gpr@, psr: regs.psr@, pc }).value(op),
{
    match op {
        Some(Operand::Immediate(v)) => v,
        _ => match RegRef::from_option(op) {
            Some(r) => r.read(regs),
            None => 0,
        },
    }
}

fn compute(op: Operation, cur: u32, src: u32) -> (r: Option<u32>)
    ensures
        r == computed(op, cur, src),
{
    match op {
        Operation::Move => Some(src),
        Operation::Add => Some(cur.wrapping_add(src)),
        Operation::Sub => Some(cur.wrapping_sub(src)),
        Operation::Mul => Some(cur.wrapping_mul(src)),
        Operation::Div => Some(
            if src == 0 {
                0
            } else {
                cur / src
            },
        ),
        Operation::Mod => Some(
            if src == 0 {
                0
            } else {
                cur % src
            },
        ),
        Operation::Rnd => Some(
            if src == 0 {
                0
            } else {
                1
            },
        ),
        Operation::And => Some(cur & src),
        Operation::Or => Some(cur | src),
        Operation::Xor => Some(cur ^ src),
        Operation::BitSet => Some(cur | (1u32 << (src % 32))),
        Operation::BitClear => Some(cur & !(1u32 << (src % 32))),
        Operation::ShiftLeft => Some(
            if src >= 32 {
                0
            } else {
                cur << src
            },
        ),
        Operation::ShiftRight => Some(
            if src >= 32 {
                0
            } else {
                cur >> src
            },
        ),
        _ => None,
    }
}

fn request_of(op: Operation, op1: u32, op2: u32) -> (r: Option<NavRequest>)
    ensures
        r == branch_request(op, op1, op2),
{
    match op {
        Operation::JumpObject => Some(NavRequest::JumpObject { mobj_id: op1 }),
        Operation::JumpTitle => Some(NavRequest::JumpTitle { title: op1 }),
        Operation::CallObject => Some(NavRequest::CallObject { mobj_id: op1 }),
        Operation::CallTitle => Some(NavRequest::CallTitle { title: op1 }),
        Operation::Resume => Some(NavRequest::Resume),
        Operation::PlayPL => Some(NavRequest::PlayPlayList { playlist: op1 }),
        Operation::PlayPLatPlayItem => Some(
            NavRequest::PlayPlayListAtPlayItem { playlist: op1, play_item: op2 },
        ),
        Operation::PlayPLatMark => Some(
            NavRequest::PlayPlayListAtMark { playlist: op1, mark: op2 },
        ),
        Operation::TerminatePL => Some(NavRequest::TerminatePlayList),
        Operation::LinkPI => Some(NavRequest::LinkPlayItem { play_item: op1 }),
        Operation::LinkMK => Some(NavRequest::LinkMark { mark: op1 }),
        _ => None,
    }
}

impl Default for HdmvVm {
    fn default() -> (r: Self)
        ensures
            r@ == VmState::cleared(),
            r.step_budget == DEFAULT_STEP_BUDGET,
    {
        HdmvVm::new()
    }
}

impl HdmvVm {
    /// A cleared machine at command 0, with the default step budget.
    pub fn new() -> (r: Self)
        ensures
            r@ == VmState::cleared(),
            r.step_budget == DEFAULT_STEP_BUDGET,
    {
        HdmvVm { registers: Registers::new(), pc: 0, step_budget: DEFAULT_STEP_BUDGET }
    }

    /// Index of the next command.
    pub fn pc(&self) -> (r: usize)
        ensures
            r == self.pc,
    {
        self.pc
    }

    /// Go to another command.
    pub fn set_pc(&mut self, pc: usize)
        ensures
            final(self)@ == old(self)@.at(pc as int),
            final(self).step_budget == old(self).step_budget,
    {
        self.pc = pc;
    }

    /// Set the number of commands that a run may execute.
    pub fn set_step_budget(&mut self, budget: u64)
        ensures
            final(self)@ == old(self)@,
            final(self).step_budget == budget,
    {
        self.step_budget = budget;
    }

    fn write(&mut self, r: RegRef, v: u32)
        ensures
            final(self)@ == old(self)@.with_reg(r, v),
            final(self).step_budget == old(self).step_budget,
    {
        r.write(&mut self.registers, v);
    }

    fn exec_branch(&mut self, cmd: &DecodedCommand, len: usize) -> (r: Step)
        ensures
            (final(self)@, r) == branch_step(old(self)@, *cmd, len as int),
            final(self).step_budget == old(self).step_budget,
    {
        let op1: u32 = operand_value(cmd.operand1, &self.registers);
        let op2: u32 = operand_value(cmd.operand2, &self.registers);
        match request_of(cmd.operation, op1, op2) {
            Some(req) => Step::Branch(req),
            None => match cmd.operation {
                Operation::GoTo => {
                    let target: usize = op1 as usize;
                    if target < len {
                        self.pc = target;
                        Step::Continue
                    } else {
                        Step::Halted
                    }
                },
                Operation::Break => Step::Halted,
                _ => Step::Continue,
            },
        }
    }

    fn exec_compare(&mut self, cmd: &DecodedCommand, len: usize) -> (r: Step)
        ensures
            (final(self)@, r) == compare_step(old(self)@, *cmd, len as int),
            final(self).step_budget == old(self).step_budget,
    {
        let a: u32 = operand_value(cmd.operand1, &self.registers);
        let b: u32 = operand_value(cmd.operand2, &self.registers);
        let holds = match cmd.operation {
            Operation::Bc => a & b != 0,
            Operation::Eq => a == b,
            Operation::Ne => a != b,
            Operation::Ge => a >= b,
            Operation::Gt => a > b,
            Operation::Le => a <= b,
            Operation::Lt => a < b,
            _ => true,
        };
        if holds {
            Step::Continue
        } else {
            self.pc = if self.pc < len {
                self.pc + 1
            } else {
                len
            };
            Step::Skipped
        }
    }

    fn exec_set(&mut self, cmd: &DecodedCommand) -> (r: Step)
        ensures
            (final(self)@, r) == set_step(old(self)@, *cmd),
            final(self).step_budget == old(self).step_budget,
    {
        let src: u32 = operand_value(cmd.operand2, &self.registers);
        if cmd.sub_group == 1 {
            let operand1: u32 = operand_value(cmd.operand1, &self.registers);
            return Step::Branch(
                NavRequest::SetSystem { op: cmd.operation, operand1, operand2: src },
            );
        }
        let dst = match RegRef::from_option(cmd.operand1) {
            Some(dst) => dst,
            None => return Step::Continue,
        };
        let cur: u32 = dst.read(&self.registers);
        if cmd.operation == Operation::Swap {
            if let Some(other) = RegRef::from_option(cmd.operand2) {
                self.write(other, cur);
            }
            self.write(dst, src);
        } else if let Some(v) = compute(cmd.operation, cur, src) {
            self.write(dst, v);
        }
        Step::Continue
    }

    fn exec(&mut self, cmd: &DecodedCommand, len: usize) -> (r: Step)
        ensures
            (final(self)@, r) == exec_step(old(self)@, *cmd, len as int),
            final(self).step_budget == old(self).step_budget,
    {
        match cmd.group {
            CommandGroup::Branch => self.exec_branch(cmd, len),
            CommandGroup::Compare => self.exec_compare(cmd, len),
            CommandGroup::SetOp => self.exec_set(cmd),
            CommandGroup::Reserved(_) => Step::Continue,
        }
    }

    /// Execute the next command of `commands`. Behind the end of the list
    /// nothing is executed and the outcome is [`Step::Halted`].
    pub fn step(&mut self, commands: &[NavCommand]) -> (r: Step)
        ensures
            (final(self)@, r) == one_step(old(self)@, commands@),
            final(self).step_budget == old(self).step_budget,
    {
        if self.pc >= commands.len() {
            return Step::Halted;
        }
        let cmd = commands[self.pc].decode();
        self.pc = self.pc + 1;
        self.exec(&cmd, commands.len())
    }

    /// Execute commands until the list ends, the player has to act, or the
    /// step budget is used up.
    pub fn run(&mut self, commands: &[NavCommand]) -> (r: Step)
        ensures
            (final(self)@, r) == run_steps(old(self)@, commands@, old(self).step_budget as nat),
            final(self).step_budget == old(self).step_budget,
    {
        let mut left: u64 = self.step_budget;
        while left > 0
            invariant
                run_steps(old(self)@, commands@, old(self).step_budget as nat) == run_steps(
                    self@,
                    commands@,
                    left as nat,
                ),
                self.step_budget == old(self).step_budget,
            decreases left,
        {
            left -= 1;
            match self.step(commands) {
                Step::Continue => {},
                Step::Skipped => {},
                terminal => return terminal,
            }
        }
        Step::Halted
    }
}

// ---------------------------------------------------------------------
// Laws
// ---------------------------------------------------------------------

/// Whether two states agree on every register that navigation commands may
/// not change.
pub open spec fn same_protected(a: VmState, b: VmState) -> bool {
    &&& a.gpr.len() == b.gpr.len()
    &&& a.psr.len() == b.psr.len()
    &&& forall|i: int| 0 <= i < a.psr.len() && !nav_writable(i) ==> #[trigger] a.psr[i] == b.psr[i]
}

/// No command changes a player status register that is read-only to
/// navigation, nor the size of the register file.
pub proof fn lemma_step_keeps_protected(st: VmState, commands: Seq<NavCommand>)
    requires
        st.gpr.len() == 4096,
        st.psr.len() == 128,
    ensures
        same_protected(st, one_step(st, commands).0),
{
}

/// No run changes a player status register that is read-only to navigation,
/// nor the size of the register file.
pub proof fn lemma_run_keeps_protected(st: VmState, commands: Seq<NavCommand>, budget: nat)
    requires
        st.gpr.len() == 4096,
        st.psr.len() == 128,
    ensures
        same_protected(st, run_steps(st, commands, budget).0),
    decreases budget,
{
    if budget > 0 {
        lemma_step_keeps_protected(st, commands);
        let (next, step) = one_step(st, commands);
        if step.goes_on() {
            lemma_run_keeps_protected(next, commands, (budget - 1) as nat);
        }
    }
}

/// A run ends with a halt or with a request, never with an outcome after which
/// the next command would follow.
pub proof fn lemma_run_ends(st: VmState, commands: Seq<NavCommand>, budget: nat)
    ensures
        run_steps(st, commands, budget).1 is Halted || run_steps(st, commands, budget).1 is Branch,
    decreases budget,
{
    if budget > 0 {
        let (next, step) = one_step(st, commands);
        if step.goes_on() {
            lemma_run_ends(next, commands, (budget - 1) as nat);
        }
    }
}

/// A run that ended within its budget ends the same way under a larger one.
pub proof fn lemma_run_budget_monotone(st: VmState, commands: Seq<NavCommand>, small: nat, large: nat)
    requires
        small <= large,
        run_steps(st, commands, small).1 is Branch,
    ensures
        run_steps(st, commands, large) == run_steps(st, commands, small),
    decreases small,
{
    if small > 0 {
        let (next, step) = one_step(st, commands);
        if step.goes_on() {
            lemma_run_budget_monotone(next, commands, (small - 1) as nat, (large - 1) as nat);
        }
    }
}

/// Whether navigation commands may change a register.
pub open spec fn reg_writable(r: RegRef) -> bool {
    match r {
        RegRef::Gpr(i) => i < GPR_COUNT,
        RegRef::Psr(i) => nav_writable(i as int),
    }
}

/// Swapping two registers twice changes nothing, where navigation commands
/// may change both.
pub proof fn lemma_swap_twice(st: VmState, cmd: DecodedCommand, a: RegRef, b: RegRef)
    requires
        st.gpr.len() == 4096,
        st.psr.len() == 128,
        cmd.sub_group != 1,
        cmd.operation == Operation::Swap,
        RegRef::of_option(cmd.operand1) == Some(a),
        RegRef::of_option(cmd.operand2) == Some(b),
        reg_writable(a),
        reg_writable(b),
    ensures
        set_step(set_step(st, cmd).0, cmd).0 == st,
{
    let twice = set_step(set_step(st, cmd).0, cmd).0;
    assert(twice.gpr =~= st.gpr);
    assert(twice.psr =~= st.psr);
}

/// A model holds what the fields hold.
pub proof fn lemma_models_hold_fields(hdmv_vm: HdmvVm)
    ensures
        hdmv_vm@.gpr == hdmv_vm.registers.gpr@,
        hdmv_vm@.psr == hdmv_vm.registers.psr@,
        hdmv_vm@.pc == hdmv_vm.pc as int,
{
}

/// A cleared machine stands at its first command, with every register zero.
pub proof fn lemma_cleared(i: int)
    ensures
        VmState::cleared().pc == 0,
        VmState::cleared().gpr.len() == 4096,
        VmState::cleared().psr.len() == 128,
        0 <= i < 4096 ==> VmState::cleared().gpr[i] == 0,
        0 <= i < 128 ==> VmState::cleared().psr[i] == 0,
{
}

} // verus!
