//! The command interpreter.
use bluray::bdmv::vm::{HdmvVm, NavRequest, Registers, Step};
use bluray::bdmv::movie_object::NavCommand;
use bluray::bdmv::nav_command::Operation;

/// Build a 12-byte NavCommand from three big-endian words.
fn nc(word0: u32, word1: u32, word2: u32) -> NavCommand {
    let mut bytes = [0u8; 12];
    bytes[0..4].copy_from_slice(&word0.to_be_bytes());
    bytes[4..8].copy_from_slice(&word1.to_be_bytes());
    bytes[8..12].copy_from_slice(&word2.to_be_bytes());
    NavCommand { bytes }
}

/// `Move dst, src` where dst is GPR `g` and src is an immediate.
fn move_gpr_imm(g: u16, v: u32) -> NavCommand {
    // 50400001 <gpr g> <v> : op_cnt=2, grp=2, sub_grp=0, op2 immediate.
    nc(0x5040_0001, g as u32, v)
}

/// A Set/register op with dst = GPR `g`, src = immediate.
fn set_op_gpr_imm(op_code: u32, g: u16, v: u32) -> NavCommand {
    nc(0x5040_0000 | op_code, g as u32, v)
}

#[test]
fn registers_default_zero() {
    let r = Registers::new();
    assert_eq!(r.gpr(0), Some(0));
    assert_eq!(r.gpr(4095), Some(0));
    assert_eq!(r.gpr(4096), None);
    assert_eq!(r.psr(0), Some(0));
    assert_eq!(r.psr(127), Some(0));
    assert_eq!(r.psr(128), None);
}

#[test]
fn move_immediate_into_gpr() {
    let mut vm = HdmvVm::new();
    let prog = [move_gpr_imm(1, 0x1234)];
    assert_eq!(vm.step(&prog), Step::Continue);
    assert_eq!(vm.registers.gpr(1), Some(0x1234));
    assert_eq!(vm.pc(), 1);
    // Stepping past the end halts.
    assert_eq!(vm.step(&prog), Step::Halted);
}

#[test]
fn arithmetic_group() {
    let mut vm = HdmvVm::new();
    let prog = [
        move_gpr_imm(0, 10),
        set_op_gpr_imm(0x03, 0, 5), // Add → 15
        set_op_gpr_imm(0x04, 0, 3), // Sub → 12
        set_op_gpr_imm(0x05, 0, 4), // Mul → 48
        set_op_gpr_imm(0x06, 0, 5), // Div → 9 (truncating)
        set_op_gpr_imm(0x07, 0, 4), // Mod → 1
    ];
    assert_eq!(vm.run(&prog), Step::Halted);
    assert_eq!(vm.registers.gpr(0), Some(1));
}

#[test]
fn div_mod_by_zero_is_zero() {
    let mut vm = HdmvVm::new();
    let prog = [
        move_gpr_imm(0, 7),
        set_op_gpr_imm(0x06, 0, 0), // Div by 0 → 0
    ];
    vm.run(&prog);
    assert_eq!(vm.registers.gpr(0), Some(0));

    let mut vm2 = HdmvVm::new();
    let prog2 = [
        move_gpr_imm(1, 7),
        set_op_gpr_imm(0x07, 1, 0), // Mod by 0 → 0
    ];
    vm2.run(&prog2);
    assert_eq!(vm2.registers.gpr(1), Some(0));
}

#[test]
fn bitwise_and_shift_and_bitops() {
    let mut vm = HdmvVm::new();
    let prog = [
        move_gpr_imm(0, 0b1010),
        set_op_gpr_imm(0x09, 0, 0b1100), // And → 0b1000
        set_op_gpr_imm(0x0A, 0, 0b0001), // Or  → 0b1001
        set_op_gpr_imm(0x0B, 0, 0b1111), // Xor → 0b0110
        set_op_gpr_imm(0x0C, 0, 0),      // BitSet bit0 → 0b0111
        set_op_gpr_imm(0x0D, 0, 1),      // BitClear bit1 → 0b0101
        set_op_gpr_imm(0x0E, 0, 1),      // Shl 1 → 0b1010
        set_op_gpr_imm(0x0F, 0, 2),      // Shr 2 → 0b0010
    ];
    vm.run(&prog);
    assert_eq!(vm.registers.gpr(0), Some(0b0010));
}

#[test]
fn shift_by_32_or_more_is_zero() {
    let mut vm = HdmvVm::new();
    let prog = [
        move_gpr_imm(0, 0xFFFF_FFFF),
        set_op_gpr_imm(0x0E, 0, 32), // Shl 32 → 0
    ];
    vm.run(&prog);
    assert_eq!(vm.registers.gpr(0), Some(0));
}

#[test]
fn add_wraps() {
    let mut vm = HdmvVm::new();
    let prog = [
        move_gpr_imm(0, 0xFFFF_FFFF),
        set_op_gpr_imm(0x03, 0, 1), // Add 1 → wraps to 0
    ];
    vm.run(&prog);
    assert_eq!(vm.registers.gpr(0), Some(0));
}

#[test]
fn swap_two_gprs() {
    let mut vm = HdmvVm::new();
    // Swap GPR0, GPR1 : 50400002 <gpr0> <gpr1>, both register refs.
    let prog = [
        move_gpr_imm(0, 100),
        move_gpr_imm(1, 200),
        nc(0x5000_0002, 0x0000_0000, 0x0000_0001), // Swap GPR0 ↔ GPR1
    ];
    vm.run(&prog);
    assert_eq!(vm.registers.gpr(0), Some(200));
    assert_eq!(vm.registers.gpr(1), Some(100));
}

#[test]
fn compare_true_runs_next_false_skips() {
    // EQ(1,1) true → next Move runs; EQ(1,2) false → next Move skipped.
    let mut vm = HdmvVm::new();
    let prog = [
        nc(0x48C0_0200, 1, 1), // EQ imm 1,1 → true
        move_gpr_imm(0, 0xAA), // runs
        nc(0x48C0_0200, 1, 2), // EQ imm 1,2 → false
        move_gpr_imm(1, 0xBB), // skipped
        move_gpr_imm(2, 0xCC), // runs
    ];
    vm.run(&prog);
    assert_eq!(vm.registers.gpr(0), Some(0xAA));
    assert_eq!(vm.registers.gpr(1), Some(0)); // never written
    assert_eq!(vm.registers.gpr(2), Some(0xCC));
}

#[test]
fn compare_skip_reported() {
    let mut vm = HdmvVm::new();
    let prog = [
        nc(0x48C0_0300, 1, 1), // NE imm 1,1 → false
        move_gpr_imm(0, 1),
    ];
    assert_eq!(vm.step(&prog), Step::Skipped);
    // PC skipped past the Move.
    assert_eq!(vm.pc(), 2);
}

#[test]
fn compare_against_register() {
    let mut vm = HdmvVm::new();
    let prog = [
        move_gpr_imm(0, 5),
        // GE GPR0, 5 : op_cnt=2, grp=1, op1 register / op2 immediate
        // 44400400 <gpr0> <5> — compare op code 0x04 (GE) in byte 2.
        nc(0x4440_0400, 0x0000_0000, 0x0000_0005),
        move_gpr_imm(1, 0x77), // runs iff GPR0 >= 5 (true)
    ];
    vm.run(&prog);
    assert_eq!(vm.registers.gpr(1), Some(0x77));
}

#[test]
fn infinite_goto_loop_is_bounded_by_budget() {
    // GoTo 0 (immediate) at index 0 loops forever; the step budget
    // bounds it so `run` terminates with Halted instead of hanging.
    let mut vm = HdmvVm::new();
    vm.set_step_budget(50);
    let prog = [nc(0x2081_0000, 0x0000_0000, 0)]; // GoTo 0
    assert_eq!(vm.run(&prog), Step::Halted);
}

#[test]
fn goto_redirects_pc() {
    let mut vm = HdmvVm::new();
    // GoTo immediate target 2 (skip the Move at index 1).
    // 20810000 <2> : imm_op1=1 (0x81 byte1 top bit), GoTo selector 1.
    let prog = [
        nc(0x2081_0000, 0x0000_0002, 0), // GoTo 2
        move_gpr_imm(0, 0xDEAD),         // skipped
        move_gpr_imm(1, 0xBEEF),         // runs
    ];
    vm.run(&prog);
    assert_eq!(vm.registers.gpr(0), Some(0));
    assert_eq!(vm.registers.gpr(1), Some(0xBEEF));
}

#[test]
fn goto_out_of_range_halts() {
    let mut vm = HdmvVm::new();
    let prog = [nc(0x2081_0000, 0x0000_0063, 0)]; // GoTo 99, len 1
    assert_eq!(vm.run(&prog), Step::Halted);
}

#[test]
fn break_halts() {
    let mut vm = HdmvVm::new();
    let prog = [
        nc(0x0002_0000, 0, 0), // Break
        move_gpr_imm(0, 1),    // never reached
    ];
    assert_eq!(vm.run(&prog), Step::Halted);
    assert_eq!(vm.registers.gpr(0), Some(0));
}

#[test]
fn jump_title_yields_request() {
    let mut vm = HdmvVm::new();
    // JumpTitle 1 : 21810000 00000001.
    let prog = [nc(0x2181_0000, 0x0000_0001, 0)];
    assert_eq!(
        vm.run(&prog),
        Step::Branch(NavRequest::JumpTitle { title: 1 })
    );
    // PC points past the branch so the player could resume.
    assert_eq!(vm.pc(), 1);
}

#[test]
fn play_pl_at_play_item_carries_both_operands() {
    // PlayPLatPlayItem playlist=5, playitem=2.
    // op_cnt=2, grp=0 (Branch), sub_grp=2 (Play), branch_opt=1, both
    // operands immediate (imm_op1+imm_op2).
    let word0 = (2u32 << 29) | (2u32 << 24) | (1 << 23) | (1 << 22) | (1 << 16);
    let prog = [nc(word0, 0x0000_0005, 0x0000_0002)];
    let mut vm = HdmvVm::new();
    assert_eq!(
        vm.run(&prog),
        Step::Branch(NavRequest::PlayPlayListAtPlayItem {
            playlist: 5,
            play_item: 2,
        })
    );
}

#[test]
fn setsystem_yields_request_with_resolved_operands() {
    // SetButtonPage (op 3, sub_grp 1) with immediate operands.
    // op_cnt=2, grp=2, sub_grp=1, both immediate, op code 0x03 in byte3.
    let word0 = (2u32 << 29) | (2u32 << 27) | (1u32 << 24) | (1 << 23) | (1 << 22) | 0x03;
    let prog = [nc(word0, 0x0000_0007, 0x0000_0009)];
    let mut vm = HdmvVm::new();
    assert_eq!(
        vm.run(&prog),
        Step::Branch(NavRequest::SetSystem {
            op: Operation::SetButtonPage,
            operand1: 7,
            operand2: 9,
        })
    );
}

#[test]
fn nav_write_to_readonly_psr_is_dropped() {
    let mut vm = HdmvVm::new();
    // PSR8 (PresentationTime) is read-only to nav. Move PSR8 ← 42.
    // dst = PSR8 register ref (0x80000008), src immediate 42.
    // 50400001 80000008 0000002A : op1 register, op2 immediate.
    let prog = [nc(0x5040_0001, 0x8000_0008, 42)];
    vm.run(&prog);
    // Write dropped.
    assert_eq!(vm.registers.psr(8), Some(0));
}

#[test]
fn nav_write_to_mutable_psr_succeeds() {
    let mut vm = HdmvVm::new();
    // PSR4 (Title) is mutable Playback Status. Move PSR4 ← 3.
    let prog = [nc(0x5040_0001, 0x8000_0004, 3)];
    vm.run(&prog);
    assert_eq!(vm.registers.psr(4), Some(3));
}

#[test]
fn player_seed_then_compare() {
    // Player seeds PSR4 (Title)=2; script compares PSR4 == 2 and on
    // true sets GPR0.
    let mut vm = HdmvVm::new();
    vm.registers.set_psr_player(4, 2);
    // EQ PSR4, 2 : op1 register, op2 immediate, op code 0x02 byte2.
    let prog = [
        nc(0x4840_0200, 0x8000_0004, 0x0000_0002),
        move_gpr_imm(0, 1),
    ];
    vm.run(&prog);
    assert_eq!(vm.registers.gpr(0), Some(1));
}
