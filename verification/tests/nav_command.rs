//! Navigation commands.
use bluray::bdmv::nav_command::{CommandGroup, DecodedCommand, Operand, Operation, RegisterBank};
use bluray::bdmv::movie_object::NavCommand;

fn cmd(word0: u32, word1: u32, word2: u32) -> DecodedCommand {
    let mut bytes = [0u8; 12];
    bytes[0..4].copy_from_slice(&word0.to_be_bytes());
    bytes[4..8].copy_from_slice(&word1.to_be_bytes());
    bytes[8..12].copy_from_slice(&word2.to_be_bytes());
    DecodedCommand::decode(&bytes)
}

#[test]
fn nop() {
    let d = cmd(0x0000_0000, 0, 0);
    assert_eq!(d.group, CommandGroup::Branch);
    assert_eq!(d.sub_group, 0);
    assert_eq!(d.operation, Operation::Nop);
    assert_eq!(d.operand_count, 0);
    assert_eq!(d.operand1, None);
    assert_eq!(d.operand2, None);
}

#[test]
fn goto() {
    let d = cmd(0x2001_0000, 0x0000_000C, 0);
    assert_eq!(d.group, CommandGroup::Branch);
    assert_eq!(d.operation, Operation::GoTo);
    assert_eq!(d.operand_count, 1);
    assert!(!d.imm_op1);
    assert_eq!(
        d.operand1,
        Some(Operand::Register {
            bank: RegisterBank::Gpr,
            index: 0x00C,
        })
    );
}

#[test]
fn break_op() {
    let d = cmd(0x0002_0000, 0, 0);
    assert_eq!(d.group, CommandGroup::Branch);
    assert_eq!(d.operation, Operation::Break);
    assert_eq!(d.operand_count, 0);
}

#[test]
fn jump_object() {
    let d = cmd(0x2180_0000, 0x0000_0001, 0);
    assert_eq!(d.operation, Operation::JumpObject);
    assert_eq!(d.sub_group, 1);
    assert!(d.imm_op1);
    assert_eq!(d.operand1, Some(Operand::Immediate(1)));
}

#[test]
fn jump_title() {
    let d = cmd(0x2181_0000, 0x0000_0001, 0);
    assert_eq!(d.operand_count, 1);
    assert_eq!(d.group, CommandGroup::Branch);
    assert_eq!(d.sub_group, 1);
    assert!(d.imm_op1);
    assert!(!d.imm_op2);
    assert_eq!(d.operation, Operation::JumpTitle);
    assert_eq!(d.operand1, Some(Operand::Immediate(1)));
    assert_eq!(d.operand2, None);
}

#[test]
fn call_object_and_title() {
    assert_eq!(cmd(0x2182_0000, 1, 0).operation, Operation::CallObject);
    assert_eq!(cmd(0x2183_0000, 1, 0).operation, Operation::CallTitle);
}

#[test]
fn resume() {
    let d = cmd(0x0104_0000, 0, 0);
    assert_eq!(d.operation, Operation::Resume);
    assert_eq!(d.sub_group, 1);
    assert_eq!(d.operand_count, 0);
}

#[test]
fn terminate_pl() {
    let d = cmd(0x0203_0000, 0, 0);
    assert_eq!(d.operation, Operation::TerminatePL);
    assert_eq!(d.sub_group, 2);
}

#[test]
fn link_pi_and_mk() {
    let pi = cmd(0x2284_0000, 0x0000_0001, 0);
    assert_eq!(pi.operation, Operation::LinkPI);
    assert_eq!(pi.sub_group, 2);
    assert!(pi.imm_op1);
    assert_eq!(pi.operand1, Some(Operand::Immediate(1)));

    let mk = cmd(0x2285_0000, 0x0000_0001, 0);
    assert_eq!(mk.operation, Operation::LinkMK);
    assert_eq!(mk.sub_group, 2);
}

#[test]
fn eq_immediate_immediate() {
    // 48C00200 00000001 00000001 = EQ of 1 vs 1.
    let d = cmd(0x48C0_0200, 0x0000_0001, 0x0000_0001);
    assert_eq!(d.group, CommandGroup::Compare);
    assert_eq!(d.operation, Operation::Eq);
    assert_eq!(d.operand_count, 2);
    assert!(d.imm_op1);
    assert!(d.imm_op2);
    assert_eq!(d.operand1, Some(Operand::Immediate(1)));
    assert_eq!(d.operand2, Some(Operand::Immediate(1)));
}

#[test]
fn compare_register_immediate() {
    // 48400200 80000004 0000FFFF = compare PSR4 against 0xFFFF.
    // (op_cnt=2, grp=1, 40 = op2 immediate / op1 register.)
    let d = cmd(0x4840_0200, 0x8000_0004, 0x0000_FFFF);
    assert_eq!(d.operation, Operation::Eq);
    assert!(!d.imm_op1);
    assert!(d.imm_op2);
    assert_eq!(
        d.operand1,
        Some(Operand::Register {
            bank: RegisterBank::Psr,
            index: 4,
        })
    );
    assert_eq!(d.operand2, Some(Operand::Immediate(0xFFFF)));
}

#[test]
fn all_compare_opcodes() {
    for (code, op) in [
        (0x01u8, Operation::Bc),
        (0x02, Operation::Eq),
        (0x03, Operation::Ne),
        (0x04, Operation::Ge),
        (0x05, Operation::Gt),
        (0x06, Operation::Le),
        (0x07, Operation::Lt),
    ] {
        let word0 = 0x4800_0000 | 0x00C0_0000 | ((code as u32) << 8);
        assert_eq!(cmd(word0, 0, 0).operation, op);
    }
}

#[test]
fn move_reg_immediate() {
    // 50400001 00000001 00000001 = Move GPR1 ← 1.
    let d = cmd(0x5040_0001, 0x0000_0001, 0x0000_0001);
    assert_eq!(d.group, CommandGroup::SetOp);
    assert_eq!(d.sub_group, 0);
    assert_eq!(d.operation, Operation::Move);
    assert!(!d.imm_op1);
    assert!(d.imm_op2);
    assert_eq!(
        d.operand1,
        Some(Operand::Register {
            bank: RegisterBank::Gpr,
            index: 1,
        })
    );
    assert_eq!(d.operand2, Some(Operand::Immediate(1)));
}

#[test]
fn all_set_register_opcodes() {
    for (code, op) in [
        (0x01u8, Operation::Move),
        (0x02, Operation::Swap),
        (0x03, Operation::Add),
        (0x04, Operation::Sub),
        (0x05, Operation::Mul),
        (0x06, Operation::Div),
        (0x07, Operation::Mod),
        (0x08, Operation::Rnd),
        (0x09, Operation::And),
        (0x0A, Operation::Or),
        (0x0B, Operation::Xor),
        (0x0C, Operation::BitSet),
        (0x0D, Operation::BitClear),
        (0x0E, Operation::ShiftLeft),
        (0x0F, Operation::ShiftRight),
    ] {
        // grp=2, sub_grp=0, op_cnt=2.
        let word0 = 0x5000_0000 | (code as u32);
        assert_eq!(cmd(word0, 0, 0).operation, op);
    }
}

#[test]
fn set_button_page() {
    // 51000003 80000FF6 C0000FF7.
    let d = cmd(0x5100_0003, 0x8000_0FF6, 0xC000_0FF7);
    assert_eq!(d.group, CommandGroup::SetOp);
    assert_eq!(d.sub_group, 1);
    assert_eq!(d.operation, Operation::SetButtonPage);
    assert_eq!(d.operand_count, 2);
    assert_eq!(
        d.operand1,
        Some(Operand::Register {
            bank: RegisterBank::Psr,
            index: 0xFF6,
        })
    );
    assert_eq!(
        d.operand2,
        Some(Operand::Register {
            bank: RegisterBank::PsrSecondary,
            index: 0xFF7,
        })
    );
}

#[test]
fn all_setsystem_opcodes() {
    for (code, op) in [
        (0x01u8, Operation::SetStream),
        (0x02, Operation::SetNvTimer),
        (0x03, Operation::SetButtonPage),
        (0x04, Operation::EnableButton),
        (0x05, Operation::DisableButton),
        (0x06, Operation::SetSecondaryStream),
        (0x07, Operation::PopUpOff),
        (0x08, Operation::StillOn),
        (0x09, Operation::StillOff),
        (0x0A, Operation::SetOutputMode),
        (0x0B, Operation::SetStreamSS),
    ] {
        // grp=2, sub_grp=1.
        let word0 = 0x5100_0000 | (code as u32);
        assert_eq!(cmd(word0, 0, 0).operation, op);
    }
}

#[test]
fn unknown_branch_op_preserves_selector() {
    // Branch, GOTO sub-group, unrecognised selector 7. The branch
    // selector is the low nibble of byte 1 (bits 19-16), so a
    // selector of 7 is word0 = 0x0007_0000.
    let d = cmd(0x0007_0000, 0, 0);
    assert_eq!(d.group, CommandGroup::Branch);
    assert_eq!(
        d.operation,
        Operation::Unknown {
            sub_grp: 0,
            selector: 7,
        }
    );
}

#[test]
fn unknown_set_opcode_preserves_selector() {
    // Set, sub_grp 0, op code 0xFF (not a defined op).
    let d = cmd(0x5000_00FF, 0, 0);
    assert_eq!(d.group, CommandGroup::SetOp);
    assert_eq!(
        d.operation,
        Operation::Unknown {
            sub_grp: 0,
            selector: 0xFF,
        }
    );
}

#[test]
fn reserved_group_three() {
    // grp = 3 (bits 28-27 set).
    let d = cmd(0x1800_0000, 0, 0);
    assert_eq!(d.group, CommandGroup::Reserved(3));
    assert!(matches!(d.operation, Operation::Unknown { .. }));
}

#[test]
fn nav_command_decode_passthrough() {
    let nc = NavCommand {
        bytes: {
            let mut b = [0u8; 12];
            b[0..4].copy_from_slice(&0x2181_0000u32.to_be_bytes());
            b[4..8].copy_from_slice(&1u32.to_be_bytes());
            b
        },
    };
    assert_eq!(nc.decode().operation, Operation::JumpTitle);
}

#[test]
fn gpr_reference_high_index() {
    // GPR 4095 (max) as a register operand: bit31=0, low 12 bits.
    let d = cmd(0x5040_0001, 0x0000_0FFF, 0x0000_0001);
    assert_eq!(
        d.operand1,
        Some(Operand::Register {
            bank: RegisterBank::Gpr,
            index: 0x0FFF,
        })
    );
}
