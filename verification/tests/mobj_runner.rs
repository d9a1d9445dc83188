//! Running movie objects.
use bluray::bdmv::mobj_runner::{MobjRunner, RunOutcome};
use bluray::bdmv::movie_object::{MovieObject, MovieObjects, NavCommand};
use bluray::bdmv::vm::NavRequest;

fn nc(word0: u32, word1: u32, word2: u32) -> NavCommand {
    let mut bytes = [0u8; 12];
    bytes[0..4].copy_from_slice(&word0.to_be_bytes());
    bytes[4..8].copy_from_slice(&word1.to_be_bytes());
    bytes[8..12].copy_from_slice(&word2.to_be_bytes());
    NavCommand { bytes }
}

fn move_gpr_imm(g: u16, v: u32) -> NavCommand {
    nc(0x5040_0001, g as u32, v)
}

fn obj(commands: Vec<NavCommand>) -> MovieObject {
    MovieObject {
        resume_intention_flag: 0,
        menu_call_mask: 0,
        title_search_mask: 0,
        commands,
    }
}

fn table(objects: Vec<MovieObject>) -> MovieObjects {
    MovieObjects {
        version: *b"0200",
        movie_objects: objects,
    }
}

#[test]
fn single_object_runs_to_finish() {
    let t = table(vec![obj(vec![move_gpr_imm(0, 7)])]);
    let mut r = MobjRunner::new(&t);
    assert_eq!(r.run(0), RunOutcome::Finished);
    assert_eq!(r.vm.registers.gpr(0), Some(7));
}

#[test]
fn jump_object_switches_and_shares_registers() {
    // Object 0 sets GPR0=1 then JumpObject 1; object 1 sets GPR1=2.
    // JumpObject 1 : grp=0, sub_grp=1, branch_opt=0, op_cnt=1, imm.
    let jump_obj_1 = nc(0x2180_0000, 0x0000_0001, 0);
    let t = table(vec![
        obj(vec![move_gpr_imm(0, 1), jump_obj_1]),
        obj(vec![move_gpr_imm(1, 2)]),
    ]);
    let mut r = MobjRunner::new(&t);
    assert_eq!(r.run(0), RunOutcome::Finished);
    assert_eq!(r.vm.registers.gpr(0), Some(1));
    assert_eq!(r.vm.registers.gpr(1), Some(2));
    assert_eq!(r.current_object(), 1);
}

#[test]
fn call_object_then_implicit_return() {
    // Object 0: CallObject 1, then set GPR0=9 (runs after return).
    // Object 1: set GPR1=5, list ends → implicit return.
    // CallObject 1 : grp=0, sub_grp=1, branch_opt=2, op_cnt=1, imm.
    let call_obj_1 = nc(0x2182_0000, 0x0000_0001, 0);
    let t = table(vec![
        obj(vec![call_obj_1, move_gpr_imm(0, 9)]),
        obj(vec![move_gpr_imm(1, 5)]),
    ]);
    let mut r = MobjRunner::new(&t);
    assert_eq!(r.run(0), RunOutcome::Finished);
    assert_eq!(r.vm.registers.gpr(1), Some(5)); // callee ran
    assert_eq!(r.vm.registers.gpr(0), Some(9)); // caller resumed
    assert_eq!(r.call_depth(), 0);
    assert_eq!(r.current_object(), 0);
}

#[test]
fn call_object_then_explicit_resume() {
    // Object 1 ends with an explicit Resume instead of running off end.
    // Resume : grp=0, sub_grp=1, branch_opt=4, op_cnt=0.
    let call_obj_1 = nc(0x2182_0000, 0x0000_0001, 0);
    let resume = nc(0x0104_0000, 0, 0);
    let t = table(vec![
        obj(vec![call_obj_1, move_gpr_imm(0, 3)]),
        obj(vec![move_gpr_imm(1, 4), resume]),
    ]);
    let mut r = MobjRunner::new(&t);
    assert_eq!(r.run(0), RunOutcome::Finished);
    assert_eq!(r.vm.registers.gpr(1), Some(4));
    assert_eq!(r.vm.registers.gpr(0), Some(3));
}

#[test]
fn jump_title_is_yielded_then_resumable() {
    // Object 0: JumpTitle 2 (yields), then set GPR0=1 on resume.
    let jump_title_2 = nc(0x2181_0000, 0x0000_0002, 0);
    let t = table(vec![obj(vec![jump_title_2, move_gpr_imm(0, 1)])]);
    let mut r = MobjRunner::new(&t);
    assert_eq!(
        r.run(0),
        RunOutcome::Request(NavRequest::JumpTitle { title: 2 })
    );
    // Player serviced it; resume continues the object after the branch.
    assert_eq!(r.resume(), RunOutcome::Finished);
    assert_eq!(r.vm.registers.gpr(0), Some(1));
}

#[test]
fn play_pl_is_yielded() {
    // PlayPL playlist=3 : grp=0, sub_grp=2, branch_opt=0, op_cnt=1, imm.
    let play_pl = {
        let word0 =
            (1u32 << 29) | (2u32 << 24) | (1 << 23) /* imm_op1 */;
        nc(word0, 0x0000_0003, 0)
    };
    let t = table(vec![obj(vec![play_pl])]);
    let mut r = MobjRunner::new(&t);
    assert_eq!(
        r.run(0),
        RunOutcome::Request(NavRequest::PlayPlayList { playlist: 3 })
    );
}

#[test]
fn bad_jump_object_id_reported() {
    let jump_obj_5 = nc(0x2180_0000, 0x0000_0005, 0);
    let t = table(vec![obj(vec![jump_obj_5])]);
    let mut r = MobjRunner::new(&t);
    assert_eq!(r.run(0), RunOutcome::BadObject(5));
}

#[test]
fn run_bad_entry_reported() {
    let t = table(vec![obj(vec![])]);
    let mut r = MobjRunner::new(&t);
    assert_eq!(r.run(3), RunOutcome::BadObject(3));
}

#[test]
fn inter_object_jump_cycle_is_bounded() {
    // Two objects that JumpObject each other forever.
    let jump_0 = nc(0x2180_0000, 0x0000_0000, 0);
    let jump_1 = nc(0x2180_0000, 0x0000_0001, 0);
    let t = table(vec![obj(vec![jump_1]), obj(vec![jump_0])]);
    let mut r = MobjRunner::new(&t);
    r.set_object_budget(100);
    assert_eq!(r.run(0), RunOutcome::BudgetExhausted);
}

#[test]
fn nested_calls_unwind_in_order() {
    // 0 calls 1; 1 calls 2; 2 sets GPR2; unwinds 2→1→0 setting markers.
    let call1 = nc(0x2182_0000, 0x0000_0001, 0);
    let call2 = nc(0x2182_0000, 0x0000_0002, 0);
    let t = table(vec![
        obj(vec![call1, move_gpr_imm(0, 10)]),
        obj(vec![call2, move_gpr_imm(1, 20)]),
        obj(vec![move_gpr_imm(2, 30)]),
    ]);
    let mut r = MobjRunner::new(&t);
    assert_eq!(r.run(0), RunOutcome::Finished);
    assert_eq!(r.vm.registers.gpr(2), Some(30));
    assert_eq!(r.vm.registers.gpr(1), Some(20));
    assert_eq!(r.vm.registers.gpr(0), Some(10));
    assert_eq!(r.call_depth(), 0);
}
