//! What holds of navigation as a whole, on concrete values.
use bluray::bdmv::index_bdmv::{AppInfoBdmv, IndexBdmv, IndexEntry, IndexObjectType, TitleEntry};
use bluray::bdmv::mobj_runner::{MobjRunner, RunOutcome};
use bluray::bdmv::movie_object::{MovieObject, MovieObjects, NavCommand};
use bluray::bdmv::nav_command::{
    decode_operation, CommandGroup, DecodedCommand, Operand, Operation, RegisterBank,
};
use bluray::bdmv::nav_driver::{DriveOutcome, NavDriver};
use bluray::bdmv::register_model::{psr_info, PsrClass};
use bluray::bdmv::vm::{HdmvVm, NavRequest, Step};

fn command(word0: u32, word1: u32, word2: u32) -> NavCommand {
    let mut bytes = [0u8; 12];
    bytes[0..4].copy_from_slice(&word0.to_be_bytes());
    bytes[4..8].copy_from_slice(&word1.to_be_bytes());
    bytes[8..12].copy_from_slice(&word2.to_be_bytes());
    NavCommand { bytes }
}

fn object(commands: Vec<NavCommand>) -> MovieObject {
    MovieObject { resume_intention_flag: 0, menu_call_mask: 0, title_search_mask: 0, commands }
}

fn objects(movie_objects: Vec<MovieObject>) -> MovieObjects {
    MovieObjects { version: *b"0200", movie_objects }
}

#[test]
fn selectors_are_told_apart() {
    for sub in 0u8..8 {
        for a in 0u8..16 {
            for b in 0u8..16 {
                let x = decode_operation(CommandGroup::Branch, sub, a, 0, 0);
                let y = decode_operation(CommandGroup::Branch, sub, b, 9, 9);
                assert_eq!(x == y, a == b);
            }
        }
        let far = decode_operation(CommandGroup::SetOp, sub, 1, 2, 200);
        assert_eq!(far, Operation::Unknown { sub_grp: sub, selector: 200 });
    }
    assert_eq!(
        decode_operation(CommandGroup::Reserved(3), 5, 1, 2, 3),
        Operation::Unknown { sub_grp: 5, selector: 3 }
    );
}

#[test]
fn register_operands_resolve_to_registers() {
    assert!(Operand::Immediate(4).resolve_register().is_none());
    let gpr = Operand::Register { bank: RegisterBank::Gpr, index: 4 };
    let r = gpr.resolve_register().expect("a register");
    assert_eq!((r.bank, r.index), (RegisterBank::Gpr, 4));
    assert!(r.psr.is_none());
    let psr = Operand::Register { bank: RegisterBank::PsrSecondary, index: 4 };
    let info = psr.resolve_register().and_then(|r| r.psr).expect("a player register");
    assert_eq!((info.index, info.name), (4, "Title"));
    assert_eq!(Some(info), psr_info(4));
    for index in [128u16, 255, 256, 260, 4095] {
        let r = Operand::Register { bank: RegisterBank::Psr, index }.resolve_register();
        assert!(r.expect("a register").psr.is_none());
    }
}

#[test]
fn no_command_changes_a_protected_register() {
    for i in 0u8..128 {
        let protected = psr_info(i).expect("exists").class.is_read_only_to_nav();
        let mut vm = HdmvVm::new();
        vm.registers.set_psr_player(i, 77);
        // Move, Add, BitSet and Swap on the register.
        let dst = 0x8000_0000 | i as u32;
        let list = [
            command(0x5040_0001, dst, 5),
            command(0x5040_0003, dst, 5),
            command(0x5040_000C, dst, 9),
            command(0x5000_0002, dst, 1),
            command(0x5000_0002, 1, dst),
        ];
        assert_eq!(vm.run(&list), Step::Halted);
        assert_eq!(vm.registers.psr(i) == Some(77), protected);
    }
    assert!(matches!(psr_info(13).expect("exists").class, PsrClass::PlayerSetting));
}

#[test]
fn swapping_twice_changes_nothing() {
    let mut vm = HdmvVm::new();
    vm.registers.set_gpr(10, 1);
    vm.registers.set_psr_player(5, 2);
    let swap = [command(0x5000_0002, 10, 0x8000_0005)];
    assert_eq!(vm.step(&swap), Step::Continue);
    assert_eq!((vm.registers.gpr(10), vm.registers.psr(5)), (Some(2), Some(1)));
    vm.set_pc(0);
    assert_eq!(vm.step(&swap), Step::Continue);
    assert_eq!((vm.registers.gpr(10), vm.registers.psr(5)), (Some(1), Some(2)));
}

#[test]
fn a_larger_budget_changes_no_run_that_ended() {
    let list = [
        command(0x5040_0001, 1, 3), // r1 is 3
        command(0x5040_0004, 1, 1), // one less
        command(0x4840_0200, 1, 0), // is it zero?
        command(0x2181_0000, 9, 0), // then JumpTitle 9
        command(0x2081_0000, 1, 0), // GoTo 1
    ];
    let mut small = HdmvVm::new();
    small.set_step_budget(20);
    let mut large = HdmvVm::new();
    let end = small.run(&list);
    assert_eq!(end, Step::Branch(NavRequest::JumpTitle { title: 9 }));
    assert_eq!(large.run(&list), end);
    assert_eq!(small.pc(), large.pc());
    let mut none = HdmvVm::new();
    none.set_step_budget(0);
    assert_eq!(none.run(&list), Step::Halted);
    assert_eq!(none.pc(), 0);
}

#[test]
fn a_list_can_be_entered_in_the_middle() {
    let table = objects(vec![
        object(vec![command(0x5040_0001, 1, 1)]),
        object(vec![command(0x5040_0001, 2, 1), command(0x5040_0001, 3, 1)]),
    ]);
    let mut runner = MobjRunner::new(&table);
    runner.set_object_pc(1, 1);
    assert_eq!(runner.current_object(), 1);
    assert_eq!(runner.resume(), RunOutcome::Finished);
    assert_eq!(runner.vm.registers.gpr(1), Some(0));
    assert_eq!(runner.vm.registers.gpr(2), Some(0));
    assert_eq!(runner.vm.registers.gpr(3), Some(1));
}

#[test]
fn a_refused_call_leaves_no_call_open() {
    let table = objects(vec![object(vec![command(0x2182_0000, 7, 0)])]);
    let mut runner = MobjRunner::new(&table);
    assert_eq!(runner.run(0), RunOutcome::BadObject(7));
    assert_eq!(runner.call_depth(), 0);
    assert_eq!(runner.run(1), RunOutcome::BadObject(1));
}

fn title(id: u16) -> IndexEntry {
    IndexEntry { object: IndexObjectType::Hdmv { playback_type: 0, movie_object_id_ref: id } }
}

fn index_of(titles: Vec<IndexEntry>) -> IndexBdmv {
    IndexBdmv {
        version: *b"0200",
        app_info: AppInfoBdmv {
            initial_output_mode_preference: 0,
            content_exist_flag: 1,
            video_format: 6,
            frame_rate: 1,
        },
        first_playback_title: title(0),
        menu_title: title(0),
        titles,
    }
}

#[test]
fn a_driver_waits_after_a_request_and_only_then() {
    // TerminatePL, then the end.
    let table = objects(vec![object(vec![command(0x0203_0000, 0, 0)])]);
    let index = index_of(vec![title(0)]);
    let mut d = NavDriver::new(&index, &table);
    assert_eq!(d.resume(), DriveOutcome::Finished);
    let one = TitleEntry::Title { number: 1 };
    assert_eq!(d.run(one), DriveOutcome::Request(NavRequest::TerminatePlayList));
    assert!(d.pending);
    assert_eq!(d.resume(), DriveOutcome::Finished);
    assert!(!d.pending);
    assert_eq!(d.current_entry(), one);
}

#[test]
fn the_player_seeds_registers_through_the_driver() {
    // Compare PSR13 with 5, then JumpTitle 2.
    let table = objects(vec![
        object(vec![command(0x4840_0200, 0x8000_000D, 5), command(0x2181_0000, 2, 0)]),
        object(vec![command(0x5040_0001, 8, 8)]),
    ]);
    let index = index_of(vec![title(0), title(1)]);
    let mut d = NavDriver::new(&index, &table);
    d.registers_mut().set_psr_player(13, 5);
    assert_eq!(d.run(TitleEntry::Title { number: 1 }), DriveOutcome::Finished);
    assert_eq!(d.registers().gpr(8), Some(8));
    assert_eq!(d.registers().psr(13), Some(5));
    assert_eq!(d.registers().psr(4), Some(2));
    assert_eq!(d.current_entry(), TitleEntry::Title { number: 2 });
}

#[test]
fn title_numbers_count_in_sixteen_bits() {
    let table = objects(vec![
        object(vec![command(0x2181_0000, 0x0001_0002, 0)]),
        object(vec![command(0x5040_0001, 8, 8)]),
    ]);
    let index = index_of(vec![title(0), title(1)]);
    let mut d = NavDriver::new(&index, &table);
    assert_eq!(d.run(TitleEntry::Title { number: 1 }), DriveOutcome::Finished);
    assert_eq!(d.registers().gpr(8), Some(8));
}

#[test]
fn commands_read_as_text() {
    let d = DecodedCommand::decode(&command(0x5040_0001, 1, 0x1F).bytes);
    assert_eq!(d.disassemble(), "Move r1, 0x1f");
    let d = DecodedCommand::decode(&command(0x5100_0003, 0x8000_0FF6, 0xC000_0FF7).bytes);
    assert_eq!(d.disassemble(), "SetButtonPage PSR4086, PSR4087*");
    let d = DecodedCommand::decode(&command(0x5000_00FF, 0, 0).bytes);
    assert_eq!(d.operation, Operation::Unknown { sub_grp: 0, selector: 0xFF });
}
