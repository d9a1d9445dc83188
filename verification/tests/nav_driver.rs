//! Driving titles.
use bluray::bdmv::nav_driver::{DriveOutcome, NavDriver, PSR_TITLE, PlayRequest};
use bluray::bdmv::index_bdmv::{AppInfoBdmv, IndexBdmv, IndexEntry, IndexObjectType, TitleEntry};
use bluray::bdmv::movie_object::{MovieObject, MovieObjects, NavCommand};

// --- builders ---

fn nc(word0: u32, word1: u32, word2: u32) -> NavCommand {
    let mut b = [0u8; 12];
    b[0..4].copy_from_slice(&word0.to_be_bytes());
    b[4..8].copy_from_slice(&word1.to_be_bytes());
    b[8..12].copy_from_slice(&word2.to_be_bytes());
    NavCommand { bytes: b }
}

/// `Move GPR g, imm v`.
fn move_gpr_imm(g: u16, v: u32) -> NavCommand {
    nc(0x5040_0001, g as u32, v)
}

/// `JumpTitle imm t`.
fn jump_title(t: u32) -> NavCommand {
    nc(0x2181_0000, t, 0)
}

/// `CallTitle imm t`.
fn call_title(t: u32) -> NavCommand {
    nc(0x2183_0000, t, 0)
}

/// `Resume` (Branch sub_grp 1, branch_opt 4).
fn resume_cmd() -> NavCommand {
    nc(0x0104_0000, 0, 0)
}

/// `PlayPL imm playlist` (Branch sub_grp 2, branch_opt 0, op_cnt 1, imm).
fn play_pl(playlist: u32) -> NavCommand {
    let word0 = (1u32 << 29) | (2u32 << 24) | (1 << 23);
    nc(word0, playlist, 0)
}

fn obj(commands: Vec<NavCommand>) -> MovieObject {
    MovieObject {
        resume_intention_flag: 0,
        menu_call_mask: 0,
        title_search_mask: 0,
        commands,
    }
}

fn objects(list: Vec<MovieObject>) -> MovieObjects {
    MovieObjects {
        version: *b"0200",
        movie_objects: list,
    }
}

fn hdmv(id: u16) -> IndexEntry {
    IndexEntry {
        object: IndexObjectType::Hdmv {
            playback_type: 0,
            movie_object_id_ref: id,
        },
    }
}

fn bdj() -> IndexEntry {
    IndexEntry {
        object: IndexObjectType::BdJ {
            playback_type: 0,
            bdjo_file_name: "00000".into(),
        },
    }
}

fn index(first: IndexEntry, menu: IndexEntry, titles: Vec<IndexEntry>) -> IndexBdmv {
    IndexBdmv {
        version: *b"0200",
        app_info: AppInfoBdmv {
            initial_output_mode_preference: 0,
            content_exist_flag: 1,
            video_format: 6,
            frame_rate: 4,
        },
        first_playback_title: first,
        menu_title: menu,
        titles,
    }
}

// --- tests ---

#[test]
fn first_playback_runs_resolved_object() {
    // FirstPlayback → object 0 which sets GPR0 = 7.
    let idx = index(hdmv(0), hdmv(1), vec![hdmv(2)]);
    let objs = objects(vec![
        obj(vec![move_gpr_imm(0, 7)]),
        obj(vec![]),
        obj(vec![]),
    ]);
    let mut d = NavDriver::new(&idx, &objs);
    assert_eq!(d.run(TitleEntry::FirstPlayback), DriveOutcome::Finished);
    assert_eq!(d.registers().gpr(0), Some(7));
}

#[test]
fn jump_title_is_resolved_through_index() {
    // FirstPlayback object jumps to Title 1; Title 1's object (id 2)
    // sets GPR1 = 9 then finishes. The driver resolves the title→object
    // mapping itself (Title 1 = titles[0] = object 2).
    let idx = index(hdmv(0), hdmv(9), vec![hdmv(2)]);
    let objs = objects(vec![
        obj(vec![jump_title(1)]),      // object 0 (FirstPlayback)
        obj(vec![]),                   // object 1
        obj(vec![move_gpr_imm(1, 9)]), // object 2 (Title 1)
    ]);
    let mut d = NavDriver::new(&idx, &objs);
    assert_eq!(d.run(TitleEntry::FirstPlayback), DriveOutcome::Finished);
    assert_eq!(d.registers().gpr(1), Some(9));
    // PSR4 (Title) was seeded to 1 when the driver entered Title 1.
    assert_eq!(d.registers().psr(PSR_TITLE), Some(1));
    assert_eq!(d.current_entry(), TitleEntry::Title { number: 1 });
}

#[test]
fn call_title_then_resume_shares_registers() {
    // FirstPlayback (object 0): CallTitle 1, then set GPR0 = 100.
    // Title 1 (object 1): set GPR1 = 50, then Resume → returns to caller.
    let idx = index(hdmv(0), hdmv(9), vec![hdmv(1)]);
    let objs = objects(vec![
        obj(vec![call_title(1), move_gpr_imm(0, 100)]),
        obj(vec![move_gpr_imm(1, 50), resume_cmd()]),
    ]);
    let mut d = NavDriver::new(&idx, &objs);
    assert_eq!(d.run(TitleEntry::FirstPlayback), DriveOutcome::Finished);
    // Both registers set: callee's GPR1 visible to the caller; caller's
    // GPR0 set after the call returned.
    assert_eq!(d.registers().gpr(1), Some(50));
    assert_eq!(d.registers().gpr(0), Some(100));
    assert_eq!(d.title_call_depth(), 0);
    // Back in the FirstPlayback entry; PSR4 re-seeded to 0.
    assert_eq!(d.current_entry(), TitleEntry::FirstPlayback);
    assert_eq!(d.registers().psr(PSR_TITLE), Some(0));
}

#[test]
fn call_title_implicit_return_on_end_of_list() {
    // Title 1's object runs off the end instead of an explicit Resume.
    let idx = index(hdmv(0), hdmv(9), vec![hdmv(1)]);
    let objs = objects(vec![
        obj(vec![call_title(1), move_gpr_imm(0, 7)]),
        obj(vec![move_gpr_imm(1, 8)]),
    ]);
    let mut d = NavDriver::new(&idx, &objs);
    assert_eq!(d.run(TitleEntry::FirstPlayback), DriveOutcome::Finished);
    assert_eq!(d.registers().gpr(1), Some(8));
    assert_eq!(d.registers().gpr(0), Some(7));
}

#[test]
fn play_pl_yields_then_resumes() {
    // FirstPlayback: PlayPL 5, then set GPR0 = 1 after playback.
    let idx = index(hdmv(0), hdmv(9), vec![]);
    let objs = objects(vec![obj(vec![play_pl(5), move_gpr_imm(0, 1)])]);
    let mut d = NavDriver::new(&idx, &objs);
    assert_eq!(
        d.run(TitleEntry::FirstPlayback),
        DriveOutcome::Play(PlayRequest {
            playlist: 5,
            play_item: None,
            mark: None,
        })
    );
    // GPR0 not set yet — the script paused at the PlayPL.
    assert_eq!(d.registers().gpr(0), Some(0));
    // Player serviced playback; resume runs the tail.
    assert_eq!(d.resume(), DriveOutcome::Finished);
    assert_eq!(d.registers().gpr(0), Some(1));
}

#[test]
fn top_menu_seeds_sentinel_title() {
    // TopMenu entry → object 1; PSR4 should be the 0xFFFF top-menu value.
    let idx = index(hdmv(0), hdmv(1), vec![]);
    let objs = objects(vec![obj(vec![]), obj(vec![move_gpr_imm(0, 1)])]);
    let mut d = NavDriver::new(&idx, &objs);
    assert_eq!(d.run(TitleEntry::TopMenu), DriveOutcome::Finished);
    assert_eq!(d.registers().psr(PSR_TITLE), Some(0xFFFF));
    assert_eq!(d.registers().gpr(0), Some(1));
}

#[test]
fn jump_to_bdj_title_is_bad_title() {
    // Title 1 is a BD-J title; a JumpTitle 1 cannot be run by the HDMV VM.
    let idx = index(hdmv(0), hdmv(9), vec![bdj()]);
    let objs = objects(vec![obj(vec![jump_title(1)])]);
    let mut d = NavDriver::new(&idx, &objs);
    assert_eq!(d.run(TitleEntry::FirstPlayback), DriveOutcome::BadTitle(1));
}

#[test]
fn jump_to_out_of_range_title_is_bad_title() {
    let idx = index(hdmv(0), hdmv(9), vec![hdmv(1)]);
    let objs = objects(vec![obj(vec![jump_title(5)]), obj(vec![])]);
    let mut d = NavDriver::new(&idx, &objs);
    assert_eq!(d.run(TitleEntry::FirstPlayback), DriveOutcome::BadTitle(5));
}

#[test]
fn run_bad_entry_bdj_first_playback() {
    // FirstPlayback is itself a BD-J title → not runnable.
    let idx = index(bdj(), hdmv(0), vec![]);
    let objs = objects(vec![obj(vec![])]);
    let mut d = NavDriver::new(&idx, &objs);
    assert!(matches!(
        d.run(TitleEntry::FirstPlayback),
        DriveOutcome::BadTitle(_)
    ));
}

#[test]
fn jump_to_movie_object_out_of_table_is_bad_object() {
    // Title resolves to object id 9 but the table only has one object.
    let idx = index(hdmv(9), hdmv(0), vec![]);
    let objs = objects(vec![obj(vec![])]);
    let mut d = NavDriver::new(&idx, &objs);
    assert_eq!(d.run(TitleEntry::FirstPlayback), DriveOutcome::BadObject(9));
}

#[test]
fn inter_title_jump_cycle_is_bounded() {
    // Title 1 ↔ Title 2 JumpTitle each other forever.
    let idx = index(hdmv(0), hdmv(9), vec![hdmv(1), hdmv(2)]);
    let objs = objects(vec![
        obj(vec![jump_title(1)]),
        obj(vec![jump_title(2)]),
        obj(vec![jump_title(1)]),
    ]);
    let mut d = NavDriver::new(&idx, &objs);
    d.set_title_budget(50);
    assert_eq!(
        d.run(TitleEntry::FirstPlayback),
        DriveOutcome::BudgetExhausted
    );
}

#[test]
fn script_compares_seeded_psr4_title() {
    // FirstPlayback jumps to Title 2; Title 2's object compares PSR4 == 2
    // (the seeded title number) and on true sets GPR0 = 1.
    // EQ PSR4, imm 2 : op1 register PSR4 (0x80000004), op2 immediate.
    let eq_psr4 = nc(0x4840_0200, 0x8000_0004, 0x0000_0002);
    let idx = index(hdmv(0), hdmv(9), vec![hdmv(3), hdmv(1)]);
    let objs = objects(vec![
        obj(vec![jump_title(2)]),               // object 0 FirstPlayback
        obj(vec![eq_psr4, move_gpr_imm(0, 1)]), // object 1 = Title 2
        obj(vec![]),
        obj(vec![]), // object 3 = Title 1
    ]);
    let mut d = NavDriver::new(&idx, &objs);
    assert_eq!(d.run(TitleEntry::FirstPlayback), DriveOutcome::Finished);
    assert_eq!(d.registers().gpr(0), Some(1));
}
