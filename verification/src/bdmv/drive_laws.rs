//! How movie objects and titles follow one another.
//!
//! A run is told by the run that it goes on with: the laws give the object, the
//! command and the registers that it goes on from, and the places that it will
//! come back to.
use vstd::prelude::*;

use crate::bdmv::index_bdmv::TitleEntry;
use crate::bdmv::mobj_runner::{drive_objects, ResumeFrame, RunLimits, RunOutcome, RunnerState};
use crate::bdmv::nav_driver::{
    drive_titles, named_title, resume_drive, run_entry, title_value, DriveLimits, DriveOutcome,
    DriverState, TitleFrame,
};
use crate::bdmv::vm::{run_steps, NavRequest, Step, VmState};

verus! {

/// Where the commands of the current object stop, and at what.
pub open spec fn stopped(lim: RunLimits, st: RunnerState) -> (VmState, Step) {
    run_steps(st.vm, lim.objects[st.current].commands, lim.steps)
}

/// Whether two machines have the same registers.
pub open spec fn same_registers(a: VmState, b: VmState) -> bool {
    a.gpr == b.gpr && a.psr == b.psr
}

/// Whether `next` is at the first command of an object, with the registers that
/// a machine has.
pub open spec fn at_start(next: RunnerState, id: int, vm: VmState) -> bool {
    next.current == id && next.vm.pc == 0 && same_registers(next.vm, vm)
}

proof fn lemma_vm_same(a: VmState, b: VmState)
    requires
        same_registers(a, b),
        a.pc == b.pc,
    ensures
        a == b,
{
}

/// A jump goes on at the first command of the object that it names, and will
/// come back to where it would have before.
pub proof fn lemma_jump_object(lim: RunLimits, st: RunnerState, left: nat, id: u32, next: RunnerState)
    requires
        stopped(lim, st).1 == Step::Branch(NavRequest::JumpObject { mobj_id: id }),
    ensures
        left > 0 && id < lim.objects.len() && at_start(next, id as int, stopped(lim, st).0)
            && next.resume == st.resume ==> drive_objects(lim, st, left) == drive_objects(
            lim,
            next,
            (left - 1) as nat,
        ),
        left > 0 && id >= lim.objects.len() ==> drive_objects(lim, st, left).1
            == RunOutcome::BadObject(id),
        left == 0 ==> drive_objects(lim, st, left).1 == RunOutcome::BudgetExhausted,
        left == 0 || id >= lim.objects.len() ==> {
            let end = drive_objects(lim, st, left).0;
            &&& end.vm == stopped(lim, st).0
            &&& end.current == st.current
            &&& end.resume == st.resume
        },
{
    let (vm, step) = stopped(lim, st);
    if at_start(next, id as int, vm) && next.resume == st.resume {
        lemma_vm_same(next.vm, vm.at(0));
        let now = RunnerState { vm, ..st };
        assert(now.at(id as int, 0) == next);
    }
}

/// A call goes on at the first command of the object that it names, and will
/// come back, before all else, to the command behind it in its own object.
pub proof fn lemma_call_object(lim: RunLimits, st: RunnerState, left: nat, id: u32, next: RunnerState)
    requires
        stopped(lim, st).1 == Step::Branch(NavRequest::CallObject { mobj_id: id }),
        0 <= st.current <= usize::MAX,
        0 <= stopped(lim, st).0.pc <= usize::MAX,
    ensures
        left > 0 && id < lim.objects.len() && at_start(next, id as int, stopped(lim, st).0)
            && next.resume.len() == st.resume.len() + 1 && next.resume.drop_last() == st.resume
            && next.resume.last().object == st.current && next.resume.last().pc == stopped(
            lim,
            st,
        ).0.pc ==> drive_objects(lim, st, left) == drive_objects(lim, next, (left - 1) as nat),
        left > 0 && id >= lim.objects.len() ==> drive_objects(lim, st, left).1
            == RunOutcome::BadObject(id),
        left == 0 ==> drive_objects(lim, st, left).1 == RunOutcome::BudgetExhausted,
        left == 0 || id >= lim.objects.len() ==> {
            let end = drive_objects(lim, st, left).0;
            &&& end.vm == stopped(lim, st).0
            &&& end.current == st.current
            &&& end.resume == st.resume
        },
{
    let (vm, step) = stopped(lim, st);
    if at_start(next, id as int, vm) && next.resume.len() == st.resume.len() + 1
        && next.resume.drop_last() == st.resume && next.resume.last().object == st.current
        && next.resume.last().pc == vm.pc {
        lemma_vm_same(next.vm, vm.at(0));
        let frame = ResumeFrame {
            object: st.current as usize,
            pc: vm.pc as usize,
        };
        let called = RunnerState { resume: st.resume.push(frame), vm, ..st };
        assert(next.resume =~= st.resume.push(frame));
        assert(called.at(id as int, 0) == next);
    }
}

/// An object that is done, or that returns, goes on at the innermost place to
/// come back to; where there is none, the run is finished. A run that may not go
/// on has taken that place off all the same.
pub proof fn lemma_object_done(lim: RunLimits, st: RunnerState, left: nat, next: RunnerState)
    requires
        !(stopped(lim, st).1 is Branch) || stopped(lim, st).1 == Step::Branch(NavRequest::Resume),
    ensures
        st.resume.len() == 0 ==> drive_objects(lim, st, left).1 == RunOutcome::Finished && ({
            let end = drive_objects(lim, st, left).0;
            end.vm == stopped(lim, st).0 && end.current == st.current && end.resume == st.resume
        }),
        st.resume.len() > 0 && left == 0 ==> drive_objects(lim, st, left).1
            == RunOutcome::BudgetExhausted && ({
            let end = drive_objects(lim, st, left).0;
            end.vm == stopped(lim, st).0 && end.current == st.current && end.resume
                == st.resume.drop_last()
        }),
        st.resume.len() > 0 && left > 0 && next.current == st.resume.last().object && next.vm.pc
            == st.resume.last().pc && same_registers(next.vm, stopped(lim, st).0) && next.resume
            == st.resume.drop_last() ==> drive_objects(lim, st, left) == drive_objects(
            lim,
            next,
            (left - 1) as nat,
        ),
{
    let (vm, step) = stopped(lim, st);
    if st.resume.len() > 0 && next.current == st.resume.last().object && next.vm.pc
        == st.resume.last().pc && same_registers(next.vm, vm) && next.resume
        == st.resume.drop_last() {
        let now = RunnerState { vm, ..st };
        lemma_vm_same(next.vm, vm.at(st.resume.last().pc as int));
        assert(now.returned() == next);
    }
}

/// Whatever else a command asks for is handed to the player, with the objects
/// left where they stopped.
pub proof fn lemma_object_asks(lim: RunLimits, st: RunnerState, left: nat, request: NavRequest)
    requires
        stopped(lim, st).1 == Step::Branch(request),
        !(request is JumpObject) && !(request is CallObject) && !(request is Resume),
    ensures
        drive_objects(lim, st, left).1 == RunOutcome::Request(request),
        ({
            let end = drive_objects(lim, st, left).0;
            end.vm == stopped(lim, st).0 && end.current == st.current && end.resume == st.resume
        }),
{
}

// ---------------------------------------------------------------------
// Titles
// ---------------------------------------------------------------------

/// Whether PSR4 holds the number of an entry - 0 for first playback, 65535 for
/// the top menu - and the other registers are those of `before`.
pub open spec fn shows(before: VmState, after: VmState, entry: TitleEntry) -> bool {
    &&& after.gpr == before.gpr
    &&& after.psr.len() == before.psr.len()
    &&& forall|i: int|
        0 <= i < before.psr.len() && i != 4 ==> #[trigger] after.psr[i] == before.psr[i]
    &&& entry matches TitleEntry::Title { number } ==> after.psr[4] == number
    &&& entry is FirstPlayback ==> after.psr[4] == 0
    &&& entry is TopMenu ==> after.psr[4] == 0xFFFF
}

/// Whether `next` is at the first command of an entry's object, with no object
/// to come back to and the entry's number in its register.
pub open spec fn title_start(st: DriverState, next: DriverState, entry: TitleEntry, id: u16) -> bool {
    &&& next.entry == entry
    &&& next.runner.current == id
    &&& next.runner.vm.pc == 0
    &&& next.runner.resume.len() == 0
    &&& shows(st.runner.vm, next.runner.vm, entry)
    &&& next.pending == st.pending
}

/// The run of objects from a state on, and then of titles.
pub open spec fn goes_on(lim: DriveLimits, next: DriverState, left: nat) -> (
    DriverState,
    DriveOutcome,
) {
    let (runner, out) = drive_objects(lim.run, next.runner, lim.objects);
    drive_titles(lim, DriverState { runner, ..next }, out, left)
}

proof fn lemma_shown(before: VmState, after: VmState, entry: TitleEntry)
    requires
        shows(before, after, entry),
        before.psr.len() == 128,
    ensures
        after.psr =~= before.psr.update(4, title_value(entry)),
{
}

/// A jump to a title goes on at the first command of the object that the index
/// gives it, and forgets the objects that were to come back, but not the
/// titles. Of the number that a command names, the low sixteen bits count.
pub proof fn lemma_jump_title(
    lim: DriveLimits,
    st: DriverState,
    left: nat,
    title: u32,
    number: u16,
    next: DriverState,
)
    requires
        st.runner.vm.psr.len() == 128,
        exists|k: int| title == number + #[trigger] (k * 0x1_0000),
    ensures
        ({
            let out = RunOutcome::Request(NavRequest::JumpTitle { title });
            let entry = TitleEntry::Title { number };
            &&& left == 0 ==> drive_titles(lim, st, out, left) == (
                st,
                DriveOutcome::BudgetExhausted,
            )
            &&& left > 0 && lim.index.movie_object_of(entry) is None ==> drive_titles(
                lim,
                st,
                out,
                left,
            ) == (st, DriveOutcome::BadTitle(number))
            &&& left > 0 ==> (lim.index.movie_object_of(entry) matches Some(id) ==> {
                &&& id < lim.run.objects.len() && title_start(st, next, entry, id) && next.titles
                    == st.titles ==> drive_titles(lim, st, out, left) == goes_on(
                    lim,
                    next,
                    (left - 1) as nat,
                )
                &&& id >= lim.run.objects.len() ==> drive_titles(lim, st, out, left).1
                    == DriveOutcome::BadObject(id as u32)
            })
        }),
{
    let out = RunOutcome::Request(NavRequest::JumpTitle { title });
    let entry = TitleEntry::Title { number };
    lemma_named(title, number);
    if left > 0 {
        if let Some(id) = lim.index.movie_object_of(entry) {
            lemma_title_stops(lim, st.entered(entry), (left - 1) as nat, id as u32);
            if title_start(st, next, entry, id) && next.titles == st.titles {
                lemma_shown(st.runner.vm, next.runner.vm, entry);
                let entered = st.entered(entry);
                lemma_vm_same(entered.runner.vm.at(0), next.runner.vm);
                let begun = RunnerState {
                    vm: entered.runner.vm.at(0),
                    current: id as int,
                    resume: Seq::empty(),
                };
                assert(next.runner.resume =~= Seq::empty());
                assert(begun == next.runner);
            }
        }
    }
}

proof fn lemma_named(title: u32, number: u16)
    requires
        exists|k: int| title == number + #[trigger] (k * 0x1_0000),
    ensures
        named_title(title) == (TitleEntry::Title { number }),
{
    let k = choose|k: int| title == number + #[trigger] (k * 0x1_0000);
    assert(title as int % 0x1_0000 == number);
}

/// A call of a title does as a jump does, and will come back, before all else,
/// to the command behind it in its own title.
pub proof fn lemma_call_title(
    lim: DriveLimits,
    st: DriverState,
    left: nat,
    title: u32,
    number: u16,
    next: DriverState,
)
    requires
        st.runner.vm.psr.len() == 128,
        0 <= st.runner.current <= usize::MAX,
        0 <= st.runner.vm.pc <= usize::MAX,
        exists|k: int| title == number + #[trigger] (k * 0x1_0000),
    ensures
        ({
            let out = RunOutcome::Request(NavRequest::CallTitle { title });
            let entry = TitleEntry::Title { number };
            &&& left == 0 ==> drive_titles(lim, st, out, left) == (
                st,
                DriveOutcome::BudgetExhausted,
            )
            &&& left > 0 && lim.index.movie_object_of(entry) is None ==> drive_titles(
                lim,
                st,
                out,
                left,
            ) == (st, DriveOutcome::BadTitle(number))
            &&& left > 0 ==> (lim.index.movie_object_of(entry) matches Some(id) ==> {
                &&& id < lim.run.objects.len() && title_start(st, next, entry, id)
                    && next.titles.len() == st.titles.len() + 1 && next.titles.drop_last()
                    == st.titles && next.titles.last().entry == st.entry
                    && next.titles.last().object == st.runner.current && next.titles.last().pc
                    == st.runner.vm.pc ==> drive_titles(lim, st, out, left) == goes_on(
                    lim,
                    next,
                    (left - 1) as nat,
                )
                &&& id >= lim.run.objects.len() ==> drive_titles(lim, st, out, left).1
                    == DriveOutcome::BadObject(id as u32)
            })
        }),
{
    let entry = TitleEntry::Title { number };
    lemma_named(title, number);
    if left > 0 {
        if let Some(id) = lim.index.movie_object_of(entry) {
            let frame = TitleFrame {
                entry: st.entry,
                object: st.runner.current as usize,
                pc: st.runner.vm.pc as usize,
            };
            let called = DriverState { titles: st.titles.push(frame), ..st };
            lemma_title_stops(lim, called.entered(entry), (left - 1) as nat, id as u32);
            if title_start(st, next, entry, id) && next.titles.len() == st.titles.len() + 1
                && next.titles.drop_last() == st.titles && next.titles.last().entry == st.entry
                && next.titles.last().object == st.runner.current && next.titles.last().pc
                == st.runner.vm.pc {
                lemma_shown(st.runner.vm, next.runner.vm, entry);
                assert(next.titles =~= called.titles);
                let entered = called.entered(entry);
                lemma_vm_same(entered.runner.vm.at(0), next.runner.vm);
                let begun = RunnerState {
                    vm: entered.runner.vm.at(0),
                    current: id as int,
                    resume: Seq::empty(),
                };
                assert(next.runner.resume =~= Seq::empty());
                assert(begun == next.runner);
            }
        }
    }
}

/// A title whose objects are done goes on at the innermost title to come back
/// to, with that title's number in its register; where there is none, the drive
/// is finished.
pub proof fn lemma_title_done(lim: DriveLimits, st: DriverState, left: nat, next: DriverState)
    requires
        st.runner.vm.psr.len() == 128,
    ensures
        ({
            let out = RunOutcome::Finished;
            &&& st.titles.len() == 0 ==> drive_titles(lim, st, out, left) == (
                st,
                DriveOutcome::Finished,
            )
            &&& st.titles.len() > 0 && left == 0 ==> drive_titles(lim, st, out, left).1
                == DriveOutcome::BudgetExhausted && ({
                let end = drive_titles(lim, st, out, left).0;
                end.titles == st.titles.drop_last() && end.runner == st.runner && end.entry
                    == st.entry && end.pending == st.pending
            })
            &&& st.titles.len() > 0 && left > 0 && next.titles == st.titles.drop_last()
                && next.entry == st.titles.last().entry && next.runner.current
                == st.titles.last().object && next.runner.vm.pc == st.titles.last().pc
                && next.runner.resume == st.runner.resume && next.pending == st.pending && shows(
                st.runner.vm,
                next.runner.vm,
                next.entry,
            ) ==> drive_titles(lim, st, out, left) == goes_on(lim, next, (left - 1) as nat)
        }),
{
    if st.titles.len() > 0 && next.titles == st.titles.drop_last() && next.entry
        == st.titles.last().entry && next.runner.current == st.titles.last().object
        && next.runner.vm.pc == st.titles.last().pc && next.runner.resume == st.runner.resume
        && next.pending == st.pending && shows(st.runner.vm, next.runner.vm, next.entry) {
        lemma_shown(st.runner.vm, next.runner.vm, next.entry);
        let back = st.returned();
        lemma_vm_same(back.runner.vm, next.runner.vm);
        assert(back.runner == next.runner);
        assert(back == next);
    }
}

/// What the objects ask of the player reaches it: a playlist from its start,
/// from a PlayItem or from a mark, or the request itself. The drive can go on.
pub proof fn lemma_title_asks(lim: DriveLimits, st: DriverState, left: nat, request: NavRequest)
    requires
        !(request is JumpTitle) && !(request is CallTitle) && !(request is Resume),
    ensures
        ({
            let (end, out) = drive_titles(lim, st, RunOutcome::Request(request), left);
            &&& end.pending
            &&& end.runner == st.runner
            &&& end.titles == st.titles
            &&& end.entry == st.entry
            &&& request matches NavRequest::PlayPlayList { playlist } ==> (out matches DriveOutcome::Play(
                p,
            ) ==> p.playlist == playlist && p.play_item is None && p.mark is None)
            &&& request matches NavRequest::PlayPlayListAtPlayItem { playlist, play_item } ==> (
            out matches DriveOutcome::Play(p) ==> p.playlist == playlist && p.play_item == Some(
                play_item,
            ) && p.mark is None)
            &&& request matches NavRequest::PlayPlayListAtMark { playlist, mark } ==> (
            out matches DriveOutcome::Play(p) ==> p.playlist == playlist && p.play_item is None
                && p.mark == Some(mark))
            &&& request is PlayPlayList || request is PlayPlayListAtPlayItem
                || request is PlayPlayListAtMark ==> out is Play
            &&& !(request is PlayPlayList) && !(request is PlayPlayListAtPlayItem) && !(
            request is PlayPlayListAtMark) ==> out == DriveOutcome::Request(request)
        }),
{
}

/// What stops the objects stops the drive.
pub proof fn lemma_title_stops(lim: DriveLimits, st: DriverState, left: nat, id: u32)
    ensures
        drive_titles(lim, st, RunOutcome::BadObject(id), left) == (st, DriveOutcome::BadObject(id)),
        drive_titles(lim, st, RunOutcome::BudgetExhausted, left) == (
            st,
            DriveOutcome::BudgetExhausted,
        ),
{
}

/// A drive begins at the first command of the object that the index gives the
/// entry, with no title to come back to.
pub proof fn lemma_drive_begins(
    lim: DriveLimits,
    st: DriverState,
    entry: TitleEntry,
    titles: nat,
    next: DriverState,
)
    requires
        st.runner.vm.psr.len() == 128,
    ensures
        lim.index.movie_object_of(entry) is None ==> {
            let (end, out) = run_entry(lim, st, entry, titles);
            &&& end.titles.len() == 0
            &&& !end.pending
            &&& end.runner == st.runner
            &&& end.entry == st.entry
            &&& entry matches TitleEntry::Title { number } ==> out == DriveOutcome::BadTitle(number)
            &&& !(entry is Title) ==> out == DriveOutcome::BadTitle(0xFFFF)
        },
        lim.index.movie_object_of(entry) matches Some(id) ==> {
            &&& id < lim.run.objects.len() && title_start(
                DriverState { pending: false, ..st },
                next,
                entry,
                id,
            ) && next.titles.len() == 0 ==> run_entry(lim, st, entry, titles) == goes_on(
                lim,
                next,
                titles,
            )
            &&& id >= lim.run.objects.len() ==> run_entry(lim, st, entry, titles).1
                == DriveOutcome::BadObject(id as u32)
        },
{
    if let Some(id) = lim.index.movie_object_of(entry) {
        let idle = DriverState { titles: Seq::empty(), pending: false, ..st };
        if title_start(DriverState { pending: false, ..st }, next, entry, id) && next.titles.len()
            == 0 {
            lemma_shown(st.runner.vm, next.runner.vm, entry);
            let entered = idle.entered(entry);
            lemma_vm_same(entered.runner.vm.at(0), next.runner.vm);
            let begun = RunnerState {
                vm: entered.runner.vm.at(0),
                current: id as int,
                resume: Seq::empty(),
            };
            assert(next.runner.resume =~= Seq::empty());
            assert(next.titles =~= Seq::empty());
            assert(begun == next.runner);
        }
    }
}

/// A drive that stopped at a request goes on where it stopped; one that did not
/// is finished, and stays as it is.
pub proof fn lemma_drive_resumes(lim: DriveLimits, st: DriverState, titles: nat, next: DriverState)
    ensures
        !st.pending ==> resume_drive(lim, st, titles) == (st, DriveOutcome::Finished),
        st.pending && !next.pending && next.runner == st.runner && next.titles == st.titles
            && next.entry == st.entry ==> resume_drive(lim, st, titles) == goes_on(
            lim,
            next,
            titles,
        ),
{
}

} // verus!
