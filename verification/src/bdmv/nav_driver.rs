//! Titles: navigation across the titles of a disc.
//!
//! The index knows which movie object a title runs. The driver starts an
//! entry (first playback, the top menu, a numbered title), follows `JumpTitle`
//! and `CallTitle` through the index, and comes back from called titles. What
//! starts or changes playback goes to the caller.
//!
//! Entering a title, and coming back to one, puts its number into register
//! PSR4: `0xFFFF` for the top menu, 0 for first playback.
use vstd::prelude::*;

use crate::bdmv::index_bdmv::{IndexBdmv, IndexModel, TitleEntry};
use crate::bdmv::mobj_runner::{
    drive_objects, lemma_drive_keeps_protected, MobjRunner, RunLimits, RunOutcome, RunnerState,
    DEFAULT_OBJECT_BUDGET,
};
use crate::bdmv::movie_object::MovieObjects;
use crate::bdmv::vm::{same_protected, NavRequest, Registers, VmState, DEFAULT_STEP_BUDGET};

verus! {

/// The register that holds the title number.
pub const PSR_TITLE: u8 = 4;

/// The title number of the top menu.
pub const TITLE_VALUE_TOP_MENU: u32 = 0xFFFF;

/// Changes of title that a drive may make, unless told otherwise.
pub const DEFAULT_TITLE_BUDGET: u64 = 10_000;

/// Where a called title comes back to.
#[derive(Debug, Clone, Copy, PartialEq, Eq, Structural)]
pub struct TitleFrame {
    pub entry: TitleEntry,
    pub object: usize,
    pub pc: usize,
}

/// A playlist to play, from its start, from a play item or from a mark.
#[derive(Debug, Clone, Copy, PartialEq, Eq, Structural)]
pub struct PlayRequest {
    pub playlist: u32,
    pub play_item: Option<u32>,
    pub mark: Option<u32>,
}

/// Why a drive stopped.
#[derive(Debug, Clone, PartialEq, Eq, Structural)]
pub enum DriveOutcome {
    /// The entry and all calling titles are done.
    Finished,
    /// The script wants a playlist played; the drive can go on afterwards.
    Play(PlayRequest),
    /// The script wants something else of the player; the drive can go on
    /// afterwards.
    Request(NavRequest),
    /// The index has no movie object for a title.
    BadTitle(u16),
    /// A branch named an object that is not in the table.
    BadObject(u32),
    /// Titles or objects jumped and called too often.
    BudgetExhausted,
}

/// An index, a table of movie objects and the machine that runs them.
#[derive(Debug, Clone)]
pub struct NavDriver<'a> {
    pub index: &'a IndexBdmv,
    pub runner: MobjRunner<'a>,
    /// Where the called titles come back to, the innermost last.
    pub title_stack: Vec<TitleFrame>,
    /// The entry that is running.
    pub current_entry: TitleEntry,
    /// Changes of title that a drive may make.
    pub title_budget: u64,
    /// Whether the drive stopped at a request and can go on.
    pub pending: bool,
}

/// Model of a driver's state.
#[verifier::ext_equal]
pub struct DriverState {
    pub runner: RunnerState,
    pub titles: Seq<TitleFrame>,
    pub entry: TitleEntry,
    pub pending: bool,
}

impl<'a> View for NavDriver<'a> {
    type V = DriverState;

    open spec fn view(&self) -> DriverState {
        DriverState {
            runner: self.runner@,
            titles: self.title_stack@,
            entry: self.current_entry,
            pending: self.pending,
        }
    }
}

/// The disc, and the limits that a drive keeps to.
pub struct DriveLimits {
    pub index: IndexModel,
    pub run: RunLimits,
    pub objects: nat,
}

// ---------------------------------------------------------------------
// What a drive does
// ---------------------------------------------------------------------

/// The title number that an entry shows in PSR4.
pub open spec fn title_value(entry: TitleEntry) -> u32 {
    match entry {
        TitleEntry::Title { number } => number as u32,
        TitleEntry::TopMenu => 0xFFFF,
        TitleEntry::FirstPlayback => 0,
    }
}

impl DriverState {
    /// With `entry` selected and its title number in PSR4.
    pub open spec fn entered(self, entry: TitleEntry) -> DriverState {
        DriverState {
            runner: RunnerState {
                vm: VmState {
                    psr: self.runner.vm.psr.update(4, title_value(entry)),
                    ..self.runner.vm
                },
                ..self.runner
            },
            entry,
            ..self
        }
    }

    /// With the innermost calling title taken off the stack.
    pub open spec fn popped(self) -> DriverState {
        DriverState { titles: self.titles.drop_last(), ..self }
    }

    /// Back in the innermost calling title, at the command after its call.
    pub open spec fn returned(self) -> DriverState {
        let frame = self.titles.last();
        let back = self.popped().entered(frame.entry);
        DriverState { runner: back.runner.at(frame.object as int, frame.pc as int), ..back }
    }

    /// Stopped at a request.
    pub open spec fn waiting(self) -> DriverState {
        DriverState { pending: true, ..self }
    }
}

/// Movie object `id` run from its first command.
pub open spec fn start_object(lim: DriveLimits, st: RunnerState, id: int) -> (
    RunnerState,
    RunOutcome,
) {
    if id < lim.run.objects.len() {
        drive_objects(
            lim.run,
            RunnerState { vm: st.vm.at(0), current: id, resume: Seq::empty() },
            lim.objects,
        )
    } else {
        (st, RunOutcome::BadObject(id as u32))
    }
}

/// The title that a command names; its number counts modulo 2^16.
pub open spec fn named_title(title: u32) -> TitleEntry {
    TitleEntry::Title { number: (title % 0x1_0000) as u16 }
}

/// What happens after the objects stopped with `outcome`, with `left` changes
/// of title to go.
pub open spec fn drive_titles(
    lim: DriveLimits,
    st: DriverState,
    outcome: RunOutcome,
    left: nat,
) -> (DriverState, DriveOutcome)
    decreases left,
{
    match outcome {
        RunOutcome::BadObject(id) => (st, DriveOutcome::BadObject(id)),
        RunOutcome::BudgetExhausted => (st, DriveOutcome::BudgetExhausted),
        RunOutcome::Request(NavRequest::JumpTitle { title }) => {
            let entry = named_title(title);
            match lim.index.movie_object_of(entry) {
                _ if left == 0 => (st, DriveOutcome::BudgetExhausted),
                None => (st, DriveOutcome::BadTitle(entry->number)),
                Some(id) => {
                    let next = st.entered(entry);
                    let (runner, out) = start_object(lim, next.runner, id as int);
                    drive_titles(lim, DriverState { runner, ..next }, out, (left - 1) as nat)
                },
            }
        },
        RunOutcome::Request(NavRequest::CallTitle { title }) => {
            let entry = named_title(title);
            match lim.index.movie_object_of(entry) {
                _ if left == 0 => (st, DriveOutcome::BudgetExhausted),
                None => (st, DriveOutcome::BadTitle(entry->number)),
                Some(id) => {
                    let frame = TitleFrame {
                        entry: st.entry,
                        object: st.runner.current as usize,
                        pc: st.runner.vm.pc as usize,
                    };
                    let called = DriverState { titles: st.titles.push(frame), ..st };
                    let next = called.entered(entry);
                    let (runner, out) = start_object(lim, next.runner, id as int);
                    drive_titles(lim, DriverState { runner, ..next }, out, (left - 1) as nat)
                },
            }
        },
        RunOutcome::Finished | RunOutcome::Request(NavRequest::Resume) => if st.titles.len()
            == 0 {
            (st, DriveOutcome::Finished)
        } else if left == 0 {
            (st.popped(), DriveOutcome::BudgetExhausted)
        } else {
            let back = st.returned();
            let (runner, out) = drive_objects(lim.run, back.runner, lim.objects);
            drive_titles(lim, DriverState { runner, ..back }, out, (left - 1) as nat)
        },
        RunOutcome::Request(NavRequest::PlayPlayList { playlist }) => (
            st.waiting(),
            DriveOutcome::Play(PlayRequest { playlist, play_item: None, mark: None }),
        ),
        RunOutcome::Request(NavRequest::PlayPlayListAtPlayItem { playlist, play_item }) => (
            st.waiting(),
            DriveOutcome::Play(PlayRequest { playlist, play_item: Some(play_item), mark: None }),
        ),
        RunOutcome::Request(NavRequest::PlayPlayListAtMark { playlist, mark }) => (
            st.waiting(),
            DriveOutcome::Play(PlayRequest { playlist, play_item: None, mark: Some(mark) }),
        ),
        RunOutcome::Request(other) => (st.waiting(), DriveOutcome::Request(other)),
    }
}

/// The outcome for an entry that the index does not resolve.
pub open spec fn bad_entry(entry: TitleEntry) -> DriveOutcome {
    match entry {
        TitleEntry::Title { number } => DriveOutcome::BadTitle(number),
        _ => DriveOutcome::BadTitle(0xFFFF),
    }
}

/// A drive from `entry`.
pub open spec fn run_entry(
    lim: DriveLimits,
    st: DriverState,
    entry: TitleEntry,
    titles: nat,
) -> (DriverState, DriveOutcome) {
    let idle = DriverState { titles: Seq::empty(), pending: false, ..st };
    match lim.index.movie_object_of(entry) {
        None => (idle, bad_entry(entry)),
        Some(id) => {
            let next = idle.entered(entry);
            let (runner, out) = start_object(lim, next.runner, id as int);
            drive_titles(lim, DriverState { runner, ..next }, out, titles)
        },
    }
}

/// A drive that goes on after a request; without one there is nothing to do.
pub open spec fn resume_drive(lim: DriveLimits, st: DriverState, titles: nat) -> (
    DriverState,
    DriveOutcome,
) {
    if !st.pending {
        (st, DriveOutcome::Finished)
    } else {
        let (runner, out) = drive_objects(lim.run, st.runner, lim.objects);
        drive_titles(lim, DriverState { runner, pending: false, ..st }, out, titles)
    }
}

// ---------------------------------------------------------------------
// The driver
// ---------------------------------------------------------------------

impl<'a> NavDriver<'a> {
    pub open spec fn limits(&self) -> DriveLimits {
        DriveLimits {
            index: self.index@,
            run: self.runner.limits(),
            objects: self.runner.object_budget as nat,
        }
    }

    /// Whatever the driver comes back to is an object of the table.
    pub open spec fn wf(&self) -> bool {
        &&& self.runner.wf()
        &&& self.pending ==> self.runner.has_current()
        &&& forall|i: int|
            0 <= i < self.title_stack@.len() ==> (#[trigger] self.title_stack@[i]).object
                < self.runner.objects.movie_objects@.len()
    }

    /// What stays the same whatever the driver does: the disc and the limits.
    pub open spec fn same_setup(&self, other: &Self) -> bool {
        &&& self.index == other.index
        &&& self.runner.same_setup(&other.runner)
        &&& self.title_budget == other.title_budget
    }

    /// A driver over a disc, with a cleared machine.
    pub fn new(index: &'a IndexBdmv, objects: &'a MovieObjects) -> (r: Self)
        ensures
            r.wf(),
            r.index == index,
            r.runner.objects == objects,
            r@ == (DriverState {
                runner: RunnerState {
                    vm: VmState::cleared(),
                    current: 0,
                    resume: Seq::empty(),
                },
                titles: Seq::empty(),
                entry: TitleEntry::FirstPlayback,
                pending: false,
            }),
            r.title_budget == DEFAULT_TITLE_BUDGET,
            r.runner.object_budget == DEFAULT_OBJECT_BUDGET,
            r.runner.vm.step_budget == DEFAULT_STEP_BUDGET,
    {
        NavDriver {
            index,
            runner: MobjRunner::new(objects),
            title_stack: Vec::new(),
            current_entry: TitleEntry::FirstPlayback,
            title_budget: DEFAULT_TITLE_BUDGET,
            pending: false,
        }
    }

    /// Set the number of changes of title that a drive may make.
    pub fn set_title_budget(&mut self, budget: u64)
        ensures
            final(self)@ == old(self)@,
            final(self).index == old(self).index,
            final(self).runner == old(self).runner,
            final(self).title_budget == budget,
    {
        self.title_budget = budget;
    }

    /// The register file.
    pub fn registers(&self) -> (r: &Registers)
        ensures
            *r == self.runner.vm.registers,
    {
        &self.runner.vm.registers
    }

    /// The register file, to be changed as the player does.
    pub fn registers_mut(&mut self) -> (r: &mut Registers)
        ensures
            *r == old(self).runner.vm.registers,
            final(self).runner.vm.registers == *final(r),
            final(self).same_setup(old(self)),
            final(self)@.titles == old(self)@.titles,
            final(self)@.entry == old(self)@.entry,
            final(self)@.pending == old(self)@.pending,
            final(self)@.runner.current == old(self)@.runner.current,
            final(self)@.runner.resume == old(self)@.runner.resume,
            final(self)@.runner.vm.pc == old(self)@.runner.vm.pc,
    {
        &mut self.runner.vm.registers
    }

    /// The entry that is running.
    pub fn current_entry(&self) -> (r: TitleEntry)
        ensures
            r == self.current_entry,
    {
        self.current_entry
    }

    /// How many title calls are open.
    pub fn title_call_depth(&self) -> (r: usize)
        ensures
            r == self.title_stack@.len(),
    {
        self.title_stack.len()
    }

    /// Start `entry`, with no title call open, and drive until the script is
    /// done or wants something of the player.
    pub fn run(&mut self, entry: TitleEntry) -> (r: DriveOutcome)
        requires
            old(self).wf(),
        ensures
            final(self).wf(),
            final(self).same_setup(old(self)),
            (final(self)@, r) == run_entry(
                old(self).limits(),
                old(self)@,
                entry,
                old(self).title_budget as nat,
            ),
    {
        self.title_stack.clear();
        self.pending = false;
        let object = match self.resolve(entry) {
            Some(object) => object,
            None => return Self::bad_title(entry),
        };
        self.enter_title(entry);
        let outcome = self.enter(object);
        self.drive(outcome)
    }

    /// Go on after a request that was served. Without one there is nothing to
    /// do.
    pub fn resume(&mut self) -> (r: DriveOutcome)
        requires
            old(self).wf(),
        ensures
            final(self).wf(),
            final(self).same_setup(old(self)),
            (final(self)@, r) == resume_drive(
                old(self).limits(),
                old(self)@,
                old(self).title_budget as nat,
            ),
    {
        if !self.pending {
            return DriveOutcome::Finished;
        }
        self.pending = false;
        let outcome = self.runner.resume();
        self.drive(outcome)
    }

    fn resolve(&self, entry: TitleEntry) -> (r: Option<usize>)
        ensures
            match r {
                Some(id) => id <= u16::MAX && self.index@.movie_object_of(entry) == Some(
                    id as u16,
                ),
                None => self.index@.movie_object_of(entry) is None,
            },
    {
        match self.index.resolve_movie_object(entry) {
            Some(id) => Some(id as usize),
            None => None,
        }
    }

    fn bad_title(entry: TitleEntry) -> (r: DriveOutcome)
        ensures
            r == bad_entry(entry),
    {
        match entry {
            TitleEntry::Title { number } => DriveOutcome::BadTitle(number),
            _ => DriveOutcome::BadTitle(TITLE_VALUE_TOP_MENU as u16),
        }
    }

    /// Select `entry` and put its title number into PSR4.
    fn enter_title(&mut self, entry: TitleEntry)
        requires
            old(self).wf(),
        ensures
            final(self).wf(),
            final(self).same_setup(old(self)),
            final(self).runner.current == old(self).runner.current,
            final(self)@ == old(self)@.entered(entry),
    {
        self.current_entry = entry;
        let value: u32 = match entry {
            TitleEntry::Title { number } => number as u32,
            TitleEntry::TopMenu => TITLE_VALUE_TOP_MENU,
            TitleEntry::FirstPlayback => 0,
        };
        self.runner.vm.registers.set_psr_player(PSR_TITLE, value);
    }

    fn enter(&mut self, id: usize) -> (r: RunOutcome)
        requires
            old(self).wf(),
            !old(self).pending,
            id <= u16::MAX,
        ensures
            final(self).wf(),
            final(self).same_setup(old(self)),
            (final(self)@.runner, r) == start_object(
                old(self).limits(),
                old(self)@.runner,
                id as int,
            ),
            final(self)@ == (DriverState { runner: final(self)@.runner, ..old(self)@ }),
            r is BadObject || final(self).runner.has_current(),
    {
        self.runner.run(id)
    }

    /// The entry of the title that a command names.
    fn title_entry(title: u32) -> (r: TitleEntry)
        ensures
            r == named_title(title),
    {
        TitleEntry::Title { number: (title % 0x1_0000) as u16 }
    }

    fn drive(&mut self, first: RunOutcome) -> (r: DriveOutcome)
        requires
            old(self).wf(),
            !old(self).pending,
            first is BadObject || old(self).runner.has_current(),
        ensures
            final(self).wf(),
            final(self).same_setup(old(self)),
            (final(self)@, r) == drive_titles(
                old(self).limits(),
                old(self)@,
                first,
                old(self).title_budget as nat,
            ),
    {
        let mut outcome = first;
        let mut left: u64 = self.title_budget;
        loop
            invariant
                self.wf(),
                !self.pending,
                outcome is BadObject || self.runner.has_current(),
                self.same_setup(old(self)),
                drive_titles(
                    old(self).limits(),
                    old(self)@,
                    first,
                    old(self).title_budget as nat,
                ) == drive_titles(self.limits(), self@, outcome, left as nat),
            decreases left,
        {
            match outcome {
                RunOutcome::BadObject(id) => return DriveOutcome::BadObject(id),
                RunOutcome::BudgetExhausted => return DriveOutcome::BudgetExhausted,
                RunOutcome::Request(NavRequest::JumpTitle { title }) => {
                    if left == 0 {
                        return DriveOutcome::BudgetExhausted;
                    }
                    let entry = Self::title_entry(title);
                    let next: usize = match self.resolve(entry) {
                        Some(next) => next,
                        None => return Self::bad_title(entry),
                    };
                    left -= 1;
                    self.enter_title(entry);
                    outcome = self.enter(next);
                },
                RunOutcome::Request(NavRequest::CallTitle { title }) => {
                    if left == 0 {
                        return DriveOutcome::BudgetExhausted;
                    }
                    let entry = Self::title_entry(title);
                    let next: usize = match self.resolve(entry) {
                        Some(next) => next,
                        None => return Self::bad_title(entry),
                    };
                    left -= 1;
                    self.title_stack.push(
                        TitleFrame {
                            entry: self.current_entry,
                            object: self.runner.current_object(),
                            pc: self.runner.vm.pc(),
                        },
                    );
                    self.enter_title(entry);
                    outcome = self.enter(next);
                },
                RunOutcome::Finished | RunOutcome::Request(NavRequest::Resume) => {
                    match self.title_stack.pop() {
                        Some(frame) => {
                            if left == 0 {
                                return DriveOutcome::BudgetExhausted;
                            }
                            left -= 1;
                            self.enter_title(frame.entry);
                            self.runner.set_object_pc(frame.object, frame.pc);
                            outcome = self.runner.resume();
                        },
                        None => return DriveOutcome::Finished,
                    }
                },
                RunOutcome::Request(NavRequest::PlayPlayList { playlist }) => {
                    self.pending = true;
                    return DriveOutcome::Play(
                        PlayRequest { playlist, play_item: None, mark: None },
                    );
                },
                RunOutcome::Request(NavRequest::PlayPlayListAtPlayItem { playlist, play_item }) => {
                    self.pending = true;
                    return DriveOutcome::Play(
                        PlayRequest { playlist, play_item: Some(play_item), mark: None },
                    );
                },
                RunOutcome::Request(NavRequest::PlayPlayListAtMark { playlist, mark }) => {
                    self.pending = true;
                    return DriveOutcome::Play(
                        PlayRequest { playlist, play_item: None, mark: Some(mark) },
                    );
                },
                RunOutcome::Request(other) => {
                    self.pending = true;
                    return DriveOutcome::Request(other);
                },
            }
        }
    }
}

// ---------------------------------------------------------------------
// Laws
// ---------------------------------------------------------------------

proof fn lemma_entered_keeps_protected(st: DriverState, entry: TitleEntry)
    requires
        st.runner.vm.gpr.len() == 4096,
        st.runner.vm.psr.len() == 128,
    ensures
        same_protected(st.runner.vm, st.entered(entry).runner.vm),
{
}

proof fn lemma_start_keeps_protected(lim: DriveLimits, st: RunnerState, id: int)
    requires
        st.vm.gpr.len() == 4096,
        st.vm.psr.len() == 128,
    ensures
        same_protected(st.vm, start_object(lim, st, id).0.vm),
{
    if id < lim.run.objects.len() {
        lemma_drive_keeps_protected(
            lim.run,
            RunnerState { vm: st.vm.at(0), current: id, resume: Seq::empty() },
            lim.objects,
        );
    }
}

/// No drive changes a player status register that is read-only to navigation.
pub proof fn lemma_titles_keep_protected(
    lim: DriveLimits,
    st: DriverState,
    outcome: RunOutcome,
    left: nat,
)
    requires
        st.runner.vm.gpr.len() == 4096,
        st.runner.vm.psr.len() == 128,
    ensures
        same_protected(st.runner.vm, drive_titles(lim, st, outcome, left).0.runner.vm),
    decreases left,
{
    if left > 0 {
        match outcome {
            RunOutcome::Request(NavRequest::JumpTitle { title }) => {
                let entry = named_title(title);
                if let Some(id) = lim.index.movie_object_of(entry) {
                    let next = st.entered(entry);
                    lemma_entered_keeps_protected(st, entry);
                    lemma_start_keeps_protected(lim, next.runner, id as int);
                    let (runner, out) = start_object(lim, next.runner, id as int);
                    lemma_titles_keep_protected(
                        lim,
                        DriverState { runner, ..next },
                        out,
                        (left - 1) as nat,
                    );
                }
            },
            RunOutcome::Request(NavRequest::CallTitle { title }) => {
                let entry = named_title(title);
                if let Some(id) = lim.index.movie_object_of(entry) {
                    let frame = TitleFrame {
                        entry: st.entry,
                        object: st.runner.current as usize,
                        pc: st.runner.vm.pc as usize,
                    };
                    let called = DriverState { titles: st.titles.push(frame), ..st };
                    let next = called.entered(entry);
                    lemma_entered_keeps_protected(called, entry);
                    lemma_start_keeps_protected(lim, next.runner, id as int);
                    let (runner, out) = start_object(lim, next.runner, id as int);
                    lemma_titles_keep_protected(
                        lim,
                        DriverState { runner, ..next },
                        out,
                        (left - 1) as nat,
                    );
                }
            },
            RunOutcome::Finished | RunOutcome::Request(NavRequest::Resume) => {
                if st.titles.len() > 0 {
                    let back = st.returned();
                    lemma_entered_keeps_protected(st.popped(), st.titles.last().entry);
                    lemma_drive_keeps_protected(lim.run, back.runner, lim.objects);
                    let (runner, out) = drive_objects(lim.run, back.runner, lim.objects);
                    lemma_titles_keep_protected(
                        lim,
                        DriverState { runner, ..back },
                        out,
                        (left - 1) as nat,
                    );
                }
            },
            _ => {},
        }
    }
}

/// A drive stops at a request exactly where it can go on: with a request for
/// the player it is waiting, with any other outcome it is not.
pub proof fn lemma_waiting_iff_request(
    lim: DriveLimits,
    st: DriverState,
    outcome: RunOutcome,
    left: nat,
)
    requires
        !st.pending,
    ensures
        ({
            let (end, out) = drive_titles(lim, st, outcome, left);
            end.pending <==> out is Play || out is Request
        }),
    decreases left,
{
    if left > 0 {
        match outcome {
            RunOutcome::Request(NavRequest::JumpTitle { title }) => {
                let entry = named_title(title);
                if let Some(id) = lim.index.movie_object_of(entry) {
                    let next = st.entered(entry);
                    let (runner, out) = start_object(lim, next.runner, id as int);
                    lemma_waiting_iff_request(
                        lim,
                        DriverState { runner, ..next },
                        out,
                        (left - 1) as nat,
                    );
                }
            },
            RunOutcome::Request(NavRequest::CallTitle { title }) => {
                let entry = named_title(title);
                if let Some(id) = lim.index.movie_object_of(entry) {
                    let frame = TitleFrame {
                        entry: st.entry,
                        object: st.runner.current as usize,
                        pc: st.runner.vm.pc as usize,
                    };
                    let called = DriverState { titles: st.titles.push(frame), ..st };
                    let next = called.entered(entry);
                    let (runner, out) = start_object(lim, next.runner, id as int);
                    lemma_waiting_iff_request(
                        lim,
                        DriverState { runner, ..next },
                        out,
                        (left - 1) as nat,
                    );
                }
            },
            RunOutcome::Finished | RunOutcome::Request(NavRequest::Resume) => {
                if st.titles.len() > 0 {
                    let back = st.returned();
                    let (runner, out) = drive_objects(lim.run, back.runner, lim.objects);
                    lemma_waiting_iff_request(
                        lim,
                        DriverState { runner, ..back },
                        out,
                        (left - 1) as nat,
                    );
                }
            },
            _ => {},
        }
    }
}

/// A called title comes back to its caller: behind the call, with the caller's
/// entry selected, its title number in PSR4 and the title calls open that were
/// open before. The other registers are as the called title left them.
pub proof fn lemma_title_return(caller: DriverState, callee: DriverState)
    requires
        callee.runner.vm.psr.len() == 128,
        0 <= caller.runner.current <= usize::MAX,
        0 <= caller.runner.vm.pc <= usize::MAX,
        callee.titles == caller.titles.push(
            TitleFrame {
                entry: caller.entry,
                object: caller.runner.current as usize,
                pc: caller.runner.vm.pc as usize,
            },
        ),
    ensures
        ({
            let back = callee.returned();
            &&& back.titles == caller.titles
            &&& back.entry == caller.entry
            &&& back.runner.current == caller.runner.current
            &&& back.runner.vm.pc == caller.runner.vm.pc
            &&& back.runner.vm.psr[4] == title_value(caller.entry)
            &&& back.runner.vm.gpr == callee.runner.vm.gpr
            &&& forall|i: int|
                0 <= i < 128 && i != 4 ==> #[trigger] back.runner.vm.psr[i]
                    == callee.runner.vm.psr[i]
        }),
{
    assert(callee.titles.drop_last() =~= caller.titles);
}

/// A model holds what the fields hold.
pub proof fn lemma_models_hold_fields<'a>(nav_driver: NavDriver<'a>)
    ensures
        nav_driver@.runner == nav_driver.runner@,
        nav_driver@.titles == nav_driver.title_stack@,
        nav_driver@.entry == nav_driver.current_entry,
        nav_driver@.pending == nav_driver.pending,
{
}

} // verus!
