//! Running movie objects: jumps, calls and returns between the objects of a
//! table.
//!
//! All objects share one register file. `JumpObject` goes to another object,
//! `CallObject` does so after noting where to come back to, and `Resume`, the
//! end of a list and `Break` come back. What needs more than the table, such
//! as a title or a playlist, is handed to the caller as a request.
use vstd::prelude::*;

use crate::bdmv::common::low_u32;
use crate::bdmv::movie_object::{movie_object_models, MovieObjectModel, MovieObjects};
use crate::bdmv::vm::{
    lemma_run_ends, lemma_run_keeps_protected, run_steps, same_protected, HdmvVm, NavRequest, Step,
    VmState, DEFAULT_STEP_BUDGET,
};

verus! {

/// Where a call comes back to.
#[derive(Debug, Clone, Copy, PartialEq, Eq, Structural)]
pub struct ResumeFrame {
    pub object: usize,
    pub pc: usize,
}

/// Why a run stopped.
#[derive(Debug, Clone, PartialEq, Eq, Structural)]
pub enum RunOutcome {
    /// The entry object and all callers are done.
    Finished,
    /// The player has to act; the run can go on afterwards.
    Request(NavRequest),
    /// A branch named an object that is not in the table.
    BadObject(u32),
    /// The objects jumped and called too often.
    BudgetExhausted,
}

/// Changes of object that a run may make, unless told otherwise.
pub const DEFAULT_OBJECT_BUDGET: u64 = 100_000;

/// A table of movie objects and the machine that runs it.
#[derive(Debug, Clone)]
pub struct MobjRunner<'a> {
    pub objects: &'a MovieObjects,
    pub vm: HdmvVm,
    /// The object that is running.
    pub current: usize,
    /// Where the calls come back to, the innermost last.
    pub resume: Vec<ResumeFrame>,
    /// Changes of object that a run may make.
    pub object_budget: u64,
}

/// Model of a runner's state.
#[verifier::ext_equal]
pub struct RunnerState {
    pub vm: VmState,
    pub current: int,
    pub resume: Seq<ResumeFrame>,
}

impl<'a> View for MobjRunner<'a> {
    type V = RunnerState;

    open spec fn view(&self) -> RunnerState {
        RunnerState { vm: self.vm@, current: self.current as int, resume: self.resume@ }
    }
}

impl RunnerState {
    /// At command `pc` of `object`.
    pub open spec fn at(self, object: int, pc: int) -> RunnerState {
        RunnerState { vm: self.vm.at(pc), current: object, ..self }
    }

    /// Back in the innermost caller's place in the list of callers, but not
    /// yet at its command.
    pub open spec fn popped(self) -> RunnerState {
        RunnerState { resume: self.resume.drop_last(), ..self }
    }

    /// Back at the command after the innermost call.
    pub open spec fn returned(self) -> RunnerState {
        self.popped().at(self.resume.last().object as int, self.resume.last().pc as int)
    }
}

/// A table of objects with the limits that a run keeps to.
pub struct RunLimits {
    pub objects: Seq<MovieObjectModel>,
    pub steps: nat,
}

/// Objects one after another, with `left` changes of object to go.
pub open spec fn drive_objects(lim: RunLimits, st: RunnerState, left: nat) -> (
    RunnerState,
    RunOutcome,
)
    decreases left,
{
    let (vm, step) = run_steps(st.vm, lim.objects[st.current].commands, lim.steps);
    let now = RunnerState { vm, ..st };
    match step {
        Step::Branch(NavRequest::JumpObject { mobj_id }) => if left == 0 {
            (now, RunOutcome::BudgetExhausted)
        } else if mobj_id >= lim.objects.len() {
            (now, RunOutcome::BadObject(mobj_id))
        } else {
            drive_objects(lim, now.at(mobj_id as int, 0), (left - 1) as nat)
        },
        Step::Branch(NavRequest::CallObject { mobj_id }) => if left == 0 {
            (now, RunOutcome::BudgetExhausted)
        } else if mobj_id >= lim.objects.len() {
            (now, RunOutcome::BadObject(mobj_id))
        } else {
            let frame = ResumeFrame { object: st.current as usize, pc: vm.pc as usize };
            let called = RunnerState { resume: st.resume.push(frame), ..now };
            drive_objects(lim, called.at(mobj_id as int, 0), (left - 1) as nat)
        },
        Step::Branch(req) if req !is Resume => (now, RunOutcome::Request(req)),
        _ => if st.resume.len() == 0 {
            (now, RunOutcome::Finished)
        } else if left == 0 {
            (now.popped(), RunOutcome::BudgetExhausted)
        } else {
            drive_objects(lim, now.returned(), (left - 1) as nat)
        },
    }
}

impl<'a> MobjRunner<'a> {
    pub open spec fn limits(&self) -> RunLimits {
        RunLimits {
            objects: movie_object_models(self.objects.movie_objects@),
            steps: self.vm.step_budget as nat,
        }
    }

    /// Every caller is an object of the table.
    pub open spec fn wf(&self) -> bool {
        forall|i: int|
            0 <= i < self.resume@.len() ==> (#[trigger] self.resume@[i]).object
                < self.objects.movie_objects@.len()
    }

    /// Whether the current object is one of the table.
    pub open spec fn has_current(&self) -> bool {
        self.current < self.objects.movie_objects@.len()
    }

    /// What stays the same whatever the runner does: the table and the limits.
    pub open spec fn same_setup(&self, other: &Self) -> bool {
        &&& self.objects == other.objects
        &&& self.vm.step_budget == other.vm.step_budget
        &&& self.object_budget == other.object_budget
    }

    /// A runner with a cleared machine.
    pub fn new(objects: &'a MovieObjects) -> (r: Self)
        ensures
            r.wf(),
            r.objects == objects,
            r@ == (RunnerState { vm: VmState::cleared(), current: 0, resume: Seq::empty() }),
            r.object_budget == DEFAULT_OBJECT_BUDGET,
            r.vm.step_budget == DEFAULT_STEP_BUDGET,
    {
        MobjRunner {
            objects,
            vm: HdmvVm::new(),
            current: 0,
            resume: Vec::new(),
            object_budget: DEFAULT_OBJECT_BUDGET,
        }
    }

    /// Set the number of changes of object that a run may make.
    pub fn set_object_budget(&mut self, budget: u64)
        ensures
            final(self)@ == old(self)@,
            final(self).objects == old(self).objects,
            final(self).vm == old(self).vm,
            final(self).object_budget == budget,
    {
        self.object_budget = budget;
    }

    /// The object that is running.
    pub fn current_object(&self) -> (r: usize)
        ensures
            r == self.current,
    {
        self.current
    }

    /// How many calls are open.
    pub fn call_depth(&self) -> (r: usize)
        ensures
            r == self.resume@.len(),
    {
        self.resume.len()
    }

    /// Go to command `pc` of `object`; the open calls stay open.
    pub fn set_object_pc(&mut self, object: usize, pc: usize)
        requires
            object < old(self).objects.movie_objects@.len(),
        ensures
            final(self)@ == old(self)@.at(object as int, pc as int),
            final(self).same_setup(old(self)),
    {
        self.current = object;
        self.vm.set_pc(pc);
    }

    /// Start `entry` from its first command, with no call open. An object
    /// that is not in the table is refused, and nothing changes.
    pub fn run(&mut self, entry: usize) -> (r: RunOutcome)
        requires
            old(self).wf(),
        ensures
            final(self).wf(),
            final(self).same_setup(old(self)),
            if entry < old(self).objects.movie_objects@.len() {
                let start = RunnerState {
                    vm: old(self).vm@.at(0),
                    current: entry as int,
                    resume: Seq::empty(),
                };
                &&& (final(self)@, r) == drive_objects(
                    old(self).limits(),
                    start,
                    old(self).object_budget as nat,
                )
                &&& final(self).has_current()
            } else {
                &&& *final(self) == *old(self)
                &&& r == RunOutcome::BadObject((entry as nat % 0x1_0000_0000) as u32)
            },
    {
        if entry >= self.objects.movie_objects.len() {
            return RunOutcome::BadObject(low_u32(entry));
        }
        self.current = entry;
        self.vm.set_pc(0);
        self.resume.clear();
        self.drive()
    }

    /// Go on after a request, at the command behind it.
    pub fn resume(&mut self) -> (r: RunOutcome)
        requires
            old(self).wf(),
            old(self).has_current(),
        ensures
            final(self).wf(),
            final(self).same_setup(old(self)),
            final(self).has_current(),
            (final(self)@, r) == drive_objects(
                old(self).limits(),
                old(self)@,
                old(self).object_budget as nat,
            ),
    {
        self.drive()
    }

    fn drive(&mut self) -> (r: RunOutcome)
        requires
            old(self).wf(),
            old(self).has_current(),
        ensures
            final(self).wf(),
            final(self).same_setup(old(self)),
            final(self).has_current(),
            (final(self)@, r) == drive_objects(
                old(self).limits(),
                old(self)@,
                old(self).object_budget as nat,
            ),
    {
        let mut left: u64 = self.object_budget;
        loop
            invariant
                self.wf(),
                self.same_setup(old(self)),
                self.has_current(),
                drive_objects(old(self).limits(), old(self)@, old(self).object_budget as nat)
                    == drive_objects(self.limits(), self@, left as nat),
            decreases left,
        {
            let ghost st = self@;
            let ghost lim = self.limits();
            let objects = self.objects;
            let step = self.vm.run(objects.movie_objects[self.current].commands.as_slice());
            proof {
                lemma_run_ends(st.vm, lim.objects[st.current].commands, lim.steps);
            }
            match step {
                Step::Branch(NavRequest::JumpObject { mobj_id }) => {
                    if left == 0 {
                        return RunOutcome::BudgetExhausted;
                    }
                    left -= 1;
                    if let Err(bad) = self.enter(mobj_id) {
                        return RunOutcome::BadObject(bad);
                    }
                },
                Step::Branch(NavRequest::CallObject { mobj_id }) => {
                    if left == 0 {
                        return RunOutcome::BudgetExhausted;
                    }
                    left -= 1;
                    let frame = ResumeFrame { object: self.current, pc: self.vm.pc() };
                    if let Err(bad) = self.enter(mobj_id) {
                        return RunOutcome::BadObject(bad);
                    }
                    self.resume.push(frame);
                },
                Step::Branch(NavRequest::Resume) | Step::Halted | Step::Continue
                | Step::Skipped => {
                    match self.resume.pop() {
                        Some(frame) => {
                            if left == 0 {
                                return RunOutcome::BudgetExhausted;
                            }
                            left -= 1;
                            self.current = frame.object;
                            self.vm.set_pc(frame.pc);
                        },
                        None => return RunOutcome::Finished,
                    }
                },
                Step::Branch(other) => return RunOutcome::Request(other),
            }
        }
    }

    fn enter(&mut self, id: u32) -> (r: Result<(), u32>)
        requires
            old(self).wf(),
        ensures
            final(self).same_setup(old(self)),
            final(self).wf(),
            match r {
                Ok(_) => id < old(self).objects.movie_objects@.len() && final(self)@ == old(
                    self,
                )@.at(id as int, 0),
                Err(bad) => id >= old(self).objects.movie_objects@.len() && bad == id
                    && *final(self) == *old(self),
            },
    {
        let idx: usize = id as usize;
        if idx >= self.objects.movie_objects.len() {
            return Err(id);
        }
        self.current = idx;
        self.vm.set_pc(0);
        Ok(())
    }
}

// ---------------------------------------------------------------------
// Laws
// ---------------------------------------------------------------------

/// No run of objects changes a player status register that is read-only to
/// navigation.
pub proof fn lemma_drive_keeps_protected(lim: RunLimits, st: RunnerState, left: nat)
    requires
        st.vm.gpr.len() == 4096,
        st.vm.psr.len() == 128,
    ensures
        same_protected(st.vm, drive_objects(lim, st, left).0.vm),
    decreases left,
{
    let commands = lim.objects[st.current].commands;
    lemma_run_keeps_protected(st.vm, commands, lim.steps);
    let (vm, step) = run_steps(st.vm, commands, lim.steps);
    let now = RunnerState { vm, ..st };
    if left > 0 {
        match step {
            Step::Branch(NavRequest::JumpObject { mobj_id }) => {
                lemma_drive_keeps_protected(lim, now.at(mobj_id as int, 0), (left - 1) as nat);
            },
            Step::Branch(NavRequest::CallObject { mobj_id }) => {
                let frame = ResumeFrame { object: st.current as usize, pc: vm.pc as usize };
                let called = RunnerState { resume: st.resume.push(frame), ..now };
                lemma_drive_keeps_protected(lim, called.at(mobj_id as int, 0), (left - 1) as nat);
            },
            _ => {
                if st.resume.len() > 0 {
                    lemma_drive_keeps_protected(lim, now.returned(), (left - 1) as nat);
                }
            },
        }
    }
}

/// A return takes a call back: wherever the callee went, and whatever it left
/// in the registers, the caller goes on behind its call with the calls open
/// that were open before.
pub proof fn lemma_return_undoes_call(caller: RunnerState, callee: RunnerState)
    requires
        0 <= caller.current <= usize::MAX,
        0 <= caller.vm.pc <= usize::MAX,
        callee.resume == caller.resume.push(
            ResumeFrame { object: caller.current as usize, pc: caller.vm.pc as usize },
        ),
    ensures
        callee.returned() == (RunnerState { vm: callee.vm.at(caller.vm.pc), ..caller }),
{
    assert(callee.resume.drop_last() =~= caller.resume);
}

/// What reaches the caller as a request is never a jump, a call or a return
/// between objects: those are carried out.
pub proof fn lemma_drive_requests(lim: RunLimits, st: RunnerState, left: nat)
    ensures
        drive_objects(lim, st, left).1 matches RunOutcome::Request(req) ==> !(req is JumpObject)
            && !(req is CallObject) && !(req is Resume),
    decreases left,
{
    let (vm, step) = run_steps(st.vm, lim.objects[st.current].commands, lim.steps);
    let now = RunnerState { vm, ..st };
    if left > 0 {
        match step {
            Step::Branch(NavRequest::JumpObject { mobj_id }) => {
                lemma_drive_requests(lim, now.at(mobj_id as int, 0), (left - 1) as nat);
            },
            Step::Branch(NavRequest::CallObject { mobj_id }) => {
                let frame = ResumeFrame { object: st.current as usize, pc: vm.pc as usize };
                let called = RunnerState { resume: st.resume.push(frame), ..now };
                lemma_drive_requests(lim, called.at(mobj_id as int, 0), (left - 1) as nat);
            },
            _ => {
                if st.resume.len() > 0 {
                    lemma_drive_requests(lim, now.returned(), (left - 1) as nat);
                }
            },
        }
    }
}

/// A run that finished has no call open.
pub proof fn lemma_finished_has_no_calls(lim: RunLimits, st: RunnerState, left: nat)
    ensures
        drive_objects(lim, st, left).1 is Finished ==> drive_objects(lim, st, left).0.resume.len()
            == 0,
    decreases left,
{
    let (vm, step) = run_steps(st.vm, lim.objects[st.current].commands, lim.steps);
    let now = RunnerState { vm, ..st };
    if left > 0 {
        match step {
            Step::Branch(NavRequest::JumpObject { mobj_id }) => {
                lemma_finished_has_no_calls(lim, now.at(mobj_id as int, 0), (left - 1) as nat);
            },
            Step::Branch(NavRequest::CallObject { mobj_id }) => {
                let frame = ResumeFrame { object: st.current as usize, pc: vm.pc as usize };
                let called = RunnerState { resume: st.resume.push(frame), ..now };
                lemma_finished_has_no_calls(lim, called.at(mobj_id as int, 0), (left - 1) as nat);
            },
            _ => {
                if st.resume.len() > 0 {
                    lemma_finished_has_no_calls(lim, now.returned(), (left - 1) as nat);
                }
            },
        }
    }
}

/// A model holds what the fields hold.
pub proof fn lemma_models_hold_fields<'a>(mobj_runner: MobjRunner<'a>)
    ensures
        mobj_runner@.vm == mobj_runner.vm@,
        mobj_runner@.current == mobj_runner.current as int,
        mobj_runner@.resume == mobj_runner.resume@,
{
}

/// A run keeps to the objects of its table and to the steps of its machine.
pub proof fn lemma_limits<'a>(x: MobjRunner<'a>, i: int)
    ensures
        x.limits().steps == x.vm.step_budget,
        x.limits().objects.len() == x.objects.movie_objects@.len(),
        0 <= i < x.objects.movie_objects@.len() ==> x.limits().objects[i]
            == x.objects.movie_objects@[i]@,
        x.has_current() <==> x.current < x.objects.movie_objects@.len(),
{
}

} // verus!
