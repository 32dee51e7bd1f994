use vstd::prelude::*;

verus! {

/// Where a bridged task stands, as its driver sees it.
#[derive(Clone, Copy, Debug, PartialEq, Eq, Structural)]
pub enum TaskState {
    /// Not polled yet: no coroutine, no stack.
    Unstarted,
    /// Its coroutine is suspended in `wait` on a pending value.
    Waiting,
    /// The closure returned.
    Completed,
    /// The task was dropped before the closure returned.
    Cancelled,
}

/// How a resume of the task's coroutine came back.
#[derive(Clone, Copy, Debug, PartialEq, Eq, Structural)]
pub enum Outcome {
    /// The closure called `wait` on a value that is not ready.
    Waits,
    /// The closure returned.
    Returns,
}

/// What the driver must do when the task is dropped.
#[derive(Clone, Copy, Debug, PartialEq, Eq, Structural)]
pub enum DropAction {
    /// Nothing is left to clean up.
    Nothing,
    /// Drop the closure, which never ran.
    DropClosure,
    /// Unwind the suspended coroutine, which runs the closure's drop glue on
    /// its own stack, then give the stack back.
    UnwindAndRelease,
}

/// The book-keeping of a task that hosts a blocking closure as a coroutine:
/// its state, how many times the closure's resources were cleaned up, and
/// how many times its stack was given back.
pub struct BridgeTask {
    state: TaskState,
    cleanups: u64,
    releases: u64,
}

impl BridgeTask {
    pub closed spec fn state(&self) -> TaskState {
        self.state
    }

    /// How many times the closure's resources were released.
    pub closed spec fn cleanups(&self) -> u64 {
        self.cleanups
    }

    /// How many times the coroutine's stack was given back.
    pub closed spec fn releases(&self) -> u64 {
        self.releases
    }

    /// The book-keeping as one triple.
    pub open spec fn record(&self) -> (TaskState, u64, u64) {
        (self.state(), self.cleanups(), self.releases())
    }

    /// Cleanup and stack release each happen once, when the task ends, and
    /// the stack only if a coroutine was ever made.
    pub open spec fn wf(&self) -> bool {
        match self.state() {
            TaskState::Unstarted | TaskState::Waiting => self.cleanups() == 0 && self.releases() == 0,
            TaskState::Completed => self.cleanups() == 1 && self.releases() == 1,
            TaskState::Cancelled => self.cleanups() == 1 && self.releases() <= 1,
        }
    }

    /// A task that has not been polled.
    pub fn new() -> (r: Self)
        ensures
            r.wf(),
            r.state() == TaskState::Unstarted,
    {
        BridgeTask { state: TaskState::Unstarted, cleanups: 0, releases: 0 }
    }

    pub fn state_of(&self) -> (r: TaskState)
        ensures
            r == self.state(),
    {
        self.state
    }

    pub fn cleanup_count(&self) -> (r: u64)
        ensures
            r == self.cleanups(),
    {
        self.cleanups
    }

    pub fn release_count(&self) -> (r: u64)
        ensures
            r == self.releases(),
    {
        self.releases
    }

    /// The driver resumed the coroutine (made on the first poll) and it came
    /// back with `outcome`: it now waits, or it returned, in which case its
    /// resources were dropped as it returned and its stack is given back.
    pub fn resumed(&mut self, outcome: Outcome)
        requires
            old(self).wf(),
            old(self).state() is Unstarted || old(self).state() is Waiting,
        ensures
            final(self).wf(),
            final(self).record() == after(old(self).record(), Some(outcome)),
            outcome is Waits ==> final(self).state() == TaskState::Waiting,
            outcome is Returns ==> final(self).state() == TaskState::Completed,
    {
        match outcome {
            Outcome::Waits => {
                self.state = TaskState::Waiting;
            },
            Outcome::Returns => {
                self.state = TaskState::Completed;
                self.cleanups = 1;
                self.releases = 1;
            },
        }
    }

    /// The task is dropped. A coroutine suspended in `wait` is unwound, so
    /// the closure's resources are released exactly once, and its stack is
    /// then given back exactly once; a task dropped again, or after it
    /// completed, has nothing left to do.
    pub fn cancel(&mut self) -> (r: DropAction)
        requires
            old(self).wf(),
        ensures
            final(self).wf(),
            final(self).record() == after(old(self).record(), None),
            match old(self).state() {
                TaskState::Waiting => {
                    &&& r == DropAction::UnwindAndRelease
                    &&& final(self).state() == TaskState::Cancelled
                    &&& final(self).cleanups() == 1
                    &&& final(self).releases() == 1
                },
                TaskState::Unstarted => {
                    &&& r == DropAction::DropClosure
                    &&& final(self).state() == TaskState::Cancelled
                    &&& final(self).cleanups() == 1
                    &&& final(self).releases() == 0
                },
                _ => r == DropAction::Nothing && *final(self) == *old(self),
            },
    {
        match self.state {
            TaskState::Waiting => {
                self.state = TaskState::Cancelled;
                self.cleanups = 1;
                self.releases = 1;
                DropAction::UnwindAndRelease
            },
            TaskState::Unstarted => {
                self.state = TaskState::Cancelled;
                self.cleanups = 1;
                DropAction::DropClosure
            },
            TaskState::Completed | TaskState::Cancelled => DropAction::Nothing,
        }
    }
}

/// What one driver step does to the book-keeping `(state, cleanups,
/// releases)` of a task: `Some(o)` resumes the coroutine with outcome `o`
/// (nothing happens once the task has ended), `None` drops the task.
pub open spec fn after(t: (TaskState, u64, u64), step: Option<Outcome>) -> (TaskState, u64, u64) {
    let (s, c, r) = t;
    match step {
        Some(o) => if s is Unstarted || s is Waiting {
            match o {
                Outcome::Waits => (TaskState::Waiting, c, r),
                Outcome::Returns => (TaskState::Completed, 1u64, 1u64),
            }
        } else {
            t
        },
        None => match s {
            TaskState::Waiting => (TaskState::Cancelled, 1u64, 1u64),
            TaskState::Unstarted => (TaskState::Cancelled, 1u64, 0u64),
            _ => t,
        },
    }
}

/// What the book-keeping of a task becomes under a run of driver steps.
pub open spec fn drive(t: (TaskState, u64, u64), steps: Seq<Option<Outcome>>) -> (TaskState, u64, u64)
    decreases steps.len(),
{
    if steps.len() == 0 {
        t
    } else {
        after(drive(t, steps.drop_last()), steps.last())
    }
}

/// Cancellation is safe whatever the timing of the drop: from a fresh task,
/// under any run of resumes and drops, the closure's resources are released
/// at most once and its stack given back at most once; once the task is
/// dropped while suspended in `wait`, each has happened exactly once.
pub proof fn lemma_cancellation_safety(steps: Seq<Option<Outcome>>)
    ensures
        ({
            let (s, c, r) = drive((TaskState::Unstarted, 0u64, 0u64), steps);
            &&& c <= 1
            &&& r <= 1
            &&& s is Cancelled ==> c == 1
            &&& s is Completed ==> c == 1 && r == 1
            &&& (s is Unstarted || s is Waiting) ==> c == 0 && r == 0
        }),
        forall|k: int|
            0 <= k < steps.len() && steps[k] is None && drive((TaskState::Unstarted, 0u64, 0u64), steps.take(k)).0
                is Waiting ==> {
                let (s, c, r) = #[trigger] drive((TaskState::Unstarted, 0u64, 0u64), steps.take(k + 1));
                s is Cancelled && c == 1 && r == 1
            },
    decreases steps.len(),
{
    if steps.len() > 0 {
        lemma_cancellation_safety(steps.drop_last());
    }
    assert forall|k: int|
        0 <= k < steps.len() && steps[k] is None && drive((TaskState::Unstarted, 0u64, 0u64), steps.take(k)).0
            is Waiting implies {
            let (s, c, r) = #[trigger] drive((TaskState::Unstarted, 0u64, 0u64), steps.take(k + 1));
            s is Cancelled && c == 1 && r == 1
        } by {
        assert(steps.take(k + 1).drop_last() == steps.take(k));
        assert(steps.take(k + 1).last() == steps[k]);
    }
}

} // verus!
