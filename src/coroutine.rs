use vstd::prelude::*;

verus! {

/// Where a symmetric coroutine is in its life.
#[derive(Clone, Copy, Debug, PartialEq, Eq, Structural)]
pub enum CoState {
    Created,
    Running,
    Suspended,
    Finished,
    Panicked,
}

impl CoState {
    /// The coroutine has ended, normally or by a panic, for good.
    pub open spec fn is_terminal(self) -> bool {
        self is Finished || self is Panicked
    }
}

/// Why a coroutine could not be resumed.
#[derive(Clone, Copy, Debug, PartialEq, Eq, Structural)]
pub enum ResumeError {
    /// It has finished or panicked.
    Terminated,
    /// It is running already.
    Running,
}

/// The book-keeping of one symmetric coroutine: its state, and whether it
/// still holds its stack. The stack is held exactly until the coroutine
/// ends.
pub struct Lifecycle {
    state: CoState,
    holds_stack: bool,
}

impl Lifecycle {
    pub closed spec fn state(&self) -> CoState {
        self.state
    }

    pub closed spec fn holds_stack(&self) -> bool {
        self.holds_stack
    }

    /// The stack is held exactly while the coroutine has not ended.
    pub closed spec fn wf(&self) -> bool {
        self.holds_stack <==> !self.state.is_terminal()
    }

    /// A coroutine that was just built on its stack and has not run.
    pub fn new() -> (r: Self)
        ensures
            r.wf(),
            r.state() == CoState::Created,
            r.holds_stack(),
    {
        Lifecycle { state: CoState::Created, holds_stack: true }
    }

    pub fn state_of(&self) -> (r: CoState)
        ensures
            r == self.state(),
    {
        self.state
    }

    /// Control enters the coroutine. Refused, with nothing changed, when it
    /// has ended or is running already.
    pub fn enter(&mut self) -> (r: Result<(), ResumeError>)
        requires
            old(self).wf(),
        ensures
            final(self).wf(),
            final(self).holds_stack() == old(self).holds_stack(),
            match old(self).state() {
                CoState::Created | CoState::Suspended => r is Ok && final(self).state() == CoState::Running,
                CoState::Running => r == Err::<(), ResumeError>(ResumeError::Running) && final(self).state() == CoState::Running,
                _ => r == Err::<(), ResumeError>(ResumeError::Terminated) && final(self).state() == old(self).state(),
            },
    {
        match self.state {
            CoState::Created | CoState::Suspended => {
                self.state = CoState::Running;
                Ok(())
            },
            CoState::Running => Err(ResumeError::Running),
            CoState::Finished | CoState::Panicked => Err(ResumeError::Terminated),
        }
    }

    /// The running coroutine switches away and waits to be resumed.
    pub fn suspend(&mut self)
        requires
            old(self).wf(),
            old(self).state() == CoState::Running,
        ensures
            final(self).wf(),
            final(self).state() == CoState::Suspended,
            final(self).holds_stack(),
    {
        self.state = CoState::Suspended;
    }

    /// The running coroutine ends, normally or by a panic. This is the
    /// callback that runs off its stack once it has switched away for the
    /// last time: it gives the stack back, which happens here and nowhere
    /// else.
    pub fn end(&mut self, panicked: bool)
        requires
            old(self).wf(),
            old(self).state() == CoState::Running,
        ensures
            final(self).wf(),
            final(self).state() == if panicked { CoState::Panicked } else { CoState::Finished },
            !final(self).holds_stack(),
    {
        self.state = if panicked { CoState::Panicked } else { CoState::Finished };
        self.holds_stack = false;
    }
}

} // verus!
