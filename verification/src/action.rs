//! What a system call tells the scheduler to do.

use crate::error::{FAILURE, SUCCESS};
use vstd::prelude::*;

verus! {

/// How the calling task goes on.
#[derive(Clone, Copy, Debug, PartialEq, Eq, Structural)]
pub enum Step {
    /// The call is complete and returns this code to the caller.
    Return(isize),
    /// The caller gives up the processor. When it runs again it goes on as the
    /// call says: most calls have a function that resumes them, the others are
    /// complete then, with 0.
    Yield,
    /// The caller is suspended until another task or the timer wakes it, and
    /// then goes on as the call says.
    Block,
}

/// The outcome of one step of a system call: what the scheduler does for it.
#[derive(Clone, Copy, Debug, PartialEq, Eq)]
pub struct Outcome {
    /// How the calling task goes on.
    pub step: Step,
    /// The handle of a task to make ready again.
    pub wake: Option<usize>,
    /// A time in milliseconds at which the timer is to wake the caller.
    pub timer: Option<usize>,
}

impl Outcome {
    /// The call is complete with `code`; nobody is woken.
    pub open spec fn done(code: int) -> Outcome {
        Outcome { step: Step::Return(code as isize), wake: None, timer: None }
    }

    /// The call is complete with success, and `wake` is woken.
    pub open spec fn released(wake: Option<usize>) -> Outcome {
        Outcome { step: Step::Return(0), wake, timer: None }
    }

    /// The caller goes on as `step` says; nobody is woken.
    pub open spec fn pause(step: Step) -> Outcome {
        Outcome { step, wake: None, timer: None }
    }

    /// The outcome of a call that failed.
    pub fn failure() -> (outcome: Outcome)
        ensures
            outcome == Outcome::done(-1),
    {
        Outcome { step: Step::Return(FAILURE), wake: None, timer: None }
    }

    /// The outcome of a call that ended with `code`.
    pub fn returning(code: isize) -> (outcome: Outcome)
        ensures
            outcome == Outcome::done(code as int),
    {
        Outcome { step: Step::Return(code), wake: None, timer: None }
    }

    /// The outcome of a release that woke `wake`.
    pub fn waking(wake: Option<usize>) -> (outcome: Outcome)
        ensures
            outcome == Outcome::released(wake),
    {
        Outcome { step: Step::Return(SUCCESS), wake, timer: None }
    }

    /// The outcome of a step after which the caller waits as `step` says.
    pub fn pausing(step: Step) -> (outcome: Outcome)
        ensures
            outcome == Outcome::pause(step),
    {
        Outcome { step, wake: None, timer: None }
    }
}

} // verus!
