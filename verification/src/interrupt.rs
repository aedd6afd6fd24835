use vstd::prelude::*;
use crate::error::EvalError;

verus! {

/// A polled, non-blocking cancellation signal. The pipeline only reads it.
pub trait Interrupt {
    /// What is known of the signal for as long as it is borrowed:
    /// `Some(true)` where cancellation was requested before the borrow
    /// began, `Some(false)` where none can be requested while it lasts,
    /// `None` where one may arrive at any moment.
    open spec fn settled(&self) -> Option<bool> {
        None
    }

    /// Has cancellation been requested? Answers without blocking.
    fn is_interrupted(&self) -> (requested: bool)
        ensures
            self.settled() matches Some(known) ==> requested == known,
    ;
}

/// What a computation that polls a signal at its start may give: `stopped`
/// where cancellation had been requested before, `pure` where none can
/// arrive, one of the two otherwise.
pub open spec fn admits<T>(settled: Option<bool>, got: T, pure: T, stopped: T) -> bool {
    match settled {
        Some(true) => got == stopped,
        Some(false) => got == pure,
        None => got == pure || got == stopped,
    }
}

/// What a checkpoint decides from the answer of the signal: to stop with
/// `Interrupted` where cancellation was requested, to go on where not.
pub fn checkpoint(requested: bool) -> (r: Result<(), EvalError>)
    ensures
        requested ==> r == Err::<(), EvalError>(EvalError::Interrupted),
        !requested ==> r is Ok,
{
    if requested {
        Err(EvalError::Interrupted)
    } else {
        Ok(())
    }
}

/// A signal that is never raised.
#[derive(Clone, Copy, Debug)]
pub struct Never;

impl Interrupt for Never {
    open spec fn settled(&self) -> Option<bool> {
        Some(false)
    }

    fn is_interrupted(&self) -> (requested: bool) {
        false
    }
}

/// A signal that was raised before it was handed over.
#[derive(Clone, Copy, Debug)]
pub struct Raised;

impl Interrupt for Raised {
    open spec fn settled(&self) -> Option<bool> {
        Some(true)
    }

    fn is_interrupted(&self) -> (requested: bool) {
        true
    }
}

} // verus!
