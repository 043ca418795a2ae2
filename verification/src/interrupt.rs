//! The flag that a signal raises.
use std::sync::atomic::{AtomicBool, Ordering};
use std::sync::Arc;
use vstd::prelude::*;

use crate::error::AppError;

verus! {

/// A flag that a signal handler raises at any moment and the workflows test
/// between their steps.
#[derive(Debug)]
pub struct InterruptFlag {
    interrupted: Arc<AtomicBool>,
}

/// What a workflow does when it tests the flag.
pub fn stop_if_interrupted(interrupted: bool) -> (go_on: Result<(), AppError>)
    ensures
        go_on == if interrupted {
            Err::<(), AppError>(AppError::Interrupted)
        } else {
            Ok::<(), AppError>(())
        },
{
    if interrupted {
        Err(AppError::Interrupted)
    } else {
        Ok(())
    }
}

impl InterruptFlag {
    /// The shared cell that the flag lives in.
    pub closed spec fn cell(self) -> Arc<AtomicBool> {
        self.interrupted
    }

    /// A load of the cell gives the value. Others decide which value, at any
    /// moment, so that only a look tells.
    pub open spec fn shows(self, raised: bool) -> bool {
        call_ensures(AtomicBool::load, (&*self.cell(), Ordering::Relaxed), raised)
    }

    /// Exchanging the cell's value for `false` gives the value that it had.
    pub open spec fn lowers(self, raised: bool) -> bool {
        call_ensures(AtomicBool::swap, (&*self.cell(), false, Ordering::Relaxed), raised)
    }

    /// A flag in a cell that others share.
    pub fn from_atomic(interrupted: Arc<AtomicBool>) -> (flag: Self)
        ensures
            flag.cell() == interrupted,
    {
        InterruptFlag { interrupted }
    }

    /// Whether the flag is raised at this moment.
    pub fn is_interrupted(&self) -> (raised: bool)
        ensures
            self.shows(raised),
    {
        self.interrupted.load(Ordering::Relaxed)
    }

    /// Lowers the flag, so that the work which undoes a transaction is not
    /// stopped by the signal that caused it; tells whether it was raised. How long
    /// it stays lowered is not stated: a signal may raise it again at any moment.
    pub fn clear_for_rollback(&self) -> (raised: bool)
        ensures
            self.lowers(raised),
    {
        self.interrupted.swap(false, Ordering::Relaxed)
    }

    /// Stops a workflow if the flag is raised.
    pub fn check(&self) -> (go_on: Result<(), AppError>)
        ensures
            match go_on {
                Ok(()) => self.shows(false),
                Err(error) => error == AppError::Interrupted && self.shows(true),
            },
    {
        stop_if_interrupted(self.is_interrupted())
    }
}

impl Clone for InterruptFlag {
    fn clone(&self) -> (copy: Self)
        ensures
            copy.cell() == self.cell(),
    {
        InterruptFlag { interrupted: Arc::clone(&self.interrupted) }
    }
}

} // verus!
