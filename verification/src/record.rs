//! A record of the calls that a transaction makes on the functions it is given.
//!
//! Nothing outside this module can write a [`Record`], so a contract that speaks
//! of a record's calls speaks of calls that were made, in that order.
use vstd::prelude::*;

use crate::error::AppError;
use crate::interrupt::InterruptFlag;
use crate::transaction::ChangeView;
use crate::transaction::RemoteChange;
use crate::transaction::RemoteTransaction;

verus! {

/// One call, with its answer.
pub enum TransactionCall {
    /// The changes were staged.
    Stage(Result<(), AppError>),
    /// The staged change at an index was finalized.
    Finalize(int, RemoteChange, Result<RemoteChange, AppError>),
    /// The interrupt flag was looked at.
    Look(bool),
    /// The interrupt flag was lowered.
    Clear(bool),
    /// The staged and the finalized changes were undone.
    RollBack(Seq<RemoteChange>, Seq<RemoteChange>, Seq<AppError>),
    /// A finalized change was undone.
    UndoFinalized(ChangeView, Result<(), AppError>),
    /// A staged change was undone.
    UndoStaged(ChangeView, Result<(), AppError>),
}

pub struct Record {
    calls: Ghost<Seq<TransactionCall>>,
}

impl Record {
    /// The calls that were made, in order.
    pub closed spec fn calls(self) -> Seq<TransactionCall> {
        self.calls@
    }

    pub fn new() -> (record: Self)
        ensures
            record.calls().len() == 0,
    {
        Record { calls: Ghost(Seq::empty()) }
    }

    pub fn look(&mut self, interrupt: &InterruptFlag) -> (raised: bool)
        ensures
            final(self).calls() == old(self).calls().push(TransactionCall::Look(raised)),
            interrupt.shows(raised),
    {
        let raised = interrupt.is_interrupted();
        self.calls = Ghost(self.calls@.push(TransactionCall::Look(raised)));
        raised
    }

    pub fn clear(&mut self, interrupt: &InterruptFlag) -> (raised: bool)
        ensures
            final(self).calls() == old(self).calls().push(TransactionCall::Clear(raised)),
            interrupt.lowers(raised),
    {
        let raised = interrupt.clear_for_rollback();
        self.calls = Ghost(self.calls@.push(TransactionCall::Clear(raised)));
        raised
    }

    pub fn stage<A>(&mut self, stage: A, transaction: &mut RemoteTransaction) -> (result: Result<
        (),
        AppError,
    >)
        where A: FnOnce(&mut RemoteTransaction) -> Result<(), AppError>
        requires
            forall|given: &mut RemoteTransaction|
                *given == *old(transaction) ==> #[trigger] stage.requires((given,)),
        ensures
            final(self).calls() == old(self).calls().push(TransactionCall::Stage(result)),
            exists|given: &mut RemoteTransaction|
                {
                    &&& *given == *old(transaction)
                    &&& *final(given) == *final(transaction)
                    &&& #[trigger] stage.ensures((given,), result)
                },
    {
        let result = stage(transaction);
        self.calls = Ghost(self.calls@.push(TransactionCall::Stage(result)));
        result
    }

    pub fn finalize<B>(&mut self, operation: &B, index: usize, change: &RemoteChange) -> (result:
        Result<RemoteChange, AppError>)
        where B: Fn(usize, &RemoteChange) -> Result<RemoteChange, AppError>
        requires
            operation.requires((index, change)),
        ensures
            final(self).calls() == old(self).calls().push(
                TransactionCall::Finalize(index as int, *change, result),
            ),
            operation.ensures((index, change), result),
    {
        let result = operation(index, change);
        self.calls = Ghost(
            self.calls@.push(TransactionCall::Finalize(index as int, *change, result)),
        );
        result
    }

    pub fn roll_back<C>(
        &mut self,
        rollback: C,
        staged: &[RemoteChange],
        finalized: &[RemoteChange],
    ) -> (errors: Vec<AppError>)
        where C: FnOnce(&[RemoteChange], &[RemoteChange]) -> Vec<AppError>
        requires
            rollback.requires((staged, finalized)),
        ensures
            final(self).calls() == old(self).calls().push(
                TransactionCall::RollBack(staged@, finalized@, errors@),
            ),
            rollback.ensures((staged, finalized), errors),
    {
        let errors = rollback(staged, finalized);
        self.calls = Ghost(
            self.calls@.push(TransactionCall::RollBack(staged@, finalized@, errors@)),
        );
        errors
    }

    pub fn undo_finalized<F>(&mut self, rollback: &F, change: &RemoteChange) -> (result: Result<
        (),
        AppError,
    >)
        where F: Fn(&RemoteChange) -> Result<(), AppError>
        requires
            rollback.requires((change,)),
        ensures
            final(self).calls() == old(self).calls().push(
                TransactionCall::UndoFinalized(change@, result),
            ),
            rollback.ensures((change,), result),
    {
        let result = rollback(change);
        self.calls = Ghost(self.calls@.push(TransactionCall::UndoFinalized(change@, result)));
        result
    }

    pub fn undo_staged<F>(&mut self, rollback: &F, change: &RemoteChange) -> (result: Result<
        (),
        AppError,
    >)
        where F: Fn(&RemoteChange) -> Result<(), AppError>
        requires
            rollback.requires((change,)),
        ensures
            final(self).calls() == old(self).calls().push(
                TransactionCall::UndoStaged(change@, result),
            ),
            rollback.ensures((change,), result),
    {
        let result = rollback(change);
        self.calls = Ghost(self.calls@.push(TransactionCall::UndoStaged(change@, result)));
        result
    }
}

} // verus!
