//! Remote changes that are staged first, finalized together, and undone in
//! reverse where any of them fails.
use vstd::prelude::*;

use crate::error::AppError;
use crate::interrupt::InterruptFlag;
use crate::object_path::ObjectPath;
use crate::object_path::ObjectPathView;
use crate::record::Record;
use crate::record::TransactionCall;

verus! {

/// One remote change and the generation that this run owns at its target.
#[derive(Debug)]
pub struct RemoteChange {
    pub source: ObjectPath,
    pub target: ObjectPath,
    pub generation: String,
}

impl Clone for RemoteChange {
    fn clone(&self) -> (copy: Self)
        ensures
            copy == *self,
    {
        RemoteChange {
            source: self.source.clone(),
            target: self.target.clone(),
            generation: self.generation.clone(),
        }
    }
}

/// What a [`RemoteChange`] says.
pub struct ChangeView {
    pub source: ObjectPathView,
    pub target: ObjectPathView,
    pub generation: Seq<char>,
}

impl View for RemoteChange {
    type V = ChangeView;

    open spec fn view(&self) -> ChangeView {
        ChangeView { source: self.source@, target: self.target@, generation: self.generation@ }
    }
}

/// What the changes say.
pub open spec fn change_views(changes: Seq<RemoteChange>) -> Seq<ChangeView> {
    changes.map_values(|change: RemoteChange| change@)
}

#[derive(Debug)]
pub struct RemoteTransaction {
    pub staged: Vec<RemoteChange>,
    pub finalized: Vec<RemoteChange>,
}

/// The staged changes once a failed finalization was recorded: where the storage
/// undid the change itself, the object now has the restored generation.
pub open spec fn recorded(
    before: Seq<RemoteChange>,
    at: int,
    failure: AppError,
    after: Seq<RemoteChange>,
) -> bool {
    match failure.restored_generation() {
        Some(generation) => {
            &&& after.len() == before.len()
            &&& forall|i: int| 0 <= i < before.len() && i != at ==> #[trigger] after[i] == before[i]
            &&& after[at].source == before[at].source
            &&& after[at].target == before[at].target
            &&& after[at].generation@ == generation
        },
        None => after == before,
    }
}

impl RemoteTransaction {
    pub fn new() -> (transaction: Self)
        ensures
            transaction.staged@.len() == 0,
            transaction.finalized@.len() == 0,
    {
        RemoteTransaction { staged: Vec::new(), finalized: Vec::new() }
    }

    /// Records a change that was staged.
    pub fn stage(&mut self, change: RemoteChange)
        ensures
            final(self).staged@ == old(self).staged@.push(change),
            final(self).finalized == old(self).finalized,
    {
        self.staged.push(change);
    }

    pub fn staged(&self) -> (changes: &[RemoteChange])
        ensures
            changes@ == self.staged@,
    {
        self.staged.as_slice()
    }

    pub fn finalized(&self) -> (changes: &[RemoteChange])
        ensures
            changes@ == self.finalized@,
    {
        self.finalized.as_slice()
    }

    /// What finalizing does: the staged changes are finalized in order, with a look
    /// at the interrupt flag after each, until one fails or the flag is raised.
    /// What was finalized stays recorded.
    pub open spec fn finalizes<F: Fn(usize, &RemoteChange) -> Result<RemoteChange, AppError>>(
        self,
        interrupt: InterruptFlag,
        operation: F,
        after: RemoteTransaction,
        calls: Seq<TransactionCall>,
        result: Result<(), AppError>,
    ) -> bool {
        let earlier = self.finalized@.len() as int;
        let done = after.finalized@.len() - earlier;
        let finals = after.finalized@.skip(earlier);
        &&& 0 <= done <= self.staged@.len()
        &&& after.finalized@.take(earlier) == self.finalized@
        &&& forall|i: int|
            0 <= i < done ==> #[trigger] operation.ensures(
                (i as usize, &self.staged@[i]),
                Ok(after.finalized@[earlier + i]),
            )
        &&& match result {
            Ok(_) => {
                &&& done == self.staged@.len()
                &&& done > 0 ==> interrupt.shows(false)
                &&& after.staged@ == self.staged@
                &&& calls == finalizing(self.staged@, finals, done)
            },
            Err(failure) => {
                ||| {
                    &&& failure == AppError::Interrupted
                    &&& interrupt.shows(true)
                    &&& 0 < done
                    &&& after.staged@ == self.staged@
                    &&& calls == finalizing(self.staged@, finals, done - 1).push(
                        TransactionCall::Finalize(
                            done - 1,
                            self.staged@[done - 1],
                            Ok(finals[done - 1]),
                        ),
                    ).push(TransactionCall::Look(true))
                }
                ||| {
                    &&& done < self.staged@.len()
                    &&& operation.ensures((done as usize, &self.staged@[done]), Err(failure))
                    &&& recorded(self.staged@, done, failure, after.staged@)
                    &&& calls == finalizing(self.staged@, finals, done).push(
                        TransactionCall::Finalize(done, self.staged@[done], Err(failure)),
                    )
                }
            },
        }
    }

    /// Finalizes each staged change while retaining enough state to roll it
    /// back if the finalization or its interrupt boundary fails.
    pub fn finalize<F>(&mut self, interrupt: &InterruptFlag, operation: F) -> (result: Result<
        (),
        AppError,
    >)
        where F: Fn(usize, &RemoteChange) -> Result<RemoteChange, AppError>
        requires
            forall|i: int|
                0 <= i < old(self).staged@.len() ==> #[trigger] operation.requires(
                    (i as usize, &old(self).staged@[i]),
                ),
        ensures
            exists|record: Record| #[trigger]
                old(self).finalizes(*interrupt, operation, *final(self), record.calls(), result),
    {
        let mut record = Record::new();
        let result = self.finalize_recorded(interrupt, operation, &mut record);
        assert(record.calls() =~= record.calls().skip(0));
        result
    }

    /// Finalizes each staged change, on a record.
    pub fn finalize_recorded<F>(
        &mut self,
        interrupt: &InterruptFlag,
        operation: F,
        record: &mut Record,
    ) -> (result: Result<(), AppError>)
        where F: Fn(usize, &RemoteChange) -> Result<RemoteChange, AppError>
        requires
            forall|i: int|
                0 <= i < old(self).staged@.len() ==> #[trigger] operation.requires(
                    (i as usize, &old(self).staged@[i]),
                ),
        ensures
            old(record).calls().is_prefix_of(final(record).calls()),
            old(self).finalizes(
                *interrupt,
                operation,
                *final(self),
                final(record).calls().skip(old(record).calls().len() as int),
                result,
            ),
    {
        let ghost before = *self;
        let ghost earlier = self.finalized@.len();
        let ghost past = record.calls();
        let mut index: usize = 0;
        assert(self.finalized@.take(earlier as int) =~= before.finalized@);
        assert(record.calls() =~= past + finalizing(before.staged@, Seq::empty(), 0));
        while index < self.staged.len()
            invariant
                self.staged@ == before.staged@,
                before == *old(self),
                past == old(record).calls(),
                earlier == before.finalized@.len(),
                index <= before.staged@.len(),
                self.finalized@.len() == earlier + index,
                self.finalized@.take(earlier as int) == before.finalized@,
                record.calls() == past + finalizing(
                    before.staged@,
                    self.finalized@.skip(earlier as int),
                    index as int,
                ),
                index > 0 ==> interrupt.shows(false),
                forall|i: int|
                    0 <= i < before.staged@.len() ==> #[trigger] operation.requires(
                        (i as usize, &before.staged@[i]),
                    ),
                forall|i: int|
                    0 <= i < index ==> #[trigger] operation.ensures(
                        (i as usize, &before.staged@[i]),
                        Ok(self.finalized@[earlier + i]),
                    ),
            decreases before.staged@.len() - index,
        {
            assert(operation.requires((index as int as usize, &before.staged@[index as int])));
            let ghost so_far = self.finalized@;
            let ghost made = finalizing(before.staged@, so_far.skip(earlier as int), index as int);
            match record.finalize(&operation, index, &self.staged[index]) {
                Ok(change) => {
                    self.finalized.push(change);
                    proof {
                        let finals = self.finalized@.skip(earlier as int);
                        assert(self.finalized@.take(earlier as int) =~= so_far.take(earlier as int));
                        assert(finals.take(index as int) =~= so_far.skip(earlier as int).take(
                            index as int,
                        ));
                        finalizing_reads_a_prefix(
                            before.staged@,
                            finals,
                            so_far.skip(earlier as int),
                            index as int,
                        );
                        assert(finals[index as int] == change);
                        assert(record.calls() =~= past + made.push(
                            TransactionCall::Finalize(
                                index as int,
                                before.staged@[index as int],
                                Ok(finals[index as int]),
                            ),
                        ));
                        assert forall|i: int| 0 <= i < index + 1 implies #[trigger] operation.ensures(
                            (i as usize, &before.staged@[i]),
                            Ok(self.finalized@[earlier + i]),
                        ) by {
                            if i < index {
                                assert(self.finalized@[earlier + i] == so_far[earlier + i]);
                            }
                        }
                    }
                },
                Err(failure) => {
                    let restored: Option<String> = match failure.restored_move_generation() {
                        Some(generation) => Some(generation.to_string()),
                        None => None,
                    };
                    if let Some(generation) = restored {
                        let mut change = self.staged[index].clone();
                        change.generation = generation;
                        self.staged.set(index, change);
                    }
                    assert(record.calls().skip(past.len() as int) =~= made.push(
                        TransactionCall::Finalize(
                            index as int,
                            before.staged@[index as int],
                            Err(failure),
                        ),
                    ));
                    return Err(failure);
                },
            }
            let ghost finals = self.finalized@.skip(earlier as int);
            let ghost called = record.calls();
            index += 1;
            if record.look(interrupt) {
                assert(record.calls().skip(past.len() as int) =~= called.skip(
                    past.len() as int,
                ).push(TransactionCall::Look(true)));
                assert(called.skip(past.len() as int) =~= made.push(
                    TransactionCall::Finalize(
                        index - 1,
                        before.staged@[index - 1],
                        Ok(finals[index - 1]),
                    ),
                ));
                return Err(AppError::Interrupted);
            }
            assert(record.calls() =~= past + finalizing(before.staged@, finals, index as int));
        }
        assert(record.calls().skip(past.len() as int) =~= finalizing(
            before.staged@,
            self.finalized@.skip(earlier as int),
            index as int,
        ));
        Ok(())
    }

    /// How a transaction ends: with success, or with the failure. In that case the
    /// interrupt flag is lowered first, the changes are undone after that, and what
    /// went wrong in the undoing is added to the failure.
    pub open spec fn settles<C: FnOnce(&[RemoteChange], &[RemoteChange]) -> Vec<AppError>>(
        self,
        interrupt: InterruptFlag,
        operation: Result<(), AppError>,
        rollback: C,
        calls: Seq<TransactionCall>,
        result: Result<(), AppError>,
    ) -> bool {
        match operation {
            Ok(_) => result is Ok && calls.len() == 0,
            Err(failure) => {
                &&& result is Err
                &&& exists|
                    staged: &[RemoteChange],
                    finalized: &[RemoteChange],
                    errors: Vec<AppError>,
                    raised: bool,
                |
                    {
                        &&& staged@ == self.staged@
                        &&& finalized@ == self.finalized@
                        &&& #[trigger] rollback.ensures((staged, finalized), errors)
                        &&& #[trigger] interrupt.lowers(raised)
                        &&& calls == seq![
                            TransactionCall::Clear(raised),
                            TransactionCall::RollBack(self.staged@, self.finalized@, errors@),
                        ]
                        &&& (result->Err_0).rollback_of(failure, errors@)
                    }
            },
        }
    }

    /// Ends a transaction, on a record.
    pub fn settle<C>(
        &self,
        interrupt: &InterruptFlag,
        operation: Result<(), AppError>,
        rollback: C,
        record: &mut Record,
    ) -> (result: Result<(), AppError>)
        where C: FnOnce(&[RemoteChange], &[RemoteChange]) -> Vec<AppError>
        requires
            forall|staged: &[RemoteChange], finalized: &[RemoteChange]|
                staged@ == self.staged@ && finalized@ == self.finalized@
                    ==> #[trigger] rollback.requires((staged, finalized)),
        ensures
            old(record).calls().is_prefix_of(final(record).calls()),
            self.settles(
                *interrupt,
                operation,
                rollback,
                final(record).calls().skip(old(record).calls().len() as int),
                result,
            ),
    {
        let ghost past = record.calls();
        match operation {
            Ok(()) => Ok(()),
            Err(failure) => {
                let raised = record.clear(interrupt);
                let staged = self.staged();
                let finalized = self.finalized();
                let errors = record.roll_back(rollback, staged, finalized);
                assert(interrupt.lowers(raised));
                assert(rollback.ensures((staged, finalized), errors));
                assert(record.calls().skip(past.len() as int) =~= seq![
                    TransactionCall::Clear(raised),
                    TransactionCall::RollBack(self.staged@, self.finalized@, errors@),
                ]);
                Err(AppError::rollback(failure, errors))
            },
        }
    }

    /// What a transaction does once staging has ended: where that succeeded, it
    /// finalizes the changes; and where either failed, it undoes what was done.
    pub open spec fn runs<B, C>(
        self,
        interrupt: InterruptFlag,
        staging: Result<(), AppError>,
        finalize: B,
        rollback: C,
        calls: Seq<TransactionCall>,
        result: Result<(), AppError>,
    ) -> bool where
        B: Fn(usize, &RemoteChange) -> Result<RemoteChange, AppError>,
        C: FnOnce(&[RemoteChange], &[RemoteChange]) -> Vec<AppError>,
     {
        &&& calls.len() > 0
        &&& calls[0] == TransactionCall::Stage(staging)
        &&& match staging {
            Err(failure) => self.settles(interrupt, Err(failure), rollback, calls.skip(1), result),
            Ok(_) => exists|after: RemoteTransaction, finalizing: Result<(), AppError>, split: int|
                {
                    &&& 1 <= split <= calls.len()
                    &&& #[trigger] self.finalizes(
                        interrupt,
                        finalize,
                        after,
                        calls.subrange(1, split),
                        finalizing,
                    )
                    &&& after.settles(interrupt, finalizing, rollback, calls.skip(split), result)
                },
        }
    }

    /// Runs a transaction: stages the changes, finalizes them, and undoes what
    /// was done where either fails. Nothing is finalized unless all was staged.
    pub fn execute<A, B, C>(
        interrupt: &InterruptFlag,
        stage: A,
        finalize: B,
        rollback: C,
    ) -> (result: Result<(), AppError>)
        where
            A: FnOnce(&mut RemoteTransaction) -> Result<(), AppError>,
            B: Fn(usize, &RemoteChange) -> Result<RemoteChange, AppError>,
            C: FnOnce(&[RemoteChange], &[RemoteChange]) -> Vec<AppError>,
        requires
            forall|transaction: &mut RemoteTransaction|
                transaction.staged@.len() == 0 && transaction.finalized@.len() == 0
                    ==> #[trigger] stage.requires((transaction,)),
            forall|index: usize, change: &RemoteChange| #[trigger] finalize.requires((index, change)),
            forall|staged: &[RemoteChange], finalized: &[RemoteChange]| #[trigger]
                rollback.requires((staged, finalized)),
        ensures
            exists|record: Record, transaction: &mut RemoteTransaction, staging: Result<(), AppError>|
                {
                    &&& transaction.staged@.len() == 0
                    &&& transaction.finalized@.len() == 0
                    &&& #[trigger] stage.ensures((transaction,), staging)
                    &&& final(transaction).runs(
                        *interrupt,
                        staging,
                        finalize,
                        rollback,
                        #[trigger] record.calls(),
                        result,
                    )
                },
    {
        let mut record = Record::new();
        let mut transaction = RemoteTransaction::new();
        let staging = record.stage(stage, &mut transaction);
        let ghost staged_calls = record.calls();
        let ghost staged_transaction = transaction;
        match staging {
            Err(failure) => {
                let result = transaction.settle(interrupt, Err(failure), rollback, &mut record);
                assert(record.calls()[0] == staged_calls[0]);
                assert(staged_transaction.runs(
                    *interrupt,
                    staging,
                    finalize,
                    rollback,
                    record.calls(),
                    result,
                ));
                result
            },
            Ok(()) => {
                let finalizing = transaction.finalize_recorded(interrupt, finalize, &mut record);
                let ghost finalized_calls = record.calls();
                let result = transaction.settle(interrupt, finalizing, rollback, &mut record);
                proof {
                    let calls = record.calls();
                    let split = finalized_calls.len() as int;
                    assert(calls[0] == finalized_calls[0]);
                    assert(finalized_calls[0] == staged_calls[0]);
                    assert(calls.subrange(1, split) =~= finalized_calls.skip(1));
                    assert(staged_transaction.finalizes(
                        *interrupt,
                        finalize,
                        transaction,
                        calls.subrange(1, split),
                        finalizing,
                    ));
                    assert(staged_transaction.runs(
                        *interrupt,
                        staging,
                        finalize,
                        rollback,
                        calls,
                        result,
                    ));
                }
                result
            },
        }
    }
}

/// The calls by which the first `done` changes are finalized: each is finalized
/// once, in order, and the interrupt flag does not show raised after it.
pub open spec fn finalizing(
    staged: Seq<RemoteChange>,
    finals: Seq<RemoteChange>,
    done: int,
) -> Seq<TransactionCall>
    decreases done,
{
    if done <= 0 {
        Seq::empty()
    } else {
        finalizing(staged, finals, done - 1).push(
            TransactionCall::Finalize(done - 1, staged[done - 1], Ok(finals[done - 1])),
        ).push(TransactionCall::Look(false))
    }
}

proof fn finalizing_reads_a_prefix(
    staged: Seq<RemoteChange>,
    finals: Seq<RemoteChange>,
    others: Seq<RemoteChange>,
    done: int,
)
    requires
        0 <= done <= finals.len(),
        done <= others.len(),
        finals.take(done) == others.take(done),
    ensures
        finalizing(staged, finals, done) == finalizing(staged, others, done),
    decreases done,
{
    if done > 0 {
        assert(finals.take(done - 1) =~= finals.take(done).take(done - 1));
        assert(others.take(done - 1) =~= others.take(done).take(done - 1));
        assert(finals.take(done)[done - 1] == finals[done - 1]);
        assert(others.take(done)[done - 1] == others[done - 1]);
        assert(finals[done - 1] == others[done - 1]);
        finalizing_reads_a_prefix(staged, finals, others, done - 1);
    }
}

/// Whether the changes hold one with the source.
pub open spec fn has_source(changes: Seq<ChangeView>, source: ObjectPathView) -> bool {
    exists|i: int| 0 <= i < changes.len() && (#[trigger] changes[i]).source == source
}

fn contains_source(changes: &[RemoteChange], source: &ObjectPath) -> (contains: bool)
    ensures
        contains == has_source(change_views(changes@), source@),
{
    let ghost all = change_views(changes@);
    let mut i: usize = 0;
    while i < changes.len()
        invariant
            i <= changes@.len(),
            all == change_views(changes@),
            forall|k: int| 0 <= k < i ==> (#[trigger] all[k]).source != source@,
        decreases changes@.len() - i,
    {
        if changes[i].source == *source {
            assert(all[i as int].source == source@);
            return true;
        }
        i += 1;
    }
    false
}

/// The staged changes that were not finalized, last one first.
pub open spec fn unfinalized(staged: Seq<ChangeView>, finalized: Seq<ChangeView>) -> Seq<
    ChangeView,
>
    decreases staged.len(),
{
    if staged.len() == 0 {
        Seq::empty()
    } else if has_source(finalized, staged.last().source) {
        unfinalized(staged.drop_last(), finalized)
    } else {
        seq![staged.last()] + unfinalized(staged.drop_last(), finalized)
    }
}

/// The errors among the results, in order.
pub open spec fn failures(results: Seq<Result<(), AppError>>) -> Seq<AppError>
    decreases results.len(),
{
    if results.len() == 0 {
        Seq::empty()
    } else {
        match results.last() {
            Ok(_) => failures(results.drop_last()),
            Err(error) => failures(results.drop_last()).push(error),
        }
    }
}

/// One change to undo.
pub enum Undo {
    Finalized(RemoteChange),
    Staged(RemoteChange),
}

pub enum UndoView {
    Finalized(ChangeView),
    Staged(ChangeView),
}

impl View for Undo {
    type V = UndoView;

    open spec fn view(&self) -> UndoView {
        match *self {
            Undo::Finalized(change) => UndoView::Finalized(change@),
            Undo::Staged(change) => UndoView::Staged(change@),
        }
    }
}

pub open spec fn undo_views(undos: Seq<Undo>) -> Seq<UndoView> {
    undos.map_values(|undo: Undo| undo@)
}

impl UndoView {
    pub open spec fn change(self) -> ChangeView {
        match self {
            UndoView::Finalized(change) => change,
            UndoView::Staged(change) => change,
        }
    }

    /// The call that undoes the change, with its answer.
    pub open spec fn call(self, answer: Result<(), AppError>) -> TransactionCall {
        match self {
            UndoView::Finalized(change) => TransactionCall::UndoFinalized(change, answer),
            UndoView::Staged(change) => TransactionCall::UndoStaged(change, answer),
        }
    }
}

/// The order of undoing: the finalized changes first, followed by those only
/// staged, each group last one first. It preserves the dependency ordering used
/// while applying the plan.
pub open spec fn undo_order(staged: Seq<ChangeView>, finalized: Seq<ChangeView>) -> Seq<UndoView> {
    finalized.reverse().map_values(|change: ChangeView| UndoView::Finalized(change)) + unfinalized(
        staged,
        finalized,
    ).map_values(|change: ChangeView| UndoView::Staged(change))
}

/// Lists what is to be undone, in order.
pub fn undo_list(staged: &[RemoteChange], finalized: &[RemoteChange]) -> (list: Vec<Undo>)
    ensures
        undo_views(list@) == undo_order(change_views(staged@), change_views(finalized@)),
{
    let ghost stages = change_views(staged@);
    let ghost finals = change_views(finalized@);
    let ghost first = finals.reverse().map_values(|change: ChangeView| UndoView::Finalized(change));
    let mut list: Vec<Undo> = Vec::new();
    let mut left: usize = finalized.len();
    while left > 0
        invariant
            left <= finalized@.len(),
            finals == change_views(finalized@),
            first == finals.reverse().map_values(|change: ChangeView| UndoView::Finalized(change)),
            undo_views(list@) == first.take(finalized@.len() - left),
        decreases left,
    {
        left -= 1;
        let ghost so_far = undo_views(list@);
        let ghost undone = finalized@.len() - left - 1;
        list.push(Undo::Finalized(finalized[left].clone()));
        assert(first[undone] == UndoView::Finalized(finalized@[left as int]@));
        assert(undo_views(list@) =~= so_far.push(first[undone]));
        assert(first.take(undone + 1) =~= first.take(undone).push(first[undone]));
    }
    assert(undo_views(list@) =~= first);
    let ghost second = unfinalized(stages, finals).map_values(
        |change: ChangeView| UndoView::Staged(change),
    );
    let mut left: usize = staged.len();
    assert(stages.take(staged@.len() as int) =~= stages);
    assert(undo_views(list@) + second =~= first + second);
    while left > 0
        invariant
            left <= staged@.len(),
            stages == change_views(staged@),
            finals == change_views(finalized@),
            undo_views(list@) + unfinalized(stages.take(left as int), finals).map_values(
                |change: ChangeView| UndoView::Staged(change),
            ) == first + second,
        decreases left,
    {
        left -= 1;
        let ghost rest = unfinalized(stages.take(left as int), finals).map_values(
            |change: ChangeView| UndoView::Staged(change),
        );
        let ghost so_far = undo_views(list@);
        assert(stages.take(left + 1).drop_last() =~= stages.take(left as int));
        assert(stages.take(left + 1).last() == staged@[left as int]@);
        if !contains_source(finalized, &staged[left].source) {
            assert(unfinalized(stages.take(left + 1), finals).map_values(
                |change: ChangeView| UndoView::Staged(change),
            ) =~= seq![UndoView::Staged(staged@[left as int]@)] + rest);
            list.push(Undo::Staged(staged[left].clone()));
            assert(undo_views(list@) =~= so_far.push(UndoView::Staged(staged@[left as int]@)));
            assert(undo_views(list@) + rest =~= so_far + (seq![
                UndoView::Staged(staged@[left as int]@),
            ] + rest));
        }
    }
    assert(stages.take(0) =~= Seq::empty());
    assert(undo_views(list@) =~= first + second);
    list
}

/// The undoing of changes: each change of the order is undone once, in order. A
/// failure stops nothing; the failures are collected in order.
pub open spec fn undoes<
    Finalized: Fn(&RemoteChange) -> Result<(), AppError>,
    Staged: Fn(&RemoteChange) -> Result<(), AppError>,
>(
    order: Seq<UndoView>,
    rollback_finalized: Finalized,
    rollback_staged: Staged,
    calls: Seq<TransactionCall>,
    errors: Seq<AppError>,
) -> bool {
    exists|answers: Seq<Result<(), AppError>>|
        {
            &&& answers.len() == order.len()
            &&& calls == undo_calls(order, answers)
            &&& forall|i: int|
                0 <= i < order.len() ==> undone_by(
                    order[i],
                    rollback_finalized,
                    rollback_staged,
                    #[trigger] answers[i],
                )
            &&& errors == #[trigger] failures(answers)
        }
}

/// The calls that undo the changes of the order, in order.
pub open spec fn undo_calls(order: Seq<UndoView>, answers: Seq<Result<(), AppError>>) -> Seq<
    TransactionCall,
> {
    Seq::new(answers.len(), |i: int| order[i].call(answers[i]))
}

/// The function for the kind of change gave the answer for the change.
pub open spec fn undone_by<
    Finalized: Fn(&RemoteChange) -> Result<(), AppError>,
    Staged: Fn(&RemoteChange) -> Result<(), AppError>,
>(
    undo: UndoView,
    rollback_finalized: Finalized,
    rollback_staged: Staged,
    answer: Result<(), AppError>,
) -> bool {
    match undo {
        UndoView::Finalized(said) => exists|change: RemoteChange|
            change@ == said && #[trigger] rollback_finalized.ensures((&change,), answer),
        UndoView::Staged(said) => exists|change: RemoteChange|
            change@ == said && #[trigger] rollback_staged.ensures((&change,), answer),
    }
}

/// Rolls back finalized changes before still-staged changes while avoiding a
/// second rollback for a staged source already consumed by finalization.
pub fn rollback_changes<Finalized, Staged>(
    staged: &[RemoteChange],
    finalized: &[RemoteChange],
    rollback_finalized: Finalized,
    rollback_staged: Staged,
) -> (errors: Vec<AppError>)
    where
        Finalized: Fn(&RemoteChange) -> Result<(), AppError>,
        Staged: Fn(&RemoteChange) -> Result<(), AppError>,
    requires
        forall|change: &RemoteChange| #[trigger] rollback_finalized.requires((change,)),
        forall|change: &RemoteChange| #[trigger] rollback_staged.requires((change,)),
    ensures
        exists|record: Record| #[trigger]
            undoes(
                undo_order(change_views(staged@), change_views(finalized@)),
                rollback_finalized,
                rollback_staged,
                record.calls(),
                errors@,
            ),
{
    let order = undo_list(staged, finalized);
    let ghost views = undo_views(order@);
    let mut record = Record::new();
    let mut errors: Vec<AppError> = Vec::new();
    let ghost mut answers: Seq<Result<(), AppError>> = Seq::empty();
    let mut i: usize = 0;
    assert(record.calls() =~= undo_calls(views, answers));
    while i < order.len()
        invariant
            i <= order@.len(),
            views == undo_views(order@),
            answers.len() == i,
            record.calls() == undo_calls(views, answers),
            forall|change: &RemoteChange| #[trigger] rollback_finalized.requires((change,)),
            forall|change: &RemoteChange| #[trigger] rollback_staged.requires((change,)),
            forall|k: int|
                0 <= k < i ==> undone_by(
                    views[k],
                    rollback_finalized,
                    rollback_staged,
                    #[trigger] answers[k],
                ),
            errors@ == failures(answers),
        decreases order@.len() - i,
    {
        let ghost earlier = answers;
        assert(views[i as int] == order@[i as int]@);
        let result = match &order[i] {
            Undo::Finalized(change) => record.undo_finalized(&rollback_finalized, change),
            Undo::Staged(change) => record.undo_staged(&rollback_staged, change),
        };
        proof {
            answers = answers.push(result);
            assert(answers.drop_last() =~= earlier);
            assert(record.calls() =~= undo_calls(views, answers));
            assert(undone_by(views[i as int], rollback_finalized, rollback_staged, result));
            assert forall|k: int| 0 <= k < i + 1 implies undone_by(
                views[k],
                rollback_finalized,
                rollback_staged,
                #[trigger] answers[k],
            ) by {
                if k < i {
                    assert(answers[k] == earlier[k]);
                }
            }
        }
        if let Err(error) = result {
            errors.push(error);
        }
        i += 1;
    }
    assert(undoes(views, rollback_finalized, rollback_staged, record.calls(), errors@));
    errors
}

/// As a transaction leaves them, with finalized changes for the first of the
/// staged ones, all from different sources, every change is undone exactly
/// once: the finalized ones from the last to the first, and after them the
/// staged ones that remain, again from the last to the first.
pub proof fn every_change_is_undone_once(staged: Seq<ChangeView>, finalized: Seq<ChangeView>)
    requires
        finalized.len() <= staged.len(),
        forall|i: int|
            0 <= i < finalized.len() ==> (#[trigger] finalized[i]).source == staged[i].source,
        forall|i: int, j: int|
            0 <= i < j < staged.len() ==> (#[trigger] staged[i]).source != (
            #[trigger] staged[j]).source,
    ensures
        unfinalized(staged, finalized) == staged.skip(finalized.len() as int).reverse(),
{
    unfinalized_prefix(staged, finalized, staged.len() as int);
    assert(staged.take(staged.len() as int) =~= staged);
    assert(staged.subrange(finalized.len() as int, staged.len() as int) =~= staged.skip(
        finalized.len() as int,
    ));
}

proof fn unfinalized_prefix(staged: Seq<ChangeView>, finalized: Seq<ChangeView>, count: int)
    requires
        finalized.len() <= staged.len(),
        0 <= count <= staged.len(),
        forall|i: int|
            0 <= i < finalized.len() ==> (#[trigger] finalized[i]).source == staged[i].source,
        forall|i: int, j: int|
            0 <= i < j < staged.len() ==> (#[trigger] staged[i]).source != (
            #[trigger] staged[j]).source,
    ensures
        unfinalized(staged.take(count), finalized) == if count <= finalized.len() {
            Seq::empty()
        } else {
            staged.subrange(finalized.len() as int, count).reverse()
        },
    decreases count,
{
    if count > 0 {
        unfinalized_prefix(staged, finalized, count - 1);
        let prefix = staged.take(count);
        let last = staged[count - 1];
        assert(prefix.drop_last() =~= staged.take(count - 1));
        assert(prefix.last() == last);
        if count <= finalized.len() {
            assert(finalized[count - 1].source == last.source);
            assert(has_source(finalized, last.source));
        } else {
            assert(!has_source(finalized, last.source)) by {
                if has_source(finalized, last.source) {
                    let i = choose|i: int|
                        0 <= i < finalized.len() && (#[trigger] finalized[i]).source == last.source;
                    assert(staged[i].source == last.source);
                }
            }
            let grown = staged.subrange(finalized.len() as int, count).reverse();
            if count - 1 <= finalized.len() {
                assert(seq![last] + Seq::<ChangeView>::empty() =~= grown);
            } else {
                assert(seq![last] + staged.subrange(
                    finalized.len() as int,
                    count - 1,
                ).reverse() =~= grown);
            }
        }
    }
}

} // verus!
