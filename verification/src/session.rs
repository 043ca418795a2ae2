//! Asking the storage and the interrupt flag, one call after another.
//!
//! A [`Session`] is the only way to a storage that the workflows take. It keeps a
//! ghost record of what was asked and what was answered, in order, which nothing
//! outside this module can write. So a contract that speaks of a session's calls
//! speaks of calls that were made, in that order.
use vstd::prelude::*;

use crate::error::AppError;
use crate::interrupt::InterruptFlag;
use crate::object_path::ObjectPath;
use crate::object_path::ObjectPathView;
use crate::storage;
use crate::storage::StorageClient;
use crate::text;
use crate::upload_source::UploadSourceIdentity;

verus! {

/// What is asked in one call.
pub enum Asked {
    /// Whether the interrupt flag is raised.
    Look,
    /// To lower the interrupt flag.
    Clear,
    /// To show a line.
    Report(Seq<char>),
    /// For the names in a bucket.
    List(Seq<char>),
    /// To move an object.
    Move {
        source: ObjectPathView,
        target: ObjectPathView,
        expected_source_generation: Option<Seq<char>>,
    },
    /// To upload a file.
    Upload { file: Seq<char>, target: ObjectPathView, identity: Option<UploadSourceIdentity> },
    /// Whether a failed move left both objects as they were.
    ConfirmMove { source: ObjectPathView, target: ObjectPathView, failure: AppError },
    /// Whether a failed write left no object behind.
    ConfirmWrite { target: ObjectPathView, failure: AppError },
    /// To move an object back.
    RollBack { source: ObjectPathView, target: ObjectPathView, generation: Seq<char> },
    /// To remove an object.
    CleanUp { target: ObjectPathView, generation: Seq<char> },
}

/// What is answered to one call.
pub enum Told {
    Nothing,
    Flag(bool),
    Names(Result<Seq<Seq<char>>, AppError>),
    Generation(Result<Seq<char>, AppError>),
    Outcome(Result<(), AppError>),
}

/// One call: what was asked, and what was answered.
pub struct Call {
    pub asked: Asked,
    pub told: Told,
}

/// What a step of a workflow is answered.
pub enum Answer {
    Nothing,
    Flag(bool),
    Generation(Result<String, AppError>),
    Outcome(Result<(), AppError>),
}

impl View for Answer {
    type V = Told;

    open spec fn view(&self) -> Told {
        match *self {
            Answer::Nothing => Told::Nothing,
            Answer::Flag(raised) => Told::Flag(raised),
            Answer::Generation(answer) => Told::Generation(storage::generation_in(answer)),
            Answer::Outcome(answer) => Told::Outcome(answer),
        }
    }
}

impl Asked {
    /// The answer is of the kind that the question asks for.
    pub open spec fn fits(self, told: Told) -> bool {
        match self {
            Asked::Look | Asked::Clear => told is Flag,
            Asked::Report(_) => told is Nothing,
            Asked::List(_) => told is Names,
            Asked::Move { .. } | Asked::Upload { .. } | Asked::RollBack { .. } => told is Generation,
            Asked::ConfirmMove { .. } | Asked::ConfirmWrite { .. } | Asked::CleanUp { .. } =>
                told is Outcome,
        }
    }
}

impl Call {
    /// The storage or the flag may give the answer.
    pub open spec fn answered<S: StorageClient>(
        self,
        storage: S,
        interrupt: Option<InterruptFlag>,
    ) -> bool {
        match (self.asked, self.told) {
            (Asked::Look, Told::Flag(raised)) => interrupt is Some && (interrupt->0).shows(raised),
            (Asked::Clear, Told::Flag(raised)) => interrupt is Some && (interrupt->0).lowers(
                raised,
            ),
            (Asked::Report(_), Told::Nothing) => true,
            (Asked::List(bucket), Told::Names(answer)) => storage.lists(bucket, answer),
            (
                Asked::Move { source, target, expected_source_generation },
                Told::Generation(answer),
            ) => storage.moves(source, target, expected_source_generation, answer),
            (Asked::Upload { file, target, identity }, Told::Generation(answer)) => storage.uploads(
                file,
                target,
                identity,
                answer,
            ),
            (Asked::ConfirmMove { source, target, failure }, Told::Outcome(answer)) =>
                storage.confirms_move(source, target, failure, answer),
            (Asked::ConfirmWrite { target, failure }, Told::Outcome(answer)) =>
                storage.confirms_write(target, failure, answer),
            (Asked::RollBack { source, target, generation }, Told::Generation(answer)) =>
                storage.rolls_back(source, target, generation, answer),
            (Asked::CleanUp { target, generation }, Told::Outcome(answer)) => storage.cleans_up(
                target,
                generation,
                answer,
            ),
            _ => false,
        }
    }
}

/// A storage in use, and an interrupt flag where the work can be interrupted.
pub struct Session<'a, S: StorageClient> {
    storage: &'a S,
    interrupt: Option<&'a InterruptFlag>,
    held: Ghost<Option<Seq<Seq<char>>>>,
    calls: Ghost<Seq<Call>>,
}

impl<'a, S: StorageClient> Session<'a, S> {
    pub closed spec fn storage(self) -> S {
        *self.storage
    }

    pub closed spec fn interrupt(self) -> Option<InterruptFlag> {
        match self.interrupt {
            Some(interrupt) => Some(*interrupt),
            None => None,
        }
    }

    /// The buckets whose locks this session runs under, where it was begun under
    /// locks.
    pub closed spec fn held(self) -> Option<Seq<Seq<char>>> {
        self.held@
    }

    /// The calls that were made, in order.
    pub closed spec fn calls(self) -> Seq<Call> {
        self.calls@
    }

    /// Every call was answered by the storage or by the flag.
    pub open spec fn wf(self) -> bool {
        forall|i: int|
            0 <= i < self.calls().len() ==> (#[trigger] self.calls()[i]).answered(
                self.storage(),
                self.interrupt(),
            )
    }

    /// The session is one of the storage and the flag, under the locks.
    pub open spec fn belongs(
        self,
        storage: S,
        interrupt: Option<InterruptFlag>,
        held: Option<Seq<Seq<char>>>,
    ) -> bool {
        &&& self.storage() == storage
        &&& self.interrupt() == interrupt
        &&& self.held() == held
        &&& self.wf()
    }

    /// One more call was made.
    pub open spec fn called(self, asked: Asked, told: Told, after: Self) -> bool {
        &&& after.belongs(self.storage(), self.interrupt(), self.held())
        &&& after.calls() == self.calls().push(Call { asked, told })
    }

    /// A session under no locks.
    pub fn new(storage: &'a S, interrupt: &'a InterruptFlag) -> (session: Self)
        ensures
            session.belongs(*storage, Some(*interrupt), None),
            session.calls().len() == 0,
    {
        Session {
            storage,
            interrupt: Some(interrupt),
            held: Ghost(None),
            calls: Ghost(Seq::empty()),
        }
    }

    /// A session under no locks that is never interrupted.
    pub fn uninterrupted(storage: &'a S) -> (session: Self)
        ensures
            session.belongs(*storage, None, None),
            session.calls().len() == 0,
    {
        Session { storage, interrupt: None, held: Ghost(None), calls: Ghost(Seq::empty()) }
    }

    fn note(&mut self, Ghost(call): Ghost<Call>)
        requires
            old(self).wf(),
            call.answered(old(self).storage(), old(self).interrupt()),
        ensures
            old(self).called(call.asked, call.told, *final(self)),
    {
        self.calls = Ghost(self.calls@.push(call));
        proof {
            let before = *old(self);
            assert forall|i: int| 0 <= i < self.calls().len() implies (
            #[trigger] self.calls()[i]).answered(self.storage(), self.interrupt()) by {
                if i < before.calls().len() {
                    assert(self.calls()[i] == before.calls()[i]);
                }
            }
        }
    }

    pub fn look(&mut self) -> (raised: bool)
        requires
            old(self).wf(),
            old(self).interrupt() is Some,
        ensures
            old(self).called(Asked::Look, Told::Flag(raised), *final(self)),
    {
        let raised = match self.interrupt {
            Some(interrupt) => interrupt.is_interrupted(),
            None => false,
        };
        self.note(Ghost(Call { asked: Asked::Look, told: Told::Flag(raised) }));
        raised
    }

    pub fn clear(&mut self) -> (raised: bool)
        requires
            old(self).wf(),
            old(self).interrupt() is Some,
        ensures
            old(self).called(Asked::Clear, Told::Flag(raised), *final(self)),
    {
        let raised = match self.interrupt {
            Some(interrupt) => interrupt.clear_for_rollback(),
            None => false,
        };
        self.note(Ghost(Call { asked: Asked::Clear, told: Told::Flag(raised) }));
        raised
    }

    pub fn report<R: Fn(&str)>(&mut self, report: &R, line: &str)
        requires
            old(self).wf(),
            report.requires((line,)),
        ensures
            old(self).called(Asked::Report(line@), Told::Nothing, *final(self)),
            report.ensures((line,), ()),
    {
        report(line);
        self.note(Ghost(Call { asked: Asked::Report(line@), told: Told::Nothing }));
    }

    pub fn list_objects(&mut self, bucket: &str) -> (names: Result<Vec<String>, AppError>)
        requires
            old(self).wf(),
        ensures
            old(self).called(
                Asked::List(bucket@),
                Told::Names(storage::names_in(names)),
                *final(self),
            ),
    {
        let names = self.storage.list_objects(bucket);
        self.note(Ghost(Call { asked: Asked::List(bucket@), told: Told::Names(storage::names_in(names)) }));
        names
    }

    pub fn move_object(
        &mut self,
        source: &ObjectPath,
        target: &ObjectPath,
        expected_source_generation: Option<&str>,
    ) -> (generation: Result<String, AppError>)
        requires
            old(self).wf(),
        ensures
            old(self).called(
                Asked::Move {
                    source: source@,
                    target: target@,
                    expected_source_generation: storage::optional(expected_source_generation),
                },
                Told::Generation(storage::generation_in(generation)),
                *final(self),
            ),
    {
        let generation = self.storage.move_object(source, target, expected_source_generation);
        self.note(Ghost(Call {
                asked: Asked::Move {
                    source: source@,
                    target: target@,
                    expected_source_generation: storage::optional(expected_source_generation),
                },
                told: Told::Generation(storage::generation_in(generation)),
            }));
        generation
    }

    pub fn upload_file(
        &mut self,
        file: &str,
        target: &ObjectPath,
        identity: Option<UploadSourceIdentity>,
    ) -> (generation: Result<String, AppError>)
        requires
            old(self).wf(),
        ensures
            old(self).called(
                Asked::Upload { file: file@, target: target@, identity },
                Told::Generation(storage::generation_in(generation)),
                *final(self),
            ),
    {
        let generation = self.storage.upload_file_with_identity(file, target, identity);
        self.note(Ghost(Call {
                asked: Asked::Upload { file: file@, target: target@, identity },
                told: Told::Generation(storage::generation_in(generation)),
            }));
        generation
    }

    pub fn confirm_move(&mut self, source: &ObjectPath, target: &ObjectPath, failure: &AppError) -> (
    confirmed: Result<(), AppError>)
        requires
            old(self).wf(),
        ensures
            old(self).called(
                Asked::ConfirmMove { source: source@, target: target@, failure: *failure },
                Told::Outcome(confirmed),
                *final(self),
            ),
    {
        let confirmed = self.storage.confirm_move_after_failure(source, target, failure);
        self.note(Ghost(Call {
                asked: Asked::ConfirmMove {
                    source: source@,
                    target: target@,
                    failure: *failure,
                },
                told: Told::Outcome(confirmed),
            }));
        confirmed
    }

    pub fn confirm_write(&mut self, target: &ObjectPath, failure: &AppError) -> (confirmed: Result<
        (),
        AppError,
    >)
        requires
            old(self).wf(),
        ensures
            old(self).called(
                Asked::ConfirmWrite { target: target@, failure: *failure },
                Told::Outcome(confirmed),
                *final(self),
            ),
    {
        let confirmed = self.storage.confirm_write_after_failure(target, failure);
        self.note(Ghost(Call {
                asked: Asked::ConfirmWrite { target: target@, failure: *failure },
                told: Told::Outcome(confirmed),
            }));
        confirmed
    }

    pub fn rollback_object(&mut self, source: &ObjectPath, target: &ObjectPath, generation: &str) -> (
    restored: Result<String, AppError>)
        requires
            old(self).wf(),
        ensures
            old(self).called(
                Asked::RollBack { source: source@, target: target@, generation: generation@ },
                Told::Generation(storage::generation_in(restored)),
                *final(self),
            ),
    {
        let restored = self.storage.rollback_object(source, target, generation);
        self.note(Ghost(Call {
                asked: Asked::RollBack {
                    source: source@,
                    target: target@,
                    generation: generation@,
                },
                told: Told::Generation(storage::generation_in(restored)),
            }));
        restored
    }

    pub fn cleanup_object(&mut self, target: &ObjectPath, generation: &str) -> (removed: Result<
        (),
        AppError,
    >)
        requires
            old(self).wf(),
        ensures
            old(self).called(
                Asked::CleanUp { target: target@, generation: generation@ },
                Told::Outcome(removed),
                *final(self),
            ),
    {
        let removed = self.storage.cleanup_object(target, generation);
        self.note(Ghost(Call {
                asked: Asked::CleanUp { target: target@, generation: generation@ },
                told: Told::Outcome(removed),
            }));
        removed
    }
}

/// The result of work done in a session under the locks of the buckets: where the
/// locks let it run at all, the work began in a session under them that had made
/// no call.
pub open spec fn ran_locked<'a, S: StorageClient + 'a, T, F: FnOnce(Session<'a, S>) -> Result<T, AppError>>(
    storage: S,
    interrupt: InterruptFlag,
    buckets: Seq<Seq<char>>,
    work: F,
    result: Result<T, AppError>,
) -> bool {
    exists|ran: Option<Result<T, AppError>>|
        {
            &&& #[trigger] storage.locks(
                buckets,
                storage::outcome_if_run(ran),
                storage::outcome(result),
            )
            &&& ran matches Some(value) ==> exists|begun: Session<'a, S>|
                {
                    &&& begun.belongs(storage, Some(interrupt), Some(buckets))
                    &&& begun.calls().len() == 0
                    &&& #[trigger] work.ensures((begun,), value)
                }
            &&& result is Ok ==> ran == Some(result)
        }
}

/// Does the work in a session that begins once the buckets are locked, and ends
/// before they are released.
pub fn locked<'a, S: StorageClient, T, F>(
    storage: &'a S,
    interrupt: &'a InterruptFlag,
    buckets: &[&str],
    work: F,
) -> (result: Result<T, AppError>)
    where F: FnOnce(Session<'a, S>) -> Result<T, AppError>
    requires
        forall|begun: Session<'a, S>|
            begun.belongs(*storage, Some(*interrupt), Some(text::slice_views(buckets@)))
                && begun.calls().len() == 0 ==> #[trigger] work.requires((begun,)),
    ensures
        ran_locked(*storage, *interrupt, text::slice_views(buckets@), work, result),
{
    let ghost names = text::slice_views(buckets@);
    let operation = || -> (value: Result<T, AppError>)
        requires
            forall|begun: Session<'a, S>|
                begun.belongs(*storage, Some(*interrupt), Some(names)) && begun.calls().len() == 0
                    ==> #[trigger] work.requires((begun,)),
        ensures
            exists|begun: Session<'a, S>|
                {
                    &&& begun.belongs(*storage, Some(*interrupt), Some(names))
                    &&& begun.calls().len() == 0
                    &&& #[trigger] work.ensures((begun,), value)
                },
        {
            let session = Session {
                storage,
                interrupt: Some(interrupt),
                held: Ghost(Some(names)),
                calls: Ghost(Seq::empty()),
            };
            work(session)
        };
    storage.with_bucket_locks(buckets, operation)
}

} // verus!
