//! Giving local files their planned names, and giving the old names back.
use vstd::prelude::*;

use crate::atomic_rename;
use crate::atomic_rename::DirectoryIdentity;
use crate::atomic_rename::FileIdentity;
use crate::atomic_rename::Platform;
use crate::atomic_rename::Rename;
use crate::atomic_rename::RenameIdentity;
use crate::atomic_rename::RenameStep;
use crate::error::AppError;
use crate::error::IoError;
use crate::error::IoErrorKind;
use crate::local_path;
use crate::local_path::Component;
use crate::local_path::ComponentView;
use crate::normalization_plan::Entry;
use crate::text;

verus! {

/// A local path that need not be valid text: its bytes, and the form in which
/// messages show it.
#[derive(Debug)]
pub struct LocalPath {
    pub bytes: Vec<u8>,
    pub shown: String,
}

/// What a [`LocalPath`] holds.
#[verifier::ext_equal]
pub struct LocalPathView {
    pub bytes: Seq<u8>,
    pub shown: Seq<char>,
}

impl View for LocalPath {
    type V = LocalPathView;

    open spec fn view(&self) -> LocalPathView {
        LocalPathView { bytes: self.bytes@, shown: self.shown@ }
    }
}

impl Clone for LocalPath {
    fn clone(&self) -> (copy: Self)
        ensures
            copy@ == self@,
    {
        let bytes = self.bytes.clone();
        assert(bytes@ =~= self.bytes@);
        LocalPath { bytes, shown: self.shown.clone() }
    }
}

/// The text of bytes that are its UTF-8 encoding.
pub open spec fn is_text_of(bytes: Seq<u8>, text: Seq<char>) -> bool {
    vstd::utf8::encode_utf8(text) == bytes
}

/// Converts a local path to the UTF-8 object name expected by the API.
pub fn path_string(path: &LocalPath) -> (text: Result<String, AppError>)
    ensures
        match text {
            Ok(text) => is_text_of(path.bytes@, text@),
            Err(error) => {
                &&& !vstd::utf8::valid_utf8(path.bytes@)
                &&& error matches AppError::Message(message)
                &&& message@ == "Path is not valid UTF-8: "@ + path.shown@
            },
        },
{
    match text::utf8_text(path.bytes.clone()) {
        Ok(text) => Ok(text),
        Err(_) => Err(
            AppError::Message(
                "Path is not valid UTF-8: ".to_string().concat(path.shown.as_str()),
            ),
        ),
    }
}

/// The directory that renames stay inside, and the identities that they expect.
#[derive(Debug)]
pub struct RenameContext {
    pub platform: Platform,
    pub root: String,
    pub expected_root: Option<DirectoryIdentity>,
    pub expected_files: Vec<(String, FileIdentity)>,
    pub expected_directories: Vec<(String, DirectoryIdentity)>,
}

/// The identity recorded for a path.
pub open spec fn file_at(files: Seq<(String, FileIdentity)>, path: Seq<char>) -> Option<FileIdentity>
    decreases files.len(),
{
    if files.len() == 0 {
        None
    } else if local_path::same(files[0].0@, path) {
        Some(files[0].1)
    } else {
        file_at(files.skip(1), path)
    }
}

fn find_file(files: &Vec<(String, FileIdentity)>, path: &str) -> (identity: Option<FileIdentity>)
    ensures
        identity == file_at(files@, path@),
{
    let mut i: usize = 0;
    assert(files@.skip(0) =~= files@);
    while i < files.len()
        invariant
            i <= files@.len(),
            file_at(files@, path@) == file_at(files@.skip(i as int), path@),
        decreases files@.len() - i,
    {
        if local_path::same_path(files[i].0.as_str(), path) {
            return Some(files[i].1);
        }
        assert(files@.skip(i as int).skip(1) =~= files@.skip(i + 1));
        i += 1;
    }
    None
}

/// The identity recorded for the directory that contains a path.
pub open spec fn directory_with(
    directories: Seq<(String, DirectoryIdentity)>,
    parent: Seq<ComponentView>,
) -> Option<DirectoryIdentity>
    decreases directories.len(),
{
    if directories.len() == 0 {
        None
    } else if local_path::components(directories[0].0@) == parent {
        Some(directories[0].1)
    } else {
        directory_with(directories.skip(1), parent)
    }
}

/// The identity expected of the directory that contains a path.
pub open spec fn parent_identity_of(
    directories: Seq<(String, DirectoryIdentity)>,
    path: Seq<char>,
) -> Option<DirectoryIdentity> {
    match local_path::parent_of(path) {
        Some(parent) => directory_with(directories, parent),
        None => None,
    }
}

fn find_directory(
    directories: &Vec<(String, DirectoryIdentity)>,
    parent: &Vec<Component>,
) -> (identity: Option<DirectoryIdentity>)
    ensures
        identity == directory_with(directories@, local_path::component_views(parent@)),
{
    let ghost wanted = local_path::component_views(parent@);
    let mut i: usize = 0;
    assert(directories@.skip(0) =~= directories@);
    while i < directories.len()
        invariant
            i <= directories@.len(),
            wanted == local_path::component_views(parent@),
            directory_with(directories@, wanted) == directory_with(
                directories@.skip(i as int),
                wanted,
            ),
        decreases directories@.len() - i,
    {
        let parts = local_path::path_components(directories[i].0.as_str());
        if parts.len() == parent.len() && local_path::starts_with(&parts, parent) {
            return Some(directories[i].1);
        }
        assert(local_path::components(directories@[i as int].0@) != wanted) by {
            if parts@.len() != parent@.len() {
                assert(local_path::component_views(parts@).len() != wanted.len());
            }
        }
        assert(directories@.skip(i as int).skip(1) =~= directories@.skip(i + 1));
        i += 1;
    }
    None
}

impl RenameContext {
    /// The identities expected by a rename, of a file that was recorded under
    /// some path. Forward and backward renames are checked alike, so that a
    /// replacement cannot be treated differently in either phase.
    pub open spec fn identity_of(
        self,
        source: Seq<char>,
        target: Seq<char>,
        recorded: Seq<char>,
    ) -> RenameIdentity {
        match self.expected_root {
            Some(root) => RenameIdentity {
                root: Some(root),
                file: file_at(self.expected_files@, recorded),
                source_parent: parent_identity_of(self.expected_directories@, source),
                target_parent: parent_identity_of(self.expected_directories@, target),
            },
            None => RenameIdentity { root: None, file: None, source_parent: None, target_parent: None },
        }
    }

    fn parent_identity(&self, path: &str) -> (identity: Option<DirectoryIdentity>)
        ensures
            identity == parent_identity_of(self.expected_directories@, path@),
    {
        match local_path::parent_components(path) {
            Some(parent) => find_directory(&self.expected_directories, &parent),
            None => None,
        }
    }

    /// The rename of a path inside the context.
    pub open spec fn renames(
        self,
        source: Seq<char>,
        target: Seq<char>,
        recorded: Seq<char>,
        step: RenameStep,
    ) -> bool {
        exists|rename: Rename|
            {
                &&& #[trigger] rename.starts(step)
                &&& rename.platform == self.platform
                &&& rename.root@ == self.root@
                &&& rename.source@ == source
                &&& rename.target@ == target
                &&& rename.identity == self.identity_of(source, target, recorded)
            }
    }

    fn rename_with_expected_file(&self, source: &str, target: &str, recorded: &str) -> (step:
        RenameStep)
        ensures
            self.renames(source@, target@, recorded@, step),
            step.wf(),
    {
        let identity = match self.expected_root {
            Some(root) => RenameIdentity {
                root: Some(root),
                file: find_file(&self.expected_files, recorded),
                source_parent: self.parent_identity(source),
                target_parent: self.parent_identity(target),
            },
            None => RenameIdentity::without_identity_checks(),
        };
        atomic_rename::rename_without_overwrite_with_identity(
            self.platform.clone(),
            self.root.as_str(),
            identity,
            source,
            target,
        )
    }
}

/// The renames of a plan, as far as they were made.
#[derive(Debug)]
pub struct Normalization {
    pub context: RenameContext,
    pub entries: Vec<Entry>,
    /// How many entries are done with.
    pub next: usize,
    /// The source and target of every rename that was made, in order.
    pub renamed: Vec<(String, String)>,
}

/// A rename of the plan is being made.
#[derive(Debug)]
pub struct AwaitingRename {
    pub run: Normalization,
}

/// A rename was made; whether to go on is being asked.
#[derive(Debug)]
pub struct AwaitingCheck {
    pub run: Normalization,
}

/// The old names are being given back, the last one first.
#[derive(Debug)]
pub struct Restoration {
    pub context: RenameContext,
    /// The source and target of every rename to undo, in order.
    pub records: Vec<(String, String)>,
    /// How many of them are left.
    pub left: usize,
    pub errors: Vec<AppError>,
    /// The failure that the restoration follows, if any.
    pub failure: Option<AppError>,
}

/// A rename is being undone.
#[derive(Debug)]
pub struct AwaitingRestore {
    pub run: Restoration,
}

/// What is to be done next. A rename is performed to its end, and its outcome
/// handed back.
#[derive(Debug)]
pub enum LocalStep {
    Rename(AwaitingRename, RenameStep),
    /// Find out whether the run was interrupted.
    CheckInterrupt(AwaitingCheck),
    RenameBack(AwaitingRestore, RenameStep),
    /// The plan was applied, with the source and target of every entry, or it
    /// failed and what was renamed has its old name back as far as possible.
    Applied(Result<Vec<(String, String)>, AppError>),
    /// The old names were given back, but for these failures.
    Restored(Vec<AppError>),
}

/// The sources and targets of the entries.
pub open spec fn pairs_of(entries: Seq<Entry>) -> Seq<(String, String)> {
    entries.map_values(|entry: Entry| (entry.source, entry.target))
}

pub(crate) fn entry_pairs(entries: &Vec<Entry>) -> (pairs: Vec<(String, String)>)
    ensures
        pairs@ == pairs_of(entries@),
{
    let mut pairs: Vec<(String, String)> = Vec::new();
    let mut i: usize = 0;
    while i < entries.len()
        invariant
            i <= entries@.len(),
            pairs@ == pairs_of(entries@).take(i as int),
        decreases entries@.len() - i,
    {
        pairs.push((entries[i].source.clone(), entries[i].target.clone()));
        assert(pairs@ =~= pairs_of(entries@).take(i + 1));
        i += 1;
    }
    assert(pairs_of(entries@).take(entries@.len() as int) =~= pairs_of(entries@));
    pairs
}

impl Normalization {
    pub open spec fn wf(self) -> bool {
        self.next <= self.entries@.len()
    }

    pub open spec fn at(self, next: int) -> Normalization {
        Normalization { next: next as usize, ..self }
    }

    /// Goes on with the next entry that changes a name, or ends.
    pub open spec fn advances(self, step: LocalStep) -> bool
        decreases self.entries.len() - self.next,
    {
        if self.next >= self.entries.len() {
            step matches LocalStep::Applied(Ok(pairs)) && pairs@ == pairs_of(self.entries@)
        } else {
            let entry = self.entries@[self.next as int];
            if local_path::same(entry.source@, entry.target@) {
                self.at(self.next + 1).advances(step)
            } else {
                &&& step matches LocalStep::Rename(awaiting, rename)
                &&& awaiting.run == self
                &&& self.context.renames(
                    entry.source@,
                    entry.target@,
                    entry.source@,
                    rename,
                )
            }
        }
    }

    fn advance(self) -> (step: LocalStep)
        requires
            self.wf(),
        ensures
            self.advances(step),
            step.wf(),
        decreases self.entries@.len() - self.next,
    {
        if self.next == self.entries.len() {
            return LocalStep::Applied(Ok(entry_pairs(&self.entries)));
        }
        let entry = self.entries[self.next].clone();
        if local_path::same_path(entry.source.as_str(), entry.target.as_str()) {
            let next: usize = self.next + 1;
            Normalization { next, ..self }.advance()
        } else {
            let rename = self.context.rename_with_expected_file(
                entry.source.as_str(),
                entry.target.as_str(),
                entry.source.as_str(),
            );
            LocalStep::Rename(AwaitingRename { run: self }, rename)
        }
    }

    /// Gives up: everything that was renamed is renamed back.
    pub open spec fn gives_up(self, failure: AppError, step: LocalStep) -> bool {
        exists|restoration: Restoration|
            {
                &&& #[trigger] restoration.proceeds(step)
                &&& restoration.context == self.context
                &&& restoration.records == self.renamed
                &&& restoration.left == self.renamed@.len()
                &&& restoration.errors@.len() == 0
                &&& restoration.failure == Some(failure)
            }
    }

    fn give_up(self, failure: AppError) -> (step: LocalStep)
        ensures
            self.gives_up(failure, step),
            step.wf(),
    {
        let left: usize = self.renamed.len();
        let restoration = Restoration {
            context: self.context,
            records: self.renamed,
            left,
            errors: Vec::new(),
            failure: Some(failure),
        };
        let step = restoration.proceed();
        assert(restoration.proceeds(step));
        step
    }
}

impl LocalStep {
    /// No run is further than its entries go.
    pub open spec fn wf(self) -> bool {
        match self {
            LocalStep::Rename(awaiting, rename) => awaiting.wf() && rename.wf(),
            LocalStep::CheckInterrupt(awaiting) => awaiting.run.wf(),
            LocalStep::RenameBack(awaiting, rename) => awaiting.wf() && rename.wf(),
            _ => true,
        }
    }
}

impl AwaitingRename {
    pub open spec fn wf(self) -> bool {
        self.run.next < self.run.entries@.len()
    }

    /// How to go on once a rename is over. A rename that was made is recorded
    /// even where it failed afterwards, so that it is undone.
    pub open spec fn continues(
        self,
        renamed: bool,
        result: Result<(), AppError>,
        step: LocalStep,
    ) -> bool {
        exists|run: Normalization|
            {
                &&& #[trigger] self.records(renamed, run)
                &&& match result {
                    Ok(_) => step == LocalStep::CheckInterrupt(AwaitingCheck { run }),
                    Err(failure) => run.gives_up(failure, step),
                }
            }
    }

    /// The run after a rename.
    pub open spec fn records(self, renamed: bool, run: Normalization) -> bool {
        let entry = self.run.entries@[self.run.next as int];
        &&& run.context == self.run.context
        &&& run.entries == self.run.entries
        &&& run.next == self.run.next + 1
        &&& run.renamed@ == if renamed {
            self.run.renamed@.push((entry.source, entry.target))
        } else {
            self.run.renamed@
        }
    }

    /// Goes on once a rename is over.
    pub fn resume(self, renamed: bool, result: Result<(), AppError>) -> (step: LocalStep)
        requires
            self.wf(),
        ensures
            self.continues(renamed, result, step),
            step.wf(),
    {
        let Normalization { context, entries, next, renamed: records } = self.run;
        let mut records = records;
        assert(next < entries.len());
        if renamed {
            records.push((entries[next].source.clone(), entries[next].target.clone()));
        }
        let run = Normalization { context, entries, next: next + 1, renamed: records };
        assert(self.records(renamed, run));
        match result {
            Ok(()) => LocalStep::CheckInterrupt(AwaitingCheck { run }),
            Err(failure) => run.give_up(failure),
        }
    }
}

impl AwaitingCheck {
    /// Goes on once it is known whether the run was interrupted.
    pub fn resume(self, interrupted: bool) -> (step: LocalStep)
        requires
            self.run.wf(),
        ensures
            if interrupted {
                self.run.gives_up(AppError::Interrupted, step)
            } else {
                self.run.advances(step)
            },
            step.wf(),
    {
        if interrupted {
            self.run.give_up(AppError::Interrupted)
        } else {
            self.run.advance()
        }
    }
}

/// Applies the planned local renames without overwriting a target.
///
/// On failure, already completed renames are rolled back in reverse order.
pub fn apply_normalization(platform: Platform, root: &str, entries: Vec<Entry>) -> (step: LocalStep)
    ensures
        exists|run: Normalization|
            {
                &&& #[trigger] run.advances(step)
                &&& run.entries == entries
                &&& run.next == 0
                &&& run.renamed@.len() == 0
                &&& run.context.platform == platform
                &&& run.context.root@ == root@
                &&& run.context.expected_root is None
            },
        step.wf(),
{
    let context = RenameContext {
        platform,
        root: root.to_string(),
        expected_root: None,
        expected_files: Vec::new(),
        expected_directories: Vec::new(),
    };
    let ghost kept = context;
    let step = apply_normalization_with_path_identities(context, entries);
    let ghost run = choose|run: Normalization|
        {
            &&& #[trigger] run.advances(step)
            &&& run.context == kept
            &&& run.entries == entries
            &&& run.next == 0
            &&& run.renamed@.len() == 0
        };
    assert(run.advances(step) && run.context.expected_root is None);
    step
}

/// Applies the planned local renames, provided the directories and files are
/// those that the context expects.
pub fn apply_normalization_with_path_identities(context: RenameContext, entries: Vec<Entry>) -> (step:
    LocalStep)
    ensures
        exists|run: Normalization|
            {
                &&& #[trigger] run.advances(step)
                &&& run.context == context
                &&& run.entries == entries
                &&& run.next == 0
                &&& run.renamed@.len() == 0
            },
        step.wf(),
{
    let run = Normalization { context, entries, next: 0, renamed: Vec::new() };
    let step = run.advance();
    assert(run.advances(step));
    step
}

/// The failure to give an old name back, told apart where both names are taken
/// and where neither is.
pub open spec fn restore_failure(error: AppError, told: AppError) -> bool {
    match error {
        AppError::Io(cause) => if cause.kind == IoErrorKind::AlreadyExists {
            told matches AppError::Io(io) && io.kind == IoErrorKind::AlreadyExists && io.message@
                == "source and target both exist"@
        } else if cause.kind == IoErrorKind::NotFound {
            told matches AppError::Io(io) && io.kind == IoErrorKind::NotFound && io.message@
                == "target does not exist"@
        } else {
            told == error
        },
        _ => told == error,
    }
}

fn tell_restore_failure(error: AppError) -> (told: AppError)
    ensures
        restore_failure(error, told),
{
    match error {
        AppError::Io(cause) => {
            if cause.kind == IoErrorKind::AlreadyExists {
                AppError::Io(
                    IoError::new(IoErrorKind::AlreadyExists, "source and target both exist"),
                )
            } else if cause.kind == IoErrorKind::NotFound {
                AppError::Io(IoError::new(IoErrorKind::NotFound, "target does not exist"))
            } else {
                AppError::Io(cause)
            }
        },
        other => other,
    }
}

impl Restoration {
    pub open spec fn wf(self) -> bool {
        self.left <= self.records@.len()
    }

    pub open spec fn at(self, left: int) -> Restoration {
        Restoration { left: left as usize, ..self }
    }

    /// Undoes the last of the renames that are left, or ends. Reverse order
    /// restores chained renames without making an earlier source name collide
    /// with a later rename that has not been undone yet.
    pub open spec fn proceeds(self, step: LocalStep) -> bool
        decreases self.left,
    {
        if self.left == 0 {
            match self.failure {
                Some(failure) => step matches LocalStep::Applied(Err(error)) && error.rollback_of(
                    failure,
                    self.errors@,
                ),
                None => step matches LocalStep::Restored(errors) && errors@ == self.errors@,
            }
        } else {
            let (source, target) = self.records@[self.left - 1];
            if local_path::same(source@, target@) {
                self.at(self.left - 1).proceeds(step)
            } else {
                &&& step matches LocalStep::RenameBack(awaiting, rename)
                &&& awaiting.run == self
                &&& self.context.renames(target@, source@, source@, rename)
            }
        }
    }

    fn proceed(self) -> (step: LocalStep)
        requires
            self.wf(),
        ensures
            self.proceeds(step),
            step.wf(),
        decreases self.left,
    {
        if self.left == 0 {
            return match self.failure {
                Some(failure) => LocalStep::Applied(
                    Err(AppError::rollback(failure, self.errors)),
                ),
                None => LocalStep::Restored(self.errors),
            };
        }
        let left: usize = self.left - 1;
        if local_path::same_path(self.records[left].0.as_str(), self.records[left].1.as_str()) {
            Restoration { left, ..self }.proceed()
        } else {
            let rename = self.context.rename_with_expected_file(
                self.records[left].1.as_str(),
                self.records[left].0.as_str(),
                self.records[left].0.as_str(),
            );
            LocalStep::RenameBack(AwaitingRestore { run: self }, rename)
        }
    }
}

impl AwaitingRestore {
    pub open spec fn wf(self) -> bool {
        0 < self.run.left <= self.run.records@.len()
    }

    /// The restoration after one more rename was undone, or not: a failure is
    /// recorded and stops nothing.
    pub open spec fn records(self, result: Result<(), AppError>, run: Restoration) -> bool {
        &&& run.context == self.run.context
        &&& run.records == self.run.records
        &&& run.left == self.run.left - 1
        &&& run.failure == self.run.failure
        &&& match result {
            Ok(_) => run.errors@ == self.run.errors@,
            Err(error) => {
                &&& run.errors@.len() == self.run.errors@.len() + 1
                &&& run.errors@.drop_last() == self.run.errors@
                &&& restore_failure(error, run.errors@.last())
            },
        }
    }

    /// Goes on once a rename was undone, or not.
    pub fn resume(self, result: Result<(), AppError>) -> (step: LocalStep)
        requires
            self.wf(),
        ensures
            exists|run: Restoration| #[trigger] self.records(result, run) && run.proceeds(step),
            step.wf(),
    {
        let Restoration { context, records, left, errors, failure } = self.run;
        let mut errors = errors;
        let ghost before = errors@;
        if let Err(error) = result {
            errors.push(tell_restore_failure(error));
            assert(errors@.drop_last() =~= before);
        }
        let run = Restoration { context, records, left: left - 1, errors, failure };
        assert(self.records(result, run));
        run.proceed()
    }
}

/// Attempts to restore each `(source, target)` pair produced by normalization.
pub fn rollback_normalization(platform: Platform, root: &str, entries: Vec<(String, String)>) -> (step:
    LocalStep)
    ensures
        exists|run: Restoration|
            {
                &&& #[trigger] run.proceeds(step)
                &&& run.records == entries
                &&& run.left == entries@.len()
                &&& run.errors@.len() == 0
                &&& run.failure is None
                &&& run.context.platform == platform
                &&& run.context.root@ == root@
                &&& run.context.expected_root is None
            },
        step.wf(),
{
    let context = RenameContext {
        platform,
        root: root.to_string(),
        expected_root: None,
        expected_files: Vec::new(),
        expected_directories: Vec::new(),
    };
    let ghost kept = context;
    let step = rollback_normalization_with_path_identities(context, entries);
    let ghost run = choose|run: Restoration|
        {
            &&& #[trigger] run.proceeds(step)
            &&& run.context == kept
            &&& run.records == entries
            &&& run.left == entries@.len()
            &&& run.errors@.len() == 0
            &&& run.failure is None
        };
    assert(run.proceeds(step) && run.context.expected_root is None);
    step
}

/// Attempts to restore each pair, provided the directories and files are those
/// that the context expects.
pub fn rollback_normalization_with_path_identities(
    context: RenameContext,
    entries: Vec<(String, String)>,
) -> (step: LocalStep)
    ensures
        exists|run: Restoration|
            {
                &&& #[trigger] run.proceeds(step)
                &&& run.context == context
                &&& run.records == entries
                &&& run.left == entries@.len()
                &&& run.errors@.len() == 0
                &&& run.failure is None
            },
        step.wf(),
{
    let left: usize = entries.len();
    let run = Restoration { context, records: entries, left, errors: Vec::new(), failure: None };
    let step = run.proceed();
    assert(run.proceeds(step));
    step
}

} // verus!
