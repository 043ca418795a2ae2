//! Opening the file that is uploaded.
//!
//! The root directory is kept open and every component is resolved relative to
//! the directory reached so far, without following links, so that a path
//! replacement cannot redirect the upload elsewhere. Every step here is decided
//! from the results of earlier steps.
use vstd::prelude::*;

use crate::atomic_rename;
use crate::atomic_rename::DirectoryIdentity;
use crate::atomic_rename::FileIdentity;
use crate::atomic_rename::Platform;
use crate::error::AppError;
use crate::error::IoError;
use crate::error::IoErrorKind;
use crate::local_path;
use crate::local_path::Component;
use crate::text;

verus! {

/// Filesystem identities captured during discovery and checked again at upload.
#[derive(Clone, Copy, Debug, PartialEq, Eq, Structural)]
pub struct UploadSourceIdentity {
    pub file: FileIdentity,
    pub directory: DirectoryIdentity,
}

/// Every local rejection is an upload source failure, so callers can tell it
/// apart from a failure that may already have reached Cloud Storage.
pub open spec fn rejects(error: AppError, complaint: Seq<char>) -> bool {
    &&& error matches AppError::UploadSource(rejection)
    &&& rejection.kind == IoErrorKind::InvalidInput
    &&& rejection.message@ == complaint
}

fn rejected_source(complaint: String) -> (error: AppError)
    ensures
        rejects(error, complaint@),
{
    AppError::UploadSource(IoError { kind: IoErrorKind::InvalidInput, message: complaint })
}

/// The way from the upload root to the file, and how far it was gone.
#[derive(Debug)]
pub struct Walk {
    /// The path below the root, as complaints show it.
    pub shown: String,
    pub parts: Vec<Component>,
    /// How many components were passed.
    pub passed: usize,
    pub expected: Option<UploadSourceIdentity>,
}

/// Something was to be opened; whether it was decides how to go on.
#[derive(Debug)]
pub enum AwaitingOpen {
    /// The root directory.
    Root { root: String, expected_root: Option<DirectoryIdentity>, walk: Walk },
    /// A directory on the way.
    Directory { walk: Walk },
    /// The file at the end of the way.
    File { walk: Walk },
    /// A file that is not below an upload root.
    Path { source: String, expected: Option<UploadSourceIdentity> },
}

/// A directory was to be identified.
#[allow(inconsistent_fields)]
#[derive(Debug)]
pub enum AwaitingDirectory {
    Root { root: String, expected: DirectoryIdentity, walk: Walk },
    /// The directory that was reached, which should hold the file of this name.
    Last { walk: Walk, name: String, expected: UploadSourceIdentity },
    /// The directory of a file that is not below an upload root.
    Parent { source: String, expected: UploadSourceIdentity },
}

/// Whether the opened file is a regular file was to be found out.
#[derive(Debug)]
pub struct AwaitingKind {
    /// The path that complaints show.
    pub shown: String,
    pub then_check: KindCheck,
}

/// What is checked of a regular file.
#[derive(Debug)]
pub enum KindCheck {
    Nothing,
    /// Its own identity; its directory was checked.
    File(UploadSourceIdentity),
    /// Its directory's identity and its own.
    DirectoryAndFile(UploadSourceIdentity),
}

/// The opened file was to be identified.
#[derive(Debug)]
pub struct AwaitingFile {
    pub shown: String,
    pub expected: UploadSourceIdentity,
}

/// What is to be done next. Nothing is ever opened through a link.
#[derive(Debug)]
pub enum SourceStep {
    /// Open the directory at this path.
    OpenRoot(AwaitingOpen, String),
    /// Open the directory of this name in the directory reached so far.
    OpenDirectory(AwaitingOpen, String),
    /// Open the file of this name in the directory reached so far, without
    /// waiting for a writer.
    OpenFile(AwaitingOpen, String),
    /// Open the file at this path, without waiting for a writer.
    OpenPath(AwaitingOpen, String),
    /// Identify the directory that was reached.
    IdentifyDirectory(AwaitingDirectory),
    /// Identify the directory at this path.
    IdentifyDirectoryAt(AwaitingDirectory, String),
    /// Find out whether the opened file is a regular file.
    CheckRegular(AwaitingKind),
    /// Identify the opened file.
    IdentifyFile(AwaitingFile),
    /// The opened file may be uploaded, or the failure is reported.
    Done(Result<(), AppError>),
}

/// The opening ends with a complaint.
pub open spec fn refuses(step: SourceStep, complaint: Seq<char>) -> bool {
    step matches SourceStep::Done(Err(error)) && rejects(error, complaint)
}

fn refuse(complaint: String) -> (step: SourceStep)
    ensures
        refuses(step, complaint@),
{
    SourceStep::Done(Err(rejected_source(complaint)))
}

/// A complaint about a path.
pub open spec fn about(words: Seq<char>, path: Seq<char>) -> Seq<char> {
    words + text::quoted_path(path)
}

fn about_text(words: &str, path: &str) -> (complaint: String)
    ensures
        complaint@ == about(words@, path@),
{
    words.to_string().concat(text::quote_path(path).as_str())
}

/// The opening ends with a failed local operation.
pub open spec fn fails(step: SourceStep, error: IoError) -> bool {
    step == SourceStep::Done(Err(AppError::UploadSource(error)))
}

fn fail(error: IoError) -> (step: SourceStep)
    ensures
        fails(step, error),
{
    SourceStep::Done(Err(AppError::UploadSource(error)))
}

/// How an upload source is opened: below the upload root where there is one.
/// Identities can only be checked where the platform has them.
pub open spec fn opens(
    platform: Platform,
    root: Option<Seq<char>>,
    source: Seq<char>,
    expected_root: Option<DirectoryIdentity>,
    expected_source: Option<UploadSourceIdentity>,
    step: SourceStep,
) -> bool {
    if platform is Unsupported && (expected_root is Some || expected_source is Some) {
        step == SourceStep::Done(
            Err(AppError::UnsupportedPlatform(platform->Unsupported_0)),
        )
    } else {
        match root {
            None => {
                &&& step matches SourceStep::OpenPath(awaiting, path)
                &&& path@ == source
                &&& awaiting matches AwaitingOpen::Path { source: kept, expected }
                &&& kept@ == source
                &&& expected == expected_source
            },
            Some(root) => match local_path::below(root, source) {
                None => refuses(
                    step,
                    "outside "@ + text::quoted_path(root) + ": "@ + text::quoted_path(source),
                ),
                Some(parts) => if atomic_rename::has_nul(root) {
                    refuses(step, about("path contains NUL: "@, root))
                } else {
                    &&& step matches SourceStep::OpenRoot(awaiting, path)
                    &&& path@ == root
                    &&& awaiting matches AwaitingOpen::Root { root: kept, expected_root: kept_root, walk }
                    &&& kept@ == root
                    &&& kept_root == expected_root
                    &&& walk.shown@ == local_path::text_below(root, source)
                    &&& local_path::component_views(walk.parts@) == parts
                    &&& walk.passed == 0
                    &&& walk.expected == expected_source
                },
            },
        }
    }
}

/// The content of an optional path.
pub open spec fn optional(path: Option<&str>) -> Option<Seq<char>> {
    match path {
        Some(path) => Some(path@),
        None => None,
    }
}

/// Opens an upload source without following links and, when supplied, verifies
/// that the discovered root, directory, and file are still the same entries.
pub fn open(
    platform: Platform,
    root: Option<&str>,
    source: &str,
    expected_root: Option<DirectoryIdentity>,
    expected_source: Option<UploadSourceIdentity>,
) -> (step: SourceStep)
    ensures
        opens(platform, optional(root), source@, expected_root, expected_source, step),
        step.wf(),
{
    if expected_root.is_some() || expected_source.is_some() {
        if let Platform::Unsupported(name) = platform {
            return SourceStep::Done(Err(AppError::UnsupportedPlatform(name)));
        }
    }
    match root {
        None => SourceStep::OpenPath(
            AwaitingOpen::Path { source: source.to_string(), expected: expected_source },
            source.to_string(),
        ),
        Some(root) => {
            match local_path::relative_components(root, source) {
                None => refuse(
                    "outside ".to_string().concat(text::quote_path(root).as_str()).concat(
                        ": ",
                    ).concat(text::quote_path(source).as_str()),
                ),
                Some(parts) => {
                    if atomic_rename::contains_nul(root) {
                        return refuse(about_text("path contains NUL: ", root));
                    }
                    let walk = Walk {
                        shown: local_path::relative_text(root, source),
                        parts,
                        passed: 0,
                        expected: expected_source,
                    };
                    SourceStep::OpenRoot(
                        AwaitingOpen::Root { root: root.to_string(), expected_root, walk },
                        root.to_string(),
                    )
                },
            }
        },
    }
}

impl Walk {
    pub open spec fn wf(self) -> bool {
        self.passed <= self.parts@.len()
    }

    /// The walk after some more components.
    pub open spec fn at(self, passed: int) -> Walk {
        Walk { passed: passed as usize, ..self }
    }

    /// How the walk goes on from the directory reached so far: through the next
    /// directory, or to the file, where the component is the last. Only names
    /// lead anywhere.
    pub open spec fn goes_on(self, step: SourceStep) -> bool
        decreases self.parts.len() - self.passed,
    {
        if self.passed >= self.parts.len() {
            refuses(step, about("not a regular file: "@, self.shown@))
        } else {
            match self.parts@[self.passed as int] {
                Component::Current => self.at(self.passed + 1).goes_on(step),
                Component::Root => refuses(step, about("absolute path: "@, self.shown@)),
                Component::Parent => refuses(
                    step,
                    about("contains a parent path component: "@, self.shown@),
                ),
                Component::Name(name) => if self.passed + 1 < self.parts@.len() {
                    if atomic_rename::has_nul(name@) {
                        refuses(step, about("path contains NUL: "@, name@))
                    } else {
                        step == SourceStep::OpenDirectory(
                            AwaitingOpen::Directory { walk: self.at(self.passed + 1) },
                            name,
                        )
                    }
                } else {
                    match self.expected {
                        Some(expected) => step == SourceStep::IdentifyDirectory(
                            AwaitingDirectory::Last {
                                walk: self.at(self.passed + 1),
                                name,
                                expected,
                            },
                        ),
                        None => self.at(self.passed + 1).opens_file(name, step),
                    }
                },
            }
        }
    }

    /// The last component is opened as a file.
    pub open spec fn opens_file(self, name: String, step: SourceStep) -> bool {
        if atomic_rename::has_nul(name@) {
            refuses(step, about("path contains NUL: "@, name@))
        } else {
            step == SourceStep::OpenFile(AwaitingOpen::File { walk: self }, name)
        }
    }

    fn open_file(self, name: String) -> (step: SourceStep)
        requires
            self.wf(),
        ensures
            self.opens_file(name, step),
            step.wf(),
    {
        if atomic_rename::contains_nul(name.as_str()) {
            refuse(about_text("path contains NUL: ", name.as_str()))
        } else {
            SourceStep::OpenFile(AwaitingOpen::File { walk: self }, name)
        }
    }

    fn go_on(self) -> (step: SourceStep)
        requires
            self.wf(),
        ensures
            self.goes_on(step),
            step.wf(),
        decreases self.parts@.len() - self.passed,
    {
        if self.passed == self.parts.len() {
            return refuse(about_text("not a regular file: ", self.shown.as_str()));
        }
        let component = self.parts[self.passed].clone();
        let passed: usize = self.passed + 1;
        let more = passed < self.parts.len();
        let expected = self.expected;
        match component {
            Component::Current => Walk { passed, ..self }.go_on(),
            Component::Root => refuse(about_text("absolute path: ", self.shown.as_str())),
            Component::Parent => refuse(
                about_text("contains a parent path component: ", self.shown.as_str()),
            ),
            Component::Name(name) => {
                let walk = Walk { passed, ..self };
                if more {
                    if atomic_rename::contains_nul(name.as_str()) {
                        refuse(about_text("path contains NUL: ", name.as_str()))
                    } else {
                        SourceStep::OpenDirectory(AwaitingOpen::Directory { walk }, name)
                    }
                } else {
                    match expected {
                        Some(expected) => SourceStep::IdentifyDirectory(
                            AwaitingDirectory::Last { walk, name, expected },
                        ),
                        None => walk.open_file(name),
                    }
                }
            },
        }
    }
}

impl SourceStep {
    /// No more components were passed than a path has.
    pub open spec fn wf(self) -> bool {
        match self {
            SourceStep::OpenRoot(awaiting, _) => awaiting.wf(),
            SourceStep::OpenDirectory(awaiting, _) => awaiting.wf(),
            SourceStep::OpenFile(awaiting, _) => awaiting.wf(),
            SourceStep::OpenPath(awaiting, _) => awaiting.wf(),
            SourceStep::IdentifyDirectory(awaiting) => awaiting.wf(),
            SourceStep::IdentifyDirectoryAt(awaiting, _) => awaiting.wf(),
            _ => true,
        }
    }
}

impl AwaitingOpen {
    pub open spec fn wf(self) -> bool {
        match self {
            AwaitingOpen::Root { walk, .. } => walk.wf(),
            AwaitingOpen::Directory { walk } => walk.wf(),
            AwaitingOpen::File { walk } => walk.wf(),
            AwaitingOpen::Path { .. } => true,
        }
    }

    /// How to go on once something was opened, or not.
    pub open spec fn continues(self, opened: Result<(), IoError>, step: SourceStep) -> bool {
        match opened {
            Err(error) => fails(step, error),
            Ok(_) => match self {
                AwaitingOpen::Root { root, expected_root, walk } => match expected_root {
                    Some(expected) => step == SourceStep::IdentifyDirectory(
                        AwaitingDirectory::Root { root, expected, walk },
                    ),
                    None => walk.goes_on(step),
                },
                AwaitingOpen::Directory { walk } => walk.goes_on(step),
                AwaitingOpen::File { walk } => step == SourceStep::CheckRegular(
                    AwaitingKind {
                        shown: walk.shown,
                        then_check: match walk.expected {
                            Some(expected) => KindCheck::File(expected),
                            None => KindCheck::Nothing,
                        },
                    },
                ),
                AwaitingOpen::Path { source, expected } => step == SourceStep::CheckRegular(
                    AwaitingKind {
                        shown: source,
                        then_check: match expected {
                            Some(expected) => KindCheck::DirectoryAndFile(expected),
                            None => KindCheck::Nothing,
                        },
                    },
                ),
            },
        }
    }

    /// Goes on once something was opened, or not.
    pub fn resume(self, opened: Result<(), IoError>) -> (step: SourceStep)
        requires
            self.wf(),
        ensures
            self.continues(opened, step),
            step.wf(),
    {
        if let Err(error) = opened {
            return fail(error);
        }
        match self {
            AwaitingOpen::Root { root, expected_root, walk } => match expected_root {
                Some(expected) => SourceStep::IdentifyDirectory(
                    AwaitingDirectory::Root { root, expected, walk },
                ),
                None => walk.go_on(),
            },
            AwaitingOpen::Directory { walk } => walk.go_on(),
            AwaitingOpen::File { walk } => SourceStep::CheckRegular(
                AwaitingKind {
                    shown: walk.shown,
                    then_check: match walk.expected {
                        Some(expected) => KindCheck::File(expected),
                        None => KindCheck::Nothing,
                    },
                },
            ),
            AwaitingOpen::Path { source, expected } => SourceStep::CheckRegular(
                AwaitingKind {
                    shown: source,
                    then_check: match expected {
                        Some(expected) => KindCheck::DirectoryAndFile(expected),
                        None => KindCheck::Nothing,
                    },
                },
            ),
        }
    }
}

impl AwaitingDirectory {
    pub open spec fn wf(self) -> bool {
        match self {
            AwaitingDirectory::Root { walk, .. } => walk.wf(),
            AwaitingDirectory::Last { walk, .. } => walk.wf(),
            AwaitingDirectory::Parent { .. } => true,
        }
    }

    /// How to go on once a directory was identified: nothing is opened in
    /// another directory than the expected one.
    pub open spec fn continues(self, found: Result<DirectoryIdentity, IoError>, step: SourceStep) -> bool {
        match found {
            Err(error) => fails(step, error),
            Ok(actual) => match self {
                AwaitingDirectory::Root { root, expected, walk } => if actual == expected {
                    walk.goes_on(step)
                } else {
                    refuses(step, about("upload root was replaced before opening: "@, root@))
                },
                AwaitingDirectory::Last { walk, name, expected } => if actual
                    == expected.directory {
                    walk.opens_file(name, step)
                } else {
                    refuses(
                        step,
                        about(
                            "upload source directory was replaced before opening: "@,
                            walk.shown@,
                        ),
                    )
                },
                AwaitingDirectory::Parent { source, expected } => if actual == expected.directory {
                    step == SourceStep::IdentifyFile(AwaitingFile { shown: source, expected })
                } else {
                    refuses(step, about("upload source was replaced before opening: "@, source@))
                },
            },
        }
    }

    /// Goes on once a directory was identified.
    pub fn resume(self, found: Result<DirectoryIdentity, IoError>) -> (step: SourceStep)
        requires
            self.wf(),
        ensures
            self.continues(found, step),
            step.wf(),
    {
        let actual = match found {
            Ok(actual) => actual,
            Err(error) => {
                return fail(error);
            },
        };
        match self {
            AwaitingDirectory::Root { root, expected, walk } => if actual == expected {
                walk.go_on()
            } else {
                refuse(about_text("upload root was replaced before opening: ", root.as_str()))
            },
            AwaitingDirectory::Last { walk, name, expected } => if actual == expected.directory {
                walk.open_file(name)
            } else {
                refuse(
                    about_text(
                        "upload source directory was replaced before opening: ",
                        walk.shown.as_str(),
                    ),
                )
            },
            AwaitingDirectory::Parent { source, expected } => if actual == expected.directory {
                SourceStep::IdentifyFile(AwaitingFile { shown: source, expected })
            } else {
                refuse(about_text("upload source was replaced before opening: ", source.as_str()))
            },
        }
    }
}

impl AwaitingKind {
    /// How to go on once it is known whether the file is a regular one: nothing
    /// else is uploaded.
    pub open spec fn continues(self, regular: Result<bool, IoError>, step: SourceStep) -> bool {
        match regular {
            Err(error) => fails(step, error),
            Ok(is_regular) => if !is_regular {
                refuses(step, about("not a regular file: "@, self.shown@))
            } else {
                match self.then_check {
                    KindCheck::Nothing => step matches SourceStep::Done(Ok(_)),
                    KindCheck::File(expected) => step == SourceStep::IdentifyFile(
                        AwaitingFile { shown: self.shown, expected },
                    ),
                    KindCheck::DirectoryAndFile(expected) => match local_path::parent_text_of(
                        self.shown@,
                    ) {
                        None => refuses(step, about("source has no parent: "@, self.shown@)),
                        Some(parent) => {
                            &&& step matches SourceStep::IdentifyDirectoryAt(awaiting, path)
                            &&& path@ == parent
                            &&& awaiting == (AwaitingDirectory::Parent {
                                source: self.shown,
                                expected,
                            })
                        },
                    },
                }
            },
        }
    }

    /// Goes on once it is known whether the file is a regular one.
    pub fn resume(self, regular: Result<bool, IoError>) -> (step: SourceStep)
        ensures
            self.continues(regular, step),
            step.wf(),
    {
        let is_regular = match regular {
            Ok(is_regular) => is_regular,
            Err(error) => {
                return fail(error);
            },
        };
        if !is_regular {
            return refuse(about_text("not a regular file: ", self.shown.as_str()));
        }
        match self.then_check {
            KindCheck::Nothing => SourceStep::Done(Ok(())),
            KindCheck::File(expected) => SourceStep::IdentifyFile(
                AwaitingFile { shown: self.shown, expected },
            ),
            KindCheck::DirectoryAndFile(expected) => {
                match local_path::parent_text(self.shown.as_str()) {
                    None => refuse(about_text("source has no parent: ", self.shown.as_str())),
                    Some(parent) => SourceStep::IdentifyDirectoryAt(
                        AwaitingDirectory::Parent { source: self.shown, expected },
                        parent,
                    ),
                }
            },
        }
    }
}

impl AwaitingFile {
    /// How to go on once the opened file was identified.
    pub open spec fn continues(self, found: Result<FileIdentity, IoError>, step: SourceStep) -> bool {
        match found {
            Err(error) => fails(step, error),
            Ok(actual) => if actual == self.expected.file {
                step matches SourceStep::Done(Ok(_))
            } else {
                refuses(step, about("upload source was replaced before opening: "@, self.shown@))
            },
        }
    }

    /// Accepts the opened file where it is the expected one.
    pub fn resume(self, found: Result<FileIdentity, IoError>) -> (step: SourceStep)
        ensures
            self.continues(found, step),
            step.wf(),
            (step matches SourceStep::Done(done) && done is Ok) <==> found == Ok::<
                FileIdentity,
                IoError,
            >(self.expected.file),
    {
        match found {
            Err(error) => fail(error),
            Ok(actual) => if actual == self.expected.file {
                SourceStep::Done(Ok(()))
            } else {
                refuse(
                    about_text("upload source was replaced before opening: ", self.shown.as_str()),
                )
            },
        }
    }
}

proof fn walking_accepts_nothing(walk: Walk, step: SourceStep)
    requires
        walk.goes_on(step),
    ensures
        step matches SourceStep::Done(outcome) ==> (outcome matches Err(error)
            && error is UploadSource),
    decreases walk.parts.len() - walk.passed,
{
    if walk.passed < walk.parts.len() {
        if walk.parts@[walk.passed as int] is Current {
            walking_accepts_nothing(walk.at(walk.passed + 1), step);
        }
    }
}

/// Opening alone never makes a file acceptable: whatever ends there is an upload
/// source failure, which cannot have reached Cloud Storage.
pub proof fn opening_accepts_nothing(awaiting: AwaitingOpen, opened: Result<(), IoError>, step: SourceStep)
    requires
        awaiting.continues(opened, step),
    ensures
        step matches SourceStep::Done(outcome) ==> (outcome matches Err(error)
            && error is UploadSource && !error.has_reached_storage()),
{
    match awaiting {
        AwaitingOpen::Root { root, expected_root, walk } => {
            if opened is Ok && expected_root is None {
                walking_accepts_nothing(walk, step);
            }
        },
        AwaitingOpen::Directory { walk } => {
            if opened is Ok {
                walking_accepts_nothing(walk, step);
            }
        },
        _ => {},
    }
}

/// A directory that is not the expected one ends the opening, and the expected
/// one alone makes no file acceptable.
pub proof fn identifying_a_directory_accepts_nothing(
    awaiting: AwaitingDirectory,
    found: Result<DirectoryIdentity, IoError>,
    step: SourceStep,
)
    requires
        awaiting.continues(found, step),
    ensures
        step matches SourceStep::Done(outcome) ==> (outcome matches Err(error)
            && error is UploadSource && !error.has_reached_storage()),
{
    if let AwaitingDirectory::Root { root, expected, walk } = awaiting {
        if found matches Ok(actual) && actual == expected {
            walking_accepts_nothing(walk, step);
        }
    }
}

/// A file is acceptable without an identity check only where none was asked for,
/// and only if it is a regular file.
pub proof fn only_regular_files_are_accepted(
    awaiting: AwaitingKind,
    regular: Result<bool, IoError>,
    step: SourceStep,
)
    requires
        awaiting.continues(regular, step),
        step matches SourceStep::Done(outcome) && outcome is Ok,
    ensures
        regular matches Ok(is_regular) && is_regular,
        awaiting.then_check is Nothing,
{
}

} // verus!
