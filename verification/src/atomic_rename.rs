//! Renaming a file without replacing another.
//!
//! Both parents are resolved from an open root directory, one name at a time, so
//! that a concurrent replacement of the root or of an intermediate directory is
//! detected. Every step here is decided from the results of earlier steps;
//! whoever performs the steps opens, identifies and renames, and decides nothing.
use vstd::prelude::*;

use crate::error::AppError;
use crate::error::IoError;
use crate::error::IoErrorKind;
use crate::local_path;
use crate::local_path::Component;
use crate::local_path::ComponentView;
use crate::text;

verus! {

/// Identity of a directory. Whoever captures one keeps the directory open while
/// a planned operation relies on it, so that its inode is not recycled.
#[derive(Clone, Copy, Debug, PartialEq, Eq, Structural)]
pub struct DirectoryIdentity {
    pub device: u64,
    pub inode: u64,
}

/// Identity of a file, captured in the same way.
#[derive(Clone, Copy, Debug, PartialEq, Eq, Structural)]
pub struct FileIdentity {
    pub device: u64,
    pub inode: u64,
}

/// Identity of a directory entry, of whatever kind, and the number of names that
/// what it names has.
#[derive(Clone, Copy, Debug, PartialEq, Eq, Structural)]
pub struct EntryIdentity {
    pub identity: FileIdentity,
    pub links: u64,
}

/// The identities that a rename expects to find; `None` is not checked.
#[derive(Clone, Copy, Debug)]
pub struct RenameIdentity {
    pub root: Option<DirectoryIdentity>,
    pub file: Option<FileIdentity>,
    pub source_parent: Option<DirectoryIdentity>,
    pub target_parent: Option<DirectoryIdentity>,
}

impl RenameIdentity {
    pub fn without_identity_checks() -> (identity: Self)
        ensures
            identity == (RenameIdentity {
                root: None,
                file: None,
                source_parent: None,
                target_parent: None,
            }),
    {
        RenameIdentity { root: None, file: None, source_parent: None, target_parent: None }
    }
}

/// The platform's support for a rename that replaces nothing.
#[derive(Debug)]
pub enum Platform {
    Linux,
    MacOs,
    Unsupported(String),
}

impl Clone for Platform {
    fn clone(&self) -> (copy: Self)
        ensures
            copy == *self,
    {
        match self {
            Platform::Linux => Platform::Linux,
            Platform::MacOs => Platform::MacOs,
            Platform::Unsupported(name) => Platform::Unsupported(name.clone()),
        }
    }
}

/// Which of the two paths of a rename is meant.
#[derive(Clone, Copy, Debug, PartialEq, Eq, Structural)]
pub enum Side {
    Source,
    Target,
}

/// Where a path leads below the root: through the parents, each inside the one
/// before, to an entry.
#[derive(Debug)]
pub struct Location {
    pub parents: Vec<String>,
    pub name: String,
}

/// A rename that was asked for.
#[derive(Debug)]
pub struct Rename {
    pub platform: Platform,
    pub root: String,
    pub source: String,
    pub target: String,
    pub identity: RenameIdentity,
}

/// What is to be opened.
#[derive(Debug)]
pub enum Open {
    /// The root directory itself.
    Root,
    /// The root directory once more, as the start of the way to a parent.
    ParentStart(Side),
    /// The directory of this name inside the directory reached so far.
    ParentChild(Side, String),
}

/// Something was to be opened; whether it was decides how to go on.
#[derive(Debug)]
pub struct AwaitingOpen {
    pub rename: Rename,
    pub stage: OpenStage,
}

#[derive(Debug)]
pub enum OpenStage {
    Root,
    /// The way to the source, `opened` of whose parents were passed.
    Source { location: Location, opened: usize },
    /// The way to the target, `opened` of whose parents were passed.
    Target { source: Location, location: Location, opened: usize },
}

/// A directory was to be identified.
#[derive(Debug)]
pub struct AwaitingDirectory {
    pub rename: Rename,
    pub stage: DirectoryStage,
}

#[derive(Debug)]
pub enum DirectoryStage {
    Root { expected: DirectoryIdentity },
    SourceParent { expected: DirectoryIdentity, source: Location, target: Location },
    TargetParent { expected: DirectoryIdentity, source: Location, target: Location },
}

/// A file was to be identified, without waiting for a writer.
#[derive(Debug)]
pub struct AwaitingFile {
    pub rename: Rename,
    pub stage: FileStage,
}

#[derive(Debug)]
pub enum FileStage {
    /// The source, before the rename.
    Before { expected: FileIdentity, source: Location, target: Location },
    /// The target, after the rename.
    After { expected: FileIdentity, target: Location },
}

/// An entry was to be identified, which the file system may know under two
/// spellings.
#[derive(Debug)]
pub struct AwaitingEntry {
    pub rename: Rename,
    pub stage: EntryStage,
}

#[derive(Debug)]
pub enum EntryStage {
    /// The source's entry.
    Source { source: Location, target: Location },
    /// The target's entry, once the source's was looked up.
    Target { entry: Option<EntryIdentity>, source: Location, target: Location },
}

/// The rename itself was to be made.
#[derive(Debug)]
pub struct AwaitingRename {
    pub rename: Rename,
    pub source: Location,
    pub target: Location,
}

/// What is to be done next.
#[derive(Debug)]
pub enum RenameStep {
    Open(AwaitingOpen, Open),
    /// Identify the open root.
    IdentifyRoot(AwaitingDirectory),
    /// Identify the parent that was reached on this side.
    IdentifyParent(AwaitingDirectory, Side),
    /// Identify the file of this name in the parent on this side, without following
    /// links and without waiting for a writer.
    IdentifyFile(AwaitingFile, Side, String),
    /// Identify the entry of this name, of whatever kind, in the parent on this
    /// side, without following links, and count its links.
    IdentifyEntry(AwaitingEntry, Side, String),
    /// Rename the first name in the source's parent to the second in the
    /// target's, replacing nothing.
    Rename(AwaitingRename, String, String),
    /// The rename is over; `renamed` tells whether the entry has its new name,
    /// which it may have although the result is a failure.
    Done { renamed: bool, result: Result<(), AppError> },
}

/// The rename ends with a complaint, the entry still under its old name.
pub open spec fn refuses(step: RenameStep, complaint: Seq<char>) -> bool {
    &&& step matches RenameStep::Done { renamed: false, result: Err(AppError::Message(message)) }
    &&& message@ == complaint
}

fn refuse(complaint: String) -> (step: RenameStep)
    ensures
        refuses(step, complaint@),
{
    RenameStep::Done { renamed: false, result: Err(AppError::Message(complaint)) }
}

/// The rename ends with a failed local operation, the entry still under its old
/// name.
pub open spec fn fails(step: RenameStep, error: IoError) -> bool {
    step == (RenameStep::Done { renamed: false, result: Err(AppError::Io(error)) })
}

/// A name holds the character that ends names in system calls.
pub open spec fn has_nul(name: Seq<char>) -> bool {
    name.contains('\0')
}

/// Whether a name holds the character that ends names in system calls.
pub(crate) fn contains_nul(name: &str) -> (contains: bool)
    ensures
        contains == has_nul(name@),
{
    let chars = text::chars_of(name);
    let mut i: usize = 0;
    while i < chars.len()
        invariant
            i <= chars@.len(),
            chars@ == name@,
            forall|k: int| 0 <= k < i ==> chars@[k] != '\0',
        decreases chars@.len() - i,
    {
        if chars[i] == '\0' {
            assert(name@[i as int] == '\0');
            return true;
        }
        i += 1;
    }
    false
}

/// The complaint about a name that cannot be handed to the system.
pub open spec fn nul_complaint(name: Seq<char>) -> Seq<char> {
    "Path contains NUL: "@ + text::quoted_path(name)
}

fn nul_complaint_text(name: &str) -> (complaint: String)
    ensures
        complaint@ == nul_complaint(name@),
{
    "Path contains NUL: ".to_string().concat(text::quote_path(name).as_str())
}

/// Whether a rename can pass through the components.
pub open spec fn passable(parts: Seq<ComponentView>) -> bool {
    forall|i: int|
        0 <= i < parts.len() ==> (#[trigger] parts[i] is Current || parts[i] is Name)
}

/// The names among the components.
pub open spec fn names(parts: Seq<ComponentView>) -> Seq<Seq<char>>
    decreases parts.len(),
{
    if parts.len() == 0 {
        Seq::empty()
    } else {
        match parts.last() {
            ComponentView::Name(name) => names(parts.drop_last()).push(name),
            _ => names(parts.drop_last()),
        }
    }
}

/// Where a path leads, or the complaint that it does not lead to an entry below
/// the root.
pub open spec fn locates(root: Seq<char>, path: Seq<char>, located: Result<Location, Seq<char>>) -> bool {
    match local_path::below(root, path) {
        None => located == Err::<Location, Seq<char>>(
            "Path is outside "@ + text::quoted_path(root) + ": "@ + text::quoted_path(path),
        ),
        Some(parts) => if !passable(parts) {
            located == Err::<Location, Seq<char>>(
                "Path contains an unsupported component: "@ + text::quoted_path(path),
            )
        } else if names(parts).len() == 0 {
            located == Err::<Location, Seq<char>>(
                "Path has no file name: "@ + text::quoted_path(path),
            )
        } else {
            &&& located matches Ok(location)
            &&& text::views(location.parents@) == names(parts).drop_last()
            &&& location.name@ == names(parts).last()
        },
    }
}

/// The content of a complaint.
pub open spec fn complaint_in(located: Result<Location, String>) -> Result<Location, Seq<char>> {
    match located {
        Ok(location) => Ok(location),
        Err(complaint) => Err(complaint@),
    }
}

fn locate(root: &str, path: &str) -> (located: Result<Location, String>)
    ensures
        locates(root@, path@, complaint_in(located)),
{
    let parts = match local_path::relative_components(root, path) {
        Some(parts) => parts,
        None => {
            return Err(
                "Path is outside ".to_string().concat(text::quote_path(root).as_str()).concat(
                    ": ",
                ).concat(text::quote_path(path).as_str()),
            );
        },
    };
    let ghost all = local_path::component_views(parts@);
    let mut found: Vec<String> = Vec::new();
    let mut i: usize = 0;
    while i < parts.len()
        invariant
            i <= parts@.len(),
            all == local_path::component_views(parts@),
            local_path::below(root@, path@) == Some(all),
            passable(all.take(i as int)),
            text::views(found@) == names(all.take(i as int)),
        decreases parts@.len() - i,
    {
        let ghost so_far = text::views(found@);
        assert(all.take(i + 1).drop_last() =~= all.take(i as int));
        assert(all[i as int] == parts@[i as int]@);
        match &parts[i] {
            Component::Current => {},
            Component::Name(name) => {
                found.push(name.clone());
                assert(text::views(found@) =~= so_far.push(name@));
            },
            _ => {
                assert(!passable(all));
                return Err(
                    "Path contains an unsupported component: ".to_string().concat(
                        text::quote_path(path).as_str(),
                    ),
                );
            },
        }
        assert forall|k: int| 0 <= k < i + 1 implies (#[trigger] all.take(i + 1)[k] is Current
            || all.take(i + 1)[k] is Name) by {
            if k < i {
                assert(all.take(i as int)[k] == all.take(i + 1)[k]);
            }
        }
        i += 1;
    }
    assert(all.take(parts@.len() as int) =~= all);
    let ghost named = text::views(found@);
    match found.pop() {
        Some(name) => {
            assert(text::views(found@) =~= named.drop_last());
            Ok(Location { parents: found, name })
        },
        None => Err(
            "Path has no file name: ".to_string().concat(text::quote_path(path).as_str()),
        ),
    }
}

impl Rename {
    /// Begins the way to one of the parents, at the root.
    pub open spec fn finds_source(self, step: RenameStep) -> bool {
        exists|located: Result<Location, Seq<char>>|
            {
                &&& #[trigger] locates(self.root@, self.source@, located)
                &&& match located {
                    Err(complaint) => refuses(step, complaint),
                    Ok(location) => step == RenameStep::Open(
                        AwaitingOpen {
                            rename: self,
                            stage: OpenStage::Source { location, opened: 0 },
                        },
                        Open::ParentStart(Side::Source),
                    ),
                }
            }
    }

    fn find_source(self) -> (step: RenameStep)
        ensures
            self.finds_source(step),
            step.wf(),
    {
        let located = locate(self.root.as_str(), self.source.as_str());
        assert(locates(self.root@, self.source@, complaint_in(located)));
        match located {
            Err(complaint) => refuse(complaint),
            Ok(location) => RenameStep::Open(
                AwaitingOpen { rename: self, stage: OpenStage::Source { location, opened: 0 } },
                Open::ParentStart(Side::Source),
            ),
        }
    }

    pub open spec fn finds_target(self, source: Location, step: RenameStep) -> bool {
        exists|located: Result<Location, Seq<char>>|
            {
                &&& #[trigger] locates(self.root@, self.target@, located)
                &&& match located {
                    Err(complaint) => refuses(step, complaint),
                    Ok(location) => step == RenameStep::Open(
                        AwaitingOpen {
                            rename: self,
                            stage: OpenStage::Target { source, location, opened: 0 },
                        },
                        Open::ParentStart(Side::Target),
                    ),
                }
            }
    }

    fn find_target(self, source: Location) -> (step: RenameStep)
        ensures
            self.finds_target(source, step),
            step.wf(),
    {
        let located = locate(self.root.as_str(), self.target.as_str());
        assert(locates(self.root@, self.target@, complaint_in(located)));
        match located {
            Err(complaint) => refuse(complaint),
            Ok(location) => RenameStep::Open(
                AwaitingOpen {
                    rename: self,
                    stage: OpenStage::Target { source, location, opened: 0 },
                },
                Open::ParentStart(Side::Target),
            ),
        }
    }

    /// Both parents were reached: the expected identities are checked, one after
    /// the other, before anything is renamed.
    pub open spec fn checks_source_parent(self, source: Location, target: Location, step: RenameStep) -> bool {
        match self.identity.source_parent {
            Some(expected) => step == RenameStep::IdentifyParent(
                AwaitingDirectory {
                    rename: self,
                    stage: DirectoryStage::SourceParent { expected, source, target },
                },
                Side::Source,
            ),
            None => self.checks_target_parent(source, target, step),
        }
    }

    fn check_source_parent(self, source: Location, target: Location) -> (step: RenameStep)
        ensures
            self.checks_source_parent(source, target, step),
            step.wf(),
    {
        match self.identity.source_parent {
            Some(expected) => RenameStep::IdentifyParent(
                AwaitingDirectory {
                    rename: self,
                    stage: DirectoryStage::SourceParent { expected, source, target },
                },
                Side::Source,
            ),
            None => self.check_target_parent(source, target),
        }
    }

    pub open spec fn checks_target_parent(self, source: Location, target: Location, step: RenameStep) -> bool {
        match self.identity.target_parent {
            Some(expected) => step == RenameStep::IdentifyParent(
                AwaitingDirectory {
                    rename: self,
                    stage: DirectoryStage::TargetParent { expected, source, target },
                },
                Side::Target,
            ),
            None => self.checks_file(source, target, step),
        }
    }

    fn check_target_parent(self, source: Location, target: Location) -> (step: RenameStep)
        ensures
            self.checks_target_parent(source, target, step),
            step.wf(),
    {
        match self.identity.target_parent {
            Some(expected) => RenameStep::IdentifyParent(
                AwaitingDirectory {
                    rename: self,
                    stage: DirectoryStage::TargetParent { expected, source, target },
                },
                Side::Target,
            ),
            None => self.check_file(source, target),
        }
    }

    pub open spec fn checks_file(self, source: Location, target: Location, step: RenameStep) -> bool {
        match self.identity.file {
            Some(expected) => if has_nul(source.name@) {
                refuses(step, nul_complaint(source.name@))
            } else {
                step == RenameStep::IdentifyFile(
                    AwaitingFile {
                        rename: self,
                        stage: FileStage::Before { expected, source, target },
                    },
                    Side::Source,
                    source.name,
                )
            },
            None => self.checks_alias(source, target, step),
        }
    }

    fn check_file(self, source: Location, target: Location) -> (step: RenameStep)
        ensures
            self.checks_file(source, target, step),
            step.wf(),
    {
        match self.identity.file {
            Some(expected) => if contains_nul(source.name.as_str()) {
                refuse(nul_complaint_text(source.name.as_str()))
            } else {
                let name = source.name.clone();
                RenameStep::IdentifyFile(
                    AwaitingFile {
                        rename: self,
                        stage: FileStage::Before { expected, source, target },
                    },
                    Side::Source,
                    name,
                )
            },
            None => self.check_alias(source, target),
        }
    }

    /// A file system may know one entry under two spellings, so the two entries are
    /// told apart first.
    pub open spec fn checks_alias(self, source: Location, target: Location, step: RenameStep) -> bool {
        if has_nul(source.name@) {
            refuses(step, nul_complaint(source.name@))
        } else {
            step == RenameStep::IdentifyEntry(
                AwaitingEntry { rename: self, stage: EntryStage::Source { source, target } },
                Side::Source,
                source.name,
            )
        }
    }

    fn check_alias(self, source: Location, target: Location) -> (step: RenameStep)
        ensures
            self.checks_alias(source, target, step),
            step.wf(),
    {
        if contains_nul(source.name.as_str()) {
            refuse(nul_complaint_text(source.name.as_str()))
        } else {
            let name = source.name.clone();
            RenameStep::IdentifyEntry(
                AwaitingEntry { rename: self, stage: EntryStage::Source { source, target } },
                Side::Source,
                name,
            )
        }
    }

    /// The two lookups found one entry under two spellings. On Linux two hard links
    /// to one file are two entries, so there the entry must have no other name.
    pub open spec fn aliases(
        self,
        source_entry: Option<EntryIdentity>,
        target_entry: Option<EntryIdentity>,
    ) -> bool {
        match (source_entry, target_entry) {
            (Some(one), Some(other)) => one.identity == other.identity && (self.platform is Linux
                ==> one.links == 1 && other.links == 1),
            _ => false,
        }
    }

    /// The rename itself, of two names that the system can take.
    pub open spec fn renames(self, source: Location, target: Location, step: RenameStep) -> bool {
        if has_nul(source.name@) {
            refuses(step, nul_complaint(source.name@))
        } else if has_nul(target.name@) {
            refuses(step, nul_complaint(target.name@))
        } else {
            step == RenameStep::Rename(
                AwaitingRename { rename: self, source, target },
                source.name,
                target.name,
            )
        }
    }

    fn make_rename(self, source: Location, target: Location) -> (step: RenameStep)
        ensures
            self.renames(source, target, step),
            step.wf(),
    {
        if contains_nul(source.name.as_str()) {
            refuse(nul_complaint_text(source.name.as_str()))
        } else if contains_nul(target.name.as_str()) {
            refuse(nul_complaint_text(target.name.as_str()))
        } else {
            let source_name = source.name.clone();
            let target_name = target.name.clone();
            RenameStep::Rename(
                AwaitingRename { rename: self, source, target },
                source_name,
                target_name,
            )
        }
    }

    /// How a rename begins. A path that is its own target is renamed already.
    pub open spec fn starts(self, step: RenameStep) -> bool {
        if local_path::same(self.source@, self.target@) {
            step == (RenameStep::Done { renamed: false, result: Ok(()) })
        } else {
            match self.platform {
                Platform::Unsupported(platform) => step == (RenameStep::Done {
                    renamed: false,
                    result: Err(AppError::UnsupportedPlatform(platform)),
                }),
                _ => if has_nul(self.root@) {
                    refuses(step, nul_complaint(self.root@))
                } else {
                    step == RenameStep::Open(
                        AwaitingOpen { rename: self, stage: OpenStage::Root },
                        Open::Root,
                    )
                },
            }
        }
    }
}

/// Atomically renames a path without replacing an existing target.
///
/// Linux and macOS provide the required no-replace primitive; other platforms
/// end with [`AppError::UnsupportedPlatform`].
pub fn rename_without_overwrite(platform: Platform, root: &str, source: &str, target: &str) -> (step:
    RenameStep)
    ensures
        exists|rename: Rename|
            {
                &&& #[trigger] rename.starts(step)
                &&& rename.platform == platform
                &&& rename.root@ == root@
                &&& rename.source@ == source@
                &&& rename.target@ == target@
                &&& rename.identity.root is None
                &&& rename.identity.file is None
                &&& rename.identity.source_parent is None
                &&& rename.identity.target_parent is None
            },
        step.wf(),
{
    rename_without_overwrite_with_identity(
        platform,
        root,
        RenameIdentity::without_identity_checks(),
        source,
        target,
    )
}

/// Atomically renames a path without replacing an existing target, provided the
/// directories and the file are the expected ones.
pub fn rename_without_overwrite_with_identity(
    platform: Platform,
    root: &str,
    identity: RenameIdentity,
    source: &str,
    target: &str,
) -> (step: RenameStep)
    ensures
        exists|rename: Rename|
            {
                &&& #[trigger] rename.starts(step)
                &&& rename.platform == platform
                &&& rename.root@ == root@
                &&& rename.source@ == source@
                &&& rename.target@ == target@
                &&& rename.identity == identity
            },
        step.wf(),
{
    let rename = Rename {
        platform,
        root: root.to_string(),
        source: source.to_string(),
        target: target.to_string(),
        identity,
    };
    let step = begin(rename);
    assert(rename.starts(step));
    step
}

fn begin(rename: Rename) -> (step: RenameStep)
    ensures
        rename.starts(step),
        step.wf(),
{
    if local_path::same_path(rename.source.as_str(), rename.target.as_str()) {
        return RenameStep::Done { renamed: false, result: Ok(()) };
    }
    if let Platform::Unsupported(platform) = rename.platform {
        return RenameStep::Done {
            renamed: false,
            result: Err(AppError::UnsupportedPlatform(platform)),
        };
    }
    if contains_nul(rename.root.as_str()) {
        return refuse(nul_complaint_text(rename.root.as_str()));
    }
    RenameStep::Open(AwaitingOpen { rename, stage: OpenStage::Root }, Open::Root)
}

impl RenameStep {
    /// No more parents were passed than a location has.
    pub open spec fn wf(self) -> bool {
        self matches RenameStep::Open(awaiting, _) ==> awaiting.wf()
    }
}

impl AwaitingOpen {
    pub open spec fn wf(self) -> bool {
        match self.stage {
            OpenStage::Root => true,
            OpenStage::Source { location, opened } => opened <= location.parents@.len(),
            OpenStage::Target { location, opened, .. } => opened <= location.parents@.len(),
        }
    }

    /// How to go on once something was opened, or not.
    pub open spec fn continues(self, opened: Result<(), IoError>, step: RenameStep) -> bool {
        match opened {
            Err(error) => fails(step, error),
            Ok(_) => match self.stage {
                OpenStage::Root => match self.rename.identity.root {
                    Some(expected) => step == RenameStep::IdentifyRoot(
                        AwaitingDirectory {
                            rename: self.rename,
                            stage: DirectoryStage::Root { expected },
                        },
                    ),
                    None => self.rename.finds_source(step),
                },
                OpenStage::Source { location, opened } => if opened == location.parents@.len() {
                    self.rename.finds_target(location, step)
                } else if has_nul(location.parents@[opened as int]@) {
                    refuses(step, nul_complaint(location.parents@[opened as int]@))
                } else {
                    step == RenameStep::Open(
                        AwaitingOpen {
                            rename: self.rename,
                            stage: OpenStage::Source { location, opened: (opened + 1) as usize },
                        },
                        Open::ParentChild(Side::Source, location.parents@[opened as int]),
                    )
                },
                OpenStage::Target { source, location, opened } => if opened
                    == location.parents@.len() {
                    self.rename.checks_source_parent(source, location, step)
                } else if has_nul(location.parents@[opened as int]@) {
                    refuses(step, nul_complaint(location.parents@[opened as int]@))
                } else {
                    step == RenameStep::Open(
                        AwaitingOpen {
                            rename: self.rename,
                            stage: OpenStage::Target {
                                source,
                                location,
                                opened: (opened + 1) as usize,
                            },
                        },
                        Open::ParentChild(Side::Target, location.parents@[opened as int]),
                    )
                },
            },
        }
    }

    /// Goes on once something was opened, or not.
    pub fn resume(self, opened: Result<(), IoError>) -> (step: RenameStep)
        requires
            self.wf(),
        ensures
            self.continues(opened, step),
            step.wf(),
    {
        if let Err(error) = opened {
            return RenameStep::Done { renamed: false, result: Err(AppError::Io(error)) };
        }
        let AwaitingOpen { rename, stage } = self;
        match stage {
            OpenStage::Root => match rename.identity.root {
                Some(expected) => RenameStep::IdentifyRoot(
                    AwaitingDirectory { rename, stage: DirectoryStage::Root { expected } },
                ),
                None => rename.find_source(),
            },
            OpenStage::Source { location, opened } => {
                if opened == location.parents.len() {
                    rename.find_target(location)
                } else if contains_nul(location.parents[opened].as_str()) {
                    refuse(nul_complaint_text(location.parents[opened].as_str()))
                } else {
                    let name = location.parents[opened].clone();
                    RenameStep::Open(
                        AwaitingOpen {
                            rename,
                            stage: OpenStage::Source { location, opened: opened + 1 },
                        },
                        Open::ParentChild(Side::Source, name),
                    )
                }
            },
            OpenStage::Target { source, location, opened } => {
                if opened == location.parents.len() {
                    rename.check_source_parent(source, location)
                } else if contains_nul(location.parents[opened].as_str()) {
                    refuse(nul_complaint_text(location.parents[opened].as_str()))
                } else {
                    let name = location.parents[opened].clone();
                    RenameStep::Open(
                        AwaitingOpen {
                            rename,
                            stage: OpenStage::Target { source, location, opened: opened + 1 },
                        },
                        Open::ParentChild(Side::Target, name),
                    )
                }
            },
        }
    }
}

impl AwaitingDirectory {
    /// How to go on once a directory was identified: another than the expected
    /// one ends the rename before anything is renamed.
    pub open spec fn continues(self, found: Result<DirectoryIdentity, IoError>, step: RenameStep) -> bool {
        match found {
            Err(error) => fails(step, error),
            Ok(actual) => match self.stage {
                DirectoryStage::Root { expected } => if actual == expected {
                    self.rename.finds_source(step)
                } else {
                    refuses(
                        step,
                        "Input root was replaced before renaming: "@ + text::quoted_path(
                            self.rename.root@,
                        ),
                    )
                },
                DirectoryStage::SourceParent { expected, source, target } => if actual == expected {
                    self.rename.checks_target_parent(source, target, step)
                } else {
                    refuses(
                        step,
                        "Input source directory was replaced before renaming: "@
                            + text::quoted_path(self.rename.source@),
                    )
                },
                DirectoryStage::TargetParent { expected, source, target } => if actual == expected {
                    self.rename.checks_file(source, target, step)
                } else {
                    refuses(
                        step,
                        "Input target directory was replaced before renaming: "@
                            + text::quoted_path(self.rename.target@),
                    )
                },
            },
        }
    }

    /// Goes on once a directory was identified.
    pub fn resume(self, found: Result<DirectoryIdentity, IoError>) -> (step: RenameStep)
        ensures
            self.continues(found, step),
            step.wf(),
    {
        let actual = match found {
            Ok(actual) => actual,
            Err(error) => {
                return RenameStep::Done { renamed: false, result: Err(AppError::Io(error)) };
            },
        };
        let AwaitingDirectory { rename, stage } = self;
        match stage {
            DirectoryStage::Root { expected } => if actual == expected {
                rename.find_source()
            } else {
                refuse(
                    "Input root was replaced before renaming: ".to_string().concat(
                        text::quote_path(rename.root.as_str()).as_str(),
                    ),
                )
            },
            DirectoryStage::SourceParent { expected, source, target } => if actual == expected {
                rename.check_target_parent(source, target)
            } else {
                refuse(
                    "Input source directory was replaced before renaming: ".to_string().concat(
                        text::quote_path(rename.source.as_str()).as_str(),
                    ),
                )
            },
            DirectoryStage::TargetParent { expected, source, target } => if actual == expected {
                rename.check_file(source, target)
            } else {
                refuse(
                    "Input target directory was replaced before renaming: ".to_string().concat(
                        text::quote_path(rename.target.as_str()).as_str(),
                    ),
                )
            },
        }
    }
}

/// The complaint about a file that was replaced while it was renamed.
pub open spec fn replaced_during(source: Seq<char>) -> Seq<char> {
    "Input file was replaced during renaming: "@ + text::quoted_path(source)
}

impl AwaitingFile {
    /// How to go on once a file was identified.
    pub open spec fn continues(self, found: Result<FileIdentity, IoError>, step: RenameStep) -> bool {
        match self.stage {
            FileStage::Before { expected, source, target } => match found {
                Err(error) => fails(step, error),
                Ok(actual) => if actual == expected {
                    self.rename.checks_alias(source, target, step)
                } else {
                    refuses(
                        step,
                        "Input file was replaced before renaming: "@ + text::quoted_path(
                            self.rename.source@,
                        ),
                    )
                },
            },
            FileStage::After { expected, target } => match found {
                Err(error) => {
                    &&& step matches RenameStep::Done { renamed: true, result: Err(combined) }
                    &&& combined matches AppError::Rollback { original, details }
                    &&& *original matches AppError::Message(message)
                    &&& message@ == replaced_during(self.rename.source@)
                    &&& details@ == AppError::Io(error).text()
                },
                Ok(actual) => if actual == expected {
                    step == (RenameStep::Done { renamed: true, result: Ok(()) })
                } else {
                    &&& step matches RenameStep::Done {
                        renamed: true,
                        result: Err(AppError::Recovery { paths, operation, details }),
                    }
                    &&& paths@ == text::quoted_path(self.rename.source@) + " and "@
                        + text::quoted_path(self.rename.target@)
                    &&& operation@ == "normalize upload source"@
                    &&& details@ == replaced_during(self.rename.source@)
                        + "; manual recovery is required"@
                },
            },
        }
    }

    /// Goes on once a file was identified.
    pub fn resume(self, found: Result<FileIdentity, IoError>) -> (step: RenameStep)
        ensures
            self.continues(found, step),
            step.wf(),
    {
        let AwaitingFile { rename, stage } = self;
        match stage {
            FileStage::Before { expected, source, target } => match found {
                Err(error) => RenameStep::Done { renamed: false, result: Err(AppError::Io(error)) },
                Ok(actual) => if actual == expected {
                    rename.check_alias(source, target)
                } else {
                    refuse(
                        "Input file was replaced before renaming: ".to_string().concat(
                            text::quote_path(rename.source.as_str()).as_str(),
                        ),
                    )
                },
            },
            FileStage::After { expected, target } => {
                let complaint = "Input file was replaced during renaming: ".to_string().concat(
                    text::quote_path(rename.source.as_str()).as_str(),
                );
                match found {
                    Err(error) => {
                        let errors: Vec<AppError> = vec![AppError::Io(error)];
                        let ghost texts = crate::error::texts(errors@);
                        assert(texts.len() == 1 && texts[0] == AppError::Io(error).text());
                        assert(text::joined(texts, "; "@) == texts[0]);
                        RenameStep::Done {
                            renamed: true,
                            result: Err(AppError::rollback(AppError::Message(complaint), errors)),
                        }
                    },
                    Ok(actual) => if actual == expected {
                        RenameStep::Done { renamed: true, result: Ok(()) }
                    } else {
                        RenameStep::Done {
                            renamed: true,
                            result: Err(
                                AppError::Recovery {
                                    paths: text::quote_path(rename.source.as_str()).concat(
                                        " and ",
                                    ).concat(text::quote_path(rename.target.as_str()).as_str()),
                                    operation: "normalize upload source".to_string(),
                                    details: complaint.concat("; manual recovery is required"),
                                },
                            ),
                        }
                    },
                }
            },
        }
    }
}

impl AwaitingEntry {
    /// How to go on once an entry was looked up.
    pub open spec fn continues(self, found: Result<EntryIdentity, IoError>, step: RenameStep) -> bool {
        match self.stage {
            EntryStage::Source { source, target } => match entry_in(found) {
                Err(error) => fails(step, error),
                Ok(entry) => if has_nul(target.name@) {
                    refuses(step, nul_complaint(target.name@))
                } else {
                    step == RenameStep::IdentifyEntry(
                        AwaitingEntry {
                            rename: self.rename,
                            stage: EntryStage::Target { entry, source, target },
                        },
                        Side::Target,
                        target.name,
                    )
                },
            },
            EntryStage::Target { entry, source, target } => match entry_in(found) {
                Err(error) => fails(step, error),
                Ok(target_entry) => if self.rename.aliases(entry, target_entry) {
                    step == (RenameStep::Done { renamed: false, result: Ok(()) })
                } else {
                    self.rename.renames(source, target, step)
                },
            },
        }
    }

    /// Goes on once an entry was looked up.
    pub fn resume(self, found: Result<EntryIdentity, IoError>) -> (step: RenameStep)
        ensures
            self.continues(found, step),
            step.wf(),
    {
        let AwaitingEntry { rename, stage } = self;
        match stage {
            EntryStage::Source { source, target } => match into_entry(found) {
                Err(error) => RenameStep::Done { renamed: false, result: Err(AppError::Io(error)) },
                Ok(entry) => if contains_nul(target.name.as_str()) {
                    refuse(nul_complaint_text(target.name.as_str()))
                } else {
                    let name = target.name.clone();
                    RenameStep::IdentifyEntry(
                        AwaitingEntry {
                            rename,
                            stage: EntryStage::Target { entry, source, target },
                        },
                        Side::Target,
                        name,
                    )
                },
            },
            EntryStage::Target { entry, source, target } => match into_entry(found) {
                Err(error) => RenameStep::Done { renamed: false, result: Err(AppError::Io(error)) },
                Ok(target_entry) => {
                    let alone = match (&rename.platform, entry, target_entry) {
                        (Platform::Linux, Some(one), Some(other)) => one.links == 1 && other.links
                            == 1,
                        _ => true,
                    };
                    let same = match (entry, target_entry) {
                        (Some(one), Some(other)) => one.identity == other.identity,
                        _ => false,
                    };
                    if same && alone {
                        RenameStep::Done { renamed: false, result: Ok(()) }
                    } else {
                        rename.make_rename(source, target)
                    }
                },
            },
        }
    }
}

/// The entry that a lookup found; one that is not there is no failure.
pub open spec fn entry_in(found: Result<EntryIdentity, IoError>) -> Result<
    Option<EntryIdentity>,
    IoError,
> {
    match found {
        Ok(identity) => Ok(Some(identity)),
        Err(error) => if error.kind == IoErrorKind::NotFound {
            Ok(None)
        } else {
            Err(error)
        },
    }
}

fn into_entry(found: Result<EntryIdentity, IoError>) -> (entry: Result<Option<EntryIdentity>, IoError>)
    ensures
        entry == entry_in(found),
{
    match found {
        Ok(identity) => Ok(Some(identity)),
        Err(error) => if error.kind == IoErrorKind::NotFound {
            Ok(None)
        } else {
            Err(error)
        },
    }
}

impl AwaitingRename {
    /// How to go on once the rename was made, or not: an expected file must now
    /// be found under the new name.
    pub open spec fn continues(self, made: Result<(), IoError>, step: RenameStep) -> bool {
        match made {
            Err(error) => fails(step, error),
            Ok(_) => match self.rename.identity.file {
                Some(expected) => step == RenameStep::IdentifyFile(
                    AwaitingFile {
                        rename: self.rename,
                        stage: FileStage::After { expected, target: self.target },
                    },
                    Side::Target,
                    self.target.name,
                ),
                None => step == (RenameStep::Done { renamed: true, result: Ok(()) }),
            },
        }
    }

    /// Goes on once the rename was made, or not.
    pub fn resume(self, made: Result<(), IoError>) -> (step: RenameStep)
        ensures
            self.continues(made, step),
            step.wf(),
    {
        if let Err(error) = made {
            return RenameStep::Done { renamed: false, result: Err(AppError::Io(error)) };
        }
        match self.rename.identity.file {
            Some(expected) => {
                let name = self.target.name.clone();
                RenameStep::IdentifyFile(
                    AwaitingFile {
                        rename: self.rename,
                        stage: FileStage::After { expected, target: self.target },
                    },
                    Side::Target,
                    name,
                )
            },
            None => RenameStep::Done { renamed: true, result: Ok(()) },
        }
    }
}

} // verus!
