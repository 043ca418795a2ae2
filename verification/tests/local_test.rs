use std::cell::Cell;
use std::collections::BTreeMap;

use task_googlecloud::atomic_rename::{
    rename_without_overwrite, DirectoryIdentity, EntryIdentity, FileIdentity, Open, Platform,
    RenameStep, Side,
};
use task_googlecloud::error::{IoError, IoErrorKind};
use task_googlecloud::local::{
    apply_normalization_with_path_identities, rollback_normalization_with_path_identities,
    LocalStep, RenameContext,
};
use task_googlecloud::{
    apply_normalization, normalized, rollback_normalization, AppError, Entry,
};

enum Node {
    Directory(BTreeMap<String, usize>),
    File(String),
    Link,
}

/// Directories, files and links, each at the number of its identity.
struct FileSystem {
    nodes: Vec<Node>,
    /// Whether names that differ in their normalization only are one name.
    aliases: bool,
    /// The number of renames after which the run is interrupted.
    interrupt_after: Option<usize>,
    renames: Cell<usize>,
    /// What replaces the target right after a rename.
    replaced_by: Option<usize>,
}

fn failure(kind: IoErrorKind, message: &str) -> IoError {
    IoError::new(kind, message)
}

impl FileSystem {
    fn new() -> Self {
        FileSystem {
            nodes: vec![Node::Directory(BTreeMap::new())],
            aliases: false,
            interrupt_after: None,
            renames: Cell::new(0),
            replaced_by: None,
        }
    }

    fn key(&self, name: &str) -> String {
        if self.aliases {
            normalized(name)
        } else {
            name.to_string()
        }
    }

    fn put(&mut self, directory: usize, name: &str, node: Node) -> usize {
        self.nodes.push(node);
        let number = self.nodes.len() - 1;
        self.link(directory, name, number);
        number
    }

    fn link(&mut self, directory: usize, name: &str, number: usize) {
        let key = self.key(name);
        let Node::Directory(entries) = &mut self.nodes[directory] else {
            panic!("not a directory");
        };
        entries.insert(key, number);
    }

    fn remove(&mut self, directory: usize, name: &str) -> Option<usize> {
        let key = self.key(name);
        let Node::Directory(entries) = &mut self.nodes[directory] else {
            panic!("not a directory");
        };
        entries.remove(&key)
    }

    fn directory(&mut self, directory: usize, name: &str) -> usize {
        self.put(directory, name, Node::Directory(BTreeMap::new()))
    }

    fn file(&mut self, directory: usize, name: &str, contents: &str) -> usize {
        self.put(directory, name, Node::File(contents.to_string()))
    }

    fn entry(&self, directory: usize, name: &str) -> Result<usize, IoError> {
        let Node::Directory(entries) = &self.nodes[directory] else {
            panic!("not a directory");
        };
        entries
            .get(&self.key(name))
            .copied()
            .ok_or_else(|| failure(IoErrorKind::NotFound, "No such file or directory"))
    }

    /// How many names a node has.
    fn links(&self, number: usize) -> u64 {
        let mut links = 0;
        for node in &self.nodes {
            if let Node::Directory(entries) = node {
                links += entries.values().filter(|entry| **entry == number).count() as u64;
            }
        }
        links
    }

    fn open_directory(&self, directory: usize, name: &str) -> Result<usize, IoError> {
        let number = self.entry(directory, name)?;
        match self.nodes[number] {
            Node::Directory(_) => Ok(number),
            _ => Err(failure(IoErrorKind::NotADirectory, "Not a directory")),
        }
    }

    fn read(&self, directory: usize, name: &str) -> Option<&str> {
        match &self.nodes[self.entry(directory, name).ok()?] {
            Node::File(contents) => Some(contents),
            _ => None,
        }
    }

    fn rename(&mut self, from: usize, source: &str, to: usize, target: &str) -> Result<(), IoError> {
        let number = self.entry(from, source)?;
        if self.entry(to, target).is_ok() {
            return Err(failure(IoErrorKind::AlreadyExists, "File exists (os error 17)"));
        }
        self.remove(from, source);
        let number = self.replaced_by.take().unwrap_or(number);
        self.link(to, target, number);
        self.renames.set(self.renames.get() + 1);
        Ok(())
    }

    /// Performs a rename to its end.
    fn perform(&mut self, mut step: RenameStep) -> (bool, Result<(), AppError>) {
        let mut root = usize::MAX;
        let mut parents = [usize::MAX; 2];
        let at = |side: Side| match side {
            Side::Source => 0,
            Side::Target => 1,
        };
        loop {
            step = match step {
                RenameStep::Open(awaiting, Open::Root) => {
                    let opened = self.open_directory(0, &awaiting.rename.root);
                    awaiting.resume(opened.map(|number| root = number))
                }
                RenameStep::Open(awaiting, Open::ParentStart(side)) => {
                    parents[at(side)] = root;
                    awaiting.resume(Ok(()))
                }
                RenameStep::Open(awaiting, Open::ParentChild(side, name)) => {
                    let opened = self.open_directory(parents[at(side)], &name);
                    awaiting.resume(opened.map(|number| parents[at(side)] = number))
                }
                RenameStep::IdentifyRoot(awaiting) => awaiting.resume(Ok(directory_at(root))),
                RenameStep::IdentifyParent(awaiting, side) => {
                    awaiting.resume(Ok(directory_at(parents[at(side)])))
                }
                RenameStep::IdentifyFile(awaiting, side, name) => {
                    awaiting.resume(self.entry(parents[at(side)], &name).map(file_at))
                }
                RenameStep::IdentifyEntry(awaiting, side, name) => {
                    let found = self.entry(parents[at(side)], &name);
                    awaiting.resume(found.map(|number| EntryIdentity {
                        identity: file_at(number),
                        links: self.links(number),
                    }))
                }
                RenameStep::Rename(awaiting, source, target) => {
                    awaiting.resume(self.rename(parents[0], &source, parents[1], &target))
                }
                RenameStep::Done { renamed, result } => return (renamed, result),
            };
        }
    }

    fn run(&mut self, mut step: LocalStep) -> LocalStep {
        loop {
            step = match step {
                LocalStep::Rename(awaiting, rename) => {
                    let (renamed, result) = self.perform(rename);
                    awaiting.resume(renamed, result)
                }
                LocalStep::CheckInterrupt(awaiting) => {
                    awaiting.resume(self.interrupt_after == Some(self.renames.get()))
                }
                LocalStep::RenameBack(awaiting, rename) => {
                    let (_, result) = self.perform(rename);
                    awaiting.resume(result)
                }
                done => return done,
            };
        }
    }

    fn apply(&mut self, step: LocalStep) -> Result<Vec<(String, String)>, AppError> {
        match self.run(step) {
            LocalStep::Applied(result) => result,
            other => panic!("not applied: {other:?}"),
        }
    }

    fn restore(&mut self, step: LocalStep) -> Vec<AppError> {
        match self.run(step) {
            LocalStep::Restored(errors) => errors,
            other => panic!("not restored: {other:?}"),
        }
    }
}

fn directory_at(number: usize) -> DirectoryIdentity {
    DirectoryIdentity { device: 1, inode: number as u64 }
}

fn file_at(number: usize) -> FileIdentity {
    FileIdentity { device: 1, inode: number as u64 }
}

fn entry(source: &str, target: &str) -> Entry {
    Entry { source: source.to_string(), target: target.to_string() }
}

fn pair(source: &str, target: &str) -> (String, String) {
    (source.to_string(), target.to_string())
}

/// An upload root with one bucket that holds `source.txt`.
fn uploads() -> (FileSystem, usize, usize, usize) {
    let mut files = FileSystem::new();
    let root = files.directory(0, "uploads");
    let bucket = files.directory(root, "bucket");
    let source = files.file(bucket, "source.txt", "original");
    (files, root, bucket, source)
}

fn context(root: usize, bucket: usize, source: usize) -> RenameContext {
    RenameContext {
        platform: Platform::Linux,
        root: "uploads".to_string(),
        expected_root: Some(directory_at(root)),
        expected_files: vec![("uploads/bucket/source.txt".to_string(), file_at(source))],
        expected_directories: vec![("uploads/bucket".to_string(), directory_at(bucket))],
    }
}

fn planned() -> Vec<Entry> {
    vec![entry("uploads/bucket/source.txt", "uploads/bucket/target.txt")]
}

#[test]
fn renames_without_changing_contents() {
    let (mut files, _, bucket, _) = uploads();

    let step = apply_normalization(Platform::Linux, "uploads", planned());
    let renamed = files.apply(step).unwrap();

    assert_eq!(renamed, vec![pair("uploads/bucket/source.txt", "uploads/bucket/target.txt")]);
    assert_eq!(files.read(bucket, "target.txt"), Some("original"));
    assert!(files.entry(bucket, "source.txt").is_err());
}

#[test]
fn does_not_overwrite_a_target_that_appears_after_planning() {
    let (mut files, _, bucket, _) = uploads();
    files.file(bucket, "target.txt", "competitor");

    let step = apply_normalization(Platform::Linux, "uploads", planned());
    let error = files.apply(step).unwrap_err();

    assert!(error.to_string().contains("File exists"));
    assert_eq!(files.read(bucket, "source.txt"), Some("original"));
    assert_eq!(files.read(bucket, "target.txt"), Some("competitor"));
}

#[test]
fn does_not_treat_a_hard_link_as_a_unicode_alias() {
    let (mut files, _, bucket, source) = uploads();
    files.link(bucket, "cafe\u{301}.txt", source);
    files.link(bucket, "caf\u{e9}.txt", source);
    let entries =
        vec![entry("uploads/bucket/cafe\u{301}.txt", "uploads/bucket/caf\u{e9}.txt")];

    let step = apply_normalization(Platform::Linux, "uploads", entries);
    let error = files.apply(step).unwrap_err();

    assert!(error.to_string().contains("File exists"));
    assert_eq!(files.read(bucket, "cafe\u{301}.txt"), Some("original"));
    assert_eq!(files.read(bucket, "caf\u{e9}.txt"), Some("original"));
}

#[test]
fn refuses_to_rename_through_a_replaced_root() {
    let (mut files, _, bucket, _) = uploads();
    files.remove(0, "uploads");
    files.put(0, "uploads", Node::Link);

    let step = apply_normalization(Platform::Linux, "uploads", planned());

    assert!(files.apply(step).is_err());
    assert_eq!(files.read(bucket, "source.txt"), Some("original"));
    assert!(files.entry(bucket, "target.txt").is_err());
}

#[test]
fn rollback_does_not_overwrite_a_new_source() {
    let (mut files, _, bucket, _) = uploads();
    files.file(bucket, "target.txt", "target");

    let step = rollback_normalization(
        Platform::Linux,
        "uploads",
        vec![pair("uploads/bucket/source.txt", "uploads/bucket/target.txt")],
    );
    let errors = files.restore(step);

    assert_eq!(errors.len(), 1);
    assert_eq!(errors[0].to_string(), "I/O failed: source and target both exist");
    assert_eq!(files.read(bucket, "source.txt"), Some("original"));
    assert_eq!(files.read(bucket, "target.txt"), Some("target"));
}

#[test]
fn refuses_to_rollback_through_a_replaced_bucket() {
    let (mut files, root, bucket, _) = uploads();
    files.remove(root, "bucket");
    files.put(root, "bucket", Node::Link);

    let step = rollback_normalization(
        Platform::Linux,
        "uploads",
        vec![pair("uploads/bucket/target.txt", "uploads/bucket/source.txt")],
    );
    let errors = files.restore(step);

    assert_eq!(errors.len(), 1);
    assert_eq!(files.read(bucket, "source.txt"), Some("original"));
    assert!(files.entry(bucket, "target.txt").is_err());
}

#[test]
fn rollback_ignores_nfc_and_nfd_aliases() {
    for platform in [Platform::Linux, Platform::MacOs] {
        let mut files = FileSystem::new();
        files.aliases = true;
        let root = files.directory(0, "uploads");
        files.file(root, "cafe\u{301}.txt", "content");
        let names = pair("uploads/cafe\u{301}.txt", "uploads/caf\u{e9}.txt");

        let step =
            apply_normalization(platform.clone(), "uploads", vec![entry(&names.0, &names.1)]);
        files.apply(step).unwrap();
        assert_eq!(files.read(root, "cafe\u{301}.txt"), Some("content"));
        assert_eq!(files.read(root, "caf\u{e9}.txt"), Some("content"));

        let errors = files.restore(rollback_normalization(platform, "uploads", vec![names]));

        assert!(errors.is_empty());
        assert_eq!(files.read(root, "cafe\u{301}.txt"), Some("content"));
        assert_eq!(files.read(root, "caf\u{e9}.txt"), Some("content"));
        assert_eq!(files.renames.get(), 0);
    }
}

#[test]
fn rollback_treats_dangling_symlinks_as_existing_entries() {
    let (mut files, _, bucket, _) = uploads();
    files.put(bucket, "target.txt", Node::Link);

    let step = rollback_normalization(
        Platform::Linux,
        "uploads",
        vec![pair("uploads/bucket/source.txt", "uploads/bucket/target.txt")],
    );
    let errors = files.restore(step);

    assert_eq!(errors.len(), 1);
    assert!(errors[0].to_string().contains("source and target both exist"));
}

#[test]
fn rollback_tells_a_missing_target() {
    let (mut files, _, _, _) = uploads();
    let step = rollback_normalization(
        Platform::Linux,
        "uploads",
        vec![pair("uploads/bucket/old.txt", "uploads/bucket/new.txt")],
    );
    let errors = files.restore(step);
    assert_eq!(errors.len(), 1);
    assert_eq!(errors[0].to_string(), "I/O failed: target does not exist");
}

#[test]
fn refuses_to_rename_through_a_replaced_normal_root() {
    let (mut files, root, bucket, source) = uploads();
    files.remove(0, "uploads");
    let replacement = files.directory(0, "uploads");
    files.link(replacement, "bucket", bucket);

    let step = apply_normalization_with_path_identities(context(root, bucket, source), planned());
    let error = files.apply(step).unwrap_err();

    assert!(error.to_string().contains("Input root was replaced"));
    assert_eq!(files.read(bucket, "source.txt"), Some("original"));
    assert!(files.entry(bucket, "target.txt").is_err());
}

#[test]
fn refuses_to_rename_a_replaced_source_file() {
    let (mut files, root, bucket, source) = uploads();
    files.remove(bucket, "source.txt");
    files.file(bucket, "source.txt", "replacement");

    let step = apply_normalization_with_path_identities(context(root, bucket, source), planned());
    let error = files.apply(step).unwrap_err();

    assert!(error.to_string().contains("Input file was replaced"));
    assert_eq!(files.read(bucket, "source.txt"), Some("replacement"));
    assert!(files.entry(bucket, "target.txt").is_err());
}

#[test]
fn renames_a_file_with_captured_identities() {
    let (mut files, root, bucket, source) = uploads();

    let step = apply_normalization_with_path_identities(context(root, bucket, source), planned());
    files.apply(step).unwrap();

    assert_eq!(files.read(bucket, "target.txt"), Some("original"));
    assert!(files.entry(bucket, "source.txt").is_err());
}

#[test]
fn refuses_to_rename_through_a_replaced_bucket() {
    let (mut files, root, bucket, source) = uploads();
    files.remove(root, "bucket");
    let replacement = files.directory(root, "bucket");
    files.file(replacement, "source.txt", "replacement");

    let step = apply_normalization_with_path_identities(context(root, bucket, source), planned());
    let error = files.apply(step).unwrap_err();

    assert!(error.to_string().contains("Input source directory was replaced"));
    assert_eq!(files.read(replacement, "source.txt"), Some("replacement"));
    assert!(files.entry(replacement, "target.txt").is_err());
}

#[test]
fn a_replacement_during_the_rename_asks_for_recovery() {
    let (mut files, root, bucket, source) = uploads();
    files.nodes.push(Node::File("replacement".to_string()));
    files.replaced_by = Some(files.nodes.len() - 1);

    let step = apply_normalization_with_path_identities(context(root, bucket, source), planned());
    let error = files.apply(step).unwrap_err();

    let words = error.to_string();
    assert!(words.starts_with("Manual recovery required for "), "{words}");
    assert!(words.contains("Input file was replaced during renaming"), "{words}");
    assert!(words.contains("; rollback failed: Input file was replaced before renaming"), "{words}");
}

fn three_files() -> (FileSystem, usize, Vec<Entry>) {
    let mut files = FileSystem::new();
    let root = files.directory(0, "uploads");
    let mut entries = Vec::new();
    for name in ["a", "b", "c"] {
        files.file(root, name, name);
        entries.push(entry(&format!("uploads/{name}"), &format!("uploads/new-{name}")));
    }
    (files, root, entries)
}

#[test]
fn a_failed_plan_gives_every_file_its_old_name_back() {
    let (mut files, root, entries) = three_files();
    files.file(root, "new-c", "competitor");

    let error = files.apply(apply_normalization(Platform::Linux, "uploads", entries)).unwrap_err();

    assert_eq!(error.to_string(), "I/O failed: File exists (os error 17)");
    for name in ["a", "b", "c"] {
        assert_eq!(files.read(root, name), Some(name));
    }
    assert!(files.entry(root, "new-a").is_err());
}

#[test]
fn an_interrupt_between_renames_gives_the_old_names_back() {
    let (mut files, root, entries) = three_files();
    files.interrupt_after = Some(2);

    let error = files.apply(apply_normalization(Platform::Linux, "uploads", entries)).unwrap_err();

    assert!(matches!(error, AppError::Interrupted));
    for name in ["a", "b", "c"] {
        assert_eq!(files.read(root, name), Some(name));
    }
}

#[test]
fn chained_renames_are_undone_last_first() {
    let mut files = FileSystem::new();
    let root = files.directory(0, "uploads");
    files.file(root, "a", "first");
    files.file(root, "c", "second");
    let names = vec![pair("uploads/b", "uploads/c"), pair("uploads/a", "uploads/b")];
    // The state after renaming `b` to `c` and then `a` to `b`.
    files.rename(root, "a", root, "b").unwrap();

    assert!(files.restore(rollback_normalization(Platform::Linux, "uploads", names)).is_empty());
    assert_eq!(files.read(root, "a"), Some("first"));
    assert_eq!(files.read(root, "b"), Some("second"));
}

#[test]
fn old_names_are_given_back_as_far_as_possible() {
    let (mut files, root, _) = three_files();
    let names = vec![
        pair("uploads/x", "uploads/a"),
        pair("uploads/y", "uploads/missing"),
        pair("uploads/z", "uploads/c"),
        pair("uploads/b", "uploads/./b"),
    ];
    let context = RenameContext {
        platform: Platform::Linux,
        root: "uploads".to_string(),
        expected_root: Some(directory_at(root)),
        expected_files: Vec::new(),
        expected_directories: Vec::new(),
    };
    let errors = files.restore(rollback_normalization_with_path_identities(context, names));
    assert_eq!(errors.len(), 1);
    assert_eq!(files.read(root, "x"), Some("a"));
    assert_eq!(files.read(root, "z"), Some("c"));
    assert_eq!(files.read(root, "b"), Some("b"));
}

#[test]
fn renames_stay_below_the_root() {
    let (mut files, _, _, _) = uploads();
    for (source, target, words) in [
        ("other/a", "uploads/b", "Path is outside \"uploads\": \"other/a\""),
        ("uploads/a", "other/b", "Path is outside \"uploads\": \"other/b\""),
        (
            "uploads/../a",
            "uploads/b",
            "Path contains an unsupported component: \"uploads/../a\"",
        ),
        ("uploads", "uploads/b", "Path has no file name: \"uploads\""),
        ("uploads/a\0b", "uploads/c", "Path contains NUL: \"a\\0b\""),
    ] {
        let step = rename_without_overwrite(Platform::Linux, "uploads", source, target);
        let (renamed, result) = files.perform(step);
        assert!(!renamed);
        assert_eq!(result.unwrap_err().to_string(), words);
    }
}

#[test]
fn unsupported_platforms_rename_nothing() {
    let (mut files, _, _, _) = uploads();
    let platform = || Platform::Unsupported("plan9".to_string());
    let step = rename_without_overwrite(platform(), "uploads", "uploads/a", "uploads/b");
    let (renamed, result) = files.perform(step);
    assert!(!renamed);
    assert!(matches!(result, Err(AppError::UnsupportedPlatform(name)) if name == "plan9"));

    let step = rename_without_overwrite(platform(), "uploads", "uploads/a", "uploads//a/.");
    assert!(matches!(files.perform(step), (false, Ok(()))));
}

#[test]
fn files_move_between_directories() {
    let (mut files, root, bucket, _) = uploads();
    let deep = files.directory(bucket, "deep");
    let step = rename_without_overwrite(
        Platform::Linux,
        "uploads",
        "uploads/bucket/source.txt",
        "uploads/./bucket/deep/moved.txt",
    );
    assert!(matches!(files.perform(step), (true, Ok(()))));
    assert_eq!(files.read(deep, "moved.txt"), Some("original"));
    assert!(files.entry(root, "moved.txt").is_err());
}

#[test]
fn undoing_an_applied_plan_gives_every_name_back() {
    let (mut files, _, bucket, _) = uploads();
    files.file(bucket, "second.txt", "second");
    let entries = vec![
        entry("uploads/bucket/source.txt", "uploads/bucket/moved.txt"),
        entry("uploads/bucket/second.txt", "uploads/bucket/source.txt"),
    ];
    let pairs = vec![
        pair("uploads/bucket/source.txt", "uploads/bucket/moved.txt"),
        pair("uploads/bucket/second.txt", "uploads/bucket/source.txt"),
    ];

    files.apply(apply_normalization(Platform::Linux, "uploads", entries)).unwrap();
    assert_eq!(files.read(bucket, "moved.txt"), Some("original"));
    assert_eq!(files.read(bucket, "source.txt"), Some("second"));

    let errors = files.restore(rollback_normalization(Platform::Linux, "uploads", pairs));
    assert!(errors.is_empty());
    assert_eq!(files.read(bucket, "source.txt"), Some("original"));
    assert_eq!(files.read(bucket, "second.txt"), Some("second"));
    assert_eq!(files.read(bucket, "moved.txt"), None);
}

#[test]
fn an_applied_plan_gives_every_file_its_target() {
    let (mut files, _, bucket, _) = uploads();
    files.file(bucket, "second.txt", "second");
    files.file(bucket, "other.txt", "other");
    let entries = vec![
        entry("uploads/bucket/source.txt", "uploads/bucket/first.txt"),
        entry("uploads/bucket/other.txt", "uploads/bucket/other.txt"),
        entry("uploads/bucket/second.txt", "uploads/bucket/third.txt"),
    ];

    files.apply(apply_normalization(Platform::Linux, "uploads", entries)).unwrap();

    assert_eq!(files.read(bucket, "first.txt"), Some("original"));
    assert_eq!(files.read(bucket, "third.txt"), Some("second"));
    assert_eq!(files.read(bucket, "other.txt"), Some("other"));
    assert_eq!(files.read(bucket, "source.txt"), None);
    assert_eq!(files.read(bucket, "second.txt"), None);
}
