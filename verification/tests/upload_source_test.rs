use task_googlecloud::atomic_rename::{DirectoryIdentity, FileIdentity, Platform};
use task_googlecloud::error::{IoError, IoErrorKind};
use task_googlecloud::upload_source::{open, SourceStep, UploadSourceIdentity};
use task_googlecloud::AppError;

const ROOT: DirectoryIdentity = DirectoryIdentity { device: 1, inode: 10 };
const BUCKET: DirectoryIdentity = DirectoryIdentity { device: 1, inode: 11 };
const FILE: FileIdentity = FileIdentity { device: 1, inode: 12 };

/// What is found on the way to the file.
struct Surroundings {
    root: DirectoryIdentity,
    bucket: DirectoryIdentity,
    file: FileIdentity,
    regular: bool,
    /// A directory that is a link.
    linked: Option<&'static str>,
}

fn intact() -> Surroundings {
    Surroundings { root: ROOT, bucket: BUCKET, file: FILE, regular: true, linked: None }
}

fn link_error() -> IoError {
    IoError::new(IoErrorKind::Other, "Too many levels of symbolic links")
}

impl Surroundings {
    fn run(&self, mut step: SourceStep) -> (Vec<String>, Result<(), AppError>) {
        let mut opened = Vec::new();
        let mut in_bucket = false;
        loop {
            step = match step {
                SourceStep::OpenRoot(awaiting, path) => {
                    opened.push(format!("root {path}"));
                    awaiting.resume(Ok(()))
                }
                SourceStep::OpenDirectory(awaiting, name) => {
                    opened.push(format!("directory {name}"));
                    in_bucket = true;
                    let linked = self.linked == Some(name.as_str());
                    awaiting.resume(if linked { Err(link_error()) } else { Ok(()) })
                }
                SourceStep::OpenFile(awaiting, name) => {
                    opened.push(format!("file {name}"));
                    let linked = self.linked == Some(name.as_str());
                    awaiting.resume(if linked { Err(link_error()) } else { Ok(()) })
                }
                SourceStep::OpenPath(awaiting, path) => {
                    opened.push(format!("path {path}"));
                    awaiting.resume(Ok(()))
                }
                SourceStep::IdentifyDirectory(awaiting) => {
                    awaiting.resume(Ok(if in_bucket { self.bucket } else { self.root }))
                }
                SourceStep::IdentifyDirectoryAt(awaiting, path) => {
                    opened.push(format!("identify {path}"));
                    awaiting.resume(Ok(self.bucket))
                }
                SourceStep::CheckRegular(awaiting) => awaiting.resume(Ok(self.regular)),
                SourceStep::IdentifyFile(awaiting) => awaiting.resume(Ok(self.file)),
                SourceStep::Done(result) => return (opened, result),
            };
        }
    }
}

fn expected() -> Option<UploadSourceIdentity> {
    Some(UploadSourceIdentity { file: FILE, directory: BUCKET })
}

fn below_root(source: &str) -> SourceStep {
    open(Platform::Linux, Some("uploads"), source, Some(ROOT), expected())
}

fn rejection(result: Result<(), AppError>) -> String {
    match result {
        Err(AppError::UploadSource(error)) => {
            assert_eq!(error.kind, IoErrorKind::InvalidInput);
            error.message
        }
        other => panic!("not rejected: {other:?}"),
    }
}

#[test]
fn opens_a_discovered_file_one_directory_at_a_time() {
    let (opened, result) = intact().run(below_root("uploads/bucket/file.txt"));
    result.unwrap();
    assert_eq!(opened, vec!["root uploads", "directory bucket", "file file.txt"]);
}

#[test]
fn opens_a_file_without_expectations() {
    let step = open(Platform::Linux, Some("uploads"), "uploads/./a/b", None, None);
    let (opened, result) = intact().run(step);
    result.unwrap();
    assert_eq!(opened, vec!["root uploads", "directory a", "file b"]);
}

#[test]
fn refuses_upload_sources_through_parent_symlinks() {
    for linked in ["bucket", "file.txt"] {
        let surroundings = Surroundings { linked: Some(linked), ..intact() };
        let (_, result) = surroundings.run(below_root("uploads/bucket/file.txt"));
        assert!(matches!(
            result,
            Err(AppError::UploadSource(error)) if error.message == link_error().message
        ));
    }
}

#[test]
fn refuses_upload_sources_after_upload_root_is_replaced() {
    let other = DirectoryIdentity { device: 1, inode: 99 };
    let surroundings = Surroundings { root: other, ..intact() };
    let (opened, result) = surroundings.run(below_root("uploads/bucket/file.txt"));
    assert_eq!(rejection(result), "upload root was replaced before opening: \"uploads\"");
    assert_eq!(opened, vec!["root uploads"]);
}

#[test]
fn refuses_upload_sources_after_a_file_or_bucket_is_replaced() {
    let surroundings =
        Surroundings { bucket: DirectoryIdentity { device: 2, inode: 11 }, ..intact() };
    let (opened, result) = surroundings.run(below_root("uploads/bucket/file.txt"));
    assert_eq!(
        rejection(result),
        "upload source directory was replaced before opening: \"bucket/file.txt\""
    );
    assert_eq!(opened, vec!["root uploads", "directory bucket"]);

    let surroundings = Surroundings { file: FileIdentity { device: 1, inode: 13 }, ..intact() };
    let (_, result) = surroundings.run(below_root("uploads/bucket/file.txt"));
    assert_eq!(
        rejection(result),
        "upload source was replaced before opening: \"bucket/file.txt\""
    );
}

#[test]
fn refuses_what_is_no_regular_file() {
    let surroundings = Surroundings { regular: false, ..intact() };
    let (_, result) = surroundings.run(below_root("uploads/bucket/fifo"));
    assert_eq!(rejection(result), "not a regular file: \"bucket/fifo\"");
    let (_, result) = intact().run(below_root("uploads"));
    assert_eq!(rejection(result), "not a regular file: \"\"");
}

#[test]
fn refuses_to_leave_the_upload_root() {
    let (opened, result) = intact().run(below_root("elsewhere/file"));
    assert_eq!(rejection(result), "outside \"uploads\": \"elsewhere/file\"");
    assert!(opened.is_empty());
    let (opened, result) = intact().run(below_root("uploads/../file"));
    assert_eq!(rejection(result), "contains a parent path component: \"../file\"");
    assert_eq!(opened, vec!["root uploads"]);
    let (_, result) = intact().run(below_root("uploads/bucket/a\0b"));
    assert_eq!(rejection(result), "path contains NUL: \"a\\0b\"");
}

#[test]
fn opens_a_path_that_is_not_below_an_upload_root() {
    let step = |source| open(Platform::Linux, None, source, None, expected());
    let (opened, result) = intact().run(step("dir/file"));
    result.unwrap();
    assert_eq!(opened, vec!["path dir/file", "identify dir"]);

    let surroundings =
        Surroundings { bucket: DirectoryIdentity { device: 2, inode: 11 }, ..intact() };
    let (_, result) = surroundings.run(step("dir/file"));
    assert_eq!(rejection(result), "upload source was replaced before opening: \"dir/file\"");

    let surroundings = Surroundings { regular: false, ..intact() };
    let (_, result) = surroundings.run(step("dir/file"));
    assert_eq!(rejection(result), "not a regular file: \"dir/file\"");

    let (_, result) = intact().run(step("/"));
    assert_eq!(rejection(result), "source has no parent: \"/\"");
}

#[test]
fn identities_need_a_platform_that_has_them() {
    let platform = || Platform::Unsupported("plan9".to_string());
    let (opened, result) = intact().run(open(platform(), None, "file", Some(ROOT), None));
    assert!(matches!(result, Err(AppError::UnsupportedPlatform(name)) if name == "plan9"));
    assert!(opened.is_empty());
    let (_, result) = intact().run(open(platform(), None, "file", None, None));
    result.unwrap();
}
