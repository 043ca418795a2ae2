use task_googlecloud::atomic_rename::{DirectoryIdentity, Platform};
use task_googlecloud::cloud::{
    collect_output, format_status, poll_child, ChildDecision, CloudCommand, CommandOutput,
    LoginStep, SSH_COMMAND_TIMEOUT_MILLISECONDS,
};
use task_googlecloud::error::{IoError, IoErrorKind};
use task_googlecloud::local::LocalPath;
use task_googlecloud::upload_discovery::{
    EntryKind, ObservedDirectory, RootEntry, UploadObservation,
};
use task_googlecloud::workflow::{CommandStage, RunStep};
use task_googlecloud::{run, shell_quote, AppError, Cloud, Command, InterruptFlag};

use std::sync::atomic::{AtomicBool, Ordering};
use std::sync::Arc;

fn printed(stdout: &str) -> Result<CommandOutput, AppError> {
    Ok(CommandOutput {
        success: true,
        code: Some(0),
        stdout: stdout.as_bytes().to_vec(),
        stderr: Vec::new(),
    })
}

fn failed(code: Option<i32>, stderr: &[u8]) -> Result<CommandOutput, AppError> {
    Ok(CommandOutput {
        success: false,
        code,
        stdout: b"ignored".to_vec(),
        stderr: stderr.to_vec(),
    })
}

fn remote_command(command: &CloudCommand) -> &str {
    command.arguments.last().unwrap()
}

fn empty_root() -> UploadObservation {
    let identity = DirectoryIdentity { device: 1, inode: 2 };
    UploadObservation {
        root: LocalPath { bytes: b"uploads".to_vec(), shown: "\"uploads\"".to_string() },
        before: Ok(RootEntry { kind: EntryKind::Directory, identity }),
        directories: Ok(Vec::new()),
        after: Ok(RootEntry { kind: EntryKind::Directory, identity }),
    }
}

/// Runs a command to its work, as if everything succeeded and an account were
/// configured, and lists what was done on the way.
fn steps_of(command: Command) -> Vec<String> {
    let mut seen = Vec::new();
    let mut step = run(command, Cloud::new(), Platform::Linux);
    loop {
        step = match step {
            RunStep::Discover(awaiting) => {
                seen.push("discover".to_string());
                awaiting.resume(empty_root())
            }
            RunStep::SetUploadRoot(awaiting, identity) => {
                seen.push(format!("root {}", identity.is_some()));
                awaiting.resume(Ok(()))
            }
            RunStep::RunCommand(awaiting, command) => {
                seen.push(remote_command(&command).to_string());
                awaiting.resume(printed("someone@example.com\n"))
            }
            RunStep::Report(awaiting, line) => {
                seen.push(line);
                awaiting.resume()
            }
            RunStep::Normalize { bucket } => {
                seen.push(format!("normalize {bucket}"));
                return seen;
            }
            RunStep::Upload(work) => {
                seen.push(format!("lock {:?}", work.buckets));
                return seen;
            }
            RunStep::Done(result) => {
                seen.push(format!("done {}", result.is_ok()));
                return seen;
            }
        }
    }
}

fn commands() -> [(&'static str, Command); 2] {
    [
        (
            "normalize",
            Command::Normalize { project: "my-project".to_string(), bucket: "bucket".to_string() },
        ),
        ("upload", Command::Upload { project: "my-project".to_string() }),
    ]
}

#[test]
fn shell_quotes_project_names_as_one_remote_argument() {
    assert_eq!(
        shell_quote("project;$(touch pwned)"),
        "'project;$(touch pwned)'"
    );
}

#[test]
fn shell_quotes_escape_single_quotes() {
    assert_eq!(shell_quote(""), "''");
    assert_eq!(shell_quote("it's"), "'it'\\''s'");
    assert_eq!(shell_quote("''"), "''\\'''\\'''");
    assert_eq!(shell_quote("é \\ \"$x\""), "'é \\ \"$x\"'");
}

#[test]
fn ssh_options_require_key_authentication_and_host_verification() {
    let args = Cloud::new().ssh_arguments("gcloud auth login");
    assert!(args.contains(&"StrictHostKeyChecking=yes".to_string()));
    assert!(args.contains(&"UserKnownHostsFile=/run/googlecloud-ssh/known_hosts".to_string()));
    assert!(args.contains(&"ServerAliveInterval=5".to_string()));
    assert!(args.contains(&"ServerAliveCountMax=3".to_string()));
    assert!(args.contains(&"cloud@googlecloud".to_string()));
    assert!(!args.contains(&"root@googlecloud".to_string()));
}

#[test]
fn ssh_arguments_end_with_the_host_and_the_command() {
    let args = Cloud::new().ssh_arguments("gcloud auth login");
    assert_eq!(args.len(), 20);
    assert_eq!(args[0], "-i");
    assert_eq!(args[1], "/run/googlecloud-ssh/client_key");
    assert_eq!(args[18], "cloud@googlecloud");
    assert_eq!(args[19], "gcloud auth login");
}

#[test]
fn configures_the_requested_project_before_authentication() {
    for (workflow, command) in commands() {
        let steps = steps_of(command);
        let project_position = steps
            .iter()
            .position(|step| step == "sh -s -- 'my-project'")
            .unwrap_or_else(|| panic!("{workflow} must set the requested project"));
        let login_position = steps
            .iter()
            .position(|step| step == "gcloud config get account")
            .unwrap_or_else(|| panic!("{workflow} must authenticate"));

        assert!(
            project_position < login_position,
            "{workflow} must configure the project before authentication"
        );
    }
}

#[test]
fn reports_the_upload_project_before_acquiring_bucket_locks() {
    let steps = steps_of(Command::Upload { project: "my-project".to_string() });
    let login_position =
        steps.iter().position(|step| step == "gcloud config get account").unwrap();
    let log_position = steps
        .iter()
        .position(|step| step == "Using Google Cloud project [my-project].")
        .expect("upload must report the configured project");
    let lock_position = steps
        .iter()
        .position(|step| step.starts_with("lock"))
        .expect("upload must acquire bucket locks");

    assert!(
        login_position < log_position && log_position < lock_position,
        "upload must report the project after authentication and before remote processing"
    );
}

#[test]
fn workflows_take_these_steps() {
    let [(_, normalize), (_, upload)] = commands();
    assert_eq!(
        steps_of(normalize),
        vec!["sh -s -- 'my-project'", "gcloud config get account", "normalize bucket"]
    );
    assert_eq!(
        steps_of(upload),
        vec![
            "discover",
            "root true",
            "sh -s -- 'my-project'",
            "gcloud config get account",
            "Using Google Cloud project [my-project].",
            "lock []",
        ]
    );
}

#[test]
fn a_project_that_cannot_be_selected_ends_the_workflow() {
    let [(_, command), _] = commands();
    let RunStep::RunCommand(awaiting, command) = run(command, Cloud::new(), Platform::Linux) else {
        panic!("the project is selected first");
    };
    assert_eq!(awaiting.stage, CommandStage::Project);
    assert_eq!(command.operation, "Cloud script");
    assert!(!command.interactive);
    assert_eq!(
        command.input,
        Some(b"set -eu\ngcloud config set project \"$1\"\n".to_vec())
    );

    let RunStep::Done(Err(error)) = awaiting.resume(failed(Some(1), b" no such project \n")) else {
        panic!("nothing follows");
    };
    assert_eq!(
        error.to_string(),
        "Cloud command failed: Cloud script (exit status: 1): no such project"
    );
}

#[test]
fn logs_in_where_no_account_is_configured() {
    let cloud = Cloud::new();
    for account in ["", " \n", "(unset)", "\t(unset)\n"] {
        let LoginStep::LogIn(command) = cloud.continue_login(printed(account)) else {
            panic!("{account:?} is no account");
        };
        assert!(command.interactive);
        assert_eq!(command.operation, "gcloud auth login");
        assert_eq!(remote_command(&command), "gcloud auth login");
        assert!(command.input.is_none());
    }
    assert!(matches!(
        cloud.continue_login(printed("someone@example.com\n")),
        LoginStep::Done(Ok(()))
    ));
    assert!(matches!(
        cloud.continue_login(Err(AppError::Interrupted)),
        LoginStep::Done(Err(AppError::Interrupted))
    ));
}

#[test]
fn a_login_in_a_workflow_is_awaited() {
    let [(_, command), _] = commands();
    let RunStep::RunCommand(project, _) = run(command, Cloud::new(), Platform::Linux) else {
        panic!("the project is selected first");
    };
    let RunStep::RunCommand(account, asked) = project.resume(printed("")) else {
        panic!("the account is asked for next");
    };
    assert_eq!(account.stage, CommandStage::Account);
    assert_eq!(asked.operation, "Cloud command");
    let RunStep::RunCommand(login, command) = account.resume(printed("(unset)\n")) else {
        panic!("a login follows");
    };
    assert_eq!(login.stage, CommandStage::Login);
    assert!(command.interactive);
    assert!(matches!(
        login.resume(printed("")),
        RunStep::Normalize { bucket } if bucket == "bucket"
    ));
}

#[test]
fn a_failed_login_tells_its_exit_status() {
    let cloud = Cloud::new();
    assert!(cloud.finish_login(printed("")).is_ok());
    assert_eq!(
        cloud.finish_login(failed(Some(7), b"shown already")).unwrap_err().to_string(),
        "Cloud command failed: gcloud auth login (exit status: 7)"
    );
    assert_eq!(
        cloud.finish_login(failed(None, b"")).unwrap_err().to_string(),
        "Cloud command failed: gcloud auth login (exit status: unknown)"
    );
}

#[test]
fn access_tokens_are_trimmed() {
    let cloud = Cloud::default();
    let command = cloud.access_token();
    assert_eq!(remote_command(&command), "gcloud auth print-access-token");
    assert_eq!(command.operation, "Cloud command");
    assert!(command.input.is_none());
    assert_eq!(cloud.finish_access_token(printed("\u{2003} token \n\n")).unwrap(), "token");
    assert_eq!(cloud.finish_access_token(printed("")).unwrap(), "");
}

#[test]
fn output_that_is_no_text_is_reported() {
    let cloud = Cloud::new();
    let output = CommandOutput {
        success: true,
        code: Some(0),
        stdout: vec![b'a', 0xff, b'b'],
        stderr: Vec::new(),
    };
    assert_eq!(
        cloud.finish_access_token(Ok(output)).unwrap_err().to_string(),
        "Cloud command returned invalid UTF-8: invalid utf-8 sequence of 1 bytes from index 1"
    );
}

#[test]
fn error_output_that_is_no_text_is_shown_as_far_as_possible() {
    let error = Cloud::new().finish_set_project(failed(Some(-1), b"a\xffb\n")).unwrap_err();
    assert_eq!(
        error.to_string(),
        "Cloud command failed: Cloud script (exit status: -1): a\u{fffd}b"
    );
    let error = Cloud::new().finish_set_project(failed(Some(2), b" \n")).unwrap_err();
    assert_eq!(error.to_string(), "Cloud command failed: Cloud script (exit status: 2)");
}

#[test]
fn exit_statuses_are_shown_in_decimal() {
    assert_eq!(format_status(None), "unknown");
    assert_eq!(format_status(Some(0)), "0");
    assert_eq!(format_status(Some(255)), "255");
    assert_eq!(format_status(Some(i32::MIN)), "-2147483648");
    assert_eq!(format_status(Some(i32::MAX)), "2147483647");
}

#[test]
fn an_exit_counts_before_an_interrupt_and_an_interrupt_before_the_time() {
    assert!(matches!(poll_child("test command", true, true, 9, 5), ChildDecision::Finish));
    assert!(matches!(
        poll_child("test command", false, true, 9, 5),
        ChildDecision::Stop(AppError::Interrupted)
    ));
    assert!(matches!(
        poll_child("test command", false, false, 5, 5),
        ChildDecision::Stop(AppError::Message(message))
            if message == "test command timed out after 0 seconds"
    ));
    assert!(matches!(poll_child("test command", false, false, 4, 5), ChildDecision::Wait));
    assert!(matches!(
        poll_child(
            "Cloud command",
            false,
            false,
            SSH_COMMAND_TIMEOUT_MILLISECONDS,
            SSH_COMMAND_TIMEOUT_MILLISECONDS
        ),
        ChildDecision::Stop(AppError::Message(message))
            if message == "Cloud command timed out after 300 seconds"
    ));
}

#[test]
fn failures_of_pipes_are_told_in_order() {
    let broken = || AppError::Io(IoError::new(IoErrorKind::BrokenPipe, "closed"));
    let other = || AppError::Message("reader".to_string());
    let output =
        collect_output(true, Some(0), Ok(()), Ok(b"out".to_vec()), Ok(b"err".to_vec())).unwrap();
    assert_eq!(output.stdout, b"out");
    assert_eq!(output.stderr, b"err");
    assert!(output.success);
    assert!(matches!(
        collect_output(true, Some(0), Err(broken()), Err(other()), Err(other())),
        Err(AppError::Io(_))
    ));
    assert!(matches!(
        collect_output(true, Some(0), Ok(()), Err(broken()), Err(other())),
        Err(AppError::Io(_))
    ));
    assert!(matches!(
        collect_output(true, Some(0), Ok(()), Ok(Vec::new()), Err(broken())),
        Err(AppError::Io(_))
    ));
}

#[test]
fn a_cloud_shares_its_interrupt_flag() {
    let cell = Arc::new(AtomicBool::new(false));
    let cloud = Cloud::with_interrupt(InterruptFlag::from_atomic(Arc::clone(&cell)));
    let copy = cloud.clone();
    cell.store(true, Ordering::Relaxed);
    assert!(copy.interrupt().unwrap().is_interrupted());
    assert!(Cloud::new().interrupt().is_none());
}

#[test]
fn a_failed_discovery_ends_an_upload() {
    let [_, (_, command)] = commands();
    let RunStep::Discover(awaiting) = run(command.clone(), Cloud::new(), Platform::Linux) else {
        panic!("an upload begins with its files");
    };
    let mut observation = empty_root();
    observation.before = Err(IoError::new(IoErrorKind::Other, "denied"));
    assert!(matches!(awaiting.resume(observation), RunStep::Done(Err(AppError::Io(_)))));

    let RunStep::Discover(awaiting) = run(command, Cloud::new(), Platform::Linux) else {
        panic!("an upload begins with its files");
    };
    let mut observation = empty_root();
    observation.directories = Ok(vec![Ok(ObservedDirectory {
        path: LocalPath {
            bytes: b"uploads/\xff".to_vec(),
            shown: "\"uploads/\\xFF\"".to_string(),
        },
        kind: Ok(EntryKind::Directory),
        files: Ok(Vec::new()),
    })]);
    let RunStep::SetUploadRoot(awaiting, _) = awaiting.resume(observation) else {
        panic!("the root is set next");
    };
    let RunStep::Done(Err(error)) = awaiting.resume(Ok(())) else {
        panic!("a directory must name a bucket");
    };
    assert_eq!(error.to_string(), "Directory is not valid UTF-8: \"uploads/\\xFF\"");
}
