//! What becomes of a command from its beginning to its work.
use vstd::prelude::*;

use crate::atomic_rename::Platform;
use crate::cloud;
use crate::cloud::Cloud;
use crate::cloud::CloudCommand;
use crate::cloud::CommandOutput;
use crate::cloud::LoginStep;
use crate::cloud_laws;
use crate::discovery_laws;
use crate::error::AppError;
use crate::local::Normalization;
use crate::local::Restoration;
use crate::text;
use crate::upload;
use crate::upload::UploadPlan;
use crate::upload_discovery;
use crate::upload_discovery::UploadDiscovery;
use crate::upload_discovery::UploadObservation;
use crate::uploading_laws;
use crate::workflow;
use crate::workflow::AwaitingCommand;
use crate::workflow::AwaitingDiscovery;
use crate::workflow::AwaitingUploadRoot;
use crate::workflow::AwaitingUploads;
use crate::workflow::Command;
use crate::workflow::CommandStage;
use crate::workflow::RunStep;
use crate::workflow::UploadStep;
use crate::workflow::UploadWork;
use crate::workflow::Work;
use crate::workflow::Workflow;
use crate::workflow_laws;
use crate::workflow_laws::RunEvent;

verus! {

/// The command succeeded, and what it printed is text.
pub open spec fn succeeded(output: Result<CommandOutput, AppError>) -> bool {
    output matches Ok(output) && output.success && vstd::utf8::valid_utf8(output.stdout@)
}

/// The command printed an account.
pub open spec fn shows_account(output: Result<CommandOutput, AppError>) -> bool {
    exists|before: Seq<char>, inner: Seq<char>, behind: Seq<char>|
        {
            &&& #[trigger] cloud_laws::is_framed(before, inner, behind)
            &&& cloud_laws::printed(output, before + inner + behind)
            &&& inner != "(unset)"@
        }
}

/// The command printed white space alone, or the word for a missing account.
pub open spec fn shows_no_account(output: Result<CommandOutput, AppError>) -> bool {
    exists|before: Seq<char>, inner: Seq<char>, behind: Seq<char>|
        {
            &&& #[trigger] cloud_laws::is_framed(before, inner, behind)
            &&& {
                ||| cloud_laws::printed(output, before)
                ||| inner == "(unset)"@ && cloud_laws::printed(output, before + inner + behind)
            }
        }
}

/// The remote command that is run.
pub open spec fn runs(command: CloudCommand, remote_command: Seq<char>) -> bool {
    command.arguments@.len() > 0 && command.arguments@.last()@ == remote_command
}

/// The work of the workflow begins: a bucket is normalized, or the upload reports its
/// project.
pub open spec fn begins_work(workflow: Workflow, step: RunStep) -> bool {
    match workflow.work {
        Work::Normalize { bucket } => step == (RunStep::Normalize { bucket }),
        Work::Upload(work) => {
            &&& step matches RunStep::Report(awaiting, line)
            &&& awaiting.work == work
            &&& line@ == "Using Google Cloud project ["@ + workflow.project@ + "]."@
        },
    }
}

/// After the selection of the project the account is asked for. The work begins where an
/// account is configured, or after a login that succeeds, and a failure of any of the
/// commands ends the workflow.
pub proof fn the_work_begins_with_an_account(
    awaiting: AwaitingCommand,
    output: Result<CommandOutput, AppError>,
    step: RunStep,
)
    requires
        awaiting.continues(output, step),
    ensures
        match awaiting.stage {
            CommandStage::Project => {
                &&& succeeded(output) ==> {
                    &&& step matches RunStep::RunCommand(next, command)
                    &&& next.workflow == awaiting.workflow
                    &&& next.stage == CommandStage::Account
                    &&& runs(command, "gcloud config get account"@)
                }
                &&& !succeeded(output) ==> (step matches RunStep::Done(done) && done is Err)
            },
            CommandStage::Account => {
                &&& shows_account(output) ==> begins_work(awaiting.workflow, step)
                &&& shows_no_account(output) ==> {
                    &&& step matches RunStep::RunCommand(next, command)
                    &&& next.workflow == awaiting.workflow
                    &&& next.stage == CommandStage::Login
                    &&& command.interactive
                    &&& runs(command, "gcloud auth login"@)
                }
                &&& !succeeded(output) ==> (step matches RunStep::Done(done) && done is Err)
            },
            CommandStage::Login => {
                &&& (output matches Ok(output) && output.success) ==> begins_work(
                    awaiting.workflow,
                    step,
                )
                &&& !(output matches Ok(output) && output.success) ==> (step matches RunStep::Done(
                    done,
                ) && done is Err)
            },
        },
        output matches Err(error) ==> step == RunStep::Done(Err(error)),
{
    match awaiting.stage {
        CommandStage::Project => {
            let done = choose|done: Result<(), AppError>|
                {
                    &&& #[trigger] cloud::project_selected(output, done)
                    &&& match done {
                        Err(error) => step == RunStep::Done(Err(error)),
                        Ok(_) => {
                            &&& step matches RunStep::RunCommand(next, command)
                            &&& next == (AwaitingCommand {
                                workflow: awaiting.workflow,
                                stage: CommandStage::Account,
                            })
                            &&& cloud::asks_for_account(command)
                        },
                    }
                };
            cloud_laws::a_project_is_selected_where_its_script_succeeds(output, done);
            if let RunStep::RunCommand(_, command) = step {
                let views = text::views(command.arguments@);
                assert(views == cloud::ssh_arguments_for("gcloud config get account"@));
                assert(views.last() == command.arguments@.last()@);
            }
        },
        CommandStage::Account => {
            let login = choose|login: LoginStep|
                {
                    &&& #[trigger] cloud::account_found(output, login)
                    &&& match login {
                        LoginStep::Done(Err(error)) => step == RunStep::Done(Err(error)),
                        LoginStep::Done(Ok(_)) => awaiting.workflow.begins_work(step),
                        LoginStep::LogIn(command) => step == RunStep::RunCommand(
                            AwaitingCommand {
                                workflow: awaiting.workflow,
                                stage: CommandStage::Login,
                            },
                            command,
                        ),
                    }
                };
            an_account_decides(output, login);
        },
        CommandStage::Login => {
            let done = choose|done: Result<(), AppError>|
                {
                    &&& #[trigger] cloud::logged_in(output, done)
                    &&& match done {
                        Err(error) => step == RunStep::Done(Err(error)),
                        Ok(_) => awaiting.workflow.begins_work(step),
                    }
                };
            cloud_laws::a_login_succeeds_with_its_command(output, done);
        },
    }
}

proof fn an_account_decides(output: Result<CommandOutput, AppError>, login: LoginStep)
    requires
        cloud::account_found(output, login),
    ensures
        shows_account(output) ==> (login matches LoginStep::Done(done) && done is Ok),
        shows_no_account(output) ==> (login matches LoginStep::LogIn(command) && command.interactive
            && runs(command, "gcloud auth login"@)),
        !succeeded(output) ==> (login matches LoginStep::Done(done) && done is Err),
        output matches Err(error) ==> login == LoginStep::Done(Err(error)),
{
    if shows_account(output) {
        let (before, inner, behind) = choose|before: Seq<char>, inner: Seq<char>, behind: Seq<char>|
            {
                &&& #[trigger] cloud_laws::is_framed(before, inner, behind)
                &&& cloud_laws::printed(output, before + inner + behind)
                &&& inner != "(unset)"@
            };
        cloud_laws::a_login_is_needed_without_an_account(output, login, before, inner, behind);
    }
    if shows_no_account(output) {
        let (before, inner, behind) = choose|before: Seq<char>, inner: Seq<char>, behind: Seq<char>|
            {
                &&& #[trigger] cloud_laws::is_framed(before, inner, behind)
                &&& {
                    ||| cloud_laws::printed(output, before)
                    ||| inner == "(unset)"@ && cloud_laws::printed(output, before + inner + behind)
                }
            };
        cloud_laws::a_login_is_needed_without_an_account(output, login, before, inner, behind);
    }
    let result = choose|result: Result<Seq<char>, AppError>|
        {
            &&& #[trigger] cloud::text_of_output("Cloud command"@, output, result)
            &&& match result {
                Err(error) => login == LoginStep::Done(Err(error)),
                Ok(name) => if cloud::no_account(name) {
                    login matches LoginStep::LogIn(command) && cloud::logs_in(command)
                } else {
                    login matches LoginStep::Done(outcome) && outcome is Ok
                },
            }
        };
    cloud_laws::a_command_gives_what_it_printed("Cloud command"@, output, result);
    if let LoginStep::LogIn(command) = login {
        let views = text::views(command.arguments@);
        assert(views == cloud::ssh_arguments_for("gcloud auth login"@));
        assert(views.last() == command.arguments@.last()@);
        assert(views.len() == command.arguments@.len());
    }
}

/// A normalization whose project is selected, with an account, normalizes the bucket that
/// the command names.
pub proof fn a_normalization_comes_to_its_bucket(
    project: String,
    bucket: String,
    cloud: Cloud,
    platform: Platform,
    steps: Seq<RunStep>,
    events: Seq<RunEvent>,
)
    requires
        workflow_laws::is_run(
            Command::Normalize { project, bucket },
            cloud,
            platform,
            steps,
            events,
        ),
        events.len() >= 2,
        events[0] matches RunEvent::Ended(selected) && succeeded(selected),
        events[1] matches RunEvent::Ended(account) && shows_account(account),
    ensures
        steps.len() == 3,
        steps[2] == (RunStep::Normalize { bucket }),
        exists|word: Seq<char>|
            {
                &&& (steps[0]->RunCommand_1).arguments@.last()@ == "sh -s -- "@ + word
                &&& #[trigger] cloud::shell_reads(word, false) == Some(project@)
            },
{
    assert(workflow_laws::leads_to(steps[0], events[0], steps[1]));
    assert(workflow_laws::leads_to(steps[1], events[1], steps[2]));
    cloud_laws::the_project_is_handed_over_as_one_word(steps[0]->RunCommand_1, project@);
    the_work_begins_with_an_account(steps[0]->RunCommand_0, events[0]->Ended_0, steps[1]);
    the_work_begins_with_an_account(steps[1]->RunCommand_0, events[1]->Ended_0, steps[2]);
    if events.len() > 2 {
        assert(workflow_laws::leads_to(steps[2], events[2], steps[3]));
    }
}

/// Where everything below the upload root can be read, the upload goes on with what was
/// discovered, and lets the storage accept sources from that root alone.
pub proof fn an_upload_goes_on_with_what_is_discovered(
    awaiting: AwaitingDiscovery,
    observation: UploadObservation,
    step: RunStep,
)
    requires
        awaiting.continues(observation, step),
        discovery_laws::all_read(observation),
        observation.after == observation.before,
    ensures
        ({
            &&& step matches RunStep::SetUploadRoot(next, identity)
            &&& identity == Some(observation.before->Ok_0.identity)
            &&& next.discovery.root_identity == identity
            &&& next.project == awaiting.project
            &&& next.platform == awaiting.platform
            &&& discovery_laws::lists_all(
                discovery_laws::buckets_of(observation.directories->Ok_0@),
                next.discovery.files_by_directory@,
            )
        }),
{
    let discovery = choose|discovery: Result<UploadDiscovery, AppError>|
        {
            &&& #[trigger] upload_discovery::discovers(observation, discovery)
            &&& match discovery {
                Err(error) => step == RunStep::Done(Err(error)),
                Ok(discovery) => step == RunStep::SetUploadRoot(
                    AwaitingUploadRoot {
                        cloud: awaiting.cloud,
                        platform: awaiting.platform,
                        project: awaiting.project,
                        discovery,
                    },
                    discovery.root_identity,
                ),
            }
        };
    discovery_laws::every_visible_file_is_discovered(observation, discovery);
}

/// The upload of what was discovered: to the buckets that the directories are named
/// after, under the discovered root.
pub open spec fn is_upload_of(work: UploadWork, discovery: UploadDiscovery) -> bool {
    &&& work.directories == discovery.files_by_directory
    &&& work.root_identity == discovery.root_identity
    &&& work.buckets@.len() == discovery.files_by_directory@.len()
    &&& forall|d: int|
        0 <= d < work.buckets@.len() ==> uploading_laws::ends_in_bucket(
            discovery.files_by_directory@[d].0@,
            (#[trigger] work.buckets@[d])@,
        )
}

/// Once the root is set, the project is selected for the upload of what was discovered,
/// provided that every directory is named after a bucket.
pub proof fn an_upload_selects_its_project(
    awaiting: AwaitingUploadRoot,
    set: Result<(), AppError>,
    step: RunStep,
)
    requires
        awaiting.continues(set, step),
    ensures
        set matches Err(error) ==> step == RunStep::Done(Err(error)),
        ({
            let directories = awaiting.discovery.files_by_directory@;
            let all_named = forall|d: int|
                0 <= d < directories.len() ==> uploading_laws::names_a_bucket(
                    (#[trigger] directories[d]).0@,
                );
            &&& set is Ok && all_named ==> {
                &&& step matches RunStep::RunCommand(next, command)
                &&& next.stage == CommandStage::Project
                &&& next.workflow.project == awaiting.project
                &&& next.workflow.work matches Work::Upload(work)
                &&& work.platform == awaiting.platform
                &&& is_upload_of(work, awaiting.discovery)
                &&& cloud::selects_project(command, awaiting.project@)
            }
            &&& set is Ok && !all_named ==> (step matches RunStep::Done(done) && done is Err)
        }),
{
    if set is Ok {
        let directories = awaiting.discovery.files_by_directory@;
        let names = choose|names: Result<Vec<String>, AppError>|
            {
                &&& #[trigger] upload::buckets_of_directories(
                    directories,
                    workflow::names_of(names),
                )
                &&& match names {
                    Err(error) => step == RunStep::Done(Err(error)),
                    Ok(buckets) => workflow::selects(
                        Workflow {
                            cloud: awaiting.cloud,
                            project: awaiting.project,
                            work: Work::Upload(
                                UploadWork {
                                    platform: awaiting.platform,
                                    directories: awaiting.discovery.files_by_directory,
                                    root_identity: awaiting.discovery.root_identity,
                                    buckets,
                                },
                            ),
                        },
                        step,
                    ),
                }
            };
        uploading_laws::every_directory_names_its_bucket(
            directories,
            workflow::names_of(names),
        );
        if let Ok(buckets) = names {
            let views = text::views(buckets@);
            assert forall|d: int| 0 <= d < buckets@.len() implies uploading_laws::ends_in_bucket(
                directories[d].0@,
                (#[trigger] buckets@[d])@,
            ) by {
                assert(views[d] == buckets@[d]@);
                assert(uploading_laws::ends_in_bucket(directories[d].0@, views[d]));
            }
        }
    }
}

/// What is uploaded in the end is what was discovered, through all commands in between.
pub proof fn an_upload_uploads_what_was_discovered(
    project: String,
    cloud: Cloud,
    platform: Platform,
    steps: Seq<RunStep>,
    events: Seq<RunEvent>,
    at: int,
)
    requires
        workflow_laws::is_run(Command::Upload { project }, cloud, platform, steps, events),
        0 <= at < steps.len(),
        steps[at] is Upload,
    ensures
        at >= 2,
        steps[1] is SetUploadRoot,
        is_upload_of(steps[at]->Upload_0, (steps[1]->SetUploadRoot_0).discovery),
{
    work_is_kept(project, cloud, platform, steps, events, at);
}

/// The upload that a step carries.
spec fn work_of(step: RunStep) -> Option<UploadWork> {
    match step {
        RunStep::RunCommand(awaiting, _) => match awaiting.workflow.work {
            Work::Upload(work) => Some(work),
            _ => None,
        },
        RunStep::Report(awaiting, _) => Some(awaiting.work),
        RunStep::Upload(work) => Some(work),
        _ => None,
    }
}

proof fn work_is_kept(
    project: String,
    cloud: Cloud,
    platform: Platform,
    steps: Seq<RunStep>,
    events: Seq<RunEvent>,
    at: int,
)
    requires
        workflow_laws::is_run(Command::Upload { project }, cloud, platform, steps, events),
        0 <= at < steps.len(),
    ensures
        match steps[at] {
            RunStep::Discover(_) => at == 0,
            RunStep::SetUploadRoot(..) => at == 1,
            RunStep::Normalize { .. } => false,
            RunStep::Done(_) => true,
            _ => {
                &&& at >= 2
                &&& steps[1] is SetUploadRoot
                &&& work_of(steps[at]) matches Some(work) && is_upload_of(
                    work,
                    (steps[1]->SetUploadRoot_0).discovery,
                )
            },
        },
    decreases at,
{
    if at > 0 {
        work_is_kept(project, cloud, platform, steps, events, at - 1);
        assert(workflow_laws::leads_to(steps[at - 1], events[at - 1], steps[at - 1 + 1]));
        match steps[at - 1] {
            RunStep::SetUploadRoot(awaiting, _) => {
                an_upload_selects_its_project(awaiting, events[at - 1]->RootSet_0, steps[at]);
            },
            _ => {},
        }
    }
}

/// An upload plans everything first. Where all can be planned, the files get their NFC
/// names, and otherwise nothing is done.
pub proof fn an_upload_begins_with_its_names(
    work: UploadWork,
    step: UploadStep,
)
    requires
        work.starts(step),
    ensures
        exists|prefix: Seq<char>, plan: Result<UploadPlan, AppError>|
            {
                &&& #[trigger] upload::plans_run(work.directories@, prefix, plan)
                &&& match plan {
                    Err(error) => step == UploadStep::Done(Err(error)),
                    Ok(plan) => {
                        &&& step matches UploadStep::ApplyNames(awaiting, renames)
                        &&& awaiting.uploads == plan.uploads
                        &&& awaiting.root_identity == work.root_identity
                        &&& exists|names: Normalization|
                            {
                                &&& #[trigger] names.advances(renames)
                                &&& names.entries == plan.entries
                                &&& names.next == 0
                                &&& names.renamed@.len() == 0
                                &&& names.context.root@ == "uploads"@
                                &&& names.context.expected_root == work.root_identity
                                &&& names.context.platform == work.platform
                            }
                    },
                }
            },
{
    let (prefix, plan) = choose|prefix: Seq<char>, plan: Result<UploadPlan, AppError>|
        {
            &&& upload::is_staging_prefix(prefix)
            &&& #[trigger] upload::plans_run(work.directories@, prefix, plan)
            &&& match plan {
                Err(error) => step == UploadStep::Done(Err(error)),
                Ok(plan) => work.applies_names(plan, step),
            }
        };
    assert(upload::plans_run(work.directories@, prefix, plan));
}

/// Uploads that succeed end the work. After a failure every file that got another name
/// gets its old one back, under the same root.
pub proof fn failed_uploads_give_the_names_back(
    awaiting: AwaitingUploads,
    uploaded: Result<(), AppError>,
    step: UploadStep,
)
    requires
        awaiting.continues(uploaded, step),
    ensures
        match uploaded {
            Ok(_) => step matches UploadStep::Done(done) && done is Ok,
            Err(failure) => {
                &&& step matches UploadStep::RestoreNames(next, renames)
                &&& next.failure == failure
                &&& exists|names: Restoration|
                    {
                        &&& #[trigger] names.proceeds(renames)
                        &&& names.records == awaiting.names
                        &&& names.left == awaiting.names@.len()
                        &&& names.errors@.len() == 0
                        &&& names.failure is None
                        &&& names.context.root@ == "uploads"@
                        &&& names.context.expected_root == awaiting.root_identity
                        &&& names.context.platform == awaiting.platform
                    }
            },
        },
{
}

} // verus!
