//! The two workflows, step by step.
//!
//! Each selects the project before it authenticates, so that the account is
//! asked for in the right project, and touches Cloud Storage only afterwards.
use vstd::prelude::*;

use crate::atomic_rename::DirectoryIdentity;
use crate::atomic_rename::Platform;
use crate::cloud;
use crate::cloud::Cloud;
use crate::cloud::CloudCommand;
use crate::cloud::CommandOutput;
use crate::cloud::LoginStep;
use crate::error::AppError;
use crate::local;
use crate::local::LocalPath;
use crate::local::LocalStep;
use crate::local::Normalization;
use crate::local::RenameContext;
use crate::local::Restoration;
use crate::text;
use crate::upload;
use crate::upload::PlannedUpload;
use crate::upload::UploadPlan;
use crate::upload::UPLOAD_ROOT;
use crate::upload_discovery;
use crate::upload_discovery::UploadDiscovery;
use crate::upload_discovery::UploadObservation;

verus! {

/// What the program is asked to do.
#[derive(Debug)]
pub enum Command {
    Normalize { project: String, bucket: String },
    Upload { project: String },
}

impl Clone for Command {
    fn clone(&self) -> (copy: Self)
        ensures
            copy == *self,
    {
        match self {
            Command::Normalize { project, bucket } => Command::Normalize {
                project: project.clone(),
                bucket: bucket.clone(),
            },
            Command::Upload { project } => Command::Upload { project: project.clone() },
        }
    }
}

/// The files to upload, and the directory that they were found in.
#[derive(Debug)]
pub struct UploadWork {
    pub platform: Platform,
    pub directories: Vec<(LocalPath, Vec<LocalPath>)>,
    pub root_identity: Option<DirectoryIdentity>,
    /// The buckets that must be locked.
    pub buckets: Vec<String>,
}

/// What is done once an account is authenticated.
#[derive(Debug)]
pub enum Work {
    Normalize { bucket: String },
    Upload(UploadWork),
}

/// A workflow before its account is authenticated.
#[derive(Debug)]
pub struct Workflow {
    pub cloud: Cloud,
    pub project: String,
    pub work: Work,
}

/// The upload root is being read.
#[derive(Debug)]
pub struct AwaitingDiscovery {
    pub cloud: Cloud,
    pub platform: Platform,
    pub project: String,
}

/// The identity of the upload root is being handed to the storage.
#[derive(Debug)]
pub struct AwaitingUploadRoot {
    pub cloud: Cloud,
    pub platform: Platform,
    pub project: String,
    pub discovery: UploadDiscovery,
}

#[derive(Debug, Clone, Copy, PartialEq, Eq, Structural)]
pub enum CommandStage {
    Project,
    Account,
    Login,
}

/// A Cloud SDK command is being run.
#[derive(Debug)]
pub struct AwaitingCommand {
    pub workflow: Workflow,
    pub stage: CommandStage,
}

/// A line is being printed.
#[derive(Debug)]
pub struct AwaitingReport {
    pub work: UploadWork,
}

/// What is to be done next.
#[derive(Debug)]
pub enum RunStep {
    /// Read the upload root.
    Discover(AwaitingDiscovery),
    /// Let the storage accept sources from this directory only.
    SetUploadRoot(AwaitingUploadRoot, Option<DirectoryIdentity>),
    RunCommand(AwaitingCommand, CloudCommand),
    /// Print the line.
    Report(AwaitingReport, String),
    /// Normalize the bucket: its result is the workflow's.
    Normalize { bucket: String },
    /// Upload while the buckets of the work are locked: the result is the
    /// workflow's.
    Upload(UploadWork),
    Done(Result<(), AppError>),
}

/// The workflow goes on by selecting its project.
pub open spec fn selects(workflow: Workflow, step: RunStep) -> bool {
    &&& step matches RunStep::RunCommand(awaiting, command)
    &&& awaiting == (AwaitingCommand { workflow, stage: CommandStage::Project })
    &&& cloud::selects_project(command, workflow.project@)
}

fn select_project(workflow: Workflow) -> (step: RunStep)
    ensures
        selects(workflow, step),
{
    let command = workflow.cloud.set_project(workflow.project.as_str());
    RunStep::RunCommand(AwaitingCommand { workflow, stage: CommandStage::Project }, command)
}

/// Begins what the program is asked to do. A normalization begins by selecting
/// the project, an upload by reading what there is to upload.
pub fn run(command: Command, cloud: Cloud, platform: Platform) -> (step: RunStep)
    ensures
        match command {
            Command::Normalize { project, bucket } => selects(
                Workflow { cloud, project, work: Work::Normalize { bucket } },
                step,
            ),
            Command::Upload { project } => step == RunStep::Discover(
                AwaitingDiscovery { cloud, platform, project },
            ),
        },
{
    match command {
        Command::Normalize { project, bucket } => select_project(
            Workflow { cloud, project, work: Work::Normalize { bucket } },
        ),
        Command::Upload { project } => RunStep::Discover(
            AwaitingDiscovery { cloud, platform, project },
        ),
    }
}

impl AwaitingDiscovery {
    pub open spec fn continues(self, observation: UploadObservation, step: RunStep) -> bool {
        exists|discovery: Result<UploadDiscovery, AppError>|
            {
                &&& #[trigger] upload_discovery::discovers(observation, discovery)
                &&& match discovery {
                    Err(error) => step == RunStep::Done(Err(error)),
                    Ok(discovery) => step == RunStep::SetUploadRoot(
                        AwaitingUploadRoot {
                            cloud: self.cloud,
                            platform: self.platform,
                            project: self.project,
                            discovery,
                        },
                        discovery.root_identity,
                    ),
                }
            }
    }

    /// Goes on once the upload root was read.
    pub fn resume(self, observation: UploadObservation) -> (step: RunStep)
        ensures
            self.continues(observation, step),
    {
        let discovery = upload_discovery::discover_uploads(observation);
        assert(upload_discovery::discovers(observation, discovery));
        match discovery {
            Err(error) => RunStep::Done(Err(error)),
            Ok(discovery) => {
                let identity = discovery.root_identity;
                RunStep::SetUploadRoot(
                    AwaitingUploadRoot {
                        cloud: self.cloud,
                        platform: self.platform,
                        project: self.project,
                        discovery,
                    },
                    identity,
                )
            },
        }
    }
}

/// The names in a list of them.
pub open spec fn names_of(names: Result<Vec<String>, AppError>) -> Result<
    Seq<Seq<char>>,
    AppError,
> {
    match names {
        Ok(names) => Ok(text::views(names@)),
        Err(error) => Err(error),
    }
}

impl AwaitingUploadRoot {
    /// Every directory must name a bucket before the workflow goes on.
    pub open spec fn continues(self, set: Result<(), AppError>, step: RunStep) -> bool {
        match set {
            Err(error) => step == RunStep::Done(Err(error)),
            Ok(_) => exists|names: Result<Vec<String>, AppError>|
                {
                    &&& #[trigger] upload::buckets_of_directories(
                        self.discovery.files_by_directory@,
                        names_of(names),
                    )
                    &&& match names {
                        Err(error) => step == RunStep::Done(Err(error)),
                        Ok(buckets) => selects(
                            Workflow {
                                cloud: self.cloud,
                                project: self.project,
                                work: Work::Upload(
                                    UploadWork {
                                        platform: self.platform,
                                        directories: self.discovery.files_by_directory,
                                        root_identity: self.discovery.root_identity,
                                        buckets,
                                    },
                                ),
                            },
                            step,
                        ),
                    }
                },
        }
    }

    /// Goes on once the storage knows the upload root.
    pub fn resume(self, set: Result<(), AppError>) -> (step: RunStep)
        ensures
            self.continues(set, step),
    {
        if let Err(error) = set {
            return RunStep::Done(Err(error));
        }
        let names = upload::bucket_names(&self.discovery.files_by_directory);
        assert(upload::buckets_of_directories(
            self.discovery.files_by_directory@,
            names_of(names),
        ));
        match names {
            Err(error) => RunStep::Done(Err(error)),
            Ok(buckets) => select_project(
                Workflow {
                    cloud: self.cloud,
                    project: self.project,
                    work: Work::Upload(
                        UploadWork {
                            platform: self.platform,
                            directories: self.discovery.files_by_directory,
                            root_identity: self.discovery.root_identity,
                            buckets,
                        },
                    ),
                },
            ),
        }
    }
}

impl Workflow {
    /// Goes on once an account is authenticated: a normalization is made, an
    /// upload reports its project first.
    pub open spec fn begins_work(self, step: RunStep) -> bool {
        match self.work {
            Work::Normalize { bucket } => step == (RunStep::Normalize { bucket }),
            Work::Upload(work) => {
                &&& step matches RunStep::Report(awaiting, line)
                &&& awaiting == (AwaitingReport { work })
                &&& line@ == "Using Google Cloud project ["@ + self.project@ + "]."@
            },
        }
    }

    fn begin_work(self) -> (step: RunStep)
        ensures
            self.begins_work(step),
    {
        match self.work {
            Work::Normalize { bucket } => RunStep::Normalize { bucket },
            Work::Upload(work) => RunStep::Report(
                AwaitingReport { work },
                "Using Google Cloud project [".to_string().concat(self.project.as_str()).concat(
                    "].",
                ),
            ),
        }
    }
}

impl AwaitingCommand {
    pub open spec fn continues(
        self,
        output: Result<CommandOutput, AppError>,
        step: RunStep,
    ) -> bool {
        match self.stage {
            CommandStage::Project => exists|done: Result<(), AppError>|
                {
                    &&& #[trigger] cloud::project_selected(output, done)
                    &&& match done {
                        Err(error) => step == RunStep::Done(Err(error)),
                        Ok(_) => {
                            &&& step matches RunStep::RunCommand(awaiting, command)
                            &&& awaiting == (AwaitingCommand {
                                workflow: self.workflow,
                                stage: CommandStage::Account,
                            })
                            &&& cloud::asks_for_account(command)
                        },
                    }
                },
            CommandStage::Account => exists|login: LoginStep|
                {
                    &&& #[trigger] cloud::account_found(output, login)
                    &&& match login {
                        LoginStep::Done(Err(error)) => step == RunStep::Done(Err(error)),
                        LoginStep::Done(Ok(_)) => self.workflow.begins_work(step),
                        LoginStep::LogIn(command) => step == RunStep::RunCommand(
                            AwaitingCommand {
                                workflow: self.workflow,
                                stage: CommandStage::Login,
                            },
                            command,
                        ),
                    }
                },
            CommandStage::Login => exists|done: Result<(), AppError>|
                {
                    &&& #[trigger] cloud::logged_in(output, done)
                    &&& match done {
                        Err(error) => step == RunStep::Done(Err(error)),
                        Ok(_) => self.workflow.begins_work(step),
                    }
                },
        }
    }

    /// Goes on once the command ended, or could not be run to its end.
    pub fn resume(self, output: Result<CommandOutput, AppError>) -> (step: RunStep)
        ensures
            self.continues(output, step),
    {
        match self.stage {
            CommandStage::Project => {
                let done = self.workflow.cloud.finish_set_project(output);
                assert(cloud::project_selected(output, done));
                match done {
                    Err(error) => RunStep::Done(Err(error)),
                    Ok(()) => {
                        let command = self.workflow.cloud.login();
                        RunStep::RunCommand(
                            AwaitingCommand {
                                workflow: self.workflow,
                                stage: CommandStage::Account,
                            },
                            command,
                        )
                    },
                }
            },
            CommandStage::Account => {
                let login = self.workflow.cloud.continue_login(output);
                assert(cloud::account_found(output, login));
                match login {
                    LoginStep::Done(Err(error)) => RunStep::Done(Err(error)),
                    LoginStep::Done(Ok(())) => self.workflow.begin_work(),
                    LoginStep::LogIn(command) => RunStep::RunCommand(
                        AwaitingCommand { workflow: self.workflow, stage: CommandStage::Login },
                        command,
                    ),
                }
            },
            CommandStage::Login => {
                let done = self.workflow.cloud.finish_login(output);
                assert(cloud::logged_in(output, done));
                match done {
                    Err(error) => RunStep::Done(Err(error)),
                    Ok(()) => self.workflow.begin_work(),
                }
            },
        }
    }
}

impl AwaitingReport {
    /// Goes on once the line was printed.
    pub fn resume(self) -> (step: RunStep)
        ensures
            step == RunStep::Upload(self.work),
    {
        RunStep::Upload(self.work)
    }
}

/// The files are getting their planned names.
#[derive(Debug)]
pub struct AwaitingNames {
    pub platform: Platform,
    pub root_identity: Option<DirectoryIdentity>,
    pub uploads: Vec<(String, Vec<PlannedUpload>)>,
}

/// The files are being uploaded.
#[derive(Debug)]
pub struct AwaitingUploads {
    pub platform: Platform,
    pub root_identity: Option<DirectoryIdentity>,
    /// The source and target of every planned name.
    pub names: Vec<(String, String)>,
}

/// The files are getting their old names back.
#[derive(Debug)]
pub struct AwaitingOldNames {
    pub failure: AppError,
}

/// What is to be done next while the buckets are locked.
#[derive(Debug)]
pub enum UploadStep {
    /// Perform the renames to their end.
    ApplyNames(AwaitingNames, LocalStep),
    Upload(AwaitingUploads, Vec<(String, Vec<PlannedUpload>)>),
    /// Perform the renames to their end.
    RestoreNames(AwaitingOldNames, LocalStep),
    Done(Result<(), AppError>),
}

/// The context in which files below the upload root are renamed: they stay below
/// the directory that was discovered.
pub open spec fn is_upload_context(
    context: RenameContext,
    platform: Platform,
    root_identity: Option<DirectoryIdentity>,
) -> bool {
    &&& context.platform == platform
    &&& context.root@ == UPLOAD_ROOT@
    &&& context.expected_root == root_identity
    &&& context.expected_files@.len() == 0
    &&& context.expected_directories@.len() == 0
}

fn upload_context(platform: Platform, root_identity: Option<DirectoryIdentity>) -> (context:
    RenameContext)
    ensures
        is_upload_context(context, platform, root_identity),
{
    RenameContext {
        platform,
        root: UPLOAD_ROOT.to_string(),
        expected_root: root_identity,
        expected_files: Vec::new(),
        expected_directories: Vec::new(),
    }
}

impl UploadWork {
    /// Everything is planned under a fresh staging prefix before the first file
    /// gets its new name.
    pub open spec fn starts(self, step: UploadStep) -> bool {
        exists|prefix: Seq<char>, plan: Result<UploadPlan, AppError>|
            {
                &&& upload::is_staging_prefix(prefix)
                &&& #[trigger] upload::plans_run(self.directories@, prefix, plan)
                &&& match plan {
                    Err(error) => step == UploadStep::Done(Err(error)),
                    Ok(plan) => self.applies_names(plan, step),
                }
            }
    }

    /// The planned names are given.
    pub open spec fn applies_names(self, plan: UploadPlan, step: UploadStep) -> bool {
        &&& step matches UploadStep::ApplyNames(awaiting, renames)
        &&& awaiting == (AwaitingNames {
            platform: self.platform,
            root_identity: self.root_identity,
            uploads: plan.uploads,
        })
        &&& renames.wf()
        &&& exists|names: Normalization|
            {
                &&& #[trigger] names.advances(renames)
                &&& is_upload_context(names.context, self.platform, self.root_identity)
                &&& names.entries == plan.entries
                &&& names.next == 0
                &&& names.renamed@.len() == 0
            }
    }

    /// Begins the upload, once its buckets are locked.
    pub fn start(self) -> (step: UploadStep)
        ensures
            self.starts(step),
    {
        let prefix = upload::staging_prefix();
        let plan = upload::plan_run(&self.directories, prefix.as_str());
        assert(upload::plans_run(self.directories@, prefix@, plan));
        match plan {
            Err(error) => UploadStep::Done(Err(error)),
            Ok(plan) => {
                let ghost planned = plan;
                let UploadPlan { entries, uploads } = plan;
                let context = upload_context(self.platform.clone(), self.root_identity);
                let renames = local::apply_normalization_with_path_identities(context, entries);
                let step = UploadStep::ApplyNames(
                    AwaitingNames {
                        platform: self.platform,
                        root_identity: self.root_identity,
                        uploads,
                    },
                    renames,
                );
                assert(self.applies_names(planned, step));
                step
            },
        }
    }
}

impl AwaitingNames {
    /// Goes on once the files have their planned names. Where they could not all
    /// get them, the old ones are back already.
    pub fn resume(self, applied: Result<Vec<(String, String)>, AppError>) -> (step: UploadStep)
        ensures
            match applied {
                Err(error) => step == UploadStep::Done(Err(error)),
                Ok(names) => step == UploadStep::Upload(
                    AwaitingUploads {
                        platform: self.platform,
                        root_identity: self.root_identity,
                        names,
                    },
                    self.uploads,
                ),
            },
    {
        match applied {
            Err(error) => UploadStep::Done(Err(error)),
            Ok(names) => UploadStep::Upload(
                AwaitingUploads {
                    platform: self.platform,
                    root_identity: self.root_identity,
                    names,
                },
                self.uploads,
            ),
        }
    }
}

impl AwaitingUploads {
    /// After a failure every file gets its old name back.
    pub open spec fn continues(self, uploaded: Result<(), AppError>, step: UploadStep) -> bool {
        match uploaded {
            Ok(_) => step matches UploadStep::Done(done) && done is Ok,
            Err(failure) => {
                &&& step matches UploadStep::RestoreNames(awaiting, renames)
                &&& awaiting == (AwaitingOldNames { failure })
                &&& renames.wf()
                &&& exists|names: Restoration|
                    {
                        &&& #[trigger] names.proceeds(renames)
                        &&& is_upload_context(names.context, self.platform, self.root_identity)
                        &&& names.records == self.names
                        &&& names.left == self.names@.len()
                        &&& names.errors@.len() == 0
                        &&& names.failure is None
                    }
            },
        }
    }

    /// Goes on once the uploads were made, or were undone again.
    pub fn resume(self, uploaded: Result<(), AppError>) -> (step: UploadStep)
        ensures
            self.continues(uploaded, step),
    {
        match uploaded {
            Ok(()) => UploadStep::Done(Ok(())),
            Err(failure) => {
                let context = upload_context(self.platform, self.root_identity);
                let renames = local::rollback_normalization_with_path_identities(
                    context,
                    self.names,
                );
                UploadStep::RestoreNames(AwaitingOldNames { failure }, renames)
            },
        }
    }
}

impl AwaitingOldNames {
    /// Ends the upload, with the failures to give old names back.
    pub fn resume(self, errors: Vec<AppError>) -> (step: UploadStep)
        ensures
            step matches UploadStep::Done(Err(error)) && error.rollback_of(self.failure, errors@),
    {
        UploadStep::Done(Err(AppError::rollback(self.failure, errors)))
    }
}

} // verus!
