//! What holds of every run of a workflow, whatever its commands answer.
use vstd::prelude::*;

use crate::atomic_rename::Platform;
use crate::cloud;
use crate::cloud::Cloud;
use crate::cloud::CommandOutput;
use crate::cloud::LoginStep;
use crate::error::AppError;
use crate::upload_discovery::UploadObservation;
use crate::workflow;
use crate::workflow::AwaitingDiscovery;
use crate::workflow::Command;
use crate::workflow::CommandStage;
use crate::workflow::RunStep;
use crate::workflow::Work;
use crate::workflow::Workflow;

verus! {

/// What came of a step.
pub enum RunEvent {
    Observed(UploadObservation),
    RootSet(Result<(), AppError>),
    Ended(Result<CommandOutput, AppError>),
    Reported,
}

/// The step that follows from what came of the step before.
pub open spec fn leads_to(step: RunStep, event: RunEvent, next: RunStep) -> bool {
    match (step, event) {
        (RunStep::Discover(awaiting), RunEvent::Observed(observation)) => awaiting.continues(
            observation,
            next,
        ),
        (RunStep::SetUploadRoot(awaiting, _), RunEvent::RootSet(set)) => awaiting.continues(
            set,
            next,
        ),
        (RunStep::RunCommand(awaiting, _), RunEvent::Ended(output)) => awaiting.continues(
            output,
            next,
        ),
        (RunStep::Report(awaiting, _), RunEvent::Reported) => next == RunStep::Upload(
            awaiting.work,
        ),
        _ => false,
    }
}

/// How a run begins.
pub open spec fn begins(command: Command, cloud: Cloud, platform: Platform, step: RunStep) -> bool {
    match command {
        Command::Normalize { project, bucket } => workflow::selects(
            Workflow { cloud, project, work: Work::Normalize { bucket } },
            step,
        ),
        Command::Upload { project } => step == RunStep::Discover(
            AwaitingDiscovery { cloud, platform, project },
        ),
    }
}

/// A run from its beginning.
pub open spec fn is_run(
    command: Command,
    cloud: Cloud,
    platform: Platform,
    steps: Seq<RunStep>,
    events: Seq<RunEvent>,
) -> bool {
    &&& steps.len() == events.len() + 1
    &&& begins(command, cloud, platform, steps[0])
    &&& forall|i: int|
        0 <= i < events.len() ==> leads_to(#[trigger] steps[i], events[i], steps[i + 1])
}

/// The project that the command names.
pub open spec fn project_of(command: Command) -> Seq<char> {
    match command {
        Command::Normalize { project, .. } => project@,
        Command::Upload { project } => project@,
    }
}

/// The step selects the project, and succeeds.
pub open spec fn selects_project(step: RunStep, event: RunEvent, project: Seq<char>) -> bool {
    &&& step matches RunStep::RunCommand(_, command) && cloud::selects_project(command, project)
    &&& event matches RunEvent::Ended(output) && exists|done: Result<(), AppError>| #[trigger]
        cloud::project_selected(output, done) && done is Ok
}

/// The step authenticates: an account is configured already, or the login
/// succeeds.
pub open spec fn authenticates(step: RunStep, event: RunEvent) -> bool {
    &&& event matches RunEvent::Ended(output)
    &&& step matches RunStep::RunCommand(_, command)
    &&& {
        ||| cloud::asks_for_account(command) && exists|login: LoginStep| #[trigger]
            cloud::account_found(output, login) && (login matches LoginStep::Done(done)
                && done is Ok)
        ||| cloud::logs_in(command) && exists|done: Result<(), AppError>| #[trigger]
            cloud::logged_in(output, done) && done is Ok
    }
}

/// The step comes after the selection of the project.
pub open spec fn after_project(step: RunStep) -> bool {
    match step {
        RunStep::RunCommand(awaiting, _) => awaiting.stage != CommandStage::Project,
        RunStep::Report(..) => true,
        RunStep::Normalize { .. } => true,
        RunStep::Upload(_) => true,
        _ => false,
    }
}

/// The step comes after the authentication.
pub open spec fn after_authentication(step: RunStep) -> bool {
    match step {
        RunStep::Report(..) => true,
        RunStep::Normalize { .. } => true,
        RunStep::Upload(_) => true,
        _ => false,
    }
}

/// The step works for the project, with the command of its stage.
pub open spec fn belongs(step: RunStep, project: Seq<char>) -> bool {
    match step {
        RunStep::Discover(awaiting) => awaiting.project@ == project,
        RunStep::SetUploadRoot(awaiting, _) => awaiting.project@ == project,
        RunStep::RunCommand(awaiting, command) => {
            &&& awaiting.workflow.project@ == project
            &&& match awaiting.stage {
                CommandStage::Project => cloud::selects_project(command, project),
                CommandStage::Account => cloud::asks_for_account(command),
                CommandStage::Login => cloud::logs_in(command),
            }
        },
        RunStep::Report(_, line) => line@ == "Using Google Cloud project ["@ + project + "]."@,
        _ => true,
    }
}

proof fn run_belongs(
    command: Command,
    cloud: Cloud,
    platform: Platform,
    steps: Seq<RunStep>,
    events: Seq<RunEvent>,
    at: int,
)
    requires
        is_run(command, cloud, platform, steps, events),
        0 <= at < steps.len(),
    ensures
        belongs(steps[at], project_of(command)),
    decreases at,
{
    if at > 0 {
        run_belongs(command, cloud, platform, steps, events, at - 1);
        assert(leads_to(steps[at - 1], events[at - 1], steps[at]));
    }
}

/// The account is asked for, the login started, and Cloud Storage touched only
/// after the requested project was selected.
pub proof fn the_project_is_selected_before_authentication(
    command: Command,
    cloud: Cloud,
    platform: Platform,
    steps: Seq<RunStep>,
    events: Seq<RunEvent>,
    at: int,
)
    requires
        is_run(command, cloud, platform, steps, events),
        0 <= at < steps.len(),
        after_project(steps[at]),
    ensures
        exists|k: int|
            0 <= k < at && selects_project(#[trigger] steps[k], events[k], project_of(command)),
    decreases at,
{
    if at == 0 {
        assert(false);
    } else {
        assert(leads_to(steps[at - 1], events[at - 1], steps[at]));
        run_belongs(command, cloud, platform, steps, events, at - 1);
        if after_project(steps[at - 1]) {
            the_project_is_selected_before_authentication(
                command,
                cloud,
                platform,
                steps,
                events,
                at - 1,
            );
        } else {
            assert(selects_project(steps[at - 1], events[at - 1], project_of(command)));
        }
    }
}

/// Nothing is reported, normalized or uploaded before an account is
/// authenticated.
pub proof fn work_waits_for_authentication(
    command: Command,
    cloud: Cloud,
    platform: Platform,
    steps: Seq<RunStep>,
    events: Seq<RunEvent>,
    at: int,
)
    requires
        is_run(command, cloud, platform, steps, events),
        0 <= at < steps.len(),
        after_authentication(steps[at]),
    ensures
        exists|k: int| 0 <= k < at && authenticates(#[trigger] steps[k], events[k]),
    decreases at,
{
    if at == 0 {
        assert(false);
    } else {
        assert(leads_to(steps[at - 1], events[at - 1], steps[at]));
        run_belongs(command, cloud, platform, steps, events, at - 1);
        if after_authentication(steps[at - 1]) {
            work_waits_for_authentication(command, cloud, platform, steps, events, at - 1);
        } else {
            assert(authenticates(steps[at - 1], events[at - 1]));
        }
    }
}

/// An upload reports its project, after the authentication and before the
/// buckets are locked.
pub proof fn the_project_is_reported_before_the_buckets_are_locked(
    command: Command,
    cloud: Cloud,
    platform: Platform,
    steps: Seq<RunStep>,
    events: Seq<RunEvent>,
    at: int,
)
    requires
        is_run(command, cloud, platform, steps, events),
        0 <= at < steps.len(),
        steps[at] is Upload,
    ensures
        exists|reported: int, authenticated: int|
            {
                &&& 0 <= authenticated < reported < at
                &&& authenticates(#[trigger] steps[authenticated], events[authenticated])
                &&& #[trigger] steps[reported] matches RunStep::Report(_, line) && line@
                    == "Using Google Cloud project ["@ + project_of(command) + "]."@
            },
{
    assert(at > 0);
    assert(leads_to(steps[at - 1], events[at - 1], steps[at]));
    run_belongs(command, cloud, platform, steps, events, at - 1);
    assert(steps[at - 1] is Report);
    work_waits_for_authentication(command, cloud, platform, steps, events, at - 1);
    let k = choose|k: int| 0 <= k < at - 1 && authenticates(#[trigger] steps[k], events[k]);
    assert(authenticates(steps[k], events[k]));
}

} // verus!
