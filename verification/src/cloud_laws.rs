//! What the commands of the Cloud SDK are asked, and what is made of their output.
use vstd::prelude::*;

use crate::cloud;
use crate::cloud::CloudCommand;
use crate::cloud::CommandOutput;
use crate::cloud::LoginStep;
use crate::error::AppError;
use crate::text;
use crate::text_laws;

verus! {

/// What is printed by a command that succeeded, where that is text.
pub open spec fn printed(output: Result<CommandOutput, AppError>, words: Seq<char>) -> bool {
    &&& output matches Ok(output)
    &&& output.success
    &&& output.stdout@ == vstd::utf8::encode_utf8(words)
}

/// White space stands before and behind the inner text, which begins and ends with
/// something else.
pub open spec fn is_framed(before: Seq<char>, inner: Seq<char>, behind: Seq<char>) -> bool {
    &&& forall|i: int| 0 <= i < before.len() ==> text::white_space(#[trigger] before[i])
    &&& forall|i: int| 0 <= i < behind.len() ==> text::white_space(#[trigger] behind[i])
    &&& inner.len() > 0
    &&& !text::white_space(inner[0])
    &&& !text::white_space(inner.last())
}

/// A command gives its text exactly where it succeeded and printed that text. One that
/// could not be run gives that failure, and one that failed is told with its exit
/// status.
pub proof fn a_command_gives_what_it_printed(
    operation: Seq<char>,
    output: Result<CommandOutput, AppError>,
    result: Result<Seq<char>, AppError>,
)
    requires
        cloud::text_of_output(operation, output, result),
    ensures
        forall|words: Seq<char>| #[trigger]
            printed(output, words) <==> result == Ok::<Seq<char>, AppError>(words),
        match output {
            Err(error) => result == Err::<Seq<char>, AppError>(error),
            Ok(output) => !output.success ==> {
                &&& result matches Err(AppError::Command { operation: name, status, details })
                &&& name@ == operation
                &&& match output.code {
                    Some(code) => {
                        &&& code >= 0 ==> text_laws::number_of(status@) == code
                        &&& code < 0 ==> status@.len() > 0 && status@[0] == '-'
                            && text_laws::number_of(status@.skip(1)) == -code
                    },
                    None => status@ == "unknown"@,
                }
            },
        },
        result is Ok <==> (output matches Ok(ended) && ended.success && vstd::utf8::valid_utf8(
            ended.stdout@,
        )),
{
    assert forall|words: Seq<char>| #[trigger] printed(output, words) implies result == Ok::<
        Seq<char>,
        AppError,
    >(words) by {
        vstd::utf8::encode_utf8_valid_utf8(words);
        match result {
            Ok(told) => {
                text::encodings_are_unique(told, words);
            },
            Err(_) => {},
        }
    }
    if let Ok(ended) = output {
        if let Some(code) = ended.code {
            text_laws::a_signed_number_reads_as_the_number(code as int);
        }
        if let Ok(words) = result {
            vstd::utf8::encode_utf8_valid_utf8(words);
        }
    }
}

/// A failed command is told with what it wrote to its standard error, without the white
/// space around that, and with nothing where it wrote white space alone.
pub proof fn a_failed_command_is_told_with_its_words(
    operation: Seq<char>,
    output: CommandOutput,
    error: AppError,
    before: Seq<char>,
    inner: Seq<char>,
    behind: Seq<char>,
)
    requires
        cloud::command_failed(error, operation, output),
        is_framed(before, inner, behind),
    ensures
        text::lossy(output.stderr@) == before + inner + behind ==> error->Command_details@
            == ": "@ + inner,
        text::lossy(output.stderr@) == before ==> error->Command_details@.len() == 0,
{
    text_laws::trimming_takes_the_outer_space_away(before, inner, behind);
}

/// Every remote command is the last argument of `ssh`, behind the same host and the same
/// options, whatever the command is. The options keep `ssh` from asking anything and from
/// accepting an unknown host.
pub proof fn a_remote_command_is_the_last_argument(command: Seq<char>, other: Seq<char>)
    ensures
        ({
            let arguments = cloud::ssh_arguments_for(command);
            let options = arguments.drop_last();
            &&& arguments.last() == command
            &&& options == cloud::ssh_arguments_for(other).drop_last()
            &&& options.last() == "cloud@googlecloud"@
            &&& exists|i: int|
                {
                    &&& 0 < i < options.len()
                    &&& options[i - 1] == "-o"@
                    &&& #[trigger] options[i] == "BatchMode=yes"@
                }
            &&& exists|i: int|
                {
                    &&& 0 < i < options.len()
                    &&& options[i - 1] == "-o"@
                    &&& #[trigger] options[i] == "StrictHostKeyChecking=yes"@
                }
            &&& exists|i: int|
                {
                    &&& 0 < i < options.len()
                    &&& options[i - 1] == "-o"@
                    &&& #[trigger] options[i] == "IdentitiesOnly=yes"@
                }
        }),
{
    let arguments = cloud::ssh_arguments_for(command);
    let options = arguments.drop_last();
    assert(options =~= cloud::ssh_arguments_for(other).drop_last());
    assert(options[5] == "BatchMode=yes"@ && options[4] == "-o"@);
    assert(options[15] == "StrictHostKeyChecking=yes"@ && options[14] == "-o"@);
    assert(options[3] == "IdentitiesOnly=yes"@ && options[2] == "-o"@);
}

/// The selection of a project runs a fixed script, to which the project is handed as one
/// word that the shell reads as the project, whatever characters it has.
pub proof fn the_project_is_handed_over_as_one_word(command: CloudCommand, project: Seq<char>)
    requires
        cloud::selects_project(command, project),
    ensures
        !command.interactive,
        exists|word: Seq<char>|
            {
                &&& command.arguments@.len() > 0
                &&& command.arguments@.last()@ == "sh -s -- "@ + word
                &&& #[trigger] cloud::shell_reads(word, false) == Some(project)
            },
        command.input matches Some(script) && script@ == vstd::utf8::encode_utf8(
            "set -eu\ngcloud config set project \"$1\"\n"@,
        ),
{
    let word = cloud::shell_quoted(project);
    cloud::the_shell_reads_a_quoted_value_back(project);
    let views = text::views(command.arguments@);
    let arguments = cloud::ssh_arguments_for("sh -s -- "@ + word);
    assert(views == arguments);
    assert(views.len() == command.arguments@.len());
    assert(views.last() == command.arguments@.last()@);
    assert(cloud::shell_reads(word, false) == Some(project));
}

/// The project is selected where its script succeeded and printed text, and a failure of
/// the script is the failure of the selection.
pub proof fn a_project_is_selected_where_its_script_succeeds(
    output: Result<CommandOutput, AppError>,
    done: Result<(), AppError>,
)
    requires
        cloud::project_selected(output, done),
    ensures
        done is Ok <==> (output matches Ok(output) && output.success && vstd::utf8::valid_utf8(
            output.stdout@,
        )),
        output matches Err(error) ==> done == Err::<(), AppError>(error),
{
    let result = choose|result: Result<Seq<char>, AppError>|
        {
            &&& #[trigger] cloud::text_of_output("Cloud script"@, output, result)
            &&& match result {
                Ok(_) => done is Ok,
                Err(error) => done == Err::<(), AppError>(error),
            }
        };
    a_command_gives_what_it_printed("Cloud script"@, output, result);
}

/// No login is needed where an account is configured: where the command printed anything
/// but white space and the word for a missing account. Otherwise the login is started.
pub proof fn a_login_is_needed_without_an_account(
    output: Result<CommandOutput, AppError>,
    step: LoginStep,
    before: Seq<char>,
    inner: Seq<char>,
    behind: Seq<char>,
)
    requires
        cloud::account_found(output, step),
        is_framed(before, inner, behind),
    ensures
        printed(output, before + inner + behind) && inner != "(unset)"@ ==> (
        step matches LoginStep::Done(done) && done is Ok),
        printed(output, before + inner + behind) && inner == "(unset)"@ ==> (
        step matches LoginStep::LogIn(command) && command.interactive
            && command.arguments@.last()@ == "gcloud auth login"@),
        printed(output, before) ==> (step matches LoginStep::LogIn(command) && command.interactive
            && command.arguments@.last()@ == "gcloud auth login"@),
        output matches Err(error) ==> step == LoginStep::Done(Err(error)),
        output matches Ok(ended) ==> !ended.success ==> (step matches LoginStep::Done(done)
            && done is Err),
{
    let result = choose|result: Result<Seq<char>, AppError>|
        {
            &&& #[trigger] cloud::text_of_output("Cloud command"@, output, result)
            &&& match result {
                Err(error) => step == LoginStep::Done(Err(error)),
                Ok(name) => if cloud::no_account(name) {
                    step matches LoginStep::LogIn(command) && cloud::logs_in(command)
                } else {
                    step matches LoginStep::Done(outcome) && outcome is Ok
                },
            }
        };
    a_command_gives_what_it_printed("Cloud command"@, output, result);
    text_laws::trimming_takes_the_outer_space_away(before, inner, behind);
    assert(printed(output, before + inner + behind) ==> result == Ok::<Seq<char>, AppError>(
        before + inner + behind,
    ));
    assert(printed(output, before) ==> result == Ok::<Seq<char>, AppError>(before));
    if let LoginStep::LogIn(command) = step {
        let views = text::views(command.arguments@);
        assert(views == cloud::ssh_arguments_for("gcloud auth login"@));
        assert(views.last() == command.arguments@.last()@);
    }
}

/// The interactive login succeeded where its command did.
pub proof fn a_login_succeeds_with_its_command(
    output: Result<CommandOutput, AppError>,
    done: Result<(), AppError>,
)
    requires
        cloud::logged_in(output, done),
    ensures
        done is Ok <==> (output matches Ok(output) && output.success),
        output matches Err(error) ==> done == Err::<(), AppError>(error),
        output matches Ok(ended) ==> !ended.success ==> (done matches Err(
            AppError::Command { operation, details, .. },
        ) && operation@ == "gcloud auth login"@ && details@.len() == 0),
{
}


/// A captured command hands over its remote command and its input as they are, and is not
/// interactive.
pub proof fn a_captured_command_is_handed_over_as_it_is(
    command: CloudCommand,
    operation: Seq<char>,
    remote_command: Seq<char>,
    input: Option<Seq<u8>>,
)
    requires
        cloud::captures(command, operation, remote_command, input),
    ensures
        command.operation@ == operation,
        command.arguments@.len() > 0,
        command.arguments@.last()@ == remote_command,
        !command.interactive,
        command.input is Some <==> input is Some,
        command.input matches Some(bytes) ==> input == Some(bytes@),
{
    let views = text::views(command.arguments@);
    assert(views == cloud::ssh_arguments_for(remote_command));
    assert(views.len() == command.arguments@.len());
    assert(views.last() == command.arguments@.last()@);
}

/// The arguments of a script are the words behind the command that reads it, and the shell
/// reads each word as its argument.
pub proof fn every_argument_of_a_script_is_one_word(
    arguments: Seq<Seq<char>>,
    argument: Seq<char>,
)
    ensures
        arguments.len() == 0 ==> cloud::script_command(arguments) == "sh -s --"@,
        exists|word: Seq<char>|
            {
                &&& #[trigger] cloud::shell_reads(word, false) == Some(argument)
                &&& cloud::script_command(arguments.push(argument)) == cloud::script_command(
                    arguments,
                ) + seq![' '] + word
            },
{
    let word = cloud::shell_quoted(argument);
    cloud::the_shell_reads_a_quoted_value_back(argument);
    let words = cloud::quoted_arguments(arguments);
    let more = cloud::quoted_arguments(arguments.push(argument));
    assert(more =~= words.push(word));
    assert(more.drop_last() =~= words);
    reveal_strlit("sh -s --");
    reveal_strlit("sh -s -- ");
    reveal_strlit(" ");
    assert("sh -s -- "@ =~= "sh -s --"@ + seq![' ']);
    assert(" "@ =~= seq![' ']);
    assert(cloud::script_command(arguments.push(argument)) =~= cloud::script_command(arguments)
        + seq![' '] + word);
}

} // verus!
