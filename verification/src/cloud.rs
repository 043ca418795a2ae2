//! Cloud SDK commands inside the dedicated, host-verified SSH container.
use vstd::prelude::*;

use crate::cloud_laws;
use crate::error::AppError;
use crate::interrupt::InterruptFlag;
use crate::text;
use crate::text_laws;

verus! {

/// A command may run this long.
pub const SSH_COMMAND_TIMEOUT_MILLISECONDS: u64 = 300_000;

/// Runs Cloud SDK commands inside the dedicated, host-verified SSH container.
#[derive(Debug)]
pub struct Cloud {
    interrupt: Option<InterruptFlag>,
}

/// A run of `ssh`.
#[derive(Debug)]
pub struct CloudCommand {
    /// What messages call the command.
    pub operation: String,
    pub arguments: Vec<String>,
    /// Whether the terminal is left to the command; otherwise its output is
    /// captured.
    pub interactive: bool,
    /// What a command whose output is captured reads.
    pub input: Option<Vec<u8>>,
}

/// What came of a command that ended.
#[derive(Debug)]
pub struct CommandOutput {
    pub success: bool,
    /// The exit status, unless a signal ended the command.
    pub code: Option<i32>,
    pub stdout: Vec<u8>,
    pub stderr: Vec<u8>,
}

/// How a login goes on once the configured account is known.
#[derive(Debug)]
pub enum LoginStep {
    /// Start the interactive login flow.
    LogIn(CloudCommand),
    Done(Result<(), AppError>),
}

/// The arguments of `ssh`. The container is ephemeral, so its mounted key and
/// known-hosts files are used rather than identity data accepted at runtime.
pub open spec fn ssh_arguments_for(remote_command: Seq<char>) -> Seq<Seq<char>> {
    seq![
        "-i"@,
        "/run/googlecloud-ssh/client_key"@,
        "-o"@,
        "IdentitiesOnly=yes"@,
        "-o"@,
        "BatchMode=yes"@,
        "-o"@,
        "ConnectionAttempts=5"@,
        "-o"@,
        "ConnectTimeout=5"@,
        "-o"@,
        "ServerAliveInterval=5"@,
        "-o"@,
        "ServerAliveCountMax=3"@,
        "-o"@,
        "StrictHostKeyChecking=yes"@,
        "-o"@,
        "UserKnownHostsFile=/run/googlecloud-ssh/known_hosts"@,
        "cloud@googlecloud"@,
        remote_command,
    ]
}

/// A command whose output is captured.
pub open spec fn captures(
    command: CloudCommand,
    operation: Seq<char>,
    remote_command: Seq<char>,
    input: Option<Seq<u8>>,
) -> bool {
    &&& command.operation@ == operation
    &&& text::views(command.arguments@) == ssh_arguments_for(remote_command)
    &&& !command.interactive
    &&& match command.input {
        Some(bytes) => input == Some(bytes@),
        None => input is None,
    }
}

/// The exit status in words.
pub open spec fn status_text(status: Option<i32>) -> Seq<char> {
    match status {
        Some(code) => text::signed_decimal(code as int),
        None => "unknown"@,
    }
}

/// The exit status in words.
pub fn format_status(status: Option<i32>) -> (words: String)
    ensures
        words@ == status_text(status),
{
    match status {
        Some(code) => text::signed_decimal_text(code),
        None => "unknown".to_string(),
    }
}

/// What a failed command wrote to its standard error, if anything.
pub open spec fn failure_details(stderr: Seq<u8>) -> Seq<char> {
    let words = text::trimmed(text::lossy(stderr));
    if words.len() == 0 {
        Seq::empty()
    } else {
        ": "@ + words
    }
}

/// The error for a command that failed.
pub open spec fn command_failed(error: AppError, operation: Seq<char>, output: CommandOutput) -> bool {
    &&& error matches AppError::Command { operation: name, status, details }
    &&& name@ == operation
    &&& status@ == status_text(output.code)
    &&& details@ == failure_details(output.stderr@)
}

/// The text that a command wrote, or why there is none: the command was not run
/// to its end, it failed, or what it wrote is no valid UTF-8.
pub open spec fn text_of_output(
    operation: Seq<char>,
    output: Result<CommandOutput, AppError>,
    text: Result<Seq<char>, AppError>,
) -> bool {
    match output {
        Err(error) => text == Err::<Seq<char>, AppError>(error),
        Ok(output) => if !output.success {
            text matches Err(error) && command_failed(error, operation, output)
        } else {
            match text {
                Ok(words) => vstd::utf8::encode_utf8(words) == output.stdout@,
                Err(error) => {
                    &&& !vstd::utf8::valid_utf8(output.stdout@)
                    &&& error matches AppError::Message(message)
                    &&& message@ == operation + " returned invalid UTF-8: "@
                        + text::utf8_complaint(output.stdout@)
                },
            }
        },
    }
}

/// The content of a text.
pub open spec fn content(text: Result<String, AppError>) -> Result<Seq<char>, AppError> {
    match text {
        Ok(text) => Ok(text@),
        Err(error) => Err(error),
    }
}

fn check_output(operation: &str, output: &CommandOutput) -> (checked: Result<(), AppError>)
    ensures
        match checked {
            Ok(()) => output.success,
            Err(error) => !output.success && command_failed(error, operation@, *output),
        },
{
    if output.success {
        return Ok(());
    }
    let words = text::trim(text::lossy_text(output.stderr.as_slice()).as_str());
    let details = if words.as_str().is_empty() {
        String::new()
    } else {
        ": ".to_string().concat(words.as_str())
    };
    Err(
        AppError::Command {
            operation: operation.to_string(),
            status: format_status(output.code),
            details,
        },
    )
}

fn output_text(operation: &str, output: Result<CommandOutput, AppError>) -> (text: Result<
    String,
    AppError,
>)
    ensures
        text_of_output(operation@, output, content(text)),
{
    let output = match output {
        Ok(output) => output,
        Err(error) => {
            return Err(error);
        },
    };
    match check_output(operation, &output) {
        Err(error) => Err(error),
        Ok(()) => match text::utf8_text(output.stdout) {
            Ok(words) => Ok(words),
            Err(complaint) => Err(
                AppError::Message(
                    operation.to_string().concat(" returned invalid UTF-8: ").concat(
                        complaint.as_str(),
                    ),
                ),
            ),
        },
    }
}

/// Whether the configured account, as the SDK prints it, is none.
pub open spec fn no_account(account: Seq<char>) -> bool {
    text::trimmed(account).len() == 0 || text::trimmed(account) == "(unset)"@
}

/// The command selects the project. The script stays on standard input and the
/// name is one positional parameter, so it remains data rather than becoming
/// shell source.
pub open spec fn selects_project(command: CloudCommand, project: Seq<char>) -> bool {
    captures(
        command,
        "Cloud script"@,
        "sh -s -- "@ + shell_quoted(project),
        Some(vstd::utf8::encode_utf8("set -eu\ngcloud config set project \"$1\"\n"@)),
    )
}

/// The command asks for the configured account.
pub open spec fn asks_for_account(command: CloudCommand) -> bool {
    captures(command, "Cloud command"@, "gcloud config get account"@, None)
}

/// The command is the interactive login.
pub open spec fn logs_in(command: CloudCommand) -> bool {
    &&& command.interactive
    &&& command.input is None
    &&& command.operation@ == "gcloud auth login"@
    &&& text::views(command.arguments@) == ssh_arguments_for("gcloud auth login"@)
}

/// What the selection of a project gives once its script ended.
pub open spec fn project_selected(
    output: Result<CommandOutput, AppError>,
    done: Result<(), AppError>,
) -> bool {
    exists|text: Result<Seq<char>, AppError>|
        {
            &&& #[trigger] text_of_output("Cloud script"@, output, text)
            &&& match text {
                Ok(_) => done is Ok,
                Err(error) => done == Err::<(), AppError>(error),
            }
        }
}

/// How a login goes on once the configured account was asked for.
pub open spec fn account_found(
    account: Result<CommandOutput, AppError>,
    step: LoginStep,
) -> bool {
    exists|text: Result<Seq<char>, AppError>|
        {
            &&& #[trigger] text_of_output("Cloud command"@, account, text)
            &&& match text {
                Err(error) => step == LoginStep::Done(Err(error)),
                Ok(name) => if no_account(name) {
                    step matches LoginStep::LogIn(command) && logs_in(command)
                } else {
                    step matches LoginStep::Done(outcome) && outcome is Ok
                },
            }
        }
}

/// What the interactive login gives once it ended.
pub open spec fn logged_in(
    output: Result<CommandOutput, AppError>,
    done: Result<(), AppError>,
) -> bool {
    match output {
        Err(error) => done == Err::<(), AppError>(error),
        Ok(output) => if output.success {
            done is Ok
        } else {
            &&& done matches Err(AppError::Command { operation, status, details })
            &&& operation@ == "gcloud auth login"@
            &&& status@ == status_text(output.code)
            &&& details@.len() == 0
        },
    }
}

impl Cloud {
    /// The flag that stops commands, if there is one.
    pub closed spec fn flag(self) -> Option<InterruptFlag> {
        self.interrupt
    }

    /// Creates a cloud command runner without signal handling.
    pub fn new() -> (cloud: Self)
        ensures
            cloud.flag() is None,
    {
        Cloud { interrupt: None }
    }

    /// Creates a cloud command runner that can terminate child processes when
    /// the workflow receives SIGINT or SIGTERM.
    pub fn with_interrupt(interrupt: InterruptFlag) -> (cloud: Self)
        ensures
            cloud.flag() == Some(interrupt),
    {
        Cloud { interrupt: Some(interrupt) }
    }

    /// The flag that stops commands, if there is one.
    pub fn interrupt(&self) -> (interrupt: Option<InterruptFlag>)
        ensures
            match (interrupt, self.flag()) {
                (Some(copy), Some(flag)) => copy.cell() == flag.cell(),
                (None, None) => true,
                _ => false,
            },
    {
        match &self.interrupt {
            Some(interrupt) => Some(interrupt.clone()),
            None => None,
        }
    }

    /// The arguments with which `ssh` runs the remote command.
    pub fn ssh_arguments(&self, remote_command: &str) -> (arguments: Vec<String>)
        ensures
            text::views(arguments@) == ssh_arguments_for(remote_command@),
    {
        let arguments: Vec<String> = vec![
            "-i".to_string(),
            "/run/googlecloud-ssh/client_key".to_string(),
            "-o".to_string(),
            "IdentitiesOnly=yes".to_string(),
            "-o".to_string(),
            "BatchMode=yes".to_string(),
            "-o".to_string(),
            "ConnectionAttempts=5".to_string(),
            "-o".to_string(),
            "ConnectTimeout=5".to_string(),
            "-o".to_string(),
            "ServerAliveInterval=5".to_string(),
            "-o".to_string(),
            "ServerAliveCountMax=3".to_string(),
            "-o".to_string(),
            "StrictHostKeyChecking=yes".to_string(),
            "-o".to_string(),
            "UserKnownHostsFile=/run/googlecloud-ssh/known_hosts".to_string(),
            "cloud@googlecloud".to_string(),
            remote_command.to_string(),
        ];
        assert(text::views(arguments@) =~= ssh_arguments_for(remote_command@));
        arguments
    }

    fn run_capture(&self, remote_command: &str) -> (command: CloudCommand)
        ensures
            captures(command, "Cloud command"@, remote_command@, None),
    {
        CloudCommand {
            operation: "Cloud command".to_string(),
            arguments: self.ssh_arguments(remote_command),
            interactive: false,
            input: None,
        }
    }

    /// Ensures that the remote Cloud SDK has an authenticated account: the
    /// configured account is asked for first.
    pub fn login(&self) -> (command: CloudCommand)
        ensures
            asks_for_account(command),
    {
        self.run_capture("gcloud config get account")
    }

    /// Goes on once the configured account is known. If there is none, the
    /// interactive login flow is started in the container that owns the
    /// temporary credentials.
    pub fn continue_login(&self, account: Result<CommandOutput, AppError>) -> (step: LoginStep)
        ensures
            account_found(account, step),
    {
        let printed = output_text("Cloud command", account);
        assert(text_of_output("Cloud command"@, account, content(printed)));
        match printed {
            Err(error) => LoginStep::Done(Err(error)),
            Ok(printed) => {
                let name = text::trim(printed.as_str());
                if name.as_str().is_empty() || text::same_text(name.as_str(), "(unset)") {
                    LoginStep::LogIn(self.run_interactive("gcloud auth login"))
                } else {
                    LoginStep::Done(Ok(()))
                }
            },
        }
    }

    fn run_interactive(&self, remote_command: &str) -> (command: CloudCommand)
        ensures
            command.interactive,
            command.input is None,
            command.operation@ == remote_command@,
            text::views(command.arguments@) == ssh_arguments_for(remote_command@),
    {
        CloudCommand {
            operation: remote_command.to_string(),
            arguments: self.ssh_arguments(remote_command),
            interactive: true,
            input: None,
        }
    }

    /// Ends a login once the interactive flow ended.
    pub fn finish_login(&self, output: Result<CommandOutput, AppError>) -> (done: Result<
        (),
        AppError,
    >)
        ensures
            logged_in(output, done),
    {
        match output {
            Err(error) => Err(error),
            Ok(output) => {
                if output.success {
                    return Ok(());
                }
                Err(
                    AppError::Command {
                        operation: "gcloud auth login".to_string(),
                        status: format_status(output.code),
                        details: String::new(),
                    },
                )
            },
        }
    }

    /// Selects the Google Cloud project used by subsequent SDK commands.
    pub fn set_project(&self, project: &str) -> (command: CloudCommand)
        ensures
            selects_project(command, project@),
    {
        let arguments: Vec<String> = vec![project.to_string()];
        assert(quoted_arguments(text::views(arguments@)) =~= seq![shell_quoted(project@)]);
        assert(text::joined(seq![shell_quoted(project@)], " "@) == shell_quoted(project@));
        self.run_script("set -eu\ngcloud config set project \"$1\"\n", &arguments)
    }

    fn run_script(&self, script: &str, arguments: &Vec<String>) -> (command: CloudCommand)
        ensures
            captures(
                command,
                "Cloud script"@,
                script_command(text::views(arguments@)),
                Some(vstd::utf8::encode_utf8(script@)),
            ),
    {
        let remote_command = if arguments.len() == 0 {
            "sh -s --".to_string()
        } else {
            "sh -s -- ".to_string().concat(text::join(&quote_arguments(arguments), " ").as_str())
        };
        CloudCommand {
            operation: "Cloud script".to_string(),
            arguments: self.ssh_arguments(remote_command.as_str()),
            interactive: false,
            input: Some(script.as_bytes_vec()),
        }
    }

    /// Ends the selection of a project once the script ended.
    pub fn finish_set_project(&self, output: Result<CommandOutput, AppError>) -> (done: Result<
        (),
        AppError,
    >)
        ensures
            project_selected(output, done),
    {
        let printed = output_text("Cloud script", output);
        assert(text_of_output("Cloud script"@, output, content(printed)));
        match printed {
            Ok(_) => Ok(()),
            Err(error) => Err(error),
        }
    }

    /// Asks the remote Cloud SDK for a fresh access token.
    pub fn access_token(&self) -> (command: CloudCommand)
        ensures
            captures(command, "Cloud command"@, "gcloud auth print-access-token"@, None),
    {
        self.run_capture("gcloud auth print-access-token")
    }

    /// The access token that the Cloud SDK printed.
    pub fn finish_access_token(&self, output: Result<CommandOutput, AppError>) -> (token: Result<
        String,
        AppError,
    >)
        ensures
            exists|text: Result<Seq<char>, AppError>|
                {
                    &&& #[trigger] text_of_output("Cloud command"@, output, text)
                    &&& match text {
                        Ok(printed) => token matches Ok(token) && token@ == text::trimmed(printed),
                        Err(error) => token == Err::<String, AppError>(error),
                    }
                },
            token is Ok <==> (output matches Ok(output) && output.success
                && vstd::utf8::valid_utf8(output.stdout@)),
            forall|before: Seq<char>, inner: Seq<char>, behind: Seq<char>|
                cloud_laws::printed(output, #[trigger] (before + inner + behind))
                    && cloud_laws::is_framed(before, inner, behind) ==> (token matches Ok(token)
                    && token@ == inner),
    {
        let ghost given = output;
        let printed = output_text("Cloud command", output);
        assert(text_of_output("Cloud command"@, output, content(printed)));
        proof {
            cloud_laws::a_command_gives_what_it_printed("Cloud command"@, given, content(printed));
            assert forall|before: Seq<char>, inner: Seq<char>, behind: Seq<char>|
                cloud_laws::printed(given, #[trigger] (before + inner + behind))
                    && cloud_laws::is_framed(before, inner, behind) implies (printed matches Ok(
                printed,
            ) && text::trimmed(printed@) == inner) by {
                text_laws::trimming_takes_the_outer_space_away(before, inner, behind);
            }
        }
        match printed {
            Ok(printed) => Ok(text::trim(printed.as_str())),
            Err(error) => Err(error),
        }
    }
}

impl Default for Cloud {
    fn default() -> (cloud: Self)
        ensures
            cloud.flag() is None,
    {
        Cloud::new()
    }
}

impl Clone for Cloud {
    fn clone(&self) -> (copy: Self)
        ensures
            match (copy.flag(), self.flag()) {
                (Some(left), Some(right)) => left.cell() == right.cell(),
                (None, None) => true,
                _ => false,
            },
    {
        Cloud { interrupt: self.interrupt() }
    }
}

/// The remote command that runs a script with arguments.
pub open spec fn script_command(arguments: Seq<Seq<char>>) -> Seq<char> {
    if arguments.len() == 0 {
        "sh -s --"@
    } else {
        "sh -s -- "@ + text::joined(quoted_arguments(arguments), " "@)
    }
}

/// The arguments as single words of the shell.
pub open spec fn quoted_arguments(arguments: Seq<Seq<char>>) -> Seq<Seq<char>> {
    arguments.map_values(|argument: Seq<char>| shell_quoted(argument))
}

fn quote_arguments(arguments: &Vec<String>) -> (quoted: Vec<String>)
    ensures
        text::views(quoted@) == quoted_arguments(text::views(arguments@)),
{
    let mut quoted: Vec<String> = Vec::new();
    let mut i: usize = 0;
    while i < arguments.len()
        invariant
            i <= arguments@.len(),
            quoted@.len() == i,
            forall|k: int| 0 <= k < i ==> (#[trigger] quoted@[k])@ == shell_quoted(arguments@[k]@),
        decreases arguments@.len() - i,
    {
        quoted.push(shell_quote(arguments[i].as_str()));
        i += 1;
    }
    assert(text::views(quoted@) =~= quoted_arguments(text::views(arguments@)));
    quoted
}

/// A value inside single quotes: a single quote ends the quotation, is escaped,
/// and begins the quotation again.
pub open spec fn inside_quotes(value: Seq<char>) -> Seq<char>
    decreases value.len(),
{
    if value.len() == 0 {
        Seq::empty()
    } else if value.last() == '\'' {
        inside_quotes(value.drop_last()) + seq!['\'', '\\', '\'', '\'']
    } else {
        inside_quotes(value.drop_last()).push(value.last())
    }
}

/// A value as a single word of the shell.
pub open spec fn shell_quoted(value: Seq<char>) -> Seq<char> {
    seq!['\''] + inside_quotes(value) + seq!['\'']
}

/// Quotes a value so that the shell takes it as one word and nothing in it has a
/// meaning.
pub fn shell_quote(value: &str) -> (word: String)
    ensures
        word@ == shell_quoted(value@),
{
    let chars = text::chars_of(value);
    let mut word = String::new();
    word.push('\'');
    let mut i: usize = 0;
    assert(word@ =~= seq!['\''] + inside_quotes(chars@.take(0)));
    while i < chars.len()
        invariant
            i <= chars@.len(),
            word@ == seq!['\''] + inside_quotes(chars@.take(i as int)),
        decreases chars@.len() - i,
    {
        assert(chars@.take(i + 1).drop_last() =~= chars@.take(i as int));
        if chars[i] == '\'' {
            word.push('\'');
            word.push('\\');
            word.push('\'');
            word.push('\'');
        } else {
            word.push(chars[i]);
        }
        assert(word@ =~= seq!['\''] + inside_quotes(chars@.take(i + 1)));
        i += 1;
    }
    assert(chars@.take(chars@.len() as int) =~= value@);
    word.push('\'');
    assert(word@ =~= shell_quoted(value@));
    word
}

/// How the shell reads a word that consists of single quotations and escaped
/// characters only; anything else could have a meaning, so it has no reading.
pub open spec fn shell_reads(word: Seq<char>, quoted: bool) -> Option<Seq<char>>
    decreases word.len(),
{
    if word.len() == 0 {
        if quoted {
            None
        } else {
            Some(Seq::empty())
        }
    } else if quoted {
        if word[0] == '\'' {
            shell_reads(word.skip(1), false)
        } else {
            match shell_reads(word.skip(1), true) {
                Some(rest) => Some(seq![word[0]] + rest),
                None => None,
            }
        }
    } else if word[0] == '\'' {
        shell_reads(word.skip(1), true)
    } else if word[0] == '\\' && word.len() > 1 {
        match shell_reads(word.skip(2), false) {
            Some(rest) => Some(seq![word[1]] + rest),
            None => None,
        }
    } else {
        None
    }
}

/// The shell reads a quoted value as exactly that value, whatever it holds.
pub proof fn the_shell_reads_a_quoted_value_back(value: Seq<char>)
    ensures
        shell_reads(shell_quoted(value), false) == Some(value),
{
    let word = shell_quoted(value);
    assert(word.skip(1) =~= inside_quotes(value) + seq!['\'']);
    let end = seq!['\''];
    reveal_with_fuel(shell_reads, 3);
    assert(end.skip(1) =~= Seq::empty());
    assert(shell_reads(end, true) == Some(Seq::<char>::empty()));
    quotation_is_read(value, end, Seq::empty());
    assert(value + Seq::<char>::empty() =~= value);
}

proof fn quotation_is_read(value: Seq<char>, after: Seq<char>, rest: Seq<char>)
    requires
        shell_reads(after, true) == Some(rest),
    ensures
        shell_reads(inside_quotes(value) + after, true) == Some(value + rest),
    decreases value.len(),
{
    if value.len() == 0 {
        assert(inside_quotes(value) + after =~= after);
        assert(value + rest =~= rest);
    } else {
        let front = value.drop_last();
        let last = value.last();
        if last == '\'' {
            let escape = seq!['\'', '\\', '\'', '\''];
            let tail = escape + after;
            assert(tail.skip(1) =~= seq!['\\', '\'', '\''] + after);
            assert(tail.skip(1).skip(2) =~= seq!['\''] + after);
            assert(tail.skip(1).skip(2).skip(1) =~= after);
            reveal_with_fuel(shell_reads, 4);
            assert(shell_reads(tail, true) == Some(seq!['\''] + rest));
            quotation_is_read(front, tail, seq!['\''] + rest);
            assert(inside_quotes(value) + after =~= inside_quotes(front) + tail);
            assert(front + (seq!['\''] + rest) =~= value + rest);
        } else {
            let tail = seq![last] + after;
            assert(tail.skip(1) =~= after);
            reveal_with_fuel(shell_reads, 2);
            assert(shell_reads(tail, true) == Some(seq![last] + rest));
            quotation_is_read(front, tail, seq![last] + rest);
            assert(inside_quotes(value) + after =~= inside_quotes(front) + tail);
            assert(front + (seq![last] + rest) =~= value + rest);
        }
    }
}

/// What to do about a command that was looked at while it may still run.
#[derive(Debug)]
pub enum ChildDecision {
    /// It ended: collect its output.
    Finish,
    /// End it, and fail.
    Stop(AppError),
    /// Look again later.
    Wait,
}

/// Decides about a command: an exit counts first, then an interrupt, then the
/// time.
pub fn poll_child(
    operation: &str,
    exited: bool,
    interrupted: bool,
    elapsed_milliseconds: u64,
    timeout_milliseconds: u64,
) -> (decision: ChildDecision)
    ensures
        if exited {
            decision is Finish
        } else if interrupted {
            decision == ChildDecision::Stop(AppError::Interrupted)
        } else if elapsed_milliseconds >= timeout_milliseconds {
            &&& decision matches ChildDecision::Stop(AppError::Message(message))
            &&& message@ == operation@ + " timed out after "@ + text::decimal(
                (timeout_milliseconds / 1000) as nat,
            ) + " seconds"@
        } else {
            decision is Wait
        },
{
    if exited {
        return ChildDecision::Finish;
    }
    if interrupted {
        return ChildDecision::Stop(AppError::Interrupted);
    }
    if elapsed_milliseconds >= timeout_milliseconds {
        return ChildDecision::Stop(
            AppError::Message(
                operation.to_string().concat(" timed out after ").concat(
                    text::decimal_text(timeout_milliseconds / 1000).as_str(),
                ).concat(" seconds"),
            ),
        );
    }
    ChildDecision::Wait
}

/// Collects the output of a command that ended. A failure to write its input
/// counts before failures to read what it wrote.
pub fn collect_output(
    success: bool,
    code: Option<i32>,
    written: Result<(), AppError>,
    stdout: Result<Vec<u8>, AppError>,
    stderr: Result<Vec<u8>, AppError>,
) -> (output: Result<CommandOutput, AppError>)
    ensures
        match (written, stdout, stderr) {
            (Err(error), _, _) => output == Err::<CommandOutput, AppError>(error),
            (Ok(_), Err(error), _) => output == Err::<CommandOutput, AppError>(error),
            (Ok(_), Ok(_), Err(error)) => output == Err::<CommandOutput, AppError>(error),
            (Ok(_), Ok(out), Ok(err)) => output == Ok::<CommandOutput, AppError>(
                CommandOutput { success, code, stdout: out, stderr: err },
            ),
        },
{
    written?;
    let stdout = stdout?;
    let stderr = stderr?;
    Ok(CommandOutput { success, code, stdout, stderr })
}

} // verus!
