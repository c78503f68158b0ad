//! What a tmux command printed and how it ended, and what that says of an error.
use vstd::prelude::*;

use crate::text;
use crate::text::{contains, trim};

verus! {

/// What `String::from_utf8_lossy` makes of bytes.
pub uninterp spec fn utf8_lossy_text(bytes: Seq<u8>) -> Seq<char>;

/// `String::from_utf8_lossy`. The contract names the result, and says that bytes which encode a
/// text in UTF-8 give that text.
#[verifier::external_body]
fn utf8_lossy(bytes: &Vec<u8>) -> (result: String)
    ensures
        result@ == utf8_lossy_text(bytes@),
        vstd::utf8::valid_utf8(bytes@) ==> result@ == vstd::utf8::decode_utf8(bytes@),
{
    String::from_utf8_lossy(bytes).into_owned()
}

/// How a command ended: whether it succeeded, its status in words, and what it printed.
#[derive(Debug)]
pub struct CommandOutput {
    pub success: bool,
    pub status: String,
    pub stdout: Vec<u8>,
    pub stderr: Vec<u8>,
}

/// The contents of a `CommandOutput`, with what was printed as text.
#[verifier::ext_equal]
pub struct OutputContents {
    pub success: bool,
    pub status: Seq<char>,
    pub stdout: Seq<char>,
    pub stderr: Seq<char>,
}

impl View for CommandOutput {
    type V = OutputContents;

    open spec fn view(&self) -> OutputContents {
        OutputContents {
            success: self.success,
            status: self.status@,
            stdout: utf8_lossy_text(self.stdout@),
            stderr: utf8_lossy_text(self.stderr@),
        }
    }
}

/// Whether an error text says that there is no such session, or no server at all.
pub open spec fn tells_of_missing_session(stderr: Seq<char>) -> bool {
    ||| text::holds_text(stderr, "no server running"@)
    ||| text::holds_text(stderr, "error connecting"@)
    ||| text::holds_text(stderr, "can't find session"@)
    ||| text::holds_text(stderr, "no sessions"@)
}

/// What to tell of a command that failed: what it printed as errors; else what it printed; else
/// how it ended.
pub open spec fn error_text(stderr: Seq<char>, stdout: Seq<char>, status: Seq<char>) -> Seq<char> {
    if text::trimmed(stderr).len() > 0 {
        text::trimmed(stderr)
    } else if text::trimmed(stdout).len() > 0 {
        text::trimmed(stdout)
    } else {
        "tmux exited with "@ + status
    }
}

/// Whether an error text says that there is no such session, or no server at all.
pub fn is_missing_session_text(stderr: &str) -> (result: bool)
    ensures
        result == tells_of_missing_session(stderr@),
{
    contains(stderr, "no server running") || contains(stderr, "error connecting") || contains(
        stderr,
        "can't find session",
    ) || contains(stderr, "no sessions")
}

/// What to tell of a command that printed `stderr` and `stdout` and ended with `status`.
pub fn command_error_text(stderr: &str, stdout: &str, status: &str) -> (result: String)
    ensures
        result@ == error_text(stderr@, stdout@, status@),
{
    let errors = trim(stderr);
    if !errors.is_empty() {
        return errors.to_owned();
    }
    let printed = trim(stdout);
    if !printed.is_empty() {
        return printed.to_owned();
    }
    "tmux exited with ".to_owned().concat(status)
}

/// Whether a command failed because there is no such session, or no server at all.
pub fn is_missing_session_output(output: &CommandOutput) -> (result: bool)
    ensures
        result == tells_of_missing_session(output@.stderr),
{
    is_missing_session_text(utf8_lossy(&output.stderr).as_str())
}

/// What to tell of a command that failed.
pub fn command_error(output: &CommandOutput) -> (result: String)
    ensures
        result@ == error_text(output@.stderr, output@.stdout, output@.status),
{
    command_error_text(
        utf8_lossy(&output.stderr).as_str(),
        utf8_lossy(&output.stdout).as_str(),
        output.status.as_str(),
    )
}

/// What a command printed, as text.
pub fn printed_text(output: &CommandOutput) -> (result: String)
    ensures
        result@ == output@.stdout,
        vstd::utf8::valid_utf8(output.stdout@) ==> result@ == vstd::utf8::decode_utf8(
            output.stdout@,
        ),
{
    utf8_lossy(&output.stdout)
}

/// What became of an attempt to run a command: the program was not found, with what was said of
/// it; it was not started, with what was said of it; or it ran.
#[derive(Debug)]
pub enum CommandReply {
    NoProgram(String),
    NotStarted(String),
    Ran(CommandOutput),
}

/// The contents of a `CommandReply`.
pub enum ReplyContents {
    NoProgram(Seq<char>),
    NotStarted(Seq<char>),
    Ran(OutputContents),
}

impl View for CommandReply {
    type V = ReplyContents;

    open spec fn view(&self) -> ReplyContents {
        match *self {
            CommandReply::NoProgram(message) => ReplyContents::NoProgram(message@),
            CommandReply::NotStarted(message) => ReplyContents::NotStarted(message@),
            CommandReply::Ran(output) => ReplyContents::Ran(output@),
        }
    }
}

/// The output of a command that ran, or what to tell where it did not: `context` is put before
/// what was said of a program that did not start.
pub open spec fn ran(reply: ReplyContents, context: Seq<char>) -> Result<
    OutputContents,
    Seq<char>,
> {
    match reply {
        ReplyContents::NoProgram(message) => Err(message),
        ReplyContents::NotStarted(message) => Err(context + ": "@ + message),
        ReplyContents::Ran(output) => Ok(output),
    }
}

/// The output of a command that ran and succeeded, or what to tell where it did not: `failure` is
/// put before what a failed command is told of.
pub open spec fn succeeded(reply: ReplyContents, context: Seq<char>, failure: Seq<char>) -> Result<
    OutputContents,
    Seq<char>,
> {
    match ran(reply, context) {
        Err(message) => Err(message),
        Ok(output) => if output.success {
            Ok(output)
        } else {
            Err(failure + ": "@ + error_text(output.stderr, output.stdout, output.status))
        },
    }
}

impl CommandReply {
    /// The output of the command if it ran, else what to tell.
    pub fn ran(self, context: &str) -> (result: Result<CommandOutput, String>)
        ensures
            match result {
                Ok(output) => ran(self@, context@) == Ok::<OutputContents, Seq<char>>(output@),
                Err(message) => ran(self@, context@) == Err::<OutputContents, Seq<char>>(message@),
            },
    {
        match self {
            CommandReply::NoProgram(message) => Err(message),
            CommandReply::NotStarted(message) => {
                Err(context.to_owned().concat(": ").concat(message.as_str()))
            },
            CommandReply::Ran(output) => Ok(output),
        }
    }

    /// The output of the command if it ran and succeeded, else what to tell.
    pub fn succeeded(self, context: &str, failure: &str) -> (result: Result<CommandOutput, String>)
        ensures
            match result {
                Ok(output) => succeeded(self@, context@, failure@) == Ok::<
                    OutputContents,
                    Seq<char>,
                >(output@),
                Err(message) => succeeded(self@, context@, failure@) == Err::<
                    OutputContents,
                    Seq<char>,
                >(message@),
            },
    {
        match self.ran(context) {
            Ok(output) => if output.success {
                Ok(output)
            } else {
                let error = command_error(&output);
                Err(failure.to_owned().concat(": ").concat(error.as_str()))
            },
            Err(message) => Err(message),
        }
    }
}

/// An error text tells of a missing session just where it holds one of the four texts by which tmux
/// tells of one.
pub proof fn missing_sessions_are_recognised(stderr: Seq<char>, marker: Seq<char>)
    ensures
        text::holds_text(stderr, marker) && seq![
            "no server running"@,
            "error connecting"@,
            "can't find session"@,
            "no sessions"@,
        ].contains(marker) ==> tells_of_missing_session(stderr),
        tells_of_missing_session(stderr) ==> text::holds_text(stderr, "no server running"@)
            || text::holds_text(stderr, "error connecting"@) || text::holds_text(
            stderr,
            "can't find session"@,
        ) || text::holds_text(stderr, "no sessions"@),
{
    let markers = seq![
        "no server running"@,
        "error connecting"@,
        "can't find session"@,
        "no sessions"@,
    ];
    if markers.contains(marker) {
        let i = choose|i: int| 0 <= i < markers.len() && markers[i] == marker;
        assert(i == 0 || i == 1 || i == 2 || i == 3);
    }
}

/// What a failed command printed as errors comes before what it printed, and that before how it
/// ended; none of them with white space around it.
pub proof fn errors_come_before_output(stderr: Seq<char>, stdout: Seq<char>, status: Seq<char>)
    ensures
        text::trimmed(stderr).len() > 0 ==> error_text(stderr, stdout, status) == text::trimmed(
            stderr,
        ),
        text::trimmed(stderr).len() == 0 && text::trimmed(stdout).len() > 0 ==> error_text(
            stderr,
            stdout,
            status,
        ) == text::trimmed(stdout),
        text::trimmed(stderr).len() == 0 && text::trimmed(stdout).len() == 0 ==> error_text(
            stderr,
            stdout,
            status,
        ) == "tmux exited with "@ + status,
{
}

/// A program that is not found is told of as it was said; one that does not start, behind the
/// context; and a command that fails, behind what failed. One that succeeds gives its output.
pub proof fn replies_are_told_apart(
    message: Seq<char>,
    output: OutputContents,
    context: Seq<char>,
    failure: Seq<char>,
)
    ensures
        ran(ReplyContents::NoProgram(message), context) == Err::<OutputContents, Seq<char>>(message),
        ran(ReplyContents::NotStarted(message), context) == Err::<OutputContents, Seq<char>>(
            context + ": "@ + message,
        ),
        ran(ReplyContents::Ran(output), context) == Ok::<OutputContents, Seq<char>>(output),
        succeeded(ReplyContents::NoProgram(message), context, failure) == Err::<
            OutputContents,
            Seq<char>,
        >(message),
        succeeded(ReplyContents::NotStarted(message), context, failure) == Err::<
            OutputContents,
            Seq<char>,
        >(context + ": "@ + message),
        output.success ==> succeeded(ReplyContents::Ran(output), context, failure) == Ok::<
            OutputContents,
            Seq<char>,
        >(output),
        !output.success ==> succeeded(ReplyContents::Ran(output), context, failure) == Err::<
            OutputContents,
            Seq<char>,
        >(failure + ": "@ + error_text(output.stderr, output.stdout, output.status)),
{
}

/// What is known of a reply is what it holds: what was printed as errors is told from what was
/// printed.
pub proof fn replies_are_taken_as_they_are(message: String, output: CommandOutput)
    ensures
        CommandReply::NoProgram(message)@ == ReplyContents::NoProgram(message@),
        CommandReply::NotStarted(message)@ == ReplyContents::NotStarted(message@),
        CommandReply::Ran(output)@ == ReplyContents::Ran(output@),
        output@.success == output.success,
        output@.status == output.status@,
        output@.stdout == utf8_lossy_text(output.stdout@),
        output@.stderr == utf8_lossy_text(output.stderr@),
{
}

} // verus!
