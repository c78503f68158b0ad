//! The tmux commands that terminal sessions need: their arguments, and what their replies mean.
use vstd::prelude::*;

use crate::command;
use crate::command::{
    command_error, is_missing_session_output, printed_text, CommandReply, OutputContents,
    ReplyContents,
};
use crate::terminal_id;
use crate::terminal_id::{
    terminal_thread_tmux_session_name, TerminalId, TERMINAL_THREAD_TMUX_SERVER_NAME,
};
use crate::terminal_thread;
use crate::terminal_thread::{TerminalThreadKind, TerminalThreadProvider};
use crate::text;
use crate::text::{same, split, trim};

verus! {

/// The seconds between two looks at the sessions.
pub const TMUX_POLL_INTERVAL_SECONDS: u64 = 1;

/// The panes that are listed: the active one of each active window.
pub const PANE_FILTER: &'static str = "#{&&:#{window_active},#{pane_active}}";

/// What is listed of a pane.
pub const PANE_FORMAT: &'static str =
    "#{@zed-terminal-id}\t#{pane_id}\t#{pane_current_command}\t#{pane_title}\t#{pane_current_path}\t#{pane_dead}\t#{window_activity}";

/// The arguments of a command to the server of terminal threads, in UTF-8.
pub open spec fn command_line(rest: Seq<Seq<char>>) -> Seq<Seq<char>> {
    seq!["-u"@, "-L"@, TERMINAL_THREAD_TMUX_SERVER_NAME@] + rest
}

/// The arguments of a command to the server of terminal threads, in UTF-8.
pub fn tmux_command(rest: Vec<&str>) -> (result: Vec<String>)
    ensures
        text::strings(result@) == command_line(text::texts(rest@)),
{
    let mut result: Vec<String> = Vec::new();
    result.push("-u".to_owned());
    result.push("-L".to_owned());
    result.push(TERMINAL_THREAD_TMUX_SERVER_NAME.to_owned());
    let ghost base = seq!["-u"@, "-L"@, TERMINAL_THREAD_TMUX_SERVER_NAME@];
    assert(text::strings(result@) =~= base + text::texts(rest@).take(0));
    let mut i: usize = 0;
    while i < rest.len()
        invariant
            i <= rest.len(),
            text::strings(result@) == base + text::texts(rest@).take(i as int),
        decreases rest.len() - i,
    {
        let ghost before = text::strings(result@);
        result.push(rest[i].to_owned());
        assert(text::strings(result@) =~= before.push(rest@[i as int]@));
        assert(base + text::texts(rest@).take(i + 1) =~= (base + text::texts(rest@).take(
            i as int,
        )).push(rest@[i as int]@));
        i = i + 1;
    }
    assert(text::texts(rest@).take(i as int) =~= text::texts(rest@));
    result
}

/// A program to run in a terminal, with its arguments and the title to show.
#[derive(Debug)]
pub struct Shell {
    pub program: String,
    pub args: Vec<String>,
    pub title_override: Option<String>,
}

/// The program that attaches a terminal to its session. `program` is where tmux was found, if it
/// was looked for.
pub fn attach_shell(terminal_id: TerminalId, program: Option<&str>) -> (result: Shell)
    ensures
        result.program@ == match program {
            Some(found) => found@,
            None => "tmux"@,
        },
        text::strings(result.args@) == command_line(
            seq!["attach-session"@, "-t"@, terminal_id::session_name(terminal_id.value)],
        ),
        text::string_option(result.title_override) == Some("Codex"@),
{
    let name = terminal_thread_tmux_session_name(terminal_id);
    let rest = vec!["attach-session", "-t", name.as_str()];
    assert(text::texts(rest@) =~= seq!["attach-session"@, "-t"@, name@]);
    Shell {
        program: match program {
            Some(found) => found.to_owned(),
            None => "tmux".to_owned(),
        },
        args: tmux_command(rest),
        title_override: Some("Codex".to_owned()),
    }
}

/// What a session tells of its terminal, so that the terminal can be found again.
#[derive(Debug)]
pub struct TmuxSessionRecoveryMetadata {
    pub worktree_path: Option<String>,
    pub kind: TerminalThreadKind,
    pub provider: Option<TerminalThreadProvider>,
}

/// The contents of a `TmuxSessionRecoveryMetadata`.
#[verifier::ext_equal]
pub struct RecoveryContents {
    pub worktree_path: Option<Seq<char>>,
    pub kind: TerminalThreadKind,
    pub provider: Option<TerminalThreadProvider>,
}

impl View for TmuxSessionRecoveryMetadata {
    type V = RecoveryContents;

    open spec fn view(&self) -> RecoveryContents {
        RecoveryContents {
            worktree_path: text::string_option(self.worktree_path),
            kind: self.kind,
            provider: self.provider,
        }
    }
}

/// The options by which a session tells of its terminal.
pub open spec fn recovery_options(id: u128, recovery: RecoveryContents) -> Seq<
    (Seq<char>, Seq<char>),
> {
    seq![
        ("@zed-managed"@, "1"@),
        ("@zed-terminal-id"@, terminal_id::key_text(id)),
        (
            "@zed-worktree-path"@,
            match recovery.worktree_path {
                Some(path) => path,
                None => Seq::empty(),
            },
        ),
        ("@zed-terminal-kind"@, terminal_thread::kind_text(recovery.kind)),
        (
            "@zed-provider"@,
            match recovery.provider {
                Some(provider) => terminal_thread::provider_text(provider),
                None => Seq::empty(),
            },
        ),
    ]
}

/// What a vector of options holds.
pub open spec fn option_texts(options: Seq<(&'static str, String)>) -> Seq<(Seq<char>, Seq<char>)> {
    options.map_values(|option: (&'static str, String)| (option.0@, option.1@))
}

/// The options by which a session tells of its terminal.
pub fn recovery_session_options(
    terminal_id: TerminalId,
    recovery_metadata: &TmuxSessionRecoveryMetadata,
) -> (result: Vec<(&'static str, String)>)
    ensures
        option_texts(result@) == recovery_options(terminal_id.value, recovery_metadata@),
{
    let mut result: Vec<(&'static str, String)> = Vec::new();
    result.push(("@zed-managed", "1".to_owned()));
    result.push(("@zed-terminal-id", terminal_id.to_key_string()));
    let worktree_path = match &recovery_metadata.worktree_path {
        Some(path) => path.clone(),
        None => String::new(),
    };
    result.push(("@zed-worktree-path", worktree_path));
    result.push(("@zed-terminal-kind", recovery_metadata.kind.as_str().to_owned()));
    let provider = match recovery_metadata.provider {
        Some(provider) => provider.as_str().to_owned(),
        None => String::new(),
    };
    result.push(("@zed-provider", provider));
    assert(option_texts(result@) =~= recovery_options(terminal_id.value, recovery_metadata@));
    result
}

/// The options of a session: those by which it tells of its terminal, and those by which it
/// behaves as a terminal does.
pub open spec fn session_options(id: u128, recovery: RecoveryContents) -> Seq<
    (Seq<char>, Seq<char>),
> {
    recovery_options(id, recovery) + seq![
        ("mouse"@, "on"@),
        ("remain-on-exit"@, "on"@),
        ("status-right"@, "%Y-%m-%d  %H:%M "@),
    ]
}

/// The options of a session, in the order in which they are set.
pub fn all_session_options(
    terminal_id: TerminalId,
    recovery_metadata: &TmuxSessionRecoveryMetadata,
) -> (result: Vec<(&'static str, String)>)
    ensures
        option_texts(result@) == session_options(terminal_id.value, recovery_metadata@),
{
    let mut result = recovery_session_options(terminal_id, recovery_metadata);
    let ghost recovery = option_texts(result@);
    result.push(("mouse", "on".to_owned()));
    result.push(("remain-on-exit", "on".to_owned()));
    result.push(("status-right", "%Y-%m-%d  %H:%M ".to_owned()));
    assert(option_texts(result@) =~= recovery + seq![
        ("mouse"@, "on"@),
        ("remain-on-exit"@, "on"@),
        ("status-right"@, "%Y-%m-%d  %H:%M "@),
    ]);
    result
}

/// Whether a list of values, between commas and line ends, has `value` in it.
pub open spec fn lists_value(current: Seq<char>, value: Seq<char>) -> bool {
    exists|i: int|
        0 <= i < text::pieces(current, ',', '\n').len() && text::trimmed(
            #[trigger] text::pieces(current, ',', '\n')[i],
        ) == value
}

/// Whether a server option that is a list has `value` in it.
pub fn server_option_contains(current: &str, value: &str) -> (result: bool)
    ensures
        result == lists_value(current@, value@),
{
    let entries = split(current, ',', '\n');
    let ghost all = text::pieces(current@, ',', '\n');
    let mut i: usize = 0;
    while i < entries.len()
        invariant
            i <= entries.len(),
            text::texts(entries@) == all,
            all == text::pieces(current@, ',', '\n'),
            forall|j: int| 0 <= j < i ==> text::trimmed(#[trigger] all[j]) != value@,
        decreases entries.len() - i,
    {
        assert(all[i as int] == entries@[i as int]@);
        if same(trim(entries[i]), value) {
            return true;
        }
        i = i + 1;
    }
    false
}

/// A list that had a value appended behind a comma has the value in it, and has every value that
/// it had before: appending once is enough.
pub proof fn appended_value_is_listed(current: Seq<char>, value: Seq<char>, other: Seq<char>)
    requires
        text::pieces(value, ',', '\n') == seq![value],
        text::trimmed(value) == value,
    ensures
        lists_value(current + ","@ + value, value),
        lists_value(current, other) ==> lists_value(current + ","@ + value, other),
{
    reveal_strlit(",");
    assert(","@ =~= seq![',']);
    text::lemma_pieces_append(current, value, ',', '\n');
    let before = text::pieces(current, ',', '\n');
    let after = text::pieces(current + ","@ + value, ',', '\n');
    assert(after[before.len() as int] == value);
    if lists_value(current, other) {
        let i = choose|i: int|
            0 <= i < before.len() && text::trimmed(#[trigger] before[i]) == other;
        assert(after[i] == before[i]);
    }
}

/// The arguments that look for a session.
pub fn has_session_args(name: &str) -> (result: Vec<String>)
    ensures
        text::strings(result@) == command_line(seq!["has-session"@, "-t"@, name@]),
{
    let rest = vec!["has-session", "-t", name];
    assert(text::texts(rest@) =~= seq!["has-session"@, "-t"@, name@]);
    tmux_command(rest)
}

/// The arguments that create a session, in a working directory where one is given.
pub fn new_session_args(name: &str, working_directory: Option<&str>) -> (result: Vec<String>)
    ensures
        text::strings(result@) == command_line(
            seq!["new-session"@, "-d"@, "-s"@, name@] + match working_directory {
                Some(directory) => seq!["-c"@, directory@],
                None => Seq::empty(),
            },
        ),
{
    let mut rest = vec!["new-session", "-d", "-s", name];
    if let Some(directory) = working_directory {
        rest.push("-c");
        rest.push(directory);
    }
    assert(text::texts(rest@) =~= seq!["new-session"@, "-d"@, "-s"@, name@]
        + match working_directory {
        Some(directory) => seq!["-c"@, directory@],
        None => Seq::empty(),
    });
    tmux_command(rest)
}

/// The arguments that close a session.
pub fn kill_session_args(name: &str) -> (result: Vec<String>)
    ensures
        text::strings(result@) == command_line(seq!["kill-session"@, "-t"@, name@]),
{
    let rest = vec!["kill-session", "-t", name];
    assert(text::texts(rest@) =~= seq!["kill-session"@, "-t"@, name@]);
    tmux_command(rest)
}

/// The arguments that set an option of the server.
pub fn set_server_option_args(option: &str, value: &str) -> (result: Vec<String>)
    ensures
        text::strings(result@) == command_line(seq!["set-option"@, "-s"@, option@, value@]),
{
    let rest = vec!["set-option", "-s", option, value];
    assert(text::texts(rest@) =~= seq!["set-option"@, "-s"@, option@, value@]);
    tmux_command(rest)
}

/// The arguments that ask for the value of an option of the server.
pub fn show_server_option_args(option: &str) -> (result: Vec<String>)
    ensures
        text::strings(result@) == command_line(seq!["show-options"@, "-sv"@, option@]),
{
    let rest = vec!["show-options", "-sv", option];
    assert(text::texts(rest@) =~= seq!["show-options"@, "-sv"@, option@]);
    tmux_command(rest)
}

/// The arguments that append a value, behind a comma, to an option of the server.
pub fn extend_server_option_args(option: &str, value: &str) -> (result: Vec<String>)
    ensures
        text::strings(result@) == command_line(
            seq!["set-option"@, "-sa"@, option@, ","@ + value@],
        ),
{
    let appended = ",".to_owned().concat(value);
    let rest = vec!["set-option", "-sa", option, appended.as_str()];
    assert(text::texts(rest@) =~= seq!["set-option"@, "-sa"@, option@, ","@ + value@]);
    tmux_command(rest)
}

/// The arguments that set an option of a session.
pub fn set_session_option_args(name: &str, option: &str, value: &str) -> (result: Vec<String>)
    ensures
        text::strings(result@) == command_line(
            seq!["set-option"@, "-t"@, name@, option@, value@],
        ),
{
    let rest = vec!["set-option", "-t", name, option, value];
    assert(text::texts(rest@) =~= seq!["set-option"@, "-t"@, name@, option@, value@]);
    tmux_command(rest)
}

/// The arguments that list the panes of all sessions.
pub fn list_panes_args() -> (result: Vec<String>)
    ensures
        text::strings(result@) == command_line(
            seq!["list-panes"@, "-a"@, "-f"@, PANE_FILTER@, "-F"@, PANE_FORMAT@],
        ),
{
    let rest = vec!["list-panes", "-a", "-f", PANE_FILTER, "-F", PANE_FORMAT];
    assert(text::texts(rest@) =~= seq![
        "list-panes"@,
        "-a"@,
        "-f"@,
        PANE_FILTER@,
        "-F"@,
        PANE_FORMAT@,
    ]);
    tmux_command(rest)
}

/// The arguments that print what a pane shows.
pub fn capture_pane_args(pane_id: &str) -> (result: Vec<String>)
    ensures
        text::strings(result@) == command_line(seq!["capture-pane"@, "-p"@, "-t"@, pane_id@]),
{
    let rest = vec!["capture-pane", "-p", "-t", pane_id];
    assert(text::texts(rest@) =~= seq!["capture-pane"@, "-p"@, "-t"@, pane_id@]);
    tmux_command(rest)
}

/// Whether the session of `id` is closed after a reply to the command that closes it, and what to
/// tell where it may not be. A session that was not there is closed.
pub open spec fn kill_outcome(id: u128, reply: ReplyContents) -> Result<(), Seq<char>> {
    match command::ran(reply, "failed to run tmux while closing terminal session"@) {
        Err(message) => Err(message),
        Ok(output) => if output.success || command::tells_of_missing_session(output.stderr) {
            Ok(())
        } else {
            Err(
                "failed to close tmux session "@ + terminal_id::session_name(id) + ": "@
                    + command::error_text(output.stderr, output.stdout, output.status),
            )
        },
    }
}

/// Whether the session of a terminal is closed after a reply to the command that closes it.
pub fn kill_session(terminal_id: TerminalId, reply: CommandReply) -> (result: Result<(), String>)
    ensures
        match result {
            Ok(_) => kill_outcome(terminal_id.value, reply@) == Ok::<(), Seq<char>>(()),
            Err(message) => kill_outcome(terminal_id.value, reply@) == Err::<(), Seq<char>>(
                message@,
            ),
        },
{
    match reply.ran("failed to run tmux while closing terminal session") {
        Ok(output) => if output.success || is_missing_session_output(&output) {
            Ok(())
        } else {
            let name = terminal_thread_tmux_session_name(terminal_id);
            let error = command_error(&output);
            Err(
                "failed to close tmux session ".to_owned().concat(name.as_str()).concat(
                    ": ",
                ).concat(error.as_str()),
            )
        },
        Err(message) => Err(message),
    }
}

/// Whether a session exists, going by a reply to the command that looks for it.
pub open spec fn session_exists(reply: ReplyContents) -> Result<bool, Seq<char>> {
    match command::ran(
        reply,
        "failed to run tmux; install tmux and ensure it is available in PATH"@,
    ) {
        Err(message) => Err(message),
        Ok(output) => Ok(output.success),
    }
}

/// Whether a session exists, going by a reply to the command that looks for it.
pub fn has_session(reply: CommandReply) -> (result: Result<bool, String>)
    ensures
        match result {
            Ok(found) => session_exists(reply@) == Ok::<bool, Seq<char>>(found),
            Err(message) => session_exists(reply@) == Err::<bool, Seq<char>>(message@),
        },
{
    match reply.ran("failed to run tmux; install tmux and ensure it is available in PATH") {
        Ok(output) => Ok(output.success),
        Err(message) => Err(message),
    }
}

/// What a pane shows, going by a reply to the command that prints it.
pub open spec fn captured(pane_id: Seq<char>, reply: ReplyContents) -> Result<
    OutputContents,
    Seq<char>,
> {
    let failure = "failed to capture tmux pane "@ + pane_id;
    command::succeeded(reply, failure, failure)
}

/// What a pane shows, going by a reply to the command that prints it.
pub fn capture_pane(pane_id: &str, reply: CommandReply) -> (result: Result<String, String>)
    ensures
        match result {
            Ok(screen) => captured(pane_id@, reply@) matches Ok(output) && screen@ == output.stdout,
            Err(message) => captured(pane_id@, reply@) == Err::<OutputContents, Seq<char>>(
                message@,
            ),
        },
{
    let failure = "failed to capture tmux pane ".to_owned().concat(pane_id);
    match reply.succeeded(failure.as_str(), failure.as_str()) {
        Ok(output) => Ok(printed_text(&output)),
        Err(message) => Err(message),
    }
}

/// Every command goes to the server of terminal threads, in UTF-8.
pub proof fn commands_go_to_the_server(rest: Seq<Seq<char>>)
    ensures
        command_line(rest) == seq!["-u"@, "-L"@, "zed-terminal-threads"@] + rest,
{
}

/// The panes that are listed are the active ones of active windows, with seven fields between tabs:
/// the terminal that the session tells of, the pane, its command, its title, its directory, whether
/// it is dead, and when its window was last active.
pub proof fn panes_are_listed_with_seven_fields()
    ensures
        PANE_FILTER@ == "#{&&:#{window_active},#{pane_active}}"@,
        PANE_FORMAT@ == "#{@zed-terminal-id}"@ + "\t"@ + "#{pane_id}"@ + "\t"@
            + "#{pane_current_command}"@ + "\t"@ + "#{pane_title}"@ + "\t"@
            + "#{pane_current_path}"@ + "\t"@ + "#{pane_dead}"@ + "\t"@ + "#{window_activity}"@,
{
    reveal_strlit(
        "#{@zed-terminal-id}\t#{pane_id}\t#{pane_current_command}\t#{pane_title}\t#{pane_current_path}\t#{pane_dead}\t#{window_activity}",
    );
    reveal_strlit("#{@zed-terminal-id}");
    reveal_strlit("\t");
    reveal_strlit("#{pane_id}");
    reveal_strlit("#{pane_current_command}");
    reveal_strlit("#{pane_title}");
    reveal_strlit("#{pane_current_path}");
    reveal_strlit("#{pane_dead}");
    reveal_strlit("#{window_activity}");
    assert(PANE_FORMAT@ =~= "#{@zed-terminal-id}"@ + "\t"@ + "#{pane_id}"@ + "\t"@
        + "#{pane_current_command}"@ + "\t"@ + "#{pane_title}"@ + "\t"@ + "#{pane_current_path}"@
        + "\t"@ + "#{pane_dead}"@ + "\t"@ + "#{window_activity}"@);
}

/// A session has just eight options: that it is managed, the terminal, the worktree and the kind and
/// provider that it tells of, and the three by which it behaves as a terminal does.
pub proof fn session_has_eight_options(id: u128, recovery: RecoveryContents)
    ensures
        ({
            let options = session_options(id, recovery);
            &&& options.len() == 8
            &&& options[0] == ("@zed-managed"@, "1"@)
            &&& options[1] == ("@zed-terminal-id"@, terminal_id::key_text(id))
            &&& options[2].0 == "@zed-worktree-path"@
            &&& recovery.worktree_path matches Some(path) ==> options[2].1 == path
            &&& recovery.worktree_path is None ==> options[2].1.len() == 0
            &&& options[3].0 == "@zed-terminal-kind"@
            &&& recovery.kind == TerminalThreadKind::Agent ==> options[3].1 == "agent"@
            &&& recovery.kind == TerminalThreadKind::Shell ==> options[3].1 == "shell"@
            &&& options[4].0 == "@zed-provider"@
            &&& recovery.provider is Some ==> options[4].1 == "codex"@
            &&& recovery.provider is None ==> options[4].1.len() == 0
            &&& options[5] == ("mouse"@, "on"@)
            &&& options[6] == ("remain-on-exit"@, "on"@)
            &&& options[7] == ("status-right"@, "%Y-%m-%d  %H:%M "@)
            &&& recovery_options(id, recovery) == options.take(5)
        }),
{
    assert(recovery_options(id, recovery) =~= session_options(id, recovery).take(5));
}

/// A list has a value just where one of its entries, between commas or line ends, is the value but
/// for white space around it.
pub proof fn entries_are_values(before: Seq<char>, entry: Seq<char>, after: Seq<char>)
    requires
        forall|i: int| 0 <= i < entry.len() ==> entry[i] != ',' && entry[i] != '\n',
    ensures
        lists_value(before + seq![','] + entry + seq!['\n'] + after, text::trimmed(entry)),
        forall|value: Seq<char>| #[trigger]
            lists_value(entry, value) <==> value == text::trimmed(entry),
{
    text::separators_part_pieces(entry, ',', Seq::empty(), ',', '\n');
    text::separators_part_pieces(before, ',', entry, ',', '\n');
    text::separators_part_pieces(before + seq![','] + entry, '\n', after, ',', '\n');
    let first = text::pieces(before, ',', '\n');
    let all = text::pieces(before + seq![','] + entry + seq!['\n'] + after, ',', '\n');
    assert(all[first.len() as int] == entry);
    let only = text::pieces(entry, ',', '\n');
    assert(only[0] == entry);
}

/// A session is closed where the command succeeds or there was none; else it may not be, and the
/// session is named.
pub proof fn missing_sessions_are_closed(id: u128, output: OutputContents, message: Seq<char>)
    ensures
        ({
            let missing = text::holds_text(output.stderr, "no server running"@)
                || text::holds_text(output.stderr, "error connecting"@) || text::holds_text(
                output.stderr,
                "can't find session"@,
            ) || text::holds_text(output.stderr, "no sessions"@);
            &&& output.success || missing ==> kill_outcome(id, ReplyContents::Ran(output)) is Ok
            &&& !output.success && !missing ==> kill_outcome(id, ReplyContents::Ran(output)) == Err::<
                (),
                Seq<char>,
            >(
                "failed to close tmux session "@ + ("zed-"@ + terminal_id::key_text(id)) + ": "@
                    + command::error_text(output.stderr, output.stdout, output.status),
            )
        }),
        kill_outcome(id, ReplyContents::NoProgram(message)) == Err::<(), Seq<char>>(message),
        kill_outcome(id, ReplyContents::NotStarted(message)) == Err::<(), Seq<char>>(
            "failed to run tmux while closing terminal session"@ + ": "@ + message,
        ),
{
}

/// A session is there just where the command that looks for it succeeds; where it cannot be run,
/// that is told.
pub proof fn sessions_are_looked_for(output: OutputContents, message: Seq<char>)
    ensures
        session_exists(ReplyContents::Ran(output)) == Ok::<bool, Seq<char>>(output.success),
        session_exists(ReplyContents::NoProgram(message)) == Err::<bool, Seq<char>>(message),
        session_exists(ReplyContents::NotStarted(message)) == Err::<bool, Seq<char>>(
            "failed to run tmux; install tmux and ensure it is available in PATH"@ + ": "@ + message,
        ),
{
}

/// What a pane shows is what the command prints; where it fails, the pane is named.
pub proof fn captures_name_the_pane(pane_id: Seq<char>, output: OutputContents, message: Seq<char>)
    ensures
        output.success ==> captured(pane_id, ReplyContents::Ran(output)) == Ok::<
            OutputContents,
            Seq<char>,
        >(output),
        !output.success ==> captured(pane_id, ReplyContents::Ran(output)) == Err::<
            OutputContents,
            Seq<char>,
        >(
            "failed to capture tmux pane "@ + pane_id + ": "@ + command::error_text(
                output.stderr,
                output.stdout,
                output.status,
            ),
        ),
        captured(pane_id, ReplyContents::NotStarted(message)) == Err::<OutputContents, Seq<char>>(
            "failed to capture tmux pane "@ + pane_id + ": "@ + message,
        ),
        captured(pane_id, ReplyContents::NoProgram(message)) == Err::<OutputContents, Seq<char>>(
            message,
        ),
{
}

} // verus!
