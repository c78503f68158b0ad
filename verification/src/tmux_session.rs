//! Making sure that a terminal has a tmux session: which command to run next, and what its reply
//! leads to.
use vstd::prelude::*;

use crate::command;
use crate::command::{printed_text, CommandReply, OutputContents, ReplyContents};
use crate::terminal_id;
use crate::terminal_id::{terminal_thread_tmux_session_name, TerminalId};
use crate::terminal_thread::{TerminalThreadKind, TerminalThreadProvider};
use crate::text;
use crate::tmux_command;
use crate::tmux_command::{
    all_session_options, extend_server_option_args, has_session, has_session_args,
    kill_session_args, new_session_args, server_option_contains, set_server_option_args,
    set_session_option_args, show_server_option_args, RecoveryContents,
    TmuxSessionRecoveryMetadata,
};

verus! {

/// The first of the steps that set an option of the session.
pub const FIRST_SESSION_OPTION_STEP: usize = 4;

/// The number of steps that configure a session.
pub const CONFIGURE_STEP_COUNT: usize = 12;

/// How far the work on a session has come.
#[derive(Debug)]
pub enum EnsureStage {
    /// The session is looked for.
    LookUp,
    /// The session is created.
    Create,
    /// The session could not be created, for the reason given; it is looked for again.
    LookUpAgain(String),
    /// The options of a session, whether created here or not, are set, one at a step.
    Configure { created: bool, step: usize },
    /// A session that was created could not be configured, for the reason given, and is closed.
    CleanUp(String),
    /// The session is there, and whether it was created here; or why it is not there.
    Finished(Result<bool, String>),
}

/// The contents of an `EnsureStage`.
pub enum StageContents {
    LookUp,
    Create,
    LookUpAgain(Seq<char>),
    Configure { created: bool, step: int },
    CleanUp(Seq<char>),
    Finished(Result<bool, Seq<char>>),
}

impl View for EnsureStage {
    type V = StageContents;

    open spec fn view(&self) -> StageContents {
        match *self {
            EnsureStage::LookUp => StageContents::LookUp,
            EnsureStage::Create => StageContents::Create,
            EnsureStage::LookUpAgain(message) => StageContents::LookUpAgain(message@),
            EnsureStage::Configure { created, step } => StageContents::Configure {
                created,
                step: step as int,
            },
            EnsureStage::CleanUp(message) => StageContents::CleanUp(message@),
            EnsureStage::Finished(Ok(created)) => StageContents::Finished(Ok(created)),
            EnsureStage::Finished(Err(message)) => StageContents::Finished(Err(message@)),
        }
    }
}

/// The session that is wanted: its terminal, where it works, and what it tells of the terminal.
#[verifier::ext_equal]
pub struct SessionRequest {
    pub id: u128,
    pub working_directory: Option<Seq<char>>,
    pub recovery: RecoveryContents,
}

impl SessionRequest {
    /// The name of the session.
    pub open spec fn name(self) -> Seq<char> {
        terminal_id::session_name(self.id)
    }

    /// The option that is set at a step that sets one of the session.
    pub open spec fn option(self, step: int) -> (Seq<char>, Seq<char>) {
        tmux_command::session_options(self.id, self.recovery)[step - FIRST_SESSION_OPTION_STEP]
    }

    /// The arguments of the command of a configuration step. The first two set options of the
    /// server; the third asks for one that is a list, and the fourth extends it; the others set
    /// the options of the session.
    pub open spec fn configure_command(self, step: int) -> Seq<Seq<char>> {
        tmux_command::command_line(
            if step == 0 {
                seq!["set-option"@, "-s"@, "extended-keys"@, "always"@]
            } else if step == 1 {
                seq!["set-option"@, "-s"@, "extended-keys-format"@, "csi-u"@]
            } else if step == 2 {
                seq!["show-options"@, "-sv"@, "terminal-features"@]
            } else if step == 3 {
                seq!["set-option"@, "-sa"@, "terminal-features"@, ","@ + "xterm*:extkeys"@]
            } else {
                seq!["set-option"@, "-t"@, self.name(), self.option(step).0, self.option(step).1]
            },
        )
    }

    /// What to put before the reason, where the command of a configuration step was not started.
    pub open spec fn configure_context(self, step: int) -> Seq<char> {
        if step == 0 {
            "failed to configure tmux server option extended-keys"@
        } else if step == 1 {
            "failed to configure tmux server option extended-keys-format"@
        } else if step == 2 {
            "failed to query tmux server option terminal-features"@
        } else if step == 3 {
            "failed to extend tmux server option terminal-features"@
        } else {
            "failed to configure tmux option "@ + self.option(step).0
        }
    }

    /// What to put before the reason, where the command of a configuration step failed.
    pub open spec fn configure_failure(self, step: int) -> Seq<char> {
        if step < FIRST_SESSION_OPTION_STEP {
            self.configure_context(step)
        } else {
            "failed to configure tmux session "@ + self.name()
        }
    }

    /// The step that follows a step whose command succeeded and printed `printed`. A list that
    /// has the value is not extended.
    pub open spec fn following_step(self, step: int, printed: Seq<char>) -> int {
        if step == 2 && tmux_command::lists_value(printed, "xterm*:extkeys"@) {
            FIRST_SESSION_OPTION_STEP as int
        } else {
            step + 1
        }
    }

    /// The arguments of the command of a stage.
    pub open spec fn command(self, stage: StageContents) -> Option<Seq<Seq<char>>> {
        match stage {
            StageContents::LookUp | StageContents::LookUpAgain(_) => Some(
                tmux_command::command_line(seq!["has-session"@, "-t"@, self.name()]),
            ),
            StageContents::Create => Some(
                tmux_command::command_line(
                    seq!["new-session"@, "-d"@, "-s"@, self.name()]
                        + match self.working_directory {
                        Some(directory) => seq!["-c"@, directory],
                        None => Seq::empty(),
                    },
                ),
            ),
            StageContents::Configure { step, .. } => Some(self.configure_command(step)),
            StageContents::CleanUp(_) => Some(
                tmux_command::command_line(seq!["kill-session"@, "-t"@, self.name()]),
            ),
            StageContents::Finished(_) => None,
        }
    }

    /// The stage that a reply to the command of a configuration step leads to.
    pub open spec fn after_configure(
        self,
        created: bool,
        step: int,
        reply: ReplyContents,
    ) -> StageContents {
        match command::succeeded(
            reply,
            self.configure_context(step),
            self.configure_failure(step),
        ) {
            Err(message) => if created {
                StageContents::CleanUp(message)
            } else {
                StageContents::Finished(Err(message))
            },
            Ok(output) => if self.following_step(step, output.stdout) >= CONFIGURE_STEP_COUNT {
                StageContents::Finished(Ok(created))
            } else {
                StageContents::Configure {
                    created,
                    step: self.following_step(step, output.stdout),
                }
            },
        }
    }

    /// The stage that a reply to the command of a stage leads to.
    pub open spec fn next(self, stage: StageContents, reply: ReplyContents) -> StageContents {
        match stage {
            StageContents::LookUp => match tmux_command::session_exists(reply) {
                Err(message) => StageContents::Finished(Err(message)),
                Ok(true) => StageContents::Configure { created: false, step: 0 },
                Ok(false) => StageContents::Create,
            },
            StageContents::Create => match command::ran(
                reply,
                "failed to start tmux; install tmux and ensure it is available in PATH"@,
            ) {
                Err(message) => StageContents::Finished(Err(message)),
                Ok(output) => if output.success {
                    StageContents::Configure { created: true, step: 0 }
                } else {
                    StageContents::LookUpAgain(
                        "failed to create tmux session "@ + self.name() + ": "@
                            + command::error_text(output.stderr, output.stdout, output.status),
                    )
                },
            },
            StageContents::LookUpAgain(message) => if tmux_command::session_exists(reply) == Ok::<
                bool,
                Seq<char>,
            >(true) {
                StageContents::Finished(Ok(false))
            } else {
                StageContents::Finished(Err(message))
            },
            StageContents::Configure { created, step } => self.after_configure(
                created,
                step,
                reply,
            ),
            StageContents::CleanUp(message) => StageContents::Finished(Err(message)),
            StageContents::Finished(outcome) => stage,
        }
    }
}

impl StageContents {
    /// Whether a step, where the stage has one, is one of those that configure a session.
    pub open spec fn valid(self) -> bool {
        self matches StageContents::Configure { step, .. } ==> 0 <= step < CONFIGURE_STEP_COUNT
    }

    /// The most commands that are still to run.
    pub open spec fn commands_left(self) -> int {
        match self {
            StageContents::LookUp => CONFIGURE_STEP_COUNT + 3,
            StageContents::Create => CONFIGURE_STEP_COUNT + 2,
            StageContents::LookUpAgain(_) => 1,
            StageContents::Configure { step, .. } => CONFIGURE_STEP_COUNT - step + 1,
            StageContents::CleanUp(_) => 1,
            StageContents::Finished(_) => 0,
        }
    }
}

/// Every reply brings the work nearer to its end, whatever the reply: after fifteen commands at
/// most it is finished.
pub proof fn ensure_session_ends(
    request: SessionRequest,
    stage: StageContents,
    reply: ReplyContents,
)
    requires
        stage.valid(),
        !(stage is Finished),
    ensures
        request.next(stage, reply).valid(),
        0 <= request.next(stage, reply).commands_left() < stage.commands_left() <= 15,
{
}

/// A session is closed only where it was created here and could not be configured.
pub proof fn only_created_sessions_are_closed(
    request: SessionRequest,
    stage: StageContents,
    reply: ReplyContents,
)
    requires
        !(stage is CleanUp),
        request.next(stage, reply) is CleanUp,
    ensures
        stage matches StageContents::Configure { created, step } && created && command::succeeded(
            reply,
            request.configure_context(step),
            request.configure_failure(step),
        ) is Err,
{
}

/// A session is said to be created here only once every option of it was set.
pub proof fn created_sessions_are_configured(
    request: SessionRequest,
    stage: StageContents,
    reply: ReplyContents,
)
    requires
        stage.valid(),
        !(stage is Finished),
        request.next(stage, reply) == StageContents::Finished(Ok::<bool, Seq<char>>(true)),
    ensures
        stage == (StageContents::Configure { created: true, step: CONFIGURE_STEP_COUNT - 1 }),
{
}

/// The work of making sure that a terminal has a session.
#[derive(Debug)]
pub struct EnsureSession {
    terminal_id: TerminalId,
    working_directory: Option<String>,
    recovery_metadata: TmuxSessionRecoveryMetadata,
    stage: EnsureStage,
}

impl EnsureSession {
    /// The session that is wanted.
    pub closed spec fn request(&self) -> SessionRequest {
        SessionRequest {
            id: self.terminal_id.value,
            working_directory: text::string_option(self.working_directory),
            recovery: self.recovery_metadata@,
        }
    }

    /// How far the work has come.
    pub closed spec fn at(&self) -> StageContents {
        self.stage@
    }

    /// The start of the work: the session is to be looked for.
    pub fn ensure_session(
        terminal_id: TerminalId,
        working_directory: Option<String>,
        recovery_metadata: TmuxSessionRecoveryMetadata,
    ) -> (result: EnsureSession)
        ensures
            result.request() == (SessionRequest {
                id: terminal_id.value,
                working_directory: text::string_option(working_directory),
                recovery: recovery_metadata@,
            }),
            result.at() == StageContents::LookUp,
    {
        EnsureSession {
            terminal_id,
            working_directory,
            recovery_metadata,
            stage: EnsureStage::LookUp,
        }
    }

    /// The arguments of the command to run next, until the work is finished.
    pub fn command(&self) -> (result: Option<Vec<String>>)
        requires
            self.at().valid(),
        ensures
            match result {
                Some(args) => self.request().command(self.at()) == Some(text::strings(args@)),
                None => self.request().command(self.at()) is None,
            },
    {
        let name = terminal_thread_tmux_session_name(self.terminal_id);
        match &self.stage {
            EnsureStage::LookUp | EnsureStage::LookUpAgain(_) => Some(
                has_session_args(name.as_str()),
            ),
            EnsureStage::Create => {
                let directory = match &self.working_directory {
                    Some(directory) => Some(directory.as_str()),
                    None => None,
                };
                Some(new_session_args(name.as_str(), directory))
            },
            EnsureStage::Configure { step, .. } => Some(
                self.configure_args(*step, name.as_str()),
            ),
            EnsureStage::CleanUp(_) => Some(kill_session_args(name.as_str())),
            EnsureStage::Finished(_) => None,
        }
    }

    fn configure_args(&self, step: usize, name: &str) -> (result: Vec<String>)
        requires
            step < CONFIGURE_STEP_COUNT,
            name@ == self.request().name(),
        ensures
            text::strings(result@) == self.request().configure_command(step as int),
    {
        if step == 0 {
            set_server_option_args("extended-keys", "always")
        } else if step == 1 {
            set_server_option_args("extended-keys-format", "csi-u")
        } else if step == 2 {
            show_server_option_args("terminal-features")
        } else if step == 3 {
            extend_server_option_args("terminal-features", "xterm*:extkeys")
        } else {
            let options = all_session_options(self.terminal_id, &self.recovery_metadata);
            let ghost all = tmux_command::option_texts(options@);
            assert(all.len() == 8);
            let option = &options[step - FIRST_SESSION_OPTION_STEP];
            assert(all[step - FIRST_SESSION_OPTION_STEP] == (option.0@, option.1@));
            set_session_option_args(name, option.0, option.1.as_str())
        }
    }

    fn option_name(&self, step: usize) -> (result: &'static str)
        requires
            FIRST_SESSION_OPTION_STEP <= step < CONFIGURE_STEP_COUNT,
        ensures
            result@ == self.request().option(step as int).0,
    {
        let options = all_session_options(self.terminal_id, &self.recovery_metadata);
        let ghost all = tmux_command::option_texts(options@);
        assert(all.len() == 8);
        let option = &options[step - FIRST_SESSION_OPTION_STEP];
        assert(all[step - FIRST_SESSION_OPTION_STEP] == (option.0@, option.1@));
        option.0
    }

    fn configure_context(&self, step: usize) -> (result: String)
        requires
            step < CONFIGURE_STEP_COUNT,
        ensures
            result@ == self.request().configure_context(step as int),
    {
        if step == 0 {
            "failed to configure tmux server option extended-keys".to_owned()
        } else if step == 1 {
            "failed to configure tmux server option extended-keys-format".to_owned()
        } else if step == 2 {
            "failed to query tmux server option terminal-features".to_owned()
        } else if step == 3 {
            "failed to extend tmux server option terminal-features".to_owned()
        } else {
            "failed to configure tmux option ".to_owned().concat(self.option_name(step))
        }
    }

    fn configure_failure(&self, step: usize) -> (result: String)
        requires
            step < CONFIGURE_STEP_COUNT,
        ensures
            result@ == self.request().configure_failure(step as int),
    {
        if step < FIRST_SESSION_OPTION_STEP {
            self.configure_context(step)
        } else {
            let name = terminal_thread_tmux_session_name(self.terminal_id);
            "failed to configure tmux session ".to_owned().concat(name.as_str())
        }
    }

    fn configure_session(&self, created: bool, step: usize, reply: CommandReply) -> (result:
        EnsureStage)
        requires
            step < CONFIGURE_STEP_COUNT,
        ensures
            result@ == self.request().after_configure(created, step as int, reply@),
    {
        let context = self.configure_context(step);
        let failure = self.configure_failure(step);
        match reply.succeeded(context.as_str(), failure.as_str()) {
            Ok(output) => {
                let following: usize = if step == 2 && server_option_contains(
                    printed_text(&output).as_str(),
                    "xterm*:extkeys",
                ) {
                    FIRST_SESSION_OPTION_STEP
                } else {
                    step + 1
                };
                if following >= CONFIGURE_STEP_COUNT {
                    EnsureStage::Finished(Ok(created))
                } else {
                    EnsureStage::Configure { created, step: following }
                }
            },
            Err(message) => if created {
                EnsureStage::CleanUp(message)
            } else {
                EnsureStage::Finished(Err(message))
            },
        }
    }

    /// Takes the reply to the command that was to run.
    pub fn reply(&mut self, reply: CommandReply)
        requires
            old(self).at().valid(),
        ensures
            final(self).request() == old(self).request(),
            final(self).at() == old(self).request().next(old(self).at(), reply@),
            final(self).at().valid(),
    {
        let next = match &self.stage {
            EnsureStage::LookUp => match has_session(reply) {
                Ok(true) => EnsureStage::Configure { created: false, step: 0 },
                Ok(false) => EnsureStage::Create,
                Err(message) => EnsureStage::Finished(Err(message)),
            },
            EnsureStage::Create => match reply.ran(
                "failed to start tmux; install tmux and ensure it is available in PATH",
            ) {
                Ok(output) => if output.success {
                    EnsureStage::Configure { created: true, step: 0 }
                } else {
                    let name = terminal_thread_tmux_session_name(self.terminal_id);
                    let error = command::command_error(&output);
                    EnsureStage::LookUpAgain(
                        "failed to create tmux session ".to_owned().concat(name.as_str()).concat(
                            ": ",
                        ).concat(error.as_str()),
                    )
                },
                Err(message) => EnsureStage::Finished(Err(message)),
            },
            EnsureStage::LookUpAgain(failed) => match has_session(reply) {
                Ok(true) => EnsureStage::Finished(Ok(false)),
                _ => EnsureStage::Finished(Err(failed.clone())),
            },
            EnsureStage::Configure { created, step } => self.configure_session(
                *created,
                *step,
                reply,
            ),
            EnsureStage::CleanUp(message) => EnsureStage::Finished(Err(message.clone())),
            EnsureStage::Finished(_) => {
                return ;
            },
        };
        self.stage = next;
    }

    /// What came of the work, once it is finished: whether the session was created here, or why it
    /// is not there.
    pub fn outcome(&self) -> (result: Option<Result<bool, String>>)
        ensures
            match result {
                Some(Ok(created)) => self.at() == StageContents::Finished(
                    Ok::<bool, Seq<char>>(created),
                ),
                Some(Err(message)) => self.at() == StageContents::Finished(
                    Err::<bool, Seq<char>>(message@),
                ),
                None => !(self.at() is Finished),
            },
    {
        match &self.stage {
            EnsureStage::Finished(Ok(created)) => Some(Ok(*created)),
            EnsureStage::Finished(Err(message)) => Some(Err(message.clone())),
            _ => None,
        }
    }
}

/// The stage that replies lead to, one after the other, from the start.
pub open spec fn stage_after(request: SessionRequest, replies: Seq<ReplyContents>) -> StageContents
    decreases replies.len(),
{
    if replies.len() == 0 {
        StageContents::LookUp
    } else {
        request.next(stage_after(request, replies.drop_last()), replies.last())
    }
}

/// Whether a reply tells that a command ran and succeeded.
pub open spec fn went_well(reply: ReplyContents) -> bool {
    reply matches ReplyContents::Ran(output) && output.success
}

/// Whether, while replies came, the command with these arguments was run and succeeded.
pub open spec fn was_run(
    request: SessionRequest,
    replies: Seq<ReplyContents>,
    args: Seq<Seq<char>>,
) -> bool {
    exists|i: int|
        0 <= i < replies.len() && request.command(
            #[trigger] stage_after(request, replies.take(i)),
        ) == Some(args) && went_well(replies[i])
}

/// Whether, while replies came, the list of the features of terminals was seen to have an entry.
pub open spec fn was_seen_in_features(
    request: SessionRequest,
    replies: Seq<ReplyContents>,
    entry: Seq<char>,
) -> bool {
    exists|i: int|
        0 <= i < replies.len() && request.command(
            #[trigger] stage_after(request, replies.take(i)),
        ) == Some(
            seq![
                "-u"@,
                "-L"@,
                "zed-terminal-threads"@,
                "show-options"@,
                "-sv"@,
                "terminal-features"@,
            ],
        ) && (replies[i] matches ReplyContents::Ran(output) && output.success
            && tmux_command::lists_value(output.stdout, entry))
}

proof fn lemma_was_run_stays(
    request: SessionRequest,
    replies: Seq<ReplyContents>,
    args: Seq<Seq<char>>,
    entry: Seq<char>,
)
    requires
        replies.len() > 0,
    ensures
        was_run(request, replies.drop_last(), args) ==> was_run(request, replies, args),
        was_seen_in_features(request, replies.drop_last(), entry) ==> was_seen_in_features(
            request,
            replies,
            entry,
        ),
{
    let rest = replies.drop_last();
    if was_run(request, rest, args) {
        let i = choose|i: int|
            0 <= i < rest.len() && request.command(
                #[trigger] stage_after(request, rest.take(i)),
            ) == Some(args) && went_well(rest[i]);
        assert(replies.take(i) =~= rest.take(i));
        assert(request.command(stage_after(request, replies.take(i))) == Some(args));
    }
    if was_seen_in_features(request, rest, entry) {
        let i = choose|i: int|
            0 <= i < rest.len() && request.command(
                #[trigger] stage_after(request, rest.take(i)),
            ) == Some(
                seq![
                    "-u"@,
                    "-L"@,
                    "zed-terminal-threads"@,
                    "show-options"@,
                    "-sv"@,
                    "terminal-features"@,
                ],
            ) && (rest[i] matches ReplyContents::Ran(output) && output.success
                && tmux_command::lists_value(output.stdout, entry));
        assert(replies.take(i) =~= rest.take(i));
        assert(stage_after(request, replies.take(i)) == stage_after(request, rest.take(i)));
    }
}

/// Whether the commands of the configuration steps before `step` were run, but for the one that
/// extends the list of features where the entry was seen in it.
spec fn configured_up_to(request: SessionRequest, replies: Seq<ReplyContents>, step: int) -> bool {
    &&& forall|k: int|
        0 <= k < step && k != 3 ==> was_run(
            request,
            replies,
            #[trigger] request.configure_command(k),
        )
    &&& step > 3 ==> was_run(request, replies, request.configure_command(3))
        || was_seen_in_features(request, replies, "xterm*:extkeys"@)
}

proof fn lemma_configured_up_to(request: SessionRequest, replies: Seq<ReplyContents>)
    ensures
        ({
            let stage = stage_after(request, replies);
            &&& stage.valid()
            &&& stage is LookUp ==> replies.len() == 0
            &&& replies.len() > 0 && went_well(replies[0]) ==> !(stage is Create)
                && !(stage is LookUpAgain) && !(stage is CleanUp) && !(stage matches
                StageContents::Configure { created, .. } && created) && stage
                != StageContents::Finished(Ok::<bool, Seq<char>>(true))
            &&& stage matches StageContents::Configure { step, .. } ==> configured_up_to(
                request,
                replies,
                step,
            )
            &&& stage matches StageContents::Finished(Ok(created)) ==> configured_up_to(
                request,
                replies,
                12,
            ) || (!created && !went_well(replies[0]))
        }),
    decreases replies.len(),
{
    if replies.len() > 0 {
        let rest = replies.drop_last();
        let at = rest.len() as int;
        lemma_configured_up_to(request, rest);
        let before = stage_after(request, rest);
        let reply = replies.last();
        let stage = stage_after(request, replies);
        assert(replies.take(at) =~= rest);
        assert(stage_after(request, replies.take(at)) == before);
        assert(replies[at] == reply);
        assert(rest.len() > 0 ==> rest[0] == replies[0]);
        let entry = "xterm*:extkeys"@;
        assert forall|args: Seq<Seq<char>>| was_run(request, rest, args) implies was_run(
            request,
            replies,
            args,
        ) by {
            lemma_was_run_stays(request, replies, args, entry);
        }
        lemma_was_run_stays(request, replies, Seq::empty(), entry);
        if let StageContents::Configure { created, step } = before {
            if went_well(reply) {
                assert(was_run(request, replies, request.configure_command(step)));
                assert forall|k: int| 0 <= k <= step && k != 3 implies was_run(
                    request,
                    replies,
                    #[trigger] request.configure_command(k),
                ) by {
                    if k < step {
                        assert(was_run(request, rest, request.configure_command(k)));
                    }
                }
                if step == 2 && !(stage == (StageContents::Configure { created, step: 3 })) {
                    assert(request.configure_command(2) =~= seq![
                        "-u"@,
                        "-L"@,
                        "zed-terminal-threads"@,
                        "show-options"@,
                        "-sv"@,
                        "terminal-features"@,
                    ]);
                    assert(was_seen_in_features(request, replies, entry));
                }
                assert(configured_up_to(request, replies, step + 1) || step == 2);
            }
        }
        if let StageContents::Finished(Ok(created)) = before {
            if configured_up_to(request, rest, 12) {
                assert forall|k: int| 0 <= k < 12 && k != 3 implies was_run(
                    request,
                    replies,
                    #[trigger] request.configure_command(k),
                ) by {
                    assert(was_run(request, rest, request.configure_command(k)));
                }
                assert(configured_up_to(request, replies, 12));
            }
        }
    }
}

/// A session that is said to be there was configured in full: where it was created here, or found
/// at the first look, each of its eight options was set, with its value, by a command that was run
/// and succeeded.
pub proof fn every_session_option_is_set(
    request: SessionRequest,
    replies: Seq<ReplyContents>,
    created: bool,
    option: Seq<char>,
    value: Seq<char>,
)
    requires
        stage_after(request, replies) == StageContents::Finished(Ok::<bool, Seq<char>>(created)),
        created || went_well(replies[0]),
        ({
            ||| option == "@zed-managed"@ && value == "1"@
            ||| option == "@zed-terminal-id"@ && value == terminal_id::key_text(request.id)
            ||| option == "@zed-worktree-path"@ && request.recovery.worktree_path == Some(value)
            ||| option == "@zed-worktree-path"@ && request.recovery.worktree_path is None
                && value.len() == 0
            ||| option == "@zed-terminal-kind"@ && request.recovery.kind
                == TerminalThreadKind::Agent && value == "agent"@
            ||| option == "@zed-terminal-kind"@ && request.recovery.kind
                == TerminalThreadKind::Shell && value == "shell"@
            ||| option == "@zed-provider"@ && request.recovery.provider == Some(
                TerminalThreadProvider::Codex,
            ) && value == "codex"@
            ||| option == "@zed-provider"@ && request.recovery.provider is None && value.len() == 0
            ||| option == "mouse"@ && value == "on"@
            ||| option == "remain-on-exit"@ && value == "on"@
            ||| option == "status-right"@ && value == "%Y-%m-%d  %H:%M "@
        }),
    ensures
        was_run(
            request,
            replies,
            seq![
                "-u"@,
                "-L"@,
                "zed-terminal-threads"@,
                "set-option"@,
                "-t"@,
                "zed-"@ + terminal_id::key_text(request.id),
                option,
                value,
            ],
        ),
{
    lemma_configured_up_to(request, replies);
    let args = seq![
        "-u"@,
        "-L"@,
        "zed-terminal-threads"@,
        "set-option"@,
        "-t"@,
        "zed-"@ + terminal_id::key_text(request.id),
        option,
        value,
    ];
    assert(forall|k: int|
        4 <= k < 12 ==> was_run(request, replies, #[trigger] request.configure_command(k)));
    let options = tmux_command::session_options(request.id, request.recovery);
    let pair = (option, value);
    assert(value.len() == 0 ==> value =~= Seq::empty());
    assert(options[0] == pair || options[1] == pair || options[2] == pair || options[3] == pair
        || options[4] == pair || options[5] == pair || options[6] == pair || options[7] == pair);
    let k = choose|k: int| 0 <= k < 8 && options[k] == pair;
    assert(request.configure_command(k + 4) =~= args);
}

/// A session that is said to be there has a server that is set up for it: extended keys are always
/// on and written in the `csi-u` form, and the features of terminals list `xterm*:extkeys`, or were
/// extended by it.
pub proof fn server_is_configured(
    request: SessionRequest,
    replies: Seq<ReplyContents>,
    created: bool,
)
    requires
        stage_after(request, replies) == StageContents::Finished(Ok::<bool, Seq<char>>(created)),
        created || went_well(replies[0]),
    ensures
        ({
            let server = seq!["-u"@, "-L"@, "zed-terminal-threads"@];
            &&& was_run(
                request,
                replies,
                server + seq!["set-option"@, "-s"@, "extended-keys"@, "always"@],
            )
            &&& was_run(
                request,
                replies,
                server + seq!["set-option"@, "-s"@, "extended-keys-format"@, "csi-u"@],
            )
            &&& was_seen_in_features(request, replies, "xterm*:extkeys"@) || was_run(
                request,
                replies,
                server + seq!["set-option"@, "-sa"@, "terminal-features"@, ",xterm*:extkeys"@],
            )
        }),
{
    lemma_configured_up_to(request, replies);
    let server = seq!["-u"@, "-L"@, "zed-terminal-threads"@];
    assert(was_run(request, replies, request.configure_command(0)));
    assert(was_run(request, replies, request.configure_command(1)));
    reveal_strlit(",");
    reveal_strlit("xterm*:extkeys");
    reveal_strlit(",xterm*:extkeys");
    assert(","@ + "xterm*:extkeys"@ =~= ",xterm*:extkeys"@);
    assert(request.configure_command(0) =~= server + seq![
        "set-option"@,
        "-s"@,
        "extended-keys"@,
        "always"@,
    ]);
    assert(request.configure_command(1) =~= server + seq![
        "set-option"@,
        "-s"@,
        "extended-keys-format"@,
        "csi-u"@,
    ]);
    assert(request.configure_command(3) =~= server + seq![
        "set-option"@,
        "-sa"@,
        "terminal-features"@,
        ",xterm*:extkeys"@,
    ]);
}

/// A session that is found at the first look is only configured: no command but those that set and
/// show options is run, and it is never said to be created here.
pub proof fn found_session_is_kept(request: SessionRequest, replies: Seq<ReplyContents>)
    requires
        replies.len() > 0,
        went_well(replies[0]),
    ensures
        stage_after(request, replies) != StageContents::Finished(Ok::<bool, Seq<char>>(true)),
        request.command(stage_after(request, replies)) matches Some(args) ==> args.len() > 3 && (
        args[3] == "set-option"@ || args[3] == "show-options"@),
{
    lemma_configured_up_to(request, replies);
}

/// The work begins with a look for the session by its name. Where it is not there, it is created
/// under that name, in the working directory where one is wanted; where tmux cannot be run, that is
/// told.
pub proof fn missing_session_is_created(request: SessionRequest, reply: ReplyContents)
    ensures
        ({
            let name = "zed-"@ + terminal_id::key_text(request.id);
            let server = seq!["-u"@, "-L"@, "zed-terminal-threads"@];
            let stage = stage_after(request, seq![reply]);
            &&& request.command(stage_after(request, Seq::empty())) == Some(
                server + seq!["has-session"@, "-t"@, name],
            )
            &&& reply is Ran && !went_well(reply) ==> request.command(stage) == Some(
                match request.working_directory {
                    Some(directory) => server + seq![
                        "new-session"@,
                        "-d"@,
                        "-s"@,
                        name,
                        "-c"@,
                        directory,
                    ],
                    None => server + seq!["new-session"@, "-d"@, "-s"@, name],
                },
            )
            &&& reply matches ReplyContents::NoProgram(message) ==> stage
                == StageContents::Finished(Err::<bool, Seq<char>>(message))
            &&& reply matches ReplyContents::NotStarted(message) ==> stage
                == StageContents::Finished(
                Err::<bool, Seq<char>>(
                    "failed to run tmux; install tmux and ensure it is available in PATH"@ + ": "@
                        + message,
                ),
            )
        }),
{
    let name = "zed-"@ + terminal_id::key_text(request.id);
    let server = seq!["-u"@, "-L"@, "zed-terminal-threads"@];
    assert(seq![reply].drop_last() =~= Seq::empty());
    assert(seq![reply].last() == reply);
    assert(stage_after(request, Seq::empty()) == StageContents::LookUp);
    assert(request.command(StageContents::LookUp)->0 =~= server + seq!["has-session"@, "-t"@, name]);
    match request.working_directory {
        Some(directory) => {
            assert(request.command(StageContents::Create)->0 =~= server + seq![
                "new-session"@,
                "-d"@,
                "-s"@,
                name,
                "-c"@,
                directory,
            ]);
        },
        None => {
            assert(request.command(StageContents::Create)->0 =~= server + seq![
                "new-session"@,
                "-d"@,
                "-s"@,
                name,
            ]);
        },
    }
}

/// The outcome says who created the session: one that is found is configured from the first option on
/// and said to be found, and one that is created is configured in the same way and said to be created.
pub proof fn outcome_tells_who_created(
    request: SessionRequest,
    output: OutputContents,
    created: bool,
    step: int,
)
    requires
        output.success,
        0 <= step < 12,
    ensures
        ({
            let reply = ReplyContents::Ran(output);
            let after = request.next(StageContents::Configure { created, step }, reply);
            &&& request.next(StageContents::LookUp, reply) == (StageContents::Configure {
                created: false,
                step: 0,
            })
            &&& request.next(StageContents::Create, reply) == (StageContents::Configure {
                created: true,
                step: 0,
            })
            &&& step == 11 ==> after == StageContents::Finished(Ok::<bool, Seq<char>>(created))
            &&& step < 11 && step != 2 ==> after == (StageContents::Configure {
                created,
                step: step + 1,
            })
            &&& step == 2 && tmux_command::lists_value(output.stdout, "xterm*:extkeys"@) ==> after
                == (StageContents::Configure { created, step: 4 })
            &&& step == 2 && !tmux_command::lists_value(output.stdout, "xterm*:extkeys"@) ==> after
                == (StageContents::Configure { created, step: 3 })
        }),
{
}

/// Where tmux cannot be run to create a session, that is told.
pub proof fn creation_without_tmux_is_told(request: SessionRequest, message: Seq<char>)
    ensures
        request.next(StageContents::Create, ReplyContents::NoProgram(message))
            == StageContents::Finished(Err::<bool, Seq<char>>(message)),
        request.next(StageContents::Create, ReplyContents::NotStarted(message))
            == StageContents::Finished(
            Err::<bool, Seq<char>>(
                "failed to start tmux; install tmux and ensure it is available in PATH"@ + ": "@
                    + message,
            ),
        ),
{
}

/// Where a session cannot be created it is looked for once more: if it is there by now, that is well,
/// and it was not created here; else what tmux said of the failed creation is told.
pub proof fn failed_creation_is_looked_into(
    request: SessionRequest,
    output: OutputContents,
    again: ReplyContents,
)
    requires
        !output.success,
    ensures
        ({
            let name = "zed-"@ + terminal_id::key_text(request.id);
            let stage = request.next(StageContents::Create, ReplyContents::Ran(output));
            &&& request.command(stage) == Some(
                seq!["-u"@, "-L"@, "zed-terminal-threads"@, "has-session"@, "-t"@, name],
            )
            &&& request.next(stage, again) == StageContents::Finished(
                if went_well(again) {
                    Ok::<bool, Seq<char>>(false)
                } else {
                    Err(
                        "failed to create tmux session "@ + name + ": "@ + command::error_text(
                            output.stderr,
                            output.stdout,
                            output.status,
                        ),
                    )
                },
            )
        }),
{
    let name = "zed-"@ + terminal_id::key_text(request.id);
    let stage = request.next(StageContents::Create, ReplyContents::Ran(output));
    assert(request.command(stage)->0 =~= seq![
        "-u"@,
        "-L"@,
        "zed-terminal-threads"@,
        "has-session"@,
        "-t"@,
        name,
    ]);
}

/// Where an option cannot be set, the work fails: a session that was created here is closed before,
/// whatever comes of that, and one that was found is left alone.
pub proof fn failed_configuration_fails(
    request: SessionRequest,
    created: bool,
    step: int,
    reply: ReplyContents,
    closing: ReplyContents,
)
    requires
        0 <= step < 12,
        !went_well(reply),
    ensures
        ({
            let stage = request.next(StageContents::Configure { created, step }, reply);
            if created {
                &&& request.command(stage) == Some(
                    seq![
                        "-u"@,
                        "-L"@,
                        "zed-terminal-threads"@,
                        "kill-session"@,
                        "-t"@,
                        "zed-"@ + terminal_id::key_text(request.id),
                    ],
                )
                &&& request.next(stage, closing) matches StageContents::Finished(Err(_))
            } else {
                stage matches StageContents::Finished(Err(_))
            }
        }),
{
    let stage = request.next(StageContents::Configure { created, step }, reply);
    if created {
        assert(request.command(stage)->0 =~= seq![
            "-u"@,
            "-L"@,
            "zed-terminal-threads"@,
            "kill-session"@,
            "-t"@,
            "zed-"@ + terminal_id::key_text(request.id),
        ]);
    }
}

/// What is told of an option that could not be set or asked for: what was said where tmux was not
/// found; else the name of the option, or of the session, before it.
pub proof fn failed_options_are_named(
    request: SessionRequest,
    step: int,
    message: Seq<char>,
    output: OutputContents,
)
    requires
        0 <= step < 12,
        !output.success,
    ensures
        ({
            let stage = StageContents::Configure { created: false, step };
            let said = command::error_text(output.stderr, output.stdout, output.status);
            let server = if step == 0 {
                "failed to configure tmux server option extended-keys"@
            } else if step == 1 {
                "failed to configure tmux server option extended-keys-format"@
            } else if step == 2 {
                "failed to query tmux server option terminal-features"@
            } else {
                "failed to extend tmux server option terminal-features"@
            };
            let option = if step == 4 {
                "@zed-managed"@
            } else if step == 5 {
                "@zed-terminal-id"@
            } else if step == 6 {
                "@zed-worktree-path"@
            } else if step == 7 {
                "@zed-terminal-kind"@
            } else if step == 8 {
                "@zed-provider"@
            } else if step == 9 {
                "mouse"@
            } else if step == 10 {
                "remain-on-exit"@
            } else {
                "status-right"@
            };
            &&& request.next(stage, ReplyContents::NoProgram(message)) == StageContents::Finished(
                Err::<bool, Seq<char>>(message),
            )
            &&& request.next(stage, ReplyContents::NotStarted(message)) == StageContents::Finished(
                Err::<bool, Seq<char>>(
                    (if step < 4 {
                        server
                    } else {
                        "failed to configure tmux option "@ + option
                    }) + ": "@ + message,
                ),
            )
            &&& request.next(stage, ReplyContents::Ran(output)) == StageContents::Finished(
                Err::<bool, Seq<char>>(
                    (if step < 4 {
                        server
                    } else {
                        "failed to configure tmux session "@ + ("zed-"@ + terminal_id::key_text(
                            request.id,
                        ))
                    }) + ": "@ + said,
                ),
            )
        }),
{
}

} // verus!
