//! Terminal threads: what a terminal runs, whether it is attached, and the record that is kept
//! of it.
use vstd::prelude::*;

use crate::path;
use crate::path::TreePath;
use crate::terminal_id;
use crate::terminal_id::{
    terminal_thread_tmux_session_name, TerminalId, TERMINAL_THREAD_TMUX_SERVER_NAME,
};
use crate::text;
use crate::text::{chars_of, same, starts_with, trim_start, white_space};
use crate::timestamp::Timestamp;
use crate::title;
use crate::title::compose_terminal_thread_title;

verus! {

/// What a terminal thread runs: an agent or a shell.
#[derive(Clone, Copy, Debug, PartialEq, Eq, Structural)]
pub enum TerminalThreadKind {
    Agent,
    Shell,
}

/// The agent that a terminal thread runs.
#[derive(Clone, Copy, Debug, PartialEq, Eq, Structural)]
pub enum TerminalThreadProvider {
    Codex,
}

/// What is intended of a terminal thread: to be attached, to be detached, or to be stopped.
#[derive(Clone, Copy, Debug, PartialEq, Eq, Structural)]
pub enum TerminalThreadLifecycleState {
    Attached,
    Detached,
    Stopping,
}

/// A text that names no kind, provider or lifecycle state.
#[derive(Clone, Debug, PartialEq, Eq)]
pub enum InvalidTerminalThreadValue {
    Kind(String),
    Provider(String),
    LifecycleState(String),
}

/// The text that names a kind.
pub open spec fn kind_text(kind: TerminalThreadKind) -> Seq<char> {
    match kind {
        TerminalThreadKind::Agent => "agent"@,
        TerminalThreadKind::Shell => "shell"@,
    }
}

/// The text that names a provider.
pub open spec fn provider_text(provider: TerminalThreadProvider) -> Seq<char> {
    match provider {
        TerminalThreadProvider::Codex => "codex"@,
    }
}

/// The text that names a lifecycle state.
pub open spec fn lifecycle_text(state: TerminalThreadLifecycleState) -> Seq<char> {
    match state {
        TerminalThreadLifecycleState::Attached => "attached"@,
        TerminalThreadLifecycleState::Detached => "detached"@,
        TerminalThreadLifecycleState::Stopping => "stopping"@,
    }
}

/// The kind that a text names.
pub open spec fn kind_named(value: Seq<char>) -> Option<TerminalThreadKind> {
    if value == "agent"@ {
        Some(TerminalThreadKind::Agent)
    } else if value == "shell"@ {
        Some(TerminalThreadKind::Shell)
    } else {
        None
    }
}

/// The provider that a text names.
pub open spec fn provider_named(value: Seq<char>) -> Option<TerminalThreadProvider> {
    if value == "codex"@ {
        Some(TerminalThreadProvider::Codex)
    } else {
        None
    }
}

/// The lifecycle state that a text names.
pub open spec fn lifecycle_named(value: Seq<char>) -> Option<TerminalThreadLifecycleState> {
    if value == "attached"@ {
        Some(TerminalThreadLifecycleState::Attached)
    } else if value == "detached"@ {
        Some(TerminalThreadLifecycleState::Detached)
    } else if value == "stopping"@ {
        Some(TerminalThreadLifecycleState::Stopping)
    } else {
        None
    }
}

/// A kind is named by its own text.
pub proof fn kind_text_round_trip(kind: TerminalThreadKind)
    ensures
        kind_named(kind_text(kind)) == Some(kind),
{
    reveal_strlit("agent");
    reveal_strlit("shell");
    assert("agent"@[0] != "shell"@[0]);
}

/// A provider is named by its own text.
pub proof fn provider_text_round_trip(provider: TerminalThreadProvider)
    ensures
        provider_named(provider_text(provider)) == Some(provider),
{
}

/// A lifecycle state is named by its own text.
pub proof fn lifecycle_text_round_trip(state: TerminalThreadLifecycleState)
    ensures
        lifecycle_named(lifecycle_text(state)) == Some(state),
{
    reveal_strlit("attached");
    reveal_strlit("detached");
    reveal_strlit("stopping");
    assert("attached"@[0] != "detached"@[0]);
    assert("attached"@[0] != "stopping"@[0]);
    assert("detached"@[0] != "stopping"@[0]);
}

/// The names of kinds, providers and lifecycle states are written as they are in records, and no
/// other text names any.
pub proof fn names_are_written_out(value: Seq<char>)
    ensures
        kind_text(TerminalThreadKind::Agent) == "agent"@,
        kind_text(TerminalThreadKind::Shell) == "shell"@,
        provider_text(TerminalThreadProvider::Codex) == "codex"@,
        lifecycle_text(TerminalThreadLifecycleState::Attached) == "attached"@,
        lifecycle_text(TerminalThreadLifecycleState::Detached) == "detached"@,
        lifecycle_text(TerminalThreadLifecycleState::Stopping) == "stopping"@,
        kind_named(value) matches Some(kind) ==> value == kind_text(kind),
        provider_named(value) matches Some(provider) ==> value == provider_text(provider),
        lifecycle_named(value) matches Some(state) ==> value == lifecycle_text(state),
{
}

/// What std's `Debug` writes for a string slice.
pub uninterp spec fn quoted_text(value: Seq<char>) -> Seq<char>;

/// std's `Debug` formatting of a string slice: the text in quotation marks, with escapes. The
/// contract names the result.
#[verifier::external_body]
fn quoted(value: &str) -> (result: String)
    ensures
        result@ == quoted_text(value@),
{
    format!("{:?}", value)
}

impl InvalidTerminalThreadValue {
    /// What to tell of this error.
    pub fn message(&self) -> (result: String)
        ensures
            result@ == match *self {
                InvalidTerminalThreadValue::Kind(value) => "invalid terminal thread kind "@
                    + quoted_text(value@),
                InvalidTerminalThreadValue::Provider(value) => "invalid terminal thread provider "@
                    + quoted_text(value@),
                InvalidTerminalThreadValue::LifecycleState(value) =>
                    "invalid terminal thread lifecycle state "@ + quoted_text(value@),
            },
    {
        match self {
            InvalidTerminalThreadValue::Kind(value) => {
                "invalid terminal thread kind ".to_owned().concat(quoted(value.as_str()).as_str())
            },
            InvalidTerminalThreadValue::Provider(value) => {
                "invalid terminal thread provider ".to_owned().concat(
                    quoted(value.as_str()).as_str(),
                )
            },
            InvalidTerminalThreadValue::LifecycleState(value) => {
                "invalid terminal thread lifecycle state ".to_owned().concat(
                    quoted(value.as_str()).as_str(),
                )
            },
        }
    }
}

impl TerminalThreadKind {
    /// The text that names this kind.
    pub fn as_str(self) -> (result: &'static str)
        ensures
            result@ == kind_text(self),
    {
        match self {
            TerminalThreadKind::Agent => "agent",
            TerminalThreadKind::Shell => "shell",
        }
    }

    /// The kind that a text names.
    pub fn from_str(value: &str) -> (result: Result<
        TerminalThreadKind,
        InvalidTerminalThreadValue,
    >)
        ensures
            match result {
                Ok(kind) => kind_named(value@) == Some(kind),
                Err(InvalidTerminalThreadValue::Kind(refused)) => kind_named(value@) is None
                    && refused@ == value@,
                Err(_) => false,
            },
    {
        if same(value, "agent") {
            Ok(TerminalThreadKind::Agent)
        } else if same(value, "shell") {
            Ok(TerminalThreadKind::Shell)
        } else {
            Err(InvalidTerminalThreadValue::Kind(value.to_owned()))
        }
    }
}

/// The first word of a command: what precedes the first white space, once the white space at the
/// start is taken off.
pub open spec fn first_word(command: Seq<char>) -> Option<Seq<char>> {
    let rest = text::trimmed_start(command);
    if rest.len() == 0 {
        None
    } else {
        Some(word_at_start(rest))
    }
}

/// The characters of `s` before its first white space.
pub open spec fn word_at_start(s: Seq<char>) -> Seq<char>
    decreases s.len(),
{
    if s.len() == 0 || text::is_white_space(s[0]) {
        Seq::empty()
    } else {
        seq![s[0]] + word_at_start(s.skip(1))
    }
}

/// Whether `c` is a quotation mark.
pub open spec fn is_quote(c: char) -> bool {
    c == '\'' || c == '"'
}

/// `s` without the quotation marks at either end.
pub open spec fn unquoted(s: Seq<char>) -> Seq<char>
    decreases s.len(),
{
    if s.len() > 0 && is_quote(s[0]) {
        unquoted(s.skip(1))
    } else if s.len() > 0 && is_quote(s.last()) {
        unquoted(s.drop_last())
    } else {
        s
    }
}

/// The name of the program that a command starts: the file name of its first word, without
/// quotation marks.
pub open spec fn executable_name(command: Seq<char>) -> Option<Seq<char>> {
    match first_word(command) {
        Some(word) => path::final_name(path::components_of(unquoted(word))),
        None => None,
    }
}

/// Whether a program is Codex.
pub open spec fn is_codex_name(name: Seq<char>) -> bool {
    name == "codex"@ || text::begins_with(name, "codex-"@)
}

/// The provider that a terminal is launched for: Codex, where its command starts Codex, or where
/// it has no command and is titled `Codex`.
pub open spec fn launch_provider(
    initial_command: Option<Seq<char>>,
    custom_title: Option<Seq<char>>,
) -> Option<TerminalThreadProvider> {
    let starts_codex = match initial_command {
        Some(command) => match executable_name(command) {
            Some(name) => is_codex_name(name),
            None => false,
        },
        None => custom_title == Some("Codex"@),
    };
    if starts_codex {
        Some(TerminalThreadProvider::Codex)
    } else {
        None
    }
}

/// The kind of terminal that is launched for a provider, or for none.
pub open spec fn launch_kind(provider: Option<TerminalThreadProvider>) -> TerminalThreadKind {
    if provider is Some {
        TerminalThreadKind::Agent
    } else {
        TerminalThreadKind::Shell
    }
}

proof fn lemma_word_at_start(s: Seq<char>, n: int)
    requires
        0 <= n <= s.len(),
        forall|i: int| 0 <= i < n ==> !text::is_white_space(s[i]),
        n < s.len() ==> text::is_white_space(s[n]),
    ensures
        word_at_start(s) == s.take(n),
    decreases n,
{
    if n > 0 {
        assert forall|i: int| 0 <= i < n - 1 implies !text::is_white_space(s.skip(1)[i]) by {
            assert(s.skip(1)[i] == s[i + 1]);
        }
        lemma_word_at_start(s.skip(1), n - 1);
        assert(seq![s[0]] + s.skip(1).take(n - 1) =~= s.take(n));
    } else {
        assert(s.take(0) =~= Seq::empty());
    }
}

/// A text in quotation marks of either kind is left without them, and without no other.
pub proof fn quotation_marks_are_taken_off(before: Seq<char>, kept: Seq<char>, after: Seq<char>)
    requires
        forall|i: int|
            0 <= i < before.len() ==> #[trigger] before[i] == '\'' || before[i] == '"',
        forall|i: int| 0 <= i < after.len() ==> #[trigger] after[i] == '\'' || after[i] == '"',
        kept.len() > 0 ==> kept[0] != '\'' && kept[0] != '"' && kept.last() != '\'' && kept.last()
            != '"',
    ensures
        unquoted(before + kept + after) == kept,
    decreases before.len() + after.len(),
{
    let whole = before + kept + after;
    if before.len() > 0 {
        let rest = before.skip(1);
        assert(whole[0] == before[0]);
        assert forall|i: int| 0 <= i < rest.len() implies #[trigger] rest[i] == '\'' || rest[i]
            == '"' by {
            assert(rest[i] == before[i + 1]);
        }
        quotation_marks_are_taken_off(rest, kept, after);
        assert(whole.skip(1) =~= rest + kept + after);
    } else if after.len() > 0 {
        if kept.len() > 0 {
            assert(whole[0] == kept[0]);
            let rest = after.drop_last();
            assert(whole.last() == after[after.len() - 1]);
            assert forall|i: int| 0 <= i < rest.len() implies #[trigger] rest[i] == '\'' || rest[i]
                == '"' by {
                assert(rest[i] == after[i]);
            }
            quotation_marks_are_taken_off(before, kept, rest);
            assert(whole.drop_last() =~= before + kept + rest);
        } else {
            let rest = after.skip(1);
            assert(whole[0] == after[0]);
            assert forall|i: int| 0 <= i < rest.len() implies #[trigger] rest[i] == '\'' || rest[i]
                == '"' by {
                assert(rest[i] == after[i + 1]);
            }
            quotation_marks_are_taken_off(before, kept, rest);
            assert(whole.skip(1) =~= before + kept + rest);
        }
    } else {
        assert(whole =~= kept);
    }
}

/// A terminal whose command starts a program is launched for Codex just where the file name of the
/// program, which is the first word of the command without quotation marks, is `codex` or begins
/// with `codex-`. Its title does not count then; it does where there is no command.
pub proof fn first_word_decides_the_provider(
    white: Seq<char>,
    word: Seq<char>,
    rest: Seq<char>,
    custom_title: Option<Seq<char>>,
)
    requires
        text::is_all_white(white),
        word.len() > 0,
        forall|i: int| 0 <= i < word.len() ==> !text::is_white_space(#[trigger] word[i]),
        rest.len() > 0 ==> text::is_white_space(rest[0]),
    ensures
        ({
            let name = path::final_name(path::components_of(unquoted(word)));
            launch_provider(Some(white + word + rest), custom_title) == (if name matches Some(n) && (
            n == "codex"@ || text::begins_with(n, "codex-"@)) {
                Some(TerminalThreadProvider::Codex)
            } else {
                None
            })
        }),
        launch_provider(Some(white), custom_title) is None,
        launch_provider(None, Some("Codex"@)) == Some(TerminalThreadProvider::Codex),
        custom_title != Some("Codex"@) ==> launch_provider(None, custom_title) is None,
        launch_kind(Some(TerminalThreadProvider::Codex)) == TerminalThreadKind::Agent,
        launch_kind(None) == TerminalThreadKind::Shell,
{
    let command = white + word + rest;
    let kept = word + rest;
    assert(command =~= white + kept);
    assert(kept[0] == word[0]);
    text::white_start_is_taken_off(white, kept);
    assert forall|i: int| 0 <= i < word.len() implies !text::is_white_space(kept[i]) by {
        assert(kept[i] == word[i]);
    }
    if rest.len() > 0 {
        assert(kept[word.len() as int] == rest[0]);
    }
    lemma_word_at_start(kept, word.len() as int);
    assert(kept.take(word.len() as int) =~= word);
    text::white_start_is_taken_off(white, Seq::empty());
    assert(white + Seq::<char>::empty() =~= white);
}

/// The characters of `s` before its first white space.
fn leading_word(s: &str) -> (result: &str)
    ensures
        result@ == word_at_start(s@),
{
    let cs = chars_of(s);
    let mut end: usize = 0;
    while end < cs.len() && !white_space(cs[end])
        invariant
            end <= cs.len(),
            cs@ == s@,
            forall|i: int| 0 <= i < end ==> !text::is_white_space(s@[i]),
        decreases cs.len() - end,
    {
        end = end + 1;
    }
    proof {
        lemma_word_at_start(s@, end as int);
        assert(s@.subrange(0, end as int) =~= s@.take(end as int));
    }
    s.substring_char(0, end)
}

/// `s` without the quotation marks at either end.
fn without_quotes(s: &str) -> (result: &str)
    ensures
        result@ == unquoted(s@),
{
    let cs = chars_of(s);
    let mut start: usize = 0;
    let mut end: usize = cs.len();
    assert(s@.subrange(0, s@.len() as int) =~= s@);
    while start < end && (cs[start] == '\'' || cs[start] == '"')
        invariant
            start <= end <= cs.len(),
            cs@ == s@,
            unquoted(s@) == unquoted(s@.subrange(start as int, end as int)),
        decreases end - start,
    {
        assert(s@.subrange(start as int, end as int).skip(1) =~= s@.subrange(
            start + 1,
            end as int,
        ));
        start = start + 1;
    }
    while start < end && (cs[end - 1] == '\'' || cs[end - 1] == '"')
        invariant
            start <= end <= cs.len(),
            cs@ == s@,
            start < end ==> !is_quote(cs@[start as int]),
            unquoted(s@) == unquoted(s@.subrange(start as int, end as int)),
        decreases end - start,
    {
        assert(s@.subrange(start as int, end as int).drop_last() =~= s@.subrange(
            start as int,
            end - 1,
        ));
        end = end - 1;
    }
    s.substring_char(start, end)
}

/// Whether a program is Codex, by its name.
pub fn is_codex_command(command: &str) -> (result: bool)
    ensures
        result == is_codex_name(command@),
{
    same(command, "codex") || starts_with(command, "codex-")
}

impl TerminalThreadProvider {
    /// The text that names this provider.
    pub fn as_str(self) -> (result: &'static str)
        ensures
            result@ == provider_text(self),
    {
        match self {
            TerminalThreadProvider::Codex => "codex",
        }
    }

    /// The provider that a text names.
    pub fn from_str(value: &str) -> (result: Result<
        TerminalThreadProvider,
        InvalidTerminalThreadValue,
    >)
        ensures
            match result {
                Ok(provider) => provider_named(value@) == Some(provider),
                Err(InvalidTerminalThreadValue::Provider(refused)) => provider_named(
                    value@,
                ) is None && refused@ == value@,
                Err(_) => false,
            },
    {
        if same(value, "codex") {
            Ok(TerminalThreadProvider::Codex)
        } else {
            Err(InvalidTerminalThreadValue::Provider(value.to_owned()))
        }
    }

    /// The provider that a terminal is launched for.
    pub fn from_launch_metadata(initial_command: Option<&str>, custom_title: Option<&str>) -> (result:
        Option<TerminalThreadProvider>)
        ensures
            result == launch_provider(
                text::text_option(initial_command),
                text::text_option(custom_title),
            ),
    {
        match initial_command {
            Some(command) => {
                let rest = trim_start(command);
                if rest.is_empty() {
                    return None;
                }
                let executable = TreePath::parse(without_quotes(leading_word(rest)));
                match executable.file_name() {
                    Some(name) => {
                        if is_codex_command(name.as_str()) {
                            Some(TerminalThreadProvider::Codex)
                        } else {
                            None
                        }
                    },
                    None => None,
                }
            },
            None => match custom_title {
                Some(title) => {
                    if same(title, "Codex") {
                        Some(TerminalThreadProvider::Codex)
                    } else {
                        None
                    }
                },
                None => None,
            },
        }
    }
}

impl TerminalThreadLifecycleState {
    /// The text that names this state.
    pub fn as_str(self) -> (result: &'static str)
        ensures
            result@ == lifecycle_text(self),
    {
        match self {
            TerminalThreadLifecycleState::Attached => "attached",
            TerminalThreadLifecycleState::Detached => "detached",
            TerminalThreadLifecycleState::Stopping => "stopping",
        }
    }

    /// The state that a text names.
    pub fn from_str(value: &str) -> (result: Result<
        TerminalThreadLifecycleState,
        InvalidTerminalThreadValue,
    >)
        ensures
            match result {
                Ok(state) => lifecycle_named(value@) == Some(state),
                Err(InvalidTerminalThreadValue::LifecycleState(refused)) => lifecycle_named(
                    value@,
                ) is None && refused@ == value@,
                Err(_) => false,
            },
    {
        if same(value, "attached") {
            Ok(TerminalThreadLifecycleState::Attached)
        } else if same(value, "detached") {
            Ok(TerminalThreadLifecycleState::Detached)
        } else if same(value, "stopping") {
            Ok(TerminalThreadLifecycleState::Stopping)
        } else {
            Err(InvalidTerminalThreadValue::LifecycleState(value.to_owned()))
        }
    }
}

/// What the registry keeps of a terminal thread.
#[derive(Debug)]
pub struct TerminalThreadRegistryMetadata {
    pub kind: TerminalThreadKind,
    pub provider: Option<TerminalThreadProvider>,
    pub tmux_server_name: String,
    pub tmux_session_name: String,
    pub provider_session_id: Option<String>,
    pub lifecycle_state: TerminalThreadLifecycleState,
    pub last_attached_at: Option<Timestamp>,
    pub updated_at: Timestamp,
}

/// The contents of a `TerminalThreadRegistryMetadata`.
#[verifier::ext_equal]
pub struct RegistryContents {
    pub kind: TerminalThreadKind,
    pub provider: Option<TerminalThreadProvider>,
    pub tmux_server_name: Seq<char>,
    pub tmux_session_name: Seq<char>,
    pub provider_session_id: Option<Seq<char>>,
    pub lifecycle_state: TerminalThreadLifecycleState,
    pub last_attached_at: Option<Timestamp>,
    pub updated_at: Timestamp,
}

impl RegistryContents {
    /// The same terminal, attached at `now`.
    pub open spec fn attached_at(self, now: Timestamp) -> RegistryContents {
        RegistryContents {
            lifecycle_state: TerminalThreadLifecycleState::Attached,
            last_attached_at: Some(now),
            updated_at: now,
            ..self
        }
    }

    /// The same terminal, detached at `now`.
    pub open spec fn detached_at(self, now: Timestamp) -> RegistryContents {
        RegistryContents {
            lifecycle_state: TerminalThreadLifecycleState::Detached,
            updated_at: now,
            ..self
        }
    }

    /// The same terminal, to be stopped since `now`.
    pub open spec fn stopping_at(self, now: Timestamp) -> RegistryContents {
        RegistryContents {
            lifecycle_state: TerminalThreadLifecycleState::Stopping,
            updated_at: now,
            ..self
        }
    }

    /// Whether every moment that is kept has a calendar date.
    pub open spec fn moments_valid(self) -> bool {
        &&& self.updated_at.valid()
        &&& self.last_attached_at matches Some(moment) ==> moment.valid()
    }
}

/// The entry of a terminal that was never attached, made at `now`.
pub open spec fn new_registry_entry(
    terminal_id: TerminalId,
    kind: TerminalThreadKind,
    provider: Option<TerminalThreadProvider>,
    now: Timestamp,
) -> RegistryContents {
    RegistryContents {
        kind,
        provider,
        tmux_server_name: TERMINAL_THREAD_TMUX_SERVER_NAME@,
        tmux_session_name: terminal_id::session_name(terminal_id.value),
        provider_session_id: None,
        lifecycle_state: TerminalThreadLifecycleState::Detached,
        last_attached_at: None,
        updated_at: now,
    }
}

/// A terminal is attached, detached or to be stopped as it is marked, at the moment of the mark;
/// only attaching notes when it was last attached, and nothing else changes.
pub proof fn marks_change_the_lifecycle_only(entry: RegistryContents, now: Timestamp)
    ensures
        ({
            let attached = entry.attached_at(now);
            let detached = entry.detached_at(now);
            let stopping = entry.stopping_at(now);
            &&& attached.lifecycle_state == TerminalThreadLifecycleState::Attached
            &&& detached.lifecycle_state == TerminalThreadLifecycleState::Detached
            &&& stopping.lifecycle_state == TerminalThreadLifecycleState::Stopping
            &&& attached.updated_at == now && detached.updated_at == now && stopping.updated_at
                == now
            &&& attached.last_attached_at == Some(now)
            &&& detached.last_attached_at == entry.last_attached_at
            &&& stopping.last_attached_at == entry.last_attached_at
            &&& attached.kind == entry.kind && detached.kind == entry.kind && stopping.kind
                == entry.kind
            &&& attached.provider == entry.provider && detached.provider == entry.provider
                && stopping.provider == entry.provider
            &&& attached.tmux_server_name == entry.tmux_server_name && detached.tmux_server_name
                == entry.tmux_server_name && stopping.tmux_server_name == entry.tmux_server_name
            &&& attached.tmux_session_name == entry.tmux_session_name && detached.tmux_session_name
                == entry.tmux_session_name && stopping.tmux_session_name == entry.tmux_session_name
            &&& attached.provider_session_id == entry.provider_session_id
                && detached.provider_session_id == entry.provider_session_id
                && stopping.provider_session_id == entry.provider_session_id
        }),
{
}

/// A new terminal is detached, was never attached, and has the session of its own name on the server
/// of terminal threads.
pub proof fn new_terminals_are_detached(
    terminal_id: TerminalId,
    kind: TerminalThreadKind,
    provider: Option<TerminalThreadProvider>,
    now: Timestamp,
)
    ensures
        ({
            let entry = new_registry_entry(terminal_id, kind, provider, now);
            &&& entry.kind == kind && entry.provider == provider
            &&& entry.lifecycle_state == TerminalThreadLifecycleState::Detached
            &&& entry.last_attached_at is None && entry.provider_session_id is None
            &&& entry.updated_at == now
            &&& entry.tmux_server_name == "zed-terminal-threads"@
            &&& entry.tmux_session_name == "zed-"@ + terminal_id::key_text(terminal_id.value)
        }),
{
}

impl View for TerminalThreadRegistryMetadata {
    type V = RegistryContents;

    open spec fn view(&self) -> RegistryContents {
        RegistryContents {
            kind: self.kind,
            provider: self.provider,
            tmux_server_name: self.tmux_server_name@,
            tmux_session_name: self.tmux_session_name@,
            provider_session_id: text::string_option(self.provider_session_id),
            lifecycle_state: self.lifecycle_state,
            last_attached_at: self.last_attached_at,
            updated_at: self.updated_at,
        }
    }
}

/// A copy of an optional string.
pub fn copy_string_option(value: &Option<String>) -> (result: Option<String>)
    ensures
        text::string_option(result) == text::string_option(*value),
{
    match value {
        Some(inner) => Some(inner.clone()),
        None => None,
    }
}

impl Clone for TerminalThreadRegistryMetadata {
    fn clone(&self) -> (result: Self)
        ensures
            result@ == self@,
    {
        TerminalThreadRegistryMetadata {
            kind: self.kind,
            provider: self.provider,
            tmux_server_name: self.tmux_server_name.clone(),
            tmux_session_name: self.tmux_session_name.clone(),
            provider_session_id: copy_string_option(&self.provider_session_id),
            lifecycle_state: self.lifecycle_state,
            last_attached_at: self.last_attached_at,
            updated_at: self.updated_at,
        }
    }
}

impl TerminalThreadRegistryMetadata {
    /// The entry of a terminal that is launched now.
    pub fn for_launch(
        terminal_id: TerminalId,
        initial_command: Option<&str>,
        custom_title: Option<&str>,
    ) -> (result: Self)
        ensures
            ({
                let provider = launch_provider(
                    text::text_option(initial_command),
                    text::text_option(custom_title),
                );
                result@ == new_registry_entry(
                    terminal_id,
                    launch_kind(provider),
                    provider,
                    result@.updated_at,
                )
            }),
            result@.updated_at.valid(),
    {
        let provider = TerminalThreadProvider::from_launch_metadata(initial_command, custom_title);
        let kind = if provider.is_some() {
            TerminalThreadKind::Agent
        } else {
            TerminalThreadKind::Shell
        };
        Self::detached(terminal_id, kind, provider)
    }

    /// The entry of a terminal that was never attached, made now.
    pub fn detached(
        terminal_id: TerminalId,
        kind: TerminalThreadKind,
        provider: Option<TerminalThreadProvider>,
    ) -> (result: Self)
        ensures
            result@ == new_registry_entry(terminal_id, kind, provider, result@.updated_at),
            result@.updated_at.valid(),
    {
        Self::detached_since(terminal_id, kind, provider, Timestamp::now())
    }

    /// The entry of a terminal that was never attached, made at `now`.
    pub fn detached_since(
        terminal_id: TerminalId,
        kind: TerminalThreadKind,
        provider: Option<TerminalThreadProvider>,
        now: Timestamp,
    ) -> (result: Self)
        ensures
            result@ == new_registry_entry(terminal_id, kind, provider, now),
    {
        TerminalThreadRegistryMetadata {
            kind,
            provider,
            tmux_server_name: TERMINAL_THREAD_TMUX_SERVER_NAME.to_owned(),
            tmux_session_name: terminal_thread_tmux_session_name(terminal_id),
            provider_session_id: None,
            lifecycle_state: TerminalThreadLifecycleState::Detached,
            last_attached_at: None,
            updated_at: now,
        }
    }

    /// Notes that the terminal is attached now.
    pub fn mark_attached(&mut self)
        ensures
            final(self)@ == old(self)@.attached_at(final(self)@.updated_at),
            final(self)@.updated_at.valid(),
    {
        self.mark_attached_at(Timestamp::now());
    }

    /// Notes that the terminal is attached at `now`.
    pub fn mark_attached_at(&mut self, now: Timestamp)
        ensures
            final(self)@ == old(self)@.attached_at(now),
    {
        self.lifecycle_state = TerminalThreadLifecycleState::Attached;
        self.last_attached_at = Some(now);
        self.updated_at = now;
    }

    /// Notes that the terminal is detached now.
    pub fn mark_detached(&mut self)
        ensures
            final(self)@ == old(self)@.detached_at(final(self)@.updated_at),
            final(self)@.updated_at.valid(),
    {
        self.mark_detached_at(Timestamp::now());
    }

    /// Notes that the terminal is detached at `now`.
    pub fn mark_detached_at(&mut self, now: Timestamp)
        ensures
            final(self)@ == old(self)@.detached_at(now),
    {
        self.lifecycle_state = TerminalThreadLifecycleState::Detached;
        self.updated_at = now;
    }

    /// Notes that the terminal is to be stopped, as of now.
    pub fn mark_stopping(&mut self)
        ensures
            final(self)@ == old(self)@.stopping_at(final(self)@.updated_at),
            final(self)@.updated_at.valid(),
    {
        self.mark_stopping_at(Timestamp::now());
    }

    /// Notes that the terminal is to be stopped, as of `now`.
    pub fn mark_stopping_at(&mut self, now: Timestamp)
        ensures
            final(self)@ == old(self)@.stopping_at(now),
    {
        self.lifecycle_state = TerminalThreadLifecycleState::Stopping;
        self.updated_at = now;
    }
}

/// A list of paths: the paths, in the order in which lists are compared, and the order in which
/// they are shown. Two lists of the same paths are the same list, in whatever order they are shown.
pub struct PathList {
    pub paths: Vec<TreePath>,
    pub order: Vec<usize>,
}

/// The texts of the paths of a vector.
pub open spec fn path_contents(paths: Seq<TreePath>) -> Seq<Seq<char>> {
    paths.map_values(|path: TreePath| path@)
}

/// The contents of a `PathList`.
#[verifier::ext_equal]
pub struct PathListContents {
    pub paths: Seq<Seq<char>>,
    pub order: Seq<usize>,
}

impl PathListContents {
    /// What lists are compared by: the components of each path.
    pub open spec fn identity(self) -> Seq<Seq<Seq<char>>> {
        self.paths.map_values(|text: Seq<char>| path::components_of(text))
    }
}

/// The contents of a list without paths.
pub open spec fn no_paths() -> PathListContents {
    PathListContents { paths: Seq::empty(), order: Seq::empty() }
}

impl View for PathList {
    type V = PathListContents;

    open spec fn view(&self) -> PathListContents {
        PathListContents { paths: path_contents(self.paths@), order: self.order@ }
    }
}

impl Clone for PathList {
    fn clone(&self) -> (result: Self)
        ensures
            result@ == self@,
    {
        let ghost all = self@.paths;
        let mut paths: Vec<TreePath> = Vec::new();
        let mut i: usize = 0;
        while i < self.paths.len()
            invariant
                i <= self.paths.len(),
                all == self@.paths,
                path_contents(paths@) == all.take(i as int),
            decreases self.paths.len() - i,
        {
            let ghost before = path_contents(paths@);
            paths.push(self.paths[i].clone());
            assert(path_contents(paths@) =~= before.push(all[i as int]));
            assert(all.take(i + 1) =~= all.take(i as int).push(all[i as int]));
            i = i + 1;
        }
        assert(all.take(i as int) =~= all);
        let mut order: Vec<usize> = Vec::new();
        let mut j: usize = 0;
        while j < self.order.len()
            invariant
                j <= self.order.len(),
                order@ == self.order@.take(j as int),
            decreases self.order.len() - j,
        {
            order.push(self.order[j]);
            assert(self.order@.take(j + 1) =~= self.order@.take(j as int).push(
                self.order@[j as int],
            ));
            j = j + 1;
        }
        assert(self.order@.take(j as int) =~= self.order@);
        PathList { paths, order }
    }
}

impl PathList {
    /// The list without paths.
    pub fn empty() -> (result: PathList)
        ensures
            result@ == no_paths(),
    {
        let result = PathList { paths: Vec::new(), order: Vec::new() };
        assert(result@ =~= no_paths());
        result
    }

    /// Whether there is no path in the list.
    pub fn is_empty(&self) -> (result: bool)
        ensures
            result == (self@.paths.len() == 0),
    {
        self.paths.len() == 0
    }

    /// Whether `path` is in the list.
    pub fn contains(&self, path: &TreePath) -> (result: bool)
        ensures
            result == self@.identity().contains(path::components_of(path@)),
    {
        let ghost all = self@.identity();
        let ghost wanted = path::components_of(path@);
        let mut i: usize = 0;
        while i < self.paths.len()
            invariant
                i <= self.paths.len(),
                all == self@.identity(),
                wanted == path::components_of(path@),
                forall|j: int| 0 <= j < i ==> #[trigger] all[j] != wanted,
            decreases self.paths.len() - i,
        {
            assert(all[i as int] == path::components_of(self.paths@[i as int]@));
            if self.paths[i].same_path(path) {
                assert(all.contains(wanted));
                return true;
            }
            i = i + 1;
        }
        false
    }

    /// Whether this and `other` list the same paths, in whatever order they are shown.
    pub fn same_paths(&self, other: &PathList) -> (result: bool)
        ensures
            result == (self@.identity() == other@.identity()),
    {
        let ghost here = self@.identity();
        let ghost there = other@.identity();
        if self.paths.len() != other.paths.len() {
            assert(here.len() != there.len());
            return false;
        }
        let mut i: usize = 0;
        while i < self.paths.len()
            invariant
                i <= self.paths.len(),
                self.paths.len() == other.paths.len(),
                here == self@.identity(),
                there == other@.identity(),
                forall|j: int| 0 <= j < i ==> here[j] == there[j],
            decreases self.paths.len() - i,
        {
            assert(here[i as int] == path::components_of(self.paths@[i as int]@));
            assert(there[i as int] == path::components_of(other.paths@[i as int]@));
            if !self.paths[i].same_path(&other.paths[i]) {
                return false;
            }
            i = i + 1;
        }
        assert(here =~= there);
        true
    }
}

/// The folders of a terminal's project, and the main worktrees that they belong to.
pub struct WorktreePaths {
    pub main_worktree_paths: PathList,
    pub folder_paths: PathList,
}

/// The contents of a `WorktreePaths`.
#[verifier::ext_equal]
pub struct WorktreePathsContents {
    pub main_worktree_paths: PathListContents,
    pub folder_paths: PathListContents,
}

/// The contents of a `WorktreePaths` without paths.
pub open spec fn no_worktree_paths() -> WorktreePathsContents {
    WorktreePathsContents { main_worktree_paths: no_paths(), folder_paths: no_paths() }
}

impl View for WorktreePaths {
    type V = WorktreePathsContents;

    open spec fn view(&self) -> WorktreePathsContents {
        WorktreePathsContents {
            main_worktree_paths: self.main_worktree_paths@,
            folder_paths: self.folder_paths@,
        }
    }
}

impl Clone for WorktreePaths {
    fn clone(&self) -> (result: Self)
        ensures
            result@ == self@,
    {
        WorktreePaths {
            main_worktree_paths: self.main_worktree_paths.clone(),
            folder_paths: self.folder_paths.clone(),
        }
    }
}

impl Default for WorktreePaths {
    fn default() -> (result: Self)
        ensures
            result@ == no_worktree_paths(),
    {
        WorktreePaths { main_worktree_paths: PathList::empty(), folder_paths: PathList::empty() }
    }
}

/// A connection to another machine: the text that identifies the machine, and the options that
/// the connection is made with.
#[derive(Debug)]
pub struct RemoteConnection {
    pub identity: String,
    pub options: String,
}

/// The contents of a `RemoteConnection`.
pub struct RemoteConnectionContents {
    pub identity: Seq<char>,
    pub options: Seq<char>,
}

impl View for RemoteConnection {
    type V = RemoteConnectionContents;

    open spec fn view(&self) -> RemoteConnectionContents {
        RemoteConnectionContents { identity: self.identity@, options: self.options@ }
    }
}

impl Clone for RemoteConnection {
    fn clone(&self) -> (result: Self)
        ensures
            result@ == self@,
    {
        RemoteConnection { identity: self.identity.clone(), options: self.options.clone() }
    }
}

/// What an optional connection holds.
pub open spec fn connection_option(connection: Option<RemoteConnection>) -> Option<
    RemoteConnectionContents,
> {
    match connection {
        Some(inner) => Some(inner@),
        None => None,
    }
}

/// The machine that an optional connection leads to; none is the local machine.
pub open spec fn machine(connection: Option<RemoteConnectionContents>) -> Option<Seq<char>> {
    match connection {
        Some(inner) => Some(inner.identity),
        None => None,
    }
}

/// Whether two optional connections lead to the same machine.
pub fn same_remote_connection_identity(
    left: Option<&RemoteConnection>,
    right: Option<&RemoteConnection>,
) -> (result: bool)
    ensures
        result == ((left matches Some(l) && right matches Some(r) && l.identity@ == r.identity@)
            || (left is None && right is None)),
{
    match (left, right) {
        (Some(l), Some(r)) => l.identity == r.identity,
        (None, None) => true,
        _ => false,
    }
}

/// The record of a terminal thread.
pub struct TerminalThreadMetadata {
    pub terminal_id: TerminalId,
    pub title: String,
    pub custom_title: Option<String>,
    pub created_at: Timestamp,
    pub worktree_paths: WorktreePaths,
    pub remote_connection: Option<RemoteConnection>,
    pub working_directory: Option<String>,
    pub initial_command: Option<String>,
    pub registry: TerminalThreadRegistryMetadata,
}

/// The contents of a `TerminalThreadMetadata`.
#[verifier::ext_equal]
pub struct MetadataContents {
    pub terminal_id: TerminalId,
    pub title: Seq<char>,
    pub custom_title: Option<Seq<char>>,
    pub created_at: Timestamp,
    pub worktree_paths: WorktreePathsContents,
    pub remote_connection: Option<RemoteConnectionContents>,
    pub working_directory: Option<Seq<char>>,
    pub initial_command: Option<Seq<char>>,
    pub registry: RegistryContents,
}

impl MetadataContents {
    /// Whether every moment that is kept has a calendar date.
    pub open spec fn moments_valid(self) -> bool {
        self.created_at.valid() && self.registry.moments_valid()
    }

    /// The same record, with other worktree paths.
    pub open spec fn with_paths(self, worktree_paths: WorktreePathsContents) -> MetadataContents {
        MetadataContents { worktree_paths, ..self }
    }
}

impl View for TerminalThreadMetadata {
    type V = MetadataContents;

    open spec fn view(&self) -> MetadataContents {
        MetadataContents {
            terminal_id: self.terminal_id,
            title: self.title@,
            custom_title: text::string_option(self.custom_title),
            created_at: self.created_at,
            worktree_paths: self.worktree_paths@,
            remote_connection: connection_option(self.remote_connection),
            working_directory: text::string_option(self.working_directory),
            initial_command: text::string_option(self.initial_command),
            registry: self.registry@,
        }
    }
}

impl Clone for TerminalThreadMetadata {
    fn clone(&self) -> (result: Self)
        ensures
            result@ == self@,
    {
        TerminalThreadMetadata {
            terminal_id: self.terminal_id,
            title: self.title.clone(),
            custom_title: copy_string_option(&self.custom_title),
            created_at: self.created_at,
            worktree_paths: self.worktree_paths.clone(),
            remote_connection: match &self.remote_connection {
                Some(connection) => Some(connection.clone()),
                None => None,
            },
            working_directory: copy_string_option(&self.working_directory),
            initial_command: copy_string_option(&self.initial_command),
            registry: self.registry.clone(),
        }
    }
}

impl TerminalThreadMetadata {
    /// The folders of the terminal's project.
    pub fn folder_paths(&self) -> (result: &PathList)
        ensures
            result@ == self@.worktree_paths.folder_paths,
    {
        &self.worktree_paths.folder_paths
    }

    /// The main worktrees that the folders belong to.
    pub fn main_worktree_paths(&self) -> (result: &PathList)
        ensures
            result@ == self@.worktree_paths.main_worktree_paths,
    {
        &self.worktree_paths.main_worktree_paths
    }

    /// The title to show for the terminal.
    pub fn display_title(&self) -> (result: String)
        ensures
            result@ == title::shown_title(self@.title, self@.custom_title),
    {
        compose_terminal_thread_title(
            self.title.as_str(),
            match &self.custom_title {
                Some(custom) => Some(custom.as_str()),
                None => None,
            },
        )
    }
}

/// Whether the record of a terminal says that it runs Codex.
pub fn metadata_uses_codex(metadata: &TerminalThreadMetadata) -> (result: bool)
    ensures
        result == (metadata@.registry.provider == Some(TerminalThreadProvider::Codex)),
{
    match metadata.registry.provider {
        Some(provider) => provider == TerminalThreadProvider::Codex,
        None => false,
    }
}

} // verus!
