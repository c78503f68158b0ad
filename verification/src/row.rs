//! The columns that the database keeps of a terminal thread: how a record is written to them, and
//! how it is read back.
use vstd::prelude::*;

use crate::terminal_id;
use crate::terminal_id::{terminal_thread_tmux_session_name, InvalidTerminalId, TerminalId};
use crate::terminal_thread;
use crate::terminal_thread::{
    copy_string_option, InvalidTerminalThreadValue, MetadataContents, RegistryContents,
    RemoteConnection, RemoteConnectionContents, TerminalThreadKind, TerminalThreadLifecycleState,
    TerminalThreadMetadata, TerminalThreadProvider, TerminalThreadRegistryMetadata, WorktreePaths,
    WorktreePathsContents,
};
use crate::text;
use crate::text::trim;
use crate::timestamp;
use crate::timestamp::Timestamp;
use crate::title;

verus! {

/// A list of paths as the database keeps it: the paths, and the order in which they are shown.
pub struct SerializedPathList {
    pub paths: String,
    pub order: String,
}

/// The columns of a terminal thread.
pub struct TerminalThreadRow {
    pub terminal_id: String,
    pub title: String,
    pub custom_title: Option<String>,
    pub created_at: String,
    pub working_directory: Option<String>,
    pub folder_paths: Option<String>,
    pub folder_paths_order: Option<String>,
    pub main_worktree_paths: Option<String>,
    pub main_worktree_paths_order: Option<String>,
    pub remote_connection: Option<String>,
    pub initial_command: Option<String>,
    pub terminal_kind: String,
    pub provider: Option<String>,
    pub tmux_server_name: String,
    pub tmux_session_name: Option<String>,
    pub provider_session_id: Option<String>,
    pub lifecycle_state: String,
    pub last_attached_at: Option<String>,
    pub updated_at: Option<String>,
}

/// The contents of a `TerminalThreadRow`.
#[verifier::ext_equal]
pub struct RowContents {
    pub terminal_id: Seq<char>,
    pub title: Seq<char>,
    pub custom_title: Option<Seq<char>>,
    pub created_at: Seq<char>,
    pub working_directory: Option<Seq<char>>,
    pub folder_paths: Option<Seq<char>>,
    pub folder_paths_order: Option<Seq<char>>,
    pub main_worktree_paths: Option<Seq<char>>,
    pub main_worktree_paths_order: Option<Seq<char>>,
    pub remote_connection: Option<Seq<char>>,
    pub initial_command: Option<Seq<char>>,
    pub terminal_kind: Seq<char>,
    pub provider: Option<Seq<char>>,
    pub tmux_server_name: Seq<char>,
    pub tmux_session_name: Option<Seq<char>>,
    pub provider_session_id: Option<Seq<char>>,
    pub lifecycle_state: Seq<char>,
    pub last_attached_at: Option<Seq<char>>,
    pub updated_at: Option<Seq<char>>,
}

impl View for TerminalThreadRow {
    type V = RowContents;

    open spec fn view(&self) -> RowContents {
        RowContents {
            terminal_id: self.terminal_id@,
            title: self.title@,
            custom_title: text::string_option(self.custom_title),
            created_at: self.created_at@,
            working_directory: text::string_option(self.working_directory),
            folder_paths: text::string_option(self.folder_paths),
            folder_paths_order: text::string_option(self.folder_paths_order),
            main_worktree_paths: text::string_option(self.main_worktree_paths),
            main_worktree_paths_order: text::string_option(self.main_worktree_paths_order),
            remote_connection: text::string_option(self.remote_connection),
            initial_command: text::string_option(self.initial_command),
            terminal_kind: self.terminal_kind@,
            provider: text::string_option(self.provider),
            tmux_server_name: self.tmux_server_name@,
            tmux_session_name: text::string_option(self.tmux_session_name),
            provider_session_id: text::string_option(self.provider_session_id),
            lifecycle_state: self.lifecycle_state@,
            last_attached_at: text::string_option(self.last_attached_at),
            updated_at: text::string_option(self.updated_at),
        }
    }
}

/// Why a row gives no record.
pub enum RowError {
    /// The options of the remote connection could not be read; with what was said of it.
    RemoteConnection(String),
    TerminalId(InvalidTerminalId),
    /// A moment that is no RFC 3339 text.
    Moment(String),
    Value(InvalidTerminalThreadValue),
}

/// The contents of a `RowError`.
pub enum RowFailure {
    RemoteConnection(Seq<char>),
    TerminalId(Seq<char>),
    Moment(Seq<char>),
    Kind(Seq<char>),
    Provider(Seq<char>),
    LifecycleState(Seq<char>),
}

impl View for RowError {
    type V = RowFailure;

    open spec fn view(&self) -> RowFailure {
        match *self {
            RowError::RemoteConnection(message) => RowFailure::RemoteConnection(message@),
            RowError::TerminalId(error) => RowFailure::TerminalId(error.value@),
            RowError::Moment(value) => RowFailure::Moment(value@),
            RowError::Value(InvalidTerminalThreadValue::Kind(value)) => RowFailure::Kind(value@),
            RowError::Value(InvalidTerminalThreadValue::Provider(value)) => RowFailure::Provider(
                value@,
            ),
            RowError::Value(InvalidTerminalThreadValue::LifecycleState(value)) =>
                RowFailure::LifecycleState(value@),
        }
    }
}

/// The text of an optional provider.
pub open spec fn provider_column(provider: Option<TerminalThreadProvider>) -> Option<Seq<char>> {
    match provider {
        Some(inner) => Some(terminal_thread::provider_text(inner)),
        None => None,
    }
}

/// The text of a moment.
pub open spec fn moment_text(moment: Timestamp) -> Seq<char> {
    timestamp::rfc3339_text(moment.seconds, moment.nanos)
}

/// The row that a record is written to, where its lists of paths are serialized as given. A list
/// without paths leaves its columns empty.
pub open spec fn row_of(
    metadata: MetadataContents,
    folder_paths: (Seq<char>, Seq<char>),
    main_worktree_paths: (Seq<char>, Seq<char>),
) -> RowContents {
    let no_folders = metadata.worktree_paths.folder_paths.paths.len() == 0;
    let no_main = metadata.worktree_paths.main_worktree_paths.paths.len() == 0;
    RowContents {
        terminal_id: terminal_id::key_text(metadata.terminal_id.value),
        title: metadata.title,
        custom_title: metadata.custom_title,
        created_at: moment_text(metadata.created_at),
        working_directory: metadata.working_directory,
        folder_paths: if no_folders {
            None
        } else {
            Some(folder_paths.0)
        },
        folder_paths_order: if no_folders {
            None
        } else {
            Some(folder_paths.1)
        },
        main_worktree_paths: if no_main {
            None
        } else {
            Some(main_worktree_paths.0)
        },
        main_worktree_paths_order: if no_main {
            None
        } else {
            Some(main_worktree_paths.1)
        },
        remote_connection: match metadata.remote_connection {
            Some(connection) => Some(connection.options),
            None => None,
        },
        initial_command: metadata.initial_command,
        terminal_kind: terminal_thread::kind_text(metadata.registry.kind),
        provider: provider_column(metadata.registry.provider),
        tmux_server_name: metadata.registry.tmux_server_name,
        tmux_session_name: Some(metadata.registry.tmux_session_name),
        provider_session_id: metadata.registry.provider_session_id,
        lifecycle_state: terminal_thread::lifecycle_text(metadata.registry.lifecycle_state),
        last_attached_at: match metadata.registry.last_attached_at {
            Some(moment) => Some(moment_text(moment)),
            None => None,
        },
        updated_at: Some(moment_text(metadata.registry.updated_at)),
    }
}

/// The moment that a text gives.
pub open spec fn moment_of(value: Seq<char>) -> Option<Timestamp> {
    match timestamp::rfc3339_moment(value) {
        Some((seconds, nanos)) => Some(Timestamp { seconds, nanos }),
        None => None,
    }
}

/// What a reading of the registry columns gives, of a terminal created at `created_at`.
pub open spec fn registry_of(row: RowContents, id: u128, created_at: Timestamp) -> Result<
    RegistryContents,
    RowFailure,
> {
    if terminal_thread::kind_named(row.terminal_kind) is None {
        Err(RowFailure::Kind(row.terminal_kind))
    } else if row.provider matches Some(name) && terminal_thread::provider_named(name) is None {
        Err(RowFailure::Provider(row.provider->0))
    } else if terminal_thread::lifecycle_named(row.lifecycle_state) is None {
        Err(RowFailure::LifecycleState(row.lifecycle_state))
    } else if row.last_attached_at matches Some(value) && moment_of(value) is None {
        Err(RowFailure::Moment(row.last_attached_at->0))
    } else if row.updated_at matches Some(value) && moment_of(value) is None {
        Err(RowFailure::Moment(row.updated_at->0))
    } else {
        Ok(
            RegistryContents {
                kind: terminal_thread::kind_named(row.terminal_kind)->0,
                provider: match row.provider {
                    Some(name) => terminal_thread::provider_named(name),
                    None => None,
                },
                tmux_server_name: row.tmux_server_name,
                tmux_session_name: match row.tmux_session_name {
                    Some(name) if name.len() > 0 => name,
                    _ => terminal_id::session_name(id),
                },
                provider_session_id: row.provider_session_id,
                lifecycle_state: terminal_thread::lifecycle_named(row.lifecycle_state)->0,
                last_attached_at: match row.last_attached_at {
                    Some(value) => moment_of(value),
                    None => None,
                },
                updated_at: match row.updated_at {
                    Some(value) => moment_of(value)->0,
                    None => created_at,
                },
            },
        )
    }
}

/// The record that a row gives, where its path columns were read as `worktree_paths`, and its
/// connection column as `remote_connection`. Paths that do not go together are left out.
pub open spec fn record_of(
    row: RowContents,
    worktree_paths: Option<WorktreePathsContents>,
    remote_connection: Result<Option<RemoteConnectionContents>, Seq<char>>,
) -> Result<MetadataContents, RowFailure> {
    match remote_connection {
        Err(message) => Err(RowFailure::RemoteConnection(message)),
        Ok(connection) => match terminal_id::key_value(row.terminal_id) {
            None => Err(RowFailure::TerminalId(row.terminal_id)),
            Some(id) => match moment_of(row.created_at) {
                None => Err(RowFailure::Moment(row.created_at)),
                Some(created_at) => match registry_of(row, id, created_at) {
                    Err(failure) => Err(failure),
                    Ok(registry) => Ok(
                        MetadataContents {
                            terminal_id: TerminalId { value: id },
                            title: row.title,
                            custom_title: match row.custom_title {
                                Some(custom) if !title::is_blank(custom) => Some(custom),
                                _ => None,
                            },
                            created_at,
                            worktree_paths: match worktree_paths {
                                Some(paths) => paths,
                                None => terminal_thread::no_worktree_paths(),
                            },
                            remote_connection: connection,
                            working_directory: row.working_directory,
                            initial_command: row.initial_command,
                            registry,
                        },
                    ),
                },
            },
        },
    }
}

/// Whether a record can be read back as it was: its years have four digits, its custom title is
/// not blank, and its session has a name.
pub open spec fn is_durable(metadata: MetadataContents) -> bool {
    &&& metadata.moments_valid()
    &&& metadata.created_at.in_four_digit_years()
    &&& metadata.registry.updated_at.in_four_digit_years()
    &&& metadata.registry.last_attached_at matches Some(moment) ==> moment.in_four_digit_years()
    &&& metadata.custom_title matches Some(custom) ==> !title::is_blank(custom)
    &&& metadata.registry.tmux_session_name.len() > 0
}

/// The columns of a row hold what the record holds, each in its own: identities as key texts, moments
/// as RFC 3339 texts, names as they are written, and a connection as its options.
pub proof fn columns_hold_the_record(
    metadata: MetadataContents,
    folder_paths: (Seq<char>, Seq<char>),
    main_worktree_paths: (Seq<char>, Seq<char>),
)
    ensures
        ({
            let row = row_of(metadata, folder_paths, main_worktree_paths);
            let registry = metadata.registry;
            &&& row.terminal_id == terminal_id::key_text(metadata.terminal_id.value)
            &&& row.title == metadata.title
            &&& row.custom_title == metadata.custom_title
            &&& row.working_directory == metadata.working_directory
            &&& row.initial_command == metadata.initial_command
            &&& row.created_at == timestamp::rfc3339_text(
                metadata.created_at.seconds,
                metadata.created_at.nanos,
            )
            &&& row.updated_at == Some(
                timestamp::rfc3339_text(registry.updated_at.seconds, registry.updated_at.nanos),
            )
            &&& registry.last_attached_at matches Some(moment) ==> row.last_attached_at == Some(
                timestamp::rfc3339_text(moment.seconds, moment.nanos),
            )
            &&& registry.last_attached_at is None ==> row.last_attached_at is None
            &&& metadata.worktree_paths.folder_paths.paths.len() > 0 ==> row.folder_paths == Some(
                folder_paths.0,
            ) && row.folder_paths_order == Some(folder_paths.1)
            &&& metadata.worktree_paths.folder_paths.paths.len() == 0 ==> row.folder_paths is None
                && row.folder_paths_order is None
            &&& metadata.worktree_paths.main_worktree_paths.paths.len() > 0
                ==> row.main_worktree_paths == Some(main_worktree_paths.0)
                && row.main_worktree_paths_order == Some(main_worktree_paths.1)
            &&& metadata.worktree_paths.main_worktree_paths.paths.len() == 0
                ==> row.main_worktree_paths is None && row.main_worktree_paths_order is None
            &&& metadata.remote_connection matches Some(connection) ==> row.remote_connection
                == Some(connection.options)
            &&& metadata.remote_connection is None ==> row.remote_connection is None
            &&& registry.kind == TerminalThreadKind::Agent ==> row.terminal_kind == "agent"@
            &&& registry.kind == TerminalThreadKind::Shell ==> row.terminal_kind == "shell"@
            &&& registry.provider is Some ==> row.provider == Some("codex"@)
            &&& registry.provider is None ==> row.provider is None
            &&& row.tmux_server_name == registry.tmux_server_name
            &&& row.tmux_session_name == Some(registry.tmux_session_name)
            &&& row.provider_session_id == registry.provider_session_id
            &&& registry.lifecycle_state == TerminalThreadLifecycleState::Attached
                ==> row.lifecycle_state == "attached"@
            &&& registry.lifecycle_state == TerminalThreadLifecycleState::Detached
                ==> row.lifecycle_state == "detached"@
            &&& registry.lifecycle_state == TerminalThreadLifecycleState::Stopping
                ==> row.lifecycle_state == "stopping"@
        }),
{
}

/// A row that is read gives what its columns hold. A blank custom title is none, a session without a
/// name has the one of its terminal, a row without a time of update was updated when it was created,
/// and paths that do not go together are left out.
pub proof fn records_hold_the_columns(
    row: RowContents,
    worktree_paths: Option<WorktreePathsContents>,
    connection: Option<RemoteConnectionContents>,
    record: MetadataContents,
)
    requires
        record_of(row, worktree_paths, Ok(connection)) == Ok::<MetadataContents, RowFailure>(record),
    ensures
        terminal_id::key_value(row.terminal_id) == Some(record.terminal_id.value),
        record.title == row.title,
        row.custom_title matches Some(custom) ==> (text::trimmed(custom).len() > 0
            ==> record.custom_title == Some(custom)),
        row.custom_title matches Some(custom) ==> (text::trimmed(custom).len() == 0
            ==> record.custom_title is None),
        row.custom_title is None ==> record.custom_title is None,
        timestamp::rfc3339_moment(row.created_at) == Some(
            (record.created_at.seconds, record.created_at.nanos),
        ),
        worktree_paths matches Some(paths) ==> record.worktree_paths == paths,
        worktree_paths is None ==> record.worktree_paths.folder_paths.paths.len() == 0
            && record.worktree_paths.main_worktree_paths.paths.len() == 0,
        record.remote_connection == connection,
        record.working_directory == row.working_directory,
        record.initial_command == row.initial_command,
        row.terminal_kind == terminal_thread::kind_text(record.registry.kind),
        row.provider == (match record.registry.provider {
            Some(provider) => Some(terminal_thread::provider_text(provider)),
            None => None,
        }),
        record.registry.tmux_server_name == row.tmux_server_name,
        row.tmux_session_name matches Some(name) ==> (name.len() > 0
            ==> record.registry.tmux_session_name == name),
        row.tmux_session_name is None || (row.tmux_session_name->0).len() == 0
            ==> record.registry.tmux_session_name == "zed-"@ + terminal_id::key_text(
            record.terminal_id.value,
        ),
        record.registry.provider_session_id == row.provider_session_id,
        row.lifecycle_state == terminal_thread::lifecycle_text(record.registry.lifecycle_state),
        row.last_attached_at is None <==> record.registry.last_attached_at is None,
        row.last_attached_at matches Some(value) ==> (record.registry.last_attached_at matches Some(
            moment,
        ) && timestamp::rfc3339_moment(value) == Some((moment.seconds, moment.nanos))),
        row.updated_at is None ==> record.registry.updated_at == record.created_at,
        row.updated_at matches Some(value) ==> timestamp::rfc3339_moment(value) == Some(
            (record.registry.updated_at.seconds, record.registry.updated_at.nanos),
        ),
{
}

/// A row gives no record just where its connection could not be read, or its identity, one of its
/// moments or one of its names is none. The first of these, in the order of the columns, is told.
pub proof fn unreadable_columns_are_told(
    row: RowContents,
    worktree_paths: Option<WorktreePathsContents>,
    connection: Option<RemoteConnectionContents>,
    message: Seq<char>,
)
    ensures
        ({
            let read = record_of(row, worktree_paths, Ok(connection));
            let no_id = terminal_id::key_value(row.terminal_id) is None;
            let no_start = timestamp::rfc3339_moment(row.created_at) is None;
            let no_kind = row.terminal_kind != "agent"@ && row.terminal_kind != "shell"@;
            let no_provider = row.provider is Some && row.provider != Some("codex"@);
            let no_state = row.lifecycle_state != "attached"@ && row.lifecycle_state
                != "detached"@ && row.lifecycle_state != "stopping"@;
            let no_attach = row.last_attached_at is Some && timestamp::rfc3339_moment(
                row.last_attached_at->0,
            ) is None;
            let no_update = row.updated_at is Some && timestamp::rfc3339_moment(row.updated_at->0)
                is None;
            &&& record_of(row, worktree_paths, Err(message)) == Err::<MetadataContents, RowFailure>(
                RowFailure::RemoteConnection(message),
            )
            &&& no_id ==> read == Err::<MetadataContents, RowFailure>(
                RowFailure::TerminalId(row.terminal_id),
            )
            &&& !no_id && no_start ==> read == Err::<MetadataContents, RowFailure>(
                RowFailure::Moment(row.created_at),
            )
            &&& !no_id && !no_start && no_kind ==> read == Err::<MetadataContents, RowFailure>(
                RowFailure::Kind(row.terminal_kind),
            )
            &&& !no_id && !no_start && !no_kind && no_provider ==> read == Err::<
                MetadataContents,
                RowFailure,
            >(RowFailure::Provider(row.provider->0))
            &&& !no_id && !no_start && !no_kind && !no_provider && no_state ==> read == Err::<
                MetadataContents,
                RowFailure,
            >(RowFailure::LifecycleState(row.lifecycle_state))
            &&& !no_id && !no_start && !no_kind && !no_provider && !no_state && no_attach ==> read
                == Err::<MetadataContents, RowFailure>(
                RowFailure::Moment(row.last_attached_at->0),
            )
            &&& !no_id && !no_start && !no_kind && !no_provider && !no_state && !no_attach
                && no_update ==> read == Err::<MetadataContents, RowFailure>(
                RowFailure::Moment(row.updated_at->0),
            )
            &&& !no_id && !no_start && !no_kind && !no_provider && !no_state && !no_attach
                && !no_update ==> read is Ok
        }),
{
}

/// What a result of reading a connection holds.
pub open spec fn connection_reading(
    connection: Result<Option<RemoteConnection>, String>,
) -> Result<Option<RemoteConnectionContents>, Seq<char>> {
    match connection {
        Ok(inner) => Ok(terminal_thread::connection_option(inner)),
        Err(message) => Err(message@),
    }
}

/// What optional paths hold.
pub open spec fn paths_reading(paths: Option<WorktreePaths>) -> Option<WorktreePathsContents> {
    match paths {
        Some(inner) => Some(inner@),
        None => None,
    }
}

impl SerializedPathList {
    /// The list that two columns hold, if the first is filled. Without the second, the order is
    /// empty.
    pub fn from_columns(paths: Option<String>, order: Option<String>) -> (result: Option<
        SerializedPathList,
    >)
        ensures
            match (result, paths) {
                (Some(list), Some(given)) => list.paths@ == given@ && list.order@ == match order {
                    Some(given_order) => given_order@,
                    None => Seq::empty(),
                },
                (None, None) => true,
                _ => false,
            },
    {
        match paths {
            Some(paths) => Some(
                SerializedPathList {
                    paths,
                    order: match order {
                        Some(order) => order,
                        None => String::new(),
                    },
                },
            ),
            None => None,
        }
    }
}

fn text_of_moment(moment: &Option<Timestamp>) -> (result: Option<String>)
    requires
        *moment matches Some(inner) ==> inner.valid(),
    ensures
        text::string_option(result) == match *moment {
            Some(inner) => Some(moment_text(inner)),
            None => None,
        },
        *moment matches Some(inner) && inner.in_four_digit_years() ==> (result matches Some(value)
            && moment_of(value@) == *moment),
{
    match moment {
        Some(inner) => Some(inner.to_rfc3339()),
        None => None,
    }
}

impl TerminalThreadRow {
    /// The row that a record is written to, with its lists of paths as they were serialized. What
    /// is written is read back as it was, for a durable record.
    pub fn from_metadata(
        metadata: &TerminalThreadMetadata,
        folder_paths: SerializedPathList,
        main_worktree_paths: SerializedPathList,
    ) -> (result: TerminalThreadRow)
        requires
            metadata@.moments_valid(),
        ensures
            result@ == row_of(
                metadata@,
                (folder_paths.paths@, folder_paths.order@),
                (main_worktree_paths.paths@, main_worktree_paths.order@),
            ),
            is_durable(metadata@) ==> record_of(
                result@,
                Some(metadata@.worktree_paths),
                Ok(metadata@.remote_connection),
            ) == Ok::<MetadataContents, RowFailure>(metadata@),
    {
        let created_at = metadata.created_at.to_rfc3339();
        let last_attached_at = text_of_moment(&metadata.registry.last_attached_at);
        let updated_at = metadata.registry.updated_at.to_rfc3339();
        let (folder_column, folder_order_column) = if metadata.folder_paths().is_empty() {
            (None, None)
        } else {
            (Some(folder_paths.paths), Some(folder_paths.order))
        };
        let (main_column, main_order_column) = if metadata.main_worktree_paths().is_empty() {
            (None, None)
        } else {
            (Some(main_worktree_paths.paths), Some(main_worktree_paths.order))
        };
        let result = TerminalThreadRow {
            terminal_id: metadata.terminal_id.to_key_string(),
            title: metadata.title.clone(),
            custom_title: copy_string_option(&metadata.custom_title),
            created_at,
            working_directory: copy_string_option(&metadata.working_directory),
            folder_paths: folder_column,
            folder_paths_order: folder_order_column,
            main_worktree_paths: main_column,
            main_worktree_paths_order: main_order_column,
            remote_connection: match &metadata.remote_connection {
                Some(connection) => Some(connection.options.clone()),
                None => None,
            },
            initial_command: copy_string_option(&metadata.initial_command),
            terminal_kind: metadata.registry.kind.as_str().to_owned(),
            provider: match metadata.registry.provider {
                Some(provider) => Some(provider.as_str().to_owned()),
                None => None,
            },
            tmux_server_name: metadata.registry.tmux_server_name.clone(),
            tmux_session_name: Some(metadata.registry.tmux_session_name.clone()),
            provider_session_id: copy_string_option(&metadata.registry.provider_session_id),
            lifecycle_state: metadata.registry.lifecycle_state.as_str().to_owned(),
            last_attached_at,
            updated_at: Some(updated_at),
        };
        proof {
            let contents = metadata@;
            terminal_id::key_text_round_trip(contents.terminal_id.value);
            terminal_thread::kind_text_round_trip(contents.registry.kind);
            if let Some(provider) = contents.registry.provider {
                terminal_thread::provider_text_round_trip(provider);
            }
            terminal_thread::lifecycle_text_round_trip(contents.registry.lifecycle_state);
            if is_durable(contents) {
                assert(moment_of(created_at@) == Some(contents.created_at));
                assert(moment_of(updated_at@) == Some(contents.registry.updated_at));
                let read = registry_of(result@, contents.terminal_id.value, contents.created_at);
                assert(read is Ok);
                assert(read->Ok_0 =~= contents.registry);
            }
        }
        result
    }

    fn registry(&self, terminal_id: TerminalId, created_at: Timestamp) -> (result: Result<
        TerminalThreadRegistryMetadata,
        RowError,
    >)
        requires
            created_at.valid(),
        ensures
            match result {
                Ok(registry) => registry_of(self@, terminal_id.value, created_at) == Ok::<
                    RegistryContents,
                    RowFailure,
                >(registry@) && registry@.moments_valid(),
                Err(error) => registry_of(self@, terminal_id.value, created_at) == Err::<
                    RegistryContents,
                    RowFailure,
                >(error@),
            },
    {
        let kind = match TerminalThreadKind::from_str(self.terminal_kind.as_str()) {
            Ok(kind) => kind,
            Err(error) => {
                return Err(RowError::Value(error));
            },
        };
        let provider = match &self.provider {
            Some(name) => match TerminalThreadProvider::from_str(name.as_str()) {
                Ok(provider) => Some(provider),
                Err(error) => {
                    return Err(RowError::Value(error));
                },
            },
            None => None,
        };
        let lifecycle_state = match TerminalThreadLifecycleState::from_str(
            self.lifecycle_state.as_str(),
        ) {
            Ok(state) => state,
            Err(error) => {
                return Err(RowError::Value(error));
            },
        };
        let last_attached_at = match &self.last_attached_at {
            Some(value) => match Timestamp::parse_from_rfc3339(value.as_str()) {
                Some(moment) => Some(moment),
                None => {
                    return Err(RowError::Moment(value.clone()));
                },
            },
            None => None,
        };
        let updated_at = match &self.updated_at {
            Some(value) => match Timestamp::parse_from_rfc3339(value.as_str()) {
                Some(moment) => moment,
                None => {
                    return Err(RowError::Moment(value.clone()));
                },
            },
            None => created_at,
        };
        let tmux_session_name = match &self.tmux_session_name {
            Some(name) => if name.as_str().is_empty() {
                terminal_thread_tmux_session_name(terminal_id)
            } else {
                name.clone()
            },
            None => terminal_thread_tmux_session_name(terminal_id),
        };
        let registry = TerminalThreadRegistryMetadata {
            kind,
            provider,
            tmux_server_name: self.tmux_server_name.clone(),
            tmux_session_name,
            provider_session_id: copy_string_option(&self.provider_session_id),
            lifecycle_state,
            last_attached_at,
            updated_at,
        };
        assert(registry_of(self@, terminal_id.value, created_at)->Ok_0 =~= registry@);
        Ok(registry)
    }

    /// The record that this row gives. `worktree_paths` is what the path columns hold, unless they
    /// do not go together; `remote_connection` is what the connection column holds, or what was
    /// said of it where it could not be read.
    pub fn to_metadata(
        &self,
        worktree_paths: Option<WorktreePaths>,
        remote_connection: Result<Option<RemoteConnection>, String>,
    ) -> (result: Result<TerminalThreadMetadata, RowError>)
        ensures
            match result {
                Ok(metadata) => record_of(
                    self@,
                    paths_reading(worktree_paths),
                    connection_reading(remote_connection),
                ) == Ok::<MetadataContents, RowFailure>(metadata@) && metadata@.moments_valid(),
                Err(error) => record_of(
                    self@,
                    paths_reading(worktree_paths),
                    connection_reading(remote_connection),
                ) == Err::<MetadataContents, RowFailure>(error@),
            },
    {
        let ghost given_paths = paths_reading(worktree_paths);
        let ghost given_connection = connection_reading(remote_connection);
        let connection = match remote_connection {
            Ok(connection) => connection,
            Err(message) => {
                return Err(RowError::RemoteConnection(message));
            },
        };
        let terminal_id = match TerminalId::from_key_string(self.terminal_id.as_str()) {
            Ok(terminal_id) => terminal_id,
            Err(error) => {
                return Err(RowError::TerminalId(error));
            },
        };
        let created_at = match Timestamp::parse_from_rfc3339(self.created_at.as_str()) {
            Some(moment) => moment,
            None => {
                return Err(RowError::Moment(self.created_at.clone()));
            },
        };
        let registry = match self.registry(terminal_id, created_at) {
            Ok(registry) => registry,
            Err(error) => {
                return Err(error);
            },
        };
        let custom_title = match &self.custom_title {
            Some(custom) => if trim(custom.as_str()).is_empty() {
                None
            } else {
                Some(custom.clone())
            },
            None => None,
        };
        let worktree_paths = match worktree_paths {
            Some(paths) => paths,
            None => WorktreePaths::default(),
        };
        let metadata = TerminalThreadMetadata {
            terminal_id,
            title: self.title.clone(),
            custom_title,
            created_at,
            worktree_paths,
            remote_connection: connection,
            working_directory: copy_string_option(&self.working_directory),
            initial_command: copy_string_option(&self.initial_command),
            registry,
        };
        assert(record_of(self@, given_paths, given_connection)->Ok_0 =~= metadata@);
        Ok(metadata)
    }
}

} // verus!
