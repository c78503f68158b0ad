//! A look at the tmux sessions: which terminals it is for, and what it changes in the stores.
use std::collections::HashSet;

use vstd::prelude::*;

use crate::metadata_store;
use crate::metadata_store::{
    DbOperation, OperationContents, StoreContents, TerminalThreadMetadataStore,
};
use crate::path;
use crate::path::same_path_text;
use crate::snapshot;
use crate::snapshot::{status_for_snapshot, SessionSnapshot, SnapshotContents, TitleStatus};
use crate::status_store::{
    AgentThreadStatus, StatusContents, TerminalThreadStatusChanged, TerminalThreadStatusStore,
};
use crate::terminal_id::TerminalId;
use crate::terminal_thread;
use crate::terminal_thread::{
    copy_string_option, is_codex_command, metadata_uses_codex, MetadataContents,
    TerminalThreadMetadata, TerminalThreadProvider,
};
use crate::text;
use crate::title;
use crate::title::terminal_title_for_persistence;

verus! {

broadcast use vstd::std_specs::hash::group_hash_axioms;

/// The terminals that run Codex, and those of them that are running; none where there is no
/// terminal at all.
pub fn poll_targets(
    metadata_store: &TerminalThreadMetadataStore,
    status_store: &TerminalThreadStatusStore,
) -> (result: Option<(HashSet<u128>, HashSet<u128>)>)
    requires
        metadata_store.well_formed(),
    ensures
        match result {
            Some((codex, running)) => {
                &&& exists|id: u128| #[trigger] metadata_store@.terminals.contains_key(id)
                &&& forall|id: u128| #[trigger]
                    codex@.contains(id) <==> metadata_store@.terminals.contains_key(id)
                        && metadata_store@.terminals[id].registry.provider == Some(
                        TerminalThreadProvider::Codex,
                    )
                &&& forall|id: u128| #[trigger]
                    running@.contains(id) <==> codex@.contains(id) && status_store@.status(id)
                        == AgentThreadStatus::Running
            },
            None => forall|id: u128| !(#[trigger] metadata_store@.terminals.contains_key(id)),
        },
{
    let entries = metadata_store.entries();
    let ghost contents = metadata_store@;
    if entries.len() == 0 {
        assert forall|id: u128| !(#[trigger] contents.terminals.contains_key(id)) by {
            if contents.terminals.contains_key(id) {
                let i = choose|i: int|
                    0 <= i < entries@.len() && (#[trigger] entries@[i])@.terminal_id.value == id;
                assert(false);
            }
        }
        return None;
    }
    let mut codex: HashSet<u128> = HashSet::new();
    let mut running: HashSet<u128> = HashSet::new();
    let mut i: usize = 0;
    while i < entries.len()
        invariant
            i <= entries.len(),
            contents == metadata_store@,
            metadata_store::lists_chosen(entries@, contents, |id: u128| true),
            forall|id: u128| #[trigger]
                codex@.contains(id) <==> (exists|j: int|
                    0 <= j < i && (#[trigger] entries@[j])@.terminal_id.value == id)
                    && contents.terminals[id].registry.provider == Some(
                    TerminalThreadProvider::Codex,
                ),
            forall|id: u128| #[trigger]
                running@.contains(id) <==> codex@.contains(id) && status_store@.status(id)
                    == AgentThreadStatus::Running,
        decreases entries.len() - i,
    {
        let entry = entries[i];
        let ghost codex_before = codex@;
        assert(contents.record(entry@.terminal_id.value) == Some(entry@));
        if metadata_uses_codex(entry) {
            codex.insert(entry.terminal_id.value);
            if status_store.status(entry.terminal_id) == AgentThreadStatus::Running {
                running.insert(entry.terminal_id.value);
            }
        }
        assert forall|id: u128| #[trigger]
            codex@.contains(id) <==> (exists|j: int|
                0 <= j < i + 1 && (#[trigger] entries@[j])@.terminal_id.value == id)
                && contents.terminals[id].registry.provider == Some(
                TerminalThreadProvider::Codex,
            ) by {
            assert(entries@[i as int]@.terminal_id.value == entry@.terminal_id.value);
            if exists|j: int|
                0 <= j < i + 1 && (#[trigger] entries@[j])@.terminal_id.value == id {
                let j = choose|j: int|
                    0 <= j < i + 1 && (#[trigger] entries@[j])@.terminal_id.value == id;
                assert(entries@[j]@.terminal_id.value == id);
                if j < i {
                    assert(codex_before.contains(id)
                        <==> contents.terminals[id].registry.provider == Some(
                        TerminalThreadProvider::Codex,
                    ));
                }
            }
        }
        i = i + 1;
    }
    assert(contents.record(entries@[0]@.terminal_id.value) == Some(entries@[0]@));
    assert(contents.terminals.contains_key(entries@[0]@.terminal_id.value));
    assert forall|id: u128| #[trigger]
        codex@.contains(id) <==> contents.terminals.contains_key(id)
            && contents.terminals[id].registry.provider == Some(TerminalThreadProvider::Codex) by {
        if codex@.contains(id) {
            let j = choose|j: int|
                0 <= j < i && (#[trigger] entries@[j])@.terminal_id.value == id;
            assert(contents.record(entries@[j]@.terminal_id.value) == Some(entries@[j]@));
        }
        if contents.terminals.contains_key(id) {
            let j = choose|j: int|
                0 <= j < entries@.len() && (#[trigger] entries@[j])@.terminal_id.value == id;
            assert(entries@[j]@.terminal_id.value == id);
        }
    }
    Some((codex, running))
}

/// What was last told of a look that failed.
#[derive(Debug)]
pub struct PollErrors {
    pub last: Option<String>,
}

impl PollErrors {
    /// Nothing failed yet.
    pub fn new() -> (result: PollErrors)
        ensures
            result.last is None,
    {
        PollErrors { last: None }
    }

    /// Takes note that a look succeeded.
    pub fn succeeded(&mut self)
        ensures
            final(self).last is None,
    {
        self.last = None;
    }

    /// Takes note that a look failed. Says whether that is worth telling: it is, unless the same
    /// was told of the look before.
    pub fn failed(&mut self, error: String) -> (result: bool)
        ensures
            text::string_option(final(self).last) == Some(error@),
            result == (text::string_option(old(self).last) != Some(error@)),
    {
        let repeated = match &self.last {
            Some(last) => *last == error,
            None => false,
        };
        self.last = Some(error);
        !repeated
    }
}

/// The position of the last snapshot of a terminal.
pub open spec fn last_snapshot(snapshots: Seq<SnapshotContents>, id: u128) -> Option<int>
    decreases snapshots.len(),
{
    if snapshots.len() == 0 {
        None
    } else if snapshots.last().terminal_id.value == id {
        Some(snapshots.len() - 1)
    } else {
        last_snapshot(snapshots.drop_last(), id)
    }
}

/// Whether two optional texts name the same working directory.
pub open spec fn same_directory(a: Option<Seq<char>>, b: Option<Seq<char>>) -> bool {
    match (a, b) {
        (Some(x), Some(y)) => path::is_same(x, y),
        (None, None) => true,
        _ => false,
    }
}

/// A look at the sessions, and the stores that it found.
#[verifier::ext_equal]
pub struct Look {
    pub snapshots: Seq<SnapshotContents>,
    pub title_statuses: Seq<TitleStatus>,
    pub records: StoreContents,
    pub statuses: StatusContents,
}

impl Look {
    /// The status that the look shows of a terminal.
    pub open spec fn status(self, id: u128) -> AgentThreadStatus {
        match last_snapshot(self.snapshots, id) {
            Some(at) => snapshot::snapshot_status(
                Some(self.snapshots[at]),
                self.title_statuses[at],
                self.records.terminals[id].registry.provider == Some(TerminalThreadProvider::Codex)
                    || terminal_thread::is_codex_name(self.snapshots[at].command),
                self.statuses.status(id),
            ),
            None => AgentThreadStatus::Completed,
        }
    }

    /// The record of a terminal after the look: with the title and the working directory of its
    /// pane, where either is another.
    pub open spec fn record(self, id: u128) -> MetadataContents {
        let record = self.records.terminals[id];
        match last_snapshot(self.snapshots, id) {
            Some(at) => {
                let title = title::lasting_title(self.snapshots[at].title);
                let working_directory = self.snapshots[at].working_directory;
                if record.title == title && same_directory(
                    record.working_directory,
                    working_directory,
                ) {
                    record
                } else {
                    MetadataContents { title, working_directory, ..record }
                }
            },
            None => record,
        }
    }

    /// Whether the record of a terminal is saved after the look.
    pub open spec fn saves(self, id: u128) -> bool {
        match last_snapshot(self.snapshots, id) {
            Some(at) => self.records.terminals[id].title != title::lasting_title(
                self.snapshots[at].title,
            ) || !same_directory(
                self.records.terminals[id].working_directory,
                self.snapshots[at].working_directory,
            ),
            None => false,
        }
    }

    /// The change of the status of a terminal, where it changes.
    pub open spec fn change(self, id: u128) -> Option<TerminalThreadStatusChanged> {
        let previous_status = if self.statuses.statuses.contains_key(id) {
            Some(self.statuses.statuses[id])
        } else {
            None
        };
        if previous_status == Some(self.status(id)) {
            None
        } else {
            Some(
                TerminalThreadStatusChanged {
                    terminal_id: TerminalId { value: id },
                    previous_status,
                    status: self.status(id),
                },
            )
        }
    }
}

/// The operation on the database that the look leads to for a terminal.
pub open spec fn look_operation(look: Look, id: u128) -> Option<OperationContents> {
    if look.saves(id) {
        Some(OperationContents::Upsert(look.record(id)))
    } else {
        None
    }
}

/// Whether a terminal starts to run by the look.
pub open spec fn starts_running(look: Look, id: u128) -> bool {
    look.change(id) is Some && look.status(id) == AgentThreadStatus::Running
}

/// A look changes nothing of a record but its title and its working directory: what was intended
/// of a terminal stays, and no live status is written to the registry. A terminal without a pane
/// keeps its record, and is idle.
pub proof fn looks_keep_the_registry(look: Look, id: u128)
    ensures
        look.record(id) == (MetadataContents {
            title: look.record(id).title,
            working_directory: look.record(id).working_directory,
            ..look.records.terminals[id]
        }),
        last_snapshot(look.snapshots, id) is None ==> look.record(id) == look.records.terminals[id]
            && look.status(id) == AgentThreadStatus::Completed,
        look.record(id) != look.records.terminals[id] ==> look.saves(id),
{
}

/// What two stores of statuses hold of one terminal is the same.
pub open spec fn same_status_entry(a: StatusContents, b: StatusContents, id: u128) -> bool {
    &&& a.statuses.contains_key(id) == b.statuses.contains_key(id)
    &&& a.statuses.contains_key(id) ==> a.statuses[id] == b.statuses[id]
    &&& a.frames.contains_key(id) == b.frames.contains_key(id)
    &&& a.frames.contains_key(id) ==> a.frames[id] == b.frames[id]
}

/// The statuses after that of `id` is set to what the look shows, where `id` is among `done`.
pub open spec fn statuses_with(look: Look, done: Set<u128>, id: u128) -> StatusContents {
    if done.contains(id) {
        look.statuses.set(id, look.status(id))
    } else {
        look.statuses
    }
}

/// Whether the stores are up to date with a look as far as the terminals `done` go, with the
/// changes and the operations that this makes, each once.
pub open spec fn applied_to(
    look: Look,
    done: Set<u128>,
    records: StoreContents,
    statuses: StatusContents,
    changes: Seq<TerminalThreadStatusChanged>,
    operations: Seq<OperationContents>,
) -> bool {
    &&& records.terminals.dom() == look.records.terminals.dom()
    &&& forall|id: u128| #[trigger]
        look.records.terminals.contains_key(id) ==> records.terminals[id] == if done.contains(id) {
            look.record(id)
        } else {
            look.records.terminals[id]
        }
    &&& forall|id: u128| #[trigger]
        same_status_entry(
            statuses,
            statuses_with(look, done, id),
            id,
        )
    &&& statuses.animated == (look.statuses.animated || exists|id: u128| #[trigger]
        done.contains(id) && starts_running(look, id))
    &&& changes.no_duplicates()
    &&& forall|i: int|
        0 <= i < changes.len() ==> {
            let id = (#[trigger] changes[i]).terminal_id.value;
            done.contains(id) && look.change(id) == Some(changes[i])
        }
    &&& forall|id: u128| #[trigger]
        done.contains(id) && look.change(id) is Some ==> changes.contains(look.change(id)->0)
    &&& operations.no_duplicates()
    &&& forall|i: int|
        0 <= i < operations.len() ==> {
            let id = (#[trigger] operations[i]).id();
            done.contains(id) && look_operation(look, id) == Some(operations[i])
        }
    &&& forall|id: u128| #[trigger]
        done.contains(id) && look_operation(look, id) is Some ==> operations.contains(
            look_operation(look, id)->0,
        )
}

proof fn lemma_pushed<A>(s: Seq<A>, added: A, other: A)
    ensures
        s.push(added).contains(added),
        s.contains(other) ==> s.push(added).contains(other),
        s.no_duplicates() && !s.contains(added) ==> s.push(added).no_duplicates(),
{
    assert(s.push(added)[s.len() as int] == added);
    if s.contains(other) {
        let i = choose|i: int| 0 <= i < s.len() && s[i] == other;
        assert(s.push(added)[i] == other);
    }
}

proof fn lemma_step(
    look: Look,
    done: Set<u128>,
    id: u128,
    records: StoreContents,
    statuses: StatusContents,
    changes: Seq<TerminalThreadStatusChanged>,
    operations: Seq<OperationContents>,
    next_records: StoreContents,
)
    requires
        look.records.keyed(),
        applied_to(look, done, records, statuses, changes, operations),
        !done.contains(id),
        look.records.terminals.contains_key(id),
        next_records.terminals == records.terminals.insert(id, look.record(id)),
    ensures
        applied_to(
            look,
            done.insert(id),
            next_records,
            statuses.set(id, look.status(id)),
            match look.change(id) {
                Some(change) => changes.push(change),
                None => changes,
            },
            match look_operation(look, id) {
                Some(operation) => operations.push(operation),
                None => operations,
            },
        ),
{
    let next_done = done.insert(id);
    let next_statuses = statuses.set(id, look.status(id));
    let next_changes = match look.change(id) {
        Some(change) => changes.push(change),
        None => changes,
    };
    let next_operations = match look_operation(look, id) {
        Some(operation) => operations.push(operation),
        None => operations,
    };
    assert(next_records.terminals.dom() =~= look.records.terminals.dom());
    assert(same_status_entry(statuses, statuses_with(look, done, id), id));
    assert forall|other: u128| #[trigger]
        same_status_entry(
            next_statuses,
            statuses_with(look, next_done, other),
            other,
        ) by {
        assert(same_status_entry(
            statuses,
            statuses_with(look, done, other),
            other,
        ));
    }
    assert(next_statuses.animated == (look.statuses.animated || exists|other: u128| #[trigger]
        next_done.contains(other) && starts_running(look, other))) by {
        if exists|other: u128| #[trigger] done.contains(other) && starts_running(look, other) {
            let other = choose|other: u128| #[trigger]
                done.contains(other) && starts_running(look, other);
            assert(next_done.contains(other));
        }
        assert(next_done.contains(id));
        if exists|other: u128| #[trigger] next_done.contains(other) && starts_running(look, other) {
            let other = choose|other: u128| #[trigger]
                next_done.contains(other) && starts_running(look, other);
            assert(other == id || done.contains(other));
        }
    }
    assert(next_changes.no_duplicates()) by {
        if let Some(change) = look.change(id) {
            lemma_pushed(changes, change, change);
            if changes.contains(change) {
                let i = choose|i: int| 0 <= i < changes.len() && changes[i] == change;
                assert(done.contains(changes[i].terminal_id.value));
            }
        }
    }
    assert forall|other: u128| #[trigger]
        next_done.contains(other) && look.change(other) is Some implies next_changes.contains(
        look.change(other)->0,
    ) by {
        if let Some(change) = look.change(id) {
            lemma_pushed(changes, change, look.change(other)->0);
        }
    }
    assert(look_operation(look, id) matches Some(operation) ==> operation.id() == id);
    assert(next_operations.no_duplicates()) by {
        if let Some(operation) = look_operation(look, id) {
            lemma_pushed(operations, operation, operation);
            if operations.contains(operation) {
                let i = choose|i: int| 0 <= i < operations.len() && operations[i] == operation;
                assert(done.contains(operations[i].id()));
            }
        }
    }
    assert forall|other: u128| #[trigger]
        next_done.contains(other) && look_operation(look, other)
            is Some implies next_operations.contains(look_operation(look, other)->0) by {
        if let Some(operation) = look_operation(look, id) {
            lemma_pushed(operations, operation, look_operation(look, other)->0);
        }
    }
}

/// The last snapshot of a terminal is the one that counts.
pub proof fn last_snapshot_counts(snapshots: Seq<SnapshotContents>, id: u128)
    ensures
        match last_snapshot(snapshots, id) {
            Some(at) => 0 <= at < snapshots.len() && snapshots[at].terminal_id.value == id
                && forall|i: int|
                at < i < snapshots.len() ==> (#[trigger] snapshots[i]).terminal_id.value != id,
            None => forall|i: int|
                0 <= i < snapshots.len() ==> (#[trigger] snapshots[i]).terminal_id.value != id,
        },
    decreases snapshots.len(),
{
    if snapshots.len() > 0 && snapshots.last().terminal_id.value != id {
        let rest = snapshots.drop_last();
        last_snapshot_counts(rest, id);
        assert forall|i: int| 0 <= i < rest.len() implies #[trigger] snapshots[i] == rest[i] by {}
    }
}

/// What a look shows of a terminal with a pane: its status is that of the pane, read as that of a
/// Codex session where the record or the command says so; its record has the lasting part of the
/// title and the directory of the pane; and it is saved just where either is another than before.
pub proof fn looks_show_the_pane(look: Look, id: u128, at: int)
    requires
        last_snapshot(look.snapshots, id) == Some(at),
    ensures
        ({
            let pane = look.snapshots[at];
            let record = look.records.terminals[id];
            let is_codex = record.registry.provider == Some(TerminalThreadProvider::Codex)
                || pane.command == "codex"@ || text::begins_with(pane.command, "codex-"@);
            let previous = if look.statuses.statuses.contains_key(id) {
                look.statuses.statuses[id]
            } else {
                AgentThreadStatus::Completed
            };
            let title = title::lasting_title(pane.title);
            let same_place = (record.working_directory is None <==> pane.working_directory is None)
                && (record.working_directory matches Some(before) ==> (pane.working_directory
                matches Some(now) ==> path::is_same(before, now)));
            &&& look.status(id) == snapshot::snapshot_status(
                Some(pane),
                look.title_statuses[at],
                is_codex,
                previous,
            )
            &&& look.saves(id) <==> record.title != title || !same_place
            &&& look.record(id).title == title
            &&& look.saves(id) ==> look.record(id).working_directory == pane.working_directory
            &&& !look.saves(id) ==> look.record(id) == record
        }),
{
}

/// A look saves nothing of a terminal without a pane, which is done and keeps its record.
pub proof fn terminals_without_a_pane_are_done(look: Look, id: u128)
    requires
        forall|i: int|
            0 <= i < look.snapshots.len() ==> (#[trigger] look.snapshots[i]).terminal_id.value != id,
    ensures
        look.status(id) == AgentThreadStatus::Completed,
        !look.saves(id),
        look.record(id) == look.records.terminals[id],
{
    last_snapshot_counts(look.snapshots, id);
}

/// A change of status is told with what was known before, and just where it is another.
pub proof fn changes_are_told(look: Look, id: u128)
    ensures
        ({
            let known = look.statuses.statuses.contains_key(id);
            let before = look.statuses.statuses[id];
            &&& look.change(id) is None <==> known && before == look.status(id)
            &&& look.change(id) matches Some(change) ==> change.terminal_id.value == id
                && change.status == look.status(id) && (known ==> change.previous_status == Some(
                before,
            )) && (!known ==> change.previous_status is None)
        }),
{
}

/// After a look every terminal has the record and the status that the look shows; its change is told
/// and its record written where there is anything to tell or to write, and nothing else is.
pub proof fn applied_looks_reach_every_terminal(
    look: Look,
    records: StoreContents,
    statuses: StatusContents,
    changes: Seq<TerminalThreadStatusChanged>,
    operations: Seq<OperationContents>,
    id: u128,
)
    requires
        applied_to(
            look,
            look.records.terminals.dom(),
            records,
            statuses,
            changes,
            operations,
        ),
        look.records.keyed(),
    ensures
        records.terminals.contains_key(id) <==> look.records.terminals.contains_key(id),
        look.records.terminals.contains_key(id) ==> records.terminals[id] == look.record(id)
            && statuses.status(id) == look.status(id),
        look.records.terminals.contains_key(id) ==> (look.change(id) matches Some(change)
            ==> changes.contains(change)),
        look.records.terminals.contains_key(id) && look.saves(id) ==> operations.contains(
            OperationContents::Upsert(look.record(id)),
        ),
        !look.records.terminals.contains_key(id) ==> statuses.status(id) == look.statuses.status(id),
        forall|i: int|
            0 <= i < changes.len() ==> look.records.terminals.contains_key(
                (#[trigger] changes[i]).terminal_id.value,
            ) && look.change(changes[i].terminal_id.value) == Some(changes[i]),
        forall|i: int|
            0 <= i < operations.len() ==> look.saves((#[trigger] operations[i]).id())
                && operations[i] == OperationContents::Upsert(look.record(operations[i].id())),
{
    let done = look.records.terminals.dom();
    assert(same_status_entry(statuses, statuses_with(look, done, id), id));
    assert(records.terminals.dom().contains(id) <==> done.contains(id));
    assert forall|i: int| 0 <= i < operations.len() implies look.saves(
        (#[trigger] operations[i]).id(),
    ) && operations[i] == OperationContents::Upsert(look.record(operations[i].id())) by {
        assert(look_operation(look, operations[i].id()) == Some(operations[i]));
    }
}

/// What to do after a look: tell of the changes, start the animation, and do the operations on the
/// database.
pub struct LookEffects {
    pub changes: Vec<TerminalThreadStatusChanged>,
    pub start_animation: bool,
    pub operations: Vec<DbOperation>,
}

fn find_snapshot(snapshots: &Vec<SessionSnapshot>, terminal_id: TerminalId) -> (result: Option<
    usize,
>)
    ensures
        match result {
            Some(at) => at < snapshots@.len() && last_snapshot(
                snapshot::snapshot_contents(snapshots@),
                terminal_id.value,
            ) == Some(at as int),
            None => last_snapshot(
                snapshot::snapshot_contents(snapshots@),
                terminal_id.value,
            ) is None,
        },
{
    let ghost all = snapshot::snapshot_contents(snapshots@);
    let mut left: usize = snapshots.len();
    assert(all.take(left as int) =~= all);
    while left > 0
        invariant
            left <= snapshots.len(),
            all == snapshot::snapshot_contents(snapshots@),
            last_snapshot(all, terminal_id.value) == last_snapshot(
                all.take(left as int),
                terminal_id.value,
            ),
        decreases left,
    {
        assert(all.take(left as int).last() == snapshots@[left - 1]@);
        assert(all.take(left as int).drop_last() =~= all.take(left - 1));
        if snapshots[left - 1].terminal_id == terminal_id {
            return Some(left - 1);
        }
        left = left - 1;
    }
    None
}

/// Whether `entries` holds a copy of each record, once.
spec fn copies_records(entries: Seq<TerminalThreadMetadata>, records: StoreContents) -> bool {
    &&& forall|i: int|
        0 <= i < entries.len() ==> records.record((#[trigger] entries[i])@.terminal_id.value)
            == Some(entries[i]@)
    &&& forall|i: int, j: int|
        0 <= i < j < entries.len() ==> (#[trigger] entries[i])@.terminal_id
            != (#[trigger] entries[j])@.terminal_id
    &&& forall|id: u128| #[trigger]
        records.terminals.contains_key(id) ==> exists|i: int|
            0 <= i < entries.len() && (#[trigger] entries[i])@.terminal_id.value == id
}

fn copied_entries(metadata_store: &TerminalThreadMetadataStore) -> (result: Vec<
    TerminalThreadMetadata,
>)
    requires
        metadata_store.well_formed(),
    ensures
        copies_records(result@, metadata_store@),
{
    let entries = metadata_store.entries();
    let mut result: Vec<TerminalThreadMetadata> = Vec::new();
    let mut i: usize = 0;
    while i < entries.len()
        invariant
            i <= entries.len(),
            result@.len() == i,
            forall|j: int| 0 <= j < i ==> (#[trigger] result@[j])@ == entries@[j]@,
        decreases entries.len() - i,
    {
        result.push(entries[i].clone());
        i = i + 1;
    }
    assert forall|j: int, k: int| 0 <= j < k < result@.len() implies (
    #[trigger] result@[j])@.terminal_id != (#[trigger] result@[k])@.terminal_id by {
        assert(entries@[j]@.terminal_id != entries@[k]@.terminal_id);
    }
    assert forall|id: u128| #[trigger]
        metadata_store@.terminals.contains_key(id) implies exists|j: int|
        0 <= j < result@.len() && (#[trigger] result@[j])@.terminal_id.value == id by {
        let j = choose|j: int|
            0 <= j < entries@.len() && (#[trigger] entries@[j])@.terminal_id.value == id;
        assert(result@[j]@.terminal_id.value == id);
    }
    assert forall|j: int| 0 <= j < result@.len() implies metadata_store@.record(
        (#[trigger] result@[j])@.terminal_id.value,
    ) == Some(result@[j]@) by {
        assert(entries@[j]@ == result@[j]@);
    }
    result
}

/// The record of a terminal with the title and the working directory of its pane, where either is
/// another.
fn updated_record(entry: &TerminalThreadMetadata, snapshot: &SessionSnapshot) -> (result: Option<
    TerminalThreadMetadata,
>)
    ensures
        ({
            let title = title::lasting_title(snapshot@.title);
            let same = entry@.title == title && same_directory(
                entry@.working_directory,
                snapshot@.working_directory,
            );
            match result {
                Some(updated) => !same && updated@ == (MetadataContents {
                    title,
                    working_directory: snapshot@.working_directory,
                    ..entry@
                }),
                None => same,
            }
        }),
{
    let title = terminal_title_for_persistence(snapshot.title.as_str());
    let directory_kept = match (&entry.working_directory, &snapshot.working_directory) {
        (Some(known), Some(found)) => same_path_text(known.as_str(), found.as_str()),
        (None, None) => true,
        _ => false,
    };
    if directory_kept && entry.title == title {
        return None;
    }
    let mut updated = entry.clone();
    updated.title = title;
    updated.working_directory = copy_string_option(&snapshot.working_directory);
    Some(updated)
}

/// Brings the stores up to date with what `look` shows of the terminal of one record.
fn apply_to_entry(
    entry: &TerminalThreadMetadata,
    snapshots: &Vec<SessionSnapshot>,
    title_statuses: &Vec<TitleStatus>,
    metadata_store: &mut TerminalThreadMetadataStore,
    status_store: &mut TerminalThreadStatusStore,
    effects: &mut LookEffects,
    Ghost(look): Ghost<Look>,
)
    requires
        old(metadata_store).well_formed(),
        old(status_store)@.coherent(),
        title_statuses@.len() == snapshots@.len(),
        look.snapshots == snapshot::snapshot_contents(snapshots@),
        look.title_statuses == title_statuses@,
        look.records.record(entry@.terminal_id.value) == Some(entry@),
        old(metadata_store)@.record(entry@.terminal_id.value) == Some(entry@),
        same_status_entry(old(status_store)@, look.statuses, entry@.terminal_id.value),
    ensures
        final(metadata_store).well_formed(),
        old(metadata_store)@.coherent() ==> final(metadata_store)@.coherent(),
        final(status_store)@.coherent(),
        final(metadata_store)@.terminals == old(metadata_store)@.terminals.insert(
            entry@.terminal_id.value,
            look.record(entry@.terminal_id.value),
        ),
        final(status_store)@ == old(status_store)@.set(
            entry@.terminal_id.value,
            look.status(entry@.terminal_id.value),
        ),
        final(effects).changes@ == match look.change(entry@.terminal_id.value) {
            Some(change) => old(effects).changes@.push(change),
            None => old(effects).changes@,
        },
        metadata_store::operation_contents(final(effects).operations@) == match look_operation(
            look,
            entry@.terminal_id.value,
        ) {
            Some(operation) => metadata_store::operation_contents(old(effects).operations@).push(
                operation,
            ),
            None => metadata_store::operation_contents(old(effects).operations@),
        },
        final(effects).start_animation == (old(effects).start_animation || (
        final(status_store)@.animated && !old(status_store)@.animated)),
{
    let ghost id = entry@.terminal_id.value;
    let ghost records = metadata_store@;
    let ghost statuses = status_store@;
    let ghost earlier_operations = metadata_store::operation_contents(effects.operations@);
    let at = find_snapshot(snapshots, entry.terminal_id);
    let previous_status = status_store.status(entry.terminal_id);
    let status = match at {
        Some(at) => {
            let snapshot = &snapshots[at];
            assert(look.snapshots[at as int] == snapshot@);
            let is_codex_session = metadata_uses_codex(entry) || is_codex_command(
                snapshot.command.as_str(),
            );
            status_for_snapshot(
                Some(snapshot),
                title_statuses[at],
                is_codex_session,
                previous_status,
            )
        },
        None => AgentThreadStatus::Completed,
    };
    assert(status == look.status(id));
    let told = status_store.set_status(entry.terminal_id, status);
    assert(told.changed == look.change(id)) by {
        if look.change(id) is Some {
            assert(status_store@.statuses.contains_key(id));
            assert(status_store@.statuses[id] == status);
            assert(status_store@ != statuses);
        }
    }
    if let Some(change) = told.changed {
        effects.changes.push(change);
    }
    if told.start_animation {
        effects.start_animation = true;
    }
    let updated = match at {
        Some(at) => {
            assert(look.snapshots[at as int] == snapshots@[at as int]@);
            updated_record(entry, &snapshots[at])
        },
        None => None,
    };
    if let Some(record) = updated {
        assert(metadata_store::saved_record(records.record(id), record@) =~= record@);
        let operation = metadata_store.save(record);
        effects.operations.push(operation);
        assert(metadata_store::operation_contents(effects.operations@) =~= earlier_operations.push(
            operation@,
        ));
    }
    assert(metadata_store@.terminals =~= records.terminals.insert(id, look.record(id)));
}

/// Brings the stores up to date with a look at the sessions. `title_statuses` holds, for each
/// snapshot, the status that its title shows.
pub fn apply_snapshots(
    snapshots: &Vec<SessionSnapshot>,
    title_statuses: &Vec<TitleStatus>,
    metadata_store: &mut TerminalThreadMetadataStore,
    status_store: &mut TerminalThreadStatusStore,
) -> (result: LookEffects)
    requires
        old(metadata_store).well_formed(),
        old(status_store)@.coherent(),
        title_statuses@.len() == snapshots@.len(),
    ensures
        final(metadata_store).well_formed(),
        old(metadata_store)@.coherent() ==> final(metadata_store)@.coherent(),
        final(status_store)@.coherent(),
        ({
            let look = Look {
                snapshots: snapshot::snapshot_contents(snapshots@),
                title_statuses: title_statuses@,
                records: old(metadata_store)@,
                statuses: old(status_store)@,
            };
            applied_to(
                look,
                old(metadata_store)@.terminals.dom(),
                final(metadata_store)@,
                final(status_store)@,
                result.changes@,
                metadata_store::operation_contents(result.operations@),
            )
        }),
        result.start_animation == (final(status_store)@.animated && !old(status_store)@.animated),
{
    let ghost look = Look {
        snapshots: snapshot::snapshot_contents(snapshots@),
        title_statuses: title_statuses@,
        records: metadata_store@,
        statuses: status_store@,
    };
    proof {
        metadata_store.well_formed_is_keyed();
    }
    let entries = copied_entries(metadata_store);
    let ghost mut done: Set<u128> = Set::empty();
    let mut effects = LookEffects {
        changes: Vec::new(),
        start_animation: false,
        operations: Vec::new(),
    };
    let mut i: usize = 0;
    assert(metadata_store::operation_contents(effects.operations@) =~= Seq::empty());
    while i < entries.len()
        invariant
            i <= entries.len(),
            metadata_store.well_formed(),
            look.records.coherent() ==> metadata_store@.coherent(),
            status_store@.coherent(),
            look.records.keyed(),
            look.snapshots == snapshot::snapshot_contents(snapshots@),
            look.title_statuses == title_statuses@,
            title_statuses@.len() == snapshots@.len(),
            copies_records(entries@, look.records),
            forall|id: u128| #[trigger]
                done.contains(id) <==> exists|j: int|
                    0 <= j < i && (#[trigger] entries@[j])@.terminal_id.value == id,
            applied_to(
                look,
                done,
                metadata_store@,
                status_store@,
                effects.changes@,
                metadata_store::operation_contents(effects.operations@),
            ),
            effects.start_animation == (status_store@.animated && !look.statuses.animated),
            look.statuses.animated ==> status_store@.animated,
        decreases entries.len() - i,
    {
        let entry = &entries[i];
        let ghost id = entry@.terminal_id.value;
        let ghost records = metadata_store@;
        let ghost statuses = status_store@;
        let ghost changes = effects.changes@;
        let ghost operations = metadata_store::operation_contents(effects.operations@);
        assert(look.records.record(entries@[i as int]@.terminal_id.value) == Some(entry@));
        assert(!done.contains(id)) by {
            if done.contains(id) {
                let j = choose|j: int|
                    0 <= j < i && (#[trigger] entries@[j])@.terminal_id.value == id;
                assert(entries@[j]@.terminal_id != entries@[i as int]@.terminal_id);
            }
        }
        assert(look.records.terminals.contains_key(id));
        assert(records.terminals.dom().contains(id));
        assert(same_status_entry(
            statuses,
            statuses_with(look, done, id),
            id,
        ));
        assert(records.record(id) == Some(entry@));
        apply_to_entry(
            entry,
            snapshots,
            title_statuses,
            metadata_store,
            status_store,
            &mut effects,
            Ghost(look),
        );
        proof {
            lemma_step(look, done, id, records, statuses, changes, operations, metadata_store@);
            let earlier = done;
            done = done.insert(id);
            assert forall|other: u128| #[trigger]
                done.contains(other) <==> exists|j: int|
                    0 <= j < i + 1 && (#[trigger] entries@[j])@.terminal_id.value == other by {
                assert(entries@[i as int]@.terminal_id.value == id);
                if earlier.contains(other) {
                    let j = choose|j: int|
                        0 <= j < i && (#[trigger] entries@[j])@.terminal_id.value == other;
                    assert(entries@[j]@.terminal_id.value == other);
                }
            }
        }
        i = i + 1;
    }
    proof {
        assert forall|id: u128| done.contains(id) <==> look.records.terminals.dom().contains(id) by {
            if done.contains(id) {
                let j = choose|j: int|
                    0 <= j < i && (#[trigger] entries@[j])@.terminal_id.value == id;
                assert(look.records.record(entries@[j]@.terminal_id.value) == Some(entries@[j]@));
            }
            if look.records.terminals.contains_key(id) {
                let j = choose|j: int|
                    0 <= j < entries@.len() && (#[trigger] entries@[j])@.terminal_id.value == id;
                assert(entries@[j]@.terminal_id.value == id);
            }
        }
        assert(done =~= look.records.terminals.dom());
    }
    effects
}

} // verus!
