//! The registry of terminal threads: the records by terminal, the terminals by the paths of
//! their projects, and the operations that keep a database in step.
use std::collections::{HashMap, HashSet};

use vstd::prelude::*;

use crate::path;
use crate::path::TreePath;
use crate::terminal_id::TerminalId;
use crate::terminal_thread;
use crate::terminal_thread::{
    same_remote_connection_identity, MetadataContents, PathList, RemoteConnection,
    PathListContents, RegistryContents, TerminalThreadLifecycleState, TerminalThreadMetadata,
    WorktreePaths,
};
use crate::timestamp::Timestamp;

verus! {

broadcast use vstd::std_specs::hash::group_hash_axioms;

/// The name that the database of a test is given.
#[derive(Clone, Debug)]
pub struct TestTerminalMetadataDbName(pub String);

impl TestTerminalMetadataDbName {
    /// The name of the database of a test: the one that was set, else one made of the name of the
    /// thread that the test runs in.
    pub fn global(
        configured: Option<&TestTerminalMetadataDbName>,
        thread_name: Option<&str>,
    ) -> (result: String)
        ensures
            result@ == match (configured, thread_name) {
                (Some(name), _) => name.0@,
                (None, Some(thread)) => "TERMINAL_THREAD_METADATA_DB_"@ + thread@,
                (None, None) => "TERMINAL_THREAD_METADATA_DB_"@ + "unknown_test"@,
            },
    {
        match (configured, thread_name) {
            (Some(name), _) => name.0.clone(),
            (None, Some(thread)) => "TERMINAL_THREAD_METADATA_DB_".to_owned().concat(thread),
            (None, None) => "TERMINAL_THREAD_METADATA_DB_".to_owned().concat("unknown_test"),
        }
    }
}

/// An operation on the database of records.
pub enum DbOperation {
    Upsert(TerminalThreadMetadata),
    Delete(TerminalId),
}

/// The contents of a `DbOperation`.
pub enum OperationContents {
    Upsert(MetadataContents),
    Delete(TerminalId),
}

impl OperationContents {
    /// The terminal whose record the operation writes or deletes.
    pub open spec fn id(self) -> u128 {
        match self {
            OperationContents::Upsert(metadata) => metadata.terminal_id.value,
            OperationContents::Delete(terminal_id) => terminal_id.value,
        }
    }

    /// The records of a table after the operation.
    pub open spec fn applied(self, table: Map<u128, MetadataContents>) -> Map<
        u128,
        MetadataContents,
    > {
        match self {
            OperationContents::Upsert(metadata) => table.insert(self.id(), metadata),
            OperationContents::Delete(_) => table.remove(self.id()),
        }
    }
}

impl View for DbOperation {
    type V = OperationContents;

    open spec fn view(&self) -> OperationContents {
        match *self {
            DbOperation::Upsert(metadata) => OperationContents::Upsert(metadata@),
            DbOperation::Delete(terminal_id) => OperationContents::Delete(terminal_id),
        }
    }
}

impl DbOperation {
    /// The terminal whose record the operation writes or deletes.
    pub fn id(&self) -> (result: TerminalId)
        ensures
            result.value == self@.id(),
    {
        match self {
            DbOperation::Upsert(metadata) => metadata.terminal_id,
            DbOperation::Delete(terminal_id) => *terminal_id,
        }
    }
}

/// The contents of a vector of operations.
pub open spec fn operation_contents(operations: Seq<DbOperation>) -> Seq<OperationContents> {
    operations.map_values(|operation: DbOperation| operation@)
}

/// The last operation on the record of `id`.
pub open spec fn last_operation(operations: Seq<OperationContents>, id: u128) -> Option<
    OperationContents,
>
    decreases operations.len(),
{
    if operations.len() == 0 {
        None
    } else if operations.last().id() == id {
        Some(operations.last())
    } else {
        last_operation(operations.drop_last(), id)
    }
}

/// The records of a table after operations, first to last.
pub open spec fn all_applied(
    table: Map<u128, MetadataContents>,
    operations: Seq<OperationContents>,
) -> Map<u128, MetadataContents>
    decreases operations.len(),
{
    if operations.len() == 0 {
        table
    } else {
        operations.last().applied(all_applied(table, operations.drop_last()))
    }
}

/// Whether `kept` holds the last operation on each record that `operations` touch, each once.
pub open spec fn keeps_last_operations(
    operations: Seq<OperationContents>,
    kept: Seq<OperationContents>,
) -> bool {
    &&& forall|i: int, j: int|
        0 <= i < j < kept.len() ==> (#[trigger] kept[i]).id() != (#[trigger] kept[j]).id()
    &&& forall|i: int|
        0 <= i < kept.len() ==> last_operation(operations, (#[trigger] kept[i]).id()) == Some(
            kept[i],
        )
    &&& forall|id: u128| #[trigger]
        last_operation(operations, id) is Some ==> exists|i: int|
            0 <= i < kept.len() && (#[trigger] kept[i]).id() == id
}

proof fn lemma_all_applied(
    table: Map<u128, MetadataContents>,
    operations: Seq<OperationContents>,
    id: u128,
)
    ensures
        match last_operation(operations, id) {
            Some(OperationContents::Upsert(metadata)) => all_applied(
                table,
                operations,
            ).contains_key(id) && all_applied(table, operations)[id] == metadata,
            Some(OperationContents::Delete(_)) => !all_applied(table, operations).contains_key(id),
            None => all_applied(table, operations).contains_key(id) == table.contains_key(id)
                && all_applied(table, operations)[id] == table[id],
        },
    decreases operations.len(),
{
    if operations.len() > 0 && operations.last().id() != id {
        lemma_all_applied(table, operations.drop_last(), id);
    }
}

proof fn lemma_last_operation_is_in(operations: Seq<OperationContents>, id: u128)
    ensures
        match last_operation(operations, id) {
            Some(operation) => operation.id() == id && operations.contains(operation),
            None => forall|i: int| 0 <= i < operations.len() ==> (#[trigger] operations[i]).id() != id,
        },
    decreases operations.len(),
{
    if operations.len() > 0 && operations.last().id() != id {
        lemma_last_operation_is_in(operations.drop_last(), id);
        assert forall|i: int| last_operation(operations, id) is None && 0 <= i < operations.len() implies (
        #[trigger] operations[i]).id() != id by {
            if i < operations.len() - 1 {
                assert(operations.drop_last()[i] == operations[i]);
            }
        }
        if let Some(operation) = last_operation(operations, id) {
            let i = choose|i: int|
                0 <= i < operations.drop_last().len() && operations.drop_last()[i] == operation;
            assert(operations[i] == operation);
        }
    } else if operations.len() > 0 {
        assert(operations[operations.len() - 1] == operations.last());
    }
}

proof fn lemma_unique_is_last(operations: Seq<OperationContents>, i: int)
    requires
        0 <= i < operations.len(),
        forall|a: int, b: int|
            0 <= a < b < operations.len() ==> (#[trigger] operations[a]).id()
                != (#[trigger] operations[b]).id(),
    ensures
        last_operation(operations, operations[i].id()) == Some(operations[i]),
    decreases operations.len(),
{
    if i < operations.len() - 1 {
        assert(operations[i].id() != operations[operations.len() - 1].id());
        let rest = operations.drop_last();
        assert forall|a: int, b: int| 0 <= a < b < rest.len() implies (#[trigger] rest[a]).id() != (
        #[trigger] rest[b]).id() by {
            assert(operations[a].id() != operations[b].id());
        }
        lemma_unique_is_last(rest, i);
    }
}

/// Keeping only the last operation on each record leaves a table as all the operations would.
pub proof fn kept_operations_have_same_effect(
    table: Map<u128, MetadataContents>,
    operations: Seq<OperationContents>,
    kept: Seq<OperationContents>,
)
    requires
        keeps_last_operations(operations, kept),
    ensures
        all_applied(table, kept) == all_applied(table, operations),
{
    let all = all_applied(table, operations);
    let some = all_applied(table, kept);
    assert forall|id: u128|
        #![trigger all.dom().contains(id)]
        #![trigger some.dom().contains(id)]
        all.dom().contains(id) == some.dom().contains(id) && (all.dom().contains(id) ==> all[id]
            == some[id]) by {
        lemma_all_applied(table, operations, id);
        lemma_all_applied(table, kept, id);
        if last_operation(operations, id) is Some {
            let i = choose|i: int| 0 <= i < kept.len() && (#[trigger] kept[i]).id() == id;
            lemma_unique_is_last(kept, i);
        } else {
            lemma_last_operation_is_in(kept, id);
            if let Some(operation) = last_operation(kept, id) {
                let i = choose|i: int| 0 <= i < kept.len() && kept[i] == operation;
                assert(last_operation(operations, kept[i].id()) == Some(kept[i]));
            }
        }
    }
    assert(all =~= some);
}

/// An operation writes the record that it holds, or deletes that of its terminal, and leaves the
/// others.
pub proof fn operations_do_what_they_say(
    table: Map<u128, MetadataContents>,
    operations: Seq<OperationContents>,
    metadata: MetadataContents,
    terminal_id: TerminalId,
    other: u128,
)
    ensures
        ({
            let before = all_applied(table, operations);
            let written = all_applied(table, operations.push(OperationContents::Upsert(metadata)));
            let deleted = all_applied(
                table,
                operations.push(OperationContents::Delete(terminal_id)),
            );
            let id = metadata.terminal_id.value;
            &&& all_applied(table, Seq::empty()) == table
            &&& written.contains_key(id) && written[id] == metadata
            &&& other != id ==> written.contains_key(other) == before.contains_key(other) && (
            before.contains_key(other) ==> written[other] == before[other])
            &&& !deleted.contains_key(terminal_id.value)
            &&& other != terminal_id.value ==> deleted.contains_key(other) == before.contains_key(
                other,
            ) && (before.contains_key(other) ==> deleted[other] == before[other])
            &&& OperationContents::Upsert(metadata).id() == id
            &&& OperationContents::Delete(terminal_id).id() == terminal_id.value
        }),
{
    assert(operations.push(OperationContents::Upsert(metadata)).drop_last() =~= operations);
    assert(operations.push(OperationContents::Delete(terminal_id)).drop_last() =~= operations);
}

/// The operations that are kept are some of those that there were, each with none behind it on the
/// same record; and of every record that there was an operation on, one is kept.
pub proof fn kept_operations_are_the_last(
    operations: Seq<OperationContents>,
    kept: Seq<OperationContents>,
    at: int,
)
    requires
        keeps_last_operations(operations, kept),
        0 <= at < operations.len(),
    ensures
        (forall|j: int|
            at < j < operations.len() ==> (#[trigger] operations[j]).id() != operations[at].id())
            ==> kept.contains(operations[at]),
        exists|i: int| 0 <= i < kept.len() && (#[trigger] kept[i]).id() == operations[at].id(),
        forall|i: int|
            0 <= i < kept.len() ==> exists|k: int|
                is_last_on_its_record(operations, k) && #[trigger] operations[k]
                    == #[trigger] kept[i],
{
    let id = operations[at].id();
    lemma_last_operation_is_in(operations, id);
    assert(last_operation(operations, id) is Some);
    let i = choose|i: int| 0 <= i < kept.len() && (#[trigger] kept[i]).id() == id;
    assert(last_operation(operations, kept[i].id()) == Some(kept[i]));
    if forall|j: int| at < j < operations.len() ==> (#[trigger] operations[j]).id() != id {
        lemma_last_of_record(operations, at);
        assert(kept[i] == operations[at]);
    }
    assert forall|i: int| 0 <= i < kept.len() implies exists|k: int|
        is_last_on_its_record(operations, k) && #[trigger] operations[k] == #[trigger] kept[i] by {
        lemma_last_operation_stands(operations, kept[i].id());
    }
}

/// Whether no operation behind the one at a position is on the same record.
pub open spec fn is_last_on_its_record(operations: Seq<OperationContents>, k: int) -> bool {
    0 <= k < operations.len() && forall|j: int|
        k < j < operations.len() ==> (#[trigger] operations[j]).id() != operations[k].id()
}

proof fn lemma_last_operation_stands(operations: Seq<OperationContents>, id: u128)
    requires
        last_operation(operations, id) is Some,
    ensures
        exists|k: int|
            is_last_on_its_record(operations, k) && Some(#[trigger] operations[k])
                == last_operation(operations, id) && operations[k].id() == id,
    decreases operations.len(),
{
    let last = operations.len() - 1;
    if operations.last().id() == id {
        assert(is_last_on_its_record(operations, last));
        assert(operations[last] == operations.last());
    } else {
        let rest = operations.drop_last();
        lemma_last_operation_stands(rest, id);
        let k = choose|k: int|
            is_last_on_its_record(rest, k) && Some(#[trigger] rest[k]) == last_operation(rest, id)
                && rest[k].id() == id;
        assert(operations[k] == rest[k]);
        assert forall|j: int| k < j < operations.len() implies (#[trigger] operations[j]).id()
            != operations[k].id() by {
            if j < rest.len() {
                assert(rest[j] == operations[j]);
            }
        }
    }
}

proof fn lemma_last_of_record(operations: Seq<OperationContents>, at: int)
    requires
        0 <= at < operations.len(),
        forall|j: int|
            at < j < operations.len() ==> (#[trigger] operations[j]).id() != operations[at].id(),
    ensures
        last_operation(operations, operations[at].id()) == Some(operations[at]),
    decreases operations.len(),
{
    if at < operations.len() - 1 {
        let rest = operations.drop_last();
        assert(operations[operations.len() - 1].id() != operations[at].id());
        assert forall|j: int| at < j < rest.len() implies (#[trigger] rest[j]).id() != rest[at].id() by {
            assert(rest[j] == operations[j]);
        }
        lemma_last_of_record(rest, at);
    }
}

/// The last operation on each record that `operations` touch. Their order is open.
pub fn dedup_db_operations(operations: Vec<DbOperation>) -> (result: Vec<DbOperation>)
    ensures
        keeps_last_operations(operation_contents(operations@), operation_contents(result@)),
{
    let ghost all = operation_contents(operations@);
    let mut rest = operations;
    let mut seen: HashSet<u128> = HashSet::new();
    let mut result: Vec<DbOperation> = Vec::new();
    assert(all.take(rest@.len() as int) =~= all);
    while rest.len() > 0
        invariant
            rest@.len() <= all.len(),
            operation_contents(rest@) == all.take(rest@.len() as int),
            forall|id: u128|
                !(#[trigger] seen@.contains(id)) ==> last_operation(all, id) == last_operation(
                    all.take(rest@.len() as int),
                    id,
                ),
            forall|i: int|
                0 <= i < result@.len() ==> seen@.contains((#[trigger] result@[i])@.id()),
            forall|id: u128| #[trigger]
                seen@.contains(id) ==> exists|i: int|
                    0 <= i < result@.len() && (#[trigger] result@[i])@.id() == id,
            forall|i: int, j: int|
                0 <= i < j < result@.len() ==> (#[trigger] result@[i])@.id()
                    != (#[trigger] result@[j])@.id(),
            forall|i: int|
                0 <= i < result@.len() ==> last_operation(all, (#[trigger] result@[i])@.id())
                    == Some(result@[i]@),
        decreases rest@.len(),
    {
        let ghost before = rest@.len() as int;
        let ghost taken = all.take(before);
        let ghost old_result = result@;
        let ghost old_seen = seen@;
        if let Some(operation) = rest.pop() {
            assert(operation@ == taken.last());
            assert(operation_contents(rest@) =~= all.take(before - 1));
            assert(taken.drop_last() =~= all.take(before - 1));
            let id = operation.id().value;
            if !seen.contains(&id) {
                assert(last_operation(all, id) == last_operation(taken, id));
                seen.insert(id);
                result.push(operation);
                proof {
                    assert forall|k: u128| #[trigger] seen@.contains(k) implies exists|i: int|
                        0 <= i < result@.len() && (#[trigger] result@[i])@.id() == k by {
                        if k == id {
                            assert(result@[result@.len() - 1]@.id() == k);
                        } else {
                            assert(old_seen.contains(k));
                            let i = choose|i: int|
                                0 <= i < old_result.len() && (#[trigger] old_result[i])@.id() == k;
                            assert(result@[i]@.id() == k);
                        }
                    }
                }
            }
            assert forall|k: u128| !(#[trigger] seen@.contains(k)) implies last_operation(all, k)
                == last_operation(all.take(rest@.len() as int), k) by {
                assert(!old_seen.contains(k));
                assert(operation@.id() != k);
            }
        }
    }
    proof {
        let kept = operation_contents(result@);
        assert(all.take(0) =~= Seq::empty());
        assert forall|id: u128| #[trigger] last_operation(all, id) is Some implies exists|i: int|
            0 <= i < kept.len() && (#[trigger] kept[i]).id() == id by {
            assert(seen@.contains(id));
            let i = choose|i: int| 0 <= i < result@.len() && (#[trigger] result@[i])@.id() == id;
            assert(kept[i].id() == id);
        }
    }
    result
}

proof fn lemma_push_contains<A>(s: Seq<A>, added: A, item: A)
    ensures
        s.push(added).contains(item) <==> s.contains(item) || item == added,
{
    if s.contains(item) {
        let i = choose|i: int| 0 <= i < s.len() && s[i] == item;
        assert(s.push(added)[i] == item);
    }
    if item == added {
        assert(s.push(added)[s.len() as int] == item);
    }
}

/// The pairs of a path list and a terminal in an index.
pub open spec fn index_pairs(entries: Seq<(PathList, TerminalId)>) -> Seq<
    (Seq<Seq<Seq<char>>>, u128),
> {
    entries.map_values(|entry: (PathList, TerminalId)| (entry.0@.identity(), entry.1.value))
}

/// The terminals of each path list, held as pairs.
pub struct PathIndex {
    entries: Vec<(PathList, TerminalId)>,
}

impl View for PathIndex {
    type V = Set<(Seq<Seq<Seq<char>>>, u128)>;

    closed spec fn view(&self) -> Set<(Seq<Seq<Seq<char>>>, u128)> {
        index_pairs(self.entries@).to_set()
    }
}

impl PathIndex {
    /// No pair is held twice.
    pub closed spec fn well_formed(&self) -> bool {
        index_pairs(self.entries@).no_duplicates()
    }

    /// An index without pairs.
    fn new() -> (result: PathIndex)
        ensures
            result.well_formed(),
            result@ == Set::<(Seq<Seq<Seq<char>>>, u128)>::empty(),
    {
        let result = PathIndex { entries: Vec::new() };
        assert(index_pairs(result.entries@) =~= Seq::empty());
        assert(result@ =~= Set::<(Seq<Seq<Seq<char>>>, u128)>::empty());
        result
    }

    /// The position of a pair.
    fn position(&self, paths: &PathList, terminal_id: TerminalId) -> (result: Option<usize>)
        ensures
            match result {
                Some(at) => at < self.entries@.len() && index_pairs(self.entries@)[at as int] == (
                    paths@.identity(),
                    terminal_id.value,
                ),
                None => !self@.contains((paths@.identity(), terminal_id.value)),
            },
    {
        let mut i: usize = 0;
        let ghost pairs = index_pairs(self.entries@);
        while i < self.entries.len()
            invariant
                i <= self.entries.len(),
                pairs == index_pairs(self.entries@),
                forall|j: int| 0 <= j < i ==> pairs[j] != (paths@.identity(), terminal_id.value),
            decreases self.entries.len() - i,
        {
            let entry = &self.entries[i];
            assert(pairs[i as int] == (entry.0@.identity(), entry.1.value));
            if entry.1 == terminal_id && entry.0.same_paths(paths) {
                return Some(i);
            }
            i = i + 1;
        }
        None
    }

    /// The terminals that are paired with `paths`, each once.
    fn terminals(&self, paths: &PathList) -> (result: Vec<TerminalId>)
        requires
            self.well_formed(),
        ensures
            result@.no_duplicates(),
            forall|id: TerminalId|
                result@.contains(id) <==> #[trigger] self@.contains((paths@.identity(), id.value)),
    {
        let mut result: Vec<TerminalId> = Vec::new();
        let ghost pairs = index_pairs(self.entries@);
        let mut i: usize = 0;
        while i < self.entries.len()
            invariant
                i <= self.entries.len(),
                self.well_formed(),
                pairs == index_pairs(self.entries@),
                result@.no_duplicates(),
                forall|id: TerminalId|
                    result@.contains(id) <==> #[trigger] pairs.take(i as int).contains(
                        (paths@.identity(), id.value),
                    ),
            decreases self.entries.len() - i,
        {
            let entry = &self.entries[i];
            let ghost before = result@;
            let ghost taken = pairs.take(i as int);
            assert(pairs.take(i + 1) =~= taken.push((entry.0@.identity(), entry.1.value)));
            assert(!taken.contains((entry.0@.identity(), entry.1.value))) by {
                if taken.contains((entry.0@.identity(), entry.1.value)) {
                    let j = choose|j: int|
                        0 <= j < taken.len() && taken[j] == (entry.0@.identity(), entry.1.value);
                    assert(pairs[j] == pairs[i as int]);
                }
            }
            if entry.0.same_paths(paths) {
                assert(!before.contains(entry.1)) by {
                    if before.contains(entry.1) {
                        assert(taken.contains((paths@.identity(), entry.1.value)));
                    }
                }
                result.push(entry.1);
            }
            assert forall|id: TerminalId|
                result@.contains(id) <==> #[trigger] pairs.take(i + 1).contains(
                    (paths@.identity(), id.value),
                ) by {
                lemma_push_contains(
                    taken,
                    (entry.0@.identity(), entry.1.value),
                    (paths@.identity(), id.value),
                );
                lemma_push_contains(before, entry.1, id);
                assert(before.contains(id) <==> taken.contains((paths@.identity(), id.value)));
            }
            i = i + 1;
        }
        assert(pairs.take(i as int) =~= pairs);
        assert forall|id: TerminalId|
            result@.contains(id) <==> #[trigger] self@.contains((paths@.identity(), id.value)) by {
            assert(pairs.take(i as int).contains((paths@.identity(), id.value)) <==> pairs.contains(
                (paths@.identity(), id.value),
            ));
        }
        result
    }

    /// Adds a pair.
    fn insert(&mut self, paths: &PathList, terminal_id: TerminalId)
        requires
            old(self).well_formed(),
        ensures
            final(self).well_formed(),
            final(self)@ == old(self)@.insert((paths@.identity(), terminal_id.value)),
    {
        let ghost pair = (paths@.identity(), terminal_id.value);
        let ghost before = index_pairs(self.entries@);
        match self.position(paths, terminal_id) {
            Some(at) => {
                assert(before.contains(before[at as int]));
                assert(self@ =~= self@.insert(pair));
            },
            None => {
                self.entries.push((paths.clone(), terminal_id));
                proof {
                    let after = index_pairs(self.entries@);
                    assert(after =~= before.push(pair));
                    assert(!before.contains(pair));
                    assert forall|p: (Seq<Seq<Seq<char>>>, u128)| after.contains(p) == (before.contains(p) || p == pair) by {
                        if before.contains(p) {
                            let j = choose|j: int| 0 <= j < before.len() && before[j] == p;
                            assert(after[j] == p);
                        }
                        if p == pair {
                            assert(after[before.len() as int] == p);
                        }
                    }
                    assert(self@ =~= old(self)@.insert(pair));
                }
            },
        }
    }

    /// Takes a pair out.
    fn remove(&mut self, paths: &PathList, terminal_id: TerminalId)
        requires
            old(self).well_formed(),
        ensures
            final(self).well_formed(),
            final(self)@ == old(self)@.remove((paths@.identity(), terminal_id.value)),
    {
        let ghost pair = (paths@.identity(), terminal_id.value);
        let ghost before = index_pairs(self.entries@);
        match self.position(paths, terminal_id) {
            Some(at) => {
                let removed = self.entries.remove(at);
                proof {
                    let after = index_pairs(self.entries@);
                    assert(after =~= before.remove(at as int));
                    assert forall|p: (Seq<Seq<Seq<char>>>, u128)| after.contains(p) == (before.contains(p) && p != pair) by {
                        if after.contains(p) {
                            let j = choose|j: int| 0 <= j < after.len() && after[j] == p;
                            let k = if j < at { j } else { j + 1 };
                            assert(before[k] == p);
                            assert(before[at as int] == pair);
                        }
                        if before.contains(p) && p != pair {
                            let j = choose|j: int| 0 <= j < before.len() && before[j] == p;
                            let k = if j < at { j } else { j - 1 };
                            assert(after[k] == p);
                        }
                    }
                    assert(self@ =~= old(self)@.remove(pair));
                }
            },
            None => {
                assert(self@ =~= self@.remove(pair));
            },
        }
    }
}

/// The contents of a `TerminalThreadMetadataStore`.
#[verifier::ext_equal]
pub struct StoreContents {
    pub terminals: Map<u128, MetadataContents>,
    pub by_paths: Set<(Seq<Seq<Seq<char>>>, u128)>,
    pub by_main_paths: Set<(Seq<Seq<Seq<char>>>, u128)>,
}

/// The contents of an empty store.
pub open spec fn no_terminals() -> StoreContents {
    StoreContents {
        terminals: Map::empty(),
        by_paths: Set::empty(),
        by_main_paths: Set::empty(),
    }
}

/// What is saved of `metadata` over `existing`: a terminal that is to be stopped stays so, and is
/// updated no earlier than it was.
pub open spec fn saved_record(
    existing: Option<MetadataContents>,
    metadata: MetadataContents,
) -> MetadataContents {
    match existing {
        Some(before) if before.registry.lifecycle_state == TerminalThreadLifecycleState::Stopping =>
            MetadataContents {
            registry: RegistryContents {
                lifecycle_state: TerminalThreadLifecycleState::Stopping,
                updated_at: metadata.registry.updated_at.latest(before.registry.updated_at),
                ..metadata.registry
            },
            ..metadata
        },
        _ => metadata,
    }
}

impl StoreContents {
    /// The record of a terminal.
    pub open spec fn record(self, id: u128) -> Option<MetadataContents> {
        if self.terminals.contains_key(id) {
            Some(self.terminals[id])
        } else {
            None
        }
    }

    /// Each record stands under its own terminal.
    pub open spec fn keyed(self) -> bool {
        forall|id: u128| #[trigger]
            self.terminals.contains_key(id) ==> self.terminals[id].terminal_id.value == id
    }

    /// Each record stands under its own terminal; the first index pairs each terminal with the
    /// folders of its project, and the second with its main worktrees where there are any.
    pub open spec fn coherent(self) -> bool {
        &&& self.keyed()
        &&& forall|paths: Seq<Seq<Seq<char>>>, id: u128| #[trigger]
            self.by_paths.contains((paths, id)) <==> self.terminals.contains_key(id)
                && self.terminals[id].worktree_paths.folder_paths.identity() == paths
        &&& forall|paths: Seq<Seq<Seq<char>>>, id: u128| #[trigger]
            self.by_main_paths.contains((paths, id)) <==> self.terminals.contains_key(id)
                && self.terminals[id].worktree_paths.main_worktree_paths.identity() == paths && paths.len() > 0
    }

    /// The contents with a record and its pairs added.
    pub open spec fn cached(self, metadata: MetadataContents) -> StoreContents {
        let id = metadata.terminal_id.value;
        let main = metadata.worktree_paths.main_worktree_paths.identity();
        StoreContents {
            terminals: self.terminals.insert(id, metadata),
            by_paths: self.by_paths.insert((metadata.worktree_paths.folder_paths.identity(), id)),
            by_main_paths: if main.len() > 0 {
                self.by_main_paths.insert((main, id))
            } else {
                self.by_main_paths
            },
        }
    }

    /// The contents without the pairs that a record had under other paths than `metadata` has.
    pub open spec fn unlinked(self, metadata: MetadataContents) -> StoreContents {
        let id = metadata.terminal_id.value;
        match self.record(id) {
            Some(before) => StoreContents {
                terminals: self.terminals,
                by_paths: if before.worktree_paths.folder_paths.identity()
                    != metadata.worktree_paths.folder_paths.identity() {
                    self.by_paths.remove((before.worktree_paths.folder_paths.identity(), id))
                } else {
                    self.by_paths
                },
                by_main_paths: if before.worktree_paths.main_worktree_paths.identity()
                    != metadata.worktree_paths.main_worktree_paths.identity() {
                    self.by_main_paths.remove((before.worktree_paths.main_worktree_paths.identity(), id))
                } else {
                    self.by_main_paths
                },
            },
            None => self,
        }
    }

    /// The contents after `metadata` is saved.
    pub open spec fn saved(self, metadata: MetadataContents) -> StoreContents {
        let record = saved_record(self.record(metadata.terminal_id.value), metadata);
        self.unlinked(record).cached(record)
    }

    /// The contents after a terminal is deleted.
    pub open spec fn deleted(self, id: u128) -> StoreContents {
        match self.record(id) {
            Some(before) => StoreContents {
                terminals: self.terminals.remove(id),
                by_paths: self.by_paths.remove((before.worktree_paths.folder_paths.identity(), id)),
                by_main_paths: if before.worktree_paths.main_worktree_paths.identity().len() > 0 {
                    self.by_main_paths.remove((before.worktree_paths.main_worktree_paths.identity(), id))
                } else {
                    self.by_main_paths
                },
            },
            None => self,
        }
    }
}

/// Saving keeps a store coherent: the indexes follow the paths of the record that is saved.
pub proof fn saved_keeps_coherent(contents: StoreContents, metadata: MetadataContents)
    requires
        contents.coherent(),
    ensures
        contents.saved(metadata).coherent(),
{
}

/// After a save a terminal is found by the folders of the record that was saved, and by no others,
/// whatever its folders were before.
pub proof fn saved_terminal_is_found_by_its_folders(
    contents: StoreContents,
    metadata: MetadataContents,
    paths: Seq<Seq<Seq<char>>>,
)
    requires
        contents.coherent(),
    ensures
        contents.saved(metadata).by_paths.contains((paths, metadata.terminal_id.value)) <==> paths
            == metadata.worktree_paths.folder_paths.identity(),
{
    saved_keeps_coherent(contents, metadata);
}

/// Deleting keeps a store coherent, and leaves nothing of the terminal.
pub proof fn deleted_keeps_coherent(contents: StoreContents, id: u128)
    requires
        contents.coherent(),
    ensures
        contents.deleted(id).coherent(),
        !contents.deleted(id).terminals.contains_key(id),
        forall|paths: Seq<Seq<Seq<char>>>| !(#[trigger] contents.deleted(id).by_paths.contains(
            (paths, id),
        )),
{
}

/// Once a terminal is to be stopped, no save makes it anything else, and no save takes its time
/// of update back.
pub proof fn stopping_is_kept(contents: StoreContents, metadata: MetadataContents, id: u128)
    requires
        contents.record(id) matches Some(before) && before.registry.lifecycle_state
            == TerminalThreadLifecycleState::Stopping,
    ensures
        contents.saved(metadata).record(id) matches Some(after) && after.registry.lifecycle_state
            == TerminalThreadLifecycleState::Stopping && !after.registry.updated_at.precedes(
            contents.terminals[id].registry.updated_at,
        ),
{
}

/// A save leaves the records of all other terminals as they were.
pub proof fn saved_leaves_others(contents: StoreContents, metadata: MetadataContents, id: u128)
    requires
        id != metadata.terminal_id.value,
    ensures
        contents.saved(metadata).record(id) == contents.record(id),
{
}

/// What is saved is read back, but for a terminal that is to be stopped, which stays so.
pub proof fn saved_is_read_back(contents: StoreContents, metadata: MetadataContents)
    ensures
        contents.saved(metadata).record(metadata.terminal_id.value) == Some(
            saved_record(contents.record(metadata.terminal_id.value), metadata),
        ),
        !(contents.record(metadata.terminal_id.value) matches Some(before)
            && before.registry.lifecycle_state == TerminalThreadLifecycleState::Stopping)
            ==> contents.saved(metadata).record(metadata.terminal_id.value) == Some(metadata),
{
}

/// A record is saved as it is, unless its terminal is to be stopped: then it stays so, with the later
/// of the two times of update, and all else is as it is saved.
pub proof fn only_stopping_changes_what_is_saved(
    before: MetadataContents,
    metadata: MetadataContents,
)
    ensures
        saved_record(None, metadata) == metadata,
        before.registry.lifecycle_state != TerminalThreadLifecycleState::Stopping ==> saved_record(
            Some(before),
            metadata,
        ) == metadata,
        ({
            let after = saved_record(Some(before), metadata);
            let stopping = before.registry.lifecycle_state
                == TerminalThreadLifecycleState::Stopping;
            &&& stopping ==> after.registry.lifecycle_state
                == TerminalThreadLifecycleState::Stopping
            &&& stopping ==> after.registry.updated_at == before.registry.updated_at
                || after.registry.updated_at == metadata.registry.updated_at
            &&& stopping ==> !after.registry.updated_at.precedes(before.registry.updated_at)
                && !after.registry.updated_at.precedes(metadata.registry.updated_at)
            &&& after == (MetadataContents {
                registry: RegistryContents {
                    lifecycle_state: after.registry.lifecycle_state,
                    updated_at: after.registry.updated_at,
                    ..metadata.registry
                },
                ..metadata
            })
        }),
{
}

/// In a coherent store a terminal is found by a list of paths just where the folders of its project
/// are these paths, one by one, however they are written; and by its main worktrees in the same way,
/// where it has any.
pub proof fn terminals_are_found_by_their_paths(
    contents: StoreContents,
    id: u128,
    list: PathListContents,
)
    requires
        contents.coherent(),
        contents.terminals.contains_key(id),
    ensures
        ({
            let folders = contents.terminals[id].worktree_paths.folder_paths.paths;
            let main = contents.terminals[id].worktree_paths.main_worktree_paths.paths;
            &&& contents.by_paths.contains((list.identity(), id)) <==> list.paths.len()
                == folders.len() && forall|i: int|
                0 <= i < folders.len() ==> path::is_same(
                    #[trigger] list.paths[i],
                    #[trigger] folders[i],
                )
            &&& contents.by_main_paths.contains((list.identity(), id)) <==> list.paths.len() > 0
                && list.paths.len() == main.len() && forall|i: int|
                0 <= i < main.len() ==> path::is_same(#[trigger] list.paths[i], #[trigger] main[i])
            &&& contents.terminals[id].terminal_id.value == id
        }),
        forall|missing: u128|
            !contents.terminals.contains_key(missing) ==> !#[trigger] contents.by_paths.contains(
                (list.identity(), missing),
            ) && !contents.by_main_paths.contains((list.identity(), missing)),
{
    let record = contents.terminals[id];
    lemma_same_identity(list, record.worktree_paths.folder_paths);
    lemma_same_identity(list, record.worktree_paths.main_worktree_paths);
    assert(contents.by_paths.contains((list.identity(), id)) <==> list.identity()
        == record.worktree_paths.folder_paths.identity());
    assert(contents.by_main_paths.contains((list.identity(), id)) <==> list.identity()
        == record.worktree_paths.main_worktree_paths.identity() && list.identity().len() > 0);
}

proof fn lemma_same_identity(a: PathListContents, b: PathListContents)
    ensures
        a.identity() == b.identity() <==> a.paths.len() == b.paths.len() && forall|i: int|
            0 <= i < b.paths.len() ==> path::is_same(
                #[trigger] a.paths[i],
                #[trigger] b.paths[i],
            ),
        a.identity().len() == a.paths.len(),
{
    let left = a.identity();
    let right = b.identity();
    assert(forall|i: int| 0 <= i < left.len() ==> #[trigger] left[i] == path::components_of(
        a.paths[i],
    ));
    assert(forall|i: int| 0 <= i < right.len() ==> #[trigger] right[i] == path::components_of(
        b.paths[i],
    ));
    if left == right {
        assert forall|i: int| 0 <= i < b.paths.len() implies path::is_same(
            #[trigger] a.paths[i],
            #[trigger] b.paths[i],
        ) by {
            assert(left[i] == right[i]);
        }
    }
    if a.paths.len() == b.paths.len() && forall|i: int|
        0 <= i < b.paths.len() ==> path::is_same(#[trigger] a.paths[i], #[trigger] b.paths[i]) {
        assert forall|i: int| 0 <= i < left.len() implies left[i] == right[i] by {
            assert(path::is_same(a.paths[i], b.paths[i]));
        }
        assert(left =~= right);
    }
}

/// A deleted terminal has no record, and the records of all others stay; where there was none,
/// nothing changes.
pub proof fn deleted_leaves_others(contents: StoreContents, id: u128, other: u128)
    ensures
        contents.deleted(id).record(id) is None,
        other != id ==> contents.deleted(id).record(other) == contents.record(other),
        contents.record(id) is None ==> contents.deleted(id) == contents,
        contents.record(other) is Some <==> contents.terminals.contains_key(other),
{
}

/// The contents of a vector of records.
pub open spec fn metadata_contents(records: Seq<TerminalThreadMetadata>) -> Seq<MetadataContents> {
    records.map_values(|metadata: TerminalThreadMetadata| metadata@)
}

/// The contents of a store that records were added to, one after the other.
pub open spec fn all_cached(records: Seq<MetadataContents>) -> StoreContents
    decreases records.len(),
{
    if records.len() == 0 {
        no_terminals()
    } else {
        all_cached(records.drop_last()).cached(records.last())
    }
}

/// No two records are of one terminal.
pub open spec fn different_terminals(records: Seq<MetadataContents>) -> bool {
    forall|i: int, j: int|
        0 <= i < j < records.len() ==> (#[trigger] records[i]).terminal_id
            != (#[trigger] records[j]).terminal_id
}

/// A store that is loaded with records of different terminals is coherent, and holds those records
/// and no others.
pub proof fn reloaded_records_are_read_back(records: Seq<MetadataContents>)
    requires
        different_terminals(records),
    ensures
        all_cached(records).coherent(),
        forall|i: int|
            0 <= i < records.len() ==> all_cached(records).record(
                (#[trigger] records[i]).terminal_id.value,
            ) == Some(records[i]),
        forall|id: u128| #[trigger]
            all_cached(records).terminals.contains_key(id) ==> exists|i: int|
                0 <= i < records.len() && (#[trigger] records[i]).terminal_id.value == id,
    decreases records.len(),
{
    if records.len() > 0 {
        let rest = records.drop_last();
        let last = records.last();
        let id = last.terminal_id.value;
        assert forall|i: int, j: int| 0 <= i < j < rest.len() implies (
        #[trigger] rest[i]).terminal_id != (#[trigger] rest[j]).terminal_id by {
            assert(records[i].terminal_id != records[j].terminal_id);
        }
        reloaded_records_are_read_back(rest);
        let before = all_cached(rest);
        assert(!before.terminals.contains_key(id)) by {
            if before.terminals.contains_key(id) {
                let i = choose|i: int|
                    0 <= i < rest.len() && (#[trigger] rest[i]).terminal_id.value == id;
                assert(records[i].terminal_id != records[records.len() - 1].terminal_id);
            }
        }
        assert(before.cached(last) == before.saved(last));
        saved_keeps_coherent(before, last);
        assert forall|i: int| 0 <= i < records.len() implies all_cached(records).record(
            (#[trigger] records[i]).terminal_id.value,
        ) == Some(records[i]) by {
            if i < rest.len() {
                assert(rest[i] == records[i]);
                assert(records[i].terminal_id != records[records.len() - 1].terminal_id);
            }
        }
        assert forall|other: u128| #[trigger]
            all_cached(records).terminals.contains_key(other) implies exists|i: int|
            0 <= i < records.len() && (#[trigger] records[i]).terminal_id.value == other by {
            if other == id {
                assert(records[records.len() - 1].terminal_id.value == other);
            } else {
                assert(before.terminals.contains_key(other));
                let i = choose|i: int|
                    0 <= i < rest.len() && (#[trigger] rest[i]).terminal_id.value == other;
                assert(records[i].terminal_id.value == other);
            }
        }
    }
}

/// The last of `records` that is of the terminal `id`.
pub open spec fn last_record(records: Seq<MetadataContents>, id: u128) -> Option<MetadataContents>
    decreases records.len(),
{
    if records.len() == 0 {
        None
    } else if records.last().terminal_id.value == id {
        Some(records.last())
    } else {
        last_record(records.drop_last(), id)
    }
}

/// Of several records of one terminal that a store is loaded with, the last is kept.
pub proof fn last_reloaded_record_is_kept(records: Seq<MetadataContents>, id: u128)
    ensures
        all_cached(records).record(id) == last_record(records, id),
    decreases records.len(),
{
    if records.len() > 0 {
        last_reloaded_record_is_kept(records.drop_last(), id);
    }
}

/// The records that a listing holds, in terms of the store that it was made from: each record
/// that `chosen` accepts, once.
pub open spec fn lists_chosen(
    listed: Seq<&TerminalThreadMetadata>,
    contents: StoreContents,
    chosen: spec_fn(u128) -> bool,
) -> bool {
    &&& forall|i: int|
        0 <= i < listed.len() ==> {
            let id = (#[trigger] listed[i])@.terminal_id.value;
            contents.record(id) == Some(listed[i]@) && chosen(id)
        }
    &&& forall|i: int, j: int|
        0 <= i < j < listed.len() ==> (#[trigger] listed[i])@.terminal_id
            != (#[trigger] listed[j])@.terminal_id
    &&& forall|id: u128| #[trigger]
        contents.terminals.contains_key(id) && chosen(id) ==> exists|i: int|
            0 <= i < listed.len() && (#[trigger] listed[i])@.terminal_id.value == id
}

/// The machine that an optional reference to a connection leads to.
pub open spec fn referenced_machine(connection: Option<&RemoteConnection>) -> Option<Seq<char>> {
    match connection {
        Some(inner) => Some(inner.identity@),
        None => None,
    }
}

/// Whether `after` is `before` with paths that `mutate` made of the paths of `before`.
pub open spec fn relocated<F: Fn(WorktreePaths) -> WorktreePaths>(
    mutate: F,
    before: MetadataContents,
    after: MetadataContents,
) -> bool {
    exists|paths: WorktreePaths, changed: WorktreePaths|
        paths@ == before.worktree_paths && #[trigger] call_ensures(mutate, (paths,), changed)
            && after == before.with_paths(changed@)
}

/// What marking a terminal as to be stopped does: a record that is not marked yet is saved as
/// marked at `now`, and all else stays.
pub open spec fn stop_marked(
    before: StoreContents,
    id: u128,
    now: Timestamp,
    after: StoreContents,
    operation: Option<DbOperation>,
) -> bool {
    match before.record(id) {
        Some(record) if record.registry.lifecycle_state != TerminalThreadLifecycleState::Stopping => {
            let marked = MetadataContents { registry: record.registry.stopping_at(now), ..record };
            &&& after == before.saved(marked)
            &&& operation matches Some(done)
            &&& done@ == OperationContents::Upsert(marked)
        },
        _ => after == before && operation is None,
    }
}

/// A listing holds the record of a terminal just where it has one and is chosen, and holds it once.
pub proof fn listings_hold_what_is_chosen(
    listed: Seq<&TerminalThreadMetadata>,
    contents: StoreContents,
    chosen: spec_fn(u128) -> bool,
    id: u128,
)
    requires
        lists_chosen(listed, contents, chosen),
    ensures
        contents.terminals.contains_key(id) && chosen(id) <==> exists|i: int|
            0 <= i < listed.len() && (#[trigger] listed[i])@.terminal_id.value == id,
        forall|i: int, j: int|
            0 <= i < listed.len() && 0 <= j < listed.len() && (
            #[trigger] listed[i])@.terminal_id.value == (#[trigger] listed[j])@.terminal_id.value
                ==> i == j,
        forall|i: int|
            0 <= i < listed.len() && (#[trigger] listed[i])@.terminal_id.value == id
                ==> contents.terminals.contains_key(id) && listed[i]@ == contents.terminals[id],
{
    assert forall|i: int, j: int|
        0 <= i < listed.len() && 0 <= j < listed.len() && (
        #[trigger] listed[i])@.terminal_id.value == (
        #[trigger] listed[j])@.terminal_id.value implies i == j by {
        if i < j {
            assert(listed[i]@.terminal_id != listed[j]@.terminal_id);
        } else if j < i {
            assert(listed[j]@.terminal_id != listed[i]@.terminal_id);
        }
    }
    if exists|i: int| 0 <= i < listed.len() && (#[trigger] listed[i])@.terminal_id.value == id {
        let i = choose|i: int|
            0 <= i < listed.len() && (#[trigger] listed[i])@.terminal_id.value == id;
        assert(contents.record(id) == Some(listed[i]@));
    }
}

/// Two connections lead to the same machine by its identity alone, and the local machine is none of
/// them.
pub proof fn machines_are_told_apart(a: RemoteConnection, b: RemoteConnection)
    ensures
        terminal_thread::machine(Some(a@)) == terminal_thread::machine(Some(b@)) <==> a.identity@
            == b.identity@,
        terminal_thread::machine(Some(a@)) != terminal_thread::machine(None),
        referenced_machine(Some(&a)) == terminal_thread::machine(Some(a@)),
        referenced_machine(None) == terminal_thread::machine(None),
{
}

/// A terminal that is marked as to be stopped is saved so, at the moment of the mark, with all else
/// as it was; one that is marked already, or has no record, stays as it is.
pub proof fn marked_terminals_are_stopping(
    before: StoreContents,
    id: u128,
    now: Timestamp,
    after: StoreContents,
    operation: Option<DbOperation>,
)
    requires
        stop_marked(before, id, now, after, operation),
        before.keyed(),
    ensures
        before.record(id) is None ==> after == before && operation is None,
        before.record(id) matches Some(record) ==> (record.registry.lifecycle_state
            == TerminalThreadLifecycleState::Stopping ==> after == before && operation is None),
        before.record(id) matches Some(record) ==> (record.registry.lifecycle_state
            != TerminalThreadLifecycleState::Stopping ==> {
            let marked = MetadataContents {
                registry: RegistryContents {
                    lifecycle_state: TerminalThreadLifecycleState::Stopping,
                    updated_at: now,
                    ..record.registry
                },
                ..record
            };
            &&& after.record(id) == Some(marked)
            &&& operation matches Some(done) && done@ == OperationContents::Upsert(marked)
        }),
        forall|other: u128| other != id ==> #[trigger] after.record(other) == before.record(other),
{
    if let Some(record) = before.record(id) {
        assert(record.terminal_id.value == id);
    }
}

/// A record whose paths were changed is the same but for its paths, which are what was made of them.
pub proof fn relocated_records_keep_the_rest<F: Fn(WorktreePaths) -> WorktreePaths>(
    mutate: F,
    before: MetadataContents,
    after: MetadataContents,
)
    requires
        relocated(mutate, before, after),
    ensures
        after == (MetadataContents { worktree_paths: after.worktree_paths, ..before }),
        exists|paths: WorktreePaths, changed: WorktreePaths|
            paths@ == before.worktree_paths && changed@ == after.worktree_paths
                && #[trigger] call_ensures(mutate, (paths,), changed),
{
    let (paths, changed) = choose|paths: WorktreePaths, changed: WorktreePaths|
        paths@ == before.worktree_paths && #[trigger] call_ensures(mutate, (paths,), changed)
            && after == before.with_paths(changed@);
    assert(call_ensures(mutate, (paths,), changed));
}

/// A path is in a list just where one of its paths is the same, however it is written.
pub proof fn lists_hold_paths_however_written(list: PathListContents, wanted: Seq<char>)
    ensures
        list.identity().contains(path::components_of(wanted)) <==> exists|i: int|
            0 <= i < list.paths.len() && path::is_same(#[trigger] list.paths[i], wanted),
{
    let all = list.identity();
    if all.contains(path::components_of(wanted)) {
        let i = choose|i: int| 0 <= i < all.len() && all[i] == path::components_of(wanted);
        assert(path::is_same(list.paths[i], wanted));
    }
    if exists|i: int| 0 <= i < list.paths.len() && path::is_same(#[trigger] list.paths[i], wanted) {
        let i = choose|i: int|
            0 <= i < list.paths.len() && path::is_same(#[trigger] list.paths[i], wanted);
        assert(all[i] == path::components_of(wanted));
    }
}

/// The records of terminal threads.
pub struct TerminalThreadMetadataStore {
    terminals: HashMap<u128, TerminalThreadMetadata>,
    terminals_by_paths: PathIndex,
    terminals_by_main_paths: PathIndex,
}

impl View for TerminalThreadMetadataStore {
    type V = StoreContents;

    closed spec fn view(&self) -> StoreContents {
        StoreContents {
            terminals: self.terminals@.map_values(|metadata: TerminalThreadMetadata| metadata@),
            by_paths: self.terminals_by_paths@,
            by_main_paths: self.terminals_by_main_paths@,
        }
    }
}

impl TerminalThreadMetadataStore {
    /// Each record stands under its own terminal, and no index holds a pair twice.
    pub closed spec fn well_formed(&self) -> bool {
        self@.keyed() && self.indexes_well_formed()
    }

    spec fn indexes_well_formed(&self) -> bool {
        self.terminals_by_paths.well_formed() && self.terminals_by_main_paths.well_formed()
    }

    /// In a well-formed store each record stands under its own terminal.
    pub proof fn well_formed_is_keyed(&self)
        requires
            self.well_formed(),
        ensures
            self@.keyed(),
    {
    }

    /// A store without records.
    pub fn new() -> (result: Self)
        ensures
            result.well_formed(),
            result@ == no_terminals(),
            result@.coherent(),
    {
        let result = TerminalThreadMetadataStore {
            terminals: HashMap::new(),
            terminals_by_paths: PathIndex::new(),
            terminals_by_main_paths: PathIndex::new(),
        };
        assert(result@ =~= no_terminals());
        result
    }

    /// The record of a terminal.
    pub fn entry(&self, terminal_id: TerminalId) -> (result: Option<&TerminalThreadMetadata>)
        ensures
            match result {
                Some(metadata) => self@.record(terminal_id.value) == Some(metadata@),
                None => self@.record(terminal_id.value) is None,
            },
    {
        self.terminals.get(&terminal_id.value)
    }

    /// The records of all terminals. Their order is open.
    pub fn entries(&self) -> (result: Vec<&TerminalThreadMetadata>)
        requires
            self.well_formed(),
        ensures
            lists_chosen(result@, self@, |id: u128| true),
    {
        let mut result: Vec<&TerminalThreadMetadata> = Vec::new();
        for id in it: self.terminals.keys()
            invariant
                self.well_formed(),
                it.seq().unref().to_set() == self.terminals@.dom(),
                it.seq().no_duplicates(),
                result@.len() == it.index(),
                forall|i: int|
                    0 <= i < it.index() ==> (#[trigger] result@[i])@.terminal_id.value
                        == *it.seq()[i] && self@.record(*it.seq()[i]) == Some(result@[i]@),
                it.index() == it.seq().len() ==> forall|k: u128| #[trigger]
                    self@.terminals.contains_key(k) ==> exists|i: int|
                        0 <= i < result@.len() && (#[trigger] result@[i])@.terminal_id.value == k,
                forall|i: int, j: int|
                    0 <= i < j < result@.len() ==> (#[trigger] result@[i])@.terminal_id
                        != (#[trigger] result@[j])@.terminal_id,
        {
            let ghost at = it.index() as int;
            assert(it.seq().unref()[at] == *id);
            assert(it.seq().unref().to_set().contains(*id));
            if let Some(metadata) = self.terminals.get(id) {
                assert(self@.terminals.contains_key(*id));
                result.push(metadata);
            }
            assert forall|k: u128|
                at + 1 == it.seq().len() && #[trigger] self@.terminals.contains_key(k) implies exists|
                i: int,
            | 0 <= i < result@.len() && (#[trigger] result@[i])@.terminal_id.value == k by {
                assert(it.seq().unref().to_set().contains(k));
                let i = choose|i: int| 0 <= i < it.seq().len() && it.seq().unref()[i] == k;
                assert(result@[i]@.terminal_id.value == k);
            }
        }
        result
    }

    /// The records of the terminals whose projects have just the folders of `path_list`, on the
    /// same machine.
    pub fn entries_for_path(
        &self,
        path_list: &PathList,
        remote_connection: Option<&RemoteConnection>,
    ) -> (result: Vec<&TerminalThreadMetadata>)
        requires
            self.well_formed(),
        ensures
            lists_chosen(
                result@,
                self@,
                |id: u128|
                    self@.by_paths.contains((path_list@.identity(), id)) && terminal_thread::machine(
                        self@.terminals[id].remote_connection,
                    ) == referenced_machine(remote_connection),
            ),
    {
        let ids = self.terminals_by_paths.terminals(path_list);
        self.on_machine(&ids, remote_connection)
    }

    /// The records of the terminals whose projects have just the main worktrees of `path_list`,
    /// on the same machine.
    pub fn entries_for_main_worktree_path(
        &self,
        path_list: &PathList,
        remote_connection: Option<&RemoteConnection>,
    ) -> (result: Vec<&TerminalThreadMetadata>)
        requires
            self.well_formed(),
        ensures
            lists_chosen(
                result@,
                self@,
                |id: u128|
                    self@.by_main_paths.contains((path_list@.identity(), id)) && terminal_thread::machine(
                        self@.terminals[id].remote_connection,
                    ) == referenced_machine(remote_connection),
            ),
    {
        let ids = self.terminals_by_main_paths.terminals(path_list);
        self.on_machine(&ids, remote_connection)
    }

    /// The records of those of `ids` that are on the same machine.
    fn on_machine(
        &self,
        ids: &Vec<TerminalId>,
        remote_connection: Option<&RemoteConnection>,
    ) -> (result: Vec<&TerminalThreadMetadata>)
        requires
            self.well_formed(),
            ids@.no_duplicates(),
        ensures
            lists_chosen(
                result@,
                self@,
                |id: u128|
                    ids@.contains(TerminalId { value: id }) && terminal_thread::machine(
                        self@.terminals[id].remote_connection,
                    ) == referenced_machine(remote_connection),
            ),
    {
        let mut result: Vec<&TerminalThreadMetadata> = Vec::new();
        let ghost wanted = referenced_machine(remote_connection);
        let mut i: usize = 0;
        while i < ids.len()
            invariant
                i <= ids.len(),
                self.well_formed(),
                ids@.no_duplicates(),
                wanted == referenced_machine(remote_connection),
                forall|k: int|
                    0 <= k < result@.len() ==> {
                        let id = (#[trigger] result@[k])@.terminal_id;
                        &&& self@.record(id.value) == Some(result@[k]@)
                        &&& ids@.take(i as int).contains(id)
                        &&& terminal_thread::machine(result@[k]@.remote_connection) == wanted
                    },
                forall|a: int, b: int|
                    0 <= a < b < result@.len() ==> (#[trigger] result@[a])@.terminal_id
                        != (#[trigger] result@[b])@.terminal_id,
                forall|j: int|
                    #![trigger ids@[j]]
                    0 <= j < i && self@.terminals.contains_key(ids@[j].value)
                        && terminal_thread::machine(
                        self@.terminals[ids@[j].value].remote_connection,
                    ) == wanted ==> exists|k: int|
                        0 <= k < result@.len() && (#[trigger] result@[k])@.terminal_id == ids@[j],
            decreases ids.len() - i,
        {
            let ghost before = result@;
            assert(ids@.take(i + 1) =~= ids@.take(i as int).push(ids@[i as int]));
            if let Some(metadata) = self.terminals.get(&ids[i].value) {
                assert(self@.terminals.contains_key(ids@[i as int].value));
                if same_remote_connection_identity(
                    metadata.remote_connection.as_ref(),
                    remote_connection,
                ) {
                    result.push(metadata);
                    assert(result@[before.len() as int]@.terminal_id == ids@[i as int]);
                    assert(forall|k: int|
                        0 <= k < before.len() ==> #[trigger] result@[k] == before[k]);
                    assert forall|a: int, b: int|
                        0 <= a < b < result@.len() implies (#[trigger] result@[a])@.terminal_id != (
                    #[trigger] result@[b])@.terminal_id by {
                        if b == before.len() {
                            let j = choose|j: int|
                                0 <= j < i && ids@.take(i as int)[j] == result@[a]@.terminal_id;
                            assert(ids@[j] != ids@[i as int]);
                        }
                    }
                }
            }
            assert forall|k: int| 0 <= k < result@.len() implies ids@.take(i + 1).contains(
                (#[trigger] result@[k])@.terminal_id,
            ) by {
                lemma_push_contains(ids@.take(i as int), ids@[i as int], result@[k]@.terminal_id);
                if k < before.len() {
                    assert(result@[k] == before[k]);
                }
            }
            assert forall|j: int|
                #![trigger ids@[j]]
                0 <= j < i + 1 && self@.terminals.contains_key(ids@[j].value)
                    && terminal_thread::machine(self@.terminals[ids@[j].value].remote_connection)
                    == wanted implies exists|k: int|
                0 <= k < result@.len() && (#[trigger] result@[k])@.terminal_id == ids@[j] by {
                if j < i {
                    let k = choose|k: int|
                        0 <= k < before.len() && (#[trigger] before[k])@.terminal_id == ids@[j];
                    assert(result@[k]@.terminal_id == ids@[j]);
                }
            }
            i = i + 1;
        }
        assert(ids@.take(i as int) =~= ids@);
        proof {
            let chosen = |id: u128|
                ids@.contains(TerminalId { value: id }) && terminal_thread::machine(
                    self@.terminals[id].remote_connection,
                ) == wanted;
            assert forall|id: u128| #[trigger]
                self@.terminals.contains_key(id) && chosen(id) implies exists|k: int|
                0 <= k < result@.len() && (#[trigger] result@[k])@.terminal_id.value == id by {
                let j = choose|j: int|
                    0 <= j < ids@.len() && ids@[j] == (TerminalId { value: id });
                assert(ids@[j].value == id);
                let k = choose|k: int|
                    0 <= k < result@.len() && (#[trigger] result@[k])@.terminal_id == ids@[j];
                assert(result@[k]@.terminal_id.value == id);
            }
        }
        result
    }

    /// Whether a terminal other than `terminal_id`, on the same machine, has `path` among the
    /// folders of its project.
    pub fn path_is_referenced_by_terminal(
        &self,
        terminal_id: Option<TerminalId>,
        path: &TreePath,
        remote_connection: Option<&RemoteConnection>,
    ) -> (result: bool)
        requires
            self.well_formed(),
        ensures
            result == exists|id: u128| #[trigger]
                self@.terminals.contains_key(id) && terminal_id != Some(TerminalId { value: id })
                    && terminal_thread::machine(self@.terminals[id].remote_connection)
                    == referenced_machine(remote_connection)
                    && self@.terminals[id].worktree_paths.folder_paths.identity().contains(
                        path::components_of(path@),
                    ),
    {
        let entries = self.entries();
        let mut i: usize = 0;
        while i < entries.len()
            invariant
                i <= entries.len(),
                self.well_formed(),
                lists_chosen(entries@, self@, |id: u128| true),
                forall|j: int|
                    0 <= j < i ==> {
                        let record = (#[trigger] entries@[j])@;
                        !(terminal_id != Some(record.terminal_id) && terminal_thread::machine(
                            record.remote_connection,
                        ) == referenced_machine(remote_connection)
                            && record.worktree_paths.folder_paths.identity().contains(
                            path::components_of(path@),
                        ))
                    },
            decreases entries.len() - i,
        {
            let entry = entries[i];
            let other = match terminal_id {
                Some(id) => entry.terminal_id != id,
                None => true,
            };
            if other && same_remote_connection_identity(
                entry.remote_connection.as_ref(),
                remote_connection,
            ) && entry.folder_paths().contains(path) {
                assert(self@.terminals.contains_key(entry@.terminal_id.value));
                return true;
            }
            i = i + 1;
        }
        assert forall|id: u128| #[trigger] self@.terminals.contains_key(id) implies !(terminal_id
            != Some(TerminalId { value: id }) && terminal_thread::machine(
            self@.terminals[id].remote_connection,
        ) == referenced_machine(remote_connection)
            && self@.terminals[id].worktree_paths.folder_paths.identity().contains(
            path::components_of(path@),
        )) by {
            let k = choose|k: int|
                0 <= k < entries@.len() && (#[trigger] entries@[k])@.terminal_id.value == id;
            assert(self@.record(entries@[k]@.terminal_id.value) == Some(entries@[k]@));
        }
        false
    }

    /// Saves a record. The result is to be done on the database, and views of the store are to be
    /// notified.
    pub fn save(&mut self, metadata: TerminalThreadMetadata) -> (result: DbOperation)
        requires
            old(self).well_formed(),
        ensures
            final(self).well_formed(),
            old(self)@.coherent() ==> final(self)@.coherent(),
            final(self)@ == old(self)@.saved(metadata@),
            result@ == OperationContents::Upsert(
                saved_record(old(self)@.record(metadata@.terminal_id.value), metadata@),
            ),
    {
        self.save_internal(metadata)
    }

    fn save_internal(&mut self, metadata: TerminalThreadMetadata) -> (result: DbOperation)
        requires
            old(self).well_formed(),
        ensures
            final(self).well_formed(),
            old(self)@.coherent() ==> final(self)@.coherent(),
            final(self)@ == old(self)@.saved(metadata@),
            result@ == OperationContents::Upsert(
                saved_record(old(self)@.record(metadata@.terminal_id.value), metadata@),
            ),
    {
        let ghost before = self@;
        let mut metadata = metadata;
        let ghost given = metadata@;
        let id = metadata.terminal_id;
        if let Some(existing) = self.terminals.get(&id.value) {
            assert(before.record(id.value) == Some(existing@));
            if existing.registry.lifecycle_state == TerminalThreadLifecycleState::Stopping {
                metadata.registry.lifecycle_state = TerminalThreadLifecycleState::Stopping;
                metadata.registry.updated_at =
                metadata.registry.updated_at.later(existing.registry.updated_at);
            }
            assert(metadata@ == saved_record(before.record(id.value), given));
            if !existing.folder_paths().same_paths(metadata.folder_paths()) {
                self.terminals_by_paths.remove(existing.folder_paths(), id);
            }
            if !existing.main_worktree_paths().same_paths(metadata.main_worktree_paths()) {
                self.terminals_by_main_paths.remove(existing.main_worktree_paths(), id);
            }
        }
        assert(metadata@ == saved_record(before.record(id.value), given));
        assert(self@ =~= before.unlinked(metadata@));
        self.cache_terminal_metadata(metadata.clone());
        proof {
            if before.coherent() {
                saved_keeps_coherent(before, given);
            }
        }
        DbOperation::Upsert(metadata)
    }

    fn cache_terminal_metadata(&mut self, metadata: TerminalThreadMetadata)
        requires
            old(self).indexes_well_formed(),
        ensures
            final(self).indexes_well_formed(),
            final(self)@ == old(self)@.cached(metadata@),
    {
        let ghost before = self@;
        let id = metadata.terminal_id;
        self.terminals_by_paths.insert(metadata.folder_paths(), id);
        if !metadata.main_worktree_paths().is_empty() {
            self.terminals_by_main_paths.insert(metadata.main_worktree_paths(), id);
        }
        self.terminals.insert(id.value, metadata);
        assert(self@.terminals =~= before.terminals.insert(id.value, metadata@));
    }

    /// Marks a terminal as to be stopped. The first part of the result says whether the terminal
    /// has a record; the second is to be done on the database, and views of the store are to be
    /// notified of it.
    pub fn mark_stopping(&mut self, terminal_id: TerminalId) -> (result: (bool, Option<DbOperation>))
        requires
            old(self).well_formed(),
        ensures
            final(self).well_formed(),
            old(self)@.coherent() ==> final(self)@.coherent(),
            result.0 == old(self)@.terminals.contains_key(terminal_id.value),
            exists|now: Timestamp|
                #![trigger now.valid()]
                now.valid() && stop_marked(
                    old(self)@,
                    terminal_id.value,
                    now,
                    final(self)@,
                    result.1,
                ),
    {
        let now = Timestamp::now();
        let result = self.mark_stopping_at(terminal_id, now);
        assert(now.valid());
        result
    }

    /// Marks a terminal as to be stopped, at `now`.
    pub fn mark_stopping_at(&mut self, terminal_id: TerminalId, now: Timestamp) -> (result: (
        bool,
        Option<DbOperation>,
    ))
        requires
            old(self).well_formed(),
        ensures
            final(self).well_formed(),
            old(self)@.coherent() ==> final(self)@.coherent(),
            result.0 == old(self)@.terminals.contains_key(terminal_id.value),
            stop_marked(old(self)@, terminal_id.value, now, final(self)@, result.1),
    {
        let mut metadata = match self.terminals.get(&terminal_id.value) {
            Some(metadata) => metadata.clone(),
            None => {
                return (false, None);
            },
        };
        assert(self@.record(terminal_id.value) == Some(metadata@));
        assert(self@.terminals.contains_key(terminal_id.value));
        if metadata.registry.lifecycle_state == TerminalThreadLifecycleState::Stopping {
            return (true, None);
        }
        metadata.registry.mark_stopping_at(now);
        (true, Some(self.save_internal(metadata)))
    }

    /// Deletes a terminal. The result is to be done on the database, and views of the store are to
    /// be notified.
    pub fn delete(&mut self, terminal_id: TerminalId) -> (result: DbOperation)
        requires
            old(self).well_formed(),
        ensures
            final(self).well_formed(),
            old(self)@.coherent() ==> final(self)@.coherent(),
            final(self)@ == old(self)@.deleted(terminal_id.value),
            result@ == OperationContents::Delete(terminal_id),
    {
        let ghost before = self@;
        if let Some(metadata) = self.terminals.remove(&terminal_id.value) {
            assert(before.record(terminal_id.value) == Some(metadata@));
            self.terminals_by_paths.remove(metadata.folder_paths(), terminal_id);
            if !metadata.main_worktree_paths().is_empty() {
                self.terminals_by_main_paths.remove(metadata.main_worktree_paths(), terminal_id);
            }
            assert(self@.terminals =~= before.terminals.remove(terminal_id.value));
        } else {
            assert(before.record(terminal_id.value) is None);
            assert(self@.terminals =~= before.terminals);
        }
        assert(self@ =~= before.deleted(terminal_id.value));
        proof {
            if before.coherent() {
                deleted_keeps_coherent(before, terminal_id.value);
            }
        }
        DbOperation::Delete(terminal_id)
    }

    /// Replaces the records by `rows`. Views of the store are to be notified.
    pub fn reload(&mut self, rows: Vec<TerminalThreadMetadata>)
        ensures
            final(self).well_formed(),
            final(self)@ == all_cached(metadata_contents(rows@)),
            different_terminals(metadata_contents(rows@)) ==> final(self)@.coherent(),
    {
        let ghost all = metadata_contents(rows@);
        *self = TerminalThreadMetadataStore::new();
        let mut i: usize = 0;
        assert(all.take(0) =~= Seq::empty());
        while i < rows.len()
            invariant
                i <= rows.len(),
                self.well_formed(),
                all == metadata_contents(rows@),
                self@ == all_cached(all.take(i as int)),
            decreases rows.len() - i,
        {
            assert(all.take(i + 1).drop_last() =~= all.take(i as int));
            assert(all.take(i + 1).last() == rows@[i as int]@);
            self.cache_terminal_metadata(rows[i].clone());
            i = i + 1;
        }
        assert(all.take(i as int) =~= all);
        proof {
            if different_terminals(all) {
                reloaded_records_are_read_back(all);
            }
        }
    }

    /// Saves a record of the store with the paths that `mutate` makes of its paths.
    fn relocate<F: Fn(WorktreePaths) -> WorktreePaths>(
        &mut self,
        metadata: &TerminalThreadMetadata,
        mutate: &F,
    ) -> (result: DbOperation)
        requires
            old(self).well_formed(),
            old(self)@.record(metadata@.terminal_id.value) == Some(metadata@),
            forall|paths: WorktreePaths| #[trigger] call_requires(*mutate, (paths,)),
        ensures
            final(self).well_formed(),
            old(self)@.coherent() ==> final(self)@.coherent(),
            result@ matches OperationContents::Upsert(after) && relocated(
                *mutate,
                metadata@,
                after,
            ) && after.terminal_id == metadata@.terminal_id && final(self)@.terminals == old(
                self,
            )@.terminals.insert(metadata@.terminal_id.value, after),
    {
        let mut terminal = metadata.clone();
        let paths = terminal.worktree_paths.clone();
        let changed = mutate(paths);
        assert(call_ensures(*mutate, (paths,), changed));
        terminal.worktree_paths = changed;
        assert(terminal@ =~= metadata@.with_paths(changed@));
        assert(saved_record(self@.record(terminal@.terminal_id.value), terminal@) =~= terminal@);
        assert(relocated(*mutate, metadata@, terminal@));
        self.save_internal(terminal)
    }

    /// Changes the paths of every terminal on the same machine whose project has just the folders
    /// of `current_folder_paths`. The results are to be done on the database; where there are any,
    /// views of the store are to be notified.
    pub fn change_worktree_paths(
        &mut self,
        current_folder_paths: &PathList,
        remote_connection: Option<&RemoteConnection>,
        mutate: impl Fn(WorktreePaths) -> WorktreePaths,
    ) -> (result: Vec<DbOperation>)
        requires
            old(self).well_formed(),
            forall|paths: WorktreePaths| #[trigger] call_requires(mutate, (paths,)),
        ensures
            final(self).well_formed(),
            old(self)@.coherent() ==> final(self)@.coherent(),
            final(self)@.terminals.dom() == old(self)@.terminals.dom(),
            forall|id: u128| #[trigger]
                old(self)@.terminals.contains_key(id) ==> if old(self)@.by_paths.contains(
                    (current_folder_paths@.identity(), id),
                ) && terminal_thread::machine(old(self)@.terminals[id].remote_connection)
                    == referenced_machine(remote_connection) {
                    &&& relocated(mutate, old(self)@.terminals[id], final(self)@.terminals[id])
                    &&& exists|i: int|
                        0 <= i < result@.len() && (#[trigger] result@[i])@
                            == OperationContents::Upsert(final(self)@.terminals[id])
                } else {
                    &&& final(self)@.terminals[id] == old(self)@.terminals[id]
                    &&& forall|i: int| 0 <= i < result@.len() ==> (#[trigger] result@[i])@.id() != id
                },
            forall|i: int, j: int|
                0 <= i < j < result@.len() ==> (#[trigger] result@[i])@.id()
                    != (#[trigger] result@[j])@.id(),
            forall|i: int|
                0 <= i < result@.len() ==> old(self)@.terminals.contains_key(
                    (#[trigger] result@[i])@.id(),
                ),
    {
        let ghost before = self@;
        let ghost wanted = |id: u128|
            before.by_paths.contains((current_folder_paths@.identity(), id)) && terminal_thread::machine(
                before.terminals[id].remote_connection,
            ) == referenced_machine(remote_connection);
        let mut chosen: Vec<TerminalThreadMetadata> = Vec::new();
        {
            let entries = self.entries_for_path(current_folder_paths, remote_connection);
            let mut i: usize = 0;
            while i < entries.len()
                invariant
                    i <= entries.len(),
                    chosen@.len() == i,
                    forall|j: int| 0 <= j < i ==> (#[trigger] chosen@[j])@ == entries@[j]@,
                decreases entries.len() - i,
            {
                chosen.push(entries[i].clone());
                i = i + 1;
            }
            assert(lists_chosen(entries@, before, wanted));
            assert forall|id: u128| #[trigger]
                before.terminals.contains_key(id) && wanted(id) implies exists|j: int|
                0 <= j < chosen@.len() && (#[trigger] chosen@[j])@.terminal_id.value == id by {
                let j = choose|j: int|
                    0 <= j < entries@.len() && (#[trigger] entries@[j])@.terminal_id.value == id;
                assert(chosen@[j]@.terminal_id.value == id);
            }
            assert forall|j: int| 0 <= j < chosen@.len() implies before.record(
                (#[trigger] chosen@[j])@.terminal_id.value,
            ) == Some(chosen@[j]@) && wanted(chosen@[j]@.terminal_id.value) by {
                assert(entries@[j]@ == chosen@[j]@);
            }
            assert forall|a: int, b: int| 0 <= a < b < chosen@.len() implies (
            #[trigger] chosen@[a])@.terminal_id != (#[trigger] chosen@[b])@.terminal_id by {
                assert(entries@[a]@.terminal_id != entries@[b]@.terminal_id);
            }
        }
        let ghost ids = chosen@.map_values(
            |metadata: TerminalThreadMetadata| metadata@.terminal_id.value,
        );
        let mut result: Vec<DbOperation> = Vec::new();
        let mut i: usize = 0;
        assert(ids.take(0) =~= Seq::empty());
        while i < chosen.len()
            invariant
                i <= chosen.len(),
                self.well_formed(),
                before.coherent() ==> self@.coherent(),
                result@.len() == i,
                forall|paths: WorktreePaths| #[trigger] call_requires(mutate, (paths,)),
                self@.terminals.dom() == before.terminals.dom(),
                ids.len() == chosen@.len(),
                forall|j: int|
                    0 <= j < ids.len() ==> #[trigger] ids[j] == chosen@[j]@.terminal_id.value
                        && before.record(ids[j]) == Some(chosen@[j]@),
                ids.no_duplicates(),
                forall|j: int|
                    0 <= j < i ==> {
                        &&& (#[trigger] result@[j])@ == OperationContents::Upsert(
                            self@.terminals[ids[j]],
                        )
                        &&& self@.terminals[ids[j]].terminal_id.value == ids[j]
                        &&& relocated(mutate, before.terminals[ids[j]], self@.terminals[ids[j]])
                    },
                forall|id: u128|
                    !ids.take(i as int).contains(id) ==> #[trigger] self@.terminals[id]
                        == before.terminals[id],
            decreases chosen.len() - i,
        {
            let ghost middle = self@;
            let ghost id = ids[i as int];
            let ghost done = result@;
            assert(!ids.take(i as int).contains(id)) by {
                if ids.take(i as int).contains(id) {
                    let j = choose|j: int| 0 <= j < i && ids.take(i as int)[j] == id;
                    assert(ids[j] == ids[i as int]);
                }
            }
            assert(middle.terminals[id] == before.terminals[id]);
            assert(middle.record(id) == Some(chosen@[i as int]@));
            result.push(self.relocate(&chosen[i], &mutate));
            assert(self@.terminals.dom() =~= before.terminals.dom());
            assert forall|j: int| 0 <= j < i + 1 implies {
                &&& (#[trigger] result@[j])@ == OperationContents::Upsert(self@.terminals[ids[j]])
                &&& self@.terminals[ids[j]].terminal_id.value == ids[j]
                &&& relocated(mutate, before.terminals[ids[j]], self@.terminals[ids[j]])
            } by {
                if j < i {
                    assert(result@[j] == done[j]);
                    assert(ids[j] != id);
                }
            }
            assert(ids.take(i + 1) =~= ids.take(i as int).push(id));
            assert forall|other: u128| !ids.take(i + 1).contains(other) implies (
            #[trigger] self@.terminals[other]) == before.terminals[other] by {
                lemma_push_contains(ids.take(i as int), id, other);
            }
            i = i + 1;
        }
        assert(ids.take(i as int) =~= ids);
        assert forall|id: u128| #[trigger] before.terminals.contains_key(id) implies if wanted(id) {
            relocated(mutate, before.terminals[id], self@.terminals[id]) && exists|i: int|
                0 <= i < result@.len() && (#[trigger] result@[i])@ == OperationContents::Upsert(
                    self@.terminals[id],
                )
        } else {
            self@.terminals[id] == before.terminals[id] && forall|i: int|
                0 <= i < result@.len() ==> (#[trigger] result@[i])@.id() != id
        } by {
            if wanted(id) {
                let j = choose|j: int|
                    0 <= j < chosen@.len() && (#[trigger] chosen@[j])@.terminal_id.value == id;
                assert(ids[j] == id);
                assert(result@[j]@ == OperationContents::Upsert(self@.terminals[id]));
            } else {
                assert forall|j: int| 0 <= j < ids.len() implies #[trigger] ids[j] != id by {
                    assert(wanted(chosen@[j]@.terminal_id.value));
                }
                assert(!ids.contains(id));
                assert forall|i: int| 0 <= i < result@.len() implies (#[trigger] result@[i])@.id()
                    != id by {
                    assert(ids[i] != id);
                }
            }
        }
        assert forall|i: int, j: int| 0 <= i < j < result@.len() implies (
        #[trigger] result@[i])@.id() != (#[trigger] result@[j])@.id() by {
            assert(ids[i] != ids[j]);
        }
        assert forall|i: int| 0 <= i < result@.len() implies before.terminals.contains_key(
            (#[trigger] result@[i])@.id(),
        ) by {
            assert(before.record(ids[i]) is Some);
        }
        result
    }
}

} // verus!
