//! What goes on in worktrees: the activity of each source, and which activities of a worktree are
//! shown first.
use std::collections::HashMap;

use vstd::prelude::*;

use crate::path;
use crate::path::TreePath;
use crate::timestamp::Timestamp;

verus! {

broadcast use vstd::std_specs::hash::group_hash_axioms;

/// What a source of activity is doing.
#[derive(Clone, Copy, Debug, PartialEq, Eq, Structural)]
pub enum WorktreeActivityStatus {
    Running,
    Working,
    Finished,
    Attention,
}

/// The group of projects that a worktree belongs to.
#[derive(Debug)]
pub struct ProjectGroupKey {
    pub identity: String,
}

/// The worktree that an activity goes on in.
pub struct WorktreeActivityKey {
    pub project_group_key: ProjectGroupKey,
    pub worktree_path: TreePath,
}

/// The contents of a `WorktreeActivityKey`.
#[verifier::ext_equal]
pub struct KeyContents {
    pub group: Seq<char>,
    pub worktree_path: Seq<char>,
}

impl KeyContents {
    /// Whether this and `other` are keys of the same worktree in the same group.
    pub open spec fn is_same(self, other: KeyContents) -> bool {
        self.group == other.group && path::is_same(self.worktree_path, other.worktree_path)
    }
}

impl View for WorktreeActivityKey {
    type V = KeyContents;

    open spec fn view(&self) -> KeyContents {
        KeyContents {
            group: self.project_group_key.identity@,
            worktree_path: self.worktree_path@,
        }
    }
}

impl Clone for WorktreeActivityKey {
    fn clone(&self) -> (result: Self)
        ensures
            result@ == self@,
    {
        WorktreeActivityKey {
            project_group_key: ProjectGroupKey { identity: self.project_group_key.identity.clone() },
            worktree_path: self.worktree_path.clone(),
        }
    }
}

impl WorktreeActivityKey {
    /// Whether this is the key of a worktree in a group.
    pub fn is_for(&self, project_group_key: &ProjectGroupKey, worktree_path: &TreePath) -> (result:
        bool)
        ensures
            result == self@.is_same(
                (KeyContents {
                    group: project_group_key.identity@,
                    worktree_path: worktree_path@,
                }),
            ),
    {
        self.project_group_key.identity == project_group_key.identity
            && self.worktree_path.same_path(worktree_path)
    }
}

/// The activity of a source. `focus_source` says what brings the source to the front.
pub struct WorktreeActivity {
    pub source_id: u64,
    pub key: WorktreeActivityKey,
    pub agent_label: String,
    pub source_label: String,
    pub status: WorktreeActivityStatus,
    pub updated_at: Timestamp,
    pub acknowledged: bool,
    pub focus_source: u64,
}

/// The contents of a `WorktreeActivity`.
#[verifier::ext_equal]
pub struct ActivityContents {
    pub source_id: u64,
    pub key: KeyContents,
    pub agent_label: Seq<char>,
    pub source_label: Seq<char>,
    pub status: WorktreeActivityStatus,
    pub updated_at: Timestamp,
    pub acknowledged: bool,
    pub focus_source: u64,
}

impl View for WorktreeActivity {
    type V = ActivityContents;

    open spec fn view(&self) -> ActivityContents {
        ActivityContents {
            source_id: self.source_id,
            key: self.key@,
            agent_label: self.agent_label@,
            source_label: self.source_label@,
            status: self.status,
            updated_at: self.updated_at,
            acknowledged: self.acknowledged,
            focus_source: self.focus_source,
        }
    }
}

impl Clone for WorktreeActivity {
    fn clone(&self) -> (result: Self)
        ensures
            result@ == self@,
    {
        WorktreeActivity {
            source_id: self.source_id,
            key: self.key.clone(),
            agent_label: self.agent_label.clone(),
            source_label: self.source_label.clone(),
            status: self.status,
            updated_at: self.updated_at,
            acknowledged: self.acknowledged,
            focus_source: self.focus_source,
        }
    }
}

impl WorktreeActivity {
    /// What to say of the activity.
    pub fn tooltip(&self) -> (result: String)
        ensures
            result@ == self@.agent_label + match self.status {
                WorktreeActivityStatus::Running => " running in terminal"@,
                WorktreeActivityStatus::Working => " working in terminal"@,
                WorktreeActivityStatus::Finished => " finished in terminal"@,
                WorktreeActivityStatus::Attention => " needs attention"@,
            },
    {
        let label = self.agent_label.clone();
        match self.status {
            WorktreeActivityStatus::Running => label.concat(" running in terminal"),
            WorktreeActivityStatus::Working => label.concat(" working in terminal"),
            WorktreeActivityStatus::Finished => label.concat(" finished in terminal"),
            WorktreeActivityStatus::Attention => label.concat(" needs attention"),
        }
    }
}

/// What a source tells of its activity.
pub struct WorktreeActivityUpdate {
    pub source_id: u64,
    pub key: WorktreeActivityKey,
    pub agent_label: String,
    pub source_label: String,
    pub status: WorktreeActivityStatus,
    pub focus_source: u64,
}

/// The contents of a `WorktreeActivityUpdate`.
#[verifier::ext_equal]
pub struct UpdateContents {
    pub source_id: u64,
    pub key: KeyContents,
    pub agent_label: Seq<char>,
    pub source_label: Seq<char>,
    pub status: WorktreeActivityStatus,
    pub focus_source: u64,
}

impl View for WorktreeActivityUpdate {
    type V = UpdateContents;

    open spec fn view(&self) -> UpdateContents {
        UpdateContents {
            source_id: self.source_id,
            key: self.key@,
            agent_label: self.agent_label@,
            source_label: self.source_label@,
            status: self.status,
            focus_source: self.focus_source,
        }
    }
}

/// The activity of a source after an update at `now`.
pub open spec fn activity_after(update: UpdateContents, updated_at: Timestamp) -> ActivityContents {
    ActivityContents {
        source_id: update.source_id,
        key: update.key,
        agent_label: update.agent_label,
        source_label: update.source_label,
        status: update.status,
        updated_at,
        acknowledged: false,
        focus_source: update.focus_source,
    }
}

/// Whether an update says anything new of an activity.
pub open spec fn says_anew(activity: ActivityContents, update: UpdateContents) -> bool {
    !activity.key.is_same(update.key) || activity.agent_label != update.agent_label
        || activity.source_label != update.source_label || activity.status != update.status
        || activity.acknowledged
}

/// The activities by source.
pub open spec fn activity_of(activities: Map<u64, ActivityContents>, source_id: u64) -> Option<
    ActivityContents,
> {
    if activities.contains_key(source_id) {
        Some(activities[source_id])
    } else {
        None
    }
}

/// The activities after an update at `now`, and whether anything new was said. What says nothing
/// new leaves the time of the activity as it was.
pub open spec fn updated(
    activities: Map<u64, ActivityContents>,
    update: UpdateContents,
    now: Timestamp,
) -> (Map<u64, ActivityContents>, bool) {
    match activity_of(activities, update.source_id) {
        Some(activity) if !says_anew(activity, update) => (
            activities.insert(update.source_id, activity_after(update, activity.updated_at)),
            false,
        ),
        _ => (activities.insert(update.source_id, activity_after(update, now)), true),
    }
}

/// The activities after a source that was working is found to be only running, and whether it
/// was.
pub open spec fn running_marked(activities: Map<u64, ActivityContents>, source_id: u64) -> (
    Map<u64, ActivityContents>,
    bool,
) {
    match activity_of(activities, source_id) {
        Some(activity) if activity.status == WorktreeActivityStatus::Working => (
            activities.insert(
                source_id,
                ActivityContents { status: WorktreeActivityStatus::Running, ..activity },
            ),
            true,
        ),
        _ => (activities, false),
    }
}

/// The activities after a source is given a status at `now`, and whether that changes anything.
pub open spec fn status_marked(
    activities: Map<u64, ActivityContents>,
    source_id: u64,
    status: WorktreeActivityStatus,
    now: Timestamp,
) -> (Map<u64, ActivityContents>, bool) {
    match activity_of(activities, source_id) {
        Some(activity) if activity.status != status || activity.acknowledged => (
            activities.insert(
                source_id,
                ActivityContents { status, acknowledged: false, updated_at: now, ..activity },
            ),
            true,
        ),
        _ => (activities, false),
    }
}

/// The activities without that of a source, and whether there was one.
pub open spec fn removed(activities: Map<u64, ActivityContents>, source_id: u64) -> (
    Map<u64, ActivityContents>,
    bool,
) {
    (activities.remove(source_id), activities.contains_key(source_id))
}

/// The activities after what a source told was seen at `now`, and whether that changes anything: a
/// source that still runs is running again; any other is forgotten.
pub open spec fn acknowledged(
    activities: Map<u64, ActivityContents>,
    source_id: u64,
    still_running: bool,
    now: Timestamp,
) -> (Map<u64, ActivityContents>, bool) {
    if still_running {
        match activity_of(activities, source_id) {
            Some(activity) if activity.status != WorktreeActivityStatus::Working
                || activity.acknowledged => status_marked(
                activities,
                source_id,
                WorktreeActivityStatus::Running,
                now,
            ),
            _ => (activities, false),
        }
    } else {
        removed(activities, source_id)
    }
}

/// Each activity stands under its own source.
pub open spec fn sources_match(activities: Map<u64, ActivityContents>) -> bool {
    forall|source_id: u64| #[trigger]
        activities.contains_key(source_id) ==> activities[source_id].source_id == source_id
}

/// No activity that is kept is acknowledged.
pub open spec fn none_acknowledged(activities: Map<u64, ActivityContents>) -> bool {
    forall|source_id: u64| #[trigger]
        activities.contains_key(source_id) ==> !activities[source_id].acknowledged
}

/// No operation makes an activity acknowledged: what was seen is either forgotten or running.
pub proof fn activities_stay_unacknowledged(
    activities: Map<u64, ActivityContents>,
    update: UpdateContents,
    source_id: u64,
    status: WorktreeActivityStatus,
    still_running: bool,
    now: Timestamp,
)
    requires
        none_acknowledged(activities),
    ensures
        none_acknowledged(updated(activities, update, now).0),
        none_acknowledged(running_marked(activities, source_id).0),
        none_acknowledged(status_marked(activities, source_id, status, now).0),
        none_acknowledged(acknowledged(activities, source_id, still_running, now).0),
        none_acknowledged(removed(activities, source_id).0),
{
}

/// Acknowledging what a source told leaves it neither finished nor in need of attention.
pub proof fn acknowledged_source_wants_nothing(
    activities: Map<u64, ActivityContents>,
    source_id: u64,
    still_running: bool,
    now: Timestamp,
)
    ensures
        activity_of(acknowledged(activities, source_id, still_running, now).0, source_id) matches Some(
            activity,
        ) ==> still_running && !activity.acknowledged && (activity.status
            == WorktreeActivityStatus::Running || activity.status
            == WorktreeActivityStatus::Working),
{
}

/// How urgent a status is.
pub open spec fn priority(status: WorktreeActivityStatus) -> int {
    match status {
        WorktreeActivityStatus::Running => 0,
        WorktreeActivityStatus::Working => 1,
        WorktreeActivityStatus::Finished => 2,
        WorktreeActivityStatus::Attention => 3,
    }
}

/// Whether one activity is shown before another: the more urgent first, and of two that are
/// equally urgent the one that was updated later.
pub open spec fn goes_before(a: ActivityContents, b: ActivityContents) -> bool {
    priority(a.status) > priority(b.status) || (priority(a.status) == priority(b.status)
        && b.updated_at.precedes(a.updated_at))
}

/// Whether an activity is one to show of a worktree.
pub open spec fn is_shown(activity: ActivityContents, key: KeyContents) -> bool {
    !activity.acknowledged && activity.key.is_same(key)
}

/// Whether a listing holds just the activities to show of a worktree, each once, those first that
/// go before others.
pub open spec fn lists_shown(
    listed: Seq<WorktreeActivity>,
    activities: Map<u64, ActivityContents>,
    key: KeyContents,
) -> bool {
    &&& forall|i: int|
        0 <= i < listed.len() ==> activity_of(activities, (#[trigger] listed[i])@.source_id)
            == Some(listed[i]@) && is_shown(listed[i]@, key)
    &&& forall|i: int, j: int|
        0 <= i < j < listed.len() ==> (#[trigger] listed[i])@.source_id
            != (#[trigger] listed[j])@.source_id && !goes_before(listed[j]@, listed[i]@)
    &&& forall|source_id: u64| #[trigger]
        activities.contains_key(source_id) && is_shown(activities[source_id], key)
            ==> exists|i: int|
            0 <= i < listed.len() && (#[trigger] listed[i])@.source_id == source_id
}

/// What a source tells replaces what was known of it. It is news just where there was nothing, or the
/// worktree, one of the labels or the status is another, or what was known had been seen; only news
/// has the time of the update.
pub proof fn news_is_told_apart(
    activities: Map<u64, ActivityContents>,
    update: UpdateContents,
    now: Timestamp,
    other: u64,
)
    ensures
        ({
            let (after, told) = updated(activities, update, now);
            let id = update.source_id;
            let known = activities.contains_key(id);
            let before = activities[id];
            let same = known && before.key.group == update.key.group && path::is_same(
                before.key.worktree_path,
                update.key.worktree_path,
            ) && before.agent_label == update.agent_label && before.source_label
                == update.source_label && before.status == update.status && !before.acknowledged;
            &&& told <==> !same
            &&& after.contains_key(id)
            &&& after[id].source_id == id && after[id].key == update.key && after[id].agent_label
                == update.agent_label && after[id].source_label == update.source_label
                && after[id].status == update.status && after[id].focus_source
                == update.focus_source && !after[id].acknowledged
            &&& told ==> after[id].updated_at == now
            &&& !told ==> after[id].updated_at == before.updated_at
            &&& other != id ==> after.contains_key(other) == activities.contains_key(other) && (
            activities.contains_key(other) ==> after[other] == activities[other])
        }),
{
}

/// A source that was working is only running once it is marked so; what it does otherwise is left,
/// and so is its time.
pub proof fn only_working_sources_are_marked_running(
    activities: Map<u64, ActivityContents>,
    id: u64,
    other: u64,
)
    ensures
        ({
            let (after, told) = running_marked(activities, id);
            let works = activities.contains_key(id) && activities[id].status
                == WorktreeActivityStatus::Working;
            &&& told <==> works
            &&& !works ==> after == activities
            &&& works ==> after.contains_key(id) && after[id] == (ActivityContents {
                status: WorktreeActivityStatus::Running,
                ..activities[id]
            })
            &&& other != id ==> after.contains_key(other) == activities.contains_key(other) && (
            activities.contains_key(other) ==> after[other] == activities[other])
        }),
{
}

/// A source that is known has the status that it is marked with, at the moment of the mark, unless it
/// had it already and nobody had seen it; a source that is not known stays so.
pub proof fn marked_sources_have_the_status(
    activities: Map<u64, ActivityContents>,
    id: u64,
    status: WorktreeActivityStatus,
    now: Timestamp,
    other: u64,
)
    ensures
        ({
            let (after, told) = status_marked(activities, id, status, now);
            let known = activities.contains_key(id);
            let had = known && activities[id].status == status && !activities[id].acknowledged;
            &&& told <==> known && !had
            &&& !told ==> after == activities
            &&& told ==> after.contains_key(id) && after[id] == (ActivityContents {
                status,
                acknowledged: false,
                updated_at: now,
                ..activities[id]
            })
            &&& known ==> after.contains_key(id) && after[id].status == status
            &&& !known ==> !after.contains_key(id)
            &&& other != id ==> after.contains_key(other) == activities.contains_key(other) && (
            activities.contains_key(other) ==> after[other] == activities[other])
        }),
{
}

/// A source whose activity was seen is forgotten where it runs no more. Where it still runs it is
/// running again, unless it is working, which it stays.
pub proof fn seen_activity_is_forgotten_or_runs(
    activities: Map<u64, ActivityContents>,
    id: u64,
    now: Timestamp,
    other: u64,
)
    requires
        activities.contains_key(id) ==> !activities[id].acknowledged,
    ensures
        ({
            let (ended, told) = acknowledged(activities, id, false, now);
            let (runs, heard) = acknowledged(activities, id, true, now);
            let known = activities.contains_key(id);
            &&& told <==> known
            &&& !ended.contains_key(id)
            &&& removed(activities, id) == (ended, told)
            &&& known && activities[id].status == WorktreeActivityStatus::Working ==> runs
                == activities && !heard
            &&& known && activities[id].status == WorktreeActivityStatus::Running ==> runs
                == activities && !heard
            &&& known && (activities[id].status == WorktreeActivityStatus::Finished
                || activities[id].status == WorktreeActivityStatus::Attention) ==> heard
                && runs.contains_key(id) && runs[id] == (ActivityContents {
                status: WorktreeActivityStatus::Running,
                updated_at: now,
                ..activities[id]
            })
            &&& !known ==> runs == activities && !heard
            &&& other != id ==> ended.contains_key(other) == activities.contains_key(other) && (
            activities.contains_key(other) ==> ended[other] == activities[other])
        }),
{
    if activities.contains_key(id) && activities[id].status == WorktreeActivityStatus::Running {
        assert(acknowledged(activities, id, true, now).0 == activities);
    }
}

/// What needs attention is shown before what finished, that before what works, and that before what
/// runs; and of two that are alike the one that was updated later.
pub proof fn urgent_activity_comes_first(a: ActivityContents, b: ActivityContents)
    ensures
        a.status == WorktreeActivityStatus::Attention && b.status
            != WorktreeActivityStatus::Attention ==> goes_before(a, b) && !goes_before(b, a),
        a.status == WorktreeActivityStatus::Finished && (b.status
            == WorktreeActivityStatus::Working || b.status == WorktreeActivityStatus::Running)
            ==> goes_before(a, b) && !goes_before(b, a),
        a.status == WorktreeActivityStatus::Working && b.status == WorktreeActivityStatus::Running
            ==> goes_before(a, b) && !goes_before(b, a),
        a.status == b.status ==> (goes_before(a, b) <==> b.updated_at.precedes(a.updated_at)),
        priority(WorktreeActivityStatus::Running) == 0,
        priority(WorktreeActivityStatus::Working) == 1,
        priority(WorktreeActivityStatus::Finished) == 2,
        priority(WorktreeActivityStatus::Attention) == 3,
{
}

/// An activity is listed for a worktree just where it is one of that worktree, in the same group,
/// however the path is written, and was not seen; none is listed twice, and none behind one that it
/// goes before.
pub proof fn activities_are_listed_for_their_worktree(
    listed: Seq<WorktreeActivity>,
    activities: Map<u64, ActivityContents>,
    key: KeyContents,
    id: u64,
)
    requires
        lists_shown(listed, activities, key),
        sources_match(activities),
    ensures
        (activities.contains_key(id) && !activities[id].acknowledged && activities[id].key.group
            == key.group && path::is_same(activities[id].key.worktree_path, key.worktree_path))
            <==> exists|i: int|
            0 <= i < listed.len() && (#[trigger] listed[i])@.source_id == id,
        forall|i: int, j: int|
            0 <= i < j < listed.len() ==> (#[trigger] listed[i])@.source_id
                != (#[trigger] listed[j])@.source_id && !goes_before(listed[j]@, listed[i]@),
        forall|i: int|
            0 <= i < listed.len() ==> activities.contains_key((#[trigger] listed[i])@.source_id)
                && activities[listed[i]@.source_id] == listed[i]@,
{
    if exists|i: int| 0 <= i < listed.len() && (#[trigger] listed[i])@.source_id == id {
        let i = choose|i: int| 0 <= i < listed.len() && (#[trigger] listed[i])@.source_id == id;
        assert(activity_of(activities, listed[i]@.source_id) == Some(listed[i]@));
    }
    if activities.contains_key(id) && is_shown(activities[id], key) {
        assert(exists|i: int| 0 <= i < listed.len() && (#[trigger] listed[i])@.source_id == id);
    }
}

/// How urgent a status is.
pub fn activity_priority(status: WorktreeActivityStatus) -> (result: usize)
    ensures
        result == priority(status),
{
    match status {
        WorktreeActivityStatus::Running => 0,
        WorktreeActivityStatus::Working => 1,
        WorktreeActivityStatus::Finished => 2,
        WorktreeActivityStatus::Attention => 3,
    }
}

fn shown_before(a: &WorktreeActivity, b: &WorktreeActivity) -> (result: bool)
    ensures
        result == goes_before(a@, b@),
{
    let left = activity_priority(a.status);
    let right = activity_priority(b.status);
    left > right || (left == right && b.updated_at.before(&a.updated_at))
}

/// Whether no two activities are of one source, and none goes before one that stands earlier.
spec fn sorted(listed: Seq<WorktreeActivity>) -> bool {
    forall|i: int, j: int|
        0 <= i < j < listed.len() ==> (#[trigger] listed[i])@.source_id
            != (#[trigger] listed[j])@.source_id && !goes_before(listed[j]@, listed[i]@)
}

fn insert_sorted(listed: &mut Vec<WorktreeActivity>, activity: WorktreeActivity)
    requires
        sorted(old(listed)@),
        forall|i: int|
            0 <= i < old(listed)@.len() ==> (#[trigger] old(listed)@[i])@.source_id
                != activity@.source_id,
    ensures
        sorted(final(listed)@),
        forall|other: WorktreeActivity| #[trigger]
            final(listed)@.contains(other) <==> old(listed)@.contains(other) || other == activity,
{
    let mut at: usize = 0;
    while at < listed.len() && !shown_before(&activity, &listed[at])
        invariant
            at <= listed.len(),
            forall|i: int| 0 <= i < at ==> !goes_before(activity@, (#[trigger] listed@[i])@),
        decreases listed.len() - at,
    {
        at = at + 1;
    }
    let ghost before = listed@;
    listed.insert(at, activity);
    assert forall|i: int, j: int| 0 <= i < j < listed@.len() implies (
    #[trigger] listed@[i])@.source_id != (#[trigger] listed@[j])@.source_id && !goes_before(
        listed@[j]@,
        listed@[i]@,
    ) by {
        let a = if i < at { i } else { i - 1 };
        let b = if j < at { j } else { j - 1 };
        if i == at {
            assert(listed@[j] == before[b]);
            if b > at {
                assert(!goes_before(before[b]@, before[at as int]@));
            }
        } else if j == at {
            assert(listed@[i] == before[a]);
        } else {
            assert(listed@[i] == before[a]);
            assert(listed@[j] == before[b]);
        }
    }
    assert forall|other: WorktreeActivity| #[trigger]
        listed@.contains(other) <==> before.contains(other) || other == activity by {
        assert(listed@[at as int] == activity);
        if before.contains(other) {
            let i = choose|i: int| 0 <= i < before.len() && before[i] == other;
            assert(listed@[if i < at { i } else { i + 1 }] == other);
        }
        if listed@.contains(other) {
            let i = choose|i: int| 0 <= i < listed@.len() && listed@[i] == other;
            assert(i == at || before[if i < at { i } else { i - 1 }] == other);
        }
    }
}

/// The activities by source.
pub struct WorktreeActivityStore {
    activities_by_source: HashMap<u64, WorktreeActivity>,
}

impl View for WorktreeActivityStore {
    type V = Map<u64, ActivityContents>;

    closed spec fn view(&self) -> Map<u64, ActivityContents> {
        self.activities_by_source@.map_values(|activity: WorktreeActivity| activity@)
    }
}

impl WorktreeActivityStore {
    /// A store without activities.
    pub fn new() -> (result: WorktreeActivityStore)
        ensures
            result@ == Map::<u64, ActivityContents>::empty(),
            sources_match(result@),
            none_acknowledged(result@),
    {
        let result = WorktreeActivityStore { activities_by_source: HashMap::new() };
        assert(result@ =~= Map::<u64, ActivityContents>::empty());
        result
    }

    fn put(&mut self, activity: WorktreeActivity)
        ensures
            final(self)@ == old(self)@.insert(activity@.source_id, activity@),
    {
        let ghost before = self@;
        let source_id = activity.source_id;
        self.activities_by_source.insert(source_id, activity);
        assert(self@ =~= before.insert(source_id, activity@));
    }

    fn copy_of(&self, source_id: u64) -> (result: Option<WorktreeActivity>)
        ensures
            match result {
                Some(activity) => activity_of(self@, source_id) == Some(activity@),
                None => activity_of(self@, source_id) is None,
            },
    {
        match self.activities_by_source.get(&source_id) {
            Some(activity) => Some(activity.clone()),
            None => None,
        }
    }

    /// Takes what a source tells of its activity, now. Says whether views are to be notified.
    pub fn update_activity(&mut self, update: WorktreeActivityUpdate) -> (result: bool)
        requires
            sources_match(old(self)@),
        ensures
            sources_match(final(self)@),
            exists|now: Timestamp|
                #![trigger now.valid()]
                now.valid() && updated(old(self)@, update@, now) == (final(self)@, result),
    {
        let now = Timestamp::now();
        assert(now.valid());
        self.update_activity_at(update, now)
    }

    /// Takes what a source tells of its activity, at `now`. Says whether views are to be notified.
    pub fn update_activity_at(&mut self, update: WorktreeActivityUpdate, now: Timestamp) -> (result:
        bool)
        requires
            sources_match(old(self)@),
        ensures
            sources_match(final(self)@),
            updated(old(self)@, update@, now) == (final(self)@, result),
    {
        let ghost given = update@;
        let (changed, updated_at) = match self.activities_by_source.get(&update.source_id) {
            Some(activity) => {
                assert(activity_of(self@, update.source_id) == Some(activity@));
                let changed = !activity.key.is_for(
                    &update.key.project_group_key,
                    &update.key.worktree_path,
                ) || activity.agent_label != update.agent_label || activity.source_label
                    != update.source_label || activity.status != update.status
                    || activity.acknowledged;
                assert(changed == says_anew(activity@, given));
                (
                    changed,
                    if changed {
                        now
                    } else {
                        activity.updated_at
                    },
                )
            },
            None => (true, now),
        };
        self.put(
            WorktreeActivity {
                source_id: update.source_id,
                key: update.key,
                agent_label: update.agent_label,
                source_label: update.source_label,
                status: update.status,
                updated_at,
                acknowledged: false,
                focus_source: update.focus_source,
            },
        );
        changed
    }

    /// Takes note that a source that was working is only running. Says whether views are to be
    /// notified.
    pub fn mark_running(&mut self, source_id: u64) -> (result: bool)
        requires
            sources_match(old(self)@),
        ensures
            sources_match(final(self)@),
            running_marked(old(self)@, source_id) == (final(self)@, result),
    {
        let mut activity = match self.copy_of(source_id) {
            Some(activity) => activity,
            None => {
                return false;
            },
        };
        assert(self@.contains_key(source_id));
        if activity.status != WorktreeActivityStatus::Working {
            return false;
        }
        activity.status = WorktreeActivityStatus::Running;
        self.put(activity);
        true
    }

    fn mark(&mut self, source_id: u64, status: WorktreeActivityStatus, now: Timestamp) -> (result:
        bool)
        requires
            sources_match(old(self)@),
        ensures
            sources_match(final(self)@),
            status_marked(old(self)@, source_id, status, now) == (final(self)@, result),
    {
        let mut activity = match self.copy_of(source_id) {
            Some(activity) => activity,
            None => {
                return false;
            },
        };
        assert(self@.contains_key(source_id));
        if activity.status == status && !activity.acknowledged {
            return false;
        }
        activity.status = status;
        activity.acknowledged = false;
        activity.updated_at = now;
        self.put(activity);
        true
    }

    /// Takes note that a source finished, now. Says whether views are to be notified.
    pub fn mark_finished(&mut self, source_id: u64) -> (result: bool)
        requires
            sources_match(old(self)@),
        ensures
            sources_match(final(self)@),
            exists|now: Timestamp|
                #![trigger now.valid()]
                now.valid() && status_marked(
                    old(self)@,
                    source_id,
                    WorktreeActivityStatus::Finished,
                    now,
                ) == (final(self)@, result),
    {
        let now = Timestamp::now();
        assert(now.valid());
        self.mark_finished_at(source_id, now)
    }

    /// Takes note that a source finished, at `now`. Says whether views are to be notified.
    pub fn mark_finished_at(&mut self, source_id: u64, now: Timestamp) -> (result: bool)
        requires
            sources_match(old(self)@),
        ensures
            sources_match(final(self)@),
            status_marked(old(self)@, source_id, WorktreeActivityStatus::Finished, now) == (
                final(self)@,
                result,
            ),
    {
        self.mark(source_id, WorktreeActivityStatus::Finished, now)
    }

    /// Takes note that a source needs attention, now. Says whether views are to be notified.
    pub fn mark_attention(&mut self, source_id: u64) -> (result: bool)
        requires
            sources_match(old(self)@),
        ensures
            sources_match(final(self)@),
            exists|now: Timestamp|
                #![trigger now.valid()]
                now.valid() && status_marked(
                    old(self)@,
                    source_id,
                    WorktreeActivityStatus::Attention,
                    now,
                ) == (final(self)@, result),
    {
        let now = Timestamp::now();
        assert(now.valid());
        self.mark_attention_at(source_id, now)
    }

    /// Takes note that a source needs attention, at `now`. Says whether views are to be notified.
    pub fn mark_attention_at(&mut self, source_id: u64, now: Timestamp) -> (result: bool)
        requires
            sources_match(old(self)@),
        ensures
            sources_match(final(self)@),
            status_marked(old(self)@, source_id, WorktreeActivityStatus::Attention, now) == (
                final(self)@,
                result,
            ),
    {
        self.mark(source_id, WorktreeActivityStatus::Attention, now)
    }

    /// Takes note that what a source told was seen, now. Says whether views are to be notified.
    pub fn acknowledge_source(&mut self, source_id: u64, still_running: bool) -> (result: bool)
        requires
            sources_match(old(self)@),
        ensures
            sources_match(final(self)@),
            exists|now: Timestamp|
                #![trigger now.valid()]
                now.valid() && acknowledged(old(self)@, source_id, still_running, now) == (
                    final(self)@,
                    result,
                ),
    {
        let now = Timestamp::now();
        assert(now.valid());
        self.acknowledge_source_at(source_id, still_running, now)
    }

    /// Takes note that what a source told was seen, at `now`. Says whether views are to be
    /// notified.
    pub fn acknowledge_source_at(
        &mut self,
        source_id: u64,
        still_running: bool,
        now: Timestamp,
    ) -> (result: bool)
        requires
            sources_match(old(self)@),
        ensures
            sources_match(final(self)@),
            acknowledged(old(self)@, source_id, still_running, now) == (final(self)@, result),
    {
        if still_running {
            let working = match self.activities_by_source.get(&source_id) {
                Some(activity) => {
                    assert(activity_of(self@, source_id) == Some(activity@));
                    activity.status == WorktreeActivityStatus::Working && !activity.acknowledged
                },
                None => {
                    return false;
                },
            };
            if working {
                return false;
            }
            self.mark(source_id, WorktreeActivityStatus::Running, now)
        } else {
            self.remove_source(source_id)
        }
    }

    /// Forgets a source. Says whether views are to be notified.
    pub fn remove_source(&mut self, source_id: u64) -> (result: bool)
        requires
            sources_match(old(self)@),
        ensures
            sources_match(final(self)@),
            removed(old(self)@, source_id) == (final(self)@, result),
    {
        let ghost before = self@;
        let gone = self.activities_by_source.remove(&source_id).is_some();
        assert(self@ =~= before.remove(source_id));
        gone
    }

    /// The activity of a worktree that is shown first.
    pub fn activity_for_worktree(
        &self,
        project_group_key: &ProjectGroupKey,
        worktree_path: &TreePath,
    ) -> (result: Option<WorktreeActivity>)
        requires
            sources_match(self@),
        ensures
            ({
                let key = KeyContents {
                    group: project_group_key.identity@,
                    worktree_path: worktree_path@,
                };
                match result {
                    Some(first) => {
                        &&& activity_of(self@, first@.source_id) == Some(first@)
                        &&& is_shown(first@, key)
                        &&& forall|source_id: u64| #[trigger]
                            self@.contains_key(source_id) && is_shown(self@[source_id], key)
                                ==> !goes_before(self@[source_id], first@)
                    },
                    None => forall|source_id: u64| #[trigger]
                        self@.contains_key(source_id) ==> !is_shown(self@[source_id], key),
                }
            }),
    {
        let activities = self.activities_for_worktree(project_group_key, worktree_path);
        let ghost key = KeyContents {
            group: project_group_key.identity@,
            worktree_path: worktree_path@,
        };
        assert forall|source_id: u64| #[trigger]
            self@.contains_key(source_id) && is_shown(self@[source_id], key) implies activities@.len()
            > 0 && !goes_before(self@[source_id], activities@[0]@) by {
            let i = choose|i: int|
                0 <= i < activities@.len() && (#[trigger] activities@[i])@.source_id == source_id;
            assert(activity_of(self@, activities@[i]@.source_id) == Some(activities@[i]@));
            if i > 0 {
                assert(!goes_before(activities@[i]@, activities@[0]@));
            }
        }
        if activities.len() > 0 {
            Some(activities[0].clone())
        } else {
            None
        }
    }

    /// The activities of a worktree, in the order in which they are shown. The order of two that
    /// are equally urgent and were updated at the same moment is open.
    pub fn activities_for_worktree(
        &self,
        project_group_key: &ProjectGroupKey,
        worktree_path: &TreePath,
    ) -> (result: Vec<WorktreeActivity>)
        requires
            sources_match(self@),
        ensures
            lists_shown(
                result@,
                self@,
                KeyContents { group: project_group_key.identity@, worktree_path: worktree_path@ },
            ),
    {
        let ghost key = KeyContents {
            group: project_group_key.identity@,
            worktree_path: worktree_path@,
        };
        let mut result: Vec<WorktreeActivity> = Vec::new();
        for id in it: self.activities_by_source.keys()
            invariant
                sources_match(self@),
                key == (KeyContents {
                    group: project_group_key.identity@,
                    worktree_path: worktree_path@,
                }),
                it.seq().unref().to_set() == self.activities_by_source@.dom(),
                it.seq().no_duplicates(),
                sorted(result@),
                forall|i: int|
                    0 <= i < result@.len() ==> activity_of(
                        self@,
                        (#[trigger] result@[i])@.source_id,
                    ) == Some(result@[i]@) && is_shown(result@[i]@, key)
                        && it.seq().unref().take(it.index() as int).contains(result@[i]@.source_id),
                forall|j: int|
                    #![trigger it.seq().unref()[j]]
                    0 <= j < it.index() && is_shown(self@[it.seq().unref()[j]], key)
                        ==> exists|i: int|
                        0 <= i < result@.len() && (#[trigger] result@[i])@.source_id
                            == it.seq().unref()[j],
                it.index() == it.seq().len() ==> lists_shown(result@, self@, key),
        {
            let ghost at = it.index() as int;
            let ghost keys = it.seq().unref();
            let ghost before = result@;
            assert(keys[at] == *id);
            assert(keys.to_set().contains(*id));
            assert(keys.take(at + 1) =~= keys.take(at).push(*id));
            assert(forall|k: u64| keys.take(at).contains(k) ==> k != *id) by {
                assert forall|k: u64| keys.take(at).contains(k) implies k != *id by {
                    let j = choose|j: int| 0 <= j < at && keys.take(at)[j] == k;
                    assert(it.seq()[j] != it.seq()[at]);
                }
            }
            if let Some(activity) = self.activities_by_source.get(id) {
                assert(activity_of(self@, *id) == Some(activity@));
                if !activity.acknowledged && activity.key.is_for(project_group_key, worktree_path) {
                    let shown = activity.clone();
                    insert_sorted(&mut result, shown);
                    assert(result@.contains(shown));
                    let ghost place = choose|i: int| 0 <= i < result@.len() && result@[i] == shown;
                    assert(result@[place]@.source_id == *id);
                    assert forall|i: int| 0 <= i < result@.len() implies (
                    #[trigger] result@[i]) == shown || before.contains(result@[i]) by {
                        assert(result@.contains(result@[i]));
                    }
                }
            }
            assert(self@.contains_key(*id));
            assert forall|i: int| 0 <= i < before.len() implies result@.contains(
                #[trigger] before[i],
            ) by {
                assert(before.contains(before[i]));
            }
            assert forall|i: int| 0 <= i < result@.len() implies keys.take(at + 1).contains(
                (#[trigger] result@[i])@.source_id,
            ) by {
                let source_id = result@[i]@.source_id;
                if source_id == *id {
                    assert(keys.take(at + 1)[at] == source_id);
                } else {
                    assert(keys.take(at).contains(source_id));
                    let j = choose|j: int| 0 <= j < at && keys.take(at)[j] == source_id;
                    assert(keys.take(at + 1)[j] == source_id);
                }
            }
            assert forall|j: int|
                #![trigger keys[j]]
                0 <= j < at + 1 && is_shown(self@[keys[j]], key) implies exists|i: int|
                0 <= i < result@.len() && (#[trigger] result@[i])@.source_id == keys[j] by {
                if j < at {
                    let i = choose|i: int|
                        0 <= i < before.len() && (#[trigger] before[i])@.source_id == keys[j];
                    assert(result@.contains(before[i]));
                    let k = choose|k: int| 0 <= k < result@.len() && result@[k] == before[i];
                    assert(result@[k]@.source_id == keys[j]);
                }
            }
            assert(at + 1 == keys.len() ==> lists_shown(result@, self@, key)) by {
                assert forall|source_id: u64| #[trigger]
                    self@.contains_key(source_id) && is_shown(self@[source_id], key) && at + 1
                        == keys.len() implies exists|i: int|
                    0 <= i < result@.len() && (#[trigger] result@[i])@.source_id == source_id by {
                    assert(keys.to_set().contains(source_id));
                    let j = choose|j: int| 0 <= j < keys.len() && keys[j] == source_id;
                    assert(keys[j] == source_id);
                }
            }
        }
        result
    }
}

} // verus!
