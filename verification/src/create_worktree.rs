//! Creating worktrees for a project, from the listing of those that there are to the record of
//! those that were created: what to do next, and what its outcome leads to.
use vstd::prelude::*;

use crate::branch;
use crate::branch::{
    resolve_worktree_branch_target, BranchContents, NewWorktreeBranchTarget, RemoteBranchFetchMode,
    TargetContents, WorktreeFetchError,
};
use crate::creation;
use crate::creation::{
    await_and_rollback_on_failure, copy_paths, copy_remapping, existing_worktree_names,
    existing_worktree_paths, resolve_worktree_name, start_worktree_creations, CreationAction, CreationContents,
    CreationEvent, CreationTarget, CreationTargetContents, CreationWait, RemovalAction,
    RemovalContents, RemovalEvent, Rollback, RollbackState, WaitState,
};
use crate::include_copy;
use crate::include_copy::{
    ActionContents, CopiesState, CopyAction, CopyEvent, EventContents, IncludeCopies,
};
use crate::path;
use crate::path::TreePath;
use crate::terminal_thread;
use crate::text;

verus! {

/// What was said of a fetch that failed, in short and in full.
pub struct FetchFailure {
    pub source: String,
    pub source_chain: String,
}

/// What came of the fetches, in the order of the repositories.
pub open spec fn fetch_results(results: Seq<Result<(), FetchFailure>>) -> Seq<
    Option<(Seq<char>, Seq<char>)>,
> {
    results.map_values(
        |result: Result<(), FetchFailure>|
            match result {
                Ok(_) => None,
                Err(failure) => Some((failure.source@, failure.source_chain@)),
            },
    )
}

/// What was said of the first fetch that failed.
pub open spec fn first_fetch_failure(results: Seq<Option<(Seq<char>, Seq<char>)>>) -> Option<
    (Seq<char>, Seq<char>),
>
    decreases results.len(),
{
    if results.len() == 0 {
        None
    } else {
        match results[0] {
            Some(failure) => Some(failure),
            None => first_fetch_failure(results.skip(1)),
        }
    }
}

/// Why worktrees could not be created.
pub enum CreateFailure {
    /// The branch could not be fetched.
    Fetch(WorktreeFetchError),
    /// Anything else, with what to tell.
    Other(String),
}

/// The contents of a `CreateFailure`.
pub enum FailureContents {
    Fetch { branch: BranchContents, source: Seq<char>, source_chain: Seq<char> },
    Other(Seq<char>),
}

impl View for CreateFailure {
    type V = FailureContents;

    open spec fn view(&self) -> FailureContents {
        match *self {
            CreateFailure::Fetch(error) => FailureContents::Fetch {
                branch: error.branch(),
                source: error.source@,
                source_chain: error.source_chain@,
            },
            CreateFailure::Other(message) => FailureContents::Other(message@),
        }
    }
}

impl CreateFailure {
    fn copy(&self) -> (result: CreateFailure)
        ensures
            result@ == self@,
    {
        match self {
            CreateFailure::Fetch(error) => CreateFailure::Fetch(
                WorktreeFetchError {
                    remote_name: error.remote_name.clone(),
                    branch_name: error.branch_name.clone(),
                    source: error.source.clone(),
                    source_chain: error.source_chain.clone(),
                },
            ),
            CreateFailure::Other(message) => CreateFailure::Other(message.clone()),
        }
    }
}

/// What worktrees are created for: how many repositories, the name that was asked for, the branch
/// that they are based on, whether it is fetched before, for how many repositories credentials
/// can be asked for, and whether the project is on another machine.
pub struct CreatePlan {
    pub repository_count: usize,
    pub worktree_name: Option<String>,
    pub branch_target: NewWorktreeBranchTarget,
    pub fetch_mode: RemoteBranchFetchMode,
    pub askpass_count: usize,
    pub is_remote: bool,
}

/// The contents of a `CreatePlan`.
#[verifier::ext_equal]
pub struct PlanContents {
    pub repository_count: int,
    pub worktree_name: Option<Seq<char>>,
    pub branch_target: TargetContents,
    pub fetch_mode: RemoteBranchFetchMode,
    pub askpass_count: int,
    pub is_remote: bool,
}

impl View for CreatePlan {
    type V = PlanContents;

    open spec fn view(&self) -> PlanContents {
        PlanContents {
            repository_count: self.repository_count as int,
            worktree_name: text::string_option(self.worktree_name),
            branch_target: self.branch_target@,
            fetch_mode: self.fetch_mode,
            askpass_count: self.askpass_count as int,
            is_remote: self.is_remote,
        }
    }
}

/// How far the creation has come.
pub enum CreateStage {
    /// The worktrees that there are are listed.
    Listing,
    /// The branch is fetched in every repository.
    Fetching,
    /// A name is made up.
    Naming,
    /// The path of the new worktree of each repository is chosen.
    Choosing,
    /// The creations are started. What speaks against the rest, if anything does.
    Starting(Option<Seq<char>>),
    /// The creations are waited for.
    Creating(WaitState),
    /// Files are copied into the new worktrees.
    Copying(CopiesState),
    /// The worktrees are taken back, for the reason given.
    RollingBack(Seq<char>, RollbackState),
    /// The created worktrees are recorded.
    Recording,
    /// The worktrees are created, or why not.
    Finished(Result<(), FailureContents>),
}

/// The state of the creation: the paths of the worktrees that there were, the name of the new
/// ones, how the directories of the project are mapped to them, the repositories whose worktrees
/// are created, their paths, the paths that were created, and how far it has come.
#[verifier::ext_equal]
pub struct CreateState {
    pub existing: Seq<Seq<char>>,
    pub name: Seq<char>,
    pub remapping: Seq<(Seq<char>, Seq<char>)>,
    pub creations: Seq<int>,
    pub paths: Seq<Seq<char>>,
    pub created: Seq<Seq<char>>,
    pub stage: CreateStage,
}

impl CreateState {
    /// Whether fewer worktrees were created than directories are mapped.
    pub open spec fn consolidated(self) -> bool {
        self.remapping.len() > self.created.len()
    }
}

/// The start of the creation.
pub open spec fn create_start() -> CreateState {
    CreateState {
        existing: Seq::empty(),
        name: Seq::empty(),
        remapping: Seq::empty(),
        creations: Seq::empty(),
        paths: Seq::empty(),
        created: Seq::empty(),
        stage: CreateStage::Listing,
    }
}

/// What came of what was to be done.
pub enum CreateEvent {
    /// The worktrees of each repository, or what was said where they could not be listed.
    Listed(Vec<Result<Vec<TreePath>, String>>),
    /// What came of the fetch in each repository.
    Fetched(Vec<Result<(), FetchFailure>>),
    /// A name, if one could be made up.
    Named(Option<String>),
    /// The target of each repository.
    Chosen(Vec<CreationTarget>),
    /// The creations were started.
    Started,
    /// What came of the creations.
    Creation(CreationEvent),
    /// What came of the copying.
    Copy(CopyEvent),
    /// What came of taking a worktree back.
    Removal(RemovalEvent),
    /// The worktrees were recorded.
    Recorded,
    /// The window was gone, with what was said of it.
    WindowGone(String),
}

/// The contents of a `CreateEvent`.
pub enum CreateEventContents {
    Listed(Seq<Result<Seq<Seq<char>>, Seq<char>>>),
    Fetched(Seq<Option<(Seq<char>, Seq<char>)>>),
    Named(Option<Seq<char>>),
    Chosen(Seq<CreationTargetContents>),
    Started,
    Creation(CreationContents),
    Copy(EventContents),
    Removal(RemovalContents),
    Recorded,
    WindowGone(Seq<char>),
}

impl View for CreateEvent {
    type V = CreateEventContents;

    open spec fn view(&self) -> CreateEventContents {
        match *self {
            CreateEvent::Listed(listings) => CreateEventContents::Listed(
                creation::listings_contents(listings@),
            ),
            CreateEvent::Fetched(results) => CreateEventContents::Fetched(fetch_results(results@)),
            CreateEvent::Named(name) => CreateEventContents::Named(text::string_option(name)),
            CreateEvent::Chosen(targets) => CreateEventContents::Chosen(
                creation::target_contents(targets@),
            ),
            CreateEvent::Started => CreateEventContents::Started,
            CreateEvent::Creation(event) => CreateEventContents::Creation(event@),
            CreateEvent::Copy(event) => CreateEventContents::Copy(event@),
            CreateEvent::Removal(event) => CreateEventContents::Removal(event@),
            CreateEvent::Recorded => CreateEventContents::Recorded,
            CreateEvent::WindowGone(message) => CreateEventContents::WindowGone(message@),
        }
    }
}

/// Whether the names that an event tells of are such.
pub open spec fn event_well_formed(event: CreateEventContents) -> bool {
    match event {
        CreateEventContents::Copy(EventContents::Entries(names)) => include_copy::are_names(names),
        _ => true,
    }
}

/// The paths of the targets at positions.
pub open spec fn paths_at(targets: Seq<CreationTargetContents>, creations: Seq<int>) -> Seq<
    Seq<char>,
> {
    creations.map_values(|at: int| creation::target_path(targets[at]))
}

impl PlanContents {
    /// The branch that is fetched, if one is.
    pub open spec fn fetched_branch(self) -> Option<BranchContents> {
        branch::branch_to_fetch(self.branch_target, self.fetch_mode)
    }

    /// A failure to fetch.
    pub open spec fn fetch_failure(
        self,
        branch: BranchContents,
        source: Seq<char>,
        source_chain: Seq<char>,
    ) -> CreateStage {
        CreateStage::Finished(Err(FailureContents::Fetch { branch, source, source_chain }))
    }

    /// The state in which a name is made up, unless one was asked for.
    pub open spec fn naming(self, state: CreateState) -> CreateState {
        match self.worktree_name {
            Some(name) => CreateState { name, stage: CreateStage::Choosing, ..state },
            None => CreateState { stage: CreateStage::Naming, ..state },
        }
    }

    /// The state after the worktrees that there are were listed.
    pub open spec fn listed(
        self,
        state: CreateState,
        listings: Seq<Result<Seq<Seq<char>>, Seq<char>>>,
    ) -> CreateState {
        let listed = CreateState { existing: creation::listed_paths(listings), ..state };
        match self.fetched_branch() {
            None => self.naming(listed),
            Some(branch) => if self.askpass_count != self.repository_count {
                let message = "Unable to fetch "@ + branch.remote_name
                    + ": missing credential prompt delegate"@;
                CreateState { stage: self.fetch_failure(branch, message, message), ..listed }
            } else {
                CreateState { stage: CreateStage::Fetching, ..listed }
            },
        }
    }

    /// The state after the branch was fetched.
    pub open spec fn fetched(
        self,
        state: CreateState,
        results: Seq<Option<(Seq<char>, Seq<char>)>>,
    ) -> CreateState {
        match (first_fetch_failure(results), self.fetched_branch()) {
            (Some((source, source_chain)), Some(branch)) => CreateState {
                stage: self.fetch_failure(branch, source, source_chain),
                ..state
            },
            _ => self.naming(state),
        }
    }

    /// The state after the targets were chosen.
    pub open spec fn chosen(
        self,
        state: CreateState,
        targets: Seq<CreationTargetContents>,
    ) -> CreateState {
        let schedule = creation::scheduled(targets, state.existing);
        CreateState {
            remapping: schedule.remapping,
            creations: schedule.creations,
            paths: paths_at(targets, schedule.creations),
            stage: CreateStage::Starting(schedule.error),
            ..state
        }
    }

    /// The state while the creations are waited for. Once all are there, files are copied, unless
    /// the project is on another machine.
    pub open spec fn waiting(self, state: CreateState, wait: WaitState) -> CreateState {
        match wait.stage {
            creation::WaitStage::Finished(Ok(created)) => self.copying(
                CreateState { created, ..state },
                include_copy::copies_from(state.remapping, 0),
            ),
            creation::WaitStage::Finished(Err(message)) => CreateState {
                stage: CreateStage::Finished(Err(FailureContents::Other(message))),
                ..state
            },
            _ => CreateState { stage: CreateStage::Creating(wait), ..state },
        }
    }

    /// The state while files are copied. Where that fails, the worktrees are taken back.
    pub open spec fn copying(self, state: CreateState, copies: CopiesState) -> CreateState {
        if self.is_remote {
            CreateState { stage: CreateStage::Recording, ..state }
        } else {
            match copies {
                CopiesState::Finished(Ok(_)) => CreateState {
                    stage: CreateStage::Recording,
                    ..state
                },
                CopiesState::Finished(Err(message)) => self.rolling_back(
                    state,
                    "Failed to copy worktree setup files: "@ + message,
                    creation::rollback_start(),
                ),
                CopiesState::Copying(_, _) => CreateState {
                    stage: CreateStage::Copying(copies),
                    ..state
                },
            }
        }
    }

    /// The state while the worktrees are taken back.
    pub open spec fn rolling_back(
        self,
        state: CreateState,
        message: Seq<char>,
        rollback: RollbackState,
    ) -> CreateState {
        CreateState {
            stage: if rollback.at >= state.paths.len() {
                CreateStage::Finished(
                    Err(
                        FailureContents::Other(
                            creation::with_cleanup_failures(message, rollback.failures),
                        ),
                    ),
                )
            } else {
                CreateStage::RollingBack(message, rollback)
            },
            ..state
        }
    }

    /// The state after the window was gone, which matters only until the creations are started.
    pub open spec fn window_gone(self, state: CreateState, message: Seq<char>) -> CreateState {
        match (state.stage, self.fetched_branch()) {
            (CreateStage::Fetching, Some(branch)) => CreateState {
                stage: self.fetch_failure(branch, message, message),
                ..state
            },
            (
                CreateStage::Listing
                | CreateStage::Naming
                | CreateStage::Choosing
                | CreateStage::Starting(_),
                _,
            ) => CreateState {
                stage: CreateStage::Finished(Err(FailureContents::Other(message))),
                ..state
            },
            _ => state,
        }
    }

    /// The state that an event leads to. One that is not about what was to be done changes
    /// nothing.
    pub open spec fn next(self, state: CreateState, event: CreateEventContents) -> CreateState {
        match (state.stage, event) {
            (_, CreateEventContents::WindowGone(message)) => self.window_gone(state, message),
            (CreateStage::Listing, CreateEventContents::Listed(listings)) => self.listed(
                state,
                listings,
            ),
            (CreateStage::Fetching, CreateEventContents::Fetched(results)) => self.fetched(
                state,
                results,
            ),
            (CreateStage::Naming, CreateEventContents::Named(generated)) => CreateState {
                name: creation::worktree_name(None, generated),
                stage: CreateStage::Choosing,
                ..state
            },
            (CreateStage::Choosing, CreateEventContents::Chosen(targets)) => self.chosen(
                state,
                targets,
            ),
            (CreateStage::Starting(Some(message)), CreateEventContents::Started) => CreateState {
                stage: CreateStage::Finished(Err(FailureContents::Other(message))),
                ..state
            },
            (CreateStage::Starting(None), CreateEventContents::Started) => self.waiting(
                state,
                creation::wait_start(state.paths),
            ),
            (CreateStage::Creating(wait), CreateEventContents::Creation(event)) => self.waiting(
                state,
                wait.next(state.paths, event),
            ),
            (CreateStage::Copying(copies), CreateEventContents::Copy(event)) => self.copying(
                state,
                copies.next(state.remapping, event),
            ),
            (CreateStage::RollingBack(message, rollback), CreateEventContents::Removal(event)) =>
                self.rolling_back(state, message, rollback.next(state.paths, event)),
            (CreateStage::Recording, CreateEventContents::Recorded) => CreateState {
                stage: CreateStage::Finished(Ok(())),
                ..state
            },
            _ => state,
        }
    }

    /// Whether a state can be reached: a branch is fetched only where one is to be; files are
    /// copied only on this machine; nothing is recorded before every worktree was created; and
    /// worktrees are taken back only after they were created. The worktrees have different paths,
    /// and there are fewer of them than mapped directories just where two directories are mapped to
    /// one path.
    pub open spec fn valid(self, state: CreateState) -> bool {
        &&& state.paths.len() <= state.remapping.len()
        &&& state.paths.len() < state.remapping.len() <==> creation::shares_worktree(
            state.remapping,
        )
        &&& path::are_different(state.paths)
        &&& match state.stage {
            CreateStage::Fetching => self.fetched_branch() is Some,
            CreateStage::Creating(wait) => wait.valid(state.paths) && !(wait.stage is Finished),
            CreateStage::Copying(copies) => !self.is_remote && copies is Copying && all_created(
                state,
            ),
            CreateStage::RollingBack(_, rollback) => all_created(state) && rollback.valid(
                state.paths.len(),
            ) && rollback.at < state.paths.len(),
            CreateStage::Recording => all_created(state),
            CreateStage::Finished(Ok(_)) => all_created(state),
            _ => true,
        }
    }
}

/// Whether every worktree that was to be created was, each of them once.
pub open spec fn all_created(state: CreateState) -> bool {
    state.created.to_multiset() == state.paths.to_multiset() && state.created.len()
        == state.paths.len()
}

proof fn lemma_chosen_valid(
    plan: PlanContents,
    state: CreateState,
    targets: Seq<CreationTargetContents>,
)
    ensures
        plan.valid(plan.chosen(state, targets)),
{
    let schedule = creation::scheduled(targets, state.existing);
    let paths = paths_at(targets, schedule.creations);
    creation::each_worktree_is_created_once(targets, state.existing);
    assert forall|i: int, j: int| 0 <= i < j < paths.len() implies !path::is_same(
        #[trigger] paths[i],
        #[trigger] paths[j],
    ) by {
        assert(paths[i] == creation::target_path(targets[schedule.creations[i]]));
        assert(paths[j] == creation::target_path(targets[schedule.creations[j]]));
    }
}

/// Whatever happens, only states come about in which a branch is fetched only where one is to be,
/// files are copied only on this machine, nothing is recorded or said to be done before every
/// worktree was created, each of them once, and only what was created is taken back for files that
/// could not be copied.
pub proof fn creation_stays_valid(
    plan: PlanContents,
    state: CreateState,
    event: CreateEventContents,
)
    requires
        plan.valid(state),
        event_well_formed(event),
    ensures
        plan.valid(plan.next(state, event)),
{
    match (state.stage, event) {
        (CreateStage::Choosing, CreateEventContents::Chosen(targets)) => {
            lemma_chosen_valid(plan, state, targets);
        },
        (CreateStage::Starting(None), CreateEventContents::Started) => {
            creation::wait_start_is_valid(state.paths);
            creation::finished_wait_created_all(state.paths, creation::wait_start(state.paths));
        },
        (CreateStage::Creating(wait), CreateEventContents::Creation(creation_event)) => {
            creation::all_or_nothing_is_created(state.paths, wait, creation_event);
        },
        _ => {},
    }
}

/// The creation is said to have brought several directories together just where two of them are
/// mapped to one new worktree, and never where each has its own.
pub proof fn consolidation_is_told(plan: PlanContents, state: CreateState)
    requires
        plan.valid(state),
        state.stage matches CreateStage::Finished(Ok(_)),
    ensures
        state.consolidated() <==> creation::shares_worktree(state.remapping),
        state.created.len() <= state.remapping.len(),
{
}

/// A fetch that fails in any repository ends the creation before any worktree is created.
pub proof fn failed_fetch_creates_nothing(
    plan: PlanContents,
    state: CreateState,
    results: Seq<Option<(Seq<char>, Seq<char>)>>,
    at: int,
)
    requires
        plan.valid(state),
        state.stage is Fetching,
        0 <= at < results.len(),
        results[at] is Some,
    ensures
        plan.next(state, CreateEventContents::Fetched(results)).stage matches CreateStage::Finished(
            Err(FailureContents::Fetch { branch, .. }),
        ) && Some(branch) == plan.fetched_branch(),
        plan.next(state, CreateEventContents::Fetched(results)).created == state.created,
{
    lemma_first_fetch_failure(results, at);
}

proof fn lemma_first_fetch_failure(results: Seq<Option<(Seq<char>, Seq<char>)>>, at: int)
    requires
        0 <= at < results.len(),
        results[at] is Some,
    ensures
        first_fetch_failure(results) is Some,
    decreases results.len(),
{
    if results[0] is None {
        assert(results.skip(1)[at - 1] == results[at]);
        lemma_first_fetch_failure(results.skip(1), at - 1);
    }
}

/// Where files cannot be copied, the creation does not end before every worktree that was created
/// was dealt with.
pub proof fn failed_copy_takes_worktrees_back(
    plan: PlanContents,
    state: CreateState,
    event: CreateEventContents,
)
    requires
        plan.valid(state),
        state.paths.len() > 0,
        state.stage is Copying || state.stage is RollingBack,
        plan.next(state, event).stage is Finished,
    ensures
        state.stage matches CreateStage::RollingBack(_, rollback) && rollback.requested
            && rollback.at + 1 == state.paths.len(),
        plan.next(state, event).stage matches CreateStage::Finished(Err(_)),
{
}

/// What is to be done next.
pub enum CreateAction {
    /// List the worktrees of every repository.
    ListWorktrees,
    /// Fetch from a remote in every repository.
    Fetch { remote_name: String },
    /// Make up a name that is not among those that there are.
    MakeUpName { existing: Vec<String> },
    /// Choose the path of the new worktree of each repository, by its name.
    ChooseTargets { name: String },
    /// Start the creation of worktrees at paths, in the repositories at positions, detached from
    /// any branch and based on a reference, or on the current head; then show the name of the
    /// worktrees, if one is given.
    StartCreations {
        repositories: Vec<usize>,
        paths: Vec<TreePath>,
        base_ref: Option<String>,
        shown_name: Option<String>,
    },
    /// See to the creations, the positions being those among the creations.
    Creation(CreationAction),
    /// See to the copying.
    Copy(CopyAction),
    /// Take a worktree back, the position being that among the creations.
    Removal(RemovalAction),
    /// Record the created worktrees of the repositories at positions, and then show that they are
    /// loaded.
    Record { repositories: Vec<usize>, paths: Vec<TreePath> },
}

/// The contents of a `CreateAction`.
pub enum CreateActionContents {
    ListWorktrees,
    Fetch { remote_name: Seq<char> },
    MakeUpName { existing: Seq<Seq<char>> },
    ChooseTargets { name: Seq<char> },
    StartCreations {
        repositories: Seq<int>,
        paths: Seq<Seq<char>>,
        base_ref: Option<Seq<char>>,
        shown_name: Option<Seq<char>>,
    },
    Creation(CreationAction),
    Copy(ActionContents),
    Removal(RemovalAction),
    Record { repositories: Seq<int>, paths: Seq<Seq<char>> },
}

impl View for CreateAction {
    type V = CreateActionContents;

    open spec fn view(&self) -> CreateActionContents {
        match *self {
            CreateAction::ListWorktrees => CreateActionContents::ListWorktrees,
            CreateAction::Fetch { remote_name } => CreateActionContents::Fetch {
                remote_name: remote_name@,
            },
            CreateAction::MakeUpName { existing } => CreateActionContents::MakeUpName {
                existing: text::strings(existing@),
            },
            CreateAction::ChooseTargets { name } => CreateActionContents::ChooseTargets {
                name: name@,
            },
            CreateAction::StartCreations { repositories, paths, base_ref, shown_name } =>
                CreateActionContents::StartCreations {
                repositories: creation::positions(repositories@),
                paths: terminal_thread::path_contents(paths@),
                base_ref: text::string_option(base_ref),
                shown_name: text::string_option(shown_name),
            },
            CreateAction::Creation(action) => CreateActionContents::Creation(action),
            CreateAction::Copy(action) => CreateActionContents::Copy(action@),
            CreateAction::Removal(action) => CreateActionContents::Removal(action),
            CreateAction::Record { repositories, paths } => CreateActionContents::Record {
                repositories: creation::positions(repositories@),
                paths: terminal_thread::path_contents(paths@),
            },
        }
    }
}

/// The reference that worktrees are based on.
pub open spec fn base_reference(target: TargetContents) -> Option<Seq<char>> {
    match target {
        TargetContents::CurrentBranch => None,
        TargetContents::ExistingBranch(name) => Some(name),
        TargetContents::RemoteBranch(branch) => Some(branch.reference()),
    }
}

impl PlanContents {
    /// What is to be done in a state.
    pub open spec fn action(self, state: CreateState) -> Option<CreateActionContents> {
        match state.stage {
            CreateStage::Listing => Some(CreateActionContents::ListWorktrees),
            CreateStage::Fetching => Some(
                CreateActionContents::Fetch { remote_name: self.fetched_branch()->0.remote_name },
            ),
            CreateStage::Naming => Some(
                CreateActionContents::MakeUpName { existing: creation::names_at(state.existing) },
            ),
            CreateStage::Choosing => Some(
                CreateActionContents::ChooseTargets { name: state.name },
            ),
            CreateStage::Starting(error) => Some(
                CreateActionContents::StartCreations {
                    repositories: state.creations,
                    paths: state.paths,
                    base_ref: base_reference(self.branch_target),
                    shown_name: if error is Some {
                        None
                    } else {
                        Some(state.name)
                    },
                },
            ),
            CreateStage::Creating(wait) => Some(
                CreateActionContents::Creation(
                    match wait.stage {
                        creation::WaitStage::RollingBack(_, rollback) => CreationAction::Removal(
                            rollback.action(state.paths.len())->0,
                        ),
                        _ => CreationAction::AwaitCreation,
                    },
                ),
            ),
            CreateStage::Copying(copies) => match copies {
                CopiesState::Copying(at, copy) => match include_copy::plan_of(
                    state.remapping[at],
                ).action(copy.stage) {
                    Some(action) => Some(CreateActionContents::Copy(action)),
                    None => None,
                },
                CopiesState::Finished(_) => None,
            },
            CreateStage::RollingBack(_, rollback) => Some(
                CreateActionContents::Removal(rollback.action(state.paths.len())->0),
            ),
            CreateStage::Recording => Some(
                CreateActionContents::Record { repositories: state.creations, paths: state.paths },
            ),
            CreateStage::Finished(_) => None,
        }
    }
}

/// The worktrees that are started are based on the branch that was chosen: on the current head only
/// for the current branch, on the branch itself for an existing one, and on the remote-tracking
/// reference for a branch of a remote. They are those that are to be created, at their paths, and
/// their name is shown unless something speaks against one of them.
pub proof fn creations_start_from_the_chosen_branch(plan: PlanContents, state: CreateState)
    requires
        state.stage is Starting,
    ensures
        plan.action(state) matches Some(
            CreateActionContents::StartCreations { repositories, paths, base_ref, shown_name },
        ) && {
            &&& base_ref is None <==> plan.branch_target is CurrentBranch
            &&& plan.branch_target matches TargetContents::ExistingBranch(name) ==> base_ref
                == Some(name)
            &&& plan.branch_target matches TargetContents::RemoteBranch(branch) ==> base_ref
                == Some("refs/remotes/"@ + (branch.remote_name + "/"@ + branch.branch_name))
            &&& repositories == state.creations
            &&& paths == state.paths
            &&& state.stage == CreateStage::Starting(None) ==> shown_name == Some(state.name)
            &&& state.stage != CreateStage::Starting(None) ==> shown_name is None
        },
{
}

/// Two plans that name different existing branches start from different references, and neither from
/// the current head.
pub proof fn different_branches_start_differently(
    a: PlanContents,
    b: PlanContents,
    state: CreateState,
    first: Seq<char>,
    second: Seq<char>,
)
    requires
        state.stage is Starting,
        a.branch_target == TargetContents::ExistingBranch(first),
        b.branch_target == TargetContents::ExistingBranch(second),
        first != second,
    ensures
        a.action(state) != b.action(state),
        a.action(state) != (PlanContents {
            branch_target: TargetContents::CurrentBranch,
            ..a
        }).action(state),
{
}

/// The state that events lead to, one after the other, from the start.
pub open spec fn create_after(plan: PlanContents, events: Seq<CreateEventContents>) -> CreateState
    decreases events.len(),
{
    if events.len() == 0 {
        create_start()
    } else {
        plan.next(create_after(plan, events.drop_last()), events.last())
    }
}

/// Whether an event came where an action was to be done.
pub open spec fn was_answered(
    plan: PlanContents,
    events: Seq<CreateEventContents>,
    action: CreateActionContents,
    event: CreateEventContents,
) -> bool {
    exists|i: int|
        0 <= i < events.len() && plan.action(create_after(plan, #[trigger] events.take(i)))
            == Some(action) && events[i] == event
}

proof fn lemma_was_answered_stays(
    plan: PlanContents,
    events: Seq<CreateEventContents>,
    action: CreateActionContents,
    event: CreateEventContents,
)
    requires
        events.len() > 0,
    ensures
        was_answered(plan, events.drop_last(), action, event) ==> was_answered(
            plan,
            events,
            action,
            event,
        ),
        plan.action(create_after(plan, events.drop_last())) == Some(action) && events.last()
            == event ==> was_answered(plan, events, action, event),
{
    let rest = events.drop_last();
    if was_answered(plan, rest, action, event) {
        let i = choose|i: int|
            0 <= i < rest.len() && plan.action(create_after(plan, #[trigger] rest.take(i)))
                == Some(action) && rest[i] == event;
        assert(events.take(i) =~= rest.take(i));
        assert(events[i] == rest[i]);
    }
    assert(events.take(rest.len() as int) =~= rest);
    assert(events[rest.len() as int] == events.last());
}

proof fn lemma_no_fetch_failure(results: Seq<Option<(Seq<char>, Seq<char>)>>)
    requires
        first_fetch_failure(results) is None,
    ensures
        forall|i: int| 0 <= i < results.len() ==> #[trigger] results[i] is None,
{
    assert forall|i: int| 0 <= i < results.len() implies #[trigger] results[i] is None by {
        if results[i] is Some {
            lemma_first_fetch_failure(results, i);
        }
    }
}

/// Whether the branch of a remote was fetched in every repository, and every fetch went well.
pub open spec fn was_fetched(
    plan: PlanContents,
    events: Seq<CreateEventContents>,
    remote_name: Seq<char>,
) -> bool {
    exists|results: Seq<Option<(Seq<char>, Seq<char>)>>| #[trigger]
        was_answered(
            plan,
            events,
            CreateActionContents::Fetch { remote_name },
            CreateEventContents::Fetched(results),
        ) && forall|i: int| 0 <= i < results.len() ==> #[trigger] results[i] is None
}

/// Whether the worktrees of a state were started.
spec fn was_started(
    plan: PlanContents,
    events: Seq<CreateEventContents>,
    state: CreateState,
) -> bool {
    exists|name: Seq<char>| #[trigger]
        was_answered(
            plan,
            events,
            CreateActionContents::StartCreations {
                repositories: state.creations,
                paths: state.paths,
                base_ref: base_reference(plan.branch_target),
                shown_name: Some(name),
            },
            CreateEventContents::Started,
        )
}

proof fn lemma_create_reached(plan: PlanContents, events: Seq<CreateEventContents>)
    ensures
        ({
            let state = create_after(plan, events);
            let stage = state.stage;
            let ahead = stage is Naming || stage is Choosing || stage is Starting;
            let started = stage is Creating || stage is Copying || stage is RollingBack
                || stage is Recording || (stage matches CreateStage::Finished(Ok(_)));
            &&& ahead || started ==> (plan.fetched_branch() matches Some(branch) ==> was_fetched(
                plan,
                events,
                branch.remote_name,
            ))
            &&& started ==> was_started(plan, events, state)
            &&& (stage matches CreateStage::Finished(Ok(_))) ==> was_answered(
                plan,
                events,
                CreateActionContents::Record { repositories: state.creations, paths: state.paths },
                CreateEventContents::Recorded,
            )
        }),
    decreases events.len(),
{
    if events.len() > 0 {
        let rest = events.drop_last();
        lemma_create_reached(plan, rest);
        let before = create_after(plan, rest);
        let state = create_after(plan, events);
        let event = events.last();
        if let Some(branch) = plan.fetched_branch() {
            let fetch = CreateActionContents::Fetch { remote_name: branch.remote_name };
            if was_fetched(plan, rest, branch.remote_name) {
                let results = choose|results: Seq<Option<(Seq<char>, Seq<char>)>>| #[trigger]
                    was_answered(plan, rest, fetch, CreateEventContents::Fetched(results))
                        && forall|i: int| 0 <= i < results.len() ==> #[trigger] results[i] is None;
                lemma_was_answered_stays(
                    plan,
                    events,
                    fetch,
                    CreateEventContents::Fetched(results),
                );
                assert(was_fetched(plan, events, branch.remote_name));
            }
            if let (CreateStage::Fetching, CreateEventContents::Fetched(results)) = (
                before.stage,
                event,
            ) {
                lemma_was_answered_stays(plan, events, fetch, event);
                if first_fetch_failure(results) is None {
                    lemma_no_fetch_failure(results);
                    assert(was_fetched(plan, events, branch.remote_name));
                }
            }
        }
        if was_started(plan, rest, before) && state.creations == before.creations && state.paths
            == before.paths {
            let name = choose|name: Seq<char>| #[trigger]
                was_answered(
                    plan,
                    rest,
                    CreateActionContents::StartCreations {
                        repositories: before.creations,
                        paths: before.paths,
                        base_ref: base_reference(plan.branch_target),
                        shown_name: Some(name),
                    },
                    CreateEventContents::Started,
                );
            lemma_was_answered_stays(
                plan,
                events,
                CreateActionContents::StartCreations {
                    repositories: before.creations,
                    paths: before.paths,
                    base_ref: base_reference(plan.branch_target),
                    shown_name: Some(name),
                },
                CreateEventContents::Started,
            );
        }
        if before.stage == CreateStage::Starting(None) && event is Started {
            lemma_was_answered_stays(
                plan,
                events,
                CreateActionContents::StartCreations {
                    repositories: before.creations,
                    paths: before.paths,
                    base_ref: base_reference(plan.branch_target),
                    shown_name: Some(before.name),
                },
                event,
            );
        }
        lemma_was_answered_stays(
            plan,
            events,
            CreateActionContents::Record { repositories: state.creations, paths: state.paths },
            CreateEventContents::Recorded,
        );
    }
}

/// A branch of a remote that is to be fetched is fetched before anything is created from it, in
/// every repository and without a failure.
pub proof fn fetch_comes_before_creation(
    plan: PlanContents,
    events: Seq<CreateEventContents>,
    branch: BranchContents,
)
    requires
        plan.branch_target == TargetContents::RemoteBranch(branch),
        plan.fetch_mode == RemoteBranchFetchMode::Fetch,
        plan.action(create_after(plan, events)) matches Some(
            CreateActionContents::StartCreations { .. },
        ),
    ensures
        was_fetched(plan, events, branch.remote_name),
{
    lemma_create_reached(plan, events);
}

/// The creation ends well only after the worktrees were started from the branch that was chosen,
/// each of them was created, just as often as it was to be, and all of them were recorded.
pub proof fn finished_creation_did_everything(
    plan: PlanContents,
    events: Seq<CreateEventContents>,
)
    requires
        forall|i: int| 0 <= i < events.len() ==> event_well_formed(#[trigger] events[i]),
        create_after(plan, events).stage matches CreateStage::Finished(Ok(_)),
    ensures
        ({
            let state = create_after(plan, events);
            &&& state.created.to_multiset() == state.paths.to_multiset()
            &&& was_answered(
                plan,
                events,
                CreateActionContents::Record { repositories: state.creations, paths: state.paths },
                CreateEventContents::Recorded,
            )
            &&& exists|base_ref: Option<Seq<char>>, name: Seq<char>| #[trigger]
                was_answered(
                    plan,
                    events,
                    CreateActionContents::StartCreations {
                        repositories: state.creations,
                        paths: state.paths,
                        base_ref,
                        shown_name: Some(name),
                    },
                    CreateEventContents::Started,
                ) && (plan.branch_target matches TargetContents::ExistingBranch(chosen) ==> base_ref
                    == Some(chosen)) && (plan.branch_target matches TargetContents::RemoteBranch(
                    branch,
                ) ==> base_ref == Some(
                    "refs/remotes/"@ + (branch.remote_name + "/"@ + branch.branch_name),
                )) && (plan.branch_target is CurrentBranch ==> base_ref is None)
        }),
{
    lemma_create_reached(plan, events);
    lemma_create_stays_valid(plan, events);
    let state = create_after(plan, events);
    let name = choose|name: Seq<char>| #[trigger]
        was_answered(
            plan,
            events,
            CreateActionContents::StartCreations {
                repositories: state.creations,
                paths: state.paths,
                base_ref: base_reference(plan.branch_target),
                shown_name: Some(name),
            },
            CreateEventContents::Started,
        );
    assert(was_answered(
        plan,
        events,
        CreateActionContents::StartCreations {
            repositories: state.creations,
            paths: state.paths,
            base_ref: base_reference(plan.branch_target),
            shown_name: Some(name),
        },
        CreateEventContents::Started,
    ));
}

proof fn lemma_create_stays_valid(plan: PlanContents, events: Seq<CreateEventContents>)
    requires
        forall|i: int| 0 <= i < events.len() ==> event_well_formed(#[trigger] events[i]),
    ensures
        plan.valid(create_after(plan, events)),
    decreases events.len(),
{
    if events.len() > 0 {
        let rest = events.drop_last();
        assert forall|i: int| 0 <= i < rest.len() implies event_well_formed(#[trigger] rest[i]) by {
            assert(rest[i] == events[i]);
        }
        lemma_create_stays_valid(plan, rest);
        assert(event_well_formed(events[events.len() - 1]));
        creation_stays_valid(plan, create_after(plan, rest), events.last());
    } else {
        assert(!creation::shares_worktree(create_start().remapping));
    }
}

/// The creation begins with a listing of the worktrees of every repository. Then a branch of a remote
/// is fetched where it is to be, which takes a way to ask for credentials for each repository; where
/// there is none, that is told, and nothing is created.
pub proof fn listing_leads_to_the_fetch(
    plan: PlanContents,
    listings: Seq<Result<Seq<Seq<char>>, Seq<char>>>,
)
    ensures
        ({
            let state = create_after(plan, seq![CreateEventContents::Listed(listings)]);
            let fetches = plan.branch_target is RemoteBranch && plan.fetch_mode
                == RemoteBranchFetchMode::Fetch;
            let branch = plan.branch_target->RemoteBranch_0;
            let missing = "Unable to fetch "@ + branch.remote_name
                + ": missing credential prompt delegate"@;
            &&& plan.action(create_after(plan, Seq::empty())) == Some(
                CreateActionContents::ListWorktrees,
            )
            &&& fetches && plan.askpass_count == plan.repository_count ==> plan.action(state)
                == Some(CreateActionContents::Fetch { remote_name: branch.remote_name })
            &&& fetches && plan.askpass_count != plan.repository_count ==> state.stage
                == CreateStage::Finished(
                Err::<(), FailureContents>(
                    FailureContents::Fetch { branch, source: missing, source_chain: missing },
                ),
            )
            &&& !fetches ==> plan.action(state) == Some(
                match plan.worktree_name {
                    Some(name) => CreateActionContents::ChooseTargets { name },
                    None => CreateActionContents::MakeUpName {
                        existing: creation::names_at(creation::listed_paths(listings)),
                    },
                },
            )
        }),
{
    let events = seq![CreateEventContents::Listed(listings)];
    assert(events.drop_last() =~= Seq::empty());
    assert(create_after(plan, Seq::empty()) == create_start());
}

/// The new worktrees have the name that was asked for, else the one that was made up, else the name
/// `worktree`; and the worktrees that are started are those of the targets that are to be created, at
/// the paths of these targets.
pub proof fn names_and_targets_are_taken(
    plan: PlanContents,
    state: CreateState,
    generated: Option<Seq<char>>,
    targets: Seq<CreationTargetContents>,
    at: int,
)
    ensures
        state.stage is Naming ==> plan.action(
            plan.next(state, CreateEventContents::Named(generated)),
        ) == Some(
            CreateActionContents::ChooseTargets {
                name: match generated {
                    Some(name) => name,
                    None => "worktree"@,
                },
            },
        ),
        ({
            let after = plan.next(state, CreateEventContents::Chosen(targets));
            let schedule = creation::scheduled(targets, state.existing);
            state.stage is Choosing ==> {
                &&& after.name == state.name
                &&& after.remapping == schedule.remapping
                &&& after.creations == schedule.creations
                &&& after.paths.len() == after.creations.len()
                &&& 0 <= at < after.creations.len() ==> targets[after.creations[at]].new_path
                    == Ok::<Seq<char>, Seq<char>>(after.paths[at])
                &&& after.stage == CreateStage::Starting(schedule.error)
            }
        }),
        state.stage is Starting && state.stage != CreateStage::Starting(None) ==> plan.next(
            state,
            CreateEventContents::Started,
        ).stage == CreateStage::Finished(
            Err::<(), FailureContents>(FailureContents::Other(state.stage->Starting_0->0)),
        ),
{
    creation::each_worktree_is_created_once(targets, state.existing);
}

/// Once all worktrees are there, files are copied into each of them, beginning with the first, unless
/// the project is on another machine or has none; then they are recorded.
pub proof fn created_worktrees_are_filled_and_recorded(
    plan: PlanContents,
    state: CreateState,
    wait: WaitState,
    event: CreationContents,
    created: Seq<Seq<char>>,
)
    requires
        state.stage == CreateStage::Creating(wait),
        wait.next(state.paths, event).stage == creation::WaitStage::Finished(
            Ok::<Seq<Seq<char>>, Seq<char>>(created),
        ),
    ensures
        ({
            let after = plan.next(state, CreateEventContents::Creation(event));
            &&& after.created == created
            &&& !plan.is_remote && state.remapping.len() > 0 ==> after.stage
                == CreateStage::Copying(
                CopiesState::Copying(0, include_copy::copy_start()),
            ) && plan.action(after) == Some(
                CreateActionContents::Copy(
                    ActionContents::IsFile(
                        path::joined_text(state.remapping[0].0, ".worktreeinclude"@),
                    ),
                ),
            )
            &&& plan.is_remote || state.remapping.len() == 0 ==> plan.action(after) == Some(
                CreateActionContents::Record { repositories: state.creations, paths: state.paths },
            )
        }),
{
}

/// A failure to create is told as it is. A failure to copy is told after all worktrees were taken
/// back, with what could not be. Once copying has ended well, the worktrees are recorded.
pub proof fn failures_are_told(
    plan: PlanContents,
    state: CreateState,
    wait: WaitState,
    creation_event: CreationContents,
    copies: CopiesState,
    copy_event: EventContents,
    message: Seq<char>,
)
    requires
        !plan.is_remote,
    ensures
        state.stage == CreateStage::Creating(wait) && wait.next(state.paths, creation_event).stage
            == creation::WaitStage::Finished(Err::<Seq<Seq<char>>, Seq<char>>(message))
            ==> plan.next(state, CreateEventContents::Creation(creation_event)).stage
            == CreateStage::Finished(Err::<(), FailureContents>(FailureContents::Other(message))),
        state.stage == CreateStage::Copying(copies) && copies.next(state.remapping, copy_event)
            == CopiesState::Finished(Err::<(), Seq<char>>(message)) && state.paths.len() > 0
            ==> plan.next(state, CreateEventContents::Copy(copy_event)).stage
            == CreateStage::RollingBack(
            "Failed to copy worktree setup files: "@ + message,
            creation::rollback_start(),
        ),
        state.stage == CreateStage::Copying(copies) && (copies.next(
            state.remapping,
            copy_event,
        ) matches CopiesState::Finished(Ok(_))) ==> plan.next(
            state,
            CreateEventContents::Copy(copy_event),
        ).stage is Recording,
{
}

/// A window that is gone ends the creation until the worktrees are started, and is nothing to it from
/// then on. While a branch is fetched, that is told as a failure of the fetch.
pub proof fn lost_window_matters_until_the_start(
    plan: PlanContents,
    state: CreateState,
    message: Seq<char>,
)
    requires
        plan.valid(state),
    ensures
        ({
            let after = plan.next(state, CreateEventContents::WindowGone(message));
            let stage = state.stage;
            &&& stage is Listing || stage is Naming || stage is Choosing || stage is Starting
                ==> after.stage == CreateStage::Finished(
                Err::<(), FailureContents>(FailureContents::Other(message)),
            )
            &&& stage is Fetching ==> (plan.branch_target matches TargetContents::RemoteBranch(
                branch,
            ) && after.stage == CreateStage::Finished(
                Err::<(), FailureContents>(
                    FailureContents::Fetch { branch, source: message, source_chain: message },
                ),
            ))
            &&& stage is Creating || stage is Copying || stage is RollingBack || stage is Recording
                || stage is Finished ==> after == state
        }),
{
}

/// Of the fetches that fail, the first in the order of the repositories is told; where none does, the
/// creation goes on.
pub proof fn first_failed_fetch_is_told(
    plan: PlanContents,
    state: CreateState,
    results: Seq<Option<(Seq<char>, Seq<char>)>>,
    at: int,
    branch: BranchContents,
)
    requires
        state.stage is Fetching,
        plan.branch_target == TargetContents::RemoteBranch(branch),
        plan.fetch_mode == RemoteBranchFetchMode::Fetch,
        0 <= at <= results.len(),
        forall|i: int| 0 <= i < at ==> #[trigger] results[i] is None,
        at < results.len() ==> results[at] is Some,
    ensures
        ({
            let after = plan.next(state, CreateEventContents::Fetched(results));
            &&& at < results.len() ==> after.stage == CreateStage::Finished(
                Err::<(), FailureContents>(
                    FailureContents::Fetch {
                        branch,
                        source: (results[at]->0).0,
                        source_chain: (results[at]->0).1,
                    },
                ),
            )
            &&& at == results.len() ==> plan.action(after) == Some(
                match plan.worktree_name {
                    Some(name) => CreateActionContents::ChooseTargets { name },
                    None => CreateActionContents::MakeUpName {
                        existing: creation::names_at(state.existing),
                    },
                },
            )
        }),
{
    lemma_first_failure_is(results, at);
}

proof fn lemma_first_failure_is(results: Seq<Option<(Seq<char>, Seq<char>)>>, at: int)
    requires
        0 <= at <= results.len(),
        forall|i: int| 0 <= i < at ==> #[trigger] results[i] is None,
        at < results.len() ==> results[at] is Some,
    ensures
        at < results.len() ==> first_fetch_failure(results) == results[at],
        at == results.len() ==> first_fetch_failure(results) is None,
    decreases results.len(),
{
    if at > 0 {
        let rest = results.skip(1);
        assert(results[0] is None);
        assert forall|i: int| 0 <= i < at - 1 implies #[trigger] rest[i] is None by {
            assert(rest[i] == results[i + 1]);
        }
        if at < results.len() {
            assert(rest[at - 1] == results[at]);
        }
        lemma_first_failure_is(rest, at - 1);
    }
}

/// Worktrees that are taken back are taken back as the removal says, at whatever step; and the
/// creation ends with what failed, and with what could not be cleaned up, once none is left.
pub proof fn worktrees_are_taken_back_to_the_end(
    plan: PlanContents,
    state: CreateState,
    wait: WaitState,
    message: Seq<char>,
    rollback: RollbackState,
    event: RemovalContents,
)
    requires
        rollback.valid(state.paths.len()),
        rollback.at < state.paths.len(),
    ensures
        ({
            let after = rollback.next(state.paths, event);
            let next = plan.next(state, CreateEventContents::Removal(event));
            let wanted = rollback.action(state.paths.len())->0;
            &&& state.stage == CreateStage::RollingBack(message, rollback) ==> plan.action(state)
                == Some(CreateActionContents::Removal(wanted))
            &&& state.stage == CreateStage::Creating(wait) && wait.stage
                == creation::WaitStage::RollingBack(message, rollback) ==> plan.action(state)
                == Some(CreateActionContents::Creation(CreationAction::Removal(wanted)))
            &&& state.stage == CreateStage::Creating(wait) && wait.stage is Waiting ==> plan.action(
                state,
            ) == Some(CreateActionContents::Creation(CreationAction::AwaitCreation))
            &&& state.stage == CreateStage::RollingBack(message, rollback) && after.at
                < state.paths.len() ==> next.stage == CreateStage::RollingBack(message, after)
            &&& state.stage == CreateStage::RollingBack(message, rollback) && after.at
                >= state.paths.len() && after.failures.len() == 0 ==> next.stage
                == CreateStage::Finished(
                Err::<(), FailureContents>(FailureContents::Other(message)),
            )
            &&& state.stage == CreateStage::RollingBack(message, rollback) && after.at
                >= state.paths.len() && after.failures.len() > 0 ==> next.stage
                == CreateStage::Finished(
                Err::<(), FailureContents>(
                    FailureContents::Other(
                        message + "\n\nFailed to clean up: "@ + text::joined(
                            after.failures,
                            ", "@,
                        ),
                    ),
                ),
            )
        }),
{
}

/// Worktrees that were started are all waited for; where there are none, the creation goes on as if
/// all were there. Worktrees that were recorded end it well.
pub proof fn started_worktrees_are_waited_for(plan: PlanContents, state: CreateState, i: int)
    ensures
        ({
            let after = plan.next(state, CreateEventContents::Started);
            let wait = creation::wait_start(state.paths);
            &&& state.stage == CreateStage::Starting(None) && state.paths.len() > 0 ==> after.stage
                == CreateStage::Creating(wait) && wait.stage is Waiting && wait.created.len() == 0
                && wait.first_error is None && wait.pending.len() == state.paths.len() && (0 <= i
                < state.paths.len() ==> wait.pending[i])
            &&& state.stage == CreateStage::Starting(None) && state.paths.len() == 0
                ==> after.created.len() == 0 && !(after.stage is Finished) && !(
            after.stage is Creating)
            &&& state.stage is Recording ==> (plan.next(
                state,
                CreateEventContents::Recorded,
            ).stage matches CreateStage::Finished(Ok(_)))
        }),
{
}

/// What does not answer what was to be done changes nothing.
pub proof fn create_events_out_of_turn_change_nothing(
    plan: PlanContents,
    state: CreateState,
    event: CreateEventContents,
)
    requires
        !(event is WindowGone),
        !(state.stage is Listing && event is Listed),
        !(state.stage is Fetching && event is Fetched),
        !(state.stage is Naming && event is Named),
        !(state.stage is Choosing && event is Chosen),
        !(state.stage is Starting && event is Started),
        !(state.stage is Creating && event is Creation),
        !(state.stage is Copying && event is Copy),
        !(state.stage is RollingBack && event is Removal),
        !(state.stage is Recording && event is Recorded),
    ensures
        plan.next(state, event) == state,
{
}

enum Creating {
    Listing,
    Fetching,
    Naming,
    Choosing,
    Starting(Option<String>),
    Creating(CreationWait),
    Copying(IncludeCopies),
    RollingBack(String, Rollback),
    Recording,
    Finished(Result<(), CreateFailure>),
}

/// The creation of worktrees for a project.
pub struct CreateWorktree {
    plan: CreatePlan,
    existing: Vec<TreePath>,
    name: String,
    remapping: Vec<(TreePath, TreePath)>,
    creations: Vec<usize>,
    paths: Vec<TreePath>,
    created: Vec<TreePath>,
    stage: Creating,
}

/// The worktrees that were created: their paths, how the directories of the project are mapped to
/// them, and whether several directories are mapped to one.
pub struct CreatedWorktrees {
    pub created_paths: Vec<TreePath>,
    pub path_remapping: Vec<(TreePath, TreePath)>,
    pub consolidated_worktrees: bool,
}

fn copy_positions(positions: &Vec<usize>) -> (result: Vec<usize>)
    ensures
        creation::positions(result@) == creation::positions(positions@),
{
    let ghost all = creation::positions(positions@);
    let mut result: Vec<usize> = Vec::new();
    let mut i: usize = 0;
    while i < positions.len()
        invariant
            i <= positions.len(),
            all == creation::positions(positions@),
            creation::positions(result@) == all.take(i as int),
        decreases positions.len() - i,
    {
        let ghost before = creation::positions(result@);
        result.push(positions[i]);
        assert(creation::positions(result@) =~= before.push(all[i as int]));
        assert(all.take(i + 1) =~= all.take(i as int).push(all[i as int]));
        i = i + 1;
    }
    assert(all.take(i as int) =~= all);
    result
}

fn target_paths(targets: &Vec<CreationTarget>, creations: &Vec<usize>) -> (result: Vec<TreePath>)
    requires
        forall|i: int|
            0 <= i < creations@.len() ==> (#[trigger] creations@[i]) < targets@.len()
                && targets@[creations@[i] as int]@.new_path is Ok,
    ensures
        terminal_thread::path_contents(result@) == paths_at(
            creation::target_contents(targets@),
            creation::positions(creations@),
        ),
{
    let ghost all = paths_at(
        creation::target_contents(targets@),
        creation::positions(creations@),
    );
    let mut result: Vec<TreePath> = Vec::new();
    let mut i: usize = 0;
    assert(terminal_thread::path_contents(result@) =~= all.take(0));
    while i < creations.len()
        invariant
            i <= creations.len(),
            forall|j: int|
                0 <= j < creations@.len() ==> (#[trigger] creations@[j]) < targets@.len()
                    && targets@[creations@[j] as int]@.new_path is Ok,
            all == paths_at(
                creation::target_contents(targets@),
                creation::positions(creations@),
            ),
            terminal_thread::path_contents(result@) == all.take(i as int),
        decreases creations.len() - i,
    {
        let ghost before = terminal_thread::path_contents(result@);
        let at = creations[i];
        assert(at == creations@[i as int]);
        let target = &targets[at];
        assert(all[i as int] == creation::target_path(target@));
        if let Ok(new_path) = &target.new_path {
            result.push(new_path.clone());
            assert(terminal_thread::path_contents(result@) =~= before.push(all[i as int]));
        }
        assert(all.take(i + 1) =~= all.take(i as int).push(all[i as int]));
        i = i + 1;
    }
    assert(all.take(i as int) =~= all);
    result
}

fn find_fetch_failure(results: &Vec<Result<(), FetchFailure>>) -> (result: Option<(String, String)>)
    ensures
        match result {
            Some((source, source_chain)) => first_fetch_failure(fetch_results(results@)) == Some(
                (source@, source_chain@),
            ),
            None => first_fetch_failure(fetch_results(results@)) is None,
        },
{
    let ghost all = fetch_results(results@);
    let mut i: usize = 0;
    assert(all.skip(0) =~= all);
    while i < results.len()
        invariant
            i <= results.len(),
            all == fetch_results(results@),
            first_fetch_failure(all) == first_fetch_failure(all.skip(i as int)),
        decreases results.len() - i,
    {
        assert(all.skip(i as int)[0] == all[i as int]);
        assert(all.skip(i as int).skip(1) =~= all.skip(i + 1));
        if let Err(failure) = &results[i] {
            return Some((failure.source.clone(), failure.source_chain.clone()));
        }
        i = i + 1;
    }
    None
}

impl CreateWorktree {
    /// What worktrees are created for.
    pub closed spec fn plan(&self) -> PlanContents {
        self.plan@
    }

    /// The state of the creation.
    pub closed spec fn state(&self) -> CreateState {
        CreateState {
            existing: terminal_thread::path_contents(self.existing@),
            name: self.name@,
            remapping: creation::remapping_contents(self.remapping@),
            creations: creation::positions(self.creations@),
            paths: terminal_thread::path_contents(self.paths@),
            created: terminal_thread::path_contents(self.created@),
            stage: match self.stage {
                Creating::Listing => CreateStage::Listing,
                Creating::Fetching => CreateStage::Fetching,
                Creating::Naming => CreateStage::Naming,
                Creating::Choosing => CreateStage::Choosing,
                Creating::Starting(error) => CreateStage::Starting(text::string_option(error)),
                Creating::Creating(wait) => CreateStage::Creating(wait.state()),
                Creating::Copying(copies) => CreateStage::Copying(copies.state()),
                Creating::RollingBack(message, rollback) => CreateStage::RollingBack(
                    message@,
                    rollback.state(),
                ),
                Creating::Recording => CreateStage::Recording,
                Creating::Finished(Ok(_)) => CreateStage::Finished(Ok(())),
                Creating::Finished(Err(failure)) => CreateStage::Finished(Err(failure@)),
            },
        }
    }

    spec fn parts_well_formed(&self) -> bool {
        match self.stage {
            Creating::Creating(wait) => wait.well_formed() && wait.paths() == self.state().paths,
            Creating::Copying(copies) => copies.well_formed() && copies.remapping()
                == self.state().remapping,
            Creating::RollingBack(_, rollback) => rollback.well_formed() && rollback.paths()
                == self.state().paths,
            _ => true,
        }
    }

    /// The state can be reached.
    pub closed spec fn well_formed(&self) -> bool {
        self.plan().valid(self.state()) && self.parts_well_formed()
    }

    /// A well-formed state is valid.
    pub proof fn well_formed_is_valid(&self)
        requires
            self.well_formed(),
        ensures
            self.plan().valid(self.state()),
    {
    }

    /// The start of the creation: the worktrees that there are are to be listed.
    pub fn do_create_worktree(plan: CreatePlan) -> (result: CreateWorktree)
        ensures
            result.well_formed(),
            result.plan() == plan@,
            result.state() == create_start(),
    {
        let result = CreateWorktree {
            plan,
            existing: Vec::new(),
            name: String::new(),
            remapping: Vec::new(),
            creations: Vec::new(),
            paths: Vec::new(),
            created: Vec::new(),
            stage: Creating::Listing,
        };
        assert(terminal_thread::path_contents(result.existing@) =~= Seq::empty());
        assert(terminal_thread::path_contents(result.paths@) =~= Seq::empty());
        assert(terminal_thread::path_contents(result.created@) =~= Seq::empty());
        assert(creation::remapping_contents(result.remapping@) =~= Seq::empty());
        assert(creation::positions(result.creations@) =~= Seq::empty());
        assert(result.name@ =~= Seq::empty());
        result
    }

    fn fetched_branch(&self) -> (result: Option<(&str, &str)>)
        ensures
            match result {
                Some((remote_name, branch_name)) => self.plan().fetched_branch() == Some(
                    BranchContents { remote_name: remote_name@, branch_name: branch_name@ },
                ),
                None => self.plan().fetched_branch() is None,
            },
    {
        if self.plan.fetch_mode.should_fetch() {
            branch::remote_branch_to_fetch(&self.plan.branch_target)
        } else {
            None
        }
    }

    /// What is to be done next, until the creation is finished.
    pub fn action(&self) -> (result: Option<CreateAction>)
        requires
            self.well_formed(),
        ensures
            match result {
                Some(action) => self.plan().action(self.state()) == Some(action@),
                None => self.plan().action(self.state()) is None,
            },
    {
        match &self.stage {
            Creating::Listing => Some(CreateAction::ListWorktrees),
            Creating::Fetching => match self.fetched_branch() {
                Some((remote_name, _)) => Some(
                    CreateAction::Fetch { remote_name: remote_name.to_owned() },
                ),
                None => None,
            },
            Creating::Naming => Some(
                CreateAction::MakeUpName { existing: existing_worktree_names(&self.existing) },
            ),
            Creating::Choosing => Some(CreateAction::ChooseTargets { name: self.name.clone() }),
            Creating::Starting(error) => Some(
                CreateAction::StartCreations {
                    repositories: copy_positions(&self.creations),
                    paths: copy_paths(&self.paths),
                    base_ref: resolve_worktree_branch_target(&self.plan.branch_target),
                    shown_name: match error {
                        Some(_) => None,
                        None => Some(self.name.clone()),
                    },
                },
            ),
            Creating::Creating(wait) => match wait.action() {
                Some(action) => Some(CreateAction::Creation(action)),
                None => None,
            },
            Creating::Copying(copies) => match copies.action() {
                Some(action) => Some(CreateAction::Copy(action)),
                None => None,
            },
            Creating::RollingBack(_, rollback) => match rollback.action() {
                Some(action) => Some(CreateAction::Removal(action)),
                None => None,
            },
            Creating::Recording => Some(
                CreateAction::Record {
                    repositories: copy_positions(&self.creations),
                    paths: copy_paths(&self.paths),
                },
            ),
            Creating::Finished(_) => None,
        }
    }

    /// What came of the creation, once it is finished.
    pub fn outcome(&self) -> (result: Option<Result<CreatedWorktrees, CreateFailure>>)
        ensures
            match result {
                Some(Ok(worktrees)) => {
                    &&& self.state().stage == CreateStage::Finished(Ok::<(), FailureContents>(()))
                    &&& terminal_thread::path_contents(worktrees.created_paths@)
                        == self.state().created
                    &&& creation::remapping_contents(worktrees.path_remapping@)
                        == self.state().remapping
                    &&& worktrees.consolidated_worktrees == self.state().consolidated()
                    &&& self.well_formed() ==> worktrees.consolidated_worktrees
                        == creation::shares_worktree(self.state().remapping)
                },
                Some(Err(failure)) => self.state().stage == CreateStage::Finished(
                    Err::<(), FailureContents>(failure@),
                ),
                None => !(self.state().stage is Finished),
            },
    {
        match &self.stage {
            Creating::Finished(Ok(_)) => {
                assert(self.remapping@.len() == self.state().remapping.len());
                assert(self.created@.len() == self.state().created.len());
                Some(
                    Ok(
                        CreatedWorktrees {
                            created_paths: copy_paths(&self.created),
                            path_remapping: copy_remapping(&self.remapping),
                            consolidated_worktrees: self.remapping.len() > self.created.len(),
                        },
                    ),
                )
            },
            Creating::Finished(Err(failure)) => Some(Err(failure.copy())),
            _ => None,
        }
    }

    fn fetch_failure(&self, source: String, source_chain: String) -> (result: CreateFailure)
        requires
            self.plan().fetched_branch() is Some,
        ensures
            result@ == (FailureContents::Fetch {
                branch: self.plan().fetched_branch()->0,
                source: source@,
                source_chain: source_chain@,
            }),
    {
        match self.fetched_branch() {
            Some((remote_name, branch_name)) => CreateFailure::Fetch(
                WorktreeFetchError {
                    remote_name: remote_name.to_owned(),
                    branch_name: branch_name.to_owned(),
                    source,
                    source_chain,
                },
            ),
            None => CreateFailure::Other(source),
        }
    }

    fn go_on_to_naming(&mut self)
        ensures
            final(self).plan() == old(self).plan(),
            final(self).parts_well_formed(),
            final(self).state() == old(self).plan().naming(old(self).state()),
    {
        match &self.plan.worktree_name {
            Some(name) => {
                self.name = resolve_worktree_name(Some(name.as_str()), None);
                self.stage = Creating::Choosing;
            },
            None => {
                self.stage = Creating::Naming;
            },
        }
    }

    fn listed(&mut self, listings: Vec<Result<Vec<TreePath>, String>>)
        ensures
            final(self).plan() == old(self).plan(),
            final(self).parts_well_formed(),
            final(self).state() == old(self).plan().listed(
                old(self).state(),
                creation::listings_contents(listings@),
            ),
    {
        self.existing = existing_worktree_paths(&listings);
        match self.fetched_branch() {
            None => {
                self.go_on_to_naming();
            },
            Some((remote_name, _)) => {
                if self.plan.askpass_count != self.plan.repository_count {
                    let message = "Unable to fetch ".to_owned().concat(remote_name).concat(
                        ": missing credential prompt delegate",
                    );
                    let failure = self.fetch_failure(message.clone(), message);
                    self.stage = Creating::Finished(Err(failure));
                } else {
                    self.stage = Creating::Fetching;
                }
            },
        }
    }

    fn fetched(&mut self, results: Vec<Result<(), FetchFailure>>)
        requires
            old(self).plan().fetched_branch() is Some,
        ensures
            final(self).plan() == old(self).plan(),
            final(self).parts_well_formed(),
            final(self).state() == old(self).plan().fetched(
                old(self).state(),
                fetch_results(results@),
            ),
    {
        match find_fetch_failure(&results) {
            Some((source, source_chain)) => {
                let failure = self.fetch_failure(source, source_chain);
                self.stage = Creating::Finished(Err(failure));
            },
            None => {
                self.go_on_to_naming();
            },
        }
    }

    fn chosen(&mut self, targets: Vec<CreationTarget>)
        ensures
            final(self).plan() == old(self).plan(),
            final(self).parts_well_formed(),
            final(self).state() == old(self).plan().chosen(
                old(self).state(),
                creation::target_contents(targets@),
            ),
    {
        let ghost all = creation::target_contents(targets@);
        let schedule = start_worktree_creations(&targets, &self.existing);
        proof {
            creation::each_worktree_is_created_once(all, self.state().existing);
            assert forall|i: int| 0 <= i < schedule.creations@.len() implies (
            #[trigger] schedule.creations@[i]) < targets@.len()
                && targets@[schedule.creations@[i] as int]@.new_path is Ok by {
                assert(schedule@.creations[i] == schedule.creations@[i]);
                assert(all[schedule@.creations[i]] == targets@[schedule.creations@[i] as int]@);
            }
        }
        self.paths = target_paths(&targets, &schedule.creations);
        self.creations = schedule.creations;
        self.remapping = schedule.path_remapping;
        self.stage = Creating::Starting(schedule.error);
    }

    fn wait_for(&mut self, wait: CreationWait)
        requires
            wait.well_formed(),
            wait.paths() == old(self).state().paths,
        ensures
            final(self).plan() == old(self).plan(),
            final(self).parts_well_formed(),
            final(self).state() == old(self).plan().waiting(old(self).state(), wait.state()),
    {
        match wait.outcome() {
            Some(Ok(created)) => {
                self.created = created;
                let copies = IncludeCopies::copy_worktree_included_files(
                    copy_remapping(&self.remapping),
                );
                self.copy_with(copies);
            },
            Some(Err(message)) => {
                self.stage = Creating::Finished(Err(CreateFailure::Other(message)));
            },
            None => {
                self.stage = Creating::Creating(wait);
            },
        }
    }

    fn copy_with(&mut self, copies: IncludeCopies)
        requires
            copies.well_formed(),
            copies.remapping() == old(self).state().remapping,
        ensures
            final(self).plan() == old(self).plan(),
            final(self).parts_well_formed(),
            final(self).state() == old(self).plan().copying(old(self).state(), copies.state()),
    {
        if self.plan.is_remote {
            self.stage = Creating::Recording;
            return ;
        }
        match copies.outcome() {
            Some(Ok(_)) => {
                self.stage = Creating::Recording;
            },
            Some(Err(message)) => {
                let failed = "Failed to copy worktree setup files: ".to_owned().concat(
                    message.as_str(),
                );
                let rollback = Rollback::rollback_worktrees(&self.paths);
                self.roll_back_with(failed, rollback);
            },
            None => {
                self.stage = Creating::Copying(copies);
            },
        }
    }

    fn roll_back_with(&mut self, message: String, rollback: Rollback)
        requires
            rollback.well_formed(),
            rollback.paths() == old(self).state().paths,
        ensures
            final(self).plan() == old(self).plan(),
            final(self).parts_well_formed(),
            final(self).state() == old(self).plan().rolling_back(
                old(self).state(),
                message@,
                rollback.state(),
            ),
    {
        if rollback.is_finished() {
            let failure = CreateFailure::Other(rollback.with_failures(message.as_str()));
            self.stage = Creating::Finished(Err(failure));
        } else {
            self.stage = Creating::RollingBack(message, rollback);
        }
    }

    fn window_gone(&mut self, message: String)
        requires
            old(self).well_formed(),
        ensures
            final(self).plan() == old(self).plan(),
            final(self).parts_well_formed(),
            final(self).state() == old(self).plan().window_gone(old(self).state(), message@),
    {
        match &self.stage {
            Creating::Fetching => {
                let failure = self.fetch_failure(message.clone(), message);
                self.stage = Creating::Finished(Err(failure));
            },
            Creating::Listing
            | Creating::Naming
            | Creating::Choosing
            | Creating::Starting(_) => {
                self.stage = Creating::Finished(Err(CreateFailure::Other(message)));
            },
            _ => {},
        }
    }

    /// Takes what came of what was to be done.
    pub fn advance(&mut self, event: CreateEvent)
        requires
            old(self).well_formed(),
            event_well_formed(event@),
        ensures
            final(self).well_formed(),
            final(self).plan() == old(self).plan(),
            final(self).state() == old(self).plan().next(old(self).state(), event@),
    {
        proof {
            creation_stays_valid(self.plan(), self.state(), event@);
        }
        if let CreateEvent::WindowGone(message) = event {
            self.window_gone(message);
            return ;
        }
        let mut stage = Creating::Recording;
        std::mem::swap(&mut self.stage, &mut stage);
        match (stage, event) {
            (Creating::Listing, CreateEvent::Listed(listings)) => {
                self.listed(listings);
            },
            (Creating::Fetching, CreateEvent::Fetched(results)) => {
                self.fetched(results);
            },
            (Creating::Naming, CreateEvent::Named(generated)) => {
                self.name = resolve_worktree_name(None, generated);
                self.stage = Creating::Choosing;
            },
            (Creating::Choosing, CreateEvent::Chosen(targets)) => {
                self.chosen(targets);
            },
            (Creating::Starting(Some(message)), CreateEvent::Started) => {
                self.stage = Creating::Finished(Err(CreateFailure::Other(message)));
            },
            (Creating::Starting(None), CreateEvent::Started) => {
                let wait = await_and_rollback_on_failure(copy_paths(&self.paths));
                self.wait_for(wait);
            },
            (Creating::Creating(wait), CreateEvent::Creation(happened)) => {
                let mut wait = wait;
                wait.advance(happened);
                self.wait_for(wait);
            },
            (Creating::Copying(copies), CreateEvent::Copy(happened)) => {
                let mut copies = copies;
                copies.advance(happened);
                self.copy_with(copies);
            },
            (Creating::RollingBack(message, rollback), CreateEvent::Removal(happened)) => {
                let mut rollback = rollback;
                rollback.advance(happened);
                self.roll_back_with(message, rollback);
            },
            (Creating::Recording, CreateEvent::Recorded) => {
                self.stage = Creating::Finished(Ok(()));
            },
            (stage, _) => {
                self.stage = stage;
            },
        }
    }
}

/// What comes of the creation is taken as it is told, and what is to be done is told as it is.
pub proof fn create_events_are_taken_as_they_are(
    listings: Vec<Result<Vec<TreePath>, String>>,
    results: Vec<Result<(), FetchFailure>>,
    text: String,
    name: Option<String>,
    base_ref: Option<String>,
    targets: Vec<CreationTarget>,
    repositories: Vec<usize>,
    paths: Vec<TreePath>,
    names: Vec<String>,
)
    ensures
        CreateEvent::Listed(listings)@ == CreateEventContents::Listed(
            creation::listings_contents(listings@),
        ),
        CreateEvent::Fetched(results)@ == CreateEventContents::Fetched(fetch_results(results@)),
        CreateEvent::Named(name)@ == CreateEventContents::Named(text::string_option(name)),
        CreateEvent::Chosen(targets)@ == CreateEventContents::Chosen(
            creation::target_contents(targets@),
        ),
        CreateEvent::Started@ is Started,
        CreateEvent::Recorded@ is Recorded,
        CreateEvent::WindowGone(text)@ == CreateEventContents::WindowGone(text@),
        CreateAction::ListWorktrees@ is ListWorktrees,
        (CreateAction::Fetch { remote_name: text })@ == (CreateActionContents::Fetch {
            remote_name: text@,
        }),
        (CreateAction::MakeUpName { existing: names })@ == (CreateActionContents::MakeUpName {
            existing: text::strings(names@),
        }),
        (CreateAction::ChooseTargets { name: text })@ == (CreateActionContents::ChooseTargets {
            name: text@,
        }),
        (CreateAction::StartCreations { repositories, paths, base_ref, shown_name: name })@
            == (CreateActionContents::StartCreations {
            repositories: creation::positions(repositories@),
            paths: terminal_thread::path_contents(paths@),
            base_ref: match base_ref {
                Some(reference) => Some(reference@),
                None => None,
            },
            shown_name: match name {
                Some(shown) => Some(shown@),
                None => None,
            },
        }),
        (CreateAction::Record { repositories, paths })@ == (CreateActionContents::Record {
            repositories: creation::positions(repositories@),
            paths: terminal_thread::path_contents(paths@),
        }),
{
}

/// What came of each fetch is what was said of it, in short and in full.
pub proof fn fetch_failures_are_taken_as_they_are(
    results: Seq<Result<(), FetchFailure>>,
    i: int,
)
    requires
        0 <= i < results.len(),
    ensures
        fetch_results(results).len() == results.len(),
        results[i] is Ok <==> fetch_results(results)[i] is None,
        results[i] matches Err(failure) ==> fetch_results(results)[i] == Some(
            (failure.source@, failure.source_chain@),
        ),
{
}

} // verus!
