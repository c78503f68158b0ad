//! The worktree operations of a project: when they are refused, how they begin, and how the
//! workspace that they end in is opened.
use vstd::prelude::*;

use crate::branch;
use crate::branch::{
    remote_branch_to_fetch, NewWorktreeBranchTarget, RemoteBranchFetchMode, TargetContents,
    WorktreeFetchFailedNotice,
};
use crate::classify;
use crate::classify::{classify_worktrees, RepositoryRoot, RootContents};
use crate::create_worktree::{
    CreateFailure, CreatePlan, CreateWorktree, CreatedWorktrees, FailureContents, PlanContents,
};
use crate::creation;
use crate::creation::push_all;
use crate::open_workspace;
use crate::open_workspace::{OpenRequest, PreviousWorkspaceState, WorktreeOperation};
use crate::path;
use crate::path::TreePath;
use crate::terminal_thread;
use crate::terminal_thread::copy_string_option;
use crate::text;

verus! {

/// What is known of a project when a worktree operation is asked for.
pub struct ProjectState {
    pub repositories: Vec<RepositoryRoot>,
    pub visible_worktrees: Vec<TreePath>,
    pub is_via_collab: bool,
    pub has_active_operation: bool,
    pub is_remote: bool,
    pub is_disconnected: bool,
}

/// The contents of a `ProjectState`.
#[verifier::ext_equal]
pub struct ProjectContents {
    pub repositories: Seq<RootContents>,
    pub visible_worktrees: Seq<Seq<char>>,
    pub is_via_collab: bool,
    pub has_active_operation: bool,
    pub is_remote: bool,
    pub is_disconnected: bool,
}

impl View for ProjectState {
    type V = ProjectContents;

    open spec fn view(&self) -> ProjectContents {
        ProjectContents {
            repositories: classify::root_contents(self.repositories@),
            visible_worktrees: terminal_thread::path_contents(self.visible_worktrees@),
            is_via_collab: self.is_via_collab,
            has_active_operation: self.has_active_operation,
            is_remote: self.is_remote,
            is_disconnected: self.is_disconnected,
        }
    }
}

impl ProjectContents {
    /// The repositories that the worktrees of the project belong to.
    pub open spec fn git_repositories(self) -> Seq<u64> {
        classify::owning_ids(self.repositories, self.visible_worktrees)
    }

    /// The folders of the project that belong to no repository.
    pub open spec fn non_git_paths(self) -> Seq<Seq<char>> {
        classify::unowned(self.repositories, self.visible_worktrees)
    }

    /// Why a creation is refused, and whether that is shown.
    pub open spec fn create_refusal(self) -> Option<(Seq<char>, bool)> {
        if self.repositories.len() == 0 {
            Some(("create_worktree: no git repository in the project"@, false))
        } else if self.is_via_collab {
            Some(("create_worktree: not supported in collab projects"@, false))
        } else if self.has_active_operation {
            Some(("A worktree operation is already in progress"@, false))
        } else if self.git_repositories().len() == 0 {
            Some(("No git repositories found in the project"@, true))
        } else if self.is_remote && self.is_disconnected {
            Some(("Cannot create worktree: remote connection is not active"@, true))
        } else {
            None
        }
    }

    /// Why a switch is refused, and whether that is shown.
    pub open spec fn switch_refusal(self) -> Option<(Seq<char>, bool)> {
        if self.repositories.len() == 0 {
            Some(("switch_to_worktree: no git repository in the project"@, false))
        } else if self.is_via_collab {
            Some(("switch_to_worktree: not supported in collab projects"@, false))
        } else if self.has_active_operation {
            Some(("A worktree operation is already in progress"@, true))
        } else {
            None
        }
    }
}

/// No worktree operation begins while another is going on.
pub proof fn one_operation_at_a_time(project: ProjectContents)
    requires
        project.has_active_operation,
    ensures
        project.create_refusal() is Some,
        project.switch_refusal() is Some,
{
}

/// An operation is refused for one reason at a time, the first that holds: that there is no
/// repository, that the project is shared, that an operation is going on; and a creation also where
/// no worktree of the project lies in a repository, or where the machine of the project cannot be
/// reached. Otherwise it begins.
pub proof fn refusals_have_reasons(project: ProjectContents)
    ensures
        ({
            let none = project.repositories.len() == 0;
            let shared = project.is_via_collab;
            let busy = project.has_active_operation;
            let outside = forall|i: int, j: int|
                0 <= i < project.visible_worktrees.len() && 0 <= j < project.repositories.len()
                    ==> !path::is_under(
                    #[trigger] project.visible_worktrees[i],
                    (#[trigger] project.repositories[j]).work_directory,
                );
            let lost = project.is_remote && project.is_disconnected;
            &&& none ==> project.create_refusal() == Some(
                ("create_worktree: no git repository in the project"@, false),
            ) && project.switch_refusal() == Some(
                ("switch_to_worktree: no git repository in the project"@, false),
            )
            &&& !none && shared ==> project.create_refusal() == Some(
                ("create_worktree: not supported in collab projects"@, false),
            ) && project.switch_refusal() == Some(
                ("switch_to_worktree: not supported in collab projects"@, false),
            )
            &&& !none && !shared && busy ==> project.create_refusal() == Some(
                ("A worktree operation is already in progress"@, false),
            ) && project.switch_refusal() == Some(
                ("A worktree operation is already in progress"@, true),
            )
            &&& !none && !shared && !busy ==> project.switch_refusal() is None
            &&& !none && !shared && !busy && outside ==> project.create_refusal() == Some(
                ("No git repositories found in the project"@, true),
            )
            &&& !none && !shared && !busy && !outside && lost ==> project.create_refusal() == Some(
                ("Cannot create worktree: remote connection is not active"@, true),
            )
            &&& !none && !shared && !busy && !outside && !lost ==> project.create_refusal() is None
        }),
{
    let ids = project.git_repositories();
    classify::every_worktree_is_classified(project.repositories, project.visible_worktrees);
    classify::only_what_is_there_is_classified(project.repositories, project.visible_worktrees);
    if ids.len() > 0 {
        assert(ids.contains(ids[0]));
        let i = choose|i: int|
            0 <= i < project.visible_worktrees.len() && (classify::owner(
                project.repositories,
                #[trigger] project.visible_worktrees[i],
            ) matches Some(at) && project.repositories[at].id == ids[0]);
        classify::owner_is_deepest(project.repositories, project.visible_worktrees[i]);
        let at = classify::owner(project.repositories, project.visible_worktrees[i])->0;
        assert(path::is_under(
            project.visible_worktrees[i],
            project.repositories[at].work_directory,
        ));
    } else {
        assert forall|i: int, j: int|
            0 <= i < project.visible_worktrees.len() && 0 <= j
                < project.repositories.len() implies !path::is_under(
            #[trigger] project.visible_worktrees[i],
            (#[trigger] project.repositories[j]).work_directory,
        ) by {
            classify::owner_is_deepest(project.repositories, project.visible_worktrees[i]);
        }
    }
}

/// Why an operation is refused. Where it is shown, it is shown as an error of the operation.
#[derive(Debug, PartialEq, Eq)]
pub struct Refusal {
    pub message: String,
    pub is_shown: bool,
}

impl Refusal {
    fn new(message: &str, is_shown: bool) -> (result: Refusal)
        ensures
            result.message@ == message@,
            result.is_shown == is_shown,
    {
        Refusal { message: message.to_owned(), is_shown }
    }
}

/// The request to create worktrees.
#[derive(Clone, Debug, PartialEq, Eq)]
pub struct CreateWorktreeAction {
    pub worktree_name: Option<String>,
    pub branch_target: NewWorktreeBranchTarget,
}

/// A creation that has begun: the repositories and the folders that it is for, the name that is
/// shown, what credentials are asked for as, in each repository, whether the workspace is brought
/// to the front, and the creation itself.
pub struct CreateStart {
    pub git_repositories: Vec<u64>,
    pub non_git_paths: Vec<TreePath>,
    pub display_name: String,
    pub askpass_operations: Vec<String>,
    pub activate: bool,
    pub creation: CreateWorktree,
}

/// What credentials are asked for as: once for each repository, where a branch is fetched.
pub open spec fn askpass_labels(
    target: TargetContents,
    mode: RemoteBranchFetchMode,
    count: nat,
) -> Seq<Seq<char>> {
    match branch::branch_to_fetch(target, mode) {
        Some(branch) => Seq::new(count, |i: int| "git fetch "@ + branch.remote_name),
        None => Seq::empty(),
    }
}

fn askpass_operations(target: &NewWorktreeBranchTarget, mode: RemoteBranchFetchMode, count: usize)
    -> (result: Vec<String>)
    ensures
        text::strings(result@) == askpass_labels(target@, mode, count as nat),
{
    let mut result: Vec<String> = Vec::new();
    assert(text::strings(result@) =~= Seq::empty());
    if mode.should_fetch() {
        if let Some((remote_name, _)) = remote_branch_to_fetch(target) {
            let ghost label = "git fetch "@ + remote_name@;
            let mut i: usize = 0;
            assert(text::strings(result@) =~= Seq::new(0, |j: int| label));
            while i < count
                invariant
                    i <= count,
                    label == "git fetch "@ + remote_name@,
                    text::strings(result@) == Seq::new(i as nat, |j: int| label),
                decreases count - i,
            {
                let ghost before = text::strings(result@);
                result.push("git fetch ".to_owned().concat(remote_name));
                assert(text::strings(result@) =~= before.push(label));
                assert(before.push(label) =~= Seq::new((i + 1) as nat, |j: int| label));
                i = i + 1;
            }
            assert(text::strings(result@) =~= askpass_labels(target@, mode, count as nat));
        }
    }
    result
}

/// Whether a creation begins as it is to for a request on a project.
pub open spec fn begins_creation(
    start: CreateStart,
    project: ProjectContents,
    action: CreateWorktreeAction,
    mode: RemoteBranchFetchMode,
    activate: bool,
) -> bool {
    let labels = askpass_labels(action.branch_target@, mode, project.git_repositories().len());
    &&& start.git_repositories@ == project.git_repositories()
    &&& terminal_thread::path_contents(start.non_git_paths@) == project.non_git_paths()
    &&& start.display_name@ == creation::worktree_name(
        text::string_option(action.worktree_name),
        None,
    )
    &&& text::strings(start.askpass_operations@) == labels
    &&& start.activate == activate
    &&& start.creation.well_formed()
    &&& start.creation.state() == crate::create_worktree::create_start()
    &&& start.creation.plan() == (PlanContents {
        repository_count: project.git_repositories().len() as int,
        worktree_name: text::string_option(action.worktree_name),
        branch_target: action.branch_target@,
        fetch_mode: mode,
        askpass_count: labels.len() as int,
        is_remote: project.is_remote,
    })
}

/// A copy of a branch target.
fn copy_target(target: &NewWorktreeBranchTarget) -> (result: NewWorktreeBranchTarget)
    ensures
        result@ == target@,
{
    match target {
        NewWorktreeBranchTarget::CurrentBranch => NewWorktreeBranchTarget::CurrentBranch,
        NewWorktreeBranchTarget::ExistingBranch { name } => {
            NewWorktreeBranchTarget::ExistingBranch { name: name.clone() }
        },
        NewWorktreeBranchTarget::RemoteBranch { remote_name, branch_name } => {
            NewWorktreeBranchTarget::RemoteBranch {
                remote_name: remote_name.clone(),
                branch_name: branch_name.clone(),
            }
        },
    }
}

/// Begins the creation of worktrees, unless it is refused.
fn create_worktree_workspace_inner(
    project: &ProjectState,
    action: &CreateWorktreeAction,
    mode: RemoteBranchFetchMode,
    activate: bool,
) -> (result: Result<CreateStart, Refusal>)
    ensures
        match result {
            Ok(start) => project@.create_refusal() is None && begins_creation(
                start,
                project@,
                *action,
                mode,
                activate,
            ),
            Err(refusal) => project@.create_refusal() == Some(
                (refusal.message@, refusal.is_shown),
            ),
        },
{
    assert(project.repositories@.len() == project@.repositories.len());
    if project.repositories.len() == 0 {
        return Err(Refusal::new("create_worktree: no git repository in the project", false));
    }
    if project.is_via_collab {
        return Err(Refusal::new("create_worktree: not supported in collab projects", false));
    }
    if project.has_active_operation {
        return Err(Refusal::new("A worktree operation is already in progress", false));
    }
    let (git_repositories, non_git_paths) = classify_worktrees(
        &project.repositories,
        &project.visible_worktrees,
    );
    if git_repositories.len() == 0 {
        return Err(Refusal::new("No git repositories found in the project", true));
    }
    if project.is_remote && project.is_disconnected {
        return Err(
            Refusal::new("Cannot create worktree: remote connection is not active", true),
        );
    }
    let askpass_operations = askpass_operations(
        &action.branch_target,
        mode,
        git_repositories.len(),
    );
    assert(askpass_operations@.len() == text::strings(askpass_operations@).len());
    let given = match &action.worktree_name {
        Some(name) => Some(name.as_str()),
        None => None,
    };
    let display_name = creation::resolve_worktree_name(given, None);
    let creation = CreateWorktree::do_create_worktree(
        CreatePlan {
            repository_count: git_repositories.len(),
            worktree_name: copy_string_option(&action.worktree_name),
            branch_target: copy_target(&action.branch_target),
            fetch_mode: mode,
            askpass_count: askpass_operations.len(),
            is_remote: project.is_remote,
        },
    );
    Ok(
        CreateStart {
            git_repositories,
            non_git_paths,
            display_name,
            askpass_operations,
            activate,
            creation,
        },
    )
}

/// Begins the creation of worktrees that a user asked for, whose workspace is brought to the
/// front.
pub fn handle_create_worktree(project: &ProjectState, action: &CreateWorktreeAction) -> (result:
    Result<CreateStart, Refusal>)
    ensures
        match result {
            Ok(start) => project@.create_refusal() is None && begins_creation(
                start,
                project@,
                *action,
                RemoteBranchFetchMode::Fetch,
                true,
            ),
            Err(refusal) => project@.create_refusal() == Some(
                (refusal.message@, refusal.is_shown),
            ),
        },
{
    create_worktree_workspace_inner(project, action, RemoteBranchFetchMode::Fetch, true)
}

/// Begins the creation of worktrees whose workspace is added in the background.
pub fn create_worktree_workspace(project: &ProjectState, action: &CreateWorktreeAction) -> (result:
    Result<CreateStart, Refusal>)
    ensures
        match result {
            Ok(start) => project@.create_refusal() is None && begins_creation(
                start,
                project@,
                *action,
                RemoteBranchFetchMode::Fetch,
                false,
            ),
            Err(refusal) => project@.create_refusal() == Some(
                (refusal.message@, refusal.is_shown),
            ),
        },
{
    create_worktree_workspace_inner(project, action, RemoteBranchFetchMode::Fetch, false)
}

/// Begins a creation that a user asked for again after a fetch failed: from the local branch, and
/// without a fetch.
pub fn retry_with_local_branch(project: &ProjectState, action: &CreateWorktreeAction) -> (result:
    Result<CreateStart, Refusal>)
    ensures
        match result {
            Ok(start) => project@.create_refusal() is None && begins_creation(
                start,
                project@,
                *action,
                RemoteBranchFetchMode::UseLocal,
                true,
            ),
            Err(refusal) => project@.create_refusal() == Some(
                (refusal.message@, refusal.is_shown),
            ),
        },
{
    create_worktree_workspace_inner(project, action, RemoteBranchFetchMode::UseLocal, true)
}

/// Credentials can be asked for in every repository in which a branch is fetched: a creation that
/// begins is never refused for want of them.
pub proof fn credentials_can_be_asked_for(
    start: CreateStart,
    project: ProjectContents,
    action: CreateWorktreeAction,
    mode: RemoteBranchFetchMode,
    activate: bool,
)
    requires
        begins_creation(start, project, action, mode, activate),
    ensures
        start.creation.plan().fetched_branch() is Some ==> start.creation.plan().askpass_count
            == start.creation.plan().repository_count,
        mode == RemoteBranchFetchMode::UseLocal ==> start.creation.plan().fetched_branch() is None,
{
}

/// A creation that begins is for every repository that a worktree of the project belongs to, from the
/// branch and under the name that were asked for. Where a branch of a remote is to be fetched,
/// credentials are asked for as a fetch from that remote, once for each repository.
pub proof fn creation_begins_as_asked(
    start: CreateStart,
    project: ProjectContents,
    action: CreateWorktreeAction,
    mode: RemoteBranchFetchMode,
    activate: bool,
    i: int,
)
    requires
        begins_creation(start, project, action, mode, activate),
    ensures
        ({
            let plan = start.creation.plan();
            let repositories = classify::owning_ids(
                project.repositories,
                project.visible_worktrees,
            );
            let labels = text::strings(start.askpass_operations@);
            let fetches = action.branch_target@ is RemoteBranch && mode
                == RemoteBranchFetchMode::Fetch;
            &&& start.git_repositories@ == repositories
            &&& terminal_thread::path_contents(start.non_git_paths@) == classify::unowned(
                project.repositories,
                project.visible_worktrees,
            )
            &&& start.activate == activate
            &&& plan.repository_count == repositories.len()
            &&& plan.branch_target == action.branch_target@
            &&& plan.fetch_mode == mode
            &&& plan.is_remote == project.is_remote
            &&& plan.askpass_count == labels.len()
            &&& action.worktree_name matches Some(name) ==> plan.worktree_name == Some(name@)
                && start.display_name@ == name@
            &&& action.worktree_name is None ==> plan.worktree_name is None && start.display_name@
                == "worktree"@
            &&& fetches ==> labels.len() == repositories.len()
            &&& !fetches ==> labels.len() == 0
            &&& 0 <= i < labels.len() ==> labels[i] == "git fetch "@
                + action.branch_target@->RemoteBranch_0.remote_name
            &&& plan.action(start.creation.state()) == Some(
                crate::create_worktree::CreateActionContents::ListWorktrees,
            )
        }),
{
}

/// The workspace that a creation ends in.
pub struct CreatedWorktreeWorkspace {
    pub workspace: u64,
    pub consolidated_worktrees: bool,
}

/// What a created workspace is to be opened with: the paths that were created, and the folders
/// without a repository.
pub fn created_workspace_request(
    worktrees: &CreatedWorktrees,
    non_git_paths: Vec<TreePath>,
    previous_state: PreviousWorkspaceState,
    activate: bool,
) -> (result: OpenRequest)
    ensures
        result@.all_paths == terminal_thread::path_contents(worktrees.created_paths@)
            + terminal_thread::path_contents(non_git_paths@),
        result@.remapping == creation::remapping_contents(worktrees.path_remapping@),
        result@.non_git_paths == terminal_thread::path_contents(non_git_paths@),
        result.previous_state == previous_state,
        result@.operation == WorktreeOperation::Create,
        result@.activate == activate,
{
    let mut all_paths = creation::copy_paths(&worktrees.created_paths);
    push_all(&mut all_paths, &non_git_paths);
    OpenRequest {
        all_paths,
        path_remapping: creation::copy_remapping(&worktrees.path_remapping),
        non_git_paths,
        previous_state,
        operation: WorktreeOperation::Create,
        activate,
    }
}

/// What is to be done when an operation has failed.
pub enum EndAction {
    /// Clear the note of the operation, so that another can begin.
    ClearOperation,
    /// Offer to go on with the local branch.
    OfferLocalBranch(WorktreeFetchFailedNotice),
    /// Show an error of an operation.
    ShowError { operation: String, message: String },
}

/// The contents of an `EndAction`.
pub enum EndActionContents {
    ClearOperation,
    OfferLocalBranch {
        label: Seq<char>,
        use_local_label: Seq<char>,
        operation: Seq<char>,
        output: Seq<char>,
    },
    ShowError { operation: Seq<char>, message: Seq<char> },
}

impl View for EndAction {
    type V = EndActionContents;

    open spec fn view(&self) -> EndActionContents {
        match *self {
            EndAction::ClearOperation => EndActionContents::ClearOperation,
            EndAction::OfferLocalBranch(notice) => EndActionContents::OfferLocalBranch {
                label: notice.label@,
                use_local_label: notice.use_local_label@,
                operation: notice.operation@,
                output: notice.output@,
            },
            EndAction::ShowError { operation, message } => EndActionContents::ShowError {
                operation: operation@,
                message: message@,
            },
        }
    }
}

/// The contents of a vector of end actions.
pub open spec fn end_contents(actions: Seq<EndAction>) -> Seq<EndActionContents> {
    actions.map_values(|action: EndAction| action@)
}

/// How a failed creation is shown: one whose fetch failed offers to go on with the local branch.
pub open spec fn failure_shown(failure: FailureContents) -> EndActionContents {
    match failure {
        FailureContents::Fetch { branch, source_chain, .. } => EndActionContents::OfferLocalBranch {
            label: "git fetch failed for "@ + branch.display(),
            use_local_label: "Use local "@ + branch.display(),
            operation: "fetch "@ + branch.remote_name,
            output: "git fetch "@ + branch.remote_name + " failed:\n"@ + source_chain,
        },
        FailureContents::Other(message) => EndActionContents::ShowError {
            operation: "worktree create"@,
            message,
        },
    }
}

/// A creation whose fetch failed offers to go on with the local branch, which is named; any other
/// failure is shown as it is.
pub proof fn failed_fetch_offers_the_local_branch(
    branch: branch::BranchContents,
    source: Seq<char>,
    source_chain: Seq<char>,
    message: Seq<char>,
)
    ensures
        failure_shown(FailureContents::Fetch { branch, source, source_chain })
            == (EndActionContents::OfferLocalBranch {
            label: "git fetch failed for "@ + (branch.remote_name + "/"@ + branch.branch_name),
            use_local_label: "Use local "@ + (branch.remote_name + "/"@ + branch.branch_name),
            operation: "fetch "@ + branch.remote_name,
            output: "git fetch "@ + branch.remote_name + " failed:\n"@ + source_chain,
        }),
        failure_shown(FailureContents::Other(message)) == (EndActionContents::ShowError {
            operation: "worktree create"@,
            message,
        }),
{
}

/// What is to be done, in this order, when a creation has failed, at whatever step: the note of the
/// operation is cleared, and then the failure is shown.
pub fn end_failed_creation(failure: &CreateFailure) -> (result: Vec<EndAction>)
    ensures
        end_contents(result@) == seq![
            EndActionContents::ClearOperation,
            failure_shown(failure@),
        ],
{
    let shown = match failure {
        CreateFailure::Fetch(error) => EndAction::OfferLocalBranch(error.notice()),
        CreateFailure::Other(message) => EndAction::ShowError {
            operation: "worktree create".to_owned(),
            message: message.clone(),
        },
    };
    let mut result: Vec<EndAction> = Vec::new();
    result.push(EndAction::ClearOperation);
    result.push(shown);
    assert(end_contents(result@) =~= seq![
        EndActionContents::ClearOperation,
        failure_shown(failure@),
    ]);
    result
}

/// What is to be done, in this order, when a switch has failed: the note of the operation is
/// cleared, and then the failure is shown.
pub fn end_failed_switch(message: &str) -> (result: Vec<EndAction>)
    ensures
        end_contents(result@) == seq![
            EndActionContents::ClearOperation,
            EndActionContents::ShowError { operation: "worktree switch"@, message: message@ },
        ],
{
    let mut result: Vec<EndAction> = Vec::new();
    result.push(EndAction::ClearOperation);
    result.push(
        EndAction::ShowError {
            operation: "worktree switch".to_owned(),
            message: message.to_owned(),
        },
    );
    assert(end_contents(result@) =~= seq![
        EndActionContents::ClearOperation,
        EndActionContents::ShowError { operation: "worktree switch"@, message: message@ },
    ]);
    result
}

/// The request to switch to a worktree.
pub struct SwitchWorktreeAction {
    pub path: TreePath,
    pub display_name: String,
}

/// Every directory mapped to one worktree.
pub open spec fn all_mapped_to(
    directories: Seq<Seq<char>>,
    worktree: Seq<char>,
) -> Seq<(Seq<char>, Seq<char>)> {
    directories.map_values(|directory: Seq<char>| (directory, worktree))
}

/// What a worktree that is switched to is opened with: its path and the folders without a
/// repository. The directories of all repositories are mapped to it.
pub fn do_switch_worktree(
    worktree_path: &TreePath,
    git_repo_work_dirs: &Vec<TreePath>,
    non_git_paths: Vec<TreePath>,
    previous_state: PreviousWorkspaceState,
) -> (result: OpenRequest)
    ensures
        result@.all_paths == seq![worktree_path@] + terminal_thread::path_contents(non_git_paths@),
        result@.remapping == all_mapped_to(
            terminal_thread::path_contents(git_repo_work_dirs@),
            worktree_path@,
        ),
        result@.non_git_paths == terminal_thread::path_contents(non_git_paths@),
        result.previous_state == previous_state,
        result@.operation == WorktreeOperation::Switch,
        result@.activate,
{
    let ghost directories = terminal_thread::path_contents(git_repo_work_dirs@);
    let ghost expected = all_mapped_to(directories, worktree_path@);
    let mut path_remapping: Vec<(TreePath, TreePath)> = Vec::new();
    let mut i: usize = 0;
    while i < git_repo_work_dirs.len()
        invariant
            i <= git_repo_work_dirs.len(),
            directories == terminal_thread::path_contents(git_repo_work_dirs@),
            expected == all_mapped_to(directories, worktree_path@),
            creation::remapping_contents(path_remapping@) == expected.take(i as int),
        decreases git_repo_work_dirs.len() - i,
    {
        let ghost before = creation::remapping_contents(path_remapping@);
        path_remapping.push((git_repo_work_dirs[i].clone(), worktree_path.clone()));
        assert(directories[i as int] == git_repo_work_dirs@[i as int]@);
        assert(creation::remapping_contents(path_remapping@) =~= before.push(expected[i as int]));
        assert(expected.take(i + 1) =~= expected.take(i as int).push(expected[i as int]));
        i = i + 1;
    }
    assert(expected.take(i as int) =~= expected);
    let mut all_paths: Vec<TreePath> = Vec::new();
    all_paths.push(worktree_path.clone());
    assert(terminal_thread::path_contents(all_paths@) =~= seq![worktree_path@]);
    push_all(&mut all_paths, &non_git_paths);
    OpenRequest {
        all_paths,
        path_remapping,
        non_git_paths,
        previous_state,
        operation: WorktreeOperation::Switch,
        activate: true,
    }
}

/// The directory that the repository `id` works in: that of the first repository with that
/// identity.
pub open spec fn work_directory_of(repositories: Seq<RootContents>, id: u64) -> Option<
    Seq<char>,
>
    decreases repositories.len(),
{
    if repositories.len() == 0 {
        None
    } else if repositories[0].id == id {
        Some(repositories[0].work_directory)
    } else {
        work_directory_of(repositories.skip(1), id)
    }
}

/// The directories that repositories work in, of those that are known.
pub open spec fn work_directories(repositories: Seq<RootContents>, ids: Seq<u64>) -> Seq<
    Seq<char>,
>
    decreases ids.len(),
{
    if ids.len() == 0 {
        Seq::empty()
    } else {
        match work_directory_of(repositories, ids.last()) {
            Some(directory) => work_directories(repositories, ids.drop_last()).push(directory),
            None => work_directories(repositories, ids.drop_last()),
        }
    }
}

/// Where a worktree is switched to, the directory of every repository that is known is mapped to it,
/// in the order of the repositories; and it is that of the repository.
pub proof fn every_directory_leads_to_the_worktree(
    repositories: Seq<RootContents>,
    ids: Seq<u64>,
    worktree: Seq<char>,
    at: int,
    i: int,
)
    requires
        0 <= i < ids.len(),
        0 <= at < repositories.len(),
        repositories[at].id == ids[i],
        forall|j: int| 0 <= j < at ==> (#[trigger] repositories[j]).id != ids[i],
    ensures
        work_directory_of(repositories, ids[i]) == Some(repositories[at].work_directory),
        all_mapped_to(work_directories(repositories, ids), worktree).contains(
            (repositories[at].work_directory, worktree),
        ),
        work_directories(repositories, ids).len() <= ids.len(),
        all_mapped_to(work_directories(repositories, ids), worktree).len() == work_directories(
            repositories,
            ids,
        ).len(),
    decreases repositories.len() + ids.len(),
{
    lemma_work_directory_of(repositories, ids[i], at);
    lemma_work_directories(repositories, ids, i);
    let directories = work_directories(repositories, ids);
    let k = choose|k: int|
        0 <= k < directories.len() && directories[k] == repositories[at].work_directory;
    assert(all_mapped_to(directories, worktree)[k] == (repositories[at].work_directory, worktree));
}

proof fn lemma_work_directory_of(repositories: Seq<RootContents>, id: u64, at: int)
    requires
        0 <= at < repositories.len(),
        repositories[at].id == id,
        forall|j: int| 0 <= j < at ==> (#[trigger] repositories[j]).id != id,
    ensures
        work_directory_of(repositories, id) == Some(repositories[at].work_directory),
    decreases at,
{
    if at > 0 {
        assert(repositories[0].id != id);
        let rest = repositories.skip(1);
        assert(rest[at - 1] == repositories[at]);
        assert forall|j: int| 0 <= j < at - 1 implies (#[trigger] rest[j]).id != id by {
            assert(rest[j] == repositories[j + 1]);
        }
        lemma_work_directory_of(rest, id, at - 1);
    }
}

proof fn lemma_work_directories(repositories: Seq<RootContents>, ids: Seq<u64>, i: int)
    requires
        0 <= i < ids.len(),
        work_directory_of(repositories, ids[i]) is Some,
    ensures
        work_directories(repositories, ids).contains(work_directory_of(repositories, ids[i])->0),
        work_directories(repositories, ids).len() <= ids.len(),
    decreases ids.len(),
{
    let wanted = work_directory_of(repositories, ids[i])->0;
    let rest = ids.drop_last();
    let earlier = work_directories(repositories, rest);
    let after = work_directories(repositories, ids);
    lemma_work_directories_bound(repositories, rest);
    if i < rest.len() {
        assert(rest[i] == ids[i]);
        lemma_work_directories(repositories, rest, i);
        let k = choose|k: int| 0 <= k < earlier.len() && earlier[k] == wanted;
        assert(after[k] == wanted);
    } else {
        assert(after[earlier.len() as int] == wanted);
    }
}

proof fn lemma_work_directories_bound(repositories: Seq<RootContents>, ids: Seq<u64>)
    ensures
        work_directories(repositories, ids).len() <= ids.len(),
    decreases ids.len(),
{
    if ids.len() > 0 {
        lemma_work_directories_bound(repositories, ids.drop_last());
    }
}

/// The directories of more repositories come behind those of the first.
pub proof fn work_directories_come_in_order(
    repositories: Seq<RootContents>,
    first: Seq<u64>,
    more: Seq<u64>,
)
    ensures
        work_directories(repositories, first + more) == work_directories(repositories, first)
            + work_directories(repositories, more),
    decreases more.len(),
{
    let whole = first + more;
    if more.len() == 0 {
        assert(whole =~= first);
        assert(work_directories(repositories, first) + work_directories(repositories, more)
            =~= work_directories(repositories, first));
    } else {
        work_directories_come_in_order(repositories, first, more.drop_last());
        assert(whole.drop_last() =~= first + more.drop_last());
        assert(whole.last() == more.last());
        assert(work_directories(repositories, whole) =~= work_directories(repositories, first)
            + work_directories(repositories, more));
    }
}

fn find_work_directory(repositories: &Vec<RepositoryRoot>, id: u64) -> (result: Option<TreePath>)
    ensures
        open_workspace::path_option(result) == work_directory_of(
            classify::root_contents(repositories@),
            id,
        ),
{
    let ghost all = classify::root_contents(repositories@);
    let mut i: usize = 0;
    assert(all.skip(0) =~= all);
    while i < repositories.len()
        invariant
            i <= repositories.len(),
            all == classify::root_contents(repositories@),
            work_directory_of(all, id) == work_directory_of(all.skip(i as int), id),
        decreases repositories.len() - i,
    {
        assert(all.skip(i as int)[0] == repositories@[i as int]@);
        assert(all.skip(i as int).skip(1) =~= all.skip(i + 1));
        if repositories[i].id == id {
            return Some(repositories[i].work_directory.clone());
        }
        i = i + 1;
    }
    None
}

/// A switch that has begun: the name that is shown, and what the workspace is opened with.
pub struct SwitchStart {
    pub display_name: String,
    pub request: OpenRequest,
}

/// Begins to switch to a worktree, unless that is refused.
pub fn handle_switch_worktree(
    project: &ProjectState,
    action: &SwitchWorktreeAction,
    previous_state: PreviousWorkspaceState,
) -> (result: Result<SwitchStart, Refusal>)
    ensures
        match result {
            Ok(start) => {
                &&& project@.switch_refusal() is None
                &&& start.display_name@ == action.display_name@
                &&& start.request@.all_paths == seq![action.path@] + project@.non_git_paths()
                &&& start.request@.remapping == all_mapped_to(
                    work_directories(project@.repositories, project@.git_repositories()),
                    action.path@,
                )
                &&& start.request@.non_git_paths == project@.non_git_paths()
                &&& start.request.previous_state == previous_state
                &&& start.request@.operation == WorktreeOperation::Switch
                &&& start.request@.activate
            },
            Err(refusal) => project@.switch_refusal() == Some(
                (refusal.message@, refusal.is_shown),
            ),
        },
{
    assert(project.repositories@.len() == project@.repositories.len());
    if project.repositories.len() == 0 {
        return Err(Refusal::new("switch_to_worktree: no git repository in the project", false));
    }
    if project.is_via_collab {
        return Err(Refusal::new("switch_to_worktree: not supported in collab projects", false));
    }
    if project.has_active_operation {
        return Err(Refusal::new("A worktree operation is already in progress", true));
    }
    let (git_repositories, non_git_paths) = classify_worktrees(
        &project.repositories,
        &project.visible_worktrees,
    );
    let ghost roots = project@.repositories;
    let mut work_dirs: Vec<TreePath> = Vec::new();
    let mut i: usize = 0;
    assert(git_repositories@.take(0) =~= Seq::empty());
    assert(terminal_thread::path_contents(work_dirs@) =~= Seq::empty());
    while i < git_repositories.len()
        invariant
            i <= git_repositories.len(),
            roots == project@.repositories,
            terminal_thread::path_contents(work_dirs@) == work_directories(
                roots,
                git_repositories@.take(i as int),
            ),
        decreases git_repositories.len() - i,
    {
        assert(git_repositories@.take(i + 1).drop_last() =~= git_repositories@.take(i as int));
        assert(git_repositories@.take(i + 1).last() == git_repositories@[i as int]);
        let ghost before = terminal_thread::path_contents(work_dirs@);
        if let Some(directory) = find_work_directory(&project.repositories, git_repositories[i]) {
            work_dirs.push(directory);
            assert(terminal_thread::path_contents(work_dirs@) =~= before.push(directory@));
        }
        i = i + 1;
    }
    assert(git_repositories@.take(i as int) =~= git_repositories@);
    let request = do_switch_worktree(&action.path, &work_dirs, non_git_paths, previous_state);
    Ok(SwitchStart { display_name: action.display_name.clone(), request })
}

/// What tasks are run for before a worktree is removed: the workspace that runs them, if it is
/// still there, the worktree whose tasks they are, and the main worktree.
pub struct RemoveWorktreeTaskContext {
    workspace: Option<u64>,
    task_source_worktree_id: u64,
    main_git_worktree: Option<TreePath>,
}

/// The run of the tasks before a worktree is removed.
pub struct RemoveWorktreeTasks {
    pub workspace: u64,
    pub task_source_worktree_id: u64,
    pub worktree_path: TreePath,
    pub main_git_worktree: Option<TreePath>,
}

impl RemoveWorktreeTaskContext {
    /// The workspace, if it is still there.
    pub closed spec fn workspace(&self) -> Option<u64> {
        self.workspace
    }

    /// The worktree whose tasks are run.
    pub closed spec fn task_source(&self) -> u64 {
        self.task_source_worktree_id
    }

    /// The main worktree.
    pub closed spec fn main_worktree(&self) -> Option<Seq<char>> {
        open_workspace::path_option(self.main_git_worktree)
    }

    /// A context.
    pub fn new(
        workspace: Option<u64>,
        task_source_worktree_id: u64,
        main_git_worktree: Option<TreePath>,
    ) -> (result: RemoveWorktreeTaskContext)
        ensures
            result.workspace() == workspace,
            result.task_source() == task_source_worktree_id,
            result.main_worktree() == open_workspace::path_option(main_git_worktree),
    {
        RemoveWorktreeTaskContext { workspace, task_source_worktree_id, main_git_worktree }
    }
}

/// The tasks to run before the worktree at a path is removed. Where the workspace is gone there
/// are none, and the worktree can be removed; else what comes of the tasks decides.
pub fn run_remove_worktree_tasks(
    context: RemoveWorktreeTaskContext,
    worktree_path: TreePath,
) -> (result: Option<RemoveWorktreeTasks>)
    ensures
        match result {
            Some(tasks) => {
                &&& context.workspace() == Some(tasks.workspace)
                &&& tasks.task_source_worktree_id == context.task_source()
                &&& tasks.worktree_path@ == worktree_path@
                &&& open_workspace::path_option(tasks.main_git_worktree)
                    == context.main_worktree()
            },
            None => context.workspace() is None,
        },
{
    match context.workspace {
        Some(workspace) => Some(
            RemoveWorktreeTasks {
                workspace,
                task_source_worktree_id: context.task_source_worktree_id,
                worktree_path,
                main_git_worktree: context.main_git_worktree,
            },
        ),
        None => None,
    }
}

} // verus!
