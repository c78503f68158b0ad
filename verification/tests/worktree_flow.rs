use worktree_sessions::branch::NewWorktreeBranchTarget;
use worktree_sessions::classify::RepositoryRoot;
use worktree_sessions::create_worktree::{
    CreateAction, CreateEvent, CreateFailure, CreateWorktree, FetchFailure,
};
use worktree_sessions::creation::{
    await_and_rollback_on_failure, existing_worktree_names, existing_worktree_paths,
    resolve_worktree_name, start_worktree_creations, CreationAction, CreationEvent, CreationTarget,
    RemovalAction, RemovalEvent, Rollback,
};
use worktree_sessions::include_copy::{CopyAction, CopyEvent};
use worktree_sessions::open_workspace::{
    maybe_propagate_worktree_trust, remap_path, DockPosition, OpenAction, OpenEvent, OpenRequest,
    OpenWorktreeWorkspace, PreviousWorkspaceState, WorktreeOperation,
};
use worktree_sessions::path::TreePath;
use worktree_sessions::worktree_service::{
    create_worktree_workspace, created_workspace_request, end_failed_creation, end_failed_switch,
    handle_create_worktree, handle_switch_worktree, retry_with_local_branch,
    run_remove_worktree_tasks, CreateWorktreeAction, EndAction, ProjectState,
    RemoveWorktreeTaskContext, SwitchWorktreeAction,
};

fn path(text: &str) -> TreePath {
    TreePath::parse(text)
}

fn texts(paths: &[TreePath]) -> Vec<String> {
    paths.iter().map(|path| path.to_text()).collect()
}

fn target(work_directory: &str, new_path: &str) -> CreationTarget {
    CreationTarget { work_directory: path(work_directory), new_path: Ok(path(new_path)) }
}

#[test]
fn names_of_worktrees() {
    assert_eq!(resolve_worktree_name(Some("mine"), Some("other".to_string())), "mine");
    assert_eq!(resolve_worktree_name(None, Some("other".to_string())), "other");
    assert_eq!(resolve_worktree_name(None, None), "worktree");
    let listings = vec![
        Ok(vec![path("/wt/quiet-fox/repo"), path("/repo")]),
        Err("canceled".to_string()),
        Ok(vec![path("/")]),
    ];
    let paths = existing_worktree_paths(&listings);
    assert_eq!(texts(&paths), vec!["/wt/quiet-fox/repo", "/repo", "/"]);
    assert_eq!(existing_worktree_names(&paths), vec!["quiet-fox"]);
}

#[test]
fn linked_worktrees_of_one_repository_are_created_once() {
    let targets = vec![
        target("/repo", "/wt/x/repo"),
        target("/repo-linked", "/wt/x/repo/"),
        target("/other", "/wt/x/other"),
    ];
    let schedule = start_worktree_creations(&targets, &vec![path("/repo")]);
    assert_eq!(schedule.creations, vec![0, 2]);
    assert_eq!(schedule.path_remapping.len(), 3);
    assert_eq!(schedule.path_remapping[1].1.to_text(), "/wt/x/repo/");
    assert_eq!(schedule.error, None);

    let written = vec![target("/repo", "/wt//x/repo/")];
    let schedule = start_worktree_creations(&written, &vec![path("/wt/x/repo")]);
    assert_eq!(schedule.error.as_deref(), Some("A worktree already exists at /wt//x/repo/"));

    let schedule = start_worktree_creations(&targets, &vec![path("/wt/x/other")]);
    assert_eq!(schedule.creations, vec![0]);
    assert_eq!(schedule.error.as_deref(), Some("A worktree already exists at /wt/x/other"));

    let targets = vec![CreationTarget {
        work_directory: path("/repo"),
        new_path: Err("bad name".to_string()),
    }];
    let schedule = start_worktree_creations(&targets, &vec![]);
    assert_eq!(schedule.error.as_deref(), Some("bad name"));
    assert!(schedule.path_remapping.is_empty());
}

#[test]
fn all_worktrees_or_none() {
    let paths = || vec![path("/a"), path("/b")];
    let mut wait = await_and_rollback_on_failure(paths());
    assert_eq!(wait.action(), Some(CreationAction::AwaitCreation));
    wait.advance(CreationEvent::Completed(1, Ok(())));
    wait.advance(CreationEvent::Completed(1, Err("twice".to_string())));
    assert!(wait.outcome().is_none());
    wait.advance(CreationEvent::Completed(0, Ok(())));
    assert_eq!(texts(&wait.outcome().unwrap().ok().unwrap()), vec!["/b", "/a"]);

    let mut wait = await_and_rollback_on_failure(paths());
    wait.advance(CreationEvent::Completed(0, Err("first".to_string())));
    assert_eq!(wait.action(), Some(CreationAction::AwaitCreation));
    wait.advance(CreationEvent::Completed(1, Err("second".to_string())));
    assert_eq!(wait.action(), Some(CreationAction::Removal(RemovalAction::RequestRemovals(2))));
    wait.advance(CreationEvent::Removal(RemovalEvent::Removed));
    assert_eq!(wait.action(), Some(CreationAction::Removal(RemovalAction::RequestRemovals(2))));
    wait.advance(CreationEvent::Removal(RemovalEvent::Requested));
    assert_eq!(wait.action(), Some(CreationAction::Removal(RemovalAction::AwaitRemoval(0))));
    wait.advance(CreationEvent::Removal(RemovalEvent::Removed));
    wait.advance(CreationEvent::Removal(RemovalEvent::NotRemoved));
    assert_eq!(wait.action(), Some(CreationAction::Removal(RemovalAction::RemoveDirectory(1))));
    wait.advance(CreationEvent::Removal(RemovalEvent::Directory(Err("busy".to_string()))));
    assert_eq!(
        wait.outcome().unwrap().err().unwrap(),
        "Failed to create worktree: first\n\nFailed to clean up: /b: failed to remove directory: busy"
    );

    let mut wait = await_and_rollback_on_failure(paths());
    wait.advance(CreationEvent::TimedOut);
    wait.advance(CreationEvent::Removal(RemovalEvent::Requested));
    wait.advance(CreationEvent::Removal(RemovalEvent::Removed));
    wait.advance(CreationEvent::Removal(RemovalEvent::Removed));
    assert_eq!(
        wait.outcome().unwrap().err().unwrap(),
        "Failed to create worktree: Timed out after 120 seconds while creating worktrees: /a, /b"
    );
    let mut wait = await_and_rollback_on_failure(vec![path("/a/"), path("/b//c")]);
    wait.advance(CreationEvent::TimedOut);
    wait.advance(CreationEvent::Removal(RemovalEvent::Requested));
    wait.advance(CreationEvent::Removal(RemovalEvent::Removed));
    wait.advance(CreationEvent::Removal(RemovalEvent::NotRemoved));
    wait.advance(CreationEvent::Removal(RemovalEvent::Directory(Err("busy".to_string()))));
    assert_eq!(
        wait.outcome().unwrap().err().unwrap(),
        "Failed to create worktree: Timed out after 120 seconds while creating worktrees: /a/, /b//c\n\nFailed to clean up: /b//c: failed to remove directory: busy"
    );
    assert!(await_and_rollback_on_failure(vec![]).outcome().unwrap().is_ok());
}

#[test]
fn removals_are_reported_together() {
    let mut rollback = Rollback::rollback_worktrees(&vec![path("/a"), path("/b")]);
    assert_eq!(rollback.action(), Some(RemovalAction::RequestRemovals(2)));
    rollback.advance(RemovalEvent::Requested);
    for message in ["one", "two"] {
        rollback.advance(RemovalEvent::NotRemoved);
        rollback.advance(RemovalEvent::Directory(Err(message.to_string())));
    }
    assert!(rollback.is_finished());
    assert_eq!(rollback.action(), None);
    assert_eq!(
        rollback.with_failures("Failed"),
        "Failed\n\nFailed to clean up: /a: failed to remove directory: one, /b: failed to remove directory: two"
    );
}

fn project() -> ProjectState {
    ProjectState {
        repositories: vec![
            RepositoryRoot { id: 7, work_directory: path("/repo") },
            RepositoryRoot { id: 8, work_directory: path("/lib") },
        ],
        visible_worktrees: vec![path("/repo"), path("/lib/sub"), path("/plain")],
        is_via_collab: false,
        has_active_operation: false,
        is_remote: false,
        is_disconnected: false,
    }
}

fn from_remote() -> CreateWorktreeAction {
    CreateWorktreeAction {
        worktree_name: None,
        branch_target: NewWorktreeBranchTarget::RemoteBranch {
            remote_name: "origin".to_string(),
            branch_name: "main".to_string(),
        },
    }
}

fn refusal(project: &ProjectState) -> (String, bool) {
    let refusal = handle_create_worktree(project, &from_remote()).err().unwrap();
    (refusal.message, refusal.is_shown)
}

#[test]
fn creations_are_refused() {
    let mut state = project();
    state.repositories.clear();
    assert_eq!(
        refusal(&state),
        ("create_worktree: no git repository in the project".to_string(), false)
    );
    let mut state = project();
    state.is_via_collab = true;
    assert_eq!(
        refusal(&state),
        ("create_worktree: not supported in collab projects".to_string(), false)
    );
    let mut state = project();
    state.has_active_operation = true;
    assert_eq!(
        refusal(&state),
        ("A worktree operation is already in progress".to_string(), false)
    );
    let mut state = project();
    state.visible_worktrees = vec![path("/plain")];
    assert_eq!(refusal(&state), ("No git repositories found in the project".to_string(), true));
    let mut state = project();
    state.is_disconnected = true;
    assert!(handle_create_worktree(&state, &from_remote()).is_ok());
    state.is_remote = true;
    assert_eq!(
        refusal(&state),
        ("Cannot create worktree: remote connection is not active".to_string(), true)
    );
}

fn switch_refusal(project: &ProjectState) -> (String, bool) {
    let action = SwitchWorktreeAction { path: path("/wt"), display_name: "wt".to_string() };
    let refusal = handle_switch_worktree(project, &action, nothing_open()).err().unwrap();
    (refusal.message, refusal.is_shown)
}

#[test]
fn switches_are_refused() {
    let mut state = project();
    state.repositories.clear();
    assert_eq!(
        switch_refusal(&state),
        ("switch_to_worktree: no git repository in the project".to_string(), false)
    );
    let mut state = project();
    state.is_via_collab = true;
    assert_eq!(
        switch_refusal(&state),
        ("switch_to_worktree: not supported in collab projects".to_string(), false)
    );
    let mut state = project();
    state.has_active_operation = true;
    assert_eq!(
        switch_refusal(&state),
        ("A worktree operation is already in progress".to_string(), true)
    );
}

fn nothing_open() -> PreviousWorkspaceState {
    PreviousWorkspaceState {
        open_file_paths: vec![],
        active_file_path: None,
        focused_dock: None,
    }
}

fn drive(
    work: &mut CreateWorktree,
    reply: impl Fn(&CreateAction) -> CreateEvent,
) -> Vec<String> {
    let mut steps = Vec::new();
    while let Some(action) = work.action() {
        steps.push(match &action {
            CreateAction::ListWorktrees => "list".to_string(),
            CreateAction::Fetch { remote_name } => format!("fetch {remote_name}"),
            CreateAction::MakeUpName { existing } => format!("name besides {existing:?}"),
            CreateAction::ChooseTargets { name } => format!("choose {name}"),
            CreateAction::StartCreations { repositories, paths, base_ref, shown_name } => {
                format!("start {repositories:?} {:?} {base_ref:?} {shown_name:?}", texts(paths))
            }
            CreateAction::Creation(action) => format!("{action:?}"),
            CreateAction::Copy(action) => format!("{action:?}"),
            CreateAction::Removal(action) => format!("{action:?}"),
            CreateAction::Record { repositories, paths } => {
                format!("record {repositories:?} {:?}", texts(paths))
            }
        });
        work.advance(reply(&action));
    }
    steps
}

fn usual(action: &CreateAction) -> CreateEvent {
    match action {
        CreateAction::ListWorktrees => {
            CreateEvent::Listed(vec![Ok(vec![path("/wt/old/repo")]), Ok(vec![])])
        }
        CreateAction::Fetch { .. } => CreateEvent::Fetched(vec![Ok(()), Ok(())]),
        CreateAction::MakeUpName { .. } => CreateEvent::Named(Some("quiet-fox".to_string())),
        CreateAction::ChooseTargets { name } => CreateEvent::Chosen(vec![
            target("/repo", &format!("/wt/{name}/repo")),
            target("/lib", &format!("/wt/{name}/lib")),
        ]),
        CreateAction::StartCreations { .. } => CreateEvent::Started,
        CreateAction::Creation(CreationAction::AwaitCreation) => CreateEvent::Creation(
            CreationEvent::TimedOut,
        ),
        CreateAction::Creation(CreationAction::Removal(RemovalAction::RequestRemovals(_))) => {
            CreateEvent::Creation(CreationEvent::Removal(RemovalEvent::Requested))
        }
        CreateAction::Creation(CreationAction::Removal(_)) => {
            CreateEvent::Creation(CreationEvent::Removal(RemovalEvent::Removed))
        }
        CreateAction::Copy(CopyAction::IsFile(_)) => CreateEvent::Copy(CopyEvent::IsFile(false)),
        CreateAction::Copy(_) => CreateEvent::Copy(CopyEvent::Failed("disk".to_string())),
        CreateAction::Removal(RemovalAction::RequestRemovals(_)) => {
            CreateEvent::Removal(RemovalEvent::Requested)
        }
        CreateAction::Removal(_) => CreateEvent::Removal(RemovalEvent::Removed),
        CreateAction::Record { .. } => CreateEvent::Recorded,
    }
}

fn other_message(work: &CreateWorktree) -> String {
    match work.outcome().unwrap().err().unwrap() {
        CreateFailure::Other(message) => message,
        CreateFailure::Fetch(_) => panic!("the fetch should not fail"),
    }
}

#[test]
fn worktrees_are_created_step_by_step() {
    let mut start = create_worktree_workspace(&project(), &from_remote()).ok().unwrap();
    assert_eq!(start.git_repositories, vec![7, 8]);
    assert_eq!(texts(&start.non_git_paths), vec!["/plain"]);
    assert_eq!(start.display_name, "worktree");
    assert_eq!(start.askpass_operations, vec!["git fetch origin", "git fetch origin"]);
    assert!(!start.activate);
    let done = std::cell::Cell::new(2);
    let steps = drive(&mut start.creation, |action| match action {
        CreateAction::Creation(CreationAction::AwaitCreation) => {
            done.set(done.get() - 1);
            CreateEvent::Creation(CreationEvent::Completed(done.get(), Ok(())))
        }
        _ => usual(action),
    });
    assert_eq!(
        steps,
        vec![
            "list",
            "fetch origin",
            "name besides [\"old\"]",
            "choose quiet-fox",
            "start [0, 1] [\"/wt/quiet-fox/repo\", \"/wt/quiet-fox/lib\"] Some(\"refs/remotes/origin/main\") Some(\"quiet-fox\")",
            "AwaitCreation",
            "AwaitCreation",
            "IsFile(\"/repo/.worktreeinclude\")",
            "IsFile(\"/lib/.worktreeinclude\")",
            "record [0, 1] [\"/wt/quiet-fox/repo\", \"/wt/quiet-fox/lib\"]",
        ]
    );
    let worktrees = start.creation.outcome().unwrap().ok().unwrap();
    assert_eq!(texts(&worktrees.created_paths), vec!["/wt/quiet-fox/lib", "/wt/quiet-fox/repo"]);
    assert!(!worktrees.consolidated_worktrees);
    let request = created_workspace_request(&worktrees, start.non_git_paths, nothing_open(), false);
    assert_eq!(
        texts(&request.all_paths),
        vec!["/wt/quiet-fox/lib", "/wt/quiet-fox/repo", "/plain"]
    );
}

#[test]
fn consolidated_worktrees_are_told() {
    let mut start = handle_create_worktree(&project(), &from_remote()).ok().unwrap();
    drive(&mut start.creation, |action| match action {
        CreateAction::ChooseTargets { .. } => CreateEvent::Chosen(vec![
            target("/repo", "/wt/x"),
            target("/lib", "/wt/x"),
        ]),
        CreateAction::Creation(_) => {
            CreateEvent::Creation(CreationEvent::Completed(0, Ok(())))
        }
        _ => usual(action),
    });
    let worktrees = start.creation.outcome().unwrap().ok().unwrap();
    assert!(worktrees.consolidated_worktrees);
    assert_eq!(texts(&worktrees.created_paths), vec!["/wt/x"]);
}

#[test]
fn local_branches_and_remote_projects() {
    let mut state = project();
    state.is_remote = true;
    let mut action = from_remote();
    action.worktree_name = Some("mine".to_string());
    let mut start = retry_with_local_branch(&state, &action).ok().unwrap();
    assert_eq!(start.display_name, "mine");
    assert!(start.askpass_operations.is_empty());
    assert!(start.activate);
    let done = std::cell::Cell::new(2);
    let steps = drive(&mut start.creation, |action| match action {
        CreateAction::Creation(CreationAction::AwaitCreation) => {
            done.set(done.get() - 1);
            CreateEvent::Creation(CreationEvent::Completed(done.get(), Ok(())))
        }
        _ => usual(action),
    });
    assert_eq!(steps[0], "list");
    assert_eq!(steps[1], "choose mine");
    assert!(steps.iter().all(|step| !step.contains("worktreeinclude")));
}

#[test]
fn failed_creations_are_told() {
    let begin = || handle_create_worktree(&project(), &from_remote()).ok().unwrap().creation;

    let mut work = begin();
    let steps = drive(&mut work, |action| match action {
        CreateAction::Fetch { .. } => CreateEvent::Fetched(vec![
            Ok(()),
            Err(FetchFailure {
                source: "denied".to_string(),
                source_chain: "denied: no key".to_string(),
            }),
        ]),
        _ => usual(action),
    });
    assert_eq!(steps, vec!["list", "fetch origin"]);
    let failure = work.outcome().unwrap().err().unwrap();
    let end = end_failed_creation(&failure);
    assert_eq!(end.len(), 2);
    assert!(matches!(end[0], EndAction::ClearOperation));
    match &end[1] {
        EndAction::OfferLocalBranch(notice) => {
            assert_eq!(notice.label, "git fetch failed for origin/main");
            assert_eq!(notice.output, "git fetch origin failed:\ndenied: no key");
        }
        _ => panic!("the notice should offer the local branch"),
    }

    let mut work = begin();
    drive(&mut work, |action| match action {
        CreateAction::ListWorktrees => {
            CreateEvent::Listed(vec![Ok(vec![path("/wt/quiet-fox/lib")]), Ok(vec![])])
        }
        _ => usual(action),
    });
    assert_eq!(other_message(&work), "A worktree already exists at /wt/quiet-fox/lib");

    let mut work = begin();
    drive(&mut work, usual);
    assert_eq!(
        other_message(&work),
        "Failed to create worktree: Timed out after 120 seconds while creating worktrees: /wt/quiet-fox/repo, /wt/quiet-fox/lib"
    );

    let mut work = begin();
    let done = std::cell::Cell::new(2);
    let steps = drive(&mut work, |action| match action {
        CreateAction::Creation(CreationAction::AwaitCreation) => {
            done.set(done.get() - 1);
            CreateEvent::Creation(CreationEvent::Completed(done.get(), Ok(())))
        }
        CreateAction::Copy(CopyAction::IsFile(_)) => CreateEvent::Copy(CopyEvent::IsFile(true)),
        CreateAction::Removal(RemovalAction::AwaitRemoval(_)) => {
            CreateEvent::Removal(RemovalEvent::NotRemoved)
        }
        CreateAction::Removal(RemovalAction::RemoveDirectory(_)) => {
            CreateEvent::Removal(RemovalEvent::Directory(Ok(())))
        }
        _ => usual(action),
    });
    assert_eq!(
        other_message(&work),
        "Failed to copy worktree setup files: loading /repo/.worktreeinclude: disk"
    );
    assert_eq!(
        steps[steps.len() - 5..].to_vec(),
        vec!["RequestRemovals(2)", "AwaitRemoval(0)", "RemoveDirectory(0)", "AwaitRemoval(1)", "RemoveDirectory(1)"]
    );

    let mut work = begin();
    drive(&mut work, |_| CreateEvent::WindowGone("window was closed".to_string()));
    assert_eq!(other_message(&work), "window was closed");
    let end = end_failed_creation(&work.outcome().unwrap().err().unwrap());
    assert!(matches!(end[0], EndAction::ClearOperation));
    assert!(matches!(
        &end[1],
        EndAction::ShowError { operation, message }
            if operation == "worktree create" && message == "window was closed"
    ));
    let end = end_failed_switch("no host");
    assert_eq!(end.len(), 2);
    assert!(matches!(end[0], EndAction::ClearOperation));
    assert!(matches!(
        &end[1],
        EndAction::ShowError { operation, message }
            if operation == "worktree switch" && message == "no host"
    ));
}

fn open_request(operation: WorktreeOperation, activate: bool) -> OpenRequest {
    OpenRequest {
        all_paths: vec![path("/wt/x"), path("/plain")],
        path_remapping: vec![
            (path("/repo"), path("/wt/x")),
            (path("/repo/inner"), path("/wt/inner")),
        ],
        non_git_paths: vec![path("/plain")],
        previous_state: PreviousWorkspaceState {
            open_file_paths: vec![
                path("/repo/a"),
                path("/plain/b"),
                path("/elsewhere"),
                path("/repo/./a"),
                path("/repo/inner/c"),
            ],
            active_file_path: Some(path("/repo/a")),
            focused_dock: None,
        },
        operation,
        activate,
    }
}

fn open_with(
    request: OpenRequest,
    reply: impl Fn(&OpenAction) -> OpenEvent,
) -> (Vec<String>, Result<(), String>) {
    let mut work = OpenWorktreeWorkspace::open_worktree_workspace(request, true);
    let mut steps = Vec::new();
    while let Some(action) = work.action() {
        steps.push(match &action {
            OpenAction::OpenWorkspace { paths, transfer_state } => {
                format!("open {:?} {transfer_state}", texts(paths))
            }
            OpenAction::DismissConnectionDialog => "dismiss".to_string(),
            OpenAction::HideOperation => "hide".to_string(),
            OpenAction::ClearOperation => "clear".to_string(),
            OpenAction::AwaitInitialScan => "scan".to_string(),
            OpenAction::AwaitRepositories => "repositories".to_string(),
            OpenAction::PropagateTrust { paths } => format!("trust {:?}", texts(paths)),
            OpenAction::Restore { tell_plain_folders, files, focus_center } => {
                format!("restore {tell_plain_folders} {:?} {focus_center}", texts(files))
            }
            OpenAction::RefreshTrustDialog => "refresh".to_string(),
            OpenAction::Activate { foreground, focus_dock } => {
                format!("activate {foreground} {focus_dock:?}")
            }
            OpenAction::RunSetup { worktrees } => {
                let pairs: Vec<(String, String)> =
                    worktrees.iter().map(|(from, to)| (from.to_text(), to.to_text())).collect();
                format!("set up {pairs:?}")
            }
            OpenAction::ShowError(message) => format!("show {message}"),
        });
        work.advance(reply(&action));
    }
    (steps, work.outcome().unwrap())
}

fn well(action: &OpenAction) -> OpenEvent {
    match action {
        OpenAction::OpenWorkspace { .. } | OpenAction::RunSetup { .. } => OpenEvent::Ended(Ok(())),
        OpenAction::AwaitInitialScan => OpenEvent::TimedOut,
        _ => OpenEvent::Done,
    }
}

#[test]
fn created_worktrees_take_over_what_was_open() {
    let (steps, outcome) = open_with(open_request(WorktreeOperation::Create, true), well);
    assert_eq!(outcome, Ok(()));
    assert_eq!(
        steps,
        vec![
            "set up [(\"/repo\", \"/wt/x\"), (\"/repo/inner\", \"/wt/inner\")]",
            "open [\"/wt/x\", \"/plain\"] true",
            "dismiss",
            "hide",
            "scan",
            "repositories",
            "trust [\"/wt/x\", \"/plain\"]",
            "refresh",
            "restore true [\"/plain/b\", \"/wt/inner/c\", \"/wt/x/a\"] true",
            "activate true None",
            "clear",
        ]
    );
    let mut request = open_request(WorktreeOperation::Create, true);
    request.previous_state.focused_dock = Some(DockPosition::Left);
    let (steps, _) = open_with(request, well);
    assert_eq!(steps[8], "restore true [\"/plain/b\", \"/wt/inner/c\", \"/wt/x/a\"] false");
    assert_eq!(steps[9], "activate true Some(Left)");
}

#[test]
fn background_worktrees_are_clean_checkouts() {
    let (steps, outcome) = open_with(open_request(WorktreeOperation::Create, false), well);
    assert_eq!(outcome, Ok(()));
    assert!(steps[0].starts_with("set up"));
    assert_eq!(steps[1], "open [\"/wt/x\", \"/plain\"] false");
    assert_eq!(steps[7..].to_vec(), vec!["refresh", "activate false None", "clear"]);
}

#[test]
fn test_create_worktree_hook_does_not_run_when_switching_back_to_main_worktree() {
    let setups = |steps: &[String]| steps.iter().filter(|step| step.starts_with("set up")).count();
    let mut request = open_request(WorktreeOperation::Create, true);
    request.path_remapping = vec![(path("/repo"), path("/wt/x")), (path("/lib"), path("/wt/x/"))];
    let (created, _) = open_with(request, well);
    assert_eq!(created[0], "set up [(\"/repo\", \"/wt/x\")]");
    assert_eq!(
        setups(&created),
        1,
        "create_worktree hook should run once for the created linked worktree"
    );
    let action = SwitchWorktreeAction { path: path("/repo"), display_name: "main".to_string() };
    let start = handle_switch_worktree(&project(), &action, nothing_open()).ok().unwrap();
    assert_eq!(start.display_name, "main");
    assert_eq!(texts(&start.request.all_paths), vec!["/repo", "/plain"]);
    let mapped: Vec<(String, String)> = start
        .request
        .path_remapping
        .iter()
        .map(|(from, to)| (from.to_text(), to.to_text()))
        .collect();
    assert_eq!(
        mapped,
        vec![
            ("/repo".to_string(), "/repo".to_string()),
            ("/lib".to_string(), "/repo".to_string()),
        ]
    );
    let (switched, outcome) = open_with(start.request, well);
    assert_eq!(outcome, Ok(()));
    assert_eq!(
        setups(&switched),
        0,
        "switching back to the main worktree should not rerun create_worktree hooks"
    );
    assert_eq!(switched[6..].to_vec(), vec!["refresh", "activate true None", "clear"]);
}

#[test]
fn workspaces_that_do_not_open_are_told() {
    let request = || open_request(WorktreeOperation::Create, true);
    let work = OpenWorktreeWorkspace::open_worktree_workspace(request(), false);
    assert!(work.action().is_none());
    assert_eq!(
        work.outcome(),
        Some(Err("No window handle available for workspace creation".to_string()))
    );
    let (steps, outcome) = open_with(request(), |action| match action {
        OpenAction::OpenWorkspace { .. } => OpenEvent::TimedOut,
        _ => well(action),
    });
    assert_eq!(steps[2..].to_vec(), vec!["clear", "dismiss"]);
    assert_eq!(
        outcome,
        Err("Timed out after 60 seconds waiting for the worktree workspace to open".to_string())
    );
    let (steps, outcome) = open_with(request(), |action| match action {
        OpenAction::OpenWorkspace { .. } => OpenEvent::Ended(Err("no host".to_string())),
        _ => well(action),
    });
    assert_eq!(steps[2..].to_vec(), vec!["dismiss"]);
    assert_eq!(outcome, Err("no host".to_string()));
    let (steps, outcome) = open_with(request(), |action| match action {
        OpenAction::RunSetup { .. } => OpenEvent::Ended(Err("task failed".to_string())),
        _ => well(action),
    });
    let told = "Failed to set up worktree: task failed".to_string();
    let (unfailing, _) = open_with(request(), well);
    assert_eq!(steps[..10].to_vec(), unfailing[..10].to_vec());
    assert_eq!(steps[1], "open [\"/wt/x\", \"/plain\"] true");
    assert_eq!(steps[9], "activate true None");
    assert_eq!(steps[10..].to_vec(), vec![format!("show {told}"), "clear".to_string()]);
    assert_eq!(outcome, Err(told));
    let (steps, outcome) = open_with(request(), |action| match action {
        OpenAction::RunSetup { .. } => OpenEvent::Ended(Err("task failed".to_string())),
        OpenAction::OpenWorkspace { .. } => OpenEvent::Ended(Err("no host".to_string())),
        _ => well(action),
    });
    assert_eq!(steps[2..].to_vec(), vec!["dismiss"]);
    assert_eq!(outcome, Err("no host".to_string()));
    for gone in ["set up", "open", "restore", "activate"] {
        let (_, outcome) = open_with(request(), |action| match action {
            OpenAction::RunSetup { .. } if gone == "set up" => {
                OpenEvent::WindowGone("gone".to_string())
            }
            OpenAction::OpenWorkspace { .. } if gone == "open" => {
                OpenEvent::WindowGone("gone".to_string())
            }
            OpenAction::Restore { .. } if gone == "restore" => {
                OpenEvent::WindowGone("gone".to_string())
            }
            OpenAction::Activate { .. } if gone == "activate" => {
                OpenEvent::WindowGone("gone".to_string())
            }
            _ => well(action),
        });
        assert_eq!(outcome, Err("gone".to_string()));
    }
}

#[test]
fn files_go_by_the_deepest_directory() {
    let remapping = vec![
        (path("/repo"), path("/wt/x")),
        (path("/repo/inner"), path("/wt/inner")),
        (path("/repo/inner"), path("/wt/later")),
    ];
    let plain = vec![path("/plain")];
    let remap = |text: &str| remap_path(&remapping, &plain, &path(text)).map(|p| p.to_text());
    assert_eq!(remap("/repo/src/a.rs").as_deref(), Some("/wt/x/src/a.rs"));
    assert_eq!(remap("/repo/inner/a.rs").as_deref(), Some("/wt/later/a.rs"));
    assert_eq!(remap("/repo").as_deref(), Some("/wt/x/"));
    assert_eq!(remap("/repo/./src//a.rs/").as_deref(), Some("/wt/x/src//a.rs"));
    assert_eq!(remap("/plain/notes").as_deref(), Some("/plain/notes"));
    assert_eq!(remap("/other"), None);
}

#[test]
fn trust_is_passed_on_from_an_unrestricted_source() {
    let found = vec![Some(1), None, Some(2), Some(1)];
    assert_eq!(maybe_propagate_worktree_trust(false, Some(false), &found), vec![1, 2]);
    assert!(maybe_propagate_worktree_trust(false, Some(true), &found).is_empty());
    assert!(maybe_propagate_worktree_trust(false, None, &found).is_empty());
    assert!(maybe_propagate_worktree_trust(true, Some(false), &found).is_empty());
}

#[test]
fn removal_tasks_run_for_the_target_path() {
    let context = RemoveWorktreeTaskContext::new(Some(3), 9, Some(path("/root/project")));
    let tasks = run_remove_worktree_tasks(context, path("/root/worktrees/feature")).unwrap();
    assert_eq!((tasks.workspace, tasks.task_source_worktree_id), (3, 9));
    assert_eq!(tasks.worktree_path.to_text(), "/root/worktrees/feature");
    assert_eq!(tasks.main_git_worktree.unwrap().to_text(), "/root/project");
    let context = RemoveWorktreeTaskContext::new(None, 9, None);
    assert!(run_remove_worktree_tasks(context, path("/x")).is_none());
}
